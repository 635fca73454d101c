use denpabot::app_data::{AppData, DEFAULT_ADMIN_ID};
use denpabot::persist::{PersistError, FORMAT_VERSION};

fn sample() -> AppData {
    let mut data = AppData::new();
    data.add_word("alpha".to_string());
    data.add_word("beta".to_string());
    data.add_word("gamma".to_string());
    data.add_admin("ann".to_string(), 7);
    data
}

#[test]
fn new_rule_set_is_empty() {
    let data = AppData::new();
    assert!(data.words.is_empty());
    assert!(data.admins.is_empty());
}

#[test]
fn seeded_rule_set_has_the_default_admin() {
    let data = AppData::seeded();
    assert!(data.words.is_empty());
    assert_eq!(data.admins, vec![("mip5".to_string(), 231963552292929546)]);
    assert_eq!(DEFAULT_ADMIN_ID, 231963552292929546);
    assert!(data.is_admin(231963552292929546));
    assert!(!data.is_admin(1));
}

#[test]
fn words_keep_insertion_order_and_duplicates() {
    let mut data = AppData::new();
    data.add_word("b".to_string());
    data.add_word("a".to_string());
    data.add_word("b".to_string());
    assert_eq!(data.words, vec!["b", "a", "b"]);
}

#[test]
fn remove_word_deletes_the_named_position_and_shifts_the_rest() {
    let mut data = sample();
    assert!(data.remove_word(2));
    assert_eq!(data.words, vec!["alpha", "gamma"]);
    assert!(data.remove_word(1));
    assert_eq!(data.words, vec!["gamma"]);
    assert!(data.remove_word(1));
    assert!(data.words.is_empty());
    assert_eq!(data.admins, vec![("ann".to_string(), 7)]);
}

#[test]
fn remove_word_out_of_range_changes_nothing() {
    let mut data = sample();
    assert!(!data.remove_word(0));
    assert!(!data.remove_word(4));
    assert!(!data.remove_word(usize::MAX));
    assert_eq!(data, sample());
    assert!(data.remove_word(3));
    assert_eq!(data.words, vec!["alpha", "beta"]);
}

#[test]
fn admins_keep_order_and_duplicates() {
    let mut data = AppData::new();
    data.add_admin("x".to_string(), 2);
    data.add_admin("y".to_string(), 1);
    data.add_admin("x".to_string(), 2);
    assert_eq!(
        data.admins,
        vec![("x".to_string(), 2), ("y".to_string(), 1), ("x".to_string(), 2)]
    );
    assert!(data.is_admin(1));
    assert!(data.is_admin(2));
    assert!(!data.is_admin(3));
}

#[test]
fn build_trie_lowercases_the_words() {
    let mut data = AppData::new();
    data.add_word("BaD".to_string());
    let trie = data.build_trie();
    assert_eq!(trie.find_matches("so bad"), vec![(3, 6)]);
    assert_eq!(trie.find_matches("so BaD"), vec![]);
}

#[test]
fn build_trie_of_empty_word_matches_nothing() {
    let mut data = AppData::new();
    data.add_word(String::new());
    let trie = data.build_trie();
    assert_eq!(trie.find_matches("anything"), vec![]);
    assert_eq!(trie.find_matches(""), vec![]);
    assert!(!trie.find_word("anything"));
}

#[test]
fn persist_then_restore_gives_the_same_rule_set() {
    let mut data = sample();
    data.add_word("alpha".to_string());
    data.add_word("höhe ☃".to_string());
    data.add_admin("bob".to_string(), u64::MAX);
    data.add_admin("ann".to_string(), 7);
    let bytes = data.persist().unwrap();
    assert!(!bytes.is_empty());
    let back = AppData::restore(&bytes).unwrap();
    assert_eq!(back.words, data.words);
    assert_eq!(back.admins, data.admins);
}

#[test]
fn persist_then_restore_of_the_empty_rule_set() {
    let data = AppData::new();
    let back = AppData::restore(&data.persist().unwrap()).unwrap();
    assert_eq!(back, data);
}

#[test]
fn persisted_bytes_begin_with_the_tuple_and_the_version() {
    let bytes = AppData::new().persist().unwrap();
    // an array of three: the version tag, no phrases, no administrators
    assert_eq!(bytes, vec![0x83, 0x01, 0x80, 0x80]);
    assert_eq!(FORMAT_VERSION, 1);
}

#[test]
fn restore_refuses_bytes_that_do_not_decode() {
    assert_eq!(AppData::restore(&[]), Err(PersistError::Malformed));
    assert_eq!(AppData::restore(&[0xff, 0x00]), Err(PersistError::Malformed));
    // a well-formed array with a trailing byte
    assert_eq!(
        AppData::restore(&[0x83, 0x01, 0x80, 0x80, 0x00]),
        Err(PersistError::Malformed)
    );
}

#[test]
fn restore_refuses_another_version() {
    assert_eq!(
        AppData::restore(&[0x83, 0x02, 0x80, 0x80]),
        Err(PersistError::Version(2))
    );
    assert_eq!(
        AppData::from_stored(0, vec![], vec![]),
        Err(PersistError::Version(0))
    );
}

#[test]
fn from_stored_keeps_both_lists() {
    let data = AppData::from_stored(
        1,
        vec!["a".to_string(), "b".to_string()],
        vec![("n".to_string(), 5)],
    )
    .unwrap();
    assert_eq!(data.words, vec!["a", "b"]);
    assert_eq!(data.admins, vec![("n".to_string(), 5)]);
}

#[test]
fn is_stored_as_compares_version_and_both_lists_in_order() {
    let data = sample();
    let words = data.words.clone();
    let admins = data.admins.clone();
    assert!(data.is_stored_as(1, &words, &admins));
    assert!(!data.is_stored_as(2, &words, &admins));
    let mut swapped = words.clone();
    swapped.swap(0, 1);
    assert!(!data.is_stored_as(1, &swapped, &admins));
    assert!(!data.is_stored_as(1, &words[..2].to_vec(), &admins));
    assert!(!data.is_stored_as(1, &words, &vec![("ann".to_string(), 8)]));
    assert!(!data.is_stored_as(1, &words, &vec![("anne".to_string(), 7)]));
    assert!(!data.is_stored_as(1, &words, &vec![]));
}
