use denpabot::trie::Trie;

fn index_of(phrases: &[&str]) -> Trie {
    let mut trie = Trie::new();
    for p in phrases {
        trie.insert(p);
    }
    trie
}

#[test]
fn empty_index_matches_nothing() {
    let trie = Trie::new();
    assert_eq!(trie.find_matches("anything at all"), vec![]);
    assert!(!trie.find_word("anything at all"));
}

#[test]
fn single_phrase_is_found_with_half_open_span() {
    let trie = index_of(&["ass"]);
    assert_eq!(trie.find_matches("that's classic"), vec![(9, 12)]);
    assert_eq!(trie.find_matches("you're an ass"), vec![(10, 13)]);
}

#[test]
fn every_occurrence_is_reported() {
    let trie = index_of(&["ab"]);
    assert_eq!(trie.find_matches("abxabab"), vec![(0, 2), (3, 5), (5, 7)]);
}

#[test]
fn prefix_phrase_and_longer_phrase_are_both_reported() {
    let trie = index_of(&["he", "hello", "hell"]);
    assert_eq!(trie.find_matches("hello"), vec![(0, 2), (0, 4), (0, 5)]);
}

#[test]
fn overlapping_and_nested_phrases_are_reported_in_start_order() {
    let trie = index_of(&["abc", "bc", "bcd", "c"]);
    assert_eq!(
        trie.find_matches("abcd"),
        vec![(0, 3), (1, 3), (1, 4), (2, 3)]
    );
}

#[test]
fn walk_stops_at_first_missing_character() {
    let trie = index_of(&["abcd"]);
    assert_eq!(trie.find_matches("abxd abc"), vec![]);
    assert!(!trie.find_word("abxd abc"));
}

#[test]
fn inserting_twice_equals_inserting_once() {
    let once = index_of(&["spam"]);
    let twice = index_of(&["spam", "spam"]);
    for text in ["spam", "no spam here", "spa", "spamspam", ""] {
        assert_eq!(once.find_matches(text), twice.find_matches(text));
        assert_eq!(once.find_word(text), twice.find_word(text));
    }
    assert_eq!(twice.find_matches("spamspam"), vec![(0, 4), (4, 8)]);
}

#[test]
fn empty_phrase_is_ignored() {
    let trie = index_of(&[""]);
    assert_eq!(trie.find_matches(""), vec![]);
    assert_eq!(trie.find_matches("abc"), vec![]);
    assert!(!trie.find_word("abc"));
}

#[test]
fn empty_phrase_does_not_disturb_other_phrases() {
    let trie = index_of(&["a", "", "b"]);
    assert_eq!(trie.find_matches("ab"), vec![(0, 1), (1, 2)]);
}

#[test]
fn find_word_agrees_with_scan() {
    let trie = index_of(&["cat", "dog", "do"]);
    for text in ["", "c", "ca", "cat", "concatenate", "hotdog", "d", "odd", "xdox", "bird"] {
        assert_eq!(trie.find_word(text), !trie.find_matches(text).is_empty(), "{}", text);
    }
    assert!(trie.find_word("concatenate"));
    assert!(!trie.find_word("bird"));
}

#[test]
fn find_word_sees_a_phrase_in_the_middle() {
    let trie = index_of(&["ass"]);
    assert!(trie.find_word("classic"));
    assert!(!trie.find_word("clasp"));
}

#[test]
fn matching_is_case_sensitive() {
    let trie = index_of(&["bad"]);
    assert_eq!(trie.find_matches("BAD bad Bad"), vec![(4, 7)]);
}

#[test]
fn offsets_count_characters() {
    let trie = index_of(&["né"]);
    assert_eq!(trie.find_matches("éé né"), vec![(3, 5)]);
    let trie = index_of(&["x"]);
    assert_eq!(trie.find_matches("ééx"), vec![(2, 3)]);
}

#[test]
fn reset_empties_the_index() {
    let mut trie = index_of(&["abc"]);
    assert!(trie.find_word("abc"));
    trie.reset();
    assert!(!trie.find_word("abc"));
    assert_eq!(trie.find_matches("abc"), vec![]);
    trie.insert("bc");
    assert_eq!(trie.find_matches("abc"), vec![(1, 3)]);
}

#[test]
fn from_phrases_takes_the_words_as_written() {
    let words = vec!["ab".to_string(), String::new(), "b".to_string()];
    let trie = Trie::from_phrases(&words);
    assert_eq!(trie.find_matches("ab AB"), vec![(0, 2), (1, 2)]);
}

#[test]
fn allow_list_leaves_out_blocked_candidates() {
    let block = index_of(&["ass", "hell"]);
    let candidates = vec![
        "classic".to_string(),
        "shell".to_string(),
        "assassin".to_string(),
        "bottle".to_string(),
        String::new(),
    ];
    let allow = block.allow_list(&candidates, &candidates);
    // every candidate holds a blocked phrase but "bottle"
    assert_eq!(allow.find_matches("classic shell bottle"), vec![(14, 20)]);
}

#[test]
fn allow_list_tests_the_candidate_and_stores_its_form() {
    let block = index_of(&["ass"]);
    let candidates = vec!["Ass".to_string(), "ass".to_string(), "Bass".to_string()];
    let forms = vec!["x".to_string(), "y".to_string(), "z".to_string()];
    let allow = block.allow_list(&candidates, &forms);
    // "Ass" as written holds no blocked phrase; "ass" and "Bass" do
    assert_eq!(allow.find_matches("xyz"), vec![(0, 1)]);
}

#[test]
fn allow_list_stops_at_the_shorter_list() {
    let block = index_of(&["q"]);
    let candidates = vec!["a".to_string(), "b".to_string(), "c".to_string()];
    let forms = vec!["a".to_string(), "b".to_string()];
    assert_eq!(
        block.allow_list(&candidates, &forms).find_matches("abc"),
        vec![(0, 1), (1, 2)]
    );
    assert_eq!(
        block.allow_list(&forms, &candidates).find_matches("abc"),
        vec![(0, 1), (1, 2)]
    );
}

#[test]
fn allow_list_leaves_out_empty_forms() {
    let block = index_of(&["q"]);
    let candidates = vec!["a".to_string(), "b".to_string()];
    let forms = vec![String::new(), "b".to_string()];
    assert_eq!(
        block.allow_list(&candidates, &forms).find_matches("ab"),
        vec![(1, 2)]
    );
}
