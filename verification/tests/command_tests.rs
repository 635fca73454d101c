use denpabot::command::{begins_with, parse_position, verb, Verb};
use denpabot::text::to_chars;

#[test]
fn help_and_list_are_open_to_everyone() {
    assert_eq!(verb("d!help", false), Verb::Help);
    assert_eq!(verb("d!list", false), Verb::List);
    assert_eq!(verb("d!help", true), Verb::Help);
    assert_eq!(verb("d!list", true), Verb::List);
}

#[test]
fn help_and_list_must_be_the_whole_message() {
    assert_eq!(verb("d!help me", true), Verb::Text);
    assert_eq!(verb(" d!list", true), Verb::Text);
    assert_eq!(verb("d!hel", true), Verb::Text);
}

#[test]
fn mutating_verbs_need_an_administrator() {
    assert_eq!(verb("d!admin @x", true), Verb::Admin);
    assert_eq!(verb("d!remove 2", true), Verb::Remove);
    assert_eq!(verb("d!add spam", true), Verb::Add);
    assert_eq!(verb("d!admin @x", false), Verb::Text);
    assert_eq!(verb("d!remove 2", false), Verb::Text);
    assert_eq!(verb("d!add spam", false), Verb::Text);
}

#[test]
fn mutating_verbs_are_told_by_their_prefix() {
    assert_eq!(verb("d!admin", true), Verb::Admin);
    assert_eq!(verb("d!administer", true), Verb::Admin);
    assert_eq!(verb("d!remove", true), Verb::Text);
    assert_eq!(verb("d!add", true), Verb::Text);
    assert_eq!(verb("d!add ", true), Verb::Add);
    assert_eq!(verb("", true), Verb::Text);
    assert_eq!(verb("hello", true), Verb::Text);
}

#[test]
fn begins_with_compares_characters() {
    assert!(begins_with(&to_chars("héllo"), &to_chars("hé")));
    assert!(begins_with(&to_chars("abc"), &to_chars("")));
    assert!(begins_with(&to_chars("abc"), &to_chars("abc")));
    assert!(!begins_with(&to_chars("abc"), &to_chars("abcd")));
    assert!(!begins_with(&to_chars("abc"), &to_chars("b")));
}

#[test]
fn to_chars_gives_the_characters_in_order() {
    assert_eq!(to_chars("aé☃"), vec!['a', 'é', '☃']);
    assert_eq!(to_chars(""), Vec::<char>::new());
}

#[test]
fn parse_position_reads_decimal_digits() {
    assert_eq!(parse_position("0"), Some(0));
    assert_eq!(parse_position("1"), Some(1));
    assert_eq!(parse_position("42"), Some(42));
    assert_eq!(parse_position("007"), Some(7));
    assert_eq!(parse_position("1234567890"), Some(1234567890));
}

#[test]
fn parse_position_takes_one_leading_plus_sign() {
    assert_eq!(parse_position("+2"), Some(2));
    assert_eq!(parse_position("+0"), Some(0));
    assert_eq!(parse_position("+007"), Some(7));
    assert_eq!(parse_position("+"), None);
    assert_eq!(parse_position("++1"), None);
    assert_eq!(parse_position("1+"), None);
    assert_eq!(parse_position("+ 1"), None);
    assert_eq!(parse_position("+-1"), None);
    let mut past = "+".to_string();
    past.push_str(&usize::MAX.to_string());
    assert_eq!(parse_position(&past), Some(usize::MAX));
    past.push('9');
    assert_eq!(parse_position(&past), None);
}

#[test]
fn parse_position_refuses_anything_else() {
    assert_eq!(parse_position(""), None);
    assert_eq!(parse_position("abc"), None);
    assert_eq!(parse_position("1a"), None);
    assert_eq!(parse_position(" 1"), None);
    assert_eq!(parse_position("1 "), None);
    assert_eq!(parse_position("-1"), None);
    assert_eq!(parse_position("1.5"), None);
    assert_eq!(parse_position("١"), None);
}

#[test]
fn parse_position_refuses_numbers_past_the_machine_word() {
    assert_eq!(parse_position(&usize::MAX.to_string()), Some(usize::MAX));
    assert_eq!(parse_position("340282366920938463463374607431768211456"), None);
    let mut past = usize::MAX.to_string();
    past.push('0');
    assert_eq!(parse_position(&past), None);
}
