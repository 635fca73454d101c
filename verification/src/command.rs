//! The command surface: which verb a message carries, and the list position
//! that a removal names.

use vstd::prelude::*;
use crate::text::to_chars;

verus! {

/// What a message asks for.
#[derive(Clone, Copy, Debug, PartialEq, Eq, Structural)]
pub enum Verb {
    /// Show the commands.
    Help,
    /// Show the rule set.
    List,
    /// Make the mentioned users administrators.
    Admin,
    /// Remove the phrase at a position.
    Remove,
    /// Add a phrase.
    Add,
    /// No command: a message to be judged.
    Text,
}

/// The verb of a message. `d!help` and `d!list` are open to everyone and
/// must be the whole message; the other three count only from an
/// administrator and are told by how the message begins.
pub open spec fn verb_of(content: Seq<char>, from_admin: bool) -> Verb {
    if content == "d!help"@ {
        Verb::Help
    } else if content == "d!list"@ {
        Verb::List
    } else if from_admin && "d!admin"@.is_prefix_of(content) {
        Verb::Admin
    } else if from_admin && "d!remove "@.is_prefix_of(content) {
        Verb::Remove
    } else if from_admin && "d!add "@.is_prefix_of(content) {
        Verb::Add
    } else {
        Verb::Text
    }
}

/// Whether `text` begins with `prefix`.
pub fn begins_with(text: &Vec<char>, prefix: &Vec<char>) -> (r: bool)
    ensures
        r == prefix@.is_prefix_of(text@),
{
    if prefix.len() > text.len() {
        return false;
    }
    let mut i: usize = 0;
    while i < prefix.len()
        invariant
            i <= prefix@.len() <= text@.len(),
            forall|k: int| 0 <= k < i ==> prefix@[k] == text@[k],
        decreases prefix@.len() - i,
    {
        if prefix[i] != text[i] {
            assert(text@.subrange(0, prefix@.len() as int)[i as int] != prefix@[i as int]);
            return false;
        }
        i += 1;
    }
    assert(text@.subrange(0, prefix@.len() as int) =~= prefix@);
    true
}

/// Whether `text` is exactly `word`.
fn is_word(text: &Vec<char>, word: &Vec<char>) -> (r: bool)
    ensures
        r == (text@ == word@),
{
    let r = text.len() == word.len() && begins_with(text, word);
    proof {
        if r {
            assert(text@.subrange(0, word@.len() as int) =~= text@);
        }
    }
    r
}

/// Reads the verb of a message.
pub fn verb(content: &str, from_admin: bool) -> (r: Verb)
    ensures
        r == verb_of(content@, from_admin),
{
    let text = to_chars(content);
    if is_word(&text, &to_chars("d!help")) {
        Verb::Help
    } else if is_word(&text, &to_chars("d!list")) {
        Verb::List
    } else if from_admin && begins_with(&text, &to_chars("d!admin")) {
        Verb::Admin
    } else if from_admin && begins_with(&text, &to_chars("d!remove ")) {
        Verb::Remove
    } else if from_admin && begins_with(&text, &to_chars("d!add ")) {
        Verb::Add
    } else {
        Verb::Text
    }
}

/// A decimal digit.
pub open spec fn is_digit(c: char) -> bool {
    48 <= c as u32 <= 57
}

/// The value of a decimal digit, and 0 for any other character.
pub open spec fn digit_value(c: char) -> nat {
    if is_digit(c) {
        (c as u32 - 48) as nat
    } else {
        0
    }
}

/// Every character is a decimal digit.
pub open spec fn all_digits(s: Seq<char>) -> bool {
    forall|i: int| 0 <= i < s.len() ==> is_digit(#[trigger] s[i])
}

/// The number that a run of decimal digits writes.
pub open spec fn digits_value(s: Seq<char>) -> nat
    decreases s.len(),
{
    if s.len() == 0 {
        0
    } else {
        digits_value(s.drop_last()) * 10 + digit_value(s.last())
    }
}

/// The number that a text of decimal digits writes: the text is one or more
/// digits and nothing else, and the number fits the machine's word.
pub open spec fn number_of(d: Seq<char>) -> Option<usize> {
    if d.len() > 0 && all_digits(d) && digits_value(d) <= usize::MAX {
        Some(digits_value(d) as usize)
    } else {
        None
    }
}

/// A text without the one plus sign that may lead it.
pub open spec fn unsigned_part(s: Seq<char>) -> Seq<char> {
    if s.len() > 0 && s[0] == '+' {
        s.subrange(1, s.len() as int)
    } else {
        s
    }
}

/// The list position that a text names: one or more decimal digits, which
/// one plus sign may lead, and nothing else; the number fits the machine's
/// word.
pub open spec fn position_of(s: Seq<char>) -> Option<usize> {
    number_of(unsigned_part(s))
}

proof fn lemma_digits_grow(s: Seq<char>, k: int)
    requires
        0 <= k <= s.len(),
    ensures
        digits_value(s.subrange(0, k)) <= digits_value(s),
    decreases s.len() - k,
{
    if k < s.len() {
        lemma_digits_grow(s, k + 1);
        assert(s.subrange(0, k + 1).drop_last() =~= s.subrange(0, k));
    } else {
        assert(s.subrange(0, k) =~= s);
    }
}

/// Reads the number that the characters from `start` on write.
fn parse_digits(chars: &Vec<char>, start: usize) -> (r: Option<usize>)
    requires
        start <= chars@.len(),
    ensures
        r == number_of(chars@.subrange(start as int, chars@.len() as int)),
{
    let ghost digits = chars@.subrange(start as int, chars@.len() as int);
    if start == chars.len() {
        return None;
    }
    let mut acc: usize = 0;
    let mut i: usize = start;
    while i < chars.len()
        invariant
            digits == chars@.subrange(start as int, chars@.len() as int),
            start <= i <= chars@.len(),
            all_digits(digits.subrange(0, i - start)),
            acc == digits_value(digits.subrange(0, i - start)),
        decreases chars@.len() - i,
    {
        let c = chars[i];
        let code: u32 = c as u32;
        if code < 48 || code > 57 {
            assert(!is_digit(digits[i - start]));
            return None;
        }
        let d: usize = (code - 48) as usize;
        proof {
            assert(digits.subrange(0, i - start + 1).drop_last() =~= digits.subrange(
                0,
                i - start,
            ));
            assert(digits.subrange(0, i - start + 1).last() == c);
            lemma_digits_grow(digits, i - start + 1);
        }
        let next = match acc.checked_mul(10) {
            Some(m) => m.checked_add(d),
            None => None,
        };
        match next {
            Some(v) => {
                acc = v;
            },
            None => {
                return None;
            },
        }
        i += 1;
    }
    assert(digits.subrange(0, i - start) =~= digits);
    Some(acc)
}

/// Reads a list position: a run of decimal digits, which one plus sign may
/// lead. Anything else, and a number too large for the machine's word, is no
/// position.
pub fn parse_position(text: &str) -> (r: Option<usize>)
    ensures
        r == position_of(text@),
{
    let chars = to_chars(text);
    if chars.len() > 0 && chars[0] == '+' {
        parse_digits(&chars, 1)
    } else {
        assert(chars@.subrange(0, chars@.len() as int) =~= chars@);
        parse_digits(&chars, 0)
    }
}

} // verus!
