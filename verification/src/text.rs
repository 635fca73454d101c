//! Text helpers shared by the index and the rule set.

use vstd::prelude::*;
use vstd::std_specs::iter::IteratorSpec;

verus! {

/// The lower-case form of a text, as `str::to_lowercase` computes it.
pub uninterp spec fn lowercase(s: Seq<char>) -> Seq<char>;

/// Calls `str::to_lowercase`. The result is the lower-case form of `s` under
/// the Unicode case mapping that the standard library carries, in which
/// every character maps to one or more characters; the contract gives that
/// result its name and adds only that it is empty exactly when `s` is.
#[verifier::external_body]
pub(crate) fn to_lowercase(s: &str) -> (r: String)
    ensures
        r@ == lowercase(s@),
        (r@.len() == 0) == (s@.len() == 0),
{
    s.to_lowercase()
}

/// A text with every occurrence of a pattern replaced: the occurrences are
/// taken from left to right, and the search goes on behind each one, so
/// they do not overlap. An empty pattern leaves the text as it is.
pub open spec fn replaced(s: Seq<char>, from: Seq<char>, to: Seq<char>) -> Seq<char>
    decreases s.len(),
{
    if from.len() == 0 || s.len() < from.len() {
        s
    } else if s.subrange(0, from.len() as int) == from {
        to + replaced(s.subrange(from.len() as int, s.len() as int), from, to)
    } else {
        seq![s[0]] + replaced(s.subrange(1, s.len() as int), from, to)
    }
}

/// Calls `str::replace` with a string pattern that is not empty. The result
/// is `s` with each match of `from`, found from left to right without
/// overlap, replaced by `to`.
#[verifier::external_body]
pub(crate) fn replace(s: &str, from: &str, to: &str) -> (r: String)
    requires
        from@.len() > 0,
    ensures
        r@ == replaced(s@, from@, to@),
{
    s.replace(from, to)
}

/// The lines of a text, as `str::lines` gives them.
pub uninterp spec fn lines_of(text: Seq<char>) -> Seq<Seq<char>>;

/// Calls `str::lines` and copies each line into a string of its own. The
/// result is the text cut at its line endings, the endings left out; the
/// contract only gives that result its name.
#[verifier::external_body]
pub(crate) fn lines(text: &str) -> (r: Vec<String>)
    ensures
        texts(r@) == lines_of(text@),
{
    text.lines().map(str::to_string).collect()
}

/// The texts of a list of strings.
pub open spec fn texts(v: Seq<String>) -> Seq<Seq<char>> {
    Seq::new(v.len(), |i: int| v[i]@)
}

/// Each text of a list in lower case.
pub open spec fn lowercased(ws: Seq<Seq<char>>) -> Seq<Seq<char>> {
    Seq::new(ws.len(), |i: int| lowercase(ws[i]))
}

/// Every text of a list is empty.
pub open spec fn all_empty(ws: Seq<Seq<char>>) -> bool {
    forall|i: int| 0 <= i < ws.len() ==> (#[trigger] ws[i]).len() == 0
}

/// Two lists of equal length are empty at the same places.
pub open spec fn same_emptiness(a: Seq<Seq<char>>, b: Seq<Seq<char>>) -> bool {
    &&& a.len() == b.len()
    &&& forall|i: int| 0 <= i < a.len() ==> ((#[trigger] a[i]).len() == 0) == (b[i].len() == 0)
}

/// Lower-cases every string of a list, keeping the order. A string is
/// empty afterwards exactly where it was empty before.
pub fn lowercase_all(words: &Vec<String>) -> (r: Vec<String>)
    ensures
        texts(r@) == lowercased(texts(words@)),
        same_emptiness(texts(words@), texts(r@)),
{
    let mut out: Vec<String> = Vec::new();
    let mut i: usize = 0;
    while i < words.len()
        invariant
            i <= words@.len(),
            out@.len() == i,
            forall|k: int| 0 <= k < i ==> (#[trigger] out@[k])@ == lowercase(words@[k]@),
            forall|k: int|
                0 <= k < i ==> ((#[trigger] out@[k])@.len() == 0) == (words@[k]@.len() == 0),
        decreases words@.len() - i,
    {
        out.push(to_lowercase(words[i].as_str()));
        i += 1;
    }
    assert(texts(out@) =~= lowercased(texts(words@)));
    assert(same_emptiness(texts(words@), texts(out@))) by {
        assert forall|k: int| 0 <= k < texts(words@).len() implies ((#[trigger] texts(
            words@,
        )[k]).len() == 0) == (texts(out@)[k].len() == 0) by {
            assert(out@[k]@.len() == 0 <==> words@[k]@.len() == 0);
        }
    }
    out
}

/// The characters of `s`, in order.
pub fn to_chars(s: &str) -> (r: Vec<char>)
    ensures
        r@ == s@,
{
    let mut it = s.chars();
    let mut out: Vec<char> = Vec::new();
    assert(out@ + it.remaining() =~= s@);
    loop
        invariant
            it.obeys_prophetic_iter_laws(),
            it.decrease() is Some,
            out@ + it.remaining() == s@,
        ensures
            out@ == s@,
        decreases it.decrease()->0,
    {
        let ghost before = it.remaining();
        match it.next() {
            Some(c) => {
                out.push(c);
                assert(out@ + it.remaining() =~= s@);
            },
            None => {
                assert(before.len() == 0);
                assert(out@ =~= s@);
                break ;
            },
        }
    }
    out
}

} // verus!
