//! The replies that show the rule set: numbered lists of the blocked
//! phrases and of the administrators' names.

use vstd::prelude::*;
use vstd::string::StringExecFns;
use crate::app_data::AppData;
use crate::text::texts;

verus! {

/// The decimal digit for a value below ten.
pub open spec fn digit(d: nat) -> char {
    seq!['0', '1', '2', '3', '4', '5', '6', '7', '8', '9'][d as int]
}

/// A number written in decimal, without leading zeros.
pub open spec fn decimal(n: nat) -> Seq<char>
    decreases n,
{
    if n < 10 {
        seq![digit(n)]
    } else {
        decimal(n / 10).push(digit(n % 10))
    }
}

/// One line of a list: the number, a full stop, a space, the entry, a line
/// break.
pub open spec fn numbered(n: nat, entry: Seq<char>) -> Seq<char> {
    decimal(n) + ". "@ + entry + "\n"@
}

/// The entries of a list, one numbered line each, counted from 1.
pub open spec fn numbered_lines(entries: Seq<Seq<char>>) -> Seq<char>
    decreases entries.len(),
{
    if entries.len() == 0 {
        Seq::empty()
    } else {
        numbered_lines(entries.drop_last()) + numbered(entries.len(), entries.last())
    }
}

/// The body of a list: its numbered lines, or the mark `x` where it is
/// empty.
pub open spec fn list_body(entries: Seq<Seq<char>>) -> Seq<char> {
    if entries.len() == 0 {
        "x"@
    } else {
        numbered_lines(entries)
    }
}

/// The names of a list of administrators.
pub open spec fn names(admins: Seq<(Seq<char>, u64)>) -> Seq<Seq<char>> {
    Seq::new(admins.len(), |i: int| admins[i].0)
}

/// The whole reply: after a change the word `Updated!`, then the blocked
/// phrases and the administrators' names, each list fenced.
pub open spec fn listing_text(
    words: Seq<Seq<char>>,
    admins: Seq<(Seq<char>, u64)>,
    on_update: bool,
) -> Seq<char> {
    (if on_update {
        "Updated!\n"@
    } else {
        Seq::empty()
    }) + "Banned word list:\n```\n"@ + list_body(words) + "```\n"@ + "Admin list:\n```\n"@
        + list_body(names(admins)) + "```"@
}

/// Calls `to_string` on an unsigned integer: the number as the standard
/// library displays it, that is in decimal without leading zeros.
#[verifier::external_body]
fn decimal_string(n: usize) -> (r: String)
    ensures
        r@ == decimal(n as nat),
{
    n.to_string()
}

/// One line of a list: the number, a full stop, a space, the entry, a line
/// break.
fn numbered_line(n: usize, entry: &str) -> (r: String)
    ensures
        r@ == numbered(n as nat, entry@),
{
    let mut line = decimal_string(n);
    line.append(". ");
    line.append(entry);
    line.append("\n");
    line
}

/// Appends the body of a list to `say`.
fn append_list(say: &mut String, entries: &Vec<String>)
    ensures
        final(say)@ == old(say)@ + list_body(texts(entries@)),
{
    if entries.len() == 0 {
        say.append("x");
        return ;
    }
    let ghost start = say@;
    let mut i: usize = 0;
    assert(numbered_lines(texts(entries@).subrange(0, 0)) =~= Seq::<char>::empty());
    assert(start + Seq::<char>::empty() =~= start);
    while i < entries.len()
        invariant
            i <= entries@.len(),
            say@ == start + numbered_lines(texts(entries@).subrange(0, i as int)),
        decreases entries@.len() - i,
    {
        let line = numbered_line(i + 1, entries[i].as_str());
        say.append(line.as_str());
        proof {
            let all = texts(entries@);
            let upto = all.subrange(0, i + 1);
            assert(upto.drop_last() =~= all.subrange(0, i as int));
            assert(upto.last() == entries@[i as int]@);
            assert(say@ =~= start + numbered_lines(upto));
        }
        i += 1;
    }
    assert(texts(entries@).subrange(0, i as int) =~= texts(entries@));
}

/// The administrators' names, in order.
fn admin_names(admins: &Vec<(String, u64)>) -> (r: Vec<String>)
    ensures
        texts(r@) == names(crate::app_data::admin_entries(admins@)),
{
    let mut out: Vec<String> = Vec::new();
    let mut i: usize = 0;
    while i < admins.len()
        invariant
            i <= admins@.len(),
            out@.len() == i,
            forall|k: int| 0 <= k < i ==> (#[trigger] out@[k])@ == admins@[k].0@,
        decreases admins@.len() - i,
    {
        out.push(admins[i].0.clone());
        i += 1;
    }
    assert(texts(out@) =~= names(crate::app_data::admin_entries(admins@)));
    out
}

impl AppData {
    /// The reply that lists the rule set. Entries are numbered from 1; an
    /// empty list shows as `x`.
    pub fn say_list(&self, on_update: bool) -> (r: String)
        ensures
            r@ == listing_text(self.word_texts(), self.admin_list(), on_update),
    {
        let mut say = String::new();
        if on_update {
            say.append("Updated!\n");
        }
        assert(say@ =~= if on_update {
            "Updated!\n"@
        } else {
            Seq::<char>::empty()
        });
        say.append("Banned word list:\n```\n");
        append_list(&mut say, &self.words);
        say.append("```\n");
        say.append("Admin list:\n```\n");
        let admins = admin_names(&self.admins);
        append_list(&mut say, &admins);
        say.append("```");
        say
    }
}

} // verus!
