//! The rule set: the blocked phrases and the administrators, both in the
//! order in which they were added.

use vstd::prelude::*;
use crate::text::{all_empty, lowercase, lowercase_all, lowercased, same_emptiness, texts};
use crate::trie::{phrase_set, Trie};

verus! {

/// The administrator that every rule set starts with.
pub const DEFAULT_ADMIN_ID: u64 = 231963552292929546;

/// The blocked phrases and the administrators. Phrases may repeat; a
/// phrase's place in the list, counted from 1, is how it is named for
/// removal. Administrators are pairs of a display name and an identity and
/// may repeat too.
#[derive(Clone, Debug, PartialEq, Eq)]
pub struct AppData {
    pub words: Vec<String>,
    pub admins: Vec<(String, u64)>,
}

/// The names and identities of a list of administrators.
pub open spec fn admin_entries(v: Seq<(String, u64)>) -> Seq<(Seq<char>, u64)> {
    Seq::new(v.len(), |i: int| (v[i].0@, v[i].1))
}

/// The block-list that a list of words gives: the lower-case form of every
/// word that is not empty.
pub open spec fn blocked_set(words: Seq<Seq<char>>) -> Set<Seq<char>> {
    Set::new(
        |p: Seq<char>|
            exists|i: int|
                0 <= i < words.len() && (#[trigger] words[i]).len() > 0 && p == lowercase(
                    words[i],
                ),
    )
}

/// What a phrase set keeps of a list of lower-case forms is the block-list
/// of the words they were made from, where the forms are empty exactly
/// where the words are.
pub proof fn lemma_blocked_from_forms(words: Seq<Seq<char>>, forms: Seq<Seq<char>>)
    requires
        forms == lowercased(words),
        same_emptiness(words, forms),
    ensures
        phrase_set(forms) == blocked_set(words),
{
    assert forall|p: Seq<char>| phrase_set(forms).contains(p) == blocked_set(words).contains(
        p,
    ) by {
        if phrase_set(forms).contains(p) {
            let k = choose|k: int| 0 <= k < forms.len() && forms[k] == p;
            assert(words[k].len() > 0 && p == lowercase(words[k]));
        }
        if blocked_set(words).contains(p) {
            let i = choose|i: int|
                0 <= i < words.len() && (#[trigger] words[i]).len() > 0 && p == lowercase(
                    words[i],
                );
            assert(forms[i] == p);
        }
    }
    assert(phrase_set(forms) =~= blocked_set(words));
}

/// A rule set whose words are all empty blocks nothing.
pub proof fn lemma_empty_words_block_nothing(words: Seq<Seq<char>>)
    requires
        all_empty(words),
    ensures
        blocked_set(words) == Set::<Seq<char>>::empty(),
{
    assert(blocked_set(words) =~= Set::<Seq<char>>::empty());
}

/// A word added to the list adds its lower-case form to the block-list,
/// unless the word is empty.
pub proof fn lemma_blocked_after_add(words: Seq<Seq<char>>, phrase: Seq<char>)
    ensures
        blocked_set(words.push(phrase)) == if phrase.len() == 0 {
            blocked_set(words)
        } else {
            blocked_set(words).insert(lowercase(phrase))
        },
{
    let more = words.push(phrase);
    let want = if phrase.len() == 0 {
        blocked_set(words)
    } else {
        blocked_set(words).insert(lowercase(phrase))
    };
    assert forall|p: Seq<char>| blocked_set(more).contains(p) == want.contains(p) by {
        if blocked_set(words).contains(p) {
            let i = choose|i: int|
                0 <= i < words.len() && (#[trigger] words[i]).len() > 0 && p == lowercase(
                    words[i],
                );
            assert(more[i] == words[i]);
        }
        if blocked_set(more).contains(p) {
            let i = choose|i: int|
                0 <= i < more.len() && (#[trigger] more[i]).len() > 0 && p == lowercase(more[i]);
            if i < words.len() {
                assert(words[i] == more[i]);
            }
        }
        if phrase.len() > 0 && p == lowercase(phrase) {
            assert(more[words.len() as int] == phrase);
        }
    }
    assert(blocked_set(more) =~= want);
}

/// Some administrator of the list has the identity `id`.
pub open spec fn has_admin(admins: Seq<(Seq<char>, u64)>, id: u64) -> bool {
    exists|i: int| 0 <= i < admins.len() && (#[trigger] admins[i]).1 == id
}

impl Default for AppData {
    /// The rule set with no phrase and no administrator.
    fn default() -> (r: AppData)
        ensures
            r.word_texts() == Seq::<Seq<char>>::empty(),
            r.admin_list() == Seq::<(Seq<char>, u64)>::empty(),
    {
        AppData::new()
    }
}

impl AppData {
    /// The blocked phrases as texts.
    pub open spec fn word_texts(&self) -> Seq<Seq<char>> {
        texts(self.words@)
    }

    /// The administrators as pairs of a name's text and an identity.
    pub open spec fn admin_list(&self) -> Seq<(Seq<char>, u64)> {
        admin_entries(self.admins@)
    }

    /// The phrases that the block-list index holds for this rule set: the
    /// lower-case form of every word that is not empty.
    pub open spec fn blocked(&self) -> Set<Seq<char>> {
        blocked_set(self.word_texts())
    }

    /// A rule set with no phrase and no administrator.
    pub fn new() -> (r: AppData)
        ensures
            r.word_texts() == Seq::<Seq<char>>::empty(),
            r.admin_list() == Seq::<(Seq<char>, u64)>::empty(),
    {
        let r = AppData { words: Vec::new(), admins: Vec::new() };
        assert(r.word_texts() =~= Seq::<Seq<char>>::empty());
        assert(r.admin_list() =~= Seq::<(Seq<char>, u64)>::empty());
        r
    }

    /// A rule set with no phrase and the one administrator that is always
    /// present at startup.
    pub fn seeded() -> (r: AppData)
        ensures
            r.word_texts() == Seq::<Seq<char>>::empty(),
            r.admin_list() == seq![("mip5"@, DEFAULT_ADMIN_ID)],
    {
        let mut r = AppData::new();
        r.add_admin(String::from_str("mip5"), DEFAULT_ADMIN_ID);
        assert(r.admin_list() =~= seq![("mip5"@, DEFAULT_ADMIN_ID)]);
        r
    }

    /// Appends a phrase to the block-list.
    pub fn add_word(&mut self, phrase: String)
        ensures
            final(self).word_texts() == old(self).word_texts().push(phrase@),
            final(self).admins == old(self).admins,
    {
        self.words.push(phrase);
        assert(self.word_texts() =~= old(self).word_texts().push(phrase@));
    }

    /// Removes the phrase at `position`, counted from 1, and says whether
    /// there was one. The phrases behind it move up by one place; a position
    /// of 0 or past the end changes nothing.
    pub fn remove_word(&mut self, position: usize) -> (removed: bool)
        ensures
            removed == (1 <= position <= old(self).word_texts().len()),
            removed ==> final(self).word_texts() == old(self).word_texts().remove(position - 1),
            !removed ==> final(self).words == old(self).words,
            final(self).admins == old(self).admins,
    {
        if position == 0 || position > self.words.len() {
            return false;
        }
        self.words.remove(position - 1);
        assert(self.word_texts() =~= old(self).word_texts().remove(position - 1));
        true
    }

    /// Appends an administrator.
    pub fn add_admin(&mut self, name: String, id: u64)
        ensures
            final(self).admin_list() == old(self).admin_list().push((name@, id)),
            final(self).words == old(self).words,
    {
        self.admins.push((name, id));
        assert(self.admin_list() =~= old(self).admin_list().push((name@, id)));
    }

    /// Whether `id` belongs to an administrator.
    pub fn is_admin(&self, id: u64) -> (r: bool)
        ensures
            r == has_admin(self.admin_list(), id),
    {
        let mut i: usize = 0;
        while i < self.admins.len()
            invariant
                i <= self.admins@.len(),
                forall|k: int| 0 <= k < i ==> (#[trigger] self.admin_list()[k]).1 != id,
            decreases self.admins@.len() - i,
        {
            if self.admins[i].1 == id {
                assert(self.admin_list()[i as int].1 == id);
                return true;
            }
            i += 1;
        }
        false
    }

    /// Builds the block-list index: every word in lower case, empty ones
    /// left out. A rule set whose words are all empty gives an index that
    /// holds nothing.
    pub fn build_trie(&self) -> (r: Trie)
        ensures
            r.wf(),
            r@ == self.blocked(),
            all_empty(self.word_texts()) ==> r@ == Set::<Seq<char>>::empty(),
    {
        let lowered = lowercase_all(&self.words);
        proof {
            lemma_blocked_from_forms(self.word_texts(), texts(lowered@));
            if all_empty(self.word_texts()) {
                lemma_empty_words_block_nothing(self.word_texts());
            }
        }
        Trie::from_phrases(&lowered)
    }
}

/// Removing the phrase at a position of the list deletes that phrase alone:
/// the phrases before it keep their places and those behind it move up by
/// one.
pub proof fn lemma_remove_shifts(words: Seq<Seq<char>>, position: int, k: int)
    requires
        1 <= position <= words.len(),
        0 <= k < words.len() - 1,
    ensures
        words.remove(position - 1).len() == words.len() - 1,
        k < position - 1 ==> words.remove(position - 1)[k] == words[k],
        k >= position - 1 ==> words.remove(position - 1)[k] == words[k + 1],
{
}

} // verus!
