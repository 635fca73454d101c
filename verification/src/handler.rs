//! The moderation state: the rule set together with the two indexes that
//! are rebuilt from it after every change, and the verdict on a message.

use vstd::prelude::*;
use vstd::string::StringExecFns;
use crate::app_data::{admin_entries, blocked_set, has_admin, lemma_blocked_after_add, AppData};
use crate::command::{parse_position, position_of, verb, verb_of, Verb};
use crate::listing::listing_text;
use crate::resolver::{should_suppress, some_uncovered};
use crate::text::{
    lines, lines_of, lowercase, lowercase_all, lowercased, replace, replaced, same_emptiness, texts,
    to_lowercase,
};
use crate::trie::{all_spans, allow_forms, lemma_scan_complete, occurs, Trie};

verus! {

/// Whether a text is suppressed under a block-list and an allow-list: some
/// occurrence of a blocked phrase lies inside no occurrence of an allowed
/// word.
pub open spec fn suppresses(block: Set<Seq<char>>, allow: Set<Seq<char>>, text: Seq<char>) -> bool {
    some_uncovered(
        all_spans(block, text, text.len() as int),
        all_spans(allow, text, text.len() as int),
    )
}

/// The allow-list that a block-list and a dictionary give: the lower-case
/// form of every candidate that is not empty and in which, as it is
/// written, no blocked phrase stands.
pub open spec fn allow_set(block: Set<Seq<char>>, candidates: Seq<Seq<char>>) -> Set<Seq<char>> {
    Set::new(
        |p: Seq<char>|
            exists|i: int|
                0 <= i < candidates.len() && (#[trigger] candidates[i]).len() > 0 && !occurs(
                    block,
                    candidates[i],
                ) && p == lowercase(candidates[i]),
    )
}

/// Stored under their lower-case forms, which are empty exactly where the
/// candidates are, the candidates give the allow-list of the dictionary.
pub proof fn lemma_allow_from_forms(
    block: Set<Seq<char>>,
    candidates: Seq<Seq<char>>,
    forms: Seq<Seq<char>>,
)
    requires
        forms == lowercased(candidates),
        same_emptiness(candidates, forms),
    ensures
        allow_forms(block, candidates, forms, candidates.len() as int) == allow_set(
            block,
            candidates,
        ),
{
    let got = allow_forms(block, candidates, forms, candidates.len() as int);
    assert forall|p: Seq<char>| got.contains(p) == allow_set(block, candidates).contains(p) by {
        if got.contains(p) {
            let i = choose|i: int|
                0 <= i < candidates.len() && !occurs(block, #[trigger] candidates[i]) && forms[i]
                    == p;
            assert(candidates[i].len() > 0 && p == lowercase(candidates[i]));
        }
        if allow_set(block, candidates).contains(p) {
            let i = choose|i: int|
                0 <= i < candidates.len() && (#[trigger] candidates[i]).len() > 0 && !occurs(
                    block,
                    candidates[i],
                ) && p == lowercase(candidates[i]);
            assert(forms[i] == p && p.len() > 0);
        }
    }
    assert(got =~= allow_set(block, candidates));
}

/// What the caller is to do about a message.
#[derive(Clone, Debug, PartialEq, Eq)]
pub enum Reaction {
    /// Nothing.
    Ignore,
    /// Send the text to the channel.
    Say(String),
    /// Store the rule set, then send the text to the channel.
    Persist(String),
    /// Delete the message and send the text to its author.
    Delete(String),
}

/// The reply to `d!help`.
pub open spec fn help_text() -> Seq<char> {
    "Denpabot help:\n```\nd!list - list the banned words and admins\nd!admin {mention} - add an administrator\nd!remove {number} - remove a banned word from the list\nd!add {word} - add a banned word to the list\n```"@
}

/// The reply to a removal that names no list position.
pub open spec fn rejection_text() -> Seq<char> {
    "Not a valid list position"@
}

/// The note to the author of a deleted message, which quotes the message.
pub open spec fn notice_text(content: Seq<char>) -> Seq<char> {
    "Your message was deleted:\n```\n"@ + content + "\n```"@
}

/// The reaction is to send `text` to the channel.
pub open spec fn says(r: Reaction, text: Seq<char>) -> bool {
    r matches Reaction::Say(t) && t@ == text
}

/// The reaction is to store the rule set and send `text` to the channel.
pub open spec fn persists(r: Reaction, text: Seq<char>) -> bool {
    r matches Reaction::Persist(t) && t@ == text
}

/// The reaction is to delete the message and send `text` to its author.
pub open spec fn deletes(r: Reaction, text: Seq<char>) -> bool {
    r matches Reaction::Delete(t) && t@ == text
}

/// The message asks for a change of the rule set: it comes from an
/// administrator who is no bot and carries one of the three verbs that
/// change it.
pub open spec fn asks_for_change(
    admins: Seq<(Seq<char>, u64)>,
    author_is_bot: bool,
    author_id: u64,
    content: Seq<char>,
) -> bool {
    !author_is_bot && changes(verb_of(content, has_admin(admins, author_id)))
}

/// The verb changes the rule set.
pub open spec fn changes(v: Verb) -> bool {
    v == Verb::Admin || v == Verb::Remove || v == Verb::Add
}

/// How a message is answered, and what it does to the rule set. A bot's
/// message is ignored. `d!help` and `d!list` are answered for everyone. From
/// an administrator, `d!admin` adds the mentioned users, `d!remove ` removes
/// the phrase at the position that the rest of the message names, and
/// `d!add ` adds the rest of the message as a phrase; each of these is stored
/// and answered with the new listing, but a removal that names no position
/// changes nothing and is told so. Any other message is judged in lower
/// case, and deleted with a note to its author where the verdict says so.
pub open spec fn answers(
    before: AppData,
    after: AppData,
    blocked: Set<Seq<char>>,
    allowed: Set<Seq<char>>,
    author_is_bot: bool,
    author_id: u64,
    content: Seq<char>,
    mentions: Seq<(Seq<char>, u64)>,
    r: Reaction,
) -> bool {
    let old_words = before.word_texts();
    let old_admins = before.admin_list();
    let words = after.word_texts();
    let admins = after.admin_list();
    if author_is_bot {
        after == before && r is Ignore
    } else {
        match verb_of(content, has_admin(old_admins, author_id)) {
            Verb::Help => after == before && says(r, help_text()),
            Verb::List => after == before && says(r, listing_text(old_words, old_admins, false)),
            Verb::Admin => {
                &&& words == old_words
                &&& admins == old_admins + mentions
                &&& persists(r, listing_text(words, admins, true))
            },
            Verb::Remove => match position_of(replaced(content, "d!remove "@, ""@)) {
                None => after == before && says(r, rejection_text()),
                Some(p) => {
                    &&& admins == old_admins
                    &&& words == if 1 <= p <= old_words.len() {
                        old_words.remove(p - 1)
                    } else {
                        old_words
                    }
                    &&& persists(r, listing_text(words, admins, true))
                },
            },
            Verb::Add => {
                &&& admins == old_admins
                &&& words == old_words.push(replaced(content, "d!add "@, ""@))
                &&& persists(r, listing_text(words, admins, true))
            },
            Verb::Text => {
                &&& after == before
                &&& if suppresses(blocked, allowed, lowercase(content)) {
                    deletes(r, notice_text(content))
                } else {
                    r is Ignore
                }
            },
        }
    }
}

/// The rule set, the dictionary of allow candidates, and the block-list and
/// allow-list indexes built from them. The indexes are never patched: each
/// change of the rule set builds both anew.
pub struct Handler {
    app_data: AppData,
    word_list: Vec<String>,
    censor_list: Trie,
    allow_list: Trie,
}

impl Handler {
    /// Both indexes are those that the rule set and the dictionary give.
    pub closed spec fn wf(&self) -> bool {
        &&& self.censor_list.wf()
        &&& self.allow_list.wf()
        &&& self.censor_list@ == self.blocked()
        &&& self.allow_list@ == self.allowed()
    }

    /// The rule set.
    pub closed spec fn data(&self) -> AppData {
        self.app_data
    }

    /// The dictionary of allow candidates, as texts.
    pub closed spec fn candidates(&self) -> Seq<Seq<char>> {
        texts(self.word_list@)
    }

    /// The blocked phrases: the lower-case form of every word of the rule
    /// set that is not empty.
    pub open spec fn blocked(&self) -> Set<Seq<char>> {
        self.data().blocked()
    }

    /// The allowed words: the lower-case form of every candidate that is
    /// not empty and in which, as it is written, no blocked phrase stands.
    pub open spec fn allowed(&self) -> Set<Seq<char>> {
        allow_set(self.blocked(), self.candidates())
    }

    /// The state for a rule set and a dictionary, with both indexes built.
    pub fn new(app_data: AppData, word_list: Vec<String>) -> (r: Handler)
        ensures
            r.wf(),
            r.data() == app_data,
            r.candidates() == texts(word_list@),
    {
        let mut r = Handler {
            app_data,
            word_list,
            censor_list: Trie::new(),
            allow_list: Trie::new(),
        };
        r.build();
        r
    }

    /// The state for a rule set and a dictionary written one word per line.
    pub fn with_dictionary(app_data: AppData, dictionary: &str) -> (r: Handler)
        ensures
            r.wf(),
            r.data() == app_data,
            r.candidates() == lines_of(dictionary@),
    {
        Handler::new(app_data, lines(dictionary))
    }

    /// Rebuilds both indexes from the rule set and the dictionary. The
    /// block-list is built first; each candidate is then tested against it
    /// as it is written and stored in lower case. Nothing of the earlier
    /// indexes is kept.
    pub fn build(&mut self)
        ensures
            final(self).wf(),
            final(self).data() == old(self).data(),
            final(self).candidates() == old(self).candidates(),
    {
        self.censor_list = self.app_data.build_trie();
        let lowered = lowercase_all(&self.word_list);
        self.allow_list = self.censor_list.allow_list(&self.word_list, &lowered);
        proof {
            lemma_allow_from_forms(self.censor_list@, texts(self.word_list@), texts(lowered@));
        }
    }

    /// Replaces the rule set, as after reading a stored one, and rebuilds.
    pub fn load(&mut self, app_data: AppData)
        ensures
            final(self).wf(),
            final(self).data() == app_data,
            final(self).candidates() == old(self).candidates(),
    {
        self.app_data = app_data;
        self.build();
    }

    /// The rule set, to list or to store.
    pub fn app_data(&self) -> (r: &AppData)
        ensures
            *r == self.data(),
    {
        &self.app_data
    }

    /// The block-list index.
    pub fn censor_list(&self) -> (r: &Trie)
        requires
            self.wf(),
        ensures
            r.wf(),
            r@ == self.blocked(),
    {
        &self.censor_list
    }

    /// The allow-list index.
    pub fn allow_list(&self) -> (r: &Trie)
        requires
            self.wf(),
        ensures
            r.wf(),
            r@ == self.allowed(),
    {
        &self.allow_list
    }

    /// Appends a phrase to the block-list and rebuilds.
    pub fn add_word(&mut self, phrase: String)
        ensures
            final(self).wf(),
            final(self).data().word_texts() == old(self).data().word_texts().push(phrase@),
            final(self).data().admins == old(self).data().admins,
            final(self).candidates() == old(self).candidates(),
            final(self).blocked() == if phrase@.len() == 0 {
                old(self).blocked()
            } else {
                old(self).blocked().insert(lowercase(phrase@))
            },
    {
        proof {
            lemma_blocked_after_add(self.app_data.word_texts(), phrase@);
        }
        self.app_data.add_word(phrase);
        self.build();
    }

    /// Removes the phrase at `position`, counted from 1, says whether there
    /// was one, and rebuilds. A position of 0 or past the end changes
    /// nothing.
    pub fn remove_word(&mut self, position: usize) -> (removed: bool)
        ensures
            final(self).wf(),
            removed == (1 <= position <= old(self).data().word_texts().len()),
            removed ==> final(self).data().word_texts() == old(self).data().word_texts().remove(
                position - 1,
            ),
            !removed ==> final(self).data().words == old(self).data().words,
            final(self).data().admins == old(self).data().admins,
            final(self).candidates() == old(self).candidates(),
    {
        let removed = self.app_data.remove_word(position);
        self.build();
        removed
    }

    /// Appends an administrator and rebuilds.
    pub fn add_admin(&mut self, name: String, id: u64)
        ensures
            final(self).wf(),
            final(self).data().admin_list() == old(self).data().admin_list().push((name@, id)),
            final(self).data().words == old(self).data().words,
            final(self).candidates() == old(self).candidates(),
    {
        self.app_data.add_admin(name, id);
        self.build();
    }

    /// The verdict on a text that is already in lower case: whether some
    /// occurrence of a blocked phrase lies inside no occurrence of an
    /// allowed word. The allow-list is only scanned where the block-list
    /// found something.
    pub fn censors(&self, content: &str) -> (r: bool)
        requires
            self.wf(),
        ensures
            r == suppresses(self.blocked(), self.allowed(), content@),
    {
        let censors = self.censor_list.find_matches(content);
        if censors.len() == 0 {
            return false;
        }
        let allows = self.allow_list.find_matches(content);
        should_suppress(&censors, &allows)
    }

    /// Handles one message: decides what it asks for, changes the rule set
    /// and rebuilds the indexes where it is a command, and tells the caller
    /// what to send, store or delete.
    pub fn message(
        &mut self,
        author_is_bot: bool,
        author_id: u64,
        content: &str,
        mentions: &Vec<(String, u64)>,
    ) -> (r: Reaction)
        requires
            old(self).wf(),
        ensures
            final(self).wf(),
            final(self).candidates() == old(self).candidates(),
            answers(
                old(self).data(),
                final(self).data(),
                old(self).blocked(),
                old(self).allowed(),
                author_is_bot,
                author_id,
                content@,
                admin_entries(mentions@),
                r,
            ),
    {
        if author_is_bot {
            return Reaction::Ignore;
        }
        let v = verb(content, self.app_data.is_admin(author_id));
        match v {
            Verb::Help | Verb::List | Verb::Text => self.reply(v, content),
            Verb::Admin => {
                let mut i: usize = 0;
                assert(admin_entries(mentions@).subrange(0, 0) =~= Seq::<(Seq<char>, u64)>::empty());
                assert(self.app_data.admin_list() + Seq::<(Seq<char>, u64)>::empty()
                    =~= self.app_data.admin_list());
                while i < mentions.len()
                    invariant
                        i <= mentions@.len(),
                        self.app_data.words == old(self).app_data.words,
                        self.word_list == old(self).word_list,
                        self.app_data.admin_list() == old(self).app_data.admin_list()
                            + admin_entries(mentions@).subrange(0, i as int),
                    decreases mentions@.len() - i,
                {
                    self.app_data.add_admin(mentions[i].0.clone(), mentions[i].1);
                    assert(self.app_data.admin_list() =~= old(self).app_data.admin_list()
                        + admin_entries(mentions@).subrange(0, i + 1));
                    i += 1;
                }
                assert(admin_entries(mentions@).subrange(0, i as int) =~= admin_entries(mentions@));
                self.build();
                Reaction::Persist(self.app_data.say_list(true))
            },
            Verb::Remove => {
                proof {
                    reveal_strlit("d!remove ");
                }
                let num = replace(content, "d!remove ", "");
                match parse_position(num.as_str()) {
                    None => Reaction::Say(String::from_str("Not a valid list position")),
                    Some(position) => {
                        self.remove_word(position);
                        Reaction::Persist(self.app_data.say_list(true))
                    },
                }
            },
            Verb::Add => {
                proof {
                    reveal_strlit("d!add ");
                }
                let phrase = replace(content, "d!add ", "");
                self.add_word(phrase);
                Reaction::Persist(self.app_data.say_list(true))
            },
        }
    }

    /// The reaction to a verb that leaves the rule set as it is.
    fn reply(&self, v: Verb, content: &str) -> (r: Reaction)
        requires
            self.wf(),
            !changes(v),
        ensures
            match v {
                Verb::Help => says(r, help_text()),
                Verb::List => says(
                    r,
                    listing_text(self.data().word_texts(), self.data().admin_list(), false),
                ),
                _ => if suppresses(self.blocked(), self.allowed(), lowercase(content@)) {
                    deletes(r, notice_text(content@))
                } else {
                    r is Ignore
                },
            },
    {
        match v {
            Verb::Help => Reaction::Say(
                String::from_str(
                    "Denpabot help:\n```\nd!list - list the banned words and admins\nd!admin {mention} - add an administrator\nd!remove {number} - remove a banned word from the list\nd!add {word} - add a banned word to the list\n```",
                ),
            ),
            Verb::List => Reaction::Say(self.app_data.say_list(false)),
            _ => self.judge(content),
        }
    }

    /// Handles a message that changes nothing, and leaves a command that
    /// changes the rule set to `message`: for such a command the answer is
    /// `None`, for every other message it is the reaction that `message`
    /// gives. Nothing is written, so many messages can be answered at once.
    pub fn answer(&self, author_is_bot: bool, author_id: u64, content: &str) -> (r: Option<
        Reaction,
    >)
        requires
            self.wf(),
        ensures
            r is None == asks_for_change(
                self.data().admin_list(),
                author_is_bot,
                author_id,
                content@,
            ),
            match r {
                Some(reaction) => answers(
                    self.data(),
                    self.data(),
                    self.blocked(),
                    self.allowed(),
                    author_is_bot,
                    author_id,
                    content@,
                    Seq::<(Seq<char>, u64)>::empty(),
                    reaction,
                ),
                None => true,
            },
    {
        if author_is_bot {
            return Some(Reaction::Ignore);
        }
        let v = verb(content, self.app_data.is_admin(author_id));
        match v {
            Verb::Admin | Verb::Remove | Verb::Add => None,
            _ => Some(self.reply(v, content)),
        }
    }

    /// Judges a message that is no command: where the verdict on its text
    /// says so, it is to be deleted with a note to its author that quotes
    /// it. Nothing changes, so many messages can be judged at once.
    pub fn judge(&self, content: &str) -> (r: Reaction)
        requires
            self.wf(),
        ensures
            if suppresses(self.blocked(), self.allowed(), lowercase(content@)) {
                deletes(r, notice_text(content@))
            } else {
                r is Ignore
            },
    {
        if self.should_delete(content) {
            let mut note = String::from_str("Your message was deleted:\n```\n");
            note.append(content);
            note.append("\n```");
            Reaction::Delete(note)
        } else {
            Reaction::Ignore
        }
    }

    /// The verdict on a message: its text is put in lower case and judged
    /// against the indexes as they stand.
    pub fn should_delete(&self, content: &str) -> (r: bool)
        requires
            self.wf(),
        ensures
            r == suppresses(self.blocked(), self.allowed(), lowercase(content@)),
    {
        let lowered = to_lowercase(content);
        self.censors(lowered.as_str())
    }
}

/// No scan after a change sees the old index: once a phrase that is not
/// empty is added to the rule set, the scan of the block-list that the
/// rebuild gives reports every place in a text where the phrase, in lower
/// case, stands.
pub proof fn lemma_added_phrase_is_scanned(
    words: Seq<Seq<char>>,
    phrase: Seq<char>,
    text: Seq<char>,
    i: int,
    j: int,
)
    requires
        phrase.len() > 0,
        0 <= i < j <= text.len(),
        text.subrange(i, j) == lowercase(phrase),
    ensures
        all_spans(blocked_set(words.push(phrase)), text, text.len() as int).contains(
            (i as usize, j as usize),
        ),
{
    lemma_blocked_after_add(words, phrase);
    lemma_scan_complete(blocked_set(words.push(phrase)), text, lowercase(phrase), i, j);
}

} // verus!
