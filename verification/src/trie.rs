//! The phrase index: a character trie held in an arena.

use std::collections::HashMap;
use vstd::prelude::*;
use crate::text::{texts, to_chars};

verus! {

/// One node of the index: its outgoing edges, a map from a character's code
/// point to the arena position of the child it leads to, and whether a
/// phrase ends here.
pub struct TrieNode {
    pub children: HashMap<u32, usize>,
    pub end: bool,
}

/// A set of phrases, stored as a trie whose nodes live in one vector with the
/// root at position 0.
pub struct Trie {
    nodes: Vec<TrieNode>,
    paths: Ghost<Seq<Seq<char>>>,
}

/// The key under which the edge for a character is kept.
spec fn key(c: char) -> u32 {
    c as u32
}

/// The child that the edge labelled `c` leads to, if there is such an edge.
spec fn edge_to(edges: Map<u32, usize>, c: char) -> Option<usize> {
    if edges.contains_key(key(c)) {
        Some(edges[key(c)])
    } else {
        None
    }
}

/// The node reached from the root by following `s`, if the walk does not fall
/// off the trie.
spec fn reach(nodes: Seq<TrieNode>, s: Seq<char>) -> Option<int>
    decreases s.len(),
{
    if s.len() == 0 {
        Some(0)
    } else {
        match reach(nodes, s.drop_last()) {
            Some(n) => if 0 <= n < nodes.len() {
                match edge_to(nodes[n].children@, s.last()) {
                    Some(k) => Some(k as int),
                    None => None,
                }
            } else {
                None
            },
            None => None,
        }
    }
}

/// `nodes` is a tree rooted at position 0, and `paths` gives each node the
/// characters that lead to it from the root.
spec fn tree(nodes: Seq<TrieNode>, paths: Seq<Seq<char>>) -> bool {
    &&& nodes.len() >= 1
    &&& paths.len() == nodes.len()
    &&& paths[0].len() == 0
    &&& forall|n: int, c: char|
        0 <= n < nodes.len() && #[trigger] nodes[n].children@.contains_key(key(c)) ==> {
            let k = nodes[n].children@[key(c)];
            &&& k < nodes.len()
            &&& paths[k as int] == paths[n].push(c)
        }
}

/// The phrases that end at a flagged node of `nodes`.
spec fn phrases_of(nodes: Seq<TrieNode>) -> Set<Seq<char>> {
    Set::new(
        |s: Seq<char>|
            match reach(nodes, s) {
                Some(n) => 0 <= n < nodes.len() && nodes[n].end,
                None => false,
            },
    )
}

/// The spans `(i, k)` with `i < k <= j` at which a phrase stands in `text`,
/// by ascending end.
pub open spec fn spans_from(phrases: Set<Seq<char>>, text: Seq<char>, i: int, j: int) -> Seq<
    (usize, usize),
>
    decreases j - i,
{
    if j <= i {
        Seq::empty()
    } else {
        let rest = spans_from(phrases, text, i, j - 1);
        if phrases.contains(text.subrange(i, j)) {
            rest.push((i as usize, j as usize))
        } else {
            rest
        }
    }
}

/// The spans that start before `n` at which a phrase stands in `text`, by
/// ascending start and, for one start, ascending end.
pub open spec fn all_spans(phrases: Set<Seq<char>>, text: Seq<char>, n: int) -> Seq<
    (usize, usize),
>
    decreases n,
{
    if n <= 0 {
        Seq::empty()
    } else {
        all_spans(phrases, text, n - 1) + spans_from(phrases, text, n - 1, text.len() as int)
    }
}

/// The phrase set after `word` has been added: the empty word is no phrase.
pub open spec fn inserted(phrases: Set<Seq<char>>, word: Seq<char>) -> Set<Seq<char>> {
    if word.len() == 0 {
        phrases
    } else {
        phrases.insert(word)
    }
}

/// The phrase set that a list of words gives: its non-empty members.
pub open spec fn phrase_set(words: Seq<Seq<char>>) -> Set<Seq<char>> {
    Set::new(|p: Seq<char>| p.len() > 0 && words.contains(p))
}

/// The allow-list that a block-list gives for the first `n` of a list of
/// candidate words, each with the form under which it is to be stored: the
/// non-empty forms of the candidates in which, as they are written, no
/// blocked phrase stands.
pub open spec fn allow_forms(
    block: Set<Seq<char>>,
    candidates: Seq<Seq<char>>,
    forms: Seq<Seq<char>>,
    n: int,
) -> Set<Seq<char>> {
    Set::new(
        |p: Seq<char>|
            p.len() > 0 && exists|i: int|
                0 <= i < n && !occurs(block, #[trigger] candidates[i]) && forms[i] == p,
    )
}

/// The smaller of two lengths.
pub open spec fn shorter(a: int, b: int) -> int {
    if a <= b {
        a
    } else {
        b
    }
}

/// Some phrase stands somewhere in `text`.
pub open spec fn occurs(phrases: Set<Seq<char>>, text: Seq<char>) -> bool {
    exists|i: int, j: int|
        0 <= i < j <= text.len() && phrases.contains(#[trigger] text.subrange(i, j))
}

impl Default for Trie {
    /// The index that holds no phrase.
    fn default() -> (r: Trie)
        ensures
            r.wf(),
            r@ == Set::<Seq<char>>::empty(),
    {
        Trie::new()
    }
}

impl Trie {
    /// The arena is a tree: every edge leads to an existing node whose path
    /// from the root is its parent's path plus the edge's character, and no
    /// phrase ends at the root.
    pub closed spec fn wf(&self) -> bool {
        tree(self.nodes@, self.paths@) && !self.nodes@[0].end
    }

    /// The empty text is never a phrase of the index.
    pub proof fn lemma_no_empty_phrase(&self)
        requires
            self.wf(),
        ensures
            !self@.contains(Seq::<char>::empty()),
    {
    }

    /// The phrases held.
    pub closed spec fn view(&self) -> Set<Seq<char>> {
        phrases_of(self.nodes@)
    }

    /// An index that holds no phrase.
    pub fn new() -> (r: Trie)
        ensures
            r.wf(),
            r@ == Set::<Seq<char>>::empty(),
    {
        let mut nodes: Vec<TrieNode> = Vec::new();
        nodes.push(TrieNode { children: HashMap::new(), end: false });
        let ghost paths = Seq::<Seq<char>>::empty().push(Seq::<char>::empty());
        let r = Trie { nodes, paths: Ghost(paths) };
        proof {
            assert forall|s: Seq<char>| !r@.contains(s) by {
                lemma_reach_path(r.nodes@, r.paths@, s);
            }
            assert(r@ =~= Set::<Seq<char>>::empty());
        }
        r
    }

    /// Empties the index.
    pub fn reset(&mut self)
        ensures
            final(self).wf(),
            final(self)@ == Set::<Seq<char>>::empty(),
    {
        *self = Trie::new();
    }

    /// The child of `node` along `c`.
    fn find_child(&self, node: usize, c: char) -> (r: Option<usize>)
        requires
            self.wf(),
            node < self.nodes@.len(),
        ensures
            r == edge_to(self.nodes@[node as int].children@, c),
            match r {
                Some(k) => k < self.nodes@.len(),
                None => true,
            },
    {
        let code: u32 = c as u32;
        assert(code == key(c));
        match self.nodes[node].children.get(&code) {
            Some(k) => Some(*k),
            None => None,
        }
    }

    /// Adds `word` to the index; the empty word is not a phrase and changes
    /// nothing.
    pub fn insert(&mut self, word: &str)
        requires
            old(self).wf(),
        ensures
            final(self).wf(),
            final(self)@ == inserted(old(self)@, word@),
    {
        let chars = to_chars(word);
        if chars.len() == 0 {
            return ;
        }
        let mut node: usize = 0;
        let mut i: usize = 0;
        while i < chars.len()
            invariant
                self.wf(),
                chars@ == word@,
                i <= chars@.len(),
                self@ == old(self)@,
                node < self.nodes@.len(),
                reach(self.nodes@, chars@.subrange(0, i as int)) == Some(node as int),
            decreases chars@.len() - i,
        {
            let c = chars[i];
            let ghost prefix = chars@.subrange(0, i as int);
            let ghost next = chars@.subrange(0, i + 1);
            assert(next.drop_last() =~= prefix && next.last() == c);
            match self.find_child(node, c) {
                Some(k) => {
                    node = k;
                },
                None => {
                    let ghost before = self.nodes@;
                    let ghost paths = self.paths@;
                    let leaf: usize = self.nodes.len();
                    self.nodes.push(TrieNode { children: HashMap::new(), end: false });
                    let code: u32 = c as u32;
                    assert(code == key(c));
                    self.nodes[node].children.insert(code, leaf);
                    proof {
                        self.paths@ = paths.push(paths[node as int].push(c));
                        let after = self.nodes@;
                        assert forall|n: int, d: char|
                            0 <= n < after.len() && #[trigger] after[n].children@.contains_key(
                                key(d),
                            ) implies ({
                            let k = after[n].children@[key(d)];
                            &&& k < after.len()
                            &&& self.paths@[k as int] == self.paths@[n].push(d)
                        }) by {
                            if n == leaf {
                                assert(!after[n].children@.contains_key(key(d)));
                            } else if n == node {
                                if d != c {
                                    lemma_key_injective(c, d);
                                    assert(before[n].children@.contains_key(key(d)));
                                }
                            } else {
                                assert(after[n].children@ == before[n].children@);
                            }
                        }
                        assert(tree(after, self.paths@));
                        assert forall|s: Seq<char>| phrases_of(after).contains(s) == phrases_of(
                            before,
                        ).contains(s) by {
                            lemma_grow(before, paths, after, node as int, leaf, c, s);
                            lemma_reach_path(before, paths, s);
                        }
                        assert(phrases_of(after) =~= phrases_of(before));
                        lemma_grow(before, paths, after, node as int, leaf, c, prefix);
                    }
                    node = leaf;
                },
            }
            i += 1;
        }
        let ghost before = self.nodes@;
        self.nodes[node].end = true;
        proof {
            let after = self.nodes@;
            assert(chars@.subrange(0, i as int) =~= word@);
            assert forall|n: int, d: char|
                0 <= n < after.len() && #[trigger] after[n].children@.contains_key(
                    key(d),
                ) implies ({
                let k = after[n].children@[key(d)];
                &&& k < after.len()
                &&& self.paths@[k as int] == self.paths@[n].push(d)
            }) by {
                assert(before[n].children@.contains_key(key(d)));
            }
            assert forall|s: Seq<char>| phrases_of(after).contains(s) == phrases_of(before).insert(
                word@,
            ).contains(s) by {
                lemma_same_edges(before, after, s);
                lemma_reach_path(before, self.paths@, s);
                lemma_reach_path(before, self.paths@, word@);
            }
            assert(phrases_of(after) =~= phrases_of(before).insert(word@));
        }
    }

    /// Scans `input` for every occurrence of every phrase: for each start
    /// the walk follows the text from the root and reports each end at which
    /// a phrase stands, so a phrase and a longer one that it begins are both
    /// found. Offsets count characters; a span `(i, j)` covers `i` up to but
    /// not including `j`.
    pub fn find_matches(&self, input: &str) -> (r: Vec<(usize, usize)>)
        requires
            self.wf(),
        ensures
            r@ == all_spans(self@, input@, input@.len() as int),
    {
        let text = to_chars(input);
        let n: usize = text.len();
        let mut matches: Vec<(usize, usize)> = Vec::new();
        let mut start: usize = 0;
        while start < n
            invariant
                self.wf(),
                text@ == input@,
                n == text@.len(),
                start <= n,
                matches@ == all_spans(self@, text@, start as int),
            decreases n - start,
        {
            let ghost before = matches@;
            let mut node: usize = 0;
            let mut end: usize = start;
            assert(text@.subrange(start as int, end as int) =~= Seq::<char>::empty());
            assert(before + spans_from(self@, text@, start as int, end as int) =~= before);
            while end < n
                invariant
                    self.wf(),
                    n == text@.len(),
                    start <= end <= n,
                    node < self.nodes@.len(),
                    reach(self.nodes@, text@.subrange(start as int, end as int)) == Some(
                        node as int,
                    ),
                    matches@ == before + spans_from(self@, text@, start as int, end as int),
                ensures
                    matches@ == before + spans_from(self@, text@, start as int, n as int),
                decreases n - end,
            {
                let ghost sub = text@.subrange(start as int, end + 1);
                assert(sub.drop_last() =~= text@.subrange(start as int, end as int));
                match self.find_child(node, text[end]) {
                    Some(k) => {
                        node = k;
                        end += 1;
                        let ghost rest = spans_from(self@, text@, start as int, end - 1);
                        if self.nodes[node].end {
                            matches.push((start, end));
                            assert(matches@ =~= before + rest.push((start, end)));
                        }
                    },
                    None => {
                        proof {
                            lemma_dead_end(self.nodes@, self@, text@, start as int, end + 1, n as int);
                        }
                        break ;
                    },
                }
            }
            start += 1;
        }
        matches
    }

    /// Whether any phrase stands anywhere in `input`. Stops at the first
    /// phrase found.
    pub fn find_word(&self, input: &str) -> (r: bool)
        requires
            self.wf(),
        ensures
            r == occurs(self@, input@),
            r == (all_spans(self@, input@, input@.len() as int).len() > 0),
    {
        let text = to_chars(input);
        let n: usize = text.len();
        proof {
            lemma_find_word_iff_scan(self@, input@);
        }
        let mut start: usize = 0;
        while start < n
            invariant
                self.wf(),
                text@ == input@,
                n == text@.len(),
                occurs(self@, input@) == (all_spans(self@, input@, input@.len() as int).len() > 0),
                start <= n,
                forall|i: int, j: int|
                    0 <= i < start && i < j <= n ==> !self@.contains(
                        #[trigger] text@.subrange(i, j),
                    ),
            decreases n - start,
        {
            let mut node: usize = 0;
            let mut end: usize = start;
            assert(text@.subrange(start as int, end as int) =~= Seq::<char>::empty());
            while end < n
                invariant
                    self.wf(),
                    text@ == input@,
                    n == text@.len(),
                occurs(self@, input@) == (all_spans(self@, input@, input@.len() as int).len() > 0),
                    start <= end <= n,
                    node < self.nodes@.len(),
                    reach(self.nodes@, text@.subrange(start as int, end as int)) == Some(
                        node as int,
                    ),
                    forall|j: int|
                        start < j <= end ==> !self@.contains(
                            #[trigger] text@.subrange(start as int, j),
                        ),
                ensures
                    forall|j: int|
                        start < j <= n ==> !self@.contains(
                            #[trigger] text@.subrange(start as int, j),
                        ),
                decreases n - end,
            {
                let ghost sub = text@.subrange(start as int, end + 1);
                assert(sub.drop_last() =~= text@.subrange(start as int, end as int));
                match self.find_child(node, text[end]) {
                    Some(k) => {
                        node = k;
                        end += 1;
                        if self.nodes[node].end {
                            assert(self@.contains(text@.subrange(start as int, end as int)));
                            return true;
                        }
                    },
                    None => {
                        proof {
                            assert forall|j: int| end < j <= n implies !self@.contains(
                                #[trigger] text@.subrange(start as int, j),
                            ) by {
                                lemma_walk_stays_dead(self.nodes@, text@, start as int, end + 1, j);
                            }
                        }
                        break ;
                    },
                }
            }
            start += 1;
        }
        false
    }

    /// The index of the non-empty phrases of a list, each taken as it is
    /// written.
    pub fn from_phrases(phrases: &Vec<String>) -> (r: Trie)
        ensures
            r.wf(),
            r@ == phrase_set(texts(phrases@)),
    {
        let mut trie = Trie::new();
        let mut i: usize = 0;
        assert(phrase_set(texts(phrases@).subrange(0, 0)) =~= Set::<Seq<char>>::empty());
        while i < phrases.len()
            invariant
                trie.wf(),
                i <= phrases@.len(),
                trie@ == phrase_set(texts(phrases@).subrange(0, i as int)),
            decreases phrases@.len() - i,
        {
            trie.insert(phrases[i].as_str());
            proof {
                let ws = texts(phrases@);
                lemma_phrase_set_push(ws.subrange(0, i as int), ws[i as int]);
                assert(ws.subrange(0, i as int).push(ws[i as int]) =~= ws.subrange(0, i + 1));
            }
            i += 1;
        }
        assert(texts(phrases@).subrange(0, i as int) =~= texts(phrases@));
        trie
    }

    /// The allow-list for this block-list. Each candidate is tested as it
    /// is written: where no phrase of this index stands in it, the form
    /// given for it at the same place of `forms` is stored, unless that form
    /// is empty. Candidates past the end of the shorter list are left out.
    pub fn allow_list(&self, candidates: &Vec<String>, forms: &Vec<String>) -> (r: Trie)
        requires
            self.wf(),
        ensures
            r.wf(),
            r@ == allow_forms(
                self@,
                texts(candidates@),
                texts(forms@),
                shorter(candidates@.len() as int, forms@.len() as int),
            ),
    {
        let mut trie = Trie::new();
        let n: usize = if candidates.len() <= forms.len() {
            candidates.len()
        } else {
            forms.len()
        };
        let mut i: usize = 0;
        assert(allow_forms(self@, texts(candidates@), texts(forms@), 0) =~= Set::<
            Seq<char>,
        >::empty());
        while i < n
            invariant
                self.wf(),
                trie.wf(),
                i <= n,
                n == shorter(candidates@.len() as int, forms@.len() as int),
                trie@ == allow_forms(self@, texts(candidates@), texts(forms@), i as int),
            decreases n - i,
        {
            if !self.find_word(candidates[i].as_str()) {
                trie.insert(forms[i].as_str());
            }
            proof {
                lemma_allow_forms_step(self@, texts(candidates@), texts(forms@), i as int);
            }
            i += 1;
        }
        trie
    }
}

/// Two characters have two keys.
proof fn lemma_key_injective(c: char, d: char)
    requires
        c != d,
    ensures
        key(c) != key(d),
{
}

/// A walk that ends at a node spells that node's path.
proof fn lemma_reach_path(nodes: Seq<TrieNode>, paths: Seq<Seq<char>>, s: Seq<char>)
    requires
        tree(nodes, paths),
    ensures
        match reach(nodes, s) {
            Some(n) => 0 <= n < nodes.len() && paths[n] == s,
            None => true,
        },
    decreases s.len(),
{
    if s.len() > 0 {
        lemma_reach_path(nodes, paths, s.drop_last());
        match reach(nodes, s.drop_last()) {
            Some(n) => {
                if edge_to(nodes[n].children@, s.last()) is Some {
                    assert(nodes[n].children@.contains_key(key(s.last())));
                    assert(s.drop_last().push(s.last()) =~= s);
                }
            },
            None => {},
        }
    }
}

/// Walks depend on the edges alone.
proof fn lemma_same_edges(a: Seq<TrieNode>, b: Seq<TrieNode>, s: Seq<char>)
    requires
        a.len() == b.len(),
        forall|m: int| 0 <= m < a.len() ==> (#[trigger] a[m]).children@ == b[m].children@,
    ensures
        reach(a, s) == reach(b, s),
    decreases s.len(),
{
    if s.len() > 0 {
        lemma_same_edges(a, b, s.drop_last());
    }
}

/// Hanging a fresh leaf under `node` keeps every walk that ended inside the
/// old arena, and a walk that newly succeeds ends at the leaf.
proof fn lemma_grow(
    a: Seq<TrieNode>,
    paths: Seq<Seq<char>>,
    b: Seq<TrieNode>,
    node: int,
    leaf: usize,
    c: char,
    s: Seq<char>,
)
    requires
        tree(a, paths),
        0 <= node < a.len(),
        leaf == a.len(),
        b.len() == a.len() + 1,
        forall|m: int| 0 <= m < a.len() && m != node ==> (#[trigger] b[m]).children@ == a[m].children@,
        b[node].children@ == a[node].children@.insert(key(c), leaf),
        edge_to(a[node].children@, c) is None,
        b[leaf as int].children@ == Map::<u32, usize>::empty(),
    ensures
        match reach(a, s) {
            Some(m) => reach(b, s) == Some(m),
            None => reach(b, s) is None || reach(b, s) == Some(leaf as int),
        },
    decreases s.len(),
{
    if s.len() > 0 {
        let p = s.drop_last();
        lemma_grow(a, paths, b, node, leaf, c, p);
        lemma_reach_path(a, paths, p);
        match reach(a, p) {
            Some(m) => {
                if m != node {
                    assert(b[m].children@ == a[m].children@);
                }
            },
            None => {},
        }
    }
}

/// Once a walk has fallen off the trie, no longer walk from the same start
/// comes back.
proof fn lemma_walk_stays_dead(nodes: Seq<TrieNode>, text: Seq<char>, i: int, j: int, m: int)
    requires
        0 <= i < j <= m <= text.len(),
        reach(nodes, text.subrange(i, j)) is None,
    ensures
        reach(nodes, text.subrange(i, m)) is None,
    decreases m - j,
{
    if m > j {
        lemma_walk_stays_dead(nodes, text, i, j, m - 1);
        assert(text.subrange(i, m).drop_last() =~= text.subrange(i, m - 1));
    }
}

/// Past the point where the walk fell off, a start yields no further span.
proof fn lemma_dead_end(
    nodes: Seq<TrieNode>,
    phrases: Set<Seq<char>>,
    text: Seq<char>,
    i: int,
    j: int,
    m: int,
)
    requires
        0 <= i < j <= m <= text.len(),
        reach(nodes, text.subrange(i, j)) is None,
        phrases == phrases_of(nodes),
    ensures
        spans_from(phrases, text, i, m) == spans_from(phrases, text, i, j - 1),
    decreases m - j,
{
    lemma_walk_stays_dead(nodes, text, i, j, m);
    if m > j {
        lemma_dead_end(nodes, phrases, text, i, j, m - 1);
    }
}

/// Adding a phrase a second time changes nothing.
pub proof fn lemma_insert_idempotent(phrases: Set<Seq<char>>, word: Seq<char>)
    ensures
        inserted(inserted(phrases, word), word) == inserted(phrases, word),
{
    assert(inserted(inserted(phrases, word), word) =~= inserted(phrases, word));
}

/// Adding the empty word changes nothing, and an index built from empty
/// words alone holds no phrase and so reports no span in any text.
pub proof fn lemma_empty_phrase_ignored(phrases: Set<Seq<char>>, text: Seq<char>)
    ensures
        inserted(phrases, Seq::<char>::empty()) == phrases,
        phrase_set(seq![Seq::<char>::empty()]) == Set::<Seq<char>>::empty(),
        all_spans(Set::<Seq<char>>::empty(), text, text.len() as int) == Seq::<
            (usize, usize),
        >::empty(),
        !occurs(Set::<Seq<char>>::empty(), text),
{
    assert(phrase_set(seq![Seq::<char>::empty()]) =~= Set::<Seq<char>>::empty());
    lemma_no_phrase_no_spans(text, text.len() as int);
}

proof fn lemma_no_phrase_no_spans(text: Seq<char>, n: int)
    ensures
        all_spans(Set::<Seq<char>>::empty(), text, n) == Seq::<(usize, usize)>::empty(),
    decreases n,
{
    if n > 0 {
        lemma_no_phrase_no_spans(text, n - 1);
        lemma_no_phrase_no_span(text, n - 1, text.len() as int);
        assert(all_spans(Set::<Seq<char>>::empty(), text, n) =~= Seq::<(usize, usize)>::empty());
    }
}

proof fn lemma_no_phrase_no_span(text: Seq<char>, i: int, j: int)
    ensures
        spans_from(Set::<Seq<char>>::empty(), text, i, j) == Seq::<(usize, usize)>::empty(),
    decreases j - i,
{
    if j > i {
        lemma_no_phrase_no_span(text, i, j - 1);
    }
}

proof fn lemma_spans_from_complete(phrases: Set<Seq<char>>, text: Seq<char>, i: int, j: int, m: int)
    requires
        i < j <= m,
        phrases.contains(text.subrange(i, j)),
    ensures
        spans_from(phrases, text, i, m).contains((i as usize, j as usize)),
    decreases m - j,
{
    let rest = spans_from(phrases, text, i, m - 1);
    if m == j {
        assert(rest.push((i as usize, j as usize))[rest.len() as int] == (i as usize, j as usize));
    } else {
        lemma_spans_from_complete(phrases, text, i, j, m - 1);
        let k = choose|k: int| 0 <= k < rest.len() && rest[k] == (i as usize, j as usize);
        assert(spans_from(phrases, text, i, m)[k] == (i as usize, j as usize));
    }
}

/// A scan reports every occurrence of every phrase: whenever the characters
/// of `text` from `i` up to `j` spell a phrase of the index, the span
/// `(i, j)` is among the spans, whatever other phrases overlap it or lie
/// inside it.
pub proof fn lemma_scan_complete(
    phrases: Set<Seq<char>>,
    text: Seq<char>,
    phrase: Seq<char>,
    i: int,
    j: int,
)
    requires
        phrases.contains(phrase),
        0 <= i < j <= text.len(),
        text.subrange(i, j) == phrase,
    ensures
        all_spans(phrases, text, text.len() as int).contains((i as usize, j as usize)),
{
    lemma_spans_complete(phrases, text, i, j, text.len() as int);
}

proof fn lemma_spans_complete(phrases: Set<Seq<char>>, text: Seq<char>, i: int, j: int, n: int)
    requires
        0 <= i < j <= text.len(),
        i < n,
        phrases.contains(text.subrange(i, j)),
    ensures
        all_spans(phrases, text, n).contains((i as usize, j as usize)),
    decreases n,
{
    let x = (i as usize, j as usize);
    let head = all_spans(phrases, text, n - 1);
    let tail = spans_from(phrases, text, n - 1, text.len() as int);
    if i == n - 1 {
        lemma_spans_from_complete(phrases, text, i, j, text.len() as int);
        let k = choose|k: int| 0 <= k < tail.len() && tail[k] == x;
        assert((head + tail)[head.len() + k] == x);
    } else {
        lemma_spans_complete(phrases, text, i, j, n - 1);
        let k = choose|k: int| 0 <= k < head.len() && head[k] == x;
        assert((head + tail)[k] == x);
    }
}

proof fn lemma_spans_from_sound(phrases: Set<Seq<char>>, text: Seq<char>, i: int, m: int, k: int)
    requires
        0 <= i,
        m <= text.len() <= usize::MAX,
        0 <= k < spans_from(phrases, text, i, m).len(),
    ensures
        ({
            let x = spans_from(phrases, text, i, m)[k];
            &&& x.0 == i
            &&& i < x.1 <= m
            &&& phrases.contains(text.subrange(x.0 as int, x.1 as int))
        }),
    decreases m - i,
{
    let rest = spans_from(phrases, text, i, m - 1);
    if k < rest.len() {
        lemma_spans_from_sound(phrases, text, i, m - 1, k);
    }
}

/// A scan reports nothing else: every span it gives lies in the text and
/// spells a phrase of the index.
pub proof fn lemma_scan_sound(phrases: Set<Seq<char>>, text: Seq<char>, k: int)
    requires
        text.len() <= usize::MAX,
        0 <= k < all_spans(phrases, text, text.len() as int).len(),
    ensures
        ({
            let x = all_spans(phrases, text, text.len() as int)[k];
            &&& 0 <= x.0 < x.1 <= text.len()
            &&& phrases.contains(text.subrange(x.0 as int, x.1 as int))
        }),
{
    lemma_spans_sound(phrases, text, text.len() as int, k);
}

proof fn lemma_spans_sound(phrases: Set<Seq<char>>, text: Seq<char>, n: int, k: int)
    requires
        n <= text.len() <= usize::MAX,
        0 <= k < all_spans(phrases, text, n).len(),
    ensures
        ({
            let x = all_spans(phrases, text, n)[k];
            &&& 0 <= x.0 < x.1 <= text.len()
            &&& x.0 < n
            &&& phrases.contains(text.subrange(x.0 as int, x.1 as int))
        }),
    decreases n,
{
    let head = all_spans(phrases, text, n - 1);
    if k < head.len() {
        lemma_spans_sound(phrases, text, n - 1, k);
    } else {
        lemma_spans_from_sound(phrases, text, n - 1, text.len() as int, k - head.len());
    }
}

/// The quick test and the full scan agree: some phrase stands in the text
/// exactly when the scan reports at least one span.
pub proof fn lemma_find_word_iff_scan(phrases: Set<Seq<char>>, text: Seq<char>)
    requires
        text.len() <= usize::MAX,
    ensures
        occurs(phrases, text) <==> all_spans(phrases, text, text.len() as int).len() > 0,
{
    let spans = all_spans(phrases, text, text.len() as int);
    if occurs(phrases, text) {
        let (i, j) = choose|i: int, j: int|
            0 <= i < j <= text.len() && phrases.contains(#[trigger] text.subrange(i, j));
        lemma_spans_complete(phrases, text, i, j, text.len() as int);
    }
    if spans.len() > 0 {
        lemma_scan_sound(phrases, text, 0);
        let x = spans[0];
        assert(phrases.contains(text.subrange(x.0 as int, x.1 as int)));
    }
}

/// One more word in the list is one more insertion into the set.
pub proof fn lemma_phrase_set_push(ws: Seq<Seq<char>>, w: Seq<char>)
    ensures
        phrase_set(ws.push(w)) == inserted(phrase_set(ws), w),
{
    let more = ws.push(w);
    assert forall|p: Seq<char>| phrase_set(more).contains(p) == inserted(phrase_set(ws), w).contains(
        p,
    ) by {
        if ws.contains(p) {
            let k = choose|k: int| 0 <= k < ws.len() && ws[k] == p;
            assert(more[k] == p);
        }
        if p == w {
            assert(more[ws.len() as int] == p);
        }
        if more.contains(p) {
            let k = choose|k: int| 0 <= k < more.len() && more[k] == p;
            if k < ws.len() {
                assert(ws[k] == p);
            }
        }
    }
    assert(phrase_set(more) =~= inserted(phrase_set(ws), w));
}

/// One more candidate joins the allow-list, under its form, exactly when no
/// blocked phrase stands in the candidate as it is written.
pub proof fn lemma_allow_forms_step(
    block: Set<Seq<char>>,
    candidates: Seq<Seq<char>>,
    forms: Seq<Seq<char>>,
    n: int,
)
    requires
        0 <= n,
    ensures
        allow_forms(block, candidates, forms, n + 1) == if occurs(block, candidates[n]) {
            allow_forms(block, candidates, forms, n)
        } else {
            inserted(allow_forms(block, candidates, forms, n), forms[n])
        },
{
    let more = allow_forms(block, candidates, forms, n + 1);
    let less = allow_forms(block, candidates, forms, n);
    let want = if occurs(block, candidates[n]) {
        less
    } else {
        inserted(less, forms[n])
    };
    assert forall|p: Seq<char>| more.contains(p) == want.contains(p) by {
        if less.contains(p) {
            let i = choose|i: int|
                0 <= i < n && !occurs(block, #[trigger] candidates[i]) && forms[i] == p;
            assert(0 <= i < n + 1);
        }
        if more.contains(p) {
            let i = choose|i: int|
                0 <= i < n + 1 && !occurs(block, #[trigger] candidates[i]) && forms[i] == p;
            if i < n {
                assert(less.contains(p));
            }
        }
        if p.len() > 0 && !occurs(block, candidates[n]) && forms[n] == p {
            assert(0 <= n < n + 1 && !occurs(block, candidates[n]) && forms[n] == p);
        }
    }
    assert(more =~= want);
}

} // verus!
