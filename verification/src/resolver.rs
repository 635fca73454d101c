//! Decides whether the block-list matches in a message stand, given the
//! allow-list matches around them.

use vstd::prelude::*;

verus! {

/// The allow span holds the whole block span.
pub open spec fn covers(allow: (usize, usize), block: (usize, usize)) -> bool {
    allow.0 <= block.0 && allow.1 >= block.1
}

/// Some allow span holds the whole block span.
pub open spec fn is_covered(block: (usize, usize), allows: Seq<(usize, usize)>) -> bool {
    exists|j: int| 0 <= j < allows.len() && covers(#[trigger] allows[j], block)
}

/// How many block spans no allow span covers.
pub open spec fn uncovered_count(blocks: Seq<(usize, usize)>, allows: Seq<(usize, usize)>) -> nat
    decreases blocks.len(),
{
    if blocks.len() == 0 {
        0
    } else {
        let rest = uncovered_count(blocks.drop_last(), allows);
        if is_covered(blocks.last(), allows) {
            rest
        } else {
            rest + 1
        }
    }
}

/// Some block span is covered by no allow span.
pub open spec fn some_uncovered(blocks: Seq<(usize, usize)>, allows: Seq<(usize, usize)>) -> bool {
    exists|i: int| 0 <= i < blocks.len() && !is_covered(#[trigger] blocks[i], allows)
}

/// The count of uncovered block spans is positive exactly when some block
/// span is not fully inside any allow span. A span that an allow span merely
/// overlaps stays uncovered.
pub proof fn lemma_uncovered_positive(blocks: Seq<(usize, usize)>, allows: Seq<(usize, usize)>)
    ensures
        uncovered_count(blocks, allows) <= blocks.len(),
        uncovered_count(blocks, allows) > 0 <==> some_uncovered(blocks, allows),
    decreases blocks.len(),
{
    if blocks.len() > 0 {
        let front = blocks.drop_last();
        lemma_uncovered_positive(front, allows);
        if some_uncovered(front, allows) {
            let i = choose|i: int| 0 <= i < front.len() && !is_covered(#[trigger] front[i], allows);
            assert(blocks[i] == front[i]);
        }
        if some_uncovered(blocks, allows) {
            let i = choose|i: int| 0 <= i < blocks.len() && !is_covered(#[trigger] blocks[i], allows);
            if i < front.len() {
                assert(front[i] == blocks[i]);
            }
        }
        if !is_covered(blocks.last(), allows) {
            assert(blocks[blocks.len() - 1] == blocks.last());
        }
    }
}

/// Whether some span of `allows` covers `block`.
pub fn covered(block: (usize, usize), allows: &Vec<(usize, usize)>) -> (r: bool)
    ensures
        r == is_covered(block, allows@),
{
    let mut j: usize = 0;
    while j < allows.len()
        invariant
            j <= allows@.len(),
            forall|k: int| 0 <= k < j ==> !covers(#[trigger] allows@[k], block),
        decreases allows@.len() - j,
    {
        let allow = allows[j];
        if allow.0 <= block.0 && allow.1 >= block.1 {
            return true;
        }
        j += 1;
    }
    false
}

/// Counts the block spans that no allow span covers.
pub fn count_uncovered(censors: &Vec<(usize, usize)>, allows: &Vec<(usize, usize)>) -> (r: usize)
    ensures
        r == uncovered_count(censors@, allows@),
{
    let mut checks: usize = 0;
    let mut i: usize = 0;
    while i < censors.len()
        invariant
            i <= censors@.len(),
            checks == uncovered_count(censors@.subrange(0, i as int), allows@),
            checks <= i,
        decreases censors@.len() - i,
    {
        assert(censors@.subrange(0, i + 1).drop_last() =~= censors@.subrange(0, i as int));
        if !covered(censors[i], allows) {
            checks += 1;
        }
        i += 1;
    }
    assert(censors@.subrange(0, i as int) =~= censors@);
    checks
}

/// A message is suppressed exactly when at least one block span is covered
/// by no allow span; with no block span it never is.
pub fn should_suppress(censors: &Vec<(usize, usize)>, allows: &Vec<(usize, usize)>) -> (r: bool)
    ensures
        r == some_uncovered(censors@, allows@),
        r == (uncovered_count(censors@, allows@) > 0),
{
    proof {
        lemma_uncovered_positive(censors@, allows@);
    }
    count_uncovered(censors, allows) > 0
}

} // verus!
