use crate::blocks::Block;
use crate::combiner::{balance, combine, merge_spans, pair_up};
use crate::order::no_joins;
use vstd::prelude::*;

verus! {

/// How many joins stand above the deepest leaf of the joins at the top of a
/// block. A block that is no join has depth 0.
pub open spec fn join_depth(block: Block) -> nat
    decreases block,
{
    match block {
        Block::Join(left, right) => if join_depth(*left) >= join_depth(*right) {
            1 + join_depth(*left)
        } else {
            1 + join_depth(*right)
        },
        _ => 0,
    }
}

/// The number of rounds that balancing takes on `count` blocks.
pub open spec fn rounds(count: nat) -> nat
    decreases count,
{
    if count <= 1 {
        0
    } else {
        1 + rounds((count + 1) / 2)
    }
}

pub open spec fn power_of_two(exponent: nat) -> nat
    decreases exponent,
{
    if exponent == 0 {
        1
    } else {
        2 * power_of_two((exponent - 1) as nat)
    }
}

/// The number of rounds is the logarithm of the number of blocks, rounded up.
pub proof fn lemma_rounds_is_logarithm(count: nat)
    requires
        count >= 1,
    ensures
        count <= power_of_two(rounds(count)),
        count >= 2 ==> power_of_two((rounds(count) - 1) as nat) < count,
    decreases count,
{
    if count >= 2 {
        let half = (count + 1) / 2;
        lemma_rounds_is_logarithm(half);
        assert(rounds(count) == 1 + rounds(half));
        assert(power_of_two(rounds(count)) == 2 * power_of_two(rounds(half)));
        if half >= 2 {
            assert(power_of_two(rounds(half)) == 2 * power_of_two((rounds(half) - 1) as nat));
        }
    }
}

/// More blocks take no fewer rounds.
pub proof fn lemma_rounds_grow(fewer: nat, more: nat)
    requires
        fewer <= more,
    ensures
        rounds(fewer) <= rounds(more),
    decreases more,
{
    if fewer >= 2 {
        lemma_rounds_grow((fewer + 1) / 2, (more + 1) / 2);
    }
}

/// Balancing adds one level of joins per round: the tree is deeper than the
/// deepest of the blocks by no more than the number of rounds.
pub proof fn lemma_balance_depth(blocks: Seq<Block>, bound: nat)
    requires
        blocks.len() >= 1,
        forall|i: int| 0 <= i < blocks.len() ==> join_depth(#[trigger] blocks[i]) <= bound,
    ensures
        join_depth(balance(blocks)) <= bound + rounds(blocks.len()),
    decreases blocks.len(),
{
    if blocks.len() == 1 {
        assert(join_depth(blocks[0]) <= bound);
    } else {
        let pairs = pair_up(blocks);
        assert forall|i: int| 0 <= i < pairs.len() implies join_depth(#[trigger] pairs[i]) <= bound
            + 1 by {
            assert(join_depth(blocks[2 * i]) <= bound);
            if 2 * i + 1 < blocks.len() {
                assert(join_depth(blocks[2 * i + 1]) <= bound);
            }
        }
        lemma_balance_depth(pairs, bound + 1);
    }
}

/// Merging adds no block and no join.
pub proof fn lemma_merge_adds_nothing(blocks: Seq<Block>)
    requires
        no_joins(blocks),
    ensures
        no_joins(merge_spans(blocks)),
        merge_spans(blocks).len() <= blocks.len(),
        blocks.len() >= 1 ==> merge_spans(blocks).len() >= 1,
    decreases blocks.len(),
{
    if blocks.len() > 0 {
        let shorter = blocks.drop_last();
        assert forall|i: int| 0 <= i < shorter.len() implies !(#[trigger] shorter[i] is Join) by {
            assert(shorter[i] == blocks[i]);
        }
        lemma_merge_adds_nothing(shorter);
        let merged = merge_spans(shorter);
        let result = merge_spans(blocks);
        assert(!(blocks[blocks.len() - 1] is Join));
        assert forall|i: int| 0 <= i < result.len() implies !(#[trigger] result[i] is Join) by {
            if i < result.len() - 1 {
                assert(result[i] == merged[i]);
            }
        }
    }
}

/// The depth of the tree that siblings are folded into is logarithmic in
/// their number: `count` siblings that are no joins give a tree of at most
/// `rounds(count)` levels of joins, whatever the siblings hold.
pub proof fn lemma_combine_depth(blocks: Seq<Block>)
    requires
        blocks.len() >= 1,
        no_joins(blocks),
    ensures
        join_depth(combine(blocks)) <= rounds(blocks.len()),
{
    let merged = merge_spans(blocks);
    lemma_merge_adds_nothing(blocks);
    assert forall|i: int| 0 <= i < merged.len() implies join_depth(#[trigger] merged[i]) <= 0 by {
        assert(!(merged[i] is Join));
    }
    lemma_balance_depth(merged, 0);
    lemma_rounds_grow(merged.len(), blocks.len());
}

} // verus!
