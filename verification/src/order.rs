use crate::blocks::Block;
use crate::combiner::{balance, combine, merge_spans, pair_up};
use crate::operations::Operation;
use vstd::prelude::*;

verus! {

/// The leaves of the joins at the top of a block, from left to right: a
/// block that is no join is its own single leaf.
pub open spec fn join_leaves(block: Block) -> Seq<Block>
    decreases block,
{
    match block {
        Block::Join(left, right) => join_leaves(*left) + join_leaves(*right),
        _ => seq![block],
    }
}

/// The leaves of all the blocks of a list, in the order of the list.
pub open spec fn leaves_of_all(blocks: Seq<Block>) -> Seq<Block>
    decreases blocks.len(),
{
    if blocks.len() == 0 {
        Seq::empty()
    } else {
        leaves_of_all(blocks.drop_last()) + join_leaves(blocks.last())
    }
}

/// One step of a run through a block: a single operation, or a branch or a
/// loop that is entered as a whole.
pub enum Step {
    Run(Operation),
    Enter(Block),
}

/// What a block does, step by step. A span runs its operations, a join does
/// what its left child does and then what its right child does.
pub open spec fn steps(block: Block) -> Seq<Step>
    decreases block,
{
    match block {
        Block::Span(ops) => ops.map_values(|op: Operation| Step::Run(op)),
        Block::Join(left, right) => steps(*left) + steps(*right),
        _ => seq![Step::Enter(block)],
    }
}

/// What the blocks of a list do, one block after the other.
pub open spec fn steps_of_all(blocks: Seq<Block>) -> Seq<Step>
    decreases blocks.len(),
{
    if blocks.len() == 0 {
        Seq::empty()
    } else {
        steps_of_all(blocks.drop_last()) + steps(blocks.last())
    }
}

/// Whether no block of the list is a join.
pub open spec fn no_joins(blocks: Seq<Block>) -> bool {
    forall|i: int| 0 <= i < blocks.len() ==> !(#[trigger] blocks[i] is Join)
}

/// Whether no two neighbours in the list are both spans.
pub open spec fn no_adjacent_spans(blocks: Seq<Block>) -> bool {
    forall|i: int, j: int|
        0 <= i && j == i + 1 && j < blocks.len() ==> !(#[trigger] blocks[i] is Span
            && #[trigger] blocks[j] is Span)
}

proof fn lemma_leaves_of_pairs(blocks: Seq<Block>)
    requires
        blocks.len() % 2 == 0,
    ensures
        leaves_of_all(pair_up(blocks)) == leaves_of_all(blocks),
    decreases blocks.len(),
{
    if blocks.len() == 0 {
        assert(pair_up(blocks) == Seq::<Block>::empty());
    } else {
        let n = blocks.len();
        let shorter = blocks.take(n - 2);
        lemma_leaves_of_pairs(shorter);
        let pairs = pair_up(blocks);
        assert(pairs.drop_last() == pair_up(shorter));
        assert(pairs.last() == Block::join(blocks[n - 2], blocks[n - 1]));
        assert(blocks.drop_last().drop_last() == shorter);
        assert(blocks.drop_last().last() == blocks[n - 2]);
        assert(leaves_of_all(blocks.drop_last()) == leaves_of_all(shorter) + join_leaves(
            blocks[n - 2],
        ));
        assert(leaves_of_all(blocks) == leaves_of_all(shorter) + join_leaves(blocks[n - 2])
            + join_leaves(blocks[n - 1]));
        assert(leaves_of_all(pairs) == leaves_of_all(shorter) + (join_leaves(blocks[n - 2])
            + join_leaves(blocks[n - 1])));
    }
}

/// One round of joining two by two keeps the leaves and their order.
pub proof fn lemma_pair_up_keeps_leaves(blocks: Seq<Block>)
    ensures
        leaves_of_all(pair_up(blocks)) == leaves_of_all(blocks),
{
    if blocks.len() % 2 == 0 {
        lemma_leaves_of_pairs(blocks);
    } else {
        let even = blocks.drop_last();
        lemma_leaves_of_pairs(even);
        let pairs = pair_up(blocks);
        assert(pairs.drop_last() == pair_up(even));
        assert(pairs.last() == blocks.last());
    }
}

/// Balancing keeps the leaves of the blocks and their order: read from left
/// to right, the leaves of the tree are those of the first block, then those
/// of the second, and so on.
pub proof fn lemma_balance_keeps_leaves(blocks: Seq<Block>)
    requires
        blocks.len() >= 1,
    ensures
        join_leaves(balance(blocks)) == leaves_of_all(blocks),
    decreases blocks.len(),
{
    if blocks.len() == 1 {
        assert(blocks.drop_last() == Seq::<Block>::empty());
        assert(leaves_of_all(blocks.drop_last()) == Seq::<Block>::empty());
        assert(leaves_of_all(blocks) == join_leaves(blocks[0]));
    } else {
        lemma_pair_up_keeps_leaves(blocks);
        lemma_balance_keeps_leaves(pair_up(blocks));
    }
}

/// Where no block of a list is a join, the leaves of the list are its blocks.
pub proof fn lemma_leaves_without_joins(blocks: Seq<Block>)
    requires
        no_joins(blocks),
    ensures
        leaves_of_all(blocks) == blocks,
    decreases blocks.len(),
{
    if blocks.len() > 0 {
        lemma_leaves_without_joins(blocks.drop_last());
        assert(!(blocks[blocks.len() - 1] is Join));
        assert(blocks.drop_last().push(blocks.last()) == blocks);
    }
}

/// Where no two neighbours are both spans, merging changes nothing.
pub proof fn lemma_merge_without_adjacent_spans(blocks: Seq<Block>)
    requires
        no_adjacent_spans(blocks),
    ensures
        merge_spans(blocks) == blocks,
    decreases blocks.len(),
{
    if blocks.len() > 0 {
        let shorter = blocks.drop_last();
        assert forall|i: int, j: int| 0 <= i && j == i + 1 && j < shorter.len() implies !(
        #[trigger] shorter[i] is Span && #[trigger] shorter[j] is Span) by {
            assert(shorter[i] == blocks[i]);
            assert(shorter[j] == blocks[j]);
        }
        lemma_merge_without_adjacent_spans(shorter);
        if shorter.len() > 0 {
            let i = blocks.len() - 2;
            assert(shorter.last() == blocks[i]);
            assert(blocks.last() == blocks[i + 1]);
        }
        assert(shorter.push(blocks.last()) == blocks);
    }
}

/// The leaves of the tree that a list of siblings is folded into are,
/// from left to right, the siblings in their order. This holds of every
/// list of one block or more in which no block is a join and no two
/// neighbours are both spans.
pub proof fn lemma_combine_keeps_siblings(blocks: Seq<Block>)
    requires
        blocks.len() >= 1,
        no_joins(blocks),
        no_adjacent_spans(blocks),
    ensures
        join_leaves(combine(blocks)) == blocks,
{
    lemma_merge_without_adjacent_spans(blocks);
    lemma_balance_keeps_leaves(blocks);
    lemma_leaves_without_joins(blocks);
}

/// A list does what its first part does and then what its second part does.
pub proof fn lemma_steps_of_two_lists(first: Seq<Block>, second: Seq<Block>)
    ensures
        steps_of_all(first + second) == steps_of_all(first) + steps_of_all(second),
    decreases second.len(),
{
    if second.len() == 0 {
        assert(first + second == first);
    } else {
        lemma_steps_of_two_lists(first, second.drop_last());
        assert((first + second).drop_last() == first + second.drop_last());
        assert((first + second).last() == second.last());
    }
}

/// A block does what its leaves do, one after the other.
pub proof fn lemma_steps_of_leaves(block: Block)
    ensures
        steps(block) == steps_of_all(join_leaves(block)),
    decreases block,
{
    match block {
        Block::Join(left, right) => {
            lemma_steps_of_leaves(*left);
            lemma_steps_of_leaves(*right);
            lemma_steps_of_two_lists(join_leaves(*left), join_leaves(*right));
        },
        _ => {
            let alone = seq![block];
            assert(alone.drop_last() == Seq::<Block>::empty());
            assert(steps_of_all(alone.drop_last()) == Seq::<Step>::empty());
            assert(steps_of_all(alone) == steps(block));
        },
    }
}

/// The leaves of a list do what the list does.
pub proof fn lemma_steps_of_all_leaves(blocks: Seq<Block>)
    ensures
        steps_of_all(leaves_of_all(blocks)) == steps_of_all(blocks),
    decreases blocks.len(),
{
    if blocks.len() > 0 {
        lemma_steps_of_all_leaves(blocks.drop_last());
        lemma_steps_of_leaves(blocks.last());
        lemma_steps_of_two_lists(leaves_of_all(blocks.drop_last()), join_leaves(blocks.last()));
    }
}

/// Merging adjacent spans keeps what the list does.
pub proof fn lemma_merge_keeps_steps(blocks: Seq<Block>)
    ensures
        steps_of_all(merge_spans(blocks)) == steps_of_all(blocks),
        blocks.len() >= 1 ==> merge_spans(blocks).len() >= 1,
    decreases blocks.len(),
{
    if blocks.len() > 0 {
        let merged = merge_spans(blocks.drop_last());
        let block = blocks.last();
        lemma_merge_keeps_steps(blocks.drop_last());
        if merged.len() > 0 && merged.last() is Span && block is Span {
            let head = merged.last()->Span_0;
            let tail = block->Span_0;
            let both = Block::Span(head + tail);
            let result = merged.drop_last().push(both);
            assert(result.drop_last() == merged.drop_last());
            assert(result.last() == both);
            assert(steps(both) == steps(merged.last()) + steps(block));
            assert(steps_of_all(result) == steps_of_all(merged.drop_last()) + (steps(
                merged.last(),
            ) + steps(block)));
        } else {
            let result = merged.push(block);
            assert(result.drop_last() == merged);
            assert(result.last() == block);
        }
    }
}

/// The tree that a list of one block or more is folded into does what the
/// blocks of the list do, one after the other.
pub proof fn lemma_combine_keeps_order(blocks: Seq<Block>)
    requires
        blocks.len() >= 1,
    ensures
        steps(combine(blocks)) == steps_of_all(blocks),
{
    let merged = merge_spans(blocks);
    lemma_merge_keeps_steps(blocks);
    lemma_balance_keeps_leaves(merged);
    lemma_steps_of_leaves(balance(merged));
    lemma_steps_of_all_leaves(merged);
}

} // verus!
