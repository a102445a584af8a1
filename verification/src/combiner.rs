use crate::blocks::{trees, Block, CodeBlock};
use crate::operations::Operation;
use vstd::prelude::*;
use winter_utils::group_vector_elements;

verus! {

/// The first pass over a list of sibling blocks: every run of adjacent spans
/// becomes one span that holds their operations in order. Other blocks stay
/// as they are.
pub open spec fn merge_spans(blocks: Seq<Block>) -> Seq<Block>
    decreases blocks.len(),
{
    if blocks.len() == 0 {
        Seq::empty()
    } else {
        let merged = merge_spans(blocks.drop_last());
        let block = blocks.last();
        if merged.len() > 0 && merged.last() is Span && block is Span {
            merged.drop_last().push(Block::Span(merged.last()->Span_0 + block->Span_0))
        } else {
            merged.push(block)
        }
    }
}

/// One round of the second pass: the blocks at 0 and 1, at 2 and 3 and so on
/// are joined two by two; with an odd number of blocks the last one stays alone,
/// behind the joins.
pub open spec fn pair_up(blocks: Seq<Block>) -> Seq<Block> {
    Seq::new(
        ((blocks.len() + 1) / 2) as nat,
        |i: int|
            if 2 * i + 1 < blocks.len() {
                Block::join(blocks[2 * i], blocks[2 * i + 1])
            } else {
                blocks[2 * i]
            },
    )
}

/// The second pass: rounds of `pair_up` until one block is left.
pub open spec fn balance(blocks: Seq<Block>) -> Block
    decreases blocks.len(),
{
    if blocks.len() == 0 {
        Block::noop_span()
    } else if blocks.len() == 1 {
        blocks[0]
    } else {
        balance(pair_up(blocks))
    }
}

/// The one block that a list of sibling blocks is folded into. An empty
/// list gives a span with a single no-op.
pub open spec fn combine(blocks: Seq<Block>) -> Block {
    balance(merge_spans(blocks))
}

/// Calls `winter_utils::group_vector_elements` with groups of two. It hands
/// back the same blocks in the same order, as half as many pairs: pair `i`
/// holds the blocks that stood at `2 * i` and at `2 * i + 1`.
#[verifier::external_body]
fn group_pairs(blocks: Vec<CodeBlock>) -> (pairs: Vec<(CodeBlock, CodeBlock)>)
    requires
        blocks@.len() % 2 == 0,
    ensures
        pairs@.len() * 2 == blocks@.len(),
        forall|i: int|
            0 <= i < pairs@.len() ==> (#[trigger] pairs@[i]).0 == blocks@[2 * i] && pairs@[i].1
                == blocks@[2 * i + 1],
{
    group_vector_elements::<CodeBlock, 2>(blocks).into_iter().map(
        |[left, right]| (left, right),
    ).collect()
}

/// Merges the adjacent spans of `blocks`.
pub fn merge_adjacent_spans(blocks: Vec<CodeBlock>) -> (merged: Vec<CodeBlock>)
    ensures
        trees(merged@) == merge_spans(trees(blocks@)),
{
    let mut merged: Vec<CodeBlock> = Vec::new();
    let ghost all = trees(blocks@);
    assert(all.take(0) == Seq::<Block>::empty());
    for block in it: blocks
        invariant
            it.seq() == blocks@,
            all == trees(blocks@),
            trees(merged@) == merge_spans(all.take(it.index() as int)),
    {
        let ghost seen = all.take(it.index() as int);
        let ghost longer = all.take(it.index() + 1);
        let ghost before = trees(merged@);
        assert(longer.drop_last() == seen);
        assert(longer.last() == block@);
        match block {
            CodeBlock::Span(mut ops) => {
                let count = merged.len();
                if count > 0 && merged[count - 1].is_span() {
                    assert(before.last() == merged@[count - 1]@);
                    let last = merged.pop().unwrap();
                    assert(trees(merged@) == before.drop_last());
                    match last {
                        CodeBlock::Span(mut span) => {
                            span.append(&mut ops);
                            merged.push(CodeBlock::Span(span));
                            assert(trees(merged@) == before.drop_last().push(merged@.last()@));
                        },
                        other => {
                            merged.push(other);
                        },
                    }
                } else {
                    assert(count > 0 ==> before.last() == merged@[count - 1]@);
                    merged.push(CodeBlock::Span(ops));
                    assert(trees(merged@) == before.push(merged@.last()@));
                }
            },
            other => {
                merged.push(other);
                assert(trees(merged@) == before.push(merged@.last()@));
            },
        }
    }
    assert(all.take(blocks@.len() as int) == all);
    merged
}

/// Joins the blocks two by two, as one round of balancing does.
pub fn join_pairs(blocks: Vec<CodeBlock>) -> (joined: Vec<CodeBlock>)
    ensures
        trees(joined@) == pair_up(trees(blocks@)),
{
    let mut blocks = blocks;
    let ghost all = trees(blocks@);
    let last = if blocks.len() % 2 == 0 {
        None
    } else {
        blocks.pop()
    };
    let ghost even = blocks@;
    let pairs = group_pairs(blocks);
    let mut joined: Vec<CodeBlock> = Vec::new();
    for pair in it: pairs
        invariant
            it.seq() == pairs@,
            pairs@.len() * 2 == even.len(),
            forall|i: int|
                0 <= i < pairs@.len() ==> (#[trigger] pairs@[i]).0 == even[2 * i] && pairs@[i].1
                    == even[2 * i + 1],
            joined@.len() == it.index(),
            forall|i: int|
                0 <= i < joined@.len() ==> (#[trigger] joined@[i])@ == Block::join(
                    even[2 * i]@,
                    even[2 * i + 1]@,
                ),
    {
        assert(pair == pairs@[it.index() as int]);
        joined.push(CodeBlock::new_join(pair.0, pair.1));
    }
    if let Some(block) = last {
        joined.push(block);
    }
    assert(trees(joined@) =~= pair_up(all));
    joined
}

/// Folds a list of sibling blocks into one block: adjacent spans are merged,
/// then the blocks are joined two by two until one is left.
pub fn combine_blocks(blocks: Vec<CodeBlock>) -> (root: CodeBlock)
    ensures
        root@ == combine(trees(blocks@)),
{
    let mut level = merge_adjacent_spans(blocks);
    let ghost merged = trees(level@);
    while level.len() > 1
        invariant
            balance(trees(level@)) == balance(merged),
        decreases level.len(),
    {
        level = join_pairs(level);
    }
    match level.pop() {
        Some(root) => root,
        None => {
            let mut ops: Vec<Operation> = Vec::new();
            ops.push(Operation::Noop);
            CodeBlock::new_span(ops)
        },
    }
}

} // verus!
