use crate::parsing::{
    lemma_construct_in_range, lemma_span_in_range, next_construct, parse_body, parse_construct,
    parse_siblings, repeated, unroll, Construct,
};
use crate::blocks::Block;
use crate::combiner::{balance, combine, merge_spans, pair_up};
use crate::compiler::{
    at_procedure, compiled, lemma_procedure_in_range, procedure_at, procedures_from,
};
use crate::errors::ErrorModel;
use crate::operations::Operation;
use crate::order::no_adjacent_spans;
use crate::token_stream::lexemes;
use vstd::prelude::*;

verus! {

/// The shape of every tree that the compiler builds: no span is empty, and
/// no join has two spans as its children.
pub open spec fn well_built(block: Block) -> bool
    decreases block,
{
    match block {
        Block::Span(ops) => ops.len() >= 1,
        Block::Join(left, right) => well_built(*left) && well_built(*right) && !(*left is Span
            && *right is Span),
        Block::Split(on_true, on_false) => well_built(*on_true) && well_built(*on_false),
        Block::Loop(body) => well_built(*body),
    }
}

pub open spec fn all_well_built(blocks: Seq<Block>) -> bool {
    forall|i: int| 0 <= i < blocks.len() ==> well_built(#[trigger] blocks[i])
}

pub open spec fn well_built_namespace(procs: Map<Seq<char>, Block>) -> bool {
    forall|label: Seq<char>| procs.contains_key(label) ==> well_built(#[trigger] procs[label])
}

/// Merging keeps the blocks well built and leaves no two spans side by side.
pub proof fn lemma_merge_shape(blocks: Seq<Block>)
    requires
        all_well_built(blocks),
    ensures
        all_well_built(merge_spans(blocks)),
        no_adjacent_spans(merge_spans(blocks)),
    decreases blocks.len(),
{
    if blocks.len() > 0 {
        let shorter = blocks.drop_last();
        assert forall|i: int| 0 <= i < shorter.len() implies well_built(#[trigger] shorter[i]) by {
            assert(shorter[i] == blocks[i]);
        }
        lemma_merge_shape(shorter);
        let merged = merge_spans(shorter);
        let block = blocks.last();
        assert(well_built(blocks[blocks.len() - 1]));
        let result = merge_spans(blocks);
        if merged.len() > 0 && merged.last() is Span && block is Span {
            let kept = merged.drop_last();
            let both = Block::Span(merged.last()->Span_0 + block->Span_0);
            assert(result == kept.push(both));
            assert(well_built(merged[merged.len() - 1]));
            assert(well_built(both));
            assert forall|i: int| 0 <= i < result.len() implies well_built(#[trigger] result[i]) by {
                if i < kept.len() {
                    assert(result[i] == merged[i]);
                }
            }
            assert forall|i: int, j: int| 0 <= i && j == i + 1 && j < result.len() implies !(
            #[trigger] result[i] is Span && #[trigger] result[j] is Span) by {
                assert(result[i] == merged[i]);
                if j < kept.len() {
                    assert(result[j] == merged[j]);
                } else {
                    assert(merged[j] is Span);
                }
            }
        } else {
            assert(result == merged.push(block));
            assert forall|i: int| 0 <= i < result.len() implies well_built(#[trigger] result[i]) by {
                if i < merged.len() {
                    assert(result[i] == merged[i]);
                }
            }
            assert forall|i: int, j: int| 0 <= i && j == i + 1 && j < result.len() implies !(
            #[trigger] result[i] is Span && #[trigger] result[j] is Span) by {
                assert(result[i] == merged[i]);
                if j < merged.len() {
                    assert(result[j] == merged[j]);
                } else {
                    assert(merged[i] == merged.last());
                }
            }
        }
    }
}

/// A round of joining keeps the blocks well built and leaves no two spans
/// side by side.
pub proof fn lemma_pair_up_shape(blocks: Seq<Block>)
    requires
        all_well_built(blocks),
        no_adjacent_spans(blocks),
    ensures
        all_well_built(pair_up(blocks)),
        no_adjacent_spans(pair_up(blocks)),
{
    let pairs = pair_up(blocks);
    assert forall|i: int| 0 <= i < pairs.len() implies well_built(#[trigger] pairs[i]) by {
        assert(well_built(blocks[2 * i]));
        if 2 * i + 1 < blocks.len() {
            assert(well_built(blocks[2 * i + 1]));
            assert(!(blocks[2 * i] is Span && blocks[2 * i + 1] is Span));
        }
    }
    assert forall|i: int, j: int| 0 <= i && j == i + 1 && j < pairs.len() implies !(
    #[trigger] pairs[i] is Span && #[trigger] pairs[j] is Span) by {
        assert(pairs[i] is Join);
    }
}

/// Balancing well-built blocks of which no two neighbours are spans gives a
/// well-built tree.
pub proof fn lemma_balance_shape(blocks: Seq<Block>)
    requires
        all_well_built(blocks),
        no_adjacent_spans(blocks),
    ensures
        well_built(balance(blocks)),
    decreases blocks.len(),
{
    if blocks.len() == 1 {
        assert(well_built(blocks[0]));
    } else if blocks.len() > 1 {
        lemma_pair_up_shape(blocks);
        lemma_balance_shape(pair_up(blocks));
    }
}

/// Well-built siblings are folded into a well-built tree.
pub proof fn lemma_combine_shape(blocks: Seq<Block>)
    requires
        all_well_built(blocks),
    ensures
        well_built(combine(blocks)),
{
    lemma_merge_shape(blocks);
    lemma_balance_shape(merge_spans(blocks));
}

proof fn lemma_repeated_length(ops: Seq<Operation>, count: nat)
    ensures
        repeated(ops, count).len() == count * ops.len(),
    decreases count,
{
    if count > 0 {
        lemma_repeated_length(ops, (count - 1) as nat);
        assert(count * ops.len() == (count - 1) * ops.len() + ops.len()) by (nonlinear_arith);
    } else {
        assert(count * ops.len() == 0) by (nonlinear_arith)
            requires
                count == 0,
        ;
    }
}

/// Unrolling a well-built body gives a well-built block.
pub proof fn lemma_unroll_shape(body: Block, count: nat)
    requires
        well_built(body),
    ensures
        well_built(unroll(body, count)),
{
    match body {
        Block::Span(ops) => {
            lemma_repeated_length(ops, count);
            if count > 0 {
                assert(count * ops.len() >= 1) by (nonlinear_arith)
                    requires
                        count >= 1,
                        ops.len() >= 1,
                ;
            }
        },
        _ => {
            lemma_combine_shape(Seq::new(count, |i: int| body));
        },
    }
}

/// A construct that the dispatcher found compiles to a well-built block,
/// where the procedures that it may call are well built.
pub proof fn lemma_construct_shape(
    construct: Construct,
    lexemes: Seq<Seq<char>>,
    pos: int,
    procs: Map<Seq<char>, Block>,
)
    requires
        0 <= pos <= lexemes.len(),
        well_built_namespace(procs),
        next_construct(lexemes, pos) == Ok::<Option<Construct>, ErrorModel>(Some(construct)),
    ensures
        parse_construct(construct, lexemes, pos, procs) matches Ok((block, _)) ==> well_built(
            block,
        ),
    decreases lexemes.len() - pos, 0int,
{
    match construct {
        Construct::Span => {
            lemma_span_in_range(lexemes, pos);
        },
        Construct::IfElse => {
            lemma_body_shape(lexemes, pos + 1, procs);
            if let Ok((on_true, middle)) = parse_body(lexemes, pos + 1, procs) {
                if pos < middle < lexemes.len() {
                    lemma_body_shape(lexemes, middle + 1, procs);
                    if let Ok((on_false, _)) = parse_body(lexemes, middle + 1, procs) {
                        assert(well_built(Block::split(on_true, on_false)));
                    }
                    assert(well_built(Block::noop_span()));
                    assert(well_built(Block::split(on_true, Block::noop_span())));
                }
            }
        },
        Construct::While => {
            lemma_body_shape(lexemes, pos + 1, procs);
        },
        Construct::Repeat(count) => {
            lemma_body_shape(lexemes, pos + 1, procs);
            if let Ok((body, _)) = parse_body(lexemes, pos + 1, procs) {
                lemma_unroll_shape(body, count as nat);
            }
        },
        Construct::Exec(_) => {
        },
    }
}

/// The constructs of a body compile to well-built blocks.
pub proof fn lemma_siblings_shape(lexemes: Seq<Seq<char>>, pos: int, procs: Map<Seq<char>, Block>)
    requires
        0 <= pos <= lexemes.len(),
        well_built_namespace(procs),
    ensures
        parse_siblings(lexemes, pos, procs) matches Ok((blocks, _)) ==> all_well_built(blocks),
    decreases lexemes.len() - pos, 1int,
{
    if let Ok(Some(construct)) = next_construct(lexemes, pos) {
        lemma_construct_in_range(construct, lexemes, pos, procs);
        lemma_construct_shape(construct, lexemes, pos, procs);
        if let Ok((block, next)) = parse_construct(construct, lexemes, pos, procs) {
            lemma_siblings_shape(lexemes, next, procs);
            if let Ok((rest, _)) = parse_siblings(lexemes, next, procs) {
                let blocks = seq![block] + rest;
                assert forall|i: int| 0 <= i < blocks.len() implies well_built(
                    #[trigger] blocks[i],
                ) by {
                    if i > 0 {
                        assert(blocks[i] == rest[i - 1]);
                    }
                }
            }
        }
    }
}

/// A body compiles to a well-built tree, where the procedures that it may
/// call are well built.
pub proof fn lemma_body_shape(lexemes: Seq<Seq<char>>, pos: int, procs: Map<Seq<char>, Block>)
    requires
        0 <= pos <= lexemes.len(),
        well_built_namespace(procs),
    ensures
        parse_body(lexemes, pos, procs) matches Ok((block, _)) ==> well_built(block),
    decreases lexemes.len() - pos, 2int,
{
    lemma_siblings_shape(lexemes, pos, procs);
    if let Ok((blocks, _)) = parse_siblings(lexemes, pos, procs) {
        lemma_combine_shape(blocks);
    }
}

/// Declaring procedures keeps the namespace well built.
pub proof fn lemma_procedures_shape(
    lexemes: Seq<Seq<char>>,
    pos: int,
    procs: Map<Seq<char>, Block>,
)
    requires
        0 <= pos <= lexemes.len(),
        well_built_namespace(procs),
    ensures
        procedures_from(lexemes, pos, procs) matches Ok((declared, end)) ==> well_built_namespace(
            declared,
        ) && 0 <= end <= lexemes.len(),
    decreases lexemes.len() - pos,
{
    if at_procedure(lexemes, pos) {
        lemma_procedure_in_range(lexemes, pos, procs);
        lemma_body_shape(lexemes, pos + 1, procs);
        if let Ok((declared, next)) = procedure_at(lexemes, pos, procs) {
            lemma_procedures_shape(lexemes, next, declared);
        }
    }
}

/// Every tree that a source compiles to is well built.
pub proof fn lemma_compiled_shape(source: Seq<char>)
    ensures
        compiled(source) matches Ok(root) ==> well_built(root),
{
    let words = lexemes(source);
    lemma_procedures_shape(words, 0, Map::empty());
    if let Ok((procs, pos)) = procedures_from(words, 0, Map::empty()) {
        if pos < words.len() {
            lemma_body_shape(words, pos + 1, procs);
        }
    }
}

} // verus!
