use crate::blocks::{Block, CodeBlock, Script};
use crate::operations::{operation_text, push_operation, Operation};
use crate::text::{push_word, string_of};
use vstd::prelude::*;

verus! {

/// The operations of a span as text: each one behind a space.
pub open spec fn operations_text(ops: Seq<Operation>) -> Seq<char>
    decreases ops.len(),
{
    if ops.len() == 0 {
        Seq::empty()
    } else {
        operations_text(ops.drop_last()) + " "@ + operation_text(ops.last())
    }
}

/// The textual form of a block tree.
pub open spec fn block_text(block: Block) -> Seq<char>
    decreases block,
{
    match block {
        Block::Span(ops) => "span"@ + operations_text(ops) + " end"@,
        Block::Join(left, right) => "join "@ + block_text(*left) + " "@ + block_text(*right)
            + " end"@,
        Block::Split(on_true, on_false) => "if.true "@ + block_text(*on_true) + " else "@
            + block_text(*on_false) + " end"@,
        Block::Loop(body) => "loop "@ + block_text(*body) + " end"@,
    }
}

/// The textual form of a script with the body `root`.
pub open spec fn script_text(root: Block) -> Seq<char> {
    "begin "@ + block_text(root) + " end"@
}

/// Appends the textual form of `block` to `buffer`.
pub fn push_block(buffer: &mut Vec<char>, block: &CodeBlock)
    ensures
        final(buffer)@ == old(buffer)@ + block_text(block@),
    decreases block,
{
    let ghost before = buffer@;
    match block {
        CodeBlock::Span(ops) => {
            push_word(buffer, "span");
            let mut i: usize = 0;
            assert(ops@.take(0) == Seq::<Operation>::empty());
            while i < ops.len()
                invariant
                    i <= ops.len(),
                    buffer@ == before + "span"@ + operations_text(ops@.take(i as int)),
                decreases ops.len() - i,
            {
                push_word(buffer, " ");
                push_operation(buffer, ops[i]);
                assert(ops@.take(i + 1).drop_last() == ops@.take(i as int));
                i += 1;
            }
            assert(ops@.take(i as int) == ops@);
            push_word(buffer, " end");
        },
        CodeBlock::Join(left, right) => {
            push_word(buffer, "join ");
            push_block(buffer, left);
            push_word(buffer, " ");
            push_block(buffer, right);
            push_word(buffer, " end");
        },
        CodeBlock::Split(on_true, on_false) => {
            push_word(buffer, "if.true ");
            push_block(buffer, on_true);
            push_word(buffer, " else ");
            push_block(buffer, on_false);
            push_word(buffer, " end");
        },
        CodeBlock::Loop(body) => {
            push_word(buffer, "loop ");
            push_block(buffer, body);
            push_word(buffer, " end");
        },
    }
    assert(buffer@ == before + block_text(block@));
}

impl CodeBlock {
    /// The textual form of this block.
    pub fn to_text(&self) -> (text: Vec<char>)
        ensures
            text@ == block_text(self@),
    {
        let mut text: Vec<char> = Vec::new();
        push_block(&mut text, self);
        text
    }

    /// The textual form of this block, as a string.
    pub fn to_string(&self) -> (text: String)
        ensures
            text@ == block_text(self@),
    {
        string_of(&self.to_text())
    }
}

impl Script {
    /// The textual form of this script.
    pub fn to_text(&self) -> (text: Vec<char>)
        ensures
            text@ == script_text(self@),
    {
        let mut text: Vec<char> = Vec::new();
        push_word(&mut text, "begin ");
        push_block(&mut text, self.root());
        push_word(&mut text, " end");
        text
    }

    /// The textual form of this script, as a string.
    pub fn to_string(&self) -> (text: String)
        ensures
            text@ == script_text(self@),
    {
        string_of(&self.to_text())
    }
}

} // verus!
