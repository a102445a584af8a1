use crate::operations::Operation;
use vstd::prelude::*;

verus! {

/// The mathematical model of a block tree.
pub enum Block {
    /// Operations that run one after the other.
    Span(Seq<Operation>),
    /// Two blocks that run one after the other, the left one first.
    Join(Box<Block>, Box<Block>),
    /// A choice between the first block, taken on true, and the second.
    Split(Box<Block>, Box<Block>),
    /// A block that is repeated while a condition holds.
    Loop(Box<Block>),
}

impl Block {
    /// The span that stands where the source gives no operation.
    pub open spec fn noop_span() -> Block {
        Block::Span(seq![Operation::Noop])
    }

    pub open spec fn join(left: Block, right: Block) -> Block {
        Block::Join(Box::new(left), Box::new(right))
    }

    pub open spec fn split(on_true: Block, on_false: Block) -> Block {
        Block::Split(Box::new(on_true), Box::new(on_false))
    }

    pub open spec fn repeat_while(body: Block) -> Block {
        Block::Loop(Box::new(body))
    }
}

/// A block of an executable program: a tree whose leaves are spans of operations.
#[derive(Debug, PartialEq, Eq)]
pub enum CodeBlock {
    Span(Vec<Operation>),
    Join(Box<CodeBlock>, Box<CodeBlock>),
    Split(Box<CodeBlock>, Box<CodeBlock>),
    Loop(Box<CodeBlock>),
}

impl CodeBlock {
    /// The tree that this block stands for.
    pub open spec fn tree(&self) -> Block
        decreases self,
    {
        match self {
            CodeBlock::Span(ops) => Block::Span(ops@),
            CodeBlock::Join(left, right) => Block::join(left.tree(), right.tree()),
            CodeBlock::Split(on_true, on_false) => Block::split(on_true.tree(), on_false.tree()),
            CodeBlock::Loop(body) => Block::repeat_while(body.tree()),
        }
    }

    /// A span of the given operations.
    pub fn new_span(operations: Vec<Operation>) -> (block: Self)
        ensures
            block@ == Block::Span(operations@),
    {
        CodeBlock::Span(operations)
    }

    /// A block that runs `left`, then `right`.
    pub fn new_join(left: CodeBlock, right: CodeBlock) -> (block: Self)
        ensures
            block@ == Block::join(left@, right@),
    {
        CodeBlock::Join(Box::new(left), Box::new(right))
    }

    /// A block that runs `on_true` or `on_false`.
    pub fn new_split(on_true: CodeBlock, on_false: CodeBlock) -> (block: Self)
        ensures
            block@ == Block::split(on_true@, on_false@),
    {
        CodeBlock::Split(Box::new(on_true), Box::new(on_false))
    }

    /// A block that repeats `body`.
    pub fn new_loop(body: CodeBlock) -> (block: Self)
        ensures
            block@ == Block::repeat_while(body@),
    {
        CodeBlock::Loop(Box::new(body))
    }

    /// Whether this block is a span.
    pub fn is_span(&self) -> (span: bool)
        ensures
            span == (self@ is Span),
    {
        match self {
            CodeBlock::Span(_) => true,
            _ => false,
        }
    }
}

impl View for CodeBlock {
    type V = Block;

    open spec fn view(&self) -> Block {
        self.tree()
    }
}

impl Clone for CodeBlock {
    /// An independent copy: it stands for the same tree as this block and
    /// shares nothing with it.
    fn clone(&self) -> (copy: Self)
        ensures
            copy@ == self@,
        decreases self,
    {
        match self {
            CodeBlock::Span(ops) => CodeBlock::Span(ops.clone()),
            CodeBlock::Join(left, right) => CodeBlock::Join(
                Box::new((**left).clone()),
                Box::new((**right).clone()),
            ),
            CodeBlock::Split(on_true, on_false) => CodeBlock::Split(
                Box::new((**on_true).clone()),
                Box::new((**on_false).clone()),
            ),
            CodeBlock::Loop(body) => CodeBlock::Loop(Box::new((**body).clone())),
        }
    }
}

/// A compiled script: the block tree of its body.
#[derive(Debug, PartialEq, Eq)]
pub struct Script {
    root: CodeBlock,
}

impl View for Script {
    type V = Block;

    closed spec fn view(&self) -> Block {
        self.root@
    }
}

impl Script {
    /// The script whose body is `root`.
    pub fn new(root: CodeBlock) -> (script: Self)
        ensures
            script@ == root@,
    {
        Script { root }
    }

    /// The block tree of the script's body.
    pub fn root(&self) -> (root: &CodeBlock)
        ensures
            root@ == self@,
    {
        &self.root
    }
}

/// The trees that a sequence of blocks stands for.
pub open spec fn trees(blocks: Seq<CodeBlock>) -> Seq<Block> {
    Seq::new(blocks.len(), |i: int| blocks[i]@)
}

} // verus!
