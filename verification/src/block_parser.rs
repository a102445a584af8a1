use crate::blocks::{trees, Block, CodeBlock};
use crate::combiner::combine_blocks;
use crate::errors::{copy_token, fails_with, AssemblyError, ErrorModel};
use crate::parsing::{
    check_bare, check_condition, check_if, check_label, check_repeat, check_while, expect_end,
    is_control, lemma_body_in_range, lemma_construct_in_range, next_construct, parse_body,
    parse_construct, parse_siblings, repeated, scan_span, unroll, Construct,
};
use crate::numbers::parse_number;
use crate::operations::{parse_op_token, translate, Operation};
use crate::proc_map::ProcMap;
use crate::text::{chars_of, copy_text, is_word};
use crate::token_stream::{texts, token_at, TokenStream};
use vstd::prelude::*;

verus! {

// VALIDATORS
// ================================================================================================
fn validate_condition(token: &Vec<Vec<char>>, pos: usize, reason: &str) -> (result: Result<
    (),
    AssemblyError,
>)
    requires
        token.len() >= 1,
    ensures
        match check_condition(texts(token@), pos as int, reason@) {
            Ok(()) => result is Ok,
            Err(error) => fails_with(result, error),
        },
{
    if token.len() == 2 && is_word(&token[1], "true") {
        assert(texts(token@)[1] == token[1]@);
        Ok(())
    } else {
        assert(token.len() == 2 ==> texts(token@)[1] == token[1]@);
        Err(
            AssemblyError::InvalidParameter {
                token: copy_token(token),
                position: pos,
                reason: chars_of(reason),
            },
        )
    }
}

fn validate_bare(token: &Vec<Vec<char>>, pos: usize) -> (result: Result<(), AssemblyError>)
    ensures
        match check_bare(texts(token@), pos as int) {
            Ok(()) => result is Ok,
            Err(error) => fails_with(result, error),
        },
{
    if token.len() == 1 {
        Ok(())
    } else {
        Err(AssemblyError::ExtraParameter { token: copy_token(token), position: pos })
    }
}

/// Checks the parameters of the `if` token at `pos`.
pub fn validate_if_token(token: &Vec<Vec<char>>, pos: usize) -> (result: Result<(), AssemblyError>)
    requires
        token.len() >= 1,
        token[0]@ == "if"@,
    ensures
        match check_if(texts(token@), pos as int) {
            Ok(()) => result is Ok,
            Err(error) => fails_with(result, error),
        },
{
    validate_condition(token, pos, "expected if.true")
}

/// Checks that the `else` token at `pos` has no parameters.
pub fn validate_else_token(token: &Vec<Vec<char>>, pos: usize) -> (result: Result<
    (),
    AssemblyError,
>)
    requires
        token.len() >= 1,
        token[0]@ == "else"@,
    ensures
        match check_bare(texts(token@), pos as int) {
            Ok(()) => result is Ok,
            Err(error) => fails_with(result, error),
        },
{
    validate_bare(token, pos)
}

/// Checks the parameters of the `while` token at `pos`.
pub fn validate_while_token(token: &Vec<Vec<char>>, pos: usize) -> (result: Result<
    (),
    AssemblyError,
>)
    requires
        token.len() >= 1,
        token[0]@ == "while"@,
    ensures
        match check_while(texts(token@), pos as int) {
            Ok(()) => result is Ok,
            Err(error) => fails_with(result, error),
        },
{
    validate_condition(token, pos, "expected while.true")
}

/// Checks the parameters of the `repeat` token at `pos` and reads the number
/// of iterations.
pub fn validate_repeat_token(token: &Vec<Vec<char>>, pos: usize) -> (result: Result<
    u32,
    AssemblyError,
>)
    requires
        token.len() >= 1,
        token[0]@ == "repeat"@,
    ensures
        match check_repeat(texts(token@), pos as int) {
            Ok(count) => result == Ok::<u32, AssemblyError>(count),
            Err(error) => fails_with(result, error),
        },
{
    if token.len() == 1 {
        Err(AssemblyError::MissingParameter { token: copy_token(token), position: pos })
    } else if token.len() == 2 {
        assert(texts(token@)[1] == token[1]@);
        match parse_number(&token[1], 0xFFFF_FFFF) {
            Some(count) => Ok(count as u32),
            None => Err(
                AssemblyError::InvalidParameter {
                    token: copy_token(token),
                    position: pos,
                    reason: chars_of("expected a number of iterations"),
                },
            ),
        }
    } else {
        Err(AssemblyError::ExtraParameter { token: copy_token(token), position: pos })
    }
}

/// Accepts any text as the label of a procedure.
pub fn validate_proc_label(label: &Vec<char>) -> (result: Result<Vec<char>, AssemblyError>)
    ensures
        result is Ok,
        result->Ok_0@ == label@,
{
    Ok(copy_text(label))
}

/// The label that a `proc` or an `exec` token carries.
pub fn validate_label_token(token: &Vec<Vec<char>>, pos: usize) -> (result: Result<
    Vec<char>,
    AssemblyError,
>)
    requires
        token.len() >= 1,
    ensures
        match check_label(texts(token@), pos as int) {
            Ok(label) => result is Ok && result->Ok_0@ == label,
            Err(error) => fails_with(result, error),
        },
{
    if token.len() == 1 {
        Err(AssemblyError::MissingParameter { token: copy_token(token), position: pos })
    } else if token.len() == 2 {
        assert(texts(token@)[1] == token[1]@);
        validate_proc_label(&token[1])
    } else {
        Err(AssemblyError::ExtraParameter { token: copy_token(token), position: pos })
    }
}

/// Checks the parameters of the `exec` token at `pos` and reads the label.
pub fn validate_exec_token(token: &Vec<Vec<char>>, pos: usize) -> (result: Result<
    Vec<char>,
    AssemblyError,
>)
    requires
        token.len() >= 1,
        token[0]@ == "exec"@,
    ensures
        match check_label(texts(token@), pos as int) {
            Ok(label) => result is Ok && result->Ok_0@ == label,
            Err(error) => fails_with(result, error),
        },
{
    validate_label_token(token, pos)
}

/// Checks that the `end` token at `pos` has no parameters.
pub fn validate_end_token(token: &Vec<Vec<char>>, pos: usize) -> (result: Result<
    (),
    AssemblyError,
>)
    requires
        token.len() >= 1,
        token[0]@ == "end"@,
    ensures
        match check_bare(texts(token@), pos as int) {
            Ok(()) => result is Ok,
            Err(error) => fails_with(result, error),
        },
{
    validate_bare(token, pos)
}

pub fn is_control_token(token: &Vec<Vec<char>>) -> (control: bool)
    requires
        token.len() >= 1,
    ensures
        control == is_control(texts(token@)),
{
    assert(texts(token@)[0] == token[0]@);
    is_word(&token[0], "if") || is_word(&token[0], "else") || is_word(&token[0], "while")
        || is_word(&token[0], "repeat") || is_word(&token[0], "exec") || is_word(
        &token[0],
        "end",
    )
}

// BODY PARSER
// ================================================================================================
/// Whether a parser that returned `result` and left the stream at `position`
/// did what `expected` says: it gave the expected block and stands at the
/// expected position, or it gave the expected error.
pub open spec fn parsed_as(
    result: Result<CodeBlock, AssemblyError>,
    position: int,
    expected: Result<(Block, int), ErrorModel>,
) -> bool {
    match expected {
        Ok((block, end)) => result is Ok && result->Ok_0@ == block && position == end,
        Err(error) => fails_with(result, error),
    }
}

/// The result of `parse_siblings`, behind blocks that were parsed before.
pub open spec fn behind(done: Seq<Block>, rest: Result<(Seq<Block>, int), ErrorModel>) -> Result<
    (Seq<Block>, int),
    ErrorModel,
> {
    match rest {
        Ok((blocks, end)) => Ok((done + blocks, end)),
        Err(error) => Err(error),
    }
}

/// Parses the constructs from the current token up to the token that ends
/// the body, and combines their blocks into one. The stream is left at the
/// token that ends the body.
pub fn parse_block_body(tokens: &mut TokenStream, proc_map: &ProcMap) -> (result: Result<
    CodeBlock,
    AssemblyError,
>)
    requires
        old(tokens).wf(),
    ensures
        final(tokens).wf(),
        final(tokens).lexemes() == old(tokens).lexemes(),
        parsed_as(
            result,
            final(tokens).position(),
            parse_body(old(tokens).lexemes(), old(tokens).position(), proc_map@),
        ),
    decreases old(tokens).lexemes().len() - old(tokens).position(), 2int,
{
    let ghost lexemes = tokens.lexemes();
    let ghost start = tokens.position();
    let mut blocks: Vec<CodeBlock> = Vec::new();
    proof {
        tokens.lemma_position_in_range();
        assert(trees(blocks@) + parse_siblings(lexemes, start, proc_map@)->Ok_0.0
            == parse_siblings(lexemes, start, proc_map@)->Ok_0.0);
    }
    loop
        invariant
            tokens.wf(),
            tokens.lexemes() == lexemes,
            lexemes == old(tokens).lexemes(),
            start == old(tokens).position(),
            start <= tokens.position() <= lexemes.len(),
            parse_siblings(lexemes, start, proc_map@) == behind(
                trees(blocks@),
                parse_siblings(lexemes, tokens.position(), proc_map@),
            ),
        ensures
            next_construct(lexemes, tokens.position()) == Ok::<Option<Construct>, ErrorModel>(None),
        decreases lexemes.len() - tokens.position(),
    {
        let ghost pos = tokens.position();
        let parser = match BlockParser::next(tokens) {
            Err(error) => {
                return Err(error);
            },
            Ok(None) => {
                break ;
            },
            Ok(Some(parser)) => parser,
        };
        proof {
            lemma_construct_in_range(parser@, lexemes, pos, proc_map@);
        }
        let block = match parser.parse(tokens, proc_map) {
            Err(error) => {
                return Err(error);
            },
            Ok(block) => block,
        };
        let ghost done = trees(blocks@);
        blocks.push(block);
        proof {
            assert(trees(blocks@) == done + seq![block@]);
            let rest = parse_siblings(lexemes, tokens.position(), proc_map@);
            if let Ok((later, _)) = rest {
                assert(done + (seq![block@] + later) == (done + seq![block@]) + later);
            }
        }
    }
    proof {
        assert(trees(blocks@) + Seq::<Block>::empty() == trees(blocks@));
    }
    Ok(combine_blocks(blocks))
}

// CODE BLOCK PARSER
// ================================================================================================
/// One of the five constructs that a body is made of, as the dispatcher found it.
#[derive(Debug, PartialEq, Eq)]
pub enum BlockParser {
    Span,
    IfElse,
    While,
    Repeat(u32),
    Exec(Vec<char>),
}

impl View for BlockParser {
    type V = Construct;

    open spec fn view(&self) -> Construct {
        match self {
            BlockParser::Span => Construct::Span,
            BlockParser::IfElse => Construct::IfElse,
            BlockParser::While => Construct::While,
            BlockParser::Repeat(count) => Construct::Repeat(*count),
            BlockParser::Exec(label) => Construct::Exec(label@),
        }
    }
}

impl BlockParser {
    /// Parses the construct that begins at the current token and leaves the
    /// stream behind it.
    pub fn parse(&self, tokens: &mut TokenStream, proc_map: &ProcMap) -> (result: Result<
        CodeBlock,
        AssemblyError,
    >)
        requires
            old(tokens).wf(),
            self@.opened_by(old(tokens).current_token()),
        ensures
            final(tokens).wf(),
            final(tokens).lexemes() == old(tokens).lexemes(),
            parsed_as(
                result,
                final(tokens).position(),
                parse_construct(self@, old(tokens).lexemes(), old(tokens).position(), proc_map@),
            ),
        decreases old(tokens).lexemes().len() - old(tokens).position(), 1int,
    {
        match self {
            BlockParser::Span => parse_span(tokens),
            BlockParser::IfElse => parse_if_else(tokens, proc_map),
            BlockParser::While => parse_while(tokens, proc_map),
            BlockParser::Repeat(count) => parse_repeat(*count, tokens, proc_map),
            BlockParser::Exec(label) => parse_exec(label, tokens, proc_map),
        }
    }

    /// Decides which construct begins at the current token, without moving
    /// the stream. `None` means that the body ends here.
    pub fn next(tokens: &TokenStream) -> (result: Result<Option<BlockParser>, AssemblyError>)
        requires
            tokens.wf(),
        ensures
            match next_construct(tokens.lexemes(), tokens.position()) {
                Ok(Some(construct)) => result matches Ok(Some(parser)) && parser@ == construct,
                Ok(None) => result matches Ok(None),
                Err(error) => fails_with(result, error),
            },
    {
        let pos = tokens.pos();
        match tokens.read() {
            None => Ok(None),
            Some(token) => {
                assert(texts(token@)[0] == token[0]@);
                if is_word(&token[0], "if") {
                    match validate_if_token(token, pos) {
                        Ok(()) => Ok(Some(BlockParser::IfElse)),
                        Err(error) => Err(error),
                    }
                } else if is_word(&token[0], "else") {
                    match validate_else_token(token, pos) {
                        Ok(()) => Ok(None),
                        Err(error) => Err(error),
                    }
                } else if is_word(&token[0], "while") {
                    match validate_while_token(token, pos) {
                        Ok(()) => Ok(Some(BlockParser::While)),
                        Err(error) => Err(error),
                    }
                } else if is_word(&token[0], "repeat") {
                    match validate_repeat_token(token, pos) {
                        Ok(count) => Ok(Some(BlockParser::Repeat(count))),
                        Err(error) => Err(error),
                    }
                } else if is_word(&token[0], "exec") {
                    match validate_exec_token(token, pos) {
                        Ok(label) => Ok(Some(BlockParser::Exec(label))),
                        Err(error) => Err(error),
                    }
                } else if is_word(&token[0], "end") {
                    match validate_end_token(token, pos) {
                        Ok(()) => Ok(None),
                        Err(error) => Err(error),
                    }
                } else {
                    Ok(Some(BlockParser::Span))
                }
            },
        }
    }
}

/// The result of `scan_span`, behind operations that were read before.
pub open spec fn behind_ops(
    done: Seq<Operation>,
    rest: Result<(Seq<Operation>, int), ErrorModel>,
) -> Result<(Seq<Operation>, int), ErrorModel> {
    match rest {
        Ok((ops, end)) => Ok((done + ops, end)),
        Err(error) => Err(error),
    }
}

/// Reads instructions up to the next control token or the end of the source.
fn parse_span(tokens: &mut TokenStream) -> (result: Result<CodeBlock, AssemblyError>)
    requires
        old(tokens).wf(),
    ensures
        final(tokens).wf(),
        final(tokens).lexemes() == old(tokens).lexemes(),
        match scan_span(old(tokens).lexemes(), old(tokens).position()) {
            Ok((ops, end)) => {
                &&& result is Ok
                &&& result->Ok_0@ == Block::Span(ops)
                &&& final(tokens).position() == end
            },
            Err(error) => fails_with(result, error),
        },
{
    let ghost lexemes = tokens.lexemes();
    let ghost start = tokens.position();
    let mut span_ops: Vec<Operation> = Vec::new();
    proof {
        tokens.lemma_position_in_range();
        assert(span_ops@ + scan_span(lexemes, start)->Ok_0.0 == scan_span(lexemes, start)->Ok_0.0);
    }
    loop
        invariant
            tokens.wf(),
            tokens.lexemes() == lexemes,
            lexemes == old(tokens).lexemes(),
            start == old(tokens).position(),
            0 <= tokens.position() <= lexemes.len(),
            scan_span(lexemes, start) == behind_ops(
                span_ops@,
                scan_span(lexemes, tokens.position()),
            ),
        ensures
            scan_span(lexemes, tokens.position()) == Ok::<(Seq<Operation>, int), ErrorModel>(
                (Seq::empty(), tokens.position()),
            ),
        decreases lexemes.len() - tokens.position(),
    {
        let pos = tokens.pos();
        let ghost done = span_ops@;
        match tokens.read() {
            None => {
                break ;
            },
            Some(op) => {
                if is_control_token(op) {
                    break ;
                }
                match parse_op_token(op, &mut span_ops, pos) {
                    Err(error) => {
                        return Err(error);
                    },
                    Ok(()) => {},
                }
            },
        }
        tokens.advance();
        proof {
            let ops = translate(token_at(lexemes, pos as int)->Some_0, pos as int)->Ok_0;
            if let Ok((later, _)) = scan_span(lexemes, pos + 1) {
                assert(done + (ops + later) == (done + ops) + later);
            }
        }
    }
    proof {
        assert(span_ops@ + Seq::<Operation>::empty() == span_ops@);
    }
    Ok(CodeBlock::new_span(span_ops))
}

/// Consumes the `end` that closes a construct. Where the current token is no
/// `end`, the result is the error `unmatched`.
pub fn consume_end(tokens: &mut TokenStream, unmatched: AssemblyError) -> (result: Result<
    (),
    AssemblyError,
>)
    requires
        old(tokens).wf(),
    ensures
        final(tokens).wf(),
        final(tokens).lexemes() == old(tokens).lexemes(),
        match expect_end(old(tokens).lexemes(), old(tokens).position(), unmatched@) {
            Ok(end) => result is Ok && final(tokens).position() == end,
            Err(error) => fails_with(result, error),
        },
{
    let pos = tokens.pos();
    match tokens.read() {
        None => {
            return Err(unmatched);
        },
        Some(token) => {
            assert(texts(token@)[0] == token[0]@);
            if is_word(&token[0], "end") {
                match validate_end_token(token, pos) {
                    Err(error) => {
                        return Err(error);
                    },
                    Ok(()) => {},
                }
            } else {
                return Err(unmatched);
            }
        },
    }
    tokens.advance();
    Ok(())
}

/// Parses `if.true`, the body of the true branch, and then either `else`,
/// the body of the false branch and `end`, or `end` alone.
fn parse_if_else(tokens: &mut TokenStream, proc_map: &ProcMap) -> (result: Result<
    CodeBlock,
    AssemblyError,
>)
    requires
        old(tokens).wf(),
        Construct::IfElse.opened_by(old(tokens).current_token()),
    ensures
        final(tokens).wf(),
        final(tokens).lexemes() == old(tokens).lexemes(),
        parsed_as(
            result,
            final(tokens).position(),
            parse_construct(
                Construct::IfElse,
                old(tokens).lexemes(),
                old(tokens).position(),
                proc_map@,
            ),
        ),
    decreases old(tokens).lexemes().len() - old(tokens).position(), 0int,
{
    let block_start = tokens.pos();
    tokens.advance();
    let t_branch = match parse_block_body(tokens, proc_map) {
        Err(error) => {
            return Err(error);
        },
        Ok(block) => block,
    };
    proof {
        lemma_body_in_range(tokens.lexemes(), block_start + 1, proc_map@);
    }
    let else_start = tokens.pos();
    let has_else = match tokens.read() {
        None => {
            return Err(AssemblyError::UnmatchedIf { position: block_start });
        },
        Some(token) => {
            assert(texts(token@)[0] == token[0]@);
            if is_word(&token[0], "else") {
                match validate_else_token(token, else_start) {
                    Err(error) => {
                        return Err(error);
                    },
                    Ok(()) => {},
                }
                true
            } else if is_word(&token[0], "end") {
                match validate_end_token(token, else_start) {
                    Err(error) => {
                        return Err(error);
                    },
                    Ok(()) => {},
                }
                false
            } else {
                return Err(AssemblyError::UnmatchedIf { position: block_start });
            }
        },
    };
    tokens.advance();
    let f_branch = if has_else {
        let f_branch = match parse_block_body(tokens, proc_map) {
            Err(error) => {
                return Err(error);
            },
            Ok(block) => block,
        };
        match consume_end(tokens, AssemblyError::UnmatchedElse { position: else_start }) {
            Err(error) => {
                return Err(error);
            },
            Ok(()) => {},
        }
        f_branch
    } else {
        let mut ops: Vec<Operation> = Vec::new();
        ops.push(Operation::Noop);
        CodeBlock::new_span(ops)
    };
    Ok(CodeBlock::new_split(t_branch, f_branch))
}

/// Parses `while.true`, the body of the loop and `end`.
fn parse_while(tokens: &mut TokenStream, proc_map: &ProcMap) -> (result: Result<
    CodeBlock,
    AssemblyError,
>)
    requires
        old(tokens).wf(),
        Construct::While.opened_by(old(tokens).current_token()),
    ensures
        final(tokens).wf(),
        final(tokens).lexemes() == old(tokens).lexemes(),
        parsed_as(
            result,
            final(tokens).position(),
            parse_construct(
                Construct::While,
                old(tokens).lexemes(),
                old(tokens).position(),
                proc_map@,
            ),
        ),
    decreases old(tokens).lexemes().len() - old(tokens).position(), 0int,
{
    let block_start = tokens.pos();
    tokens.advance();
    let loop_body = match parse_block_body(tokens, proc_map) {
        Err(error) => {
            return Err(error);
        },
        Ok(block) => block,
    };
    match consume_end(tokens, AssemblyError::UnmatchedWhile { position: block_start }) {
        Err(error) => {
            return Err(error);
        },
        Ok(()) => {},
    }
    Ok(CodeBlock::new_loop(loop_body))
}

/// Parses `repeat.<count>`, the body and `end`, and unrolls the body.
fn parse_repeat(iter_count: u32, tokens: &mut TokenStream, proc_map: &ProcMap) -> (result: Result<
    CodeBlock,
    AssemblyError,
>)
    requires
        old(tokens).wf(),
        Construct::Repeat(iter_count).opened_by(old(tokens).current_token()),
    ensures
        final(tokens).wf(),
        final(tokens).lexemes() == old(tokens).lexemes(),
        parsed_as(
            result,
            final(tokens).position(),
            parse_construct(
                Construct::Repeat(iter_count),
                old(tokens).lexemes(),
                old(tokens).position(),
                proc_map@,
            ),
        ),
    decreases old(tokens).lexemes().len() - old(tokens).position(), 0int,
{
    let block_start = tokens.pos();
    tokens.advance();
    let loop_body = match parse_block_body(tokens, proc_map) {
        Err(error) => {
            return Err(error);
        },
        Ok(block) => block,
    };
    match consume_end(tokens, AssemblyError::UnmatchedWhile { position: block_start }) {
        Err(error) => {
            return Err(error);
        },
        Ok(()) => {},
    }
    Ok(unroll_block(loop_body, iter_count))
}

/// The block that stands for `count` runs of `body`.
pub fn unroll_block(body: CodeBlock, count: u32) -> (block: CodeBlock)
    ensures
        block@ == unroll(body@, count as nat),
{
    match body {
        CodeBlock::Span(ops) => {
            let mut all: Vec<Operation> = Vec::new();
            if count == 0 {
                all.push(Operation::Noop);
                return CodeBlock::new_span(all);
            }
            let mut i: u32 = 0;
            while i < count
                invariant
                    i <= count,
                    all@ == repeated(ops@, i as nat),
                decreases count - i,
            {
                all.extend_from_slice(ops.as_slice());
                i += 1;
            }
            CodeBlock::new_span(all)
        },
        other => {
            let mut copies: Vec<CodeBlock> = Vec::new();
            let mut i: u32 = 0;
            while i < count
                invariant
                    i <= count,
                    trees(copies@) == Seq::new(i as nat, |j: int| other@),
                decreases count - i,
            {
                let ghost done = trees(copies@);
                let copy = other.clone();
                copies.push(copy);
                i += 1;
                assert(trees(copies@) == done.push(other@));
            }
            combine_blocks(copies)
        },
    }
}

/// Looks up the procedure `label` and hands back a copy of its block tree.
fn parse_exec(label: &Vec<char>, tokens: &mut TokenStream, proc_map: &ProcMap) -> (result: Result<
    CodeBlock,
    AssemblyError,
>)
    requires
        old(tokens).wf(),
        Construct::Exec(label@).opened_by(old(tokens).current_token()),
    ensures
        final(tokens).wf(),
        final(tokens).lexemes() == old(tokens).lexemes(),
        parsed_as(
            result,
            final(tokens).position(),
            parse_construct(
                Construct::Exec(label@),
                old(tokens).lexemes(),
                old(tokens).position(),
                proc_map@,
            ),
        ),
{
    match proc_map.get(label) {
        None => Err(
            AssemblyError::UndefinedProcedure { label: copy_text(label), position: tokens.pos() },
        ),
        Some(root) => {
            let proc_root = root.clone();
            tokens.advance();
            Ok(proc_root)
        },
    }
}

} // verus!
