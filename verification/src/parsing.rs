use crate::blocks::Block;
use crate::combiner::combine;
use crate::errors::ErrorModel;
use crate::numbers::bounded_numeral;
use crate::operations::{translate, Operation};
use crate::token_stream::token_at;
use vstd::prelude::*;

verus! {

// KEYWORDS AND THEIR PARAMETERS
// ================================================================================================
/// An `if` or a `while` takes the one parameter `true`.
pub open spec fn check_condition(token: Seq<Seq<char>>, pos: int, reason: Seq<char>) -> Result<
    (),
    ErrorModel,
> {
    if token.len() == 2 && token[1] == "true"@ {
        Ok(())
    } else {
        Err(ErrorModel::InvalidParameter { token, position: pos, reason })
    }
}

pub open spec fn check_if(token: Seq<Seq<char>>, pos: int) -> Result<(), ErrorModel> {
    check_condition(token, pos, "expected if.true"@)
}

pub open spec fn check_while(token: Seq<Seq<char>>, pos: int) -> Result<(), ErrorModel> {
    check_condition(token, pos, "expected while.true"@)
}

/// An `else`, a `begin` or an `end` takes no parameter.
pub open spec fn check_bare(token: Seq<Seq<char>>, pos: int) -> Result<(), ErrorModel> {
    if token.len() == 1 {
        Ok(())
    } else {
        Err(ErrorModel::ExtraParameter { token, position: pos })
    }
}

/// A `repeat` takes one parameter, the number of iterations.
pub open spec fn check_repeat(token: Seq<Seq<char>>, pos: int) -> Result<u32, ErrorModel> {
    if token.len() == 1 {
        Err(ErrorModel::MissingParameter { token, position: pos })
    } else if token.len() == 2 {
        match bounded_numeral(token[1], u32::MAX as nat) {
            Some(count) => Ok(count as u32),
            None => Err(
                ErrorModel::InvalidParameter {
                    token,
                    position: pos,
                    reason: "expected a number of iterations"@,
                },
            ),
        }
    } else {
        Err(ErrorModel::ExtraParameter { token, position: pos })
    }
}

/// An `exec` or a `proc` takes one parameter, the label, which may be any text.
pub open spec fn check_label(token: Seq<Seq<char>>, pos: int) -> Result<Seq<char>, ErrorModel> {
    if token.len() == 1 {
        Err(ErrorModel::MissingParameter { token, position: pos })
    } else if token.len() == 2 {
        Ok(token[1])
    } else {
        Err(ErrorModel::ExtraParameter { token, position: pos })
    }
}

/// Whether a token opens or closes a construct, and so ends a span.
pub open spec fn is_control(token: Seq<Seq<char>>) -> bool {
    ||| token[0] == "if"@
    ||| token[0] == "else"@
    ||| token[0] == "while"@
    ||| token[0] == "repeat"@
    ||| token[0] == "exec"@
    ||| token[0] == "end"@
}

// CONSTRUCTS
// ================================================================================================
/// The mathematical model of a `BlockParser`: one of the five constructs that
/// a body is made of.
pub enum Construct {
    Span,
    IfElse,
    While,
    Repeat(u32),
    Exec(Seq<char>),
}

impl Construct {
    /// Whether `token`, the current one, is the token that this construct
    /// begins with. A span may begin anywhere.
    pub open spec fn opened_by(self, token: Option<Seq<Seq<char>>>) -> bool {
        match self {
            Construct::Span => true,
            Construct::IfElse => token matches Some(parts) && parts[0] == "if"@,
            Construct::While => token matches Some(parts) && parts[0] == "while"@,
            Construct::Repeat(_) => token matches Some(parts) && parts[0] == "repeat"@,
            Construct::Exec(_) => token matches Some(parts) && parts[0] == "exec"@,
        }
    }
}

/// What the dispatcher decides at `pos`: the construct that begins there,
/// `None` where the body ends (at an `else`, at an `end` and at the end of
/// the source), or the error of a keyword with the wrong parameters.
pub open spec fn next_construct(lexemes: Seq<Seq<char>>, pos: int) -> Result<
    Option<Construct>,
    ErrorModel,
> {
    match token_at(lexemes, pos) {
        None => Ok(None),
        Some(token) => {
            if token[0] == "if"@ {
                match check_if(token, pos) {
                    Ok(()) => Ok(Some(Construct::IfElse)),
                    Err(error) => Err(error),
                }
            } else if token[0] == "else"@ {
                match check_bare(token, pos) {
                    Ok(()) => Ok(None),
                    Err(error) => Err(error),
                }
            } else if token[0] == "while"@ {
                match check_while(token, pos) {
                    Ok(()) => Ok(Some(Construct::While)),
                    Err(error) => Err(error),
                }
            } else if token[0] == "repeat"@ {
                match check_repeat(token, pos) {
                    Ok(count) => Ok(Some(Construct::Repeat(count))),
                    Err(error) => Err(error),
                }
            } else if token[0] == "exec"@ {
                match check_label(token, pos) {
                    Ok(label) => Ok(Some(Construct::Exec(label))),
                    Err(error) => Err(error),
                }
            } else if token[0] == "end"@ {
                match check_bare(token, pos) {
                    Ok(()) => Ok(None),
                    Err(error) => Err(error),
                }
            } else {
                Ok(Some(Construct::Span))
            }
        },
    }
}

/// The operations of the instructions from `pos` up to the next control token
/// or the end of the source, and the position of what follows them.
pub open spec fn scan_span(lexemes: Seq<Seq<char>>, pos: int) -> Result<
    (Seq<Operation>, int),
    ErrorModel,
>
    decreases lexemes.len() - pos,
{
    match token_at(lexemes, pos) {
        None => Ok((Seq::empty(), pos)),
        Some(token) => if is_control(token) {
            Ok((Seq::empty(), pos))
        } else {
            match translate(token, pos) {
                Err(error) => Err(error),
                Ok(ops) => match scan_span(lexemes, pos + 1) {
                    Err(error) => Err(error),
                    Ok((rest, end)) => Ok((ops + rest, end)),
                },
            }
        },
    }
}

/// The position behind the `end` at `pos`. Where no `end` stands there, the
/// construct that it should close is `unmatched`.
pub open spec fn expect_end(lexemes: Seq<Seq<char>>, pos: int, unmatched: ErrorModel) -> Result<
    int,
    ErrorModel,
> {
    match token_at(lexemes, pos) {
        None => Err(unmatched),
        Some(token) => if token[0] == "end"@ {
            match check_bare(token, pos) {
                Ok(()) => Ok(pos + 1),
                Err(error) => Err(error),
            }
        } else {
            Err(unmatched)
        },
    }
}

/// The operations of `ops`, `count` times over.
pub open spec fn repeated(ops: Seq<Operation>, count: nat) -> Seq<Operation>
    decreases count,
{
    if count == 0 {
        Seq::empty()
    } else {
        repeated(ops, (count - 1) as nat) + ops
    }
}

/// The block that stands for `count` runs of `body`. A span is repeated within
/// one span; of another block, `count` copies are combined as siblings. No
/// run at all is a span with a single no-op.
pub open spec fn unroll(body: Block, count: nat) -> Block {
    match body {
        Block::Span(ops) => if count == 0 {
            Block::noop_span()
        } else {
            Block::Span(repeated(ops, count))
        },
        _ => combine(Seq::new(count, |i: int| body)),
    }
}

/// The block that the construct at `pos` compiles to, with the position
/// behind the construct; or the first error in it.
///
/// A construct with a body begins with its keyword, and a body ends behind
/// that keyword (`lemma_body_in_range`). The branches for a position outside
/// the source, and for a body that ends at or before the keyword, are
/// therefore never taken: they only make the recursion well founded.
pub open spec fn parse_construct(
    construct: Construct,
    lexemes: Seq<Seq<char>>,
    pos: int,
    procs: Map<Seq<char>, Block>,
) -> Result<(Block, int), ErrorModel>
    decreases lexemes.len() - pos, 0int,
{
    match construct {
        Construct::Span => match scan_span(lexemes, pos) {
            Err(error) => Err(error),
            Ok((ops, end)) => Ok((Block::Span(ops), end)),
        },
        Construct::IfElse => if !(0 <= pos < lexemes.len()) {
            Err(ErrorModel::UnmatchedIf { position: pos })
        } else {
            match parse_body(lexemes, pos + 1, procs) {
                Err(error) => Err(error),
                Ok((on_true, middle)) => match token_at(lexemes, middle) {
                    None => Err(ErrorModel::UnmatchedIf { position: pos }),
                    Some(token) => if middle <= pos {
                        Err(ErrorModel::UnmatchedIf { position: pos })
                    } else if token[0] == "else"@ {
                        match check_bare(token, middle) {
                            Err(error) => Err(error),
                            Ok(()) => match parse_body(lexemes, middle + 1, procs) {
                                Err(error) => Err(error),
                                Ok((on_false, last)) => match expect_end(
                                    lexemes,
                                    last,
                                    ErrorModel::UnmatchedElse { position: middle },
                                ) {
                                    Err(error) => Err(error),
                                    Ok(end) => Ok((Block::split(on_true, on_false), end)),
                                },
                            },
                        }
                    } else if token[0] == "end"@ {
                        match check_bare(token, middle) {
                            Err(error) => Err(error),
                            Ok(()) => Ok((Block::split(on_true, Block::noop_span()), middle + 1)),
                        }
                    } else {
                        Err(ErrorModel::UnmatchedIf { position: pos })
                    },
                },
            }
        },
        Construct::While => if !(0 <= pos < lexemes.len()) {
            Err(ErrorModel::UnmatchedWhile { position: pos })
        } else {
            match parse_body(lexemes, pos + 1, procs) {
                Err(error) => Err(error),
                Ok((body, last)) => match expect_end(
                    lexemes,
                    last,
                    ErrorModel::UnmatchedWhile { position: pos },
                ) {
                    Err(error) => Err(error),
                    Ok(end) => Ok((Block::repeat_while(body), end)),
                },
            }
        },
        Construct::Repeat(count) => if !(0 <= pos < lexemes.len()) {
            Err(ErrorModel::UnmatchedWhile { position: pos })
        } else {
            match parse_body(lexemes, pos + 1, procs) {
                Err(error) => Err(error),
                Ok((body, last)) => match expect_end(
                    lexemes,
                    last,
                    ErrorModel::UnmatchedWhile { position: pos },
                ) {
                    Err(error) => Err(error),
                    Ok(end) => Ok((unroll(body, count as nat), end)),
                },
            }
        },
        Construct::Exec(label) => if procs.contains_key(label) {
            Ok((procs[label], pos + 1))
        } else {
            Err(ErrorModel::UndefinedProcedure { label, position: pos })
        },
    }
}

/// The blocks of the constructs that stand one after the other from `pos` on,
/// up to the token that ends the body, with the position of that token.
///
/// A construct that the dispatcher found ends behind its first token and
/// within the source (`lemma_construct_in_range`), so the branch for one
/// that does not is never taken: it only makes the recursion well founded.
pub open spec fn parse_siblings(
    lexemes: Seq<Seq<char>>,
    pos: int,
    procs: Map<Seq<char>, Block>,
) -> Result<(Seq<Block>, int), ErrorModel>
    decreases lexemes.len() - pos, 1int,
{
    match next_construct(lexemes, pos) {
        Err(error) => Err(error),
        Ok(None) => Ok((Seq::empty(), pos)),
        Ok(Some(construct)) => match parse_construct(construct, lexemes, pos, procs) {
            Err(error) => Err(error),
            Ok((block, next)) => if next <= pos || next > lexemes.len() {
                Ok((seq![block], next))
            } else {
                match parse_siblings(lexemes, next, procs) {
                    Err(error) => Err(error),
                    Ok((rest, end)) => Ok((seq![block] + rest, end)),
                }
            },
        },
    }
}

/// The one block that the body from `pos` on compiles to, with the position
/// of the token that ends the body.
pub open spec fn parse_body(
    lexemes: Seq<Seq<char>>,
    pos: int,
    procs: Map<Seq<char>, Block>,
) -> Result<(Block, int), ErrorModel>
    decreases lexemes.len() - pos, 2int,
{
    match parse_siblings(lexemes, pos, procs) {
        Err(error) => Err(error),
        Ok((blocks, end)) => Ok((combine(blocks), end)),
    }
}

// WHERE A CONSTRUCT ENDS
// ================================================================================================
/// A span ends at or behind the position where it begins and within the
/// source. One that begins at an instruction holds an operation and ends
/// behind it.
pub proof fn lemma_span_in_range(lexemes: Seq<Seq<char>>, pos: int)
    requires
        0 <= pos <= lexemes.len(),
    ensures
        scan_span(lexemes, pos) matches Ok((ops, end)) ==> {
            &&& pos <= end <= lexemes.len()
            &&& (token_at(lexemes, pos) matches Some(token) && !is_control(token)) ==> pos < end
                && ops.len() >= 1
        },
    decreases lexemes.len() - pos,
{
    if let Some(token) = token_at(lexemes, pos) {
        if !is_control(token) {
            lemma_span_in_range(lexemes, pos + 1);
        }
    }
}

/// A construct that the dispatcher found ends behind the position where it
/// begins, and within the source.
pub proof fn lemma_construct_in_range(
    construct: Construct,
    lexemes: Seq<Seq<char>>,
    pos: int,
    procs: Map<Seq<char>, Block>,
)
    requires
        0 <= pos <= lexemes.len(),
        construct.opened_by(token_at(lexemes, pos)),
    ensures
        parse_construct(construct, lexemes, pos, procs) matches Ok((_, end)) ==> {
            &&& pos <= end <= lexemes.len()
            &&& next_construct(lexemes, pos) == Ok::<Option<Construct>, ErrorModel>(
                Some(construct),
            ) ==> pos < end
        },
    decreases lexemes.len() - pos, 0int,
{
    match construct {
        Construct::Span => {
            lemma_span_in_range(lexemes, pos);
        },
        Construct::IfElse => {
            lemma_body_in_range(lexemes, pos + 1, procs);
            if let Ok((_, middle)) = parse_body(lexemes, pos + 1, procs) {
                if middle < lexemes.len() {
                    lemma_body_in_range(lexemes, middle + 1, procs);
                }
            }
        },
        Construct::While => {
            lemma_body_in_range(lexemes, pos + 1, procs);
        },
        Construct::Repeat(_) => {
            lemma_body_in_range(lexemes, pos + 1, procs);
        },
        Construct::Exec(_) => {},
    }
}

/// A list of sibling constructs ends within the source, not before the
/// position where it begins.
pub proof fn lemma_siblings_in_range(
    lexemes: Seq<Seq<char>>,
    pos: int,
    procs: Map<Seq<char>, Block>,
)
    requires
        0 <= pos <= lexemes.len(),
    ensures
        parse_siblings(lexemes, pos, procs) matches Ok((_, end)) ==> pos <= end <= lexemes.len(),
    decreases lexemes.len() - pos, 1int,
{
    if let Ok(Some(construct)) = next_construct(lexemes, pos) {
        lemma_construct_in_range(construct, lexemes, pos, procs);
        if let Ok((_, next)) = parse_construct(construct, lexemes, pos, procs) {
            lemma_siblings_in_range(lexemes, next, procs);
        }
    }
}

/// A body ends within the source, not before the position where it begins.
pub proof fn lemma_body_in_range(lexemes: Seq<Seq<char>>, pos: int, procs: Map<Seq<char>, Block>)
    requires
        0 <= pos <= lexemes.len(),
    ensures
        parse_body(lexemes, pos, procs) matches Ok((_, end)) ==> pos <= end <= lexemes.len(),
    decreases lexemes.len() - pos, 2int,
{
    lemma_siblings_in_range(lexemes, pos, procs);
}

/// A body ends where the dispatcher finds no construct: at an `else` or an
/// `end` without parameters, or at the end of the source.
pub proof fn lemma_body_ends_at_terminator(
    lexemes: Seq<Seq<char>>,
    pos: int,
    procs: Map<Seq<char>, Block>,
)
    requires
        0 <= pos <= lexemes.len(),
    ensures
        parse_siblings(lexemes, pos, procs) matches Ok((_, end)) ==> next_construct(lexemes, end)
            == Ok::<Option<Construct>, ErrorModel>(None),
        parse_body(lexemes, pos, procs) matches Ok((_, end)) ==> next_construct(lexemes, end)
            == Ok::<Option<Construct>, ErrorModel>(None),
    decreases lexemes.len() - pos,
{
    if let Ok(Some(construct)) = next_construct(lexemes, pos) {
        lemma_construct_in_range(construct, lexemes, pos, procs);
        if let Ok((_, next)) = parse_construct(construct, lexemes, pos, procs) {
            lemma_body_ends_at_terminator(lexemes, next, procs);
        }
    }
}

} // verus!
