use crate::errors::{copy_token, AssemblyError, ErrorModel};
use crate::numbers::{bounded_numeral, decimal_text, parse_number, push_number};
use crate::text::{chars_of, is_word, push_word};
use crate::token_stream::texts;
use vstd::prelude::*;

verus! {

/// A primitive operation of the stack machine.
#[derive(Clone, Copy, Debug, PartialEq, Eq, Structural)]
pub enum Operation {
    /// Does nothing.
    Noop,
    /// Fails unless the top of the stack is one.
    Assert,
    /// Pushes the value onto the stack.
    Push(u128),
    /// Removes the top of the stack.
    Drop,
    /// Pushes a copy of the top of the stack.
    Dup,
    /// Exchanges the two topmost items.
    Swap,
    /// Replaces the two topmost items by their sum.
    Add,
    /// Replaces the top of the stack by its additive inverse.
    Neg,
    /// Replaces the two topmost items by their product.
    Mul,
    /// Replaces the top of the stack by its multiplicative inverse.
    Inv,
    /// Replaces a binary top of the stack by its negation.
    Not,
    /// Replaces the two topmost binary items by their conjunction.
    And,
    /// Replaces the two topmost binary items by their disjunction.
    Or,
    /// Replaces the two topmost items by one if they are equal and by zero if not.
    Eq,
}

/// The operations that an instruction without parameters stands for, or `None`
/// where `name` is no such instruction.
pub open spec fn plain_instruction(name: Seq<char>) -> Option<Seq<Operation>> {
    if name == "noop"@ {
        Some(seq![Operation::Noop])
    } else if name == "assert"@ {
        Some(seq![Operation::Assert])
    } else if name == "drop"@ {
        Some(seq![Operation::Drop])
    } else if name == "dup"@ {
        Some(seq![Operation::Dup])
    } else if name == "swap"@ {
        Some(seq![Operation::Swap])
    } else if name == "add"@ {
        Some(seq![Operation::Add])
    } else if name == "sub"@ {
        Some(seq![Operation::Neg, Operation::Add])
    } else if name == "neg"@ {
        Some(seq![Operation::Neg])
    } else if name == "mul"@ {
        Some(seq![Operation::Mul])
    } else if name == "inv"@ {
        Some(seq![Operation::Inv])
    } else if name == "not"@ {
        Some(seq![Operation::Not])
    } else if name == "and"@ {
        Some(seq![Operation::And])
    } else if name == "or"@ {
        Some(seq![Operation::Or])
    } else if name == "eq"@ {
        Some(seq![Operation::Eq])
    } else {
        None
    }
}

/// The operations that the instruction token at `pos` stands for, or the error
/// that it is rejected with.
pub open spec fn translate(token: Seq<Seq<char>>, pos: int) -> Result<Seq<Operation>, ErrorModel> {
    if token[0] == "push"@ {
        if token.len() == 1 {
            Err(ErrorModel::MissingParameter { token, position: pos })
        } else if token.len() > 2 {
            Err(ErrorModel::ExtraParameter { token, position: pos })
        } else {
            match bounded_numeral(token[1], u128::MAX as nat) {
                Some(value) => Ok(seq![Operation::Push(value as u128)]),
                None => Err(
                    ErrorModel::InvalidParameter {
                        token,
                        position: pos,
                        reason: "expected a number"@,
                    },
                ),
            }
        }
    } else {
        match plain_instruction(token[0]) {
            Some(ops) => if token.len() > 1 {
                Err(ErrorModel::ExtraParameter { token, position: pos })
            } else {
                Ok(ops)
            },
            None => Err(ErrorModel::InvalidOperation { token, position: pos }),
        }
    }
}

fn plain_operations(name: &Vec<char>) -> (found: Option<(Operation, Option<Operation>)>)
    ensures
        plain_instruction(name@) == match found {
            Some((first, Some(second))) => Some(seq![first, second]),
            Some((first, None)) => Some(seq![first]),
            None => None,
        },
{
    if is_word(name, "noop") {
        Some((Operation::Noop, None))
    } else if is_word(name, "assert") {
        Some((Operation::Assert, None))
    } else if is_word(name, "drop") {
        Some((Operation::Drop, None))
    } else if is_word(name, "dup") {
        Some((Operation::Dup, None))
    } else if is_word(name, "swap") {
        Some((Operation::Swap, None))
    } else if is_word(name, "add") {
        Some((Operation::Add, None))
    } else if is_word(name, "sub") {
        Some((Operation::Neg, Some(Operation::Add)))
    } else if is_word(name, "neg") {
        Some((Operation::Neg, None))
    } else if is_word(name, "mul") {
        Some((Operation::Mul, None))
    } else if is_word(name, "inv") {
        Some((Operation::Inv, None))
    } else if is_word(name, "not") {
        Some((Operation::Not, None))
    } else if is_word(name, "and") {
        Some((Operation::And, None))
    } else if is_word(name, "or") {
        Some((Operation::Or, None))
    } else if is_word(name, "eq") {
        Some((Operation::Eq, None))
    } else {
        None
    }
}

/// Translates the instruction token `op`, which stands at `pos`, and appends
/// its operations to `span_ops`. On an error `span_ops` is left as it was.
pub fn parse_op_token(op: &Vec<Vec<char>>, span_ops: &mut Vec<Operation>, pos: usize) -> (result:
    Result<(), AssemblyError>)
    requires
        op.len() >= 1,
    ensures
        match translate(texts(op@), pos as int) {
            Ok(ops) => result is Ok && final(span_ops)@ == old(span_ops)@ + ops,
            Err(error) => result is Err && result.unwrap_err()@ == error && final(span_ops)@ == old(
                span_ops,
            )@,
        },
{
    assert(texts(op@)[0] == op[0]@);
    if is_word(&op[0], "push") {
        if op.len() == 1 {
            Err(AssemblyError::MissingParameter { token: copy_token(op), position: pos })
        } else if op.len() > 2 {
            Err(AssemblyError::ExtraParameter { token: copy_token(op), position: pos })
        } else {
            assert(texts(op@)[1] == op[1]@);
            match parse_number(&op[1], u128::MAX) {
                Some(value) => {
                    span_ops.push(Operation::Push(value));
                    assert(span_ops@ == old(span_ops)@ + seq![Operation::Push(value)]);
                    Ok(())
                },
                None => Err(
                    AssemblyError::InvalidParameter {
                        token: copy_token(op),
                        position: pos,
                        reason: chars_of("expected a number"),
                    },
                ),
            }
        }
    } else {
        match plain_operations(&op[0]) {
            Some((first, second)) => {
                if op.len() > 1 {
                    Err(AssemblyError::ExtraParameter { token: copy_token(op), position: pos })
                } else {
                    span_ops.push(first);
                    match second {
                        Some(next) => {
                            span_ops.push(next);
                            assert(span_ops@ == old(span_ops)@ + seq![first, next]);
                        },
                        None => {
                            assert(span_ops@ == old(span_ops)@ + seq![first]);
                        },
                    }
                    Ok(())
                }
            },
            None => Err(AssemblyError::InvalidOperation { token: copy_token(op), position: pos }),
        }
    }
}

/// How an operation is written in the textual form of a block tree.
pub open spec fn operation_text(op: Operation) -> Seq<char> {
    match op {
        Operation::Noop => "noop"@,
        Operation::Assert => "assert"@,
        Operation::Push(value) => "push("@ + decimal_text(value as nat) + ")"@,
        Operation::Drop => "drop"@,
        Operation::Dup => "dup"@,
        Operation::Swap => "swap"@,
        Operation::Add => "add"@,
        Operation::Neg => "neg"@,
        Operation::Mul => "mul"@,
        Operation::Inv => "inv"@,
        Operation::Not => "not"@,
        Operation::And => "and"@,
        Operation::Or => "or"@,
        Operation::Eq => "eq"@,
    }
}

/// Appends the textual form of `op` to `buffer`.
pub fn push_operation(buffer: &mut Vec<char>, op: Operation)
    ensures
        final(buffer)@ == old(buffer)@ + operation_text(op),
{
    match op {
        Operation::Noop => push_word(buffer, "noop"),
        Operation::Assert => push_word(buffer, "assert"),
        Operation::Push(value) => {
            push_word(buffer, "push(");
            push_number(buffer, value);
            push_word(buffer, ")");
            assert(buffer@ == old(buffer)@ + operation_text(op));
        },
        Operation::Drop => push_word(buffer, "drop"),
        Operation::Dup => push_word(buffer, "dup"),
        Operation::Swap => push_word(buffer, "swap"),
        Operation::Add => push_word(buffer, "add"),
        Operation::Neg => push_word(buffer, "neg"),
        Operation::Mul => push_word(buffer, "mul"),
        Operation::Inv => push_word(buffer, "inv"),
        Operation::Not => push_word(buffer, "not"),
        Operation::And => push_word(buffer, "and"),
        Operation::Or => push_word(buffer, "or"),
        Operation::Eq => push_word(buffer, "eq"),
    }
}

} // verus!
