use crate::text::copy_text;
use crate::token_stream::texts;
use vstd::prelude::*;

verus! {

/// The mathematical model of an assembly error: positions are lexeme indices,
/// tokens are given by their parts.
pub enum ErrorModel {
    MissingParameter { token: Seq<Seq<char>>, position: int },
    ExtraParameter { token: Seq<Seq<char>>, position: int },
    InvalidParameter { token: Seq<Seq<char>>, position: int, reason: Seq<char> },
    InvalidOperation { token: Seq<Seq<char>>, position: int },
    UndefinedProcedure { label: Seq<char>, position: int },
    DuplicateProcedureLabel { label: Seq<char>, position: int },
    UnmatchedIf { position: int },
    UnmatchedElse { position: int },
    UnmatchedWhile { position: int },
    UnmatchedProcedure { label: Seq<char>, position: int },
    UnmatchedBegin { position: int },
    MissingBegin { position: int },
    DanglingOperationsAfterProcedures { token: Seq<Seq<char>>, position: int },
    DanglingOperationsAfterScript { token: Seq<Seq<char>>, position: int },
}

/// Why a source text was rejected, with the position of the token that the
/// diagnostic is anchored at.
#[derive(Debug, PartialEq, Eq)]
pub enum AssemblyError {
    /// A keyword or an operation lacks the parameter that it needs.
    MissingParameter { token: Vec<Vec<char>>, position: usize },
    /// A keyword or an operation has more parameters than it takes.
    ExtraParameter { token: Vec<Vec<char>>, position: usize },
    /// A parameter is not of the expected form.
    InvalidParameter { token: Vec<Vec<char>>, position: usize, reason: Vec<char> },
    /// The token names no operation.
    InvalidOperation { token: Vec<Vec<char>>, position: usize },
    /// An `exec` names a procedure that no earlier `proc` declared.
    UndefinedProcedure { label: Vec<char>, position: usize },
    /// A `proc` reuses the label of an earlier procedure.
    DuplicateProcedureLabel { label: Vec<char>, position: usize },
    /// The `if` at the position has neither `else` nor `end`.
    UnmatchedIf { position: usize },
    /// The `else` at the position has no `end`.
    UnmatchedElse { position: usize },
    /// The `while` or `repeat` at the position has no `end`.
    UnmatchedWhile { position: usize },
    /// The `proc` at the position has no `end`.
    UnmatchedProcedure { label: Vec<char>, position: usize },
    /// The `begin` at the position has no `end`.
    UnmatchedBegin { position: usize },
    /// The source ends where the script body should begin.
    MissingBegin { position: usize },
    /// Something other than `begin` follows the procedures.
    DanglingOperationsAfterProcedures { token: Vec<Vec<char>>, position: usize },
    /// Something follows the `end` of the script body.
    DanglingOperationsAfterScript { token: Vec<Vec<char>>, position: usize },
}

impl View for AssemblyError {
    type V = ErrorModel;

    open spec fn view(&self) -> ErrorModel {
        match self {
            AssemblyError::MissingParameter { token, position } => ErrorModel::MissingParameter {
                token: texts(token@),
                position: *position as int,
            },
            AssemblyError::ExtraParameter { token, position } => ErrorModel::ExtraParameter {
                token: texts(token@),
                position: *position as int,
            },
            AssemblyError::InvalidParameter {
                token,
                position,
                reason,
            } => ErrorModel::InvalidParameter {
                token: texts(token@),
                position: *position as int,
                reason: reason@,
            },
            AssemblyError::InvalidOperation { token, position } => ErrorModel::InvalidOperation {
                token: texts(token@),
                position: *position as int,
            },
            AssemblyError::UndefinedProcedure { label, position } => ErrorModel::UndefinedProcedure {
                label: label@,
                position: *position as int,
            },
            AssemblyError::DuplicateProcedureLabel {
                label,
                position,
            } => ErrorModel::DuplicateProcedureLabel { label: label@, position: *position as int },
            AssemblyError::UnmatchedIf { position } => ErrorModel::UnmatchedIf {
                position: *position as int,
            },
            AssemblyError::UnmatchedElse { position } => ErrorModel::UnmatchedElse {
                position: *position as int,
            },
            AssemblyError::UnmatchedWhile { position } => ErrorModel::UnmatchedWhile {
                position: *position as int,
            },
            AssemblyError::UnmatchedProcedure { label, position } => ErrorModel::UnmatchedProcedure {
                label: label@,
                position: *position as int,
            },
            AssemblyError::UnmatchedBegin { position } => ErrorModel::UnmatchedBegin {
                position: *position as int,
            },
            AssemblyError::MissingBegin { position } => ErrorModel::MissingBegin {
                position: *position as int,
            },
            AssemblyError::DanglingOperationsAfterProcedures {
                token,
                position,
            } => ErrorModel::DanglingOperationsAfterProcedures {
                token: texts(token@),
                position: *position as int,
            },
            AssemblyError::DanglingOperationsAfterScript {
                token,
                position,
            } => ErrorModel::DanglingOperationsAfterScript {
                token: texts(token@),
                position: *position as int,
            },
        }
    }
}

impl ErrorModel {
    /// The position that the error is anchored at.
    pub open spec fn position(self) -> int {
        match self {
            ErrorModel::MissingParameter { position, .. } => position,
            ErrorModel::ExtraParameter { position, .. } => position,
            ErrorModel::InvalidParameter { position, .. } => position,
            ErrorModel::InvalidOperation { position, .. } => position,
            ErrorModel::UndefinedProcedure { position, .. } => position,
            ErrorModel::DuplicateProcedureLabel { position, .. } => position,
            ErrorModel::UnmatchedIf { position } => position,
            ErrorModel::UnmatchedElse { position } => position,
            ErrorModel::UnmatchedWhile { position } => position,
            ErrorModel::UnmatchedProcedure { position, .. } => position,
            ErrorModel::UnmatchedBegin { position } => position,
            ErrorModel::MissingBegin { position } => position,
            ErrorModel::DanglingOperationsAfterProcedures { position, .. } => position,
            ErrorModel::DanglingOperationsAfterScript { position, .. } => position,
        }
    }
}

impl AssemblyError {
    /// The position of the token that the error is anchored at.
    pub fn position(&self) -> (position: usize)
        ensures
            position == self@.position(),
    {
        match self {
            AssemblyError::MissingParameter { position, .. } => *position,
            AssemblyError::ExtraParameter { position, .. } => *position,
            AssemblyError::InvalidParameter { position, .. } => *position,
            AssemblyError::InvalidOperation { position, .. } => *position,
            AssemblyError::UndefinedProcedure { position, .. } => *position,
            AssemblyError::DuplicateProcedureLabel { position, .. } => *position,
            AssemblyError::UnmatchedIf { position } => *position,
            AssemblyError::UnmatchedElse { position } => *position,
            AssemblyError::UnmatchedWhile { position } => *position,
            AssemblyError::UnmatchedProcedure { position, .. } => *position,
            AssemblyError::UnmatchedBegin { position } => *position,
            AssemblyError::MissingBegin { position } => *position,
            AssemblyError::DanglingOperationsAfterProcedures { position, .. } => *position,
            AssemblyError::DanglingOperationsAfterScript { position, .. } => *position,
        }
    }
}

/// Whether `result` is the error that `error` models.
pub open spec fn fails_with<T>(result: Result<T, AssemblyError>, error: ErrorModel) -> bool {
    result is Err && result->Err_0@ == error
}

/// A copy of a token's parts.
pub fn copy_token(token: &Vec<Vec<char>>) -> (copy: Vec<Vec<char>>)
    ensures
        texts(copy@) == texts(token@),
{
    let mut copy: Vec<Vec<char>> = Vec::new();
    let mut i: usize = 0;
    while i < token.len()
        invariant
            i <= token.len(),
            texts(copy@) == texts(token@).take(i as int),
        decreases token.len() - i,
    {
        let ghost done = texts(copy@);
        let part = copy_text(&token[i]);
        copy.push(part);
        assert(texts(copy@) == done.push(token@[i as int]@));
        assert(texts(token@).take(i + 1) == texts(token@).take(i as int).push(token@[i as int]@));
        i += 1;
    }
    assert(texts(token@).take(i as int) == texts(token@));
    copy
}

} // verus!
