use crate::block_parser::{consume_end, parse_block_body, validate_label_token};
use crate::blocks::{Block, CodeBlock, Script};
use crate::errors::{copy_token, fails_with, AssemblyError, ErrorModel};
use crate::parsing::{check_bare, check_label, expect_end, lemma_body_in_range, parse_body};
use crate::proc_map::ProcMap;
use crate::text::{copy_text, is_word};
use crate::token_stream::{lexemes, texts, token_at, token_parts, TokenStream};
use vstd::prelude::*;

verus! {

// WHAT A SOURCE COMPILES TO
// ================================================================================================
/// The namespace after the procedure whose `proc` token stands at `pos`, and
/// the position behind the procedure's `end`. The label must be new; the body
/// sees the procedures declared before.
pub open spec fn procedure_at(lexemes: Seq<Seq<char>>, pos: int, procs: Map<Seq<char>, Block>) -> Result<
    (Map<Seq<char>, Block>, int),
    ErrorModel,
>
    recommends
        at_procedure(lexemes, pos),
{
    match check_label(token_parts(lexemes[pos]), pos) {
        Err(error) => Err(error),
        Ok(label) => if procs.contains_key(label) {
            Err(ErrorModel::DuplicateProcedureLabel { label, position: pos })
        } else {
            match parse_body(lexemes, pos + 1, procs) {
                Err(error) => Err(error),
                Ok((root, last)) => match expect_end(
                    lexemes,
                    last,
                    ErrorModel::UnmatchedProcedure { label, position: pos },
                ) {
                    Err(error) => Err(error),
                    Ok(end) => Ok((procs.insert(label, root), end)),
                },
            }
        },
    }
}

/// Whether a procedure begins at `pos`.
pub open spec fn at_procedure(lexemes: Seq<Seq<char>>, pos: int) -> bool {
    token_at(lexemes, pos) matches Some(token) && token[0] == "proc"@
}

/// The namespace after the procedures that stand one after the other from
/// `pos` on, and the position of the first token that begins no procedure.
pub open spec fn procedures_from(
    lexemes: Seq<Seq<char>>,
    pos: int,
    procs: Map<Seq<char>, Block>,
) -> Result<(Map<Seq<char>, Block>, int), ErrorModel>
    decreases lexemes.len() - pos,
{
    if at_procedure(lexemes, pos) {
        match procedure_at(lexemes, pos, procs) {
            Err(error) => Err(error),
            Ok((declared, next)) => if next <= pos || next > lexemes.len() {
                Ok((declared, next))
            } else {
                procedures_from(lexemes, next, declared)
            },
        }
    } else {
        Ok((procs, pos))
    }
}

/// Whether the script body begins at `pos`.
pub open spec fn at_script(lexemes: Seq<Seq<char>>, pos: int) -> bool {
    token_at(lexemes, pos) matches Some(token) && token[0] == "begin"@
}

/// The block tree of the script body whose `begin` stands at `pos`. Nothing
/// may follow the body's `end`.
pub open spec fn script_at(lexemes: Seq<Seq<char>>, pos: int, procs: Map<Seq<char>, Block>) -> Result<
    Block,
    ErrorModel,
>
    recommends
        at_script(lexemes, pos),
{
    match check_bare(token_parts(lexemes[pos]), pos) {
        Err(error) => Err(error),
        Ok(()) => match parse_body(lexemes, pos + 1, procs) {
            Err(error) => Err(error),
            Ok((root, last)) => match expect_end(
                lexemes,
                last,
                ErrorModel::UnmatchedBegin { position: pos },
            ) {
                Err(error) => Err(error),
                Ok(end) => match token_at(lexemes, end) {
                    Some(token) => Err(
                        ErrorModel::DanglingOperationsAfterScript { token, position: end },
                    ),
                    None => Ok(root),
                },
            },
        },
    }
}

/// The block tree that the tokens compile to: procedures first, then
/// the script body between `begin` and `end`.
pub open spec fn compiled_tokens(lexemes: Seq<Seq<char>>) -> Result<Block, ErrorModel> {
    match procedures_from(lexemes, 0, Map::empty()) {
        Err(error) => Err(error),
        Ok((procs, pos)) => match token_at(lexemes, pos) {
            None => Err(ErrorModel::MissingBegin { position: pos }),
            Some(token) => if token[0] == "begin"@ {
                script_at(lexemes, pos, procs)
            } else {
                Err(ErrorModel::DanglingOperationsAfterProcedures { token, position: pos })
            },
        },
    }
}

/// The block tree that a source text compiles to, or the first error in it.
pub open spec fn compiled(source: Seq<char>) -> Result<Block, ErrorModel> {
    compiled_tokens(lexemes(source))
}

/// A procedure ends behind its `proc` token and within the source.
pub proof fn lemma_procedure_in_range(
    lexemes: Seq<Seq<char>>,
    pos: int,
    procs: Map<Seq<char>, Block>,
)
    requires
        0 <= pos < lexemes.len(),
    ensures
        procedure_at(lexemes, pos, procs) matches Ok((_, end)) ==> pos < end <= lexemes.len(),
{
    lemma_body_in_range(lexemes, pos + 1, procs);
}

/// A source compiles to what its lexemes compile to: how the lexemes are
/// spaced makes no difference.
pub proof fn lemma_spacing_is_irrelevant(first: Seq<char>, second: Seq<char>)
    requires
        lexemes(first) == lexemes(second),
    ensures
        compiled(first) == compiled(second),
{
}

// ASSEMBLY COMPILER
// ================================================================================================
/// Compiles a source text: procedure declarations, then the script body.
pub fn compile_script(source: &str) -> (result: Result<Script, AssemblyError>)
    ensures
        match compiled(source@) {
            Ok(root) => result is Ok && result->Ok_0@ == root,
            Err(error) => fails_with(result, error),
        },
{
    let mut tokens = TokenStream::new(source);
    let mut proc_map = ProcMap::new();
    let ghost words = tokens.lexemes();
    proof {
        tokens.lemma_position_in_range();
    }
    loop
        invariant
            tokens.wf(),
            tokens.lexemes() == words,
            words == lexemes(source@),
            0 <= tokens.position() <= words.len(),
            procedures_from(words, 0, Map::empty()) == procedures_from(
                words,
                tokens.position(),
                proc_map@,
            ),
        ensures
            tokens.wf(),
            tokens.lexemes() == words,
            procedures_from(words, 0, Map::empty()) == Ok::<
                (Map<Seq<char>, Block>, int),
                ErrorModel,
            >((proc_map@, tokens.position())),
        decreases words.len() - tokens.position(),
    {
        let is_proc = match tokens.read() {
            Some(token) => {
                assert(texts(token@)[0] == token[0]@);
                is_word(&token[0], "proc")
            },
            None => false,
        };
        if !is_proc {
            break ;
        }
        proof {
            lemma_procedure_in_range(words, tokens.position(), proc_map@);
        }
        match parse_proc(&mut tokens, &mut proc_map) {
            Err(error) => {
                return Err(error);
            },
            Ok(()) => {},
        }
    }
    let pos = tokens.pos();
    match tokens.read() {
        None => {
            return Err(AssemblyError::MissingBegin { position: pos });
        },
        Some(token) => {
            assert(texts(token@)[0] == token[0]@);
            if !is_word(&token[0], "begin") {
                return Err(
                    AssemblyError::DanglingOperationsAfterProcedures {
                        token: copy_token(token),
                        position: pos,
                    },
                );
            }
        },
    }
    match parse_script(&mut tokens, &proc_map) {
        Err(error) => Err(error),
        Ok(script_root) => Ok(Script::new(script_root)),
    }
}

// PARSERS
// ================================================================================================
/// Parses the script body, from `begin` to `end`, and checks that nothing
/// follows it.
pub fn parse_script(tokens: &mut TokenStream, proc_map: &ProcMap) -> (result: Result<
    CodeBlock,
    AssemblyError,
>)
    requires
        old(tokens).wf(),
        at_script(old(tokens).lexemes(), old(tokens).position()),
    ensures
        final(tokens).wf(),
        final(tokens).lexemes() == old(tokens).lexemes(),
        match script_at(old(tokens).lexemes(), old(tokens).position(), proc_map@) {
            Ok(root) => result is Ok && result->Ok_0@ == root,
            Err(error) => fails_with(result, error),
        },
{
    let script_start = tokens.pos();
    let header = tokens.read().unwrap();
    assert(texts(header@)[0] == header[0]@);
    match validate_begin_token(header, script_start) {
        Err(error) => {
            return Err(error);
        },
        Ok(()) => {},
    }
    tokens.advance();
    let root = match parse_block_body(tokens, proc_map) {
        Err(error) => {
            return Err(error);
        },
        Ok(root) => root,
    };
    match consume_end(tokens, AssemblyError::UnmatchedBegin { position: script_start }) {
        Err(error) => {
            return Err(error);
        },
        Ok(()) => {},
    }
    let pos = tokens.pos();
    match tokens.read() {
        Some(token) => Err(
            AssemblyError::DanglingOperationsAfterScript { token: copy_token(token), position: pos },
        ),
        None => {
            proof {
                tokens.lemma_position_in_range();
            }
            Ok(root)
        },
    }
}

/// Parses one procedure, from `proc.<label>` to `end`, and declares it.
/// On an error the namespace is left as it was.
pub fn parse_proc(tokens: &mut TokenStream, proc_map: &mut ProcMap) -> (result: Result<
    (),
    AssemblyError,
>)
    requires
        old(tokens).wf(),
        at_procedure(old(tokens).lexemes(), old(tokens).position()),
    ensures
        final(tokens).wf(),
        final(tokens).lexemes() == old(tokens).lexemes(),
        match procedure_at(old(tokens).lexemes(), old(tokens).position(), old(proc_map)@) {
            Ok((declared, end)) => {
                &&& result is Ok
                &&& final(proc_map)@ == declared
                &&& final(tokens).position() == end
            },
            Err(error) => fails_with(result, error) && final(proc_map)@ == old(proc_map)@,
        },
{
    let proc_start = tokens.pos();
    let header = tokens.read().unwrap();
    assert(texts(header@)[0] == header[0]@);
    let label = match validate_proc_token(header, proc_start) {
        Err(error) => {
            return Err(error);
        },
        Ok(label) => label,
    };
    if proc_map.contains_key(&label) {
        return Err(AssemblyError::DuplicateProcedureLabel { label, position: proc_start });
    }
    tokens.advance();
    let root = match parse_block_body(tokens, proc_map) {
        Err(error) => {
            return Err(error);
        },
        Ok(root) => root,
    };
    let unmatched = AssemblyError::UnmatchedProcedure {
        label: copy_text(&label),
        position: proc_start,
    };
    match consume_end(tokens, unmatched) {
        Err(error) => {
            return Err(error);
        },
        Ok(()) => {},
    }
    proc_map.insert(label, root);
    Ok(())
}

// HELPER FUNCTIONS
// ================================================================================================
/// Checks that the `begin` token at `pos` has no parameters.
pub fn validate_begin_token(token: &Vec<Vec<char>>, pos: usize) -> (result: Result<
    (),
    AssemblyError,
>)
    requires
        token.len() >= 1,
        token[0]@ == "begin"@,
    ensures
        match check_bare(texts(token@), pos as int) {
            Ok(()) => result is Ok,
            Err(error) => fails_with(result, error),
        },
{
    if token.len() > 1 {
        Err(AssemblyError::ExtraParameter { token: copy_token(token), position: pos })
    } else {
        Ok(())
    }
}

/// Checks the parameters of the `proc` token at `pos` and reads the label.
pub fn validate_proc_token(token: &Vec<Vec<char>>, pos: usize) -> (result: Result<
    Vec<char>,
    AssemblyError,
>)
    requires
        token.len() >= 1,
        token[0]@ == "proc"@,
    ensures
        match check_label(texts(token@), pos as int) {
            Ok(label) => result is Ok && result->Ok_0@ == label,
            Err(error) => fails_with(result, error),
        },
{
    validate_label_token(token, pos)
}

} // verus!
