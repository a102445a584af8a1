use crate::blocks::Block;
use crate::compiler::{at_procedure, compiled, compiled_tokens, procedure_at, procedures_from};
use crate::errors::ErrorModel;
use crate::grammar::{
    declared, dotless, ends_run, is_instruction, lemma_parse_written_body,
    lemma_translate_anywhere, lemma_well_formed_source_compiles, meaning_of_body,
    meaning_of_script, meanings, operations_of, well_formed, well_formed_body,
    well_formed_procedures, well_formed_script, with_parameter, written, written_all,
    written_procedure, written_procedures, written_script, ProcedureSyntax, ScriptSyntax, Syntax,
};
use crate::parsing::{
    check_bare, is_control, lemma_body_ends_at_terminator, lemma_body_in_range,
    lemma_construct_in_range, lemma_siblings_in_range, lemma_span_in_range, next_construct,
    parse_body, parse_construct, parse_siblings, scan_span, Construct,
};
use crate::token_stream::{dotted, lemma_parts_spell_lexeme, lexemes, token_at, token_parts};
use vstd::prelude::*;

verus! {

// WHAT COMPILES IS WELL FORMED
// ================================================================================================
/// A lexeme is spelled by its parts: one part is the lexeme itself, two
/// parts are a keyword with its parameter. The parts hold no dot.
pub proof fn lemma_lexeme_of_parts(lexeme: Seq<char>)
    ensures
        token_parts(lexeme).len() == 1 ==> lexeme == token_parts(lexeme)[0],
        token_parts(lexeme).len() == 2 ==> lexeme == with_parameter(
            token_parts(lexeme)[0],
            token_parts(lexeme)[1],
        ),
        forall|i: int| 0 <= i < token_parts(lexeme).len() ==> dotless(#[trigger] token_parts(lexeme)[i]),
{
    let parts = token_parts(lexeme);
    lemma_parts_spell_lexeme(lexeme);
    if parts.len() == 2 {
        assert(parts.drop_last().len() == 1);
        assert(dotted(parts.drop_last()) == parts[0]);
        assert(dotted(parts) == parts[0].push('.') + parts[1]);
    }
    assert forall|i: int| 0 <= i < parts.len() implies dotless(#[trigger] parts[i]) by {
        assert forall|j: int| 0 <= j < parts[i].len() implies #[trigger] parts[i][j] != '.' by {
            assert(token_parts(lexeme)[i][j] != '.');
        }
    }
}

/// The lexemes that were read as a span are instructions, and the span
/// ends where the source ends or a control token stands.
pub proof fn lemma_scanned_run(lexemes: Seq<Seq<char>>, pos: int)
    requires
        0 <= pos <= lexemes.len(),
    ensures
        scan_span(lexemes, pos) matches Ok((ops, end)) ==> {
            &&& pos <= end <= lexemes.len()
            &&& ends_run(lexemes, end)
            &&& ops == operations_of(lexemes.subrange(pos, end))
            &&& forall|i: int| pos <= i < end ==> is_instruction(#[trigger] lexemes[i])
        },
    decreases lexemes.len() - pos,
{
    if let Ok((ops, end)) = scan_span(lexemes, pos) {
        if let Some(token) = token_at(lexemes, pos) {
            if !is_control(token) {
                lemma_scanned_run(lexemes, pos + 1);
                lemma_translate_anywhere(token, 0, pos);
                let run = lexemes.subrange(pos, end);
                assert(run[0] == lexemes[pos]);
                assert(run.skip(1) == lexemes.subrange(pos + 1, end));
            } else {
                assert(lexemes.subrange(pos, end) == Seq::<Seq<char>>::empty());
            }
        } else {
            assert(lexemes.subrange(pos, end) == Seq::<Seq<char>>::empty());
        }
    }
}

/// The construct that was read at `pos`, where the parser of `construct`
/// succeeded there.
pub open spec fn syntax_at(
    construct: Construct,
    lexemes: Seq<Seq<char>>,
    pos: int,
    procs: Map<Seq<char>, Block>,
) -> Syntax
    decreases lexemes.len() - pos, 0int,
{
    match construct {
        Construct::Span => Syntax::Instructions(
            lexemes.subrange(pos, scan_span(lexemes, pos)->Ok_0.1),
        ),
        Construct::IfElse => if !(0 <= pos < lexemes.len()) {
            Syntax::If(Seq::empty())
        } else {
            let middle = parse_body(lexemes, pos + 1, procs)->Ok_0.1;
            if pos < middle < lexemes.len() && token_parts(lexemes[middle])[0] == "else"@ {
                Syntax::IfElse(
                    body_at(lexemes, pos + 1, procs),
                    body_at(lexemes, middle + 1, procs),
                )
            } else {
                Syntax::If(body_at(lexemes, pos + 1, procs))
            }
        },
        Construct::While => if !(0 <= pos < lexemes.len()) {
            Syntax::While(Seq::empty())
        } else {
            Syntax::While(body_at(lexemes, pos + 1, procs))
        },
        Construct::Repeat(_) => if !(0 <= pos < lexemes.len()) {
            Syntax::Repeat(Seq::empty(), Seq::empty())
        } else {
            Syntax::Repeat(token_parts(lexemes[pos])[1], body_at(lexemes, pos + 1, procs))
        },
        Construct::Exec(label) => Syntax::Exec(label),
    }
}

/// The body that was read from `pos` on, where the body parser succeeded
/// there.
pub open spec fn body_at(
    lexemes: Seq<Seq<char>>,
    pos: int,
    procs: Map<Seq<char>, Block>,
) -> Seq<Syntax>
    decreases lexemes.len() - pos, 1int,
{
    match next_construct(lexemes, pos) {
        Ok(Some(construct)) => match parse_construct(construct, lexemes, pos, procs) {
            Ok((_, next)) => if next <= pos || next > lexemes.len() {
                seq![syntax_at(construct, lexemes, pos, procs)]
            } else {
                seq![syntax_at(construct, lexemes, pos, procs)] + body_at(lexemes, next, procs)
            },
            Err(_) => Seq::empty(),
        },
        _ => Seq::empty(),
    }
}

/// A keyword without parameters is its own lexeme.
proof fn lemma_bare_keyword(lexemes: Seq<Seq<char>>, pos: int, keyword: Seq<char>)
    requires
        token_at(lexemes, pos) matches Some(token) && token[0] == keyword && check_bare(token, pos)
            is Ok,
    ensures
        0 <= pos < lexemes.len(),
        lexemes[pos] == keyword,
{
    lemma_lexeme_of_parts(lexemes[pos]);
}

/// What was read as a body is a well-formed body, written as it stands in
/// the source, and it means the block that the parser gave.
pub proof fn lemma_body_read(lexemes: Seq<Seq<char>>, pos: int, procs: Map<Seq<char>, Block>)
    requires
        0 <= pos <= lexemes.len(),
        parse_siblings(lexemes, pos, procs) is Ok,
    ensures
        well_formed_body(body_at(lexemes, pos, procs), procs),
        pos <= parse_siblings(lexemes, pos, procs)->Ok_0.1 <= lexemes.len(),
        written_all(body_at(lexemes, pos, procs)) == lexemes.subrange(
            pos,
            parse_siblings(lexemes, pos, procs)->Ok_0.1,
        ),
        meanings(body_at(lexemes, pos, procs), procs) == parse_siblings(lexemes, pos, procs)->Ok_0.0,
        meaning_of_body(body_at(lexemes, pos, procs), procs) == parse_body(
            lexemes,
            pos,
            procs,
        )->Ok_0.0,
        body_at(lexemes, pos, procs).len() > 0 ==> (body_at(lexemes, pos, procs)[0] is Instructions
            <==> next_construct(lexemes, pos) == Ok::<Option<Construct>, ErrorModel>(
            Some(Construct::Span),
        )),
    decreases lexemes.len() - pos, 2int,
{
    let body = body_at(lexemes, pos, procs);
    let end = parse_siblings(lexemes, pos, procs)->Ok_0.1;
    lemma_siblings_in_range(lexemes, pos, procs);
    lemma_body_ends_at_terminator(lexemes, pos, procs);
    if let Ok(Some(construct)) = next_construct(lexemes, pos) {
        lemma_construct_in_range(construct, lexemes, pos, procs);
        let next = parse_construct(construct, lexemes, pos, procs)->Ok_0.1;
        lemma_construct_read(construct, lexemes, pos, procs);
        lemma_body_read(lexemes, next, procs);
        let first = syntax_at(construct, lexemes, pos, procs);
        let rest = body_at(lexemes, next, procs);
        assert(body == seq![first] + rest);
        assert(body[0] == first);
        assert(body.skip(1) == rest);
        assert(written_all(body) == written(first) + written_all(rest));
        assert(lexemes.subrange(pos, next) + lexemes.subrange(next, end) == lexemes.subrange(
            pos,
            end,
        ));
        if rest.len() > 0 {
            assert(body[1] == rest[0]);
            if first is Instructions {
                lemma_scanned_run(lexemes, pos);
            }
        }
        assert(well_formed_body(body, procs));
        lemma_parse_written_body(body, lexemes, pos, procs);
    } else {
        assert(lexemes.subrange(pos, pos) == Seq::<Seq<char>>::empty());
    }
}

/// What was read as a construct is a well-formed construct, written as it
/// stands in the source.
pub proof fn lemma_construct_read(
    construct: Construct,
    lexemes: Seq<Seq<char>>,
    pos: int,
    procs: Map<Seq<char>, Block>,
)
    requires
        0 <= pos <= lexemes.len(),
        next_construct(lexemes, pos) == Ok::<Option<Construct>, ErrorModel>(Some(construct)),
        parse_construct(construct, lexemes, pos, procs) is Ok,
    ensures
        well_formed(syntax_at(construct, lexemes, pos, procs), procs),
        written(syntax_at(construct, lexemes, pos, procs)) == lexemes.subrange(
            pos,
            parse_construct(construct, lexemes, pos, procs)->Ok_0.1,
        ),
        syntax_at(construct, lexemes, pos, procs) is Instructions <==> construct is Span,
    decreases lexemes.len() - pos, 1int,
{
    lemma_lexeme_of_parts(lexemes[pos]);
    let token = token_parts(lexemes[pos]);
    match construct {
        Construct::Span => {
            lemma_scanned_run(lexemes, pos);
            lemma_span_in_range(lexemes, pos);
        },
        Construct::IfElse => {
            assert(token =~= seq!["if"@, "true"@]);
            lemma_if_else_read(lexemes, pos, procs);
        },
        Construct::While => {
            assert(token =~= seq!["while"@, "true"@]);
            lemma_loop_read(construct, lexemes, pos, procs);
        },
        Construct::Repeat(_) => {
            assert(token =~= seq!["repeat"@, token[1]]);
            lemma_loop_read(construct, lexemes, pos, procs);
        },
        Construct::Exec(label) => {
            assert(token =~= seq!["exec"@, label]);
            assert(lexemes.subrange(pos, pos + 1) =~= seq![lexemes[pos]]);
        },
    }
}

proof fn lemma_loop_read(
    construct: Construct,
    lexemes: Seq<Seq<char>>,
    pos: int,
    procs: Map<Seq<char>, Block>,
)
    requires
        0 <= pos < lexemes.len(),
        construct is While || construct is Repeat,
        parse_construct(construct, lexemes, pos, procs) is Ok,
    ensures
        well_formed_body(body_at(lexemes, pos + 1, procs), procs),
        seq![lexemes[pos]] + written_all(body_at(lexemes, pos + 1, procs)) + seq!["end"@]
            == lexemes.subrange(pos, parse_construct(construct, lexemes, pos, procs)->Ok_0.1),
    decreases lexemes.len() - pos, 0int,
{
    let last = parse_body(lexemes, pos + 1, procs)->Ok_0.1;
    lemma_body_read(lexemes, pos + 1, procs);
    lemma_bare_keyword(lexemes, last, "end"@);
    lemma_three_pieces(lexemes, pos, last);
}

/// Where an `if` was read: the position of its `else` or `end`, whether it
/// has an `else`, and the position of the `end` behind the `else`.
proof fn lemma_if_else_positions(lexemes: Seq<Seq<char>>, pos: int, procs: Map<Seq<char>, Block>)
    requires
        0 <= pos < lexemes.len(),
        parse_construct(Construct::IfElse, lexemes, pos, procs) is Ok,
    ensures
        ({
            let middle = parse_body(lexemes, pos + 1, procs)->Ok_0.1;
            let last = parse_body(lexemes, middle + 1, procs)->Ok_0.1;
            let end = parse_construct(Construct::IfElse, lexemes, pos, procs)->Ok_0.1;
            &&& parse_siblings(lexemes, pos + 1, procs) is Ok
            &&& parse_siblings(lexemes, pos + 1, procs)->Ok_0.1 == middle
            &&& pos < middle < lexemes.len()
            &&& if token_parts(lexemes[middle])[0] == "else"@ {
                &&& lexemes[middle] == "else"@
                &&& parse_siblings(lexemes, middle + 1, procs) is Ok
                &&& parse_siblings(lexemes, middle + 1, procs)->Ok_0.1 == last
                &&& middle < last < lexemes.len()
                &&& lexemes[last] == "end"@
                &&& end == last + 1
            } else {
                &&& lexemes[middle] == "end"@
                &&& end == middle + 1
            }
        }),
{
    let middle = parse_body(lexemes, pos + 1, procs)->Ok_0.1;
    lemma_body_in_range(lexemes, pos + 1, procs);
    if token_parts(lexemes[middle])[0] == "else"@ {
        let last = parse_body(lexemes, middle + 1, procs)->Ok_0.1;
        lemma_body_in_range(lexemes, middle + 1, procs);
        lemma_bare_keyword(lexemes, middle, "else"@);
        lemma_bare_keyword(lexemes, last, "end"@);
    } else {
        lemma_bare_keyword(lexemes, middle, "end"@);
    }
}

proof fn lemma_if_else_read(lexemes: Seq<Seq<char>>, pos: int, procs: Map<Seq<char>, Block>)
    requires
        0 <= pos < lexemes.len(),
        lexemes[pos] == with_parameter("if"@, "true"@),
        parse_construct(Construct::IfElse, lexemes, pos, procs) is Ok,
    ensures
        well_formed(syntax_at(Construct::IfElse, lexemes, pos, procs), procs),
        written(syntax_at(Construct::IfElse, lexemes, pos, procs)) == lexemes.subrange(
            pos,
            parse_construct(Construct::IfElse, lexemes, pos, procs)->Ok_0.1,
        ),
        !(syntax_at(Construct::IfElse, lexemes, pos, procs) is Instructions),
    decreases lexemes.len() - pos, 0int,
{
    let middle = parse_body(lexemes, pos + 1, procs)->Ok_0.1;
    let end = parse_construct(Construct::IfElse, lexemes, pos, procs)->Ok_0.1;
    let syntax = syntax_at(Construct::IfElse, lexemes, pos, procs);
    lemma_if_else_positions(lexemes, pos, procs);
    lemma_body_read(lexemes, pos + 1, procs);
    let first = body_at(lexemes, pos + 1, procs);
    if token_parts(lexemes[middle])[0] == "else"@ {
        let last = parse_body(lexemes, middle + 1, procs)->Ok_0.1;
        lemma_body_read(lexemes, middle + 1, procs);
        let second = body_at(lexemes, middle + 1, procs);
        assert(syntax == Syntax::IfElse(first, second));
        lemma_five_pieces(lexemes, pos, middle, last);
    } else {
        assert(syntax == Syntax::If(first));
        lemma_three_pieces(lexemes, pos, middle);
    }
}

/// A stretch of the source is its first lexeme, what stands between, and
/// its last lexeme.
proof fn lemma_three_pieces(lexemes: Seq<Seq<char>>, pos: int, last: int)
    requires
        0 <= pos < last < lexemes.len(),
    ensures
        seq![lexemes[pos]] + lexemes.subrange(pos + 1, last) + seq![lexemes[last]]
            == lexemes.subrange(pos, last + 1),
{
    assert(seq![lexemes[pos]] + lexemes.subrange(pos + 1, last) + seq![lexemes[last]]
        =~= lexemes.subrange(pos, last + 1));
}

proof fn lemma_five_pieces(lexemes: Seq<Seq<char>>, pos: int, middle: int, last: int)
    requires
        0 <= pos < middle < last < lexemes.len(),
    ensures
        seq![lexemes[pos]] + lexemes.subrange(pos + 1, middle) + seq![lexemes[middle]]
            + lexemes.subrange(middle + 1, last) + seq![lexemes[last]] == lexemes.subrange(
            pos,
            last + 1,
        ),
{
    assert(seq![lexemes[pos]] + lexemes.subrange(pos + 1, middle) + seq![lexemes[middle]]
        + lexemes.subrange(middle + 1, last) + seq![lexemes[last]] =~= lexemes.subrange(
        pos,
        last + 1,
    ));
}

/// The procedure that was read at `pos`, where the parser succeeded there.
pub open spec fn procedure_read(
    lexemes: Seq<Seq<char>>,
    pos: int,
    procs: Map<Seq<char>, Block>,
) -> ProcedureSyntax {
    ProcedureSyntax {
        label: token_parts(lexemes[pos])[1],
        body: body_at(lexemes, pos + 1, procs),
    }
}

/// The procedures that were read from `pos` on.
pub open spec fn procedures_read(
    lexemes: Seq<Seq<char>>,
    pos: int,
    procs: Map<Seq<char>, Block>,
) -> Seq<ProcedureSyntax>
    decreases lexemes.len() - pos,
{
    if at_procedure(lexemes, pos) {
        match procedure_at(lexemes, pos, procs) {
            Ok((declared, next)) => if next <= pos || next > lexemes.len() {
                seq![procedure_read(lexemes, pos, procs)]
            } else {
                seq![procedure_read(lexemes, pos, procs)] + procedures_read(
                    lexemes,
                    next,
                    declared,
                )
            },
            Err(_) => Seq::empty(),
        }
    } else {
        Seq::empty()
    }
}

/// The script that was read, where the compiler succeeded.
pub open spec fn script_read(lexemes: Seq<Seq<char>>) -> ScriptSyntax {
    let (procs, begin) = procedures_from(lexemes, 0, Map::empty())->Ok_0;
    ScriptSyntax {
        procedures: procedures_read(lexemes, 0, Map::empty()),
        body: body_at(lexemes, begin + 1, procs),
    }
}

/// What was read as a procedure is a well-formed procedure, written as it
/// stands in the source, and it is declared with what its body means.
pub proof fn lemma_procedure_read(lexemes: Seq<Seq<char>>, pos: int, procs: Map<Seq<char>, Block>)
    requires
        at_procedure(lexemes, pos),
        procedure_at(lexemes, pos, procs) is Ok,
    ensures
        ({
            let procedure = procedure_read(lexemes, pos, procs);
            let (declared, next) = procedure_at(lexemes, pos, procs)->Ok_0;
            &&& dotless(procedure.label)
            &&& !procs.contains_key(procedure.label)
            &&& well_formed_body(procedure.body, procs)
            &&& pos < next <= lexemes.len()
            &&& written_procedure(procedure) == lexemes.subrange(pos, next)
            &&& declared == procs.insert(procedure.label, meaning_of_body(procedure.body, procs))
        }),
{
    let token = token_parts(lexemes[pos]);
    let last = parse_body(lexemes, pos + 1, procs)->Ok_0.1;
    lemma_lexeme_of_parts(lexemes[pos]);
    assert(token =~= seq!["proc"@, token[1]]);
    lemma_body_read(lexemes, pos + 1, procs);
    lemma_bare_keyword(lexemes, last, "end"@);
    lemma_three_pieces(lexemes, pos, last);
}

/// What was read as procedures are well-formed procedures, written as they
/// stand in the source, and they declare the namespace that the parser gave.
pub proof fn lemma_procedures_read(
    lexemes: Seq<Seq<char>>,
    pos: int,
    procs: Map<Seq<char>, Block>,
)
    requires
        0 <= pos <= lexemes.len(),
        procedures_from(lexemes, pos, procs) is Ok,
    ensures
        ({
            let procedures = procedures_read(lexemes, pos, procs);
            let (declared_procs, end) = procedures_from(lexemes, pos, procs)->Ok_0;
            &&& well_formed_procedures(procedures, procs)
            &&& pos <= end <= lexemes.len()
            &&& written_procedures(procedures) == lexemes.subrange(pos, end)
            &&& declared(procedures, procs) == declared_procs
            &&& !at_procedure(lexemes, end)
        }),
    decreases lexemes.len() - pos,
{
    if at_procedure(lexemes, pos) {
        lemma_procedure_read(lexemes, pos, procs);
        let (after, next) = procedure_at(lexemes, pos, procs)->Ok_0;
        lemma_procedures_read(lexemes, next, after);
        let end = procedures_from(lexemes, pos, procs)->Ok_0.1;
        let first = procedure_read(lexemes, pos, procs);
        let rest = procedures_read(lexemes, next, after);
        let procedures = procedures_read(lexemes, pos, procs);
        assert(procedures == seq![first] + rest);
        assert(procedures[0] == first);
        assert(procedures.skip(1) == rest);
        assert(lexemes.subrange(pos, next) + lexemes.subrange(next, end) == lexemes.subrange(
            pos,
            end,
        ));
    } else {
        assert(lexemes.subrange(pos, pos) == Seq::<Seq<char>>::empty());
    }
}

/// Tokens that compile are those of a well-formed script, and they compile
/// to what that script means.
pub proof fn lemma_compiled_tokens_are_well_formed(lexemes: Seq<Seq<char>>)
    requires
        compiled_tokens(lexemes) is Ok,
    ensures
        well_formed_script(script_read(lexemes)),
        written_script(script_read(lexemes)) == lexemes,
        meaning_of_script(script_read(lexemes)) == compiled_tokens(lexemes)->Ok_0,
{
    let (procs, begin) = procedures_from(lexemes, 0, Map::empty())->Ok_0;
    let script = script_read(lexemes);
    lemma_procedures_read(lexemes, 0, Map::empty());
    let last = parse_body(lexemes, begin + 1, procs)->Ok_0.1;
    lemma_body_read(lexemes, begin + 1, procs);
    lemma_bare_keyword(lexemes, begin, "begin"@);
    lemma_bare_keyword(lexemes, last, "end"@);
    lemma_three_pieces(lexemes, begin, last);
    assert(lexemes.subrange(0, begin) + lexemes.subrange(begin, last + 1) =~= lexemes);
    assert(written_script(script) == lexemes.subrange(0, begin) + (seq![lexemes[begin]]
        + lexemes.subrange(begin + 1, last) + seq![lexemes[last]]));
}

/// A source compiles if and only if its lexemes are those of a well-formed
/// script. It then compiles to what the script means.
pub proof fn lemma_compiles_iff_well_formed(source: Seq<char>)
    ensures
        compiled(source) is Ok <==> exists|script: ScriptSyntax|
            well_formed_script(script) && lexemes(source) == #[trigger] written_script(script),
        forall|script: ScriptSyntax|
            well_formed_script(script) && lexemes(source) == #[trigger] written_script(script)
                ==> compiled(source) == Ok::<Block, ErrorModel>(meaning_of_script(script)),
{
    if compiled(source) is Ok {
        lemma_compiled_tokens_are_well_formed(lexemes(source));
        assert(lexemes(source) == written_script(script_read(lexemes(source))));
    }
    assert forall|script: ScriptSyntax|
        well_formed_script(script) && lexemes(source) == #[trigger] written_script(
            script,
        ) implies compiled(source) == Ok::<Block, ErrorModel>(meaning_of_script(script)) by {
        lemma_well_formed_source_compiles(source, script);
    }
}

} // verus!
