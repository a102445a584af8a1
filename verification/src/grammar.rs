use crate::blocks::Block;
use crate::combiner::combine;
use crate::compiler::{
    at_procedure, compiled, compiled_tokens, procedure_at, procedures_from, script_at,
};
use crate::errors::ErrorModel;
use crate::numbers::{bounded_numeral, is_digit, unsigned_part};
use crate::operations::{translate, Operation};
use crate::parsing::{
    is_control, next_construct, parse_body, parse_construct, parse_siblings, scan_span, unroll,
    Construct,
};
use crate::token_stream::{lexemes, token_at, token_parts};
use vstd::prelude::*;

verus! {

/// One construct of a body, as the grammar of the language has it.
pub enum Syntax {
    /// A run of instructions, each given by its lexeme.
    Instructions(Seq<Seq<char>>),
    /// `if.true`, a body, `else`, a body, `end`.
    IfElse(Seq<Syntax>, Seq<Syntax>),
    /// `if.true`, a body, `end`.
    If(Seq<Syntax>),
    /// `while.true`, a body, `end`.
    While(Seq<Syntax>),
    /// `repeat.<count>`, a body, `end`. The count is given as it is written.
    Repeat(Seq<char>, Seq<Syntax>),
    /// `exec.<label>`.
    Exec(Seq<char>),
}

/// The lexeme of a keyword with one parameter.
pub open spec fn with_parameter(keyword: Seq<char>, parameter: Seq<char>) -> Seq<char> {
    keyword.push('.') + parameter
}

/// The lexemes that a construct is written with.
pub open spec fn written(syntax: Syntax) -> Seq<Seq<char>>
    decreases syntax,
{
    match syntax {
        Syntax::Instructions(lexemes) => lexemes,
        Syntax::IfElse(on_true, on_false) => seq![with_parameter("if"@, "true"@)] + written_all(
            on_true,
        ) + seq!["else"@] + written_all(on_false) + seq!["end"@],
        Syntax::If(on_true) => seq![with_parameter("if"@, "true"@)] + written_all(on_true) + seq![
            "end"@,
        ],
        Syntax::While(body) => seq![with_parameter("while"@, "true"@)] + written_all(body) + seq![
            "end"@,
        ],
        Syntax::Repeat(count, body) => seq![with_parameter("repeat"@, count)] + written_all(body)
            + seq!["end"@],
        Syntax::Exec(label) => seq![with_parameter("exec"@, label)],
    }
}

/// The lexemes that a body is written with: those of its constructs, one
/// construct after the other.
pub open spec fn written_all(body: Seq<Syntax>) -> Seq<Seq<char>>
    decreases body,
{
    if body.len() == 0 {
        Seq::empty()
    } else {
        written(body[0]) + written_all(body.skip(1))
    }
}

/// Whether a text holds no dot.
pub open spec fn dotless(text: Seq<char>) -> bool {
    forall|i: int| 0 <= i < text.len() ==> #[trigger] text[i] != '.'
}

/// Whether a lexeme is an instruction that the translator accepts.
pub open spec fn is_instruction(lexeme: Seq<char>) -> bool {
    !is_control(token_parts(lexeme)) && translate(token_parts(lexeme), 0) is Ok
}

/// Whether a construct is well formed where the procedures `procs` are
/// declared: its instructions are instructions, a run of them is not empty,
/// the count of a `repeat` is a numeral that fits 32 bits, and an `exec`
/// names a declared procedure.
pub open spec fn well_formed(syntax: Syntax, procs: Map<Seq<char>, Block>) -> bool
    decreases syntax,
{
    match syntax {
        Syntax::Instructions(lexemes) => lexemes.len() >= 1 && forall|i: int|
            0 <= i < lexemes.len() ==> is_instruction(#[trigger] lexemes[i]),
        Syntax::IfElse(on_true, on_false) => well_formed_body(on_true, procs) && well_formed_body(
            on_false,
            procs,
        ),
        Syntax::If(on_true) => well_formed_body(on_true, procs),
        Syntax::While(body) => well_formed_body(body, procs),
        Syntax::Repeat(count, body) => bounded_numeral(count, u32::MAX as nat) is Some
            && well_formed_body(body, procs),
        Syntax::Exec(label) => dotless(label) && procs.contains_key(label),
    }
}

/// Whether a body is well formed: its constructs are, and its instructions
/// are gathered in runs, so that no run follows another.
pub open spec fn well_formed_body(body: Seq<Syntax>, procs: Map<Seq<char>, Block>) -> bool
    decreases body,
{
    if body.len() == 0 {
        true
    } else {
        &&& well_formed(body[0], procs)
        &&& well_formed_body(body.skip(1), procs)
        &&& body.len() >= 2 ==> !(body[0] is Instructions && body[1] is Instructions)
    }
}

/// The operations that a run of instructions stands for.
pub open spec fn operations_of(lexemes: Seq<Seq<char>>) -> Seq<Operation>
    decreases lexemes.len(),
{
    if lexemes.len() == 0 {
        Seq::empty()
    } else {
        translate(token_parts(lexemes[0]), 0)->Ok_0 + operations_of(lexemes.skip(1))
    }
}

/// The block that a construct means.
pub open spec fn meaning(syntax: Syntax, procs: Map<Seq<char>, Block>) -> Block
    decreases syntax,
{
    match syntax {
        Syntax::Instructions(lexemes) => Block::Span(operations_of(lexemes)),
        Syntax::IfElse(on_true, on_false) => Block::split(
            meaning_of_body(on_true, procs),
            meaning_of_body(on_false, procs),
        ),
        Syntax::If(on_true) => Block::split(meaning_of_body(on_true, procs), Block::noop_span()),
        Syntax::While(body) => Block::repeat_while(meaning_of_body(body, procs)),
        Syntax::Repeat(count, body) => unroll(
            meaning_of_body(body, procs),
            bounded_numeral(count, u32::MAX as nat)->Some_0,
        ),
        Syntax::Exec(label) => procs[label],
    }
}

/// The blocks that the constructs of a body mean, in their order.
pub open spec fn meanings(body: Seq<Syntax>, procs: Map<Seq<char>, Block>) -> Seq<Block>
    decreases body, 0int,
{
    if body.len() == 0 {
        Seq::empty()
    } else {
        seq![meaning(body[0], procs)] + meanings(body.skip(1), procs)
    }
}

/// The block that a body means: its constructs, combined.
pub open spec fn meaning_of_body(body: Seq<Syntax>, procs: Map<Seq<char>, Block>) -> Block
    decreases body, 1int,
{
    combine(meanings(body, procs))
}

// HOW THE TOKENS OF A CONSTRUCT ARE READ
// ================================================================================================
/// A lexeme without a dot has one part, itself.
pub proof fn lemma_parts_of_dotless(text: Seq<char>)
    requires
        dotless(text),
    ensures
        token_parts(text) == seq![text],
    decreases text.len(),
{
    if text.len() == 0 {
        assert(text == Seq::<char>::empty());
    } else {
        let shorter = text.drop_last();
        lemma_parts_of_dotless(shorter);
        assert(text[text.len() - 1] != '.');
        assert(shorter.push(text.last()) == text);
        assert(seq![shorter].drop_last().push(text) =~= seq![text]);
    }
}

/// A keyword and a parameter, both without a dot, are the two parts of the
/// lexeme that they are written as.
pub proof fn lemma_parts_with_parameter(keyword: Seq<char>, parameter: Seq<char>)
    requires
        dotless(keyword),
        dotless(parameter),
    ensures
        token_parts(with_parameter(keyword, parameter)) == seq![keyword, parameter],
    decreases parameter.len(),
{
    let lexeme = with_parameter(keyword, parameter);
    if parameter.len() == 0 {
        lemma_parts_of_dotless(keyword);
        assert(lexeme.drop_last() == keyword);
        assert(parameter == Seq::<char>::empty());
        assert(seq![keyword].push(parameter) =~= seq![keyword, parameter]);
    } else {
        let shorter = parameter.drop_last();
        lemma_parts_with_parameter(keyword, shorter);
        assert(parameter[parameter.len() - 1] != '.');
        assert(lexeme.drop_last() == with_parameter(keyword, shorter));
        assert(lexeme.last() == parameter.last());
        assert(shorter.push(parameter.last()) == parameter);
        assert(seq![keyword, shorter].drop_last().push(parameter) =~= seq![keyword, parameter]);
    }
}

/// The keywords hold no dot, and no two of them are the same.
pub proof fn lemma_keywords()
    ensures
        dotless("if"@),
        dotless("else"@),
        dotless("while"@),
        dotless("repeat"@),
        dotless("exec"@),
        dotless("end"@),
        dotless("begin"@),
        dotless("proc"@),
        dotless("true"@),
        "if"@.len() == 2,
        "else"@.len() == 4 && "else"@[1] == 'l',
        "while"@.len() == 5 && "while"@[0] == 'w',
        "repeat"@.len() == 6,
        "exec"@.len() == 4 && "exec"@[1] == 'x',
        "end"@.len() == 3,
        "begin"@.len() == 5 && "begin"@[0] == 'b',
        "proc"@.len() == 4 && "proc"@[1] == 'r',
{
    reveal_strlit("if");
    reveal_strlit("else");
    reveal_strlit("while");
    reveal_strlit("repeat");
    reveal_strlit("exec");
    reveal_strlit("end");
    reveal_strlit("begin");
    reveal_strlit("proc");
    reveal_strlit("true");
}

/// A numeral holds no dot.
pub proof fn lemma_numeral_is_dotless(text: Seq<char>, max: nat)
    requires
        bounded_numeral(text, max) is Some,
    ensures
        dotless(text),
{
    let digits = unsigned_part(text);
    assert forall|i: int| 0 <= i < text.len() implies #[trigger] text[i] != '.' by {
        if digits == text {
            assert(is_digit(digits[i]));
        } else if i > 0 {
            assert(text[i] == digits[i - 1]);
            assert(is_digit(digits[i - 1]));
        }
    }
}

/// Whether an instruction is accepted, and what it stands for, does not
/// depend on where it stands.
pub proof fn lemma_translate_anywhere(token: Seq<Seq<char>>, first: int, second: int)
    ensures
        translate(token, first) is Ok == translate(token, second) is Ok,
        translate(token, first) is Ok ==> translate(token, first)->Ok_0 == translate(
            token,
            second,
        )->Ok_0,
{
}

/// Whether a run of instructions ends at `pos`: there the source ends or a
/// control token stands.
pub open spec fn ends_run(lexemes: Seq<Seq<char>>, pos: int) -> bool {
    token_at(lexemes, pos) matches Some(token) ==> is_control(token)
}

/// A run of instructions is read as one span.
pub proof fn lemma_scan_run(lexemes: Seq<Seq<char>>, pos: int, run: Seq<Seq<char>>)
    requires
        0 <= pos,
        pos + run.len() <= lexemes.len(),
        lexemes.subrange(pos, pos + run.len()) == run,
        forall|i: int| 0 <= i < run.len() ==> is_instruction(#[trigger] run[i]),
        ends_run(lexemes, pos + run.len()),
    ensures
        scan_span(lexemes, pos) == Ok::<(Seq<Operation>, int), ErrorModel>(
            (operations_of(run), pos + run.len()),
        ),
    decreases run.len(),
{
    if run.len() > 0 {
        let rest = run.skip(1);
        assert(lexemes[pos] == run[0]);
        assert(is_instruction(run[0]));
        assert(lexemes.subrange(pos + 1, pos + 1 + rest.len()) == rest);
        assert forall|i: int| 0 <= i < rest.len() implies is_instruction(#[trigger] rest[i]) by {
            assert(rest[i] == run[i + 1]);
        }
        lemma_scan_run(lexemes, pos + 1, rest);
        lemma_translate_anywhere(token_parts(run[0]), 0, pos);
    }
}

// WHAT A WELL-FORMED BODY COMPILES TO
// ================================================================================================
/// The construct that the dispatcher is to find where `syntax` is written.
pub open spec fn construct_of(syntax: Syntax) -> Construct {
    match syntax {
        Syntax::Instructions(_) => Construct::Span,
        Syntax::IfElse(_, _) => Construct::IfElse,
        Syntax::If(_) => Construct::IfElse,
        Syntax::While(_) => Construct::While,
        Syntax::Repeat(count, _) => Construct::Repeat(
            bounded_numeral(count, u32::MAX as nat)->Some_0 as u32,
        ),
        Syntax::Exec(label) => Construct::Exec(label),
    }
}

/// Whether `piece` stands in `lexemes` from `pos` on.
pub open spec fn stands_at(lexemes: Seq<Seq<char>>, pos: int, piece: Seq<Seq<char>>) -> bool {
    &&& 0 <= pos
    &&& pos + piece.len() <= lexemes.len()
    &&& lexemes.subrange(pos, pos + piece.len()) == piece
}

/// A part of a piece that stands in the source stands there too.
proof fn lemma_part_stands(
    lexemes: Seq<Seq<char>>,
    pos: int,
    piece: Seq<Seq<char>>,
    offset: int,
    part: Seq<Seq<char>>,
)
    requires
        stands_at(lexemes, pos, piece),
        0 <= offset,
        offset + part.len() <= piece.len(),
        piece.subrange(offset, offset + part.len()) == part,
    ensures
        stands_at(lexemes, pos + offset, part),
{
    assert(lexemes.subrange(pos + offset, pos + offset + part.len()) =~= lexemes.subrange(
        pos,
        pos + piece.len(),
    ).subrange(offset, offset + part.len()));
}

/// A well-formed construct is written with one lexeme at least, and one
/// that is no run of instructions begins with a control token.
pub proof fn lemma_written_begins(syntax: Syntax, procs: Map<Seq<char>, Block>)
    requires
        well_formed(syntax, procs),
    ensures
        written(syntax).len() >= 1,
        !(syntax is Instructions) ==> is_control(token_parts(written(syntax)[0])),
{
    lemma_keywords();
    match syntax {
        Syntax::Instructions(_) => {},
        Syntax::IfElse(_, _) => {
            lemma_parts_with_parameter("if"@, "true"@);
        },
        Syntax::If(_) => {
            lemma_parts_with_parameter("if"@, "true"@);
        },
        Syntax::While(_) => {
            lemma_parts_with_parameter("while"@, "true"@);
        },
        Syntax::Repeat(count, _) => {
            lemma_numeral_is_dotless(count, u32::MAX as nat);
            lemma_parts_with_parameter("repeat"@, count);
        },
        Syntax::Exec(label) => {
            lemma_parts_with_parameter("exec"@, label);
        },
    }
}

/// A bare `else` or `end`, and the end of the source, end a body.
pub proof fn lemma_terminators(lexemes: Seq<Seq<char>>, pos: int)
    ensures
        token_at(lexemes, pos) is None ==> next_construct(lexemes, pos) == Ok::<
            Option<Construct>,
            ErrorModel,
        >(None),
        0 <= pos < lexemes.len() && (lexemes[pos] == "end"@ || lexemes[pos] == "else"@)
            ==> next_construct(lexemes, pos) == Ok::<Option<Construct>, ErrorModel>(None),
        next_construct(lexemes, pos) == Ok::<Option<Construct>, ErrorModel>(None) ==> ends_run(
            lexemes,
            pos,
        ),
{
    lemma_keywords();
    if 0 <= pos < lexemes.len() {
        if lexemes[pos] == "end"@ {
            lemma_parts_of_dotless("end"@);
        }
        if lexemes[pos] == "else"@ {
            lemma_parts_of_dotless("else"@);
        }
    }
}

/// A body between a keyword and a terminator: the keyword stands at `pos`,
/// the body behind it, and `closing` behind the body.
proof fn lemma_parse_enclosed_body(
    body: Seq<Syntax>,
    lexemes: Seq<Seq<char>>,
    pos: int,
    piece: Seq<Seq<char>>,
    offset: int,
    closing: Seq<char>,
    procs: Map<Seq<char>, Block>,
)
    requires
        well_formed_body(body, procs),
        stands_at(lexemes, pos, piece),
        0 <= offset,
        offset + written_all(body).len() < piece.len(),
        piece.subrange(offset, offset + written_all(body).len()) == written_all(body),
        piece[offset + written_all(body).len()] == closing,
        closing == "end"@ || closing == "else"@,
    ensures
        parse_body(lexemes, pos + offset, procs) == Ok::<(Block, int), ErrorModel>(
            (meaning_of_body(body, procs), pos + offset + written_all(body).len()),
        ),
        token_at(lexemes, pos + offset + written_all(body).len()) == Some(seq![closing]),
        "end"@ != "else"@,
    decreases body, 2int,
{
    let after = pos + offset + written_all(body).len();
    lemma_part_stands(lexemes, pos, piece, offset, written_all(body));
    assert(lexemes[after] == lexemes.subrange(pos, pos + piece.len())[after - pos]);
    lemma_keywords();
    lemma_parts_of_dotless(closing);
    lemma_terminators(lexemes, after);
    lemma_parse_written_body(body, lexemes, pos + offset, procs);
}

/// Where a well-formed construct is written, the dispatcher finds it.
pub proof fn lemma_dispatch_written(
    syntax: Syntax,
    lexemes: Seq<Seq<char>>,
    pos: int,
    procs: Map<Seq<char>, Block>,
)
    requires
        well_formed(syntax, procs),
        stands_at(lexemes, pos, written(syntax)),
    ensures
        0 <= pos < lexemes.len(),
        next_construct(lexemes, pos) == Ok::<Option<Construct>, ErrorModel>(
            Some(construct_of(syntax)),
        ),
{
    let piece = written(syntax);
    lemma_written_begins(syntax, procs);
    lemma_keywords();
    assert(lexemes[pos] == lexemes.subrange(pos, pos + piece.len())[0]);
    match syntax {
        Syntax::Instructions(run) => {
            assert(is_instruction(run[0]));
        },
        Syntax::IfElse(_, _) => {
            lemma_parts_with_parameter("if"@, "true"@);
        },
        Syntax::If(_) => {
            lemma_parts_with_parameter("if"@, "true"@);
        },
        Syntax::While(_) => {
            lemma_parts_with_parameter("while"@, "true"@);
        },
        Syntax::Repeat(count, _) => {
            lemma_numeral_is_dotless(count, u32::MAX as nat);
            lemma_parts_with_parameter("repeat"@, count);
        },
        Syntax::Exec(label) => {
            lemma_parts_with_parameter("exec"@, label);
        },
    }
}

proof fn lemma_parse_written_if_else(
    syntax: Syntax,
    lexemes: Seq<Seq<char>>,
    pos: int,
    procs: Map<Seq<char>, Block>,
)
    requires
        syntax is IfElse,
        well_formed(syntax, procs),
        stands_at(lexemes, pos, written(syntax)),
        0 <= pos < lexemes.len(),
    ensures
        parse_construct(Construct::IfElse, lexemes, pos, procs) == Ok::<(Block, int), ErrorModel>(
            (meaning(syntax, procs), pos + written(syntax).len()),
        ),
    decreases syntax, 0int,
{
    let piece = written(syntax);
    if let Syntax::IfElse(on_true, on_false) = syntax {
        let first = written_all(on_true);
        let second = written_all(on_false);
        let split = 2 + first.len() as int;
        assert(piece.subrange(1, split - 1) =~= first);
        assert(piece.subrange(split, split + second.len()) =~= second);
        lemma_parse_enclosed_body(on_true, lexemes, pos, piece, 1, "else"@, procs);
        lemma_parse_enclosed_body(on_false, lexemes, pos, piece, split, "end"@, procs);
    }
}

proof fn lemma_parse_written_if(
    syntax: Syntax,
    lexemes: Seq<Seq<char>>,
    pos: int,
    procs: Map<Seq<char>, Block>,
)
    requires
        syntax is If,
        well_formed(syntax, procs),
        stands_at(lexemes, pos, written(syntax)),
        0 <= pos < lexemes.len(),
    ensures
        parse_construct(Construct::IfElse, lexemes, pos, procs) == Ok::<(Block, int), ErrorModel>(
            (meaning(syntax, procs), pos + written(syntax).len()),
        ),
    decreases syntax, 0int,
{
    let piece = written(syntax);
    if let Syntax::If(on_true) = syntax {
        assert(piece.subrange(1, piece.len() - 1) =~= written_all(on_true));
        lemma_parse_enclosed_body(on_true, lexemes, pos, piece, 1, "end"@, procs);
    }
}

proof fn lemma_parse_written_while(
    syntax: Syntax,
    lexemes: Seq<Seq<char>>,
    pos: int,
    procs: Map<Seq<char>, Block>,
)
    requires
        syntax is While,
        well_formed(syntax, procs),
        stands_at(lexemes, pos, written(syntax)),
        0 <= pos < lexemes.len(),
    ensures
        parse_construct(Construct::While, lexemes, pos, procs) == Ok::<(Block, int), ErrorModel>(
            (meaning(syntax, procs), pos + written(syntax).len()),
        ),
    decreases syntax, 0int,
{
    let piece = written(syntax);
    if let Syntax::While(body) = syntax {
        assert(piece.subrange(1, piece.len() - 1) =~= written_all(body));
        lemma_parse_enclosed_body(body, lexemes, pos, piece, 1, "end"@, procs);
    }
}

proof fn lemma_parse_written_repeat(
    syntax: Syntax,
    lexemes: Seq<Seq<char>>,
    pos: int,
    procs: Map<Seq<char>, Block>,
)
    requires
        syntax is Repeat,
        well_formed(syntax, procs),
        stands_at(lexemes, pos, written(syntax)),
        0 <= pos < lexemes.len(),
    ensures
        parse_construct(construct_of(syntax), lexemes, pos, procs) == Ok::<
            (Block, int),
            ErrorModel,
        >((meaning(syntax, procs), pos + written(syntax).len())),
    decreases syntax, 0int,
{
    let piece = written(syntax);
    if let Syntax::Repeat(count, body) = syntax {
        assert(piece.subrange(1, piece.len() - 1) =~= written_all(body));
        lemma_parse_enclosed_body(body, lexemes, pos, piece, 1, "end"@, procs);
    }
}

/// Where a well-formed construct is written, the dispatcher finds it and
/// its parser gives what the construct means, and ends behind it. A run of
/// instructions must be a whole run: no further instruction follows it.
pub proof fn lemma_parse_written(
    syntax: Syntax,
    lexemes: Seq<Seq<char>>,
    pos: int,
    procs: Map<Seq<char>, Block>,
)
    requires
        well_formed(syntax, procs),
        stands_at(lexemes, pos, written(syntax)),
        syntax is Instructions ==> ends_run(lexemes, pos + written(syntax).len()),
    ensures
        next_construct(lexemes, pos) == Ok::<Option<Construct>, ErrorModel>(
            Some(construct_of(syntax)),
        ),
        parse_construct(construct_of(syntax), lexemes, pos, procs) == Ok::<
            (Block, int),
            ErrorModel,
        >((meaning(syntax, procs), pos + written(syntax).len())),
    decreases syntax, 1int,
{
    lemma_dispatch_written(syntax, lexemes, pos, procs);
    match syntax {
        Syntax::Instructions(run) => {
            lemma_scan_run(lexemes, pos, run);
        },
        Syntax::IfElse(_, _) => {
            lemma_parse_written_if_else(syntax, lexemes, pos, procs);
        },
        Syntax::If(_) => {
            lemma_parse_written_if(syntax, lexemes, pos, procs);
        },
        Syntax::While(_) => {
            lemma_parse_written_while(syntax, lexemes, pos, procs);
        },
        Syntax::Repeat(_, _) => {
            lemma_parse_written_repeat(syntax, lexemes, pos, procs);
        },
        Syntax::Exec(_) => {},
    }
}

/// Where a well-formed body is written, with a token behind it that ends a
/// body, the constructs that are parsed are those of the body.
pub proof fn lemma_parse_written_body(
    body: Seq<Syntax>,
    lexemes: Seq<Seq<char>>,
    pos: int,
    procs: Map<Seq<char>, Block>,
)
    requires
        well_formed_body(body, procs),
        stands_at(lexemes, pos, written_all(body)),
        next_construct(lexemes, pos + written_all(body).len()) == Ok::<
            Option<Construct>,
            ErrorModel,
        >(None),
    ensures
        parse_siblings(lexemes, pos, procs) == Ok::<(Seq<Block>, int), ErrorModel>(
            (meanings(body, procs), pos + written_all(body).len()),
        ),
        parse_body(lexemes, pos, procs) == Ok::<(Block, int), ErrorModel>(
            (meaning_of_body(body, procs), pos + written_all(body).len()),
        ),
    decreases body, 1int,
{
    reveal_with_fuel(well_formed_body, 2);
    if body.len() > 0 {
        let first = written(body[0]);
        let rest = written_all(body.skip(1));
        let whole = written_all(body);
        lemma_written_begins(body[0], procs);
        assert(whole.subrange(0, first.len() as int) =~= first);
        assert(whole.subrange(first.len() as int, whole.len() as int) =~= rest);
        lemma_part_stands(lexemes, pos, whole, 0, first);
        lemma_part_stands(lexemes, pos, whole, first.len() as int, rest);
        let next = pos + first.len();
        if body[0] is Instructions {
            if body.len() >= 2 {
                assert(body.skip(1)[0] == body[1]);
                assert(well_formed(body.skip(1)[0], procs));
                lemma_written_begins(body[1], procs);
                assert(lexemes[next] == rest[0]);
                assert(rest[0] == written(body[1])[0]);
            } else {
                assert(body.skip(1).len() == 0);
                lemma_terminators(lexemes, next);
            }
        }
        lemma_parse_written(body[0], lexemes, pos, procs);
        lemma_parse_written_body(body.skip(1), lexemes, next, procs);
    }
}

// WHAT A WELL-FORMED SCRIPT COMPILES TO
// ================================================================================================
/// A procedure, as the grammar has it: `proc.<label>`, a body, `end`.
pub struct ProcedureSyntax {
    pub label: Seq<char>,
    pub body: Seq<Syntax>,
}

/// A script, as the grammar has it: procedures, then `begin`, a body, `end`.
pub struct ScriptSyntax {
    pub procedures: Seq<ProcedureSyntax>,
    pub body: Seq<Syntax>,
}

/// The lexemes that a procedure is written with.
pub open spec fn written_procedure(procedure: ProcedureSyntax) -> Seq<Seq<char>> {
    seq![with_parameter("proc"@, procedure.label)] + written_all(procedure.body) + seq!["end"@]
}

/// The lexemes that procedures are written with, one procedure after the other.
pub open spec fn written_procedures(procedures: Seq<ProcedureSyntax>) -> Seq<Seq<char>>
    decreases procedures.len(),
{
    if procedures.len() == 0 {
        Seq::empty()
    } else {
        written_procedure(procedures[0]) + written_procedures(procedures.skip(1))
    }
}

/// The lexemes that a script is written with.
pub open spec fn written_script(script: ScriptSyntax) -> Seq<Seq<char>> {
    written_procedures(script.procedures) + seq!["begin"@] + written_all(script.body) + seq![
        "end"@,
    ]
}

/// The namespace after the procedures, each of which sees those before it.
pub open spec fn declared(
    procedures: Seq<ProcedureSyntax>,
    procs: Map<Seq<char>, Block>,
) -> Map<Seq<char>, Block>
    decreases procedures.len(),
{
    if procedures.len() == 0 {
        procs
    } else {
        declared(
            procedures.skip(1),
            procs.insert(procedures[0].label, meaning_of_body(procedures[0].body, procs)),
        )
    }
}

/// Whether procedures are well formed behind the procedures `procs`: each
/// has a label without a dot that none before it has, and a body that is
/// well formed where the procedures before it are declared.
pub open spec fn well_formed_procedures(
    procedures: Seq<ProcedureSyntax>,
    procs: Map<Seq<char>, Block>,
) -> bool
    decreases procedures.len(),
{
    if procedures.len() == 0 {
        true
    } else {
        &&& dotless(procedures[0].label)
        &&& !procs.contains_key(procedures[0].label)
        &&& well_formed_body(procedures[0].body, procs)
        &&& well_formed_procedures(
            procedures.skip(1),
            procs.insert(procedures[0].label, meaning_of_body(procedures[0].body, procs)),
        )
    }
}

/// Whether a script is well formed.
pub open spec fn well_formed_script(script: ScriptSyntax) -> bool {
    &&& well_formed_procedures(script.procedures, Map::empty())
    &&& well_formed_body(script.body, declared(script.procedures, Map::empty()))
}

/// The block tree that a script means.
pub open spec fn meaning_of_script(script: ScriptSyntax) -> Block {
    meaning_of_body(script.body, declared(script.procedures, Map::empty()))
}

/// Where a well-formed procedure is written, it is declared with what its
/// body means.
pub proof fn lemma_procedure_written(
    procedure: ProcedureSyntax,
    lexemes: Seq<Seq<char>>,
    pos: int,
    procs: Map<Seq<char>, Block>,
)
    requires
        dotless(procedure.label),
        !procs.contains_key(procedure.label),
        well_formed_body(procedure.body, procs),
        stands_at(lexemes, pos, written_procedure(procedure)),
    ensures
        at_procedure(lexemes, pos),
        procedure_at(lexemes, pos, procs) == Ok::<(Map<Seq<char>, Block>, int), ErrorModel>(
            (
                procs.insert(procedure.label, meaning_of_body(procedure.body, procs)),
                pos + written_procedure(procedure).len(),
            ),
        ),
{
    let piece = written_procedure(procedure);
    lemma_keywords();
    lemma_parts_with_parameter("proc"@, procedure.label);
    assert(lexemes[pos] == lexemes.subrange(pos, pos + piece.len())[0]);
    assert(piece.subrange(1, piece.len() - 1) =~= written_all(procedure.body));
    lemma_parse_enclosed_body(procedure.body, lexemes, pos, piece, 1, "end"@, procs);
}

/// Where well-formed procedures are written, and no procedure follows them,
/// they are declared one after the other.
pub proof fn lemma_procedures_written(
    procedures: Seq<ProcedureSyntax>,
    lexemes: Seq<Seq<char>>,
    pos: int,
    procs: Map<Seq<char>, Block>,
)
    requires
        well_formed_procedures(procedures, procs),
        stands_at(lexemes, pos, written_procedures(procedures)),
        !at_procedure(lexemes, pos + written_procedures(procedures).len()),
    ensures
        procedures_from(lexemes, pos, procs) == Ok::<(Map<Seq<char>, Block>, int), ErrorModel>(
            (declared(procedures, procs), pos + written_procedures(procedures).len()),
        ),
    decreases procedures.len(),
{
    if procedures.len() > 0 {
        let first = written_procedure(procedures[0]);
        let rest = written_procedures(procedures.skip(1));
        let whole = written_procedures(procedures);
        assert(whole.subrange(0, first.len() as int) =~= first);
        assert(whole.subrange(first.len() as int, whole.len() as int) =~= rest);
        lemma_part_stands(lexemes, pos, whole, 0, first);
        lemma_part_stands(lexemes, pos, whole, first.len() as int, rest);
        lemma_procedure_written(procedures[0], lexemes, pos, procs);
        lemma_procedures_written(
            procedures.skip(1),
            lexemes,
            pos + first.len(),
            procs.insert(procedures[0].label, meaning_of_body(procedures[0].body, procs)),
        );
    }
}

/// Where the pieces of a written script stand.
proof fn lemma_script_pieces(script: ScriptSyntax)
    ensures
        ({
            let lexemes = written_script(script);
            let begin = written_procedures(script.procedures).len() as int;
            let body = written_all(script.body);
            &&& lexemes.len() == begin + body.len() + 2
            &&& stands_at(lexemes, 0, lexemes)
            &&& stands_at(lexemes, 0, written_procedures(script.procedures))
            &&& lexemes[begin] == "begin"@
            &&& lexemes.subrange(begin + 1, begin + 1 + body.len()) == body
            &&& lexemes[begin + 1 + body.len()] == "end"@
        }),
{
    let lexemes = written_script(script);
    let begin = written_procedures(script.procedures).len() as int;
    let body = written_all(script.body);
    assert(lexemes.subrange(0, lexemes.len() as int) =~= lexemes);
    assert(lexemes.subrange(0, begin) =~= written_procedures(script.procedures));
    assert(lexemes.subrange(begin + 1, begin + 1 + body.len()) =~= body);
}

/// A bare `begin` begins the script body and no procedure.
proof fn lemma_begin_token(lexemes: Seq<Seq<char>>, pos: int)
    requires
        0 <= pos < lexemes.len(),
        lexemes[pos] == "begin"@,
    ensures
        token_at(lexemes, pos) == Some(seq!["begin"@]),
        !at_procedure(lexemes, pos),
{
    lemma_keywords();
    lemma_parts_of_dotless("begin"@);
}

/// The tokens of a well-formed script compile, and they compile to what the
/// script means.
pub proof fn lemma_written_script_compiles(script: ScriptSyntax)
    requires
        well_formed_script(script),
    ensures
        compiled_tokens(written_script(script)) == Ok::<Block, ErrorModel>(
            meaning_of_script(script),
        ),
{
    let lexemes = written_script(script);
    let procs = declared(script.procedures, Map::empty());
    let begin = written_procedures(script.procedures).len() as int;
    lemma_script_pieces(script);
    lemma_begin_token(lexemes, begin);
    lemma_procedures_written(script.procedures, lexemes, 0, Map::empty());
    lemma_parse_enclosed_body(script.body, lexemes, 0, lexemes, begin + 1, "end"@, procs);
    let end = begin + 1 + written_all(script.body).len();
    assert(token_at(lexemes, end + 1) is None);
    assert(script_at(lexemes, begin, procs) == Ok::<Block, ErrorModel>(meaning_of_script(script)));
}

/// Every source whose lexemes are those of a well-formed script compiles,
/// and it compiles to what the script means.
pub proof fn lemma_well_formed_source_compiles(source: Seq<char>, script: ScriptSyntax)
    requires
        well_formed_script(script),
        lexemes(source) == written_script(script),
    ensures
        compiled(source) == Ok::<Block, ErrorModel>(meaning_of_script(script)),
{
    lemma_written_script_compiles(script);
}

} // verus!
