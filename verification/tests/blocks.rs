use assembly::block_parser::{
    is_control_token, unroll_block, validate_else_token, validate_end_token, validate_exec_token,
    validate_if_token, validate_proc_label, validate_repeat_token, validate_while_token,
};
use assembly::combiner::{join_pairs, merge_adjacent_spans};
use assembly::compiler::{parse_proc, parse_script, validate_begin_token, validate_proc_token};
use assembly::operations::parse_op_token;
use assembly::{
    combine_blocks, parse_block_body, AssemblyError, BlockParser, CodeBlock, Operation, ProcMap,
    Script, TokenStream,
};

fn text(source: &str) -> Vec<char> {
    source.chars().collect()
}

fn token(parts: &[&str]) -> Vec<Vec<char>> {
    parts.iter().map(|part| text(part)).collect()
}

fn span(values: &[u128]) -> CodeBlock {
    CodeBlock::new_span(values.iter().map(|value| Operation::Push(*value)).collect())
}

fn looped(value: u128) -> CodeBlock {
    CodeBlock::new_loop(span(&[value]))
}

fn join(left: CodeBlock, right: CodeBlock) -> CodeBlock {
    CodeBlock::new_join(left, right)
}

// BLOCKS
// ================================================================================================

#[test]
fn constructors_build_the_four_kinds() {
    assert_eq!(span(&[1]), CodeBlock::Span(vec![Operation::Push(1)]));
    assert_eq!(
        join(span(&[1]), looped(2)),
        CodeBlock::Join(Box::new(span(&[1])), Box::new(looped(2)))
    );
    assert_eq!(
        CodeBlock::new_split(span(&[1]), span(&[2])),
        CodeBlock::Split(Box::new(span(&[1])), Box::new(span(&[2])))
    );
    assert_eq!(looped(3), CodeBlock::Loop(Box::new(span(&[3]))));
    assert!(span(&[1]).is_span());
    assert!(!looped(1).is_span());
    assert!(!join(span(&[1]), looped(2)).is_span());
    assert!(!CodeBlock::new_split(span(&[1]), span(&[2])).is_span());
}

#[test]
fn clone_is_an_equal_and_independent_tree() {
    let tree = join(CodeBlock::new_split(span(&[1, 2]), looped(3)), looped(4));
    let copy = tree.clone();
    assert_eq!(copy, tree);
    drop(tree);
    assert_eq!(copy.to_string(), "join if.true span push(1) push(2) end else loop span push(3) \
        end end end loop span push(4) end end end");
}

#[test]
fn blocks_are_written_as_text() {
    assert_eq!(span(&[]).to_string(), "span end");
    assert_eq!(span(&[5]).to_string(), "span push(5) end");
    assert_eq!(looped(1).to_string(), "loop span push(1) end end");
    assert_eq!(join(span(&[1]), looped(2)).to_string(), "join span push(1) end loop span \
        push(2) end end end");
    assert_eq!(
        CodeBlock::new_split(span(&[1]), span(&[2])).to_string(),
        "if.true span push(1) end else span push(2) end end"
    );
    assert_eq!(looped(1).to_text(), text("loop span push(1) end end"));
    let script = Script::new(span(&[1, 2]));
    assert_eq!(script.root(), &span(&[1, 2]));
    assert_eq!(script.to_string(), "begin span push(1) push(2) end end");
    assert_eq!(script.to_text(), text("begin span push(1) push(2) end end"));
}

// COMBINER
// ================================================================================================

#[test]
fn adjacent_spans_are_merged() {
    let merged = merge_adjacent_spans(vec![span(&[1]), span(&[2, 3]), looped(4), span(&[5]),
        span(&[6]), span(&[7]), looped(8), looped(9), span(&[10])]);
    assert_eq!(
        merged,
        vec![span(&[1, 2, 3]), looped(4), span(&[5, 6, 7]), looped(8), looped(9), span(&[10])]
    );
    assert_eq!(merge_adjacent_spans(vec![]), vec![]);
    assert_eq!(merge_adjacent_spans(vec![looped(1)]), vec![looped(1)]);
}

#[test]
fn pairs_are_joined_and_an_odd_block_stays_last() {
    assert_eq!(
        join_pairs(vec![looped(1), looped(2), looped(3), looped(4)]),
        vec![join(looped(1), looped(2)), join(looped(3), looped(4))]
    );
    assert_eq!(
        join_pairs(vec![looped(1), looped(2), looped(3)]),
        vec![join(looped(1), looped(2)), looped(3)]
    );
    assert_eq!(join_pairs(vec![looped(1)]), vec![looped(1)]);
    assert_eq!(join_pairs(vec![]), vec![]);
    assert_eq!(join_pairs(vec![span(&[1]), span(&[2])]), vec![join(span(&[1]), span(&[2]))]);
}

#[test]
fn combine_of_one_block_is_the_block() {
    assert_eq!(combine_blocks(vec![looped(1)]), looped(1));
    assert_eq!(combine_blocks(vec![span(&[1])]), span(&[1]));
}

#[test]
fn combine_of_no_block_is_a_noop() {
    assert_eq!(combine_blocks(vec![]), CodeBlock::new_span(vec![Operation::Noop]));
}

#[test]
fn combine_merges_spans_into_one() {
    assert_eq!(combine_blocks(vec![span(&[1]), span(&[2]), span(&[3])]), span(&[1, 2, 3]));
}

#[test]
fn combine_pairs_round_by_round() {
    let blocks = |count: u128| (1..=count).map(looped).collect::<Vec<_>>();
    assert_eq!(combine_blocks(blocks(2)), join(looped(1), looped(2)));
    assert_eq!(combine_blocks(blocks(3)), join(join(looped(1), looped(2)), looped(3)));
    assert_eq!(
        combine_blocks(blocks(4)),
        join(join(looped(1), looped(2)), join(looped(3), looped(4)))
    );
    assert_eq!(
        combine_blocks(blocks(5)),
        join(join(join(looped(1), looped(2)), join(looped(3), looped(4))), looped(5))
    );
    assert_eq!(
        combine_blocks(blocks(6)),
        join(
            join(join(looped(1), looped(2)), join(looped(3), looped(4))),
            join(looped(5), looped(6))
        )
    );
    assert_eq!(
        combine_blocks(blocks(7)),
        join(
            join(join(looped(1), looped(2)), join(looped(3), looped(4))),
            join(join(looped(5), looped(6)), looped(7))
        )
    );
}

fn leaves(block: &CodeBlock, found: &mut Vec<CodeBlock>) {
    match block {
        CodeBlock::Join(left, right) => {
            leaves(left, found);
            leaves(right, found);
        }
        other => found.push(other.clone()),
    }
}

#[test]
fn leaves_of_the_combined_tree_are_the_siblings_in_order() {
    for count in 1..40u128 {
        let siblings: Vec<CodeBlock> = (0..count)
            .map(|i| if i % 3 == 0 { span(&[i]) } else { looped(i) })
            .collect();
        let expected: Vec<CodeBlock> = siblings.iter().cloned().collect();
        let mut found = Vec::new();
        leaves(&combine_blocks(siblings), &mut found);
        assert_eq!(found, expected);
    }
}

fn join_depth(block: &CodeBlock) -> u32 {
    match block {
        CodeBlock::Join(left, right) => 1 + join_depth(left).max(join_depth(right)),
        _ => 0,
    }
}

#[test]
fn depth_of_the_combined_tree_is_logarithmic() {
    for count in 1..200u128 {
        let siblings: Vec<CodeBlock> = (0..count).map(looped).collect();
        let mut rounds = 0;
        while (1u128 << rounds) < count {
            rounds += 1;
        }
        assert_eq!(join_depth(&combine_blocks(siblings)), rounds);
    }
}

fn well_built(block: &CodeBlock) -> bool {
    match block {
        CodeBlock::Span(ops) => !ops.is_empty(),
        CodeBlock::Join(left, right) => {
            well_built(left) && well_built(right) && !(left.is_span() && right.is_span())
        }
        CodeBlock::Split(on_true, on_false) => well_built(on_true) && well_built(on_false),
        CodeBlock::Loop(body) => well_built(body),
    }
}

#[test]
fn compiled_trees_have_no_empty_span_and_no_join_of_spans() {
    for source in [
        "begin end",
        "begin add end",
        "begin repeat.0 add end repeat.0 while.true end end add end",
        "proc.a add end proc.b exec.a exec.a end begin exec.b exec.a if.true exec.b end end",
        "proc.a while.true add end mul end begin add exec.a add repeat.3 exec.a end mul end",
        "begin if.true else end while.true if.true add else repeat.2 end end end end",
    ] {
        let script = assembly::compile_script(source).unwrap();
        assert!(well_built(script.root()), "{}", source);
    }
}

#[test]
fn combine_merges_then_pairs() {
    let combined = combine_blocks(vec![span(&[1]), span(&[2]), looped(3), span(&[4]), span(&[5])]);
    assert_eq!(combined, join(join(span(&[1, 2]), looped(3)), span(&[4, 5])));
}

#[test]
fn unrolling() {
    assert_eq!(unroll_block(span(&[1, 2]), 3), span(&[1, 2, 1, 2, 1, 2]));
    assert_eq!(unroll_block(span(&[1]), 1), span(&[1]));
    assert_eq!(unroll_block(span(&[1]), 0), CodeBlock::new_span(vec![Operation::Noop]));
    assert_eq!(unroll_block(looped(1), 0), CodeBlock::new_span(vec![Operation::Noop]));
    assert_eq!(unroll_block(looped(1), 1), looped(1));
    assert_eq!(unroll_block(looped(1), 3), join(join(looped(1), looped(1)), looped(1)));
    let tree = join(span(&[1]), looped(2));
    assert_eq!(unroll_block(tree.clone(), 2), join(tree.clone(), tree));
}

// PROCEDURES
// ================================================================================================

#[test]
fn namespace_holds_what_was_declared() {
    let mut procs = ProcMap::new();
    assert!(!procs.contains_key(&text("foo")));
    assert_eq!(procs.get(&text("foo")), None);
    procs.insert(text("foo"), span(&[1]));
    procs.insert(text("bar"), looped(2));
    assert!(procs.contains_key(&text("foo")));
    assert!(procs.contains_key(&text("bar")));
    assert!(!procs.contains_key(&text("fo")));
    assert_eq!(procs.get(&text("foo")), Some(&span(&[1])));
    assert_eq!(procs.get(&text("bar")), Some(&looped(2)));
    procs.insert(text("foo"), span(&[3]));
    assert_eq!(procs.get(&text("foo")), Some(&span(&[3])));
    assert_eq!(procs.get(&text("bar")), Some(&looped(2)));
}

#[test]
fn parse_proc_declares_the_procedure() {
    let mut tokens = TokenStream::new("proc.foo push.1 end proc.bar exec.foo end begin end");
    let mut procs = ProcMap::new();
    assert_eq!(parse_proc(&mut tokens, &mut procs), Ok(()));
    assert_eq!(tokens.pos(), 3);
    assert_eq!(procs.get(&text("foo")), Some(&span(&[1])));
    assert_eq!(parse_proc(&mut tokens, &mut procs), Ok(()));
    assert_eq!(tokens.pos(), 6);
    assert_eq!(procs.get(&text("bar")), Some(&span(&[1])));
}

#[test]
fn parse_proc_leaves_the_namespace_on_an_error() {
    let mut tokens = TokenStream::new("proc.foo push.1 end");
    let mut procs = ProcMap::new();
    procs.insert(text("foo"), looped(9));
    assert_eq!(
        parse_proc(&mut tokens, &mut procs),
        Err(AssemblyError::DuplicateProcedureLabel { label: text("foo"), position: 0 })
    );
    assert_eq!(procs.get(&text("foo")), Some(&looped(9)));
    let mut tokens = TokenStream::new("proc.bar push.1");
    assert_eq!(
        parse_proc(&mut tokens, &mut procs),
        Err(AssemblyError::UnmatchedProcedure { label: text("bar"), position: 0 })
    );
    assert!(!procs.contains_key(&text("bar")));
}

#[test]
fn parse_script_reads_the_body() {
    let mut procs = ProcMap::new();
    procs.insert(text("foo"), looped(1));
    let mut tokens = TokenStream::new("begin push.2 exec.foo end");
    assert_eq!(parse_script(&mut tokens, &procs), Ok(join(span(&[2]), looped(1))));
    assert!(tokens.eof());
    let mut tokens = TokenStream::new("begin push.2 end end");
    assert_eq!(
        parse_script(&mut tokens, &procs),
        Err(AssemblyError::DanglingOperationsAfterScript { token: token(&["end"]), position: 3 })
    );
}

// BODY PARSER
// ================================================================================================

#[test]
fn body_stops_at_its_terminator() {
    let procs = ProcMap::new();
    let mut tokens = TokenStream::new("push.1 while.true push.2 end push.3 else push.4");
    assert_eq!(
        parse_block_body(&mut tokens, &procs),
        Ok(join(join(span(&[1]), looped(2)), span(&[3])))
    );
    assert_eq!(tokens.pos(), 5);
    assert_eq!(tokens.read(), Some(&token(&["else"])));
    let mut tokens = TokenStream::new("push.1 push.2");
    assert_eq!(parse_block_body(&mut tokens, &procs), Ok(span(&[1, 2])));
    assert!(tokens.eof());
    let mut tokens = TokenStream::new("end push.1");
    assert_eq!(parse_block_body(&mut tokens, &procs), Ok(CodeBlock::new_span(vec![Operation::Noop])));
    assert_eq!(tokens.pos(), 0);
}

#[test]
fn body_fails_at_the_first_error() {
    let procs = ProcMap::new();
    let mut tokens = TokenStream::new("push.1 exec.foo end.x");
    assert_eq!(
        parse_block_body(&mut tokens, &procs),
        Err(AssemblyError::UndefinedProcedure { label: text("foo"), position: 1 })
    );
    let mut tokens = TokenStream::new("push.1 end.x");
    assert_eq!(
        parse_block_body(&mut tokens, &procs),
        Err(AssemblyError::ExtraParameter { token: token(&["end", "x"]), position: 1 })
    );
}

#[test]
fn dispatcher_names_the_construct() {
    let next = |source: &str| BlockParser::next(&TokenStream::new(source));
    assert_eq!(next("add"), Ok(Some(BlockParser::Span)));
    assert_eq!(next("begin"), Ok(Some(BlockParser::Span)));
    assert_eq!(next("proc.foo"), Ok(Some(BlockParser::Span)));
    assert_eq!(next("if.true"), Ok(Some(BlockParser::IfElse)));
    assert_eq!(next("while.true"), Ok(Some(BlockParser::While)));
    assert_eq!(next("repeat.12"), Ok(Some(BlockParser::Repeat(12))));
    assert_eq!(next("exec.foo"), Ok(Some(BlockParser::Exec(text("foo")))));
    assert_eq!(next("else"), Ok(None));
    assert_eq!(next("end"), Ok(None));
    assert_eq!(next(""), Ok(None));
    assert_eq!(
        next("else.x"),
        Err(AssemblyError::ExtraParameter { token: token(&["else", "x"]), position: 0 })
    );
    assert_eq!(
        next("repeat"),
        Err(AssemblyError::MissingParameter { token: token(&["repeat"]), position: 0 })
    );
}

#[test]
fn dispatcher_does_not_move_the_stream() {
    let mut tokens = TokenStream::new("add if.true");
    tokens.advance();
    assert_eq!(BlockParser::next(&tokens), Ok(Some(BlockParser::IfElse)));
    assert_eq!(tokens.pos(), 1);
}

#[test]
fn constructs_are_parsed_one_by_one() {
    let mut procs = ProcMap::new();
    procs.insert(text("foo"), looped(7));
    let mut tokens =
        TokenStream::new("push.1 push.2 if.true push.3 end while.true end repeat.2 push.4 end exec.foo");
    assert_eq!(BlockParser::Span.parse(&mut tokens, &procs), Ok(span(&[1, 2])));
    assert_eq!(tokens.pos(), 2);
    assert_eq!(
        BlockParser::IfElse.parse(&mut tokens, &procs),
        Ok(CodeBlock::new_split(span(&[3]), CodeBlock::new_span(vec![Operation::Noop])))
    );
    assert_eq!(tokens.pos(), 5);
    assert_eq!(
        BlockParser::While.parse(&mut tokens, &procs),
        Ok(CodeBlock::new_loop(CodeBlock::new_span(vec![Operation::Noop])))
    );
    assert_eq!(tokens.pos(), 7);
    assert_eq!(BlockParser::Repeat(2).parse(&mut tokens, &procs), Ok(span(&[4, 4])));
    assert_eq!(tokens.pos(), 10);
    assert_eq!(BlockParser::Exec(text("foo")).parse(&mut tokens, &procs), Ok(looped(7)));
    assert!(tokens.eof());
}

#[test]
fn span_parser_may_find_no_instruction() {
    let procs = ProcMap::new();
    let mut tokens = TokenStream::new("end");
    assert_eq!(BlockParser::Span.parse(&mut tokens, &procs), Ok(span(&[])));
    assert_eq!(tokens.pos(), 0);
    let mut tokens = TokenStream::new("");
    assert_eq!(BlockParser::Span.parse(&mut tokens, &procs), Ok(span(&[])));
}

// VALIDATORS
// ================================================================================================

#[test]
fn validators_accept_well_formed_tokens() {
    assert_eq!(validate_if_token(&token(&["if", "true"]), 3), Ok(()));
    assert_eq!(validate_while_token(&token(&["while", "true"]), 3), Ok(()));
    assert_eq!(validate_else_token(&token(&["else"]), 3), Ok(()));
    assert_eq!(validate_end_token(&token(&["end"]), 3), Ok(()));
    assert_eq!(validate_begin_token(&token(&["begin"]), 3), Ok(()));
    assert_eq!(validate_repeat_token(&token(&["repeat", "5"]), 3), Ok(5));
    assert_eq!(validate_repeat_token(&token(&["repeat", "0"]), 3), Ok(0));
    assert_eq!(validate_repeat_token(&token(&["repeat", "4294967295"]), 3), Ok(u32::MAX));
    assert_eq!(validate_exec_token(&token(&["exec", "foo"]), 3), Ok(text("foo")));
    assert_eq!(validate_proc_token(&token(&["proc", "foo"]), 3), Ok(text("foo")));
    assert_eq!(validate_proc_token(&token(&["proc", ""]), 3), Ok(text("")));
    assert_eq!(validate_proc_label(&text("9 lives")), Ok(text("9 lives")));
}

#[test]
fn validators_reject_malformed_tokens() {
    let invalid = |parts: &[&str], reason: &str| AssemblyError::InvalidParameter {
        token: token(parts),
        position: 4,
        reason: text(reason),
    };
    let extra = |parts: &[&str]| AssemblyError::ExtraParameter { token: token(parts), position: 4 };
    let missing =
        |parts: &[&str]| AssemblyError::MissingParameter { token: token(parts), position: 4 };
    assert_eq!(validate_if_token(&token(&["if"]), 4), Err(invalid(&["if"], "expected if.true")));
    assert_eq!(
        validate_if_token(&token(&["if", "True"]), 4),
        Err(invalid(&["if", "True"], "expected if.true"))
    );
    assert_eq!(
        validate_while_token(&token(&["while", "true", ""]), 4),
        Err(invalid(&["while", "true", ""], "expected while.true"))
    );
    assert_eq!(validate_else_token(&token(&["else", ""]), 4), Err(extra(&["else", ""])));
    assert_eq!(validate_end_token(&token(&["end", "if"]), 4), Err(extra(&["end", "if"])));
    assert_eq!(validate_begin_token(&token(&["begin", "1", "2"]), 4), Err(extra(&["begin", "1", "2"])));
    assert_eq!(validate_repeat_token(&token(&["repeat"]), 4), Err(missing(&["repeat"])));
    assert_eq!(
        validate_repeat_token(&token(&["repeat", ""]), 4),
        Err(invalid(&["repeat", ""], "expected a number of iterations"))
    );
    assert_eq!(validate_repeat_token(&token(&["repeat", "1", "2"]), 4), Err(extra(&["repeat", "1", "2"])));
    assert_eq!(validate_exec_token(&token(&["exec"]), 4), Err(missing(&["exec"])));
    assert_eq!(validate_exec_token(&token(&["exec", "a", "b"]), 4), Err(extra(&["exec", "a", "b"])));
    assert_eq!(validate_proc_token(&token(&["proc"]), 4), Err(missing(&["proc"])));
    assert_eq!(validate_proc_token(&token(&["proc", "a", "b"]), 4), Err(extra(&["proc", "a", "b"])));
}

#[test]
fn control_tokens() {
    for word in ["if", "else", "while", "repeat", "exec", "end"] {
        assert!(is_control_token(&token(&[word])));
        assert!(is_control_token(&token(&[word, "x"])));
    }
    for word in ["begin", "proc", "add", "", "End", "iff"] {
        assert!(!is_control_token(&token(&[word])));
    }
}

#[test]
fn instructions_append_their_operations() {
    let mut ops = vec![Operation::Noop];
    assert_eq!(parse_op_token(&token(&["push", "9"]), &mut ops, 0), Ok(()));
    assert_eq!(parse_op_token(&token(&["sub"]), &mut ops, 1), Ok(()));
    assert_eq!(ops, vec![Operation::Noop, Operation::Push(9), Operation::Neg, Operation::Add]);
    assert_eq!(
        parse_op_token(&token(&["pop"]), &mut ops, 2),
        Err(AssemblyError::InvalidOperation { token: token(&["pop"]), position: 2 })
    );
    assert_eq!(
        parse_op_token(&token(&["sub", "1"]), &mut ops, 2),
        Err(AssemblyError::ExtraParameter { token: token(&["sub", "1"]), position: 2 })
    );
    assert_eq!(ops.len(), 4);
}

#[test]
fn errors_know_their_position() {
    let errors = vec![
        AssemblyError::MissingParameter { token: token(&["a"]), position: 1 },
        AssemblyError::ExtraParameter { token: token(&["a"]), position: 2 },
        AssemblyError::InvalidParameter { token: token(&["a"]), position: 3, reason: text("r") },
        AssemblyError::InvalidOperation { token: token(&["a"]), position: 4 },
        AssemblyError::UndefinedProcedure { label: text("a"), position: 5 },
        AssemblyError::DuplicateProcedureLabel { label: text("a"), position: 6 },
        AssemblyError::UnmatchedIf { position: 7 },
        AssemblyError::UnmatchedElse { position: 8 },
        AssemblyError::UnmatchedWhile { position: 9 },
        AssemblyError::UnmatchedProcedure { label: text("a"), position: 10 },
        AssemblyError::UnmatchedBegin { position: 11 },
        AssemblyError::MissingBegin { position: 12 },
        AssemblyError::DanglingOperationsAfterProcedures { token: token(&["a"]), position: 13 },
        AssemblyError::DanglingOperationsAfterScript { token: token(&["a"]), position: 14 },
    ];
    for (i, error) in errors.iter().enumerate() {
        assert_eq!(error.position(), i + 1);
    }
}
