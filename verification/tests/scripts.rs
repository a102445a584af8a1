use assembly::{compile_script, AssemblyError, CodeBlock, Operation};

fn text(source: &str) -> Vec<char> {
    source.chars().collect()
}

fn token(parts: &[&str]) -> Vec<Vec<char>> {
    parts.iter().map(|part| text(part)).collect()
}

fn compiled(source: &str) -> String {
    compile_script(source).unwrap().to_string()
}

fn rejected(source: &str) -> AssemblyError {
    compile_script(source).unwrap_err()
}

// SIMPLE SCRIPTS
// ================================================================================================

#[test]
fn single_span() {
    let source = "begin push.1 push.2 add end";
    let program = compile_script(source).unwrap();
    let expected = "begin span push(1) push(2) add end end";
    assert_eq!(expected, program.to_string());
}

#[test]
fn span_and_simple_if() {
    // if with else
    let source = "begin push.1 push.2 if.true add else mul end end";
    let program = compile_script(source).unwrap();
    let expected = "\
        begin \
            join \
                span push(1) push(2) end \
                if.true span add end else span mul end end \
            end \
        end";
    assert_eq!(expected, program.to_string());

    // if without else
    let source = "begin push.1 push.2 if.true add end end";
    let program = compile_script(source).unwrap();
    let expected = "\
        begin \
            join \
                span push(1) push(2) end \
                if.true span add end else span noop end end \
            end \
        end";
    assert_eq!(expected, program.to_string());
}

// SCRIPTS WITH PROCEDURES
// ================================================================================================

#[test]
fn script_with_one_procedure() {
    let source = "proc.foo push.3 push.7 mul end begin push.1 push.2 add exec.foo end";
    let program = compile_script(source).unwrap();
    let expected = "begin span push(1) push(2) add push(3) push(7) mul end end";
    assert_eq!(expected, program.to_string());
}

#[test]
fn single_span_root_holds_the_operations() {
    let program = compile_script("begin push.1 push.2 add end").unwrap();
    match program.root() {
        CodeBlock::Span(ops) => {
            assert_eq!(ops, &vec![Operation::Push(1), Operation::Push(2), Operation::Add]);
        }
        other => panic!("expected a span, got {:?}", other),
    }
}

#[test]
fn if_without_else_gets_a_single_noop() {
    let program = compile_script("begin push.1 push.2 if.true add end end").unwrap();
    match program.root() {
        CodeBlock::Join(left, right) => {
            assert!(matches!(&**left, CodeBlock::Span(ops) if ops.len() == 2));
            match &**right {
                CodeBlock::Split(on_true, on_false) => {
                    assert!(matches!(&**on_true, CodeBlock::Span(ops) if ops == &vec![Operation::Add]));
                    assert!(
                        matches!(&**on_false, CodeBlock::Span(ops) if ops == &vec![Operation::Noop])
                    );
                }
                other => panic!("expected a split, got {:?}", other),
            }
        }
        other => panic!("expected a join, got {:?}", other),
    }
}

#[test]
fn procedures_see_earlier_procedures() {
    let source = "proc.foo push.3 end proc.bar exec.foo mul end begin exec.bar end";
    assert_eq!("begin span push(3) mul end end", compiled(source));
}

#[test]
fn procedure_cannot_call_itself() {
    let error = rejected("proc.foo exec.foo end begin add end");
    assert_eq!(error, AssemblyError::UndefinedProcedure { label: text("foo"), position: 1 });
}

#[test]
fn procedure_cannot_call_a_later_one() {
    let error = rejected("proc.foo exec.bar end proc.bar add end begin exec.foo end");
    assert_eq!(error, AssemblyError::UndefinedProcedure { label: text("bar"), position: 1 });
}

#[test]
fn two_exec_sites_give_equal_trees() {
    let source = "proc.foo while.true add end end begin exec.foo exec.foo end";
    let expected = "begin join loop span add end end loop span add end end end end";
    assert_eq!(expected, compiled(source));
    let program = compile_script(source).unwrap();
    match program.root() {
        CodeBlock::Join(left, right) => {
            assert_eq!(left.to_string(), right.to_string());
            assert!(!std::ptr::eq(&**left, &**right));
        }
        other => panic!("expected a join, got {:?}", other),
    }
}

#[test]
fn while_loop() {
    let source = "begin push.1 while.true push.2 add end end";
    let expected = "begin join span push(1) end loop span push(2) add end end end end";
    assert_eq!(expected, compiled(source));
}

#[test]
fn nested_constructs() {
    let source = "begin if.true while.true add end else if.true mul end end end";
    let expected = "begin if.true loop span add end end else \
        if.true span mul end else span noop end end end end";
    assert_eq!(expected, compiled(source));
}

#[test]
fn repeat_of_a_span_is_one_span() {
    assert_eq!("begin span add add add end end", compiled("begin repeat.3 add end end"));
}

#[test]
fn repeat_span_merges_with_neighbours() {
    let source = "begin push.1 repeat.2 dup mul end drop end";
    assert_eq!("begin span push(1) dup mul dup mul drop end end", compiled(source));
}

#[test]
fn repeat_of_a_tree_is_combined() {
    let source = "begin repeat.3 while.true add end end end";
    let expected = "begin join join loop span add end end loop span add end end end \
        loop span add end end end end";
    assert_eq!(expected, compiled(source));
}

#[test]
fn repeat_with_plus_sign_and_leading_zeros() {
    assert_eq!("begin span add add end end", compiled("begin repeat.+002 add end end"));
}

#[test]
fn repeat_zero_gives_a_noop() {
    assert_eq!("begin span noop end end", compiled("begin repeat.0 add end end"));
    assert_eq!("begin span noop end end", compiled("begin repeat.0 while.true add end end end"));
}

#[test]
fn empty_bodies_give_a_noop() {
    assert_eq!("begin span noop end end", compiled("begin end"));
    assert_eq!("begin loop span noop end end end", compiled("begin while.true end end"));
    assert_eq!(
        "begin if.true span noop end else span noop end end end",
        compiled("begin if.true else end end")
    );
}

#[test]
fn sub_is_two_operations() {
    assert_eq!("begin span push(5) push(3) neg add end end", compiled("begin push.5 push.3 sub end"));
}

#[test]
fn every_instruction() {
    let source = "begin noop assert push.7 drop dup swap add sub neg mul inv not and or eq end";
    let expected = "begin span noop assert push(7) drop dup swap add neg add neg mul inv not and \
        or eq end end";
    assert_eq!(expected, compiled(source));
}

#[test]
fn push_takes_large_values() {
    let source = "begin push.340282366920938463463374607431768211455 push.0 end";
    let expected = "begin span push(340282366920938463463374607431768211455) push(0) end end";
    assert_eq!(expected, compiled(source));
}

#[test]
fn white_space_of_any_kind_separates_tokens() {
    let source = "  begin\n\tpush.1\r\n push.2\u{a0}add \u{2003} end  ";
    assert_eq!("begin span push(1) push(2) add end end", compiled(source));
}

#[test]
fn compiling_twice_gives_the_same_tree() {
    let source = "proc.foo push.3 end begin if.true exec.foo else repeat.2 while.true add end end end end";
    assert_eq!(compiled(source), compiled(source));
}

// ERRORS
// ================================================================================================

#[test]
fn undefined_procedure() {
    let error = rejected("begin push.1 exec.bar end");
    assert_eq!(error, AssemblyError::UndefinedProcedure { label: text("bar"), position: 2 });
    assert_eq!(error.position(), 2);
}

#[test]
fn duplicate_procedure_label() {
    let error = rejected("proc.foo add end proc.foo mul end begin exec.foo end");
    assert_eq!(error, AssemblyError::DuplicateProcedureLabel { label: text("foo"), position: 3 });
}

#[test]
fn unmatched_while() {
    let error = rejected("begin while.true add");
    assert_eq!(error, AssemblyError::UnmatchedWhile { position: 1 });
    let error = rejected("proc.foo add end begin push.1 while.true add");
    assert_eq!(error, AssemblyError::UnmatchedWhile { position: 5 });
}

#[test]
fn a_single_end_closes_the_innermost_construct() {
    let error = rejected("begin while.true add end");
    assert_eq!(error, AssemblyError::UnmatchedBegin { position: 0 });
}

#[test]
fn unmatched_while_at_a_wrong_terminator() {
    let error = rejected("begin while.true add else end end");
    assert_eq!(error, AssemblyError::UnmatchedWhile { position: 1 });
}

#[test]
fn unmatched_repeat_uses_the_while_diagnostic() {
    let error = rejected("begin push.1 repeat.2 add");
    assert_eq!(error, AssemblyError::UnmatchedWhile { position: 2 });
}

#[test]
fn unmatched_if() {
    assert_eq!(rejected("begin if.true add"), AssemblyError::UnmatchedIf { position: 1 });
}

#[test]
fn unmatched_else() {
    let error = rejected("begin if.true add else mul");
    assert_eq!(error, AssemblyError::UnmatchedElse { position: 3 });
    let error = rejected("begin if.true add else mul else add end end");
    assert_eq!(error, AssemblyError::UnmatchedElse { position: 3 });
}

#[test]
fn unmatched_procedure() {
    let error = rejected("proc.foo add");
    assert_eq!(error, AssemblyError::UnmatchedProcedure { label: text("foo"), position: 0 });
    let error = rejected("proc.foo add else end begin end");
    assert_eq!(error, AssemblyError::UnmatchedProcedure { label: text("foo"), position: 0 });
}

#[test]
fn unmatched_begin() {
    assert_eq!(rejected("begin add"), AssemblyError::UnmatchedBegin { position: 0 });
    assert_eq!(rejected("proc.f add end begin add else"), AssemblyError::UnmatchedBegin {
        position: 3
    });
}

#[test]
fn missing_begin() {
    assert_eq!(rejected(""), AssemblyError::MissingBegin { position: 0 });
    assert_eq!(rejected("  \n "), AssemblyError::MissingBegin { position: 0 });
    assert_eq!(rejected("proc.foo add end"), AssemblyError::MissingBegin { position: 3 });
}

#[test]
fn dangling_operations_after_procedures() {
    let error = rejected("proc.foo add end mul begin add end");
    assert_eq!(
        error,
        AssemblyError::DanglingOperationsAfterProcedures { token: token(&["mul"]), position: 3 }
    );
    let error = rejected("push.1 begin add end");
    assert_eq!(
        error,
        AssemblyError::DanglingOperationsAfterProcedures {
            token: token(&["push", "1"]),
            position: 0
        }
    );
}

#[test]
fn dangling_operations_after_script() {
    let error = rejected("begin add end mul");
    assert_eq!(
        error,
        AssemblyError::DanglingOperationsAfterScript { token: token(&["mul"]), position: 3 }
    );
}

#[test]
fn if_needs_true() {
    let reason = text("expected if.true");
    assert_eq!(
        rejected("begin if add end end"),
        AssemblyError::InvalidParameter { token: token(&["if"]), position: 1, reason: reason.clone() }
    );
    assert_eq!(
        rejected("begin if.false add end end"),
        AssemblyError::InvalidParameter {
            token: token(&["if", "false"]),
            position: 1,
            reason: reason.clone()
        }
    );
    assert_eq!(
        rejected("begin if.true.true add end end"),
        AssemblyError::InvalidParameter {
            token: token(&["if", "true", "true"]),
            position: 1,
            reason
        }
    );
}

#[test]
fn while_needs_true() {
    assert_eq!(
        rejected("begin add while.1 add end end"),
        AssemblyError::InvalidParameter {
            token: token(&["while", "1"]),
            position: 2,
            reason: text("expected while.true")
        }
    );
}

#[test]
fn keywords_without_parameters_reject_one() {
    assert_eq!(
        rejected("begin if.true add else.x mul end end"),
        AssemblyError::ExtraParameter { token: token(&["else", "x"]), position: 3 }
    );
    assert_eq!(
        rejected("begin add end.now"),
        AssemblyError::ExtraParameter { token: token(&["end", "now"]), position: 2 }
    );
    assert_eq!(
        rejected("begin.x add end"),
        AssemblyError::ExtraParameter { token: token(&["begin", "x"]), position: 0 }
    );
    assert_eq!(
        rejected("begin add. end"),
        AssemblyError::ExtraParameter { token: token(&["add", ""]), position: 1 }
    );
}

#[test]
fn repeat_parameter_errors() {
    assert_eq!(
        rejected("begin repeat add end end"),
        AssemblyError::MissingParameter { token: token(&["repeat"]), position: 1 }
    );
    assert_eq!(
        rejected("begin repeat.x add end end"),
        AssemblyError::InvalidParameter {
            token: token(&["repeat", "x"]),
            position: 1,
            reason: text("expected a number of iterations")
        }
    );
    assert_eq!(
        rejected("begin repeat.-1 add end end"),
        AssemblyError::InvalidParameter {
            token: token(&["repeat", "-1"]),
            position: 1,
            reason: text("expected a number of iterations")
        }
    );
    assert_eq!(
        rejected("begin repeat.4294967296 add end end"),
        AssemblyError::InvalidParameter {
            token: token(&["repeat", "4294967296"]),
            position: 1,
            reason: text("expected a number of iterations")
        }
    );
    assert_eq!(
        rejected("begin repeat.2.3 add end end"),
        AssemblyError::ExtraParameter { token: token(&["repeat", "2", "3"]), position: 1 }
    );
}

#[test]
fn label_parameter_errors() {
    assert_eq!(
        rejected("begin exec end"),
        AssemblyError::MissingParameter { token: token(&["exec"]), position: 1 }
    );
    assert_eq!(
        rejected("begin exec.a.b end"),
        AssemblyError::ExtraParameter { token: token(&["exec", "a", "b"]), position: 1 }
    );
    assert_eq!(
        rejected("proc add end begin add end"),
        AssemblyError::MissingParameter { token: token(&["proc"]), position: 0 }
    );
    assert_eq!(
        rejected("proc.a.b add end begin add end"),
        AssemblyError::ExtraParameter { token: token(&["proc", "a", "b"]), position: 0 }
    );
}

#[test]
fn instruction_errors() {
    assert_eq!(
        rejected("begin add foo end"),
        AssemblyError::InvalidOperation { token: token(&["foo"]), position: 2 }
    );
    assert_eq!(
        rejected("begin add begin end"),
        AssemblyError::InvalidOperation { token: token(&["begin"]), position: 2 }
    );
    assert_eq!(
        rejected("begin push end"),
        AssemblyError::MissingParameter { token: token(&["push"]), position: 1 }
    );
    assert_eq!(
        rejected("begin push.1.2 end"),
        AssemblyError::ExtraParameter { token: token(&["push", "1", "2"]), position: 1 }
    );
    assert_eq!(
        rejected("begin push.one end"),
        AssemblyError::InvalidParameter {
            token: token(&["push", "one"]),
            position: 1,
            reason: text("expected a number")
        }
    );
    assert_eq!(
        rejected("begin push.340282366920938463463374607431768211456 end"),
        AssemblyError::InvalidParameter {
            token: token(&["push", "340282366920938463463374607431768211456"]),
            position: 1,
            reason: text("expected a number")
        }
    );
}

#[test]
fn first_error_wins() {
    let error = rejected("begin foo while.true add");
    assert_eq!(error, AssemblyError::InvalidOperation { token: token(&["foo"]), position: 1 });
}
