use loxc::{execute, execute_with_output, interpret_source, Error};

fn outcome(source: &str) -> (Vec<String>, Vec<String>, u8) {
    let report = interpret_source(source);
    (report.stdout, report.stderr, report.exit_code)
}

#[test]
fn empty_program_prints_nothing() {
    let (out, err, code) = outcome("");
    assert!(out.is_empty());
    assert!(err.is_empty());
    assert_eq!(code, 0);
}

#[test]
fn multiplication_binds_tighter_than_addition() {
    let (out, _, code) = outcome("print 1 + 2 * 3;");
    assert_eq!(out, vec!["7".to_string()]);
    assert_eq!(code, 0);
}

#[test]
fn variables_concatenate() {
    let (out, _, code) = outcome("var a = \"foo\"; var b = \"bar\"; print a + b;");
    assert_eq!(out, vec!["foobar".to_string()]);
    assert_eq!(code, 0);
}

#[test]
fn division_by_zero_is_a_runtime_error() {
    let (out, err, code) = outcome("print 10 / 0;");
    assert!(out.is_empty());
    assert_eq!(err, vec!["Tried dividing by zero!".to_string()]);
    assert_eq!(code, 70);
}

#[test]
fn string_plus_number_is_a_runtime_error() {
    let (_, err, code) = outcome("print \"hi\" + 1;");
    assert_eq!(err, vec!["Runtime error in binary expression!".to_string()]);
    assert_eq!(code, 70);
}

#[test]
fn for_loop_counts() {
    let (out, _, code) = outcome("var i = 0; for (var x = 0; x < 3; x = x + 1) { i = i + 1; } print i;");
    assert_eq!(out, vec!["3".to_string()]);
    assert_eq!(code, 0);
}

#[test]
fn block_variable_is_gone_after_the_block() {
    let (out, err, code) = outcome("{ var x = 1; } print x;");
    assert!(out.is_empty());
    assert_eq!(err, vec!["Undefined variable 'x'.".to_string()]);
    assert_eq!(code, 70);
}

#[test]
fn block_of_one_statement_prints_the_same() {
    assert_eq!(outcome("{ print 1; }"), outcome("print 1;"));
    assert_eq!(outcome("{ print 1 / 0; }"), outcome("print 1 / 0;"));
    let (out, _, code) = outcome("var y = 1; { y = 2; } print y;");
    assert_eq!(out, vec!["2".to_string()]);
    assert_eq!(code, 0);
}

#[test]
fn negating_twice_gives_the_number() {
    let (out, _, _) = outcome("print -(-5); print -(-2.5); var n = 7; print --n;");
    assert_eq!(out, vec!["5".to_string(), "2.5".to_string(), "7".to_string()]);
}

#[test]
fn not_not_is_truthiness() {
    let (out, _, _) = outcome("print !!nil; print !!false; print !!0; print !!\"\"; print !!true;");
    let expected: Vec<String> = ["false", "false", "true", "true", "true"].iter().map(|s| s.to_string()).collect();
    assert_eq!(out, expected);
}

#[test]
fn or_does_not_evaluate_its_right_side_when_left_is_true() {
    let (out, err, code) = outcome("print true or missing; print 1 or (1 / 0);");
    assert_eq!(out, vec!["true".to_string(), "1".to_string()]);
    assert!(err.is_empty());
    assert_eq!(code, 0);
}

#[test]
fn and_does_not_evaluate_its_right_side_when_left_is_false() {
    let (out, err, code) = outcome("print false and missing; print nil and (x = 1);");
    assert_eq!(out, vec!["false".to_string(), "nil".to_string()]);
    assert!(err.is_empty());
    assert_eq!(code, 0);
}

#[test]
fn logical_operators_return_an_operand() {
    let (out, _, _) = outcome("print nil or \"yes\"; print 1 and 2; print false or nil;");
    assert_eq!(out, vec!["yes".to_string(), "2".to_string(), "nil".to_string()]);
}

#[test]
fn printed_lines_before_an_error_are_kept() {
    let (out, err, code) = outcome("print 1; print -\"a\"; print 2;");
    assert_eq!(out, vec!["1".to_string()]);
    assert_eq!(err, vec!["Operand must be a number.".to_string()]);
    assert_eq!(code, 70);
}

#[test]
fn comparison_needs_numbers() {
    let (_, err, code) = outcome("print 1 < \"a\";");
    assert_eq!(err, vec!["Operands must be numbers.".to_string()]);
    assert_eq!(code, 70);
}

#[test]
fn assignment_needs_a_declared_variable() {
    let (_, err, code) = outcome("x = 1;");
    assert_eq!(err, vec!["Undefined variable 'x'.".to_string()]);
    assert_eq!(code, 70);
}

#[test]
fn assignment_reaches_the_nearest_binding() {
    let (out, _, _) = outcome("var a = 1; { var a = 2; a = 3; print a; } print a;");
    assert_eq!(out, vec!["3".to_string(), "1".to_string()]);
}

#[test]
fn equality_and_ordering() {
    let (out, _, _) = outcome(
        "print 1 == 1; print 1 != 2; print \"a\" == \"a\"; print nil == nil; print nil == false; \
         print 1 == \"1\"; print 2 <= 2; print 3 > 2; print 2 >= 3; print 0.5 < 0.25;",
    );
    let expected: Vec<String> = ["true", "true", "true", "true", "false", "false", "true", "true", "false", "false"]
        .iter()
        .map(|s| s.to_string())
        .collect();
    assert_eq!(out, expected);
}

#[test]
fn numbers_print_exactly() {
    let (out, _, _) = outcome("print 1 / 3; print 0.1 + 0.2; print 7 / 2; print 0 - 0.5; print 3.0; print 2 * 1.5;");
    let expected: Vec<String> = ["0.3333333333333333", "0.3", "3.5", "-0.5", "3", "3"]
        .iter()
        .map(|s| s.to_string())
        .collect();
    assert_eq!(out, expected);
}

#[test]
fn if_and_while_run() {
    let (out, _, _) = outcome("var n = 0; while (n < 2) n = n + 1; if (n == 2) print \"two\"; else print \"other\";");
    assert_eq!(out, vec!["two".to_string()]);
}

#[test]
fn lexical_error_exits_65() {
    let (out, err, code) = outcome("print 1; @");
    assert!(out.is_empty());
    assert_eq!(err, vec!["[line 1] Error: Unexpected character: @".to_string()]);
    assert_eq!(code, 65);
}

#[test]
fn parse_error_exits_65() {
    let (out, err, code) = outcome("print 1");
    assert!(out.is_empty());
    assert_eq!(
        err,
        vec!["Expect ';' after value.".to_string(), "Parse Error: Unexpected token: EOF".to_string()]
    );
    assert_eq!(code, 65);
}

#[test]
fn invalid_assignment_target_is_a_parse_error() {
    let (_, err, code) = outcome("1 = 2;");
    assert_eq!(err, vec!["Parse Error: Unexpected token: EQUAL".to_string()]);
    assert_eq!(code, 65);
}

#[test]
fn number_too_large_is_held_at_the_largest_magnitude() {
    let (out, err, code) = outcome("print 99999999999999999999; print 9999999999999999999;");
    assert_eq!(out, vec!["9223372036854775807".to_string(), "9223372036854775807".to_string()]);
    assert!(err.is_empty());
    assert_eq!(code, 0);
}

#[test]
fn arithmetic_beyond_the_range_is_rounded() {
    let (out, err, code) = outcome("print 9000000000000000000 * 10; print 0 - 9000000000000000000 * 10;");
    assert_eq!(out, vec!["9223372036854775807".to_string(), "-9223372036854775807".to_string()]);
    assert!(err.is_empty());
    assert_eq!(code, 0);
}

#[test]
fn halving_many_times_reaches_zero() {
    let (out, _, code) =
        outcome("var x = 1; for (var i = 0; i < 62; i = i + 1) x = x / 2; print x > 0; x = x / 2; print x;");
    assert_eq!(out, vec!["true".to_string(), "0".to_string()]);
    assert_eq!(code, 0);
}

#[test]
fn long_fractions_are_cut() {
    let (out, _, code) = outcome("print 0.1234567890123456789; print 0.5000000000000000000001;");
    assert_eq!(out, vec!["0.1234567890123456".to_string(), "0.5".to_string()]);
    assert_eq!(code, 0);
}

#[test]
fn shadowed_variable_is_seen_again_after_the_block() {
    let (out, _, code) = outcome("var x = 1; { var x = 2; print x; } print x;");
    assert_eq!(out, vec!["2".to_string(), "1".to_string()]);
    assert_eq!(code, 0);
}

#[test]
fn execute_with_output_gives_the_printed_lines() {
    let (values, printed) = execute_with_output("print 1 + 2 * 3;");
    assert_eq!(values, Ok(vec!["7".to_string()]));
    assert_eq!(printed, vec!["7".to_string()]);
    let (values, printed) = execute_with_output("var a = \"foo\"; var b = \"bar\"; print a + b;");
    assert_eq!(values.unwrap().len(), 3);
    assert_eq!(printed, vec!["foobar".to_string()]);
    let (values, printed) =
        execute_with_output("var i = 0; for (var x = 0; x < 3; x = x + 1) { i = i + 1; } print i;");
    assert_eq!(values.unwrap().len(), 3);
    assert_eq!(printed, vec!["3".to_string()]);
    let (values, printed) = execute_with_output("print 1; print 1 / 0;");
    assert_eq!(values, Err(Error::InterpreterError("Tried dividing by zero!".to_string())));
    assert_eq!(printed, vec!["1".to_string()]);
}

#[test]
fn execute_reports_each_stage() {
    assert_eq!(execute("@"), Err(Error::TokenizingError("Failed parsing tokens".to_string())));
    assert_eq!(execute("print"), Err(Error::ParseError("Parse Error: Unexpected token: EOF".to_string())));
    assert_eq!(execute("-nil;"), Err(Error::InterpreterError("Operand must be a number.".to_string())));
    assert_eq!(
        execute("var a; print a; a = \"s\"; a;"),
        Ok(vec!["nil".to_string(), "nil".to_string(), "\"s\"".to_string(), "\"s\"".to_string()])
    );
}
