use lox::driver::{run, run_program, Error};
use lox::interpreter::Interpreter;
use lox::number::Number;
use lox::parser::parse;
use lox::lexer::tokenize;
use lox::value::{truthy, ErrorKind, RuntimeError, Value};

fn run_source(src: &str) -> (Vec<String>, Option<Error>) {
    run(src, Number::from_int(0))
}

fn output(src: &str) -> Vec<String> {
    let (out, err) = run_source(src);
    assert!(err.is_none(), "unexpected error {:?} for {:?}", err, src);
    out
}

fn runtime_error(src: &str) -> RuntimeError {
    match run_source(src).1 {
        Some(Error::Runtime(e)) => e,
        other => panic!("expected a runtime error for {:?}, got {:?}", src, other),
    }
}

fn eval_one(src: &str) -> Result<Value, RuntimeError> {
    let (tokens, _) = tokenize(src);
    let exprs = parse(tokens).unwrap();
    let mut it = Interpreter::new(Number::from_int(0));
    it.evaluate(0, &exprs[0], 64, 1000)
}

#[test]
fn arithmetic_and_printing_of_numbers() {
    assert_eq!(
        output("print 7 / 2; print 10 / 4 * 2; print 1 / 3; print -4 + 1.25; print 0.1 + 0.2;"),
        vec!["3.5", "5", "0.3333333333333333", "-2.75", "0.3"]
    );
}

#[test]
fn comparisons_and_equality() {
    assert_eq!(
        output("print 1 < 2; print 2 <= 2; print 3 > 4; print 3 >= 4; print 1 == 1.0; print nil == false; print \"a\" != \"a\";"),
        vec!["true", "true", "false", "false", "true", "false", "false"]
    );
}

#[test]
fn truthiness_zero_and_empty_string_are_true() {
    assert_eq!(output("print !0; print !\"\"; print !nil; print !false;"), vec!["false", "false", "true", "true"]);
    assert!(truthy(&Value::Number(Number::from_int(0))));
    assert!(!truthy(&Value::Nil));
}

#[test]
fn logical_operators_short_circuit() {
    let src = "var n = 0; fun bump() { n = n + 1; return true; } print true or bump(); print false and bump(); print n; print nil or \"x\";";
    assert_eq!(output(src), vec!["true", "false", "0", "x"]);
}

#[test]
fn assignment_reaches_the_nearest_binding() {
    assert_eq!(output("var a = 1; { a = 2; var b = a; { b = 3; print b; } } print a;"), vec!["3", "2"]);
}

#[test]
fn for_loop_with_initializer_in_enclosing_scope() {
    assert_eq!(output("for (var i = 0; i < 3; i = i + 1) print i; print i;"), vec!["0", "1", "2", "3"]);
}

#[test]
fn if_else_branches() {
    assert_eq!(output("if (1 > 2) print \"a\"; else print \"b\"; if (nil) print \"c\";"), vec!["b"]);
}

#[test]
fn recursion_and_returns() {
    let src = "fun fib(n) { if (n < 2) return n; return fib(n - 1) + fib(n - 2); } print fib(15);";
    assert_eq!(output(src), vec!["610"]);
}

#[test]
fn closures_share_their_scope() {
    let src = "fun counter() { var c = 0; fun inc() { c = c + 1; return c; } return inc; } var f = counter(); f(); print f();";
    assert_eq!(output(src), vec!["2"]);
}

#[test]
fn functions_print_and_compare() {
    assert_eq!(output("fun f() {} print f; print f == f; print f();"), vec!["<fn f>", "true", "nil"]);
}

#[test]
fn clock_reads_the_given_time() {
    let (out, err) = run("print clock();", Number::ratio(3, 2).unwrap());
    assert!(err.is_none());
    assert_eq!(out, vec!["1.5"]);
}

#[test]
fn output_before_an_error_is_kept() {
    let (out, err) = run_source("print 1; print -\"a\"; print 2;");
    assert_eq!(out, vec!["1"]);
    assert!(matches!(err, Some(Error::Runtime(RuntimeError { kind: ErrorKind::OperandMustBeNumber, line: Some(1) }))));
}

#[test]
fn each_runtime_error() {
    assert_eq!(runtime_error("print -\"a\";").message(), "Operand must be a number.");
    assert_eq!(runtime_error("print \"a\" * 2;").message(), "Operands must be numbers.");
    assert_eq!(runtime_error("print 1 < nil;").message(), "Operands must be numbers.");
    assert_eq!(runtime_error("print 1 + nil;").message(), "Operands must be two numbers or two strings.");
    assert_eq!(runtime_error("print x;").message(), "Undefined variable 'x'");
    assert_eq!(runtime_error("x = 1;").message(), "Undefined variable 'x'");
    assert_eq!(runtime_error("g();").message(), "Undefined function 'g'");
    assert_eq!(runtime_error("var a = 1; a();").message(), "Undefined function 'a'");
    assert!(matches!(runtime_error("fun f(a) {} f();").kind, ErrorKind::ArityMismatch(1, 0)));
    assert!(matches!(runtime_error("clock(1);").kind, ErrorKind::ArityMismatch(0, 1)));
    assert_eq!(runtime_error("print 1 / 0;").message(), "Division by zero.");
    assert_eq!(runtime_error("print 999999999999999999 * 100;").message(), "Number out of range.");
    assert_eq!(runtime_error("fun f() { return f(); } f();").message(), "Stack overflow.");
    assert_eq!(runtime_error("return;").message(), "Can't return from top-level code.");
}

#[test]
fn loop_fuel_bounds_iterations() {
    let (tokens, _) = tokenize("while (true) {}");
    let program = lox::parser::parse_statements(tokens).unwrap();
    let mut it = Interpreter::new(Number::from_int(0));
    let r = it.execute(0, &program[0], 64, 5);
    assert!(matches!(r, Err(RuntimeError { kind: ErrorKind::LoopLimit, line: None })));
}

#[test]
fn evaluate_single_expressions() {
    assert_eq!(eval_one("\"ab\" + \"cd\";").unwrap().display(), "abcd");
    assert_eq!(eval_one("(1 + 2) * -3;").unwrap().display(), "-9");
    assert!(matches!(eval_one("nope;"), Err(RuntimeError { kind: ErrorKind::UndefinedVariable(_), .. })));
}

#[test]
fn run_program_collects_lines() {
    let (tokens, _) = tokenize("print 1; print 2;");
    let program = lox::parser::parse_statements(tokens).unwrap();
    let (out, err) = run_program(&program, Number::from_int(0));
    assert_eq!(out, vec!["1", "2"]);
    assert!(err.is_none());
}

#[test]
fn deep_recursion_within_the_call_limit() {
    let src = "fun down(n) { if (n == 0) return 0; return 1 + down(n - 1); } print down(250);";
    assert_eq!(output(src), vec!["250"]);
}

#[test]
fn lexemes_rebuild_the_source() {
    let src = "var s = \"a b\"; // note\nprint s+1.50;";
    let (tokens, errors) = tokenize(src);
    assert!(errors.is_empty());
    let rebuilt: String = tokens
        .iter()
        .map(|t| if t.token == lox::token::Token::String { format!("\"{}\"", t.text) } else { t.text.clone() })
        .collect();
    let without_trivia: String = "var s = \"a b\";\nprint s+1.50;".split(|c| c == ' ' || c == '\n').collect();
    assert_eq!(rebuilt, without_trivia.replace("\"ab\"", "\"a b\""));
}

#[test]
fn assigned_values_are_read_back() {
    assert_eq!(output("var x = 1; x = 2; print x; { var x = 3; print x; x = 4; print x; } print x;"), vec!["2", "3", "4", "2"]);
}

#[test]
fn arity_message_names_both_counts() {
    assert_eq!(runtime_error("fun f(a, b) {} f(1);").message(), "Expected 2 arguments but got 1.");
}

#[test]
fn closure_ignores_declarations_off_its_chain() {
    let src = "var x = 1; fun f() { return x; } { var x = 2; print f(); }";
    assert_eq!(output(src), vec!["1"]);
}

#[test]
fn closure_observes_assignments() {
    let src = "var x = 1; fun f() { return x; } x = 5; print f(); { x = 6; } print f();";
    assert_eq!(output(src), vec!["5", "6"]);
}

#[test]
fn runtime_errors_carry_the_line_where_they_arose() {
    assert_eq!(runtime_error("print 1;\nprint -\"a\";").line, Some(2));
    let src = "fun f(a) {\n  return a\n    + nil;\n}\nf(1);";
    assert_eq!(runtime_error(src).line, Some(3));
    assert_eq!(runtime_error("var x = 1;\n\ny = 2;").line, Some(3));
    assert_eq!(runtime_error("\nreturn;").line, None);
}

#[test]
fn a_name_bound_to_a_value_falls_back_to_the_clock() {
    let (out, err) = run("var clock = 1; print clock();", Number::from_int(9));
    assert!(err.is_none());
    assert_eq!(out, vec!["9"]);
}

#[test]
fn call_scope_encloses_the_declaration_not_the_caller() {
    let e = runtime_error("fun f() { return y; }\n{ var y = 1; print f(); }");
    assert_eq!(e.message(), "Undefined variable 'y'");
    assert_eq!(e.line, Some(1));
}

#[test]
fn functions_are_equal_only_as_the_same_declaration() {
    let src = "fun f() {} var g = f; print g == f; fun f() { print 1; } print g == f; print g == g;";
    assert_eq!(output(src), vec!["true", "false", "true"]);
}

#[test]
fn callee_is_looked_up_before_the_arguments() {
    let src = "fun f(x) { return \"f\"; } fun g(x) { return \"g\"; } print f(f = g); print f(1);";
    assert_eq!(output(src), vec!["f", "g"]);
}

#[test]
fn runtime_report_names_the_line() {
    let e = runtime_error("print 1;\nprint -\"a\";");
    assert_eq!(e.report(9), "Operand must be a number.\n[line 2]");
    let r = runtime_error("\nreturn;");
    assert_eq!(r.report(2), "Can't return from top-level code.\n[line 2]");
}
