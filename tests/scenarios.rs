use lox::driver::{run, Error};
use lox::number::Number;

fn run_source(src: &str) -> (Vec<String>, Option<Error>) {
    run(src, Number::from_int(0))
}

fn lines(v: &[&str]) -> Vec<String> {
    v.iter().map(|s| s.to_string()).collect()
}

fn runtime_message(e: &Option<Error>) -> String {
    match e {
        Some(Error::Runtime(r)) => r.message(),
        other => panic!("expected a runtime error, got {:?}", other),
    }
}

#[test]
fn print_respects_precedence() {
    let (out, err) = run_source("print 1 + 2 * 3;");
    assert_eq!(out, lines(&["7"]));
    assert!(err.is_none());
}

#[test]
fn plus_concatenates_strings() {
    let (out, err) = run_source("print \"foo\" + \"bar\";");
    assert_eq!(out, lines(&["foobar"]));
    assert!(err.is_none());
}

#[test]
fn plus_rejects_mixed_operands() {
    let (out, err) = run_source("print 1 + \"bar\";");
    assert!(out.is_empty());
    assert_eq!(runtime_message(&err), "Operands must be two numbers or two strings.");
}

#[test]
fn block_shadows_without_leaking() {
    let (out, err) = run_source("var a = 1; { var a = 2; print a; } print a;");
    assert_eq!(out, lines(&["2", "1"]));
    assert!(err.is_none());
}

#[test]
fn while_loop_counts() {
    let (out, err) = run_source("var i = 0; while (i < 3) { print i; i = i + 1; }");
    assert_eq!(out, lines(&["0", "1", "2"]));
    assert!(err.is_none());
}

#[test]
fn closure_keeps_its_scope() {
    let src = "fun make(x) { fun inner() { return x; } return inner; } var f = make(42); print f();";
    let (out, err) = run_source(src);
    assert_eq!(out, lines(&["42"]));
    assert!(err.is_none());
}

#[test]
fn top_level_return_is_an_error() {
    let (out, err) = run_source("return 1;");
    assert!(out.is_empty());
    assert_eq!(runtime_message(&err), "Can't return from top-level code.");
}

#[test]
fn unterminated_string_is_a_lex_error() {
    let (out, err) = run_source("\"abc");
    assert!(out.is_empty());
    match err {
        Some(Error::Lex(e)) => assert_eq!(e.message(), "[line 1] Error: Unterminated string."),
        other => panic!("expected a lexical error, got {:?}", other),
    }
}
