use lox::ast::{Expression, Statement};
use lox::driver::{parse_source, Error};
use lox::grammar::{ParseError, ParseErrorKind};
use lox::lexer::tokenize;
use lox::parser::{parse, parse_statements};
use lox::printer::expression_text;

/// The canonical forms of the `;`-terminated expressions of `src`.
fn canonical(src: &str) -> Vec<String> {
    let (tokens, errors) = tokenize(src);
    assert!(errors.is_empty());
    parse(tokens).unwrap().iter().map(expression_text).collect()
}

fn parse_error(src: &str) -> ParseError {
    let (tokens, _) = tokenize(src);
    match parse_statements(tokens) {
        Err(e) => e,
        Ok(_) => panic!("expected a parse error for {:?}", src),
    }
}

#[test]
fn precedence_and_associativity() {
    assert_eq!(canonical("1 + 2 * 3;"), vec!["(+ 1.0 (* 2.0 3.0))"]);
    assert_eq!(canonical("1 - 2 - 3;"), vec!["(- (- 1.0 2.0) 3.0)"]);
    assert_eq!(canonical("!true == -x;"), vec!["(== (! true) (- x))"]);
    assert_eq!(canonical("a or b and c;"), vec!["(or a (and b c))"]);
    assert_eq!(canonical("1 < 2 != 3 >= 4;"), vec!["(!= (< 1.0 2.0) (>= 3.0 4.0))"]);
}

#[test]
fn groups_literals_calls_and_assignment() {
    assert_eq!(canonical("(\"hi\" + nil);"), vec!["(group (+ hi nil))"]);
    assert_eq!(canonical("2.50; false;"), vec!["2.5", "false"]);
    assert_eq!(canonical("f(1, g());"), vec!["(call f 1.0 (call g))"]);
    assert_eq!(canonical("a = b = 3;"), vec!["(= a (= b 3.0))"]);
}

#[test]
fn statements_have_their_shapes() {
    let (tokens, _) = tokenize("var a; { print a; } if (a) a = 1; else {} while (a) a = nil; for (;;) {} fun f(x, y) { return; }");
    let program = parse_statements(tokens).unwrap();
    assert_eq!(program.len(), 6);
    assert!(matches!(&program[0], Statement::Declaration(n, _) if n == "a"));
    assert!(matches!(&program[1], Statement::Block(b) if b.len() == 1));
    assert!(matches!(&program[2], Statement::IfElse(_, _, Some(_))));
    assert!(matches!(&program[3], Statement::While(_, _)));
    assert!(matches!(&program[4], Statement::For(None, None, None, _)));
    match &program[5] {
        Statement::Fn(f) => {
            assert_eq!(f.name, "f");
            assert_eq!(f.params, vec!["x".to_string(), "y".to_string()]);
            assert!(matches!(&f.body[0], Statement::Return(Expression::Primary(_))));
        }
        other => panic!("expected a function, got {:?}", other),
    }
}

#[test]
fn missing_semicolon() {
    let e = parse_error("print 1\nprint 2;");
    assert_eq!(e, ParseError { kind: ParseErrorKind::ExpectSemicolon, line: 2 });
    assert_eq!(e.message(), "[line 2] Error: Expect ';'.");
}

#[test]
fn missing_expression() {
    let e = parse_error("print ;");
    assert_eq!(e, ParseError { kind: ParseErrorKind::ExpectExpression, line: 1 });
    assert_eq!(e.message(), "[line 1] Error: Expect expression.");
}

#[test]
fn unbalanced_brackets() {
    assert_eq!(parse_error("(1;").kind, ParseErrorKind::ExpectRightParen);
    assert_eq!(parse_error("{ print 1;").kind, ParseErrorKind::ExpectRightBrace);
    assert_eq!(parse_error("if 1) x;").kind, ParseErrorKind::ExpectLeftParen);
    assert_eq!(parse_error("fun f() x;").kind, ParseErrorKind::ExpectLeftBrace);
    assert_eq!(parse_error("var 1;").kind, ParseErrorKind::ExpectIdentifier);
}

#[test]
fn invalid_assignment_target() {
    let e = parse_error("1 + 2 = 3;");
    assert_eq!(e.kind, ParseErrorKind::InvalidAssignmentTarget);
    assert_eq!(e.message(), "[line 1] Error: Invalid assignment target.");
}

#[test]
fn nesting_has_a_limit() {
    let deep = format!("{}1{};", "(".repeat(300), ")".repeat(300));
    assert_eq!(parse_error(&deep).kind, ParseErrorKind::TooDeep);
    let fine = format!("{}1{};", "(".repeat(50), ")".repeat(50));
    let (tokens, _) = tokenize(&fine);
    assert!(parse_statements(tokens).is_ok());
}

#[test]
fn parse_source_reports_the_first_failing_stage() {
    assert!(matches!(parse_source("@ print ;"), Err(Error::Lex(_))));
    assert!(matches!(parse_source("print ;"), Err(Error::Parse(_))));
    assert!(matches!(parse_source("print 1;"), Ok(p) if p.len() == 1));
}

#[test]
fn printed_literals_parse_back_to_the_same_tree() {
    for src in ["12.5;", "7;", "true;", "nil;", "name;"] {
        let once = canonical(src);
        let twice = canonical(&format!("{};", once[0]));
        assert_eq!(once, twice);
    }
}

#[test]
fn statements_print_in_prefix_form() {
    let (tokens, _) = tokenize("var a = 1; { print a; } if (a) a = 2; for (;;) x; fun f(p, q) { return p; } while (nil) {}");
    let program = parse_statements(tokens).unwrap();
    let texts: Vec<String> = program.iter().map(lox::printer::statement_text).collect();
    assert_eq!(
        texts,
        vec![
            "(var a 1.0)",
            "(block (print a))",
            "(if a (expr (= a 2.0)) nil)",
            "(for nil nil nil (expr x))",
            "(fun f (p q) (return p))",
            "(while nil (block))",
        ]
    );
}

#[test]
fn top_level_statements_carry_their_lines() {
    let (tokens, _) = tokenize("print 1;\n\nvar a\n= 2;\n{\n}");
    let (program, lines) = lox::parser::parse_statements_with_lines(tokens).unwrap();
    assert_eq!(program.len(), 3);
    assert_eq!(lines, vec![1, 3, 5]);
}

#[test]
fn expression_list_needs_semicolons() {
    let (tokens, _) = tokenize("1 + 2");
    assert_eq!(parse(tokens).unwrap_err().kind, ParseErrorKind::ExpectSemicolon);
}
