use lox::lexer::{remove_comment, tokenize, CharStream};
use lox::number::Number;
use lox::printer::format_number;
use lox::text::check_double_negative;
use lox::token::{AsString, LexError, Token};

fn listing(src: &str) -> Vec<String> {
    let (tokens, _) = tokenize(src);
    tokens.iter().map(|t| t.describe()).collect()
}

#[test]
fn punctuation_and_operators() {
    assert_eq!(
        listing("(){};,.+-*/ = == ! != < <= > >="),
        vec![
            "LEFT_PAREN ( null",
            "RIGHT_PAREN ) null",
            "LEFT_BRACE { null",
            "RIGHT_BRACE } null",
            "SEMICOLON ; null",
            "COMMA , null",
            "DOT . null",
            "PLUS + null",
            "MINUS - null",
            "STAR * null",
            "SLASH / null",
            "EQUAL = null",
            "EQUAL_EQUAL == null",
            "BANG ! null",
            "BANG_EQUAL != null",
            "LESS < null",
            "LESS_EQUAL <= null",
            "GREATER > null",
            "GREATER_EQUAL >= null",
            "EOF  null",
        ]
    );
}

#[test]
fn empty_source_is_just_eof() {
    assert_eq!(listing(""), vec!["EOF  null"]);
}

#[test]
fn literals_and_keywords() {
    assert_eq!(
        listing("var x_1 = \"hi there\"; print 42 12.50 and orchid"),
        vec![
            "VAR var null",
            "IDENTIFIER x_1 null",
            "EQUAL = null",
            "STRING \"hi there\" hi there",
            "SEMICOLON ; null",
            "PRINT print null",
            "NUMBER 42 42.0",
            "NUMBER 12.50 12.5",
            "AND and null",
            "IDENTIFIER orchid null",
            "EOF  null",
        ]
    );
}

#[test]
fn comments_and_lines() {
    let (tokens, errors) = tokenize("// note\n(\n\n)// tail");
    assert!(errors.is_empty());
    let lines: Vec<usize> = tokens.iter().map(|t| t.line).collect();
    assert_eq!(lines, vec![2, 4, 4]);
    assert_eq!(tokens[0].token, Token::LeftParen);
    assert_eq!(tokens[2].token, Token::EOF);
}

#[test]
fn trailing_dot_is_not_part_of_a_number() {
    assert_eq!(listing("1."), vec!["NUMBER 1 1.0", "DOT . null", "EOF  null"]);
}

#[test]
fn lexing_goes_on_after_errors() {
    let (tokens, errors) = tokenize("@\n# 1");
    assert_eq!(
        errors,
        vec![LexError::UnexpectedCharacter('@', 1), LexError::UnexpectedCharacter('#', 2)]
    );
    assert_eq!(tokens.len(), 2);
    assert_eq!(errors[0].message(), "[line 1] Error: Unexpected character: @");
}

#[test]
fn unterminated_string_reports_its_opening_line() {
    let (tokens, errors) = tokenize("\n\"abc\ndef");
    assert_eq!(errors, vec![LexError::UnterminatedString(2)]);
    assert_eq!(tokens.len(), 1);
    assert_eq!(tokens[0].line, 3);
}

#[test]
fn second_point_in_a_number_is_an_error() {
    let (_, errors) = tokenize("1.2.3");
    assert_eq!(errors, vec![LexError::MalformedNumber(1)]);
    assert_eq!(errors[0].message(), "[line 1] Error: Malformed number.");
}

#[test]
fn overlong_number_literal_is_an_error() {
    let (_, errors) = tokenize("1234567890123456789");
    assert_eq!(errors, vec![LexError::MalformedNumber(1)]);
    let (_, fine) = tokenize("123456789012345678");
    assert!(fine.is_empty());
}

#[test]
fn keyword_spellings() {
    assert_eq!(Token::While.literal(), "while");
    assert_eq!(Token::Class.literal(), "class");
    assert_eq!(Token::Plus.literal(), "No literal");
}

#[test]
fn number_literal_forms() {
    assert_eq!(format_number(&Number::from_int(7)), "7.0");
    assert_eq!(format_number(&Number::ratio(-3, 2).unwrap()), "-1.5");
    assert_eq!(format_number(&Number::ratio(1, 3).unwrap()), "0.3333333333333333");
}

#[test]
fn char_stream_and_comment_skipping() {
    let chars: Vec<char> = "ab\ncd".chars().collect();
    let mut stream = CharStream { chars: &chars, pos: 0 };
    assert_eq!(stream.peek(), Some('a'));
    assert_eq!(stream.next(), Some('a'));
    remove_comment(&mut stream);
    assert_eq!(stream.pos, 2);
    assert_eq!(stream.peek(), Some('\n'));
    let mut end = CharStream { chars: &chars, pos: 3 };
    remove_comment(&mut end);
    assert_eq!(end.pos, 5);
    assert_eq!(end.next(), None);
}

#[test]
fn double_negative_text() {
    assert_eq!(check_double_negative("--5".to_string()), "5");
    assert_eq!(check_double_negative("--a--b-".to_string()), "ab-");
    assert_eq!(check_double_negative("-5".to_string()), "-5");
    assert_eq!(check_double_negative("5--".to_string()), "5--");
}

#[test]
fn tokens_of_the_same_kind_match() {
    let (tokens, _) = tokenize("print print 1 2");
    assert!(tokens[0].token.variant_matches(&tokens[1].token));
    assert!(!tokens[2].token.variant_matches(&tokens[3].token));
}

#[test]
fn one_eof_last_and_lines_in_order() {
    let (tokens, _) = tokenize("a\n\"b\nc\" d\n\ne");
    let eofs = tokens.iter().filter(|t| t.token == Token::EOF).count();
    assert_eq!(eofs, 1);
    assert_eq!(tokens.last().unwrap().token, Token::EOF);
    let lines: Vec<usize> = tokens.iter().map(|t| t.line).collect();
    assert_eq!(lines, vec![1, 2, 3, 5, 5]);
}
