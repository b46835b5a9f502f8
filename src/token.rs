//! Tokens: what the lexer emits and the parser reads.

use vstd::prelude::*;
use crate::number::Number;
use crate::text::{nat_digits, push_char, push_digits, push_str};

verus! {

/// The kind of a token; number literals carry their value.
#[derive(Clone, Copy, Debug, PartialEq, Eq, Structural)]
pub enum Token {
    LeftParen,
    RightParen,
    LeftBrace,
    RightBrace,
    Comma,
    Dot,
    SemiColon,
    Plus,
    Minus,
    Star,
    Slash,
    Bang,
    Equal,
    EqualEqual,
    BangEqual,
    Less,
    LessEqual,
    Greater,
    GreaterEqual,
    String,
    Number(Number),
    Identifier,
    And,
    Class,
    Else,
    False,
    For,
    Fun,
    If,
    Nil,
    Or,
    Print,
    Return,
    Super,
    This,
    True,
    Var,
    While,
    EOF,
}

impl Token {
    /// Whether two tokens are of the same kind, number values included.
    pub fn variant_matches(&self, other: &Token) -> (r: bool)
        ensures
            r == (*self == *other),
    {
        *self == *other
    }
}

/// A token with its text and the line it starts on. The text of a string
/// literal is its contents without the quotes; of any other token, its
/// source text; of `EOF`, empty.
pub struct Lexeme {
    pub token: Token,
    pub text: String,
    pub line: usize,
}

/// What a `Lexeme` denotes.
pub struct LexemeV {
    pub token: Token,
    pub text: Seq<char>,
    pub line: nat,
}

impl View for Lexeme {
    type V = LexemeV;

    open spec fn view(&self) -> LexemeV {
        LexemeV { token: self.token, text: self.text@, line: self.line as nat }
    }
}

/// The views of a sequence of lexemes.
pub open spec fn lexemes_view(ls: Seq<Lexeme>) -> Seq<LexemeV> {
    ls.map_values(|l: Lexeme| l@)
}

/// A lexical error, with the line it occurred on.
#[derive(Clone, Copy, Debug, PartialEq, Eq, Structural)]
pub enum LexError {
    UnexpectedCharacter(char, usize),
    UnterminatedString(usize),
    /// A second point in one number literal, or a literal with more digits
    /// than a number holds.
    MalformedNumber(usize),
}

/// The keyword spelled by `w`, if any.
pub open spec fn keyword(w: Seq<char>) -> Option<Token> {
    if w == seq!['a', 'n', 'd'] {
        Some(Token::And)
    } else if w == seq!['c', 'l', 'a', 's', 's'] {
        Some(Token::Class)
    } else if w == seq!['e', 'l', 's', 'e'] {
        Some(Token::Else)
    } else if w == seq!['f', 'a', 'l', 's', 'e'] {
        Some(Token::False)
    } else if w == seq!['f', 'o', 'r'] {
        Some(Token::For)
    } else if w == seq!['f', 'u', 'n'] {
        Some(Token::Fun)
    } else if w == seq!['i', 'f'] {
        Some(Token::If)
    } else if w == seq!['n', 'i', 'l'] {
        Some(Token::Nil)
    } else if w == seq!['o', 'r'] {
        Some(Token::Or)
    } else if w == seq!['p', 'r', 'i', 'n', 't'] {
        Some(Token::Print)
    } else if w == seq!['r', 'e', 't', 'u', 'r', 'n'] {
        Some(Token::Return)
    } else if w == seq!['s', 'u', 'p', 'e', 'r'] {
        Some(Token::Super)
    } else if w == seq!['t', 'h', 'i', 's'] {
        Some(Token::This)
    } else if w == seq!['t', 'r', 'u', 'e'] {
        Some(Token::True)
    } else if w == seq!['v', 'a', 'r'] {
        Some(Token::Var)
    } else if w == seq!['w', 'h', 'i', 'l', 'e'] {
        Some(Token::While)
    } else {
        None
    }
}

fn spells(w: &Vec<char>, k: &[char]) -> (r: bool)
    ensures
        r == (w@ == k@),
{
    if w.len() != k.len() {
        return false;
    }
    let mut i: usize = 0;
    while i < w.len()
        invariant
            w@.len() == k@.len(),
            0 <= i <= w@.len(),
            forall|j: int| 0 <= j < i ==> w@[j] == k@[j],
        decreases w.len() - i,
    {
        if w[i] != k[i] {
            return false;
        }
        i = i + 1;
    }
    assert(w@ =~= k@);
    true
}

/// The keyword spelled by `w`, if any.
pub fn keyword_of(w: &Vec<char>) -> (r: Option<Token>)
    ensures
        r == keyword(w@),
{
    if spells(w, &['a', 'n', 'd']) {
        Some(Token::And)
    } else if spells(w, &['c', 'l', 'a', 's', 's']) {
        Some(Token::Class)
    } else if spells(w, &['e', 'l', 's', 'e']) {
        Some(Token::Else)
    } else if spells(w, &['f', 'a', 'l', 's', 'e']) {
        Some(Token::False)
    } else if spells(w, &['f', 'o', 'r']) {
        Some(Token::For)
    } else if spells(w, &['f', 'u', 'n']) {
        Some(Token::Fun)
    } else if spells(w, &['i', 'f']) {
        Some(Token::If)
    } else if spells(w, &['n', 'i', 'l']) {
        Some(Token::Nil)
    } else if spells(w, &['o', 'r']) {
        Some(Token::Or)
    } else if spells(w, &['p', 'r', 'i', 'n', 't']) {
        Some(Token::Print)
    } else if spells(w, &['r', 'e', 't', 'u', 'r', 'n']) {
        Some(Token::Return)
    } else if spells(w, &['s', 'u', 'p', 'e', 'r']) {
        Some(Token::Super)
    } else if spells(w, &['t', 'h', 'i', 's']) {
        Some(Token::This)
    } else if spells(w, &['t', 'r', 'u', 'e']) {
        Some(Token::True)
    } else if spells(w, &['v', 'a', 'r']) {
        Some(Token::Var)
    } else if spells(w, &['w', 'h', 'i', 'l', 'e']) {
        Some(Token::While)
    } else {
        None
    }
}

/// `[line N] Error: ` for line `line`.
pub open spec fn line_prefix(line: nat) -> Seq<char> {
    "[line "@ + nat_digits(line) + "] Error: "@
}

pub open spec fn lex_error_message(e: LexError) -> Seq<char> {
    match e {
        LexError::UnexpectedCharacter(c, line) => line_prefix(line as nat) + "Unexpected character: "@
            + seq![c],
        LexError::UnterminatedString(line) => line_prefix(line as nat) + "Unterminated string."@,
        LexError::MalformedNumber(line) => line_prefix(line as nat) + "Malformed number."@,
    }
}

/// Appends `[line N] Error: ` to `out`.
pub fn push_line_prefix(out: &mut String, line: usize)
    ensures
        final(out)@ == old(out)@ + line_prefix(line as nat),
{
    push_str(out, "[line ");
    push_digits(out, line as u128);
    push_str(out, "] Error: ");
    assert(final(out)@ =~= old(out)@ + line_prefix(line as nat));
}

impl LexError {
    /// The diagnostic reported for this error.
    pub fn message(&self) -> (r: String)
        ensures
            r@ == lex_error_message(*self),
    {
        let mut out = String::new();
        match self {
            LexError::UnexpectedCharacter(c, line) => {
                push_line_prefix(&mut out, *line);
                push_str(&mut out, "Unexpected character: ");
                push_char(&mut out, *c);
            },
            LexError::UnterminatedString(line) => {
                push_line_prefix(&mut out, *line);
                push_str(&mut out, "Unterminated string.");
            },
            LexError::MalformedNumber(line) => {
                push_line_prefix(&mut out, *line);
                push_str(&mut out, "Malformed number.");
            },
        }
        assert(out@ =~= lex_error_message(*self));
        out
    }
}

/// The source spelling of a keyword token.
pub trait AsString {
    spec fn literal_spec(&self) -> Seq<char>;

    fn literal(&self) -> (r: &'static str)
        ensures
            r@ == self.literal_spec(),
    ;
}

/// The spelling of a keyword; of any other token, `No literal`.
pub open spec fn keyword_text(t: Token) -> Seq<char> {
    match t {
        Token::And => "and"@,
        Token::Class => "class"@,
        Token::Else => "else"@,
        Token::False => "false"@,
        Token::For => "for"@,
        Token::Fun => "fun"@,
        Token::If => "if"@,
        Token::Nil => "nil"@,
        Token::Or => "or"@,
        Token::Print => "print"@,
        Token::Return => "return"@,
        Token::Super => "super"@,
        Token::This => "this"@,
        Token::True => "true"@,
        Token::Var => "var"@,
        Token::While => "while"@,
        _ => "No literal"@,
    }
}

impl AsString for Token {
    open spec fn literal_spec(&self) -> Seq<char> {
        keyword_text(*self)
    }

    fn literal(&self) -> (r: &'static str) {
        match self {
            Token::And => "and",
            Token::Class => "class",
            Token::Else => "else",
            Token::False => "false",
            Token::For => "for",
            Token::Fun => "fun",
            Token::If => "if",
            Token::Nil => "nil",
            Token::Or => "or",
            Token::Print => "print",
            Token::Return => "return",
            Token::Super => "super",
            Token::This => "this",
            Token::True => "true",
            Token::Var => "var",
            Token::While => "while",
            _ => "No literal",
        }
    }
}

} // verus!
