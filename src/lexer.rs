//! The lexer: source text to lexemes and lexical errors.

use vstd::prelude::*;
use crate::number::{Number, is_digit, all_digits};
use crate::text::{chars_of, slice_of, string_of};
use crate::token::{Token, Lexeme, LexemeV, LexError, keyword, keyword_of, lexemes_view};

verus! {

pub open spec fn is_alpha(c: char) -> bool {
    ('a' <= c && c <= 'z') || ('A' <= c && c <= 'Z') || c == '_'
}

pub open spec fn is_ident_char(c: char) -> bool {
    is_alpha(c) || is_digit(c)
}

/// The length of the run of identifier characters at `j`.
pub open spec fn ident_len(src: Seq<char>, j: int) -> nat
    decreases src.len() - j,
{
    if 0 <= j < src.len() && is_ident_char(src[j]) {
        1 + ident_len(src, j + 1)
    } else {
        0
    }
}

/// The length of the run of digits at `j`.
pub open spec fn digits_len(src: Seq<char>, j: int) -> nat
    decreases src.len() - j,
{
    if 0 <= j < src.len() && is_digit(src[j]) {
        1 + digits_len(src, j + 1)
    } else {
        0
    }
}

/// The count of characters from `j` up to the next `stop` or the end.
pub open spec fn until_len(src: Seq<char>, j: int, stop: char) -> nat
    decreases src.len() - j,
{
    if 0 <= j < src.len() && src[j] != stop {
        1 + until_len(src, j + 1, stop)
    } else {
        0
    }
}

/// The count of newlines in `s`.
pub open spec fn newlines(s: Seq<char>) -> nat
    decreases s.len(),
{
    if s.len() == 0 {
        0
    } else {
        newlines(s.drop_last()) + if s.last() == '\n' {
            1nat
        } else {
            0nat
        }
    }
}

/// The outcome of scanning at one position: at most one lexeme or error,
/// the position after it and the line there.
pub struct Scanned {
    pub lexeme: Option<LexemeV>,
    pub error: Option<LexError>,
    pub next: int,
    pub line: nat,
}

pub open spec fn emit(src: Seq<char>, from: int, to: int, t: Token, line: nat) -> Scanned {
    Scanned {
        lexeme: Some(LexemeV { token: t, text: src.subrange(from, to), line }),
        error: None,
        next: to,
        line,
    }
}

pub open spec fn fail(e: LexError, next: int, line: nat) -> Scanned {
    Scanned { lexeme: None, error: Some(e), next, line }
}

pub open spec fn skip(next: int, line: nat) -> Scanned {
    Scanned { lexeme: None, error: None, next, line }
}

/// A one-character token, or its two-character form where `=` follows.
pub open spec fn with_equal(src: Seq<char>, i: int, two: Token, one: Token, line: nat) -> Scanned {
    if i + 1 < src.len() && src[i + 1] == '=' {
        emit(src, i, i + 2, two, line)
    } else {
        emit(src, i, i + 1, one, line)
    }
}

/// A number literal starting at `i`.
pub open spec fn scan_number(src: Seq<char>, i: int, line: nat) -> Scanned {
    let a = i + 1 + digits_len(src, i + 1);
    if a + 1 < src.len() && src[a] == '.' && is_digit(src[a + 1]) {
        let b = a + 1 + digits_len(src, a + 1);
        if b + 1 < src.len() && src[b] == '.' && is_digit(src[b + 1]) {
            fail(LexError::MalformedNumber(line as usize), b + 1 + digits_len(src, b + 1), line)
        } else {
            match Number::spec_from_decimal(src.subrange(i, a), src.subrange(a + 1, b)) {
                Some(n) => emit(src, i, b, Token::Number(n), line),
                None => fail(LexError::MalformedNumber(line as usize), b, line),
            }
        }
    } else {
        match Number::spec_from_decimal(src.subrange(i, a), Seq::empty()) {
            Some(n) => emit(src, i, a, Token::Number(n), line),
            None => fail(LexError::MalformedNumber(line as usize), a, line),
        }
    }
}

/// A string literal whose opening quote is at `i`.
pub open spec fn scan_string(src: Seq<char>, i: int, line: nat) -> Scanned {
    let e = i + 1 + until_len(src, i + 1, '"');
    let lines = newlines(src.subrange(i + 1, e));
    if e < src.len() {
        Scanned {
            lexeme: Some(LexemeV { token: Token::String, text: src.subrange(i + 1, e), line }),
            error: None,
            next: e + 1,
            line: line + lines,
        }
    } else {
        fail(LexError::UnterminatedString(line as usize), e, line + lines)
    }
}

/// Scanning at position `i` of `src`, on line `line`.
pub open spec fn scan(src: Seq<char>, i: int, line: nat) -> Scanned {
    let c = src[i];
    if c == '(' {
        emit(src, i, i + 1, Token::LeftParen, line)
    } else if c == ')' {
        emit(src, i, i + 1, Token::RightParen, line)
    } else if c == '{' {
        emit(src, i, i + 1, Token::LeftBrace, line)
    } else if c == '}' {
        emit(src, i, i + 1, Token::RightBrace, line)
    } else if c == ',' {
        emit(src, i, i + 1, Token::Comma, line)
    } else if c == '.' {
        emit(src, i, i + 1, Token::Dot, line)
    } else if c == ';' {
        emit(src, i, i + 1, Token::SemiColon, line)
    } else if c == '+' {
        emit(src, i, i + 1, Token::Plus, line)
    } else if c == '-' {
        emit(src, i, i + 1, Token::Minus, line)
    } else if c == '*' {
        emit(src, i, i + 1, Token::Star, line)
    } else if c == '=' {
        with_equal(src, i, Token::EqualEqual, Token::Equal, line)
    } else if c == '!' {
        with_equal(src, i, Token::BangEqual, Token::Bang, line)
    } else if c == '<' {
        with_equal(src, i, Token::LessEqual, Token::Less, line)
    } else if c == '>' {
        with_equal(src, i, Token::GreaterEqual, Token::Greater, line)
    } else if c == '/' {
        if i + 1 < src.len() && src[i + 1] == '/' {
            skip(i + 2 + until_len(src, i + 2, '\n'), line)
        } else {
            emit(src, i, i + 1, Token::Slash, line)
        }
    } else if c == ' ' || c == '\t' || c == '\r' {
        skip(i + 1, line)
    } else if c == '\n' {
        skip(i + 1, line + 1)
    } else if c == '"' {
        scan_string(src, i, line)
    } else if is_digit(c) {
        scan_number(src, i, line)
    } else if is_alpha(c) {
        let e = i + 1 + ident_len(src, i + 1);
        let w = src.subrange(i, e);
        match keyword(w) {
            Some(k) => emit(src, i, e, k, line),
            None => emit(src, i, e, Token::Identifier, line),
        }
    } else {
        fail(LexError::UnexpectedCharacter(c, line as usize), i + 1, line)
    }
}

pub open spec fn opt_seq<A>(o: Option<A>) -> Seq<A> {
    match o {
        Some(a) => seq![a],
        None => Seq::empty(),
    }
}

/// The lexemes and errors of `src` from position `i` on, the line there
/// being `line`; the lexemes end with `EOF`.
pub open spec fn lex_from(src: Seq<char>, i: int, line: nat) -> (Seq<LexemeV>, Seq<LexError>)
    decreases src.len() - i via lex_from_decreases
{
    if i < 0 || i >= src.len() {
        (seq![LexemeV { token: Token::EOF, text: Seq::empty(), line }], Seq::empty())
    } else {
        let s = scan(src, i, line);
        let rest = lex_from(src, s.next, s.line);
        (opt_seq(s.lexeme) + rest.0, opt_seq(s.error) + rest.1)
    }
}

#[via_fn]
proof fn lex_from_decreases(src: Seq<char>, i: int, line: nat) {
    if !(i < 0 || i >= src.len()) {
        lemma_scan_advances(src, i, line);
    }
}

proof fn lemma_run_bounds(src: Seq<char>, j: int, stop: char)
    requires
        0 <= j <= src.len(),
    ensures
        j + ident_len(src, j) <= src.len(),
        j + digits_len(src, j) <= src.len(),
        j + until_len(src, j, stop) <= src.len(),
    decreases src.len() - j,
{
    if j < src.len() {
        lemma_run_bounds(src, j + 1, stop);
    }
}

proof fn lemma_scan_advances(src: Seq<char>, i: int, line: nat)
    requires
        0 <= i < src.len(),
    ensures
        i < scan(src, i, line).next <= src.len(),
{
    let c = src[i];
    lemma_run_bounds(src, i + 1, '"');
    lemma_run_bounds(src, i + 1, '\n');
    if i + 2 <= src.len() {
        lemma_run_bounds(src, i + 2, '\n');
    }
    if is_digit(c) {
        let a = i + 1 + digits_len(src, i + 1);
        if a + 1 < src.len() {
            lemma_run_bounds(src, a + 1, '"');
            let b = a + 1 + digits_len(src, a + 1);
            if b + 1 < src.len() {
                lemma_run_bounds(src, b + 1, '"');
            }
        }
    }
}

/// The lexemes and errors of a whole source text.
pub open spec fn lex(src: Seq<char>) -> (Seq<LexemeV>, Seq<LexError>) {
    lex_from(src, 0, 1)
}

proof fn lemma_digits_run(src: Seq<char>, j: int)
    requires
        0 <= j,
    ensures
        forall|k: int| j <= k < j + digits_len(src, j) ==> is_digit(#[trigger] src[k]),
    decreases src.len() - j,
{
    if 0 <= j < src.len() && is_digit(src[j]) {
        lemma_digits_run(src, j + 1);
    }
}

proof fn lemma_newlines_bound(s: Seq<char>)
    ensures
        newlines(s) <= s.len(),
    decreases s.len(),
{
    if s.len() > 0 {
        lemma_newlines_bound(s.drop_last());
    }
}

fn is_alpha_char(c: char) -> (r: bool)
    ensures
        r == is_alpha(c),
{
    ('a' <= c && c <= 'z') || ('A' <= c && c <= 'Z') || c == '_'
}

fn is_digit_char(c: char) -> (r: bool)
    ensures
        r == is_digit(c),
{
    '0' <= c && c <= '9'
}

fn ident_len_exec(src: &Vec<char>, j: usize) -> (n: usize)
    requires
        j <= src@.len(),
    ensures
        n == ident_len(src@, j as int),
        j + n <= src@.len(),
{
    let mut k = j;
    while k < src.len() && (is_alpha_char(src[k]) || is_digit_char(src[k]))
        invariant
            j <= k <= src@.len(),
            ident_len(src@, j as int) == (k - j) + ident_len(src@, k as int),
        decreases src.len() - k,
    {
        k = k + 1;
    }
    k - j
}

fn digits_len_exec(src: &Vec<char>, j: usize) -> (n: usize)
    requires
        j <= src@.len(),
    ensures
        n == digits_len(src@, j as int),
        j + n <= src@.len(),
{
    let mut k = j;
    while k < src.len() && is_digit_char(src[k])
        invariant
            j <= k <= src@.len(),
            digits_len(src@, j as int) == (k - j) + digits_len(src@, k as int),
        decreases src.len() - k,
    {
        k = k + 1;
    }
    k - j
}

fn until_len_exec(src: &Vec<char>, j: usize, stop: char) -> (n: usize)
    requires
        j <= src@.len(),
    ensures
        n == until_len(src@, j as int, stop),
        j + n <= src@.len(),
{
    let mut k = j;
    while k < src.len() && src[k] != stop
        invariant
            j <= k <= src@.len(),
            until_len(src@, j as int, stop) == (k - j) + until_len(src@, k as int, stop),
        decreases src.len() - k,
    {
        k = k + 1;
    }
    k - j
}

fn count_newlines(src: &Vec<char>, from: usize, to: usize) -> (n: usize)
    requires
        from <= to <= src@.len(),
    ensures
        n == newlines(src@.subrange(from as int, to as int)),
        n <= to - from,
{
    let mut n: usize = 0;
    let mut k = from;
    assert(src@.subrange(from as int, from as int) =~= Seq::<char>::empty());
    while k < to
        invariant
            from <= k <= to <= src@.len(),
            n == newlines(src@.subrange(from as int, k as int)),
            n <= k - from,
        decreases to - k,
    {
        assert(src@.subrange(from as int, k + 1).drop_last() =~= src@.subrange(from as int, k as int));
        if src[k] == '\n' {
            n = n + 1;
        }
        k = k + 1;
    }
    n
}

pub open spec fn opt_view(o: Option<Lexeme>) -> Option<LexemeV> {
    match o {
        Some(l) => Some(l@),
        None => None,
    }
}

fn emit_exec(src: &Vec<char>, from: usize, to: usize, t: Token, line: usize) -> (r: (
    Option<Lexeme>,
    Option<LexError>,
    usize,
    usize,
))
    requires
        from <= to <= src@.len(),
    ensures
        opt_view(r.0) == emit(src@, from as int, to as int, t, line as nat).lexeme,
        r.1 == emit(src@, from as int, to as int, t, line as nat).error,
        r.2 == to,
        r.3 == line,
{
    (Some(Lexeme { token: t, text: string_of(src, from, to), line }), None, to, line)
}

fn with_equal_exec(src: &Vec<char>, i: usize, two: Token, one: Token, line: usize) -> (r: (
    Option<Lexeme>,
    Option<LexError>,
    usize,
    usize,
))
    requires
        i < src@.len(),
        src@.len() < usize::MAX,
    ensures
        opt_view(r.0) == with_equal(src@, i as int, two, one, line as nat).lexeme,
        r.1 == with_equal(src@, i as int, two, one, line as nat).error,
        r.2 == with_equal(src@, i as int, two, one, line as nat).next,
        r.3 == with_equal(src@, i as int, two, one, line as nat).line,
{
    if i + 1 < src.len() && src[i + 1] == '=' {
        emit_exec(src, i, i + 2, two, line)
    } else {
        emit_exec(src, i, i + 1, one, line)
    }
}

fn scan_number_exec(src: &Vec<char>, i: usize, line: usize) -> (r: (
    Option<Lexeme>,
    Option<LexError>,
    usize,
    usize,
))
    requires
        i < src@.len(),
        is_digit(src@[i as int]),
        src@.len() < usize::MAX,
    ensures
        opt_view(r.0) == scan_number(src@, i as int, line as nat).lexeme,
        r.1 == scan_number(src@, i as int, line as nat).error,
        r.2 == scan_number(src@, i as int, line as nat).next,
        r.3 == scan_number(src@, i as int, line as nat).line,
{
    let a = i + 1 + digits_len_exec(src, i + 1);
    proof {
        lemma_digits_run(src@, i + 1);
        assert(all_digits(src@.subrange(i as int, a as int)));
    }
    let int_part = slice_of(src, i, a);
    if a + 1 < src.len() && src[a] == '.' && is_digit_char(src[a + 1]) {
        let b = a + 1 + digits_len_exec(src, a + 1);
        proof {
            lemma_digits_run(src@, a + 1);
            assert(all_digits(src@.subrange(a + 1, b as int)));
        }
        if b + 1 < src.len() && src[b] == '.' && is_digit_char(src[b + 1]) {
            let c = b + 1 + digits_len_exec(src, b + 1);
            (None, Some(LexError::MalformedNumber(line)), c, line)
        } else {
            let frac_part = slice_of(src, a + 1, b);
            match Number::from_decimal(&int_part, &frac_part) {
                Some(n) => emit_exec(src, i, b, Token::Number(n), line),
                None => (None, Some(LexError::MalformedNumber(line)), b, line),
            }
        }
    } else {
        let frac_part: Vec<char> = Vec::new();
        assert(frac_part@ =~= Seq::<char>::empty());
        match Number::from_decimal(&int_part, &frac_part) {
            Some(n) => emit_exec(src, i, a, Token::Number(n), line),
            None => (None, Some(LexError::MalformedNumber(line)), a, line),
        }
    }
}

fn scan_string_exec(src: &Vec<char>, i: usize, line: usize) -> (r: (
    Option<Lexeme>,
    Option<LexError>,
    usize,
    usize,
))
    requires
        i < src@.len(),
        line <= i + 1,
        src@.len() < usize::MAX,
    ensures
        opt_view(r.0) == scan_string(src@, i as int, line as nat).lexeme,
        r.1 == scan_string(src@, i as int, line as nat).error,
        r.2 == scan_string(src@, i as int, line as nat).next,
        r.3 == scan_string(src@, i as int, line as nat).line,
        r.3 <= r.2,
{
    let e = i + 1 + until_len_exec(src, i + 1, '"');
    let lines = count_newlines(src, i + 1, e);
    if e < src.len() {
        let text = string_of(src, i + 1, e);
        (Some(Lexeme { token: Token::String, text, line }), None, e + 1, line + lines)
    } else {
        (None, Some(LexError::UnterminatedString(line)), e, line + lines)
    }
}

/// A read position in a sequence of characters.
pub struct CharStream<'a> {
    pub chars: &'a Vec<char>,
    pub pos: usize,
}

impl<'a> CharStream<'a> {
    /// The character at the read position, if any.
    pub fn peek(&self) -> (r: Option<char>)
        ensures
            self.pos < self.chars@.len() ==> r == Some(self.chars@[self.pos as int]),
            self.pos >= self.chars@.len() ==> r is None,
    {
        if self.pos < self.chars.len() {
            Some(self.chars[self.pos])
        } else {
            None
        }
    }

    /// The character at the read position, if any, moving past it.
    pub fn next(&mut self) -> (r: Option<char>)
        ensures
            final(self).chars == old(self).chars,
            old(self).pos < old(self).chars@.len() ==> r == Some(old(self).chars@[old(self).pos as int])
                && final(self).pos == old(self).pos + 1,
            old(self).pos >= old(self).chars@.len() ==> r is None && final(self).pos == old(self).pos,
    {
        if self.pos < self.chars.len() {
            let c = self.chars[self.pos];
            self.pos = self.pos + 1;
            Some(c)
        } else {
            None
        }
    }
}

/// Moves past the rest of a line comment: up to the next newline, which
/// stays unread, or the end.
pub fn remove_comment(stream: &mut CharStream)
    requires
        old(stream).pos <= old(stream).chars@.len(),
    ensures
        final(stream).chars == old(stream).chars,
        final(stream).pos == old(stream).pos + until_len(old(stream).chars@, old(stream).pos as int, '\n'),
{
    let ghost start = stream.pos;
    loop
        invariant
            stream.chars == old(stream).chars,
            start == old(stream).pos,
            start <= stream.pos <= stream.chars@.len(),
            until_len(stream.chars@, start as int, '\n') == (stream.pos - start) + until_len(
                stream.chars@,
                stream.pos as int,
                '\n',
            ),
        decreases stream.chars@.len() - stream.pos,
    {
        match stream.peek() {
            Some(c) => {
                if c == '\n' {
                    return;
                }
            },
            None => {
                return;
            },
        }
        stream.next();
    }
}

/// Scans at position `i` of `src`, on line `line`: at most one lexeme or
/// error, the position after it and the line there.
fn scan_exec(src: &Vec<char>, i: usize, line: usize) -> (r: (
    Option<Lexeme>,
    Option<LexError>,
    usize,
    usize,
))
    requires
        i < src@.len(),
        1 <= line <= i + 1,
        src@.len() < usize::MAX,
    ensures
        opt_view(r.0) == scan(src@, i as int, line as nat).lexeme,
        r.1 == scan(src@, i as int, line as nat).error,
        r.2 == scan(src@, i as int, line as nat).next,
        r.3 == scan(src@, i as int, line as nat).line,
        1 <= r.3 <= r.2 + 1,
{
    proof {
        lemma_scan_advances(src@, i as int, line as nat);
    }
    let c = src[i];
    if c == '(' {
        emit_exec(src, i, i + 1, Token::LeftParen, line)
    } else if c == ')' {
        emit_exec(src, i, i + 1, Token::RightParen, line)
    } else if c == '{' {
        emit_exec(src, i, i + 1, Token::LeftBrace, line)
    } else if c == '}' {
        emit_exec(src, i, i + 1, Token::RightBrace, line)
    } else if c == ',' {
        emit_exec(src, i, i + 1, Token::Comma, line)
    } else if c == '.' {
        emit_exec(src, i, i + 1, Token::Dot, line)
    } else if c == ';' {
        emit_exec(src, i, i + 1, Token::SemiColon, line)
    } else if c == '+' {
        emit_exec(src, i, i + 1, Token::Plus, line)
    } else if c == '-' {
        emit_exec(src, i, i + 1, Token::Minus, line)
    } else if c == '*' {
        emit_exec(src, i, i + 1, Token::Star, line)
    } else if c == '=' {
        with_equal_exec(src, i, Token::EqualEqual, Token::Equal, line)
    } else if c == '!' {
        with_equal_exec(src, i, Token::BangEqual, Token::Bang, line)
    } else if c == '<' {
        with_equal_exec(src, i, Token::LessEqual, Token::Less, line)
    } else if c == '>' {
        with_equal_exec(src, i, Token::GreaterEqual, Token::Greater, line)
    } else if c == '/' {
        if i + 1 < src.len() && src[i + 1] == '/' {
            let mut stream = CharStream { chars: src, pos: i + 2 };
            remove_comment(&mut stream);
            (None, None, stream.pos, line)
        } else {
            emit_exec(src, i, i + 1, Token::Slash, line)
        }
    } else if c == ' ' || c == '\t' || c == '\r' {
        (None, None, i + 1, line)
    } else if c == '\n' {
        (None, None, i + 1, line + 1)
    } else if c == '"' {
        scan_string_exec(src, i, line)
    } else if is_digit_char(c) {
        scan_number_exec(src, i, line)
    } else if is_alpha_char(c) {
        let e = i + 1 + ident_len_exec(src, i + 1);
        let w = slice_of(src, i, e);
        match keyword_of(&w) {
            Some(k) => emit_exec(src, i, e, k, line),
            None => emit_exec(src, i, e, Token::Identifier, line),
        }
    } else {
        (None, Some(LexError::UnexpectedCharacter(c, line)), i + 1, line)
    }
}

/// Splits `source` into lexemes, ending with `EOF`, and lexical errors.
/// Lexing never stops early: each error is recorded and scanning goes on
/// after it.
pub fn tokenize(source: &str) -> (r: (Vec<Lexeme>, Vec<LexError>))
    requires
        source@.len() < usize::MAX,
    ensures
        lexemes_view(r.0@) == lex(source@).0,
        r.1@ == lex(source@).1,
{
    let src = chars_of(source);
    let mut lexemes: Vec<Lexeme> = Vec::new();
    let mut errors: Vec<LexError> = Vec::new();
    let mut i: usize = 0;
    let mut line: usize = 1;
    proof {
        assert(lexemes_view(lexemes@) =~= Seq::<LexemeV>::empty());
        assert(lex(src@).0 =~= lexemes_view(lexemes@) + lex_from(src@, 0, 1).0);
        assert(lex(src@).1 =~= errors@ + lex_from(src@, 0, 1).1);
    }
    while i < src.len()
        invariant
            src@ == source@,
            src@.len() < usize::MAX,
            i <= src@.len(),
            1 <= line <= i + 1,
            lex(src@).0 == lexemes_view(lexemes@) + lex_from(src@, i as int, line as nat).0,
            lex(src@).1 == errors@ + lex_from(src@, i as int, line as nat).1,
        decreases src@.len() - i,
    {
        let ghost s = scan(src@, i as int, line as nat);
        let ghost old_lexemes = lexemes@;
        let ghost old_errors = errors@;
        let (lexeme, error, next, next_line) = scan_exec(&src, i, line);
        proof {
            lemma_scan_advances(src@, i as int, line as nat);
        }
        match lexeme {
            Some(l) => {
                lexemes.push(l);
            },
            None => {},
        }
        match error {
            Some(e) => {
                errors.push(e);
            },
            None => {},
        }
        proof {
            let rest = lex_from(src@, next as int, next_line as nat);
            assert(lexemes_view(lexemes@) =~= lexemes_view(old_lexemes) + opt_seq(s.lexeme));
            assert(errors@ =~= old_errors + opt_seq(s.error));
            assert(lex(src@).0 =~= lexemes_view(lexemes@) + rest.0);
            assert(lex(src@).1 =~= errors@ + rest.1);
        }
        i = next;
        line = next_line;
    }
    let ghost before = lexemes@;
    lexemes.push(Lexeme { token: Token::EOF, text: String::new(), line });
    proof {
        assert(lexemes_view(lexemes@) =~= lexemes_view(before).push(lexemes@.last()@));
        assert(lex(src@).0 =~= lexemes_view(lexemes@));
        assert(lex(src@).1 =~= errors@);
    }
    (lexemes, errors)
}

/// The lexemes of any source end with `EOF`.
pub proof fn lemma_lex_ends_with_eof(src: Seq<char>, i: int, line: nat)
    ensures
        lex_from(src, i, line).0.len() >= 1,
        lex_from(src, i, line).0.last().token == Token::EOF,
    decreases src.len() - i,
{
    if !(i < 0 || i >= src.len()) {
        lemma_scan_advances(src, i, line);
        let s = scan(src, i, line);
        lemma_lex_ends_with_eof(src, s.next, s.line);
    }
}

/// `src[i..]` without its comments: a `//` outside a string literal starts
/// a comment, which runs up to the next newline; `in_string` says whether
/// position `i` is inside a string literal.
pub open spec fn strip_comments(src: Seq<char>, i: int, in_string: bool) -> Seq<char>
    decreases src.len() - i via strip_comments_decreases
{
    if i < 0 || i >= src.len() {
        Seq::empty()
    } else if in_string {
        seq![src[i]] + strip_comments(src, i + 1, src[i] != '"')
    } else if src[i] == '"' {
        seq![src[i]] + strip_comments(src, i + 1, true)
    } else if src[i] == '/' && i + 1 < src.len() && src[i + 1] == '/' {
        strip_comments(src, i + 2 + until_len(src, i + 2, '\n'), false)
    } else {
        seq![src[i]] + strip_comments(src, i + 1, false)
    }
}

#[via_fn]
proof fn strip_comments_decreases(src: Seq<char>, i: int, in_string: bool) {
    if 0 <= i && i + 2 <= src.len() {
        lemma_run_bounds(src, i + 2, '\n');
    }
}

/// How a lexeme is written in the source: a string literal with its
/// quotes, any other lexeme as its text.
pub open spec fn lexeme_source(l: LexemeV) -> Seq<char> {
    if l.token == Token::String {
        seq!['"'] + l.text + seq!['"']
    } else {
        l.text
    }
}

/// The text that one step of the lexer at `i` accounts for: the source
/// form of the lexeme it emits, else the whitespace or erroneous text it
/// passes over; nothing for a comment.
pub open spec fn step_text(src: Seq<char>, i: int, line: nat) -> Seq<char> {
    let s = scan(src, i, line);
    match s.lexeme {
        Some(l) => lexeme_source(l),
        None => if src[i] == '/' {
            Seq::empty()
        } else {
            src.subrange(i, s.next)
        },
    }
}

/// The texts of the lexer's steps from `i` on, in order.
pub open spec fn lexed_text(src: Seq<char>, i: int, line: nat) -> Seq<char>
    decreases src.len() - i via lexed_text_decreases
{
    if i < 0 || i >= src.len() {
        Seq::empty()
    } else {
        let s = scan(src, i, line);
        step_text(src, i, line) + lexed_text(src, s.next, s.line)
    }
}

#[via_fn]
proof fn lexed_text_decreases(src: Seq<char>, i: int, line: nat) {
    if !(i < 0 || i >= src.len()) {
        lemma_scan_advances(src, i, line);
    }
}

proof fn lemma_plain_run(src: Seq<char>, i: int, e: int)
    requires
        0 <= i <= e <= src.len(),
        forall|k: int| i <= k < e ==> #[trigger] src[k] != '"' && src[k] != '/',
    ensures
        strip_comments(src, i, false) == src.subrange(i, e) + strip_comments(src, e, false),
    decreases e - i,
{
    if i < e {
        lemma_plain_run(src, i + 1, e);
        assert(src.subrange(i, e) =~= seq![src[i]] + src.subrange(i + 1, e));
        assert(src[i] != '"' && src[i] != '/');
    } else {
        assert(src.subrange(i, e) =~= Seq::<char>::empty());
    }
}

proof fn lemma_until_run(src: Seq<char>, j: int, stop: char)
    requires
        0 <= j <= src.len(),
    ensures
        forall|k: int| j <= k < j + until_len(src, j, stop) ==> #[trigger] src[k] != stop,
        j + until_len(src, j, stop) < src.len() ==> src[j + until_len(src, j, stop)] == stop,
        j + until_len(src, j, stop) <= src.len(),
    decreases src.len() - j,
{
    if j < src.len() && src[j] != stop {
        lemma_until_run(src, j + 1, stop);
    }
}

proof fn lemma_string_run(src: Seq<char>, j: int, e: int)
    requires
        0 <= j <= e <= src.len(),
        forall|k: int| j <= k < e ==> #[trigger] src[k] != '"',
        e < src.len() ==> src[e] == '"',
    ensures
        e < src.len() ==> strip_comments(src, j, true) == src.subrange(j, e + 1) + strip_comments(
            src,
            e + 1,
            false,
        ),
        e == src.len() ==> strip_comments(src, j, true) == src.subrange(j, e),
    decreases e - j,
{
    if j < e {
        lemma_string_run(src, j + 1, e);
        assert(src[j] != '"');
        if e < src.len() {
            assert(src.subrange(j, e + 1) =~= seq![src[j]] + src.subrange(j + 1, e + 1));
        } else {
            assert(src.subrange(j, e) =~= seq![src[j]] + src.subrange(j + 1, e));
        }
    } else if e < src.len() {
        assert(src.subrange(j, e + 1) =~= seq![src[e]]);
    } else {
        assert(src.subrange(j, e) =~= Seq::<char>::empty());
    }
}

proof fn lemma_ident_run(src: Seq<char>, j: int)
    requires
        0 <= j,
    ensures
        forall|k: int| j <= k < j + ident_len(src, j) ==> is_ident_char(#[trigger] src[k]),
    decreases src.len() - j,
{
    if 0 <= j < src.len() && is_ident_char(src[j]) {
        lemma_ident_run(src, j + 1);
    }
}

proof fn lemma_number_run(src: Seq<char>, i: int, line: nat)
    requires
        0 <= i < src.len(),
        is_digit(src[i]),
    ensures
        forall|k: int| i <= k < scan_number(src, i, line).next ==> (is_digit(#[trigger] src[k]) || src[k] == '.'),
        scan_number(src, i, line).next <= src.len(),
{
    lemma_digits_run(src, i + 1);
    lemma_run_bounds(src, i + 1, '"');
    let a = i + 1 + digits_len(src, i + 1);
    if a + 1 < src.len() && src[a] == '.' && is_digit(src[a + 1]) {
        lemma_digits_run(src, a + 1);
        lemma_run_bounds(src, a + 1, '"');
        let b = a + 1 + digits_len(src, a + 1);
        if b + 1 < src.len() && src[b] == '.' && is_digit(src[b + 1]) {
            lemma_digits_run(src, b + 1);
            lemma_run_bounds(src, b + 1, '"');
        }
    }
}

proof fn lemma_step(src: Seq<char>, i: int, line: nat)
    requires
        0 <= i < src.len(),
    ensures
        strip_comments(src, i, false) == step_text(src, i, line) + strip_comments(
            src,
            scan(src, i, line).next,
            false,
        ),
{
    let c = src[i];
    let s = scan(src, i, line);
    lemma_scan_advances(src, i, line);
    if c == '"' {
        lemma_until_run(src, i + 1, '"');
        let e = i + 1 + until_len(src, i + 1, '"');
        lemma_string_run(src, i + 1, e);
        if e < src.len() {
            assert(src.subrange(i, e + 1) =~= seq!['"'] + src.subrange(i + 1, e) + seq!['"']);
            assert(seq![src[i]] + src.subrange(i + 1, e + 1) =~= src.subrange(i, e + 1));
        } else {
            assert(seq![src[i]] + src.subrange(i + 1, e) =~= src.subrange(i, e));
        }
    } else if c == '/' && i + 1 < src.len() && src[i + 1] == '/' {
    } else if c == '/' {
        assert(src.subrange(i, i + 1) =~= seq![src[i]]);
    } else if is_digit(c) {
        lemma_number_run(src, i, line);
        lemma_plain_run(src, i, s.next);
    } else if is_alpha(c) {
        lemma_ident_run(src, i + 1);
        lemma_run_bounds(src, i + 1, '"');
        let e = i + 1 + ident_len(src, i + 1);
        assert forall|k: int| i <= k < e implies #[trigger] src[k] != '"' && src[k] != '/' by {
            if k > i {
                assert(is_ident_char(src[k]));
            }
        }
        lemma_plain_run(src, i, e);
    } else if (c == '=' || c == '!' || c == '<' || c == '>') && i + 1 < src.len() && src[i + 1] == '=' {
        lemma_plain_run(src, i, i + 2);
    } else {
        lemma_plain_run(src, i, i + 1);
    }
}

proof fn lemma_lexed_text(src: Seq<char>, i: int, line: nat)
    requires
        0 <= i,
    ensures
        lexed_text(src, i, line) == strip_comments(src, i, false),
    decreases src.len() - i,
{
    if i < src.len() {
        lemma_scan_advances(src, i, line);
        let s = scan(src, i, line);
        lemma_step(src, i, line);
        lemma_lexed_text(src, s.next, s.line);
    }
}

/// The lexer accounts for every character outside comments: the source
/// forms of the lexemes it emits, in order, with the whitespace and the
/// erroneous text it passes over between them, make up the source with
/// its comments removed.
pub proof fn lemma_lexemes_rebuild_source(src: Seq<char>)
    ensures
        lexed_text(src, 0, 1) == strip_comments(src, 0, false),
{
    lemma_lexed_text(src, 0, 1);
}

proof fn lemma_scan_lines(src: Seq<char>, i: int, line: nat)
    requires
        0 <= i < src.len(),
    ensures
        scan(src, i, line).line >= line,
        scan(src, i, line).lexeme matches Some(l) ==> l.line == line && l.token != Token::EOF,
{
}

/// The lexemes of a source from position `i` on: only the last is `EOF`,
/// and their lines never decrease, starting from `line`.
pub proof fn lemma_lex_shape(src: Seq<char>, i: int, line: nat)
    ensures
        forall|k: int|
            0 <= k < lex_from(src, i, line).0.len() - 1 ==> #[trigger] lex_from(
                src,
                i,
                line,
            ).0[k].token != Token::EOF,
        forall|j: int, k: int|
            0 <= j <= k < lex_from(src, i, line).0.len() ==> line <= #[trigger] lex_from(
                src,
                i,
                line,
            ).0[j].line <= #[trigger] lex_from(src, i, line).0[k].line,
    decreases src.len() - i,
{
    if !(i < 0 || i >= src.len()) {
        lemma_scan_advances(src, i, line);
        lemma_scan_lines(src, i, line);
        let s = scan(src, i, line);
        lemma_lex_shape(src, s.next, s.line);
        lemma_lex_ends_with_eof(src, s.next, s.line);
        let rest = lex_from(src, s.next, s.line).0;
        let all = lex_from(src, i, line).0;
        assert(all == opt_seq(s.lexeme) + rest);
        if let Some(l) = s.lexeme {
            assert forall|k: int| 0 <= k < all.len() - 1 implies #[trigger] all[k].token
                != Token::EOF by {
                if k > 0 {
                    assert(all[k] == rest[k - 1]);
                }
            }
            assert forall|j: int, k: int| 0 <= j <= k < all.len() implies line <= #[trigger] all[j].line
                <= #[trigger] all[k].line by {
                if j > 0 {
                    assert(all[j] == rest[j - 1]);
                }
                if k > 0 {
                    assert(all[k] == rest[k - 1]);
                    assert(s.line <= rest[0].line);
                }
            }
        } else {
            assert(all =~= rest);
        }
    }
}

/// The lexemes of a whole source: exactly one `EOF`, the last, and lines
/// that start at 1 and never decrease.
pub proof fn lemma_lexemes_well_formed(src: Seq<char>)
    ensures
        lex(src).0.len() >= 1,
        lex(src).0.last().token == Token::EOF,
        forall|k: int| 0 <= k < lex(src).0.len() - 1 ==> #[trigger] lex(src).0[k].token != Token::EOF,
        forall|j: int, k: int|
            0 <= j <= k < lex(src).0.len() ==> 1 <= #[trigger] lex(src).0[j].line
                <= #[trigger] lex(src).0[k].line,
{
    lemma_lex_ends_with_eof(src, 0, 1);
    lemma_lex_shape(src, 0, 1);
}

} // verus!
