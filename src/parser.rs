//! The recursive-descent parser, proved to follow the grammar of
//! `grammar.rs`.

use vstd::prelude::*;
use std::rc::Rc;
use crate::ast::{
    Expression, ExprV, Function, Operator, Primary, Statement, StmtV, Unary, all_exprs_view,
    all_stmts_view, expr_view, lemma_exprs_view_push, lemma_stmts_view_push, names_view,
    opt_expr_view, stmt_view,
};
use crate::grammar::{
    MAX_DEPTH, PExpr, PStmt, ParseError, ParseErrorKind, at, err_at, kind_at, op_at, p_args,
    p_assignment, p_binary, p_binary_rest, p_block_rest, p_condition, p_expr_stmt, p_expression,
    p_exprs_rest, p_for_clause, p_for_init, p_params, p_primary, p_program_rest, p_statement,
    p_unary, p_var_decl, parse_expressions, parse_program, program_lines, then_semi,
};
use crate::token::{Lexeme, LexemeV, Token, lexemes_view};

verus! {

/// Lexemes and a read position; the last lexeme is `EOF`.
pub struct TokenStream {
    pub tokens: Vec<Lexeme>,
    pub pos: usize,
}

pub open spec fn expr_result(r: Result<Expression, ParseError>, pos: int, s: PExpr) -> bool {
    match s {
        Ok((e, p)) => r is Ok && expr_view(r->Ok_0) == e && pos == p,
        Err(err) => r is Err && r->Err_0 == err,
    }
}

pub open spec fn stmt_result(r: Result<Statement, ParseError>, pos: int, s: PStmt) -> bool {
    match s {
        Ok((e, p)) => r is Ok && stmt_view(r->Ok_0) == e && pos == p,
        Err(err) => r is Err && r->Err_0 == err,
    }
}

/// Token sequences that the parser accepts as input: they end with `EOF`.
pub open spec fn well_ended(ts: Seq<LexemeV>) -> bool {
    ts.len() >= 1 && ts.last().token == Token::EOF
}

impl TokenStream {
    pub open spec fn toks(&self) -> Seq<LexemeV> {
        lexemes_view(self.tokens@)
    }

    pub open spec fn wf(&self) -> bool {
        well_ended(self.toks()) && self.pos < self.tokens@.len()
    }

    /// A stream at the first of `tokens`.
    pub fn new(tokens: Vec<Lexeme>) -> (r: TokenStream)
        requires
            well_ended(lexemes_view(tokens@)),
        ensures
            r.wf(),
            r.tokens == tokens,
            r.pos == 0,
    {
        TokenStream { tokens, pos: 0 }
    }

    /// The lexeme at the read position.
    pub fn peek(&self) -> (r: &Lexeme)
        requires
            self.wf(),
        ensures
            r@ == at(self.toks(), self.pos as int),
    {
        &self.tokens[self.pos]
    }

    /// The kind of the lexeme `n` places after the read position (the last
    /// one past the end).
    pub fn kind_ahead(&self, n: usize) -> (r: Token)
        requires
            self.wf(),
        ensures
            r == kind_at(self.toks(), self.pos + n),
    {
        if n < self.tokens.len() - self.pos {
            self.tokens[self.pos + n].token
        } else {
            self.tokens[self.tokens.len() - 1].token
        }
    }

    pub fn is_at_end(&self) -> (r: bool)
        requires
            self.wf(),
        ensures
            r == (kind_at(self.toks(), self.pos as int) == Token::EOF),
    {
        self.tokens[self.pos].token == Token::EOF
    }

    /// Moves past the lexeme at the read position, which is not `EOF`.
    pub fn advance(&mut self)
        requires
            old(self).wf(),
            kind_at(old(self).toks(), old(self).pos as int) != Token::EOF,
        ensures
            final(self).wf(),
            final(self).tokens == old(self).tokens,
            final(self).pos == old(self).pos + 1,
    {
        let n = self.tokens.len();
        assert(self.toks().len() == n);
        assert(self.pos + 1 < n);
        self.pos = self.pos + 1;
    }

    pub fn peek_is(&self, expected: Token) -> (r: bool)
        requires
            self.wf(),
        ensures
            r == (kind_at(self.toks(), self.pos as int) == expected),
    {
        self.tokens[self.pos].token == expected
    }

    /// Moves past the next lexeme where it is of kind `expected` (not `EOF`).
    pub fn match_advance(&mut self, expected: Token) -> (r: bool)
        requires
            old(self).wf(),
            expected != Token::EOF,
        ensures
            final(self).wf(),
            final(self).tokens == old(self).tokens,
            r == (kind_at(old(self).toks(), old(self).pos as int) == expected),
            final(self).pos == old(self).pos + if r {
                1int
            } else {
                0int
            },
    {
        if self.peek_is(expected) {
            self.advance();
            true
        } else {
            false
        }
    }

    /// The error `k` at the line of the next lexeme.
    pub fn error(&self, k: ParseErrorKind) -> (r: ParseError)
        requires
            self.wf(),
        ensures
            r == err_at(self.toks(), self.pos as int, k),
    {
        ParseError { kind: k, line: self.tokens[self.pos].line }
    }

    /// Moves past the next lexeme if it is of kind `expected` (not `EOF`),
    /// else the error `k` there.
    pub fn consume(&mut self, expected: Token, k: ParseErrorKind) -> (r: Result<(), ParseError>)
        requires
            old(self).wf(),
            expected != Token::EOF,
        ensures
            final(self).wf(),
            final(self).tokens == old(self).tokens,
            kind_at(old(self).toks(), old(self).pos as int) == expected ==> r is Ok
                && final(self).pos == old(self).pos + 1,
            kind_at(old(self).toks(), old(self).pos as int) != expected ==> r == Err::<(), ParseError>(
                err_at(old(self).toks(), old(self).pos as int, k),
            ) && final(self).pos == old(self).pos,
    {
        if self.peek_is(expected) {
            self.advance();
            Ok(())
        } else {
            Err(self.error(k))
        }
    }

    /// The name of the next lexeme, an identifier, moving past it; else
    /// `ExpectIdentifier` there.
    pub fn consume_identifier(&mut self) -> (r: Result<String, ParseError>)
        requires
            old(self).wf(),
        ensures
            final(self).wf(),
            final(self).tokens == old(self).tokens,
            kind_at(old(self).toks(), old(self).pos as int) == Token::Identifier ==> r is Ok
                && r->Ok_0@ == at(old(self).toks(), old(self).pos as int).text && final(self).pos
                == old(self).pos + 1,
            kind_at(old(self).toks(), old(self).pos as int) != Token::Identifier ==> r == Err::<
                String,
                ParseError,
            >(err_at(old(self).toks(), old(self).pos as int, ParseErrorKind::ExpectIdentifier))
                && final(self).pos == old(self).pos,
    {
        if self.peek_is(Token::Identifier) {
            let name = self.tokens[self.pos].text.clone();
            self.advance();
            Ok(name)
        } else {
            Err(self.error(ParseErrorKind::ExpectIdentifier))
        }
    }
}

fn op_of(lvl: usize, t: Token) -> (r: Option<Operator>)
    ensures
        r == op_at(lvl as nat, t),
{
    if lvl == 6 && t == Token::Or {
        Some(Operator::Or)
    } else if lvl == 5 && t == Token::And {
        Some(Operator::And)
    } else if lvl == 4 && t == Token::EqualEqual {
        Some(Operator::EqualEqual)
    } else if lvl == 4 && t == Token::BangEqual {
        Some(Operator::BangEqual)
    } else if lvl == 3 && t == Token::Less {
        Some(Operator::Less)
    } else if lvl == 3 && t == Token::LessEqual {
        Some(Operator::LessEqual)
    } else if lvl == 3 && t == Token::Greater {
        Some(Operator::Greater)
    } else if lvl == 3 && t == Token::GreaterEqual {
        Some(Operator::GreaterEqual)
    } else if lvl == 2 && t == Token::Plus {
        Some(Operator::Plus)
    } else if lvl == 2 && t == Token::Minus {
        Some(Operator::Minus)
    } else if lvl == 1 && t == Token::Star {
        Some(Operator::Star)
    } else if lvl == 1 && t == Token::Slash {
        Some(Operator::Slash)
    } else {
        None
    }
}

fn expression(ts: &mut TokenStream, d: usize) -> (r: Result<Expression, ParseError>)
    requires
        old(ts).wf(),
    ensures
        final(ts).wf(),
        final(ts).tokens == old(ts).tokens,
        expr_result(r, final(ts).pos as int, p_expression(old(ts).toks(), old(ts).pos as int, d as nat)),
    decreases d, 21nat, 0int,
{
    assignment(ts, d)
}

fn assignment(ts: &mut TokenStream, d: usize) -> (r: Result<Expression, ParseError>)
    requires
        old(ts).wf(),
    ensures
        final(ts).wf(),
        final(ts).tokens == old(ts).tokens,
        expr_result(r, final(ts).pos as int, p_assignment(old(ts).toks(), old(ts).pos as int, d as nat)),
    decreases d, 20nat, 0int,
{
    if d == 0 {
        return Err(ts.error(ParseErrorKind::TooDeep));
    }
    let left = match binary(ts, 6, d) {
        Ok(e) => e,
        Err(e) => return Err(e),
    };
    if ts.peek_is(Token::Equal) {
        match left {
            Expression::Primary(Primary::Identifier(name, line)) => {
                ts.advance();
                match assignment(ts, d - 1) {
                    Ok(v) => Ok(Expression::Assignment(name, Box::new(v), line)),
                    Err(e) => Err(e),
                }
            },
            _ => Err(ts.error(ParseErrorKind::InvalidAssignmentTarget)),
        }
    } else {
        Ok(left)
    }
}

fn binary(ts: &mut TokenStream, lvl: usize, d: usize) -> (r: Result<Expression, ParseError>)
    requires
        old(ts).wf(),
        lvl <= 6,
    ensures
        final(ts).wf(),
        final(ts).tokens == old(ts).tokens,
        expr_result(
            r,
            final(ts).pos as int,
            p_binary(old(ts).toks(), old(ts).pos as int, lvl as nat, d as nat),
        ),
    decreases d, 4 + 2 * lvl, 0int,
{
    if lvl == 0 {
        unary(ts, d)
    } else {
        match binary(ts, lvl - 1, d) {
            Err(e) => Err(e),
            Ok(left) => binary_rest(ts, lvl, d, left),
        }
    }
}

fn binary_rest(ts: &mut TokenStream, lvl: usize, d: usize, left: Expression) -> (r: Result<
    Expression,
    ParseError,
>)
    requires
        old(ts).wf(),
        lvl <= 6,
    ensures
        final(ts).wf(),
        final(ts).tokens == old(ts).tokens,
        expr_result(
            r,
            final(ts).pos as int,
            p_binary_rest(old(ts).toks(), old(ts).pos as int, lvl as nat, d as nat, expr_view(left)),
        ),
    decreases d, 3 + 2 * lvl, 0int,
{
    match op_of(lvl, ts.kind_ahead(0)) {
        None => Ok(left),
        Some(op) => {
            if d == 0 || lvl == 0 {
                return Err(ts.error(ParseErrorKind::TooDeep));
            }
            let line = ts.peek().line;
            ts.advance();
            match binary(ts, lvl - 1, d - 1) {
                Err(e) => Err(e),
                Ok(right) => binary_rest(
                    ts,
                    lvl,
                    d - 1,
                    Expression::Binary(Box::new(left), op, Box::new(right), line),
                ),
            }
        },
    }
}

fn unary(ts: &mut TokenStream, d: usize) -> (r: Result<Expression, ParseError>)
    requires
        old(ts).wf(),
    ensures
        final(ts).wf(),
        final(ts).tokens == old(ts).tokens,
        expr_result(r, final(ts).pos as int, p_unary(old(ts).toks(), old(ts).pos as int, d as nat)),
    decreases d, 2nat, 0int,
{
    let k = ts.kind_ahead(0);
    if k == Token::Bang || k == Token::Minus {
        if d == 0 {
            return Err(ts.error(ParseErrorKind::TooDeep));
        }
        let line = ts.peek().line;
        ts.advance();
        match unary(ts, d - 1) {
            Ok(x) => Ok(
                Expression::Unary(
                    if k == Token::Bang {
                        Unary::Bang
                    } else {
                        Unary::Minus
                    },
                    Box::new(x),
                    line,
                ),
            ),
            Err(e) => Err(e),
        }
    } else {
        primary(ts, d)
    }
}

fn primary(ts: &mut TokenStream, d: usize) -> (r: Result<Expression, ParseError>)
    requires
        old(ts).wf(),
    ensures
        final(ts).wf(),
        final(ts).tokens == old(ts).tokens,
        expr_result(r, final(ts).pos as int, p_primary(old(ts).toks(), old(ts).pos as int, d as nat)),
    decreases d, 1nat, 0int,
{
    let k = ts.kind_ahead(0);
    match k {
        Token::Number(n) => {
            ts.advance();
            Ok(Expression::Primary(Primary::Number(n)))
        },
        Token::String => {
            let s = ts.peek().text.clone();
            ts.advance();
            Ok(Expression::Primary(Primary::String(s)))
        },
        Token::True => {
            ts.advance();
            Ok(Expression::Primary(Primary::True))
        },
        Token::False => {
            ts.advance();
            Ok(Expression::Primary(Primary::False))
        },
        Token::Nil => {
            ts.advance();
            Ok(Expression::Primary(Primary::Nil))
        },
        Token::Identifier => {
            let name = ts.peek().text.clone();
            let line = ts.peek().line;
            if ts.kind_ahead(1) == Token::LeftParen {
                ts.advance();
                ts.advance();
                match arguments(ts, d) {
                    Ok(args) => Ok(Expression::Primary(Primary::Call(name, args, line))),
                    Err(e) => Err(e),
                }
            } else {
                ts.advance();
                Ok(Expression::Primary(Primary::Identifier(name, line)))
            }
        },
        Token::LeftParen => {
            if d == 0 {
                return Err(ts.error(ParseErrorKind::TooDeep));
            }
            ts.advance();
            match expression(ts, d - 1) {
                Ok(e) => {
                    if ts.peek_is(Token::RightParen) {
                        ts.advance();
                        Ok(Expression::Primary(Primary::Grouping(Box::new(e))))
                    } else {
                        Err(ts.error(ParseErrorKind::ExpectRightParen))
                    }
                },
                Err(e) => Err(e),
            }
        },
        _ => Err(ts.error(ParseErrorKind::ExpectExpression)),
    }
}

/// The arguments of a call, from just after its `(` through its `)`.
fn arguments(ts: &mut TokenStream, d: usize) -> (r: Result<Vec<Expression>, ParseError>)
    requires
        old(ts).wf(),
    ensures
        final(ts).wf(),
        final(ts).tokens == old(ts).tokens,
        match p_args(old(ts).toks(), old(ts).pos as int, d as nat, Seq::empty()) {
            Ok((args, p)) => r is Ok && all_exprs_view(r->Ok_0@) == args && final(ts).pos == p,
            Err(err) => r is Err && r->Err_0 == err,
        },
    decreases d, 0nat, 0int,
{
    let ghost toks = ts.toks();
    let ghost target = p_args(toks, ts.pos as int, d as nat, Seq::empty());
    let mut args: Vec<Expression> = Vec::new();
    assert(all_exprs_view(args@) =~= Seq::<ExprV>::empty());
    if ts.peek_is(Token::RightParen) {
        ts.advance();
        return Ok(args);
    }
    if d == 0 {
        return Err(ts.error(ParseErrorKind::TooDeep));
    }
    loop
        invariant
            ts.wf(),
            ts.toks() == toks,
            ts.tokens == old(ts).tokens,
            toks == old(ts).toks(),
            target == p_args(toks, old(ts).pos as int, d as nat, Seq::empty()),
            d >= 1,
            target == p_args(toks, ts.pos as int, d as nat, all_exprs_view(args@)),
            !(all_exprs_view(args@).len() == 0 && kind_at(toks, ts.pos as int) == Token::RightParen),
        decreases ts.tokens@.len() - ts.pos,
    {
        let start = ts.pos;
        let e = match expression(ts, d - 1) {
            Ok(e) => e,
            Err(e) => return Err(e),
        };
        proof {
            lemma_exprs_view_push(args@, e);
        }
        let ghost before = args@;
        args.push(e);
        assert(all_exprs_view(args@) == all_exprs_view(before).push(expr_view(e)));
        if ts.peek_is(Token::RightParen) {
            ts.advance();
            return Ok(args);
        } else if ts.peek_is(Token::Comma) && start <= ts.pos {
            ts.advance();
        } else {
            return Err(ts.error(ParseErrorKind::ExpectRightParen));
        }
    }
}

/// `s` followed by a `;`.
fn then_semi_exec(ts: &mut TokenStream, s: Statement) -> (r: Result<Statement, ParseError>)
    requires
        old(ts).wf(),
    ensures
        final(ts).wf(),
        final(ts).tokens == old(ts).tokens,
        stmt_result(r, final(ts).pos as int, then_semi(old(ts).toks(), old(ts).pos as int, stmt_view(s))),
{
    match ts.consume(Token::SemiColon, ParseErrorKind::ExpectSemicolon) {
        Ok(()) => Ok(s),
        Err(e) => Err(e),
    }
}

fn expr_stmt(ts: &mut TokenStream, d: usize) -> (r: Result<Statement, ParseError>)
    requires
        old(ts).wf(),
    ensures
        final(ts).wf(),
        final(ts).tokens == old(ts).tokens,
        stmt_result(r, final(ts).pos as int, p_expr_stmt(old(ts).toks(), old(ts).pos as int, d as nat)),
{
    match expression(ts, d) {
        Ok(e) => then_semi_exec(ts, Statement::Expression(e)),
        Err(e) => Err(e),
    }
}

fn var_decl(ts: &mut TokenStream, d: usize) -> (r: Result<Statement, ParseError>)
    requires
        old(ts).wf(),
    ensures
        final(ts).wf(),
        final(ts).tokens == old(ts).tokens,
        stmt_result(r, final(ts).pos as int, p_var_decl(old(ts).toks(), old(ts).pos as int, d as nat)),
{
    let name = match ts.consume_identifier() {
        Ok(n) => n,
        Err(e) => return Err(e),
    };
    if ts.match_advance(Token::Equal) {
        match expression(ts, d) {
            Ok(e) => then_semi_exec(ts, Statement::Declaration(name, e)),
            Err(e) => Err(e),
        }
    } else {
        then_semi_exec(ts, Statement::Declaration(name, Expression::Primary(Primary::Nil)))
    }
}

fn condition(ts: &mut TokenStream, d: usize) -> (r: Result<Expression, ParseError>)
    requires
        old(ts).wf(),
    ensures
        final(ts).wf(),
        final(ts).tokens == old(ts).tokens,
        expr_result(r, final(ts).pos as int, p_condition(old(ts).toks(), old(ts).pos as int, d as nat)),
{
    if let Err(e) = ts.consume(Token::LeftParen, ParseErrorKind::ExpectLeftParen) {
        return Err(e);
    }
    match expression(ts, d) {
        Ok(e) => match ts.consume(Token::RightParen, ParseErrorKind::ExpectRightParen) {
            Ok(()) => Ok(e),
            Err(err) => Err(err),
        },
        Err(e) => Err(e),
    }
}

/// Parameter names, from just after `(` through `)`.
fn params(ts: &mut TokenStream) -> (r: Result<Vec<String>, ParseError>)
    requires
        old(ts).wf(),
    ensures
        final(ts).wf(),
        final(ts).tokens == old(ts).tokens,
        match p_params(old(ts).toks(), old(ts).pos as int, Seq::empty()) {
            Ok((ps, p)) => r is Ok && names_view(r->Ok_0@) == ps && final(ts).pos == p,
            Err(err) => r is Err && r->Err_0 == err,
        },
{
    let ghost toks = ts.toks();
    let ghost target = p_params(toks, ts.pos as int, Seq::empty());
    let mut names: Vec<String> = Vec::new();
    assert(names_view(names@) =~= Seq::<Seq<char>>::empty());
    if ts.peek_is(Token::RightParen) {
        ts.advance();
        return Ok(names);
    }
    loop
        invariant
            ts.wf(),
            ts.tokens == old(ts).tokens,
            toks == old(ts).toks(),
            target == p_params(toks, old(ts).pos as int, Seq::empty()),
            target == p_params(toks, ts.pos as int, names_view(names@)),
            !(names_view(names@).len() == 0 && kind_at(toks, ts.pos as int) == Token::RightParen),
        decreases ts.tokens@.len() - ts.pos,
    {
        let name = match ts.consume_identifier() {
            Ok(n) => n,
            Err(e) => return Err(e),
        };
        let ghost before = names@;
        names.push(name);
        assert(names_view(names@) =~= names_view(before).push(name@));
        if ts.peek_is(Token::RightParen) {
            ts.advance();
            return Ok(names);
        } else if ts.peek_is(Token::Comma) {
            ts.advance();
        } else {
            return Err(ts.error(ParseErrorKind::ExpectRightParen));
        }
    }
}

fn for_init(ts: &mut TokenStream, d: usize) -> (r: Result<Option<Box<Statement>>, ParseError>)
    requires
        old(ts).wf(),
    ensures
        final(ts).wf(),
        final(ts).tokens == old(ts).tokens,
        match p_for_init(old(ts).toks(), old(ts).pos as int, d as nat) {
            Ok((s, p)) => r is Ok && final(ts).pos == p && match (r->Ok_0, s) {
                (Some(x), Some(y)) => stmt_view(*x) == *y,
                (None, None) => true,
                _ => false,
            },
            Err(err) => r is Err && r->Err_0 == err,
        },
{
    if ts.match_advance(Token::SemiColon) {
        return Ok(None);
    }
    let r = if ts.match_advance(Token::Var) {
        var_decl(ts, d)
    } else {
        expr_stmt(ts, d)
    };
    match r {
        Ok(s) => Ok(Some(Box::new(s))),
        Err(e) => Err(e),
    }
}

fn for_clause(ts: &mut TokenStream, d: usize, end: Token) -> (r: Result<Option<Expression>, ParseError>)
    requires
        old(ts).wf(),
        end == Token::SemiColon || end == Token::RightParen,
    ensures
        final(ts).wf(),
        final(ts).tokens == old(ts).tokens,
        match p_for_clause(old(ts).toks(), old(ts).pos as int, d as nat, end) {
            Ok((e, p)) => r is Ok && final(ts).pos == p && opt_expr_view(r->Ok_0) == e,
            Err(err) => r is Err && r->Err_0 == err,
        },
{
    let missing = if end == Token::SemiColon {
        ParseErrorKind::ExpectSemicolon
    } else {
        ParseErrorKind::ExpectRightParen
    };
    if ts.match_advance(end) {
        return Ok(None);
    }
    match expression(ts, d) {
        Ok(e) => match ts.consume(end, missing) {
            Ok(()) => Ok(Some(e)),
            Err(err) => Err(err),
        },
        Err(e) => Err(e),
    }
}

fn statement(ts: &mut TokenStream, d: usize) -> (r: Result<Statement, ParseError>)
    requires
        old(ts).wf(),
    ensures
        final(ts).wf(),
        final(ts).tokens == old(ts).tokens,
        stmt_result(r, final(ts).pos as int, p_statement(old(ts).toks(), old(ts).pos as int, d as nat)),
    decreases d, 3nat, 0int,
{
    let k = ts.kind_ahead(0);
    if d == 0 {
        return Err(ts.error(ParseErrorKind::TooDeep));
    }
    if k == Token::Print {
        ts.advance();
        match expression(ts, d - 1) {
            Ok(e) => then_semi_exec(ts, Statement::Print(e)),
            Err(e) => Err(e),
        }
    } else if k == Token::Var {
        ts.advance();
        var_decl(ts, d - 1)
    } else if k == Token::Return {
        ts.advance();
        if ts.match_advance(Token::SemiColon) {
            Ok(Statement::Return(Expression::Primary(Primary::Nil)))
        } else {
            match expression(ts, d - 1) {
                Ok(e) => then_semi_exec(ts, Statement::Return(e)),
                Err(e) => Err(e),
            }
        }
    } else if k == Token::If {
        if_statement(ts, d)
    } else if k == Token::While {
        while_statement(ts, d)
    } else if k == Token::For {
        for_statement(ts, d)
    } else if k == Token::Fun {
        fn_statement(ts, d)
    } else if k == Token::LeftBrace {
        ts.advance();
        match block_rest(ts, d - 1) {
            Ok(body) => Ok(Statement::Block(body)),
            Err(e) => Err(e),
        }
    } else {
        expr_stmt(ts, d - 1)
    }
}

#[verifier::rlimit(40)]
fn if_statement(ts: &mut TokenStream, d: usize) -> (r: Result<Statement, ParseError>)
    requires
        old(ts).wf(),
        d >= 1,
        kind_at(old(ts).toks(), old(ts).pos as int) == Token::If,
    ensures
        final(ts).wf(),
        final(ts).tokens == old(ts).tokens,
        stmt_result(r, final(ts).pos as int, p_statement(old(ts).toks(), old(ts).pos as int, d as nat)),
    decreases d, 2nat, 0int,
{
    ts.advance();
    let c = match condition(ts, d - 1) {
        Ok(c) => c,
        Err(e) => return Err(e),
    };
    let t = match statement(ts, d - 1) {
        Ok(t) => t,
        Err(e) => return Err(e),
    };
    if ts.match_advance(Token::Else) {
        match statement(ts, d - 1) {
            Ok(e) => Ok(Statement::IfElse(c, Box::new(t), Some(Box::new(e)))),
            Err(e) => Err(e),
        }
    } else {
        Ok(Statement::IfElse(c, Box::new(t), None))
    }
}

fn while_statement(ts: &mut TokenStream, d: usize) -> (r: Result<Statement, ParseError>)
    requires
        old(ts).wf(),
        d >= 1,
        kind_at(old(ts).toks(), old(ts).pos as int) == Token::While,
    ensures
        final(ts).wf(),
        final(ts).tokens == old(ts).tokens,
        stmt_result(r, final(ts).pos as int, p_statement(old(ts).toks(), old(ts).pos as int, d as nat)),
    decreases d, 2nat, 0int,
{
    ts.advance();
    let c = match condition(ts, d - 1) {
        Ok(c) => c,
        Err(e) => return Err(e),
    };
    match statement(ts, d - 1) {
        Ok(b) => Ok(Statement::While(c, Box::new(b))),
        Err(e) => Err(e),
    }
}

fn for_statement(ts: &mut TokenStream, d: usize) -> (r: Result<Statement, ParseError>)
    requires
        old(ts).wf(),
        d >= 1,
        kind_at(old(ts).toks(), old(ts).pos as int) == Token::For,
    ensures
        final(ts).wf(),
        final(ts).tokens == old(ts).tokens,
        stmt_result(r, final(ts).pos as int, p_statement(old(ts).toks(), old(ts).pos as int, d as nat)),
    decreases d, 2nat, 0int,
{
    ts.advance();
    if let Err(e) = ts.consume(Token::LeftParen, ParseErrorKind::ExpectLeftParen) {
        return Err(e);
    }
    let init = match for_init(ts, d - 1) {
        Ok(i) => i,
        Err(e) => return Err(e),
    };
    let cond = match for_clause(ts, d - 1, Token::SemiColon) {
        Ok(c) => c,
        Err(e) => return Err(e),
    };
    let step = match for_clause(ts, d - 1, Token::RightParen) {
        Ok(c) => c,
        Err(e) => return Err(e),
    };
    match statement(ts, d - 1) {
        Ok(b) => Ok(Statement::For(init, cond, step, Box::new(b))),
        Err(e) => Err(e),
    }
}

fn fn_statement(ts: &mut TokenStream, d: usize) -> (r: Result<Statement, ParseError>)
    requires
        old(ts).wf(),
        d >= 1,
        kind_at(old(ts).toks(), old(ts).pos as int) == Token::Fun,
    ensures
        final(ts).wf(),
        final(ts).tokens == old(ts).tokens,
        stmt_result(r, final(ts).pos as int, p_statement(old(ts).toks(), old(ts).pos as int, d as nat)),
    decreases d, 2nat, 0int,
{
    ts.advance();
    let name = match ts.consume_identifier() {
        Ok(n) => n,
        Err(e) => return Err(e),
    };
    if let Err(e) = ts.consume(Token::LeftParen, ParseErrorKind::ExpectLeftParen) {
        return Err(e);
    }
    let ps = match params(ts) {
        Ok(ps) => ps,
        Err(e) => return Err(e),
    };
    if let Err(e) = ts.consume(Token::LeftBrace, ParseErrorKind::ExpectLeftBrace) {
        return Err(e);
    }
    match block_rest(ts, d - 1) {
        Ok(body) => Ok(Statement::Fn(Rc::new(Function { name, params: ps, body }))),
        Err(e) => Err(e),
    }
}

/// The statements of a block, from just after its `{` through its `}`.
fn block_rest(ts: &mut TokenStream, d: usize) -> (r: Result<Vec<Statement>, ParseError>)
    requires
        old(ts).wf(),
    ensures
        final(ts).wf(),
        final(ts).tokens == old(ts).tokens,
        match p_block_rest(old(ts).toks(), old(ts).pos as int, d as nat, Seq::empty()) {
            Ok((ss, p)) => r is Ok && all_stmts_view(r->Ok_0@) == ss && final(ts).pos == p,
            Err(err) => r is Err && r->Err_0 == err,
        },
    decreases d, 4nat, 0int,
{
    let ghost toks = ts.toks();
    let ghost target = p_block_rest(toks, ts.pos as int, d as nat, Seq::empty());
    let mut body: Vec<Statement> = Vec::new();
    assert(all_stmts_view(body@) =~= Seq::<StmtV>::empty());
    loop
        invariant
            ts.wf(),
            ts.tokens == old(ts).tokens,
            toks == old(ts).toks(),
            target == p_block_rest(toks, old(ts).pos as int, d as nat, Seq::empty()),
            target == p_block_rest(toks, ts.pos as int, d as nat, all_stmts_view(body@)),
        decreases ts.tokens@.len() - ts.pos,
    {
        if ts.peek_is(Token::RightBrace) {
            ts.advance();
            return Ok(body);
        }
        if ts.is_at_end() {
            return Err(ts.error(ParseErrorKind::ExpectRightBrace));
        }
        let start = ts.pos;
        let s = match statement(ts, d) {
            Ok(s) => s,
            Err(e) => return Err(e),
        };
        if !(start < ts.pos) {
            return Err(ts.error(ParseErrorKind::ExpectRightBrace));
        }
        proof {
            lemma_stmts_view_push(body@, s);
        }
        let ghost before = body@;
        body.push(s);
        assert(all_stmts_view(body@) == all_stmts_view(before).push(stmt_view(s)));
    }
}

/// The statements of a program, given its lexemes ending with `EOF`; the
/// first parse error stops parsing.
pub fn parse_statements(tokens: Vec<Lexeme>) -> (r: Result<Vec<Statement>, ParseError>)
    requires
        well_ended(lexemes_view(tokens@)),
    ensures
        match parse_program(lexemes_view(tokens@)) {
            Ok(ss) => r is Ok && all_stmts_view(r->Ok_0@) == ss,
            Err(err) => r is Err && r->Err_0 == err,
        },
{
    let mut ts = TokenStream::new(tokens);
    let ghost toks = ts.toks();
    let mut program: Vec<Statement> = Vec::new();
    assert(all_stmts_view(program@) =~= Seq::<StmtV>::empty());
    while !ts.is_at_end()
        invariant
            ts.wf(),
            ts.toks() == toks,
            toks == lexemes_view(tokens@),
            parse_program(toks) == p_program_rest(toks, ts.pos as int, all_stmts_view(program@)),
        decreases ts.tokens@.len() - ts.pos,
    {
        let start = ts.pos;
        let s = match statement(&mut ts, MAX_DEPTH) {
            Ok(s) => s,
            Err(e) => return Err(e),
        };
        if !(start < ts.pos) {
            return Err(ts.error(ParseErrorKind::ExpectExpression));
        }
        proof {
            lemma_stmts_view_push(program@, s);
        }
        let ghost before = program@;
        program.push(s);
        assert(all_stmts_view(program@) == all_stmts_view(before).push(stmt_view(s)));
    }
    Ok(program)
}

/// The statements of a program, as `parse_statements` gives them, with
/// the line each one starts on.
pub fn parse_statements_with_lines(tokens: Vec<Lexeme>) -> (r: Result<
    (Vec<Statement>, Vec<usize>),
    ParseError,
>)
    requires
        well_ended(lexemes_view(tokens@)),
    ensures
        match parse_program(lexemes_view(tokens@)) {
            Ok(ss) => r is Ok && all_stmts_view(r->Ok_0.0@) == ss && r->Ok_0.1@.map_values(
                |l: usize| l as nat,
            ) == program_lines(lexemes_view(tokens@), 0, Seq::empty()),
            Err(err) => r is Err && r->Err_0 == err,
        },
{
    let mut ts = TokenStream::new(tokens);
    let ghost toks = ts.toks();
    let mut program: Vec<Statement> = Vec::new();
    let mut lines: Vec<usize> = Vec::new();
    assert(all_stmts_view(program@) =~= Seq::<StmtV>::empty());
    assert(lines@.map_values(|l: usize| l as nat) =~= Seq::<nat>::empty());
    while !ts.is_at_end()
        invariant
            ts.wf(),
            ts.toks() == toks,
            toks == lexemes_view(tokens@),
            parse_program(toks) == p_program_rest(toks, ts.pos as int, all_stmts_view(program@)),
            program_lines(toks, 0, Seq::empty()) == program_lines(
                toks,
                ts.pos as int,
                lines@.map_values(|l: usize| l as nat),
            ),
        decreases ts.tokens@.len() - ts.pos,
    {
        let start = ts.pos;
        let line = ts.peek().line;
        let s = match statement(&mut ts, MAX_DEPTH) {
            Ok(s) => s,
            Err(e) => return Err(e),
        };
        if !(start < ts.pos) {
            return Err(ts.error(ParseErrorKind::ExpectExpression));
        }
        proof {
            lemma_stmts_view_push(program@, s);
        }
        let ghost before = program@;
        let ghost lines_before = lines@;
        program.push(s);
        lines.push(line);
        assert(all_stmts_view(program@) == all_stmts_view(before).push(stmt_view(s)));
        assert(lines@.map_values(|l: usize| l as nat) =~= lines_before.map_values(|l: usize| l as nat).push(
            line as nat,
        ));
    }
    Ok((program, lines))
}

/// The expressions of a token sequence ending with `EOF`, each followed
/// by `;`; the first parse error stops parsing.
pub fn parse(tokens: Vec<Lexeme>) -> (r: Result<Vec<Expression>, ParseError>)
    requires
        well_ended(lexemes_view(tokens@)),
    ensures
        match parse_expressions(lexemes_view(tokens@)) {
            Ok(es) => r is Ok && all_exprs_view(r->Ok_0@) == es,
            Err(err) => r is Err && r->Err_0 == err,
        },
{
    let mut ts = TokenStream::new(tokens);
    let ghost toks = ts.toks();
    let mut list: Vec<Expression> = Vec::new();
    assert(all_exprs_view(list@) =~= Seq::<ExprV>::empty());
    while !ts.is_at_end()
        invariant
            ts.wf(),
            ts.toks() == toks,
            toks == lexemes_view(tokens@),
            parse_expressions(toks) == p_exprs_rest(toks, ts.pos as int, all_exprs_view(list@)),
        decreases ts.tokens@.len() - ts.pos,
    {
        let start = ts.pos;
        let e = match expression(&mut ts, MAX_DEPTH) {
            Ok(e) => e,
            Err(err) => return Err(err),
        };
        let end = ts.pos;
        if let Err(err) = ts.consume(Token::SemiColon, ParseErrorKind::ExpectSemicolon) {
            return Err(err);
        }
        if !(start <= end) {
            return Err(ts.error(ParseErrorKind::ExpectExpression));
        }
        proof {
            lemma_exprs_view_push(list@, e);
        }
        let ghost before = list@;
        list.push(e);
        assert(all_exprs_view(list@) == all_exprs_view(before).push(expr_view(e)));
    }
    Ok(list)
}

} // verus!
