//! The syntax tree shared by the parser and the evaluator, and what each
//! node denotes as a mathematical value.

use vstd::prelude::*;
use std::rc::Rc;
use crate::number::Number;

verus! {

#[derive(Clone, Copy, Debug, PartialEq, Eq, Structural)]
pub enum Unary {
    Minus,
    Bang,
}

#[derive(Clone, Copy, Debug, PartialEq, Eq, Structural)]
pub enum Operator {
    EqualEqual,
    BangEqual,
    Less,
    LessEqual,
    Greater,
    GreaterEqual,
    Slash,
    Star,
    Minus,
    Plus,
    Or,
    And,
}

/// An expression; the nodes that can fail at run time carry the line of
/// their operator or name.
#[derive(Debug)]
pub enum Expression {
    Binary(Box<Expression>, Operator, Box<Expression>, usize),
    Unary(Unary, Box<Expression>, usize),
    Primary(Primary),
    Assignment(String, Box<Expression>, usize),
}

#[derive(Debug)]
pub enum Primary {
    Number(Number),
    String(String),
    True,
    False,
    Nil,
    Grouping(Box<Expression>),
    Identifier(String, usize),
    Call(String, Vec<Expression>, usize),
}

/// A function declaration: its name, parameter names and body.
#[derive(Debug)]
pub struct Function {
    pub name: String,
    pub params: Vec<String>,
    pub body: Vec<Statement>,
}

#[derive(Debug)]
pub enum Statement {
    Expression(Expression),
    Print(Expression),
    Declaration(String, Expression),
    Block(Vec<Statement>),
    IfElse(Expression, Box<Statement>, Option<Box<Statement>>),
    While(Expression, Box<Statement>),
    For(Option<Box<Statement>>, Option<Expression>, Option<Expression>, Box<Statement>),
    Fn(Rc<Function>),
    Return(Expression),
}

/// What an expression denotes.
pub enum ExprV {
    Binary(Box<ExprV>, Operator, Box<ExprV>, nat),
    Unary(Unary, Box<ExprV>, nat),
    Number(Number),
    Str(Seq<char>),
    True,
    False,
    Nil,
    Grouping(Box<ExprV>),
    Identifier(Seq<char>, nat),
    Call(Seq<char>, Seq<ExprV>, nat),
    Assignment(Seq<char>, Box<ExprV>, nat),
}

pub struct FunctionV {
    pub name: Seq<char>,
    pub params: Seq<Seq<char>>,
    pub body: Seq<StmtV>,
}

/// What a statement denotes.
pub enum StmtV {
    Expression(ExprV),
    Print(ExprV),
    Declaration(Seq<char>, ExprV),
    Block(Seq<StmtV>),
    IfElse(ExprV, Box<StmtV>, Option<Box<StmtV>>),
    While(ExprV, Box<StmtV>),
    For(Option<Box<StmtV>>, Option<ExprV>, Option<ExprV>, Box<StmtV>),
    Fn(FunctionV),
    Return(ExprV),
}

pub open spec fn names_view(ns: Seq<String>) -> Seq<Seq<char>> {
    ns.map_values(|n: String| n@)
}

pub open spec fn expr_view(e: Expression) -> ExprV
    decreases e,
{
    match e {
        Expression::Binary(l, op, r, line) => ExprV::Binary(
            Box::new(expr_view(*l)),
            op,
            Box::new(expr_view(*r)),
            line as nat,
        ),
        Expression::Unary(op, x, line) => ExprV::Unary(op, Box::new(expr_view(*x)), line as nat),
        Expression::Assignment(n, x, line) => ExprV::Assignment(
            n@,
            Box::new(expr_view(*x)),
            line as nat,
        ),
        Expression::Primary(p) => match p {
            Primary::Number(n) => ExprV::Number(n),
            Primary::String(s) => ExprV::Str(s@),
            Primary::True => ExprV::True,
            Primary::False => ExprV::False,
            Primary::Nil => ExprV::Nil,
            Primary::Grouping(x) => ExprV::Grouping(Box::new(expr_view(*x))),
            Primary::Identifier(n, line) => ExprV::Identifier(n@, line as nat),
            Primary::Call(n, args, line) => ExprV::Call(
                n@,
                exprs_view(args@, args@.len() as int),
                line as nat,
            ),
        },
    }
}

/// The views of the first `k` expressions of `es`.
pub open spec fn exprs_view(es: Seq<Expression>, k: int) -> Seq<ExprV>
    decreases es, k,
{
    if k <= 0 || k > es.len() {
        Seq::empty()
    } else {
        exprs_view(es, k - 1).push(expr_view(es[k - 1]))
    }
}

pub open spec fn opt_expr_view(e: Option<Expression>) -> Option<ExprV> {
    match e {
        Some(x) => Some(expr_view(x)),
        None => None,
    }
}

pub open spec fn stmt_view(s: Statement) -> StmtV
    decreases s,
{
    match s {
        Statement::Expression(e) => StmtV::Expression(expr_view(e)),
        Statement::Print(e) => StmtV::Print(expr_view(e)),
        Statement::Declaration(n, e) => StmtV::Declaration(n@, expr_view(e)),
        Statement::Block(b) => StmtV::Block(stmts_view(b@, b@.len() as int)),
        Statement::IfElse(c, t, e) => StmtV::IfElse(
            expr_view(c),
            Box::new(stmt_view(*t)),
            match e {
                Some(x) => Some(Box::new(stmt_view(*x))),
                None => None,
            },
        ),
        Statement::While(c, b) => StmtV::While(expr_view(c), Box::new(stmt_view(*b))),
        Statement::For(i, c, n, b) => StmtV::For(
            match i {
                Some(x) => Some(Box::new(stmt_view(*x))),
                None => None,
            },
            opt_expr_view(c),
            opt_expr_view(n),
            Box::new(stmt_view(*b)),
        ),
        Statement::Fn(f) => StmtV::Fn(
            FunctionV {
                name: f.name@,
                params: names_view(f.params@),
                body: stmts_view(f.body@, f.body@.len() as int),
            },
        ),
        Statement::Return(e) => StmtV::Return(expr_view(e)),
    }
}

/// The views of the first `k` statements of `ss`.
pub open spec fn stmts_view(ss: Seq<Statement>, k: int) -> Seq<StmtV>
    decreases ss, k,
{
    if k <= 0 || k > ss.len() {
        Seq::empty()
    } else {
        stmts_view(ss, k - 1).push(stmt_view(ss[k - 1]))
    }
}

pub open spec fn function_view(f: Function) -> FunctionV {
    FunctionV {
        name: f.name@,
        params: names_view(f.params@),
        body: stmts_view(f.body@, f.body@.len() as int),
    }
}

pub proof fn lemma_exprs_view_prefix(s: Seq<Expression>, t: Seq<Expression>, k: int)
    requires
        0 <= k <= s.len() <= t.len(),
        s == t.subrange(0, s.len() as int),
    ensures
        exprs_view(s, k) == exprs_view(t, k),
    decreases k,
{
    if k > 0 {
        lemma_exprs_view_prefix(s, t, k - 1);
        assert(s[k - 1] == t[k - 1]);
    }
}

/// Pushing an expression pushes its view.
pub proof fn lemma_exprs_view_push(s: Seq<Expression>, e: Expression)
    ensures
        exprs_view(s.push(e), s.len() + 1int) == exprs_view(s, s.len() as int).push(expr_view(e)),
{
    assert(s =~= s.push(e).subrange(0, s.len() as int));
    lemma_exprs_view_prefix(s, s.push(e), s.len() as int);
    assert(s.push(e)[s.len() as int] == e);
}

pub proof fn lemma_stmts_view_prefix(s: Seq<Statement>, t: Seq<Statement>, k: int)
    requires
        0 <= k <= s.len() <= t.len(),
        s == t.subrange(0, s.len() as int),
    ensures
        stmts_view(s, k) == stmts_view(t, k),
    decreases k,
{
    if k > 0 {
        lemma_stmts_view_prefix(s, t, k - 1);
        assert(s[k - 1] == t[k - 1]);
    }
}

/// Pushing a statement pushes its view.
pub proof fn lemma_stmts_view_push(s: Seq<Statement>, e: Statement)
    ensures
        stmts_view(s.push(e), s.len() + 1int) == stmts_view(s, s.len() as int).push(stmt_view(e)),
{
    assert(s =~= s.push(e).subrange(0, s.len() as int));
    lemma_stmts_view_prefix(s, s.push(e), s.len() as int);
    assert(s.push(e)[s.len() as int] == e);
}

/// The views of all expressions of `es`.
pub open spec fn all_exprs_view(es: Seq<Expression>) -> Seq<ExprV> {
    exprs_view(es, es.len() as int)
}

/// The views of all statements of `ss`.
pub open spec fn all_stmts_view(ss: Seq<Statement>) -> Seq<StmtV> {
    stmts_view(ss, ss.len() as int)
}

pub proof fn lemma_exprs_view_index(es: Seq<Expression>, k: int, i: int)
    requires
        0 <= i < k <= es.len(),
    ensures
        exprs_view(es, k).len() == k,
        exprs_view(es, k)[i] == expr_view(es[i]),
    decreases k,
{
    if k - 1 > i {
        lemma_exprs_view_index(es, k - 1, i);
    } else {
        lemma_exprs_view_len(es, k - 1);
    }
}

pub proof fn lemma_exprs_view_len(es: Seq<Expression>, k: int)
    requires
        0 <= k <= es.len(),
    ensures
        exprs_view(es, k).len() == k,
    decreases k,
{
    if k > 0 {
        lemma_exprs_view_len(es, k - 1);
    }
}

pub proof fn lemma_stmts_view_index(ss: Seq<Statement>, k: int, i: int)
    requires
        0 <= i < k <= ss.len(),
    ensures
        stmts_view(ss, k).len() == k,
        stmts_view(ss, k)[i] == stmt_view(ss[i]),
    decreases k,
{
    if k - 1 > i {
        lemma_stmts_view_index(ss, k - 1, i);
    } else {
        lemma_stmts_view_len(ss, k - 1);
    }
}

pub proof fn lemma_stmts_view_len(ss: Seq<Statement>, k: int)
    requires
        0 <= k <= ss.len(),
    ensures
        stmts_view(ss, k).len() == k,
    decreases k,
{
    if k > 0 {
        lemma_stmts_view_len(ss, k - 1);
    }
}

} // verus!
