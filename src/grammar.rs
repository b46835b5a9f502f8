//! The grammar as spec functions over token views: each returns what it
//! parsed and the position after it, or the first error.

use vstd::prelude::*;
use crate::ast::{ExprV, FunctionV, Operator, StmtV, Unary};
use crate::token::{LexemeV, Token, line_prefix, push_line_prefix};
use crate::text::push_str;

verus! {

/// How deeply constructs may nest before the parser gives up.
pub const MAX_DEPTH: usize = 200;

#[derive(Clone, Copy, Debug, PartialEq, Eq, Structural)]
pub enum ParseErrorKind {
    ExpectExpression,
    ExpectSemicolon,
    ExpectLeftParen,
    ExpectRightParen,
    ExpectLeftBrace,
    ExpectRightBrace,
    ExpectIdentifier,
    InvalidAssignmentTarget,
    TooDeep,
}

/// A parse error and the line of the token where it was found.
#[derive(Clone, Copy, Debug, PartialEq, Eq, Structural)]
pub struct ParseError {
    pub kind: ParseErrorKind,
    pub line: usize,
}

pub type PExpr = Result<(ExprV, int), ParseError>;

pub type PExprs = Result<(Seq<ExprV>, int), ParseError>;

pub type PStmt = Result<(StmtV, int), ParseError>;

pub type PStmts = Result<(Seq<StmtV>, int), ParseError>;

/// The lexeme at `p`; past the end, the last one.
pub open spec fn at(ts: Seq<LexemeV>, p: int) -> LexemeV {
    if 0 <= p < ts.len() {
        ts[p]
    } else {
        ts.last()
    }
}

pub open spec fn kind_at(ts: Seq<LexemeV>, p: int) -> Token {
    at(ts, p).token
}

pub open spec fn err_at(ts: Seq<LexemeV>, p: int, k: ParseErrorKind) -> ParseError {
    ParseError { kind: k, line: at(ts, p).line as usize }
}

/// The binary operator that `t` stands for at precedence level `lvl`:
/// 6 `or`, 5 `and`, 4 equality, 3 comparison, 2 addition, 1 multiplication.
pub open spec fn op_at(lvl: nat, t: Token) -> Option<Operator> {
    if lvl == 6 && t == Token::Or {
        Some(Operator::Or)
    } else if lvl == 5 && t == Token::And {
        Some(Operator::And)
    } else if lvl == 4 && t == Token::EqualEqual {
        Some(Operator::EqualEqual)
    } else if lvl == 4 && t == Token::BangEqual {
        Some(Operator::BangEqual)
    } else if lvl == 3 && t == Token::Less {
        Some(Operator::Less)
    } else if lvl == 3 && t == Token::LessEqual {
        Some(Operator::LessEqual)
    } else if lvl == 3 && t == Token::Greater {
        Some(Operator::Greater)
    } else if lvl == 3 && t == Token::GreaterEqual {
        Some(Operator::GreaterEqual)
    } else if lvl == 2 && t == Token::Plus {
        Some(Operator::Plus)
    } else if lvl == 2 && t == Token::Minus {
        Some(Operator::Minus)
    } else if lvl == 1 && t == Token::Star {
        Some(Operator::Star)
    } else if lvl == 1 && t == Token::Slash {
        Some(Operator::Slash)
    } else {
        None
    }
}

/// `expression := assignment`
pub open spec fn p_expression(ts: Seq<LexemeV>, p: int, d: nat) -> PExpr
    decreases d, 21nat, 0int,
{
    p_assignment(ts, p, d)
}

/// `assignment := IDENT "=" assignment | logic_or`
pub open spec fn p_assignment(ts: Seq<LexemeV>, p: int, d: nat) -> PExpr
    decreases d, 20nat, 0int,
{
    if d == 0 {
        Err(err_at(ts, p, ParseErrorKind::TooDeep))
    } else {
        match p_binary(ts, p, 6, d) {
            Err(e) => Err(e),
            Ok((left, j1)) => if kind_at(ts, j1) == Token::Equal {
                match left {
                    ExprV::Identifier(n, line) => match p_assignment(ts, j1 + 1, (d - 1) as nat) {
                        Ok((v, j2)) => Ok((ExprV::Assignment(n, Box::new(v), line), j2)),
                        Err(e) => Err(e),
                    },
                    _ => Err(err_at(ts, j1, ParseErrorKind::InvalidAssignmentTarget)),
                }
            } else {
                Ok((left, j1))
            },
        }
    }
}

/// Level `lvl` of the binary operators: operands of level `lvl - 1`
/// joined left to right; level 0 is `unary`.
pub open spec fn p_binary(ts: Seq<LexemeV>, p: int, lvl: nat, d: nat) -> PExpr
    decreases d, 4 + 2 * lvl, 0int,
{
    if lvl == 0 {
        p_unary(ts, p, d)
    } else {
        match p_binary(ts, p, (lvl - 1) as nat, d) {
            Err(e) => Err(e),
            Ok((left, j1)) => p_binary_rest(ts, j1, lvl, d, left),
        }
    }
}

/// The operators of level `lvl` and their right operands after `left`.
pub open spec fn p_binary_rest(ts: Seq<LexemeV>, p: int, lvl: nat, d: nat, left: ExprV) -> PExpr
    decreases d, 3 + 2 * lvl, 0int,
{
    match op_at(lvl, kind_at(ts, p)) {
        None => Ok((left, p)),
        Some(op) => if d == 0 || lvl == 0 {
            Err(err_at(ts, p, ParseErrorKind::TooDeep))
        } else {
            match p_binary(ts, p + 1, (lvl - 1) as nat, (d - 1) as nat) {
                Err(e) => Err(e),
                Ok((right, j2)) => p_binary_rest(
                    ts,
                    j2,
                    lvl,
                    (d - 1) as nat,
                    ExprV::Binary(Box::new(left), op, Box::new(right), at(ts, p).line),
                ),
            }
        },
    }
}

/// `unary := ("!" | "-") unary | call`
pub open spec fn p_unary(ts: Seq<LexemeV>, p: int, d: nat) -> PExpr
    decreases d, 2nat, 0int,
{
    let k = kind_at(ts, p);
    if k == Token::Bang || k == Token::Minus {
        if d == 0 {
            Err(err_at(ts, p, ParseErrorKind::TooDeep))
        } else {
            match p_unary(ts, p + 1, (d - 1) as nat) {
                Ok((x, j2)) => Ok(
                    (
                        ExprV::Unary(
                            if k == Token::Bang {
                                Unary::Bang
                            } else {
                                Unary::Minus
                            },
                            Box::new(x),
                            at(ts, p).line,
                        ),
                        j2,
                    ),
                ),
                Err(e) => Err(e),
            }
        }
    } else {
        p_primary(ts, p, d)
    }
}

/// A literal, a name, a call of a name, or a parenthesized expression.
pub open spec fn p_primary(ts: Seq<LexemeV>, p: int, d: nat) -> PExpr
    decreases d, 1nat, 0int,
{
    let l = at(ts, p);
    match l.token {
        Token::Number(n) => Ok((ExprV::Number(n), p + 1)),
        Token::String => Ok((ExprV::Str(l.text), p + 1)),
        Token::True => Ok((ExprV::True, p + 1)),
        Token::False => Ok((ExprV::False, p + 1)),
        Token::Nil => Ok((ExprV::Nil, p + 1)),
        Token::Identifier => if kind_at(ts, p + 1) == Token::LeftParen {
            match p_args(ts, p + 2, d, Seq::empty()) {
                Ok((args, j2)) => Ok((ExprV::Call(l.text, args, l.line), j2)),
                Err(e) => Err(e),
            }
        } else {
            Ok((ExprV::Identifier(l.text, l.line), p + 1))
        },
        Token::LeftParen => if d == 0 {
            Err(err_at(ts, p, ParseErrorKind::TooDeep))
        } else {
            match p_expression(ts, p + 1, (d - 1) as nat) {
                Ok((e, j2)) => if kind_at(ts, j2) == Token::RightParen {
                    Ok((ExprV::Grouping(Box::new(e)), j2 + 1))
                } else {
                    Err(err_at(ts, j2, ParseErrorKind::ExpectRightParen))
                },
                Err(e) => Err(e),
            }
        },
        _ => Err(err_at(ts, p, ParseErrorKind::ExpectExpression)),
    }
}

/// The arguments of a call from `p`, just after `(` or a `,`, having
/// read `acc`; through the closing `)`.
pub open spec fn p_args(ts: Seq<LexemeV>, p: int, d: nat, acc: Seq<ExprV>) -> PExprs
    decreases d, 0nat, ts.len() - p,
{
    if acc.len() == 0 && kind_at(ts, p) == Token::RightParen {
        Ok((acc, p + 1))
    } else if d == 0 {
        Err(err_at(ts, p, ParseErrorKind::TooDeep))
    } else {
        match p_expression(ts, p, (d - 1) as nat) {
            Err(e) => Err(e),
            Ok((e, j2)) => {
                let acc2 = acc.push(e);
                if kind_at(ts, j2) == Token::RightParen {
                    Ok((acc2, j2 + 1))
                } else if kind_at(ts, j2) == Token::Comma && p <= j2 < ts.len() {
                    p_args(ts, j2 + 1, d, acc2)
                } else {
                    Err(err_at(ts, j2, ParseErrorKind::ExpectRightParen))
                }
            },
        }
    }
}

/// `s` followed by a `;` at `p`.
pub open spec fn then_semi(ts: Seq<LexemeV>, p: int, s: StmtV) -> PStmt {
    if kind_at(ts, p) == Token::SemiColon {
        Ok((s, p + 1))
    } else {
        Err(err_at(ts, p, ParseErrorKind::ExpectSemicolon))
    }
}

/// An expression statement from `p`.
pub open spec fn p_expr_stmt(ts: Seq<LexemeV>, p: int, d: nat) -> PStmt {
    match p_expression(ts, p, d) {
        Ok((e, j2)) => then_semi(ts, j2, StmtV::Expression(e)),
        Err(e) => Err(e),
    }
}

/// `IDENT ( "=" expression )? ";"`, from just after `var`.
pub open spec fn p_var_decl(ts: Seq<LexemeV>, p: int, d: nat) -> PStmt {
    if kind_at(ts, p) != Token::Identifier {
        Err(err_at(ts, p, ParseErrorKind::ExpectIdentifier))
    } else if kind_at(ts, p + 1) == Token::Equal {
        match p_expression(ts, p + 2, d) {
            Ok((e, j2)) => then_semi(ts, j2, StmtV::Declaration(at(ts, p).text, e)),
            Err(e) => Err(e),
        }
    } else {
        then_semi(ts, p + 1, StmtV::Declaration(at(ts, p).text, ExprV::Nil))
    }
}

/// `"(" expression ")"`, from the `(`.
pub open spec fn p_condition(ts: Seq<LexemeV>, p: int, d: nat) -> PExpr {
    if kind_at(ts, p) != Token::LeftParen {
        Err(err_at(ts, p, ParseErrorKind::ExpectLeftParen))
    } else {
        match p_expression(ts, p + 1, d) {
            Ok((e, j2)) => if kind_at(ts, j2) == Token::RightParen {
                Ok((e, j2 + 1))
            } else {
                Err(err_at(ts, j2, ParseErrorKind::ExpectRightParen))
            },
            Err(e) => Err(e),
        }
    }
}

/// Parameter names from `p`, just after `(` or a `,`, having read `acc`;
/// through the closing `)`.
pub open spec fn p_params(ts: Seq<LexemeV>, p: int, acc: Seq<Seq<char>>) -> Result<
    (Seq<Seq<char>>, int),
    ParseError,
>
    decreases ts.len() - p,
{
    if acc.len() == 0 && kind_at(ts, p) == Token::RightParen {
        Ok((acc, p + 1))
    } else if kind_at(ts, p) != Token::Identifier {
        Err(err_at(ts, p, ParseErrorKind::ExpectIdentifier))
    } else {
        let acc2 = acc.push(at(ts, p).text);
        if kind_at(ts, p + 1) == Token::RightParen {
            Ok((acc2, p + 2))
        } else if kind_at(ts, p + 1) == Token::Comma && p < ts.len() {
            p_params(ts, p + 2, acc2)
        } else {
            Err(err_at(ts, p + 1, ParseErrorKind::ExpectRightParen))
        }
    }
}

/// The initializer clause of a `for`, from just after its `(`.
pub open spec fn p_for_init(ts: Seq<LexemeV>, p: int, d: nat) -> Result<
    (Option<Box<StmtV>>, int),
    ParseError,
> {
    let k = kind_at(ts, p);
    if k == Token::SemiColon {
        Ok((None, p + 1))
    } else {
        let r = if k == Token::Var {
            p_var_decl(ts, p + 1, d)
        } else {
            p_expr_stmt(ts, p, d)
        };
        match r {
            Ok((s, j2)) => Ok((Some(Box::new(s)), j2)),
            Err(e) => Err(e),
        }
    }
}

/// An optional expression from `p` followed by the token `end`.
pub open spec fn p_for_clause(ts: Seq<LexemeV>, p: int, d: nat, end: Token) -> Result<
    (Option<ExprV>, int),
    ParseError,
> {
    let missing = if end == Token::SemiColon {
        ParseErrorKind::ExpectSemicolon
    } else {
        ParseErrorKind::ExpectRightParen
    };
    if kind_at(ts, p) == end {
        Ok((None, p + 1))
    } else {
        match p_expression(ts, p, d) {
            Ok((e, j2)) => if kind_at(ts, j2) == end {
                Ok((Some(e), j2 + 1))
            } else {
                Err(err_at(ts, j2, missing))
            },
            Err(e) => Err(e),
        }
    }
}

/// A statement from `p`.
pub open spec fn p_statement(ts: Seq<LexemeV>, p: int, d: nat) -> PStmt
    decreases d, 3nat, 0int,
{
    let k = kind_at(ts, p);
    if d == 0 {
        Err(err_at(ts, p, ParseErrorKind::TooDeep))
    } else if k == Token::Print {
        match p_expression(ts, p + 1, (d - 1) as nat) {
            Ok((e, j2)) => then_semi(ts, j2, StmtV::Print(e)),
            Err(e) => Err(e),
        }
    } else if k == Token::Var {
        p_var_decl(ts, p + 1, (d - 1) as nat)
    } else if k == Token::Return {
        if kind_at(ts, p + 1) == Token::SemiColon {
            Ok((StmtV::Return(ExprV::Nil), p + 2))
        } else {
            match p_expression(ts, p + 1, (d - 1) as nat) {
                Ok((e, j2)) => then_semi(ts, j2, StmtV::Return(e)),
                Err(e) => Err(e),
            }
        }
    } else if k == Token::If {
        match p_condition(ts, p + 1, (d - 1) as nat) {
            Err(e) => Err(e),
            Ok((c, j2)) => match p_statement(ts, j2, (d - 1) as nat) {
                Err(e) => Err(e),
                Ok((t, j3)) => if kind_at(ts, j3) == Token::Else {
                    match p_statement(ts, j3 + 1, (d - 1) as nat) {
                        Ok((e, j4)) => Ok((StmtV::IfElse(c, Box::new(t), Some(Box::new(e))), j4)),
                        Err(e) => Err(e),
                    }
                } else {
                    Ok((StmtV::IfElse(c, Box::new(t), None), j3))
                },
            },
        }
    } else if k == Token::While {
        match p_condition(ts, p + 1, (d - 1) as nat) {
            Err(e) => Err(e),
            Ok((c, j2)) => match p_statement(ts, j2, (d - 1) as nat) {
                Ok((b, j3)) => Ok((StmtV::While(c, Box::new(b)), j3)),
                Err(e) => Err(e),
            },
        }
    } else if k == Token::For {
        if kind_at(ts, p + 1) != Token::LeftParen {
            Err(err_at(ts, p + 1, ParseErrorKind::ExpectLeftParen))
        } else {
            match p_for_init(ts, p + 2, (d - 1) as nat) {
                Err(e) => Err(e),
                Ok((init, j2)) => match p_for_clause(ts, j2, (d - 1) as nat, Token::SemiColon) {
                    Err(e) => Err(e),
                    Ok((cond, j3)) => match p_for_clause(
                        ts,
                        j3,
                        (d - 1) as nat,
                        Token::RightParen,
                    ) {
                        Err(e) => Err(e),
                        Ok((step, j4)) => match p_statement(ts, j4, (d - 1) as nat) {
                            Ok((b, j5)) => Ok((StmtV::For(init, cond, step, Box::new(b)), j5)),
                            Err(e) => Err(e),
                        },
                    },
                },
            }
        }
    } else if k == Token::Fun {
        if kind_at(ts, p + 1) != Token::Identifier {
            Err(err_at(ts, p + 1, ParseErrorKind::ExpectIdentifier))
        } else if kind_at(ts, p + 2) != Token::LeftParen {
            Err(err_at(ts, p + 2, ParseErrorKind::ExpectLeftParen))
        } else {
            match p_params(ts, p + 3, Seq::empty()) {
                Err(e) => Err(e),
                Ok((params, j2)) => if kind_at(ts, j2) != Token::LeftBrace {
                    Err(err_at(ts, j2, ParseErrorKind::ExpectLeftBrace))
                } else {
                    match p_block_rest(ts, j2 + 1, (d - 1) as nat, Seq::empty()) {
                        Ok((body, j3)) => Ok(
                            (
                                StmtV::Fn(FunctionV { name: at(ts, p + 1).text, params, body }),
                                j3,
                            ),
                        ),
                        Err(e) => Err(e),
                    }
                },
            }
        }
    } else if k == Token::LeftBrace {
        match p_block_rest(ts, p + 1, (d - 1) as nat, Seq::empty()) {
            Ok((body, j2)) => Ok((StmtV::Block(body), j2)),
            Err(e) => Err(e),
        }
    } else {
        p_expr_stmt(ts, p, (d - 1) as nat)
    }
}

/// The statements of a block from `p`, having read `acc`; through the
/// closing `}`.
pub open spec fn p_block_rest(ts: Seq<LexemeV>, p: int, d: nat, acc: Seq<StmtV>) -> PStmts
    decreases d, 4nat, ts.len() - p,
{
    let k = kind_at(ts, p);
    if k == Token::RightBrace {
        Ok((acc, p + 1))
    } else if k == Token::EOF {
        Err(err_at(ts, p, ParseErrorKind::ExpectRightBrace))
    } else {
        match p_statement(ts, p, d) {
            Err(e) => Err(e),
            Ok((s, j2)) => if p < j2 < ts.len() {
                p_block_rest(ts, j2, d, acc.push(s))
            } else {
                Err(err_at(ts, j2, ParseErrorKind::ExpectRightBrace))
            },
        }
    }
}

/// The statements of a program from `p`, having read `acc`, up to `EOF`.
pub open spec fn p_program_rest(ts: Seq<LexemeV>, p: int, acc: Seq<StmtV>) -> Result<
    Seq<StmtV>,
    ParseError,
>
    decreases ts.len() - p,
{
    if kind_at(ts, p) == Token::EOF {
        Ok(acc)
    } else {
        match p_statement(ts, p, MAX_DEPTH as nat) {
            Err(e) => Err(e),
            Ok((s, j2)) => if p < j2 < ts.len() {
                p_program_rest(ts, j2, acc.push(s))
            } else {
                Err(err_at(ts, j2, ParseErrorKind::ExpectExpression))
            },
        }
    }
}

/// The lines on which the statements of a program from `p` start, after
/// `acc`, as far as they parse.
pub open spec fn program_lines(ts: Seq<LexemeV>, p: int, acc: Seq<nat>) -> Seq<nat>
    decreases ts.len() - p,
{
    if kind_at(ts, p) == Token::EOF {
        acc
    } else {
        match p_statement(ts, p, MAX_DEPTH as nat) {
            Err(_) => acc,
            Ok((_, j2)) => if p < j2 < ts.len() {
                program_lines(ts, j2, acc.push(at(ts, p).line))
            } else {
                acc
            },
        }
    }
}

/// The statements of a whole token sequence.
pub open spec fn parse_program(ts: Seq<LexemeV>) -> Result<Seq<StmtV>, ParseError> {
    p_program_rest(ts, 0, Seq::empty())
}

/// Expressions from `p`, each followed by `;`, up to `EOF`.
pub open spec fn p_exprs_rest(ts: Seq<LexemeV>, p: int, acc: Seq<ExprV>) -> Result<
    Seq<ExprV>,
    ParseError,
>
    decreases ts.len() - p,
{
    if kind_at(ts, p) == Token::EOF {
        Ok(acc)
    } else {
        match p_expression(ts, p, MAX_DEPTH as nat) {
            Err(e) => Err(e),
            Ok((e, j2)) => if kind_at(ts, j2) != Token::SemiColon {
                Err(err_at(ts, j2, ParseErrorKind::ExpectSemicolon))
            } else if p <= j2 && j2 + 1 < ts.len() {
                p_exprs_rest(ts, j2 + 1, acc.push(e))
            } else {
                Err(err_at(ts, j2 + 1, ParseErrorKind::ExpectExpression))
            },
        }
    }
}

/// The expressions of a whole token sequence.
pub open spec fn parse_expressions(ts: Seq<LexemeV>) -> Result<Seq<ExprV>, ParseError> {
    p_exprs_rest(ts, 0, Seq::empty())
}

/// What a parse error says.
pub open spec fn parse_error_text(k: ParseErrorKind) -> Seq<char> {
    match k {
        ParseErrorKind::ExpectExpression => "Expect expression."@,
        ParseErrorKind::ExpectSemicolon => "Expect ';'."@,
        ParseErrorKind::ExpectLeftParen => "Expect '('."@,
        ParseErrorKind::ExpectRightParen => "Expect ')'."@,
        ParseErrorKind::ExpectLeftBrace => "Expect '{'."@,
        ParseErrorKind::ExpectRightBrace => "Expect '}'."@,
        ParseErrorKind::ExpectIdentifier => "Expect identifier."@,
        ParseErrorKind::InvalidAssignmentTarget => "Invalid assignment target."@,
        ParseErrorKind::TooDeep => "Too deeply nested."@,
    }
}

impl ParseError {
    /// The diagnostic reported for this error.
    pub fn message(&self) -> (r: String)
        ensures
            r@ == line_prefix(self.line as nat) + parse_error_text(self.kind),
    {
        let mut out = String::new();
        push_line_prefix(&mut out, self.line);
        let text = match self.kind {
            ParseErrorKind::ExpectExpression => "Expect expression.",
            ParseErrorKind::ExpectSemicolon => "Expect ';'.",
            ParseErrorKind::ExpectLeftParen => "Expect '('.",
            ParseErrorKind::ExpectRightParen => "Expect ')'.",
            ParseErrorKind::ExpectLeftBrace => "Expect '{'.",
            ParseErrorKind::ExpectRightBrace => "Expect '}'.",
            ParseErrorKind::ExpectIdentifier => "Expect identifier.",
            ParseErrorKind::InvalidAssignmentTarget => "Invalid assignment target.",
            ParseErrorKind::TooDeep => "Too deeply nested.",
        };
        push_str(&mut out, text);
        out
    }
}

} // verus!
