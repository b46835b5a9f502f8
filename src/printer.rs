//! Text forms: the token listing and the canonical prefix form of
//! expressions.

use vstd::prelude::*;
use crate::ast::{
    ExprV, Expression, Operator, Primary, Statement, StmtV, Unary, all_exprs_view, all_stmts_view,
    expr_view, lemma_exprs_view_index, lemma_exprs_view_len, lemma_stmts_view_index,
    lemma_stmts_view_len, names_view, opt_expr_view, stmt_view,
};
use crate::number::Number;
use crate::semantics::{
    expr_size, lemma_args_size_bound, lemma_stmts_size_bound, stmt_size, stmts_size,
};
use crate::text::{push_char, push_str, push_string};
use crate::token::{Lexeme, LexemeV, Token};

verus! {

/// The name of a token kind in the listing.
pub open spec fn kind_name(t: Token) -> Seq<char> {
    match t {
        Token::LeftParen => "LEFT_PAREN"@,
        Token::RightParen => "RIGHT_PAREN"@,
        Token::LeftBrace => "LEFT_BRACE"@,
        Token::RightBrace => "RIGHT_BRACE"@,
        Token::Comma => "COMMA"@,
        Token::Dot => "DOT"@,
        Token::SemiColon => "SEMICOLON"@,
        Token::Plus => "PLUS"@,
        Token::Minus => "MINUS"@,
        Token::Star => "STAR"@,
        Token::Slash => "SLASH"@,
        Token::Bang => "BANG"@,
        Token::Equal => "EQUAL"@,
        Token::EqualEqual => "EQUAL_EQUAL"@,
        Token::BangEqual => "BANG_EQUAL"@,
        Token::Less => "LESS"@,
        Token::LessEqual => "LESS_EQUAL"@,
        Token::Greater => "GREATER"@,
        Token::GreaterEqual => "GREATER_EQUAL"@,
        Token::String => "STRING"@,
        Token::Number(_) => "NUMBER"@,
        Token::Identifier => "IDENTIFIER"@,
        Token::And => "AND"@,
        Token::Class => "CLASS"@,
        Token::Else => "ELSE"@,
        Token::False => "FALSE"@,
        Token::For => "FOR"@,
        Token::Fun => "FUN"@,
        Token::If => "IF"@,
        Token::Nil => "NIL"@,
        Token::Or => "OR"@,
        Token::Print => "PRINT"@,
        Token::Return => "RETURN"@,
        Token::Super => "SUPER"@,
        Token::This => "THIS"@,
        Token::True => "TRUE"@,
        Token::Var => "VAR"@,
        Token::While => "WHILE"@,
        Token::EOF => "EOF"@,
    }
}

/// A line of the token listing: kind, lexeme and literal.
pub open spec fn describe(l: LexemeV) -> Seq<char> {
    let lexeme = if l.token == Token::String {
        seq!['"'] + l.text + seq!['"']
    } else {
        l.text
    };
    let literal = match l.token {
        Token::String => l.text,
        Token::Number(n) => n.literal_display(),
        _ => "null"@,
    };
    kind_name(l.token) + seq![' '] + lexeme + seq![' '] + literal
}

fn kind_name_of(t: Token) -> (r: &'static str)
    ensures
        r@ == kind_name(t),
{
    match t {
        Token::LeftParen => "LEFT_PAREN",
        Token::RightParen => "RIGHT_PAREN",
        Token::LeftBrace => "LEFT_BRACE",
        Token::RightBrace => "RIGHT_BRACE",
        Token::Comma => "COMMA",
        Token::Dot => "DOT",
        Token::SemiColon => "SEMICOLON",
        Token::Plus => "PLUS",
        Token::Minus => "MINUS",
        Token::Star => "STAR",
        Token::Slash => "SLASH",
        Token::Bang => "BANG",
        Token::Equal => "EQUAL",
        Token::EqualEqual => "EQUAL_EQUAL",
        Token::BangEqual => "BANG_EQUAL",
        Token::Less => "LESS",
        Token::LessEqual => "LESS_EQUAL",
        Token::Greater => "GREATER",
        Token::GreaterEqual => "GREATER_EQUAL",
        Token::String => "STRING",
        Token::Number(_) => "NUMBER",
        Token::Identifier => "IDENTIFIER",
        Token::And => "AND",
        Token::Class => "CLASS",
        Token::Else => "ELSE",
        Token::False => "FALSE",
        Token::For => "FOR",
        Token::Fun => "FUN",
        Token::If => "IF",
        Token::Nil => "NIL",
        Token::Or => "OR",
        Token::Print => "PRINT",
        Token::Return => "RETURN",
        Token::Super => "SUPER",
        Token::This => "THIS",
        Token::True => "TRUE",
        Token::Var => "VAR",
        Token::While => "WHILE",
        Token::EOF => "EOF",
    }
}

impl Lexeme {
    /// This lexeme's line in the token listing.
    pub fn describe(&self) -> (r: String)
        ensures
            r@ == describe(self@),
    {
        let mut out = String::new();
        push_str(&mut out, kind_name_of(self.token));
        push_char(&mut out, ' ');
        if self.token == Token::String {
            push_char(&mut out, '"');
            push_string(&mut out, &self.text);
            push_char(&mut out, '"');
        } else {
            push_string(&mut out, &self.text);
        }
        push_char(&mut out, ' ');
        match self.token {
            Token::String => push_string(&mut out, &self.text),
            Token::Number(n) => n.push_literal_display(&mut out),
            _ => push_str(&mut out, "null"),
        }
        assert(out@ =~= describe(self@));
        out
    }
}

/// How an operator prints.
pub open spec fn operator_text(op: Operator) -> Seq<char> {
    match op {
        Operator::EqualEqual => "=="@,
        Operator::BangEqual => "!="@,
        Operator::Less => "<"@,
        Operator::LessEqual => "<="@,
        Operator::Greater => ">"@,
        Operator::GreaterEqual => ">="@,
        Operator::Slash => "/"@,
        Operator::Star => "*"@,
        Operator::Minus => "-"@,
        Operator::Plus => "+"@,
        Operator::Or => "or"@,
        Operator::And => "and"@,
    }
}

fn operator_text_of(op: Operator) -> (r: &'static str)
    ensures
        r@ == operator_text(op),
{
    match op {
        Operator::EqualEqual => "==",
        Operator::BangEqual => "!=",
        Operator::Less => "<",
        Operator::LessEqual => "<=",
        Operator::Greater => ">",
        Operator::GreaterEqual => ">=",
        Operator::Slash => "/",
        Operator::Star => "*",
        Operator::Minus => "-",
        Operator::Plus => "+",
        Operator::Or => "or",
        Operator::And => "and",
    }
}

/// The canonical prefix form of an expression: `(op left right)`,
/// `(op operand)`, `(group e)`, `(= name value)`, `(call name args..)`,
/// and literals as they print.
pub open spec fn expr_text(e: ExprV) -> Seq<char>
    decreases e, 0int,
{
    match e {
        ExprV::Binary(l, op, r, _) => "("@ + operator_text(op) + " "@ + expr_text(*l) + " "@ + expr_text(*r)
            + ")"@,
        ExprV::Unary(op, x, _) => "("@ + (if op == Unary::Minus {
            "-"@
        } else {
            "!"@
        }) + " "@ + expr_text(*x) + ")"@,
        ExprV::Grouping(x) => "(group "@ + expr_text(*x) + ")"@,
        ExprV::Assignment(n, x, _) => "(= "@ + n + " "@ + expr_text(*x) + ")"@,
        ExprV::Call(n, args, _) => "(call "@ + n + args_text(args, 0) + ")"@,
        ExprV::Number(n) => n.literal_display(),
        ExprV::Str(s) => s,
        ExprV::True => "true"@,
        ExprV::False => "false"@,
        ExprV::Nil => "nil"@,
        ExprV::Identifier(n, _) => n,
    }
}

/// The arguments `args[i..]`, each after a space.
pub open spec fn args_text(args: Seq<ExprV>, i: int) -> Seq<char>
    decreases args, args.len() - i,
{
    if i < 0 || i >= args.len() {
        Seq::empty()
    } else {
        " "@ + expr_text(args[i]) + args_text(args, i + 1)
    }
}

/// Appends the canonical form of `e` to `out`.
pub fn push_expression(out: &mut String, e: &Expression)
    ensures
        final(out)@ == old(out)@ + expr_text(expr_view(*e)),
    decreases expr_size(expr_view(*e)),
{
    let ghost start = out@;
    match e {
        Expression::Binary(l, op, r, _) => {
            push_str(out, "(");
            push_str(out, operator_text_of(*op));
            push_str(out, " ");
            push_expression(out, l);
            push_str(out, " ");
            push_expression(out, r);
            push_str(out, ")");
        },
        Expression::Unary(op, x, _) => {
            push_str(out, "(");
            if *op == Unary::Minus {
                push_str(out, "-");
            } else {
                push_str(out, "!");
            }
            push_str(out, " ");
            push_expression(out, x);
            push_str(out, ")");
        },
        Expression::Assignment(n, x, _) => {
            push_str(out, "(= ");
            push_string(out, n);
            push_str(out, " ");
            push_expression(out, x);
            push_str(out, ")");
        },
        Expression::Primary(p) => match p {
            Primary::Number(n) => n.push_literal_display(out),
            Primary::String(s) => push_string(out, s),
            Primary::True => push_str(out, "true"),
            Primary::False => push_str(out, "false"),
            Primary::Nil => push_str(out, "nil"),
            Primary::Identifier(n, _) => push_string(out, n),
            Primary::Grouping(x) => {
                push_str(out, "(group ");
                push_expression(out, x);
                push_str(out, ")");
            },
            Primary::Call(n, args, line) => {
                push_str(out, "(call ");
                push_string(out, n);
                let ghost argsv = all_exprs_view(args@);
                let ghost before = out@;
                let mut i: usize = 0;
                proof {
                    lemma_exprs_view_len(args@, args@.len() as int);
                }
                while i < args.len()
                    invariant
                        argsv == all_exprs_view(args@),
                        expr_view(*e) == ExprV::Call(n@, argsv, *line as nat),
                        argsv.len() == args@.len(),
                        i <= args@.len(),
                        before + args_text(argsv, 0) == out@ + args_text(argsv, i as int),
                    decreases args.len() - i,
                {
                    proof {
                        lemma_exprs_view_index(args@, args@.len() as int, i as int);
                        lemma_args_size_bound(argsv, 0, i as int);
                    }
                    let ghost mid = out@;
                    push_str(out, " ");
                    push_expression(out, &args[i]);
                    assert(mid + args_text(argsv, i as int) =~= out@ + args_text(argsv, i + 1));
                    i = i + 1;
                }
                push_str(out, ")");
                assert(args_text(argsv, i as int) =~= Seq::<char>::empty());
            },
        },
    }
    assert(out@ =~= start + expr_text(expr_view(*e)));
}

/// The canonical form of `e`.
pub fn expression_text(e: &Expression) -> (r: String)
    ensures
        r@ == expr_text(expr_view(*e)),
{
    let mut out = String::new();
    push_expression(&mut out, e);
    assert(out@ =~= expr_text(expr_view(*e)));
    out
}

/// How a number literal prints: integral values with `.0`, others
/// without trailing zeros.
pub fn format_number(n: &Number) -> (r: String)
    ensures
        r@ == n.literal_display(),
{
    let mut out = String::new();
    n.push_literal_display(&mut out);
    assert(out@ =~= n.literal_display());
    out
}

/// An optional expression's form, `nil` standing for a missing one.
pub open spec fn opt_expr_text(e: Option<ExprV>) -> Seq<char> {
    match e {
        Some(x) => expr_text(x),
        None => "nil"@,
    }
}

/// The canonical prefix form of a statement: `(expr e)`, `(print e)`,
/// `(var name e)`, `(block s..)`, `(if c then else)`, `(while c body)`,
/// `(for init cond step body)`, `(fun name (params..) s..)`,
/// `(return e)`; a missing part prints as `nil`.
pub open spec fn stmt_text(s: StmtV) -> Seq<char>
    decreases s, 0int,
{
    match s {
        StmtV::Expression(e) => "(expr "@ + expr_text(e) + ")"@,
        StmtV::Print(e) => "(print "@ + expr_text(e) + ")"@,
        StmtV::Declaration(n, e) => "(var "@ + n + " "@ + expr_text(e) + ")"@,
        StmtV::Return(e) => "(return "@ + expr_text(e) + ")"@,
        StmtV::Block(ss) => "(block"@ + stmts_text(ss, 0) + ")"@,
        StmtV::IfElse(c, t, e) => "(if "@ + expr_text(c) + " "@ + stmt_text(*t) + " "@ + match e {
            Some(x) => stmt_text(*x),
            None => "nil"@,
        } + ")"@,
        StmtV::While(c, b) => "(while "@ + expr_text(c) + " "@ + stmt_text(*b) + ")"@,
        StmtV::For(i, c, n, b) => "(for "@ + match i {
            Some(x) => stmt_text(*x),
            None => "nil"@,
        } + " "@ + opt_expr_text(c) + " "@ + opt_expr_text(n) + " "@ + stmt_text(*b) + ")"@,
        StmtV::Fn(f) => "(fun "@ + f.name + " ("@ + names_text(f.params, 0) + ")"@ + stmts_text(
            f.body,
            0,
        ) + ")"@,
    }
}

/// The statements `ss[i..]`, each after a space.
pub open spec fn stmts_text(ss: Seq<StmtV>, i: int) -> Seq<char>
    decreases ss, ss.len() - i,
{
    if i < 0 || i >= ss.len() {
        Seq::empty()
    } else {
        " "@ + stmt_text(ss[i]) + stmts_text(ss, i + 1)
    }
}

/// The names `ns[i..]`, separated by spaces.
pub open spec fn names_text(ns: Seq<Seq<char>>, i: int) -> Seq<char>
    decreases ns.len() - i,
{
    if i < 0 || i >= ns.len() {
        Seq::empty()
    } else if i == 0 {
        ns[i] + names_text(ns, i + 1)
    } else {
        " "@ + ns[i] + names_text(ns, i + 1)
    }
}

fn push_opt_expression(out: &mut String, e: &Option<Expression>)
    ensures
        final(out)@ == old(out)@ + opt_expr_text(opt_expr_view(*e)),
{
    match e {
        Some(x) => push_expression(out, x),
        None => push_str(out, "nil"),
    }
}

fn push_statements(out: &mut String, ss: &Vec<Statement>)
    ensures
        final(out)@ == old(out)@ + stmts_text(all_stmts_view(ss@), 0),
    decreases stmts_size(all_stmts_view(ss@), 0), 0int,
{
    let ghost ssv = all_stmts_view(ss@);
    let ghost start = out@;
    let mut i: usize = 0;
    proof {
        lemma_stmts_view_len(ss@, ss@.len() as int);
    }
    while i < ss.len()
        invariant
            ssv == all_stmts_view(ss@),
            ssv.len() == ss@.len(),
            i <= ss@.len(),
            start + stmts_text(ssv, 0) == out@ + stmts_text(ssv, i as int),
        decreases ss.len() - i,
    {
        proof {
            lemma_stmts_view_index(ss@, ss@.len() as int, i as int);
            lemma_stmts_size_bound(ssv, 0, i as int);
        }
        let ghost mid = out@;
        push_str(out, " ");
        push_statement(out, &ss[i]);
        assert(mid + stmts_text(ssv, i as int) =~= out@ + stmts_text(ssv, i + 1));
        i = i + 1;
    }
    assert(out@ =~= start + stmts_text(ssv, 0));
}

/// Appends the canonical form of `st` to `out`.
#[verifier::rlimit(60)]
pub fn push_statement(out: &mut String, st: &Statement)
    ensures
        final(out)@ == old(out)@ + stmt_text(stmt_view(*st)),
    decreases stmt_size(stmt_view(*st)), 1int,
{
    let ghost start = out@;
    match st {
        Statement::Expression(e) => {
            push_str(out, "(expr ");
            push_expression(out, e);
            push_str(out, ")");
        },
        Statement::Print(e) => {
            push_str(out, "(print ");
            push_expression(out, e);
            push_str(out, ")");
        },
        Statement::Declaration(n, e) => {
            push_str(out, "(var ");
            push_string(out, n);
            push_str(out, " ");
            push_expression(out, e);
            push_str(out, ")");
        },
        Statement::Return(e) => {
            push_str(out, "(return ");
            push_expression(out, e);
            push_str(out, ")");
        },
        Statement::Block(ss) => {
            push_str(out, "(block");
            push_statements(out, ss);
            push_str(out, ")");
        },
        Statement::IfElse(c, t, e) => {
            push_str(out, "(if ");
            push_expression(out, c);
            push_str(out, " ");
            push_statement(out, t);
            push_str(out, " ");
            match e {
                Some(x) => push_statement(out, x),
                None => push_str(out, "nil"),
            }
            push_str(out, ")");
        },
        Statement::While(c, b) => {
            push_str(out, "(while ");
            push_expression(out, c);
            push_str(out, " ");
            push_statement(out, b);
            push_str(out, ")");
        },
        Statement::For(i, c, n, b) => {
            push_str(out, "(for ");
            match i {
                Some(x) => push_statement(out, x),
                None => push_str(out, "nil"),
            }
            push_str(out, " ");
            push_opt_expression(out, c);
            push_str(out, " ");
            push_opt_expression(out, n);
            push_str(out, " ");
            push_statement(out, b);
            push_str(out, ")");
        },
        Statement::Fn(f) => {
            push_str(out, "(fun ");
            push_string(out, &f.name);
            push_str(out, " (");
            let ghost names = names_view(f.params@);
            let ghost before = out@;
            let mut k: usize = 0;
            while k < f.params.len()
                invariant
                    names == names_view(f.params@),
                    k <= f.params@.len(),
                    before + names_text(names, 0) == out@ + names_text(names, k as int),
                decreases f.params.len() - k,
            {
                let ghost mid = out@;
                if k > 0 {
                    push_str(out, " ");
                }
                push_string(out, &f.params[k]);
                assert(mid + names_text(names, k as int) =~= out@ + names_text(names, k + 1));
                k = k + 1;
            }
            assert(names_text(names, k as int) =~= Seq::<char>::empty());
            push_str(out, ")");
            push_statements(out, &f.body);
            push_str(out, ")");
        },
    }
    assert(out@ =~= start + stmt_text(stmt_view(*st)));
}

/// The canonical form of a statement.
pub fn statement_text(st: &Statement) -> (r: String)
    ensures
        r@ == stmt_text(stmt_view(*st)),
{
    let mut out = String::new();
    push_statement(&mut out, st);
    assert(out@ =~= stmt_text(stmt_view(*st)));
    out
}

} // verus!
