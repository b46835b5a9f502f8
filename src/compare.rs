//! Structural comparison of syntax trees: two trees are the same when
//! they denote the same expression or statement, lines included.

use vstd::prelude::*;
use std::rc::Rc;
use crate::ast::{
    Expression, Function, Primary, Statement, all_exprs_view, all_stmts_view, expr_view,
    function_view, lemma_exprs_view_index, lemma_exprs_view_len, lemma_stmts_view_index,
    lemma_stmts_view_len, names_view, stmt_view,
};
use crate::semantics::{
    expr_size, lemma_args_size_bound, lemma_stmts_size_bound, stmt_size, stmts_size,
};

verus! {

/// Whether two expressions are the same tree.
pub fn expr_same(a: &Expression, b: &Expression) -> (r: bool)
    ensures
        r == (expr_view(*a) == expr_view(*b)),
    decreases expr_size(expr_view(*a)), 1int,
{
    match a {
        Expression::Binary(l1, o1, r1, n1) => match b {
            Expression::Binary(l2, o2, r2, n2) => *o1 == *o2 && *n1 == *n2 && expr_same(l1, l2)
                && expr_same(r1, r2),
            _ => false,
        },
        Expression::Unary(o1, x1, n1) => match b {
            Expression::Unary(o2, x2, n2) => *o1 == *o2 && *n1 == *n2 && expr_same(x1, x2),
            _ => false,
        },
        Expression::Assignment(m1, x1, n1) => match b {
            Expression::Assignment(m2, x2, n2) => *m1 == *m2 && *n1 == *n2 && expr_same(x1, x2),
            _ => false,
        },
        Expression::Primary(p1) => match b {
            Expression::Primary(p2) => match p1 {
                Primary::Number(x) => match p2 {
                    Primary::Number(y) => *x == *y,
                    _ => false,
                },
                Primary::String(x) => match p2 {
                    Primary::String(y) => *x == *y,
                    _ => false,
                },
                Primary::True => match p2 {
                    Primary::True => true,
                    _ => false,
                },
                Primary::False => match p2 {
                    Primary::False => true,
                    _ => false,
                },
                Primary::Nil => match p2 {
                    Primary::Nil => true,
                    _ => false,
                },
                Primary::Grouping(x) => match p2 {
                    Primary::Grouping(y) => expr_same(x, y),
                    _ => false,
                },
                Primary::Identifier(m1, n1) => match p2 {
                    Primary::Identifier(m2, n2) => *m1 == *m2 && *n1 == *n2,
                    _ => false,
                },
                Primary::Call(m1, args1, n1) => match p2 {
                    Primary::Call(m2, args2, n2) => *m1 == *m2 && *n1 == *n2 && exprs_same(
                        args1,
                        args2,
                    ),
                    _ => false,
                },
            },
            _ => false,
        },
    }
}

/// Whether two lists of expressions are the same, element by element.
pub fn exprs_same(a: &Vec<Expression>, b: &Vec<Expression>) -> (r: bool)
    ensures
        r == (all_exprs_view(a@) == all_exprs_view(b@)),
    decreases crate::semantics::args_size(all_exprs_view(a@), 0), 0int,
{
    proof {
        lemma_exprs_view_len(a@, a@.len() as int);
        lemma_exprs_view_len(b@, b@.len() as int);
    }
    if a.len() != b.len() {
        return false;
    }
    let ghost av = all_exprs_view(a@);
    let ghost bv = all_exprs_view(b@);
    let mut i: usize = 0;
    while i < a.len()
        invariant
            a@.len() == b@.len(),
            av == all_exprs_view(a@),
            bv == all_exprs_view(b@),
            av.len() == a@.len(),
            bv.len() == b@.len(),
            i <= a@.len(),
            forall|j: int| 0 <= j < i ==> av[j] == bv[j],
        decreases a.len() - i,
    {
        proof {
            lemma_exprs_view_index(a@, a@.len() as int, i as int);
            lemma_exprs_view_index(b@, b@.len() as int, i as int);
            lemma_args_size_bound(av, 0, i as int);
        }
        if !expr_same(&a[i], &b[i]) {
            return false;
        }
        i = i + 1;
    }
    assert(av =~= bv);
    true
}

/// Whether two lists of names are the same.
pub fn names_same(a: &Vec<String>, b: &Vec<String>) -> (r: bool)
    ensures
        r == (names_view(a@) == names_view(b@)),
{
    if a.len() != b.len() {
        assert(names_view(a@).len() != names_view(b@).len());
        return false;
    }
    let mut i: usize = 0;
    while i < a.len()
        invariant
            a@.len() == b@.len(),
            i <= a@.len(),
            forall|j: int| 0 <= j < i ==> a@[j]@ == b@[j]@,
        decreases a.len() - i,
    {
        if a[i] != b[i] {
            assert(names_view(a@)[i as int] != names_view(b@)[i as int]);
            return false;
        }
        i = i + 1;
    }
    assert(names_view(a@) =~= names_view(b@));
    true
}

/// Whether two function declarations are the same.
pub fn function_same(a: &Rc<Function>, b: &Rc<Function>) -> (r: bool)
    ensures
        r == (function_view(**a) == function_view(**b)),
    decreases stmts_size(all_stmts_view(a.body@), 0), 1int,
{
    a.name == b.name && names_same(&a.params, &b.params) && stmts_same(&a.body, &b.body)
}

/// Whether two statements are the same tree.
pub fn stmt_same(a: &Statement, b: &Statement) -> (r: bool)
    ensures
        r == (stmt_view(*a) == stmt_view(*b)),
    decreases stmt_size(stmt_view(*a)), 2int,
{
    match a {
        Statement::Expression(x) => match b {
            Statement::Expression(y) => expr_same(x, y),
            _ => false,
        },
        Statement::Print(x) => match b {
            Statement::Print(y) => expr_same(x, y),
            _ => false,
        },
        Statement::Return(x) => match b {
            Statement::Return(y) => expr_same(x, y),
            _ => false,
        },
        Statement::Declaration(m, x) => match b {
            Statement::Declaration(n, y) => *m == *n && expr_same(x, y),
            _ => false,
        },
        Statement::Block(xs) => match b {
            Statement::Block(ys) => stmts_same(xs, ys),
            _ => false,
        },
        Statement::IfElse(c1, t1, e1) => match b {
            Statement::IfElse(c2, t2, e2) => expr_same(c1, c2) && stmt_same(t1, t2) && match e1 {
                Some(x) => match e2 {
                    Some(y) => stmt_same(x, y),
                    None => false,
                },
                None => e2.is_none(),
            },
            _ => false,
        },
        Statement::While(c1, b1) => match b {
            Statement::While(c2, b2) => expr_same(c1, c2) && stmt_same(b1, b2),
            _ => false,
        },
        Statement::For(i1, c1, s1, b1) => match b {
            Statement::For(i2, c2, s2, b2) => {
                let init = match i1 {
                    Some(x) => match i2 {
                        Some(y) => stmt_same(x, y),
                        None => false,
                    },
                    None => i2.is_none(),
                };
                let cond = match c1 {
                    Some(x) => match c2 {
                        Some(y) => expr_same(x, y),
                        None => false,
                    },
                    None => c2.is_none(),
                };
                let step = match s1 {
                    Some(x) => match s2 {
                        Some(y) => expr_same(x, y),
                        None => false,
                    },
                    None => s2.is_none(),
                };
                init && cond && step && stmt_same(b1, b2)
            },
            _ => false,
        },
        Statement::Fn(f) => match b {
            Statement::Fn(g) => function_same(f, g),
            _ => false,
        },
    }
}

/// Whether two lists of statements are the same, element by element.
pub fn stmts_same(a: &Vec<Statement>, b: &Vec<Statement>) -> (r: bool)
    ensures
        r == (all_stmts_view(a@) == all_stmts_view(b@)),
    decreases stmts_size(all_stmts_view(a@), 0), 0int,
{
    proof {
        lemma_stmts_view_len(a@, a@.len() as int);
        lemma_stmts_view_len(b@, b@.len() as int);
    }
    if a.len() != b.len() {
        return false;
    }
    let ghost av = all_stmts_view(a@);
    let ghost bv = all_stmts_view(b@);
    let mut i: usize = 0;
    while i < a.len()
        invariant
            a@.len() == b@.len(),
            av == all_stmts_view(a@),
            bv == all_stmts_view(b@),
            av.len() == a@.len(),
            bv.len() == b@.len(),
            i <= a@.len(),
            forall|j: int| 0 <= j < i ==> av[j] == bv[j],
        decreases a.len() - i,
    {
        proof {
            lemma_stmts_view_index(a@, a@.len() as int, i as int);
            lemma_stmts_view_index(b@, b@.len() as int, i as int);
            lemma_stmts_size_bound(av, 0, i as int);
        }
        if !stmt_same(&a[i], &b[i]) {
            return false;
        }
        i = i + 1;
    }
    assert(av =~= bv);
    true
}

} // verus!
