//! Properties of the language that hold of every program, proved over the
//! semantics of `semantics.rs`.

use vstd::prelude::*;
use crate::ast::{ExprV, FunctionV, Operator, StmtV};
use crate::semantics::{
    Flow, LOOP_FUEL, ScopeV, call_result, StateV, args_size, assign_var, define_var, eval, eval_args, exec,
    exec_block, exec_for, exec_while, expr_size, find, get_var, open_call, open_scope, set_slot,
    slot_in, slot_of, stmt_size, stmts_size,
};
use crate::value::{RuntimeErrorV, ValueV, truthy_spec};
use crate::grammar::{
    MAX_DEPTH, ParseError, kind_at, op_at, p_assignment, p_binary, p_binary_rest, p_expression,
    p_exprs_rest, p_primary, p_unary, parse_expressions,
};
use crate::lexer::{emit, ident_len, is_alpha, is_ident_char, lex, lex_from, scan};
use crate::number::is_digit;
use crate::printer::expr_text;
use crate::token::{LexemeV, Token, keyword};

verus! {

/// Every scope has as many values as names.
pub open spec fn scopes_wf(scopes: Seq<ScopeV>) -> bool {
    forall|t: int| 0 <= t < scopes.len() ==> #[trigger] scopes[t].names.len() == scopes[t].values.len()
}

/// `b` has the scopes of `a`, with the same names and enclosing scopes,
/// perhaps other values, and perhaps more scopes after them.
pub open spec fn same_shape(a: Seq<ScopeV>, b: Seq<ScopeV>) -> bool {
    &&& a.len() <= b.len()
    &&& forall|t: int|
        0 <= t < a.len() ==> #[trigger] b[t].names == a[t].names && b[t].enclosing == a[t].enclosing
}

proof fn lemma_slot_of_bound(names: Seq<Seq<char>>, x: Seq<char>, k: int)
    ensures
        slot_of(names, x, k) matches Some(i) ==> 0 <= i < k && i < names.len() && names[i] == x,
    decreases k,
{
    if k > 0 && k <= names.len() && names[k - 1] != x {
        lemma_slot_of_bound(names, x, k - 1);
    }
}

/// Name resolution depends on the names and enclosing scopes alone.
pub proof fn lemma_find_same_shape(a: Seq<ScopeV>, b: Seq<ScopeV>, s: int, x: Seq<char>)
    requires
        same_shape(a, b),
        0 <= s < a.len(),
    ensures
        find(b, s, x) == find(a, s, x),
    decreases s,
{
    assert(b[s].names == a[s].names && b[s].enclosing == a[s].enclosing);
    match slot_in(a[s], x) {
        Some(_) => {},
        None => match a[s].enclosing {
            Some(p) => if p < s {
                lemma_find_same_shape(a, b, p as int, x);
            },
            None => {},
        },
    }
}

proof fn lemma_find_bound(scopes: Seq<ScopeV>, s: int, x: Seq<char>)
    ensures
        find(scopes, s, x) matches Some((t, i)) ==> 0 <= t < scopes.len() && 0 <= i
            < scopes[t].names.len() && scopes[t].names[i] == x,
    decreases s,
{
    if !(s < 0 || s >= scopes.len()) {
        lemma_slot_of_bound(scopes[s].names, x, scopes[s].names.len() as int);
        match slot_in(scopes[s], x) {
            Some(_) => {},
            None => match scopes[s].enclosing {
                Some(p) => if p < s {
                    lemma_find_bound(scopes, p as int, x);
                },
                None => {},
            },
        }
    }
}

/// After `x` is defined in scope `s` as `v`, reading `x` from `s` gives `v`.
pub proof fn lemma_define_then_get(scopes: Seq<ScopeV>, s: int, x: Seq<char>, v: ValueV)
    requires
        scopes_wf(scopes),
        0 <= s < scopes.len(),
    ensures
        get_var(define_var(scopes, s, x, v), s, x) == Some(v),
{
    let after = define_var(scopes, s, x, v);
    lemma_slot_of_bound(scopes[s].names, x, scopes[s].names.len() as int);
    match slot_in(scopes[s], x) {
        Some(i) => {
            assert(scopes[s].names.len() == scopes[s].values.len());
            assert(after[s].names == scopes[s].names);
            assert(slot_in(after[s], x) == Some(i));
        },
        None => {
            let n = scopes[s].names.len() as int;
            assert(after[s].names[n] == x);
            assert(slot_in(after[s], x) == Some(n));
            assert(scopes[s].names.len() == scopes[s].values.len());
        },
    }
}

/// After `x` is assigned `v` from scope `s`, reading `x` from `s` gives `v`.
pub proof fn lemma_assign_then_get(scopes: Seq<ScopeV>, s: int, x: Seq<char>, v: ValueV)
    requires
        scopes_wf(scopes),
        0 <= s < scopes.len(),
        assign_var(scopes, s, x, v) is Some,
    ensures
        get_var(assign_var(scopes, s, x, v)->Some_0, s, x) == Some(v),
{
    let (t, i) = find(scopes, s, x)->Some_0;
    lemma_find_bound(scopes, s, x);
    let after = set_slot(scopes, t, i, v);
    assert(scopes[t].names.len() == scopes[t].values.len());
    assert(same_shape(scopes, after));
    lemma_find_same_shape(scopes, after, s, x);
}

/// A read of `x` from a scope that does not bind it is the read from the
/// scope that encloses it.
pub proof fn lemma_get_falls_through(scopes: Seq<ScopeV>, s: int, x: Seq<char>)
    requires
        0 <= s < scopes.len(),
        slot_in(scopes[s], x) is None,
        scopes[s].enclosing matches Some(p) && p < s,
    ensures
        get_var(scopes, s, x) == get_var(scopes, scopes[s].enclosing->Some_0 as int, x),
{
}

/// In `a or b`, `b` is not evaluated when `a` is truthy: the outcome is
/// that of `a` whatever `b` is. In `a and b`, likewise when `a` is not
/// truthy.
pub proof fn lemma_short_circuit(st: StateV, s: nat, a: ExprV, b: ExprV, line: nat, d: nat, f: nat)
    ensures
        ({
            let (st1, r) = eval(st, s, a, d, f);
            r matches Ok(v) && truthy_spec(v) ==> eval(
                st,
                s,
                ExprV::Binary(Box::new(a), Operator::Or, Box::new(b), line),
                d,
                f,
            ) == (st1, r)
        }),
        ({
            let (st1, r) = eval(st, s, a, d, f);
            r matches Ok(v) && !truthy_spec(v) ==> eval(
                st,
                s,
                ExprV::Binary(Box::new(a), Operator::And, Box::new(b), line),
                d,
                f,
            ) == (st1, r)
        }),
{
}

/// A function declared in scope `s` is bound there to a value holding its
/// declaration and `s` itself: the scope active at the declaration.
pub proof fn lemma_function_captures_scope(st: StateV, s: nat, fv: FunctionV, d: nat, f: nat)
    requires
        scopes_wf(st.scopes),
        s < st.scopes.len(),
    ensures
        exec(st, s, StmtV::Fn(fv), d, f).1 == Ok::<Flow, crate::value::RuntimeErrorV>(Flow::Normal),
        get_var(exec(st, s, StmtV::Fn(fv), d, f).0.scopes, s as int, fv.name) == Some(
            ValueV::Function(fv, s),
        ),
{
    lemma_define_then_get(st.scopes, s as int, fv.name, ValueV::Function(fv, s));
}

/// A call runs in a new scope enclosed by the scope the function captured,
/// not by the caller's.
pub proof fn lemma_call_scope_encloses_capture(
    st: StateV,
    fv: FunctionV,
    captured: nat,
    args: Seq<ValueV>,
)
    ensures
        open_call(st, fv, captured, args).scopes.len() == st.scopes.len() + 1,
        open_call(st, fv, captured, args).scopes.last().enclosing == Some(captured),
        same_shape(st.scopes, open_call(st, fv, captured, args).scopes),
{
}

/// `b` has the scopes of `a`, each with the same enclosing scope and, but
/// for scope `s`, the same names; perhaps with other values, and perhaps
/// with more scopes after them. With `s` negative no scope is excepted.
pub open spec fn kept_except(a: Seq<ScopeV>, b: Seq<ScopeV>, s: int) -> bool {
    &&& a.len() <= b.len()
    &&& forall|t: int|
        0 <= t < a.len() ==> #[trigger] b[t].enclosing == a[t].enclosing && (t != s ==> b[t].names
            == a[t].names)
}

proof fn lemma_kept_trans(a: Seq<ScopeV>, b: Seq<ScopeV>, c: Seq<ScopeV>, s1: int, s2: int, s: int)
    requires
        kept_except(a, b, s1),
        kept_except(b, c, s2),
        s1 == s || s1 < 0 || s1 >= a.len(),
        s2 == s || s2 < 0 || s2 >= a.len(),
    ensures
        kept_except(a, c, s),
{
    assert forall|t: int| 0 <= t < a.len() implies #[trigger] c[t].enclosing == a[t].enclosing && (t
        != s ==> c[t].names == a[t].names) by {
        assert(b[t].enclosing == a[t].enclosing);
        assert(c[t].enclosing == b[t].enclosing);
    }
}

proof fn lemma_define_kept(scopes: Seq<ScopeV>, s: int, x: Seq<char>, v: ValueV)
    ensures
        kept_except(scopes, define_var(scopes, s, x, v), s),
{
}

proof fn lemma_assign_kept(scopes: Seq<ScopeV>, s: int, x: Seq<char>, v: ValueV)
    ensures
        assign_var(scopes, s, x, v) matches Some(after) ==> kept_except(scopes, after, -1),
{
    lemma_find_bound(scopes, s, x);
}

proof fn lemma_eval_kept(st: StateV, s: nat, e: ExprV, d: nat, f: nat)
    ensures
        kept_except(st.scopes, eval(st, s, e, d, f).0.scopes, -1),
    decreases d, f, expr_size(e), 0int,
{
    match e {
        ExprV::Grouping(x) => {
            lemma_eval_kept(st, s, *x, d, f);
        },
        ExprV::Assignment(n, x, _) => {
            lemma_eval_kept(st, s, *x, d, f);
            let (st1, r) = eval(st, s, *x, d, f);
            if let Ok(v) = r {
                lemma_assign_kept(st1.scopes, s as int, n, v);
                if let Some(scopes) = assign_var(st1.scopes, s as int, n, v) {
                    lemma_kept_trans(st.scopes, st1.scopes, scopes, -1, -1, -1);
                }
            }
        },
        ExprV::Unary(_, x, _) => {
            lemma_eval_kept(st, s, *x, d, f);
        },
        ExprV::Binary(l, op, r, _) => {
            lemma_eval_kept(st, s, *l, d, f);
            let (st1, rl) = eval(st, s, *l, d, f);
            lemma_eval_kept(st1, s, *r, d, f);
            let st2 = eval(st1, s, *r, d, f).0;
            lemma_kept_trans(st.scopes, st1.scopes, st2.scopes, -1, -1, -1);
        },
        ExprV::Call(n, args, _) => {
            lemma_args_kept(st, s, args, 0, d, f, Seq::empty());
            let (st1, ra) = eval_args(st, s, args, 0, d, f, Seq::empty());
            if let Ok(vals) = ra {
                if let Some(ValueV::Function(fv, captured)) = get_var(st.scopes, s as int, n) {
                    if fv.params.len() == vals.len() && d > 0 {
                        let opened = open_call(st1, fv, captured, vals);
                        lemma_block_kept(
                            opened,
                            st1.scopes.len(),
                            fv.body,
                            0,
                            (d - 1) as nat,
                            LOOP_FUEL as nat,
                        );
                        let st2 = exec_block(
                            opened,
                            st1.scopes.len(),
                            fv.body,
                            0,
                            (d - 1) as nat,
                            LOOP_FUEL as nat,
                        ).0;
                        lemma_kept_trans(st1.scopes, opened.scopes, st2.scopes, -1, st1.scopes.len() as int, -1);
                        lemma_kept_trans(st.scopes, st1.scopes, st2.scopes, -1, -1, -1);
                    }
                }
            }
        },
        _ => {},
    }
}

proof fn lemma_args_kept(
    st: StateV,
    s: nat,
    args: Seq<ExprV>,
    i: int,
    d: nat,
    f: nat,
    acc: Seq<ValueV>,
)
    ensures
        kept_except(st.scopes, eval_args(st, s, args, i, d, f, acc).0.scopes, -1),
    decreases d, f, args_size(args, i), 0int,
{
    if !(i < 0 || i >= args.len()) {
        lemma_eval_kept(st, s, args[i], d, f);
        let (st1, r) = eval(st, s, args[i], d, f);
        if let Ok(v) = r {
            lemma_args_kept(st1, s, args, i + 1, d, f, acc.push(v));
            let st2 = eval_args(st1, s, args, i + 1, d, f, acc.push(v)).0;
            lemma_kept_trans(st.scopes, st1.scopes, st2.scopes, -1, -1, -1);
        }
    }
}

proof fn lemma_exec_kept(st: StateV, s: nat, stmt: StmtV, d: nat, f: nat)
    ensures
        kept_except(st.scopes, exec(st, s, stmt, d, f).0.scopes, s as int),
    decreases d, f, stmt_size(stmt), 2int,
{
    match stmt {
        StmtV::Expression(e) => {
            lemma_eval_kept(st, s, e, d, f);
        },
        StmtV::Print(e) => {
            lemma_eval_kept(st, s, e, d, f);
        },
        StmtV::Return(e) => {
            lemma_eval_kept(st, s, e, d, f);
        },
        StmtV::Declaration(n, e) => {
            lemma_eval_kept(st, s, e, d, f);
            let (st1, r) = eval(st, s, e, d, f);
            if let Ok(v) = r {
                lemma_define_kept(st1.scopes, s as int, n, v);
                lemma_kept_trans(
                    st.scopes,
                    st1.scopes,
                    define_var(st1.scopes, s as int, n, v),
                    -1,
                    s as int,
                    s as int,
                );
            }
        },
        StmtV::Block(ss) => {
            let opened = open_scope(st, s);
            lemma_block_kept(opened, st.scopes.len(), ss, 0, d, f);
            let st2 = exec_block(opened, st.scopes.len(), ss, 0, d, f).0;
            lemma_kept_trans(st.scopes, opened.scopes, st2.scopes, -1, st.scopes.len() as int, s as int);
        },
        StmtV::IfElse(c, t, e) => {
            lemma_eval_kept(st, s, c, d, f);
            let (st1, r) = eval(st, s, c, d, f);
            if let Ok(v) = r {
                if truthy_spec(v) {
                    lemma_exec_kept(st1, s, *t, d, f);
                    let st2 = exec(st1, s, *t, d, f).0;
                    lemma_kept_trans(st.scopes, st1.scopes, st2.scopes, -1, s as int, s as int);
                } else if let Some(x) = e {
                    lemma_exec_kept(st1, s, *x, d, f);
                    let st2 = exec(st1, s, *x, d, f).0;
                    lemma_kept_trans(st.scopes, st1.scopes, st2.scopes, -1, s as int, s as int);
                }
            }
        },
        StmtV::While(_, _) => {
            lemma_while_kept(st, s, stmt, d, f);
        },
        StmtV::For(init, _, _, _) => {
            match init {
                Some(i) => {
                    lemma_exec_kept(st, s, *i, d, f);
                    let (st1, r) = exec(st, s, *i, d, f);
                    if r == Ok::<Flow, RuntimeErrorV>(Flow::Normal) {
                        lemma_for_kept(st1, s, stmt, d, f);
                        let st2 = exec_for(st1, s, stmt, d, f).0;
                        lemma_kept_trans(st.scopes, st1.scopes, st2.scopes, s as int, s as int, s as int);
                    }
                },
                None => {
                    lemma_for_kept(st, s, stmt, d, f);
                },
            }
        },
        StmtV::Fn(fv) => {
            lemma_define_kept(st.scopes, s as int, fv.name, ValueV::Function(fv, s));
        },
    }
}

proof fn lemma_while_kept(st: StateV, s: nat, w: StmtV, d: nat, f: nat)
    ensures
        kept_except(st.scopes, exec_while(st, s, w, d, f).0.scopes, s as int),
    decreases d, f, stmt_size(w), 1int,
{
    if let StmtV::While(c, b) = w {
        if f > 0 {
            lemma_eval_kept(st, s, c, d, f);
            let (st1, r) = eval(st, s, c, d, f);
            if let Ok(v) = r {
                if truthy_spec(v) {
                    lemma_exec_kept(st1, s, *b, d, f);
                    let (st2, rb) = exec(st1, s, *b, d, f);
                    lemma_kept_trans(st.scopes, st1.scopes, st2.scopes, -1, s as int, s as int);
                    if rb == Ok::<Flow, RuntimeErrorV>(Flow::Normal) {
                        lemma_while_kept(st2, s, w, d, (f - 1) as nat);
                        let st3 = exec_while(st2, s, w, d, (f - 1) as nat).0;
                        lemma_kept_trans(st.scopes, st2.scopes, st3.scopes, s as int, s as int, s as int);
                    }
                }
            }
        }
    }
}

proof fn lemma_for_kept(st: StateV, s: nat, w: StmtV, d: nat, f: nat)
    ensures
        kept_except(st.scopes, exec_for(st, s, w, d, f).0.scopes, s as int),
    decreases d, f, stmt_size(w), 1int,
{
    if let StmtV::For(_, c, step, b) = w {
        if f > 0 {
            let (st1, rc) = match c {
                Some(ce) => eval(st, s, ce, d, f),
                None => (st, Ok(ValueV::Boolean(true))),
            };
            if let Some(ce) = c {
                lemma_eval_kept(st, s, ce, d, f);
            }
            if let Ok(v) = rc {
                if truthy_spec(v) {
                    lemma_exec_kept(st1, s, *b, d, f);
                    let (st2, rb) = exec(st1, s, *b, d, f);
                    lemma_kept_trans(st.scopes, st1.scopes, st2.scopes, -1, s as int, s as int);
                    if rb == Ok::<Flow, RuntimeErrorV>(Flow::Normal) {
                        let (st3, rs) = match step {
                            Some(x) => eval(st2, s, x, d, f),
                            None => (st2, Ok(ValueV::Nil)),
                        };
                        if let Some(x) = step {
                            lemma_eval_kept(st2, s, x, d, f);
                        }
                        lemma_kept_trans(st.scopes, st2.scopes, st3.scopes, s as int, -1, s as int);
                        if rs is Ok {
                            lemma_for_kept(st3, s, w, d, (f - 1) as nat);
                            let st4 = exec_for(st3, s, w, d, (f - 1) as nat).0;
                            lemma_kept_trans(st.scopes, st3.scopes, st4.scopes, s as int, s as int, s as int);
                        }
                    }
                }
            }
        }
    }
}

proof fn lemma_block_kept(st: StateV, s: nat, ss: Seq<StmtV>, i: int, d: nat, f: nat)
    ensures
        kept_except(st.scopes, exec_block(st, s, ss, i, d, f).0.scopes, s as int),
    decreases d, f, stmts_size(ss, i), 0int,
{
    if !(i < 0 || i >= ss.len()) {
        lemma_exec_kept(st, s, ss[i], d, f);
        let (st1, r) = exec(st, s, ss[i], d, f);
        if r == Ok::<Flow, RuntimeErrorV>(Flow::Normal) {
            lemma_block_kept(st1, s, ss, i + 1, d, f);
            let st2 = exec_block(st1, s, ss, i + 1, d, f).0;
            lemma_kept_trans(st.scopes, st1.scopes, st2.scopes, s as int, s as int, s as int);
        }
    }
}

/// Executing a block leaves every scope that existed before it, the
/// enclosing one included, with the names it had: the block's
/// declarations go to a scope of its own. (Assignments to outer names
/// still change their values.)
pub proof fn lemma_block_does_not_leak(st: StateV, s: nat, ss: Seq<StmtV>, d: nat, f: nat)
    ensures
        kept_except(st.scopes, exec(st, s, StmtV::Block(ss), d, f).0.scopes, -1),
{
    let opened = open_scope(st, s);
    lemma_block_kept(opened, st.scopes.len(), ss, 0, d, f);
    let st2 = exec_block(opened, st.scopes.len(), ss, 0, d, f).0;
    lemma_kept_trans(st.scopes, opened.scopes, st2.scopes, -1, st.scopes.len() as int, -1);
}

/// Scope `t` is `s` or one of the scopes enclosing it.
pub open spec fn on_chain(scopes: Seq<ScopeV>, s: int, t: int) -> bool
    decreases s,
{
    if s < 0 || s >= scopes.len() {
        false
    } else if s == t {
        true
    } else {
        match scopes[s].enclosing {
            Some(p) => p < s && on_chain(scopes, p as int, t),
            None => false,
        }
    }
}

/// A declaration in a scope that is not on the enclosing chain of scope
/// `c` changes the meaning of no name from `c`: a closure that captured
/// `c` does not see it.
pub proof fn lemma_define_off_chain(
    scopes: Seq<ScopeV>,
    c: int,
    t: int,
    y: Seq<char>,
    v: ValueV,
    x: Seq<char>,
)
    requires
        0 <= t < scopes.len(),
        !on_chain(scopes, c, t),
    ensures
        get_var(define_var(scopes, t, y, v), c, x) == get_var(scopes, c, x),
    decreases c,
{
    let after = define_var(scopes, t, y, v);
    if 0 <= c < scopes.len() {
        assert(after[c] == scopes[c]);
        match slot_in(scopes[c], x) {
            Some(_) => {},
            None => match scopes[c].enclosing {
                Some(p) => if p < c {
                    lemma_define_off_chain(scopes, p as int, t, y, v, x);
                    lemma_find_bound(scopes, p as int, x);
                    lemma_find_bound(after, p as int, x);
                },
                None => {},
            },
        }
    }
}

/// An assignment is seen from any scope that resolves the name to the
/// same binding as the scope the assignment ran in: a closure observes
/// assignments to the variables it captured.
pub proof fn lemma_assign_observed(scopes: Seq<ScopeV>, s: int, c: int, x: Seq<char>, v: ValueV)
    requires
        scopes_wf(scopes),
        assign_var(scopes, s, x, v) is Some,
        find(scopes, c, x) == find(scopes, s, x),
    ensures
        get_var(assign_var(scopes, s, x, v)->Some_0, c, x) == Some(v),
{
    let (t, i) = find(scopes, s, x)->Some_0;
    lemma_find_bound(scopes, s, x);
    let after = set_slot(scopes, t, i, v);
    assert(scopes[t].names.len() == scopes[t].values.len());
    assert(same_shape(scopes, after));
    assert(0 <= c < scopes.len());
    lemma_find_same_shape(scopes, after, c, x);
}

proof fn lemma_binary_literal(ts: Seq<LexemeV>, e: ExprV, lvl: nat, d: nat)
    requires
        ts.len() == 3,
        ts[1].token == Token::SemiColon,
        p_unary(ts, 0, d) == Ok::<(ExprV, int), ParseError>((e, 1int)),
    ensures
        p_binary(ts, 0, lvl, d) == Ok::<(ExprV, int), ParseError>((e, 1int)),
    decreases lvl,
{
    if lvl > 0 {
        lemma_binary_literal(ts, e, (lvl - 1) as nat, d);
        assert(kind_at(ts, 1) == Token::SemiColon);
        assert(op_at(lvl, Token::SemiColon) is None);
        assert(p_binary_rest(ts, 1, lvl, d, e) == Ok::<(ExprV, int), ParseError>((e, 1int)));
    }
}

proof fn lemma_parse_single_atom(ts: Seq<LexemeV>, e: ExprV)
    requires
        ts.len() == 3,
        ts[1].token == Token::SemiColon,
        ts[2].token == Token::EOF,
        (ts[0].token == Token::True && e == ExprV::True) || (ts[0].token == Token::False && e
            == ExprV::False) || (ts[0].token == Token::Nil && e == ExprV::Nil) || (ts[0].token
            == Token::Identifier && e == ExprV::Identifier(ts[0].text, ts[0].line)),
    ensures
        parse_expressions(ts) == Ok::<Seq<ExprV>, ParseError>(seq![e]),
{
    let d = MAX_DEPTH as nat;
    assert(kind_at(ts, 0) == ts[0].token);
    assert(kind_at(ts, 1) == Token::SemiColon);
    assert(kind_at(ts, 2) == Token::EOF);
    assert(p_primary(ts, 0, d) == Ok::<(ExprV, int), ParseError>((e, 1int)));
    assert(p_unary(ts, 0, d) == Ok::<(ExprV, int), ParseError>((e, 1int)));
    lemma_binary_literal(ts, e, 6, d);
    assert(p_assignment(ts, 0, d) == Ok::<(ExprV, int), ParseError>((e, 1int)));
    assert(p_expression(ts, 0, d) == Ok::<(ExprV, int), ParseError>((e, 1int)));
    assert(p_exprs_rest(ts, 2, seq![e]) == Ok::<Seq<ExprV>, ParseError>(seq![e]));
    assert(Seq::<ExprV>::empty().push(e) =~= seq![e]);
    assert(p_exprs_rest(ts, 0, Seq::empty()) == p_exprs_rest(ts, 2, seq![e]));
}

proof fn lemma_ident_len_run(src: Seq<char>, j: int, m: int)
    requires
        0 <= j <= m <= src.len(),
        forall|k: int| j <= k < m ==> is_ident_char(#[trigger] src[k]),
        m < src.len() ==> !is_ident_char(src[m]),
    ensures
        ident_len(src, j) == m - j,
    decreases m - j,
{
    if j < m {
        lemma_ident_len_run(src, j + 1, m);
    }
}

/// A word followed by `;` lexes into the word's lexeme, the `;` and `EOF`.
proof fn lemma_lex_word(w: Seq<char>, k: Token)
    requires
        w.len() >= 1,
        is_alpha(w[0]),
        forall|i: int| 0 <= i < w.len() ==> is_ident_char(#[trigger] w[i]),
        keyword(w) == Some(k) || (keyword(w) is None && k == Token::Identifier),
    ensures
        lex(w.push(';')).0 == seq![
            LexemeV { token: k, text: w, line: 1 },
            LexemeV { token: Token::SemiColon, text: seq![';'], line: 1 },
            LexemeV { token: Token::EOF, text: Seq::empty(), line: 1 },
        ],
{
    let src = w.push(';');
    let m = w.len() as int;
    assert forall|i: int| 0 <= i < m implies is_ident_char(#[trigger] src[i]) by {
        assert(src[i] == w[i]);
    }
    lemma_ident_len_run(src, 1, m);
    assert(src.subrange(0, m) =~= w);
    assert(src.subrange(m, m + 1) =~= seq![';']);
    let c = src[0];
    assert(c == w[0]);
    assert(c != '(' && c != ')' && c != '{' && c != '}' && c != ',' && c != '.' && c != ';' && c
        != '+' && c != '-' && c != '*' && c != '=' && c != '!' && c != '<' && c != '>' && c != '/'
        && c != ' ' && c != '\t' && c != '\r' && c != '\n' && c != '"' && !is_digit(c));
    assert(scan(src, 0, 1) == emit(src, 0, m, k, 1));
    assert(scan(src, m, 1) == emit(src, m, m + 1, Token::SemiColon, 1));
    let last = lex_from(src, m + 1, 1);
    assert(last.0 == seq![LexemeV { token: Token::EOF, text: Seq::<char>::empty(), line: 1 }]);
    let mid = lex_from(src, m, 1);
    assert(mid.0 =~= seq![LexemeV { token: Token::SemiColon, text: seq![';'], line: 1 }] + last.0);
    assert(lex(src).0 =~= seq![LexemeV { token: k, text: w, line: 1 }] + mid.0);
}

/// The literals `true`, `false` and `nil` print in a form that, followed
/// by `;`, lexes and parses back to the same expression.
pub proof fn lemma_keyword_literals_round_trip(e: ExprV)
    requires
        e == ExprV::True || e == ExprV::False || e == ExprV::Nil,
    ensures
        parse_expressions(lex(expr_text(e).push(';')).0) == Ok::<Seq<ExprV>, ParseError>(seq![e]),
{
    reveal_strlit("true");
    reveal_strlit("false");
    reveal_strlit("nil");
    let w = expr_text(e);
    let k = if e == ExprV::True {
        assert(w =~= seq!['t', 'r', 'u', 'e']);
        Token::True
    } else if e == ExprV::False {
        assert(w =~= seq!['f', 'a', 'l', 's', 'e']);
        Token::False
    } else {
        assert(w =~= seq!['n', 'i', 'l']);
        Token::Nil
    };
    assert(keyword(w) == Some(k));
    lemma_lex_word(w, k);
    lemma_parse_single_atom(lex(w.push(';')).0, e);
}

/// A name that is not a keyword prints as itself, which, followed by `;`,
/// lexes and parses back to the same name (on the first line).
pub proof fn lemma_identifier_round_trip(n: Seq<char>, line: nat)
    requires
        n.len() >= 1,
        is_alpha(n[0]),
        forall|i: int| 0 <= i < n.len() ==> is_ident_char(#[trigger] n[i]),
        keyword(n) is None,
    ensures
        parse_expressions(lex(expr_text(ExprV::Identifier(n, line)).push(';')).0) == Ok::<
            Seq<ExprV>,
            ParseError,
        >(seq![ExprV::Identifier(n, 1)]),
{
    lemma_lex_word(n, Token::Identifier);
    lemma_parse_single_atom(lex(n.push(';')).0, ExprV::Identifier(n, 1));
}

/// A call of a name bound to a function runs the body in a new scope
/// enclosed by the scope the function captured, with the arguments that
/// were evaluated in the caller's scope; the function is the one the name
/// denoted before the arguments were evaluated.
pub proof fn lemma_call_runs_in_captured_scope(
    st: StateV,
    s: nat,
    n: Seq<char>,
    args: Seq<ExprV>,
    line: nat,
    d: nat,
    f: nat,
    fv: FunctionV,
    captured: nat,
)
    requires
        get_var(st.scopes, s as int, n) == Some(ValueV::Function(fv, captured)),
        eval_args(st, s, args, 0, d, f, Seq::empty()).1 is Ok,
        fv.params.len() == eval_args(st, s, args, 0, d, f, Seq::empty()).1->Ok_0.len(),
        d > 0,
    ensures
        ({
            let (st1, ra) = eval_args(st, s, args, 0, d, f, Seq::empty());
            let opened = open_call(st1, fv, captured, ra->Ok_0);
            let (st2, rb) = exec_block(
                opened,
                st1.scopes.len(),
                fv.body,
                0,
                (d - 1) as nat,
                LOOP_FUEL as nat,
            );
            &&& opened.scopes[st1.scopes.len() as int].enclosing == Some(captured)
            &&& eval(st, s, ExprV::Call(n, args, line), d, f) == (st2, call_result(rb))
        }),
{
}

} // verus!
