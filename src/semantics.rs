//! What running a program means, as spec functions: scopes, expression
//! evaluation and statement execution over a state of scopes and output.

use vstd::prelude::*;
use crate::ast::{ExprV, FunctionV, Operator, StmtV, Unary};
use crate::number::Number;
use crate::value::{ErrorKindV, RuntimeErrorV, ValueV, display_value, truthy_spec, values_equal};

verus! {

/// How deeply calls may nest.
pub const MAX_CALL_DEPTH: usize = 256;

/// How many iterations one loop may run.
pub const LOOP_FUEL: u64 = 0xffff_ffff_ffff_ffff;

/// A scope: names bound in it, their values, and the scope that encloses it.
pub struct ScopeV {
    pub names: Seq<Seq<char>>,
    pub values: Seq<ValueV>,
    pub enclosing: Option<nat>,
}

/// The state of a run: the scopes created so far (the global scope first),
/// the lines printed so far, and the reading that `clock()` returns. The
/// reading is part of the state: every `clock()` call returns it until it
/// is set anew, which a front end does between top-level statements, so
/// calls within one top-level statement all see the same time.
pub struct StateV {
    pub scopes: Seq<ScopeV>,
    pub out: Seq<Seq<char>>,
    pub clock: Number,
}

/// How a statement ends when it does not fail.
pub enum Flow {
    Normal,
    Return(ValueV),
}

pub type EvalR = (StateV, Result<ValueV, RuntimeErrorV>);

pub type ExecR = (StateV, Result<Flow, RuntimeErrorV>);

/// The last of the first `k` names equal to `name`.
pub open spec fn slot_of(names: Seq<Seq<char>>, name: Seq<char>, k: int) -> Option<int>
    decreases k,
{
    if k <= 0 || k > names.len() {
        None
    } else if names[k - 1] == name {
        Some(k - 1)
    } else {
        slot_of(names, name, k - 1)
    }
}

pub open spec fn slot_in(sc: ScopeV, name: Seq<char>) -> Option<int> {
    slot_of(sc.names, name, sc.names.len() as int)
}

/// The scope and slot that `name` denotes from scope `s`: the nearest
/// scope on the enclosing chain that binds it.
pub open spec fn find(scopes: Seq<ScopeV>, s: int, name: Seq<char>) -> Option<(int, int)>
    decreases s,
{
    if s < 0 || s >= scopes.len() {
        None
    } else {
        match slot_in(scopes[s], name) {
            Some(i) => Some((s, i)),
            None => match scopes[s].enclosing {
                Some(p) => if p < s {
                    find(scopes, p as int, name)
                } else {
                    None
                },
                None => None,
            },
        }
    }
}

/// The value `name` has from scope `s`.
pub open spec fn get_var(scopes: Seq<ScopeV>, s: int, name: Seq<char>) -> Option<ValueV> {
    match find(scopes, s, name) {
        Some((t, i)) => Some(scopes[t].values[i]),
        None => None,
    }
}

pub open spec fn set_slot(scopes: Seq<ScopeV>, t: int, i: int, v: ValueV) -> Seq<ScopeV> {
    scopes.update(
        t,
        ScopeV {
            names: scopes[t].names,
            values: scopes[t].values.update(i, v),
            enclosing: scopes[t].enclosing,
        },
    )
}

/// Binds `name` to `v` in scope `s` itself, replacing a binding there.
pub open spec fn define_var(scopes: Seq<ScopeV>, s: int, name: Seq<char>, v: ValueV) -> Seq<ScopeV> {
    if s < 0 || s >= scopes.len() {
        scopes
    } else {
        match slot_in(scopes[s], name) {
            Some(i) => set_slot(scopes, s, i, v),
            None => scopes.update(
                s,
                ScopeV {
                    names: scopes[s].names.push(name),
                    values: scopes[s].values.push(v),
                    enclosing: scopes[s].enclosing,
                },
            ),
        }
    }
}

/// Rebinds `name` in the nearest scope from `s` that binds it; `None` if
/// none does.
pub open spec fn assign_var(scopes: Seq<ScopeV>, s: int, name: Seq<char>, v: ValueV) -> Option<
    Seq<ScopeV>,
> {
    match find(scopes, s, name) {
        Some((t, i)) => Some(set_slot(scopes, t, i, v)),
        None => None,
    }
}

pub open spec fn with_scopes(st: StateV, scopes: Seq<ScopeV>) -> StateV {
    StateV { scopes, out: st.out, clock: st.clock }
}

/// A new empty scope enclosed by `parent`, at index `st.scopes.len()`.
pub open spec fn open_scope(st: StateV, parent: nat) -> StateV {
    with_scopes(
        st,
        st.scopes.push(ScopeV { names: Seq::empty(), values: Seq::empty(), enclosing: Some(parent) }),
    )
}

/// The scope of a call: the parameters bound to the arguments, enclosed by
/// the scope the function was declared in.
pub open spec fn open_call(st: StateV, f: FunctionV, captured: nat, args: Seq<ValueV>) -> StateV {
    with_scopes(st, st.scopes.push(ScopeV { names: f.params, values: args, enclosing: Some(captured) }))
}

pub open spec fn unary_value(op: Unary, v: ValueV) -> Result<ValueV, ErrorKindV> {
    match op {
        Unary::Bang => Ok(ValueV::Boolean(!truthy_spec(v))),
        Unary::Minus => match v {
            ValueV::Number(n) => match n.spec_neg() {
                Some(m) => Ok(ValueV::Number(m)),
                None => Err(ErrorKindV::NumberOutOfRange),
            },
            _ => Err(ErrorKindV::OperandMustBeNumber),
        },
    }
}

pub open spec fn arith(r: Option<Number>) -> Result<ValueV, ErrorKindV> {
    match r {
        Some(n) => Ok(ValueV::Number(n)),
        None => Err(ErrorKindV::NumberOutOfRange),
    }
}

/// The value of a binary operator other than `and` and `or`.
pub open spec fn binary_value(op: Operator, l: ValueV, r: ValueV) -> Result<ValueV, ErrorKindV> {
    if op == Operator::EqualEqual {
        Ok(ValueV::Boolean(values_equal(l, r)))
    } else if op == Operator::BangEqual {
        Ok(ValueV::Boolean(!values_equal(l, r)))
    } else if op == Operator::Plus {
        match (l, r) {
            (ValueV::Number(a), ValueV::Number(b)) => arith(a.spec_add(b)),
            (ValueV::Str(a), ValueV::Str(b)) => Ok(ValueV::Str(a + b)),
            _ => Err(ErrorKindV::OperandsMustBeNumbersOrStrings),
        }
    } else {
        match (l, r) {
            (ValueV::Number(a), ValueV::Number(b)) => if op == Operator::Minus {
                arith(a.spec_sub(b))
            } else if op == Operator::Star {
                arith(a.spec_mul(b))
            } else if op == Operator::Slash {
                if b.is_zero_spec() {
                    Err(ErrorKindV::DivisionByZero)
                } else {
                    arith(a.spec_div(b))
                }
            } else if op == Operator::Less {
                Ok(ValueV::Boolean(a.spec_lt(b)))
            } else if op == Operator::LessEqual {
                Ok(ValueV::Boolean(!b.spec_lt(a)))
            } else if op == Operator::Greater {
                Ok(ValueV::Boolean(b.spec_lt(a)))
            } else {
                Ok(ValueV::Boolean(!a.spec_lt(b)))
            },
            _ => Err(ErrorKindV::OperandsMustBeNumbers),
        }
    }
}

/// A runtime error of kind `k` at `line`.
pub open spec fn fail(k: ErrorKindV, line: Option<nat>) -> RuntimeErrorV {
    RuntimeErrorV { kind: k, line }
}

/// The outcome of an operator at `line`: its error, if any, placed there.
pub open spec fn located(r: Result<ValueV, ErrorKindV>, line: nat) -> Result<ValueV, RuntimeErrorV> {
    match r {
        Ok(v) => Ok(v),
        Err(k) => Err(fail(k, Some(line))),
    }
}

/// What a call returns once its body has run.
pub open spec fn call_result(r: Result<Flow, RuntimeErrorV>) -> Result<ValueV, RuntimeErrorV> {
    match r {
        Ok(Flow::Normal) => Ok(ValueV::Nil),
        Ok(Flow::Return(v)) => Ok(v),
        Err(e) => Err(e),
    }
}

/// The size of an expression: its count of nodes.
pub open spec fn expr_size(e: ExprV) -> nat
    decreases e, 0int,
{
    match e {
        ExprV::Binary(l, _, r, _) => 1 + expr_size(*l) + expr_size(*r),
        ExprV::Unary(_, x, _) => 1 + expr_size(*x),
        ExprV::Grouping(x) => 1 + expr_size(*x),
        ExprV::Assignment(_, x, _) => 1 + expr_size(*x),
        ExprV::Call(_, args, _) => 1 + args_size(args, 0),
        _ => 1,
    }
}

/// The size of `args[i..]`.
pub open spec fn args_size(args: Seq<ExprV>, i: int) -> nat
    decreases args, args.len() - i,
{
    if i < 0 || i >= args.len() {
        0
    } else {
        1 + expr_size(args[i]) + args_size(args, i + 1)
    }
}

pub open spec fn opt_expr_size(e: Option<ExprV>) -> nat {
    match e {
        Some(x) => expr_size(x),
        None => 0,
    }
}

/// The size of a statement: its count of nodes.
pub open spec fn stmt_size(s: StmtV) -> nat
    decreases s, 0int,
{
    match s {
        StmtV::Expression(e) => 1 + expr_size(e),
        StmtV::Print(e) => 1 + expr_size(e),
        StmtV::Declaration(_, e) => 1 + expr_size(e),
        StmtV::Return(e) => 1 + expr_size(e),
        StmtV::Block(ss) => 1 + stmts_size(ss, 0),
        StmtV::IfElse(c, t, e) => 1 + expr_size(c) + stmt_size(*t) + match e {
            Some(x) => stmt_size(*x),
            None => 0,
        },
        StmtV::While(c, b) => 1 + expr_size(c) + stmt_size(*b),
        StmtV::For(i, c, n, b) => 1 + match i {
            Some(x) => stmt_size(*x),
            None => 0,
        } + opt_expr_size(c) + opt_expr_size(n) + stmt_size(*b),
        StmtV::Fn(f) => 1 + stmts_size(f.body, 0),
    }
}

/// The size of `ss[i..]`.
pub open spec fn stmts_size(ss: Seq<StmtV>, i: int) -> nat
    decreases ss, ss.len() - i,
{
    if i < 0 || i >= ss.len() {
        0
    } else {
        1 + stmt_size(ss[i]) + stmts_size(ss, i + 1)
    }
}

/// Evaluating `e` in scope `s`, with `d` more calls allowed to nest and
/// loops allowed `f` more iterations.
pub open spec fn eval(st: StateV, s: nat, e: ExprV, d: nat, f: nat) -> EvalR
    decreases d, f, expr_size(e), 0int,
{
    match e {
        ExprV::Number(n) => (st, Ok(ValueV::Number(n))),
        ExprV::Str(t) => (st, Ok(ValueV::Str(t))),
        ExprV::True => (st, Ok(ValueV::Boolean(true))),
        ExprV::False => (st, Ok(ValueV::Boolean(false))),
        ExprV::Nil => (st, Ok(ValueV::Nil)),
        ExprV::Grouping(x) => eval(st, s, *x, d, f),
        ExprV::Identifier(n, line) => match get_var(st.scopes, s as int, n) {
            Some(v) => (st, Ok(v)),
            None => (st, Err(fail(ErrorKindV::UndefinedVariable(n), Some(line)))),
        },
        ExprV::Assignment(n, x, line) => {
            let (st1, r) = eval(st, s, *x, d, f);
            match r {
                Err(err) => (st1, Err(err)),
                Ok(v) => match assign_var(st1.scopes, s as int, n, v) {
                    Some(scopes) => (with_scopes(st1, scopes), Ok(v)),
                    None => (st1, Err(fail(ErrorKindV::UndefinedVariable(n), Some(line)))),
                },
            }
        },
        ExprV::Unary(op, x, line) => {
            let (st1, r) = eval(st, s, *x, d, f);
            match r {
                Err(err) => (st1, Err(err)),
                Ok(v) => (st1, located(unary_value(op, v), line)),
            }
        },
        ExprV::Binary(l, op, r, line) => {
            let (st1, rl) = eval(st, s, *l, d, f);
            match rl {
                Err(err) => (st1, Err(err)),
                Ok(lv) => if op == Operator::Or && truthy_spec(lv) {
                    (st1, Ok(lv))
                } else if op == Operator::And && !truthy_spec(lv) {
                    (st1, Ok(lv))
                } else if op == Operator::Or || op == Operator::And {
                    eval(st1, s, *r, d, f)
                } else {
                    let (st2, rr) = eval(st1, s, *r, d, f);
                    match rr {
                        Err(err) => (st2, Err(err)),
                        Ok(rv) => (st2, located(binary_value(op, lv, rv), line)),
                    }
                },
            }
        },
        ExprV::Call(n, args, line) => {
            let callee = get_var(st.scopes, s as int, n);
            let (st1, ra) = eval_args(st, s, args, 0, d, f, Seq::empty());
            match ra {
                Err(err) => (st1, Err(err)),
                Ok(vals) => match callee {
                    Some(ValueV::Function(fv, captured)) => if fv.params.len() != vals.len() {
                        (
                            st1,
                            Err(fail(ErrorKindV::ArityMismatch(fv.params.len(), vals.len()), Some(line))),
                        )
                    } else if d == 0 {
                        (st1, Err(fail(ErrorKindV::StackOverflow, Some(line))))
                    } else {
                        let (st2, rb) = exec_block(
                            open_call(st1, fv, captured, vals),
                            st1.scopes.len(),
                            fv.body,
                            0,
                            (d - 1) as nat,
                            LOOP_FUEL as nat,
                        );
                        (st2, call_result(rb))
                    },
                    _ => if n == "clock"@ {
                        if vals.len() == 0 {
                            (st1, Ok(ValueV::Number(st1.clock)))
                        } else {
                            (st1, Err(fail(ErrorKindV::ArityMismatch(0, vals.len()), Some(line))))
                        }
                    } else {
                        (st1, Err(fail(ErrorKindV::UndefinedFunction(n), Some(line))))
                    },
                },
            }
        },
    }
}

/// Evaluating `args[i..]` left to right, after the values `acc`.
pub open spec fn eval_args(
    st: StateV,
    s: nat,
    args: Seq<ExprV>,
    i: int,
    d: nat,
    f: nat,
    acc: Seq<ValueV>,
) -> (StateV, Result<Seq<ValueV>, RuntimeErrorV>)
    decreases d, f, args_size(args, i), 0int,
{
    if i < 0 || i >= args.len() {
        (st, Ok(acc))
    } else {
        let (st1, r) = eval(st, s, args[i], d, f);
        match r {
            Err(err) => (st1, Err(err)),
            Ok(v) => eval_args(st1, s, args, i + 1, d, f, acc.push(v)),
        }
    }
}

/// Executing `stmt` in scope `s`.
pub open spec fn exec(st: StateV, s: nat, stmt: StmtV, d: nat, f: nat) -> ExecR
    decreases d, f, stmt_size(stmt), 2int,
{
    match stmt {
        StmtV::Expression(e) => {
            let (st1, r) = eval(st, s, e, d, f);
            match r {
                Err(err) => (st1, Err(err)),
                Ok(_) => (st1, Ok(Flow::Normal)),
            }
        },
        StmtV::Print(e) => {
            let (st1, r) = eval(st, s, e, d, f);
            match r {
                Err(err) => (st1, Err(err)),
                Ok(v) => (
                    StateV { scopes: st1.scopes, out: st1.out.push(display_value(v)), clock: st1.clock },
                    Ok(Flow::Normal),
                ),
            }
        },
        StmtV::Declaration(n, e) => {
            let (st1, r) = eval(st, s, e, d, f);
            match r {
                Err(err) => (st1, Err(err)),
                Ok(v) => (with_scopes(st1, define_var(st1.scopes, s as int, n, v)), Ok(Flow::Normal)),
            }
        },
        StmtV::Block(ss) => exec_block(open_scope(st, s), st.scopes.len(), ss, 0, d, f),
        StmtV::IfElse(c, t, e) => {
            let (st1, r) = eval(st, s, c, d, f);
            match r {
                Err(err) => (st1, Err(err)),
                Ok(v) => if truthy_spec(v) {
                    exec(st1, s, *t, d, f)
                } else {
                    match e {
                        Some(x) => exec(st1, s, *x, d, f),
                        None => (st1, Ok(Flow::Normal)),
                    }
                },
            }
        },
        StmtV::While(_, _) => exec_while(st, s, stmt, d, f),
        StmtV::For(init, _, _, _) => match init {
            Some(i) => {
                let (st1, r) = exec(st, s, *i, d, f);
                match r {
                    Ok(Flow::Normal) => exec_for(st1, s, stmt, d, f),
                    _ => (st1, r),
                }
            },
            None => exec_for(st, s, stmt, d, f),
        },
        StmtV::Fn(fv) => (
            with_scopes(st, define_var(st.scopes, s as int, fv.name, ValueV::Function(fv, s))),
            Ok(Flow::Normal),
        ),
        StmtV::Return(e) => {
            let (st1, r) = eval(st, s, e, d, f);
            match r {
                Err(err) => (st1, Err(err)),
                Ok(v) => (st1, Ok(Flow::Return(v))),
            }
        },
    }
}

/// The iterations of a `while` loop `w`.
pub open spec fn exec_while(st: StateV, s: nat, w: StmtV, d: nat, f: nat) -> ExecR
    decreases d, f, stmt_size(w), 1int,
{
    match w {
        StmtV::While(c, b) => if f == 0 {
            (st, Err(fail(ErrorKindV::LoopLimit, None)))
        } else {
            let (st1, r) = eval(st, s, c, d, f);
            match r {
                Err(err) => (st1, Err(err)),
                Ok(v) => if !truthy_spec(v) {
                    (st1, Ok(Flow::Normal))
                } else {
                    let (st2, rb) = exec(st1, s, *b, d, f);
                    match rb {
                        Ok(Flow::Normal) => exec_while(st2, s, w, d, (f - 1) as nat),
                        _ => (st2, rb),
                    }
                },
            }
        },
        _ => (st, Ok(Flow::Normal)),
    }
}

/// The iterations of a `for` loop `w`, its initializer having run.
pub open spec fn exec_for(st: StateV, s: nat, w: StmtV, d: nat, f: nat) -> ExecR
    decreases d, f, stmt_size(w), 1int,
{
    match w {
        StmtV::For(_, c, step, b) => if f == 0 {
            (st, Err(fail(ErrorKindV::LoopLimit, None)))
        } else {
            let (st1, rc) = match c {
                Some(ce) => eval(st, s, ce, d, f),
                None => (st, Ok(ValueV::Boolean(true))),
            };
            match rc {
                Err(err) => (st1, Err(err)),
                Ok(v) => if !truthy_spec(v) {
                    (st1, Ok(Flow::Normal))
                } else {
                    let (st2, rb) = exec(st1, s, *b, d, f);
                    match rb {
                        Ok(Flow::Normal) => {
                            let (st3, rs) = match step {
                                Some(x) => eval(st2, s, x, d, f),
                                None => (st2, Ok(ValueV::Nil)),
                            };
                            match rs {
                                Err(err) => (st3, Err(err)),
                                Ok(_) => exec_for(st3, s, w, d, (f - 1) as nat),
                            }
                        },
                        _ => (st2, rb),
                    }
                },
            }
        },
        _ => (st, Ok(Flow::Normal)),
    }
}

/// Executing `ss[i..]` in order in scope `s`, stopping at the first that
/// returns or fails.
pub open spec fn exec_block(st: StateV, s: nat, ss: Seq<StmtV>, i: int, d: nat, f: nat) -> ExecR
    decreases d, f, stmts_size(ss, i), 0int,
{
    if i < 0 || i >= ss.len() {
        (st, Ok(Flow::Normal))
    } else {
        let (st1, r) = exec(st, s, ss[i], d, f);
        match r {
            Ok(Flow::Normal) => exec_block(st1, s, ss, i + 1, d, f),
            _ => (st1, r),
        }
    }
}

/// Executing one top-level statement in the global scope; a `return` there
/// is an error.
pub open spec fn exec_top(st: StateV, stmt: StmtV) -> (StateV, Result<(), RuntimeErrorV>) {
    let (st1, r) = exec(st, 0, stmt, MAX_CALL_DEPTH as nat, LOOP_FUEL as nat);
    match r {
        Ok(Flow::Normal) => (st1, Ok(())),
        Ok(Flow::Return(_)) => (st1, Err(fail(ErrorKindV::TopLevelReturn, None))),
        Err(err) => (st1, Err(err)),
    }
}

/// Executing `ss[i..]` at the top level, stopping at the first error.
pub open spec fn run_from(st: StateV, ss: Seq<StmtV>, i: int) -> (StateV, Result<(), RuntimeErrorV>)
    decreases ss.len() - i,
{
    if i < 0 || i >= ss.len() {
        (st, Ok(()))
    } else {
        let (st1, r) = exec_top(st, ss[i]);
        match r {
            Ok(()) => run_from(st1, ss, i + 1),
            Err(err) => (st1, Err(err)),
        }
    }
}

/// The state a run starts in: one empty global scope, nothing printed.
pub open spec fn initial_state(clock: Number) -> StateV {
    StateV {
        scopes: seq![ScopeV { names: Seq::empty(), values: Seq::empty(), enclosing: None }],
        out: Seq::empty(),
        clock,
    }
}

pub proof fn lemma_args_size_bound(args: Seq<ExprV>, j: int, i: int)
    requires
        0 <= j <= i < args.len(),
    ensures
        expr_size(args[i]) < args_size(args, j),
    decreases i - j,
{
    if j < i {
        lemma_args_size_bound(args, j + 1, i);
    }
}

pub proof fn lemma_stmts_size_bound(ss: Seq<StmtV>, j: int, i: int)
    requires
        0 <= j <= i < ss.len(),
    ensures
        stmt_size(ss[i]) < stmts_size(ss, j),
    decreases i - j,
{
    if j < i {
        lemma_stmts_size_bound(ss, j + 1, i);
    }
}

} // verus!
