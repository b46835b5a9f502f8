//! The tree-walking evaluator, proved to follow `semantics.rs`.

use vstd::prelude::*;
use crate::ast::{
    ExprV, Expression, Operator, Primary, Statement, StmtV, Unary, all_exprs_view, all_stmts_view,
    expr_view, lemma_exprs_view_index, lemma_exprs_view_len, lemma_stmts_view_index,
    lemma_stmts_view_len, opt_expr_view, stmt_view,
};
use crate::environment::Environment;
use crate::number::Number;
use crate::semantics::{
    Flow, LOOP_FUEL, MAX_CALL_DEPTH, StateV, binary_value, eval, eval_args, exec, exec_block, get_var, located,
    exec_for, exec_top, exec_while, expr_size, initial_state, lemma_args_size_bound,
    lemma_stmts_size_bound, open_call, stmt_size, stmts_size, unary_value,
};
use crate::value::{
    ErrorKind, ErrorKindV, RuntimeError, RuntimeErrorV, Value, ValueV, error_view, kind_view,
    opt_value_view, share, truthy, value_view, values_view,
};

verus! {

/// How a statement ends when it does not fail.
#[derive(Debug)]
pub enum ControlFlow {
    Normal,
    Return(Value),
}

pub open spec fn value_result(r: Result<Value, RuntimeError>) -> Result<ValueV, RuntimeErrorV> {
    match r {
        Ok(v) => Ok(value_view(v)),
        Err(e) => Err(error_view(e)),
    }
}

pub open spec fn kind_result(r: Result<Value, ErrorKind>) -> Result<ValueV, ErrorKindV> {
    match r {
        Ok(v) => Ok(value_view(v)),
        Err(k) => Err(kind_view(k)),
    }
}

pub open spec fn flow_result(r: Result<ControlFlow, RuntimeError>) -> Result<Flow, RuntimeErrorV> {
    match r {
        Ok(ControlFlow::Normal) => Ok(Flow::Normal),
        Ok(ControlFlow::Return(v)) => Ok(Flow::Return(value_view(v))),
        Err(e) => Err(error_view(e)),
    }
}

pub open spec fn unit_result(r: Result<(), RuntimeError>) -> Result<(), RuntimeErrorV> {
    match r {
        Ok(()) => Ok(()),
        Err(e) => Err(error_view(e)),
    }
}

pub open spec fn lines_view(out: Seq<String>) -> Seq<Seq<char>> {
    out.map_values(|s: String| s@)
}

/// The state of a run: scopes, the lines printed so far, and the reading
/// that `clock()` returns.
pub struct Interpreter {
    pub env: Environment,
    pub output: Vec<String>,
    pub clock: Number,
}

impl View for Interpreter {
    type V = StateV;

    open spec fn view(&self) -> StateV {
        StateV { scopes: self.env.view(), out: lines_view(self.output@), clock: self.clock }
    }
}

fn unary_exec(op: Unary, v: Value) -> (r: Result<Value, ErrorKind>)
    ensures
        kind_result(r) == unary_value(op, value_view(v)),
{
    match op {
        Unary::Bang => Ok(Value::Boolean(!truthy(&v))),
        Unary::Minus => match v {
            Value::Number(n) => match n.neg() {
                Some(m) => Ok(Value::Number(m)),
                None => Err(ErrorKind::NumberOutOfRange),
            },
            _ => Err(ErrorKind::OperandMustBeNumber),
        },
    }
}

fn arith_exec(r: Option<Number>) -> (res: Result<Value, ErrorKind>)
    ensures
        kind_result(res) == crate::semantics::arith(r),
{
    match r {
        Some(n) => Ok(Value::Number(n)),
        None => Err(ErrorKind::NumberOutOfRange),
    }
}

/// The value of a binary operator other than `and` and `or`.
fn binary_exec(op: Operator, l: Value, r: Value) -> (res: Result<Value, ErrorKind>)
    ensures
        kind_result(res) == binary_value(op, value_view(l), value_view(r)),
{
    if op == Operator::EqualEqual {
        return Ok(Value::Boolean(l.equals(&r)));
    }
    if op == Operator::BangEqual {
        return Ok(Value::Boolean(!l.equals(&r)));
    }
    if op == Operator::Plus {
        return match (l, r) {
            (Value::Number(a), Value::Number(b)) => arith_exec(a.add(&b)),
            (Value::String(a), Value::String(b)) => {
                let mut s = a;
                crate::text::push_string(&mut s, &b);
                Ok(Value::String(s))
            },
            _ => Err(ErrorKind::OperandsMustBeNumbersOrStrings),
        };
    }
    match (l, r) {
        (Value::Number(a), Value::Number(b)) => {
            if op == Operator::Minus {
                arith_exec(a.sub(&b))
            } else if op == Operator::Star {
                arith_exec(a.mul(&b))
            } else if op == Operator::Slash {
                if b.is_zero() {
                    Err(ErrorKind::DivisionByZero)
                } else {
                    arith_exec(a.div(&b))
                }
            } else if op == Operator::Less {
                Ok(Value::Boolean(a.less(&b)))
            } else if op == Operator::LessEqual {
                Ok(Value::Boolean(!b.less(&a)))
            } else if op == Operator::Greater {
                Ok(Value::Boolean(b.less(&a)))
            } else {
                Ok(Value::Boolean(!a.less(&b)))
            }
        },
        _ => Err(ErrorKind::OperandsMustBeNumbers),
    }
}

/// The outcome of an operator at `line`: its error, if any, placed there.
fn locate(r: Result<Value, ErrorKind>, line: usize) -> (res: Result<Value, RuntimeError>)
    ensures
        value_result(res) == located(kind_result(r), line as nat),
{
    match r {
        Ok(v) => Ok(v),
        Err(k) => Err(RuntimeError { kind: k, line: Some(line) }),
    }
}

impl Interpreter {
    pub open spec fn wf(&self) -> bool {
        self.env.wf()
    }

    /// A run with an empty global scope, nothing printed, and `clock` as
    /// the reading `clock()` returns.
    pub fn new(clock: Number) -> (r: Interpreter)
        ensures
            r.wf(),
            r@ == initial_state(clock),
    {
        let r = Interpreter { env: Environment::new(), output: Vec::new(), clock };
        assert(lines_view(r.output@) =~= Seq::<Seq<char>>::empty());
        r
    }

    /// Sets the reading that `clock()` returns from now on; until the next
    /// call, every `clock()` returns this same value.
    pub fn set_clock(&mut self, clock: Number)
        ensures
            final(self).wf() == old(self).wf(),
            final(self)@ == (StateV { scopes: old(self)@.scopes, out: old(self)@.out, clock }),
            final(self).env.scopes@.len() == old(self).env.scopes@.len(),
    {
        self.clock = clock;
    }

    /// Evaluates `e` in scope `s`, with `d` more calls allowed to nest and
    /// loops allowed `f` more iterations.
    pub fn evaluate(&mut self, s: usize, e: &Expression, d: usize, f: u64) -> (r: Result<
        Value,
        RuntimeError,
    >)
        requires
            old(self).wf(),
            s < old(self).env.scopes@.len(),
        ensures
            final(self).wf(),
            final(self).env.scopes@.len() >= old(self).env.scopes@.len(),
            (final(self)@, value_result(r)) == eval(old(self)@, s as nat, expr_view(*e), d as nat, f as nat),
        decreases d, f, expr_size(expr_view(*e)), 1int,
    {
        match e {
            Expression::Primary(p) => match p {
                Primary::Number(n) => Ok(Value::Number(*n)),
                Primary::String(t) => Ok(Value::String(t.clone())),
                Primary::True => Ok(Value::Boolean(true)),
                Primary::False => Ok(Value::Boolean(false)),
                Primary::Nil => Ok(Value::Nil),
                Primary::Grouping(x) => self.evaluate(s, x, d, f),
                Primary::Identifier(n, line) => match self.env.get(s, n) {
                    Some(v) => Ok(v),
                    None => Err(
                        RuntimeError { kind: ErrorKind::UndefinedVariable(n.clone()), line: Some(*line) },
                    ),
                },
                Primary::Call(n, args, line) => self.call(s, n, args, *line, d, f),
            },
            Expression::Assignment(n, x, line) => {
                let v = match self.evaluate(s, x, d, f) {
                    Ok(v) => v,
                    Err(err) => return Err(err),
                };
                let c = v.copy();
                match self.env.assign(s, n, v) {
                    Ok(()) => Ok(c),
                    Err(k) => Err(RuntimeError { kind: k, line: Some(*line) }),
                }
            },
            Expression::Unary(op, x, line) => {
                let v = match self.evaluate(s, x, d, f) {
                    Ok(v) => v,
                    Err(err) => return Err(err),
                };
                locate(unary_exec(*op, v), *line)
            },
            Expression::Binary(l, op, r, line) => {
                let lv = match self.evaluate(s, l, d, f) {
                    Ok(v) => v,
                    Err(err) => return Err(err),
                };
                if *op == Operator::Or && truthy(&lv) {
                    return Ok(lv);
                }
                if *op == Operator::And && !truthy(&lv) {
                    return Ok(lv);
                }
                if *op == Operator::Or || *op == Operator::And {
                    return self.evaluate(s, r, d, f);
                }
                let rv = match self.evaluate(s, r, d, f) {
                    Ok(v) => v,
                    Err(err) => return Err(err),
                };
                locate(binary_exec(*op, lv, rv), *line)
            },
        }
    }

    /// Evaluates the call of `name` with `args` in scope `s`.
    fn call(
        &mut self,
        s: usize,
        name: &String,
        args: &Vec<Expression>,
        line: usize,
        d: usize,
        f: u64,
    ) -> (r: Result<Value, RuntimeError>)
        requires
            old(self).wf(),
            s < old(self).env.scopes@.len(),
        ensures
            final(self).wf(),
            final(self).env.scopes@.len() >= old(self).env.scopes@.len(),
            (final(self)@, value_result(r)) == eval(
                old(self)@,
                s as nat,
                ExprV::Call(name@, all_exprs_view(args@), line as nat),
                d as nat,
                f as nat,
            ),
        decreases d, f, expr_size(ExprV::Call(name@, all_exprs_view(args@), line as nat)), 0int,
    {
        let callee = self.env.get(s, name);
        let ghost argsv = all_exprs_view(args@);
        let ghost target = eval_args(self@, s as nat, argsv, 0, d as nat, f as nat, Seq::empty());
        let mut vals: Vec<Value> = Vec::new();
        let mut i: usize = 0;
        proof {
            lemma_exprs_view_len(args@, args@.len() as int);
            assert(values_view(vals@) =~= Seq::<ValueV>::empty());
        }
        while i < args.len()
            invariant
                self.wf(),
                s < self.env.scopes@.len(),
                self.env.scopes@.len() >= old(self).env.scopes@.len(),
                argsv == all_exprs_view(args@),
                argsv.len() == args@.len(),
                i <= args@.len(),
                target == eval_args(old(self)@, s as nat, argsv, 0, d as nat, f as nat, Seq::empty()),
                target == eval_args(self@, s as nat, argsv, i as int, d as nat, f as nat, values_view(vals@)),
                opt_value_view(callee) == get_var(old(self)@.scopes, s as int, name@),
            decreases args.len() - i,
        {
            proof {
                lemma_exprs_view_index(args@, args@.len() as int, i as int);
                lemma_args_size_bound(argsv, 0, i as int);
            }
            let v = match self.evaluate(s, &args[i], d, f) {
                Ok(v) => v,
                Err(err) => return Err(err),
            };
            let ghost before = vals@;
            vals.push(v);
            assert(values_view(vals@) =~= values_view(before).push(value_view(v)));
            i = i + 1;
        }
        assert(target == (self@, Ok::<Seq<ValueV>, RuntimeErrorV>(values_view(vals@))));
        match callee {
            Some(Value::Function(decl, captured)) => {
                if decl.params.len() != vals.len() {
                    return Err(
                        RuntimeError {
                            kind: ErrorKind::ArityMismatch(decl.params.len(), vals.len()),
                            line: Some(line),
                        },
                    );
                }
                if d == 0 {
                    return Err(RuntimeError { kind: ErrorKind::StackOverflow, line: Some(line) });
                }
                let scope = self.env.open_call(&decl, captured, vals);
                match self.run_block(scope, &decl.body, d - 1, LOOP_FUEL) {
                    Ok(ControlFlow::Normal) => Ok(Value::Nil),
                    Ok(ControlFlow::Return(v)) => Ok(v),
                    Err(err) => Err(err),
                }
            },
            _ => {
                if *name == String::from_str("clock") {
                    if vals.len() == 0 {
                        Ok(Value::Number(self.clock))
                    } else {
                        Err(RuntimeError { kind: ErrorKind::ArityMismatch(0, vals.len()), line: Some(line) })
                    }
                } else {
                    Err(RuntimeError { kind: ErrorKind::UndefinedFunction(name.clone()), line: Some(line) })
                }
            },
        }
    }

    /// Executes `ss` in order in scope `s`, stopping at the first statement
    /// that returns or fails.
    pub fn run_block(&mut self, s: usize, ss: &Vec<Statement>, d: usize, f: u64) -> (r: Result<
        ControlFlow,
        RuntimeError,
    >)
        requires
            old(self).wf(),
            s < old(self).env.scopes@.len(),
        ensures
            final(self).wf(),
            final(self).env.scopes@.len() >= old(self).env.scopes@.len(),
            (final(self)@, flow_result(r)) == exec_block(
                old(self)@,
                s as nat,
                all_stmts_view(ss@),
                0,
                d as nat,
                f as nat,
            ),
        decreases d, f, stmts_size(all_stmts_view(ss@), 0), 0int,
    {
        let ghost ssv = all_stmts_view(ss@);
        let ghost target = exec_block(self@, s as nat, ssv, 0, d as nat, f as nat);
        let mut i: usize = 0;
        proof {
            lemma_stmts_view_len(ss@, ss@.len() as int);
        }
        while i < ss.len()
            invariant
                self.wf(),
                s < self.env.scopes@.len(),
                self.env.scopes@.len() >= old(self).env.scopes@.len(),
                ssv == all_stmts_view(ss@),
                ssv.len() == ss@.len(),
                i <= ss@.len(),
                target == exec_block(old(self)@, s as nat, ssv, 0, d as nat, f as nat),
                target == exec_block(self@, s as nat, ssv, i as int, d as nat, f as nat),
            decreases ss.len() - i,
        {
            proof {
                lemma_stmts_view_index(ss@, ss@.len() as int, i as int);
                lemma_stmts_size_bound(ssv, 0, i as int);
            }
            match self.execute(s, &ss[i], d, f) {
                Ok(ControlFlow::Normal) => {},
                other => return other,
            }
            i = i + 1;
        }
        Ok(ControlFlow::Normal)
    }

    /// Executes `stmt` in scope `s`.
    pub fn execute(&mut self, s: usize, stmt: &Statement, d: usize, f: u64) -> (r: Result<
        ControlFlow,
        RuntimeError,
    >)
        requires
            old(self).wf(),
            s < old(self).env.scopes@.len(),
        ensures
            final(self).wf(),
            final(self).env.scopes@.len() >= old(self).env.scopes@.len(),
            (final(self)@, flow_result(r)) == exec(old(self)@, s as nat, stmt_view(*stmt), d as nat, f as nat),
        decreases d, f, stmt_size(stmt_view(*stmt)), 2int,
    {
        match stmt {
            Statement::Expression(e) => match self.evaluate(s, e, d, f) {
                Ok(_) => Ok(ControlFlow::Normal),
                Err(err) => Err(err),
            },
            Statement::Print(e) => match self.evaluate(s, e, d, f) {
                Ok(v) => {
                    let line = v.display();
                    let ghost before = self.output@;
                    self.output.push(line);
                    assert(lines_view(self.output@) =~= lines_view(before).push(line@));
                    Ok(ControlFlow::Normal)
                },
                Err(err) => Err(err),
            },
            Statement::Declaration(n, e) => match self.evaluate(s, e, d, f) {
                Ok(v) => {
                    self.env.define(s, n.clone(), v);
                    Ok(ControlFlow::Normal)
                },
                Err(err) => Err(err),
            },
            Statement::Block(ss) => {
                let scope = self.env.with_enclosing(s);
                self.run_block(scope, ss, d, f)
            },
            Statement::IfElse(c, t, e) => {
                let v = match self.evaluate(s, c, d, f) {
                    Ok(v) => v,
                    Err(err) => return Err(err),
                };
                if truthy(&v) {
                    self.execute(s, t, d, f)
                } else {
                    match e {
                        Some(x) => self.execute(s, x, d, f),
                        None => Ok(ControlFlow::Normal),
                    }
                }
            },
            Statement::While(_, _) => self.run_while(s, stmt, d, f),
            Statement::For(init, _, _, _) => {
                match init {
                    Some(i) => match self.execute(s, i, d, f) {
                        Ok(ControlFlow::Normal) => {},
                        other => return other,
                    },
                    None => {},
                }
                self.run_for(s, stmt, d, f)
            },
            Statement::Fn(decl) => {
                self.env.define(s, decl.name.clone(), Value::Function(share(decl), s));
                Ok(ControlFlow::Normal)
            },
            Statement::Return(e) => match self.evaluate(s, e, d, f) {
                Ok(v) => Ok(ControlFlow::Return(v)),
                Err(err) => Err(err),
            },
        }
    }

    /// Runs the iterations of the `while` loop `w`.
    fn run_while(&mut self, s: usize, w: &Statement, d: usize, f: u64) -> (r: Result<
        ControlFlow,
        RuntimeError,
    >)
        requires
            old(self).wf(),
            s < old(self).env.scopes@.len(),
        ensures
            final(self).wf(),
            final(self).env.scopes@.len() >= old(self).env.scopes@.len(),
            (final(self)@, flow_result(r)) == exec_while(
                old(self)@,
                s as nat,
                stmt_view(*w),
                d as nat,
                f as nat,
            ),
        decreases d, f, stmt_size(stmt_view(*w)), 1int,
    {
        match w {
            Statement::While(c, b) => {
                let ghost wv = stmt_view(*w);
                let ghost target = exec_while(self@, s as nat, wv, d as nat, f as nat);
                let mut k = f;
                loop
                    invariant
                        self.wf(),
                        s < self.env.scopes@.len(),
                        self.env.scopes@.len() >= old(self).env.scopes@.len(),
                        wv == stmt_view(*w),
                        wv == StmtV::While(expr_view(*c), Box::new(stmt_view(**b))),
                        expr_size(expr_view(*c)) < stmt_size(wv),
                        stmt_size(stmt_view(**b)) < stmt_size(wv),
                        k <= f,
                        target == exec_while(old(self)@, s as nat, wv, d as nat, f as nat),
                        target == exec_while(self@, s as nat, wv, d as nat, k as nat),
                    decreases k,
                {
                    if k == 0 {
                        return Err(RuntimeError { kind: ErrorKind::LoopLimit, line: None });
                    }
                    let v = match self.evaluate(s, c, d, k) {
                        Ok(v) => v,
                        Err(err) => return Err(err),
                    };
                    if !truthy(&v) {
                        return Ok(ControlFlow::Normal);
                    }
                    match self.execute(s, b, d, k) {
                        Ok(ControlFlow::Normal) => {},
                        other => return other,
                    }
                    k = k - 1;
                }
            },
            _ => Ok(ControlFlow::Normal),
        }
    }

    /// Runs the iterations of the `for` loop `w`, its initializer having run.
    fn run_for(&mut self, s: usize, w: &Statement, d: usize, f: u64) -> (r: Result<
        ControlFlow,
        RuntimeError,
    >)
        requires
            old(self).wf(),
            s < old(self).env.scopes@.len(),
        ensures
            final(self).wf(),
            final(self).env.scopes@.len() >= old(self).env.scopes@.len(),
            (final(self)@, flow_result(r)) == exec_for(
                old(self)@,
                s as nat,
                stmt_view(*w),
                d as nat,
                f as nat,
            ),
        decreases d, f, stmt_size(stmt_view(*w)), 1int,
    {
        match w {
            Statement::For(_, c, step, b) => {
                let ghost wv = stmt_view(*w);
                let ghost target = exec_for(self@, s as nat, wv, d as nat, f as nat);
                let mut k = f;
                loop
                    invariant
                        self.wf(),
                        s < self.env.scopes@.len(),
                        self.env.scopes@.len() >= old(self).env.scopes@.len(),
                        wv == stmt_view(*w),
                        wv is For,
                        wv->For_1 == opt_expr_view(*c),
                        wv->For_2 == opt_expr_view(*step),
                        *wv->For_3 == stmt_view(**b),
                        stmt_size(stmt_view(**b)) < stmt_size(wv),
                        c is Some ==> expr_size(expr_view(c->Some_0)) < stmt_size(wv),
                        step is Some ==> expr_size(expr_view(step->Some_0)) < stmt_size(wv),
                        k <= f,
                        target == exec_for(old(self)@, s as nat, wv, d as nat, f as nat),
                        target == exec_for(self@, s as nat, wv, d as nat, k as nat),
                    decreases k,
                {
                    if k == 0 {
                        return Err(RuntimeError { kind: ErrorKind::LoopLimit, line: None });
                    }
                    let go = match c {
                        Some(ce) => match self.evaluate(s, ce, d, k) {
                            Ok(v) => truthy(&v),
                            Err(err) => return Err(err),
                        },
                        None => true,
                    };
                    if !go {
                        return Ok(ControlFlow::Normal);
                    }
                    match self.execute(s, b, d, k) {
                        Ok(ControlFlow::Normal) => {},
                        other => return other,
                    }
                    match step {
                        Some(x) => match self.evaluate(s, x, d, k) {
                            Ok(_) => {},
                            Err(err) => return Err(err),
                        },
                        None => {},
                    }
                    k = k - 1;
                }
            },
            _ => Ok(ControlFlow::Normal),
        }
    }

    /// Executes one top-level statement in the global scope; a `return`
    /// there is an error.
    pub fn execute_top(&mut self, stmt: &Statement) -> (r: Result<(), RuntimeError>)
        requires
            old(self).wf(),
            old(self).env.scopes@.len() >= 1,
        ensures
            final(self).wf(),
            final(self).env.scopes@.len() >= old(self).env.scopes@.len(),
            (final(self)@, unit_result(r)) == exec_top(old(self)@, stmt_view(*stmt)),
    {
        match self.execute(0, stmt, MAX_CALL_DEPTH, LOOP_FUEL) {
            Ok(ControlFlow::Normal) => Ok(()),
            Ok(ControlFlow::Return(_)) => Err(RuntimeError { kind: ErrorKind::TopLevelReturn, line: None }),
            Err(err) => Err(err),
        }
    }
}

} // verus!
