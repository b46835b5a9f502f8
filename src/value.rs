//! Runtime values and runtime errors.

use vstd::prelude::*;
use std::rc::Rc;
use crate::ast::{Function, FunctionV, function_view};
use crate::number::Number;
use crate::text::{nat_digits, push_digits, push_str, push_string};

verus! {

/// A runtime value; a function value holds its declaration and the scope
/// it was declared in.
#[derive(Debug)]
pub enum Value {
    Number(Number),
    String(String),
    Boolean(bool),
    Nil,
    Function(Rc<Function>, usize),
}

/// What a value denotes.
pub enum ValueV {
    Number(Number),
    Str(Seq<char>),
    Boolean(bool),
    Nil,
    Function(FunctionV, nat),
}

pub open spec fn value_view(v: Value) -> ValueV {
    match v {
        Value::Number(n) => ValueV::Number(n),
        Value::String(s) => ValueV::Str(s@),
        Value::Boolean(b) => ValueV::Boolean(b),
        Value::Nil => ValueV::Nil,
        Value::Function(f, s) => ValueV::Function(function_view(*f), s as nat),
    }
}

pub open spec fn opt_value_view(o: Option<Value>) -> Option<ValueV> {
    match o {
        Some(v) => Some(value_view(v)),
        None => None,
    }
}

pub open spec fn values_view(vs: Seq<Value>) -> Seq<ValueV> {
    vs.map_values(|v: Value| value_view(v))
}

/// What went wrong at run time.
#[derive(Debug)]
pub enum ErrorKind {
    OperandMustBeNumber,
    OperandsMustBeNumbers,
    OperandsMustBeNumbersOrStrings,
    UndefinedVariable(String),
    UndefinedFunction(String),
    /// The count of parameters, then of arguments.
    ArityMismatch(usize, usize),
    DivisionByZero,
    /// An arithmetic result that does not fit a number.
    NumberOutOfRange,
    /// Calls nested deeper than the interpreter allows.
    StackOverflow,
    /// A loop ran more iterations than the interpreter allows.
    LoopLimit,
    TopLevelReturn,
}

pub enum ErrorKindV {
    OperandMustBeNumber,
    OperandsMustBeNumbers,
    OperandsMustBeNumbersOrStrings,
    UndefinedVariable(Seq<char>),
    UndefinedFunction(Seq<char>),
    ArityMismatch(nat, nat),
    DivisionByZero,
    NumberOutOfRange,
    StackOverflow,
    LoopLimit,
    TopLevelReturn,
}

pub open spec fn kind_view(e: ErrorKind) -> ErrorKindV {
    match e {
        ErrorKind::OperandMustBeNumber => ErrorKindV::OperandMustBeNumber,
        ErrorKind::OperandsMustBeNumbers => ErrorKindV::OperandsMustBeNumbers,
        ErrorKind::OperandsMustBeNumbersOrStrings => ErrorKindV::OperandsMustBeNumbersOrStrings,
        ErrorKind::UndefinedVariable(n) => ErrorKindV::UndefinedVariable(n@),
        ErrorKind::UndefinedFunction(n) => ErrorKindV::UndefinedFunction(n@),
        ErrorKind::ArityMismatch(a, b) => ErrorKindV::ArityMismatch(a as nat, b as nat),
        ErrorKind::DivisionByZero => ErrorKindV::DivisionByZero,
        ErrorKind::NumberOutOfRange => ErrorKindV::NumberOutOfRange,
        ErrorKind::StackOverflow => ErrorKindV::StackOverflow,
        ErrorKind::LoopLimit => ErrorKindV::LoopLimit,
        ErrorKind::TopLevelReturn => ErrorKindV::TopLevelReturn,
    }
}

/// A runtime error and the line of the expression where it arose; no line
/// for an error that belongs to a whole statement (a loop out of
/// iterations, a `return` at the top level).
#[derive(Debug)]
pub struct RuntimeError {
    pub kind: ErrorKind,
    pub line: Option<usize>,
}

pub struct RuntimeErrorV {
    pub kind: ErrorKindV,
    pub line: Option<nat>,
}

pub open spec fn error_view(e: RuntimeError) -> RuntimeErrorV {
    RuntimeErrorV {
        kind: kind_view(e.kind),
        line: match e.line {
            Some(l) => Some(l as nat),
            None => None,
        },
    }
}

/// The diagnostic reported for a runtime error: its message, a newline,
/// and `[line N]` with its own line or, where it has none, `fallback`, the
/// line of the statement it belongs to.
pub open spec fn runtime_report(e: RuntimeErrorV, fallback: nat) -> Seq<char> {
    let line = match e.line {
        Some(l) => l,
        None => fallback,
    };
    kind_message(e.kind) + "\n[line "@ + nat_digits(line) + "]"@
}

impl RuntimeError {
    /// The message reported for this error.
    pub fn message(&self) -> (r: String)
        ensures
            r@ == kind_message(kind_view(self.kind)),
    {
        self.kind.message()
    }

    /// The diagnostic reported for this error; see `runtime_report`.
    pub fn report(&self, fallback: usize) -> (r: String)
        ensures
            r@ == runtime_report(error_view(*self), fallback as nat),
    {
        let mut out = self.kind.message();
        push_str(&mut out, "\n[line ");
        let line = match self.line {
            Some(l) => l,
            None => fallback,
        };
        push_digits(&mut out, line as u128);
        push_str(&mut out, "]");
        out
    }
}

/// `Nil` and `false` are false; every other value is true, zero included.
pub open spec fn truthy_spec(v: ValueV) -> bool {
    match v {
        ValueV::Nil => false,
        ValueV::Boolean(b) => b,
        _ => true,
    }
}

/// Equality of the language: values of different kinds are never equal;
/// numbers compare by value; two functions are equal when they are the
/// same declaration (name, parameters and body) captured in the same scope.
pub open spec fn values_equal(a: ValueV, b: ValueV) -> bool {
    match a {
        ValueV::Number(x) => b is Number && x.same_value(b->Number_0),
        ValueV::Str(x) => b is Str && x == b->Str_0,
        ValueV::Boolean(x) => b is Boolean && x == b->Boolean_0,
        ValueV::Nil => b is Nil,
        ValueV::Function(f, s) => b is Function && f == b->Function_0 && s == b->Function_1,
    }
}

/// How a value prints.
pub open spec fn display_value(v: ValueV) -> Seq<char> {
    match v {
        ValueV::Number(n) => n.display(),
        ValueV::Str(s) => s,
        ValueV::Boolean(b) => if b {
            seq!['t', 'r', 'u', 'e']
        } else {
            seq!['f', 'a', 'l', 's', 'e']
        },
        ValueV::Nil => seq!['n', 'i', 'l'],
        ValueV::Function(f, _) => seq!['<', 'f', 'n', ' '] + f.name + seq!['>'],
    }
}

/// Relies on `Rc::clone`: the clone is a handle to the same value.
#[verifier::external_body]
pub(crate) fn share(f: &Rc<Function>) -> (r: Rc<Function>)
    ensures
        r == *f,
{
    Rc::clone(f)
}

/// Whether `v` is true in a condition.
pub fn truthy(v: &Value) -> (r: bool)
    ensures
        r == truthy_spec(value_view(*v)),
{
    match v {
        Value::Nil => false,
        Value::Boolean(b) => *b,
        _ => true,
    }
}

fn char_seq(cs: &[char]) -> (r: String)
    ensures
        r@ == cs@,
{
    let mut r = String::new();
    let mut i: usize = 0;
    while i < cs.len()
        invariant
            0 <= i <= cs@.len(),
            r@ == cs@.take(i as int),
        decreases cs.len() - i,
    {
        crate::text::push_char(&mut r, cs[i]);
        assert(cs@.take(i as int + 1) =~= cs@.take(i as int).push(cs@[i as int]));
        i = i + 1;
    }
    assert(cs@.take(cs@.len() as int) =~= cs@);
    r
}

impl Value {
    /// A copy of this value.
    pub fn copy(&self) -> (r: Value)
        ensures
            value_view(r) == value_view(*self),
    {
        match self {
            Value::Number(n) => Value::Number(*n),
            Value::String(s) => Value::String(s.clone()),
            Value::Boolean(b) => Value::Boolean(*b),
            Value::Nil => Value::Nil,
            Value::Function(f, s) => Value::Function(share(f), *s),
        }
    }

    /// How this value prints.
    pub fn display(&self) -> (r: String)
        ensures
            r@ == display_value(value_view(*self)),
    {
        match self {
            Value::Number(n) => {
                let mut out = String::new();
                n.push_display(&mut out);
                assert(out@ =~= n.display());
                out
            },
            Value::String(s) => s.clone(),
            Value::Boolean(b) => if *b {
                char_seq(&['t', 'r', 'u', 'e'])
            } else {
                char_seq(&['f', 'a', 'l', 's', 'e'])
            },
            Value::Nil => char_seq(&['n', 'i', 'l']),
            Value::Function(f, _) => {
                let mut out = char_seq(&['<', 'f', 'n', ' ']);
                push_string(&mut out, &f.name);
                crate::text::push_char(&mut out, '>');
                assert(out@ =~= seq!['<', 'f', 'n', ' '] + f.name@ + seq!['>']);
                out
            },
        }
    }

    /// Equality of the language; see `values_equal`.
    pub fn equals(&self, o: &Value) -> (r: bool)
        ensures
            r == values_equal(value_view(*self), value_view(*o)),
    {
        match self {
            Value::Number(x) => match o {
                Value::Number(y) => x.equals(y),
                _ => false,
            },
            Value::String(x) => match o {
                Value::String(y) => *x == *y,
                _ => false,
            },
            Value::Boolean(x) => match o {
                Value::Boolean(y) => *x == *y,
                _ => false,
            },
            Value::Nil => match o {
                Value::Nil => true,
                _ => false,
            },
            Value::Function(f, s) => match o {
                Value::Function(g, t) => crate::compare::function_same(f, g) && *s == *t,
                _ => false,
            },
        }
    }
}

impl ErrorKind {
    /// The message reported for this error.
    pub fn message(&self) -> (r: String)
        ensures
            r@ == kind_message(kind_view(*self)),
    {
        match self {
            ErrorKind::OperandMustBeNumber => String::from_str("Operand must be a number."),
            ErrorKind::OperandsMustBeNumbers => String::from_str("Operands must be numbers."),
            ErrorKind::OperandsMustBeNumbersOrStrings => String::from_str(
                "Operands must be two numbers or two strings.",
            ),
            ErrorKind::UndefinedVariable(n) => {
                let mut out = String::from_str("Undefined variable '");
                push_string(&mut out, n);
                push_str(&mut out, "'");
                out
            },
            ErrorKind::UndefinedFunction(n) => {
                let mut out = String::from_str("Undefined function '");
                push_string(&mut out, n);
                push_str(&mut out, "'");
                out
            },
            ErrorKind::ArityMismatch(expected, got) => {
                let mut out = String::from_str("Expected ");
                push_digits(&mut out, *expected as u128);
                push_str(&mut out, " arguments but got ");
                push_digits(&mut out, *got as u128);
                push_str(&mut out, ".");
                out
            },
            ErrorKind::DivisionByZero => String::from_str("Division by zero."),
            ErrorKind::NumberOutOfRange => String::from_str("Number out of range."),
            ErrorKind::StackOverflow => String::from_str("Stack overflow."),
            ErrorKind::LoopLimit => String::from_str("Loop iteration limit reached."),
            ErrorKind::TopLevelReturn => String::from_str("Can't return from top-level code."),
        }
    }
}

/// The message reported for a runtime error.
pub open spec fn kind_message(e: ErrorKindV) -> Seq<char> {
    match e {
        ErrorKindV::OperandMustBeNumber => "Operand must be a number."@,
        ErrorKindV::OperandsMustBeNumbers => "Operands must be numbers."@,
        ErrorKindV::OperandsMustBeNumbersOrStrings => "Operands must be two numbers or two strings."@,
        ErrorKindV::UndefinedVariable(n) => "Undefined variable '"@ + n + "'"@,
        ErrorKindV::UndefinedFunction(n) => "Undefined function '"@ + n + "'"@,
        ErrorKindV::ArityMismatch(expected, got) => "Expected "@ + nat_digits(expected)
            + " arguments but got "@ + nat_digits(got) + "."@,
        ErrorKindV::DivisionByZero => "Division by zero."@,
        ErrorKindV::NumberOutOfRange => "Number out of range."@,
        ErrorKindV::StackOverflow => "Stack overflow."@,
        ErrorKindV::LoopLimit => "Loop iteration limit reached."@,
        ErrorKindV::TopLevelReturn => "Can't return from top-level code."@,
    }
}

} // verus!
