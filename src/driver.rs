//! Whole runs: source text through the lexer, the parser and the
//! interpreter, stopping at the first stage that fails.

use vstd::prelude::*;
use crate::ast::{Statement, all_stmts_view};
use crate::grammar::{ParseError, parse_program};
use crate::interpreter::{Interpreter, lines_view};
use crate::lexer::{lemma_lex_ends_with_eof, lex, tokenize};
use crate::number::Number;
use crate::parser::parse_statements;
use crate::semantics::{initial_state, run_from};
use crate::token::LexError;
use crate::value::{RuntimeError, error_view};

verus! {

/// The first failure of a run, by stage.
#[derive(Debug)]
pub enum Error {
    Lex(LexError),
    Parse(ParseError),
    Runtime(RuntimeError),
}

/// The statements of a source text: its first lexical error, else its
/// first parse error, else the program.
pub fn parse_source(source: &str) -> (r: Result<Vec<Statement>, Error>)
    requires
        source@.len() < usize::MAX,
    ensures
        lex(source@).1.len() > 0 ==> r is Err && r->Err_0 is Lex && r->Err_0->Lex_0 == lex(
            source@,
        ).1[0],
        lex(source@).1.len() == 0 ==> match parse_program(lex(source@).0) {
            Ok(ss) => r is Ok && all_stmts_view(r->Ok_0@) == ss,
            Err(e) => r is Err && r->Err_0 is Parse && r->Err_0->Parse_0 == e,
        },
{
    let (tokens, errors) = tokenize(source);
    if errors.len() > 0 {
        return Err(Error::Lex(errors[0]));
    }
    proof {
        lemma_lex_ends_with_eof(source@, 0, 1);
    }
    match parse_statements(tokens) {
        Ok(program) => Ok(program),
        Err(e) => Err(Error::Parse(e)),
    }
}

/// Runs `program` from a fresh state whose `clock()` reads `clock`: the
/// lines printed, and the runtime error that stopped it, if any.
pub fn run_program(program: &Vec<Statement>, clock: Number) -> (r: (Vec<String>, Option<RuntimeError>))
    ensures
        lines_view(r.0@) == run_from(initial_state(clock), all_stmts_view(program@), 0).0.out,
        match run_from(initial_state(clock), all_stmts_view(program@), 0).1 {
            Ok(()) => r.1 is None,
            Err(e) => r.1 is Some && error_view(r.1->Some_0) == e,
        },
{
    let mut it = Interpreter::new(clock);
    let ghost ssv = all_stmts_view(program@);
    let ghost target = run_from(it@, ssv, 0);
    let mut i: usize = 0;
    proof {
        crate::ast::lemma_stmts_view_len(program@, program@.len() as int);
    }
    while i < program.len()
        invariant
            it.wf(),
            it.env.scopes@.len() >= 1,
            ssv == all_stmts_view(program@),
            ssv.len() == program@.len(),
            i <= program@.len(),
            target == run_from(initial_state(clock), ssv, 0),
            target == run_from(it@, ssv, i as int),
        decreases program.len() - i,
    {
        proof {
            crate::ast::lemma_stmts_view_index(program@, program@.len() as int, i as int);
        }
        match it.execute_top(&program[i]) {
            Ok(()) => {},
            Err(e) => return (it.output, Some(e)),
        }
        i = i + 1;
    }
    (it.output, None)
}

/// Runs a source text whose `clock()` reads `clock`: the lines printed,
/// and the error that stopped it, if any. A lexical or parse error stops
/// it before anything runs.
pub fn run(source: &str, clock: Number) -> (r: (Vec<String>, Option<Error>))
    requires
        source@.len() < usize::MAX,
    ensures
        lex(source@).1.len() > 0 ==> r.0@.len() == 0 && r.1 is Some && r.1->Some_0 is Lex
            && r.1->Some_0->Lex_0 == lex(source@).1[0],
        lex(source@).1.len() == 0 ==> match parse_program(lex(source@).0) {
            Ok(ss) => lines_view(r.0@) == run_from(initial_state(clock), ss, 0).0.out && match run_from(
                initial_state(clock),
                ss,
                0,
            ).1 {
                Ok(()) => r.1 is None,
                Err(e) => r.1 is Some && r.1->Some_0 is Runtime && error_view(
                    r.1->Some_0->Runtime_0,
                ) == e,
            },
            Err(e) => r.0@.len() == 0 && r.1 is Some && r.1->Some_0 is Parse && r.1->Some_0->Parse_0
                == e,
        },
{
    match parse_source(source) {
        Err(e) => (Vec::new(), Some(e)),
        Ok(program) => {
            let (lines, err) = run_program(&program, clock);
            match err {
                None => (lines, None),
                Some(e) => (lines, Some(Error::Runtime(e))),
            }
        },
    }
}

} // verus!
