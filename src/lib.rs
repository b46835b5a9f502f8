//! A tree-walking interpreter for a small Lox-family scripting language:
//! a lexer, a recursive-descent parser and an evaluator over an arena of
//! lexically nested scopes.

pub mod number;
pub mod text;
pub mod token;
pub mod lexer;
pub mod ast;
pub mod grammar;
pub mod parser;
pub mod value;
pub mod semantics;
pub mod environment;
pub mod interpreter;
pub mod driver;
pub mod printer;
pub mod compare;
pub mod laws;
