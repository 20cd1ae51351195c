//! Front end of a small programming language: a byte-oriented lexer and a
//! Pratt parser that builds a closed, typed syntax tree.

pub mod ast;
pub mod lexer;
pub mod parser;
pub mod token;
