//! Lexical front end of a small interpreted language: a scanner that turns
//! raw source text into a sequence of typed, position-tagged tokens, an
//! error value for lexical faults, and an expression tree with a canonical
//! parenthesized-prefix printer.

pub mod ast;
pub mod error;
pub mod lexer;
pub mod token;
