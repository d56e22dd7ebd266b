//! Front end for a small expression-oriented language: a lexer that turns
//! characters into tokens, a precedence-climbing parser that turns tokens
//! into an abstract syntax tree, and a code generator that lowers one tree
//! at a time into a backend intermediate representation held as plain data.

pub mod lexer;
pub mod parser;
pub mod ir;
