//! Front end of a small interpreted language: a lexer that turns source text
//! into a line-numbered token sequence (validating bracket balance), and a
//! parser that turns the token sequence into an abstract syntax tree by
//! recursive descent with operator-precedence expression parsing.

pub mod color;
pub mod diag;
pub mod laws;
pub mod lex_spec;
pub mod lexer;
pub mod parse_spec;
pub mod parser;
pub mod text;
pub mod token;
pub mod tree;
