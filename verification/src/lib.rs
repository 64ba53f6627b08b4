//! A lexer and recursive-descent parser for a small expression language.
//!
//! The pipeline has two stages: a pull-based scanner that turns a character
//! buffer into classified tokens with line and position information, and a
//! parser that turns the token stream into an abstract syntax tree for
//! arithmetic expressions, honouring operator precedence and bracketed
//! grouping.

pub mod ast;
pub mod lexer;
pub mod parser;
pub mod token;
pub mod token_def;
