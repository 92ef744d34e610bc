//! Tokens and syntax tree of the Event Model language.
pub mod ast;
pub mod lexer;
