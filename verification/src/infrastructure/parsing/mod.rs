//! Text parsing for Event Model files: the simple line-oriented format and
//! the YAML format.
pub mod ast;
pub mod lexer;
pub mod simple_lexer;
pub mod simple_parser;
pub mod yaml_parser;
pub mod yaml_converter;
