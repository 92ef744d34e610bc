//! Infrastructure: type-safety utilities and parsing.
pub mod types;
pub mod text;
pub mod parsing;
