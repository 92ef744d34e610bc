//! Event Modeler: a type-safe Event Modeling diagram generator.
//!
//! The library turns Event Model descriptions (a small line-oriented text
//! format and a YAML format) into strongly typed domain models and renders
//! them as SVG diagrams.
#![allow(unused_imports)]

pub mod cli;
pub mod event_model;
pub mod infrastructure;
pub mod diagram;
pub mod model;
pub mod parser;
pub mod routing;
