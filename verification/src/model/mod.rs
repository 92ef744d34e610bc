//! Typed building blocks of an Event Model: the entities and their
//! validated names, identifiers and fields.
pub mod entities;
