//! Derive logic for compile-time dependency injection: the fields of a
//! struct are grouped by the `#[tag(..)]` attributes they carry, and one
//! `macro_rules!` enumerator is generated per tag.

pub mod collect;
pub mod derive;
pub mod error;
pub mod model;
pub mod render;
pub mod syntax;

