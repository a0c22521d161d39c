//! Engine of a text duplicator: a compiler for compact arithmetic-sequence
//! notations (`1..`, `..5`, `1..5,7`, ...) and a driver that stamps out `N`
//! copies of a template, substituting per-copy sequence values for
//! placeholders.

pub mod engine;
pub mod laws;
pub mod numeral;
pub mod parser;
