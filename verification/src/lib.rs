//! Parsing of SQL INTERVAL / timestamp literals into a structured,
//! field-by-field representation.
//!
//! A literal such as `"9-5 4:3"` or `"5.5"` is first split into punctuation
//! and numeric tokens, then zipped against the canonical token pattern that
//! the literal's leading field selects, writing each numeric value into the
//! matching date/time field of the result.

pub mod assign;
pub mod laws;
pub mod num;
pub mod pattern;
pub mod tokenizer;
pub mod tokens;
