//! Repair of delimited text rows whose field count does not match the expected width.
//!
//! A line is split into fields by a quote-aware tokenizer; the column types of the schema are
//! inferred from rows that already have the expected width; an over-wide row is regrouped by a
//! search for the first partition of its fields whose groups fit the column types.

pub mod encoding;
pub mod laws;
pub mod merge;
pub mod numeric;
pub mod repair;
pub mod schema;
pub mod session;
pub mod tally;
pub mod text;
pub mod tokenizer;
