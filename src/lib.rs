//! A line-oriented log filter: split a byte stream into lines, keep those in
//! which a regular expression finds a match, and emit them in input order.
//!
//! - `lines`: splitting bytes into lines, and joining lines back into bytes.
//! - `pattern`: compiled regular expressions.
//! - `filter`: the filter engine.
//! - `stream`: which standard stream or file a path token names.
//! - `options`: the resolved configuration of one run.
//! - `laws`: properties that relate the parts above.

pub mod filter;
pub mod laws;
pub mod lines;
pub mod options;
pub mod pattern;
pub mod stream;
