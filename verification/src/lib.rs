//! A small engine for parsing arithmetic/logical formula text.
//!
//! Text is tokenized by a recursive-descent parser into a flat, odd-length
//! sequence of tokens alternating value, operator, value, ...; precedence is
//! deliberately not resolved here, so the sequence stays cheap to produce and
//! faithful to the source order.  Byte classification for literals and
//! identifiers is pluggable through optional caller hooks.
//!
//! - [`error`]: the failure record every fallible operation returns.
//! - [`grammar`]: the token types and their mathematical models.
//! - [`model`]: the byte-level model the parser is proved against.
//! - [`parser`]: the cursor primitives and the parser itself.
//! - [`render`]: writing tokens back out, and the round-trip law.

pub mod error;
pub mod grammar;
pub mod model;
pub mod parser;
pub mod render;
