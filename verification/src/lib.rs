//! A recursive-descent JSON parser with a verified grammar.
//!
//! The entry point is [`parser::parse`]: it turns a text span into a
//! [`value::Json`] tree value together with the unconsumed remainder of the
//! input. Every parsing function is specified against the spec-level grammar
//! in [`grammar`] and verified to follow it exactly; [`laws`] states the
//! properties that hold of the parser as a whole.

pub mod model;
pub mod grammar;
pub mod utils;
pub mod value;
pub mod literals;
pub mod number;
pub mod string;
pub mod object;
pub mod array;
pub mod parser;
pub mod laws;

pub use parser::parse;
pub use value::{Json, JsonError};
