//! Clause-level parser for a line-oriented request-description language.
//!
//! The library reads one `name: value` option clause and turns it into a
//! typed, source-faithful syntax node: every byte of insignificant input
//! (spacing, comments, line endings) is captured so that the clause can be
//! reprinted unchanged.  Parse failures are classified as recoverable
//! (an enclosing parser may try another alternative) or fatal (a genuine
//! syntax error with a precise position).

pub mod ast;
pub mod clause;
pub mod error;
pub mod filename;
pub mod primitives;
pub mod reader;
pub mod template;
