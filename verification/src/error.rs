//! The error model: a position, a recoverability flag, and a structured cause.
//!
//! `recoverable == true` means "this alternative did not match; a sibling
//! alternative in an enclosing choice may still succeed".  `recoverable ==
//! false` means the grammar committed to this production and the input is
//! malformed: no further alternatives are tried and the error is surfaced as
//! the parse's diagnostic.  This flag is the parser's only backtracking
//! signal.

use vstd::prelude::*;

use crate::reader::Pos;

verus! {

/// The structured cause of a parse failure.
#[derive(Debug, Clone, PartialEq, Eq)]
pub enum ParseErrorKind {
    /// A specific token or value shape was expected; the payload names it.
    Expecting { value: String },
    /// The keyword is not one of the supported options.
    InvalidOption,
    /// The filename grammar matched nothing.
    Filename,
}

/// A parse failure: where it happened, whether an enclosing choice may still
/// try another alternative, and what was expected.
#[derive(Debug, Clone, PartialEq, Eq)]
pub struct ParseError {
    pub pos: Pos,
    pub recoverable: bool,
    pub kind: ParseErrorKind,
}

/// The outcome of every parsing function.
pub type ParseResult<T> = Result<T, ParseError>;

impl ParseError {
    /// An `Expecting` error for the named token or value shape.
    pub fn expecting(value: &str, pos: Pos, recoverable: bool) -> (r: ParseError)
        ensures
            r.pos == pos,
            r.recoverable == recoverable,
            r.kind matches ParseErrorKind::Expecting { value: v } && v@ == value@,
    {
        ParseError {
            pos,
            recoverable,
            kind: ParseErrorKind::Expecting { value: String::from_str(value) },
        }
    }

    /// The promotion primitive: once a production has been unambiguously
    /// selected, a recoverable failure inside it is re-wrapped as fatal at
    /// the same position.
    pub fn into_nonrecoverable(self) -> (r: ParseError)
        ensures
            r.pos == self.pos,
            !r.recoverable,
            r.kind == self.kind,
    {
        ParseError { pos: self.pos, recoverable: false, kind: self.kind }
    }
}

} // verus!
