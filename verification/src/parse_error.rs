//! Parse failures.
//!
//! A failure is either recoverable — this alternative did not match, the
//! caller may try another — or committed: the alternative matched far enough
//! that the whole parse must now fail here, with a precise diagnostic.

use vstd::prelude::*;

use crate::reader::Pos;

verus! {

/// What the parser was expecting when it failed.
#[derive(Clone, Debug, PartialEq, Eq)]
pub enum ParseErrorKind {
    Expecting { value: String },
}

/// A located parse failure, tagged recoverable or committed.
#[derive(Clone, Debug, PartialEq, Eq)]
pub struct ParseError {
    pub pos: Pos,
    pub recoverable: bool,
    pub kind: ParseErrorKind,
}

impl ParseError {
    pub fn new(pos: Pos, recoverable: bool, kind: ParseErrorKind) -> (e: ParseError)
        ensures
            e.pos == pos,
            e.recoverable == recoverable,
            e.kind == kind,
    {
        ParseError { pos, recoverable, kind }
    }

    /// The same failure, committed: sibling alternatives must not be tried.
    pub fn to_non_recoverable(self) -> (e: ParseError)
        ensures
            e.pos == self.pos,
            !e.recoverable,
            e.kind == self.kind,
    {
        ParseError { pos: self.pos, recoverable: false, kind: self.kind }
    }
}

pub type ParseResult<T> = Result<T, ParseError>;

} // verus!
