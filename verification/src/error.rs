//! The single error value of the library.

use vstd::prelude::*;

verus! {

/// The category of a failure.
#[derive(Debug, Clone, Copy, PartialEq, Eq, Structural)]
pub enum ErrorKind {
    /// The bytes are no well-formed wire value: truncated input, a reserved
    /// content info, a non-canonical encoding, an unexpected major type or
    /// descriptor.
    Codec,
    /// A well-formed value breaks a constraint of its schema type.
    Schema,
    /// Values break a constraint that relates them: ordering, uniqueness,
    /// range start and end.
    Relational,
    /// A key reference or a type reference cannot be resolved.
    Reference,
    /// A text value cannot be converted to what the schema type expects.
    TextParse,
}

/// Where in its source a text value stands.
#[derive(Debug, Copy, Clone, PartialEq, Eq, Structural)]
pub struct SrcPosition {
    pub line: usize,
    pub column: usize,
}

/// An error: its category, a message for humans and, where the error came
/// up in a text value whose position is known, that position.
#[derive(Debug, Clone)]
pub struct LqError {
    pub kind: ErrorKind,
    pub msg: String,
    pub position: Option<SrcPosition>,
}

impl SrcPosition {
    /// The position at the given line and column.
    pub fn new(line: usize, column: usize) -> (p: SrcPosition)
        ensures
            p.line == line,
            p.column == column,
    {
        SrcPosition { line, column }
    }
}

impl LqError {
    /// A new error of the given category.
    pub fn new(kind: ErrorKind, msg: &str) -> (e: LqError)
        ensures
            e.kind == kind,
            e.msg@ == msg@,
            e.position is None,
    {
        LqError { kind, msg: msg.to_owned(), position: None }
    }

    /// The same error at the given position.
    pub fn with_position(self, position: SrcPosition) -> (e: LqError)
        ensures
            e.kind == self.kind,
            e.msg == self.msg,
            e.position == Some(position),
    {
        LqError { kind: self.kind, msg: self.msg, position: Some(position) }
    }

    /// Where in the source the error came up, where that is known.
    pub fn position(&self) -> (p: Option<SrcPosition>)
        ensures
            p == self.position,
    {
        self.position
    }

    /// A new error of the given category, already wrapped in `Err`.
    pub fn err_new<T>(kind: ErrorKind, msg: &str) -> (r: Result<T, LqError>)
        ensures
            r matches Err(e) && e.kind == kind && e.msg@ == msg@,
    {
        Err(LqError::new(kind, msg))
    }

    /// The category of this error.
    pub fn kind(&self) -> (k: ErrorKind)
        ensures
            k == self.kind,
    {
        self.kind
    }

    /// The message of this error.
    pub fn msg(&self) -> (m: &str)
        ensures
            m@ == self.msg@,
    {
        self.msg.as_str()
    }
}

} // verus!
