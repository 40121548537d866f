//! The error of the text front-end: an error of the library or a message of
//! its own, and where in the source it came up.

use crate::error::{ErrorKind, LqError};
use crate::text::value::SrcPosition;
use vstd::prelude::*;

verus! {

/// An error that came up while a text value was turned into bytes.
#[derive(Debug)]
pub struct ParseError {
    pub msg: Option<String>,
    pub lq_error: Option<LqError>,
    pub src_position: Option<SrcPosition>,
}

impl ParseError {
    /// The category of the error: that of the library's error that it
    /// wraps, else a text parse error.
    pub open spec fn spec_kind(&self) -> ErrorKind {
        match self.lq_error {
            Some(e) => e.kind,
            None => ErrorKind::TextParse,
        }
    }

    /// An error with a message of its own.
    pub fn new(msg: &str) -> (e: Self)
        ensures
            e.msg matches Some(m) && m@ == msg@,
            e.lq_error is None,
            e.src_position is None,
            e.spec_kind() == ErrorKind::TextParse,
    {
        ParseError { msg: Some(msg.to_owned()), lq_error: None, src_position: None }
    }

    /// The error that wraps an error of the library.
    pub fn from_lq_error(value: LqError) -> (e: Self)
        ensures
            e.msg is None,
            e.lq_error == Some(value),
            e.src_position is None,
            e.spec_kind() == value.kind,
    {
        ParseError { msg: None, lq_error: Some(value), src_position: None }
    }

    /// The same error at the given position.
    pub fn with_position(self, position: SrcPosition) -> (e: Self)
        ensures
            e.msg == self.msg,
            e.lq_error == self.lq_error,
            e.src_position == Some(position),
            e.spec_kind() == self.spec_kind(),
    {
        ParseError { msg: self.msg, lq_error: self.lq_error, src_position: Some(position) }
    }

    /// The category of the error.
    pub fn kind(&self) -> (k: ErrorKind)
        ensures
            k == self.spec_kind(),
    {
        match &self.lq_error {
            Some(e) => e.kind,
            None => ErrorKind::TextParse,
        }
    }

    /// Where in the source the error came up.
    pub fn position(&self) -> (p: Option<SrcPosition>)
        ensures
            p == self.src_position,
    {
        self.src_position
    }
}

} // verus!
