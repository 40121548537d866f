//! The unicode text type.

use crate::error::{ErrorKind, LqError};
use crate::ine_range::U64IneRange;
use crate::schema::metadata::Meta;
use vstd::prelude::*;

verus! {

/// What the length of a text counts.
#[derive(Debug, Copy, Clone, PartialEq, Eq, Structural)]
pub enum LengthType {
    /// The number of bytes on the wire.
    Byte,
    /// The number of UTF-8 bytes; on the wire the same as `Byte`.
    Utf8Byte,
    /// The number of unicode scalar values.
    ScalarValue,
}

/// Arbitrary unicode text.
#[derive(Debug)]
pub struct TUnicode {
    pub meta: Meta,
    pub length: U64IneRange,
    pub length_type: LengthType,
}

impl TUnicode {
    /// Text whose length lies in the given range.
    pub fn new(length: U64IneRange, length_type: LengthType) -> (t: Self)
        ensures
            t.meta.name is None && t.meta.doc is None,
            t.length == length,
            t.length_type == length_type,
    {
        TUnicode { meta: Meta::empty(), length, length_type }
    }

    /// Text of a length from `min_length` to `max_length`; an error where
    /// `min_length` is greater than `max_length`.
    pub fn try_new(min_length: u64, max_length: u64, length_type: LengthType) -> (r: Result<
        Self,
        LqError,
    >)
        ensures
            r matches Ok(made) ==> made.meta.name is None && made.meta.doc is None,
            match r {
                Ok(t) => min_length <= max_length && t.length.spec_start() == min_length
                    && t.length.spec_end() == max_length && t.length_type == length_type,
                Err(e) => min_length > max_length && e.kind == ErrorKind::Schema,
            },
    {
        Ok(TUnicode::new(U64IneRange::try_new(min_length, max_length)?, length_type))
    }

    /// The range of the length.
    pub fn length(&self) -> (r: &U64IneRange)
        ensures
            *r == self.length,
    {
        &self.length
    }

    /// What the length counts.
    pub fn length_type(&self) -> (t: LengthType)
        ensures
            t == self.length_type,
    {
        self.length_type
    }
}

} // verus!
