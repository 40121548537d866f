//! The binary type.

use crate::error::{ErrorKind, LqError};
use crate::ine_range::U64IneRange;
use crate::schema::metadata::Meta;
use vstd::prelude::*;

verus! {

/// Arbitrary binary data.
#[derive(Debug)]
pub struct TBinary {
    pub meta: Meta,
    pub length: U64IneRange,
}

impl TBinary {
    /// Binary data whose length in bytes lies in the given range.
    pub fn new(length: U64IneRange) -> (t: Self)
        ensures
            t.meta.name is None && t.meta.doc is None,
            t.length == length,
    {
        TBinary { meta: Meta::empty(), length }
    }

    /// Binary data of `min_length` to `max_length` bytes; an error where
    /// `min_length` is greater than `max_length`.
    pub fn try_new(min_length: u64, max_length: u64) -> (r: Result<Self, LqError>)
        ensures
            r matches Ok(made) ==> made.meta.name is None && made.meta.doc is None,
            match r {
                Ok(t) => min_length <= max_length && t.length.spec_start() == min_length
                    && t.length.spec_end() == max_length,
                Err(e) => min_length > max_length && e.kind == ErrorKind::Schema,
            },
    {
        Ok(TBinary { meta: Meta::empty(), length: U64IneRange::try_new(min_length, max_length)? })
    }

    /// The length in bytes.
    pub fn length(&self) -> (r: &U64IneRange)
        ensures
            *r == self.length,
    {
        &self.length
    }
}

} // verus!
