//! The signed integer type.

use crate::error::{ErrorKind, LqError};
use crate::ine_range::I128IneRange;
use crate::schema::metadata::Meta;
use vstd::prelude::*;

verus! {

/// 128 bit signed integer.
#[derive(Debug)]
pub struct TSInt {
    pub meta: Meta,
    pub range: I128IneRange,
}

impl TSInt {
    /// The signed integers of the given range.
    pub fn new(range: I128IneRange) -> (t: Self)
        ensures
            t.meta.name is None && t.meta.doc is None,
            t.range == range,
    {
        TSInt { meta: Meta::empty(), range }
    }

    /// The signed integers from `min` to `max`; an error where `min` is
    /// greater than `max`.
    pub fn try_new(min: i128, max: i128) -> (r: Result<Self, LqError>)
        ensures
            r matches Ok(made) ==> made.meta.name is None && made.meta.doc is None,
            match r {
                Ok(t) => min <= max && t.range.spec_start() == min && t.range.spec_end() == max,
                Err(e) => min > max && e.kind == ErrorKind::Schema,
            },
    {
        Ok(TSInt::new(I128IneRange::try_new(min, max)?))
    }

    /// The range that the integer has to lie in.
    pub fn range(&self) -> (r: &I128IneRange)
        ensures
            *r == self.range,
    {
        &self.range
    }
}

} // verus!
