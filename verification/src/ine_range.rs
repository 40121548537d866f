//! Inclusive ranges that are never empty: the start is at most the end.

use crate::error::{ErrorKind, LqError};
use vstd::prelude::*;

verus! {

/// An inclusive, non-empty range of `u32`.
#[derive(Debug, Copy, Clone, PartialEq, Eq, Structural)]
pub struct U32IneRange {
    start: u32,
    end: u32,
}

/// An inclusive, non-empty range of `u64`.
#[derive(Debug, Copy, Clone, PartialEq, Eq, Structural)]
pub struct U64IneRange {
    start: u64,
    end: u64,
}

/// An inclusive, non-empty range of `u128`.
#[derive(Debug, Copy, Clone, PartialEq, Eq, Structural)]
pub struct U128IneRange {
    start: u128,
    end: u128,
}

/// An inclusive, non-empty range of `i128`.
#[derive(Debug, Copy, Clone, PartialEq, Eq, Structural)]
pub struct I128IneRange {
    start: i128,
    end: i128,
}

/// An inclusive, non-empty range of `i8`.
#[derive(Debug, Copy, Clone, PartialEq, Eq, Structural)]
pub struct I8IneRange {
    start: i8,
    end: i8,
}

impl U32IneRange {
    /// The least number of the range.
    pub closed spec fn spec_start(&self) -> int {
        self.start as int
    }

    /// The greatest number of the range.
    pub closed spec fn spec_end(&self) -> int {
        self.end as int
    }

    /// Whether the range holds a number.
    pub open spec fn spec_contains(&self, v: int) -> bool {
        self.spec_start() <= v <= self.spec_end()
    }

    /// The range from `start` to `end`, both included; an error where
    /// `start` is greater than `end`.
    pub fn try_new(start: u32, end: u32) -> (r: Result<Self, LqError>)
        ensures
            match r {
                Ok(range) => start <= end && range.spec_start() == start && range.spec_end() == end,
                Err(e) => start > end && e.kind == ErrorKind::Schema,
            },
    {
        if start > end {
            LqError::err_new(ErrorKind::Schema, "The given range is invalid: start is greater than end.")
        } else {
            Ok(U32IneRange { start, end })
        }
    }

    /// The range of all numbers.
    pub fn full() -> (range: Self)
        ensures
            range.spec_start() == 0,
            range.spec_end() == u32::MAX,
    {
        U32IneRange { start: 0, end: u32::MAX }
    }

    /// The least number of the range.
    pub fn start(&self) -> (v: u32)
        ensures
            v == self.spec_start(),
    {
        self.start
    }

    /// The greatest number of the range.
    pub fn end(&self) -> (v: u32)
        ensures
            v == self.spec_end(),
    {
        self.end
    }

    /// Whether the range holds a number.
    pub fn contains(&self, v: u32) -> (b: bool)
        ensures
            b == self.spec_contains(v as int),
    {
        self.start <= v && v <= self.end
    }

    /// An error of the kind `Schema` unless the range holds the number.
    pub fn require_within(&self, v: u32) -> (r: Result<(), LqError>)
        ensures
            r is Ok <==> self.spec_contains(v as int),
            r matches Err(e) ==> e.kind == ErrorKind::Schema,
    {
        if self.contains(v) {
            Ok(())
        } else {
            LqError::err_new(ErrorKind::Schema, "The given value is out of range.")
        }
    }
}

impl U64IneRange {
    /// The least number of the range.
    pub closed spec fn spec_start(&self) -> int {
        self.start as int
    }

    /// The greatest number of the range.
    pub closed spec fn spec_end(&self) -> int {
        self.end as int
    }

    /// Whether the range holds a number.
    pub open spec fn spec_contains(&self, v: int) -> bool {
        self.spec_start() <= v <= self.spec_end()
    }

    /// The range from `start` to `end`, both included; an error where
    /// `start` is greater than `end`.
    pub fn try_new(start: u64, end: u64) -> (r: Result<Self, LqError>)
        ensures
            match r {
                Ok(range) => start <= end && range.spec_start() == start && range.spec_end() == end,
                Err(e) => start > end && e.kind == ErrorKind::Schema,
            },
    {
        if start > end {
            LqError::err_new(ErrorKind::Schema, "The given range is invalid: start is greater than end.")
        } else {
            Ok(U64IneRange { start, end })
        }
    }

    /// The range of all numbers.
    pub fn full() -> (range: Self)
        ensures
            range.spec_start() == 0,
            range.spec_end() == u64::MAX,
    {
        U64IneRange { start: 0, end: u64::MAX }
    }

    /// The least number of the range.
    pub fn start(&self) -> (v: u64)
        ensures
            v == self.spec_start(),
    {
        self.start
    }

    /// The greatest number of the range.
    pub fn end(&self) -> (v: u64)
        ensures
            v == self.spec_end(),
    {
        self.end
    }

    /// Whether the range holds a number.
    pub fn contains(&self, v: u64) -> (b: bool)
        ensures
            b == self.spec_contains(v as int),
    {
        self.start <= v && v <= self.end
    }

    /// An error of the kind `Schema` unless the range holds the number.
    pub fn require_within(&self, v: u64) -> (r: Result<(), LqError>)
        ensures
            r is Ok <==> self.spec_contains(v as int),
            r matches Err(e) ==> e.kind == ErrorKind::Schema,
    {
        if self.contains(v) {
            Ok(())
        } else {
            LqError::err_new(ErrorKind::Schema, "The given value is out of range.")
        }
    }
}

impl U128IneRange {
    /// The least number of the range.
    pub closed spec fn spec_start(&self) -> int {
        self.start as int
    }

    /// The greatest number of the range.
    pub closed spec fn spec_end(&self) -> int {
        self.end as int
    }

    /// Whether the range holds a number.
    pub open spec fn spec_contains(&self, v: int) -> bool {
        self.spec_start() <= v <= self.spec_end()
    }

    /// The range from `start` to `end`, both included; an error where
    /// `start` is greater than `end`.
    pub fn try_new(start: u128, end: u128) -> (r: Result<Self, LqError>)
        ensures
            match r {
                Ok(range) => start <= end && range.spec_start() == start && range.spec_end() == end,
                Err(e) => start > end && e.kind == ErrorKind::Schema,
            },
    {
        if start > end {
            LqError::err_new(ErrorKind::Schema, "The given range is invalid: start is greater than end.")
        } else {
            Ok(U128IneRange { start, end })
        }
    }

    /// The range of all numbers.
    pub fn full() -> (range: Self)
        ensures
            range.spec_start() == 0,
            range.spec_end() == u128::MAX,
    {
        U128IneRange { start: 0, end: u128::MAX }
    }

    /// The least number of the range.
    pub fn start(&self) -> (v: u128)
        ensures
            v == self.spec_start(),
    {
        self.start
    }

    /// The greatest number of the range.
    pub fn end(&self) -> (v: u128)
        ensures
            v == self.spec_end(),
    {
        self.end
    }

    /// Whether the range holds a number.
    pub fn contains(&self, v: u128) -> (b: bool)
        ensures
            b == self.spec_contains(v as int),
    {
        self.start <= v && v <= self.end
    }

    /// An error of the kind `Schema` unless the range holds the number.
    pub fn require_within(&self, v: u128) -> (r: Result<(), LqError>)
        ensures
            r is Ok <==> self.spec_contains(v as int),
            r matches Err(e) ==> e.kind == ErrorKind::Schema,
    {
        if self.contains(v) {
            Ok(())
        } else {
            LqError::err_new(ErrorKind::Schema, "The given value is out of range.")
        }
    }
}

impl I128IneRange {
    /// The least number of the range.
    pub closed spec fn spec_start(&self) -> int {
        self.start as int
    }

    /// The greatest number of the range.
    pub closed spec fn spec_end(&self) -> int {
        self.end as int
    }

    /// Whether the range holds a number.
    pub open spec fn spec_contains(&self, v: int) -> bool {
        self.spec_start() <= v <= self.spec_end()
    }

    /// The range from `start` to `end`, both included; an error where
    /// `start` is greater than `end`.
    pub fn try_new(start: i128, end: i128) -> (r: Result<Self, LqError>)
        ensures
            match r {
                Ok(range) => start <= end && range.spec_start() == start && range.spec_end() == end,
                Err(e) => start > end && e.kind == ErrorKind::Schema,
            },
    {
        if start > end {
            LqError::err_new(ErrorKind::Schema, "The given range is invalid: start is greater than end.")
        } else {
            Ok(I128IneRange { start, end })
        }
    }

    /// The range of all numbers.
    pub fn full() -> (range: Self)
        ensures
            range.spec_start() == i128::MIN,
            range.spec_end() == i128::MAX,
    {
        I128IneRange { start: i128::MIN, end: i128::MAX }
    }

    /// The least number of the range.
    pub fn start(&self) -> (v: i128)
        ensures
            v == self.spec_start(),
    {
        self.start
    }

    /// The greatest number of the range.
    pub fn end(&self) -> (v: i128)
        ensures
            v == self.spec_end(),
    {
        self.end
    }

    /// Whether the range holds a number.
    pub fn contains(&self, v: i128) -> (b: bool)
        ensures
            b == self.spec_contains(v as int),
    {
        self.start <= v && v <= self.end
    }

    /// An error of the kind `Schema` unless the range holds the number.
    pub fn require_within(&self, v: i128) -> (r: Result<(), LqError>)
        ensures
            r is Ok <==> self.spec_contains(v as int),
            r matches Err(e) ==> e.kind == ErrorKind::Schema,
    {
        if self.contains(v) {
            Ok(())
        } else {
            LqError::err_new(ErrorKind::Schema, "The given value is out of range.")
        }
    }
}

impl I8IneRange {
    /// The least number of the range.
    pub closed spec fn spec_start(&self) -> int {
        self.start as int
    }

    /// The greatest number of the range.
    pub closed spec fn spec_end(&self) -> int {
        self.end as int
    }

    /// Whether the range holds a number.
    pub open spec fn spec_contains(&self, v: int) -> bool {
        self.spec_start() <= v <= self.spec_end()
    }

    /// The range from `start` to `end`, both included; an error where
    /// `start` is greater than `end`.
    pub fn try_new(start: i8, end: i8) -> (r: Result<Self, LqError>)
        ensures
            match r {
                Ok(range) => start <= end && range.spec_start() == start && range.spec_end() == end,
                Err(e) => start > end && e.kind == ErrorKind::Schema,
            },
    {
        if start > end {
            LqError::err_new(ErrorKind::Schema, "The given range is invalid: start is greater than end.")
        } else {
            Ok(I8IneRange { start, end })
        }
    }

    /// The range of all numbers.
    pub fn full() -> (range: Self)
        ensures
            range.spec_start() == i8::MIN,
            range.spec_end() == i8::MAX,
    {
        I8IneRange { start: i8::MIN, end: i8::MAX }
    }

    /// The least number of the range.
    pub fn start(&self) -> (v: i8)
        ensures
            v == self.spec_start(),
    {
        self.start
    }

    /// The greatest number of the range.
    pub fn end(&self) -> (v: i8)
        ensures
            v == self.spec_end(),
    {
        self.end
    }

    /// Whether the range holds a number.
    pub fn contains(&self, v: i8) -> (b: bool)
        ensures
            b == self.spec_contains(v as int),
    {
        self.start <= v && v <= self.end
    }

    /// An error of the kind `Schema` unless the range holds the number.
    pub fn require_within(&self, v: i8) -> (r: Result<(), LqError>)
        ensures
            r is Ok <==> self.spec_contains(v as int),
            r matches Err(e) ==> e.kind == ErrorKind::Schema,
    {
        if self.contains(v) {
            Ok(())
        } else {
            LqError::err_new(ErrorKind::Schema, "The given value is out of range.")
        }
    }
}

} // verus!
