//! The unsigned integer type.

use crate::error::{ErrorKind, LqError};
use crate::ine_range::U128IneRange;
use crate::schema::metadata::Meta;
use crate::slice_reader::SliceReader;
use crate::types::seq::{seq_header_at, seq_header_bytes};
use crate::types::structure::StructInfo;
use crate::types::uint::{uint_at_most, uint_bytes, UInt64};
use crate::vec_writer::VecWriter;
use crate::wire::values_end;
use vstd::prelude::*;

verus! {

/// 128 bit unsigned integer within a range.
#[derive(Debug)]
pub struct TUInt {
    pub meta: Meta,
    pub range: U128IneRange,
}

impl TUInt {
    /// The unsigned integers of the given range.
    pub fn new(range: U128IneRange) -> (t: Self)
        ensures
            t.meta.name is None && t.meta.doc is None,
            t.range == range,
    {
        TUInt { meta: Meta::empty(), range }
    }

    /// The unsigned integers from `min` to `max`; an error where `min` is
    /// greater than `max`.
    pub fn try_new(min: u128, max: u128) -> (r: Result<Self, LqError>)
        ensures
            r matches Ok(made) ==> made.meta.name is None && made.meta.doc is None,
            match r {
                Ok(t) => min <= max && t.range.spec_start() == min && t.range.spec_end() == max,
                Err(e) => min > max && e.kind == ErrorKind::Schema,
            },
    {
        Ok(TUInt::new(U128IneRange::try_new(min, max)?))
    }

    /// The range that the integer has to lie in.
    pub fn range(&self) -> (r: &U128IneRange)
        ensures
            *r == self.range,
    {
        &self.range
    }
}

/// A validator for unsigned integers of up to 64 bits: the least and the
/// greatest value that it accepts.
#[derive(Debug, Copy, Clone, PartialEq, Eq, Structural)]
pub struct VUInt {
    min_value: u64,
    max_value: u64,
}

/// What reading a validator for unsigned integers gives: the least and the
/// greatest value and the position behind the validator; or the kind of the
/// error. The validator is a structure of the two values; further values
/// are skipped.
pub open spec fn vuint_at(data: Seq<u8>, pos: int) -> Result<(u64, u64, int), ErrorKind> {
    match seq_header_at(data, pos) {
        Some((n, p)) => if n < 2 {
            Err(ErrorKind::Schema)
        } else {
            match uint_at_most(data, p, u64::MAX as nat) {
                Some((min, q)) => match uint_at_most(data, q, u64::MAX as nat) {
                    Some((max, r)) => match values_end(data, r, (n - 2) as nat) {
                        Some(e) => if min > max {
                            Err(ErrorKind::Schema)
                        } else {
                            Ok((min as u64, max as u64, e))
                        },
                        None => Err(ErrorKind::Codec),
                    },
                    None => Err(ErrorKind::Codec),
                },
                None => Err(ErrorKind::Codec),
            }
        },
        None => Err(ErrorKind::Codec),
    }
}

impl VUInt {
    /// The least value.
    pub closed spec fn spec_min(&self) -> u64 {
        self.min_value
    }

    /// The greatest value.
    pub closed spec fn spec_max(&self) -> u64 {
        self.max_value
    }

    /// The validator for the values from `min_value` to `max_value`; an
    /// error where `min_value` is greater than `max_value`.
    pub fn try_new(min_value: u64, max_value: u64) -> (r: Result<Self, LqError>)
        ensures
            match r {
                Ok(v) => min_value <= max_value && v.spec_min() == min_value && v.spec_max()
                    == max_value,
                Err(e) => min_value > max_value && e.kind == ErrorKind::Schema,
            },
    {
        if min_value > max_value {
            LqError::err_new(ErrorKind::Schema, "Min value is greater then max value.")
        } else {
            Ok(Self { min_value, max_value })
        }
    }

    /// Validates the unsigned integer at the cursor.
    pub fn validate(&self, reader: &mut SliceReader) -> (r: Result<(), LqError>)
        ensures
            final(reader).spec_data() == old(reader).spec_data(),
            match uint_at_most(old(reader).spec_data(), old(reader).spec_offset(), u64::MAX as nat) {
                Some((v, e)) => if self.spec_min() <= v <= self.spec_max() {
                    r is Ok && final(reader).spec_offset() == e
                } else {
                    r matches Err(error) && error.kind == ErrorKind::Schema
                },
                None => r matches Err(error) && error.kind == ErrorKind::Codec,
            },
    {
        let int_value = UInt64::de_serialize(reader)?;
        if int_value < self.min_value {
            return LqError::err_new(ErrorKind::Schema, "Given integer is too small");
        }
        if int_value > self.max_value {
            return LqError::err_new(ErrorKind::Schema, "Given integer is too large");
        }
        Ok(())
    }

    /// Reads a validator.
    pub fn de_serialize(reader: &mut SliceReader) -> (r: Result<VUInt, LqError>)
        ensures
            final(reader).spec_data() == old(reader).spec_data(),
            match r {
                Ok(v) => vuint_at(old(reader).spec_data(), old(reader).spec_offset()) == Ok::<
                    (u64, u64, int),
                    ErrorKind,
                >((v.spec_min(), v.spec_max(), final(reader).spec_offset())),
                Err(e) => vuint_at(old(reader).spec_data(), old(reader).spec_offset()) == Err::<
                    (u64, u64, int),
                    ErrorKind,
                >(e.kind),
            },
    {
        let header = StructInfo::de_serialize(reader)?;
        let reading = header.begin_reading(2)?;
        let min_value = UInt64::de_serialize(reader)?;
        let max_value = UInt64::de_serialize(reader)?;
        reading.finish(reader)?;
        VUInt::try_new(min_value, max_value)
    }

    /// Writes a validator.
    pub fn serialize(&self, writer: &mut VecWriter)
        ensures
            final(writer)@ == old(writer)@ + seq_header_bytes(2) + uint_bytes(
                self.spec_min() as nat,
            ) + uint_bytes(self.spec_max() as nat),
    {
        let r = StructInfo::serialize(writer, &StructInfo::new(2));
        UInt64::serialize(writer, &self.min_value);
        UInt64::serialize(writer, &self.max_value);
    }
}

} // verus!
