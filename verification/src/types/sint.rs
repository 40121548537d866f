//! Signed integers: major type 11; the value's own bytes are the two's
//! complement of the number in little-endian order, in the smallest of the
//! widths 1, 2, 4, 8 and 16 that holds it.

use crate::endian::{
    le_bytes, le_int, le_int_bytes, lemma_le_bytes_len, lemma_le_bytes_of_le_nat,
    lemma_le_nat_bound, lemma_le_nat_of_le_bytes, lemma_pow256_values, twos_complement,
};
use crate::error::{ErrorKind, LqError};
use crate::major_types::TYPE_SINT;
use crate::slice_reader::SliceReader;
use crate::types::binary::{
    begin_leaf, leaf_at, leaf_bytes, lemma_leaf_at, lemma_leaf_at_of_bytes,
};
use crate::vec_writer::VecWriter;
use crate::wire::{lemma_descriptor_at, value_end};
use vstd::prelude::*;

verus! {

/// Reads and writes signed integers of up to 8 bits.
pub struct SInt8;

/// Reads and writes signed integers of up to 16 bits.
pub struct SInt16;

/// Reads and writes signed integers of up to 32 bits.
pub struct SInt32;

/// Reads and writes signed integers of up to 64 bits.
pub struct SInt64;

/// Reads and writes signed integers of up to 128 bits.
pub struct SInt128;

/// The number of bytes that a signed integer is written with.
pub open spec fn sint_width(v: int) -> nat {
    if -0x80 <= v < 0x80 {
        1
    } else if -0x8000 <= v < 0x8000 {
        2
    } else if -0x8000_0000 <= v < 0x8000_0000 {
        4
    } else if -0x8000_0000_0000_0000 <= v < 0x8000_0000_0000_0000 {
        8
    } else {
        16
    }
}

/// The bytes of a signed integer that fits in 128 bits.
pub open spec fn sint_bytes(v: int) -> Seq<u8> {
    leaf_bytes(TYPE_SINT, le_int_bytes(v, sint_width(v)))
}

/// The number that the own bytes of a signed integer stand for; nothing
/// where the number of bytes is none of 1, 2, 4, 8 and 16 or the number would
/// have fit in fewer bytes.
pub open spec fn sint_of_body(body: Seq<u8>) -> Option<int> {
    if body.len() <= 16 && sint_width(le_int(body)) == body.len() {
        Some(le_int(body))
    } else {
        None
    }
}

/// The signed integer at `pos` and the position behind it.
pub open spec fn sint_at(data: Seq<u8>, pos: int) -> Option<(int, int)> {
    match leaf_at(TYPE_SINT, data, pos) {
        Some((body, e)) => match sint_of_body(body) {
            Some(v) => Some((v, e)),
            None => None,
        },
        None => None,
    }
}

/// The signed integer at `pos`, where it lies between `min` and `max`, and
/// the position behind it.
pub open spec fn sint_at_within(data: Seq<u8>, pos: int, min: int, max: int) -> Option<
    (int, int),
> {
    match sint_at(data, pos) {
        Some((v, e)) => if min <= v <= max {
            Some((v, e))
        } else {
            None
        },
        None => None,
    }
}

/// A signed integer that is read is one whole wire value that fits in 128
/// bits, and its bytes are those that writing it gives.
pub proof fn lemma_sint_at(data: Seq<u8>, pos: int)
    requires
        sint_at(data, pos) is Some,
    ensures
        ({
            let (v, e) = sint_at(data, pos).unwrap();
            &&& value_end(data, pos) == Some(e)
            &&& pos < e <= data.len()
            &&& i128::MIN <= v <= i128::MAX
            &&& data.subrange(pos, e) == sint_bytes(v)
        }),
{
    lemma_leaf_at(TYPE_SINT, data, pos);
    let (body, e) = leaf_at(TYPE_SINT, data, pos).unwrap();
    lemma_le_bytes_of_le_nat(body);
    lemma_le_nat_bound(body);
    lemma_pow256_values();
}

/// Where the data holds the bytes of a signed integer that fits in 128 bits,
/// reading gives the number back.
pub proof fn lemma_sint_at_of_bytes(data: Seq<u8>, pos: int, v: int)
    requires
        i128::MIN <= v <= i128::MAX,
        0 <= pos,
        pos + sint_bytes(v).len() <= data.len(),
        data.subrange(pos, pos + sint_bytes(v).len()) == sint_bytes(v),
    ensures
        sint_at(data, pos) == Some((v, pos + sint_bytes(v).len())),
{
    let w = sint_width(v);
    let u = twos_complement(v, w);
    let body = le_bytes(u, w);
    lemma_pow256_values();
    lemma_le_bytes_len(u, w);
    lemma_leaf_at_of_bytes(TYPE_SINT, data, pos, body);
    lemma_le_nat_of_le_bytes(u, w);
}

impl SInt128 {
    /// Reads a signed integer.
    pub fn de_serialize(reader: &mut SliceReader) -> (r: Result<i128, LqError>)
        ensures
            final(reader).spec_data() == old(reader).spec_data(),
            match r {
                Ok(v) => sint_at(old(reader).spec_data(), old(reader).spec_offset()) == Some(
                    (v as int, final(reader).spec_offset()),
                ),
                Err(e) => sint_at(old(reader).spec_data(), old(reader).spec_offset()) is None
                    && e.kind == ErrorKind::Codec,
            },
    {
        let ghost data = reader.spec_data();
        let ghost start = reader.spec_offset();
        let (major, description) = reader.read_header()?;
        if major.id() != TYPE_SINT {
            return LqError::err_new(ErrorKind::Codec, "Given type is not a signed integer");
        }
        if description.number_of_embedded_items() != 0 {
            return LqError::err_new(
                ErrorKind::Codec,
                "Integer types must not contain embedded values.",
            );
        }
        let ghost p = reader.spec_offset();
        proof {
            lemma_pow256_values();
            lemma_descriptor_at(data, start);
        }
        let self_length = description.self_length();
        if self_length == 1 {
            let v = reader.read_i8()?;
            Ok(v as i128)
        } else if self_length == 2 {
            let v = reader.read_i16()?;
            if -0x80 <= v && v < 0x80 {
                return LqError::err_new(ErrorKind::Codec, "Integer is not canonical");
            }
            Ok(v as i128)
        } else if self_length == 4 {
            let v = reader.read_i32()?;
            if -0x8000 <= v && v < 0x8000 {
                return LqError::err_new(ErrorKind::Codec, "Integer is not canonical");
            }
            Ok(v as i128)
        } else if self_length == 8 {
            let v = reader.read_i64()?;
            if -0x8000_0000 <= v && v < 0x8000_0000 {
                return LqError::err_new(ErrorKind::Codec, "Integer is not canonical");
            }
            Ok(v as i128)
        } else if self_length == 16 {
            let v = reader.read_i128()?;
            if -0x8000_0000_0000_0000 <= v && v < 0x8000_0000_0000_0000 {
                return LqError::err_new(ErrorKind::Codec, "Integer is not canonical");
            }
            Ok(v)
        } else {
            LqError::err_new(ErrorKind::Codec, "Invalid length for signed integer type")
        }
    }

    /// Writes a signed integer, in the smallest width that holds it.
    pub fn serialize(writer: &mut VecWriter, item: &i128)
        ensures
            final(writer)@ == old(writer)@ + sint_bytes(*item as int),
    {
        let value = *item;
        let ghost before = writer@;
        if -0x80 <= value && value < 0x80 {
            begin_leaf(writer, TYPE_SINT, 1);
            writer.write_i8(value as i8);
            proof {
                lemma_le_bytes_len(twos_complement(value as int, 1), 1);
                assert(writer@ =~= before + sint_bytes(value as int));
            }
        } else if -0x8000 <= value && value < 0x8000 {
            begin_leaf(writer, TYPE_SINT, 2);
            writer.write_i16(value as i16);
            proof {
                lemma_le_bytes_len(twos_complement(value as int, 2), 2);
                assert(writer@ =~= before + sint_bytes(value as int));
            }
        } else if -0x8000_0000 <= value && value < 0x8000_0000 {
            begin_leaf(writer, TYPE_SINT, 4);
            writer.write_i32(value as i32);
            proof {
                lemma_le_bytes_len(twos_complement(value as int, 4), 4);
                assert(writer@ =~= before + sint_bytes(value as int));
            }
        } else if -0x8000_0000_0000_0000 <= value && value < 0x8000_0000_0000_0000 {
            begin_leaf(writer, TYPE_SINT, 8);
            writer.write_i64(value as i64);
            proof {
                lemma_le_bytes_len(twos_complement(value as int, 8), 8);
                assert(writer@ =~= before + sint_bytes(value as int));
            }
        } else {
            begin_leaf(writer, TYPE_SINT, 16);
            writer.write_i128(value);
            proof {
                lemma_le_bytes_len(twos_complement(value as int, 16), 16);
                assert(writer@ =~= before + sint_bytes(value as int));
            }
        }
    }
}

impl SInt64 {
    /// Reads a signed integer that fits in 64 bits.
    pub fn de_serialize(reader: &mut SliceReader) -> (r: Result<i64, LqError>)
        ensures
            final(reader).spec_data() == old(reader).spec_data(),
            match r {
                Ok(v) => sint_at_within(
                    old(reader).spec_data(),
                    old(reader).spec_offset(),
                    i64::MIN as int,
                    i64::MAX as int,
                ) == Some((v as int, final(reader).spec_offset())),
                Err(e) => sint_at_within(
                    old(reader).spec_data(),
                    old(reader).spec_offset(),
                    i64::MIN as int,
                    i64::MAX as int,
                ) is None && e.kind == ErrorKind::Codec,
            },
    {
        let value = SInt128::de_serialize(reader)?;
        if value < i64::MIN as i128 || value > i64::MAX as i128 {
            return LqError::err_new(ErrorKind::Codec, "The integer does not fit in 64 bits.");
        }
        Ok(value as i64)
    }

    /// Writes a signed integer.
    pub fn serialize(writer: &mut VecWriter, item: &i64)
        ensures
            final(writer)@ == old(writer)@ + sint_bytes(*item as int),
    {
        let wide = *item as i128;
        SInt128::serialize(writer, &wide)
    }
}

impl SInt32 {
    /// Reads a signed integer that fits in 32 bits.
    pub fn de_serialize(reader: &mut SliceReader) -> (r: Result<i32, LqError>)
        ensures
            final(reader).spec_data() == old(reader).spec_data(),
            match r {
                Ok(v) => sint_at_within(
                    old(reader).spec_data(),
                    old(reader).spec_offset(),
                    i32::MIN as int,
                    i32::MAX as int,
                ) == Some((v as int, final(reader).spec_offset())),
                Err(e) => sint_at_within(
                    old(reader).spec_data(),
                    old(reader).spec_offset(),
                    i32::MIN as int,
                    i32::MAX as int,
                ) is None && e.kind == ErrorKind::Codec,
            },
    {
        let value = SInt128::de_serialize(reader)?;
        if value < i32::MIN as i128 || value > i32::MAX as i128 {
            return LqError::err_new(ErrorKind::Codec, "The integer does not fit in 32 bits.");
        }
        Ok(value as i32)
    }

    /// Writes a signed integer.
    pub fn serialize(writer: &mut VecWriter, item: &i32)
        ensures
            final(writer)@ == old(writer)@ + sint_bytes(*item as int),
    {
        let wide = *item as i128;
        SInt128::serialize(writer, &wide)
    }
}

impl SInt16 {
    /// Reads a signed integer that fits in 16 bits.
    pub fn de_serialize(reader: &mut SliceReader) -> (r: Result<i16, LqError>)
        ensures
            final(reader).spec_data() == old(reader).spec_data(),
            match r {
                Ok(v) => sint_at_within(
                    old(reader).spec_data(),
                    old(reader).spec_offset(),
                    i16::MIN as int,
                    i16::MAX as int,
                ) == Some((v as int, final(reader).spec_offset())),
                Err(e) => sint_at_within(
                    old(reader).spec_data(),
                    old(reader).spec_offset(),
                    i16::MIN as int,
                    i16::MAX as int,
                ) is None && e.kind == ErrorKind::Codec,
            },
    {
        let value = SInt128::de_serialize(reader)?;
        if value < i16::MIN as i128 || value > i16::MAX as i128 {
            return LqError::err_new(ErrorKind::Codec, "The integer does not fit in 16 bits.");
        }
        Ok(value as i16)
    }

    /// Writes a signed integer.
    pub fn serialize(writer: &mut VecWriter, item: &i16)
        ensures
            final(writer)@ == old(writer)@ + sint_bytes(*item as int),
    {
        let wide = *item as i128;
        SInt128::serialize(writer, &wide)
    }
}

impl SInt8 {
    /// Reads a signed integer that fits in 8 bits.
    pub fn de_serialize(reader: &mut SliceReader) -> (r: Result<i8, LqError>)
        ensures
            final(reader).spec_data() == old(reader).spec_data(),
            match r {
                Ok(v) => sint_at_within(
                    old(reader).spec_data(),
                    old(reader).spec_offset(),
                    i8::MIN as int,
                    i8::MAX as int,
                ) == Some((v as int, final(reader).spec_offset())),
                Err(e) => sint_at_within(
                    old(reader).spec_data(),
                    old(reader).spec_offset(),
                    i8::MIN as int,
                    i8::MAX as int,
                ) is None && e.kind == ErrorKind::Codec,
            },
    {
        let value = SInt128::de_serialize(reader)?;
        if value < i8::MIN as i128 || value > i8::MAX as i128 {
            return LqError::err_new(ErrorKind::Codec, "The integer does not fit in 8 bits.");
        }
        Ok(value as i8)
    }

    /// Writes a signed integer.
    pub fn serialize(writer: &mut VecWriter, item: &i8)
        ensures
            final(writer)@ == old(writer)@ + sint_bytes(*item as int),
    {
        let wide = *item as i128;
        SInt128::serialize(writer, &wide)
    }
}

} // verus!
