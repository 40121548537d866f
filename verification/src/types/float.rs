//! Floating point numbers: major type 12; the value's own bytes are the four
//! (binary32) or eight (binary64) bytes of the IEEE-754 bit pattern in
//! little-endian order. The library holds a float as its bit pattern.

use crate::endian::{
    le_bytes, le_nat, lemma_le_bytes_len, lemma_le_bytes_of_le_nat, lemma_le_nat_bound,
    lemma_le_nat_of_le_bytes, lemma_pow256_values,
};
use crate::error::{ErrorKind, LqError};
use crate::major_types::TYPE_FLOAT;
use crate::slice_reader::SliceReader;
use crate::types::binary::{
    begin_leaf, leaf_at, leaf_bytes, lemma_leaf_at, lemma_leaf_at_of_bytes,
};
use crate::vec_writer::VecWriter;
use crate::wire::{descriptor_at, value_end};
use vstd::prelude::*;

verus! {

/// 32 bit or 64 bit float, as its IEEE-754 bit pattern.
#[derive(Copy, Clone, Debug, PartialEq, Eq, Structural)]
pub enum Float {
    F32(u32),
    F64(u64),
}

/// The width of a float on the wire.
#[derive(Copy, Clone, Debug, PartialEq, Eq, Structural)]
pub enum Type {
    F32,
    F64,
}

/// Reads and writes 32 bit floats.
pub struct Float32;

/// Reads and writes 64 bit floats.
pub struct Float64;

/// The own bytes of a float.
pub open spec fn float_body(f: Float) -> Seq<u8> {
    match f {
        Float::F32(bits) => le_bytes(bits as nat, 4),
        Float::F64(bits) => le_bytes(bits as nat, 8),
    }
}

/// The bytes of a float.
pub open spec fn float_bytes(f: Float) -> Seq<u8> {
    leaf_bytes(TYPE_FLOAT, float_body(f))
}

/// The float at `pos` and the position behind it.
pub open spec fn float_at(data: Seq<u8>, pos: int) -> Option<(Float, int)> {
    match leaf_at(TYPE_FLOAT, data, pos) {
        Some((body, e)) => if body.len() == 4 {
            Some((Float::F32(le_nat(body) as u32), e))
        } else if body.len() == 8 {
            Some((Float::F64(le_nat(body) as u64), e))
        } else {
            None
        },
        None => None,
    }
}

/// The bits of the 32 bit float at `pos` and the position behind it.
pub open spec fn float32_at(data: Seq<u8>, pos: int) -> Option<(u32, int)> {
    match float_at(data, pos) {
        Some((Float::F32(bits), e)) => Some((bits, e)),
        _ => None,
    }
}

/// The bits of the 64 bit float at `pos` and the position behind it.
pub open spec fn float64_at(data: Seq<u8>, pos: int) -> Option<(u64, int)> {
    match float_at(data, pos) {
        Some((Float::F64(bits), e)) => Some((bits, e)),
        _ => None,
    }
}

/// The width of the float whose header is at `pos`, and the position behind
/// the header, where the bits start.
pub open spec fn float_type_at(data: Seq<u8>, pos: int) -> Option<(Type, int)> {
    match descriptor_at(data, pos) {
        Some((major, d, p)) => if major.0 == TYPE_FLOAT && d.number_of_embedded_items == 0 {
            if d.self_length == 4 {
                Some((Type::F32, p))
            } else if d.self_length == 8 {
                Some((Type::F64, p))
            } else {
                None
            }
        } else {
            None
        },
        None => None,
    }
}

/// A float that is read is one whole wire value, and its bytes are those
/// that writing it gives.
pub proof fn lemma_float_at(data: Seq<u8>, pos: int)
    requires
        float_at(data, pos) is Some,
    ensures
        ({
            let (f, e) = float_at(data, pos).unwrap();
            &&& value_end(data, pos) == Some(e)
            &&& pos < e <= data.len()
            &&& data.subrange(pos, e) == float_bytes(f)
        }),
{
    lemma_leaf_at(TYPE_FLOAT, data, pos);
    let (body, e) = leaf_at(TYPE_FLOAT, data, pos).unwrap();
    lemma_le_bytes_of_le_nat(body);
    lemma_le_nat_bound(body);
    lemma_pow256_values();
}

/// Where the data holds the bytes of a float, reading gives the float back.
pub proof fn lemma_float_at_of_bytes(data: Seq<u8>, pos: int, f: Float)
    requires
        0 <= pos,
        pos + float_bytes(f).len() <= data.len(),
        data.subrange(pos, pos + float_bytes(f).len()) == float_bytes(f),
    ensures
        float_at(data, pos) == Some((f, pos + float_bytes(f).len())),
{
    lemma_pow256_values();
    match f {
        Float::F32(bits) => {
            lemma_le_bytes_len(bits as nat, 4);
            lemma_le_nat_of_le_bytes(bits as nat, 4);
        },
        Float::F64(bits) => {
            lemma_le_bytes_len(bits as nat, 8);
            lemma_le_nat_of_le_bytes(bits as nat, 8);
        },
    }
    lemma_leaf_at_of_bytes(TYPE_FLOAT, data, pos, float_body(f));
}

impl Float {
    /// The bits of a 32 bit float; an error for a 64 bit float.
    pub fn try_into_f32(&self) -> (r: Result<u32, LqError>)
        ensures
            match r {
                Ok(bits) => *self == Float::F32(bits),
                Err(e) => *self is F64 && e.kind == ErrorKind::Schema,
            },
    {
        match self {
            Float::F32(bits) => Ok(*bits),
            Float::F64(_) => LqError::err_new(
                ErrorKind::Schema,
                "Given value is a float 64 - want a float 32",
            ),
        }
    }

    /// The bits of a 64 bit float; an error for a 32 bit float.
    pub fn try_into_f64(&self) -> (r: Result<u64, LqError>)
        ensures
            match r {
                Ok(bits) => *self == Float::F64(bits),
                Err(e) => *self is F32 && e.kind == ErrorKind::Schema,
            },
    {
        match self {
            Float::F64(bits) => Ok(*bits),
            Float::F32(_) => LqError::err_new(
                ErrorKind::Schema,
                "Given value is a float 32 - want a float 64",
            ),
        }
    }

    /// Reads a float of either width.
    pub fn de_serialize(reader: &mut SliceReader) -> (r: Result<Float, LqError>)
        ensures
            final(reader).spec_data() == old(reader).spec_data(),
            match r {
                Ok(v) => float_at(old(reader).spec_data(), old(reader).spec_offset()) == Some(
                    (v, final(reader).spec_offset()),
                ),
                Err(e) => float_at(old(reader).spec_data(), old(reader).spec_offset()) is None
                    && e.kind == ErrorKind::Codec,
            },
    {
        let float_type = begin_de_serialize(reader)?;
        match float_type {
            Type::F32 => Ok(Float::F32(reader.read_u32()?)),
            Type::F64 => Ok(Float::F64(reader.read_u64()?)),
        }
    }

    /// Writes a float.
    pub fn serialize(writer: &mut VecWriter, item: &Float)
        ensures
            final(writer)@ == old(writer)@ + float_bytes(*item),
    {
        let ghost before = writer@;
        match item {
            Float::F32(value) => {
                begin_serialize(writer, Type::F32);
                writer.write_u32(*value);
                proof {
                    lemma_le_bytes_len(*value as nat, 4);
                    assert(writer@ =~= before + float_bytes(*item));
                }
            },
            Float::F64(value) => {
                begin_serialize(writer, Type::F64);
                writer.write_u64(*value);
                proof {
                    lemma_le_bytes_len(*value as nat, 8);
                    assert(writer@ =~= before + float_bytes(*item));
                }
            },
        }
    }
}

impl Float32 {
    /// Reads the bits of a 32 bit float.
    pub fn de_serialize(reader: &mut SliceReader) -> (r: Result<u32, LqError>)
        ensures
            final(reader).spec_data() == old(reader).spec_data(),
            match r {
                Ok(v) => float32_at(old(reader).spec_data(), old(reader).spec_offset()) == Some(
                    (v, final(reader).spec_offset()),
                ),
                Err(e) => float32_at(old(reader).spec_data(), old(reader).spec_offset()) is None
                    && e.kind == ErrorKind::Codec,
            },
    {
        let float_type = begin_de_serialize(reader)?;
        if float_type == Type::F32 {
            reader.read_u32()
        } else {
            LqError::err_new(
                ErrorKind::Codec,
                "It's a 64 bit float and not a 32 bit float (expected).",
            )
        }
    }

    /// Writes a 32 bit float, given as its bits.
    pub fn serialize(writer: &mut VecWriter, item: &u32)
        ensures
            final(writer)@ == old(writer)@ + float_bytes(Float::F32(*item)),
    {
        Float::serialize(writer, &Float::F32(*item))
    }
}

impl Float64 {
    /// Reads the bits of a 64 bit float.
    pub fn de_serialize(reader: &mut SliceReader) -> (r: Result<u64, LqError>)
        ensures
            final(reader).spec_data() == old(reader).spec_data(),
            match r {
                Ok(v) => float64_at(old(reader).spec_data(), old(reader).spec_offset()) == Some(
                    (v, final(reader).spec_offset()),
                ),
                Err(e) => float64_at(old(reader).spec_data(), old(reader).spec_offset()) is None
                    && e.kind == ErrorKind::Codec,
            },
    {
        let float_type = begin_de_serialize(reader)?;
        if float_type == Type::F64 {
            reader.read_u64()
        } else {
            LqError::err_new(
                ErrorKind::Codec,
                "It's a 32 bit float and not a 64 bit float (expected).",
            )
        }
    }

    /// Writes a 64 bit float, given as its bits.
    pub fn serialize(writer: &mut VecWriter, item: &u64)
        ensures
            final(writer)@ == old(writer)@ + float_bytes(Float::F64(*item)),
    {
        Float::serialize(writer, &Float::F64(*item))
    }
}

/// Reads the header of a float and tells its width.
pub fn begin_de_serialize(reader: &mut SliceReader) -> (r: Result<Type, LqError>)
    ensures
        final(reader).spec_data() == old(reader).spec_data(),
        match r {
            Ok(t) => float_type_at(old(reader).spec_data(), old(reader).spec_offset()) == Some(
                (t, final(reader).spec_offset()),
            ),
            Err(e) => float_type_at(old(reader).spec_data(), old(reader).spec_offset()) is None
                && e.kind == ErrorKind::Codec,
        },
{
    let (major, content_description) = reader.read_header()?;
    if major.id() != TYPE_FLOAT {
        return LqError::err_new(ErrorKind::Codec, "Given type is not a float type");
    }
    if content_description.number_of_embedded_items() != 0 {
        return LqError::err_new(ErrorKind::Codec, "Float types must not contain embedded values.");
    }
    let n = content_description.self_length();
    if n == 4 {
        Ok(Type::F32)
    } else if n == 8 {
        Ok(Type::F64)
    } else {
        LqError::err_new(
            ErrorKind::Codec,
            "Float has invalid number of bytes; supported floats are float32 (4 bytes) and float64 (8 bytes).",
        )
    }
}

/// Writes the header of a float of the given width.
pub fn begin_serialize(writer: &mut VecWriter, float_type: Type)
    ensures
        final(writer)@ == old(writer)@ + crate::wire::descriptor_bytes(
            crate::wire::MajorType(TYPE_FLOAT),
            crate::wire::ContentDescription {
                number_of_embedded_items: 0,
                self_length: if float_type == Type::F32 {
                    4
                } else {
                    8
                },
            },
        ),
{
    let length: u64 = match float_type {
        Type::F32 => 4,
        Type::F64 => 8,
    };
    begin_leaf(writer, TYPE_FLOAT, length)
}

} // verus!
