//! Unsigned integers: major type 10; the value's own bytes are the number in
//! little-endian order, in the smallest of the widths 1, 2, 4, 8 and 16 that
//! holds it.

use crate::endian::{
    le_bytes, le_nat, lemma_le_bytes_len, lemma_le_bytes_of_le_nat, lemma_le_nat_bound,
    lemma_le_nat_of_le_bytes, lemma_pow256_values,
};
use crate::error::{ErrorKind, LqError};
use crate::major_types::TYPE_UINT;
use crate::slice_reader::SliceReader;
use crate::types::binary::{
    begin_leaf, leaf_at, leaf_bytes, lemma_leaf_at, lemma_leaf_at_of_bytes,
};
use crate::vec_writer::VecWriter;
use crate::wire::{lemma_descriptor_at, value_end};
use vstd::prelude::*;

verus! {

/// Reads and writes unsigned integers of up to 8 bits.
pub struct UInt8;

/// Reads and writes unsigned integers of up to 16 bits.
pub struct UInt16;

/// Reads and writes unsigned integers of up to 32 bits.
pub struct UInt32;

/// Reads and writes unsigned integers of up to 64 bits.
pub struct UInt64;

/// Reads and writes unsigned integers of up to 128 bits.
pub struct UInt128;

/// The number of bytes that an unsigned integer is written with.
pub open spec fn uint_width(v: nat) -> nat {
    if v < 0x100 {
        1
    } else if v < 0x1_0000 {
        2
    } else if v < 0x1_0000_0000 {
        4
    } else if v < 0x1_0000_0000_0000_0000 {
        8
    } else {
        16
    }
}

/// The bytes of an unsigned integer below 2^128.
pub open spec fn uint_bytes(v: nat) -> Seq<u8> {
    leaf_bytes(TYPE_UINT, le_bytes(v, uint_width(v)))
}

/// The number that the own bytes of an unsigned integer stand for; nothing
/// where the number of bytes is none of 1, 2, 4, 8 and 16 or the number would
/// have fit in fewer bytes.
pub open spec fn uint_of_body(body: Seq<u8>) -> Option<nat> {
    if body.len() <= 16 && uint_width(le_nat(body)) == body.len() {
        Some(le_nat(body))
    } else {
        None
    }
}

/// The unsigned integer at `pos` and the position behind it.
pub open spec fn uint_at(data: Seq<u8>, pos: int) -> Option<(nat, int)> {
    match leaf_at(TYPE_UINT, data, pos) {
        Some((body, e)) => match uint_of_body(body) {
            Some(v) => Some((v, e)),
            None => None,
        },
        None => None,
    }
}

/// The unsigned integer at `pos`, where it is at most `max`, and the
/// position behind it.
pub open spec fn uint_at_most(data: Seq<u8>, pos: int, max: nat) -> Option<(nat, int)> {
    match uint_at(data, pos) {
        Some((v, e)) => if v <= max {
            Some((v, e))
        } else {
            None
        },
        None => None,
    }
}

/// An unsigned integer that is read is one whole wire value below 2^128, and
/// its bytes are those that writing it gives.
pub proof fn lemma_uint_at(data: Seq<u8>, pos: int)
    requires
        uint_at(data, pos) is Some,
    ensures
        ({
            let (v, e) = uint_at(data, pos).unwrap();
            &&& value_end(data, pos) == Some(e)
            &&& pos < e <= data.len()
            &&& v <= u128::MAX
            &&& data.subrange(pos, e) == uint_bytes(v)
        }),
{
    lemma_leaf_at(TYPE_UINT, data, pos);
    let (body, e) = leaf_at(TYPE_UINT, data, pos).unwrap();
    lemma_le_bytes_of_le_nat(body);
    lemma_le_nat_bound(body);
    lemma_pow256_values();
}

/// Where the data holds the bytes of an unsigned integer below 2^128,
/// reading gives the number back.
pub proof fn lemma_uint_at_of_bytes(data: Seq<u8>, pos: int, v: nat)
    requires
        v <= u128::MAX,
        0 <= pos,
        pos + uint_bytes(v).len() <= data.len(),
        data.subrange(pos, pos + uint_bytes(v).len()) == uint_bytes(v),
    ensures
        uint_at(data, pos) == Some((v, pos + uint_bytes(v).len())),
{
    let body = le_bytes(v, uint_width(v));
    lemma_le_bytes_len(v, uint_width(v));
    lemma_leaf_at_of_bytes(TYPE_UINT, data, pos, body);
    lemma_pow256_values();
    lemma_le_nat_of_le_bytes(v, uint_width(v));
}

/// One byte stands for itself.
pub proof fn lemma_le_nat_single(s: Seq<u8>)
    requires
        s.len() == 1,
    ensures
        le_nat(s) == s[0],
        le_bytes(s[0] as nat, 1) == s,
{
    reveal_with_fuel(le_nat, 2);
    reveal_with_fuel(le_bytes, 2);
    assert(le_bytes(s[0] as nat, 1) =~= s);
}

impl UInt128 {
    /// Reads an unsigned integer.
    pub fn de_serialize(reader: &mut SliceReader) -> (r: Result<u128, LqError>)
        ensures
            final(reader).spec_data() == old(reader).spec_data(),
            match r {
                Ok(v) => uint_at(old(reader).spec_data(), old(reader).spec_offset()) == Some(
                    (v as nat, final(reader).spec_offset()),
                ),
                Err(e) => uint_at(old(reader).spec_data(), old(reader).spec_offset()) is None
                    && e.kind == ErrorKind::Codec,
            },
    {
        let ghost data = reader.spec_data();
        let ghost start = reader.spec_offset();
        let (major, description) = reader.read_header()?;
        if major.id() != TYPE_UINT {
            return LqError::err_new(ErrorKind::Codec, "Given type is not an unsigned integer");
        }
        if description.number_of_embedded_items() != 0 {
            return LqError::err_new(
                ErrorKind::Codec,
                "Integer types must not contain embedded values.",
            );
        }
        let ghost p = reader.spec_offset();
        proof {
            lemma_pow256_values();
            lemma_descriptor_at(data, start);
        }
        let self_length = description.self_length();
        if self_length == 1 {
            let v = reader.read_u8()?;
            proof {
                lemma_le_nat_single(data.subrange(p, p + 1));
            }
            Ok(v as u128)
        } else if self_length == 2 {
            let v = reader.read_u16()?;
            if v < 0x100 {
                return LqError::err_new(ErrorKind::Codec, "Integer is not canonical");
            }
            Ok(v as u128)
        } else if self_length == 4 {
            let v = reader.read_u32()?;
            if v < 0x1_0000 {
                return LqError::err_new(ErrorKind::Codec, "Integer is not canonical");
            }
            Ok(v as u128)
        } else if self_length == 8 {
            let v = reader.read_u64()?;
            if v < 0x1_0000_0000 {
                return LqError::err_new(ErrorKind::Codec, "Integer is not canonical");
            }
            Ok(v as u128)
        } else if self_length == 16 {
            let v = reader.read_u128()?;
            if v < 0x1_0000_0000_0000_0000 {
                return LqError::err_new(ErrorKind::Codec, "Integer is not canonical");
            }
            Ok(v)
        } else {
            proof {
                if crate::wire::bytes_at(data, p, self_length as int) is Some {
                    lemma_le_nat_bound(data.subrange(p, p + self_length));
                }
            }
            LqError::err_new(ErrorKind::Codec, "Invalid length for unsigned integer type")
        }
    }

    /// Writes an unsigned integer, in the smallest width that holds it.
    pub fn serialize(writer: &mut VecWriter, item: &u128)
        ensures
            final(writer)@ == old(writer)@ + uint_bytes(*item as nat),
    {
        let value = *item;
        let ghost before = writer@;
        if value < 0x100 {
            begin_leaf(writer, TYPE_UINT, 1);
            writer.write_u8(value as u8);
            proof {
                lemma_le_nat_single(seq![value as u8]);
                assert(writer@ =~= before + uint_bytes(value as nat));
            }
        } else if value < 0x1_0000 {
            begin_leaf(writer, TYPE_UINT, 2);
            writer.write_u16(value as u16);
            proof {
                lemma_le_bytes_len(value as nat, 2);
                assert(writer@ =~= before + uint_bytes(value as nat));
            }
        } else if value < 0x1_0000_0000 {
            begin_leaf(writer, TYPE_UINT, 4);
            writer.write_u32(value as u32);
            proof {
                lemma_le_bytes_len(value as nat, 4);
                assert(writer@ =~= before + uint_bytes(value as nat));
            }
        } else if value < 0x1_0000_0000_0000_0000 {
            begin_leaf(writer, TYPE_UINT, 8);
            writer.write_u64(value as u64);
            proof {
                lemma_le_bytes_len(value as nat, 8);
                assert(writer@ =~= before + uint_bytes(value as nat));
            }
        } else {
            begin_leaf(writer, TYPE_UINT, 16);
            writer.write_u128(value);
            proof {
                lemma_le_bytes_len(value as nat, 16);
                assert(writer@ =~= before + uint_bytes(value as nat));
            }
        }
    }
}

impl UInt64 {
    /// Reads an unsigned integer that fits in 64 bits.
    pub fn de_serialize(reader: &mut SliceReader) -> (r: Result<u64, LqError>)
        ensures
            final(reader).spec_data() == old(reader).spec_data(),
            match r {
                Ok(v) => uint_at_most(
                    old(reader).spec_data(),
                    old(reader).spec_offset(),
                    u64::MAX as nat,
                ) == Some((v as nat, final(reader).spec_offset())),
                Err(e) => uint_at_most(
                    old(reader).spec_data(),
                    old(reader).spec_offset(),
                    u64::MAX as nat,
                ) is None && e.kind == ErrorKind::Codec,
            },
    {
        let value = UInt128::de_serialize(reader)?;
        if value > u64::MAX as u128 {
            return LqError::err_new(ErrorKind::Codec, "The integer does not fit in 64 bits.");
        }
        Ok(value as u64)
    }

    /// Writes an unsigned integer.
    pub fn serialize(writer: &mut VecWriter, item: &u64)
        ensures
            final(writer)@ == old(writer)@ + uint_bytes(*item as nat),
    {
        let wide = *item as u128;
        UInt128::serialize(writer, &wide)
    }
}

impl UInt32 {
    /// Reads an unsigned integer that fits in 32 bits.
    pub fn de_serialize(reader: &mut SliceReader) -> (r: Result<u32, LqError>)
        ensures
            final(reader).spec_data() == old(reader).spec_data(),
            match r {
                Ok(v) => uint_at_most(
                    old(reader).spec_data(),
                    old(reader).spec_offset(),
                    u32::MAX as nat,
                ) == Some((v as nat, final(reader).spec_offset())),
                Err(e) => uint_at_most(
                    old(reader).spec_data(),
                    old(reader).spec_offset(),
                    u32::MAX as nat,
                ) is None && e.kind == ErrorKind::Codec,
            },
    {
        let value = UInt128::de_serialize(reader)?;
        if value > u32::MAX as u128 {
            return LqError::err_new(ErrorKind::Codec, "The integer does not fit in 32 bits.");
        }
        Ok(value as u32)
    }

    /// Writes an unsigned integer.
    pub fn serialize(writer: &mut VecWriter, item: &u32)
        ensures
            final(writer)@ == old(writer)@ + uint_bytes(*item as nat),
    {
        let wide = *item as u128;
        UInt128::serialize(writer, &wide)
    }
}

impl UInt16 {
    /// Reads an unsigned integer that fits in 16 bits.
    pub fn de_serialize(reader: &mut SliceReader) -> (r: Result<u16, LqError>)
        ensures
            final(reader).spec_data() == old(reader).spec_data(),
            match r {
                Ok(v) => uint_at_most(
                    old(reader).spec_data(),
                    old(reader).spec_offset(),
                    u16::MAX as nat,
                ) == Some((v as nat, final(reader).spec_offset())),
                Err(e) => uint_at_most(
                    old(reader).spec_data(),
                    old(reader).spec_offset(),
                    u16::MAX as nat,
                ) is None && e.kind == ErrorKind::Codec,
            },
    {
        let value = UInt128::de_serialize(reader)?;
        if value > u16::MAX as u128 {
            return LqError::err_new(ErrorKind::Codec, "The integer does not fit in 16 bits.");
        }
        Ok(value as u16)
    }

    /// Writes an unsigned integer.
    pub fn serialize(writer: &mut VecWriter, item: &u16)
        ensures
            final(writer)@ == old(writer)@ + uint_bytes(*item as nat),
    {
        let wide = *item as u128;
        UInt128::serialize(writer, &wide)
    }
}

impl UInt8 {
    /// Reads an unsigned integer that fits in 8 bits.
    pub fn de_serialize(reader: &mut SliceReader) -> (r: Result<u8, LqError>)
        ensures
            final(reader).spec_data() == old(reader).spec_data(),
            match r {
                Ok(v) => uint_at_most(
                    old(reader).spec_data(),
                    old(reader).spec_offset(),
                    u8::MAX as nat,
                ) == Some((v as nat, final(reader).spec_offset())),
                Err(e) => uint_at_most(
                    old(reader).spec_data(),
                    old(reader).spec_offset(),
                    u8::MAX as nat,
                ) is None && e.kind == ErrorKind::Codec,
            },
    {
        let value = UInt128::de_serialize(reader)?;
        if value > u8::MAX as u128 {
            return LqError::err_new(ErrorKind::Codec, "The integer does not fit in 8 bits.");
        }
        Ok(value as u8)
    }

    /// Writes an unsigned integer.
    pub fn serialize(writer: &mut VecWriter, item: &u8)
        ensures
            final(writer)@ == old(writer)@ + uint_bytes(*item as nat),
    {
        let wide = *item as u128;
        UInt128::serialize(writer, &wide)
    }
}

} // verus!
