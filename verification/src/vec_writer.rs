//! A writer that appends wire values to a vector of bytes.

use crate::endian::{
    le_bytes, le_int_bytes, le_write_i128, le_write_i16, le_write_i32, le_write_i64, le_write_i8,
    le_write_u128, le_write_u16, le_write_u32, le_write_u64,
};
use crate::error::{ErrorKind, LqError};
use crate::varint::{varint_bytes, varint_write_u32, varint_write_u64};
use crate::wire::{
    descriptor_bytes, header_fits, ContentDescription, ContentInfo, HeaderByte, MajorType,
};
use vstd::prelude::*;

verus! {

/// Writes wire values into a `Vec<u8>`.
pub struct VecWriter {
    data: Vec<u8>,
}

impl View for VecWriter {
    type V = Seq<u8>;

    /// The bytes written so far.
    closed spec fn view(&self) -> Seq<u8> {
        self.data@
    }
}

impl Default for VecWriter {
    fn default() -> (w: Self)
        ensures
            w@ == Seq::<u8>::empty(),
    {
        VecWriter { data: Vec::new() }
    }
}

impl VecWriter {
    /// A writer that has written nothing yet.
    pub fn new() -> (w: Self)
        ensures
            w@ == Seq::<u8>::empty(),
    {
        VecWriter { data: Vec::new() }
    }

    /// Finishes the writer and returns the written data as `Vec<u8>`.
    pub fn into_vec(self) -> (v: Vec<u8>)
        ensures
            v@ == self@,
    {
        self.data
    }

    /// The bytes written so far.
    pub fn as_slice(&self) -> (s: &[u8])
        ensures
            s@ == self@,
    {
        self.data.as_slice()
    }

    /// The number of bytes written so far.
    pub fn len(&self) -> (n: usize)
        ensures
            n == self@.len(),
    {
        self.data.len()
    }

    /// Appends one byte.
    pub fn write_u8(&mut self, data: u8)
        ensures
            final(self)@ == old(self)@.push(data),
    {
        self.data.push(data);
    }

    /// Appends the given bytes.
    pub fn write_slice(&mut self, buf: &[u8])
        ensures
            final(self)@ == old(self)@ + buf@,
    {
        self.data.extend_from_slice(buf);
    }

    /// Appends the varint of a `u64`.
    pub fn write_varint_u64(&mut self, value: u64)
        ensures
            final(self)@ == old(self)@ + varint_bytes(value as nat),
    {
        varint_write_u64(&mut self.data, value);
    }

    /// Appends the varint of a `u32`.
    pub fn write_varint_u32(&mut self, value: u32)
        ensures
            final(self)@ == old(self)@ + varint_bytes(value as nat),
    {
        varint_write_u32(&mut self.data, value);
    }

    /// Appends the two little-endian bytes of a `u16`.
    pub fn write_u16(&mut self, data: u16)
        ensures
            final(self)@ == old(self)@ + le_bytes(data as nat, 2),
    {
        le_write_u16(&mut self.data, data);
    }

    /// Appends the four little-endian bytes of a `u32`.
    pub fn write_u32(&mut self, data: u32)
        ensures
            final(self)@ == old(self)@ + le_bytes(data as nat, 4),
    {
        le_write_u32(&mut self.data, data);
    }

    /// Appends the eight little-endian bytes of a `u64`.
    pub fn write_u64(&mut self, data: u64)
        ensures
            final(self)@ == old(self)@ + le_bytes(data as nat, 8),
    {
        le_write_u64(&mut self.data, data);
    }

    /// Appends the sixteen little-endian bytes of a `u128`.
    pub fn write_u128(&mut self, data: u128)
        ensures
            final(self)@ == old(self)@ + le_bytes(data as nat, 16),
    {
        le_write_u128(&mut self.data, data);
    }

    /// Appends the two's complement byte of an `i8`.
    pub fn write_i8(&mut self, data: i8)
        ensures
            final(self)@ == old(self)@ + le_int_bytes(data as int, 1),
    {
        le_write_i8(&mut self.data, data);
    }

    /// Appends the two little-endian two's complement bytes of an `i16`.
    pub fn write_i16(&mut self, data: i16)
        ensures
            final(self)@ == old(self)@ + le_int_bytes(data as int, 2),
    {
        le_write_i16(&mut self.data, data);
    }

    /// Appends the four little-endian two's complement bytes of an `i32`.
    pub fn write_i32(&mut self, data: i32)
        ensures
            final(self)@ == old(self)@ + le_int_bytes(data as int, 4),
    {
        le_write_i32(&mut self.data, data);
    }

    /// Appends the eight little-endian two's complement bytes of an `i64`.
    pub fn write_i64(&mut self, data: i64)
        ensures
            final(self)@ == old(self)@ + le_int_bytes(data as int, 8),
    {
        le_write_i64(&mut self.data, data);
    }

    /// Appends the sixteen little-endian two's complement bytes of an `i128`.
    pub fn write_i128(&mut self, data: i128)
        ensures
            final(self)@ == old(self)@ + le_int_bytes(data as int, 16),
    {
        le_write_i128(&mut self.data, data);
    }

    /// Appends a header byte.
    pub fn write_header_byte(&mut self, header: HeaderByte)
        ensures
            final(self)@ == old(self)@.push(header.0),
    {
        self.write_u8(header.id());
    }

    /// Appends the header byte and the content description of a value, in
    /// the smallest layout that can hold the description. Fails, and writes
    /// nothing, where the major type is too large for the header byte.
    pub fn write_content_description(
        &mut self,
        major_type: MajorType,
        content_description: &ContentDescription,
    ) -> (r: Result<(), LqError>)
        ensures
            match r {
                Ok(_) => header_fits(major_type, *content_description) && final(self)@ == old(
                    self,
                )@ + descriptor_bytes(major_type, *content_description),
                Err(e) => !header_fits(major_type, *content_description) && final(self)@ == old(
                    self,
                )@ && e.kind == ErrorKind::Codec,
            },
    {
        let self_len = content_description.self_length;
        let number_of_embedded_values = content_description.number_of_embedded_items;
        let marker = content_description.content_info();
        if major_type.id() > 19 || (major_type.id() == 19 && marker.id() > 8) {
            return LqError::err_new(
                ErrorKind::Codec,
                "The major type is too large for the header byte.",
            );
        }
        let ghost before = self@;
        self.write_header_byte(HeaderByte::new(marker, major_type));
        match marker {
            ContentInfo::VarInt => {
                self.write_varint_u64(self_len);
            },
            ContentInfo::ContainerVarIntEmpty => {
                self.write_varint_u32(number_of_embedded_values);
            },
            ContentInfo::ContainerVarIntVarInt => {
                self.write_varint_u32(number_of_embedded_values);
                self.write_varint_u64(self_len);
            },
            _ => {},
        }
        proof {
            assert(self@ =~= before + descriptor_bytes(major_type, *content_description));
        }
        Ok(())
    }
}

} // verus!
