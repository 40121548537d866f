//! A reader over a byte slice: the bytes and a cursor into them.

use crate::endian::{
    le_int, le_nat, le_read_i128, le_read_i16, le_read_i32, le_read_i64, le_read_i8,
    le_read_u128, le_read_u16, le_read_u32, le_read_u64,
};
use crate::error::{ErrorKind, LqError};
use crate::varint::{
    varint_read_u32, varint_read_u64, varint_size_u32, varint_size_u64, VARINT_U32_MAX_FIRST,
    VARINT_U64_MAX_FIRST,
};
use crate::wire::{
    bytes_at, node_at, Node, descriptor_after, descriptor_at, lemma_descriptor_at,
    lemma_value_end_bounds, lemma_values_end_extend, lemma_values_end_split, value_end, values_end,
    varint_at, ContentDescription, ContentInfo, HeaderByte, MajorType,
};
use vstd::prelude::*;
use vstd::slice::slice_subrange;

verus! {

/// Reads wire values from a slice of bytes. It holds the slice and an offset
/// (cursor). A copy shares the bytes and has a cursor of its own.
#[derive(Clone, Copy)]
pub struct SliceReader<'a> {
    data: &'a [u8],
    offset: usize,
}

/// The `n` bytes at `pos` as a little-endian unsigned number.
pub open spec fn le_nat_at(data: Seq<u8>, pos: int, n: int) -> Option<nat> {
    match bytes_at(data, pos, n) {
        Some(b) => Some(le_nat(b)),
        None => None,
    }
}

/// The `n` bytes at `pos` as a little-endian two's complement number.
pub open spec fn le_int_at(data: Seq<u8>, pos: int, n: int) -> Option<int> {
    match bytes_at(data, pos, n) {
        Some(b) => Some(le_int(b)),
        None => None,
    }
}

impl<'a> SliceReader<'a> {
    /// The cursor lies within the bytes, or at their end.
    #[verifier::type_invariant]
    pub closed spec fn within(&self) -> bool {
        self.offset <= self.data@.len()
    }

    /// The cursor of every reader lies within its bytes, or at their end.
    pub proof fn lemma_within(&self)
        requires
            self.within(),
        ensures
            0 <= self.spec_offset() <= self.spec_data().len(),
    {
    }

    /// The bytes that this reader reads from.
    pub closed spec fn spec_data(&self) -> Seq<u8> {
        self.data@
    }

    /// The position of the cursor: the number of bytes read so far.
    pub closed spec fn spec_offset(&self) -> int {
        self.offset as int
    }

    /// A reader at the start of the given bytes.
    pub fn new(data: &'a [u8]) -> (r: Self)
        ensures
            r.spec_data() == data@,
            r.spec_offset() == 0,
    {
        SliceReader { data, offset: 0 }
    }

    /// The bytes that this reader reads from.
    pub fn data(&self) -> (d: &'a [u8])
        ensures
            d@ == self.spec_data(),
    {
        self.data
    }

    /// The position of the cursor.
    pub fn offset(&self) -> (o: usize)
        ensures
            o == self.spec_offset(),
            o <= self.spec_data().len(),
    {
        proof {
            use_type_invariant(self);
        }
        self.offset
    }

    /// Makes sure the reader has been read completely and there's no additional data.
    pub fn finish(&self) -> (r: Result<(), LqError>)
        ensures
            r is Ok <==> self.spec_offset() == self.spec_data().len(),
            r matches Err(e) ==> e.kind == ErrorKind::Codec,
    {
        if self.offset != self.data.len() {
            LqError::err_new(
                ErrorKind::Codec,
                "There's additional data not read from any. The any data must have been consumed entirely (for security reasons).",
            )
        } else {
            Ok(())
        }
    }

    /// The bytes from the cursor to the end.
    fn remaining(&self) -> (rest: &'a [u8])
        ensures
            self.spec_offset() <= self.spec_data().len() ==> rest@ == self.spec_data().subrange(
                self.spec_offset(),
                self.spec_data().len() as int,
            ),
            self.spec_offset() > self.spec_data().len() ==> rest@.len() == 0,
    {
        let len = self.data.len();
        if self.offset <= len {
            slice_subrange(self.data, self.offset, len)
        } else {
            slice_subrange(self.data, len, len)
        }
    }

    /// The byte at the cursor; the cursor stays.
    pub fn peek_u8(&self) -> (r: Result<u8, LqError>)
        ensures
            match r {
                Ok(v) => 0 <= self.spec_offset() < self.spec_data().len() && v
                    == self.spec_data()[self.spec_offset()],
                Err(e) => self.spec_offset() >= self.spec_data().len() && e.kind
                    == ErrorKind::Codec,
            },
    {
        let len = self.data.len();
        if self.offset >= len {
            LqError::err_new(ErrorKind::Codec, "End of reader")
        } else {
            let value = self.data[self.offset];
            Ok(value)
        }
    }

    /// The byte at the cursor; the cursor moves behind it.
    pub fn read_u8(&mut self) -> (r: Result<u8, LqError>)
        ensures
            final(self).spec_data() == old(self).spec_data(),
            r is Err ==> final(self).spec_offset() == old(self).spec_offset(),
            match r {
                Ok(v) => 0 <= old(self).spec_offset() < old(self).spec_data().len() && v
                    == old(self).spec_data()[old(self).spec_offset()] && final(self).spec_offset()
                    == old(self).spec_offset() + 1,
                Err(e) => old(self).spec_offset() >= old(self).spec_data().len() && e.kind
                    == ErrorKind::Codec,
            },
    {
        let len = self.data.len();
        if self.offset >= len {
            LqError::err_new(ErrorKind::Codec, "End of reader")
        } else {
            let value = self.data[self.offset];
            self.offset += 1;
            Ok(value)
        }
    }

    /// The `len` bytes at the cursor; the cursor moves behind them. Where
    /// fewer bytes are left, the cursor stays.
    pub fn read_slice(&mut self, len: usize) -> (r: Result<&'a [u8], LqError>)
        ensures
            final(self).spec_data() == old(self).spec_data(),
            r is Err ==> final(self).spec_offset() == old(self).spec_offset(),
            match r {
                Ok(s) => bytes_at(old(self).spec_data(), old(self).spec_offset(), len as int)
                    == Some(s@) && final(self).spec_offset() == old(self).spec_offset() + len,
                Err(e) => bytes_at(old(self).spec_data(), old(self).spec_offset(), len as int)
                    is None && e.kind == ErrorKind::Codec,
            },
    {
        let data_len = self.data.len();
        if self.offset > data_len || len > data_len - self.offset {
            LqError::err_new(ErrorKind::Codec, "End of reader")
        } else {
            let end_index = self.offset + len;
            let value = slice_subrange(self.data, self.offset, end_index);
            self.offset = end_index;
            Ok(value)
        }
    }

    /// The header byte at the cursor; the cursor stays.
    pub fn peek_header_byte(&self) -> (r: Result<HeaderByte, LqError>)
        ensures
            match r {
                Ok(h) => 0 <= self.spec_offset() < self.spec_data().len() && h.0
                    == self.spec_data()[self.spec_offset()],
                Err(e) => self.spec_offset() >= self.spec_data().len() && e.kind
                    == ErrorKind::Codec,
            },
    {
        let value = self.peek_u8()?;
        Ok(HeaderByte::from_u8(value))
    }

    /// The header byte at the cursor; the cursor moves behind it.
    pub fn read_header_byte(&mut self) -> (r: Result<HeaderByte, LqError>)
        ensures
            final(self).spec_data() == old(self).spec_data(),
            r is Err ==> final(self).spec_offset() == old(self).spec_offset(),
            match r {
                Ok(h) => 0 <= old(self).spec_offset() < old(self).spec_data().len() && h.0
                    == old(self).spec_data()[old(self).spec_offset()] && final(self).spec_offset()
                    == old(self).spec_offset() + 1,
                Err(e) => old(self).spec_offset() >= old(self).spec_data().len() && e.kind
                    == ErrorKind::Codec,
            },
    {
        let header_byte = self.read_u8()?;
        Ok(HeaderByte::from_u8(header_byte))
    }

    /// The varint of a `u32` at the cursor. A varint that is longer than its
    /// number needs is rejected.
    pub fn read_varint_u32(&mut self) -> (r: Result<u32, LqError>)
        ensures
            final(self).spec_data() == old(self).spec_data(),
            r is Err ==> final(self).spec_offset() == old(self).spec_offset(),
            match r {
                Ok(v) => varint_at(
                    old(self).spec_data(),
                    old(self).spec_offset(),
                    VARINT_U32_MAX_FIRST,
                ) == Some((v as nat, final(self).spec_offset())),
                Err(e) => varint_at(
                    old(self).spec_data(),
                    old(self).spec_offset(),
                    VARINT_U32_MAX_FIRST,
                ) is None && e.kind == ErrorKind::Codec,
            },
    {
        if self.offset > self.data.len() {
            return LqError::err_new(ErrorKind::Codec, "End of reader");
        }
        match varint_read_u32(self.remaining()) {
            Some((v, n)) => {
                if n == varint_size_u32(v) {
                    self.offset += n;
                    Ok(v)
                } else {
                    LqError::err_new(ErrorKind::Codec, "Variable length integer is not canonical")
                }
            },
            None => LqError::err_new(ErrorKind::Codec, "Cannot read variable length integer"),
        }
    }

    /// The varint of a `u64` at the cursor. A varint that is longer than its
    /// number needs is rejected.
    pub fn read_varint_u64(&mut self) -> (r: Result<u64, LqError>)
        ensures
            final(self).spec_data() == old(self).spec_data(),
            r is Err ==> final(self).spec_offset() == old(self).spec_offset(),
            match r {
                Ok(v) => varint_at(
                    old(self).spec_data(),
                    old(self).spec_offset(),
                    VARINT_U64_MAX_FIRST,
                ) == Some((v as nat, final(self).spec_offset())),
                Err(e) => varint_at(
                    old(self).spec_data(),
                    old(self).spec_offset(),
                    VARINT_U64_MAX_FIRST,
                ) is None && e.kind == ErrorKind::Codec,
            },
    {
        if self.offset > self.data.len() {
            return LqError::err_new(ErrorKind::Codec, "End of reader");
        }
        match varint_read_u64(self.remaining()) {
            Some((v, n)) => {
                if n == varint_size_u64(v) {
                    self.offset += n;
                    Ok(v)
                } else {
                    LqError::err_new(ErrorKind::Codec, "Variable length integer is not canonical")
                }
            },
            None => LqError::err_new(ErrorKind::Codec, "Cannot read variable length integer"),
        }
    }

    /// Moves the cursor by `n` bytes that a fixed-width read has taken.
    fn advance(&mut self, n: usize)
        requires
            old(self).spec_offset() + n <= old(self).spec_data().len(),
        ensures
            final(self).spec_data() == old(self).spec_data(),
            final(self).spec_offset() == old(self).spec_offset() + n,
    {
        let end = self.data.len();
        if n <= end - self.offset {
            self.offset += n;
        }
    }

    /// The two bytes at the cursor as a little-endian `u16`.
    pub fn read_u16(&mut self) -> (r: Result<u16, LqError>)
        ensures
            final(self).spec_data() == old(self).spec_data(),
            r is Err ==> final(self).spec_offset() == old(self).spec_offset(),
            match r {
                Ok(v) => le_nat_at(old(self).spec_data(), old(self).spec_offset(), 2) == Some(
                    v as nat,
                ) && final(self).spec_offset() == old(self).spec_offset() + 2,
                Err(e) => le_nat_at(old(self).spec_data(), old(self).spec_offset(), 2) is None
                    && e.kind == ErrorKind::Codec,
            },
    {
        match le_read_u16(self.remaining()) {
            Some(v) => {
                proof {
                    self.lemma_remaining_prefix(2);
                }
                self.advance(2);
                Ok(v)
            },
            None => LqError::err_new(ErrorKind::Codec, "End of reader"),
        }
    }

    /// The four bytes at the cursor as a little-endian `u32`.
    pub fn read_u32(&mut self) -> (r: Result<u32, LqError>)
        ensures
            final(self).spec_data() == old(self).spec_data(),
            r is Err ==> final(self).spec_offset() == old(self).spec_offset(),
            match r {
                Ok(v) => le_nat_at(old(self).spec_data(), old(self).spec_offset(), 4) == Some(
                    v as nat,
                ) && final(self).spec_offset() == old(self).spec_offset() + 4,
                Err(e) => le_nat_at(old(self).spec_data(), old(self).spec_offset(), 4) is None
                    && e.kind == ErrorKind::Codec,
            },
    {
        match le_read_u32(self.remaining()) {
            Some(v) => {
                proof {
                    self.lemma_remaining_prefix(4);
                }
                self.advance(4);
                Ok(v)
            },
            None => LqError::err_new(ErrorKind::Codec, "End of reader"),
        }
    }

    /// The eight bytes at the cursor as a little-endian `u64`.
    pub fn read_u64(&mut self) -> (r: Result<u64, LqError>)
        ensures
            final(self).spec_data() == old(self).spec_data(),
            r is Err ==> final(self).spec_offset() == old(self).spec_offset(),
            match r {
                Ok(v) => le_nat_at(old(self).spec_data(), old(self).spec_offset(), 8) == Some(
                    v as nat,
                ) && final(self).spec_offset() == old(self).spec_offset() + 8,
                Err(e) => le_nat_at(old(self).spec_data(), old(self).spec_offset(), 8) is None
                    && e.kind == ErrorKind::Codec,
            },
    {
        match le_read_u64(self.remaining()) {
            Some(v) => {
                proof {
                    self.lemma_remaining_prefix(8);
                }
                self.advance(8);
                Ok(v)
            },
            None => LqError::err_new(ErrorKind::Codec, "End of reader"),
        }
    }

    /// The sixteen bytes at the cursor as a little-endian `u128`.
    pub fn read_u128(&mut self) -> (r: Result<u128, LqError>)
        ensures
            final(self).spec_data() == old(self).spec_data(),
            r is Err ==> final(self).spec_offset() == old(self).spec_offset(),
            match r {
                Ok(v) => le_nat_at(old(self).spec_data(), old(self).spec_offset(), 16) == Some(
                    v as nat,
                ) && final(self).spec_offset() == old(self).spec_offset() + 16,
                Err(e) => le_nat_at(old(self).spec_data(), old(self).spec_offset(), 16) is None
                    && e.kind == ErrorKind::Codec,
            },
    {
        match le_read_u128(self.remaining()) {
            Some(v) => {
                proof {
                    self.lemma_remaining_prefix(16);
                }
                self.advance(16);
                Ok(v)
            },
            None => LqError::err_new(ErrorKind::Codec, "End of reader"),
        }
    }

    /// The byte at the cursor as a two's complement `i8`.
    pub fn read_i8(&mut self) -> (r: Result<i8, LqError>)
        ensures
            final(self).spec_data() == old(self).spec_data(),
            r is Err ==> final(self).spec_offset() == old(self).spec_offset(),
            match r {
                Ok(v) => le_int_at(old(self).spec_data(), old(self).spec_offset(), 1) == Some(
                    v as int,
                ) && final(self).spec_offset() == old(self).spec_offset() + 1,
                Err(e) => le_int_at(old(self).spec_data(), old(self).spec_offset(), 1) is None
                    && e.kind == ErrorKind::Codec,
            },
    {
        match le_read_i8(self.remaining()) {
            Some(v) => {
                proof {
                    self.lemma_remaining_prefix(1);
                }
                self.advance(1);
                Ok(v)
            },
            None => LqError::err_new(ErrorKind::Codec, "End of reader"),
        }
    }

    /// The two bytes at the cursor as a little-endian two's complement `i16`.
    pub fn read_i16(&mut self) -> (r: Result<i16, LqError>)
        ensures
            final(self).spec_data() == old(self).spec_data(),
            r is Err ==> final(self).spec_offset() == old(self).spec_offset(),
            match r {
                Ok(v) => le_int_at(old(self).spec_data(), old(self).spec_offset(), 2) == Some(
                    v as int,
                ) && final(self).spec_offset() == old(self).spec_offset() + 2,
                Err(e) => le_int_at(old(self).spec_data(), old(self).spec_offset(), 2) is None
                    && e.kind == ErrorKind::Codec,
            },
    {
        match le_read_i16(self.remaining()) {
            Some(v) => {
                proof {
                    self.lemma_remaining_prefix(2);
                }
                self.advance(2);
                Ok(v)
            },
            None => LqError::err_new(ErrorKind::Codec, "End of reader"),
        }
    }

    /// The four bytes at the cursor as a little-endian two's complement `i32`.
    pub fn read_i32(&mut self) -> (r: Result<i32, LqError>)
        ensures
            final(self).spec_data() == old(self).spec_data(),
            r is Err ==> final(self).spec_offset() == old(self).spec_offset(),
            match r {
                Ok(v) => le_int_at(old(self).spec_data(), old(self).spec_offset(), 4) == Some(
                    v as int,
                ) && final(self).spec_offset() == old(self).spec_offset() + 4,
                Err(e) => le_int_at(old(self).spec_data(), old(self).spec_offset(), 4) is None
                    && e.kind == ErrorKind::Codec,
            },
    {
        match le_read_i32(self.remaining()) {
            Some(v) => {
                proof {
                    self.lemma_remaining_prefix(4);
                }
                self.advance(4);
                Ok(v)
            },
            None => LqError::err_new(ErrorKind::Codec, "End of reader"),
        }
    }

    /// The eight bytes at the cursor as a little-endian two's complement `i64`.
    pub fn read_i64(&mut self) -> (r: Result<i64, LqError>)
        ensures
            final(self).spec_data() == old(self).spec_data(),
            r is Err ==> final(self).spec_offset() == old(self).spec_offset(),
            match r {
                Ok(v) => le_int_at(old(self).spec_data(), old(self).spec_offset(), 8) == Some(
                    v as int,
                ) && final(self).spec_offset() == old(self).spec_offset() + 8,
                Err(e) => le_int_at(old(self).spec_data(), old(self).spec_offset(), 8) is None
                    && e.kind == ErrorKind::Codec,
            },
    {
        match le_read_i64(self.remaining()) {
            Some(v) => {
                proof {
                    self.lemma_remaining_prefix(8);
                }
                self.advance(8);
                Ok(v)
            },
            None => LqError::err_new(ErrorKind::Codec, "End of reader"),
        }
    }

    /// The sixteen bytes at the cursor as a little-endian two's complement
    /// `i128`.
    pub fn read_i128(&mut self) -> (r: Result<i128, LqError>)
        ensures
            final(self).spec_data() == old(self).spec_data(),
            r is Err ==> final(self).spec_offset() == old(self).spec_offset(),
            match r {
                Ok(v) => le_int_at(old(self).spec_data(), old(self).spec_offset(), 16) == Some(
                    v as int,
                ) && final(self).spec_offset() == old(self).spec_offset() + 16,
                Err(e) => le_int_at(old(self).spec_data(), old(self).spec_offset(), 16) is None
                    && e.kind == ErrorKind::Codec,
            },
    {
        match le_read_i128(self.remaining()) {
            Some(v) => {
                proof {
                    self.lemma_remaining_prefix(16);
                }
                self.advance(16);
                Ok(v)
            },
            None => LqError::err_new(ErrorKind::Codec, "End of reader"),
        }
    }

    /// Reads the content description that follows the given header byte.
    /// A description that the writer would have laid out otherwise is
    /// rejected, and so is the reserved content info.
    pub fn read_content_description_given_header_byte(&mut self, header: HeaderByte) -> (r: Result<
        ContentDescription,
        LqError,
    >)
        ensures
            final(self).spec_data() == old(self).spec_data(),
            old(self).spec_offset() <= final(self).spec_offset(),
            match r {
                Ok(d) => descriptor_after(header, old(self).spec_data(), old(self).spec_offset())
                    == Some((d, final(self).spec_offset())),
                Err(e) => descriptor_after(header, old(self).spec_data(), old(self).spec_offset())
                    is None && e.kind == ErrorKind::Codec,
            },
    {
        proof {
            reveal(descriptor_after);
        }
        if self.offset > self.data.len() {
            return LqError::err_new(ErrorKind::Codec, "End of reader");
        }
        let info = header.content_info();
        let description = match info {
            ContentInfo::Len0 => ContentDescription { number_of_embedded_items: 0, self_length: 0 },
            ContentInfo::Len1 => ContentDescription { number_of_embedded_items: 0, self_length: 1 },
            ContentInfo::Len2 => ContentDescription { number_of_embedded_items: 0, self_length: 2 },
            ContentInfo::Len4 => ContentDescription { number_of_embedded_items: 0, self_length: 4 },
            ContentInfo::Len8 => ContentDescription { number_of_embedded_items: 0, self_length: 8 },
            ContentInfo::Len16 => ContentDescription {
                number_of_embedded_items: 0,
                self_length: 16,
            },
            ContentInfo::VarInt => {
                let self_length = self.read_varint_u64()?;
                ContentDescription { number_of_embedded_items: 0, self_length }
            },
            ContentInfo::ContainerVarIntVarInt => {
                let number_of_embedded_values = self.read_varint_u32()?;
                let self_length = self.read_varint_u64()?;
                ContentDescription { number_of_embedded_items: number_of_embedded_values, self_length }
            },
            ContentInfo::ContainerOneEmpty => ContentDescription {
                number_of_embedded_items: 1,
                self_length: 0,
            },
            ContentInfo::ContainerOneOne => ContentDescription {
                number_of_embedded_items: 1,
                self_length: 1,
            },
            ContentInfo::ContainerTwoEmpty => ContentDescription {
                number_of_embedded_items: 2,
                self_length: 0,
            },
            ContentInfo::ContainerVarIntEmpty => {
                let number_of_embedded_values = self.read_varint_u32()?;
                ContentDescription {
                    number_of_embedded_items: number_of_embedded_values,
                    self_length: 0,
                }
            },
            ContentInfo::Reserved => {
                return LqError::err_new(
                    ErrorKind::Codec,
                    "Cannot decode content description: Got the reserved content info (must not be found; this is reserved for future extensions).",
                );
            },
        };
        if description.content_info() != info {
            return LqError::err_new(
                ErrorKind::Codec,
                "Content description is not canonical: a more compact content info must be used.",
            );
        }
        Ok(description)
    }

    /// Reads the header byte and the content description of the value at the
    /// cursor.
    pub fn read_header(&mut self) -> (r: Result<(MajorType, ContentDescription), LqError>)
        ensures
            final(self).spec_data() == old(self).spec_data(),
            old(self).spec_offset() <= final(self).spec_offset(),
            match r {
                Ok((m, d)) => descriptor_at(old(self).spec_data(), old(self).spec_offset())
                    == Some((m, d, final(self).spec_offset())),
                Err(e) => descriptor_at(old(self).spec_data(), old(self).spec_offset()) is None
                    && e.kind == ErrorKind::Codec,
            },
    {
        proof {
            reveal(descriptor_at);
        }
        let type_header = self.read_header_byte()?;
        let description = self.read_content_description_given_header_byte(type_header)?;
        Ok((type_header.major_type(), description))
    }

    /// Reads the content description of the value at the cursor.
    pub fn read_content_description(&mut self) -> (r: Result<ContentDescription, LqError>)
        ensures
            final(self).spec_data() == old(self).spec_data(),
            old(self).spec_offset() <= final(self).spec_offset(),
            match r {
                Ok(d) => descriptor_at(old(self).spec_data(), old(self).spec_offset())
                    matches Some((_, dd, p)) && dd == d && p == final(self).spec_offset(),
                Err(e) => descriptor_at(old(self).spec_data(), old(self).spec_offset()) is None
                    && e.kind == ErrorKind::Codec,
            },
    {
        proof {
            reveal(descriptor_at);
        }
        let type_header = self.read_header_byte()?;
        self.read_content_description_given_header_byte(type_header)
    }

    /// Reads the header of the value at the cursor and makes sure that it
    /// has the given self length and number of embedded values.
    pub fn read_expect_content_description(
        &mut self,
        self_len: u64,
        number_of_embedded_values: u32,
    ) -> (r: Result<MajorType, LqError>)
        ensures
            final(self).spec_data() == old(self).spec_data(),
            old(self).spec_offset() <= final(self).spec_offset(),
            match r {
                Ok(m) => descriptor_at(old(self).spec_data(), old(self).spec_offset()) == Some(
                    (
                        m,
                        ContentDescription {
                            number_of_embedded_items: number_of_embedded_values,
                            self_length: self_len,
                        },
                        final(self).spec_offset(),
                    ),
                ),
                Err(e) => e.kind == ErrorKind::Codec && !(descriptor_at(
                    old(self).spec_data(),
                    old(self).spec_offset(),
                ) matches Some((_, d, _)) && d == (ContentDescription {
                    number_of_embedded_items: number_of_embedded_values,
                    self_length: self_len,
                })),
            },
    {
        let (major_type, content_description) = self.read_header()?;
        if content_description.number_of_embedded_items != number_of_embedded_values {
            return LqError::err_new(
                ErrorKind::Codec,
                "Unexpected number of embedded values for this type.",
            );
        }
        if content_description.self_length != self_len {
            return LqError::err_new(ErrorKind::Codec, "Unexpected length in bytes for this type.");
        }
        Ok(major_type)
    }

    /// Reads the outer layer of the value at the cursor: its major type,
    /// the number of values embedded in it, and its own bytes. The cursor
    /// moves to the first embedded value.
    pub fn read_node(&mut self) -> (r: Result<(MajorType, u32, &'a [u8]), LqError>)
        ensures
            final(self).spec_data() == old(self).spec_data(),
            old(self).spec_offset() <= final(self).spec_offset(),
            match r {
                Ok((major, items, body)) => node_at(old(self).spec_data(), old(self).spec_offset())
                    == Some((Node { major, items, body: body@ }, final(self).spec_offset())),
                Err(e) => node_at(old(self).spec_data(), old(self).spec_offset()) is None
                    && e.kind == ErrorKind::Codec,
            },
    {
        let ghost start = self.spec_offset();
        let (major, description) = self.read_header()?;
        let data_len = self.data.len();
        if description.self_length > data_len as u64 {
            proof {
                lemma_descriptor_at(self.spec_data(), start);
            }
            return LqError::err_new(ErrorKind::Codec, "End of reader");
        }
        let body = self.read_slice(description.self_length as usize)?;
        Ok((major, description.number_of_embedded_items, body))
    }

    /// Skips the given number of bytes.
    pub fn skip_bytes(&mut self, number_of_bytes: usize) -> (r: Result<(), LqError>)
        ensures
            final(self).spec_data() == old(self).spec_data(),
            r is Err ==> final(self).spec_offset() == old(self).spec_offset(),
            match r {
                Ok(_) => bytes_at(
                    old(self).spec_data(),
                    old(self).spec_offset(),
                    number_of_bytes as int,
                ) is Some && final(self).spec_offset() == old(self).spec_offset()
                    + number_of_bytes,
                Err(e) => bytes_at(
                    old(self).spec_data(),
                    old(self).spec_offset(),
                    number_of_bytes as int,
                ) is None && e.kind == ErrorKind::Codec,
            },
    {
        let data_len = self.data.len();
        if self.offset > data_len || number_of_bytes > data_len - self.offset {
            LqError::err_new(ErrorKind::Codec, "End of reader")
        } else {
            self.offset += number_of_bytes;
            Ok(())
        }
    }

    /// Skips the given number of bytes.
    pub fn skip_bytes_u64(&mut self, number_of_bytes: u64) -> (r: Result<(), LqError>)
        ensures
            final(self).spec_data() == old(self).spec_data(),
            r is Err ==> final(self).spec_offset() == old(self).spec_offset(),
            match r {
                Ok(_) => bytes_at(
                    old(self).spec_data(),
                    old(self).spec_offset(),
                    number_of_bytes as int,
                ) is Some && final(self).spec_offset() == old(self).spec_offset()
                    + number_of_bytes,
                Err(e) => bytes_at(
                    old(self).spec_data(),
                    old(self).spec_offset(),
                    number_of_bytes as int,
                ) is None && e.kind == ErrorKind::Codec,
            },
    {
        let data_len = self.data.len();
        if self.offset > data_len || number_of_bytes > (data_len - self.offset) as u64 {
            LqError::err_new(ErrorKind::Codec, "End of reader")
        } else {
            self.offset += number_of_bytes as usize;
            Ok(())
        }
    }

    /// Skips a value and all values embedded in it. No schema is needed.
    pub fn skip(&mut self) -> (r: Result<(), LqError>)
        ensures
            final(self).spec_data() == old(self).spec_data(),
            old(self).spec_offset() <= final(self).spec_offset(),
            match r {
                Ok(_) => value_end(old(self).spec_data(), old(self).spec_offset()) == Some(
                    final(self).spec_offset(),
                ),
                Err(e) => value_end(old(self).spec_data(), old(self).spec_offset()) is None
                    && e.kind == ErrorKind::Codec,
            },
        decreases old(self).spec_data().len() - old(self).spec_offset(),
    {
        let ghost data = self.spec_data();
        let ghost start = self.spec_offset();
        let (_, content_description) = self.read_header()?;
        proof {
            lemma_descriptor_at(data, start);
        }
        // first skip "myself"
        self.skip_bytes_u64(content_description.self_length)?;
        // then skip all embedded values
        let ghost first = self.spec_offset();
        let number_of_embedded_values = content_description.number_of_embedded_items;
        let mut index: u32 = 0;
        while index < number_of_embedded_values
            invariant
                self.spec_data() == data,
                data == old(self).spec_data(),
                start == old(self).spec_offset(),
                start < first <= self.spec_offset() <= data.len(),
                index <= number_of_embedded_values,
                values_end(data, first, index as nat) == Some(self.spec_offset()),
                value_end(data, start) == values_end(data, first, number_of_embedded_values as nat),
            decreases number_of_embedded_values - index,
        {
            let ghost here = self.spec_offset();
            proof {
                lemma_values_end_split(
                    data,
                    first,
                    index as nat,
                    (number_of_embedded_values - index) as nat,
                );
                lemma_values_end_extend(data, first, index as nat);
            }
            self.skip()?;
            proof {
                lemma_value_end_bounds(data, here);
            }
            index += 1;
        }
        Ok(())
    }

    /// Same as `skip` but can skip multiple values.
    pub fn skip_n_values(&mut self, number_of_values: usize) -> (r: Result<(), LqError>)
        ensures
            final(self).spec_data() == old(self).spec_data(),
            old(self).spec_offset() <= final(self).spec_offset(),
            match r {
                Ok(_) => values_end(
                    old(self).spec_data(),
                    old(self).spec_offset(),
                    number_of_values as nat,
                ) == Some(final(self).spec_offset()),
                Err(e) => values_end(
                    old(self).spec_data(),
                    old(self).spec_offset(),
                    number_of_values as nat,
                ) is None && e.kind == ErrorKind::Codec,
            },
    {
        if self.offset > self.data.len() {
            return if number_of_values == 0 {
                Ok(())
            } else {
                LqError::err_new(ErrorKind::Codec, "End of reader")
            };
        }
        let ghost data = self.spec_data();
        let ghost first = self.spec_offset();
        let mut index: usize = 0;
        while index < number_of_values
            invariant
                self.spec_data() == data,
                data == old(self).spec_data(),
                first == old(self).spec_offset(),
                first <= self.spec_offset() <= data.len(),
                index <= number_of_values,
                values_end(data, first, index as nat) == Some(self.spec_offset()),
            decreases number_of_values - index,
        {
            let ghost here = self.spec_offset();
            proof {
                lemma_values_end_split(data, first, index as nat, (number_of_values - index) as nat);
                lemma_values_end_extend(data, first, index as nat);
            }
            self.skip()?;
            proof {
                lemma_value_end_bounds(data, here);
            }
            index += 1;
        }
        Ok(())
    }

    /// Same as `skip` but can skip multiple values.
    pub fn skip_n_values_u32(&mut self, number_of_values: u32) -> (r: Result<(), LqError>)
        ensures
            final(self).spec_data() == old(self).spec_data(),
            old(self).spec_offset() <= final(self).spec_offset(),
            match r {
                Ok(_) => values_end(
                    old(self).spec_data(),
                    old(self).spec_offset(),
                    number_of_values as nat,
                ) == Some(final(self).spec_offset()),
                Err(e) => values_end(
                    old(self).spec_data(),
                    old(self).spec_offset(),
                    number_of_values as nat,
                ) is None && e.kind == ErrorKind::Codec,
            },
    {
        self.skip_n_values(number_of_values as usize)
    }

    /// The first `n` of the remaining bytes are the `n` bytes at the cursor.
    proof fn lemma_remaining_prefix(&self, n: int)
        requires
            0 <= n,
        ensures
            self.spec_offset() <= self.spec_data().len() && self.spec_offset() + n
                <= self.spec_data().len() ==> self.spec_data().subrange(
                self.spec_offset(),
                self.spec_data().len() as int,
            ).subrange(0, n) == self.spec_data().subrange(
                self.spec_offset(),
                self.spec_offset() + n,
            ),
    {
        if self.spec_offset() + n <= self.spec_data().len() {
            assert(self.spec_data().subrange(
                self.spec_offset(),
                self.spec_data().len() as int,
            ).subrange(0, n) =~= self.spec_data().subrange(
                self.spec_offset(),
                self.spec_offset() + n,
            ));
        }
    }
}

} // verus!
