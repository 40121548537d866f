//! Reading a structure value by value: a structure is a sequence, and a
//! reader may want fewer values than the writer wrote.

use crate::error::{ErrorKind, LqError};
use crate::slice_reader::SliceReader;
use crate::types::seq::{seq_header_at, seq_header_bytes, SeqHeader};
use crate::vec_writer::VecWriter;
use crate::wire::values_end;
use vstd::prelude::*;

verus! {

/// What the header of a structure tells: the number of its fields.
#[derive(Debug, Copy, Clone, PartialEq, Eq, Structural)]
pub struct StructInfo {
    number_of_fields: usize,
}

/// A structure that is being read: the number of fields that it has and
/// the number that the reader wants.
#[derive(Debug, Copy, Clone, PartialEq, Eq, Structural)]
pub struct StructRead {
    actual_number_of_fields: usize,
    wanted_number_of_fields: usize,
}

impl StructInfo {
    /// The number of fields.
    pub closed spec fn spec_number_of_fields(&self) -> nat {
        self.number_of_fields as nat
    }

    /// A structure with the given number of fields.
    pub fn new(number_of_fields: usize) -> (s: Self)
        ensures
            s.spec_number_of_fields() == number_of_fields,
    {
        StructInfo { number_of_fields }
    }

    /// The number of fields.
    pub fn number_of_fields(&self) -> (n: usize)
        ensures
            n == self.spec_number_of_fields(),
    {
        self.number_of_fields
    }

    /// Begins to read the first `wanted_number_of_fields` fields; an error
    /// where the structure has fewer.
    pub fn begin_reading(&self, wanted_number_of_fields: usize) -> (r: Result<StructRead, LqError>)
        ensures
            match r {
                Ok(read) => wanted_number_of_fields <= self.spec_number_of_fields()
                    && read.spec_surplus() == self.spec_number_of_fields()
                    - wanted_number_of_fields,
                Err(e) => wanted_number_of_fields > self.spec_number_of_fields() && e.kind
                    == ErrorKind::Schema,
            },
    {
        if self.number_of_fields < wanted_number_of_fields {
            LqError::err_new(
                ErrorKind::Schema,
                "Expecting to have a struct with more fields than it has.",
            )
        } else {
            Ok(
                StructRead {
                    actual_number_of_fields: self.number_of_fields,
                    wanted_number_of_fields,
                },
            )
        }
    }

    /// Reads the header of a structure.
    pub fn de_serialize(reader: &mut SliceReader) -> (r: Result<StructInfo, LqError>)
        ensures
            final(reader).spec_data() == old(reader).spec_data(),
            match r {
                Ok(info) => seq_header_at(old(reader).spec_data(), old(reader).spec_offset())
                    == Some(
                    (info.spec_number_of_fields() as u32, final(reader).spec_offset()),
                ) && info.spec_number_of_fields() <= u32::MAX,
                Err(e) => seq_header_at(old(reader).spec_data(), old(reader).spec_offset())
                    is None && e.kind == ErrorKind::Codec,
            },
    {
        let header = SeqHeader::de_serialize(reader)?;
        Ok(StructInfo { number_of_fields: header.length() as usize })
    }

    /// Writes the header of a structure; an error, and nothing written,
    /// where it has more than `u32::MAX` fields.
    pub fn serialize(writer: &mut VecWriter, item: &StructInfo) -> (r: Result<(), LqError>)
        ensures
            match r {
                Ok(_) => item.spec_number_of_fields() <= u32::MAX && final(writer)@ == old(
                    writer,
                )@ + seq_header_bytes(item.spec_number_of_fields() as u32),
                Err(e) => item.spec_number_of_fields() > u32::MAX && final(writer)@ == old(
                    writer,
                )@ && e.kind == ErrorKind::Codec,
            },
    {
        if item.number_of_fields > u32::MAX as usize {
            return LqError::err_new(ErrorKind::Codec, "Structure can contain at max 2^32-1 fields.");
        }
        SeqHeader::serialize(writer, &SeqHeader::new(item.number_of_fields as u32));
        Ok(())
    }
}

impl StructRead {
    /// The number of fields that the reader does not want.
    pub closed spec fn spec_surplus(&self) -> int {
        self.actual_number_of_fields - self.wanted_number_of_fields
    }

    /// Ends the reading: skips the fields that the reader did not want.
    pub fn finish(self, reader: &mut SliceReader) -> (r: Result<(), LqError>)
        requires
            self.spec_surplus() >= 0,
        ensures
            final(reader).spec_data() == old(reader).spec_data(),
            match r {
                Ok(_) => values_end(
                    old(reader).spec_data(),
                    old(reader).spec_offset(),
                    self.spec_surplus() as nat,
                ) == Some(final(reader).spec_offset()),
                Err(e) => values_end(
                    old(reader).spec_data(),
                    old(reader).spec_offset(),
                    self.spec_surplus() as nat,
                ) is None && e.kind == ErrorKind::Codec,
            },
    {
        let fields_to_skip = self.actual_number_of_fields - self.wanted_number_of_fields;
        reader.skip_n_values(fields_to_skip)
    }
}

} // verus!
