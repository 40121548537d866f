//! The header of a sequence: major type 3 and the number of elements, which
//! follow as embedded values.

use crate::error::{ErrorKind, LqError};
use crate::major_types::TYPE_SEQ;
use crate::slice_reader::SliceReader;
use crate::vec_writer::VecWriter;
use crate::wire::{
    lemma_node_at, lemma_node_at_of_bytes, node_at, node_bytes, value_end, values_end,
    ContentDescription, MajorType, Node,
};
use vstd::prelude::*;

verus! {

/// The header of a sequence: how many elements follow.
#[derive(Debug, Copy, Clone, PartialEq, Eq, Structural)]
pub struct SeqHeader {
    pub length: u32,
}

/// The node that stands for the header of a sequence of `length` elements.
pub open spec fn seq_header_node(length: u32) -> Node {
    Node { major: MajorType(TYPE_SEQ), items: length, body: Seq::empty() }
}

/// The bytes of the header of a sequence of `length` elements.
pub open spec fn seq_header_bytes(length: u32) -> Seq<u8> {
    node_bytes(seq_header_node(length))
}

/// The number of elements that the sequence header at `pos` announces, and
/// the position behind the header, where the first element starts.
pub open spec fn seq_header_at(data: Seq<u8>, pos: int) -> Option<(u32, int)> {
    match node_at(data, pos) {
        Some((n, e)) => if n == seq_header_node(n.items) {
            Some((n.items, e))
        } else {
            None
        },
        None => None,
    }
}

/// A sequence header that is read has the bytes that writing it gives, and
/// the sequence that it opens ends behind its last element.
pub proof fn lemma_seq_header_at(data: Seq<u8>, pos: int)
    requires
        seq_header_at(data, pos) is Some,
    ensures
        ({
            let (length, e) = seq_header_at(data, pos).unwrap();
            &&& pos < e <= data.len()
            &&& data.subrange(pos, e) == seq_header_bytes(length)
            &&& value_end(data, pos) == values_end(data, e, length as nat)
        }),
{
    lemma_node_at(data, pos);
    let (n, e) = node_at(data, pos).unwrap();
    assert(n.body =~= Seq::<u8>::empty());
}

/// Where the data holds the bytes of a sequence header, reading gives it
/// back.
pub proof fn lemma_seq_header_at_of_bytes(data: Seq<u8>, pos: int, length: u32)
    requires
        0 <= pos,
        pos + seq_header_bytes(length).len() <= data.len(),
        data.subrange(pos, pos + seq_header_bytes(length).len()) == seq_header_bytes(length),
    ensures
        seq_header_at(data, pos) == Some((length, pos + seq_header_bytes(length).len())),
{
    lemma_node_at_of_bytes(data, pos, seq_header_node(length));
}

impl SeqHeader {
    /// The header of a sequence of `length` elements.
    pub fn new(length: u32) -> (h: Self)
        ensures
            h.length == length,
    {
        SeqHeader { length }
    }

    /// The number of elements.
    pub fn length(&self) -> (l: u32)
        ensures
            l == self.length,
    {
        self.length
    }

    /// Reads a sequence header.
    pub fn de_serialize(reader: &mut SliceReader) -> (r: Result<SeqHeader, LqError>)
        ensures
            final(reader).spec_data() == old(reader).spec_data(),
            match r {
                Ok(h) => seq_header_at(old(reader).spec_data(), old(reader).spec_offset())
                    == Some((h.length, final(reader).spec_offset())),
                Err(e) => seq_header_at(old(reader).spec_data(), old(reader).spec_offset())
                    is None && e.kind == ErrorKind::Codec,
            },
    {
        let (major, items, body) = reader.read_node()?;
        if major.id() != TYPE_SEQ {
            return LqError::err_new(ErrorKind::Codec, "Type is not a sequence.");
        }
        if body.len() != 0 {
            return LqError::err_new(ErrorKind::Codec, "Invalid length for the sequence type.");
        }
        proof {
            assert(body@ =~= Seq::<u8>::empty());
        }
        Ok(SeqHeader { length: items })
    }

    /// Writes a sequence header.
    pub fn serialize(writer: &mut VecWriter, item: &SeqHeader)
        ensures
            final(writer)@ == old(writer)@ + seq_header_bytes(item.length),
    {
        let ghost before = writer@;
        let r = writer.write_content_description(
            MajorType::new(TYPE_SEQ),
            &ContentDescription::new_number_of_embedded_values(item.length),
        );
        proof {
            assert(r is Ok);
            assert(writer@ =~= before + seq_header_bytes(item.length));
        }
    }
}

} // verus!
