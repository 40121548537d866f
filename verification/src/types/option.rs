//! The presence marker of an option: major type 2; absent has nothing else,
//! present has one embedded value, which follows.

use crate::error::{ErrorKind, LqError};
use crate::major_types::TYPE_OPTION;
use crate::slice_reader::SliceReader;
use crate::vec_writer::VecWriter;
use crate::wire::{
    lemma_node_at, lemma_node_at_of_bytes, node_at, node_bytes, value_end, values_end,
    ContentDescription, MajorType, Node,
};
use vstd::prelude::*;

verus! {

/// Whether the value of an option is there.
#[derive(Debug, Copy, Clone, PartialEq, Eq, Structural)]
pub enum Presence {
    Present,
    Absent,
}

/// The node that stands for a presence marker.
pub open spec fn presence_node(p: Presence) -> Node {
    Node {
        major: MajorType(TYPE_OPTION),
        items: if p == Presence::Present {
            1
        } else {
            0
        },
        body: Seq::empty(),
    }
}

/// The bytes of a presence marker.
pub open spec fn presence_bytes(p: Presence) -> Seq<u8> {
    node_bytes(presence_node(p))
}

/// The presence marker at `pos` and the position behind it, where the value
/// of a present option starts.
pub open spec fn presence_at(data: Seq<u8>, pos: int) -> Option<(Presence, int)> {
    match node_at(data, pos) {
        Some((n, e)) => if n == presence_node(Presence::Absent) {
            Some((Presence::Absent, e))
        } else if n == presence_node(Presence::Present) {
            Some((Presence::Present, e))
        } else {
            None
        },
        None => None,
    }
}

/// A presence marker that is read has the bytes that writing it gives, and
/// the option that it opens ends behind the marker (absent) or behind the
/// one value that follows (present).
pub proof fn lemma_presence_at(data: Seq<u8>, pos: int)
    requires
        presence_at(data, pos) is Some,
    ensures
        ({
            let (p, e) = presence_at(data, pos).unwrap();
            &&& pos < e <= data.len()
            &&& data.subrange(pos, e) == presence_bytes(p)
            &&& p == Presence::Absent ==> value_end(data, pos) == Some(e)
            &&& p == Presence::Present ==> value_end(data, pos) == values_end(data, e, 1)
        }),
{
    lemma_node_at(data, pos);
    let (n, e) = node_at(data, pos).unwrap();
    assert(n.body =~= Seq::<u8>::empty());
}

/// Where the data holds the bytes of a presence marker, reading gives it
/// back.
pub proof fn lemma_presence_at_of_bytes(data: Seq<u8>, pos: int, p: Presence)
    requires
        0 <= pos,
        pos + presence_bytes(p).len() <= data.len(),
        data.subrange(pos, pos + presence_bytes(p).len()) == presence_bytes(p),
    ensures
        presence_at(data, pos) == Some((p, pos + presence_bytes(p).len())),
{
    lemma_node_at_of_bytes(data, pos, presence_node(p));
}

impl Presence {
    /// Reads a presence marker.
    pub fn de_serialize(reader: &mut SliceReader) -> (r: Result<Presence, LqError>)
        ensures
            final(reader).spec_data() == old(reader).spec_data(),
            match r {
                Ok(v) => presence_at(old(reader).spec_data(), old(reader).spec_offset())
                    == Some((v, final(reader).spec_offset())),
                Err(e) => presence_at(old(reader).spec_data(), old(reader).spec_offset())
                    is None && e.kind == ErrorKind::Codec,
            },
    {
        let (major, items, body) = reader.read_node()?;
        if major.id() != TYPE_OPTION {
            return LqError::err_new(ErrorKind::Codec, "Type is not an option.");
        }
        if body.len() != 0 {
            return LqError::err_new(ErrorKind::Codec, "Invalid length for the option type.");
        }
        proof {
            assert(body@ =~= Seq::<u8>::empty());
        }
        if items == 0 {
            Ok(Presence::Absent)
        } else if items == 1 {
            Ok(Presence::Present)
        } else {
            LqError::err_new(
                ErrorKind::Codec,
                "Invalid number of embedded values for the option type (must be 0 or 1).",
            )
        }
    }

    /// Writes a presence marker.
    pub fn serialize(writer: &mut VecWriter, item: &Presence)
        ensures
            final(writer)@ == old(writer)@ + presence_bytes(*item),
    {
        let items: u32 = match item {
            Presence::Present => 1,
            Presence::Absent => 0,
        };
        let ghost before = writer@;
        let r = writer.write_content_description(
            MajorType::new(TYPE_OPTION),
            &ContentDescription::new_number_of_embedded_values(items),
        );
        proof {
            assert(r is Ok);
            assert(writer@ =~= before + presence_bytes(*item));
        }
    }
}

} // verus!
