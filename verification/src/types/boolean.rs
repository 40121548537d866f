//! Booleans: a header byte with major type 0 (false) or 1 (true) and nothing else.

use crate::error::{ErrorKind, LqError};
use crate::major_types::{TYPE_BOOL_FALSE, TYPE_BOOL_TRUE};
use crate::slice_reader::SliceReader;
use crate::vec_writer::VecWriter;
use crate::wire::{
    lemma_node_at, lemma_node_at_of_bytes, node_at, node_bytes, value_end, ContentDescription,
    MajorType, Node,
};
use vstd::prelude::*;

verus! {

/// Reads and writes booleans.
pub struct Bool;

/// The node that stands for a boolean.
pub open spec fn bool_node(v: bool) -> Node {
    Node {
        major: MajorType(
            if v {
                TYPE_BOOL_TRUE
            } else {
                TYPE_BOOL_FALSE
            },
        ),
        items: 0,
        body: Seq::empty(),
    }
}

/// The bytes of a boolean.
pub open spec fn bool_bytes(v: bool) -> Seq<u8> {
    node_bytes(bool_node(v))
}

/// The boolean at `pos` and the position behind it.
pub open spec fn bool_at(data: Seq<u8>, pos: int) -> Option<(bool, int)> {
    match node_at(data, pos) {
        Some((n, e)) => if n == bool_node(false) {
            Some((false, e))
        } else if n == bool_node(true) {
            Some((true, e))
        } else {
            None
        },
        None => None,
    }
}

/// A boolean that is read is one whole wire value, and its bytes are those
/// that writing it gives.
pub proof fn lemma_bool_at(data: Seq<u8>, pos: int)
    requires
        bool_at(data, pos) is Some,
    ensures
        ({
            let (v, e) = bool_at(data, pos).unwrap();
            &&& value_end(data, pos) == Some(e)
            &&& pos < e <= data.len()
            &&& data.subrange(pos, e) == bool_bytes(v)
        }),
{
    lemma_node_at(data, pos);
    let (n, e) = node_at(data, pos).unwrap();
    assert(n.body =~= Seq::<u8>::empty());
}

/// Where the data holds the bytes of a boolean, reading gives it back.
pub proof fn lemma_bool_at_of_bytes(data: Seq<u8>, pos: int, v: bool)
    requires
        0 <= pos,
        pos + bool_bytes(v).len() <= data.len(),
        data.subrange(pos, pos + bool_bytes(v).len()) == bool_bytes(v),
    ensures
        bool_at(data, pos) == Some((v, pos + bool_bytes(v).len())),
{
    lemma_node_at_of_bytes(data, pos, bool_node(v));
}

impl Bool {
    /// Reads a boolean.
    pub fn de_serialize(reader: &mut SliceReader) -> (r: Result<bool, LqError>)
        ensures
            final(reader).spec_data() == old(reader).spec_data(),
            match r {
                Ok(v) => bool_at(old(reader).spec_data(), old(reader).spec_offset()) == Some(
                    (v, final(reader).spec_offset()),
                ),
                Err(e) => bool_at(old(reader).spec_data(), old(reader).spec_offset()) is None
                    && e.kind == ErrorKind::Codec,
            },
    {
        let (major, items, body) = reader.read_node()?;
        if items != 0 || body.len() != 0 {
            return LqError::err_new(ErrorKind::Codec, "Invalid content description for a boolean.");
        }
        proof {
            assert(body@ =~= Seq::<u8>::empty());
        }
        if major.id() == TYPE_BOOL_TRUE {
            Ok(true)
        } else if major.id() == TYPE_BOOL_FALSE {
            Ok(false)
        } else {
            LqError::err_new(ErrorKind::Codec, "Type is not a boolean.")
        }
    }

    /// Writes a boolean.
    pub fn serialize(writer: &mut VecWriter, item: &bool)
        ensures
            final(writer)@ == old(writer)@ + bool_bytes(*item),
    {
        let major = if *item {
            MajorType::new(TYPE_BOOL_TRUE)
        } else {
            MajorType::new(TYPE_BOOL_FALSE)
        };
        let ghost before = writer@;
        let r = writer.write_content_description(major, &ContentDescription::new_self_length(0));
        proof {
            assert(r is Ok);
            assert(writer@ =~= before + bool_bytes(*item));
        }
    }
}

} // verus!
