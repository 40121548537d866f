//! Binary data: major type 4, the bytes are the value's own bytes.

use crate::error::{ErrorKind, LqError};
use crate::major_types::TYPE_BINARY;
use crate::slice_reader::SliceReader;
use crate::vec_writer::VecWriter;
use crate::wire::{
    lemma_node_at, lemma_node_at_of_bytes, node_at, node_bytes, value_end, ContentDescription,
    MajorType, Node,
};
use vstd::prelude::*;

verus! {

/// Reads and writes binary data.
pub struct Binary;

/// The node of a leaf value: no embedded values, the given major type and
/// bytes.
pub open spec fn leaf_node(major: u8, body: Seq<u8>) -> Node {
    Node { major: MajorType(major), items: 0, body }
}

/// The bytes of a leaf value.
pub open spec fn leaf_bytes(major: u8, body: Seq<u8>) -> Seq<u8> {
    node_bytes(leaf_node(major, body))
}

/// The own bytes of the leaf value with the given major type at `pos`, and
/// the position behind the value.
pub open spec fn leaf_at(major: u8, data: Seq<u8>, pos: int) -> Option<(Seq<u8>, int)> {
    match node_at(data, pos) {
        Some((n, e)) => if n == leaf_node(major, n.body) {
            Some((n.body, e))
        } else {
            None
        },
        None => None,
    }
}

/// The bytes of binary data.
pub open spec fn binary_bytes(v: Seq<u8>) -> Seq<u8> {
    leaf_bytes(TYPE_BINARY, v)
}

/// The binary data at `pos` and the position behind it.
pub open spec fn binary_at(data: Seq<u8>, pos: int) -> Option<(Seq<u8>, int)> {
    leaf_at(TYPE_BINARY, data, pos)
}

/// A leaf that is read is one whole wire value, and its bytes are those that
/// writing it gives.
pub proof fn lemma_leaf_at(major: u8, data: Seq<u8>, pos: int)
    requires
        leaf_at(major, data, pos) is Some,
    ensures
        ({
            let (body, e) = leaf_at(major, data, pos).unwrap();
            &&& value_end(data, pos) == Some(e)
            &&& pos < e <= data.len()
            &&& body.len() <= u64::MAX
            &&& data.subrange(pos, e) == leaf_bytes(major, body)
        }),
{
    lemma_node_at(data, pos);
}

/// Where the data holds the bytes of a leaf, reading gives its own bytes
/// back.
pub proof fn lemma_leaf_at_of_bytes(major: u8, data: Seq<u8>, pos: int, body: Seq<u8>)
    requires
        major <= 18,
        body.len() <= u64::MAX,
        0 <= pos,
        pos + leaf_bytes(major, body).len() <= data.len(),
        data.subrange(pos, pos + leaf_bytes(major, body).len()) == leaf_bytes(major, body),
    ensures
        leaf_at(major, data, pos) == Some((body, pos + leaf_bytes(major, body).len())),
{
    lemma_node_at_of_bytes(data, pos, leaf_node(major, body));
}

/// Reads the leaf value with the given major type at the cursor.
pub fn read_leaf<'a>(reader: &mut SliceReader<'a>, major_type: u8) -> (r: Result<
    &'a [u8],
    LqError,
>)
    ensures
        final(reader).spec_data() == old(reader).spec_data(),
        match r {
            Ok(body) => leaf_at(major_type, old(reader).spec_data(), old(reader).spec_offset())
                == Some((body@, final(reader).spec_offset())),
            Err(e) => leaf_at(major_type, old(reader).spec_data(), old(reader).spec_offset())
                is None && e.kind == ErrorKind::Codec,
        },
{
    let (major, items, body) = reader.read_node()?;
    if major.id() != major_type {
        return LqError::err_new(ErrorKind::Codec, "The value has another type than expected.");
    }
    if items != 0 {
        return LqError::err_new(ErrorKind::Codec, "This type must not contain embedded values.");
    }
    Ok(body)
}

/// Writes the header of a leaf value whose own bytes have the given length.
/// The bytes themselves have to follow.
pub fn begin_leaf(writer: &mut VecWriter, major_type: u8, len: u64)
    requires
        major_type <= 18,
    ensures
        final(writer)@ == old(writer)@ + crate::wire::descriptor_bytes(
            MajorType(major_type),
            ContentDescription { number_of_embedded_items: 0, self_length: len },
        ),
{
    let r = writer.write_content_description(
        MajorType::new(major_type),
        &ContentDescription::new_self_length(len),
    );
    proof {
        assert(r is Ok);
    }
}

/// Writes binary-like data under the given major type.
pub fn binary_write(data: &[u8], writer: &mut VecWriter, major_type: MajorType)
    requires
        major_type.0 <= 18,
    ensures
        final(writer)@ == old(writer)@ + leaf_bytes(major_type.0, data@),
{
    let bin_len = data.len();
    let ghost before = writer@;
    begin_leaf(writer, major_type.id(), bin_len as u64);
    writer.write_slice(data);
    proof {
        assert(writer@ =~= before + leaf_bytes(major_type.0, data@));
    }
}

/// Reads binary-like data of any major type: the major type and the bytes.
pub fn binary_read<'a>(reader: &mut SliceReader<'a>) -> (r: Result<(MajorType, &'a [u8]), LqError>)
    ensures
        final(reader).spec_data() == old(reader).spec_data(),
        match r {
            Ok((major, body)) => leaf_at(
                major.0,
                old(reader).spec_data(),
                old(reader).spec_offset(),
            ) == Some((body@, final(reader).spec_offset())),
            Err(e) => e.kind == ErrorKind::Codec && forall|m: u8|
                leaf_at(m, old(reader).spec_data(), old(reader).spec_offset()) is None,
        },
{
    let (major, items, body) = reader.read_node()?;
    // binaries can never contain embedded values
    if items != 0 {
        return LqError::err_new(
            ErrorKind::Codec,
            "Binary types can never contain embedded values.",
        );
    }
    Ok((major, body))
}

impl Binary {
    /// Reads binary data.
    pub fn de_serialize<'a>(reader: &mut SliceReader<'a>) -> (r: Result<&'a [u8], LqError>)
        ensures
            final(reader).spec_data() == old(reader).spec_data(),
            match r {
                Ok(v) => binary_at(old(reader).spec_data(), old(reader).spec_offset()) == Some(
                    (v@, final(reader).spec_offset()),
                ),
                Err(e) => binary_at(old(reader).spec_data(), old(reader).spec_offset()) is None
                    && e.kind == ErrorKind::Codec,
            },
    {
        read_leaf(reader, TYPE_BINARY)
    }

    /// Writes binary data.
    pub fn serialize(writer: &mut VecWriter, item: &[u8])
        ensures
            final(writer)@ == old(writer)@ + binary_bytes(item@),
    {
        binary_write(item, writer, MajorType::new(TYPE_BINARY))
    }
}

} // verus!
