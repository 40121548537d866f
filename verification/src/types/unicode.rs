//! Unicode text: major type 5, the UTF-8 bytes are the value's own bytes.

use crate::error::{ErrorKind, LqError};
use crate::major_types::TYPE_UNICODE;
use crate::slice_reader::SliceReader;
use crate::types::binary::{
    binary_write, leaf_at, leaf_bytes, lemma_leaf_at, lemma_leaf_at_of_bytes, read_leaf,
};
use crate::vec_writer::VecWriter;
use crate::wire::{value_end, MajorType};
use vstd::prelude::*;
use vstd::string::StringSliceAdditionalSpecFns;
use vstd::utf8::{
    decode_utf8, decode_utf8_encode_utf8, encode_utf8, encode_utf8_decode_utf8,
    encode_utf8_valid_utf8, valid_utf8,
};

verus! {

/// Reads and writes unicode text.
pub struct Unicode;

/// The bytes of a text.
pub open spec fn unicode_bytes(s: Seq<char>) -> Seq<u8> {
    leaf_bytes(TYPE_UNICODE, encode_utf8(s))
}

/// The text at `pos` and the position behind it.
pub open spec fn unicode_at(data: Seq<u8>, pos: int) -> Option<(Seq<char>, int)> {
    match leaf_at(TYPE_UNICODE, data, pos) {
        Some((body, e)) => if valid_utf8(body) {
            Some((decode_utf8(body), e))
        } else {
            None
        },
        None => None,
    }
}

/// A text that is read is one whole wire value, and its bytes are those that
/// writing it gives.
pub proof fn lemma_unicode_at(data: Seq<u8>, pos: int)
    requires
        unicode_at(data, pos) is Some,
    ensures
        ({
            let (s, e) = unicode_at(data, pos).unwrap();
            &&& value_end(data, pos) == Some(e)
            &&& pos < e <= data.len()
            &&& encode_utf8(s).len() <= u64::MAX
            &&& data.subrange(pos, e) == unicode_bytes(s)
        }),
{
    lemma_leaf_at(TYPE_UNICODE, data, pos);
    let (body, e) = leaf_at(TYPE_UNICODE, data, pos).unwrap();
    decode_utf8_encode_utf8(body);
}

/// Where the data holds the bytes of a text, reading gives the text back.
pub proof fn lemma_unicode_at_of_bytes(data: Seq<u8>, pos: int, s: Seq<char>)
    requires
        encode_utf8(s).len() <= u64::MAX,
        0 <= pos,
        pos + unicode_bytes(s).len() <= data.len(),
        data.subrange(pos, pos + unicode_bytes(s).len()) == unicode_bytes(s),
    ensures
        unicode_at(data, pos) == Some((s, pos + unicode_bytes(s).len())),
{
    lemma_leaf_at_of_bytes(TYPE_UNICODE, data, pos, encode_utf8(s));
    encode_utf8_valid_utf8(s);
    encode_utf8_decode_utf8(s);
}

/// `core::str::from_utf8`: the text that the bytes are the UTF-8 encoding
/// of, or nothing where they are no valid UTF-8.
#[verifier::external_body]
pub(crate) fn text_of_utf8<'a>(bytes: &'a [u8]) -> (r: Option<&'a str>)
    ensures
        match r {
            Some(s) => valid_utf8(bytes@) && s@ == decode_utf8(bytes@),
            None => !valid_utf8(bytes@),
        },
{
    core::str::from_utf8(bytes).ok()
}

impl Unicode {
    /// Reads a text.
    pub fn de_serialize<'a>(reader: &mut SliceReader<'a>) -> (r: Result<&'a str, LqError>)
        ensures
            final(reader).spec_data() == old(reader).spec_data(),
            match r {
                Ok(v) => unicode_at(old(reader).spec_data(), old(reader).spec_offset()) == Some(
                    (v@, final(reader).spec_offset()),
                ),
                Err(e) => unicode_at(old(reader).spec_data(), old(reader).spec_offset()) is None
                    && e.kind == ErrorKind::Codec,
            },
    {
        let body = read_leaf(reader, TYPE_UNICODE)?;
        match text_of_utf8(body) {
            Some(s) => Ok(s),
            None => LqError::err_new(ErrorKind::Codec, "The text is no valid UTF-8."),
        }
    }

    /// Writes a text.
    pub fn serialize(writer: &mut VecWriter, item: &str)
        ensures
            final(writer)@ == old(writer)@ + unicode_bytes(item@),
    {
        binary_write(item.as_bytes(), writer, MajorType::new(TYPE_UNICODE))
    }
}

} // verus!
