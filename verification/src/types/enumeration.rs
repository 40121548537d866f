//! The header of an enum value. The ordinals 0 to 3 are carried by the major
//! types 6 to 9, with no bytes of the value's own. Any higher ordinal has
//! major type 13 and is held as a varint in the value's own bytes. The values
//! of the variant follow as embedded values.

use crate::endian::{lemma_pow256_values, pow256};
use crate::error::{ErrorKind, LqError};
use crate::major_types::{TYPE_ENUM_0, TYPE_ENUM_3, TYPE_ENUM_N};
use crate::slice_reader::SliceReader;
use crate::varint::{
    lemma_varint_bytes_len, lemma_varint_read_of_write, lemma_varint_write_of_read, varint_bytes,
    varint_canonical, varint_size_u32, VARINT_U32_MAX_FIRST,
};
use crate::vec_writer::VecWriter;
use crate::wire::{
    lemma_node_at, lemma_node_at_of_bytes, node_at, node_bytes, value_end, values_end,
    ContentDescription, MajorType, Node,
};
use vstd::prelude::*;

verus! {

/// The header of an enum value: the ordinal of the variant and the number of
/// values that follow.
#[derive(Debug, Copy, Clone, PartialEq, Eq, Structural)]
pub struct EnumHeader {
    pub ordinal: u32,
    pub number_of_values: u32,
}

/// The node that stands for an enum header.
pub open spec fn enum_header_node(h: EnumHeader) -> Node {
    if h.ordinal < 4 {
        Node {
            major: MajorType((TYPE_ENUM_0 + h.ordinal) as u8),
            items: h.number_of_values,
            body: Seq::empty(),
        }
    } else {
        Node {
            major: MajorType(TYPE_ENUM_N),
            items: h.number_of_values,
            body: varint_bytes(h.ordinal as nat),
        }
    }
}

/// The bytes of an enum header.
pub open spec fn enum_header_bytes(h: EnumHeader) -> Seq<u8> {
    node_bytes(enum_header_node(h))
}

/// The enum header at `pos` and the position behind it, where the first
/// value of the variant starts.
pub open spec fn enum_header_at(data: Seq<u8>, pos: int) -> Option<(EnumHeader, int)> {
    match node_at(data, pos) {
        Some((n, e)) => if TYPE_ENUM_0 <= n.major.0 <= TYPE_ENUM_3 && n.body.len() == 0 {
            Some(
                (
                    EnumHeader {
                        ordinal: (n.major.0 - TYPE_ENUM_0) as u32,
                        number_of_values: n.items,
                    },
                    e,
                ),
            )
        } else if n.major.0 == TYPE_ENUM_N {
            match varint_canonical(n.body, VARINT_U32_MAX_FIRST) {
                Some((ordinal, len)) => if len == n.body.len() && ordinal >= 4 {
                    Some((EnumHeader { ordinal: ordinal as u32, number_of_values: n.items }, e))
                } else {
                    None
                },
                None => None,
            }
        } else {
            None
        },
        None => None,
    }
}

/// An enum header that is read has the bytes that writing it gives, and the
/// enum value that it opens ends behind the last value of the variant.
pub proof fn lemma_enum_header_at(data: Seq<u8>, pos: int)
    requires
        enum_header_at(data, pos) is Some,
    ensures
        ({
            let (h, e) = enum_header_at(data, pos).unwrap();
            &&& pos < e <= data.len()
            &&& data.subrange(pos, e) == enum_header_bytes(h)
            &&& value_end(data, pos) == values_end(data, e, h.number_of_values as nat)
        }),
{
    lemma_node_at(data, pos);
    lemma_pow256_values();
    let (n, e) = node_at(data, pos).unwrap();
    if n.major.0 == TYPE_ENUM_N {
        lemma_varint_write_of_read(n.body, VARINT_U32_MAX_FIRST);
        assert(n.body.subrange(0, n.body.len() as int) =~= n.body);
        let (v, len) = varint_canonical(n.body, VARINT_U32_MAX_FIRST).unwrap();
        assert(v < pow256(4)) by {
            lemma_varint_first_bounds_u32(n.body);
        }
    } else {
        assert(n.body =~= Seq::<u8>::empty());
    }
}

/// A varint whose first byte is at most 250 stands for a number below 2^32.
pub proof fn lemma_varint_first_bounds_u32(s: Seq<u8>)
    requires
        varint_canonical(s, VARINT_U32_MAX_FIRST) is Some,
    ensures
        varint_canonical(s, VARINT_U32_MAX_FIRST).unwrap().0 < pow256(4),
{
    let t = s.subrange(0, s.len() as int);
    assert(t =~= s);
    crate::wire::lemma_varint_at(s, 0, VARINT_U32_MAX_FIRST);
}

/// Where the data holds the bytes of an enum header, reading gives it back.
pub proof fn lemma_enum_header_at_of_bytes(data: Seq<u8>, pos: int, h: EnumHeader)
    requires
        0 <= pos,
        pos + enum_header_bytes(h).len() <= data.len(),
        data.subrange(pos, pos + enum_header_bytes(h).len()) == enum_header_bytes(h),
    ensures
        enum_header_at(data, pos) == Some((h, pos + enum_header_bytes(h).len())),
{
    lemma_pow256_values();
    if h.ordinal >= 4 {
        lemma_varint_bytes_len(h.ordinal as nat);
        lemma_varint_read_of_write(h.ordinal as nat, Seq::empty(), VARINT_U32_MAX_FIRST);
        assert(varint_bytes(h.ordinal as nat) + Seq::<u8>::empty() =~= varint_bytes(
            h.ordinal as nat,
        ));
    }
    lemma_node_at_of_bytes(data, pos, enum_header_node(h));
}

impl EnumHeader {
    /// The header of the variant with the given ordinal and number of values.
    pub fn new(ordinal: u32, number_of_values: u32) -> (h: Self)
        ensures
            h == (EnumHeader { ordinal, number_of_values }),
    {
        EnumHeader { ordinal, number_of_values }
    }

    /// The ordinal of the variant.
    pub fn ordinal(&self) -> (o: u32)
        ensures
            o == self.ordinal,
    {
        self.ordinal
    }

    /// The number of values of the variant.
    pub fn number_of_values(&self) -> (n: u32)
        ensures
            n == self.number_of_values,
    {
        self.number_of_values
    }

    /// Reads an enum header.
    pub fn de_serialize(reader: &mut SliceReader) -> (r: Result<EnumHeader, LqError>)
        ensures
            final(reader).spec_data() == old(reader).spec_data(),
            match r {
                Ok(h) => enum_header_at(old(reader).spec_data(), old(reader).spec_offset())
                    == Some((h, final(reader).spec_offset())),
                Err(e) => enum_header_at(old(reader).spec_data(), old(reader).spec_offset())
                    is None && e.kind == ErrorKind::Codec,
            },
    {
        let (major, items, body) = reader.read_node()?;
        let id = major.id();
        if TYPE_ENUM_0 <= id && id <= TYPE_ENUM_3 {
            if body.len() != 0 {
                return LqError::err_new(
                    ErrorKind::Codec,
                    "Invalid length for an enum with a small ordinal.",
                );
            }
            Ok(EnumHeader { ordinal: (id - TYPE_ENUM_0) as u32, number_of_values: items })
        } else if id == TYPE_ENUM_N {
            let mut ordinal_reader = SliceReader::new(body);
            proof {
                assert(body@.subrange(0, body@.len() as int) =~= body@);
            }
            let ordinal = ordinal_reader.read_varint_u32()?;
            if ordinal_reader.finish().is_err() {
                return LqError::err_new(
                    ErrorKind::Codec,
                    "The ordinal of the enum does not fill the length that was announced.",
                );
            }
            if ordinal < 4 {
                return LqError::err_new(
                    ErrorKind::Codec,
                    "Enum is not canonical: small ordinals are carried by the major type.",
                );
            }
            Ok(EnumHeader { ordinal, number_of_values: items })
        } else {
            LqError::err_new(ErrorKind::Codec, "Type is not an enum.")
        }
    }

    /// Writes an enum header.
    pub fn serialize(writer: &mut VecWriter, item: &EnumHeader)
        ensures
            final(writer)@ == old(writer)@ + enum_header_bytes(*item),
    {
        let ordinal = item.ordinal;
        let number_of_values = item.number_of_values;
        let ghost before = writer@;
        if ordinal < 4 {
            let r = writer.write_content_description(
                MajorType::new(TYPE_ENUM_0 + ordinal as u8),
                &ContentDescription::new_number_of_embedded_values(number_of_values),
            );
            proof {
                assert(r is Ok);
                assert(writer@ =~= before + enum_header_bytes(*item));
            }
        } else {
            let var_int_len = varint_size_u32(ordinal);
            proof {
                lemma_pow256_values();
                lemma_varint_bytes_len(ordinal as nat);
            }
            let description = ContentDescription {
                self_length: var_int_len as u64,
                number_of_embedded_items: number_of_values,
            };
            let r = writer.write_content_description(MajorType::new(TYPE_ENUM_N), &description);
            writer.write_varint_u32(ordinal);
            proof {
                assert(r is Ok);
                assert(writer@ =~= before + enum_header_bytes(*item));
            }
        }
    }
}

} // verus!
