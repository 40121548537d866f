//! The header byte and the content description that open every wire value.

use crate::endian::{lemma_pow256_values, pow256};
use crate::varint::{
    lemma_varint_bytes_len, lemma_varint_read_of_write, lemma_varint_write_of_read,
    varint_bytes, varint_canonical, VARINT_U32_MAX_FIRST, VARINT_U64_MAX_FIRST,
};
use vstd::prelude::*;

verus! {

/// The factor by which the major type is scaled inside the header byte.
pub const FACTOR: u8 = 13;

/// The highest major type whose header byte fits for every content info.
pub const MAX_MAJOR_TYPE: u8 = 18;

/// The major type: the high-level category of a wire value.
#[derive(Debug, Copy, Clone, PartialEq, Eq, Structural)]
pub struct MajorType(pub u8);

/// Combines the `MajorType` and the `ContentInfo`.
#[derive(Debug, Copy, Clone, PartialEq, Eq, Structural)]
pub struct HeaderByte(pub u8);

/// How the content description is laid out after the header byte.
#[derive(Debug, Copy, Clone, PartialEq, Eq, Structural)]
pub enum ContentInfo {
    /// No self bytes, no embedded items.
    Len0,
    /// 1 self byte, no embedded items.
    Len1,
    /// 2 self bytes, no embedded items.
    Len2,
    /// 4 self bytes, no embedded items.
    Len4,
    /// 8 self bytes, no embedded items.
    Len8,
    /// 16 self bytes, no embedded items.
    Len16,
    /// No embedded items; the self length follows as a varint.
    VarInt,
    /// 1 embedded item, no self bytes.
    ContainerOneEmpty,
    /// 2 embedded items, no self bytes.
    ContainerTwoEmpty,
    /// 1 embedded item, 1 self byte.
    ContainerOneOne,
    /// The number of embedded items follows as a varint; no self bytes.
    ContainerVarIntEmpty,
    /// The number of embedded items and the self length follow as varints.
    ContainerVarIntVarInt,
    /// Reserved for extensions; never written, rejected when read.
    Reserved,
}

/// How many bytes a value occupies itself and how many values are embedded
/// in it.
#[derive(Debug, Copy, Clone, PartialEq, Eq, Structural)]
pub struct ContentDescription {
    pub number_of_embedded_items: u32,
    pub self_length: u64,
}

impl ContentInfo {
    /// The number that stands for this content info in the header byte.
    pub open spec fn spec_id(self) -> u8 {
        match self {
            ContentInfo::Len0 => 0,
            ContentInfo::Len1 => 1,
            ContentInfo::Len2 => 2,
            ContentInfo::Len4 => 3,
            ContentInfo::Len8 => 4,
            ContentInfo::Len16 => 5,
            ContentInfo::VarInt => 6,
            ContentInfo::ContainerOneEmpty => 7,
            ContentInfo::ContainerTwoEmpty => 8,
            ContentInfo::ContainerOneOne => 9,
            ContentInfo::ContainerVarIntEmpty => 10,
            ContentInfo::ContainerVarIntVarInt => 11,
            ContentInfo::Reserved => 12,
        }
    }

    /// The content info that a number below 13 stands for.
    pub open spec fn spec_from_id(id: u8) -> ContentInfo {
        if id == 0 {
            ContentInfo::Len0
        } else if id == 1 {
            ContentInfo::Len1
        } else if id == 2 {
            ContentInfo::Len2
        } else if id == 3 {
            ContentInfo::Len4
        } else if id == 4 {
            ContentInfo::Len8
        } else if id == 5 {
            ContentInfo::Len16
        } else if id == 6 {
            ContentInfo::VarInt
        } else if id == 7 {
            ContentInfo::ContainerOneEmpty
        } else if id == 8 {
            ContentInfo::ContainerTwoEmpty
        } else if id == 9 {
            ContentInfo::ContainerOneOne
        } else if id == 10 {
            ContentInfo::ContainerVarIntEmpty
        } else if id == 11 {
            ContentInfo::ContainerVarIntVarInt
        } else {
            ContentInfo::Reserved
        }
    }

    /// The number that stands for this content info in the header byte.
    pub fn id(self) -> (id: u8)
        ensures
            id == self.spec_id(),
            id <= 12,
    {
        match self {
            ContentInfo::Len0 => 0,
            ContentInfo::Len1 => 1,
            ContentInfo::Len2 => 2,
            ContentInfo::Len4 => 3,
            ContentInfo::Len8 => 4,
            ContentInfo::Len16 => 5,
            ContentInfo::VarInt => 6,
            ContentInfo::ContainerOneEmpty => 7,
            ContentInfo::ContainerTwoEmpty => 8,
            ContentInfo::ContainerOneOne => 9,
            ContentInfo::ContainerVarIntEmpty => 10,
            ContentInfo::ContainerVarIntVarInt => 11,
            ContentInfo::Reserved => 12,
        }
    }

    /// The content info that a number stands for; `None` above 12.
    pub fn from_repr(id: u8) -> (r: Option<ContentInfo>)
        ensures
            id <= 12 ==> r == Some(Self::spec_from_id(id)) && r.unwrap().spec_id() == id,
            id > 12 ==> r is None,
    {
        if id == 0 {
            Some(ContentInfo::Len0)
        } else if id == 1 {
            Some(ContentInfo::Len1)
        } else if id == 2 {
            Some(ContentInfo::Len2)
        } else if id == 3 {
            Some(ContentInfo::Len4)
        } else if id == 4 {
            Some(ContentInfo::Len8)
        } else if id == 5 {
            Some(ContentInfo::Len16)
        } else if id == 6 {
            Some(ContentInfo::VarInt)
        } else if id == 7 {
            Some(ContentInfo::ContainerOneEmpty)
        } else if id == 8 {
            Some(ContentInfo::ContainerTwoEmpty)
        } else if id == 9 {
            Some(ContentInfo::ContainerOneOne)
        } else if id == 10 {
            Some(ContentInfo::ContainerVarIntEmpty)
        } else if id == 11 {
            Some(ContentInfo::ContainerVarIntVarInt)
        } else if id == 12 {
            Some(ContentInfo::Reserved)
        } else {
            None
        }
    }
}

impl MajorType {
    /// The major type with the given number.
    pub fn new(id: u8) -> (m: MajorType)
        ensures
            m.0 == id,
    {
        MajorType(id)
    }

    /// The major type as `u8`.
    pub fn id(self) -> (id: u8)
        ensures
            id == self.0,
    {
        self.0
    }
}

impl HeaderByte {
    /// The header byte of a major type and a content info.
    pub open spec fn spec_new(len: ContentInfo, id: MajorType) -> HeaderByte {
        HeaderByte((id.0 * 13 + len.spec_id()) as u8)
    }

    /// The content info packed in this header byte.
    pub open spec fn spec_content_info(self) -> ContentInfo {
        ContentInfo::spec_from_id(self.0 % 13)
    }

    /// The major type packed in this header byte.
    pub open spec fn spec_major_type(self) -> MajorType {
        MajorType(self.0 / 13)
    }

    /// Packs a major type and a content info into one byte. The product has
    /// to fit in a byte, which it does for every major type up to 18.
    pub fn new(len: ContentInfo, id: MajorType) -> (h: HeaderByte)
        requires
            id.0 * 13 + len.spec_id() <= 255,
        ensures
            h == Self::spec_new(len, id),
            h.spec_content_info() == len,
            h.spec_major_type() == id,
    {
        let len_byte = len.id();
        HeaderByte(id.0 * FACTOR + len_byte)
    }

    /// The header byte that a raw byte stands for.
    pub fn from_u8(byte: u8) -> (h: HeaderByte)
        ensures
            h.0 == byte,
    {
        HeaderByte(byte)
    }

    /// The content info packed in this header byte.
    pub fn content_info(self) -> (c: ContentInfo)
        ensures
            c == self.spec_content_info(),
            c.spec_id() == self.0 % 13,
    {
        let len_byte = self.0 % FACTOR;
        match ContentInfo::from_repr(len_byte) {
            Some(c) => c,
            None => ContentInfo::Reserved,
        }
    }

    /// The major type packed in this header byte.
    pub fn major_type(self) -> (m: MajorType)
        ensures
            m == self.spec_major_type(),
            m.0 <= 19,
    {
        let id_byte = self.0 / FACTOR;
        MajorType(id_byte)
    }

    /// The header byte as `u8`.
    pub fn id(self) -> (id: u8)
        ensures
            id == self.0,
    {
        self.0
    }
}

impl ContentDescription {
    /// How many bytes does this value occupy itself (excluding embedded items).
    pub fn self_length(&self) -> (l: u64)
        ensures
            l == self.self_length,
    {
        self.self_length
    }

    /// How many embedded items does this value have.
    pub fn number_of_embedded_items(&self) -> (n: u32)
        ensures
            n == self.number_of_embedded_items,
    {
        self.number_of_embedded_items
    }

    /// Sets the number of embedded items and keeps the self length.
    pub fn set_number_of_embedded_items(&mut self, number_of_embedded_values: u32)
        ensures
            final(self).number_of_embedded_items == number_of_embedded_values,
            final(self).self_length == old(self).self_length,
    {
        self.number_of_embedded_items = number_of_embedded_values;
    }

    /// Sets the self length and keeps the number of embedded items.
    pub fn set_self_length(&mut self, self_length: u64)
        ensures
            final(self).self_length == self_length,
            final(self).number_of_embedded_items == old(self).number_of_embedded_items,
    {
        self.self_length = self_length;
    }

    /// Creates a content description with no embedded items and given self length.
    pub fn new_self_length(self_length: u64) -> (d: Self)
        ensures
            d == (ContentDescription { number_of_embedded_items: 0, self_length }),
    {
        ContentDescription { self_length, number_of_embedded_items: 0 }
    }

    /// Creates a content description with no self length and number of given embedded items.
    pub fn new_number_of_embedded_values(number_of_embedded_values: u32) -> (d: Self)
        ensures
            d == (ContentDescription {
                number_of_embedded_items: number_of_embedded_values,
                self_length: 0,
            }),
    {
        ContentDescription { self_length: 0, number_of_embedded_items: number_of_embedded_values }
    }
}

impl Default for ContentDescription {
    fn default() -> (d: Self)
        ensures
            d == (ContentDescription { number_of_embedded_items: 0, self_length: 0 }),
    {
        ContentDescription { self_length: 0, number_of_embedded_items: 0 }
    }
}

/// The content info that a writer picks for a content description: the
/// smallest layout that can hold it.
pub open spec fn content_info_of(d: ContentDescription) -> ContentInfo {
    if d.number_of_embedded_items == 0 {
        if d.self_length == 0 {
            ContentInfo::Len0
        } else if d.self_length == 1 {
            ContentInfo::Len1
        } else if d.self_length == 2 {
            ContentInfo::Len2
        } else if d.self_length == 4 {
            ContentInfo::Len4
        } else if d.self_length == 8 {
            ContentInfo::Len8
        } else if d.self_length == 16 {
            ContentInfo::Len16
        } else {
            ContentInfo::VarInt
        }
    } else if d.self_length == 0 && d.number_of_embedded_items == 1 {
        ContentInfo::ContainerOneEmpty
    } else if d.self_length == 0 && d.number_of_embedded_items == 2 {
        ContentInfo::ContainerTwoEmpty
    } else if d.self_length == 1 && d.number_of_embedded_items == 1 {
        ContentInfo::ContainerOneOne
    } else if d.self_length == 0 {
        ContentInfo::ContainerVarIntEmpty
    } else {
        ContentInfo::ContainerVarIntVarInt
    }
}

/// The varints that follow the header byte of a content description.
pub open spec fn descriptor_tail(d: ContentDescription) -> Seq<u8> {
    match content_info_of(d) {
        ContentInfo::VarInt => varint_bytes(d.self_length as nat),
        ContentInfo::ContainerVarIntEmpty => varint_bytes(d.number_of_embedded_items as nat),
        ContentInfo::ContainerVarIntVarInt => varint_bytes(d.number_of_embedded_items as nat)
            + varint_bytes(d.self_length as nat),
        _ => Seq::empty(),
    }
}

/// Whether the header byte of a major type and a content description fits
/// in a byte.
pub open spec fn header_fits(major: MajorType, d: ContentDescription) -> bool {
    major.0 * 13 + content_info_of(d).spec_id() <= 255
}

/// The canonical bytes of a major type and a content description: the header
/// byte and the varints that its content info asks for.
pub open spec fn descriptor_bytes(major: MajorType, d: ContentDescription) -> Seq<u8> {
    seq![HeaderByte::spec_new(content_info_of(d), major).0] + descriptor_tail(d)
}

/// A varint at a position of `data`: the number and the position behind it.
/// Only the shortest varint of a number is accepted.
pub open spec fn varint_at(data: Seq<u8>, pos: int, max_first: u8) -> Option<(nat, int)> {
    if 0 <= pos <= data.len() {
        match varint_canonical(data.subrange(pos, data.len() as int), max_first) {
            Some((v, n)) => Some((v, pos + n)),
            None => None,
        }
    } else {
        None
    }
}

/// The content description that follows a header byte, read at `pos`, and
/// the position behind it. Nothing where the content info is reserved, the
/// data ends early, or the writer would have picked another layout for the
/// same description.
#[verifier::opaque]
pub open spec fn descriptor_after(header: HeaderByte, data: Seq<u8>, pos: int) -> Option<
    (ContentDescription, int),
> {
    let info = header.spec_content_info();
    let read: Option<(ContentDescription, int)> = match info {
        ContentInfo::Len0 => Some(
            (ContentDescription { number_of_embedded_items: 0, self_length: 0 }, pos),
        ),
        ContentInfo::Len1 => Some(
            (ContentDescription { number_of_embedded_items: 0, self_length: 1 }, pos),
        ),
        ContentInfo::Len2 => Some(
            (ContentDescription { number_of_embedded_items: 0, self_length: 2 }, pos),
        ),
        ContentInfo::Len4 => Some(
            (ContentDescription { number_of_embedded_items: 0, self_length: 4 }, pos),
        ),
        ContentInfo::Len8 => Some(
            (ContentDescription { number_of_embedded_items: 0, self_length: 8 }, pos),
        ),
        ContentInfo::Len16 => Some(
            (ContentDescription { number_of_embedded_items: 0, self_length: 16 }, pos),
        ),
        ContentInfo::ContainerOneEmpty => Some(
            (ContentDescription { number_of_embedded_items: 1, self_length: 0 }, pos),
        ),
        ContentInfo::ContainerTwoEmpty => Some(
            (ContentDescription { number_of_embedded_items: 2, self_length: 0 }, pos),
        ),
        ContentInfo::ContainerOneOne => Some(
            (ContentDescription { number_of_embedded_items: 1, self_length: 1 }, pos),
        ),
        ContentInfo::VarInt => match varint_at(data, pos, VARINT_U64_MAX_FIRST) {
            Some((len, p)) => Some(
                (ContentDescription { number_of_embedded_items: 0, self_length: len as u64 }, p),
            ),
            None => None,
        },
        ContentInfo::ContainerVarIntEmpty => match varint_at(data, pos, VARINT_U32_MAX_FIRST) {
            Some((items, p)) => Some(
                (
                    ContentDescription { number_of_embedded_items: items as u32, self_length: 0 },
                    p,
                ),
            ),
            None => None,
        },
        ContentInfo::ContainerVarIntVarInt => match varint_at(data, pos, VARINT_U32_MAX_FIRST) {
            Some((items, p)) => match varint_at(data, p, VARINT_U64_MAX_FIRST) {
                Some((len, q)) => Some(
                    (
                        ContentDescription {
                            number_of_embedded_items: items as u32,
                            self_length: len as u64,
                        },
                        q,
                    ),
                ),
                None => None,
            },
            None => None,
        },
        ContentInfo::Reserved => None,
    };
    match read {
        Some((d, p)) => if 0 <= pos <= data.len() && content_info_of(d) == info {
            Some((d, p))
        } else {
            None
        },
        None => None,
    }
}

/// The header of the wire value at `pos`: its major type, its content
/// description and the position behind the descriptor.
#[verifier::opaque]
pub open spec fn descriptor_at(data: Seq<u8>, pos: int) -> Option<
    (MajorType, ContentDescription, int),
> {
    if 0 <= pos < data.len() {
        let header = HeaderByte(data[pos]);
        match descriptor_after(header, data, pos + 1) {
            Some((d, p)) => Some((header.spec_major_type(), d, p)),
            None => None,
        }
    } else {
        None
    }
}

/// The position behind the wire value at `pos`: behind its descriptor, its
/// own bytes and its embedded values. Nothing where the data holds no whole
/// value there. This needs no schema.
pub open spec fn value_end(data: Seq<u8>, pos: int) -> Option<int>
    decreases data.len() - pos, 0nat,
{
    match descriptor_at(data, pos) {
        Some((_, d, p)) => if p + d.self_length <= data.len() && p > pos {
            values_end(data, p + d.self_length, d.number_of_embedded_items as nat)
        } else {
            None
        },
        None => None,
    }
}

/// The position behind `n` wire values in a row, the first at `pos`.
pub open spec fn values_end(data: Seq<u8>, pos: int, n: nat) -> Option<int>
    decreases data.len() - pos, n + 1,
{
    if n == 0 {
        Some(pos)
    } else {
        match value_end(data, pos) {
            Some(p) => if pos < p <= data.len() {
                values_end(data, p, (n - 1) as nat)
            } else {
                None
            },
            None => None,
        }
    }
}

/// A varint that is read at a position ends behind it, inside the data, and
/// its bytes are the varint of its number.
pub proof fn lemma_varint_at(data: Seq<u8>, pos: int, max_first: u8)
    requires
        max_first <= VARINT_U64_MAX_FIRST,
        varint_at(data, pos, max_first) is Some,
    ensures
        ({
            let (v, p) = varint_at(data, pos, max_first).unwrap();
            &&& pos < p <= data.len()
            &&& p <= pos + 9
            &&& v < pow256(8)
            &&& max_first <= VARINT_U32_MAX_FIRST ==> v < pow256(4)
            &&& data.subrange(pos, p) == varint_bytes(v)
        }),
{
    let rest = data.subrange(pos, data.len() as int);
    lemma_varint_write_of_read(rest, max_first);
    let (v, n) = varint_canonical(rest, max_first).unwrap();
    assert(rest.subrange(0, n as int) =~= data.subrange(pos, pos + n));
    lemma_pow256_values();
}

/// Where the data holds the varint of a number at a position, reading there
/// gives the number and the position behind the varint.
pub proof fn lemma_varint_at_of_bytes(data: Seq<u8>, pos: int, v: nat, max_first: u8)
    requires
        v < pow256(8),
        max_first == VARINT_U64_MAX_FIRST || (max_first == VARINT_U32_MAX_FIRST && v < pow256(4)),
        0 <= pos,
        pos + varint_bytes(v).len() <= data.len(),
        data.subrange(pos, pos + varint_bytes(v).len()) == varint_bytes(v),
    ensures
        varint_at(data, pos, max_first) == Some((v, pos + varint_bytes(v).len())),
{
    let n = varint_bytes(v).len() as int;
    let rest = data.subrange(pos, data.len() as int);
    let tail = data.subrange(pos + n, data.len() as int);
    assert(rest =~= varint_bytes(v) + tail);
    lemma_varint_read_of_write(v, tail, max_first);
    lemma_varint_bytes_len(v);
}

/// A descriptor that is read at a position ends behind it, inside the data,
/// and its bytes are the canonical bytes of what was read.
pub proof fn lemma_descriptor_at(data: Seq<u8>, pos: int)
    requires
        descriptor_at(data, pos) is Some,
    ensures
        ({
            let (major, d, p) = descriptor_at(data, pos).unwrap();
            &&& 0 <= pos < p <= data.len()
            &&& header_fits(major, d)
            &&& data.subrange(pos, p) == descriptor_bytes(major, d)
        }),
{
    reveal(descriptor_at);
    reveal(descriptor_after);
    let header = HeaderByte(data[pos]);
    let (major, d, p) = descriptor_at(data, pos).unwrap();
    let info = header.spec_content_info();
    assert(HeaderByte::spec_new(info, major).0 == data[pos]);
    lemma_pow256_values();
    match info {
        ContentInfo::VarInt => {
            lemma_varint_at(data, pos + 1, VARINT_U64_MAX_FIRST);
            assert(data.subrange(pos, p) =~= seq![data[pos]] + data.subrange(pos + 1, p));
        },
        ContentInfo::ContainerVarIntEmpty => {
            lemma_varint_at(data, pos + 1, VARINT_U32_MAX_FIRST);
            assert(data.subrange(pos, p) =~= seq![data[pos]] + data.subrange(pos + 1, p));
        },
        ContentInfo::ContainerVarIntVarInt => {
            lemma_varint_at(data, pos + 1, VARINT_U32_MAX_FIRST);
            let (_, q) = varint_at(data, pos + 1, VARINT_U32_MAX_FIRST).unwrap();
            lemma_varint_at(data, q, VARINT_U64_MAX_FIRST);
            assert(data.subrange(pos, p) =~= seq![data[pos]] + (data.subrange(pos + 1, q)
                + data.subrange(q, p)));
        },
        _ => {
            assert(data.subrange(pos, p) =~= seq![data[pos]]);
        },
    }
}

/// Where the data holds the canonical bytes of a descriptor at a position,
/// reading there gives the descriptor and the position behind the bytes.
pub proof fn lemma_descriptor_at_of_bytes(
    data: Seq<u8>,
    pos: int,
    major: MajorType,
    d: ContentDescription,
)
    requires
        header_fits(major, d),
        0 <= pos,
        pos + descriptor_bytes(major, d).len() <= data.len(),
        data.subrange(pos, pos + descriptor_bytes(major, d).len()) == descriptor_bytes(major, d),
    ensures
        descriptor_at(data, pos) == Some((major, d, pos + descriptor_bytes(major, d).len())),
{
    reveal(descriptor_at);
    reveal(descriptor_after);
    let bytes = descriptor_bytes(major, d);
    let n = bytes.len() as int;
    let info = content_info_of(d);
    let header = HeaderByte::spec_new(info, major);
    assert(data[pos] == data.subrange(pos, pos + n)[0]);
    assert(data[pos] == header.0);
    assert(header.spec_content_info() == info);
    assert(header.spec_major_type() == major);
    lemma_pow256_values();
    let tail = descriptor_tail(d);
    assert(data.subrange(pos + 1, pos + n) =~= data.subrange(pos, pos + n).subrange(1, n));
    assert(data.subrange(pos + 1, pos + n) =~= tail);
    match info {
        ContentInfo::VarInt => {
            lemma_varint_at_of_bytes(data, pos + 1, d.self_length as nat, VARINT_U64_MAX_FIRST);
        },
        ContentInfo::ContainerVarIntEmpty => {
            lemma_varint_at_of_bytes(
                data,
                pos + 1,
                d.number_of_embedded_items as nat,
                VARINT_U32_MAX_FIRST,
            );
        },
        ContentInfo::ContainerVarIntVarInt => {
            let a = varint_bytes(d.number_of_embedded_items as nat);
            let b = varint_bytes(d.self_length as nat);
            let q = pos + 1 + a.len();
            assert(data.subrange(pos + 1, q) =~= tail.subrange(0, a.len() as int));
            assert(tail.subrange(0, a.len() as int) =~= a);
            assert(data.subrange(q, q + b.len()) =~= tail.subrange(
                a.len() as int,
                tail.len() as int,
            ));
            assert(tail.subrange(a.len() as int, tail.len() as int) =~= b);
            lemma_varint_at_of_bytes(
                data,
                pos + 1,
                d.number_of_embedded_items as nat,
                VARINT_U32_MAX_FIRST,
            );
            lemma_varint_at_of_bytes(data, q, d.self_length as nat, VARINT_U64_MAX_FIRST);
        },
        _ => {},
    }
}

/// A wire value ends behind its start and inside the data.
pub proof fn lemma_value_end_bounds(data: Seq<u8>, pos: int)
    requires
        value_end(data, pos) is Some,
    ensures
        pos < value_end(data, pos).unwrap() <= data.len(),
    decreases data.len() - pos, 0nat,
{
    let (_, d, p) = descriptor_at(data, pos).unwrap();
    lemma_values_end_bounds(data, p + d.self_length, d.number_of_embedded_items as nat);
}

/// A row of wire values ends at or behind its start and inside the data.
pub proof fn lemma_values_end_bounds(data: Seq<u8>, pos: int, n: nat)
    requires
        values_end(data, pos, n) is Some,
        pos <= data.len(),
    ensures
        pos <= values_end(data, pos, n).unwrap() <= data.len(),
        n > 0 ==> pos < values_end(data, pos, n).unwrap(),
    decreases data.len() - pos, n + 1,
{
    if n > 0 {
        lemma_value_end_bounds(data, pos);
        let p = value_end(data, pos).unwrap();
        lemma_values_end_bounds(data, p, (n - 1) as nat);
    }
}

/// A row of `n + 1` values is a row of `n` values and one more.
pub proof fn lemma_values_end_extend(data: Seq<u8>, pos: int, n: nat)
    requires
        values_end(data, pos, n) is Some,
        pos <= data.len(),
    ensures
        values_end(data, pos, n + 1) == value_end(data, values_end(data, pos, n).unwrap()),
    decreases n,
{
    if n == 0 {
        if value_end(data, pos) is Some {
            lemma_value_end_bounds(data, pos);
            let p = value_end(data, pos).unwrap();
            assert(values_end(data, p, 0) == Some(p));
        }
        assert(values_end(data, pos, 1) == value_end(data, pos));
    } else {
        lemma_value_end_bounds(data, pos);
        let p = value_end(data, pos).unwrap();
        let m = (n - 1) as nat;
        assert(values_end(data, pos, n) == values_end(data, p, m));
        lemma_values_end_extend(data, p, m);
        assert(values_end(data, pos, n + 1) == values_end(data, p, m + 1));
    }
}

/// A row of `a + b` values is a row of `a` values and, behind it, a row of
/// `b` values.
pub proof fn lemma_values_end_split(data: Seq<u8>, pos: int, a: nat, b: nat)
    requires
        pos <= data.len(),
    ensures
        values_end(data, pos, a + b) == match values_end(data, pos, a) {
            Some(q) => values_end(data, q, b),
            None => None,
        },
    decreases a,
{
    if a > 0 {
        if value_end(data, pos) is Some {
            lemma_value_end_bounds(data, pos);
            let p = value_end(data, pos).unwrap();
            lemma_values_end_split(data, p, (a - 1) as nat, b);
            assert(values_end(data, pos, a + b) == values_end(data, p, ((a - 1) as nat) + b));
        }
    }
}

impl ContentDescription {
    /// The content info that a writer picks for this description.
    pub fn content_info(&self) -> (info: ContentInfo)
        ensures
            info == content_info_of(*self),
    {
        let self_len = self.self_length;
        let items = self.number_of_embedded_items;
        if items == 0 {
            if self_len == 0 {
                ContentInfo::Len0
            } else if self_len == 1 {
                ContentInfo::Len1
            } else if self_len == 2 {
                ContentInfo::Len2
            } else if self_len == 4 {
                ContentInfo::Len4
            } else if self_len == 8 {
                ContentInfo::Len8
            } else if self_len == 16 {
                ContentInfo::Len16
            } else {
                ContentInfo::VarInt
            }
        } else if self_len == 0 && items == 1 {
            ContentInfo::ContainerOneEmpty
        } else if self_len == 0 && items == 2 {
            ContentInfo::ContainerTwoEmpty
        } else if self_len == 1 && items == 1 {
            ContentInfo::ContainerOneOne
        } else if self_len == 0 {
            ContentInfo::ContainerVarIntEmpty
        } else {
            ContentInfo::ContainerVarIntVarInt
        }
    }
}

/// The `n` bytes at `pos`; nothing where the data ends before `pos + n`.
pub open spec fn bytes_at(data: Seq<u8>, pos: int, n: int) -> Option<Seq<u8>> {
    if 0 <= pos && 0 <= n && pos + n <= data.len() {
        Some(data.subrange(pos, pos + n))
    } else {
        None
    }
}

/// The outer layer of a wire value: its major type, the number of values
/// embedded in it, and its own bytes. The embedded values follow.
pub struct Node {
    pub major: MajorType,
    pub items: u32,
    pub body: Seq<u8>,
}

/// The content description of a node.
pub open spec fn node_description(n: Node) -> ContentDescription {
    ContentDescription { number_of_embedded_items: n.items, self_length: n.body.len() as u64 }
}

/// Whether a node can be written: its header byte and its length fit.
pub open spec fn node_fits(n: Node) -> bool {
    &&& n.body.len() <= u64::MAX
    &&& header_fits(n.major, node_description(n))
}

/// The canonical bytes of a node: its descriptor and its own bytes.
pub open spec fn node_bytes(n: Node) -> Seq<u8> {
    descriptor_bytes(n.major, node_description(n)) + n.body
}

/// The node at `pos` and the position behind its own bytes, where its
/// embedded values start.
pub open spec fn node_at(data: Seq<u8>, pos: int) -> Option<(Node, int)> {
    match descriptor_at(data, pos) {
        Some((major, d, p)) => match bytes_at(data, p, d.self_length as int) {
            Some(body) => Some(
                (Node { major, items: d.number_of_embedded_items, body }, p + d.self_length),
            ),
            None => None,
        },
        None => None,
    }
}

/// A node that is read at a position ends behind it, inside the data; its
/// bytes are the canonical bytes of what was read; and the value that it
/// opens ends where its embedded values end.
pub proof fn lemma_node_at(data: Seq<u8>, pos: int)
    requires
        node_at(data, pos) is Some,
    ensures
        ({
            let (n, e) = node_at(data, pos).unwrap();
            &&& 0 <= pos < e <= data.len()
            &&& node_fits(n)
            &&& data.subrange(pos, e) == node_bytes(n)
            &&& value_end(data, pos) == values_end(data, e, n.items as nat)
        }),
{
    lemma_descriptor_at(data, pos);
    let (major, d, p) = descriptor_at(data, pos).unwrap();
    let (n, e) = node_at(data, pos).unwrap();
    assert(data.subrange(pos, e) =~= data.subrange(pos, p) + data.subrange(p, e));
    assert(node_description(n) == d);
}

/// Where the data holds the canonical bytes of a node at a position, reading
/// there gives the node and the position behind the bytes.
pub proof fn lemma_node_at_of_bytes(data: Seq<u8>, pos: int, n: Node)
    requires
        node_fits(n),
        0 <= pos,
        pos + node_bytes(n).len() <= data.len(),
        data.subrange(pos, pos + node_bytes(n).len()) == node_bytes(n),
    ensures
        node_at(data, pos) == Some((n, pos + node_bytes(n).len())),
{
    let d = node_description(n);
    let head = descriptor_bytes(n.major, d);
    let all = node_bytes(n);
    let p = pos + head.len();
    assert(data.subrange(pos, p) =~= all.subrange(0, head.len() as int));
    assert(all.subrange(0, head.len() as int) =~= head);
    lemma_descriptor_at_of_bytes(data, pos, n.major, d);
    assert(data.subrange(p, p + n.body.len()) =~= all.subrange(
        head.len() as int,
        all.len() as int,
    ));
    assert(all.subrange(head.len() as int, all.len() as int) =~= n.body);
}

} // verus!
