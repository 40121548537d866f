//! The shapes of the types of the schema of schemas: what kind a type is of
//! and what its parameters are, but for its documentation. A type is
//! referred to by its index in the schema.

use crate::identifier::{split_segments, Identifier};
use crate::schema::any_type::AnyType;
use crate::schema::type_ref::{RefTarget, TypeRef};
use crate::schema::types::float::{TFloat32, TFloat64};
use crate::schema::types::map::Sorting;
use crate::schema::types::range::Inclusion;
use crate::schema::types::seq::Order;
use crate::schema::types::structure::TStruct;
use crate::schema::types::unicode::LengthType;
use vstd::prelude::*;

verus! {

/// The shape of a type.
pub enum Shape {
    /// A text of any length, counted in UTF-8 bytes.
    Text,
    /// An option of the type with the given index.
    Maybe(int),
    /// A key reference.
    Reference,
    /// A boolean.
    Flag,
    /// The unsigned integers from the first number to the second.
    Unsigned(int, int),
    /// The signed integers from the first number to the second.
    Signed(int, int),
    /// A range of the type with the given index; start and end are
    /// included, and an empty range is not allowed.
    Span(int),
    /// A sequence in any order: the index of the type of its elements, its
    /// least and greatest length, and what its length is a multiple of.
    Row(int, int, int, Option<u32>),
    /// A structure: the names of its fields and the indexes of their types.
    Record(Seq<(Seq<char>, int)>),
    /// An enumeration: the names of its variants and the indexes of the
    /// types of their values.
    Choice(Seq<(Seq<char>, Seq<int>)>),
    /// An ASCII text: its least and greatest length and its codes.
    Codes(int, int, Seq<u8>),
    /// Every float of 32 bits.
    Float32All,
    /// Every float of 64 bits.
    Float64All,
    /// A root map of any length with ascending keys: the indexes of the
    /// types of root, key and value.
    Root(int, int, int),
}

/// Whether an identifier is the given text in snake case.
pub open spec fn named(id: Identifier, text: Seq<char>) -> bool {
    id@ == split_segments(text)
}

/// Whether a reference is the given index.
pub open spec fn at_index(r: TypeRef, i: int) -> bool {
    0 <= i <= u32::MAX && r.target() == RefTarget::Index(i as u32)
}

/// Whether a structure has fields of the given names and types, in their
/// order.
pub open spec fn recorded(s: TStruct, fields: Seq<(Seq<char>, int)>) -> bool {
    &&& s.fields@.len() == fields.len()
    &&& forall|i: int|
        0 <= i < fields.len() ==> named((#[trigger] s.fields@[i]).identifier, fields[i].0)
            && at_index(s.fields@[i].type_ref, fields[i].1)
}

/// Whether a type has the given shape.
pub open spec fn shaped(t: AnyType, s: Shape) -> bool {
    match s {
        Shape::Text => match t {
            AnyType::Unicode(u) => u.length.spec_start() == 0 && u.length.spec_end() == u64::MAX
                && u.length_type == LengthType::Utf8Byte,
            _ => false,
        },
        Shape::Maybe(i) => match t {
            AnyType::Option(o) => at_index(o.inner, i),
            _ => false,
        },
        Shape::Reference => t is KeyRef,
        Shape::Flag => t is Bool,
        Shape::Unsigned(a, b) => match t {
            AnyType::UInt(u) => u.range.spec_start() == a && u.range.spec_end() == b,
            _ => false,
        },
        Shape::Signed(a, b) => match t {
            AnyType::SInt(u) => u.range.spec_start() == a && u.range.spec_end() == b,
            _ => false,
        },
        Shape::Span(i) => match t {
            AnyType::Range(r) => at_index(r.element, i) && r.inclusion == Inclusion::BothInclusive
                && !r.allow_empty,
            _ => false,
        },
        Shape::Row(i, least, most, multiple) => match t {
            AnyType::Sequence(q) => at_index(q.element, i) && q.length.spec_start() == least
                && q.length.spec_end() == most && q.ordering == Order::Any && q.multiple_of
                == multiple,
            _ => false,
        },
        Shape::Record(fields) => match t {
            AnyType::Struct(r) => recorded(r, fields),
            _ => false,
        },
        Shape::Choice(variants) => match t {
            AnyType::Enum(e) => e.variants@.len() == variants.len() && forall|v: int|
                0 <= v < variants.len() ==> named((#[trigger] e.variants@[v]).name, variants[v].0)
                    && e.variants@[v].values@.len() == variants[v].1.len() && forall|k: int|
                    0 <= k < variants[v].1.len() ==> at_index(
                        #[trigger] e.variants@[v].values@[k],
                        variants[v].1[k],
                    ),
            _ => false,
        },
        Shape::Codes(least, most, codes) => match t {
            AnyType::Ascii(a) => a.length.spec_start() == least && a.length.spec_end() == most
                && a.codes.codes@ == codes,
            _ => false,
        },
        Shape::Float32All => match t {
            AnyType::Float32(f) => f.min == TFloat32::MIN && f.max == TFloat32::MAX
                && f.flags.allow_nan && f.flags.allow_positive_infinity
                && f.flags.allow_negative_infinity && f.flags.allow_positive_zero
                && f.flags.allow_negative_zero && f.flags.allow_subnormal,
            _ => false,
        },
        Shape::Float64All => match t {
            AnyType::Float64(f) => f.min == TFloat64::MIN && f.max == TFloat64::MAX
                && f.flags.allow_nan && f.flags.allow_positive_infinity
                && f.flags.allow_negative_infinity && f.flags.allow_positive_zero
                && f.flags.allow_negative_zero && f.flags.allow_subnormal,
            _ => false,
        },
        Shape::Root(root, key, value) => match t {
            AnyType::RootMap(m) => at_index(m.root, root) && at_index(m.key, key) && at_index(
                m.value,
                value,
            ) && m.sorting == Sorting::Ascending && m.length.spec_start() == 0
                && m.length.spec_end() == u32::MAX,
            _ => false,
        },
    }
}

} // verus!
