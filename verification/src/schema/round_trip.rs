//! Round trip of valid values: a valid value that is read as a logical
//! value is read up to where validating ends, and writing the logical value
//! gives its bytes back. In strict mode every valid value is read as a
//! logical value.
//!
//! In non-strict mode a valid structure or enum value may end in values of
//! a kind that is unknown to this library, which are skipped and cannot be
//! read. An ASCII type with codes above 128 accepts bytes that are no text.

use crate::major_types::TYPE_UNICODE;
use crate::schema::any_type::AnyType;
use crate::schema::laws::lemma_valid_is_value;
use crate::schema::rules::{
    ascii_valid_at, binary_valid_at, bool_valid_at, decimal_valid_at, elements_valid_at,
    entries_valid_at, enumeration_valid_at, field_targets, float32_valid_at, float64_valid_at,
    frames_in, key_ref_valid_at, map_valid_at, name_index, option_valid_at, range_flags_at,
    range_items, range_valid_at, refs_valid_at, resolve_index, root_map_valid_at,
    sequence_valid_at, sint_valid_at, structure_valid_at, targets_of, uint_valid_at,
    unicode_valid_at, uuid_valid_at, validate_at, validate_type, Env,
};
use crate::schema::type_ref::RefTarget;
use crate::schema::types::ascii::{code_allowed_from, TAscii};
use crate::schema::types::binary::TBinary;
use crate::schema::types::boolean::TBool;
use crate::schema::types::decimal::TDecimal;
use crate::schema::types::enumeration::TEnum;
use crate::schema::types::float::{TFloat32, TFloat64};
use crate::schema::types::key_ref::TKeyRef;
use crate::schema::types::map::{Sorting, TMap};
use crate::schema::types::option::TOption;
use crate::schema::types::range::{Inclusion, TRange};
use crate::schema::types::root_map::TRootMap;
use crate::schema::types::seq::{Order, TSeq};
use crate::schema::types::sint::TSInt;
use crate::schema::types::structure::TStruct;
use crate::schema::types::uint::TUInt;
use crate::schema::types::unicode::TUnicode;
use crate::schema::types::uuid::TUuid;
use crate::types::binary::leaf_at;
use crate::types::boolean::{bool_at, lemma_bool_at};
use crate::types::enumeration::{enum_header_at, lemma_enum_header_at};
use crate::types::option::{lemma_presence_at, presence_at, Presence};
use crate::types::seq::{lemma_seq_header_at, seq_header_at};
use crate::types::sint::{lemma_sint_at, sint_at};
use crate::value::{
    encodable, lemma_major_at, lemma_value_at, lemma_value_at_of_bytes, value_at, value_bytes,
    values_at, ValueView,
};
use crate::wire::value_end;
use vstd::prelude::*;
use vstd::utf8::*;

verus! {

/// Whether the codes of a type, where it is an ASCII type, are ASCII codes:
/// none of its ranges ends above 128.
pub open spec fn plain_codes(t: AnyType) -> bool {
    match t {
        AnyType::Ascii(a) => forall|i: int|
            0 <= i < a.codes.codes@.len() ==> #[trigger] a.codes.codes@[i] <= 128,
        _ => true,
    }
}

/// Whether every valid value of a schema is read as a logical value: the
/// mode is strict, and the codes of the ASCII types are ASCII codes.
pub open spec fn readable(env: Env) -> bool {
    &&& env.strict
    &&& forall|i: int| 0 <= i < env.types.len() ==> plain_codes(#[trigger] env.types[i])
}

/// Whether the bytes at `pos` are read as a logical value that ends at `e`.
pub open spec fn is_read(data: Seq<u8>, pos: int, e: int) -> bool {
    value_at(data, pos) is Some && value_at(data, pos).unwrap().1 == e
}

/// Whether `n` values in a row, the first at `pos`, are read as logical
/// values, the last of which ends at `e`.
pub open spec fn are_read(data: Seq<u8>, pos: int, n: nat, e: int) -> bool {
    values_at(data, pos, n) is Some && values_at(data, pos, n).unwrap().1 == e
}

/// A code that is allowed by ranges of ASCII codes is an ASCII code.
pub proof fn lemma_allowed_code_is_ascii(codes: Seq<u8>, code: u8, i: int)
    requires
        forall|j: int| 0 <= j < codes.len() ==> #[trigger] codes[j] <= 128,
        code_allowed_from(codes, code, i),
    ensures
        code < 128,
    decreases codes.len() - 2 * i,
{
    if !(codes[2 * i] <= code < codes[2 * i + 1]) {
        lemma_allowed_code_is_ascii(codes, code, i + 1);
    }
}

/// Bytes that are ASCII codes are a text.
pub proof fn lemma_ascii_is_text(body: Seq<u8>)
    requires
        forall|i: int| 0 <= i < body.len() ==> #[trigger] body[i] < 128,
    ensures
        valid_utf8(body),
{
    assert forall|i: int| 0 <= i < body.len() implies #[trigger] is_leading_byte_width_1(
        body[i],
    ) by {
        let b = body[i];
        assert(b < 128 ==> b & 0x80 == 0) by (bit_vector);
    }
    assert(body.subrange(0, 0) =~= Seq::<u8>::empty());
    assert(partial_valid_utf8(body, 0));
    partial_valid_utf8_extend_ascii_block(body, 0, body.len() as int);
    assert(body.subrange(0, body.len() as int) =~= body);
}

/// One more value behind a row of values that are read is read with them.
pub proof fn lemma_values_at_extend(data: Seq<u8>, first: int, k: nat, p: int, e: int)
    requires
        are_read(data, first, k, p),
        first <= p <= data.len(),
        is_read(data, p, e),
    ensures
        are_read(data, first, k + 1, e),
{
    assert((k + 1 - 1) as nat == k);
}

/// A row of values is read from its first value on: where the first value
/// is read and the others behind it are, all of them are.
pub proof fn lemma_values_at_first(data: Seq<u8>, a: int, b: int, m: nat, e: int)
    requires
        0 <= a,
        is_read(data, a, b),
        are_read(data, b, m, e),
    ensures
        are_read(data, a, m + 1, e),
        a < b <= data.len(),
    decreases m,
{
    lemma_value_at(data, a);
    if m == 0 {
        assert(values_at(data, a, 0) == Some((Seq::<ValueView>::empty(), a)));
        lemma_values_at_extend(data, a, 0, a, b);
    } else {
        let j = (m - 1) as nat;
        let (s, p) = values_at(data, b, j).unwrap();
        lemma_values_at_first(data, a, b, j, p);
        assert(b <= p <= data.len());
        lemma_values_at_extend(data, a, m, p, e);
    }
}

/// The index of a name lies among the names.
pub proof fn lemma_name_index_bounds(names: Seq<Seq<char>>, name: Seq<char>, i: int)
    requires
        0 <= i,
        name_index(names, name, i) is Some,
    ensures
        i <= name_index(names, name, i).unwrap() < names.len(),
    decreases names.len() - i,
{
    if names[i] != name {
        lemma_name_index_bounds(names, name, i + 1);
    }
}

/// Strict round trip, for a reference: in strict mode a valid value is read
/// as a logical value up to where validating ends.
pub proof fn lemma_valid_is_read(
    env: Env,
    r: RefTarget,
    data: Seq<u8>,
    pos: int,
    frames: Seq<u32>,
)
    requires
        readable(env),
        validate_at(env, r, data, pos, frames) is Ok,
    ensures
        is_read(data, pos, validate_at(env, r, data, pos, frames).unwrap()),
    decreases data.len() - pos, 2nat, 0nat,
{
    let i = resolve_index(env, r).unwrap();
    match r {
        RefTarget::Index(_) => {},
        RefTarget::Name(name) => {
            lemma_name_index_bounds(env.names, name, 0);
        },
    }
    assert(plain_codes(env.types[i]));
    lemma_valid_type_is_read(env, env.types[i], data, pos, frames);
}

/// Strict round trip, for a type of the schema.
pub proof fn lemma_valid_type_is_read(
    env: Env,
    t: AnyType,
    data: Seq<u8>,
    pos: int,
    frames: Seq<u32>,
)
    requires
        readable(env),
        plain_codes(t),
        validate_type(env, t, data, pos, frames) is Ok,
    ensures
        is_read(data, pos, validate_type(env, t, data, pos, frames).unwrap()),
    decreases data.len() - pos, 1nat, 0nat,
{
    match t {
        AnyType::Bool(t) => {
            lemma_bool_is_read(env, t, data, pos, frames);
        },
        AnyType::UInt(t) => {
            lemma_uint_is_read(env, t, data, pos, frames);
        },
        AnyType::SInt(t) => {
            lemma_sint_is_read(env, t, data, pos, frames);
        },
        AnyType::Float32(t) => {
            lemma_float32_is_read(env, t, data, pos, frames);
        },
        AnyType::Float64(t) => {
            lemma_float64_is_read(env, t, data, pos, frames);
        },
        AnyType::Binary(t) => {
            lemma_binary_is_read(env, t, data, pos, frames);
        },
        AnyType::Unicode(t) => {
            lemma_unicode_is_read(env, t, data, pos, frames);
        },
        AnyType::Ascii(a) => {
            lemma_ascii_is_read(env, a, data, pos, frames);
        },
        AnyType::Uuid(t) => {
            lemma_uuid_is_read(env, t, data, pos, frames);
        },
        AnyType::KeyRef(t) => {
            lemma_key_ref_is_read(env, t, data, pos, frames);
        },
        AnyType::Decimal(t) => {
            lemma_decimal_is_read(env, t, data, pos, frames);
        },
        AnyType::Option(o) => {
            lemma_option_is_read(env, o, data, pos, frames);
        },
        AnyType::Sequence(s) => {
            lemma_sequence_is_read(env, s, data, pos, frames);
        },
        AnyType::Struct(s) => {
            lemma_structure_is_read(env, s, data, pos, frames);
        },
        AnyType::Enum(e) => {
            lemma_enumeration_is_read(env, e, data, pos, frames);
        },
        AnyType::Mapping(m) => {
            lemma_map_is_read(env, m, data, pos, frames);
        },
        AnyType::RootMap(m) => {
            lemma_root_map_is_read(env, m, data, pos, frames);
        },
        AnyType::Range(r) => {
            lemma_range_is_read(env, r, data, pos, frames);
        },
    }
}

/// Strict round trip, for a boolean.
pub proof fn lemma_bool_is_read(env: Env, t: TBool, data: Seq<u8>, pos: int, frames: Seq<u32>)
    requires
        readable(env),
        bool_valid_at(env, t, data, pos, frames) is Ok,
    ensures
        is_read(data, pos, bool_valid_at(env, t, data, pos, frames).unwrap()),
    decreases data.len() - pos, 0nat, 1nat,
{
    crate::schema::laws::lemma_valid_type_is_value(env, AnyType::Bool(t), data, pos, frames);
    lemma_major_at(data, pos);
}

/// Strict round trip, for an unsigned integer.
pub proof fn lemma_uint_is_read(env: Env, t: TUInt, data: Seq<u8>, pos: int, frames: Seq<u32>)
    requires
        readable(env),
        uint_valid_at(env, t, data, pos, frames) is Ok,
    ensures
        is_read(data, pos, uint_valid_at(env, t, data, pos, frames).unwrap()),
    decreases data.len() - pos, 0nat, 1nat,
{
    crate::schema::laws::lemma_valid_type_is_value(env, AnyType::UInt(t), data, pos, frames);
    crate::types::uint::lemma_uint_at(data, pos);
    lemma_major_at(data, pos);
}

/// Strict round trip, for a signed integer.
pub proof fn lemma_sint_is_read(env: Env, t: TSInt, data: Seq<u8>, pos: int, frames: Seq<u32>)
    requires
        readable(env),
        sint_valid_at(env, t, data, pos, frames) is Ok,
    ensures
        is_read(data, pos, sint_valid_at(env, t, data, pos, frames).unwrap()),
    decreases data.len() - pos, 0nat, 1nat,
{
    crate::schema::laws::lemma_valid_type_is_value(env, AnyType::SInt(t), data, pos, frames);
    lemma_sint_at(data, pos);
    lemma_major_at(data, pos);
}

/// Strict round trip, for a float of 32 bits.
pub proof fn lemma_float32_is_read(env: Env, t: TFloat32, data: Seq<u8>, pos: int, frames: Seq<u32>)
    requires
        readable(env),
        float32_valid_at(env, t, data, pos, frames) is Ok,
    ensures
        is_read(data, pos, float32_valid_at(env, t, data, pos, frames).unwrap()),
    decreases data.len() - pos, 0nat, 1nat,
{
    crate::schema::laws::lemma_valid_type_is_value(env, AnyType::Float32(t), data, pos, frames);
    lemma_major_at(data, pos);
}

/// Strict round trip, for a float of 64 bits.
pub proof fn lemma_float64_is_read(env: Env, t: TFloat64, data: Seq<u8>, pos: int, frames: Seq<u32>)
    requires
        readable(env),
        float64_valid_at(env, t, data, pos, frames) is Ok,
    ensures
        is_read(data, pos, float64_valid_at(env, t, data, pos, frames).unwrap()),
    decreases data.len() - pos, 0nat, 1nat,
{
    crate::schema::laws::lemma_valid_type_is_value(env, AnyType::Float64(t), data, pos, frames);
    lemma_major_at(data, pos);
}

/// Strict round trip, for binary data.
pub proof fn lemma_binary_is_read(env: Env, t: TBinary, data: Seq<u8>, pos: int, frames: Seq<u32>)
    requires
        readable(env),
        binary_valid_at(env, t, data, pos, frames) is Ok,
    ensures
        is_read(data, pos, binary_valid_at(env, t, data, pos, frames).unwrap()),
    decreases data.len() - pos, 0nat, 1nat,
{
    crate::schema::laws::lemma_valid_type_is_value(env, AnyType::Binary(t), data, pos, frames);
    lemma_major_at(data, pos);
}

/// Strict round trip, for a text.
pub proof fn lemma_unicode_is_read(env: Env, t: TUnicode, data: Seq<u8>, pos: int, frames: Seq<u32>)
    requires
        readable(env),
        unicode_valid_at(env, t, data, pos, frames) is Ok,
    ensures
        is_read(data, pos, unicode_valid_at(env, t, data, pos, frames).unwrap()),
    decreases data.len() - pos, 0nat, 1nat,
{
    crate::schema::laws::lemma_valid_type_is_value(env, AnyType::Unicode(t), data, pos, frames);
    lemma_major_at(data, pos);
}

/// Strict round trip, for an ASCII text.
pub proof fn lemma_ascii_is_read(env: Env, a: TAscii, data: Seq<u8>, pos: int, frames: Seq<u32>)
    requires
        readable(env),
        plain_codes(AnyType::Ascii(a)),
        ascii_valid_at(env, a, data, pos, frames) is Ok,
    ensures
        is_read(data, pos, ascii_valid_at(env, a, data, pos, frames).unwrap()),
    decreases data.len() - pos, 0nat, 1nat,
{
    crate::schema::laws::lemma_valid_type_is_value(env, AnyType::Ascii(a), data, pos, frames);
    lemma_major_at(data, pos);
    let body = leaf_at(TYPE_UNICODE, data, pos).unwrap().0;
    assert forall|i: int| 0 <= i < body.len() implies #[trigger] body[i] < 128 by {
        lemma_allowed_code_is_ascii(a.codes.codes@, body[i], 0);
    }
    lemma_ascii_is_text(body);
}

/// Strict round trip, for a UUID.
pub proof fn lemma_uuid_is_read(env: Env, t: TUuid, data: Seq<u8>, pos: int, frames: Seq<u32>)
    requires
        readable(env),
        uuid_valid_at(env, t, data, pos, frames) is Ok,
    ensures
        is_read(data, pos, uuid_valid_at(env, t, data, pos, frames).unwrap()),
    decreases data.len() - pos, 0nat, 1nat,
{
    crate::schema::laws::lemma_valid_type_is_value(env, AnyType::Uuid(t), data, pos, frames);
    lemma_major_at(data, pos);
}

/// Strict round trip, for a key reference.
pub proof fn lemma_key_ref_is_read(env: Env, t: TKeyRef, data: Seq<u8>, pos: int, frames: Seq<u32>)
    requires
        readable(env),
        key_ref_valid_at(env, t, data, pos, frames) is Ok,
    ensures
        is_read(data, pos, key_ref_valid_at(env, t, data, pos, frames).unwrap()),
    decreases data.len() - pos, 0nat, 1nat,
{
    crate::schema::laws::lemma_valid_type_is_value(env, AnyType::KeyRef(t), data, pos, frames);
    crate::types::uint::lemma_uint_at(data, pos);
    lemma_major_at(data, pos);
}

/// Strict round trip, for a decimal.
pub proof fn lemma_decimal_is_read(env: Env, t: TDecimal, data: Seq<u8>, pos: int, frames: Seq<u32>)
    requires
        readable(env),
        decimal_valid_at(env, t, data, pos, frames) is Ok,
    ensures
        is_read(data, pos, decimal_valid_at(env, t, data, pos, frames).unwrap()),
    decreases data.len() - pos, 0nat, 1nat,
{
    crate::schema::laws::lemma_valid_type_is_value(env, AnyType::Decimal(t), data, pos, frames);
    lemma_major_at(data, pos);
    lemma_seq_header_at(data, pos);
    let p = seq_header_at(data, pos).unwrap().1;
    lemma_sint_at(data, p);
    lemma_major_at(data, p);
    let q = sint_at(data, p).unwrap().1;
    lemma_sint_at(data, q);
    lemma_major_at(data, q);
    let e = sint_at(data, q).unwrap().1;
    assert(is_read(data, p, q));
    assert(is_read(data, q, e));
    assert(are_read(data, q, 0, q));
    lemma_values_at_extend(data, q, 0, q, e);
    lemma_values_at_first(data, p, q, 1, e);
}

/// Strict round trip, for an option.
pub proof fn lemma_option_is_read(env: Env, o: TOption, data: Seq<u8>, pos: int, frames: Seq<u32>)
    requires
        readable(env),
        option_valid_at(env, o, data, pos, frames) is Ok,
    ensures
        is_read(data, pos, option_valid_at(env, o, data, pos, frames).unwrap()),
    decreases data.len() - pos, 0nat, 1nat,
{
    crate::schema::laws::lemma_valid_type_is_value(env, AnyType::Option(o), data, pos, frames);
    lemma_major_at(data, pos);
    lemma_presence_at(data, pos);
    let (presence, p) = presence_at(data, pos).unwrap();
    if presence == Presence::Present {
        lemma_valid_is_read(env, o.inner.target(), data, p, frames);
    }
}

/// Strict round trip, for a sequence.
pub proof fn lemma_sequence_is_read(env: Env, s: TSeq, data: Seq<u8>, pos: int, frames: Seq<u32>)
    requires
        readable(env),
        sequence_valid_at(env, s, data, pos, frames) is Ok,
    ensures
        is_read(data, pos, sequence_valid_at(env, s, data, pos, frames).unwrap()),
    decreases data.len() - pos, 0nat, 1nat,
{
    crate::schema::laws::lemma_valid_type_is_value(env, AnyType::Sequence(s), data, pos, frames);
    lemma_major_at(data, pos);
    lemma_seq_header_at(data, pos);
    let (n, p) = seq_header_at(data, pos).unwrap();
    lemma_elements_valid_are_read(
        env,
        s.element.target(),
        s.ordering,
        data,
        p,
        n as nat,
        frames,
    );
}

/// Strict round trip, for a structure.
pub proof fn lemma_structure_is_read(env: Env, s: TStruct, data: Seq<u8>, pos: int, frames: Seq<u32>)
    requires
        readable(env),
        structure_valid_at(env, s, data, pos, frames) is Ok,
    ensures
        is_read(data, pos, structure_valid_at(env, s, data, pos, frames).unwrap()),
    decreases data.len() - pos, 0nat, 1nat,
{
    crate::schema::laws::lemma_valid_type_is_value(env, AnyType::Struct(s), data, pos, frames);
    lemma_major_at(data, pos);
    lemma_seq_header_at(data, pos);
    let (n, p) = seq_header_at(data, pos).unwrap();
    lemma_refs_valid_are_read(env, field_targets(s.fields@), data, p, n as nat, frames);
}

/// Strict round trip, for an enum value.
pub proof fn lemma_enumeration_is_read(env: Env, e: TEnum, data: Seq<u8>, pos: int, frames: Seq<u32>)
    requires
        readable(env),
        enumeration_valid_at(env, e, data, pos, frames) is Ok,
    ensures
        is_read(data, pos, enumeration_valid_at(env, e, data, pos, frames).unwrap()),
    decreases data.len() - pos, 0nat, 1nat,
{
    crate::schema::laws::lemma_valid_type_is_value(env, AnyType::Enum(e), data, pos, frames);
    lemma_major_at(data, pos);
    lemma_enum_header_at(data, pos);
    let (h, p) = enum_header_at(data, pos).unwrap();
    let values = e.variants@[h.ordinal as int].values@;
    lemma_refs_valid_are_read(
        env,
        targets_of(values),
        data,
        p,
        h.number_of_values as nat,
        frames,
    );
}

/// Strict round trip, for a map.
pub proof fn lemma_map_is_read(env: Env, m: TMap, data: Seq<u8>, pos: int, frames: Seq<u32>)
    requires
        readable(env),
        map_valid_at(env, m, data, pos, frames) is Ok,
    ensures
        is_read(data, pos, map_valid_at(env, m, data, pos, frames).unwrap()),
    decreases data.len() - pos, 0nat, 1nat,
{
    crate::schema::laws::lemma_valid_type_is_value(env, AnyType::Mapping(m), data, pos, frames);
    lemma_major_at(data, pos);
    lemma_seq_header_at(data, pos);
    let (n, p) = seq_header_at(data, pos).unwrap();
    lemma_entries_valid_are_read(
        env,
        m.key.target(),
        m.value.target(),
        m.sorting,
        data,
        p,
        n as nat,
        frames_in(frames, m.anchors, n),
    );
}

/// Strict round trip, for a root map.
pub proof fn lemma_root_map_is_read(env: Env, m: TRootMap, data: Seq<u8>, pos: int, frames: Seq<u32>)
    requires
        readable(env),
        root_map_valid_at(env, m, data, pos, frames) is Ok,
    ensures
        is_read(data, pos, root_map_valid_at(env, m, data, pos, frames).unwrap()),
    decreases data.len() - pos, 0nat, 1nat,
{
    crate::schema::laws::lemma_valid_type_is_value(env, AnyType::RootMap(m), data, pos, frames);
    lemma_major_at(data, pos);
    lemma_seq_header_at(data, pos);
    let (outer, p) = seq_header_at(data, pos).unwrap();
    let behind_root = value_end(data, p).unwrap();
    lemma_seq_header_at(data, behind_root);
    lemma_major_at(data, behind_root);
    let (n, q) = seq_header_at(data, behind_root).unwrap();
    lemma_valid_is_read(env, m.root.target(), data, p, frames.push(n));
    lemma_valid_is_value(env, m.root.target(), data, p, frames.push(n));
    lemma_entries_valid_are_read(
        env,
        m.key.target(),
        m.value.target(),
        m.sorting,
        data,
        q,
        n as nat,
        frames.push(n),
    );
    let e = entries_valid_at(
        env,
        m.key.target(),
        m.value.target(),
        m.sorting,
        data,
        q,
        n as nat,
        frames.push(n),
    ).unwrap().0;
    assert(is_read(data, behind_root, e));
    assert(are_read(data, behind_root, 0, behind_root));
    lemma_values_at_extend(data, behind_root, 0, behind_root, e);
    lemma_values_at_first(data, p, behind_root, 1, e);
}

/// Strict round trip, for a range.
pub proof fn lemma_range_is_read(env: Env, r: TRange, data: Seq<u8>, pos: int, frames: Seq<u32>)
    requires
        readable(env),
        range_valid_at(env, r, data, pos, frames) is Ok,
    ensures
        is_read(data, pos, range_valid_at(env, r, data, pos, frames).unwrap()),
    decreases data.len() - pos, 0nat, 1nat,
{
    crate::schema::laws::lemma_valid_type_is_value(env, AnyType::Range(r), data, pos, frames);
    lemma_major_at(data, pos);
    lemma_seq_header_at(data, pos);
    let (n, p) = seq_header_at(data, pos).unwrap();
    lemma_valid_is_read(env, r.element.target(), data, p, frames);
    lemma_valid_is_value(env, r.element.target(), data, p, frames);
    let q = validate_at(env, r.element.target(), data, p, frames).unwrap();
    lemma_valid_is_read(env, r.element.target(), data, q, frames);
    lemma_valid_is_value(env, r.element.target(), data, q, frames);
    let behind_end = validate_at(env, r.element.target(), data, q, frames).unwrap();
    lemma_range_flags_are_read(r.inclusion, data, behind_end);
    let e = range_flags_at(r.inclusion, data, behind_end).unwrap().2;
    lemma_values_at_first(data, q, behind_end, (n - 2) as nat, e);
    lemma_values_at_first(data, p, q, (n - 1) as nat, e);
}

/// The two booleans that supply the inclusion of a range are read as
/// logical values.
pub proof fn lemma_range_flags_are_read(inclusion: Inclusion, data: Seq<u8>, pos: int)
    requires
        range_flags_at(inclusion, data, pos) is Some,
        0 <= pos <= data.len(),
    ensures
        are_read(
            data,
            pos,
            (range_items(inclusion) - 2) as nat,
            range_flags_at(inclusion, data, pos).unwrap().2,
        ),
{
    if inclusion == Inclusion::Supplied {
        lemma_bool_at(data, pos);
        lemma_major_at(data, pos);
        let p = bool_at(data, pos).unwrap().1;
        lemma_bool_at(data, p);
        lemma_major_at(data, p);
        let e = bool_at(data, p).unwrap().1;
        assert(are_read(data, p, 0, p));
        lemma_values_at_extend(data, p, 0, p, e);
        lemma_values_at_first(data, pos, p, 1, e);
    }
}

/// In strict mode values that are valid in a row are read as logical
/// values in a row.
pub proof fn lemma_refs_valid_are_read(
    env: Env,
    targets: Seq<RefTarget>,
    data: Seq<u8>,
    first: int,
    k: nat,
    frames: Seq<u32>,
)
    requires
        readable(env),
        refs_valid_at(env, targets, data, first, k, frames) is Ok,
        0 <= first <= data.len(),
    ensures
        are_read(data, first, k, refs_valid_at(env, targets, data, first, k, frames).unwrap()),
    decreases data.len() - first, 3nat, k,
{
    if k > 0 {
        let j = (k - 1) as nat;
        lemma_refs_valid_are_read(env, targets, data, first, j, frames);
        let p = refs_valid_at(env, targets, data, first, j, frames).unwrap();
        lemma_valid_is_read(env, targets[k - 1], data, p, frames);
        let e = validate_at(env, targets[k - 1], data, p, frames).unwrap();
        lemma_values_at_extend(data, first, j, p, e);
    }
}

/// In strict mode the elements of a valid sequence are read as logical
/// values in a row.
pub proof fn lemma_elements_valid_are_read(
    env: Env,
    element: RefTarget,
    ordering: Order,
    data: Seq<u8>,
    first: int,
    k: nat,
    frames: Seq<u32>,
)
    requires
        readable(env),
        elements_valid_at(env, element, ordering, data, first, k, frames) is Ok,
        0 <= first <= data.len(),
    ensures
        are_read(
            data,
            first,
            k,
            elements_valid_at(env, element, ordering, data, first, k, frames).unwrap().0,
        ),
    decreases data.len() - first, 3nat, k,
{
    if k > 0 {
        let j = (k - 1) as nat;
        lemma_elements_valid_are_read(env, element, ordering, data, first, j, frames);
        let p = elements_valid_at(env, element, ordering, data, first, j, frames).unwrap().0;
        lemma_valid_is_read(env, element, data, p, frames);
        let e = validate_at(env, element, data, p, frames).unwrap();
        lemma_values_at_extend(data, first, j, p, e);
    }
}

/// In strict mode the entries of a valid map are read as logical values in
/// a row.
pub proof fn lemma_entries_valid_are_read(
    env: Env,
    key: RefTarget,
    value: RefTarget,
    sorting: Sorting,
    data: Seq<u8>,
    first: int,
    k: nat,
    frames: Seq<u32>,
)
    requires
        readable(env),
        entries_valid_at(env, key, value, sorting, data, first, k, frames) is Ok,
        0 <= first <= data.len(),
    ensures
        are_read(
            data,
            first,
            k,
            entries_valid_at(env, key, value, sorting, data, first, k, frames).unwrap().0,
        ),
    decreases data.len() - first, 3nat, k,
{
    if k > 0 {
        let j = (k - 1) as nat;
        lemma_entries_valid_are_read(env, key, value, sorting, data, first, j, frames);
        let p = entries_valid_at(env, key, value, sorting, data, first, j, frames).unwrap().0;
        lemma_seq_header_at(data, p);
        lemma_major_at(data, p);
        let q = seq_header_at(data, p).unwrap().1;
        lemma_valid_is_read(env, key, data, q, frames);
        lemma_valid_is_value(env, key, data, q, frames);
        let v = validate_at(env, key, data, q, frames).unwrap();
        lemma_valid_is_read(env, value, data, v, frames);
        let e = validate_at(env, value, data, v, frames).unwrap();
        assert(are_read(data, v, 0, v));
        lemma_values_at_extend(data, v, 0, v, e);
        lemma_values_at_first(data, q, v, 1, e);
        assert(is_read(data, p, e));
        lemma_values_at_extend(data, first, j, p, e);
    }
}

/// Round trip in every mode: where a valid value is read as a logical
/// value, reading ends where validating ends, and writing the logical value
/// gives back the bytes of the valid value, which are read back as the same
/// logical value.
pub proof fn lemma_valid_value_round_trip(
    env: Env,
    r: RefTarget,
    data: Seq<u8>,
    pos: int,
    frames: Seq<u32>,
)
    requires
        validate_at(env, r, data, pos, frames) is Ok,
        value_at(data, pos) is Some,
    ensures
        ({
            let e = validate_at(env, r, data, pos, frames).unwrap();
            let (v, end) = value_at(data, pos).unwrap();
            &&& end == e
            &&& encodable(v)
            &&& value_bytes(v) == data.subrange(pos, e)
            &&& value_at(value_bytes(v), 0) == Some((v, value_bytes(v).len() as int))
        }),
{
    lemma_valid_is_value(env, r, data, pos, frames);
    lemma_value_at(data, pos);
    let (v, end) = value_at(data, pos).unwrap();
    let bytes = value_bytes(v);
    assert(bytes.subrange(0, bytes.len() as int) =~= bytes);
    lemma_value_at_of_bytes(bytes, 0, v);
}

/// Round trip in strict mode: under a schema whose ASCII types hold ASCII
/// codes, a value that is valid in strict mode is read as a logical value
/// up to where validating ends; the logical value can be written, and
/// writing it gives back the bytes of the valid value.
pub proof fn lemma_strict_round_trip(
    env: Env,
    r: RefTarget,
    data: Seq<u8>,
    pos: int,
    frames: Seq<u32>,
)
    requires
        readable(env),
        validate_at(env, r, data, pos, frames) is Ok,
    ensures
        ({
            let e = validate_at(env, r, data, pos, frames).unwrap();
            &&& value_at(data, pos) is Some
            &&& value_at(data, pos).unwrap().1 == e
            &&& encodable(value_at(data, pos).unwrap().0)
            &&& value_bytes(value_at(data, pos).unwrap().0) == data.subrange(pos, e)
        }),
{
    lemma_valid_is_read(env, r, data, pos, frames);
    lemma_value_at(data, pos);
}

} // verus!
