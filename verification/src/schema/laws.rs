//! What holds of every valid value: it is one whole wire value, so that
//! skipping it ends where validating it ends, and it has a key.

use crate::error::ErrorKind;
use crate::major_types::{TYPE_BINARY, TYPE_UNICODE};
use crate::schema::any_type::AnyType;
use crate::schema::keys::{Comparison, Key};
use crate::schema::rules::{
    ascii_key_at, ascii_valid_at, binary_key_at, binary_valid_at, bool_key_at, bool_valid_at,
    decimal_key_at, decimal_valid_at, elements_valid_at, entries_valid_at, entry_keys_at,
    enumeration_key_at, enumeration_valid_at, field_targets, float32_key_at, float32_valid_at,
    float64_key_at, float64_valid_at, frames_in, key_at, key_of_type, key_ref_key_at,
    key_ref_valid_at, key_step_ok, keys_at, loose, map_key_at, map_valid_at, option_key_at,
    option_valid_at, order_ok, range_flags_at, range_items, range_key_at, range_valid_at,
    refs_valid_at, resolve_in, root_map_key_at, root_map_valid_at, sequence_key_at,
    sequence_valid_at, sint_key_at, sint_valid_at, structure_key_at, structure_valid_at, targets_of,
    uint_key_at, uint_valid_at, unicode_key_at, unicode_valid_at, uuid_key_at, uuid_valid_at,
    validate_at, validate_type, Env,
};
use crate::schema::type_ref::RefTarget;
use crate::schema::types::ascii::TAscii;
use crate::schema::types::binary::TBinary;
use crate::schema::types::boolean::TBool;
use crate::schema::types::decimal::TDecimal;
use crate::schema::types::float::{TFloat32, TFloat64};
use crate::schema::types::key_ref::TKeyRef;
use crate::schema::types::sint::TSInt;
use crate::schema::types::uint::TUInt;
use crate::schema::types::unicode::TUnicode;
use crate::schema::types::uuid::TUuid;
use crate::schema::types::enumeration::TEnum;
use crate::schema::types::map::{Sorting, TMap};
use crate::schema::types::option::TOption;
use crate::schema::types::range::{Inclusion, TRange};
use crate::schema::types::root_map::TRootMap;
use crate::schema::types::seq::{Order, TSeq};
use crate::schema::types::structure::TStruct;
use crate::types::binary::lemma_leaf_at;
use crate::types::boolean::{bool_at, lemma_bool_at};
use crate::types::enumeration::{enum_header_at, lemma_enum_header_at};
use crate::types::float::lemma_float_at;
use crate::types::option::{lemma_presence_at, presence_at, Presence};
use crate::types::seq::{lemma_seq_header_at, seq_header_at};
use crate::types::sint::{lemma_sint_at, sint_at};
use crate::types::uint::lemma_uint_at;
use crate::types::unicode::lemma_unicode_at;
use crate::wire::{
    lemma_value_end_bounds, lemma_values_end_bounds, lemma_values_end_extend,
    lemma_values_end_split, value_end, values_end,
};
use vstd::prelude::*;

verus! {

/// A row that starts with one value goes on behind that value.
pub proof fn lemma_values_end_first(data: Seq<u8>, a: int, b: int, m: nat)
    requires
        value_end(data, a) == Some(b),
    ensures
        a < b <= data.len(),
        values_end(data, a, m + 1) == values_end(data, b, m),
        values_end(data, b, 0) == Some(b),
{
    lemma_value_end_bounds(data, a);
}

/// A value at `pos` that is a whole wire value ending at `e`.
pub open spec fn is_value(data: Seq<u8>, pos: int, e: int) -> bool {
    0 <= pos < e <= data.len() && value_end(data, pos) == Some(e)
}

/// Skip equals read: a value that is valid under a type of the schema is one
/// whole wire value; skipping it without the schema ends where validating it
/// ends.
pub proof fn lemma_valid_is_value(
    env: Env,
    r: RefTarget,
    data: Seq<u8>,
    pos: int,
    frames: Seq<u32>,
)
    requires
        validate_at(env, r, data, pos, frames) is Ok,
    ensures
        is_value(data, pos, validate_at(env, r, data, pos, frames).unwrap()),
    decreases data.len() - pos, 2nat, 0nat,
{
    lemma_valid_type_is_value(env, resolve_in(env, r).unwrap(), data, pos, frames);
}

/// Skip equals read, for a type.
pub proof fn lemma_valid_type_is_value(
    env: Env,
    t: AnyType,
    data: Seq<u8>,
    pos: int,
    frames: Seq<u32>,
)
    requires
        validate_type(env, t, data, pos, frames) is Ok,
    ensures
        is_value(data, pos, validate_type(env, t, data, pos, frames).unwrap()),
    decreases data.len() - pos, 1nat, 0nat,
{
    match t {
        AnyType::Bool(_) => {
            lemma_bool_at(data, pos);
            crate::wire::lemma_node_at(data, pos);
        },
        AnyType::UInt(_) => {
            lemma_uint_at(data, pos);
            crate::wire::lemma_node_at(data, pos);
        },
        AnyType::SInt(_) => {
            lemma_sint_at(data, pos);
            crate::wire::lemma_node_at(data, pos);
        },
        AnyType::Float32(_) => {
            lemma_float_at(data, pos);
            crate::wire::lemma_node_at(data, pos);
        },
        AnyType::Float64(_) => {
            lemma_float_at(data, pos);
            crate::wire::lemma_node_at(data, pos);
        },
        AnyType::Binary(_) => {
            lemma_leaf_at(TYPE_BINARY, data, pos);
            crate::wire::lemma_node_at(data, pos);
        },
        AnyType::Unicode(_) => {
            lemma_unicode_at(data, pos);
            crate::wire::lemma_node_at(data, pos);
        },
        AnyType::Ascii(_) => {
            lemma_leaf_at(TYPE_UNICODE, data, pos);
            crate::wire::lemma_node_at(data, pos);
        },
        AnyType::Uuid(_) => {
            lemma_leaf_at(TYPE_BINARY, data, pos);
            crate::wire::lemma_node_at(data, pos);
        },
        AnyType::KeyRef(_) => {
            lemma_uint_at(data, pos);
            crate::wire::lemma_node_at(data, pos);
        },
        AnyType::Decimal(t) => {
            lemma_decimal_is_value(data, pos);
        },
        AnyType::Option(t) => {
            lemma_presence_at(data, pos);
            crate::wire::lemma_node_at(data, pos);
            let (presence, p) = presence_at(data, pos).unwrap();
            if presence == Presence::Present {
                lemma_valid_is_value(env, t.inner.target(), data, p, frames);
                let e = validate_at(env, t.inner.target(), data, p, frames).unwrap();
                lemma_values_end_first(data, p, e, 0);
            }
        },
        AnyType::Sequence(t) => {
            lemma_seq_header_at(data, pos);
            crate::wire::lemma_node_at(data, pos);
            let (n, p) = seq_header_at(data, pos).unwrap();
            lemma_elements_valid_are_values(
                env,
                t.element.target(),
                t.ordering,
                data,
                p,
                n as nat,
                frames,
            );
            if n == 0 {
                lemma_values_end_bounds(data, p, 0);
            }
        },
        AnyType::Struct(t) => {
            lemma_seq_header_at(data, pos);
            crate::wire::lemma_node_at(data, pos);
            let (n, p) = seq_header_at(data, pos).unwrap();
            let k = t.fields@.len();
            lemma_refs_valid_are_values(env, field_targets(t.fields@), data, p, k, frames);
            let q = refs_valid_at(env, field_targets(t.fields@), data, p, k, frames).unwrap();
            lemma_values_end_split(data, p, k, (n - k) as nat);
            lemma_values_end_bounds(data, q, (n - k) as nat);
        },
        AnyType::Enum(t) => {
            lemma_enum_header_at(data, pos);
            crate::wire::lemma_node_at(data, pos);
            let (h, p) = enum_header_at(data, pos).unwrap();
            let values = t.variants@[h.ordinal as int].values@;
            let k = values.len();
            lemma_refs_valid_are_values(env, targets_of(values), data, p, k, frames);
            let q = refs_valid_at(env, targets_of(values), data, p, k, frames).unwrap();
            lemma_values_end_split(data, p, k, (h.number_of_values - k) as nat);
            lemma_values_end_bounds(data, q, (h.number_of_values - k) as nat);
        },
        AnyType::Mapping(t) => {
            lemma_seq_header_at(data, pos);
            crate::wire::lemma_node_at(data, pos);
            let (n, p) = seq_header_at(data, pos).unwrap();
            lemma_entries_valid_are_values(
                env,
                t.key.target(),
                t.value.target(),
                t.sorting,
                data,
                p,
                n as nat,
                frames_in(frames, t.anchors, n),
            );
        },
        AnyType::RootMap(t) => {
            lemma_seq_header_at(data, pos);
            crate::wire::lemma_node_at(data, pos);
            let (outer, p) = seq_header_at(data, pos).unwrap();
            let behind_root = value_end(data, p).unwrap();
            lemma_seq_header_at(data, behind_root);
            let (n, q) = seq_header_at(data, behind_root).unwrap();
            lemma_entries_valid_are_values(
                env,
                t.key.target(),
                t.value.target(),
                t.sorting,
                data,
                q,
                n as nat,
                frames.push(n),
            );
            let e = entries_valid_at(
                env,
                t.key.target(),
                t.value.target(),
                t.sorting,
                data,
                q,
                n as nat,
                frames.push(n),
            ).unwrap().0;
            assert(value_end(data, behind_root) == Some(e));
            lemma_values_end_first(data, behind_root, e, 0);
            lemma_values_end_first(data, p, behind_root, 1);
        },
        AnyType::Range(t) => {
            lemma_seq_header_at(data, pos);
            crate::wire::lemma_node_at(data, pos);
            let (n, p) = seq_header_at(data, pos).unwrap();
            lemma_valid_is_value(env, t.element.target(), data, p, frames);
            let q = validate_at(env, t.element.target(), data, p, frames).unwrap();
            lemma_valid_is_value(env, t.element.target(), data, q, frames);
            let behind_end = validate_at(env, t.element.target(), data, q, frames).unwrap();
            lemma_range_flags_are_values(t.inclusion, data, behind_end);
            lemma_values_end_first(data, q, behind_end, (n - 2) as nat);
            lemma_values_end_first(data, p, q, (n - 1) as nat);
        },
    }
}

/// The two booleans that supply the inclusion of a range are whole wire
/// values.
pub proof fn lemma_range_flags_are_values(inclusion: Inclusion, data: Seq<u8>, pos: int)
    requires
        range_flags_at(inclusion, data, pos) is Some,
        0 <= pos <= data.len(),
    ensures
        ({
            let e = range_flags_at(inclusion, data, pos).unwrap().2;
            &&& pos <= e <= data.len()
            &&& values_end(data, pos, (range_items(inclusion) - 2) as nat) == Some(e)
        }),
{
    if inclusion == Inclusion::Supplied {
        lemma_bool_at(data, pos);
        let p = bool_at(data, pos).unwrap().1;
        lemma_bool_at(data, p);
        let e = bool_at(data, p).unwrap().1;
        lemma_values_end_first(data, p, e, 0);
        lemma_values_end_first(data, pos, p, 1);
    }
}

/// A sequence of two signed integers is one whole wire value.
pub proof fn lemma_decimal_is_value(data: Seq<u8>, pos: int)
    requires
        seq_header_at(data, pos) is Some,
        seq_header_at(data, pos).unwrap().0 == 2,
        sint_at(data, seq_header_at(data, pos).unwrap().1) is Some,
        sint_at(data, sint_at(data, seq_header_at(data, pos).unwrap().1).unwrap().1) is Some,
    ensures
        ({
            let p = seq_header_at(data, pos).unwrap().1;
            let q = sint_at(data, p).unwrap().1;
            let e = sint_at(data, q).unwrap().1;
            is_value(data, pos, e)
        }),
{
    lemma_seq_header_at(data, pos);
    crate::wire::lemma_node_at(data, pos);
    let p = seq_header_at(data, pos).unwrap().1;
    lemma_sint_at(data, p);
    let q = sint_at(data, p).unwrap().1;
    lemma_sint_at(data, q);
    let e = sint_at(data, q).unwrap().1;
    lemma_values_end_first(data, q, e, 0);
    lemma_values_end_first(data, p, q, 1);
}

/// Values that are valid in a row are whole wire values in a row.
pub proof fn lemma_refs_valid_are_values(
    env: Env,
    targets: Seq<RefTarget>,
    data: Seq<u8>,
    first: int,
    k: nat,
    frames: Seq<u32>,
)
    requires
        refs_valid_at(env, targets, data, first, k, frames) is Ok,
        0 <= first <= data.len(),
    ensures
        ({
            let e = refs_valid_at(env, targets, data, first, k, frames).unwrap();
            &&& first <= e <= data.len()
            &&& values_end(data, first, k) == Some(e)
        }),
    decreases data.len() - first, 3nat, k,
{
    if k > 0 {
        let j = (k - 1) as nat;
        lemma_refs_valid_are_values(env, targets, data, first, j, frames);
        let p = refs_valid_at(env, targets, data, first, j, frames).unwrap();
        lemma_valid_is_value(env, targets[k - 1], data, p, frames);
        lemma_values_end_extend(data, first, j);
    }
}

/// The elements of a valid sequence are whole wire values in a row.
pub proof fn lemma_elements_valid_are_values(
    env: Env,
    element: RefTarget,
    ordering: Order,
    data: Seq<u8>,
    first: int,
    k: nat,
    frames: Seq<u32>,
)
    requires
        elements_valid_at(env, element, ordering, data, first, k, frames) is Ok,
        0 <= first <= data.len(),
    ensures
        ({
            let (e, last) = elements_valid_at(env, element, ordering, data, first, k, frames).unwrap();
            &&& first <= last <= e <= data.len()
            &&& k > 0 ==> last < e && validate_at(env, element, data, last, frames) == Ok::<
                int,
                ErrorKind,
            >(e)
            &&& values_end(data, first, k) == Some(e)
        }),
    decreases data.len() - first, 3nat, k,
{
    if k > 0 {
        let j = (k - 1) as nat;
        lemma_elements_valid_are_values(env, element, ordering, data, first, j, frames);
        let (p, _) = elements_valid_at(env, element, ordering, data, first, j, frames).unwrap();
        lemma_valid_is_value(env, element, data, p, frames);
        lemma_values_end_extend(data, first, j);
    }
}

/// The entries of a valid map are whole wire values in a row.
pub proof fn lemma_entries_valid_are_values(
    env: Env,
    key: RefTarget,
    value: RefTarget,
    sorting: Sorting,
    data: Seq<u8>,
    first: int,
    k: nat,
    frames: Seq<u32>,
)
    requires
        entries_valid_at(env, key, value, sorting, data, first, k, frames) is Ok,
        0 <= first <= data.len(),
    ensures
        ({
            let (e, last) = entries_valid_at(
                env,
                key,
                value,
                sorting,
                data,
                first,
                k,
                frames,
            ).unwrap();
            &&& first <= last <= e <= data.len()
            &&& k > 0 ==> validate_at(env, key, data, last, frames) is Ok
            &&& values_end(data, first, k) == Some(e)
        }),
    decreases data.len() - first, 3nat, k,
{
    if k > 0 {
        let j = (k - 1) as nat;
        lemma_entries_valid_are_values(env, key, value, sorting, data, first, j, frames);
        let (p, _) = entries_valid_at(env, key, value, sorting, data, first, j, frames).unwrap();
        lemma_seq_header_at(data, p);
        let (_, q) = seq_header_at(data, p).unwrap();
        lemma_valid_is_value(env, key, data, q, frames);
        let v = validate_at(env, key, data, q, frames).unwrap();
        lemma_valid_is_value(env, value, data, v, frames);
        let e = validate_at(env, value, data, v, frames).unwrap();
        lemma_values_end_first(data, v, e, 0);
        lemma_values_end_first(data, q, v, 1);
        lemma_values_end_extend(data, first, j);
    }
}

/// A value that has a key under a type of the schema is one whole wire
/// value; its key is read up to where skipping it ends.
pub proof fn lemma_key_is_value(env: Env, r: RefTarget, data: Seq<u8>, pos: int)
    requires
        key_at(env, r, data, pos) is Ok,
    ensures
        is_value(data, pos, key_at(env, r, data, pos).unwrap().1),
    decreases data.len() - pos, 2nat, 0nat,
{
    lemma_key_of_type_is_value(env, resolve_in(env, r).unwrap(), data, pos);
}

/// A value that has a key under a type is one whole wire value.
pub proof fn lemma_key_of_type_is_value(env: Env, t: AnyType, data: Seq<u8>, pos: int)
    requires
        key_of_type(env, t, data, pos) is Ok,
    ensures
        is_value(data, pos, key_of_type(env, t, data, pos).unwrap().1),
    decreases data.len() - pos, 1nat, 0nat,
{
    match t {
        AnyType::Bool(_) => {
            lemma_bool_at(data, pos);
            crate::wire::lemma_node_at(data, pos);
        },
        AnyType::UInt(_) => {
            lemma_uint_at(data, pos);
            crate::wire::lemma_node_at(data, pos);
        },
        AnyType::SInt(_) => {
            lemma_sint_at(data, pos);
            crate::wire::lemma_node_at(data, pos);
        },
        AnyType::Float32(_) => {
            lemma_float_at(data, pos);
            crate::wire::lemma_node_at(data, pos);
        },
        AnyType::Float64(_) => {
            lemma_float_at(data, pos);
            crate::wire::lemma_node_at(data, pos);
        },
        AnyType::Binary(_) => {
            lemma_leaf_at(TYPE_BINARY, data, pos);
            crate::wire::lemma_node_at(data, pos);
        },
        AnyType::Unicode(_) => {
            lemma_unicode_at(data, pos);
            crate::wire::lemma_node_at(data, pos);
        },
        AnyType::Ascii(_) => {
            lemma_leaf_at(TYPE_UNICODE, data, pos);
            crate::wire::lemma_node_at(data, pos);
        },
        AnyType::Uuid(_) => {
            lemma_leaf_at(TYPE_BINARY, data, pos);
            crate::wire::lemma_node_at(data, pos);
        },
        AnyType::KeyRef(_) => {
            lemma_uint_at(data, pos);
            crate::wire::lemma_node_at(data, pos);
        },
        AnyType::Decimal(t) => {
            lemma_decimal_is_value(data, pos);
        },
        AnyType::Option(t) => {
            lemma_presence_at(data, pos);
            crate::wire::lemma_node_at(data, pos);
            let (presence, p) = presence_at(data, pos).unwrap();
            if presence == Presence::Present {
                lemma_key_is_value(env, t.inner.target(), data, p);
                let e = key_at(env, t.inner.target(), data, p).unwrap().1;
                lemma_values_end_first(data, p, e, 0);
            }
        },
        AnyType::Sequence(t) => {
            lemma_seq_header_at(data, pos);
            crate::wire::lemma_node_at(data, pos);
            let (n, p) = seq_header_at(data, pos).unwrap();
            lemma_keys_are_values(
                env,
                Seq::new(n as nat, |i: int| t.element.target()),
                data,
                p,
                n as nat,
            );
        },
        AnyType::Struct(t) => {
            lemma_seq_header_at(data, pos);
            crate::wire::lemma_node_at(data, pos);
            let (n, p) = seq_header_at(data, pos).unwrap();
            let k = t.fields@.len();
            lemma_keys_are_values(env, field_targets(t.fields@), data, p, k);
            let q = keys_at(env, field_targets(t.fields@), data, p, k).unwrap().1;
            lemma_values_end_split(data, p, k, (n - k) as nat);
            lemma_values_end_bounds(data, q, (n - k) as nat);
        },
        AnyType::Enum(t) => {
            lemma_enum_header_at(data, pos);
            crate::wire::lemma_node_at(data, pos);
            let (h, p) = enum_header_at(data, pos).unwrap();
            let values = t.variants@[h.ordinal as int].values@;
            let k = values.len();
            lemma_keys_are_values(env, targets_of(values), data, p, k);
            let q = keys_at(env, targets_of(values), data, p, k).unwrap().1;
            lemma_values_end_split(data, p, k, (h.number_of_values - k) as nat);
            lemma_values_end_bounds(data, q, (h.number_of_values - k) as nat);
        },
        AnyType::Mapping(t) => {
            lemma_seq_header_at(data, pos);
            crate::wire::lemma_node_at(data, pos);
            let (n, p) = seq_header_at(data, pos).unwrap();
            lemma_entry_keys_are_values(env, t.key.target(), t.value.target(), data, p, n as nat);
        },
        AnyType::RootMap(t) => {
            lemma_seq_header_at(data, pos);
            crate::wire::lemma_node_at(data, pos);
            let (outer, p) = seq_header_at(data, pos).unwrap();
            lemma_key_is_value(env, t.root.target(), data, p);
            let behind_root = key_at(env, t.root.target(), data, p).unwrap().1;
            lemma_seq_header_at(data, behind_root);
            let (n, q) = seq_header_at(data, behind_root).unwrap();
            lemma_entry_keys_are_values(env, t.key.target(), t.value.target(), data, q, n as nat);
            let e = entry_keys_at(env, t.key.target(), t.value.target(), data, q, n as nat).unwrap().1;
            assert(value_end(data, behind_root) == Some(e));
            lemma_values_end_first(data, behind_root, e, 0);
            lemma_values_end_first(data, p, behind_root, 1);
        },
        AnyType::Range(t) => {
            lemma_seq_header_at(data, pos);
            crate::wire::lemma_node_at(data, pos);
            let (n, p) = seq_header_at(data, pos).unwrap();
            lemma_key_is_value(env, t.element.target(), data, p);
            let q = key_at(env, t.element.target(), data, p).unwrap().1;
            lemma_key_is_value(env, t.element.target(), data, q);
            let behind_end = key_at(env, t.element.target(), data, q).unwrap().1;
            if t.inclusion == Inclusion::Supplied {
                lemma_range_flags_are_values(t.inclusion, data, behind_end);
            }
            lemma_values_end_first(data, q, behind_end, (n - 2) as nat);
            lemma_values_end_first(data, p, q, (n - 1) as nat);
        },
    }
}

/// Values that have keys in a row are whole wire values in a row, and there
/// are as many keys as values.
pub proof fn lemma_keys_are_values(
    env: Env,
    targets: Seq<RefTarget>,
    data: Seq<u8>,
    first: int,
    k: nat,
)
    requires
        keys_at(env, targets, data, first, k) is Ok,
        0 <= first <= data.len(),
    ensures
        ({
            let (keys, e) = keys_at(env, targets, data, first, k).unwrap();
            &&& first <= e <= data.len()
            &&& keys.len() == k
            &&& values_end(data, first, k) == Some(e)
        }),
    decreases data.len() - first, 3nat, k,
{
    if k > 0 {
        let j = (k - 1) as nat;
        lemma_keys_are_values(env, targets, data, first, j);
        let p = keys_at(env, targets, data, first, j).unwrap().1;
        lemma_key_is_value(env, targets[k - 1], data, p);
        lemma_values_end_extend(data, first, j);
    }
}

/// The entries of a map that have keys are whole wire values in a row.
pub proof fn lemma_entry_keys_are_values(
    env: Env,
    key: RefTarget,
    value: RefTarget,
    data: Seq<u8>,
    first: int,
    k: nat,
)
    requires
        entry_keys_at(env, key, value, data, first, k) is Ok,
        0 <= first <= data.len(),
    ensures
        ({
            let (keys, e) = entry_keys_at(env, key, value, data, first, k).unwrap();
            &&& first <= e <= data.len()
            &&& keys.len() == k
            &&& values_end(data, first, k) == Some(e)
        }),
    decreases data.len() - first, 3nat, k,
{
    if k > 0 {
        let j = (k - 1) as nat;
        lemma_entry_keys_are_values(env, key, value, data, first, j);
        let p = entry_keys_at(env, key, value, data, first, j).unwrap().1;
        lemma_seq_header_at(data, p);
        let (_, q) = seq_header_at(data, p).unwrap();
        lemma_key_is_value(env, key, data, q);
        let v = key_at(env, key, data, q).unwrap().1;
        lemma_key_is_value(env, value, data, v);
        let e = key_at(env, value, data, v).unwrap().1;
        lemma_values_end_first(data, v, e, 0);
        lemma_values_end_first(data, q, v, 1);
        lemma_values_end_extend(data, first, j);
    }
}

/// Whether the value at `pos` has a key under the type that `r` points at,
/// and reading the key ends at `e`.
pub open spec fn has_key_to(env: Env, r: RefTarget, data: Seq<u8>, pos: int, e: int) -> bool {
    key_at(loose(env), r, data, pos) is Ok && key_at(loose(env), r, data, pos).unwrap().1 == e
}

/// Every valid value has a key: where a value is valid under a type of the
/// schema, it can be compared under that type, and reading its key ends
/// where validating it ends.
pub proof fn lemma_valid_has_key(
    env: Env,
    r: RefTarget,
    data: Seq<u8>,
    pos: int,
    frames: Seq<u32>,
)
    requires
        validate_at(env, r, data, pos, frames) is Ok,
    ensures
        has_key_to(env, r, data, pos, validate_at(env, r, data, pos, frames).unwrap()),
    decreases data.len() - pos, 2nat, 0nat,
{
    lemma_valid_type_has_key(env, resolve_in(env, r).unwrap(), data, pos, frames);
}

/// Every valid value has a key, for a type.
pub proof fn lemma_valid_type_has_key(
    env: Env,
    t: AnyType,
    data: Seq<u8>,
    pos: int,
    frames: Seq<u32>,
)
    requires
        validate_type(env, t, data, pos, frames) is Ok,
    ensures
        key_of_type(loose(env), t, data, pos) is Ok,
        key_of_type(loose(env), t, data, pos).unwrap().1 == validate_type(
            env,
            t,
            data,
            pos,
            frames,
        ).unwrap(),
    decreases data.len() - pos, 1nat, 0nat,
{
    match t {
        AnyType::Bool(t) => lemma_bool_has_key(env, t, data, pos, frames),
        AnyType::UInt(t) => lemma_uint_has_key(env, t, data, pos, frames),
        AnyType::SInt(t) => lemma_sint_has_key(env, t, data, pos, frames),
        AnyType::Float32(t) => lemma_float32_has_key(env, t, data, pos, frames),
        AnyType::Float64(t) => lemma_float64_has_key(env, t, data, pos, frames),
        AnyType::Binary(t) => lemma_binary_has_key(env, t, data, pos, frames),
        AnyType::Unicode(t) => lemma_unicode_has_key(env, t, data, pos, frames),
        AnyType::Ascii(t) => lemma_ascii_has_key(env, t, data, pos, frames),
        AnyType::Uuid(t) => lemma_uuid_has_key(env, t, data, pos, frames),
        AnyType::KeyRef(t) => lemma_key_ref_has_key(env, t, data, pos, frames),
        AnyType::Decimal(t) => lemma_decimal_has_key(env, t, data, pos, frames),
        AnyType::Option(t) => lemma_option_has_key(env, t, data, pos, frames),
        AnyType::Sequence(t) => lemma_sequence_has_key(env, t, data, pos, frames),
        AnyType::Struct(t) => lemma_structure_has_key(env, t, data, pos, frames),
        AnyType::Enum(t) => lemma_enumeration_has_key(env, t, data, pos, frames),
        AnyType::Mapping(t) => lemma_map_has_key(env, t, data, pos, frames),
        AnyType::RootMap(t) => lemma_root_map_has_key(env, t, data, pos, frames),
        AnyType::Range(t) => lemma_range_has_key(env, t, data, pos, frames),
    }
}

/// Every valid bool value has a key.
pub proof fn lemma_bool_has_key(env: Env, t: TBool, data: Seq<u8>, pos: int, frames: Seq<u32>)
    requires
        bool_valid_at(env, t, data, pos, frames) is Ok,
    ensures
        bool_key_at(loose(env), t, data, pos) is Ok,
        bool_key_at(loose(env), t, data, pos).unwrap().1 == bool_valid_at(
            env,
            t,
            data,
            pos,
            frames,
        ).unwrap(),
    decreases data.len() - pos, 0nat, 0nat,
{

}

/// Every valid uint value has a key.
pub proof fn lemma_uint_has_key(env: Env, t: TUInt, data: Seq<u8>, pos: int, frames: Seq<u32>)
    requires
        uint_valid_at(env, t, data, pos, frames) is Ok,
    ensures
        uint_key_at(loose(env), t, data, pos) is Ok,
        uint_key_at(loose(env), t, data, pos).unwrap().1 == uint_valid_at(
            env,
            t,
            data,
            pos,
            frames,
        ).unwrap(),
    decreases data.len() - pos, 0nat, 0nat,
{

}

/// Every valid sint value has a key.
pub proof fn lemma_sint_has_key(env: Env, t: TSInt, data: Seq<u8>, pos: int, frames: Seq<u32>)
    requires
        sint_valid_at(env, t, data, pos, frames) is Ok,
    ensures
        sint_key_at(loose(env), t, data, pos) is Ok,
        sint_key_at(loose(env), t, data, pos).unwrap().1 == sint_valid_at(
            env,
            t,
            data,
            pos,
            frames,
        ).unwrap(),
    decreases data.len() - pos, 0nat, 0nat,
{

}

/// Every valid float32 value has a key.
pub proof fn lemma_float32_has_key(env: Env, t: TFloat32, data: Seq<u8>, pos: int, frames: Seq<u32>)
    requires
        float32_valid_at(env, t, data, pos, frames) is Ok,
    ensures
        float32_key_at(loose(env), t, data, pos) is Ok,
        float32_key_at(loose(env), t, data, pos).unwrap().1 == float32_valid_at(
            env,
            t,
            data,
            pos,
            frames,
        ).unwrap(),
    decreases data.len() - pos, 0nat, 0nat,
{

}

/// Every valid float64 value has a key.
pub proof fn lemma_float64_has_key(env: Env, t: TFloat64, data: Seq<u8>, pos: int, frames: Seq<u32>)
    requires
        float64_valid_at(env, t, data, pos, frames) is Ok,
    ensures
        float64_key_at(loose(env), t, data, pos) is Ok,
        float64_key_at(loose(env), t, data, pos).unwrap().1 == float64_valid_at(
            env,
            t,
            data,
            pos,
            frames,
        ).unwrap(),
    decreases data.len() - pos, 0nat, 0nat,
{

}

/// Every valid binary value has a key.
pub proof fn lemma_binary_has_key(env: Env, t: TBinary, data: Seq<u8>, pos: int, frames: Seq<u32>)
    requires
        binary_valid_at(env, t, data, pos, frames) is Ok,
    ensures
        binary_key_at(loose(env), t, data, pos) is Ok,
        binary_key_at(loose(env), t, data, pos).unwrap().1 == binary_valid_at(
            env,
            t,
            data,
            pos,
            frames,
        ).unwrap(),
    decreases data.len() - pos, 0nat, 0nat,
{

}

/// Every valid unicode value has a key.
pub proof fn lemma_unicode_has_key(env: Env, t: TUnicode, data: Seq<u8>, pos: int, frames: Seq<u32>)
    requires
        unicode_valid_at(env, t, data, pos, frames) is Ok,
    ensures
        unicode_key_at(loose(env), t, data, pos) is Ok,
        unicode_key_at(loose(env), t, data, pos).unwrap().1 == unicode_valid_at(
            env,
            t,
            data,
            pos,
            frames,
        ).unwrap(),
    decreases data.len() - pos, 0nat, 0nat,
{

}

/// Every valid ascii value has a key.
pub proof fn lemma_ascii_has_key(env: Env, t: TAscii, data: Seq<u8>, pos: int, frames: Seq<u32>)
    requires
        ascii_valid_at(env, t, data, pos, frames) is Ok,
    ensures
        ascii_key_at(loose(env), t, data, pos) is Ok,
        ascii_key_at(loose(env), t, data, pos).unwrap().1 == ascii_valid_at(
            env,
            t,
            data,
            pos,
            frames,
        ).unwrap(),
    decreases data.len() - pos, 0nat, 0nat,
{

}

/// Every valid uuid value has a key.
pub proof fn lemma_uuid_has_key(env: Env, t: TUuid, data: Seq<u8>, pos: int, frames: Seq<u32>)
    requires
        uuid_valid_at(env, t, data, pos, frames) is Ok,
    ensures
        uuid_key_at(loose(env), t, data, pos) is Ok,
        uuid_key_at(loose(env), t, data, pos).unwrap().1 == uuid_valid_at(
            env,
            t,
            data,
            pos,
            frames,
        ).unwrap(),
    decreases data.len() - pos, 0nat, 0nat,
{

}

/// Every valid key ref value has a key.
pub proof fn lemma_key_ref_has_key(env: Env, t: TKeyRef, data: Seq<u8>, pos: int, frames: Seq<u32>)
    requires
        key_ref_valid_at(env, t, data, pos, frames) is Ok,
    ensures
        key_ref_key_at(loose(env), t, data, pos) is Ok,
        key_ref_key_at(loose(env), t, data, pos).unwrap().1 == key_ref_valid_at(
            env,
            t,
            data,
            pos,
            frames,
        ).unwrap(),
    decreases data.len() - pos, 0nat, 0nat,
{

}

/// Every valid decimal value has a key.
pub proof fn lemma_decimal_has_key(env: Env, t: TDecimal, data: Seq<u8>, pos: int, frames: Seq<u32>)
    requires
        decimal_valid_at(env, t, data, pos, frames) is Ok,
    ensures
        decimal_key_at(loose(env), t, data, pos) is Ok,
        decimal_key_at(loose(env), t, data, pos).unwrap().1 == decimal_valid_at(
            env,
            t,
            data,
            pos,
            frames,
        ).unwrap(),
    decreases data.len() - pos, 0nat, 0nat,
{

}

/// Every valid option value has a key.
pub proof fn lemma_option_has_key(env: Env, t: TOption, data: Seq<u8>, pos: int, frames: Seq<u32>)
    requires
        option_valid_at(env, t, data, pos, frames) is Ok,
    ensures
        option_key_at(loose(env), t, data, pos) is Ok,
        option_key_at(loose(env), t, data, pos).unwrap().1 == option_valid_at(
            env,
            t,
            data,
            pos,
            frames,
        ).unwrap(),
    decreases data.len() - pos, 0nat, 0nat,
{
    let (presence, p) = presence_at(data, pos).unwrap();
    if presence == Presence::Present {
        lemma_valid_has_key(env, t.inner.target(), data, p, frames);
    }
}

/// Every valid sequence value has a key.
pub proof fn lemma_sequence_has_key(env: Env, t: TSeq, data: Seq<u8>, pos: int, frames: Seq<u32>)
    requires
        sequence_valid_at(env, t, data, pos, frames) is Ok,
    ensures
        sequence_key_at(loose(env), t, data, pos) is Ok,
        sequence_key_at(loose(env), t, data, pos).unwrap().1 == sequence_valid_at(
            env,
            t,
            data,
            pos,
            frames,
        ).unwrap(),
    decreases data.len() - pos, 0nat, 0nat,
{
    lemma_seq_header_at(data, pos);
    let (n, p) = seq_header_at(data, pos).unwrap();
    lemma_elements_valid_have_keys(
        env,
        t.element.target(),
        t.ordering,
        data,
        p,
        n as nat,
        n as nat,
        frames,
    );
}

/// Every valid structure value has a key.
pub proof fn lemma_structure_has_key(env: Env, t: TStruct, data: Seq<u8>, pos: int, frames: Seq<u32>)
    requires
        structure_valid_at(env, t, data, pos, frames) is Ok,
    ensures
        structure_key_at(loose(env), t, data, pos) is Ok,
        structure_key_at(loose(env), t, data, pos).unwrap().1 == structure_valid_at(
            env,
            t,
            data,
            pos,
            frames,
        ).unwrap(),
    decreases data.len() - pos, 0nat, 0nat,
{
    lemma_seq_header_at(data, pos);
    let (n, p) = seq_header_at(data, pos).unwrap();
    lemma_refs_valid_have_keys(
        env,
        field_targets(t.fields@),
        data,
        p,
        t.fields@.len(),
        frames,
    );
}

/// Every valid enumeration value has a key.
pub proof fn lemma_enumeration_has_key(env: Env, t: TEnum, data: Seq<u8>, pos: int, frames: Seq<u32>)
    requires
        enumeration_valid_at(env, t, data, pos, frames) is Ok,
    ensures
        enumeration_key_at(loose(env), t, data, pos) is Ok,
        enumeration_key_at(loose(env), t, data, pos).unwrap().1 == enumeration_valid_at(
            env,
            t,
            data,
            pos,
            frames,
        ).unwrap(),
    decreases data.len() - pos, 0nat, 0nat,
{
    lemma_enum_header_at(data, pos);
    let (h, p) = enum_header_at(data, pos).unwrap();
    let values = t.variants@[h.ordinal as int].values@;
    lemma_refs_valid_have_keys(env, targets_of(values), data, p, values.len(), frames);
}

/// Every valid map value has a key.
pub proof fn lemma_map_has_key(env: Env, t: TMap, data: Seq<u8>, pos: int, frames: Seq<u32>)
    requires
        map_valid_at(env, t, data, pos, frames) is Ok,
    ensures
        map_key_at(loose(env), t, data, pos) is Ok,
        map_key_at(loose(env), t, data, pos).unwrap().1 == map_valid_at(
            env,
            t,
            data,
            pos,
            frames,
        ).unwrap(),
    decreases data.len() - pos, 0nat, 0nat,
{
    lemma_seq_header_at(data, pos);
    let (n, p) = seq_header_at(data, pos).unwrap();
    lemma_entries_valid_have_keys(
        env,
        t.key.target(),
        t.value.target(),
        t.sorting,
        data,
        p,
        n as nat,
        frames_in(frames, t.anchors, n),
    );
}

/// Every valid root map value has a key.
pub proof fn lemma_root_map_has_key(env: Env, t: TRootMap, data: Seq<u8>, pos: int, frames: Seq<u32>)
    requires
        root_map_valid_at(env, t, data, pos, frames) is Ok,
    ensures
        root_map_key_at(loose(env), t, data, pos) is Ok,
        root_map_key_at(loose(env), t, data, pos).unwrap().1 == root_map_valid_at(
            env,
            t,
            data,
            pos,
            frames,
        ).unwrap(),
    decreases data.len() - pos, 0nat, 0nat,
{
    lemma_seq_header_at(data, pos);
    let (outer, p) = seq_header_at(data, pos).unwrap();
    let behind_root = value_end(data, p).unwrap();
    lemma_seq_header_at(data, behind_root);
    let (n, q) = seq_header_at(data, behind_root).unwrap();
    lemma_valid_has_key(env, t.root.target(), data, p, frames.push(n));
    lemma_valid_is_value(env, t.root.target(), data, p, frames.push(n));
    lemma_entries_valid_have_keys(
        env,
        t.key.target(),
        t.value.target(),
        t.sorting,
        data,
        q,
        n as nat,
        frames.push(n),
    );
}

/// Every valid range value has a key.
pub proof fn lemma_range_has_key(env: Env, t: TRange, data: Seq<u8>, pos: int, frames: Seq<u32>)
    requires
        range_valid_at(env, t, data, pos, frames) is Ok,
    ensures
        range_key_at(loose(env), t, data, pos) is Ok,
        range_key_at(loose(env), t, data, pos).unwrap().1 == range_valid_at(
            env,
            t,
            data,
            pos,
            frames,
        ).unwrap(),
    decreases data.len() - pos, 0nat, 0nat,
{
    lemma_seq_header_at(data, pos);
    let (n, p) = seq_header_at(data, pos).unwrap();
    lemma_valid_has_key(env, t.element.target(), data, p, frames);
    lemma_valid_is_value(env, t.element.target(), data, p, frames);
    let q = validate_at(env, t.element.target(), data, p, frames).unwrap();
    lemma_valid_has_key(env, t.element.target(), data, q, frames);
}

/// Values that are valid in a row have keys in a row.
pub proof fn lemma_refs_valid_have_keys(
    env: Env,
    targets: Seq<RefTarget>,
    data: Seq<u8>,
    first: int,
    k: nat,
    frames: Seq<u32>,
)
    requires
        refs_valid_at(env, targets, data, first, k, frames) is Ok,
        0 <= first <= data.len(),
    ensures
        keys_at(loose(env), targets, data, first, k) is Ok,
        keys_at(loose(env), targets, data, first, k).unwrap().1 == refs_valid_at(
            env,
            targets,
            data,
            first,
            k,
            frames,
        ).unwrap(),
    decreases data.len() - first, 3nat, k,
{
    if k > 0 {
        let j = (k - 1) as nat;
        lemma_refs_valid_have_keys(env, targets, data, first, j, frames);
        let p = refs_valid_at(env, targets, data, first, j, frames).unwrap();
        lemma_valid_has_key(env, targets[k - 1], data, p, frames);
    }
}

/// The first `k` elements of a valid sequence of `n` have keys.
pub proof fn lemma_elements_valid_have_keys(
    env: Env,
    element: RefTarget,
    ordering: Order,
    data: Seq<u8>,
    first: int,
    k: nat,
    n: nat,
    frames: Seq<u32>,
)
    requires
        elements_valid_at(env, element, ordering, data, first, k, frames) is Ok,
        0 <= first <= data.len(),
        k <= n,
    ensures
        keys_at(loose(env), Seq::new(n, |i: int| element), data, first, k) is Ok,
        keys_at(loose(env), Seq::new(n, |i: int| element), data, first, k).unwrap().1
            == elements_valid_at(env, element, ordering, data, first, k, frames).unwrap().0,
    decreases data.len() - first, 3nat, k,
{
    if k > 0 {
        let j = (k - 1) as nat;
        lemma_elements_valid_have_keys(env, element, ordering, data, first, j, n, frames);
        let (p, _) = elements_valid_at(env, element, ordering, data, first, j, frames).unwrap();
        lemma_valid_has_key(env, element, data, p, frames);
    }
}

/// The entries of a valid map have keys.
pub proof fn lemma_entries_valid_have_keys(
    env: Env,
    key: RefTarget,
    value: RefTarget,
    sorting: Sorting,
    data: Seq<u8>,
    first: int,
    k: nat,
    frames: Seq<u32>,
)
    requires
        entries_valid_at(env, key, value, sorting, data, first, k, frames) is Ok,
        0 <= first <= data.len(),
    ensures
        entry_keys_at(loose(env), key, value, data, first, k) is Ok,
        entry_keys_at(loose(env), key, value, data, first, k).unwrap().1 == entries_valid_at(
            env,
            key,
            value,
            sorting,
            data,
            first,
            k,
            frames,
        ).unwrap().0,
    decreases data.len() - first, 3nat, k,
{
    if k > 0 {
        let j = (k - 1) as nat;
        lemma_entries_valid_have_keys(env, key, value, sorting, data, first, j, frames);
        let (p, _) = entries_valid_at(env, key, value, sorting, data, first, j, frames).unwrap();
        lemma_seq_header_at(data, p);
        let (_, q) = seq_header_at(data, p).unwrap();
        lemma_valid_has_key(env, key, data, q, frames);
        lemma_valid_is_value(env, key, data, q, frames);
        let v = validate_at(env, key, data, q, frames).unwrap();
        lemma_valid_has_key(env, value, data, v, frames);
    }
}

/// Total order: any two values that are valid under one type of the schema
/// can be compared under it; of less, equal and greater exactly one holds,
/// namely the order of their keys; and swapping the two reverses it. With
/// `lemma_key_order_transitive` the order is transitive too.
pub proof fn lemma_valid_values_are_ordered(
    env: Env,
    r: RefTarget,
    data1: Seq<u8>,
    pos1: int,
    frames1: Seq<u32>,
    data2: Seq<u8>,
    pos2: int,
    frames2: Seq<u32>,
)
    requires
        validate_at(env, r, data1, pos1, frames1) is Ok,
        validate_at(env, r, data2, pos2, frames2) is Ok,
    ensures
        key_at(loose(env), r, data1, pos1) is Ok,
        key_at(loose(env), r, data2, pos2) is Ok,
        pair_order(env, r, data2, pos2, data1, pos1) == pair_order(
            env,
            r,
            data1,
            pos1,
            data2,
            pos2,
        ).spec_reverse(),
        pair_order(env, r, data1, pos1, data1, pos1) == Comparison::Equal,
{
    lemma_valid_has_key(env, r, data1, pos1, frames1);
    lemma_valid_has_key(env, r, data2, pos2, frames2);
    let a = key_at(loose(env), r, data1, pos1).unwrap().0;
    let b = key_at(loose(env), r, data2, pos2).unwrap().0;
    crate::schema::keys::lemma_key_order_reverse(a, b);
    crate::schema::keys::lemma_key_order_reflexive(a);
}

/// Total order, transitivity: of three values that are valid under one type,
/// where the first is at most the second and the second at most the third,
/// the first is at most the third; and it is equal to the third only where
/// all three are equal.
pub proof fn lemma_valid_values_order_transitive(
    env: Env,
    r: RefTarget,
    data1: Seq<u8>,
    pos1: int,
    data2: Seq<u8>,
    pos2: int,
    data3: Seq<u8>,
    pos3: int,
)
    requires
        key_at(loose(env), r, data1, pos1) is Ok,
        key_at(loose(env), r, data2, pos2) is Ok,
        key_at(loose(env), r, data3, pos3) is Ok,
        pair_order(env, r, data1, pos1, data2, pos2) != Comparison::Greater,
        pair_order(env, r, data2, pos2, data3, pos3) != Comparison::Greater,
    ensures
        pair_order(env, r, data1, pos1, data3, pos3) != Comparison::Greater,
        pair_order(env, r, data1, pos1, data3, pos3) == Comparison::Equal ==> pair_order(
            env,
            r,
            data1,
            pos1,
            data2,
            pos2,
        ) == Comparison::Equal && pair_order(env, r, data2, pos2, data3, pos3)
            == Comparison::Equal,
{
    let a = key_at(loose(env), r, data1, pos1).unwrap().0;
    let b = key_at(loose(env), r, data2, pos2).unwrap().0;
    let c = key_at(loose(env), r, data3, pos3).unwrap().0;
    crate::schema::keys::lemma_key_order_transitive(a, b, c);
}

/// How the value at `pos1` compares with the value at `pos2` under the type
/// that `r` points at. Both have to have a key.
pub open spec fn pair_order(
    env: Env,
    r: RefTarget,
    data1: Seq<u8>,
    pos1: int,
    data2: Seq<u8>,
    pos2: int,
) -> Comparison {
    crate::schema::keys::key_order(
        key_at(loose(env), r, data1, pos1).unwrap().0,
        key_at(loose(env), r, data2, pos2).unwrap().0,
    )
}

/// The position at which the `i`-th element of a sequence starts whose
/// elements start at `first`; the elements before it have to be valid.
pub open spec fn element_start(
    env: Env,
    element: RefTarget,
    data: Seq<u8>,
    first: int,
    i: nat,
    frames: Seq<u32>,
) -> int {
    elements_valid_at(env, element, Order::Any, data, first, i, frames).unwrap().0
}

/// Whether each of the first `k` elements of a sequence compares with the
/// one before it as a sorting asks for.
pub open spec fn sorted_pairs(
    env: Env,
    element: RefTarget,
    direction: crate::schema::types::seq::Direction,
    unique: bool,
    data: Seq<u8>,
    first: int,
    k: nat,
    frames: Seq<u32>,
) -> bool {
    forall|i: nat|
        i + 1 < k ==> order_ok(
            direction,
            unique,
            #[trigger] pair_order(
                env,
                element,
                data,
                element_start(env, element, data, first, i, frames),
                data,
                element_start(env, element, data, first, i + 1, frames),
            ),
        )
}

/// Sorted sequences: elements that are valid one by one are valid as the
/// elements of a sorted sequence if and only if each compares with the one
/// before it as the sorting asks for; and then they end at the same place.
pub proof fn lemma_sorted_elements(
    env: Env,
    element: RefTarget,
    direction: crate::schema::types::seq::Direction,
    unique: bool,
    data: Seq<u8>,
    first: int,
    k: nat,
    frames: Seq<u32>,
)
    requires
        elements_valid_at(env, element, Order::Any, data, first, k, frames) is Ok,
        0 <= first <= data.len(),
    ensures
        elements_valid_at(env, element, Order::Sorted { direction, unique }, data, first, k, frames)
            == (if sorted_pairs(env, element, direction, unique, data, first, k, frames) {
            elements_valid_at(env, element, Order::Any, data, first, k, frames)
        } else {
            Err(ErrorKind::Relational)
        }),
    decreases k,
{
    let sorted = Order::Sorted { direction, unique };
    if k > 0 {
        let j = (k - 1) as nat;
        lemma_sorted_elements(env, element, direction, unique, data, first, j, frames);
        lemma_elements_valid_are_values(env, element, Order::Any, data, first, j, frames);
        let (p, previous) = elements_valid_at(env, element, Order::Any, data, first, j, frames).unwrap();
        if k >= 2 {
            let i = (k - 2) as nat;
            assert(previous == element_start(env, element, data, first, i, frames));
            assert(p == element_start(env, element, data, first, i + 1, frames));
            lemma_valid_has_key(env, element, data, previous, frames);
            lemma_valid_has_key(env, element, data, p, frames);
            if sorted_pairs(env, element, direction, unique, data, first, j, frames) {
                let step = pair_order(env, element, data, previous, data, p);
                if order_ok(direction, unique, step) {
                    assert forall|x: nat| x + 1 < k implies order_ok(
                        direction,
                        unique,
                        #[trigger] pair_order(
                            env,
                            element,
                            data,
                            element_start(env, element, data, first, x, frames),
                            data,
                            element_start(env, element, data, first, x + 1, frames),
                        ),
                    ) by {
                        if x + 1 < j {
                        } else {
                            assert(x == i);
                        }
                    }
                } else {
                    assert(!sorted_pairs(env, element, direction, unique, data, first, k, frames))
                        by {
                        assert(i + 1 < k);
                    }
                }
            } else {
                assert(!sorted_pairs(env, element, direction, unique, data, first, k, frames)) by {
                    if sorted_pairs(env, element, direction, unique, data, first, k, frames) {
                        assert forall|x: nat| x + 1 < j implies order_ok(
                            direction,
                            unique,
                            #[trigger] pair_order(
                                env,
                                element,
                                data,
                                element_start(env, element, data, first, x, frames),
                                data,
                                element_start(env, element, data, first, x + 1, frames),
                            ),
                        ) by {
                            assert(x + 1 < k);
                        }
                    }
                }
            }
        }
    }
}

/// Sorted-unique sequences: a sequence that is valid but for its order is
/// valid as an ascending sequence of unique elements if and only if each of
/// its elements is greater than the one before it.
pub proof fn lemma_sorted_unique_sequence(
    env: Env,
    t: TSeq,
    plain: TSeq,
    data: Seq<u8>,
    pos: int,
    frames: Seq<u32>,
)
    requires
        t.ordering == (Order::Sorted {
            direction: crate::schema::types::seq::Direction::Ascending,
            unique: true,
        }),
        plain.ordering == Order::Any,
        plain.element == t.element,
        plain.length == t.length,
        plain.multiple_of == t.multiple_of,
        sequence_valid_at(env, plain, data, pos, frames) is Ok,
    ensures
        ({
            let (n, first) = seq_header_at(data, pos).unwrap();
            sequence_valid_at(env, t, data, pos, frames) is Ok <==> forall|i: nat|
                i + 1 < n ==> #[trigger] pair_order(
                    env,
                    t.element.target(),
                    data,
                    element_start(env, t.element.target(), data, first, i, frames),
                    data,
                    element_start(env, t.element.target(), data, first, i + 1, frames),
                ) == Comparison::Less
        }),
        sequence_valid_at(env, t, data, pos, frames) is Ok ==> sequence_valid_at(
            env,
            t,
            data,
            pos,
            frames,
        ) == sequence_valid_at(env, plain, data, pos, frames),
{
    let (n, first) = seq_header_at(data, pos).unwrap();
    lemma_seq_header_at(data, pos);
    lemma_sorted_elements(
        env,
        t.element.target(),
        crate::schema::types::seq::Direction::Ascending,
        true,
        data,
        first,
        n as nat,
        frames,
    );
}

/// The position at which the key of the `i`-th entry of a map starts whose
/// entries start at `first`; the entries up to it have to be valid.
pub open spec fn entry_key_start(
    env: Env,
    key: RefTarget,
    value: RefTarget,
    sorting: Sorting,
    data: Seq<u8>,
    first: int,
    i: nat,
    frames: Seq<u32>,
) -> int {
    entries_valid_at(env, key, value, sorting, data, first, i + 1, frames).unwrap().1
}

/// Where `k` entries of a map are valid, each smaller number of them is.
pub proof fn lemma_entries_valid_fewer(
    env: Env,
    key: RefTarget,
    value: RefTarget,
    sorting: Sorting,
    data: Seq<u8>,
    first: int,
    j: nat,
    k: nat,
    frames: Seq<u32>,
)
    requires
        j <= k,
        entries_valid_at(env, key, value, sorting, data, first, k, frames) is Ok,
    ensures
        entries_valid_at(env, key, value, sorting, data, first, j, frames) is Ok,
    decreases k,
{
    if j < k {
        lemma_entries_valid_fewer(env, key, value, sorting, data, first, j, (k - 1) as nat, frames);
    }
}

/// In a valid map the key of the last of `k` entries, `k` at least 2, comes
/// strictly behind the key before it in the direction of the sorting.
pub proof fn lemma_last_entry_is_sorted(
    env: Env,
    key: RefTarget,
    value: RefTarget,
    sorting: Sorting,
    data: Seq<u8>,
    first: int,
    k: nat,
    frames: Seq<u32>,
)
    requires
        k >= 2,
        entries_valid_at(env, key, value, sorting, data, first, k, frames) is Ok,
        0 <= first <= data.len(),
    ensures
        entries_valid_at(env, key, value, sorting, data, first, (k - 1) as nat, frames) is Ok,
        key_step_ok(
            sorting,
            pair_order(
                env,
                key,
                data,
                entries_valid_at(env, key, value, sorting, data, first, (k - 1) as nat, frames).unwrap().1,
                data,
                entries_valid_at(env, key, value, sorting, data, first, k, frames).unwrap().1,
            ),
        ),
{
    let j = (k - 1) as nat;
    lemma_entries_valid_are_values(env, key, value, sorting, data, first, j, frames);
    let (p, previous) = entries_valid_at(env, key, value, sorting, data, first, j, frames).unwrap();
    lemma_seq_header_at(data, p);
    let (_, q) = seq_header_at(data, p).unwrap();
    lemma_valid_has_key(env, key, data, previous, frames);
    lemma_valid_has_key(env, key, data, q, frames);
}

/// Map uniqueness, one way: in a valid map each key comes strictly behind
/// the key before it in the direction of the sorting; so no two neighbours
/// are equal, and with them no two keys at all.
pub proof fn lemma_valid_entries_are_sorted(
    env: Env,
    key: RefTarget,
    value: RefTarget,
    sorting: Sorting,
    data: Seq<u8>,
    first: int,
    k: nat,
    frames: Seq<u32>,
    i: nat,
)
    requires
        entries_valid_at(env, key, value, sorting, data, first, k, frames) is Ok,
        0 <= first <= data.len(),
        i + 1 < k,
    ensures
        entries_valid_at(env, key, value, sorting, data, first, i + 2, frames) is Ok,
        key_step_ok(
            sorting,
            pair_order(
                env,
                key,
                data,
                entry_key_start(env, key, value, sorting, data, first, i, frames),
                data,
                entry_key_start(env, key, value, sorting, data, first, i + 1, frames),
            ),
        ),
{
    lemma_entries_valid_fewer(env, key, value, sorting, data, first, i + 2, k, frames);
    lemma_last_entry_is_sorted(env, key, value, sorting, data, first, i + 2, frames);
    assert((i + 2 - 1) as nat == i + 1);
}

/// Map uniqueness, the other way: where the first `k` entries of a map are
/// valid, one more entry makes them valid entries again if and only if it
/// is a sequence of a valid key and a valid value and its key comes strictly
/// behind the key before it in the direction of the sorting.
pub proof fn lemma_next_entry(
    env: Env,
    key: RefTarget,
    value: RefTarget,
    sorting: Sorting,
    data: Seq<u8>,
    first: int,
    k: nat,
    frames: Seq<u32>,
)
    requires
        k >= 1,
        entries_valid_at(env, key, value, sorting, data, first, k, frames) is Ok,
        0 <= first <= data.len(),
    ensures
        ({
            let (p, previous) = entries_valid_at(env, key, value, sorting, data, first, k, frames).unwrap();
            entries_valid_at(env, key, value, sorting, data, first, k + 1, frames) is Ok <==> {
                &&& seq_header_at(data, p) matches Some((n, q))
                &&& n == 2
                &&& validate_at(env, key, data, q, frames) matches Ok(v)
                &&& validate_at(env, value, data, v, frames) is Ok
                &&& key_step_ok(sorting, pair_order(env, key, data, previous, data, q))
            }
        }),
{
    lemma_entries_valid_are_values(env, key, value, sorting, data, first, k, frames);
    let (p, previous) = entries_valid_at(env, key, value, sorting, data, first, k, frames).unwrap();
    if seq_header_at(data, p) is Some {
        lemma_seq_header_at(data, p);
        let (_, q) = seq_header_at(data, p).unwrap();
        if validate_at(env, key, data, q, frames) is Ok {
            lemma_valid_is_value(env, key, data, q, frames);
            lemma_valid_has_key(env, key, data, previous, frames);
            lemma_valid_has_key(env, key, data, q, frames);
        }
    }
}

/// Range non-emptiness: a range of a type that does not allow empty ranges,
/// whose start and end are valid and equal, is valid if and only if both
/// start and end are included.
pub proof fn lemma_range_of_equal_ends(
    env: Env,
    t: TRange,
    data: Seq<u8>,
    pos: int,
    frames: Seq<u32>,
)
    requires
        !t.allow_empty,
        seq_header_at(data, pos) is Some,
        seq_header_at(data, pos).unwrap().0 == range_items(t.inclusion),
        validate_at(env, t.element.target(), data, seq_header_at(data, pos).unwrap().1, frames)
            is Ok,
        validate_at(
            env,
            t.element.target(),
            data,
            validate_at(
                env,
                t.element.target(),
                data,
                seq_header_at(data, pos).unwrap().1,
                frames,
            ).unwrap(),
            frames,
        ) is Ok,
        range_flags_at(t.inclusion, data, range_end_start(env, t, data, pos, frames).1) is Some,
        pair_order(
            env,
            t.element.target(),
            data,
            seq_header_at(data, pos).unwrap().1,
            data,
            range_end_start(env, t, data, pos, frames).0,
        ) == Comparison::Equal,
    ensures
        ({
            let flags = range_flags_at(
                t.inclusion,
                data,
                range_end_start(env, t, data, pos, frames).1,
            ).unwrap();
            range_valid_at(env, t, data, pos, frames) is Ok <==> (flags.0 && flags.1)
        }),
{
    let p = seq_header_at(data, pos).unwrap().1;
    lemma_seq_header_at(data, pos);
    lemma_valid_is_value(env, t.element.target(), data, p, frames);
    let q = validate_at(env, t.element.target(), data, p, frames).unwrap();
    lemma_valid_has_key(env, t.element.target(), data, p, frames);
    lemma_valid_has_key(env, t.element.target(), data, q, frames);
}

/// Where the end of a range starts, and where the end ends; start and end
/// have to be valid.
pub open spec fn range_end_start(env: Env, t: TRange, data: Seq<u8>, pos: int, frames: Seq<u32>)
    -> (int, int) {
    let p = seq_header_at(data, pos).unwrap().1;
    let q = validate_at(env, t.element.target(), data, p, frames).unwrap();
    (q, validate_at(env, t.element.target(), data, q, frames).unwrap())
}

/// Key reference scoping: a key reference is valid if and only if it is
/// read inside a map with anchors and is below the number of keys of the
/// innermost such map.
pub proof fn lemma_key_ref_scope(
    env: Env,
    t: TKeyRef,
    data: Seq<u8>,
    pos: int,
    frames: Seq<u32>,
)
    requires
        crate::types::uint::uint_at_most(data, pos, u32::MAX as nat) is Some,
    ensures
        key_ref_valid_at(env, t, data, pos, frames) is Ok <==> (frames.len() > 0
            && crate::types::uint::uint_at_most(data, pos, u32::MAX as nat).unwrap().0
            < frames.last()),
        forall|n: u32| (#[trigger] frames_in(frames, true, n)).last() == n,
        forall|n: u32| #[trigger] frames_in(frames, false, n) == frames,
{
}

} // verus!
