//! Logical values that conform to a type: a condition on the logical value
//! alone under which its bytes are valid. It covers booleans, integers,
//! floats, texts, ASCII texts, key references, options, sequences in any
//! order, structures, enum values, ranges of integers whose inclusion the
//! type fixes, and root maps with integer keys.

use crate::error::ErrorKind;
use crate::schema::any_type::AnyType;
use crate::schema::keys::{int_order, Key};
use crate::schema::rules::{
    elements_valid_at, entries_valid_at, field_targets, fixed_inclusion, key_at, key_step_ok,
    loose, multiple_ok, range_ok, refs_valid_at, resolve_in, targets_of, text_length,
    validate_at, validate_type, Env,
};
use crate::schema::type_ref::RefTarget;
use crate::schema::types::ascii::codes_allowed;
use crate::schema::types::float::{float_allowed, layout32, layout64};
use crate::schema::types::map::Sorting;
use crate::schema::types::range::Inclusion;
use crate::schema::types::seq::Order;
use crate::types::binary::leaf_at;
use crate::types::boolean::bool_at;
use crate::types::enumeration::enum_header_at;
use crate::types::float::{float_at, Float};
use crate::types::option::{presence_at, Presence};
use crate::types::seq::seq_header_at;
use crate::types::sint::sint_at;
use crate::types::uint::uint_at;
use crate::types::unicode::unicode_at;
use crate::value::{lemma_value_at, lemma_values_at_bounds, value_at, values_at, ValueView};
use vstd::prelude::*;
use vstd::utf8::*;

verus! {

/// The number that a logical value is, where it is an integer.
pub open spec fn number_of(v: ValueView) -> Option<int> {
    match v {
        ValueView::UInt(n) => Some(n as int),
        ValueView::SInt(n) => Some(n as int),
        _ => None,
    }
}

/// The number that is the key of an entry, where the entry is a pair whose
/// first value is an integer.
pub open spec fn entry_number(entry: ValueView) -> Option<int> {
    match entry {
        ValueView::List(pair) => if pair.len() == 2 {
            number_of(pair[0])
        } else {
            None
        },
        _ => None,
    }
}

/// Whether a logical value conforms to the type that a reference points at.
pub open spec fn conforms(env: Env, r: RefTarget, v: ValueView, frames: Seq<u32>) -> bool
    decreases v, 2nat,
{
    match resolve_in(env, r) {
        Some(t) => conforms_type(env, t, v, frames),
        None => false,
    }
}

/// Whether a logical value conforms to a type.
pub open spec fn conforms_type(env: Env, t: AnyType, v: ValueView, frames: Seq<u32>) -> bool
    decreases v, 1nat,
{
    match v {
        ValueView::Bool(_) => t is Bool,
        ValueView::UInt(n) => match t {
            AnyType::UInt(u) => u.range.spec_contains(n as int),
            AnyType::KeyRef(_) => n <= u32::MAX && frames.len() > 0 && n < frames.last(),
            _ => false,
        },
        ValueView::SInt(n) => match t {
            AnyType::SInt(u) => u.range.spec_contains(n as int),
            _ => false,
        },
        ValueView::Float(Float::F32(bits)) => match t {
            AnyType::Float32(f) => float_allowed(
                layout32(),
                f.min as int,
                f.max as int,
                f.flags,
                bits as int,
            ),
            _ => false,
        },
        ValueView::Float(Float::F64(bits)) => match t {
            AnyType::Float64(f) => float_allowed(
                layout64(),
                f.min as int,
                f.max as int,
                f.flags,
                bits as int,
            ),
            _ => false,
        },
        ValueView::Unicode(s) => match t {
            AnyType::Unicode(u) => u.length.spec_contains(text_length(u.length_type, s)),
            AnyType::Ascii(a) => a.length.spec_contains(encode_utf8(s).len() as int)
                && codes_allowed(a.codes.codes@, encode_utf8(s)),
            _ => false,
        },
        ValueView::Binary(_) => false,
        ValueView::Option(None) => t is Option,
        ValueView::Option(Some(b)) => match t {
            AnyType::Option(o) => conforms(env, o.inner.target(), *b, frames),
            _ => false,
        },
        ValueView::Enum(ordinal, items) => match t {
            AnyType::Enum(e) => ordinal < e.variants@.len() && items.len()
                == e.variants@[ordinal as int].values@.len() && row_conforms(
                env,
                targets_of(e.variants@[ordinal as int].values@),
                items,
                frames,
            ),
            _ => false,
        },
        ValueView::List(items) => match t {
            AnyType::Sequence(q) => q.ordering == Order::Any && q.length.spec_contains(
                items.len() as int,
            ) && multiple_ok(items.len() as int, q.multiple_of) && items_conform(
                env,
                q.element.target(),
                items,
                frames,
            ),
            AnyType::Struct(s) => items.len() == s.fields@.len() && row_conforms(
                env,
                field_targets(s.fields@),
                items,
                frames,
            ),
            AnyType::Range(r) => r.inclusion != Inclusion::Supplied && items.len() == 2
                && row_conforms(
                env,
                seq![r.element.target(), r.element.target()],
                items,
                frames,
            ) && match (number_of(items[0]), number_of(items[1])) {
                (Some(a), Some(b)) => range_ok(
                    r.allow_empty,
                    fixed_inclusion(r.inclusion).0,
                    fixed_inclusion(r.inclusion).1,
                    int_order(a, b),
                ),
                _ => false,
            },
            AnyType::RootMap(m) => items.len() == 2 && match items[1] {
                ValueView::List(entries) => entries.len() <= u32::MAX && m.length.spec_contains(
                    entries.len() as int,
                ) && row_conforms(
                    env,
                    seq![m.root.target()],
                    items.take(1),
                    frames.push(entries.len() as u32),
                ) && entries_conform(
                    env,
                    m.key.target(),
                    m.value.target(),
                    m.sorting,
                    entries,
                    frames.push(entries.len() as u32),
                ),
                _ => false,
            },
            _ => false,
        },
    }
}

/// Whether each value of a row conforms to the type of its place.
pub open spec fn row_conforms(
    env: Env,
    targets: Seq<RefTarget>,
    items: Seq<ValueView>,
    frames: Seq<u32>,
) -> bool
    decreases items, 0nat,
{
    items.len() > 0 ==> items.len() <= targets.len() && row_conforms(
        env,
        targets,
        items.drop_last(),
        frames,
    ) && conforms(env, targets[items.len() - 1], items.last(), frames)
}

/// Whether each value of a row conforms to one type.
pub open spec fn items_conform(
    env: Env,
    element: RefTarget,
    items: Seq<ValueView>,
    frames: Seq<u32>,
) -> bool
    decreases items, 0nat,
{
    items.len() > 0 ==> items_conform(env, element, items.drop_last(), frames) && conforms(
        env,
        element,
        items.last(),
        frames,
    )
}

/// Whether each value of a row is an entry of a map with integer keys: a
/// pair of a key and a value that conform, with a key that comes behind the
/// key before it in the direction of the sorting.
pub open spec fn entries_conform(
    env: Env,
    key: RefTarget,
    value: RefTarget,
    sorting: Sorting,
    entries: Seq<ValueView>,
    frames: Seq<u32>,
) -> bool
    decreases entries, 0nat,
{
    entries.len() > 0 ==> entries_conform(env, key, value, sorting, entries.drop_last(), frames)
        && entry_number(entries.last()) is Some && row_conforms(
        env,
        seq![key, value],
        entries.last()->List_0,
        frames,
    ) && (entries.len() >= 2 ==> (entry_number(entries[entries.len() - 2]) matches Some(a)
        && key_step_ok(sorting, int_order(a, entry_number(entries.last()).unwrap()))))
}

/// What the bytes of a logical value are read as: the header that belongs
/// to its kind, and behind it the values that it holds.
pub proof fn lemma_value_at_parts(data: Seq<u8>, pos: int)
    requires
        value_at(data, pos) is Some,
    ensures
        ({
            let (v, e) = value_at(data, pos).unwrap();
            match v {
                ValueView::Bool(b) => bool_at(data, pos) == Some((b, e)),
                ValueView::UInt(n) => uint_at(data, pos) == Some((n as nat, e)),
                ValueView::SInt(n) => sint_at(data, pos) == Some((n as int, e)),
                ValueView::Float(f) => float_at(data, pos) == Some((f, e)),
                ValueView::Unicode(s) => unicode_at(data, pos) == Some((s, e)),
                ValueView::Binary(_) => true,
                ValueView::Option(None) => presence_at(data, pos) == Some((Presence::Absent, e)),
                ValueView::Option(Some(b)) => presence_at(data, pos) matches Some(
                    (Presence::Present, p),
                ) && pos < p <= data.len() && value_at(data, p) == Some((*b, e)),
                ValueView::List(items) => seq_header_at(data, pos) matches Some((n, p)) && n
                    == items.len() && pos < p <= data.len() && values_at(data, p, n as nat)
                    == Some((items, e)),
                ValueView::Enum(ordinal, items) => enum_header_at(data, pos) matches Some(
                    (h, p),
                ) && h.ordinal == ordinal && h.number_of_values == items.len() && pos < p
                    <= data.len() && values_at(data, p, h.number_of_values as nat) == Some(
                    (items, e),
                ),
            }
        }),
{
    let (v, e) = value_at(data, pos).unwrap();
    match v {
        ValueView::List(items) => {
            let (n, p) = seq_header_at(data, pos).unwrap();
            lemma_values_at_bounds(data, p, n as nat);
        },
        ValueView::Enum(ordinal, items) => {
            let (h, p) = enum_header_at(data, pos).unwrap();
            lemma_values_at_bounds(data, p, h.number_of_values as nat);
        },
        _ => {},
    }
}

/// The bytes of a row of logical values are the bytes of the row without
/// its last value, and behind them the bytes of the last value.
pub proof fn lemma_values_at_last(data: Seq<u8>, first: int, k: nat)
    requires
        k > 0,
        values_at(data, first, k) is Some,
        first <= data.len(),
    ensures
        ({
            let (items, e) = values_at(data, first, k).unwrap();
            &&& items.len() == k
            &&& values_at(data, first, (k - 1) as nat) matches Some((before, p))
            &&& before == items.drop_last()
            &&& first <= p <= data.len()
            &&& value_at(data, p) == Some((items.last(), e))
        }),
{
    let (before, p) = values_at(data, first, (k - 1) as nat).unwrap();
    let (v, e) = value_at(data, p).unwrap();
    assert(before.push(v).drop_last() =~= before);
    lemma_values_at_bounds(data, first, k);
}

/// The key of an integer that conforms to its type is the integer.
pub proof fn lemma_number_key(env: Env, r: RefTarget, data: Seq<u8>, pos: int, frames: Seq<u32>)
    requires
        value_at(data, pos) is Some,
        conforms(env, r, value_at(data, pos).unwrap().0, frames),
        number_of(value_at(data, pos).unwrap().0) is Some,
    ensures
        key_at(loose(env), r, data, pos) == Ok::<(Key, int), ErrorKind>(
            (Key::Int(number_of(value_at(data, pos).unwrap().0).unwrap()), value_at(data, pos).unwrap().1),
        ),
{
    lemma_value_at_parts(data, pos);
}

/// A logical value that conforms to a type is valid under it: validating
/// its bytes ends where reading them ends.
pub proof fn lemma_conforming_is_valid(
    env: Env,
    r: RefTarget,
    data: Seq<u8>,
    pos: int,
    frames: Seq<u32>,
)
    requires
        value_at(data, pos) is Some,
        conforms(env, r, value_at(data, pos).unwrap().0, frames),
    ensures
        validate_at(env, r, data, pos, frames) == Ok::<int, ErrorKind>(
            value_at(data, pos).unwrap().1,
        ),
    decreases data.len() - pos, 2nat, 0nat,
{
    lemma_conforming_type_is_valid(env, resolve_in(env, r).unwrap(), data, pos, frames);
}

/// A logical value that conforms to a type is valid under it, for a type.
pub proof fn lemma_conforming_type_is_valid(
    env: Env,
    t: AnyType,
    data: Seq<u8>,
    pos: int,
    frames: Seq<u32>,
)
    requires
        value_at(data, pos) is Some,
        conforms_type(env, t, value_at(data, pos).unwrap().0, frames),
    ensures
        validate_type(env, t, data, pos, frames) == Ok::<int, ErrorKind>(
            value_at(data, pos).unwrap().1,
        ),
    decreases data.len() - pos, 1nat, 0nat,
{
    lemma_value_at_parts(data, pos);
    lemma_value_at(data, pos);
    let (v, e) = value_at(data, pos).unwrap();
    match t {
        AnyType::Ascii(a) => {
            let s = v->Unicode_0;
            encode_utf8_valid_utf8(s);
            encode_utf8_decode_utf8(s);
            crate::types::unicode::lemma_unicode_at(data, pos);
            let body = leaf_at(crate::major_types::TYPE_UNICODE, data, pos).unwrap().0;
            decode_utf8_encode_utf8(body);
        },
        AnyType::Option(o) => {
            match v {
                ValueView::Option(Some(b)) => {
                    let p = presence_at(data, pos).unwrap().1;
                    lemma_conforming_is_valid(env, o.inner.target(), data, p, frames);
                },
                _ => {},
            }
        },
        AnyType::Sequence(q) => {
            let (n, p) = seq_header_at(data, pos).unwrap();
            lemma_items_valid(env, q.element.target(), data, p, n as nat, frames);
        },
        AnyType::Struct(s) => {
            let (n, p) = seq_header_at(data, pos).unwrap();
            lemma_row_valid(env, field_targets(s.fields@), data, p, n as nat, frames);
        },
        AnyType::Enum(en) => {
            let (h, p) = enum_header_at(data, pos).unwrap();
            let values = en.variants@[h.ordinal as int].values@;
            lemma_row_valid(env, targets_of(values), data, p, h.number_of_values as nat, frames);
        },
        AnyType::Range(r) => {
            lemma_conforming_range_is_valid(env, r, data, pos, frames);
        },
        AnyType::RootMap(m) => {
            lemma_conforming_root_map_is_valid(env, m, data, pos, frames);
        },
        _ => {},
    }
}

/// A range of two integers that conforms to its type is valid under it.
pub proof fn lemma_conforming_range_is_valid(
    env: Env,
    r: crate::schema::types::range::TRange,
    data: Seq<u8>,
    pos: int,
    frames: Seq<u32>,
)
    requires
        value_at(data, pos) is Some,
        conforms_type(env, AnyType::Range(r), value_at(data, pos).unwrap().0, frames),
    ensures
        crate::schema::rules::range_valid_at(env, r, data, pos, frames) == Ok::<int, ErrorKind>(
            value_at(data, pos).unwrap().1,
        ),
    decreases data.len() - pos, 0nat, 1nat,
{
    lemma_value_at_parts(data, pos);
    let (v, e) = value_at(data, pos).unwrap();
    let items = v->List_0;
    let (n, p) = seq_header_at(data, pos).unwrap();
    let targets = seq![r.element.target(), r.element.target()];
    lemma_values_at_last(data, p, 2);
    let (before, q) = values_at(data, p, 1).unwrap();
    lemma_values_at_last(data, p, 1);
    assert(values_at(data, p, 0) == Some((Seq::<ValueView>::empty(), p)));
    assert(value_at(data, p) == Some((items[0], q))) by {
        assert(before.last() == items[0]);
    }
    assert(conforms(env, r.element.target(), items[0], frames)) by {
        assert(row_conforms(env, targets, items.drop_last(), frames));
        assert(items.drop_last().last() == items[0]);
        assert(targets[0] == r.element.target());
    }
    assert(conforms(env, r.element.target(), items[1], frames)) by {
        assert(items.last() == items[1]);
        assert(targets[1] == r.element.target());
    }
    lemma_conforming_is_valid(env, r.element.target(), data, p, frames);
    crate::value::lemma_value_at_bounds(data, p);
    lemma_conforming_is_valid(env, r.element.target(), data, q, frames);
    lemma_number_key(env, r.element.target(), data, p, frames);
    lemma_number_key(env, r.element.target(), data, q, frames);
}

/// A root map with integer keys that conforms to its type is valid under
/// it.
pub proof fn lemma_conforming_root_map_is_valid(
    env: Env,
    m: crate::schema::types::root_map::TRootMap,
    data: Seq<u8>,
    pos: int,
    frames: Seq<u32>,
)
    requires
        value_at(data, pos) is Some,
        conforms_type(env, AnyType::RootMap(m), value_at(data, pos).unwrap().0, frames),
    ensures
        crate::schema::rules::root_map_valid_at(env, m, data, pos, frames) == Ok::<
            int,
            ErrorKind,
        >(value_at(data, pos).unwrap().1),
    decreases data.len() - pos, 0nat, 1nat,
{
    lemma_value_at_parts(data, pos);
    let (v, e) = value_at(data, pos).unwrap();
    let items = v->List_0;
    let entries = items[1]->List_0;
    let (outer, p) = seq_header_at(data, pos).unwrap();
    lemma_values_at_last(data, p, 2);
    let (before, behind_root) = values_at(data, p, 1).unwrap();
    lemma_values_at_last(data, p, 1);
    assert(values_at(data, p, 0) == Some((Seq::<ValueView>::empty(), p)));
    assert(value_at(data, p) == Some((items[0], behind_root))) by {
        assert(before.last() == items[0]);
    }
    assert(value_at(data, behind_root) == Some((items[1], e))) by {
        assert(items.last() == items[1]);
    }
    lemma_value_at(data, p);
    lemma_value_at_parts(data, behind_root);
    let (n, q) = seq_header_at(data, behind_root).unwrap();
    let inner = frames.push(entries.len() as u32);
    assert(conforms(env, m.root.target(), items[0], inner)) by {
        assert(items.take(1).last() == items[0]);
        assert(seq![m.root.target()][0] == m.root.target());
    }
    lemma_conforming_is_valid(env, m.root.target(), data, p, inner);
    lemma_entries_valid(env, m.key.target(), m.value.target(), m.sorting, data, q, n as nat, inner);
}

/// The values of a row that conform to the types of their places are valid
/// in a row.
pub proof fn lemma_row_valid(
    env: Env,
    targets: Seq<RefTarget>,
    data: Seq<u8>,
    first: int,
    k: nat,
    frames: Seq<u32>,
)
    requires
        0 <= first <= data.len(),
        values_at(data, first, k) is Some,
        row_conforms(env, targets, values_at(data, first, k).unwrap().0, frames),
    ensures
        refs_valid_at(env, targets, data, first, k, frames) == Ok::<int, ErrorKind>(
            values_at(data, first, k).unwrap().1,
        ),
    decreases data.len() - first, 3nat, k,
{
    if k > 0 {
        lemma_values_at_last(data, first, k);
        let j = (k - 1) as nat;
        lemma_row_valid(env, targets, data, first, j, frames);
        let p = values_at(data, first, j).unwrap().1;
        lemma_conforming_is_valid(env, targets[k - 1], data, p, frames);
    }
}

/// The values of a row that conform to one type are valid elements of a
/// sequence in any order.
pub proof fn lemma_items_valid(
    env: Env,
    element: RefTarget,
    data: Seq<u8>,
    first: int,
    k: nat,
    frames: Seq<u32>,
)
    requires
        0 <= first <= data.len(),
        values_at(data, first, k) is Some,
        items_conform(env, element, values_at(data, first, k).unwrap().0, frames),
    ensures
        elements_valid_at(env, element, Order::Any, data, first, k, frames) is Ok,
        elements_valid_at(env, element, Order::Any, data, first, k, frames).unwrap().0
            == values_at(data, first, k).unwrap().1,
    decreases data.len() - first, 3nat, k,
{
    if k > 0 {
        lemma_values_at_last(data, first, k);
        let j = (k - 1) as nat;
        lemma_items_valid(env, element, data, first, j, frames);
        let p = values_at(data, first, j).unwrap().1;
        lemma_conforming_is_valid(env, element, data, p, frames);
    }
}

/// A pair of values that conform to two types is a sequence of two valid
/// values.
pub proof fn lemma_pair_valid(
    env: Env,
    key: RefTarget,
    value: RefTarget,
    data: Seq<u8>,
    pos: int,
    frames: Seq<u32>,
)
    requires
        value_at(data, pos) is Some,
        value_at(data, pos).unwrap().0 is List,
        value_at(data, pos).unwrap().0->List_0.len() == 2,
        row_conforms(env, seq![key, value], value_at(data, pos).unwrap().0->List_0, frames),
    ensures
        ({
            let (v, e) = value_at(data, pos).unwrap();
            let pair = v->List_0;
            &&& seq_header_at(data, pos) matches Some((n, q))
            &&& n == 2
            &&& pos < q <= data.len()
            &&& value_at(data, q) matches Some((first, behind))
            &&& first == pair[0]
            &&& q < behind <= data.len()
            &&& conforms(env, key, pair[0], frames)
            &&& validate_at(env, key, data, q, frames) == Ok::<int, ErrorKind>(behind)
            &&& validate_at(env, value, data, behind, frames) == Ok::<int, ErrorKind>(e)
        }),
    decreases data.len() - pos, 0nat, 1nat,
{
    lemma_value_at_parts(data, pos);
    let (v, e) = value_at(data, pos).unwrap();
    let pair = v->List_0;
    let (n, q) = seq_header_at(data, pos).unwrap();
    lemma_values_at_last(data, q, 2);
    let (before, behind) = values_at(data, q, 1).unwrap();
    lemma_values_at_last(data, q, 1);
    assert(values_at(data, q, 0) == Some((Seq::<ValueView>::empty(), q)));
    assert(before.last() == pair[0]);
    assert(value_at(data, q) == Some((pair[0], behind)));
    let targets = seq![key, value];
    assert(targets[0] == key && targets[1] == value);
    assert(row_conforms(env, targets, pair.drop_last(), frames));
    assert(pair.drop_last().last() == pair[0]);
    assert(pair.last() == pair[1]);
    lemma_conforming_is_valid(env, key, data, q, frames);
    crate::value::lemma_value_at_bounds(data, q);
    lemma_conforming_is_valid(env, value, data, behind, frames);
}

/// The entries of a row that conform are valid entries of a map.
pub proof fn lemma_entries_valid(
    env: Env,
    key: RefTarget,
    value: RefTarget,
    sorting: Sorting,
    data: Seq<u8>,
    first: int,
    k: nat,
    frames: Seq<u32>,
)
    requires
        0 <= first <= data.len(),
        values_at(data, first, k) is Some,
        entries_conform(env, key, value, sorting, values_at(data, first, k).unwrap().0, frames),
    ensures
        entries_valid_at(env, key, value, sorting, data, first, k, frames) is Ok,
        entries_valid_at(env, key, value, sorting, data, first, k, frames).unwrap().0
            == values_at(data, first, k).unwrap().1,
        k > 0 ==> ({
            let entries = values_at(data, first, k).unwrap().0;
            let q = entries_valid_at(env, key, value, sorting, data, first, k, frames).unwrap().1;
            &&& value_at(data, q) is Some
            &&& number_of(value_at(data, q).unwrap().0) == entry_number(entries.last())
            &&& conforms(env, key, value_at(data, q).unwrap().0, frames)
        }),
    decreases data.len() - first, 3nat, k,
{
    if k > 0 {
        lemma_values_at_last(data, first, k);
        let j = (k - 1) as nat;
        let entries = values_at(data, first, k).unwrap().0;
        lemma_entries_valid(env, key, value, sorting, data, first, j, frames);
        let (p, previous) = entries_valid_at(env, key, value, sorting, data, first, j, frames).unwrap();
        assert(value_at(data, p) == Some((entries.last(), values_at(data, first, k).unwrap().1)));
        lemma_pair_valid(env, key, value, data, p, frames);
        let q = seq_header_at(data, p).unwrap().1;
        lemma_number_key(env, key, data, q, frames);
        if k >= 2 {
            assert(entries.drop_last().last() == entries[k - 2]);
            lemma_number_key(env, key, data, previous, frames);
        }
    }
}

} // verus!
