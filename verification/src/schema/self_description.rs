//! Self-description: the document of the schema of schemas is valid under
//! the schema of schemas.

use crate::error::ErrorKind;
use crate::identifier::{
    identifier_text_valid, identifier_valid, is_segment_char, segment_valid, split_segments,
};
use crate::schema::any_type::AnyType;
use crate::schema::conform::{
    conforms, conforms_type, entries_conform, entry_number, items_conform,
    lemma_conforming_is_valid, row_conforms,
};
use crate::schema::container::{name_texts, TypeContainer};
use crate::schema::document::{
    case_view, codes_view, identifier_view, kind_ordinal, meta_views, pair_view, parameters_view,
    reference_view, schema_view, text_view, type_view, unsigned_range_view, signed_range_view,
    entry_view, collected, field_view, variant_view, maybe_number_view, flags_views, order_view,
    sorting_view, inclusion_view, length_type_view,
};
use crate::schema::metadata::Meta;
use crate::schema::rules::{field_targets, resolve_in, targets_of, validate_at, Env};
use crate::identifier::lemma_snake_case_is_identifier;
use crate::schema::schema_schema::{
    ascii_record, binary_record, bool_record, decimal_record, enum_record, f32_record,
    f64_record, float_record, key_ref_record, map_record, option_record, range_record,
    root_map_record, seq_record, sint_record, struct_record, uint_record, unicode_record,
    uuid_record,
};
use vstd::string::*;
use crate::schema::schema_schema::{
    any_type_count, any_type_shape, any_type_shapes, cases_shape, documented, is_schema_of_schemas,
    kind_count, kind_id, kind_shapes, kind_start, own_shapes, schema_names, schema_shapes,
    shapes_from, sorting_shape,
};
use crate::schema::shapes::{at_index, named, shaped, Shape};
use crate::schema::type_ref::RefTarget;
use crate::schema::types::ascii::{code_allowed, code_allowed_from};
use crate::types::float::Float;
use crate::value::{all_encodable, encodable, lemma_value_at_of_bytes, value_bytes, ValueView};
use vstd::prelude::*;
use vstd::utf8::*;

verus! {

/// Whether a logical value can be written and conforms to the type with the
/// given index.
pub open spec fn fits(env: Env, index: int, v: ValueView, frames: Seq<u32>) -> bool {
    &&& 0 <= index <= u32::MAX
    &&& encodable(v)
    &&& conforms(env, RefTarget::Index(index as u32), v, frames)
}

/// Whether the types of a schema have the shapes of the schema of schemas.
pub open spec fn described(env: Env) -> bool {
    &&& env.types.len() == schema_shapes().len()
    &&& forall|i: int|
        0 <= i < env.types.len() ==> shaped(#[trigger] env.types[i], schema_shapes()[i])
}

/// A row whose values conform each to the type of its place conforms.
pub proof fn lemma_row_conforms_all(
    env: Env,
    targets: Seq<RefTarget>,
    items: Seq<ValueView>,
    frames: Seq<u32>,
)
    requires
        items.len() <= targets.len(),
        forall|i: int| 0 <= i < items.len() ==> conforms(env, targets[i], #[trigger] items[i], frames),
    ensures
        row_conforms(env, targets, items, frames),
    decreases items.len(),
{
    if items.len() > 0 {
        let before = items.drop_last();
        assert forall|i: int| 0 <= i < before.len() implies conforms(
            env,
            targets[i],
            #[trigger] before[i],
            frames,
        ) by {
            assert(before[i] == items[i]);
        }
        lemma_row_conforms_all(env, targets, before, frames);
        assert(conforms(env, targets[items.len() - 1], items[items.len() - 1], frames));
    }
}

/// A row whose values all conform to one type conforms.
pub proof fn lemma_items_conform_all(
    env: Env,
    element: RefTarget,
    items: Seq<ValueView>,
    frames: Seq<u32>,
)
    requires
        forall|i: int| 0 <= i < items.len() ==> conforms(env, element, #[trigger] items[i], frames),
    ensures
        items_conform(env, element, items, frames),
    decreases items.len(),
{
    if items.len() > 0 {
        let before = items.drop_last();
        assert forall|i: int| 0 <= i < before.len() implies conforms(
            env,
            element,
            #[trigger] before[i],
            frames,
        ) by {
            assert(before[i] == items[i]);
        }
        lemma_items_conform_all(env, element, before, frames);
        assert(conforms(env, element, items[items.len() - 1], frames));
    }
}

/// A row whose values can all be written can be written.
pub proof fn lemma_all_encodable_all(items: Seq<ValueView>)
    requires
        forall|i: int| 0 <= i < items.len() ==> encodable(#[trigger] items[i]),
    ensures
        all_encodable(items),
    decreases items.len(),
{
    if items.len() > 0 {
        let before = items.drop_last();
        assert forall|i: int| 0 <= i < before.len() implies encodable(#[trigger] before[i]) by {
            assert(before[i] == items[i]);
        }
        lemma_all_encodable_all(before);
        assert(encodable(items[items.len() - 1]));
    }
}

/// A text that may be missing fits an option of a text of any length.
pub proof fn lemma_text_fits(env: Env, b: int, text: Option<String>, frames: Seq<u32>)
    requires
        0 <= b,
        b + 1 < env.types.len(),
        b + 1 <= u32::MAX,
        shaped(env.types[b], Shape::Text),
        shaped(env.types[b + 1], Shape::Maybe(b)),
        text matches Some(t) ==> encode_utf8(t@).len() <= u64::MAX,
    ensures
        fits(env, b + 1, text_view(text), frames),
{
    let index = RefTarget::Index((b + 1) as u32);
    assert(resolve_in(env, index) == Some(env.types[b + 1]));
    match text {
        Some(t) => {
            let inner = env.types[b + 1]->Option_0.inner.target();
            assert(inner == RefTarget::Index(b as u32));
            assert(resolve_in(env, inner) == Some(env.types[b]));
            let held = ValueView::Unicode(t@);
            assert(conforms_type(env, env.types[b], held, frames));
            assert(conforms(env, inner, held, frames));
            assert(encodable(held));
            let whole = ValueView::Option(Some(Box::new(held)));
            assert(text_view(text) == whole);
            assert(conforms_type(env, env.types[b + 1], whole, frames));
            assert(encodable(whole));
        },
        None => {},
    }
}

/// An index below the number of keys fits a key reference.
pub proof fn lemma_reference_fits(env: Env, at: int, i: int, frames: Seq<u32>)
    requires
        0 <= at < env.types.len(),
        at <= u32::MAX,
        shaped(env.types[at], Shape::Reference),
        frames.len() > 0,
        0 <= i < frames.last(),
    ensures
        fits(env, at, ValueView::UInt(i as u128), frames),
{
    assert(resolve_in(env, RefTarget::Index(at as u32)) == Some(env.types[at]));
}

/// A boolean fits the type of booleans.
pub proof fn lemma_flag_fits(env: Env, at: int, b: bool, frames: Seq<u32>)
    requires
        0 <= at < env.types.len(),
        at <= u32::MAX,
        shaped(env.types[at], Shape::Flag),
    ensures
        fits(env, at, ValueView::Bool(b), frames),
{
    assert(resolve_in(env, RefTarget::Index(at as u32)) == Some(env.types[at]));
}

/// An unsigned number fits the type of the unsigned numbers of a range
/// that holds it.
pub proof fn lemma_unsigned_fits(env: Env, at: int, low: int, high: int, n: int, frames: Seq<u32>)
    requires
        0 <= at < env.types.len(),
        at <= u32::MAX,
        shaped(env.types[at], Shape::Unsigned(low, high)),
        0 <= low <= n <= high,
        n <= u128::MAX,
    ensures
        fits(env, at, ValueView::UInt(n as u128), frames),
{
    assert(resolve_in(env, RefTarget::Index(at as u32)) == Some(env.types[at]));
}

/// The case of an ordinal fits an enumeration of that many variants or
/// more, none of which has a value.
pub proof fn lemma_case_fits(
    env: Env,
    at: int,
    names: Seq<Seq<char>>,
    ordinal: int,
    frames: Seq<u32>,
)
    requires
        0 <= at < env.types.len(),
        at <= u32::MAX,
        shaped(env.types[at], cases_shape(names)),
        0 <= ordinal < names.len(),
        ordinal <= u32::MAX,
    ensures
        fits(env, at, case_view(ordinal as u32), frames),
{
    assert(resolve_in(env, RefTarget::Index(at as u32)) == Some(env.types[at]));
    let e = env.types[at]->Enum_0;
    let shape = cases_shape(names)->Choice_0;
    assert(shape[ordinal].1.len() == 0);
    assert(e.variants@[ordinal].values@.len() == 0);
    let none = Seq::<ValueView>::empty();
    assert(row_conforms(env, targets_of(e.variants@[ordinal].values@), none, frames));
    assert(case_view(ordinal as u32) == ValueView::Enum(ordinal as u32, none));
    assert(conforms_type(env, env.types[at], ValueView::Enum(ordinal as u32, none), frames));
    assert(all_encodable(none));
}

/// A range of unsigned numbers fits the type of the ranges of a type of
/// unsigned numbers that holds its start and its end.
pub proof fn lemma_unsigned_range_fits(
    env: Env,
    at: int,
    element: int,
    low: int,
    high: int,
    start: int,
    end: int,
    frames: Seq<u32>,
)
    requires
        0 <= at < env.types.len(),
        0 <= element < env.types.len(),
        at <= u32::MAX,
        shaped(env.types[at], Shape::Span(element)),
        shaped(env.types[element], Shape::Unsigned(low, high)),
        0 <= low <= start <= end <= high,
        end <= u128::MAX,
    ensures
        fits(env, at, unsigned_range_view(start, end), frames),
{
    assert(resolve_in(env, RefTarget::Index(at as u32)) == Some(env.types[at]));
    let r = env.types[at]->Range_0;
    let target = r.element.target();
    assert(target == RefTarget::Index(element as u32));
    assert(resolve_in(env, target) == Some(env.types[element]));
    let items = seq![ValueView::UInt(start as u128), ValueView::UInt(end as u128)];
    let targets = seq![target, target];
    assert(conforms(env, target, items[0], frames));
    assert(conforms(env, target, items[1], frames));
    assert forall|i: int| 0 <= i < items.len() implies conforms(
        env,
        targets[i],
        #[trigger] items[i],
        frames,
    ) by {}
    lemma_row_conforms_all(env, targets, items, frames);
    lemma_all_encodable_all(items);
}

/// A range of signed numbers fits the type of the ranges of a type of
/// signed numbers that holds its start and its end.
pub proof fn lemma_signed_range_fits(
    env: Env,
    at: int,
    element: int,
    low: int,
    high: int,
    start: int,
    end: int,
    frames: Seq<u32>,
)
    requires
        0 <= at < env.types.len(),
        0 <= element < env.types.len(),
        at <= u32::MAX,
        shaped(env.types[at], Shape::Span(element)),
        shaped(env.types[element], Shape::Signed(low, high)),
        low <= start <= end <= high,
        i128::MIN <= start,
        end <= i128::MAX,
    ensures
        fits(env, at, signed_range_view(start, end), frames),
{
    assert(resolve_in(env, RefTarget::Index(at as u32)) == Some(env.types[at]));
    let r = env.types[at]->Range_0;
    let target = r.element.target();
    assert(target == RefTarget::Index(element as u32));
    assert(resolve_in(env, target) == Some(env.types[element]));
    let items = seq![ValueView::SInt(start as i128), ValueView::SInt(end as i128)];
    let targets = seq![target, target];
    assert(conforms(env, target, items[0], frames));
    assert(conforms(env, target, items[1], frames));
    assert forall|i: int| 0 <= i < items.len() implies conforms(
        env,
        targets[i],
        #[trigger] items[i],
        frames,
    ) by {}
    lemma_row_conforms_all(env, targets, items, frames);
    lemma_all_encodable_all(items);
}

/// A segment fits the type of segments: an ASCII text of 1 to 30
/// characters out of `0-9` and `a-z`.
pub proof fn lemma_segment_fits(env: Env, at: int, segment: Seq<char>, frames: Seq<u32>)
    requires
        0 <= at < env.types.len(),
        at <= u32::MAX,
        shaped(env.types[at], Shape::Codes(1, 30, seq![48u8, 58u8, 97u8, 123u8])),
        segment_valid(segment),
    ensures
        fits(env, at, ValueView::Unicode(segment), frames),
{
    assert(resolve_in(env, RefTarget::Index(at as u32)) == Some(env.types[at]));
    assert forall|i: int| 0 <= i < segment.len() implies '\0' <= #[trigger] segment[i]
        <= '\u{7f}' by {
        assert(is_segment_char(segment[i]));
    }
    is_ascii_chars_encode_utf8(segment);
    let bytes = encode_utf8(segment);
    let codes = seq![48u8, 58u8, 97u8, 123u8];
    assert forall|i: int| 0 <= i < bytes.len() implies code_allowed(codes, #[trigger] bytes[i]) by {
        assert(is_segment_char(segment[i]));
        assert(segment[i] as u8 == bytes[i]);
        assert(code_allowed_from(codes, bytes[i], 1) || (codes[0] <= bytes[i] < codes[1]));
    }
}

/// An identifier fits the type of identifiers: a sequence of 1 to 12
/// segments.
pub proof fn lemma_identifier_fits(env: Env, at: int, segments: Seq<Seq<char>>, frames: Seq<u32>)
    requires
        1 <= at < env.types.len(),
        at <= u32::MAX,
        shaped(env.types[at - 1], Shape::Codes(1, 30, seq![48u8, 58u8, 97u8, 123u8])),
        shaped(env.types[at], Shape::Row(at - 1, 1, 12, None)),
        identifier_valid(segments),
    ensures
        fits(env, at, identifier_view(segments), frames),
{
    assert(resolve_in(env, RefTarget::Index(at as u32)) == Some(env.types[at]));
    let q = env.types[at]->Sequence_0;
    let element = q.element.target();
    assert(element == RefTarget::Index((at - 1) as u32));
    let items = Seq::new(segments.len(), |i: int| ValueView::Unicode(segments[i]));
    assert forall|i: int| 0 <= i < items.len() implies conforms(
        env,
        element,
        #[trigger] items[i],
        frames,
    ) && encodable(items[i]) by {
        lemma_segment_fits(env, at - 1, segments[i], frames);
    }
    lemma_items_conform_all(env, element, items, frames);
    lemma_all_encodable_all(items);
}

/// The number of the shapes of a kind of type.
pub proof fn lemma_kind_shapes_len(k: int, base: int)
    requires
        0 <= k < kind_count(),
    ensures
        kind_shapes(k, base).len() == kind_start(k + 1) - kind_start(k),
{
}

/// Where the shapes of a kind of type stand among the shapes from an
/// earlier kind on.
pub proof fn lemma_shapes_from_at(first: int, k: int, j: int)
    requires
        0 <= first <= k < kind_count(),
        0 <= j < kind_start(k + 1) - kind_start(k),
    ensures
        kind_start(k) - kind_start(first) + j < shapes_from(first, 0).len(),
        shapes_from(first, 0)[kind_start(k) - kind_start(first) + j] == kind_shapes(
            k,
            kind_start(k),
        )[j],
    decreases k - first,
{
    lemma_kind_shapes_len(first, kind_start(first));
    crate::schema::schema_schema::lemma_shapes_count(first + 1, 0);
    if first < k {
        lemma_shapes_from_at(first + 1, k, j);
    }
}

/// Where the shapes of the schema of schemas stand: those of a kind of type
/// from the start of the kind on, that of the type of all types behind the
/// kinds, and those of the schema itself behind it.
pub proof fn lemma_schema_shapes()
    ensures
        schema_shapes().len() == any_type_count() + 6,
        any_type_count() == 112,
        schema_shapes()[111] == any_type_shape(0),
        schema_shapes()[112] == Shape::Codes(1, 30, seq![48u8, 58u8, 97u8, 123u8]),
        schema_shapes()[113] == Shape::Row(112, 1, 12, None),
        schema_shapes()[114] == Shape::Record(seq![("name"@, 113int), ("type"@, 111int)]),
        schema_shapes()[115] == Shape::Unsigned(0, u32::MAX as int),
        schema_shapes()[116] == Shape::Reference,
        schema_shapes()[117] == Shape::Root(116, 115, 114),
        forall|k: int, j: int|
            0 <= k < kind_count() && 0 <= j < kind_start(k + 1) - kind_start(k)
                ==> #[trigger] schema_shapes()[kind_start(k) + j] == kind_shapes(
                k,
                kind_start(k),
            )[j],
{
    crate::schema::schema_schema::lemma_shapes_count(0, 0);
    crate::schema::schema_schema::lemma_shapes_count(kind_count(), 0);
    let all = any_type_shapes(0);
    let own = own_shapes();
    assert(own.len() == 6);
    assert(all.len() == 112);
    assert forall|k: int, j: int|
        0 <= k < kind_count() && 0 <= j < kind_start(k + 1) - kind_start(k)
        implies #[trigger] schema_shapes()[kind_start(k) + j] == kind_shapes(k, kind_start(k))[j] by {
        lemma_shapes_from_at(0, k, j);
    }
    lemma_last_shape(0);
}

/// The last of the shapes from a kind on is that of the type of all types.
pub proof fn lemma_last_shape(first: int)
    requires
        0 <= first <= kind_count(),
    ensures
        shapes_from(first, 0).len() == kind_start(kind_count()) - kind_start(first) + 1,
        shapes_from(first, 0)[kind_start(kind_count()) - kind_start(first)] == any_type_shape(0),
    decreases kind_count() - first,
{
    crate::schema::schema_schema::lemma_shapes_count(first, 0);
    if first < kind_count() {
        lemma_kind_shapes_len(first, kind_start(first));
        lemma_last_shape(first + 1);
    }
}

/// Whether a shape is that of a type of a schema of 118 types that has a
/// document: its references are indexes of types, its ranges are not empty,
/// and its names are identifiers.
pub open spec fn sound(s: Shape) -> bool {
    match s {
        Shape::Maybe(i) => 0 <= i < 118,
        Shape::Span(i) => 0 <= i < 118,
        Shape::Row(i, least, most, _) => 0 <= i < 118 && 0 <= least <= most <= u32::MAX,
        Shape::Unsigned(a, b) => 0 <= a <= b <= u128::MAX,
        Shape::Signed(a, b) => i128::MIN <= a <= b <= i128::MAX,
        Shape::Record(fields) => fields.len() <= 100 && forall|i: int|
            0 <= i < fields.len() ==> identifier_text_valid((#[trigger] fields[i]).0) && 0
                <= fields[i].1 < 118,
        Shape::Choice(variants) => variants.len() <= 100 && forall|v: int|
            0 <= v < variants.len() ==> identifier_text_valid((#[trigger] variants[v]).0)
                && variants[v].1.len() <= 100 && forall|k: int|
                0 <= k < variants[v].1.len() ==> 0 <= #[trigger] variants[v].1[k] < 118,
        Shape::Codes(least, most, codes) => 0 <= least <= most <= u64::MAX && codes.len() % 2
            == 0 && codes.len() <= 100 && forall|i: int|
            0 <= i < codes.len() ==> #[trigger] codes[i] <= 128,
        Shape::Root(root, key, value) => 0 <= root < 118 && 0 <= key < 118 && 0 <= value < 118,
        _ => true,
    }
}

/// The shapes of the types that describe the boolean type.
pub proof fn lemma_types_of_bool(env: Env)
    requires
        described(env),
    ensures
        env.types.len() == 118,
        shaped(env.types[0], Shape::Text),
        shaped(env.types[1], Shape::Maybe(0)),
        shaped(env.types[2], Shape::Record(bool_record(0))),
{
    lemma_schema_shapes();
    let shapes = kind_shapes(0, 0);
    assert(schema_shapes()[kind_start(0) + 0] == shapes[0]);
    assert(shapes[0] == Shape::Text);
    assert(schema_shapes()[kind_start(0) + 1] == shapes[1]);
    assert(shapes[1] == Shape::Maybe(0));
    assert(schema_shapes()[kind_start(0) + 2] == shapes[2]);
    assert(shapes[2] == Shape::Record(bool_record(0)));
}

/// The shapes of the types that describe the boolean type are sound.
pub proof fn lemma_sound_bool()
    ensures
        forall|j: int| 0 <= j < 3 ==> sound(#[trigger] schema_shapes()[0 + j]),
{
    lemma_schema_shapes();
    reveal_strlit("meta_doc");
    lemma_snake_case_is_identifier("meta_doc"@);
    reveal_strlit("meta_name");
    lemma_snake_case_is_identifier("meta_name"@);
    let shapes = kind_shapes(0, 0);
    assert(schema_shapes()[kind_start(0) + 0] == shapes[0]);
    assert(shapes[0] == Shape::Text);
    assert(sound(Shape::Text));
    assert(schema_shapes()[kind_start(0) + 1] == shapes[1]);
    assert(shapes[1] == Shape::Maybe(0));
    assert(sound(Shape::Maybe(0)));
    assert(schema_shapes()[kind_start(0) + 2] == shapes[2]);
    assert(shapes[2] == Shape::Record(bool_record(0)));
    assert(sound(Shape::Record(bool_record(0))));
    assert forall|j: int| 0 <= j < 3 implies sound(#[trigger] schema_shapes()[0 + j]) by {
        assert(j == 0 ==> schema_shapes()[0 + j] == shapes[0]);
        assert(j == 1 ==> schema_shapes()[0 + j] == shapes[1]);
        assert(j == 2 ==> schema_shapes()[0 + j] == shapes[2]);
    }
}

/// The shapes of the types that describe the option type.
pub proof fn lemma_types_of_option(env: Env)
    requires
        described(env),
    ensures
        env.types.len() == 118,
        shaped(env.types[3], Shape::Text),
        shaped(env.types[4], Shape::Maybe(3)),
        shaped(env.types[5], Shape::Reference),
        shaped(env.types[6], Shape::Record(option_record(3))),
{
    lemma_schema_shapes();
    let shapes = kind_shapes(1, 3);
    assert(schema_shapes()[kind_start(1) + 0] == shapes[0]);
    assert(shapes[0] == Shape::Text);
    assert(schema_shapes()[kind_start(1) + 1] == shapes[1]);
    assert(shapes[1] == Shape::Maybe(3));
    assert(schema_shapes()[kind_start(1) + 2] == shapes[2]);
    assert(shapes[2] == Shape::Reference);
    assert(schema_shapes()[kind_start(1) + 3] == shapes[3]);
    assert(shapes[3] == Shape::Record(option_record(3)));
}

/// The shapes of the types that describe the option type are sound.
pub proof fn lemma_sound_option()
    ensures
        forall|j: int| 0 <= j < 4 ==> sound(#[trigger] schema_shapes()[3 + j]),
{
    lemma_schema_shapes();
    reveal_strlit("meta_doc");
    lemma_snake_case_is_identifier("meta_doc"@);
    reveal_strlit("meta_name");
    lemma_snake_case_is_identifier("meta_name"@);
    reveal_strlit("type");
    lemma_snake_case_is_identifier("type"@);
    let shapes = kind_shapes(1, 3);
    assert(schema_shapes()[kind_start(1) + 0] == shapes[0]);
    assert(shapes[0] == Shape::Text);
    assert(sound(Shape::Text));
    assert(schema_shapes()[kind_start(1) + 1] == shapes[1]);
    assert(shapes[1] == Shape::Maybe(3));
    assert(sound(Shape::Maybe(3)));
    assert(schema_shapes()[kind_start(1) + 2] == shapes[2]);
    assert(shapes[2] == Shape::Reference);
    assert(sound(Shape::Reference));
    assert(schema_shapes()[kind_start(1) + 3] == shapes[3]);
    assert(shapes[3] == Shape::Record(option_record(3)));
    assert(sound(Shape::Record(option_record(3))));
    assert forall|j: int| 0 <= j < 4 implies sound(#[trigger] schema_shapes()[3 + j]) by {
        assert(j == 0 ==> schema_shapes()[3 + j] == shapes[0]);
        assert(j == 1 ==> schema_shapes()[3 + j] == shapes[1]);
        assert(j == 2 ==> schema_shapes()[3 + j] == shapes[2]);
        assert(j == 3 ==> schema_shapes()[3 + j] == shapes[3]);
    }
}

/// The shapes of the types that describe the sequence type.
pub proof fn lemma_types_of_seq(env: Env)
    requires
        described(env),
    ensures
        env.types.len() == 118,
        shaped(env.types[7], Shape::Text),
        shaped(env.types[8], Shape::Maybe(7)),
        shaped(env.types[9], Shape::Reference),
        shaped(env.types[10], Shape::Unsigned(0, u32::MAX as int)),
        shaped(env.types[11], Shape::Span(10)),
        shaped(env.types[12], sorting_shape()),
        shaped(env.types[13], Shape::Flag),
        shaped(env.types[14], Shape::Record(seq![("direction"@, 12), ("unique"@, 13)])),
        shaped(env.types[15], Shape::Choice(seq![("any"@, Seq::<int>::empty()), ("sorted"@, seq![14])])),
        shaped(env.types[16], Shape::Unsigned(0, u32::MAX as int)),
        shaped(env.types[17], Shape::Maybe(16)),
        shaped(env.types[18], Shape::Record(seq_record(7))),
{
    lemma_schema_shapes();
    let shapes = kind_shapes(2, 7);
    assert(schema_shapes()[kind_start(2) + 0] == shapes[0]);
    assert(shapes[0] == Shape::Text);
    assert(schema_shapes()[kind_start(2) + 1] == shapes[1]);
    assert(shapes[1] == Shape::Maybe(7));
    assert(schema_shapes()[kind_start(2) + 2] == shapes[2]);
    assert(shapes[2] == Shape::Reference);
    assert(schema_shapes()[kind_start(2) + 3] == shapes[3]);
    assert(shapes[3] == Shape::Unsigned(0, u32::MAX as int));
    assert(schema_shapes()[kind_start(2) + 4] == shapes[4]);
    assert(shapes[4] == Shape::Span(10));
    assert(schema_shapes()[kind_start(2) + 5] == shapes[5]);
    assert(shapes[5] == sorting_shape());
    assert(schema_shapes()[kind_start(2) + 6] == shapes[6]);
    assert(shapes[6] == Shape::Flag);
    assert(schema_shapes()[kind_start(2) + 7] == shapes[7]);
    assert(shapes[7] == Shape::Record(seq![("direction"@, 12), ("unique"@, 13)]));
    assert(schema_shapes()[kind_start(2) + 8] == shapes[8]);
    assert(shapes[8] == Shape::Choice(seq![("any"@, Seq::<int>::empty()), ("sorted"@, seq![14])]));
    assert(schema_shapes()[kind_start(2) + 9] == shapes[9]);
    assert(shapes[9] == Shape::Unsigned(0, u32::MAX as int));
    assert(schema_shapes()[kind_start(2) + 10] == shapes[10]);
    assert(shapes[10] == Shape::Maybe(16));
    assert(schema_shapes()[kind_start(2) + 11] == shapes[11]);
    assert(shapes[11] == Shape::Record(seq_record(7)));
}

/// The shapes of the types that describe the sequence type are sound.
pub proof fn lemma_sound_seq()
    ensures
        forall|j: int| 0 <= j < 12 ==> sound(#[trigger] schema_shapes()[7 + j]),
{
    lemma_schema_shapes();
    reveal_strlit("any");
    lemma_snake_case_is_identifier("any"@);
    reveal_strlit("ascending");
    lemma_snake_case_is_identifier("ascending"@);
    reveal_strlit("descending");
    lemma_snake_case_is_identifier("descending"@);
    reveal_strlit("direction");
    lemma_snake_case_is_identifier("direction"@);
    reveal_strlit("element");
    lemma_snake_case_is_identifier("element"@);
    reveal_strlit("length");
    lemma_snake_case_is_identifier("length"@);
    reveal_strlit("meta_doc");
    lemma_snake_case_is_identifier("meta_doc"@);
    reveal_strlit("meta_name");
    lemma_snake_case_is_identifier("meta_name"@);
    reveal_strlit("multiple_of");
    lemma_snake_case_is_identifier("multiple_of"@);
    reveal_strlit("ordering");
    lemma_snake_case_is_identifier("ordering"@);
    reveal_strlit("sorted");
    lemma_snake_case_is_identifier("sorted"@);
    reveal_strlit("unique");
    lemma_snake_case_is_identifier("unique"@);
    let shapes = kind_shapes(2, 7);
    assert(schema_shapes()[kind_start(2) + 0] == shapes[0]);
    assert(shapes[0] == Shape::Text);
    assert(sound(Shape::Text));
    assert(schema_shapes()[kind_start(2) + 1] == shapes[1]);
    assert(shapes[1] == Shape::Maybe(7));
    assert(sound(Shape::Maybe(7)));
    assert(schema_shapes()[kind_start(2) + 2] == shapes[2]);
    assert(shapes[2] == Shape::Reference);
    assert(sound(Shape::Reference));
    assert(schema_shapes()[kind_start(2) + 3] == shapes[3]);
    assert(shapes[3] == Shape::Unsigned(0, u32::MAX as int));
    assert(sound(Shape::Unsigned(0, u32::MAX as int)));
    assert(schema_shapes()[kind_start(2) + 4] == shapes[4]);
    assert(shapes[4] == Shape::Span(10));
    assert(sound(Shape::Span(10)));
    assert(schema_shapes()[kind_start(2) + 5] == shapes[5]);
    assert(shapes[5] == sorting_shape());
    assert(sound(sorting_shape()));
    assert(schema_shapes()[kind_start(2) + 6] == shapes[6]);
    assert(shapes[6] == Shape::Flag);
    assert(sound(Shape::Flag));
    assert(schema_shapes()[kind_start(2) + 7] == shapes[7]);
    assert(shapes[7] == Shape::Record(seq![("direction"@, 12), ("unique"@, 13)]));
    assert(sound(Shape::Record(seq![("direction"@, 12), ("unique"@, 13)])));
    assert(schema_shapes()[kind_start(2) + 8] == shapes[8]);
    assert(shapes[8] == Shape::Choice(seq![("any"@, Seq::<int>::empty()), ("sorted"@, seq![14])]));
    assert(sound(Shape::Choice(seq![("any"@, Seq::<int>::empty()), ("sorted"@, seq![14])])));
    assert(schema_shapes()[kind_start(2) + 9] == shapes[9]);
    assert(shapes[9] == Shape::Unsigned(0, u32::MAX as int));
    assert(sound(Shape::Unsigned(0, u32::MAX as int)));
    assert(schema_shapes()[kind_start(2) + 10] == shapes[10]);
    assert(shapes[10] == Shape::Maybe(16));
    assert(sound(Shape::Maybe(16)));
    assert(schema_shapes()[kind_start(2) + 11] == shapes[11]);
    assert(shapes[11] == Shape::Record(seq_record(7)));
    assert(sound(Shape::Record(seq_record(7))));
    assert forall|j: int| 0 <= j < 12 implies sound(#[trigger] schema_shapes()[7 + j]) by {
        assert(j == 0 ==> schema_shapes()[7 + j] == shapes[0]);
        assert(j == 1 ==> schema_shapes()[7 + j] == shapes[1]);
        assert(j == 2 ==> schema_shapes()[7 + j] == shapes[2]);
        assert(j == 3 ==> schema_shapes()[7 + j] == shapes[3]);
        assert(j == 4 ==> schema_shapes()[7 + j] == shapes[4]);
        assert(j == 5 ==> schema_shapes()[7 + j] == shapes[5]);
        assert(j == 6 ==> schema_shapes()[7 + j] == shapes[6]);
        assert(j == 7 ==> schema_shapes()[7 + j] == shapes[7]);
        assert(j == 8 ==> schema_shapes()[7 + j] == shapes[8]);
        assert(j == 9 ==> schema_shapes()[7 + j] == shapes[9]);
        assert(j == 10 ==> schema_shapes()[7 + j] == shapes[10]);
        assert(j == 11 ==> schema_shapes()[7 + j] == shapes[11]);
    }
}

/// The shapes of the types that describe the binary type are sound.
pub proof fn lemma_sound_binary()
    ensures
        forall|j: int| 0 <= j < 5 ==> sound(#[trigger] schema_shapes()[19 + j]),
{
    lemma_schema_shapes();
    reveal_strlit("length");
    lemma_snake_case_is_identifier("length"@);
    reveal_strlit("meta_doc");
    lemma_snake_case_is_identifier("meta_doc"@);
    reveal_strlit("meta_name");
    lemma_snake_case_is_identifier("meta_name"@);
    let shapes = kind_shapes(3, 19);
    assert(schema_shapes()[kind_start(3) + 0] == shapes[0]);
    assert(shapes[0] == Shape::Text);
    assert(sound(Shape::Text));
    assert(schema_shapes()[kind_start(3) + 1] == shapes[1]);
    assert(shapes[1] == Shape::Maybe(19));
    assert(sound(Shape::Maybe(19)));
    assert(schema_shapes()[kind_start(3) + 2] == shapes[2]);
    assert(shapes[2] == Shape::Unsigned(0, u64::MAX as int));
    assert(sound(Shape::Unsigned(0, u64::MAX as int)));
    assert(schema_shapes()[kind_start(3) + 3] == shapes[3]);
    assert(shapes[3] == Shape::Span(21));
    assert(sound(Shape::Span(21)));
    assert(schema_shapes()[kind_start(3) + 4] == shapes[4]);
    assert(shapes[4] == Shape::Record(binary_record(19)));
    assert(sound(Shape::Record(binary_record(19))));
    assert forall|j: int| 0 <= j < 5 implies sound(#[trigger] schema_shapes()[19 + j]) by {
        assert(j == 0 ==> schema_shapes()[19 + j] == shapes[0]);
        assert(j == 1 ==> schema_shapes()[19 + j] == shapes[1]);
        assert(j == 2 ==> schema_shapes()[19 + j] == shapes[2]);
        assert(j == 3 ==> schema_shapes()[19 + j] == shapes[3]);
        assert(j == 4 ==> schema_shapes()[19 + j] == shapes[4]);
    }
}

/// The shapes of the types that describe the unicode type.
pub proof fn lemma_types_of_unicode(env: Env)
    requires
        described(env),
    ensures
        env.types.len() == 118,
        shaped(env.types[24], Shape::Text),
        shaped(env.types[25], Shape::Maybe(24)),
        shaped(env.types[26], Shape::Unsigned(0, u64::MAX as int)),
        shaped(env.types[27], Shape::Span(26)),
        shaped(env.types[28], cases_shape(seq!["byte"@, "utf8_byte"@, "scalar_value"@])),
        shaped(env.types[29], Shape::Record(unicode_record(24))),
{
    lemma_schema_shapes();
    let shapes = kind_shapes(4, 24);
    assert(schema_shapes()[kind_start(4) + 0] == shapes[0]);
    assert(shapes[0] == Shape::Text);
    assert(schema_shapes()[kind_start(4) + 1] == shapes[1]);
    assert(shapes[1] == Shape::Maybe(24));
    assert(schema_shapes()[kind_start(4) + 2] == shapes[2]);
    assert(shapes[2] == Shape::Unsigned(0, u64::MAX as int));
    assert(schema_shapes()[kind_start(4) + 3] == shapes[3]);
    assert(shapes[3] == Shape::Span(26));
    assert(schema_shapes()[kind_start(4) + 4] == shapes[4]);
    assert(shapes[4] == cases_shape(seq!["byte"@, "utf8_byte"@, "scalar_value"@]));
    assert(schema_shapes()[kind_start(4) + 5] == shapes[5]);
    assert(shapes[5] == Shape::Record(unicode_record(24)));
}

/// The shapes of the types that describe the unicode type are sound.
pub proof fn lemma_sound_unicode()
    ensures
        forall|j: int| 0 <= j < 6 ==> sound(#[trigger] schema_shapes()[24 + j]),
{
    lemma_schema_shapes();
    reveal_strlit("byte");
    lemma_snake_case_is_identifier("byte"@);
    reveal_strlit("length");
    lemma_snake_case_is_identifier("length"@);
    reveal_strlit("length_type");
    lemma_snake_case_is_identifier("length_type"@);
    reveal_strlit("meta_doc");
    lemma_snake_case_is_identifier("meta_doc"@);
    reveal_strlit("meta_name");
    lemma_snake_case_is_identifier("meta_name"@);
    reveal_strlit("scalar_value");
    lemma_snake_case_is_identifier("scalar_value"@);
    reveal_strlit("utf8_byte");
    lemma_snake_case_is_identifier("utf8_byte"@);
    let shapes = kind_shapes(4, 24);
    assert(schema_shapes()[kind_start(4) + 0] == shapes[0]);
    assert(shapes[0] == Shape::Text);
    assert(sound(Shape::Text));
    assert(schema_shapes()[kind_start(4) + 1] == shapes[1]);
    assert(shapes[1] == Shape::Maybe(24));
    assert(sound(Shape::Maybe(24)));
    assert(schema_shapes()[kind_start(4) + 2] == shapes[2]);
    assert(shapes[2] == Shape::Unsigned(0, u64::MAX as int));
    assert(sound(Shape::Unsigned(0, u64::MAX as int)));
    assert(schema_shapes()[kind_start(4) + 3] == shapes[3]);
    assert(shapes[3] == Shape::Span(26));
    assert(sound(Shape::Span(26)));
    assert(schema_shapes()[kind_start(4) + 4] == shapes[4]);
    assert(shapes[4] == cases_shape(seq!["byte"@, "utf8_byte"@, "scalar_value"@]));
    assert(sound(cases_shape(seq!["byte"@, "utf8_byte"@, "scalar_value"@])));
    assert(schema_shapes()[kind_start(4) + 5] == shapes[5]);
    assert(shapes[5] == Shape::Record(unicode_record(24)));
    assert(sound(Shape::Record(unicode_record(24))));
    assert forall|j: int| 0 <= j < 6 implies sound(#[trigger] schema_shapes()[24 + j]) by {
        assert(j == 0 ==> schema_shapes()[24 + j] == shapes[0]);
        assert(j == 1 ==> schema_shapes()[24 + j] == shapes[1]);
        assert(j == 2 ==> schema_shapes()[24 + j] == shapes[2]);
        assert(j == 3 ==> schema_shapes()[24 + j] == shapes[3]);
        assert(j == 4 ==> schema_shapes()[24 + j] == shapes[4]);
        assert(j == 5 ==> schema_shapes()[24 + j] == shapes[5]);
    }
}

/// The shapes of the types that describe the unsigned integer type.
pub proof fn lemma_types_of_uint(env: Env)
    requires
        described(env),
    ensures
        env.types.len() == 118,
        shaped(env.types[30], Shape::Text),
        shaped(env.types[31], Shape::Maybe(30)),
        shaped(env.types[32], Shape::Unsigned(0, u128::MAX as int)),
        shaped(env.types[33], Shape::Span(32)),
        shaped(env.types[34], Shape::Record(uint_record(30))),
{
    lemma_schema_shapes();
    let shapes = kind_shapes(5, 30);
    assert(schema_shapes()[kind_start(5) + 0] == shapes[0]);
    assert(shapes[0] == Shape::Text);
    assert(schema_shapes()[kind_start(5) + 1] == shapes[1]);
    assert(shapes[1] == Shape::Maybe(30));
    assert(schema_shapes()[kind_start(5) + 2] == shapes[2]);
    assert(shapes[2] == Shape::Unsigned(0, u128::MAX as int));
    assert(schema_shapes()[kind_start(5) + 3] == shapes[3]);
    assert(shapes[3] == Shape::Span(32));
    assert(schema_shapes()[kind_start(5) + 4] == shapes[4]);
    assert(shapes[4] == Shape::Record(uint_record(30)));
}

/// The shapes of the types that describe the unsigned integer type are sound.
pub proof fn lemma_sound_uint()
    ensures
        forall|j: int| 0 <= j < 5 ==> sound(#[trigger] schema_shapes()[30 + j]),
{
    lemma_schema_shapes();
    reveal_strlit("meta_doc");
    lemma_snake_case_is_identifier("meta_doc"@);
    reveal_strlit("meta_name");
    lemma_snake_case_is_identifier("meta_name"@);
    reveal_strlit("range");
    lemma_snake_case_is_identifier("range"@);
    let shapes = kind_shapes(5, 30);
    assert(schema_shapes()[kind_start(5) + 0] == shapes[0]);
    assert(shapes[0] == Shape::Text);
    assert(sound(Shape::Text));
    assert(schema_shapes()[kind_start(5) + 1] == shapes[1]);
    assert(shapes[1] == Shape::Maybe(30));
    assert(sound(Shape::Maybe(30)));
    assert(schema_shapes()[kind_start(5) + 2] == shapes[2]);
    assert(shapes[2] == Shape::Unsigned(0, u128::MAX as int));
    assert(sound(Shape::Unsigned(0, u128::MAX as int)));
    assert(schema_shapes()[kind_start(5) + 3] == shapes[3]);
    assert(shapes[3] == Shape::Span(32));
    assert(sound(Shape::Span(32)));
    assert(schema_shapes()[kind_start(5) + 4] == shapes[4]);
    assert(shapes[4] == Shape::Record(uint_record(30)));
    assert(sound(Shape::Record(uint_record(30))));
    assert forall|j: int| 0 <= j < 5 implies sound(#[trigger] schema_shapes()[30 + j]) by {
        assert(j == 0 ==> schema_shapes()[30 + j] == shapes[0]);
        assert(j == 1 ==> schema_shapes()[30 + j] == shapes[1]);
        assert(j == 2 ==> schema_shapes()[30 + j] == shapes[2]);
        assert(j == 3 ==> schema_shapes()[30 + j] == shapes[3]);
        assert(j == 4 ==> schema_shapes()[30 + j] == shapes[4]);
    }
}

/// The shapes of the types that describe the signed integer type.
pub proof fn lemma_types_of_sint(env: Env)
    requires
        described(env),
    ensures
        env.types.len() == 118,
        shaped(env.types[35], Shape::Text),
        shaped(env.types[36], Shape::Maybe(35)),
        shaped(env.types[37], Shape::Signed(i128::MIN as int, i128::MAX as int)),
        shaped(env.types[38], Shape::Span(37)),
        shaped(env.types[39], Shape::Record(sint_record(35))),
{
    lemma_schema_shapes();
    let shapes = kind_shapes(6, 35);
    assert(schema_shapes()[kind_start(6) + 0] == shapes[0]);
    assert(shapes[0] == Shape::Text);
    assert(schema_shapes()[kind_start(6) + 1] == shapes[1]);
    assert(shapes[1] == Shape::Maybe(35));
    assert(schema_shapes()[kind_start(6) + 2] == shapes[2]);
    assert(shapes[2] == Shape::Signed(i128::MIN as int, i128::MAX as int));
    assert(schema_shapes()[kind_start(6) + 3] == shapes[3]);
    assert(shapes[3] == Shape::Span(37));
    assert(schema_shapes()[kind_start(6) + 4] == shapes[4]);
    assert(shapes[4] == Shape::Record(sint_record(35)));
}

/// The shapes of the types that describe the signed integer type are sound.
pub proof fn lemma_sound_sint()
    ensures
        forall|j: int| 0 <= j < 5 ==> sound(#[trigger] schema_shapes()[35 + j]),
{
    lemma_schema_shapes();
    reveal_strlit("meta_doc");
    lemma_snake_case_is_identifier("meta_doc"@);
    reveal_strlit("meta_name");
    lemma_snake_case_is_identifier("meta_name"@);
    reveal_strlit("range");
    lemma_snake_case_is_identifier("range"@);
    let shapes = kind_shapes(6, 35);
    assert(schema_shapes()[kind_start(6) + 0] == shapes[0]);
    assert(shapes[0] == Shape::Text);
    assert(sound(Shape::Text));
    assert(schema_shapes()[kind_start(6) + 1] == shapes[1]);
    assert(shapes[1] == Shape::Maybe(35));
    assert(sound(Shape::Maybe(35)));
    assert(schema_shapes()[kind_start(6) + 2] == shapes[2]);
    assert(shapes[2] == Shape::Signed(i128::MIN as int, i128::MAX as int));
    assert(sound(Shape::Signed(i128::MIN as int, i128::MAX as int)));
    assert(schema_shapes()[kind_start(6) + 3] == shapes[3]);
    assert(shapes[3] == Shape::Span(37));
    assert(sound(Shape::Span(37)));
    assert(schema_shapes()[kind_start(6) + 4] == shapes[4]);
    assert(shapes[4] == Shape::Record(sint_record(35)));
    assert(sound(Shape::Record(sint_record(35))));
    assert forall|j: int| 0 <= j < 5 implies sound(#[trigger] schema_shapes()[35 + j]) by {
        assert(j == 0 ==> schema_shapes()[35 + j] == shapes[0]);
        assert(j == 1 ==> schema_shapes()[35 + j] == shapes[1]);
        assert(j == 2 ==> schema_shapes()[35 + j] == shapes[2]);
        assert(j == 3 ==> schema_shapes()[35 + j] == shapes[3]);
        assert(j == 4 ==> schema_shapes()[35 + j] == shapes[4]);
    }
}

/// The shapes of the types that describe the 32 bit float type.
pub proof fn lemma_types_of_f32(env: Env)
    requires
        described(env),
    ensures
        env.types.len() == 118,
        shaped(env.types[40], Shape::Text),
        shaped(env.types[41], Shape::Maybe(40)),
        shaped(env.types[42], Shape::Float32All),
        shaped(env.types[43], Shape::Flag),
        shaped(env.types[44], Shape::Record(float_record(40))),
{
    lemma_schema_shapes();
    let shapes = kind_shapes(7, 40);
    assert(schema_shapes()[kind_start(7) + 0] == shapes[0]);
    assert(shapes[0] == Shape::Text);
    assert(schema_shapes()[kind_start(7) + 1] == shapes[1]);
    assert(shapes[1] == Shape::Maybe(40));
    assert(schema_shapes()[kind_start(7) + 2] == shapes[2]);
    assert(shapes[2] == Shape::Float32All);
    assert(schema_shapes()[kind_start(7) + 3] == shapes[3]);
    assert(shapes[3] == Shape::Flag);
    assert(schema_shapes()[kind_start(7) + 4] == shapes[4]);
    assert(shapes[4] == Shape::Record(float_record(40)));
}

/// The shapes of the types that describe the 32 bit float type are sound.
pub proof fn lemma_sound_f32()
    ensures
        forall|j: int| 0 <= j < 5 ==> sound(#[trigger] schema_shapes()[40 + j]),
{
    lemma_schema_shapes();
    reveal_strlit("allow_nan");
    lemma_snake_case_is_identifier("allow_nan"@);
    reveal_strlit("allow_negative_infinity");
    lemma_snake_case_is_identifier("allow_negative_infinity"@);
    reveal_strlit("allow_negative_zero");
    lemma_snake_case_is_identifier("allow_negative_zero"@);
    reveal_strlit("allow_positive_infinity");
    lemma_snake_case_is_identifier("allow_positive_infinity"@);
    reveal_strlit("allow_positive_zero");
    lemma_snake_case_is_identifier("allow_positive_zero"@);
    reveal_strlit("allow_subnormal");
    lemma_snake_case_is_identifier("allow_subnormal"@);
    reveal_strlit("max");
    lemma_snake_case_is_identifier("max"@);
    reveal_strlit("meta_doc");
    lemma_snake_case_is_identifier("meta_doc"@);
    reveal_strlit("meta_name");
    lemma_snake_case_is_identifier("meta_name"@);
    reveal_strlit("min");
    lemma_snake_case_is_identifier("min"@);
    let shapes = kind_shapes(7, 40);
    assert(schema_shapes()[kind_start(7) + 0] == shapes[0]);
    assert(shapes[0] == Shape::Text);
    assert(sound(Shape::Text));
    assert(schema_shapes()[kind_start(7) + 1] == shapes[1]);
    assert(shapes[1] == Shape::Maybe(40));
    assert(sound(Shape::Maybe(40)));
    assert(schema_shapes()[kind_start(7) + 2] == shapes[2]);
    assert(shapes[2] == Shape::Float32All);
    assert(sound(Shape::Float32All));
    assert(schema_shapes()[kind_start(7) + 3] == shapes[3]);
    assert(shapes[3] == Shape::Flag);
    assert(sound(Shape::Flag));
    assert(schema_shapes()[kind_start(7) + 4] == shapes[4]);
    assert(shapes[4] == Shape::Record(float_record(40)));
    assert(sound(Shape::Record(float_record(40))));
    assert forall|j: int| 0 <= j < 5 implies sound(#[trigger] schema_shapes()[40 + j]) by {
        assert(j == 0 ==> schema_shapes()[40 + j] == shapes[0]);
        assert(j == 1 ==> schema_shapes()[40 + j] == shapes[1]);
        assert(j == 2 ==> schema_shapes()[40 + j] == shapes[2]);
        assert(j == 3 ==> schema_shapes()[40 + j] == shapes[3]);
        assert(j == 4 ==> schema_shapes()[40 + j] == shapes[4]);
    }
}

/// The shapes of the types that describe the 64 bit float type.
pub proof fn lemma_types_of_f64(env: Env)
    requires
        described(env),
    ensures
        env.types.len() == 118,
        shaped(env.types[45], Shape::Text),
        shaped(env.types[46], Shape::Maybe(45)),
        shaped(env.types[47], Shape::Float64All),
        shaped(env.types[48], Shape::Flag),
        shaped(env.types[49], Shape::Record(float_record(45))),
{
    lemma_schema_shapes();
    let shapes = kind_shapes(8, 45);
    assert(schema_shapes()[kind_start(8) + 0] == shapes[0]);
    assert(shapes[0] == Shape::Text);
    assert(schema_shapes()[kind_start(8) + 1] == shapes[1]);
    assert(shapes[1] == Shape::Maybe(45));
    assert(schema_shapes()[kind_start(8) + 2] == shapes[2]);
    assert(shapes[2] == Shape::Float64All);
    assert(schema_shapes()[kind_start(8) + 3] == shapes[3]);
    assert(shapes[3] == Shape::Flag);
    assert(schema_shapes()[kind_start(8) + 4] == shapes[4]);
    assert(shapes[4] == Shape::Record(float_record(45)));
}

/// The shapes of the types that describe the 64 bit float type are sound.
pub proof fn lemma_sound_f64()
    ensures
        forall|j: int| 0 <= j < 5 ==> sound(#[trigger] schema_shapes()[45 + j]),
{
    lemma_schema_shapes();
    reveal_strlit("allow_nan");
    lemma_snake_case_is_identifier("allow_nan"@);
    reveal_strlit("allow_negative_infinity");
    lemma_snake_case_is_identifier("allow_negative_infinity"@);
    reveal_strlit("allow_negative_zero");
    lemma_snake_case_is_identifier("allow_negative_zero"@);
    reveal_strlit("allow_positive_infinity");
    lemma_snake_case_is_identifier("allow_positive_infinity"@);
    reveal_strlit("allow_positive_zero");
    lemma_snake_case_is_identifier("allow_positive_zero"@);
    reveal_strlit("allow_subnormal");
    lemma_snake_case_is_identifier("allow_subnormal"@);
    reveal_strlit("max");
    lemma_snake_case_is_identifier("max"@);
    reveal_strlit("meta_doc");
    lemma_snake_case_is_identifier("meta_doc"@);
    reveal_strlit("meta_name");
    lemma_snake_case_is_identifier("meta_name"@);
    reveal_strlit("min");
    lemma_snake_case_is_identifier("min"@);
    let shapes = kind_shapes(8, 45);
    assert(schema_shapes()[kind_start(8) + 0] == shapes[0]);
    assert(shapes[0] == Shape::Text);
    assert(sound(Shape::Text));
    assert(schema_shapes()[kind_start(8) + 1] == shapes[1]);
    assert(shapes[1] == Shape::Maybe(45));
    assert(sound(Shape::Maybe(45)));
    assert(schema_shapes()[kind_start(8) + 2] == shapes[2]);
    assert(shapes[2] == Shape::Float64All);
    assert(sound(Shape::Float64All));
    assert(schema_shapes()[kind_start(8) + 3] == shapes[3]);
    assert(shapes[3] == Shape::Flag);
    assert(sound(Shape::Flag));
    assert(schema_shapes()[kind_start(8) + 4] == shapes[4]);
    assert(shapes[4] == Shape::Record(float_record(45)));
    assert(sound(Shape::Record(float_record(45))));
    assert forall|j: int| 0 <= j < 5 implies sound(#[trigger] schema_shapes()[45 + j]) by {
        assert(j == 0 ==> schema_shapes()[45 + j] == shapes[0]);
        assert(j == 1 ==> schema_shapes()[45 + j] == shapes[1]);
        assert(j == 2 ==> schema_shapes()[45 + j] == shapes[2]);
        assert(j == 3 ==> schema_shapes()[45 + j] == shapes[3]);
        assert(j == 4 ==> schema_shapes()[45 + j] == shapes[4]);
    }
}

/// The shapes of the types that describe the enumeration type.
pub proof fn lemma_types_of_enum(env: Env)
    requires
        described(env),
    ensures
        env.types.len() == 118,
        shaped(env.types[50], Shape::Text),
        shaped(env.types[51], Shape::Maybe(50)),
        shaped(env.types[52], Shape::Codes(1, 30, seq![48u8, 58u8, 97u8, 123u8])),
        shaped(env.types[53], Shape::Row(52, 1, 12, None)),
        shaped(env.types[54], Shape::Reference),
        shaped(env.types[55], Shape::Row(54, 0, u32::MAX as int, None)),
        shaped(env.types[56], Shape::Record(seq![("name"@, 53), ("values"@, 55)])),
        shaped(env.types[57], Shape::Row(56, 0, u32::MAX as int, None)),
        shaped(env.types[58], Shape::Record(enum_record(50))),
{
    lemma_schema_shapes();
    let shapes = kind_shapes(9, 50);
    assert(schema_shapes()[kind_start(9) + 0] == shapes[0]);
    assert(shapes[0] == Shape::Text);
    assert(schema_shapes()[kind_start(9) + 1] == shapes[1]);
    assert(shapes[1] == Shape::Maybe(50));
    assert(schema_shapes()[kind_start(9) + 2] == shapes[2]);
    assert(shapes[2] == Shape::Codes(1, 30, seq![48u8, 58u8, 97u8, 123u8]));
    assert(schema_shapes()[kind_start(9) + 3] == shapes[3]);
    assert(shapes[3] == Shape::Row(52, 1, 12, None));
    assert(schema_shapes()[kind_start(9) + 4] == shapes[4]);
    assert(shapes[4] == Shape::Reference);
    assert(schema_shapes()[kind_start(9) + 5] == shapes[5]);
    assert(shapes[5] == Shape::Row(54, 0, u32::MAX as int, None));
    assert(schema_shapes()[kind_start(9) + 6] == shapes[6]);
    assert(shapes[6] == Shape::Record(seq![("name"@, 53), ("values"@, 55)]));
    assert(schema_shapes()[kind_start(9) + 7] == shapes[7]);
    assert(shapes[7] == Shape::Row(56, 0, u32::MAX as int, None));
    assert(schema_shapes()[kind_start(9) + 8] == shapes[8]);
    assert(shapes[8] == Shape::Record(enum_record(50)));
}

/// The shapes of the types that describe the enumeration type are sound.
pub proof fn lemma_sound_enum()
    ensures
        forall|j: int| 0 <= j < 9 ==> sound(#[trigger] schema_shapes()[50 + j]),
{
    lemma_schema_shapes();
    reveal_strlit("meta_doc");
    lemma_snake_case_is_identifier("meta_doc"@);
    reveal_strlit("meta_name");
    lemma_snake_case_is_identifier("meta_name"@);
    reveal_strlit("name");
    lemma_snake_case_is_identifier("name"@);
    reveal_strlit("values");
    lemma_snake_case_is_identifier("values"@);
    reveal_strlit("variants");
    lemma_snake_case_is_identifier("variants"@);
    let shapes = kind_shapes(9, 50);
    assert(schema_shapes()[kind_start(9) + 0] == shapes[0]);
    assert(shapes[0] == Shape::Text);
    assert(sound(Shape::Text));
    assert(schema_shapes()[kind_start(9) + 1] == shapes[1]);
    assert(shapes[1] == Shape::Maybe(50));
    assert(sound(Shape::Maybe(50)));
    assert(schema_shapes()[kind_start(9) + 2] == shapes[2]);
    assert(shapes[2] == Shape::Codes(1, 30, seq![48u8, 58u8, 97u8, 123u8]));
    assert(sound(Shape::Codes(1, 30, seq![48u8, 58u8, 97u8, 123u8])));
    assert(schema_shapes()[kind_start(9) + 3] == shapes[3]);
    assert(shapes[3] == Shape::Row(52, 1, 12, None));
    assert(sound(Shape::Row(52, 1, 12, None)));
    assert(schema_shapes()[kind_start(9) + 4] == shapes[4]);
    assert(shapes[4] == Shape::Reference);
    assert(sound(Shape::Reference));
    assert(schema_shapes()[kind_start(9) + 5] == shapes[5]);
    assert(shapes[5] == Shape::Row(54, 0, u32::MAX as int, None));
    assert(sound(Shape::Row(54, 0, u32::MAX as int, None)));
    assert(schema_shapes()[kind_start(9) + 6] == shapes[6]);
    assert(shapes[6] == Shape::Record(seq![("name"@, 53), ("values"@, 55)]));
    assert(sound(Shape::Record(seq![("name"@, 53), ("values"@, 55)])));
    assert(schema_shapes()[kind_start(9) + 7] == shapes[7]);
    assert(shapes[7] == Shape::Row(56, 0, u32::MAX as int, None));
    assert(sound(Shape::Row(56, 0, u32::MAX as int, None)));
    assert(schema_shapes()[kind_start(9) + 8] == shapes[8]);
    assert(shapes[8] == Shape::Record(enum_record(50)));
    assert(sound(Shape::Record(enum_record(50))));
    assert forall|j: int| 0 <= j < 9 implies sound(#[trigger] schema_shapes()[50 + j]) by {
        assert(j == 0 ==> schema_shapes()[50 + j] == shapes[0]);
        assert(j == 1 ==> schema_shapes()[50 + j] == shapes[1]);
        assert(j == 2 ==> schema_shapes()[50 + j] == shapes[2]);
        assert(j == 3 ==> schema_shapes()[50 + j] == shapes[3]);
        assert(j == 4 ==> schema_shapes()[50 + j] == shapes[4]);
        assert(j == 5 ==> schema_shapes()[50 + j] == shapes[5]);
        assert(j == 6 ==> schema_shapes()[50 + j] == shapes[6]);
        assert(j == 7 ==> schema_shapes()[50 + j] == shapes[7]);
        assert(j == 8 ==> schema_shapes()[50 + j] == shapes[8]);
    }
}

/// The shapes of the types that describe the structure type.
pub proof fn lemma_types_of_struct(env: Env)
    requires
        described(env),
    ensures
        env.types.len() == 118,
        shaped(env.types[59], Shape::Text),
        shaped(env.types[60], Shape::Maybe(59)),
        shaped(env.types[61], Shape::Codes(1, 30, seq![48u8, 58u8, 97u8, 123u8])),
        shaped(env.types[62], Shape::Row(61, 1, 12, None)),
        shaped(env.types[63], Shape::Reference),
        shaped(env.types[64], Shape::Record(seq![("name"@, 62), ("type"@, 63)])),
        shaped(env.types[65], Shape::Row(64, 0, u32::MAX as int, None)),
        shaped(env.types[66], Shape::Record(struct_record(59))),
{
    lemma_schema_shapes();
    let shapes = kind_shapes(10, 59);
    assert(schema_shapes()[kind_start(10) + 0] == shapes[0]);
    assert(shapes[0] == Shape::Text);
    assert(schema_shapes()[kind_start(10) + 1] == shapes[1]);
    assert(shapes[1] == Shape::Maybe(59));
    assert(schema_shapes()[kind_start(10) + 2] == shapes[2]);
    assert(shapes[2] == Shape::Codes(1, 30, seq![48u8, 58u8, 97u8, 123u8]));
    assert(schema_shapes()[kind_start(10) + 3] == shapes[3]);
    assert(shapes[3] == Shape::Row(61, 1, 12, None));
    assert(schema_shapes()[kind_start(10) + 4] == shapes[4]);
    assert(shapes[4] == Shape::Reference);
    assert(schema_shapes()[kind_start(10) + 5] == shapes[5]);
    assert(shapes[5] == Shape::Record(seq![("name"@, 62), ("type"@, 63)]));
    assert(schema_shapes()[kind_start(10) + 6] == shapes[6]);
    assert(shapes[6] == Shape::Row(64, 0, u32::MAX as int, None));
    assert(schema_shapes()[kind_start(10) + 7] == shapes[7]);
    assert(shapes[7] == Shape::Record(struct_record(59)));
}

/// The shapes of the types that describe the structure type are sound.
pub proof fn lemma_sound_struct()
    ensures
        forall|j: int| 0 <= j < 8 ==> sound(#[trigger] schema_shapes()[59 + j]),
{
    lemma_schema_shapes();
    reveal_strlit("fields");
    lemma_snake_case_is_identifier("fields"@);
    reveal_strlit("meta_doc");
    lemma_snake_case_is_identifier("meta_doc"@);
    reveal_strlit("meta_name");
    lemma_snake_case_is_identifier("meta_name"@);
    reveal_strlit("name");
    lemma_snake_case_is_identifier("name"@);
    reveal_strlit("type");
    lemma_snake_case_is_identifier("type"@);
    let shapes = kind_shapes(10, 59);
    assert(schema_shapes()[kind_start(10) + 0] == shapes[0]);
    assert(shapes[0] == Shape::Text);
    assert(sound(Shape::Text));
    assert(schema_shapes()[kind_start(10) + 1] == shapes[1]);
    assert(shapes[1] == Shape::Maybe(59));
    assert(sound(Shape::Maybe(59)));
    assert(schema_shapes()[kind_start(10) + 2] == shapes[2]);
    assert(shapes[2] == Shape::Codes(1, 30, seq![48u8, 58u8, 97u8, 123u8]));
    assert(sound(Shape::Codes(1, 30, seq![48u8, 58u8, 97u8, 123u8])));
    assert(schema_shapes()[kind_start(10) + 3] == shapes[3]);
    assert(shapes[3] == Shape::Row(61, 1, 12, None));
    assert(sound(Shape::Row(61, 1, 12, None)));
    assert(schema_shapes()[kind_start(10) + 4] == shapes[4]);
    assert(shapes[4] == Shape::Reference);
    assert(sound(Shape::Reference));
    assert(schema_shapes()[kind_start(10) + 5] == shapes[5]);
    assert(shapes[5] == Shape::Record(seq![("name"@, 62), ("type"@, 63)]));
    assert(sound(Shape::Record(seq![("name"@, 62), ("type"@, 63)])));
    assert(schema_shapes()[kind_start(10) + 6] == shapes[6]);
    assert(shapes[6] == Shape::Row(64, 0, u32::MAX as int, None));
    assert(sound(Shape::Row(64, 0, u32::MAX as int, None)));
    assert(schema_shapes()[kind_start(10) + 7] == shapes[7]);
    assert(shapes[7] == Shape::Record(struct_record(59)));
    assert(sound(Shape::Record(struct_record(59))));
    assert forall|j: int| 0 <= j < 8 implies sound(#[trigger] schema_shapes()[59 + j]) by {
        assert(j == 0 ==> schema_shapes()[59 + j] == shapes[0]);
        assert(j == 1 ==> schema_shapes()[59 + j] == shapes[1]);
        assert(j == 2 ==> schema_shapes()[59 + j] == shapes[2]);
        assert(j == 3 ==> schema_shapes()[59 + j] == shapes[3]);
        assert(j == 4 ==> schema_shapes()[59 + j] == shapes[4]);
        assert(j == 5 ==> schema_shapes()[59 + j] == shapes[5]);
        assert(j == 6 ==> schema_shapes()[59 + j] == shapes[6]);
        assert(j == 7 ==> schema_shapes()[59 + j] == shapes[7]);
    }
}

/// The shapes of the types that describe the map type are sound.
pub proof fn lemma_sound_map()
    ensures
        forall|j: int| 0 <= j < 9 ==> sound(#[trigger] schema_shapes()[67 + j]),
{
    lemma_schema_shapes();
    reveal_strlit("anchors");
    lemma_snake_case_is_identifier("anchors"@);
    reveal_strlit("ascending");
    lemma_snake_case_is_identifier("ascending"@);
    reveal_strlit("descending");
    lemma_snake_case_is_identifier("descending"@);
    reveal_strlit("key");
    lemma_snake_case_is_identifier("key"@);
    reveal_strlit("length");
    lemma_snake_case_is_identifier("length"@);
    reveal_strlit("meta_doc");
    lemma_snake_case_is_identifier("meta_doc"@);
    reveal_strlit("meta_name");
    lemma_snake_case_is_identifier("meta_name"@);
    reveal_strlit("sorting");
    lemma_snake_case_is_identifier("sorting"@);
    reveal_strlit("value");
    lemma_snake_case_is_identifier("value"@);
    let shapes = kind_shapes(11, 67);
    assert(schema_shapes()[kind_start(11) + 0] == shapes[0]);
    assert(shapes[0] == Shape::Text);
    assert(sound(Shape::Text));
    assert(schema_shapes()[kind_start(11) + 1] == shapes[1]);
    assert(shapes[1] == Shape::Maybe(67));
    assert(sound(Shape::Maybe(67)));
    assert(schema_shapes()[kind_start(11) + 2] == shapes[2]);
    assert(shapes[2] == Shape::Reference);
    assert(sound(Shape::Reference));
    assert(schema_shapes()[kind_start(11) + 3] == shapes[3]);
    assert(shapes[3] == Shape::Reference);
    assert(sound(Shape::Reference));
    assert(schema_shapes()[kind_start(11) + 4] == shapes[4]);
    assert(shapes[4] == sorting_shape());
    assert(sound(sorting_shape()));
    assert(schema_shapes()[kind_start(11) + 5] == shapes[5]);
    assert(shapes[5] == Shape::Unsigned(0, u32::MAX as int));
    assert(sound(Shape::Unsigned(0, u32::MAX as int)));
    assert(schema_shapes()[kind_start(11) + 6] == shapes[6]);
    assert(shapes[6] == Shape::Span(72));
    assert(sound(Shape::Span(72)));
    assert(schema_shapes()[kind_start(11) + 7] == shapes[7]);
    assert(shapes[7] == Shape::Flag);
    assert(sound(Shape::Flag));
    assert(schema_shapes()[kind_start(11) + 8] == shapes[8]);
    assert(shapes[8] == Shape::Record(map_record(67)));
    assert(sound(Shape::Record(map_record(67))));
    assert forall|j: int| 0 <= j < 9 implies sound(#[trigger] schema_shapes()[67 + j]) by {
        assert(j == 0 ==> schema_shapes()[67 + j] == shapes[0]);
        assert(j == 1 ==> schema_shapes()[67 + j] == shapes[1]);
        assert(j == 2 ==> schema_shapes()[67 + j] == shapes[2]);
        assert(j == 3 ==> schema_shapes()[67 + j] == shapes[3]);
        assert(j == 4 ==> schema_shapes()[67 + j] == shapes[4]);
        assert(j == 5 ==> schema_shapes()[67 + j] == shapes[5]);
        assert(j == 6 ==> schema_shapes()[67 + j] == shapes[6]);
        assert(j == 7 ==> schema_shapes()[67 + j] == shapes[7]);
        assert(j == 8 ==> schema_shapes()[67 + j] == shapes[8]);
    }
}

/// The shapes of the types that describe the root map type.
pub proof fn lemma_types_of_root_map(env: Env)
    requires
        described(env),
    ensures
        env.types.len() == 118,
        shaped(env.types[76], Shape::Text),
        shaped(env.types[77], Shape::Maybe(76)),
        shaped(env.types[78], Shape::Reference),
        shaped(env.types[79], Shape::Reference),
        shaped(env.types[80], Shape::Reference),
        shaped(env.types[81], sorting_shape()),
        shaped(env.types[82], Shape::Unsigned(0, u32::MAX as int)),
        shaped(env.types[83], Shape::Span(82)),
        shaped(env.types[84], Shape::Record(root_map_record(76))),
{
    lemma_schema_shapes();
    let shapes = kind_shapes(12, 76);
    assert(schema_shapes()[kind_start(12) + 0] == shapes[0]);
    assert(shapes[0] == Shape::Text);
    assert(schema_shapes()[kind_start(12) + 1] == shapes[1]);
    assert(shapes[1] == Shape::Maybe(76));
    assert(schema_shapes()[kind_start(12) + 2] == shapes[2]);
    assert(shapes[2] == Shape::Reference);
    assert(schema_shapes()[kind_start(12) + 3] == shapes[3]);
    assert(shapes[3] == Shape::Reference);
    assert(schema_shapes()[kind_start(12) + 4] == shapes[4]);
    assert(shapes[4] == Shape::Reference);
    assert(schema_shapes()[kind_start(12) + 5] == shapes[5]);
    assert(shapes[5] == sorting_shape());
    assert(schema_shapes()[kind_start(12) + 6] == shapes[6]);
    assert(shapes[6] == Shape::Unsigned(0, u32::MAX as int));
    assert(schema_shapes()[kind_start(12) + 7] == shapes[7]);
    assert(shapes[7] == Shape::Span(82));
    assert(schema_shapes()[kind_start(12) + 8] == shapes[8]);
    assert(shapes[8] == Shape::Record(root_map_record(76)));
}

/// The shapes of the types that describe the root map type are sound.
pub proof fn lemma_sound_root_map()
    ensures
        forall|j: int| 0 <= j < 9 ==> sound(#[trigger] schema_shapes()[76 + j]),
{
    lemma_schema_shapes();
    reveal_strlit("ascending");
    lemma_snake_case_is_identifier("ascending"@);
    reveal_strlit("descending");
    lemma_snake_case_is_identifier("descending"@);
    reveal_strlit("key");
    lemma_snake_case_is_identifier("key"@);
    reveal_strlit("length");
    lemma_snake_case_is_identifier("length"@);
    reveal_strlit("meta_doc");
    lemma_snake_case_is_identifier("meta_doc"@);
    reveal_strlit("meta_name");
    lemma_snake_case_is_identifier("meta_name"@);
    reveal_strlit("root");
    lemma_snake_case_is_identifier("root"@);
    reveal_strlit("sorting");
    lemma_snake_case_is_identifier("sorting"@);
    reveal_strlit("value");
    lemma_snake_case_is_identifier("value"@);
    let shapes = kind_shapes(12, 76);
    assert(schema_shapes()[kind_start(12) + 0] == shapes[0]);
    assert(shapes[0] == Shape::Text);
    assert(sound(Shape::Text));
    assert(schema_shapes()[kind_start(12) + 1] == shapes[1]);
    assert(shapes[1] == Shape::Maybe(76));
    assert(sound(Shape::Maybe(76)));
    assert(schema_shapes()[kind_start(12) + 2] == shapes[2]);
    assert(shapes[2] == Shape::Reference);
    assert(sound(Shape::Reference));
    assert(schema_shapes()[kind_start(12) + 3] == shapes[3]);
    assert(shapes[3] == Shape::Reference);
    assert(sound(Shape::Reference));
    assert(schema_shapes()[kind_start(12) + 4] == shapes[4]);
    assert(shapes[4] == Shape::Reference);
    assert(sound(Shape::Reference));
    assert(schema_shapes()[kind_start(12) + 5] == shapes[5]);
    assert(shapes[5] == sorting_shape());
    assert(sound(sorting_shape()));
    assert(schema_shapes()[kind_start(12) + 6] == shapes[6]);
    assert(shapes[6] == Shape::Unsigned(0, u32::MAX as int));
    assert(sound(Shape::Unsigned(0, u32::MAX as int)));
    assert(schema_shapes()[kind_start(12) + 7] == shapes[7]);
    assert(shapes[7] == Shape::Span(82));
    assert(sound(Shape::Span(82)));
    assert(schema_shapes()[kind_start(12) + 8] == shapes[8]);
    assert(shapes[8] == Shape::Record(root_map_record(76)));
    assert(sound(Shape::Record(root_map_record(76))));
    assert forall|j: int| 0 <= j < 9 implies sound(#[trigger] schema_shapes()[76 + j]) by {
        assert(j == 0 ==> schema_shapes()[76 + j] == shapes[0]);
        assert(j == 1 ==> schema_shapes()[76 + j] == shapes[1]);
        assert(j == 2 ==> schema_shapes()[76 + j] == shapes[2]);
        assert(j == 3 ==> schema_shapes()[76 + j] == shapes[3]);
        assert(j == 4 ==> schema_shapes()[76 + j] == shapes[4]);
        assert(j == 5 ==> schema_shapes()[76 + j] == shapes[5]);
        assert(j == 6 ==> schema_shapes()[76 + j] == shapes[6]);
        assert(j == 7 ==> schema_shapes()[76 + j] == shapes[7]);
        assert(j == 8 ==> schema_shapes()[76 + j] == shapes[8]);
    }
}

/// The shapes of the types that describe the key reference type.
pub proof fn lemma_types_of_key_ref(env: Env)
    requires
        described(env),
    ensures
        env.types.len() == 118,
        shaped(env.types[85], Shape::Text),
        shaped(env.types[86], Shape::Maybe(85)),
        shaped(env.types[87], Shape::Record(key_ref_record(85))),
{
    lemma_schema_shapes();
    let shapes = kind_shapes(13, 85);
    assert(schema_shapes()[kind_start(13) + 0] == shapes[0]);
    assert(shapes[0] == Shape::Text);
    assert(schema_shapes()[kind_start(13) + 1] == shapes[1]);
    assert(shapes[1] == Shape::Maybe(85));
    assert(schema_shapes()[kind_start(13) + 2] == shapes[2]);
    assert(shapes[2] == Shape::Record(key_ref_record(85)));
}

/// The shapes of the types that describe the key reference type are sound.
pub proof fn lemma_sound_key_ref()
    ensures
        forall|j: int| 0 <= j < 3 ==> sound(#[trigger] schema_shapes()[85 + j]),
{
    lemma_schema_shapes();
    reveal_strlit("meta_doc");
    lemma_snake_case_is_identifier("meta_doc"@);
    reveal_strlit("meta_name");
    lemma_snake_case_is_identifier("meta_name"@);
    let shapes = kind_shapes(13, 85);
    assert(schema_shapes()[kind_start(13) + 0] == shapes[0]);
    assert(shapes[0] == Shape::Text);
    assert(sound(Shape::Text));
    assert(schema_shapes()[kind_start(13) + 1] == shapes[1]);
    assert(shapes[1] == Shape::Maybe(85));
    assert(sound(Shape::Maybe(85)));
    assert(schema_shapes()[kind_start(13) + 2] == shapes[2]);
    assert(shapes[2] == Shape::Record(key_ref_record(85)));
    assert(sound(Shape::Record(key_ref_record(85))));
    assert forall|j: int| 0 <= j < 3 implies sound(#[trigger] schema_shapes()[85 + j]) by {
        assert(j == 0 ==> schema_shapes()[85 + j] == shapes[0]);
        assert(j == 1 ==> schema_shapes()[85 + j] == shapes[1]);
        assert(j == 2 ==> schema_shapes()[85 + j] == shapes[2]);
    }
}

/// The shapes of the types that describe the ASCII type.
pub proof fn lemma_types_of_ascii(env: Env)
    requires
        described(env),
    ensures
        env.types.len() == 118,
        shaped(env.types[88], Shape::Text),
        shaped(env.types[89], Shape::Maybe(88)),
        shaped(env.types[90], Shape::Unsigned(0, u64::MAX as int)),
        shaped(env.types[91], Shape::Span(90)),
        shaped(env.types[92], Shape::Unsigned(0, 128)),
        shaped(env.types[93], Shape::Row(92, 0, u32::MAX as int, Some(2u32))),
        shaped(env.types[94], Shape::Record(ascii_record(88))),
{
    lemma_schema_shapes();
    let shapes = kind_shapes(14, 88);
    assert(schema_shapes()[kind_start(14) + 0] == shapes[0]);
    assert(shapes[0] == Shape::Text);
    assert(schema_shapes()[kind_start(14) + 1] == shapes[1]);
    assert(shapes[1] == Shape::Maybe(88));
    assert(schema_shapes()[kind_start(14) + 2] == shapes[2]);
    assert(shapes[2] == Shape::Unsigned(0, u64::MAX as int));
    assert(schema_shapes()[kind_start(14) + 3] == shapes[3]);
    assert(shapes[3] == Shape::Span(90));
    assert(schema_shapes()[kind_start(14) + 4] == shapes[4]);
    assert(shapes[4] == Shape::Unsigned(0, 128));
    assert(schema_shapes()[kind_start(14) + 5] == shapes[5]);
    assert(shapes[5] == Shape::Row(92, 0, u32::MAX as int, Some(2u32)));
    assert(schema_shapes()[kind_start(14) + 6] == shapes[6]);
    assert(shapes[6] == Shape::Record(ascii_record(88)));
}

/// The shapes of the types that describe the ASCII type are sound.
pub proof fn lemma_sound_ascii()
    ensures
        forall|j: int| 0 <= j < 7 ==> sound(#[trigger] schema_shapes()[88 + j]),
{
    lemma_schema_shapes();
    reveal_strlit("codes");
    lemma_snake_case_is_identifier("codes"@);
    reveal_strlit("length");
    lemma_snake_case_is_identifier("length"@);
    reveal_strlit("meta_doc");
    lemma_snake_case_is_identifier("meta_doc"@);
    reveal_strlit("meta_name");
    lemma_snake_case_is_identifier("meta_name"@);
    let shapes = kind_shapes(14, 88);
    assert(schema_shapes()[kind_start(14) + 0] == shapes[0]);
    assert(shapes[0] == Shape::Text);
    assert(sound(Shape::Text));
    assert(schema_shapes()[kind_start(14) + 1] == shapes[1]);
    assert(shapes[1] == Shape::Maybe(88));
    assert(sound(Shape::Maybe(88)));
    assert(schema_shapes()[kind_start(14) + 2] == shapes[2]);
    assert(shapes[2] == Shape::Unsigned(0, u64::MAX as int));
    assert(sound(Shape::Unsigned(0, u64::MAX as int)));
    assert(schema_shapes()[kind_start(14) + 3] == shapes[3]);
    assert(shapes[3] == Shape::Span(90));
    assert(sound(Shape::Span(90)));
    assert(schema_shapes()[kind_start(14) + 4] == shapes[4]);
    assert(shapes[4] == Shape::Unsigned(0, 128));
    assert(sound(Shape::Unsigned(0, 128)));
    assert(schema_shapes()[kind_start(14) + 5] == shapes[5]);
    assert(shapes[5] == Shape::Row(92, 0, u32::MAX as int, Some(2u32)));
    assert(sound(Shape::Row(92, 0, u32::MAX as int, Some(2u32))));
    assert(schema_shapes()[kind_start(14) + 6] == shapes[6]);
    assert(shapes[6] == Shape::Record(ascii_record(88)));
    assert(sound(Shape::Record(ascii_record(88))));
    assert forall|j: int| 0 <= j < 7 implies sound(#[trigger] schema_shapes()[88 + j]) by {
        assert(j == 0 ==> schema_shapes()[88 + j] == shapes[0]);
        assert(j == 1 ==> schema_shapes()[88 + j] == shapes[1]);
        assert(j == 2 ==> schema_shapes()[88 + j] == shapes[2]);
        assert(j == 3 ==> schema_shapes()[88 + j] == shapes[3]);
        assert(j == 4 ==> schema_shapes()[88 + j] == shapes[4]);
        assert(j == 5 ==> schema_shapes()[88 + j] == shapes[5]);
        assert(j == 6 ==> schema_shapes()[88 + j] == shapes[6]);
    }
}

/// The shapes of the types that describe the UUID type are sound.
pub proof fn lemma_sound_uuid()
    ensures
        forall|j: int| 0 <= j < 3 ==> sound(#[trigger] schema_shapes()[95 + j]),
{
    lemma_schema_shapes();
    reveal_strlit("meta_doc");
    lemma_snake_case_is_identifier("meta_doc"@);
    reveal_strlit("meta_name");
    lemma_snake_case_is_identifier("meta_name"@);
    let shapes = kind_shapes(15, 95);
    assert(schema_shapes()[kind_start(15) + 0] == shapes[0]);
    assert(shapes[0] == Shape::Text);
    assert(sound(Shape::Text));
    assert(schema_shapes()[kind_start(15) + 1] == shapes[1]);
    assert(shapes[1] == Shape::Maybe(95));
    assert(sound(Shape::Maybe(95)));
    assert(schema_shapes()[kind_start(15) + 2] == shapes[2]);
    assert(shapes[2] == Shape::Record(uuid_record(95)));
    assert(sound(Shape::Record(uuid_record(95))));
    assert forall|j: int| 0 <= j < 3 implies sound(#[trigger] schema_shapes()[95 + j]) by {
        assert(j == 0 ==> schema_shapes()[95 + j] == shapes[0]);
        assert(j == 1 ==> schema_shapes()[95 + j] == shapes[1]);
        assert(j == 2 ==> schema_shapes()[95 + j] == shapes[2]);
    }
}

/// The shapes of the types that describe the range type.
pub proof fn lemma_types_of_range(env: Env)
    requires
        described(env),
    ensures
        env.types.len() == 118,
        shaped(env.types[98], Shape::Text),
        shaped(env.types[99], Shape::Maybe(98)),
        shaped(env.types[100], Shape::Reference),
        shaped(env.types[101], cases_shape(seq!["both_inclusive"@, "start_inclusive"@, "both_exclusive"@, "end_inclusive"@, "supplied"@])),
        shaped(env.types[102], Shape::Flag),
        shaped(env.types[103], Shape::Record(range_record(98))),
{
    lemma_schema_shapes();
    let shapes = kind_shapes(16, 98);
    assert(schema_shapes()[kind_start(16) + 0] == shapes[0]);
    assert(shapes[0] == Shape::Text);
    assert(schema_shapes()[kind_start(16) + 1] == shapes[1]);
    assert(shapes[1] == Shape::Maybe(98));
    assert(schema_shapes()[kind_start(16) + 2] == shapes[2]);
    assert(shapes[2] == Shape::Reference);
    assert(schema_shapes()[kind_start(16) + 3] == shapes[3]);
    assert(shapes[3] == cases_shape(seq!["both_inclusive"@, "start_inclusive"@, "both_exclusive"@, "end_inclusive"@, "supplied"@]));
    assert(schema_shapes()[kind_start(16) + 4] == shapes[4]);
    assert(shapes[4] == Shape::Flag);
    assert(schema_shapes()[kind_start(16) + 5] == shapes[5]);
    assert(shapes[5] == Shape::Record(range_record(98)));
}

/// The shapes of the types that describe the range type are sound.
pub proof fn lemma_sound_range()
    ensures
        forall|j: int| 0 <= j < 6 ==> sound(#[trigger] schema_shapes()[98 + j]),
{
    lemma_schema_shapes();
    reveal_strlit("allow_empty");
    lemma_snake_case_is_identifier("allow_empty"@);
    reveal_strlit("both_exclusive");
    lemma_snake_case_is_identifier("both_exclusive"@);
    reveal_strlit("both_inclusive");
    lemma_snake_case_is_identifier("both_inclusive"@);
    reveal_strlit("element");
    lemma_snake_case_is_identifier("element"@);
    reveal_strlit("end_inclusive");
    lemma_snake_case_is_identifier("end_inclusive"@);
    reveal_strlit("inclusion");
    lemma_snake_case_is_identifier("inclusion"@);
    reveal_strlit("meta_doc");
    lemma_snake_case_is_identifier("meta_doc"@);
    reveal_strlit("meta_name");
    lemma_snake_case_is_identifier("meta_name"@);
    reveal_strlit("start_inclusive");
    lemma_snake_case_is_identifier("start_inclusive"@);
    reveal_strlit("supplied");
    lemma_snake_case_is_identifier("supplied"@);
    let shapes = kind_shapes(16, 98);
    assert(schema_shapes()[kind_start(16) + 0] == shapes[0]);
    assert(shapes[0] == Shape::Text);
    assert(sound(Shape::Text));
    assert(schema_shapes()[kind_start(16) + 1] == shapes[1]);
    assert(shapes[1] == Shape::Maybe(98));
    assert(sound(Shape::Maybe(98)));
    assert(schema_shapes()[kind_start(16) + 2] == shapes[2]);
    assert(shapes[2] == Shape::Reference);
    assert(sound(Shape::Reference));
    assert(schema_shapes()[kind_start(16) + 3] == shapes[3]);
    assert(shapes[3] == cases_shape(seq!["both_inclusive"@, "start_inclusive"@, "both_exclusive"@, "end_inclusive"@, "supplied"@]));
    assert(sound(cases_shape(seq!["both_inclusive"@, "start_inclusive"@, "both_exclusive"@, "end_inclusive"@, "supplied"@])));
    assert(schema_shapes()[kind_start(16) + 4] == shapes[4]);
    assert(shapes[4] == Shape::Flag);
    assert(sound(Shape::Flag));
    assert(schema_shapes()[kind_start(16) + 5] == shapes[5]);
    assert(shapes[5] == Shape::Record(range_record(98)));
    assert(sound(Shape::Record(range_record(98))));
    assert forall|j: int| 0 <= j < 6 implies sound(#[trigger] schema_shapes()[98 + j]) by {
        assert(j == 0 ==> schema_shapes()[98 + j] == shapes[0]);
        assert(j == 1 ==> schema_shapes()[98 + j] == shapes[1]);
        assert(j == 2 ==> schema_shapes()[98 + j] == shapes[2]);
        assert(j == 3 ==> schema_shapes()[98 + j] == shapes[3]);
        assert(j == 4 ==> schema_shapes()[98 + j] == shapes[4]);
        assert(j == 5 ==> schema_shapes()[98 + j] == shapes[5]);
    }
}

/// The shapes of the types that describe the decimal type are sound.
pub proof fn lemma_sound_decimal()
    ensures
        forall|j: int| 0 <= j < 7 ==> sound(#[trigger] schema_shapes()[104 + j]),
{
    lemma_schema_shapes();
    reveal_strlit("coefficient");
    lemma_snake_case_is_identifier("coefficient"@);
    reveal_strlit("exponent");
    lemma_snake_case_is_identifier("exponent"@);
    reveal_strlit("meta_doc");
    lemma_snake_case_is_identifier("meta_doc"@);
    reveal_strlit("meta_name");
    lemma_snake_case_is_identifier("meta_name"@);
    let shapes = kind_shapes(17, 104);
    assert(schema_shapes()[kind_start(17) + 0] == shapes[0]);
    assert(shapes[0] == Shape::Text);
    assert(sound(Shape::Text));
    assert(schema_shapes()[kind_start(17) + 1] == shapes[1]);
    assert(shapes[1] == Shape::Maybe(104));
    assert(sound(Shape::Maybe(104)));
    assert(schema_shapes()[kind_start(17) + 2] == shapes[2]);
    assert(shapes[2] == Shape::Signed(i128::MIN as int, i128::MAX as int));
    assert(sound(Shape::Signed(i128::MIN as int, i128::MAX as int)));
    assert(schema_shapes()[kind_start(17) + 3] == shapes[3]);
    assert(shapes[3] == Shape::Span(106));
    assert(sound(Shape::Span(106)));
    assert(schema_shapes()[kind_start(17) + 4] == shapes[4]);
    assert(shapes[4] == Shape::Signed(i8::MIN as int, i8::MAX as int));
    assert(sound(Shape::Signed(i8::MIN as int, i8::MAX as int)));
    assert(schema_shapes()[kind_start(17) + 5] == shapes[5]);
    assert(shapes[5] == Shape::Span(108));
    assert(sound(Shape::Span(108)));
    assert(schema_shapes()[kind_start(17) + 6] == shapes[6]);
    assert(shapes[6] == Shape::Record(decimal_record(104)));
    assert(sound(Shape::Record(decimal_record(104))));
    assert forall|j: int| 0 <= j < 7 implies sound(#[trigger] schema_shapes()[104 + j]) by {
        assert(j == 0 ==> schema_shapes()[104 + j] == shapes[0]);
        assert(j == 1 ==> schema_shapes()[104 + j] == shapes[1]);
        assert(j == 2 ==> schema_shapes()[104 + j] == shapes[2]);
        assert(j == 3 ==> schema_shapes()[104 + j] == shapes[3]);
        assert(j == 4 ==> schema_shapes()[104 + j] == shapes[4]);
        assert(j == 5 ==> schema_shapes()[104 + j] == shapes[5]);
        assert(j == 6 ==> schema_shapes()[104 + j] == shapes[6]);
    }
}


/// The document of a type fits the type of all types where its metadata
/// and its parameters fit the fields of the structure that describes its
/// kind.
pub proof fn lemma_kind_fits(
    env: Env,
    k: int,
    meta: Meta,
    params: Seq<ValueView>,
    record: Seq<(Seq<char>, int)>,
    frames: Seq<u32>,
)
    requires
        described(env),
        0 <= k < kind_count(),
        shaped(env.types[kind_start(k)], Shape::Text),
        shaped(env.types[kind_start(k) + 1], Shape::Maybe(kind_start(k))),
        shaped(env.types[kind_start(k + 1) - 1], Shape::Record(record)),
        record.len() == 2 + params.len(),
        params.len() <= 100,
        record[0].1 == kind_start(k) + 1,
        record[1].1 == kind_start(k) + 1,
        meta.name matches Some(t) ==> encode_utf8(t@).len() <= u64::MAX,
        meta.doc matches Some(t) ==> encode_utf8(t@).len() <= u64::MAX,
        forall|i: int|
            0 <= i < params.len() ==> fits(env, record[2 + i].1, #[trigger] params[i], frames),
    ensures
        fits(
            env,
            111,
            ValueView::Enum(k as u32, seq![ValueView::List(meta_views(meta) + params)]),
            frames,
        ),
{
    lemma_schema_shapes();
    let start = kind_start(k);
    let at = kind_start(k + 1) - 1;
    let structure = env.types[at]->Struct_0;
    let targets = field_targets(structure.fields@);
    let items = meta_views(meta) + params;
    lemma_text_fits(env, start, meta.doc, frames);
    lemma_text_fits(env, start, meta.name, frames);
    assert forall|i: int| 0 <= i < items.len() implies conforms(
        env,
        targets[i],
        #[trigger] items[i],
        frames,
    ) && encodable(items[i]) by {
        assert(at_index(structure.fields@[i].type_ref, record[i].1));
        assert(targets[i] == RefTarget::Index(record[i].1 as u32));
        if i == 0 {
            assert(items[i] == text_view(meta.doc));
        } else if i == 1 {
            assert(items[i] == text_view(meta.name));
        } else {
            assert(items[i] == params[i - 2]);
            assert(fits(env, record[2 + (i - 2)].1, params[i - 2], frames));
        }
    }
    lemma_row_conforms_all(env, targets, items, frames);
    lemma_all_encodable_all(items);
    let whole = ValueView::List(items);
    assert(resolve_in(env, RefTarget::Index(at as u32)) == Some(env.types[at]));
    assert(conforms_type(env, env.types[at], whole, frames));
    assert(conforms(env, RefTarget::Index(at as u32), whole, frames));
    assert(encodable(whole));
    // the case of the kind
    assert(shaped(env.types[111], schema_shapes()[111]));
    let cases = env.types[111]->Enum_0;
    let variants = any_type_shape(0)->Choice_0;
    assert(variants[k] == (kind_id(k), seq![at]));
    assert(at_index(cases.variants@[k].values@[0], variants[k].1[0]));
    let values = targets_of(cases.variants@[k].values@);
    assert(values[0] == RefTarget::Index(at as u32));
    let held = seq![whole];
    assert forall|i: int| 0 <= i < held.len() implies conforms(
        env,
        values[i],
        #[trigger] held[i],
        frames,
    ) && encodable(held[i]) by {}
    lemma_row_conforms_all(env, values, held, frames);
    lemma_all_encodable_all(held);
    assert(resolve_in(env, RefTarget::Index(111u32)) == Some(env.types[111]));
    assert(conforms_type(env, env.types[111], ValueView::Enum(k as u32, held), frames));
}

/// The case of an ordinal fits an enumeration whose variant of that ordinal
/// has no value.
pub proof fn lemma_plain_case_fits(
    env: Env,
    at: int,
    variants: Seq<(Seq<char>, Seq<int>)>,
    ordinal: int,
    frames: Seq<u32>,
)
    requires
        0 <= at < env.types.len(),
        at <= u32::MAX,
        shaped(env.types[at], Shape::Choice(variants)),
        0 <= ordinal < variants.len(),
        ordinal <= u32::MAX,
        variants[ordinal].1.len() == 0,
    ensures
        fits(env, at, case_view(ordinal as u32), frames),
{
    assert(resolve_in(env, RefTarget::Index(at as u32)) == Some(env.types[at]));
    let e = env.types[at]->Enum_0;
    assert(e.variants@[ordinal].values@.len() == 0);
    let none = Seq::<ValueView>::empty();
    assert(row_conforms(env, targets_of(e.variants@[ordinal].values@), none, frames));
    assert(case_view(ordinal as u32) == ValueView::Enum(ordinal as u32, none));
    assert(conforms_type(env, env.types[at], ValueView::Enum(ordinal as u32, none), frames));
    assert(all_encodable(none));
}

/// A pair of values fits a structure of two fields whose types they fit.
pub proof fn lemma_pair_fits(
    env: Env,
    at: int,
    record: Seq<(Seq<char>, int)>,
    first: ValueView,
    second: ValueView,
    frames: Seq<u32>,
)
    requires
        0 <= at < env.types.len(),
        at <= u32::MAX,
        shaped(env.types[at], Shape::Record(record)),
        record.len() == 2,
        fits(env, record[0].1, first, frames),
        fits(env, record[1].1, second, frames),
    ensures
        fits(env, at, pair_view(first, second), frames),
{
    assert(resolve_in(env, RefTarget::Index(at as u32)) == Some(env.types[at]));
    let structure = env.types[at]->Struct_0;
    let targets = field_targets(structure.fields@);
    let items = seq![first, second];
    assert forall|i: int| 0 <= i < items.len() implies conforms(
        env,
        targets[i],
        #[trigger] items[i],
        frames,
    ) && encodable(items[i]) by {
        assert(at_index(structure.fields@[i].type_ref, record[i].1));
        assert(targets[i] == RefTarget::Index(record[i].1 as u32));
    }
    lemma_row_conforms_all(env, targets, items, frames);
    lemma_all_encodable_all(items);
    assert(conforms_type(env, env.types[at], ValueView::List(items), frames));
}

/// A row of values fits a sequence in any order whose element type they
/// fit, where its length is one of the sequence.
pub proof fn lemma_list_fits(
    env: Env,
    at: int,
    element: int,
    least: int,
    most: int,
    multiple: Option<u32>,
    items: Seq<ValueView>,
    frames: Seq<u32>,
)
    requires
        0 <= at < env.types.len(),
        at <= u32::MAX,
        shaped(env.types[at], Shape::Row(element, least, most, multiple)),
        least <= items.len() <= most,
        most <= u32::MAX,
        crate::schema::rules::multiple_ok(items.len() as int, multiple),
        forall|i: int| 0 <= i < items.len() ==> fits(env, element, #[trigger] items[i], frames),
    ensures
        fits(env, at, ValueView::List(items), frames),
{
    assert(resolve_in(env, RefTarget::Index(at as u32)) == Some(env.types[at]));
    let q = env.types[at]->Sequence_0;
    let target = q.element.target();
    assert(items.len() > 0 ==> target == RefTarget::Index(element as u32)) by {
        if items.len() > 0 {
            assert(fits(env, element, items[0], frames));
        }
    }
    assert forall|i: int| 0 <= i < items.len() implies conforms(
        env,
        target,
        #[trigger] items[i],
        frames,
    ) && encodable(items[i]) by {
        assert(fits(env, element, items[i], frames));
    }
    lemma_items_conform_all(env, target, items, frames);
    lemma_all_encodable_all(items);
    assert(conforms_type(env, env.types[at], ValueView::List(items), frames));
}

/// The document of a text type fits the type of all types.
pub proof fn lemma_text_fits_doc(env: Env, names: Seq<Seq<char>>, t: AnyType, s: Shape, frames: Seq<u32>)
    requires
        described(env),
        shaped(t, s),
        documented(t),
        sound(s),
        s is Text,
        frames.len() > 0,
        frames.last() == 118,
    ensures
        type_view(names, t) is Some,
        fits(env, 111, type_view(names, t).unwrap(), frames),
{
    lemma_types_of_unicode(env);
    let u = t->Unicode_0;
    let params = seq![
        unsigned_range_view(u.length.spec_start(), u.length.spec_end()),
        length_type_view(u.length_type),
    ];
    lemma_unsigned_range_fits(env, 27, 26, 0, u64::MAX as int, 0, u64::MAX as int, frames);
    lemma_case_fits(env, 28, seq!["byte"@, "utf8_byte"@, "scalar_value"@], 1, frames);
    assert(params[0] == unsigned_range_view(0, u64::MAX as int));
    assert(params[1] == case_view(1));
    assert(parameters_view(names, t) == Some(params));
    lemma_kind_fits(env, 4, t.spec_meta(), params, unicode_record(kind_start(4)), frames);
    assert(kind_ordinal(t) == 4);
}

/// The document of an option type fits the type of all types.
pub proof fn lemma_maybe_fits(env: Env, names: Seq<Seq<char>>, t: AnyType, s: Shape, frames: Seq<u32>)
    requires
        described(env),
        shaped(t, s),
        documented(t),
        sound(s),
        s is Maybe,
        frames.len() > 0,
        frames.last() == 118,
    ensures
        type_view(names, t) is Some,
        fits(env, 111, type_view(names, t).unwrap(), frames),
{
    lemma_types_of_option(env);
    let o = t->Option_0;
    let i = s->Maybe_0;
    let params = seq![ValueView::UInt(i as u128)];
    lemma_reference_fits(env, 5, i, frames);
    assert(reference_view(names, o.inner.target()) == Some(ValueView::UInt(i as u128)));
    assert(parameters_view(names, t) == Some(params));
    lemma_kind_fits(env, 1, t.spec_meta(), params, option_record(kind_start(1)), frames);
    assert(kind_ordinal(t) == 1);
}

/// The document of a key reference type fits the type of all types.
pub proof fn lemma_reference_fits_doc(env: Env, names: Seq<Seq<char>>, t: AnyType, s: Shape, frames: Seq<u32>)
    requires
        described(env),
        shaped(t, s),
        documented(t),
        sound(s),
        s is Reference,
        frames.len() > 0,
        frames.last() == 118,
    ensures
        type_view(names, t) is Some,
        fits(env, 111, type_view(names, t).unwrap(), frames),
{
    lemma_types_of_key_ref(env);
    let params = Seq::<ValueView>::empty();
    assert(parameters_view(names, t) == Some(params));
    lemma_kind_fits(env, 13, t.spec_meta(), params, key_ref_record(kind_start(13)), frames);
    assert(kind_ordinal(t) == 13);
}

/// The document of a boolean type fits the type of all types.
pub proof fn lemma_flag_fits_doc(env: Env, names: Seq<Seq<char>>, t: AnyType, s: Shape, frames: Seq<u32>)
    requires
        described(env),
        shaped(t, s),
        documented(t),
        sound(s),
        s is Flag,
        frames.len() > 0,
        frames.last() == 118,
    ensures
        type_view(names, t) is Some,
        fits(env, 111, type_view(names, t).unwrap(), frames),
{
    lemma_types_of_bool(env);
    let params = Seq::<ValueView>::empty();
    assert(parameters_view(names, t) == Some(params));
    lemma_kind_fits(env, 0, t.spec_meta(), params, bool_record(kind_start(0)), frames);
    assert(kind_ordinal(t) == 0);
}

/// The document of a type of unsigned integers fits the type of all types.
pub proof fn lemma_unsigned_fits_doc(env: Env, names: Seq<Seq<char>>, t: AnyType, s: Shape, frames: Seq<u32>)
    requires
        described(env),
        shaped(t, s),
        documented(t),
        sound(s),
        s is Unsigned,
        frames.len() > 0,
        frames.last() == 118,
    ensures
        type_view(names, t) is Some,
        fits(env, 111, type_view(names, t).unwrap(), frames),
{
    lemma_types_of_uint(env);
    let u = t->UInt_0;
    let params = seq![unsigned_range_view(u.range.spec_start(), u.range.spec_end())];
    lemma_unsigned_range_fits(env, 33, 32, 0, u128::MAX as int, s->Unsigned_0, s->Unsigned_1, frames);
    assert(parameters_view(names, t) == Some(params));
    lemma_kind_fits(env, 5, t.spec_meta(), params, uint_record(kind_start(5)), frames);
    assert(kind_ordinal(t) == 5);
}

/// The document of a type of signed integers fits the type of all types.
pub proof fn lemma_signed_fits(env: Env, names: Seq<Seq<char>>, t: AnyType, s: Shape, frames: Seq<u32>)
    requires
        described(env),
        shaped(t, s),
        documented(t),
        sound(s),
        s is Signed,
        frames.len() > 0,
        frames.last() == 118,
    ensures
        type_view(names, t) is Some,
        fits(env, 111, type_view(names, t).unwrap(), frames),
{
    lemma_types_of_sint(env);
    let u = t->SInt_0;
    let params = seq![signed_range_view(u.range.spec_start(), u.range.spec_end())];
    lemma_signed_range_fits(
        env,
        38,
        37,
        i128::MIN as int,
        i128::MAX as int,
        s->Signed_0,
        s->Signed_1,
        frames,
    );
    assert(parameters_view(names, t) == Some(params));
    lemma_kind_fits(env, 6, t.spec_meta(), params, sint_record(kind_start(6)), frames);
    assert(kind_ordinal(t) == 6);
}

/// The document of a range type fits the type of all types.
pub proof fn lemma_span_fits(env: Env, names: Seq<Seq<char>>, t: AnyType, s: Shape, frames: Seq<u32>)
    requires
        described(env),
        shaped(t, s),
        documented(t),
        sound(s),
        s is Span,
        frames.len() > 0,
        frames.last() == 118,
    ensures
        type_view(names, t) is Some,
        fits(env, 111, type_view(names, t).unwrap(), frames),
{
    lemma_types_of_range(env);
    let r = t->Range_0;
    let i = s->Span_0;
    let params = seq![ValueView::UInt(i as u128), case_view(0), ValueView::Bool(false)];
    lemma_reference_fits(env, 100, i, frames);
    lemma_case_fits(
        env,
        101,
        seq![
            "both_inclusive"@,
            "start_inclusive"@,
            "both_exclusive"@,
            "end_inclusive"@,
            "supplied"@,
        ],
        0,
        frames,
    );
    lemma_flag_fits(env, 102, false, frames);
    assert(reference_view(names, r.element.target()) == Some(ValueView::UInt(i as u128)));
    assert(inclusion_view(r.inclusion) == case_view(0));
    assert(parameters_view(names, t) == Some(params));
    lemma_kind_fits(env, 16, t.spec_meta(), params, range_record(kind_start(16)), frames);
    assert(kind_ordinal(t) == 16);
}

/// The document of a sequence type fits the type of all types.
pub proof fn lemma_row_fits(env: Env, names: Seq<Seq<char>>, t: AnyType, s: Shape, frames: Seq<u32>)
    requires
        described(env),
        shaped(t, s),
        documented(t),
        sound(s),
        s is Row,
        frames.len() > 0,
        frames.last() == 118,
    ensures
        type_view(names, t) is Some,
        fits(env, 111, type_view(names, t).unwrap(), frames),
{
    lemma_types_of_seq(env);
    let q = t->Sequence_0;
    let i = s->Row_0;
    let params = seq![
        ValueView::UInt(i as u128),
        unsigned_range_view(q.length.spec_start(), q.length.spec_end()),
        order_view(q.ordering),
        maybe_number_view(q.multiple_of),
    ];
    lemma_reference_fits(env, 9, i, frames);
    lemma_unsigned_range_fits(env, 11, 10, 0, u32::MAX as int, s->Row_1, s->Row_2, frames);
    lemma_plain_case_fits(
        env,
        15,
        seq![("any"@, Seq::<int>::empty()), ("sorted"@, seq![14int])],
        0,
        frames,
    );
    assert(order_view(q.ordering) == case_view(0));
    assert(reference_view(names, q.element.target()) == Some(ValueView::UInt(i as u128)));
    match q.multiple_of {
        Some(m) => {
            lemma_unsigned_fits(env, 16, 0, u32::MAX as int, m as int, frames);
            let held = ValueView::UInt(m as u128);
            let whole = ValueView::Option(Some(Box::new(held)));
            assert(maybe_number_view(q.multiple_of) == whole);
            assert(resolve_in(env, RefTarget::Index(17u32)) == Some(env.types[17]));
            assert(env.types[17]->Option_0.inner.target() == RefTarget::Index(16u32));
            assert(conforms_type(env, env.types[17], whole, frames));
            assert(encodable(whole));
        },
        None => {
            assert(resolve_in(env, RefTarget::Index(17u32)) == Some(env.types[17]));
        },
    }
    assert(fits(env, 17, params[3], frames));
    assert(parameters_view(names, t) == Some(params));
    lemma_kind_fits(env, 2, t.spec_meta(), params, seq_record(kind_start(2)), frames);
    assert(kind_ordinal(t) == 2);
}

/// The document of an ASCII type fits the type of all types.
pub proof fn lemma_codes_fits(env: Env, names: Seq<Seq<char>>, t: AnyType, s: Shape, frames: Seq<u32>)
    requires
        described(env),
        shaped(t, s),
        documented(t),
        sound(s),
        s is Codes,
        frames.len() > 0,
        frames.last() == 118,
    ensures
        type_view(names, t) is Some,
        fits(env, 111, type_view(names, t).unwrap(), frames),
{
    lemma_types_of_ascii(env);
    let a = t->Ascii_0;
    let codes = a.codes.codes@;
    let params = seq![
        unsigned_range_view(a.length.spec_start(), a.length.spec_end()),
        codes_view(codes),
    ];
    lemma_unsigned_range_fits(env, 91, 90, 0, u64::MAX as int, s->Codes_0, s->Codes_1, frames);
    let items = Seq::new(codes.len(), |i: int| ValueView::UInt(codes[i] as u128));
    assert forall|i: int| 0 <= i < items.len() implies fits(env, 92, #[trigger] items[i], frames) by {
        lemma_unsigned_fits(env, 92, 0, 128, codes[i] as int, frames);
    }
    lemma_list_fits(env, 93, 92, 0, u32::MAX as int, Some(2u32), items, frames);
    assert(parameters_view(names, t) == Some(params));
    lemma_kind_fits(env, 14, t.spec_meta(), params, ascii_record(kind_start(14)), frames);
    assert(kind_ordinal(t) == 14);
}

/// The document of the type of the floats of 32 bits fits the type of all types.
pub proof fn lemma_float32_fits(env: Env, names: Seq<Seq<char>>, t: AnyType, s: Shape, frames: Seq<u32>)
    requires
        described(env),
        shaped(t, s),
        documented(t),
        sound(s),
        s is Float32All,
        frames.len() > 0,
        frames.last() == 118,
    ensures
        type_view(names, t) is Some,
        fits(env, 111, type_view(names, t).unwrap(), frames),
{
    lemma_types_of_f32(env);
    let f = t->Float32_0;
    let params = seq![ValueView::Float(Float::F32(f.min)), ValueView::Float(Float::F32(f.max))]
        + flags_views(f.flags);
    assert(resolve_in(env, RefTarget::Index(42u32)) == Some(env.types[42]));
    assert(fits(env, 42, params[0], frames));
    assert(fits(env, 42, params[1], frames));
    lemma_flag_fits(env, 43, true, frames);
    assert forall|i: int| 0 <= i < params.len() implies fits(
        env,
        f32_record(40)[2 + i].1,
        #[trigger] params[i],
        frames,
    ) by {}
    assert(parameters_view(names, t) == Some(params));
    lemma_kind_fits(env, 7, t.spec_meta(), params, f32_record(kind_start(7)), frames);
    assert(kind_ordinal(t) == 7);
}

/// The document of the type of the floats of 64 bits fits the type of all types.
pub proof fn lemma_float64_fits(env: Env, names: Seq<Seq<char>>, t: AnyType, s: Shape, frames: Seq<u32>)
    requires
        described(env),
        shaped(t, s),
        documented(t),
        sound(s),
        s is Float64All,
        frames.len() > 0,
        frames.last() == 118,
    ensures
        type_view(names, t) is Some,
        fits(env, 111, type_view(names, t).unwrap(), frames),
{
    lemma_types_of_f64(env);
    let f = t->Float64_0;
    let params = seq![ValueView::Float(Float::F64(f.min)), ValueView::Float(Float::F64(f.max))]
        + flags_views(f.flags);
    assert(resolve_in(env, RefTarget::Index(47u32)) == Some(env.types[47]));
    assert(fits(env, 47, params[0], frames));
    assert(fits(env, 47, params[1], frames));
    lemma_flag_fits(env, 48, true, frames);
    assert forall|i: int| 0 <= i < params.len() implies fits(
        env,
        f64_record(45)[2 + i].1,
        #[trigger] params[i],
        frames,
    ) by {}
    assert(parameters_view(names, t) == Some(params));
    lemma_kind_fits(env, 8, t.spec_meta(), params, f64_record(kind_start(8)), frames);
    assert(kind_ordinal(t) == 8);
}

/// The document of a root map type fits the type of all types.
pub proof fn lemma_root_fits(env: Env, names: Seq<Seq<char>>, t: AnyType, s: Shape, frames: Seq<u32>)
    requires
        described(env),
        shaped(t, s),
        documented(t),
        sound(s),
        s is Root,
        frames.len() > 0,
        frames.last() == 118,
    ensures
        type_view(names, t) is Some,
        fits(env, 111, type_view(names, t).unwrap(), frames),
{
    lemma_types_of_root_map(env);
    let m = t->RootMap_0;
    let params = seq![
        ValueView::UInt(s->Root_0 as u128),
        ValueView::UInt(s->Root_1 as u128),
        ValueView::UInt(s->Root_2 as u128),
        case_view(0),
        unsigned_range_view(0, u32::MAX as int),
    ];
    lemma_reference_fits(env, 78, s->Root_0, frames);
    lemma_reference_fits(env, 79, s->Root_1, frames);
    lemma_reference_fits(env, 80, s->Root_2, frames);
    lemma_case_fits(env, 81, seq!["ascending"@, "descending"@], 0, frames);
    lemma_unsigned_range_fits(env, 83, 82, 0, u32::MAX as int, 0, u32::MAX as int, frames);
    assert(sorting_view(m.sorting) == case_view(0));
    assert(parameters_view(names, t) == Some(params));
    lemma_kind_fits(env, 12, t.spec_meta(), params, root_map_record(kind_start(12)), frames);
    assert(kind_ordinal(t) == 12);
}

/// The document of a structure type fits the type of all types.
pub proof fn lemma_record_fits(env: Env, names: Seq<Seq<char>>, t: AnyType, s: Shape, frames: Seq<u32>)
    requires
        described(env),
        shaped(t, s),
        documented(t),
        sound(s),
        s is Record,
        frames.len() > 0,
        frames.last() == 118,
    ensures
        type_view(names, t) is Some,
        fits(env, 111, type_view(names, t).unwrap(), frames),
{
    lemma_types_of_struct(env);
    let r = t->Struct_0;
    let fields = s->Record_0;
    let list = Seq::new(
        fields.len(),
        |i: int|
            pair_view(identifier_view(split_segments(fields[i].0)), ValueView::UInt(fields[i].1 as u128)),
    );
    let params = seq![ValueView::List(list)];
    let views = Seq::new(r.fields@.len(), |i: int| field_view(names, r.fields@[i]));
    assert forall|i: int| 0 <= i < views.len() implies #[trigger] views[i] == Some(list[i]) by {
        assert(named(r.fields@[i].identifier, fields[i].0));
        assert(at_index(r.fields@[i].type_ref, fields[i].1));
        assert(identifier_text_valid(fields[i].0));
    }
    assert(collected(views).unwrap() =~= list);
    assert forall|i: int| 0 <= i < list.len() implies fits(env, 64, #[trigger] list[i], frames) by {
        assert(identifier_text_valid(fields[i].0));
        lemma_identifier_fits(env, 62, split_segments(fields[i].0), frames);
        lemma_reference_fits(env, 63, fields[i].1, frames);
        lemma_pair_fits(
            env,
            64,
            seq![("name"@, 62int), ("type"@, 63int)],
            identifier_view(split_segments(fields[i].0)),
            ValueView::UInt(fields[i].1 as u128),
            frames,
        );
    }
    lemma_list_fits(env, 65, 64, 0, u32::MAX as int, None, list, frames);
    assert(parameters_view(names, t) == Some(params));
    lemma_kind_fits(env, 10, t.spec_meta(), params, struct_record(kind_start(10)), frames);
    assert(kind_ordinal(t) == 10);
}

/// The document of an enumeration type fits the type of all types.
pub proof fn lemma_choice_fits(env: Env, names: Seq<Seq<char>>, t: AnyType, s: Shape, frames: Seq<u32>)
    requires
        described(env),
        shaped(t, s),
        documented(t),
        sound(s),
        s is Choice,
        frames.len() > 0,
        frames.last() == 118,
    ensures
        type_view(names, t) is Some,
        fits(env, 111, type_view(names, t).unwrap(), frames),
{
    lemma_types_of_enum(env);
    let e = t->Enum_0;
    let variants = s->Choice_0;
    let list = Seq::new(
        variants.len(),
        |v: int|
            pair_view(
                identifier_view(split_segments(variants[v].0)),
                ValueView::List(
                    Seq::new(variants[v].1.len(), |k: int| ValueView::UInt(variants[v].1[k] as u128)),
                ),
            ),
    );
    let params = seq![ValueView::List(list)];
    let views = Seq::new(e.variants@.len(), |v: int| variant_view(names, e.variants@[v]));
    assert forall|v: int| 0 <= v < views.len() implies #[trigger] views[v] == Some(list[v]) by {
        assert(named(e.variants@[v].name, variants[v].0));
        let values = e.variants@[v].values@;
        let wanted = Seq::new(
            variants[v].1.len(),
            |k: int| ValueView::UInt(variants[v].1[k] as u128),
        );
        let found = Seq::new(values.len(), |k: int| reference_view(names, values[k].target()));
        assert forall|k: int| 0 <= k < found.len() implies #[trigger] found[k] == Some(
            wanted[k],
        ) by {
            assert(at_index(values[k], variants[v].1[k]));
        }
        assert(collected(found).unwrap() =~= wanted);
    }
    assert(collected(views).unwrap() =~= list);
    assert forall|v: int| 0 <= v < list.len() implies fits(env, 56, #[trigger] list[v], frames) by {
        assert(identifier_text_valid(variants[v].0));
        lemma_identifier_fits(env, 53, split_segments(variants[v].0), frames);
        let wanted = Seq::new(
            variants[v].1.len(),
            |k: int| ValueView::UInt(variants[v].1[k] as u128),
        );
        assert forall|k: int| 0 <= k < wanted.len() implies fits(
            env,
            54,
            #[trigger] wanted[k],
            frames,
        ) by {
            lemma_reference_fits(env, 54, variants[v].1[k], frames);
        }
        lemma_list_fits(env, 55, 54, 0, u32::MAX as int, None, wanted, frames);
        lemma_pair_fits(
            env,
            56,
            seq![("name"@, 53int), ("values"@, 55int)],
            identifier_view(split_segments(variants[v].0)),
            ValueView::List(wanted),
            frames,
        );
    }
    lemma_list_fits(env, 57, 56, 0, u32::MAX as int, None, list, frames);
    assert(parameters_view(names, t) == Some(params));
    lemma_kind_fits(env, 9, t.spec_meta(), params, enum_record(kind_start(9)), frames);
    assert(kind_ordinal(t) == 9);
}

/// The document of a type of the schema of schemas fits the type of all
/// types.
pub proof fn lemma_type_fits(env: Env, names: Seq<Seq<char>>, t: AnyType, s: Shape, frames: Seq<u32>)
    requires
        described(env),
        shaped(t, s),
        documented(t),
        sound(s),
        frames.len() > 0,
        frames.last() == 118,
    ensures
        type_view(names, t) is Some,
        fits(env, 111, type_view(names, t).unwrap(), frames),
{
    match s {
        Shape::Text => lemma_text_fits_doc(env, names, t, s, frames),
        Shape::Maybe(_) => lemma_maybe_fits(env, names, t, s, frames),
        Shape::Reference => lemma_reference_fits_doc(env, names, t, s, frames),
        Shape::Flag => lemma_flag_fits_doc(env, names, t, s, frames),
        Shape::Unsigned(_, _) => lemma_unsigned_fits_doc(env, names, t, s, frames),
        Shape::Signed(_, _) => lemma_signed_fits(env, names, t, s, frames),
        Shape::Span(_) => lemma_span_fits(env, names, t, s, frames),
        Shape::Row(_, _, _, _) => lemma_row_fits(env, names, t, s, frames),
        Shape::Record(_) => lemma_record_fits(env, names, t, s, frames),
        Shape::Choice(_) => lemma_choice_fits(env, names, t, s, frames),
        Shape::Codes(_, _, _) => lemma_codes_fits(env, names, t, s, frames),
        Shape::Float32All => lemma_float32_fits(env, names, t, s, frames),
        Shape::Float64All => lemma_float64_fits(env, names, t, s, frames),
        Shape::Root(_, _, _) => lemma_root_fits(env, names, t, s, frames),
    }
}

/// Every shape of the schema of schemas is sound.
pub proof fn lemma_all_sound()
    ensures
        schema_shapes().len() == 118,
        forall|i: int| 0 <= i < 118 ==> sound(#[trigger] schema_shapes()[i]),
{
    lemma_schema_shapes();
    lemma_sound_bool();
    lemma_sound_option();
    lemma_sound_seq();
    lemma_sound_binary();
    lemma_sound_unicode();
    lemma_sound_uint();
    lemma_sound_sint();
    lemma_sound_f32();
    lemma_sound_f64();
    lemma_sound_enum();
    lemma_sound_struct();
    lemma_sound_map();
    lemma_sound_root_map();
    lemma_sound_key_ref();
    lemma_sound_ascii();
    lemma_sound_uuid();
    lemma_sound_range();
    lemma_sound_decimal();
    lemma_sound_rest();
    assert forall|i: int| 0 <= i < 118 implies sound(#[trigger] schema_shapes()[i]) by {
        if i < 3 {
            assert(sound(schema_shapes()[0 + (i - 0)]));
        } else if i < 7 {
            assert(sound(schema_shapes()[3 + (i - 3)]));
        } else if i < 19 {
            assert(sound(schema_shapes()[7 + (i - 7)]));
        } else if i < 24 {
            assert(sound(schema_shapes()[19 + (i - 19)]));
        } else if i < 30 {
            assert(sound(schema_shapes()[24 + (i - 24)]));
        } else if i < 35 {
            assert(sound(schema_shapes()[30 + (i - 30)]));
        } else if i < 40 {
            assert(sound(schema_shapes()[35 + (i - 35)]));
        } else if i < 45 {
            assert(sound(schema_shapes()[40 + (i - 40)]));
        } else if i < 50 {
            assert(sound(schema_shapes()[45 + (i - 45)]));
        } else if i < 59 {
            assert(sound(schema_shapes()[50 + (i - 50)]));
        } else if i < 67 {
            assert(sound(schema_shapes()[59 + (i - 59)]));
        } else if i < 76 {
            assert(sound(schema_shapes()[67 + (i - 67)]));
        } else if i < 85 {
            assert(sound(schema_shapes()[76 + (i - 76)]));
        } else if i < 88 {
            assert(sound(schema_shapes()[85 + (i - 85)]));
        } else if i < 95 {
            assert(sound(schema_shapes()[88 + (i - 88)]));
        } else if i < 98 {
            assert(sound(schema_shapes()[95 + (i - 95)]));
        } else if i < 104 {
            assert(sound(schema_shapes()[98 + (i - 98)]));
        } else if i < 111 {
            assert(sound(schema_shapes()[104 + (i - 104)]));
        }
    }
}

/// The shapes of the type of all types and of the types of the schema
/// itself are sound.
pub proof fn lemma_sound_rest()
    ensures
        forall|i: int| 111 <= i < 118 ==> sound(#[trigger] schema_shapes()[i]),
{
    lemma_schema_shapes();
    reveal_strlit("name");
    lemma_snake_case_is_identifier("name"@);
    reveal_strlit("type");
    lemma_snake_case_is_identifier("type"@);
    lemma_kind_ids();
    let variants = any_type_shape(0)->Choice_0;
    assert forall|v: int| 0 <= v < variants.len() implies identifier_text_valid(
        (#[trigger] variants[v]).0,
    ) && variants[v].1.len() <= 100 && forall|k: int|
        0 <= k < variants[v].1.len() ==> 0 <= #[trigger] variants[v].1[k] < 118 by {
        assert(variants[v] == (kind_id(v), seq![kind_start(v + 1) - 1]));
    }
    assert(sound(schema_shapes()[111]));
    assert(sound(schema_shapes()[112]));
    assert(sound(schema_shapes()[113]));
    assert(sound(schema_shapes()[114]));
    assert(sound(schema_shapes()[115]));
    assert(sound(schema_shapes()[116]));
    assert(sound(schema_shapes()[117]));
}

/// The names of the kinds of types are identifiers.
pub proof fn lemma_kind_ids()
    ensures
        forall|k: int| 0 <= k < kind_count() ==> identifier_text_valid(#[trigger] kind_id(k)),
{
    reveal_strlit("bool");
    lemma_snake_case_is_identifier("bool"@);
    reveal_strlit("option");
    lemma_snake_case_is_identifier("option"@);
    reveal_strlit("seq");
    lemma_snake_case_is_identifier("seq"@);
    reveal_strlit("binary");
    lemma_snake_case_is_identifier("binary"@);
    reveal_strlit("unicode");
    lemma_snake_case_is_identifier("unicode"@);
    reveal_strlit("uint");
    lemma_snake_case_is_identifier("uint"@);
    reveal_strlit("sint");
    lemma_snake_case_is_identifier("sint"@);
    reveal_strlit("f32");
    lemma_snake_case_is_identifier("f32"@);
    reveal_strlit("f64");
    lemma_snake_case_is_identifier("f64"@);
    reveal_strlit("enum");
    lemma_snake_case_is_identifier("enum"@);
    reveal_strlit("struct");
    lemma_snake_case_is_identifier("struct"@);
    reveal_strlit("map");
    lemma_snake_case_is_identifier("map"@);
    reveal_strlit("root_map");
    lemma_snake_case_is_identifier("root_map"@);
    reveal_strlit("key_ref");
    lemma_snake_case_is_identifier("key_ref"@);
    reveal_strlit("ascii");
    lemma_snake_case_is_identifier("ascii"@);
    reveal_strlit("uuid");
    lemma_snake_case_is_identifier("uuid"@);
    reveal_strlit("range");
    lemma_snake_case_is_identifier("range"@);
    reveal_strlit("decimal");
    lemma_snake_case_is_identifier("decimal"@);
}

/// Entries with the keys 0, 1, 2 and so on, each a pair of a key and a
/// value that conform, are the entries of a map with ascending keys.
pub proof fn lemma_entries_conform_all(
    env: Env,
    key: RefTarget,
    value: RefTarget,
    entries: Seq<ValueView>,
    frames: Seq<u32>,
)
    requires
        forall|i: int|
            0 <= i < entries.len() ==> entry_number(#[trigger] entries[i]) == Some(i)
                && row_conforms(env, seq![key, value], entries[i]->List_0, frames),
    ensures
        entries_conform(
            env,
            key,
            value,
            crate::schema::types::map::Sorting::Ascending,
            entries,
            frames,
        ),
    decreases entries.len(),
{
    if entries.len() > 0 {
        let before = entries.drop_last();
        assert forall|i: int| 0 <= i < before.len() implies entry_number(#[trigger] before[i])
            == Some(i) && row_conforms(env, seq![key, value], before[i]->List_0, frames) by {
            assert(before[i] == entries[i]);
        }
        lemma_entries_conform_all(env, key, value, before, frames);
        let n = entries.len() as int;
        assert(entry_number(entries[n - 1]) == Some(n - 1));
        if n >= 2 {
            assert(entry_number(entries[n - 2]) == Some(n - 2));
        }
    }
}

/// Self-description: the schema of schemas has a document, which can be
/// written, and the bytes of the document are valid under the schema of
/// schemas in strict mode, up to their end.
pub proof fn lemma_self_description(schema: TypeContainer)
    requires
        is_schema_of_schemas(schema),
    ensures
        schema_view(schema.types@, name_texts(schema.names@), schema.root.target()) is Some,
        ({
            let document = schema_view(
                schema.types@,
                name_texts(schema.names@),
                schema.root.target(),
            ).unwrap();
            &&& encodable(document)
            &&& validate_at(
                schema.env(true),
                schema.root.target(),
                value_bytes(document),
                0,
                Seq::empty(),
            ) == Ok::<int, ErrorKind>(value_bytes(document).len() as int)
        }),
{
    let env = schema.env(true);
    let types = schema.types@;
    let names = name_texts(schema.names@);
    lemma_all_sound();
    lemma_schema_shapes();
    crate::schema::schema_names::lemma_schema_names_sound();
    assert(types.len() == 118);
    assert(names.len() == 118);
    assert(described(env));
    let frames = Seq::<u32>::empty().push(118u32);
    let root = schema.root.target();
    assert(root == RefTarget::Index(117u32));
    // the entries
    let views = Seq::new(types.len(), |i: int| entry_view(names, types, i));
    let entries = Seq::new(
        types.len(),
        |i: int|
            pair_view(
                ValueView::UInt(i as u128),
                pair_view(
                    identifier_view(split_segments(names[i])),
                    type_view(names, types[i]).unwrap(),
                ),
            ),
    );
    let key = RefTarget::Index(115u32);
    let value = RefTarget::Index(114u32);
    assert(shaped(types[111], schema_shapes()[111]));
    assert(shaped(types[112], schema_shapes()[112]));
    assert(shaped(types[113], schema_shapes()[113]));
    assert(shaped(types[114], schema_shapes()[114]));
    assert(shaped(types[115], schema_shapes()[115]));
    assert(shaped(types[116], schema_shapes()[116]));
    assert(shaped(types[117], schema_shapes()[117]));
    assert forall|i: int| 0 <= i < types.len() implies #[trigger] views[i] == Some(entries[i])
        && encodable(entries[i]) && entry_number(entries[i]) == Some(i) && row_conforms(
        env,
        seq![key, value],
        entries[i]->List_0,
        frames,
    ) by {
        assert(shaped(types[i], schema_shapes()[i]) && documented(types[i]));
        lemma_type_fits(env, names, types[i], schema_shapes()[i], frames);
        let described_type = type_view(names, types[i]).unwrap();
        assert(identifier_text_valid(names[i]));
        lemma_identifier_fits(env, 113, split_segments(names[i]), frames);
        let name = identifier_view(split_segments(names[i]));
        lemma_pair_fits(
            env,
            114,
            seq![("name"@, 113int), ("type"@, 111int)],
            name,
            described_type,
            frames,
        );
        lemma_unsigned_fits(env, 115, 0, u32::MAX as int, i, frames);
        let pair = seq![ValueView::UInt(i as u128), pair_view(name, described_type)];
        let targets = seq![key, value];
        assert forall|j: int| 0 <= j < pair.len() implies conforms(
            env,
            targets[j],
            #[trigger] pair[j],
            frames,
        ) && encodable(pair[j]) by {}
        lemma_row_conforms_all(env, targets, pair, frames);
        lemma_all_encodable_all(pair);
        assert(entries[i] == ValueView::List(pair));
    }
    assert(collected(views).unwrap() =~= entries);
    lemma_entries_conform_all(env, key, value, entries, frames);
    lemma_all_encodable_all(entries);
    // the root map
    let reference = ValueView::UInt(117u128);
    assert(reference_view(names, root) == Some(reference));
    let document = pair_view(reference, ValueView::List(entries));
    assert(schema_view(types, names, root) == Some(document));
    let parts = seq![reference, ValueView::List(entries)];
    lemma_reference_fits(env, 116, 117, frames);
    let first = parts.take(1);
    assert(first =~= seq![reference]);
    let root_targets = seq![RefTarget::Index(116u32)];
    assert forall|j: int| 0 <= j < first.len() implies conforms(
        env,
        root_targets[j],
        #[trigger] first[j],
        frames,
    ) by {}
    lemma_row_conforms_all(env, root_targets, first, frames);
    lemma_all_encodable_all(parts);
    assert(resolve_in(env, root) == Some(types[117]));
    let m = types[117]->RootMap_0;
    assert(m.root.target() == RefTarget::Index(116u32));
    assert(m.key.target() == key);
    assert(m.value.target() == value);
    assert(Seq::<u32>::empty().push(entries.len() as u32) == frames);
    assert(conforms_type(env, types[117], document, Seq::empty()));
    assert(encodable(document));
    let bytes = value_bytes(document);
    assert(bytes.subrange(0, bytes.len() as int) =~= bytes);
    lemma_value_at_of_bytes(bytes, 0, document);
    lemma_conforming_is_valid(env, root, bytes, 0, Seq::empty());
}

} // verus!
