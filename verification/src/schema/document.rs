//! A schema as a document of the schema of schemas.
//!
//! The document is a root map. Its root is the index of the root type. Its
//! entries are the types in the order of their index: the key of an entry is
//! the index, its value the pair of the name of the type and the type. A
//! type is a case of the type of all types: the ordinal of its kind, with
//! the structure of its metadata and its parameters. A reference to a type
//! is the index of that type.

use crate::error::{ErrorKind, LqError};
use crate::identifier::{identifier_at, split_segments, Identifier};
use crate::schema::any_type::{lemma_variant_references_all, variant_references, AnyType};
use crate::schema::container::{closed, find_name, name_texts, TypeContainer};
use crate::schema::metadata::Meta;
use crate::schema::rules::{name_index, resolve_index, Env};
use crate::schema::type_ref::{RefTarget, TypeRef};
use crate::schema::types::ascii::TAscii;
use crate::schema::types::enumeration::{TEnum, Variant};
use crate::schema::types::float::FloatFlags;
use crate::schema::types::map::{Sorting, TMap};
use crate::schema::types::range::{Inclusion, TRange};
use crate::schema::types::root_map::TRootMap;
use crate::schema::types::seq::{Direction, Order, TSeq};
use crate::schema::types::structure::{Field, TStruct};
use crate::schema::types::unicode::LengthType;
use crate::slice_reader::SliceReader;
use crate::types::float::Float;
use crate::types::seq::{seq_header_at, SeqHeader};
use crate::types::uint::{uint_at_most, UInt32};
use crate::value::{encodable, models, value_bytes, Value, ValueVariant, ValueView};
use crate::vec_writer::VecWriter;
use vstd::prelude::*;

verus! {

/// The values of a row, where every one of them is there.
pub open spec fn collected(items: Seq<Option<ValueView>>) -> Option<Seq<ValueView>> {
    if forall|i: int| 0 <= i < items.len() ==> (#[trigger] items[i]) is Some {
        Some(Seq::new(items.len(), |i: int| items[i].unwrap()))
    } else {
        None
    }
}

/// A pair of values: a sequence of the two.
pub open spec fn pair_view(first: ValueView, second: ValueView) -> ValueView {
    ValueView::List(seq![first, second])
}

/// A case without values.
pub open spec fn case_view(ordinal: u32) -> ValueView {
    ValueView::Enum(ordinal, Seq::empty())
}

/// A text that may be missing.
pub open spec fn text_view(text: Option<String>) -> ValueView {
    match text {
        Some(t) => ValueView::Option(Some(Box::new(ValueView::Unicode(t@)))),
        None => ValueView::Option(None),
    }
}

/// The metadata of a type: its documentation and its name.
pub open spec fn meta_views(meta: Meta) -> Seq<ValueView> {
    seq![text_view(meta.doc), text_view(meta.name)]
}

/// A reference to a type: the index of the type, for a name the index of
/// the first type of that name. Nothing for a name that the schema does not
/// know.
pub open spec fn reference_view(names: Seq<Seq<char>>, target: RefTarget) -> Option<ValueView> {
    match target {
        RefTarget::Index(index) => Some(ValueView::UInt(index as u128)),
        RefTarget::Name(name) => match name_index(names, name, 0) {
            Some(index) => Some(ValueView::UInt(index as u128)),
            None => None,
        },
    }
}

/// References to types, each as `reference_view` gives it.
pub open spec fn references_view(names: Seq<Seq<char>>, references: Seq<TypeRef>) -> Option<
    Seq<ValueView>,
> {
    collected(
        Seq::new(references.len(), |i: int| reference_view(names, references[i].target())),
    )
}

/// An identifier: the sequence of its segments as texts.
pub open spec fn identifier_view(segments: Seq<Seq<char>>) -> ValueView {
    ValueView::List(Seq::new(segments.len(), |i: int| ValueView::Unicode(segments[i])))
}

/// A range of unsigned numbers: start and end.
pub open spec fn unsigned_range_view(start: int, end: int) -> ValueView {
    pair_view(ValueView::UInt(start as u128), ValueView::UInt(end as u128))
}

/// A range of signed numbers: start and end.
pub open spec fn signed_range_view(start: int, end: int) -> ValueView {
    pair_view(ValueView::SInt(start as i128), ValueView::SInt(end as i128))
}

/// A sorting: the case of its ordinal.
pub open spec fn sorting_view(sorting: Sorting) -> ValueView {
    match sorting {
        Sorting::Ascending => case_view(0),
        Sorting::Descending => case_view(1),
    }
}

/// A direction: the case of its ordinal.
pub open spec fn direction_view(direction: Direction) -> ValueView {
    match direction {
        Direction::Ascending => case_view(0),
        Direction::Descending => case_view(1),
    }
}

/// The ordering of a sequence: the case `any`, or the case `sorted` with the
/// pair of direction and uniqueness.
pub open spec fn order_view(order: Order) -> ValueView {
    match order {
        Order::Any => case_view(0),
        Order::Sorted { direction, unique } => ValueView::Enum(
            1,
            seq![pair_view(direction_view(direction), ValueView::Bool(unique))],
        ),
    }
}

/// What the length of a text counts: the case of its ordinal.
pub open spec fn length_type_view(length_type: LengthType) -> ValueView {
    match length_type {
        LengthType::Byte => case_view(0),
        LengthType::Utf8Byte => case_view(1),
        LengthType::ScalarValue => case_view(2),
    }
}

/// The inclusion of a range: the case of its ordinal.
pub open spec fn inclusion_view(inclusion: Inclusion) -> ValueView {
    match inclusion {
        Inclusion::BothInclusive => case_view(0),
        Inclusion::StartInclusive => case_view(1),
        Inclusion::BothExclusive => case_view(2),
        Inclusion::EndInclusive => case_view(3),
        Inclusion::Supplied => case_view(4),
    }
}

/// A number that may be missing.
pub open spec fn maybe_number_view(number: Option<u32>) -> ValueView {
    match number {
        Some(n) => ValueView::Option(Some(Box::new(ValueView::UInt(n as u128)))),
        None => ValueView::Option(None),
    }
}

/// The six flags of a float type.
pub open spec fn flags_views(flags: FloatFlags) -> Seq<ValueView> {
    seq![
        ValueView::Bool(flags.allow_nan),
        ValueView::Bool(flags.allow_positive_infinity),
        ValueView::Bool(flags.allow_negative_infinity),
        ValueView::Bool(flags.allow_positive_zero),
        ValueView::Bool(flags.allow_negative_zero),
        ValueView::Bool(flags.allow_subnormal),
    ]
}

/// A field of a structure: the pair of its name and its type.
pub open spec fn field_view(names: Seq<Seq<char>>, field: Field) -> Option<ValueView> {
    match reference_view(names, field.type_ref.target()) {
        Some(reference) => Some(pair_view(identifier_view(field.identifier@), reference)),
        None => None,
    }
}

/// A variant of an enumeration: the pair of its name and the types of its
/// values.
pub open spec fn variant_view(names: Seq<Seq<char>>, variant: Variant) -> Option<ValueView> {
    match references_view(names, variant.values@) {
        Some(values) => Some(pair_view(identifier_view(variant.name@), ValueView::List(values))),
        None => None,
    }
}

/// The allowed codes of an ASCII type: the starts and ends as numbers.
pub open spec fn codes_view(codes: Seq<u8>) -> ValueView {
    ValueView::List(Seq::new(codes.len(), |i: int| ValueView::UInt(codes[i] as u128)))
}

/// The ordinal of the kind of a type among the cases of the type of all
/// types.
pub open spec fn kind_ordinal(any_type: AnyType) -> u32 {
    match any_type {
        AnyType::Bool(_) => 0,
        AnyType::Option(_) => 1,
        AnyType::Sequence(_) => 2,
        AnyType::Binary(_) => 3,
        AnyType::Unicode(_) => 4,
        AnyType::UInt(_) => 5,
        AnyType::SInt(_) => 6,
        AnyType::Float32(_) => 7,
        AnyType::Float64(_) => 8,
        AnyType::Enum(_) => 9,
        AnyType::Struct(_) => 10,
        AnyType::Mapping(_) => 11,
        AnyType::RootMap(_) => 12,
        AnyType::KeyRef(_) => 13,
        AnyType::Ascii(_) => 14,
        AnyType::Uuid(_) => 15,
        AnyType::Range(_) => 16,
        AnyType::Decimal(_) => 17,
    }
}

/// The parameters of a type, in the order of the fields of the structure
/// that describes its kind. Nothing where the type holds a reference by a
/// name that the schema does not know.
pub open spec fn parameters_view(names: Seq<Seq<char>>, any_type: AnyType) -> Option<
    Seq<ValueView>,
> {
    match any_type {
        AnyType::Bool(_) => Some(Seq::empty()),
        AnyType::KeyRef(_) => Some(Seq::empty()),
        AnyType::Uuid(_) => Some(Seq::empty()),
        AnyType::Option(t) => match reference_view(names, t.inner.target()) {
            Some(inner) => Some(seq![inner]),
            None => None,
        },
        AnyType::Sequence(t) => match reference_view(names, t.element.target()) {
            Some(element) => Some(
                seq![
                    element,
                    unsigned_range_view(t.length.spec_start(), t.length.spec_end()),
                    order_view(t.ordering),
                    maybe_number_view(t.multiple_of),
                ],
            ),
            None => None,
        },
        AnyType::Binary(t) => Some(
            seq![unsigned_range_view(t.length.spec_start(), t.length.spec_end())],
        ),
        AnyType::Unicode(t) => Some(
            seq![
                unsigned_range_view(t.length.spec_start(), t.length.spec_end()),
                length_type_view(t.length_type),
            ],
        ),
        AnyType::UInt(t) => Some(
            seq![unsigned_range_view(t.range.spec_start(), t.range.spec_end())],
        ),
        AnyType::SInt(t) => Some(seq![signed_range_view(t.range.spec_start(), t.range.spec_end())]),
        AnyType::Float32(t) => Some(
            seq![ValueView::Float(Float::F32(t.min)), ValueView::Float(Float::F32(t.max))]
                + flags_views(t.flags),
        ),
        AnyType::Float64(t) => Some(
            seq![ValueView::Float(Float::F64(t.min)), ValueView::Float(Float::F64(t.max))]
                + flags_views(t.flags),
        ),
        AnyType::Enum(t) => match collected(
            Seq::new(t.variants@.len(), |i: int| variant_view(names, t.variants@[i])),
        ) {
            Some(variants) => Some(seq![ValueView::List(variants)]),
            None => None,
        },
        AnyType::Struct(t) => match collected(
            Seq::new(t.fields@.len(), |i: int| field_view(names, t.fields@[i])),
        ) {
            Some(fields) => Some(seq![ValueView::List(fields)]),
            None => None,
        },
        AnyType::Mapping(t) => match (
            reference_view(names, t.key.target()),
            reference_view(names, t.value.target()),
        ) {
            (Some(key), Some(value)) => Some(
                seq![
                    key,
                    value,
                    sorting_view(t.sorting),
                    unsigned_range_view(t.length.spec_start(), t.length.spec_end()),
                    ValueView::Bool(t.anchors),
                ],
            ),
            _ => None,
        },
        AnyType::RootMap(t) => match (
            reference_view(names, t.root.target()),
            reference_view(names, t.key.target()),
            reference_view(names, t.value.target()),
        ) {
            (Some(root), Some(key), Some(value)) => Some(
                seq![
                    root,
                    key,
                    value,
                    sorting_view(t.sorting),
                    unsigned_range_view(t.length.spec_start(), t.length.spec_end()),
                ],
            ),
            _ => None,
        },
        AnyType::Ascii(t) => Some(
            seq![
                unsigned_range_view(t.length.spec_start(), t.length.spec_end()),
                codes_view(t.codes.codes@),
            ],
        ),
        AnyType::Range(t) => match reference_view(names, t.element.target()) {
            Some(element) => Some(
                seq![element, inclusion_view(t.inclusion), ValueView::Bool(t.allow_empty)],
            ),
            None => None,
        },
        AnyType::Decimal(t) => Some(
            seq![
                signed_range_view(t.coefficient.spec_start(), t.coefficient.spec_end()),
                signed_range_view(t.exponent.spec_start(), t.exponent.spec_end()),
            ],
        ),
    }
}

/// A type as a case of the type of all types: the ordinal of its kind, with
/// the structure of its metadata and its parameters.
pub open spec fn type_view(names: Seq<Seq<char>>, any_type: AnyType) -> Option<ValueView> {
    match parameters_view(names, any_type) {
        Some(parameters) => Some(
            ValueView::Enum(
                kind_ordinal(any_type),
                seq![ValueView::List(meta_views(any_type.spec_meta()) + parameters)],
            ),
        ),
        None => None,
    }
}

/// The entry of the type with the given index: the index, and the pair of
/// the name of the type and the type. Nothing where the type has no name.
pub open spec fn entry_view(names: Seq<Seq<char>>, types: Seq<AnyType>, index: int) -> Option<
    ValueView,
> {
    if 0 <= index < names.len() && index < types.len() {
        match type_view(names, types[index]) {
            Some(any_type) => Some(
                pair_view(
                    ValueView::UInt(index as u128),
                    pair_view(identifier_view(split_segments(names[index])), any_type),
                ),
            ),
            None => None,
        }
    } else {
        None
    }
}

/// The document of a schema: the pair of the reference of the root and the
/// entries of all types. Nothing where a type has no name, or the schema
/// holds a reference by a name that it does not know.
pub open spec fn schema_view(types: Seq<AnyType>, names: Seq<Seq<char>>, root: RefTarget) -> Option<
    ValueView,
> {
    match (
        collected(Seq::new(types.len(), |i: int| entry_view(names, types, i))),
        reference_view(names, root),
    ) {
        (Some(entries), Some(reference)) => Some(pair_view(reference, ValueView::List(entries))),
        _ => None,
    }
}

/// The sequence of the given values.
pub fn list_value(items: Vec<Value>) -> (v: Value)
    ensures
        v@ == ValueView::List(models(items@)),
{
    let v = Value::List(items);
    proof {
        assert(v@->List_0 =~= models(items@));
    }
    v
}

/// The pair of two values.
pub fn pair_value(first: Value, second: Value) -> (v: Value)
    ensures
        v@ == pair_view(first@, second@),
{
    let mut items: Vec<Value> = Vec::new();
    items.push(first);
    items.push(second);
    let v = list_value(items);
    proof {
        assert(models(items@) =~= seq![first@, second@]);
    }
    v
}

/// The case of the given ordinal without values.
pub fn case_value(ordinal: u32) -> (v: Value)
    ensures
        v@ == case_view(ordinal),
{
    let v = Value::Enum(ValueVariant::new_no_value(ordinal));
    proof {
        assert(v@->Enum_1 =~= Seq::<ValueView>::empty());
    }
    v
}

/// The case of the given ordinal with one value.
pub fn case_with_value(ordinal: u32, value: Value) -> (v: Value)
    ensures
        v@ == ValueView::Enum(ordinal, seq![value@]),
{
    let v = Value::Enum(ValueVariant::new(ordinal, value));
    proof {
        assert(v@->Enum_1 =~= seq![value@]);
    }
    v
}

/// A value that is there.
pub fn present_value(value: Value) -> (v: Value)
    ensures
        v@ == ValueView::Option(Some(Box::new(value@))),
{
    let ghost inner = value.model();
    let v = Value::Option(Some(Box::new(value)));
    proof {
        assert(v.model() == ValueView::Option(Some(Box::new(inner))));
    }
    v
}

/// A text that may be missing, as a value.
pub fn maybe_text_value(text: &Option<String>) -> (v: Value)
    ensures
        v@ == text_view(*text),
{
    match text {
        Some(t) => present_value(Value::Unicode(t.as_str().to_owned())),
        None => Value::Option(None),
    }
}

/// The metadata of a type as the values of the first two fields of the
/// structure that describes the type.
pub fn meta_values(meta: &Meta) -> (v: Vec<Value>)
    ensures
        models(v@) == meta_views(*meta),
{
    let mut fields: Vec<Value> = Vec::new();
    fields.push(maybe_text_value(&meta.doc));
    fields.push(maybe_text_value(&meta.name));
    proof {
        assert(models(fields@) =~= meta_views(*meta));
    }
    fields
}

/// A reference to a type as a value: the index of the type in the schema.
/// An error of the kind `Reference` for a name that the schema does not
/// know.
pub fn reference_value(schema: &TypeContainer, reference: &TypeRef) -> (r: Result<Value, LqError>)
    ensures
        match r {
            Ok(v) => reference_view(name_texts(schema.names@), reference.target()) == Some(v@),
            Err(e) => reference_view(name_texts(schema.names@), reference.target()) is None
                && e.kind == ErrorKind::Reference,
        },
{
    match reference {
        TypeRef::Numerical(index) => Ok(Value::UInt(*index as u128)),
        TypeRef::Identifier(name) => match find_name(&schema.names, name) {
            Some(index) => Ok(Value::UInt(index as u128)),
            None => LqError::err_new(ErrorKind::Reference, "Unknown type reference"),
        },
    }
}

/// References to types as values.
pub fn references_value(schema: &TypeContainer, references: &[TypeRef]) -> (r: Result<
    Vec<Value>,
    LqError,
>)
    ensures
        match r {
            Ok(v) => references_view(name_texts(schema.names@), references@) == Some(models(v@)),
            Err(e) => references_view(name_texts(schema.names@), references@) is None && e.kind
                == ErrorKind::Reference,
        },
{
    let ghost names = name_texts(schema.names@);
    let ghost wanted = Seq::new(
        references@.len(),
        |i: int| reference_view(names, references@[i].target()),
    );
    let mut values: Vec<Value> = Vec::new();
    let mut index: usize = 0;
    while index < references.len()
        invariant
            index <= references@.len(),
            names == name_texts(schema.names@),
            wanted == Seq::new(
                references@.len(),
                |i: int| reference_view(names, references@[i].target()),
            ),
            values@.len() == index,
            forall|i: int| 0 <= i < index ==> #[trigger] wanted[i] == Some(values@[i]@),
        decreases references.len() - index,
    {
        match reference_value(schema, &references[index]) {
            Ok(value) => {
                values.push(value);
            },
            Err(e) => {
                proof {
                    assert(wanted[index as int] is None);
                }
                return Err(e);
            },
        }
        index += 1;
    }
    proof {
        assert(collected(wanted).unwrap() =~= models(values@));
    }
    Ok(values)
}

/// An identifier as a value: the sequence of its segments.
pub fn identifier_value(identifier: &Identifier) -> (v: Value)
    ensures
        v@ == identifier_view(identifier@),
{
    let segments = identifier.segments();
    let mut items: Vec<Value> = Vec::new();
    let mut index: usize = 0;
    while index < segments.len()
        invariant
            index <= segments@.len(),
            segments@.len() == identifier@.len(),
            forall|i: int| 0 <= i < segments@.len() ==> (#[trigger] segments@[i])@ == identifier@[i],
            items@.len() == index,
            forall|i: int|
                0 <= i < index ==> (#[trigger] items@[i])@ == ValueView::Unicode(identifier@[i]),
        decreases segments.len() - index,
    {
        items.push(Value::Unicode(segments[index].as_str().to_owned()));
        index += 1;
    }
    let v = list_value(items);
    proof {
        assert(models(items@) =~= Seq::new(
            identifier@.len(),
            |i: int| ValueView::Unicode(identifier@[i]),
        ));
    }
    v
}

/// A sorting as a value.
pub fn sorting_value(sorting: Sorting) -> (v: Value)
    ensures
        v@ == sorting_view(sorting),
{
    match sorting {
        Sorting::Ascending => case_value(0),
        Sorting::Descending => case_value(1),
    }
}

/// The ordering of a sequence as a value.
pub fn order_value(order: Order) -> (v: Value)
    ensures
        v@ == order_view(order),
{
    match order {
        Order::Any => case_value(0),
        Order::Sorted { direction, unique } => {
            let direction_value = match direction {
                Direction::Ascending => case_value(0),
                Direction::Descending => case_value(1),
            };
            case_with_value(1, pair_value(direction_value, Value::Bool(unique)))
        },
    }
}

/// The flags of a float type as values, behind the given fields.
pub fn push_float_flags(fields: &mut Vec<Value>, flags: &FloatFlags)
    ensures
        models(final(fields)@) == models(old(fields)@) + flags_views(*flags),
{
    let ghost before = fields@;
    fields.push(Value::Bool(flags.allow_nan));
    fields.push(Value::Bool(flags.allow_positive_infinity));
    fields.push(Value::Bool(flags.allow_negative_infinity));
    fields.push(Value::Bool(flags.allow_positive_zero));
    fields.push(Value::Bool(flags.allow_negative_zero));
    fields.push(Value::Bool(flags.allow_subnormal));
    proof {
        assert(models(fields@) =~= models(before) + flags_views(*flags));
    }
}

/// A range of unsigned numbers as a value.
pub fn unsigned_range_value(start: u128, end: u128) -> (v: Value)
    ensures
        v@ == unsigned_range_view(start as int, end as int),
{
    pair_value(Value::UInt(start), Value::UInt(end))
}

/// A range of signed numbers as a value.
pub fn signed_range_value(start: i128, end: i128) -> (v: Value)
    ensures
        v@ == signed_range_view(start as int, end as int),
{
    pair_value(Value::SInt(start), Value::SInt(end))
}

/// The parameters of a sequence type as values.
pub fn seq_parameters(schema: &TypeContainer, t: &TSeq) -> (r: Result<Vec<Value>, LqError>)
    ensures
        match r {
            Ok(v) => parameters_view(name_texts(schema.names@), AnyType::Sequence(*t)) == Some(
                models(v@),
            ),
            Err(e) => parameters_view(name_texts(schema.names@), AnyType::Sequence(*t)) is None
                && e.kind == ErrorKind::Reference,
        },
{
    let mut fields: Vec<Value> = Vec::new();
    fields.push(reference_value(schema, &t.element)?);
    fields.push(unsigned_range_value(t.length.start() as u128, t.length.end() as u128));
    fields.push(order_value(t.ordering));
    fields.push(
        match t.multiple_of {
            Some(m) => present_value(Value::UInt(m as u128)),
            None => Value::Option(None),
        },
    );
    proof {
        assert(models(fields@) =~= parameters_view(
            name_texts(schema.names@),
            AnyType::Sequence(*t),
        ).unwrap());
    }
    Ok(fields)
}

/// The parameters of an enumeration type as values: its variants.
pub fn enum_parameters(schema: &TypeContainer, t: &TEnum) -> (r: Result<Vec<Value>, LqError>)
    ensures
        match r {
            Ok(v) => parameters_view(name_texts(schema.names@), AnyType::Enum(*t)) == Some(
                models(v@),
            ),
            Err(e) => parameters_view(name_texts(schema.names@), AnyType::Enum(*t)) is None
                && e.kind == ErrorKind::Reference,
        },
{
    let ghost names = name_texts(schema.names@);
    let ghost wanted = Seq::new(t.variants@.len(), |i: int| variant_view(names, t.variants@[i]));
    let mut variants: Vec<Value> = Vec::new();
    let mut index: usize = 0;
    while index < t.variants.len()
        invariant
            index <= t.variants@.len(),
            names == name_texts(schema.names@),
            wanted == Seq::new(t.variants@.len(), |i: int| variant_view(names, t.variants@[i])),
            variants@.len() == index,
            forall|i: int| 0 <= i < index ==> #[trigger] wanted[i] == Some(variants@[i]@),
        decreases t.variants@.len() - index,
    {
        let variant = &t.variants.as_slice()[index];
        match references_value(schema, variant.values.as_slice()) {
            Ok(values) => {
                variants.push(pair_value(identifier_value(&variant.name), list_value(values)));
            },
            Err(e) => {
                proof {
                    assert(wanted[index as int] is None);
                }
                return Err(e);
            },
        }
        index += 1;
    }
    proof {
        assert(collected(wanted).unwrap() =~= models(variants@));
    }
    let mut fields: Vec<Value> = Vec::new();
    fields.push(list_value(variants));
    proof {
        assert(models(fields@) =~= seq![ValueView::List(models(variants@))]);
    }
    Ok(fields)
}

/// The parameters of a structure type as values: its fields.
pub fn struct_parameters(schema: &TypeContainer, t: &TStruct) -> (r: Result<Vec<Value>, LqError>)
    ensures
        match r {
            Ok(v) => parameters_view(name_texts(schema.names@), AnyType::Struct(*t)) == Some(
                models(v@),
            ),
            Err(e) => parameters_view(name_texts(schema.names@), AnyType::Struct(*t)) is None
                && e.kind == ErrorKind::Reference,
        },
{
    let ghost names = name_texts(schema.names@);
    let ghost wanted = Seq::new(t.fields@.len(), |i: int| field_view(names, t.fields@[i]));
    let mut all: Vec<Value> = Vec::new();
    let mut index: usize = 0;
    while index < t.fields.len()
        invariant
            index <= t.fields@.len(),
            names == name_texts(schema.names@),
            wanted == Seq::new(t.fields@.len(), |i: int| field_view(names, t.fields@[i])),
            all@.len() == index,
            forall|i: int| 0 <= i < index ==> #[trigger] wanted[i] == Some(all@[i]@),
        decreases t.fields@.len() - index,
    {
        let field = &t.fields.as_slice()[index];
        match reference_value(schema, &field.type_ref) {
            Ok(reference) => {
                all.push(pair_value(identifier_value(&field.identifier), reference));
            },
            Err(e) => {
                proof {
                    assert(wanted[index as int] is None);
                }
                return Err(e);
            },
        }
        index += 1;
    }
    proof {
        assert(collected(wanted).unwrap() =~= models(all@));
    }
    let mut fields: Vec<Value> = Vec::new();
    fields.push(list_value(all));
    proof {
        assert(models(fields@) =~= seq![ValueView::List(models(all@))]);
    }
    Ok(fields)
}

/// The parameters of a map type as values.
pub fn map_parameters(schema: &TypeContainer, t: &TMap) -> (r: Result<Vec<Value>, LqError>)
    ensures
        match r {
            Ok(v) => parameters_view(name_texts(schema.names@), AnyType::Mapping(*t)) == Some(
                models(v@),
            ),
            Err(e) => parameters_view(name_texts(schema.names@), AnyType::Mapping(*t)) is None
                && e.kind == ErrorKind::Reference,
        },
{
    let mut fields: Vec<Value> = Vec::new();
    fields.push(reference_value(schema, &t.key)?);
    fields.push(reference_value(schema, &t.value)?);
    fields.push(sorting_value(t.sorting));
    fields.push(unsigned_range_value(t.length.start() as u128, t.length.end() as u128));
    fields.push(Value::Bool(t.anchors));
    proof {
        assert(models(fields@) =~= parameters_view(
            name_texts(schema.names@),
            AnyType::Mapping(*t),
        ).unwrap());
    }
    Ok(fields)
}

/// The parameters of a root map type as values.
pub fn root_map_parameters(schema: &TypeContainer, t: &TRootMap) -> (r: Result<
    Vec<Value>,
    LqError,
>)
    ensures
        match r {
            Ok(v) => parameters_view(name_texts(schema.names@), AnyType::RootMap(*t)) == Some(
                models(v@),
            ),
            Err(e) => parameters_view(name_texts(schema.names@), AnyType::RootMap(*t)) is None
                && e.kind == ErrorKind::Reference,
        },
{
    let mut fields: Vec<Value> = Vec::new();
    fields.push(reference_value(schema, &t.root)?);
    fields.push(reference_value(schema, &t.key)?);
    fields.push(reference_value(schema, &t.value)?);
    fields.push(sorting_value(t.sorting));
    fields.push(unsigned_range_value(t.length.start() as u128, t.length.end() as u128));
    proof {
        assert(models(fields@) =~= parameters_view(
            name_texts(schema.names@),
            AnyType::RootMap(*t),
        ).unwrap());
    }
    Ok(fields)
}

/// The parameters of an ASCII type as values.
pub fn ascii_parameters(t: &TAscii) -> (v: Vec<Value>)
    ensures
        forall|names: Seq<Seq<char>>| #[trigger]
            parameters_view(names, AnyType::Ascii(*t)) == Some(models(v@)),
{
    let mut codes: Vec<Value> = Vec::new();
    let mut index: usize = 0;
    while index < t.codes.codes.len()
        invariant
            index <= t.codes.codes@.len(),
            codes@.len() == index,
            forall|i: int|
                0 <= i < index ==> (#[trigger] codes@[i])@ == ValueView::UInt(
                    t.codes.codes@[i] as u128,
                ),
        decreases t.codes.codes.len() - index,
    {
        codes.push(Value::UInt(t.codes.codes[index] as u128));
        index += 1;
    }
    let mut fields: Vec<Value> = Vec::new();
    fields.push(unsigned_range_value(t.length.start() as u128, t.length.end() as u128));
    let list = list_value(codes);
    proof {
        assert(models(codes@) =~= Seq::new(
            t.codes.codes@.len(),
            |i: int| ValueView::UInt(t.codes.codes@[i] as u128),
        ));
        assert(list@ == codes_view(t.codes.codes@));
    }
    fields.push(list);
    proof {
        assert(models(fields@) =~= seq![
            unsigned_range_view(t.length.spec_start(), t.length.spec_end()),
            codes_view(t.codes.codes@),
        ]);
    }
    fields
}

/// The parameters of a range type as values.
pub fn range_parameters(schema: &TypeContainer, t: &TRange) -> (r: Result<Vec<Value>, LqError>)
    ensures
        match r {
            Ok(v) => parameters_view(name_texts(schema.names@), AnyType::Range(*t)) == Some(
                models(v@),
            ),
            Err(e) => parameters_view(name_texts(schema.names@), AnyType::Range(*t)) is None
                && e.kind == ErrorKind::Reference,
        },
{
    let mut fields: Vec<Value> = Vec::new();
    fields.push(reference_value(schema, &t.element)?);
    fields.push(
        match t.inclusion {
            Inclusion::BothInclusive => case_value(0),
            Inclusion::StartInclusive => case_value(1),
            Inclusion::BothExclusive => case_value(2),
            Inclusion::EndInclusive => case_value(3),
            Inclusion::Supplied => case_value(4),
        },
    );
    fields.push(Value::Bool(t.allow_empty));
    proof {
        assert(models(fields@) =~= parameters_view(
            name_texts(schema.names@),
            AnyType::Range(*t),
        ).unwrap());
    }
    Ok(fields)
}

/// The parameters of a type as values, in the order of the fields of the
/// structure that describes its kind. An error of the kind `Reference`
/// where the type holds a reference by a name that the schema does not
/// know.
pub fn parameters_value(schema: &TypeContainer, any_type: &AnyType) -> (r: Result<
    Vec<Value>,
    LqError,
>)
    ensures
        match r {
            Ok(v) => parameters_view(name_texts(schema.names@), *any_type) == Some(models(v@)),
            Err(e) => parameters_view(name_texts(schema.names@), *any_type) is None && e.kind
                == ErrorKind::Reference,
        },
{
    let ghost names = name_texts(schema.names@);
    let mut fields: Vec<Value> = Vec::new();
    match any_type {
        AnyType::Bool(_) => {},
        AnyType::KeyRef(_) => {},
        AnyType::Uuid(_) => {},
        AnyType::Option(t) => {
            fields.push(reference_value(schema, &t.inner)?);
        },
        AnyType::Sequence(t) => {
            return seq_parameters(schema, t);
        },
        AnyType::Binary(t) => {
            fields.push(unsigned_range_value(t.length.start() as u128, t.length.end() as u128));
        },
        AnyType::Unicode(t) => {
            fields.push(unsigned_range_value(t.length.start() as u128, t.length.end() as u128));
            fields.push(
                match t.length_type {
                    LengthType::Byte => case_value(0),
                    LengthType::Utf8Byte => case_value(1),
                    LengthType::ScalarValue => case_value(2),
                },
            );
        },
        AnyType::UInt(t) => {
            fields.push(unsigned_range_value(t.range.start(), t.range.end()));
        },
        AnyType::SInt(t) => {
            fields.push(signed_range_value(t.range.start(), t.range.end()));
        },
        AnyType::Float32(t) => {
            fields.push(Value::Float(Float::F32(t.min)));
            fields.push(Value::Float(Float::F32(t.max)));
            push_float_flags(&mut fields, &t.flags);
        },
        AnyType::Float64(t) => {
            fields.push(Value::Float(Float::F64(t.min)));
            fields.push(Value::Float(Float::F64(t.max)));
            push_float_flags(&mut fields, &t.flags);
        },
        AnyType::Enum(t) => {
            return enum_parameters(schema, t);
        },
        AnyType::Struct(t) => {
            return struct_parameters(schema, t);
        },
        AnyType::Mapping(t) => {
            return map_parameters(schema, t);
        },
        AnyType::RootMap(t) => {
            return root_map_parameters(schema, t);
        },
        AnyType::Ascii(t) => {
            return Ok(ascii_parameters(t));
        },
        AnyType::Range(t) => {
            return range_parameters(schema, t);
        },
        AnyType::Decimal(t) => {
            fields.push(signed_range_value(t.coefficient.start(), t.coefficient.end()));
            fields.push(
                signed_range_value(t.exponent.start() as i128, t.exponent.end() as i128),
            );
        },
    }
    proof {
        assert(models(fields@) =~= parameters_view(names, *any_type).unwrap());
    }
    Ok(fields)
}

/// A type as a value of the type of all types: the case of its kind with
/// the structure of metadata and parameters. An error of the kind
/// `Reference` where the type holds a reference by a name that the schema
/// does not know.
pub fn any_type_value(schema: &TypeContainer, any_type: &AnyType) -> (r: Result<Value, LqError>)
    ensures
        match r {
            Ok(v) => type_view(name_texts(schema.names@), *any_type) == Some(v@),
            Err(e) => type_view(name_texts(schema.names@), *any_type) is None && e.kind
                == ErrorKind::Reference,
        },
{
    let mut fields = meta_values(any_type.meta());
    let ghost meta = models(fields@);
    let mut parameters = parameters_value(schema, any_type)?;
    let ghost own = models(parameters@);
    fields.append(&mut parameters);
    proof {
        assert(models(fields@) =~= meta + own);
    }
    let ordinal: u32 = match any_type {
        AnyType::Bool(_) => 0,
        AnyType::Option(_) => 1,
        AnyType::Sequence(_) => 2,
        AnyType::Binary(_) => 3,
        AnyType::Unicode(_) => 4,
        AnyType::UInt(_) => 5,
        AnyType::SInt(_) => 6,
        AnyType::Float32(_) => 7,
        AnyType::Float64(_) => 8,
        AnyType::Enum(_) => 9,
        AnyType::Struct(_) => 10,
        AnyType::Mapping(_) => 11,
        AnyType::RootMap(_) => 12,
        AnyType::KeyRef(_) => 13,
        AnyType::Ascii(_) => 14,
        AnyType::Uuid(_) => 15,
        AnyType::Range(_) => 16,
        AnyType::Decimal(_) => 17,
    };
    Ok(case_with_value(ordinal, list_value(fields)))
}

/// A schema as a value: a document of the schema of schemas. An error of the
/// kind `Reference` where a type has no name, or the schema holds a
/// reference by a name that it does not know.
pub fn schema_value(schema: &TypeContainer) -> (r: Result<Value, LqError>)
    ensures
        match r {
            Ok(v) => schema_view(schema.types@, name_texts(schema.names@), schema.root.target())
                == Some(v@),
            Err(e) => schema_view(
                schema.types@,
                name_texts(schema.names@),
                schema.root.target(),
            ) is None && e.kind == ErrorKind::Reference,
        },
{
    let ghost names = name_texts(schema.names@);
    let ghost wanted = Seq::new(
        schema.types@.len(),
        |i: int| entry_view(names, schema.types@, i),
    );
    let mut entries: Vec<Value> = Vec::new();
    let mut index: usize = 0;
    while index < schema.types.len()
        invariant
            index <= schema.types@.len(),
            names == name_texts(schema.names@),
            wanted == Seq::new(schema.types@.len(), |i: int| entry_view(names, schema.types@, i)),
            entries@.len() == index,
            forall|i: int| 0 <= i < index ==> #[trigger] wanted[i] == Some(entries@[i]@),
        decreases schema.types.len() - index,
    {
        if index >= schema.names.len() {
            proof {
                assert(wanted[index as int] is None);
            }
            return LqError::err_new(ErrorKind::Reference, "A type of the schema has no name");
        }
        let name = Identifier::from_str_identifier(&schema.names[index]);
        match any_type_value(schema, &schema.types[index]) {
            Ok(any_type) => {
                proof {
                    assert(names[index as int] == schema.names@[index as int]@);
                }
                entries.push(
                    pair_value(
                        Value::UInt(index as u128),
                        pair_value(identifier_value(&name), any_type),
                    ),
                );
            },
            Err(e) => {
                proof {
                    assert(wanted[index as int] is None);
                }
                return Err(e);
            },
        }
        index += 1;
    }
    proof {
        assert(collected(wanted).unwrap() =~= models(entries@));
    }
    let reference = reference_value(schema, &schema.root)?;
    Ok(pair_value(reference, list_value(entries)))
}

/// Writes a schema as a document of the schema of schemas. An error of the
/// kind `Reference` where the schema has no document; an error of the kind
/// `Codec` where the document cannot be written, because the schema holds
/// more types, fields, variants or values than a sequence can hold.
pub fn serialize_schema(schema: &TypeContainer, writer: &mut VecWriter) -> (r: Result<
    (),
    LqError,
>)
    ensures
        match (
            r,
            schema_view(schema.types@, name_texts(schema.names@), schema.root.target()),
        ) {
            (Ok(_), Some(document)) => encodable(document) && final(writer)@ == old(writer)@
                + value_bytes(document),
            (Err(e), Some(document)) => !encodable(document) && e.kind == ErrorKind::Codec,
            (Err(e), None) => e.kind == ErrorKind::Reference,
            (Ok(_), None) => false,
        },
{
    let value = schema_value(schema)?;
    Value::serialize(writer, &value)
}

/// The field at `pos` and the position behind it: a sequence of two, the
/// name of the field and the index of its type. An error of the kind
/// `Codec` where there is no such sequence or no index, and the error of
/// the name where that cannot be read.
pub open spec fn field_at(data: Seq<u8>, pos: int) -> Result<(Seq<Seq<char>>, u32, int), ErrorKind> {
    match seq_header_at(data, pos) {
        Some((n, p)) => if n != 2 {
            Err(ErrorKind::Codec)
        } else {
            match identifier_at(data, p) {
                Ok((name, q)) => match uint_at_most(data, q, u32::MAX as nat) {
                    Some((index, e)) => Ok((name, index as u32, e)),
                    None => Err(ErrorKind::Codec),
                },
                Err(kind) => Err(kind),
            }
        },
        None => Err(ErrorKind::Codec),
    }
}

/// Reads a field of a structure as a schema document holds it: its name and
/// the index of its type.
pub fn de_serialize_field(reader: &mut SliceReader) -> (r: Result<Field, LqError>)
    ensures
        final(reader).spec_data() == old(reader).spec_data(),
        match r {
            Ok(field) => field.type_ref matches TypeRef::Numerical(index) && field_at(
                old(reader).spec_data(),
                old(reader).spec_offset(),
            ) == Ok::<_, ErrorKind>((field.identifier@, index, final(reader).spec_offset())),
            Err(e) => field_at(old(reader).spec_data(), old(reader).spec_offset()) == Err::<
                (Seq<Seq<char>>, u32, int),
                _,
            >(e.kind),
        },
{
    let list_header = SeqHeader::de_serialize(reader)?;
    if list_header.length() != 2 {
        return LqError::err_new(ErrorKind::Codec, "A field is a sequence of a name and a type");
    }
    let identifier = Identifier::de_serialize(reader)?;
    let index = UInt32::de_serialize(reader)?;
    Ok(Field::new(identifier, TypeRef::new_numerical(index)))
}

/// Writes a field of a structure as a schema document holds it: the pair of
/// its name and the index of its type. An error of the kind `Reference`
/// where the type of the field is given by a name that the schema does not
/// know.
pub fn serialize_field(field: &Field, schema: &TypeContainer, writer: &mut VecWriter) -> (r: Result<
    (),
    LqError,
>)
    ensures
        match (r, field_view(name_texts(schema.names@), *field)) {
            (Ok(_), Some(view)) => encodable(view) && final(writer)@ == old(writer)@
                + value_bytes(view),
            (Err(e), Some(view)) => !encodable(view) && e.kind == ErrorKind::Codec,
            (Err(e), None) => e.kind == ErrorKind::Reference && final(writer)@ == old(writer)@,
            (Ok(_), None) => false,
        },
{
    let reference = reference_value(schema, &field.type_ref)?;
    let pair = pair_value(identifier_value(&field.identifier), reference);
    Value::serialize(writer, &pair)
}

/// A type whose references all point at types of the schema has a view.
pub proof fn lemma_resolved_type_has_view(env: Env, any_type: AnyType)
    requires
        forall|j: int|
            0 <= j < any_type.references().len() ==> resolve_index(
                env,
                (#[trigger] any_type.references()[j]).target(),
            ) is Some,
    ensures
        type_view(env.names, any_type) is Some,
{
    let names = env.names;
    let refs = any_type.references();
    assert forall|j: int| 0 <= j < refs.len() implies reference_view(
        names,
        (#[trigger] refs[j]).target(),
    ) is Some by {
        assert(resolve_index(env, refs[j].target()) is Some);
    }
    match any_type {
        AnyType::Option(t) => {
            assert(refs[0] == t.inner);
        },
        AnyType::Sequence(t) => {
            assert(refs[0] == t.element);
        },
        AnyType::Range(t) => {
            assert(refs[0] == t.element);
        },
        AnyType::Mapping(t) => {
            assert(refs[0] == t.key && refs[1] == t.value);
        },
        AnyType::RootMap(t) => {
            assert(refs[0] == t.root && refs[1] == t.key && refs[2] == t.value);
        },
        AnyType::Struct(t) => {
            let fields = Seq::new(t.fields@.len(), |i: int| field_view(names, t.fields@[i]));
            assert forall|i: int| 0 <= i < fields.len() implies (#[trigger] fields[i]) is Some by {
                assert(refs[i] == t.fields@[i].type_ref);
            }
        },
        AnyType::Enum(t) => {
            let p = |r: TypeRef| reference_view(names, r.target()) is Some;
            assert forall|j: int|
                0 <= j < variant_references(t, 0).len() implies p(
                #[trigger] variant_references(t, 0)[j],
            ) by {
                assert(reference_view(names, refs[j].target()) is Some);
            }
            lemma_variant_references_all(t, 0, p);
            let variants = Seq::new(
                t.variants@.len(),
                |i: int| variant_view(names, t.variants@[i]),
            );
            assert forall|i: int| 0 <= i < variants.len() implies (
            #[trigger] variants[i]) is Some by {
                let values = t.variants@[i].values@;
                let views = Seq::new(
                    values.len(),
                    |k: int| reference_view(names, values[k].target()),
                );
                assert forall|k: int| 0 <= k < views.len() implies (#[trigger] views[k]) is Some by {
                    assert(p(t.variants@[i].values@[k]));
                }
            }
        },
        _ => {},
    }
}

/// Every schema has a document where each of its types has a name and each
/// of its references, and the root, points at one of its types.
pub proof fn lemma_closed_schema_has_document(
    types: Seq<AnyType>,
    names: Seq<Seq<char>>,
    root: RefTarget,
)
    requires
        types.len() <= names.len(),
        closed(Env { types, names, strict: false }, root),
    ensures
        schema_view(types, names, root) is Some,
{
    let env = Env { types, names, strict: false };
    let entries = Seq::new(types.len(), |i: int| entry_view(names, types, i));
    assert forall|i: int| 0 <= i < entries.len() implies (#[trigger] entries[i]) is Some by {
        assert forall|j: int| 0 <= j < types[i].references().len() implies resolve_index(
            env,
            (#[trigger] types[i].references()[j]).target(),
        ) is Some by {
            assert(resolve_index(env, env.types[i].references()[j].target()) is Some);
        }
        lemma_resolved_type_has_view(env, types[i]);
    }
}

} // verus!
