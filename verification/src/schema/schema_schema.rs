//! The schema of schemas: a schema is data of the format itself. This
//! module builds the schema that describes schemas and writes a schema as
//! a document of it.
//!
//! A schema document is a root map. Its entries are the types in the order
//! of their index: the key of an entry is the index, its value a structure
//! of the name of the type and the type. Its root is the reference of the
//! root type. A reference to a type is a key reference: the index of the
//! type among the entries.
//!
//! The types that describe a kind of type are added to a builder under
//! names that start with the name of the kind. Every added type refers only
//! to types that were added before it.

use crate::identifier::{
    identifier_text_valid, lemma_snake_case_is_identifier, split_segments, Identifier,
    MAX_NUMBER_OF_SEGMENTS, MIN_NUMBER_OF_SEGMENTS, SEGMENT_MAX_LEN, SEGMENT_MIN_LEN,
};
use crate::ine_range::{I128IneRange, U128IneRange, U32IneRange, U64IneRange};
use crate::schema::any_type::{lemma_variant_references_all, AnyType};
use crate::schema::container::{
    closed, lemma_name_free, name_texts, SchemaBuilder, TypeContainer,
};
use crate::schema::metadata::Meta;
use crate::schema::shapes::{at_index, named, recorded, shaped, Shape};
use crate::schema::schema_names::lemma_schema_names;
use crate::schema::type_ref::{RefTarget, TypeRef};
use crate::schema::types::ascii::{CodeRange, TAscii};
use crate::schema::types::binary::TBinary;
use crate::schema::types::boolean::TBool;
use crate::schema::types::decimal::TDecimal;
use crate::schema::types::enumeration::{TEnum, Variant};
use crate::schema::types::float::{FloatFlags, TFloat32, TFloat64};
use crate::schema::types::key_ref::TKeyRef;
use crate::schema::types::map::TMap;
use crate::schema::types::option::TOption;
use crate::schema::types::range::{Inclusion, TRange};
use crate::schema::types::root_map::TRootMap;
use crate::schema::types::seq::TSeq;
use crate::schema::types::sint::TSInt;
use crate::schema::types::structure::{Field, TStruct};
use crate::schema::types::uint::TUInt;
use crate::schema::types::unicode::{LengthType, TUnicode};
use crate::schema::types::uuid::TUuid;
use vstd::pervasive::unreached;
use vstd::prelude::*;
use vstd::string::*;
use vstd::utf8::encode_utf8;

verus! {

/// Whether a reference is the index of a type below the bound.
pub open spec fn below(r: TypeRef, bound: int) -> bool {
    match r.target() {
        RefTarget::Index(k) => k < bound,
        RefTarget::Name(_) => false,
    }
}

/// Whether every reference that a type holds is the index of a type below
/// the bound.
pub open spec fn backward(t: AnyType, bound: int) -> bool {
    forall|j: int| 0 <= j < t.references().len() ==> below(#[trigger] t.references()[j], bound)
}

/// Whether every value of every variant is the index of a type below the
/// bound.
pub open spec fn values_below(e: TEnum, bound: int) -> bool {
    forall|v: int, k: int|
        0 <= v < e.variants@.len() && 0 <= k < e.variants@[v].values@.len() ==> below(
            #[trigger] e.variants@[v].values@[k],
            bound,
        )
}

/// Whether types can be added to the builder under the given names, one
/// after the other: the table has room for them, each name is an
/// identifier, the builder holds none of them, and none stands twice.
pub open spec fn admits(builder: SchemaBuilder, names: Seq<Seq<char>>) -> bool {
    &&& builder.types@.len() + names.len() <= u32::MAX
    &&& forall|i: int| 0 <= i < names.len() ==> identifier_text_valid(#[trigger] names[i])
    &&& forall|i: int, j: int|
        0 <= i < builder.names@.len() && 0 <= j < names.len() ==> (#[trigger] builder.names@[i])@
            != #[trigger] names[j]
    &&& forall|i: int, j: int| 0 <= i < j < names.len() ==> #[trigger] names[i] != #[trigger] names[j]
}

/// Whether a builder has grown by one type for each of the given names, in
/// their order, and each of the new types refers only to types before it.
pub open spec fn grown(before: SchemaBuilder, after: SchemaBuilder, names: Seq<Seq<char>>) -> bool {
    &&& after.types@.len() == before.types@.len() + names.len()
    &&& name_texts(after.names@) =~= name_texts(before.names@) + names
    &&& forall|i: int|
        0 <= i < before.types@.len() ==> #[trigger] after.types@[i] == before.types@[i]
    &&& forall|i: int|
        before.types@.len() <= i < after.types@.len() ==> backward(#[trigger] after.types@[i], i)
}

/// A builder that has grown by some names admits the names that were to
/// come next.
pub proof fn lemma_admits_next(
    before: SchemaBuilder,
    now: SchemaBuilder,
    all: Seq<Seq<char>>,
    done: Seq<Seq<char>>,
    part: Seq<Seq<char>>,
    rest: Seq<Seq<char>>,
)
    requires
        admits(before, all),
        grown(before, now, done),
        all =~= done + part + rest,
    ensures
        admits(now, part),
{
    let n = done.len() as int;
    assert forall|i: int| 0 <= i < part.len() implies identifier_text_valid(#[trigger] part[i]) by {
        assert(part[i] == all[n + i]);
    }
    assert forall|i: int, j: int| 0 <= i < j < part.len() implies #[trigger] part[i]
        != #[trigger] part[j] by {
        assert(part[i] == all[n + i]);
        assert(part[j] == all[n + j]);
    }
    assert forall|i: int, j: int| 0 <= i < now.names@.len() && 0 <= j < part.len() implies (
    #[trigger] now.names@[i])@ != #[trigger] part[j] by {
        assert(part[j] == all[n + j]);
        assert(name_texts(now.names@)[i] == now.names@[i]@);
        if i < before.names@.len() {
            assert(name_texts(before.names@)[i] == before.names@[i]@);
        } else {
            assert(name_texts(now.names@)[i] == done[i - before.names@.len()]);
            assert(done[i - before.names@.len()] == all[i - before.names@.len()]);
        }
    }
}

/// A builder that has grown twice has grown by the names of both steps.
pub proof fn lemma_grown_next(
    before: SchemaBuilder,
    mid: SchemaBuilder,
    now: SchemaBuilder,
    done: Seq<Seq<char>>,
    part: Seq<Seq<char>>,
)
    requires
        grown(before, mid, done),
        grown(mid, now, part),
    ensures
        grown(before, now, done + part),
{
    assert forall|i: int| 0 <= i < before.types@.len() implies #[trigger] now.types@[i]
        == before.types@[i] by {
        assert(mid.types@[i] == before.types@[i]);
    }
    assert forall|i: int| before.types@.len() <= i < now.types@.len() implies backward(
        #[trigger] now.types@[i],
        i,
    ) by {
        if i < mid.types@.len() {
            assert(now.types@[i] == mid.types@[i]);
        }
    }
}

/// A builder that has grown by the first `n` of some names admits the `m`
/// names that come next.
pub proof fn lemma_admits_part(
    before: SchemaBuilder,
    now: SchemaBuilder,
    all: Seq<Seq<char>>,
    n: int,
    m: int,
)
    requires
        admits(before, all),
        grown(before, now, all.take(n)),
        0 <= n,
        0 <= m,
        n + m <= all.len(),
    ensures
        admits(now, all.subrange(n, n + m)),
{
    lemma_admits_next(
        before,
        now,
        all,
        all.take(n),
        all.subrange(n, n + m),
        all.subrange(n + m, all.len() as int),
    );
}

/// A builder that has grown by the first `n` of some names and then by the
/// `m` names that come next has grown by the first `n + m` of them.
pub proof fn lemma_grown_joined(
    before: SchemaBuilder,
    mid: SchemaBuilder,
    now: SchemaBuilder,
    all: Seq<Seq<char>>,
    n: int,
    m: int,
)
    requires
        grown(before, mid, all.take(n)),
        grown(mid, now, all.subrange(n, n + m)),
        0 <= n,
        0 <= m,
        n + m <= all.len(),
    ensures
        grown(before, now, all.take(n + m)),
{
    lemma_grown_next(before, mid, now, all.take(n), all.subrange(n, n + m));
    assert(all.take(n) + all.subrange(n, n + m) =~= all.take(n + m));
}

/// Whether a type is documented and has no name of its own, and its
/// documentation is short enough to be written.
pub open spec fn documented(t: AnyType) -> bool {
    &&& t.spec_meta().name is None
    &&& t.spec_meta().doc matches Some(d) && encode_utf8(d@).len() <= u64::MAX
}

/// Whether the types of a builder from the index `base` on have the given
/// shapes, in their order, and are documented.
pub open spec fn shaped_from(builder: SchemaBuilder, base: int, shapes: Seq<Shape>) -> bool {
    &&& 0 <= base
    &&& base + shapes.len() <= builder.types@.len()
    &&& forall|i: int|
        0 <= i < shapes.len() ==> shaped(#[trigger] builder.types@[base + i], shapes[i])
            && documented(builder.types@[base + i])
}

/// Types that have their shapes keep them where the builder grows, and more
/// shapes behind them join them.
pub proof fn lemma_shaped_next(
    mid: SchemaBuilder,
    now: SchemaBuilder,
    names: Seq<Seq<char>>,
    base: int,
    done: Seq<Shape>,
    part: Seq<Shape>,
)
    requires
        shaped_from(mid, base, done),
        grown(mid, now, names),
        shaped_from(now, base + done.len(), part),
        base + done.len() <= mid.types@.len(),
    ensures
        shaped_from(now, base, done + part),
{
    let all = done + part;
    assert forall|i: int| 0 <= i < all.len() implies shaped(
        #[trigger] now.types@[base + i],
        all[i],
    ) && documented(now.types@[base + i]) by {
        if i < done.len() {
            assert(now.types@[base + i] == mid.types@[base + i]);
            assert(all[i] == done[i]);
        } else {
            assert(all[i] == part[i - done.len()]);
            assert(now.types@[base + done.len() + (i - done.len())] == now.types@[base + i]);
        }
    }
}

/// An enumeration whose values are below a bound refers only to types below
/// it.
pub proof fn lemma_enum_backward(e: TEnum, bound: int)
    requires
        values_below(e, bound),
    ensures
        backward(AnyType::Enum(e), bound),
{
    let p = |r: TypeRef| below(r, bound);
    lemma_variant_references_all(e, 0, p);
    assert forall|v: int, k: int|
        0 <= v < e.variants@.len() && 0 <= k < e.variants@[v].values@.len() implies p(
        #[trigger] e.variants@[v].values@[k],
    ) by {
        assert(below(e.variants@[v].values@[k], bound));
    }
    let refs = AnyType::Enum(e).references();
    assert forall|j: int| 0 <= j < refs.len() implies below(#[trigger] refs[j], bound) by {
        assert(p(refs[j]));
    }
}

/// Adds a type with documentation to the builder, which has to admit the
/// name. The type refers only to types that the builder holds. The added
/// type is the given one with the documentation: it has every shape that
/// the given one has.
pub fn add_type(builder: &mut SchemaBuilder, id: &str, any_type: AnyType, doc: &str) -> (r: TypeRef)
    requires
        admits(*old(builder), seq![id@]),
        backward(any_type, old(builder).types@.len() as int),
    ensures
        grown(*old(builder), *final(builder), seq![id@]),
        r == TypeRef::Numerical(old(builder).types@.len() as u32),
        r == TypeRef::Numerical((final(builder).types@.len() - 1) as u32),
        at_index(r, old(builder).types@.len() as int),
        forall|s: Shape|
            shaped(any_type, s) ==> shaped_from(
                *final(builder),
                old(builder).types@.len() as int,
                seq![s],
            ),
{
    let ghost before = *builder;
    let length = doc.as_bytes().len();
    proof {
        let names = seq![id@];
        assert(names[0] == id@);
        assert forall|k: int| 0 <= k < name_texts(before.names@).len() implies name_texts(
            before.names@,
        )[k] != id@ by {
            assert(before.names@[k]@ != names[0]);
        }
        lemma_name_free(name_texts(before.names@), id@, 0);
    }
    match builder.add(id, any_type.with_doc(doc)) {
        Ok(reference) => {
            proof {
                let added = builder.types@[before.types@.len() as int];
                assert(added.references() == any_type.references());
                assert(length == encode_utf8(doc@).len());
                assert(documented(added));
                assert forall|s: Shape| shaped(any_type, s) implies shaped_from(
                    *builder,
                    before.types@.len() as int,
                    seq![s],
                ) by {
                    assert(shaped(added, s));
                    assert(builder.types@[(before.types@.len() as int) + 0] == added);
                }
            }
            reference
        },
        Err(_) => unreached(),
    }
}

/// A field of the given name and type.
pub fn new_field(name: &str, type_ref: TypeRef) -> (f: Field)
    requires
        identifier_text_valid(name@),
    ensures
        f.type_ref == type_ref,
        f.identifier@ == split_segments(name@),
{
    match Identifier::try_from(name) {
        Ok(identifier) => Field::new(identifier, type_ref),
        Err(_) => unreached(),
    }
}

/// The structure with one more field of the given name and type.
pub fn with_field(structure: TStruct, name: &str, type_ref: TypeRef) -> (s: TStruct)
    requires
        identifier_text_valid(name@),
    ensures
        s.fields@.len() == structure.fields@.len() + 1,
        forall|i: int|
            0 <= i < structure.fields@.len() ==> #[trigger] s.fields@[i] == structure.fields@[i],
        s.fields@[s.fields@.len() - 1].type_ref == type_ref,
        s.fields@[s.fields@.len() - 1].identifier@ == split_segments(name@),
        s.meta == structure.meta,
{
    structure.add(new_field(name, type_ref))
}

/// A variant of the given name without values.
pub fn new_variant(name: &str) -> (v: Variant)
    requires
        identifier_text_valid(name@),
    ensures
        v.values@.len() == 0,
        v.name@ == split_segments(name@),
{
    match Identifier::try_from(name) {
        Ok(identifier) => Variant::new(identifier),
        Err(_) => unreached(),
    }
}

/// A variant of the given name with one value.
pub fn variant(reference: TypeRef, id: &str) -> (v: Variant)
    requires
        identifier_text_valid(id@),
    ensures
        v.values@ == seq![reference],
        v.name@ == split_segments(id@),
{
    new_variant(id).add_value(reference)
}

/// The type of the unsigned integers from `min` to `max`.
pub fn uint_type(min: u128, max: u128) -> (t: AnyType)
    requires
        min <= max,
    ensures
        t matches AnyType::UInt(u) && u.range.spec_start() == min && u.range.spec_end() == max,
{
    match TUInt::try_new(min, max) {
        Ok(t) => AnyType::UInt(t),
        Err(_) => unreached(),
    }
}

/// The type of the signed integers from `min` to `max`.
pub fn sint_type(min: i128, max: i128) -> (t: AnyType)
    requires
        min <= max,
    ensures
        t matches AnyType::SInt(s) && s.range.spec_start() == min && s.range.spec_end() == max,
{
    match TSInt::try_new(min, max) {
        Ok(t) => AnyType::SInt(t),
        Err(_) => unreached(),
    }
}

/// The names of the types of the metadata of a kind of type.
pub open spec fn meta_names(id: Seq<char>) -> Seq<Seq<char>> {
    seq![id + "_meta_text"@, id + "_meta_maybe_text"@]
}

/// The shapes of the types of the metadata of a kind of type, the first of
/// which gets the index `base`: a text, and an option of it.
pub open spec fn meta_shapes(base: int) -> Seq<Shape> {
    seq![Shape::Text, Shape::Maybe(base)]
}

/// The fields that every structure that describes a kind of type starts
/// with: documentation and name, both a text that may be missing.
pub open spec fn meta_record(base: int) -> Seq<(Seq<char>, int)> {
    seq![("meta_doc"@, base + 1), ("meta_name"@, base + 1)]
}

/// The fields that every type of the schema of schemas starts with: its
/// documentation and its name, both of which may be missing. The builder
/// has to admit the names of the added types.
pub fn meta_fields(builder: &mut SchemaBuilder, id: &str) -> (s: TStruct)
    requires
        admits(*old(builder), meta_names(id@)),
    ensures
        grown(*old(builder), *final(builder), meta_names(id@)),
        shaped_from(
            *final(builder),
            old(builder).types@.len() as int,
            meta_shapes(old(builder).types@.len() as int),
        ),
        recorded(s, meta_record(old(builder).types@.len() as int)),
{
    let ghost start = *builder;
    let ghost base = start.types@.len() as int;
    let ghost all = meta_names(id@);
    proof {
        reveal_strlit("meta_doc");
        reveal_strlit("meta_name");
        lemma_snake_case_is_identifier("meta_doc"@);
        lemma_snake_case_is_identifier("meta_name"@);
        assert(all.take(0) =~= Seq::<Seq<char>>::empty());
        lemma_admits_part(start, *builder, all, 0, 1);
        assert(all.subrange(0, 1) =~= seq![id@ + "_meta_text"@]);
    }
    let mut text_name = id.to_owned();
    text_name.append("_meta_text");
    let text_type = AnyType::Unicode(TUnicode::new(U64IneRange::full(), LengthType::Utf8Byte));
    proof {
        assert(shaped(text_type, Shape::Text));
    }
    let text = add_type(
        builder,
        text_name.as_str(),
        text_type,
        "A text that says something about a type.",
    );
    let ghost mid = *builder;
    proof {
        lemma_grown_joined(start, start, mid, all, 0, 1);
        lemma_admits_part(start, mid, all, 1, 1);
        assert(all.subrange(1, 2) =~= seq![id@ + "_meta_maybe_text"@]);
    }
    let mut option_name = id.to_owned();
    option_name.append("_meta_maybe_text");
    let option_type = AnyType::Option(TOption::new(text));
    proof {
        assert(shaped(option_type, Shape::Maybe(base)));
    }
    let maybe_text = add_type(
        builder,
        option_name.as_str(),
        option_type,
        "A text that may be missing.",
    );
    proof {
        lemma_grown_joined(start, mid, *builder, all, 1, 1);
        assert(all.take(2) =~= all);
        lemma_shaped_next(
            mid,
            *builder,
            seq![id@ + "_meta_maybe_text"@],
            base,
            seq![Shape::Text],
            seq![Shape::Maybe(base)],
        );
        assert(seq![Shape::Text] + seq![Shape::Maybe(base)] =~= meta_shapes(base));
    }
    let fields = with_field(TStruct::default(), "meta_doc", maybe_text.duplicate());
    with_field(fields, "meta_name", maybe_text)
}

/// Adds the structure that describes a kind of type to the builder, which
/// has to admit the name.
pub fn doc_type_ref(id: &str, structure: TStruct, doc: &str, builder: &mut SchemaBuilder) -> (r:
    TypeRef)
    requires
        admits(*old(builder), seq![id@]),
        forall|i: int|
            0 <= i < structure.fields@.len() ==> below(
                (#[trigger] structure.fields@[i]).type_ref,
                old(builder).types@.len() as int,
            ),
    ensures
        grown(*old(builder), *final(builder), seq![id@]),
        r == TypeRef::Numerical((final(builder).types@.len() - 1) as u32),
        at_index(r, old(builder).types@.len() as int),
        forall|fields: Seq<(Seq<char>, int)>|
            recorded(structure, fields) ==> shaped_from(
                *final(builder),
                old(builder).types@.len() as int,
                seq![Shape::Record(fields)],
            ),
{
    let any_type = AnyType::Struct(structure);
    proof {
        assert forall|fields: Seq<(Seq<char>, int)>| recorded(structure, fields) implies shaped(
            any_type,
            Shape::Record(fields),
        ) by {}
    }
    add_type(builder, id, any_type, doc)
}

/// The names of the types that describe identifiers.
pub open spec fn identifier_names(id: Seq<char>) -> Seq<Seq<char>> {
    seq![id + "_segment"@, id]
}

/// The shapes of the types that describe identifiers, the first of which
/// gets the index `base`: a segment is an ASCII text of 1 to 30 characters
/// out of `0-9` and `a-z`, an identifier a sequence of 1 to 12 segments.
pub open spec fn identifier_shapes(base: int) -> Seq<Shape> {
    seq![Shape::Codes(1, 30, seq![48u8, 58u8, 97u8, 123u8]), Shape::Row(base, 1, 12, None)]
}

impl Identifier {
    /// Adds the type of identifiers to the builder: a sequence of 1 to 12
    /// segments, each an ASCII text of 1 to 30 characters out of `0-9` and
    /// `a-z`. The builder has to admit the names of the added types.
    pub fn build_schema(builder: &mut SchemaBuilder, id: &str) -> (r: TypeRef)
        requires
            admits(*old(builder), identifier_names(id@)),
        ensures
            grown(*old(builder), *final(builder), identifier_names(id@)),
            r == TypeRef::Numerical((final(builder).types@.len() - 1) as u32),
            at_index(r, old(builder).types@.len() as int + 1),
            shaped_from(
                *final(builder),
                old(builder).types@.len() as int,
                identifier_shapes(old(builder).types@.len() as int),
            ),
    {
        let ghost start = *builder;
        let ghost base = start.types@.len() as int;
        let ghost all = identifier_names(id@);
        proof {
            assert(all.take(0) =~= Seq::<Seq<char>>::empty());
            lemma_admits_part(start, *builder, all, 0, 1);
            assert(all.subrange(0, 1) =~= seq![id@ + "_segment"@]);
        }
        let mut code_range = match CodeRange::try_new(48, 57 + 1) {
            Ok(range) => range,
            Err(_) => unreached(),
        };
        match code_range.add(97, 122 + 1) {
            Ok(_) => {},
            Err(_) => unreached(),
        }
        let length = match U64IneRange::try_new(SEGMENT_MIN_LEN as u64, SEGMENT_MAX_LEN as u64) {
            Ok(length) => length,
            Err(_) => unreached(),
        };
        let mut segment_name = id.to_owned();
        segment_name.append("_segment");
        let segment_type = AnyType::Ascii(TAscii::new(length, code_range));
        proof {
            assert(code_range.codes@ =~= seq![48u8, 58u8, 97u8, 123u8]);
            assert(shaped(segment_type, identifier_shapes(base)[0]));
        }
        let segment_ref = add_type(
            builder,
            segment_name.as_str(),
            segment_type,
            "A single segment of an identifier. An identifier can only contain certain ASCII characters and is limited in length.",
        );
        let ghost mid = *builder;
        proof {
            lemma_grown_joined(start, start, mid, all, 0, 1);
            lemma_admits_part(start, mid, all, 1, 1);
            assert(all.subrange(1, 2) =~= seq![id@]);
        }
        let segments = match TSeq::try_new(
            segment_ref,
            MIN_NUMBER_OF_SEGMENTS as u32,
            MAX_NUMBER_OF_SEGMENTS as u32,
        ) {
            Ok(segments) => segments,
            Err(_) => unreached(),
        };
        let identifier_type = AnyType::Sequence(segments);
        proof {
            assert(shaped(identifier_type, Shape::Row(base, 1, 12, None)));
        }
        let r = add_type(
            builder,
            id,
            identifier_type,
            "An identifier identifies something in the system. An identifier is composed of 1-12 segments. Each segment is composed of ASCII characters (see segment for details what characters are allowed and about min/max length). These strict constraints allow simple conversions of identifiers to identifiers of the target system (e.g. Java class names, Rust trait names, Dart class names, ...).",
        );
        proof {
            lemma_grown_joined(start, mid, *builder, all, 1, 1);
            assert(all.take(2) =~= all);
            lemma_shaped_next(
                mid,
                *builder,
                seq![id@],
                base,
                seq![identifier_shapes(base)[0]],
                seq![Shape::Row(base, 1, 12, None)],
            );
            assert(seq![identifier_shapes(base)[0]] + seq![Shape::Row(base, 1, 12, None)]
                =~= identifier_shapes(base));
        }
        r
    }
}

/// The names of the types that describe a range.
pub open spec fn range_type_names(id: Seq<char>) -> Seq<Seq<char>> {
    seq![id + "_end"@, id]
}

/// Adds a range of a type to the builder: start and end, both included. The
/// builder has to admit the names of the added types.
pub fn build_range_schema(builder: &mut SchemaBuilder, id: &str, element: AnyType, doc: &str) -> (r:
    TypeRef)
    requires
        admits(*old(builder), range_type_names(id@)),
        element.references().len() == 0,
    ensures
        grown(*old(builder), *final(builder), range_type_names(id@)),
        r == TypeRef::Numerical((final(builder).types@.len() - 1) as u32),
        at_index(r, old(builder).types@.len() as int + 1),
        forall|s: Shape|
            shaped(element, s) ==> shaped_from(
                *final(builder),
                old(builder).types@.len() as int,
                seq![s, Shape::Span(old(builder).types@.len() as int)],
            ),
{
    let ghost start = *builder;
    let ghost base = start.types@.len() as int;
    let ghost all = range_type_names(id@);
    proof {
        assert(all.take(0) =~= Seq::<Seq<char>>::empty());
        lemma_admits_part(start, *builder, all, 0, 1);
        assert(all.subrange(0, 1) =~= seq![id@ + "_end"@]);
    }
    let mut element_name = id.to_owned();
    element_name.append("_end");
    let element_ref = add_type(
        builder,
        element_name.as_str(),
        element,
        "The start or the end of the range.",
    );
    let ghost mid = *builder;
    proof {
        lemma_grown_joined(start, start, mid, all, 0, 1);
        lemma_admits_part(start, mid, all, 1, 1);
        assert(all.subrange(1, 2) =~= seq![id@]);
    }
    let range_type = AnyType::Range(TRange::new(element_ref, Inclusion::BothInclusive, false));
    proof {
        assert(shaped(range_type, Shape::Span(base)));
    }
    let r = add_type(builder, id, range_type, doc);
    proof {
        lemma_grown_joined(start, mid, *builder, all, 1, 1);
        assert(all.take(2) =~= all);
        assert forall|s: Shape| shaped(element, s) implies shaped_from(
            *builder,
            base,
            seq![s, Shape::Span(base)],
        ) by {
            lemma_shaped_next(mid, *builder, seq![id@], base, seq![s], seq![Shape::Span(base)]);
            assert(seq![s] + seq![Shape::Span(base)] =~= seq![s, Shape::Span(base)]);
        }
    }
    r
}

/// Adds the type of references to types to the builder: the index of the
/// type in the schema. The builder has to admit the name.
pub fn build_reference_schema(builder: &mut SchemaBuilder, id: &str, doc: &str) -> (r: TypeRef)
    requires
        admits(*old(builder), seq![id@]),
    ensures
        grown(*old(builder), *final(builder), seq![id@]),
        r == TypeRef::Numerical((final(builder).types@.len() - 1) as u32),
        at_index(r, old(builder).types@.len() as int),
        shaped_from(*final(builder), old(builder).types@.len() as int, seq![Shape::Reference]),
{
    let any_type = AnyType::KeyRef(TKeyRef::default());
    proof {
        assert(shaped(any_type, Shape::Reference));
    }
    add_type(builder, id, any_type, doc)
}

/// Adds the type of booleans to the builder, which has to admit the name.
pub fn build_flag_schema(builder: &mut SchemaBuilder, id: &str, doc: &str) -> (r: TypeRef)
    requires
        admits(*old(builder), seq![id@]),
    ensures
        grown(*old(builder), *final(builder), seq![id@]),
        r == TypeRef::Numerical((final(builder).types@.len() - 1) as u32),
        at_index(r, old(builder).types@.len() as int),
        shaped_from(*final(builder), old(builder).types@.len() as int, seq![Shape::Flag]),
{
    let any_type = AnyType::Bool(TBool::default());
    proof {
        assert(shaped(any_type, Shape::Flag));
    }
    add_type(builder, id, any_type, doc)
}

/// The shape of an enumeration of variants without values.
pub open spec fn cases_shape(names: Seq<Seq<char>>) -> Shape {
    Shape::Choice(Seq::new(names.len(), |i: int| (names[i], Seq::<int>::empty())))
}

/// The shape of the type of sortings: ascending or descending.
pub open spec fn sorting_shape() -> Shape {
    cases_shape(seq!["ascending"@, "descending"@])
}

/// Adds the type of sortings to the builder, which has to admit the name.
pub fn build_sorting_schema(builder: &mut SchemaBuilder, id: &str) -> (r: TypeRef)
    requires
        admits(*old(builder), seq![id@]),
    ensures
        grown(*old(builder), *final(builder), seq![id@]),
        r == TypeRef::Numerical((final(builder).types@.len() - 1) as u32),
        at_index(r, old(builder).types@.len() as int),
        shaped_from(*final(builder), old(builder).types@.len() as int, seq![sorting_shape()]),
{
    proof {
        reveal_strlit("ascending");
        reveal_strlit("descending");
        lemma_snake_case_is_identifier("ascending"@);
        lemma_snake_case_is_identifier("descending"@);
    }
    let directions = TEnum::default().add_variant(new_variant("ascending")).add_variant(
        new_variant("descending"),
    );
    let any_type = AnyType::Enum(directions);
    proof {
        lemma_enum_backward(directions, builder.types@.len() as int);
        assert(shaped(any_type, sorting_shape()));
    }
    add_type(builder, id, any_type, "Determines the sort order (ascending or descending).")
}

/// The names of the types that describe the boolean type, in the
/// order in which they are added.
pub open spec fn bool_names() -> Seq<Seq<char>> {
    seq!["bool"@ + "_meta_text"@, "bool"@ + "_meta_maybe_text"@]
}

/// The shapes of the types that describe the boolean type, the first of
/// which gets the index `base`.
pub open spec fn bool_shapes(base: int) -> Seq<Shape> {
    meta_shapes(base)
}

/// The fields of the structure that describes the boolean type: their
/// names and the indexes of their types.
pub open spec fn bool_record(base: int) -> Seq<(Seq<char>, int)> {
    seq![("meta_doc"@, base + 1), ("meta_name"@, base + 1)]
}

impl TBool {
    /// The structure that describes the boolean type: nothing but
    /// metadata.
    /// The types that describe it are added to the builder, which has to
    /// admit their names.
    pub fn build_schema(builder: &mut SchemaBuilder) -> (s: TStruct)
        requires
            admits(*old(builder), bool_names()),
        ensures
            grown(*old(builder), *final(builder), bool_names()),
            shaped_from(
                *final(builder),
                old(builder).types@.len() as int,
                bool_shapes(old(builder).types@.len() as int),
            ),
            recorded(s, bool_record(old(builder).types@.len() as int)),
    {
        let ghost start = *builder;
        let ghost base = start.types@.len() as int;
        let ghost all = bool_names();
        let ghost mut shapes = Seq::<Shape>::empty();
        proof {
            assert(all.take(0) =~= Seq::<Seq<char>>::empty());
            lemma_admits_part(start, *builder, all, 0, 2);
            assert(all.subrange(0, 2) =~= meta_names("bool"@));
        }
        let ghost mid0 = *builder;
        let fields = meta_fields(builder, "bool");
        proof {
            lemma_grown_joined(start, mid0, *builder, all, 0, 2);
            shapes = meta_shapes(base);
            assert(all.take(2) =~= all);
            assert(shapes == bool_shapes(base));
        }
        fields
    }
}

/// The names of the types that describe the option type, in the
/// order in which they are added.
pub open spec fn option_names() -> Seq<Seq<char>> {
    seq!["option"@ + "_meta_text"@, "option"@ + "_meta_maybe_text"@, "option_type"@]
}

/// The shapes of the types that describe the option type, the first of
/// which gets the index `base`.
pub open spec fn option_shapes(base: int) -> Seq<Shape> {
    meta_shapes(base) + seq![Shape::Reference]
}

/// The fields of the structure that describes the option type: their
/// names and the indexes of their types.
pub open spec fn option_record(base: int) -> Seq<(Seq<char>, int)> {
    seq![("meta_doc"@, base + 1), ("meta_name"@, base + 1), ("type"@, base + 2)]
}

impl TOption {
    /// The structure that describes the option type: the inner type.
    /// The types that describe it are added to the builder, which has to
    /// admit their names.
    pub fn build_schema(builder: &mut SchemaBuilder) -> (s: TStruct)
        requires
            admits(*old(builder), option_names()),
        ensures
            grown(*old(builder), *final(builder), option_names()),
            shaped_from(
                *final(builder),
                old(builder).types@.len() as int,
                option_shapes(old(builder).types@.len() as int),
            ),
            recorded(s, option_record(old(builder).types@.len() as int)),
    {
        let ghost start = *builder;
        let ghost base = start.types@.len() as int;
        let ghost all = option_names();
        let ghost mut shapes = Seq::<Shape>::empty();
        proof {
            reveal_strlit("type");
            lemma_snake_case_is_identifier("type"@);
            assert(all.take(0) =~= Seq::<Seq<char>>::empty());
            lemma_admits_part(start, *builder, all, 0, 2);
            assert(all.subrange(0, 2) =~= meta_names("option"@));
        }
        let ghost mid0 = *builder;
        let fields = meta_fields(builder, "option");
        proof {
            lemma_grown_joined(start, mid0, *builder, all, 0, 2);
            shapes = meta_shapes(base);
            lemma_admits_part(start, *builder, all, 2, 1);
            assert(all.subrange(2, 3) =~= seq!["option_type"@]);
        }
        let ghost mid1 = *builder;
        let field_type = build_reference_schema(
            builder,
            "option_type",
            "The type of the value of a present option.",
        );
        proof {
            lemma_grown_joined(start, mid1, *builder, all, 2, 1);
            assert(shapes.len() == 2);
            lemma_shaped_next(
                mid1,
                *builder,
                seq!["option_type"@],
                base,
                shapes,
                seq![Shape::Reference],
            );
            shapes = shapes + seq![Shape::Reference];
            assert(all.take(3) =~= all);
            assert(shapes == option_shapes(base));
        }
        let fields = with_field(fields, "type", field_type);
        fields
    }
}

/// The names of the types that describe the sequence type, in the
/// order in which they are added.
pub open spec fn seq_names() -> Seq<Seq<char>> {
    seq![
        "seq"@ + "_meta_text"@,
        "seq"@ + "_meta_maybe_text"@,
        "seq_element"@,
        "seq_length"@ + "_end"@,
        "seq_length"@,
        "seq_direction"@,
        "seq_unique"@,
        "seq_sorting"@,
        "seq_ordering"@,
        "seq_multiple_of_number"@,
        "seq_multiple_of"@,
    ]
}

/// The shapes of the types that describe the sequence type, the first of
/// which gets the index `base`.
pub open spec fn seq_shapes(base: int) -> Seq<Shape> {
    meta_shapes(base)
        + seq![Shape::Reference]
        + seq![Shape::Unsigned(0, u32::MAX as int), Shape::Span(base + 3)]
        + seq![sorting_shape()]
        + seq![Shape::Flag]
        + seq![Shape::Record(seq![("direction"@, base + 5), ("unique"@, base + 6)])]
        + seq![Shape::Choice(seq![("any"@, Seq::<int>::empty()), ("sorted"@, seq![base + 7])])]
        + seq![Shape::Unsigned(0, u32::MAX as int)]
        + seq![Shape::Maybe(base + 9)]
}

/// The fields of the structure that describes the sequence type: their
/// names and the indexes of their types.
pub open spec fn seq_record(base: int) -> Seq<(Seq<char>, int)> {
    seq![
        ("meta_doc"@, base + 1),
        ("meta_name"@, base + 1),
        ("element"@, base + 2),
        ("length"@, base + 4),
        ("ordering"@, base + 8),
        ("multiple_of"@, base + 10),
    ]
}

impl TSeq {
    /// The structure that describes the sequence type: element, range of
    /// the length, ordering and what the length is a multiple of.
    /// The types that describe it are added to the builder, which has to
    /// admit their names.
    pub fn build_schema(builder: &mut SchemaBuilder) -> (s: TStruct)
        requires
            admits(*old(builder), seq_names()),
        ensures
            grown(*old(builder), *final(builder), seq_names()),
            shaped_from(
                *final(builder),
                old(builder).types@.len() as int,
                seq_shapes(old(builder).types@.len() as int),
            ),
            recorded(s, seq_record(old(builder).types@.len() as int)),
    {
        let ghost start = *builder;
        let ghost base = start.types@.len() as int;
        let ghost all = seq_names();
        let ghost mut shapes = Seq::<Shape>::empty();
        proof {
            reveal_strlit("element");
            lemma_snake_case_is_identifier("element"@);
            reveal_strlit("length");
            lemma_snake_case_is_identifier("length"@);
            reveal_strlit("ordering");
            lemma_snake_case_is_identifier("ordering"@);
            reveal_strlit("multiple_of");
            lemma_snake_case_is_identifier("multiple_of"@);
            reveal_strlit("direction");
            lemma_snake_case_is_identifier("direction"@);
            reveal_strlit("unique");
            lemma_snake_case_is_identifier("unique"@);
            reveal_strlit("any");
            lemma_snake_case_is_identifier("any"@);
            reveal_strlit("sorted");
            lemma_snake_case_is_identifier("sorted"@);
            assert(all.take(0) =~= Seq::<Seq<char>>::empty());
            lemma_admits_part(start, *builder, all, 0, 2);
            assert(all.subrange(0, 2) =~= meta_names("seq"@));
        }
        let ghost mid0 = *builder;
        let fields = meta_fields(builder, "seq");
        proof {
            lemma_grown_joined(start, mid0, *builder, all, 0, 2);
            shapes = meta_shapes(base);
            lemma_admits_part(start, *builder, all, 2, 1);
            assert(all.subrange(2, 3) =~= seq!["seq_element"@]);
        }
        let ghost mid1 = *builder;
        let element = build_reference_schema(
            builder,
            "seq_element",
            "The element type of a sequence.",
        );
        proof {
            lemma_grown_joined(start, mid1, *builder, all, 2, 1);
            assert(shapes.len() == 2);
            lemma_shaped_next(
                mid1,
                *builder,
                seq!["seq_element"@],
                base,
                shapes,
                seq![Shape::Reference],
            );
            shapes = shapes + seq![Shape::Reference];
        }
        let element_type = uint_type(u32::MIN as u128, u32::MAX as u128);
        proof {
            lemma_admits_part(start, *builder, all, 3, 2);
            assert(all.subrange(3, 5) =~= range_type_names("seq_length"@));
            assert(shaped(element_type, Shape::Unsigned(0, u32::MAX as int)));
        }
        let ghost mid2 = *builder;
        let length = build_range_schema(
            builder,
            "seq_length",
            element_type,
            "The length of a sequence (number of elements). Both - end and start - are included.",
        );
        proof {
            lemma_grown_joined(start, mid2, *builder, all, 3, 2);
            assert(shapes.len() == 3);
            lemma_shaped_next(
                mid2,
                *builder,
                range_type_names("seq_length"@),
                base,
                shapes,
                seq![Shape::Unsigned(0, u32::MAX as int), Shape::Span(base + 3)],
            );
            shapes = shapes + seq![Shape::Unsigned(0, u32::MAX as int), Shape::Span(base + 3)];
            lemma_admits_part(start, *builder, all, 5, 1);
            assert(all.subrange(5, 6) =~= seq!["seq_direction"@]);
        }
        let ghost mid3 = *builder;
        let direction = build_sorting_schema(builder, "seq_direction");
        proof {
            lemma_grown_joined(start, mid3, *builder, all, 5, 1);
            assert(shapes.len() == 5);
            lemma_shaped_next(
                mid3,
                *builder,
                seq!["seq_direction"@],
                base,
                shapes,
                seq![sorting_shape()],
            );
            shapes = shapes + seq![sorting_shape()];
            lemma_admits_part(start, *builder, all, 6, 1);
            assert(all.subrange(6, 7) =~= seq!["seq_unique"@]);
        }
        let ghost mid4 = *builder;
        let unique = build_flag_schema(
            builder,
            "seq_unique",
            "When this is true, no duplicate elements are allowed in the sequence.",
        );
        proof {
            lemma_grown_joined(start, mid4, *builder, all, 6, 1);
            assert(shapes.len() == 6);
            lemma_shaped_next(mid4, *builder, seq!["seq_unique"@], base, shapes, seq![Shape::Flag]);
            shapes = shapes + seq![Shape::Flag];
        }
        let sorting_fields = TStruct::default();
        let sorting_fields = with_field(sorting_fields, "direction", direction);
        let sorting_fields = with_field(sorting_fields, "unique", unique);
        let any_type = AnyType::Struct(sorting_fields);
        proof {
            lemma_admits_part(start, *builder, all, 7, 1);
            assert(all.subrange(7, 8) =~= seq!["seq_sorting"@]);
            assert(shaped(any_type, Shape::Record(seq![("direction"@, base + 5), ("unique"@, base + 6)])));
        }
        let ghost mid5 = *builder;
        let sorting = add_type(
            builder,
            "seq_sorting",
            any_type,
            "Sorting in sequences: the direction and whether elements are unique.",
        );
        proof {
            lemma_grown_joined(start, mid5, *builder, all, 7, 1);
            assert(shapes.len() == 7);
            lemma_shaped_next(
                mid5,
                *builder,
                seq!["seq_sorting"@],
                base,
                shapes,
                seq![Shape::Record(seq![("direction"@, base + 5), ("unique"@, base + 6)])],
            );
            shapes = shapes + seq![Shape::Record(seq![("direction"@, base + 5), ("unique"@, base + 6)])];
        }
        let orderings = TEnum::default(
            ).add_variant(new_variant("any")).add_variant(variant(sorting, "sorted"),
        );
        let any_type = AnyType::Enum(orderings);
        proof {
            lemma_admits_part(start, *builder, all, 8, 1);
            assert(all.subrange(8, 9) =~= seq!["seq_ordering"@]);
            lemma_enum_backward(orderings, builder.types@.len() as int);
            assert(shaped(any_type, Shape::Choice(seq![("any"@, Seq::<int>::empty()), ("sorted"@, seq![base + 7])])));
        }
        let ghost mid6 = *builder;
        let ordering = add_type(
            builder,
            "seq_ordering",
            any_type,
            "Ordering is optional. When there's no ordering it can be used as a list; with ordering and unique elements as a set.",
        );
        proof {
            lemma_grown_joined(start, mid6, *builder, all, 8, 1);
            assert(shapes.len() == 8);
            lemma_shaped_next(
                mid6,
                *builder,
                seq!["seq_ordering"@],
                base,
                shapes,
                seq![Shape::Choice(seq![("any"@, Seq::<int>::empty()), ("sorted"@, seq![base + 7])])],
            );
            shapes = shapes + seq![Shape::Choice(seq![("any"@, Seq::<int>::empty()), ("sorted"@, seq![base + 7])])];
        }
        let any_type = uint_type(u32::MIN as u128, u32::MAX as u128);
        proof {
            lemma_admits_part(start, *builder, all, 9, 1);
            assert(all.subrange(9, 10) =~= seq!["seq_multiple_of_number"@]);
            assert(shaped(any_type, Shape::Unsigned(0, u32::MAX as int)));
        }
        let ghost mid7 = *builder;
        let multiple = add_type(
            builder,
            "seq_multiple_of_number",
            any_type,
            "The number that the length is a multiple of.",
        );
        proof {
            lemma_grown_joined(start, mid7, *builder, all, 9, 1);
            assert(shapes.len() == 9);
            lemma_shaped_next(
                mid7,
                *builder,
                seq!["seq_multiple_of_number"@],
                base,
                shapes,
                seq![Shape::Unsigned(0, u32::MAX as int)],
            );
            shapes = shapes + seq![Shape::Unsigned(0, u32::MAX as int)];
        }
        let any_type = AnyType::Option(TOption::new(multiple));
        proof {
            lemma_admits_part(start, *builder, all, 10, 1);
            assert(all.subrange(10, 11) =~= seq!["seq_multiple_of"@]);
            assert(shaped(any_type, Shape::Maybe(base + 9)));
        }
        let ghost mid8 = *builder;
        let maybe_multiple = add_type(
            builder,
            "seq_multiple_of",
            any_type,
            "It's possible to specify another requirement on the length of the sequence: it has to be a multiple of this number.",
        );
        proof {
            lemma_grown_joined(start, mid8, *builder, all, 10, 1);
            assert(shapes.len() == 10);
            lemma_shaped_next(
                mid8,
                *builder,
                seq!["seq_multiple_of"@],
                base,
                shapes,
                seq![Shape::Maybe(base + 9)],
            );
            shapes = shapes + seq![Shape::Maybe(base + 9)];
            assert(all.take(11) =~= all);
            assert(shapes == seq_shapes(base));
        }
        let fields = with_field(fields, "element", element);
        let fields = with_field(fields, "length", length);
        let fields = with_field(fields, "ordering", ordering);
        let fields = with_field(fields, "multiple_of", maybe_multiple);
        fields
    }
}

/// The names of the types that describe the binary type, in the
/// order in which they are added.
pub open spec fn binary_names() -> Seq<Seq<char>> {
    seq![
        "binary"@ + "_meta_text"@,
        "binary"@ + "_meta_maybe_text"@,
        "binary_length"@ + "_end"@,
        "binary_length"@,
    ]
}

/// The shapes of the types that describe the binary type, the first of
/// which gets the index `base`.
pub open spec fn binary_shapes(base: int) -> Seq<Shape> {
    meta_shapes(base) + seq![Shape::Unsigned(0, u64::MAX as int), Shape::Span(base + 2)]
}

/// The fields of the structure that describes the binary type: their
/// names and the indexes of their types.
pub open spec fn binary_record(base: int) -> Seq<(Seq<char>, int)> {
    seq![("meta_doc"@, base + 1), ("meta_name"@, base + 1), ("length"@, base + 3)]
}

impl TBinary {
    /// The structure that describes the binary type: the range of its
    /// length.
    /// The types that describe it are added to the builder, which has to
    /// admit their names.
    pub fn build_schema(builder: &mut SchemaBuilder) -> (s: TStruct)
        requires
            admits(*old(builder), binary_names()),
        ensures
            grown(*old(builder), *final(builder), binary_names()),
            shaped_from(
                *final(builder),
                old(builder).types@.len() as int,
                binary_shapes(old(builder).types@.len() as int),
            ),
            recorded(s, binary_record(old(builder).types@.len() as int)),
    {
        let ghost start = *builder;
        let ghost base = start.types@.len() as int;
        let ghost all = binary_names();
        let ghost mut shapes = Seq::<Shape>::empty();
        proof {
            reveal_strlit("length");
            lemma_snake_case_is_identifier("length"@);
            assert(all.take(0) =~= Seq::<Seq<char>>::empty());
            lemma_admits_part(start, *builder, all, 0, 2);
            assert(all.subrange(0, 2) =~= meta_names("binary"@));
        }
        let ghost mid0 = *builder;
        let fields = meta_fields(builder, "binary");
        proof {
            lemma_grown_joined(start, mid0, *builder, all, 0, 2);
            shapes = meta_shapes(base);
        }
        let element_type = uint_type(u64::MIN as u128, u64::MAX as u128);
        proof {
            lemma_admits_part(start, *builder, all, 2, 2);
            assert(all.subrange(2, 4) =~= range_type_names("binary_length"@));
            assert(shaped(element_type, Shape::Unsigned(0, u64::MAX as int)));
        }
        let ghost mid1 = *builder;
        let field_length = build_range_schema(
            builder,
            "binary_length",
            element_type,
            "The length of the binary in bytes. Both (start and end) are inclusive.",
        );
        proof {
            lemma_grown_joined(start, mid1, *builder, all, 2, 2);
            assert(shapes.len() == 2);
            lemma_shaped_next(
                mid1,
                *builder,
                range_type_names("binary_length"@),
                base,
                shapes,
                seq![Shape::Unsigned(0, u64::MAX as int), Shape::Span(base + 2)],
            );
            shapes = shapes + seq![Shape::Unsigned(0, u64::MAX as int), Shape::Span(base + 2)];
            assert(all.take(4) =~= all);
            assert(shapes == binary_shapes(base));
        }
        let fields = with_field(fields, "length", field_length);
        fields
    }
}

/// The names of the types that describe the unicode type, in the
/// order in which they are added.
pub open spec fn unicode_names() -> Seq<Seq<char>> {
    seq![
        "unicode"@ + "_meta_text"@,
        "unicode"@ + "_meta_maybe_text"@,
        "unicode_length"@ + "_end"@,
        "unicode_length"@,
        "unicode_length_type"@,
    ]
}

/// The shapes of the types that describe the unicode type, the first of
/// which gets the index `base`.
pub open spec fn unicode_shapes(base: int) -> Seq<Shape> {
    meta_shapes(base)
        + seq![Shape::Unsigned(0, u64::MAX as int), Shape::Span(base + 2)]
        + seq![cases_shape(seq!["byte"@, "utf8_byte"@, "scalar_value"@])]
}

/// The fields of the structure that describes the unicode type: their
/// names and the indexes of their types.
pub open spec fn unicode_record(base: int) -> Seq<(Seq<char>, int)> {
    seq![
        ("meta_doc"@, base + 1),
        ("meta_name"@, base + 1),
        ("length"@, base + 3),
        ("length_type"@, base + 4),
    ]
}

impl TUnicode {
    /// The structure that describes the unicode type: the range of its
    /// length and what the length counts.
    /// The types that describe it are added to the builder, which has to
    /// admit their names.
    pub fn build_schema(builder: &mut SchemaBuilder) -> (s: TStruct)
        requires
            admits(*old(builder), unicode_names()),
        ensures
            grown(*old(builder), *final(builder), unicode_names()),
            shaped_from(
                *final(builder),
                old(builder).types@.len() as int,
                unicode_shapes(old(builder).types@.len() as int),
            ),
            recorded(s, unicode_record(old(builder).types@.len() as int)),
    {
        let ghost start = *builder;
        let ghost base = start.types@.len() as int;
        let ghost all = unicode_names();
        let ghost mut shapes = Seq::<Shape>::empty();
        proof {
            reveal_strlit("length");
            lemma_snake_case_is_identifier("length"@);
            reveal_strlit("length_type");
            lemma_snake_case_is_identifier("length_type"@);
            reveal_strlit("byte");
            lemma_snake_case_is_identifier("byte"@);
            reveal_strlit("utf8_byte");
            lemma_snake_case_is_identifier("utf8_byte"@);
            reveal_strlit("scalar_value");
            lemma_snake_case_is_identifier("scalar_value"@);
            assert(all.take(0) =~= Seq::<Seq<char>>::empty());
            lemma_admits_part(start, *builder, all, 0, 2);
            assert(all.subrange(0, 2) =~= meta_names("unicode"@));
        }
        let ghost mid0 = *builder;
        let fields = meta_fields(builder, "unicode");
        proof {
            lemma_grown_joined(start, mid0, *builder, all, 0, 2);
            shapes = meta_shapes(base);
        }
        let element_type = uint_type(u64::MIN as u128, u64::MAX as u128);
        proof {
            lemma_admits_part(start, *builder, all, 2, 2);
            assert(all.subrange(2, 4) =~= range_type_names("unicode_length"@));
            assert(shaped(element_type, Shape::Unsigned(0, u64::MAX as int)));
        }
        let ghost mid1 = *builder;
        let field_length = build_range_schema(
            builder,
            "unicode_length",
            element_type,
            "The length of the text. Both (start and end) are inclusive.",
        );
        proof {
            lemma_grown_joined(start, mid1, *builder, all, 2, 2);
            assert(shapes.len() == 2);
            lemma_shaped_next(
                mid1,
                *builder,
                range_type_names("unicode_length"@),
                base,
                shapes,
                seq![Shape::Unsigned(0, u64::MAX as int), Shape::Span(base + 2)],
            );
            shapes = shapes + seq![Shape::Unsigned(0, u64::MAX as int), Shape::Span(base + 2)];
        }
        let length_types = TEnum::default();
        let length_types = length_types.add_variant(new_variant("byte"));
        let length_types = length_types.add_variant(new_variant("utf8_byte"));
        let length_types = length_types.add_variant(new_variant("scalar_value"));
        let any_type = AnyType::Enum(length_types);
        proof {
            lemma_admits_part(start, *builder, all, 4, 1);
            assert(all.subrange(4, 5) =~= seq!["unicode_length_type"@]);
            lemma_enum_backward(length_types, builder.types@.len() as int);
            assert(shaped(any_type, cases_shape(seq!["byte"@, "utf8_byte"@, "scalar_value"@])));
        }
        let ghost mid2 = *builder;
        let field_length_type = add_type(
            builder,
            "unicode_length_type",
            any_type,
            "Specifies how the length of the text is counted.",
        );
        proof {
            lemma_grown_joined(start, mid2, *builder, all, 4, 1);
            assert(shapes.len() == 4);
            lemma_shaped_next(
                mid2,
                *builder,
                seq!["unicode_length_type"@],
                base,
                shapes,
                seq![cases_shape(seq!["byte"@, "utf8_byte"@, "scalar_value"@])],
            );
            shapes = shapes + seq![cases_shape(seq!["byte"@, "utf8_byte"@, "scalar_value"@])];
            assert(all.take(5) =~= all);
            assert(shapes == unicode_shapes(base));
        }
        let fields = with_field(fields, "length", field_length);
        let fields = with_field(fields, "length_type", field_length_type);
        fields
    }
}

/// The names of the types that describe the unsigned integer type, in the
/// order in which they are added.
pub open spec fn uint_names() -> Seq<Seq<char>> {
    seq![
        "uint"@ + "_meta_text"@,
        "uint"@ + "_meta_maybe_text"@,
        "uint_range"@ + "_end"@,
        "uint_range"@,
    ]
}

/// The shapes of the types that describe the unsigned integer type, the first of
/// which gets the index `base`.
pub open spec fn uint_shapes(base: int) -> Seq<Shape> {
    meta_shapes(base) + seq![Shape::Unsigned(0, u128::MAX as int), Shape::Span(base + 2)]
}

/// The fields of the structure that describes the unsigned integer type: their
/// names and the indexes of their types.
pub open spec fn uint_record(base: int) -> Seq<(Seq<char>, int)> {
    seq![("meta_doc"@, base + 1), ("meta_name"@, base + 1), ("range"@, base + 3)]
}

impl TUInt {
    /// The structure that describes the unsigned integer type: its range.
    /// The types that describe it are added to the builder, which has to
    /// admit their names.
    pub fn build_schema(builder: &mut SchemaBuilder) -> (s: TStruct)
        requires
            admits(*old(builder), uint_names()),
        ensures
            grown(*old(builder), *final(builder), uint_names()),
            shaped_from(
                *final(builder),
                old(builder).types@.len() as int,
                uint_shapes(old(builder).types@.len() as int),
            ),
            recorded(s, uint_record(old(builder).types@.len() as int)),
    {
        let ghost start = *builder;
        let ghost base = start.types@.len() as int;
        let ghost all = uint_names();
        let ghost mut shapes = Seq::<Shape>::empty();
        proof {
            reveal_strlit("range");
            lemma_snake_case_is_identifier("range"@);
            assert(all.take(0) =~= Seq::<Seq<char>>::empty());
            lemma_admits_part(start, *builder, all, 0, 2);
            assert(all.subrange(0, 2) =~= meta_names("uint"@));
        }
        let ghost mid0 = *builder;
        let fields = meta_fields(builder, "uint");
        proof {
            lemma_grown_joined(start, mid0, *builder, all, 0, 2);
            shapes = meta_shapes(base);
        }
        let element_type = AnyType::UInt(TUInt::new(U128IneRange::full()));
        proof {
            lemma_admits_part(start, *builder, all, 2, 2);
            assert(all.subrange(2, 4) =~= range_type_names("uint_range"@));
            assert(shaped(element_type, Shape::Unsigned(0, u128::MAX as int)));
        }
        let ghost mid1 = *builder;
        let field_range = build_range_schema(
            builder,
            "uint_range",
            element_type,
            "The range within the integer must be. Both (start and end) are inclusive.",
        );
        proof {
            lemma_grown_joined(start, mid1, *builder, all, 2, 2);
            assert(shapes.len() == 2);
            lemma_shaped_next(
                mid1,
                *builder,
                range_type_names("uint_range"@),
                base,
                shapes,
                seq![Shape::Unsigned(0, u128::MAX as int), Shape::Span(base + 2)],
            );
            shapes = shapes + seq![Shape::Unsigned(0, u128::MAX as int), Shape::Span(base + 2)];
            assert(all.take(4) =~= all);
            assert(shapes == uint_shapes(base));
        }
        let fields = with_field(fields, "range", field_range);
        fields
    }
}

/// The names of the types that describe the signed integer type, in the
/// order in which they are added.
pub open spec fn sint_names() -> Seq<Seq<char>> {
    seq![
        "sint"@ + "_meta_text"@,
        "sint"@ + "_meta_maybe_text"@,
        "sint_range"@ + "_end"@,
        "sint_range"@,
    ]
}

/// The shapes of the types that describe the signed integer type, the first of
/// which gets the index `base`.
pub open spec fn sint_shapes(base: int) -> Seq<Shape> {
    meta_shapes(base)
        + seq![Shape::Signed(i128::MIN as int, i128::MAX as int), Shape::Span(base + 2)]
}

/// The fields of the structure that describes the signed integer type: their
/// names and the indexes of their types.
pub open spec fn sint_record(base: int) -> Seq<(Seq<char>, int)> {
    seq![("meta_doc"@, base + 1), ("meta_name"@, base + 1), ("range"@, base + 3)]
}

impl TSInt {
    /// The structure that describes the signed integer type: its range.
    /// The types that describe it are added to the builder, which has to
    /// admit their names.
    pub fn build_schema(builder: &mut SchemaBuilder) -> (s: TStruct)
        requires
            admits(*old(builder), sint_names()),
        ensures
            grown(*old(builder), *final(builder), sint_names()),
            shaped_from(
                *final(builder),
                old(builder).types@.len() as int,
                sint_shapes(old(builder).types@.len() as int),
            ),
            recorded(s, sint_record(old(builder).types@.len() as int)),
    {
        let ghost start = *builder;
        let ghost base = start.types@.len() as int;
        let ghost all = sint_names();
        let ghost mut shapes = Seq::<Shape>::empty();
        proof {
            reveal_strlit("range");
            lemma_snake_case_is_identifier("range"@);
            assert(all.take(0) =~= Seq::<Seq<char>>::empty());
            lemma_admits_part(start, *builder, all, 0, 2);
            assert(all.subrange(0, 2) =~= meta_names("sint"@));
        }
        let ghost mid0 = *builder;
        let fields = meta_fields(builder, "sint");
        proof {
            lemma_grown_joined(start, mid0, *builder, all, 0, 2);
            shapes = meta_shapes(base);
        }
        let element_type = AnyType::SInt(TSInt::new(I128IneRange::full()));
        proof {
            lemma_admits_part(start, *builder, all, 2, 2);
            assert(all.subrange(2, 4) =~= range_type_names("sint_range"@));
            assert(shaped(element_type, Shape::Signed(i128::MIN as int, i128::MAX as int)));
        }
        let ghost mid1 = *builder;
        let field_range = build_range_schema(
            builder,
            "sint_range",
            element_type,
            "The range within the integer must be. Both (start and end) are inclusive.",
        );
        proof {
            lemma_grown_joined(start, mid1, *builder, all, 2, 2);
            assert(shapes.len() == 2);
            lemma_shaped_next(
                mid1,
                *builder,
                range_type_names("sint_range"@),
                base,
                shapes,
                seq![Shape::Signed(i128::MIN as int, i128::MAX as int), Shape::Span(base + 2)],
            );
            shapes = shapes + seq![Shape::Signed(i128::MIN as int, i128::MAX as int), Shape::Span(base + 2)];
            assert(all.take(4) =~= all);
            assert(shapes == sint_shapes(base));
        }
        let fields = with_field(fields, "range", field_range);
        fields
    }
}

/// The names of the types that describe a float type.
pub open spec fn float_names(id: Seq<char>) -> Seq<Seq<char>> {
    seq![id + "_meta_text"@, id + "_meta_maybe_text"@, id + "_number"@, id + "_flag"@]
}

/// The shapes of the types that describe a float type, the first of which
/// gets the index `base`: the metadata, the numbers and the flags.
pub open spec fn float_shapes(base: int, number: Shape) -> Seq<Shape> {
    meta_shapes(base) + seq![number] + seq![Shape::Flag]
}

/// The fields of the structure that describes a float type.
pub open spec fn float_record(base: int) -> Seq<(Seq<char>, int)> {
    seq![
        ("meta_doc"@, base + 1),
        ("meta_name"@, base + 1),
        ("min"@, base + 2),
        ("max"@, base + 2),
        ("allow_nan"@, base + 3),
        ("allow_positive_infinity"@, base + 3),
        ("allow_negative_infinity"@, base + 3),
        ("allow_positive_zero"@, base + 3),
        ("allow_negative_zero"@, base + 3),
        ("allow_subnormal"@, base + 3),
    ]
}

/// The structure that describes a float type: least and greatest number
/// and the six flags. The builder has to admit the names of the added
/// types.
pub fn build_float_schema(builder: &mut SchemaBuilder, id: &str, number: AnyType) -> (s: TStruct)
    requires
        admits(*old(builder), float_names(id@)),
        number.references().len() == 0,
    ensures
        grown(*old(builder), *final(builder), float_names(id@)),
        forall|shape: Shape|
            shaped(number, shape) ==> shaped_from(
                *final(builder),
                old(builder).types@.len() as int,
                float_shapes(old(builder).types@.len() as int, shape),
            ),
        recorded(s, float_record(old(builder).types@.len() as int)),
{
    let ghost start = *builder;
    let ghost base = start.types@.len() as int;
    let ghost all = float_names(id@);
    proof {
        reveal_strlit("min");
        lemma_snake_case_is_identifier("min"@);
        reveal_strlit("max");
        lemma_snake_case_is_identifier("max"@);
        reveal_strlit("allow_nan");
        lemma_snake_case_is_identifier("allow_nan"@);
        reveal_strlit("allow_positive_infinity");
        lemma_snake_case_is_identifier("allow_positive_infinity"@);
        reveal_strlit("allow_negative_infinity");
        lemma_snake_case_is_identifier("allow_negative_infinity"@);
        reveal_strlit("allow_positive_zero");
        lemma_snake_case_is_identifier("allow_positive_zero"@);
        reveal_strlit("allow_negative_zero");
        lemma_snake_case_is_identifier("allow_negative_zero"@);
        reveal_strlit("allow_subnormal");
        lemma_snake_case_is_identifier("allow_subnormal"@);
        assert(all.take(0) =~= Seq::<Seq<char>>::empty());
        lemma_admits_part(start, *builder, all, 0, 2);
        assert(all.subrange(0, 2) =~= meta_names(id@));
    }
    let fields = meta_fields(builder, id);
    let ghost mid0 = *builder;
    proof {
        lemma_grown_joined(start, start, mid0, all, 0, 2);
        lemma_admits_part(start, mid0, all, 2, 1);
        assert(all.subrange(2, 3) =~= seq![id@ + "_number"@]);
    }
    let mut number_name = id.to_owned();
    number_name.append("_number");
    let number_ref = add_type(
        builder,
        number_name.as_str(),
        number,
        "The least or the greatest number that the type accepts.",
    );
    let ghost mid1 = *builder;
    proof {
        lemma_grown_joined(start, mid0, mid1, all, 2, 1);
        lemma_admits_part(start, mid1, all, 3, 1);
        assert(all.subrange(3, 4) =~= seq![id@ + "_flag"@]);
    }
    let mut flag_name = id.to_owned();
    flag_name.append("_flag");
    let flag = build_flag_schema(
        builder,
        flag_name.as_str(),
        "Whether the type accepts a class of numbers.",
    );
    proof {
        lemma_grown_joined(start, mid1, *builder, all, 3, 1);
        assert(all.take(4) =~= all);
        assert forall|shape: Shape| shaped(number, shape) implies shaped_from(
            *builder,
            base,
            float_shapes(base, shape),
        ) by {
            lemma_shaped_next(
                mid0,
                mid1,
                seq![id@ + "_number"@],
                base,
                meta_shapes(base),
                seq![shape],
            );
            lemma_shaped_next(
                mid1,
                *builder,
                seq![id@ + "_flag"@],
                base,
                meta_shapes(base) + seq![shape],
                seq![Shape::Flag],
            );
        }
    }
    let fields = with_field(fields, "min", number_ref.duplicate());
    let fields = with_field(fields, "max", number_ref);
    let fields = with_field(fields, "allow_nan", flag.duplicate());
    let fields = with_field(fields, "allow_positive_infinity", flag.duplicate());
    let fields = with_field(fields, "allow_negative_infinity", flag.duplicate());
    let fields = with_field(fields, "allow_positive_zero", flag.duplicate());
    let fields = with_field(fields, "allow_negative_zero", flag.duplicate());
    with_field(fields, "allow_subnormal", flag)
}

/// The flags of a float type that accepts every number.
pub fn all_float_flags() -> (f: FloatFlags)
    ensures
        f.allow_nan && f.allow_positive_infinity && f.allow_negative_infinity
            && f.allow_positive_zero && f.allow_negative_zero && f.allow_subnormal,
{
    FloatFlags {
        allow_nan: true,
        allow_positive_infinity: true,
        allow_negative_infinity: true,
        allow_positive_zero: true,
        allow_negative_zero: true,
        allow_subnormal: true,
    }
}
/// The names of the types that describe the the 32 bit float type.
pub open spec fn f32_names() -> Seq<Seq<char>> {
    float_names("f32"@)
}

/// The shapes of the types that describe the the 32 bit float type, the first of
/// which gets the index `base`.
pub open spec fn f32_shapes(base: int) -> Seq<Shape> {
    float_shapes(base, Shape::Float32All)
}

/// The fields of the structure that describes the the 32 bit float type.
pub open spec fn f32_record(base: int) -> Seq<(Seq<char>, int)> {
    float_record(base)
}

impl TFloat32 {
    /// The structure that describes the 32 bit float type. The types that
    /// describe it are added to the builder, which has to admit their
    /// names.
    pub fn build_schema(builder: &mut SchemaBuilder) -> (s: TStruct)
        requires
            admits(*old(builder), f32_names()),
        ensures
            grown(*old(builder), *final(builder), f32_names()),
            shaped_from(
                *final(builder),
                old(builder).types@.len() as int,
                f32_shapes(old(builder).types@.len() as int),
            ),
            recorded(s, f32_record(old(builder).types@.len() as int)),
    {
        let number = AnyType::Float32(
            TFloat32 {
                meta: Meta::empty(),
                min: TFloat32::MIN,
                max: TFloat32::MAX,
                flags: all_float_flags(),
            },
        );
        proof {
            assert(shaped(number, Shape::Float32All));
        }
        build_float_schema(builder, "f32", number)
    }
}

/// The names of the types that describe the the 64 bit float type.
pub open spec fn f64_names() -> Seq<Seq<char>> {
    float_names("f64"@)
}

/// The shapes of the types that describe the the 64 bit float type, the first of
/// which gets the index `base`.
pub open spec fn f64_shapes(base: int) -> Seq<Shape> {
    float_shapes(base, Shape::Float64All)
}

/// The fields of the structure that describes the the 64 bit float type.
pub open spec fn f64_record(base: int) -> Seq<(Seq<char>, int)> {
    float_record(base)
}

impl TFloat64 {
    /// The structure that describes the 64 bit float type. The types that
    /// describe it are added to the builder, which has to admit their
    /// names.
    pub fn build_schema(builder: &mut SchemaBuilder) -> (s: TStruct)
        requires
            admits(*old(builder), f64_names()),
        ensures
            grown(*old(builder), *final(builder), f64_names()),
            shaped_from(
                *final(builder),
                old(builder).types@.len() as int,
                f64_shapes(old(builder).types@.len() as int),
            ),
            recorded(s, f64_record(old(builder).types@.len() as int)),
    {
        let number = AnyType::Float64(
            TFloat64 {
                meta: Meta::empty(),
                min: TFloat64::MIN,
                max: TFloat64::MAX,
                flags: all_float_flags(),
            },
        );
        proof {
            assert(shaped(number, Shape::Float64All));
        }
        build_float_schema(builder, "f64", number)
    }
}

/// The names of the types that describe a variant of an enumeration.
pub open spec fn variant_names() -> Seq<Seq<char>> {
    seq![
        "enum_name"@ + "_segment"@,
        "enum_name"@,
        "enum_value"@,
        "enum_values"@,
        "enum_variant"@,
    ]
}

/// The shapes of the types that describe a variant of an enumeration, the
/// first of which gets the index `base`.
pub open spec fn variant_shapes(base: int) -> Seq<Shape> {
    identifier_shapes(base)
        + seq![Shape::Reference]
        + seq![Shape::Row(base + 2, 0, u32::MAX as int, None)]
        + seq![Shape::Record(seq![("name"@, base + 1), ("values"@, base + 3)])]
}

/// Adds the type of the variants of an enumeration to the builder: a name
/// and the types of the values. The builder has to admit the names of the
/// added types.
pub fn build_variant_schema(builder: &mut SchemaBuilder) -> (r: TypeRef)
    requires
        admits(*old(builder), variant_names()),
    ensures
        grown(*old(builder), *final(builder), variant_names()),
        r == TypeRef::Numerical((final(builder).types@.len() - 1) as u32),
        at_index(r, old(builder).types@.len() as int + 4),
        shaped_from(
            *final(builder),
            old(builder).types@.len() as int,
            variant_shapes(old(builder).types@.len() as int),
        ),
{
    let ghost start = *builder;
    let ghost base = start.types@.len() as int;
    let ghost all = variant_names();
    let ghost mut shapes = Seq::<Shape>::empty();
    proof {
        reveal_strlit("name");
        lemma_snake_case_is_identifier("name"@);
        reveal_strlit("values");
        lemma_snake_case_is_identifier("values"@);
        assert(all.take(0) =~= Seq::<Seq<char>>::empty());
        lemma_admits_part(start, *builder, all, 0, 2);
        assert(all.subrange(0, 2) =~= identifier_names("enum_name"@));
    }
    let ghost mid0 = *builder;
    let field_name = Identifier::build_schema(builder, "enum_name");
    proof {
        lemma_grown_joined(start, mid0, *builder, all, 0, 2);
        shapes = identifier_shapes(base);
        lemma_admits_part(start, *builder, all, 2, 1);
        assert(all.subrange(2, 3) =~= seq!["enum_value"@]);
    }
    let ghost mid1 = *builder;
    let single_value = build_reference_schema(
        builder,
        "enum_value",
        "Value type in an enum variant.",
    );
    proof {
        lemma_grown_joined(start, mid1, *builder, all, 2, 1);
        assert(shapes.len() == 2);
        lemma_shaped_next(
            mid1,
            *builder,
            seq!["enum_value"@],
            base,
            shapes,
            seq![Shape::Reference],
        );
        shapes = shapes + seq![Shape::Reference];
    }
    let any_type = AnyType::Sequence(TSeq::new(single_value, U32IneRange::full()));
    proof {
        lemma_admits_part(start, *builder, all, 3, 1);
        assert(all.subrange(3, 4) =~= seq!["enum_values"@]);
        assert(shaped(any_type, Shape::Row(base + 2, 0, u32::MAX as int, None)));
    }
    let ghost mid2 = *builder;
    let field_values = add_type(
        builder,
        "enum_values",
        any_type,
        "Defines the one or more values the enumeration variant takes. You should only have more than one value when you want to extend an existing schema.",
    );
    proof {
        lemma_grown_joined(start, mid2, *builder, all, 3, 1);
        assert(shapes.len() == 3);
        lemma_shaped_next(
            mid2,
            *builder,
            seq!["enum_values"@],
            base,
            shapes,
            seq![Shape::Row(base + 2, 0, u32::MAX as int, None)],
        );
        shapes = shapes + seq![Shape::Row(base + 2, 0, u32::MAX as int, None)];
    }
    let variant_fields = TStruct::default();
    let variant_fields = with_field(variant_fields, "name", field_name);
    let variant_fields = with_field(variant_fields, "values", field_values);
    let any_type = AnyType::Struct(variant_fields);
    proof {
        lemma_admits_part(start, *builder, all, 4, 1);
        assert(all.subrange(4, 5) =~= seq!["enum_variant"@]);
        assert(shaped(any_type, Shape::Record(seq![("name"@, base + 1), ("values"@, base + 3)])));
    }
    let ghost mid3 = *builder;
    let reference = add_type(
        builder,
        "enum_variant",
        any_type,
        "A single variant of an enumeration.",
    );
    proof {
        lemma_grown_joined(start, mid3, *builder, all, 4, 1);
        assert(shapes.len() == 4);
        lemma_shaped_next(
            mid3,
            *builder,
            seq!["enum_variant"@],
            base,
            shapes,
            seq![Shape::Record(seq![("name"@, base + 1), ("values"@, base + 3)])],
        );
        shapes = shapes + seq![Shape::Record(seq![("name"@, base + 1), ("values"@, base + 3)])];
        assert(all.take(5) =~= all);
        assert(shapes == variant_shapes(base));
    }
    reference
}

/// The names of the types that describe the enumeration type, in the
/// order in which they are added.
pub open spec fn enum_names() -> Seq<Seq<char>> {
    seq![
        "enum"@ + "_meta_text"@,
        "enum"@ + "_meta_maybe_text"@,
        "enum_name"@ + "_segment"@,
        "enum_name"@,
        "enum_value"@,
        "enum_values"@,
        "enum_variant"@,
        "enum_variants"@,
    ]
}

/// The shapes of the types that describe the enumeration type, the first of
/// which gets the index `base`.
pub open spec fn enum_shapes(base: int) -> Seq<Shape> {
    meta_shapes(base)
        + variant_shapes(base + 2)
        + seq![Shape::Row(base + 6, 0, u32::MAX as int, None)]
}

/// The fields of the structure that describes the enumeration type: their
/// names and the indexes of their types.
pub open spec fn enum_record(base: int) -> Seq<(Seq<char>, int)> {
    seq![("meta_doc"@, base + 1), ("meta_name"@, base + 1), ("variants"@, base + 7)]
}

impl TEnum {
    /// The structure that describes the enumeration type: its variants.
    /// The types that describe it are added to the builder, which has to
    /// admit their names.
    pub fn build_schema(builder: &mut SchemaBuilder) -> (s: TStruct)
        requires
            admits(*old(builder), enum_names()),
        ensures
            grown(*old(builder), *final(builder), enum_names()),
            shaped_from(
                *final(builder),
                old(builder).types@.len() as int,
                enum_shapes(old(builder).types@.len() as int),
            ),
            recorded(s, enum_record(old(builder).types@.len() as int)),
    {
        let ghost start = *builder;
        let ghost base = start.types@.len() as int;
        let ghost all = enum_names();
        let ghost mut shapes = Seq::<Shape>::empty();
        proof {
            reveal_strlit("variants");
            lemma_snake_case_is_identifier("variants"@);
            assert(all.take(0) =~= Seq::<Seq<char>>::empty());
            lemma_admits_part(start, *builder, all, 0, 2);
            assert(all.subrange(0, 2) =~= meta_names("enum"@));
        }
        let ghost mid0 = *builder;
        let fields = meta_fields(builder, "enum");
        proof {
            lemma_grown_joined(start, mid0, *builder, all, 0, 2);
            shapes = meta_shapes(base);
            lemma_admits_part(start, *builder, all, 2, 5);
            assert(all.subrange(2, 7) =~= variant_names());
        }
        let ghost mid1 = *builder;
        let variant_ref = build_variant_schema(builder);
        proof {
            lemma_grown_joined(start, mid1, *builder, all, 2, 5);
            assert(shapes.len() == 2);
            lemma_shaped_next(
                mid1,
                *builder,
                variant_names(),
                base,
                shapes,
                variant_shapes(base + 2),
            );
            shapes = shapes + variant_shapes(base + 2);
        }
        let any_type = AnyType::Sequence(TSeq::new(variant_ref, U32IneRange::full()));
        proof {
            lemma_admits_part(start, *builder, all, 7, 1);
            assert(all.subrange(7, 8) =~= seq!["enum_variants"@]);
            assert(shaped(any_type, Shape::Row(base + 6, 0, u32::MAX as int, None)));
        }
        let ghost mid2 = *builder;
        let field_variants = add_type(
            builder,
            "enum_variants",
            any_type,
            "Every enumeration has to have one or more variants.",
        );
        proof {
            lemma_grown_joined(start, mid2, *builder, all, 7, 1);
            assert(shapes.len() == 7);
            lemma_shaped_next(
                mid2,
                *builder,
                seq!["enum_variants"@],
                base,
                shapes,
                seq![Shape::Row(base + 6, 0, u32::MAX as int, None)],
            );
            shapes = shapes + seq![Shape::Row(base + 6, 0, u32::MAX as int, None)];
            assert(all.take(8) =~= all);
            assert(shapes == enum_shapes(base));
        }
        let fields = with_field(fields, "variants", field_variants);
        fields
    }
}

/// The names of the types that describe the structure type, in the
/// order in which they are added.
pub open spec fn struct_names() -> Seq<Seq<char>> {
    seq![
        "struct"@ + "_meta_text"@,
        "struct"@ + "_meta_maybe_text"@,
        "struct_name"@ + "_segment"@,
        "struct_name"@,
        "struct_field_type"@,
        "struct_field"@,
        "struct_fields"@,
    ]
}

/// The shapes of the types that describe the structure type, the first of
/// which gets the index `base`.
pub open spec fn struct_shapes(base: int) -> Seq<Shape> {
    meta_shapes(base)
        + identifier_shapes(base + 2)
        + seq![Shape::Reference]
        + seq![Shape::Record(seq![("name"@, base + 3), ("type"@, base + 4)])]
        + seq![Shape::Row(base + 5, 0, u32::MAX as int, None)]
}

/// The fields of the structure that describes the structure type: their
/// names and the indexes of their types.
pub open spec fn struct_record(base: int) -> Seq<(Seq<char>, int)> {
    seq![("meta_doc"@, base + 1), ("meta_name"@, base + 1), ("fields"@, base + 6)]
}

impl TStruct {
    /// The structure that describes the structure type: its fields, each a
    /// name and a type.
    /// The types that describe it are added to the builder, which has to
    /// admit their names.
    pub fn build_schema(builder: &mut SchemaBuilder) -> (s: TStruct)
        requires
            admits(*old(builder), struct_names()),
        ensures
            grown(*old(builder), *final(builder), struct_names()),
            shaped_from(
                *final(builder),
                old(builder).types@.len() as int,
                struct_shapes(old(builder).types@.len() as int),
            ),
            recorded(s, struct_record(old(builder).types@.len() as int)),
    {
        let ghost start = *builder;
        let ghost base = start.types@.len() as int;
        let ghost all = struct_names();
        let ghost mut shapes = Seq::<Shape>::empty();
        proof {
            reveal_strlit("fields");
            lemma_snake_case_is_identifier("fields"@);
            reveal_strlit("name");
            lemma_snake_case_is_identifier("name"@);
            reveal_strlit("type");
            lemma_snake_case_is_identifier("type"@);
            assert(all.take(0) =~= Seq::<Seq<char>>::empty());
            lemma_admits_part(start, *builder, all, 0, 2);
            assert(all.subrange(0, 2) =~= meta_names("struct"@));
        }
        let ghost mid0 = *builder;
        let fields = meta_fields(builder, "struct");
        proof {
            lemma_grown_joined(start, mid0, *builder, all, 0, 2);
            shapes = meta_shapes(base);
            lemma_admits_part(start, *builder, all, 2, 2);
            assert(all.subrange(2, 4) =~= identifier_names("struct_name"@));
        }
        let ghost mid1 = *builder;
        let name = Identifier::build_schema(builder, "struct_name");
        proof {
            lemma_grown_joined(start, mid1, *builder, all, 2, 2);
            assert(shapes.len() == 2);
            lemma_shaped_next(
                mid1,
                *builder,
                identifier_names("struct_name"@),
                base,
                shapes,
                identifier_shapes(base + 2),
            );
            shapes = shapes + identifier_shapes(base + 2);
            lemma_admits_part(start, *builder, all, 4, 1);
            assert(all.subrange(4, 5) =~= seq!["struct_field_type"@]);
        }
        let ghost mid2 = *builder;
        let type_ref = build_reference_schema(
            builder,
            "struct_field_type",
            "Type of a field in a structure.",
        );
        proof {
            lemma_grown_joined(start, mid2, *builder, all, 4, 1);
            assert(shapes.len() == 4);
            lemma_shaped_next(
                mid2,
                *builder,
                seq!["struct_field_type"@],
                base,
                shapes,
                seq![Shape::Reference],
            );
            shapes = shapes + seq![Shape::Reference];
        }
        let field_fields = TStruct::default();
        let field_fields = with_field(field_fields, "name", name);
        let field_fields = with_field(field_fields, "type", type_ref);
        let any_type = AnyType::Struct(field_fields);
        proof {
            lemma_admits_part(start, *builder, all, 5, 1);
            assert(all.subrange(5, 6) =~= seq!["struct_field"@]);
            assert(shaped(any_type, Shape::Record(seq![("name"@, base + 3), ("type"@, base + 4)])));
        }
        let ghost mid3 = *builder;
        let field = add_type(
            builder,
            "struct_field",
            any_type,
            "A single field in a structure. A field contains a name and a type.",
        );
        proof {
            lemma_grown_joined(start, mid3, *builder, all, 5, 1);
            assert(shapes.len() == 5);
            lemma_shaped_next(
                mid3,
                *builder,
                seq!["struct_field"@],
                base,
                shapes,
                seq![Shape::Record(seq![("name"@, base + 3), ("type"@, base + 4)])],
            );
            shapes = shapes + seq![Shape::Record(seq![("name"@, base + 3), ("type"@, base + 4)])];
        }
        let any_type = AnyType::Sequence(TSeq::new(field, U32IneRange::full()));
        proof {
            lemma_admits_part(start, *builder, all, 6, 1);
            assert(all.subrange(6, 7) =~= seq!["struct_fields"@]);
            assert(shaped(any_type, Shape::Row(base + 5, 0, u32::MAX as int, None)));
        }
        let ghost mid4 = *builder;
        let every = add_type(
            builder,
            "struct_fields",
            any_type,
            "These are the fields a structure has.",
        );
        proof {
            lemma_grown_joined(start, mid4, *builder, all, 6, 1);
            assert(shapes.len() == 6);
            lemma_shaped_next(
                mid4,
                *builder,
                seq!["struct_fields"@],
                base,
                shapes,
                seq![Shape::Row(base + 5, 0, u32::MAX as int, None)],
            );
            shapes = shapes + seq![Shape::Row(base + 5, 0, u32::MAX as int, None)];
            assert(all.take(7) =~= all);
            assert(shapes == struct_shapes(base));
        }
        let fields = with_field(fields, "fields", every);
        fields
    }
}

/// The names of the types that describe the map type, in the
/// order in which they are added.
pub open spec fn map_names() -> Seq<Seq<char>> {
    seq![
        "map"@ + "_meta_text"@,
        "map"@ + "_meta_maybe_text"@,
        "map_key"@,
        "map_value"@,
        "map_sorting"@,
        "map_length"@ + "_end"@,
        "map_length"@,
        "map_anchors"@,
    ]
}

/// The shapes of the types that describe the map type, the first of
/// which gets the index `base`.
pub open spec fn map_shapes(base: int) -> Seq<Shape> {
    meta_shapes(base)
        + seq![Shape::Reference]
        + seq![Shape::Reference]
        + seq![sorting_shape()]
        + seq![Shape::Unsigned(0, u32::MAX as int), Shape::Span(base + 5)]
        + seq![Shape::Flag]
}

/// The fields of the structure that describes the map type: their
/// names and the indexes of their types.
pub open spec fn map_record(base: int) -> Seq<(Seq<char>, int)> {
    seq![
        ("meta_doc"@, base + 1),
        ("meta_name"@, base + 1),
        ("key"@, base + 2),
        ("value"@, base + 3),
        ("sorting"@, base + 4),
        ("length"@, base + 6),
        ("anchors"@, base + 7),
    ]
}

impl TMap {
    /// The structure that describes the map type: key, value, sorting,
    /// range of the length, and whether the keys can be referenced.
    /// The types that describe it are added to the builder, which has to
    /// admit their names.
    pub fn build_schema(builder: &mut SchemaBuilder) -> (s: TStruct)
        requires
            admits(*old(builder), map_names()),
        ensures
            grown(*old(builder), *final(builder), map_names()),
            shaped_from(
                *final(builder),
                old(builder).types@.len() as int,
                map_shapes(old(builder).types@.len() as int),
            ),
            recorded(s, map_record(old(builder).types@.len() as int)),
    {
        let ghost start = *builder;
        let ghost base = start.types@.len() as int;
        let ghost all = map_names();
        let ghost mut shapes = Seq::<Shape>::empty();
        proof {
            reveal_strlit("key");
            lemma_snake_case_is_identifier("key"@);
            reveal_strlit("value");
            lemma_snake_case_is_identifier("value"@);
            reveal_strlit("sorting");
            lemma_snake_case_is_identifier("sorting"@);
            reveal_strlit("length");
            lemma_snake_case_is_identifier("length"@);
            reveal_strlit("anchors");
            lemma_snake_case_is_identifier("anchors"@);
            assert(all.take(0) =~= Seq::<Seq<char>>::empty());
            lemma_admits_part(start, *builder, all, 0, 2);
            assert(all.subrange(0, 2) =~= meta_names("map"@));
        }
        let ghost mid0 = *builder;
        let fields = meta_fields(builder, "map");
        proof {
            lemma_grown_joined(start, mid0, *builder, all, 0, 2);
            shapes = meta_shapes(base);
            lemma_admits_part(start, *builder, all, 2, 1);
            assert(all.subrange(2, 3) =~= seq!["map_key"@]);
        }
        let ghost mid1 = *builder;
        let key = build_reference_schema(builder, "map_key", "Type of keys in this map.");
        proof {
            lemma_grown_joined(start, mid1, *builder, all, 2, 1);
            assert(shapes.len() == 2);
            lemma_shaped_next(
                mid1,
                *builder,
                seq!["map_key"@],
                base,
                shapes,
                seq![Shape::Reference],
            );
            shapes = shapes + seq![Shape::Reference];
            lemma_admits_part(start, *builder, all, 3, 1);
            assert(all.subrange(3, 4) =~= seq!["map_value"@]);
        }
        let ghost mid2 = *builder;
        let value = build_reference_schema(builder, "map_value", "Type of values in this map.");
        proof {
            lemma_grown_joined(start, mid2, *builder, all, 3, 1);
            assert(shapes.len() == 3);
            lemma_shaped_next(
                mid2,
                *builder,
                seq!["map_value"@],
                base,
                shapes,
                seq![Shape::Reference],
            );
            shapes = shapes + seq![Shape::Reference];
            lemma_admits_part(start, *builder, all, 4, 1);
            assert(all.subrange(4, 5) =~= seq!["map_sorting"@]);
        }
        let ghost mid3 = *builder;
        let sorting = build_sorting_schema(builder, "map_sorting");
        proof {
            lemma_grown_joined(start, mid3, *builder, all, 4, 1);
            assert(shapes.len() == 4);
            lemma_shaped_next(
                mid3,
                *builder,
                seq!["map_sorting"@],
                base,
                shapes,
                seq![sorting_shape()],
            );
            shapes = shapes + seq![sorting_shape()];
        }
        let element_type = uint_type(u32::MIN as u128, u32::MAX as u128);
        proof {
            lemma_admits_part(start, *builder, all, 5, 2);
            assert(all.subrange(5, 7) =~= range_type_names("map_length"@));
            assert(shaped(element_type, Shape::Unsigned(0, u32::MAX as int)));
        }
        let ghost mid4 = *builder;
        let length = build_range_schema(
            builder,
            "map_length",
            element_type,
            "The length of a map (number of elements). Both - end and start - are included.",
        );
        proof {
            lemma_grown_joined(start, mid4, *builder, all, 5, 2);
            assert(shapes.len() == 5);
            lemma_shaped_next(
                mid4,
                *builder,
                range_type_names("map_length"@),
                base,
                shapes,
                seq![Shape::Unsigned(0, u32::MAX as int), Shape::Span(base + 5)],
            );
            shapes = shapes + seq![Shape::Unsigned(0, u32::MAX as int), Shape::Span(base + 5)];
            lemma_admits_part(start, *builder, all, 7, 1);
            assert(all.subrange(7, 8) =~= seq!["map_anchors"@]);
        }
        let ghost mid5 = *builder;
        let anchors = build_flag_schema(
            builder,
            "map_anchors",
            "If this is true, the keys in this map can be referenced using key refs.",
        );
        proof {
            lemma_grown_joined(start, mid5, *builder, all, 7, 1);
            assert(shapes.len() == 7);
            lemma_shaped_next(
                mid5,
                *builder,
                seq!["map_anchors"@],
                base,
                shapes,
                seq![Shape::Flag],
            );
            shapes = shapes + seq![Shape::Flag];
            assert(all.take(8) =~= all);
            assert(shapes == map_shapes(base));
        }
        let fields = with_field(fields, "key", key);
        let fields = with_field(fields, "value", value);
        let fields = with_field(fields, "sorting", sorting);
        let fields = with_field(fields, "length", length);
        let fields = with_field(fields, "anchors", anchors);
        fields
    }
}

/// The names of the types that describe the root map type, in the
/// order in which they are added.
pub open spec fn root_map_names() -> Seq<Seq<char>> {
    seq![
        "root_map"@ + "_meta_text"@,
        "root_map"@ + "_meta_maybe_text"@,
        "root_map_root"@,
        "root_map_key"@,
        "root_map_value"@,
        "root_map_sorting"@,
        "root_map_length"@ + "_end"@,
        "root_map_length"@,
    ]
}

/// The shapes of the types that describe the root map type, the first of
/// which gets the index `base`.
pub open spec fn root_map_shapes(base: int) -> Seq<Shape> {
    meta_shapes(base)
        + seq![Shape::Reference]
        + seq![Shape::Reference]
        + seq![Shape::Reference]
        + seq![sorting_shape()]
        + seq![Shape::Unsigned(0, u32::MAX as int), Shape::Span(base + 6)]
}

/// The fields of the structure that describes the root map type: their
/// names and the indexes of their types.
pub open spec fn root_map_record(base: int) -> Seq<(Seq<char>, int)> {
    seq![
        ("meta_doc"@, base + 1),
        ("meta_name"@, base + 1),
        ("root"@, base + 2),
        ("key"@, base + 3),
        ("value"@, base + 4),
        ("sorting"@, base + 5),
        ("length"@, base + 7),
    ]
}

impl TRootMap {
    /// The structure that describes the root map type: root, key, value,
    /// sorting and range of the length.
    /// The types that describe it are added to the builder, which has to
    /// admit their names.
    pub fn build_schema(builder: &mut SchemaBuilder) -> (s: TStruct)
        requires
            admits(*old(builder), root_map_names()),
        ensures
            grown(*old(builder), *final(builder), root_map_names()),
            shaped_from(
                *final(builder),
                old(builder).types@.len() as int,
                root_map_shapes(old(builder).types@.len() as int),
            ),
            recorded(s, root_map_record(old(builder).types@.len() as int)),
    {
        let ghost start = *builder;
        let ghost base = start.types@.len() as int;
        let ghost all = root_map_names();
        let ghost mut shapes = Seq::<Shape>::empty();
        proof {
            reveal_strlit("root");
            lemma_snake_case_is_identifier("root"@);
            reveal_strlit("key");
            lemma_snake_case_is_identifier("key"@);
            reveal_strlit("value");
            lemma_snake_case_is_identifier("value"@);
            reveal_strlit("sorting");
            lemma_snake_case_is_identifier("sorting"@);
            reveal_strlit("length");
            lemma_snake_case_is_identifier("length"@);
            assert(all.take(0) =~= Seq::<Seq<char>>::empty());
            lemma_admits_part(start, *builder, all, 0, 2);
            assert(all.subrange(0, 2) =~= meta_names("root_map"@));
        }
        let ghost mid0 = *builder;
        let fields = meta_fields(builder, "root_map");
        proof {
            lemma_grown_joined(start, mid0, *builder, all, 0, 2);
            shapes = meta_shapes(base);
            lemma_admits_part(start, *builder, all, 2, 1);
            assert(all.subrange(2, 3) =~= seq!["root_map_root"@]);
        }
        let ghost mid1 = *builder;
        let root = build_reference_schema(builder, "root_map_root", "The type of the root.");
        proof {
            lemma_grown_joined(start, mid1, *builder, all, 2, 1);
            assert(shapes.len() == 2);
            lemma_shaped_next(
                mid1,
                *builder,
                seq!["root_map_root"@],
                base,
                shapes,
                seq![Shape::Reference],
            );
            shapes = shapes + seq![Shape::Reference];
            lemma_admits_part(start, *builder, all, 3, 1);
            assert(all.subrange(3, 4) =~= seq!["root_map_key"@]);
        }
        let ghost mid2 = *builder;
        let key = build_reference_schema(builder, "root_map_key", "Type of keys in this map.");
        proof {
            lemma_grown_joined(start, mid2, *builder, all, 3, 1);
            assert(shapes.len() == 3);
            lemma_shaped_next(
                mid2,
                *builder,
                seq!["root_map_key"@],
                base,
                shapes,
                seq![Shape::Reference],
            );
            shapes = shapes + seq![Shape::Reference];
            lemma_admits_part(start, *builder, all, 4, 1);
            assert(all.subrange(4, 5) =~= seq!["root_map_value"@]);
        }
        let ghost mid3 = *builder;
        let value = build_reference_schema(
            builder,
            "root_map_value",
            "Type of values in this map.",
        );
        proof {
            lemma_grown_joined(start, mid3, *builder, all, 4, 1);
            assert(shapes.len() == 4);
            lemma_shaped_next(
                mid3,
                *builder,
                seq!["root_map_value"@],
                base,
                shapes,
                seq![Shape::Reference],
            );
            shapes = shapes + seq![Shape::Reference];
            lemma_admits_part(start, *builder, all, 5, 1);
            assert(all.subrange(5, 6) =~= seq!["root_map_sorting"@]);
        }
        let ghost mid4 = *builder;
        let sorting = build_sorting_schema(builder, "root_map_sorting");
        proof {
            lemma_grown_joined(start, mid4, *builder, all, 5, 1);
            assert(shapes.len() == 5);
            lemma_shaped_next(
                mid4,
                *builder,
                seq!["root_map_sorting"@],
                base,
                shapes,
                seq![sorting_shape()],
            );
            shapes = shapes + seq![sorting_shape()];
        }
        let element_type = uint_type(u32::MIN as u128, u32::MAX as u128);
        proof {
            lemma_admits_part(start, *builder, all, 6, 2);
            assert(all.subrange(6, 8) =~= range_type_names("root_map_length"@));
            assert(shaped(element_type, Shape::Unsigned(0, u32::MAX as int)));
        }
        let ghost mid5 = *builder;
        let length = build_range_schema(
            builder,
            "root_map_length",
            element_type,
            "The length of a map (number of elements). Both - end and start - are included.",
        );
        proof {
            lemma_grown_joined(start, mid5, *builder, all, 6, 2);
            assert(shapes.len() == 6);
            lemma_shaped_next(
                mid5,
                *builder,
                range_type_names("root_map_length"@),
                base,
                shapes,
                seq![Shape::Unsigned(0, u32::MAX as int), Shape::Span(base + 6)],
            );
            shapes = shapes + seq![Shape::Unsigned(0, u32::MAX as int), Shape::Span(base + 6)];
            assert(all.take(8) =~= all);
            assert(shapes == root_map_shapes(base));
        }
        let fields = with_field(fields, "root", root);
        let fields = with_field(fields, "key", key);
        let fields = with_field(fields, "value", value);
        let fields = with_field(fields, "sorting", sorting);
        let fields = with_field(fields, "length", length);
        fields
    }
}

/// The names of the types that describe the key reference type, in the
/// order in which they are added.
pub open spec fn key_ref_names() -> Seq<Seq<char>> {
    seq!["key_ref"@ + "_meta_text"@, "key_ref"@ + "_meta_maybe_text"@]
}

/// The shapes of the types that describe the key reference type, the first of
/// which gets the index `base`.
pub open spec fn key_ref_shapes(base: int) -> Seq<Shape> {
    meta_shapes(base)
}

/// The fields of the structure that describes the key reference type: their
/// names and the indexes of their types.
pub open spec fn key_ref_record(base: int) -> Seq<(Seq<char>, int)> {
    seq![("meta_doc"@, base + 1), ("meta_name"@, base + 1)]
}

impl TKeyRef {
    /// The structure that describes the key reference type: nothing but
    /// metadata.
    /// The types that describe it are added to the builder, which has to
    /// admit their names.
    pub fn build_schema(builder: &mut SchemaBuilder) -> (s: TStruct)
        requires
            admits(*old(builder), key_ref_names()),
        ensures
            grown(*old(builder), *final(builder), key_ref_names()),
            shaped_from(
                *final(builder),
                old(builder).types@.len() as int,
                key_ref_shapes(old(builder).types@.len() as int),
            ),
            recorded(s, key_ref_record(old(builder).types@.len() as int)),
    {
        let ghost start = *builder;
        let ghost base = start.types@.len() as int;
        let ghost all = key_ref_names();
        let ghost mut shapes = Seq::<Shape>::empty();
        proof {
            assert(all.take(0) =~= Seq::<Seq<char>>::empty());
            lemma_admits_part(start, *builder, all, 0, 2);
            assert(all.subrange(0, 2) =~= meta_names("key_ref"@));
        }
        let ghost mid0 = *builder;
        let fields = meta_fields(builder, "key_ref");
        proof {
            lemma_grown_joined(start, mid0, *builder, all, 0, 2);
            shapes = meta_shapes(base);
            assert(all.take(2) =~= all);
            assert(shapes == key_ref_shapes(base));
        }
        fields
    }
}

/// The names of the types that describe the ASCII type, in the
/// order in which they are added.
pub open spec fn ascii_names() -> Seq<Seq<char>> {
    seq![
        "ascii"@ + "_meta_text"@,
        "ascii"@ + "_meta_maybe_text"@,
        "ascii_length"@ + "_end"@,
        "ascii_length"@,
        "ascii_code"@,
        "ascii_codes"@,
    ]
}

/// The shapes of the types that describe the ASCII type, the first of
/// which gets the index `base`.
pub open spec fn ascii_shapes(base: int) -> Seq<Shape> {
    meta_shapes(base)
        + seq![Shape::Unsigned(0, u64::MAX as int), Shape::Span(base + 2)]
        + seq![Shape::Unsigned(0, 128)]
        + seq![Shape::Row(base + 4, 0, u32::MAX as int, Some(2u32))]
}

/// The fields of the structure that describes the ASCII type: their
/// names and the indexes of their types.
pub open spec fn ascii_record(base: int) -> Seq<(Seq<char>, int)> {
    seq![
        ("meta_doc"@, base + 1),
        ("meta_name"@, base + 1),
        ("length"@, base + 3),
        ("codes"@, base + 5),
    ]
}

impl TAscii {
    /// The structure that describes the ASCII type: the range of its length
    /// and the allowed codes, as pairs of start (included) and end
    /// (excluded).
    /// The types that describe it are added to the builder, which has to
    /// admit their names.
    pub fn build_schema(builder: &mut SchemaBuilder) -> (s: TStruct)
        requires
            admits(*old(builder), ascii_names()),
        ensures
            grown(*old(builder), *final(builder), ascii_names()),
            shaped_from(
                *final(builder),
                old(builder).types@.len() as int,
                ascii_shapes(old(builder).types@.len() as int),
            ),
            recorded(s, ascii_record(old(builder).types@.len() as int)),
    {
        let ghost start = *builder;
        let ghost base = start.types@.len() as int;
        let ghost all = ascii_names();
        let ghost mut shapes = Seq::<Shape>::empty();
        proof {
            reveal_strlit("length");
            lemma_snake_case_is_identifier("length"@);
            reveal_strlit("codes");
            lemma_snake_case_is_identifier("codes"@);
            assert(all.take(0) =~= Seq::<Seq<char>>::empty());
            lemma_admits_part(start, *builder, all, 0, 2);
            assert(all.subrange(0, 2) =~= meta_names("ascii"@));
        }
        let ghost mid0 = *builder;
        let fields = meta_fields(builder, "ascii");
        proof {
            lemma_grown_joined(start, mid0, *builder, all, 0, 2);
            shapes = meta_shapes(base);
        }
        let element_type = uint_type(u64::MIN as u128, u64::MAX as u128);
        proof {
            lemma_admits_part(start, *builder, all, 2, 2);
            assert(all.subrange(2, 4) =~= range_type_names("ascii_length"@));
            assert(shaped(element_type, Shape::Unsigned(0, u64::MAX as int)));
        }
        let ghost mid1 = *builder;
        let field_length = build_range_schema(
            builder,
            "ascii_length",
            element_type,
            "The number of characters. Both (start and end) are inclusive.",
        );
        proof {
            lemma_grown_joined(start, mid1, *builder, all, 2, 2);
            assert(shapes.len() == 2);
            lemma_shaped_next(
                mid1,
                *builder,
                range_type_names("ascii_length"@),
                base,
                shapes,
                seq![Shape::Unsigned(0, u64::MAX as int), Shape::Span(base + 2)],
            );
            shapes = shapes + seq![Shape::Unsigned(0, u64::MAX as int), Shape::Span(base + 2)];
        }
        let any_type = uint_type(0, 128);
        proof {
            lemma_admits_part(start, *builder, all, 4, 1);
            assert(all.subrange(4, 5) =~= seq!["ascii_code"@]);
            assert(shaped(any_type, Shape::Unsigned(0, 128)));
        }
        let ghost mid2 = *builder;
        let code = add_type(
            builder,
            "ascii_code",
            any_type,
            "An ASCII code, or 128 as the end behind all of them.",
        );
        proof {
            lemma_grown_joined(start, mid2, *builder, all, 4, 1);
            assert(shapes.len() == 4);
            lemma_shaped_next(
                mid2,
                *builder,
                seq!["ascii_code"@],
                base,
                shapes,
                seq![Shape::Unsigned(0, 128)],
            );
            shapes = shapes + seq![Shape::Unsigned(0, 128)];
        }
        let any_type = AnyType::Sequence(TSeq::new(code, U32IneRange::full()).with_multiple_of(2));
        proof {
            lemma_admits_part(start, *builder, all, 5, 1);
            assert(all.subrange(5, 6) =~= seq!["ascii_codes"@]);
            assert(shaped(any_type, Shape::Row(base + 4, 0, u32::MAX as int, Some(2u32))));
        }
        let ghost mid3 = *builder;
        let field_codes = add_type(
            builder,
            "ascii_codes",
            any_type,
            "The allowed codes: pairs of a start (inclusive) and an end (exclusive).",
        );
        proof {
            lemma_grown_joined(start, mid3, *builder, all, 5, 1);
            assert(shapes.len() == 5);
            lemma_shaped_next(
                mid3,
                *builder,
                seq!["ascii_codes"@],
                base,
                shapes,
                seq![Shape::Row(base + 4, 0, u32::MAX as int, Some(2u32))],
            );
            shapes = shapes + seq![Shape::Row(base + 4, 0, u32::MAX as int, Some(2u32))];
            assert(all.take(6) =~= all);
            assert(shapes == ascii_shapes(base));
        }
        let fields = with_field(fields, "length", field_length);
        let fields = with_field(fields, "codes", field_codes);
        fields
    }
}

/// The names of the types that describe the UUID type, in the
/// order in which they are added.
pub open spec fn uuid_names() -> Seq<Seq<char>> {
    seq!["uuid"@ + "_meta_text"@, "uuid"@ + "_meta_maybe_text"@]
}

/// The shapes of the types that describe the UUID type, the first of
/// which gets the index `base`.
pub open spec fn uuid_shapes(base: int) -> Seq<Shape> {
    meta_shapes(base)
}

/// The fields of the structure that describes the UUID type: their
/// names and the indexes of their types.
pub open spec fn uuid_record(base: int) -> Seq<(Seq<char>, int)> {
    seq![("meta_doc"@, base + 1), ("meta_name"@, base + 1)]
}

impl TUuid {
    /// The structure that describes the UUID type: nothing but metadata.
    /// The types that describe it are added to the builder, which has to
    /// admit their names.
    pub fn build_schema(builder: &mut SchemaBuilder) -> (s: TStruct)
        requires
            admits(*old(builder), uuid_names()),
        ensures
            grown(*old(builder), *final(builder), uuid_names()),
            shaped_from(
                *final(builder),
                old(builder).types@.len() as int,
                uuid_shapes(old(builder).types@.len() as int),
            ),
            recorded(s, uuid_record(old(builder).types@.len() as int)),
    {
        let ghost start = *builder;
        let ghost base = start.types@.len() as int;
        let ghost all = uuid_names();
        let ghost mut shapes = Seq::<Shape>::empty();
        proof {
            assert(all.take(0) =~= Seq::<Seq<char>>::empty());
            lemma_admits_part(start, *builder, all, 0, 2);
            assert(all.subrange(0, 2) =~= meta_names("uuid"@));
        }
        let ghost mid0 = *builder;
        let fields = meta_fields(builder, "uuid");
        proof {
            lemma_grown_joined(start, mid0, *builder, all, 0, 2);
            shapes = meta_shapes(base);
            assert(all.take(2) =~= all);
            assert(shapes == uuid_shapes(base));
        }
        fields
    }
}

/// The names of the types that describe the range type, in the
/// order in which they are added.
pub open spec fn range_names() -> Seq<Seq<char>> {
    seq![
        "range"@ + "_meta_text"@,
        "range"@ + "_meta_maybe_text"@,
        "range_element"@,
        "range_inclusion"@,
        "range_allow_empty"@,
    ]
}

/// The shapes of the types that describe the range type, the first of
/// which gets the index `base`.
pub open spec fn range_shapes(base: int) -> Seq<Shape> {
    meta_shapes(base)
        + seq![Shape::Reference]
        + seq![cases_shape(seq!["both_inclusive"@, "start_inclusive"@, "both_exclusive"@, "end_inclusive"@, "supplied"@])]
        + seq![Shape::Flag]
}

/// The fields of the structure that describes the range type: their
/// names and the indexes of their types.
pub open spec fn range_record(base: int) -> Seq<(Seq<char>, int)> {
    seq![
        ("meta_doc"@, base + 1),
        ("meta_name"@, base + 1),
        ("element"@, base + 2),
        ("inclusion"@, base + 3),
        ("allow_empty"@, base + 4),
    ]
}

impl TRange {
    /// The structure that describes the range type: element, inclusion, and
    /// whether empty ranges are allowed.
    /// The types that describe it are added to the builder, which has to
    /// admit their names.
    pub fn build_schema(builder: &mut SchemaBuilder) -> (s: TStruct)
        requires
            admits(*old(builder), range_names()),
        ensures
            grown(*old(builder), *final(builder), range_names()),
            shaped_from(
                *final(builder),
                old(builder).types@.len() as int,
                range_shapes(old(builder).types@.len() as int),
            ),
            recorded(s, range_record(old(builder).types@.len() as int)),
    {
        let ghost start = *builder;
        let ghost base = start.types@.len() as int;
        let ghost all = range_names();
        let ghost mut shapes = Seq::<Shape>::empty();
        proof {
            reveal_strlit("element");
            lemma_snake_case_is_identifier("element"@);
            reveal_strlit("inclusion");
            lemma_snake_case_is_identifier("inclusion"@);
            reveal_strlit("allow_empty");
            lemma_snake_case_is_identifier("allow_empty"@);
            reveal_strlit("both_inclusive");
            lemma_snake_case_is_identifier("both_inclusive"@);
            reveal_strlit("start_inclusive");
            lemma_snake_case_is_identifier("start_inclusive"@);
            reveal_strlit("both_exclusive");
            lemma_snake_case_is_identifier("both_exclusive"@);
            reveal_strlit("end_inclusive");
            lemma_snake_case_is_identifier("end_inclusive"@);
            reveal_strlit("supplied");
            lemma_snake_case_is_identifier("supplied"@);
            assert(all.take(0) =~= Seq::<Seq<char>>::empty());
            lemma_admits_part(start, *builder, all, 0, 2);
            assert(all.subrange(0, 2) =~= meta_names("range"@));
        }
        let ghost mid0 = *builder;
        let fields = meta_fields(builder, "range");
        proof {
            lemma_grown_joined(start, mid0, *builder, all, 0, 2);
            shapes = meta_shapes(base);
            lemma_admits_part(start, *builder, all, 2, 1);
            assert(all.subrange(2, 3) =~= seq!["range_element"@]);
        }
        let ghost mid1 = *builder;
        let element_field = build_reference_schema(
            builder,
            "range_element",
            "The start and end type of the range.",
        );
        proof {
            lemma_grown_joined(start, mid1, *builder, all, 2, 1);
            assert(shapes.len() == 2);
            lemma_shaped_next(
                mid1,
                *builder,
                seq!["range_element"@],
                base,
                shapes,
                seq![Shape::Reference],
            );
            shapes = shapes + seq![Shape::Reference];
        }
        let inclusions = TEnum::default();
        let inclusions = inclusions.add_variant(new_variant("both_inclusive"));
        let inclusions = inclusions.add_variant(new_variant("start_inclusive"));
        let inclusions = inclusions.add_variant(new_variant("both_exclusive"));
        let inclusions = inclusions.add_variant(new_variant("end_inclusive"));
        let inclusions = inclusions.add_variant(new_variant("supplied"));
        let any_type = AnyType::Enum(inclusions);
        proof {
            lemma_admits_part(start, *builder, all, 3, 1);
            assert(all.subrange(3, 4) =~= seq!["range_inclusion"@]);
            lemma_enum_backward(inclusions, builder.types@.len() as int);
            assert(shaped(any_type, cases_shape(seq!["both_inclusive"@, "start_inclusive"@, "both_exclusive"@, "end_inclusive"@, "supplied"@])));
        }
        let ghost mid2 = *builder;
        let inclusion_field = add_type(
            builder,
            "range_inclusion",
            any_type,
            "Determines whether start and end are inclusive. There's one special value: 'Supplied'. When you choose this, the data has to contain the information whether start/end are inclusive or not.",
        );
        proof {
            lemma_grown_joined(start, mid2, *builder, all, 3, 1);
            assert(shapes.len() == 3);
            lemma_shaped_next(
                mid2,
                *builder,
                seq!["range_inclusion"@],
                base,
                shapes,
                seq![cases_shape(seq!["both_inclusive"@, "start_inclusive"@, "both_exclusive"@, "end_inclusive"@, "supplied"@])],
            );
            shapes = shapes + seq![cases_shape(seq!["both_inclusive"@, "start_inclusive"@, "both_exclusive"@, "end_inclusive"@, "supplied"@])];
            lemma_admits_part(start, *builder, all, 4, 1);
            assert(all.subrange(4, 5) =~= seq!["range_allow_empty"@]);
        }
        let ghost mid3 = *builder;
        let allow_empty_field = build_flag_schema(
            builder,
            "range_allow_empty",
            "General rule is start < end. When start equals end it's possible to construct empty ranges (depending on the inclusion). If this is false it's not allowed to specify a range that's empty. You usually want this to be false.",
        );
        proof {
            lemma_grown_joined(start, mid3, *builder, all, 4, 1);
            assert(shapes.len() == 4);
            lemma_shaped_next(
                mid3,
                *builder,
                seq!["range_allow_empty"@],
                base,
                shapes,
                seq![Shape::Flag],
            );
            shapes = shapes + seq![Shape::Flag];
            assert(all.take(5) =~= all);
            assert(shapes == range_shapes(base));
        }
        let fields = with_field(fields, "element", element_field);
        let fields = with_field(fields, "inclusion", inclusion_field);
        let fields = with_field(fields, "allow_empty", allow_empty_field);
        fields
    }
}

/// The names of the types that describe the decimal type, in the
/// order in which they are added.
pub open spec fn decimal_names() -> Seq<Seq<char>> {
    seq![
        "decimal"@ + "_meta_text"@,
        "decimal"@ + "_meta_maybe_text"@,
        "decimal_coefficient"@ + "_end"@,
        "decimal_coefficient"@,
        "decimal_exponent"@ + "_end"@,
        "decimal_exponent"@,
    ]
}

/// The shapes of the types that describe the decimal type, the first of
/// which gets the index `base`.
pub open spec fn decimal_shapes(base: int) -> Seq<Shape> {
    meta_shapes(base)
        + seq![Shape::Signed(i128::MIN as int, i128::MAX as int), Shape::Span(base + 2)]
        + seq![Shape::Signed(i8::MIN as int, i8::MAX as int), Shape::Span(base + 4)]
}

/// The fields of the structure that describes the decimal type: their
/// names and the indexes of their types.
pub open spec fn decimal_record(base: int) -> Seq<(Seq<char>, int)> {
    seq![
        ("meta_doc"@, base + 1),
        ("meta_name"@, base + 1),
        ("coefficient"@, base + 3),
        ("exponent"@, base + 5),
    ]
}

impl TDecimal {
    /// The structure that describes the decimal type: the ranges of
    /// coefficient and exponent.
    /// The types that describe it are added to the builder, which has to
    /// admit their names.
    pub fn build_schema(builder: &mut SchemaBuilder) -> (s: TStruct)
        requires
            admits(*old(builder), decimal_names()),
        ensures
            grown(*old(builder), *final(builder), decimal_names()),
            shaped_from(
                *final(builder),
                old(builder).types@.len() as int,
                decimal_shapes(old(builder).types@.len() as int),
            ),
            recorded(s, decimal_record(old(builder).types@.len() as int)),
    {
        let ghost start = *builder;
        let ghost base = start.types@.len() as int;
        let ghost all = decimal_names();
        let ghost mut shapes = Seq::<Shape>::empty();
        proof {
            reveal_strlit("coefficient");
            lemma_snake_case_is_identifier("coefficient"@);
            reveal_strlit("exponent");
            lemma_snake_case_is_identifier("exponent"@);
            assert(all.take(0) =~= Seq::<Seq<char>>::empty());
            lemma_admits_part(start, *builder, all, 0, 2);
            assert(all.subrange(0, 2) =~= meta_names("decimal"@));
        }
        let ghost mid0 = *builder;
        let fields = meta_fields(builder, "decimal");
        proof {
            lemma_grown_joined(start, mid0, *builder, all, 0, 2);
            shapes = meta_shapes(base);
        }
        let element_type = AnyType::SInt(TSInt::new(I128IneRange::full()));
        proof {
            lemma_admits_part(start, *builder, all, 2, 2);
            assert(all.subrange(2, 4) =~= range_type_names("decimal_coefficient"@));
            assert(shaped(element_type, Shape::Signed(i128::MIN as int, i128::MAX as int)));
        }
        let ghost mid1 = *builder;
        let coefficient = build_range_schema(
            builder,
            "decimal_coefficient",
            element_type,
            "The range of the coefficient. Both (start and end) are inclusive.",
        );
        proof {
            lemma_grown_joined(start, mid1, *builder, all, 2, 2);
            assert(shapes.len() == 2);
            lemma_shaped_next(
                mid1,
                *builder,
                range_type_names("decimal_coefficient"@),
                base,
                shapes,
                seq![Shape::Signed(i128::MIN as int, i128::MAX as int), Shape::Span(base + 2)],
            );
            shapes = shapes + seq![Shape::Signed(i128::MIN as int, i128::MAX as int), Shape::Span(base + 2)];
        }
        let element_type = sint_type(i8::MIN as i128, i8::MAX as i128);
        proof {
            lemma_admits_part(start, *builder, all, 4, 2);
            assert(all.subrange(4, 6) =~= range_type_names("decimal_exponent"@));
            assert(shaped(element_type, Shape::Signed(i8::MIN as int, i8::MAX as int)));
        }
        let ghost mid2 = *builder;
        let exponent = build_range_schema(
            builder,
            "decimal_exponent",
            element_type,
            "The range of the exponent. Both (start and end) are inclusive.",
        );
        proof {
            lemma_grown_joined(start, mid2, *builder, all, 4, 2);
            assert(shapes.len() == 4);
            lemma_shaped_next(
                mid2,
                *builder,
                range_type_names("decimal_exponent"@),
                base,
                shapes,
                seq![Shape::Signed(i8::MIN as int, i8::MAX as int), Shape::Span(base + 4)],
            );
            shapes = shapes + seq![Shape::Signed(i8::MIN as int, i8::MAX as int), Shape::Span(base + 4)];
            assert(all.take(6) =~= all);
            assert(shapes == decimal_shapes(base));
        }
        let fields = with_field(fields, "coefficient", coefficient);
        let fields = with_field(fields, "exponent", exponent);
        fields
    }
}

/// The number of kinds of types.
pub open spec fn kind_count() -> int {
    18
}

/// The name of the `k`-th kind of type, in the order of `AnyType`.
pub open spec fn kind_id(k: int) -> Seq<char> {
    if k == 0 {
        "bool"@
    } else if k == 1 {
        "option"@
    } else if k == 2 {
        "seq"@
    } else if k == 3 {
        "binary"@
    } else if k == 4 {
        "unicode"@
    } else if k == 5 {
        "uint"@
    } else if k == 6 {
        "sint"@
    } else if k == 7 {
        "f32"@
    } else if k == 8 {
        "f64"@
    } else if k == 9 {
        "enum"@
    } else if k == 10 {
        "struct"@
    } else if k == 11 {
        "map"@
    } else if k == 12 {
        "root_map"@
    } else if k == 13 {
        "key_ref"@
    } else if k == 14 {
        "ascii"@
    } else if k == 15 {
        "uuid"@
    } else if k == 16 {
        "range"@
    } else {
        "decimal"@
    }
}

/// The names of the types that describe the `k`-th kind of type.
pub open spec fn kind_names(k: int) -> Seq<Seq<char>> {
    if k == 0 {
        bool_names()
    } else if k == 1 {
        option_names()
    } else if k == 2 {
        seq_names()
    } else if k == 3 {
        binary_names()
    } else if k == 4 {
        unicode_names()
    } else if k == 5 {
        uint_names()
    } else if k == 6 {
        sint_names()
    } else if k == 7 {
        f32_names()
    } else if k == 8 {
        f64_names()
    } else if k == 9 {
        enum_names()
    } else if k == 10 {
        struct_names()
    } else if k == 11 {
        map_names()
    } else if k == 12 {
        root_map_names()
    } else if k == 13 {
        key_ref_names()
    } else if k == 14 {
        ascii_names()
    } else if k == 15 {
        uuid_names()
    } else if k == 16 {
        range_names()
    } else {
        decimal_names()
    }
}

/// The names of the types that describe the `k`-th kind of type, and the
/// name of the kind at their end.
pub open spec fn kind_group(k: int) -> Seq<Seq<char>> {
    kind_names(k) + seq![kind_id(k)]
}

/// The number of types that describe the kinds of types before the `k`-th.
pub open spec fn kind_start(k: int) -> int {
    if k <= 0 {
        0
    } else if k <= 1 {
        3
    } else if k <= 2 {
        7
    } else if k <= 3 {
        19
    } else if k <= 4 {
        24
    } else if k <= 5 {
        30
    } else if k <= 6 {
        35
    } else if k <= 7 {
        40
    } else if k <= 8 {
        45
    } else if k <= 9 {
        50
    } else if k <= 10 {
        59
    } else if k <= 11 {
        67
    } else if k <= 12 {
        76
    } else if k <= 13 {
        85
    } else if k <= 14 {
        88
    } else if k <= 15 {
        95
    } else if k <= 16 {
        98
    } else if k <= 17 {
        104
    } else {
        111
    }
}

/// The shapes of the types that describe the `k`-th kind of type, the first
/// of which gets the index `base`: its own types, and the structure of its
/// parameters at their end.
pub open spec fn kind_shapes(k: int, base: int) -> Seq<Shape> {
    if k == 0 {
        bool_shapes(base) + seq![Shape::Record(bool_record(base))]
    } else if k == 1 {
        option_shapes(base) + seq![Shape::Record(option_record(base))]
    } else if k == 2 {
        seq_shapes(base) + seq![Shape::Record(seq_record(base))]
    } else if k == 3 {
        binary_shapes(base) + seq![Shape::Record(binary_record(base))]
    } else if k == 4 {
        unicode_shapes(base) + seq![Shape::Record(unicode_record(base))]
    } else if k == 5 {
        uint_shapes(base) + seq![Shape::Record(uint_record(base))]
    } else if k == 6 {
        sint_shapes(base) + seq![Shape::Record(sint_record(base))]
    } else if k == 7 {
        f32_shapes(base) + seq![Shape::Record(f32_record(base))]
    } else if k == 8 {
        f64_shapes(base) + seq![Shape::Record(f64_record(base))]
    } else if k == 9 {
        enum_shapes(base) + seq![Shape::Record(enum_record(base))]
    } else if k == 10 {
        struct_shapes(base) + seq![Shape::Record(struct_record(base))]
    } else if k == 11 {
        map_shapes(base) + seq![Shape::Record(map_record(base))]
    } else if k == 12 {
        root_map_shapes(base) + seq![Shape::Record(root_map_record(base))]
    } else if k == 13 {
        key_ref_shapes(base) + seq![Shape::Record(key_ref_record(base))]
    } else if k == 14 {
        ascii_shapes(base) + seq![Shape::Record(ascii_record(base))]
    } else if k == 15 {
        uuid_shapes(base) + seq![Shape::Record(uuid_record(base))]
    } else if k == 16 {
        range_shapes(base) + seq![Shape::Record(range_record(base))]
    } else {
        decimal_shapes(base) + seq![Shape::Record(decimal_record(base))]
    }
}

/// The shape of the type of all types, where the first of the types that
/// describe the kinds has the index `base`: an enumeration with a variant
/// for each kind of type, in the order of `AnyType`; a variant has the
/// name of its kind and one value, the structure that describes the kind.
pub open spec fn any_type_shape(base: int) -> Shape {
    Shape::Choice(
        Seq::new(
            kind_count() as nat,
            |k: int| (kind_id(k), seq![base + kind_start(k + 1) - 1]),
        ),
    )
}

/// The shapes of the types that describe the kinds of types from the `k`-th
/// on, and of the type of all types at their end.
pub open spec fn shapes_from(k: int, base: int) -> Seq<Shape>
    decreases kind_count() - k,
{
    if k < 0 || k >= kind_count() {
        seq![any_type_shape(base)]
    } else {
        kind_shapes(k, base + kind_start(k)) + shapes_from(k + 1, base)
    }
}

/// The shapes of the types that describe all types, the first of which gets
/// the index `base`.
pub open spec fn any_type_shapes(base: int) -> Seq<Shape> {
    shapes_from(0, base)
}

/// Whether an enumeration has a variant for each of the first `k` kinds of
/// types, as the type of all types has them.
pub open spec fn cased(cases: TEnum, k: int, base: int) -> bool {
    &&& cases.variants@.len() == k
    &&& forall|v: int|
        0 <= v < k ==> named((#[trigger] cases.variants@[v]).name, kind_id(v))
            && cases.variants@[v].values@.len() == 1 && at_index(
            cases.variants@[v].values@[0],
            base + kind_start(v + 1) - 1,
        )
}

/// Adds the types that describe the boolean type and one more case for it.
fn add_kind_bool(builder: &mut SchemaBuilder, cases: TEnum) -> (r: TEnum)
    requires
        admits(*old(builder), kind_group(0)),
        values_below(cases, old(builder).types@.len() as int),
        cases.variants@.len() < 64,
    ensures
        grown(*old(builder), *final(builder), kind_group(0)),
        values_below(r, final(builder).types@.len() as int),
        r.variants@.len() == cases.variants@.len() + 1,
        forall|v: int|
            0 <= v < cases.variants@.len() ==> #[trigger] r.variants@[v] == cases.variants@[v],
        named(r.variants@[cases.variants@.len() as int].name, kind_id(0)),
        r.variants@[cases.variants@.len() as int].values@.len() == 1,
        at_index(
            r.variants@[cases.variants@.len() as int].values@[0],
            old(builder).types@.len() as int + 2,
        ),
        shaped_from(
            *final(builder),
            old(builder).types@.len() as int,
            kind_shapes(0, old(builder).types@.len() as int),
        ),
{
    let ghost start = *builder;
    let ghost base = start.types@.len() as int;
    let ghost all = kind_group(0);
    proof {
        reveal_strlit("bool");
        lemma_snake_case_is_identifier("bool"@);
        assert(all =~= Seq::<Seq<char>>::empty() + bool_names() + seq!["bool"@]);
        lemma_admits_next(start, *builder, all, Seq::empty(), bool_names(), seq!["bool"@]);
    }
    let structure = TBool::build_schema(builder);
    let ghost mid = *builder;
    proof {
        assert(all =~= bool_names() + seq!["bool"@] + Seq::<Seq<char>>::empty());
        lemma_admits_next(start, mid, all, bool_names(), seq!["bool"@], Seq::empty());
        assert(bool_names().len() == 2);
        assert(bool_shapes(base).len() == 2);
    }
    let reference = doc_type_ref(
        "bool",
        structure,
        "Data of type boolean (aka bool) can hold the value 'true' or the value 'false' (1 or 0; on or off; enabled or disabled).",
        builder,
    );
    proof {
        lemma_grown_next(start, mid, *builder, bool_names(), seq!["bool"@]);
        lemma_shaped_next(
            mid,
            *builder,
            seq!["bool"@],
            base,
            bool_shapes(base),
            seq![Shape::Record(bool_record(base))],
        );
    }
    cases.add_variant(variant(reference, "bool"))
}

/// Adds the types that describe the option type and one more case for it.
fn add_kind_option(builder: &mut SchemaBuilder, cases: TEnum) -> (r: TEnum)
    requires
        admits(*old(builder), kind_group(1)),
        values_below(cases, old(builder).types@.len() as int),
        cases.variants@.len() < 64,
    ensures
        grown(*old(builder), *final(builder), kind_group(1)),
        values_below(r, final(builder).types@.len() as int),
        r.variants@.len() == cases.variants@.len() + 1,
        forall|v: int|
            0 <= v < cases.variants@.len() ==> #[trigger] r.variants@[v] == cases.variants@[v],
        named(r.variants@[cases.variants@.len() as int].name, kind_id(1)),
        r.variants@[cases.variants@.len() as int].values@.len() == 1,
        at_index(
            r.variants@[cases.variants@.len() as int].values@[0],
            old(builder).types@.len() as int + 3,
        ),
        shaped_from(
            *final(builder),
            old(builder).types@.len() as int,
            kind_shapes(1, old(builder).types@.len() as int),
        ),
{
    let ghost start = *builder;
    let ghost base = start.types@.len() as int;
    let ghost all = kind_group(1);
    proof {
        reveal_strlit("option");
        lemma_snake_case_is_identifier("option"@);
        assert(all =~= Seq::<Seq<char>>::empty() + option_names() + seq!["option"@]);
        lemma_admits_next(start, *builder, all, Seq::empty(), option_names(), seq!["option"@]);
    }
    let structure = TOption::build_schema(builder);
    let ghost mid = *builder;
    proof {
        assert(all =~= option_names() + seq!["option"@] + Seq::<Seq<char>>::empty());
        lemma_admits_next(start, mid, all, option_names(), seq!["option"@], Seq::empty());
        assert(option_names().len() == 3);
        assert(option_shapes(base).len() == 3);
    }
    let reference = doc_type_ref(
        "option",
        structure,
        "Use the option type (aka maybe; optional; nullable) to describe data that can either be there ('present'; 'some') or absent ('missing'; 'empty').",
        builder,
    );
    proof {
        lemma_grown_next(start, mid, *builder, option_names(), seq!["option"@]);
        lemma_shaped_next(
            mid,
            *builder,
            seq!["option"@],
            base,
            option_shapes(base),
            seq![Shape::Record(option_record(base))],
        );
    }
    cases.add_variant(variant(reference, "option"))
}

/// Adds the types that describe the sequence type and one more case for it.
fn add_kind_seq(builder: &mut SchemaBuilder, cases: TEnum) -> (r: TEnum)
    requires
        admits(*old(builder), kind_group(2)),
        values_below(cases, old(builder).types@.len() as int),
        cases.variants@.len() < 64,
    ensures
        grown(*old(builder), *final(builder), kind_group(2)),
        values_below(r, final(builder).types@.len() as int),
        r.variants@.len() == cases.variants@.len() + 1,
        forall|v: int|
            0 <= v < cases.variants@.len() ==> #[trigger] r.variants@[v] == cases.variants@[v],
        named(r.variants@[cases.variants@.len() as int].name, kind_id(2)),
        r.variants@[cases.variants@.len() as int].values@.len() == 1,
        at_index(
            r.variants@[cases.variants@.len() as int].values@[0],
            old(builder).types@.len() as int + 11,
        ),
        shaped_from(
            *final(builder),
            old(builder).types@.len() as int,
            kind_shapes(2, old(builder).types@.len() as int),
        ),
{
    let ghost start = *builder;
    let ghost base = start.types@.len() as int;
    let ghost all = kind_group(2);
    proof {
        reveal_strlit("seq");
        lemma_snake_case_is_identifier("seq"@);
        assert(all =~= Seq::<Seq<char>>::empty() + seq_names() + seq!["seq"@]);
        lemma_admits_next(start, *builder, all, Seq::empty(), seq_names(), seq!["seq"@]);
    }
    let structure = TSeq::build_schema(builder);
    let ghost mid = *builder;
    proof {
        assert(all =~= seq_names() + seq!["seq"@] + Seq::<Seq<char>>::empty());
        lemma_admits_next(start, mid, all, seq_names(), seq!["seq"@], Seq::empty());
        assert(seq_names().len() == 11);
        assert(seq_shapes(base).len() == 11);
    }
    let reference = doc_type_ref(
        "seq",
        structure,
        "A sequence (aka seq; list; vector; array) describes a sequence of 0-n elements. Unlike struct fields, each element in a sequence has to be of the same type.",
        builder,
    );
    proof {
        lemma_grown_next(start, mid, *builder, seq_names(), seq!["seq"@]);
        lemma_shaped_next(
            mid,
            *builder,
            seq!["seq"@],
            base,
            seq_shapes(base),
            seq![Shape::Record(seq_record(base))],
        );
    }
    cases.add_variant(variant(reference, "seq"))
}

/// Adds the types that describe the binary type and one more case for it.
fn add_kind_binary(builder: &mut SchemaBuilder, cases: TEnum) -> (r: TEnum)
    requires
        admits(*old(builder), kind_group(3)),
        values_below(cases, old(builder).types@.len() as int),
        cases.variants@.len() < 64,
    ensures
        grown(*old(builder), *final(builder), kind_group(3)),
        values_below(r, final(builder).types@.len() as int),
        r.variants@.len() == cases.variants@.len() + 1,
        forall|v: int|
            0 <= v < cases.variants@.len() ==> #[trigger] r.variants@[v] == cases.variants@[v],
        named(r.variants@[cases.variants@.len() as int].name, kind_id(3)),
        r.variants@[cases.variants@.len() as int].values@.len() == 1,
        at_index(
            r.variants@[cases.variants@.len() as int].values@[0],
            old(builder).types@.len() as int + 4,
        ),
        shaped_from(
            *final(builder),
            old(builder).types@.len() as int,
            kind_shapes(3, old(builder).types@.len() as int),
        ),
{
    let ghost start = *builder;
    let ghost base = start.types@.len() as int;
    let ghost all = kind_group(3);
    proof {
        reveal_strlit("binary");
        lemma_snake_case_is_identifier("binary"@);
        assert(all =~= Seq::<Seq<char>>::empty() + binary_names() + seq!["binary"@]);
        lemma_admits_next(start, *builder, all, Seq::empty(), binary_names(), seq!["binary"@]);
    }
    let structure = TBinary::build_schema(builder);
    let ghost mid = *builder;
    proof {
        assert(all =~= binary_names() + seq!["binary"@] + Seq::<Seq<char>>::empty());
        lemma_admits_next(start, mid, all, binary_names(), seq!["binary"@], Seq::empty());
        assert(binary_names().len() == 4);
        assert(binary_shapes(base).len() == 4);
    }
    let reference = doc_type_ref(
        "binary",
        structure,
        "Arbitrary binary data.",
        builder,
    );
    proof {
        lemma_grown_next(start, mid, *builder, binary_names(), seq!["binary"@]);
        lemma_shaped_next(
            mid,
            *builder,
            seq!["binary"@],
            base,
            binary_shapes(base),
            seq![Shape::Record(binary_record(base))],
        );
    }
    cases.add_variant(variant(reference, "binary"))
}

/// Adds the types that describe the unicode type and one more case for it.
fn add_kind_unicode(builder: &mut SchemaBuilder, cases: TEnum) -> (r: TEnum)
    requires
        admits(*old(builder), kind_group(4)),
        values_below(cases, old(builder).types@.len() as int),
        cases.variants@.len() < 64,
    ensures
        grown(*old(builder), *final(builder), kind_group(4)),
        values_below(r, final(builder).types@.len() as int),
        r.variants@.len() == cases.variants@.len() + 1,
        forall|v: int|
            0 <= v < cases.variants@.len() ==> #[trigger] r.variants@[v] == cases.variants@[v],
        named(r.variants@[cases.variants@.len() as int].name, kind_id(4)),
        r.variants@[cases.variants@.len() as int].values@.len() == 1,
        at_index(
            r.variants@[cases.variants@.len() as int].values@[0],
            old(builder).types@.len() as int + 5,
        ),
        shaped_from(
            *final(builder),
            old(builder).types@.len() as int,
            kind_shapes(4, old(builder).types@.len() as int),
        ),
{
    let ghost start = *builder;
    let ghost base = start.types@.len() as int;
    let ghost all = kind_group(4);
    proof {
        reveal_strlit("unicode");
        lemma_snake_case_is_identifier("unicode"@);
        assert(all =~= Seq::<Seq<char>>::empty() + unicode_names() + seq!["unicode"@]);
        lemma_admits_next(start, *builder, all, Seq::empty(), unicode_names(), seq!["unicode"@]);
    }
    let structure = TUnicode::build_schema(builder);
    let ghost mid = *builder;
    proof {
        assert(all =~= unicode_names() + seq!["unicode"@] + Seq::<Seq<char>>::empty());
        lemma_admits_next(start, mid, all, unicode_names(), seq!["unicode"@], Seq::empty());
        assert(unicode_names().len() == 5);
        assert(unicode_shapes(base).len() == 5);
    }
    let reference = doc_type_ref(
        "unicode",
        structure,
        "The unicode type (aka string) can be used to describe arbitrary human readable text.",
        builder,
    );
    proof {
        lemma_grown_next(start, mid, *builder, unicode_names(), seq!["unicode"@]);
        lemma_shaped_next(
            mid,
            *builder,
            seq!["unicode"@],
            base,
            unicode_shapes(base),
            seq![Shape::Record(unicode_record(base))],
        );
    }
    cases.add_variant(variant(reference, "unicode"))
}

/// Adds the types that describe the unsigned integer type and one more case for it.
fn add_kind_uint(builder: &mut SchemaBuilder, cases: TEnum) -> (r: TEnum)
    requires
        admits(*old(builder), kind_group(5)),
        values_below(cases, old(builder).types@.len() as int),
        cases.variants@.len() < 64,
    ensures
        grown(*old(builder), *final(builder), kind_group(5)),
        values_below(r, final(builder).types@.len() as int),
        r.variants@.len() == cases.variants@.len() + 1,
        forall|v: int|
            0 <= v < cases.variants@.len() ==> #[trigger] r.variants@[v] == cases.variants@[v],
        named(r.variants@[cases.variants@.len() as int].name, kind_id(5)),
        r.variants@[cases.variants@.len() as int].values@.len() == 1,
        at_index(
            r.variants@[cases.variants@.len() as int].values@[0],
            old(builder).types@.len() as int + 4,
        ),
        shaped_from(
            *final(builder),
            old(builder).types@.len() as int,
            kind_shapes(5, old(builder).types@.len() as int),
        ),
{
    let ghost start = *builder;
    let ghost base = start.types@.len() as int;
    let ghost all = kind_group(5);
    proof {
        reveal_strlit("uint");
        lemma_snake_case_is_identifier("uint"@);
        assert(all =~= Seq::<Seq<char>>::empty() + uint_names() + seq!["uint"@]);
        lemma_admits_next(start, *builder, all, Seq::empty(), uint_names(), seq!["uint"@]);
    }
    let structure = TUInt::build_schema(builder);
    let ghost mid = *builder;
    proof {
        assert(all =~= uint_names() + seq!["uint"@] + Seq::<Seq<char>>::empty());
        lemma_admits_next(start, mid, all, uint_names(), seq!["uint"@], Seq::empty());
        assert(uint_names().len() == 4);
        assert(uint_shapes(base).len() == 4);
    }
    let reference = doc_type_ref(
        "uint",
        structure,
        "Data of an unsigned integer (aka uint or unsigned int) holds a single (positive) integer value (within a defined range).",
        builder,
    );
    proof {
        lemma_grown_next(start, mid, *builder, uint_names(), seq!["uint"@]);
        lemma_shaped_next(
            mid,
            *builder,
            seq!["uint"@],
            base,
            uint_shapes(base),
            seq![Shape::Record(uint_record(base))],
        );
    }
    cases.add_variant(variant(reference, "uint"))
}

/// Adds the types that describe the signed integer type and one more case for it.
fn add_kind_sint(builder: &mut SchemaBuilder, cases: TEnum) -> (r: TEnum)
    requires
        admits(*old(builder), kind_group(6)),
        values_below(cases, old(builder).types@.len() as int),
        cases.variants@.len() < 64,
    ensures
        grown(*old(builder), *final(builder), kind_group(6)),
        values_below(r, final(builder).types@.len() as int),
        r.variants@.len() == cases.variants@.len() + 1,
        forall|v: int|
            0 <= v < cases.variants@.len() ==> #[trigger] r.variants@[v] == cases.variants@[v],
        named(r.variants@[cases.variants@.len() as int].name, kind_id(6)),
        r.variants@[cases.variants@.len() as int].values@.len() == 1,
        at_index(
            r.variants@[cases.variants@.len() as int].values@[0],
            old(builder).types@.len() as int + 4,
        ),
        shaped_from(
            *final(builder),
            old(builder).types@.len() as int,
            kind_shapes(6, old(builder).types@.len() as int),
        ),
{
    let ghost start = *builder;
    let ghost base = start.types@.len() as int;
    let ghost all = kind_group(6);
    proof {
        reveal_strlit("sint");
        lemma_snake_case_is_identifier("sint"@);
        assert(all =~= Seq::<Seq<char>>::empty() + sint_names() + seq!["sint"@]);
        lemma_admits_next(start, *builder, all, Seq::empty(), sint_names(), seq!["sint"@]);
    }
    let structure = TSInt::build_schema(builder);
    let ghost mid = *builder;
    proof {
        assert(all =~= sint_names() + seq!["sint"@] + Seq::<Seq<char>>::empty());
        lemma_admits_next(start, mid, all, sint_names(), seq!["sint"@], Seq::empty());
        assert(sint_names().len() == 4);
        assert(sint_shapes(base).len() == 4);
    }
    let reference = doc_type_ref(
        "sint",
        structure,
        "Data of signed integer (aka sint or signed int) holds a single (positive or negative) integer value (within a defined range).",
        builder,
    );
    proof {
        lemma_grown_next(start, mid, *builder, sint_names(), seq!["sint"@]);
        lemma_shaped_next(
            mid,
            *builder,
            seq!["sint"@],
            base,
            sint_shapes(base),
            seq![Shape::Record(sint_record(base))],
        );
    }
    cases.add_variant(variant(reference, "sint"))
}

/// Adds the types that describe the 32 bit float type and one more case for it.
fn add_kind_f32(builder: &mut SchemaBuilder, cases: TEnum) -> (r: TEnum)
    requires
        admits(*old(builder), kind_group(7)),
        values_below(cases, old(builder).types@.len() as int),
        cases.variants@.len() < 64,
    ensures
        grown(*old(builder), *final(builder), kind_group(7)),
        values_below(r, final(builder).types@.len() as int),
        r.variants@.len() == cases.variants@.len() + 1,
        forall|v: int|
            0 <= v < cases.variants@.len() ==> #[trigger] r.variants@[v] == cases.variants@[v],
        named(r.variants@[cases.variants@.len() as int].name, kind_id(7)),
        r.variants@[cases.variants@.len() as int].values@.len() == 1,
        at_index(
            r.variants@[cases.variants@.len() as int].values@[0],
            old(builder).types@.len() as int + 4,
        ),
        shaped_from(
            *final(builder),
            old(builder).types@.len() as int,
            kind_shapes(7, old(builder).types@.len() as int),
        ),
{
    let ghost start = *builder;
    let ghost base = start.types@.len() as int;
    let ghost all = kind_group(7);
    proof {
        reveal_strlit("f32");
        lemma_snake_case_is_identifier("f32"@);
        assert(all =~= Seq::<Seq<char>>::empty() + f32_names() + seq!["f32"@]);
        lemma_admits_next(start, *builder, all, Seq::empty(), f32_names(), seq!["f32"@]);
    }
    let structure = TFloat32::build_schema(builder);
    let ghost mid = *builder;
    proof {
        assert(all =~= f32_names() + seq!["f32"@] + Seq::<Seq<char>>::empty());
        lemma_admits_next(start, mid, all, f32_names(), seq!["f32"@], Seq::empty());
        assert(f32_names().len() == 4);
        assert(f32_shapes(base).len() == 4);
    }
    let reference = doc_type_ref(
        "f32",
        structure,
        "A IEEE 754 32 bit float number. Do not use this to transfer decimal values.",
        builder,
    );
    proof {
        lemma_grown_next(start, mid, *builder, f32_names(), seq!["f32"@]);
        lemma_shaped_next(
            mid,
            *builder,
            seq!["f32"@],
            base,
            f32_shapes(base),
            seq![Shape::Record(f32_record(base))],
        );
    }
    cases.add_variant(variant(reference, "f32"))
}

/// Adds the types that describe the 64 bit float type and one more case for it.
fn add_kind_f64(builder: &mut SchemaBuilder, cases: TEnum) -> (r: TEnum)
    requires
        admits(*old(builder), kind_group(8)),
        values_below(cases, old(builder).types@.len() as int),
        cases.variants@.len() < 64,
    ensures
        grown(*old(builder), *final(builder), kind_group(8)),
        values_below(r, final(builder).types@.len() as int),
        r.variants@.len() == cases.variants@.len() + 1,
        forall|v: int|
            0 <= v < cases.variants@.len() ==> #[trigger] r.variants@[v] == cases.variants@[v],
        named(r.variants@[cases.variants@.len() as int].name, kind_id(8)),
        r.variants@[cases.variants@.len() as int].values@.len() == 1,
        at_index(
            r.variants@[cases.variants@.len() as int].values@[0],
            old(builder).types@.len() as int + 4,
        ),
        shaped_from(
            *final(builder),
            old(builder).types@.len() as int,
            kind_shapes(8, old(builder).types@.len() as int),
        ),
{
    let ghost start = *builder;
    let ghost base = start.types@.len() as int;
    let ghost all = kind_group(8);
    proof {
        reveal_strlit("f64");
        lemma_snake_case_is_identifier("f64"@);
        assert(all =~= Seq::<Seq<char>>::empty() + f64_names() + seq!["f64"@]);
        lemma_admits_next(start, *builder, all, Seq::empty(), f64_names(), seq!["f64"@]);
    }
    let structure = TFloat64::build_schema(builder);
    let ghost mid = *builder;
    proof {
        assert(all =~= f64_names() + seq!["f64"@] + Seq::<Seq<char>>::empty());
        lemma_admits_next(start, mid, all, f64_names(), seq!["f64"@], Seq::empty());
        assert(f64_names().len() == 4);
        assert(f64_shapes(base).len() == 4);
    }
    let reference = doc_type_ref(
        "f64",
        structure,
        "A IEEE 754 64 bit float number. Do not use this to transfer decimal values.",
        builder,
    );
    proof {
        lemma_grown_next(start, mid, *builder, f64_names(), seq!["f64"@]);
        lemma_shaped_next(
            mid,
            *builder,
            seq!["f64"@],
            base,
            f64_shapes(base),
            seq![Shape::Record(f64_record(base))],
        );
    }
    cases.add_variant(variant(reference, "f64"))
}

/// Adds the types that describe the enumeration type and one more case for it.
fn add_kind_enum(builder: &mut SchemaBuilder, cases: TEnum) -> (r: TEnum)
    requires
        admits(*old(builder), kind_group(9)),
        values_below(cases, old(builder).types@.len() as int),
        cases.variants@.len() < 64,
    ensures
        grown(*old(builder), *final(builder), kind_group(9)),
        values_below(r, final(builder).types@.len() as int),
        r.variants@.len() == cases.variants@.len() + 1,
        forall|v: int|
            0 <= v < cases.variants@.len() ==> #[trigger] r.variants@[v] == cases.variants@[v],
        named(r.variants@[cases.variants@.len() as int].name, kind_id(9)),
        r.variants@[cases.variants@.len() as int].values@.len() == 1,
        at_index(
            r.variants@[cases.variants@.len() as int].values@[0],
            old(builder).types@.len() as int + 8,
        ),
        shaped_from(
            *final(builder),
            old(builder).types@.len() as int,
            kind_shapes(9, old(builder).types@.len() as int),
        ),
{
    let ghost start = *builder;
    let ghost base = start.types@.len() as int;
    let ghost all = kind_group(9);
    proof {
        reveal_strlit("enum");
        lemma_snake_case_is_identifier("enum"@);
        assert(all =~= Seq::<Seq<char>>::empty() + enum_names() + seq!["enum"@]);
        lemma_admits_next(start, *builder, all, Seq::empty(), enum_names(), seq!["enum"@]);
    }
    let structure = TEnum::build_schema(builder);
    let ghost mid = *builder;
    proof {
        assert(all =~= enum_names() + seq!["enum"@] + Seq::<Seq<char>>::empty());
        lemma_admits_next(start, mid, all, enum_names(), seq!["enum"@], Seq::empty());
        assert(enum_names().len() == 8);
        assert(enum_shapes(base).len() == 8);
    }
    let reference = doc_type_ref(
        "enum",
        structure,
        "An enumeration (aka enum; tagged union; variant record; discriminated union) contains 1-n variants; Each variant can (optionally) have a value.",
        builder,
    );
    proof {
        lemma_grown_next(start, mid, *builder, enum_names(), seq!["enum"@]);
        lemma_shaped_next(
            mid,
            *builder,
            seq!["enum"@],
            base,
            enum_shapes(base),
            seq![Shape::Record(enum_record(base))],
        );
    }
    cases.add_variant(variant(reference, "enum"))
}

/// Adds the types that describe the structure type and one more case for it.
fn add_kind_struct(builder: &mut SchemaBuilder, cases: TEnum) -> (r: TEnum)
    requires
        admits(*old(builder), kind_group(10)),
        values_below(cases, old(builder).types@.len() as int),
        cases.variants@.len() < 64,
    ensures
        grown(*old(builder), *final(builder), kind_group(10)),
        values_below(r, final(builder).types@.len() as int),
        r.variants@.len() == cases.variants@.len() + 1,
        forall|v: int|
            0 <= v < cases.variants@.len() ==> #[trigger] r.variants@[v] == cases.variants@[v],
        named(r.variants@[cases.variants@.len() as int].name, kind_id(10)),
        r.variants@[cases.variants@.len() as int].values@.len() == 1,
        at_index(
            r.variants@[cases.variants@.len() as int].values@[0],
            old(builder).types@.len() as int + 7,
        ),
        shaped_from(
            *final(builder),
            old(builder).types@.len() as int,
            kind_shapes(10, old(builder).types@.len() as int),
        ),
{
    let ghost start = *builder;
    let ghost base = start.types@.len() as int;
    let ghost all = kind_group(10);
    proof {
        reveal_strlit("struct");
        lemma_snake_case_is_identifier("struct"@);
        assert(all =~= Seq::<Seq<char>>::empty() + struct_names() + seq!["struct"@]);
        lemma_admits_next(start, *builder, all, Seq::empty(), struct_names(), seq!["struct"@]);
    }
    let structure = TStruct::build_schema(builder);
    let ghost mid = *builder;
    proof {
        assert(all =~= struct_names() + seq!["struct"@] + Seq::<Seq<char>>::empty());
        lemma_admits_next(start, mid, all, struct_names(), seq!["struct"@], Seq::empty());
        assert(struct_names().len() == 7);
        assert(struct_shapes(base).len() == 7);
    }
    let reference = doc_type_ref(
        "struct",
        structure,
        "A structure (aka struct) contains 0-n fields. The fields do not need to be of the same type.",
        builder,
    );
    proof {
        lemma_grown_next(start, mid, *builder, struct_names(), seq!["struct"@]);
        lemma_shaped_next(
            mid,
            *builder,
            seq!["struct"@],
            base,
            struct_shapes(base),
            seq![Shape::Record(struct_record(base))],
        );
    }
    cases.add_variant(variant(reference, "struct"))
}

/// Adds the types that describe the map type and one more case for it.
fn add_kind_map(builder: &mut SchemaBuilder, cases: TEnum) -> (r: TEnum)
    requires
        admits(*old(builder), kind_group(11)),
        values_below(cases, old(builder).types@.len() as int),
        cases.variants@.len() < 64,
    ensures
        grown(*old(builder), *final(builder), kind_group(11)),
        values_below(r, final(builder).types@.len() as int),
        r.variants@.len() == cases.variants@.len() + 1,
        forall|v: int|
            0 <= v < cases.variants@.len() ==> #[trigger] r.variants@[v] == cases.variants@[v],
        named(r.variants@[cases.variants@.len() as int].name, kind_id(11)),
        r.variants@[cases.variants@.len() as int].values@.len() == 1,
        at_index(
            r.variants@[cases.variants@.len() as int].values@[0],
            old(builder).types@.len() as int + 8,
        ),
        shaped_from(
            *final(builder),
            old(builder).types@.len() as int,
            kind_shapes(11, old(builder).types@.len() as int),
        ),
{
    let ghost start = *builder;
    let ghost base = start.types@.len() as int;
    let ghost all = kind_group(11);
    proof {
        reveal_strlit("map");
        lemma_snake_case_is_identifier("map"@);
        assert(all =~= Seq::<Seq<char>>::empty() + map_names() + seq!["map"@]);
        lemma_admits_next(start, *builder, all, Seq::empty(), map_names(), seq!["map"@]);
    }
    let structure = TMap::build_schema(builder);
    let ghost mid = *builder;
    proof {
        assert(all =~= map_names() + seq!["map"@] + Seq::<Seq<char>>::empty());
        lemma_admits_next(start, mid, all, map_names(), seq!["map"@], Seq::empty());
        assert(map_names().len() == 8);
        assert(map_shapes(base).len() == 8);
    }
    let reference = doc_type_ref(
        "map",
        structure,
        "A sequence of key-value entries. Duplicate keys are not allowed. The keys can optionally be referenced to create recursive data structures.",
        builder,
    );
    proof {
        lemma_grown_next(start, mid, *builder, map_names(), seq!["map"@]);
        lemma_shaped_next(
            mid,
            *builder,
            seq!["map"@],
            base,
            map_shapes(base),
            seq![Shape::Record(map_record(base))],
        );
    }
    cases.add_variant(variant(reference, "map"))
}

/// Adds the types that describe the root map type and one more case for it.
fn add_kind_root_map(builder: &mut SchemaBuilder, cases: TEnum) -> (r: TEnum)
    requires
        admits(*old(builder), kind_group(12)),
        values_below(cases, old(builder).types@.len() as int),
        cases.variants@.len() < 64,
    ensures
        grown(*old(builder), *final(builder), kind_group(12)),
        values_below(r, final(builder).types@.len() as int),
        r.variants@.len() == cases.variants@.len() + 1,
        forall|v: int|
            0 <= v < cases.variants@.len() ==> #[trigger] r.variants@[v] == cases.variants@[v],
        named(r.variants@[cases.variants@.len() as int].name, kind_id(12)),
        r.variants@[cases.variants@.len() as int].values@.len() == 1,
        at_index(
            r.variants@[cases.variants@.len() as int].values@[0],
            old(builder).types@.len() as int + 8,
        ),
        shaped_from(
            *final(builder),
            old(builder).types@.len() as int,
            kind_shapes(12, old(builder).types@.len() as int),
        ),
{
    let ghost start = *builder;
    let ghost base = start.types@.len() as int;
    let ghost all = kind_group(12);
    proof {
        reveal_strlit("root_map");
        lemma_snake_case_is_identifier("root_map"@);
        assert(all =~= Seq::<Seq<char>>::empty() + root_map_names() + seq!["root_map"@]);
        lemma_admits_next(start, *builder, all, Seq::empty(), root_map_names(), seq!["root_map"@]);
    }
    let structure = TRootMap::build_schema(builder);
    let ghost mid = *builder;
    proof {
        assert(all =~= root_map_names() + seq!["root_map"@] + Seq::<Seq<char>>::empty());
        lemma_admits_next(start, mid, all, root_map_names(), seq!["root_map"@], Seq::empty());
        assert(root_map_names().len() == 8);
        assert(root_map_shapes(base).len() == 8);
    }
    let reference = doc_type_ref(
        "root_map",
        structure,
        "A map with a root. Keys have to be unique. The keys can be referenced. The root cannot be referenced. The root can reference keys.",
        builder,
    );
    proof {
        lemma_grown_next(start, mid, *builder, root_map_names(), seq!["root_map"@]);
        lemma_shaped_next(
            mid,
            *builder,
            seq!["root_map"@],
            base,
            root_map_shapes(base),
            seq![Shape::Record(root_map_record(base))],
        );
    }
    cases.add_variant(variant(reference, "root_map"))
}

/// Adds the types that describe the key reference type and one more case for it.
fn add_kind_key_ref(builder: &mut SchemaBuilder, cases: TEnum) -> (r: TEnum)
    requires
        admits(*old(builder), kind_group(13)),
        values_below(cases, old(builder).types@.len() as int),
        cases.variants@.len() < 64,
    ensures
        grown(*old(builder), *final(builder), kind_group(13)),
        values_below(r, final(builder).types@.len() as int),
        r.variants@.len() == cases.variants@.len() + 1,
        forall|v: int|
            0 <= v < cases.variants@.len() ==> #[trigger] r.variants@[v] == cases.variants@[v],
        named(r.variants@[cases.variants@.len() as int].name, kind_id(13)),
        r.variants@[cases.variants@.len() as int].values@.len() == 1,
        at_index(
            r.variants@[cases.variants@.len() as int].values@[0],
            old(builder).types@.len() as int + 2,
        ),
        shaped_from(
            *final(builder),
            old(builder).types@.len() as int,
            kind_shapes(13, old(builder).types@.len() as int),
        ),
{
    let ghost start = *builder;
    let ghost base = start.types@.len() as int;
    let ghost all = kind_group(13);
    proof {
        reveal_strlit("key_ref");
        lemma_snake_case_is_identifier("key_ref"@);
        assert(all =~= Seq::<Seq<char>>::empty() + key_ref_names() + seq!["key_ref"@]);
        lemma_admits_next(start, *builder, all, Seq::empty(), key_ref_names(), seq!["key_ref"@]);
    }
    let structure = TKeyRef::build_schema(builder);
    let ghost mid = *builder;
    proof {
        assert(all =~= key_ref_names() + seq!["key_ref"@] + Seq::<Seq<char>>::empty());
        lemma_admits_next(start, mid, all, key_ref_names(), seq!["key_ref"@], Seq::empty());
        assert(key_ref_names().len() == 2);
        assert(key_ref_shapes(base).len() == 2);
    }
    let reference = doc_type_ref(
        "key_ref",
        structure,
        "Key references can reference keys from outer types that supports references (provide anchors that can be referenced): Maps and RootMaps.",
        builder,
    );
    proof {
        lemma_grown_next(start, mid, *builder, key_ref_names(), seq!["key_ref"@]);
        lemma_shaped_next(
            mid,
            *builder,
            seq!["key_ref"@],
            base,
            key_ref_shapes(base),
            seq![Shape::Record(key_ref_record(base))],
        );
    }
    cases.add_variant(variant(reference, "key_ref"))
}

/// Adds the types that describe the ASCII type and one more case for it.
fn add_kind_ascii(builder: &mut SchemaBuilder, cases: TEnum) -> (r: TEnum)
    requires
        admits(*old(builder), kind_group(14)),
        values_below(cases, old(builder).types@.len() as int),
        cases.variants@.len() < 64,
    ensures
        grown(*old(builder), *final(builder), kind_group(14)),
        values_below(r, final(builder).types@.len() as int),
        r.variants@.len() == cases.variants@.len() + 1,
        forall|v: int|
            0 <= v < cases.variants@.len() ==> #[trigger] r.variants@[v] == cases.variants@[v],
        named(r.variants@[cases.variants@.len() as int].name, kind_id(14)),
        r.variants@[cases.variants@.len() as int].values@.len() == 1,
        at_index(
            r.variants@[cases.variants@.len() as int].values@[0],
            old(builder).types@.len() as int + 6,
        ),
        shaped_from(
            *final(builder),
            old(builder).types@.len() as int,
            kind_shapes(14, old(builder).types@.len() as int),
        ),
{
    let ghost start = *builder;
    let ghost base = start.types@.len() as int;
    let ghost all = kind_group(14);
    proof {
        reveal_strlit("ascii");
        lemma_snake_case_is_identifier("ascii"@);
        assert(all =~= Seq::<Seq<char>>::empty() + ascii_names() + seq!["ascii"@]);
        lemma_admits_next(start, *builder, all, Seq::empty(), ascii_names(), seq!["ascii"@]);
    }
    let structure = TAscii::build_schema(builder);
    let ghost mid = *builder;
    proof {
        assert(all =~= ascii_names() + seq!["ascii"@] + Seq::<Seq<char>>::empty());
        lemma_admits_next(start, mid, all, ascii_names(), seq!["ascii"@], Seq::empty());
        assert(ascii_names().len() == 6);
        assert(ascii_shapes(base).len() == 6);
    }
    let reference = doc_type_ref(
        "ascii",
        structure,
        "Ascii (aka ascii text) is a sequence of characters where each of them is within the ascii range (0-127 inclusive). It can be used to transfer technical text (aka string); it's not to be used to transfer human readable text (use unicode for this case).",
        builder,
    );
    proof {
        lemma_grown_next(start, mid, *builder, ascii_names(), seq!["ascii"@]);
        lemma_shaped_next(
            mid,
            *builder,
            seq!["ascii"@],
            base,
            ascii_shapes(base),
            seq![Shape::Record(ascii_record(base))],
        );
    }
    cases.add_variant(variant(reference, "ascii"))
}

/// Adds the types that describe the UUID type and one more case for it.
fn add_kind_uuid(builder: &mut SchemaBuilder, cases: TEnum) -> (r: TEnum)
    requires
        admits(*old(builder), kind_group(15)),
        values_below(cases, old(builder).types@.len() as int),
        cases.variants@.len() < 64,
    ensures
        grown(*old(builder), *final(builder), kind_group(15)),
        values_below(r, final(builder).types@.len() as int),
        r.variants@.len() == cases.variants@.len() + 1,
        forall|v: int|
            0 <= v < cases.variants@.len() ==> #[trigger] r.variants@[v] == cases.variants@[v],
        named(r.variants@[cases.variants@.len() as int].name, kind_id(15)),
        r.variants@[cases.variants@.len() as int].values@.len() == 1,
        at_index(
            r.variants@[cases.variants@.len() as int].values@[0],
            old(builder).types@.len() as int + 2,
        ),
        shaped_from(
            *final(builder),
            old(builder).types@.len() as int,
            kind_shapes(15, old(builder).types@.len() as int),
        ),
{
    let ghost start = *builder;
    let ghost base = start.types@.len() as int;
    let ghost all = kind_group(15);
    proof {
        reveal_strlit("uuid");
        lemma_snake_case_is_identifier("uuid"@);
        assert(all =~= Seq::<Seq<char>>::empty() + uuid_names() + seq!["uuid"@]);
        lemma_admits_next(start, *builder, all, Seq::empty(), uuid_names(), seq!["uuid"@]);
    }
    let structure = TUuid::build_schema(builder);
    let ghost mid = *builder;
    proof {
        assert(all =~= uuid_names() + seq!["uuid"@] + Seq::<Seq<char>>::empty());
        lemma_admits_next(start, mid, all, uuid_names(), seq!["uuid"@], Seq::empty());
        assert(uuid_names().len() == 2);
        assert(uuid_shapes(base).len() == 2);
    }
    let reference = doc_type_ref(
        "uuid",
        structure,
        "16 byte UUID; RFC 4122.",
        builder,
    );
    proof {
        lemma_grown_next(start, mid, *builder, uuid_names(), seq!["uuid"@]);
        lemma_shaped_next(
            mid,
            *builder,
            seq!["uuid"@],
            base,
            uuid_shapes(base),
            seq![Shape::Record(uuid_record(base))],
        );
    }
    cases.add_variant(variant(reference, "uuid"))
}

/// Adds the types that describe the range type and one more case for it.
fn add_kind_range(builder: &mut SchemaBuilder, cases: TEnum) -> (r: TEnum)
    requires
        admits(*old(builder), kind_group(16)),
        values_below(cases, old(builder).types@.len() as int),
        cases.variants@.len() < 64,
    ensures
        grown(*old(builder), *final(builder), kind_group(16)),
        values_below(r, final(builder).types@.len() as int),
        r.variants@.len() == cases.variants@.len() + 1,
        forall|v: int|
            0 <= v < cases.variants@.len() ==> #[trigger] r.variants@[v] == cases.variants@[v],
        named(r.variants@[cases.variants@.len() as int].name, kind_id(16)),
        r.variants@[cases.variants@.len() as int].values@.len() == 1,
        at_index(
            r.variants@[cases.variants@.len() as int].values@[0],
            old(builder).types@.len() as int + 5,
        ),
        shaped_from(
            *final(builder),
            old(builder).types@.len() as int,
            kind_shapes(16, old(builder).types@.len() as int),
        ),
{
    let ghost start = *builder;
    let ghost base = start.types@.len() as int;
    let ghost all = kind_group(16);
    proof {
        reveal_strlit("range");
        lemma_snake_case_is_identifier("range"@);
        assert(all =~= Seq::<Seq<char>>::empty() + range_names() + seq!["range"@]);
        lemma_admits_next(start, *builder, all, Seq::empty(), range_names(), seq!["range"@]);
    }
    let structure = TRange::build_schema(builder);
    let ghost mid = *builder;
    proof {
        assert(all =~= range_names() + seq!["range"@] + Seq::<Seq<char>>::empty());
        lemma_admits_next(start, mid, all, range_names(), seq!["range"@], Seq::empty());
        assert(range_names().len() == 5);
        assert(range_shapes(base).len() == 5);
    }
    let reference = doc_type_ref(
        "range",
        structure,
        "A range (start - end); start/end with configurable inclusion/exclusion.",
        builder,
    );
    proof {
        lemma_grown_next(start, mid, *builder, range_names(), seq!["range"@]);
        lemma_shaped_next(
            mid,
            *builder,
            seq!["range"@],
            base,
            range_shapes(base),
            seq![Shape::Record(range_record(base))],
        );
    }
    cases.add_variant(variant(reference, "range"))
}

/// Adds the types that describe the decimal type and one more case for it.
fn add_kind_decimal(builder: &mut SchemaBuilder, cases: TEnum) -> (r: TEnum)
    requires
        admits(*old(builder), kind_group(17)),
        values_below(cases, old(builder).types@.len() as int),
        cases.variants@.len() < 64,
    ensures
        grown(*old(builder), *final(builder), kind_group(17)),
        values_below(r, final(builder).types@.len() as int),
        r.variants@.len() == cases.variants@.len() + 1,
        forall|v: int|
            0 <= v < cases.variants@.len() ==> #[trigger] r.variants@[v] == cases.variants@[v],
        named(r.variants@[cases.variants@.len() as int].name, kind_id(17)),
        r.variants@[cases.variants@.len() as int].values@.len() == 1,
        at_index(
            r.variants@[cases.variants@.len() as int].values@[0],
            old(builder).types@.len() as int + 6,
        ),
        shaped_from(
            *final(builder),
            old(builder).types@.len() as int,
            kind_shapes(17, old(builder).types@.len() as int),
        ),
{
    let ghost start = *builder;
    let ghost base = start.types@.len() as int;
    let ghost all = kind_group(17);
    proof {
        reveal_strlit("decimal");
        lemma_snake_case_is_identifier("decimal"@);
        assert(all =~= Seq::<Seq<char>>::empty() + decimal_names() + seq!["decimal"@]);
        lemma_admits_next(start, *builder, all, Seq::empty(), decimal_names(), seq!["decimal"@]);
    }
    let structure = TDecimal::build_schema(builder);
    let ghost mid = *builder;
    proof {
        assert(all =~= decimal_names() + seq!["decimal"@] + Seq::<Seq<char>>::empty());
        lemma_admits_next(start, mid, all, decimal_names(), seq!["decimal"@], Seq::empty());
        assert(decimal_names().len() == 6);
        assert(decimal_shapes(base).len() == 6);
    }
    let reference = doc_type_ref(
        "decimal",
        structure,
        "A normalized decimal number. It's composed of a signed 128 bit coefficient (at max) and a signed 8 bit exponent (at max) (c*10^e).",
        builder,
    );
    proof {
        lemma_grown_next(start, mid, *builder, decimal_names(), seq!["decimal"@]);
        lemma_shaped_next(
            mid,
            *builder,
            seq!["decimal"@],
            base,
            decimal_shapes(base),
            seq![Shape::Record(decimal_record(base))],
        );
    }
    cases.add_variant(variant(reference, "decimal"))
}

/// The names of the types that describe the kinds of types from the `k`-th
/// kind on, and the type of all types: for each kind the names of its own
/// types and then the name of the kind, and `any_type` at the end.
pub open spec fn kinds_from(k: int) -> Seq<Seq<char>>
    decreases kind_count() - k,
{
    if k < 0 || k >= kind_count() {
        seq!["any_type"@]
    } else {
        kind_names(k) + seq![kind_id(k)] + kinds_from(k + 1)
    }
}

/// The names of the types that describe all types.
pub open spec fn any_type_names() -> Seq<Seq<char>> {
    kinds_from(0)
}

/// A builder that has grown by the names up to the `k`-th kind admits the
/// names of that kind; and the names after it are what is left.
pub proof fn lemma_kinds_step(before: SchemaBuilder, now: SchemaBuilder, k: int, done: Seq<Seq<char>>)
    requires
        admits(before, done + kinds_from(k)),
        grown(before, now, done),
        0 <= k < kind_count(),
    ensures
        admits(now, kind_group(k)),
        done + kind_group(k) + kinds_from(k + 1) == done + kinds_from(k),
{
    assert(done + kind_group(k) + kinds_from(k + 1) =~= done + kinds_from(k));
    lemma_admits_next(before, now, done + kinds_from(k), done, kind_group(k), kinds_from(k + 1));
}

/// Where the types up to the `k`-th kind have their shapes, and the types of
/// that kind are added with theirs, the types up to the next kind have
/// their shapes; and the shapes after it are what is left.
pub proof fn lemma_shapes_step(
    mid: SchemaBuilder,
    now: SchemaBuilder,
    names: Seq<Seq<char>>,
    base: int,
    k: int,
    shapes: Seq<Shape>,
)
    requires
        0 <= k < kind_count(),
        shaped_from(mid, base, shapes),
        grown(mid, now, names),
        shapes.len() == kind_start(k),
        mid.types@.len() == base + kind_start(k),
        shaped_from(now, mid.types@.len() as int, kind_shapes(k, mid.types@.len() as int)),
        shapes + shapes_from(k, base) =~= any_type_shapes(base),
    ensures
        shaped_from(now, base, shapes + kind_shapes(k, base + kind_start(k))),
        shapes + kind_shapes(k, base + kind_start(k)) + shapes_from(k + 1, base)
            =~= any_type_shapes(base),
{
    lemma_shaped_next(mid, now, names, base, shapes, kind_shapes(k, base + kind_start(k)));
    assert(shapes + kind_shapes(k, base + kind_start(k)) + shapes_from(k + 1, base) =~= shapes
        + shapes_from(k, base));
}

impl AnyType {
    /// Adds the type of all types to the builder: an enumeration with one
    /// variant for each kind of type, in the order of `AnyType`; the value
    /// of a variant is the structure that describes the kind. The builder
    /// has to admit the names of the added types.
    #[verifier::rlimit(100)]
    #[verifier::spinoff_prover]
    pub fn build_schema(builder: &mut SchemaBuilder) -> (r: TypeRef)
        requires
            admits(*old(builder), any_type_names()),
        ensures
            grown(*old(builder), *final(builder), any_type_names()),
            r == TypeRef::Numerical((final(builder).types@.len() - 1) as u32),
            at_index(r, old(builder).types@.len() as int + kind_start(kind_count())),
            shaped_from(
                *final(builder),
                old(builder).types@.len() as int,
                any_type_shapes(old(builder).types@.len() as int),
            ),
    {
        let ghost start = *builder;
        let ghost base = start.types@.len() as int;
        let ghost mut done = Seq::<Seq<char>>::empty();
        let ghost mut shapes = Seq::<Shape>::empty();
        proof {
            assert(done + kinds_from(0) =~= any_type_names());
            assert(shapes + shapes_from(0, base) =~= any_type_shapes(base));
        }
        let cases = TEnum::default();
        proof {
            lemma_kinds_step(start, *builder, 0, done);
            assert(kind_group(0).len() == 3);
            assert(done.len() == 0 && shapes.len() == 0);
        }
        let ghost mid = *builder;
        let cases = add_kind_bool(builder, cases);
        proof {
            lemma_grown_next(start, mid, *builder, done, kind_group(0));
            lemma_shapes_step(mid, *builder, kind_group(0), base, 0, shapes);
            done = done + kind_group(0);
            shapes = shapes + kind_shapes(0, base + kind_start(0));
            assert(cased(cases, 1, base));
            lemma_kinds_step(start, *builder, 1, done);
            assert(kind_group(1).len() == 4);
            assert(done.len() == 3 && shapes.len() == 3);
        }
        let ghost mid = *builder;
        let cases = add_kind_option(builder, cases);
        proof {
            lemma_grown_next(start, mid, *builder, done, kind_group(1));
            lemma_shapes_step(mid, *builder, kind_group(1), base, 1, shapes);
            done = done + kind_group(1);
            shapes = shapes + kind_shapes(1, base + kind_start(1));
            assert(cased(cases, 2, base));
            lemma_kinds_step(start, *builder, 2, done);
            assert(kind_group(2).len() == 12);
            assert(done.len() == 7 && shapes.len() == 7);
        }
        let ghost mid = *builder;
        let cases = add_kind_seq(builder, cases);
        proof {
            lemma_grown_next(start, mid, *builder, done, kind_group(2));
            lemma_shapes_step(mid, *builder, kind_group(2), base, 2, shapes);
            done = done + kind_group(2);
            shapes = shapes + kind_shapes(2, base + kind_start(2));
            assert(cased(cases, 3, base));
            lemma_kinds_step(start, *builder, 3, done);
            assert(kind_group(3).len() == 5);
            assert(done.len() == 19 && shapes.len() == 19);
        }
        let ghost mid = *builder;
        let cases = add_kind_binary(builder, cases);
        proof {
            lemma_grown_next(start, mid, *builder, done, kind_group(3));
            lemma_shapes_step(mid, *builder, kind_group(3), base, 3, shapes);
            done = done + kind_group(3);
            shapes = shapes + kind_shapes(3, base + kind_start(3));
            assert(cased(cases, 4, base));
            lemma_kinds_step(start, *builder, 4, done);
            assert(kind_group(4).len() == 6);
            assert(done.len() == 24 && shapes.len() == 24);
        }
        let ghost mid = *builder;
        let cases = add_kind_unicode(builder, cases);
        proof {
            lemma_grown_next(start, mid, *builder, done, kind_group(4));
            lemma_shapes_step(mid, *builder, kind_group(4), base, 4, shapes);
            done = done + kind_group(4);
            shapes = shapes + kind_shapes(4, base + kind_start(4));
            assert(cased(cases, 5, base));
            lemma_kinds_step(start, *builder, 5, done);
            assert(kind_group(5).len() == 5);
            assert(done.len() == 30 && shapes.len() == 30);
        }
        let ghost mid = *builder;
        let cases = add_kind_uint(builder, cases);
        proof {
            lemma_grown_next(start, mid, *builder, done, kind_group(5));
            lemma_shapes_step(mid, *builder, kind_group(5), base, 5, shapes);
            done = done + kind_group(5);
            shapes = shapes + kind_shapes(5, base + kind_start(5));
            assert(cased(cases, 6, base));
            lemma_kinds_step(start, *builder, 6, done);
            assert(kind_group(6).len() == 5);
            assert(done.len() == 35 && shapes.len() == 35);
        }
        let ghost mid = *builder;
        let cases = add_kind_sint(builder, cases);
        proof {
            lemma_grown_next(start, mid, *builder, done, kind_group(6));
            lemma_shapes_step(mid, *builder, kind_group(6), base, 6, shapes);
            done = done + kind_group(6);
            shapes = shapes + kind_shapes(6, base + kind_start(6));
            assert(cased(cases, 7, base));
            lemma_kinds_step(start, *builder, 7, done);
            assert(kind_group(7).len() == 5);
            assert(done.len() == 40 && shapes.len() == 40);
        }
        let ghost mid = *builder;
        let cases = add_kind_f32(builder, cases);
        proof {
            lemma_grown_next(start, mid, *builder, done, kind_group(7));
            lemma_shapes_step(mid, *builder, kind_group(7), base, 7, shapes);
            done = done + kind_group(7);
            shapes = shapes + kind_shapes(7, base + kind_start(7));
            assert(cased(cases, 8, base));
            lemma_kinds_step(start, *builder, 8, done);
            assert(kind_group(8).len() == 5);
            assert(done.len() == 45 && shapes.len() == 45);
        }
        let ghost mid = *builder;
        let cases = add_kind_f64(builder, cases);
        proof {
            lemma_grown_next(start, mid, *builder, done, kind_group(8));
            lemma_shapes_step(mid, *builder, kind_group(8), base, 8, shapes);
            done = done + kind_group(8);
            shapes = shapes + kind_shapes(8, base + kind_start(8));
            assert(cased(cases, 9, base));
            lemma_kinds_step(start, *builder, 9, done);
            assert(kind_group(9).len() == 9);
            assert(done.len() == 50 && shapes.len() == 50);
        }
        let ghost mid = *builder;
        let cases = add_kind_enum(builder, cases);
        proof {
            lemma_grown_next(start, mid, *builder, done, kind_group(9));
            lemma_shapes_step(mid, *builder, kind_group(9), base, 9, shapes);
            done = done + kind_group(9);
            shapes = shapes + kind_shapes(9, base + kind_start(9));
            assert(cased(cases, 10, base));
            lemma_kinds_step(start, *builder, 10, done);
            assert(kind_group(10).len() == 8);
            assert(done.len() == 59 && shapes.len() == 59);
        }
        let ghost mid = *builder;
        let cases = add_kind_struct(builder, cases);
        proof {
            lemma_grown_next(start, mid, *builder, done, kind_group(10));
            lemma_shapes_step(mid, *builder, kind_group(10), base, 10, shapes);
            done = done + kind_group(10);
            shapes = shapes + kind_shapes(10, base + kind_start(10));
            assert(cased(cases, 11, base));
            lemma_kinds_step(start, *builder, 11, done);
            assert(kind_group(11).len() == 9);
            assert(done.len() == 67 && shapes.len() == 67);
        }
        let ghost mid = *builder;
        let cases = add_kind_map(builder, cases);
        proof {
            lemma_grown_next(start, mid, *builder, done, kind_group(11));
            lemma_shapes_step(mid, *builder, kind_group(11), base, 11, shapes);
            done = done + kind_group(11);
            shapes = shapes + kind_shapes(11, base + kind_start(11));
            assert(cased(cases, 12, base));
            lemma_kinds_step(start, *builder, 12, done);
            assert(kind_group(12).len() == 9);
            assert(done.len() == 76 && shapes.len() == 76);
        }
        let ghost mid = *builder;
        let cases = add_kind_root_map(builder, cases);
        proof {
            lemma_grown_next(start, mid, *builder, done, kind_group(12));
            lemma_shapes_step(mid, *builder, kind_group(12), base, 12, shapes);
            done = done + kind_group(12);
            shapes = shapes + kind_shapes(12, base + kind_start(12));
            assert(cased(cases, 13, base));
            lemma_kinds_step(start, *builder, 13, done);
            assert(kind_group(13).len() == 3);
            assert(done.len() == 85 && shapes.len() == 85);
        }
        let ghost mid = *builder;
        let cases = add_kind_key_ref(builder, cases);
        proof {
            lemma_grown_next(start, mid, *builder, done, kind_group(13));
            lemma_shapes_step(mid, *builder, kind_group(13), base, 13, shapes);
            done = done + kind_group(13);
            shapes = shapes + kind_shapes(13, base + kind_start(13));
            assert(cased(cases, 14, base));
            lemma_kinds_step(start, *builder, 14, done);
            assert(kind_group(14).len() == 7);
            assert(done.len() == 88 && shapes.len() == 88);
        }
        let ghost mid = *builder;
        let cases = add_kind_ascii(builder, cases);
        proof {
            lemma_grown_next(start, mid, *builder, done, kind_group(14));
            lemma_shapes_step(mid, *builder, kind_group(14), base, 14, shapes);
            done = done + kind_group(14);
            shapes = shapes + kind_shapes(14, base + kind_start(14));
            assert(cased(cases, 15, base));
            lemma_kinds_step(start, *builder, 15, done);
            assert(kind_group(15).len() == 3);
            assert(done.len() == 95 && shapes.len() == 95);
        }
        let ghost mid = *builder;
        let cases = add_kind_uuid(builder, cases);
        proof {
            lemma_grown_next(start, mid, *builder, done, kind_group(15));
            lemma_shapes_step(mid, *builder, kind_group(15), base, 15, shapes);
            done = done + kind_group(15);
            shapes = shapes + kind_shapes(15, base + kind_start(15));
            assert(cased(cases, 16, base));
            lemma_kinds_step(start, *builder, 16, done);
            assert(kind_group(16).len() == 6);
            assert(done.len() == 98 && shapes.len() == 98);
        }
        let ghost mid = *builder;
        let cases = add_kind_range(builder, cases);
        proof {
            lemma_grown_next(start, mid, *builder, done, kind_group(16));
            lemma_shapes_step(mid, *builder, kind_group(16), base, 16, shapes);
            done = done + kind_group(16);
            shapes = shapes + kind_shapes(16, base + kind_start(16));
            assert(cased(cases, 17, base));
            lemma_kinds_step(start, *builder, 17, done);
            assert(kind_group(17).len() == 7);
            assert(done.len() == 104 && shapes.len() == 104);
        }
        let ghost mid = *builder;
        let cases = add_kind_decimal(builder, cases);
        proof {
            lemma_grown_next(start, mid, *builder, done, kind_group(17));
            lemma_shapes_step(mid, *builder, kind_group(17), base, 17, shapes);
            done = done + kind_group(17);
            shapes = shapes + kind_shapes(17, base + kind_start(17));
            assert(cased(cases, 18, base));
        }
        let any_type = AnyType::Enum(cases);
        proof {
            assert(done + kinds_from(18) =~= done + seq!["any_type"@] + Seq::<Seq<char>>::empty());
            lemma_admits_next(
                start,
                *builder,
                done + kinds_from(18),
                done,
                seq!["any_type"@],
                Seq::empty(),
            );
            lemma_enum_backward(cases, builder.types@.len() as int);
            assert(shaped(any_type, any_type_shape(base)));
        }
        let ghost mid = *builder;
        let r = add_type(
            builder,
            "any_type",
            any_type,
            "The any type is an enumeration of all possible types available in the type system.",
        );
        proof {
            lemma_grown_next(start, mid, *builder, done, seq!["any_type"@]);
            lemma_shaped_next(
                mid,
                *builder,
                seq!["any_type"@],
                base,
                shapes,
                seq![any_type_shape(base)],
            );
            assert(shapes + shapes_from(18, base) =~= shapes + seq![any_type_shape(base)]);
        }
        r
    }
}

/// The names of the types of the schema of schemas, in the order of their
/// index.
pub open spec fn schema_names() -> Seq<Seq<char>> {
    any_type_names() + seq![
        "schema_name"@ + "_segment"@,
        "schema_name"@,
        "schema_named_type"@,
        "schema_type_index"@,
        "schema_root"@,
        "schema"@,
    ]
}

/// The number of the types that describe all types.
pub open spec fn any_type_count() -> int {
    kind_start(kind_count()) + 1
}

/// The shapes of the types of the schema itself, behind the types that
/// describe all types: the name of a type, the pair of the name of a type
/// and the type, the index of a type, the reference of the root, and the
/// schema, a root map from the indexes to the named types.
pub open spec fn own_shapes() -> Seq<Shape> {
    let n = any_type_count();
    identifier_shapes(n) + seq![Shape::Record(seq![("name"@, n + 1), ("type"@, n - 1)])] + seq![
        Shape::Unsigned(0, u32::MAX as int),
    ] + seq![Shape::Reference] + seq![Shape::Root(n + 4, n + 3, n + 2)]
}

/// The shapes of the types of the schema of schemas, in the order of their
/// index.
pub open spec fn schema_shapes() -> Seq<Shape> {
    any_type_shapes(0) + own_shapes()
}

/// Whether a schema is the schema of schemas: its types have the names of
/// `schema_names` and the shapes of `schema_shapes`, each is documented, and
/// the last of them is the root.
pub open spec fn is_schema_of_schemas(schema: TypeContainer) -> bool {
    &&& name_texts(schema.names@) == schema_names()
    &&& schema.types@.len() == schema_names().len()
    &&& schema.types@.len() == schema_shapes().len()
    &&& schema.root == TypeRef::Numerical((schema.types@.len() - 1) as u32)
    &&& forall|i: int|
        0 <= i < schema.types@.len() ==> shaped(#[trigger] schema.types@[i], schema_shapes()[i])
            && documented(schema.types@[i])
}

/// Whether a schema validates itself: it has a document, which can be
/// written, and the bytes of the document are valid under the schema in
/// strict mode, up to their end.
pub open spec fn validates_itself(schema: TypeContainer) -> bool {
    match crate::schema::document::schema_view(
        schema.types@,
        name_texts(schema.names@),
        schema.root.target(),
    ) {
        Some(document) => crate::value::encodable(document)
            && crate::schema::rules::validate_at(
            schema.env(true),
            schema.root.target(),
            crate::value::value_bytes(document),
            0,
            Seq::empty(),
        ) == Ok::<int, crate::error::ErrorKind>(crate::value::value_bytes(document).len() as int),
        None => false,
    }
}

/// Builds the schema of schemas: the types of `schema_names` with the shapes
/// of `schema_shapes`, each of which refers only to types before it, with the
/// last of them as the root. It validates itself.
pub fn schema_schema() -> (schema: TypeContainer)
    ensures
        closed(schema.env(false), schema.root.target()),
        is_schema_of_schemas(schema),
        forall|i: int| 0 <= i < schema.types@.len() ==> backward(#[trigger] schema.types@[i], i),
        validates_itself(schema),
{
    let mut builder = SchemaBuilder::new();
    let ghost start = builder;
    let ghost all = schema_names();
    let ghost own = seq![
        "schema_name"@ + "_segment"@,
        "schema_name"@,
        "schema_named_type"@,
        "schema_type_index"@,
        "schema_root"@,
        "schema"@,
    ];
    proof {
        lemma_schema_names(start);
        reveal_strlit("name");
        lemma_snake_case_is_identifier("name"@);
        reveal_strlit("type");
        lemma_snake_case_is_identifier("type"@);
        assert(name_texts(start.names@) =~= Seq::<Seq<char>>::empty());
        lemma_admits_next(start, builder, all, Seq::empty(), any_type_names(), own);
    }
    let any_type = AnyType::build_schema(&mut builder);
    let ghost n = any_type_names().len() as int;
    let ghost mid0 = builder;
    let ghost mut shapes = any_type_shapes(0);
    proof {
        crate::schema::schema_names::lemma_kinds_count();
        assert(n == any_type_count());
        assert(shapes.len() == n) by {
            lemma_shapes_count(0, 0);
        }
        assert(all.take(n) =~= any_type_names());
        lemma_admits_part(start, builder, all, n, 2);
        assert(all.subrange(n, n + 2) =~= identifier_names("schema_name"@));
    }
    let name = Identifier::build_schema(&mut builder, "schema_name");
    let ghost mid1 = builder;
    proof {
        lemma_grown_joined(start, mid0, mid1, all, n, 2);
        lemma_shaped_next(mid0, mid1, identifier_names("schema_name"@), 0, shapes, identifier_shapes(n));
        shapes = shapes + identifier_shapes(n);
        lemma_admits_part(start, builder, all, n + 2, 1);
        assert(all.subrange(n + 2, n + 3) =~= seq!["schema_named_type"@]);
    }
    let named = with_field(TStruct::default(), "name", name);
    let named = with_field(named, "type", any_type);
    let named_struct = AnyType::Struct(named);
    proof {
        assert(shaped(named_struct, Shape::Record(seq![("name"@, n + 1), ("type"@, n - 1)])));
    }
    let named_type = add_type(
        &mut builder,
        "schema_named_type",
        named_struct,
        "A type of the schema and its name.",
    );
    let ghost mid2 = builder;
    proof {
        lemma_grown_joined(start, mid1, mid2, all, n + 2, 1);
        lemma_shaped_next(
            mid1,
            mid2,
            seq!["schema_named_type"@],
            0,
            shapes,
            seq![Shape::Record(seq![("name"@, n + 1), ("type"@, n - 1)])],
        );
        shapes = shapes + seq![Shape::Record(seq![("name"@, n + 1), ("type"@, n - 1)])];
        lemma_admits_part(start, builder, all, n + 3, 1);
        assert(all.subrange(n + 3, n + 4) =~= seq!["schema_type_index"@]);
    }
    let index_type = uint_type(u32::MIN as u128, u32::MAX as u128);
    proof {
        assert(shaped(index_type, Shape::Unsigned(0, u32::MAX as int)));
    }
    let index = add_type(
        &mut builder,
        "schema_type_index",
        index_type,
        "The index of a type in the schema.",
    );
    let ghost mid3 = builder;
    proof {
        lemma_grown_joined(start, mid2, mid3, all, n + 3, 1);
        lemma_shaped_next(
            mid2,
            mid3,
            seq!["schema_type_index"@],
            0,
            shapes,
            seq![Shape::Unsigned(0, u32::MAX as int)],
        );
        shapes = shapes + seq![Shape::Unsigned(0, u32::MAX as int)];
        lemma_admits_part(start, builder, all, n + 4, 1);
        assert(all.subrange(n + 4, n + 5) =~= seq!["schema_root"@]);
    }
    let root_ref = build_reference_schema(
        &mut builder,
        "schema_root",
        "The root type of the schema.",
    );
    let ghost mid4 = builder;
    proof {
        lemma_grown_joined(start, mid3, mid4, all, n + 4, 1);
        lemma_shaped_next(mid3, mid4, seq!["schema_root"@], 0, shapes, seq![Shape::Reference]);
        shapes = shapes + seq![Shape::Reference];
        lemma_admits_part(start, builder, all, n + 5, 1);
        assert(all.subrange(n + 5, n + 6) =~= seq!["schema"@]);
    }
    let root_map = AnyType::RootMap(TRootMap::new(root_ref, index, named_type));
    proof {
        assert(shaped(root_map, Shape::Root(n + 4, n + 3, n + 2)));
    }
    let root = add_type(
        &mut builder,
        "schema",
        root_map,
        "A schema: its types by their index, and the reference of the root type.",
    );
    proof {
        lemma_grown_joined(start, mid4, builder, all, n + 5, 1);
        assert(all.take(n + 6) =~= all);
        lemma_shaped_next(
            mid4,
            builder,
            seq!["schema"@],
            0,
            shapes,
            seq![Shape::Root(n + 4, n + 3, n + 2)],
        );
        shapes = shapes + seq![Shape::Root(n + 4, n + 3, n + 2)];
        assert(shapes =~= schema_shapes());
        assert(shapes.len() == n + 6);
        assert forall|i: int| 0 <= i < builder.types@.len() implies shaped(
            #[trigger] builder.types@[i],
            schema_shapes()[i],
        ) && documented(builder.types@[i]) by {
            assert(builder.types@[0 + i] == builder.types@[i]);
        }
        lemma_backward_is_closed(builder, root);
    }
    match builder.finish(root) {
        Ok(schema) => {
            proof {
                crate::schema::self_description::lemma_self_description(schema);
            }
            schema
        },
        Err(_) => unreached(),
    }
}

/// The number of the shapes of the types that describe the kinds from the
/// `k`-th on and all types.
pub proof fn lemma_shapes_count(k: int, base: int)
    requires
        0 <= k <= kind_count(),
    ensures
        shapes_from(k, base).len() == kind_start(kind_count()) - kind_start(k) + 1,
    decreases kind_count() - k,
{
    if k < kind_count() {
        lemma_shapes_count(k + 1, base);
    }
}

/// A builder of which every type refers only to types before it holds a
/// schema, whatever type of it is the root.
pub proof fn lemma_backward_is_closed(builder: SchemaBuilder, root: TypeRef)
    requires
        below(root, builder.types@.len() as int),
        forall|i: int| 0 <= i < builder.types@.len() ==> backward(#[trigger] builder.types@[i], i),
    ensures
        closed(
            crate::schema::rules::Env {
                types: builder.types@,
                names: name_texts(builder.names@),
                strict: false,
            },
            root.target(),
        ),
{
    let env = crate::schema::rules::Env {
        types: builder.types@,
        names: name_texts(builder.names@),
        strict: false,
    };
    assert forall|i: int, j: int|
        0 <= i < env.types.len() && 0 <= j < env.types[i].references().len()
        implies crate::schema::rules::resolve_index(
        env,
        (#[trigger] env.types[i].references()[j]).target(),
    ) is Some by {
        assert(backward(builder.types@[i], i));
        assert(below(env.types[i].references()[j], i));
    }
}

} // verus!
