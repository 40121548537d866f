use liquesco::error::{ErrorKind, SrcPosition};
use liquesco::identifier::Identifier;
use liquesco::schema::any_type::AnyType;
use liquesco::schema::container::{SchemaBuilder, TypeContainer};
use liquesco::schema::types::ascii::TAscii;
use liquesco::schema::types::binary::TBinary;
use liquesco::schema::types::boolean::TBool;
use liquesco::schema::types::decimal::TDecimal;
use liquesco::schema::types::enumeration::{TEnum, Variant};
use liquesco::schema::types::float::{TFloat32, TFloat64};
use liquesco::schema::types::key_ref::TKeyRef;
use liquesco::schema::types::map::TMap;
use liquesco::schema::types::option::TOption;
use liquesco::schema::types::range::{Inclusion, TRange};
use liquesco::schema::types::root_map::TRootMap;
use liquesco::schema::types::seq::{Direction, Order, TSeq};
use liquesco::schema::types::sint::TSInt;
use liquesco::schema::types::structure::{Field, TStruct};
use liquesco::schema::types::uint::TUInt;
use liquesco::schema::types::unicode::{LengthType, TUnicode};
use liquesco::schema::types::uuid::TUuid;
use liquesco::text::converter::{Converter, IdentifierType};
use liquesco::text::decimal::Decimal;
use liquesco::text::error::ParseError;
use liquesco::text::parser::parse;
use liquesco::text::value::{TextValue, Value};
use liquesco::types::structure::StructInfo;
use liquesco::types::uuid::Uuid;
use liquesco::slice_reader::SliceReader;
use liquesco::vec_writer::VecWriter;

fn id(text: &str) -> Identifier {
    Identifier::try_from(text).unwrap()
}

fn text(s: &str) -> TextValue {
    TextValue::text(s)
}

fn whole(v: i64) -> TextValue {
    TextValue::integer(v)
}

fn seq(items: Vec<TextValue>) -> TextValue {
    TextValue::sequence(items)
}

fn map(entries: Vec<(&str, TextValue)>) -> TextValue {
    seq(entries.into_iter().map(|(k, v)| seq(vec![text(k), v])).collect())
}

fn assert_ok(r: Result<Vec<u8>, liquesco::error::LqError>) {
    r.unwrap();
}

fn assert_err(r: Result<Vec<u8>, liquesco::error::LqError>) {
    assert!(r.is_err());
}

fn kind_of(r: Result<Vec<u8>, liquesco::error::LqError>) -> ErrorKind {
    r.unwrap_err().kind()
}

// ---- people in a sequence ----

fn people_schema() -> TypeContainer {
    let mut builder = SchemaBuilder::new();

    // a structure: a person
    let field_first_name = builder
        .add("first_name", AnyType::Unicode(TUnicode::try_new(1, 100, LengthType::Byte).unwrap()))
        .unwrap();
    let field_last_name = builder
        .add("last_name", AnyType::Unicode(TUnicode::try_new(1, 100, LengthType::Byte).unwrap()))
        .unwrap();
    let field_year_born = builder.add("year_born", AnyType::UInt(TUInt::try_new(1000, 3000).unwrap())).unwrap();
    let email = builder.add("email", AnyType::Ascii(TAscii::try_new(1, 100, 0, 127).unwrap())).unwrap();
    let field_email = builder.add("maybe_email", AnyType::Option(TOption::new(email))).unwrap();

    let struct_type = TStruct::default()
        .add(Field::new(id("first_name"), field_first_name))
        .add(Field::new(id("last_name"), field_last_name))
        .add(Field::new(id("year_born"), field_year_born))
        .add(Field::new(id("email"), field_email));
    assert_eq!(struct_type.fields().len(), 4);
    assert_eq!(struct_type.fields()[3].identifier().segments()[0].as_str(), "email");
    assert!(matches!(struct_type.fields()[0].type_ref(), liquesco::schema::type_ref::TypeRef::Numerical(0)));

    let structure = builder.add("person", AnyType::Struct(struct_type)).unwrap();

    // people (structure) within a sequence
    let root = builder.add("people", AnyType::Sequence(TSeq::try_new(structure, 1, 20).unwrap())).unwrap();
    builder.finish(root).unwrap()
}

#[test]
fn yaml_schema2_ok_1() {
    let schema = people_schema();
    let document = seq(vec![
        map(vec![
            ("first_name", text("Ada")),
            ("last_name", text("Lovelace")),
            ("year_born", whole(1815)),
        ]),
        map(vec![
            ("email", text("grace@example.org")),
            ("year_born", text("1906")),
            ("last_name", text("Hopper")),
            ("first_name", text("Grace")),
        ]),
    ]);
    let data = parse(&schema, &document).unwrap();
    // two structures of four fields; the e-mail of the first is absent
    assert_eq!(data[0], 3 * 13 + 8);
    assert_eq!(data[1], 3 * 13 + 10);
    assert_eq!(data[2], 4);
}

#[test]
fn unused_field() {
    let schema = people_schema();
    let document = seq(vec![map(vec![
        ("first_name", text("Ada")),
        ("last_name", text("Lovelace")),
        ("year_born", whole(1815)),
        ("shoe_size", whole(38)),
    ])]);
    assert_err(parse(&schema, &document));
}

#[test]
fn simple_struct_from_text() {
    let schema = people_schema();
    let person = |year: i64| {
        seq(vec![map(vec![
            ("first_name", text("Ada")),
            ("last_name", text("Lovelace")),
            ("year_born", whole(year)),
        ])])
    };
    assert_ok(parse(&schema, &person(1815)));
    let error = parse(&schema, &person(999)).unwrap_err();
    assert_eq!(error.kind(), ErrorKind::Schema);
    assert!(error.msg().contains("out of range"));
    // a required field is missing
    let missing = seq(vec![map(vec![("first_name", text("Ada")), ("year_born", whole(1815))])]);
    assert_eq!(kind_of(parse(&schema, &missing)), ErrorKind::TextParse);
    // a text where a structure is expected
    assert_eq!(kind_of(parse(&schema, &seq(vec![text("Ada")]))), ErrorKind::TextParse);
    // the last of two entries with one name counts
    let twice = seq(vec![map(vec![
        ("first_name", text("Ada")),
        ("last_name", text("Lovelace")),
        ("year_born", whole(999)),
        ("year_born", whole(1815)),
    ])]);
    assert_ok(parse(&schema, &twice));
}

// ---- ranges ----

fn range_schema(inclusion: Inclusion) -> TypeContainer {
    let mut builder = SchemaBuilder::new();
    let range_element = builder.add("element", AnyType::UInt(TUInt::try_new(5, 150).unwrap())).unwrap();
    let range = builder.add("range", AnyType::Range(TRange::new(range_element, inclusion, false))).unwrap();
    let root = builder.add("ranges", AnyType::Sequence(TSeq::try_new(range, 1, 20).unwrap())).unwrap();
    builder.finish(root).unwrap()
}

fn create_schema_given_inclusion() -> TypeContainer {
    range_schema(Inclusion::StartInclusive)
}

fn create_schema_supplied_inclusion() -> TypeContainer {
    range_schema(Inclusion::Supplied)
}

#[test]
fn yaml_schema6_ok_1() {
    let schema = create_schema_given_inclusion();
    assert_ok(parse(&schema, &seq(vec![seq(vec![whole(10), whole(20)]), seq(vec![whole(5), whole(150)])])));
}

#[test]
fn err_equal() {
    let schema = create_schema_given_inclusion();
    assert_err(parse(&schema, &seq(vec![seq(vec![whole(10), whole(10)])])));
}

#[test]
fn err_start_end_ord() {
    let schema = create_schema_given_inclusion();
    assert_err(parse(&schema, &seq(vec![seq(vec![whole(20), whole(10)])])));
}

#[test]
fn ok_2() {
    let schema = create_schema_supplied_inclusion();
    let range = |a: i64, b: i64, x: bool, y: bool| {
        seq(vec![seq(vec![whole(a), whole(b), TextValue::boolean(x), TextValue::boolean(y)])])
    };
    assert_ok(parse(&schema, &range(10, 10, true, true)));
    assert_ok(parse(&schema, &seq(vec![seq(vec![whole(10), whole(12), text("true"), text("false")])])));
    assert_eq!(kind_of(parse(&schema, &range(10, 10, true, false))), ErrorKind::Relational);
    assert_eq!(kind_of(parse(&schema, &range(20, 10, true, true))), ErrorKind::Relational);
    assert_eq!(kind_of(parse(&schema, &seq(vec![seq(vec![whole(10), whole(12)])]))), ErrorKind::TextParse);
}

// ---- enums ----

fn enum_schema() -> TypeContainer {
    let mut builder = SchemaBuilder::new();

    let variant1 = builder.add("variant1", AnyType::Ascii(TAscii::try_new(1, 50, 0, 127).unwrap())).unwrap();
    let variant2_1 = builder.add("variant2_1", AnyType::Ascii(TAscii::try_new(1, 50, 0, 127).unwrap())).unwrap();
    let variant2_2 = builder.add("variant2_2", AnyType::SInt(TSInt::try_new(-10, 3000).unwrap())).unwrap();

    let enum_value = TEnum::default()
        .add(Variant::new(id("the_empty_variant")))
        .add(Variant::new(id("normal_variant")).add_value(variant1))
        .add(Variant::new(id("two_value_variant")).add_value(variant2_1).add_value(variant2_2));

    let enumeration = builder.add("enumeration", AnyType::Enum(enum_value)).unwrap();

    let root = builder.add("root", AnyType::Sequence(TSeq::try_new(enumeration, 1, 20).unwrap())).unwrap();
    builder.finish(root).unwrap()
}

#[test]
fn mod_ok_1() {
    let schema = enum_schema();
    let document = seq(vec![
        text("the_empty_variant"),
        map(vec![("the_empty_variant", TextValue::nothing())]),
        map(vec![("normal_variant", text("hi"))]),
        map(vec![("two_value_variant", seq(vec![text("hi"), whole(3000)]))]),
    ]);
    let data = parse(&schema, &document).unwrap();
    assert_eq!(
        data,
        vec![
            3 * 13 + 10, 4,
            6 * 13,
            6 * 13,
            7 * 13 + 7, 5 * 13 + 2, b'h', b'i',
            8 * 13 + 8, 5 * 13 + 2, b'h', b'i', 11 * 13 + 2, 0xb8, 0x0b,
        ]
    );
}

#[test]
fn too_many_values() {
    let schema = enum_schema();
    let document = seq(vec![map(vec![("two_value_variant", seq(vec![text("hi"), whole(1), whole(2)]))])]);
    assert_eq!(kind_of(parse(&schema, &document)), ErrorKind::TextParse);
    let document = seq(vec![map(vec![("the_empty_variant", text("hi"))])]);
    assert_err(parse(&schema, &document));
}

#[test]
fn not_enough_values() {
    let schema = enum_schema();
    let document = seq(vec![map(vec![("two_value_variant", seq(vec![text("hi")]))])]);
    assert_eq!(kind_of(parse(&schema, &document)), ErrorKind::TextParse);
    assert_err(parse(&schema, &seq(vec![text("normal_variant")])));
}

#[test]
fn enum_values_out_of_range_and_unknown_variants() {
    let schema = enum_schema();
    let document = seq(vec![map(vec![("two_value_variant", seq(vec![text("hi"), whole(4000)]))])]);
    assert_eq!(kind_of(parse(&schema, &document)), ErrorKind::Schema);
    assert_eq!(kind_of(parse(&schema, &seq(vec![text("no_variant")]))), ErrorKind::TextParse);
    assert_err(parse(&schema, &seq(vec![map(vec![("no_variant", text("hi"))])])));
}

// ---- identifiers as sequences of texts ----

fn create_identifier_schema() -> TypeContainer {
    let mut builder = SchemaBuilder::new();
    let ascii = builder.add("segment", AnyType::Ascii(TAscii::try_new(0, 10, 97, 123).unwrap())).unwrap();
    let identifier = builder.add("identifier", AnyType::Sequence(TSeq::try_new(ascii, 1, 8).unwrap())).unwrap();
    let root = builder.add("root", AnyType::Sequence(TSeq::try_new(identifier, 1, 100).unwrap())).unwrap();
    builder.finish(root).unwrap()
}

#[test]
fn identifier_mod_ok_1() {
    let schema = create_identifier_schema();
    let document = seq(vec![seq(vec![text("some"), text("identifier")]), seq(vec![text("a")])]);
    assert_ok(parse(&schema, &document));
}

#[test]
fn err_one_element_too_long() {
    let schema = create_identifier_schema();
    let document = seq(vec![seq(vec![text("some"), text("identifierx")])]);
    assert_eq!(kind_of(parse(&schema, &document)), ErrorKind::Schema);
}

// ---- the other parsers ----

#[test]
fn sorted_seq_from_text() {
    let mut builder = SchemaBuilder::new();
    let element = builder.add("element", AnyType::UInt(TUInt::try_new(0, 100).unwrap())).unwrap();
    let root = builder
        .add(
            "root",
            AnyType::Sequence(
                TSeq::try_new(element, 1, 10)
                    .unwrap()
                    .with_ordering(Order::Sorted { direction: Direction::Ascending, unique: true }),
            ),
        )
        .unwrap();
    let schema = builder.finish(root).unwrap();
    assert_eq!(parse(&schema, &seq(vec![whole(1), whole(2), whole(3)])).unwrap(), vec![3 * 13 + 10, 3, 131, 1, 131, 2, 131, 3]);
    assert_eq!(kind_of(parse(&schema, &seq(vec![whole(1), whole(2), whole(2)]))), ErrorKind::Relational);
    assert_eq!(kind_of(parse(&schema, &seq(vec![whole(2), whole(1)]))), ErrorKind::Relational);
    assert_eq!(kind_of(parse(&schema, &seq(vec![whole(-1)]))), ErrorKind::TextParse);
    assert_eq!(kind_of(parse(&schema, &whole(1))), ErrorKind::TextParse);
}

#[test]
fn maps_and_key_references_from_text() {
    let mut builder = SchemaBuilder::new();
    let key = builder.add("key", AnyType::Unicode(TUnicode::try_new(0, 100, LengthType::Utf8Byte).unwrap())).unwrap();
    let reference = builder.add("reference", AnyType::KeyRef(TKeyRef::default())).unwrap();
    let refs = builder.add("refs", AnyType::Sequence(TSeq::try_new(reference, 0, 100).unwrap())).unwrap();
    let root = builder.add("root", AnyType::Mapping(TMap::new(key, refs).with_anchors(true))).unwrap();
    let schema = builder.finish(root).unwrap();
    let document = |last: i64| {
        map(vec![
            ("a", seq(vec![whole(0), whole(1), whole(2)])),
            ("b", seq(vec![])),
            ("c", seq(vec![whole(last)])),
        ])
    };
    assert_ok(parse(&schema, &document(2)));
    assert_eq!(kind_of(parse(&schema, &document(3))), ErrorKind::Reference);
    assert_eq!(kind_of(parse(&schema, &seq(vec![seq(vec![text("a")])]))), ErrorKind::TextParse);
    // the entries are written as they stand: the keys have to be sorted
    let unsorted = map(vec![("b", seq(vec![])), ("a", seq(vec![]))]);
    assert_eq!(kind_of(parse(&schema, &unsorted)), ErrorKind::Relational);
}

#[test]
fn root_maps_from_text() {
    let mut builder = SchemaBuilder::new();
    let key = builder.add("key", AnyType::UInt(TUInt::try_new(0, 100).unwrap())).unwrap();
    let reference = builder.add("reference", AnyType::KeyRef(TKeyRef::default())).unwrap();
    let root = builder
        .add("root", AnyType::RootMap(TRootMap::new(reference.duplicate(), key, reference)))
        .unwrap();
    let schema = builder.finish(root).unwrap();
    let document = |root: i64| seq(vec![whole(root), seq(vec![seq(vec![whole(7), whole(0)]), seq(vec![whole(9), whole(1)])])]);
    assert_ok(parse(&schema, &document(1)));
    assert_eq!(kind_of(parse(&schema, &document(2))), ErrorKind::Reference);
    assert_eq!(kind_of(parse(&schema, &seq(vec![whole(0)]))), ErrorKind::TextParse);
}

#[test]
fn options_from_text() {
    let mut builder = SchemaBuilder::new();
    let flag = builder.add("flag", AnyType::Bool(TBool::default())).unwrap();
    let inner = builder.add("inner", AnyType::Option(TOption::new(flag))).unwrap();
    let root = builder.add("root", AnyType::Option(TOption::new(inner))).unwrap();
    let schema = builder.finish(root).unwrap();
    assert_eq!(parse(&schema, &TextValue::nothing()).unwrap(), vec![26]);
    assert_eq!(parse(&schema, &TextValue::boolean(true)).unwrap(), vec![33, 33, 13]);
    assert_eq!(parse(&schema, &text("false")).unwrap(), vec![33, 33, 0]);
    assert_eq!(kind_of(parse(&schema, &text("no"))), ErrorKind::TextParse);
    // an option of itself never comes to an end
    let mut builder = SchemaBuilder::new();
    let root = builder
        .add("root", AnyType::Option(TOption::new(liquesco::schema::type_ref::TypeRef::new_numerical(0))))
        .unwrap();
    let schema = builder.finish(root).unwrap();
    assert_eq!(parse(&schema, &TextValue::nothing()).unwrap(), vec![26]);
    assert_eq!(kind_of(parse(&schema, &text("x"))), ErrorKind::TextParse);
}

fn single_schema(any_type: AnyType) -> TypeContainer {
    let mut builder = SchemaBuilder::new();
    let root = builder.add("root", any_type).unwrap();
    builder.finish(root).unwrap()
}

#[test]
fn numbers_from_text() {
    let unsigned = single_schema(AnyType::UInt(TUInt::try_new(0, u128::MAX).unwrap()));
    assert_eq!(parse(&unsigned, &text("300")).unwrap(), vec![132, 44, 1]);
    assert_eq!(parse(&unsigned, &text("+007")).unwrap(), vec![131, 7]);
    assert_ok(parse(&unsigned, &text("340282366920938463463374607431768211455")));
    assert_eq!(kind_of(parse(&unsigned, &text("340282366920938463463374607431768211456"))), ErrorKind::TextParse);
    for bad in ["", "+", "-1", "1 ", " 1", "1e3", "0x10", "１"] {
        assert_eq!(kind_of(parse(&unsigned, &text(bad))), ErrorKind::TextParse);
    }
    let signed = single_schema(AnyType::SInt(TSInt::try_new(i128::MIN, i128::MAX).unwrap()));
    assert_eq!(parse(&signed, &text("-129")).unwrap(), vec![145, 127, 255]);
    assert_eq!(parse(&signed, &whole(-1)).unwrap(), vec![144, 255]);
    assert_ok(parse(&signed, &text("-170141183460469231731687303715884105728")));
    assert_ok(parse(&signed, &text("170141183460469231731687303715884105727")));
    assert_eq!(kind_of(parse(&signed, &text("170141183460469231731687303715884105728"))), ErrorKind::TextParse);
    assert_eq!(kind_of(parse(&signed, &text("-170141183460469231731687303715884105729"))), ErrorKind::TextParse);
    assert_eq!(kind_of(parse(&signed, &text("--1"))), ErrorKind::TextParse);
    assert_eq!(Converter::to_u128(&Value::I64(5)), Some(5));
    assert_eq!(Converter::to_u128(&Value::I64(-5)), None);
    assert_eq!(Converter::to_i128(&Value::Bool(true)), None);
    assert!(Converter::require_u128(&Value::Nothing).is_err());
    assert!(Converter::require_i128(&Value::Nothing).is_err());
    assert!(Converter::require_bool(&Value::I64(1)).is_err());
    assert_eq!(Converter::to_bool(&Value::Text("true".to_string())), Some(true));
}

#[test]
fn floats_from_text() {
    let wide = single_schema(AnyType::Float64(TFloat64::full()));
    let float = |v: f64| TextValue::new(Value::F64(v.to_bits()));
    let mut expected = vec![12 * 13 + 4];
    expected.extend_from_slice(&1.5f64.to_le_bytes());
    assert_eq!(parse(&wide, &float(1.5)).unwrap(), expected);
    assert_eq!(kind_of(parse(&wide, &text("1.5"))), ErrorKind::TextParse);
    let narrow = single_schema(AnyType::Float32(
        TFloat32::full().with_allow_positive_zero(true).with_allow_negative_zero(true).with_allow_positive_infinity(true),
    ));
    for v in [1.5f32, -0.0, 0.0, f32::MAX, f32::MIN, f32::MIN_POSITIVE, 0.1, -3.25e-20] {
        let mut expected = vec![12 * 13 + 3];
        expected.extend_from_slice(&v.to_le_bytes());
        assert_eq!(parse(&narrow, &float(v as f64)).unwrap(), expected);
        assert_eq!(Converter::to_f32(&Value::F64((v as f64).to_bits())), Some(v.to_bits()));
    }
    // the numbers that 32 bits hold without an exponent of their own
    let subnormal = single_schema(AnyType::Float32(TFloat32::full().with_allow_subnormal(true)));
    for bits in [1u32, 2, 3, 0x7f_ffff, 0x40_0000, 0x8000_0001, 0x807f_ffff, 0x12_3456] {
        let v = f32::from_bits(bits);
        assert_eq!(Converter::to_f32(&Value::F64((v as f64).to_bits())), Some(bits));
        let mut expected = vec![12 * 13 + 3];
        expected.extend_from_slice(&v.to_le_bytes());
        assert_eq!(parse(&subnormal, &float(v as f64)).unwrap(), expected);
    }
    // what a float of 32 bits holds is found again, and nothing else
    for v in [
        1.0f64,
        0.1,
        1.0e300,
        -1.0e300,
        1.0e-300,
        f64::MIN_POSITIVE,
        f64::from_bits(1),
        (f32::from_bits(1) as f64) / 2.0,
        (f32::from_bits(1) as f64) * 1.5,
        (f32::MIN_POSITIVE as f64) * 1.000_000_01,
        (f32::MAX as f64) * 2.0,
        (f32::MAX as f64) + 1.0e22,
        16_777_216.0,
        16_777_217.0,
        -2.5,
        f64::NAN,
        f64::INFINITY,
        f64::NEG_INFINITY,
    ] {
        let narrow_value = v as f32;
        let expected = if ((narrow_value as f64) - v).abs() == 0.0 {
            Some(narrow_value.to_bits())
        } else {
            None
        };
        assert_eq!(Converter::to_f32(&Value::F64(v.to_bits())), expected, "{}", v);
    }
    // precision would be lost
    assert_eq!(kind_of(parse(&narrow, &float(0.1))), ErrorKind::TextParse);
    assert_eq!(kind_of(parse(&narrow, &float(1.0e300))), ErrorKind::TextParse);
    assert_eq!(kind_of(parse(&narrow, &float(f64::NAN))), ErrorKind::TextParse);
    assert_eq!(kind_of(parse(&narrow, &float(f64::INFINITY))), ErrorKind::TextParse);
    assert_eq!(Converter::to_f64(&Value::F64(7)), Some(7));
    assert!(Converter::require_f64(&Value::I64(7)).is_err());
    assert!(Converter::require_f32(&Value::I64(7)).is_err());
}

#[test]
fn binary_from_text() {
    let schema = single_schema(AnyType::Binary(TBinary::try_new(0, 100).unwrap()));
    let hello = vec![4 * 13 + 6, 5, 104, 101, 108, 108, 111];
    assert_eq!(parse(&schema, &text("aGVsbG8")).unwrap(), hello);
    assert_eq!(parse(&schema, &text("hex:68656C6C6F")).unwrap(), hello);
    assert_eq!(parse(&schema, &text("hex:68656c6c6f")).unwrap(), hello);
    assert_eq!(parse(&schema, &seq(vec![whole(104), whole(101), whole(108), whole(108), text("111")])).unwrap(), hello);
    assert_eq!(parse(&schema, &text("")).unwrap(), vec![4 * 13]);
    assert_eq!(kind_of(parse(&schema, &text("hex:6865zz"))), ErrorKind::TextParse);
    assert_eq!(parse(&schema, &text("hex:68656C6c6F")).unwrap(), hello);
    assert_eq!(kind_of(parse(&schema, &text("hex:686"))), ErrorKind::TextParse);
    assert_eq!(kind_of(parse(&schema, &text("hex:68 65"))), ErrorKind::TextParse);
    assert_eq!(kind_of(parse(&schema, &text("hex:6g"))), ErrorKind::TextParse);
    assert_eq!(kind_of(parse(&schema, &text("hex:6G"))), ErrorKind::TextParse);
    assert_eq!(kind_of(parse(&schema, &text("aGVsbG8="))), ErrorKind::TextParse);
    assert_eq!(kind_of(parse(&schema, &seq(vec![whole(256)]))), ErrorKind::TextParse);
    assert_eq!(kind_of(parse(&schema, &whole(1))), ErrorKind::TextParse);
    assert!(Converter::require_binary(&Value::Nothing).is_err());
    let uuid = single_schema(AnyType::Uuid(TUuid::default()));
    assert_ok(parse(&uuid, &text("hex:000102030405060708090a0b0c0d0e0f")));
    assert_eq!(kind_of(parse(&uuid, &text("hex:0001"))), ErrorKind::TextParse);
}

#[test]
fn decimals_from_text() {
    let schema = single_schema(AnyType::Decimal(TDecimal::try_new(-1000, 1000, -3, 3).unwrap()));
    assert_eq!(parse(&schema, &seq(vec![whole(12), whole(-2)])).unwrap(), vec![3 * 13 + 8, 144, 12, 144, 254]);
    assert_eq!(parse(&schema, &whole(7)).unwrap(), vec![3 * 13 + 8, 144, 7, 144, 0]);
    assert_eq!(kind_of(parse(&schema, &seq(vec![whole(12), whole(4)]))), ErrorKind::Schema);
    assert_eq!(kind_of(parse(&schema, &seq(vec![whole(12), whole(400)]))), ErrorKind::TextParse);
    assert_eq!(kind_of(parse(&schema, &seq(vec![whole(12)]))), ErrorKind::TextParse);
    assert_eq!(kind_of(parse(&schema, &text("x"))), ErrorKind::TextParse);
}

fn decimal(text: &str) -> Option<(i128, i8)> {
    Decimal::try_from(text).ok().map(|d| (d.coefficient(), d.exponent()))
}

#[test]
fn decimal_texts() {
    assert_eq!(decimal("12.23"), Some((1223, -2)));
    assert_eq!(decimal("12"), Some((12, 0)));
    assert_eq!(decimal("5e-4"), Some((5, -4)));
    assert_eq!(decimal("4e3"), Some((4, 3)));
    assert_eq!(decimal("4E+3"), Some((4, 3)));
    assert_eq!(decimal("-0.5"), Some((-5, -1)));
    assert_eq!(decimal("+7"), Some((7, 0)));
    assert_eq!(decimal("1.50"), Some((15, -1)));
    assert_eq!(decimal("1200"), Some((12, 2)));
    assert_eq!(decimal("0.0"), Some((0, 0)));
    assert_eq!(decimal("-0"), Some((0, 0)));
    assert_eq!(decimal("0e999999999999999999999999999999999999999999"), Some((0, 0)));
    assert_eq!(decimal("1e127"), Some((1, 127)));
    assert_eq!(decimal("10e127"), None);
    assert_eq!(decimal("1e-128"), Some((1, -128)));
    assert_eq!(decimal("0.1e-128"), None);
    assert_eq!(decimal("10e-129"), Some((1, -128)));
    assert_eq!(
        decimal("170141183460469231731687303715884105727"),
        Some((i128::MAX, 0))
    );
    assert_eq!(
        decimal("-170141183460469231731687303715884105727"),
        Some((-i128::MAX, 0))
    );
    assert_eq!(decimal("170141183460469231731687303715884105728"), None);
    assert_eq!(decimal("1701411834604692317316873037158841057280"), None);
    for bad in ["", "-", ".", "1.", ".5", "1e", "e5", "1e+", "1.2.3", "1 2", "1,5", "٣", "0x10", "1e5e5", "--1"] {
        assert_eq!(decimal(bad), None, "{:?}", bad);
        assert_eq!(Decimal::try_from(bad).unwrap_err().kind(), ErrorKind::TextParse);
    }
    let made = Decimal::from_parts(120, 0);
    assert_eq!((made.coefficient(), made.exponent()), (120, 0));
}

#[test]
fn converter_reads_decimals() {
    let of = |v: &Value| Converter::to_decimal(v).map(|d| (d.coefficient(), d.exponent()));
    assert_eq!(of(&Value::Text("12.23".to_string())), Some((1223, -2)));
    assert_eq!(of(&Value::I64(120)), Some((120, 0)));
    assert_eq!(of(&Value::Text("twelve".to_string())), None);
    assert_eq!(of(&Value::Bool(true)), None);
    assert_eq!(of(&Value::Nothing), None);
    assert_eq!(
        Converter::require_decimal(&Value::Nothing).unwrap_err().kind(),
        ErrorKind::TextParse
    );
    assert_eq!(Converter::require_decimal(&Value::I64(-3)).unwrap().coefficient(), -3);
    let schema = single_schema(AnyType::Decimal(TDecimal::try_new(-1000, 1000, -3, 3).unwrap()));
    assert_eq!(parse(&schema, &text("1.5")).unwrap(), vec![3 * 13 + 8, 144, 15, 144, 255]);
    assert_eq!(parse(&schema, &text("-20")).unwrap(), vec![3 * 13 + 8, 144, 254, 144, 1]);
    assert_eq!(kind_of(parse(&schema, &text("1e4"))), ErrorKind::Schema);
    assert_eq!(kind_of(parse(&schema, &text("1e400"))), ErrorKind::TextParse);
}

#[test]
fn converter_reads_string_maps() {
    let value = map(vec![("a", whole(1)), ("b", text("x")), ("a", whole(3))]);
    let entries = Converter::to_string_map(value.as_ref()).unwrap();
    assert_eq!(entries.len(), 3);
    assert_eq!(entries[0].0, "a");
    assert_eq!(entries[1].0, "b");
    assert_eq!(entries[2].0, "a");
    assert!(matches!(entries[0].1.as_ref(), Value::I64(1)));
    assert!(matches!(entries[1].1.as_ref(), Value::Text(t) if t == "x"));
    assert!(Converter::to_string_map(seq(vec![]).as_ref()).unwrap().is_empty());
    assert!(Converter::to_string_map(&Value::Nothing).is_none());
    assert!(Converter::to_string_map(seq(vec![whole(1)]).as_ref()).is_none());
    assert!(Converter::to_string_map(seq(vec![seq(vec![text("a")])]).as_ref()).is_none());
    assert!(Converter::to_string_map(seq(vec![seq(vec![whole(1), whole(2)])]).as_ref()).is_none());
    let error = Converter::require_string_map(&Value::I64(1)).unwrap_err();
    assert_eq!(error.kind(), ErrorKind::TextParse);
    assert_eq!(Converter::require_string_map(value.as_ref()).unwrap().len(), 3);
}

#[test]
fn errors_carry_the_position_of_the_value() {
    let schema = single_schema(AnyType::Bool(TBool::default()));
    let value = text("maybe").with_position(SrcPosition::new(3, 7));
    let error = parse(&schema, &value).unwrap_err();
    assert_eq!(error.position(), Some(SrcPosition::new(3, 7)));
    assert_eq!(error.kind(), ErrorKind::TextParse);
    assert!(parse(&schema, &text("maybe")).unwrap_err().position().is_none());
    let parse_error = ParseError::new("no good").with_position(SrcPosition::new(1, 2));
    assert_eq!(parse_error.kind(), ErrorKind::TextParse);
    assert_eq!(parse_error.position(), Some(SrcPosition::new(1, 2)));
    let wrapped = ParseError::from_lq_error(error);
    assert_eq!(wrapped.kind(), ErrorKind::TextParse);
    assert!(wrapped.position().is_none());
}

#[test]
fn converter_reads_text_values() {
    assert_eq!(Converter::to_text(&Value::Text("a".to_string())), Some("a"));
    assert!(Converter::to_text(&Value::Nothing).is_none());
    assert!(Converter::require_text(&Value::I64(1)).is_err());
    assert!(Converter::to_seq(&Value::Sequence(vec![])).is_some());
    assert!(Converter::require_seq(&Value::Nothing).is_err());
    assert!(Value::Nothing.is_nothing());
    assert!(!text("x").as_ref().is_nothing());
    let identifier = Converter::string_to_identifier("first_name", IdentifierType::StructField).unwrap();
    assert_eq!(Converter::identifier_to_string(&identifier, IdentifierType::EnumIdentifier), "first_name");
    assert!(Converter::string_to_identifier("First", IdentifierType::StructField).is_err());
}

// ---- uuids and structure headers ----

#[test]
fn uuid_bytes_and_digits() {
    let bytes: [u8; 16] = [0, 1, 2, 10, 15, 16, 17, 255, 128, 9, 0, 171, 205, 239, 1, 35];
    let uuid = Uuid::from_bytes(bytes);
    assert_eq!(uuid.as_slice(), &bytes);
    // a byte below 16 gives one digit
    assert_eq!(uuid.as_hex_string(), "012af1011ff8090abcdef123");
    assert!(Uuid::try_from(&bytes[..15]).is_err());
    assert_eq!(Uuid::try_from(&bytes[..]).unwrap().as_slice(), &bytes);
    let mut writer = VecWriter::new();
    Uuid::serialize(&mut writer, &uuid);
    let data = writer.into_vec();
    assert_eq!(data[0], 4 * 13 + 5);
    let mut reader = SliceReader::new(&data);
    assert_eq!(Uuid::de_serialize(&mut reader).unwrap().as_slice(), &bytes);
    let short = vec![4 * 13 + 1, 7];
    let mut reader = SliceReader::new(&short);
    assert!(Uuid::de_serialize(&mut reader).is_err());
}

#[test]
fn new_uuids_are_random_and_of_version_4() {
    let a = Uuid::new_v4();
    let b = Uuid::new_v4();
    assert_ne!(a.as_slice(), b.as_slice());
    assert_eq!(a.as_slice()[6] >> 4, 4);
    assert_eq!(a.as_slice()[8] >> 6, 2);
}

#[test]
fn structure_headers() {
    let info = StructInfo::new(3);
    assert_eq!(info.number_of_fields(), 3);
    assert!(info.begin_reading(4).is_err());
    let mut writer = VecWriter::new();
    StructInfo::serialize(&mut writer, &info).unwrap();
    writer.write_slice(&[13, 0, 13]);
    let data = writer.into_vec();
    let mut reader = SliceReader::new(&data);
    let read = StructInfo::de_serialize(&mut reader).unwrap();
    assert_eq!(read, info);
    let reading = read.begin_reading(1).unwrap();
    reader.skip().unwrap();
    reading.finish(&mut reader).unwrap();
    assert!(reader.finish().is_ok());
    let mut reader = SliceReader::new(&data);
    let reading = StructInfo::de_serialize(&mut reader).unwrap().begin_reading(0).unwrap();
    reader.skip().unwrap();
    assert!(reading.finish(&mut reader).is_err());
}
