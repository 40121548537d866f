use liquesco::error::ErrorKind;
use liquesco::identifier::{Format, Identifier};
use liquesco::ine_range::U32IneRange;
use liquesco::schema::any_type::AnyType;
use liquesco::schema::container::{SchemaBuilder, TypeContainer};
use liquesco::schema::keys::Comparison;
use liquesco::schema::type_ref::{Config, TypeRef};
use liquesco::schema::types::ascii::{CodeRange, TAscii};
use liquesco::schema::types::binary::TBinary;
use liquesco::schema::types::boolean::TBool;
use liquesco::schema::types::decimal::TDecimal;
use liquesco::schema::types::enumeration::{TEnum, Variant};
use liquesco::schema::types::float::{TFloat32, TFloat64};
use liquesco::schema::types::key_ref::TKeyRef;
use liquesco::schema::types::map::{Sorting, TMap};
use liquesco::schema::types::option::TOption;
use liquesco::schema::types::range::{Inclusion, TRange};
use liquesco::schema::types::root_map::TRootMap;
use liquesco::schema::types::seq::{Direction, Order, TSeq};
use liquesco::schema::types::sint::TSInt;
use liquesco::schema::types::structure::{Field, TStruct};
use liquesco::schema::types::uint::{TUInt, VUInt};
use liquesco::schema::types::unicode::{LengthType, TUnicode};
use liquesco::schema::types::uuid::TUuid;
use liquesco::schema::validate::ValidationContext;
use liquesco::slice_reader::SliceReader;
use liquesco::types::float::Float;
use liquesco::value::{Value, ValueVariant};
use liquesco::vec_writer::VecWriter;

fn to_bytes(value: &Value) -> Vec<u8> {
    let mut writer = VecWriter::new();
    Value::serialize(&mut writer, value).unwrap();
    writer.into_vec()
}

fn validate(value: &Value, schema: &TypeContainer, config: Config) -> Result<(), ErrorKind> {
    let data = to_bytes(value);
    let mut reader = SliceReader::new(&data);
    schema.validate(config, &mut reader).map_err(|e| e.kind())
}

fn assert_valid_strict(value: Value, schema: &TypeContainer) {
    assert_eq!(validate(&value, schema, Config::strict()), Ok(()));
    // what is valid in strict mode is valid in weak mode
    assert_eq!(validate(&value, schema, Config::weak()), Ok(()));
    // skipping ends where validating ends
    let data = to_bytes(&value);
    let mut reader = SliceReader::new(&data);
    reader.skip().unwrap();
    assert!(reader.finish().is_ok());
}

fn assert_invalid_strict(value: Value, schema: &TypeContainer) {
    assert!(validate(&value, schema, Config::strict()).is_err());
}

fn assert_invalid_kind(value: Value, schema: &TypeContainer, kind: ErrorKind) {
    assert_eq!(validate(&value, schema, Config::strict()), Err(kind));
}

fn single_schema(any_type: AnyType) -> TypeContainer {
    let mut builder = SchemaBuilder::new();
    let root = builder.add("root", any_type).unwrap();
    builder.finish(root).unwrap()
}

fn compare(schema: &TypeContainer, a: &Value, b: &Value) -> Comparison {
    let first = to_bytes(a);
    let second = to_bytes(b);
    let mut r1 = SliceReader::new(&first);
    let mut r2 = SliceReader::new(&second);
    let context = ValidationContext::new(schema, Config::strict(), SliceReader::new(&first));
    let result = context.compare(schema.root(), &mut r1, &mut r2).unwrap();
    // both cursors are behind the values
    assert!(r1.finish().is_ok());
    assert!(r2.finish().is_ok());
    result
}

fn ord_assert_equal(any_type: AnyType, a: Value, b: Value) {
    let schema = single_schema(any_type);
    assert_eq!(compare(&schema, &a, &b), Comparison::Equal);
    assert_eq!(compare(&schema, &b, &a), Comparison::Equal);
}

fn ord_assert_ascending(any_type: AnyType, a: Value, b: Value) {
    let schema = single_schema(any_type);
    assert_eq!(compare(&schema, &a, &b), Comparison::Less);
    assert_eq!(compare(&schema, &b, &a), Comparison::Greater);
}

fn id(text: &str) -> Identifier {
    Identifier::try_from(text).unwrap()
}

fn text(s: &str) -> Value {
    Value::Unicode(s.to_string())
}

fn some(v: Value) -> Value {
    Value::Option(Some(Box::new(v)))
}

fn f32v(v: f32) -> Value {
    Value::Float(Float::F32(v.to_bits()))
}

fn f64v(v: f64) -> Value {
    Value::Float(Float::F64(v.to_bits()))
}

fn list(items: Vec<Value>) -> Value {
    Value::List(items)
}

// ---- signed integers ----

#[test]
fn sint_schema1() {
    let schema = single_schema(AnyType::SInt(TSInt::try_new(-45, 4443444).unwrap()));

    // some valid items
    assert_valid_strict(Value::SInt(-45), &schema);
    assert_valid_strict(Value::SInt(5), &schema);
    assert_valid_strict(Value::SInt(4_443_444), &schema);
    assert_valid_strict(Value::SInt(4_443_443), &schema);
    assert_valid_strict(Value::SInt(0), &schema);

    // some invalid items
    assert_invalid_strict(Value::SInt(-46), &schema);
    assert_invalid_strict(Value::SInt(4_443_445), &schema);
    assert_invalid_strict(Value::SInt(std::i64::MIN as i128), &schema);
    assert_invalid_strict(Value::SInt(std::i64::MAX as i128), &schema);
}

#[test]
fn schema_big() {
    let schema = single_schema(AnyType::SInt(
        TSInt::try_new(std::i128::MIN + 2, std::i128::MAX - 2).unwrap(),
    ));

    // some valid items
    assert_valid_strict(Value::SInt(std::i128::MIN + 2), &schema);
    assert_valid_strict(Value::SInt(std::i128::MAX - 2), &schema);

    // some invalid items
    assert_invalid_strict(Value::SInt(std::i128::MIN + 1), &schema);
    assert_invalid_strict(Value::SInt(std::i128::MIN), &schema);
    assert_invalid_strict(Value::SInt(std::i128::MAX - 1), &schema);
    assert_invalid_strict(Value::SInt(std::i128::MAX), &schema);
}

#[test]
fn sint_ordering() {
    let schema = || AnyType::SInt(TSInt::try_new(std::i64::MIN as i128, std::i64::MAX as i128).unwrap());

    ord_assert_equal(schema(), Value::SInt(-100), Value::SInt(-100));
    ord_assert_equal(schema(), Value::SInt(0), Value::SInt(0));
    ord_assert_equal(schema(), Value::SInt(std::i64::MAX as i128), Value::SInt(std::i64::MAX as i128));

    ord_assert_ascending(schema(), Value::SInt(0), Value::SInt(std::i64::MAX as i128));
    ord_assert_ascending(schema(), Value::SInt(-5), Value::SInt(6));
}

#[test]
fn out_of_range_is_a_schema_error() {
    let schema = single_schema(AnyType::UInt(TUInt::try_new(1000, 3000).unwrap()));
    assert_valid_strict(Value::UInt(1815), &schema);
    assert_invalid_kind(Value::UInt(999), &schema, ErrorKind::Schema);
    assert_invalid_kind(Value::UInt(3001), &schema, ErrorKind::Schema);
    assert_invalid_kind(Value::SInt(1815), &schema, ErrorKind::Codec);
    assert!(TUInt::try_new(2, 1).is_err());
    assert!(TSInt::try_new(2, 1).is_err());
}

// ---- floats ----

#[test]
fn schema1_32() {
    let schema = single_schema(AnyType::Float32(TFloat32::full()));

    // some valid items
    assert_valid_strict(f32v(-458.0f32), &schema);
    assert_valid_strict(f32v(458.0f32), &schema);
    assert_valid_strict(f32v(std::f32::MIN), &schema);
    assert_valid_strict(f32v(std::f32::MAX), &schema);
    assert_valid_strict(f32v(std::f32::MIN_POSITIVE), &schema);

    // some invalid items
    assert_invalid_strict(f32v(std::f32::NAN), &schema);
    assert_invalid_strict(f32v(std::f32::NEG_INFINITY), &schema);
    assert_invalid_strict(f32v(std::f32::INFINITY), &schema);
    // err: subnormal
    assert_invalid_strict(f32v(1.0e-40_f32), &schema);
    assert_invalid_strict(f32v(-1.0e-40_f32), &schema);
    // err: zero
    assert_invalid_strict(f32v(0.0f32), &schema);
    assert_invalid_strict(f32v(-0.0f32), &schema);
}

#[test]
fn schema1_64() {
    let schema = single_schema(AnyType::Float64(TFloat64::full()));

    // some valid items
    assert_valid_strict(f64v(-458.0f64), &schema);
    assert_valid_strict(f64v(458.0f64), &schema);
    assert_valid_strict(f64v(std::f64::MIN), &schema);
    assert_valid_strict(f64v(std::f64::MAX), &schema);
    assert_valid_strict(f64v(std::f64::MIN_POSITIVE), &schema);

    // some invalid items
    assert_invalid_strict(f64v(std::f64::NAN), &schema);
    assert_invalid_strict(f64v(std::f64::NEG_INFINITY), &schema);
    assert_invalid_strict(f64v(std::f64::INFINITY), &schema);
    // err: subnormal
    assert_invalid_strict(f64v(1.0e-308_f64), &schema);
    assert_invalid_strict(f64v(-1.0e-308_f64), &schema);
    // err: zero
    assert_invalid_strict(f64v(0.0f64), &schema);
    assert_invalid_strict(f64v(-0.0f64), &schema);
}

#[test]
fn schema2_32() {
    let float = TFloat32::try_new((-14.5f32).to_bits(), 19.7f32.to_bits())
        .unwrap()
        .with_allow_nan(true)
        .with_allow_positive_infinity(true)
        .with_allow_negative_infinity(true)
        .with_allow_positive_zero(true)
        .with_allow_negative_zero(true)
        .with_allow_subnormal(true);

    let schema = single_schema(AnyType::Float32(float));

    // some valid items
    assert_valid_strict(f32v(-14.5f32), &schema);
    assert_valid_strict(f32v(19.7f32), &schema);
    assert_valid_strict(f32v(-14.49f32), &schema);
    assert_valid_strict(f32v(19.69f32), &schema);
    assert_valid_strict(f32v(std::f32::NAN), &schema);
    assert_valid_strict(f32v(std::f32::NEG_INFINITY), &schema);
    assert_valid_strict(f32v(std::f32::INFINITY), &schema);
    assert_valid_strict(f32v(0.0f32), &schema);
    assert_valid_strict(f32v(-0.0f32), &schema);
    assert_valid_strict(f32v(1.0e-40_f32), &schema);
    assert_valid_strict(f32v(-1.0e-40_f32), &schema);

    // some invalid items
    assert_invalid_strict(f32v(-14.51f32), &schema);
    assert_invalid_strict(f32v(19.71f32), &schema);
}

#[test]
fn schema2_64() {
    let float = TFloat64::try_new((-14.5f64).to_bits(), 19.7f64.to_bits())
        .unwrap()
        .with_allow_nan(true)
        .with_allow_positive_infinity(true)
        .with_allow_negative_infinity(true)
        .with_allow_positive_zero(true)
        .with_allow_negative_zero(true)
        .with_allow_subnormal(true);

    let schema = single_schema(AnyType::Float64(float));

    // some valid items
    assert_valid_strict(f64v(-14.5f64), &schema);
    assert_valid_strict(f64v(19.7f64), &schema);
    assert_valid_strict(f64v(-14.49f64), &schema);
    assert_valid_strict(f64v(19.69f64), &schema);
    assert_valid_strict(f64v(std::f64::NAN), &schema);
    assert_valid_strict(f64v(std::f64::NEG_INFINITY), &schema);
    assert_valid_strict(f64v(std::f64::INFINITY), &schema);
    assert_valid_strict(f64v(0.0f64), &schema);
    assert_valid_strict(f64v(-0.0f64), &schema);
    assert_valid_strict(f64v(1.0e-308_f64), &schema);
    assert_valid_strict(f64v(-1.0e-308_f64), &schema);

    // some invalid items
    assert_invalid_strict(f64v(-14.51f64), &schema);
    assert_invalid_strict(f64v(19.71f64), &schema);
}

#[test]
fn ordering_64() {
    let schema = || {
        AnyType::Float64(
            TFloat64::try_new(std::f64::MIN.to_bits(), std::f64::MAX.to_bits())
                .unwrap()
                .with_allow_nan(true)
                .with_allow_positive_infinity(true)
                .with_allow_negative_infinity(true),
        )
    };

    // nan is equal to itself
    ord_assert_equal(schema(), f64v(std::f64::NAN), f64v(std::f64::NAN));
    // infinity is equal to itself
    ord_assert_equal(schema(), f64v(std::f64::INFINITY), f64v(std::f64::INFINITY));
    ord_assert_equal(schema(), f64v(std::f64::NEG_INFINITY), f64v(std::f64::NEG_INFINITY));
    // and values of course
    ord_assert_equal(schema(), f64v(1.278f64), f64v(1.278f64));

    // nan is always the smallest thing
    ord_assert_ascending(schema(), f64v(std::f64::NAN), f64v(-100f64));
    ord_assert_ascending(schema(), f64v(std::f64::NAN), f64v(std::f64::INFINITY));
    ord_assert_ascending(schema(), f64v(std::f64::NAN), f64v(std::f64::NEG_INFINITY));

    // except for nan, negative infinity is always the smallest thing
    ord_assert_ascending(schema(), f64v(std::f64::NEG_INFINITY), f64v(-100f64));
    ord_assert_ascending(schema(), f64v(std::f64::NEG_INFINITY), f64v(std::f64::MIN));
    ord_assert_ascending(schema(), f64v(std::f64::NEG_INFINITY), f64v(std::f64::INFINITY));

    // positive infinity is always the largest thing
    ord_assert_ascending(schema(), f64v(1000000f64), f64v(std::f64::INFINITY));
    ord_assert_ascending(schema(), f64v(std::f64::MAX), f64v(std::f64::INFINITY));
    ord_assert_ascending(schema(), f64v(std::f64::NEG_INFINITY), f64v(std::f64::INFINITY));

    // and normal values
    ord_assert_ascending(schema(), f64v(0.01f64), f64v(0.011f64));
}

#[test]
fn ordering_32() {
    let schema = || {
        AnyType::Float32(
            TFloat32::try_new(std::f32::MIN.to_bits(), std::f32::MAX.to_bits())
                .unwrap()
                .with_allow_nan(true)
                .with_allow_positive_infinity(true)
                .with_allow_negative_infinity(true),
        )
    };

    // nan is equal to itself
    ord_assert_equal(schema(), f32v(std::f32::NAN), f32v(std::f32::NAN));
    // infinity is equal to itself
    ord_assert_equal(schema(), f32v(std::f32::INFINITY), f32v(std::f32::INFINITY));
    ord_assert_equal(schema(), f32v(std::f32::NEG_INFINITY), f32v(std::f32::NEG_INFINITY));
    // and values of course
    ord_assert_equal(schema(), f32v(1.278f32), f32v(1.278f32));

    // nan is always the smallest thing
    ord_assert_ascending(schema(), f32v(std::f32::NAN), f32v(-100f32));
    ord_assert_ascending(schema(), f32v(std::f32::NAN), f32v(std::f32::INFINITY));
    ord_assert_ascending(schema(), f32v(std::f32::NAN), f32v(std::f32::NEG_INFINITY));

    // except for nan, negative infinity is always the smallest thing
    ord_assert_ascending(schema(), f32v(std::f32::NEG_INFINITY), f32v(-100f32));
    ord_assert_ascending(schema(), f32v(std::f32::NEG_INFINITY), f32v(std::f32::MIN));
    ord_assert_ascending(schema(), f32v(std::f32::NEG_INFINITY), f32v(std::f32::INFINITY));

    // positive infinity is always the largest thing
    ord_assert_ascending(schema(), f32v(1_000_000f32), f32v(std::f32::INFINITY));
    ord_assert_ascending(schema(), f32v(std::f32::MAX), f32v(std::f32::INFINITY));
    ord_assert_ascending(schema(), f32v(std::f32::NEG_INFINITY), f32v(std::f32::INFINITY));

    // and normal values
    ord_assert_ascending(schema(), f32v(0.01f32), f32v(0.011f32));
}

#[test]
fn float_total_order_of_zeros_and_negatives() {
    let schema = || AnyType::Float64(TFloat64::full());
    ord_assert_ascending(schema(), f64v(-0.0), f64v(0.0));
    ord_assert_ascending(schema(), f64v(-2.0), f64v(-1.0));
    ord_assert_ascending(schema(), f64v(-1.0e-310), f64v(-0.0));
    ord_assert_ascending(schema(), f64v(0.0), f64v(1.0e-310));
    assert!(TFloat64::try_new(1.0f64.to_bits(), (-1.0f64).to_bits()).is_err());
    assert!(TFloat32::try_new(f32::NAN.to_bits(), 1.0f32.to_bits()).is_err());
    // a zero lies between -1 and 1 whatever its sign
    let zeros = TFloat64::try_new((-1.0f64).to_bits(), 1.0f64.to_bits())
        .unwrap()
        .with_allow_negative_zero(true);
    let schema = single_schema(AnyType::Float64(zeros));
    assert_valid_strict(f64v(-0.0), &schema);
    assert_invalid_kind(f64v(0.0), &schema, ErrorKind::Schema);
    // a 32 bit float is no 64 bit float
    assert_invalid_kind(f32v(0.5), &schema, ErrorKind::Codec);
}

// ---- options ----

#[test]
fn option_schema1() {
    let mut builder = SchemaBuilder::new();
    let boolean = builder.add("boolean", AnyType::Bool(TBool::default())).unwrap();
    let root = builder.add("root", AnyType::Option(TOption::new(boolean))).unwrap();
    let schema = builder.finish(root).unwrap();

    // some valid items
    assert_valid_strict(Value::Option(None), &schema);
    assert_valid_strict(some(Value::Bool(true)), &schema);

    // completely wrong type
    assert_invalid_strict(some(text("expecting a bool here")), &schema);
}

fn ord_schema(element: AnyType, direction: Direction, unique: bool) -> TypeContainer {
    let mut builder = SchemaBuilder::new();
    let element = builder.add("element", element).unwrap();
    let root = builder
        .add(
            "root",
            AnyType::Sequence(
                TSeq::try_new(element, 0, u32::MAX)
                    .unwrap()
                    .with_ordering(Order::Sorted { direction, unique }),
            ),
        )
        .unwrap();
    builder.finish(root).unwrap()
}

fn ordering_create_schema() -> TypeContainer {
    let mut builder = SchemaBuilder::new();
    let element = builder
        .add("text", AnyType::Ascii(TAscii::try_new(0, std::u64::MAX, 0, 127).unwrap()))
        .unwrap();
    let option = builder.add("option", AnyType::Option(TOption::new(element))).unwrap();
    let root = builder
        .add(
            "root",
            AnyType::Sequence(
                TSeq::try_new(option, 0, u32::MAX)
                    .unwrap()
                    .with_ordering(Order::Sorted { direction: Direction::Ascending, unique: true }),
            ),
        )
        .unwrap();
    builder.finish(root).unwrap()
}

#[test]
fn option_ordering() {
    let schema = ordering_create_schema();

    // Present is always greater than absent
    assert_valid_strict(list(vec![Value::Option(None), some(text(""))]), &schema);

    assert_valid_strict(list(vec![some(text("a")), some(text("b"))]), &schema);

    assert_valid_strict(list(vec![some(text("aaaaa")), some(text("aaaaaa"))]), &schema);

    assert_valid_strict(list(vec![some(text("aaaaaaaaa")), some(text("aaaab"))]), &schema);

    // invalid: duplicate
    assert_invalid_strict(list(vec![Value::Option(None), Value::Option(None)]), &schema);

    // invalid: duplicate
    assert_invalid_strict(list(vec![some(text("aaaab")), some(text("aaaab"))]), &schema);

    // invalid: wrong ordering
    assert_invalid_strict(list(vec![some(text("aaaab")), some(text("aaaaa"))]), &schema);

    // invalid: wrong ordering
    assert_invalid_strict(list(vec![some(text("")), Value::Option(None)]), &schema);
}

// ---- key references ----

fn key_ref_schema(anchors: bool) -> TypeContainer {
    let mut builder = SchemaBuilder::new();
    let key = builder
        .add("key", AnyType::Unicode(TUnicode::try_new(0, 100, LengthType::Utf8Byte).unwrap()))
        .unwrap();

    let field_text = builder
        .add("unicode", AnyType::Unicode(TUnicode::try_new(0, 100, LengthType::Utf8Byte).unwrap()))
        .unwrap();
    let single_ref = builder.add("key_ref", AnyType::KeyRef(TKeyRef::default())).unwrap();
    let field_refs = builder
        .add("key_ref_seq", AnyType::Sequence(TSeq::try_new(single_ref, 0, 100).unwrap()))
        .unwrap();
    let value = builder
        .add(
            "struct",
            AnyType::Struct(
                TStruct::default()
                    .add(Field::new(id("text"), field_text))
                    .add(Field::new(id("refs"), field_refs)),
            ),
        )
        .unwrap();

    let root = builder
        .add("root", AnyType::Mapping(TMap::new(key, value).with_anchors(anchors)))
        .unwrap();
    builder.finish(root).unwrap()
}

fn create_schema1() -> TypeContainer {
    key_ref_schema(true)
}

fn create_schema_no_anchors() -> TypeContainer {
    // note: anchors is set to 'false'
    key_ref_schema(false)
}

fn entry(key: &str, text_field: &str, refs: Vec<u32>) -> Value {
    list(vec![
        text(key),
        list(vec![
            text(text_field),
            list(refs.into_iter().map(|r| Value::UInt(r as u128)).collect()),
        ]),
    ])
}

#[test]
fn ok_empty() {
    let schema = create_schema1();
    assert_valid_strict(list(vec![]), &schema);
}

#[test]
fn ok_no_references() {
    let schema = create_schema1();
    let map = list(vec![
        entry("item_a", "Some text", vec![]),
        entry("item_b", "Some other text", vec![]),
    ]);
    assert_valid_strict(map, &schema);
}

#[test]
fn ok_with_references() {
    let schema = create_schema1();
    let map = list(vec![
        entry("item_a", "Some text", vec![0, 0, 0, 2]),
        entry("item_b", "Some other text", vec![2, 2, 2]),
        entry("item_c", "Some other text", vec![1]),
    ]);
    assert_valid_strict(map, &schema);
}

#[test]
fn err_out_of_index() {
    let schema = create_schema1();
    let map = list(vec![
        entry("item_a", "Some text", vec![0, 0, 0, 2]),
        // this "3" is ouf of index
        entry("item_b", "Some other text", vec![2, 2, 2, 3]),
        entry("item_c", "Some other text", vec![1]),
    ]);
    assert_invalid_kind(map, &schema, ErrorKind::Reference);
}

#[test]
fn err_map_provides_no_anchors() {
    let schema = create_schema_no_anchors();
    let map = list(vec![
        entry("item_a", "Some text", vec![0, 0, 0, 2]),
        entry("item_b", "Some other text", vec![2, 2, 2]),
        entry("item_c", "Some other text", vec![1]),
    ]);
    assert_invalid_kind(map, &schema, ErrorKind::Reference);
}

#[test]
fn key_ref_sees_the_innermost_map() {
    // a map with anchors whose values are maps with anchors of key references
    let mut builder = SchemaBuilder::new();
    let key = builder.add("key", AnyType::UInt(TUInt::try_new(0, 1000).unwrap())).unwrap();
    let reference = builder.add("reference", AnyType::KeyRef(TKeyRef::default())).unwrap();
    let inner = builder
        .add("inner", AnyType::Mapping(TMap::new(key.duplicate(), reference).with_anchors(true)))
        .unwrap();
    let root = builder.add("root", AnyType::Mapping(TMap::new(key, inner).with_anchors(true))).unwrap();
    let schema = builder.finish(root).unwrap();
    let pair = |k: u128, v: Value| list(vec![Value::UInt(k), v]);
    let inner_of_two = |r: u128| list(vec![pair(1, Value::UInt(r)), pair(2, Value::UInt(0))]);
    // the outer map has three keys, the inner maps two: 1 is in reach, 2 is not
    let outer = |r: u128| list(vec![pair(1, inner_of_two(r)), pair(2, list(vec![])), pair(3, list(vec![]))]);
    assert_valid_strict(outer(1), &schema);
    assert_invalid_kind(outer(2), &schema, ErrorKind::Reference);
}

#[test]
fn recursive_key_refs_in_a_root_map() {
    let mut builder = SchemaBuilder::new();
    let key = builder
        .add("key", AnyType::Unicode(TUnicode::try_new(0, 100, LengthType::Utf8Byte).unwrap()))
        .unwrap();
    let single_ref = builder.add("key_ref", AnyType::KeyRef(TKeyRef::default())).unwrap();
    let refs = builder
        .add("refs", AnyType::Sequence(TSeq::try_new(single_ref, 0, 100).unwrap()))
        .unwrap();
    let value = builder
        .add("value", AnyType::Struct(TStruct::default().add(Field::new(id("refs"), refs.duplicate()))))
        .unwrap();
    let root_struct = builder
        .add("root_struct", AnyType::Struct(TStruct::default().add(Field::new(id("refs"), refs))))
        .unwrap();
    let root = builder.add("root", AnyType::RootMap(TRootMap::new(root_struct, key, value))).unwrap();
    let schema = builder.finish(root).unwrap();

    let refs_of = |refs: Vec<u32>| list(vec![list(refs.into_iter().map(|r| Value::UInt(r as u128)).collect())]);
    let document = |root_refs: Vec<u32>, last_refs: Vec<u32>| {
        list(vec![
            refs_of(root_refs),
            list(vec![
                list(vec![text("a"), refs_of(vec![0, 1, 2])]),
                list(vec![text("b"), refs_of(vec![])]),
                list(vec![text("c"), refs_of(last_refs)]),
            ]),
        ])
    };
    assert_valid_strict(document(vec![0, 1, 2], vec![2, 0]), &schema);
    assert_invalid_kind(document(vec![], vec![3]), &schema, ErrorKind::Reference);
    // the root sees the keys too
    assert_invalid_kind(document(vec![3], vec![]), &schema, ErrorKind::Reference);
    // a root map is a sequence of two
    assert_invalid_kind(list(vec![refs_of(vec![])]), &schema, ErrorKind::Schema);
    // the keys have to be sorted
    let unsorted = list(vec![
        refs_of(vec![]),
        list(vec![
            list(vec![text("b"), refs_of(vec![])]),
            list(vec![text("a"), refs_of(vec![])]),
        ]),
    ]);
    assert_invalid_kind(unsorted, &schema, ErrorKind::Relational);
}

// ---- sequences ----

#[test]
fn sorted_unique_seq() {
    let mut builder = SchemaBuilder::new();
    let element = builder.add("element", AnyType::UInt(TUInt::try_new(0, 100).unwrap())).unwrap();
    let root = builder
        .add(
            "root",
            AnyType::Sequence(
                TSeq::try_new(element, 1, 10)
                    .unwrap()
                    .with_ordering(Order::Sorted { direction: Direction::Ascending, unique: true }),
            ),
        )
        .unwrap();
    let schema = builder.finish(root).unwrap();
    let numbers = |n: Vec<u128>| list(n.into_iter().map(Value::UInt).collect());
    assert_valid_strict(numbers(vec![1, 2, 3]), &schema);
    assert_invalid_kind(numbers(vec![1, 2, 2]), &schema, ErrorKind::Relational);
    assert_invalid_kind(numbers(vec![2, 1]), &schema, ErrorKind::Relational);
    assert_invalid_kind(numbers(vec![]), &schema, ErrorKind::Schema);
    assert_invalid_kind(numbers(vec![1, 2, 3, 4, 5, 6, 7, 8, 9, 10, 11]), &schema, ErrorKind::Schema);
    assert_invalid_kind(numbers(vec![1, 101]), &schema, ErrorKind::Schema);
    // the element is validated before it is compared
    assert_invalid_kind(numbers(vec![2, 1, 101]), &schema, ErrorKind::Relational);
    assert_invalid_kind(numbers(vec![2, 101, 1]), &schema, ErrorKind::Schema);
}

#[test]
fn sorted_seqs_in_both_directions() {
    let numbers = |n: Vec<u128>| list(n.into_iter().map(Value::UInt).collect());
    let element = || AnyType::UInt(TUInt::try_new(0, 100).unwrap());
    let descending = ord_schema(element(), Direction::Descending, false);
    assert_valid_strict(numbers(vec![3, 3, 1]), &descending);
    assert_invalid_kind(numbers(vec![3, 4]), &descending, ErrorKind::Relational);
    let ascending = ord_schema(element(), Direction::Ascending, false);
    assert_valid_strict(numbers(vec![1, 1, 2]), &ascending);
    assert_invalid_kind(numbers(vec![1, 0]), &ascending, ErrorKind::Relational);
    let descending_unique = ord_schema(element(), Direction::Descending, true);
    assert_invalid_kind(numbers(vec![3, 3]), &descending_unique, ErrorKind::Relational);
}

#[test]
fn seq_length_multiple_of() {
    let mut builder = SchemaBuilder::new();
    let element = builder.add("element", AnyType::Bool(TBool::default())).unwrap();
    let root = builder
        .add("root", AnyType::Sequence(TSeq::try_new(element, 0, 10).unwrap().with_multiple_of(3)))
        .unwrap();
    let schema = builder.finish(root).unwrap();
    let bools = |n: usize| list((0..n).map(|_| Value::Bool(true)).collect());
    assert_valid_strict(bools(0), &schema);
    assert_valid_strict(bools(3), &schema);
    assert_valid_strict(bools(6), &schema);
    assert_invalid_kind(bools(4), &schema, ErrorKind::Schema);
    assert!(TSeq::try_new(TypeRef::new_numerical(0), 2, 1).is_err());
}

// ---- maps ----

#[test]
fn map_keys_are_unique_and_sorted() {
    let map_schema = |sorting: Sorting| {
        let mut builder = SchemaBuilder::new();
        let key = builder.add("key", AnyType::UInt(TUInt::try_new(0, 100).unwrap())).unwrap();
        let value = builder.add("value", AnyType::Bool(TBool::default())).unwrap();
        let root = builder
            .add(
                "root",
                AnyType::Mapping(
                    TMap::new(key, value)
                        .with_sorting(sorting)
                        .with_length(U32IneRange::try_new(0, 3).unwrap()),
                ),
            )
            .unwrap();
        builder.finish(root).unwrap()
    };
    let map = |keys: Vec<u128>| {
        list(keys.into_iter().map(|k| list(vec![Value::UInt(k), Value::Bool(true)])).collect())
    };
    let ascending = map_schema(Sorting::Ascending);
    assert_valid_strict(map(vec![1, 2, 3]), &ascending);
    assert_valid_strict(map(vec![]), &ascending);
    assert_invalid_kind(map(vec![1, 1]), &ascending, ErrorKind::Relational);
    assert_invalid_kind(map(vec![2, 1]), &ascending, ErrorKind::Relational);
    assert_invalid_kind(map(vec![1, 2, 3, 4]), &ascending, ErrorKind::Schema);
    let descending = map_schema(Sorting::Descending);
    assert_valid_strict(map(vec![3, 2, 1]), &descending);
    assert_invalid_kind(map(vec![1, 2]), &descending, ErrorKind::Relational);
    assert_invalid_kind(map(vec![2, 2]), &descending, ErrorKind::Relational);
    // an entry is a sequence of two
    let broken = list(vec![list(vec![Value::UInt(1)])]);
    assert_invalid_kind(broken, &ascending, ErrorKind::Schema);
}

// ---- ranges ----

fn range_schema(inclusion: Inclusion, allow_empty: bool) -> TypeContainer {
    let mut builder = SchemaBuilder::new();
    let element = builder.add("element", AnyType::UInt(TUInt::try_new(5, 150).unwrap())).unwrap();
    let root = builder.add("root", AnyType::Range(TRange::new(element, inclusion, allow_empty))).unwrap();
    builder.finish(root).unwrap()
}

#[test]
fn range_with_supplied_inclusion() {
    let schema = range_schema(Inclusion::Supplied, false);
    let range = |a: u128, b: u128, x: bool, y: bool| {
        list(vec![Value::UInt(a), Value::UInt(b), Value::Bool(x), Value::Bool(y)])
    };
    assert_valid_strict(range(10, 10, true, true), &schema);
    assert_invalid_kind(range(10, 10, true, false), &schema, ErrorKind::Relational);
    assert_invalid_kind(range(10, 10, false, true), &schema, ErrorKind::Relational);
    assert_invalid_kind(range(10, 10, false, false), &schema, ErrorKind::Relational);
    assert_invalid_kind(range(20, 10, true, true), &schema, ErrorKind::Relational);
    assert_valid_strict(range(10, 11, false, false), &schema);
    assert_invalid_kind(range(4, 11, true, true), &schema, ErrorKind::Schema);
    assert_invalid_kind(list(vec![Value::UInt(10), Value::UInt(11)]), &schema, ErrorKind::Schema);
    let empty_allowed = range_schema(Inclusion::Supplied, true);
    assert_valid_strict(range(10, 10, false, false), &empty_allowed);
    assert_invalid_kind(range(20, 10, true, true), &empty_allowed, ErrorKind::Relational);
}

#[test]
fn range_with_inclusion_of_the_schema() {
    let range = |a: u128, b: u128| list(vec![Value::UInt(a), Value::UInt(b)]);
    let both = range_schema(Inclusion::BothInclusive, false);
    assert_valid_strict(range(10, 10), &both);
    assert_valid_strict(range(10, 20), &both);
    assert_invalid_kind(range(20, 10), &both, ErrorKind::Relational);
    for inclusion in [Inclusion::StartInclusive, Inclusion::BothExclusive, Inclusion::EndInclusive] {
        let schema = range_schema(inclusion, false);
        assert_invalid_kind(range(10, 10), &schema, ErrorKind::Relational);
        assert_valid_strict(range(10, 11), &schema);
        let schema = range_schema(inclusion, true);
        assert_valid_strict(range(10, 10), &schema);
    }
    let typed = TRange::new(TypeRef::new_numerical(0), Inclusion::Supplied, true);
    assert_eq!(typed.inclusion(), Inclusion::Supplied);
    assert!(typed.allow_empty());
    assert!(matches!(typed.element(), TypeRef::Numerical(0)));
}

// ---- structures and enums ----

fn person_schema() -> TypeContainer {
    let mut builder = SchemaBuilder::new();
    let first_name = builder
        .add("first_name", AnyType::Unicode(TUnicode::try_new(1, 100, LengthType::Utf8Byte).unwrap()))
        .unwrap();
    let last_name = builder
        .add("last_name", AnyType::Unicode(TUnicode::try_new(1, 100, LengthType::Utf8Byte).unwrap()))
        .unwrap();
    let year_born = builder.add("year_born", AnyType::UInt(TUInt::try_new(1000, 3000).unwrap())).unwrap();
    let root = builder
        .add(
            "person",
            AnyType::Struct(
                TStruct::default()
                    .add(Field::new(id("first_name"), first_name))
                    .add(Field::new(id("last_name"), last_name))
                    .add(Field::new(id("year_born"), year_born)),
            ),
        )
        .unwrap();
    builder.finish(root).unwrap()
}

#[test]
fn struct_fields_and_extensions() {
    let schema = person_schema();
    let person = |year: u128| list(vec![text("Ada"), text("Lovelace"), Value::UInt(year)]);
    assert_valid_strict(person(1815), &schema);
    assert_invalid_kind(person(999), &schema, ErrorKind::Schema);
    // a field is missing
    assert_invalid_kind(list(vec![text("Ada"), text("Lovelace")]), &schema, ErrorKind::Schema);
    // one value more: an extension
    let extended = list(vec![text("Ada"), text("Lovelace"), Value::UInt(1815), list(vec![Value::Bool(true)])]);
    assert_eq!(validate(&extended, &schema, Config::strict()), Err(ErrorKind::Schema));
    assert_eq!(validate(&extended, &schema, Config::weak()), Ok(()));
    // an empty name
    assert_invalid_kind(list(vec![text(""), text("Lovelace"), Value::UInt(1815)]), &schema, ErrorKind::Schema);
}

fn enum_schema() -> TypeContainer {
    let mut builder = SchemaBuilder::new();
    let variant1 = builder.add("variant1", AnyType::Ascii(TAscii::try_new(1, 50, 0, 127).unwrap())).unwrap();
    let variant2_1 = builder.add("variant2_1", AnyType::Ascii(TAscii::try_new(1, 50, 0, 127).unwrap())).unwrap();
    let variant2_2 = builder.add("variant2_2", AnyType::SInt(TSInt::try_new(-10, 3000).unwrap())).unwrap();

    let enum_value = TEnum::default()
        .add(Variant::new(id("the_empty_variant")))
        .add(Variant::new(id("normal_variant")).add_value(variant1))
        .add(Variant::new(id("two_value_variant")).add_value(variant2_1).add_value(variant2_2));
    assert_eq!(enum_value.variant_by_id(&id("normal_variant")).unwrap().0, 1);
    assert!(enum_value.variant_by_id(&id("no_variant")).is_none());
    assert_eq!(enum_value.variants().len(), 3);
    assert_eq!(enum_value.variants()[2].values().len(), 2);
    assert!(enum_value.variants()[0].name().segments().len() == 3);
    let root = builder.add("root", AnyType::Enum(enum_value)).unwrap();
    builder.finish(root).unwrap()
}

#[test]
fn enum_variants_and_extensions() {
    let schema = enum_schema();
    let variant = |ordinal: u32, values: Vec<Value>| Value::Enum(ValueVariant::new_values(ordinal, values));
    assert_valid_strict(variant(0, vec![]), &schema);
    assert_valid_strict(variant(1, vec![text("hi")]), &schema);
    assert_valid_strict(variant(2, vec![text("hi"), Value::SInt(3000)]), &schema);
    assert_invalid_kind(variant(2, vec![text("hi"), Value::SInt(4000)]), &schema, ErrorKind::Schema);
    // not enough values
    assert_invalid_kind(variant(2, vec![text("hi")]), &schema, ErrorKind::Schema);
    // no such variant
    assert_invalid_kind(variant(3, vec![]), &schema, ErrorKind::Schema);
    // too many values: an extension
    let extended = variant(1, vec![text("hi"), Value::Bool(true)]);
    assert_eq!(validate(&extended, &schema, Config::strict()), Err(ErrorKind::Schema));
    assert_eq!(validate(&extended, &schema, Config::weak()), Ok(()));
    // values that the schema does not declare count for nothing
    assert_eq!(compare(&schema, &extended, &variant(1, vec![text("hi")])), Comparison::Equal);
    assert_eq!(compare(&schema, &variant(0, vec![]), &variant(1, vec![text("a")])), Comparison::Less);
    assert_eq!(
        compare(&schema, &variant(2, vec![text("a"), Value::SInt(2)]), &variant(2, vec![text("a"), Value::SInt(1)])),
        Comparison::Greater
    );
}

// ---- texts, binaries, the rest ----

#[test]
fn unicode_length_types() {
    let bytes = single_schema(AnyType::Unicode(TUnicode::try_new(1, 3, LengthType::Byte).unwrap()));
    assert_valid_strict(text("abc"), &bytes);
    assert_valid_strict(text("è"), &bytes);
    assert_invalid_kind(text("èè"), &bytes, ErrorKind::Schema);
    assert_invalid_kind(text(""), &bytes, ErrorKind::Schema);
    let scalars = single_schema(AnyType::Unicode(TUnicode::try_new(1, 3, LengthType::ScalarValue).unwrap()));
    assert_valid_strict(text("èèè"), &scalars);
    assert_invalid_kind(text("èèèè"), &scalars, ErrorKind::Schema);
    assert!(TUnicode::try_new(3, 1, LengthType::Utf8Byte).is_err());
}

#[test]
fn ascii_code_ranges() {
    let mut codes = CodeRange::try_new(48, 57 + 1).unwrap();
    codes.add(97, 122 + 1).unwrap();
    assert!(codes.add(5, 5).is_err());
    assert!(codes.add(100, 129).is_err());
    assert_eq!(codes.len(), 2);
    assert!(codes.contains(b'a') && codes.contains(b'9') && !codes.contains(b'A') && !codes.contains(b'{'));
    let schema = single_schema(AnyType::Ascii(TAscii::new(
        liquesco::ine_range::U64IneRange::try_new(1, 5).unwrap(),
        codes,
    )));
    assert_valid_strict(text("a1z09"), &schema);
    assert_invalid_kind(text("a1z090"), &schema, ErrorKind::Schema);
    assert_invalid_kind(text("A"), &schema, ErrorKind::Schema);
    assert_invalid_kind(text("_"), &schema, ErrorKind::Schema);
    assert_invalid_kind(text("é"), &schema, ErrorKind::Schema);
    let ascii = TAscii::try_new(1, 50, 0, 127).unwrap();
    assert_eq!(ascii.codes(), &[0, 127]);
    assert!(TAscii::try_new(1, 50, 0, 129).is_err());
}

#[test]
fn binary_uuid_bool_decimal() {
    let binary = single_schema(AnyType::Binary(TBinary::try_new(2, 3).unwrap()));
    assert_valid_strict(Value::Binary(vec![1, 2]), &binary);
    assert_invalid_kind(Value::Binary(vec![1]), &binary, ErrorKind::Schema);
    assert_invalid_kind(Value::Binary(vec![1, 2, 3, 4]), &binary, ErrorKind::Schema);
    assert_eq!(
        compare(&binary, &Value::Binary(vec![1, 2]), &Value::Binary(vec![1, 2, 0])),
        Comparison::Less
    );
    assert_eq!(
        compare(&binary, &Value::Binary(vec![2]), &Value::Binary(vec![1, 2, 0])),
        Comparison::Greater
    );
    let uuid = single_schema(AnyType::Uuid(TUuid::default()));
    assert_valid_strict(Value::Binary(vec![7; 16]), &uuid);
    assert_invalid_kind(Value::Binary(vec![7; 15]), &uuid, ErrorKind::Codec);
    let boolean = single_schema(AnyType::Bool(TBool::default()));
    assert_valid_strict(Value::Bool(false), &boolean);
    assert_eq!(compare(&boolean, &Value::Bool(false), &Value::Bool(true)), Comparison::Less);
    let decimal = single_schema(AnyType::Decimal(TDecimal::try_new(-1000, 1000, -2, 2).unwrap()));
    assert_valid_strict(list(vec![Value::SInt(-5), Value::SInt(2)]), &decimal);
    assert_invalid_kind(list(vec![Value::SInt(1001), Value::SInt(2)]), &decimal, ErrorKind::Schema);
    assert_invalid_kind(list(vec![Value::SInt(1), Value::SInt(3)]), &decimal, ErrorKind::Schema);
    assert_invalid_kind(list(vec![Value::SInt(1), Value::SInt(300)]), &decimal, ErrorKind::Codec);
    assert_invalid_kind(list(vec![Value::SInt(1)]), &decimal, ErrorKind::Schema);
}

#[test]
fn key_ref_without_a_map() {
    let schema = single_schema(AnyType::KeyRef(TKeyRef::default()));
    assert_invalid_kind(Value::UInt(0), &schema, ErrorKind::Reference);
}

#[test]
fn trailing_data_is_rejected() {
    let schema = single_schema(AnyType::Bool(TBool::default()));
    let data = vec![13, 13];
    let mut reader = SliceReader::new(&data);
    assert_eq!(schema.validate(Config::strict(), &mut reader).unwrap_err().kind(), ErrorKind::Codec);
}

// ---- the schema container ----

#[test]
fn references_have_to_point_at_types() {
    let mut builder = SchemaBuilder::new();
    let dangling = builder.add("option", AnyType::Option(TOption::new(TypeRef::new_numerical(7)))).unwrap();
    assert_eq!(builder.finish(dangling).unwrap_err().kind(), ErrorKind::Reference);
    let mut builder = SchemaBuilder::new();
    builder.add("bool", AnyType::Bool(TBool::default())).unwrap();
    assert_eq!(builder.finish(TypeRef::new_numerical(1)).unwrap_err().kind(), ErrorKind::Reference);
    let mut builder = SchemaBuilder::new();
    assert!(builder.add("Bool", AnyType::Bool(TBool::default())).is_err());
    builder.add("bool", AnyType::Bool(TBool::default())).unwrap();
    assert!(builder.add("bool", AnyType::Bool(TBool::default())).is_err());
}

#[test]
fn references_by_name() {
    let mut builder = SchemaBuilder::new();
    builder.add("flag", AnyType::Bool(TBool::default())).unwrap();
    let by_name = TypeRef::new_identifier(
        liquesco::identifier::StrIdentifier::try_from("flag".to_string()).unwrap(),
    );
    let root = builder.add("root", AnyType::Option(TOption::new(by_name))).unwrap();
    let schema = builder.finish(root).unwrap();
    assert_eq!(schema.len(), 2);
    assert_valid_strict(some(Value::Bool(true)), &schema);
    assert_invalid_strict(some(Value::UInt(1)), &schema);
    let unknown = TypeRef::new_identifier(
        liquesco::identifier::StrIdentifier::try_from("nothing".to_string()).unwrap(),
    );
    assert!(schema.maybe_type(&unknown).is_none());
    assert_eq!(schema.resolve(&unknown).unwrap_err().kind(), ErrorKind::Reference);
    assert!(matches!(schema.resolve(schema.root()).unwrap(), AnyType::Option(_)));
}

#[test]
fn recursive_types_end_with_the_data() {
    // a list of lists of lists ...: the type refers to itself
    let mut builder = SchemaBuilder::new();
    let root = builder
        .add("tree", AnyType::Sequence(TSeq::try_new(TypeRef::new_numerical(0), 0, 10).unwrap()))
        .unwrap();
    let schema = builder.finish(root).unwrap();
    assert_valid_strict(list(vec![list(vec![]), list(vec![list(vec![]), list(vec![])])]), &schema);
    assert_invalid_kind(list(vec![list(vec![Value::Bool(true)])]), &schema, ErrorKind::Codec);
}

#[test]
fn any_type_references_and_meta() {
    let mut map = AnyType::Mapping(TMap::new(TypeRef::new_numerical(1), TypeRef::new_numerical(2)));
    assert!(matches!(map.reference(0), Some(TypeRef::Numerical(1))));
    assert!(matches!(map.reference(1), Some(TypeRef::Numerical(2))));
    assert!(map.reference(2).is_none());
    map.set_reference(1, TypeRef::new_numerical(9)).unwrap();
    assert!(matches!(map.reference(1), Some(TypeRef::Numerical(9))));
    assert_eq!(map.set_reference(2, TypeRef::new_numerical(9)).unwrap_err().kind(), ErrorKind::Reference);
    let mut enumeration = AnyType::Enum(
        TEnum::default()
            .add_variant(Variant::new(id("a")).add_value(TypeRef::new_numerical(1)))
            .add_variant(Variant::new(id("b")))
            .add_variant(
                Variant::new(id("c")).add_value(TypeRef::new_numerical(2)).add_value(TypeRef::new_numerical(3)),
            ),
    );
    assert!(matches!(enumeration.reference(2), Some(TypeRef::Numerical(3))));
    assert!(enumeration.reference(3).is_none());
    enumeration.set_reference(1, TypeRef::new_numerical(8)).unwrap();
    assert!(matches!(enumeration.reference(0), Some(TypeRef::Numerical(1))));
    assert!(matches!(enumeration.reference(1), Some(TypeRef::Numerical(8))));
    assert!(matches!(enumeration.reference(2), Some(TypeRef::Numerical(3))));
    assert!(enumeration.set_reference(3, TypeRef::new_numerical(8)).is_err());
    let mut structure = AnyType::Struct(
        TStruct::default()
            .add(Field::new(id("x"), TypeRef::new_numerical(1)))
            .add(Field::new(id("y"), TypeRef::new_numerical(2))),
    );
    structure.set_reference(0, TypeRef::new_numerical(5)).unwrap();
    assert!(matches!(structure.reference(0), Some(TypeRef::Numerical(5))));
    assert!(matches!(structure.reference(1), Some(TypeRef::Numerical(2))));
    let boolean = AnyType::Bool(TBool::default()).with_doc("a flag");
    assert_eq!(boolean.meta().doc(), Some("a flag"));
    assert!(boolean.meta().name().is_none());
    assert!(boolean.reference(0).is_none());
}

#[test]
fn uint_validator() {
    let validator = VUInt::try_new(5, 10).unwrap();
    assert!(VUInt::try_new(10, 5).is_err());
    let mut writer = VecWriter::new();
    validator.serialize(&mut writer);
    let data = writer.into_vec();
    assert_eq!(data, vec![3 * 13 + 8, 131, 5, 131, 10]);
    let mut reader = SliceReader::new(&data);
    let back = VUInt::de_serialize(&mut reader).unwrap();
    assert_eq!(back, validator);
    let check = |v: u64| {
        let mut writer = VecWriter::new();
        liquesco::types::uint::UInt64::serialize(&mut writer, &v);
        let data = writer.into_vec();
        let mut reader = SliceReader::new(&data);
        validator.validate(&mut reader).map_err(|e| e.kind())
    };
    assert_eq!(check(5), Ok(()));
    assert_eq!(check(10), Ok(()));
    assert_eq!(check(4), Err(ErrorKind::Schema));
    assert_eq!(check(11), Err(ErrorKind::Schema));
    // a validator with one value more than is read
    let extended = vec![3 * 13 + 10, 3, 131, 5, 131, 10, 13];
    let mut reader = SliceReader::new(&extended);
    assert_eq!(VUInt::de_serialize(&mut reader).unwrap(), validator);
    assert!(reader.finish().is_ok());
    let short = vec![3 * 13 + 7, 131, 5];
    let mut reader = SliceReader::new(&short);
    assert_eq!(VUInt::de_serialize(&mut reader).unwrap_err().kind(), ErrorKind::Schema);
}

#[test]
fn rows_keep_their_items_beyond_what_they_hold_in_place() {
    // seven fields, of which the fourth gets another type
    let mut structure = TStruct::default();
    for (i, name) in ["a", "b", "c", "d", "e", "f", "g"].iter().enumerate() {
        structure = structure.add(Field::new(id(name), TypeRef::new_numerical(i as u32)));
    }
    let mut structure = AnyType::Struct(structure);
    structure.set_reference(3, TypeRef::new_numerical(30)).unwrap();
    structure.set_reference(6, TypeRef::new_numerical(60)).unwrap();
    let expected = [0u32, 1, 2, 30, 4, 5, 60];
    for (i, wanted) in expected.iter().enumerate() {
        assert!(matches!(structure.reference(i), Some(TypeRef::Numerical(n)) if n == wanted));
    }
    assert!(structure.reference(7).is_none());
    match &structure {
        AnyType::Struct(s) => {
            let names: Vec<String> =
                s.fields().iter().map(|f| f.identifier().to_string(Format::SnakeCase)).collect();
            assert_eq!(names, vec!["a", "b", "c", "d", "e", "f", "g"]);
        }
        _ => panic!("no structure"),
    }
    // seven variants, the last with five values
    let mut enumeration = TEnum::default();
    for name in ["p", "q", "r", "s", "t", "u"] {
        enumeration = enumeration.add_variant(Variant::new(id(name)).add_value(TypeRef::new_numerical(1)));
    }
    let mut last = Variant::new(id("v"));
    for i in 0..5u32 {
        last = last.add_value(TypeRef::new_numerical(10 + i));
    }
    assert_eq!(last.values().len(), 5);
    let mut enumeration = AnyType::Enum(enumeration.add_variant(last));
    enumeration.set_reference(10, TypeRef::new_numerical(99)).unwrap();
    enumeration.set_reference(2, TypeRef::new_numerical(77)).unwrap();
    let expected = [1u32, 1, 77, 1, 1, 1, 10, 11, 12, 13, 99];
    for (i, wanted) in expected.iter().enumerate() {
        assert!(matches!(enumeration.reference(i), Some(TypeRef::Numerical(n)) if n == wanted));
    }
    assert!(enumeration.reference(11).is_none());
    match &enumeration {
        AnyType::Enum(e) => {
            assert_eq!(e.variants().len(), 7);
            assert_eq!(e.variants()[6].name().to_string(Format::SnakeCase), "v");
            assert_eq!(e.variants()[2].values().len(), 1);
        }
        _ => panic!("no enumeration"),
    }
}

#[test]
fn comparisons_reverse_and_chain() {
    assert_eq!(Comparison::Less.reverse(), Comparison::Greater);
    assert_eq!(Comparison::Greater.reverse(), Comparison::Less);
    assert_eq!(Comparison::Equal.reverse(), Comparison::Equal);
    assert_eq!(Comparison::Equal.then(Comparison::Less), Comparison::Less);
    assert_eq!(Comparison::Greater.then(Comparison::Less), Comparison::Greater);
    assert_eq!(Comparison::Equal.then(Comparison::Equal), Comparison::Equal);
    let option = TOption::new(TypeRef::new_numerical(4));
    assert!(matches!(option.inner_type(), TypeRef::Numerical(4)));
}

#[test]
fn new_types_have_no_metadata() {
    let range = AnyType::Range(TRange::new(TypeRef::new_numerical(3), Inclusion::Supplied, true));
    assert!(range.meta().doc().is_none());
    assert!(range.meta().name().is_none());
    assert!(matches!(range.reference(0), Some(TypeRef::Numerical(3))));
    assert!(range.reference(1).is_none());
    for any_type in [
        AnyType::Bool(TBool::default()),
        AnyType::UInt(TUInt::try_new(0, 1).unwrap()),
        AnyType::SInt(TSInt::try_new(0, 1).unwrap()),
        AnyType::Option(TOption::new(TypeRef::new_numerical(0))),
        AnyType::Sequence(TSeq::try_new(TypeRef::new_numerical(0), 0, 1).unwrap().with_multiple_of(2)),
        AnyType::Struct(TStruct::default().add(Field::new(id("a"), TypeRef::new_numerical(0)))),
        AnyType::Enum(TEnum::default().add_variant(Variant::new(id("a")))),
        AnyType::Float32(TFloat32::full().with_allow_nan(true)),
        AnyType::KeyRef(TKeyRef::default()),
    ] {
        assert!(any_type.meta().doc().is_none());
        assert!(any_type.meta().name().is_none());
    }
}
