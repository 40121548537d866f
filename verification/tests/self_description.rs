use liquesco::error::ErrorKind;
use liquesco::identifier::{Format, Identifier, StrIdentifier};
use liquesco::ine_range::U32IneRange;
use liquesco::schema::any_type::AnyType;
use liquesco::schema::container::{SchemaBuilder, TypeContainer};
use liquesco::schema::document::{
    de_serialize_field, schema_value, serialize_field, serialize_schema,
};
use liquesco::schema::schema_schema::schema_schema;
use liquesco::schema::type_ref::{Config, TypeRef};
use liquesco::schema::types::ascii::TAscii;
use liquesco::schema::types::binary::TBinary;
use liquesco::schema::types::boolean::TBool;
use liquesco::schema::types::decimal::TDecimal;
use liquesco::schema::types::enumeration::{TEnum, Variant};
use liquesco::schema::types::float::{TFloat32, TFloat64};
use liquesco::schema::types::key_ref::TKeyRef;
use liquesco::schema::types::map::{Sorting, TMap};
use liquesco::schema::types::option::TOption;
use liquesco::schema::types::range::{Inclusion, TRange};
use liquesco::schema::types::root_map::TRootMap;
use liquesco::schema::types::seq::{Direction, Order, TSeq};
use liquesco::schema::types::sint::TSInt;
use liquesco::schema::types::structure::{Field, TStruct};
use liquesco::schema::types::uint::TUInt;
use liquesco::schema::types::unicode::{LengthType, TUnicode};
use liquesco::schema::types::uuid::TUuid;
use liquesco::slice_reader::SliceReader;
use liquesco::value::Value;
use liquesco::vec_writer::VecWriter;

fn document_of(schema: &TypeContainer) -> Vec<u8> {
    let mut writer = VecWriter::new();
    serialize_schema(schema, &mut writer).unwrap();
    writer.into_vec()
}

fn described(meta: &TypeContainer, schema: &TypeContainer) -> Result<(), ErrorKind> {
    let data = document_of(schema);
    let mut reader = SliceReader::new(&data);
    meta.validate(Config::strict(), &mut reader).map_err(|e| e.kind())
}

fn id(text: &str) -> Identifier {
    Identifier::try_from(text).unwrap()
}

fn schema_of_every_kind() -> TypeContainer {
    let mut builder = SchemaBuilder::new();
    let flag = builder.add("flag", AnyType::Bool(TBool::default()).with_doc("yes or no")).unwrap();
    let maybe = builder.add("maybe", AnyType::Option(TOption::new(flag.duplicate()))).unwrap();
    let number = builder.add("number", AnyType::UInt(TUInt::try_new(5, 150).unwrap())).unwrap();
    let signed = builder.add("signed", AnyType::SInt(TSInt::try_new(-5, 150).unwrap())).unwrap();
    let sorted = builder
        .add(
            "sorted",
            AnyType::Sequence(
                TSeq::try_new(number.duplicate(), 0, 10)
                    .unwrap()
                    .with_ordering(Order::Sorted { direction: Direction::Descending, unique: true })
                    .with_multiple_of(2),
            ),
        )
        .unwrap();
    let binary = builder.add("binary", AnyType::Binary(TBinary::try_new(0, 7).unwrap())).unwrap();
    let text = builder
        .add("text", AnyType::Unicode(TUnicode::try_new(0, 7, LengthType::ScalarValue).unwrap()))
        .unwrap();
    let ascii = builder.add("ascii", AnyType::Ascii(TAscii::try_new(1, 7, 32, 128).unwrap())).unwrap();
    let uuid = builder.add("uuid", AnyType::Uuid(TUuid::default())).unwrap();
    let single = builder
        .add(
            "single",
            AnyType::Float32(TFloat32::try_new((-1.5f32).to_bits(), 2.5f32.to_bits()).unwrap().with_allow_nan(true)),
        )
        .unwrap();
    let double = builder.add("double", AnyType::Float64(TFloat64::full().with_allow_subnormal(true))).unwrap();
    let decimal = builder.add("decimal", AnyType::Decimal(TDecimal::try_new(-10, 10, -2, 2).unwrap())).unwrap();
    let range = builder
        .add("range", AnyType::Range(TRange::new(signed.duplicate(), Inclusion::Supplied, true)))
        .unwrap();
    let key_ref = builder.add("key_ref", AnyType::KeyRef(TKeyRef::default())).unwrap();
    let by_name = TypeRef::new_identifier(StrIdentifier::try_from("flag".to_string()).unwrap());
    let structure = builder
        .add(
            "structure",
            AnyType::Struct(
                TStruct::default()
                    .add(Field::new(id("first_field"), maybe))
                    .add(Field::new(id("second"), sorted))
                    .add(Field::new(id("third"), by_name)),
            ),
        )
        .unwrap();
    let enumeration = builder
        .add(
            "enumeration",
            AnyType::Enum(
                TEnum::default()
                    .add(Variant::new(id("none")))
                    .add(Variant::new(id("one")).add_value(binary))
                    .add(Variant::new(id("two")).add_value(text).add_value(ascii)),
            ),
        )
        .unwrap();
    let map = builder
        .add(
            "map",
            AnyType::Mapping(
                TMap::new(uuid, single)
                    .with_sorting(Sorting::Descending)
                    .with_length(U32IneRange::try_new(1, 9).unwrap())
                    .with_anchors(true),
            ),
        )
        .unwrap();
    builder.add("unused", AnyType::Sequence(TSeq::try_new(double, 0, 1).unwrap())).unwrap();
    builder.add("more", AnyType::Sequence(TSeq::try_new(decimal, 0, 1).unwrap())).unwrap();
    builder.add("ranges", AnyType::Sequence(TSeq::try_new(range, 0, 1).unwrap())).unwrap();
    builder.add("structures", AnyType::Sequence(TSeq::try_new(structure, 0, 1).unwrap())).unwrap();
    builder.add("maps", AnyType::Sequence(TSeq::try_new(map, 0, 1).unwrap())).unwrap();
    let root = builder.add("root", AnyType::RootMap(TRootMap::new(key_ref, number, enumeration))).unwrap();
    builder.finish(root).unwrap()
}

#[test]
fn the_schema_of_schemas_validates_itself() {
    let meta = schema_schema();
    assert_eq!(described(&meta, &meta), Ok(()));
    // what is written is one value, and it is read back as it was written
    let data = document_of(&meta);
    let mut reader = SliceReader::new(&data);
    let value = Value::de_serialize(&mut reader).unwrap();
    assert!(reader.finish().is_ok());
    let mut writer = VecWriter::new();
    Value::serialize(&mut writer, &value).unwrap();
    assert_eq!(writer.into_vec(), data);
    let mut writer = VecWriter::new();
    Value::serialize(&mut writer, &schema_value(&meta).unwrap()).unwrap();
    assert_eq!(writer.into_vec(), data);
}

#[test]
fn the_schema_of_schemas_describes_every_kind_of_type() {
    let meta = schema_schema();
    assert_eq!(described(&meta, &schema_of_every_kind()), Ok(()));
}

#[test]
fn the_schema_of_schemas_rejects_what_is_no_schema() {
    let meta = schema_schema();
    // a schema whose root points behind its types
    let broken = TypeContainer {
        types: vec![AnyType::Bool(TBool::default())],
        names: vec![StrIdentifier::try_from("flag".to_string()).unwrap()],
        root: TypeRef::new_numerical(1),
    };
    assert_eq!(described(&meta, &broken), Err(ErrorKind::Reference));
    // a reference by a name that the schema does not know
    let unknown = TypeContainer {
        types: vec![AnyType::Option(TOption::new(TypeRef::new_identifier(
            StrIdentifier::try_from("nothing".to_string()).unwrap(),
        )))],
        names: vec![StrIdentifier::try_from("option".to_string()).unwrap()],
        root: TypeRef::new_numerical(0),
    };
    let mut writer = VecWriter::new();
    assert_eq!(serialize_schema(&unknown, &mut writer).unwrap_err().kind(), ErrorKind::Reference);
    // a document that is cut short
    let mut data = document_of(&meta);
    data.pop();
    let mut reader = SliceReader::new(&data);
    assert!(meta.validate(Config::strict(), &mut reader).is_err());
    // a boolean is no schema
    let mut reader = SliceReader::new(&[13]);
    assert_eq!(meta.validate(Config::strict(), &mut reader).unwrap_err().kind(), ErrorKind::Codec);
}

#[test]
fn the_schema_of_schemas_holds_its_types_in_order() {
    let meta = schema_schema();
    assert_eq!(meta.len(), 118);
    assert_eq!(meta.names.len(), 118);
    assert!(matches!(meta.root(), TypeRef::Numerical(117)));
    assert_eq!(meta.names[0].as_string(), "bool_meta_text");
    assert_eq!(meta.names[1].as_string(), "bool_meta_maybe_text");
    assert_eq!(meta.names[2].as_string(), "bool");
    assert_eq!(meta.names[111].as_string(), "any_type");
    assert_eq!(meta.names[112].as_string(), "schema_name_segment");
    assert_eq!(meta.names[117].as_string(), "schema");
    assert!(matches!(meta.types[111], AnyType::Enum(_)));
    assert!(matches!(meta.types[117], AnyType::RootMap(_)));
    // no name stands twice
    for (i, name) in meta.names.iter().enumerate() {
        for other in meta.names.iter().skip(i + 1) {
            assert_ne!(name.as_string(), other.as_string());
        }
    }
    // every type refers only to types before it
    for (i, any_type) in meta.types.iter().enumerate() {
        let mut index = 0;
        while let Some(reference) = any_type.reference(index) {
            match reference {
                TypeRef::Numerical(target) => assert!((*target as usize) < i),
                TypeRef::Identifier(_) => panic!("a reference by name"),
            }
            index += 1;
        }
    }
    // the type of all types has one case for each kind
    match &meta.types[111] {
        AnyType::Enum(cases) => {
            let names: Vec<String> =
                cases.variants().iter().map(|v| v.name().to_string(Format::SnakeCase)).collect();
            assert_eq!(
                names,
                vec![
                    "bool", "option", "seq", "binary", "unicode", "uint", "sint", "f32", "f64",
                    "enum", "struct", "map", "root_map", "key_ref", "ascii", "uuid", "range",
                    "decimal"
                ]
            );
        }
        _ => panic!("no enumeration"),
    }
}

#[test]
fn a_kind_of_type_is_described_by_a_structure() {
    let mut builder = SchemaBuilder::new();
    let structure = TUInt::build_schema(&mut builder);
    let fields: Vec<String> =
        structure.fields().iter().map(|f| f.identifier().to_string(Format::SnakeCase)).collect();
    assert_eq!(fields, vec!["meta_doc", "meta_name", "range"]);
    let names: Vec<&str> = builder.names.iter().map(|n| n.as_string()).collect();
    assert_eq!(names, vec!["uint_meta_text", "uint_meta_maybe_text", "uint_range_end", "uint_range"]);
    assert!(matches!(structure.fields()[2].type_ref(), TypeRef::Numerical(3)));
    assert!(matches!(structure.fields()[0].type_ref(), TypeRef::Numerical(1)));
    // another kind goes into the same builder
    let structure = TSeq::build_schema(&mut builder);
    assert_eq!(structure.fields().len(), 6);
    assert_eq!(builder.types.len(), 4 + 12 - 1);
    let floats = TFloat32::build_schema(&mut builder);
    assert_eq!(floats.fields().len(), 10);
    assert_eq!(floats.fields()[9].identifier().to_string(Format::SnakeCase), "allow_subnormal");
}

#[test]
fn a_builder_refuses_names_that_are_taken_and_open_references() {
    let mut builder = SchemaBuilder::new();
    let flag = builder.add("flag", AnyType::Bool(TBool::default())).unwrap();
    assert!(matches!(flag, TypeRef::Numerical(0)));
    assert_eq!(
        builder.add("flag", AnyType::Bool(TBool::default())).unwrap_err().kind(),
        ErrorKind::Schema
    );
    assert_eq!(
        builder.add("Flag", AnyType::Bool(TBool::default())).unwrap_err().kind(),
        ErrorKind::Schema
    );
    let open = builder.add("open", AnyType::Option(TOption::new(TypeRef::new_numerical(7)))).unwrap();
    assert_eq!(builder.finish(open).unwrap_err().kind(), ErrorKind::Reference);
    let mut builder = SchemaBuilder::new();
    let flag = builder.add("flag", AnyType::Bool(TBool::default())).unwrap();
    let mut cases = TEnum::default();
    cases = cases.add_variant(Variant::new(Identifier::try_from("a").unwrap()).add_value(flag));
    cases = cases.add_variant(
        Variant::new(Identifier::try_from("b").unwrap()).add_value(TypeRef::new_numerical(9)),
    );
    let root = builder.add("cases", AnyType::Enum(cases)).unwrap();
    assert_eq!(builder.finish(root).unwrap_err().kind(), ErrorKind::Reference);
    let mut builder = SchemaBuilder::new();
    let flag = builder.add("flag", AnyType::Bool(TBool::default())).unwrap();
    assert!(builder.finish(flag).is_ok());
    assert_eq!(
        SchemaBuilder::new().finish(TypeRef::new_numerical(0)).unwrap_err().kind(),
        ErrorKind::Reference
    );
}

fn bytes_of(value: &Value) -> Vec<u8> {
    let mut writer = VecWriter::new();
    Value::serialize(&mut writer, value).unwrap();
    writer.into_vec()
}

#[test]
fn the_document_of_a_small_schema() {
    let mut builder = SchemaBuilder::new();
    let flag = builder
        .add("my_flag", AnyType::Bool(TBool::default()).with_doc("yes or no"))
        .unwrap();
    let maybe = builder.add("maybe", AnyType::Option(TOption::new(flag))).unwrap();
    let schema = builder.finish(maybe).unwrap();
    let text = |s: &str| Value::Unicode(s.to_string());
    let present = |v: Value| Value::Option(Some(Box::new(v)));
    let absent = || Value::Option(None);
    let case = |ordinal: u32, fields: Vec<Value>| {
        Value::Enum(liquesco::value::ValueVariant::new(ordinal, Value::List(fields)))
    };
    let expected = Value::List(vec![
        Value::UInt(1),
        Value::List(vec![
            Value::List(vec![
                Value::UInt(0),
                Value::List(vec![
                    Value::List(vec![text("my"), text("flag")]),
                    case(0, vec![present(text("yes or no")), absent()]),
                ]),
            ]),
            Value::List(vec![
                Value::UInt(1),
                Value::List(vec![
                    Value::List(vec![text("maybe")]),
                    case(1, vec![absent(), absent(), Value::UInt(0)]),
                ]),
            ]),
        ]),
    ]);
    assert_eq!(bytes_of(&schema_value(&schema).unwrap()), bytes_of(&expected));
    assert_eq!(document_of(&schema), bytes_of(&expected));
    assert_eq!(described(&schema_schema(), &schema), Ok(()));
    // a reference by name is written as the index of the type of that name
    let by_name = TypeContainer {
        types: vec![
            AnyType::Bool(TBool::default()),
            AnyType::Option(TOption::new(TypeRef::new_identifier(
                StrIdentifier::try_from("flag".to_string()).unwrap(),
            ))),
        ],
        names: vec![
            StrIdentifier::try_from("flag".to_string()).unwrap(),
            StrIdentifier::try_from("maybe".to_string()).unwrap(),
        ],
        root: TypeRef::new_numerical(1),
    };
    let by_index = TypeContainer {
        types: vec![
            AnyType::Bool(TBool::default()),
            AnyType::Option(TOption::new(TypeRef::new_numerical(0))),
        ],
        names: vec![
            StrIdentifier::try_from("flag".to_string()).unwrap(),
            StrIdentifier::try_from("maybe".to_string()).unwrap(),
        ],
        root: TypeRef::new_numerical(1),
    };
    assert_eq!(document_of(&by_name), document_of(&by_index));
    // a type without a name has no document
    let nameless = TypeContainer {
        types: vec![AnyType::Bool(TBool::default())],
        names: vec![],
        root: TypeRef::new_numerical(0),
    };
    assert_eq!(schema_value(&nameless).unwrap_err().kind(), ErrorKind::Reference);
}

#[test]
fn a_field_is_written_and_read_back() {
    let schema = schema_of_every_kind();
    let field = Field::new(id("year_born"), TypeRef::new_numerical(7));
    let mut writer = VecWriter::new();
    serialize_field(&field, &schema, &mut writer).unwrap();
    let data = writer.into_vec();
    // a sequence of two: the segments of the name, and the index
    let mut expected = vec![3 * 13 + 8, 3 * 13 + 8, 5 * 13 + 3];
    expected.extend_from_slice(b"year");
    expected.push(5 * 13 + 3);
    expected.extend_from_slice(b"born");
    expected.extend_from_slice(&[10 * 13 + 1, 7]);
    assert_eq!(data, expected);
    let mut reader = SliceReader::new(&data);
    let read = de_serialize_field(&mut reader).unwrap();
    assert!(reader.finish().is_ok());
    assert_eq!(read.identifier().to_string(Format::SnakeCase), "year_born");
    assert!(matches!(read.type_ref(), TypeRef::Numerical(7)));
    // a type that is given by its name is written as its index
    let by_name = Field::new(
        id("x"),
        TypeRef::new_identifier(StrIdentifier::try_from("number".to_string()).unwrap()),
    );
    let mut writer = VecWriter::new();
    serialize_field(&by_name, &schema, &mut writer).unwrap();
    let data = writer.into_vec();
    let mut reader = SliceReader::new(&data);
    assert!(matches!(de_serialize_field(&mut reader).unwrap().type_ref(), TypeRef::Numerical(2)));
    let unknown = Field::new(
        id("x"),
        TypeRef::new_identifier(StrIdentifier::try_from("nothing".to_string()).unwrap()),
    );
    let mut writer = VecWriter::new();
    assert_eq!(
        serialize_field(&unknown, &schema, &mut writer).unwrap_err().kind(),
        ErrorKind::Reference
    );
    assert!(writer.into_vec().is_empty());
    // what is no pair of a name and an index
    for (bad, kind) in [
        (vec![3 * 13 + 7, 10 * 13 + 1, 7], ErrorKind::Codec),
        (vec![3 * 13 + 8, 3 * 13, 10 * 13 + 1, 7], ErrorKind::Schema),
        (vec![3 * 13 + 8, 3 * 13 + 7, 5 * 13 + 1, b'A', 10 * 13 + 1, 7], ErrorKind::Schema),
        (vec![3 * 13 + 8, 3 * 13 + 7, 5 * 13 + 1, b'a', 1], ErrorKind::Codec),
        (vec![3 * 13 + 8, 3 * 13 + 7, 5 * 13 + 1, b'a'], ErrorKind::Codec),
        (vec![3 * 13 + 8, 3 * 13 + 7, 5 * 13 + 1, b'a', 10 * 13 + 8, 0, 0, 0, 0, 1, 0, 0, 0], ErrorKind::Codec),
    ] {
        let mut reader = SliceReader::new(&bad);
        assert_eq!(de_serialize_field(&mut reader).unwrap_err().kind(), kind, "{:?}", bad);
    }
}

#[test]
fn the_types_of_the_schema_of_schemas_have_their_shapes() {
    let meta = schema_schema();
    let name = |i: usize| meta.names[i].as_string().to_string();
    // the types that describe ranges: element, inclusion, and whether empty ranges are allowed
    assert_eq!(name(100), "range_element");
    assert!(matches!(meta.types[100], AnyType::KeyRef(_)));
    assert_eq!(name(101), "range_inclusion");
    match &meta.types[101] {
        AnyType::Enum(e) => {
            let names: Vec<String> =
                e.variants().iter().map(|v| v.name().to_string(Format::SnakeCase)).collect();
            assert_eq!(
                names,
                vec!["both_inclusive", "start_inclusive", "both_exclusive", "end_inclusive", "supplied"]
            );
            assert!(e.variants().iter().all(|v| v.values().is_empty()));
        }
        _ => panic!("no enumeration"),
    }
    assert_eq!(name(102), "range_allow_empty");
    assert!(matches!(meta.types[102], AnyType::Bool(_)));
    match &meta.types[103] {
        AnyType::Struct(s) => {
            let fields: Vec<(String, u32)> = s
                .fields()
                .iter()
                .map(|f| match f.type_ref() {
                    TypeRef::Numerical(i) => (f.identifier().to_string(Format::SnakeCase), *i),
                    _ => panic!("a reference by name"),
                })
                .collect();
            assert_eq!(
                fields,
                vec![
                    ("meta_doc".to_string(), 99),
                    ("meta_name".to_string(), 99),
                    ("element".to_string(), 100),
                    ("inclusion".to_string(), 101),
                    ("allow_empty".to_string(), 102),
                ]
            );
        }
        _ => panic!("no structure"),
    }
    // the type of all types: a case for each kind, with the structure of the kind as its value
    match &meta.types[111] {
        AnyType::Enum(e) => {
            let values: Vec<u32> = e
                .variants()
                .iter()
                .map(|v| match v.values() {
                    [TypeRef::Numerical(i)] => *i,
                    _ => panic!("not one value"),
                })
                .collect();
            assert_eq!(
                values,
                vec![2, 6, 18, 23, 29, 34, 39, 44, 49, 58, 66, 75, 84, 87, 94, 97, 103, 110]
            );
            for index in values {
                assert!(matches!(meta.types[index as usize], AnyType::Struct(_)));
            }
        }
        _ => panic!("no enumeration"),
    }
    // the types of the schema itself
    assert!(matches!(meta.types[112], AnyType::Ascii(_)));
    assert!(matches!(meta.types[113], AnyType::Sequence(_)));
    assert!(matches!(meta.types[114], AnyType::Struct(_)));
    assert!(matches!(meta.types[115], AnyType::UInt(_)));
    assert!(matches!(meta.types[116], AnyType::KeyRef(_)));
    assert!(matches!(meta.types[117], AnyType::RootMap(_)));
    // every type is documented and has no name of its own
    for any_type in &meta.types {
        assert!(any_type.meta().doc().is_some());
        assert!(any_type.meta().name().is_none());
    }
}
