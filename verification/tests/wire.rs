use liquesco::error::ErrorKind;
use liquesco::slice_reader::SliceReader;
use liquesco::types::float::Float;
use liquesco::types::sint::{SInt128, SInt8};
use liquesco::types::uint::{UInt128, UInt8};
use liquesco::types::unicode::Unicode;
use liquesco::value::{Value, ValueVariant};
use liquesco::vec_writer::VecWriter;
use liquesco::wire::{ContentDescription, ContentInfo, HeaderByte, MajorType};

fn to_bytes(value: &Value) -> Vec<u8> {
    let mut writer = VecWriter::new();
    Value::serialize(&mut writer, value).unwrap();
    writer.into_vec()
}

fn from_bytes(data: &[u8]) -> Result<Value, liquesco::error::LqError> {
    let mut reader = SliceReader::new(data);
    let value = Value::de_serialize(&mut reader)?;
    reader.finish()?;
    Ok(value)
}

fn check_value(value: &Value) {
    let data = to_bytes(value);
    let back = from_bytes(&data).unwrap();
    assert_eq!(format!("{:?}", value), format!("{:?}", back));
    assert_eq!(to_bytes(&back), data);
    // skipping ends where reading ends
    let mut reader = SliceReader::new(&data);
    reader.skip().unwrap();
    assert!(reader.finish().is_ok());
}

fn text(s: &str) -> Value {
    Value::Unicode(s.to_string())
}

fn assert_string_serde_eq(string: &'static str) {
    let mut writer = VecWriter::new();
    Unicode::serialize(&mut writer, string);
    let binary = writer.into_vec();
    let mut reader = SliceReader::new(binary.as_slice());
    let restored = Unicode::de_serialize(&mut reader).unwrap();
    assert_eq!(string, restored);
}

#[test]
fn small_strings_utf8() {
    assert_string_serde_eq("hello");
}

#[test]
fn strings_of_every_descriptor_layout() {
    assert_string_serde_eq("");
    assert_string_serde_eq("1");
    assert_string_serde_eq("1è");
    assert_string_serde_eq("1èf");
    assert_string_serde_eq("1èfö");
    assert_string_serde_eq("hello6");
    assert_string_serde_eq("hello67");
    assert_string_serde_eq("hello678");
    assert_string_serde_eq("0123456789abcdef");
    assert_string_serde_eq("0123456789abcdef0");
}

#[test]
fn no_value_enum() {
    check_value(&Value::Enum(ValueVariant::new_no_value(0)));
    check_value(&Value::Enum(ValueVariant::new_no_value(1)));
    check_value(&Value::Enum(ValueVariant::new_no_value(17000)));
}

#[test]
fn with_value_enum() {
    let value = text("hello");
    check_value(&Value::Enum(ValueVariant::new(45_345_233, value)));
}

#[test]
fn test_none() {
    check_value(&Value::Option(None));
}

#[test]
fn test_some() {
    check_value(&Value::Option(Some(Box::new(text("hello")))));
}

#[test]
fn empty_struct() {
    check_value(&Value::List(vec![]));
}

#[test]
fn one_field_struct() {
    check_value(&Value::List(vec![Value::UInt(45584)]));
}

#[test]
fn two_fields_struct() {
    check_value(&Value::List(vec![
        Value::Float(Float::F64(45584.5f64.to_bits())),
        Value::Float(Float::F64(4.487f64.to_bits())),
    ]));
}

#[test]
fn three_fields_struct() {
    check_value(&Value::List(vec![text("Albert"), text("Einstein"), Value::UInt(141)]));
}

#[test]
fn tuples() {
    check_value(&Value::List(vec![]));
    check_value(&text("Hello"));
    check_value(&Value::List(vec![text("Hello"), text("World")]));
    check_value(&Value::List(vec![text("Hello"), text("World"), Value::SInt(345)]));
    check_value(&Value::List(vec![
        text("Hello"),
        text("World"),
        Value::SInt(345),
        Value::Bool(false),
    ]));
    check_value(&Value::List(vec![
        text("Hello"),
        text("World"),
        Value::SInt(345),
        Value::Bool(false),
        text("end"),
    ]));
    check_value(&Value::List(vec![
        text("Hello"),
        text("World"),
        Value::SInt(345),
        Value::Bool(false),
        text("end"),
        Value::List(vec![]),
    ]));
}

#[test]
fn bytes_slice() {
    let slice: &'static [u8] = &[4, 0, 45, 0, 0, 0, 4, 78, 254, 255, 0];
    check_value(&Value::Binary(slice.to_vec()));
}

#[test]
fn tuple_and_struct_serialize_to_same1() {
    let structure = Value::List(vec![
        Value::Float(Float::F64(48.447f64.to_bits())),
        Value::Float(Float::F64(47.3f64.to_bits())),
    ]);
    let mut tuple = Vec::new();
    tuple.push(Value::Float(Float::F64(48.447f64.to_bits())));
    tuple.push(Value::Float(Float::F64(47.3f64.to_bits())));
    assert_eq!(to_bytes(&structure), to_bytes(&Value::List(tuple)));
}

#[test]
fn tuple_and_struct_serialize_to_same2() {
    let structure = Value::List(vec![text("Maximus"), text("Muster"), Value::UInt(45878)]);
    let mut tuple = Vec::new();
    tuple.push(text("Maximus"));
    tuple.push(text("Muster"));
    tuple.push(Value::UInt(45878));
    assert_eq!(to_bytes(&structure), to_bytes(&Value::List(tuple)));
}

#[test]
fn vec_and_struct_serialize_to_same() {
    let structure = Value::List(vec![
        Value::Float(Float::F64(4587.0f64.to_bits())),
        Value::Float(Float::F64(47.244_774_7f64.to_bits())),
    ]);
    let list: Vec<Value> = [4587.0f64, 47.244_774_7f64]
        .iter()
        .map(|f| Value::Float(Float::F64(f.to_bits())))
        .collect();
    assert_eq!(to_bytes(&structure), to_bytes(&Value::List(list)));
}

#[test]
fn vec_and_tuple_serialize_to_same() {
    let tuple = Value::List(vec![text("this"), text("is"), text("a"), text("text")]);
    let list: Vec<Value> = ["this", "is", "a", "text"].iter().map(|s| text(s)).collect();
    assert_eq!(to_bytes(&tuple), to_bytes(&Value::List(list)));
}

#[test]
fn header_byte_packs_major_type_and_content_info() {
    let header = HeaderByte::new(ContentInfo::Len2, MajorType::new(10));
    assert_eq!(header.id(), 10 * 13 + 2);
    assert_eq!(header.major_type().id(), 10);
    assert_eq!(header.content_info(), ContentInfo::Len2);
    assert_eq!(HeaderByte::from_u8(255).major_type().id(), 19);
    assert_eq!(HeaderByte::from_u8(12).content_info(), ContentInfo::Reserved);
}

fn descriptor(major: u8, self_length: u64, items: u32) -> Vec<u8> {
    let mut writer = VecWriter::new();
    let mut description = ContentDescription::default();
    description.set_self_length(self_length);
    description.set_number_of_embedded_items(items);
    writer.write_content_description(MajorType::new(major), &description).unwrap();
    writer.into_vec()
}

#[test]
fn content_description_picks_the_smallest_layout() {
    assert_eq!(descriptor(4, 0, 0), vec![4 * 13]);
    assert_eq!(descriptor(4, 1, 0), vec![4 * 13 + 1]);
    assert_eq!(descriptor(4, 2, 0), vec![4 * 13 + 2]);
    assert_eq!(descriptor(4, 4, 0), vec![4 * 13 + 3]);
    assert_eq!(descriptor(4, 8, 0), vec![4 * 13 + 4]);
    assert_eq!(descriptor(4, 16, 0), vec![4 * 13 + 5]);
    assert_eq!(descriptor(4, 3, 0), vec![4 * 13 + 6, 3]);
    assert_eq!(descriptor(4, 300, 0), vec![4 * 13 + 6, 241, 60]);
    assert_eq!(descriptor(3, 0, 1), vec![3 * 13 + 7]);
    assert_eq!(descriptor(3, 0, 2), vec![3 * 13 + 8]);
    assert_eq!(descriptor(13, 1, 1), vec![13 * 13 + 9]);
    assert_eq!(descriptor(3, 0, 3), vec![3 * 13 + 10, 3]);
    assert_eq!(descriptor(13, 2, 3), vec![13 * 13 + 11, 3, 2]);
    assert_eq!(descriptor(13, 1, 2), vec![13 * 13 + 11, 2, 1]);
}

#[test]
fn content_description_of_a_major_type_that_does_not_fit() {
    let mut writer = VecWriter::new();
    let r = writer.write_content_description(
        MajorType::new(20),
        &ContentDescription::new_self_length(0),
    );
    assert_eq!(r.unwrap_err().kind(), ErrorKind::Codec);
    assert_eq!(writer.len(), 0);
}

#[test]
fn content_description_read_back() {
    let data = descriptor(13, 2, 3);
    let mut reader = SliceReader::new(&data);
    let description = reader.read_content_description().unwrap();
    assert_eq!(description.self_length(), 2);
    assert_eq!(description.number_of_embedded_items(), 3);
    assert!(reader.finish().is_ok());
    let mut reader = SliceReader::new(&data);
    assert_eq!(reader.read_expect_content_description(2, 3).unwrap().id(), 13);
    let mut reader = SliceReader::new(&data);
    assert!(reader.read_expect_content_description(2, 4).is_err());
}

#[test]
fn reserved_content_info_is_rejected() {
    let data = vec![4 * 13 + 12];
    let mut reader = SliceReader::new(&data);
    assert_eq!(reader.read_content_description().unwrap_err().kind(), ErrorKind::Codec);
    let mut reader = SliceReader::new(&data);
    assert!(reader.skip().is_err());
}

#[test]
fn descriptor_in_a_larger_layout_than_needed_is_rejected() {
    // self length 2 as a varint in place of Len2
    let mut reader = SliceReader::new(&[4 * 13 + 6, 2, 0, 0]);
    assert_eq!(reader.read_content_description().unwrap_err().kind(), ErrorKind::Codec);
    // one embedded item as a varint in place of ContainerOneEmpty
    let mut reader = SliceReader::new(&[3 * 13 + 10, 1, 0]);
    assert!(reader.read_content_description().is_err());
    // a varint that is longer than its number needs
    let mut reader = SliceReader::new(&[4 * 13 + 6, 241, 0]);
    assert!(reader.read_content_description().is_err());
    let mut reader = SliceReader::new(&[4 * 13 + 6, 249, 3, 0, 0]);
    assert!(reader.read_content_description().is_err());
}

#[test]
fn varints_of_every_length() {
    for value in [
        0u64,
        240,
        241,
        2031,
        2032,
        67567,
        67568,
        16_777_215,
        16_777_216,
        4_294_967_295,
        4_294_967_296,
        1_099_511_627_775,
        1_099_511_627_776,
        281_474_976_710_655,
        281_474_976_710_656,
        72_057_594_037_927_935,
        72_057_594_037_927_936,
        u64::MAX,
    ] {
        let mut writer = VecWriter::new();
        writer.write_varint_u64(value);
        let data = writer.into_vec();
        let mut reader = SliceReader::new(&data);
        assert_eq!(reader.read_varint_u64().unwrap(), value);
        assert!(reader.finish().is_ok());
        if value <= u32::MAX as u64 {
            let mut reader = SliceReader::new(&data);
            assert_eq!(reader.read_varint_u32().unwrap(), value as u32);
        } else {
            let mut reader = SliceReader::new(&data);
            assert!(reader.read_varint_u32().is_err());
        }
    }
    let mut writer = VecWriter::new();
    writer.write_varint_u32(67567);
    assert_eq!(writer.into_vec(), vec![248, 255, 255]);
}

#[test]
fn canonical_integer_encoding() {
    let mut writer = VecWriter::new();
    UInt8::serialize(&mut writer, &5);
    let data = writer.into_vec();
    assert_eq!(data, vec![10 * 13 + 1, 5]);
    let mut reader = SliceReader::new(&data);
    assert_eq!(UInt8::de_serialize(&mut reader).unwrap(), 5);
    // the same number in two bytes is not canonical
    let wide = vec![10 * 13 + 2, 5, 0];
    let mut reader = SliceReader::new(&wide);
    assert_eq!(UInt8::de_serialize(&mut reader).unwrap_err().kind(), ErrorKind::Codec);
    let mut reader = SliceReader::new(&wide);
    assert!(UInt128::de_serialize(&mut reader).is_err());
    assert!(from_bytes(&wide).is_err());
}

#[test]
fn unsigned_integers_take_the_smallest_width() {
    let cases: Vec<(u128, Vec<u8>)> = vec![
        (0, vec![131, 0]),
        (255, vec![131, 255]),
        (256, vec![132, 0, 1]),
        (65535, vec![132, 255, 255]),
        (65536, vec![133, 0, 0, 1, 0]),
        (u32::MAX as u128, vec![133, 255, 255, 255, 255]),
        (u32::MAX as u128 + 1, vec![134, 0, 0, 0, 0, 1, 0, 0, 0]),
        (u64::MAX as u128 + 1, vec![135, 0, 0, 0, 0, 0, 0, 0, 0, 1, 0, 0, 0, 0, 0, 0, 0]),
    ];
    for (value, bytes) in cases {
        let mut writer = VecWriter::new();
        UInt128::serialize(&mut writer, &value);
        assert_eq!(writer.into_vec(), bytes);
        let mut reader = SliceReader::new(&bytes);
        assert_eq!(UInt128::de_serialize(&mut reader).unwrap(), value);
    }
    check_value(&Value::UInt(u128::MAX));
    let mut reader = SliceReader::new(&[132, 0, 1]);
    assert!(UInt8::de_serialize(&mut reader).is_err());
}

#[test]
fn signed_integers_take_the_smallest_width() {
    let cases: Vec<(i128, Vec<u8>)> = vec![
        (0, vec![144, 0]),
        (-1, vec![144, 255]),
        (127, vec![144, 127]),
        (-128, vec![144, 128]),
        (128, vec![145, 128, 0]),
        (-129, vec![145, 127, 255]),
        (32768, vec![146, 0, 128, 0, 0]),
        (-32769, vec![146, 255, 127, 255, 255]),
        (i32::MAX as i128 + 1, vec![147, 0, 0, 0, 128, 0, 0, 0, 0]),
    ];
    for (value, bytes) in cases {
        let mut writer = VecWriter::new();
        SInt128::serialize(&mut writer, &value);
        assert_eq!(writer.into_vec(), bytes);
        let mut reader = SliceReader::new(&bytes);
        assert_eq!(SInt128::de_serialize(&mut reader).unwrap(), value);
    }
    check_value(&Value::SInt(i128::MIN));
    check_value(&Value::SInt(i128::MAX));
    check_value(&Value::SInt(i64::MIN as i128));
    // -1 in two bytes is not canonical
    let mut reader = SliceReader::new(&[145, 255, 255]);
    assert_eq!(SInt128::de_serialize(&mut reader).unwrap_err().kind(), ErrorKind::Codec);
    let mut reader = SliceReader::new(&[145, 128, 0]);
    assert!(SInt8::de_serialize(&mut reader).is_err());
}

#[test]
fn floats_keep_their_bits() {
    check_value(&Value::Float(Float::F32(1.5f32.to_bits())));
    check_value(&Value::Float(Float::F32(f32::NAN.to_bits())));
    check_value(&Value::Float(Float::F64(f64::NEG_INFINITY.to_bits())));
    assert_eq!(to_bytes(&Value::Float(Float::F32(1.0f32.to_bits()))), vec![12 * 13 + 3, 0, 0, 128, 63]);
    assert_eq!(Float::F32(7).try_into_f32().unwrap(), 7);
    assert!(Float::F32(7).try_into_f64().is_err());
    assert_eq!(Float::F64(7).try_into_f64().unwrap(), 7);
    assert!(Float::F64(7).try_into_f32().is_err());
}

#[test]
fn booleans_and_options() {
    assert_eq!(to_bytes(&Value::Bool(false)), vec![0]);
    assert_eq!(to_bytes(&Value::Bool(true)), vec![13]);
    assert_eq!(to_bytes(&Value::Option(None)), vec![26]);
    assert_eq!(to_bytes(&Value::Option(Some(Box::new(Value::Bool(true))))), vec![33, 13]);
    check_value(&Value::Bool(true));
}

#[test]
fn enum_ordinals() {
    assert_eq!(to_bytes(&Value::Enum(ValueVariant::new_no_value(0))), vec![6 * 13]);
    assert_eq!(to_bytes(&Value::Enum(ValueVariant::new_no_value(3))), vec![9 * 13]);
    assert_eq!(to_bytes(&Value::Enum(ValueVariant::new_no_value(4))), vec![13 * 13 + 1, 4]);
    assert_eq!(
        to_bytes(&Value::Enum(ValueVariant::new(4, Value::Bool(true)))),
        vec![13 * 13 + 9, 4, 13]
    );
    assert_eq!(
        to_bytes(&Value::Enum(ValueVariant::new(2, Value::Bool(true)))),
        vec![8 * 13 + 7, 13]
    );
    let variant = ValueVariant::new_values(300, vec![Value::Bool(true), Value::Bool(false)]);
    assert_eq!(variant.ordinal(), 300);
    assert_eq!(variant.values().len(), 2);
    check_value(&Value::Enum(variant));
    // a small ordinal as a varint is not canonical
    assert!(from_bytes(&[13 * 13 + 1, 3]).is_err());
}

#[test]
fn truncated_and_unknown_values_are_rejected() {
    assert_eq!(from_bytes(&[]).unwrap_err().kind(), ErrorKind::Codec);
    assert!(from_bytes(&[5 * 13 + 2, b'a']).is_err());
    assert!(from_bytes(&[3 * 13 + 8, 13]).is_err());
    assert!(from_bytes(&[14 * 13]).is_err());
    // text that is no UTF-8
    assert!(from_bytes(&[5 * 13 + 1, 0xff]).is_err());
    // trailing bytes
    assert!(from_bytes(&[13, 13]).is_err());
}

#[test]
fn skip_passes_embedded_values() {
    let value = Value::List(vec![
        Value::Option(Some(Box::new(text("inner")))),
        Value::Enum(ValueVariant::new(900, Value::List(vec![Value::UInt(1), Value::UInt(2)]))),
        Value::Binary(vec![1, 2, 3]),
    ]);
    let mut data = to_bytes(&value);
    let len = data.len();
    data.push(13);
    let mut reader = SliceReader::new(&data);
    reader.skip().unwrap();
    assert_eq!(reader.offset(), len);
    let mut reader = SliceReader::new(&data);
    reader.skip_n_values(2).unwrap();
    assert!(reader.finish().is_ok());
    let mut reader = SliceReader::new(&data);
    assert!(reader.skip_n_values_u32(3).is_err());
    let mut reader = SliceReader::new(&data);
    reader.skip_bytes(2).unwrap();
    reader.skip_bytes_u64(1).unwrap();
    assert_eq!(reader.offset(), 3);
    assert!(reader.skip_bytes(len).is_err());
}

#[test]
fn reader_reads_fixed_width_numbers() {
    let data: Vec<u8> = vec![1, 2, 3, 4, 5, 6, 7, 8, 9, 10, 11, 12, 13, 14, 15, 16, 0xfe, 0xff];
    let mut reader = SliceReader::new(&data);
    assert_eq!(reader.read_u16().unwrap(), 0x0201);
    assert_eq!(reader.read_u32().unwrap(), 0x06050403);
    assert_eq!(reader.peek_u8().unwrap(), 7);
    assert_eq!(reader.read_u8().unwrap(), 7);
    assert_eq!(reader.read_slice(2).unwrap(), &[8, 9]);
    let copy = reader.clone();
    assert_eq!(reader.read_i8().unwrap(), 10);
    assert_eq!(copy.offset(), 9);
    assert!(reader.read_u128().is_err());
    assert!(reader.read_i128().is_err());
    assert_eq!(reader.read_i16().unwrap(), 0x0c0b);
    assert_eq!(reader.read_i32().unwrap(), 0x100f0e0d);
    assert_eq!(reader.read_i16().unwrap(), -2);
    assert!(reader.peek_u8().is_err());
    assert!(reader.read_u8().is_err());
    let mut reader = SliceReader::new(&data);
    assert_eq!(reader.read_u128().unwrap(), 0x100f0e0d0c0b0a090807060504030201);
    let mut reader = SliceReader::new(&data);
    assert_eq!(reader.read_u64().unwrap(), 0x0807060504030201);
    assert_eq!(reader.read_i64().unwrap(), 0x100f0e0d0c0b0a09);
    let mut reader = SliceReader::new(&data);
    assert_eq!(reader.read_i128().unwrap(), 0x100f0e0d0c0b0a090807060504030201);
}

#[test]
fn writer_writes_fixed_width_numbers() {
    let mut writer = VecWriter::new();
    writer.write_u8(1);
    writer.write_u16(0x0302);
    writer.write_u32(0x07060504);
    writer.write_i8(-1);
    writer.write_i16(-2);
    writer.write_slice(&[9, 9]);
    assert_eq!(writer.as_slice(), &[1, 2, 3, 4, 5, 6, 7, 255, 254, 255, 9, 9]);
    let mut writer = VecWriter::new();
    writer.write_u64(1);
    writer.write_i64(-1);
    writer.write_i32(-1);
    assert_eq!(
        writer.into_vec(),
        vec![1, 0, 0, 0, 0, 0, 0, 0, 255, 255, 255, 255, 255, 255, 255, 255, 255, 255, 255, 255]
    );
    let mut writer = VecWriter::new();
    writer.write_u128(1);
    writer.write_i128(-1);
    let data = writer.into_vec();
    assert_eq!(data.len(), 32);
    assert_eq!(data[0], 1);
    assert_eq!(data[16], 255);
}

#[test]
fn values_from_and_into_plain_values() {
    assert_eq!(Value::from_bool(true).try_into_bool().unwrap(), true);
    assert_eq!(Value::from_bool(false).try_into_bool().unwrap(), false);
    assert_eq!(Value::from_str("abc").try_into_str().unwrap(), "abc");
    assert_eq!(Value::from_string("abc".to_string()).try_into_str().unwrap(), "abc");
    assert_eq!(Value::from_bytes(&[1, 2, 3]).try_into_binary().unwrap(), &[1u8, 2, 3][..]);
    assert_eq!(Value::from_u64(u64::MAX).try_into_u64().unwrap(), u64::MAX);
    assert_eq!(Value::from_u32(7).try_into_u64().unwrap(), 7);
    assert_eq!(Value::from_i64(i64::MIN).try_into_i64().unwrap(), i64::MIN);
    assert_eq!(Value::from_i32(-7).try_into_i64().unwrap(), -7);
    assert!(Value::from_option(None).try_into_option().unwrap().is_none());
    let present = Value::from_option(Some(Value::from_u32(5)));
    assert_eq!(present.try_into_option().unwrap().unwrap().try_into_u64().unwrap(), 5);
    let list = Value::from_vec(vec![Value::from_bool(true), Value::from_i32(1)]);
    assert_eq!(list.try_into_list().unwrap().len(), 2);
    let variant = Value::Enum(ValueVariant::new(3, Value::from_u32(1)));
    assert_eq!(variant.try_into_enum().unwrap().ordinal(), 3);
    assert_eq!(variant.try_into_enum().unwrap().values().len(), 1);
}

#[test]
fn values_of_another_shape_are_refused() {
    let number = Value::from_u32(1);
    assert_eq!(number.try_into_bool().unwrap_err().kind(), ErrorKind::Schema);
    assert_eq!(number.try_into_str().unwrap_err().kind(), ErrorKind::Schema);
    assert_eq!(number.try_into_binary().unwrap_err().kind(), ErrorKind::Schema);
    assert_eq!(number.try_into_option().unwrap_err().kind(), ErrorKind::Schema);
    assert_eq!(number.try_into_list().unwrap_err().kind(), ErrorKind::Schema);
    assert_eq!(number.try_into_enum().unwrap_err().kind(), ErrorKind::Schema);
    assert_eq!(number.try_into_i64().unwrap_err().kind(), ErrorKind::Schema);
    assert_eq!(Value::from_bool(true).try_into_u64().unwrap_err().kind(), ErrorKind::Schema);
    assert_eq!(Value::UInt(u64::MAX as u128 + 1).try_into_u64().unwrap_err().kind(), ErrorKind::Schema);
    assert_eq!(Value::SInt(i64::MAX as i128 + 1).try_into_i64().unwrap_err().kind(), ErrorKind::Schema);
    assert_eq!(Value::SInt(i64::MIN as i128 - 1).try_into_i64().unwrap_err().kind(), ErrorKind::Schema);
}

#[test]
fn binary_like_data_of_any_major_type() {
    // a text is binary-like data of the major type of texts
    let mut writer = VecWriter::new();
    Unicode::serialize(&mut writer, "abc");
    let data = writer.into_vec();
    let mut reader = SliceReader::new(&data);
    let (major, body) = liquesco::types::binary::binary_read(&mut reader).unwrap();
    assert_eq!(major.id(), 5);
    assert_eq!(body, b"abc");
    assert!(reader.finish().is_ok());
    // a sequence holds embedded values and is none
    let mut reader = SliceReader::new(&[3 * 13 + 7, 0]);
    let error = liquesco::types::binary::binary_read(&mut reader).unwrap_err();
    assert_eq!(error.kind(), ErrorKind::Codec);
}

#[test]
fn a_failed_read_leaves_the_cursor() {
    let data = [1u8, 2, 3];
    let mut reader = SliceReader::new(&data);
    assert_eq!(reader.read_u8().unwrap(), 1);
    assert_eq!(reader.read_slice(3).unwrap_err().kind(), ErrorKind::Codec);
    assert_eq!(reader.offset(), 1);
    assert_eq!(reader.read_slice(usize::MAX).unwrap_err().kind(), ErrorKind::Codec);
    assert_eq!(reader.offset(), 1);
    assert!(reader.read_u32().is_err());
    assert_eq!(reader.offset(), 1);
    assert!(reader.read_i64().is_err());
    assert_eq!(reader.offset(), 1);
    assert!(reader.skip_bytes(3).is_err());
    assert_eq!(reader.offset(), 1);
    assert_eq!(reader.read_slice(2).unwrap(), &[2u8, 3][..]);
    assert_eq!(reader.offset(), 3);
    assert!(reader.read_u8().is_err());
    assert_eq!(reader.offset(), 3);
    assert_eq!(reader.read_slice(0).unwrap().len(), 0);
    assert!(reader.finish().is_ok());
}
