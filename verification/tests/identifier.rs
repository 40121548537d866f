use liquesco::error::ErrorKind;
use liquesco::identifier::{Format, Identifier, Segment, StrIdentifier};
use liquesco::slice_reader::SliceReader;
use liquesco::vec_writer::VecWriter;

#[test]
fn test_valid_identifiers() {
    Identifier::try_from("some_identifier").unwrap();
    // even segments starting with a number is OK (this is not allowed in some languages)
    Identifier::try_from("3_some_identifier").unwrap();
    // minimum possible
    Identifier::try_from("a").unwrap();
    // maximum possible
    Identifier::try_from("aaaaaaaaaaaaaaaaaaaaaaaaaaaaaa_aaaaaaaaaaaaaaaaaaaaaaaaaaaaaa_\
    aaaaaaaaaaaaaaaaaaaaaaaaaaaaaa_aaaaaaaaaaaaaaaaaaaaaaaaaaaaaa_aaaaaaaaaaaaaaaaaaaaaaaaaaaaaa_\
    aaaaaaaaaaaaaaaaaaaaaaaaaaaaaa_aaaaaaaaaaaaaaaaaaaaaaaaaaaaaa_aaaaaaaaaaaaaaaaaaaaaaaaaaaaaa_\
    aaaaaaaaaaaaaaaaaaaaaaaaaaaaaa_aaaaaaaaaaaaaaaaaaaaaaaaaaaaaa_aaaaaaaaaaaaaaaaaaaaaaaaaaaaaa_\
    aaaaaaaaaaaaaaaaaaaaaaaaaaaaaa").unwrap();
}

#[test]
#[should_panic]
fn test_too_short() {
    Identifier::try_from("").unwrap();
}

#[test]
#[should_panic]
fn test_invalid_character() {
    Identifier::try_from("good_éé").unwrap();
}

#[test]
#[should_panic]
fn test_segment_too_long() {
    Identifier::try_from("aaaaaaaaaaaaaaaaaaaaaaaaaaaaaaa").unwrap();
}

#[test]
#[should_panic]
fn too_many_segments() {
    Identifier::try_from("a_a_a_a_a_a_a_a_a_a_a_a_a").unwrap();
}

#[test]
fn identifier_segments_are_the_pieces_between_underscores() {
    let id = Identifier::try_from("number_of_segments").unwrap();
    let segments = id.segments();
    assert_eq!(segments.len(), 3);
    assert_eq!(segments[0].as_str(), "number");
    assert_eq!(segments[1].as_str(), "of");
    assert_eq!(segments[2].as_str(), "segments");
}

#[test]
fn identifier_to_string_joins_with_underscores() {
    let id = Identifier::new_owned("my_identifier_3").unwrap();
    assert_eq!(id.to_string(Format::SnakeCase), "my_identifier_3");
    let single = Identifier::new_owned("single").unwrap();
    assert_eq!(single.to_string(Format::SnakeCase), "single");
}

#[test]
fn identifier_errors_are_schema_errors() {
    assert_eq!(Identifier::try_from("").unwrap_err().kind(), ErrorKind::Schema);
    assert_eq!(Identifier::try_from("a__b").unwrap_err().kind(), ErrorKind::Schema);
    assert_eq!(Identifier::try_from("_a").unwrap_err().kind(), ErrorKind::Schema);
    assert_eq!(Identifier::try_from("a_").unwrap_err().kind(), ErrorKind::Schema);
    assert_eq!(Identifier::try_from("A").unwrap_err().kind(), ErrorKind::Schema);
    assert_eq!(Identifier::try_from("a-b").unwrap_err().kind(), ErrorKind::Schema);
}

#[test]
fn segment_limits() {
    assert!(Segment::try_from("a").is_ok());
    assert!(Segment::try_from("aaaaaaaaaaaaaaaaaaaaaaaaaaaaaa").is_ok());
    assert!(Segment::try_from("aaaaaaaaaaaaaaaaaaaaaaaaaaaaaaa").is_err());
    assert!(Segment::try_from("").is_err());
    assert!(Segment::try_from("a_b").is_err());
    assert!(Segment::try_from_string("z9".to_string()).is_ok());
    assert!(Segment::validate("0").is_ok());
    assert!(Segment::validate("é").is_err());
    assert_eq!(Segment::try_from("abc").unwrap().into_owned().as_str(), "abc");
}

#[test]
fn identifier_append_stops_at_twelve_segments() {
    let mut id = Identifier::try_from("a_a_a_a_a_a_a_a_a_a_a").unwrap();
    assert!(id.append(Segment::try_from("b").unwrap()).is_ok());
    assert_eq!(id.len(), 12);
    assert_eq!(id.to_string(Format::SnakeCase), "a_a_a_a_a_a_a_a_a_a_a_b");
    let r = id.append(Segment::try_from("c").unwrap());
    assert_eq!(r.unwrap_err().kind(), ErrorKind::Schema);
    assert_eq!(id.into_owned().to_string(Format::SnakeCase), "a_a_a_a_a_a_a_a_a_a_a_b");
}

#[test]
fn identifier_number_of_segments() {
    assert!(Identifier::validate_number_of_segments(0).is_err());
    assert!(Identifier::validate_number_of_segments(1).is_ok());
    assert!(Identifier::validate_number_of_segments(12).is_ok());
    assert!(Identifier::validate_number_of_segments(13).is_err());
}

#[test]
fn identifier_wire_round_trip() {
    let id = Identifier::try_from("first_name").unwrap();
    let mut writer = VecWriter::new();
    Identifier::serialize(&mut writer, &id);
    let data = writer.into_vec();
    // a sequence of two texts
    assert_eq!(
        data,
        vec![3 * 13 + 8, 5 * 13 + 6, 5, b'f', b'i', b'r', b's', b't', 5 * 13 + 3, b'n', b'a', b'm', b'e']
    );
    let mut reader = SliceReader::new(&data);
    let back = Identifier::de_serialize(&mut reader).unwrap();
    assert!(reader.finish().is_ok());
    assert_eq!(back.to_string(Format::SnakeCase), "first_name");
}

#[test]
fn identifier_wire_rejects_bad_segments() {
    // a sequence of one text "A"
    let data = vec![3 * 13 + 7, 5 * 13 + 1, b'A'];
    let mut reader = SliceReader::new(&data);
    assert_eq!(Identifier::de_serialize(&mut reader).unwrap_err().kind(), ErrorKind::Schema);
    // an empty sequence
    let data = vec![3 * 13];
    let mut reader = SliceReader::new(&data);
    assert_eq!(Identifier::de_serialize(&mut reader).unwrap_err().kind(), ErrorKind::Schema);
    // a sequence of one boolean
    let data = vec![3 * 13 + 7, 13];
    let mut reader = SliceReader::new(&data);
    assert_eq!(Identifier::de_serialize(&mut reader).unwrap_err().kind(), ErrorKind::Codec);
}

#[test]
fn str_identifier_keeps_the_text() {
    let id = StrIdentifier::try_from("any_type".to_string()).unwrap();
    assert_eq!(id.as_string(), "any_type");
    let split = Identifier::from_str_identifier(&id);
    assert_eq!(split.segments().len(), 2);
    assert!(StrIdentifier::try_from("Any".to_string()).is_err());
    let other = StrIdentifier::try_from("any_type".to_string()).unwrap();
    assert!(id.is_equal(&other));
}
