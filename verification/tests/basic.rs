use aup3conv::errors::ExtractError;
use aup3conv::fields::FieldType;
use aup3conv::reader::ByteFieldReader;

#[test]
fn test_a() {
    assert!(true);
}

#[test]
fn reader_walks_typed_values() {
    let mut r = ByteFieldReader::new(vec![7u8, 0x34, 0x12, 0xff, 0xff]);
    assert_eq!(r.byte().unwrap(), 7);
    assert_eq!(r.ushort().unwrap(), 0x1234);
    assert_eq!(r.short().unwrap(), -1);
    assert!(r.at_end());
    assert!(r.byte().is_err());
}

#[test]
fn reader_decodes_counted_strings() {
    let mut r = ByteFieldReader::new(b"hi".to_vec());
    assert_eq!(r.string(2).unwrap(), "hi");
    assert!(r.string(1).is_err());
}

#[test]
fn field_reader_reads_a_string_field() {
    let reader = aup3conv::fields::ProjectDocReader::new();
    let mut bytes = vec![3u8, 5, 0, 2, 0, 0, 0];
    bytes.extend_from_slice(b"ok");
    let mut r = ByteFieldReader::new(bytes);
    match reader.read_field(&mut r).unwrap() {
        FieldType::Str { id, size, value } => {
            assert_eq!(id, 5);
            assert_eq!(size, 2);
            assert_eq!(value, "ok");
        },
        other => panic!("unexpected field {:?}", other),
    }
}

#[test]
fn missing_attribute_names_the_attribute() {
    let e = ExtractError::MissingAttribute(String::from("title"));
    assert_eq!(e, ExtractError::MissingAttribute(String::from("title")));
    assert_ne!(e, ExtractError::MissingSampleRate);
}
