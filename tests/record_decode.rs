use sqlite_decode::record::{
    is_string_serial_type, read, read_header, read_raw_column, read_value, serial_type_size,
    string_serial_type_size, RecordValue,
};
use sqlite_decode::schema::lift_encoded_string;
use sqlite_decode::DecodeError;

#[test]
fn record_round_trip_null_integer_text() {
    // Header: length 4, serial types 0 (NULL), 1 (8-bit int), 23 (5-byte text).
    let payload = [4u8, 0, 1, 23, 42, b'h', b'e', b'l', b'l', b'o'];
    let rec = read(&payload).unwrap();
    assert_eq!(rec.header.size, 4);
    assert_eq!(rec.header.serial_types, vec![0, 1, 23]);
    assert_eq!(
        rec.columns.cells,
        vec![
            RecordValue::Null,
            RecordValue::Integer(42),
            RecordValue::Text(b"hello".to_vec())
        ]
    );
    // One byte too many, or too few, is an integrity violation.
    let mut longer = payload.to_vec();
    longer.push(0);
    assert_eq!(read(&longer).unwrap_err(), DecodeError::ColumnCountMismatch);
    assert_eq!(read(&payload[..9]).unwrap_err(), DecodeError::ColumnCountMismatch);
}

#[test]
fn record_integer_widths_are_signed_big_endian() {
    let p = [0xff, 0xfe];
    assert_eq!(read_value(&p, 0, 2), Ok(RecordValue::Integer(-2)));
    assert_eq!(read_value(&[0x80], 0, 1), Ok(RecordValue::Integer(-128)));
    assert_eq!(read_value(&[0x7f], 0, 1), Ok(RecordValue::Integer(127)));
    assert_eq!(read_value(&[0x01, 0x00, 0x00], 0, 3), Ok(RecordValue::Integer(65536)));
    assert_eq!(
        read_value(&[0xff, 0xff, 0xff, 0xff], 0, 4),
        Ok(RecordValue::Integer(-1))
    );
    assert_eq!(
        read_value(&[0x00, 0x00, 0x01, 0x00, 0x00, 0x00], 0, 5),
        Ok(RecordValue::Integer(1 << 24))
    );
    assert_eq!(
        read_value(&[0x80, 0, 0, 0, 0, 0, 0, 0], 0, 6),
        Ok(RecordValue::Integer(i64::MIN))
    );
    assert_eq!(
        read_value(&[0x7f, 0xff, 0xff, 0xff, 0xff, 0xff, 0xff, 0xff], 0, 6),
        Ok(RecordValue::Integer(i64::MAX))
    );
}

#[test]
fn record_other_serial_types() {
    let bits = 1.5f64.to_bits().to_be_bytes();
    assert_eq!(read_value(&bits, 0, 7), Ok(RecordValue::Float(1.5f64.to_bits())));
    assert_eq!(read_value(&[], 0, 8), Ok(RecordValue::ZeroLiteral));
    assert_eq!(read_value(&[], 0, 9), Ok(RecordValue::OneLiteral));
    assert_eq!(read_value(&[1, 2, 3], 1, 16), Ok(RecordValue::Blob(vec![2, 3])));
    assert_eq!(read_value(&[b'a', b'b'], 0, 17), Ok(RecordValue::Text(b"ab".to_vec())));
    assert_eq!(read_value(&[], 0, 12), Ok(RecordValue::Blob(vec![])));
    assert_eq!(read_value(&[], 0, 13), Ok(RecordValue::Text(vec![])));
}

#[test]
fn record_reserved_serial_types() {
    assert_eq!(read_value(&[0; 4], 0, 10), Err(DecodeError::ReservedSerialType(10)));
    assert_eq!(read_value(&[0; 4], 0, 11), Err(DecodeError::ReservedSerialType(11)));
    let payload = [3u8, 1, 10, 5];
    assert_eq!(read(&payload).unwrap_err(), DecodeError::ReservedSerialType(10));
}

#[test]
fn record_value_past_end() {
    assert_eq!(read_value(&[0; 3], 0, 4), Err(DecodeError::ColumnCountMismatch));
    assert_eq!(read_value(&[0; 3], 5, 0), Err(DecodeError::ColumnCountMismatch));
}

#[test]
fn record_header_decoding() {
    // A two-byte serial type (text of 100 bytes is 213 = 0x81 0x55).
    let payload = [4u8, 0x81, 0x55, 0];
    let h = read_header(&payload).unwrap();
    assert_eq!(h.size, 4);
    assert_eq!(h.serial_types, vec![213, 0]);
    // Header length beyond the payload.
    assert_eq!(read_header(&[9u8, 0]).unwrap_err(), DecodeError::TruncatedInput);
    // A serial type that runs past the header's end.
    assert_eq!(read_header(&[2u8, 0x81, 0x01]).unwrap_err(), DecodeError::TruncatedInput);
    assert_eq!(read_header(&[]).unwrap_err(), DecodeError::TruncatedInput);
    // A header length smaller than its own varint.
    assert_eq!(read_header(&[0u8]).unwrap_err(), DecodeError::ColumnCountMismatch);
}

#[test]
fn record_raw_column_from_offset() {
    let body = [9u8, 9, 0x01, 0x02, b'z'];
    let col = read_raw_column(&body, 2, &[2, 15]).unwrap();
    assert_eq!(col.cells, vec![RecordValue::Integer(0x0102), RecordValue::Text(b"z".to_vec())]);
    assert_eq!(
        read_raw_column(&body, 2, &[2]).unwrap_err(),
        DecodeError::ColumnCountMismatch
    );
}

#[test]
fn record_serial_type_helpers() {
    assert!(is_string_serial_type(13));
    assert!(is_string_serial_type(23));
    assert!(!is_string_serial_type(12));
    assert!(!is_string_serial_type(11));
    assert_eq!(string_serial_type_size(23), 5);
    assert_eq!(serial_type_size(0), 0);
    assert_eq!(serial_type_size(5), 6);
    assert_eq!(serial_type_size(6), 8);
    assert_eq!(serial_type_size(7), 8);
    assert_eq!(serial_type_size(9), 0);
    assert_eq!(serial_type_size(20), 4);
    assert_eq!(serial_type_size(21), 4);
    assert_eq!(lift_encoded_string(&RecordValue::Text(b"x".to_vec())), Some(b"x".to_vec()));
    assert_eq!(lift_encoded_string(&RecordValue::Integer(1)), None);
}
