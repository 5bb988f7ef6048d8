use sqlite_decode::varint::{decode, encode, len, read, size_of, value_of, Varint};
use sqlite_decode::DecodeError;

fn bytes_of(v: &Varint) -> Vec<u8> {
    let mut out = vec![v.a0];
    out.extend_from_slice(&v.tail);
    out
}

#[test]
fn varint_round_trip_representative_values() {
    let cases: [(u64, usize); 8] = [
        (0, 1),
        (127, 1),
        (128, 2),
        ((1 << 14) - 1, 2),
        (1 << 14, 3),
        ((1 << 56) - 1, 8),
        (1 << 56, 9),
        (u64::MAX, 9),
    ];
    for (v, size) in cases {
        let enc = encode(v);
        let bytes = bytes_of(&enc);
        assert_eq!(bytes.len(), size, "size of {v}");
        assert_eq!(len(&enc), size);
        assert_eq!(size_of(&enc), size);
        assert_eq!(value_of(&enc), v);
        assert_eq!(decode(&bytes, 0), Ok((v, size)));
    }
}

#[test]
fn varint_known_encodings() {
    assert_eq!(bytes_of(&encode(0)), vec![0x00]);
    assert_eq!(bytes_of(&encode(127)), vec![0x7f]);
    assert_eq!(bytes_of(&encode(128)), vec![0x81, 0x00]);
    assert_eq!(bytes_of(&encode(300)), vec![0x82, 0x2c]);
    assert_eq!(bytes_of(&encode(u64::MAX)), vec![0xff; 9]);
}

#[test]
fn varint_nine_byte_form_uses_full_last_byte() {
    let bytes = [0x80, 0x80, 0x80, 0x80, 0x80, 0x80, 0x80, 0x80, 0xff];
    assert_eq!(decode(&bytes, 0), Ok((0xff, 9)));
    let all = [0xffu8; 12];
    assert_eq!(decode(&all, 0), Ok((u64::MAX, 9)));
}

#[test]
fn varint_decode_at_offset_and_non_minimal() {
    let bytes = [0x55, 0x81, 0x00, 0x07];
    assert_eq!(decode(&bytes, 1), Ok((128, 2)));
    assert_eq!(decode(&bytes, 3), Ok((7, 1)));
    // A non-minimal encoding of 1 is still accepted on decode.
    assert_eq!(decode(&[0x80, 0x01], 0), Ok((1, 2)));
}

#[test]
fn varint_truncated_input() {
    assert_eq!(decode(&[], 0), Err(DecodeError::TruncatedInput));
    assert_eq!(decode(&[0x81, 0x82], 0), Err(DecodeError::TruncatedInput));
    assert_eq!(decode(&[0x01], 1), Err(DecodeError::TruncatedInput));
    assert_eq!(decode(&[0x01], 5), Err(DecodeError::TruncatedInput));
    assert!(read(&[0xff; 8], 0).is_err());
}

#[test]
fn varint_read_keeps_bytes() {
    let v = read(&[0x00, 0x83, 0x84, 0x05, 0x99], 1).unwrap();
    assert_eq!(v.a0, 0x83);
    assert_eq!(v.tail, vec![0x84, 0x05]);
    assert_eq!(value_of(&v), (3 << 14) | (4 << 7) | 5);
}
