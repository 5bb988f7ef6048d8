use sqlite_decode::header::{read_header, TextEncoding, HEADER_SIZE};
use sqlite_decode::DecodeError;

fn header_bytes(page_size_field: u16) -> Vec<u8> {
    let mut h = vec![0u8; 100];
    h[..16].copy_from_slice(b"SQLite format 3\0");
    h[16..18].copy_from_slice(&page_size_field.to_be_bytes());
    h[18] = 1;
    h[19] = 1;
    h[20] = 0;
    h[21] = 64;
    h[22] = 32;
    h[23] = 32;
    h[24..28].copy_from_slice(&7u32.to_be_bytes());
    h[28..32].copy_from_slice(&3u32.to_be_bytes());
    h[40..44].copy_from_slice(&0x0102_0304u32.to_be_bytes());
    h[44..48].copy_from_slice(&4u32.to_be_bytes());
    h[56..60].copy_from_slice(&1u32.to_be_bytes());
    h[96..100].copy_from_slice(&3_045_000u32.to_be_bytes());
    h
}

#[test]
fn header_accepts_valid_page_sizes() {
    assert_eq!(read_header(&header_bytes(512)).unwrap().page_size, 512);
    assert_eq!(read_header(&header_bytes(4096)).unwrap().page_size, 4096);
    assert_eq!(read_header(&header_bytes(1)).unwrap().page_size, 65536);
    assert_eq!(read_header(&header_bytes(32768)).unwrap().page_size, 32768);
}

#[test]
fn header_rejects_invalid_page_sizes() {
    for raw in [600u16, 0, 2, 256, 513, 65535] {
        assert_eq!(
            read_header(&header_bytes(raw)).unwrap_err(),
            DecodeError::MalformedHeader,
            "page size field {raw}"
        );
    }
}

#[test]
fn header_fields_are_big_endian() {
    let h = read_header(&header_bytes(4096)).unwrap();
    assert_eq!(h.file_format_write_version, 1);
    assert_eq!(h.file_format_read_version, 1);
    assert_eq!(h.reserved_page_tail_bytes, 0);
    assert_eq!(h.file_change_counter, 7);
    assert_eq!(h.in_header_database_size, 3);
    assert_eq!(h.cookie, 0x0102_0304);
    assert_eq!(h.format_number, 4);
    assert_eq!(h.text_encoding, TextEncoding::Utf8);
    assert_eq!(h.sqlite_version_number, 3_045_000);
    assert_eq!(h.usable_size(), 4096);
}

#[test]
fn header_text_encodings() {
    let mut b = header_bytes(4096);
    b[59] = 2;
    assert_eq!(read_header(&b).unwrap().text_encoding, TextEncoding::Utf16Le);
    b[59] = 3;
    assert_eq!(read_header(&b).unwrap().text_encoding, TextEncoding::Utf16Be);
    b[59] = 4;
    assert_eq!(read_header(&b).unwrap_err(), DecodeError::MalformedHeader);
}

#[test]
fn header_rejects_bad_magic_and_fractions() {
    let mut b = header_bytes(4096);
    b[0] = b's';
    assert_eq!(read_header(&b).unwrap_err(), DecodeError::MalformedHeader);
    let mut b = header_bytes(4096);
    b[15] = b' ';
    assert_eq!(read_header(&b).unwrap_err(), DecodeError::MalformedHeader);
    let mut b = header_bytes(4096);
    b[21] = 63;
    assert_eq!(read_header(&b).unwrap_err(), DecodeError::MalformedHeader);
}

#[test]
fn header_truncated() {
    let b = header_bytes(4096);
    assert_eq!(HEADER_SIZE, 100);
    assert_eq!(read_header(&b[..99]).unwrap_err(), DecodeError::TruncatedInput);
    assert_eq!(read_header(&[]).unwrap_err(), DecodeError::TruncatedInput);
}
