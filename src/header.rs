use crate::bytes::{be_u16_at, be_u32_at, read_be_u16, read_be_u32};
use crate::error::DecodeError;
use vstd::prelude::*;

verus! {

/// Size in bytes of the fixed file header at the start of page 1.
pub const HEADER_SIZE: usize = 100;

/// The sixteen bytes every file starts with: "SQLite format 3" and a NUL.
pub open spec fn header_magic() -> Seq<u8> {
    seq![
        0x53u8, 0x51u8, 0x4cu8, 0x69u8, 0x74u8, 0x65u8, 0x20u8, 0x66u8,
        0x6fu8, 0x72u8, 0x6du8, 0x61u8, 0x74u8, 0x20u8, 0x33u8, 0x00u8,
    ]
}

/// The stored page-size field is a power of two in [512, 32768], or 1.
pub open spec fn valid_page_size_field(p: nat) -> bool {
    p == 1 || p == 512 || p == 1024 || p == 2048 || p == 4096 || p == 8192 || p == 16384 || p
        == 32768
}

/// The page size in bytes that a valid stored field denotes: 1 means 65536.
pub open spec fn logical_page_size(p: nat) -> nat {
    if p == 1 {
        65536
    } else {
        p
    }
}

/// The text encodings a file may declare.
#[derive(Clone, Copy, Debug, PartialEq, Eq, Structural)]
pub enum TextEncoding {
    Utf8,
    Utf16Le,
    Utf16Be,
}

/// The encoding that the stored field `e` names, if any.
pub open spec fn text_encoding_of(e: nat) -> Option<TextEncoding> {
    if e == 1 {
        Some(TextEncoding::Utf8)
    } else if e == 2 {
        Some(TextEncoding::Utf16Le)
    } else if e == 3 {
        Some(TextEncoding::Utf16Be)
    } else {
        None
    }
}

/// The first 100 bytes of `s` form an acceptable file header: the magic
/// string, a valid page size, the payload fractions 64, 32 and 32 that the
/// format fixes, and a known text encoding.
pub open spec fn header_ok(s: Seq<u8>) -> bool {
    &&& s.len() >= 100
    &&& s.subrange(0, 16) == header_magic()
    &&& valid_page_size_field(be_u16_at(s, 16))
    &&& s[21] == 64
    &&& s[22] == 32
    &&& s[23] == 32
    &&& text_encoding_of(be_u32_at(s, 56)) is Some
}

/// The fixed preamble of a database file, decoded field by field.
#[derive(Clone, Copy, Debug)]
pub struct DatabaseHeader {
    /// Page size in bytes: a power of two from 512 to 65536.
    pub page_size: u32,
    /// File format write version: 1 for legacy, 2 for WAL.
    pub file_format_write_version: u8,
    /// File format read version: 1 for legacy, 2 for WAL.
    pub file_format_read_version: u8,
    /// Bytes of unused space at the end of each page.
    pub reserved_page_tail_bytes: u8,
    /// Maximum embedded payload fraction; always 64.
    pub maximum_embedded_payload_fraction: u8,
    /// Minimum embedded payload fraction; always 32.
    pub minimum_embedded_payload_fraction: u8,
    /// Leaf payload fraction; always 32.
    pub leaf_payload_fraction: u8,
    pub file_change_counter: u32,
    /// Size of the database file in pages.
    pub in_header_database_size: u32,
    /// Page number of the first freelist trunk page.
    pub freelist_page_idx: u32,
    /// Total number of freelist pages.
    pub freelist_page_count: u32,
    /// The schema cookie.
    pub cookie: u32,
    /// The schema format number.
    pub format_number: u32,
    /// The default page cache size.
    pub page_cache_size: u32,
    /// Largest root B-tree page in auto-vacuum modes, zero otherwise.
    pub largest_root_page_idx: u32,
    pub text_encoding: TextEncoding,
    pub user_version: u32,
    /// Non-zero for incremental-vacuum mode.
    pub incremental_vacuum_enabled: u32,
    pub application_id: u32,
    pub version_valid_for: u32,
    pub sqlite_version_number: u32,
}

impl DatabaseHeader {
    /// The invariant that every decoded header meets.
    pub open spec fn wf(&self) -> bool {
        &&& (self.page_size == 512 || self.page_size == 1024 || self.page_size == 2048
            || self.page_size == 4096 || self.page_size == 8192 || self.page_size == 16384
            || self.page_size == 32768 || self.page_size == 65536)
        &&& self.maximum_embedded_payload_fraction == 64
        &&& self.minimum_embedded_payload_fraction == 32
        &&& self.leaf_payload_fraction == 32
    }

    /// Bytes of each page that hold B-tree content.
    pub open spec fn usable_size_spec(&self) -> nat {
        (self.page_size - self.reserved_page_tail_bytes) as nat
    }

    /// Bytes of each page that hold B-tree content.
    pub fn usable_size(&self) -> (r: u32)
        requires
            self.wf(),
        ensures
            r == self.usable_size_spec(),
            r >= 257,
    {
        self.page_size - self.reserved_page_tail_bytes as u32
    }

}

/// The header that the bytes `s` hold, where `header_ok(s)`.
pub open spec fn header_of(s: Seq<u8>) -> DatabaseHeader {
    DatabaseHeader {
        page_size: logical_page_size(be_u16_at(s, 16)) as u32,
        file_format_write_version: s[18],
        file_format_read_version: s[19],
        reserved_page_tail_bytes: s[20],
        maximum_embedded_payload_fraction: s[21],
        minimum_embedded_payload_fraction: s[22],
        leaf_payload_fraction: s[23],
        file_change_counter: be_u32_at(s, 24) as u32,
        in_header_database_size: be_u32_at(s, 28) as u32,
        freelist_page_idx: be_u32_at(s, 32) as u32,
        freelist_page_count: be_u32_at(s, 36) as u32,
        cookie: be_u32_at(s, 40) as u32,
        format_number: be_u32_at(s, 44) as u32,
        page_cache_size: be_u32_at(s, 48) as u32,
        largest_root_page_idx: be_u32_at(s, 52) as u32,
        text_encoding: text_encoding_of(be_u32_at(s, 56)).unwrap(),
        user_version: be_u32_at(s, 60) as u32,
        incremental_vacuum_enabled: be_u32_at(s, 64) as u32,
        application_id: be_u32_at(s, 68) as u32,
        version_valid_for: be_u32_at(s, 92) as u32,
        sqlite_version_number: be_u32_at(s, 96) as u32,
    }
}

fn has_magic(bytes: &[u8]) -> (r: bool)
    requires
        bytes@.len() >= 16,
    ensures
        r == (bytes@.subrange(0, 16) == header_magic()),
{
    let magic: [u8; 16] = [
        0x53, 0x51, 0x4c, 0x69, 0x74, 0x65, 0x20, 0x66, 0x6f, 0x72, 0x6d, 0x61, 0x74, 0x20, 0x33,
        0x00,
    ];
    assert(magic@ == header_magic());
    let mut i: usize = 0;
    while i < 16
        invariant
            i <= 16,
            bytes@.len() >= 16,
            magic@ == header_magic(),
            bytes@.subrange(0, i as int) == header_magic().subrange(0, i as int),
        decreases 16 - i,
    {
        if bytes[i] != magic[i] {
            assert(bytes@.subrange(0, 16)[i as int] != header_magic()[i as int]);
            return false;
        }
        i = i + 1;
        assert(bytes@.subrange(0, i as int) == header_magic().subrange(0, i as int));
    }
    assert(header_magic().subrange(0, 16) == header_magic());
    true
}

/// Decodes the file header from the first 100 bytes of `bytes`.
/// Too few bytes give `TruncatedInput`; bytes that break any rule of
/// `header_ok` give `MalformedHeader`.
pub fn read_header(bytes: &[u8]) -> (r: Result<DatabaseHeader, DecodeError>)
    ensures
        bytes@.len() < 100 ==> r == Err::<DatabaseHeader, DecodeError>(
            DecodeError::TruncatedInput,
        ),
        bytes@.len() >= 100 && !header_ok(bytes@) ==> r == Err::<DatabaseHeader, DecodeError>(
            DecodeError::MalformedHeader,
        ),
        header_ok(bytes@) ==> r == Ok::<DatabaseHeader, DecodeError>(header_of(bytes@)),
        r matches Ok(h) ==> h.wf(),
{
    if bytes.len() < HEADER_SIZE {
        return Err(DecodeError::TruncatedInput);
    }
    if !has_magic(bytes) {
        return Err(DecodeError::MalformedHeader);
    }
    let raw_page_size = read_be_u16(bytes, 16);
    let page_size: u32 = match raw_page_size {
        1 => 65536,
        512 | 1024 | 2048 | 4096 | 8192 | 16384 | 32768 => raw_page_size as u32,
        _ => return Err(DecodeError::MalformedHeader),
    };
    if bytes[21] != 64 || bytes[22] != 32 || bytes[23] != 32 {
        return Err(DecodeError::MalformedHeader);
    }
    let text_encoding = match read_be_u32(bytes, 56) {
        1 => TextEncoding::Utf8,
        2 => TextEncoding::Utf16Le,
        3 => TextEncoding::Utf16Be,
        _ => return Err(DecodeError::MalformedHeader),
    };
    Ok(DatabaseHeader {
        page_size,
        file_format_write_version: bytes[18],
        file_format_read_version: bytes[19],
        reserved_page_tail_bytes: bytes[20],
        maximum_embedded_payload_fraction: bytes[21],
        minimum_embedded_payload_fraction: bytes[22],
        leaf_payload_fraction: bytes[23],
        file_change_counter: read_be_u32(bytes, 24),
        in_header_database_size: read_be_u32(bytes, 28),
        freelist_page_idx: read_be_u32(bytes, 32),
        freelist_page_count: read_be_u32(bytes, 36),
        cookie: read_be_u32(bytes, 40),
        format_number: read_be_u32(bytes, 44),
        page_cache_size: read_be_u32(bytes, 48),
        largest_root_page_idx: read_be_u32(bytes, 52),
        text_encoding,
        user_version: read_be_u32(bytes, 60),
        incremental_vacuum_enabled: read_be_u32(bytes, 64),
        application_id: read_be_u32(bytes, 68),
        version_valid_for: read_be_u32(bytes, 92),
        sqlite_version_number: read_be_u32(bytes, 96),
    })
}

} // verus!
