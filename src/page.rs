use crate::bytes::{be_u16_at, be_u32_at, read_be_u16, read_be_u32};
use crate::error::DecodeError;
use vstd::prelude::*;

verus! {

/// The four kinds of B-tree page, by their one-byte tag.
#[derive(Clone, Copy, Debug, PartialEq, Eq, Structural)]
pub enum BTreePageType {
    InteriorIndex,
    InteriorTable,
    LeafIndex,
    LeafTable,
}

/// A page-type tag that names no page type.
#[derive(Clone, Copy, Debug, PartialEq, Eq, Structural)]
pub struct BTreePageTypeError(pub u8);

/// The page type that the tag byte `tag` names.
pub open spec fn page_type_of(tag: u8) -> Option<BTreePageType> {
    if tag == 0x02 {
        Some(BTreePageType::InteriorIndex)
    } else if tag == 0x05 {
        Some(BTreePageType::InteriorTable)
    } else if tag == 0x0a {
        Some(BTreePageType::LeafIndex)
    } else if tag == 0x0d {
        Some(BTreePageType::LeafTable)
    } else {
        None
    }
}

impl BTreePageType {
    pub open spec fn is_interior_spec(&self) -> bool {
        self == BTreePageType::InteriorIndex || self == BTreePageType::InteriorTable
    }

    /// The page type that a tag byte names.
    pub fn try_from_tag(tag: u8) -> (r: Result<BTreePageType, BTreePageTypeError>)
        ensures
            match page_type_of(tag) {
                Some(t) => r == Ok::<BTreePageType, BTreePageTypeError>(t),
                None => r == Err::<BTreePageType, BTreePageTypeError>(BTreePageTypeError(tag)),
            },
    {
        match tag {
            0x02 => Ok(BTreePageType::InteriorIndex),
            0x05 => Ok(BTreePageType::InteriorTable),
            0x0a => Ok(BTreePageType::LeafIndex),
            0x0d => Ok(BTreePageType::LeafTable),
            other => Err(BTreePageTypeError(other)),
        }
    }

    /// Interior pages carry a right-most child pointer; leaf pages do not.
    pub fn is_interior(&self) -> (r: bool)
        ensures
            r == self.is_interior_spec(),
    {
        match self {
            BTreePageType::InteriorIndex | BTreePageType::InteriorTable => true,
            _ => false,
        }
    }
}

/// The fixed eight-byte part of a B-tree page header.
#[derive(Clone, Copy, Debug, PartialEq, Eq, Structural)]
pub struct BTreePageHeaderInner {
    pub page_type: BTreePageType,
    /// Start of the first freeblock on the page, or zero if there is none.
    pub first_freeblock_start: u16,
    /// Number of cells on the page.
    pub cell_count: u16,
    /// Start of the cell content area; zero stands for 65536.
    pub content_area_start: u16,
    /// Number of fragmented free bytes within the cell content area.
    pub free_bytes_in_content_area: u8,
}

/// A B-tree page header: its fixed part, and the right-most child pointer
/// that interior pages carry.
#[derive(Clone, Copy, Debug, PartialEq, Eq, Structural)]
pub struct BTreePageHeader {
    pub inner: BTreePageHeaderInner,
    pub right_most_pointer: Option<u32>,
}

/// The page header that starts at `p[h]`.
pub open spec fn page_header_at(p: Seq<u8>, h: int) -> Result<BTreePageHeader, DecodeError> {
    if h < 0 || h >= p.len() {
        Err(DecodeError::PageTooShort)
    } else {
        match page_type_of(p[h]) {
            None => Err(DecodeError::UnknownPageType(p[h])),
            Some(t) => {
                if h + header_size_of(t) > p.len() {
                    Err(DecodeError::PageTooShort)
                } else {
                    Ok(
                        BTreePageHeader {
                            inner: BTreePageHeaderInner {
                                page_type: t,
                                first_freeblock_start: be_u16_at(p, h + 1) as u16,
                                cell_count: be_u16_at(p, h + 3) as u16,
                                content_area_start: be_u16_at(p, h + 5) as u16,
                                free_bytes_in_content_area: p[h + 7],
                            },
                            right_most_pointer: if t.is_interior_spec() {
                                Some(be_u32_at(p, h + 8) as u32)
                            } else {
                                None
                            },
                        },
                    )
                }
            },
        }
    }
}

/// Size of the page header of a page of type `t`.
pub open spec fn header_size_of(t: BTreePageType) -> nat {
    if t.is_interior_spec() {
        12
    } else {
        8
    }
}

/// The content-area start that a stored field denotes.
pub open spec fn content_area_value(raw: u16) -> nat {
    if raw == 0 {
        65536
    } else {
        raw as nat
    }
}

/// `count` big-endian `u16` pointers that start at `p[start]`.
pub open spec fn pointers_at(p: Seq<u8>, start: int, count: nat) -> Seq<u16> {
    Seq::new(count, |i: int| be_u16_at(p, start + 2 * i) as u16)
}

/// A decoded page: its header and its cell-pointer array, in key order.
pub open spec fn page_at(p: Seq<u8>, h: int) -> Result<(BTreePageHeader, Seq<u16>), DecodeError> {
    match page_header_at(p, h) {
        Err(e) => Err(e),
        Ok(hdr) => {
            let start = h + header_size_of(hdr.inner.page_type);
            let count = hdr.inner.cell_count as nat;
            if start + 2 * count > p.len() {
                Err(DecodeError::PageTooShort)
            } else if content_area_value(hdr.inner.content_area_start) > p.len() {
                Err(DecodeError::PageTooShort)
            } else if exists|i: int|
                0 <= i < count && #[trigger] pointers_at(p, start, count)[i] >= p.len() {
                Err(DecodeError::PageTooShort)
            } else {
                Ok((hdr, pointers_at(p, start, count)))
            }
        },
    }
}

/// Reads the page header that starts at `bytes[offset]`.
pub fn read_page_header(bytes: &[u8], offset: usize) -> (r: Result<BTreePageHeader, DecodeError>)
    ensures
        r == page_header_at(bytes@, offset as int),
        r matches Ok(h) ==> offset + header_size_of(h.inner.page_type) <= bytes@.len(),
{
    if offset >= bytes.len() {
        return Err(DecodeError::PageTooShort);
    }
    let tag = bytes[offset];
    let page_type = match BTreePageType::try_from_tag(tag) {
        Ok(t) => t,
        Err(BTreePageTypeError(other)) => return Err(DecodeError::UnknownPageType(other)),
    };
    let interior = page_type.is_interior();
    let size: usize = if interior {
        12
    } else {
        8
    };
    if size > bytes.len() - offset {
        return Err(DecodeError::PageTooShort);
    }
    let inner = BTreePageHeaderInner {
        page_type,
        first_freeblock_start: read_be_u16(bytes, offset + 1),
        cell_count: read_be_u16(bytes, offset + 3),
        content_area_start: read_be_u16(bytes, offset + 5),
        free_bytes_in_content_area: bytes[offset + 7],
    };
    let right_most_pointer = if interior {
        Some(read_be_u32(bytes, offset + 8))
    } else {
        None
    };
    Ok(BTreePageHeader { inner, right_most_pointer })
}

/// Size in bytes of a page header.
pub fn size_of_page_header(header: &BTreePageHeader) -> (r: usize)
    ensures
        r == header_size_of(header.inner.page_type),
{
    if header.inner.page_type.is_interior() {
        12
    } else {
        8
    }
}

/// The page-relative offset of one cell.
#[derive(Clone, Copy, Debug, PartialEq, Eq, Structural)]
pub struct BTreeCellPointer(pub u16);

/// The cell pointers of a page, in key order.
#[derive(Clone, Debug, PartialEq, Eq)]
pub struct BTreeCellPointerArray(pub Vec<BTreeCellPointer>);

/// The offsets that a run of cell pointers holds.
pub open spec fn pointer_offsets(v: Seq<BTreeCellPointer>) -> Seq<u16> {
    Seq::new(v.len(), |i: int| v[i].0)
}

impl View for BTreeCellPointerArray {
    type V = Seq<u16>;

    open spec fn view(&self) -> Seq<u16> {
        pointer_offsets(self.0@)
    }
}

/// A decoded B-tree page: its header and its cell pointers. The page's
/// bytes stay with the caller, which hands them to the cell decoders.
#[derive(Clone, Debug)]
pub struct BTreePage {
    pub header: BTreePageHeader,
    pub cell_pointers: BTreeCellPointerArray,
}

/// Decodes the page whose bytes are `bytes` and whose header starts at
/// `bytes[header_offset]` (100 on page 1, 0 on every other page).
pub fn read_page(bytes: &[u8], header_offset: usize) -> (r: Result<BTreePage, DecodeError>)
    ensures
        match page_at(bytes@, header_offset as int) {
            Ok((h, ptrs)) => r matches Ok(pg) && pg.header == h && pg.cell_pointers@ == ptrs,
            Err(e) => r == Err::<BTreePage, DecodeError>(e),
        },
        r matches Ok(pg) ==> pg.cell_pointers@.len() == pg.header.inner.cell_count && (
        pg.header.right_most_pointer is Some <==> pg.header.inner.page_type.is_interior_spec()),
{
    let len = bytes.len();
    let header = match read_page_header(bytes, header_offset) {
        Ok(h) => h,
        Err(e) => return Err(e),
    };
    let size = size_of_page_header(&header);
    assert(header_offset + size <= bytes@.len());
    let start = header_offset + size;
    let count = header.inner.cell_count as usize;
    if 2 * count > len - start {
        return Err(DecodeError::PageTooShort);
    }
    let content_area: usize = if header.inner.content_area_start == 0 {
        65536
    } else {
        header.inner.content_area_start as usize
    };
    if content_area > len {
        return Err(DecodeError::PageTooShort);
    }
    let ghost expected = pointers_at(bytes@, start as int, count as nat);
    let mut pointers: Vec<BTreeCellPointer> = Vec::new();
    let mut i: usize = 0;
    while i < count
        invariant
            i <= count,
            len == bytes@.len(),
            start + 2 * count <= len,
            expected == pointers_at(bytes@, start as int, count as nat),
            pointers@.len() == i,
            page_header_at(bytes@, header_offset as int) == Ok::<BTreePageHeader, DecodeError>(
                header,
            ),
            start == header_offset + header_size_of(header.inner.page_type),
            count == header.inner.cell_count,
            content_area_value(header.inner.content_area_start) <= len,
            pointer_offsets(pointers@) == expected.take(i as int),
            forall|j: int| 0 <= j < i ==> expected[j] < len,
        decreases count - i,
    {
        let offset = read_be_u16(bytes, start + 2 * i);
        assert(offset == expected[i as int]);
        if offset as usize >= len {
            assert(expected[i as int] >= len);
            return Err(DecodeError::PageTooShort);
        }
        let ghost prev = pointers@;
        pointers.push(BTreeCellPointer(offset));
        assert(pointers@ == prev.push(BTreeCellPointer(offset)));
        i = i + 1;
        assert forall|j: int| 0 <= j < i implies pointer_offsets(pointers@)[j] == expected[j] by {
            assert(prev.len() == i - 1);
            assert(pointers@.len() == i);
            if j < i - 1 {
                assert(pointer_offsets(prev)[j] == expected.take(i - 1)[j]);
                assert(pointer_offsets(prev)[j] == prev[j].0);
                assert(pointers@[j] == prev[j]);
            } else {
                assert(pointers@[j].0 == offset);
            }
        }
        assert(pointer_offsets(pointers@) =~= expected.take(i as int));
    }
    assert(expected.take(count as int) == expected);
    assert(!exists|j: int| 0 <= j < count && #[trigger] expected[j] >= len);
    Ok(BTreePage { header, cell_pointers: BTreeCellPointerArray(pointers) })
}

} // verus!
