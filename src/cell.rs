use crate::bytes::{be_u32_at, read_be_u32};
use crate::error::DecodeError;
use crate::header::DatabaseHeader;
use crate::page::BTreePageType;
use crate::varint::{decode, decode_at};
use vstd::prelude::*;
use vstd::slice::{slice_subrange, slice_to_vec};

verus! {

/// The two's-complement reading of a 64-bit pattern.
pub open spec fn as_signed(v: nat) -> int {
    if v < 0x8000_0000_0000_0000 {
        v as int
    } else {
        v - 0x1_0000_0000_0000_0000
    }
}

/// How many payload bytes a table-leaf cell keeps on its own page, for a
/// payload of `total` bytes on pages with `usable` usable bytes and leaf
/// payload fraction `fraction`. Past the largest local size (`usable - 35`)
/// the cell keeps at least the smallest local size and spills the rest to
/// overflow pages that each carry `usable - 4` payload bytes.
pub open spec fn local_payload_size(total: nat, usable: nat, fraction: nat) -> nat {
    let max_local = usable - 35;
    if total <= max_local {
        total
    } else {
        let min_local = (usable - 12) * fraction / 255 - 23;
        let k = min_local + (total - min_local) % (usable - 4);
        if k <= max_local {
            k as nat
        } else {
            min_local as nat
        }
    }
}

/// Number of payload bytes that stay on the B-tree page for a cell whose
/// payload is `total` bytes long.
pub fn local_payload_threshold(header: &DatabaseHeader, total: u64) -> (r: u64)
    requires
        header.wf(),
    ensures
        r == local_payload_size(
            total as nat,
            header.usable_size_spec(),
            header.leaf_payload_fraction as nat,
        ),
        r <= total,
        r < header.usable_size_spec(),
{
    let usable = header.usable_size() as u64;
    let max_local = usable - 35;
    if total <= max_local {
        return total;
    }
    let fraction = header.leaf_payload_fraction as u64;
    assert((usable - 12) * fraction / 255 >= 30) by (nonlinear_arith)
        requires
            usable >= 257,
            fraction == 32,
    ;
    assert((usable - 12) * fraction / 255 <= usable - 12) by (nonlinear_arith)
        requires
            usable >= 257,
            fraction == 32,
    ;
    let min_local = (usable - 12) * fraction / 255 - 23;
    let k = min_local + (total - min_local) % (usable - 4);
    if k <= max_local {
        k
    } else {
        min_local
    }
}

/// A table row as a leaf page stores it.
#[derive(Debug)]
pub struct BTreeLeafTableCell {
    /// Bytes of payload in all, overflow included.
    pub total_payload_bytes: u64,
    /// The row's integer key.
    pub rowid: i64,
    /// The part of the payload that does not spill to overflow pages.
    pub initial_payload: Vec<u8>,
    /// First page of the overflow chain, present iff the payload spills.
    pub first_overflow_page_number: Option<u32>,
}

/// What a leaf cell holds, with its inline payload as a sequence.
pub struct LeafCellModel {
    pub total_payload_bytes: u64,
    pub rowid: i64,
    pub initial_payload: Seq<u8>,
    pub first_overflow_page_number: Option<u32>,
}

impl View for BTreeLeafTableCell {
    type V = LeafCellModel;

    open spec fn view(&self) -> LeafCellModel {
        LeafCellModel {
            total_payload_bytes: self.total_payload_bytes,
            rowid: self.rowid,
            initial_payload: self.initial_payload@,
            first_overflow_page_number: self.first_overflow_page_number,
        }
    }
}

/// A routing entry of an interior table page: the child that covers every
/// rowid up to and including `key`.
#[derive(Clone, Copy, Debug, PartialEq, Eq, Structural)]
pub struct TableBTreeInteriorCell {
    /// The left child pointer.
    pub page_number: u32,
    pub key: i64,
}

/// The leaf cell that starts at `p[q]` on a page with `usable` usable
/// bytes and leaf payload fraction `fraction`.
pub open spec fn leaf_cell_at(p: Seq<u8>, q: int, usable: nat, fraction: nat) -> Result<
    LeafCellModel,
    DecodeError,
> {
    match decode_at(p, q) {
        None => Err(DecodeError::InvalidCell),
        Some((total, n1)) => match decode_at(p, q + n1) {
            None => Err(DecodeError::InvalidCell),
            Some((key, n2)) => {
                let start = q + n1 + n2;
                let local = local_payload_size(total, usable, fraction);
                let spills = local < total;
                let end = start + local + if spills {
                    4int
                } else {
                    0int
                };
                if end > p.len() {
                    Err(DecodeError::InvalidCell)
                } else {
                    Ok(
                        LeafCellModel {
                            total_payload_bytes: total as u64,
                            rowid: as_signed(key) as i64,
                            initial_payload: p.subrange(start, start + local),
                            first_overflow_page_number: if spills {
                                Some(be_u32_at(p, start + local) as u32)
                            } else {
                                None
                            },
                        },
                    )
                }
            },
        },
    }
}

/// The interior cell that starts at `p[q]`.
pub open spec fn interior_cell_at(p: Seq<u8>, q: int) -> Result<TableBTreeInteriorCell, DecodeError> {
    if q < 0 || q + 4 > p.len() {
        Err(DecodeError::InvalidCell)
    } else {
        match decode_at(p, q + 4) {
            None => Err(DecodeError::InvalidCell),
            Some((key, _)) => Ok(
                TableBTreeInteriorCell {
                    page_number: be_u32_at(p, q) as u32,
                    key: as_signed(key) as i64,
                },
            ),
        }
    }
}

fn to_signed(v: u64) -> (r: i64)
    ensures
        r == as_signed(v as nat),
{
    if v < 0x8000_0000_0000_0000 {
        v as i64
    } else {
        ((v - 0x8000_0000_0000_0000) as i64) - 0x7fff_ffff_ffff_ffff - 1
    }
}

/// Decodes the table-leaf cell that starts at `bytes[offset]`.
pub fn read_leaf_table_cell(bytes: &[u8], offset: usize, header: &DatabaseHeader) -> (r: Result<
    BTreeLeafTableCell,
    DecodeError,
>)
    requires
        header.wf(),
    ensures
        match leaf_cell_at(
            bytes@,
            offset as int,
            header.usable_size_spec(),
            header.leaf_payload_fraction as nat,
        ) {
            Ok(c) => r matches Ok(cell) && cell@ == c,
            Err(e) => r matches Err(e2) && e2 == e,
        },
{
    let len = bytes.len();
    let (total, n1) = match decode(bytes, offset) {
        Ok(x) => x,
        Err(_) => return Err(DecodeError::InvalidCell),
    };
    let (key, n2) = match decode(bytes, offset + n1) {
        Ok(x) => x,
        Err(_) => return Err(DecodeError::InvalidCell),
    };
    let start = offset + n1 + n2;
    let local = local_payload_threshold(header, total);
    let spills = local < total;
    let extra: usize = if spills {
        4
    } else {
        0
    };
    if local > (len - start) as u64 || extra > len - start - local as usize {
        return Err(DecodeError::InvalidCell);
    }
    let local = local as usize;
    let initial_payload = slice_to_vec(slice_subrange(bytes, start, start + local));
    let first_overflow_page_number = if spills {
        Some(read_be_u32(bytes, start + local))
    } else {
        None
    };
    Ok(
        BTreeLeafTableCell {
            total_payload_bytes: total,
            rowid: to_signed(key),
            initial_payload,
            first_overflow_page_number,
        },
    )
}

/// Decodes the interior table cell that starts at `bytes[offset]`.
pub fn read_interior_table_cell(bytes: &[u8], offset: usize) -> (r: Result<
    TableBTreeInteriorCell,
    DecodeError,
>)
    ensures
        r == interior_cell_at(bytes@, offset as int),
{
    let len = bytes.len();
    if offset > len || 4 > len - offset {
        proof {
            if 0 <= offset <= len {
                assert(offset + 4 > bytes@.len());
            }
        }
        return Err(DecodeError::InvalidCell);
    }
    let page_number = read_be_u32(bytes, offset);
    match decode(bytes, offset + 4) {
        Ok((key, _)) => Ok(TableBTreeInteriorCell { page_number, key: to_signed(key) }),
        Err(_) => Err(DecodeError::InvalidCell),
    }
}

/// One cell of a table B-tree page.
#[derive(Debug)]
pub enum BTreeCell {
    LeafTable(BTreeLeafTableCell),
    InteriorTable(TableBTreeInteriorCell),
}

/// What a cell holds.
pub enum CellModel {
    LeafTable(LeafCellModel),
    InteriorTable(TableBTreeInteriorCell),
}

impl View for BTreeCell {
    type V = CellModel;

    open spec fn view(&self) -> CellModel {
        match self {
            BTreeCell::LeafTable(c) => CellModel::LeafTable(c@),
            BTreeCell::InteriorTable(c) => CellModel::InteriorTable(*c),
        }
    }
}

/// The cell at `p[q]` on a page of type `t`. Index pages hold cells of
/// another shape, which this decoder does not read.
pub open spec fn cell_at(p: Seq<u8>, q: int, t: BTreePageType, usable: nat, fraction: nat) -> Result<
    CellModel,
    DecodeError,
> {
    match t {
        BTreePageType::LeafTable => match leaf_cell_at(p, q, usable, fraction) {
            Ok(c) => Ok(CellModel::LeafTable(c)),
            Err(e) => Err(e),
        },
        BTreePageType::InteriorTable => match interior_cell_at(p, q) {
            Ok(c) => Ok(CellModel::InteriorTable(c)),
            Err(e) => Err(e),
        },
        _ => Err(DecodeError::InvalidCell),
    }
}

/// Decodes the cell at `bytes[offset]` of a page of type `page_type`.
pub fn read_cell(bytes: &[u8], offset: usize, page_type: BTreePageType, header: &DatabaseHeader) -> (r:
    Result<BTreeCell, DecodeError>)
    requires
        header.wf(),
    ensures
        match cell_at(
            bytes@,
            offset as int,
            page_type,
            header.usable_size_spec(),
            header.leaf_payload_fraction as nat,
        ) {
            Ok(c) => r matches Ok(cell) && cell@ == c,
            Err(e) => r matches Err(e2) && e2 == e,
        },
{
    match page_type {
        BTreePageType::LeafTable => match read_leaf_table_cell(bytes, offset, header) {
            Ok(c) => Ok(BTreeCell::LeafTable(c)),
            Err(e) => Err(e),
        },
        BTreePageType::InteriorTable => match read_interior_table_cell(bytes, offset) {
            Ok(c) => Ok(BTreeCell::InteriorTable(c)),
            Err(e) => Err(e),
        },
        _ => Err(DecodeError::InvalidCell),
    }
}

/// The inline payload of a leaf cell; interior cells carry none.
pub fn get_cell_content(cell: &BTreeCell) -> (r: Option<&[u8]>)
    ensures
        match cell {
            BTreeCell::LeafTable(c) => r matches Some(s) && s@ == c.initial_payload@,
            BTreeCell::InteriorTable(_) => r is None,
        },
{
    match cell {
        BTreeCell::LeafTable(c) => Some(c.initial_payload.as_slice()),
        BTreeCell::InteriorTable(_) => None,
    }
}

} // verus!
