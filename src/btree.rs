use crate::cell::{
    cell_at, interior_cell_at, leaf_cell_at, read_cell, read_interior_table_cell,
    read_leaf_table_cell, BTreeCell, BTreeLeafTableCell, CellModel, LeafCellModel,
};
use crate::error::{lemma_prepend_ok_assoc, prepend_ok, DecodeError};
use crate::header::DatabaseHeader;
use crate::page::{page_at, read_page, BTreePage, BTreePageType};
use vstd::prelude::*;
use vstd::slice::slice_subrange;

verus! {

/// Deepest table B-tree that the walker descends; a deeper one is reported
/// as `CorruptTree` (a cycle of child pointers, for one, would never end).
pub const MAX_DEPTH: usize = 20;

/// Page `n` (counted from 1) lies wholly within a file of `file_len` bytes.
pub open spec fn page_in_file(file_len: nat, page_size: nat, n: nat) -> bool {
    n >= 1 && n * page_size <= file_len
}

/// The bytes of page `n`.
pub open spec fn page_bytes(file: Seq<u8>, page_size: nat, n: nat) -> Seq<u8> {
    file.subrange((n - 1) * page_size, (n * page_size) as int)
}

/// Where the B-tree page header of page `n` starts: page 1 begins with the
/// 100-byte file header.
pub open spec fn header_offset_of(n: nat) -> int {
    if n == 1 {
        100
    } else {
        0
    }
}

/// The bytes of page `n` of `file`.
pub fn page_slice(file: &[u8], page_size: u32, n: u32) -> (r: Result<&[u8], DecodeError>)
    ensures
        page_in_file(file@.len(), page_size as nat, n as nat) ==> (r matches Ok(p) && p@
            == page_bytes(file@, page_size as nat, n as nat)),
        !page_in_file(file@.len(), page_size as nat, n as nat) ==> r == Err::<&[u8], DecodeError>(
            DecodeError::PageOutOfRange(n),
        ),
{
    let len = file.len();
    assert(n as u64 * page_size as u64 <= u32::MAX as u64 * u32::MAX as u64) by (nonlinear_arith);
    let end = n as u64 * page_size as u64;
    if n == 0 || end > len as u64 {
        return Err(DecodeError::PageOutOfRange(n));
    }
    assert((n - 1) * page_size == n * page_size - page_size) by (nonlinear_arith);
    let end = end as usize;
    Ok(slice_subrange(file, end - page_size as usize, end))
}

/// The offsets of the cells of a decoded page, in key order.
fn cell_offsets(page: &BTreePage) -> (r: &Vec<crate::page::BTreeCellPointer>)
    ensures
        crate::page::pointer_offsets(r@) == page.cell_pointers@,
{
    &page.cell_pointers.0
}

/// The cells at offsets `ptrs[i..]` of page bytes `p`, in order.
pub open spec fn cells_from(
    p: Seq<u8>,
    ptrs: Seq<u16>,
    t: BTreePageType,
    usable: nat,
    fraction: nat,
    i: nat,
) -> Result<Seq<CellModel>, DecodeError>
    decreases ptrs.len() - i,
{
    if i >= ptrs.len() {
        Ok(Seq::empty())
    } else {
        match cell_at(p, ptrs[i as int] as int, t, usable, fraction) {
            Err(e) => Err(e),
            Ok(c) => prepend_ok(seq![c], cells_from(p, ptrs, t, usable, fraction, i + 1)),
        }
    }
}

/// The views of a run of cells.
pub open spec fn cells_view(v: Seq<BTreeCell>) -> Seq<CellModel> {
    Seq::new(v.len(), |i: int| v[i]@)
}

/// The views of a run of leaf cells.
pub open spec fn leaf_cells_view(v: Seq<BTreeLeafTableCell>) -> Seq<LeafCellModel> {
    Seq::new(v.len(), |i: int| v[i]@)
}

/// Decodes every cell of `page`, whose bytes are `bytes`, in the order of
/// its cell-pointer array.
pub fn read_cells(bytes: &[u8], page: &BTreePage, header: &DatabaseHeader) -> (r: Result<
    Vec<BTreeCell>,
    DecodeError,
>)
    requires
        header.wf(),
    ensures
        match cells_from(
            bytes@,
            page.cell_pointers@,
            page.header.inner.page_type,
            header.usable_size_spec(),
            header.leaf_payload_fraction as nat,
            0,
        ) {
            Ok(s) => r matches Ok(v) && cells_view(v@) == s,
            Err(e) => r matches Err(e2) && e2 == e,
        },
{
    let ptrs = cell_offsets(page);
    let t = page.header.inner.page_type;
    let ghost (u, f) = (header.usable_size_spec(), header.leaf_payload_fraction as nat);
    let ghost whole = cells_from(bytes@, page.cell_pointers@, t, u, f, 0);
    let mut out: Vec<BTreeCell> = Vec::new();
    let mut i: usize = 0;
    while i < ptrs.len()
        invariant
            header.wf(),
            t == page.header.inner.page_type,
            u == header.usable_size_spec(),
            f == header.leaf_payload_fraction as nat,
            crate::page::pointer_offsets(ptrs@) == page.cell_pointers@,
            i <= ptrs@.len(),
            whole == cells_from(bytes@, page.cell_pointers@, t, u, f, 0),
            whole == prepend_ok(
                cells_view(out@),
                cells_from(bytes@, page.cell_pointers@, t, u, f, i as nat),
            ),
        decreases ptrs.len() - i,
    {
        let offset = ptrs[i].0;
        assert(offset == page.cell_pointers@[i as int]);
        let cell = match read_cell(bytes, offset as usize, t, header) {
            Ok(c) => c,
            Err(e) => return Err(e),
        };
        proof {
            lemma_prepend_ok_assoc(
                cells_view(out@),
                seq![cell@],
                cells_from(bytes@, page.cell_pointers@, t, u, f, (i + 1) as nat),
            );
        }
        let ghost prev = out@;
        out.push(cell);
        assert(cells_view(out@) =~= cells_view(prev) + seq![cell@]);
        i = i + 1;
    }
    proof {
        assert(cells_view(out@) + Seq::<CellModel>::empty() =~= cells_view(out@));
    }
    Ok(out)
}


/// Where the byte window of the cell at offset `q` ends: at the least cell
/// offset in `ptrs` above `q`, or at `len`, the page's end.
pub open spec fn window_end(ptrs: Seq<u16>, q: nat, len: nat) -> nat
    decreases ptrs.len(),
{
    if ptrs.len() == 0 {
        len
    } else {
        let e = window_end(ptrs.drop_last(), q, len);
        let x = ptrs.last() as nat;
        if q < x && x < e {
            x
        } else {
            e
        }
    }
}

proof fn lemma_window_end_bounds(ptrs: Seq<u16>, q: nat, len: nat)
    requires
        q < len,
    ensures
        q < window_end(ptrs, q, len) <= len,
    decreases ptrs.len(),
{
    if ptrs.len() > 0 {
        lemma_window_end_bounds(ptrs.drop_last(), q, len);
    }
}

/// The bytes of the cell at pointer `i` of `page`, whose bytes are `bytes`:
/// from its offset up to the next greater cell offset, or to the page's end.
pub fn cell_byte_window<'a>(bytes: &'a [u8], page: &BTreePage, i: usize) -> (r: &'a [u8])
    requires
        i < page.cell_pointers@.len(),
        page.cell_pointers@[i as int] < bytes@.len(),
    ensures
        r@ == bytes@.subrange(
            page.cell_pointers@[i as int] as int,
            window_end(page.cell_pointers@, page.cell_pointers@[i as int] as nat, bytes@.len())
                as int,
        ),
{
    let ptrs = cell_offsets(page);
    let q = ptrs[i].0 as usize;
    let len = bytes.len();
    let mut end = len;
    let mut j: usize = 0;
    while j < ptrs.len()
        invariant
            crate::page::pointer_offsets(ptrs@) == page.cell_pointers@,
            j <= ptrs@.len(),
            q < len == bytes@.len(),
            end == window_end(page.cell_pointers@.take(j as int), q as nat, len as nat),
        decreases ptrs@.len() - j,
    {
        proof {
            lemma_window_end_bounds(page.cell_pointers@.take(j as int), q as nat, len as nat);
            assert(page.cell_pointers@.take(j + 1).drop_last() == page.cell_pointers@.take(j as int));
        }
        let x = ptrs[j].0 as usize;
        if q < x && x < end {
            end = x;
        }
        j = j + 1;
    }
    proof {
        assert(page.cell_pointers@.take(ptrs@.len() as int) == page.cell_pointers@);
        lemma_window_end_bounds(page.cell_pointers@, q as nat, len as nat);
    }
    slice_subrange(bytes, q, end)
}

/// The leaf cells at offsets `ptrs[i..]` of page bytes `p`, in order.
pub open spec fn leaf_cells_from(p: Seq<u8>, ptrs: Seq<u16>, usable: nat, fraction: nat, i: nat) -> Result<
    Seq<LeafCellModel>,
    DecodeError,
>
    decreases ptrs.len() - i,
{
    if i >= ptrs.len() {
        Ok(Seq::empty())
    } else {
        match leaf_cell_at(p, ptrs[i as int] as int, usable, fraction) {
            Err(e) => Err(e),
            Ok(c) => prepend_ok(seq![c], leaf_cells_from(p, ptrs, usable, fraction, i + 1)),
        }
    }
}

/// The leaf cells of the table B-tree rooted at page `n`, depth first and
/// left to right, with at most `depth` levels of pages.
pub open spec fn walk_spec(file: Seq<u8>, header: DatabaseHeader, n: u32, depth: nat) -> Result<
    Seq<LeafCellModel>,
    DecodeError,
>
    decreases depth, 0nat, 0nat,
{
    if depth == 0 {
        Err(DecodeError::CorruptTree)
    } else if !page_in_file(file.len(), header.page_size as nat, n as nat) {
        Err(DecodeError::PageOutOfRange(n))
    } else {
        let p = page_bytes(file, header.page_size as nat, n as nat);
        match page_at(p, header_offset_of(n as nat)) {
            Err(e) => Err(e),
            Ok((h, ptrs)) => match h.inner.page_type {
                BTreePageType::LeafTable => leaf_cells_from(
                    p,
                    ptrs,
                    header.usable_size_spec(),
                    header.leaf_payload_fraction as nat,
                    0,
                ),
                BTreePageType::InteriorTable => match h.right_most_pointer {
                    Some(right) => walk_children(file, header, p, ptrs, right, (depth - 1) as nat, 0),
                    None => Err(DecodeError::CorruptTree),
                },
                _ => Err(DecodeError::CorruptTree),
            },
        }
    }
}

/// The leaf cells under the children that the interior cells at
/// `ptrs[i..]` of page bytes `p` point to, then under `right`.
pub open spec fn walk_children(
    file: Seq<u8>,
    header: DatabaseHeader,
    p: Seq<u8>,
    ptrs: Seq<u16>,
    right: u32,
    depth: nat,
    i: nat,
) -> Result<Seq<LeafCellModel>, DecodeError>
    decreases depth, 1nat, ptrs.len() - i,
{
    if i >= ptrs.len() {
        walk_spec(file, header, right, depth)
    } else {
        match interior_cell_at(p, ptrs[i as int] as int) {
            Err(e) => Err(e),
            Ok(c) => match walk_spec(file, header, c.page_number, depth) {
                Err(e) => Err(e),
                Ok(s) => prepend_ok(s, walk_children(file, header, p, ptrs, right, depth, i + 1)),
            },
        }
    }
}

fn read_leaf_cells(bytes: &[u8], page: &BTreePage, header: &DatabaseHeader) -> (r: Result<
    Vec<BTreeLeafTableCell>,
    DecodeError,
>)
    requires
        header.wf(),
    ensures
        match leaf_cells_from(
            bytes@,
            page.cell_pointers@,
            header.usable_size_spec(),
            header.leaf_payload_fraction as nat,
            0,
        ) {
            Ok(s) => r matches Ok(v) && leaf_cells_view(v@) == s,
            Err(e) => r matches Err(e2) && e2 == e,
        },
{
    let ptrs = cell_offsets(page);
    let ghost (u, f) = (header.usable_size_spec(), header.leaf_payload_fraction as nat);
    let ghost whole = leaf_cells_from(bytes@, page.cell_pointers@, u, f, 0);
    let mut out: Vec<BTreeLeafTableCell> = Vec::new();
    let mut i: usize = 0;
    while i < ptrs.len()
        invariant
            header.wf(),
            u == header.usable_size_spec(),
            f == header.leaf_payload_fraction as nat,
            crate::page::pointer_offsets(ptrs@) == page.cell_pointers@,
            i <= ptrs@.len(),
            whole == leaf_cells_from(bytes@, page.cell_pointers@, u, f, 0),
            whole == prepend_ok(
                leaf_cells_view(out@),
                leaf_cells_from(bytes@, page.cell_pointers@, u, f, i as nat),
            ),
        decreases ptrs.len() - i,
    {
        let offset = ptrs[i].0;
        assert(offset == page.cell_pointers@[i as int]);
        let cell = match read_leaf_table_cell(bytes, offset as usize, header) {
            Ok(c) => c,
            Err(e) => return Err(e),
        };
        proof {
            lemma_prepend_ok_assoc(
                leaf_cells_view(out@),
                seq![cell@],
                leaf_cells_from(bytes@, page.cell_pointers@, u, f, (i + 1) as nat),
            );
        }
        let ghost prev = out@;
        out.push(cell);
        assert(leaf_cells_view(out@) =~= leaf_cells_view(prev) + seq![cell@]);
        i = i + 1;
    }
    proof {
        assert(leaf_cells_view(out@) + Seq::<LeafCellModel>::empty() =~= leaf_cells_view(out@));
    }
    Ok(out)
}

proof fn lemma_leaf_cells_view_append(a: Seq<BTreeLeafTableCell>, b: Seq<BTreeLeafTableCell>)
    ensures
        leaf_cells_view(a + b) == leaf_cells_view(a) + leaf_cells_view(b),
{
    assert(leaf_cells_view(a + b) =~= leaf_cells_view(a) + leaf_cells_view(b));
}

fn walk(file: &[u8], header: &DatabaseHeader, n: u32, depth: usize) -> (r: Result<
    Vec<BTreeLeafTableCell>,
    DecodeError,
>)
    requires
        header.wf(),
    ensures
        match walk_spec(file@, *header, n, depth as nat) {
            Ok(s) => r matches Ok(v) && leaf_cells_view(v@) == s,
            Err(e) => r matches Err(e2) && e2 == e,
        },
    decreases depth,
{
    if depth == 0 {
        return Err(DecodeError::CorruptTree);
    }
    let p = match page_slice(file, header.page_size, n) {
        Ok(p) => p,
        Err(e) => return Err(e),
    };
    let offset: usize = if n == 1 {
        100
    } else {
        0
    };
    let page = match read_page(p, offset) {
        Ok(pg) => pg,
        Err(e) => return Err(e),
    };
    match page.header.inner.page_type {
        BTreePageType::LeafTable => read_leaf_cells(p, &page, header),
        BTreePageType::InteriorTable => {
            let right = match page.header.right_most_pointer {
                Some(r) => r,
                None => return Err(DecodeError::CorruptTree),
            };
            let ptrs = cell_offsets(&page);
            let ghost whole = walk_children(
                file@,
                *header,
                p@,
                page.cell_pointers@,
                right,
                (depth - 1) as nat,
                0,
            );
            assert(walk_spec(file@, *header, n, depth as nat) == whole);
            let mut out: Vec<BTreeLeafTableCell> = Vec::new();
            let mut i: usize = 0;
            while i < ptrs.len()
                invariant
                    header.wf(),
                    1 <= depth,
                    walk_spec(file@, *header, n, depth as nat) == whole,
                    crate::page::pointer_offsets(ptrs@) == page.cell_pointers@,
                    i <= ptrs@.len(),
                    whole == walk_children(
                        file@,
                        *header,
                        p@,
                        page.cell_pointers@,
                        right,
                        (depth - 1) as nat,
                        0,
                    ),
                    whole == prepend_ok(
                        leaf_cells_view(out@),
                        walk_children(
                            file@,
                            *header,
                            p@,
                            page.cell_pointers@,
                            right,
                            (depth - 1) as nat,
                            i as nat,
                        ),
                    ),
                decreases ptrs.len() - i,
            {
                let offset = ptrs[i].0;
                assert(offset == page.cell_pointers@[i as int]);
                let child = match read_interior_table_cell(p, offset as usize) {
                    Ok(c) => c,
                    Err(e) => return Err(e),
                };
                let mut sub = match walk(file, header, child.page_number, depth - 1) {
                    Ok(v) => v,
                    Err(e) => return Err(e),
                };
                proof {
                    lemma_prepend_ok_assoc(
                        leaf_cells_view(out@),
                        leaf_cells_view(sub@),
                        walk_children(
                            file@,
                            *header,
                            p@,
                            page.cell_pointers@,
                            right,
                            (depth - 1) as nat,
                            (i + 1) as nat,
                        ),
                    );
                    lemma_leaf_cells_view_append(out@, sub@);
                }
                out.append(&mut sub);
                i = i + 1;
            }
            let mut last = match walk(file, header, right, depth - 1) {
                Ok(v) => v,
                Err(e) => return Err(e),
            };
            proof {
                lemma_leaf_cells_view_append(out@, last@);
            }
            out.append(&mut last);
            Ok(out)
        },
        _ => Err(DecodeError::CorruptTree),
    }
}

/// Walks the table B-tree rooted at page `root_page` depth first, left to
/// right, and returns its leaf cells in the order the tree keeps them, which
/// is ascending rowid order in a well-formed file. Any page that fails to
/// decode fails the whole walk.
pub fn traverse(file: &[u8], header: &DatabaseHeader, root_page: u32) -> (r: Result<
    Vec<BTreeLeafTableCell>,
    DecodeError,
>)
    requires
        header.wf(),
    ensures
        match walk_spec(file@, *header, root_page, MAX_DEPTH as nat) {
            Ok(s) => r matches Ok(v) && leaf_cells_view(v@) == s,
            Err(e) => r matches Err(e2) && e2 == e,
        },
{
    walk(file, header, root_page, MAX_DEPTH)
}

} // verus!
