use crate::btree::{page_bytes, page_in_file, page_slice};
use crate::bytes::{be_u32_at, read_be_u32};
use crate::cell::{BTreeLeafTableCell, LeafCellModel};
use crate::error::{lemma_prepend_ok_assoc, prepend_ok, DecodeError};
use crate::header::DatabaseHeader;
use vstd::prelude::*;
use vstd::slice::{slice_subrange, slice_to_vec};

verus! {

/// The `remaining` payload bytes held by the overflow chain that starts at
/// page `n`. Each overflow page holds the next page's number in its first
/// four bytes, then up to `usable - 4` payload bytes.
pub open spec fn overflow_chain(
    file: Seq<u8>,
    page_size: nat,
    usable: nat,
    n: u32,
    remaining: nat,
) -> Result<Seq<u8>, DecodeError>
    decreases remaining,
{
    if remaining == 0 {
        Ok(Seq::empty())
    } else if n == 0 {
        Err(DecodeError::InvalidCell)
    } else if !page_in_file(file.len(), page_size, n as nat) {
        Err(DecodeError::PageOutOfRange(n))
    } else if usable <= 4 || usable > page_size {
        Err(DecodeError::InvalidCell)
    } else {
        let p = page_bytes(file, page_size, n as nat);
        let take: nat = if remaining < usable - 4 {
            remaining
        } else {
            (usable - 4) as nat
        };
        prepend_ok(
            p.subrange(4, 4 + take as int),
            overflow_chain(file, page_size, usable, be_u32_at(p, 0) as u32, (remaining - take) as nat),
        )
    }
}

/// The whole payload of a leaf cell: its inline part, followed, where it
/// spills, by the rest of its bytes gathered from the overflow chain.
pub open spec fn full_payload(file: Seq<u8>, header: DatabaseHeader, c: LeafCellModel) -> Result<
    Seq<u8>,
    DecodeError,
> {
    match c.first_overflow_page_number {
        None => Ok(c.initial_payload),
        Some(first) => {
            if c.initial_payload.len() > c.total_payload_bytes {
                Err(DecodeError::InvalidCell)
            } else {
                prepend_ok(
                    c.initial_payload,
                    overflow_chain(
                        file,
                        header.page_size as nat,
                        header.usable_size_spec(),
                        first,
                        (c.total_payload_bytes - c.initial_payload.len()) as nat,
                    ),
                )
            }
        },
    }
}

/// Reassembles the whole payload of `cell`, following its overflow chain
/// through the pages of `file`.
pub fn read_payload(file: &[u8], header: &DatabaseHeader, cell: &BTreeLeafTableCell) -> (r: Result<
    Vec<u8>,
    DecodeError,
>)
    requires
        header.wf(),
    ensures
        match full_payload(file@, *header, cell@) {
            Ok(s) => r matches Ok(v) && v@ == s,
            Err(e) => r matches Err(e2) && e2 == e,
        },
{
    let mut out = slice_to_vec(cell.initial_payload.as_slice());
    let first = match cell.first_overflow_page_number {
        None => return Ok(out),
        Some(first) => first,
    };
    if cell.initial_payload.len() as u64 > cell.total_payload_bytes {
        return Err(DecodeError::InvalidCell);
    }
    let usable = header.usable_size() as u64;
    let mut remaining: u64 = cell.total_payload_bytes - cell.initial_payload.len() as u64;
    let mut n = first;
    let ghost whole = full_payload(file@, *header, cell@);
    while remaining > 0
        invariant
            header.wf(),
            usable == header.usable_size_spec(),
            whole == full_payload(file@, *header, cell@),
            whole == prepend_ok(
                out@,
                overflow_chain(
                    file@,
                    header.page_size as nat,
                    usable as nat,
                    n,
                    remaining as nat,
                ),
            ),
        decreases remaining,
    {
        if n == 0 {
            return Err(DecodeError::InvalidCell);
        }
        let p = match page_slice(file, header.page_size, n) {
            Ok(p) => p,
            Err(e) => return Err(e),
        };
        let take = if remaining < usable - 4 {
            remaining
        } else {
            usable - 4
        };
        let next = read_be_u32(p, 0);
        let mut chunk = slice_to_vec(slice_subrange(p, 4, 4 + take as usize));
        proof {
            lemma_prepend_ok_assoc(
                out@,
                chunk@,
                overflow_chain(
                    file@,
                    header.page_size as nat,
                    usable as nat,
                    next,
                    (remaining - take) as nat,
                ),
            );
        }
        out.append(&mut chunk);
        remaining = remaining - take;
        n = next;
    }
    assert(out@ + Seq::<u8>::empty() =~= out@);
    Ok(out)
}


/// The share of `payload` that the `j`-th page of an overflow chain
/// carries: `usable - 4` bytes, or what is left for the last page.
pub open spec fn chunk(payload: Seq<u8>, usable: nat, j: int) -> Seq<u8> {
    let w = usable - 4;
    let end = if (j + 1) * w < payload.len() {
        (j + 1) * w
    } else {
        payload.len() as int
    };
    payload.subrange(j * w, end)
}

/// Page `pages[j]` of `file` links to the chain's next page (to 0 for the
/// last one) and carries its share of `payload` after the link.
pub open spec fn page_holds(
    file: Seq<u8>,
    page_size: nat,
    usable: nat,
    pages: Seq<u32>,
    payload: Seq<u8>,
    j: int,
) -> bool {
    let p = page_bytes(file, page_size, pages[j] as nat);
    let c = chunk(payload, usable, j);
    &&& pages[j] != 0
    &&& page_in_file(file.len(), page_size, pages[j] as nat)
    &&& be_u32_at(p, 0) == if j + 1 < pages.len() {
        pages[j + 1] as nat
    } else {
        0
    }
    &&& p.subrange(4, 4 + c.len() as int) == c
}

/// The pages `pages` of `file` form an overflow chain, in that order, that
/// holds `payload` and needs every one of its pages.
pub open spec fn chain_holds(
    file: Seq<u8>,
    page_size: nat,
    usable: nat,
    pages: Seq<u32>,
    payload: Seq<u8>,
) -> bool {
    &&& pages.len() >= 1
    &&& (pages.len() - 1) * (usable - 4) < payload.len() <= pages.len() * (usable - 4)
    &&& forall|j: int|
        0 <= j < pages.len() ==> #[trigger] page_holds(file, page_size, usable, pages, payload, j)
}

/// Overflow-chain fidelity: chasing a chain that holds `payload` gives back
/// exactly `payload`, whatever the chain's length.
pub proof fn lemma_overflow_chain_reassembles(
    file: Seq<u8>,
    page_size: nat,
    usable: nat,
    pages: Seq<u32>,
    payload: Seq<u8>,
)
    requires
        4 < usable <= page_size,
        chain_holds(file, page_size, usable, pages, payload),
    ensures
        overflow_chain(file, page_size, usable, pages[0], payload.len()) == Ok::<
            Seq<u8>,
            DecodeError,
        >(payload),
    decreases pages.len(),
{
    let w = (usable - 4) as nat;
    let n = pages.len();
    let len = payload.len();
    assert(page_holds(file, page_size, usable, pages, payload, 0));
    let p = page_bytes(file, page_size, pages[0] as nat);
    assert(0 * w == 0 && 1 * w == w) by (nonlinear_arith);
    assert(len > 0);
    let take: nat = if len < w {
        len
    } else {
        w
    };
    let next = be_u32_at(p, 0) as u32;
    assert(overflow_chain(file, page_size, usable, pages[0], len) == prepend_ok(
        p.subrange(4, 4 + take as int),
        overflow_chain(file, page_size, usable, next, (len - take) as nat),
    ));
    if n == 1 {
        assert(len <= w);
        assert(chunk(payload, usable, 0) =~= payload);
        assert(p.subrange(4, 4 + len as int) == payload);
        assert(next == 0);
        assert(payload + Seq::<u8>::empty() =~= payload);
    } else {
        assert(w < len) by (nonlinear_arith)
            requires
                (n - 1) * w < len,
                n >= 2,
        ;
        let rest = payload.skip(w as int);
        let tail = pages.skip(1);
        assert(chunk(payload, usable, 0) == payload.take(w as int));
        assert((tail.len() - 1) * w < rest.len() <= tail.len() * w) by (nonlinear_arith)
            requires
                (n - 1) * w < len <= n * w,
                tail.len() == n - 1,
                rest.len() == len - w,
        ;
        assert forall|j: int| 0 <= j < tail.len() implies #[trigger] page_holds(
            file,
            page_size,
            usable,
            tail,
            rest,
            j,
        ) by {
            assert(page_holds(file, page_size, usable, pages, payload, j + 1));
            assert((j + 1) * w == j * w + w) by (nonlinear_arith);
            assert((j + 2) * w == (j + 1) * w + w) by (nonlinear_arith);
            assert(0 <= j * w) by (nonlinear_arith)
                requires
                    0 <= j,
            ;
            assert((j + 1) * w <= (n - 1) * w) by (nonlinear_arith)
                requires
                    j + 1 <= n - 1,
            ;
            assert(chunk(rest, usable, j) =~= chunk(payload, usable, j + 1));
        }
        assert(page_holds(file, page_size, usable, tail, rest, 0));
        lemma_overflow_chain_reassembles(file, page_size, usable, tail, rest);
        assert(p.subrange(4, 4 + w as int) == payload.take(w as int));
        assert(payload.take(w as int) + rest =~= payload);
    }
}

/// Payload fidelity: a cell whose inline part is the start of `payload` and
/// whose overflow chain holds the rest reassembles to exactly `payload`.
pub proof fn lemma_payload_reassembles(
    file: Seq<u8>,
    header: DatabaseHeader,
    c: LeafCellModel,
    pages: Seq<u32>,
    payload: Seq<u8>,
)
    requires
        header.wf(),
        c.total_payload_bytes == payload.len(),
        c.initial_payload.len() < payload.len(),
        c.initial_payload == payload.take(c.initial_payload.len() as int),
        c.first_overflow_page_number == Some(pages[0]),
        chain_holds(
            file,
            header.page_size as nat,
            header.usable_size_spec(),
            pages,
            payload.skip(c.initial_payload.len() as int),
        ),
    ensures
        full_payload(file, header, c) == Ok::<Seq<u8>, DecodeError>(payload),
{
    let k = c.initial_payload.len() as int;
    lemma_overflow_chain_reassembles(
        file,
        header.page_size as nat,
        header.usable_size_spec(),
        pages,
        payload.skip(k),
    );
    assert(payload.take(k) + payload.skip(k) == payload);
}

} // verus!
