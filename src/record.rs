use crate::error::{lemma_prepend_ok_assoc, prepend_ok, DecodeError};
use crate::varint::{decode, decode_at};
use vstd::prelude::*;
use vstd::slice::{slice_subrange, slice_to_vec};

verus! {

/// `256` to the power `n`.
pub open spec fn pow256(n: nat) -> nat
    decreases n,
{
    if n == 0 {
        1
    } else {
        256 * pow256((n - 1) as nat)
    }
}

/// Big-endian unsigned value of the bytes `s`.
pub open spec fn be_value(s: Seq<u8>) -> nat
    decreases s.len(),
{
    if s.len() == 0 {
        0
    } else {
        be_value(s.drop_last()) * 256 + s.last() as nat
    }
}

/// The two's-complement reading of an `n`-byte pattern of value `u`.
pub open spec fn twos_complement(u: nat, n: nat) -> int {
    if u >= pow256(n) / 2 {
        u - pow256(n)
    } else {
        u as int
    }
}

/// Number of body bytes that a column of serial type `t` occupies.
pub open spec fn serial_type_size_spec(t: nat) -> nat {
    if t <= 4 {
        t
    } else if t == 5 {
        6
    } else if t == 6 || t == 7 {
        8
    } else if t < 12 {
        0
    } else if t % 2 == 0 {
        ((t - 12) / 2) as nat
    } else {
        ((t - 13) / 2) as nat
    }
}

/// One decoded column value. A float is kept as its IEEE-754 bit pattern.
#[derive(Clone, Debug, PartialEq, Eq)]
pub enum RecordValue {
    Null,
    Integer(i64),
    Float(u64),
    Text(Vec<u8>),
    Blob(Vec<u8>),
    ZeroLiteral,
    OneLiteral,
}

/// What a column value holds, with its bytes as a sequence.
pub enum ValueModel {
    Null,
    Integer(i64),
    Float(u64),
    Text(Seq<u8>),
    Blob(Seq<u8>),
    ZeroLiteral,
    OneLiteral,
}

impl View for RecordValue {
    type V = ValueModel;

    open spec fn view(&self) -> ValueModel {
        match self {
            RecordValue::Null => ValueModel::Null,
            RecordValue::Integer(i) => ValueModel::Integer(*i),
            RecordValue::Float(f) => ValueModel::Float(*f),
            RecordValue::Text(t) => ValueModel::Text(t@),
            RecordValue::Blob(b) => ValueModel::Blob(b@),
            RecordValue::ZeroLiteral => ValueModel::ZeroLiteral,
            RecordValue::OneLiteral => ValueModel::OneLiteral,
        }
    }
}

/// The value of serial type `t` whose body starts at `s[pos]`.
pub open spec fn value_at(s: Seq<u8>, pos: int, t: u64) -> Result<ValueModel, DecodeError> {
    let n = serial_type_size_spec(t as nat);
    if t == 10 || t == 11 {
        Err(DecodeError::ReservedSerialType(t))
    } else if pos < 0 || pos + n > s.len() {
        Err(DecodeError::ColumnCountMismatch)
    } else {
        let b = s.subrange(pos, pos + n);
        if t == 0 {
            Ok(ValueModel::Null)
        } else if t <= 6 {
            Ok(ValueModel::Integer(twos_complement(be_value(b), n) as i64))
        } else if t == 7 {
            Ok(ValueModel::Float(be_value(b) as u64))
        } else if t == 8 {
            Ok(ValueModel::ZeroLiteral)
        } else if t == 9 {
            Ok(ValueModel::OneLiteral)
        } else if t % 2 == 0 {
            Ok(ValueModel::Blob(b))
        } else {
            Ok(ValueModel::Text(b))
        }
    }
}

/// Serial types odd and at least 13 hold text.
pub fn is_string_serial_type(serial_type_value: u64) -> (r: bool)
    ensures
        r == (serial_type_value >= 13 && serial_type_value % 2 == 1),
{
    serial_type_value >= 13 && serial_type_value % 2 == 1
}

/// Length of the text that a text serial type announces.
pub fn string_serial_type_size(serial_type_value: u64) -> (r: u64)
    requires
        serial_type_value >= 13,
    ensures
        r == (serial_type_value - 13) / 2,
{
    (serial_type_value - 13) / 2
}

/// Number of body bytes that a column of serial type `t` occupies.
pub fn serial_type_size(t: u64) -> (r: u64)
    ensures
        r == serial_type_size_spec(t as nat),
{
    if t <= 4 {
        t
    } else if t == 5 {
        6
    } else if t == 6 || t == 7 {
        8
    } else if t < 12 {
        0
    } else if t % 2 == 0 {
        (t - 12) / 2
    } else {
        (t - 13) / 2
    }
}

proof fn lemma_be_value_bound(s: Seq<u8>)
    ensures
        be_value(s) < pow256(s.len()),
    decreases s.len(),
{
    if s.len() > 0 {
        lemma_be_value_bound(s.drop_last());
    }
}

proof fn lemma_pow256_values()
    ensures
        pow256(1) == 0x100,
        pow256(2) == 0x1_0000,
        pow256(3) == 0x100_0000,
        pow256(4) == 0x1_0000_0000,
        pow256(6) == 0x1_0000_0000_0000,
        pow256(8) == 0x1_0000_0000_0000_0000,
{
    reveal_with_fuel(pow256, 9);
}

proof fn lemma_pow256_grows(m: nat, n: nat)
    requires
        m <= n,
    ensures
        pow256(m) <= pow256(n),
    decreases n - m,
{
    if m < n {
        lemma_pow256_grows(m, (n - 1) as nat);
    }
}

/// Big-endian value of the `n <= 8` bytes at `bytes[pos]`.
fn read_be_uint(bytes: &[u8], pos: usize, n: usize) -> (r: u64)
    requires
        n <= 8,
        pos + n <= bytes@.len(),
    ensures
        r as nat == be_value(bytes@.subrange(pos as int, pos + n)),
{
    let ghost s = bytes@.subrange(pos as int, pos + n);
    let len = bytes.len();
    let mut acc: u64 = 0;
    let mut i: usize = 0;
    while i < n
        invariant
            i <= n <= 8,
            pos + n <= bytes@.len(),
            len == bytes@.len(),
            s == bytes@.subrange(pos as int, pos + n),
            acc as nat == be_value(s.take(i as int)),
        decreases n - i,
    {
        proof {
            lemma_be_value_bound(s.take(i as int));
            lemma_pow256_grows(i as nat, 7);
            lemma_pow256_values();
            reveal_with_fuel(pow256, 8);
            assert(s.take(i + 1).drop_last() == s.take(i as int));
        }
        acc = acc * 256 + bytes[pos + i] as u64;
        i = i + 1;
    }
    assert(s.take(n as int) == s);
    acc
}

/// The two's-complement reading of an integer column of width `n`.
fn sign_extend(u: u64, n: usize) -> (r: i64)
    requires
        n == 1 || n == 2 || n == 3 || n == 4 || n == 6 || n == 8,
        u < pow256(n as nat),
    ensures
        r == twos_complement(u as nat, n as nat),
{
    proof {
        lemma_pow256_values();
    }
    let full: i128 = if n == 1 {
        0x100
    } else if n == 2 {
        0x1_0000
    } else if n == 3 {
        0x100_0000
    } else if n == 4 {
        0x1_0000_0000
    } else if n == 6 {
        0x1_0000_0000_0000
    } else {
        0x1_0000_0000_0000_0000
    };
    let v = u as i128;
    if v >= full / 2 {
        (v - full) as i64
    } else {
        v as i64
    }
}

/// Decodes the column of serial type `serial_type` whose body starts at
/// `payload[pos]`.
pub fn read_value(payload: &[u8], pos: usize, serial_type: u64) -> (r: Result<
    RecordValue,
    DecodeError,
>)
    ensures
        match value_at(payload@, pos as int, serial_type) {
            Ok(v) => r matches Ok(x) && x@ == v,
            Err(e) => r matches Err(e2) && e2 == e,
        },
{
    if serial_type == 10 || serial_type == 11 {
        return Err(DecodeError::ReservedSerialType(serial_type));
    }
    let n = serial_type_size(serial_type);
    let len = payload.len();
    if pos > len || n > (len - pos) as u64 {
        return Err(DecodeError::ColumnCountMismatch);
    }
    let n = n as usize;
    let ghost b = payload@.subrange(pos as int, pos + n);
    if serial_type == 0 {
        Ok(RecordValue::Null)
    } else if serial_type <= 6 {
        let u = read_be_uint(payload, pos, n);
        proof {
            lemma_be_value_bound(b);
        }
        Ok(RecordValue::Integer(sign_extend(u, n)))
    } else if serial_type == 7 {
        Ok(RecordValue::Float(read_be_uint(payload, pos, n)))
    } else if serial_type == 8 {
        Ok(RecordValue::ZeroLiteral)
    } else if serial_type == 9 {
        Ok(RecordValue::OneLiteral)
    } else if serial_type % 2 == 0 {
        Ok(RecordValue::Blob(slice_to_vec(slice_subrange(payload, pos, pos + n))))
    } else {
        Ok(RecordValue::Text(slice_to_vec(slice_subrange(payload, pos, pos + n))))
    }
}


/// The serial types stored as varints in `s[pos..end]`.
pub open spec fn serial_types_from(s: Seq<u8>, pos: int, end: int) -> Result<
    Seq<u64>,
    DecodeError,
>
    decreases end - pos,
{
    if pos >= end || end > s.len() {
        Ok(Seq::empty())
    } else {
        match decode_at(s.subrange(0, end), pos) {
            None => Err(DecodeError::TruncatedInput),
            Some((t, n)) => {
                if n == 0 || pos + n > end {
                    Err(DecodeError::TruncatedInput)
                } else {
                    prepend_ok(seq![t as u64], serial_types_from(s, pos + n, end))
                }
            },
        }
    }
}

/// The record header at the start of payload `s`: its length, which counts
/// its own varint, and the serial types that fill the rest of it.
pub open spec fn record_header_at(s: Seq<u8>) -> Result<(nat, Seq<u64>), DecodeError> {
    match decode_at(s, 0) {
        None => Err(DecodeError::TruncatedInput),
        Some((h, n)) => {
            if h > s.len() {
                Err(DecodeError::TruncatedInput)
            } else if h < n {
                Err(DecodeError::ColumnCountMismatch)
            } else {
                match serial_types_from(s, n as int, h as int) {
                    Ok(ts) => Ok((h, ts)),
                    Err(e) => Err(e),
                }
            }
        },
    }
}

/// The values of serial types `types[i..]`, stored one after another from
/// `s[pos]` to the very end of `s`.
pub open spec fn values_from(s: Seq<u8>, pos: int, types: Seq<u64>, i: nat) -> Result<
    Seq<ValueModel>,
    DecodeError,
>
    decreases types.len() - i,
{
    if i >= types.len() {
        if pos == s.len() {
            Ok(Seq::empty())
        } else {
            Err(DecodeError::ColumnCountMismatch)
        }
    } else {
        match value_at(s, pos, types[i as int]) {
            Err(e) => Err(e),
            Ok(v) => prepend_ok(
                seq![v],
                values_from(s, pos + serial_type_size_spec(types[i as int] as nat), types, i + 1),
            ),
        }
    }
}

/// The row that payload `s` encodes: its header, then one value per serial
/// type, with no byte left over.
pub open spec fn row_of(s: Seq<u8>) -> Result<Seq<ValueModel>, DecodeError> {
    match record_header_at(s) {
        Err(e) => Err(e),
        Ok((h, ts)) => values_from(s, h as int, ts, 0),
    }
}

/// A record header: its length in bytes and its serial types.
#[derive(Clone, Debug, PartialEq, Eq)]
pub struct RecordHeader {
    pub size: u64,
    pub serial_types: Vec<u64>,
}

/// Decodes the record header at the start of `payload`.
pub fn read_header(payload: &[u8]) -> (r: Result<RecordHeader, DecodeError>)
    ensures
        match record_header_at(payload@) {
            Ok((h, ts)) => r matches Ok(x) && x.size == h && x.serial_types@ == ts,
            Err(e) => r matches Err(e2) && e2 == e,
        },
        r matches Ok(x) ==> x.size <= payload@.len(),
{
    let len = payload.len();
    let (size, n) = match decode(payload, 0) {
        Ok(x) => x,
        Err(e) => return Err(e),
    };
    if size > len as u64 {
        return Err(DecodeError::TruncatedInput);
    }
    if size < n as u64 {
        return Err(DecodeError::ColumnCountMismatch);
    }
    let end = size as usize;
    let region = slice_subrange(payload, 0, end);
    let ghost whole = serial_types_from(payload@, n as int, end as int);
    let mut serial_types: Vec<u64> = Vec::new();
    let mut pos = n;
    while pos < end
        invariant
            end <= len == payload@.len(),
            decode_at(payload@, 0) == Some((size as nat, n as nat)),
            end == size,
            n <= size,
            region@ == payload@.subrange(0, end as int),
            pos <= end,
            whole == serial_types_from(payload@, n as int, end as int),
            whole == prepend_ok(serial_types@, serial_types_from(payload@, pos as int, end as int)),
        decreases end - pos,
    {
        let (t, k) = match decode(region, pos) {
            Ok(x) => x,
            Err(e) => return Err(e),
        };
        proof {
            let sub = payload@.subrange(0, end as int);
            assert(decode_at(sub, pos as int) is Some);
            let (tv, kn) = decode_at(sub, pos as int).unwrap();
            assert(tv as u64 == t);
            assert(kn == k);
            assert(serial_types_from(payload@, pos as int, end as int) == prepend_ok(
                seq![t],
                serial_types_from(payload@, pos + k, end as int),
            ));
            lemma_prepend_ok_assoc(
                serial_types@,
                seq![t],
                serial_types_from(payload@, pos + k, end as int),
            );
        }
        let ghost prev = serial_types@;
        serial_types.push(t);
        assert(serial_types@ =~= prev + seq![t]);
        pos = pos + k;
    }
    assert(serial_types@ + Seq::<u64>::empty() =~= serial_types@);
    Ok(RecordHeader { size, serial_types })
}

/// The views of a run of values.
pub open spec fn values_view(v: Seq<RecordValue>) -> Seq<ValueModel> {
    Seq::new(v.len(), |i: int| v[i]@)
}

/// The decoded columns of one row.
#[derive(Clone, Debug, PartialEq, Eq)]
pub struct RawColumn {
    pub cells: Vec<RecordValue>,
}

/// Decodes one value per serial type from `payload[pos..]`, in order; the
/// values must use up the payload exactly.
pub fn read_raw_column(payload: &[u8], pos: usize, serial_types: &[u64]) -> (r: Result<
    RawColumn,
    DecodeError,
>)
    ensures
        match values_from(payload@, pos as int, serial_types@, 0) {
            Ok(s) => r matches Ok(c) && values_view(c.cells@) == s,
            Err(e) => r matches Err(e2) && e2 == e,
        },
{
    let len = payload.len();
    let ghost whole = values_from(payload@, pos as int, serial_types@, 0);
    let mut cells: Vec<RecordValue> = Vec::new();
    let mut at = pos;
    let mut i: usize = 0;
    while i < serial_types.len()
        invariant
            len == payload@.len(),
            i <= serial_types@.len(),
            whole == values_from(payload@, pos as int, serial_types@, 0),
            whole == prepend_ok(
                values_view(cells@),
                values_from(payload@, at as int, serial_types@, i as nat),
            ),
        decreases serial_types@.len() - i,
    {
        let t = serial_types[i];
        let v = match read_value(payload, at, t) {
            Ok(v) => v,
            Err(e) => return Err(e),
        };
        let n = serial_type_size(t);
        proof {
            lemma_prepend_ok_assoc(
                values_view(cells@),
                seq![v@],
                values_from(payload@, at + n, serial_types@, (i + 1) as nat),
            );
        }
        let ghost prev = cells@;
        cells.push(v);
        assert(values_view(cells@) =~= values_view(prev) + seq![v@]);
        at = at + n as usize;
        i = i + 1;
    }
    if at != len {
        return Err(DecodeError::ColumnCountMismatch);
    }
    assert(values_view(cells@) + Seq::<ValueModel>::empty() =~= values_view(cells@));
    Ok(RawColumn { cells })
}

/// A decoded record: its header and the row it holds.
#[derive(Clone, Debug, PartialEq, Eq)]
pub struct Record {
    pub header: RecordHeader,
    pub columns: RawColumn,
}

/// Decodes a whole record payload into its header and its row. A body
/// that ends before the last serial type's value, or runs on past it,
/// gives `ColumnCountMismatch`.
pub fn read(payload: &[u8]) -> (r: Result<Record, DecodeError>)
    ensures
        match row_of(payload@) {
            Ok(s) => r matches Ok(rec) && values_view(rec.columns.cells@) == s,
            Err(e) => r matches Err(e2) && e2 == e,
        },
        r matches Ok(rec) ==> record_header_at(payload@) == Ok::<(nat, Seq<u64>), DecodeError>(
            (rec.header.size as nat, rec.header.serial_types@),
        ),
{
    let len = payload.len();
    let header = match read_header(payload) {
        Ok(h) => h,
        Err(e) => return Err(e),
    };
    let body_start = header.size as usize;
    let columns = match read_raw_column(payload, body_start, header.serial_types.as_slice()) {
        Ok(c) => c,
        Err(e) => return Err(e),
    };
    Ok(Record { header, columns })
}

} // verus!
