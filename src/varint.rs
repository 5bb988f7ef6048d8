use crate::error::DecodeError;
use vstd::arithmetic::div_mod::{lemma_breakdown, lemma_fundamental_div_mod};
use vstd::prelude::*;

verus! {

/// `128` to the power `n`.
pub open spec fn pow128(n: nat) -> nat
    decreases n,
{
    if n == 0 {
        1
    } else {
        128 * pow128((n - 1) as nat)
    }
}

/// The seven significant bits of a varint byte.
pub open spec fn low7(b: u8) -> nat {
    (b % 128) as nat
}

/// Concatenation of the low seven bits of each byte, most significant first.
pub open spec fn groups_value(s: Seq<u8>) -> nat
    decreases s.len(),
{
    if s.len() == 0 {
        0
    } else {
        groups_value(s.drop_last()) * 128 + low7(s.last())
    }
}

/// The integer that a complete varint encodes: up to eight 7-bit groups,
/// and in the nine-byte form a final byte that contributes all eight bits.
pub open spec fn varint_value(s: Seq<u8>) -> nat {
    if s.len() == 9 {
        groups_value(s.take(8)) * 256 + (s[8] as nat)
    } else {
        groups_value(s)
    }
}

/// Length of the varint that starts at `s[0]`, looking from byte `i` on:
/// it ends at the first byte without its high bit, or after the ninth byte.
/// `None` where `s` ends first.
pub open spec fn varint_extent(s: Seq<u8>, i: nat) -> Option<nat>
    decreases 9 - i,
{
    if i >= s.len() || i >= 9 {
        None
    } else if i == 8 || s[i as int] < 128 {
        Some(i + 1)
    } else {
        varint_extent(s, i + 1)
    }
}

/// Length of the varint at the start of `s`.
pub open spec fn varint_len(s: Seq<u8>) -> Option<nat> {
    varint_extent(s, 0)
}

/// Length of the varint that starts at `s[pos]`.
pub open spec fn varint_len_at(s: Seq<u8>, pos: int) -> Option<nat> {
    if 0 <= pos <= s.len() {
        varint_len(s.skip(pos))
    } else {
        None
    }
}

/// `s` is exactly one complete varint.
pub open spec fn is_varint(s: Seq<u8>) -> bool {
    varint_len(s) == Some(s.len())
}

/// Value and length of the varint that starts at `s[pos]`.
pub open spec fn decode_at(s: Seq<u8>, pos: int) -> Option<(nat, nat)> {
    match varint_len_at(s, pos) {
        Some(n) => Some((varint_value(s.subrange(pos, pos + n)), n)),
        None => None,
    }
}

/// Number of 7-bit groups that `v` needs.
pub open spec fn groups_needed(v: nat) -> nat
    decreases v,
{
    if v < 128 {
        1
    } else {
        1 + groups_needed(v / 128)
    }
}

/// Length of the shortest varint that encodes `v`.
pub open spec fn varint_size(v: nat) -> nat {
    if groups_needed(v) <= 8 {
        groups_needed(v)
    } else {
        9
    }
}

/// The low `n` 7-bit groups of `v`, each byte with its continuation bit set.
pub open spec fn flagged_groups(v: nat, n: nat) -> Seq<u8>
    decreases n,
{
    if n == 0 {
        Seq::empty()
    } else {
        flagged_groups(v / 128, (n - 1) as nat).push((v % 128 + 128) as u8)
    }
}

/// The shortest varint that encodes `v`.
pub open spec fn encode_spec(v: nat) -> Seq<u8> {
    let n = groups_needed(v);
    if n <= 8 {
        flagged_groups(v / 128, (n - 1) as nat).push((v % 128) as u8)
    } else {
        flagged_groups(v / 256, 8).push((v % 256) as u8)
    }
}

/// A varint as it is stored: its first byte, then the rest.
#[derive(Clone, Debug, PartialEq, Eq)]
pub struct Varint {
    pub a0: u8,
    pub tail: Vec<u8>,
}

impl View for Varint {
    type V = Seq<u8>;

    open spec fn view(&self) -> Seq<u8> {
        seq![self.a0] + self.tail@
    }
}

impl Varint {
    /// The bytes form exactly one complete varint.
    pub open spec fn wf(&self) -> bool {
        is_varint(self@)
    }
}

/// Number of bytes of `varint`.
pub fn len(varint: &Varint) -> (r: usize)
    requires
        varint.wf(),
    ensures
        r == varint@.len(),
        1 <= r <= 9,
{
    proof {
        lemma_extent_bounds(varint@, 0);
    }
    varint.tail.len() + 1
}

/// Number of bytes that `varint` occupies in its source.
pub fn size_of(varint: &Varint) -> (r: usize)
    requires
        varint.wf(),
    ensures
        r == varint@.len(),
{
    len(varint)
}

proof fn lemma_extent_bounds(s: Seq<u8>, i: nat)
    ensures
        varint_extent(s, i) matches Some(n) ==> i < n <= 9 && n <= s.len(),
    decreases 9 - i,
{
    if i < s.len() && i < 8 && s[i as int] >= 128 {
        lemma_extent_bounds(s, i + 1);
    }
}

/// Every byte of a complete varint but the last has its high bit set, and
/// each of its first eight bytes does unless it is the last.
proof fn lemma_extent_flags(s: Seq<u8>, i: nat, j: int)
    requires
        varint_extent(s, i) matches Some(n) && i <= j < n - 1,
    ensures
        s[j] >= 128,
    decreases 9 - i,
{
    if j > i {
        lemma_extent_flags(s, i + 1, j);
    }
}

proof fn lemma_pow128_bound(n: nat)
    requires
        n <= 8,
    ensures
        pow128(n) <= pow128(8),
        pow128(8) == 0x100000000000000,
    decreases 8 - n,
{
    reveal_with_fuel(pow128, 9);
    if n < 8 {
        lemma_pow128_bound(n + 1);
    }
}

proof fn lemma_groups_value_bound(s: Seq<u8>)
    ensures
        groups_value(s) < pow128(s.len()),
    decreases s.len(),
{
    if s.len() > 0 {
        lemma_groups_value_bound(s.drop_last());
    }
}

/// Value of `varint`.
pub fn value_of(varint: &Varint) -> (r: u64)
    requires
        varint.wf(),
    ensures
        r as nat == varint_value(varint@),
{
    let ghost s = varint@;
    let count = len(varint);
    let mut acc: u64 = 0;
    let mut i: usize = 0;
    while i < count && i < 8
        invariant
            s == varint@,
            count == s.len(),
            count <= 9,
            i <= count,
            i <= 8,
            acc as nat == groups_value(s.take(i as int)),
        decreases count - i,
    {
        let b = if i == 0 {
            varint.a0
        } else {
            varint.tail[i - 1]
        };
        proof {
            assert(b == s[i as int]);
            lemma_groups_value_bound(s.take(i as int));
            lemma_pow128_bound(i as nat);
            assert(s.take(i + 1).drop_last() == s.take(i as int));
        }
        acc = acc * 128 + (b % 128) as u64;
        i = i + 1;
    }
    if count == 9 {
        proof {
            lemma_groups_value_bound(s.take(8));
            lemma_pow128_bound(8);
        }
        acc = acc * 256 + varint.tail[7] as u64;
    } else {
        assert(s.take(count as int) == s);
    }
    acc
}


/// The varint at `t[0]` is `n` bytes long once every byte before `t[k]` is
/// seen to carry its continuation bit and `t[k]` ends it.
proof fn lemma_extent_ends(t: Seq<u8>, i: nat, k: nat)
    requires
        i <= k,
        k < t.len(),
        k <= 8,
        forall|j: int| i <= j < k ==> t[j] >= 128,
        k == 8 || t[k as int] < 128,
    ensures
        varint_extent(t, i) == Some(k + 1),
    decreases k - i,
{
    if i < k {
        lemma_extent_ends(t, i + 1, k);
    }
}

/// The length of a varint depends only on its own bytes.
proof fn lemma_extent_prefix(s: Seq<u8>, t: Seq<u8>, i: nat)
    requires
        varint_extent(s, i) matches Some(n) && n <= t.len() && t.take(n as int) == s.take(
            n as int,
        ),
    ensures
        varint_extent(t, i) == varint_extent(s, i),
    decreases 9 - i,
{
    let n = varint_extent(s, i).unwrap();
    lemma_extent_bounds(s, i);
    assert(t[i as int] == t.take(n as int)[i as int]);
    if !(i == 8 || s[i as int] < 128) {
        lemma_extent_prefix(s, t, i + 1);
    }
}

/// Reads the varint that starts at `bytes[pos]`.
pub fn read(bytes: &[u8], pos: usize) -> (r: Result<Varint, DecodeError>)
    ensures
        match varint_len_at(bytes@, pos as int) {
            Some(n) => r matches Ok(v) && v@ == bytes@.subrange(pos as int, pos + n) && v.wf(),
            None => r == Err::<Varint, DecodeError>(DecodeError::TruncatedInput),
        },
{
    let len = bytes.len();
    if pos >= len {
        proof {
            if pos == len {
                assert(varint_extent(bytes@.skip(pos as int), 0) is None);
            }
        }
        return Err(DecodeError::TruncatedInput);
    }
    let ghost t = bytes@.skip(pos as int);
    assert(t.len() == len - pos);
    let a0 = bytes[pos];
    let mut tail: Vec<u8> = Vec::new();
    let mut i: usize = 0;
    let mut b = a0;
    while !(i == 8 || b < 128)
        invariant
            t == bytes@.skip(pos as int),
            len == bytes@.len(),
            i <= 8,
            pos + i < len,
            b == t[i as int],
            a0 == t[0],
            tail@ == t.subrange(1, i + 1),
            forall|j: int| 0 <= j < i ==> t[j] >= 128,
        decreases 8 - i,
    {
        if pos + i + 1 >= len {
            proof {
                assert forall|j: int| 0 <= j < t.len() implies t[j] >= 128 by {}
                lemma_extent_truncated(t, 0);
            }
            return Err(DecodeError::TruncatedInput);
        }
        i = i + 1;
        b = bytes[pos + i];
        tail.push(b);
    }
    let v = Varint { a0, tail };
    proof {
        lemma_extent_ends(t, 0, i as nat);
        let n = (i + 1) as nat;
        assert(v@ == t.take(n as int));
        assert(v@ == bytes@.subrange(pos as int, pos + n));
        assert(v@.take(n as int) == t.take(n as int));
        lemma_extent_prefix(t, v@, 0);
    }
    Ok(v)
}

/// A varint whose bytes all carry the continuation bit and that has fewer
/// than nine of them is cut short.
proof fn lemma_extent_truncated(t: Seq<u8>, i: nat)
    requires
        t.len() <= 8,
        forall|j: int| 0 <= j < t.len() ==> t[j] >= 128,
    ensures
        varint_extent(t, i) is None,
    decreases 9 - i,
{
    if i < t.len() {
        lemma_extent_truncated(t, i + 1);
    }
}

/// The value of a complete varint fits in 64 bits.
proof fn lemma_value_bound(s: Seq<u8>)
    requires
        s.len() <= 9,
    ensures
        varint_value(s) <= u64::MAX,
{
    if s.len() == 9 {
        lemma_groups_value_bound(s.take(8));
    } else {
        lemma_groups_value_bound(s);
        lemma_pow128_bound(s.len());
    }
    lemma_pow128_bound(8);
}

/// Decodes the varint at `bytes[pos]` into its value and its length.
pub fn decode(bytes: &[u8], pos: usize) -> (r: Result<(u64, usize), DecodeError>)
    ensures
        match decode_at(bytes@, pos as int) {
            Some((v, n)) => r == Ok::<(u64, usize), DecodeError>((v as u64, n as usize)),
            None => r == Err::<(u64, usize), DecodeError>(DecodeError::TruncatedInput),
        },
        r matches Ok((v, n)) ==> 1 <= n <= 9 && pos + n <= bytes@.len(),
        decode_at(bytes@, pos as int) matches Some((v, n)) ==> v <= u64::MAX && n <= 9,
{
    let v = read(bytes, pos)?;
    proof {
        lemma_extent_bounds(v@, 0);
        lemma_extent_bounds(bytes@.skip(pos as int), 0);
        lemma_value_bound(v@);
    }
    Ok((value_of(&v), len(&v)))
}

proof fn lemma_flagged_groups(w: nat, m: nat)
    ensures
        flagged_groups(w, m).len() == m,
        forall|j: int| 0 <= j < m ==> #[trigger] flagged_groups(w, m)[j] >= 128,
        groups_value(flagged_groups(w, m)) == w % pow128(m),
    decreases m,
{
    if m > 0 {
        let p = flagged_groups(w / 128, (m - 1) as nat);
        lemma_flagged_groups(w / 128, (m - 1) as nat);
        lemma_pow128_grows(0, (m - 1) as nat);
        let s = flagged_groups(w, m);
        assert(s.drop_last() == p);
        assert(low7(s.last()) == w % 128);
        lemma_breakdown(w as int, 128, pow128((m - 1) as nat) as int);
    }
}

proof fn lemma_groups_needed(v: nat)
    ensures
        1 <= groups_needed(v),
        v < pow128(groups_needed(v)),
    decreases v,
{
    reveal_with_fuel(pow128, 2);
    if v >= 128 {
        let p = pow128(groups_needed(v / 128));
        lemma_groups_needed(v / 128);
        lemma_fundamental_div_mod(v as int, 128);
        assert(pow128(groups_needed(v)) == 128 * p);
        assert(v < 128 * p) by (nonlinear_arith)
            requires
                v / 128 < p,
                v == 128 * (v / 128) + v % 128,
                v % 128 < 128,
        ;
    }
}

/// The shortest encoding of `v` is a complete varint of `varint_size(v)`
/// bytes whose value is `v`.
proof fn lemma_encode_spec(v: u64)
    ensures
        is_varint(encode_spec(v as nat)),
        varint_value(encode_spec(v as nat)) == v,
        encode_spec(v as nat).len() == varint_size(v as nat),
        1 <= varint_size(v as nat) <= 9,
{
    let s = encode_spec(v as nat);
    let n = groups_needed(v as nat);
    lemma_groups_needed(v as nat);
    lemma_pow128_bound(8);
    if n <= 8 {
        let m = (n - 1) as nat;
        lemma_flagged_groups(v as nat / 128, m);
        lemma_extent_ends(s, 0, m);
        assert(s.drop_last() == flagged_groups(v as nat / 128, m));
        lemma_pow128_bound(n);
        lemma_breakdown(v as int, 128, pow128(m) as int);
        assert((v as nat) % pow128(n) == v) by {
            vstd::arithmetic::div_mod::lemma_small_mod(v as nat, pow128(n));
        }
    } else {
        lemma_flagged_groups(v as nat / 256, 8);
        lemma_extent_ends(s, 0, 8);
        assert(s.take(8) == flagged_groups(v as nat / 256, 8));
        assert((v as nat / 256) % pow128(8) == v as nat / 256) by {
            vstd::arithmetic::div_mod::lemma_small_mod(v as nat / 256, pow128(8));
        }
    }
}

/// Round trip: decoding the shortest encoding of any 64-bit value gives the
/// value back and consumes exactly `varint_size(v)` bytes, all of them.
pub proof fn lemma_round_trip(v: u64)
    ensures
        decode_at(encode_spec(v as nat), 0) == Some((v as nat, varint_size(v as nat))),
        encode_spec(v as nat).len() == varint_size(v as nat),
{
    let s = encode_spec(v as nat);
    lemma_encode_spec(v);
    assert(s.skip(0) == s);
    assert(s.subrange(0, s.len() as int) == s);
}

/// The shortest encoding is minimal: no complete varint of `v` is shorter
/// than `varint_size(v)` bytes.
pub proof fn lemma_encoding_minimal(s: Seq<u8>)
    requires
        is_varint(s),
    ensures
        varint_size(varint_value(s)) <= s.len(),
{
    lemma_extent_bounds(s, 0);
    if s.len() <= 8 {
        lemma_groups_value_bound(s);
        lemma_groups_needed_at_most(groups_value(s), s.len());
    }
}

fn flagged(w: u64, n: usize) -> (r: Vec<u8>)
    ensures
        r@ == flagged_groups(w as nat, n as nat),
    decreases n,
{
    if n == 0 {
        Vec::new()
    } else {
        let mut r = flagged(w / 128, n - 1);
        r.push((w % 128 + 128) as u8);
        r
    }
}

proof fn lemma_groups_needed_at_most(v: nat, k: nat)
    requires
        1 <= k,
        v < pow128(k),
    ensures
        groups_needed(v) <= k,
    decreases v,
{
    if v >= 128 {
        let p = pow128((k - 1) as nat);
        assert(k >= 2) by {
            reveal_with_fuel(pow128, 2);
        }
        assert(v / 128 < p) by (nonlinear_arith)
            requires
                v < 128 * p,
        ;
        lemma_groups_needed_at_most(v / 128, (k - 1) as nat);
    }
}

fn groups(v: u64) -> (r: usize)
    ensures
        r == groups_needed(v as nat),
        r <= 10,
    decreases v,
{
    if v < 128 {
        1
    } else {
        proof {
            reveal_with_fuel(pow128, 11);
            lemma_groups_needed_at_most(v as nat, 10);
        }
        1 + groups(v / 128)
    }
}

proof fn lemma_pow128_grows(m: nat, n: nat)
    requires
        m <= n,
    ensures
        pow128(m) <= pow128(n),
    decreases n - m,
{
    if m < n {
        lemma_pow128_grows(m, (n - 1) as nat);
    }
}

/// The shortest varint that encodes `v`.
pub fn encode(v: u64) -> (r: Varint)
    ensures
        r@ == encode_spec(v as nat),
        r.wf(),
        varint_value(r@) == v,
        r@.len() == varint_size(v as nat),
{
    let n = groups(v);
    let mut bytes = if n <= 8 {
        let mut b = flagged(v / 128, n - 1);
        b.push((v % 128) as u8);
        b
    } else {
        let mut b = flagged(v / 256, 8);
        b.push((v % 256) as u8);
        b
    };
    proof {
        lemma_encode_spec(v);
    }
    let ghost s = bytes@;
    let a0 = bytes.remove(0);
    let r = Varint { a0, tail: bytes };
    assert(r@ == s);
    r
}

} // verus!
