use vstd::prelude::*;

verus! {

/// Big-endian value of the two bytes at `s[i]`.
pub open spec fn be_u16_at(s: Seq<u8>, i: int) -> nat {
    (s[i] as nat) * 256 + (s[i + 1] as nat)
}

/// Big-endian value of the four bytes at `s[i]`.
pub open spec fn be_u32_at(s: Seq<u8>, i: int) -> nat {
    ((s[i] as nat) * 256 * 256 * 256) + ((s[i + 1] as nat) * 256 * 256) + ((s[i + 2] as nat)
        * 256) + (s[i + 3] as nat)
}

/// Two bytes hold less than 2^16, four less than 2^32.
pub proof fn lemma_be_bounds(s: Seq<u8>, i: int)
    ensures
        0 <= i && i + 2 <= s.len() ==> be_u16_at(s, i) < 0x10000,
        0 <= i && i + 4 <= s.len() ==> be_u32_at(s, i) < 0x1_0000_0000,
{
    if 0 <= i && i + 2 <= s.len() {
        let (a, b) = (s[i] as nat, s[i + 1] as nat);
        assert(a * 256 + b < 0x10000) by (nonlinear_arith)
            requires
                a < 256,
                b < 256,
        ;
    }
    if 0 <= i && i + 4 <= s.len() {
        let (a, b, c, d) = (s[i] as nat, s[i + 1] as nat, s[i + 2] as nat, s[i + 3] as nat);
        assert(a * 256 * 256 * 256 + b * 256 * 256 + c * 256 + d < 0x1_0000_0000)
            by (nonlinear_arith)
            requires
                a < 256,
                b < 256,
                c < 256,
                d < 256,
        ;
    }
}

/// Reads the big-endian `u16` at `bytes[i]`.
pub fn read_be_u16(bytes: &[u8], i: usize) -> (r: u16)
    requires
        i + 2 <= bytes@.len(),
    ensures
        r as nat == be_u16_at(bytes@, i as int),
        r == be_u16_at(bytes@, i as int) as u16,
{
    let hi = bytes[i] as u16;
    let lo = bytes[i + 1] as u16;
    hi * 256 + lo
}

/// Reads the big-endian `u32` at `bytes[i]`.
pub fn read_be_u32(bytes: &[u8], i: usize) -> (r: u32)
    requires
        i + 4 <= bytes@.len(),
    ensures
        r as nat == be_u32_at(bytes@, i as int),
        r == be_u32_at(bytes@, i as int) as u32,
{
    let b0 = bytes[i] as u32;
    let b1 = bytes[i + 1] as u32;
    let b2 = bytes[i + 2] as u32;
    let b3 = bytes[i + 3] as u32;
    b0 * 256 * 256 * 256 + b1 * 256 * 256 + b2 * 256 + b3
}

/// Whether two byte strings are equal.
pub fn bytes_equal(a: &[u8], b: &[u8]) -> (r: bool)
    ensures
        r == (a@ == b@),
{
    if a.len() != b.len() {
        return false;
    }
    let mut i: usize = 0;
    while i < a.len()
        invariant
            a@.len() == b@.len(),
            i <= a@.len(),
            forall|j: int| 0 <= j < i ==> a@[j] == b@[j],
        decreases a@.len() - i,
    {
        if a[i] != b[i] {
            return false;
        }
        i = i + 1;
    }
    assert(a@ =~= b@);
    true
}

} // verus!
