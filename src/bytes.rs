//! Little-endian 32-bit words in byte sequences.

use vstd::prelude::*;

verus! {

/// The little-endian word stored in `b[at..at + 4]`.
pub open spec fn u32_le(b: Seq<u8>, at: int) -> u32 {
    (b[at] + 256 * b[at + 1] + 65536 * b[at + 2] + 16777216 * b[at + 3]) as u32
}

/// The four little-endian bytes of `v`.
pub open spec fn u32_to_le(v: u32) -> Seq<u8> {
    seq![
        (v % 256) as u8,
        ((v / 256) % 256) as u8,
        ((v / 65536) % 256) as u8,
        (v / 16777216) as u8,
    ]
}

/// Reading back the bytes of a word gives the word.
pub proof fn lemma_u32_le_of_bytes(v: u32)
    ensures
        u32_le(u32_to_le(v), 0) == v,
{
    let b = u32_to_le(v);
    assert(b[0] + 256 * b[1] + 65536 * b[2] + 16777216 * b[3] == v) by (nonlinear_arith)
        requires
            b[0] == v % 256,
            b[1] == (v / 256) % 256,
            b[2] == (v / 65536) % 256,
            b[3] == v / 16777216,
            0 <= v < 0x1_0000_0000,
    ;
}

/// Reads the little-endian word at `b[at..at + 4]`.
pub fn read_u32_le(b: &[u8], at: usize) -> (r: u32)
    requires
        at + 4 <= b@.len(),
    ensures
        r == u32_le(b@, at as int),
{
    (b[at] as u32) + 256 * (b[at + 1] as u32) + 65536 * (b[at + 2] as u32) + 16777216 * (b[at
        + 3] as u32)
}

/// The four little-endian bytes of `v`.
pub fn write_u32_le(v: u32) -> (r: Vec<u8>)
    ensures
        r@ == u32_to_le(v),
{
    let r = vec![(v % 256) as u8, ((v / 256) % 256) as u8, ((v / 65536) % 256) as u8, (v / 16777216) as u8];
    assert(r@ =~= u32_to_le(v));
    r
}

/// A copy of `s[from..]`.
pub fn copy_from(s: &[u8], from: usize) -> (r: Vec<u8>)
    requires
        from <= s@.len(),
    ensures
        r@ == s@.subrange(from as int, s@.len() as int),
{
    let len: usize = s.len();
    let mut r: Vec<u8> = Vec::new();
    let mut k: usize = from;
    while k < len
        invariant
            len == s@.len(),
            from <= k <= len,
            r@ == s@.subrange(from as int, k as int),
        decreases len - k,
    {
        r.push(s[k]);
        assert(r@ =~= s@.subrange(from as int, k + 1));
        k = k + 1;
    }
    r
}

} // verus!
