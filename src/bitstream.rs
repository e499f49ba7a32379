//! Reading bit fields from a byte sequence, most significant bit first.

use vstd::prelude::*;
use vstd::arithmetic::power2::{lemma2_to64, lemma_pow2_unfold, pow2};
use bitstream_io::{BigEndian, BitRead, BitReader};

verus! {

/// Bit `i` of `data`: bit `7 - i % 8` of byte `i / 8`.
pub open spec fn bit_at(data: Seq<u8>, i: int) -> nat {
    ((data[i / 8] >> ((7 - i % 8) as u8)) & 1u8) as nat
}

/// The `n` bits of `data` from bit `pos` on, read as a number whose most
/// significant bit comes first.
pub open spec fn bits_msb(data: Seq<u8>, pos: int, n: nat) -> nat
    decreases n,
{
    if n == 0 {
        0
    } else {
        2 * bits_msb(data, pos, (n - 1) as nat) + bit_at(data, pos + n - 1)
    }
}

/// An `n`-bit field is below `2^n`.
pub proof fn lemma_bits_msb_bound(data: Seq<u8>, pos: int, n: nat)
    ensures
        bits_msb(data, pos, n) < pow2(n),
    decreases n,
{
    if n > 0 {
        lemma_pow2_unfold(n);
        lemma_bits_msb_bound(data, pos, (n - 1) as nat);
        let byte = data[(pos + n - 1) / 8];
        let shift = (7 - (pos + n - 1) % 8) as u8;
        assert((byte >> shift) & 1u8 <= 1u8) by (bit_vector);
    } else {
        assert(pow2(0) == 1) by {
            lemma2_to64();
        }
    }
}

/// The widths of the fields of a token.
pub proof fn lemma_field_bounds(data: Seq<u8>, pos: int)
    ensures
        bits_msb(data, pos, 1) < 2,
        bits_msb(data, pos, 4) < 16,
        bits_msb(data, pos, 8) < 256,
        bits_msb(data, pos, 12) < 4096,
{
    lemma2_to64();
    lemma_bits_msb_bound(data, pos, 1);
    lemma_bits_msb_bound(data, pos, 4);
    lemma_bits_msb_bound(data, pos, 8);
    lemma_bits_msb_bound(data, pos, 12);
}

/// Relies on bitstream_io's `BitReader` over a byte slice, big-endian: after
/// `skip(skip)`, `read::<u32>(n)` returns the next `n` bits with the most
/// significant first. Both read whole bytes from the slice and fail when it
/// runs out.
#[verifier::external_body]
pub(crate) fn read_bits(data: &[u8], start: usize, skip: u32, n: u32) -> (r: Option<u32>)
    requires
        start <= data@.len(),
        skip < 8,
        1 <= n <= 16,
    ensures
        r == (if 8 * start + skip + n <= 8 * data@.len() {
            Some(bits_msb(data@, 8 * start + skip, n as nat) as u32)
        } else {
            None
        }),
{
    let mut reader = BitReader::endian(&data[start..], BigEndian);
    match reader.skip(skip) {
        Ok(()) => reader.read::<u32>(n).ok(),
        Err(_) => None,
    }
}

} // verus!
