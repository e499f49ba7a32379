//! The XOR stream that hides a container's contents.
//!
//! A container starts with a 4-byte little-endian seed. The bytes after it are
//! taken in 4-byte groups, each XORed with the little-endian bytes of one
//! generator word; each of the 1 to 3 trailing bytes is XORed with the low byte
//! of one further word. The transform is its own inverse.

use vstd::prelude::*;
use crate::bytes::{lemma_u32_le_of_bytes, read_u32_le, u32_le, u32_to_le, write_u32_le};
use crate::prng::{prng_after, prng_word, PRNG};

verus! {

/// The input was shorter than the 4-byte seed.
#[derive(Debug, PartialEq, Eq, Structural)]
pub struct InputTooSmall;

/// The key byte XORed into byte `k` of a `len`-byte stream keyed by `seed`.
pub open spec fn key_byte(seed: u32, len: nat, k: int) -> u8 {
    let words = len / 4;
    if k < 4 * words {
        u32_to_le(prng_word(seed, (k / 4) as nat))[k % 4]
    } else {
        u32_to_le(prng_word(seed, (words + (k - 4 * words)) as nat))[0]
    }
}

/// `data` XORed with the key stream of `seed`.
pub open spec fn xor_stream(data: Seq<u8>, seed: u32) -> Seq<u8> {
    Seq::new(data.len(), |k: int| data[k] ^ key_byte(seed, data.len(), k))
}

/// The seed of a container: its first four bytes, little-endian.
pub open spec fn seed_of(input: Seq<u8>) -> u32 {
    u32_le(input, 0)
}

/// What deobfuscation gives for an input of at least four bytes.
pub open spec fn deobfuscated(input: Seq<u8>) -> Seq<u8> {
    xor_stream(input.subrange(4, input.len() as int), seed_of(input))
}

/// Appends `input` XORed with the key stream of `seed` to `output`.
fn process(input: &[u8], seed: u32, output: &mut Vec<u8>)
    ensures
        final(output)@ == old(output)@ + xor_stream(input@, seed),
{
    let ghost start = output@;
    let ghost full = xor_stream(input@, seed);
    let mut prng = PRNG::new(seed);
    let len: usize = input.len();
    let words: usize = len / 4;
    let mut w: usize = 0;
    while w < words
        invariant
            len == input@.len(),
            words == input@.len() / 4,
            4 * words <= input@.len(),
            w <= words,
            prng.wf(),
            prng@ == prng_after(seed, w as nat),
            full == xor_stream(input@, seed),
            output@ == start + full.take(4 * w as int),
        decreases words - w,
    {
        let v = prng.next();
        let at = 4 * w;
        let b0 = input[at] ^ ((v % 256) as u8);
        let b1 = input[at + 1] ^ (((v / 256) % 256) as u8);
        let b2 = input[at + 2] ^ (((v / 65536) % 256) as u8);
        let b3 = input[at + 3] ^ ((v / 16777216) as u8);
        output.push(b0);
        output.push(b1);
        output.push(b2);
        output.push(b3);
        proof {
            assert(v == prng_word(seed, w as nat));
            assert(full[at as int] == b0);
            assert(full[at + 1] == b1);
            assert(full[at + 2] == b2);
            assert(full[at + 3] == b3);
            assert(output@ =~= start + full.take(4 * w + 4));
        }
        w = w + 1;
    }
    let mut k: usize = 4 * words;
    while k < len
        invariant
            len == input@.len(),
            words == input@.len() / 4,
            4 * words <= k <= input@.len(),
            prng.wf(),
            prng@ == prng_after(seed, (words + (k - 4 * words)) as nat),
            full == xor_stream(input@, seed),
            output@ == start + full.take(k as int),
        decreases input@.len() - k,
    {
        let v = prng.next();
        let b = input[k] ^ ((v % 256) as u8);
        output.push(b);
        proof {
            assert(full[k as int] == b);
            assert(output@ =~= start + full.take(k + 1));
        }
        k = k + 1;
    }
    assert(full.take(input@.len() as int) =~= full);
}

/// Strips the seed from `input` and undoes the XOR stream on the rest.
pub fn deobfuscate(input: &[u8]) -> (r: Result<Vec<u8>, InputTooSmall>)
    ensures
        input@.len() < 4 ==> r == Err::<Vec<u8>, InputTooSmall>(InputTooSmall),
        input@.len() >= 4 ==> r.is_ok() && r.unwrap()@ == deobfuscated(input@),
{
    if input.len() < 4 {
        return Err(InputTooSmall);
    }
    let seed = read_u32_le(input, 0);
    let mut result: Vec<u8> = Vec::new();
    let rest = slice_from(input, 4);
    process(rest, seed, &mut result);
    Ok(result)
}

/// Prefixes `seed` to `input` XORed with the key stream of `seed`.
pub fn obfuscate(input: &[u8], seed: u32) -> (r: Vec<u8>)
    ensures
        r@ == u32_to_le(seed) + xor_stream(input@, seed),
{
    let mut result = write_u32_le(seed);
    process(input, seed, &mut result);
    result
}

/// Undoes the XOR stream in place of a copy, keeping the seed in front.
pub fn decrypt(input: &[u8]) -> (r: Vec<u8>)
    requires
        input@.len() >= 4,
    ensures
        r@ == input@.subrange(0, 4) + deobfuscated(input@),
{
    let seed = read_u32_le(input, 0);
    let mut result: Vec<u8> = Vec::new();
    result.push(input[0]);
    result.push(input[1]);
    result.push(input[2]);
    result.push(input[3]);
    let ghost head = result@;
    assert(head =~= input@.subrange(0, 4));
    let rest = slice_from(input, 4);
    process(rest, seed, &mut result);
    result
}

/// The bytes of `s` from index `from` on.
fn slice_from(s: &[u8], from: usize) -> (r: &[u8])
    requires
        from <= s@.len(),
    ensures
        r@ == s@.subrange(from as int, s@.len() as int),
{
    let r = &s[from..s.len()];
    r
}

/// XORing a byte sequence twice with the same key stream restores it.
pub proof fn lemma_xor_stream_involutive(data: Seq<u8>, seed: u32)
    ensures
        xor_stream(xor_stream(data, seed), seed) == data,
{
    let once = xor_stream(data, seed);
    assert forall|k: int| 0 <= k < data.len() implies #[trigger] xor_stream(once, seed)[k] == data[k] by {
        let x = data[k];
        let y = key_byte(seed, data.len(), k);
        assert((x ^ y) ^ y == x) by (bit_vector);
    }
    assert(xor_stream(once, seed) =~= data);
}

/// Deobfuscating what `obfuscate` produced from `payload` and `seed` gives
/// back `payload`, for every seed and payload.
pub proof fn lemma_round_trip(payload: Seq<u8>, seed: u32)
    ensures
        deobfuscated(u32_to_le(seed) + xor_stream(payload, seed)) == payload,
{
    let c = u32_to_le(seed) + xor_stream(payload, seed);
    lemma_u32_le_of_bytes(seed);
    assert(c.subrange(0, 4) =~= u32_to_le(seed));
    assert(seed_of(c) == seed);
    assert(c.subrange(4, c.len() as int) =~= xor_stream(payload, seed));
    lemma_xor_stream_involutive(payload, seed);
}

} // verus!
