//! The seeded word generator behind the obfuscation layer.

use vstd::prelude::*;

verus! {

/// Multiplier of the linear congruential step that fills the generator table.
pub const LCG_MULTIPLIER: u64 = 0x41c6_4e6d;

/// One linear congruential step on a seed: the new seed is the low 32 bits of
/// `seed * 0x41c64e6d + 12345`, and the table word is bits 16..47 of it.
pub open spec fn seed_step(seed: u32) -> (u32, u32) {
    let v = seed as int * 0x41c6_4e6d + 12345;
    ((v % 0x1_0000_0000) as u32, ((v / 0x1_0000) % 0x1_0000_0000) as u32)
}

/// Number of words in the generator table.
pub const TABLE_LEN: usize = 250;

/// Distance between the two table cursors.
pub const LAG: usize = 103;

/// The seed after `k` linear congruential steps.
pub open spec fn seed_after(seed: u32, k: nat) -> u32
    decreases k,
{
    if k == 0 {
        seed
    } else {
        seed_step(seed_after(seed, (k - 1) as nat)).0
    }
}

/// The `k`-th word (from 0) that the linear congruential steps produce.
pub open spec fn fill_word(seed: u32, k: nat) -> u32 {
    seed_step(seed_after(seed, k)).1
}

/// Whether table index `i` receives one of the 32 fix-ups: 3, 10, 17, ..., 220.
pub open spec fn is_fixup_index(i: int) -> bool {
    3 <= i && (i - 3) % 7 == 0 && (i - 3) / 7 < 32
}

/// The `k`-th fix-up: bit `31 - k` is set and the bits above it cleared.
pub open spec fn fixup(word: u32, k: u32) -> u32 {
    (0x8000_0000u32 >> k) | (word & (0xffff_ffffu32 >> k))
}

/// The table before the fix-ups: index 249 holds the first word, index 0 the last.
pub open spec fn raw_table(seed: u32) -> Seq<u32> {
    Seq::new(TABLE_LEN as nat, |i: int| fill_word(seed, (249 - i) as nat))
}

/// The generator table built from a seed.
pub open spec fn initial_table(seed: u32) -> Seq<u32> {
    Seq::new(
        TABLE_LEN as nat,
        |i: int|
            if is_fixup_index(i) {
                fixup(raw_table(seed)[i], ((i - 3) / 7) as u32)
            } else {
                raw_table(seed)[i]
            },
    )
}

/// Abstract state of the generator: its table and its two cursors.
pub struct PrngState {
    pub table: Seq<u32>,
    pub i: int,
    pub j: int,
}

/// The state of a generator freshly built from `seed`.
pub open spec fn prng_start(seed: u32) -> PrngState {
    PrngState { table: initial_table(seed), i: 0, j: LAG as int }
}

/// One draw: XOR of the two cursor words, written back at the first cursor,
/// then both cursors advance modulo the table length.
pub open spec fn prng_step(s: PrngState) -> (PrngState, u32) {
    let v = s.table[s.i] ^ s.table[s.j];
    (
        PrngState {
            table: s.table.update(s.i, v),
            i: (s.i + 1) % (TABLE_LEN as int),
            j: (s.j + 1) % (TABLE_LEN as int),
        },
        v,
    )
}

/// The state after `n` draws from a generator built from `seed`.
pub open spec fn prng_after(seed: u32, n: nat) -> PrngState
    decreases n,
{
    if n == 0 {
        prng_start(seed)
    } else {
        prng_step(prng_after(seed, (n - 1) as nat)).0
    }
}

/// The `n`-th word (from 0) drawn from a generator built from `seed`.
pub open spec fn prng_word(seed: u32, n: nat) -> u32 {
    prng_step(prng_after(seed, n)).1
}

/// Generators built from equal seeds draw equal words, one draw after another.
pub proof fn lemma_prng_deterministic(seed1: u32, seed2: u32, n: nat)
    requires
        seed1 == seed2,
    ensures
        prng_after(seed1, n) == prng_after(seed2, n),
        prng_word(seed1, n) == prng_word(seed2, n),
{
}

/// The `k`-th fix-up lands at index `3 + 7 * k`, where it leaves bit `31 - k`
/// as the highest set bit; every other index keeps its filled word.
pub proof fn lemma_fixup_positions(seed: u32, k: u32, i: int)
    requires
        k < 32,
        0 <= i < TABLE_LEN,
    ensures
        initial_table(seed)[3 + 7 * k] >> (31 - k) as u32 == 1,
        !is_fixup_index(i) ==> initial_table(seed)[i] == fill_word(seed, (249 - i) as nat),
{
    let at = 3 + 7 * k;
    assert(is_fixup_index(at) && (at - 3) / 7 == k);
    let w = raw_table(seed)[at];
    assert(fixup(w, k) >> (31 - k) as u32 == 1) by (bit_vector)
        requires
            k < 32,
    ;
}

/// Lagged XOR generator keyed by a 32-bit seed.
pub struct PRNG {
    table: [u32; 250],
    i: usize,
    j: usize,
}

impl View for PRNG {
    type V = PrngState;

    closed spec fn view(&self) -> PrngState {
        PrngState { table: self.table@, i: self.i as int, j: self.j as int }
    }
}

impl PRNG {
    /// Computes `seed_step` bit for bit as the format defines it: the 64-bit
    /// product's high word is shifted left by 16 within 32 bits, then the
    /// 64-bit constant `0xffff_0000_3039` is added with wraparound.
    pub fn seed_iterate(seed: u32) -> (r: (u32, u32))
        ensures
            r == seed_step(seed),
    {
        let t: u64 = LCG_MULTIPLIER * (seed as u64);
        let t_hi: u32 = (#[verifier::truncate] ((t >> 32u64) as u32)) << 16u32;
        let t_lo: u32 = #[verifier::truncate] (t as u32);
        let t2: u64 = ((t_hi as u64) << 32u64) | (t_lo as u64);
        let t3: u64 = t2.wrapping_add(0xffff_0000_3039);
        let new_seed: u32 = #[verifier::truncate] (t3 as u32);
        let word: u32 = ((#[verifier::truncate] ((t3 >> 32u64) as u32)) & 0xffff_0000u32) | ((
            #[verifier::truncate] (t3 as u32)) >> 16u32);
        proof {
            let v: u64 = ((seed as u64) * 0x41c6_4e6d + 12345) as u64;
            assert(seed as int * 0x41c6_4e6d + 12345 < 0x1_0000_0000_0000_0000) by (nonlinear_arith)
                requires
                    seed < 0x1_0000_0000,
            ;
            assert(new_seed == v as u32 && word == (v >> 16u64) as u32) by (bit_vector)
                requires
                    t == (seed as u64) * 0x41c6_4e6d,
                    t_hi == ((t >> 32u64) as u32) << 16u32,
                    t_lo == t as u32,
                    t2 == ((t_hi as u64) << 32u64) | (t_lo as u64),
                    t3 == vstd::wrapping::u64_specs::wrapping_add(t2, 0xffff_0000_3039),
                    new_seed == t3 as u32,
                    word == (((t3 >> 32u64) as u32) & 0xffff_0000u32) | ((t3 as u32) >> 16u32),
                    v == ((seed as u64) * 0x41c6_4e6d + 12345) as u64,
            ;
            assert(v as u32 == v % 0x1_0000_0000 && (v >> 16u64) as u32 == (v / 0x1_0000) % 0x1_0000_0000) by (bit_vector);
        }
        (new_seed, word)
    }

    /// Cursors in range, the second one `LAG` ahead of the first.
    pub closed spec fn wf(&self) -> bool {
        &&& self.i < TABLE_LEN
        &&& self.j == (self.i + LAG) % (TABLE_LEN as int)
    }

    /// A generator keyed by `seed`, its cursors at 0 and `LAG`.
    pub fn new(seed: u32) -> (r: PRNG)
        ensures
            r.wf(),
            r@ == prng_start(seed),
    {
        PRNG { table: Self::table_from_seed(seed), i: 0, j: LAG }
    }

    /// Fills the table from index 249 down to 0 with successive words of the
    /// linear congruential steps, then applies the 32 fix-ups at indices 3,
    /// 10, 17, ..., each setting one bit lower than the one before and
    /// clearing the bits above it.
    pub fn table_from_seed(seed: u32) -> (r: [u32; 250])
        ensures
            r@ == initial_table(seed),
    {
        let mut current_seed: u32 = seed;
        let mut table: [u32; 250] = [0; 250];
        let mut k: usize = 0;
        while k < TABLE_LEN
            invariant
                k <= TABLE_LEN,
                table@.len() == TABLE_LEN,
                current_seed == seed_after(seed, k as nat),
                forall|i: int| 250 - k <= i < 250 ==> table@[i] == raw_table(seed)[i],
            decreases TABLE_LEN - k,
        {
            let (new_seed, fill_value) = Self::seed_iterate(current_seed);
            current_seed = new_seed;
            table[249 - k] = fill_value;
            k = k + 1;
        }
        let mut mask: u32 = 0xffff_ffff;
        let mut bit: u32 = 0x8000_0000;
        let mut i: usize = 3;
        let mut n: u32 = 0;
        assert(0x8000_0000u32 >> 0u32 == 0x8000_0000u32 && 0xffff_ffffu32 >> 0u32 == 0xffff_ffffu32)
            by (bit_vector);
        while bit != 0
            invariant
                n <= 32,
                i == 3 + 7 * n,
                bit == 0x8000_0000u32 >> n,
                mask == 0xffff_ffffu32 >> n,
                table@.len() == TABLE_LEN,
                forall|x: int|
                    0 <= x < 250 ==> #[trigger] table@[x] == if is_fixup_index(x) && (x - 3) / 7 < n {
                        fixup(raw_table(seed)[x], ((x - 3) / 7) as u32)
                    } else {
                        raw_table(seed)[x]
                    },
            decreases 32 - n,
        {
            assert(n < 32) by (bit_vector)
                requires
                    bit == 0x8000_0000u32 >> n,
                    bit != 0,
                    n <= 32,
            ;
            assert(is_fixup_index(i as int) && (i - 3) / 7 == n);
            table[i] = bit | table[i] & mask;
            i = i + 7;
            assert((bit >> 1u32) == 0x8000_0000u32 >> (n + 1) && (mask >> 1u32) == 0xffff_ffffu32 >> (n
                + 1)) by (bit_vector)
                requires
                    bit == 0x8000_0000u32 >> n,
                    mask == 0xffff_ffffu32 >> n,
                    n < 32,
            ;
            bit = bit >> 1;
            mask = mask >> 1;
            n = n + 1;
        }
        assert(n == 32) by (bit_vector)
            requires
                bit == 0x8000_0000u32 >> n,
                bit == 0,
                n <= 32,
        ;
        assert(table@ =~= initial_table(seed));
        table
    }

    /// Draws the next word.
    pub fn next(&mut self) -> (r: u32)
        requires
            old(self).wf(),
        ensures
            final(self).wf(),
            (final(self)@, r) == prng_step(old(self)@),
    {
        let value = self.table[self.i] ^ self.table[self.j];
        self.table[self.i] = value;
        self.i = (self.i + 1) % TABLE_LEN;
        self.j = (self.j + 1) % TABLE_LEN;
        value
    }
}

} // verus!
