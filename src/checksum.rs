//! The container's checksum: a fold over little-endian 32-bit words that
//! alternates XOR (first, third, ... word) and wrapping addition (second,
//! fourth, ... word). Trailing bytes that do not fill a word are ignored.

use vstd::prelude::*;
use crate::bytes::{read_u32_le, u32_le};

verus! {

/// The fold over the first `n` words of `data`.
pub open spec fn checksum_words(data: Seq<u8>, n: nat) -> u32
    decreases n,
{
    if n == 0 {
        0
    } else {
        let prev = checksum_words(data, (n - 1) as nat);
        let w = u32_le(data, 4 * (n - 1));
        if (n - 1) % 2 == 0 {
            prev ^ w
        } else {
            vstd::wrapping::u32_specs::wrapping_add(prev, w)
        }
    }
}

/// The checksum of `data`: the fold over all its complete words.
pub open spec fn checksum_of(data: Seq<u8>) -> u32 {
    checksum_words(data, data.len() / 4)
}

/// The fold over `n` words depends only on the first `4 * n` bytes.
pub proof fn lemma_checksum_words_prefix(a: Seq<u8>, b: Seq<u8>, n: nat)
    requires
        4 * n <= a.len(),
        4 * n <= b.len(),
        forall|i: int| 0 <= i < 4 * n ==> a[i] == b[i],
    ensures
        checksum_words(a, n) == checksum_words(b, n),
    decreases n,
{
    if n > 0 {
        lemma_checksum_words_prefix(a, b, (n - 1) as nat);
        let at = 4 * (n - 1);
        assert(a[at] == b[at] && a[at + 1] == b[at + 1] && a[at + 2] == b[at + 2] && a[at + 3]
            == b[at + 3]);
    }
}

/// Data shorter than a word has checksum 0.
pub proof fn lemma_checksum_short(data: Seq<u8>)
    requires
        data.len() < 4,
    ensures
        checksum_of(data) == 0,
{
}

/// Appending one word to word-aligned data XORs it into the checksum when it
/// is the first, third, ... word, and adds it with wraparound otherwise.
pub proof fn lemma_checksum_append_word(data: Seq<u8>, word: Seq<u8>)
    requires
        data.len() % 4 == 0,
        word.len() == 4,
    ensures
        checksum_of(data + word) == if (data.len() / 4) % 2 == 0 {
            checksum_of(data) ^ u32_le(word, 0)
        } else {
            vstd::wrapping::u32_specs::wrapping_add(checksum_of(data), u32_le(word, 0))
        },
{
    let all = data + word;
    let n = data.len() / 4;
    assert(all.len() / 4 == n + 1);
    lemma_checksum_words_prefix(data, all, n);
    let at: int = (4 * n) as int;
    assert(all[at] == word[0] && all[at + 1] == word[1] && all[at + 2] == word[2] && all[at + 3]
        == word[3]);
}

/// The checksum of `data`, in one pass.
pub fn checksum(data: &[u8]) -> (r: u32)
    ensures
        r == checksum_of(data@),
{
    let len: usize = data.len();
    let mut sum: u32 = 0;
    let mut odd: bool = false;
    let mut n: usize = 0;
    while n < len / 4
        invariant
            len == data@.len(),
            n <= len / 4,
            sum == checksum_words(data@, n as nat),
            odd == (n % 2 == 1),
        decreases len / 4 - n,
    {
        let element = read_u32_le(data, 4 * n);
        if odd {
            sum = sum.wrapping_add(element);
        } else {
            sum = sum ^ element;
        }
        odd = !odd;
        n = n + 1;
    }
    sum
}

/// Running checksum over bytes fed in pieces of any size.
pub struct Checksummer {
    checksum: u32,
    odd: bool,
    pending: Vec<u8>,
    seen: Ghost<Seq<u8>>,
}

impl View for Checksummer {
    type V = Seq<u8>;

    /// All bytes fed so far.
    closed spec fn view(&self) -> Seq<u8> {
        self.seen@
    }
}

impl Checksummer {
    /// The running values agree with the bytes fed so far.
    pub closed spec fn wf(&self) -> bool {
        let seen = self.seen@;
        &&& self.pending@ == seen.subrange((4 * (seen.len() / 4)) as int, seen.len() as int)
        &&& self.checksum == checksum_of(seen)
        &&& self.odd == ((seen.len() / 4) % 2 == 1)
    }

    /// A checksummer that has seen no bytes.
    pub fn new() -> (r: Checksummer)
        ensures
            r.wf(),
            r@ == Seq::<u8>::empty(),
    {
        let r = Checksummer { checksum: 0, odd: false, pending: Vec::new(), seen: Ghost(Seq::empty()) };
        assert(r.pending@ =~= Seq::<u8>::empty().subrange(0, 0));
        r
    }

    /// Feeds one byte.
    fn push_byte(&mut self, byte: u8)
        requires
            old(self).wf(),
        ensures
            final(self).wf(),
            final(self)@ == old(self)@.push(byte),
    {
        let ghost before = self.seen@;
        let ghost after = before.push(byte);
        let ghost n: int = (before.len() / 4) as int;
        self.pending.push(byte);
        self.seen = Ghost(after);
        proof {
            lemma_checksum_words_prefix(before, after, n as nat);
        }
        if self.pending.len() == 4 {
            let word = read_u32_le(self.pending.as_slice(), 0);
            proof {
                assert(after.len() / 4 == n + 1);
                assert(word == u32_le(after, 4 * n)) by {
                    assert(self.pending@[0] == after[4 * n]);
                    assert(self.pending@[1] == after[4 * n + 1]);
                    assert(self.pending@[2] == after[4 * n + 2]);
                    assert(self.pending@[3] == after[4 * n + 3]);
                }
            }
            if self.odd {
                self.checksum = self.checksum.wrapping_add(word);
            } else {
                self.checksum = self.checksum ^ word;
            }
            self.odd = !self.odd;
            self.pending.clear();
            assert(self.pending@ =~= after.subrange((4 * (after.len() / 4)) as int, after.len() as int));
        } else {
            assert(after.len() / 4 == n);
            assert(self.pending@ =~= after.subrange((4 * (after.len() / 4)) as int, after.len() as int));
        }
    }

    /// Feeds `bytes`.
    pub fn update(&mut self, bytes: &[u8])
        requires
            old(self).wf(),
        ensures
            final(self).wf(),
            final(self)@ == old(self)@ + bytes@,
    {
        let ghost start = self@;
        let len: usize = bytes.len();
        let mut k: usize = 0;
        while k < len
            invariant
                len == bytes@.len(),
                k <= len,
                self.wf(),
                self@ == start + bytes@.take(k as int),
            decreases len - k,
        {
            self.push_byte(bytes[k]);
            assert(start + bytes@.take(k + 1) =~= (start + bytes@.take(k as int)).push(bytes@[k as int]));
            k = k + 1;
        }
        assert(bytes@.take(len as int) =~= bytes@);
    }

    /// The checksum of all bytes fed so far.
    pub fn value(&self) -> (r: u32)
        requires
            self.wf(),
        ensures
            r == checksum_of(self@),
    {
        self.checksum
    }
}

} // verus!
