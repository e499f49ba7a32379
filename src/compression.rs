//! The LZSS decoder.
//!
//! The compressed stream is read bit by bit, most significant bit of each byte
//! first, as a sequence of tokens:
//! - a `1` bit, then an 8-bit literal byte;
//! - a `0` bit, then a 12-bit window offset and a 4-bit length field: the
//!   `length + 2` bytes found in the window from that offset on are emitted.
//!
//! Every emitted byte is also written into a 4096-byte circular window, at a
//! write cursor that starts at 1. A copy reads and writes the same window one
//! byte at a time, so it may repeat bytes that it has just written itself. A
//! copy can be split over several calls of [`CompressedReader::read`]: the copy
//! cursor and the count of bytes left are kept between calls. The stream has
//! no end marker; the caller decides how many bytes it wants.

use vstd::prelude::*;
use crate::bitstream::{bits_msb, lemma_field_bounds, read_bits};
use crate::bytes::copy_from;

verus! {

/// Size of the circular window.
pub const WINDOW_SIZE: usize = 0x1000;

/// Abstract state of the decoder.
pub struct DecoderState {
    /// The circular window.
    pub window: Seq<u8>,
    /// Where the next emitted byte is stored.
    pub write: int,
    /// Where the pending copy reads its next byte.
    pub copy_from: int,
    /// Bytes left in the pending copy.
    pub remaining: int,
    /// Bit position of the next token in the compressed stream.
    pub pos: int,
}

/// The state before the first token: a zeroed window, the write cursor at 1.
pub open spec fn start_state() -> DecoderState {
    DecoderState {
        window: Seq::new(WINDOW_SIZE as nat, |i: int| 0u8),
        write: 1,
        copy_from: 0,
        remaining: 0,
        pos: 0,
    }
}

/// Stores `b` at the write cursor and advances it.
pub open spec fn store(s: DecoderState, b: u8) -> DecoderState {
    DecoderState {
        window: s.window.update(s.write, b),
        write: (s.write + 1) % (WINDOW_SIZE as int),
        ..s
    }
}

/// Emits the byte under the copy cursor: it is stored, and the copy cursor
/// advances.
pub open spec fn copy_byte(s: DecoderState) -> (DecoderState, u8) {
    let b = s.window[s.copy_from];
    let t = store(s, b);
    (
        DecoderState {
            copy_from: (s.copy_from + 1) % (WINDOW_SIZE as int),
            remaining: s.remaining - 1,
            ..t
        },
        b,
    )
}

/// The next byte that `input` decodes to from state `s`, with the state after
/// it; `None` where the token that it needs runs past the end of `input`.
pub open spec fn next_byte(input: Seq<u8>, s: DecoderState) -> Option<(DecoderState, u8)> {
    let avail = 8 * input.len();
    if s.remaining > 0 {
        Some(copy_byte(s))
    } else if s.pos + 1 > avail {
        None
    } else if bits_msb(input, s.pos, 1) == 1 {
        if s.pos + 9 > avail {
            None
        } else {
            let b = bits_msb(input, s.pos + 1, 8) as u8;
            Some((store(DecoderState { pos: s.pos + 9, ..s }, b), b))
        }
    } else if s.pos + 17 > avail {
        None
    } else {
        Some(
            copy_byte(
                DecoderState {
                    copy_from: bits_msb(input, s.pos + 1, 12) as int,
                    remaining: bits_msb(input, s.pos + 13, 4) as int + 2,
                    pos: s.pos + 17,
                    ..s
                },
            ),
        )
    }
}

/// The first `n` bytes that `input` decodes to from `s`, with the state after
/// them; or the state at which the next byte could not be decoded.
pub open spec fn decode_run(input: Seq<u8>, s: DecoderState, n: nat) -> Result<
    (DecoderState, Seq<u8>),
    DecoderState,
>
    decreases n,
{
    if n == 0 {
        Ok((s, Seq::empty()))
    } else {
        match decode_run(input, s, (n - 1) as nat) {
            Ok((t, out)) => match next_byte(input, t) {
                Some((u, b)) => Ok((u, out.push(b))),
                None => Err(t),
            },
            Err(t) => Err(t),
        }
    }
}

/// The first `size` bytes that `input` decodes to, or the byte offset of the
/// token that runs past the end of `input`.
pub open spec fn lzss_decode(input: Seq<u8>, size: nat) -> Result<Seq<u8>, int> {
    match decode_run(input, start_state(), size) {
        Ok((_, out)) => Ok(out),
        Err(t) => Err(t.pos / 8),
    }
}

/// Whether a copy is still pending after the first `j` bytes decoded from `s`.
pub open spec fn still_copying(input: Seq<u8>, s: DecoderState, j: nat) -> bool {
    match decode_run(input, s, j) {
        Ok((u, _)) => u.remaining > 0,
        Err(_) => false,
    }
}

/// `out` and `t` are what one read of at most `max` bytes gives from `s`: the
/// bytes of the pending copy or of one token, cut short only at `max` bytes.
pub open spec fn is_burst(input: Seq<u8>, s: DecoderState, max: nat, out: Seq<u8>, t: DecoderState) -> bool {
    &&& 1 <= out.len() <= max
    &&& decode_run(input, s, out.len()) == Ok::<(DecoderState, Seq<u8>), DecoderState>((t, out))
    &&& (out.len() == max || t.remaining == 0)
    &&& forall|j: nat| 1 <= j < out.len() ==> #[trigger] still_copying(input, s, j)
}

/// Decoding `a` bytes and then `b` more is decoding `a + b` bytes.
pub proof fn lemma_run_extend(input: Seq<u8>, s: DecoderState, a: nat, b: nat)
    requires
        decode_run(input, s, a) is Ok,
    ensures
        decode_run(input, s, a + b) == match decode_run(input, decode_run(input, s, a)->Ok_0.0, b) {
            Ok((u, o)) => Ok((u, decode_run(input, s, a)->Ok_0.1 + o)),
            Err(x) => Err(x),
        },
    decreases b,
{
    let (t, o1) = decode_run(input, s, a)->Ok_0;
    if b == 0 {
        assert(o1 + Seq::<u8>::empty() =~= o1);
    } else {
        lemma_run_extend(input, s, a, (b - 1) as nat);
        assert((a + b - 1) as nat == a + (b - 1) as nat);
        match decode_run(input, t, (b - 1) as nat) {
            Ok((u, o)) => {
                assert((o1 + o).push(next_byte(input, u)->Some_0.1) =~= o1 + o.push(
                    next_byte(input, u)->Some_0.1,
                ));
            },
            Err(x) => {},
        }
    }
}

/// Once decoding fails, asking for more bytes fails at the same state.
pub proof fn lemma_run_err_persists(input: Seq<u8>, s: DecoderState, a: nat, b: nat)
    requires
        decode_run(input, s, a) is Err,
    ensures
        decode_run(input, s, a + b) == decode_run(input, s, a),
    decreases b,
{
    if b > 0 {
        lemma_run_err_persists(input, s, a, (b - 1) as nat);
        assert((a + b - 1) as nat == a + (b - 1) as nat);
    }
}

/// Decoding `n` bytes gives `n` bytes.
pub proof fn lemma_run_len(input: Seq<u8>, s: DecoderState, n: nat)
    requires
        decode_run(input, s, n) is Ok,
    ensures
        decode_run(input, s, n)->Ok_0.1.len() == n,
        decode_run(input, s, n)->Ok_0.0.pos >= s.pos,
    decreases n,
{
    if n > 0 {
        lemma_run_len(input, s, (n - 1) as nat);
    }
}

/// Bits within `input` read the same once more bytes follow it.
pub proof fn lemma_bits_prefix(input: Seq<u8>, extra: Seq<u8>, pos: int, n: nat)
    requires
        0 <= pos,
        pos + n <= 8 * input.len(),
    ensures
        bits_msb(input + extra, pos, n) == bits_msb(input, pos, n),
    decreases n,
{
    if n > 0 {
        lemma_bits_prefix(input, extra, pos, (n - 1) as nat);
        let i = pos + n - 1;
        assert((input + extra)[i / 8] == input[i / 8]);
    }
}

/// A byte that `input` decodes to is decoded the same once more bytes follow.
pub proof fn lemma_next_byte_prefix(input: Seq<u8>, extra: Seq<u8>, s: DecoderState)
    requires
        0 <= s.pos,
        next_byte(input, s) is Some,
    ensures
        next_byte(input + extra, s) == next_byte(input, s),
{
    if s.remaining <= 0 {
        lemma_bits_prefix(input, extra, s.pos, 1);
        if bits_msb(input, s.pos, 1) == 1 {
            lemma_bits_prefix(input, extra, s.pos + 1, 8);
        } else {
            lemma_bits_prefix(input, extra, s.pos + 1, 12);
            lemma_bits_prefix(input, extra, s.pos + 13, 4);
        }
    }
}

/// Bytes that `input` decodes to are decoded the same once more bytes follow.
pub proof fn lemma_run_prefix(input: Seq<u8>, extra: Seq<u8>, s: DecoderState, n: nat)
    requires
        0 <= s.pos,
        decode_run(input, s, n) is Ok,
    ensures
        decode_run(input + extra, s, n) == decode_run(input, s, n),
    decreases n,
{
    if n > 0 {
        let m = (n - 1) as nat;
        lemma_run_prefix(input, extra, s, m);
        lemma_run_len(input, s, m);
        lemma_next_byte_prefix(input, extra, decode_run(input, s, m)->Ok_0.0);
    }
}

/// Decoding stops after exactly `size` bytes, whatever follows in the input:
/// bytes appended to a stream that decodes to `size` bytes change nothing.
pub proof fn lemma_decode_ignores_trailing_input(input: Seq<u8>, extra: Seq<u8>, size: nat)
    requires
        lzss_decode(input, size) is Ok,
    ensures
        lzss_decode(input, size)->Ok_0.len() == size,
        lzss_decode(input + extra, size) == lzss_decode(input, size),
{
    lemma_run_len(input, start_state(), size);
    lemma_run_prefix(input, extra, start_state(), size);
}

/// The token at bit `pos`: how many bytes it emits and how many bits it takes;
/// `None` where it runs past the end of `input`.
pub open spec fn token_at(input: Seq<u8>, pos: int) -> Option<(nat, int)> {
    let avail = 8 * input.len();
    if pos + 1 > avail {
        None
    } else if bits_msb(input, pos, 1) == 1 {
        if pos + 9 > avail {
            None
        } else {
            Some((1nat, 9int))
        }
    } else if pos + 17 > avail {
        None
    } else {
        Some(((bits_msb(input, pos + 13, 4) + 2) as nat, 17int))
    }
}

/// The `k` tokens from bit `pos` on: the bytes they emit in all (1 for each
/// literal, length field + 2 for each copy), and the bit position after them.
pub open spec fn tokens_from(input: Seq<u8>, pos: int, k: nat) -> Option<(nat, int)>
    decreases k,
{
    if k == 0 {
        Some((0nat, pos))
    } else {
        match tokens_from(input, pos, (k - 1) as nat) {
            Some((n, p)) => match token_at(input, p) {
                Some((b, w)) => Some(((n + b) as nat, p + w)),
                None => None,
            },
            None => None,
        }
    }
}

/// A pending copy of `r` bytes runs to its end without reading the stream.
proof fn lemma_drain_copy(input: Seq<u8>, t: DecoderState, j: nat)
    requires
        j <= t.remaining,
    ensures
        decode_run(input, t, j) is Ok,
        decode_run(input, t, j)->Ok_0.0.remaining == t.remaining - j,
        decode_run(input, t, j)->Ok_0.0.pos == t.pos,
    decreases j,
{
    if j > 0 {
        lemma_drain_copy(input, t, (j - 1) as nat);
    }
}

/// One whole token, decoded from a state with no pending copy, emits its
/// bytes and leaves no pending copy behind.
proof fn lemma_one_token(input: Seq<u8>, s: DecoderState)
    requires
        s.remaining == 0,
        token_at(input, s.pos) is Some,
    ensures
        decode_run(input, s, token_at(input, s.pos)->Some_0.0) is Ok,
        decode_run(input, s, token_at(input, s.pos)->Some_0.0)->Ok_0.0.remaining == 0,
        decode_run(input, s, token_at(input, s.pos)->Some_0.0)->Ok_0.0.pos == s.pos + token_at(
            input,
            s.pos,
        )->Some_0.1,
{
    let (b, w) = token_at(input, s.pos)->Some_0;
    assert(decode_run(input, s, 0) == Ok::<(DecoderState, Seq<u8>), DecoderState>((s, Seq::empty())));
    if bits_msb(input, s.pos, 1) != 1 {
        let t = decode_run(input, s, 1)->Ok_0.0;
        lemma_drain_copy(input, t, (b - 1) as nat);
        lemma_run_extend(input, s, 1, (b - 1) as nat);
        assert(1 + (b - 1) as nat == b);
    }
}

/// A stream of `k` whole tokens, decoded from a state with no pending copy,
/// emits exactly the bytes that its tokens count (1 for each literal, length
/// field + 2 for each copy) and stops at the end of the last token.
pub proof fn lemma_tokens_emit(input: Seq<u8>, s: DecoderState, k: nat)
    requires
        s.remaining == 0,
        tokens_from(input, s.pos, k) is Some,
    ensures
        decode_run(input, s, tokens_from(input, s.pos, k)->Some_0.0) is Ok,
        decode_run(input, s, tokens_from(input, s.pos, k)->Some_0.0)->Ok_0.0.remaining == 0,
        decode_run(input, s, tokens_from(input, s.pos, k)->Some_0.0)->Ok_0.0.pos == tokens_from(
            input,
            s.pos,
            k,
        )->Some_0.1,
    decreases k,
{
    if k == 0 {
        assert(decode_run(input, s, 0) == Ok::<(DecoderState, Seq<u8>), DecoderState>((s, Seq::empty())));
    } else {
        let m = (k - 1) as nat;
        lemma_tokens_emit(input, s, m);
        let (n, p) = tokens_from(input, s.pos, m)->Some_0;
        let t = decode_run(input, s, n)->Ok_0.0;
        lemma_one_token(input, t);
        let b = token_at(input, p)->Some_0.0;
        lemma_run_extend(input, s, n, b);
    }
}

/// The compressed stream ran out in the middle of a token.
#[derive(Debug, PartialEq, Eq, Structural)]
pub struct PrematureEnd {
    /// Byte offset, in the compressed stream, of the token that could not be read.
    pub offset: usize,
}

/// Streaming LZSS decoder over a compressed byte sequence.
pub struct CompressedReader {
    source: Vec<u8>,
    window: [u8; 4096],
    window_pointer: usize,
    output_pointer: usize,
    output_size: usize,
    byte_pos: usize,
    bit_pos: u32,
}

impl View for CompressedReader {
    type V = DecoderState;

    closed spec fn view(&self) -> DecoderState {
        DecoderState {
            window: self.window@,
            write: self.window_pointer as int,
            copy_from: self.output_pointer as int,
            remaining: self.output_size as int,
            pos: 8 * self.byte_pos + self.bit_pos,
        }
    }
}

/// A decoder at the start of `source`.
pub fn decompress(source: Vec<u8>) -> (r: CompressedReader)
    ensures
        r.wf(),
        r.source() == source@,
        r@ == start_state(),
{
    let len = source.len();
    let r = CompressedReader {
        source,
        window: [0; 4096],
        window_pointer: 1,
        output_pointer: 0,
        output_size: 0,
        byte_pos: 0,
        bit_pos: 0,
    };
    assert(r@.window =~= start_state().window);
    r
}

/// Decodes the first `unpacked_size` bytes of `input`.
pub fn lz_unpack(input: &[u8], unpacked_size: usize) -> (r: Result<Vec<u8>, PrematureEnd>)
    ensures
        lzss_decode(input@, unpacked_size as nat) is Ok ==> r is Ok && r->Ok_0@ == lzss_decode(
            input@,
            unpacked_size as nat,
        )->Ok_0,
        lzss_decode(input@, unpacked_size as nat) is Err ==> r is Err && r->Err_0.offset
            == lzss_decode(input@, unpacked_size as nat)->Err_0,
{
    let mut reader = decompress(copy_from(input, 0));
    assert(input@.subrange(0, input@.len() as int) =~= input@);
    reader.read_to_size(unpacked_size)
}

impl CompressedReader {
    /// The compressed stream.
    pub closed spec fn source(&self) -> Seq<u8> {
        self.source@
    }

    /// Cursors within the window, a copy of at most 17 bytes pending, and the
    /// bit position within the stream.
    pub closed spec fn wf(&self) -> bool {
        &&& self.window@.len() == WINDOW_SIZE
        &&& self.source@.len() <= usize::MAX
        &&& self.window_pointer < WINDOW_SIZE
        &&& self.output_pointer < WINDOW_SIZE
        &&& self.output_size <= 17
        &&& self.bit_pos < 8
        &&& 8 * self.byte_pos + self.bit_pos <= 8 * self.source@.len()
    }

    fn write_to_window(&mut self, value: u8)
        requires
            old(self).wf(),
        ensures
            final(self).wf(),
            final(self).source() == old(self).source(),
            final(self)@ == store(old(self)@, value),
    {
        self.window[self.window_pointer] = value;
        self.window_pointer = (self.window_pointer + 1) % WINDOW_SIZE;
    }

    /// Emits the byte under the copy cursor.
    fn copy_one(&mut self) -> (b: u8)
        requires
            old(self).wf(),
            old(self)@.remaining > 0,
        ensures
            final(self).wf(),
            final(self).source() == old(self).source(),
            (final(self)@, b) == copy_byte(old(self)@),
    {
        let value = self.window[self.output_pointer];
        self.write_to_window(value);
        self.output_pointer = (self.output_pointer + 1) % WINDOW_SIZE;
        self.output_size = self.output_size - 1;
        value
    }

    /// The `n` bits at the current position, if the stream holds them.
    fn read_field(&self, n: u32) -> (r: Option<u32>)
        requires
            self.wf(),
            1 <= n <= 16,
        ensures
            r == (if self@.pos + n <= 8 * self.source().len() {
                Some(bits_msb(self.source(), self@.pos, n as nat) as u32)
            } else {
                None
            }),
    {
        read_bits(self.source.as_slice(), self.byte_pos, self.bit_pos, n)
    }

    /// Moves the bit position `k` bits on.
    fn advance(&mut self, k: u32)
        requires
            old(self).wf(),
            k <= 16,
            old(self)@.pos + k <= 8 * old(self).source().len(),
        ensures
            final(self).wf(),
            final(self).source() == old(self).source(),
            final(self)@ == (DecoderState { pos: old(self)@.pos + k, ..old(self)@ }),
    {
        let total: u32 = self.bit_pos + k;
        assert(self.byte_pos + total / 8 <= self.source@.len());
        self.byte_pos = self.byte_pos + (total / 8) as usize;
        self.bit_pos = total % 8;
    }

    /// Decodes at most `max` bytes: those left of a pending copy, or else
    /// those of the next token. A copy that does not fit in `max` bytes stays
    /// pending for the next call.
    pub fn read(&mut self, max: usize) -> (r: Result<Vec<u8>, PrematureEnd>)
        requires
            old(self).wf(),
        ensures
            final(self).wf(),
            final(self).source() == old(self).source(),
            max == 0 ==> r is Ok && r->Ok_0@.len() == 0 && final(self)@ == old(self)@,
            max > 0 ==> (r is Ok <==> next_byte(old(self).source(), old(self)@) is Some),
            max > 0 && r is Ok ==> is_burst(
                old(self).source(),
                old(self)@,
                max as nat,
                r->Ok_0@,
                final(self)@,
            ),
            r is Err ==> r->Err_0.offset == old(self)@.pos / 8,
    {
        let ghost src = self.source();
        let ghost s0 = self@;
        let mut out: Vec<u8> = Vec::new();
        if max == 0 {
            return Ok(out);
        }
        let token_start = self.byte_pos;
        if self.output_size == 0 {
            let control = match self.read_field(1) {
                Some(v) => v,
                None => {
                    return Err(PrematureEnd { offset: token_start });
                },
            };
            proof {
                lemma_field_bounds(src, s0.pos);
                lemma_field_bounds(src, s0.pos + 1);
                lemma_field_bounds(src, s0.pos + 13);
            }
            self.advance(1);
            if control == 1 {
                let value = match self.read_field(8) {
                    Some(v) => v as u8,
                    None => {
                        return Err(PrematureEnd { offset: token_start });
                    },
                };
                self.advance(8);
                self.write_to_window(value);
                out.push(value);
                assert(decode_run(src, s0, 0) == Ok::<(DecoderState, Seq<u8>), DecoderState>((s0, Seq::empty())));
                assert(out@ =~= Seq::<u8>::empty().push(value));
                return Ok(out);
            }
            let offset = match self.read_field(12) {
                Some(v) => v,
                None => {
                    return Err(PrematureEnd { offset: token_start });
                },
            };
            self.advance(12);
            let size = match self.read_field(4) {
                Some(v) => v,
                None => {
                    return Err(PrematureEnd { offset: token_start });
                },
            };
            self.advance(4);
            self.output_pointer = offset as usize;
            self.output_size = (size as usize) + 2;
        }
        let first = self.copy_one();
        out.push(first);
        assert(decode_run(src, s0, 0) == Ok::<(DecoderState, Seq<u8>), DecoderState>((s0, Seq::empty())));
        assert(out@ =~= Seq::<u8>::empty().push(first));
        assert(decode_run(src, s0, 1) == Ok::<(DecoderState, Seq<u8>), DecoderState>((self@, out@)));
        while out.len() < max && self.output_size > 0
            invariant
                self.wf(),
                self.source() == src,
                1 <= out@.len() <= max,
                decode_run(src, s0, out@.len() as nat) == Ok::<(DecoderState, Seq<u8>), DecoderState>(
                    (self@, out@),
                ),
                forall|j: nat| 1 <= j < out@.len() ==> #[trigger] still_copying(src, s0, j),
            decreases max - out@.len(),
        {
            assert(still_copying(src, s0, out@.len() as nat));
            let ghost prev = out@;
            let value = self.copy_one();
            out.push(value);
            assert(decode_run(src, s0, out@.len() as nat) == Ok::<(DecoderState, Seq<u8>), DecoderState>(
                (self@, out@),
            )) by {
                assert((out@.len() - 1) as nat == prev.len());
            }
        }
        Ok(out)
    }

    /// Decodes exactly `size` bytes, over as many tokens as that takes.
    pub fn read_to_size(&mut self, size: usize) -> (r: Result<Vec<u8>, PrematureEnd>)
        requires
            old(self).wf(),
        ensures
            final(self).wf(),
            final(self).source() == old(self).source(),
            decode_run(old(self).source(), old(self)@, size as nat) is Ok ==> r is Ok && r->Ok_0@
                == decode_run(old(self).source(), old(self)@, size as nat)->Ok_0.1 && final(self)@
                == decode_run(old(self).source(), old(self)@, size as nat)->Ok_0.0,
            decode_run(old(self).source(), old(self)@, size as nat) is Err ==> r is Err
                && r->Err_0.offset == decode_run(
                old(self).source(),
                old(self)@,
                size as nat,
            )->Err_0.pos / 8,
    {
        let ghost src = self.source();
        let ghost s0 = self@;
        let mut out: Vec<u8> = Vec::new();
        assert(decode_run(src, s0, 0) == Ok::<(DecoderState, Seq<u8>), DecoderState>((s0, out@)));
        while out.len() < size
            invariant
                self.wf(),
                self.source() == src,
                src == old(self).source(),
                s0 == old(self)@,
                out@.len() <= size,
                decode_run(src, s0, out@.len() as nat) == Ok::<(DecoderState, Seq<u8>), DecoderState>(
                    (self@, out@),
                ),
            decreases size - out@.len(),
        {
            let ghost before = self@;
            let ghost n = out@.len() as nat;
            let ghost produced = out@;
            let res = self.read(size - out.len());
            match res {
                Ok(bytes) => {
                    let mut bytes = bytes;
                    proof {
                        lemma_run_extend(src, s0, n, bytes@.len());
                    }
                    out.append(&mut bytes);
                },
                Err(e) => {
                    proof {
                        assert(decode_run(src, s0, n + 1) == Err::<(DecoderState, Seq<u8>), DecoderState>(before));
                        lemma_run_err_persists(src, s0, n + 1, (size - n - 1) as nat);
                        assert(n + 1 + (size - n - 1) as nat == size as nat);
                    }
                    return Err(e);
                },
            }
        }
        Ok(out)
    }
}

} // verus!
