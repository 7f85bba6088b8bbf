//! The SHA-1 digest that accompanies Maven artifacts as a `.sha1` file.
//!
//! The functions without an executable counterpart spell the algorithm out on
//! mathematical sequences: padding, message schedule, rounds, chaining.
use vstd::prelude::*;

use crate::text;

verus! {

/// The chaining value that every digest starts from.
pub open spec fn initial_state() -> Seq<u32> {
    seq![0x6745_2301u32, 0xefcd_ab89u32, 0x98ba_dcfeu32, 0x1032_5476u32, 0xc3d2_e1f0u32]
}

/// `x` with its bits moved `n` places to the left, those that fall out coming
/// back on the right.
pub open spec fn rotated(x: u32, n: u32) -> u32 {
    (x << n) | (x >> ((32 - n) as u32))
}

/// The big-endian word at position `t` of a block.
pub open spec fn block_word(block: Seq<u8>, t: int) -> u32 {
    (block[4 * t] * 0x100_0000 + block[4 * t + 1] * 0x1_0000 + block[4 * t + 2] * 0x100
        + block[4 * t + 3]) as u32
}

/// Word `t` of the message schedule of a block.
pub open spec fn schedule(block: Seq<u8>, t: int) -> u32
    decreases t,
{
    if t < 16 {
        block_word(block, t)
    } else {
        rotated(
            schedule(block, t - 3) ^ schedule(block, t - 8) ^ schedule(block, t - 14) ^ schedule(
                block,
                t - 16,
            ),
            1,
        )
    }
}

/// The logical function of round `t`.
pub open spec fn mix(t: int, b: u32, c: u32, d: u32) -> u32 {
    if t < 20 {
        (b & c) | ((!b) & d)
    } else if t < 40 {
        b ^ c ^ d
    } else if t < 60 {
        (b & c) | (b & d) | (c & d)
    } else {
        b ^ c ^ d
    }
}

/// The additive constant of round `t`.
pub open spec fn round_constant(t: int) -> u32 {
    if t < 20 {
        0x5a82_7999
    } else if t < 40 {
        0x6ed9_eba1
    } else if t < 60 {
        0x8f1b_bcdc
    } else {
        0xca62_c1d6
    }
}

/// The five working words after the first `t` rounds on `block`.
pub open spec fn rounds(state: Seq<u32>, block: Seq<u8>, t: int) -> Seq<u32>
    decreases t,
{
    if t <= 0 {
        state
    } else {
        let v = rounds(state, block, t - 1);
        seq![
            rotated(v[0], 5).wrapping_add(mix(t - 1, v[1], v[2], v[3])).wrapping_add(
                v[4],
            ).wrapping_add(round_constant(t - 1)).wrapping_add(schedule(block, t - 1)),
            v[0],
            rotated(v[1], 30),
            v[2],
            v[3],
        ]
    }
}

/// The chaining value after one more block.
pub open spec fn compress(state: Seq<u32>, block: Seq<u8>) -> Seq<u32> {
    let v = rounds(state, block, 80);
    seq![
        state[0].wrapping_add(v[0]),
        state[1].wrapping_add(v[1]),
        state[2].wrapping_add(v[2]),
        state[3].wrapping_add(v[3]),
        state[4].wrapping_add(v[4]),
    ]
}

/// The chaining value after the first `n` blocks of `message`.
pub open spec fn chained(message: Seq<u8>, n: int) -> Seq<u32>
    decreases n,
{
    if n <= 0 {
        initial_state()
    } else {
        compress(chained(message, n - 1), message.subrange(64 * (n - 1), 64 * n))
    }
}

/// The eight bytes of `x`, the most significant one first.
pub open spec fn big_endian(x: int) -> Seq<u8> {
    seq![
        (x / 0x100_0000_0000_0000 % 256) as u8,
        (x / 0x1_0000_0000_0000 % 256) as u8,
        (x / 0x100_0000_0000 % 256) as u8,
        (x / 0x1_0000_0000 % 256) as u8,
        (x / 0x100_0000 % 256) as u8,
        (x / 0x1_0000 % 256) as u8,
        (x / 0x100 % 256) as u8,
        (x % 256) as u8,
    ]
}

/// How many zero bytes bring a message of `len` bytes, with its end marker, to
/// eight bytes short of a whole block.
pub open spec fn zero_count(len: int) -> int {
    if len % 64 < 56 {
        55 - len % 64
    } else {
        119 - len % 64
    }
}

/// The message as it is cut into blocks: an end marker, zeros, and the length
/// in bits.
pub open spec fn padded(message: Seq<u8>) -> Seq<u8> {
    message.push(0x80) + Seq::new(zero_count(message.len() as int) as nat, |i: int| 0u8)
        + big_endian(8 * message.len() as int)
}

/// The five words of the digest of `message`.
pub open spec fn digest(message: Seq<u8>) -> Seq<u32> {
    chained(padded(message), padded(message).len() as int / 64)
}

/// A word as eight lower-case hexadecimal digits.
pub open spec fn word_hex(w: u32) -> Seq<char> {
    seq![
        text::lower_hex(w as int / 0x1000_0000 % 16),
        text::lower_hex(w as int / 0x100_0000 % 16),
        text::lower_hex(w as int / 0x10_0000 % 16),
        text::lower_hex(w as int / 0x1_0000 % 16),
        text::lower_hex(w as int / 0x1000 % 16),
        text::lower_hex(w as int / 0x100 % 16),
        text::lower_hex(w as int / 0x10 % 16),
        text::lower_hex(w as int % 16),
    ]
}

/// The digest of `message` as forty lower-case hexadecimal digits.
pub open spec fn digest_hex(message: Seq<u8>) -> Seq<char> {
    let d = digest(message);
    word_hex(d[0]) + word_hex(d[1]) + word_hex(d[2]) + word_hex(d[3]) + word_hex(d[4])
}

/// What was chained does not change when the message grows.
proof fn lemma_chained_prefix(message: Seq<u8>, longer: Seq<u8>, n: int)
    requires
        64 * n <= message.len() <= longer.len(),
        longer.take(message.len() as int) == message,
    ensures
        chained(longer, n) == chained(message, n),
    decreases n,
{
    if n > 0 {
        lemma_chained_prefix(message, longer, n - 1);
        assert(longer.take(message.len() as int).subrange(64 * (n - 1), 64 * n) == longer.subrange(
            64 * (n - 1),
            64 * n,
        ));
    }
}

fn rotate(x: u32, n: u32) -> (r: u32)
    requires
        0 < n < 32,
    ensures
        r == rotated(x, n),
{
    (x << n) | (x >> (32 - n))
}

fn push_word(text: &mut String, w: u32)
    ensures
        final(text)@ == old(text)@ + word_hex(w),
{
    text.push(text::hex_digit((w / 0x1000_0000 % 16) as u8));
    text.push(text::hex_digit((w / 0x100_0000 % 16) as u8));
    text.push(text::hex_digit((w / 0x10_0000 % 16) as u8));
    text.push(text::hex_digit((w / 0x1_0000 % 16) as u8));
    text.push(text::hex_digit((w / 0x1000 % 16) as u8));
    text.push(text::hex_digit((w / 0x100 % 16) as u8));
    text.push(text::hex_digit((w / 0x10 % 16) as u8));
    text.push(text::hex_digit((w % 16) as u8));
}

/// A digest in the making. Its view is the message that it has taken in.
pub struct Sha1 {
    state: [u32; 5],
    buffer: [u8; 64],
    buffer_len: usize,
    length: u64,
    message: Ghost<Seq<u8>>,
}

impl View for Sha1 {
    type V = Seq<u8>;

    closed spec fn view(&self) -> Seq<u8> {
        self.message@
    }
}

impl Default for Sha1 {
    fn default() -> (r: Self)
        ensures
            r.wf(),
            r@ == Seq::<u8>::empty(),
    {
        let r = Sha1 {
            state: [0x6745_2301, 0xefcd_ab89, 0x98ba_dcfe, 0x1032_5476, 0xc3d2_e1f0],
            buffer: [0;64],
            buffer_len: 0,
            length: 0,
            message: Ghost(Seq::empty()),
        };
        assert(r.state@ == initial_state());
        assert(r.buffer@.take(0) == r@.skip(0));
        r
    }
}

impl Sha1 {
    /// The whole blocks of the message are in the chaining value, the rest is
    /// in the buffer.
    pub closed spec fn wf(self) -> bool {
        &&& self.length == self@.len()
        &&& self.buffer_len == self@.len() % 64
        &&& self.buffer@.take(self.buffer_len as int) == self@.skip(self@.len() as int / 64 * 64)
        &&& self.state@ == chained(self@, self@.len() as int / 64)
    }

    /// How many bytes have been taken in.
    pub fn message_len(&self) -> (r: u64)
        requires
            self.wf(),
        ensures
            r == self@.len(),
    {
        self.length
    }

    /// Takes in one more block.
    fn process(&mut self, block: &[u8; 64])
        ensures
            final(self).state@ == compress(old(self).state@, block@),
            final(self).buffer == old(self).buffer,
            final(self).buffer_len == old(self).buffer_len,
            final(self).length == old(self).length,
            final(self).message == old(self).message,
    {
        let mut words: [u32; 80] = [0;80];
        for index in 0..16usize
            invariant
                forall|j: int| 0 <= j < index ==> words@[j] == schedule(block@, j),
        {
            let offset: usize = index * 4;
            words[index] = block[offset] as u32 * 0x100_0000 + block[offset + 1] as u32 * 0x1_0000
                + block[offset + 2] as u32 * 0x100 + block[offset + 3] as u32;
        }
        for index in 16..80usize
            invariant
                16 <= index,
                forall|j: int| 0 <= j < index ==> words@[j] == schedule(block@, j),
        {
            words[index] = rotate(
                words[index - 3] ^ words[index - 8] ^ words[index - 14] ^ words[index - 16],
                1,
            );
        }

        let ghost start = self.state@;
        let mut a: u32 = self.state[0];
        let mut b: u32 = self.state[1];
        let mut c: u32 = self.state[2];
        let mut d: u32 = self.state[3];
        let mut e: u32 = self.state[4];
        assert(seq![a, b, c, d, e] == start);
        for index in 0..80usize
            invariant
                forall|j: int| 0 <= j < 80 ==> words@[j] == schedule(block@, j),
                seq![a, b, c, d, e] == rounds(start, block@, index as int),
        {
            let ghost before = seq![a, b, c, d, e];
            assert(before[0] == a && before[1] == b && before[2] == c && before[3] == d && before[4]
                == e);
            let (function, constant): (u32, u32) = if index < 20 {
                ((b & c) | ((!b) & d), 0x5a82_7999)
            } else if index < 40 {
                (b ^ c ^ d, 0x6ed9_eba1)
            } else if index < 60 {
                ((b & c) | (b & d) | (c & d), 0x8f1b_bcdc)
            } else {
                (b ^ c ^ d, 0xca62_c1d6)
            };
            let temporary: u32 = rotate(a, 5).wrapping_add(function).wrapping_add(e).wrapping_add(
                constant,
            ).wrapping_add(words[index]);
            e = d;
            d = c;
            c = rotate(b, 30);
            b = a;
            a = temporary;
        }
        let ghost last = rounds(start, block@, 80);
        assert(seq![a, b, c, d, e] == last);
        assert(last[0] == a && last[1] == b && last[2] == c && last[3] == d && last[4] == e);
        self.state[0] = self.state[0].wrapping_add(a);
        self.state[1] = self.state[1].wrapping_add(b);
        self.state[2] = self.state[2].wrapping_add(c);
        self.state[3] = self.state[3].wrapping_add(d);
        self.state[4] = self.state[4].wrapping_add(e);
        assert(self.state@ == compress(start, block@));
    }

    /// Takes in one more byte.
    fn push(&mut self, byte: u8)
        requires
            old(self).wf(),
            old(self)@.len() < u64::MAX,
        ensures
            final(self).wf(),
            final(self)@ == old(self)@.push(byte),
    {
        let ghost before = self@;
        let ghost whole = before.len() as int / 64;
        let ghost after = before.push(byte);
        proof {
            assert(after.take(before.len() as int) == before);
            lemma_chained_prefix(before, after, whole);
        }
        let ghost tail = self.buffer@.take(self.buffer_len as int);
        self.buffer[self.buffer_len] = byte;
        self.buffer_len = self.buffer_len + 1;
        self.length = self.length + 1;
        self.message = Ghost(after);
        assert(self.buffer@.take(self.buffer_len as int) == after.skip(64 * whole)) by {
            assert(self.buffer@.take(self.buffer_len as int) == tail.push(byte));
            assert(after.skip(64 * whole) == before.skip(64 * whole).push(byte));
        }
        if self.buffer_len == 64 {
            assert(self.buffer@ == after.subrange(64 * whole, 64 * (whole + 1))) by {
                assert(self.buffer@.take(64) == self.buffer@);
                assert(after.skip(64 * whole) == after.subrange(64 * whole, 64 * (whole + 1)));
            }
            let block = self.buffer;
            self.process(&block);
            self.buffer_len = 0;
            assert(after.len() as int / 64 == whole + 1);
            assert(self.buffer@.take(0) == after.skip(64 * (whole + 1)));
        }
    }

    /// Takes in more of the message.
    pub fn update(&mut self, bytes: &[u8])
        requires
            old(self).wf(),
            old(self)@.len() + bytes@.len() <= u64::MAX,
        ensures
            final(self).wf(),
            final(self)@ == old(self)@ + bytes@,
    {
        let ghost before = self@;
        for i in 0..bytes.len()
            invariant
                self.wf(),
                before.len() + bytes@.len() <= u64::MAX,
                self@ == before + bytes@.take(i as int),
        {
            self.push(bytes[i]);
            assert(bytes@.take(i + 1) == bytes@.take(i as int).push(bytes@[i as int]));
        }
        assert(bytes@.take(bytes@.len() as int) == bytes@);
    }

    /// Takes in the eight bytes of a number.
    fn push_number(&mut self, x: u64)
        requires
            old(self).wf(),
            old(self)@.len() + 8 <= u64::MAX,
        ensures
            final(self).wf(),
            final(self)@ == old(self)@ + big_endian(x as int),
    {
        let bytes: [u8; 8] = [
            (x / 0x100_0000_0000_0000 % 256) as u8,
            (x / 0x1_0000_0000_0000 % 256) as u8,
            (x / 0x100_0000_0000 % 256) as u8,
            (x / 0x1_0000_0000 % 256) as u8,
            (x / 0x100_0000 % 256) as u8,
            (x / 0x1_0000 % 256) as u8,
            (x / 0x100 % 256) as u8,
            (x % 256) as u8,
        ];
        assert(bytes@ == big_endian(x as int));
        self.update(bytes.as_slice());
    }

    /// Takes in the end marker, the zeros and the length.
    fn pad(&mut self)
        requires
            old(self).wf(),
            8 * old(self)@.len() <= u64::MAX,
        ensures
            final(self).wf(),
            final(self)@ == padded(old(self)@),
    {
        let ghost message = self@;
        let bits: u64 = self.length * 8;
        let zeros: usize = if self.buffer_len < 56 {
            55 - self.buffer_len
        } else {
            119 - self.buffer_len
        };
        self.push(0x80);
        for i in 0..zeros
            invariant
                self.wf(),
                zeros <= 64,
                8 * message.len() <= u64::MAX,
                self@ == message.push(0x80) + Seq::new(i as nat, |j: int| 0u8),
        {
            self.push(0);
        }
        self.push_number(bits);
    }

    /// The digest of what was taken in.
    pub fn finalize(self) -> (text: String)
        requires
            self.wf(),
            8 * self@.len() <= u64::MAX,
        ensures
            text@ == digest_hex(self@),
    {
        let mut padded = self;
        padded.pad();
        let mut text = String::new();
        push_word(&mut text, padded.state[0]);
        push_word(&mut text, padded.state[1]);
        push_word(&mut text, padded.state[2]);
        push_word(&mut text, padded.state[3]);
        push_word(&mut text, padded.state[4]);
        text
    }
}

/// The digest of `bytes` as forty lower-case hexadecimal digits.
pub fn sha1_hex(bytes: &[u8]) -> (text: String)
    requires
        8 * bytes@.len() <= u64::MAX,
    ensures
        text@ == digest_hex(bytes@),
{
    let mut digest = Sha1::default();
    digest.update(bytes);
    assert(digest@ == bytes@);
    digest.finalize()
}

/// What reading a message piece by piece comes to, where `taken` has been read
/// and the next reads give `reads`: an empty piece is the end, and an error
/// ends the reading without a digest. Nothing is known before that.
pub open spec fn read_outcome(
    taken: Seq<u8>,
    reads: Seq<Result<Seq<u8>, Seq<char>>>,
) -> Option<Result<Seq<char>, Seq<char>>>
    decreases reads.len(),
{
    if reads.len() == 0 {
        None
    } else {
        match reads[0] {
            Err(reason) => Some(Err(reason)),
            Ok(piece) => if piece.len() == 0 {
                Some(Ok(digest_hex(taken)))
            } else {
                read_outcome(taken + piece, reads.drop_first())
            },
        }
    }
}

/// The pieces put together.
pub open spec fn gathered(pieces: Seq<Seq<u8>>) -> Seq<u8>
    decreases pieces.len(),
{
    if pieces.len() == 0 {
        seq![]
    } else {
        pieces[0] + gathered(pieces.drop_first())
    }
}

/// The reads that give these pieces, and then `last`.
pub open spec fn reads_of(pieces: Seq<Seq<u8>>, last: Result<Seq<u8>, Seq<char>>) -> Seq<
    Result<Seq<u8>, Seq<char>>,
> {
    pieces.map_values(|p: Seq<u8>| Ok::<Seq<u8>, Seq<char>>(p)).push(last)
}

proof fn lemma_pieces(taken: Seq<u8>, pieces: Seq<Seq<u8>>, last: Result<Seq<u8>, Seq<char>>)
    requires
        forall|i: int| 0 <= i < pieces.len() ==> (#[trigger] pieces[i]).len() > 0,
    ensures
        read_outcome(taken, reads_of(pieces, last)) == read_outcome(
            taken + gathered(pieces),
            seq![last],
        ),
    decreases pieces.len(),
{
    let reads = reads_of(pieces, last);
    if pieces.len() == 0 {
        assert(reads == seq![last]);
        assert(taken + gathered(pieces) == taken);
    } else {
        let rest = pieces.drop_first();
        assert(reads[0] == Ok::<Seq<u8>, Seq<char>>(pieces[0]));
        assert(reads.drop_first() == reads_of(rest, last));
        assert forall|i: int| 0 <= i < rest.len() implies (#[trigger] rest[i]).len() > 0 by {
            assert(rest[i] == pieces[i + 1]);
        }
        lemma_pieces(taken + pieces[0], rest, last);
        assert(taken + pieces[0] + gathered(rest) == taken + gathered(pieces));
    }
}

/// However a message comes in pieces, reading it to its end gives the digest of
/// all of it.
pub proof fn law_digest_ignores_pieces(pieces: Seq<Seq<u8>>, others: Seq<Seq<u8>>)
    requires
        forall|i: int| 0 <= i < pieces.len() ==> (#[trigger] pieces[i]).len() > 0,
        forall|i: int| 0 <= i < others.len() ==> (#[trigger] others[i]).len() > 0,
        gathered(pieces) == gathered(others),
    ensures
        read_outcome(seq![], reads_of(pieces, Ok(seq![]))) == Some(
            Ok::<Seq<char>, Seq<char>>(digest_hex(gathered(pieces))),
        ),
        read_outcome(seq![], reads_of(others, Ok(seq![]))) == read_outcome(
            seq![],
            reads_of(pieces, Ok(seq![])),
        ),
{
    lemma_pieces(seq![], pieces, Ok(seq![]));
    lemma_pieces(seq![], others, Ok(seq![]));
    let none: Seq<u8> = seq![];
    assert(none + gathered(pieces) == gathered(pieces));
    assert(none + gathered(others) == gathered(others));
}

/// A read that fails before the end is reported as it is: there is no digest of
/// what was read until then.
pub proof fn law_read_error_is_reported(pieces: Seq<Seq<u8>>, reason: Seq<char>)
    requires
        forall|i: int| 0 <= i < pieces.len() ==> (#[trigger] pieces[i]).len() > 0,
    ensures
        read_outcome(seq![], reads_of(pieces, Err(reason))) == Some(
            Err::<Seq<char>, Seq<char>>(reason),
        ),
{
    lemma_pieces(seq![], pieces, Err(reason));
}

/// The bytes or the reason in the result of a read.
pub open spec fn read_view(read: Result<&[u8], String>) -> Result<Seq<u8>, Seq<char>> {
    match read {
        Ok(bytes) => Ok(bytes@),
        Err(reason) => Err(reason@),
    }
}

/// The digest or the reason in the result of reading a message.
pub open spec fn hex_view(r: Result<String, String>) -> Result<Seq<char>, Seq<char>> {
    match r {
        Ok(hex) => Ok(hex@),
        Err(reason) => Err(reason@),
    }
}

/// A message that is being read for its digest. Its view is what has been read.
pub struct DigestReader {
    digest: Sha1,
}

/// How the reading of a message goes on.
pub enum DigestStep {
    /// There is more to read.
    More(DigestReader),
    /// The digest, or why there is none.
    Done(Result<String, String>),
}

impl View for DigestReader {
    type V = Seq<u8>;

    closed spec fn view(&self) -> Seq<u8> {
        self.digest@
    }
}

impl DigestReader {
    #[verifier::type_invariant]
    spec fn valid(self) -> bool {
        self.digest.wf() && 8 * self.digest@.len() <= u64::MAX
    }

    /// A message of which nothing has been read.
    pub fn new() -> (r: Self)
        ensures
            r@ == Seq::<u8>::empty(),
    {
        DigestReader { digest: Sha1::default() }
    }

    /// How many bytes have been read.
    pub fn message_len(&self) -> (r: u64)
        ensures
            r == self@.len(),
    {
        proof {
            use_type_invariant(self);
        }
        self.digest.message_len()
    }

    /// Takes the result of the next read.
    pub fn step(self, read: Result<&[u8], String>) -> (step: DigestStep)
        requires
            read matches Ok(bytes) ==> 8 * (self@.len() + bytes@.len()) <= u64::MAX,
        ensures
            match step {
                DigestStep::More(next) => forall|rest: Seq<Result<Seq<u8>, Seq<char>>>| #[trigger]
                    read_outcome(self@, seq![read_view(read)] + rest) == read_outcome(next@, rest),
                DigestStep::Done(r) => forall|rest: Seq<Result<Seq<u8>, Seq<char>>>| #[trigger]
                    read_outcome(self@, seq![read_view(read)] + rest) == Some(hex_view(r)),
            },
            step matches DigestStep::More(next) ==> read matches Ok(bytes) && bytes@.len() > 0
                && next@ == self@ + bytes@,
    {
        proof {
            use_type_invariant(&self);
            assert forall|rest: Seq<Result<Seq<u8>, Seq<char>>>|
                (#[trigger] (seq![read_view(read)] + rest))[0] == read_view(read) && (seq![
                    read_view(read),
                ] + rest).drop_first() == rest by {
                assert((seq![read_view(read)] + rest).drop_first() == rest);
            }
        }
        match read {
            Err(reason) => DigestStep::Done(Err(reason)),
            Ok(bytes) => if bytes.len() == 0 {
                DigestStep::Done(Ok(self.digest.finalize()))
            } else {
                let mut digest = self.digest;
                digest.update(bytes);
                DigestStep::More(DigestReader { digest })
            },
        }
    }
}

/// The number that bytes state, the most significant one first.
pub open spec fn number_of(bytes: Seq<u8>) -> int
    decreases bytes.len(),
{
    if bytes.len() == 0 {
        0
    } else {
        256 * number_of(bytes.drop_last()) + bytes.last()
    }
}

proof fn lemma_number_step(bytes: Seq<u8>, i: int)
    requires
        0 <= i < bytes.len(),
    ensures
        number_of(bytes.take(i + 1)) == 256 * number_of(bytes.take(i)) + bytes[i],
{
    assert(bytes.take(i + 1).drop_last() == bytes.take(i));
}

proof fn lemma_digit(x: int, d: int, base: int)
    requires
        0 <= x,
        0 < d,
        0 < base,
    ensures
        x / d == base * (x / (d * base)) + x / d % base,
{
    vstd::arithmetic::div_mod::lemma_div_denominator(x, d, base);
    vstd::arithmetic::div_mod::lemma_fundamental_div_mod(x / d, base);
}

proof fn lemma_eight_digits(x: int)
    requires
        0 <= x <= u64::MAX,
    ensures
        x == 256 * (256 * (256 * (256 * (256 * (256 * (256 * (x / 0x100_0000_0000_0000 % 256) + x
            / 0x1_0000_0000_0000 % 256) + x / 0x100_0000_0000 % 256) + x / 0x1_0000_0000 % 256) + x
            / 0x100_0000 % 256) + x / 0x1_0000 % 256) + x / 0x100 % 256) + x % 256,
{
    lemma_digit(x, 0x1_0000_0000_0000, 256);
    lemma_digit(x, 0x100_0000_0000, 256);
    lemma_digit(x, 0x1_0000_0000, 256);
    lemma_digit(x, 0x100_0000, 256);
    lemma_digit(x, 0x1_0000, 256);
    lemma_digit(x, 0x100, 256);
    lemma_digit(x, 1, 256);
    assert(x / 0x100_0000_0000_0000 < 256);
}

proof fn lemma_big_endian(x: int)
    requires
        0 <= x <= u64::MAX,
    ensures
        number_of(big_endian(x)) == x,
{
    let b = big_endian(x);
    lemma_eight_digits(x);
    lemma_number_of_eight(b);
}

proof fn lemma_number_of_eight(b: Seq<u8>)
    requires
        b.len() == 8,
    ensures
        number_of(b) == 256 * (256 * (256 * (256 * (256 * (256 * (256 * b[0] + b[1]) + b[2]) + b[3])
            + b[4]) + b[5]) + b[6]) + b[7],
{
    assert(b.take(8) == b);
    assert(b.take(0).len() == 0);
    lemma_number_step(b, 0);
    lemma_number_step(b, 1);
    lemma_number_step(b, 2);
    lemma_number_step(b, 3);
    lemma_number_step(b, 4);
    lemma_number_step(b, 5);
    lemma_number_step(b, 6);
    lemma_number_step(b, 7);
}

proof fn lemma_padding_shape(message: Seq<u8>, zeros: Seq<u8>, tail: Seq<u8>)
    requires
        forall|i: int| 0 <= i < zeros.len() ==> zeros[i] == 0,
    ensures
        ({
            let blocks = message.push(0x80) + zeros + tail;
            let n = message.len() as int;
            &&& blocks.len() == n + 1 + zeros.len() + tail.len()
            &&& blocks.take(n) == message
            &&& blocks[n] == 0x80
            &&& forall|i: int| n < i < blocks.len() - tail.len() ==> blocks[i] == 0
            &&& blocks.skip(blocks.len() - tail.len()) == tail
        }),
{
    let blocks = message.push(0x80) + zeros + tail;
    assert(blocks.take(message.len() as int) == message);
    assert(blocks.skip(blocks.len() - tail.len()) == tail);
}

proof fn lemma_zero_count(n: int)
    requires
        0 <= n,
    ensures
        0 <= zero_count(n) < 64,
        (n + 9 + zero_count(n)) % 64 == 0,
{
}

/// A message is padded to whole blocks by the least that fits: it comes first,
/// then a single bit, then zeros, and in the last eight bytes its length in
/// bits.
pub proof fn law_padding(message: Seq<u8>)
    requires
        8 * message.len() <= u64::MAX,
    ensures
        ({
            let blocks = padded(message);
            let n = message.len() as int;
            &&& blocks.len() % 64 == 0
            &&& n + 9 <= blocks.len() < n + 9 + 64
            &&& blocks.take(n) == message
            &&& blocks[n] == 0x80
            &&& forall|i: int| n < i < blocks.len() - 8 ==> blocks[i] == 0
            &&& number_of(blocks.skip(blocks.len() - 8)) == 8 * n
        }),
{
    let n = message.len() as int;
    let tail = big_endian(8 * n);
    let zeros = Seq::new(zero_count(n) as nat, |i: int| 0u8);
    lemma_zero_count(n);
    lemma_big_endian(8 * n);
    assert(tail.len() == 8);
    lemma_padding_shape(message, zeros, tail);
    assert(padded(message) == message.push(0x80) + zeros + tail);
}

/// The number that hexadecimal digits in lower case state.
pub open spec fn hex_number_of(digits: Seq<char>) -> int
    decreases digits.len(),
{
    if digits.len() == 0 {
        0
    } else {
        let c = digits.last() as int;
        16 * hex_number_of(digits.drop_last()) + (if c <= 57 {
            c - 48
        } else {
            c - 97 + 10
        })
    }
}

proof fn lemma_hex_step(digits: Seq<char>, i: int)
    requires
        0 <= i < digits.len(),
    ensures
        hex_number_of(digits.take(i + 1)) == 16 * hex_number_of(digits.take(i)) + digit_value(
            digits[i],
        ),
{
    assert(digits.take(i + 1).drop_last() == digits.take(i));
}

/// The value of a hexadecimal digit in lower case.
spec fn digit_value(c: char) -> int {
    if c as int <= 57 {
        c as int - 48
    } else {
        c as int - 97 + 10
    }
}

proof fn lemma_hex_number_of_eight(h: Seq<char>)
    requires
        h.len() == 8,
    ensures
        hex_number_of(h) == 16 * (16 * (16 * (16 * (16 * (16 * (16 * digit_value(h[0])
            + digit_value(h[1])) + digit_value(h[2])) + digit_value(h[3])) + digit_value(h[4]))
            + digit_value(h[5])) + digit_value(h[6])) + digit_value(h[7]),
{
    assert(h.take(8) == h);
    assert(h.take(0).len() == 0);
    lemma_hex_step(h, 0);
    lemma_hex_step(h, 1);
    lemma_hex_step(h, 2);
    lemma_hex_step(h, 3);
    lemma_hex_step(h, 4);
    lemma_hex_step(h, 5);
    lemma_hex_step(h, 6);
    lemma_hex_step(h, 7);
}

proof fn lemma_eight_hex_digits(x: int)
    requires
        0 <= x <= u32::MAX,
    ensures
        x == 16 * (16 * (16 * (16 * (16 * (16 * (16 * (x / 0x1000_0000 % 16) + x / 0x100_0000 % 16)
            + x / 0x10_0000 % 16) + x / 0x1_0000 % 16) + x / 0x1000 % 16) + x / 0x100 % 16) + x
            / 0x10 % 16) + x % 16,
{
    lemma_digit(x, 0x100_0000, 16);
    lemma_digit(x, 0x10_0000, 16);
    lemma_digit(x, 0x1_0000, 16);
    lemma_digit(x, 0x1000, 16);
    lemma_digit(x, 0x100, 16);
    lemma_digit(x, 0x10, 16);
    lemma_digit(x, 1, 16);
    assert(x / 0x1000_0000 < 16);
}

proof fn lemma_digit_value(n: int)
    requires
        0 <= n < 16,
    ensures
        digit_value(text::lower_hex(n)) == n,
{
}

proof fn lemma_word_hex(w: u32)
    ensures
        word_hex(w).len() == 8,
        hex_number_of(word_hex(w)) == w,
{
    let x = w as int;
    lemma_eight_hex_digits(x);
    lemma_hex_number_of_eight(word_hex(w));
    lemma_digit_value(x / 0x1000_0000 % 16);
    lemma_digit_value(x / 0x100_0000 % 16);
    lemma_digit_value(x / 0x10_0000 % 16);
    lemma_digit_value(x / 0x1_0000 % 16);
    lemma_digit_value(x / 0x1000 % 16);
    lemma_digit_value(x / 0x100 % 16);
    lemma_digit_value(x / 0x10 % 16);
    lemma_digit_value(x % 16);
}

proof fn lemma_five_words(
    a: Seq<char>,
    b: Seq<char>,
    c: Seq<char>,
    d: Seq<char>,
    e: Seq<char>,
    i: int,
)
    requires
        a.len() == 8,
        b.len() == 8,
        c.len() == 8,
        d.len() == 8,
        e.len() == 8,
        0 <= i < 5,
    ensures
        (a + b + c + d + e).len() == 40,
        (a + b + c + d + e).subrange(8 * i, 8 * i + 8) == if i == 0 {
            a
        } else if i == 1 {
            b
        } else if i == 2 {
            c
        } else if i == 3 {
            d
        } else {
            e
        },
{
    let whole = a + b + c + d + e;
    if i == 0 {
        assert(whole.subrange(0, 8) == a);
    } else if i == 1 {
        assert(whole.subrange(8, 16) == b);
    } else if i == 2 {
        assert(whole.subrange(16, 24) == c);
    } else if i == 3 {
        assert(whole.subrange(24, 32) == d);
    } else {
        assert(whole.subrange(32, 40) == e);
    }
}

proof fn lemma_stated_words(h: Seq<Seq<char>>, d: Seq<u32>, i: int)
    requires
        h.len() == 5,
        forall|j: int| 0 <= j < 5 ==> (#[trigger] h[j]).len() == 8 && hex_number_of(h[j]) == d[j],
        0 <= i < 5,
    ensures
        (h[0] + h[1] + h[2] + h[3] + h[4]).len() == 40,
        hex_number_of((h[0] + h[1] + h[2] + h[3] + h[4]).subrange(8 * i, 8 * i + 8)) == d[i],
{
    lemma_five_words(h[0], h[1], h[2], h[3], h[4], i);
}

/// The text of a digest has forty characters, eight for each word, which state
/// it.
pub proof fn law_digest_text(message: Seq<u8>, i: int)
    requires
        0 <= i < 5,
    ensures
        digest_hex(message).len() == 40,
        hex_number_of(digest_hex(message).subrange(8 * i, 8 * i + 8)) == digest(message)[i],
{
    let d = digest(message);
    let h = Seq::new(5, |j: int| word_hex(d[j]));
    assert forall|j: int| 0 <= j < 5 implies (#[trigger] h[j]).len() == 8 && hex_number_of(h[j])
        == d[j] by {
        lemma_word_hex(d[j]);
    }
    lemma_stated_words(h, d, i);
}

/// The digest takes the padded message block by block: what the blocks before
/// came to, and the next block, make up what comes of both.
pub proof fn law_blocks(message: Seq<u8>, block: Seq<u8>)
    requires
        message.len() % 64 == 0,
        block.len() == 64,
    ensures
        chained(seq![], 0) == seq![
            0x6745_2301u32,
            0xefcd_ab89u32,
            0x98ba_dcfeu32,
            0x1032_5476u32,
            0xc3d2_e1f0u32,
        ],
        chained(message + block, message.len() as int / 64 + 1) == compress(
            chained(message, message.len() as int / 64),
            block,
        ),
{
    let n = message.len() as int / 64;
    let longer = message + block;
    assert(longer.take(message.len() as int) == message);
    lemma_chained_prefix(message, longer, n);
    assert(longer.subrange(64 * n, 64 * (n + 1)) == block);
}

} // verus!
