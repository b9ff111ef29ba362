//! The session's source of random words: a PCG-32 stream, told by its seed
//! and by how many words were drawn from it.

use crate::encoding::u32_le_bytes;
use rand::RngCore;
use rand_pcg::Pcg32;
use vstd::prelude::*;

verus! {

/// The seed that every session starts from.
pub const DEFAULT_SEED: u64 = 0xcafef00dd15ea5e5;

/// The stream that every session draws from.
pub const DEFAULT_STREAM: u64 = 0xa02bdbf7bb3c0a7;

/// The word that `rand_pcg`'s `Pcg32` returns from `next_u32` once the
/// generator made by `Pcg32::new(state, stream)` was advanced by `index`
/// steps: the word of the stream at position `index`, counted from 0.
pub uninterp spec fn pcg32_output(state: u64, stream: u64, index: u64) -> u32;

/// Calls `rand_pcg::Pcg32::new`, `Pcg32::advance` and `RngCore::next_u32`.
///
/// Trusted: the word returned depends on the three arguments alone. `new`
/// and `advance` are wrapping arithmetic on the 64-bit state, `advance(n)`
/// leaves the generator where `n` calls of `next_u32` would, and `next_u32`
/// reads nothing but the generator.
#[verifier::external_body]
fn pcg32_word_at(state: u64, stream: u64, index: u64) -> (word: u32)
    ensures
        word == pcg32_output(state, stream, index),
{
    let mut generator = Pcg32::new(state, stream);
    generator.advance(index);
    generator.next_u32()
}

/// A PCG-32 generator as plain values: its seed, its stream, and the number
/// of words drawn so far. The count wraps with the generator's period.
#[derive(Debug, Clone, Copy, PartialEq, Eq, Structural)]
pub struct SeededRng {
    pub seed: u64,
    pub stream: u64,
    pub drawn: u64,
}

impl SeededRng {
    /// The generator `ahead` draws later.
    pub open spec fn advanced(self, ahead: nat) -> SeededRng {
        SeededRng { drawn: ((self.drawn + ahead) % 0x1_0000_0000_0000_0000) as u64, ..self }
    }

    /// The word that comes out after `ahead` other draws.
    pub open spec fn word(self, ahead: nat) -> u32 {
        pcg32_output(self.seed, self.stream, self.advanced(ahead).drawn)
    }

    /// The first `len` bytes that the generator fills a buffer with: each
    /// word gives four bytes, least significant first, and a last word
    /// gives as many of its low bytes as are still wanted.
    pub open spec fn bytes(self, len: nat) -> Seq<u8> {
        Seq::new(len, |i: int| u32_le_bytes(self.word((i / 4) as nat))[i % 4])
    }

    /// The number of words drawn to fill `len` bytes.
    pub open spec fn words_for(len: nat) -> nat {
        (len + 3) / 4
    }

    /// A generator at the start of the stream that `seed` and `stream` select.
    pub fn new(seed: u64, stream: u64) -> (rng: SeededRng)
        ensures
            rng == (SeededRng { seed, stream, drawn: 0 }),
    {
        SeededRng { seed, stream, drawn: 0 }
    }

    /// Draws the next word of the stream.
    pub fn next_u32(&mut self) -> (word: u32)
        ensures
            word == old(self).word(0),
            *final(self) == old(self).advanced(1),
    {
        let word = pcg32_word_at(self.seed, self.stream, self.drawn);
        self.drawn = self.drawn.wrapping_add(1);
        word
    }
}

impl Default for SeededRng {
    fn default() -> (rng: SeededRng)
        ensures
            rng == (SeededRng { seed: DEFAULT_SEED, stream: DEFAULT_STREAM, drawn: 0 }),
    {
        SeededRng::new(DEFAULT_SEED, DEFAULT_STREAM)
    }
}

/// Drawing `a` words and then `b` more leaves the generator where `a + b`
/// draws leave it, and the word `b` draws ahead of there is the word
/// `a + b` draws ahead of here.
pub proof fn lemma_advanced_twice(rng: SeededRng, a: nat, b: nat)
    ensures
        rng.advanced(a).advanced(b) == rng.advanced(a + b),
        rng.advanced(a).word(b) == rng.word(a + b),
{
    let m = 0x1_0000_0000_0000_0000int;
    let d = rng.drawn as int;
    assert(((d + a) % m + b) % m == (d + a + b) % m) by {
        vstd::arithmetic::div_mod::lemma_add_mod_noop(d + a, b as int, m);
        vstd::arithmetic::div_mod::lemma_add_mod_noop((d + a) % m, b as int, m);
        vstd::arithmetic::div_mod::lemma_mod_twice(d + a, m);
    }
}

/// The bytes of a fill are those of its words, one word after the other.
/// Where the length is no multiple of 4, the bytes after the last whole
/// word are the low bytes of the next word, in their order, however many
/// whole words came before.
pub proof fn lemma_bytes_by_word(rng: SeededRng, len: nat)
    ensures
        rng.bytes(len).len() == len,
        forall|w: int, j: int|
            0 <= w && 0 <= j < 4 && 4 * w + j < len ==> #[trigger] rng.bytes(len)[4 * w + j]
                == u32_le_bytes(rng.word(w as nat))[j],
        forall|j: int|
            0 <= j < len % 4 ==> #[trigger] rng.bytes(len)[4 * (len / 4) + j] == u32_le_bytes(
                rng.word(len / 4),
            )[j],
{
    assert forall|w: int, j: int|
        0 <= w && 0 <= j < 4 && 4 * w + j < len implies #[trigger] rng.bytes(len)[4 * w + j]
        == u32_le_bytes(rng.word(w as nat))[j] by {
        assert((4 * w + j) / 4 == w);
        assert((4 * w + j) % 4 == j);
    }
    assert forall|j: int| 0 <= j < len % 4 implies #[trigger] rng.bytes(len)[4 * (len / 4) + j]
        == u32_le_bytes(rng.word(len / 4))[j] by {
        let w = (len / 4) as int;
        assert((4 * w + j) / 4 == w);
        assert((4 * w + j) % 4 == j);
    }
}

/// Two fills in a row give the bytes of one fill of both lengths, as long
/// as the first one ends on a whole word.
pub proof fn lemma_bytes_in_a_row(rng: SeededRng, first: nat, second: nat)
    requires
        first % 4 == 0,
    ensures
        rng.bytes(first) + rng.advanced(SeededRng::words_for(first)).bytes(second) == rng.bytes(
            first + second,
        ),
{
    let next = rng.advanced(SeededRng::words_for(first));
    assert forall|i: int| 0 <= i < second implies #[trigger] next.bytes(second)[i] == rng.bytes(
        first + second,
    )[first + i] by {
        lemma_advanced_twice(rng, first / 4, (i / 4) as nat);
        assert((first + i) / 4 == first / 4 + i / 4);
        assert((first + i) % 4 == i % 4);
    }
    assert(rng.bytes(first) + next.bytes(second) =~= rng.bytes(first + second));
}

} // verus!
