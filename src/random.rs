use vstd::prelude::*;
use rand_chacha::rand_core::{RngCore, SeedableRng};

verus! {

/// The 32-bit word at offset `word_pos` of the ChaCha20 stream seeded from `seed`.
pub uninterp spec fn chacha20_u32_at(seed: u64, word_pos: u64) -> u32;

/// The 64-bit value read at offset `word_pos` (two words) of the ChaCha20
/// stream seeded from `seed`.
pub uninterp spec fn chacha20_u64_at(seed: u64, word_pos: u64) -> u64;

/// Relies on rand_chacha's `ChaCha20Rng::seed_from_u64` and `set_word_pos`,
/// then `next_u32`: the word read depends on the seed and the offset alone.
#[verifier::external_body]
fn chacha20_word(seed: u64, word_pos: u64) -> (r: u32)
    ensures
        r == chacha20_u32_at(seed, word_pos),
{
    let mut rng = rand_chacha::ChaCha20Rng::seed_from_u64(seed);
    rng.set_word_pos(word_pos as u128);
    rng.next_u32()
}

/// Relies on rand_chacha's `ChaCha20Rng::seed_from_u64` and `set_word_pos`,
/// then `next_u64`: the value read depends on the seed and the offset alone.
#[verifier::external_body]
fn chacha20_double_word(seed: u64, word_pos: u64) -> (r: u64)
    ensures
        r == chacha20_u64_at(seed, word_pos),
{
    let mut rng = rand_chacha::ChaCha20Rng::seed_from_u64(seed);
    rng.set_word_pos(word_pos as u128);
    rng.next_u64()
}

/// Relies on `rand::random`, which draws from the thread-local generator:
/// nothing is known of the value.
pub assume_specification<T>[ rand::random::<T> ]() -> T
    where
        rand::distributions::Standard: rand::distributions::Distribution<T>,
;

/// Offset `pos` moved `n` words further along a stream, wrapping after 2^64 words.
pub open spec fn advance(pos: u64, n: nat) -> u64 {
    ((pos + n) % 0x1_0000_0000_0000_0000) as u64
}

/// A reseedable deterministic random source: a ChaCha20 stream given by its
/// seed, read at a word offset that every draw moves forward.
#[derive(Clone, Copy, Debug, PartialEq, Eq, Structural)]
pub struct RandomDeterministic {
    pub seed: u64,
    pub word_pos: u64,
}

impl RandomDeterministic {
    /// A source at the start of the stream of `seed`.
    pub fn from_seed(seed: u64) -> (r: RandomDeterministic)
        ensures
            r.seed == seed,
            r.word_pos == 0,
    {
        RandomDeterministic { seed, word_pos: 0 }
    }

    /// Restarts the source at the beginning of the stream of `seed`.
    pub fn set_seed(&mut self, seed: u64)
        ensures
            final(self).seed == seed,
            final(self).word_pos == 0,
    {
        self.seed = seed;
        self.word_pos = 0;
    }

    /// Next 32-bit value of the stream.
    pub fn next_u32(&mut self) -> (r: u32)
        ensures
            r == chacha20_u32_at(old(self).seed, old(self).word_pos),
            final(self).seed == old(self).seed,
            final(self).word_pos == advance(old(self).word_pos, 1),
    {
        let r = chacha20_word(self.seed, self.word_pos);
        self.word_pos = self.word_pos.wrapping_add(1);
        r
    }

    /// Next 64-bit value of the stream: it takes two words.
    pub fn next_u64(&mut self) -> (r: u64)
        ensures
            r == chacha20_u64_at(old(self).seed, old(self).word_pos),
            final(self).seed == old(self).seed,
            final(self).word_pos == advance(old(self).word_pos, 2),
    {
        let r = chacha20_double_word(self.seed, self.word_pos);
        self.word_pos = self.word_pos.wrapping_add(2);
        r
    }
}

impl Default for RandomDeterministic {
    /// A source seeded from the thread-local generator.
    fn default() -> (r: RandomDeterministic)
        ensures
            r.word_pos == 0,
    {
        let seed: u64 = rand::random::<u64>();
        RandomDeterministic { seed, word_pos: 0 }
    }
}

} // verus!
