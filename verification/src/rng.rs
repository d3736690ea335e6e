//! Randomness for generators and mutators.
//!
//! Generators and mutators only consume a few shapes of randomness: a draw
//! from an inclusive integer range, a biased coin, and a shuffle. The
//! `FuzzRng` trait captures exactly those, with contracts stating what any
//! source must guarantee: draws stay in range and shuffles permute. One
//! implementation wraps the `rand` crate's standard generator; another is a
//! fully verified deterministic generator that replays a scripted word
//! stream, which makes generator behaviour reproducible in tests.

use vstd::prelude::*;

verus! {

/// A source of randomness for program construction and mutation.
pub trait FuzzRng {
    /// A draw from the inclusive range `lo..=hi`.
    fn pick_range(&mut self, lo: u64, hi: u64) -> (r: u64)
        requires
            lo <= hi,
        ensures
            lo <= r <= hi,
    ;

    /// A coin that comes up true with probability `num / den`.
    fn chance(&mut self, num: u32, den: u32) -> (r: bool)
        requires
            0 < den,
            num <= den,
    ;

    /// Permute `v` in place.
    fn shuffle(&mut self, v: &mut Vec<usize>)
        ensures
            final(v)@.to_multiset() == old(v)@.to_multiset(),
    ;
}

/// A deterministic `FuzzRng` that replays a scripted stream of words,
/// cycling when exhausted; an empty script behaves as a stream of zeros.
/// Shuffles leave the order as it is, so a scripted run is fully
/// predictable.
pub struct ScriptedRng {
    pub words: Vec<u64>,
    pub next: usize,
}

impl ScriptedRng {
    pub fn new(words: Vec<u64>) -> (r: ScriptedRng)
        ensures
            r.words == words,
            r.next == 0,
    {
        ScriptedRng { words, next: 0 }
    }

    /// The next scripted word, advancing (and wrapping) the cursor.
    fn next_word(&mut self) -> (r: u64)
        ensures
            final(self).words == old(self).words,
    {
        if self.words.len() == 0 {
            return 0;
        }
        let i = if self.next < self.words.len() {
            self.next
        } else {
            0
        };
        let w = self.words[i];
        self.next = if i + 1 < self.words.len() {
            i + 1
        } else {
            0
        };
        w
    }
}

impl FuzzRng for ScriptedRng {
    fn pick_range(&mut self, lo: u64, hi: u64) -> (r: u64) {
        let w = self.next_word();
        if hi == u64::MAX && lo == 0 {
            w
        } else {
            lo + (w % (hi - lo + 1))
        }
    }

    fn chance(&mut self, num: u32, den: u32) -> (r: bool) {
        let w = self.next_word();
        (w % (den as u64)) < (num as u64)
    }

    fn shuffle(&mut self, v: &mut Vec<usize>) {
    }
}

/// A `FuzzRng` backed by `rand`'s standard generator.
pub struct SystemRng {
    pub inner: rand::rngs::StdRng,
}

#[verifier::external_type_specification]
#[verifier::external_body]
pub struct ExStdRng(rand::rngs::StdRng);

impl SystemRng {
    /// Relies on rand's `SeedableRng::seed_from_u64`: constructs the
    /// standard generator from a word-sized seed.
    #[verifier::external_body]
    pub fn from_seed(seed: u64) -> (r: SystemRng)
    {
        SystemRng { inner: <rand::rngs::StdRng as rand::SeedableRng>::seed_from_u64(seed) }
    }

    /// Relies on rand's `Rng::gen_range`: a sample from the given range,
    /// which must be non-empty.
    #[verifier::external_body]
    fn gen_range_inclusive(&mut self, lo: u64, hi: u64) -> (r: u64)
        requires
            lo <= hi,
        ensures
            lo <= r <= hi,
    {
        rand::Rng::gen_range(&mut self.inner, lo..=hi)
    }

    /// Relies on rand's `Rng::gen_ratio`: true with probability
    /// `num / den`; the denominator must be positive and not smaller than
    /// the numerator.
    #[verifier::external_body]
    fn gen_ratio(&mut self, num: u32, den: u32) -> (r: bool)
        requires
            0 < den,
            num <= den,
    {
        rand::Rng::gen_ratio(&mut self.inner, num, den)
    }

    /// Relies on rand's `SliceRandom::shuffle`: permutes the slice in
    /// place.
    #[verifier::external_body]
    fn shuffle_slice(&mut self, v: &mut Vec<usize>)
        ensures
            final(v)@.to_multiset() == old(v)@.to_multiset(),
    {
        rand::seq::SliceRandom::shuffle(v.as_mut_slice(), &mut self.inner)
    }
}

impl FuzzRng for SystemRng {
    fn pick_range(&mut self, lo: u64, hi: u64) -> (r: u64) {
        self.gen_range_inclusive(lo, hi)
    }

    fn chance(&mut self, num: u32, den: u32) -> (r: bool) {
        self.gen_ratio(num, den)
    }

    fn shuffle(&mut self, v: &mut Vec<usize>) {
        self.shuffle_slice(v)
    }
}

} // verus!
