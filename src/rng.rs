//! The seeded pseudorandom stream that drives star placement.
//!
//! The stream is rand's `StdRng`. Its output is a function of the seed and of
//! the calls made on it so far, which the ghost fields below record: `None`
//! for a raw 64-bit word, `Some(n)` for a draw from `0..n`.

use rand::rngs::StdRng;
use rand::{Rng, RngCore, SeedableRng};
use vstd::prelude::*;

verus! {

#[verifier::external_type_specification]
#[verifier::external_body]
pub struct ExStdRng(StdRng);

/// The word that `next_u64` returns on a `StdRng` made by
/// `seed_from_u64(seed)` once it has served `calls`.
pub uninterp spec fn word_after(seed: u64, calls: Seq<Option<usize>>) -> u64;

/// The value that `gen_range(0..bound)` returns on a `StdRng` made by
/// `seed_from_u64(seed)` once it has served `calls`.
pub uninterp spec fn index_after(seed: u64, calls: Seq<Option<usize>>, bound: usize) -> usize;

pub struct StarRng {
    inner: StdRng,
    seed: Ghost<u64>,
    calls: Ghost<Seq<Option<usize>>>,
}

impl StarRng {
    pub closed spec fn seed(&self) -> u64 {
        self.seed@
    }

    /// The calls served so far, oldest first.
    pub closed spec fn calls(&self) -> Seq<Option<usize>> {
        self.calls@
    }

    /// Relies on rand's `SeedableRng::seed_from_u64` for `StdRng`: a fresh
    /// stream that depends on `seed` alone.
    #[verifier::external_body]
    pub fn from_seed(seed: u64) -> (r: StarRng)
        ensures
            r.seed() == seed,
            r.calls() == Seq::<Option<usize>>::empty(),
    {
        StarRng { inner: StdRng::seed_from_u64(seed), seed: Ghost(seed), calls: Ghost(Seq::empty()) }
    }

    /// Relies on rand's `RngCore::next_u64` for `StdRng`: the next word of the
    /// stream.
    #[verifier::external_body]
    pub fn next_word(&mut self) -> (w: u64)
        ensures
            w == word_after(old(self).seed(), old(self).calls()),
            final(self).seed() == old(self).seed(),
            final(self).calls() == old(self).calls().push(None),
    {
        self.inner.next_u64()
    }

    /// Relies on rand's `Rng::gen_range` over `0..bound` for `StdRng`: a value
    /// below `bound`; the range must not be empty, else it panics.
    #[verifier::external_body]
    pub fn below(&mut self, bound: usize) -> (v: usize)
        requires
            bound > 0,
        ensures
            v < bound,
            v == index_after(old(self).seed(), old(self).calls(), bound),
            final(self).seed() == old(self).seed(),
            final(self).calls() == old(self).calls().push(Some(bound)),
    {
        self.inner.gen_range(0..bound)
    }
}

} // verus!
