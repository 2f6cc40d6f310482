//! An explicit, seedable source of random numbers, owned by the caller and
//! threaded through every stochastic step so that a run can be replayed.

use rand::rngs::StdRng;
use rand::Rng;
use rand::SeedableRng;
use vstd::prelude::*;

verus! {

/// Probabilities, rates and coefficients are fixed-point numbers in parts per
/// million: `SCALE` stands for 1.0.
pub const SCALE: u64 = 1_000_000;

#[verifier::external_type_specification]
#[verifier::external_body]
pub struct ExStdRng(StdRng);

/// Relies on rand's `SeedableRng::seed_from_u64`: a generator whose output
/// depends on the seed alone.
#[verifier::external_body]
fn generator_from_seed(seed: u64) -> StdRng {
    StdRng::seed_from_u64(seed)
}

/// Relies on rand's `Rng::gen_range` on `0..bound`: the value lies in that
/// half-open range (the call panics only on an empty range).
#[verifier::external_body]
fn draw_below(rng: &mut StdRng, bound: u64) -> (r: u64)
    requires
        bound > 0,
    ensures
        r < bound,
{
    rng.gen_range(0..bound)
}

/// Relies on rand's `Rng::gen_range` on `0..bound` for 128-bit integers: the
/// value lies in that half-open range (the call panics only on an empty range).
#[verifier::external_body]
fn draw_below_wide(rng: &mut StdRng, bound: u128) -> (r: u128)
    requires
        bound > 0,
    ensures
        r < bound,
{
    rng.gen_range(0..bound)
}

/// The random source of one run.
pub struct Random {
    rng: StdRng,
}

impl Random {
    /// A source whose draws are fixed by `seed`.
    pub fn seeded(seed: u64) -> Random {
        Random { rng: generator_from_seed(seed) }
    }

    /// A uniform draw from `[0, bound)`.
    pub fn below(&mut self, bound: u64) -> (r: u64)
        requires
            bound > 0,
        ensures
            r < bound,
    {
        draw_below(&mut self.rng, bound)
    }

    /// A uniform draw from `[0, bound)` over 128-bit integers.
    pub fn below_wide(&mut self, bound: u128) -> (r: u128)
        requires
            bound > 0,
        ensures
            r < bound,
    {
        draw_below_wide(&mut self.rng, bound)
    }

    /// A uniform index into a collection of `len` items.
    pub fn index(&mut self, len: usize) -> (r: usize)
        requires
            len > 0,
        ensures
            r < len,
    {
        draw_below(&mut self.rng, len as u64) as usize
    }

    /// A uniform draw from `[low, high)`.
    pub fn between(&mut self, low: i64, high: i64) -> (r: i64)
        requires
            low < high,
        ensures
            low <= r < high,
    {
        let width: u64 = (high as i128 - low as i128) as u64;
        let offset = draw_below(&mut self.rng, width);
        (low as i128 + offset as i128) as i64
    }

    /// True with probability `rate / SCALE`: a uniform draw from
    /// `[0, SCALE)` falls below `rate`. Never true for a rate of zero, always
    /// true for a rate of `SCALE` or more.
    pub fn chance(&mut self, rate: u64) -> (r: bool)
        ensures
            rate == 0 ==> !r,
            rate >= SCALE ==> r,
    {
        draw_below(&mut self.rng, SCALE) < rate
    }
}

} // verus!
