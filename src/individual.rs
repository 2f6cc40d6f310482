//! What a candidate representation offers to the search loops.

use crate::random::Random;
use vstd::prelude::*;

verus! {

/// A candidate solution. Its fitness is a non-negative integer; the archive
/// keeps the lowest values, and the genetic algorithm's roulette selection
/// weighs each candidate by its fitness.
pub trait Individual: Sized + Clone {
    /// The fitness of this candidate.
    spec fn spec_fitness(&self) -> u64;

    fn fitness(&self) -> (r: u64)
        ensures
            r == self.spec_fitness(),
    ;
}

/// Two-parent recombination.
pub trait Crossover: Individual {
    fn crossover(&self, other: &Self, rng: &mut Random) -> Self;
}

/// A single in-place mutation.
pub trait Mutate: Individual {
    fn mutate(&mut self, rng: &mut Random);
}

/// A single-step move for trajectory search.
pub trait Neighbor: Individual {
    fn neighbor(&self, rng: &mut Random) -> Self;
}

/// Random construction of a representative candidate.
pub trait Default: Individual {
    fn default(rng: &mut Random) -> Self;
}

} // verus!
