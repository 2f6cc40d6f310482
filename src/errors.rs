//! Errors of configuration and of a run.

use vstd::prelude::*;

verus! {

/// A configuration refused at construction.
#[derive(Debug, Clone, Copy, PartialEq, Eq, Structural)]
pub enum ConfigError {
    /// An archive must hold at least one entry.
    ZeroCapacity,
    /// A population must be even and not empty.
    PopulationSize,
    /// A probability or rate lies outside `[0, SCALE]`.
    RateOutOfRange,
    /// The initial temperature must be positive.
    NonPositiveTemperature,
    /// The cooling rate must stay below `SCALE`, so that the temperature never
    /// reaches zero.
    CoolingRateTooHigh,
    /// The distance matrix must be square, with at least two nodes and no more
    /// than the largest supported number.
    MatrixShape,
    /// Distances between distinct nodes must lie in `[1, MAX_DISTANCE]`.
    DistanceOutOfRange,
    /// The distance matrix must be symmetric.
    AsymmetricMatrix,
    /// A coefficient exceeds the largest supported value.
    CoefficientTooLarge,
}

/// A run that had to stop.
#[derive(Debug, Clone, Copy, PartialEq, Eq, Structural)]
pub enum SearchError {
    /// Every candidate of the population had fitness zero, so fitness-proportional
    /// selection had nothing to weigh; `generation` is the generation it
    /// happened in.
    ZeroTotalFitness { generation: usize },
}

} // verus!
