//! Metaheuristic search over caller-defined candidate representations:
//! a bounded archive of the best candidates, an observer protocol, and four
//! search loops (genetic algorithm, simulated annealing, particle swarm and
//! ant colony optimisation), all on integer and fixed-point arithmetic.

pub mod random;
pub mod errors;
pub mod individual;
pub mod archive;
pub mod observer;
pub mod logging_observers;
pub mod selection;
pub mod optimizer;
pub mod individuals;
pub mod genetic_algorithm;
pub mod simulated_annealing;
pub mod particle_swarm;
pub mod ant_colony;

pub use archive::{Archive, BasicArchive};
pub use individual::{Crossover, Individual, Mutate, Neighbor};
pub use observer::{DistributionObserver, Observer};
pub use optimizer::Optimizer;
pub use random::Random;
