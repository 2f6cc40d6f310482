//! The search-loop abstraction shared by the four algorithms.

use crate::archive::Archive;
use crate::errors::SearchError;
use crate::individual::Individual;
use crate::observer::{full_run, Notice, Observer};
use crate::random::Random;
use vstd::prelude::*;

verus! {

/// What every observer receives from a run of `rounds` iterations that ended
/// with `outcome`: the whole protocol, or, for a run stopped in generation
/// `g`, the protocol of a run of `g` iterations, finish included.
pub open spec fn run_notices(rounds: nat, outcome: Result<(), SearchError>) -> Seq<Notice> {
    match outcome {
        Ok(_) => full_run(rounds),
        Err(SearchError::ZeroTotalFitness { generation }) => full_run(generation as nat),
    }
}

/// A search strategy that offers candidates to an archive and reports its
/// progress to observers.
pub trait Optimizer<I: Individual> {
    /// The number of iterations of a run.
    spec fn rounds(&self) -> nat;

    fn optimize<A: Archive<Solution = I>, O: Observer<I>>(
        &self,
        archive: &mut A,
        observers: &mut Vec<O>,
        rng: &mut Random,
    ) -> (r: Result<(), SearchError>)
        requires
            old(archive).wf(),
        ensures
            final(archive).wf(),
            final(archive).capacity() == old(archive).capacity(),
            final(observers).len() == old(observers).len(),
            forall|k: int|
                0 <= k < old(observers).len() ==> #[trigger] final(observers)[k].notices()
                    == old(observers)[k].notices() + run_notices(self.rounds(), r),
    ;
}

} // verus!
