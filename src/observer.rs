//! The notification protocol of a run: `on_start` once, `on_iteration` once
//! per iteration (index 0 first, before any evaluation), `on_finish` once.

use crate::individual::Individual;
use vstd::prelude::*;

verus! {

/// One notification, as an observer receives it.
#[derive(Debug, Clone, Copy, PartialEq, Eq, Structural)]
pub enum Notice {
    Start,
    Iteration(usize),
    Finish,
}

/// The notifications of a run up to and including iteration `n`: the start,
/// then iterations `0..=n`.
pub open spec fn opening(n: nat) -> Seq<Notice>
    decreases n,
{
    if n == 0 {
        seq![Notice::Start, Notice::Iteration(0)]
    } else {
        opening((n - 1) as nat).push(Notice::Iteration(n as usize))
    }
}

/// The notifications of a complete run of `n` iterations.
pub open spec fn full_run(n: nat) -> Seq<Notice> {
    opening(n).push(Notice::Finish)
}

/// A sink for progress notifications. It only watches: nothing it does flows
/// back into the run.
pub trait Observer<I: Individual> {
    /// The notifications received so far, in order.
    spec fn notices(&self) -> Seq<Notice>;

    /// The populations shown so far, one per `on_iteration`, in order.
    spec fn shown(&self) -> Seq<Seq<I>>;

    /// Called at the beginning of the optimization process.
    fn on_start(&mut self)
        ensures
            final(self).notices() == old(self).notices().push(Notice::Start),
            final(self).shown() == old(self).shown(),
    ;

    /// Called at each iteration with the current population.
    fn on_iteration(&mut self, iteration: usize, population: &[I])
        ensures
            final(self).notices() == old(self).notices().push(Notice::Iteration(iteration)),
            final(self).shown() == old(self).shown().push(population@),
    ;

    /// Called at the end of the optimization process.
    fn on_finish(&mut self)
        ensures
            final(self).notices() == old(self).notices().push(Notice::Finish),
            final(self).shown() == old(self).shown(),
    ;
}

/// Each observer of `after` was shown, beyond what it had been shown in
/// `before`, exactly the populations `snaps`, in order.
pub open spec fn shown_populations<I: Individual, O: Observer<I>>(
    before: Seq<O>,
    after: Seq<O>,
    snaps: Seq<Seq<I>>,
) -> bool {
    &&& after.len() == before.len()
    &&& forall|k: int| 0 <= k < before.len() ==> #[trigger] after[k].shown() == before[k].shown() + snaps
}

/// Sends `on_start` and then `on_iteration(0, population)` to each observer.
pub fn notify_start<I: Individual, O: Observer<I>>(observers: &mut Vec<O>, population: &[I])
    ensures
        final(observers).len() == old(observers).len(),
        forall|k: int|
            0 <= k < old(observers).len() ==> #[trigger] final(observers)[k].notices()
                == old(observers)[k].notices() + opening(0),
        forall|k: int|
            0 <= k < old(observers).len() ==> #[trigger] final(observers)[k].shown()
                == old(observers)[k].shown().push(population@),
{
    let ghost before = observers@;
    let mut k: usize = 0;
    while k < observers.len()
        invariant
            observers.len() == before.len(),
            0 <= k <= before.len(),
            forall|j: int|
                0 <= j < k ==> #[trigger] observers[j].notices() == before[j].notices() + opening(
                    0,
                ),
            forall|j: int|
                0 <= j < k ==> #[trigger] observers[j].shown() == before[j].shown().push(
                    population@,
                ),
            forall|j: int| k <= j < before.len() ==> #[trigger] observers[j] == before[j],
        decreases before.len() - k,
    {
        observers[k].on_start();
        observers[k].on_iteration(0, population);
        assert(observers[k as int].notices() =~= before[k as int].notices() + opening(0));
        k = k + 1;
    }
}

/// Sends `on_iteration(iteration, population)` to each observer.
pub fn notify_iteration<I: Individual, O: Observer<I>>(
    observers: &mut Vec<O>,
    iteration: usize,
    population: &[I],
)
    ensures
        final(observers).len() == old(observers).len(),
        forall|k: int|
            0 <= k < old(observers).len() ==> #[trigger] final(observers)[k].notices()
                == old(observers)[k].notices().push(Notice::Iteration(iteration)),
        forall|k: int|
            0 <= k < old(observers).len() ==> #[trigger] final(observers)[k].shown()
                == old(observers)[k].shown().push(population@),
{
    let ghost before = observers@;
    let mut k: usize = 0;
    while k < observers.len()
        invariant
            observers.len() == before.len(),
            0 <= k <= before.len(),
            forall|j: int|
                0 <= j < k ==> #[trigger] observers[j].notices() == before[j].notices().push(
                    Notice::Iteration(iteration),
                ),
            forall|j: int|
                0 <= j < k ==> #[trigger] observers[j].shown() == before[j].shown().push(
                    population@,
                ),
            forall|j: int| k <= j < before.len() ==> #[trigger] observers[j] == before[j],
        decreases before.len() - k,
    {
        observers[k].on_iteration(iteration, population);
        k = k + 1;
    }
}

/// Sends `on_finish` to each observer.
pub fn notify_finish<I: Individual, O: Observer<I>>(observers: &mut Vec<O>)
    ensures
        final(observers).len() == old(observers).len(),
        forall|k: int|
            0 <= k < old(observers).len() ==> #[trigger] final(observers)[k].notices()
                == old(observers)[k].notices().push(Notice::Finish),
        forall|k: int|
            0 <= k < old(observers).len() ==> #[trigger] final(observers)[k].shown()
                == old(observers)[k].shown(),
{
    let ghost before = observers@;
    let mut k: usize = 0;
    while k < observers.len()
        invariant
            observers.len() == before.len(),
            0 <= k <= before.len(),
            forall|j: int|
                0 <= j < k ==> #[trigger] observers[j].notices() == before[j].notices().push(
                    Notice::Finish,
                ),
            forall|j: int| 0 <= j < k ==> #[trigger] observers[j].shown() == before[j].shown(),
            forall|j: int| k <= j < before.len() ==> #[trigger] observers[j] == before[j],
        decreases before.len() - k,
    {
        observers[k].on_finish();
        k = k + 1;
    }
}

/// An observer that records a copy of the population at every iteration.
pub struct DistributionObserver<I: Individual> {
    distributions: Vec<Vec<I>>,
    received: Ghost<Seq<Notice>>,
    seen: Ghost<Seq<Seq<I>>>,
}

impl<I: Individual> DistributionObserver<I> {
    /// The populations recorded so far, one per iteration.
    pub closed spec fn snapshots(&self) -> Seq<Vec<I>> {
        self.distributions@
    }

    pub fn new() -> (r: DistributionObserver<I>)
        ensures
            r.snapshots().len() == 0,
            r.notices() == Seq::<Notice>::empty(),
            r.shown() == Seq::<Seq<I>>::empty(),
    {
        DistributionObserver {
            distributions: Vec::new(),
            received: Ghost(Seq::empty()),
            seen: Ghost(Seq::empty()),
        }
    }

    /// The populations recorded so far, one per iteration.
    pub fn distributions(&self) -> (r: &Vec<Vec<I>>)
        ensures
            r@ == self.snapshots(),
    {
        &self.distributions
    }
}

impl<I: Individual> Observer<I> for DistributionObserver<I> {
    closed spec fn notices(&self) -> Seq<Notice> {
        self.received@
    }

    closed spec fn shown(&self) -> Seq<Seq<I>> {
        self.seen@
    }

    fn on_start(&mut self) {
        self.received = Ghost(self.received@.push(Notice::Start));
    }

    fn on_iteration(&mut self, iteration: usize, population: &[I])
        ensures
            final(self).snapshots() == old(self).snapshots().push(final(self).snapshots().last()),
            final(self).snapshots().last()@.len() == population@.len(),
            forall|i: int|
                0 <= i < population@.len() ==> cloned(
                    population@[i],
                    #[trigger] final(self).snapshots().last()@[i],
                ),
    {
        let mut snapshot: Vec<I> = Vec::new();
        let mut i: usize = 0;
        while i < population.len()
            invariant
                i <= population@.len(),
                snapshot@.len() == i,
                forall|j: int| 0 <= j < i ==> cloned(population@[j], #[trigger] snapshot@[j]),
            decreases population@.len() - i,
        {
            snapshot.push(population[i].clone());
            i = i + 1;
        }
        self.distributions.push(snapshot);
        self.received = Ghost(self.received@.push(Notice::Iteration(iteration)));
        self.seen = Ghost(self.seen@.push(population@));
    }

    fn on_finish(&mut self) {
        self.received = Ghost(self.received@.push(Notice::Finish));
    }
}

} // verus!
