//! An observer that reports progress to a sink: it decides what to report,
//! and the sink, written where output is possible, writes it.

use crate::individual::Individual;
use crate::observer::{Notice, Observer};
use vstd::prelude::*;

verus! {

/// Where a logging observer's reports go.
pub trait LogSink<I> {
    fn started(&mut self);

    fn iteration(&mut self, iteration: usize);

    fn fitness_values(&mut self, values: &Vec<u64>);

    fn population(&mut self, population: &[I]);

    fn finished(&mut self);
}

/// An observer that reports the start and the finish of a run, and at each
/// iteration, as its flags ask, the iteration's index, the fitness of each
/// candidate and the candidates themselves.
pub struct LoggingObserver<I, S> {
    log_iteration: bool,
    log_fitness: bool,
    log_individuals: bool,
    sink: S,
    received: Ghost<Seq<Notice>>,
    seen: Ghost<Seq<Seq<I>>>,
    sent: Ghost<Seq<Report>>,
}

/// One report handed to the sink.
pub ghost enum Report {
    Started,
    Iteration(usize),
    FitnessValues(Seq<u64>),
    Population(nat),
    Finished,
}

/// The reports for one iteration under the flags `(index, fitness,
/// candidates)`: the index, the fitness of each candidate in order, and the
/// population (by its size), each only where its flag asks.
pub open spec fn iteration_reports<I: Individual>(
    flags: (bool, bool, bool),
    iteration: usize,
    population: Seq<I>,
) -> Seq<Report> {
    (if flags.0 { seq![Report::Iteration(iteration)] } else { Seq::empty() }) + (if flags.1 {
        seq![Report::FitnessValues(population.map_values(|x: I| x.spec_fitness()))]
    } else {
        Seq::empty()
    }) + (if flags.2 { seq![Report::Population(population.len())] } else { Seq::empty() })
}

impl<I, S> LoggingObserver<I, S> {
    pub fn new(log_iteration: bool, log_fitness: bool, log_individuals: bool, sink: S) -> (r:
        LoggingObserver<I, S>)
        ensures
            r.flags() == (log_iteration, log_fitness, log_individuals),
            r.received() == Seq::<Notice>::empty(),
            r.seen() == Seq::<Seq<I>>::empty(),
            r.reports() == Seq::<Report>::empty(),
    {
        LoggingObserver {
            log_iteration,
            log_fitness,
            log_individuals,
            sink,
            received: Ghost(Seq::empty()),
            seen: Ghost(Seq::empty()),
            sent: Ghost(Seq::empty()),
        }
    }

    /// The notifications received so far.
    pub closed spec fn received(&self) -> Seq<Notice> {
        self.received@
    }

    /// The reports handed to the sink so far.
    pub closed spec fn reports(&self) -> Seq<Report> {
        self.sent@
    }

    /// The populations shown so far.
    pub closed spec fn seen(&self) -> Seq<Seq<I>> {
        self.seen@
    }

    /// The sink that receives the reports.
    pub fn sink(&self) -> &S {
        &self.sink
    }

    /// Whether it reports iteration indices, fitness values and candidates.
    pub closed spec fn flags(&self) -> (bool, bool, bool) {
        (self.log_iteration, self.log_fitness, self.log_individuals)
    }
}

/// The fitness of each candidate, in order.
pub fn fitness_values<I: Individual>(population: &[I]) -> (r: Vec<u64>)
    ensures
        r@ == population@.map_values(|x: I| x.spec_fitness()),
{
    let mut values: Vec<u64> = Vec::new();
    let mut i: usize = 0;
    while i < population.len()
        invariant
            i <= population@.len(),
            values@ == population@.subrange(0, i as int).map_values(|x: I| x.spec_fitness()),
        decreases population@.len() - i,
    {
        values.push(population[i].fitness());
        i = i + 1;
        assert(values@ =~= population@.subrange(0, i as int).map_values(|x: I| x.spec_fitness()));
    }
    assert(population@.subrange(0, i as int) =~= population@);
    values
}

impl<I: Individual, S: LogSink<I>> Observer<I> for LoggingObserver<I, S> {
    closed spec fn notices(&self) -> Seq<Notice> {
        self.received@
    }

    closed spec fn shown(&self) -> Seq<Seq<I>> {
        self.seen@
    }

    fn on_start(&mut self)
        ensures
            final(self).reports() == old(self).reports().push(Report::Started),
            final(self).flags() == old(self).flags(),
    {
        self.sink.started();
        self.received = Ghost(self.received@.push(Notice::Start));
        self.sent = Ghost(self.sent@.push(Report::Started));
    }

    fn on_iteration(&mut self, iteration: usize, population: &[I])
        ensures
            final(self).reports() == old(self).reports() + iteration_reports(
                old(self).flags(),
                iteration,
                population@,
            ),
            final(self).flags() == old(self).flags(),
    {
        let ghost start = self.sent@;
        if self.log_iteration {
            self.sink.iteration(iteration);
            self.sent = Ghost(self.sent@.push(Report::Iteration(iteration)));
        }
        if self.log_fitness {
            let values = fitness_values(population);
            self.sink.fitness_values(&values);
            self.sent = Ghost(self.sent@.push(Report::FitnessValues(values@)));
        }
        if self.log_individuals {
            self.sink.population(population);
            self.sent = Ghost(self.sent@.push(Report::Population(population@.len())));
        }
        assert(self.sent@ =~= start + iteration_reports(
            (self.log_iteration, self.log_fitness, self.log_individuals),
            iteration,
            population@,
        ));
        self.received = Ghost(self.received@.push(Notice::Iteration(iteration)));
        self.seen = Ghost(self.seen@.push(population@));
    }

    fn on_finish(&mut self)
        ensures
            final(self).reports() == old(self).reports().push(Report::Finished),
            final(self).flags() == old(self).flags(),
    {
        self.sink.finished();
        self.sent = Ghost(self.sent@.push(Report::Finished));
        self.received = Ghost(self.received@.push(Notice::Finish));
    }
}

} // verus!
