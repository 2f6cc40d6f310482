//! Simulated annealing: a single trajectory that always takes a better
//! neighbour and takes a worse one with probability `exp(-delta / T)`, under a
//! geometrically cooling temperature.

use crate::archive::{archive_fold, lemma_fold_push, Archive};
use crate::errors::{ConfigError, SearchError};
use crate::individual::{Individual, Neighbor};
use crate::observer::{shown_populations, full_run, notify_finish, notify_iteration, notify_start, opening, Notice, Observer};
use crate::optimizer::{run_notices, Optimizer};
use crate::random::{Random, SCALE};
use vstd::arithmetic::power::pow;
use vstd::prelude::*;

verus! {

proof fn lemma_product_fits(a: int, b: int)
    requires
        0 <= a <= u64::MAX,
        0 <= b <= u64::MAX,
    ensures
        0 <= a * b <= u128::MAX,
{
    assert(0 <= a * b <= u64::MAX * u64::MAX) by (nonlinear_arith)
        requires
            0 <= a <= u64::MAX,
            0 <= b <= u64::MAX,
    ;
}

/// Resolution of the uniform draws of the acceptance test.
pub const DRAW_RESOLUTION: u64 = 0x1_0000_0000;

/// Draw `u`, read as `u / DRAW_RESOLUTION`, lies below `num / den`.
pub open spec fn below_fraction(u: u64, num: u64, den: u64) -> bool {
    u * den < num * DRAW_RESOLUTION
}

/// The first `m` draws of `d` fall: the first lies below `num / den`, and
/// each later one below the one before it.
pub open spec fn falling_run(d: Seq<u64>, num: u64, den: u64, m: int) -> bool {
    &&& 0 <= m <= d.len()
    &&& m > 0 ==> below_fraction(d[0], num, den)
    &&& forall|i: int| 1 <= i < m ==> #[trigger] d[i] < d[i - 1]
}

/// Draw `m` of `d` ends a run of `m` falling draws.
pub open spec fn run_ends_at(d: Seq<u64>, num: u64, den: u64, m: int) -> bool {
    &&& m < d.len()
    &&& falling_run(d, num, den, m)
    &&& if m == 0 {
        !below_fraction(d[0], num, den)
    } else {
        d[m] >= d[m - 1]
    }
}

/// Von Neumann's test for `exp(-num / den)` on given draws: it passes when
/// the run of falling draws has even length. `None` while every draw so far
/// still falls, so that the outcome needs another draw.
pub fn falling_run_outcome(num: u64, den: u64, draws: &Vec<u64>) -> (r: Option<bool>)
    requires
        den > 0,
    ensures
        match r {
            Some(b) => exists|m: int| #[trigger] run_ends_at(draws@, num, den, m) && b == (m % 2 == 0),
            None => falling_run(draws@, num, den, draws@.len() as int),
        },
{
    if draws.len() == 0 {
        return None;
    }
    proof {
        lemma_product_fits(draws@[0] as int, den as int);
        lemma_product_fits(num as int, DRAW_RESOLUTION as int);
    }
    if draws[0] as u128 * den as u128 >= num as u128 * DRAW_RESOLUTION as u128 {
        assert(run_ends_at(draws@, num, den, 0));
        return Some(true);
    }
    let mut i: usize = 1;
    while i < draws.len()
        invariant
            1 <= i <= draws@.len(),
            falling_run(draws@, num, den, i as int),
        decreases draws@.len() - i,
    {
        if draws[i] >= draws[i - 1] {
            assert(run_ends_at(draws@, num, den, i as int));
            return Some(i % 2 == 0);
        }
        i = i + 1;
    }
    None
}

/// True with probability `exp(-num / den)` for `num <= den`: uniform draws
/// from `[0, DRAW_RESOLUTION)` are taken until `falling_run_outcome` decides.
/// Always true for `num == 0`.
fn exp_neg_fraction(num: u64, den: u64, rng: &mut Random) -> (r: (bool, Vec<u64>))
    requires
        den > 0,
        num <= den,
    ensures
        run_passes(r.1@, num, den, r.0),
        forall|i: int| 0 <= i < r.1@.len() ==> #[trigger] r.1@[i] < DRAW_RESOLUTION,
        num == 0 ==> r.0,
{
    let mut draws: Vec<u64> = Vec::new();
    let mut bound: u64 = DRAW_RESOLUTION;
    loop
        invariant
            den > 0,
            falling_run(draws@, num, den, draws@.len() as int),
            forall|i: int| 0 <= i < draws@.len() ==> #[trigger] draws@[i] < DRAW_RESOLUTION,
            draws@.len() == 0 ==> bound == DRAW_RESOLUTION,
            draws@.len() > 0 ==> bound == draws@[draws@.len() - 1],
        decreases bound,
    {
        let u = rng.below(DRAW_RESOLUTION);
        draws.push(u);
        match falling_run_outcome(num, den, &draws) {
            Some(b) => {
                proof {
                    let m = choose|m: int| #[trigger] run_ends_at(draws@, num, den, m) && b == (m % 2
                        == 0);
                    if num == 0 && m > 0 {
                        assert(draws@[0] * den >= 0) by (nonlinear_arith)
                            requires
                                draws@[0] >= 0,
                                den >= 0,
                        ;
                        assert(below_fraction(draws@[0], num, den));
                    }
                }
                return (b, draws);
            },
            None => {
                proof {
                    let n = draws@.len() as int;
                    assert(draws@[n - 1] == u);
                    if n > 1 {
                        assert(draws@[n - 1] < draws@[n - 2]);
                    }
                }
                bound = u;
            },
        }
    }
}

/// Draws `d` decide one falling-run test for `num / den`, with outcome `b`.
pub open spec fn run_passes(d: Seq<u64>, num: u64, den: u64, b: bool) -> bool {
    exists|m: int| #[trigger] run_ends_at(d, num, den, m) && b == (m % 2 == 0)
}

/// The first `count` runs each passed the test for `exp(-1)`.
pub open spec fn units_pass(runs: Seq<Seq<u64>>, count: int) -> bool {
    forall|j: int| 0 <= j < count ==> run_passes(#[trigger] runs[j], 1, 1, true)
}

/// The runs stop at run `i`, a failed test for `exp(-1)` after `i` passed.
pub open spec fn stops_at(runs: Seq<Seq<u64>>, i: int) -> bool {
    &&& runs.len() == i + 1
    &&& units_pass(runs, i)
    &&& run_passes(runs[i], 1, 1, false)
}

/// The runs decide the whole test for `exp(-num / den)` with outcome `b`:
/// one test for `exp(-1)` per whole unit of `num / den`, in order, stopping
/// at the first that fails; if all pass, one test for the fractional part.
pub open spec fn exp_test_decides(num: u64, den: u64, runs: Seq<Seq<u64>>, b: bool) -> bool {
    ||| !b && exists|i: int| 0 <= i < (num / den) as int && #[trigger] stops_at(runs, i)
    ||| runs.len() == (num / den) as int + 1 && units_pass(runs, (num / den) as int)
        && run_passes(runs[(num / den) as int], num % den, den, b)
}

/// The whole test for `exp(-num / den)` on given runs of draws. `None` when
/// the runs do not decide it.
pub fn exp_test_outcome(num: u64, den: u64, runs: &Vec<Vec<u64>>) -> (r: Option<bool>)
    requires
        den > 0,
    ensures
        r matches Some(b) ==> exp_test_decides(
            num,
            den,
            runs@.map_values(|v: Vec<u64>| v@),
            b,
        ),
{
    let ghost seqs = runs@.map_values(|v: Vec<u64>| v@);
    let whole = num / den;
    let fraction = num % den;
    let mut i: u64 = 0;
    while i < whole
        invariant
            den > 0,
            whole == num / den,
            fraction == num % den,
            i <= whole,
            i <= runs@.len(),
            seqs == runs@.map_values(|v: Vec<u64>| v@),
            units_pass(seqs, i as int),
        decreases whole - i,
    {
        if i as usize >= runs.len() {
            return None;
        }
        match falling_run_outcome(1, 1, &runs[i as usize]) {
            Some(true) => {
                proof {
                    assert(seqs[i as int] == runs@[i as int]@);
                    assert(run_passes(seqs[i as int], 1, 1, true));
                }
            },
            Some(false) => {
                if runs.len() == i as usize + 1 {
                    proof {
                        assert(seqs[i as int] == runs@[i as int]@);
                        assert(stops_at(seqs, i as int));
                    }
                    return Some(false);
                }
                return None;
            },
            None => {
                return None;
            },
        }
        i = i + 1;
    }
    if runs.len() == 0 || runs.len() as u64 - 1 != whole {
        return None;
    }
    let last = falling_run_outcome(fraction, den, &runs[whole as usize]);
    proof {
        assert(seqs[whole as int] == runs@[whole as int]@);
    }
    last
}

/// True with probability `exp(-num / den)`: one passing test of `exp(-1)`
/// for every whole unit of `num / den`, then one of its fractional part; the
/// draws it takes decide the test as `exp_test_outcome` reads them. Always
/// true for `num == 0`.
pub fn bernoulli_exp(num: u64, den: u64, rng: &mut Random) -> (r: bool)
    requires
        den > 0,
    ensures
        exists|runs: Seq<Seq<u64>>| #[trigger] exp_test_decides(num, den, runs, r),
        num == 0 ==> r,
{
    let whole = num / den;
    let fraction = num % den;
    assert(fraction <= den);
    if num == 0 {
        assert(whole == 0 && fraction == 0) by (nonlinear_arith)
            requires
                num == 0,
                den > 0,
                whole == num / den,
                fraction == num % den,
        ;
    }
    let ghost mut runs: Seq<Seq<u64>> = Seq::empty();
    let mut k: u64 = 0;
    while k < whole
        invariant
            den > 0,
            k <= whole,
            whole == num / den,
            fraction == num % den,
            num == 0 ==> whole == 0 && fraction == 0,
            runs.len() == k,
            units_pass(runs, k as int),
        decreases whole - k,
    {
        let (passed, draws) = exp_neg_fraction(1, 1, rng);
        let ghost before = runs;
        proof {
            runs = runs.push(draws@);
            assert forall|j: int| 0 <= j < k implies run_passes(#[trigger] runs[j], 1, 1, true) by {
                assert(runs[j] == before[j]);
            }
        }
        if !passed {
            proof {
                assert(stops_at(runs, k as int));
                assert(exp_test_decides(num, den, runs, false));
            }
            return false;
        }
        k = k + 1;
    }
    let (passed, draws) = exp_neg_fraction(fraction, den, rng);
    proof {
        let before = runs;
        runs = runs.push(draws@);
        assert forall|j: int| 0 <= j < whole implies run_passes(#[trigger] runs[j], 1, 1, true) by {
            assert(runs[j] == before[j]);
        }
        assert(exp_test_decides(num, den, runs, passed));
    }
    passed
}

/// The acceptance rule: a neighbour that is not worse is always taken; one
/// worse by `delta` is taken with probability `exp(-delta / temperature)`.
pub fn accepts(current_fitness: u64, neighbor_fitness: u64, temperature: u64, rng: &mut Random) -> (r: bool)
    requires
        temperature > 0,
    ensures
        neighbor_fitness <= current_fitness ==> r,
{
    if neighbor_fitness < current_fitness {
        true
    } else {
        bernoulli_exp(neighbor_fitness - current_fitness, temperature, rng)
    }
}

/// One cooling step: `temperature * (1 - rate)`, rounded down and held at 1
/// or more so that it never reaches zero.
pub open spec fn cooled(temperature: u64, rate: u64) -> u64 {
    let t = temperature * (SCALE - rate) / (SCALE as int);
    if t < 1 {
        1
    } else {
        t as u64
    }
}

/// The temperature after `n` cooling steps.
pub open spec fn temperature_after(initial: u64, rate: u64, n: nat) -> u64
    decreases n,
{
    if n == 0 {
        initial
    } else {
        cooled(temperature_after(initial, rate, (n - 1) as nat), rate)
    }
}

/// One cooling step.
pub fn cool(temperature: u64, rate: u64) -> (r: u64)
    requires
        rate <= SCALE,
    ensures
        r == cooled(temperature, rate),
{
    proof {
        lemma_product_fits(temperature as int, (SCALE - rate) as int);
    }
    let t = temperature as u128 * (SCALE - rate) as u128 / SCALE as u128;
    assert(t <= temperature) by (nonlinear_arith)
        requires
            t == temperature * (SCALE - rate) / (SCALE as int),
            SCALE - rate <= SCALE,
            SCALE > 0,
            temperature >= 0,
    ;
    if t < 1 {
        1
    } else {
        t as u64
    }
}

/// The temperature stays at 1 or more, and after `n` steps it is at most
/// `initial * (1 - rate)^n`, the geometric schedule, unless that has fallen
/// below 1: `T_n * SCALE^n <= max(SCALE^n, initial * (SCALE - rate)^n)`.
pub proof fn lemma_temperature_geometric(initial: u64, rate: u64, n: nat)
    requires
        initial >= 1,
        rate < SCALE,
    ensures
        temperature_after(initial, rate, n) >= 1,
        temperature_after(initial, rate, n) * pow(SCALE as int, n) <= vstd::math::max(
            pow(SCALE as int, n),
            initial * pow((SCALE - rate) as int, n),
        ),
    decreases n,
{
    let s = SCALE as int;
    let q = (SCALE - rate) as int;
    if n == 0 {
        assert(pow(s, 0) == 1 && pow(q, 0) == 1) by {
            vstd::arithmetic::power::lemma_pow0(s);
            vstd::arithmetic::power::lemma_pow0(q);
        }
    } else {
        let m = (n - 1) as nat;
        lemma_temperature_geometric(initial, rate, m);
        let prev = temperature_after(initial, rate, m) as int;
        let sm = pow(s, m);
        let qm = pow(q, m);
        vstd::arithmetic::power::lemma_pow_positive(s, m);
        vstd::arithmetic::power::lemma_pow_positive(s, n);
        vstd::arithmetic::power::lemma_pow_adds(s, m, 1);
        vstd::arithmetic::power::lemma_pow_adds(q, m, 1);
        vstd::arithmetic::power::lemma_pow1(s);
        vstd::arithmetic::power::lemma_pow1(q);
        assert(pow(s, n) == sm * s);
        assert(pow(q, n) == qm * q);
        let t = prev * q / s;
        let cur = temperature_after(initial, rate, n) as int;
        assert(t <= prev) by (nonlinear_arith)
            requires
                t == prev * q / s,
                0 < q <= s,
                prev >= 0,
        ;
        if t >= 1 {
            assert(cur == t);
            assert(t * s <= prev * q) by (nonlinear_arith)
                requires
                    t == prev * q / s,
                    s > 0,
            ;
            let bound = vstd::math::max(sm, initial * qm);
            assert(prev * sm <= bound);
            assert(t * (sm * s) <= bound * q) by (nonlinear_arith)
                requires
                    t * s <= prev * q,
                    prev * sm <= bound,
                    sm > 0,
                    q > 0,
                    t >= 0,
            ;
            assert(bound * q <= vstd::math::max(sm * s, initial * (qm * q))) by (nonlinear_arith)
                requires
                    bound == vstd::math::max(sm, initial * qm),
                    0 < q <= s,
                    sm > 0,
            ;
        } else {
            assert(cur == 1);
        }
    }
}

/// One iteration of a run, as the acceptance rule saw it: the candidate it
/// started from, the neighbour proposed, the candidate it ended with, the two
/// fitness values compared and the temperature in effect.
pub struct AnnealingStep<I> {
    pub from: I,
    pub neighbor: I,
    pub to: I,
    pub current_fitness: u64,
    pub neighbor_fitness: u64,
    pub temperature: u64,
}

/// A run of steps, each starting where the one before ended: step `k` ran at
/// the temperature of `k` cooling steps, compared the fitness of where it
/// started with that of the neighbour, ended with the neighbour or where it
/// started, took a neighbour that was not worse, and offered a clone of the
/// candidate it ended with to the archive, with that candidate's fitness.
pub open spec fn annealing_run<I: Individual>(
    trail: Seq<AnnealingStep<I>>,
    added: Seq<(I, u64)>,
    initial: u64,
    rate: u64,
) -> bool {
    &&& trail.len() == added.len()
    &&& forall|k: int|
        0 <= k < trail.len() ==> {
            let s = #[trigger] trail[k];
            &&& s.temperature == temperature_after(initial, rate, k as nat)
            &&& s.current_fitness == s.from.spec_fitness()
            &&& s.neighbor_fitness == s.neighbor.spec_fitness()
            &&& (s.to == s.neighbor || s.to == s.from)
            &&& s.neighbor_fitness <= s.current_fitness ==> s.to == s.neighbor
            &&& cloned(s.to, added[k].0)
            &&& added[k].1 == s.to.spec_fitness()
        }
    &&& forall|k: int| 1 <= k < trail.len() ==> (#[trigger] trail[k]).from == trail[k - 1].to
}

/// The observers were shown the starting candidate, then after each step the
/// candidate it ended with, each as a clone in a population of one.
pub open spec fn trail_shown<I: Individual>(trail: Seq<AnnealingStep<I>>, snaps: Seq<Seq<I>>) -> bool {
    &&& snaps.len() == trail.len() + 1
    &&& forall|k: int| 0 <= k < snaps.len() ==> (#[trigger] snaps[k]).len() == 1
    &&& trail.len() > 0 ==> cloned(trail[0].from, snaps[0][0])
    &&& forall|k: int| 0 <= k < trail.len() ==> cloned((#[trigger] trail[k]).to, snaps[k + 1][0])
}

/// Configuration of simulated annealing. The temperature is in fitness
/// units; the cooling rate is in parts per `SCALE`.
pub struct SimulatedAnnealing {
    initial_temp: u64,
    cooling_rate: u64,
    iterations: usize,
}

impl SimulatedAnnealing {
    pub closed spec fn wf(&self) -> bool {
        self.initial_temp > 0 && self.cooling_rate < SCALE
    }

    #[verifier::type_invariant]
    spec fn accepted(&self) -> bool {
        self.wf()
    }

    pub closed spec fn spec_initial_temp(&self) -> u64 {
        self.initial_temp
    }

    pub closed spec fn spec_cooling_rate(&self) -> u64 {
        self.cooling_rate
    }

    pub closed spec fn spec_iterations(&self) -> usize {
        self.iterations
    }

    /// A configuration; the initial temperature must be positive and the
    /// cooling rate below `SCALE` (a rate of 1.0 would freeze the run at zero).
    pub fn new(initial_temp: u64, cooling_rate: u64, iterations: usize) -> (r: Result<
        SimulatedAnnealing,
        ConfigError,
    >)
        ensures
            match r {
                Ok(sa) => {
                    &&& initial_temp > 0 && cooling_rate < SCALE
                    &&& sa.wf()
                    &&& sa.spec_initial_temp() == initial_temp
                    &&& sa.spec_cooling_rate() == cooling_rate
                    &&& sa.spec_iterations() == iterations
                },
                Err(e) => {
                    &&& initial_temp == 0 ==> e == ConfigError::NonPositiveTemperature
                    &&& initial_temp > 0 ==> cooling_rate >= SCALE && e
                        == ConfigError::CoolingRateTooHigh
                },
            },
    {
        if initial_temp == 0 {
            return Err(ConfigError::NonPositiveTemperature);
        }
        if cooling_rate >= SCALE {
            return Err(ConfigError::CoolingRateTooHigh);
        }
        Ok(SimulatedAnnealing { initial_temp, cooling_rate, iterations })
    }

    /// The temperature after `n` iterations of a run.
    pub fn temperature_at(&self, n: usize) -> (r: u64)
        ensures
            r == temperature_after(self.spec_initial_temp(), self.spec_cooling_rate(), n as nat),
    {
        proof {
            use_type_invariant(self);
        }
        let mut t = self.initial_temp;
        let mut k: usize = 0;
        while k < n
            invariant
                self.wf(),
                k <= n,
                t == temperature_after(self.initial_temp, self.cooling_rate, k as nat),
            decreases n - k,
        {
            t = cool(t, self.cooling_rate);
            k = k + 1;
        }
        t
    }
}

impl<I: Neighbor + crate::individual::Default> Optimizer<I> for SimulatedAnnealing {
    open spec fn rounds(&self) -> nat {
        self.spec_iterations() as nat
    }

    /// Starts from a random candidate; each iteration proposes a neighbour,
    /// applies the acceptance rule, offers the current candidate to the
    /// archive (accepted or not), notifies the observers and cools. The
    /// archive receives exactly one addition per iteration.
    fn optimize<A: Archive<Solution = I>, O: Observer<I>>(
        &self,
        archive: &mut A,
        observers: &mut Vec<O>,
        rng: &mut Random,
    ) -> (r: Result<(), SearchError>)
        ensures
            r is Ok,
            exists|trail: Seq<AnnealingStep<I>>, added: Seq<(I, u64)>, snaps: Seq<Seq<I>>|
                #[trigger] annealing_run(
                    trail,
                    added,
                    self.spec_initial_temp(),
                    self.spec_cooling_rate(),
                ) && #[trigger] shown_populations(old(observers)@, final(observers)@, snaps)
                    && trail_shown(trail, snaps) && added.len() == self.spec_iterations() && final(archive).entries()
                    == archive_fold(old(archive).capacity(), old(archive).entries(), added),
    {
        proof {
            use_type_invariant(self);
        }
        let ghost initial = archive.entries();
        let ghost mut added: Seq<(I, u64)> = Seq::empty();
        let ghost mut trail: Seq<AnnealingStep<I>> = Seq::empty();
        let ghost before = observers@;
        let mut current = I::default(rng);
        let mut temperature = self.initial_temp;
        let start = vec![current.clone()];
        let ghost mut snaps: Seq<Seq<I>> = seq![start@];
        notify_start(observers, start.as_slice());
        proof {
            assert forall|k: int| 0 <= k < before.len() implies #[trigger] observers@[k].shown()
                == before[k].shown() + snaps by {
                assert(before[k].shown().push(start@) =~= before[k].shown() + snaps);
            }
        }
        let mut done: usize = 0;
        while done < self.iterations
            invariant
                self.wf(),
                done <= self.iterations,
                temperature == temperature_after(self.initial_temp, self.cooling_rate, done as nat),
                archive.wf(),
                archive.capacity() == old(archive).capacity(),
                initial == old(archive).entries(),
                added.len() == done,
                archive.entries() == archive_fold(archive.capacity(), initial, added),
                annealing_run(trail, added, self.initial_temp, self.cooling_rate),
                trail.len() == done,
                trail.len() > 0 ==> trail[trail.len() - 1].to == current,
                trail.len() == 0 ==> cloned(current, snaps[0][0]),
                snaps.len() > 0,
                trail_shown(trail, snaps),
                shown_populations(before, observers@, snaps),
                before == old(observers)@,
                observers@.len() == before.len(),
                forall|k: int|
                    0 <= k < before.len() ==> #[trigger] observers@[k].notices()
                        == before[k].notices() + opening(done as nat),
            decreases self.iterations - done,
        {
            let iteration = done + 1;
            proof {
                lemma_temperature_geometric(self.initial_temp, self.cooling_rate, done as nat);
            }
            let neighbor = current.neighbor(rng);
            let current_fitness = current.fitness();
            let neighbor_fitness = neighbor.fitness();
            let ghost from = current;
            let ghost proposed = neighbor;
            if accepts(current_fitness, neighbor_fitness, temperature, rng) {
                current = neighbor;
            }
            let fitness = current.fitness();
            let offered = current.clone();
            proof {
                lemma_fold_push(archive.capacity(), initial, added, (offered, fitness));
                added = added.push((offered, fitness));
                let step = AnnealingStep {
                    from,
                    neighbor: proposed,
                    to: current,
                    current_fitness,
                    neighbor_fitness,
                    temperature,
                };
                assert(trail.push(step).drop_last() =~= trail);
                trail = trail.push(step);
            }
            archive.add(offered, fitness);
            let snapshot = vec![current.clone()];
            let ghost mid = observers@;
            let ghost mid_snaps = snaps;
            notify_iteration(observers, iteration, snapshot.as_slice());
            proof {
                snaps = snaps.push(snapshot@);
                assert forall|k: int| 0 <= k < before.len() implies #[trigger] observers@[k].shown()
                    == before[k].shown() + snaps by {
                    assert(mid[k].shown() == before[k].shown() + mid_snaps);
                    assert((before[k].shown() + mid_snaps).push(snapshot@) =~= before[k].shown() + snaps);
                }
            }
            proof {
                assert forall|k: int| 0 <= k < before.len() implies #[trigger] observers@[k].notices()
                    == before[k].notices() + opening(iteration as nat) by {
                    assert(before[k].notices() + opening(iteration as nat) =~= (before[k].notices()
                        + opening(done as nat)).push(Notice::Iteration(iteration)));
                }
            }
            temperature = cool(temperature, self.cooling_rate);
            done = iteration;
        }
        notify_finish(observers);
        proof {
            assert forall|k: int| 0 <= k < before.len() implies #[trigger] observers@[k].notices()
                == before[k].notices() + run_notices(self.iterations as nat, Ok(())) by {
                assert(before[k].notices() + full_run(done as nat) =~= (before[k].notices()
                    + opening(done as nat)).push(Notice::Finish));
            }
            assert(archive.entries() == archive_fold(old(archive).capacity(), old(archive).entries(), added));
            assert(annealing_run(trail, added, self.spec_initial_temp(), self.spec_cooling_rate()));
            assert(shown_populations(old(observers)@, observers@, snaps));
        }
        Ok(())
    }
}

} // verus!
