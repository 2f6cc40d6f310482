//! The genetic algorithm: a fixed-size population renewed every generation by
//! fitness-proportional selection, crossover and mutation.

use crate::archive::{archive_fold, fold_rounds, lemma_fold_push, lemma_rounds_push, Archive};
use crate::errors::{ConfigError, SearchError};
use crate::individual::{Crossover, Individual, Mutate};
use crate::observer::{shown_populations, full_run, notify_finish, notify_iteration, notify_start, opening, Notice, Observer};
use crate::optimizer::{run_notices, Optimizer};
use crate::random::{Random, SCALE};
use crate::selection::{lemma_bounded_weights_sum, picked_by_draw, roulette_draw, weight_sum};
use vstd::prelude::*;

verus! {

/// Configuration of a genetic algorithm. Rates are in parts per `SCALE`.
pub struct GeneticAlgorithm {
    population_size: usize,
    mutation_rate: u64,
    crossover_rate: u64,
    generations: usize,
}

/// The fitness values of a population, as selection weights.
pub open spec fn fitness_weights(scores: Seq<u64>) -> Seq<u128> {
    scores.map_values(|f: u64| f as u128)
}

/// `x` is a clone of a member of `population` whose score is positive and on
/// which a uniform draw from `[0, total score)` landed.
pub open spec fn drawn_from<I: Individual>(population: Seq<I>, scores: Seq<u64>, x: I) -> bool {
    exists|j: int|
        0 <= j < population.len() && scores[j] > 0 && #[trigger] picked_by_draw(
            fitness_weights(scores),
            j,
        ) && cloned(population[j], x)
}

impl GeneticAlgorithm {
    /// A population that is even and not empty, and both rates at most
    /// `SCALE`.
    pub open spec fn valid_config(
        population_size: usize,
        mutation_rate: u64,
        crossover_rate: u64,
    ) -> bool {
        &&& population_size >= 2
        &&& population_size % 2 == 0
        &&& mutation_rate <= SCALE
        &&& crossover_rate <= SCALE
    }

    #[verifier::type_invariant]
    spec fn accepted(&self) -> bool {
        self.wf()
    }

    pub closed spec fn spec_population_size(&self) -> usize {
        self.population_size
    }

    pub closed spec fn spec_generations(&self) -> usize {
        self.generations
    }

    pub closed spec fn spec_mutation_rate(&self) -> u64 {
        self.mutation_rate
    }

    pub closed spec fn spec_crossover_rate(&self) -> u64 {
        self.crossover_rate
    }

    pub closed spec fn wf(&self) -> bool {
        Self::valid_config(self.population_size, self.mutation_rate, self.crossover_rate)
    }

    /// A configuration; the population must be even and not empty (each pair
    /// of parents yields two children), and both rates at most `SCALE`.
    pub fn new(
        population_size: usize,
        mutation_rate: u64,
        crossover_rate: u64,
        generations: usize,
    ) -> (r: Result<GeneticAlgorithm, ConfigError>)
        ensures
            match r {
                Ok(ga) => {
                    &&& Self::valid_config(population_size, mutation_rate, crossover_rate)
                    &&& ga.wf()
                    &&& ga.spec_population_size() == population_size
                    &&& ga.spec_generations() == generations
                    &&& ga.spec_mutation_rate() == mutation_rate
                    &&& ga.spec_crossover_rate() == crossover_rate
                },
                Err(e) => {
                    &&& !Self::valid_config(population_size, mutation_rate, crossover_rate)
                    &&& (e == ConfigError::PopulationSize <==> (population_size < 2
                        || population_size % 2 != 0))
                    &&& (e == ConfigError::PopulationSize || e == ConfigError::RateOutOfRange)
                },
            },
    {
        if population_size < 2 || population_size % 2 != 0 {
            return Err(ConfigError::PopulationSize);
        }
        if mutation_rate > SCALE || crossover_rate > SCALE {
            return Err(ConfigError::RateOutOfRange);
        }
        Ok(GeneticAlgorithm { population_size, mutation_rate, crossover_rate, generations })
    }

    pub fn population_size(&self) -> (r: usize)
        ensures
            r == self.spec_population_size(),
    {
        self.population_size
    }

    pub fn generations(&self) -> (r: usize)
        ensures
            r == self.spec_generations(),
    {
        self.generations
    }

    /// A population of `population_size` random candidates.
    pub fn initialize_population<I: crate::individual::Default>(&self, rng: &mut Random) -> (r: Vec<I>)
        ensures
            r@.len() == self.spec_population_size(),
    {
        let mut population: Vec<I> = Vec::new();
        let mut i: usize = 0;
        while i < self.population_size
            invariant
                i <= self.population_size,
                population@.len() == i,
            decreases self.population_size - i,
        {
            population.push(I::default(rng));
            i = i + 1;
        }
        population
    }

    /// Fitness-proportional selection of a mating pool of `population_size`
    /// candidates, each drawn with probability proportional to its score.
    /// `None` when every score is zero: nothing can then be weighed. A
    /// candidate of score zero is never selected.
    pub fn selection<I: Individual>(
        &self,
        population: &Vec<I>,
        fitness_scores: &Vec<u64>,
        rng: &mut Random,
    ) -> (r: Option<Vec<I>>)
        requires
            fitness_scores@.len() == population@.len(),
        ensures
            r is None <==> weight_sum(fitness_weights(fitness_scores@)) == 0,
            match r {
                Some(pool) => {
                    &&& pool@.len() == self.spec_population_size()
                    &&& forall|i: int|
                        0 <= i < pool@.len() ==> #[trigger] drawn_from(
                            population@,
                            fitness_scores@,
                            pool@[i],
                        )
                },
                None => true,
            },
    {
        proof {
            use_type_invariant(self);
        }
        let mut weights: Vec<u128> = Vec::new();
        let mut k: usize = 0;
        while k < fitness_scores.len()
            invariant
                k <= fitness_scores@.len(),
                weights@ == fitness_weights(fitness_scores@.subrange(0, k as int)),
            decreases fitness_scores@.len() - k,
        {
            weights.push(fitness_scores[k] as u128);
            k = k + 1;
            assert(weights@ =~= fitness_weights(fitness_scores@.subrange(0, k as int)));
        }
        assert(fitness_scores@.subrange(0, k as int) =~= fitness_scores@);
        proof {
            lemma_bounded_weights_sum(weights@, u64::MAX as int);
            assert(weights@.len() * (u64::MAX as int) <= u128::MAX) by (nonlinear_arith)
                requires
                    weights@.len() <= usize::MAX,
            ;
        }
        let mut pool: Vec<I> = Vec::new();
        let mut i: usize = 0;
        while i < self.population_size
            invariant
                i <= self.population_size,
                pool@.len() == i,
                weights@ == fitness_weights(fitness_scores@),
                0 <= weight_sum(weights@) <= u128::MAX,
                fitness_scores@.len() == population@.len(),
                i > 0 ==> weight_sum(weights@) > 0,
                forall|a: int|
                    0 <= a < i ==> #[trigger] drawn_from(population@, fitness_scores@, pool@[a]),
            decreases self.population_size - i,
        {
            match roulette_draw(&weights, rng) {
                None => {
                    return None;
                },
                Some(j) => {
                    let chosen = population[j].clone();
                    pool.push(chosen);
                    assert(weights@[j as int] == fitness_scores@[j as int] as u128);
                    assert(cloned(population@[j as int], pool@[i as int]));
                    assert(drawn_from(population@, fitness_scores@, pool@[i as int]));
                },
            }
            i = i + 1;
        }
        assert(pool@.len() == self.spec_population_size());
        Some(pool)
    }
}

impl GeneticAlgorithm {
    /// Breeds a new population from the mating pool: `population_size / 2`
    /// pairs of parents, drawn uniformly, each give two children. A child is a
    /// crossover of its parents with probability `crossover_rate`, else a clone
    /// of its first parent, and is then mutated with probability
    /// `mutation_rate`. The population keeps its size; with both rates zero
    /// every child is a clone of a member of the pool.
    pub fn crossover_and_mutate<I: Crossover + Mutate>(
        &self,
        mating_pool: Vec<I>,
        rng: &mut Random,
    ) -> (r: Vec<I>)
        requires
            mating_pool@.len() == self.spec_population_size(),
        ensures
            r@.len() == self.spec_population_size(),
            self.spec_rates_zero() ==> forall|i: int|
                0 <= i < r@.len() ==> #[trigger] cloned_member(mating_pool@, r@[i]),
            exists|breeding: Seq<Breeding>|
                #[trigger] breeding.len() == r@.len() && forall|i: int|
                    0 <= i < r@.len() ==> bred(
                        mating_pool@,
                        r@[i],
                        #[trigger] breeding[i],
                        self.spec_crossover_rate(),
                        self.spec_mutation_rate(),
                    ) && (i % 2 == 0 ==> breeding[i + 1].first == breeding[i].second
                        && breeding[i + 1].second == breeding[i].first),
    {
        proof {
            use_type_invariant(self);
        }
        let ghost mut breeding: Seq<Breeding> = Seq::empty();
        let mut new_population: Vec<I> = Vec::new();
        let pairs = self.population_size / 2;
        let mut k: usize = 0;
        while k < pairs
            invariant
                self.wf(),
                pairs == self.population_size / 2,
                mating_pool@.len() == self.population_size,
                k <= pairs,
                new_population@.len() == 2 * k,
                breeding.len() == 2 * k,
                forall|i: int|
                    0 <= i < new_population@.len() ==> bred(
                        mating_pool@,
                        new_population@[i],
                        #[trigger] breeding[i],
                        self.crossover_rate,
                        self.mutation_rate,
                    ) && (i % 2 == 0 ==> breeding[i + 1].first == breeding[i].second
                        && breeding[i + 1].second == breeding[i].first),
                self.spec_rates_zero() ==> forall|i: int|
                    0 <= i < new_population@.len() ==> #[trigger] cloned_member(
                        mating_pool@,
                        new_population@[i],
                    ),
            decreases pairs - k,
        {
            let first = rng.index(self.population_size);
            let second = rng.index(self.population_size);
            let parent1 = &mating_pool[first];
            let parent2 = &mating_pool[second];
            let cross1 = rng.chance(self.crossover_rate);
            let mut child1 = if cross1 {
                parent1.crossover(parent2, rng)
            } else {
                parent1.clone()
            };
            let cross2 = rng.chance(self.crossover_rate);
            let mut child2 = if cross2 {
                parent2.crossover(parent1, rng)
            } else {
                parent2.clone()
            };
            let ghost made1 = child1;
            let ghost made2 = child2;
            let mutate1 = rng.chance(self.mutation_rate);
            if mutate1 {
                child1.mutate(rng);
            }
            let mutate2 = rng.chance(self.mutation_rate);
            if mutate2 {
                child2.mutate(rng);
            }
            let ghost b1 = Breeding {
                first: first as int,
                second: second as int,
                crossed: cross1,
                mutated: mutate1,
            };
            let ghost b2 = Breeding {
                first: second as int,
                second: first as int,
                crossed: cross2,
                mutated: mutate2,
            };
            proof {
                if self.spec_rates_zero() {
                    assert(cloned_member(mating_pool@, child1));
                    assert(cloned_member(mating_pool@, child2));
                }
                assert(bred(mating_pool@, child1, b1, self.crossover_rate, self.mutation_rate));
                assert(bred(mating_pool@, child2, b2, self.crossover_rate, self.mutation_rate));
            }
            let ghost old_population = new_population@;
            let ghost old_breeding = breeding;
            new_population.push(child1);
            new_population.push(child2);
            proof {
                breeding = breeding.push(b1).push(b2);
                assert forall|i: int| 0 <= i < new_population@.len() implies bred(
                    mating_pool@,
                    new_population@[i],
                    #[trigger] breeding[i],
                    self.crossover_rate,
                    self.mutation_rate,
                ) && (i % 2 == 0 ==> breeding[i + 1].first == breeding[i].second
                    && breeding[i + 1].second == breeding[i].first) by {
                    if i < 2 * k {
                        assert(new_population@[i] == old_population[i]);
                        assert(breeding[i] == old_breeding[i]);
                        if i % 2 == 0 {
                            assert(breeding[i + 1] == old_breeding[i + 1]);
                        }
                    } else if i == 2 * k {
                        assert(new_population@[i] == child1 && breeding[i] == b1);
                        assert(breeding[i + 1] == b2);
                    } else {
                        assert(new_population@[i] == child2 && breeding[i] == b2);
                    }
                }
            }
            k = k + 1;
        }
        proof {
            assert(breeding.len() == new_population@.len());
        }
        new_population
    }

    pub open spec fn spec_rates_zero(&self) -> bool {
        self.spec_crossover_rate() == 0 && self.spec_mutation_rate() == 0
    }
}

/// The number of generations a run evaluated: all of them, or those up to
/// the one it stopped in.
pub open spec fn generations_evaluated(generations: usize, outcome: Result<(), SearchError>) -> nat {
    match outcome {
        Ok(_) => generations as nat,
        Err(SearchError::ZeroTotalFitness { generation }) => generation as nat,
    }
}

/// The scores of a population: the fitness of each member, in order.
pub open spec fn scores_of<I: Individual>(population: Seq<I>) -> Seq<u64> {
    population.map_values(|x: I| x.spec_fitness())
}

/// `n` generations of `size` candidates each: `pops[g]` is the population of
/// generation `g + 1`, and `rounds[g]` the additions it gave the archive, a
/// clone of each member in order with its fitness.
pub open spec fn evolution_run<I: Individual>(
    pops: Seq<Seq<I>>,
    rounds: Seq<Seq<(I, u64)>>,
    size: nat,
    n: nat,
) -> bool {
    &&& pops.len() == n
    &&& rounds.len() == n
    &&& forall|g: int| 0 <= g < n ==> (#[trigger] pops[g]).len() == size && rounds[g].len() == size
    &&& forall|g: int, j: int|
        0 <= g < n && 0 <= j < size ==> #[trigger] rounds[g][j].1 == pops[g][j].spec_fitness()
            && cloned(pops[g][j], rounds[g][j].0)
}

/// How one child was bred: its first parent, the other parent, whether it
/// came from a crossover and whether it was mutated.
pub ghost struct Breeding {
    pub first: int,
    pub second: int,
    pub crossed: bool,
    pub mutated: bool,
}

/// `child` was bred as `b` says from members of `pool`, under the two rates:
/// a rate of zero never fires and a rate of `SCALE` always does, and a child
/// neither crossed nor mutated is a clone of its first parent.
pub open spec fn bred<I: Clone>(pool: Seq<I>, child: I, b: Breeding, crossover_rate: u64, mutation_rate: u64) -> bool {
    &&& 0 <= b.first < pool.len()
    &&& 0 <= b.second < pool.len()
    &&& crossover_rate == 0 ==> !b.crossed
    &&& crossover_rate >= SCALE ==> b.crossed
    &&& mutation_rate == 0 ==> !b.mutated
    &&& mutation_rate >= SCALE ==> b.mutated
    &&& !b.crossed && !b.mutated ==> cloned(pool[b.first], child)
}

/// One more evaluated generation extends the record.
proof fn lemma_evolution_extend<I: Individual>(
    pops: Seq<Seq<I>>,
    rounds: Seq<Seq<(I, u64)>>,
    population: Seq<I>,
    round: Seq<(I, u64)>,
    size: nat,
    n: nat,
)
    requires
        evolution_run(pops, rounds, size, n),
        population.len() == size,
        round.len() == size,
        forall|j: int|
            0 <= j < size ==> #[trigger] round[j].1 == population[j].spec_fitness() && cloned(
                population[j],
                round[j].0,
            ),
    ensures
        evolution_run(pops.push(population), rounds.push(round), size, n + 1),
{
    let new_pops = pops.push(population);
    let new_rounds = rounds.push(round);
    assert forall|g: int| 0 <= g < n + 1 implies (#[trigger] new_pops[g]).len() == size
        && new_rounds[g].len() == size by {
        if g < n {
            assert(new_pops[g] == pops[g] && new_rounds[g] == rounds[g]);
        }
    }
    assert forall|g: int, j: int| 0 <= g < n + 1 && 0 <= j < size implies #[trigger] new_rounds[g][j].1
        == new_pops[g][j].spec_fitness() && cloned(new_pops[g][j], new_rounds[g][j].0) by {
        if g < n {
            assert(new_rounds[g] == rounds[g] && new_pops[g] == pops[g]);
            assert(rounds[g][j].1 == pops[g][j].spec_fitness());
        } else {
            assert(new_rounds[g] == round && new_pops[g] == population);
        }
    }
}

/// `x` is a clone of some member of `pool`.
pub open spec fn cloned_member<I: Individual>(pool: Seq<I>, x: I) -> bool {
    exists|j: int| 0 <= j < pool.len() && cloned(pool[j], x)
}

impl<I: Crossover + Mutate + crate::individual::Default> Optimizer<I> for GeneticAlgorithm {
    open spec fn rounds(&self) -> nat {
        self.spec_generations() as nat
    }

    /// Runs `generations` generations: each evaluates the population, offers
    /// every candidate to the archive, notifies the observers, selects a
    /// mating pool and breeds the next population. Stops with an error in a
    /// generation whose scores are all zero, after telling the observers that
    /// the run has finished.
    fn optimize<A: Archive<Solution = I>, O: Observer<I>>(
        &self,
        archive: &mut A,
        observers: &mut Vec<O>,
        rng: &mut Random,
    ) -> (r: Result<(), SearchError>)
        ensures
            self.spec_generations() == 0 ==> r is Ok,
            r matches Err(SearchError::ZeroTotalFitness { generation }) ==> 1 <= generation
                <= self.spec_generations(),
            exists|first: Seq<I>, pops: Seq<Seq<I>>, rounds: Seq<Seq<(I, u64)>>|
                #[trigger] shown_populations(
                    old(observers)@,
                    final(observers)@,
                    seq![first] + pops,
                ) && first.len() == self.spec_population_size() && #[trigger] evolution_run(
                    pops,
                    rounds,
                    self.spec_population_size() as nat,
                    generations_evaluated(self.spec_generations(), r),
                ) && final(archive).entries() == fold_rounds(
                    old(archive).capacity(),
                    old(archive).entries(),
                    rounds,
                ) && (forall|g: int|
                    0 <= g < pops.len() - 1 ==> weight_sum(
                        fitness_weights(scores_of(#[trigger] pops[g])),
                    ) > 0) && (pops.len() > 0 ==> (r is Err <==> weight_sum(
                    fitness_weights(scores_of(pops.last())),
                ) == 0)),
    {
        proof {
            use_type_invariant(self);
        }
        let ghost initial = archive.entries();
        let ghost mut pops: Seq<Seq<I>> = Seq::empty();
        let ghost mut rounds: Seq<Seq<(I, u64)>> = Seq::empty();
        let ghost before = observers@;
        let mut population: Vec<I> = self.initialize_population(rng);
        let ghost first = population@;
        notify_start(observers, population.as_slice());
        proof {
            assert(seq![first] + pops =~= seq![first]);
            assert forall|k: int| 0 <= k < before.len() implies #[trigger] observers@[k].shown()
                == before[k].shown() + (seq![first] + pops) by {
                assert(before[k].shown().push(first) =~= before[k].shown() + seq![first]);
            }
        }
        let mut done: usize = 0;
        while done < self.generations
            invariant
                self.wf(),
                done <= self.generations,
                population@.len() == self.population_size,
                archive.wf(),
                archive.capacity() == old(archive).capacity(),
                initial == old(archive).entries(),
                evolution_run(pops, rounds, self.population_size as nat, done as nat),
                first.len() == self.population_size,
                shown_populations(before, observers@, seq![first] + pops),
                forall|g: int|
                    0 <= g < pops.len() ==> weight_sum(fitness_weights(scores_of(#[trigger] pops[g])))
                        > 0,
                archive.entries() == fold_rounds(archive.capacity(), initial, rounds),
                before == old(observers)@,
                observers@.len() == before.len(),
                forall|k: int|
                    0 <= k < before.len() ==> #[trigger] observers@[k].notices()
                        == before[k].notices() + opening(done as nat),
            decreases self.generations - done,
        {
            let generation = done + 1;
            let ghost start = archive.entries();
            let ghost mut round: Seq<(I, u64)> = Seq::empty();
            let mut fitness_scores: Vec<u64> = Vec::new();
            let mut i: usize = 0;
            while i < population.len()
                invariant
                    i <= population@.len(),
                    fitness_scores@ == scores_of(population@.subrange(0, i as int)),
                    archive.wf(),
                    archive.capacity() == old(archive).capacity(),
                    round.len() == i,
                    forall|j: int|
                        0 <= j < i ==> #[trigger] round[j].1 == population@[j].spec_fitness()
                            && cloned(population@[j], round[j].0),
                    archive.entries() == archive_fold(archive.capacity(), start, round),
                decreases population@.len() - i,
            {
                let fitness = population[i].fitness();
                fitness_scores.push(fitness);
                let offered = population[i].clone();
                proof {
                    lemma_fold_push(archive.capacity(), start, round, (offered, fitness));
                    round = round.push((offered, fitness));
                    assert(fitness_scores@ =~= scores_of(population@.subrange(0, i as int + 1)));
                }
                archive.add(offered, fitness);
                i = i + 1;
            }
            proof {
                assert(population@.subrange(0, i as int) =~= population@);
                lemma_rounds_push(archive.capacity(), initial, rounds, round);
                lemma_evolution_extend(pops, rounds, population@, round, self.population_size as nat, done as nat);
            }
            let ghost mid = observers@;
            let ghost shown_before = seq![first] + pops;
            notify_iteration(observers, generation, population.as_slice());
            proof {
                assert forall|k: int| 0 <= k < before.len() implies #[trigger] observers@[k].notices()
                    == before[k].notices() + opening(generation as nat) by {
                    assert(mid[k].notices() == before[k].notices() + opening(done as nat));
                    assert(before[k].notices() + opening(generation as nat) =~= (before[k].notices()
                        + opening(done as nat)).push(Notice::Iteration(generation)));
                }
            }
            let ghost old_pops = pops;
            proof {
                assert(seq![first] + pops.push(population@) =~= (seq![first] + pops).push(population@));
                assert forall|k: int| 0 <= k < before.len() implies #[trigger] observers@[k].shown()
                    == before[k].shown() + (seq![first] + pops.push(population@)) by {
                    assert(mid[k].shown() == before[k].shown() + shown_before);
                    assert((before[k].shown() + shown_before).push(population@) =~= before[k].shown()
                        + (seq![first] + pops.push(population@)));
                }
                pops = pops.push(population@);
                rounds = rounds.push(round);
            }
            proof {
                assert(fitness_scores@ == scores_of(population@));
                assert(pops.last() == population@);
                crate::selection::lemma_bounded_weights_sum(
                    fitness_weights(fitness_scores@),
                    u128::MAX as int,
                );
            }
            match self.selection(&population, &fitness_scores, rng) {
                None => {
                    let ghost mid2 = observers@;
                    notify_finish(observers);
                    proof {
                        assert forall|k: int| 0 <= k < before.len() implies #[trigger] observers@[k].notices()
                            == before[k].notices() + full_run(generation as nat) by {
                            assert(before[k].notices() + full_run(generation as nat) =~= (
                            before[k].notices() + opening(generation as nat)).push(Notice::Finish));
                        }
                        assert forall|g: int| 0 <= g < pops.len() - 1 implies weight_sum(
                            fitness_weights(scores_of(#[trigger] pops[g])),
                        ) > 0 by {
                            assert(pops[g] == old_pops[g]);
                        }
                        assert(archive.entries() == fold_rounds(
                            old(archive).capacity(),
                            old(archive).entries(),
                            rounds,
                        ));
                        assert(evolution_run(
                            pops,
                            rounds,
                            self.spec_population_size() as nat,
                            generation as nat,
                        ));
                        assert(weight_sum(fitness_weights(scores_of(pops.last()))) == 0);
                        assert(shown_populations(old(observers)@, observers@, seq![first] + pops));
                        assert(generations_evaluated(
                            self.spec_generations(),
                            Err(SearchError::ZeroTotalFitness { generation }),
                        ) == generation as nat);
                    }
                    return Err(SearchError::ZeroTotalFitness { generation });
                },
                Some(mating_pool) => {
                    proof {
                        assert forall|g: int| 0 <= g < pops.len() implies weight_sum(
                            fitness_weights(scores_of(#[trigger] pops[g])),
                        ) > 0 by {
                            if g < old_pops.len() {
                                assert(pops[g] == old_pops[g]);
                            }
                        }
                    }
                    population = self.crossover_and_mutate(mating_pool, rng);
                },
            }
            done = generation;
        }
        let ghost mid = observers@;
        notify_finish(observers);
        proof {
            assert forall|k: int| 0 <= k < before.len() implies #[trigger] observers@[k].notices()
                == before[k].notices() + run_notices(self.generations as nat, Ok(())) by {
                assert(before[k].notices() + full_run(done as nat) =~= (before[k].notices()
                    + opening(done as nat)).push(Notice::Finish));
            }
            assert(archive.entries() == fold_rounds(old(archive).capacity(), old(archive).entries(), rounds));
            assert(evolution_run(
                pops,
                rounds,
                self.spec_population_size() as nat,
                generations_evaluated(self.spec_generations(), Ok(())),
            ));
            assert(shown_populations(old(observers)@, observers@, seq![first] + pops));
        }
        Ok(())
    }
}

} // verus!
