//! Particle swarm optimisation: particles move through an integer lattice,
//! pulled towards their own best position and the swarm's best.

use crate::archive::{archive_fold, fold_rounds, lemma_fold_push, Archive};
use crate::errors::{ConfigError, SearchError};
use crate::individual::Individual;
use crate::observer::{shown_populations, full_run, notify_finish, notify_iteration, notify_start, opening, Notice, Observer};
use crate::optimizer::{run_notices, Optimizer};
use crate::random::{Random, SCALE};
use vstd::prelude::*;

verus! {

/// Fixed-point unit of a coordinate: `POSITION_UNIT` stands for 1.0.
pub const POSITION_UNIT: i64 = 1000;

/// Coordinates are held within `[-POSITION_LIMIT, POSITION_LIMIT]`.
pub const POSITION_LIMIT: i64 = 1_000_000_000_000;

/// Velocities are held within `[-VELOCITY_LIMIT, VELOCITY_LIMIT]`.
pub const VELOCITY_LIMIT: i64 = 1_000_000_000_000;

/// The largest inertia weight or coefficient, in parts per `SCALE` (100.0).
pub const MAX_COEFFICIENT: u64 = 100_000_000;

/// `v` held within `[-limit, limit]`.
pub open spec fn clamp(v: int, limit: int) -> int {
    if v > limit {
        limit
    } else if v < -limit {
        -limit
    } else {
        v
    }
}

/// Division rounding towards zero.
pub open spec fn trunc_div(a: int, d: int) -> int {
    if a >= 0 {
        a / d
    } else {
        -((-a) / d)
    }
}

/// The velocity update of one coordinate, with `r1` and `r2` the uniform
/// draws in parts per `SCALE`:
/// `w * v + c1 * r1 * (pb - x) + c2 * r2 * (gb - x)`, rounded towards zero
/// and held within the velocity limit.
pub open spec fn next_velocity(
    v: i64,
    x: i64,
    pb: i64,
    gb: i64,
    w: u64,
    c1: u64,
    c2: u64,
    r1: u64,
    r2: u64,
) -> int {
    clamp(
        trunc_div(
            w * v * SCALE + c1 * r1 * (pb - x) + c2 * r2 * (gb - x),
            SCALE * SCALE,
        ),
        VELOCITY_LIMIT as int,
    )
}

/// Coordinate `d` of `after` is that of `before` moved by the update rule,
/// under coefficients `c` (inertia, cognitive, social), for some pair of
/// draws in `[0, SCALE)`.
pub open spec fn moved_by_rule(
    before: ParticleIndividual,
    after: ParticleIndividual,
    global_best: Seq<i64>,
    c: (u64, u64, u64),
    d: int,
) -> bool {
    exists|r1: u64, r2: u64|
        r1 < SCALE && r2 < SCALE && after.velocity@[d] == next_velocity(
            before.velocity@[d],
            before.position@[d],
            before.personal_best_position@[d],
            global_best[d],
            c.0,
            c.1,
            c.2,
            r1,
            r2,
        ) && after.position@[d] == clamp(before.position@[d] + after.velocity@[d], POSITION_LIMIT as int)
}

/// Every coordinate of `after` is that of `before` moved by the update rule
/// towards the swarm's best `global_best`.
pub open spec fn moved_by_swarm(
    before: ParticleIndividual,
    after: ParticleIndividual,
    global_best: Seq<i64>,
    c: (u64, u64, u64),
    dims: nat,
) -> bool {
    forall|d: int| 0 <= d < dims ==> #[trigger] moved_by_rule(before, after, global_best, c, d)
}

/// The swarm's best position after starting at `position` (with best score
/// `best`) and meeting the particles of `s` in turn: the position of each
/// particle whose personal best beats the best so far.
pub open spec fn best_position_after(position: Seq<i64>, best: u64, s: Seq<ParticleIndividual>) -> Seq<i64>
    decreases s.len(),
{
    if s.len() == 0 {
        position
    } else {
        let p = s.drop_last();
        if s.last().personal_best_score < running_best(best, p) {
            s.last().position@
        } else {
            best_position_after(position, best, p)
        }
    }
}

/// `after` was evaluated at its position by `f`: its personal best is the
/// better of the one `before` had and that fitness, and a strictly better
/// fitness made its position the personal best position.
pub open spec fn evaluated_at<F: Fn(&Vec<i64>) -> u64>(
    f: F,
    before: ParticleIndividual,
    after: ParticleIndividual,
) -> bool {
    &&& exists|v: u64|
        #[trigger] f.ensures((&after.position,), v) && after.personal_best_score == vstd::math::min(
            before.personal_best_score as int,
            v as int,
        )
    &&& after.personal_best_score < before.personal_best_score ==> after.personal_best_position@
        == after.position@
    &&& after.personal_best_score == before.personal_best_score ==> after.personal_best_position
        == before.personal_best_position
}

/// The swarm's best score after starting at `best` and meeting the personal
/// bests of `s` in turn.
pub open spec fn running_best(best: u64, s: Seq<ParticleIndividual>) -> u64
    decreases s.len(),
{
    if s.len() == 0 {
        best
    } else {
        let b = running_best(best, s.drop_last());
        if s.last().personal_best_score < b {
            s.last().personal_best_score
        } else {
            b
        }
    }
}

/// `added` offers each particle of `s` in turn, with its personal best score.
pub open spec fn offered_swarm(added: Seq<(ParticleIndividual, u64)>, s: Seq<ParticleIndividual>) -> bool {
    &&& added.len() == s.len()
    &&& forall|j: int|
        0 <= j < added.len() ==> #[trigger] added[j].1 == s[j].personal_best_score && cloned(
            s[j],
            added[j].0,
        )
}

/// The swarm's best is at most its start and every personal best met.
pub proof fn lemma_running_best_bound(best: u64, s: Seq<ParticleIndividual>)
    ensures
        running_best(best, s) <= best,
        forall|j: int| 0 <= j < s.len() ==> running_best(best, s) <= (#[trigger] s[j]).personal_best_score,
    decreases s.len(),
{
    if s.len() > 0 {
        let p = s.drop_last();
        lemma_running_best_bound(best, p);
        assert forall|j: int| 0 <= j < s.len() implies running_best(best, s) <= (
        #[trigger] s[j]).personal_best_score by {
            if j < s.len() - 1 {
                assert(s[j] == p[j]);
            }
        }
    }
}

/// One iteration of the swarm took it from `prev` to `cur`: each particle
/// moved by the update rule towards the swarm's best position as it stood
/// when its turn came, and was evaluated there; the swarm's best score and
/// position after it are the running ones.
pub open spec fn round_follows<F: Fn(&Vec<i64>) -> u64>(
    f: F,
    c: (u64, u64, u64),
    dims: nat,
    prev: Seq<ParticleIndividual>,
    prev_position: Seq<i64>,
    prev_best: u64,
    cur: Seq<ParticleIndividual>,
    cur_position: Seq<i64>,
    cur_best: u64,
) -> bool {
    &&& prev.len() == cur.len()
    &&& forall|k: int|
        0 <= k < cur.len() ==> #[trigger] moved_by_swarm(
            prev[k],
            cur[k],
            best_position_after(prev_position, prev_best, cur.subrange(0, k)),
            c,
            dims,
        ) && evaluated_at(f, prev[k], cur[k])
    &&& cur_best == running_best(prev_best, cur)
    &&& cur_position == best_position_after(prev_position, prev_best, cur)
}

/// The record of a run: `states[t]` is the swarm after round `t` (round 0
/// being the evaluation of the starting swarm), `positions[t]` and
/// `bests[t]` the swarm's best position and score then, and `rounds[t]` the
/// additions it gave the archive. Every later round follows the one before.
pub open spec fn swarm_record<F: Fn(&Vec<i64>) -> u64>(
    f: F,
    c: (u64, u64, u64),
    dims: nat,
    rounds: Seq<Seq<(ParticleIndividual, u64)>>,
    bests: Seq<u64>,
    states: Seq<Seq<ParticleIndividual>>,
    positions: Seq<Seq<i64>>,
) -> bool {
    &&& states.len() == rounds.len()
    &&& positions.len() == rounds.len()
    &&& states.len() > 0
    &&& bests[0] == running_best(u64::MAX, states[0])
    &&& forall|t: int| 0 <= t < states.len() ==> offered_swarm(rounds[t], #[trigger] states[t])
    &&& forall|t: int|
        1 <= t < states.len() ==> round_follows(
            f,
            c,
            dims,
            states[t - 1],
            positions[t - 1],
            bests[t - 1],
            #[trigger] states[t],
            positions[t],
            bests[t],
        )
}

/// `count` rounds of `size` offers each, with `bests` the swarm's best after
/// each round: no particle's score gets worse from one round to the next,
/// nor does the swarm's best, which is at most every score of its round.
pub open spec fn swarm_run(
    rounds: Seq<Seq<(ParticleIndividual, u64)>>,
    bests: Seq<u64>,
    size: nat,
    count: nat,
) -> bool {
    &&& rounds.len() == count
    &&& bests.len() == count
    &&& forall|t: int| 0 <= t < count ==> (#[trigger] rounds[t]).len() == size
    &&& forall|t: int, i: int|
        1 <= t < count && 0 <= i < size ==> #[trigger] rounds[t][i].1 <= rounds[t - 1][i].1
    &&& forall|t: int| 1 <= t < count ==> #[trigger] bests[t] <= bests[t - 1]
    &&& forall|t: int, i: int|
        0 <= t < count && 0 <= i < size ==> bests[t] <= #[trigger] rounds[t][i].1
}

/// Every coordinate of `s` lies within the position limit.
pub open spec fn within_limits(s: Seq<i64>) -> bool {
    forall|d: int| 0 <= d < s.len() ==> -POSITION_LIMIT <= #[trigger] s[d] <= POSITION_LIMIT
}

proof fn lemma_term_bound(c: int, r: int, diff: int)
    requires
        0 <= c <= MAX_COEFFICIENT,
        0 <= r < SCALE,
        -2 * POSITION_LIMIT <= diff <= 2 * POSITION_LIMIT,
    ensures
        0 <= c * r <= 100_000_000_000_000,
        -200_000_000_000_000_000_000_000_000 <= c * r * diff <= 200_000_000_000_000_000_000_000_000,
{
    assert(0 <= c * r <= 100_000_000_000_000) by (nonlinear_arith)
        requires
            0 <= c <= MAX_COEFFICIENT,
            0 <= r < SCALE,
    ;
    assert(-200_000_000_000_000_000_000_000_000 <= (c * r) * diff <= 200_000_000_000_000_000_000_000_000)
        by (nonlinear_arith)
        requires
            0 <= c * r <= 100_000_000_000_000,
            -2 * POSITION_LIMIT <= diff <= 2 * POSITION_LIMIT,
    ;
    assert(c * r * diff == (c * r) * diff) by (nonlinear_arith);
}

/// The velocity update of one coordinate.
pub fn velocity_step(
    v: i64,
    x: i64,
    pb: i64,
    gb: i64,
    w: u64,
    c1: u64,
    c2: u64,
    r1: u64,
    r2: u64,
) -> (r: i64)
    requires
        -VELOCITY_LIMIT <= v <= VELOCITY_LIMIT,
        -POSITION_LIMIT <= x <= POSITION_LIMIT,
        -POSITION_LIMIT <= pb <= POSITION_LIMIT,
        -POSITION_LIMIT <= gb <= POSITION_LIMIT,
        w <= MAX_COEFFICIENT,
        c1 <= MAX_COEFFICIENT,
        c2 <= MAX_COEFFICIENT,
        r1 < SCALE,
        r2 < SCALE,
    ensures
        r == next_velocity(v, x, pb, gb, w, c1, c2, r1, r2),
        -VELOCITY_LIMIT <= r <= VELOCITY_LIMIT,
{
    proof {
        assert(-100_000_000_000_000_000_000_000_000 <= w * v * SCALE <= 100_000_000_000_000_000_000_000_000)
            by (nonlinear_arith)
            requires
                0 <= w <= MAX_COEFFICIENT,
                -VELOCITY_LIMIT <= v <= VELOCITY_LIMIT,
        ;
        lemma_term_bound(c1 as int, r1 as int, pb - x);
        lemma_term_bound(c2 as int, r2 as int, gb - x);
    }
    let inertia: i128 = w as i128 * v as i128 * SCALE as i128;
    let cognitive: i128 = c1 as i128 * r1 as i128 * (pb as i128 - x as i128);
    let social: i128 = c2 as i128 * r2 as i128 * (gb as i128 - x as i128);
    let total: i128 = inertia + cognitive + social;
    let divisor: u128 = 1_000_000_000_000;
    assert(divisor == SCALE * SCALE);
    let quotient: i128 = if total >= 0 {
        (total as u128 / divisor) as i128
    } else {
        -(((-total) as u128 / divisor) as i128)
    };
    if quotient > VELOCITY_LIMIT as i128 {
        VELOCITY_LIMIT
    } else if quotient < -VELOCITY_LIMIT as i128 {
        -VELOCITY_LIMIT
    } else {
        quotient as i64
    }
}

/// A particle: its position and velocity, and the best position it has
/// visited with that position's fitness.
#[derive(Clone, Debug)]
pub struct ParticleIndividual {
    pub position: Vec<i64>,
    pub velocity: Vec<i64>,
    pub personal_best_position: Vec<i64>,
    pub personal_best_score: u64,
}

/// A particle of `dims` coordinates within the limits.
pub open spec fn particle_ok(p: ParticleIndividual, dims: nat) -> bool {
    &&& p.position@.len() == dims
    &&& p.velocity@.len() == dims
    &&& p.personal_best_position@.len() == dims
    &&& within_limits(p.position@)
    &&& within_limits(p.personal_best_position@)
    &&& forall|d: int|
        0 <= d < dims ==> -VELOCITY_LIMIT <= #[trigger] p.velocity@[d] <= VELOCITY_LIMIT
}

/// A copy of a vector of coordinates.
fn copy_coordinates(v: &Vec<i64>) -> (r: Vec<i64>)
    ensures
        r@ == v@,
{
    let c = v.clone();
    proof {
        assert forall|k: int| 0 <= k < c@.len() implies c@[k] == v@[k] by {
            assert(cloned(v@[k], c@[k]));
        }
        assert(c@ =~= v@);
    }
    c
}

impl ParticleIndividual {
    /// A particle at a uniform position in `[-10.0, 10.0)` per coordinate,
    /// with a uniform velocity in `[-1.0, 1.0)`, whose best position is its
    /// start and whose best fitness is the worst possible.
    pub fn new(dimensions: usize, rng: &mut Random) -> (r: ParticleIndividual)
        ensures
            particle_ok(r, dimensions as nat),
            r.personal_best_position@ == r.position@,
            r.personal_best_score == u64::MAX,
            forall|d: int|
                0 <= d < dimensions ==> -10 * POSITION_UNIT <= #[trigger] r.position@[d] < 10
                    * POSITION_UNIT,
            forall|d: int|
                0 <= d < dimensions ==> -POSITION_UNIT <= #[trigger] r.velocity@[d] < POSITION_UNIT,
    {
        let mut position: Vec<i64> = Vec::new();
        let mut velocity: Vec<i64> = Vec::new();
        let mut d: usize = 0;
        while d < dimensions
            invariant
                d <= dimensions,
                position@.len() == d,
                velocity@.len() == d,
                within_limits(position@),
                forall|k: int| 0 <= k < d ==> -VELOCITY_LIMIT <= #[trigger] velocity@[k] <= VELOCITY_LIMIT,
                forall|k: int|
                    0 <= k < d ==> -10 * POSITION_UNIT <= #[trigger] position@[k] < 10 * POSITION_UNIT,
                forall|k: int| 0 <= k < d ==> -POSITION_UNIT <= #[trigger] velocity@[k] < POSITION_UNIT,
            decreases dimensions - d,
        {
            position.push(rng.between(-10 * POSITION_UNIT, 10 * POSITION_UNIT));
            velocity.push(rng.between(-POSITION_UNIT, POSITION_UNIT));
            d = d + 1;
        }
        let personal_best_position = copy_coordinates(&position);
        ParticleIndividual { position, velocity, personal_best_position, personal_best_score: u64::MAX }
    }

    /// Takes `fitness` as the fitness of the current position: when it is
    /// strictly better than the personal best, the current position becomes
    /// the personal best.
    pub fn record_fitness(&mut self, fitness: u64)
        ensures
            final(self).position == old(self).position,
            final(self).velocity == old(self).velocity,
            final(self).personal_best_score == vstd::math::min(
                old(self).personal_best_score as int,
                fitness as int,
            ),
            fitness < old(self).personal_best_score ==> final(self).personal_best_position@
                == old(self).position@,
            fitness >= old(self).personal_best_score ==> final(self).personal_best_position
                == old(self).personal_best_position,
    {
        if fitness < self.personal_best_score {
            self.personal_best_score = fitness;
            self.personal_best_position = copy_coordinates(&self.position);
        }
    }

    /// Evaluates the current position and records its fitness.
    pub fn update_fitness<F: Fn(&Vec<i64>) -> u64>(&mut self, fitness_function: &F)
        requires
            forall|p: &Vec<i64>| #[trigger] fitness_function.requires((p,)),
        ensures
            final(self).position == old(self).position,
            final(self).velocity == old(self).velocity,
            final(self).personal_best_score <= old(self).personal_best_score,
            exists|f: u64|
                #[trigger] fitness_function.ensures((&old(self).position,), f)
                    && final(self).personal_best_score == vstd::math::min(
                    old(self).personal_best_score as int,
                    f as int,
                ),
            final(self).personal_best_score < old(self).personal_best_score
                ==> final(self).personal_best_position@ == old(self).position@,
            final(self).personal_best_score == old(self).personal_best_score
                ==> final(self).personal_best_position == old(self).personal_best_position,
    {
        let fitness = fitness_function(&self.position);
        self.record_fitness(fitness);
    }
}

impl crate::individual::Default for ParticleIndividual {
    /// A particle in two dimensions.
    fn default(rng: &mut Random) -> (r: Self)
        ensures
            particle_ok(r, 2),
            r.personal_best_score == u64::MAX,
    {
        ParticleIndividual::new(2, rng)
    }
}

impl Individual for ParticleIndividual {
    open spec fn spec_fitness(&self) -> u64 {
        self.personal_best_score
    }

    /// The personal best fitness.
    fn fitness(&self) -> (r: u64)
        ensures
            r == self.personal_best_score,
    {
        self.personal_best_score
    }
}

/// Configuration of a particle swarm: coefficients in parts per `SCALE`,
/// and the fitness function to minimise.
pub struct ParticleSwarm<F: Fn(&Vec<i64>) -> u64> {
    swarm_size: usize,
    dimensions: usize,
    iterations: usize,
    inertia_weight: u64,
    cognitive_coeff: u64,
    social_coeff: u64,
    fitness_function: F,
}

impl<F: Fn(&Vec<i64>) -> u64> ParticleSwarm<F> {
    pub closed spec fn wf(&self) -> bool {
        &&& self.inertia_weight <= MAX_COEFFICIENT
        &&& self.cognitive_coeff <= MAX_COEFFICIENT
        &&& self.social_coeff <= MAX_COEFFICIENT
        &&& forall|p: &Vec<i64>| #[trigger] self.fitness_function.requires((p,))
    }

    #[verifier::type_invariant]
    spec fn accepted(&self) -> bool {
        self.wf()
    }

    pub closed spec fn spec_dimensions(&self) -> usize {
        self.dimensions
    }

    pub closed spec fn spec_swarm_size(&self) -> usize {
        self.swarm_size
    }

    pub closed spec fn spec_iterations(&self) -> usize {
        self.iterations
    }

    pub closed spec fn spec_coefficients(&self) -> (u64, u64, u64) {
        (self.inertia_weight, self.cognitive_coeff, self.social_coeff)
    }

    pub closed spec fn spec_fitness_function(&self) -> F {
        self.fitness_function
    }

    /// A configuration; the inertia weight and both coefficients must be at
    /// most `MAX_COEFFICIENT`, and the fitness function defined everywhere.
    pub fn new(
        swarm_size: usize,
        dimensions: usize,
        iterations: usize,
        inertia_weight: u64,
        cognitive_coeff: u64,
        social_coeff: u64,
        fitness_function: F,
    ) -> (r: Result<ParticleSwarm<F>, ConfigError>)
        requires
            forall|p: &Vec<i64>| #[trigger] fitness_function.requires((p,)),
        ensures
            match r {
                Ok(pso) => {
                    &&& inertia_weight <= MAX_COEFFICIENT
                    &&& cognitive_coeff <= MAX_COEFFICIENT
                    &&& social_coeff <= MAX_COEFFICIENT
                    &&& pso.wf()
                    &&& pso.spec_dimensions() == dimensions
                    &&& pso.spec_swarm_size() == swarm_size
                    &&& pso.spec_iterations() == iterations
                    &&& pso.spec_coefficients() == (inertia_weight, cognitive_coeff, social_coeff)
                    &&& pso.spec_fitness_function() == fitness_function
                },
                Err(e) => {
                    &&& e == ConfigError::CoefficientTooLarge
                    &&& (inertia_weight > MAX_COEFFICIENT || cognitive_coeff > MAX_COEFFICIENT
                        || social_coeff > MAX_COEFFICIENT)
                },
            },
    {
        if inertia_weight > MAX_COEFFICIENT || cognitive_coeff > MAX_COEFFICIENT || social_coeff
            > MAX_COEFFICIENT {
            return Err(ConfigError::CoefficientTooLarge);
        }
        Ok(
            ParticleSwarm {
                swarm_size,
                dimensions,
                iterations,
                inertia_weight,
                cognitive_coeff,
                social_coeff,
                fitness_function,
            },
        )
    }

    /// Moves one particle: per coordinate, two fresh uniform draws set the
    /// velocity by the update rule, and the position moves by it, held within
    /// the position limit. The personal best is left alone.
    pub fn move_particle(&self, particle: &mut ParticleIndividual, global_best_position: &Vec<i64>, rng: &mut Random)
        requires
            particle_ok(*old(particle), self.spec_dimensions() as nat),
            global_best_position@.len() == self.spec_dimensions(),
            within_limits(global_best_position@),
        ensures
            particle_ok(*final(particle), self.spec_dimensions() as nat),
            final(particle).personal_best_position == old(particle).personal_best_position,
            final(particle).personal_best_score == old(particle).personal_best_score,
            forall|d: int|
                0 <= d < self.spec_dimensions() ==> #[trigger] moved_by_rule(
                    *old(particle),
                    *final(particle),
                    global_best_position@,
                    self.spec_coefficients(),
                    d,
                ),
    {
        proof {
            use_type_invariant(self);
        }
        let ghost start = *particle;
        let mut d: usize = 0;
        while d < self.dimensions
            invariant
                self.wf(),
                d <= self.dimensions,
                global_best_position@.len() == self.dimensions,
                within_limits(global_best_position@),
                particle_ok(*particle, self.dimensions as nat),
                particle.personal_best_position == start.personal_best_position,
                particle.personal_best_score == start.personal_best_score,
                particle_ok(start, self.dimensions as nat),
                forall|e: int|
                    0 <= e < d ==> #[trigger] moved_by_rule(
                        start,
                        *particle,
                        global_best_position@,
                        self.spec_coefficients(),
                        e,
                    ),
                forall|e: int|
                    d <= e < self.dimensions ==> #[trigger] particle.velocity@[e]
                        == start.velocity@[e],
                forall|e: int|
                    d <= e < self.dimensions ==> #[trigger] particle.position@[e]
                        == start.position@[e],
            decreases self.dimensions - d,
        {
            let ghost previous = *particle;
            let r1 = rng.below(SCALE);
            let r2 = rng.below(SCALE);
            let v = velocity_step(
                particle.velocity[d],
                particle.position[d],
                particle.personal_best_position[d],
                global_best_position[d],
                self.inertia_weight,
                self.cognitive_coeff,
                self.social_coeff,
                r1,
                r2,
            );
            let moved: i64 = clamp_position(particle.position[d] as i128 + v as i128);
            particle.velocity.set(d, v);
            particle.position.set(d, moved);
            proof {
                let c = self.spec_coefficients();
                assert forall|e: int| 0 <= e < d + 1 implies #[trigger] moved_by_rule(
                    start,
                    *particle,
                    global_best_position@,
                    c,
                    e,
                ) by {
                    if e < d {
                        assert(moved_by_rule(start, previous, global_best_position@, c, e));
                        let (a, b) = choose|a: u64, b: u64|
                            a < SCALE && b < SCALE && previous.velocity@[e] == next_velocity(
                                start.velocity@[e],
                                start.position@[e],
                                start.personal_best_position@[e],
                                global_best_position@[e],
                                c.0,
                                c.1,
                                c.2,
                                a,
                                b,
                            ) && previous.position@[e] == clamp(
                                start.position@[e] + previous.velocity@[e],
                                POSITION_LIMIT as int,
                            );
                        assert(particle.velocity@[e] == previous.velocity@[e]);
                        assert(particle.position@[e] == previous.position@[e]);
                    } else {
                        assert(particle.velocity@[e] == v);
                        assert(particle.position@[e] == moved);
                        assert(previous.velocity@[e] == start.velocity@[e]);
                        assert(previous.position@[e] == start.position@[e]);
                        assert(r1 < SCALE && r2 < SCALE && particle.velocity@[e] == next_velocity(
                            start.velocity@[e],
                            start.position@[e],
                            start.personal_best_position@[e],
                            global_best_position@[e],
                            c.0,
                            c.1,
                            c.2,
                            r1,
                            r2,
                        ) && particle.position@[e] == clamp(
                            start.position@[e] + particle.velocity@[e],
                            POSITION_LIMIT as int,
                        ));
                    }
                }
            }
            d = d + 1;
        }
    }

    /// One iteration over the swarm: each particle moves, is evaluated, and
    /// is offered to the archive; the swarm's best is updated whenever a
    /// particle's best beats it. Every personal best and the swarm's best only
    /// ever improve, and the swarm's best stays at most every personal best.
    pub fn iterate<A: Archive<Solution = ParticleIndividual>>(
        &self,
        particles: &mut Vec<ParticleIndividual>,
        global_best_position: &mut Vec<i64>,
        global_best_score: &mut u64,
        archive: &mut A,
        rng: &mut Random,
    )
        requires
            forall|k: int|
                0 <= k < old(particles)@.len() ==> particle_ok(
                    #[trigger] old(particles)@[k],
                    self.spec_dimensions() as nat,
                ),
            old(global_best_position)@.len() == self.spec_dimensions(),
            within_limits(old(global_best_position)@),
            old(archive).wf(),
        ensures
            final(particles)@.len() == old(particles)@.len(),
            forall|k: int|
                0 <= k < old(particles)@.len() ==> particle_ok(
                    #[trigger] final(particles)@[k],
                    self.spec_dimensions() as nat,
                ),
            forall|k: int|
                0 <= k < old(particles)@.len() ==> (#[trigger] final(particles)@[k]).personal_best_score
                    <= old(particles)@[k].personal_best_score,
            *final(global_best_score) <= *old(global_best_score),
            (forall|k: int|
                0 <= k < old(particles)@.len() ==> *old(global_best_score) <= (
                #[trigger] old(particles)@[k]).personal_best_score) ==> forall|k: int|
                0 <= k < old(particles)@.len() ==> *final(global_best_score) <= (
                #[trigger] final(particles)@[k]).personal_best_score,
            final(global_best_position)@.len() == self.spec_dimensions(),
            within_limits(final(global_best_position)@),
            final(archive).wf(),
            final(archive).capacity() == old(archive).capacity(),
            forall|k: int|
                0 <= k < old(particles)@.len() ==> #[trigger] moved_by_swarm(
                    old(particles)@[k],
                    final(particles)@[k],
                    best_position_after(
                        old(global_best_position)@,
                        *old(global_best_score),
                        final(particles)@.subrange(0, k),
                    ),
                    self.spec_coefficients(),
                    self.spec_dimensions() as nat,
                ),
            final(global_best_position)@ == best_position_after(
                old(global_best_position)@,
                *old(global_best_score),
                final(particles)@,
            ),
            forall|k: int|
                0 <= k < old(particles)@.len() ==> #[trigger] evaluated_at(
                    self.spec_fitness_function(),
                    old(particles)@[k],
                    final(particles)@[k],
                ),
            *final(global_best_score) == running_best(*old(global_best_score), final(particles)@),
            exists|added: Seq<(ParticleIndividual, u64)>|
                #![trigger archive_fold(old(archive).capacity(), old(archive).entries(), added)]
                offered_swarm(added, final(particles)@) && final(archive).entries() == archive_fold(
                    old(archive).capacity(),
                    old(archive).entries(),
                    added,
                ),
    {
        proof {
            use_type_invariant(self);
        }
        let ghost start = particles@;
        let ghost start_best = *global_best_score;
        let ghost start_position = global_best_position@;
        let ghost initial = archive.entries();
        let ghost mut added: Seq<(ParticleIndividual, u64)> = Seq::empty();
        let mut k: usize = 0;
        while k < particles.len()
            invariant
                self.wf(),
                particles@.len() == start.len(),
                k <= start.len(),
                forall|j: int|
                    0 <= j < start.len() ==> particle_ok(#[trigger] particles@[j], self.dimensions as nat),
                forall|j: int|
                    0 <= j < start.len() ==> (#[trigger] particles@[j]).personal_best_score
                        <= start[j].personal_best_score,
                forall|j: int| k <= j < start.len() ==> #[trigger] particles@[j] == start[j],
                *global_best_score <= start_best,
                (forall|j: int|
                    0 <= j < start.len() ==> start_best <= (#[trigger] start[j]).personal_best_score)
                    ==> forall|j: int|
                    0 <= j < k ==> *global_best_score <= (#[trigger] particles@[j]).personal_best_score,
                global_best_position@.len() == self.dimensions,
                within_limits(global_best_position@),
                archive.wf(),
                archive.capacity() == old(archive).capacity(),
                initial == old(archive).entries(),
                start == old(particles)@,
                start_best == *old(global_best_score),
                forall|j: int|
                    0 <= j < k ==> #[trigger] moved_by_swarm(
                        start[j],
                        particles@[j],
                        best_position_after(start_position, start_best, particles@.subrange(0, j)),
                        self.spec_coefficients(),
                        self.dimensions as nat,
                    ),
                start_position == old(global_best_position)@,
                global_best_position@ == best_position_after(
                    start_position,
                    start_best,
                    particles@.subrange(0, k as int),
                ),
                forall|j: int|
                    0 <= j < k ==> #[trigger] evaluated_at(self.fitness_function, start[j], particles@[j]),
                *global_best_score == running_best(start_best, particles@.subrange(0, k as int)),
                offered_swarm(added, particles@.subrange(0, k as int)),
                archive.entries() == archive_fold(archive.capacity(), initial, added),
            decreases start.len() - k,
        {
            let ghost g = global_best_position@;
            let ghost before_k = particles@;
            self.move_particle(&mut particles[k], global_best_position, rng);
            let ghost moved = particles@[k as int];
            particles[k].update_fitness(&self.fitness_function);
            let fitness = particles[k].fitness();
            proof {
                let p = particles@[k as int];
                assert forall|d: int| 0 <= d < self.dimensions implies #[trigger] moved_by_rule(
                    start[k as int],
                    p,
                    g,
                    self.spec_coefficients(),
                    d,
                ) by {
                    assert(moved_by_rule(start[k as int], moved, g, self.spec_coefficients(), d));
                    assert(p.velocity@[d] == moved.velocity@[d]);
                    assert(p.position@[d] == moved.position@[d]);
                }
                assert(moved_by_swarm(start[k as int], p, g, self.spec_coefficients(), self.dimensions as nat));
                assert forall|j: int| 0 <= j <= k implies #[trigger] particles@.subrange(0, j)
                    == before_k.subrange(0, j) by {
                    assert(particles@.subrange(0, j) =~= before_k.subrange(0, j));
                }
                assert forall|j: int| 0 <= j < k implies #[trigger] moved_by_swarm(
                    start[j],
                    particles@[j],
                    best_position_after(start_position, start_best, particles@.subrange(0, j)),
                    self.spec_coefficients(),
                    self.dimensions as nat,
                ) by {
                    assert(particles@.subrange(0, j) == before_k.subrange(0, j));
                    assert(particles@[j] == before_k[j]);
                }
                assert(particles@.subrange(0, k as int) == before_k.subrange(0, k as int));
                assert(evaluated_at(self.fitness_function, start[k as int], p));
                assert(particles@.subrange(0, k as int + 1).drop_last() =~= particles@.subrange(0, k as int));
                assert forall|j: int| 0 <= j < k implies particles@[j] == before_k[j] by {}
                assert(particles@.subrange(0, k as int) =~= before_k.subrange(0, k as int));
            }
            if fitness < *global_best_score {
                *global_best_score = fitness;
                *global_best_position = copy_coordinates(&particles[k].position);
            }
            let offered = particles[k].clone();
            proof {
                lemma_fold_push(archive.capacity(), initial, added, (offered, fitness));
                let old_added = added;
                added = added.push((offered, fitness));
                let done = particles@.subrange(0, k as int + 1);
                assert(offered_swarm(old_added, particles@.subrange(0, k as int)));
                assert forall|j: int| 0 <= j < added.len() implies #[trigger] added[j].1
                    == done[j].personal_best_score && cloned(done[j], added[j].0) by {
                    if j < k {
                        assert(added[j] == old_added[j]);
                        assert(done[j] == particles@.subrange(0, k as int)[j]);
                        assert(old_added[j].1 == particles@.subrange(0, k as int)[j].personal_best_score);
                    } else {
                        assert(added[j] == (offered, fitness));
                        assert(done[j] == particles@[k as int]);
                    }
                }
            }
            archive.add(offered, fitness);
            k = k + 1;
        }
        proof {
            assert(particles@.subrange(0, k as int) =~= particles@);
        }
    }
}

/// `v` held within the position limit.
fn clamp_position(v: i128) -> (r: i64)
    ensures
        r == clamp(v as int, POSITION_LIMIT as int),
{
    if v > POSITION_LIMIT as i128 {
        POSITION_LIMIT
    } else if v < -POSITION_LIMIT as i128 {
        -POSITION_LIMIT
    } else {
        v as i64
    }
}

impl<F: Fn(&Vec<i64>) -> u64> Optimizer<ParticleIndividual> for ParticleSwarm<F> {
    open spec fn rounds(&self) -> nat {
        self.spec_iterations() as nat
    }

    /// Creates the swarm, evaluates every particle at its start to set the
    /// swarm's best (offering each to the archive), then runs `iterations`
    /// iterations of `iterate`, notifying the observers with the swarm. The
    /// archive receives `iterations + 1` rounds of one entry per particle,
    /// each with the particle's personal best score; from round to round no
    /// particle's score and not the swarm's best get worse.
    fn optimize<A: Archive<Solution = ParticleIndividual>, O: Observer<ParticleIndividual>>(
        &self,
        archive: &mut A,
        observers: &mut Vec<O>,
        rng: &mut Random,
    ) -> (r: Result<(), SearchError>)
        ensures
            r is Ok,
            exists|
                rounds: Seq<Seq<(ParticleIndividual, u64)>>,
                bests: Seq<u64>,
                states: Seq<Seq<ParticleIndividual>>,
                positions: Seq<Seq<i64>>,
                snaps: Seq<Seq<ParticleIndividual>>,
            |
                #[trigger] shown_populations(old(observers)@, final(observers)@, snaps)
                    && snaps.len() == states.len() && snaps[0].len() == self.spec_swarm_size()
                    && states[0].len() == snaps[0].len() && (forall|k: int|
                    0 <= k < snaps[0].len() ==> #[trigger] evaluated_at(
                        self.spec_fitness_function(),
                        snaps[0][k],
                        states[0][k],
                    ) && states[0][k].position == snaps[0][k].position)
                    && (forall|t: int| 1 <= t < states.len() ==> #[trigger] snaps[t] == states[t])
                    && #[trigger] swarm_record(
                    self.spec_fitness_function(),
                    self.spec_coefficients(),
                    self.spec_dimensions() as nat,
                    rounds,
                    bests,
                    states,
                    positions,
                ) && swarm_run(
                    rounds,
                    bests,
                    self.spec_swarm_size() as nat,
                    self.spec_iterations() as nat + 1,
                ) && final(archive).entries() == fold_rounds(
                    old(archive).capacity(),
                    old(archive).entries(),
                    rounds,
                ),
    {
        proof {
            use_type_invariant(self);
        }
        let ghost initial = archive.entries();
        let ghost mut round: Seq<(ParticleIndividual, u64)> = Seq::empty();
        let ghost before = observers@;
        let mut particles: Vec<ParticleIndividual> = Vec::new();
        let mut k: usize = 0;
        while k < self.swarm_size
            invariant
                k <= self.swarm_size,
                particles@.len() == k,
                forall|j: int|
                    0 <= j < k ==> particle_ok(#[trigger] particles@[j], self.dimensions as nat),
            decreases self.swarm_size - k,
        {
            particles.push(ParticleIndividual::new(self.dimensions, rng));
            k = k + 1;
        }
        let mut global_best_position: Vec<i64> = Vec::new();
        let mut d: usize = 0;
        while d < self.dimensions
            invariant
                d <= self.dimensions,
                global_best_position@.len() == d,
                within_limits(global_best_position@),
            decreases self.dimensions - d,
        {
            global_best_position.push(0);
            d = d + 1;
        }
        let mut global_best_score: u64 = u64::MAX;
        let ghost mut snaps: Seq<Seq<ParticleIndividual>> = seq![particles@];
        let ghost fresh = particles@;
        notify_start(observers, particles.as_slice());
        proof {
            assert forall|k: int| 0 <= k < before.len() implies #[trigger] observers@[k].shown()
                == before[k].shown() + snaps by {
                assert(before[k].shown().push(particles@) =~= before[k].shown() + snaps);
            }
        }
        let mut k: usize = 0;
        while k < particles.len()
            invariant
                self.wf(),
                k <= particles@.len(),
                particles@.len() == self.swarm_size,
                forall|j: int|
                    0 <= j < particles@.len() ==> particle_ok(
                        #[trigger] particles@[j],
                        self.dimensions as nat,
                    ),
                global_best_position@.len() == self.dimensions,
                within_limits(global_best_position@),
                archive.wf(),
                archive.capacity() == old(archive).capacity(),
                initial == old(archive).entries(),
                offered_swarm(round, particles@.subrange(0, k as int)),
                global_best_score == running_best(u64::MAX, particles@.subrange(0, k as int)),
                fresh.len() == particles@.len(),
                forall|j: int|
                    0 <= j < k ==> #[trigger] evaluated_at(self.fitness_function, fresh[j], particles@[j])
                        && particles@[j].position == fresh[j].position,
                forall|j: int| k <= j < particles@.len() ==> #[trigger] particles@[j] == fresh[j],
                archive.entries() == archive_fold(archive.capacity(), initial, round),
            decreases particles@.len() - k,
        {
            let ghost before_k = particles@;
            particles[k].update_fitness(&self.fitness_function);
            let fitness = particles[k].fitness();
            proof {
                assert(particles@.subrange(0, k as int + 1).drop_last() =~= particles@.subrange(0, k as int));
                assert forall|j: int| 0 <= j < k implies particles@[j] == before_k[j] by {}
                assert(particles@.subrange(0, k as int) =~= before_k.subrange(0, k as int));
            }
            if fitness < global_best_score {
                global_best_score = fitness;
                global_best_position = copy_coordinates(&particles[k].position);
            }
            let offered = particles[k].clone();
            proof {
                lemma_fold_push(archive.capacity(), initial, round, (offered, fitness));
                round = round.push((offered, fitness));
                let done = particles@.subrange(0, k as int + 1);
                assert forall|j: int| 0 <= j < round.len() implies #[trigger] round[j].1
                    == done[j].personal_best_score && cloned(done[j], round[j].0) by {
                    if j < k {
                        assert(particles@[j] == before_k[j]);
                        assert(done[j] == before_k.subrange(0, k as int)[j]);
                    }
                }
            }
            archive.add(offered, fitness);
            k = k + 1;
        }
        proof {
            assert(particles@.subrange(0, k as int) =~= particles@);
        }
        let ghost mut rounds: Seq<Seq<(ParticleIndividual, u64)>> = seq![round];
        let ghost mut bests: Seq<u64> = seq![global_best_score];
        let ghost mut states: Seq<Seq<ParticleIndividual>> = seq![particles@];
        let ghost mut positions: Seq<Seq<i64>> = seq![global_best_position@];
        proof {
            assert(states[0] == particles@);
            assert(rounds[0] == round);
            assert(swarm_record(
                self.fitness_function,
                self.spec_coefficients(),
                self.dimensions as nat,
                rounds,
                bests,
                states,
                positions,
            ));
            lemma_running_best_bound(u64::MAX, particles@);
            assert(rounds[0] == round);
            assert(rounds.last() == round);
            assert(seq![round].drop_last() =~= Seq::<Seq<(ParticleIndividual, u64)>>::empty());
            assert(rounds.drop_last() =~= Seq::<Seq<(ParticleIndividual, u64)>>::empty());
            assert(fold_rounds(archive.capacity(), initial, rounds.drop_last()) == initial);
            assert(fold_rounds(archive.capacity(), initial, rounds) == archive_fold(
                archive.capacity(),
                initial,
                round,
            ));
        }
        let mut done: usize = 0;
        while done < self.iterations
            invariant
                self.wf(),
                done <= self.iterations,
                forall|j: int|
                    0 <= j < particles@.len() ==> particle_ok(
                        #[trigger] particles@[j],
                        self.dimensions as nat,
                    ),
                global_best_position@.len() == self.dimensions,
                within_limits(global_best_position@),
                archive.wf(),
                archive.capacity() == old(archive).capacity(),
                particles@.len() == self.swarm_size,
                swarm_run(rounds, bests, self.swarm_size as nat, done as nat + 1),
                swarm_record(
                    self.fitness_function,
                    self.spec_coefficients(),
                    self.dimensions as nat,
                    rounds,
                    bests,
                    states,
                    positions,
                ),
                states.len() == done + 1,
                states.last() == particles@,
                snaps.len() == states.len(),
                snaps[0].len() == self.swarm_size,
                snaps[0] == fresh,
                states[0].len() == fresh.len(),
                forall|j: int|
                    0 <= j < fresh.len() ==> #[trigger] evaluated_at(self.fitness_function, fresh[j], states[0][j])
                        && states[0][j].position == fresh[j].position,
                forall|t: int| 1 <= t < states.len() ==> #[trigger] snaps[t] == states[t],
                shown_populations(before, observers@, snaps),
                positions.last() == global_best_position@,
                offered_swarm(rounds.last(), particles@),
                bests.last() == global_best_score,
                archive.entries() == fold_rounds(archive.capacity(), initial, rounds),
                initial == old(archive).entries(),
                before == old(observers)@,
                observers@.len() == before.len(),
                forall|j: int|
                    0 <= j < before.len() ==> #[trigger] observers@[j].notices()
                        == before[j].notices() + opening(done as nat),
            decreases self.iterations - done,
        {
            let iteration = done + 1;
            let ghost held = archive.entries();
            let ghost earlier = particles@;
            let ghost earlier_best = global_best_score;
            let ghost earlier_position = global_best_position@;
            self.iterate(
                &mut particles,
                &mut global_best_position,
                &mut global_best_score,
                archive,
                rng,
            );
            proof {
                let added = choose|added: Seq<(ParticleIndividual, u64)>|
                    #![trigger archive_fold(archive.capacity(), held, added)]
                    offered_swarm(added, particles@) && archive.entries() == archive_fold(
                        archive.capacity(),
                        held,
                        added,
                    );
                let last = rounds.last();
                lemma_running_best_bound(earlier_best, particles@);
                let new_rounds = rounds.push(added);
                let new_bests = bests.push(global_best_score);
                assert(new_rounds.drop_last() =~= rounds);
                assert forall|t: int, i: int|
                    1 <= t < done + 2 && 0 <= i < self.swarm_size implies #[trigger] new_rounds[t][i].1
                    <= new_rounds[t - 1][i].1 by {
                    if t == done + 1 {
                        assert(new_rounds[t] == added);
                        assert(new_rounds[t - 1] == last);
                        assert(particles@[i].personal_best_score <= earlier[i].personal_best_score);
                    } else {
                        assert(new_rounds[t] == rounds[t] && new_rounds[t - 1] == rounds[t - 1]);
                    }
                }
                assert forall|t: int, i: int|
                    0 <= t < done + 2 && 0 <= i < self.swarm_size implies new_bests[t]
                    <= #[trigger] new_rounds[t][i].1 by {
                    if t == done + 1 {
                        assert(new_rounds[t] == added);
                    } else {
                        assert(new_rounds[t] == rounds[t]);
                    }
                }
                assert forall|t: int| 1 <= t < done + 2 implies #[trigger] new_bests[t]
                    <= new_bests[t - 1] by {}
                assert forall|t: int| 0 <= t < done + 2 implies (#[trigger] new_rounds[t]).len()
                    == self.swarm_size by {}
                let new_states = states.push(particles@);
                let new_positions = positions.push(global_best_position@);
                assert(earlier.len() == particles@.len());
                assert(global_best_score == running_best(earlier_best, particles@));
                assert(global_best_position@ == best_position_after(earlier_position, earlier_best, particles@));
                assert forall|k: int| 0 <= k < particles@.len() implies #[trigger] moved_by_swarm(
                    earlier[k],
                    particles@[k],
                    best_position_after(earlier_position, earlier_best, particles@.subrange(0, k)),
                    self.spec_coefficients(),
                    self.dimensions as nat,
                ) && evaluated_at(self.fitness_function, earlier[k], particles@[k]) by {
                    assert(evaluated_at(self.spec_fitness_function(), earlier[k], particles@[k]));
                }
                assert(round_follows(
                    self.fitness_function,
                    self.spec_coefficients(),
                    self.dimensions as nat,
                    earlier,
                    earlier_position,
                    earlier_best,
                    particles@,
                    global_best_position@,
                    global_best_score,
                ));
                assert forall|t: int| 0 <= t < new_states.len() implies offered_swarm(
                    new_rounds[t],
                    #[trigger] new_states[t],
                ) by {
                    if t < states.len() {
                        assert(new_states[t] == states[t] && new_rounds[t] == rounds[t]);
                    } else {
                        assert(new_states[t] == particles@ && new_rounds[t] == added);
                    }
                }
                assert forall|t: int| 1 <= t < new_states.len() implies round_follows(
                    self.fitness_function,
                    self.spec_coefficients(),
                    self.dimensions as nat,
                    new_states[t - 1],
                    new_positions[t - 1],
                    new_bests[t - 1],
                    #[trigger] new_states[t],
                    new_positions[t],
                    new_bests[t],
                ) by {
                    if t < states.len() {
                        assert(new_states[t] == states[t] && new_states[t - 1] == states[t - 1]);
                        assert(new_positions[t] == positions[t] && new_positions[t - 1] == positions[t - 1]);
                        assert(new_bests[t] == bests[t] && new_bests[t - 1] == bests[t - 1]);
                    } else {
                        assert(new_states[t - 1] == states.last());
                        assert(new_positions[t - 1] == positions.last());
                        assert(new_bests[t - 1] == bests.last());
                    }
                }
                assert(new_states[0] == states[0] && new_bests[0] == bests[0]);
                rounds = new_rounds;
                bests = new_bests;
                states = new_states;
                positions = new_positions;
            }
            let ghost mid = observers@;
            let ghost mid_snaps = snaps;
            notify_iteration(observers, iteration, particles.as_slice());
            proof {
                assert(snaps.push(particles@)[0] == snaps[0]);
                snaps = snaps.push(particles@);
                assert forall|k: int| 0 <= k < before.len() implies #[trigger] observers@[k].shown()
                    == before[k].shown() + snaps by {
                    assert(mid[k].shown() == before[k].shown() + mid_snaps);
                    assert((before[k].shown() + mid_snaps).push(particles@) =~= before[k].shown() + snaps);
                }
                assert forall|t: int| 1 <= t < states.len() implies #[trigger] snaps[t] == states[t] by {
                    if t < mid_snaps.len() {
                        assert(snaps[t] == mid_snaps[t]);
                    }
                }
            }
            proof {
                assert forall|j: int| 0 <= j < before.len() implies #[trigger] observers@[j].notices()
                    == before[j].notices() + opening(iteration as nat) by {
                    assert(before[j].notices() + opening(iteration as nat) =~= (before[j].notices()
                        + opening(done as nat)).push(Notice::Iteration(iteration)));
                }
            }
            done = iteration;
        }
        notify_finish(observers);
        proof {
            assert forall|j: int| 0 <= j < before.len() implies #[trigger] observers@[j].notices()
                == before[j].notices() + run_notices(self.iterations as nat, Ok(())) by {
                assert(before[j].notices() + full_run(done as nat) =~= (before[j].notices()
                    + opening(done as nat)).push(Notice::Finish));
            }
            assert(swarm_run(rounds, bests, self.swarm_size as nat, self.iterations as nat + 1));
            assert(archive.entries() == fold_rounds(old(archive).capacity(), old(archive).entries(), rounds));
            assert(swarm_run(
                rounds,
                bests,
                self.spec_swarm_size() as nat,
                self.spec_iterations() as nat + 1,
            ));
            assert(shown_populations(old(observers)@, observers@, snaps));
            assert(swarm_record(
                self.spec_fitness_function(),
                self.spec_coefficients(),
                self.spec_dimensions() as nat,
                rounds,
                bests,
                states,
                positions,
            ));
        }
        Ok(())
    }
}

} // verus!
