//! Ant colony optimisation over a complete graph: ants build Hamiltonian
//! tours guided by pheromone and inverse distance; pheromone evaporates down
//! to a floor and is reinforced along every tour in inverse proportion to its
//! length.

use crate::archive::{archive_fold, lemma_fold_push, lemma_with_entry_members, Archive};
use crate::errors::{ConfigError, SearchError};
use crate::individual::Individual;
use crate::individuals::ones;
use crate::observer::{shown_populations, full_run, notify_finish, notify_iteration, notify_start, opening, Notice, Observer};
use crate::optimizer::{run_notices, Optimizer};
use crate::random::{Random, SCALE};
use crate::selection::{
    lemma_bounded_weights_sum,
    picked_by_draw,
    roulette_draw,
    weight_sum,
};
use vstd::prelude::*;

verus! {

/// Pheromone is fixed-point: `PHEROMONE_UNIT` (2^40) stands for 1.0, the
/// value every edge starts with, so that a deposit of `1 / length` stays
/// positive for every tour a valid matrix allows.
pub const PHEROMONE_UNIT: u64 = 0x100_0000_0000;

/// Evaporation never takes pheromone below 0.1.
pub const PHEROMONE_FLOOR: u64 = 109_951_162_777;

/// The largest distance between two nodes (2^20), so that a tour's length
/// fits in 64 bits.
pub const MAX_DISTANCE: u64 = 0x10_0000;

/// The largest number of nodes.
pub const MAX_NODES: usize = 1_048_576;

/// Fixed-point unit of the edge weights (2^20): ratios and their powers are
/// kept with 20 fractional bits.
pub const FIXED_ONE: u128 = 0x10_0000;

/// A closed tour and its length.
#[derive(Clone, Debug)]
pub struct TourIndividual {
    pub tour: Vec<usize>,
    pub length: u64,
}

impl TourIndividual {
    pub fn new(tour: Vec<usize>, length: u64) -> (r: TourIndividual)
        ensures
            r.tour == tour,
            r.length == length,
    {
        TourIndividual { tour, length }
    }
}

impl Individual for TourIndividual {
    open spec fn spec_fitness(&self) -> u64 {
        self.length
    }

    /// The length of the tour.
    fn fitness(&self) -> (r: u64)
        ensures
            r == self.length,
    {
        self.length
    }
}

/// A symmetric square matrix of `n >= 2` nodes whose distances between
/// distinct nodes lie in `[1, MAX_DISTANCE]`.
pub open spec fn valid_matrix(d: Seq<Vec<u64>>) -> bool {
    &&& 2 <= d.len() <= MAX_NODES
    &&& forall|i: int| 0 <= i < d.len() ==> (#[trigger] d[i])@.len() == d.len()
    &&& forall|i: int, j: int|
        0 <= i < d.len() && 0 <= j < d.len() && i != j ==> 1 <= #[trigger] d[i]@[j] <= MAX_DISTANCE
    &&& forall|i: int, j: int|
        0 <= i < d.len() && 0 <= j < d.len() ==> #[trigger] d[i]@[j] == d[j]@[i]
}

/// An `n` by `n` pheromone matrix none of whose entries lies below the floor.
pub open spec fn pheromone_ok(p: Seq<Vec<u64>>, n: nat) -> bool {
    &&& p.len() == n
    &&& forall|i: int| 0 <= i < n ==> (#[trigger] p[i])@.len() == n
    &&& forall|i: int, j: int|
        0 <= i < n && 0 <= j < n ==> #[trigger] p[i]@[j] >= PHEROMONE_FLOOR
}

/// A closed tour over `n` nodes: `n + 1` entries, each node once and back to
/// the start.
pub open spec fn valid_tour(t: Seq<usize>, n: nat) -> bool {
    &&& t.len() == n + 1
    &&& t[0] == t[n as int]
    &&& forall|i: int| 0 <= i < n ==> #[trigger] t[i] < n
    &&& forall|i: int, j: int| 0 <= i < j < n ==> #[trigger] t[i] != #[trigger] t[j]
}

/// The sum of the distances of the consecutive steps of `t`.
pub open spec fn path_length(d: Seq<Vec<u64>>, t: Seq<usize>) -> int
    decreases t.len(),
{
    if t.len() < 2 {
        0
    } else {
        path_length(d, t.drop_last()) + d[t[t.len() - 2] as int]@[t[t.len() - 1] as int]
    }
}

/// `x` is a valid tour of the matrix `d`, with its true length.
pub open spec fn tour_fits(d: Seq<Vec<u64>>, x: TourIndividual) -> bool {
    valid_tour(x.tour@, d.len()) && x.length == path_length(d, x.tour@)
}

/// An archive entry holding a valid tour of `d`, recorded with its length.
pub open spec fn entry_fits(d: Seq<Vec<u64>>, e: (TourIndividual, u64)) -> bool {
    tour_fits(d, e.0) && e.1 == e.0.length
}

/// `part / whole` in fixed point, rounded down.
pub open spec fn fixed_ratio(part: u64, whole: u64) -> nat {
    (part * FIXED_ONE / (whole as int)) as nat
}

/// `x^e` in fixed point, rounding down after each product.
pub open spec fn fixed_pow(x: nat, e: nat) -> nat
    decreases e,
{
    if e == 0 {
        FIXED_ONE as nat
    } else {
        (fixed_pow(x, (e - 1) as nat) * x / (FIXED_ONE as nat)) as nat
    }
}

/// The weight of an edge to a candidate node, relative to the best of the
/// candidates: `(pheromone / top)^alpha * (nearest / distance)^beta`, where
/// `top` is the most pheromone and `nearest` the shortest distance among the
/// candidates. It is proportional to `pheromone^alpha * (1 / distance)^beta`
/// up to the rounding of the fixed point, and never overflows.
pub open spec fn edge_weight(
    pheromone: u64,
    top: u64,
    distance: u64,
    nearest: u64,
    alpha: u32,
    beta: u32,
) -> nat {
    fixed_pow(fixed_ratio(pheromone, top), alpha as nat) * fixed_pow(
        fixed_ratio(nearest, distance),
        beta as nat,
    )
}

proof fn lemma_fixed_pow_bounded(x: nat, e: nat)
    requires
        x <= FIXED_ONE,
    ensures
        fixed_pow(x, e) <= FIXED_ONE,
    decreases e,
{
    if e > 0 {
        lemma_fixed_pow_bounded(x, (e - 1) as nat);
        let p = fixed_pow(x, (e - 1) as nat);
        assert(p * x <= FIXED_ONE * FIXED_ONE) by (nonlinear_arith)
            requires
                p <= FIXED_ONE,
                x <= FIXED_ONE,
        ;
        assert(p * x / (FIXED_ONE as nat) <= FIXED_ONE) by (nonlinear_arith)
            requires
                p * x <= FIXED_ONE * FIXED_ONE,
        ;
    }
}

/// `x^e` in fixed point.
fn fixed_power(x: u128, e: u32) -> (r: u128)
    requires
        x <= FIXED_ONE,
    ensures
        r == fixed_pow(x as nat, e as nat),
        r <= FIXED_ONE,
{
    let mut acc: u128 = FIXED_ONE;
    let mut k: u32 = 0;
    while k < e
        invariant
            k <= e,
            x <= FIXED_ONE,
            acc == fixed_pow(x as nat, k as nat),
            acc <= FIXED_ONE,
        decreases e - k,
    {
        proof {
            lemma_fixed_pow_bounded(x as nat, k as nat + 1);
            assert(acc * x <= FIXED_ONE * FIXED_ONE) by (nonlinear_arith)
                requires
                    acc <= FIXED_ONE,
                    x <= FIXED_ONE,
            ;
        }
        acc = acc * x / FIXED_ONE;
        k = k + 1;
    }
    acc
}

/// `part / whole` in fixed point.
fn ratio(part: u64, whole: u64) -> (r: u128)
    requires
        part <= whole,
        whole > 0,
    ensures
        r == fixed_ratio(part, whole),
        r <= FIXED_ONE,
{
    assert(part * FIXED_ONE <= whole * FIXED_ONE) by (nonlinear_arith)
        requires
            part <= whole,
    ;
    assert(part * FIXED_ONE / (whole as int) <= FIXED_ONE) by (nonlinear_arith)
        requires
            part * FIXED_ONE <= whole * FIXED_ONE,
            whole > 0,
    ;
    assert(part * FIXED_ONE <= u64::MAX * FIXED_ONE) by (nonlinear_arith)
        requires
            part <= u64::MAX,
    ;
    part as u128 * FIXED_ONE / whole as u128
}

/// The weight of an edge of pheromone `pheromone` and length `distance`,
/// given the most pheromone `top` and the shortest distance `nearest` among
/// the candidates.
pub fn weight_of_edge(
    pheromone: u64,
    top: u64,
    distance: u64,
    nearest: u64,
    alpha: u32,
    beta: u32,
) -> (r: u128)
    requires
        pheromone <= top,
        top > 0,
        nearest <= distance,
        distance > 0,
    ensures
        r == edge_weight(pheromone, top, distance, nearest, alpha, beta),
        r <= FIXED_ONE * FIXED_ONE,
{
    let a = fixed_power(ratio(pheromone, top), alpha);
    let b = fixed_power(ratio(nearest, distance), beta);
    assert(a * b <= FIXED_ONE * FIXED_ONE) by (nonlinear_arith)
        requires
            a <= FIXED_ONE,
            b <= FIXED_ONE,
    ;
    a * b
}

/// `r` is node `i` of `nodes`; when the weights do not all round to zero,
/// it has positive weight and a uniform draw from `[0, total)` landed on it.
pub open spec fn chosen_at(nodes: Seq<usize>, weights: Seq<u128>, i: int, r: usize) -> bool {
    &&& 0 <= i < nodes.len()
    &&& r == nodes[i]
    &&& weight_sum(weights) > 0 ==> weights[i] > 0 && picked_by_draw(weights, i)
}

/// The most pheromone on row `row` among the first `n` nodes not yet
/// visited (0 if none).
pub open spec fn top_unvisited(row: Seq<u64>, visited: Seq<bool>, n: int) -> u64
    decreases n,
{
    if n <= 0 {
        0
    } else {
        let t = top_unvisited(row, visited, n - 1);
        if !visited[n - 1] && row[n - 1] > t {
            row[n - 1]
        } else {
            t
        }
    }
}

/// The shortest distance on row `row` to the first `n` nodes not yet
/// visited (`u64::MAX` if none).
pub open spec fn nearest_unvisited(row: Seq<u64>, visited: Seq<bool>, n: int) -> u64
    decreases n,
{
    if n <= 0 {
        u64::MAX
    } else {
        let t = nearest_unvisited(row, visited, n - 1);
        if !visited[n - 1] && row[n - 1] < t {
            row[n - 1]
        } else {
            t
        }
    }
}

proof fn lemma_extremes(row: Seq<u64>, visited: Seq<bool>, n: int, low: u64)
    requires
        0 <= n <= row.len(),
        n <= visited.len(),
        forall|j: int| 0 <= j < n && !visited[j] ==> #[trigger] row[j] >= low,
    ensures
        forall|j: int| 0 <= j < n && !visited[j] ==> #[trigger] row[j] <= top_unvisited(row, visited, n),
        forall|j: int| 0 <= j < n && !visited[j] ==> nearest_unvisited(row, visited, n) <= #[trigger] row[j],
        (exists|j: int| 0 <= j < n && !visited[j]) ==> top_unvisited(row, visited, n) >= low,
        nearest_unvisited(row, visited, n) >= low,
    decreases n,
{
    if n > 0 {
        lemma_extremes(row, visited, n - 1, low);
        if exists|j: int| 0 <= j < n && !visited[j] {
            let j = choose|j: int| 0 <= j < n && !visited[j];
            if j < n - 1 {
                assert(0 <= j < n - 1 && !visited[j]);
            }
        }
    }
}

proof fn lemma_ones_set(s: Seq<bool>, j: int)
    requires
        0 <= j < s.len(),
        !s[j],
    ensures
        ones(s.update(j, true)) == ones(s) + 1,
    decreases s.len(),
{
    let u = s.update(j, true);
    if j < s.len() - 1 {
        assert(u.drop_last() =~= s.drop_last().update(j, true));
        lemma_ones_set(s.drop_last(), j);
    } else {
        assert(u.drop_last() =~= s.drop_last());
    }
}

proof fn lemma_ones_full(s: Seq<bool>)
    requires
        forall|j: int| 0 <= j < s.len() ==> #[trigger] s[j],
    ensures
        ones(s) == s.len(),
    decreases s.len(),
{
    if s.len() > 0 {
        let p = s.drop_last();
        assert forall|j: int| 0 <= j < p.len() implies #[trigger] p[j] by {
            assert(p[j] == s[j]);
        }
        lemma_ones_full(p);
    }
}

/// Configuration of an ant colony over a distance matrix. The evaporation
/// rate is in parts per `SCALE`; `alpha` and `beta` weigh pheromone against
/// inverse distance.
pub struct AntColony {
    num_ants: usize,
    num_iterations: usize,
    alpha: u32,
    beta: u32,
    evaporation_rate: u64,
    distance_matrix: Vec<Vec<u64>>,
}

impl AntColony {
    pub closed spec fn wf(&self) -> bool {
        valid_matrix(self.distance_matrix@) && self.evaporation_rate <= SCALE
    }

    #[verifier::type_invariant]
    spec fn accepted(&self) -> bool {
        self.wf()
    }

    pub closed spec fn distances(&self) -> Seq<Vec<u64>> {
        self.distance_matrix@
    }

    pub closed spec fn spec_alpha(&self) -> u32 {
        self.alpha
    }

    pub closed spec fn spec_beta(&self) -> u32 {
        self.beta
    }

    pub closed spec fn spec_evaporation_rate(&self) -> u64 {
        self.evaporation_rate
    }

    pub closed spec fn spec_num_ants(&self) -> usize {
        self.num_ants
    }

    pub closed spec fn spec_num_iterations(&self) -> usize {
        self.num_iterations
    }

    /// A configuration. The matrix must be square with 2 to `MAX_NODES`
    /// nodes, its distances between distinct nodes in `[1, MAX_DISTANCE]`
    /// (zero would make the inverse distance infinite); the evaporation rate
    /// at most `SCALE`.
    pub fn new(
        num_ants: usize,
        num_iterations: usize,
        alpha: u32,
        beta: u32,
        evaporation_rate: u64,
        distance_matrix: Vec<Vec<u64>>,
    ) -> (r: Result<AntColony, ConfigError>)
        ensures
            match r {
                Ok(aco) => {
                    &&& aco.wf()
                    &&& valid_matrix(distance_matrix@)
                    &&& evaporation_rate <= SCALE
                    &&& aco.distances() == distance_matrix@
                    &&& aco.spec_alpha() == alpha
                    &&& aco.spec_beta() == beta
                    &&& aco.spec_evaporation_rate() == evaporation_rate
                    &&& aco.spec_num_ants() == num_ants
                    &&& aco.spec_num_iterations() == num_iterations
                },
                Err(e) => {
                    &&& e == ConfigError::RateOutOfRange <==> evaporation_rate > SCALE
                    &&& e == ConfigError::MatrixShape ==> evaporation_rate <= SCALE && !(2
                        <= distance_matrix@.len() <= MAX_NODES && forall|i: int|
                        0 <= i < distance_matrix@.len() ==> (#[trigger] distance_matrix@[i])@.len()
                            == distance_matrix@.len())
                    &&& (e == ConfigError::DistanceOutOfRange || e == ConfigError::AsymmetricMatrix)
                        ==> evaporation_rate <= SCALE && !valid_matrix(distance_matrix@) && (2
                        <= distance_matrix@.len() <= MAX_NODES && forall|i: int|
                        0 <= i < distance_matrix@.len() ==> (#[trigger] distance_matrix@[i])@.len()
                            == distance_matrix@.len())
                    &&& e == ConfigError::RateOutOfRange || e == ConfigError::MatrixShape || e
                        == ConfigError::DistanceOutOfRange || e == ConfigError::AsymmetricMatrix
                },
            },
    {
        if evaporation_rate > SCALE {
            return Err(ConfigError::RateOutOfRange);
        }
        let n = distance_matrix.len();
        if n < 2 || n > MAX_NODES {
            return Err(ConfigError::MatrixShape);
        }
        let mut i: usize = 0;
        while i < n
            invariant
                evaporation_rate <= SCALE,
                n == distance_matrix@.len(),
                2 <= n <= MAX_NODES,
                i <= n,
                forall|a: int| 0 <= a < i ==> (#[trigger] distance_matrix@[a])@.len() == n,
            decreases n - i,
        {
            if distance_matrix[i].len() != n {
                assert(distance_matrix@[i as int]@.len() != n);
                return Err(ConfigError::MatrixShape);
            }
            i = i + 1;
        }
        let mut i: usize = 0;
        while i < n
            invariant
                evaporation_rate <= SCALE,
                n == distance_matrix@.len(),
                2 <= n <= MAX_NODES,
                i <= n,
                forall|a: int| 0 <= a < n ==> (#[trigger] distance_matrix@[a])@.len() == n,
                forall|a: int, b: int|
                    0 <= a < i && 0 <= b < n && a != b ==> 1 <= #[trigger] distance_matrix@[a]@[b]
                        <= MAX_DISTANCE,
                forall|a: int, b: int|
                    0 <= a < i && 0 <= b < n ==> #[trigger] distance_matrix@[a]@[b]
                        == distance_matrix@[b]@[a],
            decreases n - i,
        {
            let mut j: usize = 0;
            while j < n
                invariant
                    evaporation_rate <= SCALE,
                    n == distance_matrix@.len(),
                    2 <= n <= MAX_NODES,
                    i < n,
                    j <= n,
                    forall|a: int| 0 <= a < n ==> (#[trigger] distance_matrix@[a])@.len() == n,
                    forall|a: int, b: int|
                        0 <= a < i && 0 <= b < n && a != b ==> 1
                            <= #[trigger] distance_matrix@[a]@[b] <= MAX_DISTANCE,
                    forall|b: int|
                        0 <= b < j && i != b ==> 1 <= #[trigger] distance_matrix@[i as int]@[b]
                            <= MAX_DISTANCE,
                    forall|a: int, b: int|
                        0 <= a < i && 0 <= b < n ==> #[trigger] distance_matrix@[a]@[b]
                            == distance_matrix@[b]@[a],
                    forall|b: int|
                        0 <= b < j ==> #[trigger] distance_matrix@[i as int]@[b]
                            == distance_matrix@[b]@[i as int],
                decreases n - j,
            {
                if distance_matrix[i][j] != distance_matrix[j][i] {
                    assert(distance_matrix@[i as int]@[j as int] != distance_matrix@[j as int]@[i as int]);
                    return Err(ConfigError::AsymmetricMatrix);
                }
                if i != j {
                    let d = distance_matrix[i][j];
                    if d < 1 || d > MAX_DISTANCE {
                        assert(!(1 <= distance_matrix@[i as int]@[j as int] <= MAX_DISTANCE));
                        return Err(ConfigError::DistanceOutOfRange);
                    }
                }
                j = j + 1;
            }
            i = i + 1;
        }
        Ok(AntColony { num_ants, num_iterations, alpha, beta, evaporation_rate, distance_matrix })
    }

    /// The unvisited nodes, in increasing order, with their relative
    /// probabilities of being chosen next from `current`: the weight of the
    /// edge to each, relative to the most pheromone and the shortest distance
    /// among them.
    pub fn calculate_probabilities(
        &self,
        current: usize,
        visited: &Vec<bool>,
        pheromones: &Vec<Vec<u64>>,
    ) -> (r: (Vec<usize>, Vec<u128>))
        requires
            current < self.distances().len(),
            visited@.len() == self.distances().len(),
            visited@[current as int],
            exists|j: int| 0 <= j < visited@.len() && !visited@[j],
            pheromone_ok(pheromones@, self.distances().len()),
        ensures
            r.0@.len() == r.1@.len(),
            r.0@.len() > 0,
            r.0@.len() <= self.distances().len(),
            forall|a: int, b: int| 0 <= a < b < r.0@.len() ==> #[trigger] r.0@[a] < #[trigger] r.0@[b],
            forall|k: int|
                0 <= k < r.0@.len() ==> #[trigger] r.0@[k] < self.distances().len() && !visited@[r.0@[k] as int],
            forall|j: int|
                0 <= j < self.distances().len() && !visited@[j] ==> r.0@.contains(j as usize),
            forall|k: int|
                0 <= k < r.1@.len() ==> #[trigger] r.1@[k] == edge_weight(
                    pheromones@[current as int]@[r.0@[k] as int],
                    top_unvisited(pheromones@[current as int]@, visited@, visited@.len() as int),
                    self.distances()[current as int]@[r.0@[k] as int],
                    nearest_unvisited(
                        self.distances()[current as int]@,
                        visited@,
                        visited@.len() as int,
                    ),
                    self.spec_alpha(),
                    self.spec_beta(),
                ) && r.1@[k] <= FIXED_ONE * FIXED_ONE,
    {
        proof {
            use_type_invariant(self);
        }
        let n = self.distance_matrix.len();
        let ghost prow = pheromones@[current as int]@;
        let ghost drow = self.distance_matrix@[current as int]@;
        let mut top: u64 = 0;
        let mut nearest: u64 = u64::MAX;
        let mut j: usize = 0;
        while j < n
            invariant
                n == self.distance_matrix@.len(),
                current < n,
                j <= n,
                visited@.len() == n,
                pheromone_ok(pheromones@, n as nat),
                valid_matrix(self.distance_matrix@),
                prow == pheromones@[current as int]@,
                drow == self.distance_matrix@[current as int]@,
                top == top_unvisited(prow, visited@, j as int),
                nearest == nearest_unvisited(drow, visited@, j as int),
            decreases n - j,
        {
            if !visited[j] {
                let p = pheromones[current][j];
                if p > top {
                    top = p;
                }
                let d = self.distance_matrix[current][j];
                if d < nearest {
                    nearest = d;
                }
            }
            j = j + 1;
        }
        proof {
            assert forall|a: int| 0 <= a < n && !visited@[a] implies #[trigger] prow[a] >= PHEROMONE_FLOOR by {}
            assert forall|a: int| 0 <= a < n && !visited@[a] implies #[trigger] drow[a] >= 1 by {
                assert(a != current);
            }
            lemma_extremes(prow, visited@, n as int, PHEROMONE_FLOOR);
            lemma_extremes(drow, visited@, n as int, 1);
        }
        let mut nodes: Vec<usize> = Vec::new();
        let mut weights: Vec<u128> = Vec::new();
        let mut j: usize = 0;
        while j < n
            invariant
                self.wf(),
                n == self.distance_matrix@.len(),
                current < n,
                j <= n,
                visited@.len() == n,
                visited@[current as int],
                pheromone_ok(pheromones@, n as nat),
                prow == pheromones@[current as int]@,
                drow == self.distance_matrix@[current as int]@,
                top == top_unvisited(prow, visited@, n as int),
                nearest == nearest_unvisited(drow, visited@, n as int),
                top >= 1,
                forall|a: int| 0 <= a < n && !visited@[a] ==> #[trigger] prow[a] <= top,
                forall|a: int| 0 <= a < n && !visited@[a] ==> nearest <= #[trigger] drow[a],
                nodes@.len() == weights@.len(),
                nodes@.len() <= j,
                forall|a: int, b: int| 0 <= a < b < nodes@.len() ==> #[trigger] nodes@[a] < #[trigger] nodes@[b],
                forall|a: int| 0 <= a < nodes@.len() ==> #[trigger] nodes@[a] < j,
                forall|k: int|
                    0 <= k < nodes@.len() ==> #[trigger] nodes@[k] < n && !visited@[nodes@[k] as int],
                forall|a: int| 0 <= a < j && !visited@[a] ==> nodes@.contains(a as usize),
                forall|k: int|
                    0 <= k < weights@.len() ==> #[trigger] weights@[k] == edge_weight(
                        prow[nodes@[k] as int],
                        top,
                        drow[nodes@[k] as int],
                        nearest,
                        self.alpha,
                        self.beta,
                    ) && weights@[k] <= FIXED_ONE * FIXED_ONE,
            decreases n - j,
        {
            let ghost before = nodes@;
            if !visited[j] {
                proof {
                    assert(prow[j as int] <= top);
                    assert(nearest <= drow[j as int]);
                    assert(drow[j as int] >= 1) by {
                        assert(j != current);
                    }
                }
                let w = weight_of_edge(
                    pheromones[current][j],
                    top,
                    self.distance_matrix[current][j],
                    nearest,
                    self.alpha,
                    self.beta,
                );
                nodes.push(j);
                weights.push(w);
                assert(nodes@[nodes@.len() - 1] == j);
            }
            proof {
                assert forall|a: int| 0 <= a < j + 1 && !visited@[a] implies nodes@.contains(
                    a as usize,
                ) by {
                    if a < j {
                        let k = choose|k: int| 0 <= k < before.len() && before[k] == a as usize;
                        assert(nodes@[k] == before[k]);
                    } else {
                        assert(nodes@[nodes@.len() - 1] == j);
                    }
                }
            }
            j = j + 1;
        }
        proof {
            let j0 = choose|j: int| 0 <= j < visited@.len() && !visited@[j];
            assert(nodes@.contains(j0 as usize));
        }
        (nodes, weights)
    }

    /// Picks one of `nodes` with probability proportional to its weight: the
    /// node at which the running sum of weights first exceeds a uniform draw
    /// from `[0, total)`. When every weight rounds to zero, a node drawn
    /// uniformly.
    pub fn select_next_node(&self, nodes: &Vec<usize>, weights: &Vec<u128>, rng: &mut Random) -> (r: usize)
        requires
            nodes@.len() == weights@.len(),
            nodes@.len() > 0,
            weight_sum(weights@) <= u128::MAX,
        ensures
            exists|i: int| #[trigger] chosen_at(nodes@, weights@, i, r),
    {
        match roulette_draw(weights, rng) {
            Some(i) => {
                assert(chosen_at(nodes@, weights@, i as int, nodes@[i as int]));
                nodes[i]
            },
            None => {
                let i = rng.index(nodes.len());
                assert(chosen_at(nodes@, weights@, i as int, nodes@[i as int]));
                nodes[i]
            },
        }
    }
}

impl AntColony {
    /// One ant's tour: from a uniformly random start, each step moves to an
    /// unvisited node drawn with probability proportional to its edge weight;
    /// after every node has been visited the tour closes back to the start.
    /// Returns the tour and its length, the sum of its edges.
    pub fn construct_solution(&self, pheromones: &Vec<Vec<u64>>, rng: &mut Random) -> (r: (
        Vec<usize>,
        u64,
    ))
        requires
            pheromone_ok(pheromones@, self.distances().len()),
        ensures
            valid_tour(r.0@, self.distances().len()),
            r.1 == path_length(self.distances(), r.0@),
    {
        proof {
            use_type_invariant(self);
        }
        let n = self.distance_matrix.len();
        let mut tour: Vec<usize> = Vec::new();
        let mut visited: Vec<bool> = Vec::new();
        let mut k: usize = 0;
        while k < n
            invariant
                k <= n,
                visited@.len() == k,
                forall|j: int| 0 <= j < k ==> !(#[trigger] visited@[j]),
            decreases n - k,
        {
            visited.push(false);
            k = k + 1;
        }
        proof {
            assert(ones(visited@) == 0) by {
                lemma_ones_none(visited@);
            }
        }
        let start = rng.index(n);
        tour.push(start);
        proof {
            lemma_ones_set(visited@, start as int);
        }
        visited.set(start, true);
        let mut current = start;
        let mut total_length: u64 = 0;
        assert(tour@[0] == start);
        assert(tour@.contains(start));
        while tour.len() < n
            invariant
                self.wf(),
                n == self.distance_matrix@.len(),
                pheromone_ok(pheromones@, n as nat),
                visited@.len() == n,
                1 <= tour@.len() <= n,
                tour@[0] == start,
                current == tour@[tour@.len() - 1],
                forall|i: int| 0 <= i < tour@.len() ==> #[trigger] tour@[i] < n,
                forall|i: int, j: int|
                    0 <= i < j < tour@.len() ==> #[trigger] tour@[i] != #[trigger] tour@[j],
                forall|j: int| 0 <= j < n ==> (#[trigger] visited@[j] <==> tour@.contains(j as usize)),
                ones(visited@) == tour@.len(),
                total_length == path_length(self.distance_matrix@, tour@),
                total_length <= (tour@.len() - 1) * MAX_DISTANCE,
            decreases n - tour@.len(),
        {
            proof {
                assert(visited@[current as int]);
                if forall|j: int| 0 <= j < n ==> #[trigger] visited@[j] {
                    lemma_ones_full(visited@);
                }
            }
            let (nodes, weights) = self.calculate_probabilities(current, &visited, pheromones);
            proof {
                let j = choose|j: int| 0 <= j < n && !visited@[j];
                assert(nodes@.contains(j as usize));
                lemma_bounded_weights_sum(weights@, FIXED_ONE * FIXED_ONE);
                assert(weights@.len() * (FIXED_ONE * FIXED_ONE) <= u128::MAX) by (nonlinear_arith)
                    requires
                        weights@.len() <= MAX_NODES,
                ;
            }
            let next = self.select_next_node(&nodes, &weights, rng);
            let ghost old_tour = tour@;
            proof {
                let k = choose|k: int| 0 <= k < nodes@.len() && nodes@[k] == next;
                assert(!visited@[next as int]);
                assert(!old_tour.contains(next));
                lemma_ones_set(visited@, next as int);
            }
            let step = self.distance_matrix[current][next];
            tour.push(next);
            visited.set(next, true);
            total_length = total_length + step;
            current = next;
            proof {
                assert(tour@.drop_last() =~= old_tour);
                assert forall|j: int| 0 <= j < n implies (#[trigger] visited@[j] <==> tour@.contains(
                    j as usize,
                )) by {
                    if j == next as int {
                        assert(tour@[tour@.len() - 1] == next);
                    } else if old_tour.contains(j as usize) {
                        let i = choose|i: int| 0 <= i < old_tour.len() && old_tour[i] == j as usize;
                        assert(tour@[i] == old_tour[i]);
                    } else if tour@.contains(j as usize) {
                        let i = choose|i: int| 0 <= i < tour@.len() && tour@[i] == j as usize;
                        if i < old_tour.len() {
                            assert(old_tour[i] == tour@[i]);
                        }
                    }
                }
                assert forall|a: int, b: int| 0 <= a < b < tour@.len() implies #[trigger] tour@[a]
                    != #[trigger] tour@[b] by {
                    if b == tour@.len() - 1 {
                        assert(old_tour[a] == tour@[a]);
                        assert(old_tour.contains(tour@[a]));
                    } else {
                        assert(old_tour[a] == tour@[a] && old_tour[b] == tour@[b]);
                    }
                }
            }
        }
        let ghost open_tour = tour@;
        let closing = self.distance_matrix[current][start];
        tour.push(start);
        total_length = total_length + closing;
        proof {
            assert(tour@.drop_last() =~= open_tour);
            assert forall|a: int, b: int| 0 <= a < b < n implies #[trigger] tour@[a]
                != #[trigger] tour@[b] by {
                assert(open_tour[a] == tour@[a] && open_tour[b] == tour@[b]);
            }
            assert forall|i: int| 0 <= i < n implies #[trigger] tour@[i] < n by {
                assert(open_tour[i] == tour@[i]);
            }
        }
        (tour, total_length)
    }
}

proof fn lemma_ones_none(s: Seq<bool>)
    requires
        forall|j: int| 0 <= j < s.len() ==> !(#[trigger] s[j]),
    ensures
        ones(s) == 0,
    decreases s.len(),
{
    if s.len() > 0 {
        let p = s.drop_last();
        assert forall|j: int| 0 <= j < p.len() implies !(#[trigger] p[j]) by {
            assert(p[j] == s[j]);
        }
        lemma_ones_none(p);
    }
}

/// One evaporation step of an entry: `pheromone * (1 - rate)`, rounded
/// down and held at the floor or above.
pub open spec fn evaporated(pheromone: u64, rate: u64) -> u64 {
    let t = pheromone * (SCALE - rate) / (SCALE as int);
    if t < PHEROMONE_FLOOR {
        PHEROMONE_FLOOR
    } else {
        t as u64
    }
}

/// An `n` by `n` matrix with every entry `PHEROMONE_UNIT`.
pub fn initial_pheromones(n: usize) -> (r: Vec<Vec<u64>>)
    ensures
        r@.len() == n,
        forall|i: int| 0 <= i < n ==> (#[trigger] r@[i])@.len() == n,
        forall|i: int, j: int| 0 <= i < n && 0 <= j < n ==> #[trigger] r@[i]@[j] == PHEROMONE_UNIT,
{
    let mut rows: Vec<Vec<u64>> = Vec::new();
    let mut i: usize = 0;
    while i < n
        invariant
            i <= n,
            rows@.len() == i,
            forall|a: int| 0 <= a < i ==> (#[trigger] rows@[a])@.len() == n,
            forall|a: int, b: int|
                0 <= a < i && 0 <= b < n ==> #[trigger] rows@[a]@[b] == PHEROMONE_UNIT,
        decreases n - i,
    {
        let mut row: Vec<u64> = Vec::new();
        let mut j: usize = 0;
        while j < n
            invariant
                j <= n,
                row@.len() == j,
                forall|b: int| 0 <= b < j ==> #[trigger] row@[b] == PHEROMONE_UNIT,
            decreases n - j,
        {
            row.push(PHEROMONE_UNIT);
            j = j + 1;
        }
        rows.push(row);
        i = i + 1;
    }
    rows
}

/// Evaporates every entry uniformly, down to the floor at most.
pub fn evaporate(pheromones: &mut Vec<Vec<u64>>, rate: u64)
    requires
        rate <= SCALE,
    ensures
        final(pheromones)@.len() == old(pheromones)@.len(),
        forall|i: int|
            0 <= i < old(pheromones)@.len() ==> (#[trigger] final(pheromones)@[i])@.len()
                == old(pheromones)@[i]@.len(),
        forall|i: int, j: int|
            0 <= i < old(pheromones)@.len() && 0 <= j < old(pheromones)@[i]@.len()
                ==> #[trigger] final(pheromones)@[i]@[j] == evaporated(old(pheromones)@[i]@[j], rate),
{
    let ghost before = pheromones@;
    let mut i: usize = 0;
    while i < pheromones.len()
        invariant
            rate <= SCALE,
            pheromones@.len() == before.len(),
            i <= before.len(),
            forall|a: int| 0 <= a < before.len() ==> (#[trigger] pheromones@[a])@.len() == before[a]@.len(),
            forall|a: int, b: int|
                0 <= a < i && 0 <= b < before[a]@.len() ==> #[trigger] pheromones@[a]@[b]
                    == evaporated(before[a]@[b], rate),
            forall|a: int| i <= a < before.len() ==> #[trigger] pheromones@[a] == before[a],
        decreases before.len() - i,
    {
        let mut j: usize = 0;
        while j < pheromones[i].len()
            invariant
                rate <= SCALE,
                i < before.len(),
                pheromones@.len() == before.len(),
                j <= before[i as int]@.len(),
                forall|a: int| 0 <= a < before.len() ==> (#[trigger] pheromones@[a])@.len() == before[a]@.len(),
                forall|a: int, b: int|
                    0 <= a < i && 0 <= b < before[a]@.len() ==> #[trigger] pheromones@[a]@[b]
                        == evaporated(before[a]@[b], rate),
                forall|b: int| 0 <= b < j ==> #[trigger] pheromones@[i as int]@[b]
                    == evaporated(before[i as int]@[b], rate),
                forall|b: int| j <= b < before[i as int]@.len() ==> #[trigger] pheromones@[i as int]@[b]
                    == before[i as int]@[b],
                forall|a: int| i < a < before.len() ==> #[trigger] pheromones@[a] == before[a],
            decreases before[i as int]@.len() - j,
        {
            let p = pheromones[i][j];
            proof {
                lemma_scaled_fits(p, rate);
            }
            let t = p as u128 * (SCALE - rate) as u128 / SCALE as u128;
            let v = if t < PHEROMONE_FLOOR as u128 {
                PHEROMONE_FLOOR
            } else {
                t as u64
            };
            pheromones[i].set(j, v);
            j = j + 1;
        }
        i = i + 1;
    }
}

proof fn lemma_scaled_fits(p: u64, rate: u64)
    requires
        rate <= SCALE,
    ensures
        p * (SCALE - rate) <= u128::MAX,
        p * (SCALE - rate) / (SCALE as int) <= p,
{
    assert(p * (SCALE - rate) <= p * SCALE) by (nonlinear_arith)
        requires
            rate <= SCALE,
            p >= 0,
    ;
    assert(p * (SCALE - rate) / (SCALE as int) <= p) by (nonlinear_arith)
        requires
            p * (SCALE - rate) <= p * SCALE,
            p >= 0,
    ;
}

/// The length of a path only grows as it goes on: it is at least that of any
/// prefix of two or more nodes.
proof fn lemma_path_length_prefix(d: Seq<Vec<u64>>, t: Seq<usize>, m: int)
    requires
        2 <= m <= t.len(),
        forall|i: int| 0 <= i < t.len() ==> #[trigger] t[i] < d.len(),
        forall|i: int| 0 <= i < d.len() ==> (#[trigger] d[i])@.len() == d.len(),
    ensures
        path_length(d, t) >= path_length(d, t.subrange(0, m)),
    decreases t.len(),
{
    if m < t.len() {
        let p = t.drop_last();
        assert forall|i: int| 0 <= i < p.len() implies #[trigger] p[i] < d.len() by {
            assert(p[i] == t[i]);
        }
        lemma_path_length_prefix(d, p, m);
        assert(p.subrange(0, m) =~= t.subrange(0, m));
    } else {
        assert(t.subrange(0, m) =~= t);
    }
}

/// A tour of a valid matrix has a positive length.
proof fn lemma_tour_length_positive(d: Seq<Vec<u64>>, t: Seq<usize>)
    requires
        valid_matrix(d),
        valid_tour(t, d.len()),
    ensures
        path_length(d, t) >= 1,
{
    let n = d.len();
    assert forall|i: int| 0 <= i < t.len() implies #[trigger] t[i] < d.len() by {
        if i == n {
            assert(t[i] == t[0]);
        }
    }
    lemma_path_length_prefix(d, t, 2);
    let two = t.subrange(0, 2);
    assert(two.drop_last().len() == 1);
    assert(path_length(d, two.drop_last()) == 0);
    assert(two[0] == t[0] && two[1] == t[1]);
    assert(t[0] != t[1]);
    assert(1 <= d[t[0] as int]@[t[1] as int]);
}

/// How many times a deposit along `tour` reaches entry `(i, j)`: once for
/// each step from `i` to `j` and once for each step from `j` to `i`.
pub open spec fn steps_on(tour: Seq<usize>, i: int, j: int) -> nat
    decreases tour.len(),
{
    if tour.len() < 2 {
        0
    } else {
        let a = tour[tour.len() - 2] as int;
        let b = tour[tour.len() - 1] as int;
        steps_on(tour.drop_last(), i, j) + (if a == i && b == j { 1nat } else { 0nat }) + (if b == i
            && a == j {
            1nat
        } else {
            0nat
        })
    }
}

/// `p` after `times` additions of `amount`, held at `u64::MAX`.
pub open spec fn reinforced(p: u64, amount: u64, times: nat) -> int {
    vstd::math::min(p + amount * times, u64::MAX as int)
}

proof fn lemma_reinforce_once(p: u64, amount: u64, times: nat)
    ensures
        vstd::math::min(reinforced(p, amount, times) + amount, u64::MAX as int) == reinforced(
            p,
            amount,
            times + 1,
        ),
        reinforced(p, amount, times) >= p,
{
    assert(amount * (times + 1) == amount * times + amount) by (nonlinear_arith);
    assert(amount * times >= 0) by (nonlinear_arith);
}

/// Reinforces every step of `tour`, in both directions, by
/// `PHEROMONE_UNIT / length`, held at `u64::MAX`: each entry grows by the
/// deposit times the number of steps that reach it.
pub fn deposit(pheromones: &mut Vec<Vec<u64>>, tour: &Vec<usize>, length: u64)
    requires
        length > 0,
        forall|i: int| 0 <= i < old(pheromones)@.len() ==> (#[trigger] old(pheromones)@[i])@.len()
            == old(pheromones)@.len(),
        forall|k: int| 0 <= k < tour@.len() ==> #[trigger] tour@[k] < old(pheromones)@.len(),
    ensures
        final(pheromones)@.len() == old(pheromones)@.len(),
        forall|i: int| 0 <= i < old(pheromones)@.len() ==> (#[trigger] final(pheromones)@[i])@.len()
            == old(pheromones)@.len(),
        forall|i: int, j: int|
            0 <= i < old(pheromones)@.len() && 0 <= j < old(pheromones)@.len()
                ==> #[trigger] final(pheromones)@[i]@[j] == reinforced(
                old(pheromones)@[i]@[j],
                PHEROMONE_UNIT / length,
                steps_on(tour@, i, j),
            ),
        forall|i: int, j: int|
            0 <= i < old(pheromones)@.len() && 0 <= j < old(pheromones)@.len()
                ==> #[trigger] final(pheromones)@[i]@[j] >= old(pheromones)@[i]@[j],
{
    let ghost before = pheromones@;
    let n = pheromones.len();
    let amount = PHEROMONE_UNIT / length;
    if tour.len() < 2 {
        proof {
            assert forall|i: int, j: int| 0 <= i < n && 0 <= j < n implies #[trigger] pheromones@[i]@[j]
                == reinforced(before[i]@[j], amount, steps_on(tour@, i, j)) by {
                lemma_reinforce_once(before[i]@[j], amount, 0);
            }
        }
        return;
    }
    let steps: usize = tour.len() - 1;
    let mut k: usize = 0;
    proof {
        assert forall|i: int, j: int| 0 <= i < n && 0 <= j < n implies #[trigger] pheromones@[i]@[j]
            == reinforced(before[i]@[j], amount, steps_on(tour@.subrange(0, 1), i, j)) by {
            lemma_reinforce_once(before[i]@[j], amount, 0);
        }
    }
    while k < steps
        invariant
            steps == tour@.len() - 1,
            k <= steps,
            n == before.len(),
            pheromones@.len() == n,
            forall|i: int| 0 <= i < n ==> (#[trigger] before[i])@.len() == n,
            forall|i: int| 0 <= i < n ==> (#[trigger] pheromones@[i])@.len() == n,
            forall|k2: int| 0 <= k2 < tour@.len() ==> #[trigger] tour@[k2] < n,
            forall|i: int, j: int|
                0 <= i < n && 0 <= j < n ==> #[trigger] pheromones@[i]@[j] == reinforced(
                    before[i]@[j],
                    amount,
                    steps_on(tour@.subrange(0, k + 1), i, j),
                ),
        decreases steps - k,
    {
        let a = tour[k];
        let b = tour[k + 1];
        let ghost prefix = tour@.subrange(0, k as int + 1);
        let ghost longer = tour@.subrange(0, k as int + 2);
        let ghost start = pheromones@;
        let forward = pheromones[a][b].saturating_add(amount);
        pheromones[a].set(b, forward);
        let ghost middle = pheromones@;
        let backward = pheromones[b][a].saturating_add(amount);
        pheromones[b].set(a, backward);
        proof {
            assert(longer.drop_last() =~= prefix);
            assert(longer[longer.len() - 2] == a && longer[longer.len() - 1] == b);
            assert forall|i: int, j: int| 0 <= i < n && 0 <= j < n implies #[trigger] pheromones@[i]@[j]
                == reinforced(before[i]@[j], amount, steps_on(longer, i, j)) by {
                let m = steps_on(prefix, i, j);
                lemma_reinforce_once(before[i]@[j], amount, m);
                lemma_reinforce_once(before[i]@[j], amount, m + 1);
                if i == a as int && j == b as int {
                    assert(middle[i]@[j] == reinforced(before[i]@[j], amount, m + 1));
                } else {
                    assert(middle[i]@[j] == start[i]@[j]);
                }
            }
        }
        k = k + 1;
    }
    proof {
        assert(tour@.subrange(0, k as int + 1) =~= tour@);
        assert forall|i: int, j: int| 0 <= i < n && 0 <= j < n implies #[trigger] pheromones@[i]@[j]
            >= before[i]@[j] by {
            lemma_reinforce_once(before[i]@[j], amount, steps_on(tour@, i, j));
        }
    }
}

impl AntColony {
    /// The pheromone update after all ants of an iteration have built their
    /// tours: uniform evaporation down to the floor, then a deposit of
    /// `1 / length` along every edge of every tour, held at `u64::MAX`. No
    /// entry ever falls below the floor.
    pub fn update_pheromones(&self, pheromones: &mut Vec<Vec<u64>>, population: &Vec<TourIndividual>)
        requires
            pheromone_ok(old(pheromones)@, self.distances().len()),
            forall|i: int|
                0 <= i < population@.len() ==> tour_fits(self.distances(), #[trigger] population@[i]),
        ensures
            pheromone_ok(final(pheromones)@, self.distances().len()),
            forall|i: int, j: int|
                0 <= i < self.distances().len() && 0 <= j < self.distances().len()
                    ==> #[trigger] final(pheromones)@[i]@[j] == vstd::math::min(
                    evaporated(old(pheromones)@[i]@[j], self.spec_evaporation_rate())
                        + deposit_total(population@, i, j),
                    u64::MAX as int,
                ),
    {
        proof {
            use_type_invariant(self);
        }
        let n = self.distance_matrix.len();
        let ghost fresh = pheromones@;
        evaporate(pheromones, self.evaporation_rate);
        proof {
            assert forall|i: int| 0 <= i < n implies (#[trigger] pheromones@[i])@.len() == n by {
                assert(fresh[i]@.len() == n);
            }
            assert forall|i: int, j: int| 0 <= i < n && 0 <= j < n implies #[trigger] pheromones@[i]@[j]
                >= PHEROMONE_FLOOR by {
                assert(fresh[i]@.len() == n);
                assert(pheromones@[i]@[j] == evaporated(fresh[i]@[j], self.evaporation_rate));
                lemma_scaled_fits(fresh[i]@[j], self.evaporation_rate);
            }
            assert forall|i: int, j: int| 0 <= i < n && 0 <= j < n implies #[trigger] pheromones@[i]@[j]
                == vstd::math::min(
                evaporated(fresh[i]@[j], self.evaporation_rate) + deposit_total(
                    population@.subrange(0, 0),
                    i,
                    j,
                ),
                u64::MAX as int,
            ) by {
                assert(fresh[i]@.len() == n);
                assert(population@.subrange(0, 0).len() == 0);
            }
        }
        let mut t: usize = 0;
        while t < population.len()
            invariant
                self.wf(),
                n == self.distance_matrix@.len(),
                t <= population@.len(),
                pheromone_ok(pheromones@, n as nat),
                pheromone_ok(fresh, n as nat),
                forall|i: int, j: int|
                    0 <= i < n && 0 <= j < n ==> #[trigger] pheromones@[i]@[j] == vstd::math::min(
                        evaporated(fresh[i]@[j], self.evaporation_rate) + deposit_total(
                            population@.subrange(0, t as int),
                            i,
                            j,
                        ),
                        u64::MAX as int,
                    ),
                forall|i: int|
                    0 <= i < population@.len() ==> tour_fits(
                        self.distance_matrix@,
                        #[trigger] population@[i],
                    ),
            decreases population@.len() - t,
        {
            proof {
                let x = population@[t as int];
                lemma_tour_length_positive(self.distance_matrix@, x.tour@);
                assert forall|k: int| 0 <= k < x.tour@.len() implies #[trigger] x.tour@[k] < n by {
                    if k == n {
                        assert(x.tour@[k] == x.tour@[0]);
                    }
                }
            }
            let ghost current = pheromones@;
            deposit(pheromones, &population[t].tour, population[t].length);
            proof {
                let x = population@[t as int];
                let amount = PHEROMONE_UNIT / x.length;
                assert(population@.subrange(0, t as int + 1).drop_last() =~= population@.subrange(
                    0,
                    t as int,
                ));
                assert forall|i: int, j: int| 0 <= i < n && 0 <= j < n implies #[trigger] pheromones@[i]@[j]
                    == vstd::math::min(
                    evaporated(fresh[i]@[j], self.evaporation_rate) + deposit_total(
                        population@.subrange(0, t as int + 1),
                        i,
                        j,
                    ),
                    u64::MAX as int,
                ) by {
                    let e = evaporated(fresh[i]@[j], self.evaporation_rate) as int;
                    let d = deposit_total(population@.subrange(0, t as int), i, j);
                    let add = amount * steps_on(x.tour@, i, j);
                    lemma_deposit_total_nonnegative(population@.subrange(0, t as int), i, j);
                    assert(add >= 0) by (nonlinear_arith)
                        requires
                            add == amount * steps_on(x.tour@, i, j),
                            amount >= 0,
                    ;
                    assert(current[i]@[j] == vstd::math::min(e + d, u64::MAX as int));
                }
            }
            t = t + 1;
        }
        assert(population@.subrange(0, t as int) =~= population@);
    }
}

/// The total deposit that the tours of `population` leave on entry `(i, j)`:
/// `1 / length` of each tour for each of its steps that reach the entry (a
/// tour of length zero, which a valid matrix cannot give, leaves none).
pub open spec fn deposit_total(population: Seq<TourIndividual>, i: int, j: int) -> int
    decreases population.len(),
{
    if population.len() == 0 {
        0
    } else {
        let x = population.last();
        let amount = if x.length > 0 {
            PHEROMONE_UNIT / x.length
        } else {
            0
        };
        deposit_total(population.drop_last(), i, j) + amount * steps_on(x.tour@, i, j)
    }
}

proof fn lemma_deposit_total_nonnegative(population: Seq<TourIndividual>, i: int, j: int)
    ensures
        deposit_total(population, i, j) >= 0,
    decreases population.len(),
{
    if population.len() > 0 {
        let x = population.last();
        lemma_deposit_total_nonnegative(population.drop_last(), i, j);
        let amount = if x.length > 0 {
            PHEROMONE_UNIT / x.length
        } else {
            0
        };
        assert(amount * steps_on(x.tour@, i, j) >= 0) by (nonlinear_arith)
            requires
                amount >= 0,
        ;
    }
}

/// The observers were shown an empty population first, then after each of
/// `iterations` iterations the `ants` tours built in it, each a valid tour of
/// `d` with its true length.
pub open spec fn tours_shown(snaps: Seq<Seq<TourIndividual>>, d: Seq<Vec<u64>>, ants: nat, iterations: nat) -> bool {
    &&& snaps.len() == iterations + 1
    &&& snaps[0].len() == 0
    &&& forall|t: int|
        1 <= t < snaps.len() ==> (#[trigger] snaps[t]).len() == ants && forall|i: int|
            0 <= i < snaps[t].len() ==> tour_fits(d, #[trigger] snaps[t][i])
}

/// A copy of a tour individual.
fn copy_tour(x: &TourIndividual) -> (r: TourIndividual)
    ensures
        r.tour@ == x.tour@,
        r.length == x.length,
{
    let tour = x.tour.clone();
    proof {
        assert forall|k: int| 0 <= k < tour@.len() implies tour@[k] == x.tour@[k] by {
            assert(cloned(x.tour@[k], tour@[k]));
        }
        assert(tour@ =~= x.tour@);
    }
    TourIndividual::new(tour, x.length)
}

impl Optimizer<TourIndividual> for AntColony {
    open spec fn rounds(&self) -> nat {
        self.spec_num_iterations() as nat
    }

    /// Each iteration lets every ant build a tour and offers each tour to the
    /// archive, then evaporates the pheromone and reinforces the edges of
    /// every tour. The observers see the tours of each iteration (none at
    /// iteration 0). Every entry that the archive gains is a valid tour of
    /// the matrix, recorded with its true length.
    fn optimize<A: Archive<Solution = TourIndividual>, O: Observer<TourIndividual>>(
        &self,
        archive: &mut A,
        observers: &mut Vec<O>,
        rng: &mut Random,
    ) -> (r: Result<(), SearchError>)
        ensures
            r is Ok,
            forall|i: int|
                0 <= i < final(archive).entries().len() ==> old(archive).entries().contains(
                    #[trigger] final(archive).entries()[i],
                ) || entry_fits(self.distances(), final(archive).entries()[i]),
            exists|snaps: Seq<Seq<TourIndividual>>|
                #[trigger] shown_populations(old(observers)@, final(observers)@, snaps) && tours_shown(
                    snaps,
                    self.distances(),
                    self.spec_num_ants() as nat,
                    self.spec_num_iterations() as nat,
                ),
            exists|added: Seq<(TourIndividual, u64)>|
                #![trigger archive_fold(old(archive).capacity(), old(archive).entries(), added)]
                added.len() == self.spec_num_ants() * self.spec_num_iterations() && (forall|k: int|
                    0 <= k < added.len() ==> entry_fits(self.distances(), #[trigger] added[k]))
                    && final(archive).entries() == archive_fold(
                    old(archive).capacity(),
                    old(archive).entries(),
                    added,
                ),
    {
        proof {
            use_type_invariant(self);
        }
        let ghost before = observers@;
        let ghost initial = archive.entries();
        let ghost mut added: Seq<(TourIndividual, u64)> = Seq::empty();
        let n = self.distance_matrix.len();
        let mut pheromones = initial_pheromones(n);
        let empty: Vec<TourIndividual> = Vec::new();
        let ghost mut snaps: Seq<Seq<TourIndividual>> = seq![empty@];
        notify_start(observers, empty.as_slice());
        proof {
            assert forall|k: int| 0 <= k < before.len() implies #[trigger] observers@[k].shown()
                == before[k].shown() + snaps by {
                assert(before[k].shown().push(empty@) =~= before[k].shown() + snaps);
            }
        }
        let mut done: usize = 0;
        while done < self.num_iterations
            invariant
                self.wf(),
                n == self.distance_matrix@.len(),
                done <= self.num_iterations,
                pheromone_ok(pheromones@, n as nat),
                archive.wf(),
                archive.capacity() == old(archive).capacity(),
                initial == old(archive).entries(),
                added.len() == self.num_ants * done,
                shown_populations(before, observers@, snaps),
                tours_shown(snaps, self.distance_matrix@, self.num_ants as nat, done as nat),
                forall|k: int| 0 <= k < added.len() ==> entry_fits(self.distance_matrix@, #[trigger] added[k]),
                archive.entries() == archive_fold(archive.capacity(), initial, added),
                forall|i: int|
                    0 <= i < archive.entries().len() ==> initial.contains(
                        #[trigger] archive.entries()[i],
                    ) || entry_fits(self.distance_matrix@, archive.entries()[i]),
                before == old(observers)@,
                observers@.len() == before.len(),
                forall|k: int|
                    0 <= k < before.len() ==> #[trigger] observers@[k].notices()
                        == before[k].notices() + opening(done as nat),
            decreases self.num_iterations - done,
        {
            let iteration = done + 1;
            let mut population: Vec<TourIndividual> = Vec::new();
            let mut a: usize = 0;
            while a < self.num_ants
                invariant
                    self.wf(),
                    n == self.distance_matrix@.len(),
                    a <= self.num_ants,
                    pheromone_ok(pheromones@, n as nat),
                    archive.wf(),
                    archive.capacity() == old(archive).capacity(),
                    added.len() == self.num_ants * done + a,
                    forall|k: int|
                        0 <= k < added.len() ==> entry_fits(self.distance_matrix@, #[trigger] added[k]),
                    archive.entries() == archive_fold(archive.capacity(), initial, added),
                    forall|i: int|
                        0 <= i < archive.entries().len() ==> initial.contains(
                            #[trigger] archive.entries()[i],
                        ) || entry_fits(self.distance_matrix@, archive.entries()[i]),
                    forall|i: int|
                        0 <= i < population@.len() ==> tour_fits(
                            self.distance_matrix@,
                            #[trigger] population@[i],
                        ),
                    population@.len() == a,
                decreases self.num_ants - a,
            {
                let (tour, length) = self.construct_solution(&pheromones, rng);
                let individual = TourIndividual::new(tour, length);
                let offered = copy_tour(&individual);
                let ghost held = archive.entries();
                let ghost pair = (offered, length);
                proof {
                    lemma_fold_push(archive.capacity(), initial, added, pair);
                    added = added.push(pair);
                }
                archive.add(offered, length);
                proof {
                    lemma_with_entry_members(held, pair, archive.capacity());
                    assert forall|i: int| 0 <= i < archive.entries().len() implies initial.contains(
                        #[trigger] archive.entries()[i],
                    ) || entry_fits(self.distance_matrix@, archive.entries()[i]) by {
                        let e = archive.entries()[i];
                        if e != pair {
                            let k = choose|k: int| 0 <= k < held.len() && held[k] == e;
                            assert(initial.contains(held[k]) || entry_fits(self.distance_matrix@, held[k]));
                        }
                    }
                }
                population.push(individual);
                a = a + 1;
            }
            assert(added.len() == self.num_ants * iteration) by (nonlinear_arith)
                requires
                    added.len() == self.num_ants * done + self.num_ants,
                    iteration == done + 1,
            ;
            self.update_pheromones(&mut pheromones, &population);
            let ghost mid = observers@;
            let ghost mid_snaps = snaps;
            notify_iteration(observers, iteration, population.as_slice());
            proof {
                snaps = snaps.push(population@);
                assert forall|k: int| 0 <= k < before.len() implies #[trigger] observers@[k].shown()
                    == before[k].shown() + snaps by {
                    assert(mid[k].shown() == before[k].shown() + mid_snaps);
                    assert((before[k].shown() + mid_snaps).push(population@) =~= before[k].shown() + snaps);
                }
                assert forall|t: int| 1 <= t < snaps.len() implies (#[trigger] snaps[t]).len()
                    == self.num_ants && forall|i: int|
                    0 <= i < snaps[t].len() ==> tour_fits(self.distance_matrix@, #[trigger] snaps[t][i]) by {
                    if t < mid_snaps.len() {
                        assert(snaps[t] == mid_snaps[t]);
                    }
                }
            }
            proof {
                assert forall|k: int| 0 <= k < before.len() implies #[trigger] observers@[k].notices()
                    == before[k].notices() + opening(iteration as nat) by {
                    assert(before[k].notices() + opening(iteration as nat) =~= (before[k].notices()
                        + opening(done as nat)).push(Notice::Iteration(iteration)));
                }
            }
            done = iteration;
        }
        notify_finish(observers);
        proof {
            assert forall|k: int| 0 <= k < before.len() implies #[trigger] observers@[k].notices()
                == before[k].notices() + run_notices(self.num_iterations as nat, Ok(())) by {
                assert(before[k].notices() + full_run(done as nat) =~= (before[k].notices()
                    + opening(done as nat)).push(Notice::Finish));
            }
            assert(archive.entries() == archive_fold(old(archive).capacity(), old(archive).entries(), added));
            assert(shown_populations(old(observers)@, observers@, snaps));
        }
        Ok(())
    }
}

} // verus!
