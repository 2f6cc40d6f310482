//! Bundled candidate representations: bit strings and integer vectors scored
//! by the sphere function. Tours and particles live beside the algorithms that
//! use them and are re-exported here.

use crate::individual::{Crossover, Individual, Mutate, Neighbor};
use crate::random::Random;

pub use crate::ant_colony::TourIndividual;
pub use crate::particle_swarm::ParticleIndividual;
use vstd::prelude::*;




verus! {

/// Fixed-point unit of a gene: a gene of `GENE_UNIT` stands for 1.0.
pub const GENE_UNIT: i64 = 1000;

/// The child of a one-point crossover at `point`: `a` before the point,
/// `b` from it on.
pub open spec fn spliced<T>(a: Seq<T>, b: Seq<T>, point: int) -> Seq<T> {
    a.subrange(0, point) + b.subrange(vstd::math::min(point, b.len() as int), b.len() as int)
}

/// Joins the first `point` items of `a` with the items of `b` from `point`
/// on.
pub fn splice<T: Copy>(a: &Vec<T>, b: &Vec<T>, point: usize) -> (r: Vec<T>)
    requires
        point <= a@.len(),
    ensures
        r@ == spliced(a@, b@, point as int),
{
    let mut out: Vec<T> = Vec::new();
    let mut i: usize = 0;
    while i < point
        invariant
            i <= point <= a@.len(),
            out@ == a@.subrange(0, i as int),
        decreases point - i,
    {
        out.push(a[i]);
        i = i + 1;
        assert(out@ =~= a@.subrange(0, i as int));
    }
    let start = if point < b.len() {
        point
    } else {
        b.len()
    };
    let mut j: usize = start;
    while j < b.len()
        invariant
            start <= j <= b@.len(),
            out@ == a@.subrange(0, point as int) + b@.subrange(start as int, j as int),
        decreases b@.len() - j,
    {
        out.push(b[j]);
        j = j + 1;
        assert(out@ =~= a@.subrange(0, point as int) + b@.subrange(start as int, j as int));
    }
    out
}

/// A crossover point drawn uniformly from `[0, len)`, or 0 for an empty
/// parent.
fn crossover_point(len: usize, rng: &mut Random) -> (r: usize)
    ensures
        r <= len,
        len > 0 ==> r < len,
{
    if len == 0 {
        0
    } else {
        rng.index(len)
    }
}

/// The number of set bits.
pub open spec fn ones(bits: Seq<bool>) -> nat
    decreases bits.len(),
{
    if bits.len() == 0 {
        0
    } else {
        ones(bits.drop_last()) + (if bits.last() { 1nat } else { 0nat })
    }
}

proof fn lemma_ones_bounded(bits: Seq<bool>)
    ensures
        ones(bits) <= bits.len(),
    decreases bits.len(),
{
    if bits.len() > 0 {
        lemma_ones_bounded(bits.drop_last());
    }
}

/// A bit string whose fitness is its number of set bits.
#[derive(Clone, Debug)]
pub struct BitStringIndividual {
    pub bits: Vec<bool>,
}

impl BitStringIndividual {
    /// A string of `length` random bits.
    pub fn new(length: usize, rng: &mut Random) -> (r: BitStringIndividual)
        ensures
            r.bits@.len() == length,
    {
        let mut bits: Vec<bool> = Vec::new();
        let mut i: usize = 0;
        while i < length
            invariant
                i <= length,
                bits@.len() == i,
            decreases length - i,
        {
            bits.push(rng.below(2) == 1);
            i = i + 1;
        }
        BitStringIndividual { bits }
    }
}

impl Individual for BitStringIndividual {
    open spec fn spec_fitness(&self) -> u64 {
        ones(self.bits@) as u64
    }

    /// The number of set bits.
    fn fitness(&self) -> (r: u64)
        ensures
            r == ones(self.bits@),
    {
        let mut count: u64 = 0;
        let mut i: usize = 0;
        while i < self.bits.len()
            invariant
                i <= self.bits@.len(),
                count == ones(self.bits@.subrange(0, i as int)),
            decreases self.bits@.len() - i,
        {
            proof {
                assert(self.bits@.subrange(0, i as int + 1).drop_last() =~= self.bits@.subrange(
                    0,
                    i as int,
                ));
                lemma_ones_bounded(self.bits@.subrange(0, i as int));
            }
            if self.bits[i] {
                count = count + 1;
            }
            i = i + 1;
        }
        assert(self.bits@.subrange(0, i as int) =~= self.bits@);
        count
    }
}

impl Crossover for BitStringIndividual {
    /// One-point crossover at a uniform point of this parent.
    fn crossover(&self, other: &Self, rng: &mut Random) -> (r: Self)
        ensures
            exists|p: int|
                0 <= p <= self.bits@.len() && (self.bits@.len() > 0 ==> p < self.bits@.len())
                    && r.bits@ == spliced(self.bits@, other.bits@, p),
    {
        let point = crossover_point(self.bits.len(), rng);
        BitStringIndividual { bits: splice(&self.bits, &other.bits, point) }
    }
}

impl Mutate for BitStringIndividual {
    /// Flips one uniformly chosen bit; an empty string stays empty.
    fn mutate(&mut self, rng: &mut Random)
        ensures
            old(self).bits@.len() == 0 ==> final(self).bits@ == old(self).bits@,
            old(self).bits@.len() > 0 ==> exists|p: int|
                0 <= p < old(self).bits@.len() && final(self).bits@ == old(self).bits@.update(
                    p,
                    !old(self).bits@[p],
                ),
    {
        if self.bits.len() > 0 {
            let p = rng.index(self.bits.len());
            let flipped = !self.bits[p];
            self.bits.set(p, flipped);
        }
    }
}

impl crate::individual::Default for BitStringIndividual {
    /// Twenty random bits.
    fn default(rng: &mut Random) -> (r: Self)
        ensures
            r.bits@.len() == 20,
    {
        BitStringIndividual::new(20, rng)
    }
}

/// The sphere function: the sum of the squares of the genes.
pub open spec fn sphere(genes: Seq<i64>) -> int
    decreases genes.len(),
{
    if genes.len() == 0 {
        0
    } else {
        sphere(genes.drop_last()) + genes.last() * genes.last()
    }
}

proof fn lemma_sphere_nonnegative(genes: Seq<i64>)
    ensures
        sphere(genes) >= 0,
    decreases genes.len(),
{
    if genes.len() > 0 {
        lemma_sphere_nonnegative(genes.drop_last());
        let g = genes.last() as int;
        assert(g * g >= 0) by (nonlinear_arith);
    }
}

/// `v` moved by `delta`, held within the range of `i64`.
pub open spec fn shifted(v: i64, delta: i64) -> i64 {
    if v + delta > i64::MAX {
        i64::MAX
    } else if v + delta < i64::MIN {
        i64::MIN
    } else {
        (v + delta) as i64
    }
}

/// `moved` is `v` shifted by some step in `[-step, step)`.
pub open spec fn moved_within(v: i64, moved: i64, step: i64) -> bool {
    exists|d: i64| -step <= d < step && moved == shifted(v, d)
}

fn shift(v: i64, delta: i64) -> (r: i64)
    ensures
        r == shifted(v, delta),
{
    let sum: i128 = v as i128 + delta as i128;
    if sum > i64::MAX as i128 {
        i64::MAX
    } else if sum < i64::MIN as i128 {
        i64::MIN
    } else {
        sum as i64
    }
}

/// A vector of fixed-point genes (`GENE_UNIT` is 1.0) whose fitness is the
/// sphere function, held at `u64::MAX` where it would exceed it.
#[derive(Clone, Debug)]
pub struct NumericIndividual {
    pub genes: Vec<i64>,
}

impl NumericIndividual {
    /// `length` genes drawn uniformly from `[-5.0, 5.0)`.
    pub fn new(length: usize, rng: &mut Random) -> (r: NumericIndividual)
        ensures
            r.genes@.len() == length,
            forall|i: int|
                0 <= i < length ==> -5 * GENE_UNIT <= #[trigger] r.genes@[i] < 5 * GENE_UNIT,
    {
        let mut genes: Vec<i64> = Vec::new();
        let mut i: usize = 0;
        while i < length
            invariant
                i <= length,
                genes@.len() == i,
                forall|j: int| 0 <= j < i ==> -5 * GENE_UNIT <= #[trigger] genes@[j] < 5 * GENE_UNIT,
            decreases length - i,
        {
            genes.push(rng.between(-5 * GENE_UNIT, 5 * GENE_UNIT));
            i = i + 1;
        }
        NumericIndividual { genes }
    }
}

impl Individual for NumericIndividual {
    open spec fn spec_fitness(&self) -> u64 {
        vstd::math::min(sphere(self.genes@), u64::MAX as int) as u64
    }

    /// The sphere function of the genes, held at `u64::MAX`.
    fn fitness(&self) -> (r: u64)
        ensures
            r == vstd::math::min(sphere(self.genes@), u64::MAX as int),
    {
        let cap: u128 = u64::MAX as u128 + 1;
        let mut acc: u128 = 0;
        let mut i: usize = 0;
        while i < self.genes.len()
            invariant
                i <= self.genes@.len(),
                cap == u64::MAX + 1,
                acc == vstd::math::min(sphere(self.genes@.subrange(0, i as int)), cap as int),
            decreases self.genes@.len() - i,
        {
            let g = self.genes[i] as i128;
            proof {
                assert(self.genes@.subrange(0, i as int + 1).drop_last() =~= self.genes@.subrange(
                    0,
                    i as int,
                ));
                lemma_sphere_nonnegative(self.genes@.subrange(0, i as int));
                assert(g * g <= 0x4000_0000_0000_0000_0000_0000_0000_0000) by (nonlinear_arith)
                    requires
                        -0x8000_0000_0000_0000 <= g <= 0x7fff_ffff_ffff_ffff,
                ;
                assert(g * g >= 0) by (nonlinear_arith);
            }
            let square = (g * g) as u128;
            acc = if acc + square > cap {
                cap
            } else {
                acc + square
            };
            i = i + 1;
        }
        assert(self.genes@.subrange(0, i as int) =~= self.genes@);
        if acc > u64::MAX as u128 {
            u64::MAX
        } else {
            acc as u64
        }
    }
}

impl Crossover for NumericIndividual {
    /// One-point crossover at a uniform point of this parent.
    fn crossover(&self, other: &Self, rng: &mut Random) -> (r: Self)
        ensures
            exists|p: int|
                0 <= p <= self.genes@.len() && (self.genes@.len() > 0 ==> p < self.genes@.len())
                    && r.genes@ == spliced(self.genes@, other.genes@, p),
    {
        let point = crossover_point(self.genes.len(), rng);
        NumericIndividual { genes: splice(&self.genes, &other.genes, point) }
    }
}

impl Mutate for NumericIndividual {
    /// Moves one uniformly chosen gene by a uniform step in `[-0.1, 0.1)`.
    fn mutate(&mut self, rng: &mut Random)
        ensures
            old(self).genes@.len() == 0 ==> final(self).genes@ == old(self).genes@,
            old(self).genes@.len() > 0 ==> exists|p: int, d: i64|
                0 <= p < old(self).genes@.len() && -GENE_UNIT / 10 <= d < GENE_UNIT / 10
                    && final(self).genes@ == old(self).genes@.update(
                    p,
                    shifted(old(self).genes@[p], d),
                ),
    {
        if self.genes.len() > 0 {
            let p = rng.index(self.genes.len());
            let d = rng.between(-GENE_UNIT / 10, GENE_UNIT / 10);
            let moved = shift(self.genes[p], d);
            self.genes.set(p, moved);
        }
    }
}

impl Neighbor for NumericIndividual {
    /// A copy with every gene moved by its own uniform step in `[-1.0, 1.0)`.
    fn neighbor(&self, rng: &mut Random) -> (r: Self)
        ensures
            r.genes@.len() == self.genes@.len(),
            forall|i: int|
                0 <= i < r.genes@.len() ==> #[trigger] moved_within(
                    self.genes@[i],
                    r.genes@[i],
                    GENE_UNIT,
                ),
    {
        let mut genes: Vec<i64> = Vec::new();
        let mut i: usize = 0;
        while i < self.genes.len()
            invariant
                i <= self.genes@.len(),
                genes@.len() == i,
                forall|j: int|
                    0 <= j < i ==> #[trigger] moved_within(self.genes@[j], genes@[j], GENE_UNIT),
            decreases self.genes@.len() - i,
        {
            let d = rng.between(-GENE_UNIT, GENE_UNIT);
            genes.push(shift(self.genes[i], d));
            assert(moved_within(self.genes@[i as int], genes@[i as int], GENE_UNIT));
            i = i + 1;
        }
        NumericIndividual { genes }
    }
}

impl crate::individual::Default for NumericIndividual {
    /// Five genes drawn uniformly from `[-5.0, 5.0)`.
    fn default(rng: &mut Random) -> (r: Self)
        ensures
            r.genes@.len() == 5,
    {
        NumericIndividual::new(5, rng)
    }
}

} // verus!
