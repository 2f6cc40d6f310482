//! Fitness-proportional ("roulette") choice of an index from integer weights.

use crate::random::Random;
use vstd::prelude::*;

verus! {

/// The sum of the weights.
pub open spec fn weight_sum(w: Seq<u128>) -> int
    decreases w.len(),
{
    if w.len() == 0 {
        0
    } else {
        weight_sum(w.drop_last()) + w.last()
    }
}

/// The weight of the first `i` entries.
pub open spec fn prefix_weight(w: Seq<u128>, i: int) -> int {
    weight_sum(w.subrange(0, i))
}

proof fn lemma_prefix_step(w: Seq<u128>, i: int)
    requires
        0 <= i < w.len(),
    ensures
        prefix_weight(w, i + 1) == prefix_weight(w, i) + w[i],
{
    assert(w.subrange(0, i + 1).drop_last() =~= w.subrange(0, i));
}

proof fn lemma_prefix_monotone(w: Seq<u128>, i: int, j: int)
    requires
        0 <= i <= j <= w.len(),
    ensures
        prefix_weight(w, i) <= prefix_weight(w, j),
    decreases j - i,
{
    if i < j {
        lemma_prefix_step(w, j - 1);
        lemma_prefix_monotone(w, i, j - 1);
    }
}

proof fn lemma_prefix_whole(w: Seq<u128>)
    ensures
        prefix_weight(w, w.len() as int) == weight_sum(w),
{
    assert(w.subrange(0, w.len() as int) =~= w);
}

/// Weights that are each at most `bound` sum to at most `len * bound`.
pub proof fn lemma_bounded_weights_sum(w: Seq<u128>, bound: int)
    requires
        bound >= 0,
        forall|i: int| 0 <= i < w.len() ==> #[trigger] w[i] <= bound,
    ensures
        0 <= weight_sum(w) <= w.len() * bound,
    decreases w.len(),
{
    if w.len() > 0 {
        let p = w.drop_last();
        assert forall|i: int| 0 <= i < p.len() implies #[trigger] p[i] <= bound by {
            assert(p[i] == w[i]);
        }
        lemma_bounded_weights_sum(p, bound);
        assert(w.last() == w[w.len() - 1]);
        assert((p.len() + 1) * bound == p.len() * bound + bound) by (nonlinear_arith);
    }
}

/// The total of the weights.
pub fn total_weight(weights: &Vec<u128>) -> (r: u128)
    requires
        weight_sum(weights@) <= u128::MAX,
    ensures
        r == weight_sum(weights@),
{
    let mut total: u128 = 0;
    let mut i: usize = 0;
    while i < weights.len()
        invariant
            i <= weights@.len(),
            total == prefix_weight(weights@, i as int),
            weight_sum(weights@) <= u128::MAX,
        decreases weights@.len() - i,
    {
        proof {
            lemma_prefix_step(weights@, i as int);
            lemma_prefix_monotone(weights@, i as int + 1, weights@.len() as int);
            lemma_prefix_whole(weights@);
        }
        total = total + weights[i];
        i = i + 1;
    }
    proof {
        lemma_prefix_whole(weights@);
    }
    total
}

/// The index that a draw `pick` from `[0, total)` lands on: the first whose
/// running sum of weights exceeds `pick`. An index of weight zero is never
/// chosen.
pub fn roulette_index(weights: &Vec<u128>, pick: u128) -> (r: usize)
    requires
        pick < weight_sum(weights@),
        weight_sum(weights@) <= u128::MAX,
    ensures
        r < weights@.len(),
        prefix_weight(weights@, r as int) <= pick < prefix_weight(weights@, r as int + 1),
        weights@[r as int] > 0,
{
    let mut running: u128 = 0;
    let mut i: usize = 0;
    proof {
        lemma_prefix_whole(weights@);
    }
    loop
        invariant
            i <= weights@.len(),
            running == prefix_weight(weights@, i as int),
            running <= pick,
            pick < weight_sum(weights@),
            weight_sum(weights@) <= u128::MAX,
            prefix_weight(weights@, weights@.len() as int) == weight_sum(weights@),
        decreases weights@.len() - i,
    {
        if i == weights.len() {
            assert(false);
        }
        proof {
            lemma_prefix_step(weights@, i as int);
            lemma_prefix_monotone(weights@, i as int + 1, weights@.len() as int);
        }
        running = running + weights[i];
        if running > pick {
            return i;
        }
        i = i + 1;
    }
}

/// A draw `pick` from `[0, total)` lands on index `i`.
pub open spec fn lands_on(w: Seq<u128>, pick: int, i: int) -> bool {
    0 <= pick < weight_sum(w) && prefix_weight(w, i) <= pick < prefix_weight(w, i + 1)
}

/// Index `i` is where some draw from `[0, total)` lands.
pub open spec fn picked_by_draw(w: Seq<u128>, i: int) -> bool {
    exists|pick: int| #[trigger] lands_on(w, pick, i)
}

/// A fitness-proportional draw: `None` when the weights sum to zero (nothing
/// can be weighed), else the index that a uniform draw from `[0, total)`
/// lands on, which has positive weight.
pub fn roulette_draw(weights: &Vec<u128>, rng: &mut Random) -> (r: Option<usize>)
    requires
        weight_sum(weights@) <= u128::MAX,
    ensures
        r is None <==> weight_sum(weights@) == 0,
        r matches Some(i) ==> i < weights@.len() && weights@[i as int] > 0 && picked_by_draw(
            weights@,
            i as int,
        ),
{
    let total = total_weight(weights);
    if total == 0 {
        return None;
    }
    let pick = rng.below_wide(total);
    let i = roulette_index(weights, pick);
    assert(lands_on(weights@, pick as int, i as int));
    Some(i)
}

} // verus!
