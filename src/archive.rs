//! A bounded store of the best candidates seen so far, sorted by fitness.

use crate::errors::ConfigError;
use crate::individual::Individual;
use vstd::prelude::*;

verus! {

/// Entries ordered by fitness, lowest first.
pub open spec fn sorted_by_fitness<I>(s: Seq<(I, u64)>) -> bool {
    forall|i: int, j: int|
        0 <= i < j < s.len() ==> #[trigger] s[i].1 <= #[trigger] s[j].1
}

/// How many entries of `s` have a fitness of at most `f`.
pub open spec fn count_at_most<I>(s: Seq<(I, u64)>, f: u64) -> nat
    decreases s.len(),
{
    if s.len() == 0 {
        0
    } else {
        count_at_most(s.drop_last(), f) + (if s.last().1 <= f { 1nat } else { 0nat })
    }
}

/// The entries after `x` is added: inserted after every entry whose fitness
/// is at most its own (so that equal fitness keeps the order of insertion),
/// and the worst entry dropped when that exceeds `capacity`.
pub open spec fn with_entry<I>(s: Seq<(I, u64)>, x: (I, u64), capacity: nat) -> Seq<(I, u64)> {
    let t = s.insert(count_at_most(s, x.1) as int, x);
    if t.len() > capacity {
        t.subrange(0, capacity as int)
    } else {
        t
    }
}

/// The entries of an archive of `capacity` that started empty and was given
/// `additions` (each a candidate and its fitness) in order.
pub open spec fn archive_after<I>(capacity: nat, additions: Seq<(I, u64)>) -> Seq<(I, u64)>
    decreases additions.len(),
{
    if additions.len() == 0 {
        Seq::empty()
    } else {
        with_entry(archive_after(capacity, additions.drop_last()), additions.last(), capacity)
    }
}

/// The entries of an archive that held `start` and was then given
/// `additions` in order.
pub open spec fn archive_fold<I>(capacity: nat, start: Seq<(I, u64)>, additions: Seq<(I, u64)>) -> Seq<(I, u64)>
    decreases additions.len(),
{
    if additions.len() == 0 {
        start
    } else {
        with_entry(archive_fold(capacity, start, additions.drop_last()), additions.last(), capacity)
    }
}

/// The entries after each round of additions in turn.
pub open spec fn fold_rounds<I>(
    capacity: nat,
    start: Seq<(I, u64)>,
    rounds: Seq<Seq<(I, u64)>>,
) -> Seq<(I, u64)>
    decreases rounds.len(),
{
    if rounds.len() == 0 {
        start
    } else {
        archive_fold(capacity, fold_rounds(capacity, start, rounds.drop_last()), rounds.last())
    }
}

/// One more round extends the fold of rounds by that round.
pub proof fn lemma_rounds_push<I>(
    capacity: nat,
    start: Seq<(I, u64)>,
    rounds: Seq<Seq<(I, u64)>>,
    round: Seq<(I, u64)>,
)
    ensures
        fold_rounds(capacity, start, rounds.push(round)) == archive_fold(
            capacity,
            fold_rounds(capacity, start, rounds),
            round,
        ),
{
    assert(rounds.push(round).drop_last() =~= rounds);
}

/// Folding additions into an empty archive gives `archive_after`, so the
/// laws stated of `archive_after` hold of every run that starts empty.
pub proof fn lemma_fold_from_empty<I>(capacity: nat, additions: Seq<(I, u64)>)
    ensures
        archive_fold(capacity, Seq::empty(), additions) == archive_after(capacity, additions),
    decreases additions.len(),
{
    if additions.len() > 0 {
        lemma_fold_from_empty(capacity, additions.drop_last());
    }
}

/// One more addition extends the fold by one step.
pub proof fn lemma_fold_push<I>(capacity: nat, start: Seq<(I, u64)>, additions: Seq<(I, u64)>, x: (I, u64))
    ensures
        archive_fold(capacity, start, additions.push(x)) == with_entry(
            archive_fold(capacity, start, additions),
            x,
            capacity,
        ),
{
    assert(additions.push(x).drop_last() =~= additions);
}

/// Additions in two runs fold as one run of both.
pub proof fn lemma_fold_concat<I>(capacity: nat, start: Seq<(I, u64)>, a: Seq<(I, u64)>, b: Seq<(I, u64)>)
    ensures
        archive_fold(capacity, start, a + b) == archive_fold(
            capacity,
            archive_fold(capacity, start, a),
            b,
        ),
    decreases b.len(),
{
    if b.len() == 0 {
        assert(a + b =~= a);
    } else {
        assert((a + b).drop_last() =~= a + b.drop_last());
        assert((a + b).last() == b.last());
        lemma_fold_concat(capacity, start, a, b.drop_last());
    }
}

/// A store that keeps the best candidates offered to it, each with its
/// fitness.
pub trait Archive {
    type Solution: Individual;

    /// The entries held, each a candidate and its fitness, best first.
    spec fn entries(&self) -> Seq<(Self::Solution, u64)>;

    /// The largest number of entries held.
    spec fn capacity(&self) -> nat;

    spec fn wf(&self) -> bool;

    /// Inserts `solution` with its `fitness` in fitness order and drops the
    /// worst entry on overflow.
    fn add(&mut self, solution: Self::Solution, fitness: u64)
        requires
            old(self).wf(),
        ensures
            final(self).wf(),
            final(self).capacity() == old(self).capacity(),
            final(self).capacity() >= 1,
            final(self).entries().len() <= final(self).capacity(),
            sorted_by_fitness(final(self).entries()),
            final(self).entries() == with_entry(
                old(self).entries(),
                (solution, fitness),
                old(self).capacity(),
            ),
    ;

    /// The candidate with the lowest fitness, if any.
    fn get_best(&self) -> (r: Option<&Self::Solution>)
        requires
            self.wf(),
        ensures
            match r {
                None => self.entries().len() == 0,
                Some(b) => {
                    &&& self.entries().len() > 0
                    &&& *b == self.entries()[0].0
                    &&& forall|i: int|
                        0 <= i < self.entries().len() ==> self.entries()[0].1
                            <= #[trigger] self.entries()[i].1
                },
            },
    ;
}

/// An archive that keeps its entries in a vector sorted by fitness.
pub struct BasicArchive<I: Individual> {
    capacity: usize,
    entries: Vec<(I, u64)>,
}

impl<I: Individual> BasicArchive<I> {
    /// An empty archive of `capacity` entries; a capacity of zero is refused.
    pub fn new(capacity: usize) -> (r: Result<BasicArchive<I>, ConfigError>)
        ensures
            match r {
                Ok(a) => {
                    &&& capacity >= 1
                    &&& a.wf()
                    &&& a.capacity() == capacity
                    &&& a.entries().len() == 0
                },
                Err(e) => capacity == 0 && e == ConfigError::ZeroCapacity,
            },
    {
        if capacity == 0 {
            return Err(ConfigError::ZeroCapacity);
        }
        Ok(BasicArchive { capacity, entries: Vec::new() })
    }

    /// The number of entries held.
    pub fn len(&self) -> (r: usize)
        ensures
            r == self.entries().len(),
    {
        self.entries.len()
    }

    /// The candidate at `index`, best first.
    pub fn get(&self, index: usize) -> (r: Option<&I>)
        ensures
            match r {
                None => index >= self.entries().len(),
                Some(e) => index < self.entries().len() && *e == self.entries()[index as int].0,
            },
    {
        if index < self.entries.len() {
            Some(&self.entries[index].0)
        } else {
            None
        }
    }

    /// The fitness recorded with the entry at `index`.
    pub fn fitness_at(&self, index: usize) -> (r: Option<u64>)
        ensures
            match r {
                None => index >= self.entries().len(),
                Some(f) => index < self.entries().len() && f == self.entries()[index as int].1,
            },
    {
        if index < self.entries.len() {
            Some(self.entries[index].1)
        } else {
            None
        }
    }
}

impl<I: Individual> Archive for BasicArchive<I> {
    type Solution = I;

    closed spec fn entries(&self) -> Seq<(I, u64)> {
        self.entries@
    }

    closed spec fn capacity(&self) -> nat {
        self.capacity as nat
    }

    closed spec fn wf(&self) -> bool {
        &&& self.capacity >= 1
        &&& self.entries@.len() <= self.capacity
        &&& sorted_by_fitness(self.entries@)
    }

    fn add(&mut self, solution: I, fitness: u64) {
        let ghost s = self.entries@;
        let mut i: usize = 0;
        while i < self.entries.len() && self.entries[i].1 <= fitness
            invariant
                self.entries@ == s,
                i <= s.len(),
                forall|j: int| 0 <= j < i ==> #[trigger] s[j].1 <= fitness,
            decreases s.len() - i,
        {
            i = i + 1;
        }
        proof {
            lemma_count_sorted_prefix(s, fitness, i as int);
        }
        self.entries.insert(i, (solution, fitness));
        proof {
            lemma_with_entry(s, (solution, fitness), self.capacity as nat, 0);
        }
        if self.entries.len() > self.capacity {
            self.entries.pop();
            proof {
                assert(self.entries@ =~= s.insert(i as int, (solution, fitness)).subrange(
                    0,
                    self.capacity as int,
                ));
            }
        }
    }

    fn get_best(&self) -> (r: Option<&I>) {
        if self.entries.len() == 0 {
            None
        } else {
            Some(&self.entries[0].0)
        }
    }
}

/// In a sorted sequence, the entries of fitness at most `f` are exactly the
/// first `i`, where `i` is the first position past them.
proof fn lemma_count_sorted_prefix<I>(s: Seq<(I, u64)>, f: u64, i: int)
    requires
        sorted_by_fitness(s),
        0 <= i <= s.len(),
        forall|j: int| 0 <= j < i ==> #[trigger] s[j].1 <= f,
        i < s.len() ==> s[i].1 > f,
    ensures
        count_at_most(s, f) == i,
    decreases s.len(),
{
    if s.len() > 0 {
        let p = s.drop_last();
        if i == s.len() {
            assert forall|a: int, b: int| 0 <= a < b < p.len() implies #[trigger] p[a].1
                <= #[trigger] p[b].1 by {
                assert(p[a] == s[a] && p[b] == s[b]);
            }
            assert forall|j: int| 0 <= j < i - 1 implies #[trigger] p[j].1 <= f by {
                assert(p[j] == s[j]);
            }
            lemma_count_sorted_prefix(p, f, i - 1);
        } else {
            assert(s.last().1 >= s[i].1);
            assert forall|a: int, b: int| 0 <= a < b < p.len() implies #[trigger] p[a].1
                <= #[trigger] p[b].1 by {
                assert(p[a] == s[a] && p[b] == s[b]);
            }
            assert forall|j: int| 0 <= j < i implies #[trigger] p[j].1 <= f by {
                assert(p[j] == s[j]);
            }
            if i < p.len() {
                assert(p[i] == s[i]);
            }
            lemma_count_sorted_prefix(p, f, i);
        }
    }
}


/// Below position `count_at_most(s, f)` of a sorted sequence every fitness is
/// at most `f`; from it on every fitness exceeds `f`.
proof fn lemma_sorted_split<I>(s: Seq<(I, u64)>, f: u64)
    requires
        sorted_by_fitness(s),
    ensures
        count_at_most(s, f) <= s.len(),
        forall|j: int| 0 <= j < count_at_most(s, f) ==> #[trigger] s[j].1 <= f,
        forall|j: int| count_at_most(s, f) <= j < s.len() ==> #[trigger] s[j].1 > f,
    decreases s.len(),
{
    if s.len() > 0 {
        let p = s.drop_last();
        assert forall|a: int, b: int| 0 <= a < b < p.len() implies #[trigger] p[a].1
            <= #[trigger] p[b].1 by {
            assert(p[a] == s[a] && p[b] == s[b]);
        }
        lemma_sorted_split(p, f);
        if s.last().1 <= f {
            assert forall|j: int| 0 <= j < count_at_most(s, f) implies #[trigger] s[j].1
                <= f by {
                if j < s.len() - 1 {
                    assert(s[j].1 <= s[s.len() - 1].1);
                }
            }
        } else {
            assert forall|j: int| 0 <= j < count_at_most(s, f) implies #[trigger] s[j].1
                <= f by {
                assert(p[j] == s[j]);
            }
            assert forall|j: int| count_at_most(s, f) <= j < s.len() implies #[trigger] s[j].1
                > f by {
                if j < s.len() - 1 {
                    assert(p[j] == s[j]);
                }
            }
        }
    }
}

proof fn lemma_count_bounded<I>(s: Seq<(I, u64)>, f: u64)
    ensures
        count_at_most(s, f) <= s.len(),
    decreases s.len(),
{
    if s.len() > 0 {
        lemma_count_bounded(s.drop_last(), f);
    }
}

proof fn lemma_count_all<I>(s: Seq<(I, u64)>, f: u64)
    requires
        forall|j: int| 0 <= j < s.len() ==> #[trigger] s[j].1 <= f,
    ensures
        count_at_most(s, f) == s.len(),
    decreases s.len(),
{
    if s.len() > 0 {
        let p = s.drop_last();
        assert forall|j: int| 0 <= j < p.len() implies #[trigger] p[j].1 <= f by {
            assert(p[j] == s[j]);
        }
        lemma_count_all(p, f);
    }
}

proof fn lemma_count_concat<I>(a: Seq<(I, u64)>, b: Seq<(I, u64)>, f: u64)
    ensures
        count_at_most(a + b, f) == count_at_most(a, f) + count_at_most(b, f),
    decreases b.len(),
{
    if b.len() == 0 {
        assert(a + b =~= a);
    } else {
        assert((a + b).drop_last() =~= a + b.drop_last());
        lemma_count_concat(a, b.drop_last(), f);
    }
}

/// A positive count means that some entry has a fitness of at most `f`.
proof fn lemma_count_witness<I>(s: Seq<(I, u64)>, f: u64)
    requires
        count_at_most(s, f) > 0,
    ensures
        exists|k: int| 0 <= k < s.len() && #[trigger] s[k].1 <= f,
    decreases s.len(),
{
    let p = s.drop_last();
    if s.last().1 <= f {
        assert(s[s.len() - 1].1 <= f);
    } else {
        lemma_count_witness(p, f);
        let k = choose|k: int| 0 <= k < p.len() && #[trigger] p[k].1 <= f;
        assert(s[k] == p[k]);
    }
}

/// An entry with a fitness of at most `f` makes the count positive.
proof fn lemma_count_member<I>(s: Seq<(I, u64)>, f: u64, k: int)
    requires
        0 <= k < s.len(),
        s[k].1 <= f,
    ensures
        count_at_most(s, f) > 0,
    decreases s.len(),
{
    if k < s.len() - 1 {
        let p = s.drop_last();
        assert(p[k] == s[k]);
        lemma_count_member(p, f, k);
    }
}

/// Every entry after an addition is the added candidate or was held before,
/// whatever order the entries were in.
pub proof fn lemma_with_entry_members<I>(s: Seq<(I, u64)>, x: (I, u64), capacity: nat)
    ensures
        forall|i: int|
            0 <= i < with_entry(s, x, capacity).len() ==> #[trigger] with_entry(s, x, capacity)[i]
                == x || s.contains(with_entry(s, x, capacity)[i]),
{
    let p = count_at_most(s, x.1) as int;
    lemma_count_bounded(s, x.1);
    let u = s.insert(p, x);
    let w = with_entry(s, x, capacity);
    assert forall|i: int| 0 <= i < w.len() implies #[trigger] w[i] == x || s.contains(w[i]) by {
        assert(w[i] == u[i]);
        if i < p {
            assert(u[i] == s[i]);
        } else if i > p {
            assert(u[i] == s[i - 1]);
        }
    }
}

/// Insertion at the position that `with_entry` picks keeps the order.
proof fn lemma_insert_sorted<I>(s: Seq<(I, u64)>, x: (I, u64))
    requires
        sorted_by_fitness(s),
    ensures
        sorted_by_fitness(s.insert(count_at_most(s, x.1) as int, x)),
        forall|i: int|
            0 <= i < s.len() + 1 ==> #[trigger] s.insert(
                count_at_most(s, x.1) as int,
                x,
            )[i] == x || s.contains(s.insert(count_at_most(s, x.1) as int, x)[i]),
{
    let f = x.1;
    let p = count_at_most(s, f) as int;
    lemma_sorted_split(s, f);
    let u = s.insert(p, x);
    assert forall|a: int, b: int| 0 <= a < b < u.len() implies #[trigger] u[a].1
        <= #[trigger] u[b].1 by {
        if a < p && b > p {
            assert(u[b] == s[b - 1]);
            assert(s[a].1 <= s[b - 1].1);
        } else if a < p && b == p {
        } else if b > p {
            assert(u[b] == s[b - 1]);
            if a > p {
                assert(u[a] == s[a - 1]);
            }
        }
    }
    assert forall|i: int| 0 <= i < s.len() + 1 implies #[trigger] u[i] == x || s.contains(u[i]) by {
        if i < p {
            assert(u[i] == s[i]);
        } else if i > p {
            assert(u[i] == s[i - 1]);
        }
    }
}

/// Inserting one entry anywhere adds it to the count, if it qualifies.
proof fn lemma_insert_count<I>(s: Seq<(I, u64)>, x: (I, u64), p: int, t: u64)
    requires
        0 <= p <= s.len(),
    ensures
        count_at_most(s.insert(p, x), t) == count_at_most(s, t) + (if x.1 <= t {
            1nat
        } else {
            0nat
        }),
{
    let a = s.subrange(0, p);
    let b = s.subrange(p, s.len() as int);
    assert(s.insert(p, x) =~= a + seq![x] + b);
    assert(s =~= a + b);
    lemma_count_concat(a, b, t);
    lemma_count_concat(a + seq![x], b, t);
    lemma_count_concat(a, seq![x], t);
    assert(seq![x].drop_last() =~= Seq::<(I, u64)>::empty());
    assert(seq![x].last() == x);
    assert(count_at_most(Seq::<(I, u64)>::empty(), t) == 0);
    assert(count_at_most(seq![x], t) == (if x.1 <= t { 1nat } else { 0nat }));
}

/// What one addition does to a well-formed sequence of entries.
proof fn lemma_with_entry<I>(s: Seq<(I, u64)>, x: (I, u64), capacity: nat, t: u64)
    requires
        sorted_by_fitness(s),
        s.len() <= capacity,
        capacity >= 1,
    ensures
        sorted_by_fitness(with_entry(s, x, capacity)),
        with_entry(s, x, capacity).len() == vstd::math::min(capacity as int, s.len() + 1int),
        forall|i: int|
            0 <= i < with_entry(s, x, capacity).len() ==> #[trigger] with_entry(s, x, capacity)[i]
                == x || s.contains(with_entry(s, x, capacity)[i]),
        count_at_most(with_entry(s, x, capacity), t) == vstd::math::min(
            capacity as int,
            count_at_most(s, t) + (if x.1 <= t { 1int } else { 0int }),
        ),
{
    let p = count_at_most(s, x.1) as int;
    lemma_count_bounded(s, x.1);
    lemma_insert_sorted(s, x);
    lemma_insert_count(s, x, p, t);
    let u = s.insert(p, x);
    let w = with_entry(s, x, capacity);
    if u.len() > capacity {
        assert(w =~= u.drop_last());
        assert forall|a: int, b: int| 0 <= a < b < w.len() implies #[trigger] w[a].1
            <= #[trigger] w[b].1 by {
            assert(w[a] == u[a] && w[b] == u[b]);
        }
        assert forall|i: int| 0 <= i < w.len() implies #[trigger] w[i] == x || s.contains(w[i]) by {
            assert(w[i] == u[i]);
        }
        if u.last().1 <= t {
            assert forall|j: int| 0 <= j < w.len() implies #[trigger] w[j].1 <= t by {
                assert(w[j] == u[j]);
                assert(u[j].1 <= u[u.len() - 1].1);
            }
            lemma_count_all(w, t);
        } else {
            lemma_count_bounded(w, t);
        }
    } else {
        lemma_count_bounded(u, t);
    }
}

/// Whatever additions an archive of capacity `capacity` receives, its entries
/// stay sorted by fitness, it holds `min(capacity, additions)` of them, each of
/// them one of the additions, and for every fitness bound `t` it holds
/// exactly as many entries of fitness at most `t` as the additions had, up to
/// the capacity: the entries kept are the best ones. Its first entry has the
/// lowest fitness of all additions.
pub proof fn lemma_archive_keeps_best<I>(capacity: nat, additions: Seq<(I, u64)>, t: u64)
    requires
        capacity >= 1,
    ensures
        sorted_by_fitness(archive_after(capacity, additions)),
        archive_after(capacity, additions).len() == vstd::math::min(
            capacity as int,
            additions.len() as int,
        ),
        forall|i: int|
            0 <= i < archive_after(capacity, additions).len() ==> additions.contains(
                #[trigger] archive_after(capacity, additions)[i],
            ),
        count_at_most(archive_after(capacity, additions), t) == vstd::math::min(
            capacity as int,
            count_at_most(additions, t) as int,
        ),
        additions.len() > 0 ==> forall|j: int|
            0 <= j < additions.len() ==> archive_after(capacity, additions)[0].1
                <= #[trigger] additions[j].1,
    decreases additions.len(),
{
    if additions.len() > 0 {
        let prev = additions.drop_last();
        let a = archive_after(capacity, prev);
        let x = additions.last();
        lemma_archive_keeps_best(capacity, prev, t);
        lemma_with_entry(a, x, capacity, t);
        let w = archive_after(capacity, additions);
        assert forall|i: int| 0 <= i < w.len() implies additions.contains(#[trigger] w[i]) by {
            if w[i] == x {
                assert(additions[additions.len() - 1] == x);
            } else {
                let k = choose|k: int| 0 <= k < a.len() && a[k] == w[i];
                assert(prev.contains(a[k]));
                let m = choose|m: int| 0 <= m < prev.len() && prev[m] == a[k];
                assert(additions[m] == prev[m]);
            }
        }
        assert forall|j: int| 0 <= j < additions.len() implies w[0].1
            <= #[trigger] additions[j].1 by {
            let fj = additions[j].1;
            lemma_archive_keeps_best(capacity, prev, fj);
            lemma_with_entry(a, x, capacity, fj);
            lemma_count_member(additions, fj, j);
            lemma_count_witness(w, fj);
            let k = choose|k: int| 0 <= k < w.len() && #[trigger] w[k].1 <= fj;
            if k > 0 {
                assert(w[0].1 <= w[k].1);
            }
        }
    }
}

/// The best entry never gets worse: after any further additions, the first
/// entry's fitness is at most what it was after the first `m` of them.
pub proof fn lemma_best_never_worsens<I>(capacity: nat, additions: Seq<(I, u64)>, m: int)
    requires
        capacity >= 1,
        0 < m <= additions.len(),
    ensures
        archive_after(capacity, additions)[0].1 <= archive_after(
            capacity,
            additions.subrange(0, m),
        )[0].1,
{
    let prefix = additions.subrange(0, m);
    lemma_archive_keeps_best(capacity, prefix, 0);
    lemma_archive_keeps_best(capacity, additions, 0);
    let b = archive_after(capacity, prefix)[0];
    assert(prefix.contains(b));
    let j = choose|j: int| 0 <= j < prefix.len() && prefix[j] == b;
    assert(additions[j] == prefix[j]);
}

} // verus!
