//! Tally of quantized pitches and their ranking.
//!
//! A histogram holds one occurrence count per pitch. Ranking lists the
//! pitches that occurred at all, ordered by count descending; pitches with
//! equal counts come out in ascending pitch order, so the ranking is a
//! deterministic function of the tallied counts.

use vstd::prelude::*;
use vstd::relations::{sorted_by, total_ordering};
use vstd::seq_lib::group_to_multiset_ensures;
use vstd::seq_lib::lemma_sorted_unique;

verus! {

/// Number of distinct pitches a histogram can tally.
pub const PITCH_COUNT: usize = 128;

/// Ranking order on `(pitch, count)` entries: an entry comes first when its
/// count is larger, and among equal counts when its pitch is lower.
pub open spec fn rank_leq() -> spec_fn((u8, u64), (u8, u64)) -> bool {
    |a: (u8, u64), b: (u8, u64)| a.1 > b.1 || (a.1 == b.1 && a.0 <= b.0)
}

/// The ranking order is a total order, so a ranking is pinned down
/// completely by its entries: two sorted sequences of the same entries
/// are equal.
pub proof fn lemma_rank_leq_total()
    ensures
        total_ordering(rank_leq()),
{
}

/// Two rankings of the same entries agree: sorting by the ranking order
/// leaves no freedom, so ranking is deterministic.
pub proof fn lemma_rank_deterministic(x: Seq<(u8, u64)>, y: Seq<(u8, u64)>)
    requires
        sorted_by(x, rank_leq()),
        sorted_by(y, rank_leq()),
        x.to_multiset() == y.to_multiset(),
    ensures
        x == y,
{
    lemma_rank_leq_total();
    lemma_sorted_unique(x, y, rank_leq());
}

/// The `(pitch, count)` entries among pitches `0 .. n` whose count is not
/// zero, in ascending pitch order.
pub open spec fn entries_upto(counts: Seq<u64>, n: int) -> Seq<(u8, u64)>
    decreases n,
{
    if n <= 0 {
        Seq::empty()
    } else if counts[n - 1] > 0 {
        entries_upto(counts, n - 1).push(((n - 1) as u8, counts[n - 1]))
    } else {
        entries_upto(counts, n - 1)
    }
}

/// Every entry of `entries_upto` records the nonzero count of its pitch,
/// and every pitch with a nonzero count has its entry.
pub proof fn lemma_entries_upto_props(counts: Seq<u64>, n: int)
    requires
        0 <= n <= counts.len(),
        n <= 128,
    ensures
        forall|i: int|
            0 <= i < entries_upto(counts, n).len() ==> {
                let e = #[trigger] entries_upto(counts, n)[i];
                &&& (e.0 as int) < n
                &&& e.1 == counts[e.0 as int]
                &&& e.1 > 0
            },
        forall|q: int|
            0 <= q < n && counts[q] > 0 ==> entries_upto(counts, n).contains(
                ((q as u8), counts[q]),
            ),
    decreases n,
{
    if n > 0 {
        lemma_entries_upto_props(counts, n - 1);
        let prev = entries_upto(counts, n - 1);
        let cur = entries_upto(counts, n);
        if counts[n - 1] > 0 {
            assert(cur == prev.push((((n - 1) as u8), counts[n - 1])));
        } else {
            assert(cur == prev);
        }
        assert forall|i: int| 0 <= i < cur.len() implies {
            let e = #[trigger] cur[i];
            &&& (e.0 as int) < n
            &&& e.1 == counts[e.0 as int]
            &&& e.1 > 0
        } by {
            if i < prev.len() {
                assert(cur[i] == prev[i]);
                let e = prev[i];
                assert((e.0 as int) < n - 1 && e.1 == counts[e.0 as int] && e.1 > 0);
            } else {
                assert(counts[n - 1] > 0 && cur[i] == (((n - 1) as u8), counts[n - 1]));
            }
        }
        assert forall|q: int| 0 <= q < n && counts[q] > 0 implies #[trigger] cur.contains(
            ((q as u8), counts[q]),
        ) by {
            if q < n - 1 {
                assert(prev.contains(((q as u8), counts[q])));
                let i = choose|i: int| 0 <= i < prev.len() && prev[i] == ((q as u8), counts[q]);
                assert(cur[i] == ((q as u8), counts[q]));
            } else {
                assert(cur[cur.len() - 1] == (((n - 1) as u8), counts[n - 1]));
            }
        }
    }
}

/// Occurrence counts of the 128 pitches.
pub struct Histogram {
    counts: Vec<u64>,
}

impl Histogram {
    /// A histogram always holds one count per pitch.
    pub closed spec fn well_formed(self) -> bool {
        self.counts@.len() == PITCH_COUNT
    }

    /// Count tallied so far for pitch `p`.
    pub closed spec fn count_of(self, p: int) -> u64 {
        self.counts@[p]
    }

    /// The nonzero `(pitch, count)` entries in ascending pitch order.
    pub closed spec fn entries(self) -> Seq<(u8, u64)> {
        entries_upto(self.counts@, PITCH_COUNT as int)
    }

    /// An empty histogram: every pitch has count zero.
    pub fn new() -> (r: Histogram)
        ensures
            r.well_formed(),
            forall|p: int| 0 <= p < PITCH_COUNT ==> r.count_of(p) == 0,
    {
        let mut counts: Vec<u64> = Vec::new();
        for i in 0..PITCH_COUNT
            invariant
                counts@.len() == i,
                forall|k: int| 0 <= k < i ==> counts@[k] == 0,
        {
            counts.push(0);
        }
        Histogram { counts }
    }

    /// Adds one occurrence of `pitch`; every other count is unchanged.
    pub fn increment(&mut self, pitch: u8)
        requires
            old(self).well_formed(),
            pitch < 128,
            old(self).count_of(pitch as int) < u64::MAX,
        ensures
            final(self).well_formed(),
            final(self).count_of(pitch as int) == old(self).count_of(pitch as int) + 1,
            forall|p: int|
                0 <= p < PITCH_COUNT && p != pitch ==> final(self).count_of(p) == old(
                    self,
                ).count_of(p),
    {
        let c = self.counts[pitch as usize];
        self.counts.set(pitch as usize, c + 1);
    }

    /// The pitches seen so far with their counts, ordered by count
    /// descending; pitches with equal counts come in ascending pitch order.
    pub fn rank(&self) -> (r: Vec<(u8, u64)>)
        requires
            self.well_formed(),
        ensures
            sorted_by(r@, rank_leq()),
            r@.to_multiset() == self.entries().to_multiset(),
            forall|i: int|
                0 <= i < r@.len() ==> {
                    let e = #[trigger] r@[i];
                    &&& (e.0 as int) < PITCH_COUNT
                    &&& e.1 == self.count_of(e.0 as int)
                    &&& e.1 > 0
                },
            forall|p: int|
                0 <= p < PITCH_COUNT && self.count_of(p) > 0 ==> r@.contains(
                    ((p as u8), self.count_of(p)),
                ),
    {
        let mut pairs: Vec<(u8, u64)> = Vec::new();
        for p in 0..PITCH_COUNT
            invariant
                self.well_formed(),
                pairs@ == entries_upto(self.counts@, p as int),
        {
            let c = self.counts[p];
            if c > 0 {
                pairs.push((p as u8, c));
            }
        }
        let r = sort_pairs(&pairs);
        proof {
            broadcast use group_to_multiset_ensures;

            lemma_entries_upto_props(self.counts@, PITCH_COUNT as int);
            assert forall|i: int| 0 <= i < r@.len() implies {
                let e = #[trigger] r@[i];
                &&& (e.0 as int) < PITCH_COUNT
                &&& e.1 == self.count_of(e.0 as int)
                &&& e.1 > 0
            } by {
                assert(r@.contains(r@[i]));
                assert(r@.to_multiset().contains(r@[i]));
                assert(self.entries().contains(r@[i]));
            }
            assert forall|p: int|
                0 <= p < PITCH_COUNT && self.count_of(p) > 0 implies r@.contains(
                ((p as u8), self.count_of(p)),
            ) by {
                assert(self.entries().contains(((p as u8), self.count_of(p))));
                assert(self.entries().to_multiset().contains(((p as u8), self.count_of(p))));
            }
        }
        r
    }

    /// The first `k` entries of the ranking, or the whole ranking when
    /// fewer pitches occurred.
    pub fn top_k(&self, k: usize) -> (r: Vec<(u8, u64)>)
        requires
            self.well_formed(),
        ensures
            exists|full: Seq<(u8, u64)>|
                {
                    &&& sorted_by(full, rank_leq())
                    &&& full.to_multiset() == self.entries().to_multiset()
                    &&& r@ == full.subrange(0, if k <= full.len() {
                        k as int
                    } else {
                        full.len() as int
                    })
                },
    {
        let full = self.rank();
        let end = if k <= full.len() {
            k
        } else {
            full.len()
        };
        let mut out: Vec<(u8, u64)> = Vec::new();
        for i in 0..end
            invariant
                end <= full@.len(),
                out@ == full@.subrange(0, i as int),
        {
            out.push(full[i]);
            proof {
                assert(out@ =~= full@.subrange(0, i + 1));
            }
        }
        proof {
            let full_view = full@;
            assert(sorted_by(full_view, rank_leq()) && full_view.to_multiset()
                == self.entries().to_multiset() && out@ == full_view.subrange(
                0,
                if k <= full_view.len() {
                    k as int
                } else {
                    full_view.len() as int
                },
            ));
        }
        out
    }
}

/// Ranking comparison on two entries.
fn rank_le(a: (u8, u64), b: (u8, u64)) -> (r: bool)
    ensures
        r == rank_leq()(a, b),
{
    a.1 > b.1 || (a.1 == b.1 && a.0 <= b.0)
}

/// Index where `x` belongs in the sorted sequence `v`: everything before
/// it comes no later than `x` in the ranking order, and the entry at the
/// index (if any) comes strictly after `x`.
fn insert_pos(v: &Vec<(u8, u64)>, x: (u8, u64)) -> (j: usize)
    ensures
        j <= v@.len(),
        forall|k: int| 0 <= k < j ==> #[trigger] rank_leq()(v@[k], x),
        j < v@.len() ==> !rank_leq()(v@[j as int], x),
{
    let n = v.len();
    for j in 0..n
        invariant
            n == v@.len(),
            forall|k: int| 0 <= k < j ==> #[trigger] rank_leq()(v@[k], x),
    {
        if !rank_le(v[j], x) {
            return j;
        }
    }
    n
}

/// Insertion sort of the entries by the ranking order.
fn sort_pairs(v: &Vec<(u8, u64)>) -> (r: Vec<(u8, u64)>)
    ensures
        sorted_by(r@, rank_leq()),
        r@.to_multiset() == v@.to_multiset(),
{
    let n = v.len();
    let mut out: Vec<(u8, u64)> = Vec::new();
    proof {
        broadcast use group_to_multiset_ensures;

        assert(v@.subrange(0, 0) =~= Seq::<(u8, u64)>::empty());
        assert(out@ =~= Seq::<(u8, u64)>::empty());
    }
    for i in 0..n
        invariant
            n == v@.len(),
            sorted_by(out@, rank_leq()),
            out@.to_multiset() == v@.subrange(0, i as int).to_multiset(),
    {
        let x = v[i];
        let j = insert_pos(&out, x);
        let ghost prev = out@;
        out.insert(j, x);
        proof {
            broadcast use group_to_multiset_ensures;

            assert(v@.subrange(0, i + 1) =~= v@.subrange(0, i as int).push(v@[i as int]));
            assert(out@ =~= prev.subrange(0, j as int) + seq![x] + prev.subrange(
                j as int,
                prev.len() as int,
            ));
            assert forall|a: int, b: int| 0 <= a < b < out@.len() implies #[trigger] rank_leq()(
                out@[a],
                out@[b],
            ) by {
                lemma_rank_leq_total();
                if a < j && b == j {
                    assert(rank_leq()(prev[a], x));
                } else if a == j && b > j {
                    assert(!rank_leq()(prev[j as int], x));
                    assert(rank_leq()(x, prev[j as int]));
                    if b - 1 > j {
                        assert(rank_leq()(prev[j as int], prev[b - 1]));
                    }
                } else if a < j && b > j {
                    assert(rank_leq()(prev[a], prev[b - 1]));
                } else if a != j && b != j {
                    assert(rank_leq()(prev[if a < j {
                        a
                    } else {
                        a - 1
                    }], prev[if b < j {
                        b
                    } else {
                        b - 1
                    }]));
                }
            }
        }
    }
    proof {
        assert(v@.subrange(0, n as int) =~= v@);
    }
    out
}

} // verus!
