//! Statistics of lengths: what the accumulators of strings and of arrays share.

use vstd::prelude::*;

verus! {

/// How many lengths were seen, the least, the greatest, and their sum.
pub struct LenStats {
    pub count: nat,
    pub min: nat,
    pub max: nat,
    pub sum: nat,
}

/// The sum of `lengths`.
pub open spec fn total(lengths: Seq<nat>) -> nat {
    lengths.fold_left(0nat, |sum: nat, length: nat| sum + length)
}

/// `lengths[at]` is the least of `lengths`, and the first of that length.
pub open spec fn first_shortest(lengths: Seq<nat>, at: int) -> bool {
    &&& 0 <= at < lengths.len()
    &&& forall|i: int| 0 <= i < lengths.len() ==> lengths[at] <= #[trigger] lengths[i]
    &&& forall|i: int| 0 <= i < at ==> lengths[at] < #[trigger] lengths[i]
}

/// `lengths[at]` is the greatest of `lengths`, and the first of that length.
pub open spec fn first_longest(lengths: Seq<nat>, at: int) -> bool {
    &&& 0 <= at < lengths.len()
    &&& forall|i: int| 0 <= i < lengths.len() ==> #[trigger] lengths[i] <= lengths[at]
    &&& forall|i: int| 0 <= i < at ==> #[trigger] lengths[i] < lengths[at]
}

impl LenStats {
    /// Before the first length.
    pub open spec fn empty() -> LenStats {
        LenStats { count: 0, min: 0, max: 0, sum: 0 }
    }

    /// After one more length. The first length is both least and greatest.
    pub open spec fn observe(self, length: nat) -> LenStats {
        LenStats {
            count: self.count + 1,
            min: if self.count == 0 || length < self.min {
                length
            } else {
                self.min
            },
            max: if self.count == 0 || length > self.max {
                length
            } else {
                self.max
            },
            sum: self.sum + length,
        }
    }

    /// After all of `lengths`, one after the other.
    pub open spec fn observe_all(self, lengths: Seq<nat>) -> LenStats {
        lengths.fold_left(self, |stats: LenStats, length: nat| stats.observe(length))
    }
}

/// Fed `lengths`, an accumulator holds how many they are and their sum.
pub proof fn lemma_len_totals(lengths: Seq<nat>)
    ensures
        LenStats::empty().observe_all(lengths).count == lengths.len(),
        LenStats::empty().observe_all(lengths).sum == total(lengths),
    decreases lengths.len(),
{
    if lengths.len() > 0 {
        lemma_len_totals(lengths.drop_last());
    }
}

/// Fed `lengths`, an accumulator holds the true minimum and the true maximum;
/// the first position of each is returned.
pub proof fn lemma_len_extremes(lengths: Seq<nat>) -> (at: (int, int))
    requires
        lengths.len() > 0,
    ensures
        first_shortest(lengths, at.0),
        first_longest(lengths, at.1),
        LenStats::empty().observe_all(lengths).min == lengths[at.0],
        LenStats::empty().observe_all(lengths).max == lengths[at.1],
    decreases lengths.len(),
{
    let before = lengths.drop_last();
    let last = lengths.last();
    if before.len() == 0 {
        (0, 0)
    } else {
        let found = lemma_len_extremes(before);
        let stats = LenStats::empty().observe_all(before);
        assert(forall|i: int| 0 <= i < before.len() ==> before[i] == lengths[i]);
        let low = if last < stats.min { lengths.len() - 1 } else { found.0 };
        let high = if last > stats.max { lengths.len() - 1 } else { found.1 };
        (low, high)
    }
}

/// What an accumulator holds does not depend on the order of the lengths.
pub proof fn lemma_len_any_order(one: Seq<nat>, other: Seq<nat>)
    requires
        one.to_multiset() == other.to_multiset(),
    ensures
        LenStats::empty().observe_all(one) == LenStats::empty().observe_all(other),
{
    let step = |stats: LenStats, length: nat| stats.observe(length);
    vstd::seq_lib::lemma_fold_left_permutation(one, other, step, LenStats::empty());
}

} // verus!
