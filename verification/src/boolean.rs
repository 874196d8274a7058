//! The accumulator of booleans.

use vstd::prelude::*;

verus! {

/// Running tally of the booleans seen in one field.
pub struct BoolSummary {
    /// How many booleans were seen.
    pub count: u64,
    /// How many of them were `true`.
    pub num_true: u64,
    /// How many of them were `false`.
    pub num_false: u64,
}

/// The tally of a `BoolSummary`, in unbounded numbers.
pub struct BoolStats {
    pub count: nat,
    pub num_true: nat,
    pub num_false: nat,
}

impl BoolStats {
    /// Before the first boolean.
    pub open spec fn empty() -> BoolStats {
        BoolStats { count: 0, num_true: 0, num_false: 0 }
    }

    /// After one more boolean.
    pub open spec fn observe(self, value: bool) -> BoolStats {
        BoolStats {
            count: self.count + 1,
            num_true: if value {
                self.num_true + 1
            } else {
                self.num_true
            },
            num_false: if value {
                self.num_false
            } else {
                self.num_false + 1
            },
        }
    }

    /// After all of `values`, one after the other.
    pub open spec fn observe_all(self, values: Seq<bool>) -> BoolStats {
        values.fold_left(self, |stats: BoolStats, value: bool| stats.observe(value))
    }

    /// The tally of `values`, said directly.
    pub open spec fn of(values: Seq<bool>) -> BoolStats {
        BoolStats {
            count: values.len(),
            num_true: values.to_multiset().count(true),
            num_false: values.to_multiset().count(false),
        }
    }
}

impl View for BoolSummary {
    type V = BoolStats;

    open spec fn view(&self) -> BoolStats {
        BoolStats {
            count: self.count as nat,
            num_true: self.num_true as nat,
            num_false: self.num_false as nat,
        }
    }
}

impl BoolSummary {
    /// Every boolean counted is counted as `true` or as `false`.
    pub open spec fn wf(&self) -> bool {
        self.count == self.num_true + self.num_false
    }

    /// The accumulator that has seen no boolean.
    pub fn new() -> (summary: BoolSummary)
        ensures
            summary.wf(),
            summary@ == BoolStats::empty(),
    {
        BoolSummary { count: 0, num_true: 0, num_false: 0 }
    }

    /// Takes in one boolean.
    pub fn next(&mut self, value: bool)
        requires
            old(self).wf(),
            old(self).count < u64::MAX,
        ensures
            final(self).wf(),
            final(self)@ == old(self)@.observe(value),
    {
        self.count += 1;
        if value {
            self.num_true += 1;
        } else {
            self.num_false += 1;
        }
    }
}

/// Fed `values`, an accumulator holds their tally: how many they are, how many
/// of them are `true`, how many `false`; and the two make up the count.
pub proof fn lemma_bool_tally(values: Seq<bool>)
    ensures
        BoolStats::empty().observe_all(values) == BoolStats::of(values),
        BoolStats::of(values).num_true + BoolStats::of(values).num_false == values.len(),
    decreases values.len(),
{
    if values.len() == 0 {
        values.to_multiset_ensures();
    } else {
        let before = values.drop_last();
        lemma_bool_tally(before);
        before.to_multiset_ensures();
        assert(values == before.push(values.last()));
    }
}

/// The tally does not depend on the order of the booleans.
pub proof fn lemma_bool_any_order(one: Seq<bool>, other: Seq<bool>)
    requires
        one.to_multiset() == other.to_multiset(),
    ensures
        BoolStats::empty().observe_all(one) == BoolStats::empty().observe_all(other),
{
    lemma_bool_tally(one);
    lemma_bool_tally(other);
}

} // verus!
