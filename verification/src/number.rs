//! Numbers, their order, and the accumulator of numbers.
//!
//! A number is an IEEE-754 double, held as its 64 bits: one sign bit, then
//! eleven bits of exponent and fifty-two of fraction, which together are its
//! magnitude. The order of two numbers can be told from these bits alone, and
//! this module does so. Their sum cannot: whoever feeds the accumulator also
//! hands it the addition.

use crate::length::LenStats;
use vstd::prelude::*;

verus! {

/// The bit that is set in the negative numbers.
pub const SIGN_BIT: u64 = 0x8000_0000_0000_0000;

/// The magnitude of the two infinities. Every larger magnitude is not a number.
pub const INFINITY: u64 = 0x7ff0_0000_0000_0000;

/// The bits of `number` without its sign.
pub open spec fn magnitude(number: u64) -> int {
    if number >= SIGN_BIT {
        number - SIGN_BIT
    } else {
        number as int
    }
}

/// `number` is one of the bit patterns that stand for no number.
pub open spec fn is_nan(number: u64) -> bool {
    magnitude(number) > INFINITY
}

/// The place of `number` among the numbers, as an integer: a number is below
/// another exactly if its rank is. Both zeros have rank 0.
pub open spec fn rank(number: u64) -> int {
    if number >= SIGN_BIT {
        -magnitude(number)
    } else {
        magnitude(number)
    }
}

/// `a < b` as IEEE-754 defines it: false if either is not a number, and
/// otherwise the order of the values, in which the two zeros are equal.
pub open spec fn less(a: u64, b: u64) -> bool {
    !is_nan(a) && !is_nan(b) && rank(a) < rank(b)
}

/// Tells whether `a < b`.
pub fn lt(a: u64, b: u64) -> (below: bool)
    ensures
        below == less(a, b),
{
    let a_negative = a >= SIGN_BIT;
    let b_negative = b >= SIGN_BIT;
    let a_magnitude = if a_negative { a - SIGN_BIT } else { a };
    let b_magnitude = if b_negative { b - SIGN_BIT } else { b };
    if a_magnitude > INFINITY || b_magnitude > INFINITY {
        false
    } else if a_negative {
        if b_negative {
            a_magnitude > b_magnitude
        } else {
            a_magnitude > 0 || b_magnitude > 0
        }
    } else {
        !b_negative && a_magnitude < b_magnitude
    }
}

/// Running statistics of the numbers seen in one field.
pub struct NumSummary {
    /// How many numbers were seen.
    pub count: u64,
    /// The least of them; 0 as long as there is none.
    pub min: u64,
    /// The greatest of them; 0 as long as there is none.
    pub max: u64,
    /// Their running total, as the addition handed to `next` computed it.
    pub sum: u64,
}

/// What a `NumSummary` knows of the order of its numbers.
pub struct NumStats {
    pub count: nat,
    pub min: u64,
    pub max: u64,
}

impl NumStats {
    /// Before the first number.
    pub open spec fn empty() -> NumStats {
        NumStats { count: 0, min: 0, max: 0 }
    }

    /// After one more number. The first number is both least and greatest; a
    /// later one takes a place only from a number that it is strictly beyond.
    pub open spec fn observe(self, number: u64) -> NumStats {
        NumStats {
            count: self.count + 1,
            min: if self.count == 0 || less(number, self.min) {
                number
            } else {
                self.min
            },
            max: if self.count == 0 || less(self.max, number) {
                number
            } else {
                self.max
            },
        }
    }

    /// After all of `numbers`, one after the other.
    pub open spec fn observe_all(self, numbers: Seq<u64>) -> NumStats {
        numbers.fold_left(self, |stats: NumStats, number: u64| stats.observe(number))
    }
}

impl View for NumSummary {
    type V = NumStats;

    open spec fn view(&self) -> NumStats {
        NumStats { count: self.count as nat, min: self.min, max: self.max }
    }
}

impl NumSummary {
    /// The accumulator that has seen no number. Its total is zero.
    pub fn new() -> (summary: NumSummary)
        ensures
            summary@ == NumStats::empty(),
            summary.sum == 0,
    {
        NumSummary { count: 0, min: 0, max: 0, sum: 0 }
    }

    /// Takes in one number. `plus` adds two numbers; it is called once, on the
    /// total so far and `number`, and what it returns is the new total.
    pub fn next<F: Fn(u64, u64) -> u64>(&mut self, number: u64, plus: &F)
        requires
            old(self).count < u64::MAX,
            call_requires(*plus, (old(self).sum, number)),
        ensures
            final(self)@ == old(self)@.observe(number),
            call_ensures(*plus, (old(self).sum, number), final(self).sum),
    {
        self.count += 1;
        self.sum = plus(self.sum, number);
        if self.count == 1 {
            self.min = number;
            self.max = number;
        } else {
            if lt(number, self.min) {
                self.min = number;
            }
            if lt(self.max, number) {
                self.max = number;
            }
        }
    }
}

/// `numbers[at]` is a least one of `numbers`, and the first such.
pub open spec fn first_least(numbers: Seq<u64>, at: int) -> bool {
    &&& 0 <= at < numbers.len()
    &&& forall|i: int| 0 <= i < numbers.len() ==> rank(numbers[at]) <= rank(#[trigger] numbers[i])
    &&& forall|i: int| 0 <= i < at ==> rank(numbers[at]) < rank(#[trigger] numbers[i])
}

/// `numbers[at]` is a greatest one of `numbers`, and the first such.
pub open spec fn first_greatest(numbers: Seq<u64>, at: int) -> bool {
    &&& 0 <= at < numbers.len()
    &&& forall|i: int| 0 <= i < numbers.len() ==> rank(#[trigger] numbers[i]) <= rank(numbers[at])
    &&& forall|i: int| 0 <= i < at ==> rank(#[trigger] numbers[i]) < rank(numbers[at])
}

/// An accumulator counts what it is fed.
pub proof fn lemma_num_count(numbers: Seq<u64>)
    ensures
        NumStats::empty().observe_all(numbers).count == numbers.len(),
    decreases numbers.len(),
{
    if numbers.len() > 0 {
        lemma_num_count(numbers.drop_last());
    }
}

/// Fed numbers of which each is a number, an accumulator holds the true
/// minimum and the true maximum: its `min` is the first of the least of them,
/// its `max` the first of the greatest. The positions of the two are returned.
pub proof fn lemma_num_extremes(numbers: Seq<u64>) -> (at: (int, int))
    requires
        numbers.len() > 0,
        forall|i: int| 0 <= i < numbers.len() ==> !is_nan(#[trigger] numbers[i]),
    ensures
        first_least(numbers, at.0),
        first_greatest(numbers, at.1),
        NumStats::empty().observe_all(numbers).min == numbers[at.0],
        NumStats::empty().observe_all(numbers).max == numbers[at.1],
        rank(NumStats::empty().observe_all(numbers).min) <= rank(
            NumStats::empty().observe_all(numbers).max,
        ),
    decreases numbers.len(),
{
    let before = numbers.drop_last();
    let last = numbers.last();
    lemma_num_count(before);
    if before.len() == 0 {
        (0, 0)
    } else {
        let found = lemma_num_extremes(before);
        let stats = NumStats::empty().observe_all(before);
        assert(forall|i: int| 0 <= i < before.len() ==> before[i] == numbers[i]);
        let low = if less(last, stats.min) { numbers.len() - 1 } else { found.0 };
        let high = if less(stats.max, last) { numbers.len() - 1 } else { found.1 };
        (low, high)
    }
}

/// What an accumulator holds of numbers of which each is a number does not
/// depend on their order, but for the choice between the two zeros: fed the
/// same numbers in another order, it counts as many, and its `min` and its
/// `max` have the same ranks.
pub proof fn lemma_num_any_order(one: Seq<u64>, other: Seq<u64>)
    requires
        one.to_multiset() == other.to_multiset(),
        forall|i: int| 0 <= i < one.len() ==> !is_nan(#[trigger] one[i]),
    ensures
        ({
            let a = NumStats::empty().observe_all(one);
            let b = NumStats::empty().observe_all(other);
            &&& a.count == b.count
            &&& rank(a.min) == rank(b.min)
            &&& rank(a.max) == rank(b.max)
        }),
{
    lemma_num_count(one);
    lemma_num_count(other);
    one.to_multiset_ensures();
    other.to_multiset_ensures();
    if one.len() > 0 {
        assert forall|i: int| 0 <= i < other.len() implies !is_nan(#[trigger] other[i]) by {
            assert(other.to_multiset().count(other[i]) > 0);
            assert(one.contains(other[i]));
        }
        let a = lemma_num_extremes(one);
        let b = lemma_num_extremes(other);
        assert(one.to_multiset().count(one[a.0]) > 0 && other.contains(one[a.0]));
        assert(one.to_multiset().count(one[a.1]) > 0 && other.contains(one[a.1]));
        assert(other.to_multiset().count(other[b.0]) > 0 && one.contains(other[b.0]));
        assert(other.to_multiset().count(other[b.1]) > 0 && one.contains(other[b.1]));
    }
}

/// An accumulator of numbers and an accumulator of lengths behave alike.
/// Let `number_of` give each of `lengths` a number, in the order of the
/// lengths. Fed these numbers, the first counts as many as the second counts
/// of `lengths`, and holds as `min` and `max` the numbers of the least and the
/// greatest length that the second holds.
pub proof fn lemma_lengths_as_numbers(lengths: Seq<nat>, number_of: spec_fn(nat) -> u64)
    requires
        forall|i: int, j: int|
            0 <= i < lengths.len() && 0 <= j < lengths.len() ==> (lengths[i] < lengths[j] <==> less(
                #[trigger] number_of(lengths[i]),
                #[trigger] number_of(lengths[j]),
            )),
    ensures
        ({
            let of_lengths = LenStats::empty().observe_all(lengths);
            let of_numbers = NumStats::empty().observe_all(lengths.map_values(number_of));
            &&& of_numbers.count == of_lengths.count
            &&& lengths.len() > 0 ==> of_numbers.min == number_of(of_lengths.min)
            &&& lengths.len() > 0 ==> of_numbers.max == number_of(of_lengths.max)
        }),
    decreases lengths.len(),
{
    if lengths.len() > 0 {
        let before = lengths.drop_last();
        assert(forall|i: int| 0 <= i < before.len() ==> before[i] == lengths[i]);
        lemma_lengths_as_numbers(before, number_of);
        lemma_num_count(before.map_values(number_of));
        assert(lengths.map_values(number_of).drop_last() =~= before.map_values(number_of));
        if before.len() > 0 {
            let at = crate::length::lemma_len_extremes(before);
            let last = lengths.len() - 1;
            assert(lengths[at.0] < lengths[last] <==> less(
                number_of(lengths[at.0]),
                number_of(lengths[last]),
            ));
            assert(lengths[last] < lengths[at.0] <==> less(
                number_of(lengths[last]),
                number_of(lengths[at.0]),
            ));
            assert(lengths[at.1] < lengths[last] <==> less(
                number_of(lengths[at.1]),
                number_of(lengths[last]),
            ));
            assert(lengths[last] < lengths[at.1] <==> less(
                number_of(lengths[last]),
                number_of(lengths[at.1]),
            ));
        }
    }
}

} // verus!
