//! The accumulator of arrays.

use crate::length::LenStats;
use crate::value::Value;
use vstd::prelude::*;

verus! {

/// Running statistics of the lengths of the arrays seen in one field. What the
/// arrays hold is not looked at.
pub struct ArraySummary {
    /// How many arrays were seen.
    pub count: u64,
    /// The least of their lengths; 0 as long as there is none.
    pub min: u64,
    /// The greatest of their lengths; 0 as long as there is none.
    pub max: u64,
    /// The sum of their lengths.
    pub sum: u128,
}

impl View for ArraySummary {
    type V = LenStats;

    open spec fn view(&self) -> LenStats {
        LenStats {
            count: self.count as nat,
            min: self.min as nat,
            max: self.max as nat,
            sum: self.sum as nat,
        }
    }
}

impl ArraySummary {
    /// The least length is not above the greatest, and the sum is that of
    /// `count` machine words.
    pub open spec fn wf(&self) -> bool {
        &&& self.min <= self.max
        &&& self.sum <= self.count * u64::MAX
    }

    /// The accumulator that has seen no array.
    pub fn new() -> (summary: ArraySummary)
        ensures
            summary.wf(),
            summary@ == LenStats::empty(),
    {
        ArraySummary { count: 0, min: 0, max: 0, sum: 0 }
    }

    /// Takes in one array.
    pub fn next(&mut self, array: &Vec<Value>)
        requires
            old(self).wf(),
            old(self).count < u64::MAX,
        ensures
            final(self).wf(),
            final(self)@ == old(self)@.observe(array@.len()),
    {
        self.count += 1;
        let length = array.len() as u64;
        self.sum += length as u128;
        if self.count == 1 {
            self.min = length;
            self.max = length;
        } else {
            if length < self.min {
                self.min = length;
            }
            if length > self.max {
                self.max = length;
            }
        }
    }
}

} // verus!
