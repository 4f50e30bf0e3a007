//! A black-box statistical accumulator, modeled at its boundary: the
//! multiset of samples it has been fed. The analytics queries hand one back
//! per distribution they report; presentation (percentiles, formatting) is
//! the caller's business.

use vstd::multiset::Multiset;
use vstd::prelude::*;

verus! {

broadcast use vstd::seq_lib::group_to_multiset_ensures;

/// A distribution of integer samples (durations in ticks, or percentages).
pub struct Histogram {
    values: Vec<u64>,
}

impl Histogram {
    /// The samples accumulated so far, without order.
    pub closed spec fn view(self) -> Multiset<u64> {
        self.values@.to_multiset()
    }

    pub fn new() -> (h: Histogram)
        ensures
            h@ == Multiset::<u64>::empty(),
    {
        Histogram { values: Vec::new() }
    }

    /// Record one sample.
    pub fn add(&mut self, value: u64)
        ensures
            final(self)@ == old(self)@.insert(value),
    {
        self.values.push(value);
    }

    /// How many samples were recorded.
    pub fn count(&self) -> (n: usize)
        ensures
            n == self@.len(),
    {
        self.values.len()
    }

    /// The samples in the order they were recorded.
    pub fn samples(&self) -> (s: &Vec<u64>)
        ensures
            s@.to_multiset() == self@,
    {
        &self.values
    }
}

} // verus!
