//! Closed numeric intervals bounding valid intersection parameters.

use vstd::prelude::*;

verus! {

/// Ghost mirror of an interval.
pub ghost struct IntervalV {
    pub min: int,
    pub max: int,
}

/// A numeric range `[min, max]` of fixed-point values.
#[derive(Clone, Copy, Debug)]
pub struct Interval {
    min: i64,
    max: i64,
}

impl View for Interval {
    type V = IntervalV;

    closed spec fn view(&self) -> IntervalV {
        IntervalV { min: self.min as int, max: self.max as int }
    }
}

/// Membership with both ends included.
pub open spec fn s_contains(i: IntervalV, t: int) -> bool {
    i.min <= t <= i.max
}

/// Membership with both ends excluded: a parameter exactly on a bound
/// is treated as outside, which keeps rays from re-hitting the very
/// surface they were spawned on.
pub open spec fn s_surrounds(i: IntervalV, t: int) -> bool {
    i.min < t < i.max
}

impl Interval {
    pub fn new(min: i64, max: i64) -> (r: Self)
        ensures
            r@ == (IntervalV { min: min as int, max: max as int }),
    {
        Self { min, max }
    }

    /// Whether `t` lies in the interval, ends included.
    pub fn contains(&self, t: i64) -> (r: bool)
        ensures
            r == s_contains(self@, t as int),
    {
        self.min <= t && t <= self.max
    }

    /// Whether `t` lies strictly inside the interval.
    pub fn surrounds(&self, t: i64) -> (r: bool)
        ensures
            r == s_surrounds(self@, t as int),
    {
        self.min < t && t < self.max
    }
}

} // verus!
