use vstd::prelude::*;

verus! {

/// Key of positive infinity: above the key of every finite coordinate.
pub const INFINITY_KEY: i64 = 9218868437227405312;

/// Key of negative infinity: below the key of every finite coordinate.
pub const NEG_INFINITY_KEY: i64 = -9218868437227405312;

/// A closed range `[min, max]` of order keys.
///
/// It is empty when `min > max` (`new_empty` is `[+inf, -inf]`) and holds
/// everything when it is `[-inf, +inf]`.
#[derive(Clone, Copy, Debug, PartialEq, Eq, Structural)]
pub struct Interval {
    pub min: i64,
    pub max: i64,
}

pub open spec fn min_key(a: i64, b: i64) -> i64 {
    if a <= b { a } else { b }
}

pub open spec fn max_key(a: i64, b: i64) -> i64 {
    if a >= b { a } else { b }
}

impl Interval {
    pub open spec fn spec_contains(self, x: i64) -> bool {
        self.min <= x && x <= self.max
    }

    pub open spec fn spec_surrounds(self, x: i64) -> bool {
        self.min < x && x < self.max
    }

    /// The smallest interval holding both `a` and `b`.
    pub open spec fn spec_union(a: Interval, b: Interval) -> Interval {
        Interval { min: min_key(a.min, b.min), max: max_key(a.max, b.max) }
    }

    pub open spec fn spec_empty() -> Interval {
        Interval { min: INFINITY_KEY, max: NEG_INFINITY_KEY }
    }

    pub open spec fn spec_universe() -> Interval {
        Interval { min: NEG_INFINITY_KEY, max: INFINITY_KEY }
    }

    /// `[+inf, -inf]`, which contains nothing.
    pub fn new_empty() -> (r: Interval)
        ensures
            r == Interval::spec_empty(),
    {
        Interval { min: INFINITY_KEY, max: NEG_INFINITY_KEY }
    }

    /// `[-inf, +inf]`, which contains every key.
    pub fn new_universe() -> (r: Interval)
        ensures
            r == Interval::spec_universe(),
    {
        Interval { min: NEG_INFINITY_KEY, max: INFINITY_KEY }
    }

    pub fn new(min: i64, max: i64) -> (r: Interval)
        ensures
            r.min == min,
            r.max == max,
    {
        Interval { min, max }
    }

    /// The smallest interval containing both `a` and `b`.
    pub fn from_intervals(a: &Interval, b: &Interval) -> (r: Interval)
        ensures
            r == Interval::spec_union(*a, *b),
    {
        let min = if a.min <= b.min { a.min } else { b.min };
        let max = if a.max >= b.max { a.max } else { b.max };
        Interval { min, max }
    }

    /// Inclusive membership.
    pub fn contains(&self, x: i64) -> (r: bool)
        ensures
            r == self.spec_contains(x),
    {
        self.min <= x && x <= self.max
    }

    /// Exclusive membership.
    pub fn surrounds(&self, x: i64) -> (r: bool)
        ensures
            r == self.spec_surrounds(x),
    {
        self.min < x && x < self.max
    }

    /// Saturates `x` into the interval: below `min` gives `min`, above
    /// `max` gives `max`, anything else is returned as it is.
    pub fn clamp(&self, x: i64) -> (r: i64)
        ensures
            x < self.min ==> r == self.min,
            self.min <= x && x > self.max ==> r == self.max,
            self.min <= x <= self.max ==> r == x,
    {
        if x < self.min {
            return self.min;
        }
        if x > self.max {
            return self.max;
        }
        x
    }
}

/// A value in either interval is in their union.
pub proof fn lemma_union_contains(a: Interval, b: Interval, x: i64)
    requires
        a.spec_contains(x) || b.spec_contains(x),
    ensures
        Interval::spec_union(a, b).spec_contains(x),
{
}

} // verus!
