//! A closed/open numeric range over fixed-point scalars, used for
//! ray-parameter bounds and colour clamping.

use vstd::prelude::*;

verus! {

pub struct Interval {
    pub lo: i64,
    pub hi: i64,
}

impl Interval {
    pub fn new(min: i64, max: i64) -> (r: Interval)
        ensures
            r.lo == min,
            r.hi == max,
    {
        Interval { lo: min, hi: max }
    }

    pub fn min(&self) -> (r: i64)
        ensures
            r == self.lo,
    {
        self.lo
    }

    pub fn max(&self) -> (r: i64)
        ensures
            r == self.hi,
    {
        self.hi
    }

    /// Strict containment: exclusive at both ends.
    pub fn surrounds(&self, x: i64) -> (r: bool)
        ensures
            r == self.spec_surrounds(x as int),
    {
        self.lo < x && x < self.hi
    }

    pub open spec fn spec_surrounds(&self, x: int) -> bool {
        self.lo < x && x < self.hi
    }

    /// Inclusive saturation.  When `min > max` both branches could apply;
    /// the below-min branch wins.
    pub fn clamp(&self, x: i64) -> (r: i64)
        ensures
            r == self.spec_clamp(x as int),
    {
        if x < self.lo {
            self.lo
        } else if x > self.hi {
            self.hi
        } else {
            x
        }
    }

    pub open spec fn spec_clamp(&self, x: int) -> int {
        if x < self.lo {
            self.lo as int
        } else if x > self.hi {
            self.hi as int
        } else {
            x
        }
    }

    pub open spec fn spec_min(&self) -> int {
        self.lo as int
    }

    pub open spec fn spec_max(&self) -> int {
        self.hi as int
    }
}

} // verus!
