//! Closed intervals of fixed-point scalars, used both as ray-parameter
//! acceptance windows and as per-axis bounding ranges.

use vstd::prelude::*;

use crate::fixed::{tdiv, T_FAR};
use crate::fixed::div_i64;

verus! {

/// `[min, max]`; empty when `min > max`.
#[derive(Clone, Copy, Debug)]
pub struct Interval {
    pub min: i64,
    pub max: i64,
}

/// Where `x` lands relative to `[min, max]` once clamped.
pub open spec fn clamp_spec(iv: Interval, x: int) -> int {
    if x < iv.min {
        iv.min as int
    } else if x > iv.max {
        iv.max as int
    } else {
        x
    }
}

impl Interval {
    /// `x` lies in the closed interval.
    pub open spec fn contains_spec(self, x: int) -> bool {
        self.min <= x <= self.max
    }

    /// `x` lies strictly inside the interval.
    pub open spec fn surrounds_spec(self, x: int) -> bool {
        self.min < x < self.max
    }

    /// Both endpoints lie within the representable ray-parameter window.
    pub open spec fn in_t_range(self) -> bool {
        -T_FAR <= self.min <= T_FAR && -T_FAR <= self.max <= T_FAR
    }

    pub fn new(min: i64, max: i64) -> (r: Self)
        ensures
            r.min == min,
            r.max == max,
    {
        Self { min, max }
    }

    /// The interval tightly enclosing `a` and `b`.
    pub fn with_intervals(a: &Interval, b: &Interval) -> (r: Self)
        ensures
            r.min == if a.min <= b.min {
                a.min
            } else {
                b.min
            },
            r.max == if a.max >= b.max {
                a.max
            } else {
                b.max
            },
    {
        Self {
            min: if a.min <= b.min {
                a.min
            } else {
                b.min
            },
            max: if a.max >= b.max {
                a.max
            } else {
                b.max
            },
        }
    }

    /// The empty interval, an identity for `with_intervals` over in-range
    /// intervals.
    pub fn empty() -> (r: Self)
        ensures
            r.min == T_FAR,
            r.max == -T_FAR,
    {
        Self { min: T_FAR, max: -T_FAR }
    }

    /// The widest representable interval.
    pub fn universe() -> (r: Self)
        ensures
            r.min == -T_FAR,
            r.max == T_FAR,
    {
        Self { min: -T_FAR, max: T_FAR }
    }

    pub fn size(&self) -> (r: i64)
        requires
            self.max - self.min <= i64::MAX,
            self.max - self.min >= i64::MIN,
        ensures
            r == self.max - self.min,
    {
        self.max - self.min
    }

    pub fn contains(&self, x: i64) -> (r: bool)
        ensures
            r == self.contains_spec(x as int),
    {
        x >= self.min && x <= self.max
    }

    pub fn surrounds(&self, x: i64) -> (r: bool)
        ensures
            r == self.surrounds_spec(x as int),
    {
        x > self.min && x < self.max
    }

    /// Widen each end by half of `delta`.
    pub fn expand(&self, delta: i64) -> (r: Self)
        requires
            self.in_t_range(),
            crate::fixed::iabs(delta as int) <= T_FAR,
        ensures
            r.min == self.min - tdiv(delta as int, 2),
            r.max == self.max + tdiv(delta as int, 2),
    {
        proof {
            crate::fixed::lemma_tdiv_bound(delta as int, 2, T_FAR as int);
        }
        let padding = div_i64(delta, 2);
        Self { min: self.min - padding, max: self.max + padding }
    }

    /// Project `x` into the interval.
    pub fn clamp(&self, x: i64) -> (r: i64)
        ensures
            r == clamp_spec(*self, x as int),
    {
        if x < self.min {
            return self.min;
        }
        if x > self.max {
            return self.max;
        }
        x
    }
}

/// Clamping is idempotent: projecting an already projected value changes
/// nothing, for every scalar `x` and every nonempty interval.  (On an empty
/// interval the projection alternates between the two ends.)
pub proof fn lemma_clamp_idempotent(iv: Interval, x: int)
    requires
        iv.min <= iv.max,
    ensures
        clamp_spec(iv, clamp_spec(iv, x)) == clamp_spec(iv, x),
{
}

} // verus!
