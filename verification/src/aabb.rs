//! Axis-aligned bounding boxes: one fixed-point interval per axis, with
//! union construction and a slab-test ray intersection that progressively
//! narrows a caller-supplied parameter window.

use vstd::prelude::*;

use crate::fixed::{iabs, in_coord, lemma_tdiv_shrinks, tdiv, COORD_MAX, FX_ONE, T_FAR};
use crate::fixed::div_i128;
use crate::interval::Interval;
use crate::ray::{Point3, Ray};
use crate::vec3::in_vec;

verus! {

#[derive(Clone, Copy, Debug)]
pub struct AABB {
    pub x: Interval,
    pub y: Interval,
    pub z: Interval,
}

/// The interval of the box along axis `n` (0, 1 or 2; anything else reads
/// the x axis, as the index dispatch does).
pub open spec fn axis_spec(b: AABB, n: int) -> Interval {
    if n == 1 {
        b.y
    } else if n == 2 {
        b.z
    } else {
        b.x
    }
}

/// The component of `v` along axis `n`.
pub open spec fn comp_spec(v: Point3, n: int) -> int {
    if n == 1 {
        v.y as int
    } else if n == 2 {
        v.z as int
    } else {
        v.x as int
    }
}

/// A box bound: within twice the coordinate range, which covers the
/// bounding box of any in-range sphere.
pub open spec fn in_bound(v: int) -> bool {
    -2 * COORD_MAX <= v <= 2 * COORD_MAX
}

/// All six box bounds within range.
pub open spec fn aabb_in_range(b: AABB) -> bool {
    in_bound(b.x.min as int) && in_bound(b.x.max as int) && in_bound(b.y.min as int) && in_bound(
        b.y.max as int,
    ) && in_bound(b.z.min as int) && in_bound(b.z.max as int)
}

/// A point lies inside the box (componentwise containment).
pub open spec fn aabb_contains_point(b: AABB, p: Point3) -> bool {
    b.x.contains_spec(p.x as int) && b.y.contains_spec(p.y as int) && b.z.contains_spec(
        p.z as int,
    )
}

/// One box contains another, axis by axis.
pub open spec fn aabb_contains_box(outer: AABB, inner: AABB) -> bool {
    outer.x.min <= inner.x.min && inner.x.max <= outer.x.max && outer.y.min <= inner.y.min
        && inner.y.max <= outer.y.max && outer.z.min <= inner.z.min && inner.z.max <= outer.z.max
}

/// The box tightly enclosing two boxes: the per-axis interval union.
pub open spec fn aabb_union_spec(a: AABB, b: AABB) -> AABB {
    AABB {
        x: Interval {
            min: if a.x.min <= b.x.min {
                a.x.min
            } else {
                b.x.min
            },
            max: if a.x.max >= b.x.max {
                a.x.max
            } else {
                b.x.max
            },
        },
        y: Interval {
            min: if a.y.min <= b.y.min {
                a.y.min
            } else {
                b.y.min
            },
            max: if a.y.max >= b.y.max {
                a.y.max
            } else {
                b.y.max
            },
        },
        z: Interval {
            min: if a.z.min <= b.z.min {
                a.z.min
            } else {
                b.z.min
            },
            max: if a.z.max >= b.z.max {
                a.z.max
            } else {
                b.z.max
            },
        },
    }
}

/// The parameter window of one slab: what `[lo, hi]` becomes after
/// clipping against the axis interval `ax`, for ray component origin `o`
/// and direction `d`.
///
/// For `d == 0` the ray is parallel to the slab: the window survives
/// unchanged only if the origin lies strictly inside the slab, and
/// otherwise collapses.
pub open spec fn slab_axis(ax: Interval, o: int, d: int, lo: int, hi: int) -> (int, int) {
    if d == 0 {
        if ax.min < o < ax.max {
            (lo, hi)
        } else {
            (T_FAR as int, -T_FAR as int)
        }
    } else {
        let t0 = tdiv((ax.min - o) * FX_ONE, d);
        let t1 = tdiv((ax.max - o) * FX_ONE, d);
        let a = if t0 < t1 {
            t0
        } else {
            t1
        };
        let b = if t0 < t1 {
            t1
        } else {
            t0
        };
        let lo2 = if a > lo {
            a
        } else {
            lo
        };
        let hi2 = if b < hi {
            b
        } else {
            hi
        };
        (lo2, hi2)
    }
}

/// The parameter window after clipping against the first `k` axes,
/// stopping as soon as the window collapses.
pub open spec fn slab_state(b: AABB, r: Ray, k: nat, lo: int, hi: int) -> (int, int)
    decreases k,
{
    if k == 0 {
        (lo, hi)
    } else {
        let s = slab_state(b, r, (k - 1) as nat, lo, hi);
        if s.1 <= s.0 {
            s
        } else {
            slab_axis(
                axis_spec(b, k - 1),
                comp_spec(r.orig, k - 1),
                comp_spec(r.dir, k - 1),
                s.0,
                s.1,
            )
        }
    }
}

/// Whether a ray can meet the box within `[lo, hi]`: the window survives
/// all three slabs.
pub open spec fn aabb_hit_spec(b: AABB, r: Ray, lo: int, hi: int) -> bool {
    let s = slab_state(b, r, 3, lo, hi);
    s.1 > s.0
}

/// A collapsed slab window stays collapsed through later axes.
pub proof fn lemma_slab_collapsed(b: AABB, r: Ray, k1: nat, k2: nat, lo: int, hi: int)
    requires
        k1 <= k2,
        slab_state(b, r, k1, lo, hi).1 <= slab_state(b, r, k1, lo, hi).0,
    ensures
        slab_state(b, r, k2, lo, hi).1 <= slab_state(b, r, k2, lo, hi).0,
    decreases k2 - k1,
{
    if k2 > k1 {
        lemma_slab_collapsed(b, r, k1, (k2 - 1) as nat, lo, hi);
    }
}

impl AABB {
    pub fn new(x: Interval, y: Interval, z: Interval) -> (r: Self)
        ensures
            r.x == x,
            r.y == y,
            r.z == z,
    {
        Self { x, y, z }
    }

    /// The box spanned by two corner points.
    pub fn with_points(a: &Point3, b: &Point3) -> (r: Self)
        ensures
            r.x.min == if a.x <= b.x {
                a.x
            } else {
                b.x
            },
            r.x.max == if a.x <= b.x {
                b.x
            } else {
                a.x
            },
            r.y.min == if a.y <= b.y {
                a.y
            } else {
                b.y
            },
            r.y.max == if a.y <= b.y {
                b.y
            } else {
                a.y
            },
            r.z.min == if a.z <= b.z {
                a.z
            } else {
                b.z
            },
            r.z.max == if a.z <= b.z {
                b.z
            } else {
                a.z
            },
            aabb_contains_point(r, *a),
            aabb_contains_point(r, *b),
    {
        let x = if a.x <= b.x {
            Interval::new(a.x, b.x)
        } else {
            Interval::new(b.x, a.x)
        };
        let y = if a.y <= b.y {
            Interval::new(a.y, b.y)
        } else {
            Interval::new(b.y, a.y)
        };
        let z = if a.z <= b.z {
            Interval::new(a.z, b.z)
        } else {
            Interval::new(b.z, a.z)
        };
        Self { x, y, z }
    }

    /// The union of two boxes.
    pub fn with_boxes(box1: &AABB, box2: &AABB) -> (r: Self)
        ensures
            r == aabb_union_spec(*box1, *box2),
    {
        Self {
            x: Interval::with_intervals(&box1.x, &box2.x),
            y: Interval::with_intervals(&box1.y, &box2.y),
            z: Interval::with_intervals(&box1.z, &box2.z),
        }
    }

    /// The empty box, an identity for `with_boxes` over in-range boxes.
    pub fn empty() -> (r: Self)
        ensures
            r.x.min == T_FAR && r.x.max == -T_FAR,
            r.y.min == T_FAR && r.y.max == -T_FAR,
            r.z.min == T_FAR && r.z.max == -T_FAR,
    {
        Self { x: Interval::empty(), y: Interval::empty(), z: Interval::empty() }
    }

    /// The interval along axis `n`.
    pub fn axis_interval(&self, n: i32) -> (r: &Interval)
        ensures
            *r == axis_spec(*self, n as int),
    {
        match n {
            1 => &self.y,
            2 => &self.z,
            _ => &self.x,
        }
    }

    /// The index of the axis with the largest extent.
    pub fn longest_axis(&self) -> (r: i32)
        requires
            iabs(self.x.min as int) <= T_FAR && iabs(self.x.max as int) <= T_FAR,
            iabs(self.y.min as int) <= T_FAR && iabs(self.y.max as int) <= T_FAR,
            iabs(self.z.min as int) <= T_FAR && iabs(self.z.max as int) <= T_FAR,
        ensures
            r == 0 || r == 1 || r == 2,
            axis_spec(*self, r as int).max - axis_spec(*self, r as int).min >= self.x.max
                - self.x.min,
            axis_spec(*self, r as int).max - axis_spec(*self, r as int).min >= self.y.max
                - self.y.min,
            axis_spec(*self, r as int).max - axis_spec(*self, r as int).min >= self.z.max
                - self.z.min,
    {
        let sx = self.x.max - self.x.min;
        let sy = self.y.max - self.y.min;
        let sz = self.z.max - self.z.min;
        if sx > sy {
            if sx > sz {
                0
            } else {
                2
            }
        } else {
            if sy > sz {
                1
            } else {
                2
            }
        }
    }

    /// The slab test.  Narrows `ray_t` to the part of the window that
    /// overlaps the box along every axis, returning whether anything is
    /// left.  The window is only ever narrowed, never widened.
    pub fn hit(&self, r: &Ray, ray_t: &mut Interval) -> (hit: bool)
        requires
            aabb_in_range(*self),
            in_vec(r.orig),
            in_vec(r.dir),
            old(ray_t).in_t_range(),
        ensures
            hit == aabb_hit_spec(*self, *r, old(ray_t).min as int, old(ray_t).max as int),
            hit ==> (final(ray_t).min as int, final(ray_t).max as int) == slab_state(
                *self,
                *r,
                3,
                old(ray_t).min as int,
                old(ray_t).max as int,
            ),
            final(ray_t).min >= old(ray_t).min,
            final(ray_t).max <= old(ray_t).max,
            hit ==> final(ray_t).max > final(ray_t).min,
    {
        let ghost lo0 = ray_t.min as int;
        let ghost hi0 = ray_t.max as int;
        slab_axis_exec(&self.x, r.orig.x, r.dir.x, ray_t);
        proof {
            assert(slab_state(*self, *r, 0, lo0, hi0) == (lo0, hi0));
            assert(slab_state(*self, *r, 1, lo0, hi0) == if hi0 <= lo0 {
                (lo0, hi0)
            } else {
                slab_axis(self.x, r.orig.x as int, r.dir.x as int, lo0, hi0)
            });
        }
        if ray_t.max <= ray_t.min {
            proof {
                if hi0 <= lo0 {
                    lemma_slab_collapsed(*self, *r, 0, 3, lo0, hi0);
                } else {
                    lemma_slab_collapsed(*self, *r, 1, 3, lo0, hi0);
                }
            }
            return false;
        }
        slab_axis_exec(&self.y, r.orig.y, r.dir.y, ray_t);
        proof {
            assert(slab_state(*self, *r, 2, lo0, hi0) == slab_axis(
                self.y,
                r.orig.y as int,
                r.dir.y as int,
                slab_state(*self, *r, 1, lo0, hi0).0,
                slab_state(*self, *r, 1, lo0, hi0).1,
            ));
        }
        if ray_t.max <= ray_t.min {
            proof {
                lemma_slab_collapsed(*self, *r, 2, 3, lo0, hi0);
            }
            return false;
        }
        slab_axis_exec(&self.z, r.orig.z, r.dir.z, ray_t);
        proof {
            assert(slab_state(*self, *r, 3, lo0, hi0) == slab_axis(
                self.z,
                r.orig.z as int,
                r.dir.z as int,
                slab_state(*self, *r, 2, lo0, hi0).0,
                slab_state(*self, *r, 2, lo0, hi0).1,
            ));
        }
        if ray_t.max <= ray_t.min {
            return false;
        }
        true
    }
}

/// Narrow `ray_t` against one slab; the result is exactly `slab_axis`.
fn slab_axis_exec(ax: &Interval, o: i64, d: i64, ray_t: &mut Interval)
    requires
        in_bound(ax.min as int),
        in_bound(ax.max as int),
        in_coord(o as int),
        in_coord(d as int),
        old(ray_t).in_t_range(),
    ensures
        (final(ray_t).min as int, final(ray_t).max as int) == slab_axis(
            *ax,
            o as int,
            d as int,
            old(ray_t).min as int,
            old(ray_t).max as int,
        ),
        final(ray_t).min >= old(ray_t).min,
        final(ray_t).max <= old(ray_t).max,
        final(ray_t).in_t_range(),
{
    if d == 0 {
        if ax.min < o && o < ax.max {
            return ;
        }
        ray_t.min = T_FAR;
        ray_t.max = -T_FAR;
        return ;
    }
    proof {
        lemma_tdiv_shrinks((ax.min - o) * FX_ONE, d as int);
        lemma_tdiv_shrinks((ax.max - o) * FX_ONE, d as int);
        crate::vec3::lemma_abs_mul_bound(
            ax.min - o,
            FX_ONE as int,
            3 * COORD_MAX,
            FX_ONE as int,
        );
        crate::vec3::lemma_abs_mul_bound(
            ax.max - o,
            FX_ONE as int,
            3 * COORD_MAX,
            FX_ONE as int,
        );
    }
    let t0 = div_i128(((ax.min - o) as i128) * (FX_ONE as i128), d as i128) as i64;
    let t1 = div_i128(((ax.max - o) as i128) * (FX_ONE as i128), d as i128) as i64;
    if t0 < t1 {
        if t0 > ray_t.min {
            ray_t.min = t0;
        }
        if t1 < ray_t.max {
            ray_t.max = t1;
        }
    } else {
        if t1 > ray_t.min {
            ray_t.min = t1;
        }
        if t0 < ray_t.max {
            ray_t.max = t0;
        }
    }
}

/// A union contains whatever either operand contains: every point of `a`
/// and every point of `b` lies in `aabb_union_spec(a, b)`, and both boxes
/// are contained whole.
pub proof fn lemma_union_contains(a: AABB, b: AABB, p: Point3)
    ensures
        aabb_contains_point(a, p) ==> aabb_contains_point(aabb_union_spec(a, b), p),
        aabb_contains_point(b, p) ==> aabb_contains_point(aabb_union_spec(a, b), p),
        aabb_contains_box(aabb_union_spec(a, b), a),
        aabb_contains_box(aabb_union_spec(a, b), b),
{
}

} // verus!
