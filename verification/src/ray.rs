//! Rays: an origin, a direction, and a time scalar in `[0, 1]` used by
//! motion-blurred primitives.

use vstd::prelude::*;

use crate::fixed::{fx_mul, in_t, lemma_tdiv_bound, FX_ONE};
use crate::fixed::div_i128;
use crate::vec3::{in_vec, Vec3};

verus! {

pub type Point3 = Vec3;

#[derive(Clone, Copy, Debug)]
pub struct Ray {
    pub orig: Point3,
    pub dir: Vec3,
    pub tm: i64,
}

/// The point `origin + t * direction`, componentwise in fixed point.
pub open spec fn ray_at_spec(r: Ray, t: int) -> Point3 {
    Point3 {
        x: (r.orig.x + fx_mul(t, r.dir.x as int)) as i64,
        y: (r.orig.y + fx_mul(t, r.dir.y as int)) as i64,
        z: (r.orig.z + fx_mul(t, r.dir.z as int)) as i64,
    }
}

/// Origin and direction within the world bound.
pub open spec fn ray_in_range(r: Ray) -> bool {
    in_vec(r.orig) && in_vec(r.dir)
}

impl Default for Ray {
    fn default() -> (r: Self)
        ensures
            r.orig == (Vec3 { x: 0, y: 0, z: 0 }),
            r.dir == (Vec3 { x: 0, y: 0, z: 0 }),
            r.tm == 0,
    {
        Ray { orig: Vec3 { x: 0, y: 0, z: 0 }, dir: Vec3 { x: 0, y: 0, z: 0 }, tm: 0 }
    }
}

impl Ray {
    pub fn new(orig: Point3, dir: Vec3) -> (r: Self)
        ensures
            r.orig == orig,
            r.dir == dir,
            r.tm == 0,
    {
        Self { orig, dir, tm: 0 }
    }

    pub fn new_tm(orig: Point3, dir: Vec3, tm: i64) -> (r: Self)
        ensures
            r.orig == orig,
            r.dir == dir,
            r.tm == tm,
    {
        Self { orig, dir, tm }
    }

    pub fn time(&self) -> (r: i64)
        ensures
            r == self.tm,
    {
        self.tm
    }

    pub fn origin(&self) -> (r: Point3)
        ensures
            r == self.orig,
    {
        self.orig
    }

    pub fn direction(&self) -> (r: Vec3)
        ensures
            r == self.dir,
    {
        self.dir
    }

    /// Evaluate the ray at parameter `t`.
    pub fn at(&self, t: i64) -> (r: Point3)
        requires
            ray_in_range(*self),
            in_t(t as int),
        ensures
            r == ray_at_spec(*self, t as int),
    {
        proof {
            lemma_at_component(t as int, self.dir.x as int, self.orig.x as int);
            lemma_at_component(t as int, self.dir.y as int, self.orig.y as int);
            lemma_at_component(t as int, self.dir.z as int, self.orig.z as int);
        }
        let px = self.orig.x + div_i128((t as i128) * (self.dir.x as i128), FX_ONE as i128) as i64;
        let py = self.orig.y + div_i128((t as i128) * (self.dir.y as i128), FX_ONE as i128) as i64;
        let pz = self.orig.z + div_i128((t as i128) * (self.dir.z as i128), FX_ONE as i128) as i64;
        Point3 { x: px, y: py, z: pz }
    }
}

/// One component of a ray evaluation stays within `i64`.
proof fn lemma_at_component(t: int, d: int, o: int)
    requires
        crate::fixed::iabs(t) <= crate::fixed::T_FAR,
        crate::fixed::iabs(d) <= crate::fixed::COORD_MAX,
        crate::fixed::iabs(o) <= crate::fixed::COORD_MAX,
    ensures
        crate::fixed::iabs(t * d) <= 0x400_0000_0000_0000_0000,
        crate::fixed::iabs(fx_mul(t, d)) <= 0x0400_0000_0000_0000,
        i64::MIN <= o + fx_mul(t, d) <= i64::MAX,
{
    crate::vec3::lemma_abs_mul_bound(t, d, crate::fixed::T_FAR as int, crate::fixed::COORD_MAX as int);
    lemma_tdiv_bound(t * d, FX_ONE as int, 0x0400_0000_0000_0000);
}

} // verus!
