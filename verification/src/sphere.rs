//! Spheres, static or moving, and the ray-sphere intersection solved with
//! the half-b form of the quadratic, carried out exactly in wide integer
//! arithmetic.

use vstd::prelude::*;

use crate::aabb::{aabb_union_spec, AABB};
use crate::fixed::{fx_mul, iabs, in_coord, sqrt_floor, tdiv, COORD_MAX, FX_ONE, T_FAR};
use crate::fixed::{div_i128, isqrt_u128, lemma_sqrt_floor_bounds, lemma_tdiv_ordered};
use crate::hittable::HitRecord;
use crate::interval::Interval;
use crate::ray::{ray_at_spec, ray_in_range, Point3, Ray};
use crate::vec3::{dot_wide, in_vec, lemma_abs_mul_bound, lemma_dot_wide_bound, Vec3};

verus! {

/// A sphere: center, radius, a handle into the material arena, and an
/// optional second center toward which it moves over the ray-time window
/// `[0, 1]`.
#[derive(Clone, Copy, Debug)]
pub struct Sphere {
    pub center: Point3,
    pub radius: i64,
    pub mat: usize,
    pub center2: Option<Point3>,
}

/// Center within the world bound and a positive in-range radius.
pub open spec fn sphere_wf(s: Sphere) -> bool {
    &&& in_vec(s.center)
    &&& 0 < s.radius <= COORD_MAX
    &&& (s.center2 matches Some(c2) ==> in_vec(c2))
}

/// Where the center is at ray time `tm`: linear interpolation toward the
/// second center, or the static center.
pub open spec fn center_at_spec(s: Sphere, tm: int) -> Point3 {
    match s.center2 {
        Option::None => s.center,
        Option::Some(c2) => Point3 {
            x: (s.center.x + fx_mul(tm, c2.x - s.center.x)) as i64,
            y: (s.center.y + fx_mul(tm, c2.y - s.center.y)) as i64,
            z: (s.center.z + fx_mul(tm, c2.z - s.center.z)) as i64,
        },
    }
}

/// Offset from ray origin to the center at the ray's time.
pub open spec fn oc_spec(s: Sphere, r: Ray) -> Vec3 {
    let c = center_at_spec(s, r.tm as int);
    Vec3 {
        x: (c.x - r.orig.x) as i64,
        y: (c.y - r.orig.y) as i64,
        z: (c.z - r.orig.z) as i64,
    }
}

/// Quadratic coefficients (32 fractional bits, exact): `a = d.d`,
/// `h = d.oc`, `c = oc.oc - radius^2`.
pub open spec fn quad_a(r: Ray) -> int {
    dot_wide(r.dir, r.dir)
}

pub open spec fn quad_h(s: Sphere, r: Ray) -> int {
    dot_wide(r.dir, oc_spec(s, r))
}

pub open spec fn quad_c(s: Sphere, r: Ray) -> int {
    dot_wide(oc_spec(s, r), oc_spec(s, r)) - s.radius * s.radius
}

/// Discriminant of the half-b quadratic, with 64 fractional bits.
pub open spec fn quad_disc(s: Sphere, r: Ray) -> int {
    quad_h(s, r) * quad_h(s, r) - quad_a(r) * quad_c(s, r)
}

/// The smaller root `(h - sqrt(disc)) / a`, in Q47.16.
pub open spec fn root_near(s: Sphere, r: Ray) -> int {
    tdiv((quad_h(s, r) - sqrt_floor(quad_disc(s, r) as nat)) * FX_ONE, quad_a(r))
}

/// The larger root `(h + sqrt(disc)) / a`, in Q47.16.
pub open spec fn root_far(s: Sphere, r: Ray) -> int {
    tdiv((quad_h(s, r) + sqrt_floor(quad_disc(s, r) as nat)) * FX_ONE, quad_a(r))
}

/// The root reported for acceptance window `(lo, hi)` (exclusive bounds):
/// the nearer root if it lies strictly inside, else the farther, else
/// nothing.  A degenerate direction or a negative discriminant reports
/// nothing.
pub open spec fn sphere_best_root(s: Sphere, r: Ray, lo: int, hi: int) -> Option<int> {
    if quad_a(r) == 0 || quad_disc(s, r) < 0 {
        None
    } else if lo < root_near(s, r) < hi {
        Some(root_near(s, r))
    } else if lo < root_far(s, r) < hi {
        Some(root_far(s, r))
    } else {
        None
    }
}

/// The first root strictly above `lo`, regardless of any upper bound.
pub open spec fn first_root_above(s: Sphere, r: Ray, lo: int) -> Option<int> {
    if quad_a(r) == 0 || quad_disc(s, r) < 0 {
        None
    } else if lo < root_near(s, r) {
        Some(root_near(s, r))
    } else if lo < root_far(s, r) {
        Some(root_far(s, r))
    } else {
        None
    }
}

/// Clamp a scalar into `[-b, b]`.
pub open spec fn clamp_mag(v: int, b: int) -> int {
    if v < -b {
        -b
    } else if v > b {
        b
    } else {
        v
    }
}

/// The outward normal at the hit point: `(p - center) / radius`
/// componentwise, each component clamped to twice one.
pub open spec fn outward_normal_spec(s: Sphere, r: Ray, t: int) -> Vec3 {
    let p = ray_at_spec(r, t);
    let c = center_at_spec(s, r.tm as int);
    Vec3 {
        x: clamp_mag(tdiv((p.x - c.x) * FX_ONE, s.radius as int), 2 * FX_ONE) as i64,
        y: clamp_mag(tdiv((p.y - c.y) * FX_ONE, s.radius as int), 2 * FX_ONE) as i64,
        z: clamp_mag(tdiv((p.z - c.z) * FX_ONE, s.radius as int), 2 * FX_ONE) as i64,
    }
}

/// The record a sphere hit at parameter `t` produces.
pub open spec fn sphere_rec_spec(s: Sphere, r: Ray, t: int) -> HitRecord {
    let p = ray_at_spec(r, t);
    let outward = outward_normal_spec(s, r, t);
    let front = dot_wide(r.dir, outward) < 0;
    HitRecord {
        p,
        normal: if front {
            outward
        } else {
            Vec3 { x: -outward.x as i64, y: -outward.y as i64, z: -outward.z as i64 }
        },
        material: Some(s.mat),
        t: t as i64,
        front_face: front,
    }
}

/// The axis-aligned box of a static sphere at center `c`.
pub open spec fn sphere_box_at(c: Point3, rad: int) -> AABB {
    AABB {
        x: Interval { min: (c.x - rad) as i64, max: (c.x + rad) as i64 },
        y: Interval { min: (c.y - rad) as i64, max: (c.y + rad) as i64 },
        z: Interval { min: (c.z - rad) as i64, max: (c.z + rad) as i64 },
    }
}

/// The bounding box: the static box, or the union of the boxes at the two
/// ends of the motion.
pub open spec fn sphere_bbox_spec(s: Sphere) -> AABB {
    match s.center2 {
        Option::None => sphere_box_at(s.center, s.radius as int),
        Option::Some(c2) => aabb_union_spec(
            sphere_box_at(s.center, s.radius as int),
            sphere_box_at(c2, s.radius as int),
        ),
    }
}

/// With `a > 0` the nearer root is at most the farther, so the reported
/// root for a window `(lo, hi)` is the first root above `lo` when that
/// root lies below `hi`, and nothing otherwise.
pub proof fn lemma_best_vs_first(s: Sphere, r: Ray, lo: int, hi: int)
    ensures
        sphere_best_root(s, r, lo, hi) == (match first_root_above(s, r, lo) {
            Option::Some(t) => if t < hi {
                Some(t)
            } else {
                None::<int>
            },
            Option::None => None::<int>,
        }),
{
    if quad_a(r) != 0 && quad_disc(s, r) >= 0 {
        assert(quad_a(r) > 0) by {
            crate::vec3::lemma_dot_wide_self(r.dir);
        }
        let sd = sqrt_floor(quad_disc(s, r) as nat) as int;
        assert(sd >= 0);
        lemma_tdiv_ordered(
            (quad_h(s, r) - sd) * FX_ONE,
            (quad_h(s, r) + sd) * FX_ONE,
            quad_a(r),
        );
        assert(root_near(s, r) <= root_far(s, r));
    }
}

impl Sphere {
    pub fn new(center: Point3, radius: i64, mat: usize) -> (s: Self)
        ensures
            s.center == center,
            s.radius == radius,
            s.mat == mat,
            s.center2 is None,
    {
        Self { center, radius, mat, center2: None }
    }

    /// A sphere moving linearly from `center` to `center2` over the ray
    /// time window.
    pub fn new_moving(center: Point3, center2: Point3, radius: i64, mat: usize) -> (s: Self)
        ensures
            s.center == center,
            s.radius == radius,
            s.mat == mat,
            s.center2 == Some(center2),
    {
        Self { center, radius, mat, center2: Some(center2) }
    }

    /// The center at ray time `tm`, staying within the world bound.
    pub fn center_at(&self, tm: i64) -> (c: Point3)
        requires
            sphere_wf(*self),
            0 <= tm <= FX_ONE,
        ensures
            c == center_at_spec(*self, tm as int),
            in_vec(c),
    {
        match self.center2 {
            None => self.center,
            Some(c2) => {
                proof {
                    lemma_lerp_component(self.center.x as int, c2.x as int, tm as int);
                    lemma_lerp_component(self.center.y as int, c2.y as int, tm as int);
                    lemma_lerp_component(self.center.z as int, c2.z as int, tm as int);
                }
                let dx = div_i128((tm as i128) * ((c2.x - self.center.x) as i128), FX_ONE as i128);
                let dy = div_i128((tm as i128) * ((c2.y - self.center.y) as i128), FX_ONE as i128);
                let dz = div_i128((tm as i128) * ((c2.z - self.center.z) as i128), FX_ONE as i128);
                Point3 {
                    x: self.center.x + dx as i64,
                    y: self.center.y + dy as i64,
                    z: self.center.z + dz as i64,
                }
            },
        }
    }

    /// The box bounding the sphere over its whole motion.
    pub fn bounding_box(&self) -> (b: AABB)
        requires
            sphere_wf(*self),
        ensures
            b == sphere_bbox_spec(*self),
            crate::aabb::aabb_in_range(b),
    {
        let rvec = Vec3 { x: self.radius, y: self.radius, z: self.radius };
        let lo1 = Point3 {
            x: self.center.x - self.radius,
            y: self.center.y - self.radius,
            z: self.center.z - self.radius,
        };
        let hi1 = Point3 {
            x: self.center.x + self.radius,
            y: self.center.y + self.radius,
            z: self.center.z + self.radius,
        };
        let box1 = AABB::with_points(&lo1, &hi1);
        match self.center2 {
            None => box1,
            Some(c2) => {
                let lo2 = Point3 {
                    x: c2.x - self.radius,
                    y: c2.y - self.radius,
                    z: c2.z - self.radius,
                };
                let hi2 = Point3 {
                    x: c2.x + self.radius,
                    y: c2.y + self.radius,
                    z: c2.z + self.radius,
                };
                let box2 = AABB::with_points(&lo2, &hi2);
                AABB::with_boxes(&box1, &box2)
            },
        }
    }

    /// Ray-sphere intersection over the window `(ray_t.min, ray_t.max)`,
    /// exclusive at both ends.  On a hit the record is rewritten whole; on
    /// a miss it is untouched.
    pub fn hit(&self, r: &Ray, ray_t: Interval, rec: &mut HitRecord) -> (hit: bool)
        requires
            sphere_wf(*self),
            ray_in_range(*r),
            0 <= r.tm <= FX_ONE,
            ray_t.in_t_range(),
        ensures
            ({
                let best = sphere_best_root(*self, *r, ray_t.min as int, ray_t.max as int);
                &&& (best matches Some(t) ==> hit && *final(rec) == sphere_rec_spec(*self, *r, t))
                &&& (best is None ==> !hit && *final(rec) == *old(rec))
            }),
    {
        let cat = self.center_at(r.tm);
        let ghost oc_g = oc_spec(*self, *r);
        let ocx = cat.x - r.orig.x;
        let ocy = cat.y - r.orig.y;
        let ocz = cat.z - r.orig.z;
        proof {
            assert(oc_g == (Vec3 { x: ocx as i64, y: ocy as i64, z: ocz as i64 }));
            lemma_quad_bounds(*self, *r);
            lemma_abs_mul_bound(r.dir.x as int, r.dir.x as int, COORD_MAX as int, COORD_MAX as int);
            lemma_abs_mul_bound(r.dir.y as int, r.dir.y as int, COORD_MAX as int, COORD_MAX as int);
            lemma_abs_mul_bound(r.dir.z as int, r.dir.z as int, COORD_MAX as int, COORD_MAX as int);
            lemma_abs_mul_bound(r.dir.x as int, ocx as int, COORD_MAX as int, 2 * COORD_MAX);
            lemma_abs_mul_bound(r.dir.y as int, ocy as int, COORD_MAX as int, 2 * COORD_MAX);
            lemma_abs_mul_bound(r.dir.z as int, ocz as int, COORD_MAX as int, 2 * COORD_MAX);
            lemma_abs_mul_bound(ocx as int, ocx as int, 2 * COORD_MAX, 2 * COORD_MAX);
            lemma_abs_mul_bound(ocy as int, ocy as int, 2 * COORD_MAX, 2 * COORD_MAX);
            lemma_abs_mul_bound(ocz as int, ocz as int, 2 * COORD_MAX, 2 * COORD_MAX);
            lemma_abs_mul_bound(
                self.radius as int,
                self.radius as int,
                COORD_MAX as int,
                COORD_MAX as int,
            );
        }
        let a32: i128 = (r.dir.x as i128) * (r.dir.x as i128) + (r.dir.y as i128) * (
        r.dir.y as i128) + (r.dir.z as i128) * (r.dir.z as i128);
        if a32 == 0 {
            return false;
        }
        let h32: i128 = (r.dir.x as i128) * (ocx as i128) + (r.dir.y as i128) * (ocy as i128) + (
        r.dir.z as i128) * (ocz as i128);
        let c32: i128 = (ocx as i128) * (ocx as i128) + (ocy as i128) * (ocy as i128) + (
        ocz as i128) * (ocz as i128) - (self.radius as i128) * (self.radius as i128);
        let disc: i128 = h32 * h32 - a32 * c32;
        if disc < 0 {
            return false;
        }
        let sqrtd: i128 = isqrt_u128(disc as u128) as i128;
        proof {
            lemma_sqrt_floor_bounds(quad_disc(*self, *r) as nat);
            lemma_root_fits(quad_h(*self, *r), sqrt_floor(quad_disc(*self, *r) as nat) as int);
        }
        let near = div_i128((h32 - sqrtd) * (FX_ONE as i128), a32);
        let far = div_i128((h32 + sqrtd) * (FX_ONE as i128), a32);
        let root: i128 = if (ray_t.min as i128) < near && near < (ray_t.max as i128) {
            near
        } else if (ray_t.min as i128) < far && far < (ray_t.max as i128) {
            far
        } else {
            return false;
        };
        let t = root as i64;
        let p = r.at(t);
        rec.t = t;
        rec.p = p;
        rec.material = Some(self.mat);
        let outward = outward_exec(&p, &cat, self.radius);
        rec.set_face_normal(r, &outward);
        true
    }
}

/// One interpolated center component stays within the world bound: the
/// correction has the sign of the difference and at most its magnitude.
proof fn lemma_lerp_component(c1: int, c2: int, tm: int)
    requires
        in_coord(c1),
        in_coord(c2),
        0 <= tm <= FX_ONE,
    ensures
        iabs(tm * (c2 - c1)) <= 0x1000_0000_0000_0000_0000,
        in_coord(c1 + fx_mul(tm, c2 - c1)),
{
    lemma_abs_mul_bound(tm, c2 - c1, FX_ONE as int, 2 * COORD_MAX);
    crate::fixed::lemma_tdiv_bound(tm * (c2 - c1), FX_ONE as int, 2 * COORD_MAX);
    let q = fx_mul(tm, c2 - c1);
    if c2 >= c1 {
        assert(tm * (c2 - c1) >= 0) by (nonlinear_arith)
            requires
                tm >= 0,
                c2 - c1 >= 0,
        ;
        assert(tm * (c2 - c1) <= FX_ONE * (c2 - c1)) by (nonlinear_arith)
            requires
                tm <= FX_ONE,
                c2 - c1 >= 0,
        ;
        crate::fixed::lemma_tdiv_bound(tm * (c2 - c1), FX_ONE as int, c2 - c1);
        lemma_tdiv_ordered(0, tm * (c2 - c1), FX_ONE as int);
        assert(0 <= q <= c2 - c1);
    } else {
        assert(tm * (c2 - c1) <= 0) by (nonlinear_arith)
            requires
                tm >= 0,
                c2 - c1 <= 0,
        ;
        assert(tm * (c2 - c1) >= FX_ONE * (c2 - c1)) by (nonlinear_arith)
            requires
                tm <= FX_ONE,
                tm >= 0,
                c2 - c1 <= 0,
        ;
        crate::fixed::lemma_tdiv_bound(tm * (c2 - c1), FX_ONE as int, c1 - c2);
        lemma_tdiv_ordered(tm * (c2 - c1), 0, FX_ONE as int);
        assert(c2 - c1 <= q <= 0);
    }
}

/// Magnitude bounds for every intermediate of the quadratic, small enough
/// for `i128`.
proof fn lemma_quad_bounds(s: Sphere, r: Ray)
    requires
        sphere_wf(s),
        ray_in_range(r),
        0 <= r.tm <= FX_ONE,
    ensures
        in_vec(center_at_spec(s, r.tm as int)),
        iabs(oc_spec(s, r).x as int) <= 2 * COORD_MAX,
        iabs(oc_spec(s, r).y as int) <= 2 * COORD_MAX,
        iabs(oc_spec(s, r).z as int) <= 2 * COORD_MAX,
        0 <= quad_a(r) <= 0x0300_0000_0000_0000,
        iabs(quad_h(s, r)) <= 0x0600_0000_0000_0000,
        iabs(quad_c(s, r)) <= 0x1000_0000_0000_0000,
        iabs(quad_h(s, r) * quad_h(s, r)) <= 0x24_0000_0000_0000_0000_0000_0000_0000,
        iabs(quad_a(r) * quad_c(s, r)) <= 0x30_0000_0000_0000_0000_0000_0000_0000,
        iabs(quad_disc(s, r)) <= 0x0100_0000_0000_0000_0000_0000_0000_0000,
{
    match s.center2 {
        Option::None => {},
        Option::Some(c2) => {
            lemma_lerp_component(s.center.x as int, c2.x as int, r.tm as int);
            lemma_lerp_component(s.center.y as int, c2.y as int, r.tm as int);
            lemma_lerp_component(s.center.z as int, c2.z as int, r.tm as int);
        },
    }
    let oc = oc_spec(s, r);
    crate::vec3::lemma_dot_wide_self(r.dir);
    lemma_dot_wide_bound(r.dir, r.dir, COORD_MAX as int, COORD_MAX as int);
    lemma_dot_wide_bound(r.dir, oc, COORD_MAX as int, 2 * COORD_MAX);
    lemma_dot_wide_bound(oc, oc, 2 * COORD_MAX, 2 * COORD_MAX);
    lemma_abs_mul_bound(s.radius as int, s.radius as int, COORD_MAX as int, COORD_MAX as int);
    lemma_abs_mul_bound(
        quad_h(s, r),
        quad_h(s, r),
        0x0600_0000_0000_0000,
        0x0600_0000_0000_0000,
    );
    lemma_abs_mul_bound(quad_a(r), quad_c(s, r), 0x0300_0000_0000_0000, 0x1000_0000_0000_0000);
}

/// The root numerators fit `i128` and never equal its minimum.
proof fn lemma_root_fits(h: int, sd: int)
    requires
        iabs(h) <= 0x0600_0000_0000_0000,
        0 <= sd,
        sd * sd <= 0x0100_0000_0000_0000_0000_0000_0000_0000,
    ensures
        iabs((h - sd) * FX_ONE) < 0x4000_0000_0000_0000_0000_0000_0000_0000,
        iabs((h + sd) * FX_ONE) < 0x4000_0000_0000_0000_0000_0000_0000_0000,
{
    assert(sd <= 0x1_0000_0000_0000_0000) by (nonlinear_arith)
        requires
            0 <= sd,
            sd * sd <= 0x0100_0000_0000_0000_0000_0000_0000_0000,
    ;
    lemma_abs_mul_bound(h - sd, FX_ONE as int, 0x2_0000_0000_0000_0000, FX_ONE as int);
    lemma_abs_mul_bound(h + sd, FX_ONE as int, 0x2_0000_0000_0000_0000, FX_ONE as int);
}

/// The clamped outward normal `(p - c) / radius`.
fn outward_exec(p: &Point3, c: &Point3, radius: i64) -> (n: Vec3)
    requires
        radius > 0,
        in_vec(*c),
    ensures
        n.x == clamp_mag(tdiv((p.x - c.x) * FX_ONE, radius as int), 2 * FX_ONE),
        n.y == clamp_mag(tdiv((p.y - c.y) * FX_ONE, radius as int), 2 * FX_ONE),
        n.z == clamp_mag(tdiv((p.z - c.z) * FX_ONE, radius as int), 2 * FX_ONE),
        iabs(n.x as int) <= 2 * FX_ONE,
        iabs(n.y as int) <= 2 * FX_ONE,
        iabs(n.z as int) <= 2 * FX_ONE,
{
    let nx = outward_component(p.x, c.x, radius);
    let ny = outward_component(p.y, c.y, radius);
    let nz = outward_component(p.z, c.z, radius);
    Vec3 { x: nx, y: ny, z: nz }
}

/// One clamped normal component.
fn outward_component(pc: i64, cc: i64, radius: i64) -> (n: i64)
    requires
        radius > 0,
        in_coord(cc as int),
    ensures
        n == clamp_mag(tdiv((pc - cc) * FX_ONE, radius as int), 2 * FX_ONE),
        iabs(n as int) <= 2 * FX_ONE,
{
    proof {
        lemma_abs_mul_bound(
            pc - cc,
            FX_ONE as int,
            0x9000_0000_0000_0000,
            FX_ONE as int,
        );
    }
    let num: i128 = ((pc as i128) - (cc as i128)) * (FX_ONE as i128);
    let q = div_i128(num, radius as i128);
    let bound: i128 = 2 * (FX_ONE as i128);
    if q < -bound {
        -(bound as i64)
    } else if q > bound {
        bound as i64
    } else {
        q as i64
    }
}


/// What the standalone near-root probe returns: the smaller quadratic root,
/// or minus one when the ray misses.
pub open spec fn hit_sphere_spec(center: Point3, radius: int, r: Ray) -> int {
    let s = Sphere { center, radius: radius as i64, mat: 0, center2: None };
    if quad_a(r) == 0 || quad_disc(s, r) < 0 {
        -FX_ONE as int
    } else {
        root_near(s, r)
    }
}

/// The same probe through the full quadratic: `(-b - sqrt(b^2 - 4ac)) / 2a`
/// with `b = -2h`, which floors the doubled discriminant's root.
pub open spec fn hit_sphere_naive_spec(center: Point3, radius: int, r: Ray) -> int {
    let s = Sphere { center, radius: radius as i64, mat: 0, center2: None };
    if quad_a(r) == 0 || quad_disc(s, r) < 0 {
        -FX_ONE as int
    } else {
        tdiv(
            (2 * quad_h(s, r) - sqrt_floor((4 * quad_disc(s, r)) as nat)) * FX_ONE,
            2 * quad_a(r),
        )
    }
}

/// Probe a static sphere with the half-b quadratic: the nearer root, or
/// minus one on a miss or a degenerate direction.
pub fn hit_sphere(center: &Point3, radius: i64, r: &Ray) -> (t: i64)
    requires
        in_vec(*center),
        0 < radius <= COORD_MAX,
        ray_in_range(*r),
        hit_sphere_spec(*center, radius as int, *r) <= i64::MAX,
        i64::MIN < hit_sphere_spec(*center, radius as int, *r),
    ensures
        t == hit_sphere_spec(*center, radius as int, *r),
{
    let ghost sg = Sphere { center: *center, radius, mat: 0, center2: None };
    let ocx = center.x - r.orig.x;
    let ocy = center.y - r.orig.y;
    let ocz = center.z - r.orig.z;
    proof {
        assert(center_at_spec(sg, r.tm as int) == *center);
        assert(oc_spec(sg, *r) == (Vec3 { x: ocx as i64, y: ocy as i64, z: ocz as i64 }));
        lemma_probe_bounds(sg, *r);
        lemma_abs_mul_bound(r.dir.x as int, r.dir.x as int, 0x1000_0000, 0x1000_0000);
        lemma_abs_mul_bound(r.dir.y as int, r.dir.y as int, 0x1000_0000, 0x1000_0000);
        lemma_abs_mul_bound(r.dir.z as int, r.dir.z as int, 0x1000_0000, 0x1000_0000);
        lemma_abs_mul_bound(r.dir.x as int, ocx as int, 0x1000_0000, 0x2000_0000);
        lemma_abs_mul_bound(r.dir.y as int, ocy as int, 0x1000_0000, 0x2000_0000);
        lemma_abs_mul_bound(r.dir.z as int, ocz as int, 0x1000_0000, 0x2000_0000);
        lemma_abs_mul_bound(ocx as int, ocx as int, 0x2000_0000, 0x2000_0000);
        lemma_abs_mul_bound(ocy as int, ocy as int, 0x2000_0000, 0x2000_0000);
        lemma_abs_mul_bound(ocz as int, ocz as int, 0x2000_0000, 0x2000_0000);
        lemma_abs_mul_bound(radius as int, radius as int, 0x1000_0000, 0x1000_0000);
    }
    let a32: i128 = (r.dir.x as i128) * (r.dir.x as i128) + (r.dir.y as i128) * (
    r.dir.y as i128) + (r.dir.z as i128) * (r.dir.z as i128);
    if a32 == 0 {
        return -FX_ONE;
    }
    let h32: i128 = (r.dir.x as i128) * (ocx as i128) + (r.dir.y as i128) * (ocy as i128) + (
    r.dir.z as i128) * (ocz as i128);
    let c32: i128 = (ocx as i128) * (ocx as i128) + (ocy as i128) * (ocy as i128) + (
    ocz as i128) * (ocz as i128) - (radius as i128) * (radius as i128);
    let disc: i128 = h32 * h32 - a32 * c32;
    if disc < 0 {
        return -FX_ONE;
    }
    let sqrtd: i128 = isqrt_u128(disc as u128) as i128;
    proof {
        lemma_sqrt_floor_bounds(quad_disc(sg, *r) as nat);
        lemma_root_fits(quad_h(sg, *r), sqrt_floor(quad_disc(sg, *r) as nat) as int);
    }
    let near = div_i128((h32 - sqrtd) * (FX_ONE as i128), a32);
    near as i64
}

/// Probe a static sphere with the full quadratic, as the earliest version
/// of the solver wrote it.
pub fn hit_sphere_naive(center: &Point3, radius: i64, r: &Ray) -> (t: i64)
    requires
        in_vec(*center),
        0 < radius <= COORD_MAX,
        ray_in_range(*r),
        hit_sphere_naive_spec(*center, radius as int, *r) <= i64::MAX,
        i64::MIN < hit_sphere_naive_spec(*center, radius as int, *r),
    ensures
        t == hit_sphere_naive_spec(*center, radius as int, *r),
{
    let ghost sg = Sphere { center: *center, radius, mat: 0, center2: None };
    let ocx = center.x - r.orig.x;
    let ocy = center.y - r.orig.y;
    let ocz = center.z - r.orig.z;
    proof {
        assert(center_at_spec(sg, r.tm as int) == *center);
        assert(oc_spec(sg, *r) == (Vec3 { x: ocx as i64, y: ocy as i64, z: ocz as i64 }));
        lemma_probe_bounds(sg, *r);
        lemma_abs_mul_bound(r.dir.x as int, r.dir.x as int, 0x1000_0000, 0x1000_0000);
        lemma_abs_mul_bound(r.dir.y as int, r.dir.y as int, 0x1000_0000, 0x1000_0000);
        lemma_abs_mul_bound(r.dir.z as int, r.dir.z as int, 0x1000_0000, 0x1000_0000);
        lemma_abs_mul_bound(r.dir.x as int, ocx as int, 0x1000_0000, 0x2000_0000);
        lemma_abs_mul_bound(r.dir.y as int, ocy as int, 0x1000_0000, 0x2000_0000);
        lemma_abs_mul_bound(r.dir.z as int, ocz as int, 0x1000_0000, 0x2000_0000);
        lemma_abs_mul_bound(ocx as int, ocx as int, 0x2000_0000, 0x2000_0000);
        lemma_abs_mul_bound(ocy as int, ocy as int, 0x2000_0000, 0x2000_0000);
        lemma_abs_mul_bound(ocz as int, ocz as int, 0x2000_0000, 0x2000_0000);
        lemma_abs_mul_bound(radius as int, radius as int, 0x1000_0000, 0x1000_0000);
    }
    let a32: i128 = (r.dir.x as i128) * (r.dir.x as i128) + (r.dir.y as i128) * (
    r.dir.y as i128) + (r.dir.z as i128) * (r.dir.z as i128);
    if a32 == 0 {
        return -FX_ONE;
    }
    let h32: i128 = (r.dir.x as i128) * (ocx as i128) + (r.dir.y as i128) * (ocy as i128) + (
    r.dir.z as i128) * (ocz as i128);
    let c32: i128 = (ocx as i128) * (ocx as i128) + (ocy as i128) * (ocy as i128) + (
    ocz as i128) * (ocz as i128) - (radius as i128) * (radius as i128);
    let b32: i128 = -2 * h32;
    proof {
        lemma_abs_mul_bound(
            -2 * quad_h(sg, *r),
            -2 * quad_h(sg, *r),
            0x0c00_0000_0000_0000,
            0x0c00_0000_0000_0000,
        );
        lemma_abs_mul_bound(
            4 * quad_a(*r),
            quad_c(sg, *r),
            0x0c00_0000_0000_0000,
            0x1000_0000_0000_0000,
        );
    }
    let disc: i128 = b32 * b32 - 4 * a32 * c32;
    proof {
        assert(b32 * b32 == 4 * (quad_h(sg, *r) * quad_h(sg, *r))) by (nonlinear_arith)
            requires
                b32 == -2 * quad_h(sg, *r),
        ;
        assert((4 * quad_a(*r)) * quad_c(sg, *r) == 4 * (quad_a(*r) * quad_c(sg, *r)))
            by (nonlinear_arith);
        assert(disc == 4 * quad_disc(sg, *r));
    }
    if disc < 0 {
        return -FX_ONE;
    }
    let sqrtd: i128 = isqrt_u128(disc as u128) as i128;
    proof {
        lemma_sqrt_floor_bounds((4 * quad_disc(sg, *r)) as nat);
        lemma_naive_fits(quad_h(sg, *r), sqrt_floor((4 * quad_disc(sg, *r)) as nat) as int);
    }
    let near = div_i128(((-b32) - sqrtd) * (FX_ONE as i128), 2 * a32);
    proof {
        assert((-b32) - sqrtd == 2 * quad_h(sg, *r) - sqrt_floor(
            (4 * quad_disc(sg, *r)) as nat,
        ));
    }
    near as i64
}

/// Intermediate bounds for the standalone probes (a static sphere).
proof fn lemma_probe_bounds(s: Sphere, r: Ray)
    requires
        sphere_wf(s),
        ray_in_range(r),
        s.center2 is None,
    ensures
        iabs(oc_spec(s, r).x as int) <= 2 * COORD_MAX,
        iabs(oc_spec(s, r).y as int) <= 2 * COORD_MAX,
        iabs(oc_spec(s, r).z as int) <= 2 * COORD_MAX,
        0 <= quad_a(r) <= 0x0300_0000_0000_0000,
        iabs(quad_h(s, r)) <= 0x0600_0000_0000_0000,
        iabs(quad_c(s, r)) <= 0x1000_0000_0000_0000,
        iabs(quad_h(s, r) * quad_h(s, r)) <= 0x24_0000_0000_0000_0000_0000_0000_0000,
        iabs(quad_a(r) * quad_c(s, r)) <= 0x30_0000_0000_0000_0000_0000_0000_0000,
        iabs(quad_disc(s, r)) <= 0x0100_0000_0000_0000_0000_0000_0000_0000,
{
    let oc = oc_spec(s, r);
    crate::vec3::lemma_dot_wide_self(r.dir);
    lemma_dot_wide_bound(r.dir, r.dir, COORD_MAX as int, COORD_MAX as int);
    lemma_dot_wide_bound(r.dir, oc, COORD_MAX as int, 2 * COORD_MAX);
    lemma_dot_wide_bound(oc, oc, 2 * COORD_MAX, 2 * COORD_MAX);
    lemma_abs_mul_bound(s.radius as int, s.radius as int, COORD_MAX as int, COORD_MAX as int);
    lemma_abs_mul_bound(
        quad_h(s, r),
        quad_h(s, r),
        0x0600_0000_0000_0000,
        0x0600_0000_0000_0000,
    );
    lemma_abs_mul_bound(quad_a(r), quad_c(s, r), 0x0300_0000_0000_0000, 0x1000_0000_0000_0000);
    lemma_abs_mul_bound(r.dir.x as int, r.dir.x as int, COORD_MAX as int, COORD_MAX as int);
    lemma_abs_mul_bound(r.dir.y as int, r.dir.y as int, COORD_MAX as int, COORD_MAX as int);
    lemma_abs_mul_bound(r.dir.z as int, r.dir.z as int, COORD_MAX as int, COORD_MAX as int);
    lemma_abs_mul_bound(r.dir.x as int, oc.x as int, COORD_MAX as int, 2 * COORD_MAX);
    lemma_abs_mul_bound(r.dir.y as int, oc.y as int, COORD_MAX as int, 2 * COORD_MAX);
    lemma_abs_mul_bound(r.dir.z as int, oc.z as int, COORD_MAX as int, 2 * COORD_MAX);
    lemma_abs_mul_bound(oc.x as int, oc.x as int, 2 * COORD_MAX, 2 * COORD_MAX);
    lemma_abs_mul_bound(oc.y as int, oc.y as int, 2 * COORD_MAX, 2 * COORD_MAX);
    lemma_abs_mul_bound(oc.z as int, oc.z as int, 2 * COORD_MAX, 2 * COORD_MAX);
}

/// Root numerators of the full quadratic fit `i128`.
proof fn lemma_naive_fits(h: int, sd: int)
    requires
        iabs(h) <= 0x0600_0000_0000_0000,
        0 <= sd,
        sd * sd <= 0x0400_0000_0000_0000_0000_0000_0000_0000,
    ensures
        iabs((2 * h - sd) * FX_ONE) < 0x4000_0000_0000_0000_0000_0000_0000_0000,
{
    assert(sd <= 0x2_0000_0000_0000_0000) by (nonlinear_arith)
        requires
            0 <= sd,
            sd * sd <= 0x0400_0000_0000_0000_0000_0000_0000_0000,
    ;
    lemma_abs_mul_bound(2 * h - sd, FX_ONE as int, 0x4_0000_0000_0000_0000, FX_ONE as int);
}

/// A ray whose origin lies strictly inside a sphere always hits it: from
/// inside, the discriminant is nonnegative and the farther root is
/// accepted by any window that opens below zero and reaches the far
/// sentinel.  The record reported for the accepted root carries the
/// clamped outward normal, kept as computed exactly when the ray meets the
/// surface from inside out.
pub proof fn lemma_hit_from_inside(s: Sphere, r: Ray, lo: int, hi: int)
    requires
        sphere_wf(s),
        ray_in_range(r),
        0 <= r.tm <= FX_ONE,
        quad_a(r) >= 4294967296,
        quad_c(s, r) < 0,
        lo < 0,
        hi >= T_FAR,
    ensures
        sphere_best_root(s, r, lo, hi) is Some,
        sphere_best_root(s, r, lo, hi) matches Some(t) ==> lo < t < hi && sphere_rec_spec(
            s,
            r,
            t,
        ).front_face == (dot_wide(r.dir, outward_normal_spec(s, r, t)) < 0) && (sphere_rec_spec(
            s,
            r,
            t,
        ).front_face ==> sphere_rec_spec(s, r, t).normal == outward_normal_spec(s, r, t)),
{
    lemma_quad_bounds(s, r);
    let a = quad_a(r);
    let h = quad_h(s, r);
    let c = quad_c(s, r);
    let disc = quad_disc(s, r);
    assert(a * c < 0) by (nonlinear_arith)
        requires
            a > 0,
            c < 0,
    ;
    assert(h * h >= 0) by (nonlinear_arith);
    assert(disc > 0);
    let sd = sqrt_floor(disc as nat) as int;
    lemma_sqrt_floor_bounds(disc as nat);
    assert(sd >= iabs(h)) by {
        if sd < iabs(h) {
            assert((sd + 1) * (sd + 1) <= iabs(h) * iabs(h)) by (nonlinear_arith)
                requires
                    sd + 1 <= iabs(h),
                    sd >= 0,
            ;
            assert(iabs(h) * iabs(h) == h * h) by (nonlinear_arith);
        }
    }
    assert(sd <= 0x1000_0000_0000_0000) by (nonlinear_arith)
        requires
            0 <= sd,
            sd * sd <= 0x0100_0000_0000_0000_0000_0000_0000_0000,
    ;
    let far = root_far(s, r);
    assert(h + sd >= 0);
    assert((h + sd) * FX_ONE >= 0) by (nonlinear_arith)
        requires
            h + sd >= 0,
    ;
    crate::fixed::lemma_tdiv_ordered(0, (h + sd) * FX_ONE, a);
    assert(far >= 0);
    let num = (h + sd) * FX_ONE;
    assert(-0x2000_0000_0000_0000_0000 <= num <= 0x2000_0000_0000_0000_0000)
        by (nonlinear_arith)
        requires
            num == (h + sd) * FX_ONE,
            FX_ONE == 65536,
            -0x0600_0000_0000_0000 <= h + sd <= 0x2000_0000_0000_0000,
    ;
    assert(iabs(num) <= 0x2000_0000_0000_0000_0000);
    assert(0x2000_0000_0000 * a >= 0x2000_0000_0000_0000_0000) by (nonlinear_arith)
        requires
            a >= 4294967296,
    ;
    crate::fixed::lemma_tdiv_bound(num, a, 0x2000_0000_0000);
    assert(far < T_FAR);
    lemma_best_vs_first(s, r, lo, hi);
    let near = root_near(s, r);
    crate::fixed::lemma_tdiv_ordered((h - sd) * FX_ONE, (h + sd) * FX_ONE, a);
    assert(near <= far);
}

} // verus!
