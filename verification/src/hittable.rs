//! The intersection record and the flat list of primitives.
//!
//! A `HitRecord` carries the hit point, the outward-corrected normal, a
//! handle into the scene's material arena, the ray parameter, and whether
//! the ray met the surface from outside.  `HittableList` is the linear-scan
//! composite the bounding-volume hierarchy is built to avoid.

use vstd::prelude::*;

use crate::aabb::{aabb_contains_box, aabb_union_spec, AABB};
use crate::fixed::{iabs, FX_ONE};
use crate::interval::Interval;
use crate::ray::{ray_in_range, Point3, Ray};
use crate::sphere::{first_root_above, sphere_bbox_spec, sphere_rec_spec, sphere_wf, Sphere};
use crate::vec3::{dot_wide, in_vec, Vec3};

verus! {

#[derive(Clone, Copy, Debug)]
pub struct HitRecord {
    pub p: Point3,
    pub normal: Vec3,
    pub material: Option<usize>,
    pub t: i64,
    pub front_face: bool,
}

/// The all-zero record a traversal starts from.
pub open spec fn default_rec() -> HitRecord {
    HitRecord {
        p: Vec3 { x: 0, y: 0, z: 0 },
        normal: Vec3 { x: 0, y: 0, z: 0 },
        material: None,
        t: 0,
        front_face: false,
    }
}

impl Default for HitRecord {
    fn default() -> (r: Self)
        ensures
            r == default_rec(),
    {
        HitRecord {
            p: Vec3 { x: 0, y: 0, z: 0 },
            normal: Vec3 { x: 0, y: 0, z: 0 },
            material: None,
            t: 0,
            front_face: false,
        }
    }
}

impl HitRecord {
    /// Orient `outward_normal` against the incoming ray: the stored normal
    /// points against the ray, and `front_face` records whether the ray
    /// arrived from outside.  The test is on the exact wide dot product.
    pub fn set_face_normal(&mut self, r: &Ray, outward_normal: &Vec3)
        requires
            in_vec(r.dir),
            iabs(outward_normal.x as int) <= 2 * FX_ONE,
            iabs(outward_normal.y as int) <= 2 * FX_ONE,
            iabs(outward_normal.z as int) <= 2 * FX_ONE,
        ensures
            final(self).front_face == (dot_wide(r.dir, *outward_normal) < 0),
            final(self).normal == if dot_wide(r.dir, *outward_normal) < 0 {
                *outward_normal
            } else {
                Vec3 {
                    x: -outward_normal.x as i64,
                    y: -outward_normal.y as i64,
                    z: -outward_normal.z as i64,
                }
            },
            final(self).p == old(self).p,
            final(self).material == old(self).material,
            final(self).t == old(self).t,
    {
        proof {
            crate::vec3::lemma_abs_mul_bound(
                r.dir.x as int,
                outward_normal.x as int,
                0x1000_0000,
                2 * FX_ONE,
            );
            crate::vec3::lemma_abs_mul_bound(
                r.dir.y as int,
                outward_normal.y as int,
                0x1000_0000,
                2 * FX_ONE,
            );
            crate::vec3::lemma_abs_mul_bound(
                r.dir.z as int,
                outward_normal.z as int,
                0x1000_0000,
                2 * FX_ONE,
            );
        }
        let dw: i128 = (r.dir.x as i128) * (outward_normal.x as i128) + (r.dir.y as i128) * (
        outward_normal.y as i128) + (r.dir.z as i128) * (outward_normal.z as i128);
        self.front_face = dw < 0;
        self.normal = if self.front_face {
            *outward_normal
        } else {
            Vec3 { x: -outward_normal.x, y: -outward_normal.y, z: -outward_normal.z }
        };
    }
}

/// The first object (in list order) achieving the nearest acceptable root
/// above `lo`: `Some((index, t))` where `t` is the minimum over the list of
/// `first_root_above`, and `index` is the first index achieving it.
pub open spec fn list_winner(ss: Seq<Sphere>, r: Ray, lo: int) -> Option<(int, int)>
    decreases ss.len(),
{
    if ss.len() == 0 {
        None
    } else {
        let prev = list_winner(ss.drop_last(), r, lo);
        let cur = first_root_above(ss.last(), r, lo);
        match prev {
            Option::None => match cur {
                Option::None => None,
                Option::Some(tc) => Some((ss.len() - 1, tc)),
            },
            Option::Some((i, t)) => match cur {
                Option::None => Some((i, t)),
                Option::Some(tc) => if tc < t {
                    Some((ss.len() - 1, tc))
                } else {
                    Some((i, t))
                },
            },
        }
    }
}

/// What the linear scan computes, as a pair: whether anything was hit and
/// the record left behind.
pub open spec fn list_hit_res(ss: Seq<Sphere>, r: Ray, lo: int, hi: int, rec0: HitRecord) -> (
    bool,
    HitRecord,
) {
    match list_winner(ss, r, lo) {
        Option::Some((i, t)) => if t < hi {
            (true, sphere_rec_spec(ss[i], r, t))
        } else {
            (false, rec0)
        },
        Option::None => (false, rec0),
    }
}

/// An unordered collection of primitives with the union of their boxes.
#[derive(Debug)]
pub struct HittableList {
    pub objects: Vec<Sphere>,
    pub bbox: AABB,
}

impl HittableList {
    /// Every member is well formed and the box bounds every member's box.
    pub open spec fn wf(self) -> bool {
        forall|i: int|
            0 <= i < self.objects@.len() ==> #[trigger] sphere_wf(self.objects@[i])
                && aabb_contains_box(self.bbox, sphere_bbox_spec(self.objects@[i]))
    }

    /// Starts from the empty box, so the box is the union of the members'
    /// boxes alone.
    pub fn new() -> (r: Self)
        ensures
            r.wf(),
            r.objects@.len() == 0,
            r.bbox.x.min == crate::fixed::T_FAR && r.bbox.x.max == -crate::fixed::T_FAR,
    {
        Self { objects: Vec::new(), bbox: AABB::empty() }
    }

    pub fn bounding_box(&self) -> (r: AABB)
        ensures
            r == self.bbox,
    {
        self.bbox
    }

    /// Add a primitive, growing the box by union.
    pub fn add(&mut self, object: Sphere)
        requires
            old(self).wf(),
            sphere_wf(object),
        ensures
            final(self).wf(),
            final(self).objects@ == old(self).objects@.push(object),
            final(self).bbox == aabb_union_spec(old(self).bbox, sphere_bbox_spec(object)),
    {
        let obox = object.bounding_box();
        self.bbox = AABB::with_boxes(&self.bbox, &obox);
        self.objects.push(object);
        proof {
            assert forall|i: int| 0 <= i < self.objects@.len() implies #[trigger] sphere_wf(
                self.objects@[i],
            ) && aabb_contains_box(self.bbox, sphere_bbox_spec(self.objects@[i])) by {
                if i < self.objects@.len() - 1 {
                    assert(sphere_wf(old(self).objects@[i]));
                    assert(aabb_contains_box(old(self).bbox, sphere_bbox_spec(old(self).objects@[i])));
                }
            }
        }
    }

    /// Drop all primitives.  The box is the union of the members' boxes,
    /// so it returns to the empty box.
    pub fn clear(&mut self)
        ensures
            final(self).objects@.len() == 0,
            final(self).bbox.x.min == crate::fixed::T_FAR && final(self).bbox.x.max
                == -crate::fixed::T_FAR,
            final(self).bbox.y.min == crate::fixed::T_FAR && final(self).bbox.y.max
                == -crate::fixed::T_FAR,
            final(self).bbox.z.min == crate::fixed::T_FAR && final(self).bbox.z.max
                == -crate::fixed::T_FAR,
            final(self).wf(),
    {
        self.objects.clear();
        self.bbox = AABB::empty();
    }

    /// Linear scan: test every member, keeping only hits that tighten the
    /// closest parameter found so far.  The record left behind is that of
    /// the first member achieving the nearest acceptable root.
    pub fn hit(&self, r: &Ray, ray_t: Interval, rec: &mut HitRecord) -> (hit: bool)
        requires
            self.wf(),
            ray_in_range(*r),
            0 <= r.tm <= FX_ONE,
            ray_t.in_t_range(),
        ensures
            ({
                let w = list_winner(self.objects@, *r, ray_t.min as int);
                &&& (w matches Some((i, t)) ==> if t < ray_t.max {
                    hit && 0 <= i < self.objects@.len() && *final(rec) == sphere_rec_spec(
                        self.objects@[i],
                        *r,
                        t,
                    )
                } else {
                    !hit && *final(rec) == *old(rec)
                })
                &&& (w is None ==> !hit && *final(rec) == *old(rec))
            }),
            (hit, *final(rec)) == list_hit_res(
                self.objects@,
                *r,
                ray_t.min as int,
                ray_t.max as int,
                *old(rec),
            ),
            hit ==> ray_t.min < final(rec).t < ray_t.max,
            hit ==> final(rec).material is Some && iabs(final(rec).normal.x as int) <= 2 * FX_ONE
                && iabs(final(rec).normal.y as int) <= 2 * FX_ONE && iabs(
                final(rec).normal.z as int,
            ) <= 2 * FX_ONE,
            !hit ==> *final(rec) == *old(rec),
    {
        let mut hit_anything = false;
        let mut closest_so_far: i64 = ray_t.max;
        let n = self.objects.len();
        let mut k: usize = 0;
        while k < n
            invariant
                n == self.objects@.len(),
                0 <= k <= n,
                self.wf(),
                ray_in_range(*r),
                0 <= r.tm <= FX_ONE,
                ray_t.in_t_range(),
                -crate::fixed::T_FAR <= closest_so_far <= crate::fixed::T_FAR,
                ({
                    let w = list_winner(self.objects@.take(k as int), *r, ray_t.min as int);
                    &&& (w matches Some((i, t)) ==> if t < ray_t.max {
                        hit_anything && 0 <= i < k && closest_so_far == t && *rec
                            == sphere_rec_spec(self.objects@[i], *r, t)
                    } else {
                        !hit_anything && closest_so_far == ray_t.max && *rec == *old(rec)
                    })
                    &&& (w is None ==> !hit_anything && closest_so_far == ray_t.max && *rec
                        == *old(rec))
                }),
            decreases n - k,
        {
            let ghost pre_winner = list_winner(self.objects@.take(k as int), *r, ray_t.min as int);
            let obj = &self.objects[k];
            let window = Interval::new(ray_t.min, closest_so_far);
            let got = obj.hit(r, window, rec);
            proof {
                crate::sphere::lemma_best_vs_first(
                    self.objects@[k as int],
                    *r,
                    ray_t.min as int,
                    closest_so_far as int,
                );
                assert(self.objects@.take(k + 1).drop_last() =~= self.objects@.take(k as int));
                assert(self.objects@.take(k + 1).last() == self.objects@[k as int]);
            }
            if got {
                hit_anything = true;
                closest_so_far = rec.t;
            }
            k = k + 1;
        }
        proof {
            assert(self.objects@.take(n as int) =~= self.objects@);
            lemma_winner_above(self.objects@, *r, ray_t.min as int);
        }
        hit_anything
    }
}

/// Comparators ordering primitives by the low end of their boxes along a
/// fixed axis, as the hierarchy's sort uses them.
pub struct HittableAxisCompare;

impl HittableAxisCompare {
    fn box_compare(a: &Sphere, b: &Sphere, axis_index: i32) -> (r: core::cmp::Ordering)
        requires
            sphere_wf(*a),
            sphere_wf(*b),
        ensures
            ({
                let ka = crate::aabb::axis_spec(sphere_bbox_spec(*a), axis_index as int).min;
                let kb = crate::aabb::axis_spec(sphere_bbox_spec(*b), axis_index as int).min;
                &&& (ka < kb <==> r is Less)
                &&& (ka == kb <==> r is Equal)
                &&& (ka > kb <==> r is Greater)
            }),
    {
        let ba = a.bounding_box();
        let bb = b.bounding_box();
        let ka = ba.axis_interval(axis_index).min;
        let kb = bb.axis_interval(axis_index).min;
        if ka < kb {
            core::cmp::Ordering::Less
        } else if ka == kb {
            core::cmp::Ordering::Equal
        } else {
            core::cmp::Ordering::Greater
        }
    }

    pub fn box_compare_x(a: &Sphere, b: &Sphere) -> (r: core::cmp::Ordering)
        requires
            sphere_wf(*a),
            sphere_wf(*b),
        ensures
            r is Less <==> sphere_bbox_spec(*a).x.min < sphere_bbox_spec(*b).x.min,
            r is Equal <==> sphere_bbox_spec(*a).x.min == sphere_bbox_spec(*b).x.min,
            r is Greater <==> sphere_bbox_spec(*a).x.min > sphere_bbox_spec(*b).x.min,
    {
        Self::box_compare(a, b, 0)
    }

    pub fn box_compare_y(a: &Sphere, b: &Sphere) -> (r: core::cmp::Ordering)
        requires
            sphere_wf(*a),
            sphere_wf(*b),
        ensures
            r is Less <==> sphere_bbox_spec(*a).y.min < sphere_bbox_spec(*b).y.min,
            r is Equal <==> sphere_bbox_spec(*a).y.min == sphere_bbox_spec(*b).y.min,
            r is Greater <==> sphere_bbox_spec(*a).y.min > sphere_bbox_spec(*b).y.min,
    {
        Self::box_compare(a, b, 1)
    }

    pub fn box_compare_z(a: &Sphere, b: &Sphere) -> (r: core::cmp::Ordering)
        requires
            sphere_wf(*a),
            sphere_wf(*b),
        ensures
            r is Less <==> sphere_bbox_spec(*a).z.min < sphere_bbox_spec(*b).z.min,
            r is Equal <==> sphere_bbox_spec(*a).z.min == sphere_bbox_spec(*b).z.min,
            r is Greater <==> sphere_bbox_spec(*a).z.min > sphere_bbox_spec(*b).z.min,
    {
        Self::box_compare(a, b, 2)
    }
}

/// A winner, if any, is the first root above `lo` of the member at its
/// index, and in particular lies strictly above `lo`.
pub proof fn lemma_winner_above(ss: Seq<Sphere>, r: Ray, lo: int)
    ensures
        list_winner(ss, r, lo) matches Some((i, t)) ==> 0 <= i < ss.len() && first_root_above(
            ss[i],
            r,
            lo,
        ) == Some(t) && t > lo,
    decreases ss.len(),
{
    if ss.len() > 0 {
        lemma_winner_above(ss.drop_last(), r, lo);
        match list_winner(ss, r, lo) {
            Option::Some((i, t)) => {
                if i < ss.len() - 1 {
                    assert(ss.drop_last()[i] == ss[i]);
                }
            },
            Option::None => {},
        }
    }
}

} // verus!
