//! Intersection: spheres, the linear list, the hierarchy, and the
//! agreement between the two traversals.

use raytracer::bvh::{BvhTree, World};
use raytracer::hittable::{HitRecord, HittableList};
use raytracer::interval::Interval;
use raytracer::ray::{Point3, Ray};
use raytracer::sphere::{hit_sphere, hit_sphere_naive, Sphere};
use raytracer::vec3::Vec3;

const F: i64 = 65536;
const T_FAR: i64 = 0x4000_0000_0000;

fn default_rec() -> HitRecord {
    HitRecord {
        p: Vec3::new(0, 0, 0),
        normal: Vec3::new(0, 0, 0),
        material: None,
        t: 0,
        front_face: false,
    }
}

#[test]
fn sphere_hit_from_outside_exact() {
    let s = Sphere::new(Point3::new(0, 0, 0), F, 7);
    let r = Ray::new(Point3::new(0, 0, -3 * F), Vec3::new(0, 0, F));
    let mut rec = default_rec();
    let hit = s.hit(&r, Interval::new(66, T_FAR), &mut rec);
    assert!(hit);
    // The near face is two units along the ray.
    assert_eq!(rec.t, 2 * F);
    assert_eq!((rec.p.x, rec.p.y, rec.p.z), (0, 0, -F));
    // Met from outside: the normal is the outward normal, exactly unit
    // here, pointing back along the ray.
    assert!(rec.front_face);
    assert_eq!((rec.normal.x, rec.normal.y, rec.normal.z), (0, 0, -F));
    assert_eq!(rec.material, Some(7));
}

#[test]
fn sphere_hit_from_inside_reports_backface() {
    let s = Sphere::new(Point3::new(0, 0, 0), F, 0);
    let r = Ray::new(Point3::new(0, 0, 0), Vec3::new(0, 0, F));
    let mut rec = default_rec();
    let hit = s.hit(&r, Interval::new(66, T_FAR), &mut rec);
    assert!(hit);
    assert_eq!(rec.t, F);
    assert!(!rec.front_face);
    // The stored normal is flipped against the ray; the outward normal it
    // was made from has unit length up to quantization.
    let n = rec.normal;
    assert_eq!((n.x, n.y, n.z), (0, 0, -F));
    let len_sq = (n.x * n.x + n.y * n.y + n.z * n.z) / F;
    assert!((len_sq - F).abs() <= 16);
}

#[test]
fn sphere_miss_leaves_record_untouched() {
    let s = Sphere::new(Point3::new(0, 0, 10 * F), F, 0);
    let r = Ray::new(Point3::new(0, 0, 0), Vec3::new(0, F, 0));
    let mut rec = default_rec();
    rec.t = 12345;
    let hit = s.hit(&r, Interval::new(66, T_FAR), &mut rec);
    assert!(!hit);
    assert_eq!(rec.t, 12345);
}

#[test]
fn moving_sphere_follows_its_center() {
    let s = Sphere::new_moving(Point3::new(0, 0, 2 * F), Point3::new(0, 4 * F, 2 * F), F, 0);
    // At time zero the center is on the ray axis.
    let r0 = Ray::new_tm(Point3::new(0, 0, 0), Vec3::new(0, 0, F), 0);
    let mut rec = default_rec();
    assert!(s.hit(&r0, Interval::new(66, T_FAR), &mut rec));
    // At time one the sphere has moved four units up and the same ray
    // misses.
    let r1 = Ray::new_tm(Point3::new(0, 0, 0), Vec3::new(0, 0, F), F);
    let mut rec1 = default_rec();
    assert!(!s.hit(&r1, Interval::new(66, T_FAR), &mut rec1));
}

#[test]
fn standalone_probes_agree_on_unit_sphere() {
    let center = Point3::new(0, 0, 2 * F);
    let r = Ray::new(Point3::new(0, 0, 0), Vec3::new(0, 0, F));
    assert_eq!(hit_sphere(&center, F, &r), F);
    assert_eq!(hit_sphere_naive(&center, F, &r), F);
    let away = Ray::new(Point3::new(0, 0, 0), Vec3::new(0, 0, -F));
    assert_eq!(hit_sphere(&center, F, &away), -3 * F);
    // A ray pointing nowhere near reports the miss sentinel.
    let miss = Ray::new(Point3::new(0, 0, 0), Vec3::new(F, 0, 0));
    assert_eq!(hit_sphere(&center, F, &miss), -F);
}

#[test]
fn list_scan_reports_nearest_of_two() {
    let mut list = HittableList::new();
    list.add(Sphere::new(Point3::new(0, 0, 6 * F), F, 1));
    list.add(Sphere::new(Point3::new(0, 0, 3 * F), F, 2));
    let r = Ray::new(Point3::new(0, 0, 0), Vec3::new(0, 0, F));
    let mut rec = default_rec();
    assert!(list.hit(&r, Interval::new(66, T_FAR), &mut rec));
    assert_eq!(rec.t, 2 * F);
    assert_eq!(rec.material, Some(2));
}

/// A small deterministic generator for scene layouts.
struct Lcg(u64);

impl Lcg {
    fn next(&mut self) -> u64 {
        self.0 = self.0.wrapping_mul(6364136223846793005).wrapping_add(1442695040888963407);
        self.0 >> 33
    }

    fn coord(&mut self, span: i64) -> i64 {
        (self.next() % (2 * span as u64)) as i64 - span
    }
}

fn random_scene(n: usize, seed: u64) -> HittableList {
    let mut list = HittableList::new();
    let mut g = Lcg(seed);
    for k in 0..n {
        let c = Point3::new(g.coord(60 * F), g.coord(60 * F), g.coord(60 * F));
        let radius = F / 2 + (g.next() % (2 * F as u64)) as i64;
        list.add(Sphere::new(c, radius, k));
    }
    list
}

fn compare_traversals(n: usize, seed: u64) {
    let list = random_scene(n, seed);
    let tree = BvhTree::build(random_scene(n, seed));
    let flat = World::List(list);
    let fast = World::Tree(tree);
    let mut g = Lcg(seed ^ 0x9e3779b97f4a7c15);
    for _ in 0..50 {
        let orig = Point3::new(g.coord(80 * F), g.coord(80 * F), g.coord(80 * F));
        let dir = Vec3::new(g.coord(F), g.coord(F), g.coord(F));
        if dir.x == 0 && dir.y == 0 && dir.z == 0 {
            continue;
        }
        let r = Ray::new(orig, dir);
        let mut rec_a = default_rec();
        let mut rec_b = default_rec();
        let ha = flat.hit(&r, Interval::new(66, T_FAR), &mut rec_a);
        let hb = fast.hit(&r, Interval::new(66, T_FAR), &mut rec_b);
        assert_eq!(ha, hb);
        if ha {
            assert_eq!(rec_a.t, rec_b.t);
        }
    }
}

#[test]
fn traversals_agree_size_one() {
    compare_traversals(1, 11);
}

#[test]
fn traversals_agree_size_two() {
    compare_traversals(2, 22);
}

#[test]
fn traversals_agree_size_ten() {
    compare_traversals(10, 33);
}

#[test]
fn traversals_agree_size_thousand() {
    compare_traversals(1000, 44);
}

#[test]
fn bvh_round_trip_hits_each_primitive() {
    // Well-separated spheres on a line; a ray from each sphere's box
    // center (its own center) must report that very primitive.
    let mut list = HittableList::new();
    for k in 0..10usize {
        list.add(Sphere::new(Point3::new(10 * F * (k as i64), 0, 0), F, k));
    }
    let tree = BvhTree::build(list);
    let centers: Vec<(Point3, usize)> = tree
        .list
        .objects
        .iter()
        .map(|s| (s.center, s.mat))
        .collect();
    let world = World::Tree(tree);
    for (c, id) in centers {
        let r = Ray::new(c, Vec3::new(0, 0, F));
        let mut rec = default_rec();
        assert!(world.hit(&r, Interval::new(66, T_FAR), &mut rec));
        assert_eq!(rec.material, Some(id));
        assert_eq!(rec.t, F);
    }
}

#[test]
fn clearing_the_list_resets_its_box() {
    let mut list = HittableList::new();
    list.add(Sphere::new(Point3::new(3 * F, 4 * F, 5 * F), F, 0));
    let grown = list.bounding_box();
    assert_eq!(grown.x.min, 2 * F);
    assert_eq!(grown.x.max, 4 * F);
    list.clear();
    let reset = list.bounding_box();
    assert_eq!(reset.x.min, T_FAR);
    assert_eq!(reset.x.max, -T_FAR);
    assert_eq!(reset.y.min, T_FAR);
    assert_eq!(reset.z.max, -T_FAR);
    assert_eq!(list.objects.len(), 0);
}

#[test]
fn bvh_build_keeps_every_primitive() {
    let list = random_scene(50, 77);
    let mut before: Vec<(i64, i64, i64)> =
        list.objects.iter().map(|s| (s.center.x, s.center.y, s.center.z)).collect();
    let tree = BvhTree::build(list);
    let mut after: Vec<(i64, i64, i64)> =
        tree.list.objects.iter().map(|s| (s.center.x, s.center.y, s.center.z)).collect();
    before.sort();
    after.sort();
    assert_eq!(before, after);
}
