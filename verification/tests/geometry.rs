//! Vectors, rays, intervals, boxes and color quantization on concrete
//! values.

use raytracer::aabb::AABB;
use raytracer::interval::Interval;
use raytracer::ray::{Point3, Ray};
use raytracer::vec3::{cross, dot, unit_vector, Vec3};

const F: i64 = 65536;

#[test]
fn position_at_t() {
    let t = 5 * F;
    let start_pos = Point3::new(0, 0, 0);
    let dir = Vec3::new(0, 0, F);
    let ray = Ray::new(start_pos, dir);
    let end_pos = ray.at(t);
    assert_eq!(end_pos, Point3::new(0, 0, 5 * F));
}

#[test]
fn length() {
    let v = Vec3::new(2 * F, F, F);
    let expected = ((6.0f64).sqrt() * 65536.0).floor() as i64;
    assert_eq!(v.length(), expected);
}

#[test]
fn length_squared() {
    let v = Vec3::new(2 * F, F, F);
    assert_eq!(v.length_squared(), 6 * F);
}

#[test]
fn vector_componentwise_ops() {
    let a = Vec3::new(F, 2 * F, 3 * F);
    let b = Vec3::new(4 * F, 5 * F, 6 * F);
    let s = a.add(b);
    assert_eq!((s.x, s.y, s.z), (5 * F, 7 * F, 9 * F));
    let d = b.sub(a);
    assert_eq!((d.x, d.y, d.z), (3 * F, 3 * F, 3 * F));
    let p = a.mul(b);
    assert_eq!((p.x, p.y, p.z), (4 * F, 10 * F, 18 * F));
    let sc = a.scale(2 * F);
    assert_eq!((sc.x, sc.y, sc.z), (2 * F, 4 * F, 6 * F));
    let dv = b.div_scalar(2 * F);
    assert_eq!((dv.x, dv.y, dv.z), (2 * F, 5 * F / 2, 3 * F));
}

#[test]
fn dot_and_cross_of_axes() {
    let x = Vec3::new(F, 0, 0);
    let y = Vec3::new(0, F, 0);
    let z = Vec3::new(0, 0, F);
    assert_eq!(dot(x, y), 0);
    assert_eq!(dot(x, x), F);
    let c = cross(x, y);
    assert_eq!((c.x, c.y, c.z), (z.x, z.y, z.z));
}

#[test]
fn unit_vector_of_axis_multiple() {
    let v = Vec3::new(0, 7 * F, 0);
    let u = unit_vector(&v);
    assert_eq!((u.x, u.y, u.z), (0, F, 0));
}

#[test]
fn near_zero_threshold() {
    assert!(Vec3::new(255, -255, 0).near_zero());
    assert!(!Vec3::new(256, 0, 0).near_zero());
}

#[test]
fn interval_contains_and_surrounds() {
    let iv = Interval::new(0, F);
    assert!(iv.contains(0));
    assert!(iv.contains(F));
    assert!(!iv.surrounds(0));
    assert!(!iv.surrounds(F));
    assert!(iv.surrounds(1));
    assert!(!iv.contains(-1));
}

#[test]
fn interval_size_and_expand() {
    let iv = Interval::new(-F, F);
    assert_eq!(iv.size(), 2 * F);
    let wider = iv.expand(2 * F);
    assert_eq!(wider.min, -2 * F);
    assert_eq!(wider.max, 2 * F);
}

#[test]
fn interval_clamp_is_idempotent_on_samples() {
    let iv = Interval::new(-3 * F, 5 * F);
    let samples: [i64; 7] = [-10 * F, -3 * F, -1, 0, 12345, 5 * F, 9 * F];
    for &x in samples.iter() {
        let once = iv.clamp(x);
        let twice = iv.clamp(once);
        assert_eq!(once, twice);
        assert!(once >= iv.min && once <= iv.max);
    }
}

#[test]
fn aabb_union_contains_both_boxes() {
    let a = AABB::with_points(&Point3::new(-F, -F, -F), &Point3::new(0, 0, 0));
    let b = AABB::with_points(&Point3::new(F, F, F), &Point3::new(3 * F, 2 * F, F));
    let u = AABB::with_boxes(&a, &b);
    // Axis-aligned test points drawn from each operand.
    let pts = [
        (-F, -F, -F),
        (0, 0, 0),
        (-F / 2, -F / 3, 0),
        (F, F, F),
        (3 * F, 2 * F, F),
        (2 * F, 3 * F / 2, F),
    ];
    for &(x, y, z) in pts.iter() {
        assert!(u.x.min <= x && x <= u.x.max);
        assert!(u.y.min <= y && y <= u.y.max);
        assert!(u.z.min <= z && z <= u.z.max);
    }
}

#[test]
fn aabb_slab_test_narrows_window() {
    let b = AABB::with_points(&Point3::new(-F, -F, 2 * F), &Point3::new(F, F, 4 * F));
    let r = Ray::new(Point3::new(0, 0, 0), Vec3::new(0, 0, F));
    let mut window = Interval::new(0, 100 * F);
    assert!(b.hit(&r, &mut window));
    assert_eq!(window.min, 2 * F);
    assert_eq!(window.max, 4 * F);

    // A ray pointing away misses.
    let r2 = Ray::new(Point3::new(0, 0, 0), Vec3::new(0, 0, -F));
    let mut w2 = Interval::new(0, 100 * F);
    assert!(!b.hit(&r2, &mut w2));

    // A parallel ray whose origin is outside the slab misses.
    let r3 = Ray::new(Point3::new(3 * F, 0, 0), Vec3::new(0, 0, F));
    let mut w3 = Interval::new(0, 100 * F);
    assert!(!b.hit(&r3, &mut w3));
}

#[test]
fn longest_axis_picks_largest_extent() {
    let b = AABB::new(
        Interval::new(0, F),
        Interval::new(0, 5 * F),
        Interval::new(0, 2 * F),
    );
    assert_eq!(b.longest_axis(), 1);
}

#[test]
fn rgb_quantization_exact_values() {
    let c = Vec3::new(F, 0, F / 4);
    let rgb = c.get_rgb();
    // 1.0 gamma-corrects to 1.0, clamps just below one, lands on 255;
    // 0.25 gamma-corrects to 0.5, which is byte 128.
    assert_eq!(rgb[0], 255);
    assert_eq!(rgb[1], 0);
    assert_eq!(rgb[2], 128);
}
