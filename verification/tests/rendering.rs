//! Materials, textures, the integrator's fixed cases, and the progressive
//! session.

use raytracer::bvh::{BvhTree, World};
use raytracer::camera::Camera;
use raytracer::hittable::{HitRecord, HittableList};
use raytracer::material::{Dielectric, Lambertian, Material, Metal};
use raytracer::perlin::Perlin;
use raytracer::ray::{Point3, Ray};
use raytracer::scene::{CameraUpdate, Scene};
use raytracer::sphere::Sphere;
use raytracer::texture::{CheckerTexture, RTImage, SolidColor, Texture};
use raytracer::utils::degrees_to_radians;
use raytracer::vec3::Vec3;

const F: i64 = 65536;

fn demo_camera() -> Camera {
    Camera::new(
        400,
        116508,
        4,
        8,
        20 * F,
        Point3::new(13 * F, 2 * F, 3 * F),
        Point3::new(0, 0, 0),
        Vec3::new(0, F, 0),
        0,
        12 * F,
    )
}

fn empty_world() -> World {
    World::List(HittableList::new())
}

fn white_sphere_world() -> (World, Vec<Material>) {
    let mut list = HittableList::new();
    list.add(Sphere::new(Point3::new(0, 0, 0), F, 0));
    let mats = vec![
        Material::Lambertian(Lambertian::new(Vec3::new(F, F, F))),
    ];
    (World::Tree(BvhTree::build(list)), mats)
}

#[test]
fn test_render() {
    let mut list = HittableList::new();
    list.add(Sphere::new(Point3::new(0, 0, 0), F, 0));
    list.add(Sphere::new(Point3::new(0, -101 * F, 0), 100 * F, 1));
    let mats = vec![
        Material::Lambertian(Lambertian::new(Vec3::new(F / 2, F / 2, F / 2))),
        Material::Metal(Metal::new(Vec3::new(F / 2, F / 2, F / 2), 0)),
    ];
    let world = World::Tree(BvhTree::build(list));
    let mut scene = Scene::new(16, 116508, 1, 4, world, mats);
    scene.render();
    assert_eq!(scene.current_samples(), 1);
    let w = scene.image_width();
    let h = scene.image_height();
    assert_eq!(scene.get_image().len(), 4 * w * h);
    // Alpha stays opaque everywhere.
    for k in 0..(w * h) {
        assert_eq!(scene.get_image()[4 * k + 3], 255);
    }
}

#[test]
fn camera_viewport_height_for_demo_config() {
    let cam = demo_camera();
    // 400 wide at 16:9 gives the classic 225-row image.
    assert_eq!(cam.image_height, 225);
    assert!(cam.pixel_samples_scale == F / 4);
}

#[test]
fn random_scalars_stay_in_their_ranges() {
    for _ in 0..200 {
        let d = raytracer::utils::random_double();
        assert!(0 <= d && d < F);
        let r = raytracer::utils::random_double_range(-3 * F, 5 * F);
        assert!(-3 * F <= r && r < 5 * F);
        let k = raytracer::utils::random_int(3, 5);
        assert!(3 <= k && k <= 5);
    }
    // The random unit direction keeps every component within one and its
    // squared length near one.
    for _ in 0..50 {
        let v = Vec3::random_unit_vector();
        assert!(v.x.abs() <= F && v.y.abs() <= F && v.z.abs() <= F);
        let w = v.x * v.x + v.y * v.y + v.z * v.z;
        assert!(1024000000 <= w && w <= 12884901888);
    }
    // Disk samples stay strictly inside the unit disk.
    for _ in 0..50 {
        let d = Vec3::random_in_unit_disk();
        assert_eq!(d.z, 0);
        assert!(d.x * d.x + d.y * d.y < 4294967296);
    }
}

#[test]
fn degrees_to_radians_half_turn() {
    // 180 degrees is pi: the fixed-point pi constant itself.
    assert_eq!(degrees_to_radians(180 * F), 205887);
}

#[test]
fn depth_exhausted_is_black() {
    let cam = demo_camera();
    let (world, mats) = white_sphere_world();
    let r = Ray::new(Point3::new(0, 0, -3 * F), Vec3::new(0, 0, F));
    let c = cam.ray_color(r, &world, &mats, 0);
    assert_eq!((c.x, c.y, c.z), (0, 0, 0));
}

#[test]
fn miss_yields_exact_background_gradient() {
    let cam = demo_camera();
    let world = empty_world();
    let mats: Vec<Material> = Vec::new();
    // Straight along z: the unit direction has zero height, the blend
    // factor is one half, and each channel is the midpoint of white and
    // the sky color.
    let r = Ray::new(Point3::new(0, 0, 0), Vec3::new(0, 0, F));
    let c = cam.ray_color(r, &world, &mats, 8);
    assert_eq!((c.x, c.y, c.z), (49152, 55705, 65536));
    // Straight up: the blend factor is one, pure sky color.
    let up = Ray::new(Point3::new(0, 0, 0), Vec3::new(0, F, 0));
    let cu = cam.ray_color(up, &world, &mats, 8);
    assert_eq!((cu.x, cu.y, cu.z), (32768, 45875, 65536));
}

#[test]
fn absorptive_scene_beside_background() {
    // A metal with full fuzz absorbs many scatters; whatever it does, a
    // ray that hits nothing must still be exactly the background.
    let mut list = HittableList::new();
    list.add(Sphere::new(Point3::new(0, 0, 50 * F), F, 0));
    let mats = vec![
        Material::Metal(Metal::new(Vec3::new(F / 2, F / 2, F / 2), F)),
    ];
    let world = World::Tree(BvhTree::build(list));
    let cam = demo_camera();
    let r = Ray::new(Point3::new(0, 0, 0), Vec3::new(F, 0, 0));
    let c = cam.ray_color(r, &world, &mats, 8);
    assert_eq!((c.x, c.y, c.z), (49152, 55705, 65536));
}

#[test]
fn white_sphere_averages_darker_than_sky() {
    let cam = demo_camera();
    let (world, mats) = white_sphere_world();
    // Rays into the sphere from the front: radiance comes only from the
    // sky through white diffuse bounces, so the average must stay
    // strictly between black and the zenith sky, darker than a straight
    // miss would be.
    let trials = 400;
    let mut sum_x: i64 = 0;
    for _ in 0..trials {
        let r = Ray::new(Point3::new(0, 0, -3 * F), Vec3::new(0, 0, F));
        let c = cam.ray_color(r, &world, &mats, 16);
        assert!(0 <= c.x && c.x <= F);
        sum_x += c.x;
    }
    let avg_x = sum_x / trials;
    // A straight miss in this direction would read 49152 in the warm
    // channel; bounced sky light averages near the hemisphere mean,
    // strictly between black and full white.
    assert!(avg_x > 38000, "hemisphere average unexpectedly dark: {}", avg_x);
    assert!(avg_x < 60000, "hemisphere average unexpectedly bright: {}", avg_x);
}

#[test]
fn lambertian_scatters_from_hit_point() {
    let mat = Material::Lambertian(Lambertian::new(Vec3::new(F / 2, F / 4, F / 8)));
    let rec = HitRecord {
        p: Point3::new(F, 2 * F, 3 * F),
        normal: Vec3::new(0, 0, -F),
        material: Some(0),
        t: 2 * F,
        front_face: true,
    };
    let r_in = Ray::new_tm(Point3::new(0, 0, 0), Vec3::new(0, 0, F), 12345);
    let mut att = Vec3::new(0, 0, 0);
    let mut scattered = Ray::new(Point3::new(0, 0, 0), Vec3::new(0, 0, 0));
    let keep = mat.scatter(&r_in, &rec, &mut att, &mut scattered);
    assert!(keep);
    assert_eq!((att.x, att.y, att.z), (F / 2, F / 4, F / 8));
    assert_eq!((scattered.orig.x, scattered.orig.y, scattered.orig.z), (F, 2 * F, 3 * F));
    assert_eq!(scattered.tm, 12345);
    assert!(!scattered.dir.near_zero());
}

#[test]
fn metal_without_fuzz_reflects_exactly() {
    let mat = Material::Metal(Metal::new(Vec3::new(F, F, F), 0));
    let rec = HitRecord {
        p: Point3::new(0, 0, F),
        normal: Vec3::new(0, 0, -F),
        material: Some(0),
        t: F,
        front_face: true,
    };
    let r_in = Ray::new(Point3::new(0, 0, 0), Vec3::new(0, 0, F));
    let mut att = Vec3::new(0, 0, 0);
    let mut scattered = Ray::new(Point3::new(0, 0, 0), Vec3::new(0, 0, 0));
    let keep = mat.scatter(&r_in, &rec, &mut att, &mut scattered);
    // A head-on mirror bounce goes straight back along the normal.
    assert!(keep);
    assert_eq!((scattered.dir.x, scattered.dir.y, scattered.dir.z), (0, 0, -F));
    assert_eq!((att.x, att.y, att.z), (F, F, F));

    // A grazing bounce off a floor normal continues.
    let rec2 = HitRecord {
        p: Point3::new(0, 0, 0),
        normal: Vec3::new(0, F, 0),
        material: Some(0),
        t: F,
        front_face: true,
    };
    let r2 = Ray::new(Point3::new(0, F, -F), Vec3::new(0, -F, F));
    let mut att2 = Vec3::new(0, 0, 0);
    let mut sc2 = Ray::new(Point3::new(0, 0, 0), Vec3::new(0, 0, 0));
    let keep2 = mat.scatter(&r2, &rec2, &mut att2, &mut sc2);
    assert!(keep2);
    // The mirrored unit direction flips the vertical component.
    let ux = sc2.dir.x;
    let uy = sc2.dir.y;
    let uz = sc2.dir.z;
    assert_eq!(ux, 0);
    assert!(uy > 0 && uz > 0);
    assert_eq!(uy, uz);
}

#[test]
fn dielectric_always_continues_with_white_attenuation() {
    let mat = Material::Dielectric(Dielectric::new(3 * F / 2));
    let rec = HitRecord {
        p: Point3::new(0, 0, F),
        normal: Vec3::new(0, 0, -F),
        material: Some(0),
        t: F,
        front_face: true,
    };
    let r_in = Ray::new(Point3::new(0, 0, 0), Vec3::new(0, 0, F));
    let mut att = Vec3::new(0, 0, 0);
    let mut scattered = Ray::new(Point3::new(0, 0, 0), Vec3::new(0, 0, 0));
    let keep = mat.scatter(&r_in, &rec, &mut att, &mut scattered);
    assert!(keep);
    assert_eq!((att.x, att.y, att.z), (F, F, F));
    assert_eq!((scattered.orig.x, scattered.orig.y, scattered.orig.z), (0, 0, F));
}

#[test]
fn reflectance_at_normal_incidence() {
    // cos = 1: Schlick reduces to r0 = ((1 - n) / (1 + n))^2.
    let r = Dielectric::reflectance(F, 3 * F / 2);
    // (1 - 1.5) / (2.5) = -0.2; squared is 0.04.
    let r0a = (-(F as i64) / 2) * F / (F + 3 * F / 2);
    let expected = r0a * r0a / F;
    assert_eq!(r, expected);
}

#[test]
fn checker_texture_alternates_by_cell() {
    let c1 = Vec3::new(F, 0, 0);
    let c2 = Vec3::new(0, F, 0);
    let checker = Texture::Checker(Box::new(CheckerTexture::with_color(F, &c1, &c2)));
    let a = checker.value(0, 0, &Point3::new(F / 2, F / 2, F / 2));
    let b = checker.value(0, 0, &Point3::new(3 * F / 2, F / 2, F / 2));
    assert_eq!((a.x, a.y, a.z), (F, 0, 0));
    assert_eq!((b.x, b.y, b.z), (0, F, 0));
}

#[test]
fn image_texture_samples_pixels_and_sentinel() {
    // A 2x1 image: red then blue.
    let img = RTImage::new(2, 1, vec![(255, 0, 0), (0, 0, 255)]);
    let tex = Texture::Image(raytracer::texture::ImageTexture::new(img));
    let left = tex.value(0, 0, &Point3::new(0, 0, 0));
    assert_eq!((left.x, left.y, left.z), (F, 0, 0));
    let right = tex.value(F, 0, &Point3::new(0, 0, 0));
    assert_eq!((right.x, right.y, right.z), (0, 0, F));
    // No image data: the cyan debugging sentinel.
    let none = Texture::Image(raytracer::texture::ImageTexture::new(RTImage::new(
        0,
        0,
        Vec::new(),
    )));
    let c = none.value(0, 0, &Point3::new(0, 0, 0));
    assert_eq!((c.x, c.y, c.z), (0, F, F));
}

#[test]
fn solid_texture_ignores_coordinates() {
    let t = Texture::Solid(SolidColor::new(Vec3::new(123, 456, 789)));
    let a = t.value(0, 0, &Point3::new(0, 0, 0));
    let b = t.value(F, F / 2, &Point3::new(9 * F, -3 * F, F));
    assert_eq!((a.x, a.y, a.z), (123, 456, 789));
    assert_eq!((b.x, b.y, b.z), (123, 456, 789));
}

#[test]
fn perlin_noise_is_deterministic_and_bounded() {
    let p = Perlin::new();
    let pt = Point3::new(3 * F / 2, F / 4, 7 * F);
    let a = p.noise(&pt);
    let b = p.noise(&pt);
    assert_eq!(a, b);
    assert!(0 <= a && a < F);
}

#[test]
fn config_check_decides_the_constructor_predicate() {
    // The demo configuration is accepted.
    assert!(raytracer::camera::camera_cfg_check(
        400,
        116508,
        4,
        8,
        20 * F,
        Point3::new(13 * F, 2 * F, 3 * F),
        Point3::new(0, 0, 0),
        Vec3::new(0, F, 0),
        0,
        12 * F,
    ));
    // Coincident view points are rejected.
    assert!(!raytracer::camera::camera_cfg_check(
        400,
        116508,
        4,
        8,
        20 * F,
        Point3::new(0, 0, 0),
        Point3::new(0, 0, 0),
        Vec3::new(0, F, 0),
        0,
        12 * F,
    ));
    // An up direction parallel to the gaze leaves no camera frame.
    assert!(!raytracer::camera::camera_cfg_check(
        400,
        116508,
        4,
        8,
        20 * F,
        Point3::new(0, 5 * F, 0),
        Point3::new(0, 0, 0),
        Vec3::new(0, F, 0),
        0,
        12 * F,
    ));
}

#[test]
fn scene_accumulates_and_camera_updates() {
    let (world, mats) = white_sphere_world();
    let mut scene = Scene::new(16, 116508, 2, 4, world, mats);
    assert_eq!(scene.current_samples(), 0);
    scene.render();
    scene.render();
    assert_eq!(scene.current_samples(), 2);
    let upd = CameraUpdate {
        width: Some(32),
        aspect_ratio: None,
        samples_per_pixel: None,
        max_depth: None,
        vfov: Some(30 * F),
        lookfrom: None,
        lookat: None,
        vup: None,
        defocus_angle: None,
        focus_dist: None,
    };
    scene.update_camera(upd);
    assert_eq!(scene.current_samples(), 0);
    assert_eq!(scene.image_width(), 32);
    assert_eq!(scene.camera.vfov, 30 * F);
    // The view point survived the update.
    assert_eq!(scene.camera.lookfrom.x, 13 * F);
}
