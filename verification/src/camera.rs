//! The camera and the path-tracing integrator.
//!
//! Construction derives the viewport geometry once from the configuration;
//! per-pixel rays jitter within the pixel footprint and, with a positive
//! defocus angle, within an aperture disk.  `ray_color` is the recursive
//! radiance estimator with an explicit depth budget; rays that leave the
//! bounded fixed-point world are treated as absorbed.

use vstd::prelude::*;

use crate::bvh::{world_hit_spec, world_wf, World};
use crate::color::Color;
use crate::fixed::{fx_div, fx_mul, iabs, tdiv, COORD_MAX, FX_ONE, T_FAR};
use crate::fixed::{div_i64, div_i128, lemma_fx_mul_mag, lemma_tdiv_bound, lemma_tdiv_ordered, mul_fx};
use crate::hittable::{default_rec, HitRecord};
use crate::interval::Interval;
use crate::material::{material_wf, Material};
use crate::ray::{ray_in_range, Point3, Ray};
use crate::utils::{degrees_to_radians, random_double, PI_FX};
use crate::vec3::{cross, unit_spec, unit_vector, Vec3};

verus! {

/// Lower end of every primary and secondary ray window (about 0.001),
/// avoiding self-intersection at the departing surface.
pub const T_MIN_EPS: i64 = 66;

/// Every material of the arena is well formed.
pub open spec fn mats_wf(ms: Seq<Material>) -> bool {
    forall|i: int| 0 <= i < ms.len() ==> #[trigger] material_wf(ms[i])
}

/// A ray the integrator will trace rather than absorb: in-range origin and
/// direction, a nonzero direction, and a time in `[0, 1]`.
pub open spec fn ray_ok(r: Ray) -> bool {
    &&& ray_in_range(r)
    &&& !(r.dir.x == 0 && r.dir.y == 0 && r.dir.z == 0)
    &&& 0 <= r.tm <= FX_ONE
}

pub open spec fn black() -> Color {
    Color { x: 0, y: 0, z: 0 }
}

/// The componentwise fixed-point product of an attenuation and a radiance.
pub open spec fn attenuated(a: Color, rc: Color) -> Color {
    Color {
        x: fx_mul(a.x as int, rc.x as int) as i64,
        y: fx_mul(a.y as int, rc.y as int) as i64,
        z: fx_mul(a.z as int, rc.z as int) as i64,
    }
}

/// What the integrator may return for a ray that hit the scene: black
/// (an absorbed or terminated path), or the hit material's attenuation
/// times some radiance with channels in `[0, 1]`.
pub open spec fn hit_radiance_ok(world: World, mats: Seq<Material>, ray: Ray, c: Color) -> bool {
    let rec = world_hit_spec(world, ray, T_MIN_EPS as int, T_FAR as int, default_rec()).1;
    c == black() || (match rec.material {
        Option::Some(id) => id < mats.len() && exists|rc: Color|
            #[trigger] crate::texture::color_ok(rc) && c == attenuated(
                crate::material::material_attenuation(mats[id as int], rec),
                rc,
            ),
        Option::None => false,
    })
}

/// The integrator's whole contract as a predicate of the ray and the
/// color it returned: channels in `[0, 1]`; black once the depth budget
/// is spent or the ray is out of the bounded world; exactly the sky on a
/// miss of the window `(T_MIN_EPS, T_FAR)`; an attenuated radiance or
/// black on a hit.
pub open spec fn radiance_ok(world: World, mats: Seq<Material>, ray: Ray, depth: int, c: Color) -> bool {
    &&& 0 <= c.x <= FX_ONE && 0 <= c.y <= FX_ONE && 0 <= c.z <= FX_ONE
    &&& depth <= 0 ==> c == black()
    &&& depth > 0 && !ray_ok(ray) ==> c == black()
    &&& (depth > 0 && ray_ok(ray) && !(world_hit_spec(
        world,
        ray,
        T_MIN_EPS as int,
        T_FAR as int,
        default_rec(),
    ).0) ==> c == sky_spec(ray))
    &&& (depth > 0 && ray_ok(ray) && world_hit_spec(
        world,
        ray,
        T_MIN_EPS as int,
        T_FAR as int,
        default_rec(),
    ).0 ==> hit_radiance_ok(world, mats, ray, c))
}

/// The point a primary ray aims at, for pixel `(i, j)` and a jitter
/// `(ox, oy)` within the pixel footprint.
pub open spec fn pixel_sample_spec(cam: Camera, i: int, j: int, ox: int, oy: int) -> Vec3 {
    Vec3 {
        x: (cam.pixel00_loc.x + fx_mul(cam.pixel_delta_u.x as int, i * FX_ONE + ox) + fx_mul(
            cam.pixel_delta_v.x as int,
            j * FX_ONE + oy,
        )) as i64,
        y: (cam.pixel00_loc.y + fx_mul(cam.pixel_delta_u.y as int, i * FX_ONE + ox) + fx_mul(
            cam.pixel_delta_v.y as int,
            j * FX_ONE + oy,
        )) as i64,
        z: (cam.pixel00_loc.z + fx_mul(cam.pixel_delta_u.z as int, i * FX_ONE + ox) + fx_mul(
            cam.pixel_delta_v.z as int,
            j * FX_ONE + oy,
        )) as i64,
    }
}

/// `o` lies on the camera's defocus disk: the view point displaced along
/// the disk axes by coordinates strictly inside the unit disk.
pub open spec fn on_defocus_disk(cam: Camera, o: Vec3) -> bool {
    exists|p0: int, p1: int|
        #![trigger fx_mul(cam.defocus_disk_u.x as int, p0), fx_mul(cam.defocus_disk_v.x as int, p1)]
        p0 * p0 + p1 * p1 < 4294967296 && o == (Vec3 {
            x: (cam.lookfrom.x + fx_mul(cam.defocus_disk_u.x as int, p0) + fx_mul(
                cam.defocus_disk_v.x as int,
                p1,
            )) as i64,
            y: (cam.lookfrom.y + fx_mul(cam.defocus_disk_u.y as int, p0) + fx_mul(
                cam.defocus_disk_v.y as int,
                p1,
            )) as i64,
            z: (cam.lookfrom.z + fx_mul(cam.defocus_disk_u.z as int, p0) + fx_mul(
                cam.defocus_disk_v.z as int,
                p1,
            )) as i64,
        })
}

/// `r` is a well-formed primary ray for pixel `(i, j)`: aimed at a jitter
/// of the pixel's footprint from the view point or a defocus-disk point,
/// with a time in `[0, 1)`.
pub open spec fn ray_from_pixel(cam: Camera, i: int, j: int, r: Ray) -> bool {
    exists|ox: int, oy: int|
        #![trigger pixel_sample_spec(cam, i, j, ox, oy)]
        -32768 <= ox < 32768 && -32768 <= oy < 32768 && 0 <= r.tm < FX_ONE && (cam.defocus_angle
            <= 0 ==> r.orig == cam.lookfrom) && (cam.defocus_angle > 0 ==> on_defocus_disk(
            cam,
            r.orig,
        )) && r.dir == (Vec3 {
            x: (pixel_sample_spec(cam, i, j, ox, oy).x - r.orig.x) as i64,
            y: (pixel_sample_spec(cam, i, j, ox, oy).y - r.orig.y) as i64,
            z: (pixel_sample_spec(cam, i, j, ox, oy).z - r.orig.z) as i64,
        })
}

/// The componentwise sum of a batch of sample colors.
pub open spec fn color_sum(samples: Seq<Color>) -> Color
    decreases samples.len(),
{
    if samples.len() == 0 {
        black()
    } else {
        let rest = color_sum(samples.drop_last());
        Color {
            x: (rest.x + samples.last().x) as i64,
            y: (rest.y + samples.last().y) as i64,
            z: (rest.z + samples.last().z) as i64,
        }
    }
}

/// A color scaled by a fixed-point factor, componentwise.
pub open spec fn scaled(c: Color, t: int) -> Color {
    Color {
        x: fx_mul(c.x as int, t) as i64,
        y: fx_mul(c.y as int, t) as i64,
        z: fx_mul(c.z as int, t) as i64,
    }
}

/// `s` is a legitimate radiance sample for pixel `(i, j)`: the integrator
/// contract holds of it for some well-formed primary ray of that pixel.
pub open spec fn sample_ok(
    cam: Camera,
    world: World,
    mats: Seq<Material>,
    i: int,
    j: int,
    s: Color,
) -> bool {
    exists|r: Ray| #[trigger]
        ray_from_pixel(cam, i, j, r) && radiance_ok(world, mats, r, cam.max_depth as int, s)
}

/// `pix` is a legitimate rendered pixel for `(i, j)`: the configured
/// number of legitimate samples, summed and scaled by the sample weight.
pub open spec fn pixel_ok(
    cam: Camera,
    world: World,
    mats: Seq<Material>,
    i: int,
    j: int,
    pix: Color,
) -> bool {
    exists|samples: Seq<Color>|
        #![trigger color_sum(samples)]
        samples.len() == cam.samples_per_pixel && (forall|q: int|
            0 <= q < samples.len() ==> sample_ok(cam, world, mats, i, j, #[trigger] samples[q]))
            && pix == scaled(color_sum(samples), cam.pixel_samples_scale as int)
}

/// Every pixel of a rendered frame is legitimate, in row-major order.
pub open spec fn render_pixels_ok(
    cam: Camera,
    world: World,
    mats: Seq<Material>,
    pixels: Seq<Color>,
) -> bool {
    &&& pixels.len() == cam.image_height * cam.image_width
    &&& forall|j: int, i: int|
        0 <= j < cam.image_height && 0 <= i < cam.image_width ==> pixel_ok(
            cam,
            world,
            mats,
            i,
            j,
            #[trigger] pixels[j * cam.image_width + i],
        )
}

/// The background: a vertical gradient from white to light blue by the
/// unit direction's height.
pub open spec fn sky_spec(r: Ray) -> Color {
    let unit = unit_spec(r.dir);
    let a = tdiv(unit.y + FX_ONE, 2);
    Color {
        x: (FX_ONE - a + fx_mul(32768, a)) as i64,
        y: (FX_ONE - a + fx_mul(45875, a)) as i64,
        z: (FX_ONE - a + fx_mul(65536, a)) as i64,
    }
}

/// The tangent polynomial used for field-of-view conversion:
/// `x + x^3/3 + 2 x^5/15 + 17 x^7/315` in fixed point.
pub open spec fn tan_poly(x: int) -> int {
    let x2 = fx_mul(x, x);
    let x3 = fx_mul(x2, x);
    let x5 = fx_mul(x3, x2);
    let x7 = fx_mul(x5, x2);
    x + tdiv(x3, 3) + tdiv(2 * x5, 15) + tdiv(17 * x7, 315)
}

/// The tangent of a small nonnegative angle (radians, at most about pi/4),
/// by the odd polynomial.
fn tan_fx(x: i64) -> (r: i64)
    requires
        0 <= x <= 51500,
    ensures
        r == tan_poly(x as int),
        0 <= r <= 65536,
{
    proof {
        lemma_tan_bounds(x as int);
        lemma_tdiv_ordered(0, x as int * x as int, FX_ONE as int);
    }
    let x2 = mul_fx(x, x);
    proof {
        lemma_tdiv_ordered(0, x2 as int * x as int, FX_ONE as int);
    }
    let x3 = mul_fx(x2, x);
    proof {
        lemma_tdiv_ordered(0, x3 as int * x2 as int, FX_ONE as int);
    }
    let x5 = mul_fx(x3, x2);
    proof {
        lemma_tdiv_ordered(0, x5 as int * x2 as int, FX_ONE as int);
    }
    let x7 = mul_fx(x5, x2);
    proof {
        lemma_tdiv_ordered(0, x3 as int, 3);
        lemma_tdiv_ordered(0, 2 * x5 as int, 15);
        lemma_tdiv_ordered(0, 17 * x7 as int, 315);
        lemma_tdiv_bound(x3 as int, 3, 10602);
        lemma_tdiv_bound(2 * x5 as int, 15, 2620);
        lemma_tdiv_bound(17 * x7 as int, 315, 655);
    }
    let t2 = div_i64(x3, 3);
    let t3 = div_i64(2 * x5, 15);
    let t4 = div_i64(17 * x7, 315);
    x + t2 + t3 + t4
}

/// Term bounds of the tangent polynomial over its domain.
proof fn lemma_tan_bounds(x: int)
    requires
        0 <= x <= 51500,
    ensures
        0 <= fx_mul(x, x) <= 40471,
        0 <= fx_mul(fx_mul(x, x), x) <= 31804,
        0 <= fx_mul(fx_mul(fx_mul(x, x), x), fx_mul(x, x)) <= 19641,
        0 <= fx_mul(fx_mul(fx_mul(fx_mul(x, x), x), fx_mul(x, x)), fx_mul(x, x)) <= 12130,
{
    assert(x * x >= 0) by (nonlinear_arith)
        requires
            x >= 0,
    ;
    lemma_tdiv_ordered(0, x * x, FX_ONE as int);
    lemma_fx_mul_mag(x, x, 51500, 51500, 40471);
    let x2 = fx_mul(x, x);
    assert(x2 * x >= 0) by (nonlinear_arith)
        requires
            x2 >= 0,
            x >= 0,
    ;
    lemma_tdiv_ordered(0, x2 * x, FX_ONE as int);
    lemma_fx_mul_mag(x2, x, 40471, 51500, 31804);
    let x3 = fx_mul(x2, x);
    assert(x3 * x2 >= 0) by (nonlinear_arith)
        requires
            x3 >= 0,
            x2 >= 0,
    ;
    lemma_tdiv_ordered(0, x3 * x2, FX_ONE as int);
    lemma_fx_mul_mag(x3, x2, 31804, 40471, 19641);
    let x5 = fx_mul(x3, x2);
    assert(x5 * x2 >= 0) by (nonlinear_arith)
        requires
            x5 >= 0,
            x2 >= 0,
    ;
    lemma_tdiv_ordered(0, x5 * x2, FX_ONE as int);
    lemma_fx_mul_mag(x5, x2, 19641, 40471, 12130);
}

pub struct Camera {
    pub image_width: i32,
    pub image_height: i32,
    pub samples_per_pixel: i32,
    pub pixel_samples_scale: i64,
    pub max_depth: i32,
    pub vfov: i64,
    pub lookfrom: Point3,
    pub lookat: Point3,
    pub vup: Vec3,
    pub u: Vec3,
    pub v: Vec3,
    pub w: Vec3,
    pub defocus_angle: i64,
    pub focus_dist: i64,
    pub defocus_disk_u: Vec3,
    pub defocus_disk_v: Vec3,
    pub viewport_width: i64,
    pub viewport_height: i64,
    pub viewport_u: Vec3,
    pub viewport_v: Vec3,
    pub pixel_delta_u: Vec3,
    pub pixel_delta_v: Vec3,
    pub viewport_upper_left: Vec3,
    pub pixel00_loc: Point3,
}

/// A configuration the constructor accepts: moderate image sizes, a
/// bounded aspect ratio and field of view, camera points well inside the
/// world bound, a proper orientation frame.
pub open spec fn camera_cfg_ok(
    image_width: i32,
    aspect_ratio: i64,
    samples_per_pixel: i32,
    max_depth: i32,
    vfov: i64,
    lookfrom: Point3,
    lookat: Point3,
    vup: Vec3,
    defocus_angle: i64,
    focus_dist: i64,
) -> bool {
    &&& 16 <= image_width <= 4096
    &&& 16384 <= aspect_ratio <= 524288
    &&& 1 <= samples_per_pixel <= 16384
    &&& 0 <= max_depth <= 65536
    &&& 0 < vfov <= 5898240
    &&& iabs(lookfrom.x as int) <= 0x100_0000 && iabs(lookfrom.y as int) <= 0x100_0000 && iabs(
        lookfrom.z as int,
    ) <= 0x100_0000
    &&& iabs(lookat.x as int) <= 0x100_0000 && iabs(lookat.y as int) <= 0x100_0000 && iabs(
        lookat.z as int,
    ) <= 0x100_0000
    &&& iabs(vup.x as int) <= 0x100_0000 && iabs(vup.y as int) <= 0x100_0000 && iabs(
        vup.z as int,
    ) <= 0x100_0000
    &&& !(lookfrom == lookat)
    &&& 0 <= defocus_angle <= 2949120
    &&& 4096 <= focus_dist <= 0x100_0000
    &&& ({
        let wv = unit_spec(
            Vec3 {
                x: (lookfrom.x - lookat.x) as i64,
                y: (lookfrom.y - lookat.y) as i64,
                z: (lookfrom.z - lookat.z) as i64,
            },
        );
        crate::vec3::cross_spec(vup, wv) != (Vec3 { x: 0, y: 0, z: 0 })
    })
}

/// Magnitude bounds on the derived fields that the ray generator and the
/// render loop rely on.
pub open spec fn camera_wf(c: Camera) -> bool {
    &&& 1 <= c.image_width <= 4096
    &&& 1 <= c.image_height <= 16384
    &&& 1 <= c.samples_per_pixel <= 16384
    &&& 0 <= c.pixel_samples_scale <= FX_ONE
    &&& 0 <= c.max_depth <= 65536
    &&& 0 <= c.defocus_angle
    &&& iabs(c.lookfrom.x as int) <= 0x100_0000 && iabs(c.lookfrom.y as int) <= 0x100_0000
        && iabs(c.lookfrom.z as int) <= 0x100_0000
    &&& iabs(c.pixel00_loc.x as int) <= 0x400_0000_0000_0000 && iabs(c.pixel00_loc.y as int)
        <= 0x400_0000_0000_0000 && iabs(c.pixel00_loc.z as int) <= 0x400_0000_0000_0000
    &&& iabs(c.pixel_delta_u.x as int) <= 0x20_0000_0000 && iabs(c.pixel_delta_u.y as int)
        <= 0x20_0000_0000 && iabs(c.pixel_delta_u.z as int) <= 0x20_0000_0000
    &&& iabs(c.pixel_delta_v.x as int) <= 0x20_0000_0000 && iabs(c.pixel_delta_v.y as int)
        <= 0x20_0000_0000 && iabs(c.pixel_delta_v.z as int) <= 0x20_0000_0000
    &&& iabs(c.defocus_disk_u.x as int) <= 0x200_0000 && iabs(c.defocus_disk_u.y as int)
        <= 0x200_0000 && iabs(c.defocus_disk_u.z as int) <= 0x200_0000
    &&& iabs(c.defocus_disk_v.x as int) <= 0x200_0000 && iabs(c.defocus_disk_v.y as int)
        <= 0x200_0000 && iabs(c.defocus_disk_v.z as int) <= 0x200_0000
}

impl Camera {
    /// Derive the viewport geometry from the configuration.
    #[verifier::rlimit(100)]
    pub fn new(
        image_width: i32,
        aspect_ratio: i64,
        samples_per_pixel: i32,
        max_depth: i32,
        vfov: i64,
        lookfrom: Point3,
        lookat: Point3,
        vup: Vec3,
        defocus_angle: i64,
        focus_dist: i64,
    ) -> (cam: Camera)
        requires
            camera_cfg_ok(
                image_width,
                aspect_ratio,
                samples_per_pixel,
                max_depth,
                vfov,
                lookfrom,
                lookat,
                vup,
                defocus_angle,
                focus_dist,
            ),
        ensures
            camera_wf(cam),
            cam.image_width == image_width,
            cam.samples_per_pixel == samples_per_pixel,
            cam.max_depth == max_depth,
            cam.vfov == vfov,
            cam.lookfrom == lookfrom,
            cam.lookat == lookat,
            cam.vup == vup,
            cam.defocus_angle == defocus_angle,
            cam.focus_dist == focus_dist,
            cam.image_height == ({
                let h = tdiv(tdiv(image_width * FX_ONE * FX_ONE, aspect_ratio as int), FX_ONE as int);
                if h < 1 {
                    1int
                } else {
                    h
                }
            }),
            cam.pixel_samples_scale == tdiv(FX_ONE as int, samples_per_pixel as int),
            cam.w == unit_spec(
                Vec3 {
                    x: (lookfrom.x - lookat.x) as i64,
                    y: (lookfrom.y - lookat.y) as i64,
                    z: (lookfrom.z - lookat.z) as i64,
                },
            ),
            cam.u == unit_spec(crate::vec3::cross_spec(vup, cam.w)),
            cam.v == crate::vec3::cross_spec(cam.w, cam.u),
            cam.viewport_height == 2 * fx_mul(
                tan_poly(tdiv(tdiv(vfov * PI_FX, 180 * FX_ONE), 2)),
                focus_dist as int,
            ),
            cam.viewport_width == fx_mul(
                cam.viewport_height as int,
                tdiv(image_width * FX_ONE * FX_ONE, cam.image_height * FX_ONE),
            ),
            cam.viewport_u == (Vec3 {
                x: fx_mul(cam.u.x as int, cam.viewport_width as int) as i64,
                y: fx_mul(cam.u.y as int, cam.viewport_width as int) as i64,
                z: fx_mul(cam.u.z as int, cam.viewport_width as int) as i64,
            }),
            cam.viewport_v == (Vec3 {
                x: fx_mul(-cam.v.x as int, cam.viewport_height as int) as i64,
                y: fx_mul(-cam.v.y as int, cam.viewport_height as int) as i64,
                z: fx_mul(-cam.v.z as int, cam.viewport_height as int) as i64,
            }),
            cam.pixel_delta_u == (Vec3 {
                x: fx_div(cam.viewport_u.x as int, image_width * FX_ONE) as i64,
                y: fx_div(cam.viewport_u.y as int, image_width * FX_ONE) as i64,
                z: fx_div(cam.viewport_u.z as int, image_width * FX_ONE) as i64,
            }),
            cam.pixel_delta_v == (Vec3 {
                x: fx_div(cam.viewport_v.x as int, cam.image_height * FX_ONE) as i64,
                y: fx_div(cam.viewport_v.y as int, cam.image_height * FX_ONE) as i64,
                z: fx_div(cam.viewport_v.z as int, cam.image_height * FX_ONE) as i64,
            }),
            cam.viewport_upper_left == (Vec3 {
                x: (lookfrom.x - fx_mul(cam.w.x as int, focus_dist as int) - fx_div(
                    cam.viewport_u.x as int,
                    2 * FX_ONE,
                ) - fx_div(cam.viewport_v.x as int, 2 * FX_ONE)) as i64,
                y: (lookfrom.y - fx_mul(cam.w.y as int, focus_dist as int) - fx_div(
                    cam.viewport_u.y as int,
                    2 * FX_ONE,
                ) - fx_div(cam.viewport_v.y as int, 2 * FX_ONE)) as i64,
                z: (lookfrom.z - fx_mul(cam.w.z as int, focus_dist as int) - fx_div(
                    cam.viewport_u.z as int,
                    2 * FX_ONE,
                ) - fx_div(cam.viewport_v.z as int, 2 * FX_ONE)) as i64,
            }),
            cam.pixel00_loc == (Vec3 {
                x: (cam.viewport_upper_left.x + fx_mul(
                    (cam.pixel_delta_u.x + cam.pixel_delta_v.x) as int,
                    32768,
                )) as i64,
                y: (cam.viewport_upper_left.y + fx_mul(
                    (cam.pixel_delta_u.y + cam.pixel_delta_v.y) as int,
                    32768,
                )) as i64,
                z: (cam.viewport_upper_left.z + fx_mul(
                    (cam.pixel_delta_u.z + cam.pixel_delta_v.z) as int,
                    32768,
                )) as i64,
            }),
            cam.defocus_disk_u == (Vec3 {
                x: fx_mul(
                    cam.u.x as int,
                    fx_mul(
                        focus_dist as int,
                        tan_poly(tdiv(tdiv(defocus_angle * PI_FX, 180 * FX_ONE), 2)),
                    ),
                ) as i64,
                y: fx_mul(
                    cam.u.y as int,
                    fx_mul(
                        focus_dist as int,
                        tan_poly(tdiv(tdiv(defocus_angle * PI_FX, 180 * FX_ONE), 2)),
                    ),
                ) as i64,
                z: fx_mul(
                    cam.u.z as int,
                    fx_mul(
                        focus_dist as int,
                        tan_poly(tdiv(tdiv(defocus_angle * PI_FX, 180 * FX_ONE), 2)),
                    ),
                ) as i64,
            }),
            cam.defocus_disk_v == (Vec3 {
                x: fx_mul(
                    cam.v.x as int,
                    fx_mul(
                        focus_dist as int,
                        tan_poly(tdiv(tdiv(defocus_angle * PI_FX, 180 * FX_ONE), 2)),
                    ),
                ) as i64,
                y: fx_mul(
                    cam.v.y as int,
                    fx_mul(
                        focus_dist as int,
                        tan_poly(tdiv(tdiv(defocus_angle * PI_FX, 180 * FX_ONE), 2)),
                    ),
                ) as i64,
                z: fx_mul(
                    cam.v.z as int,
                    fx_mul(
                        focus_dist as int,
                        tan_poly(tdiv(tdiv(defocus_angle * PI_FX, 180 * FX_ONE), 2)),
                    ),
                ) as i64,
            }),
    {
        proof {
            crate::vec3::lemma_abs_mul_bound(
                image_width as int * FX_ONE,
                FX_ONE as int,
                0x1000_0000_0000,
                FX_ONE as int,
            );
            lemma_tdiv_bound(image_width * FX_ONE * FX_ONE, aspect_ratio as int, 0x4000_0000);
            lemma_tdiv_ordered(0, image_width * FX_ONE * FX_ONE, aspect_ratio as int);
        }
        let hv = div_i128(
            (image_width as i128) * (FX_ONE as i128) * (FX_ONE as i128),
            aspect_ratio as i128,
        ) as i64;
        proof {
            lemma_tdiv_bound(hv as int, FX_ONE as int, 16384);
            lemma_tdiv_ordered(0, hv as int, FX_ONE as int);
        }
        let ht = div_i64(hv, FX_ONE);
        let image_height: i32 = if ht < 1 {
            1
        } else {
            ht as i32
        };

        let pixel_samples_scale = div_i64(FX_ONE, samples_per_pixel as i64);
        proof {
            crate::fixed::lemma_tdiv_shrinks(FX_ONE as int, samples_per_pixel as int);
            lemma_tdiv_ordered(0, FX_ONE as int, samples_per_pixel as int);
        }

        let camera_center = lookfrom;
        let gaze = Vec3 {
            x: lookfrom.x - lookat.x,
            y: lookfrom.y - lookat.y,
            z: lookfrom.z - lookat.z,
        };
        proof {
            if gaze.x == 0 && gaze.y == 0 && gaze.z == 0 {
                assert(lookfrom == lookat);
            }
        }
        let w = unit_vector(&gaze);
        let uc = cross(vup, w);
        proof {
            lemma_cross_small(vup, w, 0x100_0000, FX_ONE as int, 0x200_0000);
        }
        let u = unit_vector(&uc);
        let v = cross(w, u);
        proof {
            lemma_cross_small(w, u, FX_ONE as int, FX_ONE as int, 131072);
        }

        let theta = degrees_to_radians(vfov);
        proof {
            lemma_tdiv_bound(vfov * PI_FX, 180 * FX_ONE, 103000);
            lemma_tdiv_ordered(0, vfov * PI_FX, 180 * FX_ONE);
            crate::fixed::lemma_tdiv_shrinks(theta as int, 2);
            lemma_tdiv_ordered(0, theta as int, 2);
            lemma_tdiv_bound(theta as int, 2, 51500);
        }
        let h = tan_fx(div_i64(theta, 2));
        proof {
            lemma_fx_mul_mag(h as int, focus_dist as int, FX_ONE as int, 0x100_0000, 0x100_0000);
        }
        let viewport_height = 2 * mul_fx(h, focus_dist);

        proof {
            crate::vec3::lemma_abs_mul_bound(
                image_width as int * FX_ONE,
                FX_ONE as int,
                0x1000_0000_0000,
                FX_ONE as int,
            );
            assert((image_height as int) * (FX_ONE as int) >= FX_ONE as int) by (nonlinear_arith)
                requires
                    image_height >= 1,
            ;
            lemma_tdiv_bound_linear(
                image_width as int * FX_ONE * FX_ONE,
                image_height as int * FX_ONE,
                0x1000_0000,
            );
        }
        let ratio = div_i128(
            (image_width as i128) * (FX_ONE as i128) * (FX_ONE as i128),
            (image_height as i128) * (FX_ONE as i128),
        ) as i64;
        proof {
            lemma_fx_mul_mag(
                viewport_height as int,
                ratio as int,
                0x200_0000,
                0x1000_0000,
                0x20_0000_0000,
            );
        }
        let viewport_width = mul_fx(viewport_height, ratio);

        proof {
            lemma_scale_bounds(u, 65536, viewport_width as int, 0x20_0000_0000, 0x20_0000_0000);
            lemma_scale_bounds(v, 131072, viewport_height as int, 0x200_0000, 0x400_0000);
        }
        let viewport_u = u.scale(viewport_width);
        let nv = Vec3 { x: -v.x, y: -v.y, z: -v.z };
        let viewport_v = nv.scale(viewport_height);

        proof {
            lemma_div_scalar_bounds(viewport_u, 0x20_0000_0000, image_width as int * FX_ONE);
            lemma_div_scalar_bounds(viewport_v, 0x800_0000, image_height as int * FX_ONE);
            assert((image_width as int) * (FX_ONE as int) >= FX_ONE as int) by (nonlinear_arith)
                requires
                    image_width >= 1,
            ;
            assert((image_height as int) * (FX_ONE as int) >= FX_ONE as int) by (nonlinear_arith)
                requires
                    image_height >= 1,
            ;
        }
        let pixel_delta_u = viewport_u.div_scalar(image_width as i64 * FX_ONE);
        let pixel_delta_v = viewport_v.div_scalar(image_height as i64 * FX_ONE);

        proof {
            lemma_scale_bounds(w, 65536, focus_dist as int, 0x100_0000, 0x100_0000);
            lemma_div_scalar_bounds(viewport_u, 0x20_0000_0000, 2 * FX_ONE as int);
            lemma_div_scalar_bounds(viewport_v, 0x800_0000, 2 * FX_ONE as int);
        }
        let wf = w.scale(focus_dist);
        let half_vu = viewport_u.div_scalar(2 * FX_ONE);
        let half_vv = viewport_v.div_scalar(2 * FX_ONE);
        let viewport_upper_left = Vec3 {
            x: camera_center.x - wf.x - half_vu.x - half_vv.x,
            y: camera_center.y - wf.y - half_vu.y - half_vv.y,
            z: camera_center.z - wf.z - half_vu.z - half_vv.z,
        };

        // Center the first sample half a pixel in from the upper-left
        // corner.
        let pd_sum = Vec3 {
            x: pixel_delta_u.x + pixel_delta_v.x,
            y: pixel_delta_u.y + pixel_delta_v.y,
            z: pixel_delta_u.z + pixel_delta_v.z,
        };
        proof {
            lemma_scale_bounds(pd_sum, 0x40_0000_0000, 32768, 32768, 0x20_0000_0000);
        }
        let half_pp = pd_sum.scale(32768);
        let pixel00_loc = Vec3 {
            x: viewport_upper_left.x + half_pp.x,
            y: viewport_upper_left.y + half_pp.y,
            z: viewport_upper_left.z + half_pp.z,
        };

        let da = degrees_to_radians(defocus_angle);
        proof {
            lemma_tdiv_bound(defocus_angle * PI_FX, 180 * FX_ONE, 51500);
            lemma_tdiv_ordered(0, defocus_angle * PI_FX, 180 * FX_ONE);
            crate::fixed::lemma_tdiv_shrinks(da as int, 2);
            lemma_tdiv_ordered(0, da as int, 2);
            lemma_tdiv_bound(da as int, 2, 51500);
        }
        let dt = tan_fx(div_i64(da, 2));
        proof {
            lemma_fx_mul_mag(focus_dist as int, dt as int, 0x100_0000, FX_ONE as int, 0x100_0000);
        }
        let defocus_radius = mul_fx(focus_dist, dt);
        proof {
            lemma_scale_bounds(u, 65536, defocus_radius as int, 0x100_0000, 0x100_0000);
            lemma_scale_bounds(v, 131072, defocus_radius as int, 0x100_0000, 0x200_0000);
        }
        let defocus_disk_u = u.scale(defocus_radius);
        let defocus_disk_v = v.scale(defocus_radius);

        Camera {
            image_width,
            image_height,
            lookfrom,
            lookat,
            vup,
            u,
            v,
            w,
            samples_per_pixel,
            max_depth,
            vfov,
            pixel_samples_scale,
            defocus_angle,
            focus_dist,
            viewport_width,
            viewport_height,
            viewport_u,
            viewport_v,
            pixel_delta_u,
            pixel_delta_v,
            viewport_upper_left,
            pixel00_loc,
            defocus_disk_u,
            defocus_disk_v,
        }
    }
}

/// Cross-product components of vectors with the given componentwise bounds
/// are bounded by `2 ca cb / FX_ONE`.
proof fn lemma_cross_small(a: Vec3, b: Vec3, ca: int, cb: int, m: int)
    requires
        iabs(a.x as int) <= ca,
        iabs(a.y as int) <= ca,
        iabs(a.z as int) <= ca,
        iabs(b.x as int) <= cb,
        iabs(b.y as int) <= cb,
        iabs(b.z as int) <= cb,
        0 <= ca,
        0 <= cb,
        2 * (ca * cb) <= m * FX_ONE,
        0 <= m,
    ensures
        iabs(tdiv(a.y * b.z - a.z * b.y, FX_ONE as int)) <= m,
        iabs(tdiv(a.z * b.x - a.x * b.z, FX_ONE as int)) <= m,
        iabs(tdiv(a.x * b.y - a.y * b.x, FX_ONE as int)) <= m,
{
    crate::vec3::lemma_abs_mul_bound(a.x as int, b.x as int, ca, cb);
    crate::vec3::lemma_abs_mul_bound(a.x as int, b.y as int, ca, cb);
    crate::vec3::lemma_abs_mul_bound(a.x as int, b.z as int, ca, cb);
    crate::vec3::lemma_abs_mul_bound(a.y as int, b.x as int, ca, cb);
    crate::vec3::lemma_abs_mul_bound(a.y as int, b.y as int, ca, cb);
    crate::vec3::lemma_abs_mul_bound(a.y as int, b.z as int, ca, cb);
    crate::vec3::lemma_abs_mul_bound(a.z as int, b.x as int, ca, cb);
    crate::vec3::lemma_abs_mul_bound(a.z as int, b.y as int, ca, cb);
    crate::vec3::lemma_abs_mul_bound(a.z as int, b.z as int, ca, cb);
    lemma_tdiv_bound(a.y * b.z - a.z * b.y, FX_ONE as int, m);
    lemma_tdiv_bound(a.z * b.x - a.x * b.z, FX_ONE as int, m);
    lemma_tdiv_bound(a.x * b.y - a.y * b.x, FX_ONE as int, m);
}

/// Scaling a componentwise-bounded vector keeps componentwise bounds.
proof fn lemma_scale_bounds(a: Vec3, ca: int, t: int, ct: int, m: int)
    requires
        iabs(a.x as int) <= ca,
        iabs(a.y as int) <= ca,
        iabs(a.z as int) <= ca,
        iabs(t) <= ct,
        0 <= ca,
        0 <= ct,
        0 <= m,
        ca * ct <= m * FX_ONE,
    ensures
        iabs(fx_mul(a.x as int, t)) <= m,
        iabs(fx_mul(a.y as int, t)) <= m,
        iabs(fx_mul(a.z as int, t)) <= m,
        iabs(fx_mul(-a.x as int, t)) <= m,
        iabs(fx_mul(-a.y as int, t)) <= m,
        iabs(fx_mul(-a.z as int, t)) <= m,
{
    lemma_fx_mul_mag(a.x as int, t, ca, ct, m);
    lemma_fx_mul_mag(a.y as int, t, ca, ct, m);
    lemma_fx_mul_mag(a.z as int, t, ca, ct, m);
    lemma_fx_mul_mag(-a.x as int, t, ca, ct, m);
    lemma_fx_mul_mag(-a.y as int, t, ca, ct, m);
    lemma_fx_mul_mag(-a.z as int, t, ca, ct, m);
}

/// Dividing a componentwise-bounded vector by a scalar of magnitude at
/// least one keeps the bound grown by `FX_ONE`.
proof fn lemma_div_scalar_bounds(a: Vec3, ca: int, b: int)
    requires
        iabs(a.x as int) <= ca,
        iabs(a.y as int) <= ca,
        iabs(a.z as int) <= ca,
        b >= FX_ONE,
        0 <= ca,
    ensures
        iabs(fx_div(a.x as int, b)) <= ca,
        iabs(fx_div(a.y as int, b)) <= ca,
        iabs(fx_div(a.z as int, b)) <= ca,
{
    lemma_fx_div_comp(a.x as int, ca, b);
    lemma_fx_div_comp(a.y as int, ca, b);
    lemma_fx_div_comp(a.z as int, ca, b);
}

/// One component of such a division.
proof fn lemma_fx_div_comp(c: int, ca: int, b: int)
    requires
        iabs(c) <= ca,
        b >= FX_ONE,
        0 <= ca,
    ensures
        iabs(fx_div(c, b)) <= ca,
{
    crate::vec3::lemma_abs_mul_bound(c, FX_ONE as int, ca, FX_ONE as int);
    assert(ca * FX_ONE <= ca * b) by (nonlinear_arith)
        requires
            b >= FX_ONE,
            0 <= ca,
    ;
    lemma_tdiv_bound(c * FX_ONE, b, ca);
}

/// A truncating quotient bound with a symbolic divisor at least the given
/// floor.
proof fn lemma_tdiv_bound_linear(a: int, b: int, m: int)
    requires
        iabs(a) <= m * FX_ONE,
        b >= FX_ONE,
        0 <= m,
    ensures
        iabs(tdiv(a, b)) <= m,
{
    assert(m * FX_ONE <= m * b) by (nonlinear_arith)
        requires
            b >= FX_ONE,
            0 <= m,
    ;
    lemma_tdiv_bound(a, b, m);
}



/// A color channel product of two values in `[0, 1]` stays in `[0, 1]`.
proof fn lemma_unit_channel_mul(a: int, b: int)
    requires
        0 <= a <= FX_ONE,
        0 <= b <= FX_ONE,
    ensures
        0 <= fx_mul(a, b) <= FX_ONE,
{
    assert(0 <= a * b && a * b <= FX_ONE * FX_ONE) by (nonlinear_arith)
        requires
            0 <= a <= FX_ONE,
            0 <= b <= FX_ONE,
    ;
    lemma_tdiv_ordered(0, a * b, FX_ONE as int);
    lemma_tdiv_bound(a * b, FX_ONE as int, FX_ONE as int);
}

/// One channel of the sky gradient: `(1 - a) + c a`, within `[0, 1]`.
fn sky_channel(cc: i64, a: i64) -> (s: i64)
    requires
        0 <= a <= FX_ONE,
        0 <= cc <= FX_ONE,
    ensures
        s == FX_ONE - a + fx_mul(cc as int, a as int),
        0 <= s <= FX_ONE,
{
    proof {
        lemma_unit_channel_mul(cc as int, a as int);
        assert(cc * a <= FX_ONE * a) by (nonlinear_arith)
            requires
                cc <= FX_ONE,
                a >= 0,
        ;
        lemma_tdiv_ordered(cc * a, FX_ONE * a, FX_ONE as int);
        assert(tdiv(FX_ONE * a, FX_ONE as int) == a) by {
            vstd::arithmetic::div_mod::lemma_div_multiples_vanish(a as int, FX_ONE as int);
            vstd::arithmetic::mul::lemma_mul_is_commutative(FX_ONE as int, a as int);
            lemma_tdiv_ordered(0, FX_ONE * a, FX_ONE as int);
        }
    }
    FX_ONE - a + mul_fx(cc, a)
}

/// Whether the integrator traces this ray, computed.
fn ray_ok_exec(r: &Ray) -> (ok: bool)
    ensures
        ok == ray_ok(*r),
{
    let oin = r.orig.x >= -COORD_MAX && r.orig.x <= COORD_MAX && r.orig.y >= -COORD_MAX
        && r.orig.y <= COORD_MAX && r.orig.z >= -COORD_MAX && r.orig.z <= COORD_MAX;
    let din = r.dir.x >= -COORD_MAX && r.dir.x <= COORD_MAX && r.dir.y >= -COORD_MAX && r.dir.y
        <= COORD_MAX && r.dir.z >= -COORD_MAX && r.dir.z <= COORD_MAX;
    let dnz = !(r.dir.x == 0 && r.dir.y == 0 && r.dir.z == 0);
    let tok = 0 <= r.tm && r.tm <= FX_ONE;
    oin && din && dnz && tok
}

/// A uniform jitter within half a pixel each way.
fn sample_square() -> (r: Vec3)
    ensures
        -32768 <= r.x < 32768,
        -32768 <= r.y < 32768,
        r.z == 0,
{
    Vec3 { x: random_double() - 32768, y: random_double() - 32768, z: 0 }
}

impl Camera {
    /// A uniform point on the camera's defocus disk.
    fn defocus_disk_sample(&self) -> (p: Point3)
        requires
            camera_wf(*self),
        ensures
            iabs(p.x as int) <= 0x500_0000,
            iabs(p.y as int) <= 0x500_0000,
            iabs(p.z as int) <= 0x500_0000,
            on_defocus_disk(*self, p),
    {
        let d = Vec3::random_in_unit_disk();
        proof {
            lemma_scale_bounds(self.defocus_disk_u, 0x200_0000, d.x as int, 65536, 0x200_0000);
            lemma_scale_bounds(self.defocus_disk_v, 0x200_0000, d.y as int, 65536, 0x200_0000);
            assert(d.x * d.x + d.y * d.y < 4294967296) by {
                assert(d.x * d.x + d.y * d.y + d.z * d.z < 4294967296);
                assert(d.z * d.z == 0) by (nonlinear_arith)
                    requires
                        d.z == 0,
                ;
            }
        }
        let du = self.defocus_disk_u.scale(d.x);
        let dv = self.defocus_disk_v.scale(d.y);
        let p = Point3 {
            x: self.lookfrom.x + du.x + dv.x,
            y: self.lookfrom.y + du.y + dv.y,
            z: self.lookfrom.z + du.z + dv.z,
        };
        proof {
            assert(on_defocus_disk(*self, p)) by {
                assert(fx_mul(self.defocus_disk_u.x as int, d.x as int) == du.x);
                assert(fx_mul(self.defocus_disk_v.x as int, d.y as int) == dv.x);
            }
        }
        p
    }

    /// A primary ray through pixel `(i, j)`: jittered within the pixel,
    /// originating on the defocus disk when one is configured, carrying a
    /// random time for motion blur.
    pub fn get_ray(&self, i: i32, j: i32) -> (r: Ray)
        requires
            camera_wf(*self),
            0 <= i <= 4096,
            0 <= j <= 16384,
        ensures
            0 <= r.tm < FX_ONE,
            self.defocus_angle <= 0 ==> r.orig == self.lookfrom,
            iabs(r.orig.x as int) <= 0x500_0000,
            iabs(r.orig.y as int) <= 0x500_0000,
            iabs(r.orig.z as int) <= 0x500_0000,
            ray_from_pixel(*self, i as int, j as int, r),
    {
        let offset = sample_square();
        let ifx: i64 = (i as i64) * FX_ONE + offset.x;
        let jfx: i64 = (j as i64) * FX_ONE + offset.y;
        proof {
            lemma_scale_bounds(
                self.pixel_delta_u,
                0x20_0000_0000,
                ifx as int,
                0x4001_0000,
                0x8_0020_0000_0000,
            );
            lemma_scale_bounds(
                self.pixel_delta_v,
                0x20_0000_0000,
                jfx as int,
                0x4001_0000,
                0x8_0020_0000_0000,
            );
        }
        let su = self.pixel_delta_u.scale(ifx);
        let sv = self.pixel_delta_v.scale(jfx);
        let pixel_sample = Point3 {
            x: self.pixel00_loc.x + su.x + sv.x,
            y: self.pixel00_loc.y + su.y + sv.y,
            z: self.pixel00_loc.z + su.z + sv.z,
        };
        let ray_origin = if self.defocus_angle <= 0 {
            self.lookfrom
        } else {
            self.defocus_disk_sample()
        };
        let ray_direction = Vec3 {
            x: pixel_sample.x - ray_origin.x,
            y: pixel_sample.y - ray_origin.y,
            z: pixel_sample.z - ray_origin.z,
        };
        let ray_time = random_double();
        let r = Ray::new_tm(ray_origin, ray_direction, ray_time);
        proof {
            let ox = offset.x as int;
            let oy = offset.y as int;
            assert(pixel_sample_spec(*self, i as int, j as int, ox, oy) == pixel_sample) by {
                assert(fx_mul(self.pixel_delta_u.x as int, i * FX_ONE + ox) == su.x);
                assert(fx_mul(self.pixel_delta_v.x as int, j * FX_ONE + oy) == sv.x);
                assert(fx_mul(self.pixel_delta_u.y as int, i * FX_ONE + ox) == su.y);
                assert(fx_mul(self.pixel_delta_v.y as int, j * FX_ONE + oy) == sv.y);
                assert(fx_mul(self.pixel_delta_u.z as int, i * FX_ONE + ox) == su.z);
                assert(fx_mul(self.pixel_delta_v.z as int, j * FX_ONE + oy) == sv.z);
            }
            assert(ray_from_pixel(*self, i as int, j as int, r));
        }
        r
    }

    /// The radiance along a ray: black once the depth budget is exhausted
    /// or the ray leaves the bounded world; the scattered contribution
    /// attenuated by the material on a hit; the sky gradient on a miss.
    /// Every channel of the result lies in `[0, 1]`.
    pub fn ray_color(&self, ray: Ray, world: &World, materials: &Vec<Material>, depth: i32) -> (c:
        Color)
        requires
            world_wf(*world),
            mats_wf(materials@),
        ensures
            radiance_ok(*world, materials@, ray, depth as int, c),
        decreases depth,
    {
        if depth <= 0 {
            return Color { x: 0, y: 0, z: 0 };
        }
        if !ray_ok_exec(&ray) {
            return Color { x: 0, y: 0, z: 0 };
        }
        let mut rec = HitRecord::default();
        let window = Interval::new(T_MIN_EPS, T_FAR);
        if world.hit(&ray, window, &mut rec) {
            let id = match rec.material {
                Some(id) => id,
                None => {
                    return Color { x: 0, y: 0, z: 0 };
                },
            };
            if id >= materials.len() {
                return Color { x: 0, y: 0, z: 0 };
            }
            if !(rec.p.x >= -COORD_MAX && rec.p.x <= COORD_MAX && rec.p.y >= -COORD_MAX && rec.p.y
                <= COORD_MAX && rec.p.z >= -COORD_MAX && rec.p.z <= COORD_MAX) {
                // The hit point left the bounded world: the path ends.
                return Color { x: 0, y: 0, z: 0 };
            }
            let mut attenuation = Vec3 { x: 0, y: 0, z: 0 };
            let mut scattered = Ray::default();
            let m = &materials[id];
            if m.scatter(&ray, &rec, &mut attenuation, &mut scattered) {
                let rc = self.ray_color(scattered, world, materials, depth - 1);
                proof {
                    lemma_unit_channel_mul(attenuation.x as int, rc.x as int);
                    lemma_unit_channel_mul(attenuation.y as int, rc.y as int);
                    lemma_unit_channel_mul(attenuation.z as int, rc.z as int);
                }
                let out = attenuation.mul(rc);
                proof {
                    assert(crate::texture::color_ok(rc));
                    assert(attenuation == crate::material::material_attenuation(
                        materials@[id as int],
                        rec,
                    ));
                    assert(out == attenuated(
                        crate::material::material_attenuation(materials@[id as int], rec),
                        rc,
                    ));
                    assert(hit_radiance_ok(*world, materials@, ray, out));
                }
                return out;
            }
            return Color { x: 0, y: 0, z: 0 };
        }
        let unit_direction = unit_vector(&ray.dir);
        proof {
            lemma_tdiv_ordered(0, unit_direction.y + FX_ONE, 2);
            lemma_tdiv_bound(unit_direction.y + FX_ONE, 2, FX_ONE as int);
        }
        let a = div_i64(unit_direction.y + FX_ONE, 2);
        Color { x: sky_channel(32768, a), y: sky_channel(45875, a), z: sky_channel(65536, a) }
    }

    /// Render the scene: for every pixel in scan order, average the
    /// radiance of `samples_per_pixel` jittered rays.
    pub fn render(&self, world: &World, materials: &Vec<Material>) -> (pixels: Vec<Color>)
        requires
            camera_wf(*self),
            world_wf(*world),
            mats_wf(materials@),
        ensures
            pixels@.len() == self.image_height * self.image_width,
            forall|k: int|
                0 <= k < pixels@.len() ==> 0 <= #[trigger] pixels@[k].x <= 0x4000_0000 && 0
                    <= pixels@[k].y <= 0x4000_0000 && 0 <= pixels@[k].z <= 0x4000_0000,
            render_pixels_ok(*self, *world, materials@, pixels@),
    {
        let mut pixels: Vec<Color> = Vec::new();
        let height = self.image_height;
        let width = self.image_width;
        let spp = self.samples_per_pixel;
        let mut j: i32 = 0;
        while j < height
            invariant
                camera_wf(*self),
                world_wf(*world),
                mats_wf(materials@),
                height == self.image_height,
                width == self.image_width,
                spp == self.samples_per_pixel,
                0 <= j <= height,
                pixels@.len() == j * width,
                forall|k: int|
                    0 <= k < pixels@.len() ==> 0 <= #[trigger] pixels@[k].x <= 0x4000_0000 && 0
                        <= pixels@[k].y <= 0x4000_0000 && 0 <= pixels@[k].z <= 0x4000_0000,
                forall|jq: int, iq: int|
                    0 <= jq < j && 0 <= iq < width ==> pixel_ok(
                        *self,
                        *world,
                        materials@,
                        iq,
                        jq,
                        #[trigger] pixels@[jq * width + iq],
                    ),
            decreases height - j,
        {
            let mut i: i32 = 0;
            while i < width
                invariant
                    camera_wf(*self),
                    world_wf(*world),
                    mats_wf(materials@),
                    height == self.image_height,
                    width == self.image_width,
                    spp == self.samples_per_pixel,
                    0 <= j < height,
                    0 <= i <= width,
                    pixels@.len() == j * width + i,
                    forall|k: int|
                        0 <= k < pixels@.len() ==> 0 <= #[trigger] pixels@[k].x <= 0x4000_0000 && 0
                            <= pixels@[k].y <= 0x4000_0000 && 0 <= pixels@[k].z <= 0x4000_0000,
                    forall|jq: int, iq: int|
                        0 <= jq < j && 0 <= iq < width ==> pixel_ok(
                            *self,
                            *world,
                            materials@,
                            iq,
                            jq,
                            #[trigger] pixels@[jq * width + iq],
                        ),
                    forall|iq: int|
                        0 <= iq < i ==> pixel_ok(
                            *self,
                            *world,
                            materials@,
                            iq,
                            j as int,
                            #[trigger] pixels@[j * width + iq],
                        ),
                decreases width - i,
            {
                let mut acc = Vec3 { x: 0, y: 0, z: 0 };
                let ghost mut samples: Seq<Color> = Seq::empty();
                let mut s: i32 = 0;
                while s < spp
                    invariant
                        camera_wf(*self),
                        world_wf(*world),
                        mats_wf(materials@),
                        spp == self.samples_per_pixel,
                        0 <= j < height == self.image_height,
                        0 <= i < width == self.image_width,
                        0 <= s <= spp,
                        0 <= acc.x <= s * FX_ONE,
                        0 <= acc.y <= s * FX_ONE,
                        0 <= acc.z <= s * FX_ONE,
                        samples.len() == s,
                        acc == color_sum(samples),
                        forall|q: int|
                            0 <= q < samples.len() ==> sample_ok(
                                *self,
                                *world,
                                materials@,
                                i as int,
                                j as int,
                                #[trigger] samples[q],
                            ),
                    decreases spp - s,
                {
                    let r = self.get_ray(i, j);
                    let sample = self.ray_color(r, world, materials, self.max_depth);
                    proof {
                        assert((s + 1) * FX_ONE == s * FX_ONE + FX_ONE) by (nonlinear_arith);
                        assert(s * FX_ONE <= 16384 * FX_ONE) by (nonlinear_arith)
                            requires
                                s <= 16384,
                        ;
                        assert(sample_ok(*self, *world, materials@, i as int, j as int, sample));
                    }
                    acc = Vec3 { x: acc.x + sample.x, y: acc.y + sample.y, z: acc.z + sample.z };
                    proof {
                        let pushed = samples.push(sample);
                        assert(pushed.drop_last() =~= samples);
                        assert(pushed.last() == sample);
                        assert(acc == color_sum(pushed));
                        samples = pushed;
                    }
                    s = s + 1;
                }
                proof {
                    assert(spp * FX_ONE <= 16384 * FX_ONE) by (nonlinear_arith)
                        requires
                            spp <= 16384,
                    ;
                    lemma_render_scale(acc.x as int, self.pixel_samples_scale as int);
                    lemma_render_scale(acc.y as int, self.pixel_samples_scale as int);
                    lemma_render_scale(acc.z as int, self.pixel_samples_scale as int);
                }
                let pix = acc.scale(self.pixel_samples_scale);
                proof {
                    assert(pix == scaled(color_sum(samples), self.pixel_samples_scale as int));
                    assert(pixel_ok(*self, *world, materials@, i as int, j as int, pix));
                }
                let ghost pre = pixels@;
                pixels.push(pix);
                proof {
                    assert(j * width + i + 1 == j * width + (i + 1));
                    assert forall|jq: int, iq: int| 0 <= jq < j && 0 <= iq < width implies pixel_ok(
                        *self,
                        *world,
                        materials@,
                        iq,
                        jq,
                        #[trigger] pixels@[jq * width + iq],
                    ) by {
                        assert(jq * width + iq < j * width) by (nonlinear_arith)
                            requires
                                0 <= jq < j,
                                0 <= iq < width,
                        ;
                        assert(pixels@[jq * width + iq] == pre[jq * width + iq]);
                        assert(pixel_ok(*self, *world, materials@, iq, jq, pre[jq * width + iq]));
                    }
                }
                i = i + 1;
            }
            proof {
                assert((j + 1) * width == j * width + width) by (nonlinear_arith);
                assert forall|jq: int, iq: int| 0 <= jq < j + 1 && 0 <= iq < width implies pixel_ok(
                    *self,
                    *world,
                    materials@,
                    iq,
                    jq,
                    #[trigger] pixels@[jq * width + iq],
                ) by {
                    if jq < j {
                        assert(pixel_ok(*self, *world, materials@, iq, jq, pixels@[jq * width + iq]));
                    } else {
                        assert(pixel_ok(*self, *world, materials@, iq, j as int, pixels@[j * width + iq]));
                    }
                }
            }
            j = j + 1;
        }
        proof {
            assert(pixels@.len() == height * width);
            vstd::arithmetic::mul::lemma_mul_is_commutative(height as int, width as int);
            assert forall|jq: int, iq: int|
                0 <= jq < self.image_height && 0 <= iq < self.image_width implies pixel_ok(
                *self,
                *world,
                materials@,
                iq,
                jq,
                #[trigger] pixels@[jq * self.image_width + iq],
            ) by {
                assert(pixel_ok(*self, *world, materials@, iq, jq, pixels@[jq * width + iq]));
            }
        }
        pixels
    }
}

/// Decide the constructor's configuration predicate at run time, so an
/// unverified caller with dynamic settings can test it before building a
/// camera.
pub fn camera_cfg_check(
    image_width: i32,
    aspect_ratio: i64,
    samples_per_pixel: i32,
    max_depth: i32,
    vfov: i64,
    lookfrom: Point3,
    lookat: Point3,
    vup: Vec3,
    defocus_angle: i64,
    focus_dist: i64,
) -> (ok: bool)
    ensures
        ok == camera_cfg_ok(
            image_width,
            aspect_ratio,
            samples_per_pixel,
            max_depth,
            vfov,
            lookfrom,
            lookat,
            vup,
            defocus_angle,
            focus_dist,
        ),
{
    if !(16 <= image_width && image_width <= 4096) {
        return false;
    }
    if !(16384 <= aspect_ratio && aspect_ratio <= 524288) {
        return false;
    }
    if !(1 <= samples_per_pixel && samples_per_pixel <= 16384) {
        return false;
    }
    if !(0 <= max_depth && max_depth <= 65536) {
        return false;
    }
    if !(0 < vfov && vfov <= 5898240) {
        return false;
    }
    let bound: i64 = 0x100_0000;
    if !(-bound <= lookfrom.x && lookfrom.x <= bound && -bound <= lookfrom.y && lookfrom.y
        <= bound && -bound <= lookfrom.z && lookfrom.z <= bound) {
        return false;
    }
    if !(-bound <= lookat.x && lookat.x <= bound && -bound <= lookat.y && lookat.y <= bound
        && -bound <= lookat.z && lookat.z <= bound) {
        return false;
    }
    if !(-bound <= vup.x && vup.x <= bound && -bound <= vup.y && vup.y <= bound && -bound <= vup.z
        && vup.z <= bound) {
        return false;
    }
    if lookfrom == lookat {
        return false;
    }
    if !(0 <= defocus_angle && defocus_angle <= 2949120) {
        return false;
    }
    if !(4096 <= focus_dist && focus_dist <= 0x100_0000) {
        return false;
    }
    let gaze = Vec3 {
        x: lookfrom.x - lookat.x,
        y: lookfrom.y - lookat.y,
        z: lookfrom.z - lookat.z,
    };
    proof {
        if gaze.x == 0 && gaze.y == 0 && gaze.z == 0 {
            assert(lookfrom == lookat);
        }
    }
    let w = unit_vector(&gaze);
    let c = cross(vup, w);
    if c.x == 0 && c.y == 0 && c.z == 0 {
        return false;
    }
    true
}

/// Scaling an accumulated radiance by a nonnegative sub-unit factor keeps
/// it nonnegative and bounded.
proof fn lemma_render_scale(acc: int, scale: int)
    requires
        0 <= acc <= 0x4000_0000,
        0 <= scale <= FX_ONE,
    ensures
        0 <= fx_mul(acc, scale) <= 0x4000_0000,
{
    assert(0 <= acc * scale && acc * scale <= 0x4000_0000 * 65536) by (nonlinear_arith)
        requires
            0 <= acc <= 0x4000_0000,
            0 <= scale <= 65536,
    ;
    lemma_tdiv_ordered(0, acc * scale, FX_ONE as int);
    lemma_tdiv_bound(acc * scale, FX_ONE as int, 0x4000_0000);
}

} // verus!
