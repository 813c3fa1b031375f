//! A progressive render session: a camera over an immutable world, a
//! running radiance sum per pixel, and the 8-bit RGBA image of the running
//! averages.  Each pass adds one sample per pixel, so earlier work is never
//! discarded.

use vstd::prelude::*;

use crate::bvh::{world_wf, World};
use crate::camera::{camera_cfg_ok, camera_wf, mats_wf, render_pixels_ok, Camera};
use crate::color::{channel_byte_spec, Color};
use crate::fixed::{tdiv, FX_ONE};
use crate::fixed::div_i64;
use crate::material::Material;
use crate::ray::Point3;
use crate::vec3::{cross_spec, dot_wide, unit_spec, Vec3};

verus! {

/// The fixed view of the session camera: where it stands, what it looks
/// at, its up direction, field of view and focus distance.
pub const VIEW_FROM_X: i64 = 851968;

pub const VIEW_FROM_Y: i64 = 131072;

pub const VIEW_FROM_Z: i64 = 196608;

pub const VIEW_VFOV: i64 = 1310720;

pub const VIEW_FOCUS: i64 = 786432;

/// Default aspect ratio (16:9) when an update does not give one.
pub const DEFAULT_ASPECT: i64 = 116508;

pub struct Scene {
    pub camera: Camera,
    pub buffer: Vec<Color>,
    pub image: Vec<u8>,
    pub current_sample_count: u32,
    pub samples_per_pixel: u32,
    pub world: World,
    pub materials: Vec<Material>,
}

/// A camera-update message: absent fields keep their current value (the
/// aspect ratio falls back to 16:9, as the session always did).
pub struct CameraUpdate {
    pub width: Option<i32>,
    pub aspect_ratio: Option<i64>,
    pub samples_per_pixel: Option<u32>,
    pub max_depth: Option<i32>,
    pub vfov: Option<i64>,
    pub lookfrom: Option<Point3>,
    pub lookat: Option<Point3>,
    pub vup: Option<Vec3>,
    pub defocus_angle: Option<i64>,
    pub focus_dist: Option<i64>,
}

pub open spec fn upd_i32(o: Option<i32>, d: i32) -> i32 {
    match o {
        Option::Some(v) => v,
        Option::None => d,
    }
}

pub open spec fn upd_i64(o: Option<i64>, d: i64) -> i64 {
    match o {
        Option::Some(v) => v,
        Option::None => d,
    }
}

pub open spec fn upd_vec(o: Option<Vec3>, d: Vec3) -> Vec3 {
    match o {
        Option::Some(v) => v,
        Option::None => d,
    }
}

/// Session invariant: well-formed parts, matching buffer shapes, a bounded
/// pass count, per-channel radiance sums bounded by the pass count, and an
/// opaque alpha channel.
pub open spec fn scene_wf(s: Scene) -> bool {
    &&& camera_wf(s.camera)
    &&& s.camera.samples_per_pixel == 1
    &&& world_wf(s.world)
    &&& mats_wf(s.materials@)
    &&& s.buffer@.len() == s.camera.image_height * s.camera.image_width
    &&& s.image@.len() == 4 * s.buffer@.len()
    &&& s.current_sample_count <= 0x10_0000
    &&& forall|k: int|
        0 <= k < s.buffer@.len() ==> 0 <= #[trigger] s.buffer@[k].x <= s.current_sample_count
            * 0x4000_0000 && 0 <= s.buffer@[k].y <= s.current_sample_count * 0x4000_0000 && 0
            <= s.buffer@[k].z <= s.current_sample_count * 0x4000_0000
    &&& forall|k: int| 0 <= k < s.buffer@.len() ==> #[trigger] s.image@[4 * k + 3] == 255
}

/// The first `upto` pixels of the image hold the quantized,
/// gamma-corrected averages of the radiance sums over `count` passes.
pub open spec fn image_quantized(buffer: Seq<Color>, image: Seq<u8>, count: int, upto: int) -> bool {
    forall|q: int|
        0 <= q < upto ==> ({
            let avg_x = tdiv(buffer[q].x as int, count);
            let avg_y = tdiv(buffer[q].y as int, count);
            let avg_z = tdiv(buffer[q].z as int, count);
            &&& #[trigger] image[4 * q] == channel_byte_spec(avg_x)
            &&& image[4 * q + 1] == channel_byte_spec(avg_y)
            &&& image[4 * q + 2] == channel_byte_spec(avg_z)
        })
}

/// The demo view frame is a proper one: the up direction is not parallel
/// to the gaze, so the camera basis exists.
pub proof fn lemma_view_frame_ok()
    ensures
        ({
            let wv = unit_spec(Vec3 { x: VIEW_FROM_X, y: VIEW_FROM_Y, z: VIEW_FROM_Z });
            cross_spec(Vec3 { x: 0, y: FX_ONE, z: 0 }, wv) != (Vec3 { x: 0, y: 0, z: 0 })
        }),
{
    let g = Vec3 { x: VIEW_FROM_X, y: VIEW_FROM_Y, z: VIEW_FROM_Z };
    assert(dot_wide(g, g) == 781684047872) by (nonlinear_arith)
        requires
            g.x == 851968,
            g.y == 131072,
            g.z == 196608,
    ;
    assert(884128 * 884128 <= 781684047872 && 781684047872 < 884129 * 884129)
        by (nonlinear_arith);
    crate::fixed::lemma_sqrt_floor_unique(781684047872nat, 884128nat);
    let wv = unit_spec(g);
    assert(wv.z == tdiv(196608int * 65536, 884128));
    assert(tdiv(12884901888int, 884128) == 14573) by {
        vstd::arithmetic::div_mod::lemma_fundamental_div_mod_converse(
            12884901888,
            884128,
            14573,
            504544,
        );
    }
    assert(cross_spec(Vec3 { x: 0, y: FX_ONE, z: 0 }, wv).x == tdiv(
        65536 * wv.z - 0 * wv.y,
        65536,
    ));
    assert(65536 * 14573 == 955056128) by (nonlinear_arith);
    assert(0 * wv.y == 0) by (nonlinear_arith);
    assert(tdiv(955056128int, 65536) == 14573) by {
        vstd::arithmetic::div_mod::lemma_fundamental_div_mod_converse(955056128, 65536, 14573, 0);
    }
}

impl Scene {
    /// Open a session: a fixed demo view over the given world, an empty
    /// radiance buffer, and an opaque white image.
    pub fn new(
        width: i32,
        aspect_ratio: i64,
        samples_per_pixel: i32,
        max_depth: i32,
        world: World,
        materials: Vec<Material>,
    ) -> (s: Scene)
        requires
            16 <= width <= 4096,
            16384 <= aspect_ratio <= 524288,
            1 <= samples_per_pixel <= 16384,
            0 <= max_depth <= 65536,
            world_wf(world),
            mats_wf(materials@),
        ensures
            scene_wf(s),
            s.world == world,
            s.materials == materials,
            s.current_sample_count == 0,
            s.samples_per_pixel == samples_per_pixel,
            s.camera.image_width == width,
            s.camera.max_depth == max_depth,
            s.camera.vfov == VIEW_VFOV,
            s.camera.lookfrom == (Point3 { x: VIEW_FROM_X, y: VIEW_FROM_Y, z: VIEW_FROM_Z }),
            s.camera.focus_dist == VIEW_FOCUS,
    {
        let lookfrom = Point3 { x: VIEW_FROM_X, y: VIEW_FROM_Y, z: VIEW_FROM_Z };
        let lookat = Point3 { x: 0, y: 0, z: 0 };
        let vup = Vec3 { x: 0, y: FX_ONE, z: 0 };
        proof {
            lemma_view_frame_ok();
        }
        // One sample per pass: the session accumulates across passes.
        let camera = Camera::new(
            width,
            aspect_ratio,
            1,
            max_depth,
            VIEW_VFOV,
            lookfrom,
            lookat,
            vup,
            0,
            VIEW_FOCUS,
        );
        proof {
            assert(camera.image_width * camera.image_height <= 4096 * 16384) by (nonlinear_arith)
                requires
                    1 <= camera.image_width <= 4096,
                    1 <= camera.image_height <= 16384,
            ;
            assert(camera.image_width * camera.image_height >= 0) by (nonlinear_arith)
                requires
                    1 <= camera.image_width,
                    1 <= camera.image_height,
            ;
        }
        let n = (camera.image_width as usize) * (camera.image_height as usize);
        let mut buffer: Vec<Color> = Vec::new();
        let mut k: usize = 0;
        while k < n
            invariant
                k <= n,
                buffer@.len() == k,
                forall|q: int|
                    0 <= q < k ==> #[trigger] buffer@[q] == (Vec3 { x: 0, y: 0, z: 0 }),
            decreases n - k,
        {
            buffer.push(Vec3 { x: 0, y: 0, z: 0 });
            k = k + 1;
        }
        let mut image: Vec<u8> = Vec::new();
        let mut q: usize = 0;
        while q < 4 * n
            invariant
                q <= 4 * n,
                n <= 0x400_0000,
                image@.len() == q,
                forall|m: int| 0 <= m < q ==> #[trigger] image@[m] == 255,
            decreases 4 * n - q,
        {
            image.push(255);
            q = q + 1;
        }
        proof {
            vstd::arithmetic::mul::lemma_mul_is_commutative(
                camera.image_width as int,
                camera.image_height as int,
            );
        }
        Scene {
            camera,
            buffer,
            image,
            current_sample_count: 0,
            samples_per_pixel: samples_per_pixel as u32,
            world,
            materials,
        }
    }

    pub fn image_width(&self) -> (r: usize)
        requires
            camera_wf(self.camera),
        ensures
            r == self.camera.image_width,
    {
        self.camera.image_width as usize
    }

    pub fn image_height(&self) -> (r: usize)
        requires
            camera_wf(self.camera),
        ensures
            r == self.camera.image_height,
    {
        self.camera.image_height as usize
    }

    pub fn current_samples(&self) -> (r: u32)
        ensures
            r == self.current_sample_count,
    {
        self.current_sample_count
    }

    /// The RGBA bytes of the running averages, row-major, alpha opaque.
    pub fn get_image(&self) -> (r: &Vec<u8>)
        ensures
            r == self.image,
    {
        &self.image
    }

    /// Add one sample per pixel to the running sums and requantize the
    /// image: afterwards every channel holds the gamma-corrected average
    /// of its radiance sum over the pass count.  Earlier work is never
    /// discarded: every radiance sum grows by exactly one legitimately
    /// rendered frame of this camera over this world.
    #[verifier::rlimit(100)]
    pub fn render(&mut self)
        requires
            scene_wf(*old(self)),
            old(self).current_sample_count < 0x10_0000,
        ensures
            scene_wf(*final(self)),
            final(self).current_sample_count == old(self).current_sample_count + 1,
            final(self).camera == old(self).camera,
            final(self).world == old(self).world,
            final(self).materials == old(self).materials,
            final(self).buffer@.len() == old(self).buffer@.len(),
            forall|k: int|
                #![trigger final(self).buffer@[k]]
                0 <= k < final(self).buffer@.len() ==> ({
                    let nb = final(self).buffer@[k];
                    let ob = old(self).buffer@[k];
                    &&& ob.x <= nb.x <= ob.x + 0x4000_0000
                    &&& ob.y <= nb.y <= ob.y + 0x4000_0000
                    &&& ob.z <= nb.z <= ob.z + 0x4000_0000
                }),
            exists|frame: Seq<Color>|
                #![trigger render_pixels_ok(old(self).camera, old(self).world, old(self).materials@, frame)]
                render_pixels_ok(old(self).camera, old(self).world, old(self).materials@, frame)
                    && frame.len() == final(self).buffer@.len() && (forall|k: int|
                    #![trigger frame[k]]
                    0 <= k < frame.len() ==> final(self).buffer@[k] == (Color {
                        x: (old(self).buffer@[k].x + frame[k].x) as i64,
                        y: (old(self).buffer@[k].y + frame[k].y) as i64,
                        z: (old(self).buffer@[k].z + frame[k].z) as i64,
                    })),
            image_quantized(
                final(self).buffer@,
                final(self).image@,
                final(self).current_sample_count as int,
                final(self).buffer@.len() as int,
            ),
    {
        let frame = self.camera.render(&self.world, &self.materials);
        self.current_sample_count = self.current_sample_count + 1;
        let count = self.current_sample_count;
        let n = self.buffer.len();
        proof {
            assert(self.camera.image_height * self.camera.image_width <= 16384 * 4096)
                by (nonlinear_arith)
                requires
                    1 <= self.camera.image_width <= 4096,
                    1 <= self.camera.image_height <= 16384,
            ;
        }
        let mut k: usize = 0;
        while k < n
            invariant
                n <= 0x400_0000,
                n == self.buffer@.len(),
                n == old(self).buffer@.len(),
                frame@.len() == n,
                self.image@.len() == 4 * n,
                k <= n,
                count == self.current_sample_count,
                1 <= count <= 0x10_0000,
                self.camera == old(self).camera,
                self.world == old(self).world,
                self.materials == old(self).materials,
                self.current_sample_count == old(self).current_sample_count + 1,
                self.samples_per_pixel == old(self).samples_per_pixel,
                camera_wf(self.camera),
                self.camera.samples_per_pixel == 1,
                world_wf(self.world),
                mats_wf(self.materials@),
                forall|q: int|
                    0 <= q < n ==> 0 <= #[trigger] frame@[q].x <= 0x4000_0000 && 0 <= frame@[q].y
                        <= 0x4000_0000 && 0 <= frame@[q].z <= 0x4000_0000,
                forall|q: int|
                    k <= q < n ==> #[trigger] self.buffer@[q] == old(self).buffer@[q],
                forall|q: int|
                    0 <= q < k ==> {
                        &&& #[trigger] self.buffer@[q].x == old(self).buffer@[q].x + frame@[q].x
                        &&& self.buffer@[q].y == old(self).buffer@[q].y + frame@[q].y
                        &&& self.buffer@[q].z == old(self).buffer@[q].z + frame@[q].z
                    },
                forall|q: int|
                    0 <= q < n ==> 0 <= #[trigger] old(self).buffer@[q].x <= (count - 1)
                        * 0x4000_0000 && 0 <= old(self).buffer@[q].y <= (count - 1) * 0x4000_0000
                        && 0 <= old(self).buffer@[q].z <= (count - 1) * 0x4000_0000,
                image_quantized(self.buffer@, self.image@, count as int, k as int),
                forall|q: int| 0 <= q < n ==> #[trigger] self.image@[4 * q + 3] == 255,
            decreases n - k,
        {
            proof {
                assert((count - 1) * 0x4000_0000 + 0x4000_0000 == count * 0x4000_0000)
                    by (nonlinear_arith);
                assert(count * 0x4000_0000 <= 0x10_0000 * 0x4000_0000) by (nonlinear_arith)
                    requires
                        count <= 0x10_0000,
                ;
                assert(0 <= 4 * (k as int) && 4 * (k as int) + 3 < self.image@.len());
            }
            let f = frame[k];
            let b = self.buffer[k];
            let nb = Vec3 { x: b.x + f.x, y: b.y + f.y, z: b.z + f.z };
            self.buffer.set(k, nb);
            proof {
                crate::fixed::lemma_tdiv_ordered(0, nb.x as int, count as int);
                crate::fixed::lemma_tdiv_ordered(0, nb.y as int, count as int);
                crate::fixed::lemma_tdiv_ordered(0, nb.z as int, count as int);
                crate::fixed::lemma_tdiv_shrinks(nb.x as int, count as int);
                crate::fixed::lemma_tdiv_shrinks(nb.y as int, count as int);
                crate::fixed::lemma_tdiv_shrinks(nb.z as int, count as int);
            }
            let avg = Vec3 {
                x: div_i64(nb.x, count as i64),
                y: div_i64(nb.y, count as i64),
                z: div_i64(nb.z, count as i64),
            };
            let rgb = avg.get_rgb();
            let ghost img_pre = self.image@;
            let ghost buf_now = self.buffer@;
            self.image.set(4 * k, rgb[0]);
            self.image.set(4 * k + 1, rgb[1]);
            self.image.set(4 * k + 2, rgb[2]);
            proof {
                assert(self.buffer@ =~= buf_now);
                assert forall|q: int| 0 <= q < k + 1 implies ({
                    let avg_x = tdiv(self.buffer@[q].x as int, count as int);
                    let avg_y = tdiv(self.buffer@[q].y as int, count as int);
                    let avg_z = tdiv(self.buffer@[q].z as int, count as int);
                    &&& #[trigger] self.image@[4 * q] == channel_byte_spec(avg_x)
                    &&& self.image@[4 * q + 1] == channel_byte_spec(avg_y)
                    &&& self.image@[4 * q + 2] == channel_byte_spec(avg_z)
                }) by {
                    if q < k {
                        assert(self.image@[4 * q] == img_pre[4 * q]);
                        assert(self.image@[4 * q + 1] == img_pre[4 * q + 1]);
                        assert(self.image@[4 * q + 2] == img_pre[4 * q + 2]);
                    } else {
                        assert(self.image@[4 * q] == rgb[0]);
                        assert(self.image@[4 * q + 1] == rgb[1]);
                        assert(self.image@[4 * q + 2] == rgb[2]);
                        assert(self.buffer@[q] == nb);
                        assert(avg.x == tdiv(self.buffer@[q].x as int, count as int));
                    }
                }
                assert(image_quantized(self.buffer@, self.image@, count as int, k + 1));
            }
            k = k + 1;
        }
        proof {
            assert(image_quantized(
                self.buffer@,
                self.image@,
                self.current_sample_count as int,
                self.buffer@.len() as int,
            ));
            let ghost w = frame@;
            assert(render_pixels_ok(old(self).camera, old(self).world, old(self).materials@, w));
            assert(w.len() == self.buffer@.len());
            assert forall|q: int| #![trigger w[q]] 0 <= q < w.len() implies self.buffer@[q] == (
            Color {
                x: (old(self).buffer@[q].x + w[q].x) as i64,
                y: (old(self).buffer@[q].y + w[q].y) as i64,
                z: (old(self).buffer@[q].z + w[q].z) as i64,
            }) by {
                assert(self.buffer@[q].x == old(self).buffer@[q].x + w[q].x);
                assert(self.buffer@[q].y == old(self).buffer@[q].y + w[q].y);
                assert(self.buffer@[q].z == old(self).buffer@[q].z + w[q].z);
            }
            assert(exists|fr: Seq<Color>|
                #![trigger render_pixels_ok(old(self).camera, old(self).world, old(self).materials@, fr)]
                render_pixels_ok(old(self).camera, old(self).world, old(self).materials@, fr)
                    && fr.len() == self.buffer@.len() && (forall|q: int|
                    #![trigger fr[q]]
                    0 <= q < fr.len() ==> self.buffer@[q] == (Color {
                        x: (old(self).buffer@[q].x + fr[q].x) as i64,
                        y: (old(self).buffer@[q].y + fr[q].y) as i64,
                        z: (old(self).buffer@[q].z + fr[q].z) as i64,
                    })));
        }
    }


    /// Apply a camera update: absent fields keep their value, the aspect
    /// ratio falls back to 16:9, the render restarts from zero samples
    /// with buffers matching the new image size.
    pub fn update_camera(&mut self, u: CameraUpdate)
        requires
            scene_wf(*old(self)),
            camera_cfg_ok(
                upd_i32(u.width, old(self).camera.image_width),
                upd_i64(u.aspect_ratio, DEFAULT_ASPECT),
                1,
                upd_i32(u.max_depth, old(self).camera.max_depth),
                upd_i64(u.vfov, old(self).camera.vfov),
                upd_vec(u.lookfrom, old(self).camera.lookfrom),
                upd_vec(u.lookat, old(self).camera.lookat),
                upd_vec(u.vup, old(self).camera.vup),
                upd_i64(u.defocus_angle, old(self).camera.defocus_angle),
                upd_i64(u.focus_dist, old(self).camera.focus_dist),
            ),
        ensures
            scene_wf(*final(self)),
            final(self).current_sample_count == 0,
            final(self).world == old(self).world,
            final(self).materials == old(self).materials,
            final(self).samples_per_pixel == old(self).samples_per_pixel,
            final(self).camera.image_width == upd_i32(u.width, old(self).camera.image_width),
            final(self).camera.max_depth == upd_i32(u.max_depth, old(self).camera.max_depth),
            final(self).camera.vfov == upd_i64(u.vfov, old(self).camera.vfov),
            final(self).camera.lookfrom == upd_vec(u.lookfrom, old(self).camera.lookfrom),
            final(self).camera.lookat == upd_vec(u.lookat, old(self).camera.lookat),
            final(self).camera.vup == upd_vec(u.vup, old(self).camera.vup),
            final(self).camera.defocus_angle == upd_i64(
                u.defocus_angle,
                old(self).camera.defocus_angle,
            ),
            final(self).camera.focus_dist == upd_i64(u.focus_dist, old(self).camera.focus_dist),
    {
        let width = match u.width {
            Some(w) => w,
            None => self.camera.image_width,
        };
        let aspect = match u.aspect_ratio {
            Some(a) => a,
            None => DEFAULT_ASPECT,
        };
        let max_depth = match u.max_depth {
            Some(d) => d,
            None => self.camera.max_depth,
        };
        let vfov = match u.vfov {
            Some(v) => v,
            None => self.camera.vfov,
        };
        let lookfrom = match u.lookfrom {
            Some(v) => v,
            None => self.camera.lookfrom,
        };
        let lookat = match u.lookat {
            Some(v) => v,
            None => self.camera.lookat,
        };
        let vup = match u.vup {
            Some(v) => v,
            None => self.camera.vup,
        };
        let defocus_angle = match u.defocus_angle {
            Some(v) => v,
            None => self.camera.defocus_angle,
        };
        let focus_dist = match u.focus_dist {
            Some(v) => v,
            None => self.camera.focus_dist,
        };
        self.camera = Camera::new(
            width,
            aspect,
            1,
            max_depth,
            vfov,
            lookfrom,
            lookat,
            vup,
            defocus_angle,
            focus_dist,
        );
        proof {
            assert(self.camera.image_width * self.camera.image_height <= 4096 * 16384)
                by (nonlinear_arith)
                requires
                    1 <= self.camera.image_width <= 4096,
                    1 <= self.camera.image_height <= 16384,
            ;
            assert(self.camera.image_width * self.camera.image_height >= 0) by (nonlinear_arith)
                requires
                    1 <= self.camera.image_width,
                    1 <= self.camera.image_height,
            ;
        }
        let n = (self.camera.image_width as usize) * (self.camera.image_height as usize);
        let mut buffer: Vec<Color> = Vec::new();
        let mut k: usize = 0;
        while k < n
            invariant
                k <= n,
                buffer@.len() == k,
                forall|q: int|
                    0 <= q < k ==> #[trigger] buffer@[q] == (Vec3 { x: 0, y: 0, z: 0 }),
            decreases n - k,
        {
            buffer.push(Vec3 { x: 0, y: 0, z: 0 });
            k = k + 1;
        }
        let mut image: Vec<u8> = Vec::new();
        let mut q: usize = 0;
        while q < 4 * n
            invariant
                q <= 4 * n,
                n <= 0x400_0000,
                image@.len() == q,
                forall|m: int| 0 <= m < q ==> #[trigger] image@[m] == 255,
            decreases 4 * n - q,
        {
            image.push(255);
            q = q + 1;
        }
        self.buffer = buffer;
        self.image = image;
        self.current_sample_count = 0;
        proof {
            vstd::arithmetic::mul::lemma_mul_is_commutative(
                self.camera.image_width as int,
                self.camera.image_height as int,
            );
        }
    }

    /// Drop the accumulated radiance and reset the image to opaque white.
    pub fn clear(&mut self)
        requires
            scene_wf(*old(self)),
        ensures
            scene_wf(*final(self)),
            final(self).camera == old(self).camera,
            final(self).world == old(self).world,
            final(self).materials == old(self).materials,
            final(self).current_sample_count == old(self).current_sample_count,
            final(self).buffer@.len() == old(self).buffer@.len(),
            forall|k: int|
                0 <= k < final(self).buffer@.len() ==> #[trigger] final(self).buffer@[k] == (Vec3 {
                    x: 0,
                    y: 0,
                    z: 0,
                }),
    {
        let n = self.buffer.len();
        proof {
            assert(self.camera.image_height * self.camera.image_width <= 16384 * 4096)
                by (nonlinear_arith)
                requires
                    1 <= self.camera.image_width <= 4096,
                    1 <= self.camera.image_height <= 16384,
            ;
        }
        let mut k: usize = 0;
        while k < n
            invariant
                n <= 0x400_0000,
                n == self.buffer@.len(),
                n == old(self).buffer@.len(),
                self.image@.len() == 4 * n,
                k <= n,
                self.camera == old(self).camera,
                self.world == old(self).world,
                self.materials == old(self).materials,
                self.current_sample_count == old(self).current_sample_count,
                self.samples_per_pixel == old(self).samples_per_pixel,
                camera_wf(self.camera),
                self.camera.samples_per_pixel == 1,
                world_wf(self.world),
                mats_wf(self.materials@),
                self.current_sample_count <= 0x10_0000,
                forall|q: int|
                    0 <= q < k ==> #[trigger] self.buffer@[q] == (Vec3 { x: 0, y: 0, z: 0 }),
                forall|q: int|
                    k <= q < n ==> #[trigger] self.buffer@[q] == old(self).buffer@[q],
                forall|q: int|
                    0 <= q < n ==> 0 <= #[trigger] old(self).buffer@[q].x
                        <= old(self).current_sample_count * 0x4000_0000 && 0
                        <= old(self).buffer@[q].y <= old(self).current_sample_count * 0x4000_0000
                        && 0 <= old(self).buffer@[q].z <= old(self).current_sample_count
                        * 0x4000_0000,
                forall|q: int| 0 <= q < n ==> #[trigger] self.image@[4 * q + 3] == 255,
            decreases n - k,
        {
            self.buffer.set(k, Vec3 { x: 0, y: 0, z: 0 });
            self.image.set(4 * k, 255);
            self.image.set(4 * k + 1, 255);
            self.image.set(4 * k + 2, 255);
            proof {
                assert(self.current_sample_count * 0x4000_0000 >= 0) by (nonlinear_arith);
            }
            k = k + 1;
        }
    }
}

} // verus!
