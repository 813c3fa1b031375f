//! Scattering: Lambertian diffuse reflection through a texture, metallic
//! reflection with a fuzz radius, and dielectric refraction with Schlick's
//! reflectance approximation.  The closed set of materials is a sum type,
//! so every dispatch is an exhaustive match.

use vstd::prelude::*;

use crate::color::Color;
use crate::fixed::{fx_div, fx_mul, iabs, tdiv, FX_ONE};
use crate::fixed::{div_fx, lemma_fx_mul_mag, lemma_tdiv_bound, mul_fx, sqrt_fx};
use crate::hittable::HitRecord;
use crate::ray::Ray;
use crate::texture::{color_ok, texture_value_spec, texture_wf, SolidColor, Texture};
use crate::vec3::{
    dot,
    dot_wide,
    in_vec,
    near_zero_spec,
    reflect,
    reflect_spec,
    refract_spec,
    unit_spec,
    unit_vector,
    Vec3,
};

verus! {

pub struct Lambertian {
    pub texture: Texture,
}

pub struct Metal {
    pub albedo: Color,
    pub fuzz: i64,
}

pub struct Dielectric {
    pub refraction_index: i64,
}

pub enum Material {
    Lambertian(Lambertian),
    Metal(Metal),
    Dielectric(Dielectric),
}

/// Validity: colors in range, fuzz within one, refraction index within a
/// sixteenfold band around one.
pub open spec fn material_wf(m: Material) -> bool {
    match m {
        Material::Lambertian(l) => texture_wf(l.texture),
        Material::Metal(mt) => color_ok(mt.albedo) && 0 <= mt.fuzz <= FX_ONE,
        Material::Dielectric(d) => 4096 <= d.refraction_index <= 16 * FX_ONE,
    }
}

/// The normal and ray pair a scatter call expects: a direction within the
/// world bound and nonzero, and a near-unit normal.
pub open spec fn scatter_input_ok(r: Ray, rec: HitRecord) -> bool {
    &&& in_vec(r.dir)
    &&& !(r.dir.x == 0 && r.dir.y == 0 && r.dir.z == 0)
    &&& in_vec(rec.p)
    &&& iabs(rec.normal.x as int) <= 2 * FX_ONE
    &&& iabs(rec.normal.y as int) <= 2 * FX_ONE
    &&& iabs(rec.normal.z as int) <= 2 * FX_ONE
}

/// Schlick's reflectance at a given cosine and refraction index:
/// `r0 + (1 - r0)(1 - cos)^5` with `r0 = ((1 - n)/(1 + n))^2`.
pub open spec fn reflectance_spec(cosine: int, refraction_index: int) -> int {
    let r0a = fx_div(FX_ONE - refraction_index, FX_ONE + refraction_index);
    let r0 = fx_mul(r0a, r0a);
    let d = FX_ONE - cosine;
    let d2 = fx_mul(d, d);
    let d4 = fx_mul(d2, d2);
    let d5 = fx_mul(d4, d);
    r0 + fx_mul(FX_ONE - r0, d5)
}

/// The attenuation a material reports for a hit: the texture color at the
/// hit point for a Lambertian, the albedo for a metal, white for a
/// dielectric.
pub open spec fn material_attenuation(m: Material, rec: HitRecord) -> Color {
    match m {
        Material::Lambertian(l) => texture_value_spec(l.texture, 0, 0, rec.p),
        Material::Metal(mt) => mt.albedo,
        Material::Dielectric(d) => Color { x: FX_ONE, y: FX_ONE, z: FX_ONE },
    }
}

/// The relative refraction index a dielectric uses for a hit: inverted
/// when the ray meets the front face.
pub open spec fn dielectric_ri(d: Dielectric, front_face: bool) -> int {
    if front_face {
        fx_div(FX_ONE as int, d.refraction_index as int)
    } else {
        d.refraction_index as int
    }
}

impl Lambertian {
    pub fn new(albedo: Color) -> (r: Self)
        ensures
            r.texture == Texture::Solid(SolidColor { albedo }),
    {
        Self { texture: Texture::Solid(SolidColor::new(albedo)) }
    }

    pub fn with_texture(texture: Texture) -> (r: Self)
        ensures
            r.texture == texture,
    {
        Self { texture }
    }
}

impl Metal {
    pub fn new(albedo: Color, fuzz: i64) -> (r: Self)
        ensures
            r.albedo == albedo,
            r.fuzz == fuzz,
    {
        Self { albedo, fuzz }
    }
}

impl Dielectric {
    pub fn new(ri: i64) -> (r: Self)
        ensures
            r.refraction_index == ri,
    {
        Dielectric { refraction_index: ri }
    }

    /// Schlick's approximation for reflectance.
    pub fn reflectance(cosine: i64, refraction_index: i64) -> (r: i64)
        requires
            iabs(cosine as int) <= 8 * FX_ONE,
            0 < refraction_index <= 16 * FX_ONE,
        ensures
            r == reflectance_spec(cosine as int, refraction_index as int),
    {
        proof {
            lemma_reflectance_bounds(cosine as int, refraction_index as int);
        }
        let r0a = div_fx(FX_ONE - refraction_index, FX_ONE + refraction_index);
        let r0 = mul_fx(r0a, r0a);
        let d = FX_ONE - cosine;
        let d2 = mul_fx(d, d);
        let d4 = mul_fx(d2, d2);
        let d5 = mul_fx(d4, d);
        r0 + mul_fx(FX_ONE - r0, d5)
    }
}

/// Every intermediate of the reflectance formula stays in `i64`.
proof fn lemma_reflectance_bounds(cosine: int, ri: int)
    requires
        iabs(cosine) <= 524288,
        0 < ri <= 1048576,
    ensures
        iabs(fx_div(FX_ONE - ri, FX_ONE + ri)) <= FX_ONE,
        iabs(fx_mul(fx_div(FX_ONE - ri, FX_ONE + ri), fx_div(FX_ONE - ri, FX_ONE + ri)))
            <= FX_ONE,
        ({
            let d = FX_ONE - cosine;
            let d2 = fx_mul(d, d);
            let d4 = fx_mul(d2, d2);
            let d5 = fx_mul(d4, d);
            &&& iabs(d2) <= 0x51_0000
            &&& iabs(d4) <= 0x19a1_0000
            &&& iabs(d5) <= 0xe6a9_0000
            &&& ({
                let r0 = fx_mul(fx_div(FX_ONE - ri, FX_ONE + ri), fx_div(FX_ONE - ri, FX_ONE + ri));
                iabs(fx_mul(FX_ONE - r0, d5)) <= 0x1_cd52_0000
            })
        }),
{
    let num = FX_ONE - ri;
    let den = FX_ONE + ri;
    assert(iabs(num * FX_ONE) <= FX_ONE * den) by (nonlinear_arith)
        requires
            0 < ri <= 1048576,
            num == FX_ONE - ri,
            den == FX_ONE + ri,
    ;
    lemma_tdiv_bound(num * FX_ONE, den, FX_ONE as int);
    let r0a = fx_div(FX_ONE - ri, FX_ONE + ri);
    lemma_fx_mul_mag(r0a, r0a, 65536, 65536, 65536);
    let d = FX_ONE - cosine;
    assert(iabs(d) <= 589824);
    lemma_fx_mul_mag(d, d, 589824, 589824, 0x51_0000);
    let d2 = fx_mul(d, d);
    lemma_fx_mul_mag(d2, d2, 0x51_0000, 0x51_0000, 0x19a1_0000);
    let d4 = fx_mul(d2, d2);
    lemma_fx_mul_mag(d4, d, 0x19a1_0000, 589824, 0xe6a9_0000);
    let d5 = fx_mul(d4, d);
    let r0 = fx_mul(r0a, r0a);
    lemma_fx_mul_mag(FX_ONE - r0, d5, 131072, 0xe6a9_0000, 0x1_cd52_0000);
}

impl Material {
    /// Scatter an incoming ray at a hit: write the attenuation and the
    /// outgoing ray, and report whether the path continues.
    ///
    /// Whatever the internal random draws, the scattered ray starts at the
    /// hit point with the incoming ray's time; the attenuation is the
    /// texture or albedo color (white for a dielectric).  A Lambertian
    /// never hands back a degenerate direction; a metal reports a
    /// continuing path exactly when the scattered direction leaves the
    /// surface; a dielectric direction is always the exact reflection or
    /// the exact refraction of the unit incoming direction, and is the
    /// reflection whenever refraction is geometrically impossible.
    pub fn scatter(
        &self,
        r_in: &Ray,
        rec: &HitRecord,
        attenuation: &mut Color,
        scattered: &mut Ray,
    ) -> (keep: bool)
        requires
            material_wf(*self),
            scatter_input_ok(*r_in, *rec),
        ensures
            final(scattered).orig == rec.p,
            final(scattered).tm == r_in.tm,
            *final(attenuation) == material_attenuation(*self, *rec),
            self is Lambertian ==> keep && !near_zero_spec(final(scattered).dir),
            self is Metal ==> keep == (dot_wide(final(scattered).dir, rec.normal) > 0),
            self is Metal ==> ({
                let mirrored = reflect_spec(unit_spec(r_in.dir), rec.normal);
                if mirrored == (Vec3 { x: 0, y: 0, z: 0 }) {
                    final(scattered).dir == (Vec3 { x: 0, y: 0, z: 0 })
                } else {
                    exists|f: Vec3|
                        iabs(f.x as int) <= FX_ONE && iabs(f.y as int) <= FX_ONE && iabs(
                            f.z as int,
                        ) <= FX_ONE && final(scattered).dir == (Vec3 {
                            x: (unit_spec(mirrored).x + #[trigger] fx_mul(
                                f.x as int,
                                self->Metal_0.fuzz as int,
                            )) as i64,
                            y: (unit_spec(mirrored).y + fx_mul(
                                f.y as int,
                                self->Metal_0.fuzz as int,
                            )) as i64,
                            z: (unit_spec(mirrored).z + fx_mul(
                                f.z as int,
                                self->Metal_0.fuzz as int,
                            )) as i64,
                        })
                }
            }),
            self is Dielectric ==> keep && *final(attenuation) == (Color {
                x: FX_ONE,
                y: FX_ONE,
                z: FX_ONE,
            }) && {
                let unit = unit_spec(r_in.dir);
                let ri = dielectric_ri(self->Dielectric_0, rec.front_face);
                final(scattered).dir == reflect_spec(unit, rec.normal) || final(scattered).dir
                    == refract_spec(unit, rec.normal, ri)
            },
            color_ok(*final(attenuation)),
    {
        match self {
            Material::Lambertian(l) => {
                let ruv = Vec3::random_unit_vector();
                let mut scatter_direction = Vec3 {
                    x: rec.normal.x + ruv.x,
                    y: rec.normal.y + ruv.y,
                    z: rec.normal.z + ruv.z,
                };
                if scatter_direction.near_zero() {
                    // A draw opposite the normal cancels it; fall back to
                    // the normal itself.
                    scatter_direction = rec.normal;
                    if scatter_direction.near_zero() {
                        scatter_direction = Vec3 { x: 0, y: FX_ONE, z: 0 };
                    }
                }
                *scattered = Ray::new_tm(rec.p, scatter_direction, r_in.tm);
                *attenuation = l.texture.value(0, 0, &rec.p);
                true
            },
            Material::Metal(m) => {
                *attenuation = m.albedo;
                let unit_in = unit_vector(&r_in.dir);
                let reflected0 = reflect(&unit_in, &rec.normal);
                if reflected0.x == 0 && reflected0.y == 0 && reflected0.z == 0 {
                    // Degenerate mirror direction: the scatter is absorbed.
                    *scattered = Ray::new_tm(rec.p, reflected0, r_in.tm);
                    proof {
                        lemma_zero_dot(rec.normal);
                    }
                    return false;
                }
                proof {
                    crate::vec3::lemma_dot_wide_bound(unit_in, rec.normal, 65536, 131072);
                    lemma_tdiv_bound(dot_wide(unit_in, rec.normal), FX_ONE as int, 393216);
                    lemma_fx_mul_mag(
                        2 * tdiv(dot_wide(unit_in, rec.normal), FX_ONE as int),
                        rec.normal.x as int,
                        786432,
                        131072,
                        1572864,
                    );
                    lemma_fx_mul_mag(
                        2 * tdiv(dot_wide(unit_in, rec.normal), FX_ONE as int),
                        rec.normal.y as int,
                        786432,
                        131072,
                        1572864,
                    );
                    lemma_fx_mul_mag(
                        2 * tdiv(dot_wide(unit_in, rec.normal), FX_ONE as int),
                        rec.normal.z as int,
                        786432,
                        131072,
                        1572864,
                    );
                    lemma_metal_bounds(reflected0);
                }
                let unit_r = unit_vector(&reflected0);
                let ruv = Vec3::random_unit_vector();
                proof {
                    lemma_fx_mul_mag(ruv.x as int, m.fuzz as int, 65536, 65536, 65536);
                    lemma_fx_mul_mag(ruv.y as int, m.fuzz as int, 65536, 65536, 65536);
                    lemma_fx_mul_mag(ruv.z as int, m.fuzz as int, 65536, 65536, 65536);
                }
                let fx = mul_fx(ruv.x, m.fuzz);
                let fy = mul_fx(ruv.y, m.fuzz);
                let fz = mul_fx(ruv.z, m.fuzz);
                let dir = Vec3 { x: unit_r.x + fx, y: unit_r.y + fy, z: unit_r.z + fz };
                *scattered = Ray::new_tm(rec.p, dir, r_in.tm);
                let dw = dot_wide_small(&dir, &rec.normal);
                dw > 0
            },
            Material::Dielectric(d) => {
                *attenuation = Color { x: FX_ONE, y: FX_ONE, z: FX_ONE };
                let ri = if rec.front_face {
                    proof {
                        crate::vec3::lemma_abs_mul_bound(FX_ONE as int, FX_ONE as int, 65536, 65536);
                        lemma_tdiv_bound(
                            (FX_ONE as int) * (FX_ONE as int),
                            d.refraction_index as int,
                            1048576,
                        );
                        vstd::arithmetic::div_mod::lemma_div_non_zero(
                            (FX_ONE as int) * (FX_ONE as int),
                            d.refraction_index as int,
                        );
                    }
                    div_fx(FX_ONE, d.refraction_index)
                } else {
                    d.refraction_index
                };
                let unit_direction = unit_vector(&r_in.dir);
                let neg_unit = Vec3 { x: -unit_direction.x, y: -unit_direction.y, z: -unit_direction.z };
                let c0 = dot(neg_unit, rec.normal);
                let cos_theta = if c0 > FX_ONE {
                    FX_ONE
                } else {
                    c0
                };
                proof {
                    crate::vec3::lemma_dot_wide_bound(neg_unit, rec.normal, 65536, 131072);
                    lemma_tdiv_bound(dot_wide(neg_unit, rec.normal), FX_ONE as int, 393216);
                    lemma_fx_mul_mag(cos_theta as int, cos_theta as int, 393216, 393216, 2359296);
                    assert((cos_theta as int) * (cos_theta as int) >= 0) by (nonlinear_arith);
                    crate::fixed::lemma_tdiv_ordered(
                        0,
                        (cos_theta as int) * (cos_theta as int),
                        FX_ONE as int,
                    );
                }
                let cc = mul_fx(cos_theta, cos_theta);
                let k = if FX_ONE - cc >= 0 {
                    FX_ONE - cc
                } else {
                    0
                };
                let sin_theta = sqrt_fx(k);
                proof {
                    let sb = crate::fixed::sqrt_floor((k * FX_ONE) as nat);
                    assert(sb * sb <= (k as int) * (FX_ONE as int));
                    assert(sb <= 65536) by (nonlinear_arith)
                        requires
                            sb * sb <= (k as int) * (FX_ONE as int),
                            0 <= k as int <= 65536,
                            sb >= 0,
                    ;
                    lemma_fx_mul_mag(ri as int, sin_theta as int, 1048576, 65536, 1048576);
                }
                let cannot_refract = mul_fx(ri, sin_theta) > FX_ONE;
                let must_reflect = if cannot_refract {
                    true
                } else {
                    let refl = Dielectric::reflectance(cos_theta, ri);
                    let u = crate::utils::random_double();
                    refl > u
                };
                let direction: Vec3;
                if must_reflect {
                    direction = reflect(&unit_direction, &rec.normal);
                } else {
                    direction = Vec3::refract(&unit_direction, &rec.normal, ri);
                }
                *scattered = Ray::new_tm(rec.p, direction, r_in.tm);
                true
            },
        }
    }
}

/// The wide dot product of two small vectors.
fn dot_wide_small(u: &Vec3, v: &Vec3) -> (r: i128)
    requires
        iabs(u.x as int) <= 4 * FX_ONE,
        iabs(u.y as int) <= 4 * FX_ONE,
        iabs(u.z as int) <= 4 * FX_ONE,
        iabs(v.x as int) <= 4 * FX_ONE,
        iabs(v.y as int) <= 4 * FX_ONE,
        iabs(v.z as int) <= 4 * FX_ONE,
    ensures
        r == dot_wide(*u, *v),
{
    proof {
        crate::vec3::lemma_abs_mul_bound(u.x as int, v.x as int, 262144, 262144);
        crate::vec3::lemma_abs_mul_bound(u.y as int, v.y as int, 262144, 262144);
        crate::vec3::lemma_abs_mul_bound(u.z as int, v.z as int, 262144, 262144);
    }
    (u.x as i128) * (v.x as i128) + (u.y as i128) * (v.y as i128) + (u.z as i128) * (v.z as i128)
}

/// A dot product against the zero vector is zero.
proof fn lemma_zero_dot(n: Vec3)
    ensures
        dot_wide(Vec3 { x: 0, y: 0, z: 0 }, n) == 0,
{
    let z = Vec3 { x: 0, y: 0, z: 0 };
    assert(z.x * n.x == 0 && z.y * n.y == 0 && z.z * n.z == 0) by (nonlinear_arith)
        requires
            z.x == 0,
            z.y == 0,
            z.z == 0,
    ;
}

/// The reflection of a unit direction about a near-unit normal stays
/// within the world bound.
proof fn lemma_metal_bounds(r: Vec3)
    requires
        iabs(r.x as int) <= 1703936,
        iabs(r.y as int) <= 1703936,
        iabs(r.z as int) <= 1703936,
    ensures
        in_vec(r),
{
}

} // verus!
