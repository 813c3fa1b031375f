//! Color lookup: solid colors, a parity checker pattern over two
//! sub-textures, an image sampled by surface coordinates, and procedural
//! lattice noise.  All lookups return linear colors with components in
//! `[0, 1]`.

use vstd::prelude::*;

use crate::color::Color;
use crate::fixed::{fx_div, fx_mul, iabs, tdiv, FX_ONE};
use crate::fixed::{div_i128, floor_fx, lemma_fx_mul_mag, lemma_tdiv_bound};
use crate::perlin::{noise_spec, perlin_wf, Perlin};
use crate::ray::Point3;
use crate::vec3::in_vec;

verus! {

#[derive(Debug)]
pub enum Texture {
    Solid(SolidColor),
    Checker(Box<CheckerTexture>),
    Image(ImageTexture),
    Noise(NoiseTexture),
}

#[derive(Debug, Clone, Copy)]
pub struct SolidColor {
    pub albedo: Color,
}

#[derive(Debug)]
pub struct CheckerTexture {
    pub inv_scale: i64,
    pub even: Texture,
    pub odd: Texture,
}

#[derive(Debug)]
pub struct RTImage {
    pub width: u32,
    pub height: u32,
    pub pixels: Vec<(u8, u8, u8)>,
}

#[derive(Debug)]
pub struct ImageTexture {
    pub image: RTImage,
}

#[derive(Debug)]
pub struct NoiseTexture {
    pub noise: Perlin,
}

/// A color with every channel in `[0, 1]`.
pub open spec fn color_ok(c: Color) -> bool {
    0 <= c.x <= FX_ONE && 0 <= c.y <= FX_ONE && 0 <= c.z <= FX_ONE
}

/// Pixel grid shape: one pixel triple per cell, with bounded dimensions.
pub open spec fn image_wf(img: RTImage) -> bool {
    &&& img.pixels@.len() == img.width * img.height
    &&& img.width <= 16384
    &&& img.height <= 16384
}

/// Structural validity: colors in range, a bounded checker scale, a
/// well-shaped image, well-formed noise tables.
pub open spec fn texture_wf(t: Texture) -> bool
    decreases t,
{
    match t {
        Texture::Solid(s) => color_ok(s.albedo),
        Texture::Checker(c) => {
            &&& iabs(c.inv_scale as int) <= 0x400_0000
            &&& texture_wf(c.even)
            &&& texture_wf(c.odd)
        },
        Texture::Image(it) => image_wf(it.image),
        Texture::Noise(n) => perlin_wf(n.noise),
    }
}

/// The sentinel color (magenta, as bytes) when no image data is present.
pub open spec fn pixel_at_spec(img: RTImage, x: int, y: int) -> (u8, u8, u8) {
    if img.height == 0 || img.width == 0 {
        (255u8, 0u8, 255u8)
    } else {
        let xc = if x >= img.width - 1 {
            img.width as int - 1
        } else {
            x
        };
        let yc = if y >= img.height - 1 {
            img.height as int - 1
        } else {
            y
        };
        img.pixels@[yc * img.width + xc]
    }
}

/// A byte channel scaled into `[0, 1]`.
pub open spec fn byte_to_fx(b: u8) -> int {
    tdiv(b * FX_ONE, 255)
}

/// What an image lookup returns for clamped coordinates `(u, v)`.
pub open spec fn image_value_spec(img: RTImage, u: int, v: int) -> Color {
    if img.height == 0 {
        Color { x: 0, y: FX_ONE, z: FX_ONE }
    } else {
        let uc = clamp01(u);
        let vc = FX_ONE - clamp01(v);
        let i = tdiv(uc * img.width, FX_ONE as int);
        let j = tdiv(vc * img.height, FX_ONE as int);
        let px = pixel_at_spec(img, i, j);
        Color { x: byte_to_fx(px.0) as i64, y: byte_to_fx(px.1) as i64, z: byte_to_fx(px.2) as i64 }
    }
}

/// Clamp a scalar into `[0, 1]`.
pub open spec fn clamp01(x: int) -> int {
    if x < 0 {
        0
    } else if x > FX_ONE {
        FX_ONE as int
    } else {
        x
    }
}

/// What a texture lookup returns at `(u, v, p)`.
pub open spec fn texture_value_spec(t: Texture, u: int, v: int, p: Point3) -> Color
    decreases t,
{
    match t {
        Texture::Solid(s) => s.albedo,
        Texture::Checker(c) => {
            let xi = fx_mul(c.inv_scale as int, p.x as int) / (FX_ONE as int);
            let yi = fx_mul(c.inv_scale as int, p.y as int) / (FX_ONE as int);
            let zi = fx_mul(c.inv_scale as int, p.z as int) / (FX_ONE as int);
            if (xi + yi + zi) % 2 == 0 {
                texture_value_spec(c.even, u, v, p)
            } else {
                texture_value_spec(c.odd, u, v, p)
            }
        },
        Texture::Image(it) => image_value_spec(it.image, u, v),
        Texture::Noise(n) => {
            let s = noise_spec(n.noise, p);
            Color { x: s as i64, y: s as i64, z: s as i64 }
        },
    }
}

impl SolidColor {
    pub fn new(albedo: Color) -> (r: Self)
        ensures
            r.albedo == albedo,
    {
        Self { albedo }
    }

    pub fn with_rgb(r: i64, g: i64, b: i64) -> (s: Self)
        ensures
            s.albedo == (Color { x: r, y: g, z: b }),
    {
        Self { albedo: Color { x: r, y: g, z: b } }
    }
}

impl CheckerTexture {
    /// A checker of two sub-textures with cells of size `scale`.
    pub fn new(scale: i64, even: Texture, odd: Texture) -> (r: Self)
        requires
            scale >= 64,
        ensures
            r.inv_scale == fx_div(FX_ONE as int, scale as int),
            r.even == even,
            r.odd == odd,
            iabs(r.inv_scale as int) <= 0x400_0000,
    {
        proof {
            lemma_tdiv_bound(FX_ONE * FX_ONE, scale as int, 0x400_0000);
        }
        let inv_scale = crate::fixed::div_fx(FX_ONE, scale);
        Self { inv_scale, even, odd }
    }

    /// A checker of two solid colors.
    pub fn with_color(scale: i64, c1: &Color, c2: &Color) -> (r: Self)
        requires
            scale >= 64,
        ensures
            r.inv_scale == fx_div(FX_ONE as int, scale as int),
            r.even == Texture::Solid(SolidColor { albedo: *c1 }),
            r.odd == Texture::Solid(SolidColor { albedo: *c2 }),
            iabs(r.inv_scale as int) <= 0x400_0000,
    {
        Self::new(scale, Texture::Solid(SolidColor::new(*c1)), Texture::Solid(SolidColor::new(*c2)))
    }
}

impl RTImage {
    /// Wrap a decoded pixel grid; zero dimensions stand for a missing
    /// image.
    pub fn new(width: u32, height: u32, pixels: Vec<(u8, u8, u8)>) -> (r: Self)
        requires
            pixels@.len() == width * height,
            width <= 16384,
            height <= 16384,
        ensures
            r.width == width,
            r.height == height,
            r.pixels == pixels,
            image_wf(r),
    {
        Self { width, height, pixels }
    }

    pub fn width(&self) -> (r: u32)
        ensures
            r == self.width,
    {
        self.width
    }

    pub fn height(&self) -> (r: u32)
        ensures
            r == self.height,
    {
        self.height
    }

    /// The pixel at `(x, y)`, clamped to the grid; magenta when no image
    /// is present.
    pub fn pixel_data(&self, x: u32, y: u32) -> (r: (u8, u8, u8))
        requires
            image_wf(*self),
        ensures
            r == pixel_at_spec(*self, x as int, y as int),
    {
        if self.height == 0 || self.width == 0 {
            return (255, 0, 255);
        }
        let xc: u32 = if x >= self.width - 1 {
            self.width - 1
        } else {
            x
        };
        let yc: u32 = if y >= self.height - 1 {
            self.height - 1
        } else {
            y
        };
        proof {
            assert((yc as int) * (self.width as int) + xc < (self.width as int) * (
            self.height as int)) by (nonlinear_arith)
                requires
                    0 <= xc as int && (xc as int) < self.width as int,
                    0 <= yc as int && (yc as int) < self.height as int,
            ;
            assert((yc as int) * (self.width as int) >= 0) by (nonlinear_arith)
                requires
                    0 <= yc as int,
                    0 <= self.width as int,
            ;
            assert((yc as int) * (self.width as int) <= 16384 * 16384) by (nonlinear_arith)
                requires
                    0 <= yc as int <= 16384,
                    0 <= self.width as int <= 16384,
            ;
        }
        let idx: usize = (yc as usize) * (self.width as usize) + (xc as usize);
        self.pixels[idx]
    }

    /// The pixel scaled to a linear color.
    pub fn get_linear_pixel(&self, x: u32, y: u32) -> (r: Color)
        requires
            image_wf(*self),
        ensures
            ({
                let px = pixel_at_spec(*self, x as int, y as int);
                r == (Color {
                    x: byte_to_fx(px.0) as i64,
                    y: byte_to_fx(px.1) as i64,
                    z: byte_to_fx(px.2) as i64,
                })
            }),
            color_ok(r),
    {
        let px = self.pixel_data(x, y);
        proof {
            lemma_byte_to_fx(px.0);
            lemma_byte_to_fx(px.1);
            lemma_byte_to_fx(px.2);
        }
        Color {
            x: div_i64_byte(px.0),
            y: div_i64_byte(px.1),
            z: div_i64_byte(px.2),
        }
    }
}

/// A scaled byte channel lands in `[0, 1]`.
proof fn lemma_byte_to_fx(b: u8)
    ensures
        0 <= byte_to_fx(b) <= FX_ONE,
{
    crate::fixed::lemma_tdiv_ordered(0, b * FX_ONE, 255);
    crate::fixed::lemma_tdiv_ordered(b * FX_ONE, 255 * FX_ONE, 255);
    assert(tdiv(255 * FX_ONE, 255) == FX_ONE) by {
        vstd::arithmetic::div_mod::lemma_div_multiples_vanish(FX_ONE as int, 255);
        vstd::arithmetic::mul::lemma_mul_is_commutative(FX_ONE as int, 255);
    }
}

/// Scale one byte channel into `[0, 1]`.
fn div_i64_byte(b: u8) -> (r: i64)
    ensures
        r == byte_to_fx(b),
{
    ((b as i64) * FX_ONE) / 255
}

impl ImageTexture {
    pub fn new(image: RTImage) -> (r: Self)
        ensures
            r.image == image,
    {
        Self { image }
    }
}

impl NoiseTexture {
    pub fn new() -> (r: Self)
        ensures
            perlin_wf(r.noise),
    {
        Self { noise: Perlin::new() }
    }
}

impl Texture {
    /// The color of the texture at surface coordinates `(u, v)` and point
    /// `p`.
    pub fn value(&self, u: i64, v: i64, p: &Point3) -> (r: Color)
        requires
            texture_wf(*self),
            in_vec(*p),
        ensures
            r == texture_value_spec(*self, u as int, v as int, *p),
            color_ok(r),
        decreases *self,
    {
        match self {
            Texture::Solid(s) => s.albedo,
            Texture::Checker(c) => {
                proof {
                    lemma_fx_mul_mag(c.inv_scale as int, p.x as int, 0x400_0000, 0x1000_0000, 0x400_0000_0000);
                    lemma_fx_mul_mag(c.inv_scale as int, p.y as int, 0x400_0000, 0x1000_0000, 0x400_0000_0000);
                    lemma_fx_mul_mag(c.inv_scale as int, p.z as int, 0x400_0000, 0x1000_0000, 0x400_0000_0000);
                }
                let xs = crate::fixed::mul_fx(c.inv_scale, p.x);
                let ys = crate::fixed::mul_fx(c.inv_scale, p.y);
                let zs = crate::fixed::mul_fx(c.inv_scale, p.z);
                let xi = floor_fx(xs);
                let yi = floor_fx(ys);
                let zi = floor_fx(zs);
                let sum = xi + yi + zi;
                let is_even = emod2(sum) == 0;
                if is_even {
                    c.even.value(u, v, p)
                } else {
                    c.odd.value(u, v, p)
                }
            },
            Texture::Image(it) => {
                let uc = clamp01_exec(u);
                let vc = FX_ONE - clamp01_exec(v);
                proof {
                    crate::vec3::lemma_abs_mul_bound(uc as int, it.image.width as int, FX_ONE as int, 16384);
                    crate::vec3::lemma_abs_mul_bound(vc as int, it.image.height as int, FX_ONE as int, 16384);
                    lemma_tdiv_bound(uc * it.image.width, FX_ONE as int, 16384);
                    lemma_tdiv_bound(vc * it.image.height, FX_ONE as int, 16384);
                    crate::fixed::lemma_tdiv_ordered(0, uc * it.image.width, FX_ONE as int);
                    crate::fixed::lemma_tdiv_ordered(0, vc * it.image.height, FX_ONE as int);
                }
                if it.image.height == 0 {
                    return Color { x: 0, y: FX_ONE, z: FX_ONE };
                }
                let i = div_i128((uc as i128) * (it.image.width as i128), FX_ONE as i128) as u32;
                let j = div_i128((vc as i128) * (it.image.height as i128), FX_ONE as i128) as u32;
                it.image.get_linear_pixel(i, j)
            },
            Texture::Noise(n) => {
                let s = n.noise.noise(p);
                Color { x: s, y: s, z: s }
            },
        }
    }
}

/// `a mod 2`, Euclidean.
fn emod2(a: i64) -> (r: i64)
    requires
        a != i64::MIN,
    ensures
        r == (a as int) % 2,
{
    let m = a % 2;
    proof {
        if a < 0 {
            vstd::arithmetic::div_mod::lemma_fundamental_div_mod((-a) as int, 2);
            vstd::arithmetic::div_mod::lemma_mod_bound((-a) as int, 2);
            let q0 = ((-a) as int) / 2;
            let r0 = ((-a) as int) % 2;
            if r0 == 0 {
                vstd::arithmetic::div_mod::lemma_fundamental_div_mod_converse(a as int, 2, -q0, 0);
            } else {
                assert(a as int == (-q0 - 1) * 2 + 1) by (nonlinear_arith)
                    requires
                        (-a) as int == q0 * 2 + r0,
                        r0 == 1,
                ;
                vstd::arithmetic::div_mod::lemma_fundamental_div_mod_converse(a as int, 2, -q0 - 1, 1);
            }
        }
    }
    if m < 0 {
        m + 2
    } else {
        m
    }
}

/// Clamp into `[0, 1]`, computed.
fn clamp01_exec(x: i64) -> (r: i64)
    ensures
        r == clamp01(x as int),
{
    if x < 0 {
        0
    } else if x > FX_ONE {
        FX_ONE
    } else {
        x
    }
}

} // verus!
