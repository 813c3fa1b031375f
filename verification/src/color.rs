//! Colors are vectors; this module adds the conversion from accumulated
//! linear radiance to gamma-corrected 8-bit channels.

use vstd::prelude::*;

use crate::fixed::{sqrt_floor, tdiv, FX_ONE};
use crate::fixed::sqrt_fx;
use crate::interval::{clamp_spec, Interval};
use crate::vec3::Vec3;

verus! {

pub type Color = Vec3;

/// Upper end of the clamp applied before quantization (just below one).
pub const INTENSITY_MAX: i64 = 65470;

/// Gamma correction: the square root of a nonnegative linear component,
/// zero otherwise.
pub open spec fn linear_to_gamma_spec(c: int) -> int {
    if c > 0 {
        sqrt_floor((c * FX_ONE) as nat) as int
    } else {
        0
    }
}

/// One quantized channel: gamma-correct, clamp to `[0, INTENSITY_MAX]`,
/// scale by 256.
pub open spec fn channel_byte_spec(c: int) -> int {
    let g = linear_to_gamma_spec(c);
    let cl = if g < 0 {
        0
    } else if g > INTENSITY_MAX {
        INTENSITY_MAX as int
    } else {
        g
    };
    tdiv(256 * cl, FX_ONE as int)
}

/// Gamma correction, computed.
fn linear_to_gamma(c: i64) -> (r: i64)
    ensures
        r == linear_to_gamma_spec(c as int),
        r >= 0,
{
    if c > 0 {
        sqrt_fx(c)
    } else {
        0
    }
}

impl Vec3 {
    /// The three 8-bit channels of this linear color, gamma-corrected and
    /// clamped.
    pub fn get_rgb(&self) -> (rgb: [u8; 3])
        ensures
            rgb[0] == channel_byte_spec(self.x as int),
            rgb[1] == channel_byte_spec(self.y as int),
            rgb[2] == channel_byte_spec(self.z as int),
    {
        let rb = channel_byte(self.x);
        let gb = channel_byte(self.y);
        let bb = channel_byte(self.z);
        [rb, gb, bb]
    }
}

/// One quantized channel, computed.
fn channel_byte(c: i64) -> (r: u8)
    ensures
        r == channel_byte_spec(c as int),
{
    let g = linear_to_gamma(c);
    let intensity = Interval::new(0, INTENSITY_MAX);
    let cl = intensity.clamp(g);
    proof {
        crate::fixed::lemma_tdiv_ordered(0, 256 * cl, FX_ONE as int);
        crate::fixed::lemma_tdiv_ordered(256 * cl, 256 * FX_ONE - 1, FX_ONE as int);
        vstd::arithmetic::div_mod::lemma_fundamental_div_mod_converse(
            256 * FX_ONE - 1,
            FX_ONE as int,
            255,
            FX_ONE - 1,
        );
        assert(clamp_spec(intensity, g as int) == if g < 0 {
            0int
        } else if g > INTENSITY_MAX {
            INTENSITY_MAX as int
        } else {
            g as int
        });
    }
    let q = crate::fixed::div_i64(256 * cl, FX_ONE);
    q as u8
}

} // verus!
