//! Random scalars and angle conversion.  All randomness enters the library
//! through one trusted wrapper around the `rand` crate; everything built on
//! top of it is verified against the range each draw is promised to lie in.

use vstd::prelude::*;

use crate::fixed::{iabs, tdiv, T_FAR, FX_ONE};
use crate::fixed::{div_i128, lemma_tdiv_bound, lemma_tdiv_ordered};

verus! {

/// `pi` in Q47.16.
pub const PI_FX: i64 = 205887;

/// Relies on rand::Rng::gen_range on `lo..hi` with a thread-local
/// generator: returns a value of the range, uniformly; panics only on an
/// empty range, which the precondition rules out.
#[verifier::external_body]
fn rand_range_u64(lo: u64, hi: u64) -> (r: u64)
    requires
        lo < hi,
    ensures
        lo <= r < hi,
{
    rand::Rng::gen_range(&mut rand::thread_rng(), lo..hi)
}

/// A uniform fixed-point scalar in `[0, 1)`.
pub fn random_double() -> (r: i64)
    ensures
        0 <= r < FX_ONE,
{
    rand_range_u64(0, FX_ONE as u64) as i64
}

/// A uniform fixed-point scalar in `[min, max)`.
pub fn random_double_range(min: i64, max: i64) -> (r: i64)
    requires
        -T_FAR <= min < max <= T_FAR,
    ensures
        min <= r < max,
{
    let u = random_double();
    proof {
        let d = (max - min) as int;
        let f = FX_ONE as int;
        crate::vec3::lemma_abs_mul_bound(d, u as int, 2 * T_FAR, FX_ONE as int);
        assert(d * u >= 0) by (nonlinear_arith)
            requires
                d >= 0,
                u >= 0,
        ;
        lemma_tdiv_ordered(0, d * u, f);
        assert(d * u <= d * f - d) by (nonlinear_arith)
            requires
                u <= f - 1,
                d >= 0,
        ;
        lemma_tdiv_ordered(d * u, d * f - 1, f);
        assert((d - 1) * f + (f - 1) == d * f - 1) by (nonlinear_arith);
        vstd::arithmetic::div_mod::lemma_fundamental_div_mod_converse(d * f - 1, f, d - 1, f - 1);
    }
    let step = div_i128((max as i128 - min as i128) * (u as i128), FX_ONE as i128);
    min + step as i64
}

/// A uniform integer in `[min, max]`, both ends included.
pub fn random_int(min: i32, max: i32) -> (r: i32)
    requires
        min <= max,
    ensures
        min <= r <= max,
{
    let span: u64 = (max as i64 - min as i64 + 1) as u64;
    let off = rand_range_u64(0, span);
    (min as i64 + off as i64) as i32
}

/// Degrees to radians: `deg * pi / 180`, in fixed point.
pub fn degrees_to_radians(degrees: i64) -> (r: i64)
    requires
        iabs(degrees as int) <= T_FAR,
    ensures
        r == tdiv(degrees * PI_FX, 180 * FX_ONE),
{
    proof {
        crate::vec3::lemma_abs_mul_bound(degrees as int, PI_FX as int, T_FAR as int, PI_FX as int);
        lemma_tdiv_bound(degrees * PI_FX, 180 * FX_ONE, T_FAR as int);
    }
    div_i128((degrees as i128) * (PI_FX as i128), 180 * FX_ONE as i128) as i64
}

} // verus!
