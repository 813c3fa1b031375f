//! Q47.16 fixed-point scalars and the few arithmetic helpers the geometry
//! needs: truncating multiplication and division, and an integer square root.
//!
//! A raw `i64` value `v` stands for the real number `v / FX_ONE`.  All
//! contracts are stated over the exact integer formulas, using `tdiv` for
//! Rust's truncating division and `sqrt_floor` for the floor square root.

use vstd::prelude::*;

verus! {

/// The raw value standing for the real number one.
pub const FX_ONE: i64 = 65536;

/// Largest magnitude allowed for a world coordinate (2^28 raw, i.e. 4096.0
/// world units).  The bound keeps every intermediate of the quadratic
/// solver inside `i128`.
pub const COORD_MAX: i64 = 0x1000_0000;

/// Sentinel standing for an unbounded ray parameter (2^46 raw).  Every slab
/// parameter computed from in-bounds geometry stays strictly below it.
pub const T_FAR: i64 = 0x4000_0000_0000;

/// Magnitude of an integer.
pub open spec fn iabs(a: int) -> int {
    if a >= 0 {
        a
    } else {
        -a
    }
}

/// Truncating division, the semantics of Rust's `/` on signed integers.
pub open spec fn tdiv(a: int, b: int) -> int
    recommends
        b != 0,
{
    let q = iabs(a) / iabs(b);
    if (a >= 0) == (b >= 0) {
        q
    } else {
        -q
    }
}

/// The product of two fixed-point scalars, as a raw value.
pub open spec fn fx_mul(a: int, b: int) -> int {
    tdiv(a * b, FX_ONE as int)
}

/// The quotient of two fixed-point scalars, as a raw value.
pub open spec fn fx_div(a: int, b: int) -> int
    recommends
        b != 0,
{
    tdiv(a * FX_ONE, b)
}

/// Floor of the square root of a natural number.
pub open spec fn sqrt_floor(n: nat) -> nat
    decreases n,
{
    if n == 0 {
        0
    } else {
        let r = sqrt_floor((n - 1) as nat);
        if (r + 1) * (r + 1) <= n {
            r + 1
        } else {
            r
        }
    }
}

/// A coordinate within the world bound.
pub open spec fn in_coord(v: int) -> bool {
    -COORD_MAX <= v <= COORD_MAX
}

/// A ray parameter within the representable window.
pub open spec fn in_t(v: int) -> bool {
    -T_FAR <= v <= T_FAR
}

/// `sqrt_floor(n)` is the unique natural number whose square brackets `n`.
pub proof fn lemma_sqrt_floor_bounds(n: nat)
    ensures
        sqrt_floor(n) * sqrt_floor(n) <= n,
        n < (sqrt_floor(n) + 1) * (sqrt_floor(n) + 1),
    decreases n,
{
    let s = sqrt_floor(n);
    if n == 0 {
        assert(s == 0);
        assert(s * s <= n && n < (s + 1) * (s + 1)) by (nonlinear_arith)
            requires
                s == 0,
                n == 0,
        ;
    } else {
        lemma_sqrt_floor_bounds((n - 1) as nat);
        let r = sqrt_floor((n - 1) as nat);
        if (r + 1) * (r + 1) <= n {
            assert(s == r + 1);
            assert(s * s <= n);
            assert(n <= (r + 1) * (r + 1) + 1 - 1);
            assert((s + 1) * (s + 1) > s * s) by (nonlinear_arith);
            assert(n < (s + 1) * (s + 1));
        } else {
            assert(s == r);
            assert(s * s <= n - 1);
            assert(n < (s + 1) * (s + 1));
        }
    }
}

/// Any natural number whose square brackets `n` is `sqrt_floor(n)`.
pub proof fn lemma_sqrt_floor_unique(n: nat, r: nat)
    requires
        r * r <= n,
        n < (r + 1) * (r + 1),
    ensures
        r == sqrt_floor(n),
{
    lemma_sqrt_floor_bounds(n);
    let s = sqrt_floor(n);
    if r < s {
        assert((r + 1) * (r + 1) <= s * s) by (nonlinear_arith)
            requires
                r + 1 <= s,
        ;
    }
    if s < r {
        assert((s + 1) * (s + 1) <= r * r) by (nonlinear_arith)
            requires
                s + 1 <= r,
        ;
    }
}

/// Truncating division of `i64` values, computed over magnitudes so that the
/// result is pinned to `tdiv`.
pub fn div_i64(a: i64, b: i64) -> (q: i64)
    requires
        b != 0,
        a != i64::MIN,
    ensures
        q == tdiv(a as int, b as int),
{
    let aa: u64 = if a >= 0 {
        a as u64
    } else {
        (-a) as u64
    };
    let bb: u64 = if b >= 0 {
        b as u64
    } else {
        if b == i64::MIN {
            0x8000_0000_0000_0000u64
        } else {
            (-b) as u64
        }
    };
    let q0: u64 = aa / bb;
    assert(q0 == iabs(a as int) / iabs(b as int));
    assert(q0 <= aa) by {
        vstd::arithmetic::div_mod::lemma_div_is_ordered_by_denominator(aa as int, 1, bb as int);
    }
    if (a >= 0) == (b >= 0) {
        q0 as i64
    } else {
        -(q0 as i64)
    }
}

/// Truncating division of `i128` values.
pub fn div_i128(a: i128, b: i128) -> (q: i128)
    requires
        b != 0,
        a != i128::MIN,
        b != i128::MIN,
    ensures
        q == tdiv(a as int, b as int),
{
    let aa: u128 = if a >= 0 {
        a as u128
    } else {
        (-a) as u128
    };
    let bb: u128 = if b >= 0 {
        b as u128
    } else {
        (-b) as u128
    };
    let q0: u128 = aa / bb;
    assert(q0 == iabs(a as int) / iabs(b as int));
    assert(q0 <= aa) by {
        vstd::arithmetic::div_mod::lemma_div_is_ordered_by_denominator(aa as int, 1, bb as int);
    }
    if (a >= 0) == (b >= 0) {
        q0 as i128
    } else {
        -(q0 as i128)
    }
}

/// A truncating quotient never exceeds the dividend in magnitude.
pub proof fn lemma_tdiv_shrinks(a: int, b: int)
    requires
        b != 0,
    ensures
        iabs(tdiv(a, b)) <= iabs(a),
{
    vstd::arithmetic::div_mod::lemma_div_is_ordered_by_denominator(iabs(a), 1, iabs(b));
}

/// Fixed-point product of two scalars.
pub fn mul_fx(a: i64, b: i64) -> (r: i64)
    requires
        i64::MIN < fx_mul(a as int, b as int) <= i64::MAX,
    ensures
        r == fx_mul(a as int, b as int),
{
    proof {
        let bound: int = 0x4000_0000_0000_0000_0000_0000_0000_0000;
        assert(-bound <= (a as int) * (b as int) <= bound) by (nonlinear_arith)
            requires
                -0x8000_0000_0000_0000 <= a as int <= 0x7fff_ffff_ffff_ffff,
                -0x8000_0000_0000_0000 <= b as int <= 0x7fff_ffff_ffff_ffff,
                bound == 0x4000_0000_0000_0000_0000_0000_0000_0000,
        ;
    }
    let p: i128 = (a as i128) * (b as i128);
    let q = div_i128(p, FX_ONE as i128);
    q as i64
}

/// Fixed-point quotient of two scalars.
pub fn div_fx(a: i64, b: i64) -> (r: i64)
    requires
        b != 0,
        i64::MIN < fx_div(a as int, b as int) <= i64::MAX,
    ensures
        r == fx_div(a as int, b as int),
{
    let p: i128 = (a as i128) * (FX_ONE as i128);
    let neg: bool = b < 0;
    let bb: i128 = if neg {
        -(b as i128)
    } else {
        b as i128
    };
    let q = div_i128(p, bb);
    proof {
        lemma_tdiv_neg_divisor(p as int, b as int);
    }
    if neg {
        (-q) as i64
    } else {
        q as i64
    }
}

/// Negating the divisor negates a truncating quotient.
pub proof fn lemma_tdiv_neg_divisor(a: int, b: int)
    requires
        b != 0,
    ensures
        tdiv(a, -b) == -tdiv(a, b),
{
}

/// Truncating division by a positive divisor is monotone in the dividend.
pub proof fn lemma_tdiv_ordered(a1: int, a2: int, b: int)
    requires
        b > 0,
        a1 <= a2,
    ensures
        tdiv(a1, b) <= tdiv(a2, b),
{
    if a1 >= 0 {
        vstd::arithmetic::div_mod::lemma_div_is_ordered(a1, a2, b);
    } else if a2 <= 0 {
        vstd::arithmetic::div_mod::lemma_div_is_ordered(-a2, -a1, b);
    } else {
        vstd::arithmetic::div_mod::lemma_div_pos_is_pos(-a1, b);
        vstd::arithmetic::div_mod::lemma_div_pos_is_pos(a2, b);
    }
}

/// A truncating quotient is bounded by any multiple bound on the dividend:
/// `|a| <= m * b` gives `|a / b| <= m`.
pub proof fn lemma_tdiv_bound(a: int, b: int, m: int)
    requires
        b > 0,
        m >= 0,
        iabs(a) <= m * b,
    ensures
        iabs(tdiv(a, b)) <= m,
{
    assert(m * b >= 0) by (nonlinear_arith)
        requires
            m >= 0,
            b > 0,
    ;
    lemma_tdiv_ordered(a, m * b, b);
    lemma_tdiv_ordered(-(m * b), a, b);
    assert(tdiv(m * b, b) == m) by {
        vstd::arithmetic::div_mod::lemma_div_multiples_vanish(m, b);
        vstd::arithmetic::mul::lemma_mul_is_commutative(m, b);
    }
}

/// The magnitude of a fixed-point product, from magnitudes of the factors:
/// `|a| <= ca`, `|b| <= cb` and `ca * cb <= m * FX_ONE` give
/// `|fx_mul(a, b)| <= m`.
pub proof fn lemma_fx_mul_mag(a: int, b: int, ca: int, cb: int, m: int)
    requires
        iabs(a) <= ca,
        iabs(b) <= cb,
        0 <= ca,
        0 <= cb,
        ca * cb <= m * FX_ONE,
        0 <= m,
    ensures
        iabs(fx_mul(a, b)) <= m,
{
    assert(iabs(a * b) <= ca * cb) by (nonlinear_arith)
        requires
            iabs(a) <= ca,
            iabs(b) <= cb,
    ;
    lemma_tdiv_bound(a * b, FX_ONE as int, m);
}

/// Floor (Euclidean) division of a scalar by `FX_ONE`: the integer part,
/// rounding toward negative infinity.
pub fn floor_fx(a: i64) -> (q: i64)
    requires
        a != i64::MIN,
    ensures
        q == (a as int) / (FX_ONE as int),
{
    let ghost f = FX_ONE as int;
    if a >= 0 {
        a / FX_ONE
    } else {
        let na: u64 = (-a) as u64;
        let q0: u64 = na / (FX_ONE as u64);
        let r0: u64 = na % (FX_ONE as u64);
        proof {
            vstd::arithmetic::div_mod::lemma_fundamental_div_mod(na as int, f);
            vstd::arithmetic::div_mod::lemma_mod_bound(na as int, f);
            if r0 == 0 {
                vstd::arithmetic::div_mod::lemma_fundamental_div_mod_converse(
                    a as int,
                    f,
                    -(q0 as int),
                    0,
                );
            } else {
                assert(a as int == (-(q0 as int) - 1) * f + (f - r0)) by (nonlinear_arith)
                    requires
                        na as int == (q0 as int) * f + r0,
                        a as int == -(na as int),
                        f == FX_ONE as int,
                ;
                vstd::arithmetic::div_mod::lemma_fundamental_div_mod_converse(
                    a as int,
                    f,
                    -(q0 as int) - 1,
                    f - r0,
                );
            }
        }
        if r0 == 0 {
            -(q0 as i64)
        } else {
            -(q0 as i64) - 1
        }
    }
}

/// Square root of a nonnegative fixed-point scalar, as a fixed-point
/// scalar: the floor square root of `a` shifted into 32 fractional bits.
pub fn sqrt_fx(a: i64) -> (r: i64)
    requires
        a >= 0,
    ensures
        r == sqrt_floor((a * FX_ONE) as nat),
        r >= 0,
        r * r <= a * FX_ONE,
{
    proof {
        lemma_sqrt_floor_bounds((a * FX_ONE) as nat);
        let s = sqrt_floor((a * FX_ONE) as nat);
        assert((a as int) * (FX_ONE as int) <= 0x7fff_ffff_ffff_ffff * 65536) by (nonlinear_arith)
            requires
                0 <= a as int <= 0x7fff_ffff_ffff_ffff,
        ;
        assert(s < 0x1_0000_0000_0000) by (nonlinear_arith)
            requires
                s * s <= 0x7fff_ffff_ffff_ffff * 65536,
                s >= 0,
        ;
    }
    let wide: u128 = (a as u128) * (FX_ONE as u128);
    let s = isqrt_u128(wide);
    s as i64
}

/// Floor square root of a `u128`, by binary search.
pub fn isqrt_u128(x: u128) -> (r: u128)
    ensures
        r == sqrt_floor(x as nat),
        r < 0x1_0000_0000_0000_0000,
{
    let mut lo: u128 = 0;
    let mut hi: u128 = 0x1_0000_0000_0000_0000u128;
    if x >= 0xffff_ffff_ffff_ffff_0000_0000_0000_0001u128 {
        // The square root would round down to 2^64 - 1.
        proof {
            let r: int = 0xffff_ffff_ffff_ffff;
            assert(r * r == 0xffff_ffff_ffff_fffe_0000_0000_0000_0001int);
            assert((r + 1) * (r + 1) == 0x1_0000_0000_0000_0000_0000_0000_0000_0000int);
            lemma_sqrt_floor_unique(x as nat, 0xffff_ffff_ffff_ffff as nat);
        }
        return 0xffff_ffff_ffff_ffffu128;
    }
    assert((hi as int) * (hi as int) == 0x1_0000_0000_0000_0000_0000_0000_0000_0000int);
    while hi - lo > 1
        invariant
            lo < hi <= 0x1_0000_0000_0000_0000u128,
            (lo as nat) * (lo as nat) <= x as nat,
            (x as nat) < (hi as nat) * (hi as nat),
        decreases hi - lo,
    {
        let mid: u128 = lo + (hi - lo) / 2;
        assert(mid * mid < 0x1_0000_0000_0000_0000_0000_0000_0000_0000) by (nonlinear_arith)
            requires
                mid < 0x1_0000_0000_0000_0000u128,
        ;
        if mid * mid <= x {
            lo = mid;
        } else {
            hi = mid;
        }
    }
    proof {
        lemma_sqrt_floor_unique(x as nat, lo as nat);
    }
    lo
}

} // verus!
