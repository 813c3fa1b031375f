//! Three-component fixed-point vectors, used interchangeably as points,
//! directions and linear RGB colors.
//!
//! Componentwise operations are specified exactly.  Products of two Q47.16
//! scalars are formed in 128-bit arithmetic and rescaled by truncating
//! division, so a specification-level dot product (`dot_wide`) carries 32
//! fractional bits and is exact.

use vstd::prelude::*;

use crate::fixed::{fx_mul, fx_div, iabs, in_coord, sqrt_floor, tdiv, FX_ONE};
use crate::fixed::{
    div_i128,
    isqrt_u128,
    lemma_sqrt_floor_bounds,
    lemma_tdiv_bound,
    lemma_tdiv_ordered,
    mul_fx,
};
use crate::fixed::T_FAR;

verus! {

#[derive(Clone, Copy, Debug, PartialEq, Eq, Structural)]
pub struct Vec3 {
    pub x: i64,
    pub y: i64,
    pub z: i64,
}

/// The dot product of two vectors carrying 32 fractional bits: exact, no
/// rounding.
pub open spec fn dot_wide(u: Vec3, v: Vec3) -> int {
    u.x * v.x + u.y * v.y + u.z * v.z
}

/// Every component within the world coordinate bound.
pub open spec fn in_vec(v: Vec3) -> bool {
    in_coord(v.x as int) && in_coord(v.y as int) && in_coord(v.z as int)
}

/// The length of `v` as a Q47.16 raw value: the floor square root of the
/// 32-fractional-bit squared length.
pub open spec fn length_fx(v: Vec3) -> int {
    sqrt_floor(dot_wide(v, v) as nat) as int
}

/// The unit vector of `v`, componentwise `v_i / |v|` in fixed point.
pub open spec fn unit_spec(v: Vec3) -> Vec3 {
    Vec3 {
        x: tdiv(v.x * FX_ONE, length_fx(v)) as i64,
        y: tdiv(v.y * FX_ONE, length_fx(v)) as i64,
        z: tdiv(v.z * FX_ONE, length_fx(v)) as i64,
    }
}

/// `v - 2 (v.n) n`, the mirror reflection of `v` about the plane with
/// normal `n`.
pub open spec fn reflect_spec(v: Vec3, n: Vec3) -> Vec3 {
    Vec3 {
        x: (v.x - fx_mul(2 * tdiv(dot_wide(v, n), FX_ONE as int), n.x as int)) as i64,
        y: (v.y - fx_mul(2 * tdiv(dot_wide(v, n), FX_ONE as int), n.y as int)) as i64,
        z: (v.z - fx_mul(2 * tdiv(dot_wide(v, n), FX_ONE as int), n.z as int)) as i64,
    }
}

/// All components below 2^-8 in magnitude, the degenerate-direction test.
pub open spec fn near_zero_spec(v: Vec3) -> bool {
    iabs(v.x as int) < 256 && iabs(v.y as int) < 256 && iabs(v.z as int) < 256
}

/// A sum of three squares is nonnegative and bounds each square.
pub proof fn lemma_dot_wide_self(v: Vec3)
    ensures
        dot_wide(v, v) >= 0,
        v.x * v.x <= dot_wide(v, v),
        v.y * v.y <= dot_wide(v, v),
        v.z * v.z <= dot_wide(v, v),
{
    assert(v.x * v.x >= 0 && v.y * v.y >= 0 && v.z * v.z >= 0) by (nonlinear_arith);
}

/// Componentwise product bound: `|a| <= ca` and `|b| <= cb` give
/// `|a * b| <= ca * cb`.
pub proof fn lemma_abs_mul_bound(a: int, b: int, ca: int, cb: int)
    requires
        iabs(a) <= ca,
        iabs(b) <= cb,
    ensures
        iabs(a * b) <= ca * cb,
{
    assert(iabs(a * b) <= ca * cb) by (nonlinear_arith)
        requires
            iabs(a) <= ca,
            iabs(b) <= cb,
    ;
}

/// The wide dot product of two vectors with componentwise magnitude bounds
/// `cu` and `cv` is bounded by `3 cu cv`.
pub proof fn lemma_dot_wide_bound(u: Vec3, v: Vec3, cu: int, cv: int)
    requires
        iabs(u.x as int) <= cu,
        iabs(u.y as int) <= cu,
        iabs(u.z as int) <= cu,
        iabs(v.x as int) <= cv,
        iabs(v.y as int) <= cv,
        iabs(v.z as int) <= cv,
    ensures
        iabs(dot_wide(u, v)) <= 3 * (cu * cv),
{
    lemma_abs_mul_bound(u.x as int, v.x as int, cu, cv);
    lemma_abs_mul_bound(u.y as int, v.y as int, cu, cv);
    lemma_abs_mul_bound(u.z as int, v.z as int, cu, cv);
}

impl Default for Vec3 {
    fn default() -> (r: Self)
        ensures
            r == (Vec3 { x: 0, y: 0, z: 0 }),
    {
        Vec3 { x: 0, y: 0, z: 0 }
    }
}

impl Vec3 {
    pub fn new(e0: i64, e1: i64, e2: i64) -> (r: Self)
        ensures
            r == (Vec3 { x: e0, y: e1, z: e2 }),
    {
        Self { x: e0, y: e1, z: e2 }
    }

    pub fn x(&self) -> (r: i64)
        ensures
            r == self.x,
    {
        self.x
    }

    pub fn y(&self) -> (r: i64)
        ensures
            r == self.y,
    {
        self.y
    }

    pub fn z(&self) -> (r: i64)
        ensures
            r == self.z,
    {
        self.z
    }

    pub fn add(self, o: Vec3) -> (r: Vec3)
        requires
            i64::MIN <= self.x + o.x <= i64::MAX,
            i64::MIN <= self.y + o.y <= i64::MAX,
            i64::MIN <= self.z + o.z <= i64::MAX,
        ensures
            r.x == self.x + o.x,
            r.y == self.y + o.y,
            r.z == self.z + o.z,
    {
        Vec3 { x: self.x + o.x, y: self.y + o.y, z: self.z + o.z }
    }

    pub fn sub(self, o: Vec3) -> (r: Vec3)
        requires
            i64::MIN <= self.x - o.x <= i64::MAX,
            i64::MIN <= self.y - o.y <= i64::MAX,
            i64::MIN <= self.z - o.z <= i64::MAX,
        ensures
            r.x == self.x - o.x,
            r.y == self.y - o.y,
            r.z == self.z - o.z,
    {
        Vec3 { x: self.x - o.x, y: self.y - o.y, z: self.z - o.z }
    }

    pub fn neg(self) -> (r: Vec3)
        requires
            self.x != i64::MIN,
            self.y != i64::MIN,
            self.z != i64::MIN,
        ensures
            r.x == -self.x,
            r.y == -self.y,
            r.z == -self.z,
    {
        Vec3 { x: -self.x, y: -self.y, z: -self.z }
    }

    /// Componentwise (Hadamard) product, the attenuation of a color by a
    /// color.
    pub fn mul(self, o: Vec3) -> (r: Vec3)
        requires
            i64::MIN < fx_mul(self.x as int, o.x as int) <= i64::MAX,
            i64::MIN < fx_mul(self.y as int, o.y as int) <= i64::MAX,
            i64::MIN < fx_mul(self.z as int, o.z as int) <= i64::MAX,
        ensures
            r.x == fx_mul(self.x as int, o.x as int),
            r.y == fx_mul(self.y as int, o.y as int),
            r.z == fx_mul(self.z as int, o.z as int),
    {
        Vec3 { x: mul_fx(self.x, o.x), y: mul_fx(self.y, o.y), z: mul_fx(self.z, o.z) }
    }

    /// Product with a scalar.
    pub fn scale(self, t: i64) -> (r: Vec3)
        requires
            i64::MIN < fx_mul(self.x as int, t as int) <= i64::MAX,
            i64::MIN < fx_mul(self.y as int, t as int) <= i64::MAX,
            i64::MIN < fx_mul(self.z as int, t as int) <= i64::MAX,
        ensures
            r.x == fx_mul(self.x as int, t as int),
            r.y == fx_mul(self.y as int, t as int),
            r.z == fx_mul(self.z as int, t as int),
    {
        Vec3 { x: mul_fx(self.x, t), y: mul_fx(self.y, t), z: mul_fx(self.z, t) }
    }

    /// Quotient by a scalar.
    pub fn div_scalar(self, t: i64) -> (r: Vec3)
        requires
            t != 0,
            i64::MIN < fx_div(self.x as int, t as int) <= i64::MAX,
            i64::MIN < fx_div(self.y as int, t as int) <= i64::MAX,
            i64::MIN < fx_div(self.z as int, t as int) <= i64::MAX,
        ensures
            r.x == fx_div(self.x as int, t as int),
            r.y == fx_div(self.y as int, t as int),
            r.z == fx_div(self.z as int, t as int),
    {
        Vec3 {
            x: crate::fixed::div_fx(self.x, t),
            y: crate::fixed::div_fx(self.y, t),
            z: crate::fixed::div_fx(self.z, t),
        }
    }

    /// Squared length as a Q47.16 raw value.
    pub fn length_squared(&self) -> (r: i64)
        requires
            in_vec(*self),
        ensures
            r == tdiv(dot_wide(*self, *self), FX_ONE as int),
            r >= 0,
    {
        let w = dot_wide_exec(self, self);
        proof {
            lemma_dot_wide_self(*self);
            lemma_dot_wide_bound(*self, *self, 0x1000_0000, 0x1000_0000);
            lemma_tdiv_bound(w as int, FX_ONE as int, 0x3_0000_0000_0000);
            lemma_tdiv_ordered(0, w as int, FX_ONE as int);
        }
        let q = div_i128(w, FX_ONE as i128);
        q as i64
    }

    /// Length as a Q47.16 raw value: exact floor square root of the wide
    /// squared length.
    pub fn length(&self) -> (r: i64)
        requires
            in_vec(*self),
        ensures
            r == length_fx(*self),
            r >= 0,
            r * r <= dot_wide(*self, *self),
            dot_wide(*self, *self) < (r + 1) * (r + 1),
    {
        let w = dot_wide_exec(self, self);
        proof {
            lemma_dot_wide_self(*self);
            lemma_dot_wide_bound(*self, *self, 0x1000_0000, 0x1000_0000);
            lemma_sqrt_floor_bounds(dot_wide(*self, *self) as nat);
            let s = sqrt_floor(dot_wide(*self, *self) as nat);
            assert(s < 0x4000_0000) by (nonlinear_arith)
                requires
                    s * s <= 0x0300_0000_0000_0000,
            ;
        }
        let s = isqrt_u128(w as u128);
        s as i64
    }

    /// All components of negligible magnitude (below 2^-8).
    pub fn near_zero(&self) -> (r: bool)
        requires
            self.x != i64::MIN,
            self.y != i64::MIN,
            self.z != i64::MIN,
        ensures
            r == near_zero_spec(*self),
    {
        let s: i64 = 256;
        let ax = if self.x >= 0 {
            self.x
        } else {
            -self.x
        };
        let ay = if self.y >= 0 {
            self.y
        } else {
            -self.y
        };
        let az = if self.z >= 0 {
            self.z
        } else {
            -self.z
        };
        ax < s && ay < s && az < s
    }
}

/// Exact wide dot product (32 fractional bits), for vectors within the
/// world bound.
fn dot_wide_exec(u: &Vec3, v: &Vec3) -> (r: i128)
    requires
        in_vec(*u),
        in_vec(*v),
    ensures
        r == dot_wide(*u, *v),
{
    proof {
        lemma_abs_mul_bound(u.x as int, v.x as int, 0x1000_0000, 0x1000_0000);
        lemma_abs_mul_bound(u.y as int, v.y as int, 0x1000_0000, 0x1000_0000);
        lemma_abs_mul_bound(u.z as int, v.z as int, 0x1000_0000, 0x1000_0000);
    }
    (u.x as i128) * (v.x as i128) + (u.y as i128) * (v.y as i128) + (u.z as i128) * (v.z as i128)
}

/// Dot product rescaled back to Q47.16.
pub fn dot(u: Vec3, v: Vec3) -> (r: i64)
    requires
        in_vec(u),
        in_vec(v),
    ensures
        r == tdiv(dot_wide(u, v), FX_ONE as int),
        iabs(r as int) <= 0x3_0000_0000_0000,
{
    let w = dot_wide_exec(&u, &v);
    proof {
        lemma_dot_wide_bound(u, v, 0x1000_0000, 0x1000_0000);
        lemma_tdiv_bound(w as int, FX_ONE as int, 0x3_0000_0000_0000);
    }
    let q = div_i128(w, FX_ONE as i128);
    q as i64
}

/// Cross product, componentwise `(u x v)_i` rescaled to Q47.16.
pub fn cross(u: Vec3, v: Vec3) -> (r: Vec3)
    requires
        in_vec(u),
        in_vec(v),
    ensures
        r == cross_spec(u, v),
        r.x == tdiv(u.y * v.z - u.z * v.y, FX_ONE as int),
        r.y == tdiv(u.z * v.x - u.x * v.z, FX_ONE as int),
        r.z == tdiv(u.x * v.y - u.y * v.x, FX_ONE as int),
        iabs(r.x as int) <= 0x2_0000_0000_0000,
        iabs(r.y as int) <= 0x2_0000_0000_0000,
        iabs(r.z as int) <= 0x2_0000_0000_0000,
{
    proof {
        lemma_abs_mul_bound(u.x as int, v.x as int, 0x1000_0000, 0x1000_0000);
        lemma_abs_mul_bound(u.x as int, v.y as int, 0x1000_0000, 0x1000_0000);
        lemma_abs_mul_bound(u.x as int, v.z as int, 0x1000_0000, 0x1000_0000);
        lemma_abs_mul_bound(u.y as int, v.x as int, 0x1000_0000, 0x1000_0000);
        lemma_abs_mul_bound(u.y as int, v.y as int, 0x1000_0000, 0x1000_0000);
        lemma_abs_mul_bound(u.y as int, v.z as int, 0x1000_0000, 0x1000_0000);
        lemma_abs_mul_bound(u.z as int, v.x as int, 0x1000_0000, 0x1000_0000);
        lemma_abs_mul_bound(u.z as int, v.y as int, 0x1000_0000, 0x1000_0000);
        lemma_abs_mul_bound(u.z as int, v.z as int, 0x1000_0000, 0x1000_0000);
    }
    let cx = (u.y as i128) * (v.z as i128) - (u.z as i128) * (v.y as i128);
    let cy = (u.z as i128) * (v.x as i128) - (u.x as i128) * (v.z as i128);
    let cz = (u.x as i128) * (v.y as i128) - (u.y as i128) * (v.x as i128);
    proof {
        lemma_tdiv_bound(cx as int, FX_ONE as int, 0x2_0000_0000_0000);
        lemma_tdiv_bound(cy as int, FX_ONE as int, 0x2_0000_0000_0000);
        lemma_tdiv_bound(cz as int, FX_ONE as int, 0x2_0000_0000_0000);
    }
    Vec3 {
        x: div_i128(cx, FX_ONE as i128) as i64,
        y: div_i128(cy, FX_ONE as i128) as i64,
        z: div_i128(cz, FX_ONE as i128) as i64,
    }
}

/// The unit vector of `v`: each component divided by the fixed-point
/// length.  Every resulting component has magnitude at most one.
pub fn unit_vector(v: &Vec3) -> (r: Vec3)
    requires
        in_vec(*v),
        !(v.x == 0 && v.y == 0 && v.z == 0),
    ensures
        r == unit_spec(*v),
        iabs(r.x as int) <= FX_ONE,
        iabs(r.y as int) <= FX_ONE,
        iabs(r.z as int) <= FX_ONE,
{
    let len = v.length();
    proof {
        lemma_dot_wide_self(*v);
        if dot_wide(*v, *v) == 0 {
            assert(v.x == 0 && v.y == 0 && v.z == 0) by (nonlinear_arith)
                requires
                    v.x * v.x <= 0 && v.y * v.y <= 0 && v.z * v.z <= 0,
            ;
        }
        assert(len > 0);
        lemma_unit_component(v.x as int, len as int, dot_wide(*v, *v));
        lemma_unit_component(v.y as int, len as int, dot_wide(*v, *v));
        lemma_unit_component(v.z as int, len as int, dot_wide(*v, *v));
    }
    let ux = div_i128((v.x as i128) * (FX_ONE as i128), len as i128);
    let uy = div_i128((v.y as i128) * (FX_ONE as i128), len as i128);
    let uz = div_i128((v.z as i128) * (FX_ONE as i128), len as i128);
    Vec3 { x: ux as i64, y: uy as i64, z: uz as i64 }
}

/// A component of `v` divided by the floor length has magnitude at most
/// one, because each component is bounded by the length.
proof fn lemma_unit_component(c: int, len: int, w: int)
    requires
        len > 0,
        c * c <= w,
        w < (len + 1) * (len + 1),
    ensures
        iabs(tdiv(c * FX_ONE, len)) <= FX_ONE,
{
    assert(iabs(c) <= len) by (nonlinear_arith)
        requires
            len > 0,
            c * c <= w,
            w < (len + 1) * (len + 1),
    ;
    lemma_abs_mul_bound(c, FX_ONE as int, len, FX_ONE as int);
    assert(iabs(c * FX_ONE) <= FX_ONE * len) by (nonlinear_arith)
        requires
            iabs(c * FX_ONE) <= len * FX_ONE,
    ;
    crate::fixed::lemma_tdiv_bound(c * FX_ONE, len, FX_ONE as int);
}

/// Mirror reflection `v - 2 (v.n) n`, for a near-unit normal.
pub fn reflect(v: &Vec3, n: &Vec3) -> (r: Vec3)
    requires
        in_vec(*v),
        iabs(n.x as int) <= 2 * FX_ONE,
        iabs(n.y as int) <= 2 * FX_ONE,
        iabs(n.z as int) <= 2 * FX_ONE,
    ensures
        r == reflect_spec(*v, *n),
{
    let d = dot(*v, *n);
    proof {
        lemma_dot_wide_bound(*v, *n, 0x1000_0000, 2 * FX_ONE);
        lemma_tdiv_bound(dot_wide(*v, *n), FX_ONE as int, 0x1_8000_0000);
        lemma_reflect_bounds(v.x as int, n.x as int, d as int);
        lemma_reflect_bounds(v.y as int, n.y as int, d as int);
        lemma_reflect_bounds(v.z as int, n.z as int, d as int);
    }
    let two_d: i64 = 2 * d;
    Vec3 {
        x: v.x - mul_fx(two_d, n.x),
        y: v.y - mul_fx(two_d, n.y),
        z: v.z - mul_fx(two_d, n.z),
    }
}

/// The correction term of a reflection stays within `i64`.
proof fn lemma_reflect_bounds(vc: int, nc: int, d: int)
    requires
        iabs(d) <= 0x1_8000_0000,
        iabs(vc) <= 0x1000_0000,
        iabs(nc) <= 2 * FX_ONE,
    ensures
        iabs(fx_mul(2 * d, nc)) <= 0x6_0000_0000,
        i64::MIN < fx_mul(2 * d, nc) <= i64::MAX,
        i64::MIN <= vc - fx_mul(2 * d, nc) <= i64::MAX,
{
    lemma_abs_mul_bound(2 * d, nc, 0x3_0000_0000, 2 * FX_ONE);
    lemma_tdiv_bound(2 * d * nc, FX_ONE as int, 0x6_0000_0000);
}


/// The cross product as a value, componentwise.
pub open spec fn cross_spec(u: Vec3, v: Vec3) -> Vec3 {
    Vec3 {
        x: tdiv(u.y * v.z - u.z * v.y, FX_ONE as int) as i64,
        y: tdiv(u.z * v.x - u.x * v.z, FX_ONE as int) as i64,
        z: tdiv(u.x * v.y - u.y * v.x, FX_ONE as int) as i64,
    }
}

/// The refracted direction: perpendicular part `(uv + n cos) eta`, parallel
/// part `-n sqrt(|1 - |perp|^2|)`, normalized; the normal itself when the
/// sum degenerates to zero.
pub open spec fn refract_spec(uv: Vec3, n: Vec3, eta: int) -> Vec3 {
    let cos0 = tdiv(dot_wide(Vec3 { x: -uv.x as i64, y: -uv.y as i64, z: -uv.z as i64 }, n), FX_ONE as int);
    let cos = if cos0 > FX_ONE {
        FX_ONE as int
    } else {
        cos0
    };
    let perp = Vec3 {
        x: fx_mul(uv.x + fx_mul(n.x as int, cos), eta) as i64,
        y: fx_mul(uv.y + fx_mul(n.y as int, cos), eta) as i64,
        z: fx_mul(uv.z + fx_mul(n.z as int, cos), eta) as i64,
    };
    let len_sq = tdiv(dot_wide(perp, perp), FX_ONE as int);
    let s = sqrt_floor((iabs(FX_ONE - len_sq) * FX_ONE) as nat) as int;
    let sum = Vec3 {
        x: (perp.x + fx_mul(n.x as int, -s)) as i64,
        y: (perp.y + fx_mul(n.y as int, -s)) as i64,
        z: (perp.z + fx_mul(n.z as int, -s)) as i64,
    };
    if sum.x == 0 && sum.y == 0 && sum.z == 0 {
        n
    } else {
        unit_spec(sum)
    }
}

impl Vec3 {
    /// A vector with uniform components in `[0, 1)`.
    pub fn random() -> (r: Vec3)
        ensures
            0 <= r.x < FX_ONE,
            0 <= r.y < FX_ONE,
            0 <= r.z < FX_ONE,
    {
        Vec3 {
            x: crate::utils::random_double(),
            y: crate::utils::random_double(),
            z: crate::utils::random_double(),
        }
    }

    /// A vector with uniform components in `[min, max)`.
    pub fn random_range(min: i64, max: i64) -> (r: Vec3)
        requires
            -crate::fixed::T_FAR <= min < max <= crate::fixed::T_FAR,
        ensures
            min <= r.x < max,
            min <= r.y < max,
            min <= r.z < max,
    {
        Vec3 {
            x: crate::utils::random_double_range(min, max),
            y: crate::utils::random_double_range(min, max),
            z: crate::utils::random_double_range(min, max),
        }
    }

    /// A random direction of length close to one: rejection-sampled from
    /// the unit cube, with a fixed axis as fallback after too many
    /// rejections.  Every component has magnitude at most one, and the
    /// wide squared length stays between 32000^2 and 3 (about 0.24 to 3
    /// in squared real length), so the direction can neither collapse
    /// toward zero nor exceed the cube diagonal.
    pub fn random_unit_vector() -> (r: Vec3)
        ensures
            iabs(r.x as int) <= FX_ONE,
            iabs(r.y as int) <= FX_ONE,
            iabs(r.z as int) <= FX_ONE,
            1024000000 <= dot_wide(r, r) <= 12884901888,
    {
        let mut tries: u32 = 0;
        while tries < 64
            invariant
                tries <= 64,
            decreases 64 - tries,
        {
            let p = Self::random_range(-FX_ONE, FX_ONE);
            let lensq = p.length_squared();
            if 0 < lensq && lensq <= FX_ONE {
                proof {
                    lemma_dot_wide_self(p);
                    if p.x == 0 && p.y == 0 && p.z == 0 {
                        assert(p.x * p.x == 0 && p.y * p.y == 0 && p.z * p.z == 0)
                            by (nonlinear_arith)
                            requires
                                p.x == 0,
                                p.y == 0,
                                p.z == 0,
                        ;
                        assert(dot_wide(p, p) == 0);
                        assert(tdiv(0, FX_ONE as int) == 0);
                        assert(false);
                    }
                    assert(dot_wide(p, p) >= 65536) by {
                        vstd::arithmetic::div_mod::lemma_fundamental_div_mod(
                            dot_wide(p, p),
                            65536,
                        );
                    }
                }
                let u = unit_vector(&p);
                proof {
                    let w = dot_wide(p, p);
                    let len = length_fx(p);
                    lemma_sqrt_floor_bounds(w as nat);
                    assert(p.x * FX_ONE == p.x * 65536 && p.y * FX_ONE == p.y * 65536 && p.z
                        * FX_ONE == p.z * 65536) by (nonlinear_arith)
                        requires
                            FX_ONE == 65536,
                    ;
                    lemma_unit_component(p.x as int, len, w);
                    lemma_unit_component(p.y as int, len, w);
                    lemma_unit_component(p.z as int, len, w);
                    lemma_unit_dir_lb(
                        p.x as int,
                        p.y as int,
                        p.z as int,
                        w,
                        len,
                        u.x as int,
                        u.y as int,
                        u.z as int,
                    );
                    lemma_unit_dir_ub(u.x as int, u.y as int, u.z as int);
                }
                return u;
            }
            tries = tries + 1;
        }
        let fallback = Vec3 { x: FX_ONE, y: 0, z: 0 };
        proof {
            assert(dot_wide(fallback, fallback) == 4294967296) by (nonlinear_arith)
                requires
                    fallback.x == 65536,
                    fallback.y == 0,
                    fallback.z == 0,
            ;
        }
        fallback
    }

    /// A random near-unit direction on the hemisphere around `normal`.
    pub fn random_on_hemisphere(normal: &Vec3) -> (r: Vec3)
        requires
            in_vec(*normal),
        ensures
            iabs(r.x as int) <= FX_ONE,
            iabs(r.y as int) <= FX_ONE,
            iabs(r.z as int) <= FX_ONE,
    {
        let on_unit_sphere = Self::random_unit_vector();
        if dot(on_unit_sphere, *normal) > 0 {
            on_unit_sphere
        } else {
            Vec3 { x: -on_unit_sphere.x, y: -on_unit_sphere.y, z: -on_unit_sphere.z }
        }
    }

    /// A random point strictly inside the unit disk of the xy plane, by
    /// rejection, with the origin as fallback: the wide squared length
    /// stays below one.
    pub fn random_in_unit_disk() -> (r: Vec3)
        ensures
            iabs(r.x as int) <= FX_ONE,
            iabs(r.y as int) <= FX_ONE,
            r.z == 0,
            dot_wide(r, r) < 4294967296,
    {
        let mut tries: u32 = 0;
        while tries < 64
            invariant
                tries <= 64,
            decreases 64 - tries,
        {
            let p = Vec3 {
                x: crate::utils::random_double_range(-FX_ONE, FX_ONE),
                y: crate::utils::random_double_range(-FX_ONE, FX_ONE),
                z: 0,
            };
            let lensq = p.length_squared();
            if lensq < FX_ONE {
                proof {
                    lemma_dot_wide_self(p);
                    vstd::arithmetic::div_mod::lemma_fundamental_div_mod(dot_wide(p, p), 65536);
                    vstd::arithmetic::div_mod::lemma_mod_bound(dot_wide(p, p), 65536);
                }
                return p;
            }
            tries = tries + 1;
        }
        let origin = Vec3 { x: 0, y: 0, z: 0 };
        proof {
            assert(dot_wide(origin, origin) == 0) by (nonlinear_arith)
                requires
                    origin.x == 0,
                    origin.y == 0,
                    origin.z == 0,
            ;
        }
        origin
    }

    /// Refract `uv` about the normal `n` with relative refraction index
    /// `etai_over_etat`.
    pub fn refract(uv: &Vec3, n: &Vec3, etai_over_etat: i64) -> (r: Vec3)
        requires
            iabs(uv.x as int) <= 2 * FX_ONE,
            iabs(uv.y as int) <= 2 * FX_ONE,
            iabs(uv.z as int) <= 2 * FX_ONE,
            iabs(n.x as int) <= 2 * FX_ONE,
            iabs(n.y as int) <= 2 * FX_ONE,
            iabs(n.z as int) <= 2 * FX_ONE,
            0 < etai_over_etat <= 16 * FX_ONE,
        ensures
            r == refract_spec(*uv, *n, etai_over_etat as int),
    {
        let neg_uv = Vec3 { x: -uv.x, y: -uv.y, z: -uv.z };
        let cos0 = dot(neg_uv, *n);
        let cos_theta = if cos0 > FX_ONE {
            FX_ONE
        } else {
            cos0
        };
        proof {
            lemma_dot_wide_bound(neg_uv, *n, 131072, 131072);
            lemma_tdiv_bound(dot_wide(neg_uv, *n), FX_ONE as int, 786432);
            lemma_refract_mags(n.x as int, uv.x as int, cos_theta as int, etai_over_etat as int);
            lemma_refract_mags(n.y as int, uv.y as int, cos_theta as int, etai_over_etat as int);
            lemma_refract_mags(n.z as int, uv.z as int, cos_theta as int, etai_over_etat as int);
        }
        let px = mul_fx(uv.x + mul_fx(n.x, cos_theta), etai_over_etat);
        let py = mul_fx(uv.y + mul_fx(n.y, cos_theta), etai_over_etat);
        let pz = mul_fx(uv.z + mul_fx(n.z, cos_theta), etai_over_etat);
        let perp = Vec3 { x: px, y: py, z: pz };
        let len_sq = perp.length_squared();
        let k = FX_ONE - len_sq;
        let ak = if k >= 0 {
            k
        } else {
            -k
        };
        let s = crate::fixed::sqrt_fx(ak);
        proof {
            lemma_dot_wide_bound(perp, perp, 27262976, 27262976);
            lemma_tdiv_bound(dot_wide(perp, perp), FX_ONE as int, 34024194048);
            let sb = sqrt_floor((ak * FX_ONE) as nat);
            assert(sb * sb <= (ak as int) * (FX_ONE as int));
            assert((ak as int) * (FX_ONE as int) <= 34024259584 * 65536) by (nonlinear_arith)
                requires
                    0 <= ak as int <= 34024259584,
            ;
            assert(sb <= 67108864) by (nonlinear_arith)
                requires
                    sb * sb <= 34024259584 * 65536,
                    sb >= 0,
            ;
            lemma_refract_par(n.x as int, s as int);
            lemma_refract_par(n.y as int, s as int);
            lemma_refract_par(n.z as int, s as int);
        }
        let sx = px + mul_fx(n.x, -s);
        let sy = py + mul_fx(n.y, -s);
        let sz = pz + mul_fx(n.z, -s);
        let sum = Vec3 { x: sx, y: sy, z: sz };
        if sx == 0 && sy == 0 && sz == 0 {
            *n
        } else {
            proof {
                lemma_refract_sum_in_vec(sum);
            }
            unit_vector(&sum)
        }
    }
}

/// Magnitude bounds for the perpendicular part of a refraction.
proof fn lemma_refract_mags(nc: int, uc: int, cos: int, eta: int)
    requires
        iabs(nc) <= 131072,
        iabs(uc) <= 131072,
        iabs(cos) <= 786432,
        0 < eta <= 1048576,
    ensures
        iabs(fx_mul(nc, cos)) <= 1572864,
        iabs(uc + fx_mul(nc, cos)) <= 1703936,
        iabs(fx_mul(uc + fx_mul(nc, cos), eta)) <= 27262976,
        i64::MIN < fx_mul(nc, cos) <= i64::MAX,
        i64::MIN < fx_mul(uc + fx_mul(nc, cos), eta) <= i64::MAX,
{
    crate::fixed::lemma_fx_mul_mag(nc, cos, 131072, 786432, 1572864);
    crate::fixed::lemma_fx_mul_mag(uc + fx_mul(nc, cos), eta, 1703936, 1048576, 27262976);
}

/// Magnitude bound for the parallel part of a refraction.
proof fn lemma_refract_par(nc: int, s: int)
    requires
        iabs(nc) <= 131072,
        0 <= s <= 67108864,
    ensures
        iabs(fx_mul(nc, -s)) <= 134217728,
        i64::MIN < fx_mul(nc, -s) <= i64::MAX,
{
    crate::fixed::lemma_fx_mul_mag(nc, -s, 131072, 67108864, 134217728);
}

/// One normalized component is large whenever its cube sample carries at
/// least a third of the squared length: the quotient by the floor length
/// is at least 32000.
proof fn lemma_component_unit_lb(q: int, len: int)
    requires
        0 <= q,
        256 <= len,
        3 * (q * q) >= len * len,
    ensures
        tdiv(q * 65536, len) >= 32000,
{
    let half = len / 2;
    vstd::arithmetic::div_mod::lemma_fundamental_div_mod(len, 2);
    vstd::arithmetic::div_mod::lemma_mod_bound(len, 2);
    let rem = len % 2;
    assert(half >= 128) by {
        vstd::arithmetic::div_mod::lemma_div_is_ordered(256, len, 2);
    }
    assert(q >= half) by {
        if q <= half - 1 {
            assert(3 * (q * q) < len * len) by (nonlinear_arith)
                requires
                    0 <= q <= half - 1,
                    len == 2 * half + rem,
                    0 <= rem < 2,
                    half >= 128,
            ;
        }
    }
    assert(q * 65536 >= 32000 * len) by (nonlinear_arith)
        requires
            q >= half,
            len == 2 * half + rem,
            0 <= rem < 2,
            half >= 128,
    ;
    assert(32000 * len >= 0) by (nonlinear_arith)
        requires
            len >= 256,
    ;
    crate::fixed::lemma_tdiv_ordered(32000 * len, q * 65536, len);
    assert(tdiv(32000 * len, len) == 32000) by {
        vstd::arithmetic::div_mod::lemma_div_multiples_vanish(32000, len);
        vstd::arithmetic::mul::lemma_mul_is_commutative(32000, len);
    }
}

/// A normalized cube sample keeps at least 32000^2 of wide squared length:
/// the largest component carries a third of the sample's squared length,
/// and division by the floor length preserves that share.
proof fn lemma_unit_dir_lb(
    px: int,
    py: int,
    pz: int,
    w: int,
    len: int,
    rx: int,
    ry: int,
    rz: int,
)
    requires
        w == px * px + py * py + pz * pz,
        65536 <= w,
        0 <= len,
        len * len <= w,
        w < (len + 1) * (len + 1),
        rx == tdiv(px * 65536, len),
        ry == tdiv(py * 65536, len),
        rz == tdiv(pz * 65536, len),
    ensures
        rx * rx + ry * ry + rz * rz >= 1024000000,
{
    assert(px * px >= 0 && py * py >= 0 && pz * pz >= 0) by (nonlinear_arith);
    assert(rx * rx >= 0 && ry * ry >= 0 && rz * rz >= 0) by (nonlinear_arith);
    assert(len >= 256) by {
        if len <= 255 {
            assert((len + 1) * (len + 1) <= 65536) by (nonlinear_arith)
                requires
                    0 <= len <= 255,
            ;
        }
    }
    if 3 * (px * px) >= w {
        lemma_axis_component_lb(px, len, w, rx);
    } else if 3 * (py * py) >= w {
        lemma_axis_component_lb(py, len, w, ry);
    } else {
        assert(3 * (pz * pz) >= w);
        lemma_axis_component_lb(pz, len, w, rz);
    }
}

/// The selected component's square alone reaches the bound.
proof fn lemma_axis_component_lb(pc: int, len: int, w: int, rc: int)
    requires
        3 * (pc * pc) >= w,
        len * len <= w,
        len >= 256,
        rc == tdiv(pc * 65536, len),
    ensures
        rc * rc >= 1024000000,
{
    let q = iabs(pc);
    assert(q * q == pc * pc) by (nonlinear_arith)
        requires
            q == pc || q == -pc,
    ;
    lemma_component_unit_lb(q, len);
    assert(rc == tdiv(q * 65536, len) || rc == -tdiv(q * 65536, len)) by {
        if pc < 0 {
            crate::fixed::lemma_tdiv_neg_divisor(pc * 65536, -len);
            assert(pc * 65536 == -(q * 65536));
        }
    }
    let m = tdiv(q * 65536, len);
    assert(m >= 32000);
    assert(rc * rc == m * m) by (nonlinear_arith)
        requires
            rc == m || rc == -m,
    ;
    assert(m * m >= 1024000000) by (nonlinear_arith)
        requires
            m >= 32000,
    ;
}

/// Components within one bound the wide squared length by three.
proof fn lemma_unit_dir_ub(rx: int, ry: int, rz: int)
    requires
        iabs(rx) <= 65536,
        iabs(ry) <= 65536,
        iabs(rz) <= 65536,
    ensures
        rx * rx + ry * ry + rz * rz <= 12884901888,
{
    assert(rx * rx <= 4294967296 && ry * ry <= 4294967296 && rz * rz <= 4294967296)
        by (nonlinear_arith)
        requires
            iabs(rx) <= 65536,
            iabs(ry) <= 65536,
            iabs(rz) <= 65536,
    ;
}

/// The refraction sum stays within the world bound.
proof fn lemma_refract_sum_in_vec(v: Vec3)
    requires
        iabs(v.x as int) <= 161480704,
        iabs(v.y as int) <= 161480704,
        iabs(v.z as int) <= 161480704,
    ensures
        in_vec(v),
{
}

} // verus!
