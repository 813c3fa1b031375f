//! Deterministic lattice noise: three 256-entry permutation tables built by
//! Fisher-Yates shuffles and a table of random scalars, read-only after
//! construction.

use vstd::prelude::*;

use crate::bvh::lemma_swap_multiset;
use crate::fixed::{tdiv, FX_ONE};
use crate::fixed::div_i64;
use crate::ray::Point3;
use crate::vec3::in_vec;

verus! {

pub const POINT_COUNT: usize = 256;

#[derive(Debug)]
pub struct Perlin {
    pub randfloat: Vec<i64>,
    pub perm_x: Vec<u8>,
    pub perm_y: Vec<u8>,
    pub perm_z: Vec<u8>,
}

/// The identity table: the bytes 0 through 255 in order.
pub open spec fn byte_id_seq() -> Seq<u8> {
    Seq::new(256, |i: int| i as u8)
}

/// Each permutation table holds exactly the bytes 0 through 255, in some
/// order.
pub open spec fn perlin_tables_permuted(p: Perlin) -> bool {
    &&& p.perm_x@.to_multiset() == byte_id_seq().to_multiset()
    &&& p.perm_y@.to_multiset() == byte_id_seq().to_multiset()
    &&& p.perm_z@.to_multiset() == byte_id_seq().to_multiset()
}

/// Table shapes and scalar ranges.
pub open spec fn perlin_wf(p: Perlin) -> bool {
    &&& p.randfloat@.len() == 256
    &&& p.perm_x@.len() == 256
    &&& p.perm_y@.len() == 256
    &&& p.perm_z@.len() == 256
    &&& forall|i: int| 0 <= i < 256 ==> 0 <= #[trigger] p.randfloat@[i] < FX_ONE
}

/// The lattice cell index of a coordinate: `4 x` truncated to an integer,
/// reduced mod 256.
pub open spec fn cell_index(x: int) -> int {
    tdiv(4 * x, FX_ONE as int) % 256
}

/// What a noise lookup returns: the random scalar selected by xor-ing the
/// three axis permutations.
pub open spec fn noise_spec(p: Perlin, pt: Point3) -> int {
    p.randfloat@[(p.perm_x@[cell_index(pt.x as int)] ^ p.perm_y@[cell_index(pt.y as int)]
        ^ p.perm_z@[cell_index(pt.z as int)]) as int] as int
}

/// `a mod 256`, Euclidean.
fn emod256(a: i64) -> (r: i64)
    requires
        a != i64::MIN,
    ensures
        r == (a as int) % 256,
        0 <= r < 256,
{
    if a >= 0 {
        a % 256
    } else {
        let na: u64 = (-a) as u64;
        let q0: u64 = na / 256;
        let r0: u64 = na % 256;
        proof {
            vstd::arithmetic::div_mod::lemma_fundamental_div_mod(na as int, 256);
            vstd::arithmetic::div_mod::lemma_mod_bound(na as int, 256);
            if r0 == 0 {
                vstd::arithmetic::div_mod::lemma_fundamental_div_mod_converse(
                    a as int,
                    256,
                    -(q0 as int),
                    0,
                );
            } else {
                assert(a as int == (-(q0 as int) - 1) * 256 + (256 - r0)) by (nonlinear_arith)
                    requires
                        na as int == (q0 as int) * 256 + r0,
                        a as int == -(na as int),
                ;
                vstd::arithmetic::div_mod::lemma_fundamental_div_mod_converse(
                    a as int,
                    256,
                    -(q0 as int) - 1,
                    256 - r0 as int,
                );
            }
        }
        if r0 == 0 {
            0
        } else {
            256 - r0 as i64
        }
    }
}

/// Shuffle the table in place, from the back, swapping each slot with a
/// uniformly chosen earlier one.
fn permute(p: &mut Vec<u8>, n: usize)
    requires
        n <= old(p)@.len(),
        n <= 0x8000,
    ensures
        final(p)@.len() == old(p)@.len(),
        final(p)@.to_multiset() == old(p)@.to_multiset(),
{
    let mut i: usize = n;
    while i > 0
        invariant
            i <= n <= p@.len(),
            n <= 0x8000,
            p@.len() == old(p)@.len(),
            p@.to_multiset() == old(p)@.to_multiset(),
        decreases i,
    {
        i = i - 1;
        let target = crate::utils::random_int(0, i as i32) as usize;
        let ghost before = p@;
        let a = p[i];
        let b = p[target];
        p.set(i, b);
        p.set(target, a);
        proof {
            if target != i {
                lemma_swap_multiset(before, i as int, target as int);
            } else {
                assert(p@ =~= before);
            }
        }
    }
}

/// A shuffled table of the bytes 0 through 255: a permutation of the
/// identity table.
fn generate_perm() -> (p: Vec<u8>)
    ensures
        p@.len() == 256,
        p@.to_multiset() == byte_id_seq().to_multiset(),
{
    let mut p: Vec<u8> = Vec::new();
    let mut i: usize = 0;
    while i < 256
        invariant
            i <= 256,
            p@.len() == i,
            forall|k: int| 0 <= k < i ==> #[trigger] p@[k] == k as u8,
        decreases 256 - i,
    {
        p.push(i as u8);
        i = i + 1;
    }
    proof {
        assert(p@ =~= byte_id_seq());
    }
    permute(&mut p, 256);
    p
}

impl Perlin {
    pub fn new() -> (r: Self)
        ensures
            perlin_wf(r),
            perlin_tables_permuted(r),
    {
        let mut randfloat: Vec<i64> = Vec::new();
        let mut i: usize = 0;
        while i < 256
            invariant
                i <= 256,
                randfloat@.len() == i,
                forall|j: int| 0 <= j < i ==> 0 <= #[trigger] randfloat@[j] < FX_ONE,
            decreases 256 - i,
        {
            randfloat.push(crate::utils::random_double());
            i = i + 1;
        }
        let perm_x = generate_perm();
        let perm_y = generate_perm();
        let perm_z = generate_perm();
        Self { randfloat, perm_x, perm_y, perm_z }
    }

    /// Look up the lattice scalar for a point.
    pub fn noise(&self, p: &Point3) -> (r: i64)
        requires
            perlin_wf(*self),
            in_vec(*p),
        ensures
            r == noise_spec(*self, *p),
            0 <= r < FX_ONE,
    {
        let i = cell_index_exec(p.x);
        let j = cell_index_exec(p.y);
        let k = cell_index_exec(p.z);
        let px = self.perm_x[i];
        let py = self.perm_y[j];
        let pz = self.perm_z[k];
        let idx: usize = (px ^ py ^ pz) as usize;
        self.randfloat[idx]
    }
}

/// The lattice cell index, computed.
fn cell_index_exec(x: i64) -> (r: usize)
    requires
        crate::fixed::in_coord(x as int),
    ensures
        r == cell_index(x as int),
        r < 256,
{
    let t = div_i64(4 * x, FX_ONE);
    proof {
        crate::fixed::lemma_tdiv_shrinks(4 * x, FX_ONE as int);
    }
    let m = emod256(t);
    m as usize
}

} // verus!
