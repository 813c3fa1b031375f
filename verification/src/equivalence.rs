//! The law relating the two traversals: against the same primitives, the
//! tree search and the linear scan agree on whether a ray hits and on the
//! nearest hit parameter, whenever every tree box conservatively admits
//! the hit parameters of the primitives beneath it.
//!
//! The conservativeness hypothesis is stated explicitly because box and
//! root arithmetic round independently: a root within a fraction of one
//! fixed-point step of a box face may otherwise be pruned.

use vstd::prelude::*;

use crate::aabb::{aabb_hit_spec, AABB};
use crate::bvh::{
    arena_wf,
    child_contains_leaf,
    child_hit_spec,
    child_wf,
    covers_all,
    leaves_in_range,
    node_hit_spec,
    BvhChild,
    BVHNode,
};
use crate::fixed::T_FAR;
use crate::hittable::{list_hit_res, list_winner, lemma_winner_above, HitRecord};
use crate::ray::Ray;
use crate::sphere::{first_root_above, lemma_best_vs_first, sphere_rec_spec, Sphere};

verus! {

/// The smaller of two optional roots.
pub open spec fn opt_min(a: Option<int>, b: Option<int>) -> Option<int> {
    match a {
        Option::None => b,
        Option::Some(x) => match b {
            Option::None => Some(x),
            Option::Some(y) => if x <= y {
                Some(x)
            } else {
                Some(y)
            },
        },
    }
}

/// `a` is at most `b`, where an absent `b` demands nothing and an absent
/// `a` cannot bound a present `b`.
pub open spec fn opt_le(a: Option<int>, b: Option<int>) -> bool {
    match b {
        Option::None => true,
        Option::Some(tb) => match a {
            Option::Some(ta) => ta <= tb,
            Option::None => false,
        },
    }
}

/// The nearest root above `lo` among the leaves under `c`.
pub open spec fn child_min_root(ss: Seq<Sphere>, c: BvhChild, r: Ray, lo: int) -> Option<int>
    decreases c,
{
    match c {
        BvhChild::Leaf(i) => first_root_above(ss[i as int], r, lo),
        BvhChild::Node(n) => opt_min(
            child_min_root(ss, n.left, r, lo),
            child_min_root(ss, n.right, r, lo),
        ),
    }
}

/// The nearest root above `lo` among the primitives of `[s, e)`.
pub open spec fn range_min_root(ss: Seq<Sphere>, r: Ray, lo: int, s: int, e: int) -> Option<int>
    decreases e - s,
{
    if s >= e {
        None
    } else {
        opt_min(range_min_root(ss, r, lo, s, e - 1), first_root_above(ss[e - 1], r, lo))
    }
}

/// The box lets every window that could still accept `t` through the slab
/// test.
pub open spec fn box_admits(b: AABB, r: Ray, lo: int, t: int) -> bool {
    forall|hi: int| t < hi <= T_FAR ==> #[trigger] aabb_hit_spec(b, r, lo, hi)
}

/// A node's box admits the root of every leaf beneath it.
pub open spec fn node_admits(ss: Seq<Sphere>, n: BVHNode, r: Ray, lo: int) -> bool {
    forall|i: int|
        (child_contains_leaf(n.left, i) || child_contains_leaf(n.right, i)) ==> match #[trigger] first_root_above(
            ss[i],
            r,
            lo,
        ) {
            Option::Some(t) => box_admits(n.bbox, r, lo, t),
            Option::None => true,
        }
}

/// Every node of the tree admits the roots beneath it.
pub open spec fn conservative(ss: Seq<Sphere>, c: BvhChild, r: Ray, lo: int) -> bool
    decreases c,
{
    match c {
        BvhChild::Leaf(i) => true,
        BvhChild::Node(n) => node_admits(ss, *n, r, lo) && conservative(ss, n.left, r, lo)
            && conservative(ss, n.right, r, lo),
    }
}

/// The minimum is below both of its arguments.
proof fn lemma_opt_min_le(a: Option<int>, b: Option<int>)
    ensures
        opt_le(opt_min(a, b), a),
        opt_le(opt_min(a, b), b),
{
}

/// A root above `lo` is above `lo`.
proof fn lemma_root_above(s: Sphere, r: Ray, lo: int)
    ensures
        first_root_above(s, r, lo) matches Some(t) ==> t > lo,
{
}

/// The subtree minimum bounds the root of every leaf it contains.
proof fn lemma_child_min_lb(ss: Seq<Sphere>, c: BvhChild, r: Ray, lo: int, i: int)
    requires
        child_contains_leaf(c, i),
    ensures
        opt_le(child_min_root(ss, c, r, lo), first_root_above(ss[i], r, lo)),
    decreases c,
{
    match c {
        BvhChild::Leaf(j) => {},
        BvhChild::Node(n) => {
            if child_contains_leaf(n.left, i) {
                lemma_child_min_lb(ss, n.left, r, lo, i);
            } else {
                lemma_child_min_lb(ss, n.right, r, lo, i);
            }
            lemma_opt_min_le(child_min_root(ss, n.left, r, lo), child_min_root(ss, n.right, r, lo));
        },
    }
}

/// A present subtree minimum is achieved by some leaf.
proof fn lemma_child_min_achieved(ss: Seq<Sphere>, c: BvhChild, r: Ray, lo: int)
    ensures
        child_min_root(ss, c, r, lo) matches Some(t) ==> exists|i: int|
            #[trigger] child_contains_leaf(c, i) && first_root_above(ss[i], r, lo) == Some(t),
    decreases c,
{
    match c {
        BvhChild::Leaf(j) => {
            match child_min_root(ss, c, r, lo) {
                Option::Some(t) => {
                    assert(child_contains_leaf(c, j as int) && first_root_above(
                        ss[j as int],
                        r,
                        lo,
                    ) == Some(t));
                },
                Option::None => {},
            }
        },
        BvhChild::Node(n) => {
            lemma_child_min_achieved(ss, n.left, r, lo);
            lemma_child_min_achieved(ss, n.right, r, lo);
            match child_min_root(ss, c, r, lo) {
                Option::Some(t) => {
                    let ml = child_min_root(ss, n.left, r, lo);
                    let mr = child_min_root(ss, n.right, r, lo);
                    if ml == Some(t) {
                        let i = choose|i: int|
                            #[trigger] child_contains_leaf(n.left, i) && first_root_above(
                                ss[i],
                                r,
                                lo,
                            ) == Some(t);
                        assert(child_contains_leaf(c, i));
                    } else {
                        assert(mr == Some(t));
                        let i = choose|i: int|
                            #[trigger] child_contains_leaf(n.right, i) && first_root_above(
                                ss[i],
                                r,
                                lo,
                            ) == Some(t);
                        assert(child_contains_leaf(c, i));
                    }
                },
                Option::None => {},
            }
        },
    }
}

/// The range minimum bounds the root of every index of the range.
proof fn lemma_range_min_lb(ss: Seq<Sphere>, r: Ray, lo: int, s: int, e: int, i: int)
    requires
        s <= i < e,
    ensures
        opt_le(range_min_root(ss, r, lo, s, e), first_root_above(ss[i], r, lo)),
    decreases e - s,
{
    if i < e - 1 {
        lemma_range_min_lb(ss, r, lo, s, e - 1, i);
    }
    lemma_opt_min_le(range_min_root(ss, r, lo, s, e - 1), first_root_above(ss[e - 1], r, lo));
}

/// A present range minimum is achieved by some index of the range.
proof fn lemma_range_min_achieved(ss: Seq<Sphere>, r: Ray, lo: int, s: int, e: int)
    ensures
        range_min_root(ss, r, lo, s, e) matches Some(t) ==> exists|i: int|
            s <= i < e && #[trigger] first_root_above(ss[i], r, lo) == Some(t),
    decreases e - s,
{
    if s < e {
        lemma_range_min_achieved(ss, r, lo, s, e - 1);
        match range_min_root(ss, r, lo, s, e) {
            Option::Some(t) => {
                if range_min_root(ss, r, lo, s, e - 1) == Some(t) {
                    let i = choose|i: int|
                        s <= i < e - 1 && #[trigger] first_root_above(ss[i], r, lo) == Some(t);
                    assert(s <= i < e && first_root_above(ss[i], r, lo) == Some(t));
                } else {
                    assert(first_root_above(ss[e - 1], r, lo) == Some(t));
                }
            },
            Option::None => {},
        }
    }
}

/// For a tree whose leaves are exactly `[s, e)`, the subtree minimum is
/// the range minimum.
proof fn lemma_child_min_is_range_min(
    ss: Seq<Sphere>,
    c: BvhChild,
    r: Ray,
    lo: int,
    s: int,
    e: int,
)
    requires
        leaves_in_range(c, s, e),
        covers_all(c, s, e),
    ensures
        child_min_root(ss, c, r, lo) == range_min_root(ss, r, lo, s, e),
{
    lemma_child_min_achieved(ss, c, r, lo);
    lemma_range_min_achieved(ss, r, lo, s, e);
    match child_min_root(ss, c, r, lo) {
        Option::Some(tc) => {
            let i = choose|i: int|
                #[trigger] child_contains_leaf(c, i) && first_root_above(ss[i], r, lo) == Some(tc);
            lemma_range_min_lb(ss, r, lo, s, e, i);
            match range_min_root(ss, r, lo, s, e) {
                Option::Some(tr) => {
                    let k = choose|k: int|
                        s <= k < e && #[trigger] first_root_above(ss[k], r, lo) == Some(tr);
                    assert(child_contains_leaf(c, k));
                    lemma_child_min_lb(ss, c, r, lo, k);
                },
                Option::None => {
                    assert(false);
                },
            }
        },
        Option::None => {
            match range_min_root(ss, r, lo, s, e) {
                Option::Some(tr) => {
                    let k = choose|k: int|
                        s <= k < e && #[trigger] first_root_above(ss[k], r, lo) == Some(tr);
                    assert(child_contains_leaf(c, k));
                    lemma_child_min_lb(ss, c, r, lo, k);
                    assert(false);
                },
                Option::None => {},
            }
        },
    }
}

/// What pruned traversal computes is complete: under the conservativeness
/// hypothesis it finds exactly the subtree's minimum root below the
/// window's upper end, and the record left behind carries that parameter.
proof fn lemma_child_hit_complete(
    ss: Seq<Sphere>,
    c: BvhChild,
    r: Ray,
    lo: int,
    hi: int,
    rec0: HitRecord,
)
    requires
        arena_wf(ss),
        child_wf(ss, c),
        conservative(ss, c, r, lo),
        -T_FAR <= lo,
        hi <= T_FAR,
    ensures
        ({
            let res = child_hit_spec(ss, c, r, lo, hi, rec0);
            match child_min_root(ss, c, r, lo) {
                Option::Some(t) => if t < hi {
                    res.0 && res.1.t == t
                } else {
                    !res.0 && res.1 == rec0
                },
                Option::None => !res.0 && res.1 == rec0,
            }
        }),
    decreases c,
{
    match c {
        BvhChild::Leaf(i) => {
            lemma_best_vs_first(ss[i as int], r, lo, hi);
            lemma_root_above(ss[i as int], r, lo);
        },
        BvhChild::Node(n) => {
            let res = node_hit_spec(ss, *n, r, lo, hi, rec0);
            assert(child_hit_spec(ss, c, r, lo, hi, rec0) == res);
            let m = child_min_root(ss, c, r, lo);
            let ml = child_min_root(ss, n.left, r, lo);
            let mr = child_min_root(ss, n.right, r, lo);
            if !aabb_hit_spec(n.bbox, r, lo, hi) {
                // The box rejected the window, so no leaf root below `hi`
                // can exist beneath this node.
                match m {
                    Option::Some(t) => {
                        if t < hi {
                            lemma_child_min_achieved(ss, c, r, lo);
                            let i = choose|i: int|
                                #[trigger] child_contains_leaf(c, i) && first_root_above(
                                    ss[i],
                                    r,
                                    lo,
                                ) == Some(t);
                            lemma_root_above(ss[i], r, lo);
                            assert(child_contains_leaf(n.left, i) || child_contains_leaf(
                                n.right,
                                i,
                            ));
                            assert(box_admits(n.bbox, r, lo, t));
                            assert(aabb_hit_spec(n.bbox, r, lo, hi));
                            assert(false);
                        }
                    },
                    Option::None => {},
                }
            } else {
                lemma_child_hit_complete(ss, n.left, r, lo, hi, rec0);
                let left = child_hit_spec(ss, n.left, r, lo, hi, rec0);
                let hi2 = if left.0 {
                    left.1.t as int
                } else {
                    hi
                };
                lemma_child_hit_complete(ss, n.right, r, lo, hi2, left.1);
                let right = child_hit_spec(ss, n.right, r, lo, hi2, left.1);
                lemma_opt_min_le(ml, mr);
            }
        },
    }
}

/// Tree traversal and the linear scan agree: for the same primitives, the
/// same ray and the same window, they report a hit under exactly the same
/// conditions, and when both hit they leave the same nearest parameter in
/// the record.
pub proof fn lemma_bvh_matches_list(
    ss: Seq<Sphere>,
    c: BvhChild,
    r: Ray,
    lo: int,
    hi: int,
    rec0: HitRecord,
)
    requires
        arena_wf(ss),
        child_wf(ss, c),
        conservative(ss, c, r, lo),
        leaves_in_range(c, 0, ss.len() as int),
        covers_all(c, 0, ss.len() as int),
        -T_FAR <= lo,
        hi <= T_FAR,
    ensures
        ({
            let tree = child_hit_spec(ss, c, r, lo, hi, rec0);
            let flat = list_hit_res(ss, r, lo, hi, rec0);
            &&& tree.0 == flat.0
            &&& (tree.0 ==> tree.1.t == flat.1.t)
        }),
{
    lemma_child_hit_complete(ss, c, r, lo, hi, rec0);
    lemma_child_min_is_range_min(ss, c, r, lo, 0, ss.len() as int);
    lemma_list_winner_min(ss, r, lo);
    lemma_winner_above(ss, r, lo);
    match list_winner(ss, r, lo) {
        Option::Some((i, t)) => {
            if t < hi {
                assert(sphere_rec_spec(ss[i], r, t).t == t as i64);
            }
        },
        Option::None => {},
    }
}

/// The linear scan's winner carries the range minimum.
proof fn lemma_list_winner_min(ss: Seq<Sphere>, r: Ray, lo: int)
    ensures
        ({
            let w = list_winner(ss, r, lo);
            let m = range_min_root(ss, r, lo, 0, ss.len() as int);
            &&& (w matches Some(p) ==> m == Some(p.1))
            &&& (w is None ==> m is None)
        }),
    decreases ss.len(),
{
    if ss.len() > 0 {
        lemma_list_winner_min(ss.drop_last(), r, lo);
        assert(ss.drop_last() =~= ss.subrange(0, ss.len() - 1));
        lemma_range_prefix_eq(ss, r, lo, 0, ss.len() - 1);
    }
}

/// A range minimum over a prefix reads the same through the shortened
/// sequence.
proof fn lemma_range_prefix_eq(ss: Seq<Sphere>, r: Ray, lo: int, s: int, e: int)
    requires
        0 <= s,
        e <= ss.len() - 1,
    ensures
        range_min_root(ss.drop_last(), r, lo, s, e) == range_min_root(ss, r, lo, s, e),
    decreases e - s,
{
    if s < e {
        lemma_range_prefix_eq(ss, r, lo, s, e - 1);
        assert(ss.drop_last()[e - 1] == ss[e - 1]);
    }
}

} // verus!
