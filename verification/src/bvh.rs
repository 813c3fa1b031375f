//! The bounding-volume hierarchy: a binary tree of boxes over an arena of
//! primitives, built by recursively splitting the primitive range along the
//! longest axis of its bound, and traversed with interval pruning.
//!
//! A node's children are either inner nodes or indices into the arena; a
//! single-primitive range puts the same index on both sides, so traversal
//! never needs an empty child.

use vstd::prelude::*;

use crate::aabb::{aabb_contains_box, aabb_hit_spec, aabb_in_range, aabb_union_spec, AABB};
use crate::fixed::{FX_ONE, T_FAR};
use crate::hittable::{HitRecord, HittableList};
use crate::interval::Interval;
use crate::ray::{ray_in_range, Ray};
use crate::sphere::{sphere_bbox_spec, sphere_best_root, sphere_rec_spec, sphere_wf, Sphere};

verus! {

pub enum BvhChild {
    Leaf(usize),
    Node(Box<BVHNode>),
}

pub struct BVHNode {
    pub left: BvhChild,
    pub right: BvhChild,
    pub bbox: AABB,
}

/// Every primitive in the arena is well formed.
pub open spec fn arena_wf(ss: Seq<Sphere>) -> bool {
    forall|i: int| 0 <= i < ss.len() ==> #[trigger] sphere_wf(ss[i])
}

/// The box a child presents to its parent: its own box for a node, the
/// primitive's box for a leaf.
pub open spec fn child_box(ss: Seq<Sphere>, c: BvhChild) -> AABB
    decreases c,
{
    match c {
        BvhChild::Leaf(i) => sphere_bbox_spec(ss[i as int]),
        BvhChild::Node(n) => n.bbox,
    }
}

/// Structural well-formedness: leaf indices in range, boxes in range, and
/// every node's box contains what its children present.
pub open spec fn child_wf(ss: Seq<Sphere>, c: BvhChild) -> bool
    decreases c,
{
    match c {
        BvhChild::Leaf(i) => i < ss.len(),
        BvhChild::Node(n) => {
            &&& child_wf(ss, n.left)
            &&& child_wf(ss, n.right)
            &&& aabb_in_range(n.bbox)
            &&& aabb_contains_box(n.bbox, child_box(ss, n.left))
            &&& aabb_contains_box(n.bbox, child_box(ss, n.right))
        },
    }
}

/// The leaf `i` occurs somewhere under `c`.
pub open spec fn child_contains_leaf(c: BvhChild, i: int) -> bool
    decreases c,
{
    match c {
        BvhChild::Leaf(j) => i == j,
        BvhChild::Node(n) => child_contains_leaf(n.left, i) || child_contains_leaf(n.right, i),
    }
}

/// Every leaf under `c` indexes into `[s, e)`.
pub open spec fn leaves_in_range(c: BvhChild, s: int, e: int) -> bool {
    forall|i: int| #[trigger] child_contains_leaf(c, i) ==> s <= i < e
}

/// Every index of `[s, e)` occurs as a leaf under `c`.
pub open spec fn covers_all(c: BvhChild, s: int, e: int) -> bool {
    forall|j: int| s <= j < e ==> #[trigger] child_contains_leaf(c, j)
}

/// The leaves under `c` are exactly the indices of `[s, e)`.
pub open spec fn child_covers(c: BvhChild, s: int, e: int) -> bool {
    leaves_in_range(c, s, e) && covers_all(c, s, e)
}

/// The empty box, an identity for the union over in-range boxes.
pub open spec fn empty_box() -> AABB {
    AABB {
        x: Interval { min: T_FAR, max: (-T_FAR) as i64 },
        y: Interval { min: T_FAR, max: (-T_FAR) as i64 },
        z: Interval { min: T_FAR, max: (-T_FAR) as i64 },
    }
}

/// The tight bound of the primitives of `[s, e)`: the interval-union of
/// their boxes.
pub open spec fn range_box(ss: Seq<Sphere>, s: int, e: int) -> AABB
    decreases e - s,
{
    if s >= e {
        empty_box()
    } else {
        aabb_union_spec(range_box(ss, s, e - 1), sphere_bbox_spec(ss[e - 1]))
    }
}

/// Tree height: one for a leaf, one more than the taller child for a node.
pub open spec fn child_height(c: BvhChild) -> nat
    decreases c,
{
    match c {
        BvhChild::Leaf(i) => 1,
        BvhChild::Node(n) => (1 + if child_height(n.left) >= child_height(n.right) {
            child_height(n.left)
        } else {
            child_height(n.right)
        }) as nat,
    }
}

/// The depth bound of a midpoint-split tree over `n` primitives: the span
/// halves (rounding up) at every level, so this is one more than the
/// number of halvings needed to reach a pair.
pub open spec fn height_cap(n: nat) -> nat
    decreases n,
{
    if n <= 2 {
        2
    } else {
        (1 + height_cap(((n + 1) / 2) as nat)) as nat
    }
}

/// A sphere's box lies within the world's box range.
proof fn lemma_sphere_box_in_range(s: Sphere)
    requires
        sphere_wf(s),
    ensures
        aabb_in_range(sphere_bbox_spec(s)),
{
}

/// A nonempty range box has in-range endpoints.
proof fn lemma_range_box_bounds(ss: Seq<Sphere>, s: int, e: int)
    requires
        0 <= s < e <= ss.len(),
        forall|i: int| s <= i < e ==> #[trigger] sphere_wf(ss[i]),
    ensures
        aabb_in_range(range_box(ss, s, e)),
    decreases e - s,
{
    lemma_sphere_box_in_range(ss[e - 1]);
    if s < e - 1 {
        lemma_range_box_bounds(ss, s, e - 1);
    } else {
        assert(range_box(ss, s, e - 1) == empty_box());
        assert(range_box(ss, s, e) == aabb_union_spec(empty_box(), sphere_bbox_spec(ss[e - 1])));
    }
}

/// The box of a single primitive's range is that primitive's box.
proof fn lemma_range_box_single(ss: Seq<Sphere>, s: int)
    requires
        0 <= s < ss.len(),
        sphere_wf(ss[s]),
    ensures
        range_box(ss, s, s + 1) == sphere_bbox_spec(ss[s]),
{
    lemma_sphere_box_in_range(ss[s]);
    assert(range_box(ss, s, s) == empty_box());
    assert(range_box(ss, s, s + 1) == aabb_union_spec(empty_box(), sphere_bbox_spec(ss[s])));
}

/// The range box splits at any midpoint into the union of the two parts.
proof fn lemma_range_box_split(ss: Seq<Sphere>, s: int, m: int, e: int)
    requires
        0 <= s <= m <= e <= ss.len(),
        forall|i: int| s <= i < e ==> #[trigger] sphere_wf(ss[i]),
    ensures
        range_box(ss, s, e) == aabb_union_spec(range_box(ss, s, m), range_box(ss, m, e)),
    decreases e - m,
{
    if m == e {
        if s < m {
            lemma_range_box_bounds(ss, s, m);
        }
        assert(aabb_union_spec(range_box(ss, s, m), empty_box()) == range_box(ss, s, m));
    } else {
        lemma_range_box_split(ss, s, m, e - 1);
        let a = range_box(ss, s, m);
        let b = range_box(ss, m, e - 1);
        let c = sphere_bbox_spec(ss[e - 1]);
        assert(aabb_union_spec(aabb_union_spec(a, b), c) == aabb_union_spec(
            a,
            aabb_union_spec(b, c),
        ));
    }
}

/// The range box reads only the range's entries.
proof fn lemma_range_box_frame(ss1: Seq<Sphere>, ss2: Seq<Sphere>, s: int, e: int)
    requires
        forall|i: int| s <= i < e ==> ss1[i] == ss2[i],
        0 <= s,
        e <= ss1.len(),
        e <= ss2.len(),
    ensures
        range_box(ss1, s, e) == range_box(ss2, s, e),
    decreases e - s,
{
    if s < e {
        lemma_range_box_frame(ss1, ss2, s, e - 1);
    }
}

/// The depth bound never drops below a pair's.
proof fn lemma_height_cap_at_least(n: nat)
    ensures
        height_cap(n) >= 2,
    decreases n,
{
    if n > 2 {
        lemma_height_cap_at_least(((n + 1) / 2) as nat);
    }
}

/// The depth bound grows with the span.
proof fn lemma_height_cap_mono(a: nat, b: nat)
    requires
        a <= b,
    ensures
        height_cap(a) <= height_cap(b),
    decreases b,
{
    if b <= 2 {
    } else if a <= 2 {
        lemma_height_cap_at_least(((b + 1) / 2) as nat);
    } else {
        assert((a + 1) / 2 <= (b + 1) / 2) by {
            vstd::arithmetic::div_mod::lemma_div_is_ordered(a + 1 as int, b + 1 as int, 2);
        }
        lemma_height_cap_mono(((a + 1) / 2) as nat, ((b + 1) / 2) as nat);
    }
}

/// What traversal computes, mirrored exactly: the hit flag and the record
/// left behind, threading the shrinking upper bound from left to right.
pub open spec fn child_hit_spec(
    ss: Seq<Sphere>,
    c: BvhChild,
    r: Ray,
    lo: int,
    hi: int,
    rec0: HitRecord,
) -> (bool, HitRecord)
    decreases c, 1int,
{
    match c {
        BvhChild::Leaf(i) => match sphere_best_root(ss[i as int], r, lo, hi) {
            Option::Some(t) => (true, sphere_rec_spec(ss[i as int], r, t)),
            Option::None => (false, rec0),
        },
        BvhChild::Node(n) => node_hit_spec(ss, *n, r, lo, hi, rec0),
    }
}

/// What traversal of one node computes: prune by the box, then left child,
/// then right child against the tightened window.
pub open spec fn node_hit_spec(
    ss: Seq<Sphere>,
    n: BVHNode,
    r: Ray,
    lo: int,
    hi: int,
    rec0: HitRecord,
) -> (bool, HitRecord)
    decreases n, 0int,
{
    if !aabb_hit_spec(n.bbox, r, lo, hi) {
        (false, rec0)
    } else {
        let left = child_hit_spec(ss, n.left, r, lo, hi, rec0);
        let hi2 = if left.0 {
            left.1.t as int
        } else {
            hi
        };
        let right = child_hit_spec(ss, n.right, r, lo, hi2, left.1);
        (left.0 || right.0, right.1)
    }
}

/// Traverse one child: prune by box for nodes, test the primitive for
/// leaves.  Exactly `child_hit_spec`.
pub fn child_hit(
    spheres: &Vec<Sphere>,
    c: &BvhChild,
    r: &Ray,
    ray_t: Interval,
    rec: &mut HitRecord,
) -> (hit: bool)
    requires
        arena_wf(spheres@),
        child_wf(spheres@, *c),
        ray_in_range(*r),
        0 <= r.tm <= FX_ONE,
        ray_t.in_t_range(),
    ensures
        (hit, *final(rec)) == child_hit_spec(
            spheres@,
            *c,
            *r,
            ray_t.min as int,
            ray_t.max as int,
            *old(rec),
        ),
        hit ==> ray_t.min < final(rec).t < ray_t.max,
        hit ==> final(rec).material is Some && crate::fixed::iabs(final(rec).normal.x as int) <= 2
            * FX_ONE && crate::fixed::iabs(final(rec).normal.y as int) <= 2 * FX_ONE
            && crate::fixed::iabs(final(rec).normal.z as int) <= 2 * FX_ONE,
        !hit ==> *final(rec) == *old(rec),
    decreases *c, 1int,
{
    match c {
        BvhChild::Leaf(i) => {
            let obj = &spheres[*i];
            proof {
                assert(sphere_wf(spheres@[*i as int]));
            }
            obj.hit(r, ray_t, rec)
        },
        BvhChild::Node(n) => {
            let boxed: &BVHNode = &*n;
            boxed.hit(spheres, r, ray_t, rec)
        },
    }
}

impl BVHNode {
    /// Traverse this node: reject on the box (narrowing only a copy of the
    /// caller's window), then search the left child, then the right child
    /// with the window tightened to the left child's hit.
    pub fn hit(&self, spheres: &Vec<Sphere>, r: &Ray, ray_t: Interval, rec: &mut HitRecord) -> (hit:
        bool)
        requires
            arena_wf(spheres@),
            child_wf(spheres@, self.left),
            child_wf(spheres@, self.right),
            aabb_in_range(self.bbox),
            ray_in_range(*r),
            0 <= r.tm <= FX_ONE,
            ray_t.in_t_range(),
        ensures
            (hit, *final(rec)) == node_hit_spec(
                spheres@,
                *self,
                *r,
                ray_t.min as int,
                ray_t.max as int,
                *old(rec),
            ),
            hit ==> ray_t.min < final(rec).t < ray_t.max,
            hit ==> final(rec).material is Some && crate::fixed::iabs(final(rec).normal.x as int)
                <= 2 * FX_ONE && crate::fixed::iabs(final(rec).normal.y as int) <= 2 * FX_ONE
                && crate::fixed::iabs(final(rec).normal.z as int) <= 2 * FX_ONE,
            !hit ==> *final(rec) == *old(rec),
        decreases *self, 0int,
    {
        let mut window = Interval::new(ray_t.min, ray_t.max);
        if !self.bbox.hit(r, &mut window) {
            return false;
        }
        let hit_left = child_hit(spheres, &self.left, r, ray_t, rec);
        let right_hi = if hit_left {
            rec.t
        } else {
            ray_t.max
        };
        let right_interval = Interval::new(ray_t.min, right_hi);
        let hit_right = child_hit(spheres, &self.right, r, right_interval, rec);
        hit_left || hit_right
    }

    /// Build a tree over the whole list, sorting its primitives in place.
    /// The list keeps the same primitives (as a multiset) and the leaves
    /// cover exactly `[0, len)`.
    pub fn new(list: &mut HittableList) -> (root: Box<BVHNode>)
        requires
            old(list).wf(),
            old(list).objects@.len() >= 1,
        ensures
            final(list).wf(),
            final(list).objects@.len() == old(list).objects@.len(),
            final(list).objects@.to_multiset() == old(list).objects@.to_multiset(),
            final(list).bbox == old(list).bbox,
            arena_wf(final(list).objects@),
            child_wf(final(list).objects@, BvhChild::Node(root)),
            child_covers(BvhChild::Node(root), 0, final(list).objects@.len() as int),
            root.bbox == range_box(final(list).objects@, 0, final(list).objects@.len() as int),
            child_height(BvhChild::Node(root)) <= height_cap(final(list).objects@.len()),
    {
        let len = list.objects.len();
        proof {
            assert(forall|i: int|
                0 <= i < list.objects@.len() ==> #[trigger] sphere_wf(list.objects@[i]));
        }
        let root = Self::construct(&mut list.objects, 0, len);
        proof {
            let ghost p = |sp: Sphere|
                sphere_wf(sp) && aabb_contains_box(old(list).bbox, sphere_bbox_spec(sp));
            assert forall|i: int| 0 <= i < old(list).objects@.len() implies #[trigger] p(
                old(list).objects@[i],
            ) by {
                assert(sphere_wf(old(list).objects@[i]));
                assert(aabb_contains_box(
                    old(list).bbox,
                    sphere_bbox_spec(old(list).objects@[i]),
                ));
            }
            lemma_multiset_pointwise(old(list).objects@, list.objects@, p);
            assert forall|i: int| 0 <= i < list.objects@.len() implies #[trigger] sphere_wf(
                list.objects@[i],
            ) && aabb_contains_box(list.bbox, sphere_bbox_spec(list.objects@[i])) by {
                assert(p(list.objects@[i]));
            }
        }
        root
    }

    /// Build a subtree over `objects[start..end)`: bound the range to pick
    /// the split axis, sort the range along it, and split at the midpoint;
    /// one or two primitives become leaves directly.  The node's box is
    /// the union of its children's boxes, which is exactly the union of
    /// the range's boxes; the tree's height is bounded by halving the
    /// span at every level.
    #[verifier::rlimit(100)]
    pub fn construct(objects: &mut Vec<Sphere>, start: usize, end: usize) -> (node: Box<BVHNode>)
        requires
            start < end <= old(objects).len(),
            arena_wf(old(objects)@),
        ensures
            final(objects)@.len() == old(objects)@.len(),
            final(objects)@.to_multiset() == old(objects)@.to_multiset(),
            forall|i: int|
                0 <= i < old(objects)@.len() && !(start <= i < end) ==> final(objects)@[i] == old(
                    objects,
                )@[i],
            arena_wf(final(objects)@),
            child_wf(final(objects)@, BvhChild::Node(node)),
            child_covers(BvhChild::Node(node), start as int, end as int),
            node.bbox == range_box(final(objects)@, start as int, end as int),
            child_height(BvhChild::Node(node)) <= height_cap((end - start) as nat),
        decreases end - start,
    {
        // Bound the range, to choose the split axis only.
        let mut bbox = AABB::empty();
        let mut i: usize = start;
        while i < end
            invariant
                start <= i <= end <= objects@.len(),
                arena_wf(objects@),
                crate::fixed::iabs(bbox.x.min as int) <= T_FAR && crate::fixed::iabs(
                    bbox.x.max as int,
                ) <= T_FAR,
                crate::fixed::iabs(bbox.y.min as int) <= T_FAR && crate::fixed::iabs(
                    bbox.y.max as int,
                ) <= T_FAR,
                crate::fixed::iabs(bbox.z.min as int) <= T_FAR && crate::fixed::iabs(
                    bbox.z.max as int,
                ) <= T_FAR,
            decreases end - i,
        {
            proof {
                assert(sphere_wf(objects@[i as int]));
            }
            let obox = objects[i].bounding_box();
            bbox = AABB::with_boxes(&bbox, &obox);
            i = i + 1;
        }
        let axis = bbox.longest_axis();

        // Sort the range by the minimum coordinate of each box on that axis.
        sort_range(objects, start, end, axis);

        let object_span = end - start;
        let left: BvhChild;
        let right: BvhChild;
        if object_span == 1 {
            left = BvhChild::Leaf(start);
            right = BvhChild::Leaf(start);
        } else if object_span == 2 {
            left = BvhChild::Leaf(start);
            right = BvhChild::Leaf(start + 1);
        } else {
            let mid = start + object_span / 2;
            let lnode = Self::construct(objects, start, mid);
            let ghost mid_arena = objects@;
            let rnode = Self::construct(objects, mid, end);
            proof {
                lemma_child_wf_frame(
                    mid_arena,
                    objects@,
                    BvhChild::Node(lnode),
                    start as int,
                    mid as int,
                );
                lemma_range_box_frame(mid_arena, objects@, start as int, mid as int);
            }
            left = BvhChild::Node(lnode);
            right = BvhChild::Node(rnode);
        }
        let lbox = child_box_exec(objects, &left);
        let rbox = child_box_exec(objects, &right);
        let nbox = AABB::with_boxes(&lbox, &rbox);
        let node = Box::new(BVHNode { left, right, bbox: nbox });
        proof {
            let ghost mid = start + (end - start) / 2;
            assert(child_wf(objects@, node.left));
            assert(child_wf(objects@, node.right));
            assert(child_wf(objects@, BvhChild::Node(node)));
            if object_span == 1 {
                assert(sphere_wf(objects@[start as int]));
                lemma_range_box_single(objects@, start as int);
                assert(node.bbox == range_box(objects@, start as int, end as int));
                assert(child_height(node.left) == 1);
                assert(child_height(BvhChild::Node(node)) == 2);
            } else if object_span == 2 {
                assert(sphere_wf(objects@[start as int]));
                assert(sphere_wf(objects@[start + 1]));
                lemma_range_box_single(objects@, start as int);
                lemma_range_box_single(objects@, start + 1);
                lemma_range_box_split(objects@, start as int, start + 1, end as int);
                assert(node.bbox == range_box(objects@, start as int, end as int));
                assert(child_height(node.left) == 1);
                assert(child_height(node.right) == 1);
                assert(child_height(BvhChild::Node(node)) == 2);
            } else {
                lemma_range_box_split(objects@, start as int, mid, end as int);
                assert(node.bbox == range_box(objects@, start as int, end as int));
                // Balance: the left span is the floor half, the right the
                // ceiling half, and the bound halves with the span.
                assert(mid - start == object_span / 2);
                vstd::arithmetic::div_mod::lemma_fundamental_div_mod(object_span as int, 2);
                vstd::arithmetic::div_mod::lemma_mod_bound(object_span as int, 2);
                assert(end - mid == (object_span + 1) / 2) by {
                    vstd::arithmetic::div_mod::lemma_fundamental_div_mod_converse(
                        object_span + 1,
                        2,
                        object_span as int - object_span as int / 2,
                        (1 - object_span % 2) as int,
                    );
                }
                lemma_height_cap_mono((object_span / 2) as nat, ((object_span + 1) / 2) as nat);
                assert(height_cap((end - start) as nat) == 1 + height_cap(
                    ((object_span + 1) / 2) as nat,
                ));
                assert(child_height(BvhChild::Node(node)) <= height_cap((end - start) as nat));
            }
            assert forall|iq: int| #[trigger] child_contains_leaf(
                BvhChild::Node(node),
                iq,
            ) implies start <= iq < end by {
                assert(child_contains_leaf(node.left, iq) || child_contains_leaf(node.right, iq));
            }
            assert forall|j: int| start <= j < end implies #[trigger] child_contains_leaf(
                BvhChild::Node(node),
                j,
            ) by {
                if object_span == 1 {
                    assert(child_contains_leaf(node.left, j));
                } else if object_span == 2 {
                    if j == start {
                        assert(child_contains_leaf(node.left, j));
                    } else {
                        assert(child_contains_leaf(node.right, j));
                    }
                } else {
                    if j < mid {
                        assert(child_contains_leaf(node.left, j));
                    } else {
                        assert(child_contains_leaf(node.right, j));
                    }
                }
            }
        }
        node
    }
}

/// The box a child presents, computed.
fn child_box_exec(objects: &Vec<Sphere>, c: &BvhChild) -> (b: AABB)
    requires
        arena_wf(objects@),
        child_wf(objects@, *c),
    ensures
        b == child_box(objects@, *c),
        aabb_in_range(b),
{
    match c {
        BvhChild::Leaf(i) => {
            proof {
                assert(sphere_wf(objects@[*i as int]));
            }
            objects[*i].bounding_box()
        },
        BvhChild::Node(n) => n.bbox,
    }
}

/// The sort key: the low end of the primitive's box along `axis`.
fn box_key(s: &Sphere, axis: i32) -> (k: i64)
    requires
        sphere_wf(*s),
    ensures
        k == crate::aabb::axis_spec(sphere_bbox_spec(*s), axis as int).min,
{
    let b = s.bounding_box();
    let iv = b.axis_interval(axis);
    iv.min
}

/// The sort key of the element at `i`.
pub open spec fn key_at(ss: Seq<Sphere>, i: int, axis: int) -> int {
    crate::aabb::axis_spec(sphere_bbox_spec(ss[i]), axis).min as int
}

/// `objects[s..e)` is sorted by the box key.
pub open spec fn sorted_range(ss: Seq<Sphere>, s: int, e: int, axis: int) -> bool {
    forall|i: int, j: int| s <= i < j < e ==> #[trigger] key_at(ss, i, axis) <= #[trigger] key_at(
        ss,
        j,
        axis,
    )
}

/// Selection sort of `objects[start..end)` by `box_key`, in place.  The
/// vector keeps the same elements as a multiset and is untouched outside
/// the range.  Ties are left in whatever order the selection finds them.
fn sort_range(objects: &mut Vec<Sphere>, start: usize, end: usize, axis: i32)
    requires
        start <= end <= old(objects).len(),
        arena_wf(old(objects)@),
    ensures
        final(objects)@.len() == old(objects)@.len(),
        final(objects)@.to_multiset() == old(objects)@.to_multiset(),
        forall|i: int|
            0 <= i < old(objects)@.len() && !(start <= i < end) ==> final(objects)@[i] == old(
                objects,
            )@[i],
        arena_wf(final(objects)@),
        sorted_range(final(objects)@, start as int, end as int, axis as int),
{
    if start >= end {
        return ;
    }
    let mut i: usize = start;
    while i < end
        invariant
            start <= i <= end <= objects@.len(),
            objects@.len() == old(objects)@.len(),
            objects@.to_multiset() == old(objects)@.to_multiset(),
            forall|m: int|
                0 <= m < old(objects)@.len() && !(start <= m < end) ==> objects@[m] == old(
                    objects,
                )@[m],
            arena_wf(objects@),
            sorted_range(objects@, start as int, i as int, axis as int),
            forall|a: int, b: int|
                start <= a < i && i <= b < end ==> #[trigger] key_at(objects@, a, axis as int)
                    <= #[trigger] key_at(objects@, b, axis as int),
        decreases end - i,
    {
        // Find the least key in [i, end).
        let mut best: usize = i;
        let mut scan: usize = i + 1;
        while scan < end
            invariant
                start <= i <= best < scan <= end <= objects@.len(),
                arena_wf(objects@),
                forall|k: int|
                    i <= k < scan ==> key_at(objects@, best as int, axis as int)
                        <= #[trigger] key_at(objects@, k, axis as int),
            decreases end - scan,
        {
            proof {
                assert(sphere_wf(objects@[scan as int]));
                assert(sphere_wf(objects@[best as int]));
            }
            let kscan = box_key(&objects[scan], axis);
            let kbest = box_key(&objects[best], axis);
            if kscan < kbest {
                best = scan;
            }
            scan = scan + 1;
        }
        let ghost pre = objects@;
        let ghost bi = best as int;
        if best != i {
            let a = objects[i];
            let b = objects[best];
            objects.set(i, b);
            objects.set(best, a);
            proof {
                lemma_swap_multiset(pre, i as int, bi);
            }
        }
        proof {
            let ghost ax = axis as int;
            assert forall|aq: int, bq: int| start <= aq < bq < i + 1 implies key_at(
                objects@,
                aq,
                ax,
            ) <= key_at(objects@, bq, ax) by {
                assert(objects@[aq] == pre[aq]);
                if bq < i {
                    assert(objects@[bq] == pre[bq]);
                    assert(key_at(pre, aq, ax) <= key_at(pre, bq, ax));
                } else {
                    assert(objects@[bq] == pre[bi]);
                    assert(key_at(pre, aq, ax) <= key_at(pre, bi, ax));
                }
            }
            assert forall|aq: int, bq: int|
                start <= aq < i + 1 && i + 1 <= bq < end implies key_at(objects@, aq, ax)
                <= key_at(objects@, bq, ax) by {
                if aq < i {
                    assert(objects@[aq] == pre[aq]);
                    if bq == bi {
                        assert(objects@[bq] == pre[i as int]);
                        assert(key_at(pre, aq, ax) <= key_at(pre, i as int, ax));
                    } else {
                        assert(objects@[bq] == pre[bq]);
                        assert(key_at(pre, aq, ax) <= key_at(pre, bq, ax));
                    }
                } else {
                    assert(objects@[aq] == pre[bi]);
                    if bq == bi {
                        assert(objects@[bq] == pre[i as int]);
                        assert(key_at(pre, bi, ax) <= key_at(pre, i as int, ax));
                    } else {
                        assert(objects@[bq] == pre[bq]);
                        assert(key_at(pre, bi, ax) <= key_at(pre, bq, ax));
                    }
                }
            }
        }
        i = i + 1;
    }
}

/// Swapping two positions leaves the multiset of a sequence unchanged.
pub proof fn lemma_swap_multiset<A>(s: Seq<A>, i: int, j: int)
    requires
        0 <= i < s.len(),
        0 <= j < s.len(),
        i != j,
    ensures
        s.update(i, s[j]).update(j, s[i]).to_multiset() == s.to_multiset(),
{
    broadcast use vstd::seq_lib::to_multiset_update;
    broadcast use vstd::seq_lib::group_to_multiset_ensures;

    let s1 = s.update(i, s[j]);
    assert(s1[j] == s[j]);
    assert(s.contains(s[i]) && s.contains(s[j]));
    assert(s.to_multiset().count(s[i]) > 0);
    assert(s.to_multiset().count(s[j]) > 0);
    assert(s1.to_multiset() == s.to_multiset().insert(s[j]).remove(s[i]));
    assert(s1.update(j, s[i]).to_multiset() == s1.to_multiset().insert(s[i]).remove(s1[j]));
    assert(s1.update(j, s[i]).to_multiset() =~= s.to_multiset());
}

/// A pointwise property shared by every member of a sequence holds of
/// every member of any sequence with the same multiset.
pub proof fn lemma_multiset_pointwise(s1: Seq<Sphere>, s2: Seq<Sphere>, p: spec_fn(Sphere) -> bool)
    requires
        s1.to_multiset() == s2.to_multiset(),
        forall|i: int| 0 <= i < s1.len() ==> #[trigger] p(s1[i]),
    ensures
        forall|i: int| 0 <= i < s2.len() ==> #[trigger] p(s2[i]),
{
    broadcast use vstd::seq_lib::group_to_multiset_ensures;

    assert forall|i: int| 0 <= i < s2.len() implies #[trigger] p(s2[i]) by {
        assert(s2.contains(s2[i]));
        assert(s2.to_multiset().count(s2[i]) > 0);
        assert(s1.to_multiset().count(s2[i]) > 0);
        assert(s1.contains(s2[i]));
        let k = choose|k: int| 0 <= k < s1.len() && s1[k] == s2[i];
        assert(p(s1[k]));
    }
}

/// Well-formedness of a child looks only at the arena entries its leaves
/// cover: rewriting entries outside `[s, e)` cannot break it.
proof fn lemma_child_wf_frame(ss1: Seq<Sphere>, ss2: Seq<Sphere>, c: BvhChild, s: int, e: int)
    requires
        ss1.len() == ss2.len(),
        forall|i: int| s <= i < e ==> ss1[i] == ss2[i],
        leaves_in_range(c, s, e),
        child_wf(ss1, c),
    ensures
        child_wf(ss2, c),
        child_box(ss2, c) == child_box(ss1, c),
    decreases c,
{
    match c {
        BvhChild::Leaf(i) => {
            assert(child_contains_leaf(c, i as int));
        },
        BvhChild::Node(n) => {
            assert forall|i: int| #[trigger] child_contains_leaf(n.left, i) implies s <= i < e by {
                assert(child_contains_leaf(c, i));
            }
            assert forall|i: int| #[trigger] child_contains_leaf(n.right, i) implies s <= i
                < e by {
                assert(child_contains_leaf(c, i));
            }
            lemma_child_wf_frame(ss1, ss2, n.left, s, e);
            lemma_child_wf_frame(ss1, ss2, n.right, s, e);
        },
    }
}


/// A complete accelerated scene: the primitive list (sorted during the
/// build) together with the tree over it.
pub struct BvhTree {
    pub list: HittableList,
    pub root: Box<BVHNode>,
}

/// The tree indexes exactly the list's primitives and is structurally
/// sound.
pub open spec fn tree_wf(t: BvhTree) -> bool {
    &&& t.list.wf()
    &&& arena_wf(t.list.objects@)
    &&& child_wf(t.list.objects@, BvhChild::Node(t.root))
    &&& child_covers(BvhChild::Node(t.root), 0, t.list.objects@.len() as int)
}

impl BvhTree {
    /// Build the hierarchy over a non-empty list, consuming it.
    pub fn build(mut list: HittableList) -> (t: BvhTree)
        requires
            list.wf(),
            list.objects@.len() >= 1,
        ensures
            tree_wf(t),
            t.list.objects@.to_multiset() == list.objects@.to_multiset(),
            t.list.objects@.len() == list.objects@.len(),
    {
        let root = BVHNode::new(&mut list);
        BvhTree { list, root }
    }
}

/// The scene geometry handed to the integrator: the flat list, or the tree
/// built over one.
pub enum World {
    List(HittableList),
    Tree(BvhTree),
}

pub open spec fn world_wf(w: World) -> bool {
    match w {
        World::List(l) => l.wf(),
        World::Tree(t) => tree_wf(t),
    }
}

/// What a scene intersection computes: the list scan for a flat world, the
/// node traversal for a tree.
pub open spec fn world_hit_spec(w: World, r: Ray, lo: int, hi: int, rec0: HitRecord) -> (
    bool,
    HitRecord,
) {
    match w {
        World::List(l) => crate::hittable::list_hit_res(l.objects@, r, lo, hi, rec0),
        World::Tree(t) => node_hit_spec(t.list.objects@, *t.root, r, lo, hi, rec0),
    }
}

impl World {
    /// Resolve the nearest intersection of the ray within the window.
    pub fn hit(&self, r: &Ray, ray_t: Interval, rec: &mut HitRecord) -> (hit: bool)
        requires
            world_wf(*self),
            ray_in_range(*r),
            0 <= r.tm <= FX_ONE,
            ray_t.in_t_range(),
        ensures
            (hit, *final(rec)) == world_hit_spec(
                *self,
                *r,
                ray_t.min as int,
                ray_t.max as int,
                *old(rec),
            ),
            hit ==> ray_t.min < final(rec).t < ray_t.max,
            hit ==> final(rec).material is Some && crate::fixed::iabs(final(rec).normal.x as int)
                <= 2 * FX_ONE && crate::fixed::iabs(final(rec).normal.y as int) <= 2 * FX_ONE
                && crate::fixed::iabs(final(rec).normal.z as int) <= 2 * FX_ONE,
            !hit ==> *final(rec) == *old(rec),
    {
        match self {
            World::List(l) => l.hit(r, ray_t, rec),
            World::Tree(t) => t.root.hit(&t.list.objects, r, ray_t, rec),
        }
    }

    /// The box bounding the whole scene.
    pub fn bounding_box(&self) -> (b: AABB)
        ensures
            b == match *self {
                World::List(l) => l.bbox,
                World::Tree(t) => t.root.bbox,
            },
    {
        match self {
            World::List(l) => l.bounding_box(),
            World::Tree(t) => t.root.bbox,
        }
    }
}

} // verus!
