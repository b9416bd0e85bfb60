//! The bounding-volume hierarchy: a binary tree built once over the
//! primitive list and never rebalanced, whose traversal prunes subtrees
//! the ray's interval provably cannot meet.
//!
//! Traversal tests the node's cached bounds first; on a miss the whole
//! subtree is skipped. On a hit the left subtree is queried over the full
//! interval and the right subtree over the interval tightened to the left
//! hit, so the nearer of the two wins — [`lemma_bvh_matches_list`] states
//! that this equals the brute-force list scan.
use crate::aabb::aabb_wf;
use crate::aabb::slab_hit;
use crate::aabb::AABB;
use crate::fixed::iabs;
use crate::fixed::Fx;
use crate::hittable::lemma_object_in_range;
use crate::hittable::lemma_object_restrict;
use crate::hittable::box_or_default;
use crate::hittable::box_or_default_spec;
use crate::hittable::object_hit_spec;
use crate::hittable::object_wf;
use crate::hittable::HitRecord;
use crate::hittable::Object;
use crate::hittable_list::list_hit_from;
use crate::hittable_list::list_hit_spec;
use crate::hittable_list::list_wf;
use crate::moving_sphere::combine_v;
use crate::hittable_list::HittableList;
use crate::ray::ray_wf;
use crate::ray::Ray;
use crate::ray::PARAM_MAG;
use crate::utils::random_int_in_range;
use crate::vec3::Vec3;
use vstd::pervasive::VecAdditionalExecFns;
use vstd::prelude::*;

verus! {

#[derive(Debug)]
pub enum BvhChild {
    Leaf(Object),
    Node(Box<BvhNode>),
}

#[derive(Debug)]
pub struct BvhNode {
    pub left: BvhChild,
    pub right: BvhChild,
    pub bounds: AABB,
}

impl BvhChild {
    /// The objects stored at the leaves of this subtree, left to right.
    pub open spec fn leaves(self) -> Seq<Object>
        decreases self,
    {
        match self {
            BvhChild::Leaf(o) => seq![o],
            BvhChild::Node(n) => n.leaves(),
        }
    }

    pub open spec fn wf(self) -> bool
        decreases self,
    {
        match self {
            BvhChild::Leaf(o) => object_wf(o),
            BvhChild::Node(n) => n.wf(),
        }
    }

    /// What querying this subtree returns.
    pub open spec fn hit_spec(self, r: Ray, t_min: Fx, t_max: Fx) -> Option<HitRecord>
        decreases self,
    {
        match self {
            BvhChild::Leaf(o) => object_hit_spec(o, r, t_min, t_max),
            BvhChild::Node(n) => n.hit_spec(r, t_min, t_max),
        }
    }

    /// The cached box this subtree contributes to its parent's bounds.
    pub open spec fn cached_box(self, t0: int, t1: int) -> AABB
        decreases self,
    {
        match self {
            BvhChild::Leaf(o) => box_or_default_spec(o, t0, t1),
            BvhChild::Node(n) => n.bounds,
        }
    }

    /// The subtree's boxes are conservative for this query: whenever a
    /// node's bounds test fails over a subinterval, no object below it
    /// hits over that subinterval.
    pub open spec fn covers(self, r: Ray, t_min: Fx, t_max: Fx) -> bool
        decreases self,
    {
        match self {
            BvhChild::Leaf(o) => true,
            BvhChild::Node(n) => n.covers(r, t_min, t_max),
        }
    }

    /// Every node below this subtree caches exactly the combine of its
    /// children's boxes for the build interval.
    pub open spec fn bounds_linked(self, t0: int, t1: int) -> bool
        decreases self,
    {
        match self {
            BvhChild::Leaf(o) => true,
            BvhChild::Node(n) => n.bounds_linked(t0, t1),
        }
    }

    fn hit(&self, r: &Ray, t_min: Fx, t_max: Fx) -> (res: Option<HitRecord>)
        requires
            self.wf(),
            ray_wf(*r),
            -PARAM_MAG <= t_min.v(),
            t_max.v() <= PARAM_MAG,
        ensures
            res == self.hit_spec(*r, t_min, t_max),
        decreases *self,
    {
        match self {
            BvhChild::Leaf(o) => o.hit(r, t_min, t_max),
            BvhChild::Node(n) => n.hit(r, t_min, t_max),
        }
    }
}

impl BvhNode {
    pub open spec fn leaves(self) -> Seq<Object>
        decreases self,
    {
        self.left.leaves() + self.right.leaves()
    }

    pub open spec fn wf(self) -> bool
        decreases self,
    {
        aabb_wf(self.bounds) && self.left.wf() && self.right.wf()
    }

    /// What querying this node returns: nothing if the ray misses the
    /// cached bounds; otherwise the left result, improved by any strictly
    /// closer right result.
    pub open spec fn hit_spec(self, r: Ray, t_min: Fx, t_max: Fx) -> Option<HitRecord>
        decreases self,
    {
        if !slab_hit(self.bounds, r, t_min.v(), t_max.v()) {
            None
        } else {
            match self.left.hit_spec(r, t_min, t_max) {
                Some(h) => match self.right.hit_spec(r, t_min, h.t) {
                    Some(h2) => Some(h2),
                    None => Some(h),
                },
                None => self.right.hit_spec(r, t_min, t_max),
            }
        }
    }

    /// The node caches exactly the combine of its children's boxes for
    /// the build interval, recursively: cached bounds are computed once at
    /// construction and tie every node to its contents.
    pub open spec fn bounds_linked(self, t0: int, t1: int) -> bool
        decreases self,
    {
        &&& self.bounds == combine_v(
            self.left.cached_box(t0, t1),
            self.right.cached_box(t0, t1),
        )
        &&& self.left.bounds_linked(t0, t1)
        &&& self.right.bounds_linked(t0, t1)
    }

    /// The node's boxes are conservative for this query, at this node and
    /// below it.
    pub open spec fn covers(self, r: Ray, t_min: Fx, t_max: Fx) -> bool
        decreases self,
    {
        &&& forall|t: Fx|
            #![trigger slab_hit(self.bounds, r, t_min.v(), t.v())]
            t.v() <= t_max.v() && !slab_hit(self.bounds, r, t_min.v(), t.v())
                ==> list_hit_spec(self.leaves(), r, t_min, t) == None::<HitRecord>
        &&& self.left.covers(r, t_min, t_max)
        &&& self.right.covers(r, t_min, t_max)
    }

    /// Traversal: prune on the cached bounds, then query left over the
    /// full interval and right over the interval tightened to the left
    /// hit.
    pub fn hit(&self, r: &Ray, t_min: Fx, t_max: Fx) -> (res: Option<HitRecord>)
        requires
            self.wf(),
            ray_wf(*r),
            -PARAM_MAG <= t_min.v(),
            t_max.v() <= PARAM_MAG,
        ensures
            res == self.hit_spec(*r, t_min, t_max),
        decreases *self,
    {
        if !self.bounds.hit(r, t_min, t_max) {
            return None;
        }
        let hit_left = self.left.hit(r, t_min, t_max);
        match hit_left {
            Some(h) => {
                proof {
                    lemma_child_in_range(self.left, *r, t_min, t_max);
                }
                match self.right.hit(r, t_min, h.t) {
                    Some(h2) => Some(h2),
                    None => Some(h),
                }
            },
            None => self.right.hit(r, t_min, t_max),
        }
    }

    /// The cached bounds, valid over the whole build interval.
    pub fn bounding_box(&self, _t0: Fx, _t1: Fx) -> (res: Option<AABB>)
        ensures
            res == Some(self.bounds),
    {
        Some(self.bounds)
    }

    /// Builds the hierarchy over the list's objects. The working copy is
    /// recursively sorted along a randomly chosen axis and split at the
    /// midpoint; a single-object list is stored as the same leaf on both
    /// sides, exactly as the degenerate pair in the traversal expects.
    /// Every node caches the combine of its children's boxes, computed
    /// once here and never rebuilt.
    pub fn new_from_hittable(
        list: &HittableList,
        time_0: Fx,
        time_1: Fx,
        rng: &mut rand::rngs::StdRng,
    ) -> (n: BvhNode)
        requires
            list_wf(list.objects@),
            list.objects@.len() >= 1,
            iabs(time_0.v()) <= PARAM_MAG,
            iabs(time_1.v()) <= PARAM_MAG,
        ensures
            n.wf(),
            n.bounds_linked(time_0.v(), time_1.v()),
            leaves_equiv(n.leaves(), list.objects@),
    {
        let mut working: Vec<Object> = Vec::new();
        let mut ci: usize = 0;
        while ci < list.objects.len()
            invariant
                ci <= list.objects@.len(),
                working@ =~= list.objects@.subrange(0, ci as int),
            decreases list.objects@.len() - ci,
        {
            working.push(list.objects[ci]);
            proof {
                assert(working@ =~= list.objects@.subrange(0, ci + 1 as int));
            }
            ci += 1;
        }
        proof {
            assert(working@ =~= list.objects@);
        }
        let len: usize = working.len();
        if len == 1 {
            let o: Object = working[0];
            let b: AABB = box_or_default(&o, time_0, time_1);
            proof {
                lemma_box_or_default_wf(o, time_0.v(), time_1.v());
                assert(seq![o] + seq![o] =~= seq![o, o]);
                assert(list.objects@ =~= seq![o]);
            }
            BvhNode {
                left: BvhChild::Leaf(o),
                right: BvhChild::Leaf(o),
                bounds: b.combine(b),
            }
        } else {
            let n = BvhNode::build(&mut working, 0, len, time_0, time_1, rng);
            proof {
                assert(list.objects@.subrange(0, list.objects@.len() as int) =~= list.objects@);
            }
            n
        }
    }

    /// Builds a node over `objects[start..end]` (at least two objects):
    /// sort the range along a random axis, split at the midpoint, and
    /// recurse; a one-object half becomes a leaf.
    fn build(
        objects: &mut Vec<Object>,
        start: usize,
        end: usize,
        time_0: Fx,
        time_1: Fx,
        rng: &mut rand::rngs::StdRng,
    ) -> (n: BvhNode)
        requires
            list_wf(old(objects)@),
            start < end <= old(objects)@.len(),
            end - start >= 2,
            iabs(time_0.v()) <= PARAM_MAG,
            iabs(time_1.v()) <= PARAM_MAG,
        ensures
            final(objects)@.len() == old(objects)@.len(),
            list_wf(final(objects)@),
            final(objects)@.to_multiset() == old(objects)@.to_multiset(),
            forall|k: int|
                0 <= k < old(objects)@.len() && !(start <= k < end) ==> final(objects)@[k] == old(
                    objects,
                )@[k],
            final(objects)@.subrange(start as int, end as int).to_multiset() == old(
                objects,
            )@.subrange(start as int, end as int).to_multiset(),
            n.wf(),
            n.bounds_linked(time_0.v(), time_1.v()),
            n.leaves().to_multiset() == old(objects)@.subrange(
                start as int,
                end as int,
            ).to_multiset(),
        decreases end - start, 0int,
    {
        let axis: u32 = random_int_in_range(rng, 0, 3);
        sort_range(objects, start, end, axis);
        let mid: usize = start + (end - start) / 2;
        let ghost after_sort = objects@;
        proof {
            vstd::seq_lib::lemma_multiset_commutative(
                after_sort.subrange(start as int, mid as int),
                after_sort.subrange(mid as int, end as int),
            );
            assert(after_sort.subrange(start as int, mid as int) + after_sort.subrange(
                mid as int,
                end as int,
            ) =~= after_sort.subrange(start as int, end as int));
        }
        let left: BvhChild = BvhNode::build_child(objects, start, mid, time_0, time_1, rng);
        let ghost after_left = objects@;
        proof {
            lemma_subrange_multisets(after_sort, after_left, start as int, mid as int, end as int);
        }
        let right: BvhChild = BvhNode::build_child(objects, mid, end, time_0, time_1, rng);
        let ghost after_right = objects@;
        let lb: AABB = BvhNode::child_box(&left, time_0, time_1);
        let rb: AABB = BvhNode::child_box(&right, time_0, time_1);
        let bounds: AABB = lb.combine(rb);
        proof {
            vstd::seq_lib::lemma_multiset_commutative(left.leaves(), right.leaves());
            // the right build left [start, mid) alone
            assert(after_right.subrange(start as int, mid as int) =~= after_left.subrange(
                start as int,
                mid as int,
            ));
            assert(after_left.subrange(start as int, mid as int).to_multiset() == after_sort.subrange(
                start as int,
                mid as int,
            ).to_multiset());
            vstd::seq_lib::lemma_multiset_commutative(
                after_right.subrange(start as int, mid as int),
                after_right.subrange(mid as int, end as int),
            );
            assert(after_right.subrange(start as int, mid as int) + after_right.subrange(
                mid as int,
                end as int,
            ) =~= after_right.subrange(start as int, end as int));
            assert(left.leaves() + right.leaves() == BvhNode { left, right, bounds }.leaves());
        }
        BvhNode { left, right, bounds }
    }

    /// Builds one side of a split: a leaf for a single object, a node for
    /// two or more.
    fn build_child(
        objects: &mut Vec<Object>,
        start: usize,
        end: usize,
        time_0: Fx,
        time_1: Fx,
        rng: &mut rand::rngs::StdRng,
    ) -> (c: BvhChild)
        requires
            list_wf(old(objects)@),
            start < end <= old(objects)@.len(),
            iabs(time_0.v()) <= PARAM_MAG,
            iabs(time_1.v()) <= PARAM_MAG,
        ensures
            final(objects)@.len() == old(objects)@.len(),
            list_wf(final(objects)@),
            final(objects)@.to_multiset() == old(objects)@.to_multiset(),
            final(objects)@.subrange(start as int, end as int).to_multiset() == old(
                objects,
            )@.subrange(start as int, end as int).to_multiset(),
            forall|k: int|
                0 <= k < old(objects)@.len() && !(start <= k < end) ==> final(objects)@[k] == old(
                    objects,
                )@[k],
            c.wf(),
            c.bounds_linked(time_0.v(), time_1.v()),
            c.leaves().to_multiset() == old(objects)@.subrange(
                start as int,
                end as int,
            ).to_multiset(),
        decreases end - start, 1int,
    {
        if end - start == 1 {
            let o: Object = objects[start];
            proof {
                assert(old(objects)@.subrange(start as int, end as int) =~= seq![o]);
                vstd::seq_lib::to_multiset_build(Seq::<Object>::empty(), o);
                assert(seq![o] =~= Seq::<Object>::empty().push(o));
            }
            BvhChild::Leaf(o)
        } else {
            let n = BvhNode::build(objects, start, end, time_0, time_1, rng);
            BvhChild::Node(Box::new(n))
        }
    }

    /// The cached box a child contributes to its parent.
    fn child_box(c: &BvhChild, time_0: Fx, time_1: Fx) -> (b: AABB)
        requires
            c.wf(),
            iabs(time_0.v()) <= PARAM_MAG,
            iabs(time_1.v()) <= PARAM_MAG,
        ensures
            b == c.cached_box(time_0.v(), time_1.v()),
            aabb_wf(b),
    {
        match c {
            BvhChild::Leaf(o) => {
                proof {
                    lemma_box_or_default_wf(*o, time_0.v(), time_1.v());
                }
                box_or_default(o, time_0, time_1)
            },
            BvhChild::Node(n) => n.bounds,
        }
    }
}

/// Either the leaves are a permutation of the objects, or a single object
/// is stored as the degenerate aliased leaf pair.
pub open spec fn leaves_equiv(leaves: Seq<Object>, objs: Seq<Object>) -> bool {
    ||| leaves.to_multiset() == objs.to_multiset()
    ||| (objs.len() == 1 && leaves =~= seq![objs[0], objs[0]])
}

/// A subtree's hit lies strictly inside the queried interval.
pub proof fn lemma_child_in_range(c: BvhChild, r: Ray, t_min: Fx, t_max: Fx)
    ensures
        c.hit_spec(r, t_min, t_max) matches Some(h) ==> t_min.v() < h.t.v() < t_max.v(),
    decreases c,
{
    match c {
        BvhChild::Leaf(o) => {
            lemma_object_in_range(o, r, t_min, t_max);
        },
        BvhChild::Node(n) => {
            lemma_node_in_range(*n, r, t_min, t_max);
        },
    }
}

/// A node's hit lies strictly inside the queried interval.
pub proof fn lemma_node_in_range(n: BvhNode, r: Ray, t_min: Fx, t_max: Fx)
    ensures
        n.hit_spec(r, t_min, t_max) matches Some(h) ==> t_min.v() < h.t.v() < t_max.v(),
    decreases n,
{
    lemma_child_in_range(n.left, r, t_min, t_max);
    match n.left.hit_spec(r, t_min, t_max) {
        Some(h) => {
            lemma_child_in_range(n.right, r, t_min, h.t);
        },
        None => {
            lemma_child_in_range(n.right, r, t_min, t_max);
        },
    }
}

/// Well-formed objects report well-formed boxes, and the default box is
/// well formed.
proof fn lemma_box_or_default_wf(o: Object, t0: int, t1: int)
    requires
        object_wf(o),
    ensures
        aabb_wf(box_or_default_spec(o, t0, t1)),
{
}

/// Sorts `objects[start..end]` in place by ascending box minimum along
/// the given axis (selection sort); the rest of the vector is untouched
/// and the range keeps its objects, now in key order.
fn sort_range(objects: &mut Vec<Object>, start: usize, end: usize, axis: u32)
    requires
        list_wf(old(objects)@),
        start <= end <= old(objects)@.len(),
    ensures
        final(objects)@.len() == old(objects)@.len(),
        final(objects)@.subrange(start as int, end as int).to_multiset() == old(
            objects,
        )@.subrange(start as int, end as int).to_multiset(),
        final(objects)@.to_multiset() == old(objects)@.to_multiset(),
        forall|k: int|
            0 <= k < old(objects)@.len() && !(start <= k < end) ==> final(objects)@[k] == old(
                objects,
            )@[k],
        list_wf(old(objects)@) ==> list_wf(final(objects)@),
        forall|m: int, n: int|
            start <= m < n < end ==> box_key_v(#[trigger] final(objects)@[m], axis as int)
                <= box_key_v(#[trigger] final(objects)@[n], axis as int),
{
    let ghost orig = objects@;
    let mut i: usize = start;
    while i < end
        invariant
            start <= i <= end <= objects@.len(),
            objects@.len() == orig.len(),
            objects@.subrange(start as int, end as int).to_multiset() == orig.subrange(
                start as int,
                end as int,
            ).to_multiset(),
            objects@.to_multiset() == orig.to_multiset(),
            forall|k: int| 0 <= k < orig.len() && !(start <= k < end) ==> objects@[k] == orig[k],
            list_wf(objects@),
            forall|m: int, n: int|
                start <= m < n < i ==> box_key_v(#[trigger] objects@[m], axis as int)
                    <= box_key_v(#[trigger] objects@[n], axis as int),
            forall|m: int, n: int|
                start <= m < i <= n < end ==> box_key_v(#[trigger] objects@[m], axis as int)
                    <= box_key_v(#[trigger] objects@[n], axis as int),
        decreases end - i,
    {
        let mut best: usize = i;
        let mut j: usize = i + 1;
        while j < end
            invariant
                i < end <= objects@.len(),
                i <= best < j <= end,
                list_wf(objects@),
                forall|n: int|
                    i <= n < j ==> box_key_v(objects@[best as int], axis as int) <= box_key_v(
                        #[trigger] objects@[n],
                        axis as int,
                    ),
            decreases end - j,
        {
            if box_min_key(&objects[j], axis) < box_min_key(&objects[best], axis) {
                best = j;
            }
            j += 1;
        }
        if best != i {
            let ghost before = objects@;
            let a: Object = objects[i];
            let b: Object = objects[best];
            objects.set(i, b);
            objects.set(best, a);
            proof {
                lemma_swap_keeps_multisets(before, objects@, i as int, best as int, start as int, end as int);
            }
        }
        i += 1;
    }
}

/// The comparator key: the box-minimum coordinate along the chosen axis
/// of the object's box at time zero (the default box for an object with
/// none).
pub open spec fn box_key_v(o: Object, axis: int) -> int {
    let b = box_or_default_spec(o, 0, 0);
    if axis == 0 {
        b.min.x.v()
    } else if axis == 1 {
        b.min.y.v()
    } else {
        b.min.z.v()
    }
}

/// The raw box-minimum coordinate along one axis, used as the sort key.
fn box_min_key(o: &Object, axis: u32) -> (k: i64)
    requires
        object_wf(*o),
    ensures
        k as int == box_key_v(*o, axis as int),
{
    let z = Fx::zero();
    let b: AABB = match o.bounding_box(z, z) {
        Some(b) => b,
        None => AABB::new(Vec3::new(z, z, z), Vec3::new(z, z, z)),
    };
    if axis == 0 {
        b.min.x.raw
    } else if axis == 1 {
        b.min.y.raw
    } else {
        b.min.z.raw
    }
}

/// Swapping two positions inside the range preserves the multiset of the
/// range, the multiset of the whole sequence, and everything outside the
/// range.
proof fn lemma_swap_keeps_multisets(
    before: Seq<Object>,
    after: Seq<Object>,
    i: int,
    j: int,
    start: int,
    end: int,
)
    requires
        0 <= start <= i < end <= before.len(),
        start <= j < end,
        i != j,
        after == before.update(i, before[j]).update(j, before[i]),
    ensures
        after.len() == before.len(),
        after.subrange(start, end).to_multiset() == before.subrange(start, end).to_multiset(),
        after.to_multiset() == before.to_multiset(),
        forall|k: int| 0 <= k < before.len() && !(start <= k < end) ==> after[k] == before[k],
{
    lemma_swap_multiset(before, i, j);
    let bs = before.subrange(start, end);
    let asr = after.subrange(start, end);
    assert(asr =~= bs.update(i - start, bs[j - start]).update(j - start, bs[i - start]));
    lemma_swap_multiset(bs, i - start, j - start);
}

/// Exchanging two elements of a sequence leaves its multiset unchanged.
proof fn lemma_swap_multiset(s: Seq<Object>, i: int, j: int)
    requires
        0 <= i < s.len(),
        0 <= j < s.len(),
        i != j,
    ensures
        s.update(i, s[j]).update(j, s[i]).to_multiset() == s.to_multiset(),
{
    broadcast use vstd::seq_lib::group_to_multiset_ensures;
    broadcast use vstd::multiset::group_multiset_axioms;
    broadcast use vstd::multiset::group_multiset_properties;

    let s1 = s.update(i, s[j]);
    let s2 = s1.update(j, s[i]);
    vstd::seq_lib::to_multiset_update(s, i, s[j]);
    vstd::seq_lib::to_multiset_update(s1, j, s[i]);
    assert(s1[j] == s[j]);
    assert(s.to_multiset().count(s[i]) > 0) by {
        assert(s.contains(s[i]));
    }
    assert(s.to_multiset().count(s[j]) > 0) by {
        assert(s.contains(s[j]));
    }
    assert(s2.to_multiset() =~= s.to_multiset());
}

/// A subrange's multiset is preserved when the whole multiset is
/// preserved and everything outside the subrange is untouched... stated
/// for the prefix/suffix split used during a build.
proof fn lemma_subrange_multisets(
    before: Seq<Object>,
    after: Seq<Object>,
    start: int,
    mid: int,
    end: int,
)
    requires
        0 <= start <= mid <= end <= before.len(),
        after.len() == before.len(),
        forall|k: int| 0 <= k < before.len() && !(start <= k < mid) ==> after[k] == before[k],
    ensures
        after.subrange(mid, end).to_multiset() == before.subrange(mid, end).to_multiset(),
{
    assert(after.subrange(mid, end) =~= before.subrange(mid, end));
}

/// The scan of a concatenation, past the first part, is the scan of the
/// second part.
proof fn lemma_fold_tail(
    s1: Seq<Object>,
    s2: Seq<Object>,
    k: int,
    r: Ray,
    t_min: Fx,
    cur: Fx,
    best: Option<HitRecord>,
)
    requires
        0 <= k <= s2.len(),
    ensures
        list_hit_from(s1 + s2, s1.len() + k, r, t_min, cur, best) == list_hit_from(
            s2,
            k,
            r,
            t_min,
            cur,
            best,
        ),
    decreases s2.len() - k,
{
    if k < s2.len() {
        assert((s1 + s2)[s1.len() + k] == s2[k]);
        match object_hit_spec(s2[k], r, t_min, cur) {
            Some(h) => {
                lemma_fold_tail(s1, s2, k + 1, r, t_min, h.t, Some(h));
            },
            None => {
                lemma_fold_tail(s1, s2, k + 1, r, t_min, cur, best);
            },
        }
    }
}

/// Scanning a concatenation equals scanning the first part and continuing
/// through the second with the tightened state.
proof fn lemma_fold_concat(
    s1: Seq<Object>,
    s2: Seq<Object>,
    i: int,
    r: Ray,
    t_min: Fx,
    cur: Fx,
    best: Option<HitRecord>,
)
    requires
        0 <= i <= s1.len(),
        best matches Some(b) ==> b.t == cur,
    ensures
        list_hit_from(s1 + s2, i, r, t_min, cur, best) == (match list_hit_from(
            s1,
            i,
            r,
            t_min,
            cur,
            best,
        ) {
            Some(h) => list_hit_from(s2, 0, r, t_min, h.t, Some(h)),
            None => list_hit_from(s2, 0, r, t_min, cur, None),
        }),
    decreases s1.len() - i,
{
    if i < s1.len() {
        assert((s1 + s2)[i] == s1[i]);
        match object_hit_spec(s1[i], r, t_min, cur) {
            Some(h) => {
                lemma_fold_concat(s1, s2, i + 1, r, t_min, h.t, Some(h));
                lemma_fold_some(s1, i + 1, r, t_min, h.t, h);
            },
            None => {
                lemma_fold_concat(s1, s2, i + 1, r, t_min, cur, best);
            },
        }
    } else {
        lemma_fold_tail(s1, s2, 0, r, t_min, cur, best);
        assert(list_hit_from(s1, i, r, t_min, cur, best) == best);
        match best {
            Some(b) => {
                assert(b.t == cur);
            },
            None => {},
        }
    }
}

/// A scan that starts with a hit in hand always ends with a hit in hand.
proof fn lemma_fold_some(
    s: Seq<Object>,
    i: int,
    r: Ray,
    t_min: Fx,
    cur: Fx,
    h0: HitRecord,
)
    requires
        0 <= i <= s.len(),
    ensures
        list_hit_from(s, i, r, t_min, cur, Some(h0)) is Some,
    decreases s.len() - i,
{
    if i < s.len() {
        match object_hit_spec(s[i], r, t_min, cur) {
            Some(h) => {
                lemma_fold_some(s, i + 1, r, t_min, h.t, h);
            },
            None => {
                lemma_fold_some(s, i + 1, r, t_min, cur, h0);
            },
        }
    }
}

/// The starting best hit only matters when the scan finds nothing.
proof fn lemma_fold_init(
    s: Seq<Object>,
    i: int,
    r: Ray,
    t_min: Fx,
    cur: Fx,
    h0: HitRecord,
)
    requires
        0 <= i <= s.len(),
    ensures
        list_hit_from(s, i, r, t_min, cur, Some(h0)) == (match list_hit_from(
            s,
            i,
            r,
            t_min,
            cur,
            None,
        ) {
            Some(x) => Some(x),
            None => Some(h0),
        }),
    decreases s.len() - i,
{
    if i < s.len() {
        match object_hit_spec(s[i], r, t_min, cur) {
            Some(h) => {
                lemma_fold_some(s, i + 1, r, t_min, h.t, h);
            },
            None => {
                lemma_fold_init(s, i + 1, r, t_min, cur, h0);
            },
        }
    }
}

/// Coverage over an interval implies coverage over every tighter one.
proof fn lemma_covers_mono_node(n: BvhNode, r: Ray, t_min: Fx, ta: Fx, tb: Fx)
    requires
        n.covers(r, t_min, tb),
        ta.v() <= tb.v(),
    ensures
        n.covers(r, t_min, ta),
    decreases n,
{
    lemma_covers_mono_child(n.left, r, t_min, ta, tb);
    lemma_covers_mono_child(n.right, r, t_min, ta, tb);
}

proof fn lemma_covers_mono_child(c: BvhChild, r: Ray, t_min: Fx, ta: Fx, tb: Fx)
    requires
        c.covers(r, t_min, tb),
        ta.v() <= tb.v(),
    ensures
        c.covers(r, t_min, ta),
    decreases c,
{
    match c {
        BvhChild::Leaf(o) => {},
        BvhChild::Node(n) => {
            lemma_covers_mono_node(*n, r, t_min, ta, tb);
        },
    }
}

/// When its boxes cover the query, a subtree's traversal equals the
/// brute-force scan of its leaves.
proof fn lemma_child_fold(c: BvhChild, r: Ray, t_min: Fx, t_max: Fx)
    requires
        c.covers(r, t_min, t_max),
    ensures
        c.hit_spec(r, t_min, t_max) == list_hit_spec(c.leaves(), r, t_min, t_max),
    decreases c,
{
    match c {
        BvhChild::Leaf(o) => {
            assert(seq![o][0] == o);
            match object_hit_spec(o, r, t_min, t_max) {
                Some(h) => {
                    assert(list_hit_from(seq![o], 1, r, t_min, h.t, Some(h)) == Some(h));
                },
                None => {
                    assert(list_hit_from(seq![o], 1, r, t_min, t_max, None::<HitRecord>)
                        == None::<HitRecord>);
                },
            }
        },
        BvhChild::Node(n) => {
            lemma_node_fold(*n, r, t_min, t_max);
        },
    }
}

/// When its boxes cover the query, a node's traversal equals the
/// brute-force scan of its leaves: pruning on a missed box discards
/// nothing, and tightening the right query to the left hit keeps exactly
/// the closer hits.
#[verifier::rlimit(100)]
proof fn lemma_node_fold(n: BvhNode, r: Ray, t_min: Fx, t_max: Fx)
    requires
        n.covers(r, t_min, t_max),
    ensures
        n.hit_spec(r, t_min, t_max) == list_hit_spec(n.leaves(), r, t_min, t_max),
    decreases n,
{
    if !slab_hit(n.bounds, r, t_min.v(), t_max.v()) {
        assert(list_hit_spec(n.leaves(), r, t_min, t_max) == None::<HitRecord>);
    } else {
        lemma_child_fold(n.left, r, t_min, t_max);
        lemma_fold_concat(
            n.left.leaves(),
            n.right.leaves(),
            0,
            r,
            t_min,
            t_max,
            None::<HitRecord>,
        );
        match n.left.hit_spec(r, t_min, t_max) {
            Some(h) => {
                crate::hittable_list::lemma_list_nearest(n.left.leaves(), r, t_min, t_max);
                lemma_covers_mono_child(n.right, r, t_min, h.t, t_max);
                lemma_child_fold(n.right, r, t_min, h.t);
                lemma_fold_init(n.right.leaves(), 0, r, t_min, h.t, h);
            },
            None => {
                lemma_child_fold(n.right, r, t_min, t_max);
            },
        }
    }
}

/// No two distinct objects report hits at the same parameter over this
/// interval.
pub open spec fn distinct_hit_times(objs: Seq<Object>, r: Ray, t_min: Fx, t_max: Fx) -> bool {
    forall|i: int, j: int|
        0 <= i < objs.len() && 0 <= j < objs.len() && i != j ==> !((#[trigger] object_hit_spec(
            objs[i],
            r,
            t_min,
            t_max,
        )) matches Some(g) && (#[trigger] object_hit_spec(objs[j], r, t_min, t_max)) matches Some(
            g2,
        ) && g.t == g2.t)
}

/// An element of a sequence appears in any sequence with the same
/// multiset.
proof fn lemma_ms_elem(s1: Seq<Object>, s2: Seq<Object>, k: int)
    requires
        0 <= k < s1.len(),
        s1.to_multiset() == s2.to_multiset(),
    ensures
        exists|j: int| 0 <= j < s2.len() && s2[j] == s1[k],
{
    broadcast use vstd::seq_lib::group_to_multiset_ensures;

    assert(s1.contains(s1[k]));
    assert(s2.to_multiset().count(s1[k]) > 0);
    assert(s2.contains(s1[k]));
}

/// Brute-force scans of two lists holding the same objects agree: both
/// miss together, and when they hit, they hit at the same parameter; with
/// no ties among hit parameters they return the very same record.
#[verifier::rlimit(100)]
proof fn lemma_fold_permutation(s1: Seq<Object>, s2: Seq<Object>, r: Ray, t_min: Fx, t_max: Fx)
    requires
        s1.to_multiset() == s2.to_multiset(),
    ensures
        (list_hit_spec(s1, r, t_min, t_max) is Some) == (list_hit_spec(s2, r, t_min, t_max)
            is Some),
        list_hit_spec(s1, r, t_min, t_max) matches Some(h) ==> (list_hit_spec(
            s2,
            r,
            t_min,
            t_max,
        ) matches Some(g) && h.t == g.t),
        distinct_hit_times(s2, r, t_min, t_max) ==> list_hit_spec(s1, r, t_min, t_max)
            == list_hit_spec(s2, r, t_min, t_max),
{
    crate::hittable_list::lemma_list_nearest(s1, r, t_min, t_max);
    crate::hittable_list::lemma_list_nearest(s2, r, t_min, t_max);
    match list_hit_spec(s1, r, t_min, t_max) {
        Some(h1) => {
            let k1 = choose|k: int|
                0 <= k < s1.len() && object_hit_spec(#[trigger] s1[k], r, t_min, t_max) == Some(
                    h1,
                );
            lemma_ms_elem(s1, s2, k1);
            let j1 = choose|j: int| 0 <= j < s2.len() && s2[j] == s1[k1];
            assert(object_hit_spec(s2[j1], r, t_min, t_max) == Some(h1));
            match list_hit_spec(s2, r, t_min, t_max) {
                Some(h2) => {
                    assert(h2.t.v() <= h1.t.v());
                    let k2 = choose|k: int|
                        0 <= k < s2.len() && object_hit_spec(#[trigger] s2[k], r, t_min, t_max)
                            == Some(h2);
                    lemma_ms_elem(s2, s1, k2);
                    let j2 = choose|j: int| 0 <= j < s1.len() && s1[j] == s2[k2];
                    assert(object_hit_spec(s1[j2], r, t_min, t_max) == Some(h2));
                    assert(h1.t.v() <= h2.t.v());
                    assert(h1.t == h2.t);
                    if distinct_hit_times(s2, r, t_min, t_max) {
                        if j1 != k2 {
                            assert(!(object_hit_spec(s2[j1], r, t_min, t_max) matches Some(g)
                                && object_hit_spec(s2[k2], r, t_min, t_max) matches Some(g2)
                                && g.t == g2.t));
                            assert(false);
                        }
                        assert(h1 == h2);
                    }
                },
                None => {
                    assert(object_hit_spec(s2[j1], r, t_min, t_max) == None::<HitRecord>);
                    assert(false);
                },
            }
        },
        None => {
            match list_hit_spec(s2, r, t_min, t_max) {
                Some(h2) => {
                    let k2 = choose|k: int|
                        0 <= k < s2.len() && object_hit_spec(#[trigger] s2[k], r, t_min, t_max)
                            == Some(h2);
                    lemma_ms_elem(s2, s1, k2);
                    let j2 = choose|j: int| 0 <= j < s1.len() && s1[j] == s2[k2];
                    assert(object_hit_spec(s1[j2], r, t_min, t_max) == None::<HitRecord>);
                    assert(false);
                },
                None => {},
            }
        },
    }
}

/// Nearest-hit equivalence of the hierarchy and the brute-force list:
/// provided the cached boxes cover the query (every pruned subtree truly
/// has no hit in the pruned interval), the hierarchy reports a hit exactly
/// when the list scan does, at the same parameter; and when no two objects
/// hit at the same parameter, the very same record.
///
/// The coverage premise is taken as a hypothesis rather than proved from
/// the build: cached boxes are exact combines of the children's boxes
/// ([`BvhNode::bounds_linked`]), but showing that the rounded slab
/// quotients of such a box never miss a rounded intersection root is an
/// error-analysis argument this crate does not carry out. Ties follow the
/// scan's rule — the earlier object in scan order wins — so two objects
/// hitting at the exact same parameter can differ between the two
/// traversal orders; the `distinct_hit_times` premise excludes that.
pub proof fn lemma_bvh_matches_list(n: BvhNode, objs: Seq<Object>, r: Ray, t_min: Fx, t_max: Fx)
    requires
        n.covers(r, t_min, t_max),
        leaves_equiv(n.leaves(), objs),
    ensures
        (n.hit_spec(r, t_min, t_max) is Some) == (list_hit_spec(objs, r, t_min, t_max) is Some),
        n.hit_spec(r, t_min, t_max) matches Some(h) ==> (list_hit_spec(
            objs,
            r,
            t_min,
            t_max,
        ) matches Some(g) && h.t == g.t),
        distinct_hit_times(objs, r, t_min, t_max) ==> n.hit_spec(r, t_min, t_max)
            == list_hit_spec(objs, r, t_min, t_max),
{
    lemma_node_fold(n, r, t_min, t_max);
    let leaves = n.leaves();
    if leaves.to_multiset() == objs.to_multiset() {
        lemma_fold_permutation(leaves, objs, r, t_min, t_max);
    } else {
        let o = objs[0];
        assert(objs =~= seq![o]);
        assert(leaves =~= seq![o, o]);
        let lv = seq![o, o];
        let sv = seq![o];
        assert(lv.len() == 2 && lv[0] == o && lv[1] == o);
        assert(sv.len() == 1 && sv[0] == o);
        match object_hit_spec(o, r, t_min, t_max) {
            Some(h) => {
                lemma_object_restrict(o, r, t_min, h.t, t_max);
                lemma_object_in_range(o, r, t_min, t_max);
                assert(object_hit_spec(o, r, t_min, h.t) == None::<HitRecord>);
                assert(list_hit_from(lv, 2, r, t_min, h.t, Some(h)) == Some(h));
                assert(list_hit_from(lv, 1, r, t_min, h.t, Some(h)) == Some(h));
                assert(list_hit_from(lv, 0, r, t_min, t_max, None::<HitRecord>) == Some(h));
                assert(list_hit_from(sv, 1, r, t_min, h.t, Some(h)) == Some(h));
                assert(list_hit_from(sv, 0, r, t_min, t_max, None::<HitRecord>) == Some(h));
            },
            None => {
                assert(list_hit_from(lv, 2, r, t_min, t_max, None::<HitRecord>) == None::<
                    HitRecord,
                >);
                assert(list_hit_from(lv, 1, r, t_min, t_max, None::<HitRecord>) == None::<
                    HitRecord,
                >);
                assert(list_hit_from(lv, 0, r, t_min, t_max, None::<HitRecord>) == None::<
                    HitRecord,
                >);
                assert(list_hit_from(sv, 1, r, t_min, t_max, None::<HitRecord>) == None::<
                    HitRecord,
                >);
                assert(list_hit_from(sv, 0, r, t_min, t_max, None::<HitRecord>) == None::<
                    HitRecord,
                >);
            },
        }
    }
}

} // verus!
