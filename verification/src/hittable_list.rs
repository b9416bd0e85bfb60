//! The brute-force scene container: an unordered list of objects scanned
//! in order, with the running closest-hit distance tightening `t_max` on
//! every successful test.
//!
//! [`lemma_list_nearest`] is the statement that this scan returns the
//! globally nearest hit: the result is some object's hit over the full
//! interval, and no object's hit is closer.
use crate::aabb::AABB;
use crate::fixed::Fx;
use crate::hittable::box_or_default_spec;
use crate::hittable::lemma_object_in_range;
use crate::hittable::lemma_object_restrict;
use crate::hittable::object_hit_spec;
use crate::hittable::object_wf;
use crate::hittable::HitRecord;
use crate::hittable::Object;
use crate::moving_sphere::combine_v;
use crate::ray::ray_wf;
use crate::ray::Ray;
use crate::ray::PARAM_MAG;
use vstd::prelude::*;

verus! {

#[derive(Debug)]
pub struct HittableList {
    pub objects: Vec<Object>,
}

pub open spec fn list_wf(objs: Seq<Object>) -> bool {
    forall|i: int| 0 <= i < objs.len() ==> object_wf(#[trigger] objs[i])
}

/// The scan from index `i` on, carrying the best hit so far and the
/// tightened upper bound.
pub open spec fn list_hit_from(
    objs: Seq<Object>,
    i: int,
    r: Ray,
    t_min: Fx,
    cur_max: Fx,
    best: Option<HitRecord>,
) -> Option<HitRecord>
    decreases objs.len() - i,
{
    if i < 0 || i >= objs.len() {
        best
    } else {
        match object_hit_spec(objs[i], r, t_min, cur_max) {
            Some(h) => list_hit_from(objs, i + 1, r, t_min, h.t, Some(h)),
            None => list_hit_from(objs, i + 1, r, t_min, cur_max, best),
        }
    }
}

/// What scanning the whole list returns.
pub open spec fn list_hit_spec(objs: Seq<Object>, r: Ray, t_min: Fx, t_max: Fx) -> Option<
    HitRecord,
> {
    list_hit_from(objs, 0, r, t_min, t_max, None)
}

/// The box fold from index `i` on: combine every child's box, starting
/// from the accumulator. A child with no box of its own contributes the
/// default (empty) box, a non-fatal construction anomaly.
pub open spec fn list_box_from(
    objs: Seq<Object>,
    i: int,
    t0: int,
    t1: int,
    acc: Option<AABB>,
) -> Option<AABB>
    decreases objs.len() - i,
{
    if i < 0 || i >= objs.len() {
        acc
    } else {
        let b = box_or_default_spec(objs[i], t0, t1);
        let step = match acc {
            None => Some(b),
            Some(a) => Some(combine_v(a, b)),
        };
        list_box_from(objs, i + 1, t0, t1, step)
    }
}

/// The bounding box of the whole list: none exactly when the list is
/// empty, otherwise the fold-combine of every child's (defaulted) box.
pub open spec fn list_box_spec(objs: Seq<Object>, t0: int, t1: int) -> Option<AABB> {
    if objs.len() == 0 {
        None
    } else {
        list_box_from(objs, 0, t0, t1, None)
    }
}

/// `inner` lies inside `outer` on every axis.
pub open spec fn box_inside(inner: AABB, outer: AABB) -> bool {
    &&& outer.min.x.v() <= inner.min.x.v() && inner.max.x.v() <= outer.max.x.v()
    &&& outer.min.y.v() <= inner.min.y.v() && inner.max.y.v() <= outer.max.y.v()
    &&& outer.min.z.v() <= inner.min.z.v() && inner.max.z.v() <= outer.max.z.v()
}

impl HittableList {
    pub fn new() -> (l: HittableList)
        ensures
            l.objects@.len() == 0,
    {
        HittableList { objects: Vec::new() }
    }

    pub fn with_object(object: Object) -> (l: HittableList)
        ensures
            l.objects@ =~= seq![object],
    {
        let mut l = HittableList::new();
        l.add(object);
        l
    }

    pub fn clear(&mut self)
        ensures
            final(self).objects@.len() == 0,
    {
        self.objects.clear();
    }

    pub fn add(&mut self, object: Object)
        ensures
            final(self).objects@ == old(self).objects@.push(object),
    {
        self.objects.push(object);
    }

    /// Scan every object, tightening `t_max` to each successful hit, and
    /// return the last (hence nearest) one found.
    pub fn hit(&self, r: Ray, t_min: Fx, t_max: Fx) -> (res: Option<HitRecord>)
        requires
            list_wf(self.objects@),
            ray_wf(r),
            -PARAM_MAG <= t_min.v(),
            t_max.v() <= PARAM_MAG,
        ensures
            res == list_hit_spec(self.objects@, r, t_min, t_max),
    {
        let ghost objs = self.objects@;
        let mut best: Option<HitRecord> = None;
        let mut cur: Fx = t_max;
        let mut i: usize = 0;
        while i < self.objects.len()
            invariant
                list_wf(objs),
                ray_wf(r),
                -PARAM_MAG <= t_min.v(),
                objs == self.objects@,
                i <= objs.len(),
                cur.v() <= t_max.v() <= PARAM_MAG,
                list_hit_from(objs, i as int, r, t_min, cur, best) == list_hit_spec(
                    objs,
                    r,
                    t_min,
                    t_max,
                ),
            decreases objs.len() - i,
        {
            let o: Object = self.objects[i];
            match o.hit(&r, t_min, cur) {
                Some(h) => {
                    proof {
                        lemma_object_in_range(o, r, t_min, cur);
                    }
                    cur = h.t;
                    best = Some(h);
                },
                None => {},
            }
            i += 1;
        }
        best
    }

    /// The fold-combine of all children's boxes (a box-less child counts
    /// as the default box); none exactly when the list is empty.
    pub fn bounding_box(&self, t0: Fx, t1: Fx) -> (res: Option<AABB>)
        requires
            list_wf(self.objects@),
            crate::fixed::iabs(t0.v()) <= PARAM_MAG,
            crate::fixed::iabs(t1.v()) <= PARAM_MAG,
        ensures
            res == list_box_spec(self.objects@, t0.v(), t1.v()),
            (res is None) <==> self.objects@.len() == 0,
    {
        if self.objects.len() == 0 {
            return None;
        }
        let ghost objs = self.objects@;
        let mut acc: Option<AABB> = None;
        let mut i: usize = 0;
        while i < self.objects.len()
            invariant
                list_wf(objs),
                objs == self.objects@,
                i <= objs.len(),
                crate::fixed::iabs(t0.v()) <= PARAM_MAG,
                crate::fixed::iabs(t1.v()) <= PARAM_MAG,
                i >= 1 ==> acc is Some,
                list_box_from(objs, i as int, t0.v(), t1.v(), acc) == list_box_from(
                    objs,
                    0,
                    t0.v(),
                    t1.v(),
                    None,
                ),
            decreases objs.len() - i,
        {
            let o: Object = self.objects[i];
            let b: AABB = crate::hittable::box_or_default(&o, t0, t1);
            acc = match acc {
                None => Some(b),
                Some(a) => Some(a.combine(b)),
            };
            i += 1;
        }
        acc
    }
}

/// The scan returns the globally nearest hit: when it reports a record,
/// that record is some object's hit over the full interval and no object
/// hits closer; when it reports none, no object hits at all.
pub proof fn lemma_list_nearest(objs: Seq<Object>, r: Ray, t_min: Fx, t_max: Fx)
    ensures
        list_hit_spec(objs, r, t_min, t_max) matches Some(h) ==> {
            &&& t_min.v() < h.t.v() < t_max.v()
            &&& exists|i: int|
                0 <= i < objs.len() && object_hit_spec(#[trigger] objs[i], r, t_min, t_max)
                    == Some(h)
            &&& forall|j: int|
                0 <= j < objs.len() ==> ((#[trigger] object_hit_spec(objs[j], r, t_min, t_max))
                    matches Some(g) ==> h.t.v() <= g.t.v())
        },
        list_hit_spec(objs, r, t_min, t_max) matches None ==> forall|j: int|
            0 <= j < objs.len() ==> object_hit_spec(#[trigger] objs[j], r, t_min, t_max)
                == None::<HitRecord>,
{
    lemma_list_nearest_from(objs, 0, r, t_min, t_max, t_max, None);
}

/// Induction step for [`lemma_list_nearest`], generalized over the scan
/// state: the tightened bound equals the best hit's parameter, the best
/// hit is a full-interval hit of some earlier object, and no earlier
/// object hits closer.
#[verifier::rlimit(100)]
proof fn lemma_list_nearest_from(
    objs: Seq<Object>,
    i: int,
    r: Ray,
    t_min: Fx,
    t_max: Fx,
    cur: Fx,
    best: Option<HitRecord>,
)
    requires
        0 <= i <= objs.len(),
        cur.v() <= t_max.v(),
        best matches None ==> cur == t_max,
        best matches None ==> forall|j: int|
            0 <= j < i ==> object_hit_spec(#[trigger] objs[j], r, t_min, t_max) == None::<
                HitRecord,
            >,
        best matches Some(b) ==> {
            &&& b.t == cur
            &&& t_min.v() < b.t.v() < t_max.v()
            &&& exists|j: int|
                0 <= j < i && object_hit_spec(#[trigger] objs[j], r, t_min, t_max) == Some(b)
            &&& forall|j: int|
                0 <= j < i ==> ((#[trigger] object_hit_spec(objs[j], r, t_min, t_max))
                    matches Some(g) ==> b.t.v() <= g.t.v())
        },
    ensures
        list_hit_from(objs, i, r, t_min, cur, best) matches Some(h) ==> {
            &&& t_min.v() < h.t.v() < t_max.v()
            &&& exists|j: int|
                0 <= j < objs.len() && object_hit_spec(#[trigger] objs[j], r, t_min, t_max)
                    == Some(h)
            &&& forall|j: int|
                0 <= j < objs.len() ==> ((#[trigger] object_hit_spec(objs[j], r, t_min, t_max))
                    matches Some(g) ==> h.t.v() <= g.t.v())
        },
        list_hit_from(objs, i, r, t_min, cur, best) matches None ==> forall|j: int|
            0 <= j < objs.len() ==> object_hit_spec(#[trigger] objs[j], r, t_min, t_max)
                == None::<HitRecord>,
    decreases objs.len() - i,
{
    if i < objs.len() {
        let o = objs[i];
        let oh = object_hit_spec(o, r, t_min, cur);
        lemma_object_restrict(o, r, t_min, cur, t_max);
        lemma_object_in_range(o, r, t_min, cur);
        lemma_object_in_range(o, r, t_min, t_max);
        match oh {
            Some(h) => {
                assert(object_hit_spec(o, r, t_min, t_max) == Some(h));
                assert(h.t.v() < cur.v());
                lemma_list_nearest_from(objs, i + 1, r, t_min, t_max, h.t, Some(h));
            },
            None => {
                if best is None {
                    match object_hit_spec(o, r, t_min, t_max) {
                        Some(g) => {
                            assert(g.t.v() < t_max.v());
                            assert(g.t.v() >= cur.v());
                            assert(false);
                        },
                        None => {},
                    }
                }
                lemma_list_nearest_from(objs, i + 1, r, t_min, t_max, cur, best);
            },
        }
    }
}

/// The list's bounding box contains every child's (defaulted) box.
pub proof fn lemma_list_box_contains(objs: Seq<Object>, t0: int, t1: int)
    ensures
        list_box_spec(objs, t0, t1) matches Some(b) ==> forall|i: int|
            0 <= i < objs.len() ==> box_inside(
                #[trigger] crate::hittable::box_or_default_spec(objs[i], t0, t1),
                b,
            ),
{
    if objs.len() > 0 {
        lemma_list_box_from_contains(objs, 0, t0, t1, None);
    }
}

/// Induction step for [`lemma_list_box_contains`]: the fold result
/// contains the accumulator and every box from `i` on.
proof fn lemma_list_box_from_contains(
    objs: Seq<Object>,
    i: int,
    t0: int,
    t1: int,
    acc: Option<AABB>,
)
    requires
        0 <= i <= objs.len(),
    ensures
        list_box_from(objs, i, t0, t1, acc) matches Some(b) ==> {
            &&& (acc matches Some(a) ==> box_inside(a, b))
            &&& forall|j: int|
                i <= j < objs.len() ==> box_inside(
                    #[trigger] crate::hittable::box_or_default_spec(objs[j], t0, t1),
                    b,
                )
        },
    decreases objs.len() - i,
{
    if i < objs.len() {
        let bi = crate::hittable::box_or_default_spec(objs[i], t0, t1);
        match acc {
            None => {
                lemma_list_box_from_contains(objs, i + 1, t0, t1, Some(bi));
            },
            Some(a) => {
                lemma_list_box_from_contains(objs, i + 1, t0, t1, Some(combine_v(a, bi)));
            },
        }
    }
}

} // verus!
