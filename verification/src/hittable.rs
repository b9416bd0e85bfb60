//! The surface-hit record: parametric distance, world point, oriented unit
//! normal, facing flag, and the index of the material that was hit.
use crate::aabb::AABB;
use crate::fixed::iabs;
use crate::fixed::Fx;
use crate::moving_sphere::msphere_box;
use crate::moving_sphere::msphere_hit_spec;
use crate::moving_sphere::msphere_wf;
use crate::moving_sphere::MovingSphere;
use crate::ray::ray_wf;
use crate::ray::Ray;
use crate::ray::PARAM_MAG;
use crate::sphere::sphere_box;
use crate::sphere::sphere_hit_spec;
use crate::sphere::sphere_wf;
use crate::sphere::Sphere;
use crate::vec3::bounded;
use crate::vec3::dot_v;
use crate::vec3::Vec3;
use crate::vec3::GEOM_MAG;
use vstd::prelude::*;

verus! {

#[derive(Clone, Copy, Debug, PartialEq, Eq, Structural)]
pub struct HitRecord {
    /// Parametric distance along the ray.
    pub t: Fx,
    /// World-space point of the hit.
    pub p: Vec3,
    /// Unit normal, always oriented against the incoming ray.
    pub normal: Vec3,
    /// Whether the geometric (outward) normal faced the ray.
    pub front_face: bool,
    /// Index of the hit surface's material in the scene's material arena.
    pub material: usize,
}

/// The negation of a vector whose components fit after negation.
pub open spec fn vneg(v: Vec3) -> Vec3 {
    Vec3 {
        x: Fx { raw: (-v.x.v()) as i64 },
        y: Fx { raw: (-v.y.v()) as i64 },
        z: Fx { raw: (-v.z.v()) as i64 },
    }
}

/// The record built from a hit at parameter `t`, point `p` and outward
/// normal: the stored normal is flipped to face the incoming ray, and
/// `front_face` says whether the outward normal already did.
pub open spec fn record_v(t: Fx, p: Vec3, outward: Vec3, r: Ray, material: usize) -> HitRecord {
    let ff = dot_v(r.direction, outward) < 0;
    HitRecord {
        t,
        p,
        normal: if ff {
            outward
        } else {
            vneg(outward)
        },
        front_face: ff,
        material,
    }
}

/// The closed family of surfaces the scene can hold. Dispatch is by
/// variant; every variant answers the same intersection and bounding-box
/// questions.
#[derive(Clone, Copy, Debug, PartialEq, Eq, Structural)]
pub enum Object {
    Sphere(Sphere),
    MovingSphere(MovingSphere),
}

pub open spec fn object_wf(o: Object) -> bool {
    match o {
        Object::Sphere(s) => sphere_wf(s),
        Object::MovingSphere(m) => msphere_wf(m),
    }
}

/// What intersecting the object returns.
pub open spec fn object_hit_spec(o: Object, r: Ray, t_min: Fx, t_max: Fx) -> Option<HitRecord> {
    match o {
        Object::Sphere(s) => sphere_hit_spec(s.center, s.radius, s.material, r, t_min, t_max),
        Object::MovingSphere(m) => msphere_hit_spec(m, r, t_min, t_max),
    }
}

/// The object's bounding box over a time interval.
pub open spec fn object_box_spec(o: Object, t0: int, t1: int) -> Option<AABB> {
    match o {
        Object::Sphere(s) => Some(sphere_box(s)),
        Object::MovingSphere(m) => msphere_box(m, t0, t1),
    }
}

impl Object {
    pub fn hit(&self, r: &Ray, t_min: Fx, t_max: Fx) -> (res: Option<HitRecord>)
        requires
            ray_wf(*r),
            object_wf(*self),
            -PARAM_MAG <= t_min.v(),
            t_max.v() <= PARAM_MAG,
        ensures
            res == object_hit_spec(*self, *r, t_min, t_max),
    {
        match self {
            Object::Sphere(s) => s.hit(r, t_min, t_max),
            Object::MovingSphere(m) => m.hit(r, t_min, t_max),
        }
    }

    pub fn bounding_box(&self, t0: Fx, t1: Fx) -> (res: Option<AABB>)
        requires
            object_wf(*self),
            iabs(t0.v()) <= PARAM_MAG,
            iabs(t1.v()) <= PARAM_MAG,
        ensures
            res == object_box_spec(*self, t0.v(), t1.v()),
    {
        match self {
            Object::Sphere(s) => s.bounding_box(t0, t1),
            Object::MovingSphere(m) => m.bounding_box(t0, t1),
        }
    }
}

/// The object's box over the interval, or the degenerate default box when
/// it reports none (a construction anomaly, substituted rather than
/// fatal).
pub open spec fn box_or_default_spec(o: Object, t0: int, t1: int) -> AABB {
    match object_box_spec(o, t0, t1) {
        Some(b) => b,
        None => default_box_spec(),
    }
}

/// The all-zero box.
pub open spec fn default_box_spec() -> AABB {
    AABB {
        min: Vec3 { x: Fx { raw: 0 }, y: Fx { raw: 0 }, z: Fx { raw: 0 } },
        max: Vec3 { x: Fx { raw: 0 }, y: Fx { raw: 0 }, z: Fx { raw: 0 } },
    }
}

/// The object's box over the interval, defaulted when missing.
pub fn box_or_default(o: &Object, t0: Fx, t1: Fx) -> (b: AABB)
    requires
        object_wf(*o),
        iabs(t0.v()) <= PARAM_MAG,
        iabs(t1.v()) <= PARAM_MAG,
    ensures
        b == box_or_default_spec(*o, t0.v(), t1.v()),
{
    match o.bounding_box(t0, t1) {
        Some(b) => b,
        None => {
            let z = Fx { raw: 0 };
            AABB::new(Vec3::new(z, z, z), Vec3::new(z, z, z))
        },
    }
}

/// When an object reports a hit, its parameter lies strictly inside the
/// queried interval.
pub proof fn lemma_object_in_range(o: Object, r: Ray, t_min: Fx, t_max: Fx)
    ensures
        object_hit_spec(o, r, t_min, t_max) matches Some(h) ==> t_min.v() < h.t.v() < t_max.v(),
{
    match o {
        Object::Sphere(s) => {
            crate::sphere::lemma_sphere_in_range(s.center, s.radius, s.material, r, t_min, t_max);
        },
        Object::MovingSphere(m) => {
            if crate::moving_sphere::msphere_center_fits(m, r.time.v()) {
                crate::sphere::lemma_sphere_in_range(
                    crate::moving_sphere::msphere_center(m, r.time.v()),
                    m.radius,
                    m.material,
                    r,
                    t_min,
                    t_max,
                );
            }
        },
    }
}

/// Shrinking `t_max` keeps exactly the hits whose parameter lies below the
/// new bound; it never creates a hit.
pub proof fn lemma_object_restrict(o: Object, r: Ray, t_min: Fx, ta: Fx, tb: Fx)
    requires
        ta.v() <= tb.v(),
    ensures
        object_hit_spec(o, r, t_min, ta) == (match object_hit_spec(o, r, t_min, tb) {
            Some(h) => if h.t.v() < ta.v() {
                Some(h)
            } else {
                None::<HitRecord>
            },
            None => None::<HitRecord>,
        }),
{
    match o {
        Object::Sphere(s) => {
            crate::sphere::lemma_sphere_restrict(s.center, s.radius, s.material, r, t_min, ta, tb);
        },
        Object::MovingSphere(m) => {
            if crate::moving_sphere::msphere_center_fits(m, r.time.v()) {
                crate::sphere::lemma_sphere_restrict(
                    crate::moving_sphere::msphere_center(m, r.time.v()),
                    m.radius,
                    m.material,
                    r,
                    t_min,
                    ta,
                    tb,
                );
            }
        },
    }
}

/// The material index stored on an object.
pub open spec fn object_material(o: Object) -> usize {
    match o {
        Object::Sphere(s) => s.material,
        Object::MovingSphere(m) => m.material,
    }
}

/// Every record an object reports is geometrically tame and carries the
/// object's own material index.
pub proof fn lemma_object_record_props(o: Object, r: Ray, t_min: Fx, t_max: Fx)
    requires
        ray_wf(r),
        iabs(t_min.v()) <= PARAM_MAG,
        iabs(t_max.v()) <= PARAM_MAG,
    ensures
        object_hit_spec(o, r, t_min, t_max) matches Some(h) ==> {
            &&& bounded(h.normal, 4 * crate::fixed::SCALE)
            &&& bounded(h.p, 0x41_0000_0000_0000)
            &&& h.material == object_material(o)
            &&& t_min.v() < h.t.v() < t_max.v()
        },
{
    match o {
        Object::Sphere(s) => {
            crate::sphere::lemma_sphere_record_props(
                s.center,
                s.radius,
                s.material,
                r,
                t_min,
                t_max,
            );
        },
        Object::MovingSphere(m) => {
            if crate::moving_sphere::msphere_center_fits(m, r.time.v()) {
                crate::sphere::lemma_sphere_record_props(
                    crate::moving_sphere::msphere_center(m, r.time.v()),
                    m.radius,
                    m.material,
                    r,
                    t_min,
                    t_max,
                );
            }
        },
    }
}

impl HitRecord {
    pub fn new(t: Fx, p: Vec3, outward_normal: Vec3, r: Ray, material: usize) -> (res:
        HitRecord)
        requires
            bounded(outward_normal, GEOM_MAG as int),
            bounded(r.direction, GEOM_MAG as int),
        ensures
            res == record_v(t, p, outward_normal, r, material),
    {
        let d: Fx = r.direction.dot(outward_normal);
        let front_face: bool = d.raw < 0;
        let normal: Vec3 = if front_face {
            outward_normal
        } else {
            outward_normal.neg()
        };
        HitRecord { t, p, normal, front_face, material }
    }
}

} // verus!
