//! A sphere whose center moves linearly between two keyframe positions
//! over a time interval; intersection reduces to the stationary sphere
//! evaluated at the ray's time-interpolated center.
use crate::aabb::imax;
use crate::aabb::imin;
use crate::aabb::AABB;
use crate::fixed::fxdiv;
use crate::fixed::fxmul;
use crate::fixed::iabs;
use crate::fixed::lemma_mul_mag;
use crate::fixed::lemma_tdiv_abs;
use crate::fixed::tdiv_i128;
use crate::fixed::Fx;
use crate::fixed::SCALE;
use crate::hittable::HitRecord;
use crate::ray::ray_wf;
use crate::ray::Ray;
use crate::ray::PARAM_MAG;
use crate::ray::WORLD_MAG;
use crate::sphere::sphere_box;
use crate::sphere::sphere_hit_spec;
use crate::sphere::sphere_intersect;
use crate::sphere::Sphere;
use crate::vec3::bounded;
use crate::vec3::Vec3;
use vstd::prelude::*;

verus! {

#[derive(Clone, Copy, Debug, PartialEq, Eq, Structural)]
pub struct MovingSphere {
    pub center0: Vec3,
    pub center1: Vec3,
    pub time0: Fx,
    pub time1: Fx,
    pub radius: Fx,
    /// Index into the scene's material arena.
    pub material: usize,
}

pub open spec fn msphere_wf(s: MovingSphere) -> bool {
    &&& bounded(s.center0, WORLD_MAG as int)
    &&& bounded(s.center1, WORLD_MAG as int)
    &&& iabs(s.time0.v()) <= WORLD_MAG
    &&& iabs(s.time1.v()) <= WORLD_MAG
    &&& s.time0.v() != s.time1.v()
    &&& iabs(s.radius.v()) <= WORLD_MAG
    &&& s.radius.v() != 0
}

/// Normalized position of `time` within the keyframe interval.
pub open spec fn msphere_frac(s: MovingSphere, time: int) -> int {
    fxdiv(time - s.time0.v(), s.time1.v() - s.time0.v())
}

/// One component of the interpolated center `c0 + frac * (c1 - c0)`.
pub open spec fn center_at_c(c0: int, c1: int, frac: int) -> int {
    c0 + fxmul(c1 - c0, frac)
}

/// The interpolated center as a vector; meaningful when its components fit.
pub open spec fn msphere_center(s: MovingSphere, time: int) -> Vec3 {
    let f = msphere_frac(s, time);
    Vec3 {
        x: Fx { raw: center_at_c(s.center0.x.v(), s.center1.x.v(), f) as i64 },
        y: Fx { raw: center_at_c(s.center0.y.v(), s.center1.y.v(), f) as i64 },
        z: Fx { raw: center_at_c(s.center0.z.v(), s.center1.z.v(), f) as i64 },
    }
}

/// The interpolated center stays inside the world's magnitude budget; a
/// ray time far outside the keyframe interval can violate this.
pub open spec fn msphere_center_fits(s: MovingSphere, time: int) -> bool {
    let f = msphere_frac(s, time);
    &&& iabs(center_at_c(s.center0.x.v(), s.center1.x.v(), f)) <= WORLD_MAG
    &&& iabs(center_at_c(s.center0.y.v(), s.center1.y.v(), f)) <= WORLD_MAG
    &&& iabs(center_at_c(s.center0.z.v(), s.center1.z.v(), f)) <= WORLD_MAG
}

/// What intersecting the moving sphere returns: the stationary-sphere
/// result at the interpolated center, or no hit if that center has left
/// the world bounds (a numerically degenerate configuration).
pub open spec fn msphere_hit_spec(s: MovingSphere, r: Ray, t_min: Fx, t_max: Fx) -> Option<
    HitRecord,
> {
    if msphere_center_fits(s, r.time.v()) {
        sphere_hit_spec(msphere_center(s, r.time.v()), s.radius, s.material, r, t_min, t_max)
    } else {
        None
    }
}

/// Bounding box over a time interval: the union of the boxes at the two
/// interval ends, or none if an interpolated center leaves the world.
pub open spec fn msphere_box(s: MovingSphere, t0: int, t1: int) -> Option<AABB> {
    if msphere_center_fits(s, t0) && msphere_center_fits(s, t1) {
        let b0 = sphere_box(
            Sphere { center: msphere_center(s, t0), radius: s.radius, material: s.material },
        );
        let b1 = sphere_box(
            Sphere { center: msphere_center(s, t1), radius: s.radius, material: s.material },
        );
        Some(combine_v(b0, b1))
    } else {
        None
    }
}

/// Spec-level box union, mirroring [`AABB::combine`].
pub open spec fn combine_v(a: AABB, b: AABB) -> AABB {
    AABB {
        min: Vec3 {
            x: Fx { raw: imin(a.min.x.v(), b.min.x.v()) as i64 },
            y: Fx { raw: imin(a.min.y.v(), b.min.y.v()) as i64 },
            z: Fx { raw: imin(a.min.z.v(), b.min.z.v()) as i64 },
        },
        max: Vec3 {
            x: Fx { raw: imax(a.max.x.v(), b.max.x.v()) as i64 },
            y: Fx { raw: imax(a.max.y.v(), b.max.y.v()) as i64 },
            z: Fx { raw: imax(a.max.z.v(), b.max.z.v()) as i64 },
        },
    }
}

/// The interpolation offset `(c1 - c0) * frac / SCALE` is bounded by the
/// magnitude of its dividend.
proof fn lemma_off_bound(dc: int, frac: int)
    requires
        iabs(dc) <= 0x8000_0000,
        iabs(frac) <= 0x101_0000_0000_0000,
    ensures
        iabs(fxmul(dc, frac)) <= 0x100_0000_0000_0000_0000_0000,
{
    lemma_mul_mag(dc, frac, 0x8000_0000, 0x101_0000_0000_0000);
    lemma_tdiv_abs(dc * frac, SCALE as int);
    vstd::arithmetic::div_mod::lemma_div_nonincreasing(iabs(dc * frac), SCALE as int);
}

impl MovingSphere {
    pub fn new(
        center0: Vec3,
        center1: Vec3,
        time0: Fx,
        time1: Fx,
        radius: Fx,
        material: usize,
    ) -> (s: MovingSphere)
        ensures
            s == (MovingSphere { center0, center1, time0, time1, radius, material }),
    {
        MovingSphere { center0, center1, time0, time1, radius, material }
    }

    /// The interpolated center at `time`, when it fits the world bounds.
    pub fn center(&self, time: Fx) -> (c: Vec3)
        requires
            msphere_wf(*self),
            iabs(time.v()) <= PARAM_MAG,
            msphere_center_fits(*self, time.v()),
        ensures
            c == msphere_center(*self, time.v()),
    {
        let (cx, cy, cz) = self.center_raw(time);
        Vec3::new(Fx { raw: cx as i64 }, Fx { raw: cy as i64 }, Fx { raw: cz as i64 })
    }

    /// The interpolated center components, exactly, as wide integers.
    fn center_raw(&self, time: Fx) -> (c: (i128, i128, i128))
        requires
            msphere_wf(*self),
            iabs(time.v()) <= PARAM_MAG,
        ensures
            c.0 == center_at_c(self.center0.x.v(), self.center1.x.v(), msphere_frac(*self, time.v())),
            c.1 == center_at_c(self.center0.y.v(), self.center1.y.v(), msphere_frac(*self, time.v())),
            c.2 == center_at_c(self.center0.z.v(), self.center1.z.v(), msphere_frac(*self, time.v())),
    {
        proof {
            lemma_mul_mag(
                time.v() - self.time0.v(),
                SCALE as int,
                0x100_8000_0000,
                SCALE as int,
            );
            lemma_tdiv_abs(
                (time.v() - self.time0.v()) * SCALE,
                self.time1.v() - self.time0.v(),
            );
            vstd::arithmetic::div_mod::lemma_div_nonincreasing(
                iabs((time.v() - self.time0.v()) * SCALE),
                iabs(self.time1.v() - self.time0.v()),
            );
        }
        let num: i128 = ((time.raw - self.time0.raw) as i128) * (SCALE as i128);
        let frac: i128 = tdiv_i128(num, (self.time1.raw - self.time0.raw) as i128);
        proof {
            lemma_mul_mag(
                self.center1.x.v() - self.center0.x.v(),
                frac as int,
                0x8000_0000,
                0x101_0000_0000_0000,
            );
            lemma_mul_mag(
                self.center1.y.v() - self.center0.y.v(),
                frac as int,
                0x8000_0000,
                0x101_0000_0000_0000,
            );
            lemma_mul_mag(
                self.center1.z.v() - self.center0.z.v(),
                frac as int,
                0x8000_0000,
                0x101_0000_0000_0000,
            );
        }
        let offx: i128 = tdiv_i128(
            ((self.center1.x.raw - self.center0.x.raw) as i128) * frac,
            SCALE as i128,
        );
        let offy: i128 = tdiv_i128(
            ((self.center1.y.raw - self.center0.y.raw) as i128) * frac,
            SCALE as i128,
        );
        let offz: i128 = tdiv_i128(
            ((self.center1.z.raw - self.center0.z.raw) as i128) * frac,
            SCALE as i128,
        );
        proof {
            lemma_off_bound(self.center1.x.v() - self.center0.x.v(), frac as int);
            lemma_off_bound(self.center1.y.v() - self.center0.y.v(), frac as int);
            lemma_off_bound(self.center1.z.v() - self.center0.z.v(), frac as int);
        }
        let cx: i128 = (self.center0.x.raw as i128) + offx;
        let cy: i128 = (self.center0.y.raw as i128) + offy;
        let cz: i128 = (self.center0.z.raw as i128) + offz;
        (cx, cy, cz)
    }

    /// Intersection: the stationary-sphere test at the time-interpolated
    /// center.
    pub fn hit(&self, r: &Ray, t_min: Fx, t_max: Fx) -> (res: Option<HitRecord>)
        requires
            ray_wf(*r),
            msphere_wf(*self),
            -PARAM_MAG <= t_min.v(),
            t_max.v() <= PARAM_MAG,
        ensures
            res == msphere_hit_spec(*self, *r, t_min, t_max),
    {
        let (cx, cy, cz) = self.center_raw(r.time);
        let w: i128 = WORLD_MAG as i128;
        if cx < -w || cx > w || cy < -w || cy > w || cz < -w || cz > w {
            return None;
        }
        let center = Vec3::new(Fx { raw: cx as i64 }, Fx { raw: cy as i64 }, Fx { raw: cz as i64 });
        sphere_intersect(center, self.radius, self.material, r, t_min, t_max)
    }

    /// Bounding box over `[t0, t1]`: the union of the boxes at the two
    /// ends. Reports no box when an interpolated center leaves the world
    /// bounds; callers treat that as a construction anomaly and substitute
    /// a default box.
    pub fn bounding_box(&self, t0: Fx, t1: Fx) -> (res: Option<AABB>)
        requires
            msphere_wf(*self),
            iabs(t0.v()) <= PARAM_MAG,
            iabs(t1.v()) <= PARAM_MAG,
        ensures
            res == msphere_box(*self, t0.v(), t1.v()),
    {
        let (ax, ay, az) = self.center_raw(t0);
        let (bx, by, bz) = self.center_raw(t1);
        let w: i128 = WORLD_MAG as i128;
        if ax < -w || ax > w || ay < -w || ay > w || az < -w || az > w {
            return None;
        }
        if bx < -w || bx > w || by < -w || by > w || bz < -w || bz > w {
            return None;
        }
        let c0 = Vec3::new(Fx { raw: ax as i64 }, Fx { raw: ay as i64 }, Fx { raw: az as i64 });
        let c1 = Vec3::new(Fx { raw: bx as i64 }, Fx { raw: by as i64 }, Fx { raw: bz as i64 });
        let rad: Fx = self.radius.abs();
        let rv: Vec3 = Vec3::new(rad, rad, rad);
        let box0: AABB = AABB::new(c0.sub(rv), c0.add(rv));
        let box1: AABB = AABB::new(c1.sub(rv), c1.add(rv));
        Some(box0.combine(box1))
    }
}

} // verus!
