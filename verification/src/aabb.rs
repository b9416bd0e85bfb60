//! Axis-aligned bounding boxes: the slab intersection test and the union
//! ("combine") operator.
//!
//! [`AABB::hit`]'s contract is the brute-force statement of the slab test:
//! the ray's parameter interval meets the box if and only if the largest
//! per-axis entry parameter stays below the smallest per-axis exit
//! parameter, with an axis whose direction component is zero contributing
//! only the demand that the origin lie inside that slab.
use crate::fixed::fxdiv;
use crate::fixed::iabs;
use crate::fixed::lemma_tdiv_abs;
use crate::fixed::Fx;
use crate::fixed::SCALE;
use crate::ray::ray_wf;
use crate::ray::Ray;
use crate::ray::WORLD_MAG;
use crate::vec3::bounded;
use crate::vec3::Vec3;
use vstd::prelude::*;

verus! {

pub open spec fn imin(a: int, b: int) -> int {
    if a <= b {
        a
    } else {
        b
    }
}

pub open spec fn imax(a: int, b: int) -> int {
    if a >= b {
        a
    } else {
        b
    }
}

#[derive(Clone, Copy, Debug, PartialEq, Eq, Structural)]
pub struct AABB {
    pub min: Vec3,
    pub max: Vec3,
}

/// A well-formed box keeps its corners within four times the world's
/// magnitude budget (an object's box can stick out past its center by its
/// radius, and unions only tighten from there).
pub open spec fn aabb_wf(b: AABB) -> bool {
    bounded(b.min, 4 * (WORLD_MAG as int)) && bounded(b.max, 4 * (WORLD_MAG as int))
}

/// The point lies inside the box (inclusive on every face).
pub open spec fn contains_v(b: AABB, p: Vec3) -> bool {
    &&& b.min.x.v() <= p.x.v() <= b.max.x.v()
    &&& b.min.y.v() <= p.y.v() <= b.max.y.v()
    &&& b.min.z.v() <= p.z.v() <= b.max.z.v()
}

/// The parameter at which the ray enters the slab `[lo, hi]` on one axis
/// (meaningful only when `d != 0`).
pub open spec fn axis_entry(lo: int, hi: int, o: int, d: int) -> int {
    if d < 0 {
        fxdiv(hi - o, d)
    } else {
        fxdiv(lo - o, d)
    }
}

/// The parameter at which the ray leaves the slab `[lo, hi]` on one axis.
pub open spec fn axis_exit(lo: int, hi: int, o: int, d: int) -> int {
    if d < 0 {
        fxdiv(lo - o, d)
    } else {
        fxdiv(hi - o, d)
    }
}

/// An axis whose direction component is zero intersects its slab exactly
/// when the origin lies inside it.
pub open spec fn zero_axes_ok(b: AABB, r: Ray) -> bool {
    &&& r.direction.x.v() == 0 ==> b.min.x.v() <= r.origin.x.v() <= b.max.x.v()
    &&& r.direction.y.v() == 0 ==> b.min.y.v() <= r.origin.y.v() <= b.max.y.v()
    &&& r.direction.z.v() == 0 ==> b.min.z.v() <= r.origin.z.v() <= b.max.z.v()
}

/// The largest entry parameter: `t0` tightened by every axis the ray
/// actually crosses.
pub open spec fn slab_lo(b: AABB, r: Ray, t0: int) -> int {
    let mx = if r.direction.x.v() != 0 {
        imax(t0, axis_entry(b.min.x.v(), b.max.x.v(), r.origin.x.v(), r.direction.x.v()))
    } else {
        t0
    };
    let mxy = if r.direction.y.v() != 0 {
        imax(mx, axis_entry(b.min.y.v(), b.max.y.v(), r.origin.y.v(), r.direction.y.v()))
    } else {
        mx
    };
    if r.direction.z.v() != 0 {
        imax(mxy, axis_entry(b.min.z.v(), b.max.z.v(), r.origin.z.v(), r.direction.z.v()))
    } else {
        mxy
    }
}

/// The smallest exit parameter: `t1` tightened by every axis the ray
/// actually crosses.
pub open spec fn slab_hi(b: AABB, r: Ray, t1: int) -> int {
    let mx = if r.direction.x.v() != 0 {
        imin(t1, axis_exit(b.min.x.v(), b.max.x.v(), r.origin.x.v(), r.direction.x.v()))
    } else {
        t1
    };
    let mxy = if r.direction.y.v() != 0 {
        imin(mx, axis_exit(b.min.y.v(), b.max.y.v(), r.origin.y.v(), r.direction.y.v()))
    } else {
        mx
    };
    if r.direction.z.v() != 0 {
        imin(mxy, axis_exit(b.min.z.v(), b.max.z.v(), r.origin.z.v(), r.direction.z.v()))
    } else {
        mxy
    }
}

/// Brute-force per-axis interval intersection: the ray meets the box over
/// `(t0, t1)` exactly when every zero-direction axis pins the origin inside
/// its slab and the tightened interval is non-empty.
pub open spec fn slab_hit(b: AABB, r: Ray, t0: int, t1: int) -> bool {
    zero_axes_ok(b, r) && slab_lo(b, r, t0) < slab_hi(b, r, t1)
}

/// A per-axis slab quotient stays well inside the `i64` range.
proof fn lemma_axis_div_bound(a: int, d: int)
    requires
        iabs(a) <= 0x2_0000_0000,
        d != 0,
    ensures
        iabs(fxdiv(a, d)) <= 0x2_0000_0000_0000,
{
    crate::fixed::lemma_mul_mag(a, SCALE as int, 0x2_0000_0000, SCALE as int);
    lemma_tdiv_abs(a * SCALE, d);
    vstd::arithmetic::div_mod::lemma_div_nonincreasing(iabs(a * SCALE), iabs(d));
}

impl AABB {
    pub fn new(min: Vec3, max: Vec3) -> (r: AABB)
        ensures
            r.min == min && r.max == max,
    {
        AABB { min, max }
    }

    pub fn min(&self) -> (r: Vec3)
        ensures
            r == self.min,
    {
        self.min
    }

    pub fn max(&self) -> (r: Vec3)
        ensures
            r == self.max,
    {
        self.max
    }

    /// The tight box containing both inputs: componentwise minimum of the
    /// minima and maximum of the maxima.
    pub fn combine(&self, other: AABB) -> (r: AABB)
        ensures
            r.min.x.v() == imin(self.min.x.v(), other.min.x.v()),
            r.min.y.v() == imin(self.min.y.v(), other.min.y.v()),
            r.min.z.v() == imin(self.min.z.v(), other.min.z.v()),
            r.max.x.v() == imax(self.max.x.v(), other.max.x.v()),
            r.max.y.v() == imax(self.max.y.v(), other.max.y.v()),
            r.max.z.v() == imax(self.max.z.v(), other.max.z.v()),
    {
        let small = Vec3::new(
            self.min.x.min(other.min.x),
            self.min.y.min(other.min.y),
            self.min.z.min(other.min.z),
        );
        let big = Vec3::new(
            self.max.x.max(other.max.x),
            self.max.y.max(other.max.y),
            self.max.z.max(other.max.z),
        );
        AABB::new(small, big)
    }

    /// Slab test: tighten `[t_min, t_max]` axis by axis, rejecting as soon
    /// as the interval empties. The contract equates this with the
    /// brute-force per-axis interval intersection [`slab_hit`].
    pub fn hit(&self, r: &Ray, t_min: Fx, t_max: Fx) -> (res: bool)
        requires
            aabb_wf(*self),
            ray_wf(*r),
        ensures
            res == slab_hit(*self, *r, t_min.v(), t_max.v()),
    {
        let mut lo: Fx = t_min;
        let mut hi: Fx = t_max;

        if r.direction.x.raw == 0 {
            if r.origin.x.raw < self.min.x.raw || r.origin.x.raw > self.max.x.raw {
                return false;
            }
        } else {
            proof {
                lemma_axis_div_bound(self.min.x.v() - r.origin.x.v(), r.direction.x.v());
                lemma_axis_div_bound(self.max.x.v() - r.origin.x.v(), r.direction.x.v());
            }
            let mut t0: Fx = self.min.x.sub(r.origin.x).div(r.direction.x);
            let mut t1: Fx = self.max.x.sub(r.origin.x).div(r.direction.x);
            if r.direction.x.raw < 0 {
                let t = t0;
                t0 = t1;
                t1 = t;
            }
            if t0.raw > lo.raw {
                lo = t0;
            }
            if t1.raw < hi.raw {
                hi = t1;
            }
        }
        if hi.raw <= lo.raw {
            return false;
        }

        if r.direction.y.raw == 0 {
            if r.origin.y.raw < self.min.y.raw || r.origin.y.raw > self.max.y.raw {
                return false;
            }
        } else {
            proof {
                lemma_axis_div_bound(self.min.y.v() - r.origin.y.v(), r.direction.y.v());
                lemma_axis_div_bound(self.max.y.v() - r.origin.y.v(), r.direction.y.v());
            }
            let mut t0: Fx = self.min.y.sub(r.origin.y).div(r.direction.y);
            let mut t1: Fx = self.max.y.sub(r.origin.y).div(r.direction.y);
            if r.direction.y.raw < 0 {
                let t = t0;
                t0 = t1;
                t1 = t;
            }
            if t0.raw > lo.raw {
                lo = t0;
            }
            if t1.raw < hi.raw {
                hi = t1;
            }
        }
        if hi.raw <= lo.raw {
            return false;
        }

        if r.direction.z.raw == 0 {
            if r.origin.z.raw < self.min.z.raw || r.origin.z.raw > self.max.z.raw {
                return false;
            }
        } else {
            proof {
                lemma_axis_div_bound(self.min.z.v() - r.origin.z.v(), r.direction.z.v());
                lemma_axis_div_bound(self.max.z.v() - r.origin.z.v(), r.direction.z.v());
            }
            let mut t0: Fx = self.min.z.sub(r.origin.z).div(r.direction.z);
            let mut t1: Fx = self.max.z.sub(r.origin.z).div(r.direction.z);
            if r.direction.z.raw < 0 {
                let t = t0;
                t0 = t1;
                t1 = t;
            }
            if t0.raw > lo.raw {
                lo = t0;
            }
            if t1.raw < hi.raw {
                hi = t1;
            }
        }
        if hi.raw <= lo.raw {
            return false;
        }

        true
    }
}

/// The combined box contains every point of either input box.
pub proof fn lemma_combine_contains(a: AABB, b: AABB, c: AABB, p: Vec3)
    requires
        c.min.x.v() == imin(a.min.x.v(), b.min.x.v()),
        c.min.y.v() == imin(a.min.y.v(), b.min.y.v()),
        c.min.z.v() == imin(a.min.z.v(), b.min.z.v()),
        c.max.x.v() == imax(a.max.x.v(), b.max.x.v()),
        c.max.y.v() == imax(a.max.y.v(), b.max.y.v()),
        c.max.z.v() == imax(a.max.z.v(), b.max.z.v()),
        contains_v(a, p) || contains_v(b, p),
    ensures
        contains_v(c, p),
{
}

} // verus!
