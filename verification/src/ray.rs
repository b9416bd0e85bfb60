//! Rays: an origin, a direction (not necessarily normalized) and a time
//! value used for motion blur.
use crate::fixed::fxmul;
use crate::fixed::iabs;
use crate::fixed::Fx;
use crate::vec3::bounded;
use crate::vec3::Vec3;
use vstd::prelude::*;

verus! {

/// Magnitude limit (in raw units) on scene coordinates, directions and
/// times: about 16384 world units.
pub const WORLD_MAG: i64 = 0x4000_0000;

/// Magnitude limit (in raw units) on ray parameters `t`.
pub const PARAM_MAG: i64 = 0x100_0000_0000;

#[derive(Clone, Copy, Debug, PartialEq, Eq, Structural)]
pub struct Ray {
    pub origin: Vec3,
    pub direction: Vec3,
    pub time: Fx,
}

/// A well-formed ray keeps its origin, direction and time within the
/// world's magnitude budget.
pub open spec fn ray_wf(r: Ray) -> bool {
    &&& bounded(r.origin, WORLD_MAG as int)
    &&& bounded(r.direction, WORLD_MAG as int)
    &&& iabs(r.time.v()) <= WORLD_MAG
}

/// Raw value of one component of the point the ray reaches at parameter
/// `t`: `origin + t * direction`.
pub open spec fn at_v(o: int, d: int, t: int) -> int {
    o + fxmul(d, t)
}

impl Ray {
    pub fn new(origin: Vec3, direction: Vec3, time: Fx) -> (r: Ray)
        ensures
            r.origin == origin && r.direction == direction && r.time == time,
    {
        Ray { origin, direction, time }
    }

    pub fn origin(&self) -> (r: Vec3)
        ensures
            r == self.origin,
    {
        self.origin
    }

    pub fn direction(&self) -> (r: Vec3)
        ensures
            r == self.direction,
    {
        self.direction
    }

    pub fn time(&self) -> (r: Fx)
        ensures
            r == self.time,
    {
        self.time
    }

    /// The point reached at parameter `t`.
    pub fn at(&self, t: Fx) -> (p: Vec3)
        requires
            ray_wf(*self),
            iabs(t.v()) <= PARAM_MAG,
        ensures
            p.x.v() == at_v(self.origin.x.v(), self.direction.x.v(), t.v()),
            p.y.v() == at_v(self.origin.y.v(), self.direction.y.v(), t.v()),
            p.z.v() == at_v(self.origin.z.v(), self.direction.z.v(), t.v()),
            bounded(p, 0x41_0000_0000_0000),
    {
        proof {
            lemma_at_component_bound(self.direction.x.v(), t.v());
            lemma_at_component_bound(self.direction.y.v(), t.v());
            lemma_at_component_bound(self.direction.z.v(), t.v());
        }
        let step: Vec3 = self.direction.scale(t);
        self.origin.add(step)
    }
}

/// Moving along a bounded direction for a bounded parameter stays well
/// inside the `i64` range.
proof fn lemma_at_component_bound(d: int, t: int)
    requires
        iabs(d) <= WORLD_MAG,
        iabs(t) <= PARAM_MAG,
    ensures
        iabs(fxmul(d, t)) <= 0x40_0000_0000_0000,
{
    crate::fixed::lemma_mul_mag(d, t, WORLD_MAG as int, PARAM_MAG as int);
    crate::fixed::lemma_tdiv_abs(d * t, crate::fixed::SCALE as int);
    vstd::arithmetic::div_mod::lemma_div_is_ordered(
        iabs(d * t),
        0x40_0000_0000_0000_0000,
        crate::fixed::SCALE as int,
    );
}

} // verus!
