//! The background palette.
use crate::fixed::Fx;
use crate::fixed::SCALE;
use crate::vec3::Vec3;
use vstd::prelude::*;

verus! {

pub fn white() -> (c: Vec3)
    ensures
        c.x.v() == SCALE && c.y.v() == SCALE && c.z.v() == SCALE,
{
    Vec3::new(Fx { raw: SCALE }, Fx { raw: SCALE }, Fx { raw: SCALE })
}

/// The sky color `(0.5, 0.7, 1)` on the fixed-point grid.
pub fn sky_blue() -> (c: Vec3)
    ensures
        c.x.v() == 32768 && c.y.v() == 45875 && c.z.v() == SCALE,
{
    Vec3::new(Fx { raw: 32768 }, Fx { raw: 45875 }, Fx { raw: SCALE })
}

} // verus!
