//! Metal (specular) scattering: the ideal reflection of the normalized
//! incoming direction about the normal, perturbed by `fuzz` times a point
//! in the unit ball. A fuzzy reflection that ends up on the wrong side of
//! the surface is absorbed; the only other absorbed input is the exact
//! zero direction, which has no mirror image.
use crate::fixed::fxmul;
use crate::fixed::lemma_fxmul_zero;
use crate::fixed::Fx;
use crate::fixed::SCALE;
use crate::hittable::HitRecord;
use crate::material::hit_for_scatter;
use crate::material::ray_for_scatter;
use crate::ray::Ray;
use crate::texture::color_wf;
use crate::utils::random_in_unit_sphere;
use crate::utils::reflect;
use crate::utils::reflect_c;
use crate::vec3::bounded;
use crate::vec3::dot_v;
use crate::vec3::len_sq_v;
use crate::vec3::unit_dir_v;
use crate::vec3::vec_zero;
use crate::vec3::zero_vec;
use crate::vec3::Vec3;
use vstd::prelude::*;

verus! {

pub struct Metal {
    pub albedo: Vec3,
    pub fuzziness: Fx,
}

pub open spec fn metal_wf(m: Metal) -> bool {
    color_wf(m.albedo) && 0 <= m.fuzziness.v() <= SCALE
}

/// The scattered direction for the unit-ball sample `uv`: the mirror
/// reflection of the unit incoming direction about the normal, offset by
/// `fuzz` times the sample.
pub open spec fn metal_dir_v(m: Metal, r_in: Ray, hit: HitRecord, uv: Vec3) -> Vec3 {
    let ud = unit_dir_v(r_in.direction);
    Vec3 {
        x: Fx {
            raw: (reflect_c(ud.x.v(), ud, hit.normal, hit.normal.x.v()) + fxmul(
                uv.x.v(),
                m.fuzziness.v(),
            )) as i64,
        },
        y: Fx {
            raw: (reflect_c(ud.y.v(), ud, hit.normal, hit.normal.y.v()) + fxmul(
                uv.y.v(),
                m.fuzziness.v(),
            )) as i64,
        },
        z: Fx {
            raw: (reflect_c(ud.z.v(), ud, hit.normal, hit.normal.z.v()) + fxmul(
                uv.z.v(),
                m.fuzziness.v(),
            )) as i64,
        },
    }
}

/// What a metal scatter returns. Absorption happens only for the exact
/// zero incoming direction or a fuzz-perturbed reflection on the wrong
/// side of the surface; in particular a polished metal (`fuzz == 0`) is
/// owed a scatter whenever the mirror direction faces away from the
/// surface. A successful scatter leaves the hit point at the incoming
/// time, in the fuzz-perturbed mirror direction, with the constant albedo.
pub open spec fn metal_post(m: Metal, r_in: Ray, hit: HitRecord, res: Option<(Ray, Vec3)>) -> bool {
    &&& (vec_zero(r_in.direction) ==> res is None)
    &&& (res matches Some(pair) ==> {
        &&& pair.1 == m.albedo
        &&& pair.0.origin == hit.p
        &&& pair.0.time == r_in.time
        &&& dot_v(pair.0.direction, hit.normal) > 0
        &&& exists|uv: Vec3|
            {
                &&& #[trigger] len_sq_v(uv) < SCALE
                &&& bounded(uv, SCALE as int)
                &&& pair.0.direction == metal_dir_v(m, r_in, hit, uv)
            }
    })
    &&& (res is None ==> vec_zero(r_in.direction) || exists|uv: Vec3|
        {
            &&& #[trigger] len_sq_v(uv) < SCALE
            &&& bounded(uv, SCALE as int)
            &&& dot_v(metal_dir_v(m, r_in, hit, uv), hit.normal) <= 0
        })
    &&& ((m.fuzziness.v() == 0 && !vec_zero(r_in.direction) && dot_v(
        metal_dir_v(m, r_in, hit, zero_vec()),
        hit.normal,
    ) > 0) ==> res is Some)
}

impl Metal {
    pub fn new(albedo: Vec3, fuzziness: Fx) -> (m: Metal)
        ensures
            m.albedo == albedo && m.fuzziness == fuzziness,
    {
        Metal { albedo, fuzziness }
    }

    pub fn scatter(&self, r_in: Ray, hit: &HitRecord, rng: &mut rand::rngs::StdRng) -> (res:
        Option<(Ray, Vec3)>)
        requires
            metal_wf(*self),
            hit_for_scatter(*hit),
            ray_for_scatter(r_in),
        ensures
            metal_post(*self, r_in, *hit, res),
    {
        if r_in.direction.x.raw == 0 && r_in.direction.y.raw == 0 && r_in.direction.z.raw == 0 {
            return None;
        }
        let nv: Vec3 = r_in.direction.unit_dir();
        let reflected: Vec3 = reflect(nv, hit.normal);
        let uv: Vec3 = random_in_unit_sphere(rng);
        proof {
            lemma_fuzz_bounds(uv.x.v(), self.fuzziness.v());
            lemma_fuzz_bounds(uv.y.v(), self.fuzziness.v());
            lemma_fuzz_bounds(uv.z.v(), self.fuzziness.v());
        }
        let offset: Vec3 = uv.scale(self.fuzziness);
        let direction: Vec3 = reflected.add(offset);
        let d: Fx = direction.dot(hit.normal);
        proof {
            assert(direction == metal_dir_v(*self, r_in, *hit, uv));
            if self.fuzziness.v() == 0 {
                lemma_fxmul_zero(uv.x.v());
                lemma_fxmul_zero(uv.y.v());
                lemma_fxmul_zero(uv.z.v());
                lemma_fxmul_zero(0);
                assert(metal_dir_v(*self, r_in, *hit, zero_vec()) == direction);
            }
        }
        if d.raw > 0 {
            let res: Option<(Ray, Vec3)> = Some(
                (Ray::new(hit.p, direction, r_in.time), self.albedo),
            );
            proof {
                assert(len_sq_v(uv) < SCALE);
            }
            res
        } else {
            proof {
                assert(len_sq_v(uv) < SCALE);
            }
            None
        }
    }
}

/// The fuzz offset of a unit-ball sample stays within one unit.
proof fn lemma_fuzz_bounds(u: int, fuzz: int)
    requires
        crate::fixed::iabs(u) <= SCALE,
        0 <= fuzz <= SCALE,
    ensures
        crate::fixed::iabs(fxmul(u, fuzz)) <= 0x1_0000,
{
    assert(0x1_0000int * 0x1_0000 <= 0x1_0000int * 65536) by (nonlinear_arith);
    crate::fixed::lemma_fxmul_cap(u, fuzz, 0x1_0000, 0x1_0000, 0x1_0000);
}

} // verus!
