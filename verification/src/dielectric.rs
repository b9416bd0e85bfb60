//! Dielectric (refractive) scattering: total internal reflection when
//! Snell's law has no solution, otherwise a probabilistic choice between
//! reflection and refraction weighted by the Schlick approximation of
//! Fresnel reflectance. A dielectric never absorbs light: every ray with
//! a non-zero direction scatters, and the attenuation is always the unit
//! color (the zero direction has no refraction or reflection image and is
//! the one absorbed input).
use crate::fixed::fxdiv;
use crate::fixed::fxmul;
use crate::fixed::fxsqrt;
use crate::fixed::iabs;
use crate::fixed::Fx;
use crate::fixed::SCALE;
use crate::hittable::vneg;
use crate::hittable::HitRecord;
use crate::material::hit_for_scatter;
use crate::material::ray_for_scatter;
use crate::ray::Ray;
use crate::utils::random_in_01;
use crate::utils::reflect;
use crate::utils::reflect_c;
use crate::vec3::bounded;
use crate::vec3::dot_v;
use crate::vec3::len_sq_v;
use crate::vec3::unit_dir_v;
use crate::vec3::vec_zero;
use crate::vec3::Vec3;
use vstd::prelude::*;

verus! {

pub struct Dielectric {
    pub refractive_index: Fx,
}

/// A well-formed refractive index is positive and within a factor of
/// sixteen of one, which keeps every intermediate of Snell's law and the
/// Schlick term far from overflow.
pub open spec fn dielectric_wf(d: Dielectric) -> bool {
    4096 <= d.refractive_index.v() <= 0x10_0000
}

/// The refraction ratio: the reciprocal index when entering the surface,
/// the index itself when leaving.
pub open spec fn eta_v(d: Dielectric, front_face: bool) -> int {
    if front_face {
        fxdiv(SCALE as int, d.refractive_index.v())
    } else {
        d.refractive_index.v()
    }
}

/// The incidence cosine: the dot of the reversed unit direction with the
/// normal, clamped to at most one.
pub open spec fn diel_cos_v(ud: Vec3, n: Vec3) -> int {
    let c = dot_v(vneg(ud), n);
    if c > SCALE {
        SCALE as int
    } else {
        c
    }
}

/// The incidence sine, from `sqrt(1 - cos^2)` with the radicand clamped
/// to zero when rounding drives it negative.
pub open spec fn diel_sin_v(cos: int) -> int {
    let s2 = SCALE - fxmul(cos, cos);
    if s2 < 0 {
        0
    } else {
        fxsqrt(s2)
    }
}

/// Total internal reflection: the scaled sine leaves the unit range.
pub open spec fn diel_tir_v(eta: int, cos: int) -> bool {
    fxmul(eta, diel_sin_v(cos)) > SCALE
}

/// The Schlick base reflectance `((1 - eta) / (1 + eta))^2`.
pub open spec fn schlick_r0_v(eta: int) -> int {
    let r = fxdiv(SCALE - eta, SCALE + eta);
    fxmul(r, r)
}

/// The fifth power on the fixed-point grid.
pub open spec fn pow5_v(x: int) -> int {
    fxmul(fxmul(fxmul(fxmul(x, x), x), x), x)
}

/// The Schlick reflectance `r0 + (1 - r0) (1 - cos)^5`.
pub open spec fn schlick_v(cos: int, eta: int) -> int {
    let r0 = schlick_r0_v(eta);
    r0 + fxmul(SCALE - r0, pow5_v(SCALE - cos))
}

/// The direction is the mirror reflection of `ud` about `n`.
pub open spec fn is_reflect_dir(dir: Vec3, ud: Vec3, n: Vec3) -> bool {
    &&& dir.x.v() == reflect_c(ud.x.v(), ud, n, n.x.v())
    &&& dir.y.v() == reflect_c(ud.y.v(), ud, n, n.y.v())
    &&& dir.z.v() == reflect_c(ud.z.v(), ud, n, n.z.v())
}

/// One component of the parallel part of the refracted direction:
/// `eta * (ud + cos * n)`.
pub open spec fn refract_par_c(udc: int, nc: int, cos: int, eta: int) -> int {
    fxmul(udc + fxmul(nc, cos), eta)
}

/// The magnitude of the perpendicular part: `sqrt(1 - |parallel|^2)`,
/// clamped at zero.
pub open spec fn refract_perp_mag(ud: Vec3, n: Vec3, cos: int, eta: int) -> int {
    let px = refract_par_c(ud.x.v(), n.x.v(), cos, eta);
    let py = refract_par_c(ud.y.v(), n.y.v(), cos, eta);
    let pz = refract_par_c(ud.z.v(), n.z.v(), cos, eta);
    let par = Vec3 { x: Fx { raw: px as i64 }, y: Fx { raw: py as i64 }, z: Fx { raw: pz as i64 } };
    let s2 = SCALE - len_sq_v(par);
    if s2 < 0 {
        0
    } else {
        fxsqrt(s2)
    }
}

/// The direction refracts `ud` through the surface with ratio `eta`.
pub open spec fn is_refract_dir(dir: Vec3, ud: Vec3, n: Vec3, cos: int, eta: int) -> bool {
    let pm = refract_perp_mag(ud, n, cos, eta);
    &&& dir.x.v() == refract_par_c(ud.x.v(), n.x.v(), cos, eta) + fxmul(n.x.v(), -pm)
    &&& dir.y.v() == refract_par_c(ud.y.v(), n.y.v(), cos, eta) + fxmul(n.y.v(), -pm)
    &&& dir.z.v() == refract_par_c(ud.z.v(), n.z.v(), cos, eta) + fxmul(n.z.v(), -pm)
}

/// What a dielectric scatter returns: a ray for every non-zero incoming
/// direction, never absorbing, with unit attenuation; the ray
/// reflects whenever total internal reflection forces it, and otherwise
/// either reflects or refracts (a Schlick-weighted random draw decides).
pub open spec fn dielectric_post(
    d: Dielectric,
    r_in: Ray,
    hit: HitRecord,
    res: Option<(Ray, Vec3)>,
) -> bool {
    &&& ((res is Some) <==> !vec_zero(r_in.direction))
    &&& (res matches Some(pair) ==> {
        let ud = unit_dir_v(r_in.direction);
        let eta = eta_v(d, hit.front_face);
        let cos = diel_cos_v(ud, hit.normal);
        &&& pair.1 == (Vec3 {
            x: Fx { raw: SCALE },
            y: Fx { raw: SCALE },
            z: Fx { raw: SCALE },
        })
        &&& pair.0.origin == hit.p
        &&& pair.0.time == r_in.time
        &&& (diel_tir_v(eta, cos) ==> is_reflect_dir(pair.0.direction, ud, hit.normal))
        &&& (is_reflect_dir(pair.0.direction, ud, hit.normal) || is_refract_dir(
            pair.0.direction,
            ud,
            hit.normal,
            cos,
            eta,
        ))
    })
}

impl Dielectric {
    pub fn new(refractive_index: Fx) -> (d: Dielectric)
        ensures
            d.refractive_index == refractive_index,
    {
        Dielectric { refractive_index }
    }

    pub fn scatter(&self, r_in: Ray, hit: &HitRecord, rng: &mut rand::rngs::StdRng) -> (res:
        Option<(Ray, Vec3)>)
        requires
            dielectric_wf(*self),
            hit_for_scatter(*hit),
            ray_for_scatter(r_in),
        ensures
            dielectric_post(*self, r_in, *hit, res),
    {
        if r_in.direction.x.raw == 0 && r_in.direction.y.raw == 0 && r_in.direction.z.raw == 0 {
            return None;
        }
        let eta: Fx = if hit.front_face {
            proof {
                lemma_recip_bound(self.refractive_index.v());
            }
            Fx::one().div(self.refractive_index)
        } else {
            self.refractive_index
        };
        let ud: Vec3 = r_in.direction.unit_dir();
        let neg_ud: Vec3 = ud.neg();
        let c: Fx = neg_ud.dot(hit.normal);
        let cos: Fx = if c.raw > SCALE {
            Fx { raw: SCALE }
        } else {
            c
        };
        proof {
            crate::utils::lemma_dot_small(neg_ud, hit.normal);
            lemma_diel_bounds(cos.v(), eta.v());
        }
        let cos2: Fx = cos.mul(cos);
        let s2: Fx = if SCALE - cos2.raw < 0 {
            Fx { raw: 0 }
        } else {
            Fx { raw: SCALE - cos2.raw }
        };
        let sin: Fx = s2.sqrt();
        proof {
            crate::fixed::lemma_sqrt_floor(s2.v() * SCALE);
            if sin.v() > SCALE {
                crate::fixed::lemma_square_le(0x1_0001int, sin.v());
            }
            lemma_diel_tir_bound(eta.v(), sin.v());
        }
        let tir: bool = eta.mul(sin).raw > SCALE;
        let prob: Fx = reflection_probability(cos, eta);
        let draw: Fx = random_in_01(rng);
        let reflects: bool = tir || draw.raw < prob.raw;
        let white: Vec3 = Vec3::new(Fx { raw: SCALE }, Fx { raw: SCALE }, Fx { raw: SCALE });
        if reflects {
            let reflected: Vec3 = reflect(ud, hit.normal);
            Some((Ray::new(hit.p, reflected, r_in.time), white))
        } else {
            let refracted: Vec3 = refract(ud, hit.normal, cos, eta);
            Some((Ray::new(hit.p, refracted, r_in.time), white))
        }
    }
}

/// Snell refraction of the unit direction about the normal, decomposed
/// into parallel and perpendicular components.
fn refract(ud: Vec3, n: Vec3, cos: Fx, eta: Fx) -> (out: Vec3)
    requires
        bounded(ud, 2 * SCALE),
        bounded(n, 4 * SCALE),
        -0x30_0000 <= cos.v() <= SCALE,
        0 < eta.v() <= 0x10_0000,
    ensures
        is_refract_dir(out, ud, n, cos.v(), eta.v()),
        bounded(out, 0x2000_0000),
{
    proof {
        lemma_refract_bounds(ud, n, cos.v(), eta.v());
    }
    let scaled_n: Vec3 = n.scale(cos);
    let par: Vec3 = ud.add(scaled_n).scale(eta);
    let lp: Fx = par.length_squared();
    let s2: Fx = if SCALE - lp.raw < 0 {
        Fx { raw: 0 }
    } else {
        Fx { raw: SCALE - lp.raw }
    };
    let pm: Fx = s2.sqrt();
    proof {
        crate::fixed::lemma_sqrt_floor(s2.v() * SCALE);
        if pm.v() > SCALE {
            crate::fixed::lemma_square_le(0x1_0001int, pm.v());
        }
        if s2.v() == 0 {
            assert(0int * SCALE == 0) by (nonlinear_arith);
            crate::fixed::lemma_sqrt_unique(0, 0);
        }
        assert(pm.v() == refract_perp_mag(ud, n, cos.v(), eta.v()));
        lemma_perp_bounds(n.x.v(), pm.v());
        lemma_perp_bounds(n.y.v(), pm.v());
        lemma_perp_bounds(n.z.v(), pm.v());
    }
    let perp: Vec3 = n.scale(pm.neg());
    par.add(perp)
}

/// The Schlick approximation of the reflection probability.
fn reflection_probability(cos: Fx, eta: Fx) -> (p: Fx)
    requires
        -0x30_0000 <= cos.v() <= SCALE,
        0 < eta.v() <= 0x10_0000,
    ensures
        p.v() == schlick_v(cos.v(), eta.v()),
{
    proof {
        lemma_schlick_bounds(cos.v(), eta.v());
    }
    let r: Fx = Fx { raw: SCALE - eta.raw }.div(Fx { raw: SCALE + eta.raw });
    let r0: Fx = r.mul(r);
    let omc: Fx = Fx { raw: SCALE - cos.raw };
    let p5: Fx = omc.mul(omc).mul(omc).mul(omc).mul(omc);
    let rest: Fx = Fx { raw: SCALE - r0.raw }.mul(p5);
    Fx { raw: r0.raw + rest.raw }
}

/// Bounds for the reciprocal of a well-formed refractive index.
proof fn lemma_recip_bound(ri: int)
    requires
        4096 <= ri <= 0x10_0000,
    ensures
        0 < fxdiv(SCALE as int, ri) <= 0x10_0000,
{
    crate::fixed::lemma_tdiv_abs(SCALE as int * SCALE, ri);
    vstd::arithmetic::div_mod::lemma_div_pos_is_pos(SCALE as int * SCALE, ri);
    vstd::arithmetic::div_mod::lemma_div_is_ordered_by_denominator(
        0x1_0000_0000,
        4096,
        ri,
    );
    assert(0x1_0000_0000int / 4096int == 0x10_0000);
    assert(fxdiv(SCALE as int, ri) == 0x1_0000_0000int / ri);
    if fxdiv(SCALE as int, ri) == 0 {
        vstd::arithmetic::div_mod::lemma_fundamental_div_mod(0x1_0000_0000, ri);
        vstd::arithmetic::div_mod::lemma_mod_bound(0x1_0000_0000, ri);
    }
}

/// Magnitude caps for the cosine square and the scaled sine.
proof fn lemma_diel_bounds(cos: int, eta: int)
    requires
        -0x30_0000 <= cos <= SCALE,
        0 < eta <= 0x10_0000,
    ensures
        0 <= fxmul(cos, cos) <= 0x900_0000,
{
    crate::vec3::lemma_fxmul_self_nonneg(cos);
    assert(0x30_0000int * 0x30_0000 <= 0x900_0000int * 65536) by (nonlinear_arith);
    crate::fixed::lemma_fxmul_cap(cos, cos, 0x30_0000, 0x30_0000, 0x900_0000);
}

/// The total-internal-reflection product stays small.
proof fn lemma_diel_tir_bound(eta: int, sin: int)
    requires
        0 < eta <= 0x10_0000,
        0 <= sin <= 0x1_0000,
    ensures
        iabs(fxmul(eta, sin)) <= 0x10_0000,
{
    assert(0x10_0000int * 0x1_0000 <= 0x10_0000int * 65536) by (nonlinear_arith);
    crate::fixed::lemma_fxmul_cap(eta, sin, 0x10_0000, 0x1_0000, 0x10_0000);
}

/// Magnitude caps along the refraction computation.
proof fn lemma_refract_bounds(ud: Vec3, n: Vec3, cos: int, eta: int)
    requires
        bounded(ud, 2 * SCALE),
        bounded(n, 4 * SCALE),
        -0x30_0000 <= cos <= SCALE,
        0 < eta <= 0x10_0000,
    ensures
        iabs(fxmul(n.x.v(), cos)) <= 0xc0_0000,
        iabs(fxmul(n.y.v(), cos)) <= 0xc0_0000,
        iabs(fxmul(n.z.v(), cos)) <= 0xc0_0000,
        iabs(fxmul(ud.x.v() + fxmul(n.x.v(), cos), eta)) <= 0xc20_0000,
        iabs(fxmul(ud.y.v() + fxmul(n.y.v(), cos), eta)) <= 0xc20_0000,
        iabs(fxmul(ud.z.v() + fxmul(n.z.v(), cos), eta)) <= 0xc20_0000,
{
    assert(0x4_0000int * 0x30_0000 <= 0xc0_0000int * 65536) by (nonlinear_arith);
    crate::fixed::lemma_fxmul_cap(n.x.v(), cos, 0x4_0000, 0x30_0000, 0xc0_0000);
    crate::fixed::lemma_fxmul_cap(n.y.v(), cos, 0x4_0000, 0x30_0000, 0xc0_0000);
    crate::fixed::lemma_fxmul_cap(n.z.v(), cos, 0x4_0000, 0x30_0000, 0xc0_0000);
    assert(0xc2_0000int * 0x10_0000 <= 0xc20_0000int * 65536) by (nonlinear_arith);
    crate::fixed::lemma_fxmul_cap(
        ud.x.v() + fxmul(n.x.v(), cos),
        eta,
        0xc2_0000,
        0x10_0000,
        0xc20_0000,
    );
    crate::fixed::lemma_fxmul_cap(
        ud.y.v() + fxmul(n.y.v(), cos),
        eta,
        0xc2_0000,
        0x10_0000,
        0xc20_0000,
    );
    crate::fixed::lemma_fxmul_cap(
        ud.z.v() + fxmul(n.z.v(), cos),
        eta,
        0xc2_0000,
        0x10_0000,
        0xc20_0000,
    );
}

/// The perpendicular component of a refraction is at most four units.
proof fn lemma_perp_bounds(nc: int, pm: int)
    requires
        iabs(nc) <= 4 * SCALE,
        0 <= pm <= SCALE,
    ensures
        iabs(fxmul(nc, -pm)) <= 0x4_0000,
{
    assert(0x4_0000int * 0x1_0000 <= 0x4_0000int * 65536) by (nonlinear_arith);
    crate::fixed::lemma_fxmul_cap(nc, -pm, 0x4_0000, 0x1_0000, 0x4_0000);
}

/// Magnitude caps along the Schlick computation.
proof fn lemma_schlick_bounds(cos: int, eta: int)
    requires
        -0x30_0000 <= cos <= SCALE,
        0 < eta <= 0x10_0000,
    ensures
        iabs(fxdiv(SCALE - eta, SCALE + eta)) <= SCALE,
        0 <= fxmul(fxdiv(SCALE - eta, SCALE + eta), fxdiv(SCALE - eta, SCALE + eta)) <= SCALE,
        iabs(fxmul(SCALE - cos, SCALE - cos)) <= 0x1000_0000,
        iabs(fxmul(fxmul(SCALE - cos, SCALE - cos), SCALE - cos)) <= 0x4_0000_0000,
        iabs(fxmul(fxmul(fxmul(SCALE - cos, SCALE - cos), SCALE - cos), SCALE - cos))
            <= 0x100_0000_0000,
        iabs(pow5_v(SCALE - cos)) <= 0x4000_0000_0000,
        iabs(fxmul(SCALE - schlick_r0_v(eta), pow5_v(SCALE - cos))) <= 0x8000_0000_0000,
{
    let r = fxdiv(SCALE - eta, SCALE + eta);
    crate::fixed::lemma_tdiv_abs((SCALE - eta) * SCALE, SCALE + eta);
    assert(iabs(SCALE - eta) <= SCALE + eta);
    assert(iabs((SCALE - eta) * SCALE) == iabs(SCALE - eta) * SCALE) by (nonlinear_arith)
        requires
            0 < SCALE,
    ;
    assert(iabs(SCALE - eta) * SCALE <= (SCALE + eta) * SCALE) by (nonlinear_arith)
        requires
            iabs(SCALE - eta) <= SCALE + eta,
            0 < SCALE,
    ;
    vstd::arithmetic::div_mod::lemma_div_is_ordered(
        iabs((SCALE - eta) * SCALE),
        (SCALE + eta) * SCALE,
        SCALE + eta,
    );
    vstd::arithmetic::div_mod::lemma_div_by_multiple(SCALE as int, SCALE + eta);
    assert((SCALE + eta) * SCALE == SCALE as int * (SCALE + eta)) by (nonlinear_arith);
    assert(0x1_0000int * 0x1_0000 <= 0x1_0000int * 65536) by (nonlinear_arith);
    crate::fixed::lemma_fxmul_cap(r, r, 0x1_0000, 0x1_0000, 0x1_0000);
    crate::vec3::lemma_fxmul_self_nonneg(r);
    let x = SCALE - cos;
    assert(0x40_0000int * 0x40_0000 <= 0x1000_0000int * 65536) by (nonlinear_arith);
    crate::fixed::lemma_fxmul_cap(x, x, 0x40_0000, 0x40_0000, 0x1000_0000);
    assert(0x1000_0000int * 0x40_0000 <= 0x4_0000_0000int * 65536) by (nonlinear_arith);
    crate::fixed::lemma_fxmul_cap(fxmul(x, x), x, 0x1000_0000, 0x40_0000, 0x4_0000_0000);
    assert(0x4_0000_0000int * 0x40_0000 <= 0x100_0000_0000int * 65536) by (nonlinear_arith);
    crate::fixed::lemma_fxmul_cap(
        fxmul(fxmul(x, x), x),
        x,
        0x4_0000_0000,
        0x40_0000,
        0x100_0000_0000,
    );
    assert(0x100_0000_0000int * 0x40_0000 <= 0x4000_0000_0000int * 65536) by (nonlinear_arith);
    crate::fixed::lemma_fxmul_cap(
        fxmul(fxmul(fxmul(x, x), x), x),
        x,
        0x100_0000_0000,
        0x40_0000,
        0x4000_0000_0000,
    );
    assert(0x2_0000int * 0x4000_0000_0000 <= 0x8000_0000_0000int * 65536) by (nonlinear_arith);
    crate::fixed::lemma_fxmul_cap(
        SCALE - schlick_r0_v(eta),
        pow5_v(x),
        0x2_0000,
        0x4000_0000_0000,
        0x8000_0000_0000,
    );
}

/// At normal incidence (`cos == 1`) total internal reflection never
/// occurs and the Schlick reflectance collapses to its base term `r0`:
/// the sine vanishes, so nothing forces a reflection, and the
/// `(1 - cos)^5` correction is exactly zero.
pub proof fn lemma_dielectric_normal_incidence(eta: int)
    requires
        0 < eta,
    ensures
        !diel_tir_v(eta, SCALE as int),
        schlick_v(SCALE as int, eta) == schlick_r0_v(eta),
{
    assert(SCALE == 65536);
    assert(65536int * 65536int == 0x1_0000_0000int) by (nonlinear_arith);
    crate::fixed::lemma_tdiv_abs(65536int * 65536int, 65536);
    vstd::arithmetic::div_mod::lemma_div_by_multiple(65536, 65536);
    assert(fxmul(SCALE as int, SCALE as int) == 65536);
    assert(diel_sin_v(SCALE as int) == 0) by {
        assert(SCALE - fxmul(SCALE as int, SCALE as int) == 0);
        crate::fixed::lemma_sqrt_unique(0, 0);
        assert(0int * SCALE == 0) by (nonlinear_arith);
    }
    assert(eta * 0 == 0) by (nonlinear_arith);
    crate::fixed::lemma_tdiv_abs(0, 65536);
    vstd::arithmetic::div_mod::lemma_div_of0(65536);
    assert(fxmul(eta, 0) == 0);
    let x = SCALE as int - SCALE as int;
    assert(x == 0);
    assert(0int * 0int == 0) by (nonlinear_arith);
    assert(fxmul(0, 0) == 0);
    assert(pow5_v(0) == 0);
    assert((SCALE - schlick_r0_v(eta)) * 0 == 0) by (nonlinear_arith);
    assert(fxmul(SCALE - schlick_r0_v(eta), 0) == 0);
}

} // verus!
