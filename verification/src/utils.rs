//! Randomness and small numeric helpers.
//!
//! All randomness flows through an explicitly passed `rand::rngs::StdRng`,
//! so a fixed seed reproduces a render bit for bit. The two trusted
//! wrappers below are the only places the crate calls into `rand`; every
//! derived draw (ranges, points in the unit ball or disk, unit vectors) is
//! verified code over the raw 32-bit draws.
use crate::fixed::fxdiv;
use crate::fixed::fxmul;
use crate::fixed::fxsqrt;
use crate::fixed::lemma_sqrt_floor;
use crate::fixed::iabs;
use crate::fixed::tdiv;
use crate::fixed::Fx;
use crate::fixed::SCALE;
use crate::vec3::bounded;
use crate::vec3::dot_v;
use crate::vec3::len_sq_v;
use crate::vec3::Vec3;
use vstd::prelude::*;

verus! {

#[verifier::external_type_specification]
#[verifier::external_body]
pub struct ExStdRng(rand::rngs::StdRng);

/// Relies on rand's `SeedableRng::seed_from_u64` for `StdRng`: builds a
/// deterministic generator from a seed. Nothing is promised of the
/// generator's state.
#[verifier::external_body]
pub(crate) fn seed_rng(seed: u64) -> rand::rngs::StdRng {
    <rand::rngs::StdRng as rand::SeedableRng>::seed_from_u64(seed)
}

/// Relies on rand's `Rng::next_u32`: one draw from the generator. Nothing
/// is promised of the value.
#[verifier::external_body]
pub(crate) fn next_random_u32(rng: &mut rand::rngs::StdRng) -> u32 {
    rand::Rng::next_u32(rng)
}

/// A uniform-ish integer draw in `[lo, hi)`.
pub fn random_int_in_range(rng: &mut rand::rngs::StdRng, lo: u32, hi: u32) -> (r: u32)
    requires
        lo < hi,
    ensures
        lo <= r < hi,
{
    let d: u32 = next_random_u32(rng);
    proof {
        vstd::arithmetic::div_mod::lemma_mod_bound(d as int, (hi - lo) as int);
    }
    lo + d % (hi - lo)
}

/// A draw on the fixed-point grid in `[0, 1)`.
pub fn random_in_01(rng: &mut rand::rngs::StdRng) -> (r: Fx)
    ensures
        0 <= r.v() < SCALE,
{
    let d: u32 = next_random_u32(rng);
    Fx { raw: (d % 65536) as i64 }
}

/// A draw on the fixed-point grid in `[min, max]`.
pub fn random_in_range(rng: &mut rand::rngs::StdRng, min: Fx, max: Fx) -> (r: Fx)
    requires
        min.v() <= max.v(),
        iabs(min.v()) <= 0x1000_0000_0000_0000,
        iabs(max.v()) <= 0x1000_0000_0000_0000,
    ensures
        min.v() <= r.v() <= max.v(),
{
    let lo: u32 = next_random_u32(rng);
    let hi: u32 = next_random_u32(rng);
    let d: u64 = ((hi as u64) << 32) | (lo as u64);
    let span: u64 = (max.raw - min.raw) as u64 + 1;
    proof {
        vstd::arithmetic::div_mod::lemma_mod_bound(d as int, span as int);
    }
    let off: u64 = d % span;
    Fx { raw: min.raw + off as i64 }
}

/// `n` clamped to `[min, max]` (upper bound wins on inverted inputs, as
/// with taking the maximum and then the minimum).
pub fn clamp(n: Fx, min: Fx, max: Fx) -> (r: Fx)
    ensures
        r.v() == if imax_s(n.v(), min.v()) <= max.v() {
            imax_s(n.v(), min.v())
        } else {
            max.v()
        },
{
    n.max(min).min(max)
}

/// Spec-level maximum of two integers.
pub open spec fn imax_s(a: int, b: int) -> int {
    if a >= b {
        a
    } else {
        b
    }
}

/// A rejection-sampled point strictly inside the unit ball. A bounded
/// number of attempts keeps termination provable; after them (probability
/// about `2^-64`) a fixed interior point is returned.
pub fn random_in_unit_sphere(rng: &mut rand::rngs::StdRng) -> (p: Vec3)
    ensures
        bounded(p, SCALE as int),
        len_sq_v(p) < SCALE,
{
    let one: Fx = Fx::one();
    let neg_one: Fx = one.neg();
    let mut attempts: u32 = 0;
    while attempts < 64
        invariant
            one.v() == SCALE,
            neg_one.v() == -SCALE,
        decreases 64 - attempts,
    {
        let p = Vec3::new(
            random_in_range(rng, neg_one, one),
            random_in_range(rng, neg_one, one),
            random_in_range(rng, neg_one, one),
        );
        let ls: Fx = p.length_squared();
        if ls.raw < SCALE {
            return p;
        }
        attempts += 1;
    }
    fallback_interior_point()
}

/// A rejection-sampled point strictly inside the unit disk (`z == 0`).
pub fn random_in_unit_disk(rng: &mut rand::rngs::StdRng) -> (p: Vec3)
    ensures
        bounded(p, SCALE as int),
        len_sq_v(p) < SCALE,
        p.z.v() == 0,
{
    let one: Fx = Fx::one();
    let neg_one: Fx = one.neg();
    let zero: Fx = Fx::zero();
    let mut attempts: u32 = 0;
    while attempts < 64
        invariant
            one.v() == SCALE,
            neg_one.v() == -SCALE,
            zero.v() == 0,
        decreases 64 - attempts,
    {
        let p = Vec3::new(
            random_in_range(rng, neg_one, one),
            random_in_range(rng, neg_one, one),
            zero,
        );
        let ls: Fx = p.length_squared();
        if ls.raw < SCALE {
            return p;
        }
        attempts += 1;
    }
    fallback_interior_point()
}

/// A fixed point strictly inside the unit ball, used when rejection
/// sampling exhausts its attempt budget.
fn fallback_interior_point() -> (p: Vec3)
    ensures
        bounded(p, SCALE as int),
        len_sq_v(p) < SCALE,
        p.z.v() == 0,
        SCALE <= 4 * len_sq_v(p),
{
    let half: Fx = Fx { raw: 32768 };
    let p = Vec3::new(half, Fx::zero(), Fx::zero());
    proof {
        assert(32768int * 32768int == 0x4000_0000int) by (nonlinear_arith);
        assert(SCALE == 65536);
        assert(fxmul(32768, 32768) == 0x4000_0000int / 65536int);
        assert(0x4000_0000int / 65536int == 16384);
        assert(fxmul(0, 0) == 0);
    }
    p
}

/// A vector of length one (up to fixed-point rounding): a rejection
/// sample from the unit-ball shell, scaled up, normalized and clamped to
/// the unit cube. The result always has a component of appreciable size,
/// so it is in particular never the zero vector.
pub fn random_unit_vector(rng: &mut rand::rngs::StdRng) -> (u: Vec3)
    ensures
        bounded(u, SCALE as int),
        iabs(u.x.v()) >= 9362 || iabs(u.y.v()) >= 9362 || iabs(u.z.v()) >= 9362,
{
    let one: Fx = Fx::one();
    let neg_one: Fx = one.neg();
    let mut attempts: u32 = 0;
    while attempts < 64
        invariant
            one.v() == SCALE,
            neg_one.v() == -SCALE,
        decreases 64 - attempts,
    {
        let p = Vec3::new(
            random_in_range(rng, neg_one, one),
            random_in_range(rng, neg_one, one),
            random_in_range(rng, neg_one, one),
        );
        let ls: Fx = p.length_squared();
        if 16384 <= ls.raw && ls.raw < SCALE {
            return normalize_shell_sample(p);
        }
        attempts += 1;
    }
    let p: Vec3 = fallback_interior_point();
    normalize_shell_sample(p)
}

/// Normalizes a unit-ball shell sample (squared length in `[1/4, 1)`):
/// scale up by sixteen (exact), normalize, and clamp each component to
/// one unit. Some component of the result is at least `9362` raw units
/// (about a seventh of a unit).
fn normalize_shell_sample(p: Vec3) -> (u: Vec3)
    requires
        bounded(p, SCALE as int),
        SCALE <= 4 * len_sq_v(p),
        len_sq_v(p) < SCALE,
    ensures
        bounded(u, SCALE as int),
        iabs(u.x.v()) >= 9362 || iabs(u.y.v()) >= 9362 || iabs(u.z.v()) >= 9362,
{
    let sixteen: Fx = Fx { raw: 0x10_0000 };
    proof {
        lemma_scale16(p.x.v());
        lemma_scale16(p.y.v());
        lemma_scale16(p.z.v());
    }
    let q: Vec3 = p.scale(sixteen);
    proof {
        lemma_len_sq_scale16(p, q);
    }
    let n: Vec3 = q.norm();
    proof {
        lemma_shell_component(p, q, fxsqrt(len_sq_v(q)));
    }
    Vec3 {
        x: clamp_unit(n.x),
        y: clamp_unit(n.y),
        z: clamp_unit(n.z),
    }
}

/// Clamp one component to the unit interval, preserving sign and any
/// sub-unit magnitude.
fn clamp_unit(x: Fx) -> (r: Fx)
    ensures
        iabs(r.v()) <= SCALE,
        iabs(r.v()) == if iabs(x.v()) <= SCALE {
            iabs(x.v())
        } else {
            SCALE as int
        },
{
    if x.raw > SCALE {
        Fx { raw: SCALE }
    } else if x.raw < -SCALE {
        Fx { raw: -SCALE }
    } else {
        x
    }
}

/// A shell sample scaled by sixteen keeps a large component after
/// normalization: some scaled component is at least four units, the
/// fixed-point magnitude is under twenty-eight units, so the quotient of
/// that component by the magnitude is at least `9362` raw units.
proof fn lemma_shell_component(p: Vec3, q: Vec3, m: int)
    requires
        bounded(p, SCALE as int),
        SCALE <= 4 * len_sq_v(p),
        q.x.v() == 16 * p.x.v(),
        q.y.v() == 16 * p.y.v(),
        q.z.v() == 16 * p.z.v(),
        m == fxsqrt(len_sq_v(q)),
        SCALE <= len_sq_v(q),
    ensures
        1 <= m,
        iabs(fxdiv(q.x.v(), m)) >= 9362 || iabs(fxdiv(q.y.v(), m)) >= 9362 || iabs(
            fxdiv(q.z.v(), m),
        ) >= 9362,
{
    crate::vec3::lemma_fxmul_self_nonneg(p.x.v());
    crate::vec3::lemma_fxmul_self_nonneg(p.y.v());
    crate::vec3::lemma_fxmul_self_nonneg(p.z.v());
    // some term of the squared length is at least a twelfth of a unit
    assert(fxmul(p.x.v(), p.x.v()) >= 5462 || fxmul(p.y.v(), p.y.v()) >= 5462 || fxmul(
        p.z.v(),
        p.z.v(),
    ) >= 5462);
    // the fixed-point magnitude of the scaled sample is under 28 units
    assert(0x10_0000int * 0x10_0000 <= 0x100_0000int * 65536) by (nonlinear_arith);
    crate::fixed::lemma_fxmul_cap(q.x.v(), q.x.v(), 0x10_0000, 0x10_0000, 0x100_0000);
    crate::fixed::lemma_fxmul_cap(q.y.v(), q.y.v(), 0x10_0000, 0x10_0000, 0x100_0000);
    crate::fixed::lemma_fxmul_cap(q.z.v(), q.z.v(), 0x10_0000, 0x10_0000, 0x100_0000);
    crate::vec3::lemma_fxmul_self_nonneg(q.x.v());
    crate::vec3::lemma_fxmul_self_nonneg(q.y.v());
    crate::vec3::lemma_fxmul_self_nonneg(q.z.v());
    lemma_sqrt_floor(len_sq_v(q) * SCALE);
    assert(1 <= m) by {
        if m < 1 {
            crate::fixed::lemma_square_le(m + 1, 1int);
            assert(len_sq_v(q) * SCALE >= 65536int * 65536) by (nonlinear_arith)
                requires
                    len_sq_v(q) >= 65536,
                    SCALE == 65536,
            ;
        }
    }
    assert(m <= 28 * 65536 - 1) by {
        if m >= 28 * 65536 {
            crate::fixed::lemma_square_le(28 * 65536int, m);
            assert((28 * 65536int) * (28 * 65536int) > 0x300_0000int * 65536)
                by (nonlinear_arith);
        }
    }
    if fxmul(p.x.v(), p.x.v()) >= 5462 {
        lemma_shell_quotient(p.x.v(), q.x.v(), m);
    } else if fxmul(p.y.v(), p.y.v()) >= 5462 {
        lemma_shell_quotient(p.y.v(), q.y.v(), m);
    } else {
        lemma_shell_quotient(p.z.v(), q.z.v(), m);
    }
}

/// The quotient of a four-unit component by a sub-28-unit magnitude is at
/// least `9362` raw units.
proof fn lemma_shell_quotient(pc: int, qc: int, m: int)
    requires
        fxmul(pc, pc) >= 5462,
        iabs(pc) <= SCALE,
        qc == 16 * pc,
        1 <= m <= 28 * 65536 - 1,
    ensures
        iabs(fxdiv(qc, m)) >= 9362,
{
    // pc^2 >= 5462 * SCALE, so |pc| >= 16384 and |qc| >= 4 units
    assert(pc * pc >= 5462 * 65536) by {
        crate::fixed::lemma_tdiv_abs(pc * pc, SCALE as int);
        assert(pc * pc == iabs(pc * pc)) by (nonlinear_arith);
        vstd::arithmetic::div_mod::lemma_fundamental_div_mod(pc * pc, 65536);
        vstd::arithmetic::div_mod::lemma_mod_bound(pc * pc, 65536);
        assert(pc * pc >= 65536 * 5462) by (nonlinear_arith)
            requires
                pc * pc == 65536 * ((pc * pc) / 65536) + (pc * pc) % 65536,
                (pc * pc) % 65536 >= 0,
                (pc * pc) / 65536 >= 5462,
        ;
    }
    assert(iabs(pc) >= 16384) by {
        if iabs(pc) <= 16383 {
            crate::fixed::lemma_square_le(iabs(pc), 16383int);
            assert(iabs(pc) * iabs(pc) == pc * pc) by (nonlinear_arith);
            assert(16383int * 16383 < 5462int * 65536) by (nonlinear_arith);
        }
    }
    assert(iabs(qc) >= 0x4_0000);
    // |qc| * SCALE >= 4 S^2 >= 9362 * m, so the truncated quotient is big
    crate::fixed::lemma_tdiv_abs(qc * SCALE, m);
    assert(iabs(qc * SCALE) == iabs(qc) * 65536) by (nonlinear_arith)
        requires
            SCALE == 65536,
    ;
    assert(iabs(qc) * 65536 >= 9362 * m) by (nonlinear_arith)
        requires
            iabs(qc) >= 0x4_0000,
            m <= 28 * 65536 - 1,
    ;
    vstd::arithmetic::div_mod::lemma_div_is_ordered(9362 * m, iabs(qc * SCALE), m);
    vstd::arithmetic::div_mod::lemma_div_by_multiple(9362, m);
}

/// Scaling by sixteen units is exact in fixed point.
proof fn lemma_scale16(x: int)
    requires
        iabs(x) <= 0x1_0000_0000,
    ensures
        fxmul(x, 0x10_0000) == 16 * x,
{
    assert(SCALE == 65536);
    crate::fixed::lemma_tdiv_abs(x * 0x10_0000, SCALE as int);
    assert(x * 0x10_0000 == (16 * x) * 65536) by (nonlinear_arith);
    if x >= 0 {
        assert(iabs(x * 0x10_0000) == (16 * x) * 65536);
        vstd::arithmetic::div_mod::lemma_div_by_multiple(16 * x, 65536);
        assert(fxmul(x, 0x10_0000) == iabs(x * 0x10_0000) / 65536int);
    } else {
        assert(iabs(x * 0x10_0000) == (16 * (-x)) * 65536) by (nonlinear_arith)
            requires
                x < 0,
        ;
        vstd::arithmetic::div_mod::lemma_div_by_multiple(16 * (-x), 65536);
        assert(fxmul(x, 0x10_0000) == -(iabs(x * 0x10_0000) / 65536int));
    }
}

/// Scaling a shell sample by 16 lifts its squared length above one unit.
proof fn lemma_len_sq_scale16(p: Vec3, q: Vec3)
    requires
        q.x.v() == 16 * p.x.v(),
        q.y.v() == 16 * p.y.v(),
        q.z.v() == 16 * p.z.v(),
        SCALE <= 4 * len_sq_v(p),
        bounded(p, SCALE as int),
    ensures
        SCALE <= len_sq_v(q),
        bounded(q, 16 * SCALE),
{
    lemma_sq_term_scale(p.x.v());
    lemma_sq_term_scale(p.y.v());
    lemma_sq_term_scale(p.z.v());
}

/// `fxmul(16 x, 16 x) >= 256 fxmul(x, x)`.
proof fn lemma_sq_term_scale(x: int)
    ensures
        fxmul(16 * x, 16 * x) >= 256 * fxmul(x, x),
        fxmul(x, x) >= 0,
{
    assert(SCALE == 65536);
    crate::vec3::lemma_fxmul_self_nonneg(x);
    assert(0 <= x * x) by (nonlinear_arith);
    assert((16 * x) * (16 * x) == 256 * (x * x)) by (nonlinear_arith);
    crate::vec3::lemma_fxmul_self_nonneg(16 * x);
    vstd::arithmetic::div_mod::lemma_fundamental_div_mod(x * x, 65536);
    vstd::arithmetic::div_mod::lemma_mod_bound(x * x, 65536);
    let q = (x * x) / 65536int;
    assert(256 * (x * x) >= (256 * q) * 65536) by (nonlinear_arith)
        requires
            x * x == 65536 * q + (x * x) % 65536int,
            0 <= (x * x) % 65536int,
    ;
    vstd::arithmetic::div_mod::lemma_div_is_ordered(
        (256 * q) * 65536,
        256 * (x * x),
        65536,
    );
    vstd::arithmetic::div_mod::lemma_div_pos_is_pos(q, 1);
    assert(0 <= q) by {
        vstd::arithmetic::div_mod::lemma_div_pos_is_pos(x * x, 65536);
    }
    vstd::arithmetic::div_mod::lemma_div_by_multiple(256 * q, 65536);
    assert(fxmul(16 * x, 16 * x) == ((16 * x) * (16 * x)) / 65536int);
    assert(fxmul(x, x) == q);
}

/// A surface-debugging color: `0.5 * (n + (1, 1, 1))`.
pub fn norm_to_color(norm: Vec3) -> (c: Vec3)
    requires
        bounded(norm, 4 * SCALE),
    ensures
        c.x.v() == fxmul(norm.x.v() + SCALE, 32768),
        c.y.v() == fxmul(norm.y.v() + SCALE, 32768),
        c.z.v() == fxmul(norm.z.v() + SCALE, 32768),
{
    let one: Vec3 = Vec3::splat_units(1);
    let half: Fx = Fx { raw: 32768 };
    proof {
        assert(SCALE == 65536);
        assert(0x50_0000int * 32768 == 0x28_0000int * 65536) by (nonlinear_arith);
        crate::fixed::lemma_fxmul_cap(norm.x.v() + SCALE, 32768, 0x50_0000, 32768, 0x28_0000);
        crate::fixed::lemma_fxmul_cap(norm.y.v() + SCALE, 32768, 0x50_0000, 32768, 0x28_0000);
        crate::fixed::lemma_fxmul_cap(norm.z.v() + SCALE, 32768, 0x50_0000, 32768, 0x28_0000);
    }
    norm.add(one).scale(half)
}

/// Raw value of each component of the ideal reflection of `v` about `n`:
/// `v - 2 (v . n) n`.
pub open spec fn reflect_c(vc: int, v: Vec3, n: Vec3, nc: int) -> int {
    vc - fxmul(nc, 2 * dot_v(v, n))
}

/// Ideal mirror reflection of `v` about the unit normal `n`.
pub fn reflect(v: Vec3, n: Vec3) -> (r: Vec3)
    requires
        bounded(v, 4 * SCALE),
        bounded(n, 4 * SCALE),
    ensures
        r.x.v() == reflect_c(v.x.v(), v, n, n.x.v()),
        r.y.v() == reflect_c(v.y.v(), v, n, n.y.v()),
        r.z.v() == reflect_c(v.z.v(), v, n, n.z.v()),
        bounded(r, 0x200_0000),
{
    let d: Fx = v.dot(n);
    proof {
        lemma_reflect_bounds(v, n);
    }
    let twod: Fx = Fx { raw: 2 * d.raw };
    let offset: Vec3 = n.scale(twod);
    v.sub(offset)
}

/// Bounds for the reflection computation: the doubled dot product of two
/// small vectors is small, as is its product with a normal component.
proof fn lemma_reflect_bounds(v: Vec3, n: Vec3)
    requires
        bounded(v, 4 * SCALE),
        bounded(n, 4 * SCALE),
    ensures
        iabs(dot_v(v, n)) <= 48 * SCALE,
        iabs(fxmul(n.x.v(), 2 * dot_v(v, n))) <= 0x180_0000,
        iabs(fxmul(n.y.v(), 2 * dot_v(v, n))) <= 0x180_0000,
        iabs(fxmul(n.z.v(), 2 * dot_v(v, n))) <= 0x180_0000,
{
    lemma_dot_small(v, n);
    assert(SCALE == 65536);
    assert(0x4_0000int * 0x60_0000 == 0x180_0000int * 65536) by (nonlinear_arith);
    crate::fixed::lemma_fxmul_cap(n.x.v(), 2 * dot_v(v, n), 0x4_0000, 0x60_0000, 0x180_0000);
    crate::fixed::lemma_fxmul_cap(n.y.v(), 2 * dot_v(v, n), 0x4_0000, 0x60_0000, 0x180_0000);
    crate::fixed::lemma_fxmul_cap(n.z.v(), 2 * dot_v(v, n), 0x4_0000, 0x60_0000, 0x180_0000);
}

/// The dot product of two vectors of magnitude at most four units is at
/// most 48 units.
pub proof fn lemma_dot_small(v: Vec3, n: Vec3)
    requires
        bounded(v, 4 * SCALE),
        bounded(n, 4 * SCALE),
    ensures
        iabs(dot_v(v, n)) <= 48 * SCALE,
{
    assert(SCALE == 65536);
    assert(0x4_0000int * 0x4_0000 == 0x10_0000int * 65536) by (nonlinear_arith);
    crate::fixed::lemma_fxmul_cap(v.x.v(), n.x.v(), 0x4_0000, 0x4_0000, 0x10_0000);
    crate::fixed::lemma_fxmul_cap(v.y.v(), n.y.v(), 0x4_0000, 0x4_0000, 0x10_0000);
    crate::fixed::lemma_fxmul_cap(v.z.v(), n.z.v(), 0x4_0000, 0x4_0000, 0x10_0000);
}

impl Vec3 {
    /// A vector with every component drawn from `[0, 1)`.
    pub fn random(rng: &mut rand::rngs::StdRng) -> (v: Vec3)
        ensures
            0 <= v.x.v() < SCALE,
            0 <= v.y.v() < SCALE,
            0 <= v.z.v() < SCALE,
    {
        Vec3::new(random_in_01(rng), random_in_01(rng), random_in_01(rng))
    }

    /// A vector with every component drawn from `[min, max]`.
    pub fn random_in_range(rng: &mut rand::rngs::StdRng, min: Fx, max: Fx) -> (v: Vec3)
        requires
            min.v() <= max.v(),
            iabs(min.v()) <= 0x1000_0000_0000_0000,
            iabs(max.v()) <= 0x1000_0000_0000_0000,
        ensures
            min.v() <= v.x.v() <= max.v(),
            min.v() <= v.y.v() <= max.v(),
            min.v() <= v.z.v() <= max.v(),
    {
        Vec3::new(
            random_in_range(rng, min, max),
            random_in_range(rng, min, max),
            random_in_range(rng, min, max),
        )
    }
}

/// Raw value of the fixed-point approximation of pi.
pub const FX_PI: i64 = 205887;

/// The angle reduced to `[-pi, pi)` by subtracting whole turns.
pub open spec fn reduce_angle_v(x: int) -> int {
    x - ((x + FX_PI) / ((2 * FX_PI) as int)) * (2 * FX_PI)
}

/// Raw value of the truncated Taylor sine of the reduced angle:
/// `y - y^3/6 + y^5/120 - y^7/5040`.
pub open spec fn sin_v(x: int) -> int {
    let y = reduce_angle_v(x);
    let y2 = fxmul(y, y);
    let y3 = fxmul(y2, y);
    let y5 = fxmul(y3, y2);
    let y7 = fxmul(y5, y2);
    y - tdiv(y3, 6) + tdiv(y5, 120) - tdiv(y7, 5040)
}

/// Raw value of the truncated Taylor cosine of the reduced angle:
/// `1 - y^2/2 + y^4/24 - y^6/720`.
pub open spec fn cos_v(x: int) -> int {
    let y = reduce_angle_v(x);
    let y2 = fxmul(y, y);
    let y4 = fxmul(y2, y2);
    let y6 = fxmul(y4, y2);
    SCALE - tdiv(y2, 2) + tdiv(y4, 24) - tdiv(y6, 720)
}

/// The reduced angle stays within one half-turn of zero.
proof fn lemma_reduce_angle(x: int)
    ensures
        -FX_PI <= reduce_angle_v(x) < FX_PI,
{
    let p2 = (2 * FX_PI) as int;
    let q = (x + FX_PI) / p2;
    vstd::arithmetic::div_mod::lemma_fundamental_div_mod(x + FX_PI, p2);
    vstd::arithmetic::div_mod::lemma_mod_bound(x + FX_PI, p2);
    assert(q * p2 == p2 * q) by (nonlinear_arith);
    assert(reduce_angle_v(x) == (x + FX_PI) % p2 - FX_PI);
}

/// Bounds for the Taylor powers of a reduced angle.
proof fn lemma_sin_term_bounds(y: int)
    requires
        -FX_PI <= y <= FX_PI,
    ensures
        iabs(fxmul(y, y)) <= 0x10_0000,
        iabs(fxmul(fxmul(y, y), y)) <= 0x40_0000,
        iabs(fxmul(fxmul(fxmul(y, y), y), fxmul(y, y))) <= 0x400_0000,
        iabs(fxmul(fxmul(fxmul(fxmul(y, y), y), fxmul(y, y)), fxmul(y, y))) <= 0x4000_0000,
        iabs(fxmul(fxmul(y, y), fxmul(y, y))) <= 0x100_0000,
        iabs(fxmul(fxmul(fxmul(y, y), fxmul(y, y)), fxmul(y, y))) <= 0x1000_0000,
{
    assert(0x4_0000int * 0x4_0000 <= 0x10_0000int * 65536) by (nonlinear_arith);
    crate::fixed::lemma_fxmul_cap(y, y, 0x4_0000, 0x4_0000, 0x10_0000);
    let y2 = fxmul(y, y);
    assert(0x10_0000int * 0x4_0000 <= 0x40_0000int * 65536) by (nonlinear_arith);
    crate::fixed::lemma_fxmul_cap(y2, y, 0x10_0000, 0x4_0000, 0x40_0000);
    let y3 = fxmul(y2, y);
    assert(0x40_0000int * 0x10_0000 <= 0x400_0000int * 65536) by (nonlinear_arith);
    crate::fixed::lemma_fxmul_cap(y3, y2, 0x40_0000, 0x10_0000, 0x400_0000);
    let y5 = fxmul(y3, y2);
    assert(0x400_0000int * 0x10_0000 <= 0x4000_0000int * 65536) by (nonlinear_arith);
    crate::fixed::lemma_fxmul_cap(y5, y2, 0x400_0000, 0x10_0000, 0x4000_0000);
    assert(0x10_0000int * 0x10_0000 <= 0x100_0000int * 65536) by (nonlinear_arith);
    crate::fixed::lemma_fxmul_cap(y2, y2, 0x10_0000, 0x10_0000, 0x100_0000);
    let y4 = fxmul(y2, y2);
    assert(0x100_0000int * 0x10_0000 <= 0x1000_0000int * 65536) by (nonlinear_arith);
    crate::fixed::lemma_fxmul_cap(y4, y2, 0x100_0000, 0x10_0000, 0x1000_0000);
}

/// The reduced angle as a fixed-point value.
fn reduce_angle(x: Fx) -> (y: Fx)
    ensures
        y.v() == reduce_angle_v(x.v()),
        -FX_PI <= y.v() < FX_PI,
{
    let k: i128 = crate::fixed::fdiv_i128((x.raw as i128) + (FX_PI as i128), 2 * (FX_PI as i128));
    proof {
        lemma_reduce_angle(x.v());
    }
    let y: i128 = (x.raw as i128) - k * (2 * (FX_PI as i128));
    Fx { raw: y as i64 }
}

/// Truncated Taylor sine: exact on the fixed-point grid per [`sin_v`],
/// and within sixteen units in magnitude.
pub fn sin_approx(x: Fx) -> (r: Fx)
    ensures
        r.v() == sin_v(x.v()),
        iabs(r.v()) <= 0x8000_0000,
{
    let y: Fx = reduce_angle(x);
    proof {
        lemma_sin_term_bounds(y.v());
    }
    let y2: Fx = y.mul(y);
    let y3: Fx = y2.mul(y);
    let y5: Fx = y3.mul(y2);
    let y7: Fx = y5.mul(y2);
    let t3: i128 = crate::fixed::tdiv_i128(y3.raw as i128, 6);
    let t5: i128 = crate::fixed::tdiv_i128(y5.raw as i128, 120);
    let t7: i128 = crate::fixed::tdiv_i128(y7.raw as i128, 5040);
    proof {
        crate::fixed::lemma_tdiv_abs(y3.v(), 6);
        crate::fixed::lemma_tdiv_abs(y5.v(), 120);
        crate::fixed::lemma_tdiv_abs(y7.v(), 5040);
        vstd::arithmetic::div_mod::lemma_div_nonincreasing(iabs(y3.v()), 6);
        vstd::arithmetic::div_mod::lemma_div_nonincreasing(iabs(y5.v()), 120);
        vstd::arithmetic::div_mod::lemma_div_nonincreasing(iabs(y7.v()), 5040);
    }
    let r: i128 = (y.raw as i128) - t3 + t5 - t7;
    Fx { raw: r as i64 }
}

/// Truncated Taylor cosine: exact on the fixed-point grid per [`cos_v`],
/// and within sixteen units in magnitude.
pub fn cos_approx(x: Fx) -> (r: Fx)
    ensures
        r.v() == cos_v(x.v()),
        iabs(r.v()) <= 0x8000_0000,
{
    let y: Fx = reduce_angle(x);
    proof {
        lemma_sin_term_bounds(y.v());
    }
    let y2: Fx = y.mul(y);
    let y4: Fx = y2.mul(y2);
    let y6: Fx = y4.mul(y2);
    let t2: i128 = crate::fixed::tdiv_i128(y2.raw as i128, 2);
    let t4: i128 = crate::fixed::tdiv_i128(y4.raw as i128, 24);
    let t6: i128 = crate::fixed::tdiv_i128(y6.raw as i128, 720);
    proof {
        crate::fixed::lemma_tdiv_abs(y2.v(), 2);
        crate::fixed::lemma_tdiv_abs(y4.v(), 24);
        crate::fixed::lemma_tdiv_abs(y6.v(), 720);
        vstd::arithmetic::div_mod::lemma_div_nonincreasing(iabs(y2.v()), 2);
        vstd::arithmetic::div_mod::lemma_div_nonincreasing(iabs(y4.v()), 24);
        vstd::arithmetic::div_mod::lemma_div_nonincreasing(iabs(y6.v()), 720);
    }
    let r: i128 = (SCALE as i128) - t2 + t4 - t6;
    Fx { raw: r as i64 }
}

} // verus!
