//! Three-component vector algebra over the fixed-point scalar.
//!
//! Every operation's contract states the exact raw value of each component
//! of the result, through the spec functions [`dot_v`], [`cross_x_v`] and
//! friends; magnitude bounds needed to rule out overflow are carried as
//! explicit `bounded` hypotheses.
use crate::fixed::fxdiv;
use crate::fixed::fxmul;
use crate::fixed::fxsqrt;
use crate::fixed::iabs;
use crate::fixed::lemma_mul_mag;
use crate::fixed::lemma_sqrt_floor;
use crate::fixed::lemma_square_le;
use crate::fixed::lemma_tdiv_abs;
use crate::fixed::Fx;
use crate::fixed::SCALE;
use vstd::prelude::*;

verus! {

/// Magnitude limit (in raw units) under which dot and cross products are
/// free of overflow: three products of such values still fit an `i64`.
pub const GEOM_MAG: i64 = 0x40_0000_0000;

/// Raw magnitude of the fixed-point constant `0.999`, the clamp ceiling
/// used when converting a color channel to 8 bits.
pub const CHANNEL_CLAMP: i64 = 65470;

#[derive(Clone, Copy, Debug, PartialEq, Eq, Structural)]
pub struct Vec3 {
    pub x: Fx,
    pub y: Fx,
    pub z: Fx,
}

/// Every component's raw magnitude is at most `m`.
pub open spec fn bounded(v: Vec3, m: int) -> bool {
    iabs(v.x.v()) <= m && iabs(v.y.v()) <= m && iabs(v.z.v()) <= m
}

/// Raw value of the dot product.
pub open spec fn dot_v(a: Vec3, b: Vec3) -> int {
    fxmul(a.x.v(), b.x.v()) + fxmul(a.y.v(), b.y.v()) + fxmul(a.z.v(), b.z.v())
}

/// Raw value of the squared length.
pub open spec fn len_sq_v(a: Vec3) -> int {
    dot_v(a, a)
}

pub open spec fn cross_x_v(a: Vec3, b: Vec3) -> int {
    fxmul(a.y.v(), b.z.v()) - fxmul(a.z.v(), b.y.v())
}

pub open spec fn cross_y_v(a: Vec3, b: Vec3) -> int {
    fxmul(a.z.v(), b.x.v()) - fxmul(a.x.v(), b.z.v())
}

pub open spec fn cross_z_v(a: Vec3, b: Vec3) -> int {
    fxmul(a.x.v(), b.y.v()) - fxmul(a.y.v(), b.x.v())
}

/// The cross product as a spec vector.
pub open spec fn cross_vec(a: Vec3, b: Vec3) -> Vec3 {
    Vec3 {
        x: Fx { raw: cross_x_v(a, b) as i64 },
        y: Fx { raw: cross_y_v(a, b) as i64 },
        z: Fx { raw: cross_z_v(a, b) as i64 },
    }
}

/// The vector difference as a spec vector.
pub open spec fn sub_vec(a: Vec3, b: Vec3) -> Vec3 {
    Vec3 {
        x: Fx { raw: (a.x.v() - b.x.v()) as i64 },
        y: Fx { raw: (a.y.v() - b.y.v()) as i64 },
        z: Fx { raw: (a.z.v() - b.z.v()) as i64 },
    }
}

/// The normalized vector as a spec value: each component divided by the
/// fixed-point square root of the squared length.
pub open spec fn unit_v(v: Vec3) -> Vec3 {
    Vec3 {
        x: Fx { raw: fxdiv(v.x.v(), fxsqrt(len_sq_v(v))) as i64 },
        y: Fx { raw: fxdiv(v.y.v(), fxsqrt(len_sq_v(v))) as i64 },
        z: Fx { raw: fxdiv(v.z.v(), fxsqrt(len_sq_v(v))) as i64 },
    }
}

/// The all-zero vector.
pub open spec fn vec_zero(v: Vec3) -> bool {
    v.x.v() == 0 && v.y.v() == 0 && v.z.v() == 0
}

/// The zero vector.
pub open spec fn zero_vec() -> Vec3 {
    Vec3 { x: Fx { raw: 0 }, y: Fx { raw: 0 }, z: Fx { raw: 0 } }
}

/// The componentwise sum as a spec vector.
pub open spec fn add_vec(a: Vec3, b: Vec3) -> Vec3 {
    Vec3 {
        x: Fx { raw: (a.x.v() + b.x.v()) as i64 },
        y: Fx { raw: (a.y.v() + b.y.v()) as i64 },
        z: Fx { raw: (a.z.v() + b.z.v()) as i64 },
    }
}

/// The componentwise (Hadamard) product as a spec vector.
pub open spec fn mul_vec(a: Vec3, b: Vec3) -> Vec3 {
    Vec3 {
        x: Fx { raw: fxmul(a.x.v(), b.x.v()) as i64 },
        y: Fx { raw: fxmul(a.y.v(), b.y.v()) as i64 },
        z: Fx { raw: fxmul(a.z.v(), b.z.v()) as i64 },
    }
}

/// The largest component magnitude.
pub open spec fn max_mag_v(v: Vec3) -> int {
    let mxy = if iabs(v.x.v()) >= iabs(v.y.v()) {
        iabs(v.x.v())
    } else {
        iabs(v.y.v())
    };
    if mxy >= iabs(v.z.v()) {
        mxy
    } else {
        iabs(v.z.v())
    }
}

/// The vector with every component doubled (exact on the grid).
pub open spec fn double_vec(v: Vec3) -> Vec3 {
    Vec3 {
        x: Fx { raw: (2 * v.x.v()) as i64 },
        y: Fx { raw: (2 * v.y.v()) as i64 },
        z: Fx { raw: (2 * v.z.v()) as i64 },
    }
}

/// The vector doubled until its largest component reaches one unit.
/// Doubling is exact, so this changes only the representation of the
/// direction, never the direction itself.
pub open spec fn lifted_v(v: Vec3) -> Vec3
    decreases 2 * SCALE - max_mag_v(v),
    when 1 <= max_mag_v(v)
{
    if max_mag_v(v) >= SCALE {
        v
    } else {
        lifted_v(double_vec(v))
    }
}

/// The unit vector of a direction of any representable length: the
/// direction is first lifted onto the unit-magnitude band, then
/// normalized.
pub open spec fn unit_dir_v(v: Vec3) -> Vec3 {
    unit_v(lifted_v(v))
}

/// Exact value of one gamma-corrected 8-bit color channel: square root,
/// clamp to `[0, 0.999]`, scale by 256. A negative input clamps to zero.
pub open spec fn rgb_channel_v(c: int) -> int {
    if c < 0 {
        0
    } else if fxsqrt(c) <= CHANNEL_CLAMP {
        fxsqrt(c) / 256
    } else {
        CHANNEL_CLAMP as int / 256
    }
}

/// A fixed-point product of values no larger than `GEOM_MAG` keeps each
/// term small enough that a three-term sum fits an `i64`.
pub proof fn lemma_geom_term_bound(a: int, b: int)
    requires
        iabs(a) <= GEOM_MAG,
        iabs(b) <= GEOM_MAG,
    ensures
        iabs(fxmul(a, b)) <= 0x1000_0000_0000_0000,
{
    lemma_mul_mag(a, b, GEOM_MAG as int, GEOM_MAG as int);
    lemma_tdiv_abs(a * b, SCALE as int);
    vstd::arithmetic::div_mod::lemma_div_is_ordered(
        iabs(a * b),
        0x1000_0000_0000_0000_0000,
        SCALE as int,
    );
}

/// A fixed-point square is non-negative.
pub proof fn lemma_fxmul_self_nonneg(a: int)
    ensures
        0 <= fxmul(a, a),
{
    assert(0 <= a * a) by (nonlinear_arith);
    vstd::arithmetic::div_mod::lemma_div_pos_is_pos(iabs(a * a), SCALE as int);
}

impl Vec3 {
    pub fn new(x: Fx, y: Fx, z: Fx) -> (r: Vec3)
        ensures
            r.x == x && r.y == y && r.z == z,
    {
        Vec3 { x, y, z }
    }

    /// The vector with all components a whole number of units.
    pub fn splat_units(u: i32) -> (r: Vec3)
        ensures
            r.x.v() == u * SCALE && r.y.v() == u * SCALE && r.z.v() == u * SCALE,
    {
        let c = Fx::from_units(u);
        Vec3 { x: c, y: c, z: c }
    }

    pub fn x(&self) -> (r: Fx)
        ensures
            r == self.x,
    {
        self.x
    }

    pub fn y(&self) -> (r: Fx)
        ensures
            r == self.y,
    {
        self.y
    }

    pub fn z(&self) -> (r: Fx)
        ensures
            r == self.z,
    {
        self.z
    }

    pub fn add(self, other: Vec3) -> (r: Vec3)
        requires
            i64::MIN <= self.x.v() + other.x.v() <= i64::MAX,
            i64::MIN <= self.y.v() + other.y.v() <= i64::MAX,
            i64::MIN <= self.z.v() + other.z.v() <= i64::MAX,
        ensures
            r.x.v() == self.x.v() + other.x.v(),
            r.y.v() == self.y.v() + other.y.v(),
            r.z.v() == self.z.v() + other.z.v(),
    {
        Vec3 { x: self.x.add(other.x), y: self.y.add(other.y), z: self.z.add(other.z) }
    }

    pub fn sub(self, other: Vec3) -> (r: Vec3)
        requires
            i64::MIN <= self.x.v() - other.x.v() <= i64::MAX,
            i64::MIN <= self.y.v() - other.y.v() <= i64::MAX,
            i64::MIN <= self.z.v() - other.z.v() <= i64::MAX,
        ensures
            r.x.v() == self.x.v() - other.x.v(),
            r.y.v() == self.y.v() - other.y.v(),
            r.z.v() == self.z.v() - other.z.v(),
    {
        Vec3 { x: self.x.sub(other.x), y: self.y.sub(other.y), z: self.z.sub(other.z) }
    }

    pub fn neg(self) -> (r: Vec3)
        requires
            self.x.v() != i64::MIN,
            self.y.v() != i64::MIN,
            self.z.v() != i64::MIN,
        ensures
            r.x.v() == -self.x.v(),
            r.y.v() == -self.y.v(),
            r.z.v() == -self.z.v(),
    {
        Vec3 { x: self.x.neg(), y: self.y.neg(), z: self.z.neg() }
    }

    /// Componentwise (Hadamard) product; mixes two colors.
    pub fn mul(self, other: Vec3) -> (r: Vec3)
        requires
            i64::MIN <= fxmul(self.x.v(), other.x.v()) <= i64::MAX,
            i64::MIN <= fxmul(self.y.v(), other.y.v()) <= i64::MAX,
            i64::MIN <= fxmul(self.z.v(), other.z.v()) <= i64::MAX,
        ensures
            r.x.v() == fxmul(self.x.v(), other.x.v()),
            r.y.v() == fxmul(self.y.v(), other.y.v()),
            r.z.v() == fxmul(self.z.v(), other.z.v()),
    {
        Vec3 { x: self.x.mul(other.x), y: self.y.mul(other.y), z: self.z.mul(other.z) }
    }

    /// Scalar multiple.
    pub fn scale(self, t: Fx) -> (r: Vec3)
        requires
            i64::MIN <= fxmul(self.x.v(), t.v()) <= i64::MAX,
            i64::MIN <= fxmul(self.y.v(), t.v()) <= i64::MAX,
            i64::MIN <= fxmul(self.z.v(), t.v()) <= i64::MAX,
        ensures
            r.x.v() == fxmul(self.x.v(), t.v()),
            r.y.v() == fxmul(self.y.v(), t.v()),
            r.z.v() == fxmul(self.z.v(), t.v()),
    {
        Vec3 { x: self.x.mul(t), y: self.y.mul(t), z: self.z.mul(t) }
    }

    /// Division by a scalar, componentwise.
    pub fn div_s(self, t: Fx) -> (r: Vec3)
        requires
            t.v() != 0,
            i64::MIN <= fxdiv(self.x.v(), t.v()) <= i64::MAX,
            i64::MIN <= fxdiv(self.y.v(), t.v()) <= i64::MAX,
            i64::MIN <= fxdiv(self.z.v(), t.v()) <= i64::MAX,
        ensures
            r.x.v() == fxdiv(self.x.v(), t.v()),
            r.y.v() == fxdiv(self.y.v(), t.v()),
            r.z.v() == fxdiv(self.z.v(), t.v()),
    {
        Vec3 { x: self.x.div(t), y: self.y.div(t), z: self.z.div(t) }
    }

    pub fn cross(&self, other: Vec3) -> (r: Vec3)
        requires
            bounded(*self, GEOM_MAG as int),
            bounded(other, GEOM_MAG as int),
        ensures
            r.x.v() == cross_x_v(*self, other),
            r.y.v() == cross_y_v(*self, other),
            r.z.v() == cross_z_v(*self, other),
            r == cross_vec(*self, other),
    {
        proof {
            lemma_geom_term_bound(self.y.v(), other.z.v());
            lemma_geom_term_bound(self.z.v(), other.y.v());
            lemma_geom_term_bound(self.z.v(), other.x.v());
            lemma_geom_term_bound(self.x.v(), other.z.v());
            lemma_geom_term_bound(self.x.v(), other.y.v());
            lemma_geom_term_bound(self.y.v(), other.x.v());
        }
        Vec3 {
            x: Fx { raw: self.y.mul(other.z).raw - self.z.mul(other.y).raw },
            y: Fx { raw: self.z.mul(other.x).raw - self.x.mul(other.z).raw },
            z: Fx { raw: self.x.mul(other.y).raw - self.y.mul(other.x).raw },
        }
    }

    /// The unit direction of a non-zero vector: sub-unit directions are
    /// doubled (exactly) until their largest component reaches one unit,
    /// then normalized, so arbitrarily short non-zero directions still
    /// yield a usable unit vector.
    pub fn unit_dir(&self) -> (r: Vec3)
        requires
            bounded(*self, 0x4000_0000),
            !vec_zero(*self),
        ensures
            r == unit_dir_v(*self),
            bounded(r, 2 * SCALE),
    {
        let mut v: Vec3 = *self;
        while max_mag(&v) < SCALE
            invariant
                1 <= max_mag_v(v),
                max_mag_v(v) < SCALE ==> bounded(v, SCALE as int),
                max_mag_v(v) >= SCALE ==> bounded(v, 0x4000_0000),
                lifted_v(v) == lifted_v(*self),
            decreases 2 * SCALE - max_mag_v(v),
        {
            let ghost prev = v;
            v = Vec3 {
                x: Fx { raw: 2 * v.x.raw },
                y: Fx { raw: 2 * v.y.raw },
                z: Fx { raw: 2 * v.z.raw },
            };
            proof {
                assert(v == double_vec(prev));
                assert(iabs(v.x.v()) == 2 * iabs(prev.x.v()));
                assert(iabs(v.y.v()) == 2 * iabs(prev.y.v()));
                assert(iabs(v.z.v()) == 2 * iabs(prev.z.v()));
                assert(max_mag_v(v) == 2 * max_mag_v(prev));
                assert(lifted_v(prev) == lifted_v(v));
            }
        }
        proof {
            assert(lifted_v(v) == v);
            lemma_max_component_len(v);
        }
        v.norm()
    }

    pub fn dot(&self, other: Vec3) -> (r: Fx)
        requires
            bounded(*self, GEOM_MAG as int),
            bounded(other, GEOM_MAG as int),
        ensures
            r.v() == dot_v(*self, other),
            iabs(r.v()) <= 0x3000_0000_0000_0000,
    {
        proof {
            lemma_geom_term_bound(self.x.v(), other.x.v());
            lemma_geom_term_bound(self.y.v(), other.y.v());
            lemma_geom_term_bound(self.z.v(), other.z.v());
        }
        let a: Fx = self.x.mul(other.x);
        let b: Fx = self.y.mul(other.y);
        let c: Fx = self.z.mul(other.z);
        Fx { raw: a.raw + b.raw + c.raw }
    }

    pub fn length_squared(&self) -> (r: Fx)
        requires
            bounded(*self, GEOM_MAG as int),
        ensures
            r.v() == len_sq_v(*self),
            0 <= r.v() <= 0x3000_0000_0000_0000,
    {
        proof {
            lemma_fxmul_self_nonneg(self.x.v());
            lemma_fxmul_self_nonneg(self.y.v());
            lemma_fxmul_self_nonneg(self.z.v());
        }
        self.dot(*self)
    }

    /// Length of the vector, rounded down to the fixed-point grid.
    pub fn magnitude(&self) -> (r: Fx)
        requires
            bounded(*self, GEOM_MAG as int),
        ensures
            r.v() == fxsqrt(len_sq_v(*self)),
            0 <= r.v(),
    {
        self.length_squared().sqrt()
    }

    /// The vector scaled to length one (up to fixed-point rounding): each
    /// component is divided by the magnitude. For inputs of length at least
    /// one, the result's components stay within twice the unit scale.
    pub fn norm(&self) -> (r: Vec3)
        requires
            bounded(*self, GEOM_MAG as int),
            1 <= len_sq_v(*self),
        ensures
            r.x.v() == fxdiv(self.x.v(), fxsqrt(len_sq_v(*self))),
            r.y.v() == fxdiv(self.y.v(), fxsqrt(len_sq_v(*self))),
            r.z.v() == fxdiv(self.z.v(), fxsqrt(len_sq_v(*self))),
            r == unit_v(*self),
            SCALE <= len_sq_v(*self) ==> bounded(r, 2 * SCALE),
    {
        let m: Fx = self.magnitude();
        proof {
            lemma_fxmul_self_nonneg(self.x.v());
            lemma_fxmul_self_nonneg(self.y.v());
            lemma_fxmul_self_nonneg(self.z.v());
            lemma_norm_div_bound(self.x.v(), len_sq_v(*self), m.v());
            lemma_norm_div_bound(self.y.v(), len_sq_v(*self), m.v());
            lemma_norm_div_bound(self.z.v(), len_sq_v(*self), m.v());
        }
        self.div_s(m)
    }

    /// Gamma-2 corrected 8-bit color: the square root of each channel,
    /// clamped to `[0, 0.999]` and scaled by 256.
    pub fn to_rgb(&self) -> (rgb: (u8, u8, u8))
        ensures
            rgb.0 == rgb_channel_v(self.x.v()),
            rgb.1 == rgb_channel_v(self.y.v()),
            rgb.2 == rgb_channel_v(self.z.v()),
    {
        (rgb_channel(self.x), rgb_channel(self.y), rgb_channel(self.z))
    }
}

/// One channel of the gamma-corrected 8-bit conversion.
fn rgb_channel(c: Fx) -> (r: u8)
    ensures
        r == rgb_channel_v(c.v()),
{
    if c.raw < 0 {
        return 0;
    }
    let s: Fx = c.sqrt();
    proof {
        lemma_sqrt_floor(c.v() * SCALE);
    }
    let clamped: i64 = if s.raw <= CHANNEL_CLAMP {
        s.raw
    } else {
        CHANNEL_CLAMP
    };
    let scaled: u64 = (clamped as u64) / 256;
    proof {
        vstd::arithmetic::div_mod::lemma_div_is_ordered(
            clamped as int,
            CHANNEL_CLAMP as int,
            256,
        );
    }
    scaled as u8
}

/// The largest component magnitude of a world-bounded vector.
fn max_mag(v: &Vec3) -> (m: i64)
    requires
        bounded(*v, 0x4000_0000),
    ensures
        m as int == max_mag_v(*v),
{
    let ax: i64 = if v.x.raw < 0 {
        -v.x.raw
    } else {
        v.x.raw
    };
    let ay: i64 = if v.y.raw < 0 {
        -v.y.raw
    } else {
        v.y.raw
    };
    let az: i64 = if v.z.raw < 0 {
        -v.z.raw
    } else {
        v.z.raw
    };
    let mxy: i64 = if ax >= ay {
        ax
    } else {
        ay
    };
    if mxy >= az {
        mxy
    } else {
        az
    }
}

/// A vector whose largest component reaches one unit has squared length
/// at least one unit.
proof fn lemma_max_component_len(v: Vec3)
    requires
        max_mag_v(v) >= SCALE,
        bounded(v, 0x4000_0000),
    ensures
        SCALE <= len_sq_v(v),
{
    lemma_fxmul_self_nonneg(v.x.v());
    lemma_fxmul_self_nonneg(v.y.v());
    lemma_fxmul_self_nonneg(v.z.v());
    lemma_big_square(v.x.v());
    lemma_big_square(v.y.v());
    lemma_big_square(v.z.v());
}

/// A component of at least one unit squares to at least one unit.
proof fn lemma_big_square(x: int)
    requires
        iabs(x) <= 0x4000_0000,
    ensures
        iabs(x) >= SCALE ==> fxmul(x, x) >= SCALE,
{
    if iabs(x) >= SCALE {
        assert(x * x >= 65536int * 65536) by (nonlinear_arith)
            requires
                iabs(x) >= 65536,
        ;
        assert(x * x == iabs(x * x)) by (nonlinear_arith);
        vstd::arithmetic::div_mod::lemma_div_is_ordered(
            65536int * 65536,
            iabs(x * x),
            65536,
        );
        vstd::arithmetic::div_mod::lemma_div_by_multiple(65536, 65536);
        crate::fixed::lemma_tdiv_abs(x * x, SCALE as int);
    }
}

/// Bound on a normalized component: dividing a component by the
/// fixed-point square root `m` of the squared length `ls` keeps the raw
/// magnitude under `2^54`, and under `2 * SCALE` once `ls >= SCALE`.
proof fn lemma_norm_div_bound(x: int, ls: int, m: int)
    requires
        iabs(x) <= GEOM_MAG,
        fxmul(x, x) <= ls,
        1 <= ls,
        m == fxsqrt(ls),
    ensures
        1 <= m,
        iabs(fxdiv(x, m)) <= 0x40_0000_0000_0000,
        SCALE <= ls ==> iabs(fxdiv(x, m)) <= 2 * SCALE,
{
    lemma_sqrt_floor(ls * SCALE);
    assert(SCALE <= ls * SCALE);
    assert(1 <= m) by {
        if m < 1 {
            lemma_square_le(m + 1, 1);
            assert(ls * SCALE < (m + 1) * (m + 1));
        }
    }
    // unconditional coarse bound: |x * SCALE| / m <= |x| * SCALE <= 2^54
    lemma_tdiv_abs(x * SCALE, m);
    assert(iabs(x * SCALE) == iabs(x) * SCALE) by (nonlinear_arith);
    assert(iabs(x) * SCALE <= 0x40_0000_0000_0000);
    vstd::arithmetic::div_mod::lemma_div_nonincreasing(iabs(x * SCALE), m);
    if SCALE <= ls {
        assert(3 <= m) by {
            if m < 3 {
                lemma_square_le(m + 1, 3);
                assert(ls * SCALE < (m + 1) * (m + 1));
                assert(0x1_0000_0000 <= ls * SCALE);
            }
        }
        // x * x < (ls + 1) * SCALE, since fxmul(x, x) = (x * x) / SCALE <= ls
        assert(0 <= x * x) by (nonlinear_arith);
        assert(fxmul(x, x) == (x * x) / (SCALE as int));
        vstd::arithmetic::div_mod::lemma_fundamental_div_mod(x * x, SCALE as int);
        vstd::arithmetic::div_mod::lemma_mod_bound(x * x, SCALE as int);
        assert(x * x < (ls + 1) * SCALE) by (nonlinear_arith)
            requires
                x * x == SCALE * ((x * x) / (SCALE as int)) + (x * x) % (SCALE as int),
                0 <= (x * x) % (SCALE as int) < SCALE,
                (x * x) / (SCALE as int) <= ls,
        ;
        // x * x < 4 * m * m, via 2 * (m + 1)^2 <= 4 m^2 and ls * SCALE < (m+1)^2
        assert((ls + 1) * SCALE <= 2 * (ls * SCALE)) by (nonlinear_arith)
            requires
                1 <= ls,
                0 < SCALE,
        ;
        assert(2 * ((m + 1) * (m + 1)) <= 4 * (m * m)) by (nonlinear_arith)
            requires
                3 <= m,
        ;
        assert(ls * SCALE < (m + 1) * (m + 1));
        assert(x * x < 4 * (m * m));
        assert(iabs(x) * iabs(x) == x * x) by (nonlinear_arith);
        assert(iabs(x) <= 2 * m - 1) by (nonlinear_arith)
            requires
                iabs(x) * iabs(x) < 4 * (m * m),
                0 <= iabs(x),
                1 <= m,
        ;
        // |x| * SCALE <= 2 * SCALE * m, so the quotient is at most 2 * SCALE
        assert(iabs(x) * SCALE <= (2 * SCALE) * m) by (nonlinear_arith)
            requires
                iabs(x) <= 2 * m - 1,
                0 < SCALE,
                1 <= m,
        ;
        vstd::arithmetic::div_mod::lemma_div_is_ordered(
            iabs(x) * SCALE,
            (2 * SCALE) * m,
            m,
        );
        vstd::arithmetic::div_mod::lemma_div_by_multiple(2 * SCALE, m);
    }
}

} // verus!
