//! Fixed-point scalar arithmetic.
//!
//! All geometry in this crate is computed over [`Fx`], a signed 48.16
//! fixed-point number: the mathematical value is `raw / SCALE`. Every
//! operation has an exact integer-level description, so contracts can pin
//! results down instead of appealing to rounding behaviour. Multiplication
//! and division truncate toward zero (sign-magnitude), and square roots
//! round down; [`tdiv`], [`fxmul`], [`fxdiv`] and [`sqrt_floor`] are the
//! specification-level definitions of those roundings.
use vstd::prelude::*;

verus! {

/// Number of raw units per unit of value: `Fx { raw: SCALE }` is 1.
pub const SCALE: i64 = 65536;

/// A fixed-point scalar; the value represented is `raw / SCALE`.
#[derive(Clone, Copy, Debug, PartialEq, Eq, Structural)]
pub struct Fx {
    pub raw: i64,
}

/// Absolute value of a mathematical integer.
pub open spec fn iabs(a: int) -> int {
    if a < 0 {
        -a
    } else {
        a
    }
}

/// Truncating (round-toward-zero) division, the rounding used by all
/// fixed-point operations in this crate.
pub open spec fn tdiv(a: int, b: int) -> int {
    if (a < 0) == (b < 0) {
        iabs(a) / iabs(b)
    } else {
        -(iabs(a) / iabs(b))
    }
}

/// Raw result of the fixed-point product of two raw values.
pub open spec fn fxmul(a: int, b: int) -> int {
    tdiv(a * b, SCALE as int)
}

/// Raw result of the fixed-point quotient of two raw values.
pub open spec fn fxdiv(a: int, b: int) -> int {
    tdiv(a * SCALE, b)
}

/// The integer square root, rounded down; meaningful for `0 <= n`.
pub open spec fn sqrt_floor(n: int) -> int {
    choose|r: int| 0 <= r && #[trigger] (r * r) <= n && n < (r + 1) * (r + 1)
}

/// Raw result of the fixed-point square root of a raw value.
pub open spec fn fxsqrt(a: int) -> int {
    sqrt_floor(a * SCALE)
}

/// The integer square root exists: builds the witness by induction.
pub proof fn lemma_sqrt_exists(n: int) -> (r: int)
    requires
        0 <= n,
    ensures
        0 <= r && r * r <= n && n < (r + 1) * (r + 1),
    decreases n,
{
    if n == 0 {
        0
    } else {
        let p = lemma_sqrt_exists(n - 1);
        if (p + 1) * (p + 1) <= n {
            assert(n == (p + 1) * (p + 1));
            assert(n < (p + 2) * (p + 2)) by (nonlinear_arith)
                requires
                    n == (p + 1) * (p + 1),
                    0 <= p,
            ;
            p + 1
        } else {
            p
        }
    }
}

/// For `0 <= n`, `sqrt_floor(n)` satisfies its defining inequalities.
pub proof fn lemma_sqrt_floor(n: int)
    requires
        0 <= n,
    ensures
        0 <= sqrt_floor(n),
        sqrt_floor(n) * sqrt_floor(n) <= n,
        n < (sqrt_floor(n) + 1) * (sqrt_floor(n) + 1),
{
    let w = lemma_sqrt_exists(n);
    assert(0 <= w && w * w <= n && n < (w + 1) * (w + 1));
}

/// Any integer satisfying the square-root inequalities is `sqrt_floor(n)`.
pub proof fn lemma_sqrt_unique(n: int, r: int)
    requires
        0 <= r,
        r * r <= n,
        n < (r + 1) * (r + 1),
    ensures
        r == sqrt_floor(n),
{
    lemma_sqrt_floor(n);
    let s = sqrt_floor(n);
    if r < s {
        assert(false) by (nonlinear_arith)
            requires
                0 <= r,
                r < s,
                s * s <= n,
                n < (r + 1) * (r + 1),
        ;
    }
    if s < r {
        assert(false) by (nonlinear_arith)
            requires
                0 <= s,
                s < r,
                r * r <= n,
                n < (s + 1) * (s + 1),
        ;
    }
}

/// Magnitude of a truncating quotient: `|tdiv(a, b)| == |a| / |b|`.
pub proof fn lemma_tdiv_abs(a: int, b: int)
    requires
        b != 0,
    ensures
        iabs(tdiv(a, b)) == iabs(a) / iabs(b),
        iabs(tdiv(a, b)) <= iabs(a),
{
    vstd::arithmetic::div_mod::lemma_div_pos_is_pos(iabs(a), iabs(b));
    vstd::arithmetic::div_mod::lemma_div_nonincreasing(iabs(a), iabs(b));
}

/// Truncating division by a positive divisor is monotone in the numerator.
pub proof fn lemma_tdiv_mono(a: int, b: int, d: int)
    requires
        a <= b,
        0 < d,
    ensures
        tdiv(a, d) <= tdiv(b, d),
{
    if 0 <= a {
        vstd::arithmetic::div_mod::lemma_div_is_ordered(a, b, d);
    } else if b < 0 {
        vstd::arithmetic::div_mod::lemma_div_is_ordered(-b, -a, d);
    } else {
        vstd::arithmetic::div_mod::lemma_div_pos_is_pos(-a, d);
        vstd::arithmetic::div_mod::lemma_div_pos_is_pos(b, d);
    }
}

/// Squaring is monotone on the non-negative integers.
pub proof fn lemma_square_le(a: int, b: int)
    requires
        0 <= a <= b,
    ensures
        a * a <= b * b,
{
    assert(a * a <= b * b) by (nonlinear_arith)
        requires
            0 <= a <= b,
    ;
}

/// Magnitude bound of a product from magnitude bounds of the factors.
pub proof fn lemma_mul_mag(a: int, b: int, ma: int, mb: int)
    requires
        -ma <= a <= ma,
        -mb <= b <= mb,
    ensures
        -(ma * mb) <= a * b <= ma * mb,
{
    assert(-(ma * mb) <= a * b <= ma * mb) by (nonlinear_arith)
        requires
            -ma <= a <= ma,
            -mb <= b <= mb,
    ;
}

/// Capped fixed-point product: from magnitude bounds on the factors whose
/// product is at most `cap * 65536`, the fixed-point product is at most
/// `cap`.
pub proof fn lemma_fxmul_cap(a: int, b: int, ma: int, mb: int, cap: int)
    requires
        iabs(a) <= ma,
        iabs(b) <= mb,
        ma * mb <= cap * 65536,
        0 <= cap,
    ensures
        iabs(fxmul(a, b)) <= cap,
{
    assert(SCALE == 65536);
    lemma_mul_mag(a, b, ma, mb);
    lemma_tdiv_abs(a * b, SCALE as int);
    vstd::arithmetic::div_mod::lemma_div_is_ordered(iabs(a * b), cap * 65536, 65536);
    vstd::arithmetic::div_mod::lemma_div_by_multiple(cap, 65536);
}

/// Any fixed-point product with zero is zero.
pub proof fn lemma_fxmul_zero(a: int)
    ensures
        fxmul(a, 0) == 0,
        fxmul(0, a) == 0,
{
    assert(a * 0 == 0) by (nonlinear_arith);
    assert(0 * a == 0) by (nonlinear_arith);
    vstd::arithmetic::div_mod::lemma_div_of0(SCALE as int);
}

/// Truncating division of i128 values (round toward zero, as the quotient of
/// the magnitudes with the sign reapplied).
pub(crate) fn tdiv_i128(a: i128, b: i128) -> (q: i128)
    requires
        b != 0,
        -0x7fff_ffff_ffff_ffff_ffff_ffff_ffff_ffffint <= a as int,
        -0x7fff_ffff_ffff_ffff_ffff_ffff_ffff_ffffint <= b as int,
    ensures
        q == tdiv(a as int, b as int),
{
    let negative: bool = (a < 0) != (b < 0);
    let ua: u128 = if a < 0 {
        (-a) as u128
    } else {
        a as u128
    };
    let ub: u128 = if b < 0 {
        (-b) as u128
    } else {
        b as u128
    };
    assert(ua as int == iabs(a as int));
    assert(ub as int == iabs(b as int));
    let uq: u128 = ua / ub;
    proof {
        vstd::arithmetic::div_mod::lemma_div_pos_is_pos(ua as int, ub as int);
        vstd::arithmetic::div_mod::lemma_div_nonincreasing(ua as int, ub as int);
    }
    if negative {
        -(uq as i128)
    } else {
        uq as i128
    }
}

/// Floor division of i128 values (the Euclidean quotient for a positive
/// divisor).
pub(crate) fn fdiv_i128(a: i128, b: i128) -> (q: i128)
    requires
        0 < b,
        -0x7fff_ffff_ffff_ffff_ffff_ffff_ffff_fffeint <= a as int,
        a as int + b as int <= 0x7fff_ffff_ffff_ffff_ffff_ffff_ffff_ffffint,
    ensures
        q == (a as int) / (b as int),
{
    if a >= 0 {
        let ua: u128 = a as u128;
        let ub: u128 = b as u128;
        let uq: u128 = ua / ub;
        proof {
            vstd::arithmetic::div_mod::lemma_div_nonincreasing(ua as int, ub as int);
            vstd::arithmetic::div_mod::lemma_div_pos_is_pos(ua as int, ub as int);
        }
        uq as i128
    } else {
        let m: u128 = (-a) as u128;
        let ub: u128 = b as u128;
        let uq: u128 = (m + ub - 1) / ub;
        proof {
            vstd::arithmetic::div_mod::lemma_div_pos_is_pos((m + ub - 1) as int, ub as int);
            vstd::arithmetic::div_mod::lemma_div_plus_one(m as int - 1, ub as int);
            vstd::arithmetic::div_mod::lemma_div_nonincreasing(m as int - 1, ub as int);
            assert(uq as int == 1 + (m as int - 1) / (ub as int));
            lemma_neg_ceil_div(m as int, b as int);
        }
        -(uq as i128)
    }
}

/// Floor of the square root of a u128, by bisection.
pub(crate) fn isqrt_u128(n: u128) -> (r: u128)
    ensures
        r as int == sqrt_floor(n as int),
{
    if n == 0 {
        proof {
            lemma_sqrt_unique(0, 0);
        }
        return 0;
    }
    let mut lo: u128 = 0;
    let mut hi: u128 = 0x1_0000_0000_0000_0000;
    assert((hi as int) * (hi as int) > n as int);
    while hi - lo > 1
        invariant
            lo < hi,
            hi <= 0x1_0000_0000_0000_0000u128,
            (lo as int) * (lo as int) <= n as int,
            (n as int) < (hi as int) * (hi as int),
        decreases hi - lo,
    {
        let mid: u128 = lo + (hi - lo) / 2;
        assert(lo < mid < hi);
        proof {
            lemma_square_le(mid as int, 0xffff_ffff_ffff_ffffint);
        }
        if mid * mid <= n {
            lo = mid;
        } else {
            hi = mid;
        }
    }
    proof {
        lemma_sqrt_unique(n as int, lo as int);
    }
    lo
}

impl Fx {
    /// The raw value as a mathematical integer; contracts are stated over it.
    pub open spec fn v(self) -> int {
        self.raw as int
    }

    pub fn new(raw: i64) -> (r: Fx)
        ensures
            r.raw == raw,
    {
        Fx { raw }
    }

    /// The scalar for a whole number of units.
    pub fn from_units(units: i32) -> (r: Fx)
        ensures
            r.v() == units * SCALE,
    {
        Fx { raw: (units as i64) * SCALE }
    }

    pub fn zero() -> (r: Fx)
        ensures
            r.v() == 0,
    {
        Fx { raw: 0 }
    }

    pub fn one() -> (r: Fx)
        ensures
            r.v() == SCALE,
    {
        Fx { raw: SCALE }
    }

    pub fn add(self, other: Fx) -> (r: Fx)
        requires
            i64::MIN <= self.v() + other.v() <= i64::MAX,
        ensures
            r.v() == self.v() + other.v(),
    {
        Fx { raw: self.raw + other.raw }
    }

    pub fn sub(self, other: Fx) -> (r: Fx)
        requires
            i64::MIN <= self.v() - other.v() <= i64::MAX,
        ensures
            r.v() == self.v() - other.v(),
    {
        Fx { raw: self.raw - other.raw }
    }

    pub fn neg(self) -> (r: Fx)
        requires
            self.v() != i64::MIN,
        ensures
            r.v() == -self.v(),
    {
        Fx { raw: -self.raw }
    }

    pub fn mul(self, other: Fx) -> (r: Fx)
        requires
            i64::MIN <= fxmul(self.v(), other.v()) <= i64::MAX,
        ensures
            r.v() == fxmul(self.v(), other.v()),
    {
        proof {
            lemma_mul_mag(
                self.raw as int,
                other.raw as int,
                0x8000_0000_0000_0000int,
                0x8000_0000_0000_0000int,
            );
        }
        let p: i128 = (self.raw as i128) * (other.raw as i128);
        let q: i128 = tdiv_i128(p, SCALE as i128);
        Fx { raw: q as i64 }
    }

    pub fn div(self, other: Fx) -> (r: Fx)
        requires
            other.v() != 0,
            i64::MIN <= fxdiv(self.v(), other.v()) <= i64::MAX,
        ensures
            r.v() == fxdiv(self.v(), other.v()),
    {
        let p: i128 = (self.raw as i128) * (SCALE as i128);
        let q: i128 = tdiv_i128(p, other.raw as i128);
        Fx { raw: q as i64 }
    }

    /// Fixed-point square root, rounded down.
    pub fn sqrt(self) -> (r: Fx)
        requires
            0 <= self.v(),
        ensures
            r.v() == fxsqrt(self.v()),
            0 <= r.v(),
    {
        let scaled: u128 = (self.raw as u128) * (SCALE as u128);
        let root: u128 = isqrt_u128(scaled);
        proof {
            lemma_sqrt_floor(scaled as int);
            if root as int >= 0x1_0000_0000_0000int {
                lemma_square_le(0x1_0000_0000_0000int, root as int);
            }
        }
        Fx { raw: root as i64 }
    }

    pub fn abs(self) -> (r: Fx)
        requires
            self.v() != i64::MIN,
        ensures
            r.v() == iabs(self.v()),
    {
        if self.raw < 0 {
            Fx { raw: -self.raw }
        } else {
            self
        }
    }

    pub fn min(self, other: Fx) -> (r: Fx)
        ensures
            r.v() == if self.v() <= other.v() {
                self.v()
            } else {
                other.v()
            },
    {
        if self.raw <= other.raw {
            self
        } else {
            other
        }
    }

    pub fn max(self, other: Fx) -> (r: Fx)
        ensures
            r.v() == if self.v() >= other.v() {
                self.v()
            } else {
                other.v()
            },
    {
        if self.raw >= other.raw {
            self
        } else {
            other
        }
    }

    /// The greatest whole number of units at most `self` (floor), as an
    /// integer count of units.
    pub fn floor_units(self) -> (k: i64)
        requires
            -0x4000_0000_0000_0000 < self.v(),
        ensures
            k == self.v() / (SCALE as int),
    {
        if self.raw >= 0 {
            let q: u64 = (self.raw as u64) / (SCALE as u64);
            proof {
                vstd::arithmetic::div_mod::lemma_div_nonincreasing(
                    self.raw as int,
                    SCALE as int,
                );
            }
            q as i64
        } else {
            let m: u64 = (-self.raw) as u64;
            let q: u64 = (m + (SCALE as u64) - 1) / (SCALE as u64);
            proof {
                vstd::arithmetic::div_mod::lemma_div_nonincreasing(
                    m + SCALE - 1,
                    SCALE as int,
                );
                lemma_neg_ceil_div(m as int, SCALE as int);
            }
            -(q as i64)
        }
    }

    /// The fractional part `self - floor(self)`, in `[0, 1)`.
    pub fn frac(self) -> (r: Fx)
        requires
            -0x4000_0000_0000_0000 < self.v(),
        ensures
            r.v() == self.v() % (SCALE as int),
            0 <= r.v() < SCALE,
    {
        let k: i64 = self.floor_units();
        proof {
            vstd::arithmetic::div_mod::lemma_fundamental_div_mod(self.v(), SCALE as int);
            vstd::arithmetic::div_mod::lemma_mod_bound(self.v(), SCALE as int);
        }
        Fx { raw: self.raw - k * SCALE }
    }
}

/// Euclidean floor division of a negative numerator: for `0 < m`,
/// `-((m + s - 1) / s)` is `(-m) / s` in the Euclidean sense.
proof fn lemma_neg_ceil_div(m: int, s: int)
    requires
        0 < m,
        0 < s,
    ensures
        -((m + s - 1) / s) == (-m) / s,
{
    let q = (m + s - 1) / s;
    vstd::arithmetic::div_mod::lemma_fundamental_div_mod(m + s - 1, s);
    vstd::arithmetic::div_mod::lemma_mod_bound(m + s - 1, s);
    let r = (m + s - 1) % s;
    assert(m + s - 1 == q * s + r);
    assert(0 <= s - 1 - r < s);
    assert(-m == (-q) * s + (s - 1 - r)) by (nonlinear_arith)
        requires
            m + s - 1 == q * s + r,
    ;
    assert((-m) / s == -q) by {
        vstd::arithmetic::div_mod::lemma_fundamental_div_mod_converse(
            -m,
            s,
            -q,
            s - 1 - r,
        );
    }
}

} // verus!
