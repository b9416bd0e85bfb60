//! Perlin-style lattice noise: 256 random unit gradients and three
//! shuffled index tables; noise at a point interpolates (with Hermite
//! smoothing) the dot products of the gradients at the eight surrounding
//! lattice corners with the fractional offsets; turbulence sums octaves at
//! doubling frequency and halving amplitude.
use crate::fixed::fxmul;
use crate::fixed::iabs;
use crate::fixed::Fx;
use crate::fixed::SCALE;
use crate::utils::random_int_in_range;
use crate::utils::random_unit_vector;
use crate::vec3::bounded;
use crate::vec3::dot_v;
use crate::vec3::Vec3;
use vstd::pervasive::VecAdditionalExecFns;
use vstd::prelude::*;

verus! {

pub struct Perlin {
    pub random_vectors: Vec<Vec3>,
    pub perm_x: Vec<u8>,
    pub perm_y: Vec<u8>,
    pub perm_z: Vec<u8>,
}

pub open spec fn perlin_wf(p: Perlin) -> bool {
    &&& p.random_vectors@.len() == 256
    &&& p.perm_x@.len() == 256
    &&& p.perm_y@.len() == 256
    &&& p.perm_z@.len() == 256
    &&& forall|i: int| 0 <= i < 256 ==> bounded(#[trigger] p.random_vectors@[i], SCALE as int)
}

/// The Hermite-smoothed weight `t * t * (3 - 2 t)`.
pub open spec fn hermite_v(t: int) -> int {
    fxmul(fxmul(t, t), 3 * SCALE - 2 * t)
}

/// One corner's contribution: the product of the three axis weights and
/// the dot product of the corner gradient with the fractional offset.
#[verifier::opaque]
pub open spec fn corner_term_v(
    sel_u: int,
    sel_v: int,
    sel_w: int,
    uu: int,
    vv: int,
    ww: int,
    u: int,
    v: int,
    w: int,
    grad: Vec3,
) -> int {
    let fu = if sel_u == 1 {
        uu
    } else {
        SCALE - uu
    };
    let fv = if sel_v == 1 {
        vv
    } else {
        SCALE - vv
    };
    let fw = if sel_w == 1 {
        ww
    } else {
        SCALE - ww
    };
    let weight = Vec3 {
        x: Fx { raw: (u - sel_u * SCALE) as i64 },
        y: Fx { raw: (v - sel_v * SCALE) as i64 },
        z: Fx { raw: (w - sel_w * SCALE) as i64 },
    };
    fxmul(fxmul(fxmul(fu, fv), fw), dot_v(grad, weight))
}

/// The gradient at one corner of the lattice cell with floor coordinates
/// `(i, j, k)`, selected by the xor of the three permuted axis indices
/// (coordinates wrap around the 256-entry tables).
#[verifier::opaque]
pub open spec fn corner_grad_v(p: Perlin, i: int, j: int, k: int, di: int, dj: int, dk: int) -> Vec3 {
    let ix = p.perm_x@[(i + di) % 256];
    let iy = p.perm_y@[(j + dj) % 256];
    let iz = p.perm_z@[(k + dk) % 256];
    p.random_vectors@[(ix ^ iy ^ iz) as int]
}

/// Raw value of the noise at a point: the smoothed interpolation of the
/// eight corner contributions of the lattice cell containing it.
pub open spec fn noise_v(p: Perlin, pt: Vec3) -> int {
    let u = pt.x.v() % (SCALE as int);
    let v = pt.y.v() % (SCALE as int);
    let w = pt.z.v() % (SCALE as int);
    let uu = hermite_v(u);
    let vv = hermite_v(v);
    let ww = hermite_v(w);
    corner_term_v(0, 0, 0, uu, vv, ww, u, v, w, corner_grad_v(p, pt.x.v() / (SCALE as int), pt.y.v() / (SCALE as int), pt.z.v() / (SCALE as int), 0, 0, 0))
        + corner_term_v(0, 0, 1, uu, vv, ww, u, v, w, corner_grad_v(p, pt.x.v() / (SCALE as int), pt.y.v() / (SCALE as int), pt.z.v() / (SCALE as int), 0, 0, 1))
        + corner_term_v(0, 1, 0, uu, vv, ww, u, v, w, corner_grad_v(p, pt.x.v() / (SCALE as int), pt.y.v() / (SCALE as int), pt.z.v() / (SCALE as int), 0, 1, 0))
        + corner_term_v(0, 1, 1, uu, vv, ww, u, v, w, corner_grad_v(p, pt.x.v() / (SCALE as int), pt.y.v() / (SCALE as int), pt.z.v() / (SCALE as int), 0, 1, 1))
        + corner_term_v(1, 0, 0, uu, vv, ww, u, v, w, corner_grad_v(p, pt.x.v() / (SCALE as int), pt.y.v() / (SCALE as int), pt.z.v() / (SCALE as int), 1, 0, 0))
        + corner_term_v(1, 0, 1, uu, vv, ww, u, v, w, corner_grad_v(p, pt.x.v() / (SCALE as int), pt.y.v() / (SCALE as int), pt.z.v() / (SCALE as int), 1, 0, 1))
        + corner_term_v(1, 1, 0, uu, vv, ww, u, v, w, corner_grad_v(p, pt.x.v() / (SCALE as int), pt.y.v() / (SCALE as int), pt.z.v() / (SCALE as int), 1, 1, 0))
        + corner_term_v(1, 1, 1, uu, vv, ww, u, v, w, corner_grad_v(p, pt.x.v() / (SCALE as int), pt.y.v() / (SCALE as int), pt.z.v() / (SCALE as int), 1, 1, 1))
}

/// The point with every component doubled.
pub open spec fn double_v(p: Vec3) -> Vec3 {
    Vec3 {
        x: Fx { raw: (2 * p.x.v()) as i64 },
        y: Fx { raw: (2 * p.y.v()) as i64 },
        z: Fx { raw: (2 * p.z.v()) as i64 },
    }
}

/// The signed octave sum underlying turbulence.
pub open spec fn turb_rec_v(p: Perlin, pt: Vec3, weight: int, depth: int) -> int
    decreases depth,
{
    if depth <= 0 {
        0
    } else {
        fxmul(weight, noise_v(p, pt)) + turb_rec_v(p, double_v(pt), weight / 2, depth - 1)
    }
}

/// Raw value of the turbulence: the octave sum's absolute value.
pub open spec fn turb_v(p: Perlin, pt: Vec3, depth: int) -> int {
    iabs(turb_rec_v(p, pt, SCALE as int, depth))
}

/// Magnitude budget of the octave point after `o` doublings.
pub open spec fn octave_mag(o: int) -> int
    decreases o,
{
    if o <= 0 {
        0x41_0000_0000_0000
    } else {
        2 * octave_mag(o - 1)
    }
}

/// For at most seven octaves the budget stays within the noise domain.
proof fn lemma_octave_mag(o: int)
    requires
        0 <= o <= 7,
    ensures
        0x41_0000_0000_0000 <= octave_mag(o) <= 0x2080_0000_0000_0000,
{
    assert(octave_mag(0) == 0x41_0000_0000_0000);
    assert(octave_mag(1) == 0x82_0000_0000_0000);
    assert(octave_mag(2) == 0x104_0000_0000_0000);
    assert(octave_mag(3) == 0x208_0000_0000_0000);
    assert(octave_mag(4) == 0x410_0000_0000_0000);
    assert(octave_mag(5) == 0x820_0000_0000_0000);
    assert(octave_mag(6) == 0x1040_0000_0000_0000);
    assert(octave_mag(7) == 0x2080_0000_0000_0000);
    if o == 0 {
    } else if o == 1 {
    } else if o == 2 {
    } else if o == 3 {
    } else if o == 4 {
    } else if o == 5 {
    } else if o == 6 {
    } else {
        assert(o == 7);
    }
}

/// The Euclidean remainder of an i64 by 256.
fn emod256(i: i64) -> (m: u64)
    requires
        i > i64::MIN,
    ensures
        m as int == (i as int) % 256,
        m < 256,
{
    if i >= 0 {
        (i as u64) % 256
    } else {
        let k: u64 = ((-i) as u64) % 256;
        proof {
            vstd::arithmetic::div_mod::lemma_fundamental_div_mod(-(i as int), 256);
            vstd::arithmetic::div_mod::lemma_mod_bound(-(i as int), 256);
            let a = (-(i as int)) / 256;
            if k == 0 {
                vstd::arithmetic::div_mod::lemma_fundamental_div_mod_converse(
                    i as int,
                    256,
                    -a,
                    0,
                );
            } else {
                vstd::arithmetic::div_mod::lemma_fundamental_div_mod_converse(
                    i as int,
                    256,
                    -a - 1,
                    256 - k as int,
                );
            }
        }
        if k == 0 {
            0
        } else {
            256 - k
        }
    }
}

/// Chained magnitude caps for one corner term: the three axis weights
/// live in the unit interval and the gradient dot product within three
/// units, so each corner contributes at most three units.
proof fn lemma_corner_chain(fu: int, fv: int, fw: int, dv: int)
    requires
        iabs(fu) <= 0x1_0000,
        iabs(fv) <= 0x1_0000,
        iabs(fw) <= 0x1_0000,
        iabs(dv) <= 0x3_0000,
    ensures
        iabs(fxmul(fu, fv)) <= 0x1_0000,
        iabs(fxmul(fxmul(fu, fv), fw)) <= 0x1_0000,
        iabs(fxmul(fxmul(fxmul(fu, fv), fw), dv)) <= 0x3_0000,
{
    assert(0x1_0000int * 0x1_0000 <= 0x1_0000int * 65536) by (nonlinear_arith);
    crate::fixed::lemma_fxmul_cap(fu, fv, 0x1_0000, 0x1_0000, 0x1_0000);
    crate::fixed::lemma_fxmul_cap(fxmul(fu, fv), fw, 0x1_0000, 0x1_0000, 0x1_0000);
    assert(0x1_0000int * 0x3_0000 <= 0x3_0000int * 65536) by (nonlinear_arith);
    crate::fixed::lemma_fxmul_cap(fxmul(fxmul(fu, fv), fw), dv, 0x1_0000, 0x3_0000, 0x3_0000);
}

/// The dot product of a unit-cube gradient with a unit-cube offset is at
/// most three units.
proof fn lemma_dot_unit(g: Vec3, w: Vec3)
    requires
        bounded(g, SCALE as int),
        bounded(w, SCALE as int),
    ensures
        iabs(dot_v(g, w)) <= 0x3_0000,
{
    assert(0x1_0000int * 0x1_0000 <= 0x1_0000int * 65536) by (nonlinear_arith);
    crate::fixed::lemma_fxmul_cap(g.x.v(), w.x.v(), 0x1_0000, 0x1_0000, 0x1_0000);
    crate::fixed::lemma_fxmul_cap(g.y.v(), w.y.v(), 0x1_0000, 0x1_0000, 0x1_0000);
    crate::fixed::lemma_fxmul_cap(g.z.v(), w.z.v(), 0x1_0000, 0x1_0000, 0x1_0000);
}

/// The Hermite-smoothed weight of a fraction: like its real counterpart
/// on `[0, 1)`, it stays within `[0, 1]`.
fn hermite(t: Fx) -> (r: Fx)
    requires
        0 <= t.v() < SCALE,
    ensures
        r.v() == hermite_v(t.v()),
        0 <= r.v() <= SCALE,
{
    proof {
        lemma_hermite_unit(t.v());
        assert(0x1_0000int * 0x1_0000 <= 0x1_0000int * 65536) by (nonlinear_arith);
        crate::fixed::lemma_fxmul_cap(t.v(), t.v(), 0x1_0000, 0x1_0000, 0x1_0000);
        assert(0x1_0000int * 0x3_0000 <= 0x3_0000int * 65536) by (nonlinear_arith);
        crate::fixed::lemma_fxmul_cap(
            fxmul(t.v(), t.v()),
            3 * SCALE - 2 * t.v(),
            0x1_0000,
            0x3_0000,
            0x3_0000,
        );
    }
    let t2: Fx = t.mul(t);
    let lin: Fx = Fx { raw: 3 * SCALE - 2 * t.raw };
    t2.mul(lin)
}

/// On the unit interval the Hermite weight stays within the unit
/// interval: `u^2 (3 - 2u) <= 1` because `1 - u^2 (3 - 2u)` factors as
/// `(1 - u)^2 (1 + 2u)`.
proof fn lemma_hermite_unit(u: int)
    requires
        0 <= u < SCALE,
    ensures
        0 <= hermite_v(u) <= SCALE,
{
    let s = SCALE as int;
    let t2 = fxmul(u, u);
    let lin = 3 * s - 2 * u;
    crate::vec3::lemma_fxmul_self_nonneg(u);
    assert(0 <= u * u) by (nonlinear_arith);
    // t2 is exactly the floor of u^2 / SCALE
    crate::fixed::lemma_tdiv_abs(u * u, s);
    assert(t2 == (u * u) / s);
    assert(t2 * s <= u * u) by {
        vstd::arithmetic::div_mod::lemma_fundamental_div_mod(u * u, s);
        vstd::arithmetic::div_mod::lemma_mod_bound(u * u, s);
        assert(t2 * s <= u * u) by (nonlinear_arith)
            requires
                u * u == s * t2 + (u * u) % s,
                (u * u) % s >= 0,
        ;
    }
    // u^2 (3 s - 2 u) <= s^3 since s^3 - u^2 (3 s - 2 u) == (s - u)^2 (s + 2 u)
    assert((u * u) * lin <= s * s * s) by (nonlinear_arith)
        requires
            0 <= u < s,
            lin == 3 * s - 2 * u,
    ;
    assert(t2 * lin * s <= (u * u) * lin) by (nonlinear_arith)
        requires
            t2 * s <= u * u,
            0 <= lin,
    ;
    assert(t2 * lin <= s * s) by (nonlinear_arith)
        requires
            t2 * lin * s <= s * s * s,
            0 < s,
    ;
    assert(0 <= t2 * lin) by (nonlinear_arith)
        requires
            0 <= t2,
            0 <= lin,
    ;
    crate::fixed::lemma_tdiv_abs(t2 * lin, s);
    vstd::arithmetic::div_mod::lemma_div_is_ordered(t2 * lin, s * s, s);
    vstd::arithmetic::div_mod::lemma_div_by_multiple(s, s);
    vstd::arithmetic::div_mod::lemma_div_pos_is_pos(t2 * lin, s);
    assert(s * s == s * s) by (nonlinear_arith);
}

/// The identity table over the byte values, as a spec sequence.
pub open spec fn identity_table() -> Seq<u8> {
    Seq::new(256, |i: int| i as u8)
}

/// A shuffled table of the 256 byte values: a Fisher-Yates pass over a
/// fresh identity table, so the result is a permutation of the bytes.
fn generate_permutation(rng: &mut rand::rngs::StdRng) -> (p: Vec<u8>)
    ensures
        p@.len() == 256,
        p@.to_multiset() == identity_table().to_multiset(),
{
    let mut p: Vec<u8> = Vec::new();
    let mut i: usize = 0;
    while i < 256
        invariant
            i <= 256,
            p@.len() == i,
            forall|m: int| 0 <= m < i ==> p@[m] == m as u8,
        decreases 256 - i,
    {
        p.push(i as u8);
        i += 1;
    }
    proof {
        assert(p@ =~= identity_table());
    }
    let ghost table = p@;
    let mut k: usize = 255;
    while k > 0
        invariant
            k < 256,
            p@.len() == 256,
            p@.to_multiset() == table.to_multiset(),
            table == identity_table(),
        decreases k,
    {
        let j: u32 = random_int_in_range(rng, 0, (k + 1) as u32);
        let ghost before = p@;
        let a: u8 = p[k];
        let b: u8 = p[j as usize];
        p.set(k, b);
        p.set(j as usize, a);
        proof {
            if k != j as usize {
                lemma_swap_multiset_u8(before, k as int, j as int);
            } else {
                assert(p@ =~= before);
            }
        }
        k -= 1;
    }
    p
}

/// Exchanging two elements of a byte sequence leaves its multiset
/// unchanged.
proof fn lemma_swap_multiset_u8(s: Seq<u8>, i: int, j: int)
    requires
        0 <= i < s.len(),
        0 <= j < s.len(),
        i != j,
    ensures
        s.update(i, s[j]).update(j, s[i]).to_multiset() == s.to_multiset(),
{
    broadcast use vstd::seq_lib::group_to_multiset_ensures;
    broadcast use vstd::multiset::group_multiset_axioms;
    broadcast use vstd::multiset::group_multiset_properties;

    let s1 = s.update(i, s[j]);
    let s2 = s1.update(j, s[i]);
    vstd::seq_lib::to_multiset_update(s, i, s[j]);
    vstd::seq_lib::to_multiset_update(s1, j, s[i]);
    assert(s1[j] == s[j]);
    assert(s.to_multiset().count(s[i]) > 0) by {
        assert(s.contains(s[i]));
    }
    assert(s.to_multiset().count(s[j]) > 0) by {
        assert(s.contains(s[j]));
    }
    assert(s2.to_multiset() =~= s.to_multiset());
}

impl Perlin {
    /// Fresh noise state: 256 random unit gradients and three shuffled
    /// index tables.
    /// Fresh noise state. The three index tables are genuine permutations
    /// of the byte values, and every gradient is a unit-cube vector with
    /// at least one component of appreciable size.
    pub fn new(rng: &mut rand::rngs::StdRng) -> (p: Perlin)
        ensures
            perlin_wf(p),
            p.perm_x@.to_multiset() == identity_table().to_multiset(),
            p.perm_y@.to_multiset() == identity_table().to_multiset(),
            p.perm_z@.to_multiset() == identity_table().to_multiset(),
            forall|k: int|
                0 <= k < 256 ==> (crate::fixed::iabs((#[trigger] p.random_vectors@[k]).x.v())
                    >= 9362 || crate::fixed::iabs(p.random_vectors@[k].y.v()) >= 9362
                    || crate::fixed::iabs(p.random_vectors@[k].z.v()) >= 9362),
    {
        let mut random_vectors: Vec<Vec3> = Vec::new();
        let mut i: usize = 0;
        while i < 256
            invariant
                i <= 256,
                random_vectors@.len() == i,
                forall|k: int|
                    0 <= k < i ==> bounded(#[trigger] random_vectors@[k], SCALE as int),
                forall|k: int|
                    0 <= k < i ==> (crate::fixed::iabs(
                        (#[trigger] random_vectors@[k]).x.v(),
                    ) >= 9362 || crate::fixed::iabs(random_vectors@[k].y.v()) >= 9362
                        || crate::fixed::iabs(random_vectors@[k].z.v()) >= 9362),
            decreases 256 - i,
        {
            let v = random_unit_vector(rng);
            random_vectors.push(v);
            i += 1;
        }
        let perm_x = generate_permutation(rng);
        let perm_y = generate_permutation(rng);
        let perm_z = generate_permutation(rng);
        Perlin { random_vectors, perm_x, perm_y, perm_z }
    }

    /// The gradient at one corner of the lattice cell `(i, j, k)`.
    fn grad(&self, i: i64, j: i64, k: i64, di: u8, dj: u8, dk: u8) -> (g: Vec3)
        requires
            perlin_wf(*self),
            -0x7fff_ffff_ffff_fff0 < i < 0x7fff_ffff_ffff_fff0,
            -0x7fff_ffff_ffff_fff0 < j < 0x7fff_ffff_ffff_fff0,
            -0x7fff_ffff_ffff_fff0 < k < 0x7fff_ffff_ffff_fff0,
            di <= 1 && dj <= 1 && dk <= 1,
        ensures
            g == corner_grad_v(*self, i as int, j as int, k as int, di as int, dj as int, dk as int),
            bounded(g, SCALE as int),
    {
        proof {
            reveal(corner_grad_v);
        }
        let cx: u64 = emod256(i + di as i64);
        let cy: u64 = emod256(j + dj as i64);
        let cz: u64 = emod256(k + dk as i64);
        let ix: u8 = self.perm_x[cx as usize];
        let iy: u8 = self.perm_y[cy as usize];
        let iz: u8 = self.perm_z[cz as usize];
        self.random_vectors[(ix ^ iy ^ iz) as usize]
    }

    /// One corner's contribution to the interpolation.
    fn corner(&self, grad: Vec3, di: u8, dj: u8, dk: u8, uu: Fx, vv: Fx, ww: Fx, u: Fx, v: Fx, w: Fx) -> (t: Fx)
        requires
            bounded(grad, SCALE as int),
            0 <= uu.v() <= SCALE,
            0 <= vv.v() <= SCALE,
            0 <= ww.v() <= SCALE,
            0 <= u.v() < SCALE,
            0 <= v.v() < SCALE,
            0 <= w.v() < SCALE,
            di <= 1 && dj <= 1 && dk <= 1,
        ensures
            t.v() == corner_term_v(
                di as int,
                dj as int,
                dk as int,
                uu.v(),
                vv.v(),
                ww.v(),
                u.v(),
                v.v(),
                w.v(),
                grad,
            ),
            iabs(t.v()) <= 0x3_0000,
    {
        let fu: Fx = if di == 1 {
            uu
        } else {
            Fx { raw: SCALE - uu.raw }
        };
        let fv: Fx = if dj == 1 {
            vv
        } else {
            Fx { raw: SCALE - vv.raw }
        };
        let fw: Fx = if dk == 1 {
            ww
        } else {
            Fx { raw: SCALE - ww.raw }
        };
        let weight: Vec3 = Vec3::new(
            Fx { raw: u.raw - (di as i64) * SCALE },
            Fx { raw: v.raw - (dj as i64) * SCALE },
            Fx { raw: w.raw - (dk as i64) * SCALE },
        );
        let d: Fx = grad.dot(weight);
        proof {
            reveal(corner_term_v);
            lemma_dot_unit(grad, weight);
            lemma_corner_chain(fu.v(), fv.v(), fw.v(), d.v());
        }
        fu.mul(fv).mul(fw).mul(d)
    }

    /// The noise value at a point.
    #[verifier::rlimit(100)]
    pub fn noise(&self, pt: Vec3) -> (r: Fx)
        requires
            perlin_wf(*self),
            bounded(pt, 0x2100_0000_0000_0000),
        ensures
            r.v() == noise_v(*self, pt),
            iabs(r.v()) <= 0x18_0000,
    {
        let u: Fx = pt.x.frac();
        let v: Fx = pt.y.frac();
        let w: Fx = pt.z.frac();
        let i: i64 = pt.x.floor_units();
        let j: i64 = pt.y.floor_units();
        let k: i64 = pt.z.floor_units();
        let uu: Fx = hermite(u);
        let vv: Fx = hermite(v);
        let ww: Fx = hermite(w);
        let t000: Fx = self.corner(self.grad(i, j, k, 0, 0, 0), 0, 0, 0, uu, vv, ww, u, v, w);
        let t001: Fx = self.corner(self.grad(i, j, k, 0, 0, 1), 0, 0, 1, uu, vv, ww, u, v, w);
        let t010: Fx = self.corner(self.grad(i, j, k, 0, 1, 0), 0, 1, 0, uu, vv, ww, u, v, w);
        let t011: Fx = self.corner(self.grad(i, j, k, 0, 1, 1), 0, 1, 1, uu, vv, ww, u, v, w);
        let t100: Fx = self.corner(self.grad(i, j, k, 1, 0, 0), 1, 0, 0, uu, vv, ww, u, v, w);
        let t101: Fx = self.corner(self.grad(i, j, k, 1, 0, 1), 1, 0, 1, uu, vv, ww, u, v, w);
        let t110: Fx = self.corner(self.grad(i, j, k, 1, 1, 0), 1, 1, 0, uu, vv, ww, u, v, w);
        let t111: Fx = self.corner(self.grad(i, j, k, 1, 1, 1), 1, 1, 1, uu, vv, ww, u, v, w);
        let sum: i64 = t000.raw + t001.raw + t010.raw + t011.raw + t100.raw + t101.raw
            + t110.raw + t111.raw;
        Fx { raw: sum }
    }

    /// Turbulence: octaves of noise at doubling frequency and halving
    /// amplitude, folded into an absolute value.
    #[verifier::rlimit(100)]
    pub fn turbulence(&self, pt: Vec3, depth: u8) -> (r: Fx)
        requires
            perlin_wf(*self),
            bounded(pt, 0x41_0000_0000_0000),
            depth <= 7,
        ensures
            r.v() == turb_v(*self, pt, depth as int),
            0 <= r.v() <= 0xa8_0000,
    {
        let mut accum: i64 = 0;
        let mut temp: Vec3 = pt;
        let mut weight: i64 = SCALE;
        let mut oct: u8 = 0;
        while oct < depth
            invariant
                perlin_wf(*self),
                oct <= depth <= 7,
                0 <= weight <= SCALE,
                bounded(temp, octave_mag(oct as int)),
                iabs(accum as int) <= (oct as int) * 0x18_0000,
                accum + turb_rec_v(*self, temp, weight as int, depth - oct) == turb_rec_v(
                    *self,
                    pt,
                    SCALE as int,
                    depth as int,
                ),
            decreases depth - oct,
        {
            proof {
                lemma_octave_mag(oct as int);
            }
            let n: Fx = self.noise(temp);
            proof {
                assert(0x1_0000int * 0x18_0000 <= 0x18_0000int * 65536) by (nonlinear_arith);
                crate::fixed::lemma_fxmul_cap(
                    weight as int,
                    n.v(),
                    0x1_0000,
                    0x18_0000,
                    0x18_0000,
                );
            }
            let wn: Fx = Fx { raw: weight }.mul(n);
            accum = accum + wn.raw;
            weight = ((weight as u64) / 2) as i64;
            temp = Vec3::new(
                Fx { raw: 2 * temp.x.raw },
                Fx { raw: 2 * temp.y.raw },
                Fx { raw: 2 * temp.z.raw },
            );
            oct += 1;
        }
        if accum < 0 {
            Fx { raw: -accum }
        } else {
            Fx { raw: accum }
        }
    }
}

} // verus!
