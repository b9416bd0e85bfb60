//! Analytic ray-sphere intersection.
//!
//! The quadratic `a t^2 + 2 h t + c = 0` formed from the ray/sphere offset
//! is evaluated exactly over wide integers (raw-squared units), so the
//! discriminant test and root selection have no intermediate rounding; the
//! only roundings are the integer square root of the discriminant and the
//! final division, both stated exactly. Of the two roots the smaller one in
//! range wins. A negative radius is a valid "hollow sphere" input: it only
//! flips the outward normal.
use crate::fixed::fxdiv;
use crate::fixed::iabs;
use crate::fixed::isqrt_u128;
use crate::fixed::fxmul;
use crate::fixed::lemma_fxmul_cap;
use crate::fixed::lemma_mul_mag;
use crate::fixed::lemma_sqrt_floor;
use crate::fixed::lemma_square_le;
use crate::fixed::sqrt_floor;
use crate::fixed::tdiv;
use crate::fixed::tdiv_i128;
use crate::fixed::Fx;
use crate::fixed::SCALE;
use crate::hittable::record_v;
use crate::hittable::HitRecord;
use crate::ray::at_v;
use crate::ray::ray_wf;
use crate::ray::Ray;
use crate::ray::PARAM_MAG;
use crate::ray::WORLD_MAG;
use crate::vec3::bounded;
use crate::vec3::Vec3;
use vstd::prelude::*;

verus! {

#[derive(Clone, Copy, Debug, PartialEq, Eq, Structural)]
pub struct Sphere {
    pub center: Vec3,
    pub radius: Fx,
    /// Index into the scene's material arena.
    pub material: usize,
}

/// A well-formed sphere sits within the world bounds and has a non-zero
/// radius (negative radii are valid hollow spheres).
pub open spec fn sphere_wf(s: Sphere) -> bool {
    &&& bounded(s.center, WORLD_MAG as int)
    &&& iabs(s.radius.v()) <= WORLD_MAG
    &&& s.radius.v() != 0
}

/// `a` coefficient of the intersection quadratic, in raw-squared units:
/// the squared length of the direction, computed without rounding.
pub open spec fn quad_a(d: Vec3) -> int {
    d.x.v() * d.x.v() + d.y.v() * d.y.v() + d.z.v() * d.z.v()
}

/// Half the `b` coefficient: the offset/direction dot product, exact.
pub open spec fn quad_hb(o: Vec3, c: Vec3, d: Vec3) -> int {
    (o.x.v() - c.x.v()) * d.x.v() + (o.y.v() - c.y.v()) * d.y.v() + (o.z.v() - c.z.v())
        * d.z.v()
}

/// The `c` coefficient: squared offset length minus squared radius, exact.
pub open spec fn quad_c(o: Vec3, c: Vec3, rad: int) -> int {
    (o.x.v() - c.x.v()) * (o.x.v() - c.x.v()) + (o.y.v() - c.y.v()) * (o.y.v() - c.y.v()) + (
    o.z.v() - c.z.v()) * (o.z.v() - c.z.v()) - rad * rad
}

/// Discriminant of the intersection quadratic (raw^4 units).
pub open spec fn quad_disc(center: Vec3, rad: int, r: Ray) -> int {
    let hb = quad_hb(r.origin, center, r.direction);
    hb * hb - quad_a(r.direction) * quad_c(r.origin, center, rad)
}

/// Raw ray parameter of the smaller intersection root.
pub open spec fn root_small(center: Vec3, rad: int, r: Ray) -> int {
    let hb = quad_hb(r.origin, center, r.direction);
    tdiv((-hb - sqrt_floor(quad_disc(center, rad, r))) * SCALE, quad_a(r.direction))
}

/// Raw ray parameter of the larger intersection root.
pub open spec fn root_large(center: Vec3, rad: int, r: Ray) -> int {
    let hb = quad_hb(r.origin, center, r.direction);
    tdiv((-hb + sqrt_floor(quad_disc(center, rad, r))) * SCALE, quad_a(r.direction))
}

/// The record produced for a hit at parameter `root`: the point along the
/// ray and the outward normal `(p - center) / radius`. If a normal
/// component would leave the geometric range (a numerically degenerate
/// configuration), the intersection reports no hit.
pub open spec fn sphere_record(
    center: Vec3,
    radius: Fx,
    material: usize,
    r: Ray,
    root: int,
) -> Option<HitRecord> {
    let px = at_v(r.origin.x.v(), r.direction.x.v(), root);
    let py = at_v(r.origin.y.v(), r.direction.y.v(), root);
    let pz = at_v(r.origin.z.v(), r.direction.z.v(), root);
    let nx = fxdiv(px - center.x.v(), radius.v());
    let ny = fxdiv(py - center.y.v(), radius.v());
    let nz = fxdiv(pz - center.z.v(), radius.v());
    if iabs(nx) <= 4 * SCALE && iabs(ny) <= 4 * SCALE && iabs(nz) <= 4 * SCALE {
        let p = Vec3 { x: Fx { raw: px as i64 }, y: Fx { raw: py as i64 }, z: Fx { raw: pz as i64 } };
        let outward = Vec3 {
            x: Fx { raw: nx as i64 },
            y: Fx { raw: ny as i64 },
            z: Fx { raw: nz as i64 },
        };
        Some(record_v(Fx { raw: root as i64 }, p, outward, r, material))
    } else {
        None
    }
}

/// What intersecting a sphere of the given center and radius returns: no
/// hit when the discriminant is non-positive, else the smaller root if it
/// lies strictly inside `(t_min, t_max)`, else the larger root if it does,
/// else no hit.
pub open spec fn sphere_hit_spec(
    center: Vec3,
    radius: Fx,
    material: usize,
    r: Ray,
    t_min: Fx,
    t_max: Fx,
) -> Option<HitRecord> {
    let disc = quad_disc(center, radius.v(), r);
    if disc <= 0 {
        None
    } else {
        let r1 = root_small(center, radius.v(), r);
        if t_min.v() < r1 < t_max.v() {
            sphere_record(center, radius, material, r, r1)
        } else {
            let r2 = root_large(center, radius.v(), r);
            if t_min.v() < r2 < t_max.v() {
                sphere_record(center, radius, material, r, r2)
            } else {
                None
            }
        }
    }
}

/// Bounds on the quadratic's coefficients for a well-formed configuration.
proof fn lemma_quad_bounds(center: Vec3, rad: int, r: Ray)
    requires
        ray_wf(r),
        bounded(center, WORLD_MAG as int),
        iabs(rad) <= WORLD_MAG,
    ensures
        0 <= quad_a(r.direction) <= 0x3000_0000_0000_0000,
        iabs(quad_hb(r.origin, center, r.direction)) <= 0x6000_0000_0000_0000,
        iabs(quad_c(r.origin, center, rad)) <= 0xd000_0000_0000_0000,
        iabs(quad_disc(center, rad, r)) <= 0x4b00_0000_0000_0000_0000_0000_0000_0000,
        quad_a(r.direction) == 0 ==> quad_disc(center, rad, r) == 0,
        iabs(r.direction.x.v() * r.direction.x.v()) <= 0x1000_0000_0000_0000,
        iabs(r.direction.y.v() * r.direction.y.v()) <= 0x1000_0000_0000_0000,
        iabs(r.direction.z.v() * r.direction.z.v()) <= 0x1000_0000_0000_0000,
        iabs((r.origin.x.v() - center.x.v()) * r.direction.x.v()) <= 0x2000_0000_0000_0000,
        iabs((r.origin.y.v() - center.y.v()) * r.direction.y.v()) <= 0x2000_0000_0000_0000,
        iabs((r.origin.z.v() - center.z.v()) * r.direction.z.v()) <= 0x2000_0000_0000_0000,
        iabs((r.origin.x.v() - center.x.v()) * (r.origin.x.v() - center.x.v()))
            <= 0x4000_0000_0000_0000,
        iabs((r.origin.y.v() - center.y.v()) * (r.origin.y.v() - center.y.v()))
            <= 0x4000_0000_0000_0000,
        iabs((r.origin.z.v() - center.z.v()) * (r.origin.z.v() - center.z.v()))
            <= 0x4000_0000_0000_0000,
        iabs(rad * rad) <= 0x1000_0000_0000_0000,
        iabs(quad_hb(r.origin, center, r.direction) * quad_hb(r.origin, center, r.direction))
            <= 0x2400_0000_0000_0000_0000_0000_0000_0000,
        iabs(quad_a(r.direction) * quad_c(r.origin, center, rad))
            <= 0x2700_0000_0000_0000_0000_0000_0000_0000,
{
    let d = r.direction;
    let o = r.origin;
    lemma_mul_mag(d.x.v(), d.x.v(), WORLD_MAG as int, WORLD_MAG as int);
    lemma_mul_mag(d.y.v(), d.y.v(), WORLD_MAG as int, WORLD_MAG as int);
    lemma_mul_mag(d.z.v(), d.z.v(), WORLD_MAG as int, WORLD_MAG as int);
    assert(0 <= d.x.v() * d.x.v()) by (nonlinear_arith);
    assert(0 <= d.y.v() * d.y.v()) by (nonlinear_arith);
    assert(0 <= d.z.v() * d.z.v()) by (nonlinear_arith);
    lemma_mul_mag(o.x.v() - center.x.v(), d.x.v(), 0x8000_0000, WORLD_MAG as int);
    lemma_mul_mag(o.y.v() - center.y.v(), d.y.v(), 0x8000_0000, WORLD_MAG as int);
    lemma_mul_mag(o.z.v() - center.z.v(), d.z.v(), 0x8000_0000, WORLD_MAG as int);
    lemma_mul_mag(o.x.v() - center.x.v(), o.x.v() - center.x.v(), 0x8000_0000, 0x8000_0000);
    lemma_mul_mag(o.y.v() - center.y.v(), o.y.v() - center.y.v(), 0x8000_0000, 0x8000_0000);
    lemma_mul_mag(o.z.v() - center.z.v(), o.z.v() - center.z.v(), 0x8000_0000, 0x8000_0000);
    lemma_mul_mag(rad, rad, WORLD_MAG as int, WORLD_MAG as int);
    let hb = quad_hb(o, center, d);
    let a = quad_a(d);
    let c = quad_c(o, center, rad);
    lemma_mul_mag(hb, hb, 0x6000_0000_0000_0000, 0x6000_0000_0000_0000);
    lemma_mul_mag(a, c, 0x3000_0000_0000_0000, 0xd000_0000_0000_0000);
    if a == 0 {
        assert(d.x.v() * d.x.v() == 0);
        assert(d.x.v() == 0) by (nonlinear_arith)
            requires
                d.x.v() * d.x.v() == 0,
        ;
        assert(d.y.v() == 0) by (nonlinear_arith)
            requires
                d.y.v() * d.y.v() == 0,
        ;
        assert(d.z.v() == 0) by (nonlinear_arith)
            requires
                d.z.v() * d.z.v() == 0,
        ;
        assert(hb == 0);
        assert(quad_disc(center, rad, r) == 0) by (nonlinear_arith)
            requires
                quad_disc(center, rad, r) == hb * hb - a * c,
                hb == 0,
                a == 0,
        ;
    }
}

/// The shared intersection routine: spheres and moving spheres both reduce
/// to it, the latter with a time-interpolated center.
pub(crate) fn sphere_intersect(
    center: Vec3,
    radius: Fx,
    material: usize,
    r: &Ray,
    t_min: Fx,
    t_max: Fx,
) -> (res: Option<HitRecord>)
    requires
        ray_wf(*r),
        bounded(center, WORLD_MAG as int),
        iabs(radius.v()) <= WORLD_MAG,
        radius.v() != 0,
        -PARAM_MAG <= t_min.v(),
        t_max.v() <= PARAM_MAG,
    ensures
        res == sphere_hit_spec(center, radius, material, *r, t_min, t_max),
{
    proof {
        lemma_quad_bounds(center, radius.v(), *r);
    }
    let ocx: i64 = r.origin.x.raw - center.x.raw;
    let ocy: i64 = r.origin.y.raw - center.y.raw;
    let ocz: i64 = r.origin.z.raw - center.z.raw;
    let dx: i64 = r.direction.x.raw;
    let dy: i64 = r.direction.y.raw;
    let dz: i64 = r.direction.z.raw;
    let a: i128 = (dx as i128) * (dx as i128) + (dy as i128) * (dy as i128) + (dz as i128)
        * (dz as i128);
    let hb: i128 = (ocx as i128) * (dx as i128) + (ocy as i128) * (dy as i128) + (ocz as i128)
        * (dz as i128);
    let c: i128 = (ocx as i128) * (ocx as i128) + (ocy as i128) * (ocy as i128) + (ocz as i128)
        * (ocz as i128) - (radius.raw as i128) * (radius.raw as i128);
    let disc: i128 = hb * hb - a * c;
    assert(a == quad_a(r.direction));
    assert(hb == quad_hb(r.origin, center, r.direction));
    assert(disc == quad_disc(center, radius.v(), *r));
    if disc <= 0 {
        return None;
    }
    assert(a != 0);
    assert(0 < a);
    let s: u128 = isqrt_u128(disc as u128);
    proof {
        lemma_sqrt_floor(disc as int);
        if s as int >= 0x1_0000_0000_0000_0000int {
            lemma_square_le(0x1_0000_0000_0000_0000int, s as int);
        }
        lemma_mul_mag(
            -(hb as int) - (s as int),
            SCALE as int,
            0x2_0000_0000_0000_0000,
            SCALE as int,
        );
        lemma_mul_mag(
            -(hb as int) + (s as int),
            SCALE as int,
            0x2_0000_0000_0000_0000,
            SCALE as int,
        );
    }
    let num1: i128 = -hb - (s as i128);
    let root1: i128 = tdiv_i128(num1 * (SCALE as i128), a);
    assert(root1 == root_small(center, radius.v(), *r));
    if (t_min.raw as i128) < root1 && root1 < (t_max.raw as i128) {
        return make_record(center, radius, material, r, Fx { raw: root1 as i64 });
    }
    let num2: i128 = -hb + (s as i128);
    let root2: i128 = tdiv_i128(num2 * (SCALE as i128), a);
    assert(root2 == root_large(center, radius.v(), *r));
    if (t_min.raw as i128) < root2 && root2 < (t_max.raw as i128) {
        return make_record(center, radius, material, r, Fx { raw: root2 as i64 });
    }
    None
}

/// Builds the hit record for a root already known to lie in range.
fn make_record(center: Vec3, radius: Fx, material: usize, r: &Ray, root: Fx) -> (res: Option<
    HitRecord,
>)
    requires
        ray_wf(*r),
        bounded(center, WORLD_MAG as int),
        iabs(radius.v()) <= WORLD_MAG,
        radius.v() != 0,
        iabs(root.v()) <= PARAM_MAG,
    ensures
        res == sphere_record(center, radius, material, *r, root.v()),
{
    let p: Vec3 = r.at(root);
    proof {
        lemma_mul_mag(
            p.x.v() - center.x.v(),
            SCALE as int,
            0x100_0000_0000_0000,
            SCALE as int,
        );
        lemma_mul_mag(
            p.y.v() - center.y.v(),
            SCALE as int,
            0x100_0000_0000_0000,
            SCALE as int,
        );
        lemma_mul_mag(
            p.z.v() - center.z.v(),
            SCALE as int,
            0x100_0000_0000_0000,
            SCALE as int,
        );
    }
    let nx: i128 = tdiv_i128(((p.x.raw - center.x.raw) as i128) * (SCALE as i128),
        radius.raw as i128);
    let ny: i128 = tdiv_i128(((p.y.raw - center.y.raw) as i128) * (SCALE as i128),
        radius.raw as i128);
    let nz: i128 = tdiv_i128(((p.z.raw - center.z.raw) as i128) * (SCALE as i128),
        radius.raw as i128);
    let g: i128 = 4 * (SCALE as i128);
    if nx < -g || nx > g || ny < -g || ny > g || nz < -g || nz > g {
        return None;
    }
    let outward: Vec3 = Vec3::new(
        Fx { raw: nx as i64 },
        Fx { raw: ny as i64 },
        Fx { raw: nz as i64 },
    );
    Some(HitRecord::new(root, p, outward, *r, material))
}

/// A zero `a` coefficient forces a zero discriminant: the direction is the
/// zero vector, so the half-`b` coefficient vanishes too.
pub proof fn lemma_zero_direction(center: Vec3, rad: int, r: Ray)
    requires
        quad_a(r.direction) == 0,
    ensures
        quad_disc(center, rad, r) == 0,
{
    let d = r.direction;
    assert(0 <= d.x.v() * d.x.v()) by (nonlinear_arith);
    assert(0 <= d.y.v() * d.y.v()) by (nonlinear_arith);
    assert(0 <= d.z.v() * d.z.v()) by (nonlinear_arith);
    assert(d.x.v() == 0) by (nonlinear_arith)
        requires
            d.x.v() * d.x.v() == 0,
    ;
    assert(d.y.v() == 0) by (nonlinear_arith)
        requires
            d.y.v() * d.y.v() == 0,
    ;
    assert(d.z.v() == 0) by (nonlinear_arith)
        requires
            d.z.v() * d.z.v() == 0,
    ;
    let hb = quad_hb(r.origin, center, d);
    assert(hb == 0);
    assert(hb * hb - quad_a(d) * quad_c(r.origin, center, rad) == 0) by (nonlinear_arith)
        requires
            hb == 0,
            quad_a(d) == 0,
    ;
}

/// Quadratic `a` coefficients are non-negative.
pub proof fn lemma_quad_a_nonneg(d: Vec3)
    ensures
        0 <= quad_a(d),
{
    assert(0 <= d.x.v() * d.x.v()) by (nonlinear_arith);
    assert(0 <= d.y.v() * d.y.v()) by (nonlinear_arith);
    assert(0 <= d.z.v() * d.z.v()) by (nonlinear_arith);
}

/// When a sphere reports a hit, its parameter lies strictly inside the
/// queried interval.
pub proof fn lemma_sphere_in_range(
    center: Vec3,
    radius: Fx,
    material: usize,
    r: Ray,
    t_min: Fx,
    t_max: Fx,
)
    ensures
        sphere_hit_spec(center, radius, material, r, t_min, t_max) matches Some(h) ==> t_min.v()
            < h.t.v() < t_max.v(),
{
}

/// Restricting the query interval: shrinking `t_max` keeps exactly the
/// hits whose parameter still lies below the new bound. This is what lets
/// a scan tighten `t_max` to the best hit so far without changing the
/// nearest result.
pub proof fn lemma_sphere_restrict(
    center: Vec3,
    radius: Fx,
    material: usize,
    r: Ray,
    t_min: Fx,
    ta: Fx,
    tb: Fx,
)
    requires
        ta.v() <= tb.v(),
    ensures
        sphere_hit_spec(center, radius, material, r, t_min, ta) == (match sphere_hit_spec(
            center,
            radius,
            material,
            r,
            t_min,
            tb,
        ) {
            Some(h) => if h.t.v() < ta.v() {
                Some(h)
            } else {
                None::<HitRecord>
            },
            None => None::<HitRecord>,
        }),
{
    let disc = quad_disc(center, radius.v(), r);
    if disc > 0 {
        let a = quad_a(r.direction);
        lemma_quad_a_nonneg(r.direction);
        if a == 0 {
            lemma_zero_direction(center, radius.v(), r);
        }
        assert(0 < a);
        lemma_sqrt_floor(disc);
        let s = sqrt_floor(disc);
        let hb = quad_hb(r.origin, center, r.direction);
        crate::fixed::lemma_tdiv_mono((-hb - s) * SCALE, (-hb + s) * SCALE, a);
        assert(root_small(center, radius.v(), r) <= root_large(center, radius.v(), r));
    }
}

impl Sphere {
    pub fn new(center: Vec3, radius: Fx, material: usize) -> (s: Sphere)
        ensures
            s.center == center && s.radius == radius && s.material == material,
    {
        Sphere { center, radius, material }
    }

    /// Analytic intersection against `(t_min, t_max)`.
    pub fn hit(&self, r: &Ray, t_min: Fx, t_max: Fx) -> (res: Option<HitRecord>)
        requires
            ray_wf(*r),
            sphere_wf(*self),
            -PARAM_MAG <= t_min.v(),
            t_max.v() <= PARAM_MAG,
        ensures
            res == sphere_hit_spec(self.center, self.radius, self.material, *r, t_min, t_max),
    {
        sphere_intersect(self.center, self.radius, self.material, r, t_min, t_max)
    }

    /// The box `center +/- |radius|` on every axis, containing the sphere
    /// at all times.
    pub fn bounding_box(&self, _t0: Fx, _t1: Fx) -> (res: Option<crate::aabb::AABB>)
        requires
            sphere_wf(*self),
        ensures
            res matches Some(b) && b == sphere_box(*self),
    {
        let rad: Fx = self.radius.abs();
        let rv: Vec3 = Vec3::new(rad, rad, rad);
        Some(crate::aabb::AABB::new(self.center.sub(rv), self.center.add(rv)))
    }
}

/// The sphere's bounding box: center offset by the radius magnitude.
pub open spec fn sphere_box(s: Sphere) -> crate::aabb::AABB {
    let rad = iabs(s.radius.v());
    crate::aabb::AABB {
        min: Vec3 {
            x: Fx { raw: (s.center.x.v() - rad) as i64 },
            y: Fx { raw: (s.center.y.v() - rad) as i64 },
            z: Fx { raw: (s.center.z.v() - rad) as i64 },
        },
        max: Vec3 {
            x: Fx { raw: (s.center.x.v() + rad) as i64 },
            y: Fx { raw: (s.center.y.v() + rad) as i64 },
            z: Fx { raw: (s.center.z.v() + rad) as i64 },
        },
    }
}

/// Every record a sphere intersection reports is geometrically tame: the
/// normal is within four units, the point within the reachable span, the
/// parameter strictly inside the queried interval, and the material is the
/// sphere's own.
pub proof fn lemma_sphere_record_props(
    center: Vec3,
    radius: Fx,
    material: usize,
    r: Ray,
    t_min: Fx,
    t_max: Fx,
)
    requires
        ray_wf(r),
        iabs(t_min.v()) <= PARAM_MAG,
        iabs(t_max.v()) <= PARAM_MAG,
    ensures
        sphere_hit_spec(center, radius, material, r, t_min, t_max) matches Some(h) ==> {
            &&& bounded(h.normal, 4 * SCALE)
            &&& bounded(h.p, 0x41_0000_0000_0000)
            &&& h.material == material
            &&& t_min.v() < h.t.v() < t_max.v()
        },
{
    let disc = quad_disc(center, radius.v(), r);
    if disc > 0 {
        lemma_root_point_bound(r, root_small(center, radius.v(), r), t_min, t_max);
        lemma_root_point_bound(r, root_large(center, radius.v(), r), t_min, t_max);
    }
}

/// The ray point at an in-range parameter stays within the reachable span.
proof fn lemma_root_point_bound(r: Ray, root: int, t_min: Fx, t_max: Fx)
    requires
        ray_wf(r),
        iabs(t_min.v()) <= PARAM_MAG,
        iabs(t_max.v()) <= PARAM_MAG,
    ensures
        t_min.v() < root < t_max.v() ==> {
            &&& iabs(at_v(r.origin.x.v(), r.direction.x.v(), root)) <= 0x41_0000_0000_0000
            &&& iabs(at_v(r.origin.y.v(), r.direction.y.v(), root)) <= 0x41_0000_0000_0000
            &&& iabs(at_v(r.origin.z.v(), r.direction.z.v(), root)) <= 0x41_0000_0000_0000
        },
{
    if t_min.v() < root < t_max.v() {
        lemma_at_bound(r.direction.x.v(), root);
        lemma_at_bound(r.direction.y.v(), root);
        lemma_at_bound(r.direction.z.v(), root);
    }
}

/// A bounded direction scaled by an in-range parameter moves at most
/// `2^54` raw units.
proof fn lemma_at_bound(d: int, t: int)
    requires
        iabs(d) <= WORLD_MAG,
        iabs(t) <= PARAM_MAG,
    ensures
        iabs(fxmul(d, t)) <= 0x40_0000_0000_0000,
{
    assert(0x4000_0000int * 0x100_0000_0000 <= 0x40_0000_0000_0000int * 65536)
        by (nonlinear_arith);
    lemma_fxmul_cap(d, t, 0x4000_0000, 0x100_0000_0000, 0x40_0000_0000_0000);
}

} // verus!
