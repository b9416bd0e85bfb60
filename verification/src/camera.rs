//! The camera: an orthonormal basis built from look-from/look-at/up, a
//! viewport rectangle at the focus distance, a lens radius for defocus
//! blur and a shutter interval for motion blur.
use crate::fixed::fxdiv;
use crate::fixed::fxmul;
use crate::fixed::iabs;
use crate::fixed::tdiv;
use crate::fixed::Fx;
use crate::fixed::SCALE;
use crate::ray::ray_wf;
use crate::ray::Ray;
use crate::ray::WORLD_MAG;
use crate::utils::cos_v;
use crate::utils::random_in_range;
use crate::utils::random_in_unit_disk;
use crate::utils::sin_v;
use crate::utils::FX_PI;
use crate::vec3::bounded;
use crate::vec3::cross_vec;
use crate::vec3::cross_x_v;
use crate::vec3::cross_y_v;
use crate::vec3::cross_z_v;
use crate::vec3::len_sq_v;
use crate::vec3::sub_vec;
use crate::vec3::unit_v;
use crate::vec3::Vec3;
use vstd::prelude::*;

verus! {

#[derive(Clone, Copy, Debug, PartialEq, Eq, Structural)]
pub struct Camera {
    pub origin: Vec3,
    pub lower_left_corner: Vec3,
    pub horizontal: Vec3,
    pub vertical: Vec3,
    pub u: Vec3,
    pub v: Vec3,
    pub w: Vec3,
    pub lens_radius: Fx,
    pub time0: Fx,
    pub time1: Fx,
}

/// The magnitude budget a constructed camera obeys: viewport vectors
/// small enough that every generated ray stays inside the world.
pub open spec fn camera_wf(c: Camera) -> bool {
    &&& bounded(c.origin, 0x100_0000)
    &&& bounded(c.lower_left_corner, 0xc00_0000)
    &&& bounded(c.horizontal, 0x400_0000)
    &&& bounded(c.vertical, 0x1000_0000)
    &&& bounded(c.u, 2 * SCALE)
    &&& bounded(c.v, 0x8_0000)
    &&& 0 <= c.lens_radius.v() <= 0x8_0000
    &&& iabs(c.time0.v()) <= WORLD_MAG
    &&& iabs(c.time1.v()) <= WORLD_MAG
    &&& c.time0.v() <= c.time1.v()
}

/// The viewport half-extent from the tangent, clamped to eight units so a
/// near-degenerate field of view cannot blow the world budget.
pub open spec fn clamp_half(h: int) -> int {
    if h > 8 * SCALE {
        8 * SCALE
    } else if h < -8 * SCALE {
        -8 * SCALE
    } else {
        h
    }
}

/// The tangent of half the vertical field of view (given in degrees), on
/// the fixed-point grid; a vanishing cosine yields zero.
pub open spec fn tan_half_fov_v(vfov: int) -> int {
    let theta = tdiv(fxmul(vfov, FX_PI as int), 180);
    let half = theta / 2;
    if cos_v(half) == 0 {
        0
    } else {
        fxdiv(sin_v(half), cos_v(half))
    }
}

/// The viewport half-height: the clamped tangent of half the field of
/// view.
pub open spec fn half_height_v(vfov: int) -> int {
    clamp_half(tan_half_fov_v(vfov))
}

/// The viewport half-width: the aspect-scaled half-height, clamped.
pub open spec fn half_width_v(vfov: int, aspect: int) -> int {
    clamp_half(fxmul(aspect, half_height_v(vfov)))
}

/// The one ray the camera produces for `(s, t)` when nothing is left to
/// chance: a closed lens and a zero-width shutter interval.
pub open spec fn camera_ray0_v(c: Camera, s: Fx, t: Fx) -> Ray {
    Ray {
        origin: c.origin,
        direction: Vec3 {
            x: Fx {
                raw: (c.lower_left_corner.x.v() + fxmul(c.horizontal.x.v(), s.v()) + fxmul(
                    c.vertical.x.v(),
                    t.v(),
                ) - c.origin.x.v()) as i64,
            },
            y: Fx {
                raw: (c.lower_left_corner.y.v() + fxmul(c.horizontal.y.v(), s.v()) + fxmul(
                    c.vertical.y.v(),
                    t.v(),
                ) - c.origin.y.v()) as i64,
            },
            z: Fx {
                raw: (c.lower_left_corner.z.v() + fxmul(c.horizontal.z.v(), s.v()) + fxmul(
                    c.vertical.z.v(),
                    t.v(),
                ) - c.origin.z.v()) as i64,
            },
        },
        time: c.time0,
    }
}

impl Camera {
    /// Build the camera basis and viewport. The vertical field of view is
    /// top to bottom in degrees; `aspect` is the width-to-height ratio.
    pub fn new(
        look_from: Vec3,
        look_at: Vec3,
        view_up: Vec3,
        vertical_field_of_view: Fx,
        aspect: Fx,
        aperture: Fx,
        focus_dist: Fx,
        time0: Fx,
        time1: Fx,
    ) -> (c: Camera)
        requires
            bounded(look_from, 0x100_0000),
            bounded(look_at, 0x100_0000),
            bounded(view_up, 0x10_0000),
            0 <= vertical_field_of_view.v() <= 0x2000_0000,
            0 <= aspect.v() <= 0x10_0000,
            0 <= aperture.v() <= 0x10_0000,
            0 <= focus_dist.v() <= 0x20_0000,
            iabs(time0.v()) <= WORLD_MAG,
            iabs(time1.v()) <= WORLD_MAG,
            time0.v() <= time1.v(),
            len_sq_v(sub_vec(look_from, look_at)) >= SCALE,
            len_sq_v(cross_vec(view_up, unit_v(sub_vec(look_from, look_at)))) >= SCALE,
        ensures
            camera_wf(c),
            c.origin == look_from,
            c.time0 == time0 && c.time1 == time1,
            c.lens_radius.v() == aperture.v() / 2,
            c.w == unit_v(sub_vec(look_from, look_at)),
            c.u == unit_v(cross_vec(view_up, unit_v(sub_vec(look_from, look_at)))),
            c.v == cross_vec(c.w, c.u),
            ({
                let hwfd = fxmul(
                    half_width_v(vertical_field_of_view.v(), aspect.v()),
                    focus_dist.v(),
                );
                let hhfd = fxmul(half_height_v(vertical_field_of_view.v()), focus_dist.v());
                &&& c.lower_left_corner.x.v() == look_from.x.v() - fxmul(c.u.x.v(), hwfd)
                    - fxmul(c.v.x.v(), hhfd) - fxmul(c.w.x.v(), focus_dist.v())
                &&& c.lower_left_corner.y.v() == look_from.y.v() - fxmul(c.u.y.v(), hwfd)
                    - fxmul(c.v.y.v(), hhfd) - fxmul(c.w.y.v(), focus_dist.v())
                &&& c.lower_left_corner.z.v() == look_from.z.v() - fxmul(c.u.z.v(), hwfd)
                    - fxmul(c.v.z.v(), hhfd) - fxmul(c.w.z.v(), focus_dist.v())
                &&& c.horizontal.x.v() == fxmul(c.u.x.v(), 2 * hwfd)
                &&& c.horizontal.y.v() == fxmul(c.u.y.v(), 2 * hwfd)
                &&& c.horizontal.z.v() == fxmul(c.u.z.v(), 2 * hwfd)
                &&& c.vertical.x.v() == fxmul(c.v.x.v(), 2 * hhfd)
                &&& c.vertical.y.v() == fxmul(c.v.y.v(), 2 * hhfd)
                &&& c.vertical.z.v() == fxmul(c.v.z.v(), 2 * hhfd)
            }),
    {
        let origin: Vec3 = look_from;
        let lens_radius: Fx = Fx { raw: ((aperture.raw as u64) / 2) as i64 };
        let theta: Fx = to_radians(vertical_field_of_view);
        let half_angle: Fx = Fx { raw: ((theta.raw as u64) / 2) as i64 };
        let sin_h: Fx = crate::utils::sin_approx(half_angle);
        let cos_h: Fx = crate::utils::cos_approx(half_angle);
        let tan_h: Fx = if cos_h.raw == 0 {
            Fx { raw: 0 }
        } else {
            proof {
                lemma_tan_fit(sin_h.v(), cos_h.v());
            }
            sin_h.div(cos_h)
        };
        let half_height: Fx = clamp_half_exec(tan_h);
        proof {
            lemma_aspect_fit(aspect.v(), half_height.v());
        }
        let half_width: Fx = clamp_half_exec(aspect.mul(half_height));
        let diff: Vec3 = look_from.sub(look_at);
        proof {
            assert(diff == sub_vec(look_from, look_at));
        }
        let w: Vec3 = diff.norm();
        proof {
            lemma_cross_up_fit(view_up, w);
        }
        let cr: Vec3 = view_up.cross(w);
        proof {
            assert(cr == cross_vec(view_up, w));
        }
        let u: Vec3 = cr.norm();
        proof {
            lemma_basis_fit(w, u);
        }
        let v: Vec3 = w.cross(u);
        proof {
            lemma_viewport_fit(half_width.v(), half_height.v(), focus_dist.v(), u, v, w);
        }
        let hwfd: Fx = half_width.mul(focus_dist);
        let hhfd: Fx = half_height.mul(focus_dist);
        let lower_left_corner: Vec3 = origin.sub(u.scale(hwfd)).sub(v.scale(hhfd)).sub(
            w.scale(focus_dist),
        );
        let horizontal: Vec3 = u.scale(Fx { raw: 2 * hwfd.raw });
        let vertical: Vec3 = v.scale(Fx { raw: 2 * hhfd.raw });
        Camera {
            lower_left_corner,
            horizontal,
            vertical,
            origin,
            u,
            v,
            w,
            lens_radius,
            time0,
            time1,
        }
    }

    /// A ray through the viewport point `(s, t)`, jittered across the lens
    /// disk for defocus blur, at a random time within the shutter
    /// interval.
    #[verifier::rlimit(100)]
    pub fn get_ray(&self, s: Fx, t: Fx, rng: &mut rand::rngs::StdRng) -> (r: Ray)
        requires
            camera_wf(*self),
            0 <= s.v() <= SCALE,
            0 <= t.v() <= SCALE,
        ensures
            ray_wf(r),
            self.time0.v() <= r.time.v() <= self.time1.v(),
            (self.lens_radius.v() == 0 && self.time0 == self.time1) ==> r == camera_ray0_v(
                *self,
                s,
                t,
            ),
            exists|rd: Vec3|
                {
                    &&& #[trigger] len_sq_v(rd) < SCALE
                    &&& rd.z.v() == 0
                    &&& bounded(rd, SCALE as int)
                    &&& r.origin.x.v() == self.origin.x.v() + fxmul(
                        self.u.x.v(),
                        fxmul(rd.x.v(), self.lens_radius.v()),
                    ) + fxmul(self.v.x.v(), fxmul(rd.y.v(), self.lens_radius.v()))
                    &&& r.origin.y.v() == self.origin.y.v() + fxmul(
                        self.u.y.v(),
                        fxmul(rd.x.v(), self.lens_radius.v()),
                    ) + fxmul(self.v.y.v(), fxmul(rd.y.v(), self.lens_radius.v()))
                    &&& r.origin.z.v() == self.origin.z.v() + fxmul(
                        self.u.z.v(),
                        fxmul(rd.x.v(), self.lens_radius.v()),
                    ) + fxmul(self.v.z.v(), fxmul(rd.y.v(), self.lens_radius.v()))
                    &&& r.direction.x.v() == self.lower_left_corner.x.v() + fxmul(
                        self.horizontal.x.v(),
                        s.v(),
                    ) + fxmul(self.vertical.x.v(), t.v()) - self.origin.x.v() - (r.origin.x.v()
                        - self.origin.x.v())
                    &&& r.direction.y.v() == self.lower_left_corner.y.v() + fxmul(
                        self.horizontal.y.v(),
                        s.v(),
                    ) + fxmul(self.vertical.y.v(), t.v()) - self.origin.y.v() - (r.origin.y.v()
                        - self.origin.y.v())
                    &&& r.direction.z.v() == self.lower_left_corner.z.v() + fxmul(
                        self.horizontal.z.v(),
                        s.v(),
                    ) + fxmul(self.vertical.z.v(), t.v()) - self.origin.z.v() - (r.origin.z.v()
                        - self.origin.z.v())
                },
    {
        let d: Vec3 = random_in_unit_disk(rng);
        proof {
            lemma_ray_fit(*self, d, s.v(), t.v());
        }
        let rdx: Fx = d.x.mul(self.lens_radius);
        let rdy: Fx = d.y.mul(self.lens_radius);
        let offset: Vec3 = self.u.scale(rdx).add(self.v.scale(rdy));
        let origin: Vec3 = self.origin.add(offset);
        let direction: Vec3 = self.lower_left_corner.add(self.horizontal.scale(s)).add(
            self.vertical.scale(t),
        ).sub(self.origin).sub(offset);
        let time: Fx = random_in_range(rng, self.time0, self.time1);
        let r: Ray = Ray::new(origin, direction, time);
        proof {
            assert(len_sq_v(d) < SCALE);
            if self.lens_radius.v() == 0 {
                crate::fixed::lemma_fxmul_zero(d.x.v());
                crate::fixed::lemma_fxmul_zero(d.y.v());
                crate::fixed::lemma_fxmul_zero(self.u.x.v());
                crate::fixed::lemma_fxmul_zero(self.u.y.v());
                crate::fixed::lemma_fxmul_zero(self.u.z.v());
                crate::fixed::lemma_fxmul_zero(self.v.x.v());
                crate::fixed::lemma_fxmul_zero(self.v.y.v());
                crate::fixed::lemma_fxmul_zero(self.v.z.v());
            }
        }
        r
    }
}

/// Degrees to radians on the fixed-point grid.
fn to_radians(deg: Fx) -> (r: Fx)
    requires
        iabs(deg.v()) <= 0x2000_0000,
    ensures
        r.v() == tdiv(fxmul(deg.v(), FX_PI as int), 180),
        0 <= deg.v() ==> 0 <= r.v(),
{
    proof {
        if 0 <= deg.v() {
            assert(0 <= deg.v() * FX_PI) by (nonlinear_arith)
                requires
                    0 <= deg.v(),
                    0 < FX_PI,
            ;
            vstd::arithmetic::div_mod::lemma_div_pos_is_pos(iabs(deg.v() * FX_PI), SCALE as int);
            vstd::arithmetic::div_mod::lemma_div_pos_is_pos(
                iabs(fxmul(deg.v(), FX_PI as int)),
                180,
            );
        }
    }
    proof {
        assert(0x2000_0000int * 0x4_0000 <= 0x8_0000_0000int * 65536) by (nonlinear_arith);
        crate::fixed::lemma_fxmul_cap(deg.v(), FX_PI as int, 0x2000_0000, 0x4_0000, 0x8_0000_0000);
    }
    let scaled: Fx = deg.mul(Fx { raw: FX_PI });
    let q: i128 = crate::fixed::tdiv_i128(scaled.raw as i128, 180);
    proof {
        crate::fixed::lemma_tdiv_abs(scaled.v(), 180);
        vstd::arithmetic::div_mod::lemma_div_nonincreasing(iabs(scaled.v()), 180);
    }
    Fx { raw: q as i64 }
}

/// Clamp a viewport half-extent to eight units.
fn clamp_half_exec(h: Fx) -> (r: Fx)
    ensures
        r.v() == clamp_half(h.v()),
        iabs(r.v()) <= 8 * SCALE,
{
    if h.raw > 8 * SCALE {
        Fx { raw: 8 * SCALE }
    } else if h.raw < -8 * SCALE {
        Fx { raw: -8 * SCALE }
    } else {
        h
    }
}

/// The tangent quotient fits comfortably.
proof fn lemma_tan_fit(s: int, c: int)
    requires
        iabs(s) <= 0x8000_0000,
        c != 0,
    ensures
        iabs(fxdiv(s, c)) <= 0x8000_0000_0000,
{
    crate::fixed::lemma_mul_mag(s, SCALE as int, 0x8000_0000, SCALE as int);
    crate::fixed::lemma_tdiv_abs(s * SCALE, c);
    vstd::arithmetic::div_mod::lemma_div_nonincreasing(iabs(s * SCALE), iabs(c));
}

/// The aspect-scaled half-extent fits.
proof fn lemma_aspect_fit(aspect: int, hh: int)
    requires
        0 <= aspect <= 0x10_0000,
        iabs(hh) <= 8 * SCALE,
    ensures
        iabs(fxmul(aspect, hh)) <= 0x80_0000,
{
    assert(0x10_0000int * 0x8_0000 <= 0x80_0000int * 65536) by (nonlinear_arith);
    crate::fixed::lemma_fxmul_cap(aspect, hh, 0x10_0000, 0x8_0000, 0x80_0000);
}

/// The second basis vector stays within sixteen units.
proof fn lemma_basis_fit(w: Vec3, u: Vec3)
    requires
        bounded(w, 2 * SCALE),
        bounded(u, 2 * SCALE),
    ensures
        iabs(cross_x_v(w, u)) <= 0x8_0000,
        iabs(cross_y_v(w, u)) <= 0x8_0000,
        iabs(cross_z_v(w, u)) <= 0x8_0000,
{
    assert(0x2_0000int * 0x2_0000 <= 0x4_0000int * 65536) by (nonlinear_arith);
    crate::fixed::lemma_fxmul_cap(w.x.v(), u.x.v(), 0x2_0000, 0x2_0000, 0x4_0000);
    crate::fixed::lemma_fxmul_cap(w.x.v(), u.y.v(), 0x2_0000, 0x2_0000, 0x4_0000);
    crate::fixed::lemma_fxmul_cap(w.x.v(), u.z.v(), 0x2_0000, 0x2_0000, 0x4_0000);
    crate::fixed::lemma_fxmul_cap(w.y.v(), u.x.v(), 0x2_0000, 0x2_0000, 0x4_0000);
    crate::fixed::lemma_fxmul_cap(w.y.v(), u.y.v(), 0x2_0000, 0x2_0000, 0x4_0000);
    crate::fixed::lemma_fxmul_cap(w.y.v(), u.z.v(), 0x2_0000, 0x2_0000, 0x4_0000);
    crate::fixed::lemma_fxmul_cap(w.z.v(), u.x.v(), 0x2_0000, 0x2_0000, 0x4_0000);
    crate::fixed::lemma_fxmul_cap(w.z.v(), u.y.v(), 0x2_0000, 0x2_0000, 0x4_0000);
    crate::fixed::lemma_fxmul_cap(w.z.v(), u.z.v(), 0x2_0000, 0x2_0000, 0x4_0000);
}

/// The viewport corner and extents stay within the camera budget.
proof fn lemma_viewport_fit(hw: int, hh: int, fd: int, u: Vec3, v: Vec3, w: Vec3)
    requires
        iabs(hw) <= 8 * SCALE,
        iabs(hh) <= 8 * SCALE,
        0 <= fd <= 0x20_0000,
        bounded(u, 2 * SCALE),
        bounded(v, 0x8_0000),
        bounded(w, 2 * SCALE),
    ensures
        iabs(fxmul(hw, fd)) <= 0x100_0000,
        iabs(fxmul(hh, fd)) <= 0x100_0000,
        iabs(fxmul(u.x.v(), fxmul(hw, fd))) <= 0x200_0000,
        iabs(fxmul(u.y.v(), fxmul(hw, fd))) <= 0x200_0000,
        iabs(fxmul(u.z.v(), fxmul(hw, fd))) <= 0x200_0000,
        iabs(fxmul(v.x.v(), fxmul(hh, fd))) <= 0x800_0000,
        iabs(fxmul(v.y.v(), fxmul(hh, fd))) <= 0x800_0000,
        iabs(fxmul(v.z.v(), fxmul(hh, fd))) <= 0x800_0000,
        iabs(fxmul(w.x.v(), fd)) <= 0x40_0000,
        iabs(fxmul(w.y.v(), fd)) <= 0x40_0000,
        iabs(fxmul(w.z.v(), fd)) <= 0x40_0000,
        iabs(fxmul(u.x.v(), 2 * fxmul(hw, fd))) <= 0x400_0000,
        iabs(fxmul(u.y.v(), 2 * fxmul(hw, fd))) <= 0x400_0000,
        iabs(fxmul(u.z.v(), 2 * fxmul(hw, fd))) <= 0x400_0000,
        iabs(fxmul(v.x.v(), 2 * fxmul(hh, fd))) <= 0x1000_0000,
        iabs(fxmul(v.y.v(), 2 * fxmul(hh, fd))) <= 0x1000_0000,
        iabs(fxmul(v.z.v(), 2 * fxmul(hh, fd))) <= 0x1000_0000,
{
    assert(0x8_0000int * 0x20_0000 <= 0x100_0000int * 65536) by (nonlinear_arith);
    crate::fixed::lemma_fxmul_cap(hw, fd, 0x8_0000, 0x20_0000, 0x100_0000);
    crate::fixed::lemma_fxmul_cap(hh, fd, 0x8_0000, 0x20_0000, 0x100_0000);
    assert(0x2_0000int * 0x100_0000 <= 0x200_0000int * 65536) by (nonlinear_arith);
    crate::fixed::lemma_fxmul_cap(u.x.v(), fxmul(hw, fd), 0x2_0000, 0x100_0000, 0x200_0000);
    crate::fixed::lemma_fxmul_cap(u.y.v(), fxmul(hw, fd), 0x2_0000, 0x100_0000, 0x200_0000);
    crate::fixed::lemma_fxmul_cap(u.z.v(), fxmul(hw, fd), 0x2_0000, 0x100_0000, 0x200_0000);
    assert(0x8_0000int * 0x100_0000 <= 0x800_0000int * 65536) by (nonlinear_arith);
    crate::fixed::lemma_fxmul_cap(v.x.v(), fxmul(hh, fd), 0x8_0000, 0x100_0000, 0x800_0000);
    crate::fixed::lemma_fxmul_cap(v.y.v(), fxmul(hh, fd), 0x8_0000, 0x100_0000, 0x800_0000);
    crate::fixed::lemma_fxmul_cap(v.z.v(), fxmul(hh, fd), 0x8_0000, 0x100_0000, 0x800_0000);
    assert(0x2_0000int * 0x20_0000 <= 0x40_0000int * 65536) by (nonlinear_arith);
    crate::fixed::lemma_fxmul_cap(w.x.v(), fd, 0x2_0000, 0x20_0000, 0x40_0000);
    crate::fixed::lemma_fxmul_cap(w.y.v(), fd, 0x2_0000, 0x20_0000, 0x40_0000);
    crate::fixed::lemma_fxmul_cap(w.z.v(), fd, 0x2_0000, 0x20_0000, 0x40_0000);
    assert(0x2_0000int * 0x200_0000 <= 0x400_0000int * 65536) by (nonlinear_arith);
    crate::fixed::lemma_fxmul_cap(u.x.v(), 2 * fxmul(hw, fd), 0x2_0000, 0x200_0000, 0x400_0000);
    crate::fixed::lemma_fxmul_cap(u.y.v(), 2 * fxmul(hw, fd), 0x2_0000, 0x200_0000, 0x400_0000);
    crate::fixed::lemma_fxmul_cap(u.z.v(), 2 * fxmul(hw, fd), 0x2_0000, 0x200_0000, 0x400_0000);
    assert(0x8_0000int * 0x200_0000 <= 0x1000_0000int * 65536) by (nonlinear_arith);
    crate::fixed::lemma_fxmul_cap(v.x.v(), 2 * fxmul(hh, fd), 0x8_0000, 0x200_0000, 0x1000_0000);
    crate::fixed::lemma_fxmul_cap(v.y.v(), 2 * fxmul(hh, fd), 0x8_0000, 0x200_0000, 0x1000_0000);
    crate::fixed::lemma_fxmul_cap(v.z.v(), 2 * fxmul(hh, fd), 0x8_0000, 0x200_0000, 0x1000_0000);
}

/// The generated ray's origin and direction stay within the world budget.
proof fn lemma_ray_fit(c: Camera, d: Vec3, s: int, t: int)
    requires
        camera_wf(c),
        bounded(d, SCALE as int),
        0 <= s <= SCALE,
        0 <= t <= SCALE,
    ensures
        iabs(fxmul(d.x.v(), c.lens_radius.v())) <= 0x8_0000,
        iabs(fxmul(d.y.v(), c.lens_radius.v())) <= 0x8_0000,
        iabs(fxmul(c.u.x.v(), fxmul(d.x.v(), c.lens_radius.v()))) <= 0x10_0000,
        iabs(fxmul(c.u.y.v(), fxmul(d.x.v(), c.lens_radius.v()))) <= 0x10_0000,
        iabs(fxmul(c.u.z.v(), fxmul(d.x.v(), c.lens_radius.v()))) <= 0x10_0000,
        iabs(fxmul(c.v.x.v(), fxmul(d.y.v(), c.lens_radius.v()))) <= 0x40_0000,
        iabs(fxmul(c.v.y.v(), fxmul(d.y.v(), c.lens_radius.v()))) <= 0x40_0000,
        iabs(fxmul(c.v.z.v(), fxmul(d.y.v(), c.lens_radius.v()))) <= 0x40_0000,
        iabs(fxmul(c.horizontal.x.v(), s)) <= 0x400_0000,
        iabs(fxmul(c.horizontal.y.v(), s)) <= 0x400_0000,
        iabs(fxmul(c.horizontal.z.v(), s)) <= 0x400_0000,
        iabs(fxmul(c.vertical.x.v(), t)) <= 0x1000_0000,
        iabs(fxmul(c.vertical.y.v(), t)) <= 0x1000_0000,
        iabs(fxmul(c.vertical.z.v(), t)) <= 0x1000_0000,
{
    assert(0x1_0000int * 0x8_0000 <= 0x8_0000int * 65536) by (nonlinear_arith);
    crate::fixed::lemma_fxmul_cap(d.x.v(), c.lens_radius.v(), 0x1_0000, 0x8_0000, 0x8_0000);
    crate::fixed::lemma_fxmul_cap(d.y.v(), c.lens_radius.v(), 0x1_0000, 0x8_0000, 0x8_0000);
    assert(0x2_0000int * 0x8_0000 <= 0x10_0000int * 65536) by (nonlinear_arith);
    crate::fixed::lemma_fxmul_cap(
        c.u.x.v(),
        fxmul(d.x.v(), c.lens_radius.v()),
        0x2_0000,
        0x8_0000,
        0x10_0000,
    );
    crate::fixed::lemma_fxmul_cap(
        c.u.y.v(),
        fxmul(d.x.v(), c.lens_radius.v()),
        0x2_0000,
        0x8_0000,
        0x10_0000,
    );
    crate::fixed::lemma_fxmul_cap(
        c.u.z.v(),
        fxmul(d.x.v(), c.lens_radius.v()),
        0x2_0000,
        0x8_0000,
        0x10_0000,
    );
    assert(0x8_0000int * 0x8_0000 <= 0x40_0000int * 65536) by (nonlinear_arith);
    crate::fixed::lemma_fxmul_cap(
        c.v.x.v(),
        fxmul(d.y.v(), c.lens_radius.v()),
        0x8_0000,
        0x8_0000,
        0x40_0000,
    );
    crate::fixed::lemma_fxmul_cap(
        c.v.y.v(),
        fxmul(d.y.v(), c.lens_radius.v()),
        0x8_0000,
        0x8_0000,
        0x40_0000,
    );
    crate::fixed::lemma_fxmul_cap(
        c.v.z.v(),
        fxmul(d.y.v(), c.lens_radius.v()),
        0x8_0000,
        0x8_0000,
        0x40_0000,
    );
    assert(0x400_0000int * 0x1_0000 <= 0x400_0000int * 65536) by (nonlinear_arith);
    crate::fixed::lemma_fxmul_cap(c.horizontal.x.v(), s, 0x400_0000, 0x1_0000, 0x400_0000);
    crate::fixed::lemma_fxmul_cap(c.horizontal.y.v(), s, 0x400_0000, 0x1_0000, 0x400_0000);
    crate::fixed::lemma_fxmul_cap(c.horizontal.z.v(), s, 0x400_0000, 0x1_0000, 0x400_0000);
    assert(0x1000_0000int * 0x1_0000 <= 0x1000_0000int * 65536) by (nonlinear_arith);
    crate::fixed::lemma_fxmul_cap(c.vertical.x.v(), t, 0x1000_0000, 0x1_0000, 0x1000_0000);
    crate::fixed::lemma_fxmul_cap(c.vertical.y.v(), t, 0x1000_0000, 0x1_0000, 0x1000_0000);
    crate::fixed::lemma_fxmul_cap(c.vertical.z.v(), t, 0x1000_0000, 0x1_0000, 0x1000_0000);
}

/// The up-vector cross product stays bounded.
proof fn lemma_cross_up_fit(up: Vec3, w: Vec3)
    requires
        bounded(up, 0x10_0000),
        bounded(w, 2 * SCALE),
    ensures
        iabs(cross_x_v(up, w)) <= 0x40_0000,
        iabs(cross_y_v(up, w)) <= 0x40_0000,
        iabs(cross_z_v(up, w)) <= 0x40_0000,
{
    assert(0x10_0000int * 0x2_0000 <= 0x20_0000int * 65536) by (nonlinear_arith);
    crate::fixed::lemma_fxmul_cap(up.x.v(), w.x.v(), 0x10_0000, 0x2_0000, 0x20_0000);
    crate::fixed::lemma_fxmul_cap(up.x.v(), w.y.v(), 0x10_0000, 0x2_0000, 0x20_0000);
    crate::fixed::lemma_fxmul_cap(up.x.v(), w.z.v(), 0x10_0000, 0x2_0000, 0x20_0000);
    crate::fixed::lemma_fxmul_cap(up.y.v(), w.x.v(), 0x10_0000, 0x2_0000, 0x20_0000);
    crate::fixed::lemma_fxmul_cap(up.y.v(), w.y.v(), 0x10_0000, 0x2_0000, 0x20_0000);
    crate::fixed::lemma_fxmul_cap(up.y.v(), w.z.v(), 0x10_0000, 0x2_0000, 0x20_0000);
    crate::fixed::lemma_fxmul_cap(up.z.v(), w.x.v(), 0x10_0000, 0x2_0000, 0x20_0000);
    crate::fixed::lemma_fxmul_cap(up.z.v(), w.y.v(), 0x10_0000, 0x2_0000, 0x20_0000);
    crate::fixed::lemma_fxmul_cap(up.z.v(), w.z.v(), 0x10_0000, 0x2_0000, 0x20_0000);
}

} // verus!
