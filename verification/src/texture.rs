//! Textures: albedo as a function of the surface parametrization and the
//! world-space point. Solid color ignores its inputs; the checker picks one
//! of two sub-textures from the sign of a product of sines; the noise
//! texture modulates a sine by Perlin turbulence; the image texture looks a
//! pixel up from plain RGB bytes.
use crate::fixed::fxmul;
use crate::fixed::iabs;
use crate::fixed::tdiv;
use crate::fixed::Fx;
use crate::fixed::SCALE;
use crate::perlin::perlin_wf;
use crate::perlin::turb_v;
use crate::perlin::Perlin;
use crate::utils::sin_v;
use crate::vec3::bounded;
use crate::vec3::Vec3;
use vstd::prelude::*;

verus! {

pub enum Texture {
    SolidColor(SolidColor),
    Checker(Box<CheckerTexture>),
    Noise(NoiseTexture),
    Image(ImageTexture),
}

pub struct SolidColor {
    pub color: Vec3,
}

pub struct CheckerTexture {
    pub odd: Texture,
    pub even: Texture,
}

pub struct NoiseTexture {
    pub perlin: Perlin,
    pub scale: Fx,
}

/// Plain RGB8 pixel data, row-major from the top-left corner.
pub struct ImageTexture {
    pub width: usize,
    pub height: usize,
    pub data: Vec<u8>,
}

/// A color with every channel in `[0, 1]`.
pub open spec fn color_wf(c: Vec3) -> bool {
    &&& 0 <= c.x.v() <= SCALE
    &&& 0 <= c.y.v() <= SCALE
    &&& 0 <= c.z.v() <= SCALE
}

pub open spec fn texture_wf(t: Texture) -> bool
    decreases t,
{
    match t {
        Texture::SolidColor(s) => color_wf(s.color),
        Texture::Checker(c) => texture_wf(c.odd) && texture_wf(c.even),
        Texture::Noise(n) => perlin_wf(n.perlin) && iabs(n.scale.v()) <= 0x10_0000,
        Texture::Image(im) => im.width >= 1 && im.height >= 1 && im.width <= 0x8000
            && im.height <= 0x8000 && im.data@.len() == 3 * im.width * im.height,
    }
}

/// The checker sign: the product of the sines of the scaled coordinates.
pub open spec fn checker_sines_v(p: Vec3) -> int {
    fxmul(fxmul(sin_v(10 * p.x.v()), sin_v(10 * p.y.v())), sin_v(10 * p.z.v()))
}

/// The gray level of the noise texture before clamping:
/// `0.5 * (1 + sin(scale * z + 10 * turbulence(p)))`.
pub open spec fn noise_gray_v(n: NoiseTexture, p: Vec3) -> int {
    tdiv(SCALE + sin_v(fxmul(p.z.v(), n.scale.v()) + 10 * turb_v(n.perlin, p, 7)), 2)
}

/// A raw channel clamped to `[0, 1]`.
pub open spec fn clamp01_v(g: int) -> int {
    if g < 0 {
        0
    } else if g > SCALE {
        SCALE as int
    } else {
        g
    }
}

/// The image texture's pixel coordinates for `(u, v)`: clamp to the unit
/// square, flip `v`, scale to pixels and truncate.
pub open spec fn image_coord_v(c: int, extent: int) -> int {
    let scaled = tdiv(c * extent, SCALE as int);
    if scaled >= extent {
        extent - 1
    } else {
        scaled
    }
}

/// One image channel scaled from a byte to `[0, 1]`.
pub open spec fn byte_channel_v(b: int) -> int {
    tdiv(b * SCALE, 255)
}

/// What a texture lookup returns.
pub open spec fn texture_value_v(t: Texture, u: Fx, v: Fx, p: Vec3) -> Vec3
    decreases t,
{
    match t {
        Texture::SolidColor(s) => s.color,
        Texture::Checker(c) => if checker_sines_v(p) < 0 {
            texture_value_v(c.odd, u, v, p)
        } else {
            texture_value_v(c.even, u, v, p)
        },
        Texture::Noise(n) => {
            let g = clamp01_v(noise_gray_v(n, p));
            Vec3 { x: Fx { raw: g as i64 }, y: Fx { raw: g as i64 }, z: Fx { raw: g as i64 } }
        },
        Texture::Image(im) => {
            let uc = clamp01_v(u.v());
            let vc = SCALE - clamp01_v(v.v());
            let i = image_coord_v(uc, im.width as int);
            let j = image_coord_v(vc, im.height as int);
            let base = 3 * (j * im.width + i);
            Vec3 {
                x: Fx { raw: byte_channel_v(im.data@[base] as int) as i64 },
                y: Fx { raw: byte_channel_v(im.data@[base + 1] as int) as i64 },
                z: Fx { raw: byte_channel_v(im.data@[base + 2] as int) as i64 },
            }
        },
    }
}

impl SolidColor {
    pub fn new(color: Vec3) -> (t: SolidColor)
        ensures
            t.color == color,
    {
        SolidColor { color }
    }

    /// A solid color from unit-scaled channels.
    pub fn new_from_rgb(r: Fx, g: Fx, b: Fx) -> (t: SolidColor)
        ensures
            t.color == (Vec3 { x: r, y: g, z: b }),
    {
        SolidColor { color: Vec3 { x: r, y: g, z: b } }
    }
}

impl CheckerTexture {
    pub fn new(odd: Texture, even: Texture) -> (t: CheckerTexture)
        ensures
            t.odd == odd && t.even == even,
    {
        CheckerTexture { odd, even }
    }
}

impl NoiseTexture {
    pub fn new(scale: Fx, rng: &mut rand::rngs::StdRng) -> (t: NoiseTexture)
        requires
            iabs(scale.v()) <= 0x10_0000,
        ensures
            t.scale == scale,
            perlin_wf(t.perlin),
    {
        NoiseTexture { perlin: Perlin::new(rng), scale }
    }
}

impl ImageTexture {
    /// An image texture over plain RGB8 rows (loaded by the caller).
    pub fn new(width: usize, height: usize, data: Vec<u8>) -> (t: ImageTexture)
        ensures
            t.width == width && t.height == height && t.data == data,
    {
        ImageTexture { width, height, data }
    }
}

impl Texture {
    /// The albedo at the surface parametrization `(u, v)` and point `p`.
    pub fn value(&self, u: Fx, v: Fx, p: Vec3) -> (c: Vec3)
        requires
            texture_wf(*self),
            bounded(p, 0x41_0000_0000_0000),
        ensures
            c == texture_value_v(*self, u, v, p),
            color_wf(c),
        decreases *self,
    {
        match self {
            Texture::SolidColor(s) => s.color,
            Texture::Checker(c) => {
                let sx: Fx = crate::utils::sin_approx(Fx { raw: 10 * p.x.raw });
                let sy: Fx = crate::utils::sin_approx(Fx { raw: 10 * p.y.raw });
                let sz: Fx = crate::utils::sin_approx(Fx { raw: 10 * p.z.raw });
                proof {
                    lemma_sines_fit(sx.v(), sy.v(), sz.v());
                }
                let sines: Fx = sx.mul(sy).mul(sz);
                if sines.raw < 0 {
                    c.odd.value(u, v, p)
                } else {
                    c.even.value(u, v, p)
                }
            },
            Texture::Noise(n) => {
                let turb: Fx = n.perlin.turbulence(p, 7);
                proof {
                    lemma_noise_arg_fit(p.z.v(), n.scale.v(), turb.v());
                }
                let arg: Fx = Fx { raw: p.z.mul(n.scale).raw + 10 * turb.raw };
                let s: Fx = crate::utils::sin_approx(arg);
                let t: i64 = SCALE + s.raw;
                proof {
                    lemma_halving_nonneg(t as int);
                    if t >= 0 {
                        vstd::arithmetic::div_mod::lemma_div_nonincreasing(t as int, 2);
                        vstd::arithmetic::div_mod::lemma_div_pos_is_pos(t as int, 2);
                    } else {
                        vstd::arithmetic::div_mod::lemma_div_nonincreasing(-(t as int), 2);
                        vstd::arithmetic::div_mod::lemma_div_pos_is_pos(-(t as int), 2);
                    }
                }
                let g: i64 = if t >= 0 {
                    ((t as u64) / 2) as i64
                } else {
                    -((((-t) as u64) / 2) as i64)
                };
                let gc: i64 = if g < 0 {
                    0
                } else if g > SCALE {
                    SCALE
                } else {
                    g
                };
                let gf = Fx { raw: gc };
                Vec3 { x: gf, y: gf, z: gf }
            },
            Texture::Image(im) => {
                let uc: Fx = clamp01(u);
                let vc: Fx = Fx { raw: SCALE - clamp01(v).raw };
                let i: usize = image_coord(uc.raw, im.width);
                let j: usize = image_coord(vc.raw, im.height);
                let dlen: usize = im.data.len();
                proof {
                    lemma_image_base(i as int, j as int, im.width as int, im.height as int);
                    assert(dlen as int == 3 * (im.width as int) * (im.height as int));
                }
                let base: usize = 3 * (j * im.width + i);
                let r: Fx = byte_channel(im.data[base]);
                let g: Fx = byte_channel(im.data[base + 1]);
                let b: Fx = byte_channel(im.data[base + 2]);
                Vec3 { x: r, y: g, z: b }
            },
        }
    }
}

/// Clamp a raw value to `[0, 1]`.
fn clamp01(x: Fx) -> (r: Fx)
    ensures
        r.v() == clamp01_v(x.v()),
        0 <= r.v() <= SCALE,
{
    if x.raw < 0 {
        Fx { raw: 0 }
    } else if x.raw > SCALE {
        Fx { raw: SCALE }
    } else {
        x
    }
}

/// A clamped coordinate scaled to a pixel index strictly inside the image.
fn image_coord(c: i64, extent: usize) -> (i: usize)
    requires
        0 <= c <= SCALE,
        1 <= extent <= 0x8000,
    ensures
        i as int == image_coord_v(c as int, extent as int),
        i < extent,
{
    proof {
        crate::fixed::lemma_mul_mag(c as int, extent as int, 0x1_0000, 0x8000);
        crate::fixed::lemma_tdiv_abs(c as int * extent as int, SCALE as int);
        vstd::arithmetic::div_mod::lemma_div_nonincreasing(
            c as int * extent as int,
            SCALE as int,
        );
        vstd::arithmetic::div_mod::lemma_div_pos_is_pos(c as int * extent as int, SCALE as int);
        assert(0 <= c as int * extent as int) by (nonlinear_arith)
            requires
                0 <= c as int && 0 <= extent as int,
        ;
    }
    let scaled: u64 = ((c as u64) * (extent as u64)) / 65536;
    if scaled >= extent as u64 {
        extent - 1
    } else {
        scaled as usize
    }
}

/// One byte scaled to a unit channel.
fn byte_channel(b: u8) -> (r: Fx)
    ensures
        r.v() == byte_channel_v(b as int),
        0 <= r.v() <= SCALE,
{
    let scaled: u64 = ((b as u64) * 65536) / 255;
    proof {
        crate::fixed::lemma_tdiv_abs(b as int * SCALE, 255);
        vstd::arithmetic::div_mod::lemma_div_is_ordered(
            (b as int) * SCALE,
            255 * SCALE,
            255,
        );
        vstd::arithmetic::div_mod::lemma_div_by_multiple(SCALE as int, 255);
        vstd::arithmetic::div_mod::lemma_div_pos_is_pos((b as int) * SCALE, 255);
        assert((b as int) * SCALE <= 255 * SCALE) by (nonlinear_arith)
            requires
                0 <= b as int <= 255,
                0 < SCALE,
        ;
        assert(0 <= (b as int) * SCALE) by (nonlinear_arith)
            requires
                0 <= b as int,
                0 < SCALE,
        ;
    }
    Fx { raw: scaled as i64 }
}

/// The three sine factors fit the product chain.
proof fn lemma_sines_fit(sx: int, sy: int, sz: int)
    requires
        iabs(sx) <= 0x8000_0000,
        iabs(sy) <= 0x8000_0000,
        iabs(sz) <= 0x8000_0000,
    ensures
        iabs(fxmul(sx, sy)) <= 0x4000_0000_0000,
        iabs(fxmul(fxmul(sx, sy), sz)) <= 0x2000_0000_0000_0000,
{
    assert(0x8000_0000int * 0x8000_0000 <= 0x4000_0000_0000int * 65536) by (nonlinear_arith);
    crate::fixed::lemma_fxmul_cap(sx, sy, 0x8000_0000, 0x8000_0000, 0x4000_0000_0000);
    assert(0x4000_0000_0000int * 0x8000_0000 <= 0x2000_0000_0000_0000int * 65536)
        by (nonlinear_arith);
    crate::fixed::lemma_fxmul_cap(
        fxmul(sx, sy),
        sz,
        0x4000_0000_0000,
        0x8000_0000,
        0x2000_0000_0000_0000,
    );
}

/// The noise sine argument fits an i64.
proof fn lemma_noise_arg_fit(z: int, scale: int, turb: int)
    requires
        iabs(z) <= 0x41_0000_0000_0000,
        iabs(scale) <= 0x10_0000,
        0 <= turb <= 0xa8_0000,
    ensures
        iabs(fxmul(z, scale)) <= 0x410_0000_0000_0000,
{
    assert(0x41_0000_0000_0000int * 0x10_0000 <= 0x410_0000_0000_0000int * 65536)
        by (nonlinear_arith);
    crate::fixed::lemma_fxmul_cap(z, scale, 0x41_0000_0000_0000, 0x10_0000, 0x410_0000_0000_0000);
}

/// Halving a non-negative sum matches the truncating spec division.
proof fn lemma_halving_nonneg(x: int)
    ensures
        0 <= x ==> tdiv(x, 2) == x / 2,
        x < 0 ==> tdiv(x, 2) == -((-x) / 2),
{
}

/// The pixel base index stays inside the data array.
proof fn lemma_image_base(i: int, j: int, w: int, h: int)
    requires
        0 <= i < w,
        0 <= j < h,
        1 <= w <= 0x8000,
        1 <= h <= 0x8000,
    ensures
        0 <= j * w,
        j * w + i < w * h,
        w * h <= 3 * w * h,
        0 <= 3 * (j * w + i),
        3 * (j * w + i) + 2 < 3 * w * h,
{
    assert(j * w + i < w * h && 0 <= j * w) by (nonlinear_arith)
        requires
            0 <= i < w,
            0 <= j < h,
    ;
    assert(3 * (j * w + i) + 2 < 3 * (w * h)) by (nonlinear_arith)
        requires
            j * w + i < w * h,
    ;
    assert(3 * (w * h) == 3 * w * h) by (nonlinear_arith);
    assert(0 <= w * h) by (nonlinear_arith)
        requires
            0 < w && 0 < h,
    ;
}

} // verus!
