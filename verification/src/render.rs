//! The path integrator and the render entry points: recursive radiance
//! estimation with a bounded bounce budget, pixel averaging with gamma
//! correction, the demo scenes, and the deterministic gradient images.
use crate::camera::camera_wf;
use crate::camera::Camera;
use crate::consts::sky_blue;
use crate::consts::white;
use crate::dielectric::Dielectric;
use crate::diffuse::Lambertian;
use crate::fixed::fxmul;
use crate::fixed::iabs;
use crate::fixed::tdiv;
use crate::fixed::Fx;
use crate::fixed::SCALE;
use crate::hittable::lemma_object_record_props;
use crate::hittable::object_hit_spec;
use crate::hittable::object_material;
use crate::hittable::object_wf;
use crate::hittable::Object;
use crate::hittable_list::lemma_list_nearest;
use crate::hittable_list::list_hit_spec;
use crate::hittable_list::list_wf;
use crate::hittable_list::HittableList;
use crate::camera::camera_ray0_v;
use crate::material::material_wf;
use crate::material::scatter_post_v;
use crate::material::Material;
use crate::metal::Metal;
use crate::ray::ray_wf;
use crate::ray::Ray;
use crate::ray::PARAM_MAG;
use crate::ray::WORLD_MAG;
use crate::sphere::Sphere;
use crate::texture::clamp01_v;
use crate::texture::color_wf;
use crate::texture::SolidColor;
use crate::texture::Texture;
use crate::utils::random_in_01;
use crate::utils::random_in_range;
use crate::vec3::bounded;
use crate::vec3::len_sq_v;
use crate::vec3::rgb_channel_v;
use crate::vec3::mul_vec;
use crate::vec3::unit_dir_v;
use crate::vec3::unit_v;
use crate::vec3::vec_zero;
use crate::vec3::zero_vec;
use crate::vec3::Vec3;
use vstd::prelude::*;

verus! {

/// The lower intersection bound that avoids re-hitting the origin surface
/// ("shadow acne"): about one thousandth of a unit.
pub const EPSILON: i64 = 65;

/// A scene: the surface list plus the material arena its hit records
/// index into.
pub struct Scene {
    pub world: HittableList,
    pub materials: Vec<Material>,
}

pub open spec fn scene_wf(s: Scene) -> bool {
    &&& list_wf(s.world.objects@)
    &&& forall|i: int|
        0 <= i < s.world.objects@.len() ==> (object_material(#[trigger] s.world.objects@[i]) as int)
            < s.materials@.len()
    &&& forall|j: int| 0 <= j < s.materials@.len() ==> material_wf(#[trigger] s.materials@[j])
}

/// One channel of the linear blend `(1 - t) * a + t * b`.
pub open spec fn lerp_c(a: int, b: int, t: int) -> int {
    fxmul(a, SCALE - t) + fxmul(b, t)
}

/// The background gradient for a ray that escapes the scene: white to sky
/// blue by the unit direction's height, clamped to the color cube. Any
/// non-zero direction has a unit direction, however short.
pub open spec fn background_v(r: Ray) -> Vec3 {
    let t = fxmul(unit_dir_v(r.direction).y.v() + SCALE, 32768);
    Vec3 {
        x: Fx { raw: clamp01_v(lerp_c(SCALE as int, 32768, t)) as i64 },
        y: Fx { raw: clamp01_v(lerp_c(SCALE as int, 45875, t)) as i64 },
        z: Fx { raw: clamp01_v(lerp_c(SCALE as int, SCALE as int, t)) as i64 },
    }
}

/// Linear blend of two colors.
pub fn lerp(a: Vec3, b: Vec3, t: Fx) -> (r: Vec3)
    requires
        bounded(a, SCALE as int),
        bounded(b, SCALE as int),
        iabs(t.v()) <= 4 * SCALE,
    ensures
        r.x.v() == lerp_c(a.x.v(), b.x.v(), t.v()),
        r.y.v() == lerp_c(a.y.v(), b.y.v(), t.v()),
        r.z.v() == lerp_c(a.z.v(), b.z.v(), t.v()),
        bounded(r, 16 * SCALE),
{
    proof {
        lemma_lerp_fit(a.x.v(), b.x.v(), t.v());
        lemma_lerp_fit(a.y.v(), b.y.v(), t.v());
        lemma_lerp_fit(a.z.v(), b.z.v(), t.v());
    }
    let omt: Fx = Fx { raw: SCALE - t.raw };
    Vec3 {
        x: Fx { raw: a.x.mul(omt).raw + b.x.mul(t).raw },
        y: Fx { raw: a.y.mul(omt).raw + b.y.mul(t).raw },
        z: Fx { raw: a.z.mul(omt).raw + b.z.mul(t).raw },
    }
}

/// Both halves of a blend term stay within eight units.
proof fn lemma_lerp_fit(a: int, b: int, t: int)
    requires
        iabs(a) <= SCALE,
        iabs(b) <= SCALE,
        iabs(t) <= 4 * SCALE,
    ensures
        iabs(fxmul(a, SCALE - t)) <= 8 * SCALE,
        iabs(fxmul(b, t)) <= 8 * SCALE,
{
    assert(0x1_0000int * 0x5_0000 <= 0x8_0000int * 65536) by (nonlinear_arith);
    crate::fixed::lemma_fxmul_cap(a, SCALE - t, 0x1_0000, 0x5_0000, 0x8_0000);
    crate::fixed::lemma_fxmul_cap(b, t, 0x1_0000, 0x5_0000, 0x8_0000);
}

/// A product of two color channels is again a color channel.
proof fn lemma_color_mul(a: int, b: int)
    requires
        0 <= a <= SCALE,
        0 <= b <= SCALE,
    ensures
        0 <= fxmul(a, b) <= SCALE,
{
    assert(0x1_0000int * 0x1_0000 <= 0x1_0000int * 65536) by (nonlinear_arith);
    crate::fixed::lemma_fxmul_cap(a, b, 0x1_0000, 0x1_0000, 0x1_0000);
    assert(0 <= a * b) by (nonlinear_arith)
        requires
            0 <= a && 0 <= b,
    ;
    vstd::arithmetic::div_mod::lemma_div_pos_is_pos(iabs(a * b), SCALE as int);
}

/// The radiance arriving along a ray: black once the bounce budget is
/// exhausted; on a hit, the material's attenuation times the radiance of
/// the scattered ray; on a miss, the background gradient. Bounded
/// recursion on `depth` is the termination argument: each bounce consumes
/// one unit of budget.
pub fn ray_color(r: Ray, scene: &Scene, depth: u32, rng: &mut rand::rngs::StdRng) -> (c: Vec3)
    requires
        scene_wf(*scene),
        ray_wf(r),
    ensures
        color_wf(c),
        depth == 0 ==> c == zero_vec(),
        (depth > 0 && list_hit_spec(
            scene.world.objects@,
            r,
            Fx { raw: EPSILON },
            Fx { raw: PARAM_MAG },
        ) is None && !vec_zero(r.direction)) ==> c == background_v(r),
        depth > 0 ==> (match list_hit_spec(
            scene.world.objects@,
            r,
            Fx { raw: EPSILON },
            Fx { raw: PARAM_MAG },
        ) {
            Option::Some(h) => exists|out: Option<(Ray, Vec3)>, rec: Vec3|
                #![trigger scatter_post_v(scene.materials@[h.material as int], r, h, out), color_wf(rec)]
                {
                    &&& scatter_post_v(scene.materials@[h.material as int], r, h, out)
                    &&& color_wf(rec)
                    &&& (match out {
                        Option::None => c == zero_vec(),
                        Option::Some(pair) => if ray_wf(pair.0) {
                            c == mul_vec(pair.1, rec)
                        } else {
                            c == zero_vec()
                        },
                    })
                },
            Option::None => true,
        }),
    decreases depth,
{
    let black: Vec3 = Vec3 { x: Fx { raw: 0 }, y: Fx { raw: 0 }, z: Fx { raw: 0 } };
    if depth == 0 {
        return black;
    }
    let eps: Fx = Fx { raw: EPSILON };
    let tmax: Fx = Fx { raw: PARAM_MAG };
    match scene.world.hit(r, eps, tmax) {
        Some(hit) => {
            proof {
                lemma_list_nearest(scene.world.objects@, r, eps, tmax);
                let i = choose|i: int|
                    0 <= i < scene.world.objects@.len() && object_hit_spec(
                        #[trigger] scene.world.objects@[i],
                        r,
                        eps,
                        tmax,
                    ) == Some(hit);
                lemma_object_record_props(scene.world.objects@[i], r, eps, tmax);
            }
            let m: &Material = &scene.materials[hit.material];
            match m.scatter(r, &hit, rng) {
                Some((scattered, attenuation)) => {
                    proof {
                        match *m {
                            Material::Lambertian(_) => {},
                            Material::Metal(_) => {},
                            Material::Dielectric(_) => {},
                        }
                    }
                    if in_world(&scattered) {
                        let rec: Vec3 = ray_color(scattered, scene, depth - 1, rng);
                        proof {
                            lemma_color_mul(attenuation.x.v(), rec.x.v());
                            lemma_color_mul(attenuation.y.v(), rec.y.v());
                            lemma_color_mul(attenuation.z.v(), rec.z.v());
                        }
                        let result: Vec3 = attenuation.mul(rec);
                        proof {
                            assert(result == mul_vec(attenuation, rec));
                            assert(scatter_post_v(
                                scene.materials@[hit.material as int],
                                r,
                                hit,
                                Some((scattered, attenuation)),
                            ));
                            assert(color_wf(rec));
                        }
                        result
                    } else {
                        proof {
                            assert(scatter_post_v(
                                scene.materials@[hit.material as int],
                                r,
                                hit,
                                Some((scattered, attenuation)),
                            ));
                            assert(color_wf(zero_vec()));
                        }
                        black
                    }
                },
                None => {
                    proof {
                        assert(scatter_post_v(
                            scene.materials@[hit.material as int],
                            r,
                            hit,
                            None::<(Ray, Vec3)>,
                        ));
                        assert(color_wf(zero_vec()));
                    }
                    black
                },
            }
        },
        None => {
            if r.direction.x.raw == 0 && r.direction.y.raw == 0 && r.direction.z.raw == 0 {
                black
            } else {
                background(&r)
            }
        },
    }
}

/// Whether a scattered ray stays within the world's magnitude budget; one
/// that escapes it is treated as gathering no light.
fn in_world(r: &Ray) -> (ok: bool)
    ensures
        ok == ray_wf(*r),
{
    let w: i64 = WORLD_MAG;
    r.origin.x.raw >= -w && r.origin.x.raw <= w && r.origin.y.raw >= -w && r.origin.y.raw <= w
        && r.origin.z.raw >= -w && r.origin.z.raw <= w && r.direction.x.raw >= -w
        && r.direction.x.raw <= w && r.direction.y.raw >= -w && r.direction.y.raw <= w
        && r.direction.z.raw >= -w && r.direction.z.raw <= w && r.time.raw >= -w && r.time.raw
        <= w
}

/// The background gradient for an escaping ray.
fn background(r: &Ray) -> (c: Vec3)
    requires
        ray_wf(*r),
        !vec_zero(r.direction),
    ensures
        c == background_v(*r),
        color_wf(c),
{
    let unit_direction: Vec3 = r.direction.unit_dir();
    proof {
        assert(0x3_0000int * 0x8000 <= 0x2_0000int * 65536) by (nonlinear_arith);
        crate::fixed::lemma_fxmul_cap(
            unit_direction.y.v() + SCALE,
            32768,
            0x3_0000,
            0x8000,
            0x2_0000,
        );
    }
    let t: Fx = Fx { raw: unit_direction.y.raw + SCALE }.mul(Fx { raw: 32768 });
    let blend: Vec3 = lerp(white(), sky_blue(), t);
    Vec3 {
        x: clamp01_fx(blend.x),
        y: clamp01_fx(blend.y),
        z: clamp01_fx(blend.z),
    }
}

/// Clamp one channel to the color cube.
fn clamp01_fx(x: Fx) -> (r: Fx)
    ensures
        r.v() == clamp01_v(x.v()),
        0 <= r.v() <= SCALE,
{
    if x.raw < 0 {
        Fx { raw: 0 }
    } else if x.raw > SCALE {
        Fx { raw: SCALE }
    } else {
        x
    }
}

/// Packs three 8-bit channels into a `0RGB` word.
pub fn from_u8_rgb(r: u8, g: u8, b: u8) -> (px: u32)
    ensures
        px == (r as int) * 0x1_0000 + (g as int) * 0x100 + (b as int),
{
    (r as u32) * 0x1_0000 + (g as u32) * 0x100 + (b as u32)
}

/// The packed pixel of a gamma-corrected color.
pub open spec fn pack_v(c: Vec3) -> int {
    rgb_channel_v(c.x.v()) * 0x1_0000 + rgb_channel_v(c.y.v()) * 0x100 + rgb_channel_v(c.z.v())
}

/// Converts a linear color to a packed `0RGB` pixel.
pub fn vec_to_u32(color: Vec3) -> (px: u32)
    ensures
        px == pack_v(color),
{
    let (r, g, b) = color.to_rgb();
    from_u8_rgb(r, g, b)
}

/// Whether nothing in a pixel's rendering is left to chance: a positive
/// bounce budget, an empty scene, a closed lens, a zero-width shutter
/// interval and a camera ray that is not degenerate. Every sample is then
/// the background of the one determined ray.
pub open spec fn chance_free_pixel(camera: Camera, scene: Scene, u: Fx, v: Fx) -> bool {
    &&& scene.world.objects@.len() == 0
    &&& camera.lens_radius.v() == 0
    &&& camera.time0 == camera.time1
    &&& !vec_zero(camera_ray0_v(camera, u, v).direction)
}

/// Averages `samples_per_pixel` radiance estimates for the viewport point
/// `(pixel_u, pixel_v)`, applies gamma-2 correction and packs the result
/// to 8-bit channels. The result is always the conversion of a valid
/// color; with an exhausted bounce budget it is exactly black, and in the
/// chance-free corner it is exactly the gamma packing of the background
/// of the one determined camera ray.
pub fn render_pixel(
    camera: &Camera,
    scene: &Scene,
    pixel_u: Fx,
    pixel_v: Fx,
    samples_per_pixel: u32,
    max_depth: u32,
    rng: &mut rand::rngs::StdRng,
) -> (px: (u8, u8, u8))
    requires
        camera_wf(*camera),
        scene_wf(*scene),
        0 <= pixel_u.v() <= SCALE,
        0 <= pixel_v.v() <= SCALE,
        1 <= samples_per_pixel <= 0x1_0000,
    ensures
        exists|c: Vec3|
            {
                &&& #[trigger] color_wf(c)
                &&& px.0 == rgb_channel_v(c.x.v())
                &&& px.1 == rgb_channel_v(c.y.v())
                &&& px.2 == rgb_channel_v(c.z.v())
            },
        max_depth == 0 ==> (px.0 == 0 && px.1 == 0 && px.2 == 0),
        (max_depth > 0 && chance_free_pixel(*camera, *scene, pixel_u, pixel_v)) ==> {
            let b = background_v(camera_ray0_v(*camera, pixel_u, pixel_v));
            &&& px.0 == rgb_channel_v(b.x.v())
            &&& px.1 == rgb_channel_v(b.y.v())
            &&& px.2 == rgb_channel_v(b.z.v())
        },
{
    let ghost bg = background_v(camera_ray0_v(*camera, pixel_u, pixel_v));
    let mut sum_x: i64 = 0;
    let mut sum_y: i64 = 0;
    let mut sum_z: i64 = 0;
    let mut s: u32 = 0;
    while s < samples_per_pixel
        invariant
            camera_wf(*camera),
            scene_wf(*scene),
            0 <= pixel_u.v() <= SCALE,
            0 <= pixel_v.v() <= SCALE,
            s <= samples_per_pixel <= 0x1_0000,
            0 <= sum_x <= (s as int) * SCALE,
            0 <= sum_y <= (s as int) * SCALE,
            0 <= sum_z <= (s as int) * SCALE,
            bg == background_v(camera_ray0_v(*camera, pixel_u, pixel_v)),
            max_depth == 0 ==> (sum_x == 0 && sum_y == 0 && sum_z == 0),
            (max_depth > 0 && chance_free_pixel(*camera, *scene, pixel_u, pixel_v)) ==> {
                &&& sum_x == (s as int) * bg.x.v()
                &&& sum_y == (s as int) * bg.y.v()
                &&& sum_z == (s as int) * bg.z.v()
            },
        decreases samples_per_pixel - s,
    {
        let ray: Ray = camera.get_ray(pixel_u, pixel_v, rng);
        let c: Vec3 = ray_color(ray, scene, max_depth, rng);
        proof {
            if max_depth > 0 && chance_free_pixel(*camera, *scene, pixel_u, pixel_v) {
                assert(ray == camera_ray0_v(*camera, pixel_u, pixel_v));
                assert(list_hit_spec(
                    scene.world.objects@,
                    ray,
                    Fx { raw: EPSILON },
                    Fx { raw: PARAM_MAG },
                ) is None);
                assert(c == bg);
                lemma_sum_step(sum_x as int, s as int, bg.x.v());
                lemma_sum_step(sum_y as int, s as int, bg.y.v());
                lemma_sum_step(sum_z as int, s as int, bg.z.v());
            }
        }
        sum_x = sum_x + c.x.raw;
        sum_y = sum_y + c.y.raw;
        sum_z = sum_z + c.z.raw;
        s += 1;
    }
    proof {
        lemma_average_fits(sum_x as int, samples_per_pixel as int);
        lemma_average_fits(sum_y as int, samples_per_pixel as int);
        lemma_average_fits(sum_z as int, samples_per_pixel as int);
        if max_depth > 0 && chance_free_pixel(*camera, *scene, pixel_u, pixel_v) {
            lemma_repeated_average(sum_x as int, samples_per_pixel as int, bg.x.v());
            lemma_repeated_average(sum_y as int, samples_per_pixel as int, bg.y.v());
            lemma_repeated_average(sum_z as int, samples_per_pixel as int, bg.z.v());
        }
        if max_depth == 0 {
            vstd::arithmetic::div_mod::lemma_div_of0(samples_per_pixel as int);
            lemma_black_channel();
        }
    }
    let avg: Vec3 = Vec3 {
        x: Fx { raw: ((sum_x as u64) / (samples_per_pixel as u64)) as i64 },
        y: Fx { raw: ((sum_y as u64) / (samples_per_pixel as u64)) as i64 },
        z: Fx { raw: ((sum_z as u64) / (samples_per_pixel as u64)) as i64 },
    };
    let px = avg.to_rgb();
    proof {
        assert(color_wf(avg));
    }
    px
}

/// One more identical sample extends the running multiple.
proof fn lemma_sum_step(sum: int, s: int, b: int)
    requires
        sum == s * b,
    ensures
        sum + b == (s + 1) * b,
{
    assert((s + 1) * b == s * b + b) by (nonlinear_arith);
}

/// Averaging `n` copies of a channel gives the channel back.
proof fn lemma_repeated_average(sum: int, n: int, b: int)
    requires
        sum == n * b,
        0 <= b,
        1 <= n,
    ensures
        sum / n == b,
{
    assert(n * b == b * n) by (nonlinear_arith);
    vstd::arithmetic::div_mod::lemma_div_by_multiple(b, n);
}

/// The gamma-corrected channel of black is zero.
proof fn lemma_black_channel()
    ensures
        rgb_channel_v(0) == 0,
{
    assert(0int * SCALE == 0) by (nonlinear_arith);
    crate::fixed::lemma_sqrt_unique(0, 0);
    vstd::arithmetic::div_mod::lemma_div_of0(256);
}

/// The average of at most `n` unit channels is a unit channel.
proof fn lemma_average_fits(sum: int, n: int)
    requires
        0 <= sum <= n * SCALE,
        1 <= n,
    ensures
        0 <= sum / n <= SCALE,
{
    vstd::arithmetic::div_mod::lemma_div_pos_is_pos(sum, n);
    vstd::arithmetic::div_mod::lemma_div_is_ordered(sum, n * SCALE, n);
    assert(n * SCALE == (SCALE as int) * n) by (nonlinear_arith);
    vstd::arithmetic::div_mod::lemma_div_by_multiple(SCALE as int, n);
}

/// The five-sphere demonstration scene: a diffuse center sphere, a large
/// diffuse ground, a fuzzy metal sphere, and a hollow glass sphere.
pub fn test_scene() -> (s: Scene)
    ensures
        scene_wf(s),
        s.world.objects@.len() == 5,
{
    let mut materials: Vec<Material> = Vec::new();
    let mut world: HittableList = HittableList::new();
    materials.push(
        Material::Lambertian(
            Lambertian::new(
                Texture::SolidColor(
                    SolidColor::new_from_rgb(
                        Fx { raw: 6554 },
                        Fx { raw: 13107 },
                        Fx { raw: 32768 },
                    ),
                ),
            ),
        ),
    );
    materials.push(
        Material::Lambertian(
            Lambertian::new(
                Texture::SolidColor(
                    SolidColor::new_from_rgb(
                        Fx { raw: 52429 },
                        Fx { raw: 52429 },
                        Fx { raw: 0 },
                    ),
                ),
            ),
        ),
    );
    materials.push(
        Material::Metal(
            Metal::new(
                Vec3::new(Fx { raw: 52429 }, Fx { raw: 39322 }, Fx { raw: 13107 }),
                Fx { raw: 19661 },
            ),
        ),
    );
    materials.push(Material::Dielectric(Dielectric::new(Fx { raw: 98304 })));
    world.add(
        Object::Sphere(
            Sphere::new(
                Vec3::new(Fx { raw: 0 }, Fx { raw: 0 }, Fx { raw: -65536 }),
                Fx { raw: 32768 },
                0,
            ),
        ),
    );
    world.add(
        Object::Sphere(
            Sphere::new(
                Vec3::new(Fx { raw: 0 }, Fx { raw: -6586368 }, Fx { raw: -65536 }),
                Fx { raw: 6553600 },
                1,
            ),
        ),
    );
    world.add(
        Object::Sphere(
            Sphere::new(
                Vec3::new(Fx { raw: 65536 }, Fx { raw: 0 }, Fx { raw: -65536 }),
                Fx { raw: 32768 },
                2,
            ),
        ),
    );
    world.add(
        Object::Sphere(
            Sphere::new(
                Vec3::new(Fx { raw: -65536 }, Fx { raw: 0 }, Fx { raw: -65536 }),
                Fx { raw: 32768 },
                3,
            ),
        ),
    );
    world.add(
        Object::Sphere(
            Sphere::new(
                Vec3::new(Fx { raw: -65536 }, Fx { raw: 0 }, Fx { raw: -65536 }),
                Fx { raw: -29491 },
                3,
            ),
        ),
    );
    let s = Scene { world, materials };
    proof {
        assert forall|i: int| 0 <= i < s.world.objects@.len() implies object_wf(
            #[trigger] s.world.objects@[i],
        ) by {
        }
    }
    s
}

/// The randomized demonstration scene: a diffuse ground, a grid of small
/// randomly placed and randomly shaded spheres, and three large feature
/// spheres (glass, diffuse, polished metal).
pub fn random_scene(rng: &mut rand::rngs::StdRng) -> (s: Scene)
    ensures
        scene_wf(s),
        s.world.objects@.len() >= 4,
{
    let mut materials: Vec<Material> = Vec::new();
    let mut world: HittableList = HittableList::new();
    materials.push(
        Material::Lambertian(
            Lambertian::new(
                Texture::SolidColor(
                    SolidColor::new_from_rgb(
                        Fx { raw: 32768 },
                        Fx { raw: 32768 },
                        Fx { raw: 32768 },
                    ),
                ),
            ),
        ),
    );
    world.add(
        Object::Sphere(
            Sphere::new(
                Vec3::new(Fx { raw: 0 }, Fx { raw: -65536000 }, Fx { raw: 0 }),
                Fx { raw: 65536000 },
                0,
            ),
        ),
    );
    materials.push(Material::Dielectric(Dielectric::new(Fx { raw: 98304 })));
    let glass: usize = 1;
    let mut a: i32 = -11;
    while a < 11
        invariant
            list_wf(world.objects@),
            forall|i: int|
                0 <= i < world.objects@.len() ==> (object_material(
                    #[trigger] world.objects@[i],
                ) as int) < materials@.len(),
            forall|j: int| 0 <= j < materials@.len() ==> material_wf(#[trigger] materials@[j]),
            world.objects@.len() >= 1,
            materials@.len() >= 2,
            glass == 1,
            -11 <= a <= 11,
        decreases 11 - a,
    {
        let mut b: i32 = -11;
        while b < 11
            invariant
                list_wf(world.objects@),
                forall|i: int|
                    0 <= i < world.objects@.len() ==> (object_material(
                        #[trigger] world.objects@[i],
                    ) as int) < materials@.len(),
                forall|j: int|
                    0 <= j < materials@.len() ==> material_wf(#[trigger] materials@[j]),
                world.objects@.len() >= 1,
                materials@.len() >= 2,
                glass == 1,
                -11 <= a <= 11,
                -11 <= b <= 11,
            decreases 11 - b,
        {
            let ghost pre_objs = world.objects@;
            let ghost pre_mats = materials@;
            let choose_mat: Fx = random_in_01(rng);
            let jitter_x: Fx = random_in_01(rng);
            let jitter_z: Fx = random_in_01(rng);
            let cx: Fx = Fx {
                raw: (a as i64) * SCALE + ((jitter_x.raw as u64 * 9 / 10) as i64),
            };
            let cz: Fx = Fx {
                raw: (b as i64) * SCALE + ((jitter_z.raw as u64 * 9 / 10) as i64),
            };
            let center: Vec3 = Vec3::new(cx, Fx { raw: 13107 }, cz);
            let anchor: Vec3 = Vec3::new(
                Fx { raw: 4 * SCALE },
                Fx { raw: 13107 },
                Fx { raw: 0 },
            );
            proof {
                lemma_grid_center_bounds(a as int, b as int, jitter_x.v(), jitter_z.v());
            }
            let away: Vec3 = center.sub(anchor);
            let dist: Fx = away.magnitude();
            if dist.raw > 58982 {
                let mat_index: usize = materials.len();
                let obj: Object = if choose_mat.raw < 52429 {
                    let r1: Fx = random_in_01(rng);
                    let r2: Fx = random_in_01(rng);
                    proof {
                        lemma_color_mul(r1.v(), r2.v());
                    }
                    let albedo: Fx = r1.mul(r2);
                    materials.push(
                        Material::Lambertian(
                            Lambertian::new(
                                Texture::SolidColor(
                                    SolidColor::new_from_rgb(albedo, albedo, albedo),
                                ),
                            ),
                        ),
                    );
                    Object::Sphere(Sphere::new(center, Fx { raw: 13107 }, mat_index))
                } else if choose_mat.raw < 62259 {
                    let half: Fx = Fx { raw: 32768 };
                    let one: Fx = Fx { raw: SCALE };
                    let albedo: Fx = random_in_range(rng, half, one);
                    let fuzz: Fx = random_in_range(rng, Fx { raw: 0 }, half);
                    materials.push(
                        Material::Metal(Metal::new(Vec3::new(albedo, albedo, albedo), fuzz)),
                    );
                    Object::Sphere(Sphere::new(center, Fx { raw: 13107 }, mat_index))
                } else {
                    Object::Sphere(Sphere::new(center, Fx { raw: 13107 }, glass))
                };
                proof {
                    assert(object_wf(obj));
                    assert((object_material(obj) as int) < materials@.len());
                }
                let ghost mid_objs = world.objects@;
                world.add(obj);
                proof {
                    assert forall|i: int| 0 <= i < world.objects@.len() implies (object_material(
                        #[trigger] world.objects@[i],
                    ) as int) < materials@.len() by {
                        if i < mid_objs.len() {
                            assert(world.objects@[i] == mid_objs[i]);
                        } else {
                            assert(world.objects@[i] == obj);
                        }
                    }
                    assert forall|i: int| 0 <= i < world.objects@.len() implies object_wf(
                        #[trigger] world.objects@[i],
                    ) by {
                        if i < mid_objs.len() {
                            assert(world.objects@[i] == mid_objs[i]);
                        } else {
                            assert(world.objects@[i] == obj);
                        }
                    }
                }
            }
            b += 1;
        }
        a += 1;
    }
    world.add(
        Object::Sphere(
            Sphere::new(
                Vec3::new(Fx { raw: 0 }, Fx { raw: SCALE }, Fx { raw: 0 }),
                Fx { raw: SCALE },
                glass,
            ),
        ),
    );
    let mat_brown: usize = materials.len();
    materials.push(
        Material::Lambertian(
            Lambertian::new(
                Texture::SolidColor(
                    SolidColor::new_from_rgb(
                        Fx { raw: 26214 },
                        Fx { raw: 13107 },
                        Fx { raw: 6554 },
                    ),
                ),
            ),
        ),
    );
    world.add(
        Object::Sphere(
            Sphere::new(
                Vec3::new(Fx { raw: -4 * SCALE }, Fx { raw: SCALE }, Fx { raw: 0 }),
                Fx { raw: SCALE },
                mat_brown,
            ),
        ),
    );
    let mat_steel: usize = materials.len();
    materials.push(
        Material::Metal(
            Metal::new(
                Vec3::new(Fx { raw: 45875 }, Fx { raw: 39322 }, Fx { raw: 32768 }),
                Fx { raw: 0 },
            ),
        ),
    );
    world.add(
        Object::Sphere(
            Sphere::new(
                Vec3::new(Fx { raw: 4 * SCALE }, Fx { raw: SCALE }, Fx { raw: 0 }),
                Fx { raw: SCALE },
                mat_steel,
            ),
        ),
    );
    Scene { world, materials }
}

/// A grid sphere's center stays a few dozen units from the origin.
proof fn lemma_grid_center_bounds(a: int, b: int, jx: int, jz: int)
    requires
        -11 <= a <= 11,
        -11 <= b <= 11,
        0 <= jx < SCALE,
        0 <= jz < SCALE,
    ensures
        iabs(a * SCALE + jx * 9 / 10) <= 16 * SCALE,
        iabs(b * SCALE + jz * 9 / 10) <= 16 * SCALE,
{
    assert(-11 * 65536 <= a * SCALE <= 11 * 65536) by (nonlinear_arith)
        requires
            -11 <= a <= 11,
            SCALE == 65536,
    ;
    assert(-11 * 65536 <= b * SCALE <= 11 * 65536) by (nonlinear_arith)
        requires
            -11 <= b <= 11,
            SCALE == 65536,
    ;
    assert(0 <= jx * 9 <= 589824) by (nonlinear_arith)
        requires
            0 <= jx < 65536,
    ;
    assert(0 <= jz * 9 <= 589824) by (nonlinear_arith)
        requires
            0 <= jz < 65536,
    ;
    vstd::arithmetic::div_mod::lemma_div_pos_is_pos(jx * 9, 10);
    vstd::arithmetic::div_mod::lemma_div_is_ordered(jx * 9, 589824, 10);
    vstd::arithmetic::div_mod::lemma_div_pos_is_pos(jz * 9, 10);
    vstd::arithmetic::div_mod::lemma_div_is_ordered(jz * 9, 589824, 10);
}

/// The color of one hello-image pixel: a red/green gradient over the
/// image with a constant blue.
pub open spec fn hello_color(i: int, j: int) -> Vec3 {
    Vec3 {
        x: Fx { raw: tdiv(i * SCALE, 200) as i64 },
        y: Fx { raw: tdiv(j * SCALE, 100) as i64 },
        z: Fx { raw: 13107 },
    }
}

/// The packed pixel at `(i, j)` of the hello image.
pub open spec fn hello_pixel_v(i: int, j: int) -> int {
    pack_v(hello_color(i, j))
}

/// The 200 by 100 hello-world gradient, rows from the top (the top row
/// holds the brightest greens).
pub fn get_hello_world_image_data() -> (buffer: Vec<u32>)
    ensures
        buffer@.len() == 20000,
        forall|m: int|
            0 <= m < 20000 ==> #[trigger] buffer@[m] == hello_pixel_v(m % 200, 99 - m / 200),
{
    let mut buffer: Vec<u32> = Vec::new();
    let mut k: usize = 0;
    while k < 20000
        invariant
            k <= 20000,
            buffer@.len() == k,
            forall|m: int|
                0 <= m < k ==> #[trigger] buffer@[m] == hello_pixel_v(m % 200, 99 - m / 200),
        decreases 20000 - k,
    {
        let i: usize = k % 200;
        let j: usize = 99 - k / 200;
        proof {
            vstd::arithmetic::div_mod::lemma_mod_bound(k as int, 200);
            vstd::arithmetic::div_mod::lemma_div_is_ordered(k as int, 19999, 200);
            vstd::arithmetic::div_mod::lemma_div_pos_is_pos(k as int, 200);
        }
        let x: Fx = Fx { raw: (((i as u64) * 65536) / 200) as i64 };
        let y: Fx = Fx { raw: (((j as u64) * 65536) / 100) as i64 };
        let color: Vec3 = Vec3 { x, y, z: Fx { raw: 13107 } };
        let px: u32 = vec_to_u32(color);
        buffer.push(px);
        k += 1;
    }
    buffer
}

/// The viewport ray of the sky image at pixel fractions `(u, v)`.
pub open spec fn sky_ray(u: int, v: int) -> Ray {
    Ray {
        origin: Vec3 { x: Fx { raw: 0 }, y: Fx { raw: 0 }, z: Fx { raw: 0 } },
        direction: Vec3 {
            x: Fx { raw: (-131072 + fxmul(4 * SCALE, u)) as i64 },
            y: Fx { raw: (-65536 + fxmul(2 * SCALE, v)) as i64 },
            z: Fx { raw: (-65536int) as i64 },
        },
        time: Fx { raw: 0 },
    }
}

/// The packed sky color of a ray: the white-to-blue gradient by the unit
/// direction's height.
pub open spec fn sky_shade_v(r: Ray) -> int {
    let t = fxmul(unit_v(r.direction).y.v() + SCALE, 32768);
    pack_v(
        Vec3 {
            x: Fx { raw: lerp_c(SCALE as int, 32768, t) as i64 },
            y: Fx { raw: lerp_c(SCALE as int, 45875, t) as i64 },
            z: Fx { raw: lerp_c(SCALE as int, SCALE as int, t) as i64 },
        },
    )
}

/// The packed pixel at `(i, j)` of the sky image.
pub open spec fn sky_pixel_v(i: int, j: int) -> int {
    sky_shade_v(sky_ray(tdiv(i * SCALE, 200), tdiv(j * SCALE, 100)))
}

/// The sky color of a viewport ray, packed.
fn sky_ray_color(r: Ray) -> (px: u32)
    requires
        ray_wf(r),
        len_sq_v(r.direction) >= SCALE,
    ensures
        px == sky_shade_v(r),
{
    let unit_direction: Vec3 = r.direction.norm();
    proof {
        assert(0x3_0000int * 0x8000 <= 0x2_0000int * 65536) by (nonlinear_arith);
        crate::fixed::lemma_fxmul_cap(
            unit_direction.y.v() + SCALE,
            32768,
            0x3_0000,
            0x8000,
            0x2_0000,
        );
    }
    let t: Fx = Fx { raw: unit_direction.y.raw + SCALE }.mul(Fx { raw: 32768 });
    let blend: Vec3 = lerp(white(), sky_blue(), t);
    vec_to_u32(blend)
}

/// The 200 by 100 sky-gradient image: one background ray per pixel, rows
/// from the top.
pub fn get_background_image_data() -> (buffer: Vec<u32>)
    ensures
        buffer@.len() == 20000,
        forall|m: int|
            0 <= m < 20000 ==> #[trigger] buffer@[m] == sky_pixel_v(m % 200, 99 - m / 200),
{
    let mut buffer: Vec<u32> = Vec::new();
    let mut k: usize = 0;
    while k < 20000
        invariant
            k <= 20000,
            buffer@.len() == k,
            forall|m: int|
                0 <= m < k ==> #[trigger] buffer@[m] == sky_pixel_v(m % 200, 99 - m / 200),
        decreases 20000 - k,
    {
        let i: usize = k % 200;
        let j: usize = 99 - k / 200;
        proof {
            vstd::arithmetic::div_mod::lemma_mod_bound(k as int, 200);
            vstd::arithmetic::div_mod::lemma_div_is_ordered(k as int, 19999, 200);
            vstd::arithmetic::div_mod::lemma_div_pos_is_pos(k as int, 200);
        }
        let u: Fx = Fx { raw: (((i as u64) * 65536) / 200) as i64 };
        let v: Fx = Fx { raw: (((j as u64) * 65536) / 100) as i64 };
        proof {
            lemma_sky_dir(u.v(), v.v());
        }
        let zero: Fx = Fx { raw: 0 };
        let origin: Vec3 = Vec3::new(zero, zero, zero);
        let dx: Fx = Fx { raw: -131072 + Fx { raw: 4 * SCALE }.mul(u).raw };
        let dy: Fx = Fx { raw: -65536 + Fx { raw: 2 * SCALE }.mul(v).raw };
        let direction: Vec3 = Vec3::new(dx, dy, Fx { raw: -65536 });
        let ray: Ray = Ray::new(origin, direction, zero);
        let px: u32 = sky_ray_color(ray);
        buffer.push(px);
        k += 1;
    }
    buffer
}

/// The sky viewport direction is bounded and never degenerate: its `z`
/// component is a full unit.
proof fn lemma_sky_dir(u: int, v: int)
    requires
        0 <= u <= SCALE,
        0 <= v <= SCALE,
    ensures
        0 <= fxmul(4 * SCALE, u) <= 4 * SCALE,
        0 <= fxmul(2 * SCALE, v) <= 2 * SCALE,
        fxmul(-65536, -65536) == SCALE,
        len_sq_v(
            Vec3 {
                x: Fx { raw: (-131072 + fxmul(4 * SCALE, u)) as i64 },
                y: Fx { raw: (-65536 + fxmul(2 * SCALE, v)) as i64 },
                z: Fx { raw: (-65536int) as i64 },
            },
        ) >= SCALE,
{
    assert(0x4_0000int * 0x1_0000 <= 0x4_0000int * 65536) by (nonlinear_arith);
    crate::fixed::lemma_fxmul_cap(4 * SCALE, u, 0x4_0000, 0x1_0000, 0x4_0000);
    crate::fixed::lemma_fxmul_cap(2 * SCALE, v, 0x4_0000, 0x1_0000, 0x4_0000);
    assert(0 <= (4 * SCALE) * u) by (nonlinear_arith)
        requires
            0 <= u,
            0 < SCALE,
    ;
    assert(0 <= (2 * SCALE) * v) by (nonlinear_arith)
        requires
            0 <= v,
            0 < SCALE,
    ;
    vstd::arithmetic::div_mod::lemma_div_pos_is_pos(iabs((4 * SCALE) * u), SCALE as int);
    vstd::arithmetic::div_mod::lemma_div_pos_is_pos(iabs((2 * SCALE) * v), SCALE as int);
    assert((-65536int) * (-65536int) == 65536int * 65536) by (nonlinear_arith);
    crate::fixed::lemma_tdiv_abs((-65536int) * (-65536int), SCALE as int);
    vstd::arithmetic::div_mod::lemma_div_by_multiple(65536, 65536);
    let d = Vec3 {
        x: Fx { raw: (-131072 + fxmul(4 * SCALE, u)) as i64 },
        y: Fx { raw: (-65536 + fxmul(2 * SCALE, v)) as i64 },
        z: Fx { raw: (-65536int) as i64 },
    };
    crate::vec3::lemma_fxmul_self_nonneg(d.x.v());
    crate::vec3::lemma_fxmul_self_nonneg(d.y.v());
    assert(d.z.v() == -65536);
    assert(fxmul(d.z.v(), d.z.v()) == SCALE);
}

} // verus!
