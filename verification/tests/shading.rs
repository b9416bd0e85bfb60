use weekend_path_tracer::camera::Camera;
use weekend_path_tracer::consts::sky_blue;
use weekend_path_tracer::consts::white;
use weekend_path_tracer::dielectric::Dielectric;
use weekend_path_tracer::diffuse::Lambertian;
use weekend_path_tracer::fixed::Fx;
use weekend_path_tracer::fixed::SCALE;
use weekend_path_tracer::hittable::HitRecord;
use weekend_path_tracer::hittable::Object;
use weekend_path_tracer::hittable_list::HittableList;
use weekend_path_tracer::material::Material;
use weekend_path_tracer::metal::Metal;
use weekend_path_tracer::ray::Ray;
use weekend_path_tracer::render::from_u8_rgb;
use weekend_path_tracer::render::get_background_image_data;
use weekend_path_tracer::render::get_hello_world_image_data;
use weekend_path_tracer::render::random_scene;
use weekend_path_tracer::render::ray_color;
use weekend_path_tracer::render::render_pixel;
use weekend_path_tracer::render::test_scene;
use weekend_path_tracer::render::vec_to_u32;
use weekend_path_tracer::render::Scene;
use weekend_path_tracer::sphere::Sphere;
use weekend_path_tracer::texture::SolidColor;
use weekend_path_tracer::texture::Texture;
use weekend_path_tracer::vec3::Vec3;

fn seed_rng(seed: u64) -> rand::rngs::StdRng {
    <rand::rngs::StdRng as rand::SeedableRng>::seed_from_u64(seed)
}

fn fx(units: f64) -> Fx {
    Fx {
        raw: (units * SCALE as f64) as i64,
    }
}

fn v3(x: f64, y: f64, z: f64) -> Vec3 {
    Vec3::new(fx(x), fx(y), fx(z))
}

fn head_on_hit() -> HitRecord {
    HitRecord {
        t: fx(2.0),
        p: v3(0.0, 0.0, -2.0),
        normal: v3(0.0, 0.0, 1.0),
        front_face: true,
        material: 0,
    }
}

// Lambertian attenuation is exactly the texture's value at the hit, and
// the scattered ray leaves the hit point at the incoming time.
#[test]
fn lambertian_attenuation_matches_texture() {
    let albedo = v3(0.1, 0.2, 0.5);
    let mat = Lambertian::new(Texture::SolidColor(SolidColor::new(albedo)));
    let hit = head_on_hit();
    let r_in = Ray::new(v3(0.0, 0.0, 0.0), v3(0.0, 0.0, -1.0), fx(0.25));
    let mut rng = seed_rng(1);
    for _ in 0..32 {
        let (scattered, attenuation) = mat.scatter(r_in, &hit, &mut rng).expect("diffuse");
        assert_eq!(attenuation, albedo);
        assert_eq!(scattered.origin, hit.p);
        assert_eq!(scattered.time.raw, r_in.time.raw);
        // direction = normal + unit sample: the sample is within two units
        let ux = scattered.direction.x.raw - hit.normal.x.raw;
        let uy = scattered.direction.y.raw - hit.normal.y.raw;
        let uz = scattered.direction.z.raw - hit.normal.z.raw;
        assert!(ux.abs() <= 2 * SCALE && uy.abs() <= 2 * SCALE && uz.abs() <= 2 * SCALE);
    }
}

#[test]
fn metal_absorbs_only_the_zero_direction() {
    let mat = Metal::new(v3(0.8, 0.6, 0.2), fx(0.0));
    let hit = head_on_hit();
    let zero_dir = Ray::new(v3(0.0, 0.0, 0.0), v3(0.0, 0.0, 0.0), fx(0.0));
    let mut rng = seed_rng(2);
    assert!(mat.scatter(zero_dir, &hit, &mut rng).is_none());
    // a very short direction still normalizes and reflects like a unit one
    let short = Ray::new(
        v3(0.0, 0.0, 0.0),
        Vec3::new(Fx { raw: 0 }, Fx { raw: 0 }, Fx { raw: -100 }),
        fx(0.0),
    );
    let (scattered, _) = mat.scatter(short, &hit, &mut rng).expect("reflect");
    assert_eq!(scattered.direction.z.raw, SCALE);
}

#[test]
fn polished_metal_reflects_head_on() {
    let mat = Metal::new(v3(0.8, 0.6, 0.2), fx(0.0));
    let hit = head_on_hit();
    let r_in = Ray::new(v3(0.0, 0.0, 0.0), v3(0.0, 0.0, -1.0), fx(0.0));
    let mut rng = seed_rng(3);
    let (scattered, attenuation) = mat.scatter(r_in, &hit, &mut rng).expect("reflect");
    assert_eq!(attenuation, v3(0.8, 0.6, 0.2));
    // head-on mirror reflection turns the ray straight back
    assert_eq!(scattered.direction.z.raw, SCALE);
    assert_eq!(scattered.direction.x.raw, 0);
    assert_eq!(scattered.direction.y.raw, 0);
}

// At normal incidence a dielectric with unit refractive index never
// reflects: the base reflectance is zero and nothing forces total
// internal reflection, so every draw refracts straight through.
#[test]
fn dielectric_normal_incidence_refracts() {
    let mat = Dielectric::new(fx(1.0));
    let hit = head_on_hit();
    let r_in = Ray::new(v3(0.0, 0.0, 0.0), v3(0.0, 0.0, -1.0), fx(0.0));
    let mut rng = seed_rng(4);
    for _ in 0..64 {
        let (scattered, attenuation) = mat.scatter(r_in, &hit, &mut rng).expect("never absorbs");
        assert_eq!(attenuation, v3(1.0, 1.0, 1.0));
        // continues forward: never turned back by a reflection
        assert!(scattered.direction.z.raw < 0);
    }
}

#[test]
fn dielectric_never_absorbs() {
    let mat = Dielectric::new(fx(1.5));
    let hit = head_on_hit();
    let r_in = Ray::new(v3(0.1, 0.2, 0.0), v3(0.3, -0.2, -1.0), fx(0.0));
    let mut rng = seed_rng(5);
    for _ in 0..64 {
        let (_, attenuation) = mat.scatter(r_in, &hit, &mut rng).expect("never absorbs");
        assert_eq!(attenuation, v3(1.0, 1.0, 1.0));
    }
    // a sub-unit direction also scatters: only the zero direction is absorbed
    let short = Ray::new(
        v3(0.0, 0.0, 0.0),
        Vec3::new(Fx { raw: 0 }, Fx { raw: 0 }, Fx { raw: -50 }),
        fx(0.0),
    );
    assert!(mat.scatter(short, &hit, &mut rng).is_some());
    let zero_dir = Ray::new(v3(0.0, 0.0, 0.0), v3(0.0, 0.0, 0.0), fx(0.0));
    assert!(mat.scatter(zero_dir, &hit, &mut rng).is_none());
}

fn two_sphere_scene() -> Scene {
    let mut world = HittableList::new();
    let mut materials = Vec::new();
    materials.push(Material::Lambertian(Lambertian::new(Texture::SolidColor(
        SolidColor::new(v3(0.5, 0.5, 0.5)),
    ))));
    materials.push(Material::Lambertian(Lambertian::new(Texture::SolidColor(
        SolidColor::new(v3(0.1, 0.2, 0.5)),
    ))));
    world.add(Object::Sphere(Sphere::new(
        v3(0.0, -100.5, -1.0),
        fx(100.0),
        0,
    )));
    world.add(Object::Sphere(Sphere::new(v3(0.0, 0.0, -1.0), fx(0.5), 1)));
    Scene { world, materials }
}

#[test]
fn ray_color_depth_zero_is_black() {
    let scene = two_sphere_scene();
    let mut rng = seed_rng(6);
    let r = Ray::new(v3(0.0, 0.0, 0.0), v3(0.0, 0.0, -1.0), fx(0.0));
    let c = ray_color(r, &scene, 0, &mut rng);
    assert_eq!(c.x.raw, 0);
    assert_eq!(c.y.raw, 0);
    assert_eq!(c.z.raw, 0);
}

#[test]
fn ray_color_miss_is_background_gradient() {
    let scene = two_sphere_scene();
    let mut rng = seed_rng(7);
    // straight up: the unit direction's y is one, so the blend is pure sky
    let r = Ray::new(v3(0.0, 0.0, 0.0), v3(0.0, 1.0, 0.0), fx(0.0));
    let c = ray_color(r, &scene, 50, &mut rng);
    let sky = sky_blue();
    assert_eq!(c.x.raw, sky.x.raw);
    assert_eq!(c.y.raw, sky.y.raw);
    assert_eq!(c.z.raw, sky.z.raw);
    // another upward ray misses everything and sees the same sky
    let r2 = Ray::new(v3(0.0, 5.0, 0.0), v3(0.0, 1.0, 0.0), fx(0.0));
    let c2 = ray_color(r2, &scene, 50, &mut rng);
    assert_eq!(c2, c);
    // a very short upward direction normalizes to the same gradient
    let r3 = Ray::new(
        v3(0.0, 5.0, 0.0),
        Vec3::new(Fx { raw: 0 }, Fx { raw: 7 }, Fx { raw: 0 }),
        fx(0.0),
    );
    let c3 = ray_color(r3, &scene, 50, &mut rng);
    assert_eq!(c3, c);
}

// The integrator terminates for any depth budget; colors stay in the unit
// cube.
#[test]
fn ray_color_bounded_depth_terminates() {
    let scene = two_sphere_scene();
    let mut rng = seed_rng(8);
    for depth in [1u32, 2, 10, 50] {
        let r = Ray::new(v3(0.0, 0.0, 0.0), v3(0.0, 0.0, -1.0), fx(0.0));
        let c = ray_color(r, &scene, depth, &mut rng);
        for ch in [c.x.raw, c.y.raw, c.z.raw] {
            assert!((0..=SCALE).contains(&ch));
        }
    }
}

// Rendering the two-sphere scene twice from the same seed produces the
// same bytes: the whole pipeline is deterministic in the seed.
#[test]
fn render_is_deterministic_in_the_seed() {
    let scene = two_sphere_scene();
    let camera = Camera::new(
        v3(0.0, 0.0, 0.5),
        v3(0.0, 0.0, -1.0),
        v3(0.0, 1.0, 0.0),
        fx(60.0),
        fx(2.0),
        fx(0.0),
        fx(1.5),
        fx(0.0),
        fx(1.0),
    );
    let width = 8usize;
    let height = 4usize;
    let mut frames: Vec<Vec<u32>> = Vec::new();
    for _run in 0..2 {
        let mut rng = seed_rng(42);
        let mut buffer = Vec::new();
        for j in (0..height).rev() {
            for i in 0..width {
                let u = Fx {
                    raw: (i as i64 * SCALE) / width as i64,
                };
                let v = Fx {
                    raw: (j as i64 * SCALE) / height as i64,
                };
                let (r, g, b) = render_pixel(&camera, &scene, u, v, 100, 50, &mut rng);
                buffer.push(from_u8_rgb(r, g, b));
            }
        }
        frames.push(buffer);
    }
    assert_eq!(frames[0], frames[1]);
    // and a different seed gives a different image for this scene
    let mut rng = seed_rng(43);
    let (r, g, b) = render_pixel(&camera, &scene, fx(0.5), fx(0.5), 100, 50, &mut rng);
    let _ = from_u8_rgb(r, g, b);
}

#[test]
fn packed_pixels_are_exact() {
    assert_eq!(from_u8_rgb(0, 0, 0), 0);
    assert_eq!(from_u8_rgb(1, 2, 3), 0x010203);
    assert_eq!(from_u8_rgb(255, 255, 255), 0x00ff_ffff);
    // gamma: sqrt(0.25) = 0.5 scales to 128
    let px = vec_to_u32(v3(0.25, 0.0, 1.0));
    assert_eq!(px, from_u8_rgb(128, 0, 255));
}

#[test]
fn hello_world_image_has_exact_gradient() {
    let buffer = get_hello_world_image_data();
    assert_eq!(buffer.len(), 20000);
    // top-left pixel: red 0, green sqrt(0.99) -> 254, blue sqrt(0.2) -> 114
    assert_eq!(buffer[0], from_u8_rgb(0, 254, 114));
    // bottom-right pixel: red sqrt(199/200) -> 255 clamped to 0.999 scale
    let last = buffer[19999];
    assert_eq!(last & 0xff, 114);
}

#[test]
fn background_image_is_sky_gradient() {
    let buffer = get_background_image_data();
    assert_eq!(buffer.len(), 20000);
    let white_px = vec_to_u32(white());
    // every pixel blends between white-ish and sky-ish values
    for &px in [buffer[0], buffer[10000], buffer[19999]].iter() {
        let r = (px >> 16) & 0xff;
        let g = (px >> 8) & 0xff;
        let b = px & 0xff;
        assert!(b >= g && g >= r, "sky gradient is bluest: {px:#x}");
        let _ = white_px;
    }
}

#[test]
fn demo_scenes_build() {
    let mut rng = seed_rng(11);
    let t = test_scene();
    assert_eq!(t.world.objects.len(), 5);
    let r = random_scene(&mut rng);
    assert!(r.world.objects.len() >= 4);
    // every object's material index resolves
    for o in r.world.objects.iter() {
        let m = match o {
            Object::Sphere(s) => s.material,
            Object::MovingSphere(ms) => ms.material,
        };
        assert!(m < r.materials.len());
    }
}

#[test]
fn unit_samples_are_never_degenerate() {
    let mut rng = seed_rng(12);
    for _ in 0..200 {
        let u = weekend_path_tracer::utils::random_unit_vector(&mut rng);
        assert!(u.x.raw.abs() <= SCALE && u.y.raw.abs() <= SCALE && u.z.raw.abs() <= SCALE);
        assert!(u.x.raw.abs() >= 9362 || u.y.raw.abs() >= 9362 || u.z.raw.abs() >= 9362);
    }
}

#[test]
fn perlin_tables_are_permutations() {
    let mut rng = seed_rng(13);
    let p = weekend_path_tracer::perlin::Perlin::new(&mut rng);
    for table in [&p.perm_x, &p.perm_y, &p.perm_z] {
        let mut seen = [false; 256];
        assert_eq!(table.len(), 256);
        for &b in table.iter() {
            assert!(!seen[b as usize], "duplicate table entry");
            seen[b as usize] = true;
        }
    }
    for g in p.random_vectors.iter() {
        assert!(g.x.raw.abs() <= SCALE && g.y.raw.abs() <= SCALE && g.z.raw.abs() <= SCALE);
        assert!(g.x.raw.abs() >= 9362 || g.y.raw.abs() >= 9362 || g.z.raw.abs() >= 9362);
    }
}

// With an empty scene, a closed lens and a zero-width shutter, nothing is
// left to chance: the pixel is the background of the one determined ray,
// whatever the seed; and an exhausted bounce budget renders black.
#[test]
fn render_pixel_chance_free_corner() {
    let empty = Scene {
        world: HittableList::new(),
        materials: Vec::new(),
    };
    let camera = Camera::new(
        v3(0.0, 0.0, 0.5),
        v3(0.0, 0.0, -1.0),
        v3(0.0, 1.0, 0.0),
        fx(60.0),
        fx(2.0),
        fx(0.0),
        fx(1.5),
        fx(0.25),
        fx(0.25),
    );
    let a = render_pixel(&camera, &empty, fx(0.5), fx(0.5), 7, 50, &mut seed_rng(1));
    let b = render_pixel(&camera, &empty, fx(0.5), fx(0.5), 100, 50, &mut seed_rng(999));
    assert_eq!(a, b);
    let scene = two_sphere_scene();
    let black = render_pixel(&camera, &scene, fx(0.5), fx(0.5), 9, 0, &mut seed_rng(3));
    assert_eq!(black, (0, 0, 0));
}
