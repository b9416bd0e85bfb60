use weekend_path_tracer::aabb::AABB;
use weekend_path_tracer::bvh_node::BvhNode;
use weekend_path_tracer::fixed::Fx;
use weekend_path_tracer::fixed::SCALE;
use weekend_path_tracer::hittable::Object;
use weekend_path_tracer::hittable_list::HittableList;
use weekend_path_tracer::moving_sphere::MovingSphere;
use weekend_path_tracer::ray::Ray;
use weekend_path_tracer::sphere::Sphere;
use weekend_path_tracer::utils::random_in_range;
use weekend_path_tracer::vec3::Vec3;

fn seed_rng(seed: u64) -> rand::rngs::StdRng {
    <rand::rngs::StdRng as rand::SeedableRng>::seed_from_u64(seed)
}

fn fx(units: f64) -> Fx {
    Fx {
        raw: (units * SCALE as f64) as i64,
    }
}

fn v3(x: f64, y: f64, z: f64) -> Vec3 {
    Vec3::new(fx(x), fx(y), fx(z))
}

// A ray from the origin toward (0,0,-1) against a unit sphere centered at
// (0,0,-3) hits at t = 2, with outward normal (0,0,1) and front_face true.
#[test]
fn sphere_hit_head_on() {
    let s = Sphere::new(v3(0.0, 0.0, -3.0), fx(1.0), 0);
    let r = Ray::new(v3(0.0, 0.0, 0.0), v3(0.0, 0.0, -1.0), fx(0.0));
    let hit = s.hit(&r, fx(0.001), Fx { raw: 1 << 40 }).expect("must hit");
    assert_eq!(hit.t.raw, 2 * SCALE);
    assert_eq!(hit.p.z.raw, -2 * SCALE);
    assert_eq!(hit.normal.x.raw, 0);
    assert_eq!(hit.normal.y.raw, 0);
    assert_eq!(hit.normal.z.raw, SCALE);
    assert!(hit.front_face);
    assert_eq!(hit.material, 0);
}

#[test]
fn sphere_miss_is_none() {
    let s = Sphere::new(v3(0.0, 10.0, -3.0), fx(1.0), 0);
    let r = Ray::new(v3(0.0, 0.0, 0.0), v3(0.0, 0.0, -1.0), fx(0.0));
    assert!(s.hit(&r, fx(0.001), Fx { raw: 1 << 40 }).is_none());
}

// A hollow (negative-radius) sphere is a valid input whose normal flips.
#[test]
fn sphere_negative_radius_flips_normal() {
    let s = Sphere::new(v3(0.0, 0.0, -3.0), fx(-1.0), 0);
    let r = Ray::new(v3(0.0, 0.0, 0.0), v3(0.0, 0.0, -1.0), fx(0.0));
    let hit = s.hit(&r, fx(0.001), Fx { raw: 1 << 40 }).expect("must hit");
    assert_eq!(hit.t.raw, 2 * SCALE);
    assert_eq!(hit.normal.z.raw, SCALE);
    assert!(!hit.front_face);
}

#[test]
fn aabb_hit_matches_interval_intersection() {
    let b = AABB::new(v3(-1.0, -1.0, -4.0), v3(1.0, 1.0, -2.0));
    let r = Ray::new(v3(0.0, 0.0, 0.0), v3(0.0, 0.0, -1.0), fx(0.0));
    // entry at t = 2, exit at t = 4
    assert!(b.hit(&r, fx(0.001), fx(100.0)));
    assert!(!b.hit(&r, fx(0.001), fx(1.5)));
    assert!(!b.hit(&r, fx(5.0), fx(100.0)));
    // parallel ray outside the x slab
    let r2 = Ray::new(v3(2.0, 0.0, 0.0), v3(0.0, 0.0, -1.0), fx(0.0));
    assert!(!b.hit(&r2, fx(0.001), fx(100.0)));
    // parallel ray inside the slab still hits
    let r3 = Ray::new(v3(0.5, 0.5, 0.0), v3(0.0, 0.0, -1.0), fx(0.0));
    assert!(b.hit(&r3, fx(0.001), fx(100.0)));
}

#[test]
fn aabb_combine_contains_both() {
    let a = AABB::new(v3(-1.0, -1.0, -1.0), v3(1.0, 1.0, 1.0));
    let b = AABB::new(v3(0.5, 2.0, -3.0), v3(4.0, 5.0, 0.0));
    let c = a.combine(b);
    assert_eq!(c.min.x.raw, -SCALE);
    assert_eq!(c.min.y.raw, -SCALE);
    assert_eq!(c.min.z.raw, -3 * SCALE);
    assert_eq!(c.max.x.raw, 4 * SCALE);
    assert_eq!(c.max.y.raw, 5 * SCALE);
    assert_eq!(c.max.z.raw, SCALE);
    // sampled points of either input lie inside the union
    for p in [
        v3(-1.0, -1.0, -1.0),
        v3(1.0, 1.0, 1.0),
        v3(0.0, 0.5, 0.25),
        v3(0.5, 2.0, -3.0),
        v3(4.0, 5.0, 0.0),
        v3(2.0, 3.0, -1.5),
    ] {
        assert!(c.min.x.raw <= p.x.raw && p.x.raw <= c.max.x.raw);
        assert!(c.min.y.raw <= p.y.raw && p.y.raw <= c.max.y.raw);
        assert!(c.min.z.raw <= p.z.raw && p.z.raw <= c.max.z.raw);
    }
}

#[test]
fn moving_sphere_center_interpolates() {
    let m = MovingSphere::new(
        v3(0.0, 0.0, 0.0),
        v3(2.0, 0.0, 0.0),
        fx(0.0),
        fx(1.0),
        fx(0.5),
        0,
    );
    assert_eq!(m.center(fx(0.0)).x.raw, 0);
    assert_eq!(m.center(fx(1.0)).x.raw, 2 * SCALE);
    assert_eq!(m.center(fx(0.5)).x.raw, SCALE);
}

#[test]
fn moving_sphere_box_spans_both_keyframes() {
    let m = MovingSphere::new(
        v3(0.0, 0.0, 0.0),
        v3(2.0, 0.0, 0.0),
        fx(0.0),
        fx(1.0),
        fx(0.5),
        0,
    );
    let b = m.bounding_box(fx(0.0), fx(1.0)).expect("box");
    assert_eq!(b.min.x.raw, -SCALE / 2);
    assert_eq!(b.max.x.raw, 2 * SCALE + SCALE / 2);
}

fn random_sphere_list(rng: &mut rand::rngs::StdRng, n: usize) -> HittableList {
    let mut list = HittableList::new();
    for k in 0..n {
        let cx = random_in_range(rng, fx(-10.0), fx(10.0));
        let cy = random_in_range(rng, fx(-10.0), fx(10.0));
        let cz = random_in_range(rng, fx(-10.0), fx(10.0));
        let radius = random_in_range(rng, fx(0.2), fx(1.5));
        list.add(Object::Sphere(Sphere::new(
            Vec3::new(cx, cy, cz),
            radius,
            k,
        )));
    }
    list
}

// The hierarchy returns the same nearest hit as the brute-force list on
// randomized scenes of several sizes.
#[test]
fn bvh_matches_list_on_random_scenes() {
    for (seed, n) in [(7u64, 1usize), (8, 2), (9, 3), (10, 50)] {
        let mut rng = seed_rng(seed);
        let list = random_sphere_list(&mut rng, n);
        let tree = BvhNode::new_from_hittable(&list, fx(0.0), fx(1.0), &mut rng);
        let mut ray_rng = seed_rng(seed ^ 0xabcd);
        for _ in 0..200 {
            let o = Vec3::new(
                random_in_range(&mut ray_rng, fx(-12.0), fx(12.0)),
                random_in_range(&mut ray_rng, fx(-12.0), fx(12.0)),
                random_in_range(&mut ray_rng, fx(-12.0), fx(12.0)),
            );
            let d = Vec3::new(
                random_in_range(&mut ray_rng, fx(-1.0), fx(1.0)),
                random_in_range(&mut ray_rng, fx(-1.0), fx(1.0)),
                random_in_range(&mut ray_rng, fx(-1.0), fx(1.0)),
            );
            let r = Ray::new(o, d, fx(0.0));
            let from_list = list.hit(r, fx(0.001), Fx { raw: 1 << 40 });
            let from_tree = tree.hit(&r, fx(0.001), Fx { raw: 1 << 40 });
            assert_eq!(from_list, from_tree);
        }
    }
}

#[test]
fn list_hit_returns_nearest() {
    let mut list = HittableList::new();
    list.add(Object::Sphere(Sphere::new(v3(0.0, 0.0, -5.0), fx(1.0), 0)));
    list.add(Object::Sphere(Sphere::new(v3(0.0, 0.0, -3.0), fx(1.0), 1)));
    list.add(Object::Sphere(Sphere::new(v3(0.0, 0.0, -9.0), fx(1.0), 2)));
    let r = Ray::new(v3(0.0, 0.0, 0.0), v3(0.0, 0.0, -1.0), fx(0.0));
    let hit = list.hit(r, fx(0.001), Fx { raw: 1 << 40 }).expect("hit");
    assert_eq!(hit.material, 1);
    assert_eq!(hit.t.raw, 2 * SCALE);
}

#[test]
fn fixed_point_arithmetic_is_exact() {
    let a = fx(1.5);
    let b = fx(2.0);
    assert_eq!(a.add(b).raw, (3.5 * SCALE as f64) as i64);
    assert_eq!(a.mul(b).raw, 3 * SCALE);
    assert_eq!(b.sqrt().raw, 92681); // floor(sqrt(2) * 65536)
    assert_eq!(fx(4.0).sqrt().raw, 2 * SCALE);
    assert_eq!(a.sub(b).raw, -SCALE / 2);
    assert_eq!(fx(7.0).div(b).raw, 229376); // 3.5
}

#[test]
fn vector_algebra_is_exact() {
    let a = v3(1.0, 2.0, 3.0);
    let b = v3(4.0, -5.0, 6.0);
    assert_eq!(a.dot(b).raw, (4.0 - 10.0 + 18.0) as i64 * SCALE);
    let c = a.cross(b);
    assert_eq!(c.x.raw, 27 * SCALE);
    assert_eq!(c.y.raw, 6 * SCALE);
    assert_eq!(c.z.raw, -13 * SCALE);
    let n = v3(3.0, 0.0, 4.0).norm();
    assert_eq!(n.x.raw, 39321); // 3/5
    assert_eq!(n.z.raw, 52428); // 4/5
}
