//! Lambertian (diffuse) scattering: the outgoing direction is the surface
//! normal offset by a uniformly sampled unit vector, which yields the
//! cosine-weighted diffuse distribution; the attenuation is the albedo
//! texture sampled at the hit. A diffuse surface never absorbs.
use crate::fixed::Fx;
use crate::fixed::SCALE;
use crate::hittable::HitRecord;
use crate::material::hit_for_scatter;
use crate::material::ray_for_scatter;
use crate::ray::Ray;
use crate::texture::color_wf;
use crate::texture::texture_value_v;
use crate::texture::texture_wf;
use crate::texture::Texture;
use crate::utils::random_unit_vector;
use crate::vec3::add_vec;
use crate::vec3::bounded;
use crate::vec3::vec_zero;
use crate::vec3::Vec3;
use vstd::prelude::*;

verus! {

pub struct Lambertian {
    pub albedo: Texture,
}

pub open spec fn lambertian_wf(l: Lambertian) -> bool {
    texture_wf(l.albedo)
}

/// What a diffuse scatter returns: always a ray, leaving the hit point at
/// the incoming time, in the direction of the normal offset by some unit
/// sample (repaired to the bare normal in the measure-zero case where the
/// sample exactly cancels it); the attenuation is exactly the albedo
/// texture's value at the hit. For a non-zero input normal the scattered
/// direction is never the zero vector.
pub open spec fn lambertian_post(
    l: Lambertian,
    r_in: Ray,
    hit: HitRecord,
    res: Option<(Ray, Vec3)>,
) -> bool {
    &&& res is Some
    &&& (res matches Some(pair) ==> {
        &&& pair.1 == texture_value_v(l.albedo, Fx { raw: 0 }, Fx { raw: 0 }, hit.p)
        &&& color_wf(pair.1)
        &&& pair.0.origin == hit.p
        &&& pair.0.time == r_in.time
        &&& (!vec_zero(hit.normal) ==> !vec_zero(pair.0.direction))
        &&& exists|uv: Vec3|
            {
                &&& #[trigger] bounded(uv, 2 * SCALE)
                &&& if vec_zero(add_vec(hit.normal, uv)) {
                    pair.0.direction == hit.normal
                } else {
                    pair.0.direction == add_vec(hit.normal, uv)
                }
            }
    })
}

impl Lambertian {
    pub fn new(albedo: Texture) -> (l: Lambertian)
        ensures
            l.albedo == albedo,
    {
        Lambertian { albedo }
    }

    pub fn scatter(&self, r_in: Ray, hit: &HitRecord, rng: &mut rand::rngs::StdRng) -> (res:
        Option<(Ray, Vec3)>)
        requires
            lambertian_wf(*self),
            hit_for_scatter(*hit),
            ray_for_scatter(r_in),
        ensures
            lambertian_post(*self, r_in, *hit, res),
    {
        let uvec: Vec3 = random_unit_vector(rng);
        let sum: Vec3 = hit.normal.add(uvec);
        // the sample can exactly cancel the normal on the grid; fall back
        // to the normal itself so the direction never degenerates
        let scatter_direction: Vec3 = if sum.x.raw == 0 && sum.y.raw == 0 && sum.z.raw == 0 {
            hit.normal
        } else {
            sum
        };
        let scattered: Ray = Ray::new(hit.p, scatter_direction, r_in.time);
        let zero: Fx = Fx { raw: 0 };
        let attenuation: Vec3 = self.albedo.value(zero, zero, hit.p);
        let res: Option<(Ray, Vec3)> = Some((scattered, attenuation));
        proof {
            assert(bounded(uvec, 2 * SCALE));
            assert(sum == add_vec(hit.normal, uvec));
        }
        res
    }
}

/// A diffuse bounce never degenerates: for a non-zero input normal, a
/// successful scatter's direction is non-zero (the sum with the sample is
/// used when it is non-zero, and the bare normal repairs the one
/// cancelling case).
pub proof fn lemma_lambertian_nondegenerate(
    l: Lambertian,
    r_in: Ray,
    hit: HitRecord,
    res: Option<(Ray, Vec3)>,
)
    requires
        lambertian_post(l, r_in, hit, res),
        !vec_zero(hit.normal),
    ensures
        res matches Some(pair) ==> !vec_zero(pair.0.direction),
{
}

} // verus!
