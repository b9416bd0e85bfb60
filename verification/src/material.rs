//! The closed family of materials. `scatter` consumes a hit and produces
//! an optional scattered ray and attenuation color; `None` means the ray
//! was absorbed.
use crate::dielectric::dielectric_post;
use crate::dielectric::dielectric_wf;
use crate::dielectric::Dielectric;
use crate::diffuse::lambertian_post;
use crate::diffuse::lambertian_wf;
use crate::diffuse::Lambertian;
use crate::fixed::iabs;
use crate::fixed::SCALE;
use crate::hittable::HitRecord;
use crate::metal::metal_post;
use crate::metal::metal_wf;
use crate::metal::Metal;
use crate::ray::Ray;
use crate::ray::WORLD_MAG;
use crate::vec3::bounded;
use crate::vec3::Vec3;
use vstd::prelude::*;

verus! {

pub enum Material {
    Lambertian(Lambertian),
    Metal(Metal),
    Dielectric(Dielectric),
}

pub open spec fn material_wf(m: Material) -> bool {
    match m {
        Material::Lambertian(l) => lambertian_wf(l),
        Material::Metal(mt) => metal_wf(mt),
        Material::Dielectric(d) => dielectric_wf(d),
    }
}

/// What a scatter call assumes of the hit it consumes: the record came
/// from an intersection, so its normal is near unit length and its point
/// lies within reach of the ray.
pub open spec fn hit_for_scatter(hit: HitRecord) -> bool {
    bounded(hit.normal, 4 * SCALE) && bounded(hit.p, 0x41_0000_0000_0000)
}

/// What a scatter call assumes of the incoming ray.
pub open spec fn ray_for_scatter(r: Ray) -> bool {
    bounded(r.direction, WORLD_MAG as int) && iabs(r.time.v()) <= WORLD_MAG
}

/// The variant-specific scatter postcondition of a material.
pub open spec fn scatter_post_v(
    m: Material,
    r_in: Ray,
    hit: HitRecord,
    res: Option<(Ray, Vec3)>,
) -> bool {
    match m {
        Material::Lambertian(l) => lambertian_post(l, r_in, hit, res),
        Material::Metal(mt) => metal_post(mt, r_in, hit, res),
        Material::Dielectric(d) => dielectric_post(d, r_in, hit, res),
    }
}

impl Material {
    /// Scatter the incoming ray at the hit: each variant's postcondition
    /// pins down its attenuation, the scattered origin and time, and the
    /// shape of the scattered direction.
    pub fn scatter(&self, r_in: Ray, hit: &HitRecord, rng: &mut rand::rngs::StdRng) -> (res:
        Option<(Ray, Vec3)>)
        requires
            material_wf(*self),
            hit_for_scatter(*hit),
            ray_for_scatter(r_in),
        ensures
            scatter_post_v(*self, r_in, *hit, res),
    {
        match self {
            Material::Lambertian(l) => l.scatter(r_in, hit, rng),
            Material::Metal(m) => m.scatter(r_in, hit, rng),
            Material::Dielectric(d) => d.scatter(r_in, hit, rng),
        }
    }
}

} // verus!
