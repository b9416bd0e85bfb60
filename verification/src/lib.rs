//! A CPU stochastic path tracer whose intersection and light-transport engine
//! is verified: rays, axis-aligned bounding boxes, spheres, a bounding-volume
//! hierarchy, materials, textures and the recursive integrator all carry
//! contracts that pin their results down exactly.
//!
//! The geometry is computed over a fixed-point scalar type ([`fixed::Fx`])
//! rather than IEEE floats, so every arithmetic step has an exact
//! mathematical description; degenerate configurations that IEEE semantics
//! would resolve through infinities (a ray parallel to a slab, a zero
//! direction) are special-cased explicitly.
//!
//! The central laws live next to the code they govern:
//! [`aabb::AABB::hit`]'s contract equates the slab test with brute-force
//! per-axis interval intersection; [`aabb::lemma_combine_contains`] shows
//! the box union contains both inputs;
//! [`hittable_list::lemma_list_nearest`] characterizes the list scan as
//! the globally nearest hit; [`hittable_list::lemma_list_box_contains`]
//! shows the list's box contains every child's box;
//! [`bvh_node::lemma_bvh_matches_list`] equates
//! hierarchy traversal with the brute-force scan whenever the cached
//! bounds cover the query;
//! [`dielectric::lemma_dielectric_normal_incidence`] pins the Schlick
//! reflectance at normal incidence; and the integrator
//! [`render::ray_color`] terminates by a bounce budget it provably
//! consumes.
pub mod aabb;
pub mod bvh_node;
pub mod camera;
pub mod canvas;
pub mod consts;
pub mod dielectric;
pub mod diffuse;
pub mod fixed;
pub mod hittable;
pub mod hittable_list;
pub mod material;
pub mod metal;
pub mod moving_sphere;
pub mod perlin;
pub mod ray;
pub mod render;
pub mod sphere;
pub mod texture;
pub mod utils;
pub mod vec3;
