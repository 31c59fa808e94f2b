//! The exact core of a Monte-Carlo path tracer.
//!
//! A path tracer computes with rounded numbers and decides by comparing
//! them. This crate holds what it decides, and proves it: the order of
//! single-precision numbers read off their bits, bounding boxes and their
//! unions, the bounding volume hierarchy and its traversal, lists of
//! objects and the nearest hit among them, which root, crossing or stretch
//! of a ray counts as a hit, the tables of a noise field, the order of the
//! pixels and the course of a light path. Sums, products, roots and
//! samples are the caller's: objects, materials and textures come in
//! through the traits `Hittable`, `Material` and `Texture`, and numbers as
//! `Scalar`s.

pub mod aabb;
pub mod bvh;
pub mod descriptor;
pub mod hittable;
pub mod light_source;
pub mod material;
pub mod nearest;
pub mod perlin;
pub mod ray;
pub mod rectangular;
pub mod render;
pub mod rng;
pub mod scalar;
pub mod spherical;
pub mod texture;
pub mod triangular;
pub mod vec3;
pub mod volumes;
