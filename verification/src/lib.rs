//! Verified core of an offline path tracer.
//!
//! The crate holds the parts of the renderer whose correctness is a matter of
//! structure rather than of numerics: bounding boxes, their merge and the
//! slab test, the bounding-volume hierarchy and its traversal, closest-hit
//! selection over a list, the decisions of shapes, materials and media, the
//! permutation tables of the noise generator, the integrator's control flow
//! and the row scheduler.
//!
//! Every scalar that is only ever compared (box corners, ray parameters) is an
//! `i64` ordinate: the rendering front end maps its real-valued quantities to
//! ordinates by an order-preserving encoding and back.

pub mod aabb;
pub mod bvh_tree;
pub mod constant_medium;
pub mod hitable_list;
pub mod hittable;
pub mod integrator;
pub mod material;
pub mod pdf;
pub mod perlin;
pub mod qsort;
mod sampling;
pub mod scheduler;
pub mod shapes;
pub mod texture;
pub mod utils;
