//! The combinatorial core of a Monte-Carlo path tracer.
//!
//! The library holds the scene model, the bounding volume hierarchy, the
//! selection of the nearest hit, the decisions that surfaces and materials
//! take, and the control of a light path. Every real quantity is carried as
//! a [`scalar::Scalar`], which the library orders and selects but never
//! computes with: sums, products, roots and angles are the caller's work,
//! and each function that needs one takes it as an argument. Where a
//! function has to ask for a hit or for a box test in the middle of its
//! work, the caller hands it a closure that answers.
//!
//! - [`scalar`], [`vec3`], [`ray`]: quantities, triples of them, and rays.
//! - [`aabb`]: bounding boxes, their union, and the slab test.
//! - [`hitable`], [`constant_medium`]: the kinds of surface, the flat list,
//!   and what each kind decides about a hit.
//! - [`bvh`]: the hierarchy, how it is built and searched, and the proof
//!   that it finds what a flat list finds.
//! - [`material`], [`texture`], [`perlin`]: materials and textures.
//! - [`renderer`], [`chunker`]: the path of a ray from bounce to bounce, and
//!   the tiles of a picture.
//! - [`rt_rand`], [`permutation`]: chance, and permutations.

pub mod scalar;
pub mod vec3;
pub mod ray;
pub mod aabb;
pub mod rt_rand;
pub mod permutation;
pub mod bvh;
pub mod perlin;
pub mod texture;
pub mod material;
pub mod hitable;
pub mod constant_medium;
pub mod renderer;
pub mod chunker;
