//! The verified core of a Monte Carlo path tracer.
//!
//! A path tracer follows rays through a scene of primitives and gathers the
//! light along them. This library holds what such a program decides; it is
//! proved to decide as its contracts say. It does no arithmetic on real
//! numbers: a caller computes where a ray crosses a plane or meets a sphere,
//! and hands the library the results.
//!
//! # Numbers
//!
//! - A ray parameter, a colour channel, and any other real quantity that is
//!   only compared is an ordered key ([`key`]): an `i64` that is ordered as
//!   the numbers are.
//! - The bounding boxes of primitives lie on a lattice of `i64` coordinates
//!   ([`vec3`], [`aabb`]), whose unit is the caller's. The hierarchy adds and
//!   subtracts coordinates to measure boxes, and does so exactly.
//!
//! # Parts
//!
//! - [`bvh`] builds a bounding volume hierarchy over the primitives of a
//!   scene; [`sort`] is the sort that it splits them with.
//! - [`hittable`] and [`traversal`] find the closest hit of a ray, in a list
//!   of primitives and in a hierarchy. The tests of the ray against a box
//!   and against a primitive are functions of the caller. [`equivalence`]
//!   proves that the hierarchy finds what the list finds.
//! - [`slab`] and [`sphere`] decide those two tests, from the crossings and
//!   the roots that the caller has computed.
//! - [`materials`] holds the rule by which each material scatters a ray,
//!   and [`integrator`] follows a path from bounce to bounce.
//! - [`camera`] fixes the order of the pixels of a frame, [`color`] the
//!   range of their channels, and [`ppm`] the layout of the file.
//! - [`perlin`] makes the permutation tables of a noise lattice.

pub mod aabb;
pub mod bvh;
pub mod camera;
pub mod color;
pub mod equivalence;
pub mod hittable;
pub mod integrator;
pub mod key;
pub mod materials;
pub mod perlin;
pub mod ppm;
pub mod slab;
pub mod sort;
pub mod sphere;
pub mod traversal;
pub mod vec3;

pub use aabb::AABB;
pub use bvh::{BVHContents, BVH};
pub use hittable::{HitRecord, HittableList, Scan, Step};
pub use vec3::{Color, Point, Vec3};
