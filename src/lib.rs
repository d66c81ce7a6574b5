//! Spatial acceleration and light-transport core of a path tracer.
//!
//! Coordinates, ray parameters and extents are carried as *order keys*:
//! `i64` values whose order is exactly the order of the real coordinates
//! they stand for (the bit pattern of a non-negative `f64`, the negated
//! magnitude bits of a negative one). Every decision this crate makes about
//! geometry (which interval contains a value, which box bounds which, how
//! objects are ordered along an axis, which hit is the closest) depends on
//! order alone, so it is made exactly on keys; the floating-point
//! arithmetic (ray/slab roots, primitive intersections, shading) lives with
//! the caller, which reaches this crate through closures and plain values.
//!
//! - `interval`, `aabb`: ranges and boxes of keys.
//! - `bvh`: the bounding-volume hierarchy, its construction and traversal.
//! - `hittable_list`: the in-order closest-hit scan over a list of objects.
//! - `medium`: the segment of a ray inside a participating medium.
//! - `integrator`: the decisions of the recursive radiance estimator.
//! - `render`: stratification, row-parallel rendering and the raster text.
//! - `color`: pixel lines of the raster.
//! - `perlin`, `rtw_stb_image`, `texture`, `pdf`: the integer parts of the
//!   noise lattice, image lookup, constant textures and the uniform density.
//! - `rtweekend`: random integers.

pub mod aabb;
pub mod bvh;
pub mod color;
pub mod hittable_list;
pub mod integrator;
pub mod interval;
pub mod medium;
pub mod pdf;
pub mod perlin;
pub mod render;
pub mod rtw_stb_image;
pub mod rtweekend;
pub mod texture;
