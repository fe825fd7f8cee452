//! Core of a triangle-mesh ray-tracing scene pipeline: axis-aligned bounding
//! boxes and triangles over fixed-point coordinates, a binned-SAH bounding
//! volume hierarchy builder, and the flattening of a hierarchical scene
//! description into offset-indexed parallel arrays for a read-only traversal
//! engine.
//!
//! Geometry lives in fixed-point world units: every coordinate is an `i64`
//! whose magnitude is at most [`math::COORD_LIMIT`], so box growth, surface
//! area and the surface-area-heuristic cost are computed exactly, with no
//! rounding. Quantities that this core only stores and copies, and never
//! computes with (transforms, texture coordinates, refraction indices), are
//! kept as opaque 32-bit words.

use vstd::prelude::*;

pub mod builder;
pub mod bvh;
pub mod geometry;
pub mod math;
pub mod material;
pub mod mesh;
pub mod renderer;
pub mod scene;

verus! {

} // verus!
