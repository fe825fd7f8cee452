//! Scalar and small-vector types for the fixed-point geometry pipeline.

use vstd::prelude::*;

verus! {

/// Largest magnitude a world-space coordinate may have. Keeping every
/// coordinate inside `[-COORD_LIMIT, COORD_LIMIT]` makes box extents,
/// surface areas and cross products fit comfortably in their carrier types.
pub const COORD_LIMIT: i64 = 1048576;

/// A position or extent in fixed-point world units.
#[derive(Clone, Copy, Debug)]
pub struct Vec3 {
    pub x: i64,
    pub y: i64,
    pub z: i64,
}

/// A triple of vertex indices into a mesh's vertex table.
#[derive(Clone, Copy, Debug)]
pub struct Uint3 {
    pub x: u32,
    pub y: u32,
    pub z: u32,
}

/// An unnormalized direction with wide components: cross products of valid
/// positions, and sums of many of them, never overflow an `i128`.
#[derive(Clone, Copy, Debug)]
pub struct Dir3 {
    pub x: i128,
    pub y: i128,
    pub z: i128,
}

/// A 4x4 transform stored row-major as 16 opaque 32-bit words. This core
/// only stores and copies transforms; it never computes with their entries.
#[derive(Clone, Copy, Debug)]
pub struct Mat4 {
    pub cells: [u32; 16],
}

/// A texture coordinate stored as two opaque 32-bit words.
#[derive(Clone, Copy, Debug)]
pub struct TexCoord {
    pub u: u32,
    pub v: u32,
}

/// A coordinate that the fixed-point pipeline accepts.
pub open spec fn valid_coord(c: i64) -> bool {
    -COORD_LIMIT <= c <= COORD_LIMIT
}

/// A point whose three coordinates are all in range.
pub open spec fn valid_point(v: Vec3) -> bool {
    valid_coord(v.x) && valid_coord(v.y) && valid_coord(v.z)
}

/// The smaller of two scalars.
pub open spec fn imin(a: int, b: int) -> int {
    if a <= b {
        a
    } else {
        b
    }
}

/// The larger of two scalars.
pub open spec fn imax(a: int, b: int) -> int {
    if a >= b {
        a
    } else {
        b
    }
}

/// Componentwise minimum of two points.
pub open spec fn vec3_min(a: Vec3, b: Vec3) -> Vec3 {
    Vec3 { x: imin(a.x as int, b.x as int) as i64, y: imin(a.y as int, b.y as int) as i64, z: imin(
        a.z as int,
        b.z as int,
    ) as i64 }
}

/// Componentwise maximum of two points.
pub open spec fn vec3_max(a: Vec3, b: Vec3) -> Vec3 {
    Vec3 { x: imax(a.x as int, b.x as int) as i64, y: imax(a.y as int, b.y as int) as i64, z: imax(
        a.z as int,
        b.z as int,
    ) as i64 }
}

/// The smaller of two machine scalars.
pub fn min_i64(a: i64, b: i64) -> (r: i64)
    ensures
        r as int == imin(a as int, b as int),
{
    if a <= b {
        a
    } else {
        b
    }
}

/// The larger of two machine scalars.
pub fn max_i64(a: i64, b: i64) -> (r: i64)
    ensures
        r as int == imax(a as int, b as int),
{
    if a >= b {
        a
    } else {
        b
    }
}

impl Vec3 {
    /// The point with the same scalar on every axis.
    pub fn from_a(a: i64) -> (r: Vec3)
        ensures
            r == (Vec3 { x: a, y: a, z: a }),
    {
        Vec3 { x: a, y: a, z: a }
    }

    /// The point with the given coordinates.
    pub fn from_xyz(x: i64, y: i64, z: i64) -> (r: Vec3)
        ensures
            r == (Vec3 { x, y, z }),
    {
        Vec3 { x, y, z }
    }

    /// The origin.
    pub fn zero() -> (r: Vec3)
        ensures
            r == (Vec3 { x: 0i64, y: 0i64, z: 0i64 }),
    {
        Vec3 { x: 0, y: 0, z: 0 }
    }

    /// Componentwise minimum with another point.
    pub fn min(&self, other: &Vec3) -> (r: Vec3)
        ensures
            r == vec3_min(*self, *other),
    {
        Vec3 { x: min_i64(self.x, other.x), y: min_i64(self.y, other.y), z: min_i64(
            self.z,
            other.z,
        ) }
    }

    /// Componentwise maximum with another point.
    pub fn max(&self, other: &Vec3) -> (r: Vec3)
        ensures
            r == vec3_max(*self, *other),
    {
        Vec3 { x: max_i64(self.x, other.x), y: max_i64(self.y, other.y), z: max_i64(
            self.z,
            other.z,
        ) }
    }

    /// The coordinate on the given axis (0 = x, 1 = y, 2 = z).
    pub fn axis(&self, axis: usize) -> (r: i64)
        requires
            axis < 3,
        ensures
            r as int == vec3_axis(*self, axis as int),
    {
        if axis == 0 {
            self.x
        } else if axis == 1 {
            self.y
        } else {
            self.z
        }
    }
}

/// The coordinate of a point on the given axis.
pub open spec fn vec3_axis(v: Vec3, axis: int) -> int {
    if axis == 0 {
        v.x as int
    } else if axis == 1 {
        v.y as int
    } else {
        v.z as int
    }
}

/// The cross product of two displacement vectors between valid points.
pub open spec fn cross_of(a: Vec3, b: Vec3) -> Dir3 {
    Dir3 {
        x: (a.y * b.z - a.z * b.y) as i128,
        y: (a.z * b.x - a.x * b.z) as i128,
        z: (a.x * b.y - a.y * b.x) as i128,
    }
}

} // verus!
