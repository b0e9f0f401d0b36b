//! Fixed-point world-space geometry: vectors, triangles and bounding boxes.

use vstd::prelude::*;

verus! {

/// Largest magnitude a world-space coordinate may take, in whole world units.
/// Keeping coordinates within this bound lets every derived quantity
/// (sums of three coordinates, squared distances and their products)
/// fit comfortably in `i64` and `i128` arithmetic.
pub const COORD_LIMIT: i64 = 0x2000_0000;

/// A point or translation in world space, in whole world units.
#[derive(Clone, Copy, Debug, PartialEq, Eq, Structural)]
pub struct Vec3 {
    pub x: i64,
    pub y: i64,
    pub z: i64,
}

impl Vec3 {
    /// Every coordinate lies within the world bound.
    pub open spec fn in_bounds(self) -> bool {
        &&& -COORD_LIMIT <= self.x <= COORD_LIMIT
        &&& -COORD_LIMIT <= self.y <= COORD_LIMIT
        &&& -COORD_LIMIT <= self.z <= COORD_LIMIT
    }

}

/// A world-space triangle.
#[derive(Clone, Copy, Debug, PartialEq, Eq, Structural)]
pub struct Triangle {
    pub a: Vec3,
    pub b: Vec3,
    pub c: Vec3,
}

impl Triangle {
    /// All three corners lie within the world bound.
    pub open spec fn in_bounds(self) -> bool {
        self.a.in_bounds() && self.b.in_bounds() && self.c.in_bounds()
    }
}

/// An axis-aligned bounding box.
#[derive(Clone, Copy, Debug, PartialEq, Eq, Structural)]
pub struct Aabb {
    pub min: Vec3,
    pub max: Vec3,
}

impl Aabb {
    /// The minimum corner is below the maximum corner on every axis.
    pub open spec fn wf(self) -> bool {
        self.min.x <= self.max.x && self.min.y <= self.max.y && self.min.z <= self.max.z
    }

    /// The point lies inside the box (boundary included).
    pub open spec fn contains(self, p: Vec3) -> bool {
        &&& self.min.x <= p.x <= self.max.x
        &&& self.min.y <= p.y <= self.max.y
        &&& self.min.z <= p.z <= self.max.z
    }
}

/// The smaller of two machine integers.
pub fn min_i64(a: i64, b: i64) -> (r: i64)
    ensures
        r == vstd::math::min(a as int, b as int),
{
    if a <= b {
        a
    } else {
        b
    }
}

/// The larger of two machine integers.
pub fn max_i64(a: i64, b: i64) -> (r: i64)
    ensures
        r == vstd::math::max(a as int, b as int),
{
    if a >= b {
        a
    } else {
        b
    }
}

/// The axis-aligned bounding box of a triangle's three corners.
pub open spec fn spec_triangle_aabb(t: Triangle) -> Aabb {
    Aabb {
        min: Vec3 {
            x: vstd::math::min(vstd::math::min(t.a.x as int, t.b.x as int), t.c.x as int) as i64,
            y: vstd::math::min(vstd::math::min(t.a.y as int, t.b.y as int), t.c.y as int) as i64,
            z: vstd::math::min(vstd::math::min(t.a.z as int, t.b.z as int), t.c.z as int) as i64,
        },
        max: Vec3 {
            x: vstd::math::max(vstd::math::max(t.a.x as int, t.b.x as int), t.c.x as int) as i64,
            y: vstd::math::max(vstd::math::max(t.a.y as int, t.b.y as int), t.c.y as int) as i64,
            z: vstd::math::max(vstd::math::max(t.a.z as int, t.b.z as int), t.c.z as int) as i64,
        },
    }
}

/// Computes the tight axis-aligned bounding box of a triangle.
pub fn triangle_aabb(t: &Triangle) -> (bb: Aabb)
    ensures
        bb == spec_triangle_aabb(*t),
        bb.wf(),
        bb.contains(t.a) && bb.contains(t.b) && bb.contains(t.c),
        t.in_bounds() ==> bb.min.in_bounds() && bb.max.in_bounds(),
{
    Aabb {
        min: Vec3 {
            x: min_i64(min_i64(t.a.x, t.b.x), t.c.x),
            y: min_i64(min_i64(t.a.y, t.b.y), t.c.y),
            z: min_i64(min_i64(t.a.z, t.b.z), t.c.z),
        },
        max: Vec3 {
            x: max_i64(max_i64(t.a.x, t.b.x), t.c.x),
            y: max_i64(max_i64(t.a.y, t.b.y), t.c.y),
            z: max_i64(max_i64(t.a.z, t.b.z), t.c.z),
        },
    }
}

} // verus!
