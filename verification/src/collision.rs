//! Level collision: proximity and sweep queries over the triangles of the
//! currently resident chunks.
//!
//! Queries see only the triangle list the caller hands in (gathered from
//! resident chunks), so geometry in not-yet-loaded cells is simply absent: a
//! query near an unloaded boundary may report no hit, which callers treat as
//! a soft consistency gap, never an error.
//!
//! Proximity uses the squared distance to a triangle's nearest corner as its
//! measure: on the fixed-point vertex model this needs no division and is
//! exact.  The sweep test uses the exact point-to-segment distance
//! comparison, cross-multiplied to stay in integers.

use vstd::prelude::*;
use crate::geom::COORD_LIMIT;
use crate::geom::Triangle;
use crate::geom::Vec3;

verus! {

/// Squared euclidean distance between two points.
pub open spec fn dist2(p: Vec3, q: Vec3) -> int {
    (p.x - q.x) * (p.x - q.x) + (p.y - q.y) * (p.y - q.y) + (p.z - q.z) * (p.z - q.z)
}

/// The proximity measure of a triangle: squared distance from `p` to the
/// triangle's nearest corner.
pub open spec fn tri_dist2(p: Vec3, t: Triangle) -> int {
    vstd::math::min(vstd::math::min(dist2(p, t.a), dist2(p, t.b)), dist2(p, t.c))
}

/// A proximity hit: which triangle, and the squared distance measure.
#[derive(Clone, Copy, Debug, PartialEq, Eq)]
pub struct Hit {
    /// Index of the hit triangle in the queried list.
    pub index: usize,
    /// Squared distance from the query point to the triangle's nearest
    /// corner.
    pub distance2: i128,
}

/// Products of values bounded by `m` are bounded by `m * m`.
proof fn lemma_mul_bound(x: int, y: int, m: int)
    requires
        -m <= x <= m,
        -m <= y <= m,
        0 <= m,
    ensures
        -(m * m) <= x * y <= m * m,
{
    assert(-(m * m) <= x * y <= m * m) by (nonlinear_arith)
        requires
            -m <= x <= m,
            -m <= y <= m,
            0 <= m,
    ;
}

/// Squared distance between two bounded points, computed exactly.
fn dist2_exec(p: &Vec3, q: &Vec3) -> (r: i128)
    requires
        p.in_bounds(),
        q.in_bounds(),
    ensures
        r == dist2(*p, *q),
        0 <= r <= 12 * COORD_LIMIT * COORD_LIMIT,
{
    let dx: i128 = p.x as i128 - q.x as i128;
    let dy: i128 = p.y as i128 - q.y as i128;
    let dz: i128 = p.z as i128 - q.z as i128;
    proof {
        lemma_mul_bound(dx as int, dx as int, 2 * COORD_LIMIT);
        lemma_mul_bound(dy as int, dy as int, 2 * COORD_LIMIT);
        lemma_mul_bound(dz as int, dz as int, 2 * COORD_LIMIT);
        assert(dx * dx >= 0 && dy * dy >= 0 && dz * dz >= 0) by (nonlinear_arith);
    }
    dx * dx + dy * dy + dz * dz
}

/// The nearest triangle to `p` within `max_distance`, by the corner-distance
/// measure: the hit minimizes the measure over the whole list and lies
/// within range; `None` exactly when every triangle is out of range.
pub fn nearest_surface(tris: &Vec<Triangle>, p: &Vec3, max_distance: i64) -> (r: Option<Hit>)
    requires
        p.in_bounds(),
        forall|j: int| 0 <= j < tris@.len() ==> (#[trigger] tris@[j]).in_bounds(),
        0 <= max_distance,
    ensures
        r matches Some(h) ==> h.index < tris@.len() && h.distance2 == tri_dist2(
            *p,
            tris@[h.index as int],
        ) && h.distance2 <= max_distance * max_distance && forall|j: int|
            0 <= j < tris@.len() ==> tri_dist2(*p, #[trigger] tris@[j]) >= h.distance2,
        r is None ==> forall|j: int|
            0 <= j < tris@.len() ==> tri_dist2(*p, #[trigger] tris@[j]) > max_distance
                * max_distance,
{
    proof {
        lemma_mul_bound(max_distance as int, max_distance as int, i64::MAX as int);
    }
    let limit2: i128 = (max_distance as i128) * (max_distance as i128);
    let n: usize = tris.len();
    let mut best: Option<Hit> = None;
    let mut i: usize = 0;
    while i < n
        invariant
            i <= n,
            n == tris@.len(),
            p.in_bounds(),
            forall|j: int| 0 <= j < tris@.len() ==> (#[trigger] tris@[j]).in_bounds(),
            limit2 == max_distance * max_distance,
            best matches Some(h) ==> h.index < i && h.distance2 == tri_dist2(
                *p,
                tris@[h.index as int],
            ) && h.distance2 <= limit2 && forall|j: int|
                0 <= j < i ==> tri_dist2(*p, #[trigger] tris@[j]) >= h.distance2,
            best is None ==> forall|j: int|
                0 <= j < i ==> tri_dist2(*p, #[trigger] tris@[j]) > limit2,
        decreases n - i,
    {
        let t = &tris[i];
        let da: i128 = dist2_exec(p, &t.a);
        let db: i128 = dist2_exec(p, &t.b);
        let dc: i128 = dist2_exec(p, &t.c);
        let mut d: i128 = da;
        if db < d {
            d = db;
        }
        if dc < d {
            d = dc;
        }
        proof {
            assert(d == tri_dist2(*p, tris@[i as int]));
        }
        if d <= limit2 {
            let better: bool = match &best {
                Option::Some(h) => d < h.distance2,
                Option::None => true,
            };
            if better {
                best = Some(Hit { index: i, distance2: d });
            }
        }
        i = i + 1;
    }
    best
}

/// Exact test: the distance from `p` to segment `a..b` is at most `radius`.
/// The interior case compares `|ap|^2 * |ab|^2 - (ap . ab)^2` with
/// `radius^2 * |ab|^2`, which is the squared point-line distance scaled by
/// `|ab|^2`: no division is needed.
pub open spec fn seg_within(p: Vec3, a: Vec3, b: Vec3, radius: int) -> bool {
    let t = (p.x - a.x) * (b.x - a.x) + (p.y - a.y) * (b.y - a.y) + (p.z - a.z) * (b.z - a.z);
    let len2 = dist2(a, b);
    if t <= 0 {
        dist2(p, a) <= radius * radius
    } else if t >= len2 {
        dist2(p, b) <= radius * radius
    } else {
        dist2(p, a) * len2 - t * t <= radius * radius * len2
    }
}

/// The capsule swept along `a..b` with the given radius touches a corner of
/// the triangle.
pub open spec fn tri_hit_by_sweep(t: Triangle, a: Vec3, b: Vec3, radius: int) -> bool {
    seg_within(t.a, a, b, radius) || seg_within(t.b, a, b, radius) || seg_within(t.c, a, b, radius)
}

/// Exact test of `seg_within` on machine integers.
fn seg_within_exec(p: &Vec3, a: &Vec3, b: &Vec3, radius: i64) -> (r: bool)
    requires
        p.in_bounds(),
        a.in_bounds(),
        b.in_bounds(),
        0 <= radius <= 2 * COORD_LIMIT,
    ensures
        r == seg_within(*p, *a, *b, radius as int),
{
    let apx: i128 = p.x as i128 - a.x as i128;
    let apy: i128 = p.y as i128 - a.y as i128;
    let apz: i128 = p.z as i128 - a.z as i128;
    let abx: i128 = b.x as i128 - a.x as i128;
    let aby: i128 = b.y as i128 - a.y as i128;
    let abz: i128 = b.z as i128 - a.z as i128;
    proof {
        lemma_mul_bound(apx as int, abx as int, 0x4000_0000);
        lemma_mul_bound(apy as int, aby as int, 0x4000_0000);
        lemma_mul_bound(apz as int, abz as int, 0x4000_0000);
    }
    let t: i128 = apx * abx + apy * aby + apz * abz;
    let len2: i128 = dist2_exec(a, b);
    proof {
        lemma_mul_bound(radius as int, radius as int, 0x4000_0000);
    }
    let r2: i128 = (radius as i128) * (radius as i128);
    if t <= 0 {
        dist2_exec(p, a) <= r2
    } else if t >= len2 {
        dist2_exec(p, b) <= r2
    } else {
        let pa2: i128 = dist2_exec(p, a);
        proof {
            assert(12 * COORD_LIMIT * COORD_LIMIT < 0x4000_0000_0000_0000) by (nonlinear_arith);
            lemma_mul_bound(pa2 as int, len2 as int, 0x4000_0000_0000_0000);
            lemma_mul_bound(t as int, t as int, 0x4000_0000_0000_0000);
            lemma_mul_bound(r2 as int, len2 as int, 0x4000_0000_0000_0000);
        }
        pa2 * len2 - t * t <= r2 * len2
    }
}

/// Sweeps a capsule of the given radius along the segment `a..b` and
/// returns the first triangle it touches (by corner), in list order, or
/// `None` exactly when it touches none.  Used for movement resolution
/// against resident geometry.
pub fn sweep(tris: &Vec<Triangle>, a: &Vec3, b: &Vec3, radius: i64) -> (r: Option<usize>)
    requires
        a.in_bounds(),
        b.in_bounds(),
        forall|j: int| 0 <= j < tris@.len() ==> (#[trigger] tris@[j]).in_bounds(),
        0 <= radius <= 2 * COORD_LIMIT,
    ensures
        r matches Some(i) ==> i < tris@.len() && tri_hit_by_sweep(
            tris@[i as int],
            *a,
            *b,
            radius as int,
        ) && forall|j: int|
            0 <= j < i ==> !tri_hit_by_sweep(#[trigger] tris@[j], *a, *b, radius as int),
        r is None ==> forall|j: int|
            0 <= j < tris@.len() ==> !tri_hit_by_sweep(#[trigger] tris@[j], *a, *b, radius as int),
{
    let n: usize = tris.len();
    let mut i: usize = 0;
    while i < n
        invariant
            i <= n,
            n == tris@.len(),
            a.in_bounds(),
            b.in_bounds(),
            forall|j: int| 0 <= j < tris@.len() ==> (#[trigger] tris@[j]).in_bounds(),
            0 <= radius <= 2 * COORD_LIMIT,
            forall|j: int|
                0 <= j < i ==> !tri_hit_by_sweep(#[trigger] tris@[j], *a, *b, radius as int),
        decreases n - i,
    {
        let t = &tris[i];
        if seg_within_exec(&t.a, a, b, radius) || seg_within_exec(&t.b, a, b, radius)
            || seg_within_exec(&t.c, a, b, radius) {
            return Some(i);
        }
        i = i + 1;
    }
    None
}

} // verus!
