//! The partitioning grid: cell coordinates and the floor-division rule that
//! maps world-space points to cells.

use vstd::prelude::*;
use vstd::arithmetic::div_mod::lemma_fundamental_div_mod;
use vstd::arithmetic::div_mod::lemma_fundamental_div_mod_converse;
use vstd::arithmetic::div_mod::lemma_mod_bound;
use crate::geom::COORD_LIMIT;
use crate::geom::Vec3;

verus! {

/// Identifies one cubic region of world space of side `cell_size`.
/// Derived from a point by floor division of each coordinate, so two points
/// share a coordinate exactly when they lie in the same cell.
#[derive(Clone, Copy, Debug, PartialEq, Eq, Hash, Structural)]
pub struct CellCoordinate {
    pub x: i32,
    pub y: i32,
    pub z: i32,
}

impl CellCoordinate {
    /// Every component is a quotient of a bounded coordinate, so it stays
    /// within the world bound itself.
    pub open spec fn in_bounds(self) -> bool {
        &&& -COORD_LIMIT <= self.x as int <= COORD_LIMIT
        &&& -COORD_LIMIT <= self.y as int <= COORD_LIMIT
        &&& -COORD_LIMIT <= self.z as int <= COORD_LIMIT
    }
}

/// The index of the cell that a scalar coordinate falls in: the floor of
/// `v / cell_size`.  Division on `int` rounds toward negative infinity for a
/// positive divisor, so this is floor division, not truncation.
pub open spec fn cell_index(v: int, cell_size: int) -> int {
    v / cell_size
}

/// Bounds on a floor-division quotient: dividing by a positive divisor never
/// moves a value past zero or away from zero.
pub proof fn lemma_floor_div_bounds(a: int, b: int)
    requires
        1 <= b,
    ensures
        a >= 0 ==> 0 <= a / b <= a,
        a < 0 ==> a <= a / b <= 0,
{
    lemma_fundamental_div_mod(a, b);
    lemma_mod_bound(a, b);
    let q = a / b;
    let r = a % b;
    assert(a == b * q + r);
    if a >= 0 {
        assert(0 <= q <= a) by (nonlinear_arith)
            requires
                a == b * q + r,
                0 <= r < b,
                1 <= b,
                a >= 0,
        ;
    } else {
        assert(a <= q <= 0) by (nonlinear_arith)
            requires
                a == b * q + r,
                0 <= r < b,
                1 <= b,
                a < 0,
        ;
    }
}

/// Floor division of machine integers: rounds toward negative infinity,
/// matching `cell_index`, where Rust's `/` rounds toward zero.
pub fn floor_div(a: i64, b: i64) -> (q: i64)
    requires
        0 < b,
        i64::MIN < a,
    ensures
        q == a as int / b as int,
{
    proof {
        lemma_floor_div_bounds(a as int, b as int);
        lemma_fundamental_div_mod(a as int, b as int);
        lemma_mod_bound(a as int, b as int);
        if a < 0 {
            lemma_fundamental_div_mod(-(a as int), b as int);
            lemma_mod_bound(-(a as int), b as int);
            let k = (-(a as int)) / (b as int);
            let m = (-(a as int)) % (b as int);
            assert(0 <= k) by {
                lemma_floor_div_bounds(-(a as int), b as int);
            }
            if m == 0 {
                assert(a as int == (-k) * (b as int) + 0) by (nonlinear_arith)
                    requires
                        -(a as int) == (b as int) * k + m,
                        m == 0,
                ;
                lemma_fundamental_div_mod_converse(a as int, b as int, -k, 0);
            } else {
                assert(a as int == (-k - 1) * (b as int) + ((b as int) - m)) by (nonlinear_arith)
                    requires
                        -(a as int) == (b as int) * k + m,
                ;
                lemma_fundamental_div_mod_converse(a as int, b as int, -k - 1, (b as int) - m);
            }
        }
    }
    let t = a / b;
    let r = a % b;
    if r != 0 && a < 0 {
        t - 1
    } else {
        t
    }
}

/// Resolves a world-space point to the coordinate of the cell containing it,
/// by floor division of each coordinate.  The result is a pure function of
/// the point and the cell size: it has no hidden state, so two equal points
/// always resolve to the same cell.
pub fn resolve(p: &Vec3, cell_size: i64) -> (c: CellCoordinate)
    requires
        0 < cell_size,
        p.in_bounds(),
    ensures
        c.x as int == cell_index(p.x as int, cell_size as int),
        c.y as int == cell_index(p.y as int, cell_size as int),
        c.z as int == cell_index(p.z as int, cell_size as int),
        c.in_bounds(),
{
    proof {
        lemma_floor_div_bounds(p.x as int, cell_size as int);
        lemma_floor_div_bounds(p.y as int, cell_size as int);
        lemma_floor_div_bounds(p.z as int, cell_size as int);
    }
    let x = floor_div(p.x, cell_size);
    let y = floor_div(p.y, cell_size);
    let z = floor_div(p.z, cell_size);
    CellCoordinate { x: x as i32, y: y as i32, z: z as i32 }
}

/// Law: cell resolution commutes with translation by whole cells.  Shifting a
/// coordinate by `k * cell_size` along an axis shifts the resolved cell index
/// by exactly `k` along that axis.
pub proof fn lemma_resolve_translate(v: int, cell_size: int, k: int)
    requires
        0 < cell_size,
    ensures
        cell_index(v + k * cell_size, cell_size) == cell_index(v, cell_size) + k,
{
    lemma_fundamental_div_mod(v, cell_size);
    lemma_mod_bound(v, cell_size);
    let q = v / cell_size;
    let r = v % cell_size;
    assert(v + k * cell_size == (q + k) * cell_size + r) by (nonlinear_arith)
        requires
            v == cell_size * q + r,
    ;
    lemma_fundamental_div_mod_converse(v + k * cell_size, cell_size, q + k, r);
}

/// Law: two points resolve to the same cell exactly when each coordinate
/// falls in the same `cell_size`-wide band, i.e. the mapping is constant on a
/// cell and differs between cells.
pub proof fn lemma_same_cell_iff_same_band(u: int, v: int, cell_size: int)
    requires
        0 < cell_size,
    ensures
        cell_index(u, cell_size) == cell_index(v, cell_size) <==> exists|q: int|
            #![trigger (q * cell_size)]
            q * cell_size <= u < (q + 1) * cell_size && q * cell_size <= v < (q + 1)
                * cell_size,
{
    lemma_fundamental_div_mod(u, cell_size);
    lemma_mod_bound(u, cell_size);
    lemma_fundamental_div_mod(v, cell_size);
    lemma_mod_bound(v, cell_size);
    let qu = u / cell_size;
    let qv = v / cell_size;
    if qu == qv {
        assert(qu * cell_size <= u < (qu + 1) * cell_size) by (nonlinear_arith)
            requires
                u == cell_size * qu + (u % cell_size),
                0 <= u % cell_size < cell_size,
        ;
        assert(qu * cell_size <= v < (qu + 1) * cell_size) by (nonlinear_arith)
            requires
                v == cell_size * qv + (v % cell_size),
                0 <= v % cell_size < cell_size,
                qu == qv,
        ;
    }
    if exists|q: int|
        #![trigger (q * cell_size)]
        q * cell_size <= u < (q + 1) * cell_size && q * cell_size <= v < (q + 1) * cell_size {
        let q = choose|q: int|
            #![trigger (q * cell_size)]
            q * cell_size <= u < (q + 1) * cell_size && q * cell_size <= v < (q + 1) * cell_size;
        assert(u == q * cell_size + (u - q * cell_size));
        assert((q + 1) * cell_size == q * cell_size + cell_size) by (nonlinear_arith);
        lemma_fundamental_div_mod_converse(u, cell_size, q, u - q * cell_size);
        lemma_fundamental_div_mod_converse(v, cell_size, q, v - q * cell_size);
    }
}

/// All cells within `radius` cells of `center` along every axis: the
/// candidate set for one entity, per the caller-supplied spawn radius.
/// The result lists each such cell exactly once.
pub fn cells_in_radius(center: &CellCoordinate, radius: u32) -> (cells: Vec<CellCoordinate>)
    requires
        center.in_bounds(),
        radius <= 64,
    ensures
        forall|c: CellCoordinate| #[trigger]
            cells@.contains(c) <==> (center.x - radius <= c.x <= center.x + radius
                && center.y - radius <= c.y <= center.y + radius && center.z - radius <= c.z
                <= center.z + radius),
        forall|i: int, j: int| 0 <= i < j < cells@.len() ==> cells@[i] != cells@[j],
{
    let mut cells: Vec<CellCoordinate> = Vec::new();
    let cx: i64 = center.x as i64;
    let cy: i64 = center.y as i64;
    let cz: i64 = center.z as i64;
    let r: i64 = radius as i64;
    let mut x: i64 = cx - r;
    while x <= cx + r
        invariant
            cx - r <= x <= cx + r + 1,
            -COORD_LIMIT <= cx <= COORD_LIMIT,
            -COORD_LIMIT <= cy <= COORD_LIMIT,
            -COORD_LIMIT <= cz <= COORD_LIMIT,
            0 <= r <= 64,
            forall|c: CellCoordinate| #[trigger]
                cells@.contains(c) <==> (cx - r <= c.x < x && cy - r <= c.y <= cy + r && cz - r
                    <= c.z <= cz + r),
            forall|i: int, j: int| 0 <= i < j < cells@.len() ==> cells@[i] != cells@[j],
        decreases cx + r + 1 - x,
    {
        let mut y: i64 = cy - r;
        while y <= cy + r
            invariant
                cx - r <= x <= cx + r,
                cy - r <= y <= cy + r + 1,
                -COORD_LIMIT <= cx <= COORD_LIMIT,
                -COORD_LIMIT <= cy <= COORD_LIMIT,
                -COORD_LIMIT <= cz <= COORD_LIMIT,
                0 <= r <= 64,
                forall|c: CellCoordinate| #[trigger]
                    cells@.contains(c) <==> ((cx - r <= c.x < x && cy - r <= c.y <= cy + r && cz
                        - r <= c.z <= cz + r) || (c.x == x && cy - r <= c.y < y && cz - r <= c.z
                        <= cz + r)),
                forall|i: int, j: int| 0 <= i < j < cells@.len() ==> cells@[i] != cells@[j],
            decreases cy + r + 1 - y,
        {
            let mut z: i64 = cz - r;
            while z <= cz + r
                invariant
                    cx - r <= x <= cx + r,
                    cy - r <= y <= cy + r,
                    cz - r <= z <= cz + r + 1,
                    -COORD_LIMIT <= cx <= COORD_LIMIT,
                    -COORD_LIMIT <= cy <= COORD_LIMIT,
                    -COORD_LIMIT <= cz <= COORD_LIMIT,
                    0 <= r <= 64,
                    forall|c: CellCoordinate| #[trigger]
                        cells@.contains(c) <==> ((cx - r <= c.x < x && cy - r <= c.y <= cy + r
                            && cz - r <= c.z <= cz + r) || (c.x == x && cy - r <= c.y < y && cz - r
                            <= c.z <= cz + r) || (c.x == x && c.y == y && cz - r <= c.z < z)),
                    forall|i: int, j: int| 0 <= i < j < cells@.len() ==> cells@[i] != cells@[j],
                decreases cz + r + 1 - z,
            {
                let cell = CellCoordinate { x: x as i32, y: y as i32, z: z as i32 };
                proof {
                    assert(!cells@.contains(cell));
                }
                let ghost pre = cells@;
                cells.push(cell);
                proof {
                    broadcast use vstd::seq_lib::lemma_seq_contains_after_push;

                    assert(cells@ == pre.push(cell));
                }
                z = z + 1;
            }
            y = y + 1;
        }
        x = x + 1;
    }
    cells
}

} // verus!
