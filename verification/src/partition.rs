//! The spatial partitioner: assigns every world-space triangle to one or
//! more grid cells, without ever losing a triangle.

use vstd::prelude::*;
use vstd::arithmetic::div_mod::lemma_div_is_ordered;
use vstd::arithmetic::div_mod::lemma_div_multiples_vanish;
use crate::geom::COORD_LIMIT;
use crate::geom::Triangle;
use crate::geom::Vec3;
use crate::geom::spec_triangle_aabb;
use crate::geom::triangle_aabb;
use crate::grid::CellCoordinate;
use crate::grid::cell_index;
use crate::grid::floor_div;
use crate::grid::resolve;

verus! {

/// How a triangle that straddles a cell boundary is assigned.  Both policies
/// satisfy the same coverage contract: every triangle lands in at least one
/// cell.
#[derive(Clone, Copy, Debug, PartialEq, Eq, Structural)]
pub enum PartitionPolicy {
    /// Assign the whole triangle to the single cell containing its centroid.
    /// Cheap; chunk bounding boxes are expanded by a margin to cover the
    /// overhang.
    CentroidOwner,
    /// Replicate the triangle into every cell its axis-aligned bounding box
    /// spans.  Exact coverage at seams, at the cost of duplication.
    BoundsOverlap,
}

/// Whether the policy assigns triangle `t` to cell `c`.
pub open spec fn assigned(t: Triangle, cell_size: int, policy: PartitionPolicy, c: CellCoordinate) -> bool {
    match policy {
        PartitionPolicy::CentroidOwner => {
            &&& c.x as int == cell_index((t.a.x + t.b.x + t.c.x) / 3, cell_size)
            &&& c.y as int == cell_index((t.a.y + t.b.y + t.c.y) / 3, cell_size)
            &&& c.z as int == cell_index((t.a.z + t.b.z + t.c.z) / 3, cell_size)
        },
        PartitionPolicy::BoundsOverlap => {
            let bb = spec_triangle_aabb(t);
            &&& cell_index(bb.min.x as int, cell_size) <= c.x as int <= cell_index(
                bb.max.x as int,
                cell_size,
            )
            &&& cell_index(bb.min.y as int, cell_size) <= c.y as int <= cell_index(
                bb.max.y as int,
                cell_size,
            )
            &&& cell_index(bb.min.z as int, cell_size) <= c.z as int <= cell_index(
                bb.max.z as int,
                cell_size,
            )
        },
    }
}

/// The triangles of `tris` that the policy assigns to cell `c`, in input
/// order.
pub open spec fn bucket_list(
    tris: Seq<Triangle>,
    cell_size: int,
    policy: PartitionPolicy,
    c: CellCoordinate,
) -> Seq<Triangle> {
    tris.filter(|t: Triangle| assigned(t, cell_size, policy, c))
}

/// Some triangle of `tris` is assigned to cell `c`.
pub open spec fn cell_is_occupied(
    tris: Seq<Triangle>,
    cell_size: int,
    policy: PartitionPolicy,
    c: CellCoordinate,
) -> bool {
    exists|ti: int| 0 <= ti < tris.len() && assigned(tris[ti], cell_size, policy, c)
}

/// One output cell and its assigned triangles.
pub struct CellBucket {
    /// The cell these triangles belong to.
    pub coord: CellCoordinate,
    /// The triangles assigned to the cell, in input order.
    pub triangles: Vec<Triangle>,
}

/// `buckets` has a bucket for cell `c`.
pub open spec fn has_bucket(buckets: Seq<CellBucket>, c: CellCoordinate) -> bool {
    exists|bi: int| 0 <= bi < buckets.len() && buckets[bi].coord == c
}

/// What the partitioner guarantees: one bucket per occupied cell, no empty
/// buckets, and each bucket holds exactly the input triangles its policy
/// assigns to its cell, in input order.
pub open spec fn is_partition_of(
    buckets: Seq<CellBucket>,
    tris: Seq<Triangle>,
    cell_size: int,
    policy: PartitionPolicy,
) -> bool {
    &&& forall|i: int, j: int|
        0 <= i < j < buckets.len() ==> buckets[i].coord != buckets[j].coord
    &&& forall|bi: int|
        0 <= bi < buckets.len() ==> (#[trigger] buckets[bi].triangles@) == bucket_list(
            tris,
            cell_size,
            policy,
            buckets[bi].coord,
        )
    &&& forall|bi: int| 0 <= bi < buckets.len() ==> buckets[bi].triangles@.len() > 0
    &&& forall|c: CellCoordinate|
        cell_is_occupied(tris, cell_size, policy, c) ==> has_bucket(buckets, c)
}

/// Extending the input by one triangle extends exactly the buckets of the
/// cells that triangle is assigned to.
proof fn lemma_bucket_list_step(
    tris: Seq<Triangle>,
    i: int,
    cell_size: int,
    policy: PartitionPolicy,
    c: CellCoordinate,
)
    requires
        0 <= i < tris.len(),
    ensures
        bucket_list(tris.take(i + 1), cell_size, policy, c) == if assigned(
            tris[i],
            cell_size,
            policy,
            c,
        ) {
            bucket_list(tris.take(i), cell_size, policy, c) + seq![tris[i]]
        } else {
            bucket_list(tris.take(i), cell_size, policy, c)
        },
{
    let pred = |t: Triangle| assigned(t, cell_size, policy, c);
    let s = tris.take(i);
    let one = seq![tris[i]];
    assert(tris.take(i + 1) =~= s + one);
    Seq::filter_distributes_over_add(s, one, pred);
    reveal_with_fuel(Seq::filter, 2);
    assert(one.drop_last() =~= Seq::<Triangle>::empty());
    assert(one.last() == tris[i]);
    if pred(tris[i]) {
        assert(one.filter(pred) =~= seq![tris[i]]);
        assert(bucket_list(tris.take(i), cell_size, policy, c).push(tris[i]) =~= bucket_list(
            tris.take(i),
            cell_size,
            policy,
            c,
        ) + seq![tris[i]]);
    } else {
        assert(one.filter(pred) =~= Seq::<Triangle>::empty());
        assert(bucket_list(tris.take(i), cell_size, policy, c) + one.filter(pred) =~= bucket_list(
            tris.take(i),
            cell_size,
            policy,
            c,
        ));
    }
}

/// Every element of a filtered sequence comes from the original sequence.
proof fn lemma_filter_members(s: Seq<Triangle>, pred: spec_fn(Triangle) -> bool, k: int)
    requires
        0 <= k < s.filter(pred).len(),
    ensures
        s.contains(s.filter(pred)[k]),
    decreases s.len(),
{
    reveal(Seq::filter);
    if s.len() > 0 {
        let sub = s.drop_last().filter(pred);
        if k < sub.len() {
            lemma_filter_members(s.drop_last(), pred, k);
            let x = sub[k];
            let j = choose|j: int| 0 <= j < s.drop_last().len() && s.drop_last()[j] == x;
            assert(s[j] == x);
        } else {
            assert(s.filter(pred)[k] == s.last());
            assert(s[s.len() - 1] == s.last());
        }
    }
}

/// A cell with no triangle assigned has an empty bucket list.
proof fn lemma_bucket_list_empty(
    tris: Seq<Triangle>,
    cell_size: int,
    policy: PartitionPolicy,
    c: CellCoordinate,
)
    requires
        !cell_is_occupied(tris, cell_size, policy, c),
    ensures
        bucket_list(tris, cell_size, policy, c) == Seq::<Triangle>::empty(),
{
    let pred = |t: Triangle| assigned(t, cell_size, policy, c);
    let out = tris.filter(pred);
    if out.len() > 0 {
        tris.filter_lemma(pred);
        lemma_filter_members(tris, pred, 0);
        let j = choose|j: int| 0 <= j < tris.len() && tris[j] == out[0];
        assert(assigned(tris[j], cell_size, policy, c));
        assert(false);
    }
    assert(out =~= Seq::<Triangle>::empty());
}

/// The cells the policy assigns one triangle to.  The result lists each such
/// cell exactly once, and is never empty: every triangle is covered.
pub fn assigned_cells(t: &Triangle, cell_size: i64, policy: PartitionPolicy) -> (cells: Vec<
    CellCoordinate,
>)
    requires
        0 < cell_size,
        t.in_bounds(),
    ensures
        forall|c: CellCoordinate| #[trigger]
            cells@.contains(c) <==> assigned(*t, cell_size as int, policy, c),
        forall|i: int, j: int| 0 <= i < j < cells@.len() ==> cells@[i] != cells@[j],
        cells@.len() > 0,
{
    match policy {
        PartitionPolicy::CentroidOwner => {
            let sx: i64 = t.a.x + t.b.x + t.c.x;
            let sy: i64 = t.a.y + t.b.y + t.c.y;
            let sz: i64 = t.a.z + t.b.z + t.c.z;
            let px: i64 = floor_div(sx, 3);
            let py: i64 = floor_div(sy, 3);
            let pz: i64 = floor_div(sz, 3);
            proof {
                lemma_div_is_ordered(-3 * COORD_LIMIT, sx as int, 3);
                lemma_div_is_ordered(sx as int, 3 * COORD_LIMIT, 3);
                lemma_div_is_ordered(-3 * COORD_LIMIT, sy as int, 3);
                lemma_div_is_ordered(sy as int, 3 * COORD_LIMIT, 3);
                lemma_div_is_ordered(-3 * COORD_LIMIT, sz as int, 3);
                lemma_div_is_ordered(sz as int, 3 * COORD_LIMIT, 3);
                lemma_div_multiples_vanish(-COORD_LIMIT as int, 3);
                lemma_div_multiples_vanish(COORD_LIMIT as int, 3);
                assert((-3 * COORD_LIMIT) as int == 3 * (-COORD_LIMIT as int));
            }
            let centroid = Vec3 { x: px, y: py, z: pz };
            let c = resolve(&centroid, cell_size);
            let mut cells: Vec<CellCoordinate> = Vec::new();
            cells.push(c);
            proof {
                assert forall|cc: CellCoordinate| #[trigger]
                    cells@.contains(cc) <==> assigned(*t, cell_size as int, policy, cc) by {
                    assert(cells@[0] == c);
                }
            }
            cells
        },
        PartitionPolicy::BoundsOverlap => {
            let bb = triangle_aabb(t);
            let lo = resolve(&bb.min, cell_size);
            let hi = resolve(&bb.max, cell_size);
            proof {
                lemma_div_is_ordered(bb.min.x as int, bb.max.x as int, cell_size as int);
                lemma_div_is_ordered(bb.min.y as int, bb.max.y as int, cell_size as int);
                lemma_div_is_ordered(bb.min.z as int, bb.max.z as int, cell_size as int);
            }
            let lox: i64 = lo.x as i64;
            let loy: i64 = lo.y as i64;
            let loz: i64 = lo.z as i64;
            let hix: i64 = hi.x as i64;
            let hiy: i64 = hi.y as i64;
            let hiz: i64 = hi.z as i64;
            let mut cells: Vec<CellCoordinate> = Vec::new();
            let mut x: i64 = lox;
            while x <= hix
                invariant
                    lox <= x <= hix + 1,
                    -COORD_LIMIT <= lox <= hix <= COORD_LIMIT,
                    -COORD_LIMIT <= loy <= hiy <= COORD_LIMIT,
                    -COORD_LIMIT <= loz <= hiz <= COORD_LIMIT,
                    forall|c: CellCoordinate| #[trigger]
                        cells@.contains(c) <==> (lox <= c.x < x && loy <= c.y <= hiy && loz <= c.z
                            <= hiz),
                    forall|i: int, j: int| 0 <= i < j < cells@.len() ==> cells@[i] != cells@[j],
                decreases hix + 1 - x,
            {
                let mut y: i64 = loy;
                while y <= hiy
                    invariant
                        lox <= x <= hix,
                        loy <= y <= hiy + 1,
                        -COORD_LIMIT <= lox <= hix <= COORD_LIMIT,
                        -COORD_LIMIT <= loy <= hiy <= COORD_LIMIT,
                        -COORD_LIMIT <= loz <= hiz <= COORD_LIMIT,
                        forall|c: CellCoordinate| #[trigger]
                            cells@.contains(c) <==> ((lox <= c.x < x && loy <= c.y <= hiy && loz
                                <= c.z <= hiz) || (c.x == x && loy <= c.y < y && loz <= c.z
                                <= hiz)),
                        forall|i: int, j: int| 0 <= i < j < cells@.len() ==> cells@[i] != cells@[j],
                    decreases hiy + 1 - y,
                {
                    let mut z: i64 = loz;
                    while z <= hiz
                        invariant
                            lox <= x <= hix,
                            loy <= y <= hiy,
                            loz <= z <= hiz + 1,
                            -COORD_LIMIT <= lox <= hix <= COORD_LIMIT,
                            -COORD_LIMIT <= loy <= hiy <= COORD_LIMIT,
                            -COORD_LIMIT <= loz <= hiz <= COORD_LIMIT,
                            forall|c: CellCoordinate| #[trigger]
                                cells@.contains(c) <==> ((lox <= c.x < x && loy <= c.y <= hiy
                                    && loz <= c.z <= hiz) || (c.x == x && loy <= c.y < y && loz
                                    <= c.z <= hiz) || (c.x == x && c.y == y && loz <= c.z < z)),
                            forall|i: int, j: int|
                                0 <= i < j < cells@.len() ==> cells@[i] != cells@[j],
                        decreases hiz + 1 - z,
                    {
                        let cell = CellCoordinate { x: x as i32, y: y as i32, z: z as i32 };
                        proof {
                            assert(!cells@.contains(cell));
                        }
                        let ghost pre = cells@;
                        cells.push(cell);
                        proof {
                            broadcast use vstd::seq_lib::lemma_seq_contains_after_push;

                            assert(cells@ == pre.push(cell));
                        }
                        z = z + 1;
                    }
                    y = y + 1;
                }
                x = x + 1;
            }
            proof {
                assert(cells@.contains(CellCoordinate { x: lox as i32, y: loy as i32, z: loz as i32 }));
            }
            cells
        },
    }
}

/// Adds one triangle to the bucket for cell `c`, creating the bucket if the
/// cell had none.  All other buckets are untouched.
fn insert_into_bucket(buckets: &mut Vec<CellBucket>, c: CellCoordinate, t: &Triangle)
    requires
        forall|i: int, j: int|
            0 <= i < j < old(buckets)@.len() ==> old(buckets)@[i].coord != old(buckets)@[j].coord,
    ensures
        ({
            let bs = old(buckets)@;
            let fs = final(buckets)@;
            if has_bucket(bs, c) {
                let bi = choose|bi: int| 0 <= bi < bs.len() && bs[bi].coord == c;
                &&& fs.len() == bs.len()
                &&& (forall|k: int| 0 <= k < bs.len() && k != bi ==> fs[k] == bs[k])
                &&& fs[bi].coord == c
                &&& fs[bi].triangles@ == bs[bi].triangles@ + seq![*t]
            } else {
                &&& fs.len() == bs.len() + 1
                &&& (forall|k: int| 0 <= k < bs.len() ==> fs[k] == bs[k])
                &&& fs[bs.len() as int].coord == c
                &&& fs[bs.len() as int].triangles@ == seq![*t]
            }
        }),
{
    let n: usize = buckets.len();
    let mut bi: usize = 0;
    while bi < n
        invariant
            bi <= n,
            n == buckets@.len(),
            buckets@ == old(buckets)@,
            forall|k: int| 0 <= k < bi ==> buckets@[k].coord != c,
            forall|i: int, j: int|
                0 <= i < j < buckets@.len() ==> buckets@[i].coord != buckets@[j].coord,
        decreases n - bi,
    {
        if buckets[bi].coord == c {
            let mut bucket = buckets.remove(bi);
            bucket.triangles.push(*t);
            proof {
                assert(bucket.triangles@ =~= old(buckets)@[bi as int].triangles@ + seq![*t]);
            }
            buckets.insert(bi, bucket);
            proof {
                let bs = old(buckets)@;
                let fs = buckets@;
                let w = choose|w: int| 0 <= w < bs.len() && bs[w].coord == c;
                assert(w == bi as int);
                assert forall|k: int| 0 <= k < bs.len() && k != bi as int implies fs[k] == bs[k] by {
                    if k < bi as int {
                    } else {
                        assert(fs[k] == bs.remove(bi as int)[k - 1]);
                    }
                }
            }
            return ;
        }
        bi = bi + 1;
    }
    let mut triangles: Vec<Triangle> = Vec::new();
    triangles.push(*t);
    buckets.push(CellBucket { coord: c, triangles });
    proof {
        assert(!has_bucket(old(buckets)@, c));
    }
}

/// Partitions a triangle list into per-cell buckets under the given policy.
/// Every input triangle appears in at least one bucket and every bucket
/// triangle comes from the input: no triangle is lost or invented.  Cells
/// with no assigned triangle get no bucket.
pub fn partition(tris: &Vec<Triangle>, cell_size: i64, policy: PartitionPolicy) -> (buckets: Vec<
    CellBucket,
>)
    requires
        0 < cell_size,
        forall|ti: int| 0 <= ti < tris@.len() ==> (#[trigger] tris@[ti]).in_bounds(),
    ensures
        is_partition_of(buckets@, tris@, cell_size as int, policy),
{
    let n: usize = tris.len();
    let mut buckets: Vec<CellBucket> = Vec::new();
    let mut i: usize = 0;
    proof {
        assert(tris@.take(0) =~= Seq::<Triangle>::empty());
        reveal(Seq::filter);
    }
    while i < n
        invariant
            i <= n,
            n == tris@.len(),
            0 < cell_size,
            forall|ti: int| 0 <= ti < tris@.len() ==> (#[trigger] tris@[ti]).in_bounds(),
            is_partition_of(buckets@, tris@.take(i as int), cell_size as int, policy),
        decreases n - i,
    {
        let t = tris[i];
        let cells = assigned_cells(&t, cell_size, policy);
        let m: usize = cells.len();
        let mut j: usize = 0;
        while j < m
            invariant
                j <= m,
                i < n,
                n == tris@.len(),
                t == tris@[i as int],
                m == cells@.len(),
                0 < cell_size,
                forall|c: CellCoordinate| #[trigger]
                    cells@.contains(c) <==> assigned(t, cell_size as int, policy, c),
                forall|p: int, q: int| 0 <= p < q < cells@.len() ==> cells@[p] != cells@[q],
                forall|p: int, q: int|
                    0 <= p < q < buckets@.len() ==> buckets@[p].coord != buckets@[q].coord,
                forall|bi: int|
                    0 <= bi < buckets@.len() ==> (#[trigger] buckets@[bi].triangles@) == (
                    if cells@.take(j as int).contains(buckets@[bi].coord) {
                        bucket_list(
                            tris@.take(i as int),
                            cell_size as int,
                            policy,
                            buckets@[bi].coord,
                        ) + seq![t]
                    } else {
                        bucket_list(
                            tris@.take(i as int),
                            cell_size as int,
                            policy,
                            buckets@[bi].coord,
                        )
                    }),
                forall|bi: int| 0 <= bi < buckets@.len() ==> buckets@[bi].triangles@.len() > 0,
                forall|c: CellCoordinate|
                    cell_is_occupied(tris@.take(i as int), cell_size as int, policy, c)
                        || cells@.take(j as int).contains(c) ==> has_bucket(buckets@, c),
            decreases m - j,
        {
            let c = cells[j];
            let ghost pre = buckets@;
            insert_into_bucket(&mut buckets, c, &t);
            proof {
                assert(cells@[j as int] == c);
                assert(cells@.take(j as int + 1) =~= cells@.take(j as int).push(c));
                broadcast use vstd::seq_lib::lemma_seq_contains_after_push;

                assert(!cells@.take(j as int).contains(c));
                if has_bucket(pre, c) {
                    let w = choose|w: int| 0 <= w < pre.len() && pre[w].coord == c;
                    assert(buckets@[w].triangles@ == pre[w].triangles@ + seq![t]);
                } else {
                    lemma_bucket_list_empty(
                        tris@.take(i as int),
                        cell_size as int,
                        policy,
                        c,
                    );
                    assert(buckets@[pre.len() as int].triangles@ =~= bucket_list(
                        tris@.take(i as int),
                        cell_size as int,
                        policy,
                        c,
                    ) + seq![t]);
                }
                assert forall|cc: CellCoordinate|
                    cell_is_occupied(tris@.take(i as int), cell_size as int, policy, cc)
                        || cells@.take(j as int + 1).contains(cc) implies has_bucket(
                    buckets@,
                    cc,
                ) by {
                    if cc == c {
                        if has_bucket(pre, c) {
                            let w = choose|w: int| 0 <= w < pre.len() && pre[w].coord == c;
                            assert(buckets@[w].coord == c);
                        } else {
                            assert(buckets@[pre.len() as int].coord == c);
                        }
                    } else {
                        assert(cell_is_occupied(tris@.take(i as int), cell_size as int, policy, cc)
                            || cells@.take(j as int).contains(cc));
                        assert(has_bucket(pre, cc));
                        let w = choose|w: int| 0 <= w < pre.len() && pre[w].coord == cc;
                        if has_bucket(pre, c) {
                            let wb = choose|wb: int| 0 <= wb < pre.len() && pre[wb].coord == c;
                            assert(w != wb);
                            assert(buckets@[w] == pre[w]);
                        } else {
                            assert(buckets@[w] == pre[w]);
                        }
                        assert(buckets@[w].coord == cc);
                    }
                }
            }
            j = j + 1;
        }
        proof {
            assert forall|bi: int| 0 <= bi < buckets@.len() implies (
            #[trigger] buckets@[bi].triangles@) == bucket_list(
                tris@.take(i as int + 1),
                cell_size as int,
                policy,
                buckets@[bi].coord,
            ) by {
                lemma_bucket_list_step(
                    tris@,
                    i as int,
                    cell_size as int,
                    policy,
                    buckets@[bi].coord,
                );
                assert(cells@.take(j as int) =~= cells@);
            }
            assert forall|c: CellCoordinate|
                cell_is_occupied(tris@.take(i as int + 1), cell_size as int, policy, c) implies has_bucket(
                buckets@,
                c,
            ) by {
                let s1 = tris@.take(i as int + 1);
                let ti = choose|ti: int|
                    0 <= ti < s1.len() && #[trigger] assigned(s1[ti], cell_size as int, policy, c);
                if ti < i as int {
                    assert(cell_is_occupied(tris@.take(i as int), cell_size as int, policy, c));
                } else {
                    assert(cells@.contains(c));
                    assert(cells@.take(j as int) =~= cells@);
                }
            }
        }
        i = i + 1;
    }
    proof {
        assert(tris@.take(n as int) =~= tris@);
    }
    buckets
}

/// Triangle `t` occurs somewhere in the output buckets.
pub open spec fn appears_in(buckets: Seq<CellBucket>, t: Triangle) -> bool {
    exists|bi: int, k: int|
        #![trigger buckets[bi].triangles@[k]]
        0 <= bi < buckets.len() && 0 <= k < buckets[bi].triangles@.len()
            && buckets[bi].triangles@[k] == t
}

/// Law: no triangle loss.  Under either policy, every input triangle appears
/// in some output bucket, and every bucket triangle is an input triangle, so
/// the union of the buckets' geometry equals the input geometry.
pub proof fn lemma_partition_coverage(
    buckets: Seq<CellBucket>,
    tris: Seq<Triangle>,
    cell_size: int,
    policy: PartitionPolicy,
)
    requires
        0 < cell_size,
        forall|ti: int| 0 <= ti < tris.len() ==> (#[trigger] tris[ti]).in_bounds(),
        is_partition_of(buckets, tris, cell_size, policy),
    ensures
        forall|ti: int| 0 <= ti < tris.len() ==> appears_in(buckets, #[trigger] tris[ti]),
        forall|bi: int, k: int|
            0 <= bi < buckets.len() && 0 <= k < buckets[bi].triangles@.len() ==> tris.contains(
                #[trigger] buckets[bi].triangles@[k],
            ),
{
    assert forall|ti: int| 0 <= ti < tris.len() implies appears_in(buckets, #[trigger] tris[ti]) by {
        let t = tris[ti];
        lemma_assigned_cell_exists(t, cell_size, policy);
        let c = choose|c: CellCoordinate| assigned(t, cell_size, policy, c);
        assert(assigned(tris[ti], cell_size, policy, c));
        assert(cell_is_occupied(tris, cell_size, policy, c));
        assert(has_bucket(buckets, c));
        let bi = choose|bi: int| 0 <= bi < buckets.len() && buckets[bi].coord == c;
        assert(0 <= bi < buckets.len() && buckets[bi].coord == c);
        let pred = |t: Triangle| assigned(t, cell_size, policy, c);
        assert(buckets[bi].triangles@ == bucket_list(tris, cell_size, policy, c));
        assert(bucket_list(tris, cell_size, policy, c) == tris.filter(pred));
        assert(buckets[bi].triangles@ == tris.filter(pred));
        tris.filter_lemma(pred);
        assert(pred(tris[ti]));
        assert(tris.filter(pred).contains(t));
        let k = choose|k: int|
            0 <= k < tris.filter(pred).len() && #[trigger] tris.filter(pred)[k] == t;
        assert(0 <= bi < buckets.len() && 0 <= k < buckets[bi].triangles@.len()
            && buckets[bi].triangles@[k] == tris[ti]);
        assert(appears_in(buckets, tris[ti]));
    }
    assert forall|bi: int, k: int|
        0 <= bi < buckets.len() && 0 <= k < buckets[bi].triangles@.len() implies tris.contains(
        #[trigger] buckets[bi].triangles@[k],
    ) by {
        let c = buckets[bi].coord;
        let pred = |t: Triangle| assigned(t, cell_size, policy, c);
        assert(buckets[bi].triangles@ == tris.filter(pred));
        lemma_filter_members(tris, pred, k);
    }
}

/// Every triangle is assigned to at least one cell under either policy.
pub proof fn lemma_assigned_cell_exists(t: Triangle, cell_size: int, policy: PartitionPolicy)
    requires
        0 < cell_size,
        t.in_bounds(),
    ensures
        exists|c: CellCoordinate| assigned(t, cell_size, policy, c),
{
    match policy {
        PartitionPolicy::CentroidOwner => {
            lemma_div_is_ordered(-3 * COORD_LIMIT, t.a.x + t.b.x + t.c.x, 3);
            lemma_div_is_ordered(t.a.x + t.b.x + t.c.x, 3 * COORD_LIMIT, 3);
            lemma_div_is_ordered(-3 * COORD_LIMIT, t.a.y + t.b.y + t.c.y, 3);
            lemma_div_is_ordered(t.a.y + t.b.y + t.c.y, 3 * COORD_LIMIT, 3);
            lemma_div_is_ordered(-3 * COORD_LIMIT, t.a.z + t.b.z + t.c.z, 3);
            lemma_div_is_ordered(t.a.z + t.b.z + t.c.z, 3 * COORD_LIMIT, 3);
            lemma_div_multiples_vanish(-COORD_LIMIT as int, 3);
            lemma_div_multiples_vanish(COORD_LIMIT as int, 3);
            assert((-3 * COORD_LIMIT) as int == 3 * (-COORD_LIMIT as int));
            let px = cell_index((t.a.x + t.b.x + t.c.x) / 3, cell_size);
            let py = cell_index((t.a.y + t.b.y + t.c.y) / 3, cell_size);
            let pz = cell_index((t.a.z + t.b.z + t.c.z) / 3, cell_size);
            crate::grid::lemma_floor_div_bounds(
                (t.a.x + t.b.x + t.c.x) / 3,
                cell_size,
            );
            crate::grid::lemma_floor_div_bounds(
                (t.a.y + t.b.y + t.c.y) / 3,
                cell_size,
            );
            crate::grid::lemma_floor_div_bounds(
                (t.a.z + t.b.z + t.c.z) / 3,
                cell_size,
            );
            let c = CellCoordinate { x: px as i32, y: py as i32, z: pz as i32 };
            assert(assigned(t, cell_size, policy, c));
        },
        PartitionPolicy::BoundsOverlap => {
            let bb = spec_triangle_aabb(t);
            crate::grid::lemma_floor_div_bounds(bb.min.x as int, cell_size);
            crate::grid::lemma_floor_div_bounds(bb.min.y as int, cell_size);
            crate::grid::lemma_floor_div_bounds(bb.min.z as int, cell_size);
            lemma_div_is_ordered(bb.min.x as int, bb.max.x as int, cell_size);
            lemma_div_is_ordered(bb.min.y as int, bb.max.y as int, cell_size);
            lemma_div_is_ordered(bb.min.z as int, bb.max.z as int, cell_size);
            let c = CellCoordinate {
                x: cell_index(bb.min.x as int, cell_size) as i32,
                y: cell_index(bb.min.y as int, cell_size) as i32,
                z: cell_index(bb.min.z as int, cell_size) as i32,
            };
            assert(assigned(t, cell_size, policy, c));
        },
    }
}

} // verus!
