//! Assembles one cell's triangle list into a chunk artifact value: draw
//! buffers, a margin-expanded bounding box and the collision list.

use vstd::prelude::*;
use crate::codec::Chunk;
use crate::codec::MATERIAL_REF_LEN;
use crate::codec::MODEL_ID_LEN;
use crate::geom::Aabb;
use crate::geom::COORD_LIMIT;
use crate::geom::Triangle;
use crate::geom::Vec3;
use crate::geom::max_i64;
use crate::geom::min_i64;
use crate::geom::triangle_aabb;
use crate::grid::CellCoordinate;

verus! {

/// Builds the chunk for one non-empty cell.  The vertex buffer lists each
/// triangle's corners in order, the index buffer is the identity over it,
/// the collision list is exactly the input, and the bounding box contains
/// every vertex with `margin` units of slack on each side (covering
/// centroid-assigned overhang).
pub fn build_chunk(
    model_id: &Vec<u8>,
    coord: CellCoordinate,
    tris: &Vec<Triangle>,
    material: &Vec<u8>,
    margin: i64,
) -> (c: Chunk)
    requires
        model_id@.len() == MODEL_ID_LEN,
        material@.len() == MATERIAL_REF_LEN,
        0 < tris@.len() < 0x4000_0000,
        forall|k: int| 0 <= k < tris@.len() ==> (#[trigger] tris@[k]).in_bounds(),
        0 <= margin <= COORD_LIMIT,
    ensures
        c.wf(),
        c.model_id@ == model_id@,
        c.coord == coord,
        c.material@ == material@,
        c.collision@ == tris@,
        c.vertices@.len() == 3 * tris@.len(),
        forall|k: int|
            0 <= k < tris@.len() ==> c.vertices@[3 * k] == (#[trigger] tris@[k]).a
                && c.vertices@[3 * k + 1] == tris@[k].b && c.vertices@[3 * k + 2] == tris@[k].c,
        c.indices@.len() == c.vertices@.len(),
        forall|k: int| 0 <= k < c.indices@.len() ==> c.indices@[k] == k,
        c.bounds.wf(),
        forall|k: int|
            0 <= k < c.vertices@.len() ==> c.bounds.contains(#[trigger] c.vertices@[k]),
{
    let n: usize = tris.len();
    let mut vertices: Vec<Vec3> = Vec::new();
    let mut indices: Vec<u32> = Vec::new();
    let first = triangle_aabb(&tris[0]);
    let mut lo: Vec3 = first.min;
    let mut hi: Vec3 = first.max;
    let mut k: usize = 0;
    while k < n
        invariant
            k <= n,
            n == tris@.len(),
            0 < n < 0x4000_0000,
            forall|j: int| 0 <= j < tris@.len() ==> (#[trigger] tris@[j]).in_bounds(),
            vertices@.len() == 3 * k,
            indices@.len() == 3 * k,
            forall|j: int|
                0 <= j < k ==> vertices@[3 * j] == (#[trigger] tris@[j]).a && vertices@[3 * j + 1]
                    == tris@[j].b && vertices@[3 * j + 2] == tris@[j].c,
            forall|j: int| 0 <= j < indices@.len() ==> indices@[j] == j,
            -COORD_LIMIT <= lo.x <= hi.x <= COORD_LIMIT,
            -COORD_LIMIT <= lo.y <= hi.y <= COORD_LIMIT,
            -COORD_LIMIT <= lo.z <= hi.z <= COORD_LIMIT,
            forall|j: int|
                0 <= j < vertices@.len() ==> lo.x <= (#[trigger] vertices@[j]).x <= hi.x && lo.y
                    <= vertices@[j].y <= hi.y && lo.z <= vertices@[j].z <= hi.z,
        decreases n - k,
    {
        let t = &tris[k];
        vertices.push(t.a);
        indices.push((3 * k) as u32);
        vertices.push(t.b);
        indices.push((3 * k + 1) as u32);
        vertices.push(t.c);
        indices.push((3 * k + 2) as u32);
        let bb = triangle_aabb(t);
        lo = Vec3 {
            x: min_i64(lo.x, bb.min.x),
            y: min_i64(lo.y, bb.min.y),
            z: min_i64(lo.z, bb.min.z),
        };
        hi = Vec3 {
            x: max_i64(hi.x, bb.max.x),
            y: max_i64(hi.y, bb.max.y),
            z: max_i64(hi.z, bb.max.z),
        };
        k = k + 1;
    }
    let bounds = Aabb {
        min: Vec3 { x: lo.x - margin, y: lo.y - margin, z: lo.z - margin },
        max: Vec3 { x: hi.x + margin, y: hi.y + margin, z: hi.z + margin },
    };
    let mut collision: Vec<Triangle> = Vec::new();
    let mut j: usize = 0;
    while j < n
        invariant
            j <= n,
            n == tris@.len(),
            collision@ == tris@.take(j as int),
        decreases n - j,
    {
        collision.push(tris[j]);
        proof {
            assert(collision@ =~= tris@.take(j as int + 1));
        }
        j = j + 1;
    }
    proof {
        assert(tris@.take(n as int) =~= tris@);
    }
    let mut model_id_copy: Vec<u8> = Vec::new();
    let mut material_copy: Vec<u8> = Vec::new();
    let mut b: usize = 0;
    while b < model_id.len()
        invariant
            b <= model_id@.len(),
            model_id_copy@ == model_id@.take(b as int),
        decreases model_id@.len() - b,
    {
        model_id_copy.push(model_id[b]);
        proof {
            assert(model_id_copy@ =~= model_id@.take(b as int + 1));
        }
        b = b + 1;
    }
    proof {
        assert(model_id@.take(model_id@.len() as int) =~= model_id@);
    }
    let mut b2: usize = 0;
    while b2 < material.len()
        invariant
            b2 <= material@.len(),
            material_copy@ == material@.take(b2 as int),
        decreases material@.len() - b2,
    {
        material_copy.push(material[b2]);
        proof {
            assert(material_copy@ =~= material@.take(b2 as int + 1));
        }
        b2 = b2 + 1;
    }
    proof {
        assert(material@.take(material@.len() as int) =~= material@);
    }
    Chunk {
        model_id: model_id_copy,
        coord,
        bounds,
        vertices,
        indices,
        material: material_copy,
        collision,
    }
}

} // verus!
