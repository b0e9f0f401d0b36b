use dreamfield::assemble::build_chunk;
use dreamfield::collision::{nearest_surface, sweep};
use dreamfield::geom::{Triangle, Vec3};
use dreamfield::grid::CellCoordinate;
use dreamfield::manager::{ChunkKey, ChunkManager};
use dreamfield::partition::{partition, PartitionPolicy};
use dreamfield::props::FireOrb;
use dreamfield::scene::{import_scene, ImportError, MeshData, Node, SceneDoc, TOPOLOGY_TRIANGLES};

fn v(x: i64, y: i64, z: i64) -> Vec3 {
    Vec3 { x, y, z }
}

fn tri(a: Vec3, b: Vec3, c: Vec3) -> Triangle {
    Triangle { a, b, c }
}

fn name16(tag: u8) -> Vec<u8> {
    let mut n = vec![tag; 4];
    n.extend(vec![0u8; 12]);
    n
}

fn quad_mesh() -> MeshData {
    MeshData {
        topology: TOPOLOGY_TRIANGLES,
        vertices: vec![v(0, 0, 0), v(4, 0, 0), v(0, 4, 0), v(4, 4, 0)],
        indices: vec![0, 1, 2, 1, 3, 2],
    }
}

fn small_scene() -> SceneDoc {
    SceneDoc {
        meshes: vec![quad_mesh()],
        nodes: vec![
            Node { parent: None, translation: v(100, 0, 0), mesh: None },
            Node { parent: Some(0), translation: v(0, 8, 0), mesh: Some(0) },
        ],
    }
}

#[test]
fn import_composes_transforms_exactly() {
    let tris = import_scene(&small_scene()).unwrap();
    // Two triangles, each vertex shifted by the composed translation
    // (100, 8, 0) of the chain root -> child.
    assert_eq!(tris.len(), 2);
    assert_eq!(tris[0].a, v(100, 8, 0));
    assert_eq!(tris[0].b, v(104, 8, 0));
    assert_eq!(tris[0].c, v(100, 12, 0));
    assert_eq!(tris[1].a, v(104, 8, 0));
    assert_eq!(tris[1].b, v(104, 12, 0));
    assert_eq!(tris[1].c, v(100, 12, 0));
}

#[test]
fn import_rejects_forward_parent() {
    let mut doc = small_scene();
    doc.nodes[0].parent = Some(1);
    assert_eq!(import_scene(&doc), Err(ImportError::MalformedContainer));
}

#[test]
fn import_rejects_unsupported_topology() {
    let mut doc = small_scene();
    doc.meshes[0].topology = 1;
    assert_eq!(import_scene(&doc), Err(ImportError::UnsupportedTopology));
}

#[test]
fn import_rejects_missing_buffer() {
    let mut doc = small_scene();
    doc.nodes[1].mesh = Some(3);
    assert_eq!(import_scene(&doc), Err(ImportError::MissingBuffer));
    let mut doc2 = small_scene();
    doc2.meshes[0].indices[0] = 99;
    assert_eq!(import_scene(&doc2), Err(ImportError::MissingBuffer));
}

#[test]
fn import_rejects_out_of_bounds_geometry() {
    let mut doc = small_scene();
    doc.nodes[0].translation = v(0x2000_0000, 0, 0);
    doc.nodes[1].translation = v(5, 0, 0);
    assert_eq!(import_scene(&doc), Err(ImportError::OutOfBoundsGeometry));
}

#[test]
fn centroid_partition_assigns_each_triangle_once() {
    // One triangle inside cell (0,0,0), one inside cell (1,0,0).
    let tris = vec![
        tri(v(1, 1, 1), v(2, 1, 1), v(1, 2, 1)),
        tri(v(17, 1, 1), v(18, 1, 1), v(17, 2, 1)),
    ];
    let buckets = partition(&tris, 16, PartitionPolicy::CentroidOwner);
    assert_eq!(buckets.len(), 2);
    let total: usize = buckets.iter().map(|b| b.triangles.len()).sum();
    assert_eq!(total, 2);
    for b in &buckets {
        assert!(!b.triangles.is_empty());
    }
}

#[test]
fn straddling_triangle_is_replicated_under_overlap_policy() {
    // The triangle's bounding box spans cells (0,0,0) and (1,0,0).
    let tris = vec![tri(v(14, 1, 1), v(18, 1, 1), v(14, 2, 1))];
    let buckets = partition(&tris, 16, PartitionPolicy::BoundsOverlap);
    assert_eq!(buckets.len(), 2);
    for b in &buckets {
        assert_eq!(b.triangles.len(), 1);
        assert_eq!(b.triangles[0], tris[0]);
    }
    // Under the centroid policy the same triangle lands in exactly one cell.
    let centroid_buckets = partition(&tris, 16, PartitionPolicy::CentroidOwner);
    assert_eq!(centroid_buckets.len(), 1);
    assert_eq!(centroid_buckets[0].coord, CellCoordinate { x: 0, y: 0, z: 0 });
}

#[test]
fn empty_cells_get_no_bucket() {
    let tris: Vec<Triangle> = vec![];
    let buckets = partition(&tris, 16, PartitionPolicy::CentroidOwner);
    assert!(buckets.is_empty());
}

#[test]
fn build_chunk_lays_out_buffers_in_order() {
    let tris = vec![tri(v(1, 1, 1), v(2, 1, 1), v(1, 2, 1))];
    let c = build_chunk(&name16(1), CellCoordinate { x: 0, y: 0, z: 0 }, &tris, &name16(2), 4);
    assert_eq!(c.vertices, vec![v(1, 1, 1), v(2, 1, 1), v(1, 2, 1)]);
    assert_eq!(c.indices, vec![0, 1, 2]);
    assert_eq!(c.collision, tris);
    assert_eq!(c.bounds.min, v(-3, -3, -3));
    assert_eq!(c.bounds.max, v(6, 6, 5));
}

#[test]
fn request_load_is_idempotent() {
    let mut mgr = ChunkManager::new(2);
    let key = ChunkKey { model: 1, cell: CellCoordinate { x: 2, y: 0, z: 1 } };
    let first = mgr.request_load(key);
    let second = mgr.request_load(key);
    assert!(first);
    assert!(!second, "a second request on an unresolved cell must not start a second fetch");
}

#[test]
fn missing_artifact_fails_without_blocking() {
    let mut mgr = ChunkManager::new(2);
    let key = ChunkKey { model: 1, cell: CellCoordinate { x: 5, y: 0, z: 0 } };
    assert!(mgr.request_load(key));
    // The store had no artifact for the cell: the fetch reports failure.
    mgr.complete_load(key, None);
    assert!(mgr.poll_resident(key).is_none());
    // The failed chunk is retried only on an explicit new request.
    let retried = mgr.request_load(key);
    assert!(retried);
}

fn resident_chunk() -> dreamfield::codec::Chunk {
    let tris = vec![tri(v(33, 1, 17), v(34, 1, 17), v(33, 2, 17))];
    build_chunk(&name16(1), CellCoordinate { x: 2, y: 0, z: 1 }, &tris, &name16(2), 4)
}

#[test]
fn overlapping_entities_share_one_resident_chunk() {
    let mut mgr = ChunkManager::new(2);
    let key = ChunkKey { model: 1, cell: CellCoordinate { x: 2, y: 0, z: 1 } };
    // Two entities with overlapping radii both require cell (2,0,1): the
    // active set lists the key once per entity.
    let active = vec![key, key];
    let to_fetch = mgr.tick(&active);
    assert_eq!(to_fetch.len(), 1, "one underlying fetch for both entities");
    mgr.complete_load(key, Some(resident_chunk()));
    let a = mgr.poll_resident(key).map(|c| c.coord);
    let b = mgr.poll_resident(key).map(|c| c.coord);
    assert_eq!(a, Some(CellCoordinate { x: 2, y: 0, z: 1 }));
    assert_eq!(a, b);
    // Staying active keeps it resident with no further fetches.
    let again = mgr.tick(&active);
    assert!(again.is_empty());
    assert!(mgr.poll_resident(key).is_some());
}

#[test]
fn chunk_outside_all_radii_is_evicted_after_grace_period() {
    let grace = 2u32;
    let mut mgr = ChunkManager::new(grace);
    let key = ChunkKey { model: 1, cell: CellCoordinate { x: 2, y: 0, z: 1 } };
    mgr.request_load(key);
    mgr.complete_load(key, Some(resident_chunk()));
    assert!(mgr.poll_resident(key).is_some());
    let empty: Vec<ChunkKey> = vec![];
    // Within the grace period the chunk stays resident (hysteresis).
    for _ in 0..grace {
        mgr.tick(&empty);
        assert!(mgr.poll_resident(key).is_some());
    }
    // One tick past the grace period it is unloaded.
    mgr.tick(&empty);
    assert!(mgr.poll_resident(key).is_none());
}

#[test]
fn nearest_surface_reports_closest_corner_distance() {
    let tris = vec![
        tri(v(10, 0, 0), v(12, 0, 0), v(10, 2, 0)),
        tri(v(3, 0, 0), v(5, 0, 0), v(3, 2, 0)),
    ];
    let p = v(0, 0, 0);
    let hit = nearest_surface(&tris, &p, 100).unwrap();
    assert_eq!(hit.index, 1);
    assert_eq!(hit.distance2, 9);
    // Out of range: no hit.
    assert!(nearest_surface(&tris, &p, 2).is_none());
    // Empty world: no hit (soft consistency gap, not an error).
    assert!(nearest_surface(&vec![], &p, 100).is_none());
}

#[test]
fn sweep_hits_first_triangle_in_range() {
    let tris = vec![
        tri(v(0, 50, 0), v(2, 50, 0), v(0, 52, 0)),
        tri(v(10, 1, 0), v(12, 1, 0), v(10, 3, 0)),
    ];
    // Sweep along the x axis with radius 2: passes within 1 of the second
    // triangle's corners, far from the first.
    let hit = sweep(&tris, &v(0, 0, 0), &v(20, 0, 0), 2);
    assert_eq!(hit, Some(1));
    let miss = sweep(&tris, &v(0, 0, 0), &v(20, 0, 0), 0);
    assert_eq!(miss, None);
}

#[test]
fn fire_orb_marker_is_default_constructible() {
    let orb = FireOrb::default();
    assert_eq!(orb, FireOrb {});
}
