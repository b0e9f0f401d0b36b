use dreamfield::codec::{deserialize_chunk, serialize_chunk, Chunk, LoadError, FORMAT_VERSION};
use dreamfield::geom::{Aabb, Triangle, Vec3};
use dreamfield::grid::{cells_in_radius, floor_div, resolve, CellCoordinate};

fn v(x: i64, y: i64, z: i64) -> Vec3 {
    Vec3 { x, y, z }
}

fn tri(a: Vec3, b: Vec3, c: Vec3) -> Triangle {
    Triangle { a, b, c }
}

fn name16(tag: u8) -> Vec<u8> {
    let mut n = vec![tag; 4];
    n.extend(vec![0u8; 12]);
    n
}

fn sample_chunk() -> Chunk {
    Chunk {
        model_id: name16(7),
        coord: CellCoordinate { x: 1, y: 0, z: -2 },
        bounds: Aabb { min: v(-8, -8, -8), max: v(24, 24, 24) },
        vertices: vec![v(0, 0, 0), v(4, 0, 0), v(0, 4, 0)],
        indices: vec![0, 1, 2],
        material: name16(9),
        collision: vec![tri(v(0, 0, 0), v(4, 0, 0), v(0, 4, 0))],
    }
}

#[test]
fn floor_division_rounds_toward_negative_infinity() {
    assert_eq!(floor_div(20, 16), 1);
    assert_eq!(floor_div(-1, 16), -1);
    assert_eq!(floor_div(-16, 16), -1);
    assert_eq!(floor_div(-17, 16), -2);
    assert_eq!(floor_div(0, 16), 0);
    assert_eq!(floor_div(15, 16), 0);
}

#[test]
fn resolve_matches_floor_division_scenario() {
    // cell_size 16: (20.0, 0.0, 5.0) lies in cell (1, 0, 0).
    let p = v(20.0f64.floor() as i64, 0.0f64.floor() as i64, 5.0f64.floor() as i64);
    let c = resolve(&p, 16);
    assert_eq!((c.x, c.y, c.z), (1, 0, 0));
    // (-1.0, 0.0, 0.0) lies in cell (-1, 0, 0): floor division, not truncation.
    let q = v((-1.0f64).floor() as i64, 0, 0);
    let c2 = resolve(&q, 16);
    assert_eq!((c2.x, c2.y, c2.z), (-1, 0, 0));
}

#[test]
fn resolve_is_translation_covariant() {
    // Shifting by k whole cells along an axis shifts the cell index by k.
    let p = v(21, 3, -5);
    let cell_size: i64 = 16;
    let base = resolve(&p, cell_size);
    for k in [-3i64, -1, 0, 2, 5] {
        let shifted = v(p.x + k * cell_size, p.y, p.z);
        let c = resolve(&shifted, cell_size);
        assert_eq!(c.x, base.x + k as i32);
        assert_eq!(c.y, base.y);
        assert_eq!(c.z, base.z);
    }
}

#[test]
fn resolve_is_pure() {
    let p = v(20, 0, 5);
    let a = resolve(&p, 16);
    let b = resolve(&p, 16);
    assert_eq!(a, b);
}

#[test]
fn cells_in_radius_enumerates_the_cube() {
    let center = CellCoordinate { x: 2, y: 0, z: 1 };
    let cells = cells_in_radius(&center, 1);
    assert_eq!(cells.len(), 27);
    assert!(cells.contains(&center));
    assert!(cells.contains(&CellCoordinate { x: 1, y: -1, z: 0 }));
    assert!(!cells.contains(&CellCoordinate { x: 4, y: 0, z: 1 }));
    let zero = cells_in_radius(&center, 0);
    assert_eq!(zero.len(), 1);
    assert_eq!(zero[0], center);
}

#[test]
fn chunk_round_trip_reproduces_exact_data() {
    let c = sample_chunk();
    let bytes = serialize_chunk(&c).unwrap();
    let back = deserialize_chunk(&bytes).unwrap();
    assert_eq!(back.model_id, c.model_id);
    assert_eq!(back.coord, c.coord);
    assert_eq!(back.bounds, c.bounds);
    assert_eq!(back.vertices, c.vertices);
    assert_eq!(back.indices, c.indices);
    assert_eq!(back.material, c.material);
    assert_eq!(back.collision, c.collision);
}

#[test]
fn serialization_is_deterministic() {
    let c = sample_chunk();
    let first = serialize_chunk(&c).unwrap();
    let second = serialize_chunk(&c).unwrap();
    assert_eq!(first, second);
}

#[test]
fn serialized_layout_starts_with_version() {
    let bytes = serialize_chunk(&sample_chunk()).unwrap();
    assert_eq!(&bytes[0..4], &FORMAT_VERSION.to_le_bytes());
}

#[test]
fn truncated_artifact_is_rejected() {
    let bytes = serialize_chunk(&sample_chunk()).unwrap();
    let cut = bytes[..bytes.len() - 1].to_vec();
    assert_eq!(deserialize_chunk(&cut), Err(LoadError::Truncated));
    assert_eq!(deserialize_chunk(&vec![]), Err(LoadError::Truncated));
}

#[test]
fn version_mismatch_is_rejected() {
    let mut bytes = serialize_chunk(&sample_chunk()).unwrap();
    bytes[0] = bytes[0].wrapping_add(1);
    assert_eq!(deserialize_chunk(&bytes), Err(LoadError::VersionMismatch));
}

#[test]
fn trailing_bytes_are_rejected() {
    let mut bytes = serialize_chunk(&sample_chunk()).unwrap();
    bytes.push(0);
    assert_eq!(deserialize_chunk(&bytes), Err(LoadError::TrailingData));
}
