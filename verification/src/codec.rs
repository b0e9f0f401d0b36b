//! The chunk artifact codec: a deterministic little-endian binary layout for
//! one cell's geometry, and its parser.
//!
//! Layout: `[format_version: u32][model_id: 16 bytes][cell x,y,z: i32]`
//! `[bbox min,max: 3 x i64 each][vertex_count: u32][vertices: 3 x i64 each]`
//! `[index_count: u32][indices: u32 each][material_ref: 16 bytes]`
//! `[collision_triangle_count: u32][collision triangles: 9 x i64 each]`.

use vstd::prelude::*;
use crate::geom::Aabb;
use crate::geom::Triangle;
use crate::geom::Vec3;
use crate::grid::CellCoordinate;

verus! {

/// Version tag written at the start of every artifact.
pub const FORMAT_VERSION: u32 = 1;

/// Width of the fixed model-identifier field, in bytes.
pub const MODEL_ID_LEN: usize = 16;

/// Width of the fixed material-reference field, in bytes.
pub const MATERIAL_REF_LEN: usize = 16;

/// The little-endian bytes of a `u32`.
pub open spec fn u32_le(v: u32) -> Seq<u8> {
    seq![
        (v & 0xff) as u8,
        ((v >> 8u32) & 0xff) as u8,
        ((v >> 16u32) & 0xff) as u8,
        ((v >> 24u32) & 0xff) as u8,
    ]
}

/// The `u32` read back from four little-endian bytes.
pub open spec fn u32_from_le(b: Seq<u8>) -> u32
    recommends
        b.len() == 4,
{
    (b[0] as u32) | ((b[1] as u32) << 8u32) | ((b[2] as u32) << 16u32) | ((b[3] as u32) << 24u32)
}

/// The little-endian bytes of a `u64`.
pub open spec fn u64_le(v: u64) -> Seq<u8> {
    seq![
        (v & 0xff) as u8,
        ((v >> 8u64) & 0xff) as u8,
        ((v >> 16u64) & 0xff) as u8,
        ((v >> 24u64) & 0xff) as u8,
        ((v >> 32u64) & 0xff) as u8,
        ((v >> 40u64) & 0xff) as u8,
        ((v >> 48u64) & 0xff) as u8,
        ((v >> 56u64) & 0xff) as u8,
    ]
}

/// The `u64` read back from eight little-endian bytes.
pub open spec fn u64_from_le(b: Seq<u8>) -> u64
    recommends
        b.len() == 8,
{
    (b[0] as u64) | ((b[1] as u64) << 8u64) | ((b[2] as u64) << 16u64) | ((b[3] as u64) << 24u64)
        | ((b[4] as u64) << 32u64) | ((b[5] as u64) << 40u64) | ((b[6] as u64) << 48u64) | ((
    b[7] as u64) << 56u64)
}

/// The little-endian bytes of an `i32`, two's complement.
pub open spec fn i32_le(v: i32) -> Seq<u8> {
    u32_le(v as u32)
}

/// The little-endian bytes of an `i64`, two's complement.
pub open spec fn i64_le(v: i64) -> Seq<u8> {
    u64_le(v as u64)
}

/// Reading back the bytes of a `u32` yields the value written.
pub proof fn lemma_u32_le_roundtrip(v: u32)
    ensures
        u32_from_le(u32_le(v)) == v,
{
    assert(((v & 0xff) as u8 as u32) | ((((v >> 8u32) & 0xff) as u8 as u32) << 8u32) | ((((v
        >> 16u32) & 0xff) as u8 as u32) << 16u32) | ((((v >> 24u32) & 0xff) as u8 as u32)
        << 24u32) == v) by (bit_vector);
}

/// Reading back the bytes of a `u64` yields the value written.
pub proof fn lemma_u64_le_roundtrip(v: u64)
    ensures
        u64_from_le(u64_le(v)) == v,
{
    assert(((v & 0xff) as u8 as u64) | ((((v >> 8u64) & 0xff) as u8 as u64) << 8u64) | ((((v
        >> 16u64) & 0xff) as u8 as u64) << 16u64) | ((((v >> 24u64) & 0xff) as u8 as u64)
        << 24u64) | ((((v >> 32u64) & 0xff) as u8 as u64) << 32u64) | ((((v >> 40u64) & 0xff) as u8
        as u64) << 40u64) | ((((v >> 48u64) & 0xff) as u8 as u64) << 48u64) | ((((v >> 56u64)
        & 0xff) as u8 as u64) << 56u64) == v) by (bit_vector);
}

/// Reading back the bytes of an `i64` yields the value written.
pub proof fn lemma_i64_le_roundtrip(v: i64)
    ensures
        u64_from_le(i64_le(v)) as i64 == v,
{
    lemma_u64_le_roundtrip(v as u64);
    assert((v as u64) as i64 == v) by (bit_vector);
}

/// Reading back the bytes of an `i32` yields the value written.
pub proof fn lemma_i32_le_roundtrip(v: i32)
    ensures
        u32_from_le(i32_le(v)) as i32 == v,
{
    lemma_u32_le_roundtrip(v as u32);
    assert((v as u32) as i32 == v) by (bit_vector);
}

/// Appends the little-endian bytes of a `u32`.
pub fn put_u32(out: &mut Vec<u8>, v: u32)
    ensures
        final(out)@ == old(out)@ + u32_le(v),
{
    out.push((v & 0xff) as u8);
    out.push(((v >> 8u32) & 0xff) as u8);
    out.push(((v >> 16u32) & 0xff) as u8);
    out.push(((v >> 24u32) & 0xff) as u8);
    proof {
        assert(out@ =~= old(out)@ + u32_le(v));
    }
}

/// Appends the little-endian bytes of a `u64`.
pub fn put_u64(out: &mut Vec<u8>, v: u64)
    ensures
        final(out)@ == old(out)@ + u64_le(v),
{
    out.push((v & 0xff) as u8);
    out.push(((v >> 8u64) & 0xff) as u8);
    out.push(((v >> 16u64) & 0xff) as u8);
    out.push(((v >> 24u64) & 0xff) as u8);
    out.push(((v >> 32u64) & 0xff) as u8);
    out.push(((v >> 40u64) & 0xff) as u8);
    out.push(((v >> 48u64) & 0xff) as u8);
    out.push(((v >> 56u64) & 0xff) as u8);
    proof {
        assert(out@ =~= old(out)@ + u64_le(v));
    }
}

/// Appends the little-endian bytes of an `i32`.
pub fn put_i32(out: &mut Vec<u8>, v: i32)
    ensures
        final(out)@ == old(out)@ + i32_le(v),
{
    put_u32(out, v as u32);
}

/// Appends the little-endian bytes of an `i64`.
pub fn put_i64(out: &mut Vec<u8>, v: i64)
    ensures
        final(out)@ == old(out)@ + i64_le(v),
{
    put_u64(out, v as u64);
}

/// Reads a `u32` at `pos`.
pub fn get_u32(bytes: &Vec<u8>, pos: usize) -> (v: u32)
    requires
        pos + 4 <= bytes@.len(),
    ensures
        v == u32_from_le(bytes@.subrange(pos as int, pos as int + 4)),
{
    let n: usize = bytes.len();
    let v: u32 = (bytes[pos] as u32) | ((bytes[pos + 1] as u32) << 8u32) | ((bytes[pos + 2] as u32)
        << 16u32) | ((bytes[pos + 3] as u32) << 24u32);
    proof {
        let s = bytes@.subrange(pos as int, pos as int + 4);
        assert(s[0] == bytes@[pos as int] && s[1] == bytes@[pos as int + 1] && s[2] == bytes@[pos
            as int + 2] && s[3] == bytes@[pos as int + 3]);
    }
    v
}

/// Reads a `u64` at `pos`.
pub fn get_u64(bytes: &Vec<u8>, pos: usize) -> (v: u64)
    requires
        pos + 8 <= bytes@.len(),
    ensures
        v == u64_from_le(bytes@.subrange(pos as int, pos as int + 8)),
{
    let n: usize = bytes.len();
    let v: u64 = (bytes[pos] as u64) | ((bytes[pos + 1] as u64) << 8u64) | ((bytes[pos + 2] as u64)
        << 16u64) | ((bytes[pos + 3] as u64) << 24u64) | ((bytes[pos + 4] as u64) << 32u64) | ((
    bytes[pos + 5] as u64) << 40u64) | ((bytes[pos + 6] as u64) << 48u64) | ((bytes[pos + 7] as u64)
        << 56u64);
    proof {
        let s = bytes@.subrange(pos as int, pos as int + 8);
        assert(s[0] == bytes@[pos as int] && s[1] == bytes@[pos as int + 1] && s[2] == bytes@[pos
            as int + 2] && s[3] == bytes@[pos as int + 3] && s[4] == bytes@[pos as int + 4] && s[5]
            == bytes@[pos as int + 5] && s[6] == bytes@[pos as int + 6] && s[7] == bytes@[pos
            as int + 7]);
    }
    v
}

/// The bytes of one vector: three little-endian `i64` coordinates.
pub open spec fn vec3_le(v: Vec3) -> Seq<u8> {
    i64_le(v.x) + i64_le(v.y) + i64_le(v.z)
}

/// The bytes of one triangle: its three corners.
pub open spec fn tri_le(t: Triangle) -> Seq<u8> {
    vec3_le(t.a) + vec3_le(t.b) + vec3_le(t.c)
}

/// The concatenated bytes of a vertex list, in order.
pub open spec fn vertices_le(vs: Seq<Vec3>) -> Seq<u8>
    decreases vs.len(),
{
    if vs.len() == 0 {
        Seq::empty()
    } else {
        vertices_le(vs.drop_last()) + vec3_le(vs.last())
    }
}

/// The concatenated bytes of an index list, in order.
pub open spec fn indices_le(ixs: Seq<u32>) -> Seq<u8>
    decreases ixs.len(),
{
    if ixs.len() == 0 {
        Seq::empty()
    } else {
        indices_le(ixs.drop_last()) + u32_le(ixs.last())
    }
}

/// The concatenated bytes of a triangle list, in order.
pub open spec fn tris_le(ts: Seq<Triangle>) -> Seq<u8>
    decreases ts.len(),
{
    if ts.len() == 0 {
        Seq::empty()
    } else {
        tris_le(ts.drop_last()) + tri_le(ts.last())
    }
}

/// A vertex list occupies 24 bytes per vertex.
pub proof fn lemma_vertices_le_len(vs: Seq<Vec3>)
    ensures
        vertices_le(vs).len() == 24 * vs.len(),
    decreases vs.len(),
{
    if vs.len() > 0 {
        lemma_vertices_le_len(vs.drop_last());
    }
}

/// An index list occupies 4 bytes per index.
pub proof fn lemma_indices_le_len(ixs: Seq<u32>)
    ensures
        indices_le(ixs).len() == 4 * ixs.len(),
    decreases ixs.len(),
{
    if ixs.len() > 0 {
        lemma_indices_le_len(ixs.drop_last());
    }
}

/// A triangle list occupies 72 bytes per triangle.
pub proof fn lemma_tris_le_len(ts: Seq<Triangle>)
    ensures
        tris_le(ts).len() == 72 * ts.len(),
    decreases ts.len(),
{
    if ts.len() > 0 {
        lemma_tris_le_len(ts.drop_last());
    }
}

/// Extending a vertex prefix by one element appends that element's bytes.
pub proof fn lemma_vertices_le_take_step(vs: Seq<Vec3>, i: int)
    requires
        0 <= i < vs.len(),
    ensures
        vertices_le(vs.take(i + 1)) == vertices_le(vs.take(i)) + vec3_le(vs[i]),
{
    assert(vs.take(i + 1).drop_last() =~= vs.take(i));
    assert(vs.take(i + 1).last() == vs[i]);
}

/// Extending an index prefix by one element appends that element's bytes.
pub proof fn lemma_indices_le_take_step(ixs: Seq<u32>, i: int)
    requires
        0 <= i < ixs.len(),
    ensures
        indices_le(ixs.take(i + 1)) == indices_le(ixs.take(i)) + u32_le(ixs[i]),
{
    assert(ixs.take(i + 1).drop_last() =~= ixs.take(i));
    assert(ixs.take(i + 1).last() == ixs[i]);
}

/// Extending a triangle prefix by one element appends that element's bytes.
pub proof fn lemma_tris_le_take_step(ts: Seq<Triangle>, i: int)
    requires
        0 <= i < ts.len(),
    ensures
        tris_le(ts.take(i + 1)) == tris_le(ts.take(i)) + tri_le(ts[i]),
{
    assert(ts.take(i + 1).drop_last() =~= ts.take(i));
    assert(ts.take(i + 1).last() == ts[i]);
}

/// The build artifact for one cell of one model: bounding box, draw data and
/// the collision triangle list.  Created once at build time, immutable
/// thereafter, identified by its model and cell coordinate.
#[derive(Clone, Debug, PartialEq, Eq)]
pub struct Chunk {
    /// Fixed-width model identifier, exactly `MODEL_ID_LEN` bytes.
    pub model_id: Vec<u8>,
    /// The cell this chunk covers.
    pub coord: CellCoordinate,
    /// World-space bounding box of the chunk's geometry.
    pub bounds: Aabb,
    /// Vertex buffer of the draw batch.
    pub vertices: Vec<Vec3>,
    /// Index buffer of the draw batch; each entry indexes `vertices`.
    pub indices: Vec<u32>,
    /// Fixed-width material reference, resolved by name, exactly
    /// `MATERIAL_REF_LEN` bytes.
    pub material: Vec<u8>,
    /// Collision triangles, in world space.
    pub collision: Vec<Triangle>,
}

impl Chunk {
    /// Structural well-formedness: the fixed-width name fields have their
    /// exact width and every count fits the header's 32-bit fields.
    pub open spec fn wf(self) -> bool {
        &&& self.model_id@.len() == MODEL_ID_LEN
        &&& self.material@.len() == MATERIAL_REF_LEN
        &&& self.vertices@.len() <= u32::MAX
        &&& self.indices@.len() <= u32::MAX
        &&& self.collision@.len() <= u32::MAX
    }
}

/// The full artifact image of a chunk: every field in layout order.  The
/// bytes are a pure function of the chunk value, so the build is
/// deterministic: re-serializing an unchanged chunk yields identical bytes.
pub open spec fn spec_serialize(c: Chunk) -> Seq<u8> {
    u32_le(FORMAT_VERSION) + c.model_id@ + i32_le(c.coord.x) + i32_le(c.coord.y) + i32_le(
        c.coord.z,
    ) + vec3_le(c.bounds.min) + vec3_le(c.bounds.max) + u32_le(c.vertices@.len() as u32)
        + vertices_le(c.vertices@) + u32_le(c.indices@.len() as u32) + indices_le(c.indices@)
        + c.material@ + u32_le(c.collision@.len() as u32) + tris_le(c.collision@)
}

/// Why a chunk could not be serialized: a count does not fit the header's
/// fixed-width field.
#[derive(Clone, Copy, Debug, PartialEq, Eq, Structural)]
pub enum SerializationError {
    /// More vertices than the 32-bit vertex count can hold.
    TooManyVertices,
    /// More indices than the 32-bit index count can hold.
    TooManyIndices,
    /// More collision triangles than the 32-bit triangle count can hold.
    TooManyTriangles,
}

/// Appends a byte string verbatim.
pub fn put_bytes(out: &mut Vec<u8>, src: &Vec<u8>)
    ensures
        final(out)@ == old(out)@ + src@,
{
    let n: usize = src.len();
    let mut i: usize = 0;
    while i < n
        invariant
            i <= n,
            n == src@.len(),
            out@ == old(out)@ + src@.take(i as int),
        decreases n - i,
    {
        out.push(src[i]);
        proof {
            assert(out@ =~= old(out)@ + src@.take(i as int + 1));
        }
        i = i + 1;
    }
    proof {
        assert(out@ =~= old(out)@ + src@);
    }
}

/// Appends one vector's three coordinates.
pub fn put_vec3(out: &mut Vec<u8>, v: &Vec3)
    ensures
        final(out)@ == old(out)@ + vec3_le(*v),
{
    put_i64(out, v.x);
    put_i64(out, v.y);
    put_i64(out, v.z);
    proof {
        assert(out@ =~= old(out)@ + vec3_le(*v));
    }
}

/// Appends one triangle's three corners.
pub fn put_tri(out: &mut Vec<u8>, t: &Triangle)
    ensures
        final(out)@ == old(out)@ + tri_le(*t),
{
    put_vec3(out, &t.a);
    put_vec3(out, &t.b);
    put_vec3(out, &t.c);
    proof {
        assert(out@ =~= old(out)@ + tri_le(*t));
    }
}

/// Copies `n` bytes starting at `pos`.
pub fn get_bytes(bytes: &Vec<u8>, pos: usize, n: usize) -> (r: Vec<u8>)
    requires
        pos + n <= bytes@.len(),
    ensures
        r@ == bytes@.subrange(pos as int, pos as int + n as int),
{
    let len: usize = bytes.len();
    let mut r: Vec<u8> = Vec::new();
    let mut i: usize = 0;
    while i < n
        invariant
            i <= n,
            pos + n <= bytes@.len(),
            bytes@.len() <= usize::MAX,
            r@ == bytes@.subrange(pos as int, pos as int + i as int),
        decreases n - i,
    {
        r.push(bytes[pos + i]);
        proof {
            assert(r@ =~= bytes@.subrange(pos as int, pos as int + i as int + 1));
        }
        i = i + 1;
    }
    r
}

/// Serializes one chunk into its byte-exact artifact image.  Succeeds
/// exactly when every count fits the header's fixed-width fields; the bytes
/// of a successful run are exactly `spec_serialize`, so two runs on equal
/// chunks produce identical artifacts.
pub fn serialize_chunk(c: &Chunk) -> (r: Result<Vec<u8>, SerializationError>)
    requires
        c.model_id@.len() == MODEL_ID_LEN,
        c.material@.len() == MATERIAL_REF_LEN,
    ensures
        r is Ok <==> c.wf(),
        r matches Ok(b) ==> b@ == spec_serialize(*c),
        r == Err::<Vec<u8>, SerializationError>(SerializationError::TooManyVertices) <==> c.vertices@.len() > u32::MAX,
        r == Err::<Vec<u8>, SerializationError>(SerializationError::TooManyIndices) <==> (
        c.vertices@.len() <= u32::MAX && c.indices@.len() > u32::MAX),
        r == Err::<Vec<u8>, SerializationError>(SerializationError::TooManyTriangles) <==> (
        c.vertices@.len() <= u32::MAX && c.indices@.len() <= u32::MAX && c.collision@.len()
            > u32::MAX),
{
    if c.vertices.len() as u64 > u32::MAX as u64 {
        return Err(SerializationError::TooManyVertices);
    }
    if c.indices.len() as u64 > u32::MAX as u64 {
        return Err(SerializationError::TooManyIndices);
    }
    if c.collision.len() as u64 > u32::MAX as u64 {
        return Err(SerializationError::TooManyTriangles);
    }
    let mut out: Vec<u8> = Vec::new();
    put_u32(&mut out, FORMAT_VERSION);
    put_bytes(&mut out, &c.model_id);
    put_i32(&mut out, c.coord.x);
    put_i32(&mut out, c.coord.y);
    put_i32(&mut out, c.coord.z);
    put_vec3(&mut out, &c.bounds.min);
    put_vec3(&mut out, &c.bounds.max);
    put_u32(&mut out, c.vertices.len() as u32);
    let ghost head_v = out@;
    let nv: usize = c.vertices.len();
    let mut i: usize = 0;
    while i < nv
        invariant
            i <= nv,
            nv == c.vertices@.len(),
            out@ == head_v + vertices_le(c.vertices@.take(i as int)),
        decreases nv - i,
    {
        put_vec3(&mut out, &c.vertices[i]);
        proof {
            lemma_vertices_le_take_step(c.vertices@, i as int);
            assert(out@ =~= head_v + vertices_le(c.vertices@.take(i as int + 1)));
        }
        i = i + 1;
    }
    proof {
        assert(c.vertices@.take(nv as int) =~= c.vertices@);
    }
    put_u32(&mut out, c.indices.len() as u32);
    let ghost head_i = out@;
    let ni: usize = c.indices.len();
    let mut j: usize = 0;
    while j < ni
        invariant
            j <= ni,
            ni == c.indices@.len(),
            out@ == head_i + indices_le(c.indices@.take(j as int)),
        decreases ni - j,
    {
        put_u32(&mut out, c.indices[j]);
        proof {
            lemma_indices_le_take_step(c.indices@, j as int);
            assert(out@ =~= head_i + indices_le(c.indices@.take(j as int + 1)));
        }
        j = j + 1;
    }
    proof {
        assert(c.indices@.take(ni as int) =~= c.indices@);
    }
    put_bytes(&mut out, &c.material);
    put_u32(&mut out, c.collision.len() as u32);
    let ghost head_t = out@;
    let nt: usize = c.collision.len();
    let mut k: usize = 0;
    while k < nt
        invariant
            k <= nt,
            nt == c.collision@.len(),
            out@ == head_t + tris_le(c.collision@.take(k as int)),
        decreases nt - k,
    {
        put_tri(&mut out, &c.collision[k]);
        proof {
            lemma_tris_le_take_step(c.collision@, k as int);
            assert(out@ =~= head_t + tris_le(c.collision@.take(k as int + 1)));
        }
        k = k + 1;
    }
    proof {
        assert(c.collision@.take(nt as int) =~= c.collision@);
        assert(out@ =~= spec_serialize(*c));
    }
    Ok(out)
}

/// Re-encoding a decoded `u32` yields the original four bytes.
pub proof fn lemma_u32_le_of_from(s: Seq<u8>)
    requires
        s.len() == 4,
    ensures
        u32_le(u32_from_le(s)) == s,
{
    let b0 = s[0];
    let b1 = s[1];
    let b2 = s[2];
    let b3 = s[3];
    let v = u32_from_le(s);
    assert(v == (b0 as u32) | ((b1 as u32) << 8u32) | ((b2 as u32) << 16u32) | ((b3 as u32)
        << 24u32));
    assert((((b0 as u32) | ((b1 as u32) << 8u32) | ((b2 as u32) << 16u32) | ((b3 as u32)
        << 24u32)) & 0xff) as u8 == b0) by (bit_vector);
    assert(((((b0 as u32) | ((b1 as u32) << 8u32) | ((b2 as u32) << 16u32) | ((b3 as u32)
        << 24u32)) >> 8u32) & 0xff) as u8 == b1) by (bit_vector);
    assert(((((b0 as u32) | ((b1 as u32) << 8u32) | ((b2 as u32) << 16u32) | ((b3 as u32)
        << 24u32)) >> 16u32) & 0xff) as u8 == b2) by (bit_vector);
    assert(((((b0 as u32) | ((b1 as u32) << 8u32) | ((b2 as u32) << 16u32) | ((b3 as u32)
        << 24u32)) >> 24u32) & 0xff) as u8 == b3) by (bit_vector);
    assert(u32_le(v) =~= s);
}

/// Re-encoding a decoded `u64` yields the original eight bytes.
pub proof fn lemma_u64_le_of_from(s: Seq<u8>)
    requires
        s.len() == 8,
    ensures
        u64_le(u64_from_le(s)) == s,
{
    let b0 = s[0];
    let b1 = s[1];
    let b2 = s[2];
    let b3 = s[3];
    let b4 = s[4];
    let b5 = s[5];
    let b6 = s[6];
    let b7 = s[7];
    let v = u64_from_le(s);
    assert(v == (b0 as u64) | ((b1 as u64) << 8u64) | ((b2 as u64) << 16u64) | ((b3 as u64)
        << 24u64) | ((b4 as u64) << 32u64) | ((b5 as u64) << 40u64) | ((b6 as u64) << 48u64) | ((
    b7 as u64) << 56u64));
    assert({
        let w = (b0 as u64) | ((b1 as u64) << 8u64) | ((b2 as u64) << 16u64) | ((b3 as u64)
            << 24u64) | ((b4 as u64) << 32u64) | ((b5 as u64) << 40u64) | ((b6 as u64) << 48u64)
            | ((b7 as u64) << 56u64);
        (w & 0xff) as u8 == b0 && ((w >> 8u64) & 0xff) as u8 == b1 && ((w >> 16u64) & 0xff) as u8
            == b2 && ((w >> 24u64) & 0xff) as u8 == b3 && ((w >> 32u64) & 0xff) as u8 == b4 && ((w
            >> 40u64) & 0xff) as u8 == b5 && ((w >> 48u64) & 0xff) as u8 == b6 && ((w >> 56u64)
            & 0xff) as u8 == b7
    }) by (bit_vector);
    assert(u64_le(v) =~= s);
}

/// Re-encoding a decoded `i64` yields the original eight bytes.
pub proof fn lemma_i64_le_of_from(s: Seq<u8>)
    requires
        s.len() == 8,
    ensures
        i64_le(u64_from_le(s) as i64) == s,
{
    lemma_u64_le_of_from(s);
    let v = u64_from_le(s);
    assert((v as i64) as u64 == v) by (bit_vector);
}

/// Re-encoding a decoded `i32` yields the original four bytes.
pub proof fn lemma_i32_le_of_from(s: Seq<u8>)
    requires
        s.len() == 4,
    ensures
        i32_le(u32_from_le(s) as i32) == s,
{
    lemma_u32_le_of_from(s);
    let v = u32_from_le(s);
    assert((v as i32) as u32 == v) by (bit_vector);
}

/// Equal `i64` encodings come from equal values.
pub proof fn lemma_i64_le_injective(x: i64, y: i64)
    requires
        i64_le(x) == i64_le(y),
    ensures
        x == y,
{
    lemma_i64_le_roundtrip(x);
    lemma_i64_le_roundtrip(y);
}

/// Equal vector encodings come from equal vectors.
pub proof fn lemma_vec3_le_injective(u: Vec3, w: Vec3)
    requires
        vec3_le(u) == vec3_le(w),
    ensures
        u == w,
{
    assert(i64_le(u.x) =~= vec3_le(u).subrange(0, 8));
    assert(i64_le(u.y) =~= vec3_le(u).subrange(8, 16));
    assert(i64_le(u.z) =~= vec3_le(u).subrange(16, 24));
    assert(i64_le(w.x) =~= vec3_le(w).subrange(0, 8));
    assert(i64_le(w.y) =~= vec3_le(w).subrange(8, 16));
    assert(i64_le(w.z) =~= vec3_le(w).subrange(16, 24));
    lemma_i64_le_injective(u.x, w.x);
    lemma_i64_le_injective(u.y, w.y);
    lemma_i64_le_injective(u.z, w.z);
}

/// Equal triangle encodings come from equal triangles.
pub proof fn lemma_tri_le_injective(u: Triangle, w: Triangle)
    requires
        tri_le(u) == tri_le(w),
    ensures
        u == w,
{
    assert(vec3_le(u.a) =~= tri_le(u).subrange(0, 24));
    assert(vec3_le(u.b) =~= tri_le(u).subrange(24, 48));
    assert(vec3_le(u.c) =~= tri_le(u).subrange(48, 72));
    assert(vec3_le(w.a) =~= tri_le(w).subrange(0, 24));
    assert(vec3_le(w.b) =~= tri_le(w).subrange(24, 48));
    assert(vec3_le(w.c) =~= tri_le(w).subrange(48, 72));
    lemma_vec3_le_injective(u.a, w.a);
    lemma_vec3_le_injective(u.b, w.b);
    lemma_vec3_le_injective(u.c, w.c);
}

/// Equal-length vertex lists with equal encodings are equal.
pub proof fn lemma_vertices_le_injective(a: Seq<Vec3>, b: Seq<Vec3>)
    requires
        a.len() == b.len(),
        vertices_le(a) == vertices_le(b),
    ensures
        a == b,
    decreases a.len(),
{
    if a.len() > 0 {
        lemma_vertices_le_len(a.drop_last());
        lemma_vertices_le_len(b.drop_last());
        let n = vertices_le(a).len() as int;
        assert(vertices_le(a.drop_last()) =~= vertices_le(a).subrange(0, n - 24));
        assert(vertices_le(b.drop_last()) =~= vertices_le(b).subrange(0, n - 24));
        assert(vec3_le(a.last()) =~= vertices_le(a).subrange(n - 24, n));
        assert(vec3_le(b.last()) =~= vertices_le(b).subrange(n - 24, n));
        lemma_vec3_le_injective(a.last(), b.last());
        lemma_vertices_le_injective(a.drop_last(), b.drop_last());
        assert forall|i: int| 0 <= i < a.len() implies a[i] == b[i] by {
            if i < a.len() - 1 {
                assert(a.drop_last()[i] == b.drop_last()[i]);
            }
        }
        assert(a =~= b);
    } else {
        assert(a =~= b);
    }
}

/// Equal-length index lists with equal encodings are equal.
pub proof fn lemma_indices_le_injective(a: Seq<u32>, b: Seq<u32>)
    requires
        a.len() == b.len(),
        indices_le(a) == indices_le(b),
    ensures
        a == b,
    decreases a.len(),
{
    if a.len() > 0 {
        lemma_indices_le_len(a.drop_last());
        lemma_indices_le_len(b.drop_last());
        let n = indices_le(a).len() as int;
        assert(indices_le(a.drop_last()) =~= indices_le(a).subrange(0, n - 4));
        assert(indices_le(b.drop_last()) =~= indices_le(b).subrange(0, n - 4));
        assert(u32_le(a.last()) =~= indices_le(a).subrange(n - 4, n));
        assert(u32_le(b.last()) =~= indices_le(b).subrange(n - 4, n));
        lemma_u32_le_roundtrip(a.last());
        lemma_u32_le_roundtrip(b.last());
        lemma_indices_le_injective(a.drop_last(), b.drop_last());
        assert forall|i: int| 0 <= i < a.len() implies a[i] == b[i] by {
            if i < a.len() - 1 {
                assert(a.drop_last()[i] == b.drop_last()[i]);
            }
        }
        assert(a =~= b);
    } else {
        assert(a =~= b);
    }
}

/// Equal-length triangle lists with equal encodings are equal.
#[verifier::rlimit(50)]
pub proof fn lemma_tris_le_injective(a: Seq<Triangle>, b: Seq<Triangle>)
    requires
        a.len() == b.len(),
        tris_le(a) == tris_le(b),
    ensures
        a == b,
    decreases a.len(),
{
    if a.len() > 0 {
        lemma_tris_le_len(a.drop_last());
        lemma_tris_le_len(b.drop_last());
        let n = tris_le(a).len() as int;
        assert(tris_le(a.drop_last()) =~= tris_le(a).subrange(0, n - 72));
        assert(tris_le(b.drop_last()) =~= tris_le(b).subrange(0, n - 72));
        assert(tri_le(a.last()) =~= tris_le(a).subrange(n - 72, n));
        assert(tri_le(b.last()) =~= tris_le(b).subrange(n - 72, n));
        lemma_tri_le_injective(a.last(), b.last());
        lemma_tris_le_injective(a.drop_last(), b.drop_last());
        assert forall|i: int| 0 <= i < a.len() implies a[i] == b[i] by {
            if i < a.len() - 1 {
                assert(a.drop_last()[i] == b.drop_last()[i]);
            }
        }
        assert(a =~= b);
    } else {
        assert(a =~= b);
    }
}

/// Appending one vertex appends that vertex's bytes.
pub proof fn lemma_vertices_le_push(vs: Seq<Vec3>, v: Vec3)
    ensures
        vertices_le(vs.push(v)) == vertices_le(vs) + vec3_le(v),
{
    assert(vs.push(v).drop_last() =~= vs);
    assert(vs.push(v).last() == v);
}

/// Appending one index appends that index's bytes.
pub proof fn lemma_indices_le_push(ixs: Seq<u32>, v: u32)
    ensures
        indices_le(ixs.push(v)) == indices_le(ixs) + u32_le(v),
{
    assert(ixs.push(v).drop_last() =~= ixs);
    assert(ixs.push(v).last() == v);
}

/// Appending one triangle appends that triangle's bytes.
pub proof fn lemma_tris_le_push(ts: Seq<Triangle>, t: Triangle)
    ensures
        tris_le(ts.push(t)) == tris_le(ts) + tri_le(t),
{
    assert(ts.push(t).drop_last() =~= ts);
    assert(ts.push(t).last() == t);
}

/// Where each field of a well-formed chunk lies in its artifact image, and
/// the image's total length.
#[verifier::rlimit(100)]
pub proof fn lemma_ser_field_facts(c: Chunk)
    requires
        c.wf(),
    ensures
        spec_serialize(c).len() == 108 + 24 * c.vertices@.len() + 4 * c.indices@.len() + 72
            * c.collision@.len(),
        spec_serialize(c).subrange(0, 4) == u32_le(FORMAT_VERSION),
        spec_serialize(c).subrange(4, 20) == c.model_id@,
        spec_serialize(c).subrange(20, 24) == i32_le(c.coord.x),
        spec_serialize(c).subrange(24, 28) == i32_le(c.coord.y),
        spec_serialize(c).subrange(28, 32) == i32_le(c.coord.z),
        spec_serialize(c).subrange(32, 56) == vec3_le(c.bounds.min),
        spec_serialize(c).subrange(56, 80) == vec3_le(c.bounds.max),
        spec_serialize(c).subrange(80, 84) == u32_le(c.vertices@.len() as u32),
        spec_serialize(c).subrange(84, 84 + 24 * (c.vertices@.len() as int)) == vertices_le(
            c.vertices@,
        ),
        spec_serialize(c).subrange(
            84 + 24 * (c.vertices@.len() as int),
            88 + 24 * (c.vertices@.len() as int),
        ) == u32_le(c.indices@.len() as u32),
        spec_serialize(c).subrange(
            88 + 24 * (c.vertices@.len() as int),
            88 + 24 * (c.vertices@.len() as int) + 4 * (c.indices@.len() as int),
        ) == indices_le(c.indices@),
        spec_serialize(c).subrange(
            88 + 24 * (c.vertices@.len() as int) + 4 * (c.indices@.len() as int),
            104 + 24 * (c.vertices@.len() as int) + 4 * (c.indices@.len() as int),
        ) == c.material@,
        spec_serialize(c).subrange(
            104 + 24 * (c.vertices@.len() as int) + 4 * (c.indices@.len() as int),
            108 + 24 * (c.vertices@.len() as int) + 4 * (c.indices@.len() as int),
        ) == u32_le(c.collision@.len() as u32),
        spec_serialize(c).subrange(
            108 + 24 * (c.vertices@.len() as int) + 4 * (c.indices@.len() as int),
            108 + 24 * (c.vertices@.len() as int) + 4 * (c.indices@.len() as int) + 72 * (
            c.collision@.len() as int),
        ) == tris_le(c.collision@),
{
    lemma_vertices_le_len(c.vertices@);
    lemma_indices_le_len(c.indices@);
    lemma_tris_le_len(c.collision@);
    let s = spec_serialize(c);
    let nv = c.vertices@.len() as int;
    let ni = c.indices@.len() as int;
    let nt = c.collision@.len() as int;
    assert(s.subrange(0, 4) =~= u32_le(FORMAT_VERSION));
    assert(s.subrange(4, 20) =~= c.model_id@);
    assert(s.subrange(20, 24) =~= i32_le(c.coord.x));
    assert(s.subrange(24, 28) =~= i32_le(c.coord.y));
    assert(s.subrange(28, 32) =~= i32_le(c.coord.z));
    assert(s.subrange(32, 56) =~= vec3_le(c.bounds.min));
    assert(s.subrange(56, 80) =~= vec3_le(c.bounds.max));
    assert(s.subrange(80, 84) =~= u32_le(c.vertices@.len() as u32));
    assert(s.subrange(84, 84 + 24 * nv) =~= vertices_le(c.vertices@));
    assert(s.subrange(84 + 24 * nv, 88 + 24 * nv) =~= u32_le(c.indices@.len() as u32));
    assert(s.subrange(88 + 24 * nv, 88 + 24 * nv + 4 * ni) =~= indices_le(c.indices@));
    assert(s.subrange(88 + 24 * nv + 4 * ni, 104 + 24 * nv + 4 * ni) =~= c.material@);
    assert(s.subrange(104 + 24 * nv + 4 * ni, 108 + 24 * nv + 4 * ni) =~= u32_le(
        c.collision@.len() as u32,
    ));
    assert(s.subrange(108 + 24 * nv + 4 * ni, 108 + 24 * nv + 4 * ni + 72 * nt) =~= tris_le(
        c.collision@,
    ));
}

/// Law: serialization is injective on well-formed chunks, so an artifact
/// determines every field of the chunk that produced it, and parsing an
/// artifact back reproduces the exact vertex, index and collision data.
pub proof fn lemma_serialize_injective(c1: Chunk, c2: Chunk)
    requires
        c1.wf(),
        c2.wf(),
        spec_serialize(c1) == spec_serialize(c2),
    ensures
        c1.model_id@ == c2.model_id@,
        c1.coord == c2.coord,
        c1.bounds == c2.bounds,
        c1.vertices@ == c2.vertices@,
        c1.indices@ == c2.indices@,
        c1.material@ == c2.material@,
        c1.collision@ == c2.collision@,
{
    lemma_ser_field_facts(c1);
    lemma_ser_field_facts(c2);
    lemma_u32_le_roundtrip(c1.vertices@.len() as u32);
    lemma_u32_le_roundtrip(c2.vertices@.len() as u32);
    assert(c1.vertices@.len() == c2.vertices@.len());
    lemma_u32_le_roundtrip(c1.indices@.len() as u32);
    lemma_u32_le_roundtrip(c2.indices@.len() as u32);
    assert(c1.indices@.len() == c2.indices@.len());
    lemma_u32_le_roundtrip(c1.collision@.len() as u32);
    lemma_u32_le_roundtrip(c2.collision@.len() as u32);
    assert(c1.collision@.len() == c2.collision@.len());
    lemma_i32_le_roundtrip(c1.coord.x);
    lemma_i32_le_roundtrip(c2.coord.x);
    lemma_i32_le_roundtrip(c1.coord.y);
    lemma_i32_le_roundtrip(c2.coord.y);
    lemma_i32_le_roundtrip(c1.coord.z);
    lemma_i32_le_roundtrip(c2.coord.z);
    lemma_vec3_le_injective(c1.bounds.min, c2.bounds.min);
    lemma_vec3_le_injective(c1.bounds.max, c2.bounds.max);
    lemma_vertices_le_injective(c1.vertices@, c2.vertices@);
    lemma_indices_le_injective(c1.indices@, c2.indices@);
    lemma_tris_le_injective(c1.collision@, c2.collision@);
}

/// Why a run-time load failed: the artifact could not be parsed.  A missing
/// artifact file is reported by the store before parsing begins.
#[derive(Clone, Copy, Debug, PartialEq, Eq, Structural)]
pub enum LoadError {
    /// The byte string ends before the header and its declared counts do.
    Truncated,
    /// The version tag is not `FORMAT_VERSION`.
    VersionMismatch,
    /// The byte string continues past the declared end of the artifact.
    TrailingData,
}

/// Parses a chunk artifact.  Success returns the unique well-formed chunk
/// whose artifact image is exactly `bytes` (uniqueness is
/// `lemma_serialize_injective`); an error means no well-formed chunk
/// serializes to `bytes`, so parsing what `serialize_chunk` wrote always
/// succeeds and reproduces the exact field data.
#[verifier::rlimit(100)]
pub fn deserialize_chunk(bytes: &Vec<u8>) -> (r: Result<Chunk, LoadError>)
    ensures
        r matches Ok(c) ==> c.wf() && spec_serialize(c) == bytes@,
        r is Err ==> forall|c: Chunk| c.wf() ==> spec_serialize(c) != bytes@,
        r == Err::<Chunk, LoadError>(LoadError::VersionMismatch) ==> bytes@.len() >= 4
            && bytes@.subrange(0, 4) != u32_le(FORMAT_VERSION),
{
    let len: usize = bytes.len();
    if len < 84 {
        proof {
            assert forall|c: Chunk| c.wf() implies spec_serialize(c) != bytes@ by {
                lemma_ser_field_facts(c);
            }
        }
        return Err(LoadError::Truncated);
    }
    let ver: u32 = get_u32(bytes, 0);
    if ver != FORMAT_VERSION {
        proof {
            lemma_u32_le_roundtrip(FORMAT_VERSION);
            assert(bytes@.subrange(0, 4) != u32_le(FORMAT_VERSION));
            assert forall|c: Chunk| c.wf() implies spec_serialize(c) != bytes@ by {
                lemma_ser_field_facts(c);
            }
        }
        return Err(LoadError::VersionMismatch);
    }
    let model_id: Vec<u8> = get_bytes(bytes, 4, 16);
    let cx: i32 = get_u32(bytes, 20) as i32;
    let cy: i32 = get_u32(bytes, 24) as i32;
    let cz: i32 = get_u32(bytes, 28) as i32;
    let min_x: i64 = get_u64(bytes, 32) as i64;
    let min_y: i64 = get_u64(bytes, 40) as i64;
    let min_z: i64 = get_u64(bytes, 48) as i64;
    let max_x: i64 = get_u64(bytes, 56) as i64;
    let max_y: i64 = get_u64(bytes, 64) as i64;
    let max_z: i64 = get_u64(bytes, 72) as i64;
    let vcount: u32 = get_u32(bytes, 80);
    if (len as u64) < 88u64 + 24u64 * (vcount as u64) {
        proof {
            assert forall|c: Chunk| c.wf() implies spec_serialize(c) != bytes@ by {
                if spec_serialize(c) == bytes@ {
                    lemma_ser_field_facts(c);
                    lemma_u32_le_roundtrip(c.vertices@.len() as u32);
                    assert(vcount == c.vertices@.len() as u32);
                    assert(false);
                }
            }
        }
        return Err(LoadError::Truncated);
    }
    let mut vertices: Vec<Vec3> = Vec::new();
    let mut i: u32 = 0;
    let mut pos: usize = 84;
    while i < vcount
        invariant
            i <= vcount,
            pos == 84 + 24 * (i as int),
            len == bytes@.len(),
            bytes@.len() <= usize::MAX,
            88 + 24 * (vcount as int) <= len,
            vertices@.len() == i as int,
            vertices_le(vertices@) == bytes@.subrange(84, 84 + 24 * (i as int)),
        decreases vcount - i,
    {
        let x: i64 = get_u64(bytes, pos) as i64;
        let y: i64 = get_u64(bytes, pos + 8) as i64;
        let z: i64 = get_u64(bytes, pos + 16) as i64;
        let v = Vec3 { x, y, z };
        proof {
            lemma_i64_le_of_from(bytes@.subrange(pos as int, pos as int + 8));
            lemma_i64_le_of_from(bytes@.subrange(pos as int + 8, pos as int + 16));
            lemma_i64_le_of_from(bytes@.subrange(pos as int + 16, pos as int + 24));
            assert(vec3_le(v) =~= bytes@.subrange(pos as int, pos as int + 24));
            lemma_vertices_le_push(vertices@, v);
        }
        vertices.push(v);
        proof {
            assert(vertices_le(vertices@) =~= bytes@.subrange(84, pos as int + 24));
        }
        pos = pos + 24;
        i = i + 1;
    }
    let icount: u32 = get_u32(bytes, pos);
    if (len as u64) < 108u64 + 24u64 * (vcount as u64) + 4u64 * (icount as u64) {
        proof {
            assert forall|c: Chunk| c.wf() implies spec_serialize(c) != bytes@ by {
                if spec_serialize(c) == bytes@ {
                    lemma_ser_field_facts(c);
                    lemma_u32_le_roundtrip(c.vertices@.len() as u32);
                    assert(vcount == c.vertices@.len() as u32);
                    lemma_u32_le_roundtrip(c.indices@.len() as u32);
                    assert(icount == c.indices@.len() as u32);
                    assert(false);
                }
            }
        }
        return Err(LoadError::Truncated);
    }
    let ghost pos_i0 = pos as int + 4;
    pos = pos + 4;
    let mut indices: Vec<u32> = Vec::new();
    let mut j: u32 = 0;
    while j < icount
        invariant
            j <= icount,
            pos == pos_i0 + 4 * (j as int),
            pos_i0 == 88 + 24 * (vcount as int),
            len == bytes@.len(),
            bytes@.len() <= usize::MAX,
            108 + 24 * (vcount as int) + 4 * (icount as int) <= len,
            indices@.len() == j as int,
            indices_le(indices@) == bytes@.subrange(pos_i0, pos_i0 + 4 * (j as int)),
        decreases icount - j,
    {
        let v: u32 = get_u32(bytes, pos);
        proof {
            lemma_u32_le_of_from(bytes@.subrange(pos as int, pos as int + 4));
            lemma_indices_le_push(indices@, v);
        }
        indices.push(v);
        proof {
            assert(indices_le(indices@) =~= bytes@.subrange(pos_i0, pos as int + 4));
        }
        pos = pos + 4;
        j = j + 1;
    }
    let material: Vec<u8> = get_bytes(bytes, pos, 16);
    let ghost pos_m0 = pos as int;
    pos = pos + 16;
    let tcount: u32 = get_u32(bytes, pos);
    let total: u64 = 108u64 + 24u64 * (vcount as u64) + 4u64 * (icount as u64) + 72u64 * (
    tcount as u64);
    if (len as u64) < total {
        proof {
            assert forall|c: Chunk| c.wf() implies spec_serialize(c) != bytes@ by {
                if spec_serialize(c) == bytes@ {
                    lemma_ser_field_facts(c);
                    lemma_u32_le_roundtrip(c.vertices@.len() as u32);
                    assert(vcount == c.vertices@.len() as u32);
                    lemma_u32_le_roundtrip(c.indices@.len() as u32);
                    assert(icount == c.indices@.len() as u32);
                    lemma_u32_le_roundtrip(c.collision@.len() as u32);
                    assert(tcount == c.collision@.len() as u32);
                    assert(false);
                }
            }
        }
        return Err(LoadError::Truncated);
    }
    if (len as u64) > total {
        proof {
            assert forall|c: Chunk| c.wf() implies spec_serialize(c) != bytes@ by {
                if spec_serialize(c) == bytes@ {
                    lemma_ser_field_facts(c);
                    lemma_u32_le_roundtrip(c.vertices@.len() as u32);
                    assert(vcount == c.vertices@.len() as u32);
                    lemma_u32_le_roundtrip(c.indices@.len() as u32);
                    assert(icount == c.indices@.len() as u32);
                    lemma_u32_le_roundtrip(c.collision@.len() as u32);
                    assert(tcount == c.collision@.len() as u32);
                    assert(false);
                }
            }
        }
        return Err(LoadError::TrailingData);
    }
    let ghost pos_t0 = pos as int + 4;
    pos = pos + 4;
    let mut collision: Vec<Triangle> = Vec::new();
    let mut k: u32 = 0;
    while k < tcount
        invariant
            k <= tcount,
            pos == pos_t0 + 72 * (k as int),
            pos_t0 == 108 + 24 * (vcount as int) + 4 * (icount as int),
            len == bytes@.len(),
            bytes@.len() <= usize::MAX,
            len == 108 + 24 * (vcount as int) + 4 * (icount as int) + 72 * (tcount as int),
            collision@.len() == k as int,
            tris_le(collision@) == bytes@.subrange(pos_t0, pos_t0 + 72 * (k as int)),
        decreases tcount - k,
    {
        let ax: i64 = get_u64(bytes, pos) as i64;
        let ay: i64 = get_u64(bytes, pos + 8) as i64;
        let az: i64 = get_u64(bytes, pos + 16) as i64;
        let bx: i64 = get_u64(bytes, pos + 24) as i64;
        let by: i64 = get_u64(bytes, pos + 32) as i64;
        let bz: i64 = get_u64(bytes, pos + 40) as i64;
        let cx2: i64 = get_u64(bytes, pos + 48) as i64;
        let cy2: i64 = get_u64(bytes, pos + 56) as i64;
        let cz2: i64 = get_u64(bytes, pos + 64) as i64;
        let t = Triangle {
            a: Vec3 { x: ax, y: ay, z: az },
            b: Vec3 { x: bx, y: by, z: bz },
            c: Vec3 { x: cx2, y: cy2, z: cz2 },
        };
        proof {
            lemma_i64_le_of_from(bytes@.subrange(pos as int, pos as int + 8));
            lemma_i64_le_of_from(bytes@.subrange(pos as int + 8, pos as int + 16));
            lemma_i64_le_of_from(bytes@.subrange(pos as int + 16, pos as int + 24));
            lemma_i64_le_of_from(bytes@.subrange(pos as int + 24, pos as int + 32));
            lemma_i64_le_of_from(bytes@.subrange(pos as int + 32, pos as int + 40));
            lemma_i64_le_of_from(bytes@.subrange(pos as int + 40, pos as int + 48));
            lemma_i64_le_of_from(bytes@.subrange(pos as int + 48, pos as int + 56));
            lemma_i64_le_of_from(bytes@.subrange(pos as int + 56, pos as int + 64));
            lemma_i64_le_of_from(bytes@.subrange(pos as int + 64, pos as int + 72));
            assert(vec3_le(t.a) =~= bytes@.subrange(pos as int, pos as int + 24));
            assert(vec3_le(t.b) =~= bytes@.subrange(pos as int + 24, pos as int + 48));
            assert(vec3_le(t.c) =~= bytes@.subrange(pos as int + 48, pos as int + 72));
            assert(tri_le(t) =~= bytes@.subrange(pos as int, pos as int + 72));
            lemma_tris_le_push(collision@, t);
        }
        collision.push(t);
        proof {
            assert(tris_le(collision@) =~= bytes@.subrange(pos_t0, pos as int + 72));
        }
        pos = pos + 72;
        k = k + 1;
    }
    let out = Chunk {
        model_id,
        coord: CellCoordinate { x: cx, y: cy, z: cz },
        bounds: Aabb {
            min: Vec3 { x: min_x, y: min_y, z: min_z },
            max: Vec3 { x: max_x, y: max_y, z: max_z },
        },
        vertices,
        indices,
        material,
        collision,
    };
    proof {
        let b = bytes@;
        let nv = vcount as int;
        let ni = icount as int;
        let nt = tcount as int;
        lemma_u32_le_of_from(b.subrange(0, 4));
        lemma_i32_le_of_from(b.subrange(20, 24));
        lemma_i32_le_of_from(b.subrange(24, 28));
        lemma_i32_le_of_from(b.subrange(28, 32));
        lemma_i64_le_of_from(b.subrange(32, 40));
        lemma_i64_le_of_from(b.subrange(40, 48));
        lemma_i64_le_of_from(b.subrange(48, 56));
        lemma_i64_le_of_from(b.subrange(56, 64));
        lemma_i64_le_of_from(b.subrange(64, 72));
        lemma_i64_le_of_from(b.subrange(72, 80));
        lemma_u32_le_of_from(b.subrange(80, 84));
        lemma_u32_le_of_from(b.subrange(84 + 24 * nv, 88 + 24 * nv));
        lemma_u32_le_of_from(b.subrange(104 + 24 * nv + 4 * ni, 108 + 24 * nv + 4 * ni));
        assert(u32_le(FORMAT_VERSION) == b.subrange(0, 4));
        assert(u32_le(FORMAT_VERSION) + out.model_id@ =~= b.subrange(0, 20));
        assert(b.subrange(0, 20) + i32_le(out.coord.x) =~= b.subrange(0, 24));
        assert(b.subrange(0, 24) + i32_le(out.coord.y) =~= b.subrange(0, 28));
        assert(b.subrange(0, 28) + i32_le(out.coord.z) =~= b.subrange(0, 32));
        assert(vec3_le(out.bounds.min) =~= b.subrange(32, 56));
        assert(vec3_le(out.bounds.max) =~= b.subrange(56, 80));
        assert(b.subrange(0, 32) + vec3_le(out.bounds.min) =~= b.subrange(0, 56));
        assert(b.subrange(0, 56) + vec3_le(out.bounds.max) =~= b.subrange(0, 80));
        assert(u32_le(out.vertices@.len() as u32) == b.subrange(80, 84));
        assert(b.subrange(0, 80) + u32_le(out.vertices@.len() as u32) =~= b.subrange(0, 84));
        assert(b.subrange(0, 84) + vertices_le(out.vertices@) =~= b.subrange(0, 84 + 24 * nv));
        assert(u32_le(out.indices@.len() as u32) == b.subrange(84 + 24 * nv, 88 + 24 * nv));
        assert(b.subrange(0, 84 + 24 * nv) + u32_le(out.indices@.len() as u32) =~= b.subrange(
            0,
            88 + 24 * nv,
        ));
        assert(b.subrange(0, 88 + 24 * nv) + indices_le(out.indices@) =~= b.subrange(
            0,
            88 + 24 * nv + 4 * ni,
        ));
        assert(b.subrange(0, 88 + 24 * nv + 4 * ni) + out.material@ =~= b.subrange(
            0,
            104 + 24 * nv + 4 * ni,
        ));
        assert(u32_le(out.collision@.len() as u32) == b.subrange(
            104 + 24 * nv + 4 * ni,
            108 + 24 * nv + 4 * ni,
        ));
        assert(b.subrange(0, 104 + 24 * nv + 4 * ni) + u32_le(out.collision@.len() as u32)
            =~= b.subrange(0, 108 + 24 * nv + 4 * ni));
        assert(b.subrange(0, 108 + 24 * nv + 4 * ni) + tris_le(out.collision@) =~= b.subrange(
            0,
            108 + 24 * nv + 4 * ni + 72 * nt,
        ));
        assert(b.subrange(0, len as int) =~= b);
        assert(spec_serialize(out) == b.subrange(0, 108 + 24 * nv + 4 * ni + 72 * nt));
        assert(spec_serialize(out) == bytes@);
        assert(out.wf());
    }
    Ok(out)
}

} // verus!
