//! The scene importer: turns an authored node graph into world-space
//! triangles, or fails loudly.
//!
//! A scene document holds mesh buffers and a node graph; each node may
//! reference a parent (authored before it) and a mesh.  Transforms are
//! translations in fixed-point world units, composed exactly as authored:
//! a node's world translation is its parent's world translation plus its
//! local one, with no implicit coordinate-system conversion.

use vstd::prelude::*;
use vstd::arithmetic::div_mod::lemma_fundamental_div_mod;
use crate::geom::COORD_LIMIT;
use crate::geom::Triangle;
use crate::geom::Vec3;

verus! {

/// The one primitive topology the pipeline accepts: separate triangles.
pub const TOPOLOGY_TRIANGLES: u32 = 4;

/// One mesh buffer: a topology tag, vertices, and indices into them
/// (three per triangle).
pub struct MeshData {
    /// Primitive topology tag; only `TOPOLOGY_TRIANGLES` is supported.
    pub topology: u32,
    /// Mesh-local vertex positions.
    pub vertices: Vec<Vec3>,
    /// Vertex indices, three per triangle.
    pub indices: Vec<u32>,
}

/// One scene node: an optional parent authored before it, a local
/// translation, and an optional mesh instance.
pub struct Node {
    /// Index of the parent node; must be smaller than this node's own index.
    pub parent: Option<usize>,
    /// Local translation relative to the parent.
    pub translation: Vec3,
    /// Index of the mesh this node instances, if any.
    pub mesh: Option<usize>,
}

/// An authored scene: mesh buffers plus a node graph.
pub struct SceneDoc {
    /// The mesh buffers.
    pub meshes: Vec<MeshData>,
    /// The node graph, parents before children.
    pub nodes: Vec<Node>,
}

/// Why a scene could not be imported.  Import failures are fatal at build
/// time: the build stops rather than emit a partial chunk store.
#[derive(Clone, Copy, Debug, PartialEq, Eq, Structural)]
pub enum ImportError {
    /// A node references a parent not authored before it, or a mesh's index
    /// count is not a multiple of three.
    MalformedContainer,
    /// A mesh uses a primitive topology other than separate triangles.
    UnsupportedTopology,
    /// A node references a missing mesh, or an index references a missing
    /// vertex.
    MissingBuffer,
    /// A composed world-space position leaves the representable world.
    OutOfBoundsGeometry,
}

/// Parents come before their children and index counts are whole triangles.
pub open spec fn container_ok(doc: SceneDoc) -> bool {
    &&& forall|i: int|
        0 <= i < doc.nodes@.len() ==> (match (#[trigger] doc.nodes@[i]).parent {
            Option::Some(p) => p < i,
            Option::None => true,
        })
    &&& forall|m: int|
        0 <= m < doc.meshes@.len() ==> (#[trigger] doc.meshes@[m]).indices@.len() % 3 == 0
}

/// Every mesh uses the supported topology.
pub open spec fn topology_ok(doc: SceneDoc) -> bool {
    forall|m: int|
        0 <= m < doc.meshes@.len() ==> (#[trigger] doc.meshes@[m]).topology == TOPOLOGY_TRIANGLES
}

/// Every referenced buffer exists: node meshes and vertex indices in range.
pub open spec fn buffers_ok(doc: SceneDoc) -> bool {
    &&& forall|i: int|
        0 <= i < doc.nodes@.len() ==> (match (#[trigger] doc.nodes@[i]).mesh {
            Option::Some(m) => m < doc.meshes@.len(),
            Option::None => true,
        })
    &&& forall|m: int, j: int|
        0 <= m < doc.meshes@.len() && 0 <= j < doc.meshes@[m].indices@.len() ==> (
        #[trigger] doc.meshes@[m].indices@[j]) < doc.meshes@[m].vertices@.len()
}

/// The exact world translation of node `i`: the authored composition of
/// local translations up the parent chain, in unbounded integers.
pub open spec fn node_world(nodes: Seq<Node>, i: int) -> (int, int, int)
    decreases i when 0 <= i
{
    if 0 <= i < nodes.len() {
        let local = nodes[i].translation;
        match nodes[i].parent {
            Option::Some(p) => if p < i {
                let w = node_world(nodes, p as int);
                (w.0 + local.x, w.1 + local.y, w.2 + local.z)
            } else {
                (local.x as int, local.y as int, local.z as int)
            },
            Option::None => (local.x as int, local.y as int, local.z as int),
        }
    } else {
        (0, 0, 0)
    }
}

/// Every local translation, composed node translation, mesh vertex and
/// transformed vertex stays within the representable world.
pub open spec fn geometry_ok(doc: SceneDoc) -> bool {
    &&& forall|i: int|
        0 <= i < doc.nodes@.len() ==> (#[trigger] doc.nodes@[i]).translation.in_bounds()
    &&& forall|i: int|
        0 <= i < doc.nodes@.len() ==> {
            let w = #[trigger] node_world(doc.nodes@, i);
            -COORD_LIMIT <= w.0 <= COORD_LIMIT && -COORD_LIMIT <= w.1 <= COORD_LIMIT
                && -COORD_LIMIT <= w.2 <= COORD_LIMIT
        }
    &&& forall|m: int, k: int|
        0 <= m < doc.meshes@.len() && 0 <= k < doc.meshes@[m].vertices@.len() ==> (
        #[trigger] doc.meshes@[m].vertices@[k]).in_bounds()
    &&& forall|i: int, k: int|
        0 <= i < doc.nodes@.len() && doc.nodes@[i].mesh is Some && 0 <= k
            < doc.meshes@[doc.nodes@[i].mesh.unwrap() as int].vertices@.len() ==> {
            let w = node_world(doc.nodes@, i);
            let v = #[trigger] doc.meshes@[doc.nodes@[i].mesh.unwrap() as int].vertices@[k];
            -COORD_LIMIT <= w.0 + v.x <= COORD_LIMIT && -COORD_LIMIT <= w.1 + v.y <= COORD_LIMIT
                && -COORD_LIMIT <= w.2 + v.z <= COORD_LIMIT
        }
}

/// The world-space triangles of one mesh instance at world translation `w`.
pub open spec fn mesh_world_tris(mesh: MeshData, w: (int, int, int)) -> Seq<Triangle> {
    Seq::new(
        (mesh.indices@.len() / 3) as nat,
        |k: int|
            Triangle {
                a: Vec3 {
                    x: (mesh.vertices@[mesh.indices@[3 * k] as int].x + w.0) as i64,
                    y: (mesh.vertices@[mesh.indices@[3 * k] as int].y + w.1) as i64,
                    z: (mesh.vertices@[mesh.indices@[3 * k] as int].z + w.2) as i64,
                },
                b: Vec3 {
                    x: (mesh.vertices@[mesh.indices@[3 * k + 1] as int].x + w.0) as i64,
                    y: (mesh.vertices@[mesh.indices@[3 * k + 1] as int].y + w.1) as i64,
                    z: (mesh.vertices@[mesh.indices@[3 * k + 1] as int].z + w.2) as i64,
                },
                c: Vec3 {
                    x: (mesh.vertices@[mesh.indices@[3 * k + 2] as int].x + w.0) as i64,
                    y: (mesh.vertices@[mesh.indices@[3 * k + 2] as int].y + w.1) as i64,
                    z: (mesh.vertices@[mesh.indices@[3 * k + 2] as int].z + w.2) as i64,
                },
            },
    )
}

/// All world-space triangles of the first `n` nodes, in authoring order.
pub open spec fn scene_tris(doc: SceneDoc, n: int) -> Seq<Triangle>
    decreases n,
{
    if n <= 0 {
        Seq::empty()
    } else {
        scene_tris(doc, n - 1) + (match doc.nodes@[n - 1].mesh {
            Option::Some(m) => mesh_world_tris(
                doc.meshes@[m as int],
                node_world(doc.nodes@, n - 1),
            ),
            Option::None => Seq::empty(),
        })
    }
}

/// Imports a scene: validates the container, topology, buffer references
/// and world bounds, then flattens the node graph into world-space
/// triangles, in authoring order.  Succeeds exactly when the document is
/// valid; every failure names the first violated condition, checked in the
/// order container, topology, buffers, bounds.  No side effects.
#[verifier::rlimit(100)]
pub fn import_scene(doc: &SceneDoc) -> (r: Result<Vec<Triangle>, ImportError>)
    ensures
        r is Ok <==> container_ok(*doc) && topology_ok(*doc) && buffers_ok(*doc) && geometry_ok(
            *doc,
        ),
        r matches Ok(tris) ==> tris@ == scene_tris(*doc, doc.nodes@.len() as int) && forall|j: int|
            0 <= j < tris@.len() ==> (#[trigger] tris@[j]).in_bounds(),
        r == Err::<Vec<Triangle>, ImportError>(ImportError::MalformedContainer) <==> !container_ok(
            *doc,
        ),
        r == Err::<Vec<Triangle>, ImportError>(ImportError::UnsupportedTopology) <==> (
        container_ok(*doc) && !topology_ok(*doc)),
        r == Err::<Vec<Triangle>, ImportError>(ImportError::MissingBuffer) <==> (container_ok(
            *doc,
        ) && topology_ok(*doc) && !buffers_ok(*doc)),
        r == Err::<Vec<Triangle>, ImportError>(ImportError::OutOfBoundsGeometry) <==> (
        container_ok(*doc) && topology_ok(*doc) && buffers_ok(*doc) && !geometry_ok(*doc)),
{
    let nn: usize = doc.nodes.len();
    let nm: usize = doc.meshes.len();
    let mut i: usize = 0;
    while i < nn
        invariant
            i <= nn,
            nn == doc.nodes@.len(),
            forall|j: int|
                0 <= j < i ==> (match (#[trigger] doc.nodes@[j]).parent {
                    Option::Some(p) => p < j,
                    Option::None => true,
                }),
        decreases nn - i,
    {
        match doc.nodes[i].parent {
            Option::Some(p) => {
                if p >= i {
                    proof {
                        assert(doc.nodes@[i as int].parent == Some(p));
                        assert(!container_ok(*doc));
                    }
                    return Err(ImportError::MalformedContainer);
                }
            },
            Option::None => {},
        }
        i = i + 1;
    }
    let mut m: usize = 0;
    while m < nm
        invariant
            m <= nm,
            nn == doc.nodes@.len(),
            nm == doc.meshes@.len(),
            forall|j: int|
                0 <= j < nn ==> (match (#[trigger] doc.nodes@[j]).parent {
                    Option::Some(p) => p < j,
                    Option::None => true,
                }),
            forall|j: int| 0 <= j < m ==> (#[trigger] doc.meshes@[j]).indices@.len() % 3 == 0,
        decreases nm - m,
    {
        if doc.meshes[m].indices.len() % 3 != 0 {
            proof {
                assert(doc.meshes@[m as int].indices@.len() % 3 != 0);
                assert(!container_ok(*doc));
            }
            return Err(ImportError::MalformedContainer);
        }
        m = m + 1;
    }
    proof {
        assert(container_ok(*doc));
    }
    let mut m2: usize = 0;
    while m2 < nm
        invariant
            m2 <= nm,
            nm == doc.meshes@.len(),
            container_ok(*doc),
            forall|j: int|
                0 <= j < m2 ==> (#[trigger] doc.meshes@[j]).topology == TOPOLOGY_TRIANGLES,
        decreases nm - m2,
    {
        if doc.meshes[m2].topology != TOPOLOGY_TRIANGLES {
            proof {
                assert(doc.meshes@[m2 as int].topology != TOPOLOGY_TRIANGLES);
                assert(!topology_ok(*doc));
            }
            return Err(ImportError::UnsupportedTopology);
        }
        m2 = m2 + 1;
    }
    let mut i2: usize = 0;
    while i2 < nn
        invariant
            i2 <= nn,
            nn == doc.nodes@.len(),
            nm == doc.meshes@.len(),
            container_ok(*doc),
            topology_ok(*doc),
            forall|j: int|
                0 <= j < i2 ==> (match (#[trigger] doc.nodes@[j]).mesh {
                    Option::Some(mm) => mm < doc.meshes@.len(),
                    Option::None => true,
                }),
        decreases nn - i2,
    {
        match doc.nodes[i2].mesh {
            Option::Some(mm) => {
                if mm >= nm {
                    proof {
                        assert(doc.nodes@[i2 as int].mesh == Some(mm));
                        assert(!buffers_ok(*doc));
                    }
                    return Err(ImportError::MissingBuffer);
                }
            },
            Option::None => {},
        }
        i2 = i2 + 1;
    }
    let mut m3: usize = 0;
    while m3 < nm
        invariant
            m3 <= nm,
            nn == doc.nodes@.len(),
            nm == doc.meshes@.len(),
            container_ok(*doc),
            topology_ok(*doc),
            forall|j: int|
                0 <= j < nn ==> (match (#[trigger] doc.nodes@[j]).mesh {
                    Option::Some(mm) => mm < doc.meshes@.len(),
                    Option::None => true,
                }),
            forall|mj: int, j: int|
                0 <= mj < m3 && 0 <= j < doc.meshes@[mj].indices@.len() ==> (
                #[trigger] doc.meshes@[mj].indices@[j]) < doc.meshes@[mj].vertices@.len(),
        decreases nm - m3,
    {
        let mesh = &doc.meshes[m3];
        let ni: usize = mesh.indices.len();
        let nv: usize = mesh.vertices.len();
        let mut j: usize = 0;
        while j < ni
            invariant
                j <= ni,
                m3 < nm,
                nm == doc.meshes@.len(),
                container_ok(*doc),
                topology_ok(*doc),
                mesh == doc.meshes@[m3 as int],
                ni == mesh.indices@.len(),
                nv == mesh.vertices@.len(),
                forall|q: int|
                    0 <= q < j ==> (#[trigger] mesh.indices@[q]) < mesh.vertices@.len(),
            decreases ni - j,
        {
            if mesh.indices[j] as usize >= nv {
                proof {
                    assert(doc.meshes@[m3 as int].indices@[j as int] >= doc.meshes@[m3
                        as int].vertices@.len());
                    assert(!buffers_ok(*doc));
                }
                return Err(ImportError::MissingBuffer);
            }
            j = j + 1;
        }
        proof {
            assert(forall|q: int|
                0 <= q < doc.meshes@[m3 as int].indices@.len() ==> (
                #[trigger] doc.meshes@[m3 as int].indices@[q])
                    < doc.meshes@[m3 as int].vertices@.len());
        }
        m3 = m3 + 1;
    }
    proof {
        assert(buffers_ok(*doc));
    }
    let mut m4: usize = 0;
    while m4 < nm
        invariant
            m4 <= nm,
            nm == doc.meshes@.len(),
            container_ok(*doc),
            topology_ok(*doc),
            buffers_ok(*doc),
            forall|mj: int, k: int|
                0 <= mj < m4 && 0 <= k < doc.meshes@[mj].vertices@.len() ==> (
                #[trigger] doc.meshes@[mj].vertices@[k]).in_bounds(),
        decreases nm - m4,
    {
        let mesh = &doc.meshes[m4];
        let nv: usize = mesh.vertices.len();
        let mut k: usize = 0;
        while k < nv
            invariant
                k <= nv,
                m4 < nm,
                nm == doc.meshes@.len(),
                container_ok(*doc),
                topology_ok(*doc),
                buffers_ok(*doc),
                mesh == doc.meshes@[m4 as int],
                nv == mesh.vertices@.len(),
                forall|q: int| 0 <= q < k ==> (#[trigger] mesh.vertices@[q]).in_bounds(),
            decreases nv - k,
        {
            let v = &mesh.vertices[k];
            if v.x > COORD_LIMIT || v.x < -COORD_LIMIT || v.y > COORD_LIMIT || v.y < -COORD_LIMIT
                || v.z > COORD_LIMIT || v.z < -COORD_LIMIT {
                proof {
                    assert(!(doc.meshes@[m4 as int].vertices@[k as int].in_bounds()));
                    assert(!geometry_ok(*doc));
                }
                return Err(ImportError::OutOfBoundsGeometry);
            }
            k = k + 1;
        }
        proof {
            assert(forall|q: int|
                0 <= q < doc.meshes@[m4 as int].vertices@.len() ==> (
                #[trigger] doc.meshes@[m4 as int].vertices@[q]).in_bounds());
        }
        m4 = m4 + 1;
    }
    let mut worlds: Vec<Vec3> = Vec::new();
    let mut i3: usize = 0;
    while i3 < nn
        invariant
            i3 <= nn,
            nn == doc.nodes@.len(),
            nm == doc.meshes@.len(),
            container_ok(*doc),
            topology_ok(*doc),
            buffers_ok(*doc),
            forall|mj: int, k: int|
                0 <= mj < nm && 0 <= k < doc.meshes@[mj].vertices@.len() ==> (
                #[trigger] doc.meshes@[mj].vertices@[k]).in_bounds(),
            worlds@.len() == i3,
            forall|j: int|
                0 <= j < i3 ==> (#[trigger] doc.nodes@[j]).translation.in_bounds(),
            forall|j: int|
                0 <= j < i3 ==> {
                    let w = #[trigger] node_world(doc.nodes@, j);
                    worlds@[j].x == w.0 && worlds@[j].y == w.1 && worlds@[j].z == w.2
                        && worlds@[j].in_bounds()
                },
        decreases nn - i3,
    {
        let node = &doc.nodes[i3];
        let base: Vec3 = match node.parent {
            Option::Some(p) => {
                proof {
                    assert(worlds@[p as int].x == node_world(doc.nodes@, p as int).0);
                }
                worlds[p]
            },
            Option::None => Vec3 { x: 0, y: 0, z: 0 },
        };
        let tx: i64 = node.translation.x;
        let ty: i64 = node.translation.y;
        let tz: i64 = node.translation.z;
        if tx > COORD_LIMIT || tx < -COORD_LIMIT || ty > COORD_LIMIT || ty < -COORD_LIMIT || tz
            > COORD_LIMIT || tz < -COORD_LIMIT {
            proof {
                assert(!(doc.nodes@[i3 as int].translation.in_bounds()));
                assert(!geometry_ok(*doc));
            }
            return Err(ImportError::OutOfBoundsGeometry);
        }
        let wx: i64 = base.x + tx;
        let wy: i64 = base.y + ty;
        let wz: i64 = base.z + tz;
        proof {
            assert(node_world(doc.nodes@, i3 as int).0 == wx && node_world(
                doc.nodes@,
                i3 as int,
            ).1 == wy && node_world(doc.nodes@, i3 as int).2 == wz);
        }
        if wx > COORD_LIMIT || wx < -COORD_LIMIT || wy > COORD_LIMIT || wy < -COORD_LIMIT || wz
            > COORD_LIMIT || wz < -COORD_LIMIT {
            proof {
                assert(!geometry_ok(*doc));
            }
            return Err(ImportError::OutOfBoundsGeometry);
        }
        worlds.push(Vec3 { x: wx, y: wy, z: wz });
        i3 = i3 + 1;
    }
    let mut i5: usize = 0;
    while i5 < nn
        invariant
            i5 <= nn,
            nn == doc.nodes@.len(),
            nm == doc.meshes@.len(),
            container_ok(*doc),
            topology_ok(*doc),
            buffers_ok(*doc),
            worlds@.len() == nn,
            forall|j: int|
                0 <= j < nn ==> (#[trigger] doc.nodes@[j]).translation.in_bounds(),
            forall|j: int|
                0 <= j < nn ==> {
                    let w = #[trigger] node_world(doc.nodes@, j);
                    worlds@[j].x == w.0 && worlds@[j].y == w.1 && worlds@[j].z == w.2
                        && worlds@[j].in_bounds()
                },
            forall|mj: int, k: int|
                0 <= mj < nm && 0 <= k < doc.meshes@[mj].vertices@.len() ==> (
                #[trigger] doc.meshes@[mj].vertices@[k]).in_bounds(),
            forall|j: int, k: int|
                0 <= j < i5 && doc.nodes@[j].mesh is Some && 0 <= k
                    < doc.meshes@[doc.nodes@[j].mesh.unwrap() as int].vertices@.len() ==> {
                    let w = node_world(doc.nodes@, j);
                    let v = #[trigger] doc.meshes@[doc.nodes@[j].mesh.unwrap()
                        as int].vertices@[k];
                    -COORD_LIMIT <= w.0 + v.x <= COORD_LIMIT && -COORD_LIMIT <= w.1 + v.y
                        <= COORD_LIMIT && -COORD_LIMIT <= w.2 + v.z <= COORD_LIMIT
                },
        decreases nn - i5,
    {
        let node = &doc.nodes[i5];
        proof {
            assert(worlds@[i5 as int].x == node_world(doc.nodes@, i5 as int).0);
        }
        match node.mesh {
            Option::Some(mi) => {
                let mesh = &doc.meshes[mi];
                let w: Vec3 = worlds[i5];
                let nv: usize = mesh.vertices.len();
                let mut k: usize = 0;
                while k < nv
                    invariant
                        k <= nv,
                        nv == mesh.vertices@.len(),
                        i5 < nn,
                        nn == doc.nodes@.len(),
                        container_ok(*doc),
                        topology_ok(*doc),
                        buffers_ok(*doc),
                        doc.nodes@[i5 as int].mesh == Some(mi),
                        mi < doc.meshes@.len(),
                        nm == doc.meshes@.len(),
                        mesh == doc.meshes@[mi as int],
                        w.in_bounds(),
                        w.x == node_world(doc.nodes@, i5 as int).0,
                        w.y == node_world(doc.nodes@, i5 as int).1,
                        w.z == node_world(doc.nodes@, i5 as int).2,
                        forall|q: int|
                            0 <= q < nv ==> (#[trigger] mesh.vertices@[q]).in_bounds(),
                        forall|q: int|
                            0 <= q < k ==> {
                                let v = #[trigger] mesh.vertices@[q];
                                -COORD_LIMIT <= w.x + v.x <= COORD_LIMIT && -COORD_LIMIT <= w.y
                                    + v.y <= COORD_LIMIT && -COORD_LIMIT <= w.z + v.z
                                    <= COORD_LIMIT
                            },
                    decreases nv - k,
                {
                    let v = &mesh.vertices[k];
                    let sx: i64 = w.x + v.x;
                    let sy: i64 = w.y + v.y;
                    let sz: i64 = w.z + v.z;
                    if sx > COORD_LIMIT || sx < -COORD_LIMIT || sy > COORD_LIMIT || sy
                        < -COORD_LIMIT || sz > COORD_LIMIT || sz < -COORD_LIMIT {
                        proof {
                            assert(doc.nodes@[i5 as int].mesh.unwrap() == mi);
                            assert(doc.meshes@[mi as int].vertices@[k as int]
                                == mesh.vertices@[k as int]);
                            assert(!geometry_ok(*doc));
                        }
                        return Err(ImportError::OutOfBoundsGeometry);
                    }
                    k = k + 1;
                }
                proof {
                    assert(forall|q: int|
                        0 <= q < doc.meshes@[doc.nodes@[i5 as int].mesh.unwrap()
                            as int].vertices@.len() ==> {
                            let wj = node_world(doc.nodes@, i5 as int);
                            let v = #[trigger] doc.meshes@[doc.nodes@[i5 as int].mesh.unwrap()
                                as int].vertices@[q];
                            -COORD_LIMIT <= wj.0 + v.x <= COORD_LIMIT && -COORD_LIMIT <= wj.1
                                + v.y <= COORD_LIMIT && -COORD_LIMIT <= wj.2 + v.z <= COORD_LIMIT
                        });
                }
            },
            Option::None => {},
        }
        i5 = i5 + 1;
    }
    proof {
        assert(geometry_ok(*doc));
    }
    let mut tris: Vec<Triangle> = Vec::new();
    let mut i4: usize = 0;
    proof {
        assert(scene_tris(*doc, 0) =~= Seq::<Triangle>::empty());
    }
    while i4 < nn
        invariant
            i4 <= nn,
            nn == doc.nodes@.len(),
            nm == doc.meshes@.len(),
            container_ok(*doc),
            topology_ok(*doc),
            buffers_ok(*doc),
            geometry_ok(*doc),
            worlds@.len() == nn,
            forall|j: int|
                0 <= j < nn ==> {
                    let w = #[trigger] node_world(doc.nodes@, j);
                    worlds@[j].x == w.0 && worlds@[j].y == w.1 && worlds@[j].z == w.2
                        && worlds@[j].in_bounds()
                },
            tris@ == scene_tris(*doc, i4 as int),
            forall|j: int| 0 <= j < tris@.len() ==> (#[trigger] tris@[j]).in_bounds(),
        decreases nn - i4,
    {
        let node = &doc.nodes[i4];
        proof {
            assert(worlds@[i4 as int].x == node_world(doc.nodes@, i4 as int).0);
        }
        match node.mesh {
            Option::Some(mi) => {
                let mesh = &doc.meshes[mi];
                let w: Vec3 = worlds[i4];
                let ghost ws = node_world(doc.nodes@, i4 as int);
                proof {
                    assert(doc.meshes@[mi as int].indices@.len() % 3 == 0);
                    assert forall|q: int|
                        0 <= q < mesh.vertices@.len() implies (
                    #[trigger] mesh.vertices@[q]).in_bounds() && -COORD_LIMIT <= ws.0
                        + mesh.vertices@[q].x <= COORD_LIMIT && -COORD_LIMIT <= ws.1
                        + mesh.vertices@[q].y <= COORD_LIMIT && -COORD_LIMIT <= ws.2
                        + mesh.vertices@[q].z <= COORD_LIMIT by {
                        assert(doc.nodes@[i4 as int].mesh.unwrap() == mi);
                        assert(doc.meshes@[mi as int].vertices@[q] == mesh.vertices@[q]);
                    }
                }
                let ntri: usize = mesh.indices.len() / 3;
                proof {
                    lemma_fundamental_div_mod(mesh.indices@.len() as int, 3);
                    assert(mesh.indices@.len() == 3 * (ntri as int));
                }
                let ghost target = mesh_world_tris(doc.meshes@[mi as int], ws);
                let mut k: usize = 0;
                while k < ntri
                    invariant
                        k <= ntri,
                        nn == doc.nodes@.len(),
                        nm == doc.meshes@.len(),
                        i4 < nn,
                        doc.nodes@[i4 as int].mesh == Some(mi),
                        mi < doc.meshes@.len(),
                        mesh == doc.meshes@[mi as int],
                        buffers_ok(*doc),
                        container_ok(*doc),
                        ntri == mesh.indices@.len() / 3,
                        mesh.indices@.len() == 3 * ntri,
                        mesh.indices@.len() <= usize::MAX,
                        w.x == ws.0 && w.y == ws.1 && w.z == ws.2,
                        target == mesh_world_tris(doc.meshes@[mi as int], ws),
                        target.len() == ntri,
                        forall|q: int|
                            0 <= q < mesh.vertices@.len() ==> (
                            #[trigger] mesh.vertices@[q]).in_bounds() && -COORD_LIMIT <= ws.0
                                + mesh.vertices@[q].x <= COORD_LIMIT && -COORD_LIMIT <= ws.1
                                + mesh.vertices@[q].y <= COORD_LIMIT && -COORD_LIMIT <= ws.2
                                + mesh.vertices@[q].z <= COORD_LIMIT,
                        tris@ == scene_tris(*doc, i4 as int) + target.take(k as int),
                        forall|j: int|
                            0 <= j < tris@.len() ==> (#[trigger] tris@[j]).in_bounds(),
                    decreases ntri - k,
                {
                    proof {
                        assert(doc.meshes@[mi as int].indices@[3 * k as int]
                            < doc.meshes@[mi as int].vertices@.len());
                        assert(doc.meshes@[mi as int].indices@[3 * k as int + 1]
                            < doc.meshes@[mi as int].vertices@.len());
                        assert(doc.meshes@[mi as int].indices@[3 * k as int + 2]
                            < doc.meshes@[mi as int].vertices@.len());
                    }
                    let ia: usize = mesh.indices[3 * k] as usize;
                    let ib: usize = mesh.indices[3 * k + 1] as usize;
                    let ic: usize = mesh.indices[3 * k + 2] as usize;
                    let va = &mesh.vertices[ia];
                    let vb = &mesh.vertices[ib];
                    let vc = &mesh.vertices[ic];
                    let t = Triangle {
                        a: Vec3 { x: va.x + w.x, y: va.y + w.y, z: va.z + w.z },
                        b: Vec3 { x: vb.x + w.x, y: vb.y + w.y, z: vb.z + w.z },
                        c: Vec3 { x: vc.x + w.x, y: vc.y + w.y, z: vc.z + w.z },
                    };
                    proof {
                        assert(target[k as int] == t);
                        assert(target.take(k as int + 1) =~= target.take(k as int).push(t));
                    }
                    tris.push(t);
                    k = k + 1;
                }
                proof {
                    assert(target.take(ntri as int) =~= target);
                    assert(tris@ =~= scene_tris(*doc, i4 as int + 1));
                }
            },
            Option::None => {
                proof {
                    assert(tris@ =~= scene_tris(*doc, i4 as int + 1));
                }
            },
        }
        i4 = i4 + 1;
    }
    Ok(tris)
}

} // verus!
