//! The mesh builder: one verified pass from a triangle soup to the fully
//! linked half-edge topology of [`crate::model::build_model`].

use crate::model::{
    build_model, build_upto, lemma_regs_err, lemma_upto_err, lemma_uses_mono, manifold_input,
    regs_upto, step_triangle, tri_valid, und, und_uses, BuildState,
};
use crate::topology::{
    EdgeTopology, FaceTopology, HalfedgeTopology, Mesh, MeshError, Triangle, VertexGeometry,
    VertexTopology,
};
use std::collections::HashMap;
use vstd::prelude::*;

verus! {

broadcast use vstd::std_specs::hash::group_hash_axioms;

/// The directed pair `(a, b)` packed into one lookup key: `a` in the upper
/// and `b` in the lower 64 bits.
pub open spec fn pair_code(a: usize, b: usize) -> u128 {
    ((a as u128) << 64) | (b as u128)
}

/// Packing is injective: vertex indices fit in 64 bits, so distinct pairs
/// get distinct keys.
pub proof fn lemma_pair_code_injective(a: usize, b: usize, c: usize, d: usize)
    ensures
        pair_code(a, b) == pair_code(c, d) ==> a == c && b == d,
{
    let au = a as u128;
    let bu = b as u128;
    let cu = c as u128;
    let du = d as u128;
    assert(((au << 64) | bu) == ((cu << 64) | du) ==> au == cu && bu == du) by (bit_vector)
        requires
            au <= 0xFFFF_FFFF_FFFF_FFFFu128,
            bu <= 0xFFFF_FFFF_FFFF_FFFFu128,
            cu <= 0xFFFF_FFFF_FFFF_FFFFu128,
            du <= 0xFFFF_FFFF_FFFF_FFFFu128,
    ;
}

/// The executable lookup table carries exactly the model's pair-keyed map:
/// the same entries, with each pair packed by [`pair_code`].
pub open spec fn map_abstracts(h: Map<u128, usize>, m: Map<(usize, usize), usize>) -> bool {
    &&& forall|p: (usize, usize)| #[trigger]
        m.contains_key(p) ==> h.contains_key(pair_code(p.0, p.1)) && h[pair_code(p.0, p.1)]
            == m[p]
    &&& forall|k: u128| #[trigger]
        h.contains_key(k) ==> exists|p: (usize, usize)|
            k == pair_code(p.0, p.1) && #[trigger] m.contains_key(p)
}

/// Looking a packed pair up in the table answers exactly the model map.
pub proof fn lemma_abstracts_lookup(
    h: Map<u128, usize>,
    m: Map<(usize, usize), usize>,
    a: usize,
    b: usize,
)
    requires
        map_abstracts(h, m),
    ensures
        h.contains_key(pair_code(a, b)) <==> m.contains_key((a, b)),
        m.contains_key((a, b)) ==> h[pair_code(a, b)] == m[(a, b)],
{
    if h.contains_key(pair_code(a, b)) {
        let p = choose|p: (usize, usize)|
            pair_code(a, b) == pair_code(p.0, p.1) && #[trigger] m.contains_key(p);
        lemma_pair_code_injective(a, b, p.0, p.1);
    }
}

/// Packs the directed pair `(a, b)` into its lookup key.
fn encode_pair(a: usize, b: usize) -> (k: u128)
    ensures
        k == pair_code(a, b),
{
    ((a as u128) << 64) | (b as u128)
}

/// The counting table carries, for every sorted pair traversed so far,
/// exactly its traversal count, and no key for an untraversed pair.
pub open spec fn counts_abstract(h: Map<u128, usize>, tris: Seq<Triangle>, m: int) -> bool {
    &&& (forall|q: (usize, usize)|
        q.0 <= q.1 && #[trigger] und_uses(tris, m, q) > 0 ==> h.contains_key(pair_code(q.0, q.1))
            && h[pair_code(q.0, q.1)] == und_uses(tris, m, q))
    &&& (forall|q: (usize, usize)|
        q.0 <= q.1 && #[trigger] und_uses(tris, m, q) == 0 ==> !h.contains_key(
            pair_code(q.0, q.1),
        ))
}

/// Scans the triangle list and reports whether some undirected vertex pair
/// is emitted by more than two directed edges — the non-manifold condition
/// that rejects the input before anything else is checked.
fn overuse_check(triangles: &Vec<Triangle>) -> (r: bool)
    requires
        3 * triangles@.len() <= usize::MAX,
    ensures
        r == !manifold_input(triangles@),
{
    let ghost tris = triangles@;
    let mut counts: HashMap<u128, usize> = HashMap::new();
    let n_tris: usize = triangles.len();
    let mut i: usize = 0;
    while i < n_tris
        invariant
            i <= n_tris,
            n_tris == tris.len(),
            tris == triangles@,
            3 * tris.len() <= usize::MAX,
            counts_abstract(counts@, tris, 3 * i),
            forall|q: (usize, usize)| #[trigger] und_uses(tris, 3 * i, q) <= 2,
        decreases n_tris - i,
    {
        let t: Triangle = triangles[i];
        let mut slot: usize = 0;
        while slot < 3
            invariant
                slot <= 3,
                i < n_tris,
                n_tris == tris.len(),
                tris == triangles@,
                3 * tris.len() <= usize::MAX,
                t == tris[i as int],
                counts_abstract(counts@, tris, 3 * i + slot),
                forall|q: (usize, usize)| #[trigger] und_uses(tris, 3 * i + slot, q) <= 2,
            decreases 3 - slot,
        {
            let (a, b): (usize, usize) = if slot == 0 {
                (t.0, t.1)
            } else if slot == 1 {
                (t.1, t.2)
            } else {
                (t.2, t.0)
            };
            let (qa, qb): (usize, usize) = if a <= b {
                (a, b)
            } else {
                (b, a)
            };
            let ghost m = 3 * i + slot;
            proof {
                assert(m / 3 == i && m % 3 == slot) by (nonlinear_arith)
                    requires
                        m == 3 * (i as int) + slot,
                        0 <= slot < 3,
                        0 <= i,
                ;
                assert(crate::model::dedge_of(tris[i as int], slot as int) == (a, b));
                assert(und(a, b) == (qa, qb));
                assert(forall|q: (usize, usize)| #[trigger]
                    und_uses(tris, m + 1, q) == und_uses(tris, m, q) + (if (qa, qb) == q {
                        1nat
                    } else {
                        0nat
                    }));
            }
            let code: u128 = encode_pair(qa, qb);
            let prev: usize = match counts.get(&code) {
                Some(c) => *c,
                None => 0,
            };
            proof {
                if counts@.contains_key(code) {
                    assert(und_uses(tris, m, (qa, qb)) > 0) by {
                        if und_uses(tris, m, (qa, qb)) == 0 {
                            assert(!counts@.contains_key(pair_code(qa, qb)));
                        }
                    }
                }
                assert(prev == und_uses(tris, m, (qa, qb)));
            }
            if prev >= 2 {
                proof {
                    assert(und_uses(tris, m + 1, (qa, qb)) == 3);
                    lemma_uses_mono(tris, m + 1, 3 * tris.len() as int, (qa, qb));
                }
                return true;
            }
            counts.insert(code, prev + 1);
            proof {
                assert forall|q: (usize, usize)|
                    q.0 <= q.1 && #[trigger] und_uses(tris, m + 1, q)
                        > 0 implies counts@.contains_key(pair_code(q.0, q.1))
                    && counts@[pair_code(q.0, q.1)] == und_uses(tris, m + 1, q) by {
                    if q != (qa, qb) {
                        lemma_pair_code_injective(q.0, q.1, qa, qb);
                    }
                }
                assert forall|q: (usize, usize)|
                    q.0 <= q.1 && #[trigger] und_uses(tris, m + 1, q)
                        == 0 implies !counts@.contains_key(pair_code(q.0, q.1)) by {
                    if q != (qa, qb) {
                        lemma_pair_code_injective(q.0, q.1, qa, qb);
                    }
                }
            }
            slot += 1;
        }
        i += 1;
    }
    proof {
        assert(3 * (i as int) == 3 * tris.len() as int);
        assert(manifold_input(tris));
    }
    false
}

impl<P: Copy> Mesh<P> {
    /// Builds the half-edge topology over `points` from the consistently
    /// wound triangle list `triangles`.
    ///
    /// A non-manifold input — some undirected vertex pair emitted by more
    /// than two triangles — is rejected outright, before any other
    /// violation is considered. On success the returned mesh is exactly the
    /// state of the abstract construction [`build_model`], with one
    /// geometry record per input point; on failure the returned error is
    /// exactly the model's error, and no partial mesh is exposed.
    pub fn new(points: Vec<P>, triangles: Vec<Triangle>) -> (r: Result<Mesh<P>, MeshError>)
        requires
            3 * triangles@.len() <= usize::MAX,
        ensures
            match r {
                Ok(m) => {
                    &&& build_model(points@.len(), triangles@) matches Ok(s)
                        && m@.vertices == s.vertices && m@.halfedges == s.halfedges && m@.edges
                        == s.edges && m@.faces == s.faces
                    &&& m@.vertex_data.len() == points@.len()
                    &&& forall|v: int|
                        0 <= v < points@.len() ==> (#[trigger] m@.vertex_data[v]).id == v
                            && m@.vertex_data[v].position == points@[v]
                    &&& m@.vertices.len() == points@.len()
                    &&& m@.faces.len() == triangles@.len()
                    &&& m@.halfedges.len() == 3 * triangles@.len()
                    &&& m.mesh_id() == 1
                },
                Err(e) => build_model(points@.len(), triangles@) == Err::<
                    BuildState,
                    MeshError,
                >(e),
            },
    {
        let ghost n = points@.len();
        let ghost tris = triangles@;
        if overuse_check(&triangles) {
            return Err(MeshError::NonManifoldEdge);
        }
        let n_points: usize = points.len();

        let mut vertex_data: Vec<VertexGeometry<P>> = Vec::new();
        let mut vi: usize = 0;
        while vi < n_points
            invariant
                vi <= n_points,
                n_points == points@.len(),
                vertex_data@.len() == vi,
                forall|v: int|
                    0 <= v < vi ==> (#[trigger] vertex_data@[v]).id == v
                        && vertex_data@[v].position == points@[v],
            decreases n_points - vi,
        {
            vertex_data.push(VertexGeometry { id: vi, position: points[vi] });
            vi += 1;
        }

        let mut vertices: Vec<VertexTopology> = Vec::new();
        let mut vj: usize = 0;
        while vj < n_points
            invariant
                vj <= n_points,
                vertices@.len() == vj,
                forall|v: int|
                    0 <= v < vj ==> vertices@[v] == (VertexTopology {
                        id: v as usize,
                        outgoing_halfedge: None::<usize>,
                    }),
            decreases n_points - vj,
        {
            vertices.push(VertexTopology { id: vj, outgoing_halfedge: None });
            vj += 1;
        }
        proof {
            assert(vertices@ =~= crate::model::initial_state(n).vertices);
            assert(build_upto(n, tris, 0) == Ok::<BuildState, MeshError>(
                crate::model::initial_state(n),
            ));
        }

        let mut halfedges: Vec<HalfedgeTopology> = Vec::new();
        let mut edges: Vec<EdgeTopology> = Vec::new();
        let mut faces: Vec<FaceTopology> = Vec::new();
        let mut edge_map: HashMap<u128, usize> = HashMap::new();

        let n_tris: usize = triangles.len();
        let mut i: usize = 0;
        while i < n_tris
            invariant
                i <= n_tris,
                n_tris == tris.len(),
                tris == triangles@,
                3 * tris.len() <= usize::MAX,
                manifold_input(tris),
                n == n_points,
                n == points@.len(),
                n_points == vertices@.len(),
                vertex_data@.len() == n,
                forall|v: int|
                    0 <= v < n ==> (#[trigger] vertex_data@[v]).id == v
                        && vertex_data@[v].position == points@[v],
                build_upto(n, tris, i as int) is Ok,
                ({
                    let s = build_upto(n, tris, i as int)->Ok_0;
                    &&& vertices@ == s.vertices
                    &&& halfedges@ == s.halfedges
                    &&& edges@ == s.edges
                    &&& faces@ == s.faces
                    &&& map_abstracts(edge_map@, s.edge_map)
                    &&& forall|p: (usize, usize)| #[trigger]
                        s.edge_map.contains_key(p) ==> s.edge_map[p] < edges@.len()
                }),
                forall|v: int| 0 <= v < vertices@.len() ==> (#[trigger] vertices@[v]).id == v,
                halfedges@.len() == 3 * i,
                faces@.len() == i,
                forall|j: int|
                    0 <= j < edges@.len() ==> (#[trigger] edges@[j]).id == j && edges@[j].halves.0
                        < halfedges@.len() && (edges@[j].halves.1 matches Some(h1) ==> h1
                        < halfedges@.len()),
            decreases n_tris - i,
        {
            let t: Triangle = triangles[i];
            let ghost s_pre = build_upto(n, tris, i as int)->Ok_0;
            if !(t.0 < n_points && t.1 < n_points && t.2 < n_points && t.0 != t.1 && t.1 != t.2
                && t.0 != t.2) {
                proof {
                    assert(!tri_valid(t, n));
                    assert(s_pre.vertices.len() == n);
                    assert(step_triangle(s_pre, tris[i as int], i) == Err::<
                        BuildState,
                        MeshError,
                    >(MeshError::InvalidTopology));
                    assert(build_upto(n, tris, i + 1) == Err::<BuildState, MeshError>(
                        MeshError::InvalidTopology,
                    ));
                    lemma_upto_err(n, tris, i + 1, tris.len() as int, MeshError::InvalidTopology);
                }
                return Err(MeshError::InvalidTopology);
            }
            let base: usize = halfedges.len();
            faces.push(FaceTopology { id: i, start_halfedge: base });
            let ghost s0 = BuildState {
                faces: s_pre.faces.push(FaceTopology { id: i, start_halfedge: base }),
                ..s_pre
            };
            let mut slot: usize = 0;
            while slot < 3
                invariant
                    slot <= 3,
                    i < n_tris,
                    n_tris == tris.len(),
                    tris == triangles@,
                    3 * tris.len() <= usize::MAX,
                    manifold_input(tris),
                    n == n_points,
                    n == points@.len(),
                    n_points == vertices@.len(),
                    s_pre.vertices.len() == n,
                    t == tris[i as int],
                    tri_valid(t, n),
                    build_upto(n, tris, i as int) == Ok::<BuildState, MeshError>(s_pre),
                    base == 3 * i,
                    s_pre.halfedges.len() == base,
                    s0 == (BuildState {
                        faces: s_pre.faces.push(FaceTopology { id: i, start_halfedge: base }),
                        ..s_pre
                    }),
                    regs_upto(s0, t, i, base, slot as int) is Ok,
                    ({
                        let cur = regs_upto(s0, t, i, base, slot as int)->Ok_0;
                        &&& vertices@ == cur.vertices
                        &&& halfedges@ == cur.halfedges
                        &&& edges@ == cur.edges
                        &&& faces@ == cur.faces
                        &&& map_abstracts(edge_map@, cur.edge_map)
                        &&& forall|p: (usize, usize)| #[trigger]
                            cur.edge_map.contains_key(p) ==> cur.edge_map[p] < edges@.len()
                    }),
                    forall|v: int| 0 <= v < vertices@.len() ==> (#[trigger] vertices@[v]).id == v,
                    halfedges@.len() == 3 * i + slot,
                    faces@.len() == i + 1,
                    forall|j: int|
                        0 <= j < edges@.len() ==> (#[trigger] edges@[j]).id == j
                            && edges@[j].halves.0 < halfedges@.len() && (edges@[j].halves.1
                            matches Some(h1) ==> h1 < halfedges@.len()),
                decreases 3 - slot,
            {
                let (tail, tip): (usize, usize) = if slot == 0 {
                    (t.0, t.1)
                } else if slot == 1 {
                    (t.1, t.2)
                } else {
                    (t.2, t.0)
                };
                let nxt: usize = if slot == 2 {
                    base
                } else {
                    base + slot + 1
                };
                let id: usize = halfedges.len();
                let ghost cur = regs_upto(s0, t, i, base, slot as int)->Ok_0;
                proof {
                    assert(crate::model::dedge_of(t, slot as int) == (tail, tip));
                    assert(crate::model::next_of(base, slot as int) == nxt);
                    lemma_abstracts_lookup(edge_map@, cur.edge_map, tip, tail);
                }
                let rev_code: u128 = encode_pair(tip, tail);
                if edge_map.contains_key(&rev_code) {
                    let e: usize = *edge_map.get(&rev_code).unwrap();
                    proof {
                        assert(cur.edge_map.contains_key((tip, tail)));
                        assert(e == cur.edge_map[(tip, tail)]);
                        assert(e < edges@.len());
                    }
                    let first_half: usize = edges[e].halves.0;
                    if edges[e].halves.1.is_some() {
                        proof {
                            assert(regs_upto(s0, t, i, base, slot + 1) == Err::<
                                BuildState,
                                MeshError,
                            >(MeshError::InconsistentWinding));
                            lemma_regs_err(
                                s0,
                                t,
                                i,
                                base,
                                slot + 1,
                                MeshError::InconsistentWinding,
                            );
                            assert(s_pre.halfedges.len() as usize == base);
                            assert(step_triangle(s_pre, tris[i as int], i) == Err::<
                                BuildState,
                                MeshError,
                            >(MeshError::InconsistentWinding));
                            assert(build_upto(n, tris, i + 1) == Err::<BuildState, MeshError>(
                                MeshError::InconsistentWinding,
                            ));
                            lemma_upto_err(
                                n,
                                tris,
                                i + 1,
                                tris.len() as int,
                                MeshError::InconsistentWinding,
                            );
                        }
                        return Err(MeshError::InconsistentWinding);
                    }
                    let mut fh: HalfedgeTopology = halfedges[first_half];
                    fh.twin = Some(id);
                    halfedges[first_half] = fh;
                    halfedges.push(
                        HalfedgeTopology {
                            id,
                            tail,
                            tip,
                            twin: Some(first_half),
                            next: nxt,
                            edge: e,
                            face: i,
                        },
                    );
                    let mut ed: EdgeTopology = edges[e];
                    ed.halves = (first_half, Some(id));
                    edges[e] = ed;
                    vertices[tail] = VertexTopology { id: tail, outgoing_halfedge: Some(id) };
                } else {
                    proof {
                        lemma_abstracts_lookup(edge_map@, cur.edge_map, tail, tip);
                    }
                    let fwd_code: u128 = encode_pair(tail, tip);
                    if edge_map.contains_key(&fwd_code) {
                        let e: usize = *edge_map.get(&fwd_code).unwrap();
                        proof {
                            assert(e == cur.edge_map[(tail, tip)]);
                            assert(e < edges@.len());
                        }
                        let err: MeshError = if edges[e].halves.1.is_some() {
                            MeshError::NonManifoldEdge
                        } else {
                            MeshError::InconsistentWinding
                        };
                        proof {
                            assert(regs_upto(s0, t, i, base, slot + 1) == Err::<
                                BuildState,
                                MeshError,
                            >(err));
                            lemma_regs_err(s0, t, i, base, slot + 1, err);
                            assert(s_pre.halfedges.len() as usize == base);
                            assert(step_triangle(s_pre, tris[i as int], i) == Err::<
                                BuildState,
                                MeshError,
                            >(err));
                            assert(build_upto(n, tris, i + 1) == Err::<BuildState, MeshError>(
                                err,
                            ));
                            lemma_upto_err(n, tris, i + 1, tris.len() as int, err);
                        }
                        return Err(err);
                    } else {
                        let eid: usize = edges.len();
                        edge_map.insert(fwd_code, eid);
                        edges.push(EdgeTopology { id: eid, halves: (id, None) });
                        halfedges.push(
                            HalfedgeTopology {
                                id,
                                tail,
                                tip,
                                twin: None,
                                next: nxt,
                                edge: eid,
                                face: i,
                            },
                        );
                        vertices[tail] = VertexTopology { id: tail, outgoing_halfedge: Some(id) };
                        proof {
                            let h2 = edge_map@;
                            let m2 = cur.edge_map.insert((tail, tip), eid);
                            assert forall|p: (usize, usize)| #[trigger]
                                m2.contains_key(p) implies h2.contains_key(pair_code(p.0, p.1))
                                && h2[pair_code(p.0, p.1)] == m2[p] by {
                                if p != (tail, tip) {
                                    lemma_pair_code_injective(p.0, p.1, tail, tip);
                                }
                            }
                            assert forall|k: u128| #[trigger]
                                h2.contains_key(k) implies exists|p: (usize, usize)|
                                k == pair_code(p.0, p.1) && #[trigger] m2.contains_key(p) by {
                                if k == pair_code(tail, tip) {
                                    assert(m2.contains_key((tail, tip)));
                                } else {
                                    let p = choose|p: (usize, usize)|
                                        k == pair_code(p.0, p.1) && #[trigger]
                                        cur.edge_map.contains_key(p);
                                    assert(m2.contains_key(p));
                                }
                            }
                            assert(map_abstracts(h2, m2));
                        }
                    }
                }
                proof {
                    assert(regs_upto(s0, t, i, base, slot + 1) is Ok);
                }
                slot += 1;
            }
            proof {
                let s_post = regs_upto(s0, t, i, base, 3)->Ok_0;
                assert(s_pre.halfedges.len() as usize == base);
                assert(step_triangle(s_pre, tris[i as int], i) == Ok::<BuildState, MeshError>(
                    s_post,
                ));
                assert(build_upto(n, tris, i + 1) == Ok::<BuildState, MeshError>(s_post));
            }
            i += 1;
        }
        proof {
            assert(build_model(n, tris) == build_upto(n, tris, i as int));
        }
        Ok(Mesh::assemble(1, vertex_data, vertices, halfedges, edges, faces))
    }
}

} // verus!
