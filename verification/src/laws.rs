//! Invariants of every successfully built mesh, proved by induction over the
//! construction fold of [`crate::model`].

use crate::model::{
    build_model, build_upto, dedge_of, initial_state, lemma_upto_err, lemma_uses_mono,
    lemma_uses_unsorted, manifold_input, next_of, regs_upto, register_halfedge, step_triangle,
    tri_valid, und, und_uses, BuildState,
};
use crate::topology::{FaceTopology, Triangle};
use vstd::prelude::*;

verus! {

/// The half-edge at position `j` carries its own index, belongs to face
/// `j / 3`, links to the following half-edge of that face's loop, and runs
/// along the `j % 3`-th directed edge of that face's triangle.
pub open spec fn halfedge_shape_ok(
    tris: Seq<Triangle>,
    j: int,
    h: crate::topology::HalfedgeTopology,
) -> bool {
    &&& h.id == j
    &&& h.face == j / 3
    &&& h.next == (if j % 3 == 2 {
        j - 2
    } else {
        j + 1
    })
    &&& (h.tail, h.tip) == dedge_of(tris[j / 3], j % 3)
}

/// The vertex record at position `v` carries its own index, and its outgoing
/// half-edge, when assigned, exists and starts at this vertex.
pub open spec fn vertex_wf(s: BuildState, v: int) -> bool {
    let vt = s.vertices[v];
    &&& vt.id == v
    &&& match vt.outgoing_halfedge {
        Some(h) => h < s.halfedges.len() && s.halfedges[h as int].tail == v,
        None => true,
    }
}

/// The half-edge at position `j` names an existing edge that lists `j` as
/// one of its halves.
pub open spec fn halfedge_edge_wf(s: BuildState, j: int) -> bool {
    let e = s.halfedges[j].edge;
    &&& e < s.edges.len()
    &&& (s.edges[e as int].halves.0 == j || s.edges[e as int].halves.1 == Some(j as usize))
}

/// The edge at position `e` carries its own index; its first half exists,
/// points back at it, and is registered in the lookup map under its directed
/// pair. While the second slot is unset the first half has no twin; once
/// set, the two halves are mutual twins running the same vertex pair in
/// opposite directions.
pub open spec fn edge_wf(s: BuildState, e: int) -> bool {
    let ed = s.edges[e];
    let h0 = ed.halves.0;
    &&& ed.id == e
    &&& h0 < s.halfedges.len()
    &&& s.halfedges[h0 as int].edge == e
    &&& s.edge_map.contains_key((s.halfedges[h0 as int].tail, s.halfedges[h0 as int].tip))
    &&& s.edge_map[(s.halfedges[h0 as int].tail, s.halfedges[h0 as int].tip)] == e
    &&& match ed.halves.1 {
        None => s.halfedges[h0 as int].twin is None,
        Some(h1) => {
            &&& h1 < s.halfedges.len()
            &&& h1 != h0
            &&& s.halfedges[h1 as int].edge == e
            &&& s.halfedges[h0 as int].twin == Some(h1)
            &&& s.halfedges[h1 as int].twin == Some(h0)
            &&& s.halfedges[h1 as int].tail == s.halfedges[h0 as int].tip
            &&& s.halfedges[h1 as int].tip == s.halfedges[h0 as int].tail
        },
    }
}

/// Every registered directed pair names an existing edge whose first half
/// runs exactly that pair.
pub open spec fn map_wf(s: BuildState) -> bool {
    forall|p: (usize, usize)| #[trigger]
        s.edge_map.contains_key(p) ==> {
            let e = s.edge_map[p];
            &&& e < s.edges.len()
            &&& s.halfedges[s.edges[e as int].halves.0 as int].tail == p.0
            &&& s.halfedges[s.edges[e as int].halves.0 as int].tip == p.1
        }
}

/// Well-formedness common to every reachable state: `n` vertex records,
/// `nf` face records each starting its own loop, `nh` half-edges of the
/// required shape, and mutually consistent edge and lookup records.
pub open spec fn shape_wf(
    n: nat,
    tris: Seq<Triangle>,
    nf: int,
    nh: int,
    s: BuildState,
) -> bool {
    &&& s.vertices.len() == n
    &&& (forall|v: int| 0 <= v < s.vertices.len() ==> #[trigger] vertex_wf(s, v))
    &&& s.faces.len() == nf
    &&& s.halfedges.len() == nh
    &&& s.edges.len() <= s.halfedges.len()
    &&& (forall|f: int|
        0 <= f < s.faces.len() ==> (#[trigger] s.faces[f]).id == f && s.faces[f].start_halfedge
            == 3 * f)
    &&& (forall|j: int|
        0 <= j < s.halfedges.len() ==> halfedge_shape_ok(tris, j, #[trigger] s.halfedges[j]))
    &&& (forall|j: int| 0 <= j < s.halfedges.len() ==> #[trigger] halfedge_edge_wf(s, j))
    &&& (forall|e: int| 0 <= e < s.edges.len() ==> #[trigger] edge_wf(s, e))
    &&& map_wf(s)
}

/// Well-formedness at a triangle boundary: `k` triangles fully processed.
pub open spec fn state_wf(n: nat, tris: Seq<Triangle>, k: int, s: BuildState) -> bool {
    shape_wf(n, tris, k, 3 * k, s)
}

/// Well-formedness in the middle of triangle `k`: its face record is
/// appended and `slot` of its directed edges are registered.
pub open spec fn mid_wf(n: nat, tris: Seq<Triangle>, k: int, slot: int, s: BuildState) -> bool {
    shape_wf(n, tris, k + 1, 3 * k + slot, s)
}

/// Registering one directed edge preserves well-formedness.
proof fn lemma_register_wf(
    n: nat,
    tris: Seq<Triangle>,
    k: int,
    slot: int,
    s: BuildState,
    s2: BuildState,
)
    requires
        0 <= k < tris.len(),
        3 * tris.len() <= usize::MAX,
        n <= usize::MAX,
        0 <= slot < 3,
        tri_valid(tris[k], n),
        mid_wf(n, tris, k, slot, s),
        register_halfedge(
            s,
            dedge_of(tris[k], slot).0,
            dedge_of(tris[k], slot).1,
            next_of((3 * k) as usize, slot),
            k as usize,
        ) == Ok::<BuildState, crate::topology::MeshError>(s2),
    ensures
        mid_wf(n, tris, k, slot + 1, s2),
{
    let t = tris[k];
    let tail = dedge_of(t, slot).0;
    let tip = dedge_of(t, slot).1;
    let id = s.halfedges.len() as usize;
    let j = 3 * k + slot;
    assert(id == j);
    assert(j / 3 == k && j % 3 == slot) by (nonlinear_arith)
        requires
            j == 3 * k + slot,
            0 <= slot < 3,
            0 <= k,
    ;
    assert(tail < n && tip < n && tail != tip);
    if s.edge_map.contains_key((tip, tail)) {
        let e = s.edge_map[(tip, tail)];
        assert(e < s.edges.len());
        assert(edge_wf(s, e as int));
        let first = s.edges[e as int].halves.0;
        assert(s.halfedges[first as int].tail == tip && s.halfedges[first as int].tip == tail);
        assert(s.edges[e as int].halves.1 is None);
        assert(s.halfedges[first as int].twin is None);
        assert(first < id);
        // the updated state
        assert(s2.vertices.len() == s.vertices.len());
        assert(s2.halfedges.len() == j + 1);
        assert(s2.faces == s.faces);
        assert(s2.edges.len() == s.edges.len());
        assert(s2.edge_map == s.edge_map);
        assert forall|v: int| 0 <= v < s2.vertices.len() implies #[trigger] vertex_wf(s2, v) by {
            assert(vertex_wf(s, v));
            if v == tail {
            } else {
                assert(s2.vertices[v] == s.vertices[v]);
            }
        }
        assert forall|j2: int|
            0 <= j2 < s2.halfedges.len() implies halfedge_shape_ok(
            tris,
            j2,
            #[trigger] s2.halfedges[j2],
        ) by {
            if j2 == j {
            } else if j2 == first {
                assert(halfedge_shape_ok(tris, j2, s.halfedges[j2]));
            } else {
                assert(s2.halfedges[j2] == s.halfedges[j2]);
                assert(halfedge_shape_ok(tris, j2, s.halfedges[j2]));
            }
        }
        assert forall|j2: int| 0 <= j2 < s2.halfedges.len() implies #[trigger] halfedge_edge_wf(
            s2,
            j2,
        ) by {
            if j2 == j {
                assert(s2.edges[e as int].halves.1 == Some(id));
            } else {
                assert(halfedge_edge_wf(s, j2));
                let e2 = s.halfedges[j2].edge;
                assert(s2.halfedges[j2].edge == e2);
                if e2 == e {
                    assert(s2.edges[e as int].halves.0 == first);
                    assert(s.edges[e2 as int].halves.1 is None);
                    assert(j2 == first);
                } else {
                    assert(s2.edges[e2 as int] == s.edges[e2 as int]);
                }
            }
        }
        assert forall|e2: int| 0 <= e2 < s2.edges.len() implies #[trigger] edge_wf(s2, e2) by {
            assert(edge_wf(s, e2));
            let h0 = s.edges[e2].halves.0;
            if e2 == e {
                assert(s2.edges[e2].halves.0 == first);
                assert(s2.edges[e2].halves.1 == Some(id));
                assert(s2.halfedges[first as int].twin == Some(id));
                assert(s2.halfedges[id as int].twin == Some(first));
                assert(s2.halfedges[first as int].tail == tip);
                assert(s2.halfedges[id as int].tail == tail);
            } else {
                assert(s2.edges[e2] == s.edges[e2]);
                assert(s.halfedges[h0 as int].edge == e2);
                assert(h0 != first) by {
                    assert(s.halfedges[first as int].edge == e);
                }
                assert(s2.halfedges[h0 as int] == s.halfedges[h0 as int]);
                match s.edges[e2].halves.1 {
                    None => {},
                    Some(h1) => {
                        assert(s.halfedges[h1 as int].edge == e2);
                        assert(h1 != first);
                        assert(s2.halfedges[h1 as int] == s.halfedges[h1 as int]);
                    },
                }
            }
        }
        assert forall|p: (usize, usize)| #[trigger]
            s2.edge_map.contains_key(p) implies {
            let e2 = s2.edge_map[p];
            &&& e2 < s2.edges.len()
            &&& s2.halfedges[s2.edges[e2 as int].halves.0 as int].tail == p.0
            &&& s2.halfedges[s2.edges[e2 as int].halves.0 as int].tip == p.1
        } by {
            assert(s.edge_map.contains_key(p));
            let e2 = s.edge_map[p];
            assert(map_wf(s));
            let h0 = s.edges[e2 as int].halves.0;
            if e2 == e {
                assert(s2.edges[e2 as int].halves.0 == first);
                assert(s2.halfedges[first as int].tail == tip);
            } else {
                assert(edge_wf(s, e2 as int));
                assert(s.halfedges[h0 as int].edge == e2);
                assert(h0 != first) by {
                    assert(edge_wf(s, e as int));
                    assert(s.halfedges[first as int].edge == e);
                }
                assert(s2.edges[e2 as int] == s.edges[e2 as int]);
                assert(s2.halfedges[h0 as int] == s.halfedges[h0 as int]);
            }
        }
        assert(map_wf(s2));
    } else {
        assert(!s.edge_map.contains_key((tail, tip)));
        assert(s.edges.len() <= j);
        let eid = s.edges.len() as usize;
        assert(eid == s.edges.len());
        assert(s2.vertices.len() == s.vertices.len());
        assert(s2.halfedges.len() == j + 1);
        assert(s2.faces == s.faces);
        assert(s2.edges.len() == s.edges.len() + 1);
        assert(s2.edge_map == s.edge_map.insert((tail, tip), eid));
        assert forall|v: int| 0 <= v < s2.vertices.len() implies #[trigger] vertex_wf(s2, v) by {
            assert(vertex_wf(s, v));
            if v != tail {
                assert(s2.vertices[v] == s.vertices[v]);
            }
        }
        assert forall|j2: int|
            0 <= j2 < s2.halfedges.len() implies halfedge_shape_ok(
            tris,
            j2,
            #[trigger] s2.halfedges[j2],
        ) by {
            if j2 != j {
                assert(s2.halfedges[j2] == s.halfedges[j2]);
                assert(halfedge_shape_ok(tris, j2, s.halfedges[j2]));
            }
        }
        assert forall|j2: int| 0 <= j2 < s2.halfedges.len() implies #[trigger] halfedge_edge_wf(
            s2,
            j2,
        ) by {
            if j2 == j {
                assert(s2.edges[eid as int].halves.0 == id);
            } else {
                assert(halfedge_edge_wf(s, j2));
                let e2 = s.halfedges[j2].edge;
                assert(s2.edges[e2 as int] == s.edges[e2 as int]);
            }
        }
        assert forall|e2: int| 0 <= e2 < s2.edges.len() implies #[trigger] edge_wf(s2, e2) by {
            if e2 == eid {
                assert(s2.edges[e2].halves.0 == id);
                assert(s2.halfedges[id as int].twin is None);
                assert(s2.edge_map.contains_key((tail, tip)));
                assert(s2.edge_map[(tail, tip)] == eid);
            } else {
                assert(edge_wf(s, e2));
                assert(s2.edges[e2] == s.edges[e2]);
                let h0 = s.edges[e2].halves.0;
                assert(s2.halfedges[h0 as int] == s.halfedges[h0 as int]);
                assert(s2.edge_map.contains_key(
                    (s.halfedges[h0 as int].tail, s.halfedges[h0 as int].tip),
                ));
                match s.edges[e2].halves.1 {
                    None => {},
                    Some(h1) => {
                        assert(s2.halfedges[h1 as int] == s.halfedges[h1 as int]);
                    },
                }
            }
        }
        assert forall|p: (usize, usize)| #[trigger]
            s2.edge_map.contains_key(p) implies {
            let e2 = s2.edge_map[p];
            &&& e2 < s2.edges.len()
            &&& s2.halfedges[s2.edges[e2 as int].halves.0 as int].tail == p.0
            &&& s2.halfedges[s2.edges[e2 as int].halves.0 as int].tip == p.1
        } by {
            if p == (tail, tip) {
                assert(s2.edge_map[p] == eid);
                assert(s2.edges[eid as int].halves.0 == id);
            } else {
                assert(s.edge_map.contains_key(p));
                assert(map_wf(s));
                let e2 = s.edge_map[p];
                assert(edge_wf(s, e2 as int));
                let h0 = s.edges[e2 as int].halves.0;
                assert(s2.edges[e2 as int] == s.edges[e2 as int]);
                assert(s2.halfedges[h0 as int] == s.halfedges[h0 as int]);
            }
        }
        assert(map_wf(s2));
    }
}

/// Appending the face record of triangle `k` to a well-formed state yields
/// the mid-triangle state with no directed edge registered yet.
proof fn lemma_push_face_mid_wf(n: nat, tris: Seq<Triangle>, k: int, s: BuildState)
    requires
        0 <= k < tris.len(),
        3 * tris.len() <= usize::MAX,
        n <= usize::MAX,
        state_wf(n, tris, k, s),
    ensures
        mid_wf(
            n,
            tris,
            k,
            0,
            (BuildState {
                faces: s.faces.push(
                    FaceTopology { id: k as usize, start_halfedge: s.halfedges.len() as usize },
                ),
                ..s
            }),
        ),
{
    let s0 = BuildState {
        faces: s.faces.push(
            FaceTopology { id: k as usize, start_halfedge: s.halfedges.len() as usize },
        ),
        ..s
    };
    assert forall|v: int| 0 <= v < s0.vertices.len() implies #[trigger] vertex_wf(s0, v) by {
        assert(vertex_wf(s, v));
    }
    assert forall|j2: int| 0 <= j2 < s0.halfedges.len() implies #[trigger] halfedge_edge_wf(
        s0,
        j2,
    ) by {
        assert(halfedge_edge_wf(s, j2));
    }
    assert forall|e2: int| 0 <= e2 < s0.edges.len() implies #[trigger] edge_wf(s0, e2) by {
        assert(edge_wf(s, e2));
    }
    assert(map_wf(s0));
}

/// Processing one whole triangle preserves well-formedness.
proof fn lemma_step_wf(n: nat, tris: Seq<Triangle>, k: int, s: BuildState, s3: BuildState)
    requires
        0 <= k < tris.len(),
        3 * tris.len() <= usize::MAX,
        n <= usize::MAX,
        state_wf(n, tris, k, s),
        step_triangle(s, tris[k], k as usize) == Ok::<BuildState, crate::topology::MeshError>(s3),
    ensures
        state_wf(n, tris, k + 1, s3),
        tri_valid(tris[k], n),
{
    let t = tris[k];
    assert(tri_valid(t, n));
    let base = s.halfedges.len() as usize;
    assert(base == 3 * k);
    let s0 = BuildState {
        faces: s.faces.push(FaceTopology { id: k as usize, start_halfedge: base }),
        ..s
    };
    lemma_push_face_mid_wf(n, tris, k, s);
    assert(mid_wf(n, tris, k, 0, s0));
    assert(regs_upto(s0, t, k as usize, base, 0) == Ok::<
        BuildState,
        crate::topology::MeshError,
    >(s0));
    let r1 = regs_upto(s0, t, k as usize, base, 1);
    let r2 = regs_upto(s0, t, k as usize, base, 2);
    let r3 = regs_upto(s0, t, k as usize, base, 3);
    assert(r3 == Ok::<BuildState, crate::topology::MeshError>(s3));
    assert(r2 is Ok && r1 is Ok);
    let s1 = r1->Ok_0;
    let s2 = r2->Ok_0;
    lemma_register_wf(n, tris, k, 0, s0, s1);
    lemma_register_wf(n, tris, k, 1, s1, s2);
    lemma_register_wf(n, tris, k, 2, s2, s3);
}

/// Every state the construction fold reaches is well formed.
pub proof fn lemma_build_wf(n: nat, tris: Seq<Triangle>, k: int, s: BuildState)
    requires
        0 <= k <= tris.len(),
        3 * tris.len() <= usize::MAX,
        n <= usize::MAX,
        build_upto(n, tris, k) == Ok::<BuildState, crate::topology::MeshError>(s),
    ensures
        state_wf(n, tris, k, s),
    decreases k,
{
    if k == 0 {
        assert(s == initial_state(n));
        assert forall|v: int| 0 <= v < s.vertices.len() implies #[trigger] vertex_wf(s, v) by {}
        assert(state_wf(n, tris, 0, s));
    } else {
        let prev = build_upto(n, tris, k - 1);
        assert(prev is Ok);
        let sp = prev->Ok_0;
        lemma_build_wf(n, tris, k - 1, sp);
        lemma_step_wf(n, tris, k - 1, sp, s);
    }
}

/// For every face of a successfully built mesh, following `next` three
/// times from its representative half-edge returns to that half-edge, and
/// all three visited half-edges belong to that face.
pub proof fn lemma_face_loops(n: nat, tris: Seq<Triangle>, s: BuildState)
    requires
        3 * tris.len() <= usize::MAX,
        n <= usize::MAX,
        build_model(n, tris) == Ok::<BuildState, crate::topology::MeshError>(s),
    ensures
        forall|f: int|
            0 <= f < s.faces.len() ==> {
                let h0 = (#[trigger] s.faces[f]).start_halfedge as int;
                &&& h0 == 3 * f
                &&& h0 + 2 < s.halfedges.len()
                &&& s.halfedges[h0].next == h0 + 1
                &&& s.halfedges[h0 + 1].next == h0 + 2
                &&& s.halfedges[h0 + 2].next == h0
                &&& s.halfedges[h0].face == f
                &&& s.halfedges[h0 + 1].face == f
                &&& s.halfedges[h0 + 2].face == f
            },
{
    lemma_build_wf(n, tris, tris.len() as int, s);
    assert forall|f: int| 0 <= f < s.faces.len() implies {
        let h0 = (#[trigger] s.faces[f]).start_halfedge as int;
        &&& h0 == 3 * f
        &&& h0 + 2 < s.halfedges.len()
        &&& s.halfedges[h0].next == h0 + 1
        &&& s.halfedges[h0 + 1].next == h0 + 2
        &&& s.halfedges[h0 + 2].next == h0
        &&& s.halfedges[h0].face == f
        &&& s.halfedges[h0 + 1].face == f
        &&& s.halfedges[h0 + 2].face == f
    } by {
        let h0 = 3 * f;
        assert(h0 / 3 == f && h0 % 3 == 0 && (h0 + 1) / 3 == f && (h0 + 1) % 3 == 1 && (h0 + 2)
            / 3 == f && (h0 + 2) % 3 == 2) by (nonlinear_arith)
            requires
                h0 == 3 * f,
                0 <= f,
        ;
        assert(halfedge_shape_ok(tris, h0, s.halfedges[h0]));
        assert(halfedge_shape_ok(tris, h0 + 1, s.halfedges[h0 + 1]));
        assert(halfedge_shape_ok(tris, h0 + 2, s.halfedges[h0 + 2]));
    }
}

/// Twins come in mutual pairs: a half-edge with an assigned twin is that
/// twin's twin, and the two run the same vertex pair in opposite
/// directions.
pub proof fn lemma_twin_involution(n: nat, tris: Seq<Triangle>, s: BuildState)
    requires
        3 * tris.len() <= usize::MAX,
        n <= usize::MAX,
        build_model(n, tris) == Ok::<BuildState, crate::topology::MeshError>(s),
    ensures
        forall|j: int|
            0 <= j < s.halfedges.len() && (#[trigger] s.halfedges[j]).twin is Some ==> {
                let t = s.halfedges[j].twin->Some_0 as int;
                &&& 0 <= t < s.halfedges.len()
                &&& t != j
                &&& s.halfedges[t].twin == Some(j as usize)
                &&& s.halfedges[t].tail == s.halfedges[j].tip
                &&& s.halfedges[t].tip == s.halfedges[j].tail
            },
{
    lemma_build_wf(n, tris, tris.len() as int, s);
    assert forall|j: int|
        0 <= j < s.halfedges.len() && (#[trigger] s.halfedges[j]).twin is Some implies {
        let t = s.halfedges[j].twin->Some_0 as int;
        &&& 0 <= t < s.halfedges.len()
        &&& t != j
        &&& s.halfedges[t].twin == Some(j as usize)
        &&& s.halfedges[t].tail == s.halfedges[j].tip
        &&& s.halfedges[t].tip == s.halfedges[j].tail
    } by {
        assert(halfedge_edge_wf(s, j));
        let e = s.halfedges[j].edge;
        assert(edge_wf(s, e as int));
        let ed = s.edges[e as int];
        if ed.halves.0 == j {
            assert(ed.halves.1 is Some);
        } else {
            assert(ed.halves.1 == Some(j as usize));
        }
    }
}

/// Every vertex a processed triangle references has an assigned outgoing
/// half-edge.
pub open spec fn assigned_upto(tris: Seq<Triangle>, k: int, s: BuildState) -> bool {
    forall|f: int|
        0 <= f < k ==> {
            let t = #[trigger] tris[f];
            &&& t.0 < s.vertices.len()
            &&& t.1 < s.vertices.len()
            &&& t.2 < s.vertices.len()
            &&& s.vertices[t.0 as int].outgoing_halfedge is Some
            &&& s.vertices[t.1 as int].outgoing_halfedge is Some
            &&& s.vertices[t.2 as int].outgoing_halfedge is Some
        }
}

/// Registering a directed edge assigns its tail's outgoing half-edge and
/// keeps every earlier assignment.
proof fn lemma_register_assigned(
    n: nat,
    tris: Seq<Triangle>,
    k: int,
    slot: int,
    s: BuildState,
    s2: BuildState,
)
    requires
        0 <= k < tris.len(),
        3 * tris.len() <= usize::MAX,
        n <= usize::MAX,
        0 <= slot < 3,
        tri_valid(tris[k], n),
        mid_wf(n, tris, k, slot, s),
        register_halfedge(
            s,
            dedge_of(tris[k], slot).0,
            dedge_of(tris[k], slot).1,
            next_of((3 * k) as usize, slot),
            k as usize,
        ) == Ok::<BuildState, crate::topology::MeshError>(s2),
    ensures
        s2.vertices.len() == s.vertices.len(),
        s2.vertices[dedge_of(tris[k], slot).0 as int].outgoing_halfedge is Some,
        forall|v: int|
            0 <= v < s.vertices.len() && (#[trigger] s.vertices[v]).outgoing_halfedge is Some
                ==> s2.vertices[v].outgoing_halfedge is Some,
{
    let tail = dedge_of(tris[k], slot).0;
    assert(tail < n);
    assert forall|v: int|
        0 <= v < s.vertices.len() && (#[trigger] s.vertices[v]).outgoing_halfedge
            is Some implies s2.vertices[v].outgoing_halfedge is Some by {
        if v != tail {
            assert(s2.vertices[v] == s.vertices[v]);
        }
    }
}

/// Every vertex referenced by one of the first `k` triangles ends up with
/// an assigned outgoing half-edge.
proof fn lemma_build_assigned(n: nat, tris: Seq<Triangle>, k: int, s: BuildState)
    requires
        0 <= k <= tris.len(),
        3 * tris.len() <= usize::MAX,
        n <= usize::MAX,
        build_upto(n, tris, k) == Ok::<BuildState, crate::topology::MeshError>(s),
    ensures
        assigned_upto(tris, k, s),
    decreases k,
{
    if k > 0 {
        let prev = build_upto(n, tris, k - 1);
        assert(prev is Ok);
        let sp = prev->Ok_0;
        lemma_build_assigned(n, tris, k - 1, sp);
        lemma_build_wf(n, tris, k - 1, sp);
        let t = tris[k - 1];
        assert(tri_valid(t, n));
        let base = sp.halfedges.len() as usize;
        assert(base == 3 * (k - 1));
        let s0 = BuildState {
            faces: sp.faces.push(FaceTopology { id: (k - 1) as usize, start_halfedge: base }),
            ..sp
        };
        lemma_push_face_mid_wf(n, tris, k - 1, sp);
        assert(mid_wf(n, tris, k - 1, 0, s0));
        assert(regs_upto(s0, t, (k - 1) as usize, base, 0) == Ok::<
            BuildState,
            crate::topology::MeshError,
        >(s0));
        let r1 = regs_upto(s0, t, (k - 1) as usize, base, 1);
        let r2 = regs_upto(s0, t, (k - 1) as usize, base, 2);
        let r3 = regs_upto(s0, t, (k - 1) as usize, base, 3);
        assert(r3 == Ok::<BuildState, crate::topology::MeshError>(s));
        assert(r2 is Ok && r1 is Ok);
        let s1 = r1->Ok_0;
        let s2 = r2->Ok_0;
        lemma_register_assigned(n, tris, k - 1, 0, s0, s1);
        lemma_register_wf(n, tris, k - 1, 0, s0, s1);
        lemma_register_assigned(n, tris, k - 1, 1, s1, s2);
        lemma_register_wf(n, tris, k - 1, 1, s1, s2);
        lemma_register_assigned(n, tris, k - 1, 2, s2, s);
        assert(s.vertices[t.0 as int].outgoing_halfedge is Some);
        assert(s.vertices[t.1 as int].outgoing_halfedge is Some);
        assert(s.vertices[t.2 as int].outgoing_halfedge is Some);
        assert forall|f: int| 0 <= f < k implies {
            let t2 = #[trigger] tris[f];
            &&& t2.0 < s.vertices.len()
            &&& t2.1 < s.vertices.len()
            &&& t2.2 < s.vertices.len()
            &&& s.vertices[t2.0 as int].outgoing_halfedge is Some
            &&& s.vertices[t2.1 as int].outgoing_halfedge is Some
            &&& s.vertices[t2.2 as int].outgoing_halfedge is Some
        } by {
            if f < k - 1 {
                assert(tris[f].0 < sp.vertices.len());
            }
        }
    }
}

/// Every assigned outgoing half-edge starts at its own vertex, and every
/// vertex some triangle references has one assigned.
pub proof fn lemma_outgoing_tails(n: nat, tris: Seq<Triangle>, s: BuildState)
    requires
        3 * tris.len() <= usize::MAX,
        n <= usize::MAX,
        build_model(n, tris) == Ok::<BuildState, crate::topology::MeshError>(s),
    ensures
        forall|v: int|
            0 <= v < s.vertices.len() ==> (#[trigger] s.vertices[v]).id == v && match s.vertices[v].outgoing_halfedge {
                Some(h) => h < s.halfedges.len() && s.halfedges[h as int].tail == v,
                None => true,
            },
        assigned_upto(tris, tris.len() as int, s),
{
    lemma_build_wf(n, tris, tris.len() as int, s);
    lemma_build_assigned(n, tris, tris.len() as int, s);
    assert forall|v: int|
        0 <= v < s.vertices.len() implies (#[trigger] s.vertices[v]).id == v && match s.vertices[v].outgoing_halfedge {
        Some(h) => h < s.halfedges.len() && s.halfedges[h as int].tail == v,
        None => true,
    } by {
        assert(vertex_wf(s, v));
    }
}

/// Boundary detection: an edge whose second slot is unset has a twinless
/// first half; an edge whose second slot is set holds two mutually twinned
/// half-edges traversing it in opposite directions.
pub proof fn lemma_boundary_twins(n: nat, tris: Seq<Triangle>, s: BuildState)
    requires
        3 * tris.len() <= usize::MAX,
        n <= usize::MAX,
        build_model(n, tris) == Ok::<BuildState, crate::topology::MeshError>(s),
    ensures
        forall|e: int|
            0 <= e < s.edges.len() ==> {
                let ed = #[trigger] s.edges[e];
                &&& ed.id == e
                &&& ed.halves.0 < s.halfedges.len()
                &&& s.halfedges[ed.halves.0 as int].edge == e
                &&& match ed.halves.1 {
                    None => s.halfedges[ed.halves.0 as int].twin is None,
                    Some(h1) => {
                        &&& h1 < s.halfedges.len()
                        &&& s.halfedges[h1 as int].edge == e
                        &&& s.halfedges[ed.halves.0 as int].twin == Some(h1)
                        &&& s.halfedges[h1 as int].twin == Some(ed.halves.0)
                        &&& s.halfedges[h1 as int].tail == s.halfedges[ed.halves.0 as int].tip
                        &&& s.halfedges[h1 as int].tip == s.halfedges[ed.halves.0 as int].tail
                    },
                }
            },
{
    lemma_build_wf(n, tris, tris.len() as int, s);
    assert forall|e: int| 0 <= e < s.edges.len() implies {
        let ed = #[trigger] s.edges[e];
        &&& ed.id == e
        &&& ed.halves.0 < s.halfedges.len()
        &&& s.halfedges[ed.halves.0 as int].edge == e
        &&& match ed.halves.1 {
            None => s.halfedges[ed.halves.0 as int].twin is None,
            Some(h1) => {
                &&& h1 < s.halfedges.len()
                &&& s.halfedges[h1 as int].edge == e
                &&& s.halfedges[ed.halves.0 as int].twin == Some(h1)
                &&& s.halfedges[h1 as int].twin == Some(ed.halves.0)
                &&& s.halfedges[h1 as int].tail == s.halfedges[ed.halves.0 as int].tip
                &&& s.halfedges[h1 as int].tip == s.halfedges[ed.halves.0 as int].tail
            },
        }
    } by {
        assert(edge_wf(s, e));
    }
}

/// The undirected pairs of the first `m` directed edges of the triangle
/// list, taken in processing order.
pub open spec fn und_pairs_steps(tris: Seq<Triangle>, m: int) -> Set<(usize, usize)>
    decreases m,
{
    if m <= 0 {
        Set::empty()
    } else {
        let j = m - 1;
        let de = dedge_of(tris[j / 3], j % 3);
        und_pairs_steps(tris, j).insert(und(de.0, de.1))
    }
}

/// All distinct undirected vertex pairs across the triangle list.
pub open spec fn und_pairs(tris: Seq<Triangle>) -> Set<(usize, usize)> {
    und_pairs_steps(tris, 3 * tris.len() as int)
}

/// After `m` directed edges, the edge array and the set of seen undirected
/// pairs have the same size, and the lookup map registers exactly one
/// orientation of each seen pair.
pub open spec fn count_wf(tris: Seq<Triangle>, m: int, s: BuildState) -> bool {
    &&& und_pairs_steps(tris, m).finite()
    &&& s.edges.len() == und_pairs_steps(tris, m).len()
    &&& (forall|p: (usize, usize)| #[trigger]
        s.edge_map.contains_key(p) ==> s.edge_map[p] < s.edges.len() && und_pairs_steps(
            tris,
            m,
        ).contains(und(p.0, p.1)))
    &&& (forall|q: (usize, usize)| #[trigger]
        und_pairs_steps(tris, m).contains(q) ==> s.edge_map.contains_key(q)
            || s.edge_map.contains_key((q.1, q.0)))
}

/// Registering one directed edge adds an edge record exactly when it adds a
/// new undirected pair.
proof fn lemma_register_count(
    tris: Seq<Triangle>,
    k: int,
    slot: int,
    nxt: usize,
    s: BuildState,
    s2: BuildState,
)
    requires
        0 <= k < tris.len(),
        0 <= slot < 3,
        register_halfedge(
            s,
            dedge_of(tris[k], slot).0,
            dedge_of(tris[k], slot).1,
            nxt,
            k as usize,
        ) == Ok::<BuildState, crate::topology::MeshError>(s2),
        count_wf(tris, 3 * k + slot, s),
    ensures
        count_wf(tris, 3 * k + slot + 1, s2),
{
    let m = 3 * k + slot;
    assert(m / 3 == k && m % 3 == slot) by (nonlinear_arith)
        requires
            m == 3 * k + slot,
            0 <= slot < 3,
            0 <= k,
    ;
    let de = dedge_of(tris[k], slot);
    let tail = de.0;
    let tip = de.1;
    let p_set = und_pairs_steps(tris, m);
    let p_set2 = und_pairs_steps(tris, m + 1);
    assert(p_set2 == p_set.insert(und(tail, tip)));
    assert(und(tip, tail) == und(tail, tip));
    if s.edge_map.contains_key((tip, tail)) {
        assert(p_set.contains(und(tail, tip)));
        assert(p_set2 =~= p_set);
        assert(s2.edges.len() == s.edges.len());
        assert(s2.edge_map == s.edge_map);
    } else {
        assert(!s.edge_map.contains_key((tail, tip)));
        if p_set.contains(und(tail, tip)) {
            let q = und(tail, tip);
            assert(s.edge_map.contains_key(q) || s.edge_map.contains_key((q.1, q.0)));
            assert(false);
        }
        assert(p_set2.len() == p_set.len() + 1);
        assert(s2.edges.len() == s.edges.len() + 1);
        assert(s2.edge_map == s.edge_map.insert((tail, tip), s.edges.len() as usize));
        assert forall|p: (usize, usize)| #[trigger]
            s2.edge_map.contains_key(p) implies p_set2.contains(und(p.0, p.1)) by {
            if p != (tail, tip) {
                assert(s.edge_map.contains_key(p));
            }
        }
        assert forall|q: (usize, usize)| #[trigger]
            p_set2.contains(q) implies s2.edge_map.contains_key(q) || s2.edge_map.contains_key(
            (q.1, q.0),
        ) by {
            if q != und(tail, tip) {
                assert(p_set.contains(q));
            }
        }
    }
}

/// Processing one whole triangle keeps the edge count equal to the number
/// of seen undirected pairs.
proof fn lemma_step_count(tris: Seq<Triangle>, k: int, s: BuildState, s3: BuildState)
    requires
        0 <= k < tris.len(),
        step_triangle(s, tris[k], k as usize) == Ok::<BuildState, crate::topology::MeshError>(s3),
        count_wf(tris, 3 * k, s),
    ensures
        count_wf(tris, 3 * (k + 1), s3),
{
    let t = tris[k];
    let base = s.halfedges.len() as usize;
    let s0 = BuildState {
        faces: s.faces.push(FaceTopology { id: k as usize, start_halfedge: base }),
        ..s
    };
    assert(count_wf(tris, 3 * k, s0));
    assert(regs_upto(s0, t, k as usize, base, 0) == Ok::<
        BuildState,
        crate::topology::MeshError,
    >(s0));
    let r1 = regs_upto(s0, t, k as usize, base, 1);
    let r2 = regs_upto(s0, t, k as usize, base, 2);
    let r3 = regs_upto(s0, t, k as usize, base, 3);
    assert(r3 == Ok::<BuildState, crate::topology::MeshError>(s3));
    assert(r2 is Ok && r1 is Ok);
    let s1 = r1->Ok_0;
    let s2 = r2->Ok_0;
    lemma_register_count(tris, k, 0, next_of(base, 0), s0, s1);
    lemma_register_count(tris, k, 1, next_of(base, 1), s1, s2);
    lemma_register_count(tris, k, 2, next_of(base, 2), s2, s3);
    assert(3 * k + 2 + 1 == 3 * (k + 1));
}

/// The counting invariant holds of every state the construction fold
/// reaches.
proof fn lemma_build_count(n: nat, tris: Seq<Triangle>, k: int, s: BuildState)
    requires
        0 <= k <= tris.len(),
        build_upto(n, tris, k) == Ok::<BuildState, crate::topology::MeshError>(s),
    ensures
        count_wf(tris, 3 * k, s),
    decreases k,
{
    if k == 0 {
        assert(s == initial_state(n));
        assert(und_pairs_steps(tris, 0) =~= Set::<(usize, usize)>::empty());
        assert(und_pairs_steps(tris, 0).len() == 0);
    } else {
        let prev = build_upto(n, tris, k - 1);
        assert(prev is Ok);
        let sp = prev->Ok_0;
        lemma_build_count(n, tris, k - 1, sp);
        lemma_step_count(tris, k - 1, sp, s);
    }
}

/// After `m` directed edges: a registered pair whose edge still misses its
/// second half has been traversed once, a full edge twice; an unregistered
/// pair has not been traversed at all; and only one orientation of a pair is
/// ever registered.
pub open spec fn uses_wf(tris: Seq<Triangle>, m: int, s: BuildState) -> bool {
    &&& (forall|p: (usize, usize)| #[trigger]
        s.edge_map.contains_key(p) ==> {
            let e = s.edge_map[p];
            &&& e < s.edges.len()
            &&& !s.edge_map.contains_key((p.1, p.0))
            &&& (s.edges[e as int].halves.1 is None ==> und_uses(tris, m, und(p.0, p.1)) == 1)
            &&& (s.edges[e as int].halves.1 is Some ==> und_uses(tris, m, und(p.0, p.1)) == 2)
        })
    &&& (forall|q: (usize, usize)|
        !s.edge_map.contains_key(q) && !s.edge_map.contains_key((q.1, q.0)) ==> #[trigger]
            und_uses(tris, m, und(q.0, q.1)) == 0)
}

/// Registering one directed edge raises its pair's traversal count from
/// zero to one (fresh boundary edge) or from one to two (completed edge).
proof fn lemma_register_uses(
    n: nat,
    tris: Seq<Triangle>,
    k: int,
    slot: int,
    s: BuildState,
    s2: BuildState,
)
    requires
        0 <= k < tris.len(),
        3 * tris.len() <= usize::MAX,
        n <= usize::MAX,
        0 <= slot < 3,
        tri_valid(tris[k], n),
        mid_wf(n, tris, k, slot, s),
        register_halfedge(
            s,
            dedge_of(tris[k], slot).0,
            dedge_of(tris[k], slot).1,
            next_of((3 * k) as usize, slot),
            k as usize,
        ) == Ok::<BuildState, crate::topology::MeshError>(s2),
        uses_wf(tris, 3 * k + slot, s),
    ensures
        uses_wf(tris, 3 * k + slot + 1, s2),
{
    let m = 3 * k + slot;
    assert(m / 3 == k && m % 3 == slot) by (nonlinear_arith)
        requires
            m == 3 * k + slot,
            0 <= slot < 3,
            0 <= k,
    ;
    let de = dedge_of(tris[k], slot);
    let tail = de.0;
    let tip = de.1;
    assert(tail != tip);
    let u = und(tail, tip);
    assert(forall|q: (usize, usize)|
        und(q.0, q.1) == u ==> q == (tail, tip) || q == (tip, tail));
    assert(forall|q: (usize, usize)| #[trigger]
        und_uses(tris, m + 1, q) == und_uses(tris, m, q) + (if u == q {
            1nat
        } else {
            0nat
        }));
    if s.edge_map.contains_key((tip, tail)) {
        let e = s.edge_map[(tip, tail)];
        assert(!s.edge_map.contains_key((tail, tip)));
        assert(s.edges[e as int].halves.1 is None);
        assert(und_uses(tris, m, u) == 1);
        assert forall|p: (usize, usize)| #[trigger]
            s2.edge_map.contains_key(p) implies {
            let e2 = s2.edge_map[p];
            &&& e2 < s2.edges.len()
            &&& !s2.edge_map.contains_key((p.1, p.0))
            &&& (s2.edges[e2 as int].halves.1 is None ==> und_uses(tris, m + 1, und(p.0, p.1))
                == 1)
            &&& (s2.edges[e2 as int].halves.1 is Some ==> und_uses(tris, m + 1, und(p.0, p.1))
                == 2)
        } by {
            assert(s.edge_map.contains_key(p));
            let e2 = s.edge_map[p];
            if p == (tip, tail) {
                assert(s2.edges[e as int].halves.1 is Some);
                assert(und(p.0, p.1) == u);
            } else {
                assert(e2 != e) by {
                    assert(map_wf(s));
                    assert(edge_wf(s, e as int));
                }
                assert(s2.edges[e2 as int] == s.edges[e2 as int]);
                assert(und(p.0, p.1) != u) by {
                    if und(p.0, p.1) == u {
                        assert(p == (tail, tip) || p == (tip, tail));
                        assert(!s.edge_map.contains_key((tail, tip)));
                    }
                }
                assert(und_uses(tris, m + 1, und(p.0, p.1)) == und_uses(tris, m, und(p.0, p.1)));
            }
        }
        assert forall|q: (usize, usize)|
            !s2.edge_map.contains_key(q) && !s2.edge_map.contains_key(
                (q.1, q.0),
            ) implies #[trigger] und_uses(tris, m + 1, und(q.0, q.1)) == 0 by {
            assert(und(q.0, q.1) != u) by {
                if und(q.0, q.1) == u {
                    assert(q == (tail, tip) || q == (tip, tail));
                    assert(s2.edge_map.contains_key((tip, tail)));
                }
            }
            assert(und_uses(tris, m, und(q.0, q.1)) == 0);
        }
    } else {
        assert(!s.edge_map.contains_key((tail, tip)));
        let eid = s.edges.len() as usize;
        assert(s.edges.len() <= s.halfedges.len());
        assert(eid == s.edges.len());
        assert(und_uses(tris, m, u) == 0);
        assert forall|p: (usize, usize)| #[trigger]
            s2.edge_map.contains_key(p) implies {
            let e2 = s2.edge_map[p];
            &&& e2 < s2.edges.len()
            &&& !s2.edge_map.contains_key((p.1, p.0))
            &&& (s2.edges[e2 as int].halves.1 is None ==> und_uses(tris, m + 1, und(p.0, p.1))
                == 1)
            &&& (s2.edges[e2 as int].halves.1 is Some ==> und_uses(tris, m + 1, und(p.0, p.1))
                == 2)
        } by {
            if p == (tail, tip) {
                assert(s2.edge_map[p] == eid);
                assert(s2.edges[eid as int].halves.1 is None);
                assert(und(p.0, p.1) == u);
                assert(und_uses(tris, m + 1, u) == 1);
                assert(!s2.edge_map.contains_key((tip, tail)));
            } else {
                assert(s.edge_map.contains_key(p));
                let e2 = s.edge_map[p];
                assert(e2 < s.edges.len());
                assert(s2.edges[e2 as int] == s.edges[e2 as int]);
                assert(und(p.0, p.1) != u) by {
                    if und(p.0, p.1) == u {
                        assert(p == (tail, tip) || p == (tip, tail));
                    }
                }
                assert(und_uses(tris, m + 1, und(p.0, p.1)) == und_uses(tris, m, und(p.0, p.1)));
                assert((p.1, p.0) != (tail, tip)) by {
                    if (p.1, p.0) == (tail, tip) {
                        assert(p == (tip, tail));
                        assert(und(p.0, p.1) == u);
                    }
                }
            }
        }
        assert forall|q: (usize, usize)|
            !s2.edge_map.contains_key(q) && !s2.edge_map.contains_key(
                (q.1, q.0),
            ) implies #[trigger] und_uses(tris, m + 1, und(q.0, q.1)) == 0 by {
            assert(und(q.0, q.1) != u) by {
                if und(q.0, q.1) == u {
                    assert(q == (tail, tip) || q == (tip, tail));
                    assert(s2.edge_map.contains_key((tail, tip)));
                }
            }
            assert(!s.edge_map.contains_key(q) && !s.edge_map.contains_key((q.1, q.0)));
            assert(und_uses(tris, m, und(q.0, q.1)) == 0);
        }
    }
}

/// Processing one whole triangle keeps the traversal counts consistent.
proof fn lemma_step_uses(n: nat, tris: Seq<Triangle>, k: int, s: BuildState, s3: BuildState)
    requires
        0 <= k < tris.len(),
        3 * tris.len() <= usize::MAX,
        n <= usize::MAX,
        state_wf(n, tris, k, s),
        step_triangle(s, tris[k], k as usize) == Ok::<BuildState, crate::topology::MeshError>(s3),
        uses_wf(tris, 3 * k, s),
    ensures
        uses_wf(tris, 3 * (k + 1), s3),
{
    let t = tris[k];
    assert(tri_valid(t, n));
    let base = s.halfedges.len() as usize;
    assert(base == 3 * k);
    let s0 = BuildState {
        faces: s.faces.push(FaceTopology { id: k as usize, start_halfedge: base }),
        ..s
    };
    lemma_push_face_mid_wf(n, tris, k, s);
    assert(mid_wf(n, tris, k, 0, s0));
    assert(uses_wf(tris, 3 * k, s0));
    assert(regs_upto(s0, t, k as usize, base, 0) == Ok::<
        BuildState,
        crate::topology::MeshError,
    >(s0));
    let r1 = regs_upto(s0, t, k as usize, base, 1);
    let r2 = regs_upto(s0, t, k as usize, base, 2);
    let r3 = regs_upto(s0, t, k as usize, base, 3);
    assert(r3 == Ok::<BuildState, crate::topology::MeshError>(s3));
    assert(r2 is Ok && r1 is Ok);
    let s1 = r1->Ok_0;
    let s2 = r2->Ok_0;
    lemma_register_uses(n, tris, k, 0, s0, s1);
    lemma_register_wf(n, tris, k, 0, s0, s1);
    lemma_register_uses(n, tris, k, 1, s1, s2);
    lemma_register_wf(n, tris, k, 1, s1, s2);
    lemma_register_uses(n, tris, k, 2, s2, s3);
    assert(3 * k + 2 + 1 == 3 * (k + 1));
}

/// The traversal-count invariant holds of every state the construction
/// fold reaches.
proof fn lemma_build_uses(n: nat, tris: Seq<Triangle>, k: int, s: BuildState)
    requires
        0 <= k <= tris.len(),
        3 * tris.len() <= usize::MAX,
        n <= usize::MAX,
        build_upto(n, tris, k) == Ok::<BuildState, crate::topology::MeshError>(s),
    ensures
        uses_wf(tris, 3 * k, s),
    decreases k,
{
    if k == 0 {
        assert(s == initial_state(n));
    } else {
        let prev = build_upto(n, tris, k - 1);
        assert(prev is Ok);
        let sp = prev->Ok_0;
        lemma_build_uses(n, tris, k - 1, sp);
        lemma_build_wf(n, tris, k - 1, sp);
        lemma_step_uses(n, tris, k - 1, sp, s);
    }
}

/// Boundary detection by usage: an undirected pair traversed by exactly one
/// directed edge of the input yields an edge with an unset second half (so
/// a twinless half-edge); a pair traversed by exactly two yields a full
/// edge (so two mutually twinned half-edges, by `lemma_boundary_twins`).
pub proof fn lemma_edge_usage(n: nat, tris: Seq<Triangle>, s: BuildState)
    requires
        3 * tris.len() <= usize::MAX,
        n <= usize::MAX,
        build_model(n, tris) == Ok::<BuildState, crate::topology::MeshError>(s),
    ensures
        forall|e: int|
            0 <= e < s.edges.len() ==> {
                let ed = #[trigger] s.edges[e];
                let h0 = ed.halves.0 as int;
                let q = und(s.halfedges[h0].tail, s.halfedges[h0].tip);
                &&& (ed.halves.1 is None <==> und_uses(tris, 3 * tris.len() as int, q) == 1)
                &&& (ed.halves.1 is Some <==> und_uses(tris, 3 * tris.len() as int, q) == 2)
            },
{
    lemma_build_wf(n, tris, tris.len() as int, s);
    lemma_build_uses(n, tris, tris.len() as int, s);
    assert forall|e: int| 0 <= e < s.edges.len() implies {
        let ed = #[trigger] s.edges[e];
        let h0 = ed.halves.0 as int;
        let q = und(s.halfedges[h0].tail, s.halfedges[h0].tip);
        &&& (ed.halves.1 is None <==> und_uses(tris, 3 * tris.len() as int, q) == 1)
        &&& (ed.halves.1 is Some <==> und_uses(tris, 3 * tris.len() as int, q) == 2)
    } by {
        assert(edge_wf(s, e));
        let h0 = s.edges[e].halves.0 as int;
        let p = (s.halfedges[h0].tail, s.halfedges[h0].tip);
        assert(s.edge_map.contains_key(p));
        assert(s.edge_map[p] == e);
    }
}

/// Half-edge count is exactly three per triangle, and edge count equals the
/// number of distinct undirected vertex pairs across all triangles.
pub proof fn lemma_edge_count(n: nat, tris: Seq<Triangle>, s: BuildState)
    requires
        3 * tris.len() <= usize::MAX,
        n <= usize::MAX,
        build_model(n, tris) == Ok::<BuildState, crate::topology::MeshError>(s),
    ensures
        s.halfedges.len() == 3 * tris.len(),
        s.faces.len() == tris.len(),
        und_pairs(tris).finite(),
        s.edges.len() == und_pairs(tris).len(),
{
    lemma_build_wf(n, tris, tris.len() as int, s);
    lemma_build_count(n, tris, tris.len() as int, s);
}

/// The directed edge processed at step `j`: edge `j % 3` of triangle
/// `j / 3`.
pub open spec fn dedge_at(tris: Seq<Triangle>, j: int) -> (usize, usize) {
    dedge_of(tris[j / 3], j % 3)
}

/// A well-formed triangle soup: every triangle names existing, distinct
/// vertices; no directed edge is produced twice (consistent winding); and
/// no undirected pair is traversed more than twice (manifold).
pub open spec fn input_ok(n: nat, tris: Seq<Triangle>) -> bool {
    &&& (forall|f: int| 0 <= f < tris.len() ==> tri_valid(#[trigger] tris[f], n))
    &&& (forall|i: int, j: int|
        0 <= i < j < 3 * tris.len() ==> #[trigger] dedge_at(tris, i) != #[trigger] dedge_at(
            tris,
            j,
        ))
    &&& manifold_input(tris)
}

/// Every registered orientation was processed at an earlier step.
pub open spec fn prov_wf(tris: Seq<Triangle>, m: int, s: BuildState) -> bool {
    forall|p: (usize, usize)| #[trigger]
        s.edge_map.contains_key(p) ==> exists|j: int| 0 <= j < m && dedge_at(tris, j) == p
}

/// On a well-formed triangle soup construction cannot fail: the fold
/// reaches a state after every prefix.
proof fn lemma_complete_upto(n: nat, tris: Seq<Triangle>, k: int)
    requires
        0 <= k <= tris.len(),
        3 * tris.len() <= usize::MAX,
        n <= usize::MAX,
        input_ok(n, tris),
    ensures
        build_upto(n, tris, k) is Ok,
        state_wf(n, tris, k, build_upto(n, tris, k)->Ok_0),
        uses_wf(tris, 3 * k, build_upto(n, tris, k)->Ok_0),
        prov_wf(tris, 3 * k, build_upto(n, tris, k)->Ok_0),
    decreases k,
{
    if k == 0 {
        lemma_build_wf(n, tris, 0, initial_state(n));
        lemma_build_uses(n, tris, 0, initial_state(n));
    } else {
        lemma_complete_upto(n, tris, k - 1);
        let s = build_upto(n, tris, k - 1)->Ok_0;
        let t = tris[k - 1];
        assert(tri_valid(t, n));
        let base = s.halfedges.len() as usize;
        assert(base == 3 * (k - 1));
        let s0 = BuildState {
            faces: s.faces.push(FaceTopology { id: (k - 1) as usize, start_halfedge: base }),
            ..s
        };
        lemma_push_face_mid_wf(n, tris, k - 1, s);
        assert(mid_wf(n, tris, k - 1, 0, s0));
        assert(uses_wf(tris, 3 * (k - 1), s0));
        assert(regs_upto(s0, t, (k - 1) as usize, base, 0) == Ok::<
            BuildState,
            crate::topology::MeshError,
        >(s0));
        let s1 = lemma_complete_register(n, tris, k - 1, 0, s0);
        let s2 = lemma_complete_register(n, tris, k - 1, 1, s1);
        let s3 = lemma_complete_register(n, tris, k - 1, 2, s2);
        assert(regs_upto(s0, t, (k - 1) as usize, base, 1) == Ok::<
            BuildState,
            crate::topology::MeshError,
        >(s1));
        assert(regs_upto(s0, t, (k - 1) as usize, base, 2) == Ok::<
            BuildState,
            crate::topology::MeshError,
        >(s2));
        assert(regs_upto(s0, t, (k - 1) as usize, base, 3) == Ok::<
            BuildState,
            crate::topology::MeshError,
        >(s3));
        assert(step_triangle(s, t, (k - 1) as usize) == Ok::<
            BuildState,
            crate::topology::MeshError,
        >(s3));
        assert(build_upto(n, tris, k) == Ok::<BuildState, crate::topology::MeshError>(s3));
        assert(3 * (k - 1) + 2 + 1 == 3 * k);
    }
}

/// One register step of the completeness argument: under a well-formed
/// input the step cannot fail, and the invariants advance.
proof fn lemma_complete_register(
    n: nat,
    tris: Seq<Triangle>,
    k: int,
    slot: int,
    s: BuildState,
) -> (s2: BuildState)
    requires
        0 <= k < tris.len(),
        0 <= slot < 3,
        3 * tris.len() <= usize::MAX,
        n <= usize::MAX,
        input_ok(n, tris),
        mid_wf(n, tris, k, slot, s),
        uses_wf(tris, 3 * k + slot, s),
        prov_wf(tris, 3 * k + slot, s),
    ensures
        register_halfedge(
            s,
            dedge_of(tris[k], slot).0,
            dedge_of(tris[k], slot).1,
            next_of((3 * k) as usize, slot),
            k as usize,
        ) == Ok::<BuildState, crate::topology::MeshError>(s2),
        mid_wf(n, tris, k, slot + 1, s2),
        uses_wf(tris, 3 * k + slot + 1, s2),
        prov_wf(tris, 3 * k + slot + 1, s2),
{
    let m = 3 * k + slot;
    assert(m / 3 == k && m % 3 == slot) by (nonlinear_arith)
        requires
            m == 3 * k + slot,
            0 <= slot < 3,
            0 <= k,
    ;
    let de = dedge_of(tris[k], slot);
    let tail = de.0;
    let tip = de.1;
    assert(dedge_at(tris, m) == de);
    assert(tri_valid(tris[k], n));
    let r = register_halfedge(s, tail, tip, next_of((3 * k) as usize, slot), k as usize);
    if s.edge_map.contains_key((tip, tail)) {
        let e = s.edge_map[(tip, tail)];
        if s.edges[e as int].halves.1 is Some {
            assert(und_uses(tris, m, und(tip, tail)) == 2);
            assert(und(tip, tail) == und(tail, tip));
            assert(und_uses(tris, m + 1, und(tail, tip)) == 3);
            lemma_uses_mono(tris, m + 1, 3 * tris.len() as int, und(tail, tip));
            assert(false);
        }
    } else if s.edge_map.contains_key((tail, tip)) {
        let j = choose|j: int| 0 <= j < m && dedge_at(tris, j) == (tail, tip);
        assert(dedge_at(tris, j) == dedge_at(tris, m));
        assert(m < 3 * tris.len());
        assert(false);
    }
    assert(r is Ok);
    let s2 = r->Ok_0;
    lemma_register_wf(n, tris, k, slot, s, s2);
    lemma_register_uses(n, tris, k, slot, s, s2);
    assert forall|p: (usize, usize)| #[trigger]
        s2.edge_map.contains_key(p) implies exists|j: int|
        0 <= j < m + 1 && dedge_at(tris, j) == p by {
        if s.edge_map.contains_key(p) {
            let j = choose|j: int| 0 <= j < m && dedge_at(tris, j) == p;
            assert(0 <= j < m + 1 && dedge_at(tris, j) == p);
        } else {
            assert(p == (tail, tip));
            assert(0 <= m < m + 1 && dedge_at(tris, m) == p);
        }
    }
    s2
}

/// On a well-formed triangle soup — valid triangles, no duplicated
/// directed edge, no undirected pair traversed more than twice —
/// construction succeeds.
pub proof fn lemma_build_succeeds(n: nat, tris: Seq<Triangle>)
    requires
        3 * tris.len() <= usize::MAX,
        n <= usize::MAX,
        input_ok(n, tris),
    ensures
        build_model(n, tris) is Ok,
{
    lemma_complete_upto(n, tris, tris.len() as int);
}

/// Every directed edge already processed is either still registered under
/// its own orientation, or was the completing half of an edge that is now
/// full.
pub open spec fn processed_wf(tris: Seq<Triangle>, m: int, s: BuildState) -> bool {
    forall|j: int|
        0 <= j < m ==> {
            let d = #[trigger] dedge_at(tris, j);
            ||| s.edge_map.contains_key(d)
            ||| {
                &&& s.edge_map.contains_key((d.1, d.0))
                &&& s.edge_map[(d.1, d.0)] < s.edges.len()
                &&& s.edges[s.edge_map[(d.1, d.0)] as int].halves.1 is Some
            }
        }
}

/// A register step that succeeds cannot repeat an already processed
/// directed edge.
proof fn lemma_register_sound(
    n: nat,
    tris: Seq<Triangle>,
    k: int,
    slot: int,
    s: BuildState,
    s2: BuildState,
)
    requires
        0 <= k < tris.len(),
        0 <= slot < 3,
        3 * tris.len() <= usize::MAX,
        n <= usize::MAX,
        tri_valid(tris[k], n),
        mid_wf(n, tris, k, slot, s),
        uses_wf(tris, 3 * k + slot, s),
        processed_wf(tris, 3 * k + slot, s),
        register_halfedge(
            s,
            dedge_of(tris[k], slot).0,
            dedge_of(tris[k], slot).1,
            next_of((3 * k) as usize, slot),
            k as usize,
        ) == Ok::<BuildState, crate::topology::MeshError>(s2),
    ensures
        processed_wf(tris, 3 * k + slot + 1, s2),
        forall|i: int| 0 <= i < 3 * k + slot ==> #[trigger] dedge_at(tris, i) != dedge_at(
            tris,
            3 * k + slot,
        ),
{
    let m = 3 * k + slot;
    assert(m / 3 == k && m % 3 == slot) by (nonlinear_arith)
        requires
            m == 3 * k + slot,
            0 <= slot < 3,
            0 <= k,
    ;
    let d0 = dedge_of(tris[k], slot);
    let tail = d0.0;
    let tip = d0.1;
    assert(dedge_at(tris, m) == d0);
    assert forall|i: int| 0 <= i < m implies #[trigger] dedge_at(tris, i) != dedge_at(
        tris,
        m,
    ) by {
        if dedge_at(tris, i) == d0 {
            if s.edge_map.contains_key(d0) {
                assert(!s.edge_map.contains_key((tip, tail)));
                assert(register_halfedge(
                    s,
                    tail,
                    tip,
                    next_of((3 * k) as usize, slot),
                    k as usize,
                ) is Err);
            } else {
                assert(s.edge_map.contains_key((tip, tail)));
                assert(s.edges[s.edge_map[(tip, tail)] as int].halves.1 is Some);
                assert(register_halfedge(
                    s,
                    tail,
                    tip,
                    next_of((3 * k) as usize, slot),
                    k as usize,
                ) is Err);
            }
        }
    }
    if s.edge_map.contains_key((tip, tail)) {
        let e = s.edge_map[(tip, tail)];
        assert(s.edges[e as int].halves.1 is None);
        assert forall|j: int| 0 <= j < m + 1 implies {
            let d = #[trigger] dedge_at(tris, j);
            ||| s2.edge_map.contains_key(d)
            ||| {
                &&& s2.edge_map.contains_key((d.1, d.0))
                &&& s2.edge_map[(d.1, d.0)] < s2.edges.len()
                &&& s2.edges[s2.edge_map[(d.1, d.0)] as int].halves.1 is Some
            }
        } by {
            let d = dedge_at(tris, j);
            if j == m {
                assert(s2.edges[e as int].halves.1 is Some);
            } else {
                if s.edge_map.contains_key(d) {
                } else {
                    let ej = s.edge_map[(d.1, d.0)];
                    assert(s.edges[ej as int].halves.1 is Some);
                    assert(ej != e);
                    assert(s2.edges[ej as int] == s.edges[ej as int]);
                }
            }
        }
    } else {
        assert(!s.edge_map.contains_key((tail, tip)));
        assert forall|j: int| 0 <= j < m + 1 implies {
            let d = #[trigger] dedge_at(tris, j);
            ||| s2.edge_map.contains_key(d)
            ||| {
                &&& s2.edge_map.contains_key((d.1, d.0))
                &&& s2.edge_map[(d.1, d.0)] < s2.edges.len()
                &&& s2.edges[s2.edge_map[(d.1, d.0)] as int].halves.1 is Some
            }
        } by {
            let d = dedge_at(tris, j);
            if j == m {
                assert(s2.edge_map.contains_key(d0));
            } else {
                if s.edge_map.contains_key(d) {
                    assert(s2.edge_map.contains_key(d));
                } else {
                    let ej = s.edge_map[(d.1, d.0)];
                    assert((d.1, d.0) != (tail, tip));
                    assert(s2.edge_map[(d.1, d.0)] == ej);
                    assert(ej < s.edges.len());
                    assert(s2.edges[ej as int] == s.edges[ej as int]);
                }
            }
        }
    }
}

/// Whatever construction accepts satisfies the well-formedness
/// characterization, prefix by prefix.
proof fn lemma_sound_upto(n: nat, tris: Seq<Triangle>, k: int)
    requires
        0 <= k <= tris.len(),
        3 * tris.len() <= usize::MAX,
        n <= usize::MAX,
        build_upto(n, tris, k) is Ok,
    ensures
        forall|f: int| 0 <= f < k ==> tri_valid(#[trigger] tris[f], n),
        processed_wf(tris, 3 * k, build_upto(n, tris, k)->Ok_0),
        forall|i: int, j: int|
            0 <= i < j < 3 * k ==> #[trigger] dedge_at(tris, i) != #[trigger] dedge_at(tris, j),
    decreases k,
{
    if k > 0 {
        let prev = build_upto(n, tris, k - 1);
        assert(prev is Ok) by {
            if prev is Err {
                lemma_upto_err(n, tris, k - 1, k, prev->Err_0);
            }
        }
        lemma_sound_upto(n, tris, k - 1);
        let s = prev->Ok_0;
        lemma_build_wf(n, tris, k - 1, s);
        lemma_build_uses(n, tris, k - 1, s);
        let s3 = build_upto(n, tris, k)->Ok_0;
        let t = tris[k - 1];
        assert(step_triangle(s, t, (k - 1) as usize) == Ok::<
            BuildState,
            crate::topology::MeshError,
        >(s3));
        assert(tri_valid(t, n));
        let base = s.halfedges.len() as usize;
        assert(base == 3 * (k - 1));
        let s0 = BuildState {
            faces: s.faces.push(FaceTopology { id: (k - 1) as usize, start_halfedge: base }),
            ..s
        };
        lemma_push_face_mid_wf(n, tris, k - 1, s);
        assert(mid_wf(n, tris, k - 1, 0, s0));
        assert(uses_wf(tris, 3 * (k - 1), s0));
        assert(processed_wf(tris, 3 * (k - 1), s0));
        assert(regs_upto(s0, t, (k - 1) as usize, base, 0) == Ok::<
            BuildState,
            crate::topology::MeshError,
        >(s0));
        let r1 = regs_upto(s0, t, (k - 1) as usize, base, 1);
        let r2 = regs_upto(s0, t, (k - 1) as usize, base, 2);
        let r3 = regs_upto(s0, t, (k - 1) as usize, base, 3);
        assert(r3 == Ok::<BuildState, crate::topology::MeshError>(s3));
        assert(r2 is Ok && r1 is Ok);
        let s1 = r1->Ok_0;
        let s2 = r2->Ok_0;
        lemma_register_sound(n, tris, k - 1, 0, s0, s1);
        lemma_register_wf(n, tris, k - 1, 0, s0, s1);
        lemma_register_uses(n, tris, k - 1, 0, s0, s1);
        lemma_register_sound(n, tris, k - 1, 1, s1, s2);
        lemma_register_wf(n, tris, k - 1, 1, s1, s2);
        lemma_register_uses(n, tris, k - 1, 1, s1, s2);
        lemma_register_sound(n, tris, k - 1, 2, s2, s3);
        assert(3 * (k - 1) + 2 + 1 == 3 * k);
        assert forall|i: int, j: int|
            0 <= i < j < 3 * k implies #[trigger] dedge_at(tris, i) != #[trigger] dedge_at(
            tris,
            j,
        ) by {
            if j >= 3 * (k - 1) {
                assert(j == 3 * (k - 1) || j == 3 * (k - 1) + 1 || j == 3 * (k - 1) + 2);
            }
        }
    }
}

/// Construction succeeds exactly on well-formed triangle soups: every
/// triangle valid, no directed edge duplicated, no undirected pair
/// traversed more than twice.
pub proof fn lemma_success_iff(n: nat, tris: Seq<Triangle>)
    requires
        3 * tris.len() <= usize::MAX,
        n <= usize::MAX,
    ensures
        build_model(n, tris) is Ok <==> input_ok(n, tris),
{
    if input_ok(n, tris) {
        lemma_build_succeeds(n, tris);
    }
    if build_model(n, tris) is Ok {
        assert(manifold_input(tris));
        lemma_sound_upto(n, tris, tris.len() as int);
        assert(input_ok(n, tris));
    }
}

} // verus!
