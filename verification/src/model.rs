//! The mathematical model of mesh construction.
//!
//! [`build_model`] first rejects a non-manifold input — one with an
//! undirected vertex pair emitted by more than two triangles, whatever other
//! violations the input also contains — and otherwise folds the triangle
//! list, in input order, over an abstract [`BuildState`]; the executable
//! builder is proved to return exactly this result. Each triangle
//! contributes its three directed edges in winding order; each directed
//! edge either opens a new undirected edge, completes one opened by the
//! reversed pair, or is rejected.

use crate::topology::{
    EdgeTopology, FaceTopology, HalfedgeTopology, MeshError, Triangle, VertexTopology,
};
use vstd::prelude::*;

verus! {

/// The growing topology during construction: the four entity arrays plus the
/// lookup from a directed vertex pair, in whichever orientation was seen
/// first, to the index of the undirected edge that claimed it.
pub struct BuildState {
    /// Per-vertex topology built so far.
    pub vertices: Seq<VertexTopology>,
    /// Half-edges built so far.
    pub halfedges: Seq<HalfedgeTopology>,
    /// Undirected edges built so far.
    pub edges: Seq<EdgeTopology>,
    /// Faces built so far.
    pub faces: Seq<FaceTopology>,
    /// First-seen orientation of each undirected edge, mapped to its index.
    pub edge_map: Map<(usize, usize), usize>,
}

/// A triangle is well formed when its three indices name existing, pairwise
/// distinct vertices.
pub open spec fn tri_valid(t: Triangle, n_points: nat) -> bool {
    &&& t.0 < n_points
    &&& t.1 < n_points
    &&& t.2 < n_points
    &&& t.0 != t.1
    &&& t.1 != t.2
    &&& t.0 != t.2
}

/// The directed edge of `t` at position `slot` of the winding order:
/// `t.0 -> t.1`, then `t.1 -> t.2`, then `t.2 -> t.0`.
pub open spec fn dedge_of(t: Triangle, slot: int) -> (usize, usize) {
    if slot == 0 {
        (t.0, t.1)
    } else if slot == 1 {
        (t.1, t.2)
    } else {
        (t.2, t.0)
    }
}

/// The `next` link of the half-edge at `slot`, closing the loop
/// `base -> base+1 -> base+2 -> base`.
pub open spec fn next_of(base: usize, slot: int) -> usize {
    if slot == 2 {
        base
    } else {
        (base + slot + 1) as usize
    }
}

/// The state before any triangle is processed: one unassigned vertex record
/// per input point, everything else empty.
pub open spec fn initial_state(n_points: nat) -> BuildState {
    BuildState {
        vertices: Seq::new(
            n_points,
            |i: int| VertexTopology { id: i as usize, outgoing_halfedge: None },
        ),
        halfedges: Seq::empty(),
        edges: Seq::empty(),
        faces: Seq::empty(),
        edge_map: Map::empty(),
    }
}

/// Processes one directed edge `tail -> tip` of face `face`, allocating the
/// half-edge with index `s.halfedges.len()` and `next` link `next`.
///
/// If the reversed pair already claimed an undirected edge with a free second
/// slot, this half-edge completes it and the two become mutual twins; a full
/// edge reached through the reversed pair means a third face traverses it
/// against the existing second half, an inconsistent winding. If the forward
/// pair itself was registered, the edge is traversed twice in the same
/// direction: inconsistent winding, or a non-manifold edge when it is
/// already full. Otherwise a fresh boundary edge is opened under the
/// forward pair. The full-edge branches keep the fold total on any input;
/// under [`build_model`]'s manifold guard a third traversal of a pair never
/// reaches them.
pub open spec fn register_halfedge(
    s: BuildState,
    tail: usize,
    tip: usize,
    next: usize,
    face: usize,
) -> Result<BuildState, MeshError> {
    let id = s.halfedges.len() as usize;
    if s.edge_map.contains_key((tip, tail)) {
        let e = s.edge_map[(tip, tail)];
        if s.edges[e as int].halves.1 is Some {
            Err(MeshError::InconsistentWinding)
        } else {
            let first = s.edges[e as int].halves.0;
            let old_first = s.halfedges[first as int];
            Ok(BuildState {
                vertices: s.vertices.update(
                    tail as int,
                    VertexTopology { id: tail, outgoing_halfedge: Some(id) },
                ),
                halfedges: s.halfedges.update(
                    first as int,
                    HalfedgeTopology { twin: Some(id), ..old_first },
                ).push(
                    HalfedgeTopology {
                        id,
                        tail,
                        tip,
                        twin: Some(first),
                        next,
                        edge: e,
                        face,
                    },
                ),
                edges: s.edges.update(e as int, EdgeTopology { id: e, halves: (first, Some(id)) }),
                faces: s.faces,
                edge_map: s.edge_map,
            })
        }
    } else if s.edge_map.contains_key((tail, tip)) {
        let e = s.edge_map[(tail, tip)];
        if s.edges[e as int].halves.1 is Some {
            Err(MeshError::NonManifoldEdge)
        } else {
            Err(MeshError::InconsistentWinding)
        }
    } else {
        let eid = s.edges.len() as usize;
        Ok(BuildState {
            vertices: s.vertices.update(
                tail as int,
                VertexTopology { id: tail, outgoing_halfedge: Some(id) },
            ),
            halfedges: s.halfedges.push(
                HalfedgeTopology { id, tail, tip, twin: None, next, edge: eid, face },
            ),
            edges: s.edges.push(EdgeTopology { id: eid, halves: (id, None) }),
            faces: s.faces,
            edge_map: s.edge_map.insert((tail, tip), eid),
        })
    }
}

/// Registers the first `slot` directed edges of triangle `t` for face `face`,
/// whose half-edges start at index `base`.
pub open spec fn regs_upto(
    s: BuildState,
    t: Triangle,
    face: usize,
    base: usize,
    slot: int,
) -> Result<BuildState, MeshError>
    decreases slot,
{
    if slot <= 0 {
        Ok(s)
    } else {
        match regs_upto(s, t, face, base, slot - 1) {
            Err(e) => Err(e),
            Ok(s1) => {
                let de = dedge_of(t, slot - 1);
                register_halfedge(s1, de.0, de.1, next_of(base, slot - 1), face)
            },
        }
    }
}

/// Processes one triangle: rejects a malformed one, otherwise appends its
/// face record and registers its three directed edges.
pub open spec fn step_triangle(s: BuildState, t: Triangle, face: usize) -> Result<
    BuildState,
    MeshError,
> {
    if !tri_valid(t, s.vertices.len()) {
        Err(MeshError::InvalidTopology)
    } else {
        let base = s.halfedges.len() as usize;
        let s0 = BuildState {
            faces: s.faces.push(FaceTopology { id: face, start_halfedge: base }),
            ..s
        };
        regs_upto(s0, t, face, base, 3)
    }
}

/// The state after the first `k` triangles, or the error that stopped
/// construction.
pub open spec fn build_upto(n_points: nat, tris: Seq<Triangle>, k: int) -> Result<
    BuildState,
    MeshError,
>
    decreases k,
{
    if k <= 0 {
        Ok(initial_state(n_points))
    } else {
        match build_upto(n_points, tris, k - 1) {
            Err(e) => Err(e),
            Ok(s) => step_triangle(s, tris[k - 1], (k - 1) as usize),
        }
    }
}

/// The undirected pair of two vertex indices, in sorted order.
pub open spec fn und(a: usize, b: usize) -> (usize, usize) {
    if a <= b {
        (a, b)
    } else {
        (b, a)
    }
}

/// How many of the first `m` directed edges of the triangle list run along
/// the undirected pair `q`.
pub open spec fn und_uses(tris: Seq<Triangle>, m: int, q: (usize, usize)) -> nat
    decreases m,
{
    if m <= 0 {
        0
    } else {
        let j = m - 1;
        let de = dedge_of(tris[j / 3], j % 3);
        und_uses(tris, j, q) + (if und(de.0, de.1) == q {
            1nat
        } else {
            0nat
        })
    }
}

/// A manifold input: no undirected vertex pair is emitted by more than two
/// of its triangles' directed edges.
pub open spec fn manifold_input(tris: Seq<Triangle>) -> bool {
    forall|q: (usize, usize)| #[trigger] und_uses(tris, 3 * tris.len() as int, q) <= 2
}

/// Traversal counts only grow with more steps.
pub proof fn lemma_uses_mono(tris: Seq<Triangle>, m1: int, m2: int, q: (usize, usize))
    requires
        m1 <= m2,
    ensures
        und_uses(tris, m1, q) <= und_uses(tris, m2, q),
    decreases m2 - m1,
{
    if m1 < m2 {
        lemma_uses_mono(tris, m1, m2 - 1, q);
    }
}

/// A pair given in unsorted order is never counted: traversal counts are
/// kept against the sorted pair.
pub proof fn lemma_uses_unsorted(tris: Seq<Triangle>, m: int, q: (usize, usize))
    requires
        q.0 > q.1,
    ensures
        und_uses(tris, m, q) == 0,
    decreases m,
{
    if m > 0 {
        lemma_uses_unsorted(tris, m - 1, q);
    }
}

/// What constructing a mesh from `n_points` points and the triangle list
/// `tris` yields. A non-manifold input is rejected outright, before any
/// other violation is considered; otherwise the fold runs and yields the
/// final topology, or the first error it encounters.
pub open spec fn build_model(n_points: nat, tris: Seq<Triangle>) -> Result<
    BuildState,
    MeshError,
> {
    if !manifold_input(tris) {
        Err(MeshError::NonManifoldEdge)
    } else {
        build_upto(n_points, tris, tris.len() as int)
    }
}

/// An error, once reached, is the result of every longer prefix.
pub proof fn lemma_upto_err(n_points: nat, tris: Seq<Triangle>, k: int, j: int, e: MeshError)
    requires
        0 <= k <= j,
        build_upto(n_points, tris, k) == Err::<BuildState, MeshError>(e),
    ensures
        build_upto(n_points, tris, j) == Err::<BuildState, MeshError>(e),
    decreases j - k,
{
    if j > k {
        lemma_upto_err(n_points, tris, k, j - 1, e);
    }
}

/// A failed register fails the whole triangle.
pub proof fn lemma_regs_err(
    s: BuildState,
    t: Triangle,
    face: usize,
    base: usize,
    slot: int,
    e: MeshError,
)
    requires
        0 <= slot <= 3,
        regs_upto(s, t, face, base, slot) == Err::<BuildState, MeshError>(e),
    ensures
        regs_upto(s, t, face, base, 3) == Err::<BuildState, MeshError>(e),
    decreases 3 - slot,
{
    if slot < 3 {
        lemma_regs_err(s, t, face, base, slot + 1, e);
    }
}

} // verus!
