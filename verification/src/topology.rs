//! The entities of the half-edge data model.
//!
//! Every entity is identified by a dense zero-based index into the owning
//! array of its [`Mesh`]: an arena-and-index design, not a pointer graph.
//! References that may legitimately be absent (a boundary half-edge's twin,
//! the second half of a boundary edge, the outgoing half-edge of a vertex no
//! triangle uses) are `Option<usize>` rather than a sentinel index.

use vstd::prelude::*;

verus! {

/// A triangle: three indices into the point array, in winding order.
pub type Triangle = (usize, usize, usize);

/// Why construction of a mesh failed.
#[derive(Clone, Copy, Debug, PartialEq, Eq, Structural)]
pub enum MeshError {
    /// A triangle references a vertex index with no point, or repeats a vertex.
    InvalidTopology,
    /// The same directed edge is produced by two different faces: the input is
    /// not consistently wound.
    InconsistentWinding,
    /// An undirected edge is claimed by more than two faces. This is
    /// detected over the whole input first, ahead of any other violation.
    NonManifoldEdge,
}

/// Per-vertex geometric data: the position payload handed in by the caller,
/// index-aligned with the input points.
#[derive(Debug, PartialEq, Eq)]
pub struct VertexGeometry<P> {
    /// Index of this vertex.
    pub id: usize,
    /// The position handed in for this vertex.
    pub position: P,
}

/// Per-vertex topology: one incident outgoing half-edge, absent while no
/// triangle uses the vertex.
#[derive(Clone, Copy, Debug, PartialEq, Eq)]
pub struct VertexTopology {
    /// Index of this vertex.
    pub id: usize,
    /// Some half-edge whose tail is this vertex, if any triangle uses it.
    pub outgoing_halfedge: Option<usize>,
}

/// One directed traversal of an edge, belonging to exactly one face.
#[derive(Clone, Copy, Debug, PartialEq, Eq)]
pub struct HalfedgeTopology {
    /// Index of this half-edge.
    pub id: usize,
    /// The originating vertex.
    pub tail: usize,
    /// The terminating vertex.
    pub tip: usize,
    /// The oppositely directed half-edge across the same undirected edge,
    /// absent for a boundary half-edge.
    pub twin: Option<usize>,
    /// The following half-edge around the owning face's loop.
    pub next: usize,
    /// The undirected edge this half-edge traverses.
    pub edge: usize,
    /// The face this half-edge belongs to.
    pub face: usize,
}

/// One undirected geometric edge and the one or two half-edges that
/// traverse it.
#[derive(Clone, Copy, Debug, PartialEq, Eq)]
pub struct EdgeTopology {
    /// Index of this edge.
    pub id: usize,
    /// The half-edges sharing this edge; the second slot is filled only when
    /// a neighboring face shares the edge.
    pub halves: (usize, Option<usize>),
}

/// Per-face topology: one representative half-edge of the face's loop.
#[derive(Clone, Copy, Debug, PartialEq, Eq)]
pub struct FaceTopology {
    /// Index of this face.
    pub id: usize,
    /// The first half-edge of this face's three-half-edge loop.
    pub start_halfedge: usize,
}

/// A fully linked half-edge mesh: the sole aggregate returned to callers,
/// immutable after construction.
pub struct Mesh<P> {
    id: usize,
    vertex_data: Vec<VertexGeometry<P>>,
    vertices: Vec<VertexTopology>,
    halfedges: Vec<HalfedgeTopology>,
    edges: Vec<EdgeTopology>,
    faces: Vec<FaceTopology>,
}

/// The mathematical content of a [`Mesh`]: its arrays as sequences.
pub struct MeshView<P> {
    /// Per-vertex geometry.
    pub vertex_data: Seq<VertexGeometry<P>>,
    /// Per-vertex topology.
    pub vertices: Seq<VertexTopology>,
    /// Per-half-edge topology.
    pub halfedges: Seq<HalfedgeTopology>,
    /// Per-edge topology.
    pub edges: Seq<EdgeTopology>,
    /// Per-face topology.
    pub faces: Seq<FaceTopology>,
}

impl<P> View for Mesh<P> {
    type V = MeshView<P>;

    closed spec fn view(&self) -> MeshView<P> {
        MeshView {
            vertex_data: self.vertex_data@,
            vertices: self.vertices@,
            halfedges: self.halfedges@,
            edges: self.edges@,
            faces: self.faces@,
        }
    }
}

impl<P> Mesh<P> {
    /// Assembles a mesh from already linked arrays. Only the builder calls
    /// this; it is the one place the private fields are filled.
    pub(crate) fn assemble(
        id: usize,
        vertex_data: Vec<VertexGeometry<P>>,
        vertices: Vec<VertexTopology>,
        halfedges: Vec<HalfedgeTopology>,
        edges: Vec<EdgeTopology>,
        faces: Vec<FaceTopology>,
    ) -> (m: Mesh<P>)
        ensures
            m.mesh_id() == id,
            m@.vertex_data == vertex_data@,
            m@.vertices == vertices@,
            m@.halfedges == halfedges@,
            m@.edges == edges@,
            m@.faces == faces@,
    {
        Mesh { id, vertex_data, vertices, halfedges, edges, faces }
    }

    /// The identifier the builder stamped on this mesh.
    pub closed spec fn mesh_id(&self) -> usize {
        self.id
    }

    /// The identifier the builder stamped on this mesh.
    pub fn id(&self) -> (r: usize)
        ensures
            r == self.mesh_id(),
    {
        self.id
    }

    /// Number of vertices.
    pub fn vertex_count(&self) -> (r: usize)
        ensures
            r == self@.vertices.len(),
    {
        self.vertices.len()
    }

    /// Number of half-edges.
    pub fn halfedge_count(&self) -> (r: usize)
        ensures
            r == self@.halfedges.len(),
    {
        self.halfedges.len()
    }

    /// Number of undirected edges.
    pub fn edge_count(&self) -> (r: usize)
        ensures
            r == self@.edges.len(),
    {
        self.edges.len()
    }

    /// Number of faces.
    pub fn face_count(&self) -> (r: usize)
        ensures
            r == self@.faces.len(),
    {
        self.faces.len()
    }

    /// The geometric record of vertex `v`.
    pub fn vertex_geometry(&self, v: usize) -> (r: &VertexGeometry<P>)
        requires
            v < self@.vertex_data.len(),
        ensures
            *r == self@.vertex_data[v as int],
    {
        &self.vertex_data[v]
    }

    /// The topological record of vertex `v`.
    pub fn vertex(&self, v: usize) -> (r: VertexTopology)
        requires
            v < self@.vertices.len(),
        ensures
            r == self@.vertices[v as int],
    {
        self.vertices[v]
    }

    /// The topological record of half-edge `h`.
    pub fn halfedge(&self, h: usize) -> (r: HalfedgeTopology)
        requires
            h < self@.halfedges.len(),
        ensures
            r == self@.halfedges[h as int],
    {
        self.halfedges[h]
    }

    /// The topological record of undirected edge `e`.
    pub fn edge(&self, e: usize) -> (r: EdgeTopology)
        requires
            e < self@.edges.len(),
        ensures
            r == self@.edges[e as int],
    {
        self.edges[e]
    }

    /// The topological record of face `f`.
    pub fn face(&self, f: usize) -> (r: FaceTopology)
        requires
            f < self@.faces.len(),
        ensures
            r == self@.faces[f as int],
    {
        self.faces[f]
    }
}

} // verus!
