use hemp::topology::{Mesh, MeshError};
use nalgebra::Vector3;

type Point = Vector3<f32>;

fn square_points() -> Vec<Point> {
    vec![
        Vector3::new(0.0, 0.0, 0.0),
        Vector3::new(1.0, 0.0, 0.0),
        Vector3::new(0.0, 1.0, 0.0),
        Vector3::new(1.0, 1.0, 0.0),
    ]
}

fn build(points: Vec<Point>, tris: Vec<(usize, usize, usize)>) -> Mesh<Point> {
    Mesh::new(points, tris).ok().unwrap()
}

fn build_err(points: Vec<Point>, tris: Vec<(usize, usize, usize)>) -> MeshError {
    Mesh::new(points, tris).err().unwrap()
}

#[test]
fn empty_input_builds_empty_mesh() {
    let m = build(Vec::new(), Vec::new());
    assert_eq!(m.vertex_count(), 0);
    assert_eq!(m.halfedge_count(), 0);
    assert_eq!(m.edge_count(), 0);
    assert_eq!(m.face_count(), 0);
    assert_eq!(m.id(), 1);
}

#[test]
fn single_triangle_all_boundary() {
    let points = vec![
        Vector3::new(0.0, 0.0, 0.0),
        Vector3::new(1.0, 0.0, 0.0),
        Vector3::new(0.0, 1.0, 0.0),
    ];
    let m = build(points, vec![(0, 1, 2)]);
    assert_eq!(m.vertex_count(), 3);
    assert_eq!(m.halfedge_count(), 3);
    assert_eq!(m.edge_count(), 3);
    assert_eq!(m.face_count(), 1);
    for h in 0..3 {
        assert_eq!(m.halfedge(h).twin, None);
        assert_eq!(m.halfedge(h).id, h);
        assert_eq!(m.halfedge(h).face, 0);
    }
    for e in 0..3 {
        assert_eq!(m.edge(e).halves.1, None);
    }
    assert_eq!(m.face(0).start_halfedge, 0);
    // the loop 0 -> 1 -> 2 -> 0 along the winding (0,1,2)
    assert_eq!(m.halfedge(0).next, 1);
    assert_eq!(m.halfedge(1).next, 2);
    assert_eq!(m.halfedge(2).next, 0);
    assert_eq!((m.halfedge(0).tail, m.halfedge(0).tip), (0, 1));
    assert_eq!((m.halfedge(1).tail, m.halfedge(1).tip), (1, 2));
    assert_eq!((m.halfedge(2).tail, m.halfedge(2).tip), (2, 0));
}

#[test]
fn two_triangles_share_one_interior_edge() {
    let m = build(square_points(), vec![(0, 1, 2), (1, 3, 2)]);
    assert_eq!(m.vertex_count(), 4);
    assert_eq!(m.halfedge_count(), 6);
    assert_eq!(m.edge_count(), 5);
    assert_eq!(m.face_count(), 2);
    // the shared edge 1->2 / 2->1 joins half-edges 1 and 5
    assert_eq!(m.halfedge(1).twin, Some(5));
    assert_eq!(m.halfedge(5).twin, Some(1));
    assert_eq!((m.halfedge(5).tail, m.halfedge(5).tip), (2, 1));
    for h in [0, 2, 3, 4] {
        assert_eq!(m.halfedge(h).twin, None);
    }
    let boundary = (0..m.edge_count()).filter(|&e| m.edge(e).halves.1.is_none()).count();
    assert_eq!(boundary, 4);
    let interior: Vec<usize> =
        (0..m.edge_count()).filter(|&e| m.edge(e).halves.1.is_some()).collect();
    assert_eq!(interior, vec![1]);
    assert_eq!(m.edge(1).halves, (1, Some(5)));
    // the last face writing a vertex supplies its outgoing half-edge
    assert_eq!(m.vertex(0).outgoing_halfedge, Some(0));
    assert_eq!(m.vertex(1).outgoing_halfedge, Some(3));
    assert_eq!(m.vertex(2).outgoing_halfedge, Some(5));
    assert_eq!(m.vertex(3).outgoing_halfedge, Some(4));
}

#[test]
fn duplicated_orientation_is_inconsistent_winding() {
    let err = build_err(square_points(), vec![(0, 1, 2), (0, 1, 3)]);
    assert_eq!(err, MeshError::InconsistentWinding);
}

#[test]
fn out_of_range_vertex_is_invalid_topology() {
    let err = build_err(square_points(), vec![(0, 1, 5)]);
    assert_eq!(err, MeshError::InvalidTopology);
}

#[test]
fn repeated_vertex_is_invalid_topology() {
    let err = build_err(square_points(), vec![(0, 1, 1)]);
    assert_eq!(err, MeshError::InvalidTopology);
}

#[test]
fn third_face_on_one_edge_is_non_manifold() {
    let points = vec![
        Vector3::new(0.0, 0.0, 0.0),
        Vector3::new(1.0, 0.0, 0.0),
        Vector3::new(0.0, 1.0, 0.0),
        Vector3::new(0.0, 0.0, 1.0),
        Vector3::new(1.0, 1.0, 1.0),
    ];
    let err = build_err(points, vec![(0, 1, 2), (1, 0, 3), (0, 1, 4)]);
    assert_eq!(err, MeshError::NonManifoldEdge);
}

#[test]
fn three_same_orientation_faces_on_one_edge_are_non_manifold() {
    // the edge 0->1 appears in three faces, all in the same direction:
    // the over-used undirected edge decides, not the repeated orientation
    let points = vec![
        Vector3::new(0.0, 0.0, 0.0),
        Vector3::new(1.0, 0.0, 0.0),
        Vector3::new(0.0, 1.0, 0.0),
        Vector3::new(0.0, 0.0, 1.0),
        Vector3::new(1.0, 1.0, 1.0),
    ];
    let err = build_err(points, vec![(0, 1, 2), (0, 1, 3), (0, 1, 4)]);
    assert_eq!(err, MeshError::NonManifoldEdge);
}

#[test]
fn non_manifold_outranks_every_other_violation() {
    // the first triangle is also out of range, but the undirected edge 0-1
    // is claimed by three faces, and that is rejected first
    let err = build_err(square_points(), vec![(0, 1, 9), (0, 1, 2), (1, 0, 3)]);
    assert_eq!(err, MeshError::NonManifoldEdge);
}

#[test]
fn first_offending_triangle_decides_the_error() {
    // the out-of-range triangle comes before the winding violation
    let err = build_err(square_points(), vec![(0, 1, 7), (0, 1, 3)]);
    assert_eq!(err, MeshError::InvalidTopology);
}

#[test]
fn positions_and_ids_are_index_aligned() {
    let points = square_points();
    let m = build(points.clone(), vec![(0, 1, 2)]);
    for v in 0..4 {
        let g = m.vertex_geometry(v);
        assert_eq!(g.id, v);
        assert_eq!(g.position, points[v]);
        assert_eq!(m.vertex(v).id, v);
    }
    // vertex 3 is used by no triangle and keeps no outgoing half-edge
    assert_eq!(m.vertex(3).outgoing_halfedge, None);
}

#[test]
fn next_loops_visit_their_own_face() {
    let m = build(square_points(), vec![(0, 1, 2), (1, 3, 2)]);
    for f in 0..m.face_count() {
        let h0 = m.face(f).start_halfedge;
        let h1 = m.halfedge(h0).next;
        let h2 = m.halfedge(h1).next;
        assert_eq!(m.halfedge(h2).next, h0);
        for h in [h0, h1, h2] {
            assert_eq!(m.halfedge(h).face, f);
        }
        assert_ne!(h0, h1);
        assert_ne!(h1, h2);
        assert_ne!(h0, h2);
    }
}

#[test]
fn twins_are_mutual_and_reversed() {
    let m = build(square_points(), vec![(0, 1, 2), (1, 3, 2)]);
    for h in 0..m.halfedge_count() {
        if let Some(t) = m.halfedge(h).twin {
            assert_eq!(m.halfedge(t).twin, Some(h));
            assert_eq!(m.halfedge(t).tail, m.halfedge(h).tip);
            assert_eq!(m.halfedge(t).tip, m.halfedge(h).tail);
        }
    }
}

#[test]
fn outgoing_halfedges_start_at_their_vertex() {
    let m = build(square_points(), vec![(0, 1, 2), (1, 3, 2)]);
    for v in 0..m.vertex_count() {
        let h = m.vertex(v).outgoing_halfedge.unwrap();
        assert_eq!(m.halfedge(h).tail, v);
    }
}

#[test]
fn edge_count_matches_distinct_undirected_pairs() {
    // pairs {0,1} {1,2} {2,0} {1,3} {3,2}: five in all, one shared
    let m = build(square_points(), vec![(0, 1, 2), (1, 3, 2)]);
    assert_eq!(m.edge_count(), 5);
    assert_eq!(m.halfedge_count(), 3 * 2);
    // every half-edge names an edge that lists it as one of its halves
    for h in 0..m.halfedge_count() {
        let e = m.halfedge(h).edge;
        let halves = m.edge(e).halves;
        assert!(halves.0 == h || halves.1 == Some(h));
    }
}

#[test]
fn closed_tetrahedron_has_no_boundary() {
    let points = vec![
        Vector3::new(0.0, 0.0, 0.0),
        Vector3::new(1.0, 0.0, 0.0),
        Vector3::new(0.0, 1.0, 0.0),
        Vector3::new(0.0, 0.0, 1.0),
    ];
    let m = build(points, vec![(0, 1, 2), (0, 2, 3), (0, 3, 1), (1, 3, 2)]);
    assert_eq!(m.halfedge_count(), 12);
    assert_eq!(m.edge_count(), 6);
    assert_eq!(m.face_count(), 4);
    for h in 0..m.halfedge_count() {
        assert!(m.halfedge(h).twin.is_some());
    }
    for e in 0..m.edge_count() {
        assert!(m.edge(e).halves.1.is_some());
    }
}
