//! Tests for the half-edge mesh: construction, counts, traversal, validation.

use topoflow::mesh::halfedge::HalfEdge;
use topoflow::mesh::{FaceId, HalfEdgeId, HalfEdgeMesh, MeshError, VertexId};

fn square_positions() -> Vec<[f32; 3]> {
    vec![
        [0.0, 0.0, 0.0],
        [1.0, 0.0, 0.0],
        [1.0, 1.0, 0.0],
        [0.0, 1.0, 0.0],
    ]
}

fn cube() -> HalfEdgeMesh<[f32; 3]> {
    let positions = vec![
        [-1.0, -1.0, -1.0],
        [1.0, -1.0, -1.0],
        [1.0, 1.0, -1.0],
        [-1.0, 1.0, -1.0],
        [-1.0, -1.0, 1.0],
        [1.0, -1.0, 1.0],
        [1.0, 1.0, 1.0],
        [-1.0, 1.0, 1.0],
    ];
    let faces = vec![
        vec![0, 1, 2, 3],
        vec![5, 4, 7, 6],
        vec![4, 0, 3, 7],
        vec![1, 5, 6, 2],
        vec![3, 2, 6, 7],
        vec![4, 5, 1, 0],
    ];
    HalfEdgeMesh::from_indexed_faces(&positions, &faces).expect("Should create cube mesh")
}

#[test]
fn test_create_empty_mesh() {
    let mesh: HalfEdgeMesh<[f32; 3]> = HalfEdgeMesh::new();
    assert_eq!(mesh.vertex_count(), 0);
    assert_eq!(mesh.face_count(), 0);
}

#[test]
fn test_quad_mesh() {
    let positions = square_positions();
    let faces = vec![vec![0, 1, 2, 3]];

    let mesh = HalfEdgeMesh::from_indexed_faces(&positions, &faces).expect("Should create quad mesh");

    assert_eq!(mesh.vertex_count(), 4);
    assert_eq!(mesh.face_count(), 1);
    assert_eq!(mesh.halfedge_count(), 4);
}

#[test]
fn test_cube_mesh() {
    let mesh = cube();

    assert_eq!(mesh.vertex_count(), 8);
    assert_eq!(mesh.face_count(), 6);
    assert!(mesh.is_watertight());
    // Euler: V - E + F = 8 - 12 + 6 = 2 (sphere topology)
    assert_eq!(mesh.euler_characteristic(), 2);
}

#[test]
fn test_vertex_neighbors() {
    let positions = vec![[0.0, 0.0, 0.0], [1.0, 0.0, 0.0], [0.5, 1.0, 0.0]];
    let faces = vec![vec![0, 1, 2]];

    let mesh = HalfEdgeMesh::from_indexed_faces(&positions, &faces).expect("Should create mesh");

    let neighbors = mesh.vertex_neighbors(VertexId(0));
    assert_eq!(neighbors.len(), 2); // Connected to vertices 1 and 2
}

#[test]
fn test_triangle_mesh() {
    let positions = vec![[0.0, 0.0, 0.0], [1.0, 0.0, 0.0], [0.5, 1.0, 0.0]];
    let faces = vec![vec![0, 1, 2]];
    let mesh = HalfEdgeMesh::from_indexed_faces(&positions, &faces).expect("Should create triangle mesh");
    assert_eq!(mesh.vertex_count(), 3);
    assert_eq!(mesh.face_count(), 1);
    assert_eq!(mesh.edges().len(), 3);
    // Watertight means no boundary edges; a lone triangle has three of them.
    assert!(!mesh.is_watertight());
    // Disk (open): V - E + F = 3 - 3 + 1 = 1
    assert_eq!(mesh.euler_characteristic(), 1);
}

#[test]
fn test_quad_disk_euler() {
    let mesh = HalfEdgeMesh::from_indexed_faces(&square_positions(), &[vec![0, 1, 2, 3]]).unwrap();
    assert_eq!(mesh.euler_characteristic(), 1);
}

#[test]
fn test_built_mesh_reads_back_faces_and_positions() {
    let mesh = cube();
    let expected: Vec<Vec<u32>> = vec![
        vec![0, 1, 2, 3],
        vec![5, 4, 7, 6],
        vec![4, 0, 3, 7],
        vec![1, 5, 6, 2],
        vec![3, 2, 6, 7],
        vec![4, 5, 1, 0],
    ];
    for (k, face) in expected.iter().enumerate() {
        let verts: Vec<u32> = mesh.face_vertices(FaceId(k as u32)).iter().map(|v| v.0).collect();
        assert_eq!(&verts, face);
    }
    assert_eq!(mesh.vertex(VertexId(6)).unwrap().position, [1.0, 1.0, 1.0]);
    assert_eq!(mesh.halfedge_count(), 24);
    assert!(mesh.validate().is_ok());
}

#[test]
fn test_degenerate_face_rejected() {
    let r = HalfEdgeMesh::from_indexed_faces(&square_positions(), &[vec![0, 1]]);
    assert!(matches!(r, Err(MeshError::DegenerateFace)));
}

#[test]
fn test_non_manifold_edge_reported_with_its_vertices() {
    // Both faces run 0 -> 1: the second half-edge repeats the first one's direction.
    let r = HalfEdgeMesh::from_indexed_faces(&square_positions(), &[vec![0, 1, 2], vec![0, 1, 3]]);
    assert!(matches!(r, Err(MeshError::NonManifoldEdge(0, 1))));
}

#[test]
fn test_three_faces_on_one_edge_fail_validation() {
    let positions = vec![
        [0.0, 0.0, 0.0],
        [1.0, 0.0, 0.0],
        [0.0, 1.0, 0.0],
        [0.0, -1.0, 0.0],
        [0.0, 0.0, 1.0],
    ];
    let faces = vec![vec![0, 1, 2], vec![1, 0, 3], vec![1, 0, 4]];
    let r = HalfEdgeMesh::from_indexed_faces(&positions, &faces);
    match r {
        Err(MeshError::InvalidTopology(msg)) => assert_eq!(msg, "HalfEdge 3 twin mismatch"),
        other => panic!("unexpected {:?}", other.map(|m| m.face_count())),
    }
}

#[test]
fn test_face_edges_and_endpoints() {
    let mesh = HalfEdgeMesh::from_indexed_faces(&square_positions(), &[vec![0, 1, 2, 3]]).unwrap();
    let edges = mesh.face_edges(FaceId(0));
    assert_eq!(edges, vec![HalfEdgeId(0), HalfEdgeId(1), HalfEdgeId(2), HalfEdgeId(3)]);
    assert_eq!(mesh.edge_endpoints(HalfEdgeId(2)), Some((VertexId(2), VertexId(3))));
    assert_eq!(mesh.edge_endpoints(HalfEdgeId(9)), None);
}

#[test]
fn test_edges_listed_once() {
    let mesh = cube();
    let edges = mesh.edges();
    assert_eq!(edges.len(), 12);
    let mut keys: Vec<(u32, u32)> = edges.iter().map(|(a, b)| (a.0.min(b.0), a.0.max(b.0))).collect();
    keys.sort();
    keys.dedup();
    assert_eq!(keys.len(), 12);
}

#[test]
fn test_vertex_faces_of_cube_corner() {
    let mesh = cube();
    let mut faces: Vec<u32> = mesh.vertex_faces(VertexId(0)).iter().map(|f| f.0).collect();
    faces.sort();
    assert_eq!(faces, vec![0, 2, 5]);
    assert_eq!(mesh.vertex_neighbors(VertexId(0)).len(), 3);
}

#[test]
fn test_add_vertex_and_set_position() {
    let mut mesh: HalfEdgeMesh<[f32; 3]> = HalfEdgeMesh::new();
    let a = mesh.add_vertex([1.0, 2.0, 3.0]);
    let b = mesh.add_vertex([4.0, 5.0, 6.0]);
    assert_eq!(a, VertexId(0));
    assert_eq!(b, VertexId(1));
    assert_eq!(mesh.vertex_count(), 2);
    mesh.set_vertex_position(a, [7.0, 8.0, 9.0]);
    assert_eq!(mesh.vertex(a).unwrap().position, [7.0, 8.0, 9.0]);
    assert_eq!(mesh.vertex(b).unwrap().position, [4.0, 5.0, 6.0]);
    assert!(mesh.vertex(VertexId(2)).is_none());
    assert!(mesh.vertex(a).unwrap().halfedge.is_none());
}

#[test]
fn test_halfedge_records_and_boundary_flags() {
    let mesh = HalfEdgeMesh::from_indexed_faces(&square_positions(), &[vec![0, 1, 2], vec![0, 2, 3]]).unwrap();
    let he: &HalfEdge = mesh.halfedge(HalfEdgeId(2)).unwrap();
    assert_eq!(he.origin, VertexId(2));
    assert_eq!(he.twin, Some(HalfEdgeId(3)));
    assert_eq!(he.next, HalfEdgeId(0));
    assert_eq!(he.prev, HalfEdgeId(1));
    assert_eq!(he.face, Some(FaceId(0)));
    assert!(mesh.vertex(VertexId(1)).unwrap().is_boundary);
    assert_eq!(mesh.halfedges().len(), 6);
    assert_eq!(mesh.vertices().len(), 4);
    assert_eq!(mesh.faces().len(), 2);
    assert_eq!(mesh.face(FaceId(1)).unwrap().halfedge, HalfEdgeId(3));
    assert!(mesh.face(FaceId(2)).is_none());
}

#[test]
fn test_validate_reports_broken_links() {
    let mut mesh = HalfEdgeMesh::from_indexed_faces(&square_positions(), &[vec![0, 1, 2, 3]]).unwrap();
    mesh.halfedge_mut(HalfEdgeId(1)).unwrap().next = HalfEdgeId(3);
    match mesh.validate() {
        Err(MeshError::InvalidTopology(msg)) => assert_eq!(msg, "HalfEdge 1 next/prev mismatch"),
        other => panic!("unexpected {:?}", other),
    }
}

#[test]
fn test_update_topology_recomputes_boundary_flags() {
    let mut mesh = cube();
    mesh.vertex_mut(VertexId(3)).unwrap().is_boundary = true;
    mesh.update_topology();
    assert!(!mesh.vertex(VertexId(3)).unwrap().is_boundary);
}

#[test]
fn test_validate_reports_links_edited_by_hand() {
    let positions = vec![[0.0, 0.0, 0.0], [1.0, 0.0, 0.0], [0.5, 1.0, 0.0]];
    let faces = vec![vec![0, 1, 2]];
    let mut mesh = HalfEdgeMesh::from_indexed_faces(&positions, &faces).unwrap();
    mesh.halfedge_mut(HalfEdgeId(0)).unwrap().next = HalfEdgeId(0);
    match mesh.validate() {
        Err(MeshError::InvalidTopology(msg)) => assert_eq!(msg, "HalfEdge 0 next/prev mismatch"),
        other => panic!("unexpected {:?}", other),
    }
    mesh.halfedge_mut(HalfEdgeId(0)).unwrap().next = HalfEdgeId(u32::MAX);
    match mesh.validate() {
        Err(MeshError::InvalidTopology(msg)) => assert_eq!(msg, "HalfEdge 0 has invalid next/prev"),
        other => panic!("unexpected {:?}", other),
    }
}
