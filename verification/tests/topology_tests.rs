//! Tests for edge collapse, edge flip and the mesh quality report.

use topoflow::mesh::topology::{collapse_affected_faces, is_valid_quad};
use topoflow::mesh::validation::{analyze_mesh, is_subdiv_ready, ReadinessCheck, MAX_POLE_VALENCE};
use topoflow::io::ObjExporter;
use topoflow::mesh::{collapse_edge, flip_edge, FaceId, HalfEdgeMesh, TopologyError, VertexId};

/// Two triangles forming a quad, sharing the edge v0-v2.
fn create_two_triangle_mesh() -> HalfEdgeMesh<[f32; 3]> {
    let positions = vec![[0.0, 0.0, 0.0], [1.0, 0.0, 0.0], [1.0, 1.0, 0.0], [0.0, 1.0, 0.0]];
    let faces = vec![vec![0, 1, 2], vec![0, 2, 3]];
    HalfEdgeMesh::from_indexed_faces(&positions, &faces).expect("Should create two-triangle mesh")
}

#[test]
fn test_collapse_edge_interior() {
    let mut mesh = create_two_triangle_mesh();

    let original_verts = mesh.vertex_count();
    let original_faces = mesh.face_count();

    // Collapse edge v0-v2 (interior edge shared by both triangles)
    let v0 = VertexId(0);
    let v2 = VertexId(2);
    let target = [0.5, 0.5, 0.0];

    let result = collapse_edge(&mut mesh, v0, v2, target, false);

    assert!(result.is_ok(), "Edge collapse should succeed: {:?}", result.err());

    assert_eq!(mesh.vertex_count(), original_verts - 1, "Should remove 1 vertex");
    assert_eq!(mesh.face_count(), original_faces - 2, "Should remove 2 faces");

    mesh.validate().expect("Mesh should be valid after collapse");
}

#[test]
fn test_collapse_boundary_edge() {
    let positions = vec![[0.0, 0.0, 0.0], [1.0, 0.0, 0.0], [0.5, 1.0, 0.0]];
    let faces = vec![vec![0, 1, 2]];

    let mut mesh = HalfEdgeMesh::from_indexed_faces(&positions, &faces).expect("Should create triangle");

    let v0 = VertexId(0);
    let v1 = VertexId(1);
    let target = [0.5, 0.0, 0.0];

    let result = collapse_edge(&mut mesh, v0, v1, target, false);

    // Boundary collapse may or may not be allowed depending on implementation
    println!("Boundary collapse result: {:?}", result);
    assert!(matches!(result, Err(TopologyError::BoundaryEdge)));
    assert_eq!(mesh.vertex_count(), 3);
    assert_eq!(mesh.face_count(), 1);
}

#[test]
fn test_flip_boundary_edge_refused() {
    let mut mesh = create_two_triangle_mesh();
    let mut before: Vec<(u32, u32)> = mesh.edges().iter().map(|e| (e.0 .0.min(e.1 .0), e.0 .0.max(e.1 .0))).collect();
    before.sort();
    assert!(matches!(flip_edge(&mut mesh, VertexId(0), VertexId(1)), Err(TopologyError::BoundaryEdge)));
    let mut after: Vec<(u32, u32)> = mesh.edges().iter().map(|e| (e.0 .0.min(e.1 .0), e.0 .0.max(e.1 .0))).collect();
    after.sort();
    assert_eq!(after, before);
    assert_eq!(mesh.face_count(), 2);
}

#[test]
fn test_collapse_prevents_non_manifold() {
    let positions = vec![
        [0.0, 0.0, 0.0],
        [1.0, 0.0, 0.0],
        [0.0, 1.0, 0.0],
        [-1.0, 0.0, 0.0],
        [0.0, -1.0, 0.0],
    ];
    let faces = vec![vec![0, 1, 2], vec![0, 2, 3], vec![0, 3, 4], vec![0, 4, 1]];

    let mut mesh = HalfEdgeMesh::from_indexed_faces(&positions, &faces).expect("Should create pyramid");

    let v0 = VertexId(0);
    let v1 = VertexId(1);
    let target = [0.5, 0.0, 0.0];

    let result = collapse_edge(&mut mesh, v0, v1, target, false);
    assert!(result.is_ok(), "Valid collapse should succeed");
}

#[test]
fn test_collapse_counts_and_merged_position() {
    let mut mesh = create_two_triangle_mesh();
    let h = mesh.halfedge_count();
    let r = collapse_edge(&mut mesh, VertexId(0), VertexId(2), [0.5, 0.5, 0.0], false);
    assert_eq!(r.unwrap(), VertexId(0));
    assert_eq!(mesh.halfedge_count(), h - 6);
    assert_eq!(mesh.face_count(), 0);
    assert_eq!(mesh.vertex(VertexId(0)).unwrap().position, [0.5, 0.5, 0.0]);
    assert!(mesh.vertex(VertexId(2)).is_none());
}

#[test]
fn test_collapse_missing_edge_message() {
    let mut mesh = create_two_triangle_mesh();
    match collapse_edge(&mut mesh, VertexId(1), VertexId(3), [0.0, 0.0, 0.0], false) {
        Err(TopologyError::InvalidEdge(msg)) => assert_eq!(msg, "No edge between vertices 1 and 3"),
        other => panic!("unexpected {:?}", other),
    }
    assert_eq!(mesh.vertex_count(), 4);
}

#[test]
fn test_collapse_refused_when_a_face_would_turn_over() {
    let mut mesh = create_two_triangle_mesh();
    let r = collapse_edge(&mut mesh, VertexId(0), VertexId(2), [9.0, 9.0, 0.0], true);
    assert!(matches!(r, Err(TopologyError::NonManifoldCollapse)));
    assert_eq!(mesh.vertex_count(), 4);
    assert_eq!(mesh.face_count(), 2);
}

#[test]
fn test_collapse_affected_faces() {
    let positions = vec![
        [0.0, 0.0, 0.0],
        [1.0, 0.0, 0.0],
        [0.0, 1.0, 0.0],
        [-1.0, 0.0, 0.0],
        [0.0, -1.0, 0.0],
    ];
    let faces = vec![vec![0, 1, 2], vec![0, 2, 3], vec![0, 3, 4], vec![0, 4, 1]];
    let mesh = HalfEdgeMesh::from_indexed_faces(&positions, &faces).unwrap();
    let mut affected: Vec<u32> = collapse_affected_faces(&mesh, VertexId(0), VertexId(2)).iter().map(|f| f.0).collect();
    affected.sort();
    assert_eq!(affected, vec![2, 3]);
}

#[test]
fn test_flip_edge_turns_the_diagonal() {
    let mut mesh = create_two_triangle_mesh();
    flip_edge(&mut mesh, VertexId(0), VertexId(2)).expect("flip should succeed");
    assert_eq!(mesh.vertex_count(), 4);
    assert_eq!(mesh.face_count(), 2);
    assert_eq!(mesh.halfedge_count(), 6);
    let mut after: Vec<(u32, u32)> = mesh.edges().iter().map(|e| (e.0 .0.min(e.1 .0), e.0 .0.max(e.1 .0))).collect();
    after.sort();
    assert_eq!(after, vec![(0, 1), (0, 3), (1, 2), (1, 3), (2, 3)]);
    assert_eq!(mesh.euler_characteristic(), 1);
    assert_eq!(mesh.face_vertices(FaceId(0)).len(), 3);
    assert_eq!(mesh.face_vertices(FaceId(1)).len(), 3);
    let neighbors_of_1: Vec<u32> = mesh.vertex_neighbors(VertexId(1)).iter().map(|v| v.0).collect();
    assert!(neighbors_of_1.contains(&3));
    assert!(mesh.validate().is_ok());
    // Flipping the new diagonal back restores the original edges.
    flip_edge(&mut mesh, VertexId(1), VertexId(3)).expect("flip back should succeed");
    let mut back: Vec<(u32, u32)> = mesh.edges().iter().map(|e| (e.0 .0.min(e.1 .0), e.0 .0.max(e.1 .0))).collect();
    back.sort();
    assert_eq!(back, vec![(0, 1), (0, 2), (0, 3), (1, 2), (2, 3)]);
}

#[test]
fn test_flip_edge_errors() {
    let mut mesh = create_two_triangle_mesh();
    match flip_edge(&mut mesh, VertexId(1), VertexId(3)) {
        Err(TopologyError::InvalidEdge(msg)) => assert_eq!(msg, "Edge not found"),
        other => panic!("unexpected {:?}", other),
    }
    let positions = vec![[0.0, 0.0, 0.0], [1.0, 0.0, 0.0], [1.0, 1.0, 0.0], [0.0, 1.0, 0.0], [2.0, 0.0, 0.0]];
    let mut quads = HalfEdgeMesh::from_indexed_faces(&positions, &[vec![0, 1, 2, 3], vec![1, 4, 2]]).unwrap();
    assert!(matches!(flip_edge(&mut quads, VertexId(1), VertexId(2)), Err(TopologyError::InvalidFlip)));
}

#[test]
fn test_is_valid_quad() {
    let positions = vec![[0.0, 0.0, 0.0], [1.0, 0.0, 0.0], [1.0, 1.0, 0.0], [0.0, 1.0, 0.0], [2.0, 0.0, 0.0]];
    let mesh = HalfEdgeMesh::from_indexed_faces(&positions, &[vec![0, 1, 2, 3], vec![1, 4, 2]]).unwrap();
    assert!(is_valid_quad(&mesh, FaceId(0)));
    assert!(!is_valid_quad(&mesh, FaceId(1)));
}

#[test]
fn test_analyze_mesh_counts() {
    let positions = vec![[0.0, 0.0, 0.0], [1.0, 0.0, 0.0], [1.0, 1.0, 0.0], [0.0, 1.0, 0.0], [2.0, 0.0, 0.0]];
    let mesh = HalfEdgeMesh::from_indexed_faces(&positions, &[vec![0, 1, 2, 3], vec![1, 4, 2]]).unwrap();
    let report = analyze_mesh(&mesh, vec![]);
    assert_eq!(report.vertex_count, 5);
    assert_eq!(report.face_count, 2);
    assert_eq!(report.triangle_count, 1);
    assert_eq!(report.quad_count, 1);
    assert_eq!(report.ngon_count, 0);
    assert_eq!(report.boundary_edge_count, 5);
    assert!(report.poles.is_empty());
    assert!(report.is_animation_ready());
    assert!(!is_subdiv_ready(&mesh));
    let quads = HalfEdgeMesh::from_indexed_faces(&positions, &[vec![0, 1, 2, 3]]).unwrap();
    assert!(is_subdiv_ready(&quads));
}

#[test]
fn test_animation_readiness_rules() {
    let positions = vec![[0.0, 0.0, 0.0], [1.0, 0.0, 0.0], [1.0, 1.0, 0.0], [0.5, 1.5, 0.0], [0.0, 1.0, 0.0]];
    let mesh = HalfEdgeMesh::from_indexed_faces(&positions, &[vec![0, 1, 2, 3, 4]]).unwrap();
    let report = analyze_mesh(&mesh, vec![]);
    assert_eq!(report.ngon_count, 1);
    assert!(!report.is_animation_ready());

    let quad = HalfEdgeMesh::from_indexed_faces(&positions, &[vec![0, 1, 2, 4]]).unwrap();
    let degenerate = analyze_mesh(&quad, vec![FaceId(0)]);
    assert_eq!(degenerate.degenerate_faces, vec![FaceId(0)]);
    assert!(!degenerate.is_animation_ready());

    let mut poles = analyze_mesh(&quad, vec![]);
    poles.poles.push((VertexId(0), MAX_POLE_VALENCE + 1));
    assert!(!poles.is_animation_ready());
    poles.poles[0].1 = MAX_POLE_VALENCE;
    assert!(poles.is_animation_ready());
}

#[test]
fn test_poles_found_around_a_fan() {
    // Vertex 0 surrounded by 8 triangles: 8 neighbours.
    let mut positions = vec![[0.0f32, 0.0, 0.0]];
    for i in 0..8 {
        let a = i as f32;
        positions.push([a, 1.0, 0.0]);
    }
    let faces: Vec<Vec<u32>> = (0..8u32).map(|i| vec![0, 1 + i, 1 + (i + 1) % 8]).collect();
    let mesh = HalfEdgeMesh::from_indexed_faces(&positions, &faces).unwrap();
    let report = analyze_mesh(&mesh, vec![]);
    assert_eq!(report.poles, vec![(VertexId(0), 8)]);
    assert!(!report.is_animation_ready());
}

#[test]
fn test_collapse_frees_a_vertex_id_that_is_recycled() {
    let mut mesh = create_two_triangle_mesh();
    collapse_edge(&mut mesh, VertexId(0), VertexId(2), [0.5, 0.5, 0.0], false).unwrap();
    let id = mesh.add_vertex([3.0, 3.0, 3.0]);
    assert_eq!(id, VertexId(2));
    assert_eq!(mesh.vertex_count(), 4);
    assert_eq!(mesh.vertex(id).unwrap().position, [3.0, 3.0, 3.0]);
}

#[test]
fn test_collapse_in_closed_mesh_keeps_it_valid() {
    // An octahedron: the twins across each removed triangle become each other's twins.
    let positions = vec![
        [1.0, 0.0, 0.0],
        [-1.0, 0.0, 0.0],
        [0.0, 1.0, 0.0],
        [0.0, -1.0, 0.0],
        [0.0, 0.0, 1.0],
        [0.0, 0.0, -1.0],
    ];
    let faces = vec![
        vec![0, 2, 4],
        vec![2, 1, 4],
        vec![1, 3, 4],
        vec![3, 0, 4],
        vec![2, 0, 5],
        vec![1, 2, 5],
        vec![3, 1, 5],
        vec![0, 3, 5],
    ];
    let mut mesh = HalfEdgeMesh::from_indexed_faces(&positions, &faces).unwrap();
    assert!(mesh.validate().is_ok());
    assert_eq!(mesh.euler_characteristic(), 2);
    collapse_edge(&mut mesh, VertexId(0), VertexId(4), [0.5, 0.0, 0.5], false).unwrap();
    assert_eq!(mesh.vertex_count(), 5);
    assert_eq!(mesh.face_count(), 6);
    assert!(mesh.is_watertight());
    assert_eq!(mesh.edges().len(), 9);
    assert_eq!(mesh.euler_characteristic(), 2);
    assert_eq!(mesh.halfedge_count(), 18);
    assert!(mesh.validate().is_ok());
    assert!(mesh.vertex(VertexId(4)).is_none());
    assert_eq!(mesh.vertex_neighbors(VertexId(0)).len(), 4);
}

#[test]
fn test_readiness_checks() {
    let positions = vec![[0.0, 0.0, 0.0], [1.0, 0.0, 0.0], [1.0, 1.0, 0.0], [0.5, 1.5, 0.0], [0.0, 1.0, 0.0]];
    let mesh = HalfEdgeMesh::from_indexed_faces(&positions, &[vec![0, 1, 2, 3, 4]]).unwrap();
    let mut report = analyze_mesh(&mesh, vec![]);
    report.poles.push((VertexId(1), 7));
    report.poles.push((VertexId(2), 5));
    let checks = report.readiness_checks(mesh.is_watertight());
    let summary: Vec<(ReadinessCheck, bool, usize)> = checks.iter().map(|c| (c.check, c.passed, c.count)).collect();
    assert_eq!(
        summary,
        vec![
            (ReadinessCheck::NoNgons, false, 1),
            (ReadinessCheck::NoNonManifoldEdges, true, 0),
            (ReadinessCheck::NoDegenerateFaces, true, 0),
            (ReadinessCheck::NoExcessivePoles, false, 1),
            (ReadinessCheck::Watertight, false, 5),
        ]
    );
}

#[test]
fn test_flip_in_closed_mesh_keeps_it_valid_and_watertight() {
    let positions = vec![
        [1.0, 0.0, 0.0],
        [-1.0, 0.0, 0.0],
        [0.0, 1.0, 0.0],
        [0.0, -1.0, 0.0],
        [0.0, 0.0, 1.0],
        [0.0, 0.0, -1.0],
    ];
    let faces = vec![
        vec![0, 2, 4],
        vec![2, 1, 4],
        vec![1, 3, 4],
        vec![3, 0, 4],
        vec![2, 0, 5],
        vec![1, 2, 5],
        vec![3, 1, 5],
        vec![0, 3, 5],
    ];
    let mut mesh = HalfEdgeMesh::from_indexed_faces(&positions, &faces).unwrap();
    flip_edge(&mut mesh, VertexId(0), VertexId(2)).expect("flip should succeed");
    assert!(mesh.validate().is_ok());
    assert!(mesh.is_watertight());
    assert_eq!((mesh.vertex_count(), mesh.halfedge_count(), mesh.face_count()), (6, 24, 8));
    assert_eq!(mesh.edges().len(), 12);
    assert_eq!(mesh.euler_characteristic(), 2);
    let keys: Vec<(u32, u32)> = mesh.edges().iter().map(|e| (e.0 .0.min(e.1 .0), e.0 .0.max(e.1 .0))).collect();
    assert!(!keys.contains(&(0, 2)));
    assert!(keys.contains(&(4, 5)));
    let n4: Vec<u32> = mesh.vertex_neighbors(VertexId(4)).iter().map(|v| v.0).collect();
    assert!(n4.contains(&5));
}

#[test]
fn test_collapse_keeps_euler_on_closed_mesh() {
    // A square bipyramid: collapsing an equator edge merges the two edges to each pole
    // (the link condition) and keeps the sphere's Euler characteristic.
    let positions = vec![
        [1.0, 0.0, 0.0],
        [0.0, 1.0, 0.0],
        [-1.0, 0.0, 0.0],
        [0.0, -1.0, 0.0],
        [0.0, 0.0, 1.0],
        [0.0, 0.0, -1.0],
    ];
    let faces = vec![
        vec![0, 1, 4],
        vec![1, 2, 4],
        vec![2, 3, 4],
        vec![3, 0, 4],
        vec![1, 0, 5],
        vec![2, 1, 5],
        vec![3, 2, 5],
        vec![0, 3, 5],
    ];
    let mut mesh = HalfEdgeMesh::from_indexed_faces(&positions, &faces).unwrap();
    assert_eq!(mesh.edges().len(), 12);
    assert_eq!(mesh.euler_characteristic(), 2);
    collapse_edge(&mut mesh, VertexId(0), VertexId(1), [0.5, 0.5, 0.0], false).unwrap();
    assert_eq!(mesh.vertex_count(), 5);
    assert_eq!(mesh.edges().len(), 9);
    assert_eq!(mesh.face_count(), 6);
    assert_eq!(mesh.euler_characteristic(), 2);
}

#[test]
fn test_export_after_collapse_names_written_positions() {
    let positions = vec![
        [1.0, 0.0, 0.0],
        [0.0, 1.0, 0.0],
        [-1.0, 0.0, 0.0],
        [0.0, -1.0, 0.0],
        [0.0, 0.0, 1.0],
        [0.0, 0.0, -1.0],
    ];
    let faces = vec![
        vec![0, 1, 4],
        vec![1, 2, 4],
        vec![2, 3, 4],
        vec![3, 0, 4],
        vec![1, 0, 5],
        vec![2, 1, 5],
        vec![3, 2, 5],
        vec![0, 3, 5],
    ];
    let mut mesh = HalfEdgeMesh::from_indexed_faces(&positions, &faces).unwrap();
    collapse_edge(&mut mesh, VertexId(0), VertexId(1), [0.5, 0.5, 0.0], false).unwrap();
    assert_eq!(mesh.vertex_count(), 5);
    let text = ObjExporter::face_section(&mesh, false, false);
    // Live vertices 0, 2, 3, 4, 5 are written as positions 1..=5.
    assert!(text.contains("f 2 3 4\n"));
    for word in text.split_whitespace().filter(|w| *w != "f") {
        let idx: usize = word.parse().unwrap();
        assert!(idx >= 1 && idx <= 5);
    }
}

/// A tetrahedron with consistently wound faces.
fn create_tetrahedron() -> HalfEdgeMesh<[f32; 3]> {
    let positions = vec![[0.0, 0.0, 0.0], [1.0, 0.0, 0.0], [0.5, 1.0, 0.0], [0.5, 0.5, 1.0]];
    let faces = vec![vec![0, 2, 1], vec![0, 1, 3], vec![1, 2, 3], vec![0, 3, 2]];
    HalfEdgeMesh::from_indexed_faces(&positions, &faces).expect("Should create tetrahedron")
}

/// Twice the area of a face's first triangle, from its vertex positions.
fn doubled_area(mesh: &HalfEdgeMesh<[f32; 3]>, f: FaceId) -> f32 {
    let vs = mesh.face_vertices(f);
    let p: Vec<[f32; 3]> = vs.iter().map(|v| mesh.vertex(*v).unwrap().position).collect();
    let e1 = [p[1][0] - p[0][0], p[1][1] - p[0][1], p[1][2] - p[0][2]];
    let e2 = [p[2][0] - p[0][0], p[2][1] - p[0][1], p[2][2] - p[0][2]];
    let c = [e1[1] * e2[2] - e1[2] * e2[1], e1[2] * e2[0] - e1[0] * e2[2], e1[0] * e2[1] - e1[1] * e2[0]];
    (c[0] * c[0] + c[1] * c[1] + c[2] * c[2]).sqrt()
}

#[test]
fn test_collapse_edge_preserves_manifold() {
    let mut mesh = create_tetrahedron();
    let original_euler = mesh.euler_characteristic();
    let result = collapse_edge(&mut mesh, VertexId(0), VertexId(1), [0.5, 0.0, 0.0], false);
    assert!(result.is_ok());
    // Euler characteristic should be preserved for manifold meshes
    let new_euler = mesh.euler_characteristic();
    assert_eq!(new_euler, original_euler, "Euler characteristic should be preserved");
    // Mesh should still be watertight
    assert!(mesh.is_watertight(), "Mesh should remain watertight");
    assert!(mesh.validate().is_ok());
}

#[test]
fn test_collapse_and_validate() {
    let mut mesh = create_tetrahedron();
    let faces_before = analyze_mesh(&mesh, vec![]).face_count;
    collapse_edge(&mut mesh, VertexId(0), VertexId(1), [0.5, 0.0, 0.0], false).unwrap();
    let degenerate: Vec<FaceId> = mesh
        .faces()
        .iter()
        .map(|(f, _)| *f)
        .filter(|f| doubled_area(&mesh, *f) / 2.0 < 1e-6)
        .collect();
    let report_after = analyze_mesh(&mesh, degenerate);
    assert!(report_after.face_count < faces_before, "Should have fewer faces after collapse");
    assert!(report_after.degenerate_faces.is_empty(), "Should not create degenerate faces");
}

#[test]
fn test_neighbors_cover_every_fan_at_a_vertex() {
    // Two closed fans of four triangles meet only at vertex 0.
    let mut positions = vec![[0.0f32, 0.0, 0.0]];
    for i in 0..8 {
        positions.push([i as f32, 1.0, 0.0]);
    }
    let mut faces: Vec<Vec<u32>> = Vec::new();
    for i in 0..4u32 {
        faces.push(vec![0, 1 + i, 1 + (i + 1) % 4]);
        faces.push(vec![0, 5 + i, 5 + (i + 1) % 4]);
    }
    let mesh = HalfEdgeMesh::from_indexed_faces(&positions, &faces).unwrap();
    let mut ns: Vec<u32> = mesh.vertex_neighbors(VertexId(0)).iter().map(|v| v.0).collect();
    ns.sort();
    assert_eq!(ns, vec![1, 2, 3, 4, 5, 6, 7, 8]);
    assert_eq!(mesh.vertex_faces(VertexId(0)).len(), 8);
    let report = analyze_mesh(&mesh, vec![]);
    assert_eq!(report.poles, vec![(VertexId(0), 8)]);
}

#[test]
fn test_validate_refuses_a_link_to_a_freed_half_edge() {
    let positions = vec![
        [1.0, 0.0, 0.0],
        [-1.0, 0.0, 0.0],
        [0.0, 1.0, 0.0],
        [0.0, -1.0, 0.0],
        [0.0, 0.0, 1.0],
        [0.0, 0.0, -1.0],
    ];
    let faces = vec![
        vec![0, 2, 4],
        vec![2, 1, 4],
        vec![1, 3, 4],
        vec![3, 0, 4],
        vec![2, 0, 5],
        vec![1, 2, 5],
        vec![3, 1, 5],
        vec![0, 3, 5],
    ];
    let mut mesh = HalfEdgeMesh::from_indexed_faces(&positions, &faces).unwrap();
    collapse_edge(&mut mesh, VertexId(0), VertexId(4), [0.5, 0.0, 0.5], false).unwrap();
    assert!(mesh.validate().is_ok());
    let freed = (0..24u32).find(|&i| mesh.halfedge(topoflow::mesh::HalfEdgeId(i)).is_none()).unwrap();
    let first_live = (0..24u32).find(|&i| mesh.halfedge(topoflow::mesh::HalfEdgeId(i)).is_some()).unwrap();
    mesh.halfedge_mut(topoflow::mesh::HalfEdgeId(first_live)).unwrap().next = topoflow::mesh::HalfEdgeId(freed);
    match mesh.validate() {
        Err(topoflow::mesh::MeshError::InvalidTopology(msg)) => {
            assert_eq!(msg, format!("HalfEdge {} has invalid next/prev", first_live))
        },
        other => panic!("unexpected {:?}", other),
    }
}

#[test]
fn test_boundary_edge_refused_from_either_end() {
    let positions = vec![[0.0, 0.0, 0.0], [1.0, 0.0, 0.0], [0.5, 1.0, 0.0]];
    let mut mesh = HalfEdgeMesh::from_indexed_faces(&positions, &[vec![0, 1, 2]]).unwrap();
    assert!(matches!(
        collapse_edge(&mut mesh, VertexId(1), VertexId(0), [0.5, 0.0, 0.0], false),
        Err(TopologyError::BoundaryEdge)
    ));
    assert!(matches!(
        collapse_edge(&mut mesh, VertexId(0), VertexId(1), [0.5, 0.0, 0.0], false),
        Err(TopologyError::BoundaryEdge)
    ));
    assert!(matches!(flip_edge(&mut mesh, VertexId(1), VertexId(0)), Err(TopologyError::BoundaryEdge)));
    assert!(matches!(flip_edge(&mut mesh, VertexId(0), VertexId(1)), Err(TopologyError::BoundaryEdge)));
    assert_eq!(mesh.face_count(), 1);
    assert!(mesh.validate().is_ok());
}
