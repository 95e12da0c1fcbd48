//! Tests for attribute storage, the decimation loop and small utilities.

use topoflow::algorithms::decimation::{admits_edge, CollapseLoop, CollapseStep};
use topoflow::algorithms::quad_dominant::tri_to_quad;
use topoflow::mesh::attributes::AttributeStore;
use topoflow::mesh::{HalfEdgeMesh, VertexId};
use topoflow::utils::sort::sorted_copy;
use topoflow::utils::spatial::AABBTree;
use topoflow::viewport::MeshBuffer;

fn two_triangles() -> HalfEdgeMesh<[f32; 3]> {
    let positions = vec![[0.0, 0.0, 0.0], [1.0, 0.0, 0.0], [1.0, 1.0, 0.0], [0.0, 1.0, 0.0]];
    HalfEdgeMesh::from_indexed_faces(&positions, &[vec![0, 1, 2], vec![0, 2, 3]]).unwrap()
}

#[test]
fn test_attribute_store() {
    let mut store: AttributeStore<i32> = AttributeStore::new();
    assert_eq!(store.get("weight", 0), None);
    store.add_attribute("weight", vec![1, 2, 3]);
    store.add_attribute("crease", vec![0]);
    assert_eq!(store.get("weight", 1), Some(&2));
    assert_eq!(store.get("weight", 3), None);
    store.set("weight", 1, 20);
    store.set("weight", 7, 99);
    store.set("missing", 0, 5);
    assert_eq!(store.get("weight", 1), Some(&20));
    assert_eq!(store.get("missing", 0), None);
    store.add_attribute("weight", vec![9]);
    assert_eq!(store.get("weight", 0), Some(&9));
    assert_eq!(store.get("weight", 1), None);
    assert_eq!(store.get("crease", 0), Some(&0));
}

#[test]
fn test_collapse_loop_start() {
    assert!(CollapseLoop::start(10, 10, 5).is_none());
    assert!(CollapseLoop::start(10, 4, 0).is_none());
    let l = CollapseLoop::start(10, 4, 5).unwrap();
    assert_eq!(l.max_iterations, 10);
    assert_eq!(l.iterations, 0);
    assert_eq!(l.target, 4);
}

#[test]
fn test_collapse_loop_steps() {
    let mut mesh = two_triangles();
    let mut l = CollapseLoop::start(4, 2, 3).unwrap();
    match l.try_candidate(&mut mesh, VertexId(0), VertexId(2), [0.5, 0.5, 0.0], false) {
        CollapseStep::Collapsed(v, fresh) => {
            assert_eq!(v, VertexId(0));
            // Both triangles beside the edge go, so the merged vertex has no neighbours left.
            assert!(fresh.is_empty());
        },
        _ => panic!("expected a collapse"),
    }
    assert_eq!(mesh.vertex_count(), 3);
    // The same edge again: skipped.
    assert!(matches!(l.try_candidate(&mut mesh, VertexId(2), VertexId(0), [0.0; 3], false), CollapseStep::Skip));
    // A missing edge: the collapse is refused.
    assert!(matches!(l.try_candidate(&mut mesh, VertexId(1), VertexId(3), [0.0; 3], false), CollapseStep::Failed(_)));
    assert_eq!(l.iterations, 3);
    // The iteration cap (6) is not reached, but the next pops run past it.
    for _ in 0..3 {
        l.try_candidate(&mut mesh, VertexId(1), VertexId(1), [0.0; 3], false);
    }
    assert!(matches!(l.try_candidate(&mut mesh, VertexId(0), VertexId(1), [0.0; 3], false), CollapseStep::Stop));
}

#[test]
fn test_collapse_loop_stops_at_target() {
    let mut mesh = two_triangles();
    let mut l = CollapseLoop::start(4, 4, 1);
    assert!(l.is_none());
    let mut l2 = CollapseLoop::start(5, 4, 2).unwrap();
    assert!(matches!(l2.try_candidate(&mut mesh, VertexId(0), VertexId(2), [0.0; 3], false), CollapseStep::Stop));
    l = None;
    assert!(l.is_none());
}

#[test]
fn test_admits_edge() {
    let mesh = two_triangles();
    assert!(!admits_edge(&mesh, VertexId(0), VertexId(1), true));
    assert!(admits_edge(&mesh, VertexId(0), VertexId(1), false));
    assert!(admits_edge(&mesh, VertexId(0), VertexId(9), true));
}

#[test]
fn test_tri_to_quad_leaves_mesh() {
    let mut mesh = two_triangles();
    assert!(tri_to_quad(&mut mesh).is_ok());
    assert_eq!(mesh.face_count(), 2);
}

#[test]
fn test_sorted_copy() {
    assert_eq!(sorted_copy(&vec![3, 1, 2, 1]), vec![1, 1, 2, 3]);
}

#[test]
fn test_stubs() {
    let _tree = AABBTree::new();
    let _buffer = MeshBuffer::from_mesh(&two_triangles());
}
