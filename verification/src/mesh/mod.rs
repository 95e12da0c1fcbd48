//! Mesh module: the half-edge data structure and its topology operations.
pub mod halfedge;
pub mod construction;
pub mod traversal;
pub mod topology;
pub mod validation;
pub mod laws;
pub mod euler;
pub mod collapse_laws;
pub mod attributes;

pub use halfedge::{EdgeId, FaceId, HalfEdgeId, HalfEdgeMesh, MeshError, VertexId};
pub use topology::{TopologyError, collapse_edge, flip_edge};
