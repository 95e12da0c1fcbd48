//! GPU mesh buffers.
use vstd::prelude::*;
use crate::mesh::halfedge::HalfEdgeMesh;

verus! {

/// The GPU buffers of a mesh; none are kept yet.
pub struct MeshBuffer {}

impl MeshBuffer {
    /// The buffers for a mesh; nothing is uploaded yet.
    pub fn from_mesh<P>(mesh: &HalfEdgeMesh<P>) -> (r: Self)
        ensures
            r == (MeshBuffer {}),
    {
        MeshBuffer {}
    }
}

} // verus!
