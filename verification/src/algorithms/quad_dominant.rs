//! Quad-dominant conversion: turning triangle meshes into mostly-quad meshes by
//! pairing triangles.
use vstd::prelude::*;
use crate::mesh::halfedge::{HalfEdgeMesh, MeshError};

verus! {

/// Convert a triangle mesh to a quad-dominant one. Triangle pairing is not done yet:
/// the mesh is left as it is.
pub fn tri_to_quad<P>(mesh: &mut HalfEdgeMesh<P>) -> (r: Result<(), MeshError>)
    ensures
        r is Ok,
        final(mesh)@ == old(mesh)@,
{
    Ok(())
}

} // verus!
