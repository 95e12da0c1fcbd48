//! Blender `.blend` files are read by running Blender to export the first mesh
//! object as `.obj`, which the `.obj` reader then loads.
use vstd::prelude::*;

verus! {

/// Reader of Blender files, through a Blender process.
pub struct BlendLoader;

} // verus!
