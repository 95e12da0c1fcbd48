//! Spatial data structures for mesh queries.
use vstd::prelude::*;

verus! {

/// Axis-aligned bounding box tree for ray-mesh intersection; it holds no boxes yet.
pub struct AABBTree {}

impl AABBTree {
    /// An empty tree.
    pub fn new() -> (r: Self)
        ensures
            r == (AABBTree {}),
    {
        AABBTree {}
    }
}

} // verus!
