//! TopoFlow: half-edge mesh topology for retopology work.
pub mod mesh;
pub mod io;
pub mod algorithms;
pub mod utils;
pub mod ui;
pub mod viewport;

pub use mesh::HalfEdgeMesh;
