//! Viewport data.
pub mod mesh_buffer;

pub use mesh_buffer::MeshBuffer;
