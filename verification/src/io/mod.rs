//! Reading and writing mesh files.
pub mod lex;
pub mod obj;
pub mod obj_export;
pub mod blend;

pub use obj::ObjLoader;
pub use obj_export::ObjExporter;
pub use blend::BlendLoader;
pub mod round_trip;
pub mod format;
