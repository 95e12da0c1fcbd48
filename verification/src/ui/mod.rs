//! User interface state: tools, modes and panel settings.
pub mod panels;

pub use panels::{OutlinerPanel, PropertiesPanel, SymmetryAxis, Tool, Toolbar};
