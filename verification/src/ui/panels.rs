//! The state behind the application's panels.
use vstd::prelude::*;

verus! {

/// The toolbar: which tool is active.
pub struct Toolbar {
    pub current_tool: Tool,
}

/// Interactive tools.
pub enum Tool {
    Select,
    Move,
    Rotate,
    Scale,
    Draw,
    Relax,
    Slide,
}

/// The properties panel: retopology settings.
pub struct PropertiesPanel {
    pub target_faces: usize,
    pub symmetry_enabled: bool,
    pub symmetry_axis: SymmetryAxis,
}

/// The axis of the symmetry plane.
pub enum SymmetryAxis {
    X,
    Y,
    Z,
}

/// The outliner panel (objects and materials).
pub struct OutlinerPanel {}

} // verus!
