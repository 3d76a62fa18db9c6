use vstd::prelude::*;

verus! {

/// Inputs the presentation layer maps keys and buttons to.
#[derive(Clone, Copy, PartialEq, Eq, Structural, Debug, Hash)]
pub enum Action {
    CameraUp,
    CameraDown,
    CameraLeft,
    CameraRight,
    CameraFasterSpeed,
    CameraReset,
    CameraPan,
    CameraZoomIn,
    CameraZoomOut,
    ToggleDebugColliders,
    ToggleDebugPrints,
    ToggleInspector,
    Restart,
}

} // verus!
