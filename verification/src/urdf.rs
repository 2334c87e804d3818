use vstd::prelude::*;

verus! {

/// Per-frame update of the 3D robot model; the 3D view has no robot
/// animation yet, so a frame changes nothing.
pub fn parse_and_animate_robot() {
}

} // verus!
