//! The input collaborator's per-frame snapshot. The virtual-controller
//! polling, button layout and repeat timing live outside this crate; the
//! core consumes edge-triggered confirm/cancel presses, a repeat-timed
//! directional axis, and the frame's elapsed time.

use vstd::prelude::*;

verus! {

/// One frame of controller input, as the input collaborator hands it over.
#[derive(Clone, Copy, PartialEq, Eq, Structural, Debug)]
pub struct ControllerInput {
    /// Edge-triggered accept press (just pressed this frame).
    pub confirm: bool,
    /// Edge-triggered cancel press (just pressed this frame).
    pub cancel: bool,
    /// Repeat-timed horizontal direction, in {-1, 0, 1}.
    pub dpad_x: i32,
    /// Repeat-timed vertical direction, in {-1, 0, 1}.
    pub dpad_y: i32,
    /// Elapsed time of the frame, in milliseconds.
    pub frame_ms: u32,
}

impl ControllerInput {
    /// Directional values are discrete single steps.
    pub open spec fn dpad_wf(self) -> bool {
        -1 <= self.dpad_x <= 1 && -1 <= self.dpad_y <= 1
    }

    /// The snapshot with nothing pressed and no time elapsed: what chained
    /// same-frame transitions see after the first state consumed the frame's
    /// input.
    pub fn neutral() -> (r: Self)
        ensures
            r == (ControllerInput { confirm: false, cancel: false, dpad_x: 0, dpad_y: 0, frame_ms: 0 }),
            r.dpad_wf(),
    {
        ControllerInput { confirm: false, cancel: false, dpad_x: 0, dpad_y: 0, frame_ms: 0 }
    }
}

} // verus!
