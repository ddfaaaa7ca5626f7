//! Movement animation: walk a unit along a reconstructed path, one step per
//! elapsed tick interval. The state advances at most one step per frame and
//! otherwise reports no change, so it is ticked exactly once per frame; the
//! smooth on-screen interpolation between steps is derived by the render
//! collaborator from `timer_ms` and `TICK_MS`.

use vstd::prelude::*;

use crate::input::ControllerInput;
use crate::map::GameMap;
use crate::math::Point;
use crate::state::{outcome_wf, GameMsg, GameState, StepOutcome, Transition};
use crate::unit::Unit;
use crate::world::{unit_wf, WorldState};

verus! {

/// Milliseconds per movement step.
pub const TICK_MS: u32 = 150;

pub struct MoveAnimation {
    /// Time accumulated toward the next step, always below `TICK_MS`.
    pub timer_ms: u32,
    pub unit: Unit,
    /// Remaining route, ordered goal first; the next step is the last
    /// element.
    pub path: Vec<Point>,
}

/// What one tick of the animation produces, as a relation between the state
/// before, the frame's message and input, and the outcome.
pub open spec fn move_animation_step(
    s: MoveAnimation,
    msg: Option<GameMsg>,
    input: ControllerInput,
    world: WorldState,
    r: StepOutcome,
) -> bool {
    &&& r.commands@.len() == 0
    &&& s.path@.len() == 0 ==> {
        &&& r.transition is Pop
        &&& r.post_msg == Some(GameMsg::MoveAnimationDone(s.unit))
        &&& r.state matches GameState::MoveAnimation(m) && m == s
    }
    &&& s.path@.len() > 0 ==> r.transition is Stay && r.post_msg is None
    &&& s.path@.len() > 0 && input.frame_ms >= TICK_MS - s.timer_ms ==> {
        &&& r.state matches GameState::MoveAnimation(m) && m.timer_ms == 0 && m.unit == (Unit {
            pos: s.path@.last(),
            ..s.unit
        }) && m.path@ == s.path@.drop_last()
    }
    &&& s.path@.len() > 0 && input.frame_ms < TICK_MS - s.timer_ms ==> {
        &&& r.state matches GameState::MoveAnimation(m) && m.timer_ms == s.timer_ms
            + input.frame_ms && m.unit == s.unit && m.path@ == s.path@
    }
}

impl MoveAnimation {
    pub open spec fn wf(self, map: GameMap) -> bool {
        &&& unit_wf(self.unit, map)
        &&& self.timer_ms < TICK_MS
        &&& forall|i: int| 0 <= i < self.path@.len() ==> map.in_bounds_spec(#[trigger] self.path@[i])
    }

    pub fn new(unit: Unit, path: Vec<Point>) -> (r: Self)
        ensures
            r.timer_ms == 0,
            r.unit == unit,
            r.path == path,
    {
        Self { timer_ms: 0, unit, path }
    }

    /// Advance the animation by the frame's elapsed time. On step completion
    /// the source-of-truth position is updated; on path exhaustion the state
    /// posts move-finished and pops. Any pending message is unexpected here
    /// and is discarded.
    pub fn update(self, msg: Option<GameMsg>, input: &ControllerInput, world: &WorldState) -> (r:
        StepOutcome)
        requires
            world.wf(),
            self.wf(world.map),
            input.dpad_wf(),
        ensures
            outcome_wf(r, world.map),
            move_animation_step(self, msg, *input, *world, r),
    {
        let mut this = self;
        if this.path.len() == 0 {
            let done = GameMsg::MoveAnimationDone(this.unit);
            return StepOutcome {
                state: GameState::MoveAnimation(this),
                transition: Transition::Pop,
                commands: Vec::new(),
                post_msg: Some(done),
            };
        }
        if input.frame_ms >= TICK_MS - this.timer_ms {
            match this.path.pop() {
                Some(next) => {
                    this.unit.pos = next;
                },
                None => {
                    proof {
                        assert(false);
                    }
                },
            }
            this.timer_ms = 0;
        } else {
            this.timer_ms = this.timer_ms + input.frame_ms;
        }
        StepOutcome {
            state: GameState::MoveAnimation(this),
            transition: Transition::Stay,
            commands: Vec::new(),
            post_msg: None,
        }
    }
}

} // verus!
