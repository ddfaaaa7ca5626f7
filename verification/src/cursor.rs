//! The tile cursor: a grid position moved by directional input and clamped
//! to the map. Its smooth on-screen interpolation and sprite belong to the
//! render collaborator.

use vstd::prelude::*;

use crate::input::ControllerInput;
use crate::map::GameMap;
use crate::math::Point;

verus! {

/// Clamp `v` into the inclusive interval [lo, hi].
pub open spec fn clamp_spec(v: int, lo: int, hi: int) -> int {
    if v < lo {
        lo
    } else if v > hi {
        hi
    } else {
        v
    }
}

#[derive(Clone, Copy, PartialEq, Eq, Structural, Debug)]
pub struct Cursor {
    pub pos: Point,
}

/// Where one directional step moves a cursor: one step per axis, screen-up
/// decreasing grid y, clamped to the map.
pub open spec fn moved_cursor(c: Cursor, input: ControllerInput, map: GameMap) -> Cursor {
    Cursor {
        pos: Point {
            x: clamp_spec(c.pos.x + input.dpad_x, 0, map.width - 1) as i32,
            y: clamp_spec(c.pos.y - input.dpad_y, 0, map.height - 1) as i32,
        },
    }
}

impl Cursor {
    pub fn new(pos: Point) -> (r: Self)
        ensures
            r.pos == pos,
    {
        Self { pos }
    }

    pub fn get_pos(&self) -> (r: Point)
        ensures
            r == self.pos,
    {
        self.pos
    }

    pub fn set_pos(&mut self, pos: Point)
        ensures
            final(self).pos == pos,
    {
        self.pos = pos;
    }

    /// Shift the cursor one step per directional input (screen-up is
    /// positive dpad_y, which decreases the grid y), clamped to the map.
    pub fn update(&mut self, input: &ControllerInput, map: &GameMap)
        requires
            map.wf(),
            map.in_bounds_spec(old(self).pos),
            input.dpad_wf(),
        ensures
            *final(self) == moved_cursor(*old(self), *input, *map),
            map.in_bounds_spec(final(self).pos),
    {
        let mut x: i32 = self.pos.x + input.dpad_x;
        let mut y: i32 = self.pos.y - input.dpad_y;
        if x < 0 {
            x = 0;
        }
        if x > (map.width as i32) - 1 {
            x = (map.width as i32) - 1;
        }
        if y < 0 {
            y = 0;
        }
        if y > (map.height as i32) - 1 {
            y = (map.height as i32) - 1;
        }
        self.pos = Point { x, y };
    }
}

} // verus!
