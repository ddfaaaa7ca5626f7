//! A minimal vertical menu: a non-empty list of items and a selection moved
//! by directional input. Drawing the menu is the render collaborator's job;
//! items expose a label for it.

use vstd::prelude::*;

use crate::input::ControllerInput;

verus! {

/// Where one vertical input step moves a menu selection: positive dpad_y is
/// up, and the selection is clamped to the list.
pub open spec fn menu_step(ix: int, len: int, dy: i32) -> int {
    if dy > 0 {
        if ix > 0 {
            ix - 1
        } else {
            0
        }
    } else if dy < 0 {
        if ix + 1 < len {
            ix + 1
        } else {
            len - 1
        }
    } else {
        ix
    }
}

/// An entry a menu can hold: copyable, with a label for the UI layer.
pub trait MenuItem: Copy {
    fn menu_label(&self) -> &'static str;
}

#[derive(Clone, Debug)]
pub struct Menu<T: MenuItem> {
    items: Vec<T>,
    selected: usize,
}

impl<T: MenuItem> Menu<T> {
    pub closed spec fn items_seq(self) -> Seq<T> {
        self.items@
    }

    pub closed spec fn selected_ix(self) -> int {
        self.selected as int
    }

    /// A usable menu: at least one item, selection in range.
    pub open spec fn wf(self) -> bool {
        1 <= self.items_seq().len() && 0 <= self.selected_ix() < self.items_seq().len()
    }

    pub fn new(values: Vec<T>) -> (r: Self)
        requires
            values@.len() >= 1,
        ensures
            r.wf(),
            r.items_seq() == values@,
            r.selected_ix() == 0,
    {
        Self { items: values, selected: 0 }
    }

    /// Move the selection one step per vertical input (positive dpad_y is
    /// up), clamped to the list.
    pub fn update(&mut self, input: &ControllerInput)
        requires
            old(self).wf(),
            input.dpad_wf(),
        ensures
            final(self).wf(),
            final(self).items_seq() == old(self).items_seq(),
            final(self).selected_ix() == menu_step(
                old(self).selected_ix(),
                old(self).items_seq().len() as int,
                input.dpad_y,
            ),
    {
        if input.dpad_y > 0 {
            if self.selected > 0 {
                self.selected = self.selected - 1;
            }
        } else if input.dpad_y < 0 {
            if self.selected < self.items.len() - 1 {
                self.selected = self.selected + 1;
            }
        }
    }

    pub fn selected(&self) -> (r: T)
        requires
            self.wf(),
        ensures
            r == self.items_seq()[self.selected_ix()],
    {
        self.items[self.selected]
    }
}

} // verus!
