//! What the user does to the grid: the pointer and the edit mode.

use vstd::prelude::*;

verus! {

/// The pointer: the grid cell that it is over, and whether its primary
/// button is held.
#[derive(Clone, Copy, Debug)]
pub struct Mouse {
    pub grid_pos: (usize, usize),
    pub left_button_pressed: bool,
}

impl Default for Mouse {
    /// A pointer over the cell `(0, 0)` with the button released.
    fn default() -> (mouse: Mouse)
        ensures
            mouse.grid_pos == (0usize, 0usize),
            !mouse.left_button_pressed,
    {
        Mouse { grid_pos: (0, 0), left_button_pressed: false }
    }
}

/// What a pointer drag does to a cell: `Add` fills it, `Subtract` empties it.
#[derive(Clone, Copy, Debug, PartialEq, Eq, Structural)]
pub enum UserMode {
    Add,
    Subtract,
}

impl UserMode {
    /// The occupancy that a drag in this mode gives a cell.
    pub open spec fn fills(self) -> bool {
        self is Add
    }
}

} // verus!
