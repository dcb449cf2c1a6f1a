//! A projectile fired at one invader. It is anchored at the firing line and
//! moves one row per micro-tick toward the top of the screen, where rows are
//! smaller; it resolves to a hit just past its target's row.

use crate::invader::Invader;
use vstd::prelude::*;

verus! {

#[derive(Clone, Copy, Debug, PartialEq, Eq, Structural)]
pub struct Arrow {
    pub total_rows: u16,
    pub current_row: u16,
    pub visible: bool,
    pub target: Invader,
}

impl Arrow {
    pub fn new(total_rows: u16, target: Invader) -> (arrow: Self)
        requires
            total_rows >= 3,
        ensures
            arrow == (Arrow { total_rows, current_row: (total_rows - 3) as u16, visible: true, target }),
    {
        Arrow { total_rows, current_row: total_rows - 3, visible: true, target }
    }

    /// Advance one row toward the top of the screen.
    pub fn move_forward(&mut self)
        requires
            old(self).current_row >= 1,
        ensures
            *final(self) == (Arrow { current_row: (old(self).current_row - 1) as u16, ..*old(self) }),
    {
        self.current_row = self.current_row - 1;
    }
}

/// An arrow about to resolve: on this micro-tick it moves one row past its
/// target's row and the hit is registered.
pub open spec fn arriving(arrow: Arrow) -> bool {
    arrow.visible && arrow.current_row == arrow.target.row
}

/// The arrow after one micro-tick of movement. An invisible arrow stays
/// where it is.
pub open spec fn arrow_advanced(arrow: Arrow) -> Arrow
    recommends
        arrow.visible ==> arrow.current_row >= 1,
{
    if arrow.visible {
        Arrow { current_row: (arrow.current_row - 1) as u16, ..arrow }
    } else {
        arrow
    }
}

} // verus!
