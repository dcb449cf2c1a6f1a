//! An invader: an entity with a one-byte hex label, a position, and a
//! visibility flag. It advances one row per macro-tick, toward the firing
//! line at the bottom of the playfield.

use vstd::prelude::*;

verus! {

#[derive(Clone, Copy, Debug, PartialEq, Eq, Structural)]
pub struct Invader {
    pub value: u8,
    pub row: u16,
    pub col: u16,
    pub visible: bool,
}

impl Invader {
    pub fn new(row: u16, col: u16, value: u8) -> (inv: Self)
        ensures
            inv == (Invader { value, row, col, visible: true }),
    {
        Self { value, row, col, visible: true }
    }

    /// Advance one row toward the firing line. An invisible invader stays
    /// where it is.
    pub fn move_forward(&mut self)
        requires
            old(self).row < u16::MAX,
        ensures
            *final(self) == advanced(*old(self)),
    {
        if self.visible {
            self.row = self.row + 1;
        }
    }
}

/// The invader after one macro-tick of movement.
pub open spec fn advanced(inv: Invader) -> Invader
    recommends
        inv.row < u16::MAX,
{
    if inv.visible {
        Invader { row: (inv.row + 1) as u16, ..inv }
    } else {
        inv
    }
}

} // verus!
