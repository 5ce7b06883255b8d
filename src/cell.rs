use vstd::prelude::*;

verus! {

/// One square of the minefield.
#[derive(Debug, Clone, Copy, PartialEq, Eq, Structural)]
pub struct Cell {
    pub is_mine: bool,
    pub is_revealed: bool,
    pub is_flagged: bool,
}

impl Default for Cell {
    fn default() -> (r: Cell)
        ensures
            r == (Cell { is_mine: false, is_revealed: false, is_flagged: false }),
    {
        Cell { is_mine: false, is_revealed: false, is_flagged: false }
    }
}

} // verus!
