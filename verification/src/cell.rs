//! The state of one grid position and its link to the ship that covers it.

use vstd::prelude::*;

verus! {

/// Number of positions on a board; positions are numbered `row * 10 + col`.
pub const BOARD_CELLS: usize = 100;

/// Length of one side of the board.
pub const SIDE: usize = 10;

/// Length of the longest ship, which is also the number of slots in a
/// cell's sibling list.
pub const MAX_SHIP: usize = 4;

/// Value of an unused slot in a cell's sibling list.
pub const NO_CELL: usize = 100;

/// What is known about one position of a board.
#[derive(Clone, Copy, PartialEq, Eq, Structural, Debug)]
pub enum CellState {
    /// Part of a ship, not hit yet.
    Alive,
    /// Part of a ship, hit, while the ship still has a part that is not hit.
    Injured,
    /// Part of a ship that has been destroyed completely.
    Dead,
    /// Open water that nobody has shot at.
    Empty,
    /// Open water that has been shot at, or that borders a destroyed ship.
    Miss,
}

impl CellState {
    /// Whether the state belongs to a position covered by a ship.
    pub open spec fn is_ship(self) -> bool {
        self == CellState::Alive || self == CellState::Injured || self == CellState::Dead
    }

    /// Whether a shot at a position in this state changes nothing.
    pub open spec fn is_resolved(self) -> bool {
        self == CellState::Injured || self == CellState::Dead || self == CellState::Miss
    }
}

/// One position of a board.
#[derive(Clone, Copy, Debug)]
pub struct Cell {
    /// Current state of the position.
    pub state: CellState,
    /// Positions of all parts of the ship that covers this one, `NO_CELL` in
    /// the unused slots. Every part of a ship carries the same list.
    pub coords: [usize; 4],
}

impl Cell {
    /// Open water without any ship.
    pub fn new() -> (cell: Cell)
        ensures
            cell.state == CellState::Empty,
            forall|k: int| 0 <= k < 4 ==> cell.coords@[k] == NO_CELL,
    {
        Cell { state: CellState::Empty, coords: [NO_CELL, NO_CELL, NO_CELL, NO_CELL] }
    }
}

} // verus!
