//! What a frame shows of the two boards.

use crate::cell::{Cell, CellState};
use vstd::prelude::*;

verus! {

/// What is shown in one cell of a board.
#[derive(Clone, Copy, PartialEq, Eq, Structural, Debug)]
pub enum Mark {
    /// Nothing.
    Blank,
    /// A shot that fell into open water.
    Miss,
    /// A part of a ship that is not hit.
    Ship,
    /// A part that is hit, of a ship that is not destroyed.
    Injured,
    /// A part of a destroyed ship.
    Dead,
}

/// What is shown of a cell in state `state`. On a board whose ships are
/// `hidden`, a part that is not hit looks like open water.
pub open spec fn mark_of(state: CellState, hidden: bool) -> Mark {
    match state {
        CellState::Miss => Mark::Miss,
        CellState::Alive => if hidden {
            Mark::Blank
        } else {
            Mark::Ship
        },
        CellState::Injured => Mark::Injured,
        CellState::Dead => Mark::Dead,
        CellState::Empty => Mark::Blank,
    }
}

/// What is shown of the board `b`, cell by cell.
pub open spec fn marks_of(b: Seq<Cell>, hidden: bool) -> Seq<Mark> {
    Seq::new(b.len(), |j: int| mark_of(b[j].state, hidden))
}

/// What is shown of a cell in state `state`.
pub fn mark(state: CellState, hidden: bool) -> (m: Mark)
    ensures
        m == mark_of(state, hidden),
{
    match state {
        CellState::Miss => Mark::Miss,
        CellState::Alive => if hidden {
            Mark::Blank
        } else {
            Mark::Ship
        },
        CellState::Injured => Mark::Injured,
        CellState::Dead => Mark::Dead,
        CellState::Empty => Mark::Blank,
    }
}

/// What one frame shows: the human's board with its ships, and the
/// opponent's board with its ships hidden.
pub struct Frame {
    /// The human's board, cell by cell.
    pub me: Vec<Mark>,
    /// The opponent's board, cell by cell.
    pub enemy: Vec<Mark>,
}

} // verus!
