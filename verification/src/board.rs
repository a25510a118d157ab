//! One side's board: a hundred cells, the ships on them and the shots taken.

use crate::cell::{Cell, CellState, NO_CELL};
use crate::combat::{
    after_check, after_shot, afloat, in_halo, lemma_same_kind_keeps_board, shot_outcome, slot_alive,
    slot_near, sunk, sunk_state, with_state, ShotOutcome,
};
use crate::fleet::{
    after_draws, all_fit, blank, fits_grid, fleet_cells, fleet_lengths, is_clear, is_failure,
    is_fleet, is_fleet_board, is_placed, is_success, lemma_blank_is_one, lemma_blank_is_unoccupied,
    lemma_occupy_one, lemma_placed_extends, lemma_placed_is_with_ship, lemma_placed_keeps_board,
    lemma_run_positions, occupied, run_of, shows, with_ship, Draw, Placement, Run,
};
use crate::frame::{mark, marks_of, Mark};
use crate::rng::random_below;
use crate::grid::{lemma_near_is_offset, neighbour, offset, touches};
use vstd::prelude::*;

verus! {

/// The `k`-th entry of the sibling list of position `i`.
pub open spec fn sibling(b: Seq<Cell>, i: int, k: int) -> int {
    b[i].coords@[k] as int
}

/// Whether position `j` is listed as a part of the ship that covers `i`.
pub open spec fn is_sibling(b: Seq<Cell>, i: int, j: int) -> bool {
    0 <= j < 100 && (sibling(b, i, 0) == j || sibling(b, i, 1) == j || sibling(b, i, 2) == j
        || sibling(b, i, 3) == j)
}

/// Whether position `i` and its sibling list agree with the rest of the
/// board: a ship's part lists itself, every part it lists is a ship's part
/// with the same list, and open water lists nothing.
pub open spec fn linked(b: Seq<Cell>, i: int) -> bool {
    &&& forall|k: int| 0 <= k < 4 ==> 0 <= #[trigger] sibling(b, i, k) <= 100
    &&& b[i].state.is_ship() ==> is_sibling(b, i, i)
    &&& b[i].state.is_ship() ==> forall|k: int|
        0 <= k < 4 && #[trigger] sibling(b, i, k) != 100 ==> b[sibling(b, i, k)].state.is_ship()
            && b[sibling(b, i, k)].coords@ == b[i].coords@
    &&& !b[i].state.is_ship() ==> forall|k: int| 0 <= k < 4 ==> #[trigger] sibling(b, i, k) == 100
}

/// Whether `b` is a board: a hundred cells, each linked to its ship.
pub open spec fn well_formed(b: Seq<Cell>) -> bool {
    &&& b.len() == 100
    &&& forall|i: int| 0 <= i < 100 ==> #[trigger] linked(b, i)
}

/// Whether every cell of `b` is open water that nobody has shot at.
pub open spec fn is_blank(b: Seq<Cell>) -> bool {
    &&& b.len() == 100
    &&& forall|i: int| 0 <= i < 100 ==> (#[trigger] b[i]).state == CellState::Empty
    &&& forall|i: int, k: int| 0 <= i < 100 && 0 <= k < 4 ==> #[trigger] sibling(b, i, k) == 100
}

/// Whether some cell of `b` is a part of a ship that has not been hit.
pub open spec fn has_alive(b: Seq<Cell>) -> bool {
    exists|i: int| 0 <= i < b.len() && (#[trigger] b[i]).state == CellState::Alive
}

/// Whether one of the first `n` slots of the sibling list of `i` names `j`.
spec fn listed_below(b: Seq<Cell>, i: int, j: int, n: int) -> bool {
    0 <= j < 100 && exists|k: int| 0 <= k < n && #[trigger] sibling(b, i, k) == j
}

/// Whether one of the first `n` slots of the sibling list of `i` names a
/// neighbour of `j`.
spec fn halo_below(b: Seq<Cell>, i: int, j: int, n: int) -> bool {
    exists|k: int| 0 <= k < n && #[trigger] slot_near(b, i, k, j)
}

/// Whether `j` is one of the first `n` neighbours of the position `s`.
spec fn reached(s: int, j: int, n: int) -> bool {
    s < 100 && exists|m: int| 0 <= m < n && j == s + #[trigger] offset(m)
}

/// State of `j` while the destroyed ship at `i` is being marked: the first
/// `k` slots are done, and of slot `k`, which names `s`, the first `n`
/// neighbours.
spec fn marking_state(b: Seq<Cell>, i: int, j: int, k: int, s: int, n: int) -> CellState {
    if listed_below(b, i, j, k) {
        CellState::Dead
    } else if b[j].state == CellState::Empty && (halo_below(b, i, j, k) || reached(s, j, n)) {
        CellState::Miss
    } else {
        b[j].state
    }
}

/// Whether `c` is the board `b` with the marking of the destroyed ship at `i`
/// done as far as `marking_state` says.
spec fn marked(b: Seq<Cell>, c: Seq<Cell>, i: int, k: int, s: int, n: int) -> bool {
    &&& c.len() == 100
    &&& forall|j: int| 0 <= j < 100 ==> (#[trigger] c[j]).coords == b[j].coords
    &&& forall|j: int| 0 <= j < 100 ==> (#[trigger] c[j]).state == marking_state(b, i, j, k, s, n)
}

/// One side's board.
pub struct Board {
    cells: Vec<Cell>,
}

impl View for Board {
    type V = Seq<Cell>;

    closed spec fn view(&self) -> Seq<Cell> {
        self.cells@
    }
}

impl Board {
    /// Whether the board keeps its invariant. Every board that this module
    /// hands out does.
    pub open spec fn wf(&self) -> bool {
        well_formed(self@)
    }

    /// A board of open water.
    pub fn new() -> (board: Board)
        ensures
            board.wf(),
            is_blank(board@),
            board@ == blank(),
    {
        let mut cells: Vec<Cell> = Vec::new();
        while cells.len() < 100
            invariant
                cells.len() <= 100,
                forall|i: int| 0 <= i < cells.len() ==> (#[trigger] cells@[i]).state == CellState::Empty,
                forall|i: int, k: int|
                    0 <= i < cells.len() && 0 <= k < 4 ==> #[trigger] sibling(cells@, i, k) == 100,
            decreases 100 - cells.len(),
        {
            let ghost before = cells@;
            cells.push(Cell::new());
            assert forall|i: int, k: int| 0 <= i < cells.len() && 0 <= k < 4 implies #[trigger] sibling(
                cells@,
                i,
                k,
            ) == 100 by {
                if i < before.len() {
                    assert(sibling(before, i, k) == 100);
                }
            }
        }
        proof {
            lemma_blank_is_one(cells@);
        }
        Board { cells }
    }

    /// The cell at position `cell`, or `None` where there is no such
    /// position.
    pub fn cell(&self, cell: usize) -> (r: Option<Cell>)
        requires
            self.wf(),
        ensures
            r == (if cell < 100 {
                Some(self@[cell as int])
            } else {
                None
            }),
    {
        if cell < 100 {
            Some(self.cells[cell])
        } else {
            None
        }
    }

    /// The state of position `cell`, or `None` where there is no such
    /// position.
    pub fn state_at(&self, cell: usize) -> (r: Option<CellState>)
        requires
            self.wf(),
        ensures
            r == (if cell < 100 {
                Some(self@[cell as int].state)
            } else {
                None
            }),
    {
        if cell < 100 {
            Some(self.cells[cell].state)
        } else {
            None
        }
    }

    /// What is shown of the board, cell by cell, its intact ships left out
    /// where `hidden` holds.
    pub fn marks(&self, hidden: bool) -> (r: Vec<Mark>)
        requires
            self.wf(),
        ensures
            r@ == marks_of(self@, hidden),
    {
        let mut r: Vec<Mark> = Vec::new();
        while r.len() < 100
            invariant
                r.len() <= 100,
                self.cells@.len() == 100,
                forall|j: int| 0 <= j < r.len() ==> #[trigger] r@[j] == marks_of(self.cells@, hidden)[j],
            decreases 100 - r.len(),
        {
            let j = r.len();
            r.push(mark(self.cells[j].state, hidden));
        }
        assert(r@ =~= marks_of(self.cells@, hidden));
        r
    }

    /// Whether a part of a ship is left that has not been hit.
    pub fn any_alive(&self) -> (r: bool)
        requires
            self.wf(),
        ensures
            r == has_alive(self@),
    {
        let mut i: usize = 0;
        while i < 100
            invariant
                i <= 100,
                self.cells@.len() == 100,
                forall|j: int| 0 <= j < i ==> (#[trigger] self.cells@[j]).state != CellState::Alive,
            decreases 100 - i,
        {
            if self.cells[i].state == CellState::Alive {
                return true;
            }
            i += 1;
        }
        false
    }

    /// A board with a whole fleet on it: ships of 4, 3, 3, 2, 2, 2, 1, 1, 1
    /// and 1 parts, put down in this order. For each ship a direction and a
    /// first position are drawn at random, among the positions from which
    /// the ship stays on the board, until `place_ship` takes it.
    ///
    /// `max_attempts` bounds the number of draws for the whole fleet. The
    /// board that comes back is what the draws that were made lead to, and it
    /// shows a whole fleet. `None` comes back only when `max_attempts` draws
    /// were made and left the fleet unfinished; which draws come is left to
    /// the random numbers, so this may happen whatever the bound is, and must
    /// happen if it is below ten.
    pub fn gen_ships(max_attempts: u64) -> (r: Option<Board>)
        ensures
            match r {
                Some(board) => {
                    &&& board.wf()
                    &&& is_fleet_board(board@)
                    &&& exists|draws: Seq<Draw>| #[trigger] is_success(draws, max_attempts as int, board@)
                },
                None => exists|draws: Seq<Draw>| #[trigger] is_failure(draws, max_attempts as int),
            },
            max_attempts < 10 ==> r is None,
    {
        let fleet: [usize; 10] = [4, 3, 3, 2, 2, 2, 1, 1, 1, 1];
        let mut board = Board::new();
        let ghost mut runs: Seq<Run> = Seq::empty();
        let ghost mut draws: Seq<Draw> = Seq::empty();
        let mut left: u64 = max_attempts;
        let mut s: usize = 0;
        proof {
            lemma_blank_is_unoccupied(board@, 100);
            assert(fleet@ =~= Seq::new(10, |t: int| fleet_lengths()[t] as usize));
        }
        while s < 10
            invariant
                s <= 10,
                board.wf(),
                shows(board@, runs),
                runs.len() == s,
                forall|t: int| 0 <= t < s ==> (#[trigger] runs[t]).len == fleet_lengths()[t],
                forall|t: int| 0 <= t < 10 ==> #[trigger] fleet@[t] == fleet_lengths()[t],
                occupied(board@) == fleet_cells(s as int),
                s <= draws.len(),
                draws.len() + left == max_attempts,
                all_fit(draws),
                after_draws(draws) == (Placement { board: board@, placed: s as int }),
            decreases left,
        {
            if left == 0 {
                assert(is_failure(draws, max_attempts as int));
                return None;
            }
            left -= 1;
            let len: usize = fleet[s];
            let vertical: bool = random_below(2) != 0;
            let x: usize = if vertical {
                random_below(10)
            } else {
                random_below(11 - len)
            };
            let y: usize = if vertical {
                random_below(11 - len)
            } else {
                random_below(10)
            };
            let ghost before = board@;
            let ghost draw = Draw { vertical, x: x as int, y: y as int };
            let ghost more = draws.push(draw);
            proof {
                assert(more.drop_last() =~= draws);
                assert(more.last() == draw);
                assert(fits_grid(len as int, vertical, x as int, y as int));
            }
            if board.place_ship(len, vertical, x, y) {
                proof {
                    let run = run_of(len as int, vertical, x as int, y as int);
                    lemma_placed_extends(before, board@, runs, run);
                    runs = runs.push(run);
                }
                s += 1;
            }
            proof {
                draws = more;
            }
        }
        proof {
            assert(is_fleet(runs));
            assert(fleet_cells(10) == 20) by {
                reveal_with_fuel(fleet_cells, 11);
            }
            assert(is_success(draws, max_attempts as int, board@));
        }
        Some(board)
    }

    /// Tries to put a ship of `len` parts on the board, its first part in
    /// column `x` of row `y`, the others to the right of it, or below it where
    /// `vertical` holds. The ship is put there if it stays on the board and
    /// every position that it covers or borders is open water that nobody
    /// has shot at; otherwise the board stays as it is.
    pub fn place_ship(&mut self, len: usize, vertical: bool, x: usize, y: usize) -> (placed: bool)
        requires
            old(self).wf(),
        ensures
            final(self).wf(),
            placed == (fits_grid(len as int, vertical, x as int, y as int) && is_clear(
                old(self)@,
                run_of(len as int, vertical, x as int, y as int),
            )),
            placed ==> is_placed(
                old(self)@,
                final(self)@,
                run_of(len as int, vertical, x as int, y as int),
            ),
            placed ==> final(self)@ == with_ship(
                old(self)@,
                run_of(len as int, vertical, x as int, y as int),
            ),
            placed ==> occupied(final(self)@) == occupied(old(self)@) + len,
            !placed ==> final(self)@ == old(self)@,
    {
        if len < 1 || len > 4 || x >= 10 || y >= 10 {
            return false;
        }
        if vertical && y + len > 10 {
            return false;
        }
        if !vertical && x + len > 10 {
            return false;
        }
        let ghost b = self.cells@;
        let ghost run = run_of(len as int, vertical, x as int, y as int);
        let anchor: usize = x + y * 10;
        assert(run.fits());
        let mut k: usize = 0;
        while k < len
            invariant
                k <= len <= 4,
                self.cells@ == b,
                b == old(self)@,
                well_formed(b),
                run == run_of(len as int, vertical, x as int, y as int),
                run.fits(),
                fits_grid(len as int, vertical, x as int, y as int),
                anchor == run.anchor,
                forall|m: int, j: int|
                    0 <= m < k && 0 <= j < 100 && touches(#[trigger] run.at(m), j) ==> (#[trigger] b[j]).state
                        == CellState::Empty,
            decreases len - k,
        {
            proof {
                lemma_run_positions(run, k as int);
            }
            let t: usize = if vertical {
                anchor + 10 * k
            } else {
                anchor + k
            };
            assert(t == run.at(k as int));
            if self.cells[t].state != CellState::Empty {
                assert(touches(run.at(k as int), t as int));
                assert(run.reaches(t as int));
                return false;
            }
            let mut n: usize = 0;
            while n < 8
                invariant
                    n <= 8,
                    k < len,
                    t < 100,
                    t == run.at(k as int),
                    self.cells@ == b,
                    b == old(self)@,
                    well_formed(b),
                    run == run_of(len as int, vertical, x as int, y as int),
                    fits_grid(len as int, vertical, x as int, y as int),
                    forall|m: int|
                        0 <= m < n && 0 <= t + #[trigger] offset(m) < 100 ==> b[t + offset(m)].state
                            == CellState::Empty,
                decreases 8 - n,
            {
                match neighbour(t, n) {
                    Some(j) => {
                        if self.cells[j].state != CellState::Empty {
                            proof {
                                lemma_near_is_offset(t as int, j as int);
                                assert(touches(run.at(k as int), j as int));
                                assert(run.reaches(j as int));
                            }
                            return false;
                        }
                    },
                    None => {},
                }
                n += 1;
            }
            assert forall|j: int| 0 <= j < 100 && touches(run.at(k as int), j) implies (#[trigger] b[j]).state
                == CellState::Empty by {
                if j != t {
                    lemma_near_is_offset(t as int, j);
                    let m = choose|m: int| 0 <= m < 8 && j == t + #[trigger] offset(m);
                    assert(b[t + offset(m)].state == CellState::Empty);
                }
            }
            k += 1;
        }
        assert(is_clear(b, run));
        let c1: usize = if len > 1 {
            if vertical {
                anchor + 10
            } else {
                anchor + 1
            }
        } else {
            NO_CELL
        };
        let c2: usize = if len > 2 {
            if vertical {
                anchor + 20
            } else {
                anchor + 2
            }
        } else {
            NO_CELL
        };
        let c3: usize = if len > 3 {
            if vertical {
                anchor + 30
            } else {
                anchor + 3
            }
        } else {
            NO_CELL
        };
        let coords: [usize; 4] = [anchor, c1, c2, c3];
        assert(coords@ =~= run.coords());
        k = 0;
        while k < len
            invariant
                k <= len <= 4,
                self.cells@.len() == 100,
                b.len() == 100,
                run.fits(),
                run.len == len,
                run.vertical == vertical,
                anchor == run.anchor,
                coords@ == run.coords(),
                is_clear(b, run),
                occupied(self.cells@) == occupied(b) + k,
                forall|m: int|
                    0 <= m < k ==> (#[trigger] self.cells@[run.at(m)]).state == CellState::Alive
                        && self.cells@[run.at(m)].coords@ == run.coords(),
                forall|j: int|
                    0 <= j < 100 && (forall|m: int| 0 <= m < k ==> #[trigger] run.at(m) != j)
                        ==> #[trigger] self.cells@[j] == b[j],
            decreases len - k,
        {
            proof {
                lemma_run_positions(run, k as int);
            }
            let t: usize = if vertical {
                anchor + 10 * k
            } else {
                anchor + k
            };
            let ghost c = self.cells@;
            let part = Cell { state: CellState::Alive, coords };
            proof {
                assert(c[t as int] == b[t as int]);
                assert(touches(run.at(k as int), t as int));
                assert(run.reaches(t as int));
                lemma_occupy_one(c, t as int, part, 100);
            }
            self.cells.set(t, part);
            assert forall|m: int| 0 <= m < k + 1 implies (#[trigger] self.cells@[run.at(m)]).state
                == CellState::Alive && self.cells@[run.at(m)].coords@ == run.coords() by {
                if m < k {
                    assert(c[run.at(m)].state == CellState::Alive);
                }
            }
            k += 1;
        }
        proof {
            let c = self.cells@;
            assert forall|j: int| 0 <= j < 100 && run.covers(j) implies (#[trigger] c[j]).state
                == CellState::Alive && c[j].coords@ == run.coords() by {
                let m = choose|m: int| 0 <= m < run.len && #[trigger] run.at(m) == j;
                assert(c[run.at(m)].state == CellState::Alive);
            }
            assert forall|j: int| 0 <= j < 100 && !run.covers(j) implies #[trigger] c[j] == b[j] by {
                assert forall|m: int| 0 <= m < len implies #[trigger] run.at(m) != j by {}
            }
            lemma_placed_keeps_board(b, c, run);
            lemma_placed_is_with_ship(b, c, run);
        }
        true
    }

    /// Takes a shot at position `cell`. A part of a ship that was not hit
    /// becomes injured, and the ship is then checked for being destroyed;
    /// open water becomes a miss; a position that was settled before stays as
    /// it is.
    pub fn resolve_shot(&mut self, cell: usize) -> (outcome: ShotOutcome)
        requires
            old(self).wf(),
            cell < 100,
        ensures
            final(self).wf(),
            outcome == shot_outcome(old(self)@, cell as int),
            final(self)@ == after_shot(old(self)@, cell as int),
    {
        let ghost b = self.cells@;
        let found = self.cells[cell];
        match found.state {
            CellState::Alive => {
                self.cells.set(cell, Cell { state: CellState::Injured, coords: found.coords });
                proof {
                    assert(self.cells@ == with_state(b, cell as int, CellState::Injured));
                    lemma_same_kind_keeps_board(b, self.cells@);
                }
                if self.check_dead_ship(cell) {
                    ShotOutcome::HitAndSunk
                } else {
                    ShotOutcome::Hit
                }
            },
            CellState::Empty => {
                self.cells.set(cell, Cell { state: CellState::Miss, coords: found.coords });
                proof {
                    assert(self.cells@ == with_state(b, cell as int, CellState::Miss));
                    lemma_same_kind_keeps_board(b, self.cells@);
                }
                ShotOutcome::Miss
            },
            _ => ShotOutcome::AlreadyResolved,
        }
    }

    /// Looks whether the ship that covers `cell` is destroyed, that is, has
    /// no part left that is not hit. If so, every part of it becomes dead and
    /// every neighbour of a part that is open water becomes a miss.
    pub fn check_dead_ship(&mut self, cell: usize) -> (is_dead: bool)
        requires
            old(self).wf(),
            cell < 100,
        ensures
            final(self).wf(),
            is_dead == !afloat(old(self)@, cell as int),
            final(self)@ == after_check(old(self)@, cell as int),
    {
        let ghost b = self.cells@;
        let ghost i = cell as int;
        let coords = self.cells[cell].coords;
        assert(linked(b, i));
        let mut k: usize = 0;
        while k < 4
            invariant
                k <= 4,
                self.cells@ == b,
                b == old(self)@,
                well_formed(b),
                i == cell as int,
                0 <= i < 100,
                coords == b[i].coords,
                forall|m: int| 0 <= m < k ==> !#[trigger] slot_alive(b, i, m),
            decreases 4 - k,
        {
            let part = coords[k];
            assert(part == sibling(b, i, k as int));
            if part < 100 && self.cells[part].state == CellState::Alive {
                assert(slot_alive(b, i, k as int));
                return false;
            }
            k += 1;
        }
        assert(!afloat(b, i));
        k = 0;
        while k < 4
            invariant
                k <= 4,
                well_formed(b),
                0 <= i < 100,
                coords == b[i].coords,
                marked(b, self.cells@, i, k as int, 100, 0),
            decreases 4 - k,
        {
            let part = coords[k];
            assert(part == sibling(b, i, k as int));
            assert(linked(b, i));
            if part < 100 {
                let mut n: usize = 0;
                while n < 8
                    invariant
                        n <= 8,
                        k < 4,
                        part < 100,
                        marked(b, self.cells@, i, k as int, part as int, n as int),
                    decreases 8 - n,
                {
                    let ghost c = self.cells@;
                    match neighbour(part, n) {
                        Some(j) => {
                            if self.cells[j].state == CellState::Empty {
                                let marked_cell = Cell {
                                    state: CellState::Miss,
                                    coords: self.cells[j].coords,
                                };
                                self.cells.set(j, marked_cell);
                            }
                        },
                        None => {},
                    }
                    assert forall|j: int| 0 <= j < 100 implies (#[trigger] self.cells@[j]).state
                        == marking_state(b, i, j, k as int, part as int, n + 1) by {
                        assert(c[j].state == marking_state(b, i, j, k as int, part as int, n as int));
                        assert(reached(part as int, j, n + 1) <==> reached(part as int, j, n as int)
                            || j == part + offset(n as int));
                    }
                    n += 1;
                }
                let ghost c = self.cells@;
                let dead_cell = Cell { state: CellState::Dead, coords: self.cells[part].coords };
                self.cells.set(part, dead_cell);
                assert forall|j: int| 0 <= j < 100 implies (#[trigger] self.cells@[j]).state
                    == marking_state(b, i, j, k + 1, 100, 0) by {
                    assert(c[j].state == marking_state(b, i, j, k as int, part as int, 8));
                    lemma_near_is_offset(part as int, j);
                    assert(slot_near(b, i, k as int, j) <==> reached(part as int, j, 8));
                    assert(halo_below(b, i, j, k + 1) <==> halo_below(b, i, j, k as int) || slot_near(
                        b,
                        i,
                        k as int,
                        j,
                    ));
                    assert(listed_below(b, i, j, k + 1) <==> listed_below(b, i, j, k as int) || j
                        == part);
                }
            } else {
                assert forall|j: int| 0 <= j < 100 implies (#[trigger] self.cells@[j]).state
                    == marking_state(b, i, j, k + 1, 100, 0) by {
                    assert(!slot_near(b, i, k as int, j));
                    assert(halo_below(b, i, j, k + 1) <==> halo_below(b, i, j, k as int));
                    assert(listed_below(b, i, j, k + 1) <==> listed_below(b, i, j, k as int));
                }
            }
            k += 1;
        }
        proof {
            let c = self.cells@;
            assert forall|j: int| 0 <= j < 100 implies (#[trigger] c[j]).state == sunk_state(b, i, j) by {
                assert(c[j].state == marking_state(b, i, j, 4, 100, 0));
                assert(listed_below(b, i, j, 4) <==> is_sibling(b, i, j));
                assert(halo_below(b, i, j, 4) <==> in_halo(b, i, j));
            }
            assert(c =~= sunk(b, i));
            lemma_sunk_keeps_board(b, i);
        }
        true
    }
}

/// Marking a destroyed ship leaves a board well formed.
pub proof fn lemma_sunk_keeps_board(b: Seq<Cell>, i: int)
    requires
        well_formed(b),
        0 <= i < 100,
    ensures
        well_formed(sunk(b, i)),
{
    let c = sunk(b, i);
    assert(linked(b, i));
    assert forall|j: int| 0 <= j < 100 implies (#[trigger] c[j]).state.is_ship() == b[j].state.is_ship() by {
        if is_sibling(b, i, j) {
            if b[i].state.is_ship() {
            } else {
                assert(sibling(b, i, 0) == 100);
                assert(sibling(b, i, 1) == 100);
                assert(sibling(b, i, 2) == 100);
                assert(sibling(b, i, 3) == 100);
            }
        }
    }
    lemma_same_kind_keeps_board(b, c);
}

} // verus!
