//! Ships as straight runs of positions, and what it means for a board to
//! show a fleet.

use crate::board::{has_alive, is_sibling, linked, sibling, well_formed};
use crate::cell::{Cell, CellState, NO_CELL};
use crate::grid::touches;
use vstd::prelude::*;

verus! {

/// A ship: `len` positions in a line, the first at `anchor`, each one to the
/// right of the one before, or below it where `vertical` holds.
pub struct Run {
    pub anchor: int,
    pub len: int,
    pub vertical: bool,
}

impl Run {
    /// The `k`-th position of the run.
    pub open spec fn at(self, k: int) -> int {
        if self.vertical {
            self.anchor + 10 * k
        } else {
            self.anchor + k
        }
    }

    /// Whether the run has a ship's length and lies on the board, within one
    /// row or one column.
    pub open spec fn fits(self) -> bool {
        &&& 1 <= self.len <= 4
        &&& 0 <= self.anchor < 100
        &&& if self.vertical {
            self.anchor / 10 + self.len <= 10
        } else {
            self.anchor % 10 + self.len <= 10
        }
    }

    /// Whether `j` is a position of the run.
    pub open spec fn covers(self, j: int) -> bool {
        exists|k: int| 0 <= k < self.len && #[trigger] self.at(k) == j
    }

    /// Whether `j` is a position of the run or a neighbour of one.
    pub open spec fn reaches(self, j: int) -> bool {
        exists|k: int| 0 <= k < self.len && touches(#[trigger] self.at(k), j)
    }

    /// The entry in slot `k` of the sibling list that every part of the ship
    /// carries: the `k`-th position of the run, or `NO_CELL` behind its end.
    pub open spec fn slot(self, k: int) -> usize {
        if k < self.len {
            self.at(k) as usize
        } else {
            NO_CELL
        }
    }

    /// The sibling list that every part of the ship carries, as the cells
    /// hold it.
    pub open spec fn cells(self) -> [usize; 4] {
        [self.slot(0), self.slot(1), self.slot(2), self.slot(3)]
    }

    /// The sibling list that every part of the ship carries.
    pub open spec fn coords(self) -> Seq<usize> {
        Seq::new(
            4,
            |k: int|
                if k < self.len {
                    self.at(k) as usize
                } else {
                    NO_CELL
                },
        )
    }
}

/// The run of `len` positions whose first one is in column `x` of row `y`.
pub open spec fn run_of(len: int, vertical: bool, x: int, y: int) -> Run {
    Run { anchor: x + 10 * y, len, vertical }
}

/// Whether a ship of `len` parts that starts in column `x` of row `y` stays
/// on the board.
pub open spec fn fits_grid(len: int, vertical: bool, x: int, y: int) -> bool {
    &&& 1 <= len <= 4
    &&& 0 <= x < 10
    &&& 0 <= y < 10
    &&& if vertical {
        y + len <= 10
    } else {
        x + len <= 10
    }
}

/// Whether every position that `run` covers or borders is open water that
/// nobody has shot at.
pub open spec fn is_clear(b: Seq<Cell>, run: Run) -> bool {
    forall|j: int| 0 <= j < 100 && run.reaches(j) ==> (#[trigger] b[j]).state == CellState::Empty
}

/// Whether `c` is the board `b` with the ship `run` put on it: the positions
/// of the run are parts that are not hit and carry the run as their sibling
/// list, and every other cell is as it was.
pub open spec fn is_placed(b: Seq<Cell>, c: Seq<Cell>, run: Run) -> bool {
    &&& c.len() == 100
    &&& forall|j: int|
        0 <= j < 100 && run.covers(j) ==> (#[trigger] c[j]).state == CellState::Alive && c[j].coords@
            == run.coords()
    &&& forall|j: int| 0 <= j < 100 && !run.covers(j) ==> #[trigger] c[j] == b[j]
}

/// The board `b` with the ship `run` put on it.
pub open spec fn with_ship(b: Seq<Cell>, run: Run) -> Seq<Cell> {
    Seq::new(
        100,
        |j: int|
            if run.covers(j) {
                Cell { state: CellState::Alive, coords: run.cells() }
            } else {
                b[j]
            },
    )
}

/// The board of open water that nobody has shot at.
pub open spec fn blank() -> Seq<Cell> {
    Seq::new(100, |j: int| Cell { state: CellState::Empty, coords: [NO_CELL, NO_CELL, NO_CELL, NO_CELL] })
}

/// One draw for a ship: a direction, and the column and row of its first
/// part.
pub struct Draw {
    pub vertical: bool,
    pub x: int,
    pub y: int,
}

/// How far a fleet has been placed: the board, and the number of ships on
/// it.
pub struct Placement {
    pub board: Seq<Cell>,
    pub placed: int,
}

/// The placement `p` after the draw `d` for the next ship of the fleet. The
/// ship is put where the draw says if it stays on the board there and
/// everything it covers or borders is open water; otherwise nothing
/// changes. Once the fleet is whole, no draw changes anything.
pub open spec fn after_draw(p: Placement, d: Draw) -> Placement {
    if 0 <= p.placed < 10 {
        let len = fleet_lengths()[p.placed];
        let run = run_of(len, d.vertical, d.x, d.y);
        if fits_grid(len, d.vertical, d.x, d.y) && is_clear(p.board, run) {
            Placement { board: with_ship(p.board, run), placed: p.placed + 1 }
        } else {
            p
        }
    } else {
        p
    }
}

/// The placement that the draws `draws` lead to, one after the other, from a
/// board of open water.
pub open spec fn after_draws(draws: Seq<Draw>) -> Placement
    decreases draws.len(),
{
    if draws.len() == 0 {
        Placement { board: blank(), placed: 0 }
    } else {
        after_draw(after_draws(draws.drop_last()), draws.last())
    }
}

/// Whether every one of the draws `draws` is for a ship that is still to be
/// placed, and is one from which that ship stays on the board.
pub open spec fn all_fit(draws: Seq<Draw>) -> bool
    decreases draws.len(),
{
    if draws.len() == 0 {
        true
    } else {
        let before = after_draws(draws.drop_last());
        &&& all_fit(draws.drop_last())
        &&& 0 <= before.placed < 10
        &&& fits_grid(fleet_lengths()[before.placed], draws.last().vertical, draws.last().x, draws.last().y)
    }
}

/// Whether the draws `draws`, no more than `max` of them, place a whole
/// fleet and give the board `b`.
pub open spec fn is_success(draws: Seq<Draw>, max: int, b: Seq<Cell>) -> bool {
    &&& draws.len() <= max
    &&& all_fit(draws)
    &&& after_draws(draws).placed == 10
    &&& after_draws(draws).board == b
}

/// Whether the draws `draws` are `max` draws that leave the fleet
/// unfinished.
pub open spec fn is_failure(draws: Seq<Draw>, max: int) -> bool {
    &&& draws.len() == max
    &&& all_fit(draws)
    &&& after_draws(draws).placed < 10
}

/// Number of positions below `n` that are not open, unshot water.
pub open spec fn occupied_below(b: Seq<Cell>, n: int) -> int
    decreases n,
{
    if n <= 0 {
        0
    } else {
        occupied_below(b, n - 1) + if b[n - 1].state != CellState::Empty {
            1int
        } else {
            0int
        }
    }
}

/// Number of positions of the board that are not open, unshot water.
pub open spec fn occupied(b: Seq<Cell>) -> int {
    occupied_below(b, 100)
}

/// The lengths of the ships of a fleet, in the order in which they are
/// placed.
pub open spec fn fleet_lengths() -> Seq<int> {
    seq![4, 3, 3, 2, 2, 2, 1, 1, 1, 1]
}

/// Number of parts that the first `n` ships of a fleet have together.
pub open spec fn fleet_cells(n: int) -> int
    decreases n,
{
    if n <= 0 {
        0
    } else {
        fleet_cells(n - 1) + fleet_lengths()[n - 1]
    }
}

/// Whether no position of `r` is a position of `t` or a neighbour of one.
pub open spec fn apart(r: Run, t: Run) -> bool {
    forall|j: int| 0 <= j < 100 && #[trigger] r.covers(j) ==> !t.reaches(j)
}

/// Whether the board `b` shows exactly the ships `runs`, none of them hit,
/// no two of them touching, and nothing else.
pub open spec fn shows(b: Seq<Cell>, runs: Seq<Run>) -> bool {
    &&& b.len() == 100
    &&& forall|s: int| 0 <= s < runs.len() ==> (#[trigger] runs[s]).fits()
    &&& forall|s: int, t: int| 0 <= s < t < runs.len() ==> apart(#[trigger] runs[s], #[trigger] runs[t])
    &&& forall|s: int, j: int|
        0 <= s < runs.len() && 0 <= j < 100 && (#[trigger] runs[s]).covers(j) ==> (#[trigger] b[j]).state
            == CellState::Alive && b[j].coords@ == runs[s].coords()
    &&& forall|j: int|
        0 <= j < 100 && (#[trigger] b[j]).state != CellState::Empty ==> exists|s: int|
            0 <= s < runs.len() && (#[trigger] runs[s]).covers(j)
}

/// Whether `runs` is a fleet: ten ships of the lengths 4, 3, 3, 2, 2, 2, 1,
/// 1, 1, 1.
pub open spec fn is_fleet(runs: Seq<Run>) -> bool {
    &&& runs.len() == 10
    &&& forall|s: int| 0 <= s < 10 ==> (#[trigger] runs[s]).len == fleet_lengths()[s]
}

/// Whether the board `b` shows a whole fleet and nothing else: twenty
/// positions taken by ten ships, each a straight run, no two touching.
pub open spec fn is_fleet_board(b: Seq<Cell>) -> bool {
    &&& occupied(b) == 20
    &&& exists|runs: Seq<Run>| is_fleet(runs) && #[trigger] shows(b, runs)
}

/// Every position of a run that fits lies on the board, and no two of its
/// positions are the same.
pub proof fn lemma_run_positions(run: Run, k: int)
    requires
        run.fits(),
        0 <= k < run.len,
    ensures
        0 <= run.at(k) < 100,
        forall|m: int| 0 <= m < run.len && m != k ==> run.at(m) != run.at(k),
{
}

/// Putting a ship on clear water leaves a board well formed.
pub proof fn lemma_placed_keeps_board(b: Seq<Cell>, c: Seq<Cell>, run: Run)
    requires
        well_formed(b),
        run.fits(),
        is_clear(b, run),
        is_placed(b, c, run),
    ensures
        well_formed(c),
{
    assert forall|i: int| 0 <= i < 100 implies #[trigger] linked(c, i) by {
        if run.covers(i) {
            let ki = choose|k: int| 0 <= k < run.len && #[trigger] run.at(k) == i;
            assert(c[i].coords@ == run.coords());
            assert forall|k: int| 0 <= k < 4 implies 0 <= #[trigger] sibling(c, i, k) <= 100 by {
                if k < run.len {
                    lemma_run_positions(run, k);
                }
            }
            assert(sibling(c, i, ki) == i);
            assert(is_sibling(c, i, i));
            assert forall|k: int| 0 <= k < 4 && #[trigger] sibling(c, i, k) != 100 implies c[sibling(
                c,
                i,
                k,
            )].state.is_ship() && c[sibling(c, i, k)].coords@ == c[i].coords@ by {
                if k < run.len {
                    lemma_run_positions(run, k);
                    assert(run.covers(run.at(k)));
                }
            }
        } else {
            assert(c[i] == b[i]);
            assert(linked(b, i));
            assert forall|k: int| 0 <= k < 4 implies sibling(c, i, k) == #[trigger] sibling(b, i, k) by {}
            assert forall|k: int| 0 <= k < 4 implies 0 <= #[trigger] sibling(c, i, k) <= 100 by {
                assert(sibling(c, i, k) == sibling(b, i, k));
            }
            if c[i].state.is_ship() {
                assert(is_sibling(b, i, i));
                assert(is_sibling(c, i, i));
                assert forall|k: int| 0 <= k < 4 && #[trigger] sibling(c, i, k) != 100 implies c[sibling(
                    c,
                    i,
                    k,
                )].state.is_ship() && c[sibling(c, i, k)].coords@ == c[i].coords@ by {
                    let s = sibling(b, i, k);
                    assert(s == sibling(c, i, k));
                    assert(b[s].state.is_ship());
                    if run.covers(s) {
                        let ks = choose|m: int| 0 <= m < run.len && #[trigger] run.at(m) == s;
                        assert(touches(run.at(ks), s));
                        assert(run.reaches(s));
                        assert(b[s].state == CellState::Empty);
                    }
                    assert(c[s] == b[s]);
                }
            } else {
                assert forall|k: int| 0 <= k < 4 implies #[trigger] sibling(c, i, k) == 100 by {
                    assert(sibling(b, i, k) == 100);
                }
            }
        }
    }
}

/// Putting one more ship on clear water of a board that shows `runs` gives a
/// board that shows `runs` and the new ship.
pub proof fn lemma_placed_extends(b: Seq<Cell>, c: Seq<Cell>, runs: Seq<Run>, run: Run)
    requires
        shows(b, runs),
        run.fits(),
        is_clear(b, run),
        is_placed(b, c, run),
    ensures
        shows(c, runs.push(run)),
{
    let more = runs.push(run);
    let n = runs.len() as int;
    assert forall|s: int| 0 <= s < more.len() implies (#[trigger] more[s]).fits() by {
        if s < n {
            assert(runs[s].fits());
        }
    }
    assert forall|s: int, t: int| 0 <= s < t < more.len() implies apart(
        #[trigger] more[s],
        #[trigger] more[t],
    ) by {
        if t < n {
            assert(apart(runs[s], runs[t]));
        } else {
            assert forall|j: int| 0 <= j < 100 && #[trigger] runs[s].covers(j) implies !run.reaches(j) by {
                assert(b[j].state == CellState::Alive);
            }
        }
    }
    assert forall|s: int, j: int|
        0 <= s < more.len() && 0 <= j < 100 && (#[trigger] more[s]).covers(j) implies (#[trigger] c[j]).state
        == CellState::Alive && c[j].coords@ == more[s].coords() by {
        if s < n {
            assert(runs[s].covers(j));
            assert(b[j].state == CellState::Alive);
            if run.covers(j) {
                let k = choose|k: int| 0 <= k < run.len && #[trigger] run.at(k) == j;
                assert(touches(run.at(k), j));
                assert(run.reaches(j));
            }
            assert(c[j] == b[j]);
        }
    }
    assert forall|j: int| 0 <= j < 100 && (#[trigger] c[j]).state != CellState::Empty implies exists|s: int|
        0 <= s < more.len() && (#[trigger] more[s]).covers(j) by {
        if run.covers(j) {
            assert(more[n].covers(j));
        } else {
            assert(c[j] == b[j]);
            let s = choose|s: int| 0 <= s < runs.len() && (#[trigger] runs[s]).covers(j);
            assert(more[s].covers(j));
        }
    }
}

/// Turning one position of open, unshot water into something else raises the
/// count of occupied positions by one.
pub proof fn lemma_occupy_one(b: Seq<Cell>, t: int, cell: Cell, n: int)
    requires
        0 <= t < b.len(),
        0 <= n <= b.len(),
        b[t].state == CellState::Empty,
        cell.state != CellState::Empty,
    ensures
        occupied_below(b.update(t, cell), n) == occupied_below(b, n) + if t < n {
            1int
        } else {
            0int
        },
    decreases n,
{
    if n > 0 {
        lemma_occupy_one(b, t, cell, n - 1);
    }
}

/// A board of open water has no occupied position.
pub proof fn lemma_blank_is_unoccupied(b: Seq<Cell>, n: int)
    requires
        crate::board::is_blank(b),
        0 <= n <= 100,
    ensures
        occupied_below(b, n) == 0,
    decreases n,
{
    if n > 0 {
        lemma_blank_is_unoccupied(b, n - 1);
    }
}

/// A board that shows a whole fleet has a part that is not hit.
pub proof fn lemma_fleet_is_afloat(b: Seq<Cell>)
    requires
        is_fleet_board(b),
    ensures
        has_alive(b),
{
    let runs = choose|runs: Seq<Run>| is_fleet(runs) && #[trigger] shows(b, runs);
    let first = runs[0];
    assert(first.fits());
    assert(first.at(0) == first.anchor);
    assert(first.covers(first.anchor));
    assert(b[first.anchor].state == CellState::Alive);
}

/// There is one board that is a given board with a given ship put on it.
pub proof fn lemma_placed_is_with_ship(b: Seq<Cell>, c: Seq<Cell>, run: Run)
    requires
        b.len() == 100,
        is_placed(b, c, run),
    ensures
        c == with_ship(b, run),
{
    assert(run.cells()@ =~= run.coords());
    assert forall|j: int| 0 <= j < 100 implies c[j] == #[trigger] with_ship(b, run)[j] by {
        if run.covers(j) {
            assert(c[j].coords =~= run.cells());
        }
    }
    assert(c =~= with_ship(b, run));
}

/// There is one board of open water that nobody has shot at.
pub proof fn lemma_blank_is_one(b: Seq<Cell>)
    requires
        crate::board::is_blank(b),
    ensures
        b == blank(),
{
    assert forall|j: int| 0 <= j < 100 implies b[j] == #[trigger] blank()[j] by {
        assert(sibling(b, j, 0) == 100);
        assert(sibling(b, j, 1) == 100);
        assert(sibling(b, j, 2) == 100);
        assert(sibling(b, j, 3) == 100);
        assert(b[j].coords =~= blank()[j].coords);
        assert(b[j].state == CellState::Empty);
    }
    assert(b =~= blank());
}

} // verus!
