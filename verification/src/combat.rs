//! What a shot does to a board, as functions on the board's cells.

use crate::board::{is_sibling, lemma_sunk_keeps_board, linked, sibling, well_formed};
use crate::cell::{Cell, CellState};
use crate::grid::is_near;
use vstd::prelude::*;

verus! {

/// What a shot did.
#[derive(Clone, Copy, PartialEq, Eq, Structural, Debug)]
pub enum ShotOutcome {
    /// A ship was hit and still has a part that is not hit.
    Hit,
    /// A ship was hit and is now destroyed.
    HitAndSunk,
    /// The shot fell into open water.
    Miss,
    /// The position had been settled before; nothing changed.
    AlreadyResolved,
}

/// The board `b` with position `i` in state `s`.
pub open spec fn with_state(b: Seq<Cell>, i: int, s: CellState) -> Seq<Cell> {
    b.update(i, Cell { state: s, coords: b[i].coords })
}

/// Whether slot `k` of the sibling list of `i` names a part that is not hit.
pub open spec fn slot_alive(b: Seq<Cell>, i: int, k: int) -> bool {
    sibling(b, i, k) < 100 && b[sibling(b, i, k)].state == CellState::Alive
}

/// Whether the ship that covers `i` still has a part that is not hit.
pub open spec fn afloat(b: Seq<Cell>, i: int) -> bool {
    exists|k: int| 0 <= k < 4 && #[trigger] slot_alive(b, i, k)
}

/// Whether slot `k` of the sibling list of `i` names a neighbour of `j`.
pub open spec fn slot_near(b: Seq<Cell>, i: int, k: int, j: int) -> bool {
    sibling(b, i, k) < 100 && is_near(sibling(b, i, k), j)
}

/// Whether `j` is a neighbour of a part of the ship that covers `i`.
pub open spec fn in_halo(b: Seq<Cell>, i: int, j: int) -> bool {
    exists|k: int| 0 <= k < 4 && #[trigger] slot_near(b, i, k, j)
}

/// The state of position `j` once the ship that covers `i` has been found
/// destroyed: its parts are dead, open water next to them is a miss, and
/// everything else is as it was.
pub open spec fn sunk_state(b: Seq<Cell>, i: int, j: int) -> CellState {
    if is_sibling(b, i, j) {
        CellState::Dead
    } else if b[j].state == CellState::Empty && in_halo(b, i, j) {
        CellState::Miss
    } else {
        b[j].state
    }
}

/// The board once the ship that covers `i` has been found destroyed.
pub open spec fn sunk(b: Seq<Cell>, i: int) -> Seq<Cell> {
    Seq::new(100, |j: int| Cell { state: sunk_state(b, i, j), coords: b[j].coords })
}

/// The board after the sunk check at `i`: unchanged while the ship is
/// afloat.
pub open spec fn after_check(b: Seq<Cell>, i: int) -> Seq<Cell> {
    if afloat(b, i) {
        b
    } else {
        sunk(b, i)
    }
}

/// What a shot at position `i` of board `b` does.
pub open spec fn shot_outcome(b: Seq<Cell>, i: int) -> ShotOutcome {
    match b[i].state {
        CellState::Alive => if afloat(with_state(b, i, CellState::Injured), i) {
            ShotOutcome::Hit
        } else {
            ShotOutcome::HitAndSunk
        },
        CellState::Empty => ShotOutcome::Miss,
        _ => ShotOutcome::AlreadyResolved,
    }
}

/// The board `b` after a shot at position `i`.
pub open spec fn after_shot(b: Seq<Cell>, i: int) -> Seq<Cell> {
    match b[i].state {
        CellState::Alive => after_check(with_state(b, i, CellState::Injured), i),
        CellState::Empty => with_state(b, i, CellState::Miss),
        _ => b,
    }
}

/// A state change that keeps ship parts ship parts and water water leaves a
/// board well formed.
pub proof fn lemma_same_kind_keeps_board(b: Seq<Cell>, c: Seq<Cell>)
    requires
        well_formed(b),
        c.len() == 100,
        forall|j: int| 0 <= j < 100 ==> (#[trigger] c[j]).coords == b[j].coords,
        forall|j: int| 0 <= j < 100 ==> (#[trigger] c[j]).state.is_ship() == b[j].state.is_ship(),
    ensures
        well_formed(c),
{
    assert forall|i: int| 0 <= i < 100 implies #[trigger] crate::board::linked(c, i) by {
        assert(crate::board::linked(b, i));
        assert forall|k: int| 0 <= k < 4 implies sibling(c, i, k) == #[trigger] sibling(b, i, k) by {}
        assert forall|k: int| 0 <= k < 4 implies 0 <= #[trigger] sibling(c, i, k) <= 100 by {
            assert(sibling(c, i, k) == sibling(b, i, k));
        }
        if c[i].state.is_ship() {
            assert(is_sibling(b, i, i));
            assert(is_sibling(c, i, i));
            assert forall|k: int| 0 <= k < 4 && #[trigger] sibling(c, i, k) != 100 implies c[sibling(
                c,
                i,
                k,
            )].state.is_ship() && c[sibling(c, i, k)].coords@ == c[i].coords@ by {
                let s = sibling(b, i, k);
                assert(s == sibling(c, i, k));
                assert(b[s].state.is_ship() && b[s].coords@ == b[i].coords@);
                assert(c[s].coords == b[s].coords);
            }
        } else {
            assert forall|k: int| 0 <= k < 4 implies #[trigger] sibling(c, i, k) == 100 by {
                assert(sibling(b, i, k) == 100);
            }
        }
    }
}

/// The board `b` after shots at the positions `shots`, one after the other.
pub open spec fn after_shots(b: Seq<Cell>, shots: Seq<int>) -> Seq<Cell>
    decreases shots.len(),
{
    if shots.len() == 0 {
        b
    } else {
        after_shot(after_shots(b, shots.drop_last()), shots.last())
    }
}

/// Hitting a part that was not hit leaves the board well formed and every
/// sibling list as it was.
proof fn lemma_hit(b: Seq<Cell>, i: int)
    requires
        well_formed(b),
        0 <= i < 100,
        b[i].state == CellState::Alive,
    ensures
        well_formed(with_state(b, i, CellState::Injured)),
        forall|j: int|
            is_sibling(with_state(b, i, CellState::Injured), i, j) == is_sibling(b, i, j),
        forall|j: int|
            in_halo(with_state(b, i, CellState::Injured), i, j) == in_halo(b, i, j),
{
    let h = with_state(b, i, CellState::Injured);
    lemma_same_kind_keeps_board(b, h);
    assert forall|j: int| in_halo(h, i, j) == in_halo(b, i, j) by {
        assert forall|k: int| 0 <= k < 4 implies #[trigger] slot_near(h, i, k, j) == slot_near(b, i, k, j) by {}
        if in_halo(b, i, j) {
            let k = choose|k: int| 0 <= k < 4 && #[trigger] slot_near(b, i, k, j);
            assert(slot_near(h, i, k, j));
        }
        if in_halo(h, i, j) {
            let k = choose|k: int| 0 <= k < 4 && #[trigger] slot_near(h, i, k, j);
            assert(slot_near(b, i, k, j));
        }
    }
}

/// A shot leaves a board well formed.
pub proof fn lemma_shot_keeps_board(b: Seq<Cell>, i: int)
    requires
        well_formed(b),
        0 <= i < 100,
    ensures
        well_formed(after_shot(b, i)),
{
    if b[i].state == CellState::Alive {
        lemma_hit(b, i);
        lemma_sunk_keeps_board(with_state(b, i, CellState::Injured), i);
    } else if b[i].state == CellState::Empty {
        lemma_same_kind_keeps_board(b, with_state(b, i, CellState::Miss));
    }
}

/// Shots leave a board well formed.
pub proof fn lemma_shots_keep_board(b: Seq<Cell>, shots: Seq<int>)
    requires
        well_formed(b),
        forall|k: int| 0 <= k < shots.len() ==> 0 <= #[trigger] shots[k] < 100,
    ensures
        well_formed(after_shots(b, shots)),
    decreases shots.len(),
{
    if shots.len() > 0 {
        lemma_shots_keep_board(b, shots.drop_last());
        lemma_shot_keeps_board(after_shots(b, shots.drop_last()), shots.last());
    }
}

/// A shot at a position that is injured, dead or a miss changes nothing on
/// the board and is reported as such.
pub proof fn lemma_settled_shot_changes_nothing(b: Seq<Cell>, i: int)
    requires
        b[i].state.is_resolved(),
    ensures
        after_shot(b, i) == b,
        shot_outcome(b, i) == ShotOutcome::AlreadyResolved,
{
}

/// Whatever a shot does, the position it was aimed at is settled
/// afterwards, so that a second shot at it changes nothing.
pub proof fn lemma_shot_settles(b: Seq<Cell>, i: int)
    requires
        well_formed(b),
        0 <= i < 100,
    ensures
        after_shot(b, i)[i].state.is_resolved(),
        after_shot(after_shot(b, i), i) == after_shot(b, i),
        shot_outcome(after_shot(b, i), i) == ShotOutcome::AlreadyResolved,
{
    if b[i].state == CellState::Alive {
        lemma_hit(b, i);
        let h = with_state(b, i, CellState::Injured);
        assert(linked(h, i));
    }
}

/// When the last part of a ship that was not hit is hit, the shot is
/// reported as sinking the ship, and every part of the ship is dead
/// afterwards, the one that was hit too.
pub proof fn lemma_sunk_ship_is_dead(b: Seq<Cell>, i: int)
    requires
        well_formed(b),
        0 <= i < 100,
        b[i].state == CellState::Alive,
        forall|j: int| is_sibling(b, i, j) && j != i ==> b[j].state != CellState::Alive,
    ensures
        shot_outcome(b, i) == ShotOutcome::HitAndSunk,
        after_shot(b, i)[i].state == CellState::Dead,
        forall|j: int| is_sibling(b, i, j) ==> (#[trigger] after_shot(b, i)[j]).state == CellState::Dead,
{
    lemma_hit(b, i);
    let h = with_state(b, i, CellState::Injured);
    assert(linked(b, i));
    assert(linked(h, i));
    assert forall|k: int| 0 <= k < 4 implies !#[trigger] slot_alive(h, i, k) by {
        let s = sibling(h, i, k);
        assert(s == sibling(b, i, k));
        if s < 100 {
            assert(is_sibling(b, i, s));
        }
    }
    assert(!afloat(h, i));
    assert forall|j: int| is_sibling(b, i, j) implies (#[trigger] after_shot(b, i)[j]).state
        == CellState::Dead by {
        assert(is_sibling(h, i, j));
    }
}

/// A shot is reported as sinking a ship only if it hit the last part that
/// was not hit, and then every part of that ship is dead.
pub proof fn lemma_sunk_means_dead(b: Seq<Cell>, i: int)
    requires
        well_formed(b),
        0 <= i < 100,
        shot_outcome(b, i) == ShotOutcome::HitAndSunk,
    ensures
        b[i].state == CellState::Alive,
        forall|j: int| is_sibling(b, i, j) && j != i ==> (#[trigger] b[j]).state != CellState::Alive,
        forall|j: int| is_sibling(b, i, j) ==> (#[trigger] after_shot(b, i)[j]).state == CellState::Dead,
{
    lemma_hit(b, i);
    let h = with_state(b, i, CellState::Injured);
    assert forall|j: int| is_sibling(b, i, j) && j != i implies (#[trigger] b[j]).state
        != CellState::Alive by {
        if b[j].state == CellState::Alive {
            let k = if sibling(b, i, 0) == j {
                0int
            } else if sibling(b, i, 1) == j {
                1int
            } else if sibling(b, i, 2) == j {
                2int
            } else {
                3int
            };
            assert(sibling(h, i, k) == j);
            assert(slot_alive(h, i, k));
        }
    }
    lemma_sunk_ship_is_dead(b, i);
}

/// No shot brings a dead position back: what is dead before a shot is dead
/// after it.
pub proof fn lemma_dead_stays_dead(b: Seq<Cell>, i: int, j: int)
    requires
        well_formed(b),
        0 <= i < 100,
        0 <= j < 100,
        b[j].state == CellState::Dead,
    ensures
        after_shot(b, i)[j].state == CellState::Dead,
{
}

/// What is dead stays dead through any number of shots.
pub proof fn lemma_dead_for_good(b: Seq<Cell>, shots: Seq<int>, j: int)
    requires
        well_formed(b),
        forall|k: int| 0 <= k < shots.len() ==> 0 <= #[trigger] shots[k] < 100,
        0 <= j < 100,
        b[j].state == CellState::Dead,
    ensures
        after_shots(b, shots)[j].state == CellState::Dead,
    decreases shots.len(),
{
    if shots.len() > 0 {
        lemma_dead_for_good(b, shots.drop_last(), j);
        lemma_shots_keep_board(b, shots.drop_last());
        lemma_dead_stays_dead(after_shots(b, shots.drop_last()), shots.last(), j);
    }
}

/// Around a ship that a shot has sunk, every neighbour of a part that was
/// open, unshot water is a miss afterwards. Every other position that is
/// not a part of the sunk ship is as it was: parts of other ships, settled
/// positions, and water that borders no part of the sunk ship.
pub proof fn lemma_halo(b: Seq<Cell>, i: int, j: int)
    requires
        well_formed(b),
        0 <= i < 100,
        0 <= j < 100,
        shot_outcome(b, i) == ShotOutcome::HitAndSunk,
    ensures
        (exists|s: int| is_sibling(b, i, s) && is_near(s, j)) && b[j].state == CellState::Empty
            ==> after_shot(b, i)[j].state == CellState::Miss,
        !is_sibling(b, i, j) && b[j].state != CellState::Empty ==> after_shot(b, i)[j] == b[j],
        !is_sibling(b, i, j) && !(exists|s: int| is_sibling(b, i, s) && is_near(s, j)) ==> after_shot(
            b,
            i,
        )[j] == b[j],
{
    lemma_hit(b, i);
    let h = with_state(b, i, CellState::Injured);
    assert(linked(b, i));
    assert(is_sibling(b, i, i));
    assert(is_sibling(h, i, j) == is_sibling(b, i, j));
    if exists|s: int| is_sibling(b, i, s) && is_near(s, j) {
        let s = choose|s: int| is_sibling(b, i, s) && is_near(s, j);
        let k = if sibling(b, i, 0) == s {
            0int
        } else if sibling(b, i, 1) == s {
            1int
        } else if sibling(b, i, 2) == s {
            2int
        } else {
            3int
        };
        assert(slot_near(b, i, k, j));
        assert(in_halo(b, i, j));
    }
    if in_halo(b, i, j) {
        let k = choose|k: int| 0 <= k < 4 && #[trigger] slot_near(b, i, k, j);
        assert(forall|k: int| 0 <= k < 4 ==> 0 <= #[trigger] sibling(b, i, k) <= 100);
        assert(is_sibling(b, i, sibling(b, i, k)));
    }
}

} // verus!
