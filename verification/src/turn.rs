//! The turn state machine as functions on a model of the game.

use crate::board::has_alive;
use crate::cell::{Cell, CellState};
use crate::combat::{after_shot, shot_outcome, with_state, ShotOutcome};
use crate::fleet::{is_fleet_board, lemma_fleet_is_afloat};
use vstd::prelude::*;

verus! {

/// Whose turn it is, or how the game ended.
#[derive(Clone, Copy, PartialEq, Eq, Structural, Debug)]
pub enum State {
    /// The human may shoot.
    Me,
    /// The automatic opponent shoots.
    Enemy,
    /// The opponent's fleet is destroyed.
    Won,
    /// The human's fleet is destroyed.
    Lost,
}

/// Free space between the two boards on the screen, in pixels.
pub const FIELDS_SPACE_PX: i32 = 50;

/// What a game is made of.
pub struct GameView {
    /// The human's board, which the opponent shoots at.
    pub me: Seq<Cell>,
    /// The opponent's board, which the human shoots at.
    pub enemy: Seq<Cell>,
    /// Whose turn it is, or how the game ended.
    pub state: State,
    /// Width and height of a cell on the screen, in pixels.
    pub cell_size: int,
    /// Left edge of the human's board on the screen.
    pub x: int,
    /// Upper edge of both boards on the screen.
    pub y: int,
    /// Number of random draws that one call may use.
    pub max_attempts: int,
}

impl GameView {
    /// Width and height of a board on the screen: ten cells and a closing
    /// grid line.
    pub open spec fn field_size(self) -> int {
        self.cell_size * 10 + 1
    }

    /// Left edge of the opponent's board on the screen.
    pub open spec fn enemy_x(self) -> int {
        self.x + self.field_size() + FIELDS_SPACE_PX
    }

    /// The position of the opponent's board that the pixel `(px, py)` lies
    /// in, if it lies in one.
    pub open spec fn cell_at(self, px: int, py: int) -> Option<int> {
        let dx = px - self.enemy_x();
        let dy = py - self.y;
        if self.cell_size > 0 && 0 <= dx < 10 * self.cell_size && 0 <= dy < 10 * self.cell_size {
            Some(dx / self.cell_size + 10 * (dy / self.cell_size))
        } else {
            None
        }
    }

    /// The game in the state `state`.
    pub open spec fn with_state(self, state: State) -> GameView {
        GameView { state, ..self }
    }

    /// The game after the human's shot at position `i` of the opponent's
    /// board. Nothing happens unless it is the human's turn.
    pub open spec fn after_human_shot(self, i: int) -> GameView {
        if self.state == State::Me {
            let enemy = after_shot(self.enemy, i);
            let state = next_state(
                self.me,
                enemy,
                shot_outcome(self.enemy, i),
                State::Me,
                State::Enemy,
            );
            GameView { enemy, state, ..self }
        } else {
            self
        }
    }

    /// The game after the opponent's shot at position `i` of the human's
    /// board. Nothing happens unless it is the opponent's turn.
    pub open spec fn after_enemy_shot(self, i: int) -> GameView {
        if self.state == State::Enemy {
            let me = after_shot(self.me, i);
            let state = next_state(me, self.enemy, shot_outcome(self.me, i), State::Enemy, State::Me);
            GameView { me, state, ..self }
        } else {
            self
        }
    }

    /// The game after the opponent's shots at the positions `shots`, one
    /// after the other.
    pub open spec fn after_enemy_shots(self, shots: Seq<int>) -> GameView
        decreases shots.len(),
    {
        if shots.len() == 0 {
            self
        } else {
            self.after_enemy_shots(shots.drop_last()).after_enemy_shot(shots.last())
        }
    }
}

/// The state that the boards call for: lost as soon as the human has no part
/// left that is not hit, whatever the opponent's board shows; else won if
/// the opponent has none; else `state`.
pub open spec fn judged(me: Seq<Cell>, enemy: Seq<Cell>, state: State) -> State {
    if !has_alive(me) {
        State::Lost
    } else if !has_alive(enemy) {
        State::Won
    } else {
        state
    }
}

/// The state after a shot of `shooter` with the given outcome, `me` and
/// `enemy` being the boards after it. A shot at a settled position changes
/// nothing. After a miss it would be the turn of `other`, after a hit again
/// that of `shooter`, and the boards are judged in either case.
pub open spec fn next_state(
    me: Seq<Cell>,
    enemy: Seq<Cell>,
    outcome: ShotOutcome,
    shooter: State,
    other: State,
) -> State {
    match outcome {
        ShotOutcome::AlreadyResolved => shooter,
        ShotOutcome::Miss => judged(me, enemy, other),
        _ => judged(me, enemy, shooter),
    }
}

/// Losing comes first: while the human has no part left that is not hit,
/// the boards are judged lost, whatever the opponent's board shows and
/// whatever the state was.
pub proof fn lemma_loss_comes_first(me: Seq<Cell>, enemy: Seq<Cell>, state: State)
    requires
        !has_alive(me),
    ensures
        judged(me, enemy, state) == State::Lost,
{
}

/// After a shot of either side that was taken and not aimed at a settled
/// position, the game is lost if the human has no part left that is not
/// hit, whatever the opponent's board shows.
pub proof fn lemma_lost_after_shot(g: GameView, i: int)
    ensures
        g.state == State::Me && shot_outcome(g.enemy, i) != ShotOutcome::AlreadyResolved && !has_alive(
            g.after_human_shot(i).me,
        ) ==> g.after_human_shot(i).state == State::Lost,
        g.state == State::Enemy && shot_outcome(g.me, i) != ShotOutcome::AlreadyResolved && !has_alive(
            g.after_enemy_shot(i).me,
        ) ==> g.after_enemy_shot(i).state == State::Lost,
{
}

/// The turn after the human's shot, while both sides still have a part that
/// is not hit: a miss hands the turn to the opponent, and a hit, sinking or
/// not, leaves it with the human. So does a shot at a settled position.
pub proof fn lemma_turn_handoff(g: GameView, i: int)
    requires
        g.state == State::Me,
        has_alive(g.me),
        has_alive(after_shot(g.enemy, i)),
    ensures
        shot_outcome(g.enemy, i) == ShotOutcome::Miss ==> g.after_human_shot(i).state == State::Enemy,
        shot_outcome(g.enemy, i) == ShotOutcome::Hit ==> g.after_human_shot(i).state == State::Me,
        shot_outcome(g.enemy, i) == ShotOutcome::HitAndSunk ==> g.after_human_shot(i).state
            == State::Me,
        shot_outcome(g.enemy, i) == ShotOutcome::AlreadyResolved ==> g.after_human_shot(i) == g,
{
    if shot_outcome(g.enemy, i) == ShotOutcome::AlreadyResolved {
        assert(after_shot(g.enemy, i) == g.enemy);
    }
}

/// The turn after the opponent's shot, while both sides still have a part
/// that is not hit: a miss hands the turn back to the human, and a hit
/// leaves it with the opponent. So does a shot at a settled position.
pub proof fn lemma_turn_back(g: GameView, i: int)
    requires
        g.state == State::Enemy,
        has_alive(after_shot(g.me, i)),
        has_alive(g.enemy),
    ensures
        shot_outcome(g.me, i) == ShotOutcome::Miss ==> g.after_enemy_shot(i).state == State::Me,
        shot_outcome(g.me, i) == ShotOutcome::Hit ==> g.after_enemy_shot(i).state == State::Enemy,
        shot_outcome(g.me, i) == ShotOutcome::HitAndSunk ==> g.after_enemy_shot(i).state
            == State::Enemy,
        shot_outcome(g.me, i) == ShotOutcome::AlreadyResolved ==> g.after_enemy_shot(i) == g,
{
    if shot_outcome(g.me, i) == ShotOutcome::AlreadyResolved {
        assert(after_shot(g.me, i) == g.me);
    }
}

/// Once the game is won or lost, no shot of either side changes it.
pub proof fn lemma_over_is_over(g: GameView, i: int)
    requires
        g.state == State::Won || g.state == State::Lost,
    ensures
        g.after_human_shot(i) == g,
        g.after_enemy_shot(i) == g,
{
}

/// A round of the opponent leaves the opponent's own board, the geometry
/// and the bound alone, and outside the opponent's turn it changes nothing.
pub proof fn lemma_round_frame(g: GameView, shots: Seq<int>)
    ensures
        g.after_enemy_shots(shots).enemy == g.enemy,
        g.after_enemy_shots(shots).cell_size == g.cell_size,
        g.after_enemy_shots(shots).x == g.x,
        g.after_enemy_shots(shots).y == g.y,
        g.after_enemy_shots(shots).max_attempts == g.max_attempts,
        g.state != State::Enemy ==> g.after_enemy_shots(shots) == g,
    decreases shots.len(),
{
    if shots.len() > 0 {
        lemma_round_frame(g, shots.drop_last());
    }
}

/// A shot of either side at a position that is injured, dead or a miss
/// changes nothing in the game, neither a board nor the turn.
pub proof fn lemma_settled_shot_keeps_game(g: GameView, i: int)
    ensures
        g.enemy[i].state.is_resolved() ==> g.after_human_shot(i) == g,
        g.me[i].state.is_resolved() ==> g.after_enemy_shot(i) == g,
{
}

/// In a game that starts with a whole fleet on either board, the human's
/// first shot, if it falls into open water, is a miss, changes nothing but
/// that position, and hands the turn to the opponent.
pub proof fn lemma_first_miss_hands_over(g: GameView, i: int)
    requires
        g.state == State::Me,
        is_fleet_board(g.me),
        is_fleet_board(g.enemy),
        0 <= i < 100,
        g.enemy[i].state == CellState::Empty,
    ensures
        shot_outcome(g.enemy, i) == ShotOutcome::Miss,
        g.after_human_shot(i).state == State::Enemy,
        g.after_human_shot(i).enemy == with_state(g.enemy, i, CellState::Miss),
        g.after_human_shot(i).me == g.me,
{
    lemma_fleet_is_afloat(g.me);
    lemma_fleet_is_afloat(g.enemy);
    let j = choose|j: int| 0 <= j < g.enemy.len() && (#[trigger] g.enemy[j]).state == CellState::Alive;
    assert(after_shot(g.enemy, i)[j].state == CellState::Alive);
}

} // verus!
