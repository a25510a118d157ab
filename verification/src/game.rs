//! The game: two boards, the turn, and what a click and a frame do to them.

use crate::board::Board;
use crate::cell::CellState;
use crate::combat::{shot_outcome, ShotOutcome};
use crate::fleet::{is_failure, is_fleet_board, is_success, Draw};
use crate::frame::{marks_of, Frame};
use crate::rng::random_below;
use crate::turn::{judged, GameView, State, FIELDS_SPACE_PX};
use vstd::prelude::*;

verus! {

/// A game between a human and an automatic opponent.
pub struct Game {
    me: Board,
    enemy: Board,
    cell_size: u32,
    xy: [i32; 2],
    state: State,
    max_attempts: u64,
}

impl View for Game {
    type V = GameView;

    closed spec fn view(&self) -> GameView {
        GameView {
            me: self.me@,
            enemy: self.enemy@,
            state: self.state,
            cell_size: self.cell_size as int,
            x: self.xy@[0] as int,
            y: self.xy@[1] as int,
            max_attempts: self.max_attempts as int,
        }
    }
}

impl Game {
    /// Whether the game keeps its invariant. Every game that this module
    /// hands out does.
    pub closed spec fn wf(&self) -> bool {
        &&& self.me.wf()
        &&& self.enemy.wf()
    }

    /// A game on the two boards given, with the human to shoot first.
    pub fn with_boards(me: Board, enemy: Board, cell_size: u32, xy: [i32; 2], max_attempts: u64) -> (game:
        Game)
        requires
            me.wf(),
            enemy.wf(),
        ensures
            game.wf(),
            game@ == (GameView {
                me: me@,
                enemy: enemy@,
                state: State::Me,
                cell_size: cell_size as int,
                x: xy@[0] as int,
                y: xy@[1] as int,
                max_attempts: max_attempts as int,
            }),
    {
        Game { me, enemy, cell_size, xy, state: State::Me, max_attempts }
    }

    /// A fresh game: a fleet placed at random on either board, and the human
    /// to shoot first. On the screen a cell is `cell_size` pixels wide and
    /// high, and `xy` is the upper left corner of the human's board.
    ///
    /// `max_attempts` bounds the random draws that placing one fleet may
    /// take, and later those of one round of the opponent's shots. Each
    /// board of the game that comes back is what the draws made for it lead
    /// to. `None` comes back only when `max_attempts` draws for one of the
    /// fleets left it unfinished.
    pub fn new(cell_size: u32, xy: [i32; 2], max_attempts: u64) -> (r: Option<Game>)
        ensures
            match r {
                Some(game) => {
                    &&& game.wf()
                    &&& is_fleet_board(game@.me)
                    &&& is_fleet_board(game@.enemy)
                    &&& exists|draws: Seq<Draw>| #[trigger] is_success(draws, max_attempts as int, game@.me)
                    &&& exists|draws: Seq<Draw>| #[trigger]
                        is_success(draws, max_attempts as int, game@.enemy)
                    &&& game@.state == State::Me
                    &&& game@.cell_size == cell_size
                    &&& game@.x == xy@[0]
                    &&& game@.y == xy@[1]
                    &&& game@.max_attempts == max_attempts
                },
                None => exists|draws: Seq<Draw>| #[trigger] is_failure(draws, max_attempts as int),
            },
            max_attempts < 10 ==> r is None,
    {
        match Board::gen_ships(max_attempts) {
            Some(me) => match Board::gen_ships(max_attempts) {
                Some(enemy) => Some(Game::with_boards(me, enemy, cell_size, xy, max_attempts)),
                None => None,
            },
            None => None,
        }
    }

    /// Whose turn it is, or how the game ended.
    pub fn get_state(&self) -> (state: State)
        ensures
            state == self@.state,
    {
        self.state
    }

    /// Makes `state` the state of the game.
    pub fn set_state(&mut self, state: State)
        ensures
            final(self)@ == old(self)@.with_state(state),
            old(self).wf() ==> final(self).wf(),
    {
        self.state = state;
    }

    /// Width and height of a cell on the screen, in pixels.
    pub fn cell_size(&self) -> (r: u32)
        ensures
            r == self@.cell_size,
    {
        self.cell_size
    }

    /// Width and height of a board on the screen, in pixels.
    pub fn field_size(&self) -> (r: u64)
        ensures
            r == self@.field_size(),
    {
        self.cell_size as u64 * 10 + 1
    }

    /// Upper left corner of a board on the screen: of the opponent's board
    /// where `is_enemy` holds, else of the human's.
    pub fn field_origin(&self, is_enemy: bool) -> (r: (i64, i64))
        ensures
            r.0 == (if is_enemy {
                self@.enemy_x()
            } else {
                self@.x
            }),
            r.1 == self@.y,
    {
        let x: i64 = if is_enemy {
            self.xy[0] as i64 + (self.cell_size as i64 * 10 + 1) + FIELDS_SPACE_PX as i64
        } else {
            self.xy[0] as i64
        };
        (x, self.xy[1] as i64)
    }

    /// The state of a position of the opponent's board where `is_enemy`
    /// holds, else of the human's; `None` where there is no such position.
    pub fn cell_state(&self, is_enemy: bool, cell: usize) -> (r: Option<CellState>)
        requires
            self.wf(),
        ensures
            r == (if cell < 100 {
                Some(
                    if is_enemy {
                        self@.enemy[cell as int].state
                    } else {
                        self@.me[cell as int].state
                    },
                )
            } else {
                None
            }),
    {
        if is_enemy {
            self.enemy.state_at(cell)
        } else {
            self.me.state_at(cell)
        }
    }

    /// Judges the boards: the game is lost if the human has no part left
    /// that is not hit, else won if the opponent has none, else it goes on
    /// as it was.
    pub fn check_game_over(&mut self)
        requires
            old(self).wf(),
        ensures
            final(self).wf(),
            final(self)@ == old(self)@.with_state(
                judged(old(self)@.me, old(self)@.enemy, old(self)@.state),
            ),
    {
        if !self.me.any_alive() {
            self.state = State::Lost;
        } else if !self.enemy.any_alive() {
            self.state = State::Won;
        }
    }

    /// The position of the opponent's board that the pixel `(x, y)` of the
    /// screen lies in; `None` where it lies in none.
    pub fn cell_at(&self, x: i32, y: i32) -> (r: Option<usize>)
        ensures
            match self@.cell_at(x as int, y as int) {
                Some(i) => r == Some(i as usize) && 0 <= i < 100,
                None => r is None,
            },
    {
        let size: i64 = self.cell_size as i64;
        if size == 0 {
            return None;
        }
        let left: i64 = self.xy[0] as i64 + (size * 10 + 1) + FIELDS_SPACE_PX as i64;
        let dx: i64 = x as i64 - left;
        let dy: i64 = y as i64 - self.xy[1] as i64;
        if dx < 0 || dy < 0 {
            return None;
        }
        let col: i64 = dx / size;
        let row: i64 = dy / size;
        proof {
            lemma_cell_index(dx as int, size as int);
            lemma_cell_index(dy as int, size as int);
        }
        if col > 9 || row > 9 {
            return None;
        }
        Some((col + row * 10) as usize)
    }

    /// The human's shot at position `cell` of the opponent's board. It is
    /// taken only in the human's turn and at a position of the board; the
    /// result is `None` where it is not taken.
    ///
    /// A shot at a settled position changes nothing. After a miss it is the
    /// opponent's turn, after a hit the human's again, and in both cases the
    /// boards are judged first.
    pub fn shot_cell(&mut self, cell: usize) -> (r: Option<ShotOutcome>)
        requires
            old(self).wf(),
        ensures
            final(self).wf(),
            r == (if old(self)@.state == State::Me && cell < 100 {
                Some(shot_outcome(old(self)@.enemy, cell as int))
            } else {
                None
            }),
            final(self)@ == (if cell < 100 {
                old(self)@.after_human_shot(cell as int)
            } else {
                old(self)@
            }),
    {
        if self.state != State::Me || cell >= 100 {
            return None;
        }
        let outcome = self.enemy.resolve_shot(cell);
        match outcome {
            ShotOutcome::AlreadyResolved => {},
            ShotOutcome::Miss => {
                self.state = State::Enemy;
                self.check_game_over();
            },
            _ => {
                self.check_game_over();
            },
        }
        Some(outcome)
    }

    /// The human's click on the pixel `(x, y)` of the screen: a shot at the
    /// position of the opponent's board that the pixel lies in. A click
    /// beside that board is ignored.
    pub fn shot(&mut self, x: i32, y: i32)
        requires
            old(self).wf(),
        ensures
            final(self).wf(),
            final(self)@ == (match old(self)@.cell_at(x as int, y as int) {
                Some(i) => old(self)@.after_human_shot(i),
                None => old(self)@,
            }),
    {
        match self.cell_at(x, y) {
            Some(cell) => {
                self.shot_cell(cell);
            },
            None => {},
        }
    }

    /// The opponent's shot at position `cell` of the human's board. It is
    /// taken only in the opponent's turn and at a position of the board; the
    /// result is `None` where it is not taken.
    ///
    /// A shot at a settled position changes nothing. After a miss it is the
    /// human's turn, after a hit the opponent's again, and in both cases the
    /// boards are judged first.
    pub fn enemy_shot(&mut self, cell: usize) -> (r: Option<ShotOutcome>)
        requires
            old(self).wf(),
        ensures
            final(self).wf(),
            r == (if old(self)@.state == State::Enemy && cell < 100 {
                Some(shot_outcome(old(self)@.me, cell as int))
            } else {
                None
            }),
            final(self)@ == (if cell < 100 {
                old(self)@.after_enemy_shot(cell as int)
            } else {
                old(self)@
            }),
    {
        if self.state != State::Enemy || cell >= 100 {
            return None;
        }
        let outcome = self.me.resolve_shot(cell);
        match outcome {
            ShotOutcome::AlreadyResolved => {},
            ShotOutcome::Miss => {
                self.state = State::Me;
                self.check_game_over();
            },
            _ => {
                self.check_game_over();
            },
        }
        Some(outcome)
    }

    /// One round of the opponent: shots at positions drawn at random from
    /// the whole of the human's board, settled ones too, until one misses or
    /// the game is over. Outside the opponent's turn nothing happens.
    ///
    /// At most as many positions are drawn as the game's bound allows. If
    /// they are used up it is still the opponent's turn afterwards, and the
    /// next call goes on.
    pub fn enemy_turn(&mut self)
        requires
            old(self).wf(),
        ensures
            final(self).wf(),
            exists|shots: Seq<int>| #[trigger] is_round(old(self)@, shots, final(self)@),
    {
        let ghost g = self@;
        let ghost mut shots: Seq<int> = Seq::empty();
        let mut left: u64 = self.max_attempts;
        while left > 0 && self.state == State::Enemy
            invariant
                self.wf(),
                self@ == g.after_enemy_shots(shots),
                self@.max_attempts == g.max_attempts,
                shots.len() + left == g.max_attempts,
                forall|k: int| 0 <= k < shots.len() ==> 0 <= #[trigger] shots[k] < 100,
            decreases left,
        {
            left -= 1;
            let cell = random_below(100);
            self.enemy_shot(cell);
            proof {
                let more = shots.push(cell as int);
                assert(more.drop_last() =~= shots);
                shots = more;
            }
        }
        assert(is_round(g, shots, self@));
    }

    /// One frame: the opponent's round, if it is the opponent's turn, and
    /// then what the two boards show.
    pub fn draw(&mut self) -> (frame: Frame)
        requires
            old(self).wf(),
        ensures
            final(self).wf(),
            exists|shots: Seq<int>| #[trigger] is_round(old(self)@, shots, final(self)@),
            frame.me@ == marks_of(final(self)@.me, false),
            frame.enemy@ == marks_of(final(self)@.enemy, true),
    {
        if self.state == State::Enemy {
            self.enemy_turn();
        } else {
            assert(is_round(self@, Seq::<int>::empty(), self@));
        }
        Frame { me: self.me.marks(false), enemy: self.enemy.marks(true) }
    }
}

/// Whether `h` can be the game `g` after one round of the opponent in which
/// the positions `shots` were drawn: they are positions of the board, no
/// more than the game's bound allows, taken one after the other, and the
/// round ended in the opponent's turn only if the bound was reached.
pub open spec fn is_round(g: GameView, shots: Seq<int>, h: GameView) -> bool {
    &&& shots.len() <= g.max_attempts
    &&& forall|k: int| 0 <= k < shots.len() ==> 0 <= #[trigger] shots[k] < 100
    &&& h == g.after_enemy_shots(shots)
    &&& h.state == State::Enemy ==> shots.len() == g.max_attempts
}

/// A pixel that lies `d` pixels into a board lies in one of its ten columns
/// (or rows) of `size` pixels if and only if `d` divided by `size` is below
/// ten.
proof fn lemma_cell_index(d: int, size: int)
    requires
        0 <= d,
        0 < size,
    ensures
        0 <= d / size,
        d / size <= 9 <==> d < 10 * size,
{
    assert(0 <= d / size && (d / size <= 9 <==> d < 10 * size)) by (nonlinear_arith)
        requires
            0 <= d,
            0 < size,
    ;
}

} // verus!
