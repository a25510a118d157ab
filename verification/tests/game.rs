use battleship::board::Board;
use battleship::cell::CellState;
use battleship::combat::ShotOutcome;
use battleship::frame::Mark;
use battleship::game::Game;
use battleship::turn::{State, FIELDS_SPACE_PX};

const DRAWS: u64 = 1_000_000;

fn board_with(ships: &[(usize, bool, usize, usize)]) -> Board {
    let mut board = Board::new();
    for &(len, vertical, x, y) in ships {
        assert!(board.place_ship(len, vertical, x, y));
    }
    board
}

fn side(game: &Game, is_enemy: bool) -> Vec<CellState> {
    (0..100).map(|i| game.cell_state(is_enemy, i).unwrap()).collect()
}

fn count(game: &Game, is_enemy: bool, state: CellState) -> usize {
    side(game, is_enemy).iter().filter(|&&s| s == state).count()
}

/// The pixel in the middle of a cell of the opponent's board, for a game
/// with cells of 25 pixels whose boards start at (50, 50).
fn pixel_of(cell: usize) -> (i32, i32) {
    let col = (cell % 10) as i32;
    let row = (cell / 10) as i32;
    (351 + col * 25 + 12, 50 + row * 25 + 12)
}

#[test]
fn fresh_game_starts_with_the_human_and_two_fleets() {
    let game = Game::new(25, [50, 50], DRAWS).unwrap();
    assert_eq!(game.get_state(), State::Me);
    for is_enemy in [false, true] {
        assert_eq!(count(&game, is_enemy, CellState::Alive), 20);
        assert_eq!(count(&game, is_enemy, CellState::Empty), 80);
    }
    assert_eq!(game.cell_size(), 25);
}

#[test]
fn fresh_game_needs_enough_draws() {
    assert!(Game::new(25, [50, 50], 0).is_none());
    assert!(Game::new(25, [50, 50], 9).is_none());
}

#[test]
fn fresh_game_miss_hands_over_and_opponent_hands_back() {
    let mut game = Game::new(25, [50, 50], DRAWS).unwrap();
    let target = (0..100).find(|&i| game.cell_state(true, i) == Some(CellState::Empty)).unwrap();
    let enemy_before = side(&game, true);
    let me_before = side(&game, false);

    assert_eq!(game.shot_cell(target), Some(ShotOutcome::Miss));
    assert_eq!(game.get_state(), State::Enemy);
    assert_eq!(game.cell_state(true, target), Some(CellState::Miss));
    assert_eq!(side(&game, false), me_before);
    for i in 0..100 {
        if i != target {
            assert_eq!(game.cell_state(true, i), Some(enemy_before[i]));
        }
    }

    let enemy_after_shot = side(&game, true);
    game.draw();
    if count(&game, false, CellState::Alive) > 0 {
        // the round ended with a miss, and the turn is back
        assert_eq!(game.get_state(), State::Me);
        assert!(count(&game, false, CellState::Miss) >= 1);
    } else {
        assert_eq!(game.get_state(), State::Lost);
    }
    assert_eq!(side(&game, true), enemy_after_shot);
    for i in 0..100 {
        let now = game.cell_state(false, i).unwrap();
        match me_before[i] {
            CellState::Alive => assert!(now != CellState::Empty && now != CellState::Miss),
            _ => assert!(now == CellState::Empty || now == CellState::Miss),
        }
    }
}

#[test]
fn click_on_fresh_game_water_is_a_miss() {
    let mut game = Game::new(25, [50, 50], DRAWS).unwrap();
    let target = (0..100).find(|&i| game.cell_state(true, i) == Some(CellState::Empty)).unwrap();
    let (x, y) = pixel_of(target);
    game.shot(x, y);
    assert_eq!(game.cell_state(true, target), Some(CellState::Miss));
    assert_eq!(game.get_state(), State::Enemy);
}

#[test]
fn click_on_fresh_game_ship_keeps_the_turn() {
    let mut game = Game::new(25, [50, 50], DRAWS).unwrap();
    let target = (0..100).find(|&i| game.cell_state(true, i) == Some(CellState::Alive)).unwrap();
    let (x, y) = pixel_of(target);
    game.shot(x, y);
    let state = game.cell_state(true, target).unwrap();
    assert!(state == CellState::Injured || state == CellState::Dead);
    assert_eq!(game.get_state(), State::Me);
}

#[test]
fn same_miss_twice_is_already_resolved_both_times() {
    let me = board_with(&[(1, false, 0, 0)]);
    let mut enemy = board_with(&[(2, false, 5, 5)]);
    assert_eq!(enemy.resolve_shot(30), ShotOutcome::Miss);
    let mut game = Game::with_boards(me, enemy, 25, [50, 50], DRAWS);
    let enemy_before = side(&game, true);
    let me_before = side(&game, false);
    for _ in 0..2 {
        assert_eq!(game.shot_cell(30), Some(ShotOutcome::AlreadyResolved));
        assert_eq!(game.get_state(), State::Me);
        assert_eq!(side(&game, true), enemy_before);
        assert_eq!(side(&game, false), me_before);
    }
}

#[test]
fn hit_and_sinking_keep_the_turn_with_the_human() {
    let me = board_with(&[(1, false, 0, 0)]);
    let enemy = board_with(&[(2, false, 5, 5), (1, false, 0, 0)]);
    let mut game = Game::with_boards(me, enemy, 25, [50, 50], DRAWS);
    assert_eq!(game.shot_cell(55), Some(ShotOutcome::Hit));
    assert_eq!(game.get_state(), State::Me);
    assert_eq!(game.cell_state(true, 55), Some(CellState::Injured));
    assert_eq!(game.shot_cell(56), Some(ShotOutcome::HitAndSunk));
    assert_eq!(game.get_state(), State::Me);
    assert_eq!(game.cell_state(true, 55), Some(CellState::Dead));
    assert_eq!(game.cell_state(true, 56), Some(CellState::Dead));
    assert_eq!(game.cell_state(true, 57), Some(CellState::Miss));
    assert_eq!(game.shot_cell(57), Some(ShotOutcome::AlreadyResolved));
    assert_eq!(game.get_state(), State::Me);
    assert_eq!(game.shot_cell(99), Some(ShotOutcome::Miss));
    assert_eq!(game.get_state(), State::Enemy);
}

#[test]
fn sinking_the_last_ship_wins() {
    let me = board_with(&[(1, false, 0, 0)]);
    let enemy = board_with(&[(2, true, 3, 3)]);
    let mut game = Game::with_boards(me, enemy, 25, [50, 50], DRAWS);
    assert_eq!(game.shot_cell(33), Some(ShotOutcome::Hit));
    assert_eq!(game.get_state(), State::Me);
    assert_eq!(game.shot_cell(43), Some(ShotOutcome::HitAndSunk));
    assert_eq!(game.get_state(), State::Won);
}

#[test]
fn no_shot_is_taken_once_the_game_is_over() {
    let me = board_with(&[(1, false, 0, 0)]);
    let enemy = board_with(&[(1, false, 3, 3)]);
    let mut game = Game::with_boards(me, enemy, 25, [50, 50], DRAWS);
    assert_eq!(game.shot_cell(33), Some(ShotOutcome::HitAndSunk));
    assert_eq!(game.get_state(), State::Won);
    let enemy_before = side(&game, true);
    let me_before = side(&game, false);
    assert_eq!(game.shot_cell(70), None);
    assert_eq!(game.enemy_shot(0), None);
    game.shot(pixel_of(70).0, pixel_of(70).1);
    game.enemy_turn();
    game.draw();
    assert_eq!(game.get_state(), State::Won);
    assert_eq!(side(&game, true), enemy_before);
    assert_eq!(side(&game, false), me_before);

    game.set_state(State::Lost);
    assert_eq!(game.shot_cell(70), None);
    assert_eq!(game.enemy_shot(0), None);
    game.draw();
    assert_eq!(game.get_state(), State::Lost);
    assert_eq!(side(&game, true), enemy_before);
    assert_eq!(side(&game, false), me_before);
}

#[test]
fn human_without_ships_has_lost_whatever_the_other_board_shows() {
    // a miss would hand the turn over, but the human has nothing left
    let mut game =
        Game::with_boards(Board::new(), board_with(&[(1, false, 3, 3)]), 25, [50, 50], DRAWS);
    assert_eq!(game.shot_cell(0), Some(ShotOutcome::Miss));
    assert_eq!(game.get_state(), State::Lost);

    // sinking the opponent's last ship would win, but the human has nothing left
    let mut game =
        Game::with_boards(Board::new(), board_with(&[(1, false, 3, 3)]), 25, [50, 50], DRAWS);
    assert_eq!(game.shot_cell(33), Some(ShotOutcome::HitAndSunk));
    assert_eq!(game.get_state(), State::Lost);

    // a hit that sinks nothing
    let mut game =
        Game::with_boards(Board::new(), board_with(&[(2, false, 3, 3)]), 25, [50, 50], DRAWS);
    assert_eq!(game.shot_cell(33), Some(ShotOutcome::Hit));
    assert_eq!(game.get_state(), State::Lost);

    // neither side has anything left
    let mut game = Game::with_boards(Board::new(), Board::new(), 25, [50, 50], DRAWS);
    game.check_game_over();
    assert_eq!(game.get_state(), State::Lost);
}

#[test]
fn check_game_over_judges_the_boards() {
    let mut game = Game::with_boards(
        board_with(&[(1, false, 0, 0)]),
        board_with(&[(1, false, 0, 0)]),
        25,
        [50, 50],
        DRAWS,
    );
    for state in [State::Me, State::Enemy, State::Won, State::Lost] {
        game.set_state(state);
        game.check_game_over();
        assert_eq!(game.get_state(), state);
    }

    let mut game =
        Game::with_boards(board_with(&[(1, false, 0, 0)]), Board::new(), 25, [50, 50], DRAWS);
    for state in [State::Me, State::Enemy, State::Won, State::Lost] {
        game.set_state(state);
        game.check_game_over();
        assert_eq!(game.get_state(), State::Won);
    }

    let mut game =
        Game::with_boards(Board::new(), board_with(&[(1, false, 0, 0)]), 25, [50, 50], DRAWS);
    for state in [State::Me, State::Enemy, State::Won, State::Lost] {
        game.set_state(state);
        game.check_game_over();
        assert_eq!(game.get_state(), State::Lost);
    }
}

#[test]
fn already_settled_shot_is_not_judged() {
    // The boards are judged after a shot that was taken; one at a settled
    // position changes nothing, not even the state.
    let mut enemy = Board::new();
    assert_eq!(enemy.resolve_shot(5), ShotOutcome::Miss);
    let mut game = Game::with_boards(Board::new(), enemy, 25, [50, 50], DRAWS);
    assert_eq!(game.shot_cell(5), Some(ShotOutcome::AlreadyResolved));
    assert_eq!(game.get_state(), State::Me);
}

#[test]
fn shots_off_the_board_or_out_of_turn_are_not_taken() {
    let me = board_with(&[(1, false, 0, 0)]);
    let enemy = board_with(&[(1, false, 3, 3)]);
    let mut game = Game::with_boards(me, enemy, 25, [50, 50], DRAWS);
    let enemy_before = side(&game, true);
    let me_before = side(&game, false);
    assert_eq!(game.shot_cell(100), None);
    assert_eq!(game.shot_cell(usize::MAX), None);
    assert_eq!(game.enemy_shot(7), None);
    game.set_state(State::Enemy);
    assert_eq!(game.shot_cell(7), None);
    game.shot(pixel_of(7).0, pixel_of(7).1);
    assert_eq!(game.enemy_shot(100), None);
    assert_eq!(game.get_state(), State::Enemy);
    assert_eq!(side(&game, true), enemy_before);
    assert_eq!(side(&game, false), me_before);
    assert_eq!(game.cell_state(true, 100), None);
    assert_eq!(game.cell_state(false, 100), None);
}

#[test]
fn opponent_shot_by_shot() {
    let me = board_with(&[(2, false, 0, 0), (1, false, 5, 5)]);
    let enemy = board_with(&[(1, false, 3, 3)]);
    let mut game = Game::with_boards(me, enemy, 25, [50, 50], DRAWS);
    game.set_state(State::Enemy);
    assert_eq!(game.enemy_shot(0), Some(ShotOutcome::Hit));
    assert_eq!(game.get_state(), State::Enemy);
    assert_eq!(game.enemy_shot(0), Some(ShotOutcome::AlreadyResolved));
    assert_eq!(game.get_state(), State::Enemy);
    assert_eq!(game.enemy_shot(1), Some(ShotOutcome::HitAndSunk));
    assert_eq!(game.get_state(), State::Enemy);
    assert_eq!(game.cell_state(false, 2), Some(CellState::Miss));
    assert_eq!(game.enemy_shot(2), Some(ShotOutcome::AlreadyResolved));
    assert_eq!(game.get_state(), State::Enemy);
    assert_eq!(game.enemy_shot(70), Some(ShotOutcome::Miss));
    assert_eq!(game.get_state(), State::Me);
    assert_eq!(game.enemy_shot(71), None);
    assert_eq!(game.cell_state(false, 71), Some(CellState::Empty));
    game.set_state(State::Enemy);
    assert_eq!(game.enemy_shot(55), Some(ShotOutcome::HitAndSunk));
    assert_eq!(game.get_state(), State::Lost);
    assert_eq!(side(&game, true), side_of(&board_with(&[(1, false, 3, 3)])));
}

fn side_of(board: &Board) -> Vec<CellState> {
    (0..100).map(|i| board.state_at(i).unwrap()).collect()
}

#[test]
fn opponent_round_ends_with_a_miss_or_the_loss() {
    for _ in 0..200 {
        let me = board_with(&[(2, false, 0, 0), (1, false, 5, 5)]);
        let enemy = board_with(&[(1, false, 3, 3)]);
        let mut game = Game::with_boards(me, enemy, 25, [50, 50], DRAWS);
        game.set_state(State::Enemy);
        game.enemy_turn();
        let alive = count(&game, false, CellState::Alive);
        if alive == 0 {
            assert_eq!(game.get_state(), State::Lost);
        } else {
            assert_eq!(game.get_state(), State::Me);
        }
        // a sunk ship leaves no injured part behind
        let injured = count(&game, false, CellState::Injured);
        let dead = count(&game, false, CellState::Dead);
        assert_eq!(alive + injured + dead, 3);
        assert_eq!(game.cell_state(false, 55) == Some(CellState::Injured), false);
        assert_eq!(count(&game, true, CellState::Alive), 1);
        assert_eq!(count(&game, true, CellState::Empty), 99);
    }
}

#[test]
fn opponent_round_against_a_board_without_water_ends_in_the_loss() {
    // Every position of the human's board is settled but one part of a
    // ship: the opponent draws until it finds that part.
    let mut me = board_with(&[(1, false, 4, 4)]);
    for i in 0..100 {
        if i != 44 {
            me.resolve_shot(i);
        }
    }
    let mut game =
        Game::with_boards(me, board_with(&[(1, false, 0, 0)]), 25, [50, 50], u64::MAX);
    game.set_state(State::Enemy);
    game.enemy_turn();
    assert_eq!(game.get_state(), State::Lost);
    assert_eq!(game.cell_state(false, 44), Some(CellState::Dead));
}

#[test]
fn opponent_round_stops_when_the_draws_are_used_up() {
    let me = board_with(&[(1, false, 0, 0)]);
    let enemy = board_with(&[(1, false, 3, 3)]);
    let mut game = Game::with_boards(me, enemy, 25, [50, 50], 0);
    game.set_state(State::Enemy);
    let me_before = side(&game, false);
    game.enemy_turn();
    assert_eq!(game.get_state(), State::Enemy);
    assert_eq!(side(&game, false), me_before);
    game.draw();
    assert_eq!(game.get_state(), State::Enemy);
    assert_eq!(side(&game, false), me_before);

    // with one draw a round, the turn comes back some frames later
    let me = board_with(&[(1, false, 0, 0)]);
    let enemy = board_with(&[(1, false, 3, 3)]);
    let mut game = Game::with_boards(me, enemy, 25, [50, 50], 1);
    game.set_state(State::Enemy);
    let mut frames = 0;
    while game.get_state() == State::Enemy {
        let settled_before = 100 - count(&game, false, CellState::Empty) - count(&game, false, CellState::Alive);
        game.draw();
        let settled_after = 100 - count(&game, false, CellState::Empty) - count(&game, false, CellState::Alive);
        assert!(settled_after >= settled_before);
        frames += 1;
        assert!(frames < 1_000_000);
    }
    assert!(game.get_state() == State::Me || game.get_state() == State::Lost);
}

#[test]
fn frame_shows_own_ships_and_hides_the_opponents() {
    let mut me = board_with(&[(2, false, 0, 0), (1, false, 5, 5)]);
    let mut enemy = board_with(&[(2, false, 0, 0), (1, false, 5, 5)]);
    for board in [&mut me, &mut enemy] {
        assert_eq!(board.resolve_shot(0), ShotOutcome::Hit);
        assert_eq!(board.resolve_shot(55), ShotOutcome::HitAndSunk);
        assert_eq!(board.resolve_shot(99), ShotOutcome::Miss);
    }
    let mut game = Game::with_boards(me, enemy, 25, [50, 50], DRAWS);
    let frame = game.draw();
    assert_eq!(game.get_state(), State::Me);
    assert_eq!(frame.me.len(), 100);
    assert_eq!(frame.enemy.len(), 100);
    assert_eq!(frame.me[0], Mark::Injured);
    assert_eq!(frame.me[1], Mark::Ship);
    assert_eq!(frame.me[55], Mark::Dead);
    assert_eq!(frame.me[54], Mark::Miss);
    assert_eq!(frame.me[99], Mark::Miss);
    assert_eq!(frame.me[30], Mark::Blank);
    assert_eq!(frame.enemy[0], Mark::Injured);
    assert_eq!(frame.enemy[1], Mark::Blank);
    assert_eq!(frame.enemy[55], Mark::Dead);
    assert_eq!(frame.enemy[54], Mark::Miss);
    assert_eq!(frame.enemy[99], Mark::Miss);
    assert_eq!(frame.enemy[30], Mark::Blank);
    for i in 0..100 {
        if i != 1 {
            assert_eq!(frame.me[i], frame.enemy[i]);
        }
    }
}

#[test]
fn frame_runs_the_opponent_first() {
    let me = board_with(&[(1, false, 0, 0)]);
    let enemy = board_with(&[(1, false, 3, 3)]);
    let mut game = Game::with_boards(me, enemy, 25, [50, 50], DRAWS);
    game.set_state(State::Enemy);
    let frame = game.draw();
    assert_ne!(game.get_state(), State::Enemy);
    for i in 0..100 {
        let expected = match game.cell_state(false, i).unwrap() {
            CellState::Alive => Mark::Ship,
            CellState::Injured => Mark::Injured,
            CellState::Dead => Mark::Dead,
            CellState::Miss => Mark::Miss,
            CellState::Empty => Mark::Blank,
        };
        assert_eq!(frame.me[i], expected);
    }
    assert!(frame.me.iter().any(|&m| m == Mark::Miss));
}

#[test]
fn pixels_map_to_cells_of_the_opponents_board() {
    let game = Game::with_boards(Board::new(), Board::new(), 25, [50, 50], DRAWS);
    assert_eq!(FIELDS_SPACE_PX, 50);
    assert_eq!(game.field_size(), 251);
    assert_eq!(game.field_origin(false), (50, 50));
    assert_eq!(game.field_origin(true), (351, 50));
    assert_eq!(game.cell_at(351, 50), Some(0));
    assert_eq!(game.cell_at(375, 74), Some(0));
    assert_eq!(game.cell_at(376, 50), Some(1));
    assert_eq!(game.cell_at(351, 75), Some(10));
    assert_eq!(game.cell_at(351 + 249, 50 + 249), Some(99));
    assert_eq!(game.cell_at(351 + 3 * 25 + 7, 50 + 6 * 25 + 24), Some(63));
    for cell in 0..100 {
        let (x, y) = pixel_of(cell);
        assert_eq!(game.cell_at(x, y), Some(cell));
    }
}

#[test]
fn pixels_beside_the_opponents_board_map_to_nothing() {
    let game = Game::with_boards(Board::new(), Board::new(), 25, [50, 50], DRAWS);
    // left of it, also by less than a cell, and above it
    assert_eq!(game.cell_at(350, 60), None);
    assert_eq!(game.cell_at(340, 60), None);
    assert_eq!(game.cell_at(327, 60), None);
    assert_eq!(game.cell_at(360, 49), None);
    assert_eq!(game.cell_at(360, 30), None);
    // right of it and below it; the closing grid line belongs to no cell
    assert_eq!(game.cell_at(351 + 250, 60), None);
    assert_eq!(game.cell_at(360, 50 + 250), None);
    assert_eq!(game.cell_at(2000, 60), None);
    // the human's own board
    assert_eq!(game.cell_at(60, 60), None);
    assert_eq!(game.cell_at(0, 0), None);
    assert_eq!(game.cell_at(i32::MIN, i32::MIN), None);
    assert_eq!(game.cell_at(i32::MAX, i32::MAX), None);
    assert_eq!(game.cell_at(i32::MIN, 60), None);
    assert_eq!(game.cell_at(360, i32::MAX), None);
}

#[test]
fn clicks_beside_the_board_are_ignored() {
    let me = board_with(&[(1, false, 0, 0)]);
    let enemy = board_with(&[(1, false, 3, 3)]);
    let mut game = Game::with_boards(me, enemy, 25, [50, 50], DRAWS);
    let enemy_before = side(&game, true);
    for (x, y) in [(350, 60), (340, 60), (360, 49), (601, 60), (360, 300), (60, 60), (-5, -5)] {
        game.shot(x, y);
        assert_eq!(game.get_state(), State::Me);
        assert_eq!(side(&game, true), enemy_before);
    }
    let (x, y) = pixel_of(33);
    game.shot(x, y);
    assert_eq!(game.cell_state(true, 33), Some(CellState::Dead));
    assert_eq!(game.get_state(), State::Won);
}

#[test]
fn geometry_follows_cell_size_and_origin() {
    let game = Game::with_boards(Board::new(), Board::new(), 10, [-20, 7], DRAWS);
    assert_eq!(game.cell_size(), 10);
    assert_eq!(game.field_size(), 101);
    assert_eq!(game.field_origin(false), (-20, 7));
    assert_eq!(game.field_origin(true), (131, 7));
    assert_eq!(game.cell_at(131, 7), Some(0));
    assert_eq!(game.cell_at(130, 7), None);
    assert_eq!(game.cell_at(230, 106), Some(99));
    assert_eq!(game.cell_at(231, 106), None);
    assert_eq!(game.cell_at(230, 107), None);

    let one = Game::with_boards(Board::new(), Board::new(), 1, [0, 0], DRAWS);
    assert_eq!(one.field_size(), 11);
    assert_eq!(one.field_origin(true), (61, 0));
    assert_eq!(one.cell_at(61, 0), Some(0));
    assert_eq!(one.cell_at(70, 9), Some(99));
    assert_eq!(one.cell_at(71, 9), None);
}

#[test]
fn board_of_cells_without_size_takes_no_click() {
    let mut game = Game::with_boards(
        board_with(&[(1, false, 0, 0)]),
        board_with(&[(1, false, 0, 0)]),
        0,
        [50, 50],
        DRAWS,
    );
    assert_eq!(game.field_size(), 1);
    assert_eq!(game.field_origin(true), (101, 50));
    assert_eq!(game.cell_at(101, 50), None);
    assert_eq!(game.cell_at(100, 50), None);
    game.shot(101, 50);
    assert_eq!(game.get_state(), State::Me);
    assert_eq!(count(&game, true, CellState::Alive), 1);
    assert_eq!(count(&game, true, CellState::Empty), 99);
}

#[test]
fn geometry_at_the_limits_of_the_screen() {
    let game = Game::with_boards(Board::new(), Board::new(), u32::MAX, [i32::MAX, i32::MIN], DRAWS);
    assert_eq!(game.field_size(), 42_949_672_951);
    assert_eq!(game.field_origin(true), (2_147_483_647 + 42_949_672_951 + 50, -2_147_483_648));
    assert_eq!(game.cell_at(i32::MAX, i32::MIN), None);
    let wide = Game::with_boards(Board::new(), Board::new(), 100_000_000, [-2_000_000_000, 0], DRAWS);
    // the board starts at -2e9 + 1e9 + 1 + 50
    assert_eq!(wide.cell_at(-999_999_949, 0), Some(0));
    assert_eq!(wide.cell_at(-999_999_950, 0), None);
    assert_eq!(wide.cell_at(-999_999_949 + 99_999_999, 99_999_999), Some(0));
    assert_eq!(wide.cell_at(-999_999_949 + 100_000_000, 100_000_000), Some(11));
    assert_eq!(wide.cell_at(50, 999_999_999), Some(99));
    assert_eq!(wide.cell_at(51, 999_999_999), None);
    assert_eq!(wide.cell_at(50, 1_000_000_000), None);
}

#[test]
fn state_can_be_set_and_read() {
    let mut game = Game::with_boards(Board::new(), Board::new(), 25, [50, 50], DRAWS);
    assert_eq!(game.get_state(), State::Me);
    for state in [State::Enemy, State::Won, State::Lost, State::Me] {
        game.set_state(state);
        assert_eq!(game.get_state(), state);
    }
}
