use battleship::board::Board;
use battleship::cell::{Cell, CellState, NO_CELL};

fn is_neighbour(a: usize, b: usize) -> bool {
    let d = if a > b { a - b } else { b - a };
    d == 1 || d == 9 || d == 10 || d == 11
}

fn ship_of(cell: &Cell) -> Vec<usize> {
    cell.coords.iter().copied().filter(|&c| c != NO_CELL).collect()
}

/// Checks that the board shows one whole fleet and returns its ships.
fn check_fleet(board: &Board) -> Vec<Vec<usize>> {
    let cells: Vec<Cell> = (0..100).map(|i| board.cell(i).unwrap()).collect();
    let taken: Vec<usize> = (0..100).filter(|&i| cells[i].state != CellState::Empty).collect();
    assert_eq!(taken.len(), 20);
    let mut ships: Vec<Vec<usize>> = Vec::new();
    for &i in &taken {
        assert_eq!(cells[i].state, CellState::Alive);
        let ship = ship_of(&cells[i]);
        assert!(ship.contains(&i));
        for &part in &ship {
            assert!(part < 100);
            assert_eq!(cells[part].coords, cells[i].coords);
            assert_eq!(cells[part].state, CellState::Alive);
        }
        // unused slots come last
        let used = ship.len();
        assert!(cells[i].coords[..used].iter().all(|&c| c != NO_CELL));
        assert!(cells[i].coords[used..].iter().all(|&c| c == NO_CELL));
        if !ships.contains(&ship) {
            ships.push(ship);
        }
    }
    for i in 0..100 {
        if cells[i].state == CellState::Empty {
            assert_eq!(cells[i].coords, [NO_CELL; 4]);
        }
    }
    let mut lengths: Vec<usize> = ships.iter().map(|s| s.len()).collect();
    lengths.sort();
    lengths.reverse();
    assert_eq!(lengths, vec![4, 3, 3, 2, 2, 2, 1, 1, 1, 1]);
    for ship in &ships {
        let step = if ship.len() > 1 { ship[1] - ship[0] } else { 1 };
        assert!(step == 1 || step == 10);
        for k in 1..ship.len() {
            assert_eq!(ship[k], ship[k - 1] + step);
        }
        let first = ship[0];
        let last = ship[ship.len() - 1];
        if step == 1 {
            assert_eq!(first / 10, last / 10);
        } else {
            assert_eq!(first % 10, last % 10);
        }
    }
    for (a, ship) in ships.iter().enumerate() {
        for (b, other) in ships.iter().enumerate() {
            if a != b {
                for &p in ship {
                    for &q in other {
                        assert!(p != q && !is_neighbour(p, q));
                    }
                }
            }
        }
    }
    ships
}

#[test]
fn generated_board_shows_a_whole_fleet() {
    let board = Board::gen_ships(1_000_000).expect("a fleet fits within a million draws");
    let ships = check_fleet(&board);
    assert_eq!(ships.len(), 10);
    assert!(board.any_alive());
}

#[test]
fn generated_boards_are_valid_again_and_again() {
    for _ in 0..200 {
        let board = Board::gen_ships(1_000_000).expect("a fleet fits within a million draws");
        check_fleet(&board);
    }
}

#[test]
fn generated_boards_differ() {
    let first = Board::gen_ships(1_000_000).unwrap();
    let layout = |b: &Board| -> Vec<bool> {
        (0..100).map(|i| b.state_at(i) == Some(CellState::Alive)).collect()
    };
    let base = layout(&first);
    let mut other_seen = false;
    for _ in 0..50 {
        let next = Board::gen_ships(1_000_000).unwrap();
        if layout(&next) != base {
            other_seen = true;
        }
    }
    assert!(other_seen);
}

#[test]
fn generated_ships_come_in_both_directions_and_reach_the_edges() {
    let mut across = false;
    let mut down = false;
    let mut last_row = false;
    let mut last_col = false;
    for _ in 0..300 {
        let board = Board::gen_ships(1_000_000).unwrap();
        for ship in check_fleet(&board) {
            if ship.len() > 1 {
                if ship[1] - ship[0] == 1 {
                    across = true;
                } else {
                    down = true;
                }
            }
            for part in ship {
                if part / 10 == 9 {
                    last_row = true;
                }
                if part % 10 == 9 {
                    last_col = true;
                }
            }
        }
    }
    assert!(across && down && last_row && last_col);
}

#[test]
fn no_fleet_within_fewer_draws_than_ships() {
    for bound in 0..10 {
        assert!(Board::gen_ships(bound).is_none());
    }
}

#[test]
fn ten_draws_may_or_may_not_be_enough() {
    // Ten draws place a fleet only if every single one is taken. Whatever
    // comes back, a board that does come back shows a whole fleet.
    for _ in 0..100 {
        if let Some(board) = Board::gen_ships(10) {
            check_fleet(&board);
        }
    }
}
