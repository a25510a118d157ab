//! Positions of the ten by ten grid and the neighbourhood rule that both
//! fleet placement and the marking around a sunk ship go by.
//!
//! Two positions count as neighbours when their numbers differ by 1, 9, 10
//! or 11. Rows are not told apart: the last position of a row and the first
//! of the next one are neighbours under this rule.

use vstd::prelude::*;

verus! {

/// Whether `i` is the number of a position on the board.
pub open spec fn on_board(i: int) -> bool {
    0 <= i < 100
}

/// Whether the numbers `a` and `b` differ by 1, 9, 10 or 11.
pub open spec fn is_near(a: int, b: int) -> bool {
    let d = b - a;
    d == 1 || d == -1 || d == 9 || d == -9 || d == 10 || d == -10 || d == 11 || d == -11
}

/// Whether `a` and `b` are the same position or neighbours.
pub open spec fn touches(a: int, b: int) -> bool {
    a == b || is_near(a, b)
}

/// Difference between a position and its `k`-th neighbour, `k` from 0 to 7.
pub open spec fn offset(k: int) -> int {
    if k == 0 {
        1
    } else if k == 1 {
        -1
    } else if k == 2 {
        11
    } else if k == 3 {
        10
    } else if k == 4 {
        9
    } else if k == 5 {
        -11
    } else if k == 6 {
        -10
    } else {
        -9
    }
}

/// The neighbours of a position are exactly what the eight offsets reach.
pub proof fn lemma_near_is_offset(a: int, b: int)
    ensures
        is_near(a, b) <==> exists|k: int| 0 <= k < 8 && b == a + #[trigger] offset(k),
{
    if is_near(a, b) {
        let d = b - a;
        let k: int = if d == 1 {
            0
        } else if d == -1 {
            1
        } else if d == 11 {
            2
        } else if d == 10 {
            3
        } else if d == 9 {
            4
        } else if d == -11 {
            5
        } else if d == -10 {
            6
        } else {
            7
        };
        assert(0 <= k < 8 && b == a + offset(k));
    }
}

/// The `k`-th neighbour of `cell`, or `None` where that number is off the
/// board or `k` is not below 8.
pub fn neighbour(cell: usize, k: usize) -> (r: Option<usize>)
    ensures
        r == (if cell < 100 && k < 8 && on_board(cell + offset(k as int)) {
            Some((cell + offset(k as int)) as usize)
        } else {
            None
        }),
{
    if cell >= 100 || k >= 8 {
        return None;
    }
    let (up, by): (bool, usize) = if k == 0 {
        (true, 1)
    } else if k == 1 {
        (false, 1)
    } else if k == 2 {
        (true, 11)
    } else if k == 3 {
        (true, 10)
    } else if k == 4 {
        (true, 9)
    } else if k == 5 {
        (false, 11)
    } else if k == 6 {
        (false, 10)
    } else {
        (false, 9)
    };
    if up {
        if cell + by < 100 {
            Some(cell + by)
        } else {
            None
        }
    } else {
        if cell >= by {
            Some(cell - by)
        } else {
            None
        }
    }
}

} // verus!
