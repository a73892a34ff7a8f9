//! Heuristic evaluation of a board for one seat.

use vstd::prelude::*;

use crate::game::{
    in_bounds, origin_col, origin_dir, origin_row, window, window_fits, Board, Cell, COLS, ROWS,
    WINDOW_ORIGINS,
};
use crate::player::{other, Player, PlayerId};

verus! {

/// Bonus for each own piece in the middle column.
pub const CENTER_BONUS: i32 = 3;

/// Bonus for a window with two own pieces and two empty squares.
pub const TWO_IN_A_ROW: i32 = 500;

/// Bonus for a window with three own pieces and one empty square.
pub const THREE_IN_A_ROW: i32 = 5000;

/// Bonus for a window of four own pieces.
pub const FOUR_IN_A_ROW: i32 = 100000;

/// Penalty for a window with three opposing pieces and one empty square.
pub const BLOCK_PENALTY: i32 = 4000;

/// How many of the four cells of `w` equal `x`.
pub open spec fn count_of(w: Seq<Cell>, x: Cell) -> int {
    (if w[0] == x { 1int } else { 0 }) + (if w[1] == x { 1int } else { 0 }) + (if w[2] == x {
        1int
    } else {
        0
    }) + (if w[3] == x { 1int } else { 0 })
}

/// Contribution of one four-cell window to the score of `p`.
pub open spec fn window_score(w: Seq<Cell>, p: PlayerId) -> int {
    let mine = count_of(w, Cell::Player(p));
    let theirs = count_of(w, Cell::Player(other(p)));
    let empty = count_of(w, Cell::Empty);
    if mine == 4 && theirs == 0 && empty == 0 {
        FOUR_IN_A_ROW as int
    } else if mine == 3 && theirs == 0 && empty == 1 {
        THREE_IN_A_ROW as int
    } else if mine == 2 && theirs == 0 && empty == 2 {
        TWO_IN_A_ROW as int
    } else if mine == 0 && theirs == 3 && empty == 1 {
        -(BLOCK_PENALTY as int)
    } else {
        0
    }
}

/// Contribution of the window with flat index `k`; zero when it leaves the grid.
pub open spec fn window_value(g: Seq<Seq<Cell>>, p: PlayerId, k: int) -> int {
    let (c, r, d) = (origin_col(k), origin_row(k), origin_dir(k));
    if window_fits(c, r, d) {
        window_score(window(g, c, r, d), p)
    } else {
        0
    }
}

/// Sum of the contributions of the windows with flat index below `n`.
pub open spec fn windows_total(g: Seq<Seq<Cell>>, p: PlayerId, n: nat) -> int
    decreases n,
{
    if n == 0 {
        0
    } else {
        windows_total(g, p, (n - 1) as nat) + window_value(g, p, n - 1)
    }
}

/// Number of pieces of `p` among the top `n` squares of the middle column.
pub open spec fn center_count(g: Seq<Seq<Cell>>, p: PlayerId, n: nat) -> int
    decreases n,
{
    if n == 0 {
        0
    } else {
        center_count(g, p, (n - 1) as nat) + if g[(COLS / 2) as int][n - 1] == Cell::Player(p) {
            1int
        } else {
            0
        }
    }
}

/// Heuristic score of the grid for `p`: the center bonus for each of its pieces in the
/// middle column, plus the contribution of every four-cell window on the grid.
pub open spec fn evaluation(g: Seq<Seq<Cell>>, p: PlayerId) -> int {
    CENTER_BONUS * center_count(g, p, ROWS as nat) + windows_total(g, p, WINDOW_ORIGINS as nat)
}

/// Least and greatest value that `evaluation` can take.
pub open spec fn eval_floor() -> int {
    -(BLOCK_PENALTY * WINDOW_ORIGINS) as int
}

pub open spec fn eval_ceiling() -> int {
    (FOUR_IN_A_ROW * WINDOW_ORIGINS + CENTER_BONUS * ROWS) as int
}

proof fn lemma_windows_total_bounds(g: Seq<Seq<Cell>>, p: PlayerId, n: nat)
    ensures
        -(BLOCK_PENALTY as int) * n <= windows_total(g, p, n) <= (FOUR_IN_A_ROW as int) * n,
    decreases n,
{
    if n > 0 {
        lemma_windows_total_bounds(g, p, (n - 1) as nat);
    }
}

proof fn lemma_center_count_bounds(g: Seq<Seq<Cell>>, p: PlayerId, n: nat)
    ensures
        0 <= center_count(g, p, n) <= n,
    decreases n,
{
    if n > 0 {
        lemma_center_count_bounds(g, p, (n - 1) as nat);
    }
}

/// Every evaluation lies between `eval_floor()` and `eval_ceiling()`.
pub proof fn lemma_evaluation_bounds(g: Seq<Seq<Cell>>, p: PlayerId)
    ensures
        eval_floor() <= evaluation(g, p) <= eval_ceiling(),
{
    lemma_windows_total_bounds(g, p, WINDOW_ORIGINS as nat);
    lemma_center_count_bounds(g, p, ROWS as nat);
}

/// How many of the four cells of `w` equal `x`.
fn count_cells(w: &[Cell; 4], x: Cell) -> (n: i32)
    ensures
        n == count_of(w@, x),
{
    let mut n: i32 = 0;
    if w[0] == x {
        n = n + 1;
    }
    if w[1] == x {
        n = n + 1;
    }
    if w[2] == x {
        n = n + 1;
    }
    if w[3] == x {
        n = n + 1;
    }
    n
}

impl Board {
    /// Contribution of one four-cell window to the score of `player`.
    pub fn score_window(window: &[Cell; 4], player: PlayerId) -> (s: i32)
        ensures
            s == window_score(window@, player),
    {
        let opponent = player.opponent();
        let count_player = count_cells(window, Cell::Player(player));
        let count_opponent = count_cells(window, Cell::Player(opponent));
        let count_empty = count_cells(window, Cell::Empty);
        if count_player == 4 && count_opponent == 0 && count_empty == 0 {
            FOUR_IN_A_ROW
        } else if count_player == 3 && count_opponent == 0 && count_empty == 1 {
            THREE_IN_A_ROW
        } else if count_player == 2 && count_opponent == 0 && count_empty == 2 {
            TWO_IN_A_ROW
        } else if count_player == 0 && count_opponent == 3 && count_empty == 1 {
            -BLOCK_PENALTY
        } else {
            0
        }
    }

    /// Heuristic score of this board for `player`; reads the board only.
    pub fn evaluate(&self, player: Player) -> (s: i32)
        ensures
            s == evaluation(self@.grid, player.id),
    {
        let p = player.id;
        let center = COLS / 2;
        let mut count: i32 = 0;
        let mut r: usize = 0;
        while r < ROWS
            invariant
                r <= ROWS,
                center == COLS / 2,
                count == center_count(self@.grid, p, r as nat),
            decreases ROWS - r,
        {
            proof {
                lemma_center_count_bounds(self@.grid, p, r as nat);
                assert(in_bounds(center as int, r as int));
            }
            if self.get_board()[center][r] == Cell::Player(p) {
                count = count + 1;
            }
            r = r + 1;
        }
        proof {
            lemma_center_count_bounds(self@.grid, p, ROWS as nat);
        }
        let mut score: i32 = count * CENTER_BONUS;
        let mut k: usize = 0;
        while k < WINDOW_ORIGINS
            invariant
                k <= WINDOW_ORIGINS,
                score == CENTER_BONUS * center_count(self@.grid, p, ROWS as nat) + windows_total(
                    self@.grid,
                    p,
                    k as nat,
                ),
                0 <= center_count(self@.grid, p, ROWS as nat) <= ROWS,
            decreases WINDOW_ORIGINS - k,
        {
            proof {
                lemma_windows_total_bounds(self@.grid, p, k as nat);
                lemma_windows_total_bounds(self@.grid, p, (k + 1) as nat);
                crate::game::lemma_origin_bounds(k as int);
                assert(windows_total(self@.grid, p, (k + 1) as nat) == windows_total(
                    self@.grid,
                    p,
                    k as nat,
                ) + window_value(self@.grid, p, k as int));
            }
            let c = k / 24;
            let r = (k % 24) / 4;
            let d = k % 4;
            if Board::fits(c, r, d) {
                let w = [
                    self.window_cell_at(c, r, d, 0),
                    self.window_cell_at(c, r, d, 1),
                    self.window_cell_at(c, r, d, 2),
                    self.window_cell_at(c, r, d, 3),
                ];
                proof {
                    assert(w@ =~= window(self@.grid, c as int, r as int, d as int));
                }
                let s = Board::score_window(&w, p);
                assert(s == window_value(self@.grid, p, k as int));
                assert(windows_total(self@.grid, p, (k + 1) as nat) <= 100000 * (k + 1));
                assert(windows_total(self@.grid, p, (k + 1) as nat) >= -4000 * (k + 1));
                assert(score + s == CENTER_BONUS * center_count(self@.grid, p, ROWS as nat)
                    + windows_total(self@.grid, p, (k + 1) as nat));
                score = score + s;
            }
            k = k + 1;
        }
        score
    }
}

} // verus!
