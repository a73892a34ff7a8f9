//! Negamax search with alpha-beta pruning, and why pruning never changes the chosen column.

use vstd::prelude::*;

use crate::eval::{eval_ceiling, evaluation, lemma_evaluation_bounds};
use crate::player::PlayerType;
use crate::game::{
    can_play, in_bounds, lemma_play_consistent, model_ok, play, Board, BoardModel, Cell, GameState,
    COLS,
};

verus! {

/// A computer player: searches `depth` half-moves ahead.
#[derive(Clone, Copy, PartialEq, Eq, Structural, Debug)]
pub struct AI {
    pub depth: usize,
}

impl AI {
    /// Maps a difficulty selector to a search depth; unknown selectors get the middle depth.
    pub fn new(diff: usize) -> (r: AI)
        ensures
            r.depth == depth_for(diff),
    {
        let depth: usize = match diff {
            1 => 4,
            2 => 6,
            3 => 8,
            10 => 10,
            _ => 6,
        };
        AI { depth }
    }
}

/// Search depth chosen for a difficulty selector.
pub open spec fn depth_for(diff: usize) -> usize {
    if diff == 1 {
        4
    } else if diff == 2 {
        6
    } else if diff == 3 {
        8
    } else if diff == 10 {
        10
    } else {
        6
    }
}


/// Least score the search works with; one above `i32::MIN`, which stays a sentinel.
pub open spec fn score_min() -> int {
    i32::MIN as int + 1
}

pub open spec fn score_max() -> int {
    i32::MAX as int
}

/// A score seen from the other side; the sentinel `i32::MIN` is read as `i32::MIN + 1`
/// first, so that the negation stays in range.
pub open spec fn negate(x: int) -> int {
    if x == i32::MIN as int {
        score_max()
    } else {
        -x
    }
}

pub open spec fn larger(a: int, b: int) -> int {
    if a >= b {
        a
    } else {
        b
    }
}

/// The search stops at a finished game or when no depth is left.
pub open spec fn is_leaf(m: BoardModel, depth: nat) -> bool {
    m.state != GameState::InProgress || depth == 0
}

/// Negamax value of `m` for the player to act, `depth` half-moves deep, with alpha-beta
/// pruning in the window (`alpha`, `beta`).
pub open spec fn search(m: BoardModel, depth: nat, alpha: int, beta: int) -> int
    decreases depth, COLS + 1,
{
    if is_leaf(m, depth) {
        evaluation(m.grid, m.turn)
    } else {
        search_from(m, depth, alpha, beta, 0, score_min())
    }
}

/// The pruned search over the columns from `col` on, with the bound `alpha` and the best
/// score `best` found so far.
pub open spec fn search_from(m: BoardModel, depth: nat, alpha: int, beta: int, col: int, best: int) -> int
    decreases depth, COLS - col,
{
    if depth == 0 || col >= COLS {
        best
    } else if can_play(m, col) {
        let s = negate(search(play(m, col), (depth - 1) as nat, -beta, -alpha));
        let best2 = larger(best, s);
        let alpha2 = larger(alpha, s);
        if alpha2 >= beta {
            best2
        } else {
            search_from(m, depth, alpha2, beta, col + 1, best2)
        }
    } else {
        search_from(m, depth, alpha, beta, col + 1, best)
    }
}

/// Negamax value of `m` for the player to act, `depth` half-moves deep, every branch
/// explored.
pub open spec fn minimax(m: BoardModel, depth: nat) -> int
    decreases depth, COLS + 1,
{
    if is_leaf(m, depth) {
        evaluation(m.grid, m.turn)
    } else {
        minimax_from(m, depth, 0, score_min())
    }
}

pub open spec fn minimax_from(m: BoardModel, depth: nat, col: int, best: int) -> int
    decreases depth, COLS - col,
{
    if depth == 0 || col >= COLS {
        best
    } else if can_play(m, col) {
        let s = negate(minimax(play(m, col), (depth - 1) as nat));
        minimax_from(m, depth, col + 1, larger(best, s))
    } else {
        minimax_from(m, depth, col + 1, best)
    }
}

/// The column chosen at the root with pruning, scanning from `col`: the first column of
/// the highest score wins.
pub open spec fn choose_from(
    m: BoardModel,
    depth: nat,
    col: int,
    alpha: int,
    best_score: int,
    best_col: Option<usize>,
) -> Option<usize>
    decreases COLS - col,
{
    if col >= COLS {
        best_col
    } else if can_play(m, col) {
        let s = negate(search(play(m, col), (depth - 1) as nat, -score_max(), -alpha));
        if s > best_score {
            choose_from(m, depth, col + 1, larger(alpha, s), s, Some(col as usize))
        } else {
            choose_from(m, depth, col + 1, larger(alpha, s), best_score, best_col)
        }
    } else {
        choose_from(m, depth, col + 1, alpha, best_score, best_col)
    }
}

/// The column that the pruned search picks for the player to act.
pub open spec fn chosen_column(m: BoardModel, depth: nat) -> Option<usize> {
    choose_from(m, depth, 0, score_min(), score_min(), None)
}

/// The column chosen at the root without pruning, scanning from `col`.
pub open spec fn choose_full_from(
    m: BoardModel,
    depth: nat,
    col: int,
    best_score: int,
    best_col: Option<usize>,
) -> Option<usize>
    decreases COLS - col,
{
    if col >= COLS {
        best_col
    } else if can_play(m, col) {
        let s = negate(minimax(play(m, col), (depth - 1) as nat));
        if s > best_score {
            choose_full_from(m, depth, col + 1, s, Some(col as usize))
        } else {
            choose_full_from(m, depth, col + 1, best_score, best_col)
        }
    } else {
        choose_full_from(m, depth, col + 1, best_score, best_col)
    }
}

/// The column that exhaustive negamax picks for the player to act.
pub open spec fn full_search_column(m: BoardModel, depth: nat) -> Option<usize> {
    choose_full_from(m, depth, 0, score_min(), None)
}

fn negate_score(x: i32) -> (r: i32)
    ensures
        r == negate(x as int),
{
    if x == i32::MIN {
        i32::MAX
    } else {
        -x
    }
}

impl AI {
    /// Negamax with alpha-beta pruning: the value of `board` for the player to act there.
    fn negamax(&self, board: &Board, depth: usize, alpha: i32, beta: i32) -> (r: i32)
        requires
            board.wf(),
            alpha > i32::MIN,
            beta > i32::MIN,
        ensures
            r == search(board@, depth as nat, alpha as int, beta as int),
        decreases depth,
    {
        if *board.get_game_state() != GameState::InProgress || depth == 0 {
            return board.evaluate(*board.get_current_player());
        }
        let mut max_score: i32 = i32::MIN + 1;
        let mut a: i32 = alpha;
        let mut col: usize = 0;
        while col < COLS
            invariant
                board.wf(),
                col <= COLS,
                depth > 0,
                a > i32::MIN,
                beta > i32::MIN,
                search(board@, depth as nat, alpha as int, beta as int) == search_from(
                    board@,
                    depth as nat,
                    a as int,
                    beta as int,
                    col as int,
                    max_score as int,
                ),
            decreases COLS - col,
        {
            let mut temp = *board;
            if temp.play_move(col).is_some() {
                let raw = self.negamax(&temp, depth - 1, -beta, -a);
                let score = negate_score(raw);
                if score > max_score {
                    max_score = score;
                }
                if score > a {
                    a = score;
                }
                if a >= beta {
                    return max_score;
                }
            }
            col = col + 1;
        }
        max_score
    }

    /// The column the player to act should drop into, searching `self.depth` half-moves
    /// ahead; `None` when no drop is possible.
    pub fn best_move(self, board: &Board) -> (r: Option<usize>)
        requires
            board.wf(),
            self.depth >= 1,
        ensures
            r == chosen_column(board@, self.depth as nat),
            r.is_none() <==> forall|c: int| 0 <= c < COLS ==> !can_play(board@, c),
            r matches Some(c) ==> can_play(board@, c as int),
    {
        proof {
            lemma_choose_some(board@, self.depth as nat, 0, score_min(), score_min(), None);
        }
        let mut alpha: i32 = i32::MIN + 1;
        let beta: i32 = i32::MAX;
        let mut best_col: Option<usize> = None;
        let mut best_score: i32 = i32::MIN + 1;
        let mut col: usize = 0;
        while col < COLS
            invariant
                board.wf(),
                col <= COLS,
                self.depth >= 1,
                alpha > i32::MIN,
                beta == i32::MAX,
                chosen_column(board@, self.depth as nat) == choose_from(
                    board@,
                    self.depth as nat,
                    col as int,
                    alpha as int,
                    best_score as int,
                    best_col,
                ),
            decreases COLS - col,
        {
            let mut temp = *board;
            if temp.play_move(col).is_some() {
                let raw = self.negamax(&temp, self.depth - 1, -beta, -alpha);
                let score = negate_score(raw);
                if score > best_score {
                    best_score = score;
                    best_col = Some(col);
                }
                if score > alpha {
                    alpha = score;
                }
            }
            col = col + 1;
        }
        best_col
    }
}


pub open spec fn in_score_range(x: int) -> bool {
    score_min() <= x <= score_max()
}

proof fn lemma_search_range(m: BoardModel, depth: nat, alpha: int, beta: int)
    ensures
        in_score_range(search(m, depth, alpha, beta)),
        in_score_range(minimax(m, depth)),
    decreases depth, COLS + 1,
{
    if is_leaf(m, depth) {
        lemma_evaluation_bounds(m.grid, m.turn);
    } else {
        lemma_search_from_range(m, depth, alpha, beta, 0, score_min());
    }
}

proof fn lemma_search_from_range(m: BoardModel, depth: nat, alpha: int, beta: int, col: int, best: int)
    requires
        in_score_range(best),
    ensures
        in_score_range(search_from(m, depth, alpha, beta, col, best)),
        in_score_range(minimax_from(m, depth, col, best)),
        minimax_from(m, depth, col, best) >= best,
    decreases depth, COLS - col,
{
    if depth == 0 || col >= COLS {
    } else if can_play(m, col) {
        let child = play(m, col);
        lemma_search_range(child, (depth - 1) as nat, -beta, -alpha);
        let s = negate(search(child, (depth - 1) as nat, -beta, -alpha));
        let t = negate(minimax(child, (depth - 1) as nat));
        lemma_search_from_range(m, depth, larger(alpha, s), beta, col + 1, larger(best, s));
        lemma_search_from_range(m, depth, alpha, beta, col + 1, larger(best, t));
    } else {
        lemma_search_from_range(m, depth, alpha, beta, col + 1, best);
    }
}

/// The pruned value agrees with the exhaustive one inside the window, and lies on the same
/// side of the window outside it.
pub open spec fn window_agrees(r: int, v: int, alpha: int, beta: int) -> bool {
    &&& v <= alpha ==> v <= r <= alpha
    &&& v >= beta ==> beta <= r <= v
    &&& alpha < v < beta ==> r == v
}

/// Alpha-beta pruning in a window (`alpha`, `beta`) returns the exhaustive negamax value
/// when that value lies inside the window, and a bound on the same side of it otherwise.
pub proof fn lemma_search_window(m: BoardModel, depth: nat, alpha: int, beta: int)
    requires
        score_min() <= alpha < beta <= score_max(),
    ensures
        window_agrees(search(m, depth, alpha, beta), minimax(m, depth), alpha, beta),
    decreases depth, COLS + 1,
{
    if !is_leaf(m, depth) {
        lemma_search_from_window(m, depth, alpha, beta, 0, alpha, score_min(), score_min());
    }
}

proof fn lemma_search_from_window(
    m: BoardModel,
    depth: nat,
    alpha0: int,
    beta: int,
    col: int,
    alpha: int,
    best: int,
    acc: int,
)
    requires
        depth > 0,
        0 <= col,
        score_min() <= alpha0 < beta <= score_max(),
        alpha == larger(alpha0, best),
        alpha < beta,
        in_score_range(best),
        in_score_range(acc),
        (acc > alpha0 && best == acc) || (acc <= alpha0 && acc <= best <= alpha0),
    ensures
        window_agrees(
            search_from(m, depth, alpha, beta, col, best),
            minimax_from(m, depth, col, acc),
            alpha0,
            beta,
        ),
    decreases depth, COLS - col,
{
    if col >= COLS {
    } else if can_play(m, col) {
        let child = play(m, col);
        let d1 = (depth - 1) as nat;
        lemma_search_range(child, d1, -beta, -alpha);
        lemma_search_window(child, d1, -beta, -alpha);
        let rc = search(child, d1, -beta, -alpha);
        let vc = minimax(child, d1);
        let s = negate(rc);
        let t = negate(vc);
        assert(s == -rc && t == -vc);
        if larger(alpha, s) >= beta {
            assert(s >= beta);
            assert(t >= s);
            lemma_search_from_range(m, depth, alpha, beta, col + 1, larger(acc, t));
        } else {
            lemma_search_from_window(
                m,
                depth,
                alpha0,
                beta,
                col + 1,
                larger(alpha, s),
                larger(best, s),
                larger(acc, t),
            );
        }
    } else {
        lemma_search_from_window(m, depth, alpha0, beta, col + 1, alpha, best, acc);
    }
}

proof fn lemma_choose_equiv(m: BoardModel, depth: nat, col: int, alpha: int, best_col: Option<usize>)
    requires
        depth >= 1,
        0 <= col,
        in_score_range(alpha),
    ensures
        choose_from(m, depth, col, alpha, alpha, best_col) == choose_full_from(
            m,
            depth,
            col,
            alpha,
            best_col,
        ),
    decreases COLS - col,
{
    if col >= COLS {
    } else if can_play(m, col) {
        let child = play(m, col);
        let d1 = (depth - 1) as nat;
        lemma_search_range(child, d1, -score_max(), -alpha);
        let rc = search(child, d1, -score_max(), -alpha);
        let vc = minimax(child, d1);
        let s = negate(rc);
        let t = negate(vc);
        assert(s == -rc && t == -vc);
        if alpha < score_max() {
            lemma_search_window(child, d1, -score_max(), -alpha);
        }
        assert(s == t || (s <= alpha && t <= alpha));
        lemma_choose_equiv(m, depth, col + 1, larger(alpha, s), if s > alpha {
            Some(col as usize)
        } else {
            best_col
        });
    } else {
        lemma_choose_equiv(m, depth, col + 1, alpha, best_col);
    }
}

/// Pruning never changes the column chosen: the pruned search and exhaustive negamax pick
/// the same column for every board and every depth of at least one.
pub proof fn lemma_pruning_keeps_choice(m: BoardModel, depth: nat)
    requires
        depth >= 1,
    ensures
        chosen_column(m, depth) == full_search_column(m, depth),
{
    lemma_choose_equiv(m, depth, 0, score_min(), None);
}


/// Largest magnitude a search value takes on a well-formed board.
pub open spec fn value_bound() -> int {
    eval_ceiling()
}

pub open spec fn bounded(x: int) -> bool {
    -value_bound() <= x <= value_bound()
}

proof fn lemma_search_bounded(m: BoardModel, depth: nat, alpha: int, beta: int)
    requires
        model_ok(m),
    ensures
        bounded(search(m, depth, alpha, beta)),
    decreases depth, COLS + 1,
{
    if is_leaf(m, depth) {
        lemma_evaluation_bounds(m.grid, m.turn);
    } else {
        let g = m.grid;
        let (c, r) = choose|c: int, r: int| in_bounds(c, r) && g[c][r] == Cell::Empty;
        assert(can_play(m, c));
        lemma_search_from_bounded(m, depth, alpha, beta, 0, score_min());
    }
}

proof fn lemma_search_from_bounded(m: BoardModel, depth: nat, alpha: int, beta: int, col: int, best: int)
    requires
        model_ok(m),
        depth > 0,
        0 <= col,
        bounded(best) || (best == score_min() && exists|c: int|
            col <= c < COLS && can_play(m, c)),
    ensures
        bounded(search_from(m, depth, alpha, beta, col, best)),
    decreases depth, COLS - col,
{
    if col >= COLS {
    } else if can_play(m, col) {
        let child = play(m, col);
        lemma_play_consistent(m, col);
        lemma_search_bounded(child, (depth - 1) as nat, -beta, -alpha);
        let s = negate(search(child, (depth - 1) as nat, -beta, -alpha));
        if larger(alpha, s) < beta {
            lemma_search_from_bounded(m, depth, larger(alpha, s), beta, col + 1, larger(best, s));
        }
    } else {
        lemma_search_from_bounded(m, depth, alpha, beta, col + 1, best);
    }
}

proof fn lemma_choose_some(
    m: BoardModel,
    depth: nat,
    col: int,
    alpha: int,
    best_score: int,
    best_col: Option<usize>,
)
    requires
        model_ok(m),
        0 <= col,
        best_col.is_none() ==> best_score == score_min(),
        best_col matches Some(c) ==> can_play(m, c as int),
    ensures
        choose_from(m, depth, col, alpha, best_score, best_col).is_some() <==> (best_col.is_some()
            || exists|c: int| col <= c < COLS && can_play(m, c)),
        choose_from(m, depth, col, alpha, best_score, best_col) matches Some(c) ==> can_play(
            m,
            c as int,
        ),
    decreases COLS - col,
{
    if col >= COLS {
    } else if can_play(m, col) {
        let child = play(m, col);
        lemma_play_consistent(m, col);
        lemma_search_bounded(child, (depth - 1) as nat, -score_max(), -alpha);
        let s = negate(search(child, (depth - 1) as nat, -score_max(), -alpha));
        if s > best_score {
            lemma_choose_some(m, depth, col + 1, larger(alpha, s), s, Some(col as usize));
        } else {
            lemma_choose_some(m, depth, col + 1, larger(alpha, s), best_score, best_col);
        }
    } else {
        lemma_choose_some(m, depth, col + 1, alpha, best_score, best_col);
        if best_col.is_none() && exists|c: int| col <= c < COLS && can_play(m, c) {
            let c = choose|c: int| col <= c < COLS && can_play(m, c);
            assert(col + 1 <= c);
        }
    }
}


/// What the game loop does next.
#[derive(Clone, Copy, PartialEq, Eq, Structural, Debug)]
pub enum TurnAction {
    /// The game is over, or the computer player found no drop.
    GameOver,
    /// A person is to act: ask for a column.
    AskHuman,
    /// The computer player drops into this column.
    Drop(usize),
}

/// Depth a computer player searches at: its own, but at least one half-move.
pub open spec fn effective_depth(ai: AI) -> nat {
    if ai.depth == 0 {
        1
    } else {
        ai.depth as nat
    }
}

impl Board {
    /// Decides the next step of the game loop for the player to act.
    pub fn next_action(&self) -> (a: TurnAction)
        requires
            self.wf(),
        ensures
            self@.state != GameState::InProgress ==> a == TurnAction::GameOver,
            self@.state == GameState::InProgress ==> match self.current().kind {
                PlayerType::Human => a == TurnAction::AskHuman,
                PlayerType::AI(ai) => match chosen_column(self@, effective_depth(ai)) {
                    Some(c) => a == TurnAction::Drop(c),
                    None => a == TurnAction::GameOver,
                },
            },
            a matches TurnAction::Drop(c) ==> can_play(self@, c as int),
    {
        if *self.get_game_state() != GameState::InProgress {
            return TurnAction::GameOver;
        }
        match self.get_current_player().kind {
            PlayerType::Human => TurnAction::AskHuman,
            PlayerType::AI(ai) => {
                let searcher = if ai.depth == 0 {
                    AI { depth: 1 }
                } else {
                    ai
                };
                match searcher.best_move(self) {
                    Some(c) => TurnAction::Drop(c),
                    None => TurnAction::GameOver,
                }
            },
        }
    }
}

} // verus!
