//! The board: grid, state and seats; drops, win and draw detection, and the model of a
//! board that the contracts speak of.

use vstd::prelude::*;

use crate::ai::{depth_for, AI};
use crate::player::{other, Player, PlayerId, PlayerType};

verus! {

pub const ROWS: usize = 6;
pub const COLS: usize = 7;
pub const WINNING_LENGTH: usize = 4;

/// Number of (column, row, direction) triples that may anchor a four-cell window.
pub const WINDOW_ORIGINS: usize = 168;

/// Where a game stands.
#[derive(Clone, Copy, PartialEq, Eq, Structural, Debug)]
pub enum GameState {
    InProgress,
    Draw,
    Win(PlayerId),
}

/// One square of the grid.
#[derive(Clone, Copy, PartialEq, Eq, Structural, Debug)]
pub enum Cell {
    Empty,
    Player(PlayerId),
}

/// A square of the grid; row 0 is the top row.
#[derive(Clone, Copy, PartialEq, Eq, Structural, Debug)]
pub struct Position {
    pub row: usize,
    pub col: usize,
}

/// Record of one accepted drop.
#[derive(Clone, Copy, PartialEq, Eq, Structural, Debug)]
pub struct Move {
    pub player: Player,
    pub position: Position,
}

/// The grid (column-major, row 0 on top), the state of the game and the seats.
#[derive(Clone, Copy, PartialEq, Debug)]
pub struct Board {
    board: [[Cell; ROWS]; COLS],
    game_state: GameState,
    players: [Player; 2],
    current_player: Player,
}

/// What the rules see of a board: the cells, the state and whose turn it is.
pub struct BoardModel {
    pub grid: Seq<Seq<Cell>>,
    pub state: GameState,
    pub turn: PlayerId,
}

impl View for Board {
    type V = BoardModel;

    closed spec fn view(&self) -> BoardModel {
        BoardModel {
            grid: Seq::new(COLS as nat, |c: int| self.board[c]@),
            state: self.game_state,
            turn: self.current_player.id,
        }
    }
}

pub open spec fn in_bounds(c: int, r: int) -> bool {
    0 <= c < COLS && 0 <= r < ROWS
}

/// Column step of direction `d`: 0 along a row, 1 down a column, 2 and 3 the diagonals.
pub open spec fn step_col(d: int) -> int {
    if d == 1 {
        0
    } else {
        1
    }
}

/// Row step of direction `d`.
pub open spec fn step_row(d: int) -> int {
    if d == 0 {
        0
    } else if d == 3 {
        -1
    } else {
        1
    }
}

/// The `i`-th cell of the window anchored at (`c`, `r`) in direction `d`.
pub open spec fn window_cell(g: Seq<Seq<Cell>>, c: int, r: int, d: int, i: int) -> Cell {
    g[c + i * step_col(d)][r + i * step_row(d)]
}

/// The four cells from (`c`, `r`) in direction `d` all lie on the grid.
pub open spec fn window_fits(c: int, r: int, d: int) -> bool {
    0 <= d < 4 && in_bounds(c, r) && in_bounds(c + 3 * step_col(d), r + 3 * step_row(d))
}

/// The window anchored at (`c`, `r`) in direction `d`, as a sequence of four cells.
pub open spec fn window(g: Seq<Seq<Cell>>, c: int, r: int, d: int) -> Seq<Cell> {
    seq![
        window_cell(g, c, r, d, 0),
        window_cell(g, c, r, d, 1),
        window_cell(g, c, r, d, 2),
        window_cell(g, c, r, d, 3),
    ]
}

/// `p` owns all four cells of the window anchored at (`c`, `r`) in direction `d`.
pub open spec fn line_at(g: Seq<Seq<Cell>>, p: PlayerId, c: int, r: int, d: int) -> bool {
    &&& window_fits(c, r, d)
    &&& window_cell(g, c, r, d, 0) == Cell::Player(p)
    &&& window_cell(g, c, r, d, 1) == Cell::Player(p)
    &&& window_cell(g, c, r, d, 2) == Cell::Player(p)
    &&& window_cell(g, c, r, d, 3) == Cell::Player(p)
}

/// `p` has four in a row somewhere on the grid.
pub open spec fn has_line(g: Seq<Seq<Cell>>, p: PlayerId) -> bool {
    exists|c: int, r: int, d: int| line_at(g, p, c, r, d)
}

pub open spec fn is_full(g: Seq<Seq<Cell>>) -> bool {
    forall|c: int, r: int| in_bounds(c, r) ==> g[c][r] != Cell::Empty
}

pub open spec fn well_shaped(g: Seq<Seq<Cell>>) -> bool {
    &&& g.len() == COLS
    &&& forall|c: int| 0 <= c < COLS ==> #[trigger] g[c].len() == ROWS
}

/// No piece sits above an empty square.
pub open spec fn settled(g: Seq<Seq<Cell>>) -> bool {
    forall|c: int, r1: int, r2: int|
        in_bounds(c, r1) && r1 < r2 < ROWS && #[trigger] g[c][r1] != Cell::Empty ==> #[trigger] g[
            c][r2] != Cell::Empty
}

/// The state agrees with the grid.
pub open spec fn consistent(g: Seq<Seq<Cell>>, s: GameState) -> bool {
    match s {
        GameState::InProgress => !has_line(g, PlayerId::One) && !has_line(g, PlayerId::Two)
            && !is_full(g),
        GameState::Draw => is_full(g) && !has_line(g, PlayerId::One) && !has_line(
            g,
            PlayerId::Two,
        ),
        GameState::Win(p) => has_line(g, p),
    }
}

/// The state of a game whose last piece was placed by `p`.
pub open spec fn status_after(g: Seq<Seq<Cell>>, p: PlayerId) -> GameState {
    if has_line(g, p) {
        GameState::Win(p)
    } else if is_full(g) {
        GameState::Draw
    } else {
        GameState::InProgress
    }
}

/// Column `col` exists and has an empty square.
pub open spec fn legal(g: Seq<Seq<Cell>>, col: int) -> bool {
    0 <= col < COLS && exists|r: int| 0 <= r < ROWS && g[col][r] == Cell::Empty
}

/// The lowest empty row of `column` at or above row `r`, or -1.
pub open spec fn lowest_empty(column: Seq<Cell>, r: int) -> int
    decreases r + 1,
{
    if r < 0 {
        -1
    } else if column[r] == Cell::Empty {
        r
    } else {
        lowest_empty(column, r - 1)
    }
}

/// The row a piece dropped into `col` comes to rest in.
pub open spec fn landing_row(g: Seq<Seq<Cell>>, col: int) -> int {
    lowest_empty(g[col], ROWS - 1)
}

/// The grid with `cell` written at (`c`, `r`).
pub open spec fn put(g: Seq<Seq<Cell>>, c: int, r: int, cell: Cell) -> Seq<Seq<Cell>> {
    g.update(c, g[c].update(r, cell))
}

/// A drop into `col` is accepted.
pub open spec fn can_play(m: BoardModel, col: int) -> bool {
    m.state == GameState::InProgress && legal(m.grid, col)
}

/// The board after the player to act drops a piece into `col`.
pub open spec fn play(m: BoardModel, col: int) -> BoardModel {
    let g = put(m.grid, col, landing_row(m.grid, col), Cell::Player(m.turn));
    BoardModel { grid: g, state: status_after(g, m.turn), turn: other(m.turn) }
}

pub open spec fn model_ok(m: BoardModel) -> bool {
    well_shaped(m.grid) && consistent(m.grid, m.state)
}

proof fn lemma_lowest_empty(column: Seq<Cell>, r: int)
    requires
        -1 <= r < column.len(),
    ensures
        -1 <= lowest_empty(column, r) <= r,
        lowest_empty(column, r) >= 0 ==> column[lowest_empty(column, r)] == Cell::Empty,
        forall|r2: int|
            lowest_empty(column, r) < r2 <= r && 0 <= r2 ==> column[r2] != Cell::Empty,
    decreases r + 1,
{
    if r >= 0 && column[r] != Cell::Empty {
        lemma_lowest_empty(column, r - 1);
    }
}

/// A drop lands on the lowest empty square: that square was empty and all below it are
/// taken; a column has a landing square exactly when it has an empty one.
pub proof fn lemma_landing_row(g: Seq<Seq<Cell>>, col: int)
    requires
        well_shaped(g),
        0 <= col < COLS,
    ensures
        legal(g, col) <==> landing_row(g, col) >= 0,
        landing_row(g, col) < ROWS,
        legal(g, col) ==> g[col][landing_row(g, col)] == Cell::Empty,
        forall|r2: int| landing_row(g, col) < r2 < ROWS ==> g[col][r2] != Cell::Empty,
{
    lemma_lowest_empty(g[col], ROWS - 1);
}

/// Placing a piece of `p` on an empty square of a game in progress gives no line to the
/// other seat, and the state computed for `p` agrees with the new grid.
pub proof fn lemma_place_consistent(g: Seq<Seq<Cell>>, c: int, r: int, p: PlayerId)
    requires
        well_shaped(g),
        consistent(g, GameState::InProgress),
        in_bounds(c, r),
    ensures
        well_shaped(put(g, c, r, Cell::Player(p))),
        !has_line(put(g, c, r, Cell::Player(p)), other(p)),
        consistent(put(g, c, r, Cell::Player(p)), status_after(put(g, c, r, Cell::Player(p)), p)),
{
    let g2 = put(g, c, r, Cell::Player(p));
    let q = other(p);
    assert(well_shaped(g2));
    assert forall|c2: int, r2: int, d: int| !line_at(g2, q, c2, r2, d) by {
        if line_at(g2, q, c2, r2, d) {
            assert(line_at(g, q, c2, r2, d));
        }
    }
    if q == PlayerId::One {
        assert(!has_line(g2, PlayerId::One));
    } else {
        assert(!has_line(g2, PlayerId::Two));
    }
}

/// A drop by the player to act keeps the state in step with the grid.
pub proof fn lemma_play_consistent(m: BoardModel, col: int)
    requires
        model_ok(m),
        can_play(m, col),
    ensures
        model_ok(play(m, col)),
        !has_line(play(m, col).grid, m.turn) ==> !has_line(play(m, col).grid, PlayerId::One)
            && !has_line(play(m, col).grid, PlayerId::Two),
{
    lemma_landing_row(m.grid, col);
    lemma_place_consistent(m.grid, col, landing_row(m.grid, col), m.turn);
}

/// Flat index `k` of the window origins: column, then row, then direction.
pub open spec fn origin_col(k: int) -> int {
    k / 24
}

pub open spec fn origin_row(k: int) -> int {
    (k % 24) / 4
}

pub open spec fn origin_dir(k: int) -> int {
    k % 4
}

proof fn lemma_origin(c: int, r: int, d: int)
    requires
        in_bounds(c, r),
        0 <= d < 4,
    ensures
        0 <= c * 24 + r * 4 + d < WINDOW_ORIGINS,
        origin_col(c * 24 + r * 4 + d) == c,
        origin_row(c * 24 + r * 4 + d) == r,
        origin_dir(c * 24 + r * 4 + d) == d,
{
}

pub proof fn lemma_origin_bounds(k: int)
    requires
        0 <= k < WINDOW_ORIGINS,
    ensures
        in_bounds(origin_col(k), origin_row(k)),
        0 <= origin_dir(k) < 4,
{
}

impl Board {
    /// The seat `id` with its kind.
    pub closed spec fn seat(&self, id: PlayerId) -> Player {
        if id == PlayerId::One {
            self.players[0]
        } else {
            self.players[1]
        }
    }

    /// The seat to act, with its kind.
    pub closed spec fn current(&self) -> Player {
        self.current_player
    }

    pub closed spec fn seats_ok(&self) -> bool {
        &&& self.players[0].id == PlayerId::One
        &&& self.players[1].id == PlayerId::Two
        &&& self.current_player == self.players[0] || self.current_player == self.players[1]
    }

    /// The board is well formed: seats in order, the state in step with the grid.
    pub open spec fn wf(&self) -> bool {
        &&& self.seats_ok()
        &&& model_ok(self@)
        &&& self.current() == self.seat(self@.turn)
        &&& self.seat(PlayerId::One).id == PlayerId::One
        &&& self.seat(PlayerId::Two).id == PlayerId::Two
    }

    proof fn lemma_view_shape(&self)
        ensures
            well_shaped(self@.grid),
            forall|c: int, r: int| in_bounds(c, r) ==> self@.grid[c][r] == self.board[c][r],
    {
    }

    /// A fresh board: every square empty, game in progress, seat `One` to act.
    pub fn new(player1_type: PlayerType, player2_type: PlayerType) -> (b: Board)
        ensures
            b.wf(),
            forall|c: int, r: int| in_bounds(c, r) ==> b@.grid[c][r] == Cell::Empty,
            b@.state == GameState::InProgress,
            b@.turn == PlayerId::One,
            b.seat(PlayerId::One).kind == player1_type,
            b.seat(PlayerId::Two).kind == player2_type,
            settled(b@.grid),
    {
        let players = [
            Player { id: PlayerId::One, kind: player1_type },
            Player { id: PlayerId::Two, kind: player2_type },
        ];
        let b = Board {
            board: [[Cell::Empty; ROWS]; COLS],
            game_state: GameState::InProgress,
            players,
            current_player: players[0],
        };
        proof {
            b.lemma_view_shape();
            let g = b@.grid;
            assert forall|p: PlayerId| !has_line(g, p) by {
                assert forall|c: int, r: int, d: int| !line_at(g, p, c, r, d) by {
                    if window_fits(c, r, d) {
                        assert(window_cell(g, c, r, d, 0) == Cell::Empty);
                    }
                }
            }
            assert(!has_line(g, PlayerId::One));
            assert(!has_line(g, PlayerId::Two));
            assert(in_bounds(0, 0) && g[0][0] == Cell::Empty);
            assert(!is_full(g));
        }
        b
    }

    /// Seat `One` is a computer player of the given difficulty, seat `Two` a person.
    pub fn new_ai_vs_human(diff: usize) -> (b: Board)
        ensures
            b.wf(),
            b@.state == GameState::InProgress,
            b@.turn == PlayerId::One,
            b.seat(PlayerId::One).kind == PlayerType::AI(AI { depth: depth_for(diff) }),
            b.seat(PlayerId::Two).kind == PlayerType::Human,
            forall|c: int, r: int| in_bounds(c, r) ==> b@.grid[c][r] == Cell::Empty,
    {
        Board::new(PlayerType::AI(AI::new(diff)), PlayerType::Human)
    }

    /// Seat `One` is a person, seat `Two` a computer player of the given difficulty.
    pub fn new_human_vs_ai(diff: usize) -> (b: Board)
        ensures
            b.wf(),
            b@.state == GameState::InProgress,
            b@.turn == PlayerId::One,
            b.seat(PlayerId::One).kind == PlayerType::Human,
            b.seat(PlayerId::Two).kind == PlayerType::AI(AI { depth: depth_for(diff) }),
            forall|c: int, r: int| in_bounds(c, r) ==> b@.grid[c][r] == Cell::Empty,
    {
        Board::new(PlayerType::Human, PlayerType::AI(AI::new(diff)))
    }

    /// Both seats are people.
    pub fn new_human_vs_human() -> (b: Board)
        ensures
            b.wf(),
            b@.state == GameState::InProgress,
            b@.turn == PlayerId::One,
            b.seat(PlayerId::One).kind == PlayerType::Human,
            b.seat(PlayerId::Two).kind == PlayerType::Human,
            forall|c: int, r: int| in_bounds(c, r) ==> b@.grid[c][r] == Cell::Empty,
            settled(b@.grid),
    {
        Board::new(PlayerType::Human, PlayerType::Human)
    }

    /// Both seats are computer players, of the given difficulties.
    pub fn new_ai_vs_ai(diff1: usize, diff2: usize) -> (b: Board)
        ensures
            b.wf(),
            b@.state == GameState::InProgress,
            b@.turn == PlayerId::One,
            b.seat(PlayerId::One).kind == PlayerType::AI(AI { depth: depth_for(diff1) }),
            b.seat(PlayerId::Two).kind == PlayerType::AI(AI { depth: depth_for(diff2) }),
            forall|c: int, r: int| in_bounds(c, r) ==> b@.grid[c][r] == Cell::Empty,
    {
        Board::new(PlayerType::AI(AI::new(diff1)), PlayerType::AI(AI::new(diff2)))
    }

    /// The row a piece dropped into `col` would land in, if the column has room.
    fn landing(&self, col: usize) -> (r: Option<usize>)
        requires
            col < COLS,
        ensures
            match r {
                Some(x) => x == landing_row(self@.grid, col as int) && x < ROWS,
                None => landing_row(self@.grid, col as int) < 0,
            },
    {
        proof {
            self.lemma_view_shape();
            lemma_landing_row(self@.grid, col as int);
        }
        let mut r: usize = ROWS;
        while r > 0
            invariant
                r <= ROWS,
                col < COLS,
                landing_row(self@.grid, col as int) == lowest_empty(self@.grid[col as int], r - 1),
                well_shaped(self@.grid),
                forall|c: int, r: int| in_bounds(c, r) ==> self@.grid[c][r] == self.board[c][r],
            decreases r,
        {
            if self.board[col][r - 1] == Cell::Empty {
                return Some(r - 1);
            }
            r = r - 1;
        }
        None
    }

    /// Whether a piece can be dropped into `col`: the column exists and has an empty square.
    pub fn valid_move(&self, col: usize) -> (r: bool)
        ensures
            r == legal(self@.grid, col as int),
    {
        if col >= COLS {
            return false;
        }
        proof {
            self.lemma_view_shape();
            lemma_landing_row(self@.grid, col as int);
        }
        self.landing(col).is_some()
    }

    /// The `i`-th cell of a window that lies on the grid.
    pub fn window_cell_at(&self, c: usize, r: usize, d: usize, i: usize) -> (cell: Cell)
        requires
            window_fits(c as int, r as int, d as int),
            i < WINNING_LENGTH,
        ensures
            cell == window_cell(self@.grid, c as int, r as int, d as int, i as int),
    {
        proof {
            self.lemma_view_shape();
        }
        let cc: usize = if d == 1 {
            c
        } else {
            c + i
        };
        let rr: usize = if d == 0 {
            r
        } else if d == 3 {
            r - i
        } else {
            r + i
        };
        proof {
            assert(cc == c + i * step_col(d as int)) by (nonlinear_arith)
                requires
                    step_col(d as int) == 0 || step_col(d as int) == 1,
                    d == 1 ==> cc == c && step_col(d as int) == 0,
                    d != 1 ==> cc == c + i && step_col(d as int) == 1,
            ;
            assert(rr == r + i * step_row(d as int)) by (nonlinear_arith)
                requires
                    d == 0 ==> rr == r && step_row(d as int) == 0,
                    d == 3 ==> rr == r - i && step_row(d as int) == -1,
                    d != 0 && d != 3 ==> rr == r + i && step_row(d as int) == 1,
            ;
        }
        self.board[cc][rr]
    }

    /// Whether the window anchored at (`c`, `r`) in direction `d` lies on the grid.
    pub fn fits(c: usize, r: usize, d: usize) -> (b: bool)
        requires
            c < COLS,
            r < ROWS,
            d < 4,
        ensures
            b == window_fits(c as int, r as int, d as int),
    {
        if d == 0 {
            c + 3 < COLS
        } else if d == 1 {
            r + 3 < ROWS
        } else if d == 2 {
            c + 3 < COLS && r + 3 < ROWS
        } else {
            c + 3 < COLS && r >= 3
        }
    }

    /// The owner of the window anchored at (`c`, `r`) in direction `d`, if one seat holds
    /// all four of its cells.
    fn window_owner(&self, c: usize, r: usize, d: usize) -> (o: Option<PlayerId>)
        requires
            c < COLS,
            r < ROWS,
            d < 4,
        ensures
            forall|p: PlayerId|
                (o == Some(p)) <==> line_at(self@.grid, p, c as int, r as int, d as int),
    {
        if !Board::fits(c, r, d) {
            return None;
        }
        let first = self.window_cell_at(c, r, d, 0);
        match first {
            Cell::Empty => None,
            Cell::Player(p) => {
                if self.window_cell_at(c, r, d, 1) == first && self.window_cell_at(c, r, d, 2)
                    == first && self.window_cell_at(c, r, d, 3) == first {
                    Some(p)
                } else {
                    None
                }
            },
        }
    }

    /// A seat that has four in a row, if any.
    fn find_line(&self) -> (o: Option<PlayerId>)
        ensures
            match o {
                Some(p) => has_line(self@.grid, p),
                None => !has_line(self@.grid, PlayerId::One) && !has_line(
                    self@.grid,
                    PlayerId::Two,
                ),
            },
    {
        let mut k: usize = 0;
        while k < WINDOW_ORIGINS
            invariant
                k <= WINDOW_ORIGINS,
                forall|k2: int, p: PlayerId|
                    0 <= k2 < k ==> !line_at(
                        self@.grid,
                        p,
                        origin_col(k2),
                        origin_row(k2),
                        origin_dir(k2),
                    ),
            decreases WINDOW_ORIGINS - k,
        {
            proof {
                lemma_origin_bounds(k as int);
            }
            let c = k / 24;
            let r = (k % 24) / 4;
            let d = k % 4;
            if let Some(p) = self.window_owner(c, r, d) {
                assert(line_at(self@.grid, p, c as int, r as int, d as int));
                return Some(p);
            }
            k = k + 1;
        }
        proof {
            assert forall|p: PlayerId, c: int, r: int, d: int| !line_at(self@.grid, p, c, r, d) by {
                if line_at(self@.grid, p, c, r, d) {
                    lemma_origin(c, r, d);
                    let k2 = c * 24 + r * 4 + d;
                    assert(!line_at(
                        self@.grid,
                        p,
                        origin_col(k2),
                        origin_row(k2),
                        origin_dir(k2),
                    ));
                }
            }
        }
        None
    }

    /// Whether every square is taken.
    fn grid_full(&self) -> (b: bool)
        ensures
            b == is_full(self@.grid),
    {
        proof {
            self.lemma_view_shape();
        }
        let mut c: usize = 0;
        while c < COLS
            invariant
                c <= COLS,
                forall|c2: int, r2: int| 0 <= c2 < c && in_bounds(c2, r2) ==> self@.grid[c2][r2]
                    != Cell::Empty,
                forall|c: int, r: int| in_bounds(c, r) ==> self@.grid[c][r] == self.board[c][r],
            decreases COLS - c,
        {
            let mut r: usize = 0;
            while r < ROWS
                invariant
                    c < COLS,
                    r <= ROWS,
                    forall|c2: int, r2: int|
                        0 <= c2 < c && in_bounds(c2, r2) ==> self@.grid[c2][r2] != Cell::Empty,
                    forall|r2: int| 0 <= r2 < r ==> self@.grid[c as int][r2] != Cell::Empty,
                    forall|c: int, r: int| in_bounds(c, r) ==> self@.grid[c][r] == self.board[c][r],
                decreases ROWS - r,
            {
                if self.board[c][r] == Cell::Empty {
                    assert(in_bounds(c as int, r as int));
                    return false;
                }
                r = r + 1;
            }
            c = c + 1;
        }
        true
    }

    /// Hands the turn to the other seat.
    fn change_current_player(&mut self)
        requires
            old(self).seats_ok(),
            old(self).current() == old(self).seat(old(self)@.turn),
        ensures
            final(self).board == old(self).board,
            final(self).game_state == old(self).game_state,
            final(self).players == old(self).players,
            final(self).seats_ok(),
            final(self)@.turn == other(old(self)@.turn),
            final(self).current() == final(self).seat(final(self)@.turn),
    {
        if self.current_player == self.players[0] {
            self.current_player = self.players[1];
        } else {
            self.current_player = self.players[0];
        }
    }

    /// Recomputes the state of a game in progress from its grid: a win if some seat has
    /// four in a row, else a draw if the grid is full.
    fn check_win(&mut self)
        requires
            old(self).game_state == GameState::InProgress,
        ensures
            final(self).board == old(self).board,
            final(self).players == old(self).players,
            final(self).current_player == old(self).current_player,
            match final(self).game_state {
                GameState::Win(p) => has_line(final(self)@.grid, p),
                GameState::Draw => is_full(final(self)@.grid) && !has_line(
                    final(self)@.grid,
                    PlayerId::One,
                ) && !has_line(final(self)@.grid, PlayerId::Two),
                GameState::InProgress => !is_full(final(self)@.grid) && !has_line(
                    final(self)@.grid,
                    PlayerId::One,
                ) && !has_line(final(self)@.grid, PlayerId::Two),
            },
    {
        match self.find_line() {
            Some(p) => {
                self.game_state = GameState::Win(p);
            },
            None => {
                if self.grid_full() {
                    self.game_state = GameState::Draw;
                }
            },
        }
    }

    /// Writes `cell` at (`col`, `row`).
    fn set_cell(&mut self, col: usize, row: usize, cell: Cell)
        requires
            col < COLS,
            row < ROWS,
        ensures
            final(self)@.grid == put(old(self)@.grid, col as int, row as int, cell),
            final(self).game_state == old(self).game_state,
            final(self).players == old(self).players,
            final(self).current_player == old(self).current_player,
    {
        self.board[col][row] = cell;
        proof {
            assert(final(self)@.grid =~= put(old(self)@.grid, col as int, row as int, cell));
        }
    }

    /// Drops a piece of the player to act into `col`. When the game is in progress and the
    /// column has room, the piece lands on the lowest empty square, the turn passes, the
    /// state is recomputed, and the drop is returned; otherwise nothing changes.
    pub fn drop_piece(&mut self, col: usize) -> (r: Option<Move>)
        requires
            old(self).wf(),
        ensures
            final(self).wf(),
            final(self).seat(PlayerId::One) == old(self).seat(PlayerId::One),
            final(self).seat(PlayerId::Two) == old(self).seat(PlayerId::Two),
            can_play(old(self)@, col as int) ==> {
                &&& r == Some(
                    Move {
                        player: old(self).current(),
                        position: Position {
                            row: landing_row(old(self)@.grid, col as int) as usize,
                            col,
                        },
                    },
                )
                &&& final(self)@ == play(old(self)@, col as int)
            },
            !can_play(old(self)@, col as int) ==> r.is_none() && *final(self) == *old(self),
    {
        if self.game_state != GameState::InProgress || col >= COLS {
            return None;
        }
        proof {
            self.lemma_view_shape();
            lemma_landing_row(self@.grid, col as int);
        }
        let row = match self.landing(col) {
            Some(row) => row,
            None => {
                return None;
            },
        };
        let ghost m = self@;
        let mover = self.current_player;
        self.set_cell(col, row, Cell::Player(mover.id));
        self.change_current_player();
        self.check_win();
        proof {
            lemma_play_consistent(m, col as int);
            lemma_place_consistent(m.grid, col as int, row as int, m.turn);
            assert(self@.grid == play(m, col as int).grid);
            if let GameState::Win(q) = self.game_state {
                assert(q == m.turn);
            }
            assert(self@.state == play(m, col as int).state);
        }
        Some(Move { player: mover, position: Position { row, col } })
    }

    /// Same as `drop_piece`.
    pub fn play_move(&mut self, col: usize) -> (r: Option<Move>)
        requires
            old(self).wf(),
        ensures
            final(self).wf(),
            final(self).seat(PlayerId::One) == old(self).seat(PlayerId::One),
            final(self).seat(PlayerId::Two) == old(self).seat(PlayerId::Two),
            can_play(old(self)@, col as int) ==> {
                &&& r == Some(
                    Move {
                        player: old(self).current(),
                        position: Position {
                            row: landing_row(old(self)@.grid, col as int) as usize,
                            col,
                        },
                    },
                )
                &&& final(self)@ == play(old(self)@, col as int)
            },
            !can_play(old(self)@, col as int) ==> r.is_none() && *final(self) == *old(self),
    {
        self.drop_piece(col)
    }

    /// Puts a piece of seat `id` on the square (`col`, `row`) as it stands, without gravity
    /// and without passing the turn, then recomputes the state. Refused, with nothing
    /// changed, when the game is over, the square is off the grid, or it is taken.
    pub fn place_piece(&mut self, col: usize, row: usize, id: PlayerId) -> (r: Option<Move>)
        requires
            old(self).wf(),
        ensures
            final(self).wf(),
            final(self).seat(PlayerId::One) == old(self).seat(PlayerId::One),
            final(self).seat(PlayerId::Two) == old(self).seat(PlayerId::Two),
            ({
                let g = old(self)@.grid;
                let ok = old(self)@.state == GameState::InProgress && in_bounds(col as int, row as int)
                    && g[col as int][row as int] == Cell::Empty;
                let g2 = put(g, col as int, row as int, Cell::Player(id));
                &&& ok ==> r == Some(
                    Move { player: old(self).seat(id), position: Position { row, col } },
                ) && final(self)@ == BoardModel {
                    grid: g2,
                    state: status_after(g2, id),
                    turn: old(self)@.turn,
                }
                &&& !ok ==> r.is_none() && *final(self) == *old(self)
            }),
    {
        if self.game_state != GameState::InProgress || col >= COLS || row >= ROWS {
            return None;
        }
        if self.board[col][row] != Cell::Empty {
            return None;
        }
        let ghost g = self@.grid;
        proof {
            self.lemma_view_shape();
            lemma_place_consistent(g, col as int, row as int, id);
        }
        self.set_cell(col, row, Cell::Player(id));
        self.check_win();
        let player = if id == PlayerId::One {
            self.players[0]
        } else {
            self.players[1]
        };
        Some(Move { player, position: Position { row, col } })
    }

    /// Makes seat `first` the one to act.
    pub fn set_first_player(&mut self, first: PlayerId)
        requires
            old(self).wf(),
        ensures
            final(self).wf(),
            final(self)@.grid == old(self)@.grid,
            final(self)@.state == old(self)@.state,
            final(self)@.turn == first,
            final(self).seat(PlayerId::One) == old(self).seat(PlayerId::One),
            final(self).seat(PlayerId::Two) == old(self).seat(PlayerId::Two),
    {
        if first == PlayerId::One {
            self.current_player = self.players[0];
        } else {
            self.current_player = self.players[1];
        }
    }

    pub fn get_game_state(&self) -> (r: &GameState)
        ensures
            *r == self@.state,
    {
        &self.game_state
    }

    /// The grid, column-major: `get_board()[col][row]`, row 0 on top.
    pub fn get_board(&self) -> (r: &[[Cell; ROWS]; COLS])
        ensures
            forall|c: int, r2: int| in_bounds(c, r2) ==> r[c][r2] == self@.grid[c][r2],
    {
        &self.board
    }

    pub fn get_current_player(&self) -> (r: &Player)
        ensures
            *r == self.current(),
    {
        &self.current_player
    }
}


/// The board after trying each drop of `cols` in turn; refused drops change nothing.
pub open spec fn apply_drops(m: BoardModel, cols: Seq<int>) -> BoardModel
    decreases cols.len(),
{
    if cols.len() == 0 {
        m
    } else {
        let m1 = apply_drops(m, cols.drop_last());
        if can_play(m1, cols.last()) {
            play(m1, cols.last())
        } else {
            m1
        }
    }
}

/// How many drops of `cols` are accepted.
pub open spec fn accepted_drops(m: BoardModel, cols: Seq<int>) -> nat
    decreases cols.len(),
{
    if cols.len() == 0 {
        0
    } else {
        let m1 = apply_drops(m, cols.drop_last());
        accepted_drops(m, cols.drop_last()) + if can_play(m1, cols.last()) {
            1nat
        } else {
            0nat
        }
    }
}

/// On a board that has only seen drops, a column takes a piece exactly when it exists and
/// its top square is empty.
pub proof fn lemma_legal_drop(g: Seq<Seq<Cell>>, col: int)
    requires
        well_shaped(g),
        settled(g),
    ensures
        legal(g, col) <==> (0 <= col < COLS && g[col][0] == Cell::Empty),
{
    if 0 <= col < COLS && legal(g, col) {
        let r = choose|r: int| 0 <= r < ROWS && g[col][r] == Cell::Empty;
        if g[col][0] != Cell::Empty {
            assert(g[col][r] != Cell::Empty);
        }
    }
    if 0 <= col < COLS && g[col][0] == Cell::Empty {
        assert(legal(g, col));
    }
}

/// Drops keep pieces from floating.
pub proof fn lemma_play_settled(m: BoardModel, col: int)
    requires
        model_ok(m),
        settled(m.grid),
        can_play(m, col),
    ensures
        settled(play(m, col).grid),
{
    lemma_landing_row(m.grid, col);
}

/// A drop lands on the lowest empty square of its column: the square was empty, now holds
/// the mover's piece, and every square below it was already taken.
pub proof fn lemma_drop_lands_lowest(m: BoardModel, col: int)
    requires
        model_ok(m),
        can_play(m, col),
    ensures
        0 <= landing_row(m.grid, col) < ROWS,
        m.grid[col][landing_row(m.grid, col)] == Cell::Empty,
        play(m, col).grid[col][landing_row(m.grid, col)] == Cell::Player(m.turn),
        forall|r: int| landing_row(m.grid, col) < r < ROWS ==> m.grid[col][r] != Cell::Empty,
        forall|c: int, r: int|
            in_bounds(c, r) && (c != col || r != landing_row(m.grid, col)) ==> play(m, col).grid[c][r]
                == m.grid[c][r],
{
    lemma_landing_row(m.grid, col);
}

/// Turns alternate: from a board where `One` acts, `One` acts again after an even number of
/// accepted drops and `Two` after an odd number.
pub proof fn lemma_turn_alternation(m: BoardModel, cols: Seq<int>)
    requires
        m.turn == PlayerId::One,
    ensures
        apply_drops(m, cols).turn == (if accepted_drops(m, cols) % 2 == 0 {
            PlayerId::One
        } else {
            PlayerId::Two
        }),
    decreases cols.len(),
{
    if cols.len() > 0 {
        lemma_turn_alternation(m, cols.drop_last());
    }
}

/// Once a game is over, no drop changes the board.
pub proof fn lemma_finished_game_frozen(m: BoardModel, cols: Seq<int>)
    requires
        m.state != GameState::InProgress,
    ensures
        apply_drops(m, cols) == m,
        accepted_drops(m, cols) == 0,
    decreases cols.len(),
{
    if cols.len() > 0 {
        lemma_finished_game_frozen(m, cols.drop_last());
    }
}

/// A drop that completes four in a row for the mover wins the game for the mover.
pub proof fn lemma_drop_wins(m: BoardModel, col: int)
    requires
        model_ok(m),
        can_play(m, col),
        has_line(play(m, col).grid, m.turn),
    ensures
        play(m, col).state == GameState::Win(m.turn),
{
}

/// A drop that fills the grid without making four in a row anywhere draws the game.
pub proof fn lemma_full_board_draws(m: BoardModel, col: int)
    requires
        model_ok(m),
        can_play(m, col),
        is_full(play(m, col).grid),
        !has_line(play(m, col).grid, PlayerId::One),
        !has_line(play(m, col).grid, PlayerId::Two),
    ensures
        play(m, col).state == GameState::Draw,
{
}


/// Relies on `rand::random::<bool>`: a coin flip from the thread-local generator. Nothing
/// is known of the outcome.
#[verifier::external_body]
fn coin_flip() -> (r: bool) {
    rand::random::<bool>()
}

impl Board {
    /// Picks at random which seat acts first; the grid, the state and the seats stay.
    pub fn choose_first_player(&mut self)
        requires
            old(self).wf(),
        ensures
            final(self).wf(),
            final(self)@.grid == old(self)@.grid,
            final(self)@.state == old(self)@.state,
            final(self).seat(PlayerId::One) == old(self).seat(PlayerId::One),
            final(self).seat(PlayerId::Two) == old(self).seat(PlayerId::Two),
    {
        let first = if coin_flip() {
            PlayerId::One
        } else {
            PlayerId::Two
        };
        self.set_first_player(first);
    }
}


/// The character that shows a square: `_` empty, `X` seat `One`, `O` seat `Two`.
pub open spec fn symbol(c: Cell) -> char {
    match c {
        Cell::Empty => '_',
        Cell::Player(PlayerId::One) => 'X',
        Cell::Player(PlayerId::Two) => 'O',
    }
}

/// The first `n` squares of row `r`, each as its symbol followed by a space.
pub open spec fn row_text(g: Seq<Seq<Cell>>, r: int, n: nat) -> Seq<char>
    decreases n,
{
    if n == 0 {
        seq![]
    } else {
        row_text(g, r, (n - 1) as nat) + seq![symbol(g[n - 1][r]), ' ']
    }
}

/// The top `n` rows, each followed by a newline.
pub open spec fn grid_text(g: Seq<Seq<Cell>>, n: nat) -> Seq<char>
    decreases n,
{
    if n == 0 {
        seq![]
    } else {
        grid_text(g, (n - 1) as nat) + row_text(g, n - 1, COLS as nat) + seq!['\n']
    }
}

impl Board {
    /// The grid as text, top row first: each square as its symbol followed by a space, and
    /// a newline after each row.
    pub fn render(&self) -> (text: Vec<char>)
        ensures
            text@ == grid_text(self@.grid, ROWS as nat),
    {
        let mut text: Vec<char> = Vec::new();
        let mut row: usize = 0;
        while row < ROWS
            invariant
                row <= ROWS,
                text@ == grid_text(self@.grid, row as nat),
            decreases ROWS - row,
        {
            let ghost before = text@;
            let mut col: usize = 0;
            while col < COLS
                invariant
                    row < ROWS,
                    col <= COLS,
                    text@ == before + row_text(self@.grid, row as int, col as nat),
                decreases COLS - col,
            {
                let ch = match self.get_board()[col][row] {
                    Cell::Empty => '_',
                    Cell::Player(PlayerId::One) => 'X',
                    Cell::Player(PlayerId::Two) => 'O',
                };
                proof {
                    assert(in_bounds(col as int, row as int));
                }
                text.push(ch);
                text.push(' ');
                proof {
                    assert(text@ =~= before + row_text(self@.grid, row as int, (col + 1) as nat));
                }
                col = col + 1;
            }
            text.push('\n');
            proof {
                assert(text@ =~= grid_text(self@.grid, (row + 1) as nat));
            }
            row = row + 1;
        }
        text
    }
}

} // verus!
