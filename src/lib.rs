//! Connect Four: the board and its rules, a heuristic evaluator, and a negamax search
//! with alpha-beta pruning that picks moves for computer players.

pub mod ai;
pub mod eval;
pub mod game;
pub mod player;

pub use ai::AI;
pub use game::{Board, Cell, GameState, Move, Position, COLS, ROWS, WINNING_LENGTH};
pub use player::{Player, PlayerId, PlayerType};
