//! Seats and kinds of players.

use vstd::prelude::*;

use crate::ai::AI;

verus! {

/// One of the two seats at the table; `One` moves first on a fresh board.
#[derive(Clone, Copy, PartialEq, Eq, Structural, Debug)]
pub enum PlayerId {
    One,
    Two,
}

/// Who decides the moves of a seat: a person, or the search engine with its depth.
#[derive(Clone, Copy, PartialEq, Eq, Structural, Debug)]
pub enum PlayerType {
    Human,
    AI(AI),
}

/// A seat together with the kind of player sitting in it.
#[derive(Clone, Copy, PartialEq, Eq, Structural, Debug)]
pub struct Player {
    pub id: PlayerId,
    pub kind: PlayerType,
}

/// The seat that is not `p`.
pub open spec fn other(p: PlayerId) -> PlayerId {
    match p {
        PlayerId::One => PlayerId::Two,
        PlayerId::Two => PlayerId::One,
    }
}

impl PlayerId {
    /// The opposing seat.
    pub fn opponent(self) -> (r: PlayerId)
        ensures
            r == other(self),
    {
        match self {
            PlayerId::One => PlayerId::Two,
            PlayerId::Two => PlayerId::One,
        }
    }
}

} // verus!
