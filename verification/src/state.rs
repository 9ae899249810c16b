//! How a game stands after a move, and why a board cannot be built.

use vstd::prelude::*;

verus! {

/// The state of the game after a move.
#[derive(Debug, Clone, Copy, PartialEq, Eq, Structural)]
pub enum GameState {
    /// The game goes on.
    Cont,
    /// Every cell that is no mine has been revealed.
    Win,
    /// A mine was revealed.
    Lost,
}

/// Why a board could not be built.
#[derive(Debug, Clone, Copy, PartialEq, Eq, Structural)]
pub enum BoardError {
    /// The size is zero.
    EmptyBoard,
    /// The size exceeds `MAX_SIZE`.
    TooLarge,
    /// More mines were asked for than the board has cells.
    TooManyMines,
    /// A mine was given at a position outside the board.
    MineOutOfRange,
    /// A mine was given twice.
    DuplicateMine,
}

impl GameState {
    /// The name a state is announced by.
    pub open spec fn spec_name(self) -> Seq<char> {
        match self {
            GameState::Cont => "Continue"@,
            GameState::Win => "Win"@,
            GameState::Lost => "Lost"@,
        }
    }

    /// The name a state is announced by: `Continue`, `Win` or `Lost`.
    pub fn name(&self) -> (s: &'static str)
        ensures
            s@ == self.spec_name(),
    {
        match self {
            GameState::Cont => "Continue",
            GameState::Win => "Win",
            GameState::Lost => "Lost",
        }
    }
}

} // verus!
