//! The ways a request to the library can fail.

use vstd::prelude::*;

verus! {

/// Why a board could not be built, a move not made or a position not solved.
#[derive(Copy, Clone, Debug, PartialEq, Eq, Structural)]
pub enum Error {
    /// The text does not describe a board: it names the wrong number of
    /// cells, or holds a symbol that stands for no cell.
    InvalidPosition,
    /// The text does not describe a move: it is not a row and a column, each
    /// one of the digits `0`, `1` and `2`.
    InvalidMove,
    /// The move was attempted by a player whose turn it is not.
    NotPlayersTurn,
    /// The move targets a cell that already holds a mark.
    CellOccupied,
    /// The best move was asked for in a position where the game has ended.
    GameOver,
}

impl Error {
    /// A sentence that says what went wrong.
    pub fn to_string(&self) -> (s: String)
        ensures
            s@ == match *self {
                Error::InvalidPosition => "Invalid position string"@,
                Error::InvalidMove => "Invalid move string"@,
                Error::NotPlayersTurn => "It is not this player's turn"@,
                Error::CellOccupied => "This move has already been made"@,
                Error::GameOver => "The game is already over."@,
            },
    {
        match self {
            Error::InvalidPosition => String::from_str("Invalid position string"),
            Error::InvalidMove => String::from_str("Invalid move string"),
            Error::NotPlayersTurn => String::from_str("It is not this player's turn"),
            Error::CellOccupied => String::from_str("This move has already been made"),
            Error::GameOver => String::from_str("The game is already over."),
        }
    }
}

} // verus!
