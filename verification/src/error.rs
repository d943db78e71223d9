//! The ways in which a request can fail.

use vstd::prelude::*;

verus! {

/// Why an operation was refused. A refused operation changes nothing.
#[derive(Clone, Copy, Debug, PartialEq, Eq, Structural)]
pub enum Error {
    /// The input is malformed: bad hexadecimal, a bad number or address, a
    /// missing field, an unknown request.
    InvalidInput,
    /// The move text is no move, or the move is not legal in the position.
    IllegalMove,
    /// The player takes no part in the game.
    InvalidPlayer,
    /// It is the other player's turn.
    NotYourTurn,
    /// The game is not in the state that the request was made for.
    StateMismatch,
    /// No such game, or no such user.
    NotFound,
    /// The game is already over.
    GameOver,
    /// The game has as many moves as a game can hold.
    TooLong,
    /// The store cannot take the change: a row with that key is already there,
    /// or a counter is full.
    Storage,
}

impl Error {
    /// Whether the error is one of the two violations of turn order: a
    /// stranger moving, or a player moving out of turn.
    pub fn is_turn_violation(&self) -> (violation: bool)
        ensures
            violation == (*self == Error::InvalidPlayer || *self == Error::NotYourTurn),
    {
        match self {
            Error::InvalidPlayer => true,
            Error::NotYourTurn => true,
            _ => false,
        }
    }
}

} // verus!
