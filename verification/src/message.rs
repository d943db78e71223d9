//! The messages that go in and out of the application.

use crate::address::Address;
use crate::digest::GameHash;
use crate::game::GameId;
use crate::text::texts_of;
use glicko2::Glicko2Rating;
use vstd::prelude::*;

verus! {

/// A request that may change the state.
#[derive(Debug)]
pub enum Advance {
    /// Challenge an opponent to a game.
    ///
    /// If provided, `first_move` will be executed immediately, and the
    /// challenger plays as white. Otherwise, the challenger plays as black,
    /// and it is up to the opponent to make the first move (implicitly
    /// accepting the challenge).
    Challenge { opponent: Address, first_move: Option<String> },
    /// Make a move in an existing game.
    Move { id: GameId, hash: GameHash, san: String },
    /// Resign a game.
    Resign { id: GameId, hash: GameHash },
}

/// What an `Advance` says.
pub enum AdvanceView {
    Challenge { opponent: Address, first_move: Option<Seq<char>> },
    Move { id: GameId, hash: GameHash, san: Seq<char> },
    Resign { id: GameId, hash: GameHash },
}

impl View for Advance {
    type V = AdvanceView;

    open spec fn view(&self) -> AdvanceView {
        match self {
            Advance::Challenge { opponent, first_move } => AdvanceView::Challenge {
                opponent: *opponent,
                first_move: match first_move {
                    Some(text) => Some(text@),
                    None => None,
                },
            },
            Advance::Move { id, hash, san } => AdvanceView::Move { id: *id, hash: *hash, san: san@ },
            Advance::Resign { id, hash } => AdvanceView::Resign { id: *id, hash: *hash },
        }
    }
}

/// A game as the store lists it: its number and its players.
#[derive(Clone, Copy, Debug)]
pub struct Game {
    pub id: GameId,
    pub white: Address,
    pub black: Address,
}

/// A player's record: the rating and the games won, lost and drawn with
/// either color.
#[derive(Clone, Copy, Debug)]
pub struct UserStats {
    pub rating: Glicko2Rating,
    pub white_wins: u16,
    pub white_losses: u16,
    pub white_draws: u16,
    pub black_wins: u16,
    pub black_losses: u16,
    pub black_draws: u16,
}

/// An answer to a query, or the news that a game was drawn.
#[derive(Debug)]
pub enum Report {
    /// Notification that a game ended in a draw.
    Draw { id: GameId, message: String, notation: String },
    /// The games of a player.
    Games { games: Vec<Game> },
    /// The moves of a game.
    Moves { moves: Vec<String> },
    /// The record of a player.
    UserStats { stats: UserStats },
}

/// What a `Report` says.
pub enum ReportView {
    Draw { id: GameId, message: Seq<char>, notation: Seq<char> },
    Games { games: Seq<Game> },
    Moves { moves: Seq<Seq<char>> },
    UserStats { stats: UserStats },
}

impl View for Report {
    type V = ReportView;

    open spec fn view(&self) -> ReportView {
        match self {
            Report::Draw { id, message, notation } => ReportView::Draw {
                id: *id,
                message: message@,
                notation: notation@,
            },
            Report::Games { games } => ReportView::Games { games: games@ },
            Report::Moves { moves } => ReportView::Moves { moves: texts_of(moves@) },
            Report::UserStats { stats } => ReportView::UserStats { stats: *stats },
        }
    }
}

/// What comes with a request: where it stands in the chain and who sent it.
#[derive(Clone, Copy, Debug)]
pub struct Metadata {
    pub block_number: u64,
    pub epoch_index: u64,
    pub input_index: u64,
    pub msg_sender: Address,
    pub timestamp: u64,
}

/// Whether a request was taken.
#[derive(Clone, Copy, Debug, PartialEq, Eq, Structural)]
pub enum Status {
    Accept,
    Reject,
}

} // verus!
