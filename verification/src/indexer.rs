//! What an observer decides when it follows the application from outside:
//! what to ask next, and what to make of an answer.

use crate::chess::{san_text, San};
use crate::error::Error;
use crate::game::GameId;
use crate::hexcode::{decode_payload, payload_bytes};
use crate::message::{Game, Report};
use vstd::prelude::*;

verus! {

/// The number after which to ask for games next time: the number of the
/// last game that came, or the old one where none came.
pub fn next_after(after: Option<GameId>, games: &Vec<Game>) -> (next: Option<GameId>)
    ensures
        next == if games@.len() == 0 {
            after
        } else {
            Some(games@.last().id)
        },
{
    if games.len() == 0 {
        after
    } else {
        Some(games[games.len() - 1].id)
    }
}

/// The ply from which to ask for moves next time: as many plies further as
/// moves came. There is none where the plies of a game are used up.
pub fn next_from(from: u16, moves: usize) -> (next: Option<u16>)
    ensures
        next == if from + moves <= u16::MAX {
            Some((from + moves) as u16)
        } else {
            None
        },
{
    if moves <= (u16::MAX - from) as usize {
        Some(from + moves as u16)
    } else {
        None
    }
}

/// The bytes that an answer carries: the answer must be one report, and its
/// payload hexadecimal text.
pub fn single_payload(reports: &Vec<String>) -> (bytes: Result<Vec<u8>, Error>)
    ensures
        match bytes {
            Ok(b) => reports@.len() == 1 && payload_bytes(reports@[0]@) == Some(b@),
            Err(e) => e == Error::InvalidInput && (reports@.len() != 1 || payload_bytes(
                reports@[0]@,
            ) is None),
        },
{
    if reports.len() != 1 {
        return Err(Error::InvalidInput);
    }
    match decode_payload(reports[0].as_str()) {
        Some(bytes) => Ok(bytes),
        None => Err(Error::InvalidInput),
    }
}

/// The games of a report of games; nothing for another report.
pub fn expect_games(report: Report) -> (games: Option<Vec<Game>>)
    ensures
        match report {
            Report::Games { games: listed } => games == Some(listed),
            _ => games is None,
        },
{
    match report {
        Report::Games { games } => Some(games),
        _ => None,
    }
}

/// The moves of a report of moves; nothing for another report.
pub fn expect_moves(report: Report) -> (moves: Option<Vec<String>>)
    ensures
        match report {
            Report::Moves { moves: listed } => moves == Some(listed),
            _ => moves is None,
        },
{
    match report {
        Report::Moves { moves } => Some(moves),
        _ => None,
    }
}

/// Reads the moves that came. All of them must be moves, or none is taken.
pub fn parse_moves(moves: &Vec<String>) -> (sans: Option<Vec<San>>)
    ensures
        match sans {
            Some(sans) => sans@.len() == moves@.len() && forall|i: int|
                0 <= i < moves@.len() ==> san_text(#[trigger] moves@[i]@) == Some(sans@[i]@),
            None => exists|i: int| 0 <= i < moves@.len() && san_text(#[trigger] moves@[i]@) is None,
        },
{
    let mut sans: Vec<San> = Vec::new();
    let mut i: usize = 0;
    while i < moves.len()
        invariant
            i <= moves@.len(),
            sans@.len() == i,
            forall|k: int| 0 <= k < i ==> san_text(#[trigger] moves@[k]@) == Some(sans@[k]@),
        decreases moves@.len() - i,
    {
        match San::parse(moves[i].as_str()) {
            Some(san) => {
                sans.push(san);
            },
            None => {
                return None;
            },
        }
        i += 1;
    }
    Some(sans)
}

} // verus!
