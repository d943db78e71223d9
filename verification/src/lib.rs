//! Correspondence chess as a deterministic state machine: the game engine
//! with its chained state digest, the store of games, moves and player
//! records, and the application that turns signed requests into notices and
//! reports.

pub mod address;
pub mod board;
pub mod chess;
pub mod db;
pub mod digest;
pub mod error;
pub mod game;
pub mod hexcode;
pub mod indexer;
pub mod inspect;
pub mod message;
pub mod notice;
pub mod rating;
pub mod rollup;
pub mod text;
