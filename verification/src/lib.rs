//! A single chess game session: an immutable position value, move application
//! delegated to a rules engine, an append-only move ledger, outcome queries,
//! and a text document format for saving and reloading a session.

pub mod board;
pub mod clock;
pub mod codec;
pub mod engine;
pub mod fen;
pub mod game;
pub mod text;

pub use board::{Board, Fen, Player};
pub use clock::get_unix_timestamp;
pub use game::{Game, GameStatus, HistoryEntry};
