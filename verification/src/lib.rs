//! Gomoku engine with Ninuki-renju rules: a 19x19 board held in bitboards,
//! pair captures, five-in-a-row with the endgame capture rule, the
//! double-three restriction, pattern evaluation, Zobrist hashing,
//! transposition tables, threat-space search and alpha-beta search.
pub mod board;
pub mod engine;
pub mod eval;
pub mod rules;
pub mod search;
pub mod ui;

pub use board::{Bitboard, Board, Pos, Stone, BOARD_SIZE, TOTAL_CELLS};
pub use engine::{pos_to_notation, AIEngine, MoveResult, SearchType};
