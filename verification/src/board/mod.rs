//! Board representation: stones, positions, bitboards and the board itself.
pub mod bitboard;
pub mod board;

pub use bitboard::{Bitboard, BitboardIter};
pub use board::Board;

use vstd::prelude::*;

verus! {

/// Board size (19x19).
pub const BOARD_SIZE: usize = 19;

/// Number of cells on the board.
pub const TOTAL_CELLS: usize = 361;

/// Stone colors.
#[derive(Debug, Clone, Copy, PartialEq, Eq, Hash, Structural)]
pub enum Stone {
    Empty,
    Black,
    White,
}

/// The colour that plays against `s` (Empty has no opponent).
pub open spec fn opp(s: Stone) -> Stone {
    match s {
        Stone::Black => Stone::White,
        Stone::White => Stone::Black,
        Stone::Empty => Stone::Empty,
    }
}

impl Stone {
    /// Get the opponent's color.
    pub fn opponent(self) -> (r: Stone)
        ensures
            r == opp(self),
    {
        match self {
            Stone::Black => Stone::White,
            Stone::White => Stone::Black,
            Stone::Empty => Stone::Empty,
        }
    }
}

/// Position on the board.
#[derive(Debug, Clone, Copy, PartialEq, Eq, Hash, PartialOrd, Ord, Structural)]
pub struct Pos {
    pub row: u8,
    pub col: u8,
}

/// Whether the integer coordinates lie on the board.
pub open spec fn on_board(r: int, c: int) -> bool {
    0 <= r < 19 && 0 <= c < 19
}

/// Cell index of the integer coordinates.
pub open spec fn cell_index(r: int, c: int) -> int {
    r * 19 + c
}

impl Pos {
    /// The position lies on the 19x19 board.
    pub open spec fn valid(self) -> bool {
        self.row < 19 && self.col < 19
    }

    /// Row-major cell index of the position.
    pub open spec fn idx(self) -> int {
        self.row * 19 + self.col
    }

    /// Create a position; both coordinates must lie on the board.
    pub fn new(row: u8, col: u8) -> (p: Pos)
        requires
            row < 19,
            col < 19,
        ensures
            p.row == row,
            p.col == col,
            p.valid(),
    {
        Pos { row, col }
    }

    /// Row-major cell index.
    pub fn to_index(self) -> (i: usize)
        ensures
            i == self.idx(),
    {
        self.row as usize * BOARD_SIZE + self.col as usize
    }

    /// Position of a row-major cell index (coordinates are truncated to `u8`).
    pub fn from_index(idx: usize) -> (p: Pos)
        ensures
            p.row == (idx / 19) as u8,
            p.col == (idx % 19) as u8,
            idx < 361 ==> p.valid() && p.idx() == idx,
    {
        Pos { row: (idx / BOARD_SIZE) as u8, col: (idx % BOARD_SIZE) as u8 }
    }

    /// Whether the signed coordinates lie on the board.
    pub fn is_valid(row: i32, col: i32) -> (b: bool)
        ensures
            b == on_board(row as int, col as int),
    {
        row >= 0 && row < BOARD_SIZE as i32 && col >= 0 && col < BOARD_SIZE as i32
    }
}

} // verus!
