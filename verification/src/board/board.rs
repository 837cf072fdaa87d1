//! Board structure with capture tracking.
use super::bitboard::Bitboard;
use super::{cell_index, Pos, Stone, BOARD_SIZE};
use vstd::prelude::*;

verus! {

/// Game board with capture tracking.
#[derive(Debug, Clone, Copy)]
pub struct Board {
    /// Black stones bitboard
    pub black: Bitboard,
    /// White stones bitboard
    pub white: Bitboard,
    /// Number of pairs captured by Black (5 = win)
    pub black_captures: u8,
    /// Number of pairs captured by White (5 = win)
    pub white_captures: u8,
}

impl Board {
    /// The stone on cell `i` as `get` reports it (Black takes precedence).
    pub open spec fn cell(self, i: int) -> Stone {
        if self.black.has(i) {
            Stone::Black
        } else if self.white.has(i) {
            Stone::White
        } else {
            Stone::Empty
        }
    }

    /// The stone at row `r`, column `c`.
    pub open spec fn at(self, r: int, c: int) -> Stone {
        self.cell(cell_index(r, c))
    }

    /// Capture count of a color as `captures` reports it.
    pub open spec fn caps(self, s: Stone) -> u8 {
        match s {
            Stone::Black => self.black_captures,
            Stone::White => self.white_captures,
            Stone::Empty => 0,
        }
    }

    /// No cell holds both colors and no stone lies beyond the last cell.
    pub open spec fn wf(self) -> bool {
        &&& forall|i: int| !(#[trigger] self.black.has(i) && self.white.has(i))
        &&& self.black.within_board()
        &&& self.white.within_board()
    }

    /// Both boards hold the same stones on the same cells.
    pub open spec fn same_stones(self, other: Board) -> bool {
        &&& forall|i: int| #[trigger] self.black.has(i) == other.black.has(i)
        &&& forall|i: int| #[trigger] self.white.has(i) == other.white.has(i)
    }

    /// Same stones and same capture counts.
    pub open spec fn same_position(self, other: Board) -> bool {
        &&& self.same_stones(other)
        &&& self.black_captures == other.black_captures
        &&& self.white_captures == other.white_captures
    }

    /// An empty board.
    pub fn new() -> (b: Board)
        ensures
            b.black.empty_spec(),
            b.white.empty_spec(),
            b.black_captures == 0,
            b.white_captures == 0,
            b.wf(),
            forall|i: int| #[trigger] b.cell(i) == Stone::Empty,
    {
        let b = Board {
            black: Bitboard::new(),
            white: Bitboard::new(),
            black_captures: 0,
            white_captures: 0,
        };
        proof {
            assert forall|i: int| #[trigger] b.cell(i) == Stone::Empty by {
                if 0 <= i < 384 {
                    assert(!b.black.has(i));
                    assert(!b.white.has(i));
                } else {
                    assert(!b.black.has(i)) by {
                        Bitboard::lemma_has_range(b.black, i);
                    }
                    assert(!b.white.has(i)) by {
                        Bitboard::lemma_has_range(b.white, i);
                    }
                }
            }
            assert forall|i: int| !(#[trigger] b.black.has(i) && b.white.has(i)) by {
                Bitboard::lemma_has_range(b.black, i);
            }
        }
        b
    }

    /// Boards with the same stones and capture counts are equal.
    pub proof fn lemma_ext(a: Board, b: Board)
        requires
            a.same_position(b),
        ensures
            a == b,
    {
        Bitboard::lemma_ext(a.black, b.black);
        Bitboard::lemma_ext(a.white, b.white);
    }

    /// Board size (19).
    pub fn size(&self) -> (n: usize)
        ensures
            n == 19,
    {
        BOARD_SIZE
    }

    /// Get the stone at a position.
    pub fn get(&self, pos: Pos) -> (s: Stone)
        requires
            pos.idx() < 384,
        ensures
            s == self.cell(pos.idx()),
    {
        if self.black.get(pos) {
            Stone::Black
        } else if self.white.get(pos) {
            Stone::White
        } else {
            Stone::Empty
        }
    }

    /// Check if a position is empty.
    pub fn is_empty(&self, pos: Pos) -> (b: bool)
        requires
            pos.idx() < 384,
        ensures
            b == (self.cell(pos.idx()) == Stone::Empty),
    {
        !self.black.get(pos) && !self.white.get(pos)
    }

    /// Place a stone (without capture processing). Placing `Empty` does nothing.
    pub fn place_stone(&mut self, pos: Pos, stone: Stone)
        requires
            pos.idx() < 384,
        ensures
            forall|i: int| #[trigger] final(self).black.has(i) == (old(self).black.has(i) || (
            stone == Stone::Black && i == pos.idx())),
            forall|i: int| #[trigger] final(self).white.has(i) == (old(self).white.has(i) || (
            stone == Stone::White && i == pos.idx())),
            final(self).black_captures == old(self).black_captures,
            final(self).white_captures == old(self).white_captures,
            old(self).cell(pos.idx()) == Stone::Empty ==> forall|i: int| #[trigger]
                final(self).cell(i) == if i == pos.idx() {
                    stone
                } else {
                    old(self).cell(i)
                },
            old(self).wf() && old(self).cell(pos.idx()) == Stone::Empty && pos.valid()
                ==> final(self).wf(),
            stone != Stone::Empty && old(self).cell(pos.idx()) == Stone::Empty ==> final(self).black.popcount()
                + final(self).white.popcount() == old(self).black.popcount() + old(self).white.popcount() + 1,
            stone == Stone::Empty ==> final(self).black.popcount() + final(self).white.popcount()
                == old(self).black.popcount() + old(self).white.popcount(),
    {
        match stone {
            Stone::Black => self.black.set(pos),
            Stone::White => self.white.set(pos),
            Stone::Empty => {},
        }
    }

    /// Remove the stone at a position (of either color).
    pub fn remove_stone(&mut self, pos: Pos)
        requires
            pos.idx() < 384,
        ensures
            forall|i: int| #[trigger] final(self).black.has(i) == (old(self).black.has(i) && i
                != pos.idx()),
            forall|i: int| #[trigger] final(self).white.has(i) == (old(self).white.has(i) && i
                != pos.idx()),
            final(self).black_captures == old(self).black_captures,
            final(self).white_captures == old(self).white_captures,
            forall|i: int| #[trigger]
                final(self).cell(i) == if i == pos.idx() {
                    Stone::Empty
                } else {
                    old(self).cell(i)
                },
            old(self).wf() ==> final(self).wf(),
    {
        self.black.clear(pos);
        self.white.clear(pos);
    }

    /// The bitboard of a color, for changing it (`None` for Empty).
    pub fn stones_mut(&mut self, stone: Stone) -> (r: Option<&mut Bitboard>)
        ensures
            stone == Stone::Empty ==> r.is_none() && *final(self) == *old(self),
            stone == Stone::Black ==> (r matches Some(bb) && *bb == old(self).black
                && *final(self) == (Board { black: *final(bb), ..*old(self) })),
            stone == Stone::White ==> (r matches Some(bb) && *bb == old(self).white
                && *final(self) == (Board { white: *final(bb), ..*old(self) })),
    {
        match stone {
            Stone::Black => Some(&mut self.black),
            Stone::White => Some(&mut self.white),
            Stone::Empty => None,
        }
    }

    /// Get the bitboard of a color (`None` for Empty).
    pub fn stones(&self, stone: Stone) -> (r: Option<&Bitboard>)
        ensures
            stone == Stone::Black ==> r == Some(&self.black),
            stone == Stone::White ==> r == Some(&self.white),
            stone == Stone::Empty ==> r.is_none(),
    {
        match stone {
            Stone::Black => Some(&self.black),
            Stone::White => Some(&self.white),
            Stone::Empty => None,
        }
    }

    /// Get the capture count (pairs) of a color.
    pub fn captures(&self, stone: Stone) -> (n: u8)
        ensures
            n == self.caps(stone),
    {
        match stone {
            Stone::Black => self.black_captures,
            Stone::White => self.white_captures,
            Stone::Empty => 0,
        }
    }

    /// Add captures for a color (saturating at 255).
    pub fn add_captures(&mut self, stone: Stone, count: u8)
        ensures
            final(self).black == old(self).black,
            final(self).white == old(self).white,
            stone == Stone::Black ==> final(self).black_captures == (if old(self).black_captures
                + count > 255 {
                255
            } else {
                old(self).black_captures + count
            }) && final(self).white_captures == old(self).white_captures,
            stone == Stone::White ==> final(self).white_captures == (if old(self).white_captures
                + count > 255 {
                255
            } else {
                old(self).white_captures + count
            }) && final(self).black_captures == old(self).black_captures,
            stone == Stone::Empty ==> *final(self) == *old(self),
    {
        match stone {
            Stone::Black => self.black_captures = self.black_captures.saturating_add(count),
            Stone::White => self.white_captures = self.white_captures.saturating_add(count),
            Stone::Empty => {},
        }
    }

    /// Subtract captures for a color (saturating at 0).
    pub fn sub_captures(&mut self, stone: Stone, count: u8)
        ensures
            final(self).black == old(self).black,
            final(self).white == old(self).white,
            stone == Stone::Black ==> final(self).black_captures == (if old(self).black_captures
                < count {
                0
            } else {
                old(self).black_captures - count
            }) && final(self).white_captures == old(self).white_captures,
            stone == Stone::White ==> final(self).white_captures == (if old(self).white_captures
                < count {
                0
            } else {
                old(self).white_captures - count
            }) && final(self).black_captures == old(self).black_captures,
            stone == Stone::Empty ==> *final(self) == *old(self),
    {
        match stone {
            Stone::Black => self.black_captures = self.black_captures.saturating_sub(count),
            Stone::White => self.white_captures = self.white_captures.saturating_sub(count),
            Stone::Empty => {},
        }
    }

    /// Total stones on the board.
    pub fn stone_count(&self) -> (n: u32)
        ensures
            n == self.black.popcount() + self.white.popcount(),
    {
        let b = self.black.count();
        let w = self.white.count();
        proof {
            Bitboard::lemma_popcount_bound(self.black);
            Bitboard::lemma_popcount_bound(self.white);
        }
        b + w
    }

    /// Check if the board holds no stone.
    pub fn is_board_empty(&self) -> (b: bool)
        ensures
            b == (self.black.empty_spec() && self.white.empty_spec()),
    {
        self.black.is_empty() && self.white.is_empty()
    }
}

} // verus!
