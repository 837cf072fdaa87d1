//! Game rules for Gomoku with the Ninuki-renju variant: pair captures,
//! five-in-a-row with the endgame capture rule, and the double-three
//! restriction.
pub mod capture;
pub mod forbidden;
pub mod win;

pub use capture::{
    count_captures, count_captures_fast, execute_captures, execute_captures_fast,
    get_captured_positions, has_capture, undo_captures, CaptureInfo,
};
pub use forbidden::{count_free_threes, is_double_three, is_valid_move};
pub use win::{
    can_break_five_by_capture, check_winner, find_five_break_moves, find_five_line_at_pos,
    find_five_positions, has_five_at_pos, has_five_in_row,
};

use crate::board::{on_board, Board, Pos, Stone};
use vstd::prelude::*;

verus! {

/// Row step of line direction `j` (0: horizontal, 1: vertical, 2: diagonal
/// down-right, 3: diagonal down-left).
pub open spec fn base_dr(j: int) -> int {
    if j == 0 {
        0
    } else {
        1
    }
}

/// Column step of line direction `j`.
pub open spec fn base_dc(j: int) -> int {
    if j == 0 {
        1
    } else if j == 1 {
        0
    } else if j == 2 {
        1
    } else {
        -1
    }
}

/// Sign of the half-line `k` (even: backwards, odd: forwards).
pub open spec fn half_sign(k: int) -> int {
    if k % 2 == 0 {
        -1
    } else {
        1
    }
}

/// Row step of half-line `k` in `0..8`: line `k / 2`, direction `half_sign(k)`.
pub open spec fn ray_dr(k: int) -> int {
    base_dr(k / 2) * half_sign(k)
}

/// Column step of half-line `k` in `0..8`.
pub open spec fn ray_dc(k: int) -> int {
    base_dc(k / 2) * half_sign(k)
}

/// Each step of a half-line is -1, 0 or 1.
pub proof fn lemma_ray_bounds(k: int)
    ensures
        -1 <= ray_dr(k) <= 1,
        -1 <= ray_dc(k) <= 1,
{
    if half_sign(k) == 1 {
    } else {
    }
}

/// The step of line direction `j` in `0..4`.
pub fn line_dir(j: usize) -> (d: (i32, i32))
    requires
        j < 4,
    ensures
        d.0 == base_dr(j as int),
        d.1 == base_dc(j as int),
{
    if j == 0 {
        (0, 1)
    } else if j == 1 {
        (1, 0)
    } else if j == 2 {
        (1, 1)
    } else {
        (1, -1)
    }
}

/// The step of half-line `k` in `0..8`.
pub fn ray_dir(k: usize) -> (d: (i32, i32))
    requires
        k < 8,
    ensures
        d.0 == ray_dr(k as int),
        d.1 == ray_dc(k as int),
        -1 <= d.0 <= 1,
        -1 <= d.1 <= 1,
{
    let (dr, dc) = line_dir(k / 2);
    if k % 2 == 0 {
        (-dr, -dc)
    } else {
        (dr, dc)
    }
}

/// The position of on-board integer coordinates.
pub open spec fn pos_of(r: int, c: int) -> Pos {
    Pos { row: r as u8, col: c as u8 }
}

/// The stone at on-board signed coordinates.
pub fn stone_at(board: &Board, r: i32, c: i32) -> (s: Stone)
    requires
        on_board(r as int, c as int),
    ensures
        s == board.at(r as int, c as int),
{
    board.get(Pos::new(r as u8, c as u8))
}

/// Facts about `pos_of` for on-board coordinates.
pub proof fn lemma_pos_of(r: int, c: int)
    requires
        on_board(r, c),
    ensures
        pos_of(r, c).valid(),
        pos_of(r, c).idx() == r * 19 + c,
        pos_of(r, c).row == r,
        pos_of(r, c).col == c,
{
}

} // verus!
