//! Double-three forbidden move rules.
//!
//! A double-three is a move that creates two or more free-threes at once. A
//! free-three is three stones in a row with both ends open that can become an
//! open four. Exception: a double-three made by a capturing move is allowed.
use super::capture::{captures_any, has_capture};
use super::{base_dc, base_dr, line_dir, stone_at};
use crate::board::{on_board, opp, Board, Pos, Stone};
use vstd::prelude::*;

verus! {

/// Pattern information for a line segment through a position.
#[derive(Debug, Clone)]
pub struct LinePattern {
    /// Offsets of the player's stones along the line (0 = the placed stone), ascending.
    pub stones: Vec<i32>,
    /// Number of open ends (0, 1 or 2).
    pub open_ends: u8,
    /// Distance from the first to the last stone, plus one.
    pub span: u8,
}

/// Scan of one half-line from offset `i` (cell (r, c)): the distances of the
/// stones met and whether the scan ended on an open (empty) cell. With
/// `allow_gap`, one empty cell followed by a stone is skipped once.
pub open spec fn scan_dir(
    b: Board,
    r: int,
    c: int,
    dr: int,
    dc: int,
    s: Stone,
    i: int,
    gap_used: bool,
    allow_gap: bool,
) -> (Seq<i32>, bool)
    decreases 6 - i,
{
    if i > 5 || i < 1 {
        (Seq::empty(), false)
    } else if !on_board(r, c) {
        (Seq::empty(), false)
    } else if b.at(r, c) == s {
        let rest = scan_dir(b, r + dr, c + dc, dr, dc, s, i + 1, gap_used, allow_gap);
        (seq![i as i32] + rest.0, rest.1)
    } else if b.at(r, c) == opp(s) {
        (Seq::empty(), false)
    } else if allow_gap && !gap_used && on_board(r + dr, c + dc) && b.at(r + dr, c + dc) == s {
        scan_dir(b, r + dr, c + dc, dr, dc, s, i + 1, true, allow_gap)
    } else {
        (Seq::empty(), true)
    }
}

/// The stone offsets of a line scan through `pos` along direction `j`, ascending.
pub open spec fn pattern_stones(b: Board, pos: Pos, s: Stone, j: int, allow_gap: bool) -> Seq<
    i32,
> {
    let dr = base_dr(j);
    let dc = base_dc(j);
    let fwd = scan_dir(b, pos.row + dr, pos.col + dc, dr, dc, s, 1, false, allow_gap).0;
    let back = scan_dir(b, pos.row - dr, pos.col - dc, -dr, -dc, s, 1, false, allow_gap).0;
    back.reverse().map_values(|x: i32| (-x) as i32) + seq![0i32] + fwd
}

/// The number of open ends of a line scan through `pos` along direction `j`.
pub open spec fn pattern_open_ends(b: Board, pos: Pos, s: Stone, j: int, allow_gap: bool) -> int {
    let dr = base_dr(j);
    let dc = base_dc(j);
    let fwd = scan_dir(b, pos.row + dr, pos.col + dc, dr, dc, s, 1, false, allow_gap).1;
    let back = scan_dir(b, pos.row - dr, pos.col - dc, -dr, -dc, s, 1, false, allow_gap).1;
    (if fwd {
        1int
    } else {
        0int
    }) + (if back {
        1int
    } else {
        0int
    })
}

/// Free-three test on a pattern's fields.
pub open spec fn free_three_spec(stones: Seq<i32>, open_ends: u8, span: u8) -> bool {
    &&& stones.len() == 3
    &&& open_ends >= 2
    &&& span <= 4
    &&& span == 4 ==> (stones[2] - stones[0] == 3 && ((stones[1] - stones[0] == 1 && stones[2]
        - stones[1] == 2) || (stones[1] - stones[0] == 2 && stones[2] - stones[1] == 1)))
}

/// The span a scan reports: last offset minus first offset plus one.
pub open spec fn span_of(stones: Seq<i32>) -> u8 {
    (stones[stones.len() - 1] - stones[0] + 1) as u8
}

/// The scan through `pos` along direction `j` is a free three.
pub open spec fn free_three_in(b: Board, pos: Pos, s: Stone, j: int, allow_gap: bool) -> bool {
    let st = pattern_stones(b, pos, s, j, allow_gap);
    free_three_spec(st, pattern_open_ends(b, pos, s, j, allow_gap) as u8, span_of(st))
}

/// Placing `s` at `pos` creates a free three along direction `j`: either the
/// gap-allowing scan is a free three, or it holds more than three stones and
/// the consecutive scan is one.
pub open spec fn creates_free_three(b: Board, pos: Pos, s: Stone, j: int) -> bool {
    free_three_in(b, pos, s, j, true) || (pattern_stones(b, pos, s, j, true).len() > 3
        && free_three_in(b, pos, s, j, false))
}

/// Number of directions among the first `n` with a free three.
pub open spec fn free_three_total(b: Board, pos: Pos, s: Stone, n: int) -> int
    decreases n,
{
    if n <= 0 {
        0
    } else {
        free_three_total(b, pos, s, n - 1) + if creates_free_three(b, pos, s, n - 1) {
            1int
        } else {
            0int
        }
    }
}

/// The move is a forbidden double-three: no capture and two or more free threes.
pub open spec fn double_three(b: Board, pos: Pos, s: Stone) -> bool {
    !captures_any(b, pos, s) && free_three_total(b, pos, s, 4) >= 2
}

/// The move is allowed: the cell is empty and it is no forbidden double-three.
pub open spec fn valid_move(b: Board, pos: Pos, s: Stone) -> bool {
    b.cell(pos.idx()) == Stone::Empty && !double_three(b, pos, s)
}

/// Scan one half-line and return the stone distances and whether it ended open.
fn scan_half(
    board: &Board,
    pos: Pos,
    stone: Stone,
    dr: i32,
    dc: i32,
    allow_gap: bool,
) -> (res: (Vec<i32>, bool))
    requires
        pos.valid(),
        -1 <= dr <= 1,
        -1 <= dc <= 1,
    ensures
        res.0@ == scan_dir(
            *board,
            pos.row + dr,
            pos.col + dc,
            dr as int,
            dc as int,
            stone,
            1,
            false,
            allow_gap,
        ).0,
        res.1 == scan_dir(
            *board,
            pos.row + dr,
            pos.col + dc,
            dr as int,
            dc as int,
            stone,
            1,
            false,
            allow_gap,
        ).1,
        res.0.len() <= 5,
        forall|k: int| 0 <= k < res.0.len() ==> 1 <= #[trigger] res.0[k] <= 5,
        forall|a: int, b: int| 0 <= a < b < res.0.len() ==> res.0[a] < res.0[b],
{
    let opponent = stone.opponent();
    let mut stones: Vec<i32> = Vec::new();
    let mut gap_used = false;
    let mut i: i32 = 1;
    let mut r = pos.row as i32 + dr;
    let mut c = pos.col as i32 + dc;
    let ghost whole = scan_dir(
        *board,
        pos.row + dr,
        pos.col + dc,
        dr as int,
        dc as int,
        stone,
        1,
        false,
        allow_gap,
    );
    let mut open = false;
    let mut done = false;
    while i <= 5 && !done
        invariant
            1 <= i <= 6,
            -1 <= dr <= 1,
            -1 <= dc <= 1,
            pos.valid(),
            r == pos.row + i * dr,
            c == pos.col + i * dc,
            opponent == opp(stone),
            !done ==> stones@ + scan_dir(*board, r as int, c as int, dr as int, dc as int, stone, i as int, gap_used, allow_gap).0
                == whole.0,
            !done ==> scan_dir(*board, r as int, c as int, dr as int, dc as int, stone, i as int, gap_used, allow_gap).1
                == whole.1,
            done ==> stones@ == whole.0 && open == whole.1,
            !done ==> !open,
            stones.len() < i,
            forall|k: int| 0 <= k < stones.len() ==> 1 <= #[trigger] stones[k] < i,
            forall|a: int, b: int| 0 <= a < b < stones.len() ==> stones[a] < stones[b],
        decreases (6 - i) * 2 + (if done { 0int } else { 1int }),
    {
        let ghost cur = scan_dir(*board, r as int, c as int, dr as int, dc as int, stone, i as int, gap_used, allow_gap);
        if !Pos::is_valid(r, c) {
            done = true;
            proof {
                assert(stones@ =~= stones@ + cur.0);
            }
        } else {
            let cell = stone_at(board, r, c);
            if cell == stone {
                let ghost old_st = stones@;
                stones.push(i);
                proof {
                    assert(stones@ + scan_dir(*board, r + dr, c + dc, dr as int, dc as int, stone, i + 1, gap_used, allow_gap).0
                        =~= old_st + cur.0);
                }
                i = i + 1;
                r = r + dr;
                c = c + dc;
            } else if cell == opponent {
                done = true;
                proof {
                    assert(stones@ =~= stones@ + cur.0);
                }
            } else {
                let mut skipped = false;
                if allow_gap && !gap_used {
                    let nr = r + dr;
                    let nc = c + dc;
                    if Pos::is_valid(nr, nc) && stone_at(board, nr, nc) == stone {
                        gap_used = true;
                        skipped = true;
                        i = i + 1;
                        r = r + dr;
                        c = c + dc;
                    }
                }
                if !skipped {
                    open = true;
                    done = true;
                    proof {
                        assert(cell != stone && cell != opp(stone));
                        assert(!(allow_gap && !gap_used && on_board(r + dr, c + dc) && board.at(
                            r + dr,
                            c + dc,
                        ) == stone));
                        assert(cur == (Seq::<i32>::empty(), true));
                        assert(stones@ =~= stones@ + cur.0);
                    }
                }
            }
        }
        proof {
            if !done {
                assert(r == pos.row + i * dr) by (nonlinear_arith)
                    requires
                        r == pos.row + (i - 1) * dr + dr,
                ;
                assert(c == pos.col + i * dc) by (nonlinear_arith)
                    requires
                        c == pos.col + (i - 1) * dc + dc,
                ;
            }
        }
    }
    proof {
        if !done {
            assert(i == 6);
            let fin = scan_dir(*board, r as int, c as int, dr as int, dc as int, stone, i as int, gap_used, allow_gap);
            assert(fin == (Seq::<i32>::empty(), false));
            assert(stones@ =~= stones@ + Seq::<i32>::empty());
        }
    }
    (stones, open)
}

/// Build a pattern from the two half-line scans.
fn make_pattern(fwd: Vec<i32>, fwd_open: bool, back: Vec<i32>, back_open: bool) -> (p:
    LinePattern)
    requires
        fwd.len() <= 5,
        back.len() <= 5,
        forall|k: int| 0 <= k < fwd.len() ==> 1 <= #[trigger] fwd[k] <= 5,
        forall|k: int| 0 <= k < back.len() ==> 1 <= #[trigger] back[k] <= 5,
    ensures
        p.stones@ == back@.reverse().map_values(|x: i32| (-x) as i32) + seq![0i32] + fwd@,
        p.open_ends == (if fwd_open {
            1int
        } else {
            0int
        }) + (if back_open {
            1int
        } else {
            0int
        }),
        p.span == span_of(p.stones@),
{
    let mut stones: Vec<i32> = Vec::new();
    let mut t: usize = back.len();
    while t > 0
        invariant
            t <= back.len(),
            back.len() <= 5,
            forall|k: int| 0 <= k < back.len() ==> 1 <= #[trigger] back[k] <= 5,
            stones@ == back@.subrange(t as int, back.len() as int).reverse().map_values(
                |x: i32| (-x) as i32,
            ),
        decreases t,
    {
        t = t - 1;
        stones.push(-back[t]);
        proof {
            assert(stones@ =~= back@.subrange(t as int, back.len() as int).reverse().map_values(
                |x: i32| (-x) as i32,
            ));
        }
    }
    proof {
        assert(back@.subrange(0, back.len() as int) =~= back@);
    }
    stones.push(0);
    let mut k: usize = 0;
    let ghost pre = stones@;
    while k < fwd.len()
        invariant
            k <= fwd.len(),
            stones@ == pre + fwd@.subrange(0, k as int),
        decreases fwd.len() - k,
    {
        stones.push(fwd[k]);
        k = k + 1;
        proof {
            assert(stones@ =~= pre + fwd@.subrange(0, k as int));
        }
    }
    proof {
        assert(fwd@.subrange(0, fwd.len() as int) =~= fwd@);
    }
    let n = stones.len();
    let first = stones[0];
    let last = stones[n - 1];
    proof {
        assert(stones@ == back@.reverse().map_values(|x: i32| (-x) as i32) + seq![0i32] + fwd@);
        if back.len() > 0 {
            assert(first == -back[back.len() - 1]);
        } else {
            assert(first == 0);
        }
        if fwd.len() > 0 {
            assert(last == fwd[fwd.len() - 1]);
        } else {
            assert(last == 0);
        }
    }
    let open_ends: u8 = (if fwd_open {
        1u8
    } else {
        0u8
    }) + (if back_open {
        1u8
    } else {
        0u8
    });
    LinePattern { stones, open_ends, span: (last - first + 1) as u8 }
}

/// Scan a line through `pos` in both directions, allowing one gap per side.
///
/// Only the cells at distance 1..=5 are read; the stone at `pos` itself is
/// assumed placed (offset 0).
pub fn scan_line(board: &Board, pos: Pos, stone: Stone, dr: i32, dc: i32) -> (p: LinePattern)
    requires
        pos.valid(),
        -1 <= dr <= 1,
        -1 <= dc <= 1,
    ensures
        forall|j: int|
            0 <= j < 4 && dr == base_dr(j) && dc == base_dc(j) ==> p.stones@ == pattern_stones(
                *board,
                pos,
                stone,
                j,
                true,
            ) && p.open_ends == pattern_open_ends(*board, pos, stone, j, true) && p.span
                == span_of(p.stones@),
{
    let (fwd, fo) = scan_half(board, pos, stone, dr, dc, true);
    let (back, bo) = scan_half(board, pos, stone, -dr, -dc, true);
    make_pattern(fwd, fo, back, bo)
}

/// Scan a line through `pos` in both directions without gaps.
pub fn scan_line_consecutive(board: &Board, pos: Pos, stone: Stone, dr: i32, dc: i32) -> (p:
    LinePattern)
    requires
        pos.valid(),
        -1 <= dr <= 1,
        -1 <= dc <= 1,
    ensures
        forall|j: int|
            0 <= j < 4 && dr == base_dr(j) && dc == base_dc(j) ==> p.stones@ == pattern_stones(
                *board,
                pos,
                stone,
                j,
                false,
            ) && p.open_ends == pattern_open_ends(*board, pos, stone, j, false) && p.span
                == span_of(p.stones@),
{
    let (fwd, fo) = scan_half(board, pos, stone, dr, dc, false);
    let (back, bo) = scan_half(board, pos, stone, -dr, -dc, false);
    make_pattern(fwd, fo, back, bo)
}

/// Check if a pattern forms a free three: exactly 3 stones, both ends open,
/// and either consecutive (span 3) or with a single one-cell gap (span 4).
pub fn is_free_three(pattern: &LinePattern) -> (b: bool)
    ensures
        b == free_three_spec(pattern.stones@, pattern.open_ends, pattern.span),
{
    if pattern.stones.len() != 3 {
        return false;
    }
    if pattern.open_ends < 2 {
        return false;
    }
    if pattern.span > 4 {
        return false;
    }
    if pattern.span == 4 {
        let s0 = pattern.stones[0] as i64;
        let s1 = pattern.stones[1] as i64;
        let s2 = pattern.stones[2] as i64;
        let has_single_gap = (s2 - s0 == 3) && ((s1 - s0 == 1 && s2 - s1 == 2) || (s1 - s0 == 2
            && s2 - s1 == 1));
        return has_single_gap;
    }
    true
}

/// Check if placing `stone` at `pos` creates a free three along direction `j`.
fn creates_free_three_in_direction(board: &Board, pos: Pos, stone: Stone, j: usize) -> (b: bool)
    requires
        pos.valid(),
        j < 4,
    ensures
        b == creates_free_three(*board, pos, stone, j as int),
{
    let (dr, dc) = line_dir(j);
    let pattern = scan_line(board, pos, stone, dr, dc);
    if is_free_three(&pattern) {
        return true;
    }
    if pattern.stones.len() > 3 {
        let consec = scan_line_consecutive(board, pos, stone, dr, dc);
        if is_free_three(&consec) {
            return true;
        }
    }
    false
}

/// Count how many free threes placing `stone` at `pos` creates (stops at 2).
pub fn count_free_threes(board: &Board, pos: Pos, stone: Stone) -> (n: u8)
    requires
        pos.valid(),
    ensures
        n == if free_three_total(*board, pos, stone, 4) >= 2 {
            2
        } else {
            free_three_total(*board, pos, stone, 4)
        },
{
    let mut count: u8 = 0;
    let mut j: usize = 0;
    while j < 4
        invariant
            0 <= j <= 4,
            pos.valid(),
            count == free_three_total(*board, pos, stone, j as int),
            count <= 1,
        decreases 4 - j,
    {
        if creates_free_three_in_direction(board, pos, stone, j) {
            count = count + 1;
            if count >= 2 {
                proof {
                    lemma_total_monotone(*board, pos, stone, j as int + 1, 4);
                }
                return count;
            }
        }
        j = j + 1;
    }
    count
}

proof fn lemma_total_monotone(b: Board, pos: Pos, s: Stone, m: int, n: int)
    requires
        0 <= m <= n,
    ensures
        free_three_total(b, pos, s, m) <= free_three_total(b, pos, s, n),
    decreases n - m,
{
    if m < n {
        lemma_total_monotone(b, pos, s, m, n - 1);
    }
}

/// Check if a move is a forbidden double-three: it creates two or more free
/// threes and captures nothing.
pub fn is_double_three(board: &Board, pos: Pos, stone: Stone) -> (b: bool)
    requires
        pos.valid(),
    ensures
        b == double_three(*board, pos, stone),
{
    if has_capture(board, pos, stone) {
        return false;
    }
    count_free_threes(board, pos, stone) >= 2
}

/// Check if a move is valid: the cell is empty and the move is not a forbidden
/// double-three.
pub fn is_valid_move(board: &Board, pos: Pos, stone: Stone) -> (b: bool)
    requires
        pos.valid(),
    ensures
        b == valid_move(*board, pos, stone),
{
    if !board.is_empty(pos) {
        return false;
    }
    if is_double_three(board, pos, stone) {
        return false;
    }
    true
}

} // verus!
