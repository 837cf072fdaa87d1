//! Capture rules for Ninuki-renju (Pente-style pair capture).
//!
//! Capture pattern: X-O-O-X where X is the capturing player's stone and O is
//! the opponent's stone. Only exactly 2 stones can be captured.
use super::{lemma_pos_of, lemma_ray_bounds, pos_of, ray_dc, ray_dir, ray_dr, stone_at};
use crate::board::{on_board, opp, Board, Pos, Stone};
use vstd::prelude::*;

verus! {

/// Placing `stone` at `pos` captures the pair along half-line `k`.
pub open spec fn capture_in_ray(b: Board, pos: Pos, stone: Stone, k: int) -> bool {
    let dr = ray_dr(k);
    let dc = ray_dc(k);
    let r = pos.row as int;
    let c = pos.col as int;
    &&& on_board(r + 3 * dr, c + 3 * dc)
    &&& b.at(r + dr, c + dc) == opp(stone)
    &&& b.at(r + 2 * dr, c + 2 * dc) == opp(stone)
    &&& b.at(r + 3 * dr, c + 3 * dc) == stone
}

/// The stones captured along the first `n` half-lines, in scan order, each
/// pair listed nearest stone first.
pub open spec fn captured_upto(b: Board, pos: Pos, stone: Stone, n: int) -> Seq<Pos>
    decreases n,
{
    if n <= 0 {
        Seq::empty()
    } else {
        let prev = captured_upto(b, pos, stone, n - 1);
        let k = n - 1;
        let dr = ray_dr(k);
        let dc = ray_dc(k);
        let r = pos.row as int;
        let c = pos.col as int;
        if capture_in_ray(b, pos, stone, k) {
            prev + seq![pos_of(r + dr, c + dc), pos_of(r + 2 * dr, c + 2 * dc)]
        } else {
            prev
        }
    }
}

/// All stones captured by placing `stone` at `pos`.
pub open spec fn captured_list(b: Board, pos: Pos, stone: Stone) -> Seq<Pos> {
    captured_upto(b, pos, stone, 8)
}

/// Some pair is captured by placing `stone` at `pos`.
pub open spec fn captures_any(b: Board, pos: Pos, stone: Stone) -> bool {
    exists|k: int| 0 <= k < 8 && #[trigger] capture_in_ray(b, pos, stone, k)
}

/// Cell `i` is one of the positions of `s`.
pub open spec fn seq_has_cell(s: Seq<Pos>, i: int) -> bool {
    exists|k: int| 0 <= k < s.len() && (#[trigger] s[k]).idx() == i
}

/// Capture count after adding `n` pairs, saturating at 255.
pub open spec fn sat_add(a: u8, n: int) -> u8 {
    if a + n > 255 {
        255
    } else {
        (a + n) as u8
    }
}

/// Capture count after removing `n` pairs, saturating at 0.
pub open spec fn sat_sub(a: u8, n: int) -> u8 {
    if a - n < 0 {
        0
    } else {
        (a - n) as u8
    }
}

/// `after` is `before` with the stones of `list` removed and `pairs` pairs
/// credited to `stone`.
pub open spec fn removal_applied(
    before: Board,
    after: Board,
    stone: Stone,
    list: Seq<Pos>,
    pairs: int,
) -> bool {
    &&& forall|i: int| #[trigger]
        after.black.has(i) == (before.black.has(i) && !seq_has_cell(list, i))
    &&& forall|i: int| #[trigger]
        after.white.has(i) == (before.white.has(i) && !seq_has_cell(list, i))
    &&& after.black_captures == if stone == Stone::Black {
        sat_add(before.black_captures, pairs)
    } else {
        before.black_captures
    }
    &&& after.white_captures == if stone == Stone::White {
        sat_add(before.white_captures, pairs)
    } else {
        before.white_captures
    }
}

/// `after` is `before` with the stones of `list` put back for the opponent of
/// `stone` and `pairs` pairs taken from `stone`.
pub open spec fn restore_applied(
    before: Board,
    after: Board,
    stone: Stone,
    list: Seq<Pos>,
    pairs: int,
) -> bool {
    &&& forall|i: int| #[trigger]
        after.black.has(i) == (before.black.has(i) || (opp(stone) == Stone::Black
            && seq_has_cell(list, i)))
    &&& forall|i: int| #[trigger]
        after.white.has(i) == (before.white.has(i) || (opp(stone) == Stone::White
            && seq_has_cell(list, i)))
    &&& after.black_captures == if stone == Stone::Black {
        sat_sub(before.black_captures, pairs)
    } else {
        before.black_captures
    }
    &&& after.white_captures == if stone == Stone::White {
        sat_sub(before.white_captures, pairs)
    } else {
        before.white_captures
    }
}

/// Captured stones lie on the board and hold the opponent's color; the list
/// has even length at most `2 n`.
pub proof fn lemma_captured_upto(b: Board, pos: Pos, stone: Stone, n: int)
    requires
        pos.valid(),
        0 <= n <= 8,
    ensures
        captured_upto(b, pos, stone, n).len() % 2 == 0,
        captured_upto(b, pos, stone, n).len() <= 2 * n,
        forall|k: int|
            0 <= k < captured_upto(b, pos, stone, n).len() ==> (#[trigger] captured_upto(
                b,
                pos,
                stone,
                n,
            )[k]).valid() && b.cell(captured_upto(b, pos, stone, n)[k].idx()) == opp(stone),
    decreases n,
{
    if n > 0 {
        lemma_captured_upto(b, pos, stone, n - 1);
        let k = n - 1;
        let dr = ray_dr(k);
        let dc = ray_dc(k);
        let r = pos.row as int;
        let c = pos.col as int;
        if capture_in_ray(b, pos, stone, k) {
            lemma_ray_bounds(k);
            lemma_pos_of(r + dr, c + dc);
            lemma_pos_of(r + 2 * dr, c + 2 * dc);
            let prev = captured_upto(b, pos, stone, n - 1);
            let cur = captured_upto(b, pos, stone, n);
            assert forall|j: int| 0 <= j < cur.len() implies (#[trigger] cur[j]).valid() && b.cell(
                cur[j].idx(),
            ) == opp(stone) by {
                if j < prev.len() {
                    assert(cur[j] == prev[j]);
                }
            }
        }
    }
}

/// `q` lies `d` steps from `pos` along half-line `k`.
pub open spec fn on_ray(pos: Pos, q: Pos, k: int, d: int) -> bool {
    q.row == pos.row + d * ray_dr(k) && q.col == pos.col + d * ray_dc(k)
}

/// The half-line with steps (dr, dc).
pub open spec fn ray_index(dr: int, dc: int) -> int {
    if dr == 0 {
        if dc == -1 {
            0
        } else {
            1
        }
    } else if dc == 0 {
        if dr == -1 {
            2
        } else {
            3
        }
    } else if dr == dc {
        if dr == -1 {
            4
        } else {
            5
        }
    } else if dr == -1 {
        6
    } else {
        7
    }
}

/// Each half-line has a nonzero step, which names it.
proof fn lemma_ray_named(k: int)
    requires
        0 <= k < 8,
    ensures
        ray_dr(k) != 0 || ray_dc(k) != 0,
        ray_index(ray_dr(k), ray_dc(k)) == k,
{
    if k == 0 {
    } else if k == 1 {
    } else if k == 2 {
    } else if k == 3 {
    } else if k == 4 {
    } else if k == 5 {
    } else if k == 6 {
    } else {
    }
}

/// `q` lies one or two steps from `pos` along one of the first `n`
/// half-lines.
pub open spec fn near_on_ray(pos: Pos, q: Pos, n: int) -> bool {
    exists|k: int, d: int| 0 <= k < n && 1 <= d <= 2 && #[trigger] on_ray(pos, q, k, d)
}

/// One or two steps along two half-lines reach the same cell only along the
/// same half-line by the same number of steps.
proof fn lemma_rays_apart(k1: int, k2: int, d1: int, d2: int)
    requires
        0 <= k1 < 8,
        0 <= k2 < 8,
        1 <= d1 <= 2,
        1 <= d2 <= 2,
        d1 * ray_dr(k1) == d2 * ray_dr(k2),
        d1 * ray_dc(k1) == d2 * ray_dc(k2),
    ensures
        k1 == k2 && d1 == d2,
{
    lemma_ray_bounds(k1);
    lemma_ray_bounds(k2);
    lemma_ray_named(k1);
    lemma_ray_named(k2);
    if d1 == d2 {
        assert(ray_dr(k1) == ray_dr(k2) && ray_dc(k1) == ray_dc(k2)) by (nonlinear_arith)
            requires
                d1 * ray_dr(k1) == d2 * ray_dr(k2),
                d1 * ray_dc(k1) == d2 * ray_dc(k2),
                d1 == d2,
                1 <= d1,
        ;
    } else if d1 == 1 {
        assert(ray_dr(k1) == 2 * ray_dr(k2));
        assert(ray_dc(k1) == 2 * ray_dc(k2));
    } else {
        assert(2 * ray_dr(k1) == ray_dr(k2));
        assert(2 * ray_dc(k1) == ray_dc(k2));
    }
}

/// Each captured stone lies one or two steps from `pos` along one of the
/// first `n` half-lines, and no cell is listed twice.
pub proof fn lemma_captured_distinct(b: Board, pos: Pos, stone: Stone, n: int)
    requires
        pos.valid(),
        0 <= n <= 8,
    ensures
        forall|j: int|
            0 <= j < captured_upto(b, pos, stone, n).len() ==> #[trigger] near_on_ray(pos, captured_upto(b, pos, stone, n)[j], n),
        forall|a: int, c: int|
            0 <= a < c < captured_upto(b, pos, stone, n).len() ==> (#[trigger] captured_upto(b, pos, stone, n)[a]).idx()
                != (#[trigger] captured_upto(b, pos, stone, n)[c]).idx(),
    decreases n,
{
    lemma_captured_upto(b, pos, stone, n);
    if n > 0 {
        lemma_captured_distinct(b, pos, stone, n - 1);
        lemma_captured_upto(b, pos, stone, n - 1);
        let k = n - 1;
        let dr = ray_dr(k);
        let dc = ray_dc(k);
        let r = pos.row as int;
        let c = pos.col as int;
        let prev = captured_upto(b, pos, stone, n - 1);
        let cur = captured_upto(b, pos, stone, n);
        if capture_in_ray(b, pos, stone, k) {
            lemma_ray_bounds(k);
            lemma_pos_of(r + dr, c + dc);
            lemma_pos_of(r + 2 * dr, c + 2 * dc);
            assert(on_ray(pos, cur[prev.len() as int], k, 1));
            assert(on_ray(pos, cur[prev.len() as int + 1], k, 2));
            assert forall|j: int| 0 <= j < cur.len() implies #[trigger] near_on_ray(pos, cur[j], n) by {
                if j < prev.len() {
                    assert(cur[j] == prev[j]);
                    assert(near_on_ray(pos, prev[j], n - 1));
                    let (k2, d) = choose|k2: int, d: int| 0 <= k2 < n - 1 && 1 <= d <= 2 && #[trigger] on_ray(pos, prev[j], k2, d);
                    assert(on_ray(pos, cur[j], k2, d));
                } else if j == prev.len() {
                    assert(on_ray(pos, cur[j], k, 1));
                } else {
                    assert(on_ray(pos, cur[j], k, 2));
                }
            }
            assert forall|a: int, c2: int| 0 <= a < c2 < cur.len() implies (#[trigger] cur[a]).idx() != (#[trigger] cur[c2]).idx() by {
                if c2 < prev.len() {
                    assert(cur[a] == prev[a] && cur[c2] == prev[c2]);
                } else {
                    let dd: int = if c2 == prev.len() { 1 } else { 2 };
                    assert(on_ray(pos, cur[c2], k, dd));
                    if cur[a].idx() == cur[c2].idx() {
                        assert(cur[a].valid() && cur[c2].valid());
                        assert(cur[a].row == cur[c2].row && cur[a].col == cur[c2].col);
                        if a < prev.len() {
                            assert(cur[a] == prev[a]);
                            assert(near_on_ray(pos, prev[a], n - 1));
                            let (kp, dp) = choose|k2: int, d: int| 0 <= k2 < n - 1 && 1 <= d <= 2 && #[trigger] on_ray(pos, prev[a], k2, d);
                            lemma_rays_apart(kp, k, dp, dd);
                        } else {
                            assert(on_ray(pos, cur[a], k, 1));
                            lemma_rays_apart(k, k, 1, dd);
                        }
                    }
                }
            }
        } else {
            assert(cur == prev);
            assert forall|j: int| 0 <= j < cur.len() implies #[trigger] near_on_ray(pos, cur[j], n) by {
                assert(near_on_ray(pos, prev[j], n - 1));
                let (k2, d) = choose|k2: int, d: int| 0 <= k2 < n - 1 && 1 <= d <= 2 && #[trigger] on_ray(pos, prev[j], k2, d);
                assert(on_ray(pos, cur[j], k2, d));
            }
        }
    }
}

/// Some capture exists exactly when the captured list is nonempty.
pub proof fn lemma_captured_nonempty(b: Board, pos: Pos, stone: Stone, n: int)
    requires
        0 <= n <= 8,
    ensures
        captured_upto(b, pos, stone, n).len() > 0 <==> exists|k: int|
            0 <= k < n && #[trigger] capture_in_ray(b, pos, stone, k),
    decreases n,
{
    if n > 0 {
        lemma_captured_nonempty(b, pos, stone, n - 1);
        if capture_in_ray(b, pos, stone, n - 1) {
        } else {
            assert forall|k: int| 0 <= k < n && #[trigger] capture_in_ray(b, pos, stone, k)
                implies 0 <= k < n - 1 by {}
        }
    }
}

/// Whether placing `stone` at `pos` captures along half-line `k`.
fn ray_captures(board: &Board, pos: Pos, stone: Stone, k: usize) -> (b: bool)
    requires
        pos.valid(),
        k < 8,
    ensures
        b == capture_in_ray(*board, pos, stone, k as int),
{
    let (dr, dc) = ray_dir(k);
    let r3 = pos.row as i32 + dr * 3;
    let c3 = pos.col as i32 + dc * 3;
    if !crate::board::Pos::is_valid(r3, c3) {
        return false;
    }
    let opponent = stone.opponent();
    let r1 = pos.row as i32 + dr;
    let c1 = pos.col as i32 + dc;
    let r2 = pos.row as i32 + dr * 2;
    let c2 = pos.col as i32 + dc * 2;
    stone_at(board, r1, c1) == opponent && stone_at(board, r2, c2) == opponent && stone_at(
        board,
        r3,
        c3,
    ) == stone
}

/// The two positions captured along half-line `k` (which must capture).
fn ray_pair(pos: Pos, k: usize) -> (p: (Pos, Pos))
    requires
        pos.valid(),
        k < 8,
        on_board(pos.row + 3 * ray_dr(k as int), pos.col + 3 * ray_dc(k as int)),
    ensures
        p.0 == pos_of(pos.row + ray_dr(k as int), pos.col + ray_dc(k as int)),
        p.1 == pos_of(pos.row + 2 * ray_dr(k as int), pos.col + 2 * ray_dc(k as int)),
{
    let (dr, dc) = ray_dir(k);
    let r1 = pos.row as i32 + dr;
    let c1 = pos.col as i32 + dc;
    let r2 = pos.row as i32 + dr * 2;
    let c2 = pos.col as i32 + dc * 2;
    (Pos::new(r1 as u8, c1 as u8), Pos::new(r2 as u8, c2 as u8))
}

/// Find positions that would be captured if `stone` is placed at `pos`.
///
/// Returns the captured stones (always pairs) in scan order.
pub fn get_captured_positions(board: &Board, pos: Pos, stone: Stone) -> (captured: Vec<Pos>)
    requires
        pos.valid(),
    ensures
        captured@ == captured_list(*board, pos, stone),
{
    let mut captured: Vec<Pos> = Vec::new();
    let mut k: usize = 0;
    while k < 8
        invariant
            0 <= k <= 8,
            pos.valid(),
            captured@ == captured_upto(*board, pos, stone, k as int),
        decreases 8 - k,
    {
        if ray_captures(board, pos, stone, k) {
            let (p1, p2) = ray_pair(pos, k);
            captured.push(p1);
            captured.push(p2);
        }
        k = k + 1;
    }
    captured
}

/// Remove the listed stones from the board.
fn remove_all(board: &mut Board, list: &Vec<Pos>, count: usize)
    requires
        count <= list.len(),
        forall|k: int| 0 <= k < count ==> (#[trigger] list[k]).valid(),
    ensures
        removal_applied(*old(board), *final(board), Stone::Empty, list@.take(count as int), 0),
{
    let ghost b0 = *board;
    let mut j: usize = 0;
    while j < count
        invariant
            0 <= j <= count,
            count <= list.len(),
            forall|k: int| 0 <= k < count ==> (#[trigger] list[k]).valid(),
            removal_applied(b0, *board, Stone::Empty, list@.take(j as int), 0),
        decreases count - j,
    {
        let p = list[j];
        board.remove_stone(p);
        proof {
            let prev = list@.take(j as int);
            let cur = list@.take(j as int + 1);
            assert forall|i: int| seq_has_cell(cur, i) == (seq_has_cell(prev, i) || i == p.idx()) by {
                if seq_has_cell(cur, i) {
                    let k = choose|k: int| 0 <= k < cur.len() && (#[trigger] cur[k]).idx() == i;
                    if k < j {
                        assert(prev[k] == cur[k]);
                    }
                }
                if seq_has_cell(prev, i) {
                    let k = choose|k: int| 0 <= k < prev.len() && (#[trigger] prev[k]).idx() == i;
                    assert(cur[k] == prev[k]);
                }
                if i == p.idx() {
                    assert(cur[j as int] == p);
                }
            }
        }
        j = j + 1;
    }
}

/// Execute captures and return captured positions.
///
/// Removes the captured stones and credits the capturing color with the
/// number of captured pairs.
pub fn execute_captures(board: &mut Board, pos: Pos, stone: Stone) -> (captured: Vec<Pos>)
    requires
        pos.valid(),
    ensures
        captured@ == captured_list(*old(board), pos, stone),
        removal_applied(*old(board), *final(board), stone, captured@, (captured@.len() / 2) as int),
{
    let captured = get_captured_positions(board, pos, stone);
    proof {
        lemma_captured_upto(*board, pos, stone, 8);
    }
    let ghost b0 = *board;
    remove_all(board, &captured, captured.len());
    proof {
        assert(captured@.take(captured@.len() as int) =~= captured@);
    }
    let pairs = captured.len() / 2;
    board.add_captures(stone, pairs as u8);
    captured
}

/// Check if a move would result in any captures.
pub fn has_capture(board: &Board, pos: Pos, stone: Stone) -> (b: bool)
    requires
        pos.valid(),
    ensures
        b == captures_any(*board, pos, stone),
{
    let mut k: usize = 0;
    while k < 8
        invariant
            0 <= k <= 8,
            pos.valid(),
            forall|j: int| 0 <= j < k ==> !#[trigger] capture_in_ray(*board, pos, stone, j),
        decreases 8 - k,
    {
        if ray_captures(board, pos, stone, k) {
            return true;
        }
        k = k + 1;
    }
    false
}

/// Count how many pairs would be captured by a move.
pub fn count_captures(board: &Board, pos: Pos, stone: Stone) -> (n: u8)
    requires
        pos.valid(),
    ensures
        n == captured_list(*board, pos, stone).len() / 2,
{
    let v = get_captured_positions(board, pos, stone);
    proof {
        lemma_captured_upto(*board, pos, stone, 8);
    }
    (v.len() / 2) as u8
}

/// Count how many pairs would be captured by a move, without allocating.
pub fn count_captures_fast(board: &Board, pos: Pos, stone: Stone) -> (n: u8)
    requires
        pos.valid(),
    ensures
        n == captured_list(*board, pos, stone).len() / 2,
{
    let mut pairs: u8 = 0;
    let mut k: usize = 0;
    proof {
        lemma_captured_upto(*board, pos, stone, 0);
    }
    while k < 8
        invariant
            0 <= k <= 8,
            pos.valid(),
            2 * pairs == captured_upto(*board, pos, stone, k as int).len(),
            pairs <= k,
        decreases 8 - k,
    {
        if ray_captures(board, pos, stone, k) {
            pairs = pairs + 1;
        }
        k = k + 1;
    }
    pairs
}

/// The stones removed by one move: up to 8 pairs.
#[derive(Debug, Clone, Copy)]
pub struct CaptureInfo {
    /// Captured positions; the first `count` entries are meaningful.
    pub positions: [Pos; 16],
    /// Number of captured stones.
    pub count: u8,
    /// Number of captured pairs (`count / 2`).
    pub pairs: u8,
}

impl CaptureInfo {
    /// The captured positions as a sequence.
    pub open spec fn list(self) -> Seq<Pos> {
        self.positions@.take(self.count as int)
    }

    /// Counts are consistent and every listed position is on the board.
    pub open spec fn wf(self) -> bool {
        &&& self.count <= 16
        &&& self.pairs * 2 == self.count
        &&& forall|k: int| 0 <= k < self.count ==> (#[trigger] self.positions[k]).valid()
    }
}

/// Execute captures without allocating; returns what is needed to undo them.
pub fn execute_captures_fast(board: &mut Board, pos: Pos, stone: Stone) -> (info: CaptureInfo)
    requires
        pos.valid(),
    ensures
        info.wf(),
        info.list() == captured_list(*old(board), pos, stone),
        removal_applied(*old(board), *final(board), stone, info.list(), info.pairs as int),
{
    let mut positions = [Pos { row: 0, col: 0 };16];
    let mut count: usize = 0;
    let mut k: usize = 0;
    let ghost b0 = *board;
    proof {
        lemma_captured_upto(b0, pos, stone, 8);
    }
    while k < 8
        invariant
            0 <= k <= 8,
            pos.valid(),
            *board == b0,
            count == captured_upto(b0, pos, stone, k as int).len(),
            count <= 2 * k,
            positions@.take(count as int) == captured_upto(b0, pos, stone, k as int),
            positions@.len() == 16,
        decreases 8 - k,
    {
        proof {
            lemma_captured_upto(b0, pos, stone, k as int);
            lemma_captured_upto(b0, pos, stone, k as int + 1);
        }
        if ray_captures(board, pos, stone, k) {
            let (p1, p2) = ray_pair(pos, k);
            let ghost before = positions@;
            positions[count] = p1;
            positions[count + 1] = p2;
            proof {
                assert(positions@.take(count as int + 2) =~= before.take(count as int) + seq![
                    p1,
                    p2,
                ]);
            }
            count = count + 2;
        }
        k = k + 1;
    }
    let ghost list = positions@.take(count as int);
    let mut j: usize = 0;
    while j < count
        invariant
            0 <= j <= count,
            count <= 16,
            list == positions@.take(count as int),
            list == captured_list(b0, pos, stone),
            forall|q: int| 0 <= q < list.len() ==> (#[trigger] list[q]).valid(),
            removal_applied(b0, *board, Stone::Empty, list.take(j as int), 0),
        decreases count - j,
    {
        let p = positions[j];
        assert(p == list[j as int]);
        board.remove_stone(p);
        proof {
            let prev = list.take(j as int);
            let cur = list.take(j as int + 1);
            assert forall|i: int| seq_has_cell(cur, i) == (seq_has_cell(prev, i) || i == p.idx()) by {
                if seq_has_cell(cur, i) {
                    let q = choose|q: int| 0 <= q < cur.len() && (#[trigger] cur[q]).idx() == i;
                    if q < j {
                        assert(prev[q] == cur[q]);
                    }
                }
                if seq_has_cell(prev, i) {
                    let q = choose|q: int| 0 <= q < prev.len() && (#[trigger] prev[q]).idx() == i;
                    assert(cur[q] == prev[q]);
                }
                if i == p.idx() {
                    assert(cur[j as int] == p);
                }
            }
        }
        j = j + 1;
    }
    proof {
        assert(list.take(count as int) =~= list);
        assert forall|q: int| 0 <= q < count implies (#[trigger] positions[q]).valid() by {
            assert(list[q] == positions[q]);
        }
    }
    let pairs = (count / 2) as u8;
    board.add_captures(stone, pairs);
    CaptureInfo { positions, count: count as u8, pairs }
}

/// Undo the captures of a move: put the captured stones back for the opponent
/// and take the pairs back from the capturing color.
pub fn undo_captures(board: &mut Board, stone: Stone, info: &CaptureInfo)
    requires
        info.wf(),
    ensures
        restore_applied(*old(board), *final(board), stone, info.list(), info.pairs as int),
{
    let opponent = stone.opponent();
    let ghost b0 = *board;
    let ghost list = info.list();
    let count = info.count as usize;
    let mut j: usize = 0;
    while j < count
        invariant
            0 <= j <= count,
            count == info.count,
            info.wf(),
            list == info.list(),
            opponent == opp(stone),
            restore_applied(b0, *board, stone, list.take(j as int), 0),
        decreases count - j,
    {
        let p = info.positions[j];
        assert(p == list[j as int]);
        board.place_stone(p, opponent);
        proof {
            let prev = list.take(j as int);
            let cur = list.take(j as int + 1);
            assert forall|i: int| seq_has_cell(cur, i) == (seq_has_cell(prev, i) || i == p.idx()) by {
                if seq_has_cell(cur, i) {
                    let q = choose|q: int| 0 <= q < cur.len() && (#[trigger] cur[q]).idx() == i;
                    if q < j {
                        assert(prev[q] == cur[q]);
                    }
                }
                if seq_has_cell(prev, i) {
                    let q = choose|q: int| 0 <= q < prev.len() && (#[trigger] prev[q]).idx() == i;
                    assert(cur[q] == prev[q]);
                }
                if i == p.idx() {
                    assert(cur[j as int] == p);
                }
            }
        }
        j = j + 1;
    }
    proof {
        assert(list.take(count as int) =~= list);
    }
    board.sub_captures(stone, info.pairs);
}

/// Undoing the captures of a move restores the board on which they were made
/// (stones and capture counts), provided the board held no cell of both
/// colors and the capture count did not saturate.
pub proof fn law_undo_restores_captures(
    before: Board,
    mid: Board,
    after: Board,
    pos: Pos,
    stone: Stone,
    info: CaptureInfo,
)
    requires
        before.wf(),
        pos.valid(),
        info.wf(),
        info.list() == captured_list(before, pos, stone),
        removal_applied(before, mid, stone, info.list(), info.pairs as int),
        restore_applied(mid, after, stone, info.list(), info.pairs as int),
        before.caps(stone) + info.pairs <= 255,
    ensures
        after.same_position(before),
{
    lemma_captured_upto(before, pos, stone, 8);
    let list = info.list();
    assert forall|i: int| #[trigger] after.black.has(i) == before.black.has(i) by {
        if seq_has_cell(list, i) {
            let k = choose|k: int| 0 <= k < list.len() && (#[trigger] list[k]).idx() == i;
            assert(before.cell(list[k].idx()) == opp(stone));
        }
    }
    assert forall|i: int| #[trigger] after.white.has(i) == before.white.has(i) by {
        if seq_has_cell(list, i) {
            let k = choose|k: int| 0 <= k < list.len() && (#[trigger] list[k]).idx() == i;
            assert(before.cell(list[k].idx()) == opp(stone));
        }
    }
}

} // verus!
