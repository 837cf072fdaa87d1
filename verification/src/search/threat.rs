//! VCF/VCT threat-space search for forced wins.
//!
//! - VCF (victory by continuous fours): every attacking move makes a four (or
//!   five); the defender's forced reply is played and the search continues.
//! - VCT (victory by continuous threats): open threes count as threats too,
//!   and every defense of a threat must be beaten.
use crate::board::{on_board, opp, Board, Pos, Stone, TOTAL_CELLS};
use crate::engine::{lemma_moved_unique, moved, placed};
use crate::rules::capture::{
    captured_list, execute_captures_fast, get_captured_positions, lemma_captured_upto, CaptureInfo,
};
use crate::rules::forbidden::{is_valid_move, valid_move};
use crate::rules::win::{
    breakable, can_break_five_by_capture, find_five_positions, find_five_spec, has_five_at_pos, line_at, line_count,
    line_length, run, run_cells, scan_run,
};
use crate::rules::{base_dc, base_dr, lemma_pos_of, line_dir, pos_of, stone_at};
use vstd::prelude::*;

verus! {

/// The run of `s` stones next to `pos` along (dr, dc) (not counting `pos`).
pub open spec fn side_run(b: Board, pos: Pos, s: Stone, dr: int, dc: int) -> nat {
    run(b, pos.row + dr, pos.col + dc, dr, dc, s, 19)
}

/// Row of the cell just past that run.
pub open spec fn end_row(b: Board, pos: Pos, s: Stone, dr: int, dc: int) -> int {
    pos.row + (side_run(b, pos, s, dr, dc) + 1) * dr
}

/// Column of the cell just past that run.
pub open spec fn end_col(b: Board, pos: Pos, s: Stone, dr: int, dc: int) -> int {
    pos.col + (side_run(b, pos, s, dr, dc) + 1) * dc
}

/// The cell just past the run is on the board and empty.
pub open spec fn side_open(b: Board, pos: Pos, s: Stone, dr: int, dc: int) -> bool {
    &&& side_run(b, pos, s, dr, dc) < 19
    &&& on_board(end_row(b, pos, s, dr, dc), end_col(b, pos, s, dr, dc))
    &&& b.at(end_row(b, pos, s, dr, dc), end_col(b, pos, s, dr, dc)) == Stone::Empty
}

/// The cell just past the run, as a position.
pub open spec fn end_pos(b: Board, pos: Pos, s: Stone, dr: int, dc: int) -> Pos {
    pos_of(end_row(b, pos, s, dr, dc), end_col(b, pos, s, dr, dc))
}

/// Number of open ends of the line through `pos` along direction `j`.
pub open spec fn open_ends(b: Board, pos: Pos, s: Stone, j: int) -> int {
    (if side_open(b, pos, s, base_dr(j), base_dc(j)) {
        1int
    } else {
        0int
    }) + (if side_open(b, pos, s, -base_dr(j), -base_dc(j)) {
        1int
    } else {
        0int
    })
}

/// A stone of `s` at `pos` makes five or more in a row.
pub open spec fn makes_five(b: Board, pos: Pos, s: Stone) -> bool {
    exists|j: int| 0 <= j < 4 && #[trigger] line_count(b, pos, s, j) >= 5
}

/// A stone of `s` at `pos` makes exactly four in a row with an open end.
pub open spec fn makes_four(b: Board, pos: Pos, s: Stone) -> bool {
    exists|j: int| 0 <= j < 4 && #[trigger] line_count(b, pos, s, j) == 4 && open_ends(b, pos, s, j) >= 1
}

/// A stone of `s` at `pos` makes exactly three in a row with both ends open.
pub open spec fn makes_open_three(b: Board, pos: Pos, s: Stone) -> bool {
    exists|j: int| 0 <= j < 4 && #[trigger] line_count(b, pos, s, j) == 3 && open_ends(b, pos, s, j) == 2
}

/// The position of cell index `i`.
pub open spec fn cell_pos(i: int) -> Pos {
    pos_of(i / 19, i % 19)
}

/// Legal moves of `s` below cell `n` (row-major) that make five.
pub open spec fn five_moves(b: Board, s: Stone, n: int) -> Seq<Pos>
    decreases n,
{
    if n <= 0 {
        Seq::empty()
    } else if valid_move(b, cell_pos(n - 1), s) && makes_five(b, cell_pos(n - 1), s) {
        five_moves(b, s, n - 1).push(cell_pos(n - 1))
    } else {
        five_moves(b, s, n - 1)
    }
}

/// Legal moves of `s` below cell `n` that make a four but not a five.
pub open spec fn four_moves(b: Board, s: Stone, n: int) -> Seq<Pos>
    decreases n,
{
    if n <= 0 {
        Seq::empty()
    } else if valid_move(b, cell_pos(n - 1), s) && !makes_five(b, cell_pos(n - 1), s) && makes_four(
        b,
        cell_pos(n - 1),
        s,
    ) {
        four_moves(b, s, n - 1).push(cell_pos(n - 1))
    } else {
        four_moves(b, s, n - 1)
    }
}

/// Legal moves of `s` below cell `n` that make an open three and neither a
/// five nor a four.
pub open spec fn three_moves(b: Board, s: Stone, n: int) -> Seq<Pos>
    decreases n,
{
    if n <= 0 {
        Seq::empty()
    } else if valid_move(b, cell_pos(n - 1), s) && !makes_five(b, cell_pos(n - 1), s) && !makes_four(
        b,
        cell_pos(n - 1),
        s,
    ) && makes_open_three(b, cell_pos(n - 1), s) {
        three_moves(b, s, n - 1).push(cell_pos(n - 1))
    } else {
        three_moves(b, s, n - 1)
    }
}

/// The VCF candidates: winning moves first, then fours, each in board order.
pub open spec fn four_threats(b: Board, s: Stone) -> Seq<Pos> {
    five_moves(b, s, 361) + four_moves(b, s, 361)
}

/// The VCT candidates: winning moves, then fours, then open threes.
pub open spec fn all_threats(b: Board, s: Stone) -> Seq<Pos> {
    five_moves(b, s, 361) + four_moves(b, s, 361) + three_moves(b, s, 361)
}

/// `x` lies on the line through `t` along direction `j`, which holds
/// exactly four stones of `a`.
pub open spec fn four_line_has(b: Board, t: Pos, a: Stone, j: int, x: Pos) -> bool {
    line_count(b, t, a, j) == 4 && line_at(b, t, a, j).contains(x)
}

/// `x` is a stone of a line of exactly four through `t`.
pub open spec fn in_four(b: Board, t: Pos, a: Stone, x: Pos) -> bool {
    exists|j: int| 0 <= j < 4 && #[trigger] four_line_has(b, t, a, j, x)
}

/// `x` lies on the line through `t` along direction `j`, which holds three
/// or more stones of `a`.
pub open spec fn threat_line_has(b: Board, t: Pos, a: Stone, j: int, x: Pos) -> bool {
    line_count(b, t, a, j) >= 3 && line_at(b, t, a, j).contains(x)
}

/// `x` is a stone of a line of three or more through `t`.
pub open spec fn in_threat_line(b: Board, t: Pos, a: Stone, x: Pos) -> bool {
    exists|j: int| 0 <= j < 4 && #[trigger] threat_line_has(b, t, a, j, x)
}

/// `p` is the open end, on side `sg`, of the line through `t` along `j`.
pub open spec fn is_end(b: Board, t: Pos, a: Stone, j: int, sg: int, p: Pos) -> bool {
    &&& sg == 1 || sg == -1
    &&& side_open(b, t, a, sg * base_dr(j), sg * base_dc(j))
    &&& p == end_pos(b, t, a, sg * base_dr(j), sg * base_dc(j))
}

/// `p` is an open end of a line of exactly four through `t`.
pub open spec fn four_block(b: Board, t: Pos, a: Stone, j: int, sg: int, p: Pos) -> bool {
    line_count(b, t, a, j) == 4 && is_end(b, t, a, j, sg, p)
}

/// Placing the opponent of `a` at `p` captures a stone of a line of four
/// through `t`.
pub open spec fn captures_four_stone(b: Board, t: Pos, a: Stone, p: Pos) -> bool {
    exists|q: int|
        0 <= q < captured_list(b, p, opp(a)).len() && #[trigger] in_four(
            b,
            t,
            a,
            captured_list(b, p, opp(a))[q],
        )
}

/// Placing the opponent of `a` at `p` captures a stone of a line of three or
/// more through `t`.
pub open spec fn captures_threat_stone(b: Board, t: Pos, a: Stone, p: Pos) -> bool {
    exists|q: int|
        0 <= q < captured_list(b, p, opp(a)).len() && #[trigger] in_threat_line(
            b,
            t,
            a,
            captured_list(b, p, opp(a))[q],
        )
}

/// Placing the opponent of `a` at `p` is a legal move that captures.
pub open spec fn legal_capture(b: Board, a: Stone, p: Pos) -> bool {
    &&& p.valid()
    &&& valid_move(b, p, opp(a))
    &&& captured_list(b, p, opp(a)).len() > 0
}

/// A legal capture that answers the four made at `t`: it takes a stone of a
/// line of four, or the defender already holds three pairs.
pub open spec fn four_capture(b: Board, t: Pos, a: Stone, p: Pos) -> bool {
    legal_capture(b, a, p) && (b.caps(opp(a)) >= 3 || captures_four_stone(b, t, a, p))
}

/// A legal capture that takes a stone of a line of three or more through `t`.
pub open spec fn threat_capture(b: Board, t: Pos, a: Stone, p: Pos) -> bool {
    legal_capture(b, a, p) && captures_threat_stone(b, t, a, p)
}

/// A defense against the four made at `t`: a legal block at an open end of a
/// line of exactly four, or a legal capture that takes a stone of such a
/// line (any capture once the defender holds three pairs).
pub open spec fn four_defense(b: Board, t: Pos, a: Stone, p: Pos) -> bool {
    ||| (exists|j: int, sg: int| 0 <= j < 4 && #[trigger] four_block(b, t, a, j, sg, p))
        && valid_move(b, p, opp(a))
    ||| four_capture(b, t, a, p)
}

/// A defense against the threat made at `t`: a legal block at an open end of
/// any line through `t`, or a legal capture taking a stone of a line of three
/// or more through `t`.
pub open spec fn threat_defense(b: Board, t: Pos, a: Stone, p: Pos) -> bool {
    ||| (exists|j: int, sg: int| 0 <= j < 4 && #[trigger] is_end(b, t, a, j, sg, p)) && valid_move(
        b,
        p,
        opp(a),
    )
    ||| threat_capture(b, t, a, p)
}

/// The list holds exactly the positions satisfying a predicate, each once, in
/// increasing board order.
pub open spec fn sorted_set(v: Seq<Pos>, pred: spec_fn(Pos) -> bool) -> bool {
    &&& forall|p: Pos| #[trigger] v.contains(p) <==> pred(p)
    &&& forall|a: int, c: int| 0 <= a < c < v.len() ==> v[a].idx() < v[c].idx()
    &&& forall|k: int| 0 <= k < v.len() ==> (#[trigger] v[k]).valid()
}


/// Blocks at open ends of lines of exactly four in the first `n` directions.
pub open spec fn blocks_upto(b: Board, t: Pos, a: Stone, n: int, p: Pos) -> bool
    decreases n,
{
    if n <= 0 {
        false
    } else {
        blocks_upto(b, t, a, n - 1, p) || four_block(b, t, a, n - 1, 1, p) || four_block(
            b,
            t,
            a,
            n - 1,
            -1,
            p,
        )
    }
}

/// Open ends of the lines in the first `n` directions.
pub open spec fn ends_upto(b: Board, t: Pos, a: Stone, n: int, p: Pos) -> bool
    decreases n,
{
    if n <= 0 {
        false
    } else {
        ends_upto(b, t, a, n - 1, p) || is_end(b, t, a, n - 1, 1, p) || is_end(b, t, a, n - 1, -1, p)
    }
}

/// Stones of lines of exactly four in the first `n` directions.
pub open spec fn four_upto(b: Board, t: Pos, a: Stone, n: int, x: Pos) -> bool
    decreases n,
{
    if n <= 0 {
        false
    } else {
        four_upto(b, t, a, n - 1, x) || four_line_has(b, t, a, n - 1, x)
    }
}

/// Stones of lines of three or more in the first `n` directions.
pub open spec fn threat_upto(b: Board, t: Pos, a: Stone, n: int, x: Pos) -> bool
    decreases n,
{
    if n <= 0 {
        false
    } else {
        threat_upto(b, t, a, n - 1, x) || threat_line_has(b, t, a, n - 1, x)
    }
}

proof fn lemma_blocks_all(b: Board, t: Pos, a: Stone, p: Pos)
    ensures
        blocks_upto(b, t, a, 4, p) <==> exists|j: int, sg: int| 0 <= j < 4 && #[trigger] four_block(b, t, a, j, sg, p),
{
    reveal_with_fuel(blocks_upto, 5);
    if exists|j: int, sg: int| 0 <= j < 4 && #[trigger] four_block(b, t, a, j, sg, p) {
        let (j, sg) = choose|j: int, sg: int| 0 <= j < 4 && #[trigger] four_block(b, t, a, j, sg, p);
        assert(j == 0 || j == 1 || j == 2 || j == 3);
    }
}

proof fn lemma_ends_all(b: Board, t: Pos, a: Stone, p: Pos)
    ensures
        ends_upto(b, t, a, 4, p) <==> exists|j: int, sg: int| 0 <= j < 4 && #[trigger] is_end(b, t, a, j, sg, p),
{
    reveal_with_fuel(ends_upto, 5);
    if exists|j: int, sg: int| 0 <= j < 4 && #[trigger] is_end(b, t, a, j, sg, p) {
        let (j, sg) = choose|j: int, sg: int| 0 <= j < 4 && #[trigger] is_end(b, t, a, j, sg, p);
        assert(j == 0 || j == 1 || j == 2 || j == 3);
    }
}

proof fn lemma_four_all(b: Board, t: Pos, a: Stone, p: Pos)
    ensures
        four_upto(b, t, a, 4, p) <==> in_four(b, t, a, p),
{
    reveal_with_fuel(four_upto, 5);
    if in_four(b, t, a, p) {
        let j = choose|j: int| 0 <= j < 4 && #[trigger] four_line_has(b, t, a, j, p);
        assert(j == 0 || j == 1 || j == 2 || j == 3);
    }
}

proof fn lemma_threat_all(b: Board, t: Pos, a: Stone, p: Pos)
    ensures
        threat_upto(b, t, a, 4, p) <==> in_threat_line(b, t, a, p),
{
    reveal_with_fuel(threat_upto, 5);
    if in_threat_line(b, t, a, p) {
        let j = choose|j: int| 0 <= j < 4 && #[trigger] threat_line_has(b, t, a, j, p);
        assert(j == 0 || j == 1 || j == 2 || j == 3);
    }
}

/// Two positions on the board with the same cell index are equal.
pub proof fn lemma_idx_injective(p: Pos, q: Pos)
    requires
        p.valid(),
        q.valid(),
        p.idx() == q.idx(),
    ensures
        p == q,
{
}

/// Flag the cells of all positions in `cells`.
fn flag_all(marks: &mut Vec<bool>, cells: &Vec<Pos>)
    requires
        old(marks)@.len() == TOTAL_CELLS,
        forall|k: int| 0 <= k < cells.len() ==> (#[trigger] cells[k]).valid(),
    ensures
        final(marks)@.len() == TOTAL_CELLS,
        forall|p: Pos| p.valid() ==> (#[trigger] final(marks)@[p.idx()] == (old(marks)@[p.idx()] || cells@.contains(p))),
{
    let mut k: usize = 0;
    while k < cells.len()
        invariant
            0 <= k <= cells.len(),
            marks@.len() == 361,
            forall|q: int| 0 <= q < cells.len() ==> (#[trigger] cells[q]).valid(),
            forall|p: Pos| p.valid() ==> (#[trigger] marks@[p.idx()] == (old(marks)@[p.idx()] || cells@.take(k as int).contains(p))),
        decreases cells.len() - k,
    {
        let q = cells[k];
        let ghost prev = marks@;
        marks.set(q.to_index(), true);
        proof {
            assert forall|p: Pos| p.valid() implies (#[trigger] marks@[p.idx()] == (old(marks)@[p.idx()] || cells@.take(k as int + 1).contains(p))) by {
                assert(cells@.take(k as int + 1) =~= cells@.take(k as int).push(q));
                let t0 = cells@.take(k as int);
                let t1 = cells@.take(k as int + 1);
                assert(prev[p.idx()] == (old(marks)@[p.idx()] || t0.contains(p)));
                assert(t1[k as int] == q);
                if p.idx() == q.idx() {
                    lemma_idx_injective(p, q);
                    assert(t1.contains(p));
                } else {
                    if t1.contains(p) {
                        let w = choose|w: int| 0 <= w < t1.len() && t1[w] == p;
                        assert(t0[w] == p);
                    }
                    if t0.contains(p) {
                        let w = choose|w: int| 0 <= w < t0.len() && t0[w] == p;
                        assert(t1[w] == p);
                    }
                }
            }
        }
        k = k + 1;
    }
    proof {
        assert(cells@.take(cells.len() as int) =~= cells@);
    }
}


/// The cells of `line_at` are on the board.
proof fn lemma_line_cells(b: Board, t: Pos, a: Stone, j: int)
    requires
        t.valid(),
    ensures
        forall|k: int| 0 <= k < line_at(b, t, a, j).len() ==> (#[trigger] line_at(b, t, a, j)[k]).valid(),
{
    let dr = base_dr(j);
    let dc = base_dc(j);
    crate::rules::win::lemma_run(b, t.row + dr, t.col + dc, dr, dc, a, 19);
    crate::rules::win::lemma_run(b, t.row - dr, t.col - dc, -dr, -dc, a, 19);
    let l = line_at(b, t, a, j);
    let f = run_cells(b, t.row + dr, t.col + dc, dr, dc, a, 19);
    let g = run_cells(b, t.row - dr, t.col - dc, -dr, -dc, a, 19);
    assert forall|k: int| 0 <= k < l.len() implies (#[trigger] l[k]).valid() by {
        if k == 0 {
        } else if k < 1 + f.len() {
            assert(l[k] == f[k - 1]);
        } else {
            assert(l[k] == g[k - 1 - f.len()]);
        }
    }
}

/// An open end is a position on the board.
proof fn lemma_end_valid(b: Board, t: Pos, a: Stone, j: int, sg: int)
    requires
        is_end(b, t, a, j, sg, end_pos(b, t, a, sg * base_dr(j), sg * base_dc(j))),
    ensures
        end_pos(b, t, a, sg * base_dr(j), sg * base_dc(j)).valid(),
{
    let dr = sg * base_dr(j);
    let dc = sg * base_dc(j);
    lemma_pos_of(end_row(b, t, a, dr, dc), end_col(b, t, a, dr, dc));
}


/// Flag the open end on side `sg` of the line through `t` along direction
/// `j` when `cond` holds and the defender may play there.
fn flag_end(marks: &mut Vec<bool>, board: &Board, t: Pos, a: Stone, j: usize, sg: i32, d: Stone, cond: bool)
    requires
        old(marks)@.len() == TOTAL_CELLS,
        t.valid(),
        j < 4,
        sg == 1 || sg == -1,
    ensures
        final(marks)@.len() == TOTAL_CELLS,
        forall|p: Pos| p.valid() ==> (#[trigger] final(marks)@[p.idx()] == (old(marks)@[p.idx()] || (cond && is_end(*board, t, a, j as int, sg as int, p) && valid_move(*board, p, d)))),
{
    let (dr, dc) = line_dir(j);
    let sdr = if sg > 0 { dr } else { -dr };
    let sdc = if sg > 0 { dc } else { -dc };
    assert(sdr == sg * base_dr(j as int) && sdc == sg * base_dc(j as int));
    let mut scratch: Vec<Pos> = Vec::new();
    let (_n, open, e) = scan_side(board, t, a, sdr, sdc, false, &mut scratch);
    if cond && open && is_valid_move(board, e, d) {
        marks.set(e.to_index(), true);
    }
    proof {
        assert forall|p: Pos| p.valid() implies (#[trigger] marks@[p.idx()] == (old(marks)@[p.idx()] || (cond && is_end(*board, t, a, j as int, sg as int, p) && valid_move(*board, p, d)))) by {
            if open && p.idx() == e.idx() {
                lemma_idx_injective(p, e);
            }
        }
    }
}


/// With `flags` marking exactly the stones of lines of four, some position of
/// `cells` is flagged exactly when one of them is such a stone.
proof fn lemma_hits_four(b: Board, t: Pos, a: Stone, cells: Seq<Pos>, flags: Seq<bool>)
    requires
        flags.len() == TOTAL_CELLS,
        forall|k: int| 0 <= k < cells.len() ==> (#[trigger] cells[k]).valid(),
        forall|p: Pos| p.valid() ==> (#[trigger] flags[p.idx()] <==> four_upto(b, t, a, 4, p)),
    ensures
        (exists|q: int| 0 <= q < cells.len() && #[trigger] flags[cells[q].idx()]) <==> (exists|q: int|
            0 <= q < cells.len() && #[trigger] in_four(b, t, a, cells[q])),
{
    if exists|q: int| 0 <= q < cells.len() && #[trigger] flags[cells[q].idx()] {
        let q = choose|q: int| 0 <= q < cells.len() && #[trigger] flags[cells[q].idx()];
        lemma_four_all(b, t, a, cells[q]);
    }
    if exists|q: int| 0 <= q < cells.len() && #[trigger] in_four(b, t, a, cells[q]) {
        let q = choose|q: int| 0 <= q < cells.len() && #[trigger] in_four(b, t, a, cells[q]);
        lemma_four_all(b, t, a, cells[q]);
        assert(flags[cells[q].idx()]);
    }
}

/// As `lemma_hits_four`, for lines of three or more.
proof fn lemma_hits_threat(b: Board, t: Pos, a: Stone, cells: Seq<Pos>, flags: Seq<bool>)
    requires
        flags.len() == TOTAL_CELLS,
        forall|k: int| 0 <= k < cells.len() ==> (#[trigger] cells[k]).valid(),
        forall|p: Pos| p.valid() ==> (#[trigger] flags[p.idx()] <==> threat_upto(b, t, a, 4, p)),
    ensures
        (exists|q: int| 0 <= q < cells.len() && #[trigger] flags[cells[q].idx()]) <==> (exists|q: int|
            0 <= q < cells.len() && #[trigger] in_threat_line(b, t, a, cells[q])),
{
    if exists|q: int| 0 <= q < cells.len() && #[trigger] flags[cells[q].idx()] {
        let q = choose|q: int| 0 <= q < cells.len() && #[trigger] flags[cells[q].idx()];
        lemma_threat_all(b, t, a, cells[q]);
    }
    if exists|q: int| 0 <= q < cells.len() && #[trigger] in_threat_line(b, t, a, cells[q]) {
        let q = choose|q: int| 0 <= q < cells.len() && #[trigger] in_threat_line(b, t, a, cells[q]);
        lemma_threat_all(b, t, a, cells[q]);
        assert(flags[cells[q].idx()]);
    }
}


/// Every candidate move is a position on the board.
proof fn lemma_moves_valid(b: Board, s: Stone, n: int)
    requires
        n <= 361,
    ensures
        forall|k: int| 0 <= k < five_moves(b, s, n).len() ==> (#[trigger] five_moves(b, s, n)[k]).valid(),
        forall|k: int| 0 <= k < four_moves(b, s, n).len() ==> (#[trigger] four_moves(b, s, n)[k]).valid(),
        forall|k: int| 0 <= k < three_moves(b, s, n).len() ==> (#[trigger] three_moves(b, s, n)[k]).valid(),
    decreases n,
{
    if n > 0 {
        lemma_moves_valid(b, s, n - 1);
        let i = n - 1;
        assert(0 <= i / 19 < 19 && 0 <= i % 19 < 19) by (nonlinear_arith)
            requires
                0 <= i < 361,
        ;
        lemma_pos_of(i / 19, i % 19);
        let f0 = five_moves(b, s, i);
        let f = five_moves(b, s, n);
        assert forall|k: int| 0 <= k < f.len() implies (#[trigger] f[k]).valid() by {
            if k < f0.len() {
                assert(f[k] == f0[k]);
            }
        }
        let g0 = four_moves(b, s, i);
        let g = four_moves(b, s, n);
        assert forall|k: int| 0 <= k < g.len() implies (#[trigger] g[k]).valid() by {
            if k < g0.len() {
                assert(g[k] == g0[k]);
            }
        }
        let h0 = three_moves(b, s, i);
        let h = three_moves(b, s, n);
        assert forall|k: int| 0 <= k < h.len() implies (#[trigger] h[k]).valid() by {
            if k < h0.len() {
                assert(h[k] == h0[k]);
            }
        }
    }
}

/// The candidates of both lists are positions on the board, and every VCF
/// candidate is a VCT candidate.
proof fn lemma_threat_lists(b: Board, s: Stone)
    ensures
        forall|k: int| 0 <= k < four_threats(b, s).len() ==> (#[trigger] four_threats(b, s)[k]).valid(),
        forall|k: int| 0 <= k < all_threats(b, s).len() ==> (#[trigger] all_threats(b, s)[k]).valid(),
        forall|p: Pos| #[trigger] four_threats(b, s).contains(p) ==> all_threats(b, s).contains(p),
{
    lemma_moves_valid(b, s, 361);
    let f = four_threats(b, s);
    let a = all_threats(b, s);
    assert forall|k: int| 0 <= k < f.len() implies (#[trigger] f[k]).valid() by {
        if k < five_moves(b, s, 361).len() {
        } else {
            assert(f[k] == four_moves(b, s, 361)[k - five_moves(b, s, 361).len()]);
        }
    }
    assert forall|k: int| 0 <= k < a.len() implies (#[trigger] a[k]).valid() by {
        if k < f.len() {
            assert(a[k] == f[k]);
        } else {
            assert(a[k] == three_moves(b, s, 361)[k - f.len()]);
        }
    }
    assert forall|p: Pos| #[trigger] f.contains(p) implies a.contains(p) by {
        let w = choose|w: int| 0 <= w < f.len() && f[w] == p;
        assert(a[w] == p);
    }
}

/// Every VCF candidate is a legal move on the board.
pub proof fn lemma_four_threats_valid(b: Board, s: Stone)
    ensures
        forall|p: Pos| #[trigger] four_threats(b, s).contains(p) ==> p.valid() && valid_move(b, p, s),
{
    lemma_threat_lists(b, s);
    lemma_moves_legal(b, s, 361);
    let f = four_threats(b, s);
    assert forall|p: Pos| #[trigger] f.contains(p) implies p.valid() && valid_move(b, p, s) by {
        let w = choose|w: int| 0 <= w < f.len() && f[w] == p;
        assert(f[w].valid());
        if w < five_moves(b, s, 361).len() {
            assert(five_moves(b, s, 361)[w] == p);
        } else {
            assert(four_moves(b, s, 361)[w - five_moves(b, s, 361).len()] == p);
        }
    }
}

/// Every candidate of the move lists is a legal move.
proof fn lemma_moves_legal(b: Board, s: Stone, n: int)
    ensures
        forall|k: int| 0 <= k < five_moves(b, s, n).len() ==> valid_move(b, #[trigger] five_moves(b, s, n)[k], s),
        forall|k: int| 0 <= k < four_moves(b, s, n).len() ==> valid_move(b, #[trigger] four_moves(b, s, n)[k], s),
    decreases n,
{
    if n > 0 {
        lemma_moves_legal(b, s, n - 1);
        let f0 = five_moves(b, s, n - 1);
        let f = five_moves(b, s, n);
        assert forall|k: int| 0 <= k < f.len() implies valid_move(b, #[trigger] f[k], s) by {
            if k < f0.len() {
                assert(f[k] == f0[k]);
            }
        }
        let g0 = four_moves(b, s, n - 1);
        let g = four_moves(b, s, n);
        assert forall|k: int| 0 <= k < g.len() implies valid_move(b, #[trigger] g[k], s) by {
            if k < g0.len() {
                assert(g[k] == g0[k]);
            }
        }
    }
}

/// The board with a stone of `color` put on `p`, before any capture.
pub open spec fn placed_board(b: Board, p: Pos, color: Stone) -> Board {
    choose|m: Board| placed(b, p, color, m)
}

/// The position after `color` plays `p` on `b`.
pub open spec fn after_move(b: Board, p: Pos, color: Stone) -> Board {
    choose|a: Board| moved(b, p, color, a)
}

/// The stones that `color` captures by playing `p` on `b`.
pub open spec fn move_captures(b: Board, p: Pos, color: Stone) -> Seq<Pos> {
    captured_list(placed_board(b, p, color), p, color)
}

/// What a threat move at `mov` settles at once, on the position `after` it
/// (`caps` being the stones it captured): `Some(true)` when it wins (a five
/// that no capture breaks, or five captured pairs), `Some(false)` when it is
/// skipped (a breakable five, or a captured cell where the defender now
/// makes five), `None` when the search goes on.
pub open spec fn settle_spec(after: Board, mov: Pos, color: Stone, caps: Seq<Pos>) -> Option<bool> {
    let five = makes_five(after, mov, color);
    let (whole, broken) = match find_five_spec(after, color) {
        Some(f) => (five && !breakable(after, f, color), five && breakable(after, f, color)),
        None => (false, false),
    };
    if whole || after.caps(color) >= 5 {
        Some(true)
    } else if broken {
        Some(false)
    } else if exists|k: int| 0 <= k < caps.len() && #[trigger] makes_five(after, caps[k], opp(color)) {
        Some(false)
    } else {
        None
    }
}

/// Playing `t` makes a five for `color` that a capture can break, and
/// `color` has not captured five pairs.
pub open spec fn breakable_five_move(b: Board, t: Pos, color: Stone) -> bool {
    let after = after_move(b, t, color);
    &&& makes_five(after, t, color)
    &&& find_five_spec(after, color) matches Some(f) && breakable(after, f, color)
    &&& after.caps(color) < 5
}

/// A threat move counts as a win at once exactly when its five cannot be
/// broken by a capture, or when its player has captured five pairs; a
/// breakable five is never a win and the move is passed over.
#[verifier::spinoff_prover]
#[verifier::rlimit(60)]
pub proof fn law_settle_win_is_real(after: Board, mov: Pos, color: Stone, caps: Seq<Pos>)
    ensures
        settle_spec(after, mov, color, caps) == Some(true) ==> after.caps(color) >= 5 || (makes_five(
            after,
            mov,
            color,
        ) && (find_five_spec(after, color) matches Some(f) && !breakable(after, f, color))),
        makes_five(after, mov, color) && (find_five_spec(after, color) matches Some(f) && breakable(
            after,
            f,
            color,
        )) && after.caps(color) < 5 ==> settle_spec(after, mov, color, caps) == Some(false),
        after.caps(color) >= 5 ==> settle_spec(after, mov, color, caps) == Some(true),
        makes_five(after, mov, color) && (find_five_spec(after, color) matches Some(f) && !breakable(
            after,
            f,
            color,
        )) ==> settle_spec(after, mov, color, caps) == Some(true),
{
    let st = settle_spec(after, mov, color, caps);
    let five = makes_five(after, mov, color);
    if after.caps(color) >= 5 {
        assert(st == Some(true));
    } else {
        match find_five_spec(after, color) {
            Some(f) => {
                let br = breakable(after, f, color);
                if five && !br {
                    assert(st == Some(true));
                } else if five && br {
                    assert(st == Some(false));
                } else {
                    assert(st != Some(true));
                }
            },
            None => {
                assert(st != Some(true));
            },
        }
    }
}

/// A forced win found by the VCF search never opens with a move whose five
/// a capture can break.
pub proof fn law_vcf_no_breakable_five(b: Board, color: Stone, depth: int, max: int)
    ensures
        vcf_from(b, color, depth, max) matches Some(s) ==> s.len() >= 1 && !breakable_five_move(b, s[0], color),
{
    if depth <= max {
        lemma_vcf_try_no_breakable_five(b, color, depth, max, four_threats(b, color), 0);
    }
}

#[verifier::spinoff_prover]
#[verifier::rlimit(40)]
proof fn lemma_vcf_try_no_breakable_five(b: Board, color: Stone, depth: int, max: int, threats: Seq<Pos>, k: int)
    ensures
        vcf_try(b, color, depth, max, threats, k) matches Some(s) ==> s.len() >= 1 && !breakable_five_move(
            b,
            s[0],
            color,
        ),
    decreases threats.len() - k,
{
    if depth > max || k < 0 || k >= threats.len() {
    } else {
        let t = threats[k];
        let after = after_move(b, t, color);
        let st = settle_spec(after, t, color, move_captures(b, t, color));
        law_settle_win_is_real(after, t, color, move_captures(b, t, color));
        lemma_vcf_try_no_breakable_five(b, color, depth, max, threats, k + 1);
        let r = vcf_try(b, color, depth, max, threats, k);
        let next = vcf_try(b, color, depth, max, threats, k + 1);
        if st == Some(false) {
            assert(r == next);
        } else {
            assert(!breakable_five_move(b, t, color));
            assert(r is None || r == next || (r->0.len() >= 1 && r->0[0] == t));
        }
    }
}

/// The attacker's moves `s` of a VCF from `b`, each answered by the only
/// defense of its four: no move of them makes a five that a capture can
/// break.
pub open spec fn no_breakable_fives(b: Board, color: Stone, s: Seq<Pos>) -> bool
    decreases s.len(),
{
    if s.len() == 0 {
        true
    } else {
        let after = after_move(b, s[0], color);
        let defs = four_defenses(after, s[0], color);
        &&& !breakable_five_move(b, s[0], color)
        &&& s.len() > 1 ==> defs.len() == 1 && no_breakable_fives(
            after_move(after, defs[0], opp(color)),
            color,
            s.drop_first(),
        )
    }
}

/// No move of a VCF the search finds, the last one included, makes a five
/// that a capture can break.
pub proof fn law_vcf_moves_make_no_breakable_five(b: Board, color: Stone, depth: int, max: int)
    ensures
        vcf_from(b, color, depth, max) matches Some(s) ==> no_breakable_fives(b, color, s),
    decreases max + 1 - depth, four_threats(b, color).len() + 1,
{
    if depth <= max {
        lemma_vcf_try_moves(b, color, depth, max, four_threats(b, color), 0);
    }
}

#[verifier::spinoff_prover]
#[verifier::rlimit(40)]
proof fn lemma_vcf_try_moves(b: Board, color: Stone, depth: int, max: int, threats: Seq<Pos>, k: int)
    ensures
        vcf_try(b, color, depth, max, threats, k) matches Some(s) ==> no_breakable_fives(b, color, s),
    decreases max + 1 - depth, threats.len() - k,
{
    if depth > max || k < 0 || k >= threats.len() {
    } else {
        let t = threats[k];
        let after = after_move(b, t, color);
        let st = settle_spec(after, t, color, move_captures(b, t, color));
        law_settle_win_is_real(after, t, color, move_captures(b, t, color));
        lemma_vcf_try_moves(b, color, depth, max, threats, k + 1);
        let r = vcf_try(b, color, depth, max, threats, k);
        let next = vcf_try(b, color, depth, max, threats, k + 1);
        if st == Some(false) {
            assert(r == next);
        } else {
            assert(!breakable_five_move(b, t, color));
            assert(no_breakable_fives(b, color, seq![t])) by {
                reveal_with_fuel(no_breakable_fives, 2);
            }
            if st is None {
                let defs = four_defenses(after, t, color);
                if defs.len() == 1 {
                    let nb = after_move(after, defs[0], opp(color));
                    law_vcf_moves_make_no_breakable_five(nb, color, depth + 1, max);
                    match vcf_from(nb, color, depth + 1, max) {
                        Some(s2) => {
                            let s = seq![t] + s2;
                            assert(s[0] == t);
                            assert(s.drop_first() =~= s2);
                            assert(no_breakable_fives(b, color, s));
                        },
                        None => {},
                    }
                }
            }
        }
    }
}

/// `v` lists the defenses against the four made at `t`, in board order.
pub open spec fn lists_four_defenses(b: Board, t: Pos, a: Stone, v: Seq<Pos>) -> bool {
    sorted_set(v, |p: Pos| four_defense(b, t, a, p))
}

/// `v` lists the defenses against the threat made at `t`, in board order.
pub open spec fn lists_threat_defenses(b: Board, t: Pos, a: Stone, v: Seq<Pos>) -> bool {
    sorted_set(v, |p: Pos| threat_defense(b, t, a, p))
}

/// The defenses against the four made at `t`, in board order.
pub open spec fn four_defenses(b: Board, t: Pos, a: Stone) -> Seq<Pos> {
    choose|v: Seq<Pos>| #[trigger] lists_four_defenses(b, t, a, v)
}

/// The defenses against the threat made at `t`, in board order.
pub open spec fn threat_defenses(b: Board, t: Pos, a: Stone) -> Seq<Pos> {
    choose|v: Seq<Pos>| #[trigger] lists_threat_defenses(b, t, a, v)
}

/// The VCF of `color` from `b`, searched at `depth` with at most `max`
/// levels: the attacker's moves, or `None`.
pub open spec fn vcf_from(b: Board, color: Stone, depth: int, max: int) -> Option<Seq<Pos>>
    decreases max + 1 - depth, four_threats(b, color).len() + 1,
{
    if depth > max {
        None
    } else {
        vcf_try(b, color, depth, max, four_threats(b, color), 0)
    }
}

/// The VCF search at one level, trying the candidates from the `k`-th on:
/// a move that wins at once, or that leaves no defense, ends the search; a
/// move with exactly one defense goes on one level deeper after it.
pub open spec fn vcf_try(b: Board, color: Stone, depth: int, max: int, threats: Seq<Pos>, k: int) -> Option<Seq<Pos>>
    decreases max + 1 - depth, threats.len() - k,
{
    if depth > max || k < 0 || k >= threats.len() {
        None
    } else {
        let t = threats[k];
        let after = after_move(b, t, color);
        match settle_spec(after, t, color, move_captures(b, t, color)) {
            Some(true) => Some(seq![t]),
            Some(false) => vcf_try(b, color, depth, max, threats, k + 1),
            None => {
                let defs = four_defenses(after, t, color);
                if defs.len() == 0 {
                    Some(seq![t])
                } else {
                    let rest = if defs.len() == 1 {
                        vcf_from(after_move(after, defs[0], opp(color)), color, depth + 1, max)
                    } else {
                        None
                    };
                    match rest {
                        Some(s) => Some(seq![t] + s),
                        None => vcf_try(b, color, depth, max, threats, k + 1),
                    }
                }
            },
        }
    }
}

/// The VCT of `color` from `b`, searched at `depth` with at most `max`
/// levels, each threat first looked at for a VCF of at most `fmax` levels.
pub open spec fn vct_from(b: Board, color: Stone, depth: int, max: int, fmax: int) -> Option<Seq<Pos>>
    decreases max + 1 - depth, 2int, 0int,
{
    if depth > max {
        None
    } else {
        vct_try(b, color, depth, max, fmax, all_threats(b, color), 0)
    }
}

/// The VCT search at one level, trying the candidates from the `k`-th on:
/// a move wins when it settles the game, when a VCF follows it, or when
/// every defense of it is beaten one level deeper.
pub open spec fn vct_try(
    b: Board,
    color: Stone,
    depth: int,
    max: int,
    fmax: int,
    threats: Seq<Pos>,
    k: int,
) -> Option<Seq<Pos>>
    decreases max + 1 - depth, 1int, threats.len() - k,
{
    if depth > max || k < 0 || k >= threats.len() {
        None
    } else {
        let t = threats[k];
        let after = after_move(b, t, color);
        match settle_spec(after, t, color, move_captures(b, t, color)) {
            Some(true) => Some(seq![t]),
            Some(false) => vct_try(b, color, depth, max, fmax, threats, k + 1),
            None => match vcf_from(after, color, 0, fmax) {
                Some(s) => Some(seq![t] + s),
                None => if vct_beaten(after, color, depth, max, fmax, threat_defenses(after, t, color), 0) {
                    Some(seq![t])
                } else {
                    vct_try(b, color, depth, max, fmax, threats, k + 1)
                },
            },
        }
    }
}

/// Every defense from the `d`-th on, played on `after`, leaves a VCT one
/// level deeper.
pub open spec fn vct_beaten(
    after: Board,
    color: Stone,
    depth: int,
    max: int,
    fmax: int,
    defs: Seq<Pos>,
    d: int,
) -> bool
    decreases max + 1 - depth, 0int, defs.len() - d,
{
    if d < 0 || d >= defs.len() {
        true
    } else if depth > max {
        false
    } else {
        vct_from(after_move(after, defs[d], opp(color)), color, depth + 1, max, fmax) is Some
            && vct_beaten(after, color, depth, max, fmax, defs, d + 1)
    }
}

/// A node count as the counter holds it: it stops at its maximum.
pub open spec fn sat_nodes(n: int) -> u64 {
    if n >= u64::MAX {
        u64::MAX
    } else if n <= 0 {
        0
    } else {
        n as u64
    }
}

/// Counting on from a stopped counter is counting on from the true count.
proof fn lemma_sat_nodes_add(a: int, b: int)
    requires
        0 <= a,
        0 <= b,
    ensures
        sat_nodes(sat_nodes(a) + b) == sat_nodes(a + b),
{
}

/// Nodes that the VCF search from `b` at `depth` visits.
pub open spec fn vcf_nodes(b: Board, color: Stone, depth: int, max: int) -> nat
    decreases max + 1 - depth, four_threats(b, color).len() + 1,
{
    if depth > max {
        1
    } else {
        1 + vcf_try_nodes(b, color, depth, max, four_threats(b, color), 0)
    }
}

/// Nodes that the VCF search visits below one level, from the `k`-th
/// candidate on, until it succeeds or runs out of candidates.
pub open spec fn vcf_try_nodes(b: Board, color: Stone, depth: int, max: int, threats: Seq<Pos>, k: int) -> nat
    decreases max + 1 - depth, threats.len() - k,
{
    if depth > max || k < 0 || k >= threats.len() {
        0
    } else {
        let t = threats[k];
        let after = after_move(b, t, color);
        match settle_spec(after, t, color, move_captures(b, t, color)) {
            Some(true) => 0,
            Some(false) => vcf_try_nodes(b, color, depth, max, threats, k + 1),
            None => {
                let defs = four_defenses(after, t, color);
                if defs.len() == 0 {
                    0
                } else if defs.len() == 1 {
                    let replied = after_move(after, defs[0], opp(color));
                    let sub = vcf_nodes(replied, color, depth + 1, max);
                    if vcf_from(replied, color, depth + 1, max) is Some {
                        sub
                    } else {
                        sub + vcf_try_nodes(b, color, depth, max, threats, k + 1)
                    }
                } else {
                    vcf_try_nodes(b, color, depth, max, threats, k + 1)
                }
            },
        }
    }
}

/// Nodes that the VCT search from `b` at `depth` visits.
pub open spec fn vct_nodes(b: Board, color: Stone, depth: int, max: int, fmax: int) -> nat
    decreases max + 1 - depth, 2int, 0int,
{
    if depth > max {
        1
    } else {
        1 + vct_try_nodes(b, color, depth, max, fmax, all_threats(b, color), 0)
    }
}

/// Nodes that the VCT search visits below one level, from the `k`-th
/// candidate on: the VCF searches after each threat and the searches of the
/// defenses, until it succeeds or runs out of candidates.
pub open spec fn vct_try_nodes(
    b: Board,
    color: Stone,
    depth: int,
    max: int,
    fmax: int,
    threats: Seq<Pos>,
    k: int,
) -> nat
    decreases max + 1 - depth, 1int, threats.len() - k,
{
    if depth > max || k < 0 || k >= threats.len() {
        0
    } else {
        let t = threats[k];
        let after = after_move(b, t, color);
        match settle_spec(after, t, color, move_captures(b, t, color)) {
            Some(true) => 0,
            Some(false) => vct_try_nodes(b, color, depth, max, fmax, threats, k + 1),
            None => {
                let vcf = vcf_nodes(after, color, 0, fmax);
                if vcf_from(after, color, 0, fmax) is Some {
                    vcf
                } else {
                    let defs = threat_defenses(after, t, color);
                    let replies = vct_beaten_nodes(after, color, depth, max, fmax, defs, 0);
                    if defs.len() == 0 || vct_beaten(after, color, depth, max, fmax, defs, 0) {
                        vcf + replies
                    } else {
                        vcf + replies + vct_try_nodes(b, color, depth, max, fmax, threats, k + 1)
                    }
                }
            },
        }
    }
}

/// Nodes that the searches of the defenses from the `d`-th on visit, up to
/// the first defense that is not beaten.
pub open spec fn vct_beaten_nodes(
    after: Board,
    color: Stone,
    depth: int,
    max: int,
    fmax: int,
    defs: Seq<Pos>,
    d: int,
) -> nat
    decreases max + 1 - depth, 0int, defs.len() - d,
{
    if d < 0 || d >= defs.len() || depth > max {
        0
    } else {
        let replied = after_move(after, defs[d], opp(color));
        let sub = vct_nodes(replied, color, depth + 1, max, fmax);
        if vct_from(replied, color, depth + 1, max, fmax) is Some {
            sub + vct_beaten_nodes(after, color, depth, max, fmax, defs, d + 1)
        } else {
            sub
        }
    }
}

/// Two lists of cells in board order that hold the same cells are the same
/// list.
pub proof fn lemma_same_cells_in_order(v1: Seq<Pos>, v2: Seq<Pos>)
    requires
        forall|a: int, c: int| 0 <= a < c < v1.len() ==> v1[a].idx() < v1[c].idx(),
        forall|a: int, c: int| 0 <= a < c < v2.len() ==> v2[a].idx() < v2[c].idx(),
        forall|k: int| 0 <= k < v1.len() ==> (#[trigger] v1[k]).valid(),
        forall|k: int| 0 <= k < v2.len() ==> (#[trigger] v2[k]).valid(),
        forall|p: Pos| #[trigger] v1.contains(p) == v2.contains(p),
    ensures
        v1 == v2,
{
    assert forall|i: int| 0 <= i < v1.len() && i < v2.len() implies v1[i] == v2[i] by {
        lemma_ordered_prefix(v1, v2, i);
    }
    if v1.len() > v2.len() {
        let n = v2.len() as int;
        assert(v1.contains(v1[n]));
        assert(v2.contains(v1[n]));
        let q = choose|q: int| 0 <= q < v2.len() && v2[q] == v1[n];
        lemma_ordered_prefix(v1, v2, q);
        assert(v1[q].idx() < v1[n].idx());
    } else if v2.len() > v1.len() {
        let n = v1.len() as int;
        assert(v2.contains(v2[n]));
        assert(v1.contains(v2[n]));
        let q = choose|q: int| 0 <= q < v1.len() && v1[q] == v2[n];
        lemma_ordered_prefix(v1, v2, q);
        assert(v2[q].idx() < v2[n].idx());
    }
    assert(v1 =~= v2);
}

/// Two such lists agree on their first `i + 1` entries.
proof fn lemma_ordered_prefix(v1: Seq<Pos>, v2: Seq<Pos>, i: int)
    requires
        forall|a: int, c: int| 0 <= a < c < v1.len() ==> v1[a].idx() < v1[c].idx(),
        forall|a: int, c: int| 0 <= a < c < v2.len() ==> v2[a].idx() < v2[c].idx(),
        forall|k: int| 0 <= k < v1.len() ==> (#[trigger] v1[k]).valid(),
        forall|k: int| 0 <= k < v2.len() ==> (#[trigger] v2[k]).valid(),
        forall|p: Pos| #[trigger] v1.contains(p) == v2.contains(p),
        0 <= i < v1.len(),
        i < v2.len(),
    ensures
        forall|j: int| 0 <= j <= i ==> v1[j] == v2[j],
    decreases i,
{
    if i > 0 {
        lemma_ordered_prefix(v1, v2, i - 1);
    }
    assert(v1.contains(v1[i]));
    assert(v2.contains(v1[i]));
    assert(v2.contains(v2[i]));
    assert(v1.contains(v2[i]));
    let q = choose|q: int| 0 <= q < v2.len() && v2[q] == v1[i];
    let r = choose|r: int| 0 <= r < v1.len() && v1[r] == v2[i];
    if q < i {
        assert(v1[q] == v2[q]);
        assert(v1[q].idx() < v1[i].idx());
    }
    if r < i {
        assert(v1[r] == v2[r]);
        assert(v2[r].idx() < v2[i].idx());
    }
    if q > i {
        assert(v2[i].idx() < v2[q].idx());
        if r > i {
            assert(v1[i].idx() < v1[r].idx());
        }
    }
    assert(q == i || r == i);
    lemma_idx_injective(v1[i], v2[i]);
}

/// A list of the defenses against a four is `four_defenses`.
proof fn lemma_four_defenses(b: Board, t: Pos, a: Stone, v: Seq<Pos>)
    requires
        lists_four_defenses(b, t, a, v),
    ensures
        four_defenses(b, t, a) == v,
{
    let w = four_defenses(b, t, a);
    assert(lists_four_defenses(b, t, a, w));
    assert forall|p: Pos| #[trigger] v.contains(p) == w.contains(p) by {
        assert(v.contains(p) == four_defense(b, t, a, p));
        assert(w.contains(p) == four_defense(b, t, a, p));
    }
    lemma_same_cells_in_order(v, w);
}

/// A list of the defenses against a threat is `threat_defenses`.
proof fn lemma_threat_defenses(b: Board, t: Pos, a: Stone, v: Seq<Pos>)
    requires
        lists_threat_defenses(b, t, a, v),
    ensures
        threat_defenses(b, t, a) == v,
{
    let w = threat_defenses(b, t, a);
    assert(lists_threat_defenses(b, t, a, w));
    assert forall|p: Pos| #[trigger] v.contains(p) == w.contains(p) by {
        assert(v.contains(p) == threat_defense(b, t, a, p));
        assert(w.contains(p) == threat_defense(b, t, a, p));
    }
    lemma_same_cells_in_order(v, w);
}

/// A VCF that the search finds starts with one of its candidate moves: a
/// move that wins at once or makes a four.
pub proof fn lemma_vcf_starts_with_four(b: Board, color: Stone, depth: int, max: int)
    ensures
        vcf_from(b, color, depth, max) matches Some(s) ==> s.len() >= 1 && four_threats(b, color).contains(s[0]),
{
    if depth <= max {
        lemma_vcf_try_first(b, color, depth, max, four_threats(b, color), 0);
    }
}

/// The first move of what `vcf_try` finds is one of its candidates.
proof fn lemma_vcf_try_first(b: Board, color: Stone, depth: int, max: int, threats: Seq<Pos>, k: int)
    requires
        0 <= k,
    ensures
        vcf_try(b, color, depth, max, threats, k) matches Some(s) ==> s.len() >= 1 && threats.contains(s[0]),
    decreases threats.len() - k,
{
    if depth <= max && k < threats.len() {
        lemma_vcf_try_first(b, color, depth, max, threats, k + 1);
        let t = threats[k];
        let after = after_move(b, t, color);
        let defs = four_defenses(after, t, color);
        if defs.len() == 1 {
            match vcf_from(after_move(after, defs[0], opp(color)), color, depth + 1, max) {
                Some(rest) => {
                    assert((seq![t] + rest)[0] == t);
                },
                None => {},
            }
        }
        assert(seq![t][0] == t);
    }
}

/// A VCT that the search finds starts with one of its candidate moves: a
/// move that wins at once or makes a four or an open three.
pub proof fn lemma_vct_starts_with_threat(b: Board, color: Stone, depth: int, max: int, fmax: int)
    ensures
        vct_from(b, color, depth, max, fmax) matches Some(s) ==> s.len() >= 1 && all_threats(b, color).contains(s[0]),
{
    if depth <= max {
        lemma_vct_try_first(b, color, depth, max, fmax, all_threats(b, color), 0);
    }
}

/// The first move of what `vct_try` finds is one of its candidates.
proof fn lemma_vct_try_first(b: Board, color: Stone, depth: int, max: int, fmax: int, threats: Seq<Pos>, k: int)
    requires
        0 <= k,
    ensures
        vct_try(b, color, depth, max, fmax, threats, k) matches Some(s) ==> s.len() >= 1 && threats.contains(s[0]),
    decreases threats.len() - k,
{
    if depth <= max && k < threats.len() {
        lemma_vct_try_first(b, color, depth, max, fmax, threats, k + 1);
        let t = threats[k];
        let after = after_move(b, t, color);
        match vcf_from(after, color, 0, fmax) {
            Some(rest) => {
                assert((seq![t] + rest)[0] == t);
            },
            None => {},
        }
        assert(seq![t][0] == t);
    }
}

/// A board that follows from a move is `after_move` of it.
pub proof fn lemma_after_move(b: Board, p: Pos, color: Stone, a: Board)
    requires
        moved(b, p, color, a),
    ensures
        after_move(b, p, color) == a,
{
    lemma_moved_unique(b, p, color, after_move(b, p, color), a);
}

/// A board with the stone placed is `placed_board` of it.
proof fn lemma_placed_board(b: Board, p: Pos, color: Stone, m: Board)
    requires
        placed(b, p, color, m),
    ensures
        placed_board(b, p, color) == m,
{
    let m2 = placed_board(b, p, color);
    assert(m2.same_position(m));
    Board::lemma_ext(m2, m);
}

/// Result of a VCF/VCT search.
#[derive(Debug, Clone)]
pub struct ThreatResult {
    /// The winning sequence (attacker moves only).
    pub winning_sequence: Vec<Pos>,
    /// Whether a forced win was found.
    pub found: bool,
}

impl ThreatResult {
    /// No forced win.
    fn not_found() -> (r: ThreatResult)
        ensures
            !r.found,
            r.winning_sequence@.len() == 0,
    {
        ThreatResult { winning_sequence: Vec::new(), found: false }
    }

    /// A forced win with its sequence.
    fn found(sequence: Vec<Pos>) -> (r: ThreatResult)
        ensures
            r.found,
            r.winning_sequence@ == sequence@,
    {
        ThreatResult { winning_sequence: sequence, found: true }
    }
}

/// Length of the run of `color` next to `pos` along (dr, dc); its cells are
/// appended to `out`; also whether the cell past the run is open.
fn scan_side(board: &Board, pos: Pos, color: Stone, dr: i32, dc: i32, record: bool, out: &mut Vec<Pos>) -> (res: (
    u32,
    bool,
    Pos,
))
    requires
        pos.valid(),
        -1 <= dr <= 1,
        -1 <= dc <= 1,
    ensures
        res.0 == side_run(*board, pos, color, dr as int, dc as int),
        res.0 <= 19,
        res.1 == side_open(*board, pos, color, dr as int, dc as int),
        res.1 ==> res.2 == end_pos(*board, pos, color, dr as int, dc as int) && res.2.valid(),
        final(out)@ == old(out)@ + if record {
            run_cells(*board, pos.row + dr, pos.col + dc, dr as int, dc as int, color, 19)
        } else {
            Seq::empty()
        },
{
    let n = scan_run(board, pos.row as i32 + dr, pos.col as i32 + dc, dr, dc, color, 19, record, out);
    if n >= 19 {
        return (n, false, pos);
    }
    let step = n as i32 + 1;
    let er = if dr > 0 {
        pos.row as i32 + step
    } else if dr < 0 {
        pos.row as i32 - step
    } else {
        pos.row as i32
    };
    let ec = if dc > 0 {
        pos.col as i32 + step
    } else if dc < 0 {
        pos.col as i32 - step
    } else {
        pos.col as i32
    };
    proof {
        let m = n as int + 1;
        assert(m * (dr as int) == if dr > 0 {
            m
        } else if dr < 0 {
            -m
        } else {
            0
        }) by (nonlinear_arith)
            requires
                -1 <= dr <= 1,
        ;
        assert(m * (dc as int) == if dc > 0 {
            m
        } else if dc < 0 {
            -m
        } else {
            0
        }) by (nonlinear_arith)
            requires
                -1 <= dc <= 1,
        ;
        assert(er == end_row(*board, pos, color, dr as int, dc as int));
        assert(ec == end_col(*board, pos, color, dr as int, dc as int));
    }
    if Pos::is_valid(er, ec) && stone_at(board, er, ec) == Stone::Empty {
        proof {
            lemma_pos_of(er as int, ec as int);
        }
        (n, true, Pos::new(er as u8, ec as u8))
    } else {
        (n, false, pos)
    }
}

/// A vector of 361 `false` flags.
fn no_cells() -> (v: Vec<bool>)
    ensures
        v@.len() == TOTAL_CELLS,
        forall|i: int| 0 <= i < 361 ==> !#[trigger] v@[i],
{
    let mut v: Vec<bool> = Vec::new();
    let mut i: usize = 0;
    while i < TOTAL_CELLS
        invariant
            0 <= i <= 361,
            v@.len() == i,
            forall|k: int| 0 <= k < i ==> !#[trigger] v@[k],
        decreases 361 - i,
    {
        v.push(false);
        i = i + 1;
    }
    v
}

/// The positions of the flagged cells, in board order.
fn flagged_cells(marks: &Vec<bool>) -> (v: Vec<Pos>)
    requires
        marks@.len() == TOTAL_CELLS,
    ensures
        forall|p: Pos| #[trigger] v@.contains(p) <==> (p.valid() && marks@[p.idx()]),
        forall|a: int, c: int| 0 <= a < c < v.len() ==> v[a].idx() < v[c].idx(),
        forall|k: int| 0 <= k < v.len() ==> (#[trigger] v[k]).valid(),
{
    let mut v: Vec<Pos> = Vec::new();
    let mut i: usize = 0;
    while i < TOTAL_CELLS
        invariant
            0 <= i <= 361,
            marks@.len() == 361,
            forall|p: Pos| #[trigger] v@.contains(p) <==> (p.valid() && p.idx() < i && marks@[p.idx()]),
            forall|a: int, c: int| 0 <= a < c < v.len() ==> v[a].idx() < v[c].idx(),
            forall|k: int| 0 <= k < v.len() ==> (#[trigger] v[k]).valid() && v[k].idx() < i,
        decreases 361 - i,
    {
        let p = Pos::new((i / 19) as u8, (i % 19) as u8);
        assert(p.idx() == i);
        if marks[i] {
            let ghost old_v = v@;
            v.push(p);
            assert forall|q: Pos| #[trigger] v@.contains(q) <==> (q.valid() && q.idx() < i + 1
                && marks@[q.idx()]) by {
                if v@.contains(q) {
                    let k = choose|k: int| 0 <= k < v@.len() && v@[k] == q;
                    if k < old_v.len() {
                        assert(old_v.contains(q));
                    }
                }
                if q.valid() && q.idx() < i + 1 && marks@[q.idx()] {
                    if q.idx() < i {
                        assert(old_v.contains(q));
                        let k = choose|k: int| 0 <= k < old_v.len() && old_v[k] == q;
                        assert(v@[k] == q);
                    } else {
                        assert(q == p);
                        assert(v@[v@.len() - 1] == q);
                    }
                }
            }
        } else {
            assert forall|q: Pos| #[trigger] v@.contains(q) <==> (q.valid() && q.idx() < i + 1
                && marks@[q.idx()]) by {
                if q.valid() && q.idx() == i {
                    assert(q == p);
                }
            }
        }
        i = i + 1;
    }
    v
}

/// Whether some position of `cells` is flagged in `marks`.
fn any_flagged(marks: &Vec<bool>, cells: &Vec<Pos>) -> (b: bool)
    requires
        marks@.len() == TOTAL_CELLS,
        forall|k: int| 0 <= k < cells.len() ==> (#[trigger] cells[k]).valid(),
    ensures
        b == exists|q: int| 0 <= q < cells.len() && #[trigger] marks@[cells[q].idx()],
{
    let mut k: usize = 0;
    while k < cells.len()
        invariant
            0 <= k <= cells.len(),
            marks@.len() == 361,
            forall|q: int| 0 <= q < cells.len() ==> (#[trigger] cells[q]).valid(),
            forall|q: int| 0 <= q < k ==> !#[trigger] marks@[cells[q].idx()],
        decreases cells.len() - k,
    {
        if marks[cells[k].to_index()] {
            return true;
        }
        k = k + 1;
    }
    false
}

/// Threat searcher for VCF/VCT.
pub struct ThreatSearcher {
    /// Maximum depth of the VCF search (number of four-threats).
    pub max_vcf_depth: u8,
    /// Maximum depth of the VCT search (number of threats).
    pub max_vct_depth: u8,
    /// Node counter.
    pub nodes: u64,
}

impl ThreatSearcher {
    /// Threat searcher with the default limits (VCF 30, VCT 20).
    pub fn new() -> (t: ThreatSearcher)
        ensures
            t.max_vcf_depth == 30,
            t.max_vct_depth == 20,
            t.nodes == 0,
    {
        ThreatSearcher { max_vcf_depth: 30, max_vct_depth: 20, nodes: 0 }
    }

    /// Threat searcher with custom depth limits.
    pub fn with_depths(vcf_depth: u8, vct_depth: u8) -> (t: ThreatSearcher)
        ensures
            t.max_vcf_depth == vcf_depth,
            t.max_vct_depth == vct_depth,
            t.nodes == 0,
    {
        ThreatSearcher { max_vcf_depth: vcf_depth, max_vct_depth: vct_depth, nodes: 0 }
    }

    /// Number of nodes searched.
    pub fn nodes(&self) -> (n: u64)
        ensures
            n == self.nodes,
    {
        self.nodes
    }

    /// Reset the node counter.
    pub fn reset_nodes(&mut self)
        ensures
            final(self).nodes == 0,
            final(self).max_vcf_depth == old(self).max_vcf_depth,
            final(self).max_vct_depth == old(self).max_vct_depth,
    {
        self.nodes = 0;
    }

    /// Count one node (the counter stops at its maximum).
    fn count_node(&mut self)
        ensures
            final(self).nodes == sat_nodes(old(self).nodes + 1),
            final(self).nodes >= 1,
            final(self).nodes >= old(self).nodes,
            final(self).max_vcf_depth == old(self).max_vcf_depth,
            final(self).max_vct_depth == old(self).max_vct_depth,
    {
        if self.nodes < u64::MAX {
            self.nodes = self.nodes + 1;
        }
    }

    /// Whether placing `color` at `pos` makes five or more in a row.
    pub fn creates_five_or_more(&self, board: &Board, pos: Pos, color: Stone) -> (b: bool)
        requires
            pos.valid(),
        ensures
            b == makes_five(*board, pos, color),
    {
        let mut j: usize = 0;
        while j < 4
            invariant
                0 <= j <= 4,
                pos.valid(),
                forall|q: int| 0 <= q < j ==> #[trigger] line_count(*board, pos, color, q) < 5,
            decreases 4 - j,
        {
            if line_length(board, pos, color, j) >= 5 {
                return true;
            }
            j = j + 1;
        }
        false
    }

    /// Stone count and open ends of the line through `pos` along direction `j`.
    pub(crate) fn line_shape(board: &Board, pos: Pos, color: Stone, j: usize) -> (r: (u32, u32))
        requires
            pos.valid(),
            j < 4,
        ensures
            r.0 == line_count(*board, pos, color, j as int),
            r.1 == open_ends(*board, pos, color, j as int),
    {
        let (dr, dc) = line_dir(j);
        let mut scratch: Vec<Pos> = Vec::new();
        let (a, oa, _ea) = scan_side(board, pos, color, dr, dc, false, &mut scratch);
        let (b, ob, _eb) = scan_side(board, pos, color, -dr, -dc, false, &mut scratch);
        let count = 1 + a + b;
        let opens: u32 = if oa { 1 } else { 0 } + if ob { 1 } else { 0 };
        (count, opens)
    }

    /// Whether placing `color` at `pos` makes exactly four in a row with at
    /// least one open end.
    pub fn creates_four(&self, board: &Board, pos: Pos, color: Stone) -> (b: bool)
        requires
            pos.valid(),
        ensures
            b == makes_four(*board, pos, color),
    {
        let mut j: usize = 0;
        while j < 4
            invariant
                0 <= j <= 4,
                pos.valid(),
                forall|q: int|
                    0 <= q < j ==> !(#[trigger] line_count(*board, pos, color, q) == 4 && open_ends(
                        *board,
                        pos,
                        color,
                        q,
                    ) >= 1),
            decreases 4 - j,
        {
            let (count, opens) = Self::line_shape(board, pos, color, j);
            if count == 4 && opens >= 1 {
                return true;
            }
            j = j + 1;
        }
        false
    }

    /// Whether placing `color` at `pos` makes exactly three in a row with both
    /// ends open.
    pub fn creates_open_three(&self, board: &Board, pos: Pos, color: Stone) -> (b: bool)
        requires
            pos.valid(),
        ensures
            b == makes_open_three(*board, pos, color),
    {
        let mut j: usize = 0;
        while j < 4
            invariant
                0 <= j <= 4,
                pos.valid(),
                forall|q: int|
                    0 <= q < j ==> !(#[trigger] line_count(*board, pos, color, q) == 3 && open_ends(
                        *board,
                        pos,
                        color,
                        q,
                    ) == 2),
            decreases 4 - j,
        {
            let (count, opens) = Self::line_shape(board, pos, color, j);
            if count == 3 && opens == 2 {
                return true;
            }
            j = j + 1;
        }
        false
    }

    /// All legal moves of `color` that make a five, then all that make a
    /// four, each in board order.
    pub fn find_four_threats(&self, board: &Board, color: Stone) -> (v: Vec<Pos>)
        ensures
            v@ == four_threats(*board, color),
    {
        let mut winning_moves: Vec<Pos> = Vec::new();
        let mut four_threats_v: Vec<Pos> = Vec::new();
        let mut i: usize = 0;
        while i < TOTAL_CELLS
            invariant
                0 <= i <= 361,
                winning_moves@ == five_moves(*board, color, i as int),
                four_threats_v@ == four_moves(*board, color, i as int),
            decreases 361 - i,
        {
            let pos = Pos::new((i / 19) as u8, (i % 19) as u8);
            assert(pos == cell_pos(i as int));
            if is_valid_move(board, pos, color) {
                if self.creates_five_or_more(board, pos, color) {
                    winning_moves.push(pos);
                } else if self.creates_four(board, pos, color) {
                    four_threats_v.push(pos);
                }
            }
            i = i + 1;
        }
        let mut k: usize = 0;
        let ghost w0 = winning_moves@;
        while k < four_threats_v.len()
            invariant
                0 <= k <= four_threats_v.len(),
                winning_moves@ == w0 + four_threats_v@.take(k as int),
            decreases four_threats_v.len() - k,
        {
            winning_moves.push(four_threats_v[k]);
            proof {
                assert(four_threats_v@.take(k as int + 1) =~= four_threats_v@.take(k as int).push(
                    four_threats_v@[k as int],
                ));
            }
            k = k + 1;
        }
        proof {
            assert(four_threats_v@.take(four_threats_v.len() as int) =~= four_threats_v@);
        }
        winning_moves
    }

    /// All legal moves of `color` that make a five, then a four, then an open
    /// three, each in board order.
    pub fn find_all_threats(&self, board: &Board, color: Stone) -> (v: Vec<Pos>)
        ensures
            v@ == all_threats(*board, color),
    {
        let mut winning_moves: Vec<Pos> = Vec::new();
        let mut four_v: Vec<Pos> = Vec::new();
        let mut three_v: Vec<Pos> = Vec::new();
        let mut i: usize = 0;
        while i < TOTAL_CELLS
            invariant
                0 <= i <= 361,
                winning_moves@ == five_moves(*board, color, i as int),
                four_v@ == four_moves(*board, color, i as int),
                three_v@ == three_moves(*board, color, i as int),
            decreases 361 - i,
        {
            let pos = Pos::new((i / 19) as u8, (i % 19) as u8);
            assert(pos == cell_pos(i as int));
            if is_valid_move(board, pos, color) {
                if self.creates_five_or_more(board, pos, color) {
                    winning_moves.push(pos);
                } else if self.creates_four(board, pos, color) {
                    four_v.push(pos);
                } else if self.creates_open_three(board, pos, color) {
                    three_v.push(pos);
                }
            }
            i = i + 1;
        }
        append_all(&mut winning_moves, &four_v);
        append_all(&mut winning_moves, &three_v);
        winning_moves
    }

    /// Whether the captured stones of a move free a cell where the
    /// defender completes five.
    fn frees_defender_five(&self, board: &Board, info: &CaptureInfo, defender: Stone) -> (b: bool)
        requires
            info.wf(),
        ensures
            b == exists|k: int| 0 <= k < info.count && #[trigger] makes_five(*board, info.positions[k], defender),
    {
        let mut k: usize = 0;
        while k < info.count as usize
            invariant
                info.wf(),
                0 <= k <= info.count,
                forall|q: int| 0 <= q < k ==> !#[trigger] makes_five(*board, info.positions[q], defender),
            decreases info.count - k,
        {
            if self.creates_five_or_more(board, info.positions[k], defender) {
                return true;
            }
            k = k + 1;
        }
        false
    }

    /// What playing a candidate move settles at once: `Some(true)` for an
    /// unbreakable five or a capture win, `Some(false)` when the move must be
    /// skipped (a breakable five, or captures that free a defender five),
    /// `None` when the search goes on.
    fn settle_move(&self, after: &Board, mov: Pos, color: Stone, info: &CaptureInfo) -> (r: Option<bool>)
        requires
            mov.valid(),
            info.wf(),
        ensures
            r == settle_spec(*after, mov, color, info.list()),
    {
        let mut found_win = false;
        let mut is_breakable_five = false;
        if has_five_at_pos(after, mov, color) {
            match find_five_positions(after, color) {
                Some(five) => {
                    if !can_break_five_by_capture(after, five.as_slice(), color) {
                        found_win = true;
                    } else {
                        is_breakable_five = true;
                    }
                },
                None => {},
            }
        }
        proof {
            let five = makes_five(*after, mov, color);
            let (whole, broken) = match find_five_spec(*after, color) {
                Some(f) => (five && !breakable(*after, f, color), five && breakable(*after, f, color)),
                None => (false, false),
            };
            assert(found_win == whole && is_breakable_five == broken);
        }
        if !found_win && after.captures(color) >= 5 {
            found_win = true;
        }
        if found_win {
            return Some(true);
        }
        if is_breakable_five {
            return Some(false);
        }
        let ghost caps = info.list();
        proof {
            assert forall|k: int| 0 <= k < caps.len() implies caps[k] == info.positions[k] by {}
        }
        if info.count > 0 && self.frees_defender_five(after, info, color.opponent()) {
            proof {
                let k = choose|k: int| 0 <= k < info.count && #[trigger] makes_five(*after, info.positions[k], opp(color));
                assert(makes_five(*after, caps[k], opp(color)));
            }
            return Some(false);
        }
        proof {
            assert forall|k: int| 0 <= k < caps.len() implies !#[trigger] makes_five(*after, caps[k], opp(color)) by {
                assert(caps[k] == info.positions[k]);
            }
        }
        None
    }

    /// Recursive VCF search. On success the winning sequence is appended to
    /// `sequence`; on failure `sequence` is left as it was.
    #[verifier::spinoff_prover]
    #[verifier::rlimit(40)]
    fn vcf_search_mut(
        &mut self,
        board: &Board,
        color: Stone,
        depth: u16,
        max_depth: u8,
        sequence: &mut Vec<Pos>,
    ) -> (found: bool)
        requires
            depth <= max_depth + 1,
        ensures
            final(self).max_vcf_depth == old(self).max_vcf_depth,
            final(self).max_vct_depth == old(self).max_vct_depth,
            final(self).nodes >= 1,
            final(self).nodes == sat_nodes(old(self).nodes + vcf_nodes(*board, color, depth as int, max_depth as int)),
            found == vcf_from(*board, color, depth as int, max_depth as int) is Some,
            match vcf_from(*board, color, depth as int, max_depth as int) {
                Some(s) => final(sequence)@ == old(sequence)@ + s,
                None => final(sequence)@ == old(sequence)@,
            },
        decreases max_depth + 1 - depth,
    {
        self.count_node();
        if depth > max_depth as u16 {
            return false;
        }
        let threats = self.find_four_threats(board, color);
        proof {
            lemma_threat_lists(*board, color);
        }
        let ghost seq0 = sequence@;
        let ghost goal = vcf_from(*board, color, depth as int, max_depth as int);
        let ghost total = old(self).nodes + vcf_nodes(*board, color, depth as int, max_depth as int);
        proof {
            lemma_sat_nodes_add(old(self).nodes + 1, vcf_try_nodes(*board, color, depth as int, max_depth as int, threats@, 0) as int);
        }
        let mut k: usize = 0;
        while k < threats.len()
            invariant
                0 <= k <= threats.len(),
                depth <= max_depth,
                threats@ == four_threats(*board, color),
                forall|q: int| 0 <= q < threats.len() ==> (#[trigger] threats[q]).valid(),
                sequence@ == seq0,
                seq0 == old(sequence)@,
                goal == vcf_from(*board, color, depth as int, max_depth as int),
                goal == vcf_try(*board, color, depth as int, max_depth as int, threats@, k as int),
                total == old(self).nodes + vcf_nodes(*board, color, depth as int, max_depth as int),
                sat_nodes(self.nodes + vcf_try_nodes(*board, color, depth as int, max_depth as int, threats@, k as int))
                    == sat_nodes(total),
                self.max_vcf_depth == old(self).max_vcf_depth,
                self.max_vct_depth == old(self).max_vct_depth,
                self.nodes >= 1,
            decreases threats.len() - k,
        {
            let threat_move = threats[k];
            let mut after = *board;
            after.place_stone(threat_move, color);
            let ghost placed_b = after;
            let cap_info = execute_captures_fast(&mut after, threat_move, color);
            proof {
                assert(placed(*board, threat_move, color, placed_b));
                assert(cap_info.list().len() == cap_info.count);
                assert(moved(*board, threat_move, color, after));
                lemma_after_move(*board, threat_move, color, after);
                lemma_placed_board(*board, threat_move, color, placed_b);
            }
            sequence.push(threat_move);
            let settled = self.settle_move(&after, threat_move, color, &cap_info);
            match settled {
                Some(true) => {
                    proof {
                        assert(sequence@ =~= seq0 + seq![threat_move]);
                    }
                    return true;
                },
                Some(false) => {
                    sequence.pop();
                    proof {
                        assert(sequence@ =~= seq0);
                    }
                    k = k + 1;
                    continue;
                },
                None => {},
            }
            let defenses = self.find_defense_moves(&after, threat_move, color);
            proof {
                lemma_four_defenses(after, threat_move, color, defenses@);
            }
            if defenses.len() == 0 {
                proof {
                    assert(sequence@ =~= seq0 + seq![threat_move]);
                }
                return true;
            }
            if defenses.len() == 1 {
                let defense = defenses[0];
                let defender = color.opponent();
                let mut replied = after;
                replied.place_stone(defense, defender);
                let ghost placed_r = replied;
                let def_cap = execute_captures_fast(&mut replied, defense, defender);
                proof {
                    assert(placed(after, defense, defender, placed_r));
                    assert(def_cap.list().len() == def_cap.count);
                    assert(moved(after, defense, defender, replied));
                    lemma_after_move(after, defense, defender, replied);
                }
                let ghost seq1 = sequence@;
                let ghost n_before = self.nodes;
                let result = self.vcf_search_mut(&replied, color, depth + 1, max_depth, sequence);
                proof {
                    let sub = vcf_nodes(replied, color, depth + 1, max_depth as int);
                    let rest = vcf_try_nodes(*board, color, depth as int, max_depth as int, threats@, k as int + 1);
                    lemma_sat_nodes_add(n_before as int + sub, rest as int);
                    lemma_sat_nodes_add(n_before as int + sub, 0);
                }
                if result {
                    proof {
                        let sub = vcf_from(replied, color, depth + 1, max_depth as int)->0;
                        assert(seq1 =~= seq0 + seq![threat_move]);
                        assert(sequence@ =~= seq0 + (seq![threat_move] + sub));
                    }
                    return true;
                }
            }
            sequence.pop();
            proof {
                assert(sequence@ =~= seq0);
            }
            k = k + 1;
        }
        false
    }

    /// Search for a VCF (victory by continuous fours) of `color`.
    pub fn search_vcf(&mut self, board: &Board, color: Stone) -> (r: ThreatResult)
        ensures
            final(self).max_vcf_depth == old(self).max_vcf_depth,
            final(self).max_vct_depth == old(self).max_vct_depth,
            final(self).nodes >= 1,
            final(self).nodes == sat_nodes(vcf_nodes(*board, color, 0, old(self).max_vcf_depth as int) as int),
            r.found == vcf_from(*board, color, 0, old(self).max_vcf_depth as int) is Some,
            match vcf_from(*board, color, 0, old(self).max_vcf_depth as int) {
                Some(s) => r.winning_sequence@ == s,
                None => r.winning_sequence@.len() == 0,
            },
            r.found ==> r.winning_sequence@.len() >= 1 && four_threats(*board, color).contains(
                r.winning_sequence@[0],
            ),
    {
        self.nodes = 0;
        let mut sequence: Vec<Pos> = Vec::new();
        let max = self.max_vcf_depth;
        proof {
            lemma_vcf_starts_with_four(*board, color, 0, max as int);
        }
        if self.vcf_search_mut(board, color, 0, max, &mut sequence) {
            proof {
                assert(sequence@ =~= vcf_from(*board, color, 0, max as int)->0);
            }
            ThreatResult::found(sequence)
        } else {
            ThreatResult::not_found()
        }
    }

    /// Recursive VCT search. On success the sequence found is appended to
    /// `sequence`; on failure `sequence` is left as it was.
    #[verifier::spinoff_prover]
    #[verifier::rlimit(60)]
    fn vct_search_mut(
        &mut self,
        board: &Board,
        color: Stone,
        depth: u16,
        max_depth: u8,
        sequence: &mut Vec<Pos>,
    ) -> (found: bool)
        requires
            depth <= max_depth + 1,
        ensures
            final(self).max_vcf_depth == old(self).max_vcf_depth,
            final(self).max_vct_depth == old(self).max_vct_depth,
            final(self).nodes >= 1,
            final(self).nodes == sat_nodes(
                old(self).nodes + vct_nodes(*board, color, depth as int, max_depth as int, old(self).max_vcf_depth as int),
            ),
            found == vct_from(*board, color, depth as int, max_depth as int, old(self).max_vcf_depth as int) is Some,
            match vct_from(*board, color, depth as int, max_depth as int, old(self).max_vcf_depth as int) {
                Some(s) => final(sequence)@ == old(sequence)@ + s,
                None => final(sequence)@ == old(sequence)@,
            },
        decreases max_depth + 1 - depth,
    {
        self.count_node();
        if depth > max_depth as u16 {
            return false;
        }
        let threats = self.find_all_threats(board, color);
        proof {
            lemma_threat_lists(*board, color);
        }
        let ghost seq0 = sequence@;
        let ghost fmax = self.max_vcf_depth as int;
        let ghost goal = vct_from(*board, color, depth as int, max_depth as int, fmax);
        let ghost total = old(self).nodes + vct_nodes(*board, color, depth as int, max_depth as int, fmax);
        proof {
            lemma_sat_nodes_add(
                old(self).nodes + 1,
                vct_try_nodes(*board, color, depth as int, max_depth as int, fmax, threats@, 0) as int,
            );
        }
        let mut k: usize = 0;
        while k < threats.len()
            invariant
                0 <= k <= threats.len(),
                depth <= max_depth,
                threats@ == all_threats(*board, color),
                forall|q: int| 0 <= q < threats.len() ==> (#[trigger] threats[q]).valid(),
                sequence@ == seq0,
                seq0 == old(sequence)@,
                fmax == old(self).max_vcf_depth,
                goal == vct_from(*board, color, depth as int, max_depth as int, fmax),
                goal == vct_try(*board, color, depth as int, max_depth as int, fmax, threats@, k as int),
                total == old(self).nodes + vct_nodes(*board, color, depth as int, max_depth as int, fmax),
                sat_nodes(self.nodes + vct_try_nodes(*board, color, depth as int, max_depth as int, fmax, threats@, k as int))
                    == sat_nodes(total),
                self.max_vcf_depth == old(self).max_vcf_depth,
                self.max_vct_depth == old(self).max_vct_depth,
                self.nodes >= 1,
            decreases threats.len() - k,
        {
            let threat_move = threats[k];
            let mut after = *board;
            after.place_stone(threat_move, color);
            let ghost placed_b = after;
            let cap_info = execute_captures_fast(&mut after, threat_move, color);
            proof {
                assert(placed(*board, threat_move, color, placed_b));
                assert(cap_info.list().len() == cap_info.count);
                assert(moved(*board, threat_move, color, after));
                lemma_after_move(*board, threat_move, color, after);
                lemma_placed_board(*board, threat_move, color, placed_b);
            }
            sequence.push(threat_move);
            let settled = self.settle_move(&after, threat_move, color, &cap_info);
            match settled {
                Some(true) => {
                    proof {
                        assert(sequence@ =~= seq0 + seq![threat_move]);
                    }
                    return true;
                },
                Some(false) => {
                    sequence.pop();
                    proof {
                        assert(sequence@ =~= seq0);
                    }
                    k = k + 1;
                    continue;
                },
                None => {},
            }
            let mut vcf_seq: Vec<Pos> = Vec::new();
            let vcf_max = self.max_vcf_depth;
            let ghost n0 = self.nodes as int;
            let ghost vn = vcf_nodes(after, color, 0, fmax) as int;
            let ghost rest = vct_try_nodes(*board, color, depth as int, max_depth as int, fmax, threats@, k as int + 1) as int;
            if self.vcf_search_mut(&after, color, 0, vcf_max, &mut vcf_seq) {
                let ghost seq1 = sequence@;
                append_all(sequence, &vcf_seq);
                proof {
                    assert(seq1 =~= seq0 + seq![threat_move]);
                    assert(vcf_seq@ =~= vcf_from(after, color, 0, fmax)->0);
                    assert(sequence@ =~= seq0 + (seq![threat_move] + vcf_seq@));
                }
                return true;
            }
            let defenses = self.find_threat_defenses(&after, threat_move, color);
            proof {
                lemma_threat_defenses(after, threat_move, color, defenses@);
            }
            if defenses.len() == 0 {
                proof {
                    assert(vct_beaten(after, color, depth as int, max_depth as int, fmax, defenses@, 0));
                    assert(vct_beaten_nodes(after, color, depth as int, max_depth as int, fmax, defenses@, 0) == 0);
                    assert(sequence@ =~= seq0 + seq![threat_move]);
                }
                return true;
            }
            let mut all_defenses_beaten = true;
            let defender = color.opponent();
            let ghost beaten_goal = vct_beaten(after, color, depth as int, max_depth as int, fmax, defenses@, 0);
            let ghost b0 = vct_beaten_nodes(after, color, depth as int, max_depth as int, fmax, defenses@, 0) as int;
            proof {
                lemma_sat_nodes_add(n0 + vn, b0);
            }
            let mut d: usize = 0;
            while d < defenses.len() && all_defenses_beaten
                invariant
                    0 <= d <= defenses.len(),
                    depth <= max_depth,
                    defender == opp(color),
                    fmax == old(self).max_vcf_depth,
                    forall|q: int| 0 <= q < defenses.len() ==> (#[trigger] defenses[q]).valid(),
                    all_defenses_beaten ==> beaten_goal == vct_beaten(
                        after,
                        color,
                        depth as int,
                        max_depth as int,
                        fmax,
                        defenses@,
                        d as int,
                    ),
                    !all_defenses_beaten ==> !beaten_goal,
                    b0 == vct_beaten_nodes(after, color, depth as int, max_depth as int, fmax, defenses@, 0),
                    all_defenses_beaten ==> sat_nodes(
                        self.nodes + vct_beaten_nodes(after, color, depth as int, max_depth as int, fmax, defenses@, d as int),
                    ) == sat_nodes(n0 + vn + b0),
                    !all_defenses_beaten ==> self.nodes == sat_nodes(n0 + vn + b0),
                    self.max_vcf_depth == old(self).max_vcf_depth,
                    self.max_vct_depth == old(self).max_vct_depth,
                    self.nodes >= 1,
                decreases defenses.len() - d,
            {
                let defense = defenses[d];
                let mut replied = after;
                replied.place_stone(defense, defender);
                let ghost placed_r = replied;
                let def_cap = execute_captures_fast(&mut replied, defense, defender);
                proof {
                    assert(placed(after, defense, defender, placed_r));
                    assert(def_cap.list().len() == def_cap.count);
                    assert(moved(after, defense, defender, replied));
                    lemma_after_move(after, defense, defender, replied);
                }
                let mut sub_sequence = sequence.clone();
                let ghost nb = self.nodes as int;
                let beaten = self.vct_search_mut(&replied, color, depth + 1, max_depth, &mut sub_sequence);
                proof {
                    let sub = vct_nodes(replied, color, depth + 1, max_depth as int, fmax) as int;
                    let more = vct_beaten_nodes(after, color, depth as int, max_depth as int, fmax, defenses@, d as int + 1) as int;
                    lemma_sat_nodes_add(nb + sub, more);
                    lemma_sat_nodes_add(nb + sub, 0);
                }
                if !beaten {
                    all_defenses_beaten = false;
                }
                d = d + 1;
            }
            proof {
                lemma_sat_nodes_add(n0 + vn + b0, rest);
                lemma_sat_nodes_add(n0 + vn + b0, 0);
            }
            if all_defenses_beaten {
                proof {
                    assert(sequence@ =~= seq0 + seq![threat_move]);
                }
                return true;
            }
            sequence.pop();
            proof {
                assert(sequence@ =~= seq0);
            }
            k = k + 1;
        }
        false
    }

    /// Search for a VCT (victory by continuous threats) of `color`: a VCF
    /// first, then threat sequences with open threes.
    pub fn search_vct(&mut self, board: &Board, color: Stone) -> (r: ThreatResult)
        ensures
            final(self).max_vcf_depth == old(self).max_vcf_depth,
            final(self).max_vct_depth == old(self).max_vct_depth,
            final(self).nodes >= 1,
            final(self).nodes == if vcf_from(*board, color, 0, old(self).max_vcf_depth as int) is Some {
                sat_nodes(vcf_nodes(*board, color, 0, old(self).max_vcf_depth as int) as int)
            } else {
                sat_nodes(
                    (vcf_nodes(*board, color, 0, old(self).max_vcf_depth as int) + vct_nodes(
                        *board,
                        color,
                        0,
                        old(self).max_vct_depth as int,
                        old(self).max_vcf_depth as int,
                    )) as int,
                )
            },
            r.found == (vcf_from(*board, color, 0, old(self).max_vcf_depth as int) is Some || vct_from(
                *board,
                color,
                0,
                old(self).max_vct_depth as int,
                old(self).max_vcf_depth as int,
            ) is Some),
            match vcf_from(*board, color, 0, old(self).max_vcf_depth as int) {
                Some(s) => r.winning_sequence@ == s,
                None => match vct_from(
                    *board,
                    color,
                    0,
                    old(self).max_vct_depth as int,
                    old(self).max_vcf_depth as int,
                ) {
                    Some(s) => r.winning_sequence@ == s,
                    None => r.winning_sequence@.len() == 0,
                },
            },
            r.found ==> r.winning_sequence@.len() >= 1 && all_threats(*board, color).contains(
                r.winning_sequence@[0],
            ),
    {
        self.nodes = 0;
        let mut sequence: Vec<Pos> = Vec::new();
        let vcf_max = self.max_vcf_depth;
        let vct_max = self.max_vct_depth;
        proof {
            lemma_threat_lists(*board, color);
            lemma_vcf_starts_with_four(*board, color, 0, vcf_max as int);
            lemma_vct_starts_with_threat(*board, color, 0, vct_max as int, vcf_max as int);
        }
        if self.vcf_search_mut(board, color, 0, vcf_max, &mut sequence) {
            proof {
                assert(sequence@ =~= vcf_from(*board, color, 0, vcf_max as int)->0);
            }
            return ThreatResult::found(sequence);
        }
        sequence.clear();
        proof {
            lemma_sat_nodes_add(
                vcf_nodes(*board, color, 0, vcf_max as int) as int,
                vct_nodes(*board, color, 0, vct_max as int, vcf_max as int) as int,
            );
        }
        if self.vct_search_mut(board, color, 0, vct_max, &mut sequence) {
            proof {
                assert(sequence@ =~= vct_from(*board, color, 0, vct_max as int, vcf_max as int)->0);
            }
            ThreatResult::found(sequence)
        } else {
            ThreatResult::not_found()
        }
    }

    /// Defenses against the four made at `threat_move`, in board order: legal
    /// blocks at the open ends of lines of exactly four, and legal captures
    /// that take a stone of such a line (any capture once the defender holds
    /// three pairs).
    #[verifier::spinoff_prover]
    #[verifier::rlimit(40)]
    pub fn find_defense_moves(&self, board: &Board, threat_move: Pos, attacker: Stone) -> (v: Vec<Pos>)
        requires
            threat_move.valid(),
        ensures
            lists_four_defenses(*board, threat_move, attacker, v@),
    {
        let defender = attacker.opponent();
        let mut marks = no_cells();
        let mut in4 = no_cells();
        let mut j: usize = 0;
        while j < 4
            invariant
                0 <= j <= 4,
                threat_move.valid(),
                defender == opp(attacker),
                marks@.len() == 361,
                in4@.len() == 361,
                forall|p: Pos| p.valid() ==> (#[trigger] marks@[p.idx()] <==> (blocks_upto(*board, threat_move, attacker, j as int, p) && valid_move(*board, p, defender))),
                forall|p: Pos| p.valid() ==> (#[trigger] in4@[p.idx()] <==> four_upto(*board, threat_move, attacker, j as int, p)),
            decreases 4 - j,
        {
            let (dr, dc) = line_dir(j);
            let mut line: Vec<Pos> = Vec::new();
            line.push(threat_move);
            let (n1, _o1, _e1) = scan_side(board, threat_move, attacker, dr, dc, true, &mut line);
            let (n2, _o2, _e2) = scan_side(board, threat_move, attacker, -dr, -dc, true, &mut line);
            proof {
                lemma_line_cells(*board, threat_move, attacker, j as int);
                assert(line@ =~= line_at(*board, threat_move, attacker, j as int));
            }
            let four = 1 + n1 + n2 == 4;
            flag_end(&mut marks, board, threat_move, attacker, j, 1, defender, four);
            flag_end(&mut marks, board, threat_move, attacker, j, -1, defender, four);
            if four {
                flag_all(&mut in4, &line);
            }
            j = j + 1;
        }
        let strategic = board.captures(defender) >= 3;
        let mut i: usize = 0;
        while i < TOTAL_CELLS
            invariant
                0 <= i <= 361,
                threat_move.valid(),
                defender == opp(attacker),
                strategic == (board.caps(defender) >= 3),
                marks@.len() == 361,
                in4@.len() == 361,
                forall|p: Pos| p.valid() ==> (#[trigger] in4@[p.idx()] <==> four_upto(*board, threat_move, attacker, 4, p)),
                forall|p: Pos| p.valid() ==> (#[trigger] marks@[p.idx()] <==> ((blocks_upto(*board, threat_move, attacker, 4, p) && valid_move(*board, p, defender))
                    || (p.idx() < i && four_capture(*board, threat_move, attacker, p)))),
            decreases 361 - i,
        {
            let pos = Pos::new((i / 19) as u8, (i % 19) as u8);
            assert(pos.idx() == i);
            let mut take = false;
            if is_valid_move(board, pos, defender) {
                let captured = get_captured_positions(board, pos, defender);
                proof {
                    lemma_captured_upto(*board, pos, defender, 8);
                }
                if captured.len() > 0 {
                    let hit = any_flagged(&in4, &captured);
                    proof {
                        lemma_hits_four(*board, threat_move, attacker, captured@, in4@);
                    }
                    take = strategic || hit;
                }
            }
            assert(take == four_capture(*board, threat_move, attacker, pos));
            if take {
                marks.set(i, true);
            }
            proof {
                assert forall|p: Pos| p.valid() implies (#[trigger] marks@[p.idx()] <==> ((blocks_upto(*board, threat_move, attacker, 4, p) && valid_move(*board, p, defender))
                    || (p.idx() < i + 1 && four_capture(*board, threat_move, attacker, p)))) by {
                    if p.idx() == i {
                        lemma_idx_injective(p, pos);
                    }
                }
            }
            i = i + 1;
        }
        let v = flagged_cells(&marks);
        proof {
            assert forall|p: Pos| #[trigger] v@.contains(p) <==> four_defense(*board, threat_move, attacker, p) by {
                lemma_blocks_all(*board, threat_move, attacker, p);
                if four_defense(*board, threat_move, attacker, p) {
                    if exists|j: int, sg: int| 0 <= j < 4 && #[trigger] four_block(*board, threat_move, attacker, j, sg, p) {
                        let (j, sg) = choose|j: int, sg: int| 0 <= j < 4 && #[trigger] four_block(*board, threat_move, attacker, j, sg, p);
                        lemma_end_valid(*board, threat_move, attacker, j, sg);
                    }
                }
            }
        }
        v
    }
    /// Defenses against the threat made at `threat_move`, in board order:
    /// legal blocks at the open ends of every line through it, and legal
    /// captures that take a stone of a line of three or more through it.
    #[verifier::spinoff_prover]
    #[verifier::rlimit(40)]
    pub fn find_threat_defenses(&self, board: &Board, threat_move: Pos, attacker: Stone) -> (v: Vec<Pos>)
        requires
            threat_move.valid(),
        ensures
            lists_threat_defenses(*board, threat_move, attacker, v@),
    {
        let defender = attacker.opponent();
        let mut marks = no_cells();
        let mut in4 = no_cells();
        let mut j: usize = 0;
        while j < 4
            invariant
                0 <= j <= 4,
                threat_move.valid(),
                defender == opp(attacker),
                marks@.len() == 361,
                in4@.len() == 361,
                forall|p: Pos| p.valid() ==> (#[trigger] marks@[p.idx()] <==> (ends_upto(*board, threat_move, attacker, j as int, p) && valid_move(*board, p, defender))),
                forall|p: Pos| p.valid() ==> (#[trigger] in4@[p.idx()] <==> threat_upto(*board, threat_move, attacker, j as int, p)),
            decreases 4 - j,
        {
            let (dr, dc) = line_dir(j);
            let mut line: Vec<Pos> = Vec::new();
            line.push(threat_move);
            let (n1, _o1, _e1) = scan_side(board, threat_move, attacker, dr, dc, true, &mut line);
            let (n2, _o2, _e2) = scan_side(board, threat_move, attacker, -dr, -dc, true, &mut line);
            proof {
                lemma_line_cells(*board, threat_move, attacker, j as int);
                assert(line@ =~= line_at(*board, threat_move, attacker, j as int));
            }
            flag_end(&mut marks, board, threat_move, attacker, j, 1, defender, true);
            flag_end(&mut marks, board, threat_move, attacker, j, -1, defender, true);
            if 1 + n1 + n2 >= 3 {
                flag_all(&mut in4, &line);
            }
            j = j + 1;
        }
        let mut i: usize = 0;
        while i < TOTAL_CELLS
            invariant
                0 <= i <= 361,
                threat_move.valid(),
                defender == opp(attacker),
                marks@.len() == 361,
                in4@.len() == 361,
                forall|p: Pos| p.valid() ==> (#[trigger] in4@[p.idx()] <==> threat_upto(*board, threat_move, attacker, 4, p)),
                forall|p: Pos| p.valid() ==> (#[trigger] marks@[p.idx()] <==> ((ends_upto(*board, threat_move, attacker, 4, p) && valid_move(*board, p, defender))
                    || (p.idx() < i && threat_capture(*board, threat_move, attacker, p)))),
            decreases 361 - i,
        {
            let pos = Pos::new((i / 19) as u8, (i % 19) as u8);
            assert(pos.idx() == i);
            let mut take = false;
            if is_valid_move(board, pos, defender) {
                let captured = get_captured_positions(board, pos, defender);
                proof {
                    lemma_captured_upto(*board, pos, defender, 8);
                }
                if captured.len() > 0 {
                    let hit = any_flagged(&in4, &captured);
                    proof {
                        lemma_hits_threat(*board, threat_move, attacker, captured@, in4@);
                    }
                    take = hit;
                }
            }
            assert(take == threat_capture(*board, threat_move, attacker, pos));
            if take {
                marks.set(i, true);
            }
            proof {
                assert forall|p: Pos| p.valid() implies (#[trigger] marks@[p.idx()] <==> ((ends_upto(*board, threat_move, attacker, 4, p) && valid_move(*board, p, defender))
                    || (p.idx() < i + 1 && threat_capture(*board, threat_move, attacker, p)))) by {
                    if p.idx() == i {
                        lemma_idx_injective(p, pos);
                    }
                }
            }
            i = i + 1;
        }
        let v = flagged_cells(&marks);
        proof {
            assert forall|p: Pos| #[trigger] v@.contains(p) <==> threat_defense(*board, threat_move, attacker, p) by {
                lemma_ends_all(*board, threat_move, attacker, p);
                if threat_defense(*board, threat_move, attacker, p) {
                    if exists|j: int, sg: int| 0 <= j < 4 && #[trigger] is_end(*board, threat_move, attacker, j, sg, p) {
                        let (j, sg) = choose|j: int, sg: int| 0 <= j < 4 && #[trigger] is_end(*board, threat_move, attacker, j, sg, p);
                        lemma_end_valid(*board, threat_move, attacker, j, sg);
                    }
                }
            }
        }
        v
    }
}

impl Default for ThreatSearcher {
    /// Same as `ThreatSearcher::new`.
    fn default() -> (t: ThreatSearcher)
        ensures
            t.max_vcf_depth == 30,
            t.max_vct_depth == 20,
            t.nodes == 0,
    {
        ThreatSearcher::new()
    }
}

/// Append all of `tail` to `v`.
fn append_all(v: &mut Vec<Pos>, tail: &Vec<Pos>)
    ensures
        final(v)@ == old(v)@ + tail@,
{
    let ghost v0 = v@;
    let mut k: usize = 0;
    while k < tail.len()
        invariant
            0 <= k <= tail.len(),
            v@ == v0 + tail@.take(k as int),
        decreases tail.len() - k,
    {
        v.push(tail[k]);
        proof {
            assert(tail@.take(k as int + 1) =~= tail@.take(k as int).push(tail@[k as int]));
        }
        k = k + 1;
    }
    proof {
        assert(tail@.take(tail.len() as int) =~= tail@);
    }
}

} // verus!
