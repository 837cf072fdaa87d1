//! Win condition checking for Ninuki-renju (Pente-style Gomoku).
//!
//! Win conditions:
//! 1. Five or more stones in a row
//! 2. Capture 10 opponent stones (5 pairs)
//!
//! Endgame capture rule: a five-in-a-row only wins if the opponent cannot
//! break it by capturing a pair from the line.
use super::capture::{captured_list, get_captured_positions};
use super::{base_dc, base_dr, lemma_pos_of, line_dir, pos_of, stone_at};
use crate::board::{on_board, opp, Board, Pos, Stone};
use vstd::prelude::*;

verus! {

/// Number of consecutive `s` stones starting at (r, c) and stepping by
/// (dr, dc), looking at most `f` cells.
pub open spec fn run(b: Board, r: int, c: int, dr: int, dc: int, s: Stone, f: nat) -> nat
    decreases f,
{
    if f == 0 || !on_board(r, c) || b.at(r, c) != s {
        0
    } else {
        1 + run(b, r + dr, c + dc, dr, dc, s, (f - 1) as nat)
    }
}

/// The cells counted by `run`, nearest first.
pub open spec fn run_cells(b: Board, r: int, c: int, dr: int, dc: int, s: Stone, f: nat) -> Seq<
    Pos,
>
    decreases f,
{
    if f == 0 || !on_board(r, c) || b.at(r, c) != s {
        Seq::empty()
    } else {
        seq![pos_of(r, c)] + run_cells(b, r + dr, c + dc, dr, dc, s, (f - 1) as nat)
    }
}

/// Length of the line of `s` through `pos` along direction `j` (the cell at
/// `pos` itself is counted whatever it holds).
pub open spec fn line_count(b: Board, pos: Pos, s: Stone, j: int) -> int {
    let dr = base_dr(j);
    let dc = base_dc(j);
    (1 + run(b, pos.row + dr, pos.col + dc, dr, dc, s, 19) + run(
        b,
        pos.row - dr,
        pos.col - dc,
        -dr,
        -dc,
        s,
        19,
    )) as int
}

/// The line through `pos` along direction `j`: `pos`, then the cells forward,
/// then the cells backward.
pub open spec fn line_at(b: Board, pos: Pos, s: Stone, j: int) -> Seq<Pos> {
    let dr = base_dr(j);
    let dc = base_dc(j);
    seq![pos] + run_cells(b, pos.row + dr, pos.col + dc, dr, dc, s, 19) + run_cells(
        b,
        pos.row - dr,
        pos.col - dc,
        -dr,
        -dc,
        s,
        19,
    )
}

/// The `k`-th cell of a run is `k` steps from its start.
proof fn lemma_run_cells_at(b: Board, r: int, c: int, dr: int, dc: int, s: Stone, f: nat)
    ensures
        forall|k: int|
            0 <= k < run_cells(b, r, c, dr, dc, s, f).len() ==> (#[trigger] run_cells(b, r, c, dr, dc, s, f)[k]).row
                == r + k * dr && run_cells(b, r, c, dr, dc, s, f)[k].col == c + k * dc,
    decreases f,
{
    if f == 0 || !on_board(r, c) || b.at(r, c) != s {
    } else {
        lemma_run_cells_at(b, r + dr, c + dc, dr, dc, s, (f - 1) as nat);
        lemma_pos_of(r, c);
        let rest = run_cells(b, r + dr, c + dc, dr, dc, s, (f - 1) as nat);
        let all = run_cells(b, r, c, dr, dc, s, f);
        assert forall|k: int| 0 <= k < all.len() implies (#[trigger] all[k]).row == r + k * dr && all[k].col
            == c + k * dc by {
            if k > 0 {
                assert(all[k] == rest[k - 1]);
                assert((r + dr) + (k - 1) * dr == r + k * dr) by (nonlinear_arith);
                assert((c + dc) + (k - 1) * dc == c + k * dc) by (nonlinear_arith);
            }
        }
    }
}

/// The line that `find_five_line_at_pos` returns for direction `j`: `pos`
/// first, then `forward` cells of `s` stepping along the direction, then
/// the cells of `s` stepping back from `pos`; so it is one unbroken run
/// through `pos`, of `line_count` cells, at least five.
pub proof fn law_five_line_shape(b: Board, pos: Pos, s: Stone, j: int)
    requires
        pos.valid(),
        0 <= j < 4,
        line_count(b, pos, s, j) >= 5,
    ensures
        ({
            let l = line_at(b, pos, s, j);
            let dr = base_dr(j);
            let dc = base_dc(j);
            let forward = run(b, pos.row + dr, pos.col + dc, dr, dc, s, 19) as int;
            &&& l.len() == line_count(b, pos, s, j)
            &&& l[0] == pos
            &&& forall|i: int| 1 <= i < l.len() ==> (#[trigger] l[i]).valid() && b.cell(l[i].idx()) == s
            &&& forall|i: int| 1 <= i <= forward ==> (#[trigger] l[i]).row == pos.row + i * dr && l[i].col
                == pos.col + i * dc
            &&& forall|i: int| forward < i < l.len() ==> (#[trigger] l[i]).row == pos.row - (i - forward) * dr
                && l[i].col == pos.col - (i - forward) * dc
        }),
{
    let dr = base_dr(j);
    let dc = base_dc(j);
    let fr = pos.row + dr;
    let fc = pos.col + dc;
    let br = pos.row - dr;
    let bc = pos.col - dc;
    lemma_run(b, fr, fc, dr, dc, s, 19);
    lemma_run(b, br, bc, -dr, -dc, s, 19);
    lemma_run_cells_at(b, fr, fc, dr, dc, s, 19);
    lemma_run_cells_at(b, br, bc, -dr, -dc, s, 19);
    let fw = run_cells(b, fr, fc, dr, dc, s, 19);
    let bw = run_cells(b, br, bc, -dr, -dc, s, 19);
    let l = line_at(b, pos, s, j);
    assert(l == seq![pos] + fw + bw);
    let forward = fw.len() as int;
    assert forall|i: int| 1 <= i < l.len() implies (#[trigger] l[i]).valid() && b.cell(l[i].idx()) == s by {
        if i <= forward {
            assert(l[i] == fw[i - 1]);
        } else {
            assert(l[i] == bw[i - 1 - forward]);
        }
    }
    assert forall|i: int| 1 <= i <= forward implies (#[trigger] l[i]).row == pos.row + i * dr && l[i].col
        == pos.col + i * dc by {
        assert(l[i] == fw[i - 1]);
        assert(fr + (i - 1) * dr == pos.row + i * dr) by (nonlinear_arith)
            requires
                fr == pos.row + dr,
        ;
        assert(fc + (i - 1) * dc == pos.col + i * dc) by (nonlinear_arith)
            requires
                fc == pos.col + dc,
        ;
    }
    assert forall|i: int| forward < i < l.len() implies (#[trigger] l[i]).row == pos.row - (i - forward) * dr
        && l[i].col == pos.col - (i - forward) * dc by {
        assert(l[i] == bw[i - 1 - forward]);
        assert(br + (i - 1 - forward) * (-dr) == pos.row - (i - forward) * dr) by (nonlinear_arith)
            requires
                br == pos.row - dr,
        ;
        assert(bc + (i - 1 - forward) * (-dc) == pos.col - (i - forward) * dc) by (nonlinear_arith)
            requires
                bc == pos.col - dc,
        ;
    }
}

/// Five cells from (r, c) along direction `j` lie on the board and hold `s`.
pub open spec fn five_at(b: Board, s: Stone, r: int, c: int, j: int) -> bool {
    let dr = base_dr(j);
    let dc = base_dc(j);
    &&& on_board(r, c) && b.at(r, c) == s
    &&& on_board(r + dr, c + dc) && b.at(r + dr, c + dc) == s
    &&& on_board(r + 2 * dr, c + 2 * dc) && b.at(r + 2 * dr, c + 2 * dc) == s
    &&& on_board(r + 3 * dr, c + 3 * dc) && b.at(r + 3 * dr, c + 3 * dc) == s
    &&& on_board(r + 4 * dr, c + 4 * dc) && b.at(r + 4 * dr, c + 4 * dc) == s
}

/// Color `s` has five (or more) in a row somewhere on the board.
pub open spec fn has_five(b: Board, s: Stone) -> bool {
    s != Stone::Empty && exists|r: int, c: int, j: int| 0 <= j < 4 && #[trigger] five_at(b, s, r, c, j)
}

/// Cell `i` is set in the bitboard of `s`.
pub open spec fn stone_bit(b: Board, s: Stone, i: int) -> bool {
    (s == Stone::Black && b.black.has(i)) || (s == Stone::White && b.white.has(i))
}

/// The line checked by `find_five_positions` around the stone at `p` along
/// direction `j`: up to four cells back (farthest first), `p`, then up to
/// four cells forward.
pub open spec fn segment(b: Board, p: Pos, s: Stone, j: int) -> Seq<Pos> {
    let dr = base_dr(j);
    let dc = base_dc(j);
    run_cells(b, p.row - dr, p.col - dc, -dr, -dc, s, 4).reverse() + seq![p] + run_cells(
        b,
        p.row + dr,
        p.col + dc,
        dr,
        dc,
        s,
        4,
    )
}

/// The stone of `s` on cell `i` lies in a line of five along direction `j`
/// (counting at most four cells each way).
pub open spec fn anchor_five(b: Board, s: Stone, i: int, j: int) -> bool {
    0 <= i < 361 && stone_bit(b, s, i) && segment(b, pos_of(i / 19, i % 19), s, j).len() >= 5
}

/// Placing on an empty cell at `adj` lets `capturer` capture a stone of `five`.
pub open spec fn breaks_at(b: Board, five: Seq<Pos>, capturer: Stone, adj: Pos) -> bool {
    &&& b.cell(adj.idx()) == Stone::Empty
    &&& exists|q: int|
        0 <= q < captured_list(b, adj, capturer).len() && five.contains(
            #[trigger] captured_list(b, adj, capturer)[q],
        )
}

/// `adj` lies within two steps (in both coordinates) of some stone of `five`,
/// on the board, and is not that stone.
pub open spec fn near_five(five: Seq<Pos>, adj: Pos) -> bool {
    exists|k: int|
        0 <= k < five.len() && adj.valid() && adj != #[trigger] five[k] && five[k].row - 2
            <= adj.row <= five[k].row + 2 && five[k].col - 2 <= adj.col <= five[k].col + 2
}

/// The opponent of `color` can break the line `five` by a capture.
pub open spec fn breakable(b: Board, five: Seq<Pos>, color: Stone) -> bool {
    exists|adj: Pos| near_five(five, adj) && #[trigger] breaks_at(b, five, opp(color), adj)
}

/// Facts about `run` and `run_cells`.
pub proof fn lemma_run(b: Board, r: int, c: int, dr: int, dc: int, s: Stone, f: nat)
    ensures
        run_cells(b, r, c, dr, dc, s, f).len() == run(b, r, c, dr, dc, s, f),
        run(b, r, c, dr, dc, s, f) <= f,
        forall|k: int|
            0 <= k < run_cells(b, r, c, dr, dc, s, f).len() ==> (#[trigger] run_cells(
                b,
                r,
                c,
                dr,
                dc,
                s,
                f,
            )[k]).valid() && b.cell(run_cells(b, r, c, dr, dc, s, f)[k].idx()) == s,
    decreases f,
{
    if f == 0 || !on_board(r, c) || b.at(r, c) != s {
    } else {
        lemma_run(b, r + dr, c + dc, dr, dc, s, (f - 1) as nat);
        lemma_pos_of(r, c);
        let rest = run_cells(b, r + dr, c + dc, dr, dc, s, (f - 1) as nat);
        let all = run_cells(b, r, c, dr, dc, s, f);
        assert forall|k: int| 0 <= k < all.len() implies (#[trigger] all[k]).valid() && b.cell(
            all[k].idx(),
        ) == s by {
            if k > 0 {
                assert(all[k] == rest[k - 1]);
            }
        }
    }
}

/// Count consecutive `s` stones from (r, c) stepping by (dr, dc), at most
/// `limit` cells, optionally recording them.
pub(crate) fn scan_run(
    board: &Board,
    r: i32,
    c: i32,
    dr: i32,
    dc: i32,
    s: Stone,
    limit: u32,
    record: bool,
    out: &mut Vec<Pos>,
) -> (n: u32)
    requires
        -1 <= dr <= 1,
        -1 <= dc <= 1,
        -40 <= r <= 40,
        -40 <= c <= 40,
        limit <= 19,
    ensures
        n == run(*board, r as int, c as int, dr as int, dc as int, s, limit as nat),
        final(out)@ == old(out)@ + if record {
            run_cells(*board, r as int, c as int, dr as int, dc as int, s, limit as nat)
        } else {
            Seq::empty()
        },
        n <= limit,
{
    let mut n: u32 = 0;
    let mut cr = r;
    let mut cc = c;
    let ghost start = out@;
    proof {
        lemma_run(*board, r as int, c as int, dr as int, dc as int, s, limit as nat);
    }
    while n < limit && Pos::is_valid(cr, cc) && stone_at(board, cr, cc) == s
        invariant
            -1 <= dr <= 1,
            -1 <= dc <= 1,
            -40 <= r <= 40,
            -40 <= c <= 40,
            n <= limit <= 19,
            r - n <= cr <= r + n,
            c - n <= cc <= c + n,
            n + run(*board, cr as int, cc as int, dr as int, dc as int, s, (limit - n) as nat)
                == run(*board, r as int, c as int, dr as int, dc as int, s, limit as nat),
            record ==> out@ + run_cells(
                *board,
                cr as int,
                cc as int,
                dr as int,
                dc as int,
                s,
                (limit - n) as nat,
            ) == start + run_cells(
                *board,
                r as int,
                c as int,
                dr as int,
                dc as int,
                s,
                limit as nat,
            ),
            !record ==> out@ == start,
        decreases limit - n,
    {
        let ghost cur = run_cells(
            *board,
            cr as int,
            cc as int,
            dr as int,
            dc as int,
            s,
            (limit - n) as nat,
        );
        if record {
            out.push(Pos::new(cr as u8, cc as u8));
        }
        proof {
            let rest = run_cells(
                *board,
                cr + dr,
                cc + dc,
                dr as int,
                dc as int,
                s,
                (limit - n - 1) as nat,
            );
            assert(cur == seq![pos_of(cr as int, cc as int)] + rest);
            if record {
                assert(out@ + rest =~= (out@.drop_last() + cur));
            }
        }
        cr = cr + dr;
        cc = cc + dc;
        n = n + 1;
    }
    proof {
        assert(run_cells(*board, cr as int, cc as int, dr as int, dc as int, s, (limit - n) as nat)
            =~= Seq::empty());
        assert(out@ =~= out@ + Seq::<Pos>::empty());
    }
    n
}

/// Length of the line through `pos` along direction `j`.
pub(crate) fn line_length(board: &Board, pos: Pos, color: Stone, j: usize) -> (n: u32)
    requires
        pos.valid(),
        j < 4,
    ensures
        n == line_count(*board, pos, color, j as int),
        n <= 39,
{
    let (dr, dc) = line_dir(j);
    let mut scratch: Vec<Pos> = Vec::new();
    let a = scan_run(
        board,
        pos.row as i32 + dr,
        pos.col as i32 + dc,
        dr,
        dc,
        color,
        19,
        false, &mut scratch,
    );
    let b = scan_run(
        board,
        pos.row as i32 - dr,
        pos.col as i32 - dc,
        -dr,
        -dc,
        color,
        19,
        false, &mut scratch,
    );
    1 + a + b
}

/// Check if there's 5+ in a row for the given color.
///
/// For a board where no cell holds both colors, this holds exactly when the
/// color has five stones in a row somewhere.
pub fn has_five_in_row(board: &Board, stone: Stone) -> (b: bool)
    ensures
        b == find_five_spec(*board, stone).is_some(),
        board.wf() ==> (b == has_five(*board, stone)),
{
    let r = find_five_positions(board, stone);
    proof {
        if board.wf() {
            lemma_find_five_iff(*board, stone);
        }
    }
    r.is_some()
}

/// Fast five-in-a-row check through a specific position (4 directions).
pub fn has_five_at_pos(board: &Board, pos: Pos, color: Stone) -> (b: bool)
    requires
        pos.valid(),
    ensures
        b == exists|j: int| 0 <= j < 4 && #[trigger] line_count(*board, pos, color, j) >= 5,
{
    let mut j: usize = 0;
    while j < 4
        invariant
            0 <= j <= 4,
            pos.valid(),
            forall|q: int| 0 <= q < j ==> #[trigger] line_count(*board, pos, color, q) < 5,
        decreases 4 - j,
    {
        if line_length(board, pos, color, j) >= 5 {
            return true;
        }
        j = j + 1;
    }
    false
}

/// Like `has_five_at_pos` but returns the line: `pos`, then the stones
/// forward, then the stones backward, for the first direction with 5+.
pub fn find_five_line_at_pos(board: &Board, pos: Pos, color: Stone) -> (r: Option<Vec<Pos>>)
    requires
        pos.valid(),
    ensures
        r.is_none() == forall|j: int| 0 <= j < 4 ==> #[trigger] line_count(*board, pos, color, j)
            < 5,
        r matches Some(v) ==> exists|j: int|
            0 <= j < 4 && line_count(*board, pos, color, j) >= 5 && v@ == #[trigger] line_at(
                *board,
                pos,
                color,
                j,
            ) && forall|q: int| 0 <= q < j ==> #[trigger] line_count(*board, pos, color, q) < 5,
{
    let mut j: usize = 0;
    while j < 4
        invariant
            0 <= j <= 4,
            pos.valid(),
            forall|q: int| 0 <= q < j ==> #[trigger] line_count(*board, pos, color, q) < 5,
        decreases 4 - j,
    {
        let (dr, dc) = line_dir(j);
        let mut line: Vec<Pos> = Vec::new();
        line.push(pos);
        let a = scan_run(
            board,
            pos.row as i32 + dr,
            pos.col as i32 + dc,
            dr,
            dc,
            color,
            19,
            true, &mut line,
        );
        let b = scan_run(
            board,
            pos.row as i32 - dr,
            pos.col as i32 - dc,
            -dr,
            -dc,
            color,
            19,
            true, &mut line,
        );
        proof {
            let dri = base_dr(j as int);
            let dci = base_dc(j as int);
            lemma_run(*board, pos.row + dri, pos.col + dci, dri, dci, color, 19);
            lemma_run(*board, pos.row - dri, pos.col - dci, -dri, -dci, color, 19);
            assert(line@ =~= line_at(*board, pos, color, j as int));
        }
        if line.len() >= 5 {
            proof {
                assert(line_count(*board, pos, color, j as int) >= 5);
            }
            return Some(line);
        }
        j = j + 1;
    }
    None
}

/// What `find_five_positions` returns: the segment of the first stone (in
/// cell order) and direction with at least five cells.
pub open spec fn find_five_spec(b: Board, s: Stone) -> Option<Seq<Pos>> {
    if exists|i: int, j: int| 0 <= j < 4 && #[trigger] anchor_five(b, s, i, j) {
        let (i, j) = choose|i: int, j: int|
            0 <= j < 4 && #[trigger] anchor_five(b, s, i, j) && forall|i2: int, j2: int|
                (0 <= j2 < 4 && #[trigger] anchor_five(b, s, i2, j2)) ==> (i < i2 || (i == i2 && j
                    <= j2));
        Some(segment(b, pos_of(i / 19, i % 19), s, j))
    } else {
        None
    }
}

/// The first anchor (in cell order, then direction) is unique.
proof fn lemma_first_anchor(b: Board, s: Stone, i: int, j: int)
    requires
        0 <= j < 4,
        anchor_five(b, s, i, j),
        forall|i2: int, j2: int|
            (0 <= j2 < 4 && #[trigger] anchor_five(b, s, i2, j2)) ==> (i < i2 || (i == i2 && j
                <= j2)),
    ensures
        find_five_spec(b, s) == Some(segment(b, pos_of(i / 19, i % 19), s, j)),
{
    let (i0, j0) = choose|i0: int, j0: int|
        0 <= j0 < 4 && #[trigger] anchor_five(b, s, i0, j0) && forall|i2: int, j2: int|
            (0 <= j2 < 4 && #[trigger] anchor_five(b, s, i2, j2)) ==> (i0 < i2 || (i0 == i2 && j0
                <= j2));
    assert(i0 == i && j0 == j);
}

/// Find the positions of a 5-in-a-row if one exists.
///
/// Scans the stones of the color in cell order; for each, looks up to four
/// cells each way along the four directions and returns the first line of at
/// least five (backward cells first, farthest first).
pub fn find_five_positions(board: &Board, stone: Stone) -> (r: Option<Vec<Pos>>)
    ensures
        r matches Some(v) ==> find_five_spec(*board, stone) == Some(v@) && 5 <= v.len() <= 9,
        r.is_none() ==> find_five_spec(*board, stone).is_none(),
{
    let stones = match board.stones(stone) {
        Some(bb) => bb,
        None => {
            return None;
        },
    };
    let anchors = stones.iter_ones();
    let mut a: usize = 0;
    while a < anchors.len()
        invariant
            0 <= a <= anchors.len(),
            stone == Stone::Black ==> *stones == board.black,
            stone == Stone::White ==> *stones == board.white,
            stone != Stone::Empty,
            forall|k: int|
                0 <= k < anchors.len() ==> (#[trigger] anchors[k]).valid() && stones.has(
                    anchors[k].idx(),
                ),
            forall|i: int| 0 <= i < 361 && stones.has(i) ==> exists|k: int|
                0 <= k < anchors.len() && (#[trigger] anchors[k]).idx() == i,
            forall|k1: int, k2: int|
                0 <= k1 < k2 < anchors.len() ==> (#[trigger] anchors[k1]).idx() < (
                #[trigger] anchors[k2]).idx(),
            forall|i: int, j: int|
                0 <= j < 4 && #[trigger] anchor_five(*board, stone, i, j) ==> (a < anchors.len()
                    && anchors[a as int].idx() <= i),
        decreases anchors.len() - a,
    {
        let pos = anchors[a];
        let mut j: usize = 0;
        while j < 4
            invariant
                0 <= j <= 4,
                0 <= a < anchors.len(),
                pos == anchors[a as int],
                pos.valid(),
                stones.has(pos.idx()),
                stone == Stone::Black ==> *stones == board.black,
                stone == Stone::White ==> *stones == board.white,
                stone != Stone::Empty,
                forall|q: int| 0 <= q < j ==> !#[trigger] anchor_five(*board, stone, pos.idx(), q),
                forall|i: int, j2: int|
                    0 <= j2 < 4 && #[trigger] anchor_five(*board, stone, i, j2) ==> pos.idx() <= i,
            decreases 4 - j,
        {
            let (dr, dc) = line_dir(j);
            let mut scratch: Vec<Pos> = Vec::new();
            let cb = scan_run(
                board,
                pos.row as i32 - dr,
                pos.col as i32 - dc,
                -dr,
                -dc,
                stone,
                4,
                false, &mut scratch,
            );
            let cf = scan_run(
                board,
                pos.row as i32 + dr,
                pos.col as i32 + dc,
                dr,
                dc,
                stone,
                4,
                false, &mut scratch,
            );
            if cb + 1 + cf >= 5 {
                let mut back: Vec<Pos> = Vec::new();
                let nb = scan_run(
                    board,
                    pos.row as i32 - dr,
                    pos.col as i32 - dc,
                    -dr,
                    -dc,
                    stone,
                    4,
                    true, &mut back,
                );
                let mut line: Vec<Pos> = Vec::new();
                let mut t: usize = back.len();
                while t > 0
                    invariant
                        t <= back.len(),
                        line@ == back@.subrange(t as int, back.len() as int).reverse(),
                    decreases t,
                {
                    t = t - 1;
                    line.push(back[t]);
                    proof {
                        assert(line@ =~= back@.subrange(t as int, back.len() as int).reverse());
                    }
                }
                line.push(pos);
                let nf = scan_run(
                    board,
                    pos.row as i32 + dr,
                    pos.col as i32 + dc,
                    dr,
                    dc,
                    stone,
                    4,
                    true, &mut line,
                );
                proof {
                    let dri = base_dr(j as int);
                    let dci = base_dc(j as int);
                    lemma_run(*board, pos.row - dri, pos.col - dci, -dri, -dci, stone, 4);
                    lemma_run(*board, pos.row + dri, pos.col + dci, dri, dci, stone, 4);
                    lemma_pos_of(pos.row as int, pos.col as int);
                    assert(pos_of(pos.idx() / 19, pos.idx() % 19) == pos);
                    assert(back@.subrange(0, back.len() as int) =~= back@);
                    assert(line@ =~= segment(*board, pos, stone, j as int));
                }
                if line.len() >= 5 {
                    proof {
                        assert(anchor_five(*board, stone, pos.idx(), j as int));
                        lemma_first_anchor(*board, stone, pos.idx(), j as int);
                    }
                    return Some(line);
                }
            } else {
                proof {
                    let dri = base_dr(j as int);
                    let dci = base_dc(j as int);
                    lemma_run(*board, pos.row - dri, pos.col - dci, -dri, -dci, stone, 4);
                    lemma_run(*board, pos.row + dri, pos.col + dci, dri, dci, stone, 4);
                    lemma_pos_of(pos.row as int, pos.col as int);
                    assert(pos_of(pos.idx() / 19, pos.idx() % 19) == pos);
                    assert(segment(*board, pos, stone, j as int).len() < 5);
                }
            }
            j = j + 1;
        }
        proof {
            assert forall|i: int, j2: int|
                0 <= j2 < 4 && #[trigger] anchor_five(*board, stone, i, j2) implies (a + 1
                < anchors.len() && anchors[a + 1].idx() <= i) by {
                assert(i != pos.idx());
                let k = choose|k: int| 0 <= k < anchors.len() && (#[trigger] anchors[k]).idx() == i;
                if k <= a {
                    if k < a {
                        assert(anchors[k].idx() < anchors[a as int].idx());
                    }
                    assert(false);
                }
                if k > a + 1 {
                    assert(anchors[a + 1].idx() < anchors[k].idx());
                }
            }
        }
        a = a + 1;
    }
    None
}

/// Whether `five` contains `p`.
fn contains_pos(five: &[Pos], p: Pos) -> (b: bool)
    ensures
        b == five@.contains(p),
{
    let mut k: usize = 0;
    while k < five.len()
        invariant
            0 <= k <= five.len(),
            forall|q: int| 0 <= q < k ==> five@[q] != p,
        decreases five.len() - k,
    {
        if five[k] == p {
            assert(five@[k as int] == p);
            return true;
        }
        k = k + 1;
    }
    false
}

/// Whether placing `capturer` at `adj` (an empty cell) captures a stone of `five`.
fn break_check(board: &Board, five: &[Pos], capturer: Stone, adj: Pos) -> (b: bool)
    requires
        adj.valid(),
        board.cell(adj.idx()) == Stone::Empty,
    ensures
        b == breaks_at(*board, five@, capturer, adj),
{
    let would_capture = get_captured_positions(board, adj, capturer);
    let mut q: usize = 0;
    while q < would_capture.len()
        invariant
            0 <= q <= would_capture.len(),
            would_capture@ == captured_list(*board, adj, capturer),
            board.cell(adj.idx()) == Stone::Empty,
            forall|x: int| 0 <= x < q ==> !five@.contains(#[trigger] would_capture@[x]),
        decreases would_capture.len() - q,
    {
        if contains_pos(five, would_capture[q]) {
            proof {
                let cl = captured_list(*board, adj, capturer);
                assert(cl[q as int] == would_capture@[q as int]);
                assert(five@.contains(cl[q as int]));
                assert(0 <= q < cl.len());
                assert(board.cell(adj.idx()) == Stone::Empty);
                assert(exists|q2: int| 0 <= q2 < cl.len() && five@.contains(#[trigger] cl[q2]));
                assert(breaks_at(*board, five@, capturer, adj));
            }
            return true;
        }
        q = q + 1;
    }
    false
}

/// The candidate cell at offset (dr, dc) from `p`, when it is on the board and
/// empty.
fn candidate(board: &Board, p: Pos, dr: i32, dc: i32) -> (r: Option<Pos>)
    requires
        -2 <= dr <= 2,
        -2 <= dc <= 2,
    ensures
        r matches Some(q) ==> q.valid() && q.row == p.row + dr && q.col == p.col + dc
            && board.cell(q.idx()) == Stone::Empty,
        r.is_none() ==> !on_board(p.row + dr, p.col + dc) || board.at(p.row + dr, p.col + dc)
            != Stone::Empty,
{
    let r = p.row as i32 + dr;
    let c = p.col as i32 + dc;
    if !Pos::is_valid(r, c) {
        return None;
    }
    let q = Pos::new(r as u8, c as u8);
    if !board.is_empty(q) {
        return None;
    }
    Some(q)
}

/// Check if the opponent can break the 5-in-row by a capture.
///
/// True when the opponent can place on an empty cell within two steps of a
/// stone of the line and capture one of its stones (static check, no
/// look-ahead).
pub fn can_break_five_by_capture(board: &Board, five_positions: &[Pos], five_color: Stone) -> (b:
    bool)
    ensures
        b == breakable(*board, five_positions@, five_color),
{
    let opponent = five_color.opponent();
    let five = five_positions;
    let mut k: usize = 0;
    while k < five.len()
        invariant
            0 <= k <= five.len(),
            opponent == opp(five_color),
            five == five_positions,
            forall|adj: Pos|
                #[trigger] breaks_at(*board, five@, opponent, adj) && adj.valid() ==> forall|
                    k2: int,
                |
                    0 <= k2 < k && adj != #[trigger] five@[k2] && five@[k2].row - 2 <= adj.row
                        <= five@[k2].row + 2 && five@[k2].col - 2 <= adj.col <= five@[k2].col
                        + 2 ==> false,
        decreases five.len() - k,
    {
        let p = five[k];
        let mut dr: i32 = -2;
        while dr <= 2
            invariant
                -2 <= dr <= 3,
                0 <= k < five.len(),
                p == five@[k as int],
                opponent == opp(five_color),
                five == five_positions,
            five == five_positions,
                forall|adj: Pos|
                    #[trigger] breaks_at(*board, five@, opponent, adj) && adj.valid() && adj != p
                        && p.row - 2 <= adj.row < p.row + dr && p.col - 2 <= adj.col <= p.col + 2
                        ==> false,
            decreases 3 - dr,
        {
            let mut dc: i32 = -2;
            while dc <= 2
                invariant
                    -2 <= dr <= 2,
                    -2 <= dc <= 3,
                    0 <= k < five.len(),
                    p == five@[k as int],
                    opponent == opp(five_color),
                    five == five_positions,
                five == five_positions,
            five == five_positions,
                    forall|adj: Pos|
                        #[trigger] breaks_at(*board, five@, opponent, adj) && adj.valid() && adj
                            != p && (p.row - 2 <= adj.row < p.row + dr || (adj.row == p.row + dr
                            && p.col - 2 <= adj.col < p.col + dc)) && p.col - 2 <= adj.col
                            <= p.col + 2 ==> false,
                decreases 3 - dc,
            {
                if !(dr == 0 && dc == 0) {
                    match candidate(board, p, dr, dc) {
                        Some(adj) => {
                            if break_check(board, five, opponent, adj) {
                                proof {
                                    assert(near_five(five@, adj)) by {
                                        assert(adj != five@[k as int]);
                                    }
                                    assert(breaks_at(*board, five@, opp(five_color), adj));
                                }
                                return true;
                            }
                        },
                        None => {},
                    }
                }
                dc = dc + 1;
            }
            dr = dr + 1;
        }
        k = k + 1;
    }
    proof {
        assert forall|adj: Pos| near_five(five@, adj) implies !#[trigger] breaks_at(
            *board,
            five@,
            opp(five_color),
            adj,
        ) by {
            let k2 = choose|k2: int|
                0 <= k2 < five@.len() && adj.valid() && adj != #[trigger] five@[k2] && five@[k2].row
                    - 2 <= adj.row <= five@[k2].row + 2 && five@[k2].col - 2 <= adj.col
                    <= five@[k2].col + 2;
        }
    }
    false
}

/// Find all positions where the opponent can break the five by a capture.
///
/// Returns each such position once, in scan order.
pub fn find_five_break_moves(board: &Board, five_positions: &[Pos], five_color: Stone) -> (moves:
    Vec<Pos>)
    ensures
        forall|adj: Pos| #[trigger] moves@.contains(adj) <==> (near_five(five_positions@, adj)
            && breaks_at(*board, five_positions@, opp(five_color), adj)),
        forall|a: int, b: int| 0 <= a < b < moves.len() ==> moves[a] != moves[b],
        moves.len() == 0 <==> !breakable(*board, five_positions@, five_color),
{
    let opponent = five_color.opponent();
    let five = five_positions;
    let mut break_moves: Vec<Pos> = Vec::new();
    let mut k: usize = 0;
    while k < five.len()
        invariant
            0 <= k <= five.len(),
            opponent == opp(five_color),
            five == five_positions,
            forall|a: int, b: int|
                0 <= a < b < break_moves.len() ==> break_moves[a] != break_moves[b],
            forall|adj: Pos| #[trigger]
                break_moves@.contains(adj) ==> near_five(five@, adj) && breaks_at(
                    *board,
                    five@,
                    opponent,
                    adj,
                ),
            forall|adj: Pos|
                #[trigger] breaks_at(*board, five@, opponent, adj) && adj.valid() ==> forall|
                    k2: int,
                |
                    0 <= k2 < k && adj != #[trigger] five@[k2] && five@[k2].row - 2 <= adj.row
                        <= five@[k2].row + 2 && five@[k2].col - 2 <= adj.col <= five@[k2].col
                        + 2 ==> break_moves@.contains(adj),
        decreases five.len() - k,
    {
        let p = five[k];
        let mut dr: i32 = -2;
        while dr <= 2
            invariant
                -2 <= dr <= 3,
                0 <= k < five.len(),
                p == five@[k as int],
                opponent == opp(five_color),
                five == five_positions,
            five == five_positions,
                forall|a: int, b: int|
                    0 <= a < b < break_moves.len() ==> break_moves[a] != break_moves[b],
                forall|adj: Pos| #[trigger]
                    break_moves@.contains(adj) ==> near_five(five@, adj) && breaks_at(
                        *board,
                        five@,
                        opponent,
                        adj,
                    ),
                forall|adj: Pos|
                    #[trigger] breaks_at(*board, five@, opponent, adj) && adj.valid() ==> forall|
                        k2: int,
                    |
                        0 <= k2 < k && adj != #[trigger] five@[k2] && five@[k2].row - 2 <= adj.row
                            <= five@[k2].row + 2 && five@[k2].col - 2 <= adj.col <= five@[k2].col
                            + 2 ==> break_moves@.contains(adj),
                forall|adj: Pos|
                    #[trigger] breaks_at(*board, five@, opponent, adj) && adj.valid() && adj != p
                        && p.row - 2 <= adj.row < p.row + dr && p.col - 2 <= adj.col <= p.col + 2
                        ==> break_moves@.contains(adj),
            decreases 3 - dr,
        {
            let mut dc: i32 = -2;
            while dc <= 2
                invariant
                    -2 <= dr <= 2,
                    -2 <= dc <= 3,
                    0 <= k < five.len(),
                    p == five@[k as int],
                    opponent == opp(five_color),
                    five == five_positions,
                five == five_positions,
            five == five_positions,
                    forall|a: int, b: int|
                        0 <= a < b < break_moves.len() ==> break_moves[a] != break_moves[b],
                    forall|adj: Pos| #[trigger]
                        break_moves@.contains(adj) ==> near_five(five@, adj) && breaks_at(
                            *board,
                            five@,
                            opponent,
                            adj,
                        ),
                    forall|adj: Pos|
                        #[trigger] breaks_at(*board, five@, opponent, adj) && adj.valid()
                            ==> forall|k2: int|
                            0 <= k2 < k && adj != #[trigger] five@[k2] && five@[k2].row - 2
                                <= adj.row <= five@[k2].row + 2 && five@[k2].col - 2 <= adj.col
                                <= five@[k2].col + 2 ==> break_moves@.contains(adj),
                    forall|adj: Pos|
                        #[trigger] breaks_at(*board, five@, opponent, adj) && adj.valid() && adj
                            != p && (p.row - 2 <= adj.row < p.row + dr || (adj.row == p.row + dr
                            && p.col - 2 <= adj.col < p.col + dc)) && p.col - 2 <= adj.col
                            <= p.col + 2 ==> break_moves@.contains(adj),
                decreases 3 - dc,
            {
                if !(dr == 0 && dc == 0) {
                    match candidate(board, p, dr, dc) {
                        Some(adj) => {
                            if !contains_pos(break_moves.as_slice(), adj) {
                                if break_check(board, five, opponent, adj) {
                                    let ghost old_moves = break_moves@;
                                    break_moves.push(adj);
                                    proof {
                                        assert(near_five(five@, adj)) by {
                                            assert(adj != five@[k as int]);
                                        }
                                        assert forall|x: Pos| #[trigger]
                                            break_moves@.contains(x) implies near_five(five@, x)
                                            && breaks_at(*board, five@, opponent, x) by {
                                            if x != adj {
                                                let q = choose|q: int|
                                                    0 <= q < break_moves@.len() && break_moves@[q]
                                                        == x;
                                                assert(old_moves[q] == x);
                                                assert(old_moves.contains(x));
                                            } else {
                                                assert(breaks_at(*board, five@, opponent, adj));
                                            }
                                        }
                                        assert forall|x: Pos| #[trigger]
                                            old_moves.contains(x) implies break_moves@.contains(x)
                                            by {
                                            let q = choose|q: int|
                                                0 <= q < old_moves.len() && old_moves[q] == x;
                                            assert(break_moves@[q] == x);
                                        }
                                        assert(break_moves@[old_moves.len() as int] == adj);
                                    }
                                }
                            }
                        },
                        None => {},
                    }
                }
                dc = dc + 1;
            }
            dr = dr + 1;
        }
        k = k + 1;
    }
    proof {
        if break_moves.len() > 0 {
            assert(break_moves@.contains(break_moves@[0]));
        }
        assert forall|adj: Pos|
            near_five(five@, adj) && breaks_at(*board, five@, opp(five_color), adj) implies #[trigger]
            break_moves@.contains(adj) by {
            let k2 = choose|k2: int|
                0 <= k2 < five@.len() && adj.valid() && adj != #[trigger] five@[k2] && five@[k2].row
                    - 2 <= adj.row <= five@[k2].row + 2 && five@[k2].col - 2 <= adj.col
                    <= five@[k2].col + 2;
        }
    }
    break_moves
}

/// The five cells from (r, c) along direction `j`.
pub open spec fn five_cells(r: int, c: int, j: int) -> Seq<Pos> {
    let dr = base_dr(j);
    let dc = base_dc(j);
    seq![
        pos_of(r, c),
        pos_of(r + dr, c + dc),
        pos_of(r + 2 * dr, c + 2 * dc),
        pos_of(r + 3 * dr, c + 3 * dc),
        pos_of(r + 4 * dr, c + 4 * dc),
    ]
}

/// `s` has five in a row that the opponent cannot break by a capture.
pub open spec fn unbreakable_five(b: Board, s: Stone) -> bool {
    s != Stone::Empty && exists|r: int, c: int, j: int|
        0 <= j < 4 && #[trigger] five_at(b, s, r, c, j) && !breakable(b, five_cells(r, c, j), s)
}

/// The winner as `check_winner` decides it: five captured pairs (Black
/// first), else a five in a row that no capture can break (Black first).
pub open spec fn winner_spec(b: Board) -> Option<Stone> {
    if b.black_captures >= 5 {
        Some(Stone::Black)
    } else if b.white_captures >= 5 {
        Some(Stone::White)
    } else if unbreakable_five(b, Stone::Black) {
        Some(Stone::Black)
    } else if unbreakable_five(b, Stone::White) {
        Some(Stone::White)
    } else {
        None
    }
}

/// Whether cell (r, c) is on the board and holds `s`.
fn cell_holds(board: &Board, r: i32, c: i32, s: Stone) -> (b: bool)
    ensures
        b == (on_board(r as int, c as int) && board.at(r as int, c as int) == s),
{
    Pos::is_valid(r, c) && stone_at(board, r, c) == s
}

/// The five cells from (r, c) along direction `j`, when they all hold `s`.
fn five_from(board: &Board, r: i32, c: i32, j: usize, s: Stone) -> (v: Option<Vec<Pos>>)
    requires
        j < 4,
        0 <= r < 19,
        0 <= c < 19,
    ensures
        v is Some <==> five_at(*board, s, r as int, c as int, j as int),
        v matches Some(w) ==> w@ == five_cells(r as int, c as int, j as int),
{
    let (dr, dc) = line_dir(j);
    if cell_holds(board, r, c, s) && cell_holds(board, r + dr, c + dc, s) && cell_holds(
        board,
        r + 2 * dr,
        c + 2 * dc,
        s,
    ) && cell_holds(board, r + 3 * dr, c + 3 * dc, s) && cell_holds(board, r + 4 * dr, c + 4 * dc, s) {
        let v = vec![
            Pos::new(r as u8, c as u8),
            Pos::new((r + dr) as u8, (c + dc) as u8),
            Pos::new((r + 2 * dr) as u8, (c + 2 * dc) as u8),
            Pos::new((r + 3 * dr) as u8, (c + 3 * dc) as u8),
            Pos::new((r + 4 * dr) as u8, (c + 4 * dc) as u8),
        ];
        proof {
            assert(v@ =~= five_cells(r as int, c as int, j as int));
        }
        Some(v)
    } else {
        None
    }
}

/// Whether `stone` has five in a row that the opponent cannot break by a
/// capture: every line of five cells is tried.
pub fn has_unbreakable_five(board: &Board, stone: Stone) -> (b: bool)
    ensures
        b == unbreakable_five(*board, stone),
{
    if stone == Stone::Empty {
        return false;
    }
    let mut i: usize = 0;
    while i < 361
        invariant
            0 <= i <= 361,
            stone != Stone::Empty,
            forall|r: int, c: int, j: int|
                0 <= j < 4 && #[trigger] five_at(*board, stone, r, c, j) && r * 19 + c < i
                    ==> breakable(*board, five_cells(r, c, j), stone),
        decreases 361 - i,
    {
        let r = (i / 19) as i32;
        let c = (i % 19) as i32;
        let mut j: usize = 0;
        while j < 4
            invariant
                0 <= j <= 4,
                0 <= i < 361,
                r == i / 19,
                c == i % 19,
                stone != Stone::Empty,
                forall|r2: int, c2: int, j2: int|
                    0 <= j2 < 4 && #[trigger] five_at(*board, stone, r2, c2, j2) && (r2 * 19 + c2 < i
                        || (r2 == r && c2 == c && j2 < j)) ==> breakable(*board, five_cells(r2, c2, j2), stone),
            decreases 4 - j,
        {
            match five_from(board, r, c, j, stone) {
                Some(v) => {
                    if !can_break_five_by_capture(board, v.as_slice(), stone) {
                        return true;
                    }
                },
                None => {},
            }
            j = j + 1;
        }
        proof {
            assert forall|r2: int, c2: int, j2: int|
                0 <= j2 < 4 && #[trigger] five_at(*board, stone, r2, c2, j2) && r2 * 19 + c2 < i + 1
                    implies breakable(*board, five_cells(r2, c2, j2), stone) by {
                if r2 * 19 + c2 == i {
                    assert(0 <= c2 < 19);
                    assert(r2 == r && c2 == c);
                }
            }
        }
        i = i + 1;
    }
    proof {
        assert forall|r2: int, c2: int, j2: int|
            0 <= j2 < 4 && #[trigger] five_at(*board, stone, r2, c2, j2) implies breakable(
            *board,
            five_cells(r2, c2, j2),
            stone,
        ) by {
            assert(r2 * 19 + c2 < 361);
        }
    }
    false
}

/// Check for a winner.
///
/// 1. Capture win: 5 pairs captured (Black checked first).
/// 2. Five-in-a-row win, unless the opponent can break it by a capture: a
///    color wins when any of its fives cannot be broken (Black first).
pub fn check_winner(board: &Board) -> (w: Option<Stone>)
    ensures
        w == winner_spec(*board),
{
    if board.captures(Stone::Black) >= 5 {
        return Some(Stone::Black);
    }
    if board.captures(Stone::White) >= 5 {
        return Some(Stone::White);
    }
    if has_unbreakable_five(board, Stone::Black) {
        return Some(Stone::Black);
    }
    if has_unbreakable_five(board, Stone::White) {
        return Some(Stone::White);
    }
    None
}

/// On a board where no cell holds both colors, some stone of `s` lies in a
/// line of five exactly when `s` has five in a row.
pub proof fn lemma_find_five_iff(b: Board, s: Stone)
    requires
        b.wf(),
    ensures
        find_five_spec(b, s).is_some() == has_five(b, s),
{
    if find_five_spec(b, s).is_some() {
        let (i, j) = choose|i: int, j: int| 0 <= j < 4 && #[trigger] anchor_five(b, s, i, j);
        lemma_anchor_gives_five(b, s, i, j);
    }
    if has_five(b, s) {
        let (r, c, j) = choose|r: int, c: int, j: int| 0 <= j < 4 && #[trigger] five_at(b, s, r, c, j);
        lemma_five_gives_anchor(b, s, r, c, j);
    }
}

/// `run` with fuel `f` reaches at least `n` when `n` consecutive cells hold `s`.
proof fn lemma_run_at_least(b: Board, r: int, c: int, dr: int, dc: int, s: Stone, f: nat, n: nat)
    requires
        n <= f,
        forall|t: int| 0 <= t < n ==> on_board(r + t * dr, c + t * dc) && #[trigger] b.at(r + t * dr, c + t * dc) == s,
    ensures
        run(b, r, c, dr, dc, s, f) >= n,
    decreases n,
{
    if n > 0 {
        assert(on_board(r + 0 * dr, c + 0 * dc) && b.at(r + 0 * dr, c + 0 * dc) == s);
        assert forall|t: int| 0 <= t < n - 1 implies on_board((r + dr) + t * dr, (c + dc) + t * dc)
            && #[trigger] b.at((r + dr) + t * dr, (c + dc) + t * dc) == s by {
            assert((r + dr) + t * dr == r + (t + 1) * dr) by (nonlinear_arith);
            assert((c + dc) + t * dc == c + (t + 1) * dc) by (nonlinear_arith);
            assert(b.at(r + (t + 1) * dr, c + (t + 1) * dc) == s);
        }
        lemma_run_at_least(b, r + dr, c + dc, dr, dc, s, (f - 1) as nat, (n - 1) as nat);
    }
}

/// The first `run` cells from (r, c) lie on the board and hold `s`.
proof fn lemma_run_cells_hold(b: Board, r: int, c: int, dr: int, dc: int, s: Stone, f: nat, t: int)
    requires
        0 <= t < run(b, r, c, dr, dc, s, f),
    ensures
        on_board(r + t * dr, c + t * dc),
        b.at(r + t * dr, c + t * dc) == s,
    decreases f,
{
    if t > 0 {
        lemma_run_cells_hold(b, r + dr, c + dc, dr, dc, s, (f - 1) as nat, t - 1);
        assert((r + dr) + (t - 1) * dr == r + t * dr) by (nonlinear_arith);
        assert((c + dc) + (t - 1) * dc == c + t * dc) by (nonlinear_arith);
    }
}

/// On a well-formed board, a stone bit of `s` means the cell holds `s`.
proof fn lemma_bit_cell(b: Board, s: Stone, i: int)
    requires
        b.wf(),
        stone_bit(b, s, i),
    ensures
        b.cell(i) == s,
{
}

proof fn lemma_anchor_gives_five(b: Board, s: Stone, i: int, j: int)
    requires
        b.wf(),
        0 <= j < 4,
        anchor_five(b, s, i, j),
    ensures
        has_five(b, s),
{
    let p = pos_of(i / 19, i % 19);
    let dr = base_dr(j);
    let dc = base_dc(j);
    let pr = p.row as int;
    let pc = p.col as int;
    lemma_pos_of(i / 19, i % 19);
    lemma_run(b, pr - dr, pc - dc, -dr, -dc, s, 4);
    lemma_run(b, pr + dr, pc + dc, dr, dc, s, 4);
    let a = run(b, pr - dr, pc - dc, -dr, -dc, s, 4) as int;
    let f = run(b, pr + dr, pc + dc, dr, dc, s, 4) as int;
    assert(segment(b, p, s, j).len() == a + 1 + f);
    lemma_bit_cell(b, s, i);
    // All cells from offset -a to +f hold s.
    assert forall|t: int| -a <= t <= f implies on_board(pr + t * dr, pc + t * dc) && #[trigger] b.at(
        pr + t * dr,
        pc + t * dc,
    ) == s by {
        if t == 0 {
            assert(pr + 0 * dr == pr && pc + 0 * dc == pc);
        } else if t > 0 {
            lemma_run_cells_hold(b, pr + dr, pc + dc, dr, dc, s, 4, t - 1);
            assert((pr + dr) + (t - 1) * dr == pr + t * dr) by (nonlinear_arith);
            assert((pc + dc) + (t - 1) * dc == pc + t * dc) by (nonlinear_arith);
        } else {
            lemma_run_cells_hold(b, pr - dr, pc - dc, -dr, -dc, s, 4, -t - 1);
            assert((pr - dr) + (-t - 1) * (-dr) == pr + t * dr) by (nonlinear_arith);
            assert((pc - dc) + (-t - 1) * (-dc) == pc + t * dc) by (nonlinear_arith);
        }
    }
    let sr = pr - a * dr;
    let sc = pc - a * dc;
    assert forall|u: int| 0 <= u < 5 implies on_board(sr + u * dr, sc + u * dc) && #[trigger] b.at(
        sr + u * dr,
        sc + u * dc,
    ) == s by {
        assert(sr + u * dr == pr + (u - a) * dr) by (nonlinear_arith)
            requires
                sr == pr - a * dr,
        ;
        assert(sc + u * dc == pc + (u - a) * dc) by (nonlinear_arith)
            requires
                sc == pc - a * dc,
        ;
        assert(-a <= u - a <= f);
        assert(b.at(pr + (u - a) * dr, pc + (u - a) * dc) == s);
    }
    assert(b.at(sr + 0 * dr, sc + 0 * dc) == s);
    assert(b.at(sr + 1 * dr, sc + 1 * dc) == s);
    assert(b.at(sr + 2 * dr, sc + 2 * dc) == s);
    assert(b.at(sr + 3 * dr, sc + 3 * dc) == s);
    assert(b.at(sr + 4 * dr, sc + 4 * dc) == s);
    assert(five_at(b, s, sr, sc, j));
}

proof fn lemma_five_gives_anchor(b: Board, s: Stone, r: int, c: int, j: int)
    requires
        b.wf(),
        s != Stone::Empty,
        0 <= j < 4,
        five_at(b, s, r, c, j),
    ensures
        exists|i: int, j2: int| 0 <= j2 < 4 && #[trigger] anchor_five(b, s, i, j2),
{
    let dr = base_dr(j);
    let dc = base_dc(j);
    let i = r * 19 + c;
    assert(i / 19 == r && i % 19 == c);
    lemma_pos_of(r, c);
    let p = pos_of(r, c);
    // The anchor cell holds s, so s is a color and its bit is set.
    assert(b.cell(i) == s);
    assert(stone_bit(b, s, i));
    assert forall|t: int| 0 <= t < 4 implies on_board((r + dr) + t * dr, (c + dc) + t * dc)
        && #[trigger] b.at((r + dr) + t * dr, (c + dc) + t * dc) == s by {
        assert((r + dr) + t * dr == r + (t + 1) * dr) by (nonlinear_arith);
        assert((c + dc) + t * dc == c + (t + 1) * dc) by (nonlinear_arith);
        if t == 0 {
        } else if t == 1 {
        } else if t == 2 {
        } else {
        }
    }
    lemma_run_at_least(b, r + dr, c + dc, dr, dc, s, 4, 4);
    lemma_run(b, r + dr, c + dc, dr, dc, s, 4);
    lemma_run(b, r - dr, c - dc, -dr, -dc, s, 4);
    assert(segment(b, p, s, j).len() >= 5);
    assert(anchor_five(b, s, i, j));
}

} // verus!
