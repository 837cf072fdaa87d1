//! Move generation and move-ordering heuristics of the alpha-beta search:
//! candidate moves near the stones, the merged line scan of both colors,
//! capture vulnerability, threat detection and four detection.
use super::threat::{makes_four, open_ends};
use crate::board::{on_board, opp, Bitboard, Board, Pos, Stone, TOTAL_CELLS};
use crate::rules::forbidden::{is_valid_move, valid_move};
use crate::rules::win::line_count;
use crate::rules::{base_dc, base_dr, line_dir, lemma_pos_of, pos_of};
use vstd::prelude::*;

verus! {

/// `p` lies within two rows and two columns of `q`.
pub open spec fn close(q: Pos, p: Pos) -> bool {
    -2 <= p.row - q.row <= 2 && -2 <= p.col - q.col <= 2
}

/// Some stone of the list lies within two cells of `p`.
pub open spec fn near_list(stones: Seq<Pos>, p: Pos) -> bool {
    exists|k: int| 0 <= k < stones.len() && #[trigger] close(stones[k], p)
}

/// Some stone of the board lies within two cells of `p`.
pub open spec fn near_stone(b: Board, p: Pos) -> bool {
    exists|q: Pos|
        q.valid() && (b.black.has(q.idx()) || b.white.has(q.idx())) && #[trigger] close(q, p)
}

/// Flags of the cells within two cells of a stone of `stones`.
fn flag_near(flags: &mut Vec<bool>, stones: &Vec<Pos>)
    requires
        old(flags)@.len() == TOTAL_CELLS,
        forall|k: int| 0 <= k < stones.len() ==> (#[trigger] stones[k]).valid(),
    ensures
        final(flags)@.len() == TOTAL_CELLS,
        forall|p: Pos| p.valid() ==> (#[trigger] final(flags)@[p.idx()] == (old(flags)@[p.idx()] || near_list(stones@, p))),
{
    let mut k: usize = 0;
    while k < stones.len()
        invariant
            0 <= k <= stones.len(),
            flags@.len() == 361,
            forall|q: int| 0 <= q < stones.len() ==> (#[trigger] stones[q]).valid(),
            forall|p: Pos| p.valid() ==> (#[trigger] flags@[p.idx()] == (old(flags)@[p.idx()] || near_list(stones@.take(k as int), p))),
        decreases stones.len() - k,
    {
        let s = stones[k];
        let ghost before = flags@;
        let mut dr: i32 = -2;
        while dr <= 2
            invariant
                -2 <= dr <= 3,
                s.valid(),
                flags@.len() == 361,
                forall|p: Pos| p.valid() ==> (#[trigger] flags@[p.idx()] == (before[p.idx()] || (close(s, p) && p.row - s.row < dr))),
            decreases 3 - dr,
        {
            let mut dc: i32 = -2;
            let ghost mid = flags@;
            while dc <= 2
                invariant
                    -2 <= dr <= 2,
                    -2 <= dc <= 3,
                    s.valid(),
                    flags@.len() == 361,
                    forall|p: Pos| p.valid() ==> (#[trigger] flags@[p.idx()] == (mid[p.idx()] || (close(s, p) && p.row - s.row == dr && p.col - s.col < dc))),
                decreases 3 - dc,
            {
                let r = s.row as i32 + dr;
                let c = s.col as i32 + dc;
                if Pos::is_valid(r, c) {
                    let p = Pos::new(r as u8, c as u8);
                    let ghost prev = flags@;
                    flags.set(p.to_index(), true);
                    proof {
                        assert forall|x: Pos| x.valid() implies (#[trigger] flags@[x.idx()] == (mid[x.idx()] || (close(s, x) && x.row - s.row == dr && x.col - s.col < dc + 1))) by {
                            assert(prev[x.idx()] == (mid[x.idx()] || (close(s, x) && x.row - s.row == dr && x.col - s.col < dc)));
                            if x.idx() == p.idx() {
                                super::threat::lemma_idx_injective(x, p);
                            }
                            if x.row == r && x.col == c {
                                assert(x.idx() == p.idx());
                            }
                        }
                    }
                } else {
                    proof {
                        assert forall|x: Pos| x.valid() implies (#[trigger] flags@[x.idx()] == (mid[x.idx()] || (close(s, x) && x.row - s.row == dr && x.col - s.col < dc + 1))) by {
                            assert(flags@[x.idx()] == (mid[x.idx()] || (close(s, x) && x.row - s.row == dr && x.col - s.col < dc)));
                        }
                    }
                }
                dc = dc + 1;
            }
            proof {
                assert forall|x: Pos| x.valid() implies (#[trigger] flags@[x.idx()] == (before[x.idx()] || (close(s, x) && x.row - s.row < dr + 1))) by {
                    assert(mid[x.idx()] == (before[x.idx()] || (close(s, x) && x.row - s.row < dr)));
                }
            }
            dr = dr + 1;
        }
        proof {
            assert forall|x: Pos| x.valid() implies (#[trigger] flags@[x.idx()] == (old(flags)@[x.idx()] || near_list(stones@.take(k as int + 1), x))) by {
                let t0 = stones@.take(k as int);
                let t1 = stones@.take(k as int + 1);
                assert(before[x.idx()] == (old(flags)@[x.idx()] || near_list(t0, x)));
                assert(t1[k as int] == s);
                if near_list(t1, x) {
                    let w = choose|w: int| 0 <= w < t1.len() && #[trigger] close(t1[w], x);
                    if w < k {
                        assert(t0[w] == t1[w]);
                        assert(close(t0[w], x));
                    }
                }
                if near_list(t0, x) {
                    let w = choose|w: int| 0 <= w < t0.len() && #[trigger] close(t0[w], x);
                    assert(t1[w] == t0[w]);
                    assert(close(t1[w], x));
                }
                if close(s, x) {
                    assert(close(t1[k as int], x));
                }
            }
        }
        k = k + 1;
    }
    proof {
        assert(stones@.take(stones.len() as int) =~= stones@);
    }
}

/// Flags of the cells within two cells of a stone of the board.
pub fn near_cells(board: &Board) -> (flags: Vec<bool>)
    ensures
        flags@.len() == TOTAL_CELLS,
        forall|p: Pos| p.valid() ==> (#[trigger] flags@[p.idx()] == near_stone(*board, p)),
{
    let mut flags: Vec<bool> = vec![false; TOTAL_CELLS];
    assert forall|k: int| 0 <= k < TOTAL_CELLS implies !#[trigger] flags@[k] by {
        assert(cloned(false, flags@[k]));
    }
    let blacks = board.black.iter_ones();
    let whites = board.white.iter_ones();
    flag_near(&mut flags, &blacks);
    flag_near(&mut flags, &whites);
    proof {
        assert forall|p: Pos| p.valid() implies (#[trigger] flags@[p.idx()] == near_stone(*board, p)) by {
            if near_list(blacks@, p) {
                let w = choose|w: int| 0 <= w < blacks@.len() && #[trigger] close(blacks@[w], p);
                let q = blacks@[w];
                assert(q.valid() && board.black.has(q.idx()));
            }
            if near_list(whites@, p) {
                let w = choose|w: int| 0 <= w < whites@.len() && #[trigger] close(whites@[w], p);
                let q = whites@[w];
                assert(q.valid() && board.white.has(q.idx()));
            }
            if near_stone(*board, p) {
                let q = choose|q: Pos| q.valid() && (board.black.has(q.idx()) || board.white.has(q.idx())) && #[trigger] close(q, p);
                assert(0 <= q.idx() < 361);
                if board.black.has(q.idx()) {
                    let w = choose|w: int| 0 <= w < blacks.len() && (#[trigger] blacks[w]).idx() == q.idx();
                    super::threat::lemma_idx_injective(blacks[w], q);
                    assert(close(blacks@[w], p));
                } else {
                    let w = choose|w: int| 0 <= w < whites.len() && (#[trigger] whites[w]).idx() == q.idx();
                    super::threat::lemma_idx_injective(whites[w], q);
                    assert(close(whites@[w], p));
                }
            }
        }
    }
    flags
}

/// Class of a cell for the scan of two bitboards: 1 when `me` holds it
/// (`me` takes precedence), 2 when `them` holds it, 0 when empty.
pub open spec fn cls(me: Bitboard, them: Bitboard, r: int, c: int) -> int {
    if me.has(r * 19 + c) {
        1
    } else if them.has(r * 19 + c) {
        2
    } else {
        0
    }
}

/// The bitboard of side `who` (1 = `me`, 2 = `them`) holds the cell.
pub open spec fn owns(me: Bitboard, them: Bitboard, who: int, r: int, c: int) -> bool {
    if who == 1 {
        me.has(r * 19 + c)
    } else {
        them.has(r * 19 + c)
    }
}

/// Scan of the cells from (r, c) along (dr, dc) for side `who`, allowing
/// one gap (an empty cell followed by an own stone) over both directions.
/// Returns (stones, open ends, gap used, consecutive stones before a gap).
pub open spec fn side_scan(
    me: Bitboard,
    them: Bitboard,
    who: int,
    r: int,
    c: int,
    dr: int,
    dc: int,
    gap: bool,
    consec: bool,
    fuel: nat,
) -> (int, int, bool, int)
    decreases fuel,
{
    if fuel == 0 || !on_board(r, c) {
        (0, 0, gap, 0)
    } else if cls(me, them, r, c) == who {
        let t = side_scan(me, them, who, r + dr, c + dc, dr, dc, gap, consec, (fuel - 1) as nat);
        (
            t.0 + 1,
            t.1,
            t.2,
            t.3 + if consec {
                1int
            } else {
                0int
            },
        )
    } else if cls(me, them, r, c) != 0 {
        (0, 0, gap, 0)
    } else if !gap {
        if on_board(r + dr, c + dc) && owns(me, them, who, r + dr, c + dc) {
            side_scan(me, them, who, r + dr, c + dc, dr, dc, true, false, (fuel - 1) as nat)
        } else {
            (0, 1, gap, 0)
        }
    } else {
        (0, 1, gap, 0)
    }
}

/// The line through `pos` along (dr, dc) for side `who`: (stones, open
/// ends, gap used, consecutive stones through `pos`).
pub open spec fn line_both(me: Bitboard, them: Bitboard, who: int, pos: Pos, dr: int, dc: int) -> (
    int,
    int,
    bool,
    int,
) {
    let p1 = side_scan(me, them, who, pos.row + dr, pos.col + dc, dr, dc, false, true, 19);
    let p2 = side_scan(me, them, who, pos.row - dr, pos.col - dc, -dr, -dc, p1.2, true, 19);
    (1 + p1.0 + p2.0, p1.1 + p2.1, p2.2, 1 + p1.3 + p2.3)
}

proof fn lemma_side_scan_bounds(
    me: Bitboard,
    them: Bitboard,
    who: int,
    r: int,
    c: int,
    dr: int,
    dc: int,
    gap: bool,
    consec: bool,
    fuel: nat,
)
    ensures
        0 <= side_scan(me, them, who, r, c, dr, dc, gap, consec, fuel).0 <= fuel,
        0 <= side_scan(me, them, who, r, c, dr, dc, gap, consec, fuel).1 <= 1,
        0 <= side_scan(me, them, who, r, c, dr, dc, gap, consec, fuel).3 <= side_scan(me, them, who, r, c, dr, dc, gap, consec, fuel).0,
    decreases fuel,
{
    if fuel > 0 {
        lemma_side_scan_bounds(me, them, who, r + dr, c + dc, dr, dc, gap, consec, (fuel - 1) as nat);
        lemma_side_scan_bounds(me, them, who, r + dr, c + dc, dr, dc, true, false, (fuel - 1) as nat);
    }
}

/// One step of a side scan for one color at the cell (r, c), whose class
/// is `cell` (1 = `me`, 2 = `them`, 0 = empty) and where `ahead_own` tells
/// whether the next cell belongs to the scanning side. Returns the updated
/// (count, open, gap, consecutive, still consecutive, still scanning).
fn scan_step(who: u8, cell: u8, ahead_own: bool, cnt: i32, open: i32, g: bool, cons: i32, consec: bool) -> (res: (i32, i32, bool, i32, bool, bool))
    requires
        who == 1 || who == 2,
        cell <= 2,
        0 <= cons <= cnt < 19,
        0 <= open <= 1,
    ensures
        cell == who ==> res.0 == cnt + 1 && res.1 == open && res.2 == g && res.3 == (if consec {
            cons + 1
        } else {
            cons as int
        }) && res.4 == consec && res.5,
        cell != who && cell != 0 ==> res.0 == cnt && res.1 == open && res.2 == g && res.3 == cons
            && res.4 == consec && !res.5,
        cell == 0 && !g && ahead_own ==> res.0 == cnt && res.1 == open && res.2 && res.3 == cons
            && !res.4 && res.5,
        cell == 0 && !g && !ahead_own ==> res.0 == cnt && res.1 == open + 1 && res.2 == g && res.3
            == cons && !res.4 && !res.5,
        cell == 0 && g ==> res.0 == cnt && res.1 == open + 1 && res.2 == g && res.3 == cons && res.4
            == consec && !res.5,
{
    if cell == who {
        (cnt + 1, open, g, if consec { cons + 1 } else { cons }, consec, true)
    } else if cell != 0 {
        (cnt, open, g, cons, consec, false)
    } else if !g {
        if ahead_own {
            (cnt, open, true, cons, false, true)
        } else {
            (cnt, open + 1, g, cons, false, false)
        }
    } else {
        (cnt, open + 1, g, cons, consec, false)
    }
}

/// Scan one direction for both sides in one pass: each cell is read once
/// for both. Returns the scans of side 1 (`me`, starting with gap state
/// `gap1`) and side 2 (`them`, gap state `gap2`).
#[verifier::rlimit(30)]
fn scan_dir_both(
    me: &Bitboard,
    them: &Bitboard,
    r0: i32,
    c0: i32,
    dr: i32,
    dc: i32,
    gap1: bool,
    gap2: bool,
) -> (res: ((i32, i32, bool, i32), (i32, i32, bool, i32)))
    requires
        -1 <= dr <= 1,
        -1 <= dc <= 1,
        -3 <= r0 <= 21,
        -3 <= c0 <= 21,
    ensures
        (res.0.0 as int, res.0.1 as int, res.0.2, res.0.3 as int) == side_scan(*me, *them, 1, r0 as int, c0 as int, dr as int, dc as int, gap1, true, 19),
        (res.1.0 as int, res.1.1 as int, res.1.2, res.1.3 as int) == side_scan(*me, *them, 2, r0 as int, c0 as int, dr as int, dc as int, gap2, true, 19),
        0 <= res.0.0 <= 19,
        0 <= res.0.1 <= 1,
        0 <= res.0.3 <= res.0.0,
        0 <= res.1.0 <= 19,
        0 <= res.1.1 <= 1,
        0 <= res.1.3 <= res.1.0,
{
    let ghost ta = side_scan(*me, *them, 1, r0 as int, c0 as int, dr as int, dc as int, gap1, true, 19);
    let ghost tb = side_scan(*me, *them, 2, r0 as int, c0 as int, dr as int, dc as int, gap2, true, 19);
    proof {
        lemma_side_scan_bounds(*me, *them, 1, r0 as int, c0 as int, dr as int, dc as int, gap1, true, 19);
        lemma_side_scan_bounds(*me, *them, 2, r0 as int, c0 as int, dr as int, dc as int, gap2, true, 19);
    }
    let mut r = r0;
    let mut c = c0;
    let mut ca: i32 = 0;
    let mut oa: i32 = 0;
    let mut ga = gap1;
    let mut sa: i32 = 0;
    let mut ka = true;
    let mut aa = true;
    let mut cb: i32 = 0;
    let mut ob: i32 = 0;
    let mut gb = gap2;
    let mut sb: i32 = 0;
    let mut kb = true;
    let mut ab = true;
    let mut fuel: u32 = 19;
    while (aa || ab) && fuel > 0 && Pos::is_valid(r, c)
        invariant
            -1 <= dr <= 1,
            -1 <= dc <= 1,
            fuel <= 19,
            r0 - (19 - fuel) <= r <= r0 + (19 - fuel),
            c0 - (19 - fuel) <= c <= c0 + (19 - fuel),
            -3 <= r0 <= 21,
            -3 <= c0 <= 21,
            0 <= sa <= ca,
            ca + fuel <= 19,
            0 <= oa <= 1,
            0 <= sb <= cb,
            cb + fuel <= 19,
            0 <= ob <= 1,
            aa ==> {
                let t = side_scan(*me, *them, 1, r as int, c as int, dr as int, dc as int, ga, ka, fuel as nat);
                ta == (ca + t.0, oa + t.1, t.2, sa + t.3)
            },
            aa ==> oa == 0,
            !aa ==> ta == (ca as int, oa as int, ga, sa as int),
            ab ==> {
                let t = side_scan(*me, *them, 2, r as int, c as int, dr as int, dc as int, gb, kb, fuel as nat);
                tb == (cb + t.0, ob + t.1, t.2, sb + t.3)
            },
            ab ==> ob == 0,
            !ab ==> tb == (cb as int, ob as int, gb, sb as int),
        decreases fuel,
    {
        proof {
            lemma_side_scan_bounds(*me, *them, 1, r as int + dr, c as int + dc, dr as int, dc as int, ga, ka, (fuel - 1) as nat);
            lemma_side_scan_bounds(*me, *them, 2, r as int + dr, c as int + dc, dr as int, dc as int, gb, kb, (fuel - 1) as nat);
            lemma_side_scan_bounds(*me, *them, 1, r as int + dr, c as int + dc, dr as int, dc as int, true, false, (fuel - 1) as nat);
            lemma_side_scan_bounds(*me, *them, 2, r as int + dr, c as int + dc, dr as int, dc as int, true, false, (fuel - 1) as nat);
        }
        let p = Pos::new(r as u8, c as u8);
        assert(p.idx() == r * 19 + c);
        let cell: u8 = if me.get(p) {
            1
        } else if them.get(p) {
            2
        } else {
            0
        };
        let nr = r + dr;
        let nc = c + dc;
        let (ahead_me, ahead_them) = if cell == 0 && Pos::is_valid(nr, nc) {
            let np = Pos::new(nr as u8, nc as u8);
            assert(np.idx() == nr * 19 + nc);
            (me.get(np), them.get(np))
        } else {
            (false, false)
        };
        if aa {
            let (x0, x1, x2, x3, x4, x5) = scan_step(1, cell, ahead_me, ca, oa, ga, sa, ka);
            ca = x0;
            oa = x1;
            ga = x2;
            sa = x3;
            ka = x4;
            aa = x5;
        }
        if ab {
            let (y0, y1, y2, y3, y4, y5) = scan_step(2, cell, ahead_them, cb, ob, gb, sb, kb);
            cb = y0;
            ob = y1;
            gb = y2;
            sb = y3;
            kb = y4;
            ab = y5;
        }
        r = nr;
        c = nc;
        fuel = fuel - 1;
    }
    ((ca, oa, ga, sa), (cb, ob, gb, sb))
}

/// Scan the line through `pos` along (dr, dc) for both colors at once.
///
/// Returns (my count, my open ends, my gap, my consecutive count, opponent
/// count, opponent open ends, opponent gap, opponent consecutive count).
pub fn count_line_both(my_bb: &Bitboard, opp_bb: &Bitboard, pos: Pos, dr: i8, dc: i8) -> (res: (
    i32,
    i32,
    bool,
    i32,
    i32,
    i32,
    bool,
    i32,
))
    requires
        pos.valid(),
        -1 <= dr <= 1,
        -1 <= dc <= 1,
    ensures
        (res.0 as int, res.1 as int, res.2, res.3 as int) == line_both(*my_bb, *opp_bb, 1, pos, dr as int, dc as int),
        (res.4 as int, res.5 as int, res.6, res.7 as int) == line_both(*my_bb, *opp_bb, 2, pos, dr as int, dc as int),
        1 <= res.0 <= 39 && 0 <= res.1 <= 2 && 1 <= res.3 <= res.0,
        1 <= res.4 <= 39 && 0 <= res.5 <= 2 && 1 <= res.7 <= res.4,
{
    let dr = dr as i32;
    let dc = dc as i32;
    let r = pos.row as i32;
    let c = pos.col as i32;
    let ((a1, b1, g1, c1), (o1, p1, h1, d1)) = scan_dir_both(my_bb, opp_bb, r + dr, c + dc, dr, dc, false, false);
    let ((a2, b2, g2, c2), (o2, p2, h2, d2)) = scan_dir_both(my_bb, opp_bb, r - dr, c - dc, -dr, -dc, g1, h1);
    (1 + a1 + a2, b1 + b2, g2, 1 + c1 + c2, 1 + o1 + o2, p1 + p2, h2, 1 + d1 + d2)
}

/// Indicator of a condition.
pub open spec fn ind(b: bool) -> int {
    if b {
        1
    } else {
        0
    }
}

/// The bitboard holds the on-board cell (r, c).
pub open spec fn at_bb(bb: Bitboard, r: int, c: int) -> bool {
    bb.has(r * 19 + c)
}

/// Neither bitboard holds the cell (r, c).
pub open spec fn vacant(me: Bitboard, them: Bitboard, r: int, c: int) -> bool {
    !me.has(r * 19 + c) && !them.has(r * 19 + c)
}

/// Row step of ray `k` in `0..8`: direction `k / 2`, negative side first.
pub open spec fn ray_sdr(k: int) -> int {
    if k % 2 == 0 {
        -base_dr(k / 2)
    } else {
        base_dr(k / 2)
    }
}

/// Column step of ray `k` in `0..8`.
pub open spec fn ray_sdc(k: int) -> int {
    if k % 2 == 0 {
        -base_dc(k / 2)
    } else {
        base_dc(k / 2)
    }
}

/// Capturable-pair patterns of a stone placed at `mov`, along ray `k`:
/// (pairs the opponent can take next move, pairs open on both flanks).
pub open spec fn vuln_terms(me: Bitboard, them: Bitboard, mov: Pos, k: int) -> (int, int) {
    let dr = ray_sdr(k);
    let dc = ray_sdc(k);
    let r = mov.row as int;
    let c = mov.col as int;
    let a_ok = on_board(r - dr, c - dc) && on_board(r + dr, c + dc) && on_board(r + 2 * dr, c + 2 * dc);
    let b_ok = on_board(r - 2 * dr, c - 2 * dc) && on_board(r - dr, c - dc) && on_board(r + dr, c + dc);
    let v1 = a_ok && vacant(me, them, r - dr, c - dc) && at_bb(me, r + dr, c + dc) && at_bb(them, r + 2 * dr, c + 2 * dc);
    let v2 = a_ok && at_bb(them, r - dr, c - dc) && at_bb(me, r + dr, c + dc) && vacant(me, them, r + 2 * dr, c + 2 * dc);
    let s1 = a_ok && vacant(me, them, r - dr, c - dc) && at_bb(me, r + dr, c + dc) && vacant(me, them, r + 2 * dr, c + 2 * dc);
    let v3 = b_ok && vacant(me, them, r - 2 * dr, c - 2 * dc) && at_bb(me, r - dr, c - dc) && at_bb(them, r + dr, c + dc);
    let v4 = b_ok && at_bb(them, r - 2 * dr, c - 2 * dc) && at_bb(me, r - dr, c - dc) && vacant(me, them, r + dr, c + dc);
    let s2 = b_ok && vacant(me, them, r - 2 * dr, c - 2 * dc) && at_bb(me, r - dr, c - dc) && vacant(me, them, r + dr, c + dc);
    (ind(v1) + ind(v2) + ind(v3) + ind(v4), ind(s1) + ind(s2))
}

/// Sum of `vuln_terms` over the rays below `n`.
pub open spec fn vuln_sum(me: Bitboard, them: Bitboard, mov: Pos, n: int) -> (int, int)
    decreases n,
{
    if n <= 0 {
        (0, 0)
    } else {
        let a = vuln_sum(me, them, mov, n - 1);
        let t = vuln_terms(me, them, mov, n - 1);
        (a.0 + t.0, a.1 + t.1)
    }
}

/// Urgency factor of the capture threat for an opponent holding `caps` pairs.
pub open spec fn urgency(caps: u8) -> int {
    if caps >= 3 {
        4
    } else if caps >= 2 {
        2
    } else {
        1
    }
}

/// Penalty for placing at `mov` a stone that forms a capturable pair.
pub open spec fn vuln_penalty(me: Bitboard, them: Bitboard, mov: Pos, opp_captures: u8) -> int {
    let t = vuln_sum(me, them, mov, 8);
    t.0 * 20_000 * urgency(opp_captures) + t.1 * 10_000 * urgency(opp_captures)
}

pub proof fn lemma_vuln_sum_bounds(me: Bitboard, them: Bitboard, mov: Pos, n: int)
    requires
        0 <= n <= 8,
    ensures
        0 <= vuln_sum(me, them, mov, n).0 <= 4 * n,
        0 <= vuln_sum(me, them, mov, n).1 <= 2 * n,
    decreases n,
{
    if n > 0 {
        lemma_vuln_sum_bounds(me, them, mov, n - 1);
    }
}

/// Whether bitboard `bb` holds the cell (r, c), which must be on the board.
fn bb_at(bb: &Bitboard, r: i32, c: i32) -> (b: bool)
    requires
        on_board(r as int, c as int),
    ensures
        b == at_bb(*bb, r as int, c as int),
{
    let p = Pos::new(r as u8, c as u8);
    assert(p.idx() == r * 19 + c);
    bb.get(p)
}

/// Step of ray `k`.
fn ray_step(k: usize) -> (d: (i32, i32))
    requires
        k < 8,
    ensures
        d.0 == ray_sdr(k as int),
        d.1 == ray_sdc(k as int),
        -1 <= d.0 <= 1,
        -1 <= d.1 <= 1,
{
    let (dr, dc) = line_dir(k / 2);
    if k % 2 == 0 {
        (-dr, -dc)
    } else {
        (dr, dc)
    }
}

/// Penalty for placing at `mov` a stone that forms a capturable pair: 20000
/// per pair the opponent can take next move and 10000 per pair open on both
/// flanks, scaled by the opponent's capture count.
pub fn capture_vulnerability(my_bb: &Bitboard, opp_bb: &Bitboard, mov: Pos, opp_captures: u8) -> (s: i32)
    requires
        mov.valid(),
    ensures
        s == vuln_penalty(*my_bb, *opp_bb, mov, opp_captures),
        0 <= s <= 32 * 20_000 * 4 + 16 * 10_000 * 4,
{
    let mut vuln_count: i32 = 0;
    let mut setup_vuln_count: i32 = 0;
    let r = mov.row as i32;
    let c = mov.col as i32;
    let mut k: usize = 0;
    while k < 8
        invariant
            0 <= k <= 8,
            mov.valid(),
            r == mov.row,
            c == mov.col,
            (vuln_count as int, setup_vuln_count as int) == vuln_sum(*my_bb, *opp_bb, mov, k as int),
            0 <= vuln_count <= 4 * k,
            0 <= setup_vuln_count <= 2 * k,
        decreases 8 - k,
    {
        let (dr, dc) = ray_step(k);
        let mut v: i32 = 0;
        let mut su: i32 = 0;
        if Pos::is_valid(r - dr, c - dc) && Pos::is_valid(r + dr, c + dc) && Pos::is_valid(r + 2 * dr, c + 2 * dc) {
            let m1_empty = !bb_at(my_bb, r - dr, c - dc) && !bb_at(opp_bb, r - dr, c - dc);
            let p2_empty = !bb_at(my_bb, r + 2 * dr, c + 2 * dc) && !bb_at(opp_bb, r + 2 * dr, c + 2 * dc);
            let p1_mine = bb_at(my_bb, r + dr, c + dc);
            if m1_empty && p1_mine && bb_at(opp_bb, r + 2 * dr, c + 2 * dc) {
                v = v + 1;
            }
            if bb_at(opp_bb, r - dr, c - dc) && p1_mine && p2_empty {
                v = v + 1;
            }
            if m1_empty && p1_mine && p2_empty {
                su = su + 1;
            }
        }
        if Pos::is_valid(r - 2 * dr, c - 2 * dc) && Pos::is_valid(r - dr, c - dc) && Pos::is_valid(r + dr, c + dc) {
            let m2_empty = !bb_at(my_bb, r - 2 * dr, c - 2 * dc) && !bb_at(opp_bb, r - 2 * dr, c - 2 * dc);
            let p1_empty = !bb_at(my_bb, r + dr, c + dc) && !bb_at(opp_bb, r + dr, c + dc);
            let m1_mine = bb_at(my_bb, r - dr, c - dc);
            if m2_empty && m1_mine && bb_at(opp_bb, r + dr, c + dc) {
                v = v + 1;
            }
            if bb_at(opp_bb, r - 2 * dr, c - 2 * dc) && m1_mine && p1_empty {
                v = v + 1;
            }
            if m2_empty && m1_mine && p1_empty {
                su = su + 1;
            }
        }
        assert((v as int, su as int) == vuln_terms(*my_bb, *opp_bb, mov, k as int));
        vuln_count = vuln_count + v;
        setup_vuln_count = setup_vuln_count + su;
        k = k + 1;
    }
    let total = vuln_count + setup_vuln_count;
    if total > 0 {
        let urgency: i32 = if opp_captures >= 3 {
            4
        } else if opp_captures >= 2 {
            2
        } else {
            1
        };
        let base_penalty: i32 = 20_000;
        assert(vuln_count * 20_000 * urgency <= 32 * 20_000 * 4) by (nonlinear_arith)
            requires
                0 <= vuln_count <= 32,
                1 <= urgency <= 4,
        ;
        assert(setup_vuln_count * 10_000 * urgency <= 16 * 10_000 * 4) by (nonlinear_arith)
            requires
                0 <= setup_vuln_count <= 16,
                1 <= urgency <= 4,
        ;
        assert(vuln_count * 20_000 * urgency >= 0 && setup_vuln_count * 10_000 * urgency >= 0) by (nonlinear_arith)
            requires
                0 <= vuln_count,
                0 <= setup_vuln_count,
                1 <= urgency,
        ;
        vuln_count * base_penalty * urgency + setup_vuln_count * (base_penalty / 2) * urgency
    } else {
        0
    }
}

/// Whether the stone just placed at `pos` makes exactly four in a row with
/// at least one open end (the move deserves a threat extension).
pub fn move_creates_four(board: &Board, pos: Pos, color: Stone) -> (b: bool)
    requires
        pos.valid(),
    ensures
        b == makes_four(*board, pos, color),
{
    let mut j: usize = 0;
    while j < 4
        invariant
            0 <= j <= 4,
            pos.valid(),
            forall|q: int|
                0 <= q < j ==> !(#[trigger] line_count(*board, pos, color, q) == 4 && open_ends(*board, pos, color, q) >= 1),
        decreases 4 - j,
    {
        let (count, opens) = super::threat::ThreatSearcher::line_shape(board, pos, color, j);
        if count == 4 && opens >= 1 {
            return true;
        }
        j = j + 1;
    }
    false
}

/// Gap scan for threat detection: from (r, c) along (dr, dc), at most
/// `steps` cells, counting stones of `o` and skipping one empty cell that is
/// followed by a stone of `o`. Returns (stones, gap used, open ends).
pub open spec fn gap_scan(b: Board, o: Stone, r: int, c: int, dr: int, dc: int, steps: nat, gap: bool) -> (int, bool, int)
    decreases steps,
{
    if steps == 0 || !on_board(r, c) {
        (0, gap, 0)
    } else if b.at(r, c) == o {
        let t = gap_scan(b, o, r + dr, c + dc, dr, dc, (steps - 1) as nat, gap);
        (t.0 + 1, t.1, t.2)
    } else if b.at(r, c) == Stone::Empty && !gap {
        if on_board(r + dr, c + dc) && b.at(r + dr, c + dc) == o {
            gap_scan(b, o, r + dr, c + dc, dr, dc, (steps - 1) as nat, true)
        } else {
            (0, gap, 1)
        }
    } else {
        (0, gap, 0)
    }
}

/// Plain scan for threat detection: stones of `o` from (r, c) along
/// (dr, dc), at most `steps` cells, and whether it stopped on an empty cell.
pub open spec fn plain_scan(b: Board, o: Stone, r: int, c: int, dr: int, dc: int, steps: nat) -> (int, int)
    decreases steps,
{
    if steps == 0 || !on_board(r, c) {
        (0, 0)
    } else if b.at(r, c) == o {
        let t = plain_scan(b, o, r + dr, c + dc, dr, dc, (steps - 1) as nat);
        (t.0 + 1, t.1)
    } else if b.at(r, c) == Stone::Empty {
        (0, 1)
    } else {
        (0, 0)
    }
}

/// Along ray `k` from `lm`, the opponent `o` has a broken line with one gap
/// of three stones with two open ends, or of four or more stones.
pub open spec fn gap_threat(b: Board, o: Stone, lm: Pos, k: int) -> bool {
    let dr = ray_sdr(k);
    let dc = ray_sdc(k);
    let p = gap_scan(b, o, lm.row + dr, lm.col + dc, dr, dc, 4, false);
    let n = plain_scan(b, o, lm.row - dr, lm.col - dc, -dr, -dc, 4);
    let count = 1 + p.0 + n.0;
    let open = p.2 + n.1;
    p.1 && (count >= 4 || (count >= 3 && open >= 2))
}

/// Along ray `k`, the opponent's stone at `lm` brackets a pair of `us`
/// followed by an empty cell (a capture next move).
pub open spec fn capture_setup(b: Board, us: Stone, lm: Pos, k: int) -> bool {
    let dr = ray_sdr(k);
    let dc = ray_sdc(k);
    let r = lm.row as int;
    let c = lm.col as int;
    &&& on_board(r + dr, c + dc) && on_board(r + 2 * dr, c + 2 * dc) && on_board(r + 3 * dr, c + 3 * dc)
    &&& b.at(r + dr, c + dc) == us
    &&& b.at(r + 2 * dr, c + 2 * dc) == us
    &&& b.at(r + 3 * dr, c + 3 * dc) == Stone::Empty
}

/// The side to move (`color`) faces an immediate tactical threat after the
/// opponent's move at `lm`: the opponent holds four pairs, has a line of four
/// or an open three through `lm`, a broken line of that strength, or brackets
/// a pair of `color` next to an empty cell.
pub open spec fn threatened(b: Board, color: Stone, lm: Pos) -> bool {
    let o = opp(color);
    ||| b.caps(o) >= 4
    ||| exists|j: int| 0 <= j < 4 && (#[trigger] line_count(b, lm, o, j) >= 4 || (line_count(b, lm, o, j) >= 3 && open_ends(b, lm, o, j) >= 2))
    ||| exists|k: int| 0 <= k < 8 && #[trigger] gap_threat(b, o, lm, k)
    ||| exists|k: int| 0 <= k < 8 && #[trigger] capture_setup(b, color, lm, k)
}

/// Run `gap_scan` from (r, c).
fn gap_scan_exec(board: &Board, o: Stone, r0: i32, c0: i32, dr: i32, dc: i32) -> (res: (i32, bool, i32))
    requires
        -1 <= dr <= 1,
        -1 <= dc <= 1,
        -2 <= r0 <= 20,
        -2 <= c0 <= 20,
    ensures
        (res.0 as int, res.1, res.2 as int) == gap_scan(*board, o, r0 as int, c0 as int, dr as int, dc as int, 4, false),
        0 <= res.0 <= 4,
        0 <= res.2 <= 1,
{
    let ghost target = gap_scan(*board, o, r0 as int, c0 as int, dr as int, dc as int, 4, false);
    let mut r = r0;
    let mut c = c0;
    let mut count: i32 = 0;
    let mut gap = false;
    let mut open: i32 = 0;
    let mut steps: u32 = 4;
    let mut active = true;
    while active && steps > 0 && Pos::is_valid(r, c)
        invariant
            -1 <= dr <= 1,
            -1 <= dc <= 1,
            steps <= 4,
            r0 - (4 - steps) <= r <= r0 + (4 - steps),
            c0 - (4 - steps) <= c <= c0 + (4 - steps),
            0 <= count <= 4 - steps,
            active ==> open == 0,
            0 <= open <= 1,
            active ==> {
                let t = gap_scan(*board, o, r as int, c as int, dr as int, dc as int, steps as nat, gap);
                target == (count + t.0, t.1, open + t.2)
            },
            !active ==> target == (count as int, gap, open as int),
        decreases steps,
    {
        let s = crate::rules::stone_at(board, r, c);
        if s == o {
            count = count + 1;
        } else if s == Stone::Empty && !gap {
            let nr = r + dr;
            let nc = c + dc;
            if Pos::is_valid(nr, nc) && crate::rules::stone_at(board, nr, nc) == o {
                gap = true;
            } else {
                open = open + 1;
                active = false;
            }
        } else {
            active = false;
        }
        r = r + dr;
        c = c + dc;
        steps = steps - 1;
    }
    proof {
        if active {
            assert(count <= 4);
        }
    }
    (count, gap, open)
}

/// Run `plain_scan` from (r, c).
fn plain_scan_exec(board: &Board, o: Stone, r0: i32, c0: i32, dr: i32, dc: i32) -> (res: (i32, i32))
    requires
        -1 <= dr <= 1,
        -1 <= dc <= 1,
        -2 <= r0 <= 20,
        -2 <= c0 <= 20,
    ensures
        (res.0 as int, res.1 as int) == plain_scan(*board, o, r0 as int, c0 as int, dr as int, dc as int, 4),
        0 <= res.0 <= 4,
        0 <= res.1 <= 1,
{
    let ghost target = plain_scan(*board, o, r0 as int, c0 as int, dr as int, dc as int, 4);
    let mut r = r0;
    let mut c = c0;
    let mut count: i32 = 0;
    let mut open: i32 = 0;
    let mut steps: u32 = 4;
    let mut active = true;
    while active && steps > 0 && Pos::is_valid(r, c)
        invariant
            -1 <= dr <= 1,
            -1 <= dc <= 1,
            steps <= 4,
            r0 - (4 - steps) <= r <= r0 + (4 - steps),
            c0 - (4 - steps) <= c <= c0 + (4 - steps),
            0 <= count <= 4 - steps,
            active ==> open == 0,
            0 <= open <= 1,
            active ==> {
                let t = plain_scan(*board, o, r as int, c as int, dr as int, dc as int, steps as nat);
                target == (count + t.0, open + t.1)
            },
            !active ==> target == (count as int, open as int),
        decreases steps,
    {
        let s = crate::rules::stone_at(board, r, c);
        if s == o {
            count = count + 1;
        } else if s == Stone::Empty {
            open = open + 1;
            active = false;
        } else {
            active = false;
        }
        r = r + dr;
        c = c + dc;
        steps = steps - 1;
    }
    (count, open)
}

/// Whether the side to move faces an immediate tactical threat after the
/// opponent's move at `last_move` (see `threatened`).
pub fn is_threatened(board: &Board, color: Stone, last_move: Pos) -> (b: bool)
    requires
        last_move.valid(),
    ensures
        b == threatened(*board, color, last_move),
{
    let o = color.opponent();
    if board.captures(o) >= 4 {
        return true;
    }
    let mut j: usize = 0;
    while j < 4
        invariant
            0 <= j <= 4,
            last_move.valid(),
            o == opp(color),
            board.caps(o) < 4,
            forall|q: int| 0 <= q < j ==> !(#[trigger] line_count(*board, last_move, o, q) >= 4 || (line_count(*board, last_move, o, q) >= 3 && open_ends(*board, last_move, o, q) >= 2)),
        decreases 4 - j,
    {
        let (count, opens) = super::threat::ThreatSearcher::line_shape(board, last_move, o, j);
        if count >= 4 || (count >= 3 && opens >= 2) {
            return true;
        }
        j = j + 1;
    }
    let r = last_move.row as i32;
    let c = last_move.col as i32;
    let mut k: usize = 0;
    while k < 8
        invariant
            0 <= k <= 8,
            last_move.valid(),
            r == last_move.row,
            c == last_move.col,
            o == opp(color),
            forall|q: int| 0 <= q < k ==> !#[trigger] gap_threat(*board, o, last_move, q),
        decreases 8 - k,
    {
        let (dr, dc) = ray_step(k);
        let (pc, gap_used, po) = gap_scan_exec(board, o, r + dr, c + dc, dr, dc);
        let (nc, no) = plain_scan_exec(board, o, r - dr, c - dc, -dr, -dc);
        let count = 1 + pc + nc;
        let open = po + no;
        if gap_used && (count >= 4 || (count >= 3 && open >= 2)) {
            assert(gap_threat(*board, o, last_move, k as int));
            return true;
        }
        k = k + 1;
    }
    let mut k: usize = 0;
    while k < 8
        invariant
            0 <= k <= 8,
            last_move.valid(),
            r == last_move.row,
            c == last_move.col,
            forall|q: int| 0 <= q < k ==> !#[trigger] capture_setup(*board, color, last_move, q),
        decreases 8 - k,
    {
        let (dr, dc) = ray_step(k);
        if Pos::is_valid(r + dr, c + dc) && Pos::is_valid(r + 2 * dr, c + 2 * dc) && Pos::is_valid(r + 3 * dr, c + 3 * dc) {
            let s1 = crate::rules::stone_at(board, r + dr, c + dc);
            let s2 = crate::rules::stone_at(board, r + 2 * dr, c + 2 * dc);
            let s3 = crate::rules::stone_at(board, r + 3 * dr, c + 3 * dc);
            if s1 == color && s2 == color && s3 == Stone::Empty {
                assert(capture_setup(*board, color, last_move, k as int));
                return true;
            }
        }
        k = k + 1;
    }
    false
}

} // verus!
