//! Heuristic evaluation of board positions for the search.
//!
//! The score of a position for a color combines line patterns (fives, fours,
//! threes, twos), capture counts, center control, connectivity and the
//! vulnerability of pairs to capture. It is antisymmetric:
//! `evaluate(b, Black) == -evaluate(b, White)`.
use super::patterns::{cap_weight, capture_score, PatternScore};
use crate::board::{on_board, opp, Bitboard, Board, Pos, Stone};
use crate::rules::{base_dc, base_dr, line_dir, stone_at};
use vstd::prelude::*;

verus! {

/// Per-color totals: (score, open fours, closed fours, open threes, open twos,
/// vulnerable pairs).
pub type Terms = (int, int, int, int, int, int);

/// Scan forward from (r, c) along a line counting stones of `color`, allowing
/// one gap followed by a stone: returns (count, open ends, gap used, span).
pub open spec fn line_scan(
    b: Board,
    r: int,
    c: int,
    dr: int,
    dc: int,
    color: Stone,
    count: int,
    open: int,
    gap: bool,
    span: int,
    fuel: nat,
) -> (int, int, bool, int)
    decreases fuel,
{
    if fuel == 0 || !on_board(r, c) {
        (count, open, gap, span)
    } else if b.at(r, c) == color {
        line_scan(b, r + dr, c + dc, dr, dc, color, count + 1, open, gap, span + 1, (fuel - 1) as nat)
    } else if b.at(r, c) == Stone::Empty && !gap {
        if on_board(r + dr, c + dc) && b.at(r + dr, c + dc) == color {
            line_scan(b, r + dr, c + dc, dr, dc, color, count, open, true, span + 1, (fuel - 1) as nat)
        } else {
            (count, open + 1, gap, span)
        }
    } else if b.at(r, c) == Stone::Empty {
        (count, open + 1, gap, span)
    } else {
        (count, open, gap, span)
    }
}

/// Score of a scanned line pattern.
pub open spec fn pattern_value(count: int, open: int, gap: bool, span: int) -> int {
    if gap {
        if count >= 5 {
            100_000
        } else if count == 4 && span == 5 {
            100_000
        } else if count == 4 {
            50_000
        } else if count == 3 && open == 2 {
            10_000
        } else if count == 3 && open == 1 {
            1_500
        } else {
            0
        }
    } else {
        if count >= 5 {
            1_000_000
        } else if count == 4 && open == 2 {
            100_000
        } else if count == 4 && open == 1 {
            50_000
        } else if count == 3 && open == 2 {
            10_000
        } else if count == 3 && open == 1 {
            1_500
        } else if count == 2 && open == 2 {
            1_000
        } else if count == 2 && open == 1 {
            200
        } else {
            0
        }
    }
}

/// Score of the line starting at `pos` along direction (dr, dc); zero unless
/// `pos` starts the line (no stone of `color` just before it).
pub open spec fn line_value(b: Board, pos: Pos, dr: int, dc: int, color: Stone) -> int {
    let pr = pos.row - dr;
    let pc = pos.col - dc;
    if on_board(pr, pc) && b.at(pr, pc) == color {
        0
    } else {
        let open0 = if on_board(pr, pc) && b.at(pr, pc) == Stone::Empty {
            1int
        } else {
            0int
        };
        let res = line_scan(b, pos.row + dr, pos.col + dc, dr, dc, color, 1, open0, false, 1, 20);
        pattern_value(res.0, res.1, res.2, res.3)
    }
}

/// Absolute value.
pub open spec fn abs_int(x: int) -> int {
    if x < 0 {
        -x
    } else {
        x
    }
}

/// Center-control bonus of a cell.
pub open spec fn position_bonus(pos: Pos) -> int {
    (18 - (abs_int(pos.row - 9) + abs_int(pos.col - 9))) * 8
}

/// 80 when the neighbor at offset (dr, dc) holds `color`.
pub open spec fn neighbor_bonus(b: Board, pos: Pos, dr: int, dc: int, color: Stone) -> int {
    if on_board(pos.row + dr, pos.col + dc) && b.at(pos.row + dr, pos.col + dc) == color {
        80
    } else {
        0
    }
}

/// The stone at an offset, `Empty` when off the board.
pub open spec fn at_or_empty(b: Board, r: int, c: int) -> Stone {
    if on_board(r, c) {
        b.at(r, c)
    } else {
        Stone::Empty
    }
}

/// Vulnerable pairs through `pos` along direction (dr, dc): `pos` and its next
/// cell hold `color`, and one flank is the opponent while the other is an
/// empty cell on the board.
pub open spec fn vuln_dir(b: Board, pos: Pos, dr: int, dc: int, color: Stone) -> int {
    let r1 = pos.row + dr;
    let c1 = pos.col + dc;
    if !on_board(r1, c1) || b.at(r1, c1) != color {
        0
    } else {
        let before = at_or_empty(b, pos.row - dr, pos.col - dc);
        let after = at_or_empty(b, r1 + dr, c1 + dc);
        (if before == Stone::Empty && after == opp(color) && on_board(pos.row - dr, pos.col - dc) {
            1int
        } else {
            0int
        }) + (if before == opp(color) && after == Stone::Empty && on_board(r1 + dr, c1 + dc) {
            1int
        } else {
            0int
        })
    }
}

/// A pair of `color` (the stone at `pos` and the next one along (dr, dc))
/// with an opponent stone at one end and an empty cell at the other is one
/// capturable pair; a pair with both ends empty, or both held by the
/// opponent, is none.
pub proof fn law_flanked_pair_is_vulnerable(b: Board, pos: Pos, dr: int, dc: int, color: Stone)
    requires
        color == Stone::Black || color == Stone::White,
        on_board(pos.row + dr, pos.col + dc),
        b.at(pos.row + dr, pos.col + dc) == color,
        on_board(pos.row - dr, pos.col - dc),
        on_board(pos.row + 2 * dr, pos.col + 2 * dc),
    ensures
        b.at(pos.row - dr, pos.col - dc) == opp(color) && b.at(pos.row + 2 * dr, pos.col + 2 * dc)
            == Stone::Empty ==> vuln_dir(b, pos, dr, dc, color) == 1,
        b.at(pos.row - dr, pos.col - dc) == Stone::Empty && b.at(pos.row + 2 * dr, pos.col + 2 * dc)
            == opp(color) ==> vuln_dir(b, pos, dr, dc, color) == 1,
        b.at(pos.row - dr, pos.col - dc) == b.at(pos.row + 2 * dr, pos.col + 2 * dc) ==> vuln_dir(
            b,
            pos,
            dr,
            dc,
            color,
        ) == 0,
{
    assert(pos.row + dr + dr == pos.row + 2 * dr);
    assert(pos.col + dc + dc == pos.col + 2 * dc);
}

/// Terms contributed by direction `j` of the stone at `pos`.
pub open spec fn dir_terms(b: Board, pos: Pos, color: Stone, j: int) -> Terms {
    let dr = base_dr(j);
    let dc = base_dc(j);
    let ps = line_value(b, pos, dr, dc, color);
    (
        ps + neighbor_bonus(b, pos, dr, dc, color) + neighbor_bonus(b, pos, -dr, -dc, color),
        if ps >= 100_000 {
            1int
        } else {
            0int
        },
        if 50_000 <= ps < 100_000 {
            1int
        } else {
            0int
        },
        if 10_000 <= ps < 50_000 {
            1int
        } else {
            0int
        },
        if 1_000 <= ps < 1_500 {
            1int
        } else {
            0int
        },
        vuln_dir(b, pos, dr, dc, color),
    )
}

/// Componentwise sum of terms.
pub open spec fn add_terms(a: Terms, b: Terms) -> Terms {
    (a.0 + b.0, a.1 + b.1, a.2 + b.2, a.3 + b.3, a.4 + b.4, a.5 + b.5)
}

/// Terms contributed by the stone at `pos`.
pub open spec fn stone_terms(b: Board, pos: Pos, color: Stone) -> Terms {
    add_terms(
        add_terms(
            add_terms(
                add_terms(dir_terms(b, pos, color, 0), dir_terms(b, pos, color, 1)),
                dir_terms(b, pos, color, 2),
            ),
            dir_terms(b, pos, color, 3),
        ),
        (position_bonus(pos), 0, 0, 0, 0, 0),
    )
}

/// Terms of the stones in `stones`.
pub open spec fn fold_terms(b: Board, stones: Seq<Pos>, color: Stone) -> Terms
    decreases stones.len(),
{
    if stones.len() == 0 {
        (0, 0, 0, 0, 0, 0)
    } else {
        add_terms(
            fold_terms(b, stones.drop_last(), color),
            stone_terms(b, stones.last(), color),
        )
    }
}

/// Bonuses for combined threats and multi-directional development.
pub open spec fn combo_bonus(t: Terms) -> int {
    (if t.1 >= 1 && (t.2 >= 1 || t.3 >= 1) {
        100_000int
    } else {
        0int
    }) + (if t.2 >= 2 {
        100_000int
    } else {
        0int
    }) + (if t.2 >= 1 && t.3 >= 1 {
        100_000int
    } else {
        0int
    }) + (if t.3 >= 2 {
        100_000int
    } else {
        0int
    }) + (if t.4 >= 4 {
        8_000int
    } else if t.4 >= 3 {
        5_000int
    } else if t.4 >= 2 {
        3_000int
    } else {
        0int
    })
}

/// The bitboard of a color.
pub open spec fn color_bits(b: Board, color: Stone) -> Bitboard {
    if color == Stone::Black {
        b.black
    } else {
        b.white
    }
}

/// (score, vulnerable pairs) of one color.
pub open spec fn color_eval(b: Board, color: Stone) -> (int, int) {
    if color == Stone::Empty {
        (0, 0)
    } else {
        let t = fold_terms(b, color_bits(b, color).ones(), color);
        (t.0 + combo_bonus(t), t.5)
    }
}

/// Vulnerability penalty weight by the opponent's capture count.
pub open spec fn vuln_weight_spec(opp_captures: u8) -> int {
    if opp_captures <= 1 {
        10_000
    } else if opp_captures == 2 {
        20_000
    } else if opp_captures == 3 {
        40_000
    } else {
        80_000
    }
}

/// The evaluation of the board for `color`.
pub open spec fn eval_spec(b: Board, color: Stone) -> int {
    let o = opp(color);
    if b.caps(color) >= 5 {
        1_000_000
    } else if b.caps(o) >= 5 {
        -1_000_000
    } else {
        let me = color_eval(b, color);
        let them = color_eval(b, o);
        (cap_weight(b.caps(color)) - cap_weight(b.caps(o))) + (me.0 - them.0) - (me.1
            * vuln_weight_spec(b.caps(o)) - them.1 * vuln_weight_spec(b.caps(color)))
    }
}

/// Evaluate the board from the perspective of `color`.
///
/// Positive values favor `color`. A capture win (5 pairs) scores
/// `PatternScore::FIVE` for its holder and `-PatternScore::FIVE` for the other.
pub fn evaluate(board: &Board, color: Stone) -> (s: i32)
    ensures
        s == eval_spec(*board, color),
        -1_700_000_000 <= s <= 1_700_000_000,
{
    let opponent = color.opponent();
    if board.captures(color) >= 5 {
        return PatternScore::FIVE;
    }
    if board.captures(opponent) >= 5 {
        return -PatternScore::FIVE;
    }
    let cap_score = capture_score(board.captures(color), board.captures(opponent));
    let (my_score, my_vuln) = evaluate_color(board, color);
    let (opp_score, opp_vuln) = evaluate_color(board, opponent);
    let my_caps = board.captures(color);
    let opp_caps = board.captures(opponent);
    let vuln_penalty = my_vuln * vuln_weight(opp_caps) - opp_vuln * vuln_weight(my_caps);
    cap_score + (my_score - opp_score) - vuln_penalty
}

/// The evaluation is antisymmetric between the two colors, as negamax
/// requires.
pub proof fn law_evaluate_antisymmetric(b: Board)
    requires
        !(b.black_captures >= 5 && b.white_captures >= 5),
    ensures
        eval_spec(b, Stone::Black) == -eval_spec(b, Stone::White),
{
}

/// A capturable pair is a penalty: between two positions whose pattern
/// scores and capture counts are the same, each extra capturable pair of
/// `color` lowers its evaluation by the weight for the opponent's captures
/// (at least 10000), and each extra capturable pair of the opponent raises
/// it by the weight for `color`'s captures.
pub proof fn law_capturable_pairs_cost(a: Board, b: Board, color: Stone)
    requires
        color == Stone::Black || color == Stone::White,
        a.caps(color) == b.caps(color),
        a.caps(opp(color)) == b.caps(opp(color)),
        a.caps(color) < 5,
        a.caps(opp(color)) < 5,
        color_eval(a, color).0 == color_eval(b, color).0,
        color_eval(a, opp(color)).0 == color_eval(b, opp(color)).0,
    ensures
        eval_spec(a, color) - eval_spec(b, color) == -(color_eval(a, color).1 - color_eval(b, color).1)
            * vuln_weight_spec(a.caps(opp(color))) + (color_eval(a, opp(color)).1 - color_eval(b, opp(color)).1)
            * vuln_weight_spec(a.caps(color)),
        color_eval(a, opp(color)).1 == color_eval(b, opp(color)).1 && color_eval(a, color).1 > color_eval(
            b,
            color,
        ).1 ==> eval_spec(a, color) <= eval_spec(b, color) - 10_000,
{
    let wa = vuln_weight_spec(a.caps(opp(color)));
    let wb = vuln_weight_spec(a.caps(color));
    let ma = color_eval(a, color).1;
    let mb = color_eval(b, color).1;
    let oa = color_eval(a, opp(color)).1;
    let ob = color_eval(b, opp(color)).1;
    assert(ma * wa - oa * wb - (mb * wa - ob * wb) == (ma - mb) * wa - (oa - ob) * wb) by (nonlinear_arith);
    if oa == ob && ma > mb {
        assert((ma - mb) * wa >= 10_000) by (nonlinear_arith)
            requires
                ma - mb >= 1,
                wa >= 10_000,
        ;
    }
}

/// Vulnerability penalty weight scaled by the opponent's capture count.
fn vuln_weight(opp_captures: u8) -> (w: i32)
    ensures
        w == vuln_weight_spec(opp_captures),
{
    if opp_captures <= 1 {
        10_000
    } else if opp_captures == 2 {
        20_000
    } else if opp_captures == 3 {
        40_000
    } else {
        80_000
    }
}

/// Bound on the terms of one stone.
proof fn lemma_stone_terms_bound(b: Board, pos: Pos, color: Stone)
    requires
        pos.valid(),
    ensures
        0 <= stone_terms(b, pos, color).0 <= 4_000_784,
        0 <= stone_terms(b, pos, color).1 <= 4,
        0 <= stone_terms(b, pos, color).2 <= 4,
        0 <= stone_terms(b, pos, color).3 <= 4,
        0 <= stone_terms(b, pos, color).4 <= 4,
        0 <= stone_terms(b, pos, color).5 <= 8,
{
    assert forall|j: int| 0 <= j < 4 implies 0 <= #[trigger] line_value(
        b,
        pos,
        base_dr(j),
        base_dc(j),
        color,
    ) <= 1_000_000 by {}
    assert forall|j: int| 0 <= j < 4 implies 0 <= #[trigger] vuln_dir(
        b,
        pos,
        base_dr(j),
        base_dc(j),
        color,
    ) <= 2 by {}
}

/// Bound on the folded terms of `n` stones.
proof fn lemma_fold_bound(b: Board, stones: Seq<Pos>, color: Stone)
    requires
        forall|k: int| 0 <= k < stones.len() ==> (#[trigger] stones[k]).valid(),
    ensures
        0 <= fold_terms(b, stones, color).0 <= 4_000_784 * stones.len(),
        0 <= fold_terms(b, stones, color).1 <= 4 * stones.len(),
        0 <= fold_terms(b, stones, color).2 <= 4 * stones.len(),
        0 <= fold_terms(b, stones, color).3 <= 4 * stones.len(),
        0 <= fold_terms(b, stones, color).4 <= 4 * stones.len(),
        0 <= fold_terms(b, stones, color).5 <= 8 * stones.len(),
    decreases stones.len(),
{
    if stones.len() > 0 {
        lemma_fold_bound(b, stones.drop_last(), color);
        lemma_stone_terms_bound(b, stones.last(), color);
    }
}

/// Single-pass evaluation of one color: (score, vulnerable pair count).
fn evaluate_color(board: &Board, color: Stone) -> (r: (i32, i32))
    ensures
        r.0 == color_eval(*board, color).0,
        r.1 == color_eval(*board, color).1,
        0 <= r.0 <= 1_444_691_024,
        0 <= r.1 <= 2888,
{
    let stones = match board.stones(color) {
        Some(bb) => bb,
        None => {
            return (0, 0);
        },
    };
    let list = stones.iter_ones();
    let mut score: i32 = 0;
    let mut open_fours: i32 = 0;
    let mut closed_fours: i32 = 0;
    let mut open_threes: i32 = 0;
    let mut open_twos: i32 = 0;
    let mut vuln: i32 = 0;
    let mut k: usize = 0;
    proof {
        assert(*stones == color_bits(*board, color));
    }
    while k < list.len()
        invariant
            0 <= k <= list.len(),
            list.len() <= 361,
            list@ == color_bits(*board, color).ones(),
            forall|q: int| 0 <= q < list.len() ==> (#[trigger] list[q]).valid(),
            (score as int, open_fours as int, closed_fours as int, open_threes as int, open_twos as int, vuln as int)
                == fold_terms(*board, list@.take(k as int), color),
            0 <= score <= 4_000_784 * k,
            0 <= open_fours <= 4 * k,
            0 <= closed_fours <= 4 * k,
            0 <= open_threes <= 4 * k,
            0 <= open_twos <= 4 * k,
            0 <= vuln <= 8 * k,
        decreases list.len() - k,
    {
        let pos = list[k];
        let t = stone_eval(board, pos, color);
        proof {
            lemma_stone_terms_bound(*board, pos, color);
            assert(list@.take(k as int + 1).drop_last() =~= list@.take(k as int));
            assert(list@.take(k as int + 1).last() == pos);
        }
        score = score + t.0;
        open_fours = open_fours + t.1;
        closed_fours = closed_fours + t.2;
        open_threes = open_threes + t.3;
        open_twos = open_twos + t.4;
        vuln = vuln + t.5;
        k = k + 1;
    }
    proof {
        assert(list@.take(list.len() as int) =~= list@);
    }
    if open_fours >= 1 && (closed_fours >= 1 || open_threes >= 1) {
        score = score + PatternScore::OPEN_FOUR;
    }
    if closed_fours >= 2 {
        score = score + PatternScore::OPEN_FOUR;
    }
    if closed_fours >= 1 && open_threes >= 1 {
        score = score + PatternScore::OPEN_FOUR;
    }
    if open_threes >= 2 {
        score = score + PatternScore::OPEN_FOUR;
    }
    if open_twos >= 4 {
        score = score + 8_000;
    } else if open_twos >= 3 {
        score = score + 5_000;
    } else if open_twos >= 2 {
        score = score + 3_000;
    }
    (score, vuln)
}

/// Terms of one stone.
fn stone_eval(board: &Board, pos: Pos, color: Stone) -> (t: (i32, i32, i32, i32, i32, i32))
    requires
        pos.valid(),
    ensures
        (t.0 as int, t.1 as int, t.2 as int, t.3 as int, t.4 as int, t.5 as int) == stone_terms(
            *board,
            pos,
            color,
        ),
{
    proof {
        lemma_stone_terms_bound(*board, pos, color);
    }
    let d0 = direction_eval(board, pos, color, 0);
    let d1 = direction_eval(board, pos, color, 1);
    let d2 = direction_eval(board, pos, color, 2);
    let d3 = direction_eval(board, pos, color, 3);
    let dist = abs_i32(pos.row as i32 - 9) + abs_i32(pos.col as i32 - 9);
    let bonus = (18 - dist) * 8;
    (
        d0.0 + d1.0 + d2.0 + d3.0 + bonus,
        d0.1 + d1.1 + d2.1 + d3.1,
        d0.2 + d1.2 + d2.2 + d3.2,
        d0.3 + d1.3 + d2.3 + d3.3,
        d0.4 + d1.4 + d2.4 + d3.4,
        d0.5 + d1.5 + d2.5 + d3.5,
    )
}

fn abs_i32(x: i32) -> (r: i32)
    requires
        x > i32::MIN,
    ensures
        r == abs_int(x as int),
{
    if x < 0 {
        -x
    } else {
        x
    }
}

/// The stone at signed coordinates, `Empty` off the board.
fn stone_or_empty(board: &Board, r: i32, c: i32) -> (s: Stone)
    ensures
        s == at_or_empty(*board, r as int, c as int),
{
    if Pos::is_valid(r, c) {
        stone_at(board, r, c)
    } else {
        Stone::Empty
    }
}

/// Terms of one direction of one stone.
fn direction_eval(board: &Board, pos: Pos, color: Stone, j: usize) -> (t: (
    i32,
    i32,
    i32,
    i32,
    i32,
    i32,
))
    requires
        pos.valid(),
        j < 4,
    ensures
        (t.0 as int, t.1 as int, t.2 as int, t.3 as int, t.4 as int, t.5 as int) == dir_terms(
            *board,
            pos,
            color,
            j as int,
        ),
{
    let (dr, dc) = line_dir(j);
    let ps = evaluate_line(board, pos, dr, dc, color);
    let r = pos.row as i32;
    let c = pos.col as i32;
    let mut bonus: i32 = 0;
    if Pos::is_valid(r + dr, c + dc) && stone_at(board, r + dr, c + dc) == color {
        bonus = bonus + 80;
    }
    if Pos::is_valid(r - dr, c - dc) && stone_at(board, r - dr, c - dc) == color {
        bonus = bonus + 80;
    }
    let of: i32 = if ps >= PatternScore::OPEN_FOUR {
        1
    } else {
        0
    };
    let cf: i32 = if ps >= PatternScore::CLOSED_FOUR && ps < PatternScore::OPEN_FOUR {
        1
    } else {
        0
    };
    let ot: i32 = if ps >= PatternScore::OPEN_THREE && ps < PatternScore::CLOSED_FOUR {
        1
    } else {
        0
    };
    let otw: i32 = if ps >= PatternScore::OPEN_TWO && ps < PatternScore::CLOSED_THREE {
        1
    } else {
        0
    };
    let opponent = color.opponent();
    let mut vuln: i32 = 0;
    let r1 = r + dr;
    let c1 = c + dc;
    if Pos::is_valid(r1, c1) && stone_at(board, r1, c1) == color {
        let before = stone_or_empty(board, r - dr, c - dc);
        let after = stone_or_empty(board, r1 + dr, c1 + dc);
        if before == Stone::Empty && after == opponent && Pos::is_valid(r - dr, c - dc) {
            vuln = vuln + 1;
        }
        if before == opponent && after == Stone::Empty && Pos::is_valid(r1 + dr, c1 + dc) {
            vuln = vuln + 1;
        }
    }
    (ps + bonus, of, cf, ot, otw, vuln)
}

/// Score of the line pattern starting at `pos` along direction (dr, dc).
///
/// Only counts the pattern when `pos` starts the line (no stone of `color`
/// just before it), so each line segment is counted once. Detects one-gap
/// patterns such as `O_OOO` or `OO_OO`.
fn evaluate_line(board: &Board, pos: Pos, dr: i32, dc: i32, color: Stone) -> (s: i32)
    requires
        pos.valid(),
        -1 <= dr <= 1,
        -1 <= dc <= 1,
    ensures
        s == line_value(*board, pos, dr as int, dc as int, color),
        0 <= s <= 1_000_000,
{
    let prev_r = pos.row as i32 - dr;
    let prev_c = pos.col as i32 - dc;
    if Pos::is_valid(prev_r, prev_c) && stone_at(board, prev_r, prev_c) == color {
        return 0;
    }
    let mut count: i32 = 1;
    let mut open_ends: i32 = 0;
    let mut has_gap = false;
    let mut total_span: i32 = 1;
    if Pos::is_valid(prev_r, prev_c) && stone_at(board, prev_r, prev_c) == Stone::Empty {
        open_ends = open_ends + 1;
    }
    let mut r = pos.row as i32 + dr;
    let mut c = pos.col as i32 + dc;
    let mut fuel: u32 = 20;
    let ghost target = line_scan(
        *board,
        pos.row + dr,
        pos.col + dc,
        dr as int,
        dc as int,
        color,
        1,
        open_ends as int,
        false,
        1,
        20,
    );
    let mut done = false;
    while !done && fuel > 0 && Pos::is_valid(r, c)
        invariant
            -1 <= dr <= 1,
            -1 <= dc <= 1,
            fuel <= 20,
            pos.valid(),
            (pos.row as int) + dr - (20 - fuel) <= r <= (pos.row as int) + dr + (20 - fuel),
            (pos.col as int) + dc - (20 - fuel) <= c <= (pos.col as int) + dc + (20 - fuel),
            1 <= count <= 1 + 20 - fuel,
            1 <= total_span <= 1 + 20 - fuel,
            0 <= open_ends <= 2,
            !done ==> open_ends <= 1,
            !done ==> line_scan(
                *board,
                r as int,
                c as int,
                dr as int,
                dc as int,
                color,
                count as int,
                open_ends as int,
                has_gap,
                total_span as int,
                fuel as nat,
            ) == target,
            done ==> (count as int, open_ends as int, has_gap, total_span as int) == target,
        decreases fuel * 2 + (if done {
            0int
        } else {
            1int
        }),
    {
        let cell = stone_at(board, r, c);
        if cell == color {
            count = count + 1;
            total_span = total_span + 1;
            r = r + dr;
            c = c + dc;
            fuel = fuel - 1;
        } else if cell == Stone::Empty && !has_gap {
            let next_r = r + dr;
            let next_c = c + dc;
            if Pos::is_valid(next_r, next_c) && stone_at(board, next_r, next_c) == color {
                has_gap = true;
                total_span = total_span + 1;
                r = r + dr;
                c = c + dc;
                fuel = fuel - 1;
            } else {
                open_ends = open_ends + 1;
                done = true;
            }
        } else if cell == Stone::Empty {
            open_ends = open_ends + 1;
            done = true;
        } else {
            done = true;
        }
    }
    proof {
        if !done {
            assert((count as int, open_ends as int, has_gap, total_span as int) == target);
        }
    }
    if has_gap {
        if count >= 5 {
            PatternScore::OPEN_FOUR
        } else if count == 4 && total_span == 5 {
            PatternScore::OPEN_FOUR
        } else if count == 4 {
            PatternScore::CLOSED_FOUR
        } else if count == 3 && open_ends == 2 {
            PatternScore::OPEN_THREE
        } else if count == 3 && open_ends == 1 {
            PatternScore::CLOSED_THREE
        } else {
            0
        }
    } else {
        if count >= 5 {
            PatternScore::FIVE
        } else if count == 4 && open_ends == 2 {
            PatternScore::OPEN_FOUR
        } else if count == 4 && open_ends == 1 {
            PatternScore::CLOSED_FOUR
        } else if count == 3 && open_ends == 2 {
            PatternScore::OPEN_THREE
        } else if count == 3 && open_ends == 1 {
            PatternScore::CLOSED_THREE
        } else if count == 2 && open_ends == 2 {
            PatternScore::OPEN_TWO
        } else if count == 2 && open_ends == 1 {
            PatternScore::CLOSED_TWO
        } else {
            0
        }
    }
}

} // verus!
