//! Alpha-beta search (negamax) with iterative deepening, a transposition
//! table, quiescence search of forcing moves and move ordering by threat,
//! killer, countermove and history heuristics.
use super::atomic_tt::AtomicTT;
use super::ordering::{
    at_bb, capture_vulnerability, count_line_both, ind, is_threatened, line_both, move_creates_four,
    lemma_vuln_sum_bounds, near_cells, near_stone, ray_sdc, ray_sdr, urgency, vacant, vuln_penalty, vuln_sum,
};
use super::tt::{EntryType, TTStats};
use super::zobrist::{
    cap_slot, count_key, law_move_matches_hash, lemma_xor_zero, list_xor, ZobristTable,
};
use crate::board::{on_board, opp, Bitboard, Board, Pos, Stone, TOTAL_CELLS};
use crate::eval::heuristic::{eval_spec, evaluate};
use crate::eval::patterns::PatternScore;
use crate::engine::{moved, placed};
use crate::rules::capture::{
    captured_list, count_captures_fast, execute_captures_fast, lemma_captured_distinct,
    lemma_captured_upto, removal_applied, CaptureInfo,
};
use crate::rules::forbidden::{is_valid_move, valid_move};
use crate::rules::win::{
    breakable, breaks_at, can_break_five_by_capture, find_five_break_moves, near_five, find_five_line_at_pos,
    find_five_spec, has_five_at_pos, has_five_in_row, line_at, line_count,
};
use crate::rules::{base_dc, base_dr, line_dir};
use std::time::{Duration, Instant};
use vstd::prelude::*;

verus! {

#[verifier::external_type_specification]
#[verifier::external_body]
pub struct ExInstant(Instant);

/// `Instant::now`: the current time. Nothing is claimed of its value.
#[verifier::external_body]
pub(crate) fn clock_now() -> Instant {
    Instant::now()
}

/// `Instant::elapsed`: the time since `start`. Nothing is claimed of the
/// value: it depends on the clock.
#[verifier::external_body]
pub(crate) fn time_since(start: &Instant) -> Duration {
    start.elapsed()
}

/// `Duration::as_millis`: the whole milliseconds of `d`, as a `u64`. Nothing
/// is claimed of the value: `Duration` is opaque here.
#[verifier::external_body]
pub(crate) fn whole_millis(d: Duration) -> u64 {
    d.as_millis() as u64
}

/// Milliseconds since `start`.
pub(crate) fn elapsed_ms(start: &Instant) -> u64 {
    whole_millis(time_since(start))
}

/// Infinity score for alpha-beta bounds.
pub const INF: i32 = 1_000_001;

/// Bound on every score, window bound and result of the search.
pub const SCORE_BOUND: i32 = 2_000_000_000;

/// Half-width of the aspiration window.
pub const ASP_WINDOW: i32 = 100;

/// Maximum moves considered at the root.
pub const MAX_ROOT_MOVES: usize = 30;

/// Maximum depth (plies of forcing moves) of the quiescence search.
pub const MAX_QS_DEPTH: i8 = 16;

/// History scores saturate at this value.
pub const HIST_CAP: i32 = 0x2000_0000;

/// Plies with killer-move slots.
pub const KILLER_PLIES: usize = 64;

/// The side that just moved (`opp(color)`) has won at `last_move` on `b`:
/// a fifth captured pair, or a five through `last_move` (the first
/// direction holding one) that cannot be broken by a capture.
pub open spec fn lost_at(b: Board, color: Stone, last_move: Pos) -> bool {
    ||| b.caps(opp(color)) >= 5
    ||| exists|j: int|
        0 <= j < 4 && #[trigger] line_count(b, last_move, opp(color), j) >= 5 && (forall|q: int|
            0 <= q < j ==> line_count(b, last_move, opp(color), q) < 5) && !breakable(
            b,
            line_at(b, last_move, opp(color), j),
            opp(color),
        )
}

/// Both bounds of the window lie strictly between the two win scores
/// (`FIVE - 100` and its negation): no forced result is in sight.
pub open spec fn quiet_window(alpha: int, beta: int) -> bool {
    let near_win = PatternScore::FIVE - 100;
    -near_win < alpha < near_win && -near_win < beta < near_win
}

/// Line features of a candidate move: (my five, opponent five, my open
/// fours, opponent open fours, my closed fours, opponent closed fours, my
/// open threes, opponent open threes, two-stone score, my developing
/// directions, opponent developing directions).
pub type Features = (bool, bool, int, int, int, int, int, int, int, int, int);

/// The features after adding one direction, whose lines are `m` (mine) and
/// `o` (the opponent's): (stones, open ends, gap used, consecutive).
#[verifier::opaque]
pub open spec fn feature_step(f: Features, m: (int, int, bool, int), o: (int, int, bool, int)) -> Features {
    (
        f.0 || m.3 >= 5,
        f.1 || o.3 >= 5,
        f.2 + ind(m.3 < 5 && m.0 >= 5 && m.2) + ind(m.0 == 4 && m.1 == 2),
        f.3 + ind(o.3 < 5 && o.0 >= 5 && o.2) + ind(o.0 == 4 && o.1 == 2),
        f.4 + ind(m.0 == 4 && m.1 == 1),
        f.5 + ind(o.0 == 4 && o.1 == 1),
        f.6 + ind(m.0 == 3 && m.1 == 2),
        f.7 + ind(o.0 == 3 && o.1 == 2),
        f.8 + (if m.0 == 2 {
            if m.1 == 2 {
                500int
            } else if m.1 == 1 {
                150int
            } else {
                0int
            }
        } else {
            0int
        }) + (if o.0 == 2 && o.1 == 2 {
            200int
        } else {
            0int
        }),
        f.9 + ind(m.0 >= 2 && m.1 >= 1),
        f.10 + ind(o.0 >= 2 && o.1 >= 1),
    )
}

/// The line features of a move at `mov` over its first `n` directions.
pub open spec fn move_features(me: Bitboard, them: Bitboard, mov: Pos, n: int) -> Features
    decreases n,
{
    if n <= 0 {
        (false, false, 0, 0, 0, 0, 0, 0, 0, 0, 0)
    } else {
        feature_step(
            move_features(me, them, mov, n - 1),
            line_both(me, them, 1, mov, base_dr(n - 1), base_dc(n - 1)),
            line_both(me, them, 2, mov, base_dr(n - 1), base_dc(n - 1)),
        )
    }
}

/// The score of a tactical move, from its features, the pairs it captures
/// (`cap`) or would let the opponent capture there (`ocap`), and both
/// sides' captures so far; `None` for a quiet move.
#[verifier::opaque]
pub open spec fn tactical_spec(f: Features, cap: int, ocap: int, my_caps: int, opp_caps: int) -> Option<int> {
    let my_total = f.2 + f.4;
    let opp_total = f.3 + f.5;
    if f.0 {
        Some(900_000)
    } else if f.1 {
        Some(895_000)
    } else if cap > 0 && my_caps + cap >= 5 {
        Some(890_000)
    } else if ocap > 0 && opp_caps + ocap >= 5 {
        Some(885_000)
    } else if my_total >= 2 {
        Some(880_000)
    } else if my_total >= 1 && f.6 >= 1 {
        Some(878_000)
    } else if f.2 >= 1 {
        Some(870_000)
    } else if opp_total >= 2 {
        Some(868_000)
    } else if opp_total >= 1 && f.7 >= 1 {
        Some(866_000)
    } else if f.3 >= 1 {
        Some(860_000)
    } else if ocap > 0 && opp_caps >= 3 {
        Some(855_000)
    } else if ocap > 0 && opp_caps >= 2 {
        Some(845_000)
    } else if f.6 >= 2 {
        Some(840_000)
    } else if f.7 >= 2 {
        Some(838_000)
    } else if f.4 >= 1 {
        Some(830_000)
    } else if f.5 >= 1 {
        Some(820_000)
    } else if f.6 >= 1 {
        Some(810_000)
    } else if f.7 >= 1 {
        Some(800_000)
    } else if cap > 0 {
        Some(
            600_000 + cap * (if my_caps + cap >= 4 {
                150_000int
            } else if my_caps >= 2 {
                80_000int
            } else {
                50_000int
            }),
        )
    } else if ocap > 0 {
        Some(550_000 + opp_caps * 30_000)
    } else {
        None
    }
}

/// `Features` as the search computes them.
pub type ExecFeatures = (bool, bool, i32, i32, i32, i32, i32, i32, i32, i32, i32);

/// The features that `f` holds.
pub open spec fn features_of(f: ExecFeatures) -> Features {
    (f.0, f.1, f.2 as int, f.3 as int, f.4 as int, f.5 as int, f.6 as int, f.7 as int, f.8 as int, f.9 as int, f.10 as int)
}

/// Counts within what four directions allow.
pub open spec fn features_ok(f: ExecFeatures) -> bool {
    &&& 0 <= f.2 <= 8
    &&& 0 <= f.3 <= 8
    &&& 0 <= f.4 <= 4
    &&& 0 <= f.5 <= 4
    &&& 0 <= f.6 <= 4
    &&& 0 <= f.7 <= 4
    &&& 0 <= f.8 <= 2800
    &&& 0 <= f.9 <= 4
    &&& 0 <= f.10 <= 4
}

/// The line features of a move at `mov` (see `move_features`).
fn line_features(my_bb: &Bitboard, opp_bb: &Bitboard, mov: Pos) -> (f: ExecFeatures)
    requires
        mov.valid(),
    ensures
        features_of(f) == move_features(*my_bb, *opp_bb, mov, 4),
        features_ok(f),
{
    let mut f: ExecFeatures = (false, false, 0, 0, 0, 0, 0, 0, 0, 0, 0);
    let mut j: usize = 0;
    while j < 4
        invariant
            0 <= j <= 4,
            mov.valid(),
            0 <= f.2 <= 2 * j,
            0 <= f.3 <= 2 * j,
            0 <= f.4 <= j,
            0 <= f.5 <= j,
            0 <= f.6 <= j,
            0 <= f.7 <= j,
            0 <= f.8 <= 700 * j,
            0 <= f.9 <= j,
            0 <= f.10 <= j,
            features_of(f) == move_features(*my_bb, *opp_bb, mov, j as int),
        decreases 4 - j,
    {
        let (dr, dc) = line_dir(j);
        let (mc, mo, mc_gap, mc_consec, oc, oo, oc_gap, oc_consec) = count_line_both(
            my_bb,
            opp_bb,
            mov,
            dr as i8,
            dc as i8,
        );
        f = add_direction(f, (mc, mo, mc_gap, mc_consec), (oc, oo, oc_gap, oc_consec), j);
        j = j + 1;
    }
    f
}

/// The features `f` with one more direction added, whose lines are `m`
/// (mine) and `o` (the opponent's).
#[verifier::spinoff_prover]
#[verifier::rlimit(30)]
fn add_direction(f: ExecFeatures, m: (i32, i32, bool, i32), o: (i32, i32, bool, i32), j: usize) -> (r: ExecFeatures)
    requires
        j < 4,
        0 <= f.2 <= 2 * j,
        0 <= f.3 <= 2 * j,
        0 <= f.4 <= j,
        0 <= f.5 <= j,
        0 <= f.6 <= j,
        0 <= f.7 <= j,
        0 <= f.8 <= 700 * j,
        0 <= f.9 <= j,
        0 <= f.10 <= j,
    ensures
        0 <= r.2 <= 2 * (j + 1),
        0 <= r.3 <= 2 * (j + 1),
        0 <= r.4 <= j + 1,
        0 <= r.5 <= j + 1,
        0 <= r.6 <= j + 1,
        0 <= r.7 <= j + 1,
        0 <= r.8 <= 700 * (j + 1),
        0 <= r.9 <= j + 1,
        0 <= r.10 <= j + 1,
        features_of(r) == feature_step(
            features_of(f),
            (m.0 as int, m.1 as int, m.2, m.3 as int),
            (o.0 as int, o.1 as int, o.2, o.3 as int),
        ),
{
    proof {
        reveal(feature_step);
    }
    let (mc, mo, mc_gap, mc_consec) = m;
    let (oc, oo, oc_gap, oc_consec) = o;
    let (mut my_five, mut opp_five, mut mof, mut oof, mut mcf, mut ocf, mut mot, mut oot, mut two, mut mdev, mut odev) = f;
    if mc_consec >= 5 {
        my_five = true;
    } else if mc >= 5 && mc_gap {
        mof = mof + 1;
    }
    if oc_consec >= 5 {
        opp_five = true;
    } else if oc >= 5 && oc_gap {
        oof = oof + 1;
    }
    if mc == 4 {
        if mo == 2 {
            mof = mof + 1;
        } else if mo == 1 {
            mcf = mcf + 1;
        }
    }
    if oc == 4 {
        if oo == 2 {
            oof = oof + 1;
        } else if oo == 1 {
            ocf = ocf + 1;
        }
    }
    if mc == 3 && mo == 2 {
        mot = mot + 1;
    }
    if oc == 3 && oo == 2 {
        oot = oot + 1;
    }
    if mc == 2 {
        two = two + if mo == 2 {
            500
        } else if mo == 1 {
            150
        } else {
            0
        };
    }
    if oc == 2 && oo == 2 {
        two = two + 200;
    }
    if mc >= 2 && mo >= 1 {
        mdev = mdev + 1;
    }
    if oc >= 2 && oo >= 1 {
        odev = odev + 1;
    }
    (my_five, opp_five, mof, oof, mcf, ocf, mot, oot, two, mdev, odev)
}

/// Penalty for the pairs a quiet move at `mov` leaves capturable at once
/// or sets up (see `immediate_penalty`).
fn immediate_cap_penalty(my_bb: &Bitboard, opp_bb: &Bitboard, mov: Pos, setup_weight: i32) -> (p: i32)
    requires
        mov.valid(),
        0 <= setup_weight <= 100_000,
    ensures
        p == immediate_penalty(*my_bb, *opp_bb, mov, setup_weight as int, 8),
        0 <= p <= 2_000_000,
{
    let mut immediate_cap_penalty: i32 = 0;
    let r = mov.row as i32;
    let c = mov.col as i32;
    let mut k: usize = 0;
    while k < 8
        invariant
            0 <= k <= 8,
            r == mov.row,
            c == mov.col,
            0 <= setup_weight <= 100_000,
            0 <= immediate_cap_penalty <= 250_000 * k,
            immediate_cap_penalty == immediate_penalty(*my_bb, *opp_bb, mov, setup_weight as int, k as int),
        decreases 8 - k,
    {
        let (sdr, sdc) = ray_step_i32(k);
        let r1 = r - sdr;
        let c1 = c - sdc;
        let r2 = r + sdr;
        let c2 = c + sdc;
        let r3 = r + 2 * sdr;
        let c3 = c + 2 * sdc;
        if Pos::is_valid(r1, c1) && Pos::is_valid(r2, c2) && Pos::is_valid(r3, c3) {
            let p1 = Pos::new(r1 as u8, c1 as u8);
            let p2 = Pos::new(r2 as u8, c2 as u8);
            let p3 = Pos::new(r3 as u8, c3 as u8);
            let p1_empty = !my_bb.get(p1) && !opp_bb.get(p1);
            let p3_empty = !my_bb.get(p3) && !opp_bb.get(p3);
            if opp_bb.get(p1) && my_bb.get(p2) && p3_empty {
                immediate_cap_penalty = immediate_cap_penalty + 150_000;
            }
            if p1_empty && my_bb.get(p2) && p3_empty {
                immediate_cap_penalty = immediate_cap_penalty + setup_weight;
            }
        }
        k = k + 1;
    }
    immediate_cap_penalty
}

/// 200 per own stone next to `mov` (see `proximity`).
fn proximity_bonus(my_bb: &Bitboard, mov: Pos) -> (p: i32)
    requires
        mov.valid(),
    ensures
        p == proximity(*my_bb, mov, 8),
        0 <= p <= 1600,
{
    let r = mov.row as i32;
    let c = mov.col as i32;
    let mut proximity: i32 = 0;
    let mut k: usize = 0;
    while k < 8
        invariant
            0 <= k <= 8,
            r == mov.row,
            c == mov.col,
            0 <= proximity <= 200 * k,
            proximity == self::proximity(*my_bb, mov, k as int),
        decreases 8 - k,
    {
        let (sdr, sdc) = ray_step_i32(k);
        let nr = r + sdr;
        let nc = c + sdc;
        if Pos::is_valid(nr, nc) && my_bb.get(Pos::new(nr as u8, nc as u8)) {
            proximity = proximity + 200;
        }
        k = k + 1;
    }
    proximity
}

/// The score of a tactical move (see `tactical_spec`).
fn tactical_score(f: ExecFeatures, cap: i32, ocap: i32, my_caps: i32, opp_caps: i32) -> (r: Option<i32>)
    requires
        features_ok(f),
        0 <= cap <= 8,
        0 <= ocap <= 8,
        0 <= my_caps <= 255,
        0 <= opp_caps <= 255,
    ensures
        r == match tactical_spec(features_of(f), cap as int, ocap as int, my_caps as int, opp_caps as int) {
            Some(v) => Some(v as i32),
            None => None,
        },
        r matches Some(v) ==> 0 <= v <= 10_000_000 && tactical_spec(features_of(f), cap as int, ocap as int, my_caps as int, opp_caps as int) == Some(v as int),
{
    proof {
        reveal(tactical_spec);
    }
    let (my_five, opp_five, mof, oof, mcf, ocf, mot, oot, _, _, _) = f;
    let my_total = mof + mcf;
    let opp_total = oof + ocf;
    if my_five {
        return Some(900_000);
    }
    if opp_five {
        return Some(895_000);
    }
    if cap > 0 && my_caps + cap >= 5 {
        return Some(890_000);
    }
    if ocap > 0 && opp_caps + ocap >= 5 {
        return Some(885_000);
    }
    if my_total >= 2 {
        return Some(880_000);
    }
    if my_total >= 1 && mot >= 1 {
        return Some(878_000);
    }
    if mof >= 1 {
        return Some(870_000);
    }
    if opp_total >= 2 {
        return Some(868_000);
    }
    if opp_total >= 1 && oot >= 1 {
        return Some(866_000);
    }
    if oof >= 1 {
        return Some(860_000);
    }
    if ocap > 0 && opp_caps >= 3 {
        return Some(855_000);
    }
    if ocap > 0 && opp_caps >= 2 {
        return Some(845_000);
    }
    if mot >= 2 {
        return Some(840_000);
    }
    if oot >= 2 {
        return Some(838_000);
    }
    if mcf >= 1 {
        return Some(830_000);
    }
    if ocf >= 1 {
        return Some(820_000);
    }
    if mot >= 1 {
        return Some(810_000);
    }
    if oot >= 1 {
        return Some(800_000);
    }
    if cap > 0 {
        let cap_urgency: i32 = if my_caps + cap >= 4 {
            150_000
        } else if my_caps >= 2 {
            80_000
        } else {
            50_000
        };
        assert(cap * cap_urgency <= 8 * 150_000) by (nonlinear_arith)
            requires
                0 < cap <= 8,
                0 < cap_urgency <= 150_000,
        ;
        return Some(600_000 + cap * cap_urgency);
    }
    if ocap > 0 {
        return Some(550_000 + opp_caps * 30_000);
    }
    None
}

/// At most eight pairs are captured by one move.
proof fn lemma_captured_pairs(b: Board, pos: Pos, s: Stone)
    requires
        pos.valid(),
    ensures
        captured_list(b, pos, s).len() / 2 <= 8,
{
    lemma_captured_upto(b, pos, s, 8);
}

/// Penalty for the pairs a quiet move at `mov` leaves capturable at once
/// (opponent stone, own stone, empty) or sets up (empty, own stone, empty),
/// over the first `n` rays.
pub open spec fn immediate_penalty(me: Bitboard, them: Bitboard, mov: Pos, setup_weight: int, n: int) -> int
    decreases n,
{
    if n <= 0 {
        0
    } else {
        let k = n - 1;
        let dr = ray_sdr(k);
        let dc = ray_sdc(k);
        let r = mov.row as int;
        let c = mov.col as int;
        let ok = on_board(r - dr, c - dc) && on_board(r + dr, c + dc) && on_board(r + 2 * dr, c + 2 * dc);
        immediate_penalty(me, them, mov, setup_weight, n - 1) + (if ok && at_bb(them, r - dr, c - dc)
            && at_bb(me, r + dr, c + dc) && vacant(me, them, r + 2 * dr, c + 2 * dc) {
            150_000int
        } else {
            0int
        }) + (if ok && vacant(me, them, r - dr, c - dc) && at_bb(me, r + dr, c + dc) && vacant(
            me,
            them,
            r + 2 * dr,
            c + 2 * dc,
        ) {
            setup_weight
        } else {
            0int
        })
    }
}

/// 200 for each of the first `n` neighbours of `mov` holding an own stone.
pub open spec fn proximity(me: Bitboard, mov: Pos, n: int) -> int
    decreases n,
{
    if n <= 0 {
        0
    } else {
        let r = mov.row + ray_sdr(n - 1);
        let c = mov.col + ray_sdc(n - 1);
        proximity(me, mov, n - 1) + if on_board(r, c) && at_bb(me, r, c) {
            200int
        } else {
            0int
        }
    }
}

/// Search statistics for diagnostics and tuning.
#[derive(Debug, Clone, Copy)]
pub struct SearchStats {
    /// Total beta cutoffs (fail-high).
    pub beta_cutoffs: u64,
    /// Beta cutoffs on the first move tried.
    pub first_move_cutoffs: u64,
    /// Total TT probes.
    pub tt_probes: u64,
    /// TT probes that returned a usable score.
    pub tt_score_hits: u64,
    /// TT probes that provided a best move for ordering.
    pub tt_move_hits: u64,
}

impl SearchStats {
    /// All counters at zero.
    pub fn zero() -> (s: SearchStats)
        ensures
            s.beta_cutoffs == 0 && s.first_move_cutoffs == 0 && s.tt_probes == 0
                && s.tt_score_hits == 0 && s.tt_move_hits == 0,
    {
        SearchStats {
            beta_cutoffs: 0,
            first_move_cutoffs: 0,
            tt_probes: 0,
            tt_score_hits: 0,
            tt_move_hits: 0,
        }
    }

    /// Add another worker's counters to these (saturating).
    pub fn merge(&mut self, other: &SearchStats)
        ensures
            final(self).beta_cutoffs == old(self).beta_cutoffs.saturating_add(other.beta_cutoffs),
            final(self).first_move_cutoffs == old(self).first_move_cutoffs.saturating_add(
                other.first_move_cutoffs,
            ),
            final(self).tt_probes == old(self).tt_probes.saturating_add(other.tt_probes),
            final(self).tt_score_hits == old(self).tt_score_hits.saturating_add(other.tt_score_hits),
            final(self).tt_move_hits == old(self).tt_move_hits.saturating_add(other.tt_move_hits),
    {
        self.beta_cutoffs = self.beta_cutoffs.saturating_add(other.beta_cutoffs);
        self.first_move_cutoffs = self.first_move_cutoffs.saturating_add(other.first_move_cutoffs);
        self.tt_probes = self.tt_probes.saturating_add(other.tt_probes);
        self.tt_score_hits = self.tt_score_hits.saturating_add(other.tt_score_hits);
        self.tt_move_hits = self.tt_move_hits.saturating_add(other.tt_move_hits);
    }
}

/// The counters of `a` and `b` added (saturating), as `merge` does.
pub open spec fn merged(a: SearchStats, b: SearchStats) -> SearchStats {
    SearchStats {
        beta_cutoffs: a.beta_cutoffs.saturating_add(b.beta_cutoffs),
        first_move_cutoffs: a.first_move_cutoffs.saturating_add(b.first_move_cutoffs),
        tt_probes: a.tt_probes.saturating_add(b.tt_probes),
        tt_score_hits: a.tt_score_hits.saturating_add(b.tt_score_hits),
        tt_move_hits: a.tt_move_hits.saturating_add(b.tt_move_hits),
    }
}

impl Default for SearchStats {
    /// All counters at zero.
    fn default() -> (s: SearchStats)
        ensures
            s.beta_cutoffs == 0 && s.first_move_cutoffs == 0 && s.tt_probes == 0
                && s.tt_score_hits == 0 && s.tt_move_hits == 0,
    {
        SearchStats::zero()
    }
}

/// Search result: best move and its score.
#[derive(Debug, Clone)]
pub struct SearchResult {
    /// Best move found, if any.
    pub best_move: Option<Pos>,
    /// Evaluation score of the best move.
    pub score: i32,
    /// Depth completed in iterative deepening.
    pub depth: i8,
    /// Total nodes searched.
    pub nodes: u64,
    /// Search diagnostics.
    pub stats: SearchStats,
}

/// The position after `color` plays `mov`: the stone placed and its captures
/// made.
pub fn play(board: &Board, mov: Pos, color: Stone) -> (r: (Board, CaptureInfo))
    requires
        mov.valid(),
        color == Stone::Black || color == Stone::White,
    ensures
        r.1.wf(),
        r.1.pairs <= 8,
        r.0.caps(color) >= r.1.pairs,
        moved(*board, mov, color, r.0),
        exists|m: Board| #[trigger] placed(*board, mov, color, m) && r.1.list() == captured_list(m, mov, color),
{
    let mut after = *board;
    after.place_stone(mov, color);
    let ghost m = after;
    let info = execute_captures_fast(&mut after, mov, color);
    proof {
        assert(placed(*board, mov, color, m));
        assert(info.list().len() == info.count);
        assert(moved(*board, mov, color, after));
    }
    (after, info)
}

/// Per-search worker state: node count, stop flag, clock and the move
/// ordering tables (killers per ply, history and countermoves per color and
/// cell).
pub struct WorkerSearcher<'a> {
    /// Zobrist keys.
    pub zobrist: &'a ZobristTable,
    /// Transposition table.
    pub tt: &'a AtomicTT,
    /// Set when the search must stop (time limit or node cap).
    pub stopped: bool,
    /// Nodes searched.
    pub nodes: u64,
    /// Depth of the current iteration.
    pub max_depth: i8,
    /// Two killer moves per ply: slot `2 * ply + k`.
    pub killer_moves: Vec<Option<Pos>>,
    /// History scores: index `361 * color + cell`.
    pub history: Vec<i32>,
    /// Best reply to each opponent move: index `361 * color + cell`.
    pub countermove: Vec<Option<Pos>>,
    /// The opponent's last move, for the countermove bonus.
    pub last_move_for_ordering: Option<Pos>,
    /// Start of a timed search.
    pub start_time: Option<Instant>,
    /// Time limit of a timed search, in milliseconds.
    pub time_limit_ms: Option<u64>,
    /// Diagnostics.
    pub stats: SearchStats,
    /// The moves of the last root search, in the order searched, with
    /// their scores.
    pub root_scores: Ghost<Seq<(Pos, i32)>>,
}

impl<'a> WorkerSearcher<'a> {
    /// Tables have their sizes, history scores lie in `[0, HIST_CAP]`; only
    /// the node cap or the clock of a timed search stops a search.
    pub open spec fn wf(self) -> bool {
        &&& self.zobrist.wf()
        &&& self.tt.wf()
        &&& self.killer_moves@.len() == 2 * KILLER_PLIES
        &&& self.history@.len() == 2 * TOTAL_CELLS
        &&& self.countermove@.len() == 2 * TOTAL_CELLS
        &&& forall|i: int| 0 <= i < 2 * TOTAL_CELLS ==> 0 <= #[trigger] self.history@[i] <= HIST_CAP
        &&& self.last_move_for_ordering matches Some(p) ==> p.valid()
        &&& self.stopped ==> self.nodes == u64::MAX || self.timed()
    }

    /// The search runs against the clock.
    pub open spec fn timed(self) -> bool {
        self.start_time is Some && self.time_limit_ms is Some
    }

    /// The parts of the worker that a search leaves as they are.
    pub open spec fn same_frame(self, other: WorkerSearcher<'a>) -> bool {
        &&& self.zobrist == other.zobrist
        &&& self.tt == other.tt
        &&& self.max_depth == other.max_depth
        &&& self.time_limit_ms == other.time_limit_ms
        &&& self.start_time == other.start_time
    }

    /// A worker for one search, with empty killer and countermove tables.
    pub fn new(
        zobrist: &'a ZobristTable,
        tt: &'a AtomicTT,
        max_depth: i8,
        history: Vec<i32>,
        start_time: Option<Instant>,
        time_limit_ms: Option<u64>,
    ) -> (w: WorkerSearcher<'a>)
        requires
            zobrist.wf(),
            tt.wf(),
            history@.len() == 2 * TOTAL_CELLS,
            forall|i: int| 0 <= i < 2 * TOTAL_CELLS ==> 0 <= #[trigger] history@[i] <= HIST_CAP,
        ensures
            w.wf(),
            w.nodes == 0,
            !w.stopped,
            w.max_depth == max_depth,
            w.history@ == history@,
            w.zobrist == zobrist,
            w.tt == tt,
            w.start_time == start_time,
            w.time_limit_ms == time_limit_ms,
    {
        let mut killer_moves: Vec<Option<Pos>> = Vec::new();
        let mut i: usize = 0;
        while i < 2 * KILLER_PLIES
            invariant
                0 <= i <= 128,
                killer_moves@.len() == i,
            decreases 128 - i,
        {
            killer_moves.push(None);
            i = i + 1;
        }
        let mut countermove: Vec<Option<Pos>> = Vec::new();
        let mut i: usize = 0;
        while i < 2 * TOTAL_CELLS
            invariant
                0 <= i <= 722,
                countermove@.len() == i,
            decreases 722 - i,
        {
            countermove.push(None);
            i = i + 1;
        }
        WorkerSearcher {
            zobrist,
            tt,
            stopped: false,
            nodes: 0,
            max_depth,
            killer_moves,
            history,
            countermove,
            last_move_for_ordering: None,
            start_time,
            time_limit_ms,
            stats: SearchStats::zero(),
            root_scores: Ghost(Seq::empty()),
        }
    }

    /// Whether the search must stop.
    fn is_stopped(&self) -> (b: bool)
        ensures
            b == self.stopped,
    {
        self.stopped
    }

    /// Check the clock; set the stop flag when the time limit is reached.
    fn check_time(&mut self) -> (b: bool)
        requires
            old(self).wf(),
        ensures
            final(self).wf(),
            b == final(self).stopped,
            old(self).stopped ==> final(self).stopped,
            final(self).nodes == old(self).nodes,
            final(self).killer_moves == old(self).killer_moves,
            final(self).history == old(self).history,
            final(self).countermove == old(self).countermove,
            final(self).last_move_for_ordering == old(self).last_move_for_ordering,
            final(self).same_frame(*old(self)),
    {
        if self.stopped {
            return true;
        }
        match (&self.start_time, self.time_limit_ms) {
            (Some(start), Some(limit)) => {
                if elapsed_ms(start) >= limit {
                    self.stopped = true;
                    return true;
                }
            },
            _ => {},
        }
        false
    }

    /// The ordering score of `mov` for `color` (see `score_move`).
    #[verifier::opaque]
    pub open spec fn score_spec(self, board: Board, mov: Pos, color: Stone, tt_move: Option<Pos>, depth: i8) -> int {
        let me = if color == Stone::Black {
            board.black
        } else {
            board.white
        };
        let them = if color == Stone::Black {
            board.white
        } else {
            board.black
        };
        let f = move_features(me, them, mov, 4);
        let cap = (captured_list(board, mov, color).len() / 2) as int;
        let ocap = (captured_list(board, mov, opp(color)).len() / 2) as int;
        if tt_move == Some(mov) {
            1_000_000
        } else {
            match tactical_spec(f, cap, ocap, board.caps(color) as int, board.caps(opp(color)) as int) {
                Some(v) => v,
                None => self.quiet_spec(me, them, mov, color, board.caps(opp(color)), f, depth),
            }
        }
    }

    /// The score of a quiet move: killer moves, then the countermove, then
    /// history, centrality, two-stone shapes, proximity and line development;
    /// less the penalty for pairs it leaves capturable.
    #[verifier::opaque]
    pub open spec fn quiet_spec(self, me: Bitboard, them: Bitboard, mov: Pos, color: Stone, opp_caps: u8, f: Features, depth: i8) -> int {
        let setup_weight = if opp_caps >= 3 {
            100_000int
        } else if opp_caps >= 2 {
            75_000int
        } else {
            50_000int
        };
        let penalty = vuln_penalty(me, them, mov, opp_caps) + immediate_penalty(me, them, mov, setup_weight, 8);
        let ply = if self.max_depth - depth < 0 {
            0
        } else {
            self.max_depth - depth
        };
        let cidx = if color == Stone::Black {
            0int
        } else {
            1int
        };
        let dr9 = if mov.row >= 9 {
            mov.row - 9
        } else {
            9 - mov.row
        };
        let dc9 = if mov.col >= 9 {
            mov.col - 9
        } else {
            9 - mov.col
        };
        if ply < KILLER_PLIES && self.killer_moves@[2 * ply] == Some(mov) {
            500_000 - penalty
        } else if ply < KILLER_PLIES && self.killer_moves@[2 * ply + 1] == Some(mov) {
            490_000 - penalty
        } else if self.last_move_for_ordering is Some && self.countermove@[(1 - cidx) * TOTAL_CELLS
            + self.last_move_for_ordering->0.idx()] == Some(mov) {
            400_000 - penalty
        } else {
            self.history@[cidx * TOTAL_CELLS + mov.idx()] + (18 - (dr9 + dc9)) * 25 + f.8 + proximity(
                me,
                mov,
                8,
            ) + (if f.9 <= 1 {
                0int
            } else if f.9 == 2 {
                50_000int
            } else {
                100_000int
            }) + (if f.10 <= 1 {
                0int
            } else if f.10 == 2 {
                30_000int
            } else {
                80_000int
            }) - penalty
        }
    }

    /// Score a move for ordering (defense first): the table move first, then
    /// wins, forks, blocks of the opponent's forks, captures and threats in a
    /// fixed priority ladder; quiet moves by killer, countermove, history,
    /// centrality, proximity and line development, less a penalty for
    /// forming a capturable pair.
    pub fn score_move(&self, board: &Board, mov: Pos, color: Stone, tt_move: Option<Pos>, depth: i8) -> (s: i32)
        requires
            self.wf(),
            mov.valid(),
            color == Stone::Black || color == Stone::White,
        ensures
            s == self.score_spec(*board, mov, color, tt_move, depth),
            tt_move == Some(mov) ==> s == 1_000_000,
            -10_000_000 <= s <= HIST_CAP + 1_000_000,
    {
        proof {
            reveal(WorkerSearcher::score_spec);
        }
        let opponent = color.opponent();
        if tt_move == Some(mov) {
            return 1_000_000;
        }
        let my_bb = if color == Stone::Black {
            &board.black
        } else {
            &board.white
        };
        let opp_bb = if color == Stone::Black {
            &board.white
        } else {
            &board.black
        };
        let f = line_features(my_bb, opp_bb, mov);
        let capture_count = count_captures_fast(board, mov, color) as i32;
        let opp_capture = count_captures_fast(board, mov, opponent) as i32;
        proof {
            lemma_captured_pairs(*board, mov, color);
            lemma_captured_pairs(*board, mov, opponent);
        }
        let opp_caps = board.captures(opponent);
        match tactical_score(f, capture_count, opp_capture, board.captures(color) as i32, opp_caps as i32) {
            Some(v) => {
                return v;
            },
            None => {},
        }
        self.quiet_score(my_bb, opp_bb, mov, color, opp_caps, f, depth)
    }

    /// The score of a quiet move (see `quiet_spec`).
    #[verifier::spinoff_prover]
    #[verifier::rlimit(100)]
    fn quiet_score(&self, my_bb: &Bitboard, opp_bb: &Bitboard, mov: Pos, color: Stone, opp_caps: u8, f: ExecFeatures, depth: i8) -> (s: i32)
        requires
            self.wf(),
            mov.valid(),
            features_ok(f),
        ensures
            s == self.quiet_spec(*my_bb, *opp_bb, mov, color, opp_caps, features_of(f), depth),
            -10_000_000 <= s <= HIST_CAP + 1_000_000,
    {
        proof {
            reveal(WorkerSearcher::quiet_spec);
        }
        let (_, _, _, _, _, _, _, _, my_two_score, my_developing_dirs, opp_developing_dirs) = f;
        let r = mov.row as i32;
        let c = mov.col as i32;
        let setup_weight: i32 = if opp_caps >= 3 {
            100_000
        } else if opp_caps >= 2 {
            75_000
        } else {
            50_000
        };
        let immediate_cap_penalty = immediate_cap_penalty(my_bb, opp_bb, mov, setup_weight);
        let capture_penalty = capture_vulnerability(my_bb, opp_bb, mov, opp_caps) + immediate_cap_penalty;
        let ply_i = self.max_depth as i32 - depth as i32;
        let ply: usize = if ply_i < 0 { 0 } else { ply_i as usize };
        if ply < KILLER_PLIES {
            if self.killer_moves[2 * ply] == Some(mov) {
                return 500_000 - capture_penalty;
            }
            if self.killer_moves[2 * ply + 1] == Some(mov) {
                return 490_000 - capture_penalty;
            }
        }
        let cidx: usize = if color == Stone::Black { 0 } else { 1 };
        let opp_idx: usize = if color == Stone::Black { 1 } else { 0 };
        match self.last_move_for_ordering {
            Some(lm) => {
                if self.countermove[opp_idx * TOTAL_CELLS + lm.to_index()] == Some(mov) {
                    return 400_000 - capture_penalty;
                }
            },
            None => {},
        }
        let hist = self.history[cidx * TOTAL_CELLS + mov.to_index()];
        let dr9 = if r >= 9 { r - 9 } else { 9 - r };
        let dc9 = if c >= 9 { c - 9 } else { 9 - c };
        let center_bonus = (18 - (dr9 + dc9)) * 25;
        let proximity = proximity_bonus(my_bb, mov);
        let development_bonus: i32 = if my_developing_dirs <= 1 {
            0
        } else if my_developing_dirs == 2 {
            50_000
        } else {
            100_000
        };
        let disruption_bonus: i32 = if opp_developing_dirs <= 1 {
            0
        } else if opp_developing_dirs == 2 {
            30_000
        } else {
            80_000
        };
        hist + center_bonus + my_two_score + proximity + development_bonus + disruption_bonus
            - capture_penalty
    }

    /// Count a node; at the node cap the search stops instead.
    fn enter_node(&mut self) -> (ok: bool)
        requires
            old(self).wf(),
        ensures
            final(self).wf(),
            ok ==> final(self).nodes == old(self).nodes + 1 && final(self).stopped == old(self).stopped,
            !ok ==> final(self).nodes == old(self).nodes && final(self).stopped,
            final(self).killer_moves == old(self).killer_moves,
            final(self).history == old(self).history,
            final(self).countermove == old(self).countermove,
            final(self).last_move_for_ordering == old(self).last_move_for_ordering,
            final(self).same_frame(*old(self)),
    {
        if self.nodes == u64::MAX {
            self.stopped = true;
            return false;
        }
        self.nodes = self.nodes + 1;
        true
    }

    /// Hash of the position after `color` played `mov` with captures `info`,
    /// from the hash `hash` before the move.
    fn child_hash(
        &self,
        hash: u64,
        mov: Pos,
        color: Stone,
        info: &CaptureInfo,
        after: &Board,
        Ghost(before): Ghost<Board>,
    ) -> (h: u64)
        requires
            self.zobrist.wf(),
            mov.valid(),
            info.wf(),
            after.caps(color) >= info.pairs,
            color == Stone::Black || color == Stone::White,
            moved(before, mov, color, *after),
            exists|m: Board| #[trigger] placed(before, mov, color, m) && info.list() == captured_list(m, mov, color),
        ensures
            before.wf() && before.cell(mov.idx()) == Stone::Empty && hash == self.zobrist.hash_spec(before, color)
                ==> h == self.zobrist.hash_spec(*after, opp(color)),
    {
        let ghost keys = if color == Stone::Black {
            self.zobrist.white@
        } else {
            self.zobrist.black@
        };
        let mut h = self.zobrist.update_place(hash, mov, color);
        let ghost h0 = h;
        proof {
            assert(info.list().take(0) =~= Seq::<Pos>::empty());
            lemma_xor_zero(h0);
        }
        let opponent = color.opponent();
        let mut j: usize = 0;
        while j < info.count as usize
            invariant
                self.zobrist.wf(),
                info.wf(),
                0 <= j <= info.count,
                opponent == opp(color),
                color == Stone::Black || color == Stone::White,
                keys == if color == Stone::Black {
                    self.zobrist.white@
                } else {
                    self.zobrist.black@
                },
                h == h0 ^ list_xor(keys, info.list().take(j as int)),
            decreases info.count - j,
        {
            let ghost hj = h;
            h = self.zobrist.update_capture(h, info.positions[j], opponent);
            proof {
                let l = info.list();
                assert(l.take(j as int + 1).drop_last() =~= l.take(j as int));
                assert(l.take(j as int + 1).last() == info.positions[j as int]);
                let lx = list_xor(keys, l.take(j as int));
                let kj = keys[info.positions[j as int].idx()];
                assert((h0 ^ lx) ^ kj == h0 ^ (lx ^ kj)) by (bit_vector);
            }
            j = j + 1;
        }
        let ghost h_stones = h;
        if info.pairs > 0 {
            let new_count = after.captures(color);
            let old_count = new_count - info.pairs;
            h = self.zobrist.update_capture_count(h, color, old_count, new_count);
            proof {
                if before.wf() && before.cell(mov.idx()) == Stone::Empty {
                    let m = choose|m: Board| #[trigger] placed(before, mov, color, m) && info.list() == captured_list(m, mov, color);
                    let m2 = choose|m: Board| #[trigger] placed(before, mov, color, m) && removal_applied(m, *after, color, captured_list(m, mov, color), (captured_list(m, mov, color).len() / 2) as int);
                    assert(m.same_position(m2));
                    Board::lemma_ext(m, m2);
                    assert(info.list().len() == info.count);
                    assert(cap_slot(old_count) == cap_slot(before.caps(color)));
                }
            }
        }
        proof {
            if before.wf() && before.cell(mov.idx()) == Stone::Empty && hash == self.zobrist.hash_spec(before, color) {
                let m = choose|m: Board| #[trigger] placed(before, mov, color, m) && info.list() == captured_list(m, mov, color);
                let m2 = choose|m: Board| #[trigger] placed(before, mov, color, m) && removal_applied(m, *after, color, captured_list(m, mov, color), (captured_list(m, mov, color).len() / 2) as int);
                assert(m.same_position(m2));
                Board::lemma_ext(m, m2);
                let l = info.list();
                assert(l.take(l.len() as int) =~= l);
                assert(l.len() == info.count);
                lemma_captured_upto(m, mov, color, 8);
                lemma_captured_distinct(m, mov, color, 8);
                law_move_matches_hash(*self.zobrist, before, m, *after, mov, color, l, (l.len() / 2) as int);
                let big_h = self.zobrist.hash_spec(before, color);
                let sk = self.zobrist.stone_key(mov.idx(), color);
                let t = self.zobrist.black_to_move;
                let lx = list_xor(keys, l);
                let cb = count_key(*self.zobrist, color, before.caps(color));
                let ca = count_key(*self.zobrist, color, after.caps(color));
                assert(h0 == big_h ^ sk ^ t);
                assert(h_stones == (big_h ^ sk ^ t) ^ lx);
                if info.pairs > 0 {
                    assert(h == h_stones ^ cb ^ ca);
                    assert(((big_h ^ sk ^ t) ^ lx) ^ cb ^ ca == big_h ^ sk ^ t ^ lx ^ cb ^ ca) by (bit_vector);
                } else {
                    assert(after.caps(color) == before.caps(color));
                    assert(cb == ca);
                    assert(((big_h ^ sk ^ t) ^ lx) == big_h ^ sk ^ t ^ lx ^ cb ^ cb) by (bit_vector);
                }
            }
        }
        h
    }

    /// Quiescence search at the leaves: stand pat on the static evaluation,
    /// or search forcing moves only (fives, fours, capture wins, blocks of
    /// an opponent five).
    fn quiescence(
        &mut self,
        board: &Board,
        color: Stone,
        alpha: i32,
        beta: i32,
        last_move: Pos,
        qs_depth: i8,
        hash: u64,
    ) -> (score: i32)
        requires
            old(self).wf(),
            last_move.valid(),
            color == Stone::Black || color == Stone::White,
            -SCORE_BOUND <= alpha < beta <= SCORE_BOUND,
            0 <= qs_depth <= MAX_QS_DEPTH,
        ensures
            final(self).wf(),
            final(self).same_frame(*old(self)),
            final(self).nodes >= old(self).nodes,
            old(self).stopped ==> final(self).stopped,
            -SCORE_BOUND <= score <= SCORE_BOUND,
            lost_at(*board, color, last_move) ==> score == -PatternScore::FIVE || (score == 0
                && final(self).stopped),
        decreases u64::MAX - old(self).nodes, 0int,
    {
        let mut alpha = alpha;
        if !self.enter_node() {
            return 0;
        }
        if self.nodes & 4095 == 0 && self.check_time() {
            return 0;
        }
        if self.is_stopped() {
            return 0;
        }
        let last_player = color.opponent();
        if board.captures(last_player) >= 5 {
            return -PatternScore::FIVE;
        }
        if has_five_at_pos(board, last_move, last_player) {
            match find_five_line_at_pos(board, last_move, last_player) {
                Some(five_line) => {
                    if can_break_five_by_capture(board, five_line.as_slice(), last_player) {
                        return self.search_five_break(board, color, 0, alpha, beta, &five_line, last_player, hash);
                    }
                },
                None => {},
            }
            return -PatternScore::FIVE;
        }
        let probe = self.tt.probe(hash, 0, alpha, beta);
        self.qs_node(board, color, alpha, beta, last_move, qs_depth, hash, probe)
    }

    /// The quiescence search of a node once the table has been asked: the
    /// table's score when it gave one; otherwise stand pat on the static
    /// evaluation, or the best of the forcing moves (fives, fours, capture
    /// wins, blocks of an opponent five). A forcing move that wins at once is
    /// always searched, so then the score is a win or a cutoff.
    fn qs_node(
        &mut self,
        board: &Board,
        color: Stone,
        alpha: i32,
        beta: i32,
        last_move: Pos,
        qs_depth: i8,
        hash: u64,
        probe: Option<(i32, Option<Pos>)>,
    ) -> (score: i32)
        requires
            old(self).wf(),
            last_move.valid(),
            color == Stone::Black || color == Stone::White,
            -SCORE_BOUND <= alpha < beta <= SCORE_BOUND,
            0 <= qs_depth <= MAX_QS_DEPTH,
            probe matches Some((s, _)) ==> -1_048_576 <= s <= 1_048_575,
        ensures
            final(self).wf(),
            final(self).same_frame(*old(self)),
            final(self).nodes >= old(self).nodes,
            old(self).stopped ==> final(self).stopped,
            -SCORE_BOUND <= score <= SCORE_BOUND,
            probe matches Some((s, _)) ==> score == s,
            probe is None && eval_spec(*board, color) >= beta ==> score == eval_spec(*board, color),
            probe is None && eval_spec(*board, color) < beta && qs_depth >= MAX_QS_DEPTH ==> score == eval_spec(
                *board,
                color,
            ),
            probe is None && !final(self).stopped && qs_depth < MAX_QS_DEPTH && (exists|p: Pos|
                #[trigger] qs_winning_move(*board, color, p, qs_fours(qs_depth))) ==> score >= PatternScore::FIVE
                || score >= beta,
        decreases u64::MAX - old(self).nodes, 1int,
    {
        let mut alpha = alpha;
        match probe {
            Some((score, _)) => {
                return score;
            },
            None => {},
        }
        let stand_pat = evaluate(board, color);
        if stand_pat >= beta {
            return stand_pat;
        }
        let alpha_at_entry = alpha;
        if stand_pat > alpha {
            alpha = stand_pat;
        }
        if qs_depth >= MAX_QS_DEPTH {
            return stand_pat;
        }
        let fours_allowed = qs_depth < 6;
        let flags = near_cells(board);
        let mut forcing_moves: Vec<(Pos, i32)> = Vec::new();
        let mut i: usize = 0;
        while i < TOTAL_CELLS
            invariant
                0 <= i <= 361,
                flags@.len() == 361,
                forall|p: Pos| p.valid() ==> (#[trigger] flags@[p.idx()] == near_stone(*board, p)),
                fours_allowed == qs_fours(qs_depth),
                color == Stone::Black || color == Stone::White,
                forall|k: int| 0 <= k < forcing_moves.len() ==> (#[trigger] forcing_moves[k]).1 == forcing_spec(
                    *board,
                    forcing_moves[k].0,
                    color,
                    fours_allowed,
                ),
                forall|p: Pos| #[trigger] qs_winning_move(*board, color, p, fours_allowed) && p.idx() < i ==> exists|q: int|
                    0 <= q < forcing_moves.len() && forcing_moves[q].0 == p,
                forcing_moves.len() <= i,
                forall|k: int| 0 <= k < forcing_moves.len() ==> (#[trigger] forcing_moves[k]).0.valid(),
                forall|a: int, c: int| 0 <= a < c < forcing_moves.len() ==> (#[trigger] forcing_moves[a]).1 >= (#[trigger] forcing_moves[c]).1,
            decreases 361 - i,
        {
            let pos = Pos::new((i / 19) as u8, (i % 19) as u8);
            assert(pos.idx() == i);
            let ghost before0 = forcing_moves@;
            if flags[i] && board.is_empty(pos) && has_adjacent_stone(board, pos) {
                let priority = forcing_priority(board, pos, color, fours_allowed);
                if priority > 0 && is_valid_move(board, pos, color) {
                    let at = insert_point(&forcing_moves, priority);
                    let ghost before = forcing_moves@;
                    forcing_moves.insert(at, (pos, priority));
                    proof {
                        lemma_insert_sorted(before, forcing_moves@, at as int, (pos, priority));
                        assert forall|k: int| 0 <= k < forcing_moves.len() implies (#[trigger] forcing_moves[k]).1
                            == forcing_spec(*board, forcing_moves[k].0, color, fours_allowed) by {
                            if k < at {
                                assert(forcing_moves[k] == before[k]);
                            } else if k > at {
                                assert(forcing_moves[k] == before[k - 1]);
                            }
                        }
                        assert forall|p: Pos| #[trigger] qs_winning_move(*board, color, p, fours_allowed) && p.idx() < i + 1
                            implies exists|q: int| 0 <= q < forcing_moves.len() && forcing_moves[q].0 == p by {
                            if p.idx() == i {
                                super::threat::lemma_idx_injective(p, pos);
                                assert(forcing_moves[at as int].0 == p);
                            } else {
                                let q = choose|q: int| 0 <= q < before.len() && before[q].0 == p;
                                if q < at {
                                    assert(forcing_moves[q] == before[q]);
                                } else {
                                    assert(forcing_moves[q + 1] == before[q]);
                                }
                            }
                        }
                    }
                }
            }
            proof {
                if forcing_moves@ == before0 {
                    assert forall|p: Pos| #[trigger] qs_winning_move(*board, color, p, fours_allowed) && p.idx() < i + 1
                        implies exists|q: int| 0 <= q < forcing_moves.len() && forcing_moves[q].0 == p by {
                        if p.idx() == i {
                            super::threat::lemma_idx_injective(p, pos);
                            assert(false);
                        }
                    }
                }
            }
            i = i + 1;
        }
        proof {
            assert forall|p: Pos| #[trigger] qs_winning_move(*board, color, p, fours_allowed) implies exists|q: int|
                0 <= q < forcing_moves.len() && forcing_moves[q].0 == p by {
                assert(p.idx() < 361);
            }
        }
        if forcing_moves.len() == 0 {
            return stand_pat;
        }
        let max_qs_moves: usize = if qs_depth <= 2 { 8 } else { 4 };
        let mut best_score = stand_pat;
        let mut best_move: Option<Pos> = None;
        let mut moves_searched: usize = 0;
        let mut k: usize = 0;
        let ghost entry_nodes = old(self).nodes;
        while k < forcing_moves.len()
            invariant
                0 <= k <= forcing_moves.len(),
                self.wf(),
                self.same_frame(*old(self)),
                self.nodes >= entry_nodes,
                entry_nodes == old(self).nodes,
                old(self).stopped ==> self.stopped,
                probe is None,
                eval_spec(*board, color) < beta,
                fours_allowed == qs_fours(qs_depth),
                forall|q: int| 0 <= q < forcing_moves.len() ==> (#[trigger] forcing_moves[q]).1 == forcing_spec(
                    *board,
                    forcing_moves[q].0,
                    color,
                    fours_allowed,
                ),
                forall|a: int, c: int| 0 <= a < c < forcing_moves.len() ==> (#[trigger] forcing_moves[a]).1 >= (#[trigger] forcing_moves[c]).1,
                forall|q: int| 0 <= q < k && #[trigger] qs_winning_move(*board, color, forcing_moves[q].0, fours_allowed)
                    ==> best_score >= PatternScore::FIVE,
                last_move.valid(),
                color == Stone::Black || color == Stone::White,
                -SCORE_BOUND <= alpha < beta <= SCORE_BOUND,
                -SCORE_BOUND <= best_score <= SCORE_BOUND,
                0 <= qs_depth < MAX_QS_DEPTH,
                moves_searched <= k,
                forcing_moves.len() <= 361,
                forall|q: int| 0 <= q < forcing_moves.len() ==> (#[trigger] forcing_moves[q]).0.valid(),
            ensures
                best_score >= beta || (forall|q: int| 0 <= q < forcing_moves.len() && #[trigger] qs_winning_move(
                    *board,
                    color,
                    forcing_moves[q].0,
                    fours_allowed,
                ) ==> best_score >= PatternScore::FIVE),
                old(self).stopped ==> self.stopped,
            decreases forcing_moves.len() - k,
        {
            let (mov, priority) = forcing_moves[k];
            if priority < 850 && moves_searched >= max_qs_moves {
                proof {
                    assert forall|q: int| 0 <= q < forcing_moves.len() && #[trigger] qs_winning_move(
                        *board,
                        color,
                        forcing_moves[q].0,
                        fours_allowed,
                    ) implies best_score >= PatternScore::FIVE by {
                        if q >= k {
                            if q > k {
                                assert(forcing_moves[k as int].1 >= forcing_moves[q].1);
                            }
                        }
                    }
                }
                break;
            }
            let (after, cap_info) = play(board, mov, color);
            let ch = self.child_hash(hash, mov, color, &cap_info, &after, Ghost(*board));
            proof {
                super::threat::lemma_after_move(*board, mov, color, after);
            }
            let score = -self.quiescence(&after, color.opponent(), -beta, -alpha, mov, qs_depth + 1, ch);
            if self.is_stopped() {
                return 0;
            }
            proof {
                if qs_winning_move(*board, color, mov, fours_allowed) {
                    assert(opp(opp(color)) == color);
                    assert(score == PatternScore::FIVE);
                }
            }
            if score > best_score {
                best_score = score;
                best_move = Some(mov);
            }
            if score >= beta {
                break;
            }
            if score > alpha {
                alpha = score;
            }
            moves_searched = moves_searched + 1;
            k = k + 1;
        }
        if !self.is_stopped() {
            let entry_type = if best_score >= beta {
                EntryType::LowerBound
            } else if best_score > alpha_at_entry {
                EntryType::Exact
            } else {
                EntryType::UpperBound
            };
            self.tt.store(hash, 0, best_score, entry_type, best_move);
        }
        best_score
    }

    /// Search only the captures that break the opponent's breakable five:
    /// without one, the five wins.
    fn search_five_break(
        &mut self,
        board: &Board,
        color: Stone,
        depth: i8,
        alpha: i32,
        beta: i32,
        five_positions: &Vec<Pos>,
        five_color: Stone,
        hash: u64,
    ) -> (score: i32)
        requires
            old(self).wf(),
            color == Stone::Black || color == Stone::White,
            -SCORE_BOUND <= alpha < beta <= SCORE_BOUND,
            depth >= 0,
        ensures
            final(self).wf(),
            final(self).same_frame(*old(self)),
            final(self).nodes >= old(self).nodes,
            old(self).stopped ==> final(self).stopped,
            -PatternScore::FIVE <= score <= SCORE_BOUND,
            (forall|adj: Pos| !(#[trigger] near_five(five_positions@, adj) && breaks_at(*board, five_positions@, opp(five_color), adj)))
                ==> score == -PatternScore::FIVE,
        decreases u64::MAX - old(self).nodes, 1int,
    {
        let mut alpha = alpha;
        let break_moves = find_five_break_moves(board, five_positions.as_slice(), five_color);
        if break_moves.len() == 0 {
            return -PatternScore::FIVE;
        }
        proof {
            assert(break_moves@.contains(break_moves@[0]));
            assert(near_five(five_positions@, break_moves@[0]));
        }
        let mut best: i32 = -PatternScore::FIVE;
        let mut k: usize = 0;
        let ghost entry_nodes = old(self).nodes;
        while k < break_moves.len()
            invariant
                0 <= k <= break_moves.len(),
                self.wf(),
                self.same_frame(*old(self)),
                self.nodes >= entry_nodes,
                entry_nodes == old(self).nodes,
                color == Stone::Black || color == Stone::White,
                -SCORE_BOUND <= alpha < beta <= SCORE_BOUND,
                -PatternScore::FIVE <= best <= SCORE_BOUND,
                depth >= 0,
                forall|adj: Pos| #[trigger] break_moves@.contains(adj) ==> adj.valid(),
                break_moves.len() > 0,
                near_five(five_positions@, break_moves@[0]) && breaks_at(*board, five_positions@, opp(five_color), break_moves@[0]),
                old(self).stopped ==> self.stopped,
            decreases break_moves.len() - k,
        {
            let break_pos = break_moves[k];
            assert(break_moves@.contains(break_pos)) by {
                assert(break_moves@[k as int] == break_pos);
            }
            if !board.is_empty(break_pos) {
                k = k + 1;
                continue;
            }
            let (after, cap_info) = play(board, break_pos, color);
            let ch = self.child_hash(hash, break_pos, color, &cap_info, &after, Ghost(*board));
            let search_depth: i8 = if depth - 1 < 0 { 0 } else { depth - 1 };
            let score = -self.alpha_beta(&after, color.opponent(), search_depth, -beta, -alpha, break_pos, ch, true);
            if score > best {
                best = score;
                if score > alpha {
                    if score >= beta {
                        break;
                    }
                    alpha = score;
                }
            }
            if self.is_stopped() {
                return best;
            }
            k = k + 1;
        }
        best
    }


    /// Recursive alpha-beta search (negamax) with transposition table,
    /// reverse futility pruning, razoring, null-move pruning, internal
    /// iterative deepening, threat extensions, futility and late-move
    /// pruning, principal variation search and late-move reductions.
    fn alpha_beta(
        &mut self,
        board: &Board,
        color: Stone,
        depth: i8,
        alpha: i32,
        beta: i32,
        last_move: Pos,
        hash: u64,
        allow_null: bool,
    ) -> (score: i32)
        requires
            old(self).wf(),
            last_move.valid(),
            color == Stone::Black || color == Stone::White,
            -SCORE_BOUND <= alpha < beta <= SCORE_BOUND,
            depth >= 0,
        ensures
            final(self).wf(),
            final(self).same_frame(*old(self)),
            final(self).nodes >= old(self).nodes,
            old(self).stopped ==> final(self).stopped,
            -SCORE_BOUND <= score <= SCORE_BOUND,
            lost_at(*board, color, last_move) ==> score == -PatternScore::FIVE || (score == 0
                && final(self).stopped),
            !lost_at(*board, color, last_move) && board.caps(opp(color)) < 5 && (forall|j: int|
                0 <= j < 4 ==> #[trigger] line_count(*board, last_move, opp(color), j) < 5)
                && board.black.popcount() + board.white.popcount() >= 10 && find_five_spec(
                *board,
                color,
            ) is Some ==> score == PatternScore::FIVE || (score == 0 && final(self).stopped),
        decreases u64::MAX - old(self).nodes, 0int,
    {
        let mut alpha = alpha;
        if !self.enter_node() {
            return 0;
        }
        if self.nodes & 1023 == 0 {
            if self.check_time() {
                return 0;
            }
        }
        if self.is_stopped() {
            return 0;
        }
        let last_player = color.opponent();
        if board.captures(last_player) >= 5 {
            return -PatternScore::FIVE;
        }
        if has_five_at_pos(board, last_move, last_player) {
            match find_five_line_at_pos(board, last_move, last_player) {
                Some(five_line) => {
                    if can_break_five_by_capture(board, five_line.as_slice(), last_player) {
                        return self.search_five_break(board, color, depth, alpha, beta, &five_line, last_player, hash);
                    }
                },
                None => {},
            }
            return -PatternScore::FIVE;
        }
        if board.stone_count() >= 10 && has_five_in_row(board, color) {
            return PatternScore::FIVE;
        }
        if depth <= 0 {
            return self.quiescence(board, color, alpha, beta, last_move, 0, hash);
        }
        self.stats.tt_probes = self.stats.tt_probes.saturating_add(1);
        let probe = self.tt.probe(hash, depth, alpha, beta);
        let (score, _best_move) = self.ab_node(board, color, depth, alpha, beta, last_move, hash, allow_null, probe);
        score
    }

    /// The alpha-beta search of a node once the table has been asked: the
    /// table's score when it gave one; otherwise the pruning tests and the
    /// search of the moves. Returns the score and the best move searched
    /// (`None` when the table or a pruning test gave the score).
    fn ab_node(
        &mut self,
        board: &Board,
        color: Stone,
        depth: i8,
        alpha: i32,
        beta: i32,
        last_move: Pos,
        hash: u64,
        allow_null: bool,
        probe: Option<(i32, Option<Pos>)>,
    ) -> (r: (i32, Option<Pos>))
        requires
            old(self).wf(),
            last_move.valid(),
            color == Stone::Black || color == Stone::White,
            -SCORE_BOUND <= alpha < beta <= SCORE_BOUND,
            depth >= 1,
            probe matches Some((s, _)) ==> -1_048_576 <= s <= 1_048_575,
        ensures
            final(self).wf(),
            final(self).same_frame(*old(self)),
            final(self).nodes >= old(self).nodes,
            old(self).stopped ==> final(self).stopped,
            -SCORE_BOUND <= r.0 <= SCORE_BOUND,
            probe matches Some((s, _)) ==> r.0 == s && r.1 is None,
            probe is None && depth <= 3 && quiet_window(alpha as int, beta as int) && eval_spec(*board, color)
                - PatternScore::OPEN_THREE * depth >= beta ==> r.0 == eval_spec(*board, color),
            r.1 matches Some(m) ==> m.valid() && !final(self).stopped,
            r.1 matches Some(m) && lost_at(super::threat::after_move(*board, m, color), opp(color), m)
                ==> r.0 == PatternScore::FIVE,
        decreases u64::MAX - old(self).nodes, 1int,
    {
        let ghost entry_nodes = old(self).nodes;
        let mut window_lo = alpha;
        match probe {
            Some((score, _best_move)) => {
                self.stats.tt_score_hits = self.stats.tt_score_hits.saturating_add(1);
                return (score, None);
            },
            None => {},
        }
        let near_win = PatternScore::FIVE - 100;
        let non_terminal = -near_win < window_lo && window_lo < near_win && -near_win < beta && beta < near_win;
        let static_eval = if non_terminal {
            evaluate(board, color)
        } else {
            0
        };
        if depth <= 3 && non_terminal && static_eval - PatternScore::OPEN_THREE * depth as i32 >= beta {
            return (static_eval, None);
        }
        if depth <= 3 && non_terminal && static_eval + PatternScore::OPEN_THREE * depth as i32 <= window_lo {
            let qs_score = self.quiescence(board, color, window_lo, beta, last_move, 0, hash);
            if qs_score <= window_lo {
                return (qs_score, None);
            }
        }
        if allow_null && depth >= 3 && non_terminal && static_eval >= beta && !is_threatened(board, color, last_move) {
            let r: i8 = 2;
            let null_depth: i8 = if depth - 1 - r < 0 { 0 } else { depth - 1 - r };
            let null_hash = self.zobrist.toggle_side(hash);
            let null_score = -self.alpha_beta(board, color.opponent(), null_depth, -beta, -(beta - 1), last_move, null_hash, false);
            if !self.is_stopped() && null_score >= beta {
                if depth <= 8 {
                    return (beta, None);
                }
                let verify = self.alpha_beta(board, color, depth - r, window_lo, beta, last_move, hash, false);
                if !self.is_stopped() && verify >= beta {
                    return (beta, None);
                }
            }
        }
        let mut tt_move = self.tt.get_best_move(hash);
        if tt_move.is_some() {
            self.stats.tt_move_hits = self.stats.tt_move_hits.saturating_add(1);
        }
        if tt_move.is_none() && depth >= 6 {
            let iid_depth: i8 = if depth - 4 < 1 { 1 } else { depth - 4 };
            let _ = self.alpha_beta(board, color, iid_depth, window_lo, beta, last_move, hash, false);
            if !self.is_stopped() {
                tt_move = self.tt.get_best_move(hash);
            }
        }
        self.last_move_for_ordering = Some(last_move);
        let (moves, top_score) = self.generate_moves_ordered(board, color, tt_move, depth);
        if moves.len() == 0 {
            return (evaluate(board, color), None);
        }
        let is_tactical = top_score >= 850_000;
        let max_moves: usize = if is_tactical {
            if depth <= 1 {
                5
            } else if depth <= 3 {
                7
            } else if depth <= 5 {
                9
            } else {
                12
            }
        } else {
            if depth <= 1 {
                3
            } else if depth <= 3 {
                5
            } else if depth <= 5 {
                7
            } else {
                9
            }
        };
        let kept = first_valid_moves(board, color, &moves, max_moves);
        let futility_ok = depth <= 3 && non_terminal;
        let futility_margin: i32 = if depth == 1 {
            PatternScore::CLOSED_FOUR
        } else if depth == 2 {
            PatternScore::OPEN_FOUR
        } else {
            PatternScore::OPEN_FOUR + PatternScore::OPEN_THREE
        };
        let mut best_score: i32 = -INF;
        let mut best_move: Option<Pos> = None;
        let mut entry_type = EntryType::UpperBound;
        let mut i: usize = 0;
        while i < kept.len()
            invariant
                0 <= i <= kept.len(),
                self.wf(),
                self.same_frame(*old(self)),
                self.nodes >= entry_nodes,
                entry_nodes == old(self).nodes,
                old(self).stopped ==> self.stopped,
                probe is None,
                last_move.valid(),
                non_terminal == quiet_window(alpha as int, beta as int),
                non_terminal ==> static_eval == eval_spec(*board, color),
                !(depth <= 3 && non_terminal && static_eval - PatternScore::OPEN_THREE * depth >= beta),
                best_move matches Some(m) ==> m.valid() && !self.stopped,
                best_move matches Some(m) && lost_at(super::threat::after_move(*board, m, color), opp(color), m)
                    ==> best_score == PatternScore::FIVE,
                color == Stone::Black || color == Stone::White,
                -SCORE_BOUND <= window_lo < beta <= SCORE_BOUND,
                -SCORE_BOUND <= best_score <= SCORE_BOUND,
                1 <= depth,
                -1_700_000_000 <= static_eval <= 1_700_000_000,
                kept.len() <= 12,
                0 <= futility_margin <= 110_000,
                forall|q: int| 0 <= q < kept.len() ==> (#[trigger] kept[q]).0.valid(),
            decreases kept.len() - i,
        {
            let (mov, move_score) = kept[i];
            if futility_ok && i > 0 && static_eval + futility_margin <= window_lo && move_score < 800_000 {
                i = i + 1;
                continue;
            }
            if i > 0 && depth <= 3 && i >= 3 + depth as usize * 2 && move_score < 800_000 {
                i = i + 1;
                continue;
            }
            let (after, cap_info) = play(board, mov, color);
            let ch = self.child_hash(hash, mov, color, &cap_info, &after, Ghost(*board));
            let is_capture = cap_info.pairs > 0;
            proof {
                super::threat::lemma_after_move(*board, mov, color, after);
                assert(opp(opp(color)) == color);
            }
            let extension: i8 = if depth >= 2 && move_creates_four(&after, mov, color) { 1 } else { 0 };
            let full_depth: i8 = depth - 1 + extension;
            let score = if i == 0 {
                -self.alpha_beta(&after, color.opponent(), full_depth, -beta, -window_lo, mov, ch, true)
            } else {
                let reduction: i8 = if is_capture || extension > 0 || depth < 2 || i < 1 {
                    0
                } else {
                    assert(depth as u32 * i as u32 <= 127 * 12) by (nonlinear_arith)
                        requires
                            1 <= depth <= 127,
                            i <= 12,
                    ;
                    let mut rr: i32 = isqrt((depth as u32 * i as u32) / 4) as i32;
                    if move_score < 500_000 {
                        rr = rr + 1;
                    }
                    if rr < 1 {
                        rr = 1;
                    }
                    if rr > depth as i32 - 2 {
                        rr = depth as i32 - 2;
                    }
                    rr as i8
                };
                let search_depth: i8 = if full_depth - reduction < 0 { 0 } else { full_depth - reduction };
                let mut sc = -self.alpha_beta(&after, color.opponent(), search_depth, -(window_lo + 1), -window_lo, mov, ch, true);
                if !self.is_stopped() && reduction > 0 && sc > window_lo {
                    sc = -self.alpha_beta(&after, color.opponent(), full_depth, -(window_lo + 1), -window_lo, mov, ch, true);
                }
                if !self.is_stopped() && sc > window_lo && sc < beta {
                    sc = -self.alpha_beta(&after, color.opponent(), full_depth, -beta, -window_lo, mov, ch, true);
                }
                sc
            };
            if self.is_stopped() {
                return (0, None);
            }
            assert(lost_at(after, opp(color), mov) ==> score == PatternScore::FIVE);
            if score > best_score {
                best_score = score;
                best_move = Some(mov);
            }
            if score >= beta {
                self.stats.beta_cutoffs = self.stats.beta_cutoffs.saturating_add(1);
                if i == 0 {
                    self.stats.first_move_cutoffs = self.stats.first_move_cutoffs.saturating_add(1);
                }
                self.record_cutoff(mov, color, depth, last_move);
                entry_type = EntryType::LowerBound;
                break;
            }
            if score > window_lo {
                window_lo = score;
                entry_type = EntryType::Exact;
            }
            i = i + 1;
        }
        self.tt.store(hash, depth, best_score, entry_type, best_move);
        (best_score, best_move)
    }

    /// Update the killer, history and countermove tables after `mov`
    /// caused a beta cutoff.
    fn record_cutoff(&mut self, mov: Pos, color: Stone, depth: i8, last_move: Pos)
        requires
            old(self).wf(),
            mov.valid(),
            last_move.valid(),
            1 <= depth,
        ensures
            final(self).wf(),
            final(self).same_frame(*old(self)),
            final(self).nodes == old(self).nodes,
            final(self).stopped == old(self).stopped,
            final(self).stats == old(self).stats,
            final(self).last_move_for_ordering == old(self).last_move_for_ordering,
            ({
                let ply = killer_ply(old(self).max_depth, depth);
                let k = old(self).killer_moves@;
                final(self).killer_moves@ == if ply < KILLER_PLIES && k[2 * ply] != Some(mov) {
                    k.update(2 * ply + 1, k[2 * ply]).update(2 * ply, Some(mov))
                } else {
                    k
                }
            }),
            ({
                let hi = color_slot_of(color) * TOTAL_CELLS + mov.idx();
                let h = old(self).history@[hi];
                final(self).history@ == old(self).history@.update(
                    hi,
                    if h + depth * depth > HIST_CAP {
                        HIST_CAP
                    } else {
                        (h + depth * depth) as i32
                    },
                )
            }),
            final(self).countermove@ == old(self).countermove@.update(
                (1 - color_slot_of(color)) * TOTAL_CELLS + last_move.idx(),
                Some(mov),
            ),
    {
        let ply_i = self.max_depth as i32 - depth as i32;
        let ply: usize = if ply_i < 0 { 0 } else { ply_i as usize };
        if ply < KILLER_PLIES {
            if self.killer_moves[2 * ply] != Some(mov) {
                let first = self.killer_moves[2 * ply];
                self.killer_moves.set(2 * ply + 1, first);
                self.killer_moves.set(2 * ply, Some(mov));
            }
        }
        let cidx: usize = if color == Stone::Black { 0 } else { 1 };
        let hi = cidx * TOTAL_CELLS + mov.to_index();
        assert(depth as i32 * depth as i32 <= 127 * 127) by (nonlinear_arith)
            requires
                1 <= depth <= 127,
        ;
        let add = depth as i32 * depth as i32;
        let h = self.history[hi];
        let nh = if h > HIST_CAP - add { HIST_CAP } else { h + add };
        self.history.set(hi, nh);
        let opp_idx: usize = if color == Stone::Black { 1 } else { 0 };
        self.countermove.set(opp_idx * TOTAL_CELLS + last_move.to_index(), Some(mov));
    }


    /// Root search: the first `MAX_ROOT_MOVES` legal candidates, principal
    /// variation search with threat extensions; the result is stored in the
    /// transposition table unless the search was stopped.
    pub fn search_root(&mut self, board: &Board, color: Stone, depth: i8, alpha: i32, beta: i32) -> (res: SearchResult)
        requires
            old(self).wf(),
            color == Stone::Black || color == Stone::White,
            -SCORE_BOUND <= alpha < beta <= SCORE_BOUND,
            1 <= depth,
        ensures
            final(self).wf(),
            final(self).same_frame(*old(self)),
            final(self).nodes >= old(self).nodes,
            -SCORE_BOUND <= res.score <= SCORE_BOUND,
            res.depth == depth,
            res.nodes == final(self).nodes,
            res.stats == final(self).stats,
            res.best_move matches Some(p) ==> p.valid() && valid_move(*board, p, color) && root_candidate(*board, color, p),
            old(self).stopped ==> final(self).stopped,
            res.best_move is None ==> res.score == -INF,
            (forall|p: Pos| !#[trigger] root_candidate(*board, color, p)) ==> res.best_move is None,
            res.best_move matches Some(m) && lost_at(super::threat::after_move(*board, m, color), opp(color), m)
                ==> res.score == PatternScore::FIVE,
            root_record(*board, color, final(self).root_scores@),
            picks_best(final(self).root_scores@, res.best_move, res.score),
            !final(self).stopped && (exists|p: Pos| #[trigger] root_candidate(*board, color, p))
                ==> final(self).root_scores@.len() > 0,
            !final(self).stopped && history_below(old(self).history@, 700_000) && single_captures(*board, color)
                && (exists|p: Pos| #[trigger] first_five_wins(*board, color, p)) ==> res.score >= PatternScore::FIVE
                || res.score >= beta,
    {
        let mut alpha = alpha;
        let mut best_move: Option<Pos> = None;
        let mut best_score: i32 = -INF;
        let hash = self.zobrist.hash(board, color);
        let tt_move = self.tt.get_best_move(hash);
        self.last_move_for_ordering = None;
        let ghost ws = *self;
        let (moves, _top_score) = self.generate_moves_ordered(board, color, tt_move, depth);
        let kept = first_valid_moves(board, color, &moves, MAX_ROOT_MOVES);
        proof {
            lemma_legal_among_from(*board, color, moves@, moves@.len() as int);
            let all = legal_among(*board, color, moves@, moves@.len() as int);
            assert forall|i: int| 0 <= i < kept.len() implies #[trigger] root_candidate(*board, color, kept@[i].0) by {
                assert(kept@[i] == all[i]);
                let q = choose|q: int| 0 <= q < moves@.len() && moves@[q] == #[trigger] all[i] && valid_move(*board, moves@[q].0, color);
                let p = moves@[q].0;
                if board.black.empty_spec() && board.white.empty_spec() {
                    assert(moves@[q] == moves@[0]);
                } else {
                    assert(exists|k: int| 0 <= k < moves.len() && (#[trigger] moves@[k]).0 == p);
                }
            }
            if exists|p: Pos| #[trigger] root_candidate(*board, color, p) {
                let p = choose|p: Pos| #[trigger] root_candidate(*board, color, p);
                if board.black.empty_spec() && board.white.empty_spec() {
                    assert(moves@[0].0 == p);
                    lemma_legal_among_nonempty(*board, color, moves@, moves@.len() as int, 0);
                } else {
                    let k = choose|k: int| 0 <= k < moves.len() && (#[trigger] moves@[k]).0 == p;
                    lemma_legal_among_nonempty(*board, color, moves@, moves@.len() as int, k);
                }
                assert(kept.len() > 0);
            }
        }
        let ghost mut rec: Seq<(Pos, i32)> = Seq::empty();
        let mut i: usize = 0;
        while i < kept.len()
            invariant
                0 <= i <= kept.len(),
                self.wf(),
                self.same_frame(*old(self)),
                self.nodes >= old(self).nodes,
                color == Stone::Black || color == Stone::White,
                -SCORE_BOUND <= alpha < beta <= SCORE_BOUND,
                -SCORE_BOUND <= best_score <= SCORE_BOUND,
                1 <= depth,
                forall|q: int| 0 <= q < kept.len() ==> (#[trigger] kept[q]).0.valid() && valid_move(*board, kept[q].0, color),
                best_move matches Some(p) ==> p.valid() && valid_move(*board, p, color) && root_candidate(*board, color, p),
                forall|q: int| 0 <= q < kept.len() ==> #[trigger] root_candidate(*board, color, kept@[q].0),
                best_move is None ==> best_score == -INF,
                kept.len() == 0 ==> best_move is None,
                rec.len() == i,
                forall|q: int| 0 <= q < rec.len() ==> (#[trigger] rec[q]).0 == kept@[q].0,
                root_record(*board, color, rec),
                picks_best(rec, best_move, best_score),
                old(self).stopped ==> self.stopped,
                best_move matches Some(m) && lost_at(super::threat::after_move(*board, m, color), opp(color), m)
                    ==> best_score == PatternScore::FIVE,
            ensures
                !self.stopped && kept.len() > 0 ==> rec.len() > 0,
                !self.stopped ==> rec.len() == kept.len() || (rec.len() > 0 && rec[rec.len() - 1].1 >= beta),
                rec.len() <= kept.len(),
                forall|q: int| 0 <= q < rec.len() ==> (#[trigger] rec[q]).0 == kept@[q].0,
                self.wf(),
                self.same_frame(*old(self)),
                self.nodes >= old(self).nodes,
                -SCORE_BOUND <= best_score <= SCORE_BOUND,
                best_move matches Some(p) ==> p.valid() && valid_move(*board, p, color) && root_candidate(*board, color, p),
                best_move is None ==> best_score == -INF,
                kept.len() == 0 ==> best_move is None,
                root_record(*board, color, rec),
                picks_best(rec, best_move, best_score),
                old(self).stopped ==> self.stopped,
                best_move matches Some(m) && lost_at(super::threat::after_move(*board, m, color), opp(color), m)
                    ==> best_score == PatternScore::FIVE,
            decreases kept.len() - i,
        {
            let (mov, _move_score) = kept[i];
            let (after, cap_info) = play(board, mov, color);
            let ch = self.child_hash(hash, mov, color, &cap_info, &after, Ghost(*board));
            proof {
                super::threat::lemma_after_move(*board, mov, color, after);
                assert(opp(opp(color)) == color);
            }
            let extension: i8 = if move_creates_four(&after, mov, color) { 1 } else { 0 };
            let child_depth: i8 = depth - 1 + extension;
            let score = if i == 0 {
                -self.alpha_beta(&after, color.opponent(), child_depth, -beta, -alpha, mov, ch, true)
            } else {
                let mut sc = -self.alpha_beta(&after, color.opponent(), child_depth, -(alpha + 1), -alpha, mov, ch, true);
                if !self.is_stopped() && sc > alpha && sc < beta {
                    sc = -self.alpha_beta(&after, color.opponent(), child_depth, -beta, -alpha, mov, ch, true);
                }
                sc
            };
            if self.is_stopped() {
                break;
            }
            assert(lost_at(after, opp(color), mov) ==> score == PatternScore::FIVE);
            let ghost old_rec = rec;
            proof {
                assert(kept@[i as int].0 == mov);
                rec = rec.push((mov, score));
                assert(rec[rec.len() - 1] == (mov, score));
                assert forall|k: int| 0 <= k < old_rec.len() implies #[trigger] rec[k] == old_rec[k] by {}
                assert forall|k: int| 0 <= k < rec.len() implies #[trigger] root_candidate(*board, color, rec[k].0) && (
                lost_at(super::threat::after_move(*board, rec[k].0, color), opp(color), rec[k].0) ==> rec[k].1
                    == PatternScore::FIVE) by {
                    if k < old_rec.len() {
                        assert(rec[k] == old_rec[k]);
                    }
                }
            }
            if score > best_score {
                best_score = score;
                best_move = Some(mov);
                proof {
                    assert forall|k: int| 0 <= k < rec.len() implies #[trigger] rec[k].1 <= best_score by {
                        if k < old_rec.len() {
                            assert(rec[k] == old_rec[k]);
                        }
                    }
                }
            } else {
                proof {
                    assert forall|k: int| 0 <= k < rec.len() implies #[trigger] rec[k].1 <= best_score by {
                        if k < old_rec.len() {
                            assert(rec[k] == old_rec[k]);
                        }
                    }
                    if best_move is Some {
                        let m = best_move->0;
                        let k = choose|k: int| 0 <= k < old_rec.len() && #[trigger] old_rec[k] == (m, best_score);
                        assert(rec[k] == old_rec[k]);
                    }
                }
            }
            i = i + 1;
            if score >= beta {
                break;
            }
            if score > alpha {
                alpha = score;
            }
        }
        if !self.is_stopped() {
            let entry_type = if best_score >= beta {
                EntryType::LowerBound
            } else {
                EntryType::Exact
            };
            self.tt.store(hash, depth, best_score, entry_type, best_move);
        }
        proof {
            if !self.stopped && history_below(old(self).history@, 700_000) && single_captures(*board, color)
                && exists|p: Pos| #[trigger] first_five_wins(*board, color, p) {
                let p = choose|p: Pos| #[trigger] first_five_wins(*board, color, p);
                lemma_first_five_kept(ws, *board, color, tt_move, depth, moves@, kept@, p);
                let j = choose|j: int| 0 <= j < kept.len() && (#[trigger] kept@[j]).0 == p;
                if rec.len() == kept.len() {
                    assert(rec[j].0 == p);
                    assert(rec[j].1 <= best_score);
                } else {
                    assert(rec[rec.len() - 1].1 <= best_score);
                }
            }
        }
        self.root_scores = Ghost(rec);
        SearchResult { best_move, score: best_score, depth, nodes: self.nodes, stats: self.stats }
    }

    /// Halve every history score (history gravity).
    fn age_history(&mut self)
        requires
            old(self).wf(),
        ensures
            final(self).wf(),
            final(self).same_frame(*old(self)),
            final(self).nodes == old(self).nodes,
            final(self).stopped == old(self).stopped,
            final(self).stats == old(self).stats,
            final(self).killer_moves == old(self).killer_moves,
            final(self).countermove == old(self).countermove,
            final(self).last_move_for_ordering == old(self).last_move_for_ordering,
            final(self).history@.len() == old(self).history@.len(),
            forall|i: int| 0 <= i < 2 * TOTAL_CELLS ==> #[trigger] final(self).history@[i] == old(self).history@[i] / 2,
    {
        let mut i: usize = 0;
        while i < 2 * TOTAL_CELLS
            invariant
                0 <= i <= 722,
                self.wf(),
                self.same_frame(*old(self)),
                self.nodes == old(self).nodes,
                self.stopped == old(self).stopped,
                self.stats == old(self).stats,
                self.killer_moves == old(self).killer_moves,
                self.countermove == old(self).countermove,
                self.last_move_for_ordering == old(self).last_move_for_ordering,
                self.history@.len() == old(self).history@.len(),
                forall|q: int| 0 <= q < i ==> #[trigger] self.history@[q] == old(self).history@[q] / 2,
                forall|q: int| i <= q < 2 * TOTAL_CELLS ==> #[trigger] self.history@[q] == old(self).history@[q],
            decreases 722 - i,
        {
            let h = self.history[i];
            self.history.set(i, h / 2);
            i = i + 1;
        }
    }

    /// Time-managed iterative deepening from depth `1 + start_depth_offset`
    /// to `max_depth`, with aspiration windows from depth 3. A win or loss is
    /// accepted once two consecutive depths agree, after a minimum depth;
    /// past that depth the next iteration is skipped when its estimated time
    /// exceeds what is left of the time limit.
    pub fn search_iterative(&mut self, board: &Board, color: Stone, max_depth: i8, start_depth_offset: i8) -> (res: SearchResult)
        requires
            old(self).wf(),
            color == Stone::Black || color == Stone::White,
            0 <= start_depth_offset,
        ensures
            final(self).wf(),
            final(self).same_frame(*old(self)),
            final(self).nodes >= old(self).nodes,
            res.nodes == final(self).nodes,
            res.stats == final(self).stats,
            res.best_move matches Some(p) ==> p.valid() && valid_move(*board, p, color) && root_candidate(*board, color, p),
            res.depth <= max_depth || res.depth == 0,
            -SCORE_BOUND <= res.score <= SCORE_BOUND,
            res.depth == 0 ==> res.best_move is None && res.score == 0,
            res.depth != 0 ==> first_iteration_depth(start_depth_offset) <= res.depth <= max_depth,
            old(self).stopped || max_depth < first_iteration_depth(start_depth_offset) ==> res.depth == 0,
            res.best_move is None && res.depth != 0 ==> res.score == -INF,
            (forall|p: Pos| !#[trigger] root_candidate(*board, color, p)) ==> res.best_move is None,
            res.best_move matches Some(m) && lost_at(super::threat::after_move(*board, m, color), opp(color), m)
                ==> res.score == PatternScore::FIVE,
            !final(self).stopped && first_iteration_depth(start_depth_offset) <= max_depth ==> res.depth != 0,
            res.depth != 0 ==> root_record(*board, color, final(self).root_scores@) && picks_best(
                final(self).root_scores@,
                res.best_move,
                res.score,
            ),
            res.depth != 0 && (exists|p: Pos| #[trigger] root_candidate(*board, color, p))
                ==> final(self).root_scores@.len() > 0,
    {
        let mut best_result = SearchResult { best_move: None, score: 0, depth: 0, nodes: 0, stats: SearchStats::zero() };
        let ghost mut best_rec: Seq<(Pos, i32)> = Seq::empty();
        let search_start = match &self.start_time {
            Some(t) => *t,
            None => clock_now(),
        };
        let soft_limit: u64 = match self.time_limit_ms {
            Some(l) => l,
            None => 500,
        };
        let mut prev_depth_time: u64 = 0;
        let min_depth: i8 = if board.stone_count() <= 4 { 8 } else { 10 };
        let mut prev_was_winning = false;
        let mut prev_was_losing = false;
        let first_depth: i8 = if start_depth_offset >= 126 { 127 } else { 1 + start_depth_offset };
        let mut depth: i8 = first_depth;
        let mut more = first_depth <= max_depth;
        while more
            invariant
                self.wf(),
                self.same_frame(*old(self)),
                color == Stone::Black || color == Stone::White,
                1 <= first_depth <= depth,
                more ==> depth <= max_depth,
                best_result.best_move matches Some(p) ==> p.valid() && valid_move(*board, p, color) && root_candidate(*board, color, p),
                best_result.depth <= max_depth || best_result.depth == 0,
                -SCORE_BOUND <= best_result.score <= SCORE_BOUND,
                best_result.depth == 0 ==> best_result.best_move is None && best_result.score == 0,
                best_result.depth != 0 ==> first_depth <= best_result.depth <= max_depth,
                first_depth == first_iteration_depth(start_depth_offset),
                self.nodes >= old(self).nodes,
                best_result.best_move is None && best_result.depth != 0 ==> best_result.score == -INF,
                (forall|p: Pos| !#[trigger] root_candidate(*board, color, p)) ==> best_result.best_move is None,
                old(self).stopped ==> self.stopped && best_result.depth == 0,
                best_result.best_move matches Some(m) && lost_at(super::threat::after_move(*board, m, color), opp(color), m)
                    ==> best_result.score == PatternScore::FIVE,
                best_result.depth == 0 && !self.stopped ==> (more ==> depth == first_depth) && (first_depth
                    <= max_depth ==> more),
                best_result.depth != 0 ==> root_record(*board, color, best_rec) && picks_best(
                    best_rec,
                    best_result.best_move,
                    best_result.score,
                ),
                best_result.depth != 0 && (exists|p: Pos| #[trigger] root_candidate(*board, color, p))
                    ==> best_rec.len() > 0,
            ensures
                self.wf(),
                self.same_frame(*old(self)),
                best_result.best_move matches Some(p) ==> p.valid() && valid_move(*board, p, color) && root_candidate(*board, color, p),
                best_result.depth <= max_depth || best_result.depth == 0,
                -SCORE_BOUND <= best_result.score <= SCORE_BOUND,
                best_result.depth == 0 ==> best_result.best_move is None && best_result.score == 0,
                best_result.depth != 0 ==> first_depth <= best_result.depth <= max_depth,
                first_depth == first_iteration_depth(start_depth_offset),
                self.nodes >= old(self).nodes,
                best_result.best_move is None && best_result.depth != 0 ==> best_result.score == -INF,
                (forall|p: Pos| !#[trigger] root_candidate(*board, color, p)) ==> best_result.best_move is None,
                old(self).stopped ==> self.stopped && best_result.depth == 0,
                best_result.best_move matches Some(m) && lost_at(super::threat::after_move(*board, m, color), opp(color), m)
                    ==> best_result.score == PatternScore::FIVE,
                best_result.depth == 0 && !self.stopped ==> max_depth < first_depth,
                best_result.depth != 0 ==> root_record(*board, color, best_rec) && picks_best(
                    best_rec,
                    best_result.best_move,
                    best_result.score,
                ),
                best_result.depth != 0 && (exists|p: Pos| #[trigger] root_candidate(*board, color, p))
                    ==> best_rec.len() > 0,
            decreases 128 - depth, if more { 1int } else { 0int },
        {
            if self.is_stopped() {
                break;
            }
            if depth > first_depth {
                self.age_history();
            }
            let depth_start = clock_now();
            let use_window = depth >= 3 && -(PatternScore::FIVE - 100) < best_result.score && best_result.score < PatternScore::FIVE - 100;
            let mut asp_alpha: i32 = -INF;
            let mut asp_beta: i32 = INF;
            if use_window {
                assert(-1_000_000 < best_result.score < 1_000_000);
                asp_alpha = best_result.score - ASP_WINDOW;
                asp_beta = best_result.score + ASP_WINDOW;
            }
            let mut result = self.search_root(board, color, depth, asp_alpha, asp_beta);
            let mut tries: u32 = 1;
            while tries < 3 && !self.is_stopped() && (result.score <= asp_alpha || result.score >= asp_beta)
                invariant
                    self.wf(),
                    self.same_frame(*old(self)),
                    color == Stone::Black || color == Stone::White,
                    1 <= depth <= max_depth,
                    -INF <= asp_alpha < asp_beta <= INF,
                    result.best_move matches Some(p) ==> p.valid() && valid_move(*board, p, color) && root_candidate(*board, color, p),
                    result.depth == depth,
                    -SCORE_BOUND <= result.score <= SCORE_BOUND,
                    self.nodes >= old(self).nodes,
                    result.best_move is None ==> result.score == -INF,
                    (forall|p: Pos| !#[trigger] root_candidate(*board, color, p)) ==> result.best_move is None,
                    result.best_move matches Some(m) && lost_at(super::threat::after_move(*board, m, color), opp(color), m)
                        ==> result.score == PatternScore::FIVE,
                    root_record(*board, color, self.root_scores@),
                    picks_best(self.root_scores@, result.best_move, result.score),
                    !self.stopped && (exists|p: Pos| #[trigger] root_candidate(*board, color, p))
                        ==> self.root_scores@.len() > 0,
                decreases 3 - tries,
            {
                if result.score <= asp_alpha {
                    asp_alpha = -INF;
                } else {
                    asp_beta = INF;
                }
                result = self.search_root(board, color, depth, asp_alpha, asp_beta);
                tries = tries + 1;
            }
            if self.is_stopped() {
                break;
            }
            best_result = result;
            best_result.depth = depth;
            proof {
                best_rec = self.root_scores@;
            }
            let depth_time = elapsed_ms(&depth_start);
            let total_elapsed = elapsed_ms(&search_start);
            let is_winning = best_result.score >= PatternScore::FIVE - 100;
            let is_losing = best_result.score <= -(PatternScore::FIVE - 100);
            if is_winning && prev_was_winning && depth >= min_depth {
                break;
            }
            if is_losing && prev_was_losing && depth >= min_depth {
                break;
            }
            prev_was_winning = is_winning;
            prev_was_losing = is_losing;
            if depth < min_depth {
                if depth >= 8 && total_elapsed > soft_limit {
                    break;
                }
                prev_depth_time = depth_time;
            } else {
                let remaining = soft_limit.saturating_sub(total_elapsed);
                let estimated_next = estimate_next_ms(depth_time, prev_depth_time);
                prev_depth_time = depth_time;
                if estimated_next > remaining {
                    break;
                }
            }
            if depth >= max_depth {
                more = false;
            } else {
                depth = depth + 1;
            }
        }
        best_result.nodes = self.nodes;
        best_result.stats = self.stats;
        self.root_scores = Ghost(best_rec);
        best_result
    }

    /// Candidate moves ordered by score, highest first, and the top score.
    ///
    /// On an empty board the only candidate is the center. Otherwise the
    /// candidates are the empty cells within two cells of a stone.
    #[verifier::spinoff_prover]
    #[verifier::rlimit(40)]
    pub fn generate_moves_ordered(&self, board: &Board, color: Stone, tt_move: Option<Pos>, depth: i8) -> (r: (Vec<(Pos, i32)>, i32))
        requires
            self.wf(),
            color == Stone::Black || color == Stone::White,
        ensures
            forall|k: int| 0 <= k < r.0.len() ==> (#[trigger] r.0[k]).0.valid(),
            forall|a: int, c: int| 0 <= a < c < r.0.len() ==> (#[trigger] r.0[a]).1 >= (#[trigger] r.0[c]).1,
            forall|a: int, c: int| 0 <= a < c < r.0.len() ==> (#[trigger] r.0[a]).1 > (#[trigger] r.0[c]).1 || (r.0[a].1 == r.0[c].1 && r.0[a].0.idx() < r.0[c].0.idx()),
            forall|k: int| 0 <= k < r.0.len() ==> -10_000_000 <= (#[trigger] r.0[k]).1 <= HIST_CAP + 1_000_000,
            !(board.black.empty_spec() && board.white.empty_spec()) ==> forall|k: int| 0 <= k < r.0.len() ==> (#[trigger] r.0[k]).1 == self.score_spec(*board, r.0[k].0, color, tt_move, depth),
            r.0.len() <= TOTAL_CELLS,
            board.black.empty_spec() && board.white.empty_spec() ==> r.0@ == seq![(Pos { row: 9, col: 9 }, 1_000_000i32)] && r.1 == 0,
            !(board.black.empty_spec() && board.white.empty_spec()) ==> {
                &&& forall|p: Pos| (exists|k: int| 0 <= k < r.0.len() && (#[trigger] r.0[k]).0 == p) <==> (p.valid() && near_stone(*board, p) && board.cell(p.idx()) == Stone::Empty)
                &&& r.1 == if r.0.len() > 0 { r.0[0].1 } else { 0 }
            },
    {
        if board.is_board_empty() {
            let center = Pos::new(9, 9);
            let mut v: Vec<(Pos, i32)> = Vec::new();
            v.push((center, 1_000_000));
            return (v, 0);
        }
        let flags = near_cells(board);
        let mut scored: Vec<(Pos, i32)> = Vec::with_capacity(64);
        let mut i: usize = 0;
        while i < TOTAL_CELLS
            invariant
                0 <= i <= 361,
                self.wf(),
                color == Stone::Black || color == Stone::White,
                flags@.len() == 361,
                forall|p: Pos| p.valid() ==> (#[trigger] flags@[p.idx()] == near_stone(*board, p)),
                scored.len() <= i,
                forall|k: int| 0 <= k < scored.len() ==> (#[trigger] scored[k]).0.valid(),
                forall|a: int, c: int| 0 <= a < c < scored.len() ==> (#[trigger] scored[a]).1 >= (#[trigger] scored[c]).1,
                forall|a: int, c: int| 0 <= a < c < scored.len() ==> (#[trigger] scored[a]).1 > (#[trigger] scored[c]).1 || (scored[a].1 == scored[c].1 && scored[a].0.idx() < scored[c].0.idx()),
                forall|k: int| 0 <= k < scored.len() ==> (#[trigger] scored[k]).0.idx() < i,
                forall|k: int| 0 <= k < scored.len() ==> -10_000_000 <= (#[trigger] scored[k]).1 <= HIST_CAP + 1_000_000,
                forall|k: int| 0 <= k < scored.len() ==> (#[trigger] scored[k]).1 == self.score_spec(*board, scored[k].0, color, tt_move, depth),
                forall|p: Pos| (exists|k: int| 0 <= k < scored.len() && (#[trigger] scored[k]).0 == p) <==> (p.valid() && p.idx() < i && near_stone(*board, p) && board.cell(p.idx()) == Stone::Empty),
            decreases 361 - i,
        {
            let pos = Pos::new((i / 19) as u8, (i % 19) as u8);
            assert(pos.idx() == i);
            let ghost old_scored = scored@;
            if flags[i] && board.is_empty(pos) {
                let score = self.score_move(board, pos, color, tt_move, depth);
                let at = insert_point(&scored, score);
                scored.insert(at, (pos, score));
                proof {
                    assert forall|a: int, c: int| 0 <= a < c < scored.len() implies (#[trigger] scored[a]).1 >= (#[trigger] scored[c]).1 by {
                        if a < at && c < at {
                            assert(scored[a] == old_scored[a] && scored[c] == old_scored[c]);
                        } else if a < at && c == at {
                            assert(scored[a] == old_scored[a]);
                        } else if a < at {
                            assert(scored[a] == old_scored[a] && scored[c] == old_scored[c - 1]);
                        } else if a == at {
                            assert(scored[c] == old_scored[c - 1]);
                        } else {
                            assert(scored[a] == old_scored[a - 1] && scored[c] == old_scored[c - 1]);
                        }
                    }
                    assert forall|a: int, c: int| 0 <= a < c < scored.len() implies (#[trigger] scored[a]).1 > (#[trigger] scored[c]).1 || (scored[a].1 == scored[c].1 && scored[a].0.idx() < scored[c].0.idx()) by {
                        if a < at && c < at {
                            assert(scored[a] == old_scored[a] && scored[c] == old_scored[c]);
                        } else if a < at && c == at {
                            assert(scored[a] == old_scored[a]);
                        } else if a < at {
                            assert(scored[a] == old_scored[a] && scored[c] == old_scored[c - 1]);
                        } else if a == at {
                            assert(scored[c] == old_scored[c - 1]);
                        } else {
                            assert(scored[a] == old_scored[a - 1] && scored[c] == old_scored[c - 1]);
                        }
                    }
                    assert forall|k: int| 0 <= k < scored.len() implies (#[trigger] scored[k]).0.idx() < i + 1 by {
                        if k < at {
                            assert(scored[k] == old_scored[k]);
                        } else if k > at {
                            assert(scored[k] == old_scored[k - 1]);
                        }
                    }
                    assert forall|k: int| 0 <= k < scored.len() implies (#[trigger] scored[k]).0.valid() && -10_000_000 <= scored[k].1 <= HIST_CAP + 1_000_000 && scored[k].1 == self.score_spec(*board, scored[k].0, color, tt_move, depth) by {
                        if k < at {
                            assert(scored[k] == old_scored[k]);
                        } else if k > at {
                            assert(scored[k] == old_scored[k - 1]);
                        }
                    }
                    assert forall|p: Pos| (exists|k: int| 0 <= k < scored.len() && (#[trigger] scored[k]).0 == p) <==> (p.valid() && p.idx() < i + 1 && near_stone(*board, p) && board.cell(p.idx()) == Stone::Empty) by {
                        if exists|k: int| 0 <= k < scored.len() && (#[trigger] scored[k]).0 == p {
                            let k = choose|k: int| 0 <= k < scored.len() && (#[trigger] scored[k]).0 == p;
                            if k < at {
                                assert(old_scored[k].0 == p);
                            } else if k > at {
                                assert(old_scored[k - 1].0 == p);
                            } else {
                                assert(p == pos);
                            }
                        }
                        if p.valid() && p.idx() < i + 1 && near_stone(*board, p) && board.cell(p.idx()) == Stone::Empty {
                            if p.idx() == i {
                                super::threat::lemma_idx_injective(p, pos);
                                assert(scored[at as int].0 == p);
                            } else {
                                let k = choose|k: int| 0 <= k < old_scored.len() && (#[trigger] old_scored[k]).0 == p;
                                if k < at {
                                    assert(scored[k].0 == p);
                                } else {
                                    assert(scored[k + 1].0 == p);
                                }
                            }
                        }
                    }
                }
            } else {
                proof {
                    assert forall|p: Pos| (exists|k: int| 0 <= k < scored.len() && (#[trigger] scored[k]).0 == p) <==> (p.valid() && p.idx() < i + 1 && near_stone(*board, p) && board.cell(p.idx()) == Stone::Empty) by {
                        if p.valid() && p.idx() == i {
                            super::threat::lemma_idx_injective(p, pos);
                        }
                    }
                }
            }
            i = i + 1;
        }
        proof {
            assert forall|p: Pos| (exists|k: int| 0 <= k < scored.len() && (#[trigger] scored[k]).0 == p) <==> (p.valid() && near_stone(*board, p) && board.cell(p.idx()) == Stone::Empty) by {
                if p.valid() {
                    assert(p.idx() < 361);
                }
            }
        }
        let top_score = if scored.len() > 0 { scored[0].1 } else { 0 };
        assert(top_score == if scored.len() > 0 { scored[0].1 } else { 0 });
        assert(!(board.black.empty_spec() && board.white.empty_spec()));
        (scored, top_score)
    }

    /// Legal moves of `color` within two cells of a stone, in board order (the
    /// center on an empty board).
    pub fn generate_moves(&self, board: &Board, color: Stone) -> (v: Vec<Pos>)
        ensures
            board.black.empty_spec() && board.white.empty_spec() ==> v@ == seq![Pos { row: 9, col: 9 }],
            !(board.black.empty_spec() && board.white.empty_spec()) ==> forall|p: Pos| #[trigger] v@.contains(p) <==> (p.valid() && near_stone(*board, p) && valid_move(*board, p, color)),
            forall|k: int| 0 <= k < v.len() ==> (#[trigger] v[k]).valid(),
            forall|a: int, c: int| 0 <= a < c < v.len() ==> (#[trigger] v[a]).idx() < (#[trigger] v[c]).idx(),
    {
        if board.is_board_empty() {
            let mut v: Vec<Pos> = Vec::new();
            v.push(Pos::new(9, 9));
            return v;
        }
        let flags = near_cells(board);
        let mut moves: Vec<Pos> = Vec::new();
        let mut i: usize = 0;
        while i < TOTAL_CELLS
            invariant
                0 <= i <= 361,
                flags@.len() == 361,
                forall|p: Pos| p.valid() ==> (#[trigger] flags@[p.idx()] == near_stone(*board, p)),
                forall|k: int| 0 <= k < moves.len() ==> (#[trigger] moves[k]).valid(),
                forall|k: int| 0 <= k < moves.len() ==> (#[trigger] moves[k]).idx() < i,
                forall|a: int, c: int| 0 <= a < c < moves.len() ==> (#[trigger] moves[a]).idx() < (#[trigger] moves[c]).idx(),
                forall|p: Pos| #[trigger] moves@.contains(p) <==> (p.valid() && p.idx() < i && near_stone(*board, p) && valid_move(*board, p, color)),
            decreases 361 - i,
        {
            let pos = Pos::new((i / 19) as u8, (i % 19) as u8);
            assert(pos.idx() == i);
            let ghost before = moves@;
            if flags[i] && is_valid_move(board, pos, color) {
                moves.push(pos);
            }
            proof {
                assert forall|p: Pos| #[trigger] moves@.contains(p) <==> (p.valid() && p.idx() < i + 1 && near_stone(*board, p) && valid_move(*board, p, color)) by {
                    if p.valid() && p.idx() == i {
                        super::threat::lemma_idx_injective(p, pos);
                    }
                    if moves@.contains(p) && !before.contains(p) {
                        let k = choose|k: int| 0 <= k < moves@.len() && moves@[k] == p;
                        assert(k == before.len());
                    }
                    if before.contains(p) {
                        let k = choose|k: int| 0 <= k < before.len() && before[k] == p;
                        assert(moves@[k] == p);
                    }
                    if p == pos && flags@[i as int] && valid_move(*board, p, color) {
                        assert(moves@[before.len() as int] == p);
                    }
                }
            }
            i = i + 1;
        }
        moves
    }
}



/// Sorted insertion keeps a list sorted by score, highest first, and keeps
/// every entry's position on the board.
proof fn lemma_insert_sorted(before: Seq<(Pos, i32)>, after: Seq<(Pos, i32)>, at: int, x: (Pos, i32))
    requires
        0 <= at <= before.len(),
        after == before.insert(at, x),
        x.0.valid(),
        forall|k: int| 0 <= k < before.len() ==> (#[trigger] before[k]).0.valid(),
        forall|a: int, c: int| 0 <= a < c < before.len() ==> (#[trigger] before[a]).1 >= (#[trigger] before[c]).1,
        forall|k: int| 0 <= k < at ==> (#[trigger] before[k]).1 >= x.1,
        forall|k: int| at <= k < before.len() ==> (#[trigger] before[k]).1 < x.1,
    ensures
        forall|k: int| 0 <= k < after.len() ==> (#[trigger] after[k]).0.valid(),
        forall|a: int, c: int| 0 <= a < c < after.len() ==> (#[trigger] after[a]).1 >= (#[trigger] after[c]).1,
{
    assert forall|k: int| 0 <= k < after.len() implies (#[trigger] after[k]).0.valid() by {
        if k < at {
            assert(after[k] == before[k]);
        } else if k > at {
            assert(after[k] == before[k - 1]);
        }
    }
    assert forall|a: int, c: int| 0 <= a < c < after.len() implies (#[trigger] after[a]).1 >= (#[trigger] after[c]).1 by {
        if a < at && c < at {
            assert(after[a] == before[a] && after[c] == before[c]);
        } else if a < at && c == at {
            assert(after[a] == before[a]);
        } else if a < at {
            assert(after[a] == before[a] && after[c] == before[c - 1]);
        } else if a == at {
            assert(after[c] == before[c - 1]);
        } else {
            assert(after[a] == before[a - 1] && after[c] == before[c - 1]);
        }
    }
}

/// Cell (r, c) is on the board and holds a stone.
pub open spec fn occupied_at(b: Board, r: int, c: int) -> bool {
    on_board(r, c) && b.at(r, c) != Stone::Empty
}

/// Whether a stone of either color lies next to `pos` (in one of the eight
/// directions). A cell with no neighbour makes no line longer than itself
/// and captures nothing, so it is no forcing move.
fn has_adjacent_stone(board: &Board, pos: Pos) -> (b: bool)
    requires
        pos.valid(),
    ensures
        b == exists|k: int| 0 <= k < 8 && #[trigger] occupied_at(*board, pos.row + ray_sdr(k), pos.col + ray_sdc(k)),
{
    let r = pos.row as i32;
    let c = pos.col as i32;
    let mut k: usize = 0;
    while k < 8
        invariant
            0 <= k <= 8,
            r == pos.row,
            c == pos.col,
            forall|j: int| 0 <= j < k ==> !#[trigger] occupied_at(*board, pos.row + ray_sdr(j), pos.col + ray_sdc(j)),
        decreases 8 - k,
    {
        let (dr, dc) = ray_step_i32(k);
        let nr = r + dr;
        let nc = c + dc;
        if Pos::is_valid(nr, nc) && !board.is_empty(Pos::new(nr as u8, nc as u8)) {
            assert(occupied_at(*board, pos.row + ray_sdr(k as int), pos.col + ray_sdc(k as int)));
            return true;
        }
        k = k + 1;
    }
    false
}

/// The priority from the first `n` line directions through `pos`: 900 once
/// a direction makes five; else the best of 800/700 for an open/closed four
/// (when fours are allowed) and 850 for a direction where the opponent makes
/// five; 0 when none applies.
pub open spec fn priority_upto(b: Board, pos: Pos, color: Stone, fours_allowed: bool, n: int) -> int
    decreases n,
{
    if n <= 0 {
        0
    } else {
        let prev = priority_upto(b, pos, color, fours_allowed, n - 1);
        let j = n - 1;
        let mc = line_count(b, pos, color, j);
        let oe = super::threat::open_ends(b, pos, color, j);
        if prev == 900 || mc >= 5 {
            900
        } else {
            let four: int = if oe == 2 {
                800
            } else {
                700
            };
            let p1 = if fours_allowed && mc == 4 && oe >= 1 && four > prev {
                four
            } else {
                prev
            };
            if line_count(b, pos, opp(color), j) >= 5 && p1 < 850 {
                850
            } else {
                p1
            }
        }
    }
}

/// The priority of a quiescence candidate: the line priority, or 890 for a
/// quiet move whose captures bring `color` to five pairs.
pub open spec fn forcing_spec(b: Board, pos: Pos, color: Stone, fours_allowed: bool) -> int {
    let p = priority_upto(b, pos, color, fours_allowed, 4);
    let caps = captured_list(b, pos, color).len() / 2;
    if p == 0 && caps > 0 && b.caps(color) + caps >= 5 {
        890
    } else {
        p
    }
}

/// Once a direction makes five the priority stays 900.
proof fn lemma_priority_stays(b: Board, pos: Pos, color: Stone, fours_allowed: bool, n: int, m: int)
    requires
        n <= m,
        priority_upto(b, pos, color, fours_allowed, n) == 900,
    ensures
        priority_upto(b, pos, color, fours_allowed, m) == 900,
    decreases m - n,
{
    if n < m {
        lemma_priority_stays(b, pos, color, fours_allowed, n, m - 1);
    }
}

/// The first depth that iterative deepening searches.
pub open spec fn first_iteration_depth(start_depth_offset: i8) -> int {
    if start_depth_offset >= 126 {
        127
    } else {
        1 + start_depth_offset
    }
}

/// Killer slot pair of a node searched at `depth` below a root of
/// `max_depth`: the ply from the root, 0 above it.
pub open spec fn killer_ply(max_depth: i8, depth: i8) -> int {
    if max_depth - depth < 0 {
        0
    } else {
        max_depth - depth
    }
}

/// Per-color table index: 0 for Black, 1 otherwise.
pub open spec fn color_slot_of(color: Stone) -> int {
    if color == Stone::Black {
        0
    } else {
        1
    }
}

/// Priority of a quiescence candidate: 900 for a five, 890 for a capture
/// win, 850 for blocking an opponent five, 800/700 for an open/closed four
/// (when fours are allowed), 0 for a quiet move.
fn forcing_priority(board: &Board, pos: Pos, color: Stone, fours_allowed: bool) -> (p: i32)
    requires
        pos.valid(),
    ensures
        p == forcing_spec(*board, pos, color, fours_allowed),
        0 <= p <= 900,
{
    let opponent = color.opponent();
    let mut priority: i32 = 0;
    let mut j: usize = 0;
    while j < 4
        invariant_except_break
            priority == priority_upto(*board, pos, color, fours_allowed, j as int),
        invariant
            0 <= j <= 4,
            pos.valid(),
            opponent == opp(color),
            0 <= priority <= 900,
        ensures
            priority == priority_upto(*board, pos, color, fours_allowed, 4),
        decreases 4 - j,
    {
        let (mc, mo_p) = super::threat::ThreatSearcher::line_shape(board, pos, color, j);
        if mc >= 5 {
            priority = 900;
            proof {
                assert(priority_upto(*board, pos, color, fours_allowed, j as int + 1) == 900);
                lemma_priority_stays(*board, pos, color, fours_allowed, j as int + 1, 4);
            }
            break;
        }
        if fours_allowed && mc == 4 && mo_p >= 1 {
            let v: i32 = if mo_p == 2 { 800 } else { 700 };
            if v > priority {
                priority = v;
            }
        }
        let oc = crate::rules::win::line_length(board, pos, opponent, j);
        if oc >= 5 && priority < 850 {
            priority = 850;
        }
        j = j + 1;
    }
    if priority == 0 {
        let cap_count = count_captures_fast(board, pos, color);
        if cap_count > 0 && board.captures(color) as u32 + cap_count as u32 >= 5 {
            priority = 890;
        }
    }
    priority
}


/// The entries among the first `n` of `moves` whose move `color` may legally
/// play, in order.
pub open spec fn legal_among(b: Board, color: Stone, moves: Seq<(Pos, i32)>, n: int) -> Seq<(Pos, i32)>
    decreases n,
{
    if n <= 0 {
        Seq::empty()
    } else if valid_move(b, moves[n - 1].0, color) {
        legal_among(b, color, moves, n - 1).push(moves[n - 1])
    } else {
        legal_among(b, color, moves, n - 1)
    }
}

/// A move the root search considers: a legal move of `color` next to the
/// stones (the center on an empty board).
pub open spec fn root_candidate(b: Board, color: Stone, p: Pos) -> bool {
    &&& valid_move(b, p, color)
    &&& if b.black.empty_spec() && b.white.empty_spec() {
        p == Pos { row: 9, col: 9 }
    } else {
        p.valid() && near_stone(b, p)
    }
}

/// The moves of a root search, with their scores: each is a candidate of
/// the root, and a move that wins at once scored `FIVE`.
pub open spec fn root_record(b: Board, color: Stone, rec: Seq<(Pos, i32)>) -> bool {
    forall|k: int|
        0 <= k < rec.len() ==> #[trigger] root_candidate(b, color, rec[k].0) && (lost_at(
            super::threat::after_move(b, rec[k].0, color),
            opp(color),
            rec[k].0,
        ) ==> rec[k].1 == PatternScore::FIVE)
}

/// The result of a root search from its scored moves: the first move of
/// the highest score above `-INF`, or no move and `-INF` when none is
/// above it.
pub open spec fn picks_best(rec: Seq<(Pos, i32)>, best_move: Option<Pos>, score: i32) -> bool {
    &&& forall|k: int| 0 <= k < rec.len() ==> #[trigger] rec[k].1 <= score
    &&& match best_move {
        None => score == -INF,
        Some(m) => -INF < score && exists|k: int| 0 <= k < rec.len() && #[trigger] rec[k] == (m, score),
    }
}

/// A legal move among the first `n` makes the legal moves among them
/// non-empty.
proof fn lemma_legal_among_nonempty(b: Board, color: Stone, moves: Seq<(Pos, i32)>, n: int, k: int)
    requires
        0 <= k < n <= moves.len(),
        valid_move(b, moves[k].0, color),
    ensures
        legal_among(b, color, moves, n).len() > 0,
    decreases n,
{
    if k < n - 1 {
        lemma_legal_among_nonempty(b, color, moves, n - 1, k);
    }
}

/// Playing `p` makes five (or more) in a row for `color`, as the move
/// ordering sees it.
pub open spec fn makes_five(b: Board, color: Stone, p: Pos) -> bool {
    let me = if color == Stone::Black {
        b.black
    } else {
        b.white
    };
    let them = if color == Stone::Black {
        b.white
    } else {
        b.black
    };
    move_features(me, them, p, 4).0
}

/// `p` is the legal five-making move of `color` with the lowest cell index,
/// and it wins at once (the five cannot be broken).
pub open spec fn first_five_wins(b: Board, color: Stone, p: Pos) -> bool {
    &&& root_candidate(b, color, p)
    &&& makes_five(b, color, p)
    &&& lost_at(super::threat::after_move(b, p, color), opp(color), p)
    &&& forall|q: Pos| #[trigger] root_candidate(b, color, q) && makes_five(b, color, q) ==> p.idx() <= q.idx()
}

/// No legal move of `color` captures more than one pair (such captures
/// are ordered with the fives).
pub open spec fn single_captures(b: Board, color: Stone) -> bool {
    forall|q: Pos| #[trigger] root_candidate(b, color, q) ==> captured_list(b, q, color).len() < 4
}

/// Every history score lies below `bound`.
pub open spec fn history_below(history: Seq<i32>, bound: int) -> bool {
    forall|i: int| 0 <= i < history.len() ==> #[trigger] history[i] < bound
}

proof fn lemma_features_bounds(me: Bitboard, them: Bitboard, mov: Pos, n: int)
    requires
        0 <= n,
    ensures
        0 <= move_features(me, them, mov, n).8 <= 700 * n,
        0 <= move_features(me, them, mov, n).9 <= n,
        0 <= move_features(me, them, mov, n).10 <= n,
    decreases n,
{
    reveal(feature_step);
    if n > 0 {
        lemma_features_bounds(me, them, mov, n - 1);
    }
}

proof fn lemma_proximity_bound(me: Bitboard, mov: Pos, n: int)
    requires
        0 <= n,
    ensures
        0 <= proximity(me, mov, n) <= 200 * n,
    decreases n,
{
    if n > 0 {
        lemma_proximity_bound(me, mov, n - 1);
    }
}

proof fn lemma_immediate_nonneg(me: Bitboard, them: Bitboard, mov: Pos, w: int, n: int)
    requires
        0 <= w,
    ensures
        0 <= immediate_penalty(me, them, mov, w, n),
    decreases n,
{
    if n > 0 {
        lemma_immediate_nonneg(me, them, mov, w, n - 1);
    }
}

/// Where a move stands in the ordering: the table move first, then the
/// moves that make five; with history scores below 700000, a legal move
/// that neither makes five nor captures two pairs stays below them.
proof fn lemma_rank(ws: WorkerSearcher, b: Board, q: Pos, color: Stone, tt: Option<Pos>, depth: i8)
    requires
        ws.wf(),
        history_below(ws.history@, 700_000),
        q.valid(),
    ensures
        tt == Some(q) ==> ws.score_spec(b, q, color, tt, depth) == 1_000_000,
        tt != Some(q) && makes_five(b, color, q) ==> ws.score_spec(b, q, color, tt, depth) == 900_000,
        tt != Some(q) && !makes_five(b, color, q) && captured_list(b, q, color).len() < 4 ==> ws.score_spec(
            b,
            q,
            color,
            tt,
            depth,
        ) < 900_000,
{
    reveal(WorkerSearcher::score_spec);
    reveal(WorkerSearcher::quiet_spec);
    reveal(tactical_spec);
    let me = if color == Stone::Black {
        b.black
    } else {
        b.white
    };
    let them = if color == Stone::Black {
        b.white
    } else {
        b.black
    };
    let f = move_features(me, them, q, 4);
    lemma_features_bounds(me, them, q, 4);
    lemma_proximity_bound(me, q, 8);
    lemma_vuln_sum_bounds(me, them, q, 8);
    let opp_caps = b.caps(opp(color));
    let setup_weight = if opp_caps >= 3 {
        100_000int
    } else if opp_caps >= 2 {
        75_000int
    } else {
        50_000int
    };
    lemma_immediate_nonneg(me, them, q, setup_weight, 8);
    let cidx = if color == Stone::Black {
        0int
    } else {
        1int
    };
    assert(0 <= cidx * TOTAL_CELLS + q.idx() < 2 * TOTAL_CELLS);
    assert(ws.history@[cidx * TOTAL_CELLS + q.idx()] < 700_000);
    assert(0 <= vuln_penalty(me, them, q, opp_caps)) by {
        let t = vuln_sum(me, them, q, 8);
        assert(0 <= t.0 * 20_000 * urgency(opp_caps)) by (nonlinear_arith)
            requires
                0 <= t.0,
                1 <= urgency(opp_caps),
        ;
        assert(0 <= t.1 * 10_000 * urgency(opp_caps)) by (nonlinear_arith)
            requires
                0 <= t.1,
                1 <= urgency(opp_caps),
        ;
    }
}

/// With all the legal moves before index `n` at the one position `t`, and
/// no position twice, at most one of them is legal.
proof fn lemma_one_legal_before(b: Board, color: Stone, moves: Seq<(Pos, i32)>, n: int, t: Pos)
    requires
        0 <= n <= moves.len(),
        forall|j: int| 0 <= j < n && valid_move(b, (#[trigger] moves[j]).0, color) ==> moves[j].0 == t,
        forall|a: int, c: int| 0 <= a < c < n ==> (#[trigger] moves[a]).0 != (#[trigger] moves[c]).0,
    ensures
        legal_among(b, color, moves, n).len() <= 1,
        legal_among(b, color, moves, n).len() == 1 ==> exists|j: int| 0 <= j < n && (#[trigger] moves[j]).0 == t,
    decreases n,
{
    if n > 0 {
        lemma_one_legal_before(b, color, moves, n - 1, t);
        if valid_move(b, moves[n - 1].0, color) && legal_among(b, color, moves, n - 1).len() == 1 {
            let j = choose|j: int| 0 <= j < n - 1 && (#[trigger] moves[j]).0 == t;
            assert(moves[j].0 != moves[n - 1].0);
        }
    }
}

/// With history scores below 700000 and no legal move capturing two pairs,
/// the lowest-index legal five-making move is among the first legal moves
/// of the ordered list kept for the root.
proof fn lemma_first_five_kept(
    ws: WorkerSearcher,
    b: Board,
    color: Stone,
    tt: Option<Pos>,
    depth: i8,
    moves: Seq<(Pos, i32)>,
    kept: Seq<(Pos, i32)>,
    p: Pos,
)
    requires
        ws.wf(),
        history_below(ws.history@, 700_000),
        single_captures(b, color),
        first_five_wins(b, color, p),
        forall|k: int| 0 <= k < moves.len() ==> (#[trigger] moves[k]).0.valid(),
        forall|a: int, c: int| 0 <= a < c < moves.len() ==> (#[trigger] moves[a]).1 > (#[trigger] moves[c]).1
            || (moves[a].1 == moves[c].1 && moves[a].0.idx() < moves[c].0.idx()),
        !(b.black.empty_spec() && b.white.empty_spec()) ==> forall|k: int| 0 <= k < moves.len()
            ==> (#[trigger] moves[k]).1 == ws.score_spec(b, moves[k].0, color, tt, depth),
        b.black.empty_spec() && b.white.empty_spec() ==> moves == seq![(Pos { row: 9, col: 9 }, 1_000_000i32)],
        !(b.black.empty_spec() && b.white.empty_spec()) ==> forall|q: Pos| (exists|k: int| 0 <= k < moves.len()
            && (#[trigger] moves[k]).0 == q) <==> (q.valid() && near_stone(b, q) && b.cell(q.idx()) == Stone::Empty),
        kept == legal_among(b, color, moves, moves.len() as int).take(kept.len() as int),
        kept.len() == if legal_among(b, color, moves, moves.len() as int).len() < MAX_ROOT_MOVES {
            legal_among(b, color, moves, moves.len() as int).len() as int
        } else {
            MAX_ROOT_MOVES as int
        },
    ensures
        exists|j: int| 0 <= j < kept.len() && (#[trigger] kept[j]).0 == p,
{
    let all = legal_among(b, color, moves, moves.len() as int);
    let k: int = if b.black.empty_spec() && b.white.empty_spec() {
        0
    } else {
        choose|k: int| 0 <= k < moves.len() && (#[trigger] moves[k]).0 == p
    };
    assert(0 <= k < moves.len() && moves[k].0 == p);
    let t = match tt {
        Some(x) => x,
        None => p,
    };
    assert forall|a: int, c: int| 0 <= a < c < k implies (#[trigger] moves[a]).0 != (#[trigger] moves[c]).0 by {
        if moves[a].0 == moves[c].0 {
            assert(moves[a].1 == moves[c].1);
        }
    }
    assert forall|j: int| 0 <= j < k && valid_move(b, (#[trigger] moves[j]).0, color) implies moves[j].0 == t by {
        let q = moves[j].0;
        if moves[j].0 == p {
            assert(moves[j].1 == moves[k].1);
        }
        assert(q != p);
        lemma_rank(ws, b, q, color, tt, depth);
        lemma_rank(ws, b, p, color, tt, depth);
        assert(root_candidate(b, color, q));
        if tt != Some(q) {
            assert(captured_list(b, q, color).len() < 4);
            if makes_five(b, color, q) {
                assert(p.idx() <= q.idx());
            }
        }
    }
    lemma_one_legal_before(b, color, moves, k, t);
    lemma_legal_among_prefix(b, color, moves, k + 1, moves.len() as int);
    let before = legal_among(b, color, moves, k);
    let lk1 = legal_among(b, color, moves, k + 1);
    assert(lk1 == before.push(moves[k]));
    assert(lk1[before.len() as int] == moves[k]);
    assert(all.take(lk1.len() as int) == lk1);
    assert(all.take(lk1.len() as int)[before.len() as int] == all[before.len() as int]);
    assert(all[before.len() as int] == moves[k]);
    assert(kept[before.len() as int] == moves[k]);
}

/// Whether the quiescence search at `qs_depth` still looks at fours.
pub open spec fn qs_fours(qs_depth: i8) -> bool {
    qs_depth < 6
}

/// A forcing move of the quiescence search that wins at once: a legal
/// empty cell next to the stones, of priority at least 850 (so it is never
/// left out), after which the opponent has lost.
pub open spec fn qs_winning_move(b: Board, color: Stone, p: Pos, fours_allowed: bool) -> bool {
    &&& p.valid()
    &&& near_stone(b, p)
    &&& b.cell(p.idx()) == Stone::Empty
    &&& exists|k: int| 0 <= k < 8 && #[trigger] occupied_at(b, p.row + ray_sdr(k), p.col + ray_sdc(k))
    &&& valid_move(b, p, color)
    &&& forcing_spec(b, p, color, fours_allowed) >= 850
    &&& lost_at(super::threat::after_move(b, p, color), opp(color), p)
}

/// Every entry of `legal_among` is a legal entry of the list.
#[verifier::spinoff_prover]
proof fn lemma_legal_among_from(b: Board, color: Stone, moves: Seq<(Pos, i32)>, n: int)
    requires
        0 <= n <= moves.len(),
    ensures
        forall|k: int|
            0 <= k < legal_among(b, color, moves, n).len() ==> exists|q: int|
                0 <= q < n && moves[q] == #[trigger] legal_among(b, color, moves, n)[k]
                    && valid_move(b, moves[q].0, color),
    decreases n,
{
    if n > 0 {
        lemma_legal_among_from(b, color, moves, n - 1);
        let prev = legal_among(b, color, moves, n - 1);
        let cur = legal_among(b, color, moves, n);
        assert forall|k: int| 0 <= k < cur.len() implies exists|q: int|
            0 <= q < n && moves[q] == #[trigger] cur[k] && valid_move(b, moves[q].0, color) by {
            if k < prev.len() {
                assert(cur[k] == prev[k]);
                let q = choose|q: int| 0 <= q < n - 1 && moves[q] == #[trigger] prev[k] && valid_move(b, moves[q].0, color);
                assert(moves[q] == cur[k]);
            } else {
                assert(valid_move(b, moves[n - 1].0, color));
                assert(cur == prev.push(moves[n - 1]));
                assert(cur[k] == moves[n - 1]);
            }
        }
    }
}

/// Looking at more entries only adds legal ones at the end.
proof fn lemma_legal_among_prefix(b: Board, color: Stone, moves: Seq<(Pos, i32)>, q: int, n: int)
    requires
        0 <= q <= n,
    ensures
        legal_among(b, color, moves, q).len() <= legal_among(b, color, moves, n).len(),
        legal_among(b, color, moves, n).take(legal_among(b, color, moves, q).len() as int)
            == legal_among(b, color, moves, q),
    decreases n - q,
{
    if q < n {
        lemma_legal_among_prefix(b, color, moves, q, n - 1);
        let lq = legal_among(b, color, moves, q);
        let l1 = legal_among(b, color, moves, n - 1);
        let ln = legal_among(b, color, moves, n);
        assert(ln.take(lq.len() as int) =~= l1.take(lq.len() as int));
    } else {
        assert(legal_among(b, color, moves, n).take(legal_among(b, color, moves, n).len() as int)
            =~= legal_among(b, color, moves, n));
    }
}

/// The first `max_moves` moves of the list that `color` may legally play.
fn first_valid_moves(board: &Board, color: Stone, moves: &Vec<(Pos, i32)>, max_moves: usize) -> (kept: Vec<(Pos, i32)>)
    requires
        forall|k: int| 0 <= k < moves.len() ==> (#[trigger] moves[k]).0.valid(),
    ensures
        kept.len() == if legal_among(*board, color, moves@, moves.len() as int).len() < max_moves {
            legal_among(*board, color, moves@, moves.len() as int).len() as int
        } else {
            max_moves as int
        },
        kept@ == legal_among(*board, color, moves@, moves.len() as int).take(kept.len() as int),
        forall|k: int| 0 <= k < kept.len() ==> (#[trigger] kept[k]).0.valid() && valid_move(*board, kept[k].0, color),
{
    let mut kept: Vec<(Pos, i32)> = Vec::new();
    let mut q: usize = 0;
    while q < moves.len()
        invariant_except_break
            kept.len() <= max_moves,
        invariant
            0 <= q <= moves.len(),
            forall|k: int| 0 <= k < moves.len() ==> (#[trigger] moves[k]).0.valid(),
            kept@ == legal_among(*board, color, moves@, q as int),
            forall|k: int| 0 <= k < kept.len() ==> (#[trigger] kept[k]).0.valid() && valid_move(*board, kept[k].0, color),
        ensures
            kept@ == legal_among(*board, color, moves@, q as int),
            q == moves.len() ==> kept.len() <= max_moves,
            q < moves.len() ==> kept.len() == max_moves,
        decreases moves.len() - q,
    {
        if kept.len() >= max_moves {
            break;
        }
        let m = moves[q];
        if is_valid_move(board, m.0, color) {
            kept.push(m);
        }
        q = q + 1;
    }
    proof {
        lemma_legal_among_prefix(*board, color, moves@, q as int, moves.len() as int);
        assert(kept@ =~= legal_among(*board, color, moves@, moves.len() as int).take(kept.len() as int));
    }
    kept
}

/// Integer square root: the largest `s` with `s * s <= x`.
pub fn isqrt(x: u32) -> (s: u32)
    requires
        x <= 1_000_000,
    ensures
        s * s <= x < (s + 1) * (s + 1),
        s <= 1000,
{
    let mut s: u32 = 0;
    let mut done = false;
    while !done
        invariant
            s <= 1000,
            s * s <= x,
            x <= 1_000_000,
            done ==> x < (s + 1) * (s + 1),
        decreases 1001 - s + if done { 0int } else { 1int },
    {
        if s >= 1000 {
            assert(x < (s + 1) * (s + 1)) by (nonlinear_arith)
                requires
                    s == 1000,
                    x <= 1_000_000,
            ;
            done = true;
        } else {
            assert((s + 1) * (s + 1) <= 1_002_001) by (nonlinear_arith)
                requires
                    s < 1000,
            ;
            let t = (s + 1) * (s + 1);
            if t > x {
                done = true;
            } else {
                s = s + 1;
            }
        }
    }
    s
}


/// `x`, saturated at `u64::MAX`.
pub open spec fn sat_u64(x: int) -> int {
    if x > u64::MAX {
        u64::MAX as int
    } else {
        x
    }
}

/// `a * b`, saturated at `u64::MAX`.
pub fn sat_mul(a: u64, b: u64) -> (r: u64)
    ensures
        r == sat_u64(a * b),
{
    assert(a * b <= 0xFFFF_FFFF_FFFF_FFFF * 0xFFFF_FFFF_FFFF_FFFF) by (nonlinear_arith)
        requires
            a <= 0xFFFF_FFFF_FFFF_FFFF,
            b <= 0xFFFF_FFFF_FFFF_FFFF,
    ;
    let p = a as u128 * b as u128;
    if p > u64::MAX as u128 {
        u64::MAX
    } else {
        p as u64
    }
}

/// Estimated time of the next iteration, in milliseconds: the last
/// iteration's time times the growth factor between the last two iterations
/// (clamped to 1.5..5), or three times the last iteration when either time
/// is zero.
pub fn estimate_next_ms(depth_time: u64, prev_depth_time: u64) -> (t: u64)
    ensures
        t == if prev_depth_time == 0 || depth_time == 0 {
            sat_u64(depth_time * 3)
        } else {
            let ratio = sat_u64(depth_time * 1000) / (prev_depth_time as int);
            let bf = if ratio < 1500 {
                1500
            } else if ratio > 5000 {
                5000
            } else {
                ratio
            };
            sat_u64(depth_time * bf) / 1000
        },
{
    if prev_depth_time > 0 && depth_time > 0 {
        let ratio = sat_mul(depth_time, 1000) / prev_depth_time;
        let bf = if ratio < 1500 {
            1500
        } else if ratio > 5000 {
            5000
        } else {
            ratio
        };
        sat_mul(depth_time, bf) / 1000
    } else {
        sat_mul(depth_time, 3)
    }
}

/// Where a move scored `score` goes in a list sorted by score, highest
/// first: after every entry scoring at least as much.
fn insert_point(v: &Vec<(Pos, i32)>, score: i32) -> (at: usize)
    requires
        forall|a: int, c: int| 0 <= a < c < v.len() ==> (#[trigger] v[a]).1 >= (#[trigger] v[c]).1,
    ensures
        at <= v.len(),
        forall|k: int| 0 <= k < at ==> (#[trigger] v[k]).1 >= score,
        forall|k: int| at <= k < v.len() ==> (#[trigger] v[k]).1 < score,
{
    let mut at: usize = 0;
    while at < v.len() && v[at].1 >= score
        invariant
            0 <= at <= v.len(),
            forall|k: int| 0 <= k < at ==> (#[trigger] v[k]).1 >= score,
        decreases v.len() - at,
    {
        at = at + 1;
    }
    proof {
        if at < v.len() {
            assert forall|k: int| at <= k < v.len() implies (#[trigger] v[k]).1 < score by {
                if k > at {
                    assert(v[at as int].1 >= v[k].1);
                }
            }
        }
    }
    at
}

/// Step of ray `k` in `0..8` (direction `k / 2`, negative side first).
fn ray_step_i32(k: usize) -> (d: (i32, i32))
    requires
        k < 8,
    ensures
        -1 <= d.0 <= 1,
        -1 <= d.1 <= 1,
        d.0 == ray_sdr(k as int),
        d.1 == ray_sdc(k as int),
{
    let (dr, dc) = line_dir(k / 2);
    if k % 2 == 0 {
        (-dr, -dc)
    } else {
        (dr, dc)
    }
}

/// A zeroed history table.
fn zero_history() -> (h: Vec<i32>)
    ensures
        h@.len() == 2 * TOTAL_CELLS,
        forall|i: int| 0 <= i < 2 * TOTAL_CELLS ==> #[trigger] h@[i] == 0,
{
    let mut h: Vec<i32> = Vec::new();
    let mut i: usize = 0;
    while i < 2 * TOTAL_CELLS
        invariant
            0 <= i <= 722,
            h@.len() == i,
            forall|k: int| 0 <= k < i ==> #[trigger] h@[k] == 0,
        decreases 722 - i,
    {
        h.push(0);
        i = i + 1;
    }
    h
}

/// A copy of a history table.
fn copy_history(src: &Vec<i32>) -> (h: Vec<i32>)
    ensures
        h@ == src@,
{
    let mut h: Vec<i32> = Vec::new();
    let mut i: usize = 0;
    while i < src.len()
        invariant
            0 <= i <= src.len(),
            h@ == src@.take(i as int),
        decreases src.len() - i,
    {
        h.push(src[i]);
        proof {
            assert(src@.take(i as int + 1) =~= src@.take(i as int).push(src@[i as int]));
        }
        i = i + 1;
    }
    proof {
        assert(src@.take(src.len() as int) =~= src@);
    }
    h
}

/// A worker result replaces the best so far when it searched deeper, or as
/// deep with a higher score.
pub open spec fn deeper_or_better(r: SearchResult, best: SearchResult) -> bool {
    r.depth > best.depth || (r.depth == best.depth && r.score > best.score)
}

/// The best of the main result and the first `n` helper results, taken in
/// turn.
pub open spec fn best_of(main: SearchResult, helpers: Seq<SearchResult>, n: int) -> SearchResult
    decreases n,
{
    if n <= 0 {
        main
    } else {
        let b = best_of(main, helpers, n - 1);
        if deeper_or_better(helpers[n - 1], b) {
            helpers[n - 1]
        } else {
            b
        }
    }
}

/// Nodes of the first `n` helper results.
pub open spec fn helper_nodes(helpers: Seq<SearchResult>, n: int) -> int
    decreases n,
{
    if n <= 0 {
        0
    } else {
        helper_nodes(helpers, n - 1) + helpers[n - 1].nodes
    }
}

/// Counters of `base` with those of the first `n` helper results merged in.
pub open spec fn helper_stats(base: SearchStats, helpers: Seq<SearchResult>, n: int) -> SearchStats
    decreases n,
{
    if n <= 0 {
        base
    } else {
        merged(helper_stats(base, helpers, n - 1), helpers[n - 1].stats)
    }
}

/// Lazy SMP merge of worker results: the move, score and depth of the
/// deepest result (ties: the higher score, then the earlier result), with
/// the nodes summed and the counters merged over all workers.
pub fn combine_results(main: SearchResult, helpers: &Vec<SearchResult>) -> (r: SearchResult)
    requires
        main.nodes + helper_nodes(helpers@, helpers@.len() as int) <= u64::MAX,
    ensures
        r.best_move == best_of(main, helpers@, helpers@.len() as int).best_move,
        r.score == best_of(main, helpers@, helpers@.len() as int).score,
        r.depth == best_of(main, helpers@, helpers@.len() as int).depth,
        r.nodes == main.nodes + helper_nodes(helpers@, helpers@.len() as int),
        r.stats == helper_stats(main.stats, helpers@, helpers@.len() as int),
{
    let mut best_move = main.best_move;
    let mut best_score = main.score;
    let mut best_depth = main.depth;
    let mut total_nodes = main.nodes;
    let mut stats = main.stats;
    let mut i: usize = 0;
    while i < helpers.len()
        invariant
            0 <= i <= helpers.len(),
            main.nodes + helper_nodes(helpers@, helpers@.len() as int) <= u64::MAX,
            best_move == best_of(main, helpers@, i as int).best_move,
            best_score == best_of(main, helpers@, i as int).score,
            best_depth == best_of(main, helpers@, i as int).depth,
            total_nodes == main.nodes + helper_nodes(helpers@, i as int),
            stats == helper_stats(main.stats, helpers@, i as int),
        decreases helpers.len() - i,
    {
        proof {
            lemma_helper_nodes_monotone(helpers@, i as int + 1, helpers@.len() as int);
        }
        let d = helpers[i].depth;
        let sc = helpers[i].score;
        total_nodes = total_nodes + helpers[i].nodes;
        stats.merge(&helpers[i].stats);
        if d > best_depth || (d == best_depth && sc > best_score) {
            best_move = helpers[i].best_move;
            best_score = sc;
            best_depth = d;
        }
        i = i + 1;
    }
    SearchResult { best_move, score: best_score, depth: best_depth, nodes: total_nodes, stats }
}

proof fn lemma_helper_nodes_monotone(helpers: Seq<SearchResult>, m: int, n: int)
    requires
        0 <= m <= n <= helpers.len(),
    ensures
        helper_nodes(helpers, m) <= helper_nodes(helpers, n),
    decreases n - m,
{
    if m < n {
        lemma_helper_nodes_monotone(helpers, m, n - 1);
    }
}

/// Alpha-beta search engine with iterative deepening and a transposition
/// table kept across searches (call `clear_tt` for a new game).
pub struct Searcher {
    /// Zobrist keys.
    pub zobrist: ZobristTable,
    /// Transposition table.
    pub tt: AtomicTT,
    /// Depth limit of the last search.
    pub max_depth: i8,
    /// Number of search threads requested.
    pub num_threads: usize,
    /// History scores kept between searches.
    pub history: Vec<i32>,
    /// The scored root moves of the iteration the last search reported.
    pub root_scores: Ghost<Seq<(Pos, i32)>>,
}

impl Searcher {
    /// Tables have their sizes and history scores lie in `[0, HIST_CAP]`.
    pub open spec fn wf(self) -> bool {
        &&& self.zobrist.wf()
        &&& self.tt.wf()
        &&& self.history@.len() == 2 * TOTAL_CELLS
        &&& forall|i: int| 0 <= i < 2 * TOTAL_CELLS ==> 0 <= #[trigger] self.history@[i] <= HIST_CAP
        &&& self.num_threads >= 1
    }

    /// A searcher with a transposition table of `tt_size_mb` megabytes and
    /// one search thread.
    pub fn new(tt_size_mb: usize) -> (s: Searcher)
        requires
            tt_size_mb * 1024 * 1024 <= usize::MAX,
        ensures
            s.wf(),
            s.tt.size == AtomicTT::slots_for(tt_size_mb),
            s.num_threads == 1,
            s.max_depth == 10,
    {
        Self::with_threads(tt_size_mb, 1)
    }

    /// A searcher with an explicit thread count (at least one).
    pub fn with_threads(tt_size_mb: usize, num_threads: usize) -> (s: Searcher)
        requires
            tt_size_mb * 1024 * 1024 <= usize::MAX,
        ensures
            s.wf(),
            s.tt.size == AtomicTT::slots_for(tt_size_mb),
            s.num_threads == if num_threads < 1 { 1 } else { num_threads },
            s.max_depth == 10,
            s.zobrist.generated(),
    {
        let num_threads = if num_threads < 1 { 1 } else { num_threads };
        Searcher {
            zobrist: ZobristTable::new(),
            tt: AtomicTT::new(tt_size_mb),
            max_depth: 10,
            num_threads,
            history: zero_history(),
            root_scores: Ghost(Seq::empty()),
        }
    }

    /// Iterative deepening from depth 1 to `max_depth` with full windows
    /// (no time limit). A win is accepted once two consecutive depths agree
    /// from depth 12 on, a loss from depth 10 on.
    pub fn search(&mut self, board: &Board, color: Stone, max_depth: i8) -> (res: SearchResult)
        requires
            old(self).wf(),
            color == Stone::Black || color == Stone::White,
        ensures
            final(self).wf(),
            final(self).max_depth == max_depth,
            final(self).zobrist == old(self).zobrist,
            final(self).tt == old(self).tt,
            final(self).num_threads == old(self).num_threads,
            res.best_move matches Some(p) ==> p.valid() && valid_move(*board, p, color) && root_candidate(*board, color, p),
            0 <= res.depth <= max_depth || res.depth == 0,
            -SCORE_BOUND <= res.score <= SCORE_BOUND,
            max_depth >= 1 ==> 1 <= res.depth <= max_depth,
            max_depth < 1 ==> res.depth == 0 && res.best_move is None && res.score == 0,
            max_depth >= 1 && res.best_move is None ==> res.score == -INF,
            (forall|p: Pos| !#[trigger] root_candidate(*board, color, p)) ==> res.best_move is None,
            max_depth >= 1 && res.depth < max_depth ==> (res.depth >= 12 && res.score >= PatternScore::FIVE - 100)
                || (res.depth >= 10 && res.score <= -(PatternScore::FIVE - 100)),
            res.best_move matches Some(m) && lost_at(super::threat::after_move(*board, m, color), opp(color), m)
                ==> res.score == PatternScore::FIVE,
            max_depth >= 1 ==> root_record(*board, color, final(self).root_scores@) && picks_best(
                final(self).root_scores@,
                res.best_move,
                res.score,
            ),
            max_depth >= 1 && res.nodes < u64::MAX && (exists|p: Pos| #[trigger] root_candidate(*board, color, p))
                ==> final(self).root_scores@.len() > 0,
            max_depth == 1 && res.nodes < u64::MAX && history_below(old(self).history@, 700_000) && single_captures(
                *board,
                color,
            ) && (exists|p: Pos| #[trigger] first_five_wins(*board, color, p)) ==> res.score >= PatternScore::FIVE,
    {
        self.max_depth = max_depth;
        let mut worker = WorkerSearcher::new(&self.zobrist, &self.tt, max_depth, copy_history(&self.history), None, None);
        let mut best_result = SearchResult { best_move: None, score: 0, depth: 0, nodes: 0, stats: SearchStats::zero() };
        let mut prev_was_winning = false;
        let mut prev_was_losing = false;
        let mut depth: i8 = 1;
        let mut more = 1 <= max_depth;
        let ghost mut searched = false;
        let ghost mut best_rec: Seq<(Pos, i32)> = Seq::empty();
        while more
            invariant_except_break
                more && searched ==> best_result.depth == depth - 1,
                !more && searched ==> best_result.depth == max_depth,
            invariant
                worker.wf(),
                worker.zobrist == &self.zobrist,
                worker.tt == &self.tt,
                color == Stone::Black || color == Stone::White,
                1 <= depth,
                more ==> depth <= max_depth,
                best_result.best_move matches Some(p) ==> p.valid() && valid_move(*board, p, color) && root_candidate(*board, color, p),
                0 <= best_result.depth <= max_depth || best_result.depth == 0,
                -SCORE_BOUND <= best_result.score <= SCORE_BOUND,
                !searched ==> best_result.depth == 0 && best_result.best_move is None && best_result.score == 0,
                !searched ==> (more <==> 1 <= max_depth),
                searched ==> 1 <= best_result.depth <= max_depth,
                self.max_depth == max_depth,
                searched ==> (best_result.best_move is None ==> best_result.score == -INF),
                (forall|p: Pos| !#[trigger] root_candidate(*board, color, p)) ==> best_result.best_move is None,
                best_result.best_move matches Some(m) && lost_at(super::threat::after_move(*board, m, color), opp(color), m)
                    ==> best_result.score == PatternScore::FIVE,
                !worker.timed(),
                searched ==> root_record(*board, color, best_rec) && picks_best(
                    best_rec,
                    best_result.best_move,
                    best_result.score,
                ),
                searched && !worker.stopped && (exists|p: Pos| #[trigger] root_candidate(*board, color, p))
                    ==> best_rec.len() > 0,
                !searched ==> worker.history@ == old(self).history@,
                searched && max_depth == 1 && !worker.stopped && history_below(old(self).history@, 700_000)
                    && single_captures(*board, color) && (exists|p: Pos| #[trigger] first_five_wins(*board, color, p))
                    ==> best_result.score >= PatternScore::FIVE,
            ensures
                searched || !more,
                searched ==> best_result.depth == max_depth || (best_result.depth >= 12 && best_result.score
                    >= PatternScore::FIVE - 100) || (best_result.depth >= 10 && best_result.score <= -(
                PatternScore::FIVE - 100)),
            decreases 128 - depth, if more { 1int } else { 0int },
        {
            let result = worker.search_root(board, color, depth, -INF, INF);
            best_result = result;
            best_result.depth = depth;
            proof {
                searched = true;
                best_rec = worker.root_scores@;
            }
            let is_winning = best_result.score >= PatternScore::FIVE - 100;
            let is_losing = best_result.score <= -(PatternScore::FIVE - 100);
            if is_winning && prev_was_winning && depth >= 12 {
                break;
            }
            if is_losing && prev_was_losing && depth >= 10 {
                break;
            }
            prev_was_winning = is_winning;
            prev_was_losing = is_losing;
            if depth >= max_depth {
                more = false;
            } else {
                depth = depth + 1;
            }
        }
        best_result.nodes = worker.nodes;
        best_result.stats = worker.stats;
        let h = worker.history;
        self.history = h;
        self.root_scores = Ghost(best_rec);
        best_result
    }

    /// Time-managed search: iterative deepening until `max_depth`, a
    /// confirmed win or loss, or the time estimate for the next depth
    /// exceeding the limit (`time_limit_ms` plus 150 ms to finish a depth).
    /// One worker searches; `combine_results` merges the results when
    /// several workers searched the same position.
    pub fn search_timed(&mut self, board: &Board, color: Stone, max_depth: i8, time_limit_ms: u64) -> (res: SearchResult)
        requires
            old(self).wf(),
            color == Stone::Black || color == Stone::White,
        ensures
            final(self).wf(),
            final(self).max_depth == max_depth,
            final(self).zobrist == old(self).zobrist,
            final(self).tt == old(self).tt,
            final(self).num_threads == old(self).num_threads,
            res.best_move matches Some(p) ==> p.valid() && valid_move(*board, p, color) && root_candidate(*board, color, p),
            res.depth <= max_depth || res.depth == 0,
            -SCORE_BOUND <= res.score <= SCORE_BOUND,
            res.depth == 0 ==> res.best_move is None && res.score == 0,
            res.depth != 0 ==> 1 <= res.depth <= max_depth,
            max_depth < 1 ==> res.depth == 0,
            res.best_move is None && res.depth != 0 ==> res.score == -INF,
            (forall|p: Pos| !#[trigger] root_candidate(*board, color, p)) ==> res.best_move is None,
            res.best_move matches Some(m) && lost_at(super::threat::after_move(*board, m, color), opp(color), m)
                ==> res.score == PatternScore::FIVE,
            res.depth != 0 ==> root_record(*board, color, final(self).root_scores@) && picks_best(
                final(self).root_scores@,
                res.best_move,
                res.score,
            ),
            res.depth != 0 && (exists|p: Pos| #[trigger] root_candidate(*board, color, p))
                ==> final(self).root_scores@.len() > 0,
    {
        self.max_depth = max_depth;
        let start = clock_now();
        let time_limit = time_limit_ms.saturating_add(150);
        let mut worker = WorkerSearcher::new(&self.zobrist, &self.tt, max_depth, copy_history(&self.history), Some(start), Some(time_limit));
        let result = worker.search_iterative(board, color, max_depth, 0);
        let h = worker.history;
        self.history = h;
        self.root_scores = Ghost(worker.root_scores@);
        result
    }

    /// Reset the history scores.
    pub fn clear_history(&mut self)
        requires
            old(self).wf(),
        ensures
            final(self).wf(),
            forall|i: int| 0 <= i < 2 * TOTAL_CELLS ==> #[trigger] final(self).history@[i] == 0,
            final(self).zobrist == old(self).zobrist,
            final(self).tt == old(self).tt,
            final(self).max_depth == old(self).max_depth,
            final(self).num_threads == old(self).num_threads,
    {
        self.history = zero_history();
    }

    /// Statistics of the transposition table.
    pub fn tt_stats(&self) -> (st: TTStats)
        requires
            self.wf(),
        ensures
            st.size == self.tt.size,
            st.used <= self.tt.size,
    {
        self.tt.stats()
    }

    /// Empty the transposition table.
    pub fn clear_tt(&self)
        requires
            self.wf(),
    {
        self.tt.clear()
    }
}

} // verus!
