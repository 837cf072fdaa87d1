//! Game state: turns, opening rules, wins, undo/redo, review, and the
//! decisions taken around the AI's moves. The front end owns the clock-driven
//! loop and the channel to the AI thread; it reports what happened as events.
use crate::board::{opp, Bitboard, Board, Pos, Stone};
use crate::engine::{lemma_moved_unique, moved, opening_spec, placed, AIEngine, MoveResult};
use crate::rules::capture::{captured_list, removal_applied};
use crate::rules::win::{breakable, find_five_spec, lemma_run, run_cells, scan_run, winner_spec};
use crate::rules::forbidden::{double_three, valid_move};
use crate::rules::{
    can_break_five_by_capture, check_winner, execute_captures, find_five_positions, is_double_three,
    is_valid_move,
};
use crate::search::threat::lemma_idx_injective;
use crate::search::alphabeta::{clock_now, elapsed_ms, time_since};
use std::time::{Duration, Instant};
use vstd::prelude::*;

verus! {

/// The duration of `ms` milliseconds.
pub uninterp spec fn millis_duration(ms: u64) -> Duration;

/// `Duration::from_millis`: the duration of `ms` milliseconds, which the
/// contract names `millis_duration(ms)`.
#[verifier::external_body]
fn duration_from_millis(ms: u64) -> (d: Duration)
    ensures
        d == millis_duration(ms),
{
    Duration::from_millis(ms)
}

/// Opening rule variants for game start.
#[derive(Debug, Clone, Copy, PartialEq, Eq, Structural)]
pub enum OpeningRule {
    /// No restrictions.
    Standard,
    /// Move 1 at the center, move 3 at least three intersections from it.
    Pro,
    /// After move 3 the second player may swap colors.
    Swap,
}

impl Default for OpeningRule {
    fn default() -> (r: OpeningRule)
        ensures
            r == OpeningRule::Standard,
    {
        OpeningRule::Standard
    }
}

/// Game mode selection.
#[derive(Debug, Clone, Copy, PartialEq, Eq, Structural)]
pub enum GameMode {
    /// Player vs AI.
    PvE { human_color: Stone },
    /// Player vs player (hotseat).
    PvP { show_suggestions: bool },
    /// AI vs AI (spectator mode).
    AiVsAi,
}

impl Default for GameMode {
    fn default() -> (m: GameMode)
        ensures
            m == (GameMode::PvE { human_color: Stone::Black }),
    {
        GameMode::PvE { human_color: Stone::Black }
    }
}

/// Where the AI stands. While it thinks, the front end holds the channel
/// the search thread answers on; after a timeout it keeps that channel to
/// get the engine back (`Reclaiming`).
pub enum AiState {
    Idle,
    Thinking { start_time: Instant },
    Reclaiming,
}

/// Capture animation state.
pub struct CaptureAnimation {
    pub positions: Vec<Pos>,
    pub start_time: Instant,
    pub captured_color: Stone,
}

impl CaptureAnimation {
    /// An animation of `positions` (stones of `color`) starting now.
    pub fn new(positions: Vec<Pos>, color: Stone) -> (a: Self)
        ensures
            a.positions@ == positions@,
            a.captured_color == color,
    {
        Self { positions, start_time: clock_now(), captured_color: color }
    }

    /// Whether the animation (0.6 s) has run its course. The time since it
    /// started comes from the clock; `finished_after` decides on it.
    pub fn is_complete(&self) -> bool {
        Self::finished_after(elapsed_ms(&self.start_time))
    }

    /// Whether an animation that started `elapsed_ms` milliseconds ago has
    /// run its course.
    pub fn finished_after(elapsed_ms: u64) -> (b: bool)
        ensures
            b == (elapsed_ms >= 600),
    {
        elapsed_ms >= 600
    }
}

/// Min and max time of the first `n` recorded moves that searched (depth
/// above 0), if any did.
pub open spec fn search_range(t: Seq<u64>, d: Seq<i8>, n: int) -> Option<(u64, u64)>
    decreases n,
{
    if n <= 0 {
        None
    } else {
        let prev = search_range(t, d, n - 1);
        if d[n - 1] > 0 {
            let x = t[n - 1];
            match prev {
                None => Some((x, x)),
                Some(p) => Some(
                    (if x < p.0 {
                        x
                    } else {
                        p.0
                    }, if x > p.1 {
                        x
                    } else {
                        p.1
                    }),
                ),
            }
        } else {
            prev
        }
    }
}

/// Cumulative AI statistics across a game.
#[derive(Clone)]
pub struct AiStats {
    /// Number of AI moves made.
    pub move_count: u32,
    /// Total time spent by the AI (ms).
    pub total_time_ms: u64,
    /// Total nodes searched across all moves.
    pub total_nodes: u64,
    /// Maximum depth reached in any single move.
    pub max_depth: i8,
    /// Fastest move (ms).
    pub min_time_ms: u64,
    /// Slowest move (ms).
    pub max_time_ms: u64,
    /// Per-move times.
    pub move_times: Vec<u64>,
    /// Per-move depths.
    pub move_depths: Vec<i8>,
}

/// Total time of the moves that searched (depth above 0) among the first
/// `n` moves.
pub open spec fn searched_time(times: Seq<u64>, depths: Seq<i8>, n: int) -> int
    decreases n,
{
    if n <= 0 {
        0
    } else {
        searched_time(times, depths, n - 1) + if depths[n - 1] > 0 {
            times[n - 1] as int
        } else {
            0
        }
    }
}

/// Number of the first `n` moves that searched (depth above 0).
pub open spec fn searched_count(depths: Seq<i8>, n: int) -> int
    decreases n,
{
    if n <= 0 {
        0
    } else {
        searched_count(depths, n - 1) + if depths[n - 1] > 0 {
            1int
        } else {
            0
        }
    }
}

/// Total depth of the first `n` moves that searched (depth above 0).
pub open spec fn searched_depth(depths: Seq<i8>, n: int) -> int
    decreases n,
{
    if n <= 0 {
        0
    } else {
        searched_depth(depths, n - 1) + if depths[n - 1] > 0 {
            depths[n - 1] as int
        } else {
            0
        }
    }
}

proof fn lemma_searched_bounds(times: Seq<u64>, depths: Seq<i8>, n: int)
    requires
        0 <= n <= times.len(),
        n <= depths.len(),
    ensures
        0 <= searched_count(depths, n) <= n,
        0 <= searched_time(times, depths, n) <= n * 0xFFFF_FFFF_FFFF_FFFF,
        0 <= searched_depth(depths, n) <= n * 127,
    decreases n,
{
    if n > 0 {
        lemma_searched_bounds(times, depths, n - 1);
    }
}

proof fn lemma_searched_depth_bound(depths: Seq<i8>, n: int)
    requires
        0 <= n <= depths.len(),
    ensures
        0 <= searched_count(depths, n) <= n,
        0 <= searched_depth(depths, n) <= n * 127,
    decreases n,
{
    if n > 0 {
        lemma_searched_depth_bound(depths, n - 1);
    }
}

impl AiStats {
    /// The integer parts of the per-move averages: the total time and the
    /// number of the moves that searched, over the moves with both a time
    /// and a depth; then the total depth and the number of all recorded
    /// depths above 0.
    pub fn searched_totals(&self) -> (r: (u128, u64, u128, u64))
        ensures
            ({
                let n = if self.move_times@.len() < self.move_depths@.len() {
                    self.move_times@.len() as int
                } else {
                    self.move_depths@.len() as int
                };
                &&& r.0 == searched_time(self.move_times@, self.move_depths@, n)
                &&& r.1 == searched_count(self.move_depths@, n)
                &&& r.2 == searched_depth(self.move_depths@, self.move_depths@.len() as int)
                &&& r.3 == searched_count(self.move_depths@, self.move_depths@.len() as int)
            }),
    {
        let n = if self.move_times.len() < self.move_depths.len() {
            self.move_times.len()
        } else {
            self.move_depths.len()
        };
        let mut time: u128 = 0;
        let mut timed: u64 = 0;
        let mut i: usize = 0;
        while i < n
            invariant
                0 <= i <= n,
                n <= self.move_times@.len(),
                n <= self.move_depths@.len(),
                time == searched_time(self.move_times@, self.move_depths@, i as int),
                timed == searched_count(self.move_depths@, i as int),
            decreases n - i,
        {
            proof {
                lemma_searched_bounds(self.move_times@, self.move_depths@, i as int);
                assert(i * 0xFFFF_FFFF_FFFF_FFFFint <= 0xFFFF_FFFF_FFFF_FFFF * 0xFFFF_FFFF_FFFF_FFFFint)
                    by (nonlinear_arith)
                    requires
                        i <= 0xFFFF_FFFF_FFFF_FFFF,
                ;
            }
            if self.move_depths[i] > 0 {
                time = time + self.move_times[i] as u128;
                timed = timed + 1;
            }
            i = i + 1;
        }
        let mut depth: u128 = 0;
        let mut counted: u64 = 0;
        let mut j: usize = 0;
        while j < self.move_depths.len()
            invariant
                0 <= j <= self.move_depths@.len(),
                depth == searched_depth(self.move_depths@, j as int),
                counted == searched_count(self.move_depths@, j as int),
            decreases self.move_depths.len() - j,
        {
            proof {
                lemma_searched_depth_bound(self.move_depths@, j as int);
            }
            let d = self.move_depths[j];
            if d > 0 {
                depth = depth + d as u128;
                counted = counted + 1;
            }
            j = j + 1;
        }
        (time, timed, depth, counted)
    }

    /// Nothing recorded.
    pub open spec fn is_fresh(self) -> bool {
        &&& self.move_count == 0
        &&& self.total_time_ms == 0
        &&& self.total_nodes == 0
        &&& self.max_depth == 0
        &&& self.min_time_ms == 0
        &&& self.max_time_ms == 0
        &&& self.move_times@ == Seq::<u64>::empty()
        &&& self.move_depths@ == Seq::<i8>::empty()
    }

    /// Record one AI move.
    pub fn record(&mut self, result: &MoveResult)
        requires
            old(self).move_count < u32::MAX,
            old(self).total_time_ms + result.time_ms <= u64::MAX,
            old(self).total_nodes + result.nodes <= u64::MAX,
        ensures
            final(self).move_count == old(self).move_count + 1,
            final(self).total_time_ms == old(self).total_time_ms + result.time_ms,
            final(self).total_nodes == old(self).total_nodes + result.nodes,
            final(self).max_depth == if result.depth > old(self).max_depth {
                result.depth
            } else {
                old(self).max_depth
            },
            final(self).min_time_ms == if old(self).move_count == 0 || result.time_ms < old(
                self,
            ).min_time_ms {
                result.time_ms
            } else {
                old(self).min_time_ms
            },
            final(self).max_time_ms == if old(self).move_count == 0 || result.time_ms > old(
                self,
            ).max_time_ms {
                result.time_ms
            } else {
                old(self).max_time_ms
            },
            final(self).move_times@ == old(self).move_times@.push(result.time_ms),
            final(self).move_depths@ == old(self).move_depths@.push(result.depth),
    {
        self.move_count = self.move_count + 1;
        self.total_time_ms = self.total_time_ms + result.time_ms;
        self.total_nodes = self.total_nodes + result.nodes;
        if result.depth > self.max_depth {
            self.max_depth = result.depth;
        }
        if self.move_count == 1 {
            self.min_time_ms = result.time_ms;
            self.max_time_ms = result.time_ms;
        } else {
            if result.time_ms < self.min_time_ms {
                self.min_time_ms = result.time_ms;
            }
            if result.time_ms > self.max_time_ms {
                self.max_time_ms = result.time_ms;
            }
        }
        self.move_times.push(result.time_ms);
        self.move_depths.push(result.depth);
    }

    /// Time range (min, max) of the moves that searched (depth above 0); the
    /// overall range when none did.
    pub fn search_time_range(&self) -> (r: (u64, u64))
        ensures
            r == match search_range(
                self.move_times@,
                self.move_depths@,
                if self.move_times.len() < self.move_depths.len() {
                    self.move_times.len() as int
                } else {
                    self.move_depths.len() as int
                },
            ) {
                Some(p) => p,
                None => (self.min_time_ms, self.max_time_ms),
            },
    {
        let n = if self.move_times.len() < self.move_depths.len() {
            self.move_times.len()
        } else {
            self.move_depths.len()
        };
        let mut min_t: u64 = u64::MAX;
        let mut max_t: u64 = 0;
        let mut found = false;
        let mut i: usize = 0;
        while i < n
            invariant
                0 <= i <= n,
                n <= self.move_times.len(),
                n <= self.move_depths.len(),
                found == search_range(self.move_times@, self.move_depths@, i as int).is_some(),
                found ==> search_range(self.move_times@, self.move_depths@, i as int) == Some(
                    (min_t, max_t),
                ),
                !found ==> min_t == u64::MAX && max_t == 0,
            decreases n - i,
        {
            let t = self.move_times[i];
            let d = self.move_depths[i];
            if d > 0 {
                found = true;
                if t < min_t {
                    min_t = t;
                }
                if t > max_t {
                    max_t = t;
                }
            }
            i = i + 1;
        }
        if found {
            (min_t, max_t)
        } else {
            (self.min_time_ms, self.max_time_ms)
        }
    }

    /// Thousands of nodes per second over the whole game.
    pub fn avg_nps(&self) -> (n: u64)
        requires
            self.total_nodes * 1000 <= u64::MAX,
        ensures
            n == if self.total_time_ms == 0 {
                0
            } else {
                self.total_nodes * 1000 / (self.total_time_ms as int) / 1000
            },
    {
        if self.total_time_ms == 0 {
            0
        } else {
            self.total_nodes * 1000 / self.total_time_ms / 1000
        }
    }
}

impl Default for AiStats {
    fn default() -> (s: AiStats)
        ensures
            s.is_fresh(),
    {
        AiStats {
            move_count: 0,
            total_time_ms: 0,
            total_nodes: 0,
            max_depth: 0,
            min_time_ms: 0,
            max_time_ms: 0,
            move_times: Vec::new(),
            move_depths: Vec::new(),
        }
    }
}

/// Move timer for tracking thinking time.
pub struct MoveTimer {
    pub start_time: Option<Instant>,
    pub last_move_duration: Option<Duration>,
    pub ai_thinking_time: Option<Duration>,
}

impl Default for MoveTimer {
    /// A timer running from now.
    fn default() -> (t: MoveTimer)
        ensures
            t.start_time.is_some(),
            t.last_move_duration.is_none(),
            t.ai_thinking_time.is_none(),
    {
        MoveTimer { start_time: Some(clock_now()), last_move_duration: None, ai_thinking_time: None }
    }
}

impl MoveTimer {
    /// Start (or restart) the timer now.
    pub fn start(&mut self)
        ensures
            final(self).start_time.is_some(),
            final(self).last_move_duration == old(self).last_move_duration,
            final(self).ai_thinking_time == old(self).ai_thinking_time,
    {
        self.start_time = Some(clock_now());
    }

    /// Stop the timer and record the elapsed time as the last move's.
    pub fn stop(&mut self) -> (d: Duration)
        ensures
            final(self).start_time.is_none(),
            final(self).last_move_duration == Some(d),
            final(self).ai_thinking_time == old(self).ai_thinking_time,
            old(self).start_time.is_none() ==> d == millis_duration(0),
    {
        let duration = self.elapsed();
        self.last_move_duration = Some(duration);
        self.start_time = None;
        duration
    }

    /// Time since the timer started; zero when it is stopped.
    pub fn elapsed(&self) -> (d: Duration)
        ensures
            self.start_time.is_none() ==> d == millis_duration(0),
    {
        match &self.start_time {
            Some(t) => time_since(t),
            None => duration_from_millis(0),
        }
    }

    /// Record how long the AI thought.
    pub fn set_ai_time(&mut self, duration: Duration)
        ensures
            final(self).ai_thinking_time == Some(duration),
            final(self).start_time == old(self).start_time,
            final(self).last_move_duration == old(self).last_move_duration,
    {
        self.ai_thinking_time = Some(duration);
    }
}

/// How a game ended.
#[derive(Debug, Clone, Copy, PartialEq, Eq)]
pub struct GameResult {
    pub winner: Stone,
    pub win_type: WinType,
    pub winning_line: Option<[Pos; 5]>,
}

#[derive(Debug, Clone, Copy, PartialEq, Eq, Structural)]
pub enum WinType {
    FiveInRow,
    Capture,
}

/// `g` is the result described by `t`: winner, kind, and winning line.
pub open spec fn result_is(g: GameResult, t: (Stone, WinType, Option<Seq<Pos>>)) -> bool {
    &&& g.winner == t.0
    &&& g.win_type == t.1
    &&& match t.2 {
        None => g.winning_line.is_none(),
        Some(l) => g.winning_line matches Some(a) && a@ == l,
    }
}

/// Row step of the `k`-th direction scanned for a winning line: down,
/// right, down-right, down-left.
pub open spec fn wl_dr(k: int) -> int {
    if k == 1 {
        0
    } else {
        1
    }
}

/// Column step of the `k`-th direction scanned for a winning line.
pub open spec fn wl_dc(k: int) -> int {
    if k == 0 {
        0
    } else if k == 3 {
        -1
    } else {
        1
    }
}

/// The stones of `color` in line with `pos` along direction `k`, in board
/// order: the run back from `pos` (which counts only if it holds `color`),
/// then the run forward.
pub open spec fn line_through(b: Board, pos: Pos, color: Stone, k: int) -> Seq<Pos> {
    let dr = wl_dr(k);
    let dc = wl_dc(k);
    run_cells(b, pos.row as int, pos.col as int, -dr, -dc, color, 19).reverse() + run_cells(
        b,
        pos.row + dr,
        pos.col + dc,
        dr,
        dc,
        color,
        19,
    )
}

/// The first five stones of the first direction (from `k` on) whose line
/// through `pos` has five or more.
pub open spec fn winning_line_from(b: Board, pos: Pos, color: Stone, k: int) -> Option<Seq<Pos>>
    decreases 4 - k,
{
    if k >= 4 {
        None
    } else if line_through(b, pos, color, k).len() >= 5 {
        Some(line_through(b, pos, color, k).take(5))
    } else {
        winning_line_from(b, pos, color, k + 1)
    }
}

/// The first five-in-a-row of `s` on `b`, as `find_five_positions` finds it.
#[verifier::opaque]
pub open spec fn five_line(b: Board, s: Stone) -> Option<Seq<Pos>> {
    find_five_spec(b, s)
}

/// The opponent of `color` can break the line `l` by a capture.
#[verifier::opaque]
pub open spec fn can_break(b: Board, l: Seq<Pos>, color: Stone) -> bool {
    breakable(b, l, color)
}

/// The win, if any, after `color` has played `pos` on `b`: a fifth capture;
/// a five of the opponent that survived the move; a five through `pos` that
/// the opponent cannot break by a capture.
pub open spec fn win_check(b: Board, pos: Pos, color: Stone) -> Option<(Stone, WinType, Option<Seq<Pos>>)> {
    if (if color == Stone::Black {
        b.black_captures
    } else {
        b.white_captures
    }) >= 5 {
        Some((color, WinType::Capture, None))
    } else if five_line(b, opp(color)) is Some {
        Some((opp(color), WinType::FiveInRow, Some(five_line(b, opp(color))->0.take(5))))
    } else if winning_line_from(b, pos, color, 0) is Some && !can_break(
        b,
        winning_line_from(b, pos, color, 0)->0,
        color,
    ) {
        Some((color, WinType::FiveInRow, winning_line_from(b, pos, color, 0)))
    } else {
        None
    }
}

} // verus!

verus! {

/// Every move of the list is on the board and played by Black or White.
pub open spec fn moves_ok(moves: Seq<(Pos, Stone)>) -> bool {
    forall|k: int|
        0 <= k < moves.len() ==> (#[trigger] moves[k]).0.valid() && (moves[k].1 == Stone::Black
            || moves[k].1 == Stone::White)
}

/// An empty board with no captures.
pub open spec fn blank(b: Board) -> bool {
    &&& b.black.empty_spec()
    &&& b.white.empty_spec()
    &&& b.black_captures == 0
    &&& b.white_captures == 0
}

/// `b` is a position reached by playing `moves` in order from an empty
/// board, each stone placed and its captures made.
pub open spec fn replayed(moves: Seq<(Pos, Stone)>, b: Board) -> bool
    decreases moves.len(),
{
    if moves.len() == 0 {
        blank(b)
    } else {
        exists|prev: Board|
            #[trigger] moved(prev, moves.last().0, moves.last().1, b) && replayed(
                moves.drop_last(),
                prev,
            )
    }
}

/// Playing one more move extends a replay.
pub proof fn lemma_replayed_push(h: Seq<(Pos, Stone)>, b: Board, pos: Pos, color: Stone, a: Board)
    requires
        replayed(h, b),
        moved(b, pos, color, a),
    ensures
        replayed(h.push((pos, color)), a),
{
    let h2 = h.push((pos, color));
    assert(h2.drop_last() =~= h);
    assert(h2.last() == (pos, color));
    assert(moved(b, h2.last().0, h2.last().1, a) && replayed(h2.drop_last(), b));
}

/// A list of moves leads to one position: two boards that both replay the
/// same moves are the same board. (So the board that undo rebuilds, and
/// the board that review shows, are fixed by the moves kept.)
pub proof fn law_replay_unique(moves: Seq<(Pos, Stone)>, a: Board, b: Board)
    requires
        replayed(moves, a),
        replayed(moves, b),
    ensures
        a == b,
    decreases moves.len(),
{
    if moves.len() == 0 {
        assert(blank(a) && blank(b));
        assert forall|i: int| #[trigger] a.black.has(i) == b.black.has(i) by {
            Bitboard::lemma_has_range(a.black, i);
            Bitboard::lemma_has_range(b.black, i);
        }
        assert forall|i: int| #[trigger] a.white.has(i) == b.white.has(i) by {
            Bitboard::lemma_has_range(a.white, i);
            Bitboard::lemma_has_range(b.white, i);
        }
        assert(blank(a) && blank(b));
        assert(a.black_captures == b.black_captures && a.white_captures == b.white_captures);
        assert(a.same_position(b));
        Board::lemma_ext(a, b);
    } else {
        let (p, c) = moves.last();
        let pa = choose|prev: Board| #[trigger] moved(prev, p, c, a) && replayed(moves.drop_last(), prev);
        let pb = choose|prev: Board| #[trigger] moved(prev, p, c, b) && replayed(moves.drop_last(), prev);
        law_replay_unique(moves.drop_last(), pa, pb);
        lemma_moved_unique(pa, p, c, a, b);
    }
}

/// What an undo takes back, a redo plays again: in a two-player game whose
/// moves alternate colors (as moves made through the game do), undoing the
/// last move and then redoing it gives back the same history, position and
/// redo stack; the last move, the side to move and the end of the game are
/// those that the last move gives.
pub proof fn law_undo_then_redo(s0: GameState, s1: GameState, s2: GameState)
    requires
        s0.wf(),
        s2.wf(),
        s0.mode is PvP,
        s0.move_history@.len() > 0,
        ({
            let h = s0.move_history@;
            let n = h.len() as int;
            h[n - 1].1 == if n == 1 {
                Stone::Black
            } else {
                opp(h[n - 2].1)
            }
        }),
        s0.undone(s1),
        s1.redone(s2),
    ensures
        s2.move_history@ == s0.move_history@,
        s2.board == s0.board,
        s2.redo_groups@ == s0.redo_groups@,
        ({
            let last = s0.move_history@.last();
            &&& s2.last_move == Some(last.0)
            &&& (s2.game_over is Some <==> win_check(s0.board, last.0, last.1) is Some)
            &&& s2.current_turn == if s2.game_over is Some {
                last.1
            } else {
                opp(last.1)
            }
        }),
{
    let h = s0.move_history@;
    let n = h.len() as int;
    assert(s0.undo_count() == 1);
    let g = s1.redo_groups@.last()@;
    assert(g == h.subrange(n - 1, n));
    assert(s1.move_history@ == h.take(n - 1));
    assert(s2.move_history@.len() == n);
    assert(s2.move_history@[n - 1].0 == g[0].0);
    assert(s2.move_history@ =~= h) by {
        assert forall|k: int| 0 <= k < n implies s2.move_history@[k] == h[k] by {
            if k < n - 1 {
                assert(s2.move_history@.take(n - 1)[k] == s1.move_history@[k]);
            }
        }
    }
    law_replay_unique(h, s0.board, s2.board);
}

/// An undo takes back what was just played: one move in a two-player game,
/// the human's move and the AI's reply against the AI. The history and the
/// position are those from before.
pub proof fn law_play_then_undo(s0: GameState, s1: GameState, s2: GameState, s3: GameState, p1: Pos, p2: Pos)
    requires
        s0.wf(),
        s3.wf(),
        s0.mode is PvP ==> s0.core_played(s1, p1) && s1.mode == s0.mode && s1.undone(s3),
        s0.mode is PvE ==> s0.core_played(s1, p1) && s1.core_played(s2, p2) && s2.mode == s0.mode && s2.undone(s3),
        s0.mode is PvP || s0.mode is PvE,
    ensures
        s3.move_history@ == s0.move_history@,
        s3.board == s0.board,
{
    let h = s0.move_history@;
    if s0.mode is PvP {
        assert(s1.move_history@.len() == h.len() + 1);
        assert(s3.move_history@ =~= h);
    } else {
        assert(s2.move_history@ == h.push((p1, s0.current_turn)).push((p2, s1.current_turn)));
        assert(s2.undo_count() == 2);
        assert(s3.move_history@ =~= h);
    }
    law_replay_unique(h, s0.board, s3.board);
}

/// Stepping back in the review of a finished game and then forward again
/// leaves review mode, with the game as it was.
pub proof fn law_review_back_then_forward(s0: GameState, s1: GameState, s2: GameState)
    requires
        s0.game_over.is_some(),
        s0.review_index.is_none(),
        s0.move_history@.len() >= 1,
        s0.review_back(s1),
        s1.review_forward(s2),
    ensures
        s2.review_index.is_none(),
        s2.board == s0.board,
        s2.move_history@ == s0.move_history@,
        s2.game_over == s0.game_over,
{
    assert(s0.move_history@.len() == s0.move_history.len());
}

/// The Chebyshev distance of `p` from the center.
pub open spec fn center_ring(p: Pos) -> int {
    let dr = if p.row >= 9 {
        p.row - 9
    } else {
        9 - p.row
    };
    let dc = if p.col >= 9 {
        p.col - 9
    } else {
        9 - p.col
    };
    if dr > dc {
        dr
    } else {
        dc
    }
}

/// The index (0 for Black, 1 for White) of per-color slots.
pub open spec fn color_slot(color: Stone) -> int {
    if color == Stone::Black {
        0
    } else {
        1
    }
}

/// `find_five_positions`, stated over `five_line`.
fn first_five(board: &Board, s: Stone) -> (r: Option<Vec<Pos>>)
    ensures
        match five_line(*board, s) {
            None => r.is_none(),
            Some(l) => r matches Some(v) && v@ == l && v.len() >= 5,
        },
{
    let r = find_five_positions(board, s);
    proof {
        reveal(five_line);
    }
    r
}

/// `can_break_five_by_capture`, stated over `can_break`.
fn line_breakable(board: &Board, line: &Vec<Pos>, color: Stone) -> (b: bool)
    ensures
        b == can_break(*board, line@, color),
{
    let b = can_break_five_by_capture(board, line.as_slice(), color);
    proof {
        reveal(can_break);
    }
    b
}

/// Replay the first `k` moves of `moves` from an empty board: the position,
/// the last move played, and the color to move next.
fn replay(moves: &Vec<(Pos, Stone)>, k: usize) -> (r: (Board, Option<Pos>, Stone))
    requires
        moves_ok(moves@),
        k <= moves.len(),
    ensures
        replayed(moves@.take(k as int), r.0),
        r.1 == if k == 0 {
            None
        } else {
            Some(moves@[k - 1].0)
        },
        r.2 == if k == 0 {
            Stone::Black
        } else {
            opp(moves@[k - 1].1)
        },
{
    let mut board = Board::new();
    let mut last: Option<Pos> = None;
    let mut turn = Stone::Black;
    let mut i: usize = 0;
    proof {
        assert(moves@.take(0) =~= Seq::<(Pos, Stone)>::empty());
    }
    while i < k
        invariant
            0 <= i <= k <= moves.len(),
            moves_ok(moves@),
            replayed(moves@.take(i as int), board),
            last == if i == 0 {
                None
            } else {
                Some(moves@[i - 1].0)
            },
            turn == if i == 0 {
                Stone::Black
            } else {
                opp(moves@[i - 1].1)
            },
        decreases k - i,
    {
        let (pos, color) = moves[i];
        let ghost prev = board;
        board.place_stone(pos, color);
        let ghost m = board;
        execute_captures(&mut board, pos, color);
        proof {
            assert(placed(prev, pos, color, m));
            assert(moved(prev, pos, color, board));
            lemma_replayed_push(moves@.take(i as int), prev, pos, color, board);
            assert(moves@.take(i as int).push((pos, color)) =~= moves@.take(i + 1));
        }
        last = Some(pos);
        turn = color.opponent();
        i = i + 1;
    }
    (board, last, turn)
}

/// The first position on the board, in cell order, with property `p`.
pub open spec fn first_pos(p: spec_fn(Pos) -> bool) -> Option<Pos> {
    if exists|q: Pos| q.valid() && #[trigger] p(q) {
        Some(
            choose|q: Pos|
                q.valid() && #[trigger] p(q) && forall|q2: Pos| q2.valid() && #[trigger] p(q2) ==> q.idx() <= q2.idx(),
        )
    } else {
        None
    }
}

/// A position with `p` that no earlier position has is `first_pos(p)`.
proof fn lemma_first_pos(p: spec_fn(Pos) -> bool, r: Pos)
    requires
        r.valid(),
        p(r),
        forall|q: Pos| q.valid() && #[trigger] p(q) ==> r.idx() <= q.idx(),
    ensures
        first_pos(p) == Some(r),
{
    let c = choose|q: Pos|
        q.valid() && #[trigger] p(q) && forall|q2: Pos| q2.valid() && #[trigger] p(q2) ==> q.idx() <= q2.idx();
    assert(c.valid() && p(c));
    assert(c.idx() <= r.idx());
    assert(r.idx() <= c.idx());
    lemma_idx_injective(c, r);
}

/// Playing `p` wins for `color` at once.
#[verifier::opaque]
pub open spec fn wins_with(b: Board, p: Pos, color: Stone) -> bool {
    exists|a: Board| #[trigger] moved(b, p, color, a) && winner_spec(a) == Some(color)
}

/// Whether playing `p` wins for `color` at once.
fn move_wins(board: &Board, p: Pos, color: Stone) -> (w: bool)
    requires
        p.valid(),
    ensures
        w == wins_with(*board, p, color),
{
    let mut test = *board;
    let ghost b0 = *board;
    test.place_stone(p, color);
    let ghost m = test;
    execute_captures(&mut test, p, color);
    let w = match check_winner(&test) {
        Some(s) => s == color,
        None => false,
    };
    proof {
        reveal(wins_with);
        assert(placed(b0, p, color, m));
        assert(moved(b0, p, color, test));
        if !w {
            assert forall|a: Board| #[trigger] moved(b0, p, color, a) implies winner_spec(a) != Some(
                color,
            ) by {
                lemma_moved_unique(b0, p, color, a, test);
            }
        }
    }
    w
}

/// `q` lies within two rows and two columns of `l`.
pub open spec fn within2(q: Pos, l: Pos) -> bool {
    -2 <= q.row - l.row <= 2 && -2 <= q.col - l.col <= 2
}

/// The quick moves tried when the AI runs out of time, by kind: 0, a move
/// that wins at once; 1, a legal move on a cell where the opponent would
/// win at once; 2, a legal move within two of `last`; 3, a legal move in the
/// 5x5 square around the center.
pub open spec fn fallback_pred(b: Board, color: Stone, kind: int, last: Pos) -> spec_fn(Pos) -> bool {
    |q: Pos|
        if kind == 0 {
            valid_move(b, q, color) && wins_with(b, q, color)
        } else if kind == 1 {
            valid_move(b, q, opp(color)) && wins_with(b, q, opp(color)) && valid_move(b, q, color)
        } else if kind == 2 {
            within2(q, last) && valid_move(b, q, color)
        } else {
            7 <= q.row < 12 && 7 <= q.col < 12 && valid_move(b, q, color)
        }
}

/// The quick move: the first (in board order) of the first kind that has
/// one, kind 2 only when there is a last move.
pub open spec fn fallback_spec(b: Board, color: Stone, last: Option<Pos>) -> Option<Pos> {
    let none = Pos { row: 0, col: 0 };
    if first_pos(fallback_pred(b, color, 0, none)) is Some {
        first_pos(fallback_pred(b, color, 0, none))
    } else if first_pos(fallback_pred(b, color, 1, none)) is Some {
        first_pos(fallback_pred(b, color, 1, none))
    } else if last is Some && first_pos(fallback_pred(b, color, 2, last->0)) is Some {
        first_pos(fallback_pred(b, color, 2, last->0))
    } else {
        first_pos(fallback_pred(b, color, 3, none))
    }
}

/// Whether `q` is a quick move of kind `kind`.
fn fallback_test(board: &Board, color: Stone, kind: u8, last: Pos, q: Pos) -> (t: bool)
    requires
        q.valid(),
    ensures
        t == fallback_pred(*board, color, kind as int, last)(q),
{
    if kind == 0 {
        is_valid_move(board, q, color) && move_wins(board, q, color)
    } else if kind == 1 {
        let opponent = color.opponent();
        is_valid_move(board, q, opponent) && move_wins(board, q, opponent) && is_valid_move(
            board,
            q,
            color,
        )
    } else if kind == 2 {
        let dr = q.row as i32 - last.row as i32;
        let dc = q.col as i32 - last.col as i32;
        -2 <= dr && dr <= 2 && -2 <= dc && dc <= 2 && is_valid_move(board, q, color)
    } else {
        7 <= q.row && q.row < 12 && 7 <= q.col && q.col < 12 && is_valid_move(board, q, color)
    }
}

/// The first quick move of kind `kind`, in board order.
fn first_fallback(board: &Board, color: Stone, kind: u8, last: Pos) -> (r: Option<Pos>)
    ensures
        r == first_pos(fallback_pred(*board, color, kind as int, last)),
        r matches Some(q) ==> q.valid(),
{
    let ghost pred = fallback_pred(*board, color, kind as int, last);
    let mut i: usize = 0;
    while i < 361
        invariant
            0 <= i <= 361,
            pred == fallback_pred(*board, color, kind as int, last),
            forall|q: Pos| q.valid() && q.idx() < i ==> !#[trigger] pred(q),
        decreases 361 - i,
    {
        let q = Pos::from_index(i);
        if fallback_test(board, color, kind, last, q) {
            proof {
                assert forall|q2: Pos| q2.valid() && #[trigger] pred(q2) implies q.idx() <= q2.idx() by {
                    if q2.idx() < i {
                        assert(!pred(q2));
                    }
                }
                lemma_first_pos(pred, q);
            }
            return Some(q);
        }
        proof {
            assert forall|q2: Pos| q2.valid() && q2.idx() < i + 1 implies !#[trigger] pred(q2) by {
                if q2.idx() == i {
                    lemma_idx_injective(q2, q);
                }
            }
        }
        i = i + 1;
    }
    proof {
        assert(!(exists|q: Pos| q.valid() && #[trigger] pred(q))) by {
            assert forall|q: Pos| q.valid() implies !#[trigger] pred(q) by {
                assert(q.idx() < 361);
            }
        }
    }
    None
}

/// Absolute value.
pub open spec fn absd(x: int) -> int {
    if x < 0 {
        -x
    } else {
        x
    }
}

/// Manhattan distance between two positions.
pub open spec fn manhattan(p: Pos, q: Pos) -> int {
    absd(p.row - q.row) + absd(p.col - q.col)
}

/// A cell the third move may take under the pro rule: empty and at least
/// three intersections from the center.
pub open spec fn pro_cell(b: Board, q: Pos) -> bool {
    q.valid() && b.cell(q.idx()) == Stone::Empty && center_ring(q) >= 3
}

/// `q` is the allowed cell nearest `pos`, the first in board order among
/// the nearest.
pub open spec fn nearest_pro(b: Board, pos: Pos, q: Pos) -> bool {
    &&& pro_cell(b, q)
    &&& forall|q2: Pos| #[trigger] pro_cell(b, q2) ==> manhattan(q, pos) <= manhattan(q2, pos)
    &&& forall|q2: Pos| #[trigger] pro_cell(b, q2) && q2.idx() < q.idx() ==> manhattan(q, pos) < manhattan(q2, pos)
}

/// Where the pro rule moves an AI move to: the center for the first move;
/// for a third move too close to the center, the nearest allowed cell (if
/// any); otherwise the move itself.
pub open spec fn pro_fix(b: Board, rule: OpeningRule, moves_made: int, pos: Pos) -> Pos {
    if rule != OpeningRule::Pro {
        pos
    } else if moves_made == 0 {
        Pos { row: 9, col: 9 }
    } else if moves_made == 2 && center_ring(pos) < 3 && (exists|q: Pos| #[trigger] pro_cell(b, q)) {
        choose|q: Pos| nearest_pro(b, pos, q)
    } else {
        pos
    }
}

/// The nearest allowed cell is unique.
proof fn lemma_nearest_pro(b: Board, pos: Pos, q: Pos)
    requires
        nearest_pro(b, pos, q),
    ensures
        (choose|q2: Pos| nearest_pro(b, pos, q2)) == q,
{
    let c = choose|q2: Pos| nearest_pro(b, pos, q2);
    assert(nearest_pro(b, pos, c));
    if c.idx() < q.idx() {
        assert(pro_cell(b, c));
        assert(false);
    } else if q.idx() < c.idx() {
        assert(pro_cell(b, q));
        assert(false);
    }
    lemma_idx_injective(c, q);
}

/// Main game state.
pub struct GameState {
    pub board: Board,
    pub mode: GameMode,
    pub current_turn: Stone,
    pub game_over: Option<GameResult>,
    pub last_move: Option<Pos>,
    pub move_history: Vec<(Pos, Stone)>,
    pub last_ai_result: [Option<MoveResult>; 2],
    pub ai_state: AiState,
    pub move_timer: MoveTimer,
    pub suggested_move: Option<Pos>,
    pub message: Option<String>,
    pub capture_animation: Option<CaptureAnimation>,
    pub ai_stats: [AiStats; 2],
    /// Review mode: when `Some(index)`, the board shown is that after move
    /// `index`.
    pub review_index: Option<usize>,
    /// Redo stack: each entry is a group of moves (1 for PvP, 2 for PvE).
    pub redo_groups: Vec<Vec<(Pos, Stone)>>,
    /// Opening rule for this game.
    pub opening_rule: OpeningRule,
    /// Swap rule: waiting for the swap decision after the 3rd move.
    pub swap_pending: bool,
    /// Per-color last move duration [Black, White].
    pub last_move_time: [Option<Duration>; 2],
    /// Persistent AI engine (its table is reused across moves); absent while
    /// a search thread holds it.
    pub ai_engine: Option<AIEngine>,
    /// Depth of an engine made afresh.
    pub ai_depth: i8,
    /// Time limit of an engine made afresh.
    pub ai_time_limit_ms: u64,
}

/// The AI's search, ready to run on a thread of the front end: the
/// position, the color to move, and the engine to search with.
pub struct AiJob {
    pub board: Board,
    pub color: Stone,
    pub engine: AIEngine,
}

/// What the front end saw of the AI thread while the AI was thinking.
pub enum AiEvent {
    /// No answer yet.
    Waiting,
    /// The thinking time ran out (5 s) before an answer came.
    TimedOut,
    /// The search answered with its result and the engine, after `elapsed`.
    Finished { result: MoveResult, engine: AIEngine, elapsed: Duration },
    /// The thread is gone without an answer.
    Disconnected,
}

/// What the front end saw of a timed-out search thread.
pub enum EnginePoll {
    /// Still running.
    Waiting,
    /// It finished and handed the engine back.
    Returned(AIEngine),
    /// It is gone without handing the engine back.
    Disconnected,
}

impl GameState {
    /// The engine, when present, is well formed.
    pub open spec fn engine_ok(self) -> bool {
        self.ai_engine matches Some(e) ==> e.wf()
    }

    /// A color is to move, the engine is well formed, every recorded or
    /// undone move is a move of a color on the board, and the board is the
    /// position the recorded moves lead to.
    pub open spec fn wf(self) -> bool {
        &&& (self.current_turn == Stone::Black || self.current_turn == Stone::White)
        &&& self.engine_ok()
        &&& moves_ok(self.move_history@)
        &&& forall|g: int| 0 <= g < self.redo_groups.len() ==> moves_ok(#[trigger] self.redo_groups[g]@)
        &&& replayed(self.move_history@, self.board)
    }

    pub open spec fn thinking(self) -> bool {
        self.ai_state is Thinking
    }

    /// It is the human's turn in this mode.
    pub open spec fn human_turn(self) -> bool {
        match self.mode {
            GameMode::PvE { human_color } => self.current_turn == human_color,
            GameMode::PvP { .. } => true,
            GameMode::AiVsAi => false,
        }
    }

    /// It is the AI's turn in this mode.
    pub open spec fn ai_turn(self) -> bool {
        match self.mode {
            GameMode::PvE { human_color } => self.current_turn != human_color,
            GameMode::PvP { .. } => false,
            GameMode::AiVsAi => true,
        }
    }

    /// Check if it's the human's turn.
    pub fn is_human_turn(&self) -> (b: bool)
        ensures
            b == self.human_turn(),
    {
        match self.mode {
            GameMode::PvE { human_color } => self.current_turn == human_color,
            GameMode::PvP { .. } => true,
            GameMode::AiVsAi => false,
        }
    }

    /// Check if it's the AI's turn.
    pub fn is_ai_turn(&self) -> (b: bool)
        ensures
            b == self.ai_turn(),
    {
        match self.mode {
            GameMode::PvE { human_color } => self.current_turn != human_color,
            GameMode::PvP { .. } => false,
            GameMode::AiVsAi => true,
        }
    }

    /// Check if the AI is currently thinking.
    pub fn is_ai_thinking(&self) -> (b: bool)
        ensures
            b == self.thinking(),
    {
        match self.ai_state {
            AiState::Thinking { .. } => true,
            _ => false,
        }
    }

    /// Check if currently reviewing a past position.
    pub fn is_reviewing(&self) -> (b: bool)
        ensures
            b == self.review_index.is_some(),
    {
        self.review_index.is_some()
    }

    /// Time the AI has been thinking, while it thinks.
    pub fn ai_thinking_elapsed(&self) -> (d: Option<Duration>)
        ensures
            d.is_some() == self.thinking(),
    {
        match &self.ai_state {
            AiState::Thinking { start_time } => Some(time_since(start_time)),
            _ => None,
        }
    }

    /// Find the winning line through `pos`: the first five stones of the
    /// first direction (down, right, down-right, down-left) where `color` has
    /// five or more in a row through `pos`.
    #[verifier::spinoff_prover]
    pub fn find_winning_line(&self, pos: Pos, color: Stone) -> (r: Option<[Pos; 5]>)
        requires
            pos.valid(),
        ensures
            match winning_line_from(self.board, pos, color, 0) {
                None => r.is_none(),
                Some(l) => r matches Some(a) && a@ == l,
            },
    {
        let mut k: usize = 0;
        while k < 4
            invariant
                0 <= k <= 4,
                pos.valid(),
                winning_line_from(self.board, pos, color, 0) == winning_line_from(
                    self.board,
                    pos,
                    color,
                    k as int,
                ),
            decreases 4 - k,
        {
            let dr: i32 = if k == 1 {
                0
            } else {
                1
            };
            let dc: i32 = if k == 0 {
                0
            } else if k == 3 {
                -1
            } else {
                1
            };
            let mut back: Vec<Pos> = Vec::new();
            scan_run(&self.board, pos.row as i32, pos.col as i32, -dr, -dc, color, 19, true, &mut back);
            let mut line: Vec<Pos> = Vec::new();
            let mut t: usize = back.len();
            while t > 0
                invariant
                    t <= back.len(),
                    line@ == back@.subrange(t as int, back.len() as int).reverse(),
                decreases t,
            {
                t = t - 1;
                line.push(back[t]);
                proof {
                    assert(line@ =~= back@.subrange(t as int, back.len() as int).reverse());
                }
            }
            scan_run(
                &self.board,
                pos.row as i32 + dr,
                pos.col as i32 + dc,
                dr,
                dc,
                color,
                19,
                true,
                &mut line,
            );
            proof {
                assert(back@.subrange(0, back.len() as int) =~= back@);
                assert(line@ =~= line_through(self.board, pos, color, k as int));
            }
            if line.len() >= 5 {
                let a = [line[0], line[1], line[2], line[3], line[4]];
                proof {
                    assert(a@ =~= line@.take(5));
                }
                return Some(a);
            }
            k = k + 1;
        }
        None
    }

    /// Check for a win after `color` has played `pos`: a fifth captured pair;
    /// an opponent five that the move did not break; or a five through `pos`
    /// that the opponent cannot break by a capture. A breakable five gives
    /// the opponent one move to break it.
    #[verifier::spinoff_prover]
    #[verifier::rlimit(40)]
    pub fn check_win(&self, pos: Pos, color: Stone) -> (r: Option<GameResult>)
        requires
            pos.valid(),
        ensures
            match win_check(self.board, pos, color) {
                None => r.is_none(),
                Some(t) => r matches Some(g) && result_is(g, t),
            },
    {
        let total_captures = if color == Stone::Black {
            self.board.black_captures
        } else {
            self.board.white_captures
        };
        if total_captures >= 5 {
            return Some(GameResult { winner: color, win_type: WinType::Capture, winning_line: None });
        }
        let opponent = color.opponent();
        match first_five(&self.board, opponent) {
            Some(opp_five) => {
                let line = [opp_five[0], opp_five[1], opp_five[2], opp_five[3], opp_five[4]];
                proof {
                    assert(line@ =~= opp_five@.take(5));
                }
                return Some(
                    GameResult {
                        winner: opponent,
                        win_type: WinType::FiveInRow,
                        winning_line: Some(line),
                    },
                );
            },
            None => {},
        }
        match self.find_winning_line(pos, color) {
            Some(line) => {
                let mut line_vec: Vec<Pos> = Vec::new();
                let mut i: usize = 0;
                while i < 5
                    invariant
                        0 <= i <= 5,
                        line_vec@ == line@.take(i as int),
                    decreases 5 - i,
                {
                    line_vec.push(line[i]);
                    proof {
                        assert(line_vec@ =~= line@.take(i + 1));
                    }
                    i = i + 1;
                }
                proof {
                    assert(line@.take(5) =~= line@);
                }
                if !line_breakable(&self.board, &line_vec, color) {
                    return Some(
                        GameResult {
                            winner: color,
                            win_type: WinType::FiveInRow,
                            winning_line: Some(line),
                        },
                    );
                }
            },
            None => {},
        }
        None
    }

    /// The state of a game not yet started: empty board, Black to move, no
    /// history, no AI activity, a running move timer.
    pub open spec fn fresh_game(self) -> bool {
        &&& blank(self.board)
        &&& self.current_turn == Stone::Black
        &&& self.game_over.is_none()
        &&& self.last_move.is_none()
        &&& self.move_history@.len() == 0
        &&& self.last_ai_result[0].is_none()
        &&& self.last_ai_result[1].is_none()
        &&& self.ai_state is Idle
        &&& self.move_timer.start_time.is_some()
        &&& self.move_timer.last_move_duration.is_none()
        &&& self.move_timer.ai_thinking_time.is_none()
        &&& self.suggested_move.is_none()
        &&& self.message.is_none()
        &&& self.capture_animation.is_none()
        &&& self.ai_stats[0].is_fresh()
        &&& self.ai_stats[1].is_fresh()
        &&& self.review_index.is_none()
        &&& self.redo_groups@.len() == 0
        &&& !self.swap_pending
        &&& self.last_move_time[0].is_none()
        &&& self.last_move_time[1].is_none()
    }

    /// The game itself (position, turn, outcome, history and rules) is the
    /// same in both states.
    pub open spec fn same_play(self, other: GameState) -> bool {
        &&& self.board == other.board
        &&& self.current_turn == other.current_turn
        &&& self.game_over == other.game_over
        &&& self.last_move == other.last_move
        &&& self.move_history@ == other.move_history@
        &&& self.redo_groups@ == other.redo_groups@
        &&& self.review_index == other.review_index
        &&& self.opening_rule == other.opening_rule
    }

    /// A new game in `mode` without opening restrictions.
    pub fn new(mode: GameMode) -> (g: Self)
        ensures
            g.wf(),
            g.fresh_game(),
            g.mode == mode,
            g.opening_rule == OpeningRule::Standard,
            g.ai_engine matches Some(e) && e.max_depth == 20 && e.time_limit_ms == 500,
            g.ai_depth == 20,
            g.ai_time_limit_ms == 500,
    {
        Self::with_opening_rule(mode, OpeningRule::Standard)
    }

    /// A new game in `mode` under `opening_rule`.
    pub fn with_opening_rule(mode: GameMode, opening_rule: OpeningRule) -> (g: Self)
        ensures
            g.wf(),
            g.fresh_game(),
            g.mode == mode,
            g.opening_rule == opening_rule,
            g.ai_engine matches Some(e) && e.max_depth == 20 && e.time_limit_ms == 500,
            g.ai_depth == 20,
            g.ai_time_limit_ms == 500,
    {
        Self {
            board: Board::new(),
            mode,
            current_turn: Stone::Black,
            game_over: None,
            last_move: None,
            move_history: Vec::new(),
            last_ai_result: [None, None],
            ai_state: AiState::Idle,
            move_timer: MoveTimer::default(),
            suggested_move: None,
            message: None,
            capture_animation: None,
            ai_stats: [AiStats::default(), AiStats::default()],
            review_index: None,
            redo_groups: Vec::new(),
            opening_rule,
            swap_pending: false,
            last_move_time: [None, None],
            ai_engine: Some(AIEngine::with_config(64, 20, 500)),
            ai_depth: 20,
            ai_time_limit_ms: 500,
        }
    }

    /// Start over: a fresh game in the same mode and under the same rule; the
    /// engine keeps its settings but forgets its tables.
    pub fn reset(&mut self)
        requires
            old(self).wf(),
        ensures
            final(self).wf(),
            final(self).fresh_game(),
            final(self).mode == old(self).mode,
            final(self).opening_rule == old(self).opening_rule,
            final(self).ai_depth == old(self).ai_depth,
            final(self).ai_time_limit_ms == old(self).ai_time_limit_ms,
            final(self).ai_engine.is_some() == old(self).ai_engine.is_some(),
            final(self).ai_engine matches Some(e) ==> (old(self).ai_engine matches Some(o)
                && e.max_depth == o.max_depth && e.time_limit_ms == o.time_limit_ms),
    {
        self.board = Board::new();
        self.current_turn = Stone::Black;
        self.game_over = None;
        self.last_move = None;
        self.move_history.clear();
        self.last_ai_result = [None, None];
        self.ai_state = AiState::Idle;
        self.move_timer = MoveTimer::default();
        self.suggested_move = None;
        self.message = None;
        self.capture_animation = None;
        self.ai_stats = [AiStats::default(), AiStats::default()];
        self.review_index = None;
        self.redo_groups.clear();
        self.swap_pending = false;
        self.last_move_time = [None, None];
        let engine = self.ai_engine.take();
        match engine {
            Some(mut e) => {
                e.clear_cache();
                self.ai_engine = Some(e);
            },
            None => {},
        }
    }

    /// Execute the color swap of the swap rule: in PvE the human takes the
    /// other color.
    pub fn execute_swap(&mut self)
        ensures
            final(self).same_play(*old(self)),
            !final(self).swap_pending,
            final(self).mode == match old(self).mode {
                GameMode::PvE { human_color } => GameMode::PvE { human_color: opp(human_color) },
                m => m,
            },
            final(self).message matches Some(m) && m@ == "Colors swapped!"@,
            final(self).ai_engine == old(self).ai_engine,
    {
        self.swap_pending = false;
        match self.mode {
            GameMode::PvE { human_color } => {
                self.mode = GameMode::PvE { human_color: human_color.opponent() };
            },
            _ => {},
        }
        self.message = Some("Colors swapped!".to_string());
    }

    /// Decline the color swap of the swap rule.
    pub fn decline_swap(&mut self)
        ensures
            final(self).same_play(*old(self)),
            !final(self).swap_pending,
            final(self).mode == old(self).mode,
            final(self).message matches Some(m) && m@ == "Swap declined, game continues."@,
            final(self).ai_engine == old(self).ai_engine,
    {
        self.swap_pending = false;
        self.message = Some("Swap declined, game continues.".to_string());
    }

    /// What the capture animation of `next` shows after the move at `pos`
    /// made on `m` (the board with the stone placed): the captured stones, if
    /// any were captured; otherwise the animation is left as it was.
    pub open spec fn capture_shown(self, next: GameState, m: Board, pos: Pos) -> bool {
        let cap = captured_list(m, pos, self.current_turn);
        if cap.len() > 0 {
            next.capture_animation matches Some(a) && a.positions@ == cap && a.captured_color == opp(
                self.current_turn,
            )
        } else {
            next.capture_animation == self.capture_animation
        }
    }

    /// `next` is this state after the side to move played `pos`: the stone
    /// placed and its captures made, the move recorded and timed, and then
    /// either the game over (the turn stays) or the turn passed, the timer
    /// restarted, the swap decision raised after move 3 under the swap rule,
    /// and the message cleared.
    pub open spec fn move_played(self, next: GameState, pos: Pos) -> bool {
        let color = self.current_turn;
        let slot = color_slot(color);
        &&& moved(self.board, pos, color, next.board)
        &&& (exists|m: Board| #[trigger] placed(self.board, pos, color, m) && self.capture_shown(next, m, pos))
        &&& next.move_history@ == self.move_history@.push((pos, color))
        &&& next.last_move == Some(pos)
        &&& next.suggested_move.is_none()
        &&& next.move_timer.last_move_duration is Some
        &&& next.last_move_time[slot] == next.move_timer.last_move_duration
        &&& next.last_move_time[1 - slot] == self.last_move_time[1 - slot]
        &&& next.move_timer.ai_thinking_time == self.move_timer.ai_thinking_time
        &&& match win_check(next.board, pos, color) {
            Some(t) => {
                &&& next.game_over matches Some(g) && result_is(g, t)
                &&& next.current_turn == color
                &&& next.move_timer.start_time.is_none()
                &&& next.message == self.message
                &&& next.swap_pending == self.swap_pending
            },
            None => {
                &&& next.game_over == self.game_over
                &&& next.current_turn == opp(color)
                &&& next.move_timer.start_time.is_some()
                &&& next.message.is_none()
                &&& next.swap_pending == (self.swap_pending || (self.opening_rule == OpeningRule::Swap
                    && next.move_history@.len() == 3))
            },
        }
        &&& next.mode == self.mode
        &&& next.opening_rule == self.opening_rule
        &&& next.review_index == self.review_index
        &&& next.ai_engine == self.ai_engine
        &&& next.ai_depth == self.ai_depth
        &&& next.ai_time_limit_ms == self.ai_time_limit_ms
        &&& next.ai_stats == self.ai_stats
        &&& next.last_ai_result == self.last_ai_result
        &&& next.ai_state == self.ai_state
    }

    /// Play `pos` for the side to move (human or AI).
    fn execute_move(&mut self, pos: Pos)
        requires
            old(self).wf(),
            pos.valid(),
        ensures
            final(self).wf(),
            old(self).move_played(*final(self), pos),
            final(self).redo_groups@ == old(self).redo_groups@,
    {
        let color = self.current_turn;
        let ghost b0 = self.board;
        self.board.place_stone(pos, color);
        let ghost m = self.board;
        let captured_positions = execute_captures(&mut self.board, pos, color);
        proof {
            assert(placed(b0, pos, color, m));
            assert(moved(b0, pos, color, self.board));
        }
        if captured_positions.len() > 0 {
            self.capture_animation = Some(CaptureAnimation::new(captured_positions, color.opponent()));
        }
        proof {
            assert(old(self).capture_shown(*self, m, pos));
        }
        let ghost h0 = self.move_history@;
        self.move_history.push((pos, color));
        proof {
            assert(self.move_history@.drop_last() =~= h0);
            assert(self.move_history@.last() == (pos, color));
            assert(replayed(h0, b0));
            lemma_replayed_push(h0, b0, pos, color, self.board);
        }
        self.last_move = Some(pos);
        self.suggested_move = None;
        let duration = self.move_timer.stop();
        if color == Stone::Black {
            self.last_move_time[0] = Some(duration);
        } else {
            self.last_move_time[1] = Some(duration);
        }
        match self.check_win(pos, color) {
            Some(result) => {
                self.game_over = Some(result);
                return;
            },
            None => {},
        }
        self.current_turn = color.opponent();
        self.move_timer.start();
        if self.opening_rule == OpeningRule::Swap && self.move_history.len() == 3 {
            self.swap_pending = true;
        }
        self.message = None;
    }

    /// Why the side to move may not play `pos` now, if it may not: the game
    /// is over, the AI is thinking, it is not the human's turn, the pro rule
    /// (first move at the center, third move at least three intersections
    /// from it), an occupied cell, a double-three, an otherwise invalid move.
    pub open spec fn place_error(self, pos: Pos) -> Option<Seq<char>> {
        if self.game_over.is_some() {
            Some("Game is over"@)
        } else if self.thinking() {
            Some("AI is thinking"@)
        } else if !self.human_turn() {
            Some("Not your turn"@)
        } else if self.opening_rule == OpeningRule::Pro && self.move_history@.len() == 0 && pos != (
        Pos { row: 9, col: 9 }) {
            Some("Pro rule: First move must be at center (K10)"@)
        } else if self.opening_rule == OpeningRule::Pro && self.move_history@.len() == 2
            && center_ring(pos) < 3 {
            Some("Pro rule: 3rd move must be ≥3 intersections from center"@)
        } else if self.board.cell(pos.idx()) != Stone::Empty {
            Some("Position is occupied"@)
        } else if double_three(self.board, pos, self.current_turn) {
            Some("Forbidden: Double-three"@)
        } else if !valid_move(self.board, pos, self.current_turn) {
            Some("Invalid move"@)
        } else {
            None
        }
    }

    /// Attempt to place a stone of the human at `pos`. On success the redo
    /// history is dropped and the move is played.
    pub fn try_place_stone(&mut self, pos: Pos) -> (r: Result<(), String>)
        requires
            old(self).wf(),
            pos.valid(),
        ensures
            final(self).wf(),
            match old(self).place_error(pos) {
                Some(msg) => r matches Err(e) && e@ == msg && *final(self) == *old(self),
                None => r is Ok && old(self).move_played(*final(self), pos)
                    && final(self).redo_groups@.len() == 0,
            },
    {
        if self.game_over.is_some() {
            return Err("Game is over".to_string());
        }
        if self.is_ai_thinking() {
            return Err("AI is thinking".to_string());
        }
        if !self.is_human_turn() {
            return Err("Not your turn".to_string());
        }
        if self.opening_rule == OpeningRule::Pro {
            if self.move_history.len() == 0 && pos != Pos::new(9, 9) {
                return Err("Pro rule: First move must be at center (K10)".to_string());
            }
            if self.move_history.len() == 2 {
                let dr: u8 = if pos.row >= 9 { pos.row - 9 } else { 9 - pos.row };
                let dc: u8 = if pos.col >= 9 { pos.col - 9 } else { 9 - pos.col };
                let ring = if dr > dc { dr } else { dc };
                if ring < 3 {
                    return Err("Pro rule: 3rd move must be ≥3 intersections from center".to_string());
                }
            }
        }
        if !self.board.is_empty(pos) {
            return Err("Position is occupied".to_string());
        }
        if is_double_three(&self.board, pos, self.current_turn) {
            return Err("Forbidden: Double-three".to_string());
        }
        if !is_valid_move(&self.board, pos, self.current_turn) {
            return Err("Invalid move".to_string());
        }
        self.redo_groups.clear();
        self.execute_move(pos);
        Ok(())
    }

    /// `next` is this state after an undo: the last `undo_count` moves
    /// taken back into a new redo group, the position rebuilt from the moves
    /// kept, the turn and last move those moves give, no result, no review.
    pub open spec fn undone(self, next: GameState) -> bool {
        let h = self.move_history@;
        let keep = h.len() - self.undo_count();
        &&& next.move_history@ == h.take(keep)
        &&& next.redo_groups@.len() == self.redo_groups@.len() + 1
        &&& next.redo_groups@.drop_last() == self.redo_groups@
        &&& next.redo_groups@.last()@ == h.subrange(keep, h.len() as int)
        &&& next.current_turn == if keep == 0 {
            Stone::Black
        } else {
            opp(h[keep - 1].1)
        }
        &&& next.last_move == if keep == 0 {
            None
        } else {
            Some(h[keep - 1].0)
        }
        &&& next.game_over.is_none()
        &&& next.review_index.is_none()
        &&& next.suggested_move.is_none()
        &&& next.capture_animation.is_none()
        &&& next.move_timer.start_time.is_some()
        &&& next.mode == self.mode
        &&& next.opening_rule == self.opening_rule
        &&& next.ai_engine == self.ai_engine
        &&& next.ai_state == self.ai_state
    }

    /// `next` is this state after a redo: the last redo group popped and its
    /// moves played, each for the side then to move, until the group is done
    /// or the game ends; review ends.
    pub open spec fn redone(self, next: GameState) -> bool {
        let g = self.redo_groups@.last()@;
        let h = self.move_history@;
        &&& next.redo_groups@ == self.redo_groups@.drop_last()
        &&& next.review_index.is_none()
        &&& h.len() <= next.move_history@.len() <= h.len() + g.len()
        &&& next.move_history@.take(h.len() as int) == h
        &&& forall|k: int|
            h.len() <= k < next.move_history@.len() ==> (#[trigger] next.move_history@[k]).0 == g[k
                - h.len()].0
        &&& next.move_history@.len() > h.len() ==> next.move_history@[h.len() as int].1
            == self.current_turn
        &&& next.move_history@.len() < h.len() + g.len() ==> next.game_over.is_some()
        &&& next.move_history@.len() == h.len() ==> next.game_over == self.game_over
        &&& self.game_over.is_some() ==> next.move_history@ == h
        &&& next.move_history@.len() > h.len() ==> {
            let last = next.move_history@.last();
            &&& next.last_move == Some(last.0)
            &&& (next.game_over is Some <==> win_check(next.board, last.0, last.1) is Some)
            &&& next.current_turn == if next.game_over is Some {
                last.1
            } else {
                opp(last.1)
            }
            &&& forall|k: int|
                h.len() <= k < next.move_history@.len() - 1 ==> (#[trigger] next.move_history@[k + 1]).1
                    == opp(next.move_history@[k].1)
        }
        &&& next.mode == self.mode
        &&& next.opening_rule == self.opening_rule
        &&& next.ai_engine == self.ai_engine
    }

    /// Moves taken back by one undo: in PvE the human's and the AI's (when
    /// there are two), otherwise one.
    pub open spec fn undo_count(self) -> int {
        if self.mode is PvE && self.move_history@.len() >= 2 {
            2
        } else {
            1
        }
    }

    /// Undo the last move (in PvE the last two). The undone moves become a
    /// redo group, review mode ends, and the position is rebuilt by
    /// replaying the moves kept.
    pub fn undo(&mut self)
        requires
            old(self).wf(),
        ensures
            final(self).wf(),
            old(self).move_history@.len() == 0 || old(self).thinking() ==> *final(self) == *old(
                self,
            ),
            !(old(self).move_history@.len() == 0 || old(self).thinking()) ==> old(self).undone(
                *final(self),
            ),
    {
        if self.move_history.len() == 0 || self.is_ai_thinking() {
            return;
        }
        self.review_index = None;
        let n = self.move_history.len();
        let undo_count: usize = match self.mode {
            GameMode::PvE { .. } => if n >= 2 {
                2
            } else {
                1
            },
            _ => 1,
        };
        let keep = n - undo_count;
        let mut redo_moves: Vec<(Pos, Stone)> = Vec::new();
        let mut i: usize = keep;
        while i < n
            invariant
                keep <= i <= n,
                n == self.move_history.len(),
                redo_moves@ == self.move_history@.subrange(keep as int, i as int),
            decreases n - i,
        {
            redo_moves.push(self.move_history[i]);
            proof {
                assert(redo_moves@ =~= self.move_history@.subrange(keep as int, i + 1));
            }
            i = i + 1;
        }
        let ghost g0 = self.redo_groups@;
        self.redo_groups.push(redo_moves);
        let (board, last, turn) = replay(&self.move_history, keep);
        self.move_history.truncate(keep);
        self.board = board;
        self.current_turn = turn;
        self.game_over = None;
        self.last_move = last;
        self.suggested_move = None;
        self.capture_animation = None;
        self.move_timer.start();
        proof {
            assert(self.redo_groups@.drop_last() =~= g0);
            assert forall|g: int| 0 <= g < self.redo_groups.len() implies moves_ok(
                #[trigger] self.redo_groups[g]@,
            ) by {
                if g < g0.len() {
                    assert(self.redo_groups[g] == g0[g]);
                }
            }
        }
    }

    /// Redo the last undone group of moves, each played for the side to move
    /// in turn, until the group is done or the game ends. Review mode ends.
    pub fn redo(&mut self)
        requires
            old(self).wf(),
        ensures
            final(self).wf(),
            old(self).redo_groups@.len() == 0 || old(self).thinking() ==> *final(self) == *old(
                self,
            ),
            !(old(self).redo_groups@.len() == 0 || old(self).thinking()) ==> old(self).redone(
                *final(self),
            ),
    {
        if self.redo_groups.len() == 0 || self.is_ai_thinking() {
            return;
        }
        self.review_index = None;
        let ghost h = self.move_history@;
        let moves = match self.redo_groups.pop() {
            Some(m) => m,
            None => {
                return;
            },
        };
        proof {
            assert(moves_ok(moves@)) by {
                assert(old(self).redo_groups[old(self).redo_groups.len() - 1] == moves);
            }
        }
        let mut i: usize = 0;
        while i < moves.len()
            invariant
                0 <= i <= moves.len(),
                self.wf(),
                moves_ok(moves@),
                self.redo_groups@ == old(self).redo_groups@.drop_last(),
                self.review_index.is_none(),
                self.move_history@.len() == h.len() + i,
                self.move_history@.take(h.len() as int) == h,
                forall|k: int|
                    h.len() <= k < self.move_history@.len() ==> (
                    #[trigger] self.move_history@[k]).0 == moves@[k - h.len()].0,
                h == old(self).move_history@,
                moves@ == old(self).redo_groups@.last()@,
                old(self).game_over.is_some() ==> self.game_over.is_some() && i == 0,
                i == 0 ==> self.game_over == old(self).game_over && self.current_turn == old(
                    self,
                ).current_turn,
                i > 0 ==> self.move_history@[h.len() as int].1 == old(self).current_turn,
                i > 0 ==> {
                    let last = self.move_history@.last();
                    &&& self.last_move == Some(last.0)
                    &&& (self.game_over is Some <==> win_check(self.board, last.0, last.1) is Some)
                    &&& self.current_turn == if self.game_over is Some {
                        last.1
                    } else {
                        opp(last.1)
                    }
                    &&& forall|k: int|
                        h.len() <= k < self.move_history@.len() - 1 ==> (#[trigger] self.move_history@[k + 1]).1
                            == opp(self.move_history@[k].1)
                },
                self.mode == old(self).mode,
                self.opening_rule == old(self).opening_rule,
                self.ai_engine == old(self).ai_engine,
            ensures
                i == moves.len() || self.game_over.is_some(),
            decreases moves.len() - i,
        {
            if self.game_over.is_some() {
                break;
            }
            let (pos, _color) = moves[i];
            let ghost before = self.move_history@;
            let ghost turn = self.current_turn;
            self.execute_move(pos);
            proof {
                assert(self.move_history@.take(h.len() as int) =~= before.take(h.len() as int));
                assert(self.move_history@.last() == (pos, turn));
                assert forall|k: int|
                    h.len() <= k < self.move_history@.len() - 1 implies (#[trigger] self.move_history@[k + 1]).1
                        == opp(self.move_history@[k].1) by {
                    if k + 1 < before.len() {
                        assert(self.move_history@[k + 1] == before[k + 1]);
                        assert(self.move_history@[k] == before[k]);
                    } else {
                        assert(self.move_history@[k] == before.last());
                    }
                }
            }
            i = i + 1;
        }
        proof {
            if self.move_history@.len() == h.len() {
                assert(self.move_history@ =~= self.move_history@.take(h.len() as int));
            }
        }
    }

    /// The board after the first `up_to` moves (all of them when there are
    /// fewer), and the last of those moves.
    pub fn build_review_board(&self, up_to: usize) -> (r: (Board, Option<Pos>))
        requires
            self.wf(),
        ensures
            ({
                let k = if up_to < self.move_history@.len() {
                    up_to as int
                } else {
                    self.move_history@.len() as int
                };
                &&& replayed(self.move_history@.take(k), r.0)
                &&& r.1 == if k == 0 {
                    None
                } else {
                    Some(self.move_history@[k - 1].0)
                }
            }),
    {
        let k = if up_to < self.move_history.len() {
            up_to
        } else {
            self.move_history.len()
        };
        let (board, last, _turn) = replay(&self.move_history, k);
        (board, last)
    }

    /// Step back in review mode (once the game is over).
    pub fn review_prev(&mut self)
        ensures
            old(self).review_back(*final(self)),
    {
        if self.game_over.is_none() {
            return;
        }
        let current = match self.review_index {
            Some(i) => i,
            None => self.move_history.len(),
        };
        if current > 0 {
            self.review_index = Some(current - 1);
        }
    }

    /// Step forward in review mode; past the last move, review ends.
    pub fn review_next(&mut self)
        ensures
            old(self).review_forward(*final(self)),
    {
        if self.game_over.is_none() {
            return;
        }
        match self.review_index {
            Some(idx) => {
                if idx < self.move_history.len() {
                    let next = idx + 1;
                    if next >= self.move_history.len() {
                        self.review_index = None;
                    } else {
                        self.review_index = Some(next);
                    }
                }
            },
            None => {},
        }
    }

    /// Everything but the review position is the same in both states.
    /// `next` is this state after one step back in the review of a finished
    /// game (from the end when not reviewing); nothing but the review index
    /// changes, and nothing at all before the game is over.
    pub open spec fn review_back(self, next: GameState) -> bool {
        &&& next.same_play_but_review(self)
        &&& next.review_index == if self.game_over.is_none() {
            self.review_index
        } else {
            let current = match self.review_index {
                Some(i) => i as int,
                None => self.move_history@.len() as int,
            };
            if current > 0 {
                Some((current - 1) as usize)
            } else {
                self.review_index
            }
        }
    }

    /// `next` is this state after one step forward in the review of a
    /// finished game; stepping past the last move leaves review mode.
    pub open spec fn review_forward(self, next: GameState) -> bool {
        &&& next.same_play_but_review(self)
        &&& next.review_index == if self.game_over.is_none() {
            self.review_index
        } else {
            match self.review_index {
                Some(i) => if i < self.move_history@.len() {
                    if i + 1 >= self.move_history@.len() {
                        None
                    } else {
                        Some((i + 1) as usize)
                    }
                } else {
                    Some(i)
                },
                None => None,
            }
        }
    }

    pub open spec fn same_play_but_review(self, other: GameState) -> bool {
        &&& self.board == other.board
        &&& self.current_turn == other.current_turn
        &&& self.game_over == other.game_over
        &&& self.last_move == other.last_move
        &&& self.move_history@ == other.move_history@
        &&& self.redo_groups@ == other.redo_groups@
        &&& self.opening_rule == other.opening_rule
        &&& self.mode == other.mode
        &&& self.message == other.message
        &&& self.ai_engine == other.ai_engine
    }

    /// Validate an AI move against the pro rule: returns the move, or the
    /// cell the rule moves it to.
    pub fn validate_pro_rule_ai_move(&self, pos: Pos) -> (r: Pos)
        requires
            pos.valid(),
        ensures
            r.valid(),
            r == pro_fix(self.board, self.opening_rule, self.move_history@.len() as int, pos),
    {
        if self.opening_rule != OpeningRule::Pro {
            return pos;
        }
        if self.move_history.len() == 0 {
            return Pos::new(9, 9);
        }
        if self.move_history.len() == 2 {
            let dr: u8 = if pos.row >= 9 { pos.row - 9 } else { 9 - pos.row };
            let dc: u8 = if pos.col >= 9 { pos.col - 9 } else { 9 - pos.col };
            let ring = if dr > dc { dr } else { dc };
            if ring < 3 {
                let mut best: Option<Pos> = None;
                let mut best_dist: i32 = i32::MAX;
                let mut i: usize = 0;
                while i < 361
                    invariant
                        0 <= i <= 361,
                        pos.valid(),
                        best is None ==> best_dist == i32::MAX && forall|q: Pos| #[trigger] pro_cell(self.board, q) ==> q.idx() >= i,
                        best matches Some(b) ==> {
                            &&& pro_cell(self.board, b)
                            &&& b.idx() < i
                            &&& best_dist == manhattan(b, pos)
                            &&& forall|q: Pos| #[trigger] pro_cell(self.board, q) && q.idx() < i ==> best_dist <= manhattan(q, pos)
                            &&& forall|q: Pos| #[trigger] pro_cell(self.board, q) && q.idx() < b.idx() ==> best_dist < manhattan(q, pos)
                        },
                    decreases 361 - i,
                {
                    let p = Pos::from_index(i);
                    let pr: u8 = if p.row >= 9 { p.row - 9 } else { 9 - p.row };
                    let pc: u8 = if p.col >= 9 { p.col - 9 } else { 9 - p.col };
                    let pring = if pr > pc { pr } else { pc };
                    let ghost prev_best = best;
                    if self.board.is_empty(p) && pring >= 3 {
                        let ddr: i32 = if p.row >= pos.row { (p.row - pos.row) as i32 } else { (pos.row - p.row) as i32 };
                        let ddc: i32 = if p.col >= pos.col { (p.col - pos.col) as i32 } else { (pos.col - p.col) as i32 };
                        let dist = ddr + ddc;
                        if dist < best_dist {
                            best_dist = dist;
                            best = Some(p);
                        }
                    }
                    proof {
                        assert forall|q: Pos| #[trigger] pro_cell(self.board, q) && q.idx() == i implies q == p by {
                            lemma_idx_injective(q, p);
                        }
                    }
                    i = i + 1;
                }
                match best {
                    Some(alt) => {
                        proof {
                            assert(nearest_pro(self.board, pos, alt)) by {
                                assert forall|q: Pos| #[trigger] pro_cell(self.board, q) implies manhattan(alt, pos) <= manhattan(q, pos) by {
                                    assert(q.idx() < 361);
                                }
                            }
                            lemma_nearest_pro(self.board, pos, alt);
                        }
                        return alt;
                    },
                    None => {
                        proof {
                            assert forall|q: Pos| !#[trigger] pro_cell(self.board, q) by {
                                if pro_cell(self.board, q) {
                                    assert(q.idx() < 361);
                                }
                            }
                        }
                    },
                }
            }
        }
        pos
    }

    /// A quick move for when the AI runs out of time.
    pub fn find_fallback_move(&self) -> (r: Option<Pos>)
        ensures
            r == fallback_spec(self.board, self.current_turn, self.last_move),
            r matches Some(p) ==> p.valid(),
    {
        let color = self.current_turn;
        let none = Pos::new(0, 0);
        let w = first_fallback(&self.board, color, 0, none);
        if w.is_some() {
            return w;
        }
        let b = first_fallback(&self.board, color, 1, none);
        if b.is_some() {
            return b;
        }
        match self.last_move {
            Some(last) => {
                let n = first_fallback(&self.board, color, 2, last);
                if n.is_some() {
                    return n;
                }
            },
            None => {},
        }
        first_fallback(&self.board, color, 3, none)
    }

    /// The game part of the side to move playing `pos`: the position after
    /// the move, the move recorded, and the game over or the turn passed.
    pub open spec fn core_played(self, next: GameState, pos: Pos) -> bool {
        let color = self.current_turn;
        &&& moved(self.board, pos, color, next.board)
        &&& next.move_history@ == self.move_history@.push((pos, color))
        &&& next.last_move == Some(pos)
        &&& match win_check(next.board, pos, color) {
            Some(t) => next.game_over matches Some(g) && result_is(g, t) && next.current_turn == color,
            None => next.game_over == self.game_over && next.current_turn == opp(color),
        }
    }

    /// Ask a quick engine (depth 4, 200 ms) for a move suggestion for the
    /// side to move; the suggestion and its statistics are kept.
    pub fn request_suggestion(&mut self)
        requires
            old(self).wf(),
        ensures
            final(self).wf(),
            old(self).game_over.is_some() || old(self).thinking() ==> *final(self) == *old(self),
            !(old(self).game_over.is_some() || old(self).thinking()) ==> {
                let slot = color_slot(old(self).current_turn);
                &&& final(self).same_play(*old(self))
                &&& final(self).last_ai_result[slot] matches Some(res) && res.best_move
                    == final(self).suggested_move
                &&& final(self).last_ai_result[1 - slot] == old(self).last_ai_result[1 - slot]
                &&& final(self).suggested_move matches Some(p) ==> p.valid() && match opening_spec(
                    old(self).board,
                    old(self).current_turn,
                ) {
                    Some(o) => p == o,
                    None => valid_move(old(self).board, p, old(self).current_turn),
                }
                &&& final(self).ai_engine == old(self).ai_engine
                &&& final(self).mode == old(self).mode
            },
    {
        if self.game_over.is_some() || self.is_ai_thinking() {
            return;
        }
        let color = self.current_turn;
        let mut engine = AIEngine::with_config(16, 4, 200);
        let result = engine.get_move_with_stats(&self.board, color);
        self.suggested_move = result.best_move;
        if color == Stone::Black {
            self.last_ai_result[0] = Some(result);
        } else {
            self.last_ai_result[1] = Some(result);
        }
    }

    /// Begin the AI's turn: when it is the AI's turn, the game goes on and
    /// no search is running or being reclaimed, hand out the position and
    /// the engine (a new one if the last was lost) for a search thread, and
    /// mark the AI as thinking.
    pub fn start_ai_thinking(&mut self) -> (job: Option<AiJob>)
        requires
            old(self).wf(),
        ensures
            final(self).wf(),
            !old(self).ai_turn() || old(self).thinking() || old(self).game_over.is_some() || old(
                self,
            ).ai_state is Reclaiming ==> job.is_none() && *final(self) == *old(self),
            !(!old(self).ai_turn() || old(self).thinking() || old(self).game_over.is_some() || old(
                self,
            ).ai_state is Reclaiming) ==> {
                &&& job matches Some(j) && j.board == old(self).board && j.color == old(
                    self,
                ).current_turn && j.engine.wf() && match old(self).ai_engine {
                    Some(e) => j.engine == e,
                    None => j.engine.max_depth == old(self).ai_depth && j.engine.time_limit_ms
                        == old(self).ai_time_limit_ms,
                }
                &&& final(self).ai_engine.is_none()
                &&& final(self).thinking()
                &&& final(self).same_play(*old(self))
                &&& final(self).mode == old(self).mode
            },
    {
        if !self.is_ai_turn() || self.is_ai_thinking() || self.game_over.is_some() {
            return None;
        }
        match self.ai_state {
            AiState::Reclaiming => {
                return None;
            },
            _ => {},
        }
        let engine = match self.ai_engine.take() {
            Some(e) => e,
            None => AIEngine::with_config(64, self.ai_depth, self.ai_time_limit_ms),
        };
        self.ai_state = AiState::Thinking { start_time: clock_now() };
        Some(AiJob { board: self.board, color: self.current_turn, engine })
    }

    /// Take back the engine of a search that timed out, once its thread is
    /// done; if the thread is gone without it, make a new engine.
    pub fn try_reclaim_engine(&mut self, poll: EnginePoll)
        requires
            old(self).wf(),
            poll matches EnginePoll::Returned(e) ==> e.wf(),
        ensures
            final(self).wf(),
            !(old(self).ai_state is Reclaiming) || poll is Waiting ==> *final(self) == *old(self),
            old(self).ai_state is Reclaiming && !(poll is Waiting) ==> {
                &&& final(self).ai_state is Idle
                &&& final(self).same_play(*old(self))
                &&& final(self).mode == old(self).mode
                &&& match poll {
                    EnginePoll::Returned(e) => final(self).ai_engine == Some(e),
                    _ => match old(self).ai_engine {
                        Some(e) => final(self).ai_engine == Some(e),
                        None => final(self).ai_engine matches Some(e) && e.max_depth == old(
                            self,
                        ).ai_depth && e.time_limit_ms == old(self).ai_time_limit_ms,
                    },
                }
            },
    {
        match self.ai_state {
            AiState::Reclaiming => {},
            _ => {
                return;
            },
        }
        match poll {
            EnginePoll::Waiting => {},
            EnginePoll::Returned(engine) => {
                self.ai_engine = Some(engine);
                self.ai_state = AiState::Idle;
            },
            EnginePoll::Disconnected => {
                if self.ai_engine.is_none() {
                    self.ai_engine = Some(
                        AIEngine::with_config(64, self.ai_depth, self.ai_time_limit_ms),
                    );
                }
                self.ai_state = AiState::Idle;
            },
        }
    }

    /// Act on what the front end saw of the AI thread while the AI thinks:
    /// on a timeout, keep waiting for the engine in the background and play
    /// the quick move (moved by the pro rule); on an answer, take the engine
    /// back, record the statistics and play the move (moved by the pro
    /// rule); when the thread is gone, stop thinking.
    pub fn check_ai_result(&mut self, event: AiEvent)
        requires
            old(self).wf(),
            event matches AiEvent::Finished { result, engine, .. } ==> {
                let st = old(self).ai_stats[color_slot(old(self).current_turn)];
                &&& engine.wf()
                &&& result.best_move matches Some(p) ==> p.valid()
                &&& st.move_count < u32::MAX
                &&& st.total_time_ms + result.time_ms <= u64::MAX
                &&& st.total_nodes + result.nodes <= u64::MAX
            },
        ensures
            final(self).wf(),
            !old(self).thinking() || event is Waiting ==> *final(self) == *old(self),
            old(self).thinking() ==> match event {
                AiEvent::Waiting => true,
                AiEvent::Disconnected => {
                    &&& final(self).ai_state is Idle
                    &&& final(self).message matches Some(m) && m@ == "AI error"@
                    &&& final(self).same_play(*old(self))
                },
                AiEvent::TimedOut => {
                    &&& final(self).ai_state is Reclaiming
                    &&& match fallback_spec(old(self).board, old(self).current_turn, old(self).last_move) {
                        None => final(self).same_play(*old(self)) && (final(self).message matches Some(m)
                            && m@ == "AI timeout - quick move"@),
                        Some(p) => old(self).core_played(
                            *final(self),
                            pro_fix(old(self).board, old(self).opening_rule, old(self).move_history@.len() as int, p),
                        ),
                    }
                },
                AiEvent::Finished { result, engine, elapsed } => {
                    let slot = color_slot(old(self).current_turn);
                    &&& final(self).ai_state is Idle
                    &&& final(self).ai_engine == Some(engine)
                    &&& final(self).last_ai_result[slot] == Some(result)
                    &&& final(self).ai_stats[slot].move_times@ == old(self).ai_stats[slot].move_times@.push(result.time_ms)
                    &&& final(self).ai_stats[slot].move_count == old(self).ai_stats[slot].move_count + 1
                    &&& final(self).move_timer.ai_thinking_time == Some(elapsed)
                    &&& match result.best_move {
                        None => final(self).same_play(*old(self)) && (final(self).message matches Some(m)
                            && m@ == "AI could not find a move"@),
                        Some(p) => old(self).core_played(
                            *final(self),
                            pro_fix(old(self).board, old(self).opening_rule, old(self).move_history@.len() as int, p),
                        ),
                    }
                },
            },
    {
        match self.ai_state {
            AiState::Thinking { .. } => {},
            _ => {
                return;
            },
        }
        match event {
            AiEvent::Waiting => {},
            AiEvent::TimedOut => {
                self.ai_state = AiState::Reclaiming;
                self.message = Some("AI timeout - quick move".to_string());
                match self.find_fallback_move() {
                    Some(fallback) => {
                        let fallback = self.validate_pro_rule_ai_move(fallback);
                        self.execute_move(fallback);
                    },
                    None => {},
                }
            },
            AiEvent::Disconnected => {
                self.ai_state = AiState::Idle;
                self.message = Some("AI error".to_string());
            },
            AiEvent::Finished { result, engine, elapsed } => {
                self.ai_state = AiState::Idle;
                self.ai_engine = Some(engine);
                if self.current_turn == Stone::Black {
                    self.ai_stats[0].record(&result);
                } else {
                    self.ai_stats[1].record(&result);
                }
                let best = result.best_move;
                if self.current_turn == Stone::Black {
                    self.last_ai_result[0] = Some(result);
                } else {
                    self.last_ai_result[1] = Some(result);
                }
                self.move_timer.set_ai_time(elapsed);
                match best {
                    Some(pos) => {
                        let pos = self.validate_pro_rule_ai_move(pos);
                        self.execute_move(pos);
                    },
                    None => {
                        self.message = Some("AI could not find a move".to_string());
                    },
                }
            },
        }
    }
}

} // verus!
