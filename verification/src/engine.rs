//! The AI engine: opening book, immediate wins, forced blocks, VCF in both
//! directions, then time-managed alpha-beta search.
use crate::board::{on_board, opp, Bitboard, Board, Pos, Stone, TOTAL_CELLS};
use crate::rules::capture::{captured_list, removal_applied, seq_has_cell};
use crate::rules::forbidden::{is_valid_move, valid_move};
use crate::rules::win::{
    breakable, can_break_five_by_capture, find_five_positions, find_five_spec, has_five_at_pos,
    line_count,
};
use crate::rules::{lemma_pos_of, pos_of};
use crate::search::alphabeta::{
    clock_now, elapsed_ms, picks_best, play, root_candidate, root_record, SearchResult, Searcher,
};
use crate::search::threat::{sat_nodes, vcf_from, vcf_nodes, ThreatSearcher};
use crate::search::tt::TTStats;
use vstd::prelude::*;

verus! {

/// Column letter of a board column: A..H, then J.. (no I).
pub open spec fn col_letter(col: u8) -> u8 {
    if col < 8 {
        (65 + col) as u8
    } else {
        (66 + col) as u8
    }
}

/// Decimal digits of a number, without leading zeros.
pub open spec fn decimal(n: u8) -> Seq<char> {
    if n < 10 {
        seq![(48 + n) as char]
    } else if n < 100 {
        seq![(48 + n / 10) as char, (48 + n % 10) as char]
    } else {
        seq![(48 + n / 100) as char, (48 + (n / 10) % 10) as char, (48 + n % 10) as char]
    }
}

/// Notation of a position: column letter, then row number from 1.
pub open spec fn notation(pos: Pos) -> Seq<char> {
    seq![col_letter(pos.col) as char] + decimal((pos.row + 1) as u8)
}

/// `format!("{}{}", letter as char, number)`: the letter, then the decimal
/// digits of the number.
#[verifier::external_body]
fn render_notation(letter: u8, number: u8) -> (s: String)
    ensures
        s@ == seq![letter as char] + decimal(number),
{
    format!("{}{}", letter as char, number)
}

/// Format a position in human-readable notation (e.g. "J10"): columns A..T
/// without I, rows counted from 1 (positions off the board are formatted the
/// same way, as long as the letter and the number fit in a byte).
pub fn pos_to_notation(pos: Pos) -> (s: String)
    requires
        pos.col <= 189,
        pos.row < 255,
    ensures
        s@ == notation(pos),
{
    let letter: u8 = if pos.col < 8 { 65 + pos.col } else { 66 + pos.col };
    render_notation(letter, pos.row + 1)
}

/// Which stage of the engine produced the move.
#[derive(Debug, Clone, Copy, PartialEq, Eq, Structural)]
pub enum SearchType {
    /// Immediate winning move (five or capture win).
    ImmediateWin,
    /// Forced win by continuous fours.
    VCF,
    /// Forced win by continuous threats.
    VCT,
    /// Block of an opponent's threat.
    Defense,
    /// Alpha-beta search (or the opening book).
    AlphaBeta,
}

/// Result of a move search with statistics.
#[derive(Debug, Clone)]
pub struct MoveResult {
    /// Best move found, if any.
    pub best_move: Option<Pos>,
    /// Evaluation score.
    pub score: i32,
    /// Stage that found the move.
    pub search_type: SearchType,
    /// Time taken in milliseconds.
    pub time_ms: u64,
    /// Nodes searched.
    pub nodes: u64,
    /// Depth reached.
    pub depth: i8,
    /// Transposition table usage (0-100).
    pub tt_usage: u8,
    /// Thousands of nodes per second.
    pub nps: u64,
}

/// A result of the alpha-beta stage against the scored root moves `rec` of
/// the iteration it reports: the best of them, and at least one of them
/// when the position has a candidate move.
pub open spec fn searched_move(board: Board, color: Stone, r: MoveResult, rec: Seq<(Pos, i32)>) -> bool {
    &&& r.depth != 0 ==> root_record(board, color, rec) && picks_best(rec, r.best_move, r.score)
    &&& r.depth != 0 && (exists|p: Pos| #[trigger] root_candidate(board, color, p)) ==> rec.len() > 0
}

/// Thousands of nodes per second.
pub open spec fn nps_spec(nodes: u64, time_ms: u64) -> int {
    if time_ms == 0 {
        0
    } else {
        (nodes * 1000 / time_ms as int) / 1000
    }
}

impl MoveResult {
    /// Thousands of nodes per second (0 when no time elapsed).
    pub fn compute_nps(nodes: u64, time_ms: u64) -> (n: u64)
        ensures
            n == nps_spec(nodes, time_ms),
    {
        if time_ms == 0 {
            0
        } else {
            let scaled = nodes as u128 * 1000;
            let per_ms = scaled / time_ms as u128;
            assert(per_ms <= nodes as int * 1000);
            (per_ms / 1000) as u64
        }
    }

    /// An immediate win.
    pub fn immediate_win(pos: Pos, time_ms: u64) -> (r: MoveResult)
        ensures
            r.best_move == Some(pos),
            r.score == 1_000_000,
            r.search_type == SearchType::ImmediateWin,
            r.time_ms == time_ms,
            r.nodes == 1,
            r.depth == 0,
    {
        MoveResult {
            best_move: Some(pos),
            score: 1_000_000,
            search_type: SearchType::ImmediateWin,
            time_ms,
            nodes: 1,
            depth: 0,
            tt_usage: 0,
            nps: 0,
        }
    }

    /// A forced win by continuous fours.
    pub fn vcf_win(pos: Pos, time_ms: u64, nodes: u64) -> (r: MoveResult)
        ensures
            r.best_move == Some(pos),
            r.score == 900_000,
            r.search_type == SearchType::VCF,
            r.time_ms == time_ms,
            r.nodes == nodes,
            r.nps == nps_spec(nodes, time_ms),
    {
        MoveResult {
            best_move: Some(pos),
            score: 900_000,
            search_type: SearchType::VCF,
            time_ms,
            nodes,
            depth: 0,
            tt_usage: 0,
            nps: Self::compute_nps(nodes, time_ms),
        }
    }

    /// A forced win by continuous threats.
    pub fn vct_win(pos: Pos, time_ms: u64, nodes: u64) -> (r: MoveResult)
        ensures
            r.best_move == Some(pos),
            r.score == 800_000,
            r.search_type == SearchType::VCT,
            r.time_ms == time_ms,
            r.nodes == nodes,
            r.nps == nps_spec(nodes, time_ms),
    {
        MoveResult {
            best_move: Some(pos),
            score: 800_000,
            search_type: SearchType::VCT,
            time_ms,
            nodes,
            depth: 0,
            tt_usage: 0,
            nps: Self::compute_nps(nodes, time_ms),
        }
    }

    /// A defensive move.
    pub fn defense(pos: Pos, score: i32, time_ms: u64, nodes: u64) -> (r: MoveResult)
        ensures
            r.best_move == Some(pos),
            r.score == score,
            r.search_type == SearchType::Defense,
            r.time_ms == time_ms,
            r.nodes == nodes,
    {
        MoveResult {
            best_move: Some(pos),
            score,
            search_type: SearchType::Defense,
            time_ms,
            nodes,
            depth: 0,
            tt_usage: 0,
            nps: 0,
        }
    }

    /// The result of an alpha-beta search.
    pub fn from_alphabeta(result: SearchResult, time_ms: u64, tt_usage: u8) -> (r: MoveResult)
        ensures
            r.best_move == result.best_move,
            r.score == result.score,
            r.search_type == SearchType::AlphaBeta,
            r.time_ms == time_ms,
            r.nodes == result.nodes,
            r.depth == result.depth,
            r.tt_usage == tt_usage,
            r.nps == nps_spec(result.nodes, time_ms),
    {
        MoveResult {
            best_move: result.best_move,
            score: result.score,
            search_type: SearchType::AlphaBeta,
            time_ms,
            nodes: result.nodes,
            depth: result.depth,
            tt_usage,
            nps: Self::compute_nps(result.nodes, time_ms),
        }
    }

    /// A quick alpha-beta-type result (opening book).
    pub fn alpha_beta(pos: Pos, score: i32, time_ms: u64, nodes: u64) -> (r: MoveResult)
        ensures
            r.best_move == Some(pos),
            r.score == score,
            r.search_type == SearchType::AlphaBeta,
            r.time_ms == time_ms,
            r.nodes == nodes,
            r.depth == 0,
    {
        MoveResult {
            best_move: Some(pos),
            score,
            search_type: SearchType::AlphaBeta,
            time_ms,
            nodes,
            depth: 0,
            tt_usage: 0,
            nps: 0,
        }
    }

    /// No move found.
    pub fn no_move(time_ms: u64) -> (r: MoveResult)
        ensures
            r.best_move.is_none(),
            r.score == 0,
            r.search_type == SearchType::AlphaBeta,
            r.time_ms == time_ms,
            r.nodes == 0,
    {
        MoveResult {
            best_move: None,
            score: 0,
            search_type: SearchType::AlphaBeta,
            time_ms,
            nodes: 0,
            depth: 0,
            tt_usage: 0,
            nps: 0,
        }
    }
}

/// `m` is `b` with a stone of `color` placed at `p` (captures not yet made).
pub open spec fn placed(b: Board, p: Pos, color: Stone, m: Board) -> bool {
    &&& forall|i: int| #[trigger] m.black.has(i) == (b.black.has(i) || (color == Stone::Black && i == p.idx()))
    &&& forall|i: int| #[trigger] m.white.has(i) == (b.white.has(i) || (color == Stone::White && i == p.idx()))
    &&& m.black_captures == b.black_captures
    &&& m.white_captures == b.white_captures
}

/// `a` is the position after `color` plays `p` on `b`: the stone placed and
/// the captured pairs removed and credited.
pub open spec fn moved(b: Board, p: Pos, color: Stone, a: Board) -> bool {
    exists|m: Board| #[trigger] placed(b, p, color, m) && removal_applied(m, a, color, captured_list(m, p, color), (captured_list(m, p, color).len() / 2) as int)
}

/// `p` is a legal move for `color` that wins at once.
pub open spec fn winning_move(b: Board, p: Pos, color: Stone) -> bool {
    p.valid() && valid_move(b, p, color) && immediate_win_at(b, p, color)
}

/// What a move does to the cells: the stone played stands on its cell, no
/// stone of the player who moves is taken (a stone placed between two of the
/// opponent's is safe), no other stone appears, and each stone of the
/// opponent either stays or is captured and leaves its cell empty.
pub proof fn law_move_spares_mover(b: Board, p: Pos, color: Stone, a: Board)
    requires
        b.wf(),
        p.valid(),
        color == Stone::Black || color == Stone::White,
        b.cell(p.idx()) == Stone::Empty,
        moved(b, p, color, a),
    ensures
        a.cell(p.idx()) == color,
        forall|i: int| b.cell(i) == color ==> #[trigger] a.cell(i) == color,
        forall|i: int| i != p.idx() && b.cell(i) == Stone::Empty ==> #[trigger] a.cell(i) == Stone::Empty,
        forall|i: int|
            b.cell(i) == opp(color) ==> #[trigger] a.cell(i) == opp(color) || a.cell(i) == Stone::Empty,
{
    let m = choose|m: Board| #[trigger]
        placed(b, p, color, m) && removal_applied(
            m,
            a,
            color,
            captured_list(m, p, color),
            (captured_list(m, p, color).len() / 2) as int,
        );
    let list = captured_list(m, p, color);
    crate::rules::capture::lemma_captured_upto(m, p, color, 8);
    assert forall|i: int| m.cell(i) == color implies !seq_has_cell(list, i) by {
        if seq_has_cell(list, i) {
            let k = choose|k: int| 0 <= k < list.len() && (#[trigger] list[k]).idx() == i;
            assert(m.cell(list[k].idx()) == opp(color));
        }
    }
    assert(m.cell(p.idx()) == color);
    assert forall|i: int| b.cell(i) == color implies #[trigger] a.cell(i) == color by {
        assert(m.cell(i) == color);
    }
    assert forall|i: int| i != p.idx() && b.cell(i) == Stone::Empty implies #[trigger] a.cell(i) == Stone::Empty by {
        assert(m.cell(i) == Stone::Empty);
    }
    assert forall|i: int| b.cell(i) == opp(color) implies #[trigger] a.cell(i) == opp(color) || a.cell(i) == Stone::Empty by {
        assert(!b.black.has(i) || !b.white.has(i));
    }
}

/// The opponent of `color` has exactly one winning move, and it is a legal
/// move of `color`.
pub open spec fn lone_block(b: Board, color: Stone) -> bool {
    exists|p: Pos|
        #[trigger] winning_move(b, p, opp(color)) && (forall|q: Pos| #[trigger] winning_move(b, q, opp(color)) ==> q == p)
            && valid_move(b, p, color)
}

/// A move has one outcome: two boards that both follow from `b` by `color`
/// playing `p` are the same board.
pub proof fn lemma_moved_unique(b: Board, p: Pos, color: Stone, a1: Board, a2: Board)
    requires
        moved(b, p, color, a1),
        moved(b, p, color, a2),
    ensures
        a1 == a2,
{
    let m1 = choose|m: Board| #[trigger] placed(b, p, color, m) && removal_applied(m, a1, color, captured_list(m, p, color), (captured_list(m, p, color).len() / 2) as int);
    let m2 = choose|m: Board| #[trigger] placed(b, p, color, m) && removal_applied(m, a2, color, captured_list(m, p, color), (captured_list(m, p, color).len() / 2) as int);
    assert(m1.same_position(m2));
    Board::lemma_ext(m1, m2);
    assert(a1.same_position(a2));
    Board::lemma_ext(a1, a2);
}

/// After the move at `p`, `color` has won: a five through `p` whose first
/// five on the board cannot be broken by a capture, or (with `near_cap`) a
/// fifth captured pair.
pub open spec fn wins_after(a: Board, p: Pos, color: Stone, near_cap: bool) -> bool {
    ||| (exists|j: int| 0 <= j < 4 && #[trigger] line_count(a, p, color, j) >= 5) && (find_five_spec(a, color) matches Some(five) && !breakable(a, five, color))
    ||| near_cap && a.caps(color) >= 5
}

/// Playing `p` wins at once for `color`.
pub open spec fn immediate_win_at(b: Board, p: Pos, color: Stone) -> bool {
    exists|a: Board| #[trigger] moved(b, p, color, a) && wins_after(a, p, color, b.caps(color) >= 4)
}

/// Row step of the `k`-th diagonal neighbour: (-1,-1), (-1,1), (1,-1), (1,1).
pub open spec fn diag_dr(k: int) -> int {
    if k < 2 {
        -1
    } else {
        1
    }
}

/// Column step of the `k`-th diagonal neighbour.
pub open spec fn diag_dc(k: int) -> int {
    if k % 2 == 0 {
        -1
    } else {
        1
    }
}

/// Manhattan distance from the center.
pub open spec fn center_dist(r: int, c: int) -> int {
    (if r >= 9 {
        r - 9
    } else {
        9 - r
    }) + (if c >= 9 {
        c - 9
    } else {
        9 - c
    })
}

/// The on-board diagonal neighbour of `q` nearest the center among the first
/// `n` (the first one on ties).
pub open spec fn best_diag(q: Pos, n: int) -> Option<Pos>
    decreases n,
{
    if n <= 0 {
        None
    } else {
        let prev = best_diag(q, n - 1);
        let r = q.row + diag_dr(n - 1);
        let c = q.col + diag_dc(n - 1);
        if on_board(r, c) && (prev matches Some(b) ==> center_dist(r, c) < center_dist(b.row as int, b.col as int)) {
            Some(pos_of(r, c))
        } else {
            prev
        }
    }
}

/// The `k`-th diagonal neighbour of `q` lies on the board.
pub open spec fn diag_on_board(q: Pos, k: int) -> bool {
    on_board(q.row + diag_dr(k), q.col + diag_dc(k))
}

/// `best_diag` keeps an on-board diagonal neighbour, one nearest the center
/// among the first `n`, and finds one whenever one of them is on the board.
proof fn lemma_best_diag(q: Pos, n: int)
    requires
        0 <= n <= 4,
    ensures
        best_diag(q, n) matches Some(p) ==> exists|k: int|
            0 <= k < n && #[trigger] diag_on_board(q, k) && p.row == q.row + diag_dr(k) && p.col == q.col
                + diag_dc(k),
        best_diag(q, n) matches Some(p) ==> forall|k: int|
            0 <= k < n && #[trigger] diag_on_board(q, k) ==> center_dist(p.row as int, p.col as int)
                <= center_dist(q.row + diag_dr(k), q.col + diag_dc(k)),
        (exists|k: int| 0 <= k < n && #[trigger] diag_on_board(q, k)) ==> best_diag(q, n) is Some,
    decreases n,
{
    if n > 0 {
        lemma_best_diag(q, n - 1);
        let r = q.row + diag_dr(n - 1);
        let c = q.col + diag_dc(n - 1);
        if on_board(r, c) {
            lemma_pos_of(r, c);
            assert(diag_on_board(q, n - 1));
        }
    }
}

/// Positions of the set bits below `n` include every set bit below `n`.
proof fn lemma_ones_has(bb: Bitboard, i: int, n: int)
    requires
        0 <= i < n,
        bb.has(i),
    ensures
        exists|k: int|
            0 <= k < bb.ones_upto(n).len() && #[trigger] bb.ones_upto(n)[k] == (Pos {
                row: (i / 19) as u8,
                col: (i % 19) as u8,
            }),
    decreases n,
{
    if i < n - 1 {
        lemma_ones_has(bb, i, n - 1);
        let k = choose|k: int|
            0 <= k < bb.ones_upto(n - 1).len() && #[trigger] bb.ones_upto(n - 1)[k] == (Pos {
                row: (i / 19) as u8,
                col: (i % 19) as u8,
            });
        assert(bb.ones_upto(n)[k] == bb.ones_upto(n - 1)[k]);
        assert(0 <= k < bb.ones_upto(n).len());
    } else {
        assert(bb.has(n - 1));
        assert(bb.ones_upto(n)[bb.ones_upto(n - 1).len() as int] == (Pos {
            row: (i / 19) as u8,
            col: (i % 19) as u8,
        }));
    }
}

/// Second move of the opening book: with only one stone on the board, the
/// opponent's, the book answers a diagonal neighbour of it that is nearest
/// the center among its on-board diagonal neighbours.
pub proof fn law_second_move_nearest_center(b: Board, color: Stone, s: Pos)
    requires
        color == Stone::Black || color == Stone::White,
        s.valid(),
        b.black.within_board(),
        b.white.within_board(),
        b.black.popcount() + b.white.popcount() == 1,
        (if opp(color) == Stone::Black {
            b.black
        } else {
            b.white
        }).has(s.idx()),
    ensures
        opening_spec(b, color) matches Some(p) && (exists|k: int|
            0 <= k < 4 && #[trigger] diag_on_board(s, k) && p.row == s.row + diag_dr(k) && p.col == s.col
                + diag_dc(k)) && forall|k: int|
            0 <= k < 4 && #[trigger] diag_on_board(s, k) ==> center_dist(p.row as int, p.col as int)
                <= center_dist(s.row + diag_dr(k), s.col + diag_dc(k)),
{
    let bits = if opp(color) == Stone::Black {
        b.black
    } else {
        b.white
    };
    lemma_ones_has(bits, s.idx(), 361);
    Bitboard::lemma_ones_count(bits);
    assert(bits.ones().len() == 1);
    assert(bits.ones()[0] == s);
    lemma_best_diag(s, 4);
    if s.row >= 1 && s.col >= 1 {
        assert(diag_on_board(s, 0));
    } else if s.row >= 1 {
        assert(diag_on_board(s, 1));
    } else if s.col >= 1 {
        assert(diag_on_board(s, 2));
    } else {
        assert(diag_on_board(s, 3));
    }
}

/// The opening book: the center on an empty board; with a single stone of
/// the opponent, the diagonal neighbour of it nearest the center.
pub open spec fn opening_spec(b: Board, color: Stone) -> Option<Pos> {
    if b.black.popcount() + b.white.popcount() == 0 {
        Some(Pos { row: 9, col: 9 })
    } else if b.black.popcount() + b.white.popcount() == 1 && opp(color) != Stone::Empty {
        let bits = if opp(color) == Stone::Black {
            b.black
        } else {
            b.white
        };
        if bits.ones().len() > 0 {
            best_diag(bits.ones()[0], 4)
        } else {
            None
        }
    } else {
        None
    }
}

/// Main AI engine.
pub struct AIEngine {
    /// Alpha-beta searcher with its transposition table.
    pub searcher: Searcher,
    /// VCF/VCT threat searcher.
    pub threat_searcher: ThreatSearcher,
    /// Maximum alpha-beta depth.
    pub max_depth: i8,
    /// Time limit per move, in milliseconds.
    pub time_limit_ms: u64,
}

impl AIEngine {
    /// The searcher's tables are well formed.
    pub open spec fn wf(self) -> bool {
        self.searcher.wf()
    }

    /// Engine with a 64 MB table, depth 20 and 500 ms per move.
    pub fn new() -> (e: AIEngine)
        ensures
            e.wf(),
            e.max_depth == 20,
            e.time_limit_ms == 500,
            e.threat_searcher.max_vcf_depth == 30,
            e.threat_searcher.max_vct_depth == 12,
    {
        AIEngine {
            searcher: Searcher::new(64),
            threat_searcher: ThreatSearcher::with_depths(30, 12),
            max_depth: 20,
            time_limit_ms: 500,
        }
    }

    /// Engine with a custom table size, depth and time limit.
    pub fn with_config(tt_size_mb: usize, max_depth: i8, time_limit_ms: u64) -> (e: AIEngine)
        requires
            tt_size_mb * 1024 * 1024 <= usize::MAX,
        ensures
            e.wf(),
            e.max_depth == max_depth,
            e.time_limit_ms == time_limit_ms,
            e.threat_searcher.max_vcf_depth == 30,
            e.threat_searcher.max_vct_depth == 12,
    {
        AIEngine {
            searcher: Searcher::new(tt_size_mb),
            threat_searcher: ThreatSearcher::with_depths(30, 12),
            max_depth,
            time_limit_ms,
        }
    }

    /// The best move for `color`.
    pub fn get_move(&mut self, board: &Board, color: Stone) -> (m: Option<Pos>)
        requires
            old(self).wf(),
            color == Stone::Black || color == Stone::White,
        ensures
            final(self).wf(),
            m matches Some(p) ==> p.valid(),
            opening_spec(*board, color) matches Some(p) ==> m == Some(p),
            opening_spec(*board, color).is_none() ==> (m matches Some(p) ==> valid_move(*board, p, color)),
            opening_spec(*board, color).is_none() && (exists|q: Pos| #[trigger] winning_move(*board, q, color))
                ==> (m matches Some(p) && winning_move(*board, p, color) && forall|q: Pos| #[trigger] winning_move(*board, q, color) ==> p.idx() <= q.idx()),
            forall|p: Pos|
                opening_spec(*board, color).is_none() && (forall|q: Pos| !#[trigger] winning_move(*board, q, color))
                    && winning_move(*board, p, opp(color)) && (forall|q: Pos| #[trigger] winning_move(*board, q, opp(color)) ==> q == p)
                    && valid_move(*board, p, color) ==> m == Some(p),
            opening_spec(*board, color).is_none() && (forall|q: Pos| !#[trigger] winning_move(*board, q, color))
                && !lone_block(*board, color) ==> match vcf_from(*board, color, 0, old(self).threat_searcher.max_vcf_depth as int) {
                Some(s) => m == Some(s[0]),
                None => match vcf_from(*board, opp(color), 0, old(self).threat_searcher.max_vcf_depth as int) {
                    Some(s) => valid_move(*board, s[0], color) ==> m == Some(s[0]),
                    None => true,
                },
            },
    {
        self.get_move_with_stats(board, color).best_move
    }

    /// The best move with search statistics. Stages, in order: the opening
    /// book; an immediate win; the block of the opponent's only immediate
    /// win; our VCF; the block of the opponent's VCF; alpha-beta search.
    pub fn get_move_with_stats(&mut self, board: &Board, color: Stone) -> (r: MoveResult)
        requires
            old(self).wf(),
            color == Stone::Black || color == Stone::White,
        ensures
            final(self).wf(),
            r.best_move matches Some(p) ==> p.valid(),
            opening_spec(*board, color) matches Some(p) ==> r.best_move == Some(p) && r.search_type == SearchType::AlphaBeta && r.score == 0,
            opening_spec(*board, color).is_none() ==> (r.best_move matches Some(p) ==> valid_move(*board, p, color)),
            r.search_type == SearchType::ImmediateWin ==> (r.best_move matches Some(p) && immediate_win_at(*board, p, color)),
            opening_spec(*board, color).is_none() && (exists|q: Pos| #[trigger] winning_move(*board, q, color))
                ==> r.search_type == SearchType::ImmediateWin && r.score == 1_000_000 && (r.best_move matches Some(p) && winning_move(*board, p, color)
                && forall|q: Pos| #[trigger] winning_move(*board, q, color) ==> p.idx() <= q.idx()),
            forall|p: Pos|
                opening_spec(*board, color).is_none() && (forall|q: Pos| !#[trigger] winning_move(*board, q, color))
                    && winning_move(*board, p, opp(color)) && (forall|q: Pos| #[trigger] winning_move(*board, q, opp(color)) ==> q == p)
                    && valid_move(*board, p, color) ==> r.search_type == SearchType::Defense && r.best_move == Some(p),
            opening_spec(*board, color).is_none() && (forall|q: Pos| !#[trigger] winning_move(*board, q, color))
                && !lone_block(*board, color) ==> match vcf_from(*board, color, 0, old(self).threat_searcher.max_vcf_depth as int) {
                Some(s) => r.search_type == SearchType::VCF && r.best_move == Some(s[0]) && r.score == 900_000
                    && r.nodes == sat_nodes(vcf_nodes(*board, color, 0, old(self).threat_searcher.max_vcf_depth as int) as int),
                None => match vcf_from(*board, opp(color), 0, old(self).threat_searcher.max_vcf_depth as int) {
                    Some(s) => if valid_move(*board, s[0], color) {
                        r.search_type == SearchType::Defense && r.best_move == Some(s[0]) && r.score == -800_000
                            && r.nodes == sat_nodes(
                            vcf_nodes(*board, opp(color), 0, old(self).threat_searcher.max_vcf_depth as int) as int,
                        )
                    } else {
                        r.search_type == SearchType::AlphaBeta && searched_move(*board, color, r, final(self).searcher.root_scores@)
                    },
                    None => r.search_type == SearchType::AlphaBeta && searched_move(*board, color, r, final(self).searcher.root_scores@),
                },
            },
    {
        let start = clock_now();
        match self.get_opening_move(board, color) {
            Some(opening_move) => {
                return MoveResult::alpha_beta(opening_move, 0, elapsed_ms(&start), 1);
            },
            None => {},
        }
        match self.find_immediate_win(board, color) {
            Some(win_move) => {
                return MoveResult::immediate_win(win_move, elapsed_ms(&start));
            },
            None => {},
        }
        let opponent = color.opponent();
        let opponent_threats = self.find_winning_moves(board, opponent);
        proof {
            assert forall|p: Pos| winning_move(*board, p, opp(color)) && (forall|q: Pos| #[trigger] winning_move(*board, q, opp(color)) ==> q == p)
                implies opponent_threats.len() == 1 && opponent_threats[0] == p by {
                assert(opponent_threats@.contains(p));
                if opponent_threats.len() >= 2 {
                    assert(winning_move(*board, opponent_threats[0], opp(color)));
                    assert(winning_move(*board, opponent_threats[1], opp(color)));
                    assert(opponent_threats[0].idx() < opponent_threats[1].idx());
                }
            }
        }
        if opponent_threats.len() == 1 {
            let block_pos = opponent_threats[0];
            if is_valid_move(board, block_pos, color) {
                proof {
                    assert forall|q: Pos| #[trigger] winning_move(*board, q, opp(color)) implies q == block_pos by {
                        assert(opponent_threats@.contains(q));
                    }
                    assert(winning_move(*board, opponent_threats[0], opp(color)));
                }
                return MoveResult::defense(block_pos, -900_000, elapsed_ms(&start), 1);
            }
        }
        proof {
            if lone_block(*board, color) {
                let p = choose|p: Pos|
                    #[trigger] winning_move(*board, p, opp(color)) && (forall|q: Pos| #[trigger] winning_move(*board, q, opp(color)) ==> q == p)
                        && valid_move(*board, p, color);
                assert(opponent_threats.len() == 1 && opponent_threats[0] == p);
            }
        }
        let vcf_result = self.threat_searcher.search_vcf(board, color);
        if vcf_result.found && vcf_result.winning_sequence.len() > 0 {
            proof {
                crate::search::threat::lemma_four_threats_valid(*board, color);
            }
            let first = vcf_result.winning_sequence[0];
            return MoveResult::vcf_win(first, elapsed_ms(&start), self.threat_searcher.nodes());
        }
        let opp_vcf = self.threat_searcher.search_vcf(board, opponent);
        if opp_vcf.found && opp_vcf.winning_sequence.len() > 0 {
            proof {
                crate::search::threat::lemma_four_threats_valid(*board, opponent);
            }
            let block_pos = opp_vcf.winning_sequence[0];
            if is_valid_move(board, block_pos, color) {
                return MoveResult::defense(block_pos, -800_000, elapsed_ms(&start), self.threat_searcher.nodes());
            }
        }
        let max_depth = self.max_depth;
        let time_limit = self.time_limit_ms;
        let result = self.searcher.search_timed(board, color, max_depth, time_limit);
        let tt_usage = self.searcher.tt_stats().usage_percent;
        let elapsed = elapsed_ms(&start);
        MoveResult::from_alphabeta(result, elapsed, tt_usage)
    }

    /// Whether `color` has won in `after` by its move at `pos`.
    fn has_won_at(after: &Board, pos: Pos, color: Stone, near_capture_win: bool) -> (w: bool)
        requires
            pos.valid(),
        ensures
            w == wins_after(*after, pos, color, near_capture_win),
    {
        let mut five_win = false;
        if has_five_at_pos(after, pos, color) {
            match find_five_positions(after, color) {
                Some(five) => {
                    if !can_break_five_by_capture(after, five.as_slice(), color) {
                        five_win = true;
                    }
                },
                None => {},
            }
        }
        five_win || (near_capture_win && after.captures(color) >= 5)
    }

    /// Whether playing `pos` wins at once for `color`.
    fn wins_by_playing(board: &Board, pos: Pos, color: Stone, near_capture_win: bool) -> (w: bool)
        requires
            pos.valid(),
            color == Stone::Black || color == Stone::White,
            near_capture_win == (board.caps(color) >= 4),
        ensures
            w == immediate_win_at(*board, pos, color),
    {
        let mut placed_board = *board;
        placed_board.place_stone(pos, color);
        let ghost m = placed_board;
        let mut after = placed_board;
        let cap_info = crate::rules::capture::execute_captures_fast(&mut after, pos, color);
        proof {
            assert(placed(*board, pos, color, m));
            assert(moved(*board, pos, color, after));
        }
        let w = Self::has_won_at(&after, pos, color, near_capture_win);
        proof {
            if !w {
                assert forall|a: Board| #[trigger] moved(*board, pos, color, a) implies !wins_after(
                    a,
                    pos,
                    color,
                    board.caps(color) >= 4,
                ) by {
                    lemma_moved_unique(*board, pos, color, a, after);
                }
            }
        }
        w
    }

    /// All positions where `color` wins at once, in board order.
    #[verifier::spinoff_prover]
    #[verifier::rlimit(40)]
    pub fn find_winning_moves(&self, board: &Board, color: Stone) -> (wins: Vec<Pos>)
        requires
            color == Stone::Black || color == Stone::White,
        ensures
            forall|k: int| 0 <= k < wins.len() ==> winning_move(*board, #[trigger] wins[k], color),
            forall|p: Pos| #[trigger] winning_move(*board, p, color) ==> wins@.contains(p),
            forall|a: int, c: int| 0 <= a < c < wins.len() ==> (#[trigger] wins[a]).idx() < (#[trigger] wins[c]).idx(),
    {
        let near_capture_win = board.captures(color) >= 4;
        let mut wins: Vec<Pos> = Vec::new();
        let mut i: usize = 0;
        while i < TOTAL_CELLS
            invariant
                0 <= i <= 361,
                color == Stone::Black || color == Stone::White,
                near_capture_win == (board.caps(color) >= 4),
                forall|k: int| 0 <= k < wins.len() ==> winning_move(*board, #[trigger] wins[k], color) && wins[k].idx() < i,
                forall|p: Pos| #[trigger] winning_move(*board, p, color) && p.idx() < i ==> wins@.contains(p),
                forall|a: int, c: int| 0 <= a < c < wins.len() ==> (#[trigger] wins[a]).idx() < (#[trigger] wins[c]).idx(),
            decreases 361 - i,
        {
            let pos = Pos::new((i / 19) as u8, (i % 19) as u8);
            assert(pos.idx() == i);
            let ghost before = wins@;
            if is_valid_move(board, pos, color) && Self::wins_by_playing(board, pos, color, near_capture_win) {
                wins.push(pos);
                proof {
                    assert(wins@[wins.len() - 1] == pos);
                }
            }
            proof {
                assert forall|p: Pos| #[trigger] winning_move(*board, p, color) && p.idx() < i + 1 implies wins@.contains(p) by {
                    if p.idx() == i {
                        crate::search::threat::lemma_idx_injective(p, pos);
                        assert(wins@[wins.len() - 1] == pos);
                    } else {
                        assert(before.contains(p));
                        let k = choose|k: int| 0 <= k < before.len() && before[k] == p;
                        assert(wins@[k] == p);
                    }
                }
            }
            i = i + 1;
        }
        wins
    }

    /// The first position, in board order, where `color` wins at once.
    pub fn find_immediate_win(&self, board: &Board, color: Stone) -> (w: Option<Pos>)
        requires
            color == Stone::Black || color == Stone::White,
        ensures
            w matches Some(p) ==> winning_move(*board, p, color) && forall|q: Pos| #[trigger] winning_move(*board, q, color) ==> p.idx() <= q.idx(),
            w is None ==> forall|q: Pos| !#[trigger] winning_move(*board, q, color),
    {
        let near_capture_win = board.captures(color) >= 4;
        let mut i: usize = 0;
        while i < TOTAL_CELLS
            invariant
                0 <= i <= 361,
                color == Stone::Black || color == Stone::White,
                near_capture_win == (board.caps(color) >= 4),
                forall|q: Pos| #[trigger] winning_move(*board, q, color) ==> q.idx() >= i,
            decreases 361 - i,
        {
            let pos = Pos::new((i / 19) as u8, (i % 19) as u8);
            assert(pos.idx() == i);
            if is_valid_move(board, pos, color) && Self::wins_by_playing(board, pos, color, near_capture_win) {
                return Some(pos);
            }
            proof {
                assert forall|q: Pos| #[trigger] winning_move(*board, q, color) implies q.idx() >= i + 1 by {
                    if q.idx() == i {
                        crate::search::threat::lemma_idx_injective(q, pos);
                    }
                }
            }
            i = i + 1;
        }
        proof {
            assert forall|q: Pos| !#[trigger] winning_move(*board, q, color) by {
                if winning_move(*board, q, color) {
                    assert(q.idx() < 361);
                }
            }
        }
        None
    }

    /// Set the maximum alpha-beta depth.
    pub fn set_max_depth(&mut self, depth: i8)
        ensures
            final(self).max_depth == depth,
            final(self).time_limit_ms == old(self).time_limit_ms,
            final(self).searcher == old(self).searcher,
            final(self).threat_searcher == old(self).threat_searcher,
    {
        self.max_depth = depth;
    }

    /// Set the time limit per move.
    pub fn set_time_limit(&mut self, time_ms: u64)
        ensures
            final(self).time_limit_ms == time_ms,
            final(self).max_depth == old(self).max_depth,
            final(self).searcher == old(self).searcher,
            final(self).threat_searcher == old(self).threat_searcher,
    {
        self.time_limit_ms = time_ms;
    }

    /// Clear the transposition table and the history scores (new game).
    pub fn clear_cache(&mut self)
        requires
            old(self).wf(),
        ensures
            final(self).wf(),
            final(self).max_depth == old(self).max_depth,
            final(self).time_limit_ms == old(self).time_limit_ms,
            final(self).threat_searcher == old(self).threat_searcher,
            final(self).searcher.zobrist == old(self).searcher.zobrist,
            final(self).searcher.tt == old(self).searcher.tt,
            final(self).searcher.max_depth == old(self).searcher.max_depth,
            final(self).searcher.num_threads == old(self).searcher.num_threads,
            forall|i: int| 0 <= i < 2 * TOTAL_CELLS ==> #[trigger] final(self).searcher.history@[i] == 0,
    {
        self.searcher.clear_tt();
        self.searcher.clear_history();
    }

    /// The maximum alpha-beta depth.
    pub fn max_depth(&self) -> (d: i8)
        ensures
            d == self.max_depth,
    {
        self.max_depth
    }

    /// Statistics of the transposition table.
    pub fn tt_stats(&self) -> (st: TTStats)
        requires
            self.wf(),
        ensures
            st.size == self.searcher.tt.size,
            st.used <= self.searcher.tt.size,
    {
        self.searcher.tt_stats()
    }

    /// The opening book move, if the position is in the book.
    pub fn get_opening_move(&self, board: &Board, color: Stone) -> (m: Option<Pos>)
        ensures
            m == opening_spec(*board, color),
            m matches Some(p) ==> p.valid(),
    {
        let n = board.stone_count();
        if n == 0 {
            return Some(Pos::new(9, 9));
        }
        if n == 1 {
            let opponent = color.opponent();
            match board.stones(opponent) {
                Some(stones) => {
                    let ones = stones.iter_ones();
                    if ones.len() > 0 {
                        let q = ones[0];
                        return best_diagonal(q);
                    }
                },
                None => {},
            }
        }
        None
    }
}

/// The on-board diagonal neighbour of `q` nearest the center.
fn best_diagonal(q: Pos) -> (m: Option<Pos>)
    requires
        q.valid(),
    ensures
        m == best_diag(q, 4),
        m matches Some(p) ==> p.valid(),
{
    let mut best: Option<Pos> = None;
    let mut best_dist: i32 = i32::MAX;
    let mut k: usize = 0;
    while k < 4
        invariant
            0 <= k <= 4,
            q.valid(),
            best == best_diag(q, k as int),
            best matches Some(b) ==> b.valid() && best_dist == center_dist(b.row as int, b.col as int),
            best.is_none() ==> best_dist == i32::MAX,
        decreases 4 - k,
    {
        let dr: i32 = if k < 2 { -1 } else { 1 };
        let dc: i32 = if k % 2 == 0 { -1 } else { 1 };
        let nr = q.row as i32 + dr;
        let nc = q.col as i32 + dc;
        if Pos::is_valid(nr, nc) {
            let ar = if nr >= 9 { nr - 9 } else { 9 - nr };
            let ac = if nc >= 9 { nc - 9 } else { 9 - nc };
            let dist = ar + ac;
            if dist < best_dist {
                best_dist = dist;
                best = Some(Pos::new(nr as u8, nc as u8));
            }
        }
        k = k + 1;
    }
    best
}

impl Default for AIEngine {
    /// Same as `AIEngine::new`.
    fn default() -> (e: AIEngine)
        ensures
            e.wf(),
            e.max_depth == 20,
            e.time_limit_ms == 500,
    {
        AIEngine::new()
    }
}

} // verus!
