use gomoku::eval::patterns::PatternScore;
use gomoku::rules::find_five_positions;
use gomoku::search::alphabeta::{
    combine_results, estimate_next_ms, isqrt, play, sat_mul, SearchResult, SearchStats, Searcher, WorkerSearcher,
};
use gomoku::search::ordering::count_line_both;
use gomoku::search::{AtomicTT, ZobristTable};
use gomoku::{Board, Pos, Stone, BOARD_SIZE, TOTAL_CELLS};


#[test]
fn alphabeta_test_search_empty_board() {
    let mut searcher = Searcher::new(16);
    let board = Board::new();

    let result = searcher.search(&board, Stone::Black, 4);
    assert!(result.best_move.is_some());
    assert_eq!(result.best_move, Some(Pos::new(9, 9)));
}

#[test]
fn alphabeta_test_search_finds_winning_move() {
    let mut searcher = Searcher::new(16);
    let mut board = Board::new();

    for i in 0..4 {
        board.place_stone(Pos::new(9, i), Stone::Black);
    }

    let result = searcher.search(&board, Stone::Black, 2);
    assert_eq!(result.best_move, Some(Pos::new(9, 4)));
}

#[test]
fn alphabeta_test_search_blocks_opponent_win() {
    let mut searcher = Searcher::new(16);
    let mut board = Board::new();

    for i in 0..4 {
        board.place_stone(Pos::new(9, i), Stone::White);
    }
    board.place_stone(Pos::new(10, 0), Stone::Black);

    let result = searcher.search(&board, Stone::Black, 4);
    assert_eq!(result.best_move, Some(Pos::new(9, 4)));
}

#[test]
fn alphabeta_test_iterative_deepening_improves() {
    let mut searcher = Searcher::new(16);
    let mut board = Board::new();

    board.place_stone(Pos::new(9, 9), Stone::Black);
    board.place_stone(Pos::new(9, 10), Stone::White);
    board.place_stone(Pos::new(9, 8), Stone::Black);
    board.place_stone(Pos::new(10, 9), Stone::White);
    board.place_stone(Pos::new(8, 9), Stone::Black);

    let result = searcher.search(&board, Stone::White, 2);
    assert!(result.depth >= 1);
    assert!(result.nodes > 0);
}

#[test]
fn alphabeta_test_generate_moves_radius() {
    let zobrist = ZobristTable::new();
    let tt = AtomicTT::new(1);
    let worker = WorkerSearcher::new(&zobrist, &tt, 10, vec![0; 2 * TOTAL_CELLS], None, None);
    let mut board = Board::new();
    board.place_stone(Pos::new(9, 9), Stone::Black);

    let moves = worker.generate_moves(&board, Stone::White);
    assert!(!moves.is_empty());
    assert!(moves.len() <= 24);
}

#[test]
fn alphabeta_test_search_with_captures() {
    let mut searcher = Searcher::new(16);
    let mut board = Board::new();

    board.place_stone(Pos::new(9, 5), Stone::Black);
    board.place_stone(Pos::new(9, 7), Stone::White);
    board.place_stone(Pos::new(9, 8), Stone::White);
    board.place_stone(Pos::new(9, 9), Stone::Black);

    let result = searcher.search(&board, Stone::Black, 4);
    assert!(result.best_move.is_some(), "Should find a move");
    let mov = result.best_move.unwrap();
    assert!(
        mov.row >= 7 && mov.row <= 11 && mov.col >= 3 && mov.col <= 11,
        "Move {:?} should be near existing stones",
        mov
    );
}

#[test]
fn alphabeta_test_tt_stats_after_search() {
    let mut searcher = Searcher::new(16);
    let mut board = Board::new();

    board.place_stone(Pos::new(9, 9), Stone::Black);

    let _ = searcher.search(&board, Stone::White, 4);

    let stats = searcher.tt_stats();
    assert!(stats.used > 0);
}

#[test]
fn alphabeta_test_clear_tt() {
    let mut searcher = Searcher::new(16);
    let mut board = Board::new();

    board.place_stone(Pos::new(9, 9), Stone::Black);
    let _ = searcher.search(&board, Stone::White, 4);

    let stats_before = searcher.tt_stats();
    assert!(stats_before.used > 0);

    searcher.clear_tt();

    let stats_after = searcher.tt_stats();
    assert_eq!(stats_after.used, 0);
}

#[test]
fn alphabeta_test_search_winning_score() {
    let mut searcher = Searcher::new(16);
    let mut board = Board::new();

    for i in 0..4 {
        board.place_stone(Pos::new(9, i), Stone::Black);
    }

    let result = searcher.search(&board, Stone::Black, 2);
    assert!(
        result.score >= PatternScore::FIVE - 100,
        "Should detect winning position"
    );
}

#[test]
fn alphabeta_test_search_losing_score() {
    let mut searcher = Searcher::new(16);
    let mut board = Board::new();

    for i in 0..4 {
        board.place_stone(Pos::new(9, i), Stone::White);
    }
    board.place_stone(Pos::new(0, 0), Stone::Black);

    let result = searcher.search(&board, Stone::Black, 2);
    assert_eq!(result.best_move, Some(Pos::new(9, 4)));
}

#[test]
fn alphabeta_test_generate_moves_excludes_forbidden() {
    let zobrist = ZobristTable::new();
    let tt = AtomicTT::new(1);
    let worker = WorkerSearcher::new(&zobrist, &tt, 10, vec![0; 2 * TOTAL_CELLS], None, None);
    let mut board = Board::new();

    board.place_stone(Pos::new(9, 8), Stone::Black);
    board.place_stone(Pos::new(9, 10), Stone::Black);
    board.place_stone(Pos::new(8, 9), Stone::Black);
    board.place_stone(Pos::new(10, 9), Stone::Black);

    let moves = worker.generate_moves(&board, Stone::Black);
    assert!(
        !moves.contains(&Pos::new(9, 9)),
        "Should exclude forbidden double-three move"
    );
}

#[test]
fn alphabeta_test_search_node_count() {
    let mut searcher = Searcher::new(16);
    let board = Board::new();

    let result = searcher.search(&board, Stone::Black, 2);
    assert!(result.nodes >= 1);
}

#[test]
fn alphabeta_test_search_multiple_times() {
    let mut searcher = Searcher::new(16);
    let mut board = Board::new();

    board.place_stone(Pos::new(9, 9), Stone::Black);

    let result1 = searcher.search(&board, Stone::White, 4);
    assert!(result1.best_move.is_some());

    let result2 = searcher.search(&board, Stone::White, 4);
    assert!(result2.best_move.is_some());

    assert!(result2.nodes <= result1.nodes || result2.nodes < result1.nodes + 500);

    let m1 = result1.best_move.unwrap();
    let m2 = result2.best_move.unwrap();
    assert!(m1.row.abs_diff(9) <= 2 && m1.col.abs_diff(9) <= 2);
    assert!(m2.row.abs_diff(9) <= 2 && m2.col.abs_diff(9) <= 2);
}

#[test]
fn test_parallel_search_timed() {
    let mut searcher = Searcher::with_threads(16, 4);
    let mut board = Board::new();

    board.place_stone(Pos::new(9, 9), Stone::Black);
    board.place_stone(Pos::new(9, 10), Stone::White);
    board.place_stone(Pos::new(10, 9), Stone::Black);
    board.place_stone(Pos::new(8, 10), Stone::White);

    let result = searcher.search_timed(&board, Stone::Black, 12, 500);
    assert!(result.best_move.is_some(), "Should find a move");
    assert!(result.depth >= 4, "Should reach reasonable depth, got {}", result.depth);
    assert!(result.nodes > 0, "Should search some nodes");
}

/// Test that quiescence search detects forced wins beyond the regular search depth.
/// Setup: Black has three in a row with both ends open → four → five is forced.
/// Even at depth 1, QS should see the winning sequence.
#[test]
fn test_quiescence_detects_open_four() {
    let mut searcher = Searcher::with_threads(16, 1);
    let mut board = Board::new();

    // Black open three: _BBB_ at row 9
    board.place_stone(Pos::new(9, 8), Stone::Black);
    board.place_stone(Pos::new(9, 9), Stone::Black);
    board.place_stone(Pos::new(9, 10), Stone::Black);
    // White stones far away
    board.place_stone(Pos::new(0, 0), Stone::White);
    board.place_stone(Pos::new(0, 1), Stone::White);

    // Shallow search should still find the winning continuation
    let result = searcher.search(&board, Stone::Black, 2);
    assert!(result.score > PatternScore::OPEN_FOUR,
        "QS should evaluate open three position very highly, got {}", result.score);
}

/// Test QS detects forced win via four-threat sequence.
#[test]
fn test_quiescence_four_threat_win() {
    let mut searcher = Searcher::with_threads(16, 1);
    let mut board = Board::new();

    // Black has OOOO_ (closed four) → extending to five is forced
    board.place_stone(Pos::new(9, 7), Stone::Black);
    board.place_stone(Pos::new(9, 8), Stone::Black);
    board.place_stone(Pos::new(9, 9), Stone::Black);
    board.place_stone(Pos::new(9, 10), Stone::Black);
    // White blocks one side
    board.place_stone(Pos::new(9, 6), Stone::White);
    board.place_stone(Pos::new(0, 0), Stone::White);

    let result = searcher.search(&board, Stone::Black, 1);
    assert_eq!(result.best_move, Some(Pos::new(9, 11)),
        "Should find the five-completion move");
    assert!(result.score >= PatternScore::FIVE - 100,
        "Should be a winning score, got {}", result.score);
}

/// Test that the search correctly detects an existing five on the board
/// that the opponent failed to break. In the game rules, if a breakable
/// five persists because the defender played a non-breaking move, the
/// five-holder wins. The search must detect this at intermediate nodes,
/// not just at root level.
#[test]
fn test_search_detects_existing_five() {
    let mut searcher = Searcher::new(16);
    let mut board = Board::new();

    // Set up a position where Black has a five-in-a-row (diagonal)
    // Black five: (7,7), (8,8), (9,9), (10,10), (11,11)
    board.place_stone(Pos::new(7, 7), Stone::Black);
    board.place_stone(Pos::new(8, 8), Stone::Black);
    board.place_stone(Pos::new(9, 9), Stone::Black);
    board.place_stone(Pos::new(10, 10), Stone::Black);
    board.place_stone(Pos::new(11, 11), Stone::Black);

    // White stones forming a capture bracket:
    // White at (6,6) and (9,7) → can capture (7,7)+(8,8) if White plays at specific spot
    // Actually, let's set up breakable five: need White to be able to capture a pair
    // from the five line. Pattern: White(6,6) - Black(7,7) - Black(8,8) - White(9,9)?
    // No, (9,9) is Black. Let me use a different capture line.
    // We need: White at some position, then 2 consecutive five-stones, then an empty spot
    // for White to play and capture.
    // Capture pattern: White_place - Black - Black - White_existing
    // Let's put White at (12,12) — then (11,11)-(10,10) are Black, need White at (9,9)?
    // No (9,9) is Black. Different direction needed.

    // Simpler: make the five NOT breakable for this test.
    // Put some White stones far away.
    board.place_stone(Pos::new(0, 0), Stone::White);
    board.place_stone(Pos::new(0, 1), Stone::White);
    board.place_stone(Pos::new(0, 2), Stone::White);
    board.place_stone(Pos::new(1, 0), Stone::White);
    board.place_stone(Pos::new(1, 1), Stone::White);

    // Verify Black has five
    let five = find_five_positions(&board, Stone::Black);
    assert!(five.is_some(), "Black should have five-in-a-row");

    // White to move — Black already has five on the board.
    // The search should detect Black's existing five and return a very negative score
    // (losing for White since Black has already won).
    let result = searcher.search(&board, Stone::White, 4);

    // White should see this as a losing position
    assert!(result.score <= -(PatternScore::FIVE - 100),
        "White should detect Black's existing five as a loss, got score {}",
        result.score);
}

/// A two-pass line scan, one color at a time, to compare the merged scan with.
/// Used to verify count_line_both produces identical results.
fn ref_count_line_with_gap(
    board: &Board,
    pos: Pos,
    dr: i8,
    dc: i8,
    color: Stone,
) -> (i32, i32, bool, i32) {
    let sz = BOARD_SIZE as i8;
    let mut count = 1i32;
    let mut open_ends = 0;
    let mut has_gap = false;
    let mut consec_pos = 0i32;
    let mut consec_neg = 0i32;

    // Positive direction
    let mut r = pos.row as i8 + dr;
    let mut c = pos.col as i8 + dc;
    let mut counting_consecutive = true;
    while r >= 0 && r < sz && c >= 0 && c < sz {
        let cell = board.get(Pos::new(r as u8, c as u8));
        if cell == color {
            count += 1;
            if counting_consecutive {
                consec_pos += 1;
            }
            r += dr;
            c += dc;
        } else if cell == Stone::Empty && !has_gap {
            counting_consecutive = false;
            let nr = r + dr;
            let nc = c + dc;
            if nr >= 0
                && nr < sz
                && nc >= 0
                && nc < sz
                && board.get(Pos::new(nr as u8, nc as u8)) == color
            {
                has_gap = true;
                r += dr;
                c += dc;
                continue;
            }
            open_ends += 1;
            break;
        } else if cell == Stone::Empty {
            open_ends += 1;
            break;
        } else {
            break;
        }
    }

    // Negative direction
    r = pos.row as i8 - dr;
    c = pos.col as i8 - dc;
    counting_consecutive = true;
    while r >= 0 && r < sz && c >= 0 && c < sz {
        let cell = board.get(Pos::new(r as u8, c as u8));
        if cell == color {
            count += 1;
            if counting_consecutive {
                consec_neg += 1;
            }
            r -= dr;
            c -= dc;
        } else if cell == Stone::Empty && !has_gap {
            counting_consecutive = false;
            let nr = r - dr;
            let nc = c - dc;
            if nr >= 0
                && nr < sz
                && nc >= 0
                && nc < sz
                && board.get(Pos::new(nr as u8, nc as u8)) == color
            {
                has_gap = true;
                r -= dr;
                c -= dc;
                continue;
            }
            open_ends += 1;
            break;
        } else if cell == Stone::Empty {
            open_ends += 1;
            break;
        } else {
            break;
        }
    }

    let consecutive = 1 + consec_pos + consec_neg;
    (count, open_ends, has_gap, consecutive)
}

#[test]
fn test_count_line_both_equivalence() {
    // Test on multiple board configurations
    let configs: Vec<Vec<(u8, u8, Stone)>> = vec![
        // Config 1: horizontal line with gap
        vec![
            (9, 9, Stone::Black), (9, 10, Stone::Black), (9, 12, Stone::Black),
            (9, 7, Stone::White), (9, 13, Stone::White),
        ],
        // Config 2: diagonal stones
        vec![
            (5, 5, Stone::Black), (6, 6, Stone::Black), (8, 8, Stone::Black),
            (7, 7, Stone::White), (9, 9, Stone::White),
        ],
        // Config 3: mixed captures scenario
        vec![
            (10, 10, Stone::Black), (10, 11, Stone::Black), (10, 12, Stone::White),
            (10, 13, Stone::White), (10, 14, Stone::Black),
            (11, 10, Stone::Black), (12, 10, Stone::Black),
        ],
        // Config 4: dense center
        vec![
            (9, 8, Stone::Black), (9, 9, Stone::White), (9, 10, Stone::Black),
            (9, 11, Stone::White), (9, 12, Stone::Black),
            (8, 9, Stone::Black), (10, 9, Stone::Black),
            (8, 10, Stone::White), (10, 10, Stone::White),
        ],
        // Config 5: edge positions
        vec![
            (0, 0, Stone::Black), (0, 1, Stone::Black), (0, 2, Stone::Black),
            (1, 0, Stone::White), (1, 1, Stone::White),
        ],
        // Config 6: corner gap patterns
        vec![
            (17, 17, Stone::Black), (17, 16, Stone::Black), (17, 14, Stone::Black),
            (18, 18, Stone::White), (16, 16, Stone::White),
        ],
        // Config 7: empty board (trivial)
        vec![],
    ];

    let directions: [(i8, i8); 4] = [(0, 1), (1, 0), (1, 1), (1, -1)];
    let mut total_checks = 0;

    for (cfg_idx, stones) in configs.iter().enumerate() {
        let mut board = Board::new();
        for &(r, c, color) in stones {
            board.place_stone(Pos::new(r, c), color);
        }

        let black_bb = board.stones(Stone::Black).unwrap();
        let white_bb = board.stones(Stone::White).unwrap();

        // Check every empty position in a relevant area
        for r in 0u8..BOARD_SIZE as u8 {
            for c in 0u8..BOARD_SIZE as u8 {
                let pos = Pos::new(r, c);
                if board.get(pos) != Stone::Empty {
                    continue;
                }

                for &(dr, dc) in &directions {
                    // Reference: two separate calls
                    let (bc, bo, bg, bcon) =
                        ref_count_line_with_gap(&board, pos, dr, dc, Stone::Black);
                    let (wc, wo, wg, wcon) =
                        ref_count_line_with_gap(&board, pos, dr, dc, Stone::White);

                    // Optimized: single merged call
                    let (mc, mo, mg, mcon, oc, oo, og, ocon) =
                        count_line_both(black_bb, white_bb, pos, dr, dc);

                    assert_eq!(
                        (bc, bo, bg, bcon), (mc, mo, mg, mcon),
                        "Black mismatch at cfg={} pos=({},{}) dir=({},{}): \
                         ref=({},{},{},{}) new=({},{},{},{})",
                        cfg_idx, r, c, dr, dc,
                        bc, bo, bg, bcon, mc, mo, mg, mcon
                    );
                    assert_eq!(
                        (wc, wo, wg, wcon), (oc, oo, og, ocon),
                        "White mismatch at cfg={} pos=({},{}) dir=({},{}): \
                         ref=({},{},{},{}) new=({},{},{},{})",
                        cfg_idx, r, c, dr, dc,
                        wc, wo, wg, wcon, oc, oo, og, ocon
                    );
                    total_checks += 1;
                }
            }
        }
    }
    assert!(total_checks > 5000, "Should have checked many positions, got {}", total_checks);
}

#[test]
fn test_isqrt_values() {
    assert_eq!(isqrt(0), 0);
    assert_eq!(isqrt(1), 1);
    assert_eq!(isqrt(15), 3);
    assert_eq!(isqrt(16), 4);
    assert_eq!(isqrt(1_000_000), 1000);
}

#[test]
fn test_sat_mul_and_estimate() {
    assert_eq!(sat_mul(3, 7), 21);
    assert_eq!(sat_mul(u64::MAX, 2), u64::MAX);
    assert_eq!(estimate_next_ms(100, 0), 300);
    assert_eq!(estimate_next_ms(0, 50), 0);
    assert_eq!(estimate_next_ms(100, 50), 200);
    assert_eq!(estimate_next_ms(100, 90), 150);
    assert_eq!(estimate_next_ms(1000, 10), 5000);
}

#[test]
fn test_search_stats_merge_saturates() {
    let mut a = SearchStats::zero();
    a.beta_cutoffs = u64::MAX - 1;
    a.tt_probes = 5;
    let mut b = SearchStats::default();
    b.beta_cutoffs = 10;
    b.tt_probes = 7;
    a.merge(&b);
    assert_eq!(a.beta_cutoffs, u64::MAX);
    assert_eq!(a.tt_probes, 12);
    assert_eq!(a.tt_move_hits, 0);
}

#[test]
fn test_play_places_and_captures() {
    let mut board = Board::new();
    board.place_stone(Pos::new(9, 9), Stone::Black);
    board.place_stone(Pos::new(9, 10), Stone::White);
    board.place_stone(Pos::new(9, 11), Stone::White);
    let (after, info) = play(&board, Pos::new(9, 12), Stone::Black);
    assert_eq!(after.get(Pos::new(9, 12)), Stone::Black);
    assert_eq!(after.get(Pos::new(9, 10)), Stone::Empty);
    assert_eq!(after.get(Pos::new(9, 11)), Stone::Empty);
    assert_eq!(after.captures(Stone::Black), 1);
    assert_eq!(info.pairs, 1);
    assert_eq!(info.count, 2);
    assert_eq!(board.get(Pos::new(9, 10)), Stone::White);
}

/// A board on which the opponent already has five in a row (fewer than ten
/// stones, so the reply is scored by the static evaluation): every reply of
/// the side to move scores below -INF, and the search returns no move
/// although legal moves exist.
#[test]
fn test_search_without_move_when_opponent_already_has_five() {
    let mut searcher = Searcher::with_threads(16, 1);
    let mut board = Board::new();
    for c in 5..10 {
        board.place_stone(Pos::new(9, c), Stone::White);
    }
    let result = searcher.search(&board, Stone::Black, 1);
    assert_eq!(result.best_move, None);
    assert_eq!(result.score, -1_000_001);
}

fn worker_result(mv: (u8, u8), score: i32, depth: i8, nodes: u64, cutoffs: u64) -> SearchResult {
    let mut stats = SearchStats::zero();
    stats.beta_cutoffs = cutoffs;
    SearchResult { best_move: Some(Pos::new(mv.0, mv.1)), score, depth, nodes, stats }
}

#[test]
fn test_combine_results_prefers_depth_then_score() {
    let main = worker_result((9, 9), 10, 5, 100, 1);
    let helpers = vec![
        worker_result((1, 1), -5, 6, 50, 2),
        worker_result((2, 2), 3, 6, 7, 3),
        worker_result((3, 3), 99, 4, 1, 4),
        worker_result((4, 4), 3, 6, 2, 5),
    ];
    let r = combine_results(main, &helpers);
    assert_eq!(r.best_move, Some(Pos::new(2, 2)));
    assert_eq!(r.score, 3);
    assert_eq!(r.depth, 6);
    assert_eq!(r.nodes, 160);
    assert_eq!(r.stats.beta_cutoffs, 15);
    // No helper: the main result as it is.
    let alone = combine_results(worker_result((9, 9), 10, 5, 100, 1), &Vec::new());
    assert_eq!(alone.best_move, Some(Pos::new(9, 9)));
    assert_eq!(alone.nodes, 100);
}

/// With a five of its own already on the board, the side to move scores a
/// quiet move above a move that makes a second five: the reply is scored by
/// the evaluation, which counts the five already there.
#[test]
fn test_search_prefers_quiet_move_when_own_five_is_on_board() {
    let mut searcher = Searcher::with_threads(16, 1);
    let mut board = Board::new();
    for c in 0..5 {
        board.place_stone(Pos::new(9, c), Stone::Black);
    }
    for c in 0..4 {
        board.place_stone(Pos::new(5, c), Stone::Black);
    }
    let result = searcher.search(&board, Stone::Black, 1);
    assert!(result.best_move.is_some());
    assert_ne!(result.best_move, Some(Pos::new(5, 4)));
    assert!(result.score > PatternScore::FIVE);
}
