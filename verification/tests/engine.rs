use gomoku::engine::{pos_to_notation, AIEngine, MoveResult, SearchType};
use gomoku::{Board, Pos, Stone};


#[test]
fn test_engine_creation() {
    let engine = AIEngine::new();
    assert_eq!(engine.max_depth(), 20);
}

#[test]
fn test_engine_with_config() {
    let engine = AIEngine::with_config(16, 8, 100);
    assert_eq!(engine.max_depth(), 8);
}

#[test]
fn test_engine_finds_immediate_win() {
    let mut board = Board::new();
    // 4 in a row - one away from win
    for i in 0..4 {
        board.place_stone(Pos::new(9, i), Stone::Black);
    }

    let mut engine = AIEngine::new();
    let result = engine.get_move_with_stats(&board, Stone::Black);

    assert_eq!(result.best_move, Some(Pos::new(9, 4)));
    assert_eq!(result.search_type, SearchType::ImmediateWin);
}

#[test]
fn test_engine_blocks_opponent_win() {
    let mut board = Board::new();
    // White has 4 in a row
    for i in 0..4 {
        board.place_stone(Pos::new(9, i), Stone::White);
    }
    board.place_stone(Pos::new(10, 5), Stone::Black); // Some black stone

    let mut engine = AIEngine::new();
    let result = engine.get_move_with_stats(&board, Stone::Black);

    // Should block at (9,4) - alpha-beta detects opponent's winning threat
    assert_eq!(result.best_move, Some(Pos::new(9, 4)));
}

#[test]
fn test_engine_empty_board() {
    let board = Board::new();
    // Use smaller depth for faster test
    let mut engine = AIEngine::with_config(8, 4, 500);
    let result = engine.get_move(&board, Stone::Black);

    // Should play center
    assert_eq!(result, Some(Pos::new(9, 9)));
}

#[test]
fn test_engine_vcf_detection() {
    let mut board = Board::new();
    // Set up position with 4 in a row (immediate win, not just VCF)
    board.place_stone(Pos::new(9, 5), Stone::Black);
    board.place_stone(Pos::new(9, 6), Stone::Black);
    board.place_stone(Pos::new(9, 7), Stone::Black);
    board.place_stone(Pos::new(9, 8), Stone::Black);

    let mut engine = AIEngine::new();
    let result = engine.get_move_with_stats(&board, Stone::Black);

    // Should find immediate win
    assert!(result.best_move.is_some());
    assert_eq!(result.search_type, SearchType::ImmediateWin);
}

#[test]
fn test_engine_time_reasonable() {
    let mut board = Board::new();
    // Create a position where there's already some activity
    board.place_stone(Pos::new(9, 9), Stone::Black);
    board.place_stone(Pos::new(10, 10), Stone::White);
    board.place_stone(Pos::new(9, 10), Stone::Black);
    board.place_stone(Pos::new(8, 9), Stone::White);

    // Use depth 2 for speed test (debug mode is ~30x slower than release)
    let mut engine = AIEngine::with_config(8, 2, 100);
    let result = engine.get_move_with_stats(&board, Stone::Black);

    // Allow more time in debug builds (unoptimized code is much slower)
    let max_time_ms = 5_000;

    assert!(
        result.time_ms < max_time_ms,
        "Search took too long: {}ms (limit: {}ms)",
        result.time_ms,
        max_time_ms
    );
}

#[test]
fn test_capture_win_detection() {
    let mut board = Board::new();
    // Set up near capture win scenario
    board.black_captures = 4; // 4 pairs = 8 stones

    // Place a capturable pair - this creates an immediate win via capture
    // B-W-W-? pattern at row 9, Black plays at col 11 to capture
    board.place_stone(Pos::new(9, 8), Stone::Black);
    board.place_stone(Pos::new(9, 9), Stone::White);
    board.place_stone(Pos::new(9, 10), Stone::White);
    // Add scattered stones away from capture to exceed threshold
    board.place_stone(Pos::new(3, 3), Stone::Black);
    board.place_stone(Pos::new(3, 15), Stone::White);
    board.place_stone(Pos::new(15, 3), Stone::Black);
    board.place_stone(Pos::new(15, 15), Stone::White);
    board.place_stone(Pos::new(5, 5), Stone::Black);
    board.place_stone(Pos::new(5, 13), Stone::White);

    let mut engine = AIEngine::new();
    let result = engine.get_move(&board, Stone::Black);

    // Should find capture at (9,11) for the win
    assert_eq!(result, Some(Pos::new(9, 11)));
}

#[test]
fn test_engine_clear_cache() {
    let mut engine = AIEngine::with_config(8, 4, 500);

    // Verify clear_cache works by checking stats reset
    // First, manually trigger some TT usage through internal searcher
    let mut board = Board::new();
    // Create a mid-game position with scattered stones to force alpha-beta
    // Position has no immediate threats but requires search
    for i in 0..5 {
        board.place_stone(Pos::new(4 + i, 4), Stone::Black);
        board.place_stone(Pos::new(4 + i, 14), Stone::White);
    }
    // This should trigger alpha-beta search (>8 stones, no immediate win)
    let _ = engine.get_move(&board, Stone::Black);

    // Clear cache
    engine.clear_cache();
    let stats_after = engine.tt_stats();
    assert_eq!(stats_after.used, 0, "TT should be empty after clear");
}

#[test]
fn test_engine_set_depth() {
    let mut engine = AIEngine::new();
    assert_eq!(engine.max_depth(), 20);

    engine.set_max_depth(12);
    assert_eq!(engine.max_depth(), 12);
}

#[test]
fn test_engine_set_time_limit() {
    let mut engine = AIEngine::new();
    engine.set_time_limit(1000);
    // Time limit is stored but not actively used yet
    // This test just ensures no panic
}

#[test]
fn test_engine_default() {
    let engine = AIEngine::default();
    assert_eq!(engine.max_depth(), 20);
}

#[test]
fn test_move_result_types() {
    let pos = Pos::new(9, 9);

    let win = MoveResult::immediate_win(pos, 10);
    assert_eq!(win.search_type, SearchType::ImmediateWin);
    assert_eq!(win.score, 1_000_000);

    let vcf = MoveResult::vcf_win(pos, 20, 100);
    assert_eq!(vcf.search_type, SearchType::VCF);
    assert_eq!(vcf.score, 900_000);

    let vct = MoveResult::vct_win(pos, 30, 200);
    assert_eq!(vct.search_type, SearchType::VCT);
    assert_eq!(vct.score, 800_000);

    let defense = MoveResult::defense(pos, -100_000, 40, 50);
    assert_eq!(defense.search_type, SearchType::Defense);

    let no_move = MoveResult::no_move(50);
    assert!(no_move.best_move.is_none());
}

#[test]
fn test_engine_responds_to_threat() {
    let mut board = Board::new();
    // White has 4 in a row - Black must block
    board.place_stone(Pos::new(9, 6), Stone::White);
    board.place_stone(Pos::new(9, 7), Stone::White);
    board.place_stone(Pos::new(9, 8), Stone::White);
    board.place_stone(Pos::new(9, 9), Stone::White);
    // Black has a stone nearby
    board.place_stone(Pos::new(8, 8), Stone::Black);

    let mut engine = AIEngine::with_config(8, 4, 500);
    let result = engine.get_move_with_stats(&board, Stone::Black);

    // Should find blocking move
    assert!(result.best_move.is_some());
    // Should block at one of the ends
    let m = result.best_move.unwrap();
    assert!(m == Pos::new(9, 5) || m == Pos::new(9, 10));
}

#[test]
fn test_engine_multiple_searches() {
    // Use smaller depth for faster test
    let mut engine = AIEngine::with_config(8, 4, 500);
    let board = Board::new();

    // Multiple searches should work correctly
    let result1 = engine.get_move(&board, Stone::Black);
    let result2 = engine.get_move(&board, Stone::Black);

    // Results should be consistent
    assert_eq!(result1, result2);
}

#[test]
fn test_engine_alternating_colors() {
    // Use smaller depth for faster test
    let mut engine = AIEngine::with_config(8, 4, 500);
    let mut board = Board::new();

    // Simulate a few moves
    let black_move = engine.get_move(&board, Stone::Black);
    assert!(black_move.is_some());
    board.place_stone(black_move.unwrap(), Stone::Black);

    let white_move = engine.get_move(&board, Stone::White);
    assert!(white_move.is_some());
    board.place_stone(white_move.unwrap(), Stone::White);

    // Continue playing
    let black_move2 = engine.get_move(&board, Stone::Black);
    assert!(black_move2.is_some());
}

#[test]
fn test_search_type_equality() {
    assert_eq!(SearchType::ImmediateWin, SearchType::ImmediateWin);
    assert_ne!(SearchType::ImmediateWin, SearchType::VCF);
    assert_ne!(SearchType::VCF, SearchType::VCT);
    assert_ne!(SearchType::Defense, SearchType::AlphaBeta);
}

#[test]
fn test_engine_blocks_gap_pattern() {
    // Test gap pattern: OO_OO where filling the gap completes 5
    // This is critical - AI must block at the gap position
    //
    // Pattern on column 12 (M column):
    // M14 = (5, 12) - Black
    // M13 = (6, 12) - Black
    // M12 = (7, 12) - EMPTY (gap)
    // M11 = (8, 12) - Black
    // M10 = (9, 12) - Black
    let mut board = Board::new();
    board.place_stone(Pos::new(5, 12), Stone::Black);  // M14
    board.place_stone(Pos::new(6, 12), Stone::Black);  // M13
    // Gap at (7, 12) - M12
    board.place_stone(Pos::new(8, 12), Stone::Black);  // M11
    board.place_stone(Pos::new(9, 12), Stone::Black);  // M10

    // Add some White stones
    board.place_stone(Pos::new(9, 9), Stone::White);
    board.place_stone(Pos::new(10, 10), Stone::White);

    let mut engine = AIEngine::with_config(8, 6, 500);
    let result = engine.get_move_with_stats(&board, Stone::White);

    // White MUST block at M12 (7, 12) - the gap position
    assert!(result.best_move.is_some(), "AI should find a blocking move");
    let block_pos = result.best_move.unwrap();
    assert_eq!(
        block_pos,
        Pos::new(7, 12),
        "AI should block at gap position M12 (7,12), got ({}, {})",
        block_pos.row,
        block_pos.col
    );
}

#[test]
fn test_engine_blocks_horizontal_gap() {
    // Test horizontal gap pattern: OO_OO
    let mut board = Board::new();
    board.place_stone(Pos::new(9, 5), Stone::Black);
    board.place_stone(Pos::new(9, 6), Stone::Black);
    // Gap at (9, 7)
    board.place_stone(Pos::new(9, 8), Stone::Black);
    board.place_stone(Pos::new(9, 9), Stone::Black);

    board.place_stone(Pos::new(5, 5), Stone::White);

    let mut engine = AIEngine::with_config(8, 6, 500);
    let result = engine.get_move_with_stats(&board, Stone::White);

    assert!(result.best_move.is_some());
    let block_pos = result.best_move.unwrap();
    assert_eq!(
        block_pos,
        Pos::new(9, 7),
        "AI should block at gap position (9,7)"
    );
}

#[test]
fn test_search_depth_benchmark() {
    // Mid-game position with ~10 stones to measure realistic search depth
    let mut board = Board::new();
    let moves = [
        (9, 9, Stone::Black),
        (9, 10, Stone::White),
        (10, 9, Stone::Black),
        (8, 10, Stone::White),
        (10, 10, Stone::Black),
        (8, 8, Stone::White),
        (11, 8, Stone::Black),
        (7, 11, Stone::White),
        (10, 8, Stone::Black),
        (8, 9, Stone::White),
    ];
    for (r, c, s) in moves {
        board.place_stone(Pos::new(r, c), s);
    }

    let mut engine = AIEngine::new(); // Default: depth 20, 500ms
    let result = engine.get_move_with_stats(&board, Stone::Black);

    println!(
        "BENCHMARK: depth={}, nodes={}, time={}ms, nps={}k, type={:?}",
        result.depth, result.nodes, result.time_ms, result.nps, result.search_type
    );

    // Verify AI searches at sufficient depth.
    // If the AI found a forced win/threat (VCF/VCT/immediate), early exit is correct.
    // Otherwise, depth 10+ is the project requirement.
    let found_forced_result = result.score.abs() >= 799_900
        || matches!(result.search_type, SearchType::VCF | SearchType::ImmediateWin);
    assert!(
        result.depth >= 10 || found_forced_result,
        "AI should reach depth 10+ or find forced result within 500ms, got depth {} score {} type {:?}",
        result.depth, result.score, result.search_type
    );
}

#[test]
fn test_mid_game_search_quality() {
    // Mid-game position with some development from both sides.
    // Tests that AI reaches sufficient depth and makes reasonable decisions.
    // Note: depth 10 is the AVERAGE requirement across the game, not per-move.
    // Early/mid game with wide-open positions may only reach depth 8-9.
    let mut board = Board::new();
    let moves = [
        (9, 9, Stone::Black),   // center
        (7, 7, Stone::White),   // responds
        (9, 11, Stone::Black),  // extends right
        (7, 11, Stone::White),  // mirrors above
        (11, 9, Stone::Black),  // extends down
        (11, 11, Stone::White), // mirrors
        (5, 9, Stone::Black),   // extends up
        (5, 7, Stone::White),   // far
        (9, 5, Stone::Black),   // extends left
        (11, 7, Stone::White),  // scattered
    ];
    for (r, c, s) in moves {
        board.place_stone(Pos::new(r, c), s);
    }

    let mut engine = AIEngine::new();
    let result = engine.get_move_with_stats(&board, Stone::Black);

    println!(
        "MID-GAME: depth={}, nodes={}, time={}ms, nps={}k, score={}, type={:?}",
        result.depth, result.nodes, result.time_ms, result.nps, result.score, result.search_type
    );

    // Should find a reasonable move - via alpha-beta depth 8+ or VCF/VCT forced win
    assert!(result.best_move.is_some(), "Should find a move");
    let found_forced = matches!(result.search_type, SearchType::VCF | SearchType::ImmediateWin);
    assert!(result.depth >= 8 || found_forced,
        "Should reach depth 8+ or find forced win, got depth {} type {:?}", result.depth, result.search_type);
    // Time should be under hard limit (700ms + margin)
    assert!(result.time_ms < 2000, "Should complete in reasonable time, took {}ms", result.time_ms);
}

/// Reproduce the exact position from game log where depth collapse occurred.
/// Game 1, Move #8: K10(B), K8(W), J11(B), M8(W), L10(B), O6(W), J10(B).
/// Previously collapsed to depth 4 with 2.3M nodes. Target: depth 8+.
#[test]
fn test_depth_collapse_regression() {
    let mut board = Board::new();
    // Game 1 position from gomoku_ai.log
    // Notation: K10 = col K (10), row 10 (9 in 0-indexed)
    let moves = [
        (9, 10, Stone::Black),  // K10
        (7, 10, Stone::White),  // K8
        (10, 9, Stone::Black),  // J11
        (7, 12, Stone::White),  // M8
        (9, 11, Stone::Black),  // L10
        (5, 14, Stone::White),  // O6
        (9, 9, Stone::Black),   // J10
    ];
    for (r, c, s) in moves {
        board.place_stone(Pos::new(r, c), s);
    }

    let mut engine = AIEngine::new();
    let result = engine.get_move_with_stats(&board, Stone::White);

    println!(
        "DEPTH-COLLAPSE-REGRESSION: depth={}, nodes={}, time={}ms, nps={}k, score={}, type={:?}",
        result.depth, result.nodes, result.time_ms, result.nps, result.score, result.search_type
    );

    assert!(result.best_move.is_some(), "Should find a move");
    let found_forced = result.score.abs() >= 799_900
        || matches!(result.search_type, SearchType::VCF | SearchType::ImmediateWin);
    assert!(
        result.depth >= 8 || found_forced,
        "Depth collapse regression: expected depth 8+, got depth {} score {} ({:?})",
        result.depth, result.score, result.search_type
    );
}

#[test]
fn test_pos_to_notation_values() {
    assert_eq!(pos_to_notation(Pos::new(0, 0)), "A1");
    assert_eq!(pos_to_notation(Pos::new(18, 18)), "T19");
    assert_eq!(pos_to_notation(Pos::new(9, 9)), "K10");
    assert_eq!(pos_to_notation(Pos::new(9, 8)), "J10");
}

#[test]
fn test_move_result_nps() {
    assert_eq!(MoveResult::compute_nps(5000, 100), 50);
    assert_eq!(MoveResult::compute_nps(5000, 0), 0);
    let r = MoveResult::alpha_beta(Pos::new(1, 1), 42, 10, 1000);
    assert_eq!(r.search_type, SearchType::AlphaBeta);
    assert_eq!(r.score, 42);
    assert_eq!(r.nps, 0);
}

#[test]
fn test_engine_first_move_takes_center() {
    let board = Board::new();
    let engine = AIEngine::with_config(8, 4, 500);
    assert_eq!(engine.get_opening_move(&board, Stone::Black), Some(Pos::new(9, 9)));
}

#[test]
fn test_find_immediate_win_and_winning_moves() {
    let mut board = Board::new();
    for c in 3..7u8 {
        board.place_stone(Pos::new(5, c), Stone::White);
    }
    let engine = AIEngine::with_config(8, 4, 500);
    let wins = engine.find_winning_moves(&board, Stone::White);
    assert!(wins.contains(&Pos::new(5, 2)));
    assert!(wins.contains(&Pos::new(5, 7)));
    let w = engine.find_immediate_win(&board, Stone::White);
    assert!(w == Some(Pos::new(5, 2)) || w == Some(Pos::new(5, 7)));
    assert_eq!(engine.find_immediate_win(&board, Stone::Black), None);
}

#[test]
fn test_pos_to_notation_off_board() {
    assert_eq!(pos_to_notation(Pos { row: 150, col: 20 }), "V151");
    assert_eq!(pos_to_notation(Pos { row: 99, col: 7 }), "H100");
}
