use gomoku::board::{Board, Pos, Stone};
use gomoku::rules::capture::get_captured_positions;
use gomoku::rules::forbidden::{count_free_threes, is_double_three, is_free_three, is_valid_move, scan_line, LinePattern};



#[test]
fn test_not_double_three_empty_board() {
    let board = Board::new();
    // Empty board - no double three possible
    assert!(!is_double_three(&board, Pos::new(9, 9), Stone::Black));
}

#[test]
fn test_valid_move_empty_pos() {
    let board = Board::new();
    assert!(is_valid_move(&board, Pos::new(9, 9), Stone::Black));
}

#[test]
fn test_invalid_move_occupied() {
    let mut board = Board::new();
    board.place_stone(Pos::new(9, 9), Stone::Black);
    assert!(!is_valid_move(&board, Pos::new(9, 9), Stone::White));
}

#[test]
fn test_free_three_consecutive_horizontal() {
    let mut board = Board::new();
    // Setup: _ B _ B _
    //        5 6 7 8 9
    // Place at 7 creates: _ B B B _
    board.place_stone(Pos::new(9, 6), Stone::Black);
    board.place_stone(Pos::new(9, 8), Stone::Black);

    // After placing at (9,7): creates free-three (consecutive)
    let free_threes = count_free_threes(&board, Pos::new(9, 7), Stone::Black);
    assert_eq!(free_threes, 1, "Should create exactly 1 free-three");
}

#[test]
fn test_free_three_with_gap() {
    let mut board = Board::new();
    // Setup: _ B B _ _
    //        5 6 7 8 9
    // Place at 9 creates: _ B B _ B _ (gap pattern)
    board.place_stone(Pos::new(9, 6), Stone::Black);
    board.place_stone(Pos::new(9, 7), Stone::Black);

    // After placing at (9,9): creates free-three with gap
    let free_threes = count_free_threes(&board, Pos::new(9, 9), Stone::Black);
    assert_eq!(free_threes, 1, "Should create exactly 1 free-three (with gap)");
}

#[test]
fn test_not_free_three_blocked() {
    let mut board = Board::new();
    // Setup: W B _ B _ (one end blocked by opponent)
    board.place_stone(Pos::new(9, 5), Stone::White); // Block
    board.place_stone(Pos::new(9, 6), Stone::Black);
    board.place_stone(Pos::new(9, 8), Stone::Black);

    // After placing at (9,7): NOT a free-three (left end blocked)
    let free_threes = count_free_threes(&board, Pos::new(9, 7), Stone::Black);
    assert_eq!(free_threes, 0, "Should not be free-three (blocked)");
}

#[test]
fn test_double_three_cross_pattern() {
    let mut board = Board::new();
    // Create a + pattern where center creates double-three
    //     col: 7 8 9 10 11
    // row 7:   . . _ .  .
    // row 8:   . . B .  .
    // row 9:   _ B _ B  _
    // row 10:  . . B .  .
    // row 11:  . . _ .  .
    //
    // Horizontal: _ B _ B _ (place at 9 creates _ B B B _)
    board.place_stone(Pos::new(9, 8), Stone::Black);
    board.place_stone(Pos::new(9, 10), Stone::Black);

    // Vertical: _ B _ B _ (place at 9 creates _ B B B _)
    board.place_stone(Pos::new(8, 9), Stone::Black);
    board.place_stone(Pos::new(10, 9), Stone::Black);

    // Placing at (9,9) should be double-three
    assert!(
        is_double_three(&board, Pos::new(9, 9), Stone::Black),
        "Cross pattern should be double-three"
    );
    assert!(
        !is_valid_move(&board, Pos::new(9, 9), Stone::Black),
        "Double-three should be invalid move"
    );
}

#[test]
fn test_double_three_diagonal_cross() {
    let mut board = Board::new();
    // Create diagonal cross pattern
    //     col: 7 8 9 10 11
    // row 7:   B . _ .  B
    // row 8:   . B _ B  .
    // row 9:   _ _ X _  _
    // row 10:  . B _ B  .
    // row 11:  B . _ .  B
    //
    // Diagonal SE: B at (8,8), (10,10)
    board.place_stone(Pos::new(8, 8), Stone::Black);
    board.place_stone(Pos::new(10, 10), Stone::Black);

    // Diagonal SW: B at (8,10), (10,8)
    board.place_stone(Pos::new(8, 10), Stone::Black);
    board.place_stone(Pos::new(10, 8), Stone::Black);

    // Placing at (9,9) should be double-three (two diagonal free-threes)
    let free_threes = count_free_threes(&board, Pos::new(9, 9), Stone::Black);
    assert_eq!(free_threes, 2, "Should create 2 diagonal free-threes");
    assert!(
        is_double_three(&board, Pos::new(9, 9), Stone::Black),
        "Diagonal cross should be double-three"
    );
}

#[test]
fn test_single_free_three_allowed() {
    let mut board = Board::new();
    // Only horizontal: _ B _ B _
    board.place_stone(Pos::new(9, 8), Stone::Black);
    board.place_stone(Pos::new(9, 10), Stone::Black);

    // Single free-three is allowed
    let free_threes = count_free_threes(&board, Pos::new(9, 9), Stone::Black);
    assert_eq!(free_threes, 1, "Should be exactly 1 free-three");
    assert!(
        !is_double_three(&board, Pos::new(9, 9), Stone::Black),
        "Single free-three should not be double-three"
    );
    assert!(
        is_valid_move(&board, Pos::new(9, 9), Stone::Black),
        "Single free-three should be valid"
    );
}

#[test]
fn test_double_three_with_capture_allowed() {
    let mut board = Board::new();
    // Setup double-three pattern
    // Horizontal: _ B _ B _
    board.place_stone(Pos::new(9, 8), Stone::Black);
    board.place_stone(Pos::new(9, 10), Stone::Black);

    // Vertical: _ B _ B _
    board.place_stone(Pos::new(8, 9), Stone::Black);
    board.place_stone(Pos::new(10, 9), Stone::Black);

    // Add capture opportunity
    // We need: B W W _ pattern where _ is at (9,9)
    // Put B at (9,6) and W W at (9,7), (9,8)
    // But (9,8) already has Black, so we need different setup

    // Alternative: capture opportunity in another direction
    // B W W X (where X is (9,9))
    // Need B at (9,6) and W at (9,7), W at (9,8)
    // Conflict: (9,8) has Black

    // Let's create a different capture pattern using vertical
    // We have B at (8,9), want B at (6,9), W at (7,9), and place at where W is
    // This gets complex. Let's use a simpler approach:

    // Remove existing stones and create a capture-compatible pattern
    let mut board2 = Board::new();

    // Create capture pattern: B _ W W B (place at _ captures W W)
    // Put at row 9: B at col 5, W at col 7,8, B at col 9
    board2.place_stone(Pos::new(9, 5), Stone::Black);
    board2.place_stone(Pos::new(9, 7), Stone::White);
    board2.place_stone(Pos::new(9, 8), Stone::White);
    board2.place_stone(Pos::new(9, 9), Stone::Black);

    // Now add vertical free-three setup: _ B _ B _ at column 6
    board2.place_stone(Pos::new(8, 6), Stone::Black);
    board2.place_stone(Pos::new(10, 6), Stone::Black);

    // And another direction to make it double-three
    board2.place_stone(Pos::new(8, 8), Stone::Black);
    board2.place_stone(Pos::new(10, 4), Stone::Black);

    // Place at (9,6) - this captures W W and might create free-threes
    // Capture: B(9,5) [place](9,6) W(9,7) W(9,8) B(9,9)
    // After capture, W W removed, so horizontal pattern changes

    // First verify capture exists
    let captures = get_captured_positions(&board2, Pos::new(9, 6), Stone::Black);
    assert_eq!(captures.len(), 2, "Should capture 2 stones");

    // Even if this creates free-threes, it's allowed because of capture
    assert!(
        !is_double_three(&board2, Pos::new(9, 6), Stone::Black),
        "Double-three with capture should be allowed"
    );
}

#[test]
fn test_four_stones_not_free_three() {
    let mut board = Board::new();
    // 4 stones in a row is NOT a free-three
    board.place_stone(Pos::new(9, 6), Stone::Black);
    board.place_stone(Pos::new(9, 7), Stone::Black);
    board.place_stone(Pos::new(9, 9), Stone::Black);

    // Place at 8 creates 4 in a row
    let free_threes = count_free_threes(&board, Pos::new(9, 8), Stone::Black);
    assert_eq!(free_threes, 0, "4 stones should not count as free-three");
}

#[test]
fn test_two_stones_not_free_three() {
    let mut board = Board::new();
    // 2 stones is not enough for free-three
    board.place_stone(Pos::new(9, 8), Stone::Black);

    let free_threes = count_free_threes(&board, Pos::new(9, 9), Stone::Black);
    assert_eq!(free_threes, 0, "2 stones should not be free-three");
}

#[test]
fn test_edge_position_blocked_by_edge() {
    let mut board = Board::new();
    // At edge, blocked by board boundary
    // Row 0: X B _ B _ (X = edge/out of bounds)
    //        -1 0 1 2 3
    // Actually: col 0 is at edge
    // Pattern: B _ B _ at col 0, 1, 2, 3
    board.place_stone(Pos::new(0, 0), Stone::Black); // At edge
    board.place_stone(Pos::new(0, 2), Stone::Black);

    // Place at 1 creates: B B B _ but left side is at edge (col -1 doesn't exist)
    // This is blocked on one side, so NOT a free-three
    let free_threes = count_free_threes(&board, Pos::new(0, 1), Stone::Black);
    assert_eq!(free_threes, 0, "Edge-blocked pattern should not be free-three");
}

#[test]
fn test_edge_with_space_is_free_three() {
    let mut board = Board::new();
    // Row 0: _ B _ B _ (with space before first B)
    //        0 1 2 3 4
    // This IS a free-three because both ends are open
    board.place_stone(Pos::new(0, 1), Stone::Black);
    board.place_stone(Pos::new(0, 3), Stone::Black);

    // Place at 2 creates: _ B B B _ which is free-three
    // Test scan_line directly
    let mut temp = board.clone();
    temp.place_stone(Pos::new(0, 2), Stone::Black);
    let pattern = scan_line(&temp, Pos::new(0, 2), Stone::Black, 0, 1);

    // Debug: pattern should be stones at [-1, 0, 1] (cols 1, 2, 3)
    // Open ends: col 0 (empty) and col 4 (empty)
    assert_eq!(pattern.stones.len(), 3, "Should have 3 stones");
    assert_eq!(pattern.open_ends, 2, "Should have 2 open ends (col 0 and col 4)");
    assert_eq!(pattern.span, 3, "Span should be 3");

    let free_threes = count_free_threes(&board, Pos::new(0, 2), Stone::Black);
    assert_eq!(free_threes, 1, "Pattern with space before edge is free-three");
}

#[test]
fn test_free_three_pattern_scan() {
    let mut board = Board::new();
    // _ B B _ B _ pattern (spaced three)
    board.place_stone(Pos::new(9, 6), Stone::Black);
    board.place_stone(Pos::new(9, 7), Stone::Black);
    board.place_stone(Pos::new(9, 9), Stone::Black);

    // This already has 3 stones, placing at 8 makes 4
    // Let's test a different pattern
    let mut board2 = Board::new();
    // _ B _ B _ (placing at 7 makes consecutive 3: _ B B B _)
    board2.place_stone(Pos::new(9, 6), Stone::Black);
    board2.place_stone(Pos::new(9, 8), Stone::Black);

    let temp_board = {
        let mut b = board2.clone();
        b.place_stone(Pos::new(9, 7), Stone::Black);
        b
    };
    let pattern = scan_line(&temp_board, Pos::new(9, 7), Stone::Black, 0, 1);

    assert_eq!(pattern.stones.len(), 3, "Should have 3 stones");
    assert_eq!(pattern.open_ends, 2, "Should have 2 open ends");
    assert_eq!(pattern.span, 3, "Span should be 3 for consecutive");
}

#[test]
fn test_is_free_three_logic() {
    // Test consecutive pattern
    let consecutive = LinePattern {
        stones: vec![-1, 0, 1],
        open_ends: 2,
        span: 3,
    };
    assert!(is_free_three(&consecutive), "Consecutive 3 open should be free-three");

    // Test gapped pattern
    let gapped = LinePattern {
        stones: vec![-1, 0, 2],
        open_ends: 2,
        span: 4,
    };
    assert!(is_free_three(&gapped), "Gapped 3 with span 4 should be free-three");

    // Test blocked pattern
    let blocked = LinePattern {
        stones: vec![-1, 0, 1],
        open_ends: 1,
        span: 3,
    };
    assert!(!is_free_three(&blocked), "Blocked should not be free-three");

    // Test 4 stones (not free-three)
    let four = LinePattern {
        stones: vec![-1, 0, 1, 2],
        open_ends: 2,
        span: 4,
    };
    assert!(!is_free_three(&four), "4 stones should not be free-three");

    // Test too spread pattern
    let spread = LinePattern {
        stones: vec![-2, 0, 3],
        open_ends: 2,
        span: 6,
    };
    assert!(!is_free_three(&spread), "Too spread should not be free-three");
}

/// Regression test: Game 1 Move #23 (H10) was a double-three that wasn't detected.
/// Horizontal: F10-G10-H10 = _BBB_ (free-three) — BUT K10 exists at +2 via gap,
/// making scan_line see 4 stones [-2,-1,0,2] instead of 3.
/// Vertical: H10-H11-H12 = _BBB_ (free-three, correctly detected).
/// With the consecutive fallback, both free-threes are now detected.
#[test]
fn test_double_three_with_gap_connected_stone() {
    let mut board = Board::new();
    // Reconstruct Game 1 state at move #23 (before placing H10)
    // Black stones (7 total):
    // K10 = Pos(9,9), H12 = Pos(11,7), G10 = Pos(9,6), F10 = Pos(9,5)
    // J7 = Pos(6,8), H11 = Pos(10,7), L8 = Pos(7,10)
    board.place_stone(Pos::new(9, 9), Stone::Black);  // K10
    board.place_stone(Pos::new(11, 7), Stone::Black); // H12
    board.place_stone(Pos::new(9, 6), Stone::Black);  // G10
    board.place_stone(Pos::new(9, 5), Stone::Black);  // F10
    board.place_stone(Pos::new(6, 8), Stone::Black);  // J7
    board.place_stone(Pos::new(10, 7), Stone::Black); // H11
    board.place_stone(Pos::new(7, 10), Stone::Black); // L8

    // White stones (5 total):
    // M11 = Pos(10,11), K14 = Pos(13,9), G9 = Pos(8,6)
    // J12 = Pos(11,8), K11 = Pos(10,9)
    board.place_stone(Pos::new(10, 11), Stone::White); // M11
    board.place_stone(Pos::new(13, 9), Stone::White);  // K14
    board.place_stone(Pos::new(8, 6), Stone::White);   // G9
    board.place_stone(Pos::new(11, 8), Stone::White);  // J12
    board.place_stone(Pos::new(10, 9), Stone::White);  // K11

    // H10 = Pos(9, 7) — should be forbidden double-three
    let pos = Pos::new(9, 7);
    let free_threes = count_free_threes(&board, pos, Stone::Black);
    assert_eq!(
        free_threes, 2,
        "H10 should create 2 free-threes (horizontal F10-G10-H10, vertical H10-H11-H12)"
    );
    assert!(
        is_double_three(&board, pos, Stone::Black),
        "H10 should be a forbidden double-three"
    );
    assert!(
        !is_valid_move(&board, pos, Stone::Black),
        "H10 should be an invalid move"
    );
}

/// Test that consecutive fallback doesn't falsely detect free-threes
/// when the consecutive subset is blocked or has only 2 stones.
#[test]
fn test_consecutive_fallback_no_false_positive() {
    let mut board = Board::new();
    // Setup: W B B _ B _ (left end blocked by opponent)
    // Gap-inclusive scan: 3 stones [-1, 0, 2] but left blocked by W → open_ends=1
    // Consecutive scan: 2 stones [-1, 0] → not free-three (only 2)
    board.place_stone(Pos::new(9, 4), Stone::White); // blocker
    board.place_stone(Pos::new(9, 5), Stone::Black);
    board.place_stone(Pos::new(9, 7), Stone::Black);

    let free_threes = count_free_threes(&board, Pos::new(9, 6), Stone::Black);
    assert_eq!(free_threes, 0, "Blocked pattern should not be free-three");
}

#[test]
fn test_triple_free_three() {
    let mut board = Board::new();
    // Create 3 free-threes at center (horizontal, vertical, diagonal)
    // This is definitely forbidden

    // Horizontal: _ B _ B _
    board.place_stone(Pos::new(9, 8), Stone::Black);
    board.place_stone(Pos::new(9, 10), Stone::Black);

    // Vertical: _ B _ B _
    board.place_stone(Pos::new(8, 9), Stone::Black);
    board.place_stone(Pos::new(10, 9), Stone::Black);

    // Diagonal SE: _ B _ B _
    board.place_stone(Pos::new(8, 8), Stone::Black);
    board.place_stone(Pos::new(10, 10), Stone::Black);

    let free_threes = count_free_threes(&board, Pos::new(9, 9), Stone::Black);
    assert!(free_threes >= 2, "Should be at least double-three");
    assert!(
        is_double_three(&board, Pos::new(9, 9), Stone::Black),
        "Triple free-three is still forbidden"
    );
}
