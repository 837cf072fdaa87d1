use gomoku::board::{Board, Pos, Stone};
use gomoku::rules::capture::{count_captures, execute_captures, get_captured_positions, has_capture};
use gomoku::search::alphabeta::play;



#[test]
fn test_capture_horizontal() {
    let mut board = Board::new();
    // Setup: B _ W W B  (B places at _, captures W W)
    // Positions: 5, 6, 7, 8, 9
    board.place_stone(Pos::new(9, 5), Stone::Black);
    board.place_stone(Pos::new(9, 7), Stone::White);
    board.place_stone(Pos::new(9, 8), Stone::White);
    board.place_stone(Pos::new(9, 9), Stone::Black);

    let captured = get_captured_positions(&board, Pos::new(9, 6), Stone::Black);
    assert_eq!(captured.len(), 2);
    assert!(captured.contains(&Pos::new(9, 7)));
    assert!(captured.contains(&Pos::new(9, 8)));
}

#[test]
fn test_capture_vertical() {
    let mut board = Board::new();
    // Vertical capture: B at row 5, _ at row 6, W W at rows 7-8, B at row 9
    board.place_stone(Pos::new(5, 9), Stone::Black);
    board.place_stone(Pos::new(7, 9), Stone::White);
    board.place_stone(Pos::new(8, 9), Stone::White);
    board.place_stone(Pos::new(9, 9), Stone::Black);

    let captured = get_captured_positions(&board, Pos::new(6, 9), Stone::Black);
    assert_eq!(captured.len(), 2);
    assert!(captured.contains(&Pos::new(7, 9)));
    assert!(captured.contains(&Pos::new(8, 9)));
}

#[test]
fn test_capture_diagonal_se() {
    let mut board = Board::new();
    // Diagonal ↘ capture
    board.place_stone(Pos::new(5, 5), Stone::Black);
    board.place_stone(Pos::new(7, 7), Stone::White);
    board.place_stone(Pos::new(8, 8), Stone::White);
    board.place_stone(Pos::new(9, 9), Stone::Black);

    let captured = get_captured_positions(&board, Pos::new(6, 6), Stone::Black);
    assert_eq!(captured.len(), 2);
    assert!(captured.contains(&Pos::new(7, 7)));
    assert!(captured.contains(&Pos::new(8, 8)));
}

#[test]
fn test_capture_diagonal_sw() {
    let mut board = Board::new();
    // Diagonal ↙ capture
    board.place_stone(Pos::new(5, 9), Stone::Black);
    board.place_stone(Pos::new(7, 7), Stone::White);
    board.place_stone(Pos::new(8, 6), Stone::White);
    board.place_stone(Pos::new(9, 5), Stone::Black);

    let captured = get_captured_positions(&board, Pos::new(6, 8), Stone::Black);
    assert_eq!(captured.len(), 2);
    assert!(captured.contains(&Pos::new(7, 7)));
    assert!(captured.contains(&Pos::new(8, 6)));
}

#[test]
fn test_no_capture_single_stone() {
    let mut board = Board::new();
    // B _ W B  (only 1 white stone - no capture)
    board.place_stone(Pos::new(9, 5), Stone::Black);
    board.place_stone(Pos::new(9, 7), Stone::White);
    board.place_stone(Pos::new(9, 8), Stone::Black);

    let captured = get_captured_positions(&board, Pos::new(9, 6), Stone::Black);
    assert_eq!(captured.len(), 0);
}

#[test]
fn test_no_capture_three_stones() {
    let mut board = Board::new();
    // B _ W W W B  (3 white stones - no capture, must be exactly 2)
    board.place_stone(Pos::new(9, 5), Stone::Black);
    board.place_stone(Pos::new(9, 7), Stone::White);
    board.place_stone(Pos::new(9, 8), Stone::White);
    board.place_stone(Pos::new(9, 9), Stone::White);
    board.place_stone(Pos::new(9, 10), Stone::Black);

    let captured = get_captured_positions(&board, Pos::new(9, 6), Stone::Black);
    assert_eq!(captured.len(), 0);
}

#[test]
fn test_execute_capture() {
    let mut board = Board::new();
    board.place_stone(Pos::new(9, 5), Stone::Black);
    board.place_stone(Pos::new(9, 7), Stone::White);
    board.place_stone(Pos::new(9, 8), Stone::White);
    board.place_stone(Pos::new(9, 9), Stone::Black);

    // Place at 9,6 to capture
    board.place_stone(Pos::new(9, 6), Stone::Black);
    let captured = execute_captures(&mut board, Pos::new(9, 6), Stone::Black);

    assert_eq!(captured.len(), 2);
    assert_eq!(board.captures(Stone::Black), 1); // 1 pair
    assert!(board.is_empty(Pos::new(9, 7)));
    assert!(board.is_empty(Pos::new(9, 8)));
}

#[test]
fn test_multiple_captures_same_move() {
    let mut board = Board::new();
    // Setup for 2 captures in one move (horizontal both directions)
    // B W W _ W W B
    // 3 4 5 6 7 8 9
    board.place_stone(Pos::new(9, 3), Stone::Black);
    board.place_stone(Pos::new(9, 4), Stone::White);
    board.place_stone(Pos::new(9, 5), Stone::White);
    // (9, 6) is where black will play
    board.place_stone(Pos::new(9, 7), Stone::White);
    board.place_stone(Pos::new(9, 8), Stone::White);
    board.place_stone(Pos::new(9, 9), Stone::Black);

    board.place_stone(Pos::new(9, 6), Stone::Black);
    let captured = execute_captures(&mut board, Pos::new(9, 6), Stone::Black);

    assert_eq!(captured.len(), 4); // 2 pairs = 4 stones
    assert_eq!(board.captures(Stone::Black), 2); // 2 pairs
}

#[test]
fn test_has_capture() {
    let mut board = Board::new();
    board.place_stone(Pos::new(9, 5), Stone::Black);
    board.place_stone(Pos::new(9, 7), Stone::White);
    board.place_stone(Pos::new(9, 8), Stone::White);
    board.place_stone(Pos::new(9, 9), Stone::Black);

    assert!(has_capture(&board, Pos::new(9, 6), Stone::Black));
    assert!(!has_capture(&board, Pos::new(9, 6), Stone::White));
    assert!(!has_capture(&board, Pos::new(0, 0), Stone::Black));
}

#[test]
fn test_count_captures() {
    let mut board = Board::new();
    // Setup for 2 pairs capture
    board.place_stone(Pos::new(9, 3), Stone::Black);
    board.place_stone(Pos::new(9, 4), Stone::White);
    board.place_stone(Pos::new(9, 5), Stone::White);
    board.place_stone(Pos::new(9, 7), Stone::White);
    board.place_stone(Pos::new(9, 8), Stone::White);
    board.place_stone(Pos::new(9, 9), Stone::Black);

    assert_eq!(count_captures(&board, Pos::new(9, 6), Stone::Black), 2);
}

#[test]
fn test_white_captures_black() {
    let mut board = Board::new();
    // W _ B B W (White captures Black pair)
    board.place_stone(Pos::new(5, 5), Stone::White);
    board.place_stone(Pos::new(5, 7), Stone::Black);
    board.place_stone(Pos::new(5, 8), Stone::Black);
    board.place_stone(Pos::new(5, 9), Stone::White);

    board.place_stone(Pos::new(5, 6), Stone::White);
    let captured = execute_captures(&mut board, Pos::new(5, 6), Stone::White);

    assert_eq!(captured.len(), 2);
    assert_eq!(board.captures(Stone::White), 1);
    assert!(board.is_empty(Pos::new(5, 7)));
    assert!(board.is_empty(Pos::new(5, 8)));
}

#[test]
fn test_capture_at_board_edge() {
    let mut board = Board::new();
    // Edge capture: B _ W W B starting from column 0
    board.place_stone(Pos::new(0, 0), Stone::Black);
    board.place_stone(Pos::new(0, 2), Stone::White);
    board.place_stone(Pos::new(0, 3), Stone::White);
    board.place_stone(Pos::new(0, 4), Stone::Black);

    let captured = get_captured_positions(&board, Pos::new(0, 1), Stone::Black);
    assert_eq!(captured.len(), 2);
}

#[test]
fn test_no_capture_out_of_bounds() {
    let mut board = Board::new();
    // Near edge - should not crash
    board.place_stone(Pos::new(0, 0), Stone::Black);
    board.place_stone(Pos::new(0, 1), Stone::White);

    // Checking capture at edge should not panic
    let captured = get_captured_positions(&board, Pos::new(0, 2), Stone::Black);
    assert_eq!(captured.len(), 0);
}

#[test]
fn test_cross_capture() {
    let mut board = Board::new();
    // Cross pattern: captures in 2 different directions
    //     B
    //     W
    // B W _ W B
    //     W
    //     B
    let center = Pos::new(9, 9);

    // Horizontal
    board.place_stone(Pos::new(9, 6), Stone::Black);
    board.place_stone(Pos::new(9, 7), Stone::White);
    board.place_stone(Pos::new(9, 8), Stone::White);
    board.place_stone(Pos::new(9, 10), Stone::White);
    board.place_stone(Pos::new(9, 11), Stone::White);
    board.place_stone(Pos::new(9, 12), Stone::Black);

    // Vertical
    board.place_stone(Pos::new(6, 9), Stone::Black);
    board.place_stone(Pos::new(7, 9), Stone::White);
    board.place_stone(Pos::new(8, 9), Stone::White);
    board.place_stone(Pos::new(10, 9), Stone::White);
    board.place_stone(Pos::new(11, 9), Stone::White);
    board.place_stone(Pos::new(12, 9), Stone::Black);

    board.place_stone(center, Stone::Black);
    let captured = execute_captures(&mut board, center, Stone::Black);

    // Should capture 4 pairs = 8 stones
    assert_eq!(captured.len(), 8);
    assert_eq!(board.captures(Stone::Black), 4);
}

#[test]
fn test_move_between_flanking_stones_is_safe() {
    let mut board = Board::new();
    // B W _ B : White plays into the gap between Black's stones.
    board.place_stone(Pos::new(9, 5), Stone::Black);
    board.place_stone(Pos::new(9, 6), Stone::White);
    board.place_stone(Pos::new(9, 8), Stone::Black);
    let (after, info) = play(&board, Pos::new(9, 7), Stone::White);
    assert_eq!(info.count, 0);
    assert_eq!(after.get(Pos::new(9, 6)), Stone::White);
    assert_eq!(after.get(Pos::new(9, 7)), Stone::White);
    assert_eq!(after.get(Pos::new(9, 5)), Stone::Black);
    assert_eq!(after.get(Pos::new(9, 8)), Stone::Black);
    assert_eq!(after.captures(Stone::Black), 0);

    // Black then captures the pair: its cells become empty, Black's stones stay.
    let (after2, info2) = play(&after, Pos::new(9, 9), Stone::Black);
    assert_eq!(info2.count, 0);
    let mut board3 = Board::new();
    board3.place_stone(Pos::new(9, 5), Stone::Black);
    board3.place_stone(Pos::new(9, 6), Stone::White);
    board3.place_stone(Pos::new(9, 7), Stone::White);
    let (after3, info3) = play(&board3, Pos::new(9, 8), Stone::Black);
    assert_eq!(info3.count, 2);
    assert!(after3.is_empty(Pos::new(9, 6)));
    assert!(after3.is_empty(Pos::new(9, 7)));
    assert_eq!(after3.get(Pos::new(9, 5)), Stone::Black);
    assert_eq!(after3.get(Pos::new(9, 8)), Stone::Black);
    assert_eq!(after3.captures(Stone::Black), 1);
    assert_eq!(after2.get(Pos::new(9, 9)), Stone::Black);
}
