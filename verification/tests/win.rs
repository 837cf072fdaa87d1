use gomoku::board::{Board, Pos, Stone};
use gomoku::rules::win::{
    can_break_five_by_capture, check_winner, find_five_line_at_pos, find_five_positions, has_five_in_row,
};



#[test]
fn test_five_in_row_horizontal() {
    let mut board = Board::new();
    for i in 0..5 {
        board.place_stone(Pos::new(9, i), Stone::Black);
    }
    assert!(has_five_in_row(&board, Stone::Black));
    assert!(!has_five_in_row(&board, Stone::White));
}

#[test]
fn test_five_in_row_vertical() {
    let mut board = Board::new();
    for i in 0..5 {
        board.place_stone(Pos::new(i, 9), Stone::Black);
    }
    assert!(has_five_in_row(&board, Stone::Black));
}

#[test]
fn test_five_in_row_diagonal() {
    let mut board = Board::new();
    for i in 0..5 {
        board.place_stone(Pos::new(i, i), Stone::White);
    }
    assert!(has_five_in_row(&board, Stone::White));
}

#[test]
fn test_six_in_row_also_wins() {
    let mut board = Board::new();
    for i in 0..6 {
        board.place_stone(Pos::new(9, i), Stone::Black);
    }
    assert!(has_five_in_row(&board, Stone::Black));
}

#[test]
fn test_four_in_row_not_win() {
    let mut board = Board::new();
    for i in 0..4 {
        board.place_stone(Pos::new(9, i), Stone::Black);
    }
    assert!(!has_five_in_row(&board, Stone::Black));
}

#[test]
fn test_capture_win() {
    let mut board = Board::new();
    board.add_captures(Stone::Black, 5);
    assert_eq!(check_winner(&board), Some(Stone::Black));
}

#[test]
fn test_capture_win_white() {
    let mut board = Board::new();
    board.add_captures(Stone::White, 5);
    assert_eq!(check_winner(&board), Some(Stone::White));
}

#[test]
fn test_breakable_five() {
    // Five at row 9, cols 5-9 (Black), with White bracket at (7,7)
    // and extra Black at (8,7). White can capture (9,7)+(8,7) via (10,7).
    //
    //         col: 5 6 7 8 9
    // row 7:       . . W . .    <- bracket stone
    // row 8:       . . B . .    <- extra black (captured with five-stone)
    // row 9:       B B B B B    <- five in a row
    // row 10:      . . _ . .    <- White places here for break
    let mut board = Board::new();
    board.place_stone(Pos::new(7, 7), Stone::White);
    for i in 5..10 {
        board.place_stone(Pos::new(9, i), Stone::Black);
    }
    board.place_stone(Pos::new(8, 7), Stone::Black);

    let five = find_five_positions(&board, Stone::Black).unwrap();
    // STATIC check: the five IS physically breakable
    assert!(can_break_five_by_capture(&board, &five, Stone::Black));
}

#[test]
fn test_unbreakable_five_wins() {
    let mut board = Board::new();
    // 5 blacks with no capture threat
    for i in 5..10 {
        board.place_stone(Pos::new(9, i), Stone::Black);
    }
    assert_eq!(check_winner(&board), Some(Stone::Black));
}

#[test]
fn test_no_winner() {
    let board = Board::new();
    assert_eq!(check_winner(&board), None);
}

#[test]
fn test_diagonal_sw_five() {
    let mut board = Board::new();
    // Diagonal from (4, 8) to (8, 4)
    for i in 0..5 {
        board.place_stone(Pos::new(4 + i, 8 - i), Stone::White);
    }
    assert!(has_five_in_row(&board, Stone::White));
    assert_eq!(check_winner(&board), Some(Stone::White));
}

#[test]
fn test_five_at_board_edge() {
    let mut board = Board::new();
    // 5 blacks at bottom edge
    for i in 0..5 {
        board.place_stone(Pos::new(18, i), Stone::Black);
    }
    assert!(has_five_in_row(&board, Stone::Black));
    assert_eq!(check_winner(&board), Some(Stone::Black));
}

#[test]
fn test_five_at_corner() {
    let mut board = Board::new();
    // Diagonal from (14, 14) to (18, 18)
    for i in 0..5 {
        board.place_stone(Pos::new(14 + i, 14 + i), Stone::White);
    }
    assert!(has_five_in_row(&board, Stone::White));
    assert_eq!(check_winner(&board), Some(Stone::White));
}

#[test]
fn test_empty_not_five() {
    let board = Board::new();
    assert!(!has_five_in_row(&board, Stone::Black));
    assert!(!has_five_in_row(&board, Stone::White));
    assert!(find_five_positions(&board, Stone::Empty).is_none());
}

#[test]
fn test_capture_beats_five() {
    // If both have winning conditions, capture is checked first
    let mut board = Board::new();
    board.add_captures(Stone::White, 5);
    for i in 0..5 {
        board.place_stone(Pos::new(9, i), Stone::Black);
    }
    // White wins by capture (checked first)
    assert_eq!(check_winner(&board), Some(Stone::White));
}

#[test]
fn test_unbreakable_second_five_wins() {
    let mut board = Board::new();
    // First five (row 9) is breakable through the pair (8,7)-(9,7).
    board.place_stone(Pos::new(7, 7), Stone::White);
    for i in 5..10 {
        board.place_stone(Pos::new(9, i), Stone::Black);
    }
    board.place_stone(Pos::new(8, 7), Stone::Black);
    let first = find_five_positions(&board, Stone::Black).unwrap();
    assert!(can_break_five_by_capture(&board, &first, Stone::Black));
    // A second five far away that nothing can break.
    for i in 5..10 {
        board.place_stone(Pos::new(15, i), Stone::Black);
    }
    assert_eq!(check_winner(&board), Some(Stone::Black));
    assert!(gomoku::rules::win::has_unbreakable_five(&board, Stone::Black));
    assert!(!gomoku::rules::win::has_unbreakable_five(&board, Stone::White));
}

#[test]
fn test_only_breakable_five_no_winner() {
    let mut board = Board::new();
    board.place_stone(Pos::new(7, 7), Stone::White);
    for i in 5..10 {
        board.place_stone(Pos::new(9, i), Stone::Black);
    }
    board.place_stone(Pos::new(8, 7), Stone::Black);
    assert_eq!(check_winner(&board), None);
}

#[test]
fn test_five_line_at_pos_is_one_run_through_the_stone() {
    let mut board = Board::new();
    for c in 5..10 {
        board.place_stone(Pos::new(9, c), Stone::Black);
    }
    let line = find_five_line_at_pos(&board, Pos::new(9, 7), Stone::Black).expect("five");
    assert_eq!(
        line,
        vec![Pos::new(9, 7), Pos::new(9, 8), Pos::new(9, 9), Pos::new(9, 6), Pos::new(9, 5)]
    );
    assert!(find_five_line_at_pos(&board, Pos::new(9, 7), Stone::White).is_none());
    assert!(find_five_line_at_pos(&board, Pos::new(8, 7), Stone::Black).is_none());
}
