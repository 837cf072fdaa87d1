use gomoku::board::{Board, Pos, Stone};
use gomoku::eval::heuristic::evaluate;
use gomoku::eval::patterns::{capture_score, PatternScore};



#[test]
fn heuristic_test_evaluate_empty_board() {
    let board = Board::new();
    let score = evaluate(&board, Stone::Black);
    assert_eq!(score, 0, "Empty board should have score 0");
}

#[test]
fn heuristic_test_evaluate_center_bonus() {
    let mut board = Board::new();
    board.place_stone(Pos::new(9, 9), Stone::Black);

    let score = evaluate(&board, Stone::Black);
    assert!(score > 0, "Center position should be valuable, got {}", score);
}

#[test]
fn heuristic_test_evaluate_corner_less_valuable() {
    let mut board_center = Board::new();
    board_center.place_stone(Pos::new(9, 9), Stone::Black);

    let mut board_corner = Board::new();
    board_corner.place_stone(Pos::new(0, 0), Stone::Black);

    let center_score = evaluate(&board_center, Stone::Black);
    let corner_score = evaluate(&board_corner, Stone::Black);

    assert!(
        center_score > corner_score,
        "Center ({}) should be more valuable than corner ({})",
        center_score,
        corner_score
    );
}

#[test]
fn heuristic_test_evaluate_winning_position() {
    let mut board = Board::new();
    for i in 0..5 {
        board.place_stone(Pos::new(9, i), Stone::Black);
    }

    // Note: evaluate() no longer checks five-in-a-row (alpha-beta does that).
    // But the pattern scoring should still produce a very high positive score.
    let score = evaluate(&board, Stone::Black);
    assert!(score >= PatternScore::FIVE, "Five in a row should produce very high score, got {}", score);
}

#[test]
fn heuristic_test_evaluate_losing_position() {
    let mut board = Board::new();
    for i in 0..5 {
        board.place_stone(Pos::new(9, i), Stone::White);
    }

    // Note: evaluate() no longer checks five-in-a-row (alpha-beta does that).
    // But the pattern scoring should still produce a very negative score.
    let score = evaluate(&board, Stone::Black);
    assert!(score <= -PatternScore::FIVE, "Opponent five should produce very low score, got {}", score);
}

#[test]
fn heuristic_test_evaluate_capture_win() {
    let mut board = Board::new();
    board.add_captures(Stone::Black, 5);

    let score = evaluate(&board, Stone::Black);
    assert_eq!(score, PatternScore::FIVE, "Capture win should be winning score");
}

#[test]
fn heuristic_test_evaluate_capture_loss() {
    let mut board = Board::new();
    board.add_captures(Stone::White, 5);

    let score = evaluate(&board, Stone::Black);
    assert_eq!(score, -PatternScore::FIVE, "Opponent capture win should be losing");
}

#[test]
fn heuristic_test_evaluate_open_four() {
    let mut board = Board::new();
    // _OOOO_ pattern: stones at cols 1-4, empty at 0 and 5
    for i in 1..5 {
        board.place_stone(Pos::new(9, i), Stone::Black);
    }

    let score = evaluate(&board, Stone::Black);
    assert!(score > 0, "Open four should have positive score, got {}", score);
    assert!(
        score < PatternScore::FIVE,
        "Open four should be less than win"
    );
}

#[test]
fn heuristic_test_evaluate_closed_four() {
    let mut board = Board::new();
    // XOOOO_ pattern: white at col 0, blacks at 1-4, empty at 5
    board.place_stone(Pos::new(9, 0), Stone::White);
    for i in 1..5 {
        board.place_stone(Pos::new(9, i), Stone::Black);
    }

    let score = evaluate(&board, Stone::Black);
    assert!(score > 0, "Closed four should have positive score");
}

#[test]
fn heuristic_test_evaluate_open_three() {
    let mut board = Board::new();
    // _OOO_ pattern: stones at cols 1-3, empty at 0 and 4
    for i in 1..4 {
        board.place_stone(Pos::new(9, i), Stone::Black);
    }

    let score = evaluate(&board, Stone::Black);
    assert!(score > 0, "Open three should have positive score");
}

#[test]
fn test_evaluate_negamax_symmetry() {
    // Negamax REQUIRES: evaluate(board, Black) == -evaluate(board, White)
    let mut board = Board::new();

    // Create a non-trivial position
    board.place_stone(Pos::new(9, 7), Stone::Black);
    board.place_stone(Pos::new(9, 8), Stone::Black);
    board.place_stone(Pos::new(9, 9), Stone::Black); // Open three for Black

    board.place_stone(Pos::new(5, 5), Stone::White);
    board.place_stone(Pos::new(5, 6), Stone::White); // Open two for White

    let black_score = evaluate(&board, Stone::Black);
    let white_score = evaluate(&board, Stone::White);

    assert_eq!(
        black_score, -white_score,
        "Negamax symmetry violated: eval(Black)={}, eval(White)={}, -eval(White)={}",
        black_score, white_score, -white_score
    );
}

#[test]
fn test_evaluate_perspective_correct() {
    // Verify that evaluation correctly identifies advantage
    let mut board1 = Board::new();
    let mut board2 = Board::new();

    // Board1: Black has open three
    for i in 1..4 {
        board1.place_stone(Pos::new(9, i), Stone::Black);
    }

    // Board2: White has open three
    for i in 1..4 {
        board2.place_stone(Pos::new(9, i), Stone::White);
    }

    let our_advantage = evaluate(&board1, Stone::Black);
    let their_advantage = evaluate(&board2, Stone::Black);

    assert!(
        our_advantage > 0,
        "Our pattern should give positive score, got {}",
        our_advantage
    );
    assert!(
        their_advantage < 0,
        "Their pattern should give negative score, got {}",
        their_advantage
    );
}

#[test]
fn heuristic_test_evaluate_multiple_patterns() {
    let mut board = Board::new();

    // Create two separate open twos for black
    board.place_stone(Pos::new(5, 5), Stone::Black);
    board.place_stone(Pos::new(5, 6), Stone::Black);

    board.place_stone(Pos::new(10, 10), Stone::Black);
    board.place_stone(Pos::new(10, 11), Stone::Black);

    let score = evaluate(&board, Stone::Black);
    assert!(
        score > 0,
        "Multiple patterns should give positive score, got {}",
        score
    );
}

#[test]
fn heuristic_test_evaluate_diagonal_pattern() {
    let mut board = Board::new();
    // Diagonal three
    for i in 0..3 {
        board.place_stone(Pos::new(5 + i, 5 + i), Stone::Black);
    }

    let score = evaluate(&board, Stone::Black);
    assert!(
        score > 0,
        "Diagonal pattern should be detected and scored positively"
    );
}

#[test]
fn heuristic_test_evaluate_symmetry() {
    // Same position should give same score regardless of perspective direction
    let mut board = Board::new();
    board.place_stone(Pos::new(9, 9), Stone::Black);
    board.place_stone(Pos::new(9, 10), Stone::White);

    let black_score = evaluate(&board, Stone::Black);
    let white_score = evaluate(&board, Stone::White);

    // Scores should be roughly opposite (not exactly due to position bonuses)
    // But the sign should be opposite if one has advantage
    assert!(
        (black_score > 0) != (white_score > 0) || (black_score == 0 && white_score == 0),
        "Scores should reflect opposite perspectives: black={}, white={}",
        black_score,
        white_score
    );
}

#[test]
fn heuristic_test_evaluate_captures_matter() {
    let mut board1 = Board::new();
    let mut board2 = Board::new();

    // Board1: No captures
    board1.place_stone(Pos::new(9, 9), Stone::Black);

    // Board2: Same stone + 2 captures
    board2.place_stone(Pos::new(9, 9), Stone::Black);
    board2.add_captures(Stone::Black, 2);

    let score1 = evaluate(&board1, Stone::Black);
    let score2 = evaluate(&board2, Stone::Black);

    assert!(
        score2 > score1,
        "Captures should increase score: without={}, with={}",
        score1,
        score2
    );
}

#[test]
fn heuristic_test_evaluate_near_capture_win() {
    let mut board = Board::new();
    board.add_captures(Stone::Black, 4);

    let score = evaluate(&board, Stone::Black);
    assert!(
        score >= PatternScore::NEAR_CAPTURE_WIN,
        "4 captures should be highly valuable, got {}",
        score
    );
}



#[test]
fn patterns_test_pattern_score_hierarchy() {
    // Verify score hierarchy makes sense
    assert!(PatternScore::FIVE > PatternScore::OPEN_FOUR);
    assert!(PatternScore::OPEN_FOUR > PatternScore::CLOSED_FOUR);
    assert!(PatternScore::CLOSED_FOUR > PatternScore::OPEN_THREE);
    assert!(PatternScore::OPEN_THREE > PatternScore::CLOSED_THREE);
    assert!(PatternScore::CLOSED_THREE > PatternScore::OPEN_TWO);
    assert!(PatternScore::OPEN_TWO > PatternScore::CLOSED_TWO);
}

#[test]
fn patterns_test_capture_score_zero() {
    assert_eq!(capture_score(0, 0), 0);
}

#[test]
fn patterns_test_capture_score_advantage() {
    let score = capture_score(2, 0);
    assert!(score > 0, "Should be positive for capture advantage");
}

#[test]
fn patterns_test_capture_score_near_win() {
    let score = capture_score(4, 0);
    assert!(score >= 60_000, "4 captures should be highly valuable (near-win)");
}

#[test]
fn test_capture_score_symmetric() {
    // Negamax requires: capture_score(a, b) == -capture_score(b, a)
    let score_1_0 = capture_score(1, 0);
    let score_0_1 = capture_score(0, 1);
    assert_eq!(
        score_1_0, -score_0_1,
        "capture_score must be symmetric: (1,0)={}, (0,1)={}",
        score_1_0, score_0_1
    );

    let score_2_1 = capture_score(2, 1);
    let score_1_2 = capture_score(1, 2);
    assert_eq!(
        score_2_1, -score_1_2,
        "capture_score must be symmetric: (2,1)={}, (1,2)={}",
        score_2_1, score_1_2
    );
}

#[test]
fn patterns_test_capture_score_win() {
    let score = capture_score(5, 0);
    assert_eq!(score, PatternScore::CAPTURE_WIN);
}

#[test]
fn test_capture_score_negamax_symmetry() {
    // Verify negamax property: score(a,b) == -score(b,a) for all values
    for a in 0..=5u8 {
        for b in 0..=5u8 {
            let score_ab = capture_score(a, b);
            let score_ba = capture_score(b, a);
            assert_eq!(
                score_ab, -score_ba,
                "Negamax symmetry violated: capture_score({},{})={}, capture_score({},{})={}",
                a, b, score_ab, b, a, score_ba
            );
        }
    }
}
