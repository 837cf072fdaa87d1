use gomoku::rules::{execute_captures, find_five_positions};
use gomoku::engine::MoveResult;
use gomoku::ui::{
    AiEvent, AiState, AiStats, CaptureAnimation, EnginePoll, GameMode, GameState, MoveTimer, OpeningRule,
    WinType,
};
use std::time::Duration;
use gomoku::{Pos, Stone};

/// Reproduce the exact game position where the UI incorrectly declared a win.
/// F13-G12-H11-J10-K9 diagonal five is breakable because White can capture
/// J10+H10 by placing at K10 (pattern: K10(W)-J10(B)-H10(B)-G10(W)).
#[test]
fn test_five_in_row_breakable_by_capture() {
    let mut state = GameState::new(GameMode::PvP { show_suggestions: false });

    // Build the exact board position from the game:
    // Black stones: J10, H10, K9, K11, J9, M9, K12, H11, G12
    // White stones: H12, L10, G10, K8, M8, H9, N9, K13, J11, L8
    // (K10 and L9 were captured by J11, freeing those positions)

    let moves: Vec<(u8, u8, Stone)> = vec![
        // White at G10 (9,6) — key flanking stone for capture
        (9, 6, Stone::White),
        // Black stones forming the diagonal
        (8, 9, Stone::Black),  // K9
        (9, 8, Stone::Black),  // J10
        (9, 7, Stone::Black),  // H10 (captured with J10 if White places K10)
        (10, 7, Stone::Black), // H11
        (11, 6, Stone::Black), // G12
        // White stones to make position realistic
        (10, 8, Stone::White), // J11
        (11, 7, Stone::White), // H12
    ];

    for (r, c, color) in moves {
        state.board.place_stone(Pos::new(r, c), color);
    }

    // Now Black plays F13 = Pos(12, 5) completing diagonal five
    state.current_turn = Stone::Black;
    // Place the stone manually to test check_win
    let f13 = Pos::new(12, 5);
    state.board.place_stone(f13, Stone::Black);

    // The five F13-G12-H11-J10-K9 should NOT be declared a win
    // because White can capture J10+H10 by placing at K10(9,9):
    // K10(W,9,9) - J10(B,9,8) - H10(B,9,7) - G10(W,9,6) = X-O-O-X
    let result = state.check_win(f13, Stone::Black);
    assert!(
        result.is_none(),
        "Five F13-G12-H11-J10-K9 should NOT be a win: White can break it by capturing J10+H10"
    );
}

/// Verify that a genuine unbreakable five IS declared as a win.
#[test]
fn test_five_in_row_unbreakable_wins() {
    let mut state = GameState::new(GameMode::PvP { show_suggestions: false });

    // Simple horizontal five with no White stones nearby to capture
    for i in 5..10 {
        state.board.place_stone(Pos::new(9, i), Stone::Black);
    }
    // Add a distant White stone
    state.board.place_stone(Pos::new(0, 0), Stone::White);

    let result = state.check_win(Pos::new(9, 7), Stone::Black);
    assert!(result.is_some(), "Unbreakable five should be declared a win");
    assert_eq!(result.unwrap().win_type, WinType::FiveInRow);
}

/// When a breakable five exists and the opponent fails to break it,
/// the five-holder should win.
#[test]
fn test_breakable_five_wins_when_not_broken() {
    let mut state = GameState::new(GameMode::PvP { show_suggestions: false });

    // Same breakable five setup: Black diagonal K9-J10-H11-G12-F13
    // White at G10 enables capture of J10+H10 via K10
    state.board.place_stone(Pos::new(9, 6), Stone::White);  // G10
    state.board.place_stone(Pos::new(8, 9), Stone::Black);  // K9
    state.board.place_stone(Pos::new(9, 8), Stone::Black);  // J10
    state.board.place_stone(Pos::new(9, 7), Stone::Black);  // H10 (capture target)
    state.board.place_stone(Pos::new(10, 7), Stone::Black); // H11
    state.board.place_stone(Pos::new(11, 6), Stone::Black); // G12
    state.board.place_stone(Pos::new(12, 5), Stone::Black); // F13 (completes five)
    state.board.place_stone(Pos::new(10, 8), Stone::White); // J11
    state.board.place_stone(Pos::new(11, 7), Stone::White); // H12

    // Black's five is breakable — check_win returns None (opponent gets a chance)
    let f13 = Pos::new(12, 5);
    let result = state.check_win(f13, Stone::Black);
    assert!(result.is_none(), "Breakable five should not win immediately");

    // White plays A1 — does NOT break the five
    let a1 = Pos::new(0, 0);
    state.board.place_stone(a1, Stone::White);

    // Now check_win should detect Black's surviving five → Black wins
    let result = state.check_win(a1, Stone::White);
    assert!(result.is_some(), "Black should win: White failed to break the five");
    assert_eq!(result.unwrap().winner, Stone::Black);
    assert_eq!(result.unwrap().win_type, WinType::FiveInRow);
}

/// When a breakable five is successfully broken by capture,
/// the game should continue.
#[test]
fn test_breakable_five_broken_by_capture_continues() {
    let mut state = GameState::new(GameMode::PvP { show_suggestions: false });

    // Same breakable five setup
    state.board.place_stone(Pos::new(9, 6), Stone::White);  // G10
    state.board.place_stone(Pos::new(8, 9), Stone::Black);  // K9
    state.board.place_stone(Pos::new(9, 8), Stone::Black);  // J10
    state.board.place_stone(Pos::new(9, 7), Stone::Black);  // H10
    state.board.place_stone(Pos::new(10, 7), Stone::Black); // H11
    state.board.place_stone(Pos::new(11, 6), Stone::Black); // G12
    state.board.place_stone(Pos::new(12, 5), Stone::Black); // F13
    state.board.place_stone(Pos::new(10, 8), Stone::White); // J11
    state.board.place_stone(Pos::new(11, 7), Stone::White); // H12

    // Black's five is breakable
    let result = state.check_win(Pos::new(12, 5), Stone::Black);
    assert!(result.is_none());

    // White places K10 (9,9) — captures J10(9,8)+H10(9,7) via G10(9,6)
    // Pattern: K10(W) - J10(B) - H10(B) - G10(W) = X-O-O-X
    let k10 = Pos::new(9, 9);
    state.board.place_stone(k10, Stone::White);
    execute_captures(&mut state.board, k10, Stone::White);

    // Black's five should be broken (J10 removed from the diagonal)
    assert!(
        find_five_positions(&state.board, Stone::Black).is_none(),
        "Black's five should be broken after capture"
    );

    // check_win should return None — game continues
    let result = state.check_win(k10, Stone::White);
    assert!(result.is_none(), "Game should continue after five is broken by capture");
}


#[test]
fn test_try_place_stone_errors_and_success() {
    let mut state = GameState::new(GameMode::PvP { show_suggestions: false });
    assert_eq!(state.try_place_stone(Pos::new(9, 9)), Ok(()));
    assert_eq!(state.current_turn, Stone::White);
    assert_eq!(state.board.get(Pos::new(9, 9)), Stone::Black);
    assert_eq!(state.try_place_stone(Pos::new(9, 9)), Err("Position is occupied".to_string()));
    assert_eq!(state.move_history.len(), 1);

    let mut ai = GameState::new(GameMode::AiVsAi);
    assert_eq!(ai.try_place_stone(Pos::new(9, 9)), Err("Not your turn".to_string()));

    let mut pro = GameState::with_opening_rule(GameMode::PvP { show_suggestions: false }, OpeningRule::Pro);
    assert_eq!(
        pro.try_place_stone(Pos::new(3, 3)),
        Err("Pro rule: First move must be at center (K10)".to_string())
    );
    assert_eq!(pro.try_place_stone(Pos::new(9, 9)), Ok(()));
    assert_eq!(pro.try_place_stone(Pos::new(0, 0)), Ok(()));
    assert_eq!(
        pro.try_place_stone(Pos::new(10, 10)),
        Err("Pro rule: 3rd move must be ≥3 intersections from center".to_string())
    );
    assert_eq!(pro.try_place_stone(Pos::new(12, 12)), Ok(()));
}

#[test]
fn test_try_place_stone_double_three_and_game_over() {
    let mut state = GameState::new(GameMode::PvP { show_suggestions: false });
    state.board.place_stone(Pos::new(9, 8), Stone::Black);
    state.board.place_stone(Pos::new(9, 10), Stone::Black);
    state.board.place_stone(Pos::new(8, 9), Stone::Black);
    state.board.place_stone(Pos::new(10, 9), Stone::Black);
    assert_eq!(state.try_place_stone(Pos::new(9, 9)), Err("Forbidden: Double-three".to_string()));

    let mut won = GameState::new(GameMode::PvP { show_suggestions: false });
    for c in 0..4u8 {
        assert!(won.try_place_stone(Pos::new(5, c)).is_ok());
        assert!(won.try_place_stone(Pos::new(15, c * 2)).is_ok());
    }
    assert!(won.try_place_stone(Pos::new(5, 4)).is_ok());
    let result = won.game_over.expect("five in a row wins");
    assert_eq!(result.winner, Stone::Black);
    assert_eq!(result.win_type, WinType::FiveInRow);
    assert_eq!(won.try_place_stone(Pos::new(0, 18)), Err("Game is over".to_string()));
}

#[test]
fn test_undo_redo_pvp() {
    let mut state = GameState::new(GameMode::PvP { show_suggestions: false });
    assert!(state.try_place_stone(Pos::new(9, 9)).is_ok());
    assert!(state.try_place_stone(Pos::new(9, 10)).is_ok());
    assert!(state.try_place_stone(Pos::new(10, 10)).is_ok());
    state.undo();
    assert_eq!(state.move_history.len(), 2);
    assert_eq!(state.current_turn, Stone::Black);
    assert_eq!(state.board.get(Pos::new(10, 10)), Stone::Empty);
    assert_eq!(state.last_move, Some(Pos::new(9, 10)));
    assert_eq!(state.redo_groups.len(), 1);
    state.redo();
    assert_eq!(state.move_history.len(), 3);
    assert_eq!(state.board.get(Pos::new(10, 10)), Stone::Black);
    assert_eq!(state.redo_groups.len(), 0);
    state.undo();
    assert!(state.try_place_stone(Pos::new(0, 0)).is_ok());
    assert_eq!(state.redo_groups.len(), 0);
}

#[test]
fn test_undo_pve_takes_two_and_replays_captures() {
    let mut state = GameState::new(GameMode::PvE { human_color: Stone::Black });
    state.current_turn = Stone::Black;
    assert!(state.try_place_stone(Pos::new(9, 9)).is_ok());
    // The AI's turn: a human move is refused.
    assert_eq!(state.try_place_stone(Pos::new(0, 0)), Err("Not your turn".to_string()));
    state.undo();
    assert_eq!(state.move_history.len(), 0);
    assert_eq!(state.current_turn, Stone::Black);
    assert_eq!(state.board.get(Pos::new(9, 9)), Stone::Empty);

    let mut pvp = GameState::new(GameMode::PvP { show_suggestions: false });
    for &(r, c) in &[(9u8, 9u8), (9, 10), (0, 0), (9, 11), (9, 12)] {
        assert!(pvp.try_place_stone(Pos::new(r, c)).is_ok());
    }
    assert_eq!(pvp.board.captures(Stone::Black), 1);
    assert!(pvp.capture_animation.is_some());
    assert!(pvp.try_place_stone(Pos::new(1, 1)).is_ok());
    pvp.undo();
    assert_eq!(pvp.board.captures(Stone::Black), 1);
    assert_eq!(pvp.board.get(Pos::new(9, 10)), Stone::Empty);
    assert_eq!(pvp.current_turn, Stone::White);
    let (board, last) = pvp.build_review_board(2);
    assert_eq!(board.get(Pos::new(9, 10)), Stone::White);
    assert_eq!(last, Some(Pos::new(9, 10)));
}

#[test]
fn test_review_navigation() {
    let mut state = GameState::new(GameMode::PvP { show_suggestions: false });
    state.review_prev();
    assert!(!state.is_reviewing());
    for c in 0..4u8 {
        assert!(state.try_place_stone(Pos::new(3, c)).is_ok());
        assert!(state.try_place_stone(Pos::new(12, c * 2)).is_ok());
    }
    assert!(state.try_place_stone(Pos::new(3, 4)).is_ok());
    assert!(state.game_over.is_some());
    state.review_prev();
    assert_eq!(state.review_index, Some(8));
    state.review_prev();
    assert_eq!(state.review_index, Some(7));
    state.review_next();
    assert_eq!(state.review_index, Some(8));
    state.review_next();
    assert_eq!(state.review_index, None);
    assert!(!state.is_reviewing());
}

#[test]
fn test_swap_rule() {
    let mut state = GameState::with_opening_rule(GameMode::PvE { human_color: Stone::Black }, OpeningRule::Swap);
    state.mode = GameMode::PvP { show_suggestions: false };
    assert!(state.try_place_stone(Pos::new(9, 9)).is_ok());
    assert!(state.try_place_stone(Pos::new(9, 10)).is_ok());
    assert!(!state.swap_pending);
    assert!(state.try_place_stone(Pos::new(10, 9)).is_ok());
    assert!(state.swap_pending);
    state.mode = GameMode::PvE { human_color: Stone::Black };
    state.execute_swap();
    assert!(!state.swap_pending);
    assert_eq!(state.mode, GameMode::PvE { human_color: Stone::White });
    assert_eq!(state.message.as_deref(), Some("Colors swapped!"));
    state.decline_swap();
    assert_eq!(state.message.as_deref(), Some("Swap declined, game continues."));
}

#[test]
fn test_turn_queries() {
    let state = GameState::new(GameMode::PvE { human_color: Stone::White });
    assert!(!state.is_human_turn());
    assert!(state.is_ai_turn());
    assert!(!state.is_ai_thinking());
    let pvp = GameState::new(GameMode::PvP { show_suggestions: true });
    assert!(pvp.is_human_turn());
    assert!(!pvp.is_ai_turn());
    assert_eq!(OpeningRule::default(), OpeningRule::Standard);
    assert_eq!(GameMode::default(), GameMode::PvE { human_color: Stone::Black });
}

#[test]
fn test_ai_turn_flow() {
    let mut state = GameState::new(GameMode::PvE { human_color: Stone::White });
    let job = state.start_ai_thinking().expect("AI to move");
    assert_eq!(job.color, Stone::Black);
    assert!(state.is_ai_thinking());
    assert!(state.ai_thinking_elapsed().is_some());
    assert!(state.start_ai_thinking().is_none());
    assert_eq!(state.try_place_stone(Pos::new(9, 9)), Err("AI is thinking".to_string()));
    let mut engine = job.engine;
    let result = engine.get_move_with_stats(&job.board, job.color);
    assert_eq!(result.best_move, Some(Pos::new(9, 9)));
    state.check_ai_result(AiEvent::Finished { result, engine, elapsed: Duration::from_millis(7) });
    assert!(!state.is_ai_thinking());
    assert_eq!(state.board.get(Pos::new(9, 9)), Stone::Black);
    assert_eq!(state.current_turn, Stone::White);
    assert_eq!(state.ai_stats[0].move_count, 1);
    assert!(state.last_ai_result[0].is_some());
    assert_eq!(state.move_timer.ai_thinking_time, Some(Duration::from_millis(7)));
}

#[test]
fn test_ai_timeout_plays_fallback_and_reclaims() {
    let mut state = GameState::new(GameMode::PvE { human_color: Stone::White });
    let job = state.start_ai_thinking().expect("AI to move");
    state.check_ai_result(AiEvent::TimedOut);
    assert!(matches!(state.ai_state, AiState::Reclaiming));
    // No stone nearby: the fallback is the first legal cell of the center square.
    assert_eq!(state.last_move, Some(Pos::new(7, 7)));
    assert!(state.start_ai_thinking().is_none());
    state.try_reclaim_engine(EnginePoll::Returned(job.engine));
    assert!(matches!(state.ai_state, AiState::Idle));
    state.try_reclaim_engine(EnginePoll::Disconnected);
    assert!(matches!(state.ai_state, AiState::Idle));
}

#[test]
fn test_fallback_prefers_win_then_block() {
    let mut state = GameState::new(GameMode::PvP { show_suggestions: false });
    for c in 3..7u8 {
        state.board.place_stone(Pos::new(4, c), Stone::White);
    }
    state.current_turn = Stone::Black;
    // Black cannot win; White threatens at (4,2) and (4,7): block the first.
    assert_eq!(state.find_fallback_move(), Some(Pos::new(4, 2)));
    state.current_turn = Stone::White;
    assert_eq!(state.find_fallback_move(), Some(Pos::new(4, 2)));
}

#[test]
fn test_validate_pro_rule_ai_move() {
    let mut state = GameState::with_opening_rule(GameMode::AiVsAi, OpeningRule::Pro);
    assert_eq!(state.validate_pro_rule_ai_move(Pos::new(3, 3)), Pos::new(9, 9));
    state.move_history.push((Pos::new(9, 9), Stone::Black));
    state.move_history.push((Pos::new(9, 10), Stone::White));
    state.board.place_stone(Pos::new(9, 9), Stone::Black);
    state.board.place_stone(Pos::new(9, 10), Stone::White);
    assert_eq!(state.validate_pro_rule_ai_move(Pos::new(10, 10)), Pos::new(10, 12));
    assert_eq!(state.validate_pro_rule_ai_move(Pos::new(2, 2)), Pos::new(2, 2));
    let std_state = GameState::new(GameMode::AiVsAi);
    assert_eq!(std_state.validate_pro_rule_ai_move(Pos::new(3, 3)), Pos::new(3, 3));
}

#[test]
fn test_request_suggestion() {
    let mut state = GameState::new(GameMode::PvP { show_suggestions: true });
    state.request_suggestion();
    assert_eq!(state.suggested_move, Some(Pos::new(9, 9)));
    assert!(state.last_ai_result[0].is_some());
    assert!(state.try_place_stone(Pos::new(9, 9)).is_ok());
    assert_eq!(state.suggested_move, None);
}

#[test]
fn test_ai_stats_record_and_ranges() {
    let mut stats = AiStats::default();
    assert_eq!(stats.search_time_range(), (0, 0));
    assert_eq!(stats.avg_nps(), 0);
    let a = MoveResult::immediate_win(Pos::new(1, 1), 5);
    stats.record(&a);
    let mut b = MoveResult::alpha_beta(Pos::new(2, 2), 10, 300, 6000);
    b.depth = 6;
    stats.record(&b);
    let mut c = MoveResult::alpha_beta(Pos::new(3, 3), 10, 100, 2000);
    c.depth = 8;
    stats.record(&c);
    assert_eq!(stats.move_count, 3);
    assert_eq!(stats.min_time_ms, 5);
    assert_eq!(stats.max_time_ms, 300);
    assert_eq!(stats.max_depth, 8);
    assert_eq!(stats.search_time_range(), (100, 300));
    assert_eq!(stats.total_nodes, 8001);
    assert_eq!(stats.avg_nps(), 8001 * 1000 / 405 / 1000);
}

#[test]
fn test_move_timer() {
    let mut timer = MoveTimer::default();
    assert!(timer.start_time.is_some());
    let d = timer.stop();
    assert!(timer.start_time.is_none());
    assert_eq!(timer.last_move_duration, Some(d));
    assert_eq!(timer.elapsed(), Duration::ZERO);
    assert_eq!(timer.stop(), Duration::ZERO);
    timer.start();
    assert!(timer.start_time.is_some());
    timer.set_ai_time(Duration::from_millis(3));
    assert_eq!(timer.ai_thinking_time, Some(Duration::from_millis(3)));
}

#[test]
fn test_capture_animation() {
    let anim = CaptureAnimation::new(vec![Pos::new(1, 1), Pos::new(1, 2)], Stone::White);
    assert_eq!(anim.positions.len(), 2);
    assert_eq!(anim.captured_color, Stone::White);
    assert!(!anim.is_complete());
    assert!(!CaptureAnimation::finished_after(599));
    assert!(CaptureAnimation::finished_after(600));
}

#[test]
fn test_searched_totals_skip_moves_without_search() {
    let mut stats = AiStats::default();
    stats.move_times = vec![100, 7, 300, 50];
    stats.move_depths = vec![8, 0, 10];
    let (time, timed, depth, counted) = stats.searched_totals();
    // Times are paired with depths: the fourth time has no depth.
    assert_eq!(time, 400);
    assert_eq!(timed, 2);
    assert_eq!(depth, 18);
    assert_eq!(counted, 2);
    let (time, timed, depth, counted) = AiStats::default().searched_totals();
    assert_eq!((time, timed, depth, counted), (0, 0, 0, 0));
}
