use gomoku::search::atomic_tt::{tally_slots, AtomicTT};
use gomoku::search::tt::{pack_entry, unpack_entry, usage_percent, EntryType, TTEntry, TranspositionTable};
use gomoku::Pos;


#[test]
fn tt_test_tt_store_probe_exact() {
    let mut tt = TranspositionTable::new(1);
    let hash = 0x123456789ABCDEF0;

    tt.store(hash, 5, 100, EntryType::Exact, Some(Pos::new(9, 9)));

    let result = tt.probe(hash, 5, -1000, 1000);
    assert!(result.is_some());
    let (score, best_move) = result.unwrap();
    assert_eq!(score, 100);
    assert_eq!(best_move, Some(Pos::new(9, 9)));
}

#[test]
fn tt_test_tt_depth_requirement() {
    let mut tt = TranspositionTable::new(1);
    let hash = 0x123456789ABCDEF0;

    tt.store(hash, 3, 100, EntryType::Exact, Some(Pos::new(5, 5)));

    // Deeper search should not use shallow entry's score
    let result = tt.probe(hash, 5, -1000, 1000);
    assert!(result.is_some());
    let (score, best_move) = result.unwrap();
    // Score is 0 (not usable), but best_move is returned for ordering
    assert_eq!(score, 0);
    assert_eq!(best_move, Some(Pos::new(5, 5)));
}

#[test]
fn tt_test_tt_lower_bound_cutoff() {
    let mut tt = TranspositionTable::new(1);
    let hash = 0x123456789ABCDEF0;

    tt.store(hash, 5, 200, EntryType::LowerBound, None);

    // Score (200) >= beta (150), should return score
    let result = tt.probe(hash, 5, -1000, 150);
    assert!(result.is_some());
    assert_eq!(result.unwrap().0, 200);

    // Score (200) < beta (300), should not return score
    let result = tt.probe(hash, 5, -1000, 300);
    assert!(result.is_some());
    assert_eq!(result.unwrap().0, 0); // Score not usable
}

#[test]
fn tt_test_tt_upper_bound_cutoff() {
    let mut tt = TranspositionTable::new(1);
    let hash = 0x123456789ABCDEF0;

    tt.store(hash, 5, 50, EntryType::UpperBound, None);

    // Score (50) <= alpha (100), should return score
    let result = tt.probe(hash, 5, 100, 1000);
    assert!(result.is_some());
    assert_eq!(result.unwrap().0, 50);

    // Score (50) > alpha (30), should not return score
    let result = tt.probe(hash, 5, 30, 1000);
    assert!(result.is_some());
    assert_eq!(result.unwrap().0, 0);
}

#[test]
fn tt_test_tt_hash_mismatch() {
    let mut tt = TranspositionTable::new(1);
    let hash1 = 0x123456789ABCDEF0;
    let hash2 = 0x987654321FEDCBA0;

    tt.store(hash1, 5, 100, EntryType::Exact, Some(Pos::new(9, 9)));

    // Different hash should not return entry (unless collision)
    let result = tt.probe(hash2, 5, -1000, 1000);
    // Result depends on whether hashes map to same slot and hash verification
    if let Some((score, _)) = result {
        // If there's a collision, hash verification should fail
        assert_eq!(score, 0);
    }
}

#[test]
fn tt_test_tt_get_best_move() {
    let mut tt = TranspositionTable::new(1);
    let hash = 0x123456789ABCDEF0;

    tt.store(hash, 5, 100, EntryType::Exact, Some(Pos::new(9, 9)));

    let best_move = tt.get_best_move(hash);
    assert_eq!(best_move, Some(Pos::new(9, 9)));

    // Wrong hash should return None
    let best_move = tt.get_best_move(0xFFFFFFFFFFFFFFFF);
    assert!(best_move.is_none());
}

#[test]
fn tt_test_tt_replacement_deeper() {
    let mut tt = TranspositionTable::new(1);
    let hash = 0x123456789ABCDEF0;

    tt.store(hash, 3, 100, EntryType::Exact, Some(Pos::new(5, 5)));
    tt.store(hash, 5, 200, EntryType::Exact, Some(Pos::new(9, 9)));

    // Deeper entry should replace shallower
    let result = tt.probe(hash, 5, -1000, 1000);
    assert!(result.is_some());
    assert_eq!(result.unwrap().0, 200);
}

#[test]
fn tt_test_tt_replacement_same_depth() {
    let mut tt = TranspositionTable::new(1);
    let hash = 0x123456789ABCDEF0;

    tt.store(hash, 5, 100, EntryType::Exact, Some(Pos::new(5, 5)));
    tt.store(hash, 5, 200, EntryType::Exact, Some(Pos::new(9, 9)));

    // Same depth should replace (newer info)
    let result = tt.probe(hash, 5, -1000, 1000);
    assert!(result.is_some());
    assert_eq!(result.unwrap().0, 200);
}

#[test]
fn tt_test_tt_no_replacement_shallower() {
    let mut tt = TranspositionTable::new(1);
    let hash = 0x123456789ABCDEF0;

    tt.store(hash, 5, 100, EntryType::Exact, Some(Pos::new(5, 5)));
    tt.store(hash, 3, 200, EntryType::Exact, Some(Pos::new(9, 9)));

    // Shallower should NOT replace deeper (same hash exception)
    // Actually, same hash always replaces per our policy
    let result = tt.probe(hash, 5, -1000, 1000);
    assert!(result.is_some());
    // Since same hash, it gets replaced
    let (score, _) = result.unwrap();
    assert_eq!(score, 0); // Depth 3 < requested depth 5
}

#[test]
fn tt_test_tt_clear() {
    let mut tt = TranspositionTable::new(1);
    let hash = 0x123456789ABCDEF0;

    tt.store(hash, 5, 100, EntryType::Exact, None);
    tt.clear();

    let result = tt.probe(hash, 5, -1000, 1000);
    assert!(result.is_none());
}

#[test]
fn tt_test_tt_stats() {
    let mut tt = TranspositionTable::new(1);

    let stats = tt.stats();
    assert_eq!(stats.used, 0);
    assert_eq!(stats.usage_percent, 0);

    tt.store(0x111, 5, 100, EntryType::Exact, None);
    tt.store(0x222, 5, 100, EntryType::Exact, None);

    let stats = tt.stats();
    assert_eq!(stats.used, 2);
    assert!(stats.size > 0);
}

#[test]
fn tt_test_tt_no_best_move() {
    let mut tt = TranspositionTable::new(1);
    let hash = 0x123456789ABCDEF0;

    // Store without best move
    tt.store(hash, 5, 100, EntryType::Exact, None);

    let result = tt.probe(hash, 5, -1000, 1000);
    assert!(result.is_some());
    let (score, best_move) = result.unwrap();
    assert_eq!(score, 100);
    assert!(best_move.is_none());

    let best_move = tt.get_best_move(hash);
    assert!(best_move.is_none());
}

#[test]
fn tt_test_tt_entry_types() {
    let mut tt = TranspositionTable::new(1);

    // Test all entry types
    let hashes = [0x111u64, 0x222, 0x333];

    tt.store(hashes[0], 5, 100, EntryType::Exact, None);
    tt.store(hashes[1], 5, 100, EntryType::LowerBound, None);
    tt.store(hashes[2], 5, 100, EntryType::UpperBound, None);

    // Exact always returns score if depth sufficient
    let result = tt.probe(hashes[0], 5, -1000, 1000);
    assert_eq!(result.unwrap().0, 100);

    // LowerBound returns score only if score >= beta
    let result = tt.probe(hashes[1], 5, -1000, 50);
    assert_eq!(result.unwrap().0, 100); // 100 >= 50

    // UpperBound returns score only if score <= alpha
    let result = tt.probe(hashes[2], 5, 150, 1000);
    assert_eq!(result.unwrap().0, 100); // 100 <= 150
}

#[test]
fn tt_test_tt_minimum_size() {
    // Even with 0 MB, should have minimum entries
    let tt = TranspositionTable::new(0);
    assert!(tt.size >= 1024);
}

#[test]
fn tt_test_tt_size_calculation() {
    let tt = TranspositionTable::new(1);
    let entry_size = std::mem::size_of::<Option<TTEntry>>();
    let expected_size = (1024 * 1024) / entry_size;
    assert_eq!(tt.size, expected_size.max(1024));
}

// =========================================================================
// AtomicTT tests
// =========================================================================

#[test]
fn test_pack_unpack_roundtrip() {
    let cases: Vec<(i8, i32, EntryType, Option<Pos>)> = vec![
        (5, 100, EntryType::Exact, Some(Pos::new(9, 9))),
        (-3, -500_000, EntryType::LowerBound, None),
        (0, 0, EntryType::UpperBound, Some(Pos::new(0, 0))),
        (15, 999_999, EntryType::Exact, Some(Pos::new(18, 18))),
        (-128, -1_048_575, EntryType::LowerBound, Some(Pos::new(0, 18))),
        (127, 1_048_575, EntryType::UpperBound, Some(Pos::new(18, 0))),
    ];
    for (depth, score, et, bm) in cases {
        let packed = pack_entry(depth, score, et, bm);
        let (d, s, t, m) = unpack_entry(packed);
        assert_eq!(d, depth, "depth mismatch for ({}, {})", depth, score);
        assert_eq!(s, score, "score mismatch for ({}, {})", depth, score);
        assert_eq!(t, et, "type mismatch for ({}, {})", depth, score);
        assert_eq!(m, bm, "move mismatch for ({}, {})", depth, score);
    }
}

#[test]
fn test_atomic_tt_store_probe_exact() {
    let tt = AtomicTT::new(1);
    let hash = 0x123456789ABCDEF0;

    tt.store(hash, 5, 100, EntryType::Exact, Some(Pos::new(9, 9)));

    let result = tt.probe(hash, 5, -1000, 1000);
    assert!(result.is_some());
    let (score, best_move) = result.unwrap();
    assert_eq!(score, 100);
    assert_eq!(best_move, Some(Pos::new(9, 9)));
}

#[test]
fn test_atomic_tt_depth_requirement() {
    let tt = AtomicTT::new(1);
    let hash = 0x123456789ABCDEF0;

    tt.store(hash, 3, 100, EntryType::Exact, Some(Pos::new(5, 5)));

    let result = tt.probe(hash, 5, -1000, 1000);
    assert!(result.is_none()); // Depth insufficient → None (use get_best_move for ordering)
}

#[test]
fn test_atomic_tt_bounds() {
    let tt = AtomicTT::new(1);

    // LowerBound
    let hash_lb = 0x111;
    tt.store(hash_lb, 5, 200, EntryType::LowerBound, None);
    assert_eq!(tt.probe(hash_lb, 5, -1000, 150).unwrap().0, 200); // 200 >= 150
    assert!(tt.probe(hash_lb, 5, -1000, 300).is_none()); // 200 < 300 → not usable

    // UpperBound
    let hash_ub = 0x222;
    tt.store(hash_ub, 5, 50, EntryType::UpperBound, None);
    assert_eq!(tt.probe(hash_ub, 5, 100, 1000).unwrap().0, 50); // 50 <= 100
    assert!(tt.probe(hash_ub, 5, 30, 1000).is_none()); // 50 > 30 → not usable
}

#[test]
fn test_atomic_tt_hash_mismatch() {
    let tt = AtomicTT::new(1);
    tt.store(0xAABBCCDD_11223344, 5, 100, EntryType::Exact, Some(Pos::new(9, 9)));

    // Different hash should return None (XOR check fails)
    let result = tt.probe(0xFFEEDDCC_44332211, 5, -1000, 1000);
    assert!(result.is_none());
}

#[test]
fn test_atomic_tt_get_best_move() {
    let tt = AtomicTT::new(1);
    let hash = 0x123456789ABCDEF0;

    tt.store(hash, 5, 100, EntryType::Exact, Some(Pos::new(9, 9)));
    assert_eq!(tt.get_best_move(hash), Some(Pos::new(9, 9)));
    assert!(tt.get_best_move(0xFFFF_FFFF_FFFF_FFFF).is_none());
}

#[test]
fn test_atomic_tt_clear() {
    let tt = AtomicTT::new(1);
    let hash = 0x123456789ABCDEF0;

    tt.store(hash, 5, 100, EntryType::Exact, None);
    tt.clear();

    assert!(tt.probe(hash, 5, -1000, 1000).is_none());
}

#[test]
fn test_atomic_tt_stats() {
    let tt = AtomicTT::new(1);
    let stats = tt.stats();
    assert_eq!(stats.used, 0);

    tt.store(0x111, 5, 100, EntryType::Exact, None);
    tt.store(0x222, 5, 100, EntryType::Exact, None);

    let stats = tt.stats();
    assert!(stats.used >= 2);
}

#[test]
fn test_atomic_tt_replacement_policy() {
    let tt = AtomicTT::new(1);
    let hash = 0x123456789ABCDEF0;

    // Store shallow, then deeper — deeper replaces
    tt.store(hash, 3, 100, EntryType::Exact, Some(Pos::new(5, 5)));
    tt.store(hash, 5, 200, EntryType::Exact, Some(Pos::new(9, 9)));
    assert_eq!(tt.probe(hash, 5, -1000, 1000).unwrap().0, 200);
}


#[test]
fn test_pack_unpack_clamps_out_of_range_score() {
    let packed = pack_entry(4, 2_000_000, EntryType::Exact, None);
    let (d, s, t, m) = unpack_entry(packed);
    assert_eq!(d, 4);
    assert_eq!(s, 1_048_575);
    assert_eq!(t, EntryType::Exact);
    assert_eq!(m, None);
    let (_, s2, _, _) = unpack_entry(pack_entry(4, -2_000_000, EntryType::Exact, None));
    assert_eq!(s2, -1_048_575);
}

#[test]
fn test_usage_percent_values() {
    assert_eq!(usage_percent(0, 1024), 0);
    assert_eq!(usage_percent(512, 1024), 50);
    assert_eq!(usage_percent(1024, 1024), 100);
    assert_eq!(usage_percent(1, 3), 33);
}

#[test]
fn test_tt_clear_keeps_size() {
    let mut tt = TranspositionTable::new(1);
    let size = tt.size;
    tt.store(0xABC, 3, 7, EntryType::Exact, Some(Pos::new(1, 2)));
    tt.clear();
    assert_eq!(tt.size, size);
    assert!(tt.get_best_move(0xABC).is_none());
    assert_eq!(tt.stats().used, 0);
}

#[test]
fn test_atomic_tt_probe_after_store_exact() {
    let tt = AtomicTT::new(1);
    let hash = 0x0F0F_0F0F_1234_5678;
    tt.store(hash, 6, -42, EntryType::Exact, Some(Pos::new(3, 4)));
    assert_eq!(tt.probe(hash, 6, -1000, 1000), Some((-42, Some(Pos::new(3, 4)))));
    assert_eq!(tt.get_best_move(hash), Some(Pos::new(3, 4)));
}

#[test]
fn test_tally_slots_counts_occupied_words() {
    // Every slot read: the occupied ones are counted exactly.
    let words = vec![(0u64, 0u64), (1, 2), (0, 5), (0, 0)];
    let st = tally_slots(&words, 4, false);
    assert_eq!(st.size, 4);
    assert_eq!(st.used, 2);
    assert_eq!(st.usage_percent, 50);
    // A sample of 2 of 128 slots, one occupied: half the table is estimated used.
    let sample = vec![(7u64, 0u64), (0, 0)];
    let st = tally_slots(&sample, 128, true);
    assert_eq!(st.used, 64);
    assert_eq!(st.usage_percent, 50);
    // Nothing read as occupied.
    let st = tally_slots(&vec![(0u64, 0u64); 3], 3, false);
    assert_eq!(st.used, 0);
    assert_eq!(st.usage_percent, 0);
}
