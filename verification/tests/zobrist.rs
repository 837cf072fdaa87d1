use gomoku::search::ZobristTable;
use gomoku::{Board, Pos, Stone};


#[test]
fn test_zobrist_empty_board() {
    let zt = ZobristTable::new();
    let board = Board::new();

    let hash1 = zt.hash(&board, Stone::Black);
    let hash2 = zt.hash(&board, Stone::White);

    // Different side to move = different hash
    assert_ne!(hash1, hash2);
    // Empty board includes capture hash for (0,0) captures
    let cap_base = zt.captures[0][0] ^ zt.captures[1][0];
    assert_eq!(hash2, cap_base);
    assert_eq!(hash1, zt.black_to_move ^ cap_base);
}

#[test]
fn test_zobrist_deterministic() {
    let zt1 = ZobristTable::new();
    let zt2 = ZobristTable::new();
    let board = Board::new();

    // Same table = same hash (deterministic random values)
    assert_eq!(
        zt1.hash(&board, Stone::Black),
        zt2.hash(&board, Stone::Black)
    );
}

#[test]
fn test_zobrist_incremental() {
    let zt = ZobristTable::new();
    let mut board = Board::new();
    let pos = Pos::new(9, 9);

    let hash1 = zt.hash(&board, Stone::Black);
    board.place_stone(pos, Stone::Black);
    let hash2 = zt.hash(&board, Stone::White);

    // Incremental should match full computation
    let hash_inc = zt.update_place(hash1, pos, Stone::Black);
    assert_eq!(hash_inc, hash2);
}

#[test]
fn test_zobrist_different_positions() {
    let zt = ZobristTable::new();
    let mut board1 = Board::new();
    let mut board2 = Board::new();

    board1.place_stone(Pos::new(9, 9), Stone::Black);
    board2.place_stone(Pos::new(10, 10), Stone::Black);

    let hash1 = zt.hash(&board1, Stone::White);
    let hash2 = zt.hash(&board2, Stone::White);

    // Different positions = different hash
    assert_ne!(hash1, hash2);
}

#[test]
fn test_zobrist_same_position_different_path() {
    let zt = ZobristTable::new();
    let mut board1 = Board::new();
    let mut board2 = Board::new();

    // Path 1: Black at (9,9), then White at (10,10)
    board1.place_stone(Pos::new(9, 9), Stone::Black);
    board1.place_stone(Pos::new(10, 10), Stone::White);

    // Path 2: White at (10,10), then Black at (9,9)
    board2.place_stone(Pos::new(10, 10), Stone::White);
    board2.place_stone(Pos::new(9, 9), Stone::Black);

    // Same final position = same hash (path independent)
    let hash1 = zt.hash(&board1, Stone::Black);
    let hash2 = zt.hash(&board2, Stone::Black);
    assert_eq!(hash1, hash2);
}

#[test]
fn test_zobrist_undo() {
    let zt = ZobristTable::new();
    let mut board = Board::new();
    let pos = Pos::new(9, 9);

    let hash_empty = zt.hash(&board, Stone::Black);

    board.place_stone(pos, Stone::Black);
    let hash_with_stone = zt.hash(&board, Stone::White);

    // Incremental update for place
    let hash_inc = zt.update_place(hash_empty, pos, Stone::Black);
    assert_eq!(hash_inc, hash_with_stone);

    // Incremental update for remove (should get back to the starting hash with side toggle)
    board.remove_stone(pos);
    let hash_after_remove = zt.hash(&board, Stone::Black);

    // Removing stone and toggling side should get back to the starting hash
    let hash_inc_remove = zt.update_remove(hash_with_stone, pos, Stone::Black);
    assert_eq!(hash_inc_remove, hash_after_remove);
    assert_eq!(hash_after_remove, hash_empty);
}

#[test]
fn test_zobrist_capture_no_side_toggle() {
    let zt = ZobristTable::new();
    let mut board = Board::new();

    // Place some stones
    board.place_stone(Pos::new(5, 5), Stone::Black);
    board.place_stone(Pos::new(5, 6), Stone::White);
    board.place_stone(Pos::new(5, 7), Stone::White);

    let hash_before = zt.hash(&board, Stone::Black);

    // Simulate capture: remove white stones without toggling side
    let hash_after_cap1 = zt.update_capture(hash_before, Pos::new(5, 6), Stone::White);
    let hash_after_cap2 = zt.update_capture(hash_after_cap1, Pos::new(5, 7), Stone::White);

    // Verify by computing full hash after removing stones
    board.remove_stone(Pos::new(5, 6));
    board.remove_stone(Pos::new(5, 7));
    let hash_full = zt.hash(&board, Stone::Black);

    assert_eq!(hash_after_cap2, hash_full);
}

#[test]
fn test_zobrist_symmetry() {
    let zt = ZobristTable::new();

    // XOR is commutative: order of operations shouldn't matter
    let h1 = zt.black[0] ^ zt.white[1] ^ zt.black[2];
    let h2 = zt.black[2] ^ zt.black[0] ^ zt.white[1];
    assert_eq!(h1, h2);
}

#[test]
fn test_zobrist_collision_resistance() {
    let zt = ZobristTable::new();

    // Test that nearby positions have different hashes
    let mut board1 = Board::new();
    let mut board2 = Board::new();

    board1.place_stone(Pos::new(9, 9), Stone::Black);
    board2.place_stone(Pos::new(9, 10), Stone::Black);

    let hash1 = zt.hash(&board1, Stone::Black);
    let hash2 = zt.hash(&board2, Stone::Black);

    assert_ne!(hash1, hash2);
}

#[test]
fn test_zobrist_all_corners() {
    let zt = ZobristTable::new();
    let mut board = Board::new();

    // Place stones at all four corners
    let corners = [
        Pos::new(0, 0),
        Pos::new(0, 18),
        Pos::new(18, 0),
        Pos::new(18, 18),
    ];

    for &pos in &corners {
        board.place_stone(pos, Stone::Black);
    }

    let hash = zt.hash(&board, Stone::White);

    // Hash should be XOR of all four corner values + capture hashes for (0,0)
    let expected = zt.black[corners[0].to_index()]
        ^ zt.black[corners[1].to_index()]
        ^ zt.black[corners[2].to_index()]
        ^ zt.black[corners[3].to_index()]
        ^ zt.captures[0][0]
        ^ zt.captures[1][0];

    assert_eq!(hash, expected);
}

#[test]
fn test_zobrist_capture_count_matches_full_hash() {
    let zt = ZobristTable::new();
    let mut board = Board::new();
    board.place_stone(Pos::new(3, 3), Stone::White);
    let before = zt.hash(&board, Stone::Black);
    board.add_captures(Stone::Black, 2);
    let after = zt.hash(&board, Stone::Black);
    assert_eq!(zt.update_capture_count(before, Stone::Black, 0, 2), after);
    assert_ne!(before, after);
}

#[test]
fn test_zobrist_toggle_side_is_involution() {
    let zt = ZobristTable::new();
    let board = Board::new();
    let h = zt.hash(&board, Stone::Black);
    assert_eq!(zt.toggle_side(h), zt.hash(&board, Stone::White));
    assert_eq!(zt.toggle_side(zt.toggle_side(h)), h);
}

#[test]
fn test_zobrist_keys_distinct_sample() {
    let zt = ZobristTable::new();
    assert_eq!(zt.black.len(), 361);
    assert_eq!(zt.white.len(), 361);
    assert_ne!(zt.black[0], zt.white[0]);
    assert_ne!(zt.black[0], zt.black[1]);
    assert_ne!(zt.captures[0][0], zt.captures[1][0]);
}

#[test]
fn test_zobrist_capturing_move_matches_full_hash() {
    let zt = ZobristTable::new();
    let mut board = Board::new();
    board.place_stone(Pos::new(9, 5), Stone::Black);
    board.place_stone(Pos::new(9, 6), Stone::White);
    board.place_stone(Pos::new(9, 7), Stone::White);
    let before = zt.hash(&board, Stone::Black);

    let mov = Pos::new(9, 8);
    let (after, info) = gomoku::search::alphabeta::play(&board, mov, Stone::Black);
    assert_eq!(info.count, 2);

    let mut h = zt.update_place(before, mov, Stone::Black);
    for k in 0..info.count as usize {
        h = zt.update_capture(h, info.positions[k], Stone::White);
    }
    h = zt.update_capture_count(h, Stone::Black, 0, 1);
    assert_eq!(h, zt.hash(&after, Stone::White));
    assert_ne!(h, before);
}

#[test]
fn test_zobrist_sides_differ_by_nonzero_key() {
    let zt = ZobristTable::new();
    assert_ne!(zt.black_to_move, 0);
    let mut board = Board::new();
    board.place_stone(Pos::new(3, 4), Stone::White);
    let hb = zt.hash(&board, Stone::Black);
    let hw = zt.hash(&board, Stone::White);
    assert_eq!(hb ^ hw, zt.black_to_move);
    assert_ne!(hb, hw);
    // Capture counts above 5 hash as 5.
    let mut a = board;
    let mut b = board;
    a.add_captures(Stone::Black, 5);
    b.add_captures(Stone::Black, 7);
    assert_eq!(zt.hash(&a, Stone::Black), zt.hash(&b, Stone::Black));
}

#[test]
fn test_zobrist_update_uses_cell_index() {
    // A position off the board whose cell index is still below 361 uses the
    // keys of that cell: (0, 200) has the index of (10, 10).
    let z = ZobristTable::new();
    let h = 0x1234_u64;
    let off = Pos { row: 0, col: 200 };
    assert_eq!(z.update_place(h, off, Stone::Black), z.update_place(h, Pos::new(10, 10), Stone::Black));
    assert_eq!(z.update_capture(h, off, Stone::White), z.update_capture(h, Pos::new(10, 10), Stone::White));
    assert_eq!(z.update_remove(h, off, Stone::White), z.update_remove(h, Pos::new(10, 10), Stone::White));
}
