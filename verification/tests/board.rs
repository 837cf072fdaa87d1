use gomoku::board::{Bitboard, BitboardIter, Board, Pos, Stone, BOARD_SIZE, TOTAL_CELLS};

#[test]
fn tests_test_stone_opponent() {
    assert_eq!(Stone::Black.opponent(), Stone::White);
    assert_eq!(Stone::White.opponent(), Stone::Black);
    assert_eq!(Stone::Empty.opponent(), Stone::Empty);
}

#[test]
fn tests_test_pos_new() {
    let pos = Pos::new(9, 9);
    assert_eq!(pos.row, 9);
    assert_eq!(pos.col, 9);
}

#[test]
fn tests_test_pos_conversion() {
    let pos = Pos::new(9, 9);
    assert_eq!(pos.to_index(), 9 * 19 + 9);
    assert_eq!(pos.to_index(), 180);

    let pos2 = Pos::from_index(180);
    assert_eq!(pos2.row, 9);
    assert_eq!(pos2.col, 9);
}

#[test]
fn tests_test_pos_validity() {
    assert!(Pos::is_valid(0, 0));
    assert!(Pos::is_valid(18, 18));
    assert!(Pos::is_valid(9, 9));
    assert!(!Pos::is_valid(-1, 0));
    assert!(!Pos::is_valid(0, -1));
    assert!(!Pos::is_valid(19, 0));
    assert!(!Pos::is_valid(0, 19));
}

#[test]
fn tests_test_board_constants() {
    assert_eq!(BOARD_SIZE, 19);
    assert_eq!(TOTAL_CELLS, 361);
}

#[test]
fn tests_test_pos_ordering() {
    let pos1 = Pos::new(0, 0);
    let pos2 = Pos::new(0, 1);
    let pos3 = Pos::new(1, 0);

    assert!(pos1 < pos2);
    assert!(pos2 < pos3);
    assert!(pos1 < pos3);
}

#[test]
fn tests_test_pos_corner_indices() {
    assert_eq!(Pos::new(0, 0).to_index(), 0);
    assert_eq!(Pos::new(0, 18).to_index(), 18);
    assert_eq!(Pos::new(18, 0).to_index(), 342);
    assert_eq!(Pos::new(18, 18).to_index(), 360);
}

#[test]
fn test_bitboard_new() {
    let bb = Bitboard::new();
    assert!(bb.is_empty());
    assert_eq!(bb.count(), 0);
}

#[test]
fn test_bitboard_set_get() {
    let mut bb = Bitboard::new();
    let pos = Pos::new(9, 9);

    assert!(!bb.get(pos));
    bb.set(pos);
    assert!(bb.get(pos));
    assert_eq!(bb.count(), 1);
}

#[test]
fn test_bitboard_clear() {
    let mut bb = Bitboard::new();
    let pos = Pos::new(9, 9);

    bb.set(pos);
    assert!(bb.get(pos));
    bb.clear(pos);
    assert!(!bb.get(pos));
    assert_eq!(bb.count(), 0);
}

#[test]
fn test_bitboard_multiple_positions() {
    let mut bb = Bitboard::new();

    bb.set(Pos::new(0, 0));
    bb.set(Pos::new(9, 9));
    bb.set(Pos::new(18, 18));

    assert!(bb.get(Pos::new(0, 0)));
    assert!(bb.get(Pos::new(9, 9)));
    assert!(bb.get(Pos::new(18, 18)));
    assert!(!bb.get(Pos::new(5, 5)));
    assert_eq!(bb.count(), 3);
}

#[test]
fn test_bitboard_iter() {
    let mut bb = Bitboard::new();
    bb.set(Pos::new(0, 0));
    bb.set(Pos::new(5, 5));
    bb.set(Pos::new(10, 10));

    let positions: Vec<Pos> = bb.iter_ones();
    assert_eq!(positions.len(), 3);
    assert!(positions.contains(&Pos::new(0, 0)));
    assert!(positions.contains(&Pos::new(5, 5)));
    assert!(positions.contains(&Pos::new(10, 10)));
}

#[test]
fn test_bitboard_word_boundaries() {
    let mut bb = Bitboard::new();

    bb.set(Pos::from_index(63));
    bb.set(Pos::from_index(64));
    bb.set(Pos::from_index(127));
    bb.set(Pos::from_index(128));

    assert!(bb.get(Pos::from_index(63)));
    assert!(bb.get(Pos::from_index(64)));
    assert!(bb.get(Pos::from_index(127)));
    assert!(bb.get(Pos::from_index(128)));
    assert_eq!(bb.count(), 4);
}

#[test]
fn test_board_new() {
    let board = Board::new();
    assert_eq!(board.stone_count(), 0);
    assert!(board.is_board_empty());
}

#[test]
fn test_board_place_get() {
    let mut board = Board::new();
    let pos = Pos::new(9, 9);

    assert_eq!(board.get(pos), Stone::Empty);
    board.place_stone(pos, Stone::Black);
    assert_eq!(board.get(pos), Stone::Black);

    board.remove_stone(pos);
    assert_eq!(board.get(pos), Stone::Empty);
}

#[test]
fn test_board_captures() {
    let mut board = Board::new();
    assert_eq!(board.captures(Stone::Black), 0);

    board.add_captures(Stone::Black, 2);
    assert_eq!(board.captures(Stone::Black), 2);
    assert_eq!(board.captures(Stone::White), 0);
}

#[test]
fn test_board_stone_count() {
    let mut board = Board::new();
    board.place_stone(Pos::new(0, 0), Stone::Black);
    board.place_stone(Pos::new(1, 1), Stone::White);
    board.place_stone(Pos::new(2, 2), Stone::Black);

    assert_eq!(board.stone_count(), 3);
    assert!(!board.is_board_empty());
}

#[test]
fn iter_ones_is_row_major_and_complete() {
    let mut bb = Bitboard::new();
    bb.set(Pos::new(18, 18));
    bb.set(Pos::new(0, 5));
    bb.set(Pos::new(3, 0));
    let v = bb.iter_ones();
    assert_eq!(v, vec![Pos::new(0, 5), Pos::new(3, 0), Pos::new(18, 18)]);
}

#[test]
fn sub_captures_saturates_at_zero() {
    let mut board = Board::new();
    board.add_captures(Stone::White, 2);
    board.sub_captures(Stone::White, 3);
    assert_eq!(board.captures(Stone::White), 0);
    board.add_captures(Stone::Empty, 4);
    assert_eq!(board.captures(Stone::Black), 0);
    assert_eq!(board.captures(Stone::White), 0);
}

#[test]
fn stones_gives_each_colour_its_bitboard() {
    let mut board = Board::new();
    let pos = Pos::new(4, 4);
    board.place_stone(pos, Stone::White);
    board.place_stone(Pos::new(4, 5), Stone::Empty);
    assert_eq!(board.stone_count(), 1);
    assert!(board.stones(Stone::Empty).is_none());
    assert!(board.stones(Stone::White).unwrap().get(pos));
    assert!(!board.stones(Stone::Black).unwrap().get(pos));
}

#[test]
fn test_stones_mut_changes_the_board() {
    let mut b = Board::new();
    if let Some(bb) = b.stones_mut(Stone::Black) {
        bb.set(Pos::new(1, 1));
    }
    if let Some(bb) = b.stones_mut(Stone::White) {
        bb.set(Pos::new(2, 2));
    }
    assert_eq!(b.get(Pos::new(1, 1)), Stone::Black);
    assert_eq!(b.get(Pos::new(2, 2)), Stone::White);
    assert!(b.stones_mut(Stone::Empty).is_none());
}

#[test]
fn test_bitboard_iter_in_cell_order() {
    let mut bb = Bitboard::new();
    bb.set(Pos::new(18, 18));
    bb.set(Pos::new(0, 5));
    bb.set(Pos::new(3, 0));
    let mut it = BitboardIter::new(&bb);
    assert_eq!(it.next(), Some(Pos::new(0, 5)));
    assert_eq!(it.next(), Some(Pos::new(3, 0)));
    assert_eq!(it.next(), Some(Pos::new(18, 18)));
    assert_eq!(it.next(), None);
    assert_eq!(it.next(), None);
}

#[test]
fn test_bitboard_count_follows_set_and_clear() {
    let mut bb = Bitboard::new();
    bb.set(Pos::new(0, 0));
    bb.set(Pos::new(18, 18));
    bb.set(Pos::new(18, 18));
    assert_eq!(bb.count(), 2);
    assert_eq!(bb.iter_ones().len(), bb.count() as usize);
    bb.clear(Pos::new(0, 0));
    bb.clear(Pos::new(5, 5));
    assert_eq!(bb.count(), 1);
    assert_eq!(bb.iter_ones(), vec![Pos::new(18, 18)]);

    let mut board = Board::new();
    board.place_stone(Pos::new(9, 9), Stone::Black);
    board.place_stone(Pos::new(9, 10), Stone::White);
    assert_eq!(board.stone_count(), 2);
}
