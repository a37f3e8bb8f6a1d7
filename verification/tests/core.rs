use kinko::bitboard::Bitboard;
use kinko::board::Board;
use kinko::magic::{build_magic, stones_to_mask, Alignment, CrossAlignment, OwnedAlignment};
use kinko::score::{Score, ScoreKind};
use kinko::types::{Direction, File, Rank, Square, Stone};

#[test]
fn square_coordinates() {
    let sq = Square::from(File::new(3), Rank::new(2));
    assert_eq!(sq.value(), 3 + 2 * 19);
    assert_eq!(sq.file(), File::new(3));
    assert_eq!(sq.rank(), Rank::new(2));
    assert!(sq.is_valid());
    assert!(!Square::new(361).is_valid());
    assert!(Square::new(360).is_valid());
}

#[test]
fn square_shift_and_distance() {
    let sq = Square::from(File::new(5), Rank::new(5));
    assert_eq!(sq.shift(Direction::North).value(), sq.value() - 19);
    assert_eq!(sq.shift(Direction::South).value(), sq.value() + 19);
    assert_eq!(sq.shift(Direction::East).value(), sq.value() + 1);
    assert_eq!(sq.shift(Direction::West).value(), sq.value() - 1);
    assert_eq!(sq.distance(sq.shift(Direction::NorthWest)), 1);
    assert_eq!(sq.distance(sq.shift(Direction::SouthEast)), 1);
    // A step east from the last file lands on the next row: distance 18.
    let edge = Square::from(File::new(18), Rank::new(0));
    let wrapped = edge.shift(Direction::East);
    assert!(wrapped.is_valid());
    assert_eq!(edge.distance(wrapped), 18);
    // A step north from the top row wraps far outside the board.
    let top = Square::from(File::new(0), Rank::new(0));
    assert!(!top.shift(Direction::North).is_valid());
}

#[test]
fn stone_flip_and_char() {
    assert_eq!(Stone::Black.flip(), Stone::White);
    assert_eq!(Stone::White.flip(), Stone::Black);
    assert_eq!(Stone::Empty.flip(), Stone::Empty);
    assert_eq!(Stone::Black.as_char(), 'x');
    assert_eq!(Stone::White.as_char(), 'o');
    assert_eq!(Stone::Empty.as_char(), '.');
}

#[test]
fn bitboard_set_get_clear_toggle() {
    let mut bb = Bitboard::new();
    assert!(bb.is_empty());
    assert_eq!(bb.len(), 0);
    bb.set_square(Square::new(0));
    bb.set_square(Square::new(70));
    bb.set_square(Square::new(360));
    assert!(bb.get_square(Square::new(70)));
    assert!(!bb.get_square(Square::new(71)));
    assert_eq!(bb.len(), 3);
    bb.rst_square(Square::new(70));
    assert!(!bb.get_square(Square::new(70)));
    assert_eq!(bb.len(), 2);
    bb.swp_square(Square::new(70));
    assert!(bb.get_square(Square::new(70)));
    bb.swp_square(Square::new(70));
    assert!(!bb.get_square(Square::new(70)));
    assert!(!bb.is_empty());
}

#[test]
fn bitboard_boolean_ops() {
    let mut a = Bitboard::new();
    let mut b = Bitboard::new();
    a.set_square(Square::new(5));
    a.set_square(Square::new(9));
    b.set_square(Square::new(9));
    b.set_square(Square::new(100));
    let and = a.and(&b);
    assert!(and.get_square(Square::new(9)));
    assert!(!and.get_square(Square::new(5)));
    let or = a.or(&b);
    assert!(or.get_square(Square::new(5)));
    assert!(or.get_square(Square::new(100)));
    let xor = a.xor(&b);
    assert!(xor.get_square(Square::new(5)));
    assert!(!xor.get_square(Square::new(9)));
    let not = a.not();
    assert!(!not.get_square(Square::new(5)));
    assert!(not.get_square(Square::new(77)));
    let buf = a.raw_buffer();
    assert_eq!(buf[0], (1u64 << 5) | (1u64 << 9));
}

#[test]
fn bitboard_shift_round_trip_vertical() {
    // Shifting up then down loses exactly the top row.
    let mut bb = Bitboard::new();
    bb.set_square(Square::new(3)); // top row: falls off
    bb.set_square(Square::new(19)); // second row, file 0
    bb.set_square(Square::new(200));
    let back = bb.shift_up().shift_down();
    assert!(!back.get_square(Square::new(3)));
    assert!(back.get_square(Square::new(19)));
    assert!(back.get_square(Square::new(200)));
}

#[test]
fn bitboard_shift_round_trip_horizontal() {
    // Shifting left then right loses exactly the file-0 column.
    let mut bb = Bitboard::new();
    bb.set_square(Square::new(38)); // file 0: falls off
    bb.set_square(Square::new(40));
    bb.set_square(Square::new(18)); // file 18 stays
    let back = bb.shift_left().shift_right();
    assert!(!back.get_square(Square::new(38)));
    assert!(back.get_square(Square::new(40)));
    assert!(back.get_square(Square::new(18)));
}

#[test]
fn bitboard_shift_edges_do_not_wrap() {
    // A stone on file 18 must not reappear on file 0 of the next row.
    let mut bb = Bitboard::new();
    bb.set_square(Square::from(File::new(18), Rank::new(0)));
    let right = bb.shift_right();
    assert!(right.is_empty());
    let mut bb2 = Bitboard::new();
    bb2.set_square(Square::from(File::new(0), Rank::new(1)));
    let left = bb2.shift_left();
    assert!(left.is_empty());
}

#[test]
fn board_push_pop_restores_state() {
    let mut board = Board::new();
    board.push(Square::new(180));
    board.push(Square::new(181));
    let black_before = board.bitboard(Stone::Black).raw_buffer();
    let white_before = board.bitboard(Stone::White).raw_buffer();
    let turn_before = board.turn();
    board.push(Square::new(200));
    board.pop(Square::new(200));
    assert_eq!(board.bitboard(Stone::Black).raw_buffer(), black_before);
    assert_eq!(board.bitboard(Stone::White).raw_buffer(), white_before);
    assert_eq!(board.turn(), turn_before);
    assert_eq!(board.stone_at(Square::new(200)), Stone::Empty);
    assert_eq!(board.stone_at(Square::new(180)), Stone::Black);
    assert_eq!(board.stone_at(Square::new(181)), Stone::White);
}

#[test]
fn board_bitboards_disjoint_and_empty_complement() {
    let mut board = Board::new();
    board.push(Square::new(0));
    board.push(Square::new(1));
    board.push(Square::new(37));
    let black = board.bitboard(Stone::Black);
    let white = board.bitboard(Stone::White);
    assert!(black.and(&white).is_empty());
    let empty = board.bitboard(Stone::Empty);
    assert_eq!(empty.len(), 361 - 3);
    assert!(!empty.get_square(Square::new(0)));
    assert!(!empty.get_square(Square::new(1)));
    assert!(empty.get_square(Square::new(2)));
    // The 23 bits above square 360 never show up in the empty mask.
    assert!(!empty.get_square(Square::new(361)));
    assert!(!empty.get_square(Square::new(383)));
}

#[test]
fn board_from_raw_parts() {
    let mut black = Bitboard::new();
    let mut white = Bitboard::new();
    black.set_square(Square::new(10));
    white.set_square(Square::new(11));
    let board = Board::from_raw_parts(black, white, Stone::White);
    assert_eq!(board.stone_at(Square::new(10)), Stone::Black);
    assert_eq!(board.stone_at(Square::new(11)), Stone::White);
    assert_eq!(board.stone_at(Square::new(12)), Stone::Empty);
    assert_eq!(board.turn(), Stone::White);
}

#[test]
fn setup_position_reads_layout_and_turn() {
    let mut board = Board::new();
    let r = board.setup_position("x2o/1x", "w");
    assert!(r.is_ok());
    assert_eq!(board.stone_at(Square::from(File::new(0), Rank::new(0))), Stone::Black);
    assert_eq!(board.stone_at(Square::from(File::new(3), Rank::new(0))), Stone::White);
    assert_eq!(board.stone_at(Square::from(File::new(1), Rank::new(1))), Stone::Black);
    assert_eq!(board.stone_at(Square::from(File::new(2), Rank::new(0))), Stone::Empty);
    assert_eq!(board.turn(), Stone::White);

    let mut board2 = Board::new();
    assert!(board2.setup_position("18x", "b").is_ok());
    assert_eq!(board2.stone_at(Square::from(File::new(18), Rank::new(0))), Stone::Black);
    assert_eq!(board2.turn(), Stone::Black);
}

#[test]
fn setup_position_rejects_malformed_layouts() {
    let mut board = Board::new();
    // An unknown character is a recoverable parse failure.
    assert!(board.setup_position("xz", "b").is_err());
    // A stone that falls outside the row is rejected.
    let mut board2 = Board::new();
    assert!(board2.setup_position("19x", "b").is_err());
    // A row index past the bottom of the grid is rejected on placement.
    let mut board3 = Board::new();
    let twenty_rows = "/".repeat(19) + "x";
    assert!(board3.setup_position(&twenty_rows, "b").is_err());
    // Digits alone never place a stone and stay valid.
    let mut board4 = Board::new();
    assert!(board4.setup_position("9999", "b").is_ok());
}

#[test]
fn stones_to_mask_encoding() {
    let mut window = [Stone::Empty; 9];
    window[4] = Stone::Black;
    assert_eq!(stones_to_mask(&window), 0);
    // The cell just after the center fills the lowest bit pair.
    window[5] = Stone::Black;
    assert_eq!(stones_to_mask(&window), 1);
    window[5] = Stone::White;
    assert_eq!(stones_to_mask(&window), 2);
    // The cell just before the center fills bit pair 4.
    window[5] = Stone::Empty;
    window[3] = Stone::Black;
    assert_eq!(stones_to_mask(&window), 256);
    // The key is relative to the center color: swapping every color keeps it.
    let mut w1 = [Stone::Empty; 9];
    w1[4] = Stone::Black;
    w1[5] = Stone::Black;
    w1[2] = Stone::White;
    let mut w2 = [Stone::Empty; 9];
    w2[4] = Stone::White;
    w2[5] = Stone::White;
    w2[2] = Stone::Black;
    assert_eq!(stones_to_mask(&w1), stones_to_mask(&w2));
}

#[test]
fn magic_table_is_total_and_classifies_canonical_patterns() {
    let table = build_magic().expect("the fixed patterns are well-formed");
    // Total: every 16-bit key has an entry; spot-check the extremes through
    // lookup, which demands a complete table.
    let _ = table.lookup(0);
    let _ = table.lookup(65535);

    let mut board = Board::new();
    // Five in a row through the center of its own run.
    board.setup_position("/////5xxxxx", "b").unwrap();
    let sq = Square::from(File::new(7), Rank::new(5));
    let a = OwnedAlignment::from(&board, sq, Direction::East, Direction::West, &table);
    assert_eq!(a.align(), Alignment::Five);

    // An open four: ".xxxx." seen from inside the run.
    let mut b2 = Board::new();
    b2.setup_position("/////5xxxx", "b").unwrap();
    let sq2 = Square::from(File::new(6), Rank::new(5));
    let a2 = OwnedAlignment::from(&b2, sq2, Direction::East, Direction::West, &table);
    assert_eq!(a2.align(), Alignment::OpenFour);

    // A closed four: "oxxxx." seen from inside the run.
    let mut b3 = Board::new();
    b3.setup_position("/////4oxxxx", "b").unwrap();
    let sq3 = Square::from(File::new(6), Rank::new(5));
    let a3 = OwnedAlignment::from(&b3, sq3, Direction::East, Direction::West, &table);
    assert_eq!(a3.align(), Alignment::Four);

    // An open three: ".xxx.".
    let mut b4 = Board::new();
    b4.setup_position("/////5xxx", "b").unwrap();
    let sq4 = Square::from(File::new(6), Rank::new(5));
    let a4 = OwnedAlignment::from(&b4, sq4, Direction::East, Direction::West, &table);
    assert_eq!(a4.align(), Alignment::OpenThree);

    // No stones at all: no alignment.
    let empty = Board::new();
    let a5 = OwnedAlignment::from(
        &empty,
        Square::new(180),
        Direction::East,
        Direction::West,
        &table,
    );
    assert_eq!(a5.align(), Alignment::NoAlign);
}

#[test]
fn build_magic_is_deterministic() {
    // The contract pins the table to one spec-level value, so two builds
    // agree entry for entry.
    let t1 = build_magic().unwrap();
    let t2 = build_magic().unwrap();
    for key in 0..=65535u16 {
        assert_eq!(t1.lookup(key), t2.lookup(key));
    }
    // A key written by no pattern registration keeps the default entry:
    // an all-empty window (key 0) matches no canonical pattern.
    assert_eq!(t1.lookup(0).align(), Alignment::NoAlign);
}

#[test]
fn cross_alignment_five_and_double_open_three() {
    let table = build_magic().unwrap();
    let mut board = Board::new();
    board.setup_position("/////5xxxxx", "b").unwrap();
    let sq = Square::from(File::new(7), Rank::new(5));
    assert_eq!(CrossAlignment::from(&board, sq, &table), CrossAlignment::Five);

    // Two independent open threes through one square: one horizontal, one
    // vertical, crossing at file 7, rank 6.
    let mut b2 = Board::new();
    b2.setup_position("/////7x/6xxx/7x", "b").unwrap();
    let sq2 = Square::from(File::new(7), Rank::new(6));
    assert_eq!(CrossAlignment::from(&b2, sq2, &table), CrossAlignment::DoubleOpenThree);
}

#[test]
fn cross_alignment_after_hypothetical_center() {
    let table = build_magic().unwrap();
    // Two pairs of black stones around a gap; a black stone in the gap
    // would complete a five.
    let mut b = Board::new();
    b.setup_position("/////5xx1xx", "b").unwrap();
    let gap = Square::from(File::new(7), Rank::new(5));
    assert_eq!(b.stone_at(gap), Stone::Empty);
    let after = CrossAlignment::after(&b, gap, Stone::Black, &table);
    assert_eq!(after, CrossAlignment::Five);
}

#[test]
fn score_bands_and_kinds() {
    assert_eq!(Score::cp(42).kind(), ScoreKind::Centipoint(42));
    assert_eq!(Score::cp(-250).kind(), ScoreKind::Centipoint(-250));
    assert_eq!(Score::mate_in(5).kind(), ScoreKind::MateIn(5));
    assert_eq!(Score::mated_in(5).kind(), ScoreKind::MatedIn(5));
    assert_eq!(Score::mate_in(0).0, 32667);
    assert_eq!(Score::mate_in(255).0, 32412);
    assert_eq!(Score::zero(), Score::draw());
    assert_eq!(Score::unit().0, 1);
}

#[test]
fn score_ordering_across_kinds() {
    // mate_in(n1) > mate_in(n2) > centipoints > mated_in(n2) > mated_in(n1)
    // for n1 < n2.
    assert!(Score::mate_in(1) > Score::mate_in(3));
    assert!(Score::mate_in(3) > Score::cp(32000));
    assert!(Score::cp(-32000) > Score::mated_in(3));
    assert!(Score::mated_in(3) > Score::mated_in(1));
    // The mated encoding is the exact negation of the mate encoding.
    assert_eq!(Score::mated_in(7).0, -Score::mate_in(7).0);
    assert_eq!(Score::mate_in(9).neg(), Score::mated_in(9));
}

#[test]
fn score_saturating_arithmetic_stays_in_band() {
    let big = Score::cp(32000);
    let sum = big.saturating_add(big);
    assert_eq!(sum.0, 32411);
    assert!(matches!(sum.kind(), ScoreKind::Centipoint(_)));
    let diff = Score::cp(-32000).saturating_sub(big);
    assert_eq!(diff.0, -32411);
    assert!(matches!(diff.kind(), ScoreKind::Centipoint(_)));
    let prod = Score::cp(1000).saturating_mul(1000);
    assert_eq!(prod.0, 32411);
    assert_eq!(Score::cp(100).saturating_mul(-3).0, -300);
    assert_eq!(Score::cp(7).saturating_add(Score::cp(8)).0, 15);
}
