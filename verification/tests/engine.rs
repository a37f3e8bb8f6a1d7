use kinko::board::Board;
use kinko::eval::{evaluate, is_victory, score_alignment};
use kinko::magic::{build_magic, CrossAlignment};
use kinko::movegen::{BitboardIter, Movegen};
use kinko::score::{Score, ScoreKind};
use kinko::search::{run_search, search, Params, SearchData, StopFlag};
use kinko::types::{File, Rank, Square, Stone};

#[test]
fn bitboard_iter_yields_ascending_squares() {
    let mut bb = kinko::bitboard::Bitboard::new();
    bb.set_square(Square::new(300));
    bb.set_square(Square::new(5));
    let mut iter = BitboardIter::from_bitboard(&bb);
    assert_eq!(iter.next(), Some(Square::new(5)));
    assert_eq!(iter.next(), Some(Square::new(300)));
    assert_eq!(iter.next(), None);
}

#[test]
fn movegen_near_seeds_center_on_empty_board() {
    let board = Board::new();
    let mut gen = Movegen::new();
    gen.generate_near(&board);
    assert_eq!(gen.next(), Some(Square::new(180)));
    assert_eq!(gen.next(), None);
}

#[test]
fn movegen_near_gives_all_eight_neighbors() {
    let mut board = Board::new();
    let center = Square::from(File::new(9), Rank::new(9));
    board.push(center);
    let mut gen = Movegen::new();
    gen.generate_near(&board);
    let mut found = Vec::new();
    while let Some(sq) = gen.next() {
        found.push(sq.value());
    }
    let c = center.value();
    let mut expected = vec![
        c - 20,
        c - 19,
        c - 18,
        c - 1,
        c + 1,
        c + 18,
        c + 19,
        c + 20,
    ];
    expected.sort();
    assert_eq!(found, expected);
}

#[test]
fn movegen_near_respects_the_corner() {
    let mut board = Board::new();
    board.push(Square::new(0));
    let mut gen = Movegen::new();
    gen.generate_near(&board);
    let mut found = Vec::new();
    while let Some(sq) = gen.next() {
        found.push(sq.value());
    }
    assert_eq!(found, vec![1, 19, 20]);
}

#[test]
fn movegen_far_reaches_two_steps() {
    let mut board = Board::new();
    let center = Square::from(File::new(9), Rank::new(9));
    board.push(center);
    let mut gen = Movegen::new();
    gen.generate_far(&board);
    let mut count = 0;
    while let Some(_) = gen.next() {
        count += 1;
    }
    // The full 5x5 block around the stone, minus the stone itself.
    assert_eq!(count, 24);
}

#[test]
fn movegen_all_lists_every_empty_square() {
    let mut board = Board::new();
    board.push(Square::new(100));
    let mut gen = Movegen::new();
    gen.generate_all(&board);
    let mut count = 0;
    let mut saw_occupied = false;
    while let Some(sq) = gen.next() {
        count += 1;
        if sq.value() == 100 {
            saw_occupied = true;
        }
    }
    assert_eq!(count, 360);
    assert!(!saw_occupied);
}

#[test]
fn movegen_random_pick_is_a_listed_candidate() {
    let mut board = Board::new();
    board.push(Square::new(180));
    let mut gen = Movegen::new();
    gen.generate_near(&board);
    let mut listed = Vec::new();
    let mut probe = Movegen::new();
    probe.generate_near(&board);
    while let Some(sq) = probe.next() {
        listed.push(sq);
    }
    for _ in 0..32 {
        let pick = gen.select_random_move();
        assert!(listed.contains(&pick));
    }
}

#[test]
fn evaluator_scores_threats_and_victory() {
    let table = build_magic().unwrap();
    assert_eq!(score_alignment(CrossAlignment::Five).0, 510);
    assert_eq!(score_alignment(CrossAlignment::NoAlign).0, 0);
    assert_eq!(score_alignment(CrossAlignment::OpenFour).0, 40);
    // The table is monotone in the declared threat order.
    let order = [
        CrossAlignment::NoAlign,
        CrossAlignment::Three,
        CrossAlignment::OpenThree,
        CrossAlignment::Four,
        CrossAlignment::OpenFour,
        CrossAlignment::DoubleThree,
        CrossAlignment::DoubleOpenThree,
        CrossAlignment::FourThree,
        CrossAlignment::OpenFourThree,
        CrossAlignment::FourFour,
        CrossAlignment::Five,
    ];
    for pair in order.windows(2) {
        assert!(score_alignment(pair[0]).0 <= score_alignment(pair[1]).0);
    }

    let mut board = Board::new();
    board.setup_position("/////5xxxxx", "b").unwrap();
    assert!(is_victory(&board, Square::from(File::new(7), Rank::new(5)), &table));
    assert!(!is_victory(&board, Square::from(File::new(4), Rank::new(5)), &table));

    // The empty board evaluates to exactly the tempo bonus.
    let empty = Board::new();
    assert_eq!(evaluate(&empty, &table).0, 2);
}

#[test]
fn search_depth_zero_returns_static_evaluation() {
    let table = build_magic().unwrap();
    let mut board = Board::new();
    board.setup_position("/////6xxx", "b").unwrap();
    let expected = evaluate(&board, &table);
    let stop = StopFlag::new(false);
    let params = Params::new();
    let mut data = SearchData::new();
    let got = search(
        &mut board,
        &mut data,
        &params,
        &stop,
        &table,
        0,
        Score::min(),
        Score::max(),
        0,
    );
    assert_eq!(got, expected);
}

#[test]
fn search_is_deterministic_at_fixed_depth() {
    let table = build_magic().unwrap();
    let mut board = Board::new();
    board.setup_position("/////6xx7o/8oo", "b").unwrap();
    let mut params = Params::new();
    params.set_depth(2);
    let stop = StopFlag::new(false);
    let (infos1, best1) = run_search(&board, &params, &stop, &table);
    let (infos2, best2) = run_search(&board, &params, &stop, &table);
    assert_eq!(best1, best2);
    assert_eq!(infos1.len(), infos2.len());
    for (a, b) in infos1.iter().zip(infos2.iter()) {
        assert_eq!(a.score, b.score);
        assert_eq!(a.bestmove, b.bestmove);
        assert_eq!(a.depth, b.depth);
    }
}

#[test]
fn run_search_on_empty_board_picks_the_center() {
    let table = build_magic().unwrap();
    let board = Board::new();
    let mut params = Params::new();
    params.set_depth(1);
    let stop = StopFlag::new(false);
    let (infos, best) = run_search(&board, &params, &stop, &table);
    assert_eq!(infos.len(), 1);
    assert_eq!(infos[0].depth, 1);
    assert_eq!(best, Square::new(180));
}

#[test]
fn run_search_completes_an_open_four() {
    let table = build_magic().unwrap();
    let mut board = Board::new();
    // Black has four in a row on rank 5, files 5 through 8, with open ends;
    // Black to move completes the five.
    board
        .setup_position("/////5xxxx/o1oo", "b")
        .unwrap();
    let mut params = Params::new();
    params.set_depth(1);
    let stop = StopFlag::new(false);
    let (infos, best) = run_search(&board, &params, &stop, &table);
    assert!(infos.len() >= 1);
    // The chosen move must produce a five through the played square.
    let mut after = board.duplicate();
    after.push(best);
    assert!(is_victory(&after, best, &table));
    // And the reported score is a mate in one ply.
    assert_eq!(infos[0].score, ScoreKind::MateIn(1));
}

#[test]
fn run_search_with_zero_movetime_stops_before_any_iteration() {
    let table = build_magic().unwrap();
    let board = Board::new();
    let mut params = Params::new();
    params.set_depth(3);
    params.set_movetime(0);
    let stop = StopFlag::new(false);
    let (infos, best) = run_search(&board, &params, &stop, &table);
    assert_eq!(infos.len(), 0);
    assert_eq!(best, Square::new(0));
}

#[test]
fn run_search_honors_a_prior_stop_request_cooperatively() {
    // run_search clears the flag at entry, so a pre-set flag does not stall
    // it; with a node budget of zero the first budget check raises the flag
    // again and the search aborts its iteration.
    let table = build_magic().unwrap();
    let board = Board::new();
    let mut params = Params::new();
    params.set_depth(2);
    params.set_nodes(0);
    let stop = StopFlag::new(true);
    let (infos, _best) = run_search(&board, &params, &stop, &table);
    assert_eq!(infos.len(), 0);
    assert!(stop.is_set());
}

#[test]
fn params_defaults_are_unrestricted() {
    let p = Params::new();
    assert_eq!(p.depth(), u16::MAX);
    assert_eq!(p.nodes(), u64::MAX);
    assert_eq!(p.movetime(), u64::MAX);
    let mut q = Params::new();
    q.set_depth(7);
    q.set_nodes(1000);
    q.set_movetime(250);
    q.set_wtime(1);
    q.set_btime(2);
    q.set_winc(3);
    q.set_binc(4);
    q.set_mate(5);
    q.set_searchmoves(&[Square::new(1), Square::new(2)]);
    assert_eq!(q.depth(), 7);
    assert_eq!(q.nodes(), 1000);
    assert_eq!(q.movetime(), 250);
}
