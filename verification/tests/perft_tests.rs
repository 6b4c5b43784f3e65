use ai_engine::board::Board;
use ai_engine::move_generator::move_generator::MoveGenerator;
use ai_engine::moves_counter::{count_moves, count_moves_per_move};

fn assert_fen_moves(fen: &str, results: Vec<(usize, u64)>) {
    let mut move_generator = MoveGenerator::new();
    let mut board = Board::from_fen(fen);
    let before = board.to_fen();
    for (depth, expected) in results {
        assert_eq!(count_moves(&mut board, depth, &mut move_generator), expected, "depth {depth} of {fen}");
        assert_eq!(board.to_fen(), before);
    }
}

#[test]
fn perft_shallow_pos_1() {
    assert_fen_moves("rnbqkbnr/pppppppp/8/8/8/8/PPPPPPPP/RNBQKBNR w KQkq - 0 1", vec![(1, 20), (2, 400), (3, 8_902)]);
}

#[test]
fn perft_shallow_pos_2() {
    assert_fen_moves("r3k2r/p1ppqpb1/bn2pnp1/3PN3/1p2P3/2N2Q1p/PPPBBPPP/R3K2R w KQkq -", vec![(1, 48), (2, 2_039)]);
}

#[test]
fn perft_shallow_pos_3() {
    assert_fen_moves("8/2p5/3p4/KP5r/1R3p1k/8/4P1P1/8 w - -", vec![(1, 14), (2, 191), (3, 2_812)]);
}

#[test]
fn perft_shallow_pos_4() {
    assert_fen_moves("r3k2r/Pppp1ppp/1b3nbN/nP6/BBP1P3/q4N2/Pp1P2PP/R2Q1RK1 w kq - 0 1", vec![(1, 6), (2, 264)]);
}

#[test]
fn perft_shallow_pos_5() {
    assert_fen_moves("rnbq1k1r/pp1Pbppp/2p5/8/2B5/8/PPP1NnPP/RNBQK2R w KQ - 1 8", vec![(1, 44), (2, 1_486)]);
}

#[test]
fn perft_shallow_pos_6() {
    assert_fen_moves("r4rk1/1pp1qppp/p1np1n2/2b1p1B1/2B1P1b1/P1NP1N2/1PP1QPPP/R4RK1 w - - 0 10", vec![(1, 46), (2, 2_079)]);
}

#[test]
fn perft_per_move_sums_to_total() {
    let mut move_generator = MoveGenerator::new();
    let mut board = Board::new();
    let per_move = count_moves_per_move(&mut board, 2, &mut move_generator);
    assert_eq!(per_move.len(), 20);
    assert_eq!(per_move.iter().map(|(_, c)| *c).sum::<u64>(), 400);
    assert!(per_move.iter().all(|(_, c)| *c == 20));
}

#[test]
fn perft_per_move_at_depth_one_counts_each_move_once() {
    let mut move_generator = MoveGenerator::new();
    let mut board = Board::from_fen("r3k2r/p1ppqpb1/bn2pnp1/3PN3/1p2P3/2N2Q1p/PPPBBPPP/R3K2R w KQkq -");
    let per_move = count_moves_per_move(&mut board, 1, &mut move_generator);
    assert_eq!(per_move.len(), 48);
    assert!(per_move.iter().all(|(_, c)| *c == 1));
    assert!(per_move.iter().all(|(m, _)| board.is_move_allowed(m)));
}

#[test]
fn perft_depth_zero_counts_one() {
    let mut move_generator = MoveGenerator::new();
    let mut board = Board::new();
    assert_eq!(count_moves(&mut board, 0, &mut move_generator), 1);
}

#[test]
fn test_perft_pos_1() {
    let mut results = Vec::new();
    results.push((1, 20));
    results.push((2, 400));
    results.push((3, 8_902));
    results.push((4, 197_281));
    results.push((5, 4_865_609));
    assert_fen_moves("rnbqkbnr/pppppppp/8/8/8/8/PPPPPPPP/RNBQKBNR w KQkq - 0 1", results);
}

#[test]
fn test_perft_pos_2() {
    let mut results = Vec::new();
    results.push((1, 48));
    results.push((2, 2_039));
    results.push((3, 97_862));
    results.push((4, 4_085_603));
    assert_fen_moves("r3k2r/p1ppqpb1/bn2pnp1/3PN3/1p2P3/2N2Q1p/PPPBBPPP/R3K2R w KQkq -", results);
}

#[test]
fn test_perft_pos_3() {
    let mut results = Vec::new();
    results.push((1, 14));
    results.push((2, 191));
    results.push((3, 2_812));
    results.push((4, 43_238));
    results.push((5, 674_624));
    assert_fen_moves("8/2p5/3p4/KP5r/1R3p1k/8/4P1P1/8 w - -", results);
}

#[test]
fn test_perft_pos_4() {
    let mut results = Vec::new();
    results.push((1, 6));
    results.push((2, 264));
    results.push((3, 9_467));
    results.push((4, 422_333));
    assert_fen_moves("r3k2r/Pppp1ppp/1b3nbN/nP6/BBP1P3/q4N2/Pp1P2PP/R2Q1RK1 w kq - 0 1", results);
}

#[test]
fn test_perft_pos_5() {
    let mut results = Vec::new();
    results.push((1, 44));
    results.push((2, 1486));
    results.push((3, 62_379));
    results.push((4, 2_103_487));
    assert_fen_moves("rnbq1k1r/pp1Pbppp/2p5/8/2B5/8/PPP1NnPP/RNBQK2R w KQ - 1 8", results);
}

#[test]
fn test_perft_pos_6() {
    let mut results = Vec::new();
    results.push((1, 46));
    results.push((2, 2_079));
    results.push((3, 89_890));
    results.push((4, 3_894_594));
    assert_fen_moves("r4rk1/1pp1qppp/p1np1n2/2b1p1B1/2B1P1b1/P1NP1N2/1PP1QPPP/R4RK1 w - - 0 10", results);
}
