use ai_engine::board::Board;
use ai_engine::enums::{Color, PieceType};
use ai_engine::move_generator::attack_data::AttackData;
use ai_engine::move_generator::move_generator::MoveGenerator;
use ai_engine::moves::{Move, CAPTURE, DOUBLE_PAWN_PUSH, EN_PASSANT, KING_CASTLE, QUEEN_CASTLE};
use ai_engine::positions::{BBPositions, Squares};

fn assert_available_moves(board: &mut Board, expected_moves: Vec<Move>, not_expected_moves: Vec<Move>) {
    let mut move_generator = MoveGenerator::new();
    let moves = move_generator.get_moves(board);
    expected_moves.iter().for_each(|expected_move| {
        assert!(
            moves.iter().any(|m| *m == *expected_move),
            "Move {} should exist. Available moves: {:#?}",
            expected_move.to_algebraic_notation(),
            moves
        );
    });
    not_expected_moves.iter().for_each(|not_expected_move| {
        assert_eq!(
            false,
            moves.iter().any(|m| *m == *not_expected_move),
            "Move {} should not exist",
            not_expected_move.to_algebraic_notation()
        );
    });
}

fn setup_castle_test(queen_castle: Move, king_castle: Move) -> Board {
    let mut board = Board::new();
    let mut not_expected_moves = Vec::new();
    not_expected_moves.push(queen_castle);
    not_expected_moves.push(king_castle);
    assert_available_moves(&mut board, Vec::new(), not_expected_moves);
    board
}

fn set_up_castle_position() -> (Board, Move, Move, Move, Move) {
    let mut board = Board::new();
    assert_eq!(true, board.has_king_side_castle_right(Color::Black));
    assert_eq!(true, board.has_king_side_castle_right(Color::White));
    assert_eq!(true, board.has_queen_side_castle_right(Color::Black));
    assert_eq!(true, board.has_queen_side_castle_right(Color::White));

    board.move_piece(&Move::dummy_from_to(Squares::D2, Squares::D4));
    board.move_piece(&Move::dummy_from_to(Squares::D7, Squares::D5));
    board.move_piece(&Move::dummy_from_to(Squares::E2, Squares::E4));
    board.move_piece(&Move::dummy_from_to(Squares::E7, Squares::E5));
    board.move_piece(&Move::dummy_from_to(Squares::C1, Squares::H6));
    board.move_piece(&Move::dummy_from_to(Squares::C8, Squares::H3));
    board.move_piece(&Move::dummy_from_to(Squares::F1, Squares::A6));
    board.move_piece(&Move::dummy_from_to(Squares::F8, Squares::A3));
    board.move_piece(&Move::dummy_from_to(Squares::D1, Squares::D2));
    board.move_piece(&Move::dummy_from_to(Squares::D8, Squares::D7));
    board.move_piece(&Move::dummy_from_to(Squares::B1, Squares::C3));
    board.move_piece(&Move::dummy_from_to(Squares::B8, Squares::C6));
    board.move_piece(&Move::dummy_from_to(Squares::G1, Squares::F3));
    board.move_piece(&Move::dummy_from_to(Squares::G8, Squares::F6));
    println!("{}", board.board_text(&Vec::new()));

    let white_king_side_castle = Move::with_flags(KING_CASTLE, Squares::E1, Squares::G1, Color::White, PieceType::King);
    let white_queen_side_castle = Move::with_flags(QUEEN_CASTLE, Squares::E1, Squares::C1, Color::White, PieceType::King);
    let black_king_side_castle = Move::with_flags(KING_CASTLE, Squares::E8, Squares::G8, Color::Black, PieceType::King);
    let black_queen_side_castle = Move::with_flags(QUEEN_CASTLE, Squares::E8, Squares::C8, Color::Black, PieceType::King);
    (board, white_king_side_castle, white_queen_side_castle, black_king_side_castle, black_queen_side_castle)
}

#[test]
fn test_castle() {
    let (mut board, white_king_side_castle, white_queen_side_castle, black_king_side_castle, black_queen_side_castle) =
        set_up_castle_position();

    board.move_piece(&white_king_side_castle);
    assert_eq!(false, board.has_king_side_castle_right(Color::White));
    assert_eq!(false, board.has_queen_side_castle_right(Color::White));
    assert_eq!(PieceType::King, board.get_piece_type(Squares::G1));
    assert_eq!(PieceType::Rook, board.get_piece_type(Squares::F1));
    board.unmake_last_move();
    assert_eq!(true, board.has_king_side_castle_right(Color::White));
    assert_eq!(true, board.has_queen_side_castle_right(Color::White));

    board.move_piece(&white_queen_side_castle);
    assert_eq!(false, board.has_king_side_castle_right(Color::White));
    assert_eq!(false, board.has_queen_side_castle_right(Color::White));
    assert_eq!(PieceType::King, board.get_piece_type(Squares::C1));
    assert_eq!(PieceType::Rook, board.get_piece_type(Squares::D1));
    board.unmake_last_move();
    assert_eq!(true, board.has_king_side_castle_right(Color::White));
    assert_eq!(true, board.has_queen_side_castle_right(Color::White));

    board.move_piece(&Move::dummy_from_to(Squares::E1, Squares::E2));
    assert_eq!(false, board.has_king_side_castle_right(Color::White));
    assert_eq!(false, board.has_queen_side_castle_right(Color::White));
    board.unmake_last_move();
    assert_eq!(true, board.has_king_side_castle_right(Color::White));
    assert_eq!(true, board.has_queen_side_castle_right(Color::White));

    board.move_piece(&Move::dummy_from_to(Squares::A1, Squares::B1));
    assert_eq!(true, board.has_king_side_castle_right(Color::White));
    assert_eq!(false, board.has_queen_side_castle_right(Color::White));
    board.unmake_last_move();

    board.move_piece(&Move::dummy_from_to(Squares::H1, Squares::G1));
    assert_eq!(false, board.has_king_side_castle_right(Color::White));
    assert_eq!(true, board.has_queen_side_castle_right(Color::White));

    board.move_piece(&black_king_side_castle);
    assert_eq!(false, board.has_king_side_castle_right(Color::Black));
    assert_eq!(false, board.has_queen_side_castle_right(Color::Black));
    assert_eq!(PieceType::King, board.get_piece_type(Squares::G8));
    assert_eq!(PieceType::Rook, board.get_piece_type(Squares::F8));
    board.unmake_last_move();
    assert_eq!(true, board.has_king_side_castle_right(Color::Black));
    assert_eq!(true, board.has_queen_side_castle_right(Color::Black));

    board.move_piece(&black_queen_side_castle);
    assert_eq!(PieceType::King, board.get_piece_type(Squares::C8));
    assert_eq!(PieceType::Rook, board.get_piece_type(Squares::D8));
    assert_eq!(false, board.has_king_side_castle_right(Color::Black));
    assert_eq!(false, board.has_queen_side_castle_right(Color::Black));
    board.unmake_last_move();
    assert_eq!(true, board.has_king_side_castle_right(Color::Black));
    assert_eq!(true, board.has_queen_side_castle_right(Color::Black));

    board.move_piece(&Move::dummy_from_to(Squares::E8, Squares::E7));
    assert_eq!(false, board.has_king_side_castle_right(Color::Black));
    assert_eq!(false, board.has_queen_side_castle_right(Color::Black));
    board.unmake_last_move();
    assert_eq!(true, board.has_king_side_castle_right(Color::Black));
    assert_eq!(true, board.has_queen_side_castle_right(Color::Black));

    board.move_piece(&Move::dummy_from_to(Squares::A8, Squares::B8));
    assert_eq!(true, board.has_king_side_castle_right(Color::Black));
    assert_eq!(false, board.has_queen_side_castle_right(Color::Black));
    board.unmake_last_move();

    board.move_piece(&Move::dummy_from_to(Squares::H8, Squares::G8));
    assert_eq!(false, board.has_king_side_castle_right(Color::Black));
    assert_eq!(true, board.has_queen_side_castle_right(Color::Black));
    board.unmake_last_move();
}

#[test]
fn test_pins() {
    let mut board = Board::new();
    board.move_piece(&Move::dummy_from_to(Squares::A2, Squares::A3));
    board.move_piece(&Move::dummy_from_to(Squares::E7, Squares::E6));
    board.move_piece(&Move::dummy_from_to(Squares::A3, Squares::A4));
    board.move_piece(&Move::dummy_from_to(Squares::D8, Squares::H4));
    let mut not_expected_moves = Vec::new();
    not_expected_moves.push(Move::from_to(Squares::F2, Squares::F3, Color::White, PieceType::Pawn));
    not_expected_moves.push(Move::with_flags(DOUBLE_PAWN_PUSH, Squares::F2, Squares::F4, Color::White, PieceType::Pawn));
    assert_available_moves(&mut board, Vec::new(), not_expected_moves);
}

#[test]
fn test_castle_blocking() {
    let (mut board, white_king_side_castle, white_queen_side_castle, black_king_side_castle, black_queen_side_castle) =
        set_up_castle_position();
    let mut white_king_castle_moves = Vec::new();
    white_king_castle_moves.push(white_king_side_castle);
    white_king_castle_moves.push(white_queen_side_castle);
    assert_available_moves(&mut board, white_king_castle_moves.clone(), Vec::new());

    board.move_piece(&Move::dummy_from_to(Squares::B2, Squares::B4));
    let mut black_king_castle_moves = Vec::new();
    black_king_castle_moves.push(black_king_side_castle);
    black_king_castle_moves.push(black_queen_side_castle);
    assert_available_moves(&mut board, black_king_castle_moves.clone(), Vec::new());

    board.move_piece(&Move::dummy_from_to(Squares::B7, Squares::B5));
    board.move_piece(&Move::dummy_from_to(Squares::G2, Squares::G4));
    assert_available_moves(&mut board, Vec::new(), white_king_castle_moves);

    board.move_piece(&Move::dummy_from_to(Squares::G7, Squares::G5));
    assert_available_moves(&mut board, Vec::new(), black_king_castle_moves);

    assert_eq!(true, board.has_king_side_castle_right(Color::Black));
    assert_eq!(true, board.has_king_side_castle_right(Color::White));
    assert_eq!(true, board.has_queen_side_castle_right(Color::Black));
    assert_eq!(true, board.has_queen_side_castle_right(Color::White));
}

#[test]
fn test_get_king_moves() {
    let mut board = Board::new();
    let mut not_expected_moves = Vec::new();
    not_expected_moves.push(Move::with_flags(CAPTURE, Squares::E1, Squares::D1, Color::White, PieceType::King));
    not_expected_moves.push(Move::with_flags(CAPTURE, Squares::E1, Squares::D2, Color::White, PieceType::King));
    not_expected_moves.push(Move::with_flags(CAPTURE, Squares::E1, Squares::E2, Color::White, PieceType::King));
    not_expected_moves.push(Move::with_flags(CAPTURE, Squares::E1, Squares::F2, Color::White, PieceType::King));
    not_expected_moves.push(Move::with_flags(CAPTURE, Squares::E1, Squares::F1, Color::White, PieceType::King));
    assert_available_moves(&mut board, Vec::new(), not_expected_moves);

    board = Board::empty();
    board.place_piece(Color::White, PieceType::King, BBPositions::E1);
    board.place_piece(Color::Black, PieceType::Rook, BBPositions::F2);
    board.place_piece(Color::White, PieceType::Rook, BBPositions::F1);
    let mut expected_moves = Vec::new();
    expected_moves.push(Move::from_to(Squares::E1, Squares::D1, Color::White, PieceType::King));
    expected_moves.push(Move::with_flags(CAPTURE, Squares::E1, Squares::F2, Color::White, PieceType::King));
    let mut not_expected_moves = Vec::new();
    not_expected_moves.push(Move::from_to(Squares::E1, Squares::F1, Color::White, PieceType::King));
    assert_available_moves(&mut board, expected_moves, not_expected_moves);
}

#[test]
fn test_get_queen_moves() {
    let mut board = Board::empty();
    board.place_piece(Color::White, PieceType::Queen, BBPositions::D1);
    board.place_piece(Color::Black, PieceType::Pawn, BBPositions::D4);
    board.place_piece(Color::Black, PieceType::Pawn, BBPositions::F3);
    board.place_piece(Color::White, PieceType::Pawn, BBPositions::C2);
    board.place_piece(Color::White, PieceType::Bishop, BBPositions::C1);
    board.place_piece(Color::White, PieceType::King, BBPositions::E1);
    let mut expected_moves = Vec::new();
    expected_moves.push(Move::from_to(Squares::D1, Squares::D2, Color::White, PieceType::Queen));
    expected_moves.push(Move::from_to(Squares::D1, Squares::D3, Color::White, PieceType::Queen));
    expected_moves.push(Move::with_flags(CAPTURE, Squares::D1, Squares::D4, Color::White, PieceType::Queen));
    expected_moves.push(Move::from_to(Squares::D1, Squares::E2, Color::White, PieceType::Queen));
    expected_moves.push(Move::with_flags(CAPTURE, Squares::D1, Squares::F3, Color::White, PieceType::Queen));
    let mut not_expected_moves = Vec::new();
    not_expected_moves.push(Move::with_flags(CAPTURE, Squares::D1, Squares::C2, Color::White, PieceType::Queen));
    not_expected_moves.push(Move::with_flags(CAPTURE, Squares::D1, Squares::C2, Color::White, PieceType::Queen));
    not_expected_moves.push(Move::with_flags(CAPTURE, Squares::D1, Squares::C1, Color::White, PieceType::Queen));
    not_expected_moves.push(Move::with_flags(CAPTURE, Squares::D1, Squares::E1, Color::White, PieceType::Queen));
    assert_available_moves(&mut board, expected_moves, not_expected_moves);
}

#[test]
fn test_get_bishop_moves() {
    let mut board = Board::empty();
    board.place_piece(Color::White, PieceType::Bishop, BBPositions::A1);
    board.place_piece(Color::Black, PieceType::Pawn, BBPositions::C3);
    let mut expected_moves = Vec::new();
    expected_moves.push(Move::from_to(Squares::A1, Squares::B2, Color::White, PieceType::Bishop));
    expected_moves.push(Move::with_flags(CAPTURE, Squares::A1, Squares::C3, Color::White, PieceType::Bishop));
    assert_available_moves(&mut board, expected_moves, Vec::new());
}

#[test]
fn test_get_rook_moves() {
    let mut board = Board::empty();
    board.place_piece(Color::White, PieceType::Rook, BBPositions::A1);
    board.place_piece(Color::White, PieceType::Bishop, BBPositions::C1);
    board.place_piece(Color::Black, PieceType::Pawn, BBPositions::A3);
    let mut expected_moves = Vec::new();
    expected_moves.push(Move::from_to(Squares::A1, Squares::A2, Color::White, PieceType::Rook));
    expected_moves.push(Move::with_flags(CAPTURE, Squares::A1, Squares::A3, Color::White, PieceType::Rook));
    expected_moves.push(Move::from_to(Squares::A1, Squares::B1, Color::White, PieceType::Rook));
    let mut not_expected_moves = Vec::new();
    not_expected_moves.push(Move::with_flags(CAPTURE, Squares::A1, Squares::C1, Color::White, PieceType::Rook));
    assert_available_moves(&mut board, expected_moves, not_expected_moves);
}

#[test]
fn test_get_knight_moves() {
    let mut board = Board::new();
    let mut expected_moves = Vec::new();
    let white_knight_to_c3 = Move::from_to(Squares::B1, Squares::C3, Color::White, PieceType::Knight);
    expected_moves.push(white_knight_to_c3.clone());
    expected_moves.push(Move::from_to(Squares::B1, Squares::A3, Color::White, PieceType::Knight));
    assert_available_moves(&mut board, expected_moves, Vec::new());

    board.move_piece(&white_knight_to_c3);
    board.move_piece(&Move::dummy_from_to(Squares::D7, Squares::D5));
    let white_knight_to_d5 = Move::with_flags(CAPTURE, Squares::C3, Squares::D5, Color::White, PieceType::Knight);
    expected_moves = Vec::new();
    expected_moves.push(white_knight_to_d5.clone());
    assert_available_moves(&mut board, expected_moves, Vec::new());
}

#[test]
fn test_get_pawn_moves() {
    let mut board = Board::new();
    let mut expected_moves = Vec::new();
    let mut white_pawn_to_d4 = Move::with_flags(DOUBLE_PAWN_PUSH, Squares::D2, Squares::D4, Color::White, PieceType::Pawn);
    white_pawn_to_d4.set_en_passant_bb_position(BBPositions::D3);
    white_pawn_to_d4.set_en_passant_bb_piece_square(BBPositions::D4);
    expected_moves.push(white_pawn_to_d4.clone());
    assert_available_moves(&mut board, expected_moves, Vec::new());

    board.move_piece(&white_pawn_to_d4);
    let mut black_pawn_to_e5 = Move::with_flags(DOUBLE_PAWN_PUSH, Squares::E7, Squares::E5, Color::Black, PieceType::Pawn);
    black_pawn_to_e5.set_en_passant_bb_position(BBPositions::E6);
    black_pawn_to_e5.set_en_passant_bb_piece_square(BBPositions::E5);
    board.move_piece(&black_pawn_to_e5);

    expected_moves = Vec::new();
    expected_moves.push(Move::with_flags(CAPTURE, Squares::D4, Squares::E5, Color::White, PieceType::Pawn));
    assert_available_moves(&mut board, expected_moves, Vec::new());
}

#[test]
fn test_get_en_passant() {
    let mut board = Board::new();
    board.move_piece(&Move::dummy_with_flags(DOUBLE_PAWN_PUSH, Squares::D2, Squares::D4));
    board.move_piece(&Move::dummy_from_to(Squares::A7, Squares::A6));
    board.move_piece(&Move::dummy_from_to(Squares::D4, Squares::D5));
    board.move_piece(&Move::dummy_from_to(Squares::A6, Squares::A5));
    board.move_piece(&Move::dummy_with_flags(DOUBLE_PAWN_PUSH, Squares::F2, Squares::F4));
    board.move_piece(&Move::dummy_from_to(Squares::A5, Squares::A4));
    board.move_piece(&Move::dummy_from_to(Squares::F4, Squares::F5));

    let mut expected_moves = Vec::new();
    let mut black_double_push = Move::with_flags(DOUBLE_PAWN_PUSH, Squares::E7, Squares::E5, Color::Black, PieceType::Pawn);
    black_double_push.set_en_passant_bb_position(BBPositions::E6);
    black_double_push.set_en_passant_bb_piece_square(BBPositions::E5);
    expected_moves.push(black_double_push.clone());
    assert_available_moves(&mut board, expected_moves, Vec::new());

    board.move_piece(&black_double_push);
    expected_moves = Vec::new();
    expected_moves.push(Move::with_flags(EN_PASSANT, Squares::D5, Squares::E6, Color::White, PieceType::Pawn));
    expected_moves.push(Move::with_flags(EN_PASSANT, Squares::F5, Squares::E6, Color::White, PieceType::Pawn));
    assert_available_moves(&mut board, expected_moves, Vec::new());
}

#[test]
fn test_pawn_check() {
    let move_generator = MoveGenerator::new();
    let mut attack_data = AttackData::new();
    let board = Board::from_fen("8/8/2p3p1/3pp3/4Kpp1/8/8/8 w - - 0 1");
    println!("{}", board.board_text(&Vec::new()));
    attack_data.calculate_attack_data(&board, &move_generator);
    assert_eq!(0xFFFFFF55C30FFFFF, attack_data.king_allowed_squares);
    assert_eq!(0x0000000800000000, attack_data.attack_bb);
    assert_eq!(0x0000000000000000, attack_data.defenders_bb);
}

#[test]
fn test_in_double_check() {
    let move_generator = MoveGenerator::new();
    let mut attack_data = AttackData::new();

    let board = Board::from_fen("rnbqkbnr/pp3ppp/2pN4/3p4/8/5p2/PPPPQPPP/R1B1KB1R b KQkq - 1 1");
    attack_data.calculate_attack_data(&board, &move_generator);
    assert_eq!(true, attack_data.in_check);
    assert_eq!(true, attack_data.in_double_check);
    assert_eq!(0x0000080000001000, attack_data.attack_bb);
    assert_eq!(0, attack_data.defenders_bb);

    let board = Board::from_fen("rnbqkbnr/pp3ppp/3N4/2p5/B7/3Ppp2/PPP1QPPP/R1B1K2R b KQkq - 0 1");
    attack_data.calculate_attack_data(&board, &move_generator);
    assert_eq!(true, attack_data.in_check);
    assert_eq!(true, attack_data.in_double_check);
    assert_eq!(0x0000080001000000, attack_data.attack_bb);
    assert_eq!(0, attack_data.defenders_bb);

    let board = Board::from_fen("rnbqkbnr/pp3ppp/2B5/2p2N2/3p4/3PRp2/PPPQ1PPP/R1B1K3 b Qkq - 0 1");
    attack_data.calculate_attack_data(&board, &move_generator);
    assert_eq!(true, attack_data.in_check);
    assert_eq!(true, attack_data.in_double_check);
    assert_eq!(0x0000040000100000, attack_data.attack_bb);
    assert_eq!(0, attack_data.defenders_bb);
}

// Own tests.

#[test]
fn initial_position_has_twenty_moves() {
    let mut board = Board::new();
    let mut move_generator = MoveGenerator::new();
    let moves = move_generator.get_moves(&mut board);
    assert_eq!(moves.len(), 20);
    assert!(!board.is_game_finished());
}

#[test]
fn checkmate_sets_winner() {
    // Fool's mate: white is mated.
    let mut board = Board::from_fen("rnb1kbnr/pppp1ppp/8/4p3/6Pq/5P2/PPPPP2P/RNBQKBNR w KQkq - 1 3");
    let mut move_generator = MoveGenerator::new();
    let moves = move_generator.get_moves(&mut board);
    assert_eq!(moves.len(), 0);
    assert_eq!(board.get_winner(), Some(Color::Black));
}

#[test]
fn double_check_leaves_only_king_moves() {
    let mut board = Board::from_fen("rnbqkbnr/pp3ppp/2pN4/3p4/8/5p2/PPPPQPPP/R1B1KB1R b KQkq - 1 1");
    let mut move_generator = MoveGenerator::new();
    let moves = move_generator.get_moves(&mut board);
    assert!(moves.iter().all(|m| m.get_from() == Squares::E8));
}

#[test]
fn slider_lookups_match_direct_generation() {
    let move_generator = MoveGenerator::new();
    let board = Board::new();
    let friendly = board.get_player_pieces_positions(Color::White);
    // A rook on a1 in the initial position sees a2 and b1 only.
    assert_eq!(move_generator.get_orthogonal_attacks(&board, Color::White, Squares::A1, &friendly), BBPositions::A2 | BBPositions::B1);
    // A bishop on c1 sees b2 and d2.
    assert_eq!(move_generator.get_diagonal_attacks(&board, Color::White, Squares::C1, &friendly), BBPositions::B2 | BBPositions::D2);
}

#[test]
fn double_check_moves_are_king_moves() {
    let mut board = Board::from_fen("rnbqkbnr/pp3ppp/2pN4/3p4/8/5p2/PPPPQPPP/R1B1KB1R b KQkq - 1 1");
    let mut move_generator = MoveGenerator::new();
    let moves = move_generator.get_moves(&mut board);
    assert!(!moves.is_empty());
    assert!(moves.iter().all(|m| m.get_piece_type() == PieceType::King));
}

#[test]
fn two_checking_knights_count_once() {
    let move_generator = MoveGenerator::new();
    let mut attack_data = AttackData::new();
    let board = Board::from_fen("4k3/8/3N1N2/8/8/8/8/4K3 b - - 0 1");
    attack_data.calculate_attack_data(&board, &move_generator);
    assert!(attack_data.in_check);
    assert!(!attack_data.in_double_check);
    assert_eq!(attack_data.attack_bb, BBPositions::D6 | BBPositions::F6);
}

#[test]
fn no_check_in_the_initial_position() {
    let move_generator = MoveGenerator::new();
    let mut attack_data = AttackData::new();
    let board = Board::new();
    attack_data.calculate_attack_data(&board, &move_generator);
    assert!(!attack_data.in_check);
    assert!(!attack_data.in_double_check);
    assert_eq!(attack_data.attack_bb, u64::MAX);
}

#[test]
fn rook_and_pawn_give_double_check() {
    let move_generator = MoveGenerator::new();
    let mut attack_data = AttackData::new();
    let board = Board::from_fen("4k3/3P4/8/8/8/8/8/4R1K1 b - - 0 1");
    attack_data.calculate_attack_data(&board, &move_generator);
    assert!(attack_data.in_check);
    assert!(attack_data.in_double_check);
    assert_eq!(attack_data.attack_bb, BBPositions::E1 | BBPositions::D7);
}

#[test]
fn check_is_answered_by_blocking_or_capturing() {
    let mut board = Board::from_fen("4k3/8/8/8/8/8/5B2/4K2r w - - 0 1");
    let mut move_generator = MoveGenerator::new();
    let moves = move_generator.get_moves(&mut board);
    let others: Vec<&Move> = moves.iter().filter(|m| m.get_piece_type() != PieceType::King).collect();
    assert_eq!(others.len(), 1);
    assert_eq!(others[0].get_from(), Squares::F2);
    assert_eq!(others[0].get_to(), Squares::G1);
    let mut attack_data = AttackData::new();
    let board = Board::from_fen("4k3/8/8/8/8/8/5B2/4K2r w - - 0 1");
    attack_data.calculate_attack_data(&board, &move_generator);
    assert_eq!(attack_data.defenders_bb, BBPositions::F1 | BBPositions::G1);
    assert_eq!(attack_data.attack_bb, BBPositions::H1);
}

#[test]
fn pinned_pieces_keep_to_the_pin_line() {
    let mut move_generator = MoveGenerator::new();
    // A bishop pinned on the e-file has no move.
    let mut board = Board::from_fen("4k3/4r3/8/8/8/8/4B3/4K3 w - - 0 1");
    let moves = move_generator.get_moves(&mut board);
    assert!(moves.iter().all(|m| m.get_from() != Squares::E2));
    // A rook pinned on the e-file moves along it only, up to taking the pinner.
    let mut board = Board::from_fen("4k3/4r3/8/8/8/8/4R3/4K3 w - - 0 1");
    let moves = move_generator.get_moves(&mut board);
    let rook_moves: Vec<&Move> = moves.iter().filter(|m| m.get_from() == Squares::E2).collect();
    assert_eq!(rook_moves.len(), 5);
    assert!(rook_moves.iter().all(|m| m.get_to() % 8 == 4));
    let mut attack_data = AttackData::new();
    let board = Board::from_fen("4k3/4r3/8/8/8/8/4R3/4K3 w - - 0 1");
    attack_data.calculate_attack_data(&board, &move_generator);
    assert_eq!(
        attack_data.friendly_pins_moves_bbs[Squares::E2],
        BBPositions::E2 | BBPositions::E3 | BBPositions::E4 | BBPositions::E5 | BBPositions::E6 | BBPositions::E7
    );
    assert_eq!(attack_data.friendly_pins_moves_bbs[Squares::E1], u64::MAX);
}

#[test]
fn king_steps_off_the_checking_line() {
    let mut move_generator = MoveGenerator::new();
    let mut board = Board::from_fen("4k3/8/8/8/8/8/8/r3K3 w - - 0 1");
    let moves = move_generator.get_moves(&mut board);
    let mut targets: Vec<usize> = moves.iter().map(|m| m.get_to()).collect();
    targets.sort();
    assert_eq!(targets, vec![Squares::D2, Squares::E2, Squares::F2]);
    let mut attack_data = AttackData::new();
    let board = Board::from_fen("4k3/8/8/8/8/8/8/r3K3 w - - 0 1");
    attack_data.calculate_attack_data(&board, &move_generator);
    assert_eq!(attack_data.king_allowed_squares & BBPositions::F1, 0);
    assert_eq!(attack_data.king_allowed_squares & BBPositions::D1, 0);
    assert_ne!(attack_data.king_allowed_squares & BBPositions::E2, 0);
}

#[test]
fn no_castling_through_an_attacked_square() {
    let mut move_generator = MoveGenerator::new();
    let mut board = Board::from_fen("r3k2r/8/8/8/8/8/8/R3K2R w KQkq - 0 1");
    let moves = move_generator.get_moves(&mut board);
    assert!(moves.iter().any(|m| m.is_king_castle() && m.get_to() == Squares::G1));
    assert!(moves.iter().any(|m| m.is_queen_castle() && m.get_to() == Squares::C1));
    // A rook on f8 sees f1, the square the king passes on the king side.
    let mut board = Board::from_fen("r3kr2/8/8/8/8/8/8/R3K2R w KQq - 0 1");
    let moves = move_generator.get_moves(&mut board);
    assert!(!moves.iter().any(|m| m.is_king_castle()));
    assert!(moves.iter().any(|m| m.is_queen_castle() && m.get_to() == Squares::C1));
}

#[test]
fn black_castles_on_both_sides_when_free() {
    let mut move_generator = MoveGenerator::new();
    let mut board = Board::from_fen("r3k2r/8/8/8/8/8/8/R3K2R b KQkq - 0 1");
    let moves = move_generator.get_moves(&mut board);
    assert!(moves.iter().any(|m| m.is_king_castle() && m.get_from() == Squares::E8 && m.get_to() == Squares::G8));
    assert!(moves.iter().any(|m| m.is_queen_castle() && m.get_from() == Squares::E8 && m.get_to() == Squares::C8));
    // A knight on b8 blocks the queen-side path.
    let mut board = Board::from_fen("rn2k2r/8/8/8/8/8/8/R3K2R b KQkq - 0 1");
    let moves = move_generator.get_moves(&mut board);
    assert!(moves.iter().any(|m| m.is_king_castle()));
    assert!(!moves.iter().any(|m| m.is_queen_castle()));
}

#[test]
fn en_passant_takes_onto_the_en_passant_square() {
    let mut move_generator = MoveGenerator::new();
    let mut board = Board::from_fen("rnbqkbnr/ppp1p1pp/8/3pPp2/8/8/PPPP1PPP/RNBQKBNR w KQkq f6 0 3");
    let moves = move_generator.get_moves(&mut board);
    let captures: Vec<_> = moves.iter().filter(|m| m.is_en_passant()).collect();
    assert_eq!(captures.len(), 1);
    assert_eq!(captures[0].get_from(), Squares::E5);
    assert_eq!(captures[0].get_to(), Squares::F6);
}

#[test]
fn en_passant_that_uncovers_a_rank_check_is_left_out() {
    let mut move_generator = MoveGenerator::new();
    // Taking c5 en passant would leave the king on a5 open to the rook on h5.
    let mut board = Board::from_fen("8/8/8/KPp4r/8/8/8/7k w - c6 0 2");
    let moves = move_generator.get_moves(&mut board);
    assert!(!moves.iter().any(|m| m.is_en_passant()));
    // With the rook off the rank the capture is there.
    let mut board = Board::from_fen("8/8/8/KPp5/8/8/8/6rk w - c6 0 2");
    let moves = move_generator.get_moves(&mut board);
    assert!(moves.iter().any(|m| m.is_en_passant() && m.get_from() == Squares::B5 && m.get_to() == Squares::C6));
}

#[test]
fn capture_flags_match_the_target_square() {
    let mut move_generator = MoveGenerator::new();
    let mut board = Board::from_fen("r3k2r/p1ppqpb1/bn2pnp1/3PN3/1p2P3/2N2Q1p/PPPBBPPP/R3K2R w KQkq -");
    let moves = move_generator.get_moves(&mut board);
    let opponent = board.get_player_pieces_positions(Color::Black);
    for m in moves.iter() {
        let target = 1u64 << m.get_to();
        if m.is_capture() || m.is_promo_capture() {
            assert!(opponent & target != 0);
        }
        if m.is_normal() || m.is_double_pawn_push() || (m.is_promotion() && !m.is_promo_capture()) {
            assert!(opponent & target == 0);
        }
    }
    assert_eq!(moves.iter().filter(|m| m.is_capture()).count(), 8);
}

#[test]
fn start_position_double_push_carries_its_squares() {
    let mut move_generator = MoveGenerator::new();
    let mut board = Board::new();
    let moves = move_generator.get_moves(&mut board);
    assert_eq!(moves.len(), 20);
    let mut d = Move::with_flags(DOUBLE_PAWN_PUSH, Squares::D2, Squares::D4, Color::White, PieceType::Pawn);
    d.set_en_passant_bb_position(BBPositions::D3);
    d.set_en_passant_bb_piece_square(BBPositions::D4);
    assert!(moves.iter().any(|m| *m == d));
    for m in moves.iter() {
        if !m.is_double_pawn_push() {
            assert_eq!(m.get_en_passant_bb_position(), 0);
            assert_eq!(m.get_en_passant_bb_piece_square(), 0);
        }
    }
}

#[test]
fn promotions_come_in_fours() {
    let mut move_generator = MoveGenerator::new();
    let mut board = Board::from_fen("1n5k/P7/8/8/8/8/8/K7 w - - 0 1");
    let moves = move_generator.get_moves(&mut board);
    let pushes = moves.iter().filter(|m| m.get_from() == Squares::A7 && m.get_to() == Squares::A8).count();
    let takes = moves.iter().filter(|m| m.get_from() == Squares::A7 && m.get_to() == Squares::B8).count();
    assert_eq!(pushes, 4);
    assert_eq!(takes, 4);
    assert!(moves.iter().all(|m| m.get_piece_type() != PieceType::Pawn || m.get_to() < 56 || m.is_promotion()));
}

fn assert_no_repeats(moves: &Vec<Move>) {
    for i in 0..moves.len() {
        for j in (i + 1)..moves.len() {
            assert!(moves[i] != moves[j], "move {} is listed twice", moves[i].to_algebraic_notation());
        }
    }
}

#[test]
fn no_move_is_listed_twice() {
    let fens = [
        "rnbqkbnr/pppppppp/8/8/8/8/PPPPPPPP/RNBQKBNR w KQkq - 0 1",
        "8/2p5/3p4/KP5r/1R3p1k/8/4P1P1/8 w - -",
        "r3k2r/Pppp1ppp/1b3nbN/nP6/BBP1P3/q4N2/Pp1P2PP/R2Q1RK1 w kq - 0 1",
        "r3k2r/p1ppqpb1/bn2pnp1/3PN3/1p2P3/2N2Q1p/PPPBBPPP/R3K2R w KQkq - 0 1",
        "1n5k/P7/8/8/8/8/8/K7 w - - 0 1",
    ];
    for fen in fens.iter() {
        let mut move_generator = MoveGenerator::new();
        let mut board = Board::from_fen(fen);
        let moves = move_generator.get_moves(&mut board);
        assert_no_repeats(&moves);
    }
}

#[test]
fn a_lone_queen_lists_each_target_once() {
    let mut move_generator = MoveGenerator::new();
    let mut board = Board::from_fen("k7/8/8/8/3Q4/8/8/7K w - - 0 1");
    let moves = move_generator.get_moves(&mut board);
    let queen_moves: Vec<Move> = moves.iter().filter(|m| m.get_piece_type() == PieceType::Queen).cloned().collect();
    assert_eq!(queen_moves.len(), 27);
    assert_no_repeats(&queen_moves);
}

#[test]
fn black_double_push_carries_its_squares() {
    let mut move_generator = MoveGenerator::new();
    let mut board = Board::from_fen("rnbqkbnr/pppppppp/8/8/4P3/8/PPPP1PPP/RNBQKBNR b KQkq e3 0 1");
    let moves = move_generator.get_moves(&mut board);
    assert_eq!(moves.len(), 20);
    let mut d = Move::with_flags(DOUBLE_PAWN_PUSH, Squares::D7, Squares::D5, Color::Black, PieceType::Pawn);
    d.set_en_passant_bb_position(BBPositions::D6);
    d.set_en_passant_bb_piece_square(BBPositions::D5);
    assert!(moves.iter().any(|m| *m == d));
    assert!(moves.iter().all(|m| !m.is_en_passant()));
}
