use ai_engine::board::Board;
use ai_engine::board_utils::{
    BLACK_KING_SIDE_CASTLING_RIGHT, BLACK_QUEEN_SIDE_CASTLING_RIGHT, PAWNS_IDX, QUEENS_IDX,
    WHITE_KING_SIDE_CASTLING_RIGHT, WHITE_QUEEN_SIDE_CASTLING_RIGHT,
};
use ai_engine::enums::{Color, PieceType};
use ai_engine::moves::{Move, DOUBLE_PAWN_PUSH, EN_PASSANT, QUEEN_PROMOTION};
use ai_engine::positions::{BBPositions, Squares};
use ai_engine::zobrist::Zobrist;

const WHITE_CASTLING_RIGHTS: u8 = 0xC;
const BLACK_CASTLING_RIGHTS: u8 = 0x3;

#[test]
fn test_castling() {
    // White side: king moved
    let mut board = Board::new();
    assert_eq!(0xF, board.get_castling_rights());
    board.move_piece(&Move::dummy_from_to(Squares::D2, Squares::D4));
    board.move_piece(&Move::dummy_from_to(Squares::D7, Squares::D5));
    board.move_piece(&Move::dummy_from_to(Squares::E1, Squares::D2));
    println!("{}", board.to_fen());
    assert_eq!(0x3, board.get_castling_rights());

    // White side: towers moved
    let mut board = Board::new();
    board.remove_piece(Color::White, PieceType::Knight, BBPositions::B1);
    board.remove_piece(Color::White, PieceType::Bishop, BBPositions::C1);
    board.remove_piece(Color::White, PieceType::Queen, BBPositions::D1);
    board.remove_piece(Color::White, PieceType::Knight, BBPositions::G1);
    board.remove_piece(Color::White, PieceType::Bishop, BBPositions::F1);
    assert_eq!(0xF, board.get_castling_rights(), "Default castling rights should be available");
    board.move_piece(&Move::dummy_from_to(Squares::A1, Squares::B1));
    assert_eq!(0, board.get_castling_rights() & WHITE_QUEEN_SIDE_CASTLING_RIGHT);
    board.move_piece(&Move::dummy_from_to(Squares::H7, Squares::H6));
    board.move_piece(&Move::dummy_from_to(Squares::H1, Squares::G1));
    assert_eq!(0, board.get_castling_rights() & WHITE_KING_SIDE_CASTLING_RIGHT);
    assert_eq!(0, board.get_castling_rights() & WHITE_CASTLING_RIGHTS);

    // Black side: king moved
    let mut board = Board::new();
    assert_eq!(0xF, board.get_castling_rights());
    board.move_piece(&Move::dummy_from_to(Squares::E2, Squares::E3));
    board.move_piece(&Move::dummy_from_to(Squares::E8, Squares::D7));
    assert_eq!(0xC, board.get_castling_rights());

    // Black side: towers moved
    let mut board = Board::new();
    board.remove_piece(Color::Black, PieceType::Knight, BBPositions::B8);
    board.remove_piece(Color::Black, PieceType::Bishop, BBPositions::C8);
    board.remove_piece(Color::Black, PieceType::Queen, BBPositions::D8);
    board.remove_piece(Color::Black, PieceType::Bishop, BBPositions::F8);
    board.remove_piece(Color::Black, PieceType::Knight, BBPositions::G8);
    assert_eq!(0xF, board.get_castling_rights(), "Default castling rights should be available");
    board.move_piece(&Move::dummy_from_to(Squares::A2, Squares::A3));
    board.move_piece(&Move::dummy_from_to(Squares::A8, Squares::B8));
    assert_eq!(0, board.get_castling_rights() & BLACK_QUEEN_SIDE_CASTLING_RIGHT);
    board.move_piece(&Move::dummy_from_to(Squares::A3, Squares::A4));
    board.move_piece(&Move::dummy_from_to(Squares::H8, Squares::G8));
    assert_eq!(0, board.get_castling_rights() & BLACK_KING_SIDE_CASTLING_RIGHT);
    assert_eq!(0, board.get_castling_rights() & BLACK_CASTLING_RIGHTS);
}

#[test]
fn test_en_passant_move() {
    let mut board = Board::new();
    board.move_piece(&Move::dummy_from_to(Squares::D2, Squares::D4));
    board.move_piece(&Move::dummy_from_to(Squares::E7, Squares::E5));
    board.move_piece(&Move::dummy_from_to(Squares::D4, Squares::D5));
    let mut m = Move::dummy_with_flags(DOUBLE_PAWN_PUSH, Squares::C7, Squares::C5);
    m.set_en_passant_bb_position(BBPositions::C6);
    m.set_en_passant_bb_piece_square(BBPositions::C5);
    board.move_piece(&m);
    assert_eq!(PieceType::Pawn, board.get_piece_type(Squares::C5));
    board.move_piece(&Move::dummy_with_flags(EN_PASSANT, Squares::D5, Squares::C6));
    assert_eq!(PieceType::Empty, board.get_piece_type(Squares::C5));
    assert_eq!(PieceType::Pawn, board.get_piece_type(Squares::C6));
    assert_eq!(Color::White, board.get_piece_color(Squares::C6));
}

#[test]
fn test_board_initialization() {
    let board = Board::new();
    let white_pawns = 0xFF00;
    let black_pawns = 0x00FF000000000000;
    assert_eq!(board.get_bitboards()[PAWNS_IDX] & white_pawns, white_pawns, "White pawns should be correctly initialized on rank 2");
    assert_eq!(board.get_bitboards()[PAWNS_IDX] & black_pawns, black_pawns, "Black pawns should be correctly initialized on rank 7");
}

#[test]
fn test_get_occupied_squares() {
    let board = Board::new();
    assert_eq!(0xFFFF00000000FFFF, board.get_occupied_squares())
}

#[test]
fn test_get_empty_squares() {
    let board = Board::new();
    assert_eq!(0x0000FFFFFFFF0000, board.get_empty_squares())
}

#[test]
fn test_move_piece() {
    let mut board = Board::new();
    let from = BBPositions::A2;
    let to = BBPositions::A4;
    board.move_piece(&Move::dummy_from_to(Squares::A2, Squares::A4));
    assert_eq!(board.get_bitboards()[PAWNS_IDX] & to, to, "Pawn should be moved to a4");
    assert_eq!(board.get_bitboards()[PAWNS_IDX] & from, 0, "Pawn should no longer be at a2");
}

#[test]
fn test_pawn_promotion() {
    let mut board = Board::empty();
    let from = BBPositions::H7;
    let to = BBPositions::H8;
    board.place_piece(Color::White, PieceType::Pawn, from);
    board.move_piece(&Move::dummy_with_flags(QUEEN_PROMOTION, 55, 63));
    assert_eq!(board.get_bitboards()[PAWNS_IDX] & to, 0, "Pawn should be promoted and not present on h1");
    assert_eq!(board.get_bitboards()[QUEENS_IDX] & to, to, "Queen should be placed on h1 after promotion");
}

#[test]
fn display() {
    let mut board = Board::new();
    println!("{}", board.board_text(&Vec::new()));
    board.move_piece(&Move::dummy_from_to(8, 16));
    println!("After moving white pawn from a2 to a3:");
    println!("{}", board.board_text(&Vec::new()));
}

// Own tests.

const INITIAL_FEN: &str = "rnbqkbnr/pppppppp/8/8/8/8/PPPPPPPP/RNBQKBNR w KQkq - 0 1";

#[test]
fn fen_of_new_board() {
    assert_eq!(Board::new().to_fen(), INITIAL_FEN);
}

#[test]
fn fen_read_then_written_back() {
    for fen in [
        INITIAL_FEN,
        "r3k2r/p1ppqpb1/bn2pnp1/3PN3/1p2P3/2N2Q1p/PPPBBPPP/R3K2R w KQkq - 0 1",
        "8/2p5/3p4/KP5r/1R3p1k/8/4P1P1/8 w - - 0 1",
        "rnbq1k1r/pp1Pbppp/2p5/8/2B5/8/PPP1NnPP/RNBQK2R w KQ - 1 8",
        "rnbqkbnr/pppp1ppp/8/4p3/4P3/8/PPPP1PPP/RNBQKBNR w KQkq e6 0 2",
    ] {
        let board = Board::from_fen(fen);
        assert_eq!(board.to_fen(), fen);
    }
}

#[test]
fn fen_initial_position_matches_new_board() {
    let a = Board::from_fen(INITIAL_FEN);
    let b = Board::new();
    assert_eq!(a.get_bitboards(), b.get_bitboards());
}

#[test]
fn fen_fields_are_read() {
    let board = Board::from_fen("8/8/8/3pP3/8/8/8/8 b Kq d6 12 34");
    assert_eq!(board.get_side_to_move(), Color::Black);
    assert_eq!(board.get_castling_rights(), 0x8 | 0x1);
    assert_eq!(board.get_en_passant_bb_position(), BBPositions::D6);
    assert_eq!(board.get_en_passant_piece_square_bb(), BBPositions::D5);
    assert_eq!(board.get_half_move_clock(), 12);
    assert_eq!(board.get_full_move_clock(), 34);
    assert_eq!(board.get_piece_type(Squares::E5), PieceType::Pawn);
    assert_eq!(board.get_piece_color(Squares::E5), Color::White);
    assert_eq!(board.get_piece_color(Squares::D5), Color::Black);
}

#[test]
fn fen_rejected_inputs() {
    assert!(Board::try_from_fen("8/8/8/8/8/8/8/8 w -").is_none());
    assert!(Board::try_from_fen("8/8/8/8/8/8/8/8 x - -").is_none());
    assert!(Board::try_from_fen("8/8/8/8/8/8/8/8 w KX -").is_none());
    assert!(Board::try_from_fen("8/8/8/8/8/8/8/8 w - z9").is_none());
    assert!(Board::try_from_fen("8/8/8/8/8/8/8/7X w - -").is_none());
    assert!(Board::try_from_fen("8/8/8/8/8/8/8/8 w - - 99999999999").is_none());
    assert!(Board::try_from_fen("8/8/8/8/8/8/8/8 w - - 0 1").is_some());
}

#[test]
fn unmake_restores_position() {
    let mut board = Board::new();
    let fen = board.to_fen();
    let hash = board.get_zobrist_hash();
    board.move_piece(&Move::dummy_from_to(Squares::E2, Squares::E4));
    assert_ne!(board.get_zobrist_hash(), hash);
    board.unmake_last_move();
    assert_eq!(board.to_fen(), fen);
    assert_eq!(board.get_zobrist_hash(), hash);
}

#[test]
fn place_then_remove_restores_bitboards() {
    let mut board = Board::new();
    let before = board.get_bitboards();
    board.place_piece(Color::White, PieceType::Knight, BBPositions::E4);
    assert_eq!(board.get_piece_type(Squares::E4), PieceType::Knight);
    board.remove_piece(Color::White, PieceType::Knight, BBPositions::E4);
    assert_eq!(board.get_bitboards(), before);
}

#[test]
fn new_board_has_the_hash_of_its_position() {
    assert_eq!(Board::new().get_zobrist_hash(), Board::from_fen(INITIAL_FEN).get_zobrist_hash());
    assert_ne!(Board::new().get_zobrist_hash(), 0);
}

#[test]
fn fresh_hashers_hash_a_position_alike() {
    let board = Board::from_fen("r3k2r/p1ppqpb1/bn2pnp1/3PN3/1p2P3/2N2Q1p/PPPBBPPP/R3K2R w KQkq - 0 1");
    let mut z1 = Zobrist::new();
    let mut z2 = Zobrist::new();
    let h1 = z1.compute_hash(&board);
    let h2 = z2.compute_hash(&board);
    assert_eq!(h1, h2);
    assert_eq!(z1.get_hash(), h1);
    assert_eq!(h1, board.get_zobrist_hash());
}

#[test]
fn castling_rights_follow_the_castling_field() {
    let board = Board::from_fen("r3k2r/8/8/8/8/8/8/R3K2R w Kq - 0 1");
    assert!(board.has_king_side_castle_right(Color::White));
    assert!(!board.has_queen_side_castle_right(Color::White));
    assert!(!board.has_king_side_castle_right(Color::Black));
    assert!(board.has_queen_side_castle_right(Color::Black));
    assert!(board.to_fen().contains(" w Kq - "));
}
