use ai_engine::board_utils::{get_piece_type_from_index, get_piece_type_index};
use ai_engine::board::Board;
use ai_engine::constants::{BoardConsts, INITIAL_FEN};
use ai_engine::dtos::MoveDTO;
use ai_engine::enums::{Color, PieceType};
use ai_engine::global_state::GlobalState;
use ai_engine::moves::{Move, CAPTURE, QUEEN_PROMOTION};
use ai_engine::positions::Squares;

#[test]
fn move_dto_from_move() {
    let m = Move::with_flags(CAPTURE, Squares::D1, Squares::D4, Color::White, PieceType::Queen);
    let d = MoveDTO::from_move(&m);
    assert_eq!(d, MoveDTO { flags: CAPTURE, from: Squares::D1, to: Squares::D4, promotion_flag: 0 });
}

#[test]
fn board_const_values() {
    assert_eq!(BoardConsts::a_file.value(), 0x00000000000000FF);
    assert_eq!(BoardConsts::dark_squares.value(), 0xAA55AA55AA55AA55);
    assert_eq!(BoardConsts::light_squares.value() ^ BoardConsts::dark_squares.value(), u64::MAX);
}

#[test]
fn global_state_starts_on_initial_position() {
    let state = GlobalState::new();
    assert_eq!(state.board.to_fen(), INITIAL_FEN);
    assert_eq!(state.seconds_to_think, 2);
}

#[test]
fn move_allowed_checks() {
    let board = Board::new();
    assert!(board.is_move_allowed(&Move::dummy_from_to(Squares::E2, Squares::E4)));
    // Black cannot move first.
    assert!(!board.is_move_allowed(&Move::dummy_from_to(Squares::E7, Squares::E5)));
    // An empty square cannot move.
    assert!(!board.is_move_allowed(&Move::dummy_from_to(Squares::E4, Squares::E5)));
    // A promotion of a pawn to nothing named is refused only when no piece is named.
    let promo = Board::from_fen("8/4P3/8/8/8/8/8/8 w - - 0 1");
    assert!(promo.is_move_allowed(&Move::dummy_with_flags(QUEEN_PROMOTION, Squares::E7, Squares::E8)));
    assert!(!promo.is_move_allowed(&Move::dummy_from_to(Squares::E7, Squares::E8)));
}

#[test]
fn board_drawing() {
    let board = Board::from_fen("8/8/8/8/8/8/8/K7 w - - 0 1");
    let text = board.board_text(&vec![Squares::B1]);
    let lines: Vec<&str> = text.lines().collect();
    assert_eq!(lines.len(), 9);
    assert_eq!(lines[7], "1 ♔ * . . . . . . ");
    assert_eq!(lines[8], "  a b c d e f g h");
}

#[test]
fn piece_index_round_trip() {
    for pt in [PieceType::Pawn, PieceType::Knight, PieceType::Bishop, PieceType::Rook, PieceType::Queen, PieceType::King] {
        assert_eq!(get_piece_type_from_index(get_piece_type_index(pt)), pt);
    }
}

#[test]
fn opponent_of_opponent() {
    assert_eq!(Color::White.opponent().opponent(), Color::White);
    assert_eq!(Color::Black.opponent(), Color::White);
    assert_eq!(Color::White.to_string(), "White");
}

#[test]
fn moves_only_take_castling_rights_away() {
    let mut board = Board::from_fen("r3k2r/8/8/8/8/8/8/R3K2R w Kq - 0 1");
    let before = board.get_castling_rights();
    // The white queen-side rook moves: no right appears.
    board.move_piece(&Move::dummy_from_to(Squares::A1, Squares::A2));
    assert_eq!(board.get_castling_rights() & !before, 0);
    assert_eq!(board.get_castling_rights(), before);
    // The black king moves: black loses its rights.
    board.move_piece(&Move::dummy_from_to(Squares::E8, Squares::E7));
    assert_eq!(board.get_castling_rights(), 0x8);
}
