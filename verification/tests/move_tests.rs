use ai_engine::moves::{
    Move, BISHOP_PROMOTION, BISHOP_PROMOTION_CAPTURE, CAPTURE, DOUBLE_PAWN_PUSH, EN_PASSANT,
    KING_CASTLE, KNIGHT_PROMOTION, KNIGHT_PROMOTION_CAPTURE, QUEEN_CASTLE, QUEEN_PROMOTION,
    QUEEN_PROMOTION_CAPTURE, ROOK_PROMOTION, ROOK_PROMOTION_CAPTURE,
};
use ai_engine::enums::{Color, PieceType};

#[test]
fn _move_test_from_to() {
    let m = Move::dummy_from_to(12, 28);
    assert_eq!(m.get_from(), 12);
    assert_eq!(m.get_to(), 28);
    assert_eq!(m.get_flags(), 0);
}

#[test]
fn _move_test_with_flags() {
    let m = Move::dummy_with_flags(KING_CASTLE, 4, 6);
    assert_eq!(m.get_from(), 4);
    assert_eq!(m.get_to(), 6);
    assert_eq!(m.get_flags(), KING_CASTLE);
}

#[test]
fn _move_test_is_normal() {
    let m = Move::dummy_from_to(12, 28);
    assert!(m.is_normal());
}

#[test]
fn _move_test_is_double_pawn_push() {
    let m = Move::dummy_with_flags(DOUBLE_PAWN_PUSH, 12, 20);
    assert!(m.is_double_pawn_push());
}

#[test]
fn _move_test_is_king_castle() {
    let m = Move::dummy_with_flags(KING_CASTLE, 4, 6);
    assert!(m.is_king_castle());
}

#[test]
fn _move_test_is_queen_castle() {
    let m = Move::dummy_with_flags(QUEEN_CASTLE, 4, 6);
    assert!(m.is_queen_castle());
}

#[test]
fn _move_test_is_capture() {
    let m = Move::dummy_with_flags(CAPTURE, 12, 28);
    assert!(m.is_capture());
}

#[test]
fn _move_test_is_en_passant() {
    let m = Move::dummy_with_flags(EN_PASSANT, 12, 28);
    assert!(m.is_en_passant());
}

#[test]
fn _move_test_is_knight_promotion() {
    let m = Move::dummy_with_flags(KNIGHT_PROMOTION, 12, 28);
    assert!(m.is_knight_promotion());
}

#[test]
fn _move_test_is_bishop_promotion() {
    let m = Move::dummy_with_flags(BISHOP_PROMOTION, 12, 28);
    assert!(m.is_bishop_promotion());
}

#[test]
fn _move_test_is_rook_promotion() {
    let m = Move::dummy_with_flags(ROOK_PROMOTION, 12, 28);
    assert!(m.is_rook_promotion());
}

#[test]
fn _move_test_is_queen_promotion() {
    let m = Move::dummy_with_flags(QUEEN_PROMOTION, 12, 28);
    assert!(m.is_queen_promotion());
}

#[test]
fn _move_test_is_knight_promo_capture() {
    let m = Move::dummy_with_flags(KNIGHT_PROMOTION_CAPTURE, 12, 28);
    assert!(m.is_knight_promo_capture());
}

#[test]
fn _move_test_is_bishop_promo_capture() {
    let m = Move::dummy_with_flags(BISHOP_PROMOTION_CAPTURE, 12, 28);
    assert!(m.is_bishop_promo_capture());
}

#[test]
fn _move_test_is_rook_promo_capture() {
    let m = Move::dummy_with_flags(ROOK_PROMOTION_CAPTURE, 12, 28);
    assert!(m.is_rook_promo_capture());
}

#[test]
fn _move_test_is_queen_promo_capture() {
    let m = Move::dummy_with_flags(QUEEN_PROMOTION_CAPTURE, 12, 28);
    assert!(m.is_queen_promo_capture());
}

// Own tests.

#[test]
fn move_encoding_exact_value() {
    // Flags in bits 12-15, source in bits 6-11, destination in bits 0-5.
    let m = Move::with_flags(CAPTURE, 12, 28, Color::White, PieceType::Pawn);
    assert_eq!(m.as_u64(), (4u64 << 12) | (12u64 << 6) | 28);
    assert_eq!(m.get_color(), Color::White);
    assert_eq!(m.get_piece_type(), PieceType::Pawn);
}

#[test]
fn move_round_trip_of_squares_and_flags() {
    for flags in [0u16, 1, 2, 3, 4, 5, 8, 9, 10, 11, 12, 13, 14, 15] {
        for (from, to) in [(0usize, 63usize), (63, 0), (12, 28), (7, 56)] {
            let m = Move::with_flags(flags, from, to, Color::Black, PieceType::Queen);
            assert_eq!(m.get_from(), from);
            assert_eq!(m.get_to(), to);
            assert_eq!(m.get_flags(), flags);
        }
    }
}

#[test]
fn move_algebraic_notation() {
    let m = Move::from_to(12, 28, Color::White, PieceType::Pawn);
    assert_eq!(m.to_algebraic_notation(), "e2e4");
    let p = Move::with_flags(QUEEN_PROMOTION, 52, 60, Color::White, PieceType::Pawn);
    assert_eq!(p.to_algebraic_notation(), "e7e8q");
    let n = Move::with_flags(KNIGHT_PROMOTION_CAPTURE, 9, 0, Color::Black, PieceType::Pawn);
    assert_eq!(n.to_algebraic_notation(), "b2a1n");
}

#[test]
fn move_en_passant_fields() {
    let mut m = Move::with_flags(DOUBLE_PAWN_PUSH, 12, 28, Color::White, PieceType::Pawn);
    assert_eq!(m.get_en_passant_bb_position(), 0);
    m.set_en_passant_bb_position(1 << 20);
    m.set_en_passant_bb_piece_square(1 << 28);
    assert_eq!(m.get_en_passant_bb_position(), 1 << 20);
    assert_eq!(m.get_en_passant_bb_piece_square(), 1 << 28);
    assert!(m.is_double_pawn_push());
}

#[test]
fn move_promotion_flags_from_symbol() {
    assert_eq!(ai_engine::moves::get_promotion_flag_from_symbol('q'), (QUEEN_PROMOTION, QUEEN_PROMOTION_CAPTURE));
    assert_eq!(ai_engine::moves::get_promotion_flag_from_symbol('N'), (KNIGHT_PROMOTION, KNIGHT_PROMOTION_CAPTURE));
    assert_eq!(ai_engine::moves::get_promotion_flag_from_symbol('x'), (0, 0));
    assert_eq!(ai_engine::moves::get_piece_type_from_promotion_flag(ROOK_PROMOTION_CAPTURE), PieceType::Rook);
    assert_eq!(ai_engine::moves::get_piece_type_from_promotion_flag(CAPTURE), PieceType::Empty);
}

// The same checks under their short names.

#[test]
fn test_from_to() {
    let m = Move::dummy_from_to(12, 28);
    assert_eq!(m.get_from(), 12);
    assert_eq!(m.get_to(), 28);
    assert_eq!(m.get_flags(), 0);
}

#[test]
fn test_with_flags() {
    let m = Move::dummy_with_flags(KING_CASTLE, 4, 6);
    assert_eq!(m.get_from(), 4);
    assert_eq!(m.get_to(), 6);
    assert_eq!(m.get_flags(), KING_CASTLE);
}

#[test]
fn test_is_normal() {
    let m = Move::dummy_from_to(12, 28);
    assert!(m.is_normal());
}

#[test]
fn test_is_double_pawn_push() {
    let m = Move::dummy_with_flags(DOUBLE_PAWN_PUSH, 12, 20);
    assert!(m.is_double_pawn_push());
}

#[test]
fn test_is_king_castle() {
    let m = Move::dummy_with_flags(KING_CASTLE, 4, 6);
    assert!(m.is_king_castle());
}

#[test]
fn test_is_queen_castle() {
    let m = Move::dummy_with_flags(QUEEN_CASTLE, 4, 6);
    assert!(m.is_queen_castle());
}

#[test]
fn test_is_capture() {
    let m = Move::dummy_with_flags(CAPTURE, 12, 28);
    assert!(m.is_capture());
}

#[test]
fn test_is_en_passant() {
    let m = Move::dummy_with_flags(EN_PASSANT, 12, 28);
    assert!(m.is_en_passant());
}

#[test]
fn test_is_knight_promotion() {
    let m = Move::dummy_with_flags(KNIGHT_PROMOTION, 12, 28);
    assert!(m.is_knight_promotion());
}

#[test]
fn test_is_bishop_promotion() {
    let m = Move::dummy_with_flags(BISHOP_PROMOTION, 12, 28);
    assert!(m.is_bishop_promotion());
}

#[test]
fn test_is_rook_promotion() {
    let m = Move::dummy_with_flags(ROOK_PROMOTION, 12, 28);
    assert!(m.is_rook_promotion());
}

#[test]
fn test_is_queen_promotion() {
    let m = Move::dummy_with_flags(QUEEN_PROMOTION, 12, 28);
    assert!(m.is_queen_promotion());
}

#[test]
fn test_is_knight_promo_capture() {
    let m = Move::dummy_with_flags(KNIGHT_PROMOTION_CAPTURE, 12, 28);
    assert!(m.is_knight_promo_capture());
}

#[test]
fn test_is_bishop_promo_capture() {
    let m = Move::dummy_with_flags(BISHOP_PROMOTION_CAPTURE, 12, 28);
    assert!(m.is_bishop_promo_capture());
}

#[test]
fn test_is_rook_promo_capture() {
    let m = Move::dummy_with_flags(ROOK_PROMOTION_CAPTURE, 12, 28);
    assert!(m.is_rook_promo_capture());
}

#[test]
fn test_is_queen_promo_capture() {
    let m = Move::dummy_with_flags(QUEEN_PROMOTION_CAPTURE, 12, 28);
    assert!(m.is_queen_promo_capture());
}
