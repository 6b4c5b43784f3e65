use ai_engine::bitwise_utils::{
    east_one, get_direction_fn_to_square, lower_bits, no_ea_one, no_we_one, north_one, pop_lsb,
    so_ea_one, so_we_one, south_one, to_bitboard_position, to_decimal_position, upper_bits,
    west_one, Direction,
};
use ai_engine::board_utils::{
    get_castling_right_flag, get_color_index, get_piece_type_from_index, get_piece_type_index,
    is_pawn_promotion, Side, BISHOPS_IDX, BLACK_IDX, KINGS_IDX, KNIGHTS_IDX, PAWNS_IDX,
    QUEENS_IDX, ROOKS_IDX, WHITE_IDX,
};
use ai_engine::enums::{Color, PieceType};
use ai_engine::positions::{same_anti_diagonal, same_diagonal, same_file, same_rank, BBPositions, Squares};

#[test]
fn bitwise_utils_test_to_bitboard_position() {
    assert_eq!(BBPositions::A1, to_bitboard_position(0));
}

#[test]
fn test_to_decimal_position() {
    assert_eq!(0, to_decimal_position(BBPositions::A1));
}

#[test]
fn bitwise_utils_test_north_one() {
    assert_eq!(BBPositions::E3, north_one(BBPositions::E2));
    assert_eq!(0, north_one(BBPositions::H8));
}

#[test]
fn bitwise_utils_test_south_one() {
    assert_eq!(BBPositions::E1, south_one(BBPositions::E2));
    assert_eq!(0, south_one(BBPositions::E1));
}

#[test]
fn bitwise_utils_test_east_one() {
    assert_eq!(BBPositions::F2, east_one(BBPositions::E2));
    assert_eq!(0, east_one(BBPositions::H8));
}

#[test]
fn bitwise_utils_test_west_one() {
    assert_eq!(BBPositions::D2, west_one(BBPositions::E2));
    assert_eq!(0, west_one(BBPositions::A8));
}

#[test]
fn bitwise_utils_test_no_we_one() {
    assert_eq!(BBPositions::D3, no_we_one(BBPositions::E2));
    assert_eq!(0, no_we_one(BBPositions::A8));
}

#[test]
fn bitwise_utils_test_so_we_one() {
    assert_eq!(BBPositions::D1, so_we_one(BBPositions::E2));
    assert_eq!(0, so_we_one(BBPositions::A1));
}

#[test]
fn bitwise_utils_test_no_ea_one() {
    assert_eq!(BBPositions::F3, no_ea_one(BBPositions::E2));
    assert_eq!(0, no_ea_one(BBPositions::H8));
}

#[test]
fn bitwise_utils_test_so_ea_one() {
    assert_eq!(BBPositions::F1, so_ea_one(BBPositions::E2));
    assert_eq!(0, so_ea_one(BBPositions::H1));
}

#[test]
fn bitwise_utils_test_upper_bits() {
    assert_eq!(0xFFFFFFFFFFFF0000, upper_bits(15));
}

#[test]
fn bitwise_utils_test_lower_bits() {
    assert_eq!(0x0000000000007FFF, lower_bits(15));
}

#[test]
fn test_same_rank() {
    assert!(same_rank(Squares::A1, Squares::H1));
    assert!(!same_rank(Squares::A1, Squares::A2));
    assert!(same_rank(Squares::D4, Squares::G4));
}

#[test]
fn test_same_file() {
    assert!(same_file(Squares::A1, Squares::A8));
    assert!(!same_file(Squares::A1, Squares::H1));
    assert!(same_file(Squares::D4, Squares::D4 + 24));
}

#[test]
fn test_same_diagonal() {
    assert!(same_diagonal(Squares::A1, Squares::H8));
    assert!(same_diagonal(Squares::A2, Squares::B3));
    assert!(!same_diagonal(Squares::A1, Squares::A8));
    assert!(same_diagonal(Squares::C1, Squares::E3));
    assert!(same_diagonal(Squares::A3, Squares::E7));
}

#[test]
fn test_same_anti_diagonal() {
    assert!(same_anti_diagonal(Squares::H1, Squares::A8));
    assert!(same_anti_diagonal(Squares::A2, Squares::B1));
    assert!(!same_anti_diagonal(Squares::A1, Squares::A8));
    assert!(same_anti_diagonal(Squares::G2, Squares::E4));
}

#[test]
fn board_utils_test_get_piece_type_from_index() {
    assert_eq!(PieceType::Bishop, get_piece_type_from_index(BISHOPS_IDX));
    assert_eq!(PieceType::King, get_piece_type_from_index(KINGS_IDX));
    assert_eq!(PieceType::Knight, get_piece_type_from_index(KNIGHTS_IDX));
    assert_eq!(PieceType::Pawn, get_piece_type_from_index(PAWNS_IDX));
    assert_eq!(PieceType::Queen, get_piece_type_from_index(QUEENS_IDX));
    assert_eq!(PieceType::Rook, get_piece_type_from_index(ROOKS_IDX));
}

#[test]
fn board_utils_test_get_piece_type_index() {
    assert_eq!(BISHOPS_IDX, get_piece_type_index(PieceType::Bishop));
    assert_eq!(KINGS_IDX, get_piece_type_index(PieceType::King));
    assert_eq!(KNIGHTS_IDX, get_piece_type_index(PieceType::Knight));
    assert_eq!(PAWNS_IDX, get_piece_type_index(PieceType::Pawn));
    assert_eq!(QUEENS_IDX, get_piece_type_index(PieceType::Queen));
    assert_eq!(ROOKS_IDX, get_piece_type_index(PieceType::Rook));
}

// Own tests.

#[test]
fn pop_lsb_takes_lowest_square() {
    let mut bits: u64 = 0b1010_0000;
    assert_eq!(pop_lsb(&mut bits), 5);
    assert_eq!(bits, 0b1000_0000);
    assert_eq!(pop_lsb(&mut bits), 7);
    assert_eq!(bits, 0);
    assert_eq!(pop_lsb(&mut bits), 63);
    assert_eq!(bits, 0);
}

#[test]
fn direction_between_squares() {
    assert_eq!(get_direction_fn_to_square(Squares::A1, Squares::H1), Direction::East);
    assert_eq!(get_direction_fn_to_square(Squares::H8, Squares::A1), Direction::SouthWest);
    assert_eq!(get_direction_fn_to_square(Squares::E4, Squares::E8), Direction::North);
    assert_eq!(get_direction_fn_to_square(Squares::E4, Squares::E4), Direction::Stay);
    assert_eq!(Direction::NorthEast.step(BBPositions::E2), BBPositions::F3);
    assert_eq!(Direction::East.step(BBPositions::H2), 0);
}

#[test]
fn color_index_and_castling_flags() {
    assert_eq!(get_color_index(Color::White), WHITE_IDX);
    assert_eq!(get_color_index(Color::Black), BLACK_IDX);
    assert_eq!(get_castling_right_flag(Color::White, Side::KingSide), 0x8);
    assert_eq!(get_castling_right_flag(Color::White, Side::QueenSide), 0x4);
    assert_eq!(get_castling_right_flag(Color::Black, Side::KingSide), 0x2);
    assert_eq!(get_castling_right_flag(Color::Black, Side::QueenSide), 0x1);
}

#[test]
fn pawn_promotion_detection() {
    assert!(is_pawn_promotion(Color::White, BBPositions::E7, BBPositions::E8));
    assert!(!is_pawn_promotion(Color::White, BBPositions::E6, BBPositions::E7));
    assert!(is_pawn_promotion(Color::Black, BBPositions::E2, BBPositions::E1));
}

#[test]
fn square_names() {
    assert_eq!(Squares::to_string(Squares::E4), "E4");
    assert_eq!(ai_engine::utils::square_to_algebraic(63), "h8");
    assert_eq!(ai_engine::utils::algebraic_to_square("e4"), 28);
    assert_eq!(BBPositions::get_row_bb(BBPositions::E4), BBPositions::ROW_4_BB);
}

// The same checks under their short names.

#[test]
fn test_to_bitboard_position() {
    assert_eq!(BBPositions::A1, to_bitboard_position(0));
}

#[test]
fn test_north_one() {
    assert_eq!(BBPositions::E3, north_one(BBPositions::E2));
    assert_eq!(0, north_one(BBPositions::H8));
}

#[test]
fn test_south_one() {
    assert_eq!(BBPositions::E1, south_one(BBPositions::E2));
    assert_eq!(0, south_one(BBPositions::E1));
}

#[test]
fn test_east_one() {
    assert_eq!(BBPositions::F2, east_one(BBPositions::E2));
    assert_eq!(0, east_one(BBPositions::H8));
}

#[test]
fn test_west_one() {
    assert_eq!(BBPositions::D2, west_one(BBPositions::E2));
    assert_eq!(0, west_one(BBPositions::A8));
}

#[test]
fn test_no_we_one() {
    assert_eq!(BBPositions::D3, no_we_one(BBPositions::E2));
    assert_eq!(0, no_we_one(BBPositions::A8));
}

#[test]
fn test_so_we_one() {
    assert_eq!(BBPositions::D1, so_we_one(BBPositions::E2));
    assert_eq!(0, so_we_one(BBPositions::A1));
}

#[test]
fn test_no_ea_one() {
    assert_eq!(BBPositions::F3, no_ea_one(BBPositions::E2));
    assert_eq!(0, no_ea_one(BBPositions::H8));
}

#[test]
fn test_so_ea_one() {
    assert_eq!(BBPositions::F1, so_ea_one(BBPositions::E2));
    assert_eq!(0, so_ea_one(BBPositions::H1));
}

#[test]
fn test_upper_bits() {
    assert_eq!(0xFFFFFFFFFFFF0000, upper_bits(15));
}

#[test]
fn test_lower_bits() {
    assert_eq!(0x0000000000007FFF, lower_bits(15));
}

// The same checks under their short names.

#[test]
fn test_get_piece_type_from_index() {
    assert_eq!(PieceType::Bishop, get_piece_type_from_index(BISHOPS_IDX));
    assert_eq!(PieceType::King, get_piece_type_from_index(KINGS_IDX));
    assert_eq!(PieceType::Knight, get_piece_type_from_index(KNIGHTS_IDX));
    assert_eq!(PieceType::Pawn, get_piece_type_from_index(PAWNS_IDX));
    assert_eq!(PieceType::Queen, get_piece_type_from_index(QUEENS_IDX));
    assert_eq!(PieceType::Rook, get_piece_type_from_index(ROOKS_IDX));
}

#[test]
fn test_get_piece_type_index() {
    assert_eq!(BISHOPS_IDX, get_piece_type_index(PieceType::Bishop));
    assert_eq!(KINGS_IDX, get_piece_type_index(PieceType::King));
    assert_eq!(KNIGHTS_IDX, get_piece_type_index(PieceType::Knight));
    assert_eq!(PAWNS_IDX, get_piece_type_index(PieceType::Pawn));
    assert_eq!(QUEENS_IDX, get_piece_type_index(PieceType::Queen));
    assert_eq!(ROOKS_IDX, get_piece_type_index(PieceType::Rook));
}

#[test]
fn memory_usage_of_a_slider_table() {
    assert_eq!(ai_engine::utils::memory_usage_in_kb(0, 0), 0);
    assert_eq!(ai_engine::utils::memory_usage_in_kb(1024, 0), 24);
    assert_eq!(ai_engine::utils::memory_usage_in_kb(1024, 128), 25);
}
