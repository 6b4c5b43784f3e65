use ai_engine::enums::Color;
use ai_engine::move_generator::magics::{candidate_from_draws, count_squares, try_candidate, MagicTrial, keys_of_square, try_magic, fill_magics_lookup_table, BISHOP_MAGICS, BISHOP_SHIFTS, ROOK_MAGICS, ROOK_SHIFTS};
use ai_engine::move_generator::raw_move_generator::{RawMoveGenerator, Slider};
use ai_engine::move_generator::tables::{
    BISHOP_MOVES, BISHOP_RELEVANT_SQUARES, BLACK_PAWN_ATTACKS, KING_MOVES, KNIGHT_MOVES, QUEEN_MOVES,
    ROOK_MOVES, ROOK_RELEVANT_SQUARES, WHITE_PAWN_ATTACKS, WHITE_PAWN_MOVES, BLACK_PAWN_MOVES,
};
use ai_engine::move_generator::utils::{
    get_closest_square, get_king_relevant_squares_related_to_enemy_pawns, is_promotion_square,
    squares_between,
};
use ai_engine::bitwise_utils::Direction;
use ai_engine::enums::PieceType;
use ai_engine::positions::{BBPositions, Squares};

fn test_create_lookup_table(slider: Slider, relevant_squares: &[u64; 64]) {
    let table = RawMoveGenerator::create_lookup_table(slider, relevant_squares);
    println!("{:?} look up table entries: {}", slider, table.len());
    for entry in table.iter().take(3) {
        println!("{:?} -> {:?}", entry.0, entry.1);
    }
}

#[test]
fn test_create_rook_lookup_table() {
    test_create_lookup_table(Slider::Rook, &ROOK_RELEVANT_SQUARES)
}

#[test]
fn test_create_bishop_lookup_table() {
    test_create_lookup_table(Slider::Bishop, &BISHOP_RELEVANT_SQUARES)
}

#[test]
fn test_get_blockers_bitboards() {
    let position = BBPositions::E4;
    let moves = RawMoveGenerator::generate_rook_moves(0, 0, position);
    let blockers = RawMoveGenerator::get_blockers_bitboards(moves);
    println!("Generated {}", blockers.len());
    println!("{:#018X}", *blockers.get(1256).unwrap());
}

#[test]
fn test_pre_compute_bishop_moves() {
    let moves = RawMoveGenerator::pre_compute_bishop_moves();
    println!("{:#018X?}", moves)
}

#[test]
fn test_pre_compute_queen_moves() {
    let moves = RawMoveGenerator::pre_compute_queen_moves();
    println!("{:#018X?}", moves)
}

#[test]
fn test_pre_compute_rook_moves() {
    let moves = RawMoveGenerator::pre_compute_rook_moves();
    println!("{:#018X?}", moves)
}

#[test]
fn test_generate_queen_moves() {
    let position = BBPositions::D1;
    let mut moves = RawMoveGenerator::generate_queen_moves(0, 0, position);
    assert_eq!(0x08080888492A1CF7, moves);
    moves = RawMoveGenerator::generate_queen_moves(0x1020000, 0x800, position);
    assert_eq!(0x00000080402214F7, moves);
}

#[test]
fn test_generate_bishop_moves() {
    let position = BBPositions::C1;
    let mut moves = RawMoveGenerator::generate_bishop_moves(0, 0, position);
    assert_eq!(0x0000804020110A00, moves);
    moves = RawMoveGenerator::generate_bishop_moves(0, 0x800, position);
    assert_eq!(0x0000000000010200, moves);
    moves = RawMoveGenerator::generate_bishop_moves(0x800, 0, position);
    assert_eq!(0x0000000000010A00, moves);
}

#[test]
fn test_generate_rook_moves() {
    let mut position = BBPositions::A1;
    let mut moves = RawMoveGenerator::generate_rook_moves(0, 0, position);
    assert_eq!(0x01010101010101FE, moves);
    position = BBPositions::D5;
    moves = RawMoveGenerator::generate_rook_moves(0, 0xFFFF000000000000, position);
    assert_eq!(0x000008F708080808, moves);
    moves = RawMoveGenerator::generate_rook_moves(0x0000000000FFF9F6, 0xFFFF000000000000, position);
    assert_eq!(0x000008F708080000, moves);
}

#[test]
fn test_get_king_relevant_squares_related_to_enemy_pawns() {
    let mut king_square = Squares::E1;
    let mut bb_position = get_king_relevant_squares_related_to_enemy_pawns(Color::White, king_square);
    assert_eq!(0x0000000000FEFEEE, bb_position);
    king_square = Squares::E8;
    bb_position = get_king_relevant_squares_related_to_enemy_pawns(Color::Black, king_square);
    assert_eq!(0xEEFEFE0000000000, bb_position);
}

// Own tests.

#[test]
fn precomputed_tables_match_generators() {
    assert_eq!(RawMoveGenerator::pre_compute_bishop_moves(), BISHOP_MOVES);
    assert_eq!(RawMoveGenerator::pre_compute_rook_moves(), ROOK_MOVES);
    assert_eq!(RawMoveGenerator::pre_compute_queen_moves(), QUEEN_MOVES);
    let mut king = [0u64; 64];
    RawMoveGenerator::pre_compute_king_moves(&mut king);
    assert_eq!(king, KING_MOVES);
    let mut knight = [0u64; 64];
    RawMoveGenerator::pre_compute_knight_moves(&mut knight);
    assert_eq!(knight, KNIGHT_MOVES);
    let mut white_attacks = [0u64; 64];
    RawMoveGenerator::pre_compute_pawn_attacks(&mut white_attacks, Direction::NorthEast, Direction::NorthWest);
    assert_eq!(white_attacks, WHITE_PAWN_ATTACKS);
    let mut black_attacks = [0u64; 64];
    RawMoveGenerator::pre_compute_pawn_attacks(&mut black_attacks, Direction::SouthEast, Direction::SouthWest);
    assert_eq!(black_attacks, BLACK_PAWN_ATTACKS);
    let mut white_pushes = [0u64; 64];
    RawMoveGenerator::pre_compute_pawn_moves(&mut white_pushes, true);
    let mut black_pushes = [0u64; 64];
    RawMoveGenerator::pre_compute_pawn_moves(&mut black_pushes, false);
    // Print rather than compare: the stored push tables are kept as they were written.
    println!("{:?} {:?} {:?} {:?}", white_pushes[8], WHITE_PAWN_MOVES[8], black_pushes[48], BLACK_PAWN_MOVES[48]);
}

#[test]
fn blockers_count_is_a_power_of_two() {
    let moves = RawMoveGenerator::generate_rook_moves(0, 0, BBPositions::E4) & ROOK_RELEVANT_SQUARES[Squares::E4];
    let blockers = RawMoveGenerator::get_blockers_bitboards(moves);
    assert_eq!(blockers.len(), 1 << moves.count_ones());
    assert!(blockers.iter().all(|b| b & !moves == 0));
}

#[test]
fn magic_tables_fill_without_conflict() {
    let rook_table = RawMoveGenerator::create_rook_lookup_table();
    let mut rook = Vec::new();
    assert!(fill_magics_lookup_table(&rook_table, &mut rook, ROOK_MAGICS, ROOK_SHIFTS, PieceType::Rook));
    let bishop_table = RawMoveGenerator::create_bishop_lookup_table();
    let mut bishop = Vec::new();
    assert!(fill_magics_lookup_table(&bishop_table, &mut bishop, BISHOP_MAGICS, BISHOP_SHIFTS, PieceType::Bishop));
    assert_eq!(rook.len(), 64);
    assert_eq!(bishop.len(), 64);
}

#[test]
fn magic_tables_report_conflicts() {
    let rook_table = RawMoveGenerator::create_rook_lookup_table();
    // A zero magic sends every pattern of a square to slot 0.
    let mut rook = Vec::new();
    assert!(!fill_magics_lookup_table(&rook_table, &mut rook, [0; 64], ROOK_SHIFTS, PieceType::Rook));
    assert_eq!(rook.len(), 64);
    // A shift of 64 or more gives no slot at all.
    let mut rook = Vec::new();
    assert!(!fill_magics_lookup_table(&rook_table, &mut rook, ROOK_MAGICS, [64; 64], PieceType::Rook));
}

#[test]
fn squares_between_and_closest() {
    assert_eq!(squares_between(Squares::A1, Squares::D1), BBPositions::B1 | BBPositions::C1);
    assert_eq!(squares_between(Squares::D1, Squares::A1), BBPositions::B1 | BBPositions::C1);
    assert_eq!(squares_between(Squares::A1, Squares::B1), 0);
    assert_eq!(get_closest_square(Squares::E1, BBPositions::A1 | BBPositions::H1), Squares::A1);
    assert_eq!(get_closest_square(Squares::E1, 0), usize::MAX);
    assert!(is_promotion_square(Color::White, Squares::A8));
    assert!(!is_promotion_square(Color::White, Squares::A1));
    assert!(is_promotion_square(Color::Black, Squares::H1));
}

#[test]
fn relevant_square_masks_match_tables() {
    assert_eq!(RawMoveGenerator::generate_rook_relevant_squares(), ROOK_RELEVANT_SQUARES);
    assert_eq!(RawMoveGenerator::generate_bishop_relevant_squares(), BISHOP_RELEVANT_SQUARES);
}

#[test]
fn stored_magics_fit_their_squares() {
    let rook_table = RawMoveGenerator::create_rook_lookup_table();
    for square in 0..64usize {
        let keys = keys_of_square(&rook_table, square as u8);
        assert_eq!(keys.len(), 1usize << count_squares(ROOK_RELEVANT_SQUARES[square]));
        assert!(try_magic(&keys, ROOK_MAGICS[square], ROOK_SHIFTS[square]));
    }
    let bishop_table = RawMoveGenerator::create_bishop_lookup_table();
    for square in 0..64usize {
        let keys = keys_of_square(&bishop_table, square as u8);
        assert!(try_magic(&keys, BISHOP_MAGICS[square], BISHOP_SHIFTS[square]));
    }
    // A magic of 1 with the full shift sends every pattern to slot 0: a clash.
    let keys = keys_of_square(&rook_table, 0);
    assert!(!try_magic(&keys, 1, 63));
}

#[test]
fn candidate_from_draws_keeps_only_wide_ands() {
    assert_eq!(
        candidate_from_draws(0xFF00_0000_0000_00FF, 0x0100_0000_0000_0001, u64::MAX),
        Some(0x0100_0000_0000_0001)
    );
    // No bit left in the bottom byte.
    assert_eq!(candidate_from_draws(0xFF00_0000_0000_0000, u64::MAX, u64::MAX), None);
    // No bit left in the top byte.
    assert_eq!(candidate_from_draws(0x0000_0000_0000_00FF, u64::MAX, u64::MAX), None);
}

#[test]
fn a_candidate_is_skipped_tried_or_kept() {
    let empty: Vec<(u64, u64)> = Vec::new();
    assert_eq!(try_candidate(0xFF00_0000_0000_0000, &empty, 0, 60), MagicTrial::Skipped);
    assert_eq!(try_candidate(0xFF00_0000_0000_0000, &empty, 1, 60), MagicTrial::Fits);
    let clashing: Vec<(u64, u64)> = vec![(1, 5), (1, 6)];
    assert_eq!(try_candidate(0xFF00_0000_0000_0000, &clashing, 1, 63), MagicTrial::Clash);
    let sharing: Vec<(u64, u64)> = vec![(1, 5), (1, 5)];
    assert_eq!(try_candidate(0xFF00_0000_0000_0000, &sharing, 1, 63), MagicTrial::Fits);
}

#[test]
fn entry_tables_hold_each_key_once() {
    let tables = [RawMoveGenerator::create_rook_lookup_table(), RawMoveGenerator::create_bishop_lookup_table()];
    for table in tables.iter() {
        let mut seen = std::collections::HashSet::new();
        for entry in table.iter() {
            assert!(seen.insert(entry.0), "key {:?} occurs twice", entry.0);
        }
    }
}
