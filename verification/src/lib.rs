//! A chess engine library: bitboard board representation, move encoding,
//! magic-bitboard move generation, FEN reading and writing and Zobrist hashing.
#![allow(non_camel_case_types)]
#![allow(non_upper_case_globals)]
#![allow(dead_code)]

pub mod enums;
pub mod text;
pub mod positions;
pub mod bitwise_utils;
pub mod moves;
pub mod board_utils;
pub mod utils;
pub mod zobrist;
pub mod board;
pub mod bit_lemmas;
pub mod move_generator;
pub mod constants;
pub mod dtos;
pub mod global_state;
pub mod moves_counter;
