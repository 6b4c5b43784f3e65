# ai_engine

A chess engine on bitboards, written in Verus: the library in `src/` is verified,
the command-line program in `app/` drives it.

## Layout

- `src/enums.rs`, `src/positions.rs`, `src/bitwise_utils.rs`, `src/board_utils.rs`,
  `src/utils.rs`, `src/constants.rs`: colors, piece types, square and bitboard
  names, shifts of bitboards, the lowest-square search, square names and piece
  symbols.
- `src/moves.rs`: the 16-bit move code (flags, source, destination) and its
  decoding; the law that decoding gives back what was encoded.
- `src/board/`: the board (eight bitboards, side, rights, en passant squares,
  clocks, saved states), making and unmaking moves with their exact effect, the
  laws that unmaking undoes a move and that a move never grants a castling right;
  `fen.rs` reads and writes FEN strings and draws the board.
- `src/zobrist.rs`: the hashing keys and the hash updates.
- `src/move_generator/`: the raw slider rays, the blocker patterns and lookup
  tables, the magic-number tables and their search, what gives check, pins a
  piece or takes a square from the king (`checks.rs`), the attack data built from
  them and the move generator, whose moves keep the king off attacked squares,
  keep pinned pieces on their lines, answer checks and are listed once each; the
  entry tables hold each (square, blockers) key once.
- `src/moves_counter.rs`: counting the positions a number of moves ahead, which
  leaves the board as it found it.
- `src/dtos.rs`, `src/global_state.rs`: plain transfer objects and a game session.
- `app/`: the interactive loop, printing, timing, serde copies of the transfer
  objects.
- `tests/`: unit tests, move generation scenarios and move counts of known
  positions.

## What is not here

The engine lives in the bitboard modules above. An older, square-based engine
(a board of pieces with its own move generator, FEN helpers and an AI that scores
positions with floating-point numbers and searches with negamax and alpha-beta)
is not part of this crate: the program it belonged to no longer builds it, and its
search rests on floating-point evaluation, which is not verified here.

