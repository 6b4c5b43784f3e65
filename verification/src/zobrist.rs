use vstd::prelude::*;

use rand::rngs::StdRng;
use rand::{Rng, SeedableRng};

use crate::bitwise_utils::pop_lsb;
use crate::board::{header_hash, pieces_hash, position_hash, Board};
use crate::enums::{opponent_of, Color, PieceType};

verus! {

pub const WHITE_BISHOP_INDEX: usize = 0;
pub const WHITE_KING_INDEX: usize = 1;
pub const WHITE_KNIGHT_INDEX: usize = 2;
pub const WHITE_PAWN_INDEX: usize = 3;
pub const WHITE_QUEEN_INDEX: usize = 4;
pub const WHITE_ROOK_INDEX: usize = 5;
pub const BLACK_BISHOP_INDEX: usize = 6;
pub const BLACK_KING_INDEX: usize = 7;
pub const BLACK_KNIGHT_INDEX: usize = 8;
pub const BLACK_PAWN_INDEX: usize = 9;
pub const BLACK_QUEEN_INDEX: usize = 10;
pub const BLACK_ROOK_INDEX: usize = 11;

pub const WHITE_KING_SIDE_CASTLE_INDEX: usize = 0;
pub const WHITE_QUEEN_SIDE_CASTLE_INDEX: usize = 1;
pub const BLACK_KING_SIDE_CASTLE_INDEX: usize = 2;
pub const BLACK_QUEEN_SIDE_CASTLE_INDEX: usize = 3;

/// Row of the key table that belongs to a colored piece; 100 for `Empty`.
pub open spec fn piece_index(color: Color, piece_type: PieceType) -> usize {
    let base: usize = if color == Color::White { 0 } else { 6 };
    match piece_type {
        PieceType::Bishop => base,
        PieceType::King => (base + 1) as usize,
        PieceType::Knight => (base + 2) as usize,
        PieceType::Pawn => (base + 3) as usize,
        PieceType::Queen => (base + 4) as usize,
        PieceType::Rook => (base + 5) as usize,
        PieceType::Empty => 100,
    }
}

pub fn get_piece_index(color: Color, piece_type: PieceType) -> (r: usize)
    ensures
        r == piece_index(color, piece_type),
        piece_type != PieceType::Empty ==> r < 12,
{
    if color.is_white() {
        match piece_type {
            PieceType::Bishop => WHITE_BISHOP_INDEX,
            PieceType::King => WHITE_KING_INDEX,
            PieceType::Knight => WHITE_KNIGHT_INDEX,
            PieceType::Pawn => WHITE_PAWN_INDEX,
            PieceType::Queen => WHITE_QUEEN_INDEX,
            PieceType::Rook => WHITE_ROOK_INDEX,
            _ => 100,
        }
    } else {
        match piece_type {
            PieceType::Bishop => BLACK_BISHOP_INDEX,
            PieceType::King => BLACK_KING_INDEX,
            PieceType::Knight => BLACK_KNIGHT_INDEX,
            PieceType::Pawn => BLACK_PAWN_INDEX,
            PieceType::Queen => BLACK_QUEEN_INDEX,
            PieceType::Rook => BLACK_ROOK_INDEX,
            _ => 100,
        }
    }
}

/// The first `n` numbers that `Rng::gen::<u64>` draws from a `StdRng` built by
/// `SeedableRng::seed_from_u64(seed)`. In the version of `rand` used here, `StdRng` is
/// a fixed algorithm (ChaCha12) and `seed_from_u64` a fixed expansion of the seed, so
/// the numbers depend on `seed` and `n` alone.
pub uninterp spec fn std_rng_draws(seed: u64, n: nat) -> Seq<u64>;

/// Seeds a `StdRng` with `StdRng::seed_from_u64(seed)` and draws `n` numbers from it
/// with `Rng::gen::<u64>`, in order. Trusted: the result is `std_rng_draws(seed, n)`
/// and holds `n` numbers; nothing is said of their values.
#[verifier::external_body]
fn seeded_draws(seed: u64, n: usize) -> (r: Vec<u64>)
    ensures
        r@ == std_rng_draws(seed, n as nat),
        r@.len() == n,
{
    let mut rng = StdRng::seed_from_u64(seed);
    let mut out: Vec<u64> = Vec::new();
    for _ in 0..n {
        out.push(rng.gen::<u64>());
    }
    out
}

/// Zobrist hashing keys and the running hash of a position.
/// `board_hashes` holds one key per (colored piece, square): row `piece_index * 64 + square`.
#[derive(Debug, Clone)]
pub struct Zobrist {
    board_hashes: Vec<u64>,
    castling_rights_hash: [u64; 4],
    en_passant_hash: [u64; 8],
    hash: u64,
    side_to_move_hash: u64,
}

impl Zobrist {
    /// The keys: piece keys, castling keys, en passant keys and the side key.
    pub closed spec fn keys(self) -> (Seq<u64>, Seq<u64>, Seq<u64>, u64) {
        (
            self.board_hashes@,
            self.castling_rights_hash@,
            self.en_passant_hash@,
            self.side_to_move_hash,
        )
    }

    pub open spec fn wf(self) -> bool {
        &&& self.keys().0.len() == 768
        &&& self.keys().1.len() == 4
        &&& self.keys().2.len() == 8
    }

    pub closed spec fn hash_value(self) -> u64 {
        self.hash
    }

    /// The key of a colored piece on a square.
    pub open spec fn piece_key(self, color: Color, piece_type: PieceType, square: int) -> u64 {
        self.keys().0[piece_index(color, piece_type) * 64 + square]
    }

    pub open spec fn castle_key(self, index: int) -> u64 {
        self.keys().1[index]
    }

    pub open spec fn ep_key(self, file: int) -> u64 {
        self.keys().2[file]
    }

    pub open spec fn side_key(self) -> u64 {
        self.keys().3
    }

    /// Both values hold the same keys; only the running hash may differ.
    pub open spec fn same_keys(self, other: Zobrist) -> bool {
        self.keys() == other.keys()
    }

    /// Draws the keys from a `StdRng` seeded with 222: the piece keys row by row,
    /// then the side key, the four castling keys and the eight en passant keys.
    /// The hash starts at 0.
    pub fn new() -> (r: Self)
        ensures
            r.wf(),
            r.hash_value() == 0,
            r.keys().0 == std_rng_draws(222, 781).subrange(0, 768),
            r.keys().3 == std_rng_draws(222, 781)[768],
            r.keys().1 == std_rng_draws(222, 781).subrange(769, 773),
            r.keys().2 == std_rng_draws(222, 781).subrange(773, 781),
    {
        let draws = seeded_draws(222, 781);
        let mut board_hashes: Vec<u64> = Vec::new();
        let mut i: usize = 0;
        while i < 768
            invariant
                i <= 768,
                draws@.len() == 781,
                board_hashes@ == draws@.subrange(0, i as int),
            decreases 768 - i,
        {
            board_hashes.push(draws[i]);
            i = i + 1;
            assert(board_hashes@ =~= draws@.subrange(0, i as int));
        }
        let side_to_move_hash = draws[768];
        let mut castling_rights_hash: [u64; 4] = [0; 4];
        let mut j: usize = 0;
        while j < 4
            invariant
                j <= 4,
                draws@.len() == 781,
                forall|t: int| 0 <= t < j ==> castling_rights_hash@[t] == draws@[769 + t],
            decreases 4 - j,
        {
            castling_rights_hash[j] = draws[769 + j];
            j = j + 1;
        }
        let mut en_passant_hash: [u64; 8] = [0; 8];
        let mut k: usize = 0;
        while k < 8
            invariant
                k <= 8,
                draws@.len() == 781,
                forall|t: int| 0 <= t < k ==> en_passant_hash@[t] == draws@[773 + t],
            decreases 8 - k,
        {
            en_passant_hash[k] = draws[773 + k];
            k = k + 1;
        }
        assert(castling_rights_hash@ =~= draws@.subrange(769, 773));
        assert(en_passant_hash@ =~= draws@.subrange(773, 781));
        Zobrist { board_hashes, castling_rights_hash, en_passant_hash, hash: 0, side_to_move_hash }
    }

    pub fn get_hash(&self) -> (r: u64)
        ensures
            r == self.hash_value(),
    {
        self.hash
    }

    pub fn set_hash(&mut self, hash: u64)
        ensures
            final(self).hash_value() == hash,
            final(self).same_keys(*old(self)),
            old(self).wf() ==> final(self).wf(),
    {
        self.hash = hash
    }

    /// XORs out the moved piece on `from_index`, the captured piece (if any) on
    /// `to_index`, XORs in the moved (or promoted) piece on `to_index`, and flips the
    /// side key when white moved.
    pub fn update_hash_on_move(
        &mut self,
        captured_piece: PieceType,
        color: Color,
        from_index: usize,
        moved_piece: PieceType,
        to_index: usize,
        promotion_piece: Option<PieceType>,
    )
        requires
            old(self).wf(),
            from_index < 64,
            to_index < 64,
            moved_piece != PieceType::Empty,
            promotion_piece matches Some(p) ==> p != PieceType::Empty,
        ensures
            final(self).wf(),
            final(self).same_keys(*old(self)),
            final(self).hash_value() == move_hash(
                *old(self),
                old(self).hash_value(),
                captured_piece,
                color,
                from_index as int,
                moved_piece,
                to_index as int,
                promotion_piece,
            ),
    {
        let moved_piece_index = get_piece_index(color, moved_piece);
        self.hash = self.hash ^ self.board_hashes[moved_piece_index * 64 + from_index];
        if captured_piece != PieceType::Empty {
            let captured_piece_index = get_piece_index(color.opponent(), captured_piece);
            self.hash = self.hash ^ self.board_hashes[captured_piece_index * 64 + to_index];
        }
        match promotion_piece {
            Some(p) => {
                let idx = get_piece_index(color, p);
                self.hash = self.hash ^ self.board_hashes[idx * 64 + to_index];
            },
            None => {
                self.hash = self.hash ^ self.board_hashes[moved_piece_index * 64 + to_index];
            },
        }
        if color.opponent().is_black() {
            self.hash = self.hash ^ self.side_to_move_hash;
        }
    }

    /// XORs the key of the file of the lowest square of `en_passant_square_bb`
    /// (the h-file key for an empty bitboard).
    pub fn update_en_passant_hash(&mut self, en_passant_square_bb: u64)
        ensures
            final(self).same_keys(*old(self)),
            old(self).wf() ==> final(self).wf(),
            final(self).hash_value() == old(self).hash_value() ^ old(self).ep_key(
                ep_file(en_passant_square_bb),
            ),
    {
        let mut bb = en_passant_square_bb;
        let square = pop_lsb(&mut bb) as usize;
        let file = square % 8;
        proof {
            if en_passant_square_bb != 0 {
                crate::bitwise_utils::lemma_lsb_unique(en_passant_square_bb, square as u64);
            }
        }
        self.hash = self.hash ^ self.en_passant_hash[file];
    }

    pub fn update_hash_on_black_lose_king_side_castle(&mut self)
        ensures
            final(self).same_keys(*old(self)),
            old(self).wf() ==> final(self).wf(),
            final(self).hash_value() == old(self).hash_value() ^ old(self).castle_key(
                BLACK_KING_SIDE_CASTLE_INDEX as int,
            ),
    {
        self.hash = self.hash ^ self.castling_rights_hash[BLACK_KING_SIDE_CASTLE_INDEX];
    }

    pub fn update_hash_on_black_lose_queen_side_castle(&mut self)
        ensures
            final(self).same_keys(*old(self)),
            old(self).wf() ==> final(self).wf(),
            final(self).hash_value() == old(self).hash_value() ^ old(self).castle_key(
                BLACK_QUEEN_SIDE_CASTLE_INDEX as int,
            ),
    {
        self.hash = self.hash ^ self.castling_rights_hash[BLACK_QUEEN_SIDE_CASTLE_INDEX];
    }

    pub fn update_hash_on_white_lose_king_side_castle(&mut self)
        ensures
            final(self).same_keys(*old(self)),
            old(self).wf() ==> final(self).wf(),
            final(self).hash_value() == old(self).hash_value() ^ old(self).castle_key(
                WHITE_KING_SIDE_CASTLE_INDEX as int,
            ),
    {
        self.hash = self.hash ^ self.castling_rights_hash[WHITE_KING_SIDE_CASTLE_INDEX];
    }

    pub fn update_hash_on_white_lose_queen_side_castle(&mut self)
        ensures
            final(self).same_keys(*old(self)),
            old(self).wf() ==> final(self).wf(),
            final(self).hash_value() == old(self).hash_value() ^ old(self).castle_key(
                WHITE_QUEEN_SIDE_CASTLE_INDEX as int,
            ),
    {
        self.hash = self.hash ^ self.castling_rights_hash[WHITE_QUEEN_SIDE_CASTLE_INDEX];
    }
}

/// The file whose en passant key stands for an en passant bitboard: the file of its
/// lowest square, or the h-file when it is empty.
pub open spec fn ep_file(bb: u64) -> int {
    if bb == 0 {
        7
    } else {
        (choose|k: u64| crate::bitwise_utils::is_lsb(bb, k)) as int % 8
    }
}

/// The hash after a move, per `update_hash_on_move`.
pub open spec fn move_hash(
    z: Zobrist,
    start: u64,
    captured_piece: PieceType,
    color: Color,
    from: int,
    moved_piece: PieceType,
    to: int,
    promotion_piece: Option<PieceType>,
) -> u64 {
    let h1 = start ^ z.piece_key(color, moved_piece, from);
    let h2 = if captured_piece != PieceType::Empty {
        h1 ^ z.piece_key(opponent_of(color), captured_piece, to)
    } else {
        h1
    };
    let h3 = match promotion_piece {
        Some(p) => h2 ^ z.piece_key(color, p, to),
        None => h2 ^ z.piece_key(color, moved_piece, to),
    };
    if color == Color::White {
        h3 ^ z.side_key()
    } else {
        h3
    }
}

impl Zobrist {
    /// The hash of `board` computed from scratch with these keys.
    pub fn hash_for(&self, board: &Board) -> (r: u64)
        requires
            self.wf(),
        ensures
            r == position_hash(*self, *board),
    {
        let mut hash: u64 = if board.get_side_to_move().is_black() {
            self.side_to_move_hash
        } else {
            0
        };
        if board.has_king_side_castle_right(Color::Black) {
            hash = hash ^ self.castling_rights_hash[BLACK_KING_SIDE_CASTLE_INDEX];
        }
        if board.has_queen_side_castle_right(Color::Black) {
            hash = hash ^ self.castling_rights_hash[BLACK_QUEEN_SIDE_CASTLE_INDEX];
        }
        if board.has_king_side_castle_right(Color::White) {
            hash = hash ^ self.castling_rights_hash[WHITE_KING_SIDE_CASTLE_INDEX];
        }
        if board.has_queen_side_castle_right(Color::White) {
            hash = hash ^ self.castling_rights_hash[WHITE_QUEEN_SIDE_CASTLE_INDEX];
        }
        let en_passant_square_bb = board.get_en_passant_piece_square_bb();
        if en_passant_square_bb != 0 {
            let mut bb = en_passant_square_bb;
            let square = pop_lsb(&mut bb) as usize;
            proof {
                crate::bitwise_utils::lemma_lsb_unique(en_passant_square_bb, square as u64);
            }
            let file = square % 8;
            hash = hash ^ self.en_passant_hash[file];
        }
        assert(hash == header_hash(*self, *board));
        let mut acc: u64 = 0;
        let mut square: usize = 0;
        while square < 64
            invariant
                square <= 64,
                self.wf(),
                acc == pieces_hash(*self, board.bbs(), square as nat),
            decreases 64 - square,
        {
            let piece_type = board.get_piece_type(square);
            let piece_color = board.get_piece_color(square);
            if piece_type != PieceType::Empty {
                let idx = get_piece_index(piece_color, piece_type);
                acc = acc ^ self.board_hashes[idx * 64 + square];
            }
            square = square + 1;
        }
        assert(hash == header_hash(*self, *board));
        hash ^ acc
    }

    /// Computes the hash of `board` from scratch, stores it and returns it.
    pub fn compute_hash(&mut self, board: &Board) -> (r: u64)
        requires
            old(self).wf(),
        ensures
            r == position_hash(*old(self), *board),
            final(self).hash_value() == r,
            final(self).same_keys(*old(self)),
            final(self).wf(),
    {
        let h = self.hash_for(board);
        self.set_hash(h);
        h
    }
}

/// Keys decide the hash: equal keys give equal piece hashes.
pub proof fn lemma_pieces_hash_same_keys(z1: Zobrist, z2: Zobrist, bbs: Seq<u64>, n: nat)
    requires
        z1.same_keys(z2),
    ensures
        pieces_hash(z1, bbs, n) == pieces_hash(z2, bbs, n),
    decreases n,
{
    if n > 0 {
        lemma_pieces_hash_same_keys(z1, z2, bbs, (n - 1) as nat);
    }
}

/// Equal keys and equal positions give equal hashes.
pub proof fn lemma_position_hash_same_keys(z1: Zobrist, z2: Zobrist, b1: Board, b2: Board)
    requires
        z1.same_keys(z2),
        b1.bbs() == b2.bbs(),
        b1.side() == b2.side(),
        b1.bkm() == b2.bkm(),
        b1.wkm() == b2.wkm(),
        b1.rights() == b2.rights(),
        b1.eps() == b2.eps(),
    ensures
        position_hash(z1, b1) == position_hash(z2, b2),
{
    lemma_pieces_hash_same_keys(z1, z2, b1.bbs(), 64);
}

} // verus!
