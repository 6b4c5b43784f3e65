use vstd::prelude::*;

use crate::board::{color_at, or_piece, position_hash, type_at, Board};
use crate::constants::INITIAL_FEN;
use crate::bitwise_utils::{is_lsb, north_one, pop_lsb, south_one};
use crate::enums::{Color, PieceType};
use crate::positions::{array_contains, BBPositions};
use crate::utils::{
    algebraic_readable, algebraic_square, algebraic_to_square, color_and_type_of_symbol,
    get_piece_color_and_type_from_symbol, algebraic_name, piece_letter, piece_symbol, square_to_algebraic,
};

verus! {

// ---------------------------------------------------------------------------
// Reading a FEN string
// ---------------------------------------------------------------------------

/// Splits `s` at spaces, dropping empty pieces: `cur` is the piece being read and
/// `acc` the pieces done.
pub open spec fn split_acc(s: Seq<char>, cur: Seq<char>, acc: Seq<Seq<char>>) -> Seq<Seq<char>>
    decreases s.len(),
{
    if s.len() == 0 {
        if cur.len() > 0 {
            acc.push(cur)
        } else {
            acc
        }
    } else if s[0] == ' ' {
        split_acc(s.drop_first(), Seq::<char>::empty(), if cur.len() > 0 { acc.push(cur) } else { acc })
    } else {
        split_acc(s.drop_first(), cur.push(s[0]), acc)
    }
}

/// The space-separated fields of a FEN string.
pub open spec fn fen_tokens(s: Seq<char>) -> Seq<Seq<char>> {
    split_acc(s, Seq::<char>::empty(), Seq::<Seq<char>>::empty())
}

/// The number of '/' in `p`.
pub open spec fn slashes(p: Seq<char>) -> nat
    decreases p.len(),
{
    if p.len() == 0 {
        0
    } else {
        slashes(p.drop_last()) + if p.last() == '/' {
            1nat
        } else {
            0nat
        }
    }
}

/// Reads the piece placement `p` from rank `rank` and file `col` on, adding the
/// pieces to `bbs`: '/' goes one rank down to the first file, a digit skips that
/// many files (counting stops at 64, past the board), a piece letter puts that piece
/// on `8 * rank + col`. `None` when a letter is no piece or its square is off the
/// board.
pub open spec fn placement(p: Seq<char>, rank: int, col: int, bbs: Seq<u64>) -> Option<Seq<u64>>
    decreases p.len(),
{
    if p.len() == 0 {
        Some(bbs)
    } else {
        let c = p[0];
        if c == '/' {
            placement(p.drop_first(), rank - 1, 0, bbs)
        } else if '0' <= c <= '9' {
            let next = col + (c as int - '0' as int);
            placement(p.drop_first(), rank, if next > 64 { 64 } else { next }, bbs)
        } else {
            let (color, piece_type) = color_and_type_of_symbol(c);
            let square = 8 * rank + col;
            if piece_type == PieceType::Empty || square < 0 || square >= 64 {
                None
            } else {
                placement(p.drop_first(), rank, col + 1, or_piece(bbs, color, piece_type, 1u64 << (square as u64)))
            }
        }
    }
}

/// The bitboards a placement field gives: its first row is the rank numbered by
/// the count of '/', its last row rank 1.
pub open spec fn placement_of(p: Seq<char>) -> Option<Seq<u64>> {
    placement(p, slashes(p) as int, 0, seq![0u64, 0, 0, 0, 0, 0, 0, 0])
}

/// The rights a castling field grants: 'K', 'Q', 'k', 'q' add bits 3, 2, 1, 0.
pub open spec fn castling_value(t: Seq<char>) -> u8
    decreases t.len(),
{
    if t.len() == 0 {
        0
    } else {
        let rest = castling_value(t.drop_last());
        let c = t.last();
        if c == 'K' {
            rest | 0x8
        } else if c == 'Q' {
            rest | 0x4
        } else if c == 'k' {
            rest | 0x2
        } else if c == 'q' {
            rest | 0x1
        } else {
            rest
        }
    }
}

/// A castling field holds only 'K', 'Q', 'k', 'q' and '-'.
pub open spec fn castling_ok(t: Seq<char>) -> bool {
    forall|i: int| 0 <= i < t.len() ==> #[trigger] t[i] == 'K' || t[i] == 'Q' || t[i] == 'k' || t[i] == 'q' || t[i] == '-'
}

/// An en passant field is "-" or names a square of the board.
pub open spec fn en_passant_ok(t: Seq<char>) -> bool {
    t == seq!['-'] || (algebraic_readable(t) && 0 <= algebraic_square(t) < 64)
}

/// The en passant target and the square of the pawn that can be taken: the square
/// ahead of the target on rank 3 or behind it on rank 6, and none elsewhere.
pub open spec fn en_passant_of(t: Seq<char>) -> (u64, u64) {
    if t == seq!['-'] {
        (0, 0)
    } else {
        let pos = 1u64 << (algebraic_square(t) as u64);
        if BBPositions::ROW_3@.contains(pos) {
            (pos, pos << 8u64)
        } else if BBPositions::ROW_6@.contains(pos) {
            (pos, pos >> 8u64)
        } else {
            (pos, 0)
        }
    }
}

/// The boards of the third and sixth ranks are the squares 16 to 23 and 40 to 47.
proof fn lemma_middle_rows(k: u64)
    requires
        k < 64,
    ensures
        BBPositions::ROW_3@.contains(1u64 << k) <==> 16 <= k < 24,
        BBPositions::ROW_6@.contains(1u64 << k) <==> 40 <= k < 48,
{
    if BBPositions::ROW_3@.contains(1u64 << k) {
        let i = choose|i: int| 0 <= i < 8 && BBPositions::ROW_3@[i] == 1u64 << k;
        crate::bit_lemmas::lemma_shift_injective((16 + i) as u64, k);
    }
    if 16 <= k < 24 {
        assert(BBPositions::ROW_3@[k - 16] == 1u64 << k);
    }
    if BBPositions::ROW_6@.contains(1u64 << k) {
        let i = choose|i: int| 0 <= i < 8 && BBPositions::ROW_6@[i] == 1u64 << k;
        crate::bit_lemmas::lemma_shift_injective((40 + i) as u64, k);
    }
    if 40 <= k < 48 {
        assert(BBPositions::ROW_6@[k - 40] == 1u64 << k);
    }
}

/// The en passant squares read from a field naming square `k`: the target is `k`; on
/// the third rank the pawn that can be taken stands on `k + 8`, north of the target,
/// where a white pawn lands on its double push; on the sixth rank it stands on `k - 8`,
/// south of the target, where a black pawn lands; on any other rank there is none.
pub proof fn lemma_en_passant_squares(t: Seq<char>)
    requires
        en_passant_ok(t),
        t != seq!['-'],
    ensures
        ({
            let k = algebraic_square(t);
            &&& en_passant_of(t).0 == 1u64 << (k as u64)
            &&& 16 <= k < 24 ==> en_passant_of(t).1 == 1u64 << ((k + 8) as u64)
            &&& 40 <= k < 48 ==> en_passant_of(t).1 == 1u64 << ((k - 8) as u64)
            &&& !(16 <= k < 24) && !(40 <= k < 48) ==> en_passant_of(t).1 == 0
        }),
{
    let k = algebraic_square(t) as u64;
    lemma_middle_rows(k);
    crate::bit_lemmas::lemma_bit_facts();
    assert((1u64 << k) << 8u64 == 1u64 << ((k + 8) as u64) || !(k < 56));
    assert((1u64 << k) >> 8u64 == 1u64 << ((k - 8) as u64) || !(8 <= k < 64));
}

/// The number the decimal digits of `d` spell.
pub open spec fn digits_value(d: Seq<char>) -> nat
    decreases d.len(),
{
    if d.len() == 0 {
        0
    } else {
        digits_value(d.drop_last()) * 10 + (d.last() as nat - '0' as nat) as nat
    }
}

pub open spec fn all_digits(d: Seq<char>) -> bool {
    forall|i: int| 0 <= i < d.len() ==> '0' <= #[trigger] d[i] <= '9'
}

/// The digits of a clock field, after an optional '+'.
pub open spec fn clock_digits(t: Seq<char>) -> Seq<char> {
    if t.len() > 0 && t[0] == '+' {
        t.drop_first()
    } else {
        t
    }
}

/// A clock field reads as a `u32`: an optional '+', then at least one digit, and a
/// value that fits.
pub open spec fn clock_ok(t: Seq<char>) -> bool {
    let d = clock_digits(t);
    &&& d.len() > 0
    &&& all_digits(d)
    &&& digits_value(d) <= u32::MAX
}

/// The FEN strings that can be read: at least four fields, a readable placement,
/// "w" or "b", a castling field, an en passant field, and readable clocks where
/// they are given.
pub open spec fn fen_valid(s: Seq<char>) -> bool {
    let t = fen_tokens(s);
    &&& t.len() >= 4
    &&& placement_of(t[0]) is Some
    &&& (t[1] == seq!['w'] || t[1] == seq!['b'])
    &&& castling_ok(t[2])
    &&& en_passant_ok(t[3])
    &&& (t.len() > 4 ==> clock_ok(t[4]))
    &&& (t.len() > 5 ==> clock_ok(t[5]))
}

/// The position `b` read from the FEN string `s`: pieces, side, castling rights,
/// en passant squares and clocks as the fields give them (the half-move clock 0 and
/// the full-move clock 1 when not given), no winner, no king moved, no history, and
/// the hash of the position.
pub open spec fn fen_board(s: Seq<char>, b: Board) -> bool {
    let t = fen_tokens(s);
    &&& b.wf()
    &&& b.bbs() == placement_of(t[0])->0
    &&& b.side() == (if t[1] == seq!['w'] { Color::White } else { Color::Black })
    &&& b.rights() == castling_value(t[2])
    &&& b.ep() == en_passant_of(t[3]).0
    &&& b.eps() == en_passant_of(t[3]).1
    &&& b.half() == (if t.len() > 4 { digits_value(clock_digits(t[4])) } else { 0 })
    &&& b.full() == (if t.len() > 5 { digits_value(clock_digits(t[5])) } else { 1 })
    &&& b.winner_of() == None::<Color>
    &&& !b.bkm() && !b.wkm()
    &&& b.saved().len() == 0
    &&& b.played().len() == 0
    &&& b.hash() == position_hash(b.zob(), b)
}

/// Whether reading the placement `p` from rank `rank` and file `col` on succeeds:
/// `placement` with the bitboards left out.
pub open spec fn placement_fits(p: Seq<char>, rank: int, col: int) -> bool
    decreases p.len(),
{
    if p.len() == 0 {
        true
    } else {
        let c = p[0];
        if c == '/' {
            placement_fits(p.drop_first(), rank - 1, 0)
        } else if '0' <= c <= '9' {
            let next = col + (c as int - '0' as int);
            placement_fits(p.drop_first(), rank, if next > 64 { 64 } else { next })
        } else {
            let square = 8 * rank + col;
            if color_and_type_of_symbol(c).1 == PieceType::Empty || square < 0 || square >= 64 {
                false
            } else {
                placement_fits(p.drop_first(), rank, col + 1)
            }
        }
    }
}

/// Reading a placement succeeds whatever the bitboards it starts from.
pub proof fn lemma_placement_fits(p: Seq<char>, rank: int, col: int, bbs: Seq<u64>)
    ensures
        (placement(p, rank, col, bbs) is Some) == placement_fits(p, rank, col),
    decreases p.len(),
{
    if p.len() > 0 {
        let c = p[0];
        if c == '/' {
            lemma_placement_fits(p.drop_first(), rank - 1, 0, bbs);
        } else if '0' <= c <= '9' {
            let next = col + (c as int - '0' as int);
            lemma_placement_fits(p.drop_first(), rank, if next > 64 { 64 } else { next }, bbs);
        } else {
            let (color, piece_type) = color_and_type_of_symbol(c);
            let square = 8 * rank + col;
            if !(piece_type == PieceType::Empty || square < 0 || square >= 64) {
                lemma_placement_fits(p.drop_first(), rank, col + 1, or_piece(bbs, color, piece_type, 1u64 << (square as u64)));
            }
        }
    }
}

/// A run of piece letters that stays on its rank moves the file on by its length.
pub proof fn lemma_fits_pieces(w: Seq<char>, rest: Seq<char>, rank: int, col: int)
    requires
        forall|i: int|
            0 <= i < w.len() ==> color_and_type_of_symbol(#[trigger] w[i]).1 != PieceType::Empty && w[i] != '/' && !('0' <= w[i]
                <= '9'),
        0 <= rank < 8,
        0 <= col,
        col + w.len() <= 8,
    ensures
        placement_fits(w + rest, rank, col) == placement_fits(rest, rank, col + w.len()),
    decreases w.len(),
{
    if w.len() == 0 {
        assert(w + rest =~= rest);
    } else {
        assert(w[0] == (w + rest)[0]);
        assert((w + rest).drop_first() =~= w.drop_first() + rest);
        lemma_fits_pieces(w.drop_first(), rest, rank, col + 1);
    }
}

/// A '/' goes to the first file of the rank below.
pub proof fn lemma_fits_slash(rest: Seq<char>, rank: int, col: int)
    ensures
        placement_fits(seq!['/'] + rest, rank, col) == placement_fits(rest, rank - 1, 0),
{
    assert((seq!['/'] + rest)[0] == '/');
    assert((seq!['/'] + rest).drop_first() =~= rest);
}

/// An '8' at the first file skips the whole rank.
pub proof fn lemma_fits_eight(rest: Seq<char>, rank: int)
    ensures
        placement_fits(seq!['8'] + rest, rank, 0) == placement_fits(rest, rank, 8),
{
    assert((seq!['8'] + rest)[0] == '8');
    assert((seq!['8'] + rest).drop_first() =~= rest);
}

/// The '/' of two pieces of text add up.
pub proof fn lemma_slashes_concat(a: Seq<char>, b: Seq<char>)
    ensures
        slashes(a + b) == slashes(a) + slashes(b),
    decreases b.len(),
{
    if b.len() == 0 {
        assert(a + b =~= a);
    } else {
        assert((a + b).drop_last() =~= a + b.drop_last());
        assert((a + b).last() == b.last());
        lemma_slashes_concat(a, b.drop_last());
    }
}

/// Text without '/' has none.
pub proof fn lemma_slashes_none(w: Seq<char>)
    requires
        forall|i: int| 0 <= i < w.len() ==> #[trigger] w[i] != '/',
    ensures
        slashes(w) == 0,
    decreases w.len(),
{
    if w.len() > 0 {
        lemma_slashes_none(w.drop_last());
    }
}

/// Splitting reads a word without spaces into the piece being read.
pub proof fn lemma_split_word(w: Seq<char>, rest: Seq<char>, cur: Seq<char>, acc: Seq<Seq<char>>)
    requires
        forall|i: int| 0 <= i < w.len() ==> #[trigger] w[i] != ' ',
    ensures
        split_acc(w + rest, cur, acc) == split_acc(rest, cur + w, acc),
    decreases w.len(),
{
    if w.len() == 0 {
        assert(w + rest =~= rest);
        assert(cur + w =~= cur);
    } else {
        assert((w + rest)[0] == w[0]);
        assert((w + rest).drop_first() =~= w.drop_first() + rest);
        assert(cur.push(w[0]) + w.drop_first() =~= cur + w);
        lemma_split_word(w.drop_first(), rest, cur.push(w[0]), acc);
    }
}

/// A space ends the piece being read.
pub proof fn lemma_split_space(rest: Seq<char>, cur: Seq<char>, acc: Seq<Seq<char>>)
    requires
        cur.len() > 0,
    ensures
        split_acc(seq![' '] + rest, cur, acc) == split_acc(rest, Seq::<char>::empty(), acc.push(cur)),
{
    assert((seq![' '] + rest)[0] == ' ');
    assert((seq![' '] + rest).drop_first() =~= rest);
}

/// The FEN string of the starting position can be read.
pub proof fn lemma_initial_fen_valid()
    ensures
        fen_valid(INITIAL_FEN@),
{
    reveal_strlit("rnbqkbnr/pppppppp/8/8/8/8/PPPPPPPP/RNBQKBNR w KQkq - 0 1");
    let empty = Seq::<char>::empty();
    let sl = seq!['/'];
    let sp = seq![' '];
    let e = seq!['8'];
    let r8 = seq!['r', 'n', 'b', 'q', 'k', 'b', 'n', 'r'];
    let r7 = seq!['p', 'p', 'p', 'p', 'p', 'p', 'p', 'p'];
    let r2 = seq!['P', 'P', 'P', 'P', 'P', 'P', 'P', 'P'];
    let r1 = seq!['R', 'N', 'B', 'Q', 'K', 'B', 'N', 'R'];
    let p13 = sl + r1;
    let p12 = r2 + p13;
    let p11 = sl + p12;
    let p10 = e + p11;
    let p9 = sl + p10;
    let p8 = e + p9;
    let p7 = sl + p8;
    let p6 = e + p7;
    let p5 = sl + p6;
    let p4 = e + p5;
    let p3 = sl + p4;
    let p2 = r7 + p3;
    let p1 = sl + p2;
    let f0 = r8 + p1;
    let f1 = seq!['w'];
    let f2 = seq!['K', 'Q', 'k', 'q'];
    let f3 = seq!['-'];
    let f4 = seq!['0'];
    let f5 = seq!['1'];
    let t5 = f5;
    let t4 = f4 + (sp + t5);
    let t3 = f3 + (sp + t4);
    let t2 = f2 + (sp + t3);
    let t1 = f1 + (sp + t2);
    assert(INITIAL_FEN@ =~= f0 + (sp + t1));
    // The six fields.
    let a0 = Seq::<Seq<char>>::empty();
    assert(empty + f0 =~= f0);
    assert(empty + f1 =~= f1);
    assert(empty + f2 =~= f2);
    assert(empty + f3 =~= f3);
    assert(empty + f4 =~= f4);
    assert(empty + f5 =~= f5);
    assert(f5 + empty =~= f5);
    lemma_split_word(f0, sp + t1, empty, a0);
    lemma_split_space(t1, f0, a0);
    let a1 = a0.push(f0);
    lemma_split_word(f1, sp + t2, empty, a1);
    lemma_split_space(t2, f1, a1);
    let a2 = a1.push(f1);
    lemma_split_word(f2, sp + t3, empty, a2);
    lemma_split_space(t3, f2, a2);
    let a3 = a2.push(f2);
    lemma_split_word(f3, sp + t4, empty, a3);
    lemma_split_space(t4, f3, a3);
    let a4 = a3.push(f3);
    lemma_split_word(f4, sp + t5, empty, a4);
    lemma_split_space(t5, f4, a4);
    let a5 = a4.push(f4);
    lemma_split_word(f5, empty, empty, a5);
    let t = fen_tokens(INITIAL_FEN@);
    assert(t == a5.push(f5));
    assert(t.len() == 6);
    assert(t[0] == f0 && t[1] == f1 && t[2] == f2 && t[3] == f3 && t[4] == f4 && t[5] == f5);
    // The placement names seven rank changes.
    assert(slashes(sl) == 1) by {
        assert(sl.drop_last() =~= empty);
        assert(slashes(empty) == 0);
        assert(sl.last() == '/');
    }
    lemma_slashes_none(e);
    lemma_slashes_none(r8);
    lemma_slashes_none(r7);
    lemma_slashes_none(r2);
    lemma_slashes_none(r1);
    lemma_slashes_concat(sl, r1);
    lemma_slashes_concat(r2, p13);
    lemma_slashes_concat(sl, p12);
    lemma_slashes_concat(e, p11);
    lemma_slashes_concat(sl, p10);
    lemma_slashes_concat(e, p9);
    lemma_slashes_concat(sl, p8);
    lemma_slashes_concat(e, p7);
    lemma_slashes_concat(sl, p6);
    lemma_slashes_concat(e, p5);
    lemma_slashes_concat(sl, p4);
    lemma_slashes_concat(r7, p3);
    lemma_slashes_concat(sl, p2);
    lemma_slashes_concat(r8, p1);
    assert(slashes(f0) == 7);
    // Each rank is read whole.
    lemma_fits_pieces(r8, p1, 7, 0);
    lemma_fits_slash(p2, 7, 8);
    lemma_fits_pieces(r7, p3, 6, 0);
    lemma_fits_slash(p4, 6, 8);
    lemma_fits_eight(p5, 5);
    lemma_fits_slash(p6, 5, 8);
    lemma_fits_eight(p7, 4);
    lemma_fits_slash(p8, 4, 8);
    lemma_fits_eight(p9, 3);
    lemma_fits_slash(p10, 3, 8);
    lemma_fits_eight(p11, 2);
    lemma_fits_slash(p12, 2, 8);
    lemma_fits_pieces(r2, p13, 1, 0);
    lemma_fits_slash(r1, 1, 8);
    assert(r1 + empty =~= r1);
    lemma_fits_pieces(r1, empty, 0, 0);
    assert(placement_fits(f0, 7, 0));
    lemma_placement_fits(f0, 7, 0, seq![0u64, 0, 0, 0, 0, 0, 0, 0]);
    // The clocks.
    assert(digits_value(empty) == 0);
    assert(f4.drop_last() =~= empty);
    assert(f5.drop_last() =~= empty);
    assert(digits_value(f4) == 0);
    assert(digits_value(f5) == 1);
    assert(clock_ok(f4));
    assert(clock_ok(f5));
}

/// The characters of `s`.
fn chars_of(s: &str) -> (r: Vec<char>)
    ensures
        r@ == s@,
{
    let n = s.unicode_len();
    let mut out: Vec<char> = Vec::new();
    let mut i: usize = 0;
    while i < n
        invariant
            n == s@.len(),
            i <= n,
            out@ == s@.subrange(0, i as int),
        decreases n - i,
    {
        out.push(s.get_char(i));
        i = i + 1;
        assert(out@ =~= s@.subrange(0, i as int));
    }
    assert(out@ =~= s@);
    out
}

/// The space-separated fields of `s`.
pub fn split_fields(s: &Vec<char>) -> (r: Vec<Vec<char>>)
    ensures
        r@.len() == fen_tokens(s@).len(),
        forall|i: int| 0 <= i < r@.len() ==> (#[trigger] r@[i])@ == fen_tokens(s@)[i],
{
    let mut out: Vec<Vec<char>> = Vec::new();
    let mut cur: Vec<char> = Vec::new();
    let mut i: usize = 0;
    let ghost mut acc: Seq<Seq<char>> = Seq::empty();
    proof {
        assert(s@.subrange(0, s@.len() as int) =~= s@);
        assert(cur@ =~= Seq::<char>::empty());
    }
    while i < s.len()
        invariant
            i <= s@.len(),
            acc.len() == out@.len(),
            forall|j: int| 0 <= j < out@.len() ==> (#[trigger] out@[j])@ == acc[j],
            split_acc(s@.subrange(i as int, s@.len() as int), cur@, acc) == fen_tokens(s@),
        decreases s@.len() - i,
    {
        let c = s[i];
        assert(s@.subrange(i as int, s@.len() as int).drop_first() =~= s@.subrange(i + 1, s@.len() as int));
        if c == ' ' {
            if cur.len() > 0 {
                proof {
                    acc = acc.push(cur@);
                }
                out.push(cur);
                cur = Vec::new();
            }
            proof {
                assert(cur@ =~= Seq::<char>::empty());
            }
        } else {
            cur.push(c);
        }
        i = i + 1;
    }
    proof {
        assert(s@.subrange(i as int, s@.len() as int) =~= Seq::<char>::empty());
    }
    if cur.len() > 0 {
        proof {
            acc = acc.push(cur@);
        }
        out.push(cur);
    }
    out
}

/// Counts the '/' in `p`.
fn count_slashes(p: &Vec<char>) -> (r: u64)
    ensures
        r == slashes(p@),
{
    let mut n: u64 = 0;
    let mut i: usize = 0;
    while i < p.len()
        invariant
            i <= p@.len(),
            n == slashes(p@.subrange(0, i as int)),
            n <= i,
        decreases p@.len() - i,
    {
        assert(p@.subrange(0, i + 1).drop_last() =~= p@.subrange(0, i as int));
        if p[i] == '/' {
            n = n + 1;
        }
        i = i + 1;
    }
    assert(p@.subrange(0, p@.len() as int) =~= p@);
    n
}

/// Reads a placement field into bitboards, or `None` when it cannot be read.
pub fn read_placement(p: &Vec<char>) -> (r: Option<[u64; 8]>)
    ensures
        r is Some <==> placement_of(p@) is Some,
        r matches Some(b) ==> b@ == placement_of(p@)->0,
{
    let mut bbs: [u64; 8] = [0; 8];
    let mut rank: u64 = count_slashes(p);
    let mut col: u64 = 0;
    let mut i: usize = 0;
    proof {
        assert(bbs@ =~= seq![0u64, 0, 0, 0, 0, 0, 0, 0]);
        assert(p@.subrange(0, p@.len() as int) =~= p@);
        lemma_slashes_suffix(p@, 0);
    }
    while i < p.len()
        invariant
            i <= p@.len(),
            col <= 64,
            rank == slashes(p@.subrange(i as int, p@.len() as int)),
            rank <= p@.len(),
            placement(p@.subrange(i as int, p@.len() as int), rank as int, col as int, bbs@)
                == placement_of(p@),
        decreases p@.len() - i,
    {
        let c = p[i];
        let ghost rest = p@.subrange(i + 1, p@.len() as int);
        proof {
            assert(p@.subrange(i as int, p@.len() as int).drop_first() =~= rest);
            lemma_slashes_first(p@.subrange(i as int, p@.len() as int));
        }
        if c == '/' {
            rank = rank - 1;
            col = 0;
        } else if '0' <= c && c <= '9' {
            let d = (c as u32 - '0' as u32) as u64;
            col = if col + d > 64 { 64 } else { col + d };
        } else {
            let (color, piece_type) = get_piece_color_and_type_from_symbol(c);
            if piece_type == PieceType::Empty {
                return None;
            }
            if rank >= 8 || 8 * rank + col >= 64 {
                return None;
            }
            let square = 8 * rank + col;
            let bb = 1u64 << square;
            let ci = crate::board_utils::get_color_index(color);
            let ti = crate::board_utils::get_piece_type_index(piece_type);
            bbs[ci] = bbs[ci] | bb;
            bbs[ti] = bbs[ti] | bb;
            col = col + 1;
            proof {
                assert(col <= 64);
            }
        }
        i = i + 1;
    }
    proof {
        assert(p@.subrange(i as int, p@.len() as int) =~= Seq::<char>::empty());
    }
    Some(bbs)
}

/// The '/' count of a suffix that starts with `c` is the count of the rest plus one
/// for a '/'.
proof fn lemma_slashes_first(p: Seq<char>)
    requires
        p.len() > 0,
    ensures
        slashes(p) == slashes(p.drop_first()) + if p[0] == '/' { 1nat } else { 0nat },
    decreases p.len(),
{
    if p.len() > 1 {
        lemma_slashes_first(p.drop_last());
        assert(p.drop_last().drop_first() =~= p.drop_first().drop_last());
    } else {
        assert(p.drop_first() =~= Seq::<char>::empty());
        assert(p.drop_last() =~= Seq::<char>::empty());
    }
}

/// Every suffix holds at most as many '/' as it has characters.
proof fn lemma_slashes_suffix(p: Seq<char>, i: int)
    requires
        0 <= i <= p.len(),
    ensures
        slashes(p.subrange(i, p.len() as int)) <= p.len() - i,
    decreases p.len() - i,
{
    if i < p.len() {
        lemma_slashes_suffix(p, i + 1);
        lemma_slashes_first(p.subrange(i, p.len() as int));
        assert(p.subrange(i, p.len() as int).drop_first() =~= p.subrange(i + 1, p.len() as int));
    } else {
        assert(p.subrange(i, p.len() as int) =~= Seq::<char>::empty());
    }
}

/// Reads a castling field, or `None` when it holds another character.
pub fn read_castling(t: &Vec<char>) -> (r: Option<u8>)
    ensures
        r is Some <==> castling_ok(t@),
        r matches Some(v) ==> v == castling_value(t@),
{
    let mut rights: u8 = 0;
    let mut i: usize = 0;
    while i < t.len()
        invariant
            i <= t@.len(),
            rights == castling_value(t@.subrange(0, i as int)),
            castling_ok(t@.subrange(0, i as int)),
        decreases t@.len() - i,
    {
        let c = t[i];
        proof {
            assert(t@.subrange(0, i + 1).drop_last() =~= t@.subrange(0, i as int));
            assert(t@.subrange(0, i + 1).last() == c);
        }
        if c == 'K' {
            rights = rights | 0x8;
        } else if c == 'Q' {
            rights = rights | 0x4;
        } else if c == 'k' {
            rights = rights | 0x2;
        } else if c == 'q' {
            rights = rights | 0x1;
        } else if c != '-' {
            proof {
                assert(!castling_ok(t@)) by {
                    assert(t@[i as int] == c);
                }
            }
            return None;
        }
        i = i + 1;
        proof {
            assert forall|j: int| 0 <= j < i implies #[trigger] t@.subrange(0, i as int)[j] == 'K' || t@.subrange(0, i as int)[j] == 'Q'
                || t@.subrange(0, i as int)[j] == 'k' || t@.subrange(0, i as int)[j] == 'q' || t@.subrange(0, i as int)[j] == '-' by {
                if j < i - 1 {
                    assert(t@.subrange(0, i as int)[j] == t@.subrange(0, i - 1)[j]);
                }
            }
        }
    }
    proof {
        assert(t@.subrange(0, t@.len() as int) =~= t@);
    }
    Some(rights)
}

/// Reads a clock field, or `None` when it is not a `u32`.
pub fn read_clock(t: &Vec<char>) -> (r: Option<u32>)
    ensures
        r is Some <==> clock_ok(t@),
        r matches Some(v) ==> v == digits_value(clock_digits(t@)),
{
    let start: usize = if t.len() > 0 && t[0] == '+' { 1 } else { 0 };
    let ghost d = clock_digits(t@);
    proof {
        if start == 1 {
            assert(d =~= t@.subrange(1, t@.len() as int));
        } else {
            assert(d =~= t@.subrange(0, t@.len() as int));
        }
    }
    if start >= t.len() {
        return None;
    }
    let mut value: u64 = 0;
    let mut i: usize = start;
    while i < t.len()
        invariant
            start <= i <= t@.len(),
            d == t@.subrange(start as int, t@.len() as int),
            d == clock_digits(t@),
            value == digits_value(t@.subrange(start as int, i as int)),
            all_digits(t@.subrange(start as int, i as int)),
            value <= u32::MAX,
        decreases t@.len() - i,
    {
        let c = t[i];
        let ghost pre = t@.subrange(start as int, i + 1);
        proof {
            assert(pre.drop_last() =~= t@.subrange(start as int, i as int));
            assert(pre.last() == c);
        }
        if c < '0' || c > '9' {
            proof {
                assert(d[i - start] == c);
                assert(!all_digits(d));
            }
            return None;
        }
        let digit: u64 = (c as u32 - '0' as u32) as u64;
        let next = value * 10 + digit;
        proof {
            assert forall|j: int| 0 <= j < pre.len() implies '0' <= #[trigger] pre[j] <= '9' by {
                if j < pre.len() - 1 {
                    assert(pre[j] == t@.subrange(start as int, i as int)[j]);
                }
            }
        }
        if next > 4294967295 {
            proof {
                assert(digits_value(pre) == next);
                lemma_digits_grow(d, pre.len() as int);
                assert(d.subrange(0, pre.len() as int) =~= pre);
            }
            return None;
        }
        value = next;
        i = i + 1;
        proof {
            assert forall|j: int| 0 <= j < pre.len() implies '0' <= #[trigger] pre[j] <= '9' by {
                if j < pre.len() - 1 {
                    assert(pre[j] == t@.subrange(start as int, i - 1)[j]);
                }
            }
        }
    }
    proof {
        assert(t@.subrange(start as int, i as int) =~= d);
    }
    Some(value as u32)
}

/// A number only grows when digits are appended.
proof fn lemma_digits_grow(d: Seq<char>, k: int)
    requires
        0 <= k <= d.len(),
        all_digits(d.subrange(0, k)),
    ensures
        all_digits(d) ==> digits_value(d) >= digits_value(d.subrange(0, k)),
    decreases d.len() - k,
{
    if k < d.len() && all_digits(d) {
        assert(all_digits(d.subrange(0, k + 1)));
        lemma_digits_grow(d, k + 1);
        assert(d.subrange(0, k + 1).drop_last() =~= d.subrange(0, k));
    } else if k == d.len() {
        assert(d.subrange(0, k) =~= d);
    }
}

/// Reads an en passant field: "-" gives no squares, a square name gives the target
/// and the square of the pawn that can be taken.
pub fn read_en_passant(t: &Vec<char>) -> (r: Option<(u64, u64)>)
    ensures
        r is Some <==> en_passant_ok(t@),
        r matches Some(v) ==> v == en_passant_of(t@),
{
    if t.len() == 1 && t[0] == '-' {
        proof {
            assert(t@ =~= seq!['-']);
        }
        return Some((0, 0));
    }
    proof {
        assert(t@ != seq!['-']);
    }
    if t.len() < 2 {
        return None;
    }
    let name = crate::text::string_from_chars(t);
    let text = name.as_str();
    let c0 = text.get_char(0);
    let c1 = text.get_char(1);
    let code: u32 = c0 as u32;
    if code % 0x10000 < 97 || c1 < '1' || c1 > '9' {
        return None;
    }
    let square = algebraic_to_square(text);
    if square >= 64 {
        return None;
    }
    let pos = 1u64 << (square as u64);
    if array_contains(&BBPositions::ROW_3, pos) {
        Some((pos, north_one(pos)))
    } else if array_contains(&BBPositions::ROW_6, pos) {
        Some((pos, south_one(pos)))
    } else {
        Some((pos, 0))
    }
}

impl Board {
    /// Reads a FEN string, or `None` when it cannot be read (see `fen_valid`).
    pub fn try_from_fen(fen: &str) -> (r: Option<Board>)
        ensures
            r is Some <==> fen_valid(fen@),
            r matches Some(b) ==> fen_board(fen@, b),
    {
        let chars = chars_of(fen);
        let parts = split_fields(&chars);
        if parts.len() < 4 {
            return None;
        }
        let bbs = match read_placement(&parts[0]) {
            Some(b) => b,
            None => return None,
        };
        let side = if parts[1].len() == 1 && parts[1][0] == 'w' {
            proof {
                assert(parts@[1]@ =~= seq!['w']);
            }
            Color::White
        } else if parts[1].len() == 1 && parts[1][0] == 'b' {
            proof {
                assert(parts@[1]@ =~= seq!['b']);
            }
            Color::Black
        } else {
            proof {
                assert(parts@[1]@ != seq!['w'] && parts@[1]@ != seq!['b']);
            }
            return None;
        };
        let rights = match read_castling(&parts[2]) {
            Some(v) => v,
            None => return None,
        };
        let (ep, eps) = match read_en_passant(&parts[3]) {
            Some(v) => v,
            None => return None,
        };
        let mut half: u32 = 0;
        if parts.len() > 4 {
            half = match read_clock(&parts[4]) {
                Some(v) => v,
                None => return None,
            };
        }
        let mut full: u32 = 1;
        if parts.len() > 5 {
            full = match read_clock(&parts[5]) {
                Some(v) => v,
                None => return None,
            };
        }
        let mut board = Board::empty();
        board.bitboards = bbs;
        board.side_to_move = side;
        board.castling_rights = rights;
        board.en_passant_bb_position = ep;
        board.en_passant_bb_piece_square = eps;
        board.half_move_clock = half;
        board.full_move_clock = full;
        let ghost before = board;
        board.refresh_hash();
        proof {
            crate::zobrist::lemma_position_hash_same_keys(board.zobrist, before.zobrist, board, before);
            let tk = fen_tokens(fen@);
            assert(parts@[0]@ == tk[0]);
            assert(board.bbs() == placement_of(tk[0])->0);
            assert(board.side() == (if tk[1] == seq!['w'] { Color::White } else { Color::Black }));
            assert(board.rights() == castling_value(tk[2]));
            assert(board.ep() == en_passant_of(tk[3]).0);
            assert(board.half() == (if tk.len() > 4 { digits_value(clock_digits(tk[4])) } else { 0 }));
            assert(board.full() == (if tk.len() > 5 { digits_value(clock_digits(tk[5])) } else { 1 }));
            assert(board.wf());
        }
        Some(board)
    }

    /// Reads a FEN string that `fen_valid` accepts.
    pub fn from_fen(fen: &str) -> (r: Board)
        requires
            fen_valid(fen@),
        ensures
            fen_board(fen@, r),
    {
        match Board::try_from_fen(fen) {
            Some(b) => b,
            None => Board::empty(),
        }
    }
}

// ---------------------------------------------------------------------------
// Writing a FEN string
// ---------------------------------------------------------------------------

/// The decimal digits of `n`.
pub open spec fn decimal(n: nat) -> Seq<char>
    decreases n,
{
    if n < 10 {
        seq![(48 + n) as char]
    } else {
        decimal(n / 10) + seq![(48 + n % 10) as char]
    }
}

/// Written numbers read back: the digits `decimal` writes for `n` are decimal digits,
/// the first of them not a leading zero, and read as a number they give `n` again.
pub proof fn lemma_decimal_reads_back(n: nat)
    ensures
        all_digits(decimal(n)),
        decimal(n).len() > 0,
        decimal(n).len() > 1 ==> decimal(n)[0] != '0',
        digits_value(decimal(n)) == n,
    decreases n,
{
    if n >= 10 {
        lemma_decimal_reads_back(n / 10);
        let d = decimal(n / 10);
        let c = (48 + n % 10) as char;
        assert(decimal(n) == d + seq![c]);
        assert((d + seq![c]).drop_last() =~= d);
        assert((d + seq![c]).last() == c);
        assert(c as nat == 48 + n % 10);
        assert(digits_value(d + seq![c]) == digits_value(d) * 10 + (c as nat - '0' as nat) as nat);
        assert((n / 10) * 10 + n % 10 == n);
        assert((d + seq![c])[0] == d[0]);
        assert(d.len() == 1 ==> d[0] != '0') by {
            if d.len() == 1 && n / 10 >= 10 {
                assert(decimal(n / 10).len() > 1) by {
                    let dd = decimal(n / 10 / 10);
                    lemma_decimal_reads_back(n / 10 / 10);
                }
            }
        }
        assert forall|i: int| 0 <= i < (d + seq![c]).len() implies '0' <= #[trigger] (d + seq![c])[i] <= '9' by {
            if i < d.len() {
                assert((d + seq![c])[i] == d[i]);
            }
        }
    } else {
        let c = (48 + n) as char;
        assert(decimal(n) == seq![c]);
        assert(seq![c].drop_last() =~= Seq::<char>::empty());
        assert(c as nat == 48 + n);
        assert(digits_value(seq![c]) == digits_value(Seq::<char>::empty()) * 10 + (c as nat - '0' as nat) as nat);
    }
}

/// A count of empty squares, written only when positive.
pub open spec fn empty_run(n: nat) -> Seq<char> {
    if n > 0 {
        decimal(n)
    } else {
        Seq::<char>::empty()
    }
}

/// The rest of a rank from file `col`, with `empty` empty squares pending: a piece is
/// written as its letter, a run of empty squares as its length.
pub open spec fn row_text(bbs: Seq<u64>, row: int, col: int, empty: nat) -> Seq<char>
    decreases 8 - col,
{
    if col >= 8 {
        empty_run(empty)
    } else {
        let bb = 1u64 << ((8 * row + col) as u64);
        let pt = type_at(bbs, bb);
        if pt == PieceType::Empty {
            row_text(bbs, row, col + 1, empty + 1)
        } else {
            empty_run(empty) + seq![piece_letter(color_at(bbs, bb), pt)] + row_text(bbs, row, col + 1, 0)
        }
    }
}

/// The ranks from `row` down to rank 1, separated by '/'.
pub open spec fn rows_text(bbs: Seq<u64>, row: int) -> Seq<char>
    decreases row + 1,
{
    if row < 0 {
        Seq::<char>::empty()
    } else {
        row_text(bbs, row, 0, 0) + (if row > 0 { seq!['/'] } else { Seq::<char>::empty() }) + rows_text(bbs, row - 1)
    }
}

/// The castling field: "-" without rights, else the letters of the rights held.
pub open spec fn castling_text(rights: u8) -> Seq<char> {
    if rights == 0 {
        seq!['-']
    } else {
        (if rights & 0x8 != 0 { seq!['K'] } else { Seq::<char>::empty() }) + (if rights & 0x4 != 0 {
            seq!['Q']
        } else {
            Seq::<char>::empty()
        }) + (if rights & 0x2 != 0 { seq!['k'] } else { Seq::<char>::empty() }) + (if rights & 0x1 != 0 {
            seq!['q']
        } else {
            Seq::<char>::empty()
        })
    }
}

/// A character is in a joined text exactly when it is in one of its parts.
proof fn lemma_contains_join(x: Seq<char>, y: Seq<char>, ch: char)
    ensures
        (x + y).contains(ch) == (x.contains(ch) || y.contains(ch)),
{
    if x.contains(ch) {
        let i = choose|i: int| 0 <= i < x.len() && x[i] == ch;
        assert((x + y)[i] == ch);
    }
    if y.contains(ch) {
        let i = choose|i: int| 0 <= i < y.len() && y[i] == ch;
        assert((x + y)[x.len() + i] == ch);
    }
    if (x + y).contains(ch) {
        let i = choose|i: int| 0 <= i < (x + y).len() && (x + y)[i] == ch;
        if i < x.len() {
            assert(x[i] == ch);
        } else {
            assert(y[i - x.len()] == ch);
        }
    }
}

/// The letter of a right, when held.
spec fn right_letter(held: bool, letter: char) -> Seq<char> {
    if held {
        seq![letter]
    } else {
        Seq::<char>::empty()
    }
}

/// Each castling letter is in the castling field exactly when its right bit is set.
proof fn lemma_castling_letters(r: u8)
    ensures
        castling_text(r).contains('K') == (r & 0x8 != 0),
        castling_text(r).contains('Q') == (r & 0x4 != 0),
        castling_text(r).contains('k') == (r & 0x2 != 0),
        castling_text(r).contains('q') == (r & 0x1 != 0),
{
    assert(r == 0 ==> r & 0x8 == 0 && r & 0x4 == 0 && r & 0x2 == 0 && r & 0x1 == 0) by (bit_vector);
    if r == 0 {
        assert(castling_text(r) == seq!['-']);
        assert(!seq!['-'].contains('K') && !seq!['-'].contains('Q') && !seq!['-'].contains('k') && !seq!['-'].contains('q')) by {
            if seq!['-'].contains('K') || seq!['-'].contains('Q') || seq!['-'].contains('k') || seq!['-'].contains('q') {
                assert(seq!['-'][0] == '-');
            }
        }
    } else {
        let a = right_letter(r & 0x8 != 0, 'K');
        let b = right_letter(r & 0x4 != 0, 'Q');
        let c = right_letter(r & 0x2 != 0, 'k');
        let d = right_letter(r & 0x1 != 0, 'q');
        assert(castling_text(r) == a + b + c + d);
        let chars = seq!['K', 'Q', 'k', 'q'];
        assert forall|i: int| 0 <= i < 4 implies {
            let ch = #[trigger] chars[i];
            (a + b + c + d).contains(ch) == (a.contains(ch) || b.contains(ch) || c.contains(ch) || d.contains(ch))
        } by {
            let ch = chars[i];
            lemma_contains_join(a, b, ch);
            lemma_contains_join(a + b, c, ch);
            lemma_contains_join(a + b + c, d, ch);
        }
        assert(chars[0] == 'K' && chars[1] == 'Q' && chars[2] == 'k' && chars[3] == 'q');
        assert forall|held: bool, l: char, ch: char| #[trigger] right_letter(held, l).contains(ch) == (held && l == ch) by {
            if right_letter(held, l).contains(ch) {
                let i = choose|i: int| 0 <= i < right_letter(held, l).len() && right_letter(held, l)[i] == ch;
                assert(held);
                assert(right_letter(held, l)[0] == l);
            }
            if held && l == ch {
                assert(right_letter(held, l)[0] == ch);
            }
        }
    }
}

/// A side holds its king-side castling right exactly when its king has not moved and
/// the castling field of the board's FEN names the right ('K' for White, 'k' for
/// Black); the queen side goes by 'Q' and 'q' in the same way.
pub proof fn lemma_castling_field(b: Board)
    ensures
        b.king_side_right(Color::White) == (!b.wkm() && castling_text(b.rights()).contains('K')),
        b.queen_side_right(Color::White) == (!b.wkm() && castling_text(b.rights()).contains('Q')),
        b.king_side_right(Color::Black) == (!b.bkm() && castling_text(b.rights()).contains('k')),
        b.queen_side_right(Color::Black) == (!b.bkm() && castling_text(b.rights()).contains('q')),
{
    lemma_castling_letters(b.rights());
}

/// The en passant field: "-" without a target, else the name of its lowest square.
pub open spec fn en_passant_text(ep: u64) -> Seq<char> {
    if ep == 0 {
        seq!['-']
    } else {
        algebraic_name((choose|k: u64| is_lsb(ep, k)) as int)
    }
}

/// The FEN string of a board.
pub open spec fn fen_text(b: Board) -> Seq<char> {
    rows_text(b.bbs(), 7) + seq![' '] + (if b.side() == Color::White { seq!['w'] } else { seq!['b'] })
        + seq![' '] + castling_text(b.rights()) + seq![' '] + en_passant_text(b.ep()) + seq![' ']
        + decimal(b.half() as nat) + seq![' '] + decimal(b.full() as nat)
}

/// Appends the decimal digits of `n`.
fn push_decimal(out: &mut Vec<char>, n: u32)
    ensures
        final(out)@ == old(out)@ + decimal(n as nat),
    decreases n,
{
    if n >= 10 {
        push_decimal(out, n / 10);
    }
    let d: u8 = (n % 10) as u8;
    out.push((48u8 + d) as char);
    proof {
        if n >= 10 {
            assert(final(out)@ =~= old(out)@ + decimal(n as nat)) by {
                assert(decimal(n as nat) == decimal((n / 10) as nat) + seq![(48 + n % 10) as char]);
            }
        }
    }
}

/// Appends the characters of `s`.
fn push_str(out: &mut Vec<char>, s: &str)
    ensures
        final(out)@ == old(out)@ + s@,
{
    let chars = chars_of(s);
    let mut i: usize = 0;
    while i < chars.len()
        invariant
            i <= chars@.len(),
            chars@ == s@,
            out@ == old(out)@ + chars@.subrange(0, i as int),
        decreases chars@.len() - i,
    {
        out.push(chars[i]);
        i = i + 1;
        assert(out@ =~= old(out)@ + chars@.subrange(0, i as int));
    }
    assert(chars@.subrange(0, chars@.len() as int) =~= chars@);
}

impl Board {
    /// Appends one rank of the placement field.
    fn push_row(&self, fen: &mut Vec<char>, row: usize)
        requires
            row < 8,
        ensures
            final(fen)@ == old(fen)@ + row_text(self.bbs(), row as int, 0, 0),
    {
        let ghost bbs = self.bbs();
        let mut empty_squares: u32 = 0;
        let mut col: usize = 0;
        while col < 8
            invariant
                row < 8,
                col <= 8,
                empty_squares <= col,
                bbs == self.bbs(),
                fen@ + row_text(bbs, row as int, col as int, empty_squares as nat) == old(fen)@ + row_text(bbs, row as int, 0, 0),
            decreases 8 - col,
        {
            let square = 8 * row + col;
            let piece_type = self.get_piece_type(square);
            let ghost prev = fen@;
            let ghost e0 = empty_squares as nat;
            if piece_type == PieceType::Empty {
                empty_squares = empty_squares + 1;
            } else {
                if empty_squares > 0 {
                    push_decimal(fen, empty_squares);
                    empty_squares = 0;
                }
                let color = self.get_piece_color(square);
                fen.push(crate::utils::piece_letter_char(color, piece_type));
                proof {
                    assert(fen@ + row_text(bbs, row as int, col + 1, 0) =~= prev + row_text(bbs, row as int, col as int, e0));
                }
            }
            col = col + 1;
        }
        if empty_squares > 0 {
            push_decimal(fen, empty_squares);
        }
        proof {
            assert(fen@ =~= old(fen)@ + row_text(bbs, row as int, 0, 0));
        }
    }

    /// Appends the placement field.
    fn push_placement(&self, fen: &mut Vec<char>)
        ensures
            final(fen)@ == old(fen)@ + rows_text(self.bbs(), 7),
    {
        let ghost bbs = self.bbs();
        let mut row: usize = 8;
        proof {
            assert(rows_text(bbs, 7) == rows_text(bbs, 8 - 1));
        }
        while row > 0
            invariant
                row <= 8,
                bbs == self.bbs(),
                fen@ + rows_text(bbs, row as int - 1) == old(fen)@ + rows_text(bbs, 7),
            decreases row,
        {
            row = row - 1;
            let ghost before = fen@;
            self.push_row(fen, row);
            if row > 0 {
                fen.push('/');
            }
            proof {
                assert(fen@ + rows_text(bbs, row as int - 1) =~= before + rows_text(bbs, row as int));
            }
        }
        proof {
            assert(fen@ =~= old(fen)@ + rows_text(bbs, 7));
        }
    }

    /// Appends the castling field.
    fn push_castling(&self, fen: &mut Vec<char>)
        ensures
            final(fen)@ == old(fen)@ + castling_text(self.rights()),
    {
        if self.castling_rights == 0 {
            fen.push('-');
        } else {
            let ghost start = fen@;
            if self.castling_rights & 0x8 != 0 {
                fen.push('K');
            }
            let ghost a = fen@;
            if self.castling_rights & 0x4 != 0 {
                fen.push('Q');
            }
            let ghost b = fen@;
            if self.castling_rights & 0x2 != 0 {
                fen.push('k');
            }
            let ghost c = fen@;
            if self.castling_rights & 0x1 != 0 {
                fen.push('q');
            }
            assert(fen@ =~= start + castling_text(self.rights()));
        }
    }

    /// The FEN string of the position.
    pub fn to_fen(&self) -> (r: String)
        ensures
            r@ == fen_text(*self),
    {
        let mut fen: Vec<char> = Vec::new();
        self.push_placement(&mut fen);
        let ghost p0 = fen@;
        fen.push(' ');
        if self.side_to_move.is_white() {
            fen.push('w');
        } else {
            fen.push('b');
        }
        fen.push(' ');
        let ghost p1 = fen@;
        self.push_castling(&mut fen);
        fen.push(' ');
        let ghost p2 = fen@;
        if self.en_passant_bb_position == 0 {
            fen.push('-');
        } else {
            let mut pos = self.en_passant_bb_position;
            let square = pop_lsb(&mut pos) as usize;
            proof {
                crate::bitwise_utils::lemma_lsb_unique(self.en_passant_bb_position, square as u64);
            }
            let name = square_to_algebraic(square);
            push_str(&mut fen, name.as_str());
        }
        let ghost p3 = fen@;
        assert(p3 == p2 + en_passant_text(self.ep()));
        fen.push(' ');
        push_decimal(&mut fen, self.half_move_clock);
        fen.push(' ');
        push_decimal(&mut fen, self.full_move_clock);
        assert(fen@ =~= fen_text(*self));
        crate::text::string_from_chars(&fen)
    }
}

// ---------------------------------------------------------------------------
// Drawing the board
// ---------------------------------------------------------------------------

/// What a square shows: "*" when it is marked, else the symbol of its piece.
pub open spec fn cell_text(b: Board, marked: Seq<usize>, square: int) -> Seq<char> {
    if marked.contains(square as usize) {
        seq!['*']
    } else {
        let bb = 1u64 << (square as u64);
        piece_symbol(color_at(b.bbs(), bb), type_at(b.bbs(), bb))
    }
}

/// The squares of a rank from file `col` on, each followed by a space.
pub open spec fn cells_text(b: Board, marked: Seq<usize>, row: int, col: int) -> Seq<char>
    decreases 8 - col,
{
    if col >= 8 {
        Seq::<char>::empty()
    } else {
        cell_text(b, marked, 8 * row + col) + seq![' '] + cells_text(b, marked, row, col + 1)
    }
}

/// The ranks from `row` down to rank 1: the rank number, the squares, a line break.
pub open spec fn ranks_text(b: Board, marked: Seq<usize>, row: int) -> Seq<char>
    decreases row + 1,
{
    if row < 0 {
        Seq::<char>::empty()
    } else {
        seq![(49 + row) as char, ' '] + cells_text(b, marked, row, 0) + seq!['\n'] + ranks_text(b, marked, row - 1)
    }
}

/// The drawing of the board, rank 8 on top, with the file letters below.
pub open spec fn board_drawing(b: Board, marked: Seq<usize>) -> Seq<char> {
    ranks_text(b, marked, 7) + "  a b c d e f g h"@
}

fn contains_square(squares: &Vec<usize>, square: usize) -> (r: bool)
    ensures
        r == squares@.contains(square),
{
    let mut i: usize = 0;
    while i < squares.len()
        invariant
            i <= squares@.len(),
            forall|j: int| 0 <= j < i ==> squares@[j] != square,
        decreases squares@.len() - i,
    {
        if squares[i] == square {
            assert(squares@[i as int] == square);
            return true;
        }
        i = i + 1;
    }
    false
}

impl Board {
    fn push_cells(&self, out: &mut Vec<char>, attack_squares: &Vec<usize>, row: usize)
        requires
            row < 8,
        ensures
            final(out)@ == old(out)@ + cells_text(*self, attack_squares@, row as int, 0),
    {
        let mut col: usize = 0;
        while col < 8
            invariant
                row < 8,
                col <= 8,
                out@ + cells_text(*self, attack_squares@, row as int, col as int) == old(out)@ + cells_text(*self, attack_squares@, row as int, 0),
            decreases 8 - col,
        {
            let ghost prev = out@;
            let square = row * 8 + col;
            if contains_square(attack_squares, square) {
                out.push('*');
            } else {
                let symbol = crate::utils::get_piece_symbol(self.get_piece_color(square), self.get_piece_type(square));
                push_str(out, symbol.as_str());
            }
            out.push(' ');
            assert(out@ + cells_text(*self, attack_squares@, row as int, col + 1) =~= prev + cells_text(*self, attack_squares@, row as int, col as int));
            col = col + 1;
        }
        assert(out@ =~= old(out)@ + cells_text(*self, attack_squares@, row as int, 0));
    }

    /// A drawing of the board with the piece symbols, rank 8 on top, where the
    /// squares in `attack_squares` show "*".
    pub fn board_text(&self, attack_squares: &Vec<usize>) -> (r: String)
        ensures
            r@ == board_drawing(*self, attack_squares@),
    {
        let mut out: Vec<char> = Vec::new();
        let mut row: usize = 8;
        while row > 0
            invariant
                row <= 8,
                out@ + ranks_text(*self, attack_squares@, row as int - 1) == ranks_text(*self, attack_squares@, 7),
            decreases row,
        {
            row = row - 1;
            let ghost before = out@;
            out.push((49u8 + row as u8) as char);
            out.push(' ');
            self.push_cells(&mut out, attack_squares, row);
            out.push('\n');
            assert(out@ + ranks_text(*self, attack_squares@, row as int - 1) =~= before + ranks_text(*self, attack_squares@, row as int));
        }
        proof {
            reveal_strlit("  a b c d e f g h");
        }
        push_str(&mut out, "  a b c d e f g h");
        assert(out@ =~= board_drawing(*self, attack_squares@));
        crate::text::string_from_chars(&out)
    }
}

} // verus!
