use vstd::prelude::*;

use crate::bitwise_utils::{
    to_bitboard_position,     east_one, has_sq, no_ea_one, no_we_one, north_one, so_ea_one, so_we_one, south_one,
    step_spec, west_one, Direction, NOT_A_FILE, NOT_H_FILE,
};
use crate::utils::{is_pawn_in_initial_position, pawn_initial_position};
use crate::move_generator::tables::{BISHOP_RELEVANT_SQUARES, ROOK_RELEVANT_SQUARES};
use crate::bit_lemmas::squares_of;

verus! {

/// The squares a sliding piece reaches along `dir`, starting at the square set `np`
/// (the first step already taken), with `acc` gathered so far: it goes on while the
/// square is on the board and not friendly, includes the first enemy square and
/// stops there; at most `fuel` squares are taken.
pub open spec fn ray_from(dir: Direction, np: u64, enemy: u64, friendly: u64, acc: u64, fuel: nat) -> u64
    decreases fuel,
{
    if fuel == 0 || np == 0 || np & !friendly == 0 {
        acc
    } else if np & enemy != 0 {
        acc | np
    } else {
        ray_from(dir, step_spec(dir, np), enemy, friendly, acc | np, (fuel - 1) as nat)
    }
}

/// The ray from `pos` along `dir`, added to `acc`. Eight steps cross the board.
pub open spec fn ray(dir: Direction, pos: u64, enemy: u64, friendly: u64, acc: u64) -> u64 {
    ray_from(dir, step_spec(dir, pos), enemy, friendly, acc, 8)
}

/// Rook moves from `pos`: north, south, west and east rays.
pub open spec fn rook_moves_spec(enemy: u64, friendly: u64, pos: u64) -> u64 {
    ray(
        Direction::East,
        pos,
        enemy,
        friendly,
        ray(
            Direction::West,
            pos,
            enemy,
            friendly,
            ray(Direction::South, pos, enemy, friendly, ray(Direction::North, pos, enemy, friendly, 0)),
        ),
    )
}

/// Bishop moves from `pos`: north-west, south-west, south-east and north-east rays.
pub open spec fn bishop_moves_spec(enemy: u64, friendly: u64, pos: u64) -> u64 {
    ray(
        Direction::NorthEast,
        pos,
        enemy,
        friendly,
        ray(
            Direction::SouthEast,
            pos,
            enemy,
            friendly,
            ray(
                Direction::SouthWest,
                pos,
                enemy,
                friendly,
                ray(Direction::NorthWest, pos, enemy, friendly, 0),
            ),
        ),
    )
}

/// The squares along `dir` from `np` on, at most `fuel` of them.
pub open spec fn line_from(dir: Direction, np: u64, fuel: nat) -> u64
    decreases fuel,
{
    if fuel == 0 {
        0
    } else {
        np | line_from(dir, step_spec(dir, np), (fuel - 1) as nat)
    }
}

/// A ray only adds squares of its line to what it had gathered.
pub proof fn lemma_ray_on_line(dir: Direction, np: u64, enemy: u64, friendly: u64, acc: u64, fuel: nat)
    ensures
        forall|s: u64|
            s < 64 && #[trigger] has_sq(ray_from(dir, np, enemy, friendly, acc, fuel), s) ==> has_sq(acc, s) || has_sq(
                line_from(dir, np, fuel),
                s,
            ),
    decreases fuel,
{
    crate::bit_lemmas::lemma_has_sq_ops();
    if fuel == 0 || np == 0 || np & !friendly == 0 {
        assert(ray_from(dir, np, enemy, friendly, acc, fuel) == acc);
    } else {
        let rest = line_from(dir, step_spec(dir, np), (fuel - 1) as nat);
        assert(line_from(dir, np, fuel) == np | rest);
        if np & enemy != 0 {
            assert(ray_from(dir, np, enemy, friendly, acc, fuel) == acc | np);
        } else {
            lemma_ray_on_line(dir, step_spec(dir, np), enemy, friendly, acc | np, (fuel - 1) as nat);
            assert(ray_from(dir, np, enemy, friendly, acc, fuel) == ray_from(
                dir,
                step_spec(dir, np),
                enemy,
                friendly,
                acc | np,
                (fuel - 1) as nat,
            ));
        }
    }
}

/// Eight squares along a direction that shifts up by `k` and keeps to `m`, from `p`
/// exclusive.
pub open spec fn line_up(p: u64, k: u64, m: u64) -> u64 {
    let s1 = (p << k) & m;
    let s2 = (s1 << k) & m;
    let s3 = (s2 << k) & m;
    let s4 = (s3 << k) & m;
    let s5 = (s4 << k) & m;
    let s6 = (s5 << k) & m;
    let s7 = (s6 << k) & m;
    let s8 = (s7 << k) & m;
    s1 | (s2 | (s3 | (s4 | (s5 | (s6 | (s7 | (s8 | 0)))))))
}

/// Eight squares along a direction that shifts down by `k` and keeps to `m`, from
/// `p` exclusive.
pub open spec fn line_down(p: u64, k: u64, m: u64) -> u64 {
    let s1 = (p >> k) & m;
    let s2 = (s1 >> k) & m;
    let s3 = (s2 >> k) & m;
    let s4 = (s3 >> k) & m;
    let s5 = (s4 >> k) & m;
    let s6 = (s5 >> k) & m;
    let s7 = (s6 >> k) & m;
    let s8 = (s7 >> k) & m;
    s1 | (s2 | (s3 | (s4 | (s5 | (s6 | (s7 | (s8 | 0)))))))
}

/// Eight squares north (up) or south (down) of `p`, exclusive.
pub open spec fn file_up(p: u64) -> u64 {
    let s1 = p << 8u64;
    let s2 = s1 << 8u64;
    let s3 = s2 << 8u64;
    let s4 = s3 << 8u64;
    let s5 = s4 << 8u64;
    let s6 = s5 << 8u64;
    let s7 = s6 << 8u64;
    let s8 = s7 << 8u64;
    s1 | (s2 | (s3 | (s4 | (s5 | (s6 | (s7 | (s8 | 0)))))))
}

pub open spec fn file_down(p: u64) -> u64 {
    let s1 = p >> 8u64;
    let s2 = s1 >> 8u64;
    let s3 = s2 >> 8u64;
    let s4 = s3 >> 8u64;
    let s5 = s4 >> 8u64;
    let s6 = s5 >> 8u64;
    let s7 = s6 >> 8u64;
    let s8 = s7 >> 8u64;
    s1 | (s2 | (s3 | (s4 | (s5 | (s6 | (s7 | (s8 | 0)))))))
}

/// The rook's lines and the bishop's lines from one square share no square.
pub proof fn lemma_lines_apart_bits(x: u64)
    requires
        x < 64,
    ensures
        (file_up(1u64 << x) | file_down(1u64 << x) | line_up(1u64 << x, 1, NOT_A_FILE) | line_down(1u64 << x, 1, NOT_H_FILE)) & (
        line_up(1u64 << x, 9, NOT_A_FILE) | line_up(1u64 << x, 7, NOT_H_FILE) | line_down(1u64 << x, 7, NOT_A_FILE) | line_down(
            1u64 << x,
            9,
            NOT_H_FILE,
        )) == 0,
{
    assert(x < 64 ==> (file_up(1u64 << x) | file_down(1u64 << x) | line_up(1u64 << x, 1, NOT_A_FILE) | line_down(
        1u64 << x,
        1,
        NOT_H_FILE,
    )) & (line_up(1u64 << x, 9, NOT_A_FILE) | line_up(1u64 << x, 7, NOT_H_FILE) | line_down(1u64 << x, 7, NOT_A_FILE)
        | line_down(1u64 << x, 9, NOT_H_FILE)) == 0) by (bit_vector);
}

/// No square is both a rook move and a bishop move from one square, whatever the
/// blockers.
pub proof fn lemma_rook_bishop_apart(e1: u64, e2: u64, x: u64)
    requires
        x < 64,
    ensures
        forall|s: u64| s < 64 ==> !(#[trigger] has_sq(rook_moves_spec(e1, 0, 1u64 << x), s) && has_sq(bishop_moves_spec(e2, 0, 1u64 << x), s)),
{
    let p = 1u64 << x;
    crate::bit_lemmas::lemma_has_sq_ops();
    lemma_lines_apart_bits(x);
    reveal_with_fuel(line_from, 9);
    assert(line_from(Direction::North, step_spec(Direction::North, p), 8) == file_up(p));
    assert(line_from(Direction::South, step_spec(Direction::South, p), 8) == file_down(p));
    assert(line_from(Direction::East, step_spec(Direction::East, p), 8) == line_up(p, 1, NOT_A_FILE));
    assert(line_from(Direction::West, step_spec(Direction::West, p), 8) == line_down(p, 1, NOT_H_FILE));
    assert(line_from(Direction::NorthEast, step_spec(Direction::NorthEast, p), 8) == line_up(p, 9, NOT_A_FILE));
    assert(line_from(Direction::NorthWest, step_spec(Direction::NorthWest, p), 8) == line_up(p, 7, NOT_H_FILE));
    assert(line_from(Direction::SouthEast, step_spec(Direction::SouthEast, p), 8) == line_down(p, 7, NOT_A_FILE));
    assert(line_from(Direction::SouthWest, step_spec(Direction::SouthWest, p), 8) == line_down(p, 9, NOT_H_FILE));
    let r1 = ray(Direction::North, p, e1, 0, 0);
    let r2 = ray(Direction::South, p, e1, 0, r1);
    let r3 = ray(Direction::West, p, e1, 0, r2);
    lemma_ray_on_line(Direction::North, step_spec(Direction::North, p), e1, 0, 0, 8);
    lemma_ray_on_line(Direction::South, step_spec(Direction::South, p), e1, 0, r1, 8);
    lemma_ray_on_line(Direction::West, step_spec(Direction::West, p), e1, 0, r2, 8);
    lemma_ray_on_line(Direction::East, step_spec(Direction::East, p), e1, 0, r3, 8);
    let d1 = ray(Direction::NorthWest, p, e2, 0, 0);
    let d2 = ray(Direction::SouthWest, p, e2, 0, d1);
    let d3 = ray(Direction::SouthEast, p, e2, 0, d2);
    lemma_ray_on_line(Direction::NorthWest, step_spec(Direction::NorthWest, p), e2, 0, 0, 8);
    lemma_ray_on_line(Direction::SouthWest, step_spec(Direction::SouthWest, p), e2, 0, d1, 8);
    lemma_ray_on_line(Direction::SouthEast, step_spec(Direction::SouthEast, p), e2, 0, d2, 8);
    lemma_ray_on_line(Direction::NorthEast, step_spec(Direction::NorthEast, p), e2, 0, d3, 8);
    let o = file_up(p) | file_down(p) | line_up(p, 1, NOT_A_FILE) | line_down(p, 1, NOT_H_FILE);
    let d = line_up(p, 9, NOT_A_FILE) | line_up(p, 7, NOT_H_FILE) | line_down(p, 7, NOT_A_FILE) | line_down(p, 9, NOT_H_FILE);
    assert forall|s: u64| s < 64 implies !(#[trigger] has_sq(rook_moves_spec(e1, 0, p), s) && has_sq(bishop_moves_spec(e2, 0, p), s)) by {
        if has_sq(rook_moves_spec(e1, 0, p), s) && has_sq(bishop_moves_spec(e2, 0, p), s) {
            assert(has_sq(o, s));
            assert(has_sq(d, s));
            assert(has_sq(o & d, s));
        }
    }
}

/// Which slider a table is built for.
#[derive(Clone, Copy, Debug, PartialEq, Eq, Structural)]
pub enum Slider {
    Rook,
    Bishop,
    Queen,
}

pub open spec fn slider_moves_spec(slider: Slider, enemy: u64, friendly: u64, pos: u64) -> u64 {
    match slider {
        Slider::Rook => rook_moves_spec(enemy, friendly, pos),
        Slider::Bishop => bishop_moves_spec(enemy, friendly, pos),
        Slider::Queen => bishop_moves_spec(enemy, friendly, pos) | rook_moves_spec(enemy, friendly, pos),
    }
}

/// Number of set squares among `0..n`.
pub open spec fn count_bits(x: u64, n: nat) -> nat
    decreases n,
{
    if n == 0 {
        0
    } else {
        count_bits(x, (n - 1) as nat) + if has_sq(x, (n - 1) as u64) {
            1nat
        } else {
            0nat
        }
    }
}

pub open spec fn pow2(n: nat) -> nat
    decreases n,
{
    if n == 0 {
        1
    } else {
        2 * pow2((n - 1) as nat)
    }
}

/// A table entry holds a square below 64 and the slider moves from it with the
/// pattern's squares as the only (capturable) pieces.
pub open spec fn table_entry_sound(slider: Slider, e: ((u8, u64), u64)) -> bool {
    &&& e.0.0 < 64
    &&& e.1 == slider_moves_spec(slider, e.0.1, 0, 1u64 << (e.0.0 as u64))
}

pub open spec fn king_moves_spec(friendly: u64, pos: u64) -> u64 {
    (step_spec(Direction::North, pos) | step_spec(Direction::NorthEast, pos) | step_spec(Direction::East, pos)
        | step_spec(Direction::SouthEast, pos) | step_spec(Direction::South, pos) | step_spec(
        Direction::SouthWest,
        pos,
    ) | step_spec(Direction::West, pos) | step_spec(Direction::NorthWest, pos)) & !friendly
}

/// The knight jumps that go forward along `dir` (north or south): one rank and two
/// files, or two ranks and one file.
pub open spec fn knight_half_spec(dir: Direction, pos: u64) -> u64 {
    let one = step_spec(dir, pos);
    let two = step_spec(dir, one);
    step_spec(Direction::West, step_spec(Direction::West, one)) | step_spec(Direction::East, step_spec(Direction::East, one))
        | step_spec(Direction::West, two) | step_spec(Direction::East, two)
}

/// The pushes of a pawn on `pos`: one step forward, and a second one from the starting rank.
pub open spec fn pawn_push_spec(white: bool, pos: u64) -> u64 {
    let dir = if white { Direction::North } else { Direction::South };
    let one = step_spec(dir, pos);
    if pawn_initial_position(pos, white) { one | step_spec(dir, one) } else { one }
}

/// The squares a rook's moves from `sq` can be blocked on: its rank and file
/// without the board's edges and without `sq`.
pub open spec fn rook_relevant(sq: int, t: int) -> bool {
    &&& t != sq
    &&& ((t / 8 == sq / 8 && 1 <= t % 8 <= 6) || (t % 8 == sq % 8 && 1 <= t / 8 <= 6))
}

/// The squares a bishop's moves from `sq` can be blocked on: its diagonals without
/// the board's edges and without `sq`.
pub open spec fn bishop_relevant(sq: int, t: int) -> bool {
    &&& t != sq
    &&& 1 <= t / 8 <= 6
    &&& 1 <= t % 8 <= 6
    &&& (t / 8 - t % 8 == sq / 8 - sq % 8 || t / 8 + t % 8 == sq / 8 + sq % 8)
}

/// The squares of `x` below `i`, in increasing order.
pub open spec fn squares_below(x: u64, i: nat) -> Seq<u64>
    decreases i,
{
    if i == 0 {
        Seq::<u64>::empty()
    } else {
        squares_below(x, (i - 1) as nat) + if has_sq(x, (i - 1) as u64) {
            seq![(i - 1) as u64]
        } else {
            Seq::<u64>::empty()
        }
    }
}

/// The squares below `i` followed by the squares from `i` on are all the squares.
pub proof fn lemma_squares_below_all(x: u64, i: nat)
    requires
        i <= 64,
    ensures
        squares_below(x, i) + crate::bit_lemmas::squares_from(x, i) == squares_of(x),
    decreases i,
{
    if i > 0 {
        lemma_squares_below_all(x, (i - 1) as nat);
        let j = (i - 1) as nat;
        assert(crate::bit_lemmas::squares_from(x, j) == (if has_sq(x, j as u64) { seq![j as u64] } else { Seq::<u64>::empty() }) + crate::bit_lemmas::squares_from(x, i));
        assert(squares_below(x, i) + crate::bit_lemmas::squares_from(x, i) =~= squares_below(x, j) + crate::bit_lemmas::squares_from(x, j));
    } else {
        assert(squares_below(x, 0) + crate::bit_lemmas::squares_from(x, 0) =~= squares_of(x));
    }
}

/// The blocker pattern `p` picks from the squares `s`: the `i`-th square (for `i`
/// below `k`) when bit `i` of `p` is set.
pub open spec fn pattern_bb(s: Seq<u64>, p: u64, k: nat) -> u64
    decreases k,
{
    if k == 0 {
        0
    } else {
        pattern_bb(s, p, (k - 1) as nat) | (((p >> ((k - 1) as u64)) & 1) << s[k - 1])
    }
}

/// Bit `j` of `p` (for `j` below `k`) decides square `s[j]` of the pattern, and the
/// pattern holds no square outside `s[0..k]`.
pub proof fn lemma_pattern_squares(s: Seq<u64>, p: u64, k: nat)
    requires
        k <= s.len(),
        k <= 64,
        forall|a: int, b: int| 0 <= a < b < k ==> #[trigger] s[a] < #[trigger] s[b],
        forall|a: int| 0 <= a < k ==> #[trigger] s[a] < 64,
    ensures
        forall|j: int| 0 <= j < k ==> #[trigger] has_sq(pattern_bb(s, p, k), s[j]) == has_sq(p, j as u64),
        forall|t: u64| t < 64 && (forall|j: int| 0 <= j < k ==> #[trigger] s[j] != t) ==> !has_sq(pattern_bb(s, p, k), t),
    decreases k,
{
    crate::bit_lemmas::lemma_has_sq_ops();
    if k > 0 {
        let k1 = (k - 1) as nat;
        lemma_pattern_squares(s, p, k1);
        let bit = (p >> (k1 as u64)) & 1;
        crate::bit_lemmas::lemma_shift_and_one(p, k1 as u64);
        let prev = pattern_bb(s, p, k1);
        assert(pattern_bb(s, p, k) == prev | (bit << s[k1 as int]));
        assert forall|t: u64| t < 64 implies #[trigger] has_sq(pattern_bb(s, p, k), t) == (has_sq(prev, t) || (bit == 1 && s[k1 as int] == t)) by {
            crate::bit_lemmas::lemma_bit_at(bit, s[k1 as int], t);
        }
        assert forall|j: int| 0 <= j < k implies #[trigger] has_sq(pattern_bb(s, p, k), s[j]) == has_sq(p, j as u64) by {
            if j == k1 {
                assert(forall|i: int| 0 <= i < k1 ==> #[trigger] s[i] != s[k1 as int]);
            } else {
                assert(s[j] < s[k1 as int]);
            }
        }
    }
}

/// Different patterns below `2^k` pick different blockers from `k` distinct squares.
pub proof fn lemma_patterns_differ(s: Seq<u64>, p: u64, q: u64, k: nat)
    requires
        k <= s.len(),
        k < 64,
        forall|a: int, b: int| 0 <= a < b < k ==> #[trigger] s[a] < #[trigger] s[b],
        forall|a: int| 0 <= a < k ==> #[trigger] s[a] < 64,
        p < pow2(k),
        q < pow2(k),
        p != q,
    ensures
        pattern_bb(s, p, k) != pattern_bb(s, q, k),
{
    lemma_pattern_squares(s, p, k);
    lemma_pattern_squares(s, q, k);
    crate::bit_lemmas::lemma_pow2_fits(k);
    if pattern_bb(s, p, k) == pattern_bb(s, q, k) {
        assert forall|j: u64| j < 64 implies #[trigger] has_sq(p, j) == has_sq(q, j) by {
            if j < k {
                assert(has_sq(pattern_bb(s, p, k), s[j as int]) == has_sq(p, j));
                assert(has_sq(pattern_bb(s, q, k), s[j as int]) == has_sq(q, j));
            } else {
                crate::bit_lemmas::lemma_below_power(p, k as u64, j);
                crate::bit_lemmas::lemma_below_power(q, k as u64, j);
            }
        }
        crate::bit_lemmas::lemma_same_squares(p, q);
    }
}

/// No (square, blockers) key occurs twice among `entries`.
pub open spec fn keys_unique(entries: Seq<((u8, u64), u64)>) -> bool {
    forall|a: int, b: int| #![trigger entries[a], entries[b]] 0 <= a < b < entries.len() ==> entries[a].0 != entries[b].0
}

/// The relevant squares that the slider reaches from `sq` on an empty board.
pub open spec fn slider_mask(slider: Slider, relevant: u64, sq: int) -> u64 {
    slider_moves_spec(slider, 0, 0, 1u64 << (sq as u64)) & relevant
}

/// The table entry for blocker pattern `p` of `sq`.
pub open spec fn pattern_entry(slider: Slider, relevant: u64, sq: int, p: int) -> ((u8, u64), u64) {
    let mask = slider_mask(slider, relevant, sq);
    let blockers = pattern_bb(squares_of(mask), p as u64, squares_of(mask).len());
    ((sq as u8, blockers), slider_moves_spec(slider, blockers, 0, 1u64 << (sq as u64)))
}

/// Generator of raw piece moves, used to build the slider tables.
pub struct RawMoveGenerator {}

impl RawMoveGenerator {
    pub fn new() -> Self {
        RawMoveGenerator {}
    }

    /// Every subset of the squares of `bb_moves`: pattern `p` keeps the `i`-th square
    /// (in increasing order) when bit `i` of `p` is set. Masks of 32 squares or more
    /// give no subsets.
    pub fn get_blockers_bitboards(bb_moves: u64) -> (r: Vec<u64>)
        ensures
            count_bits(bb_moves, 64) < 32 ==> r@.len() == pow2(count_bits(bb_moves, 64)),
            count_bits(bb_moves, 64) >= 32 ==> r@.len() == 0,
            forall|p: int| 0 <= p < r@.len() ==> r@[p] & !bb_moves == 0,
            forall|p: int| 0 <= p < r@.len() ==> #[trigger] r@[p] == pattern_bb(squares_of(bb_moves), p as u64, squares_of(bb_moves).len()),
    {
        let mut square_indices: Vec<u64> = Vec::new();
        let mut i: u64 = 0;
        while i < 64
            invariant
                i <= 64,
                square_indices@ == squares_below(bb_moves, i as nat),
                square_indices@.len() == count_bits(bb_moves, i as nat),
                square_indices@.len() <= i,
                forall|j: int|
                    0 <= j < square_indices@.len() ==> square_indices@[j] < 64 && has_sq(
                        bb_moves,
                        square_indices@[j],
                    ),
            decreases 64 - i,
        {
            proof {
                crate::bit_lemmas::lemma_shift_and_one(bb_moves, i);
            }
            if ((bb_moves >> i) & 1) == 1 {
                square_indices.push(i);
            }
            i = i + 1;
        }
        proof {
            lemma_squares_below_all(bb_moves, 64);
            assert(crate::bit_lemmas::squares_from(bb_moves, 64) =~= Seq::<u64>::empty());
            assert(square_indices@ =~= squares_of(bb_moves));
        }
        let mut blockers_bitboards: Vec<u64> = Vec::new();
        let len = square_indices.len();
        if len >= 32 {
            return blockers_bitboards;
        }
        proof {
            crate::bit_lemmas::lemma_pow2_fits(len as nat);
        }
        let num_patterns: u64 = 1u64 << (len as u64);
        let mut pattern_i: u64 = 0;
        while pattern_i < num_patterns
            invariant
                len == square_indices@.len(),
                square_indices@ == squares_of(bb_moves),
                len < 32,
                num_patterns == pow2(len as nat),
                pattern_i <= num_patterns,
                blockers_bitboards@.len() == pattern_i,
                forall|j: int|
                    0 <= j < square_indices@.len() ==> square_indices@[j] < 64 && has_sq(
                        bb_moves,
                        square_indices@[j],
                    ),
                forall|p: int| 0 <= p < blockers_bitboards@.len() ==> blockers_bitboards@[p] & !bb_moves == 0,
                forall|p: int| 0 <= p < blockers_bitboards@.len() ==> #[trigger] blockers_bitboards@[p] == pattern_bb(square_indices@, p as u64, len as nat),
            decreases num_patterns - pattern_i,
        {
            let mut pattern: u64 = 0;
            let mut bit_i: usize = 0;
            proof {
                crate::bit_lemmas::lemma_bit_identities();
            }
            while bit_i < len
                invariant
                    len == square_indices@.len(),
                    len < 32,
                    bit_i <= len,
                    pattern & !bb_moves == 0,
                    pattern == pattern_bb(square_indices@, pattern_i, bit_i as nat),
                    forall|j: int|
                        0 <= j < square_indices@.len() ==> square_indices@[j] < 64 && has_sq(
                            bb_moves,
                            square_indices@[j],
                        ),
                decreases len - bit_i,
            {
                assert(bit_i < 32);
                let bit: u64 = (pattern_i >> (bit_i as u64)) & 1;
                let idx = square_indices[bit_i];
                proof {
                    crate::bit_lemmas::lemma_add_square_subset(pattern, pattern_i, bit_i as u64, idx, bb_moves);
                }
                pattern = pattern | (bit << idx);
                bit_i = bit_i + 1;
            }
            blockers_bitboards.push(pattern);
            pattern_i = pattern_i + 1;
        }
        blockers_bitboards
    }

    /// Adds to `*moves` the ray from `initial_position` along `dir`.
    pub fn generate_sliding_moves(
        enemy_positions: u64,
        friendly_positions: u64,
        initial_position: u64,
        moves: &mut u64,
        dir: Direction,
    )
        ensures
            *final(moves) == ray(dir, initial_position, enemy_positions, friendly_positions, *old(moves)),
    {
        let mut new_position = dir.step(initial_position);
        let mut fuel: u64 = 8;
        while fuel > 0 && new_position != 0 && (new_position & !friendly_positions) != 0
            invariant
                fuel <= 8,
                ray_from(dir, new_position, enemy_positions, friendly_positions, *moves, fuel as nat)
                    == ray(dir, initial_position, enemy_positions, friendly_positions, *old(moves)),
            decreases fuel,
        {
            *moves = *moves | new_position;
            if new_position & enemy_positions != 0 {
                return;
            }
            new_position = dir.step(new_position);
            fuel = fuel - 1;
        }
    }

    pub fn generate_rook_moves(enemy_positions: u64, friendly_positions: u64, initial_position: u64) -> (r: u64)
        ensures
            r == rook_moves_spec(enemy_positions, friendly_positions, initial_position),
    {
        let mut moves: u64 = 0;
        RawMoveGenerator::generate_sliding_moves(enemy_positions, friendly_positions, initial_position, &mut moves, Direction::North);
        RawMoveGenerator::generate_sliding_moves(enemy_positions, friendly_positions, initial_position, &mut moves, Direction::South);
        RawMoveGenerator::generate_sliding_moves(enemy_positions, friendly_positions, initial_position, &mut moves, Direction::West);
        RawMoveGenerator::generate_sliding_moves(enemy_positions, friendly_positions, initial_position, &mut moves, Direction::East);
        moves
    }

    pub fn generate_bishop_moves(enemy_positions: u64, friendly_positions: u64, initial_position: u64) -> (r: u64)
        ensures
            r == bishop_moves_spec(enemy_positions, friendly_positions, initial_position),
    {
        let mut moves: u64 = 0;
        RawMoveGenerator::generate_sliding_moves(enemy_positions, friendly_positions, initial_position, &mut moves, Direction::NorthWest);
        RawMoveGenerator::generate_sliding_moves(enemy_positions, friendly_positions, initial_position, &mut moves, Direction::SouthWest);
        RawMoveGenerator::generate_sliding_moves(enemy_positions, friendly_positions, initial_position, &mut moves, Direction::SouthEast);
        RawMoveGenerator::generate_sliding_moves(enemy_positions, friendly_positions, initial_position, &mut moves, Direction::NorthEast);
        moves
    }

    pub fn generate_queen_moves(enemy_positions: u64, friendly_positions: u64, initial_position: u64) -> (r: u64)
        ensures
            r == bishop_moves_spec(enemy_positions, friendly_positions, initial_position)
                | rook_moves_spec(enemy_positions, friendly_positions, initial_position),
    {
        RawMoveGenerator::generate_bishop_moves(enemy_positions, friendly_positions, initial_position)
            | RawMoveGenerator::generate_rook_moves(enemy_positions, friendly_positions, initial_position)
    }

    pub fn generate_slider_moves(slider: Slider, enemy_positions: u64, friendly_positions: u64, initial_position: u64) -> (r: u64)
        ensures
            r == slider_moves_spec(slider, enemy_positions, friendly_positions, initial_position),
    {
        match slider {
            Slider::Rook => RawMoveGenerator::generate_rook_moves(enemy_positions, friendly_positions, initial_position),
            Slider::Bishop => RawMoveGenerator::generate_bishop_moves(enemy_positions, friendly_positions, initial_position),
            Slider::Queen => RawMoveGenerator::generate_queen_moves(enemy_positions, friendly_positions, initial_position),
        }
    }

    /// Every blocker pattern on the relevant squares of every square, with the moves a
    /// slider has from that square when the pattern holds the only pieces on the board.
    pub fn create_lookup_table(slider: Slider, relevant_squares: &[u64; 64]) -> (r: Vec<((u8, u64), u64)>)
        ensures
            forall|i: int| 0 <= i < r@.len() ==> #[trigger] table_entry_sound(slider, r@[i]),
            forall|i: int|
                0 <= i < r@.len() ==> (#[trigger] r@[i]).0.1 & !relevant_squares@[r@[i].0.0 as int] == 0,
            forall|sq: int, p: int|
                0 <= sq < 64 && 0 <= p < pow2(count_bits(slider_mask(slider, relevant_squares@[sq], sq), 64))
                    && count_bits(slider_mask(slider, relevant_squares@[sq], sq), 64) < 32
                    ==> r@.contains(#[trigger] pattern_entry(slider, relevant_squares@[sq], sq, p)),
            keys_unique(r@),
    {
        let mut lookup_table: Vec<((u8, u64), u64)> = Vec::new();
        let mut square: u64 = 0;
        while square < 64
            invariant
                square <= 64,
                forall|i: int| 0 <= i < lookup_table@.len() ==> #[trigger] table_entry_sound(slider, lookup_table@[i]),
                forall|i: int|
                    0 <= i < lookup_table@.len() ==> (#[trigger] lookup_table@[i]).0.1
                        & !relevant_squares@[lookup_table@[i].0.0 as int] == 0,
                forall|sq: int, p: int|
                    0 <= sq < square && 0 <= p < pow2(count_bits(slider_mask(slider, relevant_squares@[sq], sq), 64))
                        && count_bits(slider_mask(slider, relevant_squares@[sq], sq), 64) < 32
                        ==> lookup_table@.contains(#[trigger] pattern_entry(slider, relevant_squares@[sq], sq, p)),
                keys_unique(lookup_table@),
                forall|j: int| 0 <= j < lookup_table@.len() ==> (#[trigger] lookup_table@[j]).0.0 < square,
            decreases 64 - square,
        {
            let position = to_bitboard_position(square);
            let relevant = relevant_squares[square as usize];
            let moves_bb = RawMoveGenerator::generate_slider_moves(slider, 0, 0, position) & relevant;
            let blockers = RawMoveGenerator::get_blockers_bitboards(moves_bb);
            let ghost start = lookup_table@;
            let mut i: usize = 0;
            while i < blockers.len()
                invariant
                    square < 64,
                    i <= blockers@.len(),
                    position == 1u64 << square,
                    relevant == relevant_squares@[square as int],
                    forall|p: int| 0 <= p < blockers@.len() ==> blockers@[p] & !moves_bb == 0,
                    forall|p: int| 0 <= p < blockers@.len() ==> #[trigger] blockers@[p] == pattern_bb(squares_of(moves_bb), p as u64, squares_of(moves_bb).len()),
                    moves_bb == slider_moves_spec(slider, 0, 0, position) & relevant,
                    moves_bb == slider_mask(slider, relevant, square as int),
                    forall|j: int| 0 <= j < lookup_table@.len() ==> #[trigger] table_entry_sound(slider, lookup_table@[j]),
                    forall|j: int|
                        0 <= j < lookup_table@.len() ==> (#[trigger] lookup_table@[j]).0.1
                            & !relevant_squares@[lookup_table@[j].0.0 as int] == 0,
                    lookup_table@.len() >= start.len(),
                    forall|j: int| 0 <= j < start.len() ==> lookup_table@[j] == start[j],
                    forall|p: int| 0 <= p < i ==> lookup_table@.contains(#[trigger] pattern_entry(slider, relevant, square as int, p)),
                    count_bits(moves_bb, 64) < 32 ==> blockers@.len() == pow2(count_bits(moves_bb, 64)),
                    count_bits(moves_bb, 64) >= 32 ==> blockers@.len() == 0,
                    keys_unique(lookup_table@),
                    forall|j: int| 0 <= j < start.len() ==> (#[trigger] start[j]).0.0 < square,
                    lookup_table@.len() == start.len() + i,
                    forall|p: int| 0 <= p < i ==> (#[trigger] lookup_table@[start.len() + p]).0 == (square as u8, blockers@[p]),
                decreases blockers.len() - i,
            {
                let blocker_bb = blockers[i];
                let attacks = RawMoveGenerator::generate_slider_moves(slider, blocker_bb, 0, position);
                proof {
                    let m = slider_moves_spec(slider, 0, 0, position);
                    assert(blocker_bb & !(m & relevant) == 0 ==> blocker_bb & !relevant == 0) by (bit_vector);
                }
                let ghost before = lookup_table@;
                lookup_table.push(((square as u8, blocker_bb), attacks));
                proof {
                    let k = squares_of(moves_bb).len();
                    crate::bit_lemmas::lemma_count_squares(moves_bb, 64);
                    crate::bit_lemmas::lemma_squares_increasing(moves_bb, 0);
                    crate::bit_lemmas::lemma_squares_members(moves_bb, 0);
                    assert(count_bits(moves_bb, 64) == k);
                    assert forall|p: int| 0 <= p < i + 1 implies (#[trigger] lookup_table@[start.len() + p]).0 == (square as u8, blockers@[p]) by {
                        if p < i {
                            assert(lookup_table@[start.len() + p] == before[start.len() + p]);
                        }
                    }
                    assert forall|a: int, b: int| #![trigger lookup_table@[a], lookup_table@[b]]
                        0 <= a < b < lookup_table@.len() implies lookup_table@[a].0 != lookup_table@[b].0 by {
                        if b < before.len() {
                            assert(lookup_table@[a] == before[a]);
                            assert(lookup_table@[b] == before[b]);
                        } else if a < start.len() {
                            assert(lookup_table@[a] == start[a]);
                        } else {
                            let pa = a - start.len();
                            assert(lookup_table@[a] == before[a]);
                            assert(before[start.len() + pa].0 == (square as u8, blockers@[pa]));
                            lemma_patterns_differ(squares_of(moves_bb), pa as u64, i as u64, k);
                        }
                    }
                    assert(lookup_table@[before.len() as int] == pattern_entry(slider, relevant, square as int, i as int));
                    assert forall|p: int| 0 <= p < i + 1 implies lookup_table@.contains(#[trigger] pattern_entry(slider, relevant, square as int, p)) by {
                        if p < i {
                            assert(before.contains(pattern_entry(slider, relevant, square as int, p)));
                            let w = choose|w: int| 0 <= w < before.len() && before[w] == pattern_entry(slider, relevant, square as int, p);
                            assert(lookup_table@[w] == before[w]);
                        }
                    }
                }
                i = i + 1;
            }
            proof {
                assert forall|j: int| 0 <= j < lookup_table@.len() implies (#[trigger] lookup_table@[j]).0.0 < square + 1 by {
                    if j < start.len() {
                        assert(lookup_table@[j] == start[j]);
                    } else {
                        assert(lookup_table@[start.len() + (j - start.len())].0 == (square as u8, blockers@[j - start.len()]));
                    }
                }
                assert forall|sq: int, p: int|
                    0 <= sq < square + 1 && 0 <= p < pow2(count_bits(slider_mask(slider, relevant_squares@[sq], sq), 64))
                        && count_bits(slider_mask(slider, relevant_squares@[sq], sq), 64) < 32
                        implies lookup_table@.contains(#[trigger] pattern_entry(slider, relevant_squares@[sq], sq, p)) by {
                    if sq < square {
                        assert(start.contains(pattern_entry(slider, relevant_squares@[sq], sq, p)));
                        let w = choose|w: int| 0 <= w < start.len() && start[w] == pattern_entry(slider, relevant_squares@[sq], sq, p);
                        assert(lookup_table@[w] == start[w]);
                    }
                }
            }
            square = square + 1;
        }
        lookup_table
    }

    pub fn create_bishop_lookup_table() -> (r: Vec<((u8, u64), u64)>)
        ensures
            forall|i: int| 0 <= i < r@.len() ==> #[trigger] table_entry_sound(Slider::Bishop, r@[i]),
            forall|i: int|
                0 <= i < r@.len() ==> (#[trigger] r@[i]).0.1 & !BISHOP_RELEVANT_SQUARES@[r@[i].0.0 as int] == 0,
            forall|sq: int, p: int|
                0 <= sq < 64 && 0 <= p < pow2(count_bits(slider_mask(Slider::Bishop, BISHOP_RELEVANT_SQUARES@[sq], sq), 64))
                    && count_bits(slider_mask(Slider::Bishop, BISHOP_RELEVANT_SQUARES@[sq], sq), 64) < 32
                    ==> r@.contains(#[trigger] pattern_entry(Slider::Bishop, BISHOP_RELEVANT_SQUARES@[sq], sq, p)),
            keys_unique(r@),
    {
        RawMoveGenerator::create_lookup_table(Slider::Bishop, &BISHOP_RELEVANT_SQUARES)
    }

    pub fn create_rook_lookup_table() -> (r: Vec<((u8, u64), u64)>)
        ensures
            forall|i: int| 0 <= i < r@.len() ==> #[trigger] table_entry_sound(Slider::Rook, r@[i]),
            forall|i: int|
                0 <= i < r@.len() ==> (#[trigger] r@[i]).0.1 & !ROOK_RELEVANT_SQUARES@[r@[i].0.0 as int] == 0,
            forall|sq: int, p: int|
                0 <= sq < 64 && 0 <= p < pow2(count_bits(slider_mask(Slider::Rook, ROOK_RELEVANT_SQUARES@[sq], sq), 64))
                    && count_bits(slider_mask(Slider::Rook, ROOK_RELEVANT_SQUARES@[sq], sq), 64) < 32
                    ==> r@.contains(#[trigger] pattern_entry(Slider::Rook, ROOK_RELEVANT_SQUARES@[sq], sq, p)),
            keys_unique(r@),
    {
        RawMoveGenerator::create_lookup_table(Slider::Rook, &ROOK_RELEVANT_SQUARES)
    }

    /// The moves of a slider from every square of an empty board.
    pub fn pre_compute_slider_moves(slider: Slider) -> (r: [u64; 64])
        ensures
            forall|sq: int| 0 <= sq < 64 ==> #[trigger] r@[sq] == slider_moves_spec(slider, 0, 0, 1u64 << (sq as u64)),
    {
        let mut moves: [u64; 64] = [0u64; 64];
        let mut square: usize = 0;
        while square < 64
            invariant
                square <= 64,
                moves@.len() == 64,
                forall|sq: int| 0 <= sq < square ==> #[trigger] moves@[sq] == slider_moves_spec(slider, 0, 0, 1u64 << (sq as u64)),
            decreases 64 - square,
        {
            let position = to_bitboard_position(square as u64);
            moves[square] = RawMoveGenerator::generate_slider_moves(slider, 0, 0, position);
            square = square + 1;
        }
        moves
    }

    pub fn pre_compute_bishop_moves() -> (r: [u64; 64])
        ensures
            forall|sq: int| 0 <= sq < 64 ==> #[trigger] r@[sq] == bishop_moves_spec(0, 0, 1u64 << (sq as u64)),
    {
        RawMoveGenerator::pre_compute_slider_moves(Slider::Bishop)
    }

    pub fn pre_compute_queen_moves() -> (r: [u64; 64])
        ensures
            forall|sq: int| 0 <= sq < 64 ==> #[trigger] r@[sq] == bishop_moves_spec(0, 0, 1u64 << (sq as u64))
                | rook_moves_spec(0, 0, 1u64 << (sq as u64)),
    {
        RawMoveGenerator::pre_compute_slider_moves(Slider::Queen)
    }

    pub fn pre_compute_rook_moves() -> (r: [u64; 64])
        ensures
            forall|sq: int| 0 <= sq < 64 ==> #[trigger] r@[sq] == rook_moves_spec(0, 0, 1u64 << (sq as u64)),
    {
        RawMoveGenerator::pre_compute_slider_moves(Slider::Rook)
    }

    /// The squares next to `initial_position` in the eight directions, without friendly squares.
    pub fn generate_king_moves(friendly_positions: u64, initial_position: u64) -> (r: u64)
        ensures
            r == king_moves_spec(friendly_positions, initial_position),
    {
        (north_one(initial_position) | no_ea_one(initial_position) | east_one(initial_position)
            | so_ea_one(initial_position) | south_one(initial_position) | so_we_one(initial_position)
            | west_one(initial_position) | no_we_one(initial_position)) & !friendly_positions
    }

    /// Fills `moves_vec` with the king moves from every square of an empty board.
    pub fn pre_compute_king_moves(moves_vec: &mut [u64; 64])
        ensures
            forall|sq: int| 0 <= sq < 64 ==> #[trigger] final(moves_vec)@[sq] == king_moves_spec(0, 1u64 << (sq as u64)),
    {
        let mut square: usize = 0;
        while square < 64
            invariant
                square <= 64,
                moves_vec@.len() == 64,
                forall|sq: int| 0 <= sq < square ==> #[trigger] moves_vec@[sq] == king_moves_spec(0, 1u64 << (sq as u64)),
            decreases 64 - square,
        {
            let position = to_bitboard_position(square as u64);
            moves_vec[square] = RawMoveGenerator::generate_king_moves(0, position);
            square = square + 1;
        }
    }

    /// Adds to `*moves` the four knight jumps that go two ranks (or one rank) in the
    /// direction `north_or_south` from `initial_position`.
    pub fn get_knight_moves(initial_position: u64, moves: &mut u64, north_or_south: Direction)
        requires
            north_or_south == Direction::North || north_or_south == Direction::South,
        ensures
            *final(moves) == *old(moves) | knight_half_spec(north_or_south, initial_position),
    {
        let north_or_south_8 = north_or_south.step(initial_position);
        let a = west_one(west_one(north_or_south_8));
        let b = east_one(east_one(north_or_south_8));
        let north_16 = north_or_south.step(north_or_south_8);
        let c = west_one(north_16);
        let d = east_one(north_16);
        *moves = *moves | a;
        *moves = *moves | b;
        *moves = *moves | c;
        *moves = *moves | d;
        proof {
            let m0 = *old(moves);
            assert(((((m0 | a) | b) | c) | d) == m0 | (a | b | c | d)) by (bit_vector);
        }
    }

    /// Adds the knight moves from every square of an empty board to `moves_vec`.
    pub fn pre_compute_knight_moves(moves_vec: &mut [u64; 64])
        ensures
            forall|sq: int|
                0 <= sq < 64 ==> #[trigger] final(moves_vec)@[sq] == old(moves_vec)@[sq] | knight_half_spec(
                    Direction::North,
                    1u64 << (sq as u64),
                ) | knight_half_spec(Direction::South, 1u64 << (sq as u64)),
    {
        let mut square: usize = 0;
        while square < 64
            invariant
                square <= 64,
                moves_vec@.len() == 64,
                forall|sq: int|
                    0 <= sq < square ==> #[trigger] moves_vec@[sq] == old(moves_vec)@[sq] | knight_half_spec(
                        Direction::North,
                        1u64 << (sq as u64),
                    ) | knight_half_spec(Direction::South, 1u64 << (sq as u64)),
                forall|sq: int| square <= sq < 64 ==> #[trigger] moves_vec@[sq] == old(moves_vec)@[sq],
            decreases 64 - square,
        {
            let position = to_bitboard_position(square as u64);
            let mut m = moves_vec[square];
            RawMoveGenerator::get_knight_moves(position, &mut m, Direction::North);
            RawMoveGenerator::get_knight_moves(position, &mut m, Direction::South);
            moves_vec[square] = m;
            square = square + 1;
        }
    }

    /// Fills `moves_vec` with the union of one step east and one step west, from every square.
    pub fn pre_compute_pawn_attacks(moves_vec: &mut [u64; 64], ea_one: Direction, we_one: Direction)
        ensures
            forall|sq: int|
                0 <= sq < 64 ==> #[trigger] final(moves_vec)@[sq] == step_spec(we_one, 1u64 << (sq as u64))
                    | step_spec(ea_one, 1u64 << (sq as u64)),
    {
        let mut square: usize = 0;
        while square < 64
            invariant
                square <= 64,
                moves_vec@.len() == 64,
                forall|sq: int|
                    0 <= sq < square ==> #[trigger] moves_vec@[sq] == step_spec(we_one, 1u64 << (sq as u64))
                        | step_spec(ea_one, 1u64 << (sq as u64)),
            decreases 64 - square,
        {
            let position = to_bitboard_position(square as u64);
            moves_vec[square] = we_one.step(position) | ea_one.step(position);
            square = square + 1;
        }
    }

    /// Fills `moves_vec` with the pushes of a pawn from every square: one step forward,
    /// and two from the pawn's starting rank.
    pub fn pre_compute_pawn_moves(moves_vec: &mut [u64; 64], white: bool)
        ensures
            forall|sq: int| 0 <= sq < 64 ==> #[trigger] final(moves_vec)@[sq] == pawn_push_spec(white, 1u64 << (sq as u64)),
    {
        let offset = if white { Direction::North } else { Direction::South };
        let mut square: usize = 0;
        while square < 64
            invariant
                square <= 64,
                moves_vec@.len() == 64,
                offset == (if white { Direction::North } else { Direction::South }),
                forall|sq: int| 0 <= sq < square ==> #[trigger] moves_vec@[sq] == pawn_push_spec(white, 1u64 << (sq as u64)),
            decreases 64 - square,
        {
            let position = to_bitboard_position(square as u64);
            let mut m = offset.step(position);
            if is_pawn_in_initial_position(position, white) {
                m = m | offset.step(m);
            }
            moves_vec[square] = m;
            square = square + 1;
        }
    }

    /// For every square, the squares its rook moves can be blocked on.
    pub fn generate_rook_relevant_squares() -> (r: [u64; 64])
        ensures
            forall|sq: int, t: u64| 0 <= sq < 64 && t < 64 ==> (#[trigger] has_sq(r@[sq], t) <==> rook_relevant(sq, t as int)),
    {
        let mut masks: [u64; 64] = [0u64; 64];
        let mut square: usize = 0;
        proof {
            crate::bit_lemmas::lemma_has_sq_ops();
        }
        while square < 64
            invariant
                square <= 64,
                masks@.len() == 64,
                forall|sq: int, t: u64| 0 <= sq < square && t < 64 ==> (#[trigger] has_sq(masks@[sq], t) <==> rook_relevant(sq, t as int)),
                forall|a: u64, b: u64, s: u64| s < 64 ==> (#[trigger] has_sq(a | b, s) == (has_sq(a, s) || has_sq(b, s))),
                forall|t: u64, s: u64| s < 64 && t < 64 ==> (#[trigger] has_sq(1u64 << t, s) == (s == t)),
                forall|s: u64| s < 64 ==> !#[trigger] has_sq(0u64, s),
            decreases 64 - square,
        {
            let rank = square / 8;
            let file = square % 8;
            let mut mask: u64 = 0;
            let mut f: usize = 1;
            while f < 7
                invariant
                    square < 64,
                    rank == square / 8,
                    file == square % 8,
                    1 <= f <= 7,
                    forall|t: u64| t < 64 ==> (#[trigger] has_sq(mask, t) <==> (t / 8 == rank && 1 <= t % 8 < f && t % 8 != file)),
                    forall|a: u64, b: u64, s: u64| s < 64 ==> (#[trigger] has_sq(a | b, s) == (has_sq(a, s) || has_sq(b, s))),
                    forall|t: u64, s: u64| s < 64 && t < 64 ==> (#[trigger] has_sq(1u64 << t, s) == (s == t)),
                decreases 7 - f,
            {
                if f != file {
                    mask = mask | (1u64 << ((rank * 8 + f) as u64));
                }
                f = f + 1;
            }
            let mut r: usize = 1;
            while r < 7
                invariant
                    square < 64,
                    rank == square / 8,
                    file == square % 8,
                    1 <= r <= 7,
                    forall|t: u64| t < 64 ==> (#[trigger] has_sq(mask, t) <==> ((t / 8 == rank && 1 <= t % 8 <= 6 && t % 8 != file)
                        || (t % 8 == file && 1 <= t / 8 < r && t / 8 != rank))),
                    forall|a: u64, b: u64, s: u64| s < 64 ==> (#[trigger] has_sq(a | b, s) == (has_sq(a, s) || has_sq(b, s))),
                    forall|t: u64, s: u64| s < 64 && t < 64 ==> (#[trigger] has_sq(1u64 << t, s) == (s == t)),
                decreases 7 - r,
            {
                if r != rank {
                    mask = mask | (1u64 << ((r * 8 + file) as u64));
                }
                r = r + 1;
            }
            let ghost prev = masks@;
            masks[square] = mask;
            proof {
                assert forall|sq: int, t: u64| 0 <= sq < square + 1 && t < 64 implies (#[trigger] has_sq(masks@[sq], t) <==> rook_relevant(sq, t as int)) by {
                    if sq < square {
                        assert(masks@[sq] == prev[sq]);
                    }
                }
            }
            square = square + 1;
        }
        masks
    }

    /// For every square, the squares its bishop moves can be blocked on.
    pub fn generate_bishop_relevant_squares() -> (r: [u64; 64])
        ensures
            forall|sq: int, t: u64| 0 <= sq < 64 && t < 64 ==> (#[trigger] has_sq(r@[sq], t) <==> bishop_relevant(sq, t as int)),
    {
        let mut masks: [u64; 64] = [0u64; 64];
        let mut square: u8 = 0;
        proof {
            crate::bit_lemmas::lemma_has_sq_ops();
        }
        while square < 64
            invariant
                square <= 64,
                masks@.len() == 64,
                forall|sq: int, t: u64| 0 <= sq < square && t < 64 ==> (#[trigger] has_sq(masks@[sq], t) <==> bishop_relevant(sq, t as int)),
                    forall|a: u64, b: u64, s: u64| s < 64 ==> (#[trigger] has_sq(a | b, s) == (has_sq(a, s) || has_sq(b, s))),
                    forall|t: u64, s: u64| s < 64 && t < 64 ==> (#[trigger] has_sq(1u64 << t, s) == (s == t)),
                forall|s: u64| s < 64 ==> !#[trigger] has_sq(0u64, s),
            decreases 64 - square,
        {
            let rank: u8 = square / 8;
            let file: u8 = square % 8;
            let mut mask: u64 = 0;
            let mut r = rank;
            let mut f = file;
            while r > 1 && f > 1
                invariant
                    rank == square / 8,
                    file == square % 8,
                    square < 64,
                    r <= rank,
                    r - f == rank - file,
                    r < rank ==> r >= 1 && f >= 1,
                    forall|t: u64| t < 64 ==> (#[trigger] has_sq(mask, t) <==> (t / 8 - t % 8 == rank - file && r <= t / 8 < rank)),
                    forall|a: u64, b: u64, s: u64| s < 64 ==> (#[trigger] has_sq(a | b, s) == (has_sq(a, s) || has_sq(b, s))),
                    forall|t: u64, s: u64| s < 64 && t < 64 ==> (#[trigger] has_sq(1u64 << t, s) == (s == t)),
                decreases r,
            {
                r = r - 1;
                f = f - 1;
                mask = mask | (1u64 << ((r * 8 + f) as u64));
            }
            let ghost r1 = r;
            let ghost f1 = f;
            proof {
                assert forall|t: u64| t < 64 implies (#[trigger] has_sq(mask, t) <==> (t / 8 - t % 8 == rank - file && 1 <= t / 8 < rank && 1 <= t % 8)) by {
                }
            }
            r = rank;
            f = file;
            while r < 6 && f < 6
                invariant
                    rank == square / 8,
                    file == square % 8,
                    square < 64,
                    r >= rank,
                    r - f == rank - file,
                    r > rank ==> r <= 6 && f <= 6,
                    forall|t: u64| t < 64 ==> (#[trigger] has_sq(mask, t) <==> (t / 8 - t % 8 == rank - file && ((1 <= t / 8 < rank && 1 <= t % 8) || rank < t / 8 <= r))),
                    forall|a: u64, b: u64, s: u64| s < 64 ==> (#[trigger] has_sq(a | b, s) == (has_sq(a, s) || has_sq(b, s))),
                    forall|t: u64, s: u64| s < 64 && t < 64 ==> (#[trigger] has_sq(1u64 << t, s) == (s == t)),
                decreases 8 - r,
            {
                r = r + 1;
                f = f + 1;
                mask = mask | (1u64 << ((r * 8 + f) as u64));
            }
            proof {
                assert forall|t: u64| t < 64 implies (#[trigger] has_sq(mask, t) <==> (t / 8 - t % 8 == rank - file && t / 8 != rank && 1 <= t / 8 <= 6 && 1 <= t % 8 <= 6)) by {
                }
            }
            r = rank;
            f = file;
            while r > 1 && f < 6
                invariant
                    rank == square / 8,
                    file == square % 8,
                    square < 64,
                    r <= rank,
                    r + f == rank + file,
                    r < rank ==> r >= 1 && f <= 6,
                    forall|t: u64| t < 64 ==> (#[trigger] has_sq(mask, t) <==> ((t / 8 - t % 8 == rank - file && t / 8 != rank && 1 <= t / 8 <= 6 && 1 <= t % 8 <= 6)
                        || (t / 8 + t % 8 == rank + file && r <= t / 8 < rank))),
                    forall|a: u64, b: u64, s: u64| s < 64 ==> (#[trigger] has_sq(a | b, s) == (has_sq(a, s) || has_sq(b, s))),
                    forall|t: u64, s: u64| s < 64 && t < 64 ==> (#[trigger] has_sq(1u64 << t, s) == (s == t)),
                decreases r,
            {
                r = r - 1;
                f = f + 1;
                mask = mask | (1u64 << ((r * 8 + f) as u64));
            }
            proof {
                assert forall|t: u64| t < 64 implies (#[trigger] has_sq(mask, t) <==> ((t / 8 - t % 8 == rank - file && t / 8 != rank && 1 <= t / 8 <= 6 && 1 <= t % 8 <= 6)
                    || (t / 8 + t % 8 == rank + file && 1 <= t / 8 < rank && t % 8 <= 6))) by {
                }
            }
            r = rank;
            f = file;
            while r < 6 && f > 1
                invariant
                    rank == square / 8,
                    file == square % 8,
                    square < 64,
                    r >= rank,
                    r + f == rank + file,
                    r > rank ==> r <= 6 && f >= 1,
                    forall|t: u64| t < 64 ==> (#[trigger] has_sq(mask, t) <==> ((t / 8 - t % 8 == rank - file && t / 8 != rank && 1 <= t / 8 <= 6 && 1 <= t % 8 <= 6)
                        || (t / 8 + t % 8 == rank + file && ((1 <= t / 8 < rank && t % 8 <= 6) || rank < t / 8 <= r)))),
                    forall|a: u64, b: u64, s: u64| s < 64 ==> (#[trigger] has_sq(a | b, s) == (has_sq(a, s) || has_sq(b, s))),
                    forall|t: u64, s: u64| s < 64 && t < 64 ==> (#[trigger] has_sq(1u64 << t, s) == (s == t)),
                decreases 8 - r,
            {
                r = r + 1;
                f = f - 1;
                mask = mask | (1u64 << ((r * 8 + f) as u64));
            }
            let ghost prev = masks@;
            masks[square as usize] = mask;
            proof {
                assert forall|sq: int, t: u64| 0 <= sq < square + 1 && t < 64 implies (#[trigger] has_sq(masks@[sq], t) <==> bishop_relevant(sq, t as int)) by {
                    if sq < square {
                        assert(masks@[sq] == prev[sq]);
                    }
                }
            }
            square = square + 1;
        }
        masks
    }
}

} // verus!
