use vstd::prelude::*;

use crate::bitwise_utils::{has_sq, is_lsb, step_spec, sub1, Direction, NOT_A_FILE, NOT_H_FILE};
use crate::move_generator::raw_move_generator::pow2;

verus! {

/// Testing bit `i` by shifting agrees with testing it by masking.
pub proof fn lemma_shift_and_one(x: u64, i: u64)
    requires
        i < 64,
    ensures
        (((x >> i) & 1) == 1) == has_sq(x, i),
        ((x >> i) & 1) <= 1,
{
    assert(i < 64 ==> ((((x >> i) & 1) == 1) == (x & (1u64 << i) != 0)) && ((x >> i) & 1) <= 1)
        by (bit_vector);
}

/// `1 << n` is the n-th power of two.
pub proof fn lemma_pow2_fits(n: nat)
    requires
        n < 64,
    ensures
        (1u64 << (n as u64)) == pow2(n),
    decreases n,
{
    if n == 0 {
        assert((1u64 << 0u64) == 1) by (bit_vector);
    } else {
        lemma_pow2_fits((n - 1) as nat);
        let m = (n - 1) as u64;
        assert(m < 63 ==> (1u64 << ((m + 1) as u64)) == 2 * (1u64 << m)) by (bit_vector);
    }
}

/// Adding a square of `mask` (or nothing) to a subset of `mask` keeps it a subset.
pub proof fn lemma_add_square_subset(pattern: u64, pattern_i: u64, bit_i: u64, idx: u64, mask: u64)
    requires
        pattern & !mask == 0,
        idx < 64,
        bit_i < 64,
        has_sq(mask, idx),
    ensures
        (pattern | (((pattern_i >> bit_i) & 1) << idx)) & !mask == 0,
{
    assert(pattern & !mask == 0 && idx < 64 && mask & (1u64 << idx) != 0 ==> (pattern | (((
    pattern_i >> bit_i) & 1) << idx)) & !mask == 0) by (bit_vector);
}

/// Identities of and, or and xor with zero and with themselves.
pub proof fn lemma_bit_identities()
    by (bit_vector)
    ensures
        forall|x: u64| #[trigger] (0u64 & x) == 0u64,
        forall|x: u64| #[trigger] (x & 0u64) == 0u64,
        forall|x: u64| #[trigger] (x | 0u64) == x,
        forall|x: u64| #[trigger] (0u64 | x) == x,
        forall|x: u64| #[trigger] (x ^ 0u64) == x,
        forall|x: u64| #[trigger] (0u64 ^ x) == x,
        forall|x: u64| #[trigger] (x ^ x) == 0u64,
        forall|x: u64| #[trigger] (x & x) == x,
        forall|x: u64| #[trigger] (x | x) == x,
{
}

/// Square membership distributes over the bitwise operators.
pub proof fn lemma_has_sq_ops()
    by (bit_vector)
    ensures
        forall|a: u64, b: u64, s: u64|
            s < 64 ==> (#[trigger] has_sq(a & b, s) == (has_sq(a, s) && has_sq(b, s))),
        forall|a: u64, b: u64, s: u64|
            s < 64 ==> (#[trigger] has_sq(a | b, s) == (has_sq(a, s) || has_sq(b, s))),
        forall|a: u64, b: u64, s: u64|
            s < 64 ==> (#[trigger] has_sq(a ^ b, s) == (has_sq(a, s) != has_sq(b, s))),
        forall|a: u64, s: u64| s < 64 ==> (#[trigger] has_sq(!a, s) == !has_sq(a, s)),
        forall|t: u64, s: u64| s < 64 && t < 64 ==> (#[trigger] has_sq(1u64 << t, s) == (s == t)),
        forall|s: u64| s < 64 ==> !#[trigger] has_sq(0u64, s),
        forall|s: u64| s < 64 ==> #[trigger] has_sq(0xffff_ffff_ffff_ffffu64, s),
{
}

/// The lowest square of `x` is set, and no square below it is.
pub proof fn lemma_lsb_squares(x: u64, k: u64)
    requires
        is_lsb(x, k),
    ensures
        has_sq(x, k),
        forall|j: u64| j < k ==> !#[trigger] has_sq(x, j),
{
    assert forall|j: u64| j < k implies !#[trigger] has_sq(x, j) by {
        assert(k < 64 && j < k && x & sub1(1u64 << k) == 0 ==> x & (1u64 << j) == 0)
            by (bit_vector);
    }
}

/// The set squares of `x` from `i` on, in increasing order.
/// `|` is associative.
pub proof fn lemma_or_assoc(a: u64, b: u64, c: u64)
    ensures
        (a | b) | c == a | (b | c),
{
    assert((a | b) | c == a | (b | c)) by (bit_vector);
}

/// Distinct squares have distinct bitboards.
pub proof fn lemma_shift_injective(a: u64, b: u64)
    requires
        a < 64,
        b < 64,
        (1u64 << a) == (1u64 << b),
    ensures
        a == b,
{
    assert(a < 64 && b < 64 && (1u64 << a) == (1u64 << b) ==> a == b) by (bit_vector);
}

/// Two steps west of the king's square that both meet `allowed` are the squares
/// one and two files to the west.
pub proof fn lemma_two_steps_west(f: u64, allowed: u64)
    by (bit_vector)
    requires
        f < 64,
        (((1u64 << f) >> 1u64) & 0x7f7f7f7f7f7f7f7fu64) & allowed != 0,
        (((((1u64 << f) >> 1u64) & 0x7f7f7f7f7f7f7f7fu64) >> 1u64) & 0x7f7f7f7f7f7f7f7fu64) & allowed != 0,
    ensures
        f % 8 >= 2,
        ((((1u64 << f) >> 1u64) & 0x7f7f7f7f7f7f7f7fu64) >> 1u64) & 0x7f7f7f7f7f7f7f7fu64 == 1u64 << ((f - 2) as u64),
        allowed & (1u64 << ((f - 1) as u64)) != 0,
        allowed & (1u64 << ((f - 2) as u64)) != 0,
{
}

/// Two steps east of the king's square that both meet `allowed` are the squares
/// one and two files to the east.
pub proof fn lemma_two_steps_east(f: u64, allowed: u64)
    by (bit_vector)
    requires
        f < 64,
        (((1u64 << f) << 1u64) & 0xfefefefefefefefeu64) & allowed != 0,
        (((((1u64 << f) << 1u64) & 0xfefefefefefefefeu64) << 1u64) & 0xfefefefefefefefeu64) & allowed != 0,
    ensures
        f % 8 <= 5,
        f + 2 < 64,
        ((((1u64 << f) << 1u64) & 0xfefefefefefefefeu64) << 1u64) & 0xfefefefefefefefeu64 == 1u64 << ((f + 2) as u64),
        allowed & (1u64 << ((f + 1) as u64)) != 0,
        allowed & (1u64 << ((f + 2) as u64)) != 0,
{
}

/// When the two squares west of the king's square are on its rank and in `allowed`,
/// the two steps west meet `allowed`.
pub proof fn lemma_two_steps_west_back(f: u64, allowed: u64)
    by (bit_vector)
    requires
        f < 64,
        f % 8 >= 2,
        allowed & (1u64 << ((f - 1) as u64)) != 0,
        allowed & (1u64 << ((f - 2) as u64)) != 0,
    ensures
        (((1u64 << f) >> 1u64) & 0x7f7f7f7f7f7f7f7fu64) & allowed != 0,
        (((((1u64 << f) >> 1u64) & 0x7f7f7f7f7f7f7f7fu64) >> 1u64) & 0x7f7f7f7f7f7f7f7fu64) & allowed != 0,
{
}

/// When the two squares east of the king's square are on its rank and in `allowed`,
/// the two steps east meet `allowed`.
pub proof fn lemma_two_steps_east_back(f: u64, allowed: u64)
    by (bit_vector)
    requires
        f < 64,
        f % 8 <= 5,
        allowed & (1u64 << ((f + 1) as u64)) != 0,
        allowed & (1u64 << ((f + 2) as u64)) != 0,
    ensures
        (((1u64 << f) << 1u64) & 0xfefefefefefefefeu64) & allowed != 0,
        (((((1u64 << f) << 1u64) & 0xfefefefefefefefeu64) << 1u64) & 0xfefefefefefefefeu64) & allowed != 0,
{
}

/// Keeping part of a bitboard of at most one square keeps at most one.
pub proof fn lemma_single_and(x: u64, m: u64)
    requires
        single(x),
    ensures
        single(x & m),
{
    assert(x & sub1(x) == 0 ==> (x & m) & sub1(x & m) == 0) by (bit_vector);
}

/// A square of a bitboard of at most one square is its lowest square.
pub proof fn lemma_single_square(x: u64, k: u64, y: u64)
    requires
        single(x),
        is_lsb(x, k),
        y < 64,
        has_sq(x, y),
    ensures
        y == k,
{
    lemma_single_lsb(x, k);
    lemma_has_sq_ops();
}

/// A bitboard has one lowest square.
pub proof fn lemma_lsb_unique(x: u64, a: u64, b: u64)
    requires
        is_lsb(x, a),
        is_lsb(x, b),
    ensures
        a == b,
{
    lemma_lsb_squares(x, a);
    lemma_lsb_squares(x, b);
}

pub open spec fn squares_from(x: u64, i: nat) -> Seq<u64>
    decreases 64 - i,
{
    if i >= 64 {
        Seq::<u64>::empty()
    } else if has_sq(x, i as u64) {
        seq![i as u64] + squares_from(x, i + 1)
    } else {
        squares_from(x, i + 1)
    }
}

/// The set squares of `x` in increasing order.
pub open spec fn squares_of(x: u64) -> Seq<u64> {
    squares_from(x, 0)
}

proof fn lemma_squares_skip(x: u64, j: nat, k: nat)
    requires
        j <= k <= 64,
        forall|s: u64| j <= s < k ==> !#[trigger] has_sq(x, s),
    ensures
        squares_from(x, j) == squares_from(x, k),
    decreases k - j,
{
    if j < k {
        assert(!has_sq(x, j as u64));
        lemma_squares_skip(x, j + 1, k);
    }
}

proof fn lemma_squares_agree(x: u64, y: u64, j: nat)
    requires
        j <= 64,
        forall|s: u64| j <= s < 64 ==> #[trigger] has_sq(x, s) == has_sq(y, s),
    ensures
        squares_from(x, j) == squares_from(y, j),
    decreases 64 - j,
{
    if j < 64 {
        assert(has_sq(x, j as u64) == has_sq(y, j as u64));
        lemma_squares_agree(x, y, j + 1);
    }
}

/// Popping the lowest square takes the head of the square list.
pub proof fn lemma_squares_pop(x: u64, k: u64)
    requires
        is_lsb(x, k),
    ensures
        squares_of(x) == seq![k] + squares_of(x & !(1u64 << k)),
        squares_of(x).len() > 0,
{
    lemma_has_sq_ops();
    lemma_lsb_squares(x, k);
    let y = x & !(1u64 << k);
    lemma_squares_skip(x, 0, k as nat);
    assert(forall|s: u64| s < 64 ==> #[trigger] has_sq(y, s) == (has_sq(x, s) && s != k));
    lemma_squares_agree(y, x, (k + 1) as nat);
    lemma_squares_skip(y, 0, (k + 1) as nat);
}

/// An empty bitboard has no squares.
pub proof fn lemma_squares_empty()
    ensures
        squares_of(0u64) == Seq::<u64>::empty(),
{
    lemma_has_sq_ops();
    lemma_squares_skip(0u64, 0, 64);
}

/// Every listed square is a set square below 64, and every set square is listed.
pub proof fn lemma_squares_members(x: u64, i: nat)
    requires
        i <= 64,
    ensures
        forall|j: int| 0 <= j < squares_from(x, i).len() ==> i <= #[trigger] squares_from(x, i)[j] < 64
            && has_sq(x, squares_from(x, i)[j]),
        forall|s: u64| i <= s < 64 && has_sq(x, s) ==> squares_from(x, i).contains(s),
    decreases 64 - i,
{
    if i < 64 {
        lemma_squares_members(x, i + 1);
        let rest = squares_from(x, i + 1);
        if has_sq(x, i as u64) {
            let all = seq![i as u64] + rest;
            assert forall|s: u64| i <= s < 64 && has_sq(x, s) implies all.contains(s) by {
                if s == i {
                    assert(all[0] == s);
                } else {
                    assert(rest.contains(s));
                    let j = choose|j: int| 0 <= j < rest.len() && rest[j] == s;
                    assert(all[j + 1] == s);
                }
            }
        }
    }
}

/// The listed squares come in strictly increasing order.
pub proof fn lemma_squares_increasing(x: u64, i: nat)
    requires
        i <= 64,
    ensures
        forall|a: int, b: int|
            0 <= a < b < squares_from(x, i).len() ==> #[trigger] squares_from(x, i)[a] < #[trigger] squares_from(x, i)[b],
    decreases 64 - i,
{
    if i < 64 {
        lemma_squares_increasing(x, i + 1);
        lemma_squares_members(x, i + 1);
        let rest = squares_from(x, i + 1);
        if has_sq(x, i as u64) {
            let all = seq![i as u64] + rest;
            assert forall|a: int, b: int| 0 <= a < b < all.len() implies #[trigger] all[a] < #[trigger] all[b] by {
                if a == 0 {
                    assert(all[b] == rest[b - 1]);
                } else {
                    assert(all[a] == rest[a - 1]);
                    assert(all[b] == rest[b - 1]);
                }
            }
        }
    }
}

/// Facts of shifts and exclusive or on bitboards: a bit shifted onto a square sets that
/// square alone; a number below `1 << k` has no square from `k` on; numbers whose
/// exclusive or is zero are equal; a square shifted by a rank moves eight squares.
pub proof fn lemma_bit_facts()
    by (bit_vector)
    ensures
        forall|b: u64, s: u64, t: u64|
            #![trigger (b << s) & (1u64 << t)]
            b <= 1 && s < 64 && t < 64 ==> ((((b << s) & (1u64 << t)) != 0) == (b == 1 && s == t)),
        forall|p: u64, k: u64, j: u64|
            #![trigger p & (1u64 << j), 1u64 << k]
            k <= j && j < 64 && p < (1u64 << k) ==> (p & (1u64 << j)) == 0,
        forall|p: u64, q: u64| #[trigger] (p ^ q) == 0 ==> p == q,
        forall|k: u64| #![trigger (1u64 << k) << 8u64] k < 56 ==> ((1u64 << k) << 8u64) == (1u64 << ((k + 8) as u64)),
        forall|k: u64| #![trigger (1u64 << k) >> 8u64] 8 <= k && k < 64 ==> ((1u64 << k) >> 8u64) == (1u64 << ((k - 8) as u64)),
{
}

/// Regrouping, swapping and cancelling terms of an exclusive or.
pub proof fn lemma_xor_facts(h: u64, a: u64, b: u64, c: u64)
    by (bit_vector)
    ensures
        (h ^ a) ^ (b ^ c) == (h ^ b) ^ (a ^ c),
        (h ^ a) ^ b == h ^ (a ^ b),
        ((h ^ a) ^ b) ^ c == h ^ ((a ^ 0) ^ (b ^ c)),
        (h ^ a) ^ c == h ^ ((a ^ 0) ^ (0 ^ c)),
        a ^ b == b ^ a,
        a ^ 0 == a,
        0 ^ a == a,
        a ^ a == 0,
{
}

/// A bit of at most one, shifted onto a square, sets that square alone.
pub proof fn lemma_bit_at(b: u64, s: u64, t: u64)
    requires
        b <= 1,
        s < 64,
        t < 64,
    ensures
        has_sq(b << s, t) == (b == 1 && s == t),
{
    lemma_bit_facts();
}

/// Bitboards with the same squares are equal.
pub proof fn lemma_same_squares(p: u64, q: u64)
    requires
        forall|j: u64| j < 64 ==> #[trigger] has_sq(p, j) == has_sq(q, j),
    ensures
        p == q,
{
    lemma_has_sq_ops();
    assert forall|s: u64| s < 64 implies !#[trigger] has_sq(p ^ q, s) by {
        assert(has_sq(p, s) == has_sq(q, s));
    }
    lemma_no_square_empty(p ^ q);
    lemma_bit_facts();
}

/// A number below `1 << k` has no square from `k` on.
pub proof fn lemma_below_power(p: u64, k: u64, j: u64)
    requires
        k <= j < 64,
        p < (1u64 << k),
    ensures
        !has_sq(p, j),
{
    lemma_bit_facts();
}

/// The squares below `n` and the listed squares from `n` on are all the squares.
pub proof fn lemma_count_squares(x: u64, n: nat)
    requires
        n <= 64,
    ensures
        crate::move_generator::raw_move_generator::count_bits(x, n) + squares_from(x, n).len() == squares_of(x).len(),
    decreases n,
{
    if n > 0 {
        lemma_count_squares(x, (n - 1) as nat);
    }
}

/// At most one square is set.
pub open spec fn single(x: u64) -> bool {
    x & sub1(x) == 0
}

/// Adding the lowest square of a subset of `o` to a subset of `o` stays inside `o`,
/// and so does what is left of the subset.
pub proof fn lemma_add_lsb_subset(a: u64, x: u64, o: u64, k: u64)
    requires
        a & !o == 0,
        x & !o == 0,
        is_lsb(x, k),
    ensures
        (a | (1u64 << k)) & !o == 0,
        (x & !(1u64 << k)) & !o == 0,
        (a | (1u64 << k)) != 0,
        has_sq(o, k),
{
    assert(a & !o == 0 && x & !o == 0 && k < 64 && x & (1u64 << k) != 0 ==> (a | (1u64 << k)) & !o
        == 0 && (x & !(1u64 << k)) & !o == 0 && (a | (1u64 << k)) != 0 && o & (1u64 << k) != 0)
        by (bit_vector);
}

/// A step keeps a bitboard of at most one square so.
pub proof fn lemma_step_single(dir: Direction, x: u64)
    requires
        single(x),
    ensures
        single(step_spec(dir, x)),
{
    let m1 = NOT_A_FILE;
    let m2 = NOT_H_FILE;
    assert(x & sub1(x) == 0 ==> {
        &&& ((x << 1u64) & m1) & sub1((x << 1u64) & m1) == 0
        &&& ((x << 9u64) & m1) & sub1((x << 9u64) & m1) == 0
        &&& ((x >> 7u64) & m1) & sub1((x >> 7u64) & m1) == 0
        &&& ((x >> 1u64) & m2) & sub1((x >> 1u64) & m2) == 0
        &&& ((x >> 9u64) & m2) & sub1((x >> 9u64) & m2) == 0
        &&& ((x << 7u64) & m2) & sub1((x << 7u64) & m2) == 0
        &&& (x >> 8u64) & sub1(x >> 8u64) == 0
        &&& (x << 8u64) & sub1(x << 8u64) == 0
    }) by (bit_vector);
}

/// Keeping part of a bitboard of at most one square keeps all of it or nothing.
pub proof fn lemma_single_kept(x: u64, m: u64)
    requires
        single(x),
    ensures
        x & m == 0 || x & m == x,
{
    assert(x & sub1(x) == 0 ==> (x & m == 0 || x & m == x)) by (bit_vector);
}

/// A step of the empty bitboard is empty.
pub proof fn lemma_step_empty(dir: Direction)
    ensures
        step_spec(dir, 0) == 0,
{
    assert((0u64 << 1u64) & NOT_A_FILE == 0 && (0u64 << 9u64) & NOT_A_FILE == 0 && (0u64 >> 7u64) & NOT_A_FILE == 0
        && (0u64 >> 1u64) & NOT_H_FILE == 0 && (0u64 >> 9u64) & NOT_H_FILE == 0 && (0u64 << 7u64) & NOT_H_FILE == 0
        && 0u64 >> 8u64 == 0 && 0u64 << 8u64 == 0) by (bit_vector);
}

/// A single square is the bitboard of its lowest square.
pub proof fn lemma_single_lsb(x: u64, k: u64)
    requires
        single(x),
        is_lsb(x, k),
    ensures
        x == 1u64 << k,
{
    assert(k < 64 && x & sub1(x) == 0 && x & (1u64 << k) != 0 && x & sub1(1u64 << k) == 0 ==> x
        == 1u64 << k) by (bit_vector);
}

/// The bitboard of one square is single.
pub proof fn lemma_square_single(k: u64)
    requires
        k < 64,
    ensures
        single(1u64 << k),
        (1u64 << k) != 0,
{
    assert(k < 64 ==> (1u64 << k) & sub1(1u64 << k) == 0 && (1u64 << k) != 0) by (bit_vector);
}

/// A non-empty bitboard has a square; an empty one has none.
pub proof fn lemma_nonzero_has_square(z: u64)
    ensures
        z != 0 <==> exists|s: u64| s < 64 && #[trigger] has_sq(z, s),
{
    lemma_has_sq_ops();
    if z != 0 {
        assert(z != 0 ==> z & (1u64 << 0u64) != 0 || z & (1u64 << 1u64) != 0 || z & (1u64 << 2u64) != 0 || z & (1u64 << 3u64) != 0 || z & (1u64 << 4u64) != 0 || z & (1u64 << 5u64) != 0 || z & (1u64 << 6u64) != 0 || z & (1u64 << 7u64) != 0 || z & (1u64 << 8u64) != 0 || z & (1u64 << 9u64) != 0 || z & (1u64 << 10u64) != 0 || z & (1u64 << 11u64) != 0 || z & (1u64 << 12u64) != 0 || z & (1u64 << 13u64) != 0 || z & (1u64 << 14u64) != 0 || z & (1u64 << 15u64) != 0 || z & (1u64 << 16u64) != 0 || z & (1u64 << 17u64) != 0 || z & (1u64 << 18u64) != 0 || z & (1u64 << 19u64) != 0 || z & (1u64 << 20u64) != 0 || z & (1u64 << 21u64) != 0 || z & (1u64 << 22u64) != 0 || z & (1u64 << 23u64) != 0 || z & (1u64 << 24u64) != 0 || z & (1u64 << 25u64) != 0 || z & (1u64 << 26u64) != 0 || z & (1u64 << 27u64) != 0 || z & (1u64 << 28u64) != 0 || z & (1u64 << 29u64) != 0 || z & (1u64 << 30u64) != 0 || z & (1u64 << 31u64) != 0 || z & (1u64 << 32u64) != 0 || z & (1u64 << 33u64) != 0 || z & (1u64 << 34u64) != 0 || z & (1u64 << 35u64) != 0 || z & (1u64 << 36u64) != 0 || z & (1u64 << 37u64) != 0 || z & (1u64 << 38u64) != 0 || z & (1u64 << 39u64) != 0 || z & (1u64 << 40u64) != 0 || z & (1u64 << 41u64) != 0 || z & (1u64 << 42u64) != 0 || z & (1u64 << 43u64) != 0 || z & (1u64 << 44u64) != 0 || z & (1u64 << 45u64) != 0 || z & (1u64 << 46u64) != 0 || z & (1u64 << 47u64) != 0 || z & (1u64 << 48u64) != 0 || z & (1u64 << 49u64) != 0 || z & (1u64 << 50u64) != 0 || z & (1u64 << 51u64) != 0 || z & (1u64 << 52u64) != 0 || z & (1u64 << 53u64) != 0 || z & (1u64 << 54u64) != 0 || z & (1u64 << 55u64) != 0 || z & (1u64 << 56u64) != 0 || z & (1u64 << 57u64) != 0 || z & (1u64 << 58u64) != 0 || z & (1u64 << 59u64) != 0 || z & (1u64 << 60u64) != 0 || z & (1u64 << 61u64) != 0 || z & (1u64 << 62u64) != 0 || z & (1u64 << 63u64) != 0) by (bit_vector);
        let ghost w = choose|s: u64| s < 64 && z & (1u64 << s) != 0;
        assert(exists|s: u64| s < 64 && z & (1u64 << s) != 0) by {
            if z & (1u64 << 0u64) != 0 { assert(0u64 < 64 && z & (1u64 << 0u64) != 0); }
            if z & (1u64 << 1u64) != 0 { assert(1u64 < 64 && z & (1u64 << 1u64) != 0); }
            if z & (1u64 << 2u64) != 0 { assert(2u64 < 64 && z & (1u64 << 2u64) != 0); }
            if z & (1u64 << 3u64) != 0 { assert(3u64 < 64 && z & (1u64 << 3u64) != 0); }
            if z & (1u64 << 4u64) != 0 { assert(4u64 < 64 && z & (1u64 << 4u64) != 0); }
            if z & (1u64 << 5u64) != 0 { assert(5u64 < 64 && z & (1u64 << 5u64) != 0); }
            if z & (1u64 << 6u64) != 0 { assert(6u64 < 64 && z & (1u64 << 6u64) != 0); }
            if z & (1u64 << 7u64) != 0 { assert(7u64 < 64 && z & (1u64 << 7u64) != 0); }
            if z & (1u64 << 8u64) != 0 { assert(8u64 < 64 && z & (1u64 << 8u64) != 0); }
            if z & (1u64 << 9u64) != 0 { assert(9u64 < 64 && z & (1u64 << 9u64) != 0); }
            if z & (1u64 << 10u64) != 0 { assert(10u64 < 64 && z & (1u64 << 10u64) != 0); }
            if z & (1u64 << 11u64) != 0 { assert(11u64 < 64 && z & (1u64 << 11u64) != 0); }
            if z & (1u64 << 12u64) != 0 { assert(12u64 < 64 && z & (1u64 << 12u64) != 0); }
            if z & (1u64 << 13u64) != 0 { assert(13u64 < 64 && z & (1u64 << 13u64) != 0); }
            if z & (1u64 << 14u64) != 0 { assert(14u64 < 64 && z & (1u64 << 14u64) != 0); }
            if z & (1u64 << 15u64) != 0 { assert(15u64 < 64 && z & (1u64 << 15u64) != 0); }
            if z & (1u64 << 16u64) != 0 { assert(16u64 < 64 && z & (1u64 << 16u64) != 0); }
            if z & (1u64 << 17u64) != 0 { assert(17u64 < 64 && z & (1u64 << 17u64) != 0); }
            if z & (1u64 << 18u64) != 0 { assert(18u64 < 64 && z & (1u64 << 18u64) != 0); }
            if z & (1u64 << 19u64) != 0 { assert(19u64 < 64 && z & (1u64 << 19u64) != 0); }
            if z & (1u64 << 20u64) != 0 { assert(20u64 < 64 && z & (1u64 << 20u64) != 0); }
            if z & (1u64 << 21u64) != 0 { assert(21u64 < 64 && z & (1u64 << 21u64) != 0); }
            if z & (1u64 << 22u64) != 0 { assert(22u64 < 64 && z & (1u64 << 22u64) != 0); }
            if z & (1u64 << 23u64) != 0 { assert(23u64 < 64 && z & (1u64 << 23u64) != 0); }
            if z & (1u64 << 24u64) != 0 { assert(24u64 < 64 && z & (1u64 << 24u64) != 0); }
            if z & (1u64 << 25u64) != 0 { assert(25u64 < 64 && z & (1u64 << 25u64) != 0); }
            if z & (1u64 << 26u64) != 0 { assert(26u64 < 64 && z & (1u64 << 26u64) != 0); }
            if z & (1u64 << 27u64) != 0 { assert(27u64 < 64 && z & (1u64 << 27u64) != 0); }
            if z & (1u64 << 28u64) != 0 { assert(28u64 < 64 && z & (1u64 << 28u64) != 0); }
            if z & (1u64 << 29u64) != 0 { assert(29u64 < 64 && z & (1u64 << 29u64) != 0); }
            if z & (1u64 << 30u64) != 0 { assert(30u64 < 64 && z & (1u64 << 30u64) != 0); }
            if z & (1u64 << 31u64) != 0 { assert(31u64 < 64 && z & (1u64 << 31u64) != 0); }
            if z & (1u64 << 32u64) != 0 { assert(32u64 < 64 && z & (1u64 << 32u64) != 0); }
            if z & (1u64 << 33u64) != 0 { assert(33u64 < 64 && z & (1u64 << 33u64) != 0); }
            if z & (1u64 << 34u64) != 0 { assert(34u64 < 64 && z & (1u64 << 34u64) != 0); }
            if z & (1u64 << 35u64) != 0 { assert(35u64 < 64 && z & (1u64 << 35u64) != 0); }
            if z & (1u64 << 36u64) != 0 { assert(36u64 < 64 && z & (1u64 << 36u64) != 0); }
            if z & (1u64 << 37u64) != 0 { assert(37u64 < 64 && z & (1u64 << 37u64) != 0); }
            if z & (1u64 << 38u64) != 0 { assert(38u64 < 64 && z & (1u64 << 38u64) != 0); }
            if z & (1u64 << 39u64) != 0 { assert(39u64 < 64 && z & (1u64 << 39u64) != 0); }
            if z & (1u64 << 40u64) != 0 { assert(40u64 < 64 && z & (1u64 << 40u64) != 0); }
            if z & (1u64 << 41u64) != 0 { assert(41u64 < 64 && z & (1u64 << 41u64) != 0); }
            if z & (1u64 << 42u64) != 0 { assert(42u64 < 64 && z & (1u64 << 42u64) != 0); }
            if z & (1u64 << 43u64) != 0 { assert(43u64 < 64 && z & (1u64 << 43u64) != 0); }
            if z & (1u64 << 44u64) != 0 { assert(44u64 < 64 && z & (1u64 << 44u64) != 0); }
            if z & (1u64 << 45u64) != 0 { assert(45u64 < 64 && z & (1u64 << 45u64) != 0); }
            if z & (1u64 << 46u64) != 0 { assert(46u64 < 64 && z & (1u64 << 46u64) != 0); }
            if z & (1u64 << 47u64) != 0 { assert(47u64 < 64 && z & (1u64 << 47u64) != 0); }
            if z & (1u64 << 48u64) != 0 { assert(48u64 < 64 && z & (1u64 << 48u64) != 0); }
            if z & (1u64 << 49u64) != 0 { assert(49u64 < 64 && z & (1u64 << 49u64) != 0); }
            if z & (1u64 << 50u64) != 0 { assert(50u64 < 64 && z & (1u64 << 50u64) != 0); }
            if z & (1u64 << 51u64) != 0 { assert(51u64 < 64 && z & (1u64 << 51u64) != 0); }
            if z & (1u64 << 52u64) != 0 { assert(52u64 < 64 && z & (1u64 << 52u64) != 0); }
            if z & (1u64 << 53u64) != 0 { assert(53u64 < 64 && z & (1u64 << 53u64) != 0); }
            if z & (1u64 << 54u64) != 0 { assert(54u64 < 64 && z & (1u64 << 54u64) != 0); }
            if z & (1u64 << 55u64) != 0 { assert(55u64 < 64 && z & (1u64 << 55u64) != 0); }
            if z & (1u64 << 56u64) != 0 { assert(56u64 < 64 && z & (1u64 << 56u64) != 0); }
            if z & (1u64 << 57u64) != 0 { assert(57u64 < 64 && z & (1u64 << 57u64) != 0); }
            if z & (1u64 << 58u64) != 0 { assert(58u64 < 64 && z & (1u64 << 58u64) != 0); }
            if z & (1u64 << 59u64) != 0 { assert(59u64 < 64 && z & (1u64 << 59u64) != 0); }
            if z & (1u64 << 60u64) != 0 { assert(60u64 < 64 && z & (1u64 << 60u64) != 0); }
            if z & (1u64 << 61u64) != 0 { assert(61u64 < 64 && z & (1u64 << 61u64) != 0); }
            if z & (1u64 << 62u64) != 0 { assert(62u64 < 64 && z & (1u64 << 62u64) != 0); }
            if z & (1u64 << 63u64) != 0 { assert(63u64 < 64 && z & (1u64 << 63u64) != 0); }
        }
        assert(has_sq(z, w));
    }
}

/// A bitboard with no square on the board is empty.
pub proof fn lemma_no_square_empty(z: u64)
    requires
        forall|s: u64| s < 64 ==> !#[trigger] has_sq(z, s),
    ensures
        z == 0,
{
    lemma_nonzero_has_square(z);
}

} // verus!
