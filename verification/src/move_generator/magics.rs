use vstd::prelude::*;

use rand::rngs::ThreadRng;
use rand::Rng;

use crate::enums::PieceType;
use crate::move_generator::raw_move_generator::{count_bits, slider_moves_spec, table_entry_sound, Slider};
use crate::bitwise_utils::has_sq;

verus! {

pub const ROOK_MAGICS: [u64; 64] = [
    1188968168698150945,
    2359903802296901633,
    108103985927323658,
    11709376623483715588,
    144119594712834064,
    2377909678521974786,
    288231553845202952,
    4755804513766703140,
    1189091039659442178,
    2882444636448620674,
    1159817710264131588,
    9224075793020747904,
    2306124501655488514,
    9262215602163023944,
    583779660044174337,
    72620561181771842,
    9331463100838182976,
    4908925243642351744,
    5768619641500925968,
    5188288058109202433,
    9373259111287760898,
    288793878008692738,
    612493947385825424,
    5190699837389046020,
    10484450312000143392,
    432380767931204224,
    2666166165923954816,
    578721494243344400,
    793196527322399760,
    4621256176226010128,
    4611969984493596680,
    189152292451139748,
    2594143763261554825,
    144185694263185416,
    6917810640107094032,
    144255994359187457,
    4904983082370601032,
    2307532170492661764,
    9223373171867004946,
    16285593841954717988,
    126101339863285770,
    4611756524878970883,
    288793876936917008,
    155392054778789896,
    182397983998885952,
    585470150648561792,
    13835060288942243841,
    72128239824666628,
    10376363912353296512,
    72127963320025152,
    513832707442082944,
    2625616175077294208,
    1301681046978822784,
    216313536782139520,
    10522238325476098176,
    1159817645076251008,
    4612322646398607874,
    14123306577672814593,
    578194686972280913,
    207447195409190913,
    324822814749099010,
    1153765946717372929,
    9799835022811791492,
    1226109407608447234,
];
pub const ROOK_SHIFTS: [u64; 64] = [
    52, 53, 53, 53, 53, 53, 53, 52, 53, 54, 54, 54, 54, 54, 54, 53, 53, 54, 54, 54, 54, 54, 54, 53,
    53, 54, 54, 54, 54, 54, 54, 53, 53, 54, 54, 54, 54, 54, 54, 53, 53, 54, 54, 54, 54, 54, 54, 53,
    53, 54, 54, 54, 54, 54, 54, 53, 52, 53, 53, 53, 53, 53, 53, 52,
];

pub const BISHOP_MAGICS: [u64; 64] = [
    1443412546467005456,
    2603089383137771522,
    9224506735220278304,
    3474538176891715585,
    11601571982684463114,
    4613111020465459344,
    433058082260911105,
    9511639830956871712,
    180430150444384772,
    288553804507714368,
    400838044997005440,
    144405597662478464,
    2614343999485411363,
    2449958816033820688,
    9223939668594133024,
    144120137086291992,
    2386925429187444880,
    2310443401567043968,
    5585589446570541065,
    1592023035248904212,
    193799936702152736,
    9223512778648584456,
    2324033333887524872,
    576495992526934080,
    4847034335964430608,
    614776533994768915,
    144679238086688896,
    2314868901374083204,
    11529498720135578640,
    378584953958465664,
    2882871384403628096,
    4918001728785254401,
    288548204018926651,
    2344202873963448840,
    288797870483310593,
    649646447487615104,
    162130136878678048,
    2317111959721873473,
    1229487167722553472,
    4622948403009167873,
    4648287248754804737,
    72172029415003176,
    216454532540928002,
    81652757408252417,
    9224506737153803268,
    585472367122188304,
    9297683664459023424,
    166633740712280336,
    9229080735662475266,
    2882339530072985601,
    2305985946833158184,
    4647785459614236688,
    153122456603870336,
    288476821929984640,
    1450515326209949697,
    5189281538956723264,
    5188710012809396737,
    4918098198443069460,
    2306968909724649480,
    216736625429584898,
    1225190754767539202,
    9512728356132487296,
    4613973561235865728,
    145276581597708416,
];
pub const BISHOP_SHIFTS: [u64; 64] = [
    58, 59, 59, 59, 59, 59, 59, 58, 59, 59, 59, 59, 59, 59, 59, 59, 59, 59, 57, 57, 57, 57, 59, 59,
    59, 59, 57, 55, 55, 57, 59, 59, 59, 59, 57, 55, 55, 57, 59, 59, 59, 59, 57, 57, 57, 57, 59, 59,
    59, 59, 59, 59, 59, 59, 59, 59, 58, 59, 59, 59, 59, 59, 59, 58,
];

/// `rand::rngs::ThreadRng`, carried through opaquely.
#[verifier::external_type_specification]
#[verifier::external_body]
pub struct ExThreadRng(ThreadRng);

/// `rand::thread_rng`. Nothing is stated of the generator.
#[verifier::external_body]
fn thread_rng() -> ThreadRng {
    rand::thread_rng()
}

/// `Rng::gen::<u64>` on a `ThreadRng`. Nothing is stated of the number drawn.
#[verifier::external_body]
fn thread_random_u64(rng: &mut ThreadRng) -> u64 {
    rng.gen::<u64>()
}

/// The slot a blocker pattern takes in a magic table.
pub open spec fn magic_index(key: u64, magic: u64, shift: u64) -> int {
    (key.wrapping_mul(magic) >> shift) as int
}

/// The slider whose moves a table of `piece_type` holds.
pub open spec fn slider_of(piece_type: PieceType) -> Slider {
    if piece_type == PieceType::Bishop { Slider::Bishop } else { Slider::Rook }
}

/// Every filled slot of a magic table holds a blocker pattern and the slider moves
/// for it; an empty slot holds zero moves.
pub open spec fn magic_table_sound(slider: Slider, table: Seq<Vec<(u64, u64)>>) -> bool {
    &&& table.len() == 64
    &&& forall|sq: int, i: int|
        0 <= sq < 64 && 0 <= i < table[sq]@.len() && (#[trigger] table[sq]@[i]).1 != 0
            ==> table[sq]@[i].1 == slider_moves_spec(slider, table[sq]@[i].0, 0, 1u64 << (sq as u64))
}

/// Whether storing `attacks` in slot `index` would clash with a different value there.
pub fn is_collision(actual: &Vec<u64>, index: usize, attacks: u64) -> (r: bool)
    requires
        index < actual@.len(),
    ensures
        r == (actual@[index as int] != 0 && actual@[index as int] != attacks),
{
    actual[index] != 0 && actual[index] != attacks
}

/// The number of set squares of `x`.
pub fn count_squares(x: u64) -> (r: u64)
    ensures
        r == count_bits(x, 64),
        r <= 64,
{
    let mut n: u64 = 0;
    let mut i: u64 = 0;
    while i < 64
        invariant
            i <= 64,
            n == count_bits(x, i as nat),
            n <= i,
        decreases 64 - i,
    {
        proof {
            crate::bit_lemmas::lemma_shift_and_one(x, i);
        }
        if (x >> i) & 1 == 1 {
            n = n + 1;
        }
        i = i + 1;
    }
    n
}

/// The candidate magic three random draws give: their and, kept when it has a set bit
/// in its top byte and in its bottom byte.
pub fn candidate_from_draws(a: u64, b: u64, c: u64) -> (r: Option<u64>)
    ensures
        r == (if (a & b & c) & 0xFF00000000000000 != 0 && (a & b & c) & 0xFF != 0 {
            Some(a & b & c)
        } else {
            None::<u64>
        }),
{
    let magic = a & b & c;
    if (magic & 0xFF00000000000000) != 0 && (magic & 0x00000000000000FF) != 0 {
        Some(magic)
    } else {
        None
    }
}

/// Draws candidate magics (the and of three random numbers, see
/// `candidate_from_draws`) until one is kept; gives up after a million draws.
pub fn generate_candidate_magic(rng: &mut ThreadRng) -> (r: Option<u64>)
    ensures
        r matches Some(m) ==> m & 0xFF00000000000000 != 0 && m & 0xFF != 0,
{
    let mut tries: u64 = 0;
    while tries < 1_000_000
        decreases 1_000_000 - tries,
    {
        let a = thread_random_u64(rng);
        let b = thread_random_u64(rng);
        let c = thread_random_u64(rng);
        if let Some(magic) = candidate_from_draws(a, b, c) {
            return Some(magic);
        }
        tries = tries + 1;
    }
    None
}

/// `pair` is the (blockers, moves) part of an entry of `hash_table` for `square`.
pub open spec fn entry_of(hash_table: Seq<((u8, u64), u64)>, square: u8, pair: (u64, u64)) -> bool {
    exists|j: int|
        0 <= j < hash_table.len() && #[trigger] hash_table[j] == ((square, pair.0), pair.1)
}

/// The (blockers, moves) pairs of the entries of `hash_table` on `square`, in
/// table order.
pub open spec fn square_keys(hash_table: Seq<((u8, u64), u64)>, square: u8) -> Seq<(u64, u64)>
    decreases hash_table.len(),
{
    if hash_table.len() == 0 {
        Seq::<(u64, u64)>::empty()
    } else {
        let rest = square_keys(hash_table.drop_last(), square);
        let e = hash_table.last();
        if e.0.0 == square {
            rest.push((e.0.1, e.1))
        } else {
            rest
        }
    }
}

/// The entries of `hash_table` that belong to `square`, as (blockers, moves) pairs.
pub fn keys_of_square(hash_table: &Vec<((u8, u64), u64)>, square: u8) -> (r: Vec<(u64, u64)>)
    ensures
        r@ == square_keys(hash_table@, square),
        forall|i: int| 0 <= i < r@.len() ==> entry_of(hash_table@, square, #[trigger] r@[i]),
        forall|j: int|
            0 <= j < hash_table@.len() && (#[trigger] hash_table@[j]).0.0 == square ==> r@.contains(
                (hash_table@[j].0.1, hash_table@[j].1),
            ),
{
    let mut keys: Vec<(u64, u64)> = Vec::new();
    let mut j: usize = 0;
    while j < hash_table.len()
        invariant
            j <= hash_table@.len(),
            keys@ == square_keys(hash_table@.take(j as int), square),
            forall|i: int| 0 <= i < keys@.len() ==> entry_of(hash_table@, square, #[trigger] keys@[i]),
            forall|k: int|
                0 <= k < j && (#[trigger] hash_table@[k]).0.0 == square ==> keys@.contains(
                    (hash_table@[k].0.1, hash_table@[k].1),
                ),
        decreases hash_table@.len() - j,
    {
        let e = hash_table[j];
        proof {
            assert(hash_table@.take(j + 1).drop_last() =~= hash_table@.take(j as int));
        }
        if e.0.0 == square {
            let ghost old_keys = keys@;
            keys.push((e.0.1, e.1));
            proof {
                assert(hash_table@[j as int] == ((square, e.0.1), e.1));
                assert(entry_of(hash_table@, square, (e.0.1, e.1)));
                assert forall|i: int| 0 <= i < keys@.len() implies entry_of(hash_table@, square, #[trigger] keys@[i]) by {
                    if i < old_keys.len() {
                        assert(keys@[i] == old_keys[i]);
                    }
                }
                assert forall|k: int|
                    0 <= k <= j && (#[trigger] hash_table@[k]).0.0 == square implies keys@.contains(
                        (hash_table@[k].0.1, hash_table@[k].1),
                    ) by {
                    if k < j {
                        let w = choose|w: int| 0 <= w < old_keys.len() && old_keys[w] == (hash_table@[k].0.1, hash_table@[k].1);
                        assert(keys@[w] == old_keys[w]);
                    } else {
                        assert(keys@[keys@.len() - 1] == (e.0.1, e.1));
                    }
                }
            }
        }
        j = j + 1;
    }
    proof {
        assert(hash_table@.take(j as int) =~= hash_table@);
    }
    keys
}

/// Every entry of `hash_table` with non-zero moves sits in its magic slot.
pub open spec fn magic_table_complete(
    hash_table: Seq<((u8, u64), u64)>,
    table: Seq<Vec<(u64, u64)>>,
    magics: Seq<u64>,
    shifts: Seq<u64>,
) -> bool {
    forall|j: int|
        0 <= j < hash_table.len() && (#[trigger] hash_table[j]).1 != 0 ==> {
            let sq = hash_table[j].0.0 as int;
            let idx = magic_index(hash_table[j].0.1, magics[sq], shifts[sq]);
            &&& sq < 64
            &&& idx < table[sq]@.len()
            &&& table[sq]@[idx] == (hash_table[j].0.1, hash_table[j].1)
        }
}

/// The first `n` of `keys` get slots below the number of keys, and none of them
/// takes a slot that an earlier pair with moves took (no pair when the shift is not
/// below 64).
pub open spec fn keys_fit_upto(keys: Seq<(u64, u64)>, magic: u64, shift: u64, n: int) -> bool {
    n == 0 || (shift < 64 && (forall|i: int| 0 <= i < n ==> #[trigger] magic_index(keys[i].0, magic, shift) < keys.len())
        && (forall|i: int, k: int|
        #![trigger keys[i], keys[k]]
        0 <= i < k < n && keys[i].1 != 0 ==> magic_index(keys[i].0, magic, shift) != magic_index(keys[k].0, magic, shift)))
}

/// `magic` and `shift` lay out the pairs of `keys` without a conflict.
pub open spec fn keys_fit(keys: Seq<(u64, u64)>, magic: u64, shift: u64) -> bool {
    keys_fit_upto(keys, magic, shift, keys.len() as int)
}

/// The magics and shifts lay out every square's entries of `hash_table` without a
/// conflict.
pub open spec fn magics_fit(hash_table: Seq<((u8, u64), u64)>, magics: Seq<u64>, shifts: Seq<u64>) -> bool {
    forall|sq: int| 0 <= sq < 64 ==> #[trigger] keys_fit(square_keys(hash_table, sq as u8), magics[sq], shifts[sq])
}

/// Lays the entries of `hash_table` out by square in slots given by the magics and
/// shifts. A slot that is out of range, or already holds other moves, is a conflict:
/// the entry is left out and `false` is returned.
pub fn fill_magics_lookup_table(
    hash_table: &Vec<((u8, u64), u64)>,
    lookup_table: &mut Vec<Vec<(u64, u64)>>,
    magics: [u64; 64],
    shifts: [u64; 64],
    piece_type: PieceType,
) -> (ok: bool)
    requires
        piece_type == PieceType::Rook || piece_type == PieceType::Bishop,
        forall|j: int| 0 <= j < hash_table@.len() ==> #[trigger] table_entry_sound(slider_of(piece_type), hash_table@[j]),
    ensures
        magic_table_sound(slider_of(piece_type), final(lookup_table)@),
        ok == magics_fit(hash_table@, magics@, shifts@),
        ok ==> magic_table_complete(hash_table@, final(lookup_table)@, magics@, shifts@),
{
    let ghost slider = slider_of(piece_type);
    let mut rows: Vec<Vec<(u64, u64)>> = Vec::new();
    let mut ok = true;
    let mut square: usize = 0;
    while square < 64
        invariant
            square <= 64,
            rows@.len() == square,
            ok == forall|sq: int| 0 <= sq < square ==> #[trigger] keys_fit(square_keys(hash_table@, sq as u8), magics@[sq], shifts@[sq]),
            slider == slider_of(piece_type),
            forall|j: int| 0 <= j < hash_table@.len() ==> #[trigger] table_entry_sound(slider, hash_table@[j]),
            forall|sq: int, i: int|
                0 <= sq < square && 0 <= i < rows@[sq]@.len() && (#[trigger] rows@[sq]@[i]).1 != 0
                    ==> rows@[sq]@[i].1 == slider_moves_spec(slider, rows@[sq]@[i].0, 0, 1u64 << (sq as u64)),
            ok ==> forall|j: int|
                0 <= j < hash_table@.len() && (#[trigger] hash_table@[j]).1 != 0 && hash_table@[j].0.0 < square ==> {
                    let sq = hash_table@[j].0.0 as int;
                    let idx = magic_index(hash_table@[j].0.1, magics@[sq], shifts@[sq]);
                    &&& idx < rows@[sq]@.len()
                    &&& rows@[sq]@[idx] == (hash_table@[j].0.1, hash_table@[j].1)
                },
        decreases 64 - square,
    {
        let magic = magics[square];
        let shift = shifts[square];
        let keys = keys_of_square(hash_table, square as u8);
        let mut row: Vec<(u64, u64)> = Vec::new();
        let mut n: usize = 0;
        while n < keys.len()
            invariant
                n <= keys@.len(),
                row@.len() == n,
                forall|i: int| 0 <= i < row@.len() ==> (#[trigger] row@[i]).1 == 0,
            decreases keys@.len() - n,
        {
            row.push((0, 0));
            n = n + 1;
        }
        let ghost ok_before = ok;
        let mut k: usize = 0;
        while k < keys.len()
            invariant
                square < 64,
                k <= keys@.len(),
                keys@ == square_keys(hash_table@, square as u8),
                ok == (ok_before && keys_fit_upto(keys@, magic, shift, k as int)),
                ok ==> forall|x: int| 0 <= x < row@.len() && (#[trigger] row@[x]).1 != 0 ==> exists|i: int|
                    0 <= i < k && keys@[i].1 != 0 && #[trigger] magic_index(keys@[i].0, magic, shift) == x,
                row@.len() == keys@.len(),
                slider == slider_of(piece_type),
                magic == magics@[square as int],
                shift == shifts@[square as int],
                forall|j: int| 0 <= j < hash_table@.len() ==> #[trigger] table_entry_sound(slider, hash_table@[j]),
                forall|i: int| 0 <= i < keys@.len() ==> entry_of(hash_table@, square as u8, #[trigger] keys@[i]),
                forall|i: int|
                    0 <= i < row@.len() && (#[trigger] row@[i]).1 != 0 ==> row@[i].1 == slider_moves_spec(
                        slider,
                        row@[i].0,
                        0,
                        1u64 << (square as u64),
                    ),
                ok ==> forall|i: int|
                    0 <= i < k && (#[trigger] keys@[i]).1 != 0 ==> {
                        let idx = magic_index(keys@[i].0, magic, shift);
                        &&& idx < row@.len()
                        &&& row@[idx] == keys@[i]
                    },
            decreases keys@.len() - k,
        {
            let key = keys[k];
            let ghost row_before = row@;
            proof {
                assert(entry_of(hash_table@, square as u8, keys@[k as int]));
                let j = choose|j: int| 0 <= j < hash_table@.len() && #[trigger] hash_table@[j] == ((square as u8, key.0), key.1);
                assert(table_entry_sound(slider, hash_table@[j]));
            }
            if shift >= 64 {
                ok = false;
            } else {
                let h: u64 = key.0.wrapping_mul(magic) >> shift;
                if h >= row.len() as u64 {
                    proof {
                        assert(keys@[k as int] == key);
                        assert(magic_index(keys@[k as int].0, magic, shift) >= keys@.len());
                    }
                    ok = false;
                } else {
                    let idx = h as usize;
                    proof {
                        assert(magic_index(key.0, magic, shift) == idx);
                    }
                    if row[idx].1 != 0 {
                        proof {
                            if ok {
                                let i = choose|i: int|
                                    0 <= i < k && keys@[i].1 != 0 && #[trigger] magic_index(keys@[i].0, magic, shift) == idx;
                                assert(keys@[i] == keys@[i] && keys@[k as int] == key);
                            }
                        }
                        ok = false;
                    } else {
                        row.set(idx, key);
                        proof {
                            if ok {
                                assert forall|i: int, k2: int|
                                    #![trigger keys@[i], keys@[k2]]
                                    0 <= i < k2 < k + 1 && keys@[i].1 != 0 implies magic_index(keys@[i].0, magic, shift)
                                        != magic_index(keys@[k2].0, magic, shift) by {
                                    if k2 == k {
                                        assert(row_before[magic_index(keys@[i].0, magic, shift)] == keys@[i]);
                                    }
                                }
                                assert forall|x: int| 0 <= x < row@.len() && (#[trigger] row@[x]).1 != 0 implies exists|i: int|
                                    0 <= i < k + 1 && keys@[i].1 != 0 && #[trigger] magic_index(keys@[i].0, magic, shift) == x by {
                                    if x == idx {
                                        assert(keys@[k as int] == key);
                                    } else {
                                        assert(row_before[x] == row@[x]);
                                    }
                                }
                            }
                        }
                    }
                }
            }
            proof {
                assert(keys@[k as int] == key);
            }
            k = k + 1;
        }
        proof {
            assert((square as int) as u8 == square as u8);
            assert(keys_fit(square_keys(hash_table@, (square as int) as u8), magics@[square as int], shifts@[square as int])
                == keys_fit_upto(keys@, magic, shift, keys@.len() as int));
            if ok {
                assert forall|j: int|
                    0 <= j < hash_table@.len() && (#[trigger] hash_table@[j]).1 != 0 && hash_table@[j].0.0 == square implies {
                        let idx = magic_index(hash_table@[j].0.1, magic, shift);
                        &&& idx < row@.len()
                        &&& row@[idx] == (hash_table@[j].0.1, hash_table@[j].1)
                    } by {
                    assert(keys@.contains((hash_table@[j].0.1, hash_table@[j].1)));
                    let w = choose|w: int| 0 <= w < keys@.len() && keys@[w] == (hash_table@[j].0.1, hash_table@[j].1);
                    assert(keys@[w].1 != 0);
                }
            }
        }
        let ghost old_rows = rows@;
        rows.push(row);
        proof {
            assert forall|sq: int, i: int|
                0 <= sq <= square && 0 <= i < rows@[sq]@.len() && (#[trigger] rows@[sq]@[i]).1 != 0
                    implies rows@[sq]@[i].1 == slider_moves_spec(slider, rows@[sq]@[i].0, 0, 1u64 << (sq as u64)) by {
                if sq == square {
                    assert(rows@[sq] == row);
                }
            }
            if ok {
                assert forall|j: int|
                    0 <= j < hash_table@.len() && (#[trigger] hash_table@[j]).1 != 0 && hash_table@[j].0.0 < square + 1 implies {
                        let sq = hash_table@[j].0.0 as int;
                        let idx = magic_index(hash_table@[j].0.1, magics@[sq], shifts@[sq]);
                        &&& idx < rows@[sq]@.len()
                        &&& rows@[sq]@[idx] == (hash_table@[j].0.1, hash_table@[j].1)
                    } by {
                    let sq = hash_table@[j].0.0 as int;
                    if sq == square {
                        assert(rows@[sq] == row);
                        assert(keys@.contains((hash_table@[j].0.1, hash_table@[j].1)));
                        let w = choose|w: int| 0 <= w < keys@.len() && keys@[w] == (hash_table@[j].0.1, hash_table@[j].1);
                        assert(keys@[w].1 != 0);
                        assert(magic == magics@[sq]);
                    } else {
                        assert(rows@[sq] == old_rows[sq]);
                    }
                }
            }
        }
        square = square + 1;
    }
    proof {
        assert forall|j: int| 0 <= j < hash_table@.len() implies (#[trigger] hash_table@[j]).0.0 < 64 by {
            assert(table_entry_sound(slider, hash_table@[j]));
        }
    }
    *lookup_table = rows;
    ok
}

/// A magic number and shift lay the (blockers, moves) pairs `keys` out without a
/// clash: every slot is below the number of pairs, and two pairs with moves that
/// share a slot have the same moves.
pub open spec fn magic_fits(keys: Seq<(u64, u64)>, magic: u64, shift: u64) -> bool {
    &&& shift < 64
    &&& forall|i: int| 0 <= i < keys.len() ==> #[trigger] magic_index(keys[i].0, magic, shift) < keys.len()
    &&& forall|i: int, j: int|
        #![trigger keys[i], keys[j]]
        0 <= i < keys.len() && 0 <= j < keys.len() && keys[i].1 != 0 && keys[j].1 != 0
            && magic_index(keys[i].0, magic, shift) == magic_index(keys[j].0, magic, shift) ==> keys[i].1 == keys[j].1
}

/// Tries to lay `keys` out with `magic` and `shift`, slot by slot, as a table of
/// moves where 0 marks an empty slot.
pub fn try_magic(keys: &Vec<(u64, u64)>, magic: u64, shift: u64) -> (r: bool)
    ensures
        r ==> magic_fits(keys@, magic, shift),
        (forall|i: int| 0 <= i < keys@.len() ==> (#[trigger] keys@[i]).1 != 0) && magic_fits(keys@, magic, shift) ==> r,
{
    if shift >= 64 {
        return false;
    }
    let mut actual: Vec<u64> = Vec::new();
    let mut n: usize = 0;
    while n < keys.len()
        invariant
            n <= keys@.len(),
            actual@.len() == n,
            forall|x: int| 0 <= x < actual@.len() ==> actual@[x] == 0,
        decreases keys@.len() - n,
    {
        actual.push(0);
        n = n + 1;
    }
    let mut k: usize = 0;
    while k < keys.len()
        invariant
            shift < 64,
            k <= keys@.len(),
            actual@.len() == keys@.len(),
            forall|i: int| 0 <= i < k ==> #[trigger] magic_index(keys@[i].0, magic, shift) < keys@.len(),
            forall|i: int| 0 <= i < k && (#[trigger] keys@[i]).1 != 0 ==> actual@[magic_index(keys@[i].0, magic, shift)] == keys@[i].1,
            forall|x: int| 0 <= x < actual@.len() && actual@[x] != 0 ==> exists|i: int| 0 <= i < k && #[trigger] keys@[i].1 == actual@[x] && magic_index(keys@[i].0, magic, shift) == x,
            forall|i: int, j: int|
                #![trigger keys@[i], keys@[j]]
                0 <= i < k && 0 <= j < k && keys@[i].1 != 0 && keys@[j].1 != 0
                    && magic_index(keys@[i].0, magic, shift) == magic_index(keys@[j].0, magic, shift) ==> keys@[i].1 == keys@[j].1,
        decreases keys@.len() - k,
    {
        let key = keys[k];
        let h: u64 = key.0.wrapping_mul(magic) >> shift;
        if h >= keys.len() as u64 {
            proof {
                assert(keys@[k as int] == key);
                assert(magic_index(keys@[k as int].0, magic, shift) >= keys@.len());
            }
            return false;
        }
        let index = h as usize;
        if is_collision(&actual, index, key.1) {
            proof {
                let i = choose|i: int| 0 <= i < k && #[trigger] keys@[i].1 == actual@[index as int] && magic_index(keys@[i].0, magic, shift) == index;
                assert(keys@[k as int] == key);
                assert((forall|i2: int| 0 <= i2 < keys@.len() ==> (#[trigger] keys@[i2]).1 != 0) ==> !magic_fits(keys@, magic, shift)) by {
                    if (forall|i2: int| 0 <= i2 < keys@.len() ==> (#[trigger] keys@[i2]).1 != 0) && magic_fits(keys@, magic, shift) {
                        assert(keys@[k as int].1 != 0);
                        assert(keys@[i].1 == keys@[k as int].1);
                    }
                }
            }
            return false;
        }
        let ghost before = actual@;
        if key.1 != 0 {
            actual.set(index, key.1);
        }
        proof {
            assert(keys@[k as int] == key);
            assert forall|x: int| 0 <= x < actual@.len() && actual@[x] != 0 implies exists|i: int| 0 <= i < k + 1 && #[trigger] keys@[i].1 == actual@[x] && magic_index(keys@[i].0, magic, shift) == x by {
                if x == index && key.1 != 0 {
                    assert(keys@[k as int].1 == actual@[x]);
                } else {
                    assert(actual@[x] == before[x]);
                }
            }
        }
        k = k + 1;
    }
    true
}

/// What trying a candidate magic on a square gives.
#[derive(Debug, Clone, Copy, PartialEq, Eq, Structural)]
pub enum MagicTrial {
    /// Fewer than six bits of the top byte are set in the relevant squares times the
    /// candidate: the candidate is passed over.
    Skipped,
    /// Two blocker patterns with different moves share a slot, or a slot is out of range.
    Clash,
    /// The candidate lays the patterns out.
    Fits,
}

/// Tries `magic` on a square with relevant squares `mask` and (blockers, moves) pairs
/// `keys`: passed over when `mask` times `magic` has fewer than six set bits in its top
/// byte; otherwise a fit exactly when it lays the pairs out (pairs with empty moves
/// apart), a clash when not.
pub fn try_candidate(mask: u64, keys: &Vec<(u64, u64)>, magic: u64, shift: u64) -> (r: MagicTrial)
    ensures
        (r == MagicTrial::Skipped) == (count_bits(mask.wrapping_mul(magic) & 0xFF00_0000_0000_0000, 64) < 6),
        r == MagicTrial::Fits ==> magic_fits(keys@, magic, shift),
        r == MagicTrial::Clash && (forall|i: int| 0 <= i < keys@.len() ==> (#[trigger] keys@[i]).1 != 0) ==> !magic_fits(
            keys@,
            magic,
            shift,
        ),
{
    if count_squares(mask.wrapping_mul(magic) & 0xFF00_0000_0000_0000) < 6 {
        MagicTrial::Skipped
    } else if try_magic(keys, magic, shift) {
        MagicTrial::Fits
    } else {
        MagicTrial::Clash
    }
}

/// What a search for magic numbers finds, per square: the magic (0 when none was
/// found), the shift, the number of blocker patterns and the clashes met.
#[derive(Debug, Clone, Copy)]
pub struct MagicSearch {
    pub magics: [u64; 64],
    pub shifts: [u64; 64],
    pub key_counts: [usize; 64],
    pub collision_counts: [u64; 64],
}

/// `magic` and `shift` lay the entries of `hash_table` for `square` out without a
/// clash in a table of `count` slots.
pub open spec fn magic_entries_fit(
    hash_table: Seq<((u8, u64), u64)>,
    relevant: u64,
    square: int,
    magic: u64,
    shift: u64,
    count: usize,
) -> bool {
    &&& shift == 64 - count_bits(relevant, 64)
    &&& magic & 0xFF00000000000000 != 0
    &&& magic & 0xFF != 0
    &&& forall|j: int|
        0 <= j < hash_table.len() && (#[trigger] hash_table[j]).0.0 == square ==> magic_index(hash_table[j].0.1, magic, shift)
            < count
    &&& forall|j1: int, j2: int|
        #![trigger hash_table[j1], hash_table[j2]]
        0 <= j1 < hash_table.len() && 0 <= j2 < hash_table.len() && hash_table[j1].0.0 == square
            && hash_table[j2].0.0 == square && hash_table[j1].1 != 0 && hash_table[j2].1 != 0
            && magic_index(hash_table[j1].0.1, magic, shift) == magic_index(hash_table[j2].0.1, magic, shift)
            ==> hash_table[j1].1 == hash_table[j2].1
}

/// The magic found for `square` lays its entries of `hash_table` out without a clash.
pub open spec fn magic_found_fits(hash_table: Seq<((u8, u64), u64)>, relevant: u64, square: int, r: MagicSearch) -> bool {
    magic_entries_fit(hash_table, relevant, square, r.magics@[square], r.shifts@[square], r.key_counts@[square])
}

/// Searches, square by square, a magic number (among a million random candidates)
/// that lays the square's entries of `hash_table` out in a table of as many slots
/// as the square has blocker patterns.
pub fn find_magics(hash_table: &Vec<((u8, u64), u64)>, relevant_squares: [u64; 64]) -> (r: MagicSearch)
    ensures
        forall|sq: int| 0 <= sq < 64 && #[trigger] r.magics@[sq] != 0 ==> magic_found_fits(hash_table@, relevant_squares@[sq], sq, r),
        forall|sq: int| 0 <= sq < 64 && #[trigger] r.magics@[sq] == 0 ==> r.shifts@[sq] == 0,
        forall|sq: int| 0 <= sq < 64 ==> #[trigger] r.key_counts@[sq] == square_keys(hash_table@, sq as u8).len(),
        forall|sq: int| 0 <= sq < 64 ==> #[trigger] r.collision_counts@[sq] <= 1_000_000,
{
    let mut rng = thread_rng();
    let mut result = MagicSearch { magics: [0; 64], shifts: [0; 64], key_counts: [0; 64], collision_counts: [0; 64] };
    let mut square: usize = 0;
    while square < 64
        invariant
            square <= 64,
            forall|sq: int| 0 <= sq < square && #[trigger] result.magics@[sq] != 0 ==> magic_found_fits(hash_table@, relevant_squares@[sq], sq, result),
            forall|sq: int| 0 <= sq < 64 && #[trigger] result.magics@[sq] == 0 ==> result.shifts@[sq] == 0,
            forall|sq: int| square <= sq < 64 ==> #[trigger] result.magics@[sq] == 0,
            forall|sq: int| 0 <= sq < square ==> #[trigger] result.key_counts@[sq] == square_keys(hash_table@, sq as u8).len(),
            forall|sq: int| 0 <= sq < square ==> #[trigger] result.collision_counts@[sq] <= 1_000_000,
        decreases 64 - square,
    {
        let mask = relevant_squares[square];
        let shift = 64 - count_squares(mask);
        let keys = keys_of_square(hash_table, square as u8);
        result.key_counts[square] = keys.len();
        let mut runs: u64 = 0;
        let mut collisions: u64 = 0;
        let mut found = false;
        let mut found_magic: u64 = 0;
        while runs < 1_000_000 && !found
            invariant
                square < 64,
                collisions <= runs <= 1_000_000,
                mask == relevant_squares@[square as int],
                shift == 64 - count_bits(mask, 64),
                forall|j: int|
                    0 <= j < hash_table@.len() && (#[trigger] hash_table@[j]).0.0 == square as u8 ==> keys@.contains(
                        (hash_table@[j].0.1, hash_table@[j].1),
                    ),
                !found ==> found_magic == 0,
                found ==> found_magic != 0 && magic_entries_fit(hash_table@, mask, square as int, found_magic, shift, keys.len()),
            decreases 1_000_000 - runs,
        {
            runs = runs + 1;
            let candidate = generate_candidate_magic(&mut rng);
            let magic = match candidate {
                Some(m) => m,
                None => continue,
            };
            let trial = try_candidate(mask, &keys, magic, shift);
            if trial == MagicTrial::Skipped {
                continue;
            }
            if trial == MagicTrial::Fits {
                found_magic = magic;
                found = true;
                proof {
                    crate::bit_lemmas::lemma_bit_identities();
                    assert(magic != 0);
                    assert forall|j: int|
                        0 <= j < hash_table@.len() && (#[trigger] hash_table@[j]).0.0 == square implies magic_index(hash_table@[j].0.1, magic, shift) < keys@.len() by {
                        assert(keys@.contains((hash_table@[j].0.1, hash_table@[j].1)));
                        let w = choose|w: int| 0 <= w < keys@.len() && keys@[w] == (hash_table@[j].0.1, hash_table@[j].1);
                        assert(magic_index(keys@[w].0, magic, shift) < keys@.len());
                    }
                    assert forall|j1: int, j2: int|
                        0 <= j1 < hash_table@.len() && 0 <= j2 < hash_table@.len() && hash_table@[j1].0.0 == square
                            && hash_table@[j2].0.0 == square && hash_table@[j1].1 != 0 && hash_table@[j2].1 != 0
                            && magic_index(hash_table@[j1].0.1, magic, shift) == magic_index(hash_table@[j2].0.1, magic, shift)
                            implies #[trigger] hash_table@[j1].1 == #[trigger] hash_table@[j2].1 by {
                        assert(keys@.contains((hash_table@[j1].0.1, hash_table@[j1].1)));
                        assert(keys@.contains((hash_table@[j2].0.1, hash_table@[j2].1)));
                        let w1 = choose|w: int| 0 <= w < keys@.len() && keys@[w] == (hash_table@[j1].0.1, hash_table@[j1].1);
                        let w2 = choose|w: int| 0 <= w < keys@.len() && keys@[w] == (hash_table@[j2].0.1, hash_table@[j2].1);
                        assert(keys@[w1].1 == keys@[w2].1);
                    }
                }
            } else {
                collisions = collisions + 1;
            }
        }
        let ghost prev = result;
        result.magics[square] = found_magic;
        result.shifts[square] = if found { shift } else { 0 };
        proof {
            assert forall|sq: int| 0 <= sq < 64 && sq != square implies #[trigger] result.magics@[sq] == prev.magics@[sq]
                && result.shifts@[sq] == prev.shifts@[sq] && result.key_counts@[sq] == prev.key_counts@[sq]
                && result.collision_counts@[sq] == prev.collision_counts@[sq] by {
            }
        }
        result.collision_counts[square] = collisions;
        square = square + 1;
    }
    result
}

} // verus!
