use vstd::prelude::*;

verus! {

pub const NOT_A_FILE: u64 = 0xfefefefefefefefe;
pub const NOT_H_FILE: u64 = 0x7f7f7f7f7f7f7f7f;

/// The bitboard of a single square.
pub open spec fn sq_bb(sq: u64) -> u64 {
    1u64 << sq
}

/// Whether square `sq` is set in `bb`.
pub open spec fn has_sq(bb: u64, sq: u64) -> bool {
    bb & (1u64 << sq) != 0
}

pub fn to_bitboard_position(square: u64) -> (r: u64)
    requires
        square < 64,
    ensures
        r == sq_bb(square),
{
    1u64 << square
}

/// `1 >> square`: 1 for square 0 and 0 for every other square below 64.
pub fn to_decimal_position(square: u64) -> (r: u64)
    requires
        square < 64,
    ensures
        r == (if square == 0 { 1u64 } else { 0u64 }),
{
    proof {
        assert(square < 64 ==> (1u64 >> square) == (if square == 0 { 1u64 } else { 0u64 }))
            by (bit_vector);
    }
    1u64 >> square
}

pub fn east_one(bb: u64) -> (r: u64)
    ensures
        r == (bb << 1u64) & NOT_A_FILE,
{
    (bb << 1u64) & NOT_A_FILE
}

pub fn no_ea_one(bb: u64) -> (r: u64)
    ensures
        r == (bb << 9u64) & NOT_A_FILE,
{
    (bb << 9u64) & NOT_A_FILE
}

pub fn so_ea_one(bb: u64) -> (r: u64)
    ensures
        r == (bb >> 7u64) & NOT_A_FILE,
{
    (bb >> 7u64) & NOT_A_FILE
}

pub fn west_one(bb: u64) -> (r: u64)
    ensures
        r == (bb >> 1u64) & NOT_H_FILE,
{
    (bb >> 1u64) & NOT_H_FILE
}

pub fn so_we_one(bb: u64) -> (r: u64)
    ensures
        r == (bb >> 9u64) & NOT_H_FILE,
{
    (bb >> 9u64) & NOT_H_FILE
}

pub fn no_we_one(bb: u64) -> (r: u64)
    ensures
        r == (bb << 7u64) & NOT_H_FILE,
{
    (bb << 7u64) & NOT_H_FILE
}

pub fn south_one(bb: u64) -> (r: u64)
    ensures
        r == bb >> 8u64,
{
    bb >> 8u64
}

pub fn north_one(bb: u64) -> (r: u64)
    ensures
        r == bb << 8u64,
{
    bb << 8u64
}

/// All squares strictly above `square`.
pub fn upper_bits(square: u64) -> (r: u64)
    requires
        square < 64,
    ensures
        r == !1u64 << square,
        forall|s: u64| s < 64 ==> (has_sq(r, s) <==> s > square),
{
    proof {
        assert forall|s: u64| s < 64 implies (has_sq(!1u64 << square, s) <==> s > square) by {
            assert(square < 64 && s < 64 ==> (((!1u64 << square) & (1u64 << s)) != 0 <==> s
                > square)) by (bit_vector);
        }
    }
    !1u64 << square
}

/// All squares strictly below `square`.
pub fn lower_bits(square: u64) -> (r: u64)
    requires
        square < 64,
    ensures
        r == sub1(1u64 << square),
        forall|s: u64| s < 64 ==> (has_sq(r, s) <==> s < square),
{
    proof {
        assert(square < 64 ==> (1u64 << square) >= 1) by (bit_vector);
        assert forall|s: u64| s < 64 implies (has_sq(sub1(1u64 << square), s) <==> s < square) by {
            assert(square < 64 && s < 64 ==> ((((1u64 << square) - 1u64) as u64 & (1u64 << s))
                != 0 <==> s < square)) by (bit_vector);
        }
    }
    (1u64 << square) - 1
}

/// `x - 1` as a bit pattern (wrapping at zero).
pub open spec fn sub1(x: u64) -> u64 {
    if x == 0 {
        0xffff_ffff_ffff_ffffu64
    } else {
        (x - 1) as u64
    }
}

/// The eight compass directions in which a piece can step on the board.
#[derive(Copy, Clone, Debug, PartialEq, Eq, Structural)]
pub enum Direction {
    East,
    NorthEast,
    SouthEast,
    West,
    SouthWest,
    NorthWest,
    South,
    North,
    /// No step: the bitboard is left as it is.
    Stay,
}

/// What one step in a direction does to a bitboard.
pub open spec fn step_spec(dir: Direction, bb: u64) -> u64 {
    match dir {
        Direction::East => (bb << 1u64) & NOT_A_FILE,
        Direction::NorthEast => (bb << 9u64) & NOT_A_FILE,
        Direction::SouthEast => (bb >> 7u64) & NOT_A_FILE,
        Direction::West => (bb >> 1u64) & NOT_H_FILE,
        Direction::SouthWest => (bb >> 9u64) & NOT_H_FILE,
        Direction::NorthWest => (bb << 7u64) & NOT_H_FILE,
        Direction::South => bb >> 8u64,
        Direction::North => bb << 8u64,
        Direction::Stay => bb,
    }
}

impl Direction {
    /// Moves every square of `bb` one step in this direction, dropping what leaves the board.
    pub fn step(&self, bb: u64) -> (r: u64)
        ensures
            r == step_spec(*self, bb),
    {
        match self {
            Direction::East => east_one(bb),
            Direction::NorthEast => no_ea_one(bb),
            Direction::SouthEast => so_ea_one(bb),
            Direction::West => west_one(bb),
            Direction::SouthWest => so_we_one(bb),
            Direction::NorthWest => no_we_one(bb),
            Direction::South => south_one(bb),
            Direction::North => north_one(bb),
            Direction::Stay => bb,
        }
    }
}

/// The direction from square `from` towards square `to`, judged by the signs of the
/// rank and file differences.
pub open spec fn direction_between(from: int, to: int) -> Direction {
    let rd = to / 8 - from / 8;
    let fd = to % 8 - from % 8;
    if rd == 0 && fd > 0 {
        Direction::East
    } else if rd == 0 && fd < 0 {
        Direction::West
    } else if rd > 0 && fd == 0 {
        Direction::North
    } else if rd < 0 && fd == 0 {
        Direction::South
    } else if rd > 0 && fd > 0 {
        Direction::NorthEast
    } else if rd > 0 && fd < 0 {
        Direction::NorthWest
    } else if rd < 0 && fd > 0 {
        Direction::SouthEast
    } else if rd < 0 && fd < 0 {
        Direction::SouthWest
    } else {
        Direction::Stay
    }
}

/// The step towards `to` when starting from `from`.
pub fn get_direction_fn_to_square(from: usize, to: usize) -> (r: Direction)
    ensures
        r == direction_between(from as int, to as int),
{
    let from_rank = (from / 8) as i64;
    let from_file = (from % 8) as i64;
    let to_rank = (to / 8) as i64;
    let to_file = (to % 8) as i64;
    let rank_diff = to_rank - from_rank;
    let file_diff = to_file - from_file;
    if rank_diff == 0 && file_diff > 0 {
        Direction::East
    } else if rank_diff == 0 && file_diff < 0 {
        Direction::West
    } else if rank_diff > 0 && file_diff == 0 {
        Direction::North
    } else if rank_diff < 0 && file_diff == 0 {
        Direction::South
    } else if rank_diff > 0 && file_diff > 0 {
        Direction::NorthEast
    } else if rank_diff > 0 && file_diff < 0 {
        Direction::NorthWest
    } else if rank_diff < 0 && file_diff > 0 {
        Direction::SouthEast
    } else if rank_diff < 0 && file_diff < 0 {
        Direction::SouthWest
    } else {
        Direction::Stay
    }
}

/// The name of a direction.
pub fn get_direction_name(dir: Direction) -> (r: &'static str)
    ensures
        r@ == direction_name(dir),
{
    proof {
        reveal_strlit("east");
        reveal_strlit("north east");
        reveal_strlit("so east");
        reveal_strlit("west");
        reveal_strlit("so west");
        reveal_strlit("north west");
        reveal_strlit("south");
        reveal_strlit("north");
        reveal_strlit("unkwnown direction");
    }
    match dir {
        Direction::East => "east",
        Direction::NorthEast => "north east",
        Direction::SouthEast => "so east",
        Direction::West => "west",
        Direction::SouthWest => "so west",
        Direction::NorthWest => "north west",
        Direction::South => "south",
        Direction::North => "north",
        Direction::Stay => "unkwnown direction",
    }
}

pub open spec fn direction_name(dir: Direction) -> Seq<char> {
    match dir {
        Direction::East => "east"@,
        Direction::NorthEast => "north east"@,
        Direction::SouthEast => "so east"@,
        Direction::West => "west"@,
        Direction::SouthWest => "so west"@,
        Direction::NorthWest => "north west"@,
        Direction::South => "south"@,
        Direction::North => "north"@,
        Direction::Stay => "unkwnown direction"@,
    }
}

/// Whether `k` is the lowest set square of a non-empty `bb`.
pub open spec fn is_lsb(bb: u64, k: u64) -> bool {
    &&& k < 64
    &&& bb & (1u64 << k) != 0
    &&& bb & sub1(1u64 << k) == 0
}

/// Removes the lowest set square from `bits` and returns its index.
/// On an empty bitboard it returns 63 and leaves `bits` empty.
pub fn pop_lsb(bits: &mut u64) -> (r: u8)
    ensures
        *old(bits) != 0 ==> is_lsb(*old(bits), r as u64),
        *old(bits) != 0 ==> *final(bits) == *old(bits) & sub1(*old(bits)),
        *old(bits) != 0 ==> *final(bits) == *old(bits) & !(1u64 << r as u64),
        *old(bits) == 0 ==> r == 63 && *final(bits) == 0,
        r < 64,
{
    let x = *bits;
    if x == 0 {
        return 63;
    }
    let t = x.trailing_zeros();
    proof {
        vstd::std_specs::bits::axiom_u64_trailing_zeros(x);
        let tt = t as u64;
        assert(tt < 64);
        assert(tt < 64 && (x >> tt) & 1u64 == 1u64 ==> x & (1u64 << tt) != 0) by (bit_vector);
        assert(tt < 64 && (x << ((64 - tt) as u64)) == 0 ==> x & (((1u64 << tt) - 1u64) as u64)
            == 0) by (bit_vector);
        assert(tt < 64 ==> (1u64 << tt) >= 1) by (bit_vector);
        assert(x != 0 ==> x & ((x - 1u64) as u64) == x & !(1u64 << tt) || !(x & (1u64 << tt) != 0
            && x & (((1u64 << tt) - 1u64) as u64) == 0)) by (bit_vector)
            requires tt < 64;
    }
    *bits = x & (x - 1);
    t as u8
}

/// A non-empty bitboard has exactly one lowest square.
pub proof fn lemma_lsb_unique(bb: u64, k: u64)
    requires
        is_lsb(bb, k),
    ensures
        (choose|j: u64| is_lsb(bb, j)) == k,
        forall|j: u64| is_lsb(bb, j) ==> j == k,
{
    assert forall|j: u64| is_lsb(bb, j) implies j == k by {
        assert(j < 64 && k < 64 && j != k && bb & (1u64 << j) != 0 && bb & (1u64 << k) != 0 ==> bb
            & sub1(1u64 << j) != 0 || bb & sub1(1u64 << k) != 0) by (bit_vector);
    }
    let c = choose|j: u64| is_lsb(bb, j);
    assert(is_lsb(bb, c));
}

} // verus!
