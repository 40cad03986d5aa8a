use vstd::prelude::*;

verus! {

/// A move packed into one word. Squares take 5 bits each, starting at bit 0; bits 0..30 are the
/// main section that every god lays out as it likes, bit 30 is free for a check flag and bit 31
/// marks a winning move.
pub type MoveData = u32;

pub const POSITION_WIDTH: u32 = 5;

pub const LOWER_POSITION_MASK: u32 = 31;

pub const MOVE_IS_WINNING_MASK: MoveData = 0x8000_0000;

pub const MOVE_DATA_MAIN_SECTION: MoveData = 0x3FFF_FFFF;

pub const NULL_MOVE_DATA: MoveData = 0;

/// Move generation flags.
pub type MoveGenFlags = u32;

/// Only generate winning moves.
pub const MATE_ONLY: MoveGenFlags = 1;

/// Stop as soon as one winning move is found.
pub const STOP_ON_MATE: MoveGenFlags = 2;

/// Attach a heuristic score to every move.
pub const INCLUDE_SCORE: MoveGenFlags = 4;

/// Only generate moves that touch one of the key squares.
pub const INTERACT_WITH_KEY_SQUARES: MoveGenFlags = 8;

/// The flags that drop moves.
pub const ANY_MOVE_FILTER: MoveGenFlags = 9;

/// The 5 bit field of `data` that starts at bit `offset`.
pub open spec fn field_at(data: u32, offset: u32) -> u32 {
    (data >> offset) & 31u32
}

/// Whether the winning flag is set.
pub open spec fn is_winning_data(data: u32) -> bool {
    data & MOVE_IS_WINNING_MASK != 0
}

/// Reads the square stored at `offset`.
pub fn read_position(data: MoveData, offset: u32) -> (r: u8)
    requires
        offset < 32,
    ensures
        r == field_at(data, offset),
        r < 32,
{
    let v = (data >> offset) & LOWER_POSITION_MASK;
    proof {
        lemma_field_small(data, offset);
    }
    v as u8
}

pub proof fn lemma_field_small(data: u32, offset: u32)
    by (bit_vector)
    ensures
        (data >> offset) & 31u32 < 32,
{
}

/// The flags that narrow what a generator lists: mate only, stop on a mate, key squares.
pub const NARROWING_FLAGS: MoveGenFlags = 11;

/// With no narrowing flag set, none of them is on.
pub proof fn lemma_no_flags(flags: MoveGenFlags)
    by (bit_vector)
    ensures
        flags & 11u32 == 0 ==> flags & 1u32 == 0 && flags & 2u32 == 0 && flags & 8u32 == 0 && flags & 9u32 == 0,
        0u32 & 11u32 == 0,
        4u32 & 11u32 == 0,
{
}

/// Packing three fields and reading them back.
pub proof fn lemma_pack3(a: u32, b: u32, c: u32)
    by (bit_vector)
    requires
        a < 32,
        b < 32,
        c < 32,
    ensures
        ((a | (b << 5u32) | (c << 10u32)) >> 0u32) & 31u32 == a,
        ((a | (b << 5u32) | (c << 10u32)) >> 5u32) & 31u32 == b,
        ((a | (b << 5u32) | (c << 10u32)) >> 10u32) & 31u32 == c,
        ((a | (b << 5u32) | (c << 10u32)) >> 15u32) & 31u32 == 0,
        ((a | (b << 5u32) | (c << 10u32)) >> 20u32) & 31u32 == 0,
        ((a | (b << 5u32) | (c << 10u32)) >> 25u32) & 31u32 == 0,
        (a | (b << 5u32) | (c << 10u32)) & 0x3FFF_FFFFu32 == (a | (b << 5u32) | (c << 10u32)),
        (a | (b << 5u32) | (c << 10u32)) & 0x8000_0000u32 == 0,
        ((a | (b << 5u32) | 0x8000_0000u32) >> 0u32) & 31u32 == a,
        ((a | (b << 5u32) | 0x8000_0000u32) >> 5u32) & 31u32 == b,
        ((a | (b << 5u32) | 0x8000_0000u32) >> 10u32) & 31u32 == 0,
        (a | (b << 5u32) | 0x8000_0000u32) & 0x8000_0000u32 != 0,
        a | (b << 5u32) | (c << 10u32) == (a | (b << 5u32)) | (c << 10u32),
{
}

/// A winning word whose second-worker field holds the empty value 25.
pub proof fn lemma_win_word_with_empty_second(from: u32, to: u32)
    by (bit_vector)
    ensures
        from | (to << 5u32) | 0x000C_8000u32 | 0x8000_0000u32 == from | (to << 5u32) | (0u32 << 10u32) | (25u32 << 15u32)
            | 0x8000_0000u32,
{
}

/// Packing four fields and reading them back.
pub proof fn lemma_pack4(a: u32, b: u32, c: u32, d: u32)
    by (bit_vector)
    requires
        a < 32,
        b < 32,
        c < 32,
        d < 32,
    ensures
        ((a | (b << 5u32) | (c << 10u32) | (d << 15u32)) >> 0u32) & 31u32 == a,
        ((a | (b << 5u32) | (c << 10u32) | (d << 15u32)) >> 5u32) & 31u32 == b,
        ((a | (b << 5u32) | (c << 10u32) | (d << 15u32)) >> 10u32) & 31u32 == c,
        ((a | (b << 5u32) | (c << 10u32) | (d << 15u32)) >> 15u32) & 31u32 == d,
        (a | (b << 5u32) | (c << 10u32) | (d << 15u32)) & 0x3FFF_FFFFu32 == (a | (b << 5u32) | (c
            << 10u32) | (d << 15u32)),
        (a | (b << 5u32) | (c << 10u32) | (d << 15u32)) & 0x8000_0000u32 == 0,
        ((a | (b << 5u32) | (c << 10u32) | (d << 15u32) | 0x8000_0000u32) >> 0u32) & 31u32 == a,
        ((a | (b << 5u32) | (c << 10u32) | (d << 15u32) | 0x8000_0000u32) >> 5u32) & 31u32 == b,
        ((a | (b << 5u32) | (c << 10u32) | (d << 15u32) | 0x8000_0000u32) >> 10u32) & 31u32 == c,
        ((a | (b << 5u32) | (c << 10u32) | (d << 15u32) | 0x8000_0000u32) >> 15u32) & 31u32 == d,
        (a | (b << 5u32) | (c << 10u32) | (d << 15u32) | 0x8000_0000u32) & 0x8000_0000u32 != 0,
{
}

/// Packing five fields and reading them back.
pub proof fn lemma_pack5(a: u32, b: u32, c: u32, d: u32, e: u32)
    by (bit_vector)
    requires
        a < 32,
        b < 32,
        c < 32,
        d < 32,
        e < 32,
    ensures
        ((a | (b << 5u32) | (c << 10u32) | (d << 15u32) | (e << 20u32)) >> 0u32) & 31u32 == a,
        ((a | (b << 5u32) | (c << 10u32) | (d << 15u32) | (e << 20u32)) >> 5u32) & 31u32 == b,
        ((a | (b << 5u32) | (c << 10u32) | (d << 15u32) | (e << 20u32)) >> 10u32) & 31u32 == c,
        ((a | (b << 5u32) | (c << 10u32) | (d << 15u32) | (e << 20u32)) >> 15u32) & 31u32 == d,
        ((a | (b << 5u32) | (c << 10u32) | (d << 15u32) | (e << 20u32)) >> 20u32) & 31u32 == e,
        (a | (b << 5u32) | (c << 10u32) | (d << 15u32) | (e << 20u32)) & 0x3FFF_FFFFu32 == (a | (b
            << 5u32) | (c << 10u32) | (d << 15u32) | (e << 20u32)),
        (a | (b << 5u32) | (c << 10u32) | (d << 15u32) | (e << 20u32)) & 0x8000_0000u32 == 0,
        ((a | (b << 5u32) | (c << 10u32) | (d << 15u32) | (e << 20u32) | 0x8000_0000u32)
            >> 0u32) & 31u32 == a,
        ((a | (b << 5u32) | (c << 10u32) | (d << 15u32) | (e << 20u32) | 0x8000_0000u32)
            >> 5u32) & 31u32 == b,
        ((a | (b << 5u32) | (c << 10u32) | (d << 15u32) | (e << 20u32) | 0x8000_0000u32)
            >> 10u32) & 31u32 == c,
        ((a | (b << 5u32) | (c << 10u32) | (d << 15u32) | (e << 20u32) | 0x8000_0000u32)
            >> 15u32) & 31u32 == d,
        ((a | (b << 5u32) | (c << 10u32) | (d << 15u32) | (e << 20u32) | 0x8000_0000u32)
            >> 20u32) & 31u32 == e,
        (a | (b << 5u32) | (c << 10u32) | (d << 15u32) | (e << 20u32) | 0x8000_0000u32)
            & 0x8000_0000u32 != 0,
{
}

/// Packing six fields and reading them back.
pub proof fn lemma_pack6(a: u32, b: u32, c: u32, d: u32, e: u32, f: u32)
    by (bit_vector)
    requires
        a < 32,
        b < 32,
        c < 32,
        d < 32,
        e < 32,
        f < 32,
    ensures
        ((a | (b << 5u32) | (c << 10u32) | (d << 15u32) | (e << 20u32) | (f << 25u32)) >> 0u32)
            & 31u32 == a,
        ((a | (b << 5u32) | (c << 10u32) | (d << 15u32) | (e << 20u32) | (f << 25u32)) >> 5u32)
            & 31u32 == b,
        ((a | (b << 5u32) | (c << 10u32) | (d << 15u32) | (e << 20u32) | (f << 25u32)) >> 10u32)
            & 31u32 == c,
        ((a | (b << 5u32) | (c << 10u32) | (d << 15u32) | (e << 20u32) | (f << 25u32)) >> 15u32)
            & 31u32 == d,
        ((a | (b << 5u32) | (c << 10u32) | (d << 15u32) | (e << 20u32) | (f << 25u32)) >> 20u32)
            & 31u32 == e,
        ((a | (b << 5u32) | (c << 10u32) | (d << 15u32) | (e << 20u32) | (f << 25u32)) >> 25u32)
            & 31u32 == f,
        (a | (b << 5u32) | (c << 10u32) | (d << 15u32) | (e << 20u32) | (f << 25u32))
            & 0x3FFF_FFFFu32 == (a | (b << 5u32) | (c << 10u32) | (d << 15u32) | (e << 20u32) | (f
            << 25u32)),
        (a | (b << 5u32) | (c << 10u32) | (d << 15u32) | (e << 20u32) | (f << 25u32))
            & 0x8000_0000u32 == 0,
{
}

/// A move of any god, as stored in move lists.
#[derive(Clone, Copy, PartialEq, Eq, Debug)]
pub struct GenericMove(pub MoveData);

impl GenericMove {
    pub fn new(data: MoveData) -> (r: GenericMove)
        ensures
            r.0 == data,
    {
        GenericMove(data)
    }

    pub fn get_is_winning(self) -> (r: bool)
        ensures
            r == is_winning_data(self.0),
    {
        self.0 & MOVE_IS_WINNING_MASK != 0
    }
}

pub const WINNING_MOVE_SCORE: u8 = 255;

pub const CHECKING_MOVE_SCORE: u8 = 100;

pub const IMPROVING_MOVE_SCORE: u8 = 50;

pub const NON_IMPROVER_SCORE: u8 = 10;

pub const UNSCORED_MOVE_SCORE: u8 = 0;

/// A move together with its ordering score.
#[derive(Clone, Copy, PartialEq, Eq, Debug)]
pub struct ScoredMove {
    pub action: GenericMove,
    pub score: u8,
}

impl ScoredMove {
    pub fn new_winning_move(action: GenericMove) -> (r: ScoredMove)
        ensures
            r.action == action,
            r.score == WINNING_MOVE_SCORE,
    {
        ScoredMove { action, score: WINNING_MOVE_SCORE }
    }

    pub fn new_checking_move(action: GenericMove) -> (r: ScoredMove)
        ensures
            r.action == action,
            r.score == CHECKING_MOVE_SCORE,
    {
        ScoredMove { action, score: CHECKING_MOVE_SCORE }
    }

    pub fn new_improving_move(action: GenericMove) -> (r: ScoredMove)
        ensures
            r.action == action,
            r.score == IMPROVING_MOVE_SCORE,
    {
        ScoredMove { action, score: IMPROVING_MOVE_SCORE }
    }

    pub fn new_non_improver(action: GenericMove) -> (r: ScoredMove)
        ensures
            r.action == action,
            r.score == NON_IMPROVER_SCORE,
    {
        ScoredMove { action, score: NON_IMPROVER_SCORE }
    }

    pub fn new_unscored_move(action: GenericMove) -> (r: ScoredMove)
        ensures
            r.action == action,
            r.score == UNSCORED_MOVE_SCORE,
    {
        ScoredMove { action, score: UNSCORED_MOVE_SCORE }
    }

    pub fn get_is_winning(self) -> (r: bool)
        ensures
            r == is_winning_data(self.action.0),
    {
        self.action.get_is_winning()
    }
}

pub fn is_mate_only(flags: MoveGenFlags) -> (r: bool)
    ensures
        r == (flags & MATE_ONLY != 0),
{
    flags & MATE_ONLY != 0
}

pub fn is_include_score(flags: MoveGenFlags) -> (r: bool)
    ensures
        r == (flags & INCLUDE_SCORE != 0),
{
    flags & INCLUDE_SCORE != 0
}

pub fn is_stop_on_mate(flags: MoveGenFlags) -> (r: bool)
    ensures
        r == (flags & STOP_ON_MATE != 0),
{
    flags & STOP_ON_MATE != 0
}

pub fn is_interact_with_key_squares(flags: MoveGenFlags) -> (r: bool)
    ensures
        r == (flags & INTERACT_WITH_KEY_SQUARES != 0),
{
    flags & INTERACT_WITH_KEY_SQUARES != 0
}

/// The score a generated move carries: none unless asked for, else by whether it threatens a
/// win next turn and whether it climbs.
pub open spec fn scored_move_score(flags: MoveGenFlags, is_check: bool, is_improving: bool) -> u8 {
    if flags & INCLUDE_SCORE == 0 {
        UNSCORED_MOVE_SCORE
    } else if is_check {
        CHECKING_MOVE_SCORE
    } else if is_improving {
        IMPROVING_MOVE_SCORE
    } else {
        NON_IMPROVER_SCORE
    }
}

pub fn build_scored_move(flags: MoveGenFlags, action: GenericMove, is_check: bool, is_improving: bool) -> (r: ScoredMove)
    ensures
        r.action == action,
        r.score == scored_move_score(flags, is_check, is_improving),
{
    if !is_include_score(flags) {
        ScoredMove::new_unscored_move(action)
    } else if is_check {
        ScoredMove::new_checking_move(action)
    } else if is_improving {
        ScoredMove::new_improving_move(action)
    } else {
        ScoredMove::new_non_improver(action)
    }
}

} // verus!
