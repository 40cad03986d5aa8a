use vstd::prelude::*;

use crate::gods::{BoardSymmetry, PlacementType, god_power, GodName, GodPower};

use crate::bitboard::{
    bit, group_bit_lemmas, lemma_board_squares, lemma_main_section, lemma_squares_below, popcount, squares_below,
    BitBoard, MAIN_SECTION,
};
use crate::board::{BoardState, FullGameState, Player};
use crate::generic::{
    build_scored_move, field_at, is_interact_with_key_squares, is_mate_only, is_winning_data, lemma_pack5,
    read_position, GenericMove, MoveData, MoveGenFlags, ScoredMove, MOVE_IS_WINNING_MASK, NARROWING_FLAGS,
};
use crate::gods::mortal::{
    is_acting_worker, is_standard_build_for, lemma_lists_word_grows, lemma_move_worker_keeps_wf, lemma_mortal_move_round_trip,
    lists_word, mortal_winning_data,
};
use crate::gods::move_helpers::{
    get_generator_prelude_state, get_worker_end_move_state, get_worker_next_build_state, get_worker_next_move_state,
    get_worker_start_move_state, is_standard_build, is_standard_step, is_winning_entry,
    modify_prelude_for_checking_workers, push_winning_moves, GeneratorPreludeState,
};
use crate::square::{is_adjacent, is_square, Square};

verus! {

pub const NEMESIS_MOVE_FROM_POSITION_OFFSET: u32 = 0;

pub const NEMESIS_MOVE_TO_POSITION_OFFSET: u32 = 5;

pub const NEMESIS_BUILD_POSITION_OFFSET: u32 = 10;

pub const NEMESIS_SWAP_1_OFFSET: u32 = 15;

pub const NEMESIS_SWAP_2_OFFSET: u32 = 20;

/// The value of a swap field that names no square.
pub const NO_SWAP: u32 = 25;

/// A Nemesis turn: move and build, then possibly trade places with opposing workers. The two swap
/// fields name the squares taken over; 25 in the first means no trade, 25 in the second a single
/// one.
#[derive(Clone, Copy, PartialEq, Eq, Structural, Debug)]
pub struct NemesisMove(pub MoveData);

/// The word of a Nemesis turn, field by field.
pub open spec fn nemesis_word(from: u32, to: u32, build: u32, swap_1: u32, swap_2: u32) -> u32 {
    from | (to << 5u32) | (build << 10u32) | (swap_1 << 15u32) | (swap_2 << 20u32)
}

/// The player's workers that trade places in a swap: `to` and, for a double swap, the lowest other
/// worker of the player apart from the one that left `from`.
pub open spec fn nemesis_partner(board: BoardState, player: Player, from: int, to: int) -> int {
    choose|i: int|
        0 <= i < 25 && board.workers[player.idx()].has(i) && i != from && i != to && forall|j: int|
            0 <= j < i ==> !(#[trigger] board.workers[player.idx()].has(j) && j != from && j != to)
}

/// The squares whose occupants change sides in a turn, as a mask: none without a trade; for a
/// single trade the mover's square and the one it takes; for a double trade both of the player's
/// workers and both named squares.
pub open spec fn nemesis_swap_bits(board: BoardState, player: Player, data: u32) -> u32 {
    let from = field_at(data, 0);
    let to = field_at(data, 5);
    let s1 = field_at(data, 15);
    let s2 = field_at(data, 20);
    if is_winning_data(data) || s1 == NO_SWAP {
        0
    } else if s2 == NO_SWAP {
        (1u32 << s1) ^ (1u32 << to)
    } else {
        (1u32 << s1) ^ (1u32 << s2) ^ (1u32 << to) ^ (1u32 << (nemesis_partner(board, player, from as int, to as int) as u32))
    }
}

/// What a board needs for a Nemesis word to be played on it: the mover is the player's and lands on
/// a free square; a single trade takes an opposing worker's square; a double trade takes the
/// squares of two different opposing workers, or (naming `to` first) lets the player's other
/// worker take one opposing worker's square; and a double trade needs that other worker.
pub open spec fn nemesis_fits(board: BoardState, player: Player, data: u32) -> bool {
    let p = player.idx();
    let from = field_at(data, 0) as int;
    let to = field_at(data, 5) as int;
    let s1 = field_at(data, 15);
    let s2 = field_at(data, 20);
    &&& board.workers[p].has(from)
    &&& !board.occupied(to)
    &&& (!is_winning_data(data) && s1 != NO_SWAP ==> if s2 == NO_SWAP {
        board.workers[1 - p].has(s1 as int)
    } else {
        &&& board.workers[1 - p].has(s2 as int)
        &&& (s1 as int == to || (board.workers[1 - p].has(s1 as int) && s1 != s2))
        &&& exists|i: int| 0 <= i < 25 && #[trigger] board.workers[p].has(i) && i != from
    })
}

impl NemesisMove {
    fn new_word(from: Square, to: Square, build: Square, swap_1: u32, swap_2: u32) -> (r: Self)
        requires
            from < 25,
            to < 25,
            build < 25,
            swap_1 <= 25,
            swap_2 <= 25,
        ensures
            r.0 == nemesis_word(from as u32, to as u32, build as u32, swap_1, swap_2),
    {
        NemesisMove((from as u32) | ((to as u32) << 5u32) | ((build as u32) << 10u32) | (swap_1 << 15u32) | (swap_2
            << 20u32))
    }

    pub fn new_basic_move(move_from_position: Square, move_to_position: Square, build_position: Square) -> (r: Self)
        requires
            move_from_position < 25,
            move_to_position < 25,
            build_position < 25,
        ensures
            r.0 == nemesis_word(move_from_position as u32, move_to_position as u32, build_position as u32, NO_SWAP, 0),
    {
        Self::new_word(move_from_position, move_to_position, build_position, NO_SWAP, 0)
    }

    pub fn new_winning_move(move_from_position: Square, move_to_position: Square) -> (r: Self)
        requires
            move_from_position < 25,
            move_to_position < 25,
        ensures
            r.0 == mortal_winning_data(move_from_position as u32, move_to_position as u32),
    {
        NemesisMove((move_from_position as u32) | ((move_to_position as u32) << 5u32) | MOVE_IS_WINNING_MASK)
    }

    pub fn new_single_swap(move_from_position: Square, move_to_position: Square, build_position: Square, swap_1: Square) -> (r:
        Self)
        requires
            move_from_position < 25,
            move_to_position < 25,
            build_position < 25,
            swap_1 < 25,
        ensures
            r.0 == nemesis_word(
                move_from_position as u32,
                move_to_position as u32,
                build_position as u32,
                swap_1 as u32,
                NO_SWAP,
            ),
    {
        Self::new_word(move_from_position, move_to_position, build_position, swap_1 as u32, NO_SWAP)
    }

    pub fn new_double_swap(
        move_from_position: Square,
        move_to_position: Square,
        build_position: Square,
        swap_1: Square,
        swap_2: Square,
    ) -> (r: Self)
        requires
            move_from_position < 25,
            move_to_position < 25,
            build_position < 25,
            swap_1 < 25,
            swap_2 < 25,
        ensures
            r.0 == nemesis_word(
                move_from_position as u32,
                move_to_position as u32,
                build_position as u32,
                swap_1 as u32,
                swap_2 as u32,
            ),
    {
        Self::new_word(move_from_position, move_to_position, build_position, swap_1 as u32, swap_2 as u32)
    }

    pub fn move_from_position(&self) -> (r: Square)
        ensures
            r == field_at(self.0, 0),
    {
        read_position(self.0, NEMESIS_MOVE_FROM_POSITION_OFFSET)
    }

    pub fn move_to_position(&self) -> (r: Square)
        ensures
            r == field_at(self.0, 5),
    {
        read_position(self.0, NEMESIS_MOVE_TO_POSITION_OFFSET)
    }

    pub fn build_position(self) -> (r: Square)
        ensures
            r == field_at(self.0, 10),
    {
        read_position(self.0, NEMESIS_BUILD_POSITION_OFFSET)
    }

    /// The first square traded for, if any.
    pub fn maybe_swap_1(self) -> (r: Option<Square>)
        ensures
            field_at(self.0, 15) == NO_SWAP ==> r is None,
            field_at(self.0, 15) != NO_SWAP ==> r == Some(field_at(self.0, 15) as u8),
            field_at(self.0, 15) < 32,
    {
        let swap_1 = read_position(self.0, NEMESIS_SWAP_1_OFFSET);
        if swap_1 as u32 == NO_SWAP {
            None
        } else {
            Some(swap_1)
        }
    }

    /// The second square traded for, if any.
    pub fn maybe_swap_2(self) -> (r: Option<Square>)
        ensures
            field_at(self.0, 20) == NO_SWAP ==> r is None,
            field_at(self.0, 20) != NO_SWAP ==> r == Some(field_at(self.0, 20) as u8),
            field_at(self.0, 20) < 32,
    {
        let swap_2 = read_position(self.0, NEMESIS_SWAP_2_OFFSET);
        if swap_2 as u32 == NO_SWAP {
            None
        } else {
            Some(swap_2)
        }
    }

    pub fn get_is_winning(&self) -> (r: bool)
        ensures
            r == is_winning_data(self.0),
    {
        (self.0 & MOVE_IS_WINNING_MASK) != 0
    }

    /// Plays the turn: the worker moves, and either wins or builds; then the named trades happen,
    /// each square changing from one side to the other.
    pub fn make_move(self, board: &mut BoardState, player: Player)
        requires
            field_at(self.0, 0) < 25,
            field_at(self.0, 5) < 25,
            field_at(self.0, 10) < 25,
            !is_winning_data(self.0) ==> old(board).height(field_at(self.0, 10) as int) < 4,
            !is_winning_data(self.0) && field_at(self.0, 15) != NO_SWAP && field_at(self.0, 20) != NO_SWAP ==> {
                &&& old(board).workers[player.idx()].has(field_at(self.0, 0) as int)
                &&& !old(board).workers[player.idx()].has(field_at(self.0, 5) as int)
                &&& exists|i: int|
                    0 <= i < 25 && #[trigger] old(board).workers[player.idx()].has(i) && i != field_at(self.0, 0) && i
                        != field_at(self.0, 5)
            },
        ensures
            final(board).workers[player.idx()].0 == old(board).workers[player.idx()].0 ^ ((1u32 << field_at(self.0, 0))
                ^ (1u32 << field_at(self.0, 5))) ^ nemesis_swap_bits(*old(board), player, self.0),
            final(board).workers[1 - player.idx()].0 == old(board).workers[1 - player.idx()].0 ^ nemesis_swap_bits(
                *old(board),
                player,
                self.0,
            ),
            final(board).god_data == old(board).god_data,
            final(board).current_player == old(board).current_player,
            is_winning_data(self.0) ==> final(board).winner == Some(player) && final(board).height_map == old(
                board,
            ).height_map,
            !is_winning_data(self.0) ==> final(board).winner == old(board).winner,
            !is_winning_data(self.0) ==> final(board).height(field_at(self.0, 10) as int) == old(board).height(
                field_at(self.0, 10) as int,
            ) + 1,
            !is_winning_data(self.0) ==> forall|i: int| i != field_at(self.0, 10) ==> #[trigger] final(board).height(i)
                == old(board).height(i),
            old(board).wf() && nemesis_fits(*old(board), player, self.0) ==> final(board).wf(),
    {
        broadcast use group_bit_lemmas;

        let ghost before = *board;
        let from = self.move_from_position();
        let to = self.move_to_position();
        let move_from = BitBoard::as_mask(from);
        let move_to = BitBoard::as_mask(to);
        board.worker_xor(player, move_from.xor(move_to));
        proof {
            lemma_move_worker_keeps_wf(before, *board, player, from as u32, to as u32);
        }
        if self.get_is_winning() {
            board.set_winner(player);
            return;
        }
        board.build_up(self.build_position());
        let ghost mid = *board;
        let other = player.other();
        match self.maybe_swap_1() {
            None => {},
            Some(swap_1) => {
                match self.maybe_swap_2() {
                    Some(swap_2) => {
                        let own_1 = move_to;
                        let rest = board.workers[player.index()].xor(own_1);
                        proof {
                            let w = choose|i: int|
                                0 <= i < 25 && #[trigger] before.workers[player.idx()].has(i) && i != from && i != to;
                            assert(rest.has(w));
                        }
                        let partner = rest.lsb();
                        proof {
                            lemma_partner_is_lowest(before, player, from as int, to as int, partner as int, rest);
                        }
                        let own_2 = BitBoard::as_mask(partner);
                        let swap_mask = BitBoard::as_mask(swap_1).xor(BitBoard::as_mask(swap_2)).xor(own_1).xor(own_2);
                        board.worker_xor(player, swap_mask);
                        board.worker_xor(other, swap_mask);
                        proof {
                            if before.wf() && nemesis_fits(before, player, self.0) {
                                lemma_double_swap_keeps_wf(mid, *board, player, to as int, partner as int, swap_1 as int, swap_2 as int, swap_mask.0);
                            }
                        }
                    },
                    None => {
                        let swap_mask = BitBoard::as_mask(swap_1).xor(move_to);
                        board.worker_xor(player, swap_mask);
                        board.worker_xor(other, swap_mask);
                        proof {
                            if before.wf() && nemesis_fits(before, player, self.0) {
                                lemma_single_swap_keeps_wf(mid, *board, player, to as int, swap_1 as int, swap_mask.0);
                            }
                        }
                    },
                }
            },
        }
        proof {
            assert(board.height_map == mid.height_map);
            assert forall|i: int| i != field_at(self.0, 10) implies #[trigger] board.height(i) == before.height(i) by {
                assert(board.height(i) == mid.height(i));
            }
        }
    }

    /// The squares an opponent would have to touch to stop this move: its start and end.
    pub fn get_blocker_board(self) -> (r: BitBoard)
        requires
            field_at(self.0, 0) < 25,
            field_at(self.0, 5) < 25,
        ensures
            r.0 == (1u32 << field_at(self.0, 0)) | (1u32 << field_at(self.0, 5)),
    {
        BitBoard::as_mask(self.move_from_position()).or(BitBoard::as_mask(self.move_to_position()))
    }

    pub fn to_generic(self) -> (r: GenericMove)
        ensures
            r.0 == self.0,
    {
        GenericMove(self.0)
    }

    pub fn from_generic(action: GenericMove) -> (r: Self)
        ensures
            r.0 == action.0,
    {
        NemesisMove(action.0)
    }
}

/// The square `lsb` finds among the player's workers, once the mover has left `from` for `to`, is
/// the partner of the trade.
proof fn lemma_partner_is_lowest(before: BoardState, player: Player, from: int, to: int, r: int, rest: BitBoard)
    requires
        0 <= from < 25,
        0 <= to < 25,
        before.workers[player.idx()].has(from),
        !before.workers[player.idx()].has(to),
        forall|i: int| #[trigger] rest.has(i) == (before.workers[player.idx()].has(i) != (i == from || i == to) != (i == to)),
        0 <= r < 25,
        rest.has(r),
        forall|i: int| 0 <= i < r ==> !#[trigger] rest.has(i),
    ensures
        r == nemesis_partner(before, player, from, to),
        before.workers[player.idx()].has(r),
        r != from,
        r != to,
{
    let p = player.idx();
    let w = before.workers[p];
    assert(from != to);
    assert(w.has(r) && r != from && r != to);
    assert forall|j: int| 0 <= j < r implies !(#[trigger] w.has(j) && j != from && j != to) by {
        assert(!rest.has(j));
    }
    let c = nemesis_partner(before, player, from, to);
    assert(0 <= c < 25 && w.has(c) && c != from && c != to && forall|j: int|
        0 <= j < c ==> !(#[trigger] w.has(j) && j != from && j != to));
    if c < r {
        assert(!rest.has(c));
    }
    if r < c {
        assert(!(w.has(r) && r != from && r != to));
    }
}

/// A single trade on a well formed board: the player's worker on `to` and the opposing worker on
/// `s` change places, and the board stays well formed.
pub proof fn lemma_single_swap_keeps_wf(mid: BoardState, after: BoardState, player: Player, to: int, s: int, mask: u32)
    requires
        mid.wf(),
        0 <= to < 25,
        0 <= s < 25,
        mid.workers[player.idx()].has(to),
        mid.workers[1 - player.idx()].has(s),
        mask == (1u32 << (s as u32)) ^ (1u32 << (to as u32)),
        after.workers[player.idx()].0 == mid.workers[player.idx()].0 ^ mask,
        after.workers[1 - player.idx()].0 == mid.workers[1 - player.idx()].0 ^ mask,
        after.height_map == mid.height_map,
    ensures
        after.wf(),
        forall|i: int| #[trigger] after.workers[player.idx()].has(i) == (i == s || (mid.workers[player.idx()].has(i) && i != to)),
        forall|i: int| #[trigger] after.workers[1 - player.idx()].has(i) == (i == to || (mid.workers[1 - player.idx()].has(i)
            && i != s)),
{
    broadcast use group_bit_lemmas;

    let p = player.idx();
    assert(mid.workers[0].within_board() && mid.workers[1].within_board());
    assert(s != to) by {
        assert(!(mid.workers[0].has(s) && mid.workers[1].has(s)));
    }
    assert forall|i: int| #[trigger] BitBoard(mask).has(i) == (i == s || i == to) by {
        if 0 <= i < 32 {
            crate::bitboard::lemma_bit_xor(1u32 << (s as u32), 1u32 << (to as u32), i as u32);
        }
    }
    assert forall|i: int| #[trigger] after.workers[p].has(i) == (i == s || (mid.workers[p].has(i) && i != to)) by {
        if 0 <= i < 32 {
            crate::bitboard::lemma_bit_xor(mid.workers[p].0, mask, i as u32);
            assert(BitBoard(mask).has(i) == (i == s || i == to));
            assert(!(mid.workers[0].has(i) && mid.workers[1].has(i)));
        }
    }
    assert forall|i: int| #[trigger] after.workers[1 - p].has(i) == (i == to || (mid.workers[1 - p].has(i) && i != s)) by {
        if 0 <= i < 32 {
            crate::bitboard::lemma_bit_xor(mid.workers[1 - p].0, mask, i as u32);
            assert(BitBoard(mask).has(i) == (i == s || i == to));
            assert(!(mid.workers[0].has(i) && mid.workers[1].has(i)));
        }
    }
    assert forall|i: int| !(#[trigger] after.workers[0].has(i) && after.workers[1].has(i)) by {
        assert(!(mid.workers[0].has(i) && mid.workers[1].has(i)));
    }
}

/// A double trade on a well formed board: the player's workers on `a` and `b` take the squares `s`
/// and `t`, whose opposing workers (or the player's own on `a`, when `s` is `a`) take theirs, and
/// the board stays well formed.
pub proof fn lemma_double_swap_keeps_wf(
    mid: BoardState,
    after: BoardState,
    player: Player,
    a: int,
    b: int,
    s: int,
    t: int,
    mask: u32,
)
    requires
        mid.wf(),
        0 <= a < 25,
        0 <= b < 25,
        0 <= s < 25,
        0 <= t < 25,
        a != b,
        mid.workers[player.idx()].has(a),
        mid.workers[player.idx()].has(b),
        mid.workers[1 - player.idx()].has(t),
        s == a || (mid.workers[1 - player.idx()].has(s) && s != t),
        mask == (1u32 << (s as u32)) ^ (1u32 << (t as u32)) ^ (1u32 << (a as u32)) ^ (1u32 << (b as u32)),
        after.workers[player.idx()].0 == mid.workers[player.idx()].0 ^ mask,
        after.workers[1 - player.idx()].0 == mid.workers[1 - player.idx()].0 ^ mask,
        after.height_map == mid.height_map,
    ensures
        after.wf(),
        s != a ==> forall|i: int| #[trigger] after.workers[player.idx()].has(i) == (i == s || i == t || (
        mid.workers[player.idx()].has(i) && i != a && i != b)),
        s != a ==> forall|i: int| #[trigger] after.workers[1 - player.idx()].has(i) == (i == a || i == b || (mid.workers[1
            - player.idx()].has(i) && i != s && i != t)),
        s == a ==> forall|i: int| #[trigger] after.workers[player.idx()].has(i) == (i == t || (mid.workers[player.idx()].has(i)
            && i != b)),
        s == a ==> forall|i: int| #[trigger] after.workers[1 - player.idx()].has(i) == (i == b || (mid.workers[1
            - player.idx()].has(i) && i != t)),
{
    broadcast use group_bit_lemmas;

    let p = player.idx();
    assert(mid.workers[0].within_board() && mid.workers[1].within_board());
    assert(!(mid.workers[0].has(t) && mid.workers[1].has(t)));
    assert(!(mid.workers[0].has(s) && mid.workers[1].has(s)));
    assert(t != a && t != b);
    assert(s != a ==> s != b);
    let sa = (1u32 << (s as u32)) ^ (1u32 << (t as u32));
    let sb = sa ^ (1u32 << (a as u32));
    assert forall|i: int| #[trigger] BitBoard(mask).has(i) == ((i == s) != (i == t) != (i == a) != (i == b)) by {
        if 0 <= i < 32 {
            crate::bitboard::lemma_bit_xor(sb, 1u32 << (b as u32), i as u32);
            crate::bitboard::lemma_bit_xor(sa, 1u32 << (a as u32), i as u32);
            crate::bitboard::lemma_bit_xor(1u32 << (s as u32), 1u32 << (t as u32), i as u32);
        }
    }
    assert forall|i: int| #[trigger] after.workers[p].has(i) == (mid.workers[p].has(i) != BitBoard(mask).has(i)) by {
        if 0 <= i < 32 {
            crate::bitboard::lemma_bit_xor(mid.workers[p].0, mask, i as u32);
        }
    }
    assert forall|i: int| #[trigger] after.workers[1 - p].has(i) == (mid.workers[1 - p].has(i) != BitBoard(mask).has(i)) by {
        if 0 <= i < 32 {
            crate::bitboard::lemma_bit_xor(mid.workers[1 - p].0, mask, i as u32);
        }
    }
    assert forall|i: int| !(#[trigger] after.workers[0].has(i) && after.workers[1].has(i)) by {
        assert(!(mid.workers[0].has(i) && mid.workers[1].has(i)));
        assert(after.workers[p].has(i) == (mid.workers[p].has(i) != BitBoard(mask).has(i)));
        assert(after.workers[1 - p].has(i) == (mid.workers[1 - p].has(i) != BitBoard(mask).has(i)));
    }
    assert(after.workers[0].within_board()) by {
        assert forall|i: int| #[trigger] after.workers[0].has(i) implies is_square(i) by {
            assert(mid.workers[0].has(i) || BitBoard(mask).has(i));
        }
    }
    assert(after.workers[1].within_board()) by {
        assert forall|i: int| #[trigger] after.workers[1].has(i) implies is_square(i) by {
            assert(mid.workers[1].has(i) || BitBoard(mask).has(i));
        }
    }
}

/// How many workers the player has.
pub open spec fn own_count(state: FullGameState, player: Player) -> nat {
    popcount(state.board.workers[player.idx()].0 & MAIN_SECTION, 32)
}

/// How many workers the opponent has.
pub open spec fn oppo_count(state: FullGameState, player: Player) -> nat {
    popcount(state.board.workers[1 - player.idx()].0 & MAIN_SECTION, 32)
}

/// The positions Nemesis's move generation is defined on: she has at most two workers, and against
/// a god with a distinguished worker she has two and faces at least two.
pub open spec fn nemesis_counts_ok(state: FullGameState, player: Player) -> bool {
    &&& own_count(state, player) <= 2
    &&& (state.gods[1 - player.idx()].has_female_worker_spec() ==> own_count(state, player) == 2 && oppo_count(
        state,
        player,
    ) >= 2)
}

/// Whether the generator is defined on the position.
pub fn has_supported_worker_counts(state: &FullGameState, player: Player) -> (r: bool)
    ensures
        r == nemesis_counts_ok(*state, player),
{
    let main = BitBoard::main_section();
    let own = state.board.workers[player.index()].and(main).count_ones();
    let oppo = state.board.workers[player.other().index()].and(main).count_ones();
    if state.gods[player.other().index()].has_female_worker() {
        own == 2 && oppo >= 2
    } else {
        own <= 2
    }
}

/// After the worker moved from `from` to `to`, none of the player's workers neighbours an opposing
/// one: the condition for Nemesis's power.
pub open spec fn nemesis_power_allowed(board: BoardState, player: Player, from: int, to: int) -> bool {
    let p = player.idx();
    &&& forall|o: int| #[trigger] board.workers[1 - p].has(o) ==> !is_adjacent(to, o)
    &&& forall|w: int, o: int|
        #[trigger] board.workers[p].has(w) && #[trigger] board.workers[1 - p].has(o) && w != from ==> !is_adjacent(w, o)
}

/// The trades Nemesis may choose once her worker reached `to`: as many opposing workers as possible
/// take the squares of hers. Against a god with a distinguished worker both her workers trade; a
/// lone worker trades with any one opposing worker; two workers facing one trade either of them
/// with it (naming `to` first for the one that did not move); two workers facing more trade with
/// any two.
pub open spec fn is_nemesis_swap_choice(state: FullGameState, player: Player, to: u32, s1: u32, s2: u32) -> bool {
    let oppo = state.board.workers[1 - player.idx()];
    let double = s1 != s2 && oppo.has(s1 as int) && oppo.has(s2 as int) && own_count(state, player) == 2;
    if state.gods[1 - player.idx()].has_female_worker_spec() {
        double
    } else if own_count(state, player) == 1 {
        s2 == NO_SWAP && oppo.has(s1 as int)
    } else if oppo_count(state, player) == 1 {
        &&& own_count(state, player) == 2
        &&& ((s2 == NO_SWAP && oppo.has(s1 as int)) || (s1 == to && oppo.has(s2 as int)))
    } else {
        double
    }
}

/// A word that trades after moving from `from` to `to` and building on `build`.
pub open spec fn is_nemesis_swap(state: FullGameState, player: Player, from: u32, to: u32, build: u32, data: u32) -> bool {
    &&& data == nemesis_word(from, to, build, field_at(data, 15), field_at(data, 20))
    &&& is_nemesis_swap_choice(state, player, to, field_at(data, 15), field_at(data, 20))
}

/// A legal Nemesis turn, read off its word: a plain move that wins, or a plain move and build,
/// possibly followed by trades when no worker of hers neighbours an opposing one.
pub open spec fn is_nemesis_turn(state: FullGameState, player: Player, must_climb: bool, data: u32) -> bool {
    let board = state.board;
    let from = field_at(data, 0);
    let to = field_at(data, 5);
    let build = field_at(data, 10);
    &&& is_acting_worker(state, player, from as int)
    &&& is_standard_step(board, from as int, to as int, must_climb)
    &&& if is_winning_data(data) {
        &&& data == mortal_winning_data(from, to)
        &&& board.height(from as int) == 2
        &&& board.height(to as int) == 3
    } else {
        &&& !(board.height(from as int) == 2 && board.height(to as int) == 3)
        &&& is_standard_build_for(state, player, from as int, to as int, build as int)
        &&& (data == nemesis_word(from, to, build, NO_SWAP, 0) || (nemesis_power_allowed(board, player, from as int, to as int)
            && is_nemesis_swap(state, player, from, to, build, data)))
    }
}

/// A set with a member on the board counts at least one member.
proof fn lemma_count_positive(w: BitBoard, a: int)
    requires
        0 <= a < 25,
        w.has(a),
    ensures
        popcount(w.0 & MAIN_SECTION, 32) >= 1,
{
    broadcast use group_bit_lemmas, lemma_main_section;

    let own = BitBoard(w.0 & MAIN_SECTION);
    assert(own.within_board());
    lemma_board_squares(own);
    lemma_squares_below(own.0, 25);
    assert(bit(own.0, a as u32));
    assert(squares_below(own.0, 25).contains(a as u8));
}

/// A set of two members has a member other than `a`.
proof fn lemma_second_member(w: BitBoard, a: int)
    requires
        popcount(w.0 & MAIN_SECTION, 32) == 2,
    ensures
        exists|i: int| 0 <= i < 25 && #[trigger] w.has(i) && i != a,
{
    broadcast use group_bit_lemmas, lemma_main_section;

    let own = BitBoard(w.0 & MAIN_SECTION);
    assert(own.within_board());
    lemma_board_squares(own);
    let sq = squares_below(own.0, 25);
    let x = sq[0];
    let y = sq[1];
    assert(x < y);
    assert(own.has(x as int) && own.has(y as int));
    if x as int != a {
        assert(w.has(x as int));
    } else {
        assert(w.has(y as int));
    }
}

/// A Nemesis turn can be played: its squares are on the board, a build goes on an undomed square,
/// and the board holds what its trades need.
pub proof fn lemma_nemesis_turn_playable(state: FullGameState, player: Player, data: u32)
    requires
        state.board.wf(),
        is_nemesis_turn(state, player, false, data),
    ensures
        field_at(data, 0) < 25,
        field_at(data, 5) < 25,
        field_at(data, 10) < 25,
        !is_winning_data(data) ==> state.board.height(field_at(data, 10) as int) < 4,
        nemesis_fits(state.board, player, data),
        !is_winning_data(data) && field_at(data, 15) != NO_SWAP && field_at(data, 20) != NO_SWAP ==> {
            &&& state.board.workers[player.idx()].has(field_at(data, 0) as int)
            &&& !state.board.workers[player.idx()].has(field_at(data, 5) as int)
            &&& exists|i: int|
                0 <= i < 25 && #[trigger] state.board.workers[player.idx()].has(i) && i != field_at(data, 0) && i
                    != field_at(data, 5)
        },
{
    let board = state.board;
    let p = player.idx();
    let from = field_at(data, 0);
    let to = field_at(data, 5);
    let build = field_at(data, 10);
    let s1 = field_at(data, 15);
    let s2 = field_at(data, 20);
    let oppo = board.workers[1 - p];
    assert(board.workers[p].has(from as int));
    assert(oppo.within_board());
    crate::generic::lemma_field_small(data, 15);
    crate::generic::lemma_field_small(data, 20);
    if is_winning_data(data) {
        lemma_mortal_move_round_trip(from, to, 0);
    } else if data == nemesis_word(from, to, build, NO_SWAP, 0) {
        lemma_pack5(from, to, build, NO_SWAP, 0);
    } else {
        lemma_pack5(from, to, build, s1, s2);
        if s2 != NO_SWAP {
            assert(own_count(state, player) == 2);
            lemma_second_member(board.workers[p], from as int);
            let i = choose|i: int| 0 <= i < 25 && #[trigger] board.workers[p].has(i) && i != from;
            assert(board.workers[p].has(i) && i != to);
        }
    }
}

/// What the generator knows of its position while it works.
pub open spec fn nemesis_prelude_matches(prelude: GeneratorPreludeState, state: FullGameState, player: Player) -> bool {
    &&& prelude.inv()
    &&& state.board.wf()
    &&& prelude.board == state.board
    &&& prelude.player == player
    &&& prelude.other_god == state.gods[1 - player.idx()]
    &&& prelude.own_workers.0 == state.board.workers[player.idx()].0 & MAIN_SECTION
    &&& prelude.oppo_workers.0 == state.board.workers[1 - player.idx()].0 & MAIN_SECTION
    &&& forall|i: int| #[trigger] prelude.acting_workers.has(i) ==> is_acting_worker(state, player, i)
}

/// The move that starts a turn that does not win: an allowed worker steps from `from` to `to`.
pub open spec fn is_nemesis_step(state: FullGameState, player: Player, must_climb: bool, from: int, to: int) -> bool {
    &&& is_acting_worker(state, player, from)
    &&& is_standard_step(state.board, from, to, must_climb)
    &&& !(state.board.height(from) == 2 && state.board.height(to) == 3)
}

/// A trade chosen after a legal move and build makes a Nemesis turn.
proof fn lemma_swap_word_is_turn(
    state: FullGameState,
    player: Player,
    must_climb: bool,
    from: u32,
    to: u32,
    build: u32,
    s1: u32,
    s2: u32,
)
    requires
        from < 25,
        to < 25,
        build < 25,
        s1 <= 25,
        s2 <= 25,
        is_nemesis_step(state, player, must_climb, from as int, to as int),
        is_standard_build_for(state, player, from as int, to as int, build as int),
        nemesis_power_allowed(state.board, player, from as int, to as int),
        is_nemesis_swap_choice(state, player, to, s1, s2),
    ensures
        is_nemesis_turn(state, player, must_climb, nemesis_word(from, to, build, s1, s2)),
{
    lemma_pack5(from, to, build, s1, s2);
}

/// A plain move and build makes a Nemesis turn.
proof fn lemma_basic_word_is_turn(state: FullGameState, player: Player, must_climb: bool, from: u32, to: u32, build: u32)
    requires
        from < 25,
        to < 25,
        build < 25,
        is_nemesis_step(state, player, must_climb, from as int, to as int),
        is_standard_build_for(state, player, from as int, to as int, build as int),
    ensures
        is_nemesis_turn(state, player, must_climb, nemesis_word(from, to, build, NO_SWAP, 0)),
{
    lemma_pack5(from, to, build, NO_SWAP, 0);
}

/// Pushes, for each build of `builds`, the trade `(s1a, s2a)` and, when `has_second`, the trade
/// `(s1b, s2b)`; each is a check when its reach meets a level 3 square after the build.
/// A word of a step from `from` to `to` with a build among `builds` and the trade `s1a`, `s2a`,
/// or, with `has_second`, the trade `s1b`, `s2b`.
pub open spec fn is_swap_word_for(
    w: u32,
    from: u32,
    to: u32,
    builds: BitBoard,
    s1a: u32,
    s2a: u32,
    has_second: bool,
    s1b: u32,
    s2b: u32,
) -> bool {
    exists|b: int|
        0 <= b < 25 && #[trigger] builds.has(b) && (w == nemesis_word(from, to, b as u32, s1a, s2a) || (has_second && w == nemesis_word(
            from,
            to,
            b as u32,
            s1b,
            s2b,
        )))
}

/// The trades the generator names, in the order it names them: every trade Nemesis may choose,
/// two interchangeable opposing workers traded together being named lower first when they are
/// the only two and higher first when there are more.
pub open spec fn nemesis_swap_emitted(state: FullGameState, player: Player, to: u32, s1: u32, s2: u32) -> bool {
    let female = state.gods[1 - player.idx()].has_female_worker_spec();
    &&& is_nemesis_swap_choice(state, player, to, s1, s2)
    &&& !female && own_count(state, player) == 2 && oppo_count(state, player) == 2 ==> s1 < s2
    &&& !female && own_count(state, player) == 2 && oppo_count(state, player) > 2 ==> s1 > s2
}

/// A word of a step from `from` to `to`, a build among `builds` and a trade the generator names.
pub open spec fn is_emitted_swap_word(state: FullGameState, player: Player, from: u32, to: u32, builds: BitBoard, w: u32) -> bool {
    exists|b: int, s1: u32, s2: u32|
        #![trigger nemesis_word(from, to, b as u32, s1, s2)]
        0 <= b < 25 && builds.has(b) && nemesis_swap_emitted(state, player, to, s1, s2) && w == nemesis_word(from, to, b as u32, s1, s2)
}

/// The fields of a word of a given trade.
proof fn lemma_swap_word_fields(
    w: u32,
    from: u32,
    to: u32,
    builds: BitBoard,
    s1a: u32,
    s2a: u32,
    has_second: bool,
    s1b: u32,
    s2b: u32,
)
    requires
        from < 25,
        to < 25,
        s1a <= 25,
        s2a <= 25,
        s1b <= 25,
        s2b <= 25,
        is_swap_word_for(w, from, to, builds, s1a, s2a, has_second, s1b, s2b),
    ensures
        (field_at(w, 15) == s1a && field_at(w, 20) == s2a) || (has_second && field_at(w, 15) == s1b && field_at(w, 20) == s2b),
        field_at(w, 10) < 25,
        builds.has(field_at(w, 10) as int),
        w == nemesis_word(from, to, field_at(w, 10), field_at(w, 15), field_at(w, 20)),
{
    let b = choose|b: int|
        0 <= b < 25 && #[trigger] builds.has(b) && (w == nemesis_word(from, to, b as u32, s1a, s2a) || (has_second && w == nemesis_word(
            from,
            to,
            b as u32,
            s1b,
            s2b,
        )));
    lemma_pack5(from, to, b as u32, s1a, s2a);
    lemma_pack5(from, to, b as u32, s1b, s2b);
}

fn push_swap_builds(
    flags: MoveGenFlags,
    state: &FullGameState,
    player: Player,
    prelude: &GeneratorPreludeState,
    must_climb: bool,
    result: &mut Vec<ScoredMove>,
    start_pos: Square,
    end_pos: Square,
    builds: BitBoard,
    s1a: u32,
    s2a: u32,
    reach_a: BitBoard,
    improving_a: bool,
    has_second: bool,
    s1b: u32,
    s2b: u32,
    reach_b: BitBoard,
    improving_b: bool,
)
    requires
        nemesis_prelude_matches(*prelude, *state, player),
        start_pos < 25,
        end_pos < 25,
        s1a <= 25,
        s2a <= 25,
        s1b <= 25,
        s2b <= 25,
        is_nemesis_step(*state, player, must_climb, start_pos as int, end_pos as int),
        nemesis_power_allowed(state.board, player, start_pos as int, end_pos as int),
        forall|i: int| #[trigger] builds.has(i) ==> is_standard_build(state.board, prelude.build_mask, start_pos as int, end_pos as int, i),
        is_nemesis_swap_choice(*state, player, end_pos as u32, s1a, s2a),
        has_second ==> is_nemesis_swap_choice(*state, player, end_pos as u32, s1b, s2b),
        has_second ==> s1a != s1b || s2a != s2b,
        forall|k: int| 0 <= k < old(result)@.len() ==> #[trigger] is_nemesis_turn(*state, player, must_climb, old(result)@[k].action.0),
    ensures
        forall|k: int|
            old(result)@.len() <= k < final(result)@.len() ==> #[trigger] is_swap_word_for(
                final(result)@[k].action.0,
                start_pos as u32,
                end_pos as u32,
                builds,
                s1a,
                s2a,
                has_second,
                s1b,
                s2b,
            ),
        forall|i: int, j: int|
            #![trigger final(result)@[i], final(result)@[j]]
            old(result)@.len() <= i < j < final(result)@.len() ==> final(result)@[i].action.0 != final(result)@[j].action.0,
        forall|k: int| 0 <= k < final(result)@.len() ==> #[trigger] is_nemesis_turn(*state, player, must_climb, final(result)@[k].action.0),
        old(result)@.len() <= final(result)@.len(),
        forall|k: int| 0 <= k < old(result)@.len() ==> #[trigger] final(result)@[k] == old(result)@[k],
        forall|b: int| 0 <= b < 25 && #[trigger] builds.has(b) ==> lists_word(
            final(result)@,
            nemesis_word(start_pos as u32, end_pos as u32, b as u32, s1a, s2a),
        ) && (has_second ==> lists_word(final(result)@, nemesis_word(start_pos as u32, end_pos as u32, b as u32, s1b, s2b))),
{
    let ghost start_list = result@;
    let build_list = builds.squares();
    proof {
        crate::bitboard::lemma_squares_below(builds.0, 25);
    }
    let mut bi: usize = 0;
    while bi < build_list.len()
        invariant
            bi <= build_list@.len(),
            forall|x: int, y: int| 0 <= x < y < build_list@.len() ==> build_list@[x] < build_list@[y],
            has_second ==> s1a != s1b || s2a != s2b,
            forall|k: int|
                start_list.len() <= k < result@.len() ==> #[trigger] is_swap_word_for(
                    result@[k].action.0,
                    start_pos as u32,
                    end_pos as u32,
                    builds,
                    s1a,
                    s2a,
                    has_second,
                    s1b,
                    s2b,
                ),
            forall|k: int| #![trigger result@[k]]
                start_list.len() <= k < result@.len() ==> exists|j: int|
                    0 <= j < bi && #[trigger] build_list@[j] as u32 == field_at(result@[k].action.0, 10),
            forall|i: int, j: int|
                #![trigger result@[i], result@[j]]
                start_list.len() <= i < j < result@.len() ==> result@[i].action.0 != result@[j].action.0,
            nemesis_prelude_matches(*prelude, *state, player),
            start_pos < 25,
            end_pos < 25,
            s1a <= 25,
            s2a <= 25,
            s1b <= 25,
            s2b <= 25,
            is_nemesis_step(*state, player, must_climb, start_pos as int, end_pos as int),
            nemesis_power_allowed(state.board, player, start_pos as int, end_pos as int),
            forall|i: int| #[trigger] builds.has(i) ==> is_standard_build(state.board, prelude.build_mask, start_pos as int, end_pos as int, i),
            is_nemesis_swap_choice(*state, player, end_pos as u32, s1a, s2a),
            has_second ==> is_nemesis_swap_choice(*state, player, end_pos as u32, s1b, s2b),
            forall|k: int| 0 <= k < build_list@.len() ==> #[trigger] build_list@[k] < 25 && builds.has(build_list@[k] as int),
            forall|k: int| 0 <= k < result@.len() ==> #[trigger] is_nemesis_turn(*state, player, must_climb, result@[k].action.0),
            start_list.len() <= result@.len(),
            forall|k: int| 0 <= k < start_list.len() ==> #[trigger] result@[k] == start_list[k],
            forall|j: int| 0 <= j < bi ==> lists_word(
                result@,
                #[trigger] nemesis_word(start_pos as u32, end_pos as u32, build_list@[j] as u32, s1a, s2a),
            ) && (has_second ==> lists_word(result@, nemesis_word(start_pos as u32, end_pos as u32, build_list@[j] as u32, s1b, s2b))),
        decreases build_list@.len() - bi,
    {
        let build_pos = build_list[bi];
        let build_mask = BitBoard::as_mask(build_pos);
        let final_level_3 = prelude.exactly_level_2.and(build_mask).or(prelude.exactly_level_3.minus(build_mask));
        proof {
            assert(builds.has(build_pos as int));
            assert(prelude.build_mask.has(build_pos as int));
            assert(is_standard_build_for(*state, player, start_pos as int, end_pos as int, build_pos as int));
            lemma_swap_word_is_turn(*state, player, must_climb, start_pos as u32, end_pos as u32, build_pos as u32, s1a, s2a);
            if has_second {
                lemma_swap_word_is_turn(*state, player, must_climb, start_pos as u32, end_pos as u32, build_pos as u32, s1b, s2b);
            }
        }
        let ghost before = result@;
        let first = NemesisMove::new_word(start_pos, end_pos, build_pos, s1a, s2a);
        result.push(build_scored_move(flags, first.to_generic(), reach_a.and(final_level_3).is_not_empty(), improving_a));
        let ghost mid = result@;
        if has_second {
            let second = NemesisMove::new_word(start_pos, end_pos, build_pos, s1b, s2b);
            result.push(build_scored_move(flags, second.to_generic(), reach_b.and(final_level_3).is_not_empty(), improving_b));
        }
        proof {
            lemma_pack5(start_pos as u32, end_pos as u32, build_pos as u32, s1a, s2a);
            lemma_pack5(start_pos as u32, end_pos as u32, build_pos as u32, s1b, s2b);
            let w1 = nemesis_word(start_pos as u32, end_pos as u32, build_pos as u32, s1a, s2a);
            let w2 = nemesis_word(start_pos as u32, end_pos as u32, build_pos as u32, s1b, s2b);
            assert(mid[before.len() as int].action.0 == w1);
            assert(is_swap_word_for(w1, start_pos as u32, end_pos as u32, builds, s1a, s2a, has_second, s1b, s2b));
            if has_second {
                assert(result@[mid.len() as int].action.0 == w2);
                assert(is_swap_word_for(w2, start_pos as u32, end_pos as u32, builds, s1a, s2a, has_second, s1b, s2b));
            }
            assert forall|k: int|
                start_list.len() <= k < result@.len() implies #[trigger] is_swap_word_for(
                result@[k].action.0,
                start_pos as u32,
                end_pos as u32,
                builds,
                s1a,
                s2a,
                has_second,
                s1b,
                s2b,
            ) by {
                if k < before.len() {
                    assert(result@[k] == before[k]);
                } else if k == before.len() {
                    assert(result@[k] == mid[k]);
                }
            }
            assert forall|k: int| #![trigger result@[k]]
                start_list.len() <= k < result@.len() implies exists|j: int|
                    0 <= j < bi + 1 && #[trigger] build_list@[j] as u32 == field_at(result@[k].action.0, 10) by {
                if k < before.len() {
                    assert(result@[k] == before[k]);
                    let j = choose|j: int| 0 <= j < bi && #[trigger] build_list@[j] as u32 == field_at(before[k].action.0, 10);
                    assert(build_list@[j] as u32 == field_at(result@[k].action.0, 10));
                } else {
                    if k == before.len() {
                        assert(result@[k] == mid[k]);
                    }
                    assert(build_list@[bi as int] as u32 == field_at(result@[k].action.0, 10));
                }
            }
            assert forall|i: int, j: int|
                #![trigger result@[i], result@[j]]
                start_list.len() <= i < j < result@.len() implies result@[i].action.0 != result@[j].action.0 by {
                if j >= before.len() {
                    if i < before.len() {
                        assert(result@[i] == before[i]);
                        let x = choose|x: int| 0 <= x < bi && #[trigger] build_list@[x] as u32 == field_at(before[i].action.0, 10);
                        assert(build_list@[x] < build_list@[bi as int]);
                        if j == before.len() {
                            assert(result@[j] == mid[j]);
                        }
                        assert(field_at(result@[j].action.0, 10) == build_pos);
                    } else {
                        assert(i == before.len() && j == before.len() + 1);
                        assert(result@[i] == mid[i]);
                    }
                } else {
                    assert(result@[i] == before[i]);
                    assert(result@[j] == before[j]);
                }
            }
            lemma_lists_word_grows(before, mid);
            lemma_lists_word_grows(mid, result@);
            assert(lists_word(mid, nemesis_word(start_pos as u32, end_pos as u32, build_pos as u32, s1a, s2a))) by {
                assert(mid[before.len() as int].action.0 == nemesis_word(start_pos as u32, end_pos as u32, build_pos as u32, s1a, s2a));
            }
            if has_second {
                assert(result@[mid.len() as int].action.0 == nemesis_word(start_pos as u32, end_pos as u32, build_pos as u32, s1b, s2b));
            }
            assert forall|j: int| 0 <= j < bi + 1 implies lists_word(
                result@,
                #[trigger] nemesis_word(start_pos as u32, end_pos as u32, build_list@[j] as u32, s1a, s2a),
            ) && (has_second ==> lists_word(result@, nemesis_word(start_pos as u32, end_pos as u32, build_list@[j] as u32, s1b, s2b))) by {
                if j < bi {
                    assert(lists_word(before, nemesis_word(start_pos as u32, end_pos as u32, build_list@[j] as u32, s1a, s2a)));
                    assert(lists_word(mid, nemesis_word(start_pos as u32, end_pos as u32, build_list@[j] as u32, s1a, s2a)));
                    if has_second {
                        assert(lists_word(before, nemesis_word(start_pos as u32, end_pos as u32, build_list@[j] as u32, s1b, s2b)));
                        assert(lists_word(mid, nemesis_word(start_pos as u32, end_pos as u32, build_list@[j] as u32, s1b, s2b)));
                    }
                }
            }
        }
        bi = bi + 1;
    }
    proof {
        assert forall|b: int| 0 <= b < 25 && #[trigger] builds.has(b) implies lists_word(
            result@,
            nemesis_word(start_pos as u32, end_pos as u32, b as u32, s1a, s2a),
        ) && (has_second ==> lists_word(result@, nemesis_word(start_pos as u32, end_pos as u32, b as u32, s1b, s2b))) by {
            assert(build_list@.contains(b as u8));
            let j = choose|j: int| 0 <= j < build_list@.len() && build_list@[j] == b as u8;
            assert(build_list@[j] as u32 == b as u32);
            assert(lists_word(result@, nemesis_word(start_pos as u32, end_pos as u32, build_list@[j] as u32, s1a, s2a)));
        }
    }
}

/// The neighbours of `sq` when its worker stands on level 2, else nothing.
fn reach_if_level_2(prelude: &GeneratorPreludeState, sq: Square) -> (r: BitBoard)
    requires
        prelude.inv(),
        sq < 25,
    ensures
        forall|i: int| #[trigger] r.has(i) == (prelude.board.height(sq as int) == 2 && is_adjacent(sq as int, i)),
{
    if prelude.board.get_height(sq) == 2 {
        crate::bitboard::neighbor_mask(sq)
    } else {
        BitBoard::empty()
    }
}

/// The trades the generator lists after a step to `to`: every trade Nemesis may choose, except
/// that two opposing workers traded together are named in one order only (the lower square first
/// when they are the only two, the higher first when there are more), and that against a god with
/// a distinguished worker she trades only when it has exactly two workers.
pub open spec fn nemesis_swap_listed(state: FullGameState, player: Player, to: u32, s1: u32, s2: u32) -> bool {
    let female = state.gods[1 - player.idx()].has_female_worker_spec();
    &&& is_nemesis_swap_choice(state, player, to, s1, s2)
    &&& female ==> oppo_count(state, player) == 2
    &&& !female && own_count(state, player) == 2 && oppo_count(state, player) == 2 ==> s1 < s2
    &&& !female && own_count(state, player) == 2 && oppo_count(state, player) > 2 ==> s1 > s2
}

/// The trades open to Nemesis after her worker moved from `start_pos` to `end_pos`, for each of
/// `all_possible_builds`.
/// Field `off` of `w` is one of the first `n` squares of `s`.
pub open spec fn field_among(s: Seq<u8>, n: int, w: u32, off: u32) -> bool {
    exists|j: int| 0 <= j < n && #[trigger] s[j] as u32 == field_at(w, off)
}

/// A word of a trade the generator names, with a build among `builds`, is an emitted word.
proof fn lemma_swap_word_emitted(
    state: FullGameState,
    player: Player,
    w: u32,
    from: u32,
    to: u32,
    builds: BitBoard,
    all_builds: BitBoard,
    s1a: u32,
    s2a: u32,
    has_second: bool,
    s1b: u32,
    s2b: u32,
)
    requires
        is_swap_word_for(w, from, to, builds, s1a, s2a, has_second, s1b, s2b),
        forall|i: int| #[trigger] builds.has(i) ==> all_builds.has(i),
        nemesis_swap_emitted(state, player, to, s1a, s2a),
        has_second ==> nemesis_swap_emitted(state, player, to, s1b, s2b),
    ensures
        is_emitted_swap_word(state, player, from, to, all_builds, w),
{
    let b = choose|b: int|
        0 <= b < 25 && #[trigger] builds.has(b) && (w == nemesis_word(from, to, b as u32, s1a, s2a) || (has_second && w == nemesis_word(
            from,
            to,
            b as u32,
            s1b,
            s2b,
        )));
    assert(all_builds.has(b));
    if w == nemesis_word(from, to, b as u32, s1a, s2a) {
        assert(nemesis_word(from, to, b as u32, s1a, s2a) == w);
    } else {
        assert(nemesis_word(from, to, b as u32, s1b, s2b) == w);
    }
}

/// The trades after a step from `start_pos` to `end_pos`, each with every build: every trade the
/// generator owes is listed, each listed word names its trade in the order the generator uses,
/// and no word is listed twice.
fn add_swap_moves(
    flags: MoveGenFlags,
    state: &FullGameState,
    player: Player,
    prelude: &GeneratorPreludeState,
    must_climb: bool,
    result: &mut Vec<ScoredMove>,
    start_pos: Square,
    end_pos: Square,
    end_mask: BitBoard,
    other_own_workers: BitBoard,
    other_threatening_neighbors: BitBoard,
    all_possible_builds: BitBoard,
    unblocked_squares: BitBoard,
    key_squares: BitBoard,
)
    requires
        nemesis_prelude_matches(*prelude, *state, player),
        nemesis_counts_ok(*state, player),
        start_pos < 25,
        end_pos < 25,
        is_nemesis_step(*state, player, must_climb, start_pos as int, end_pos as int),
        nemesis_power_allowed(state.board, player, start_pos as int, end_pos as int),
        forall|i: int| #[trigger] other_own_workers.has(i) == (prelude.own_workers.has(i) && i != start_pos),
        forall|i: int| #[trigger] all_possible_builds.has(i) == is_standard_build(state.board, prelude.build_mask, start_pos as int, end_pos as int, i),
        forall|k: int| 0 <= k < old(result)@.len() ==> #[trigger] is_nemesis_turn(*state, player, must_climb, old(result)@[k].action.0),
    ensures
        forall|k: int| 0 <= k < final(result)@.len() ==> #[trigger] is_nemesis_turn(*state, player, must_climb, final(result)@[k].action.0),
        old(result)@.len() <= final(result)@.len(),
        forall|k: int| 0 <= k < old(result)@.len() ==> #[trigger] final(result)@[k] == old(result)@[k],
        flags & NARROWING_FLAGS == 0 ==> forall|s1: u32, s2: u32, b: int|
            #![trigger nemesis_swap_listed(*state, player, end_pos as u32, s1, s2), all_possible_builds.has(b)]
            nemesis_swap_listed(*state, player, end_pos as u32, s1, s2) && all_possible_builds.has(b) && 0 <= b < 25 ==> lists_word(
                final(result)@,
                nemesis_word(start_pos as u32, end_pos as u32, b as u32, s1, s2),
            ),
        forall|k: int| old(result)@.len() <= k < final(result)@.len() ==> #[trigger] is_emitted_swap_word(*state, player, start_pos as u32, end_pos as u32, all_possible_builds, final(result)@[k].action.0),
        forall|i: int, j: int|
            #![trigger final(result)@[i], final(result)@[j]]
            old(result)@.len() <= i < j < final(result)@.len() ==> final(result)@[i].action.0 != final(result)@[j].action.0,
{
    broadcast use group_bit_lemmas;

    proof {
        crate::generic::lemma_no_flags(flags);
    }
    let ghost r0 = result@;

    let p = player.index();
    let ghost oppo_b = state.board.workers[1 - player.idx()];
    let oppo = prelude.oppo_workers.squares();
    proof {
        assert(oppo_b.within_board());
        assert(prelude.oppo_workers.within_board()) by {
            assert forall|i: int| #[trigger] prelude.oppo_workers.has(i) implies is_square(i) by {
                assert(oppo_b.has(i));
            }
        }
        lemma_board_squares(prelude.oppo_workers);
        assert(oppo@.len() == oppo_count(*state, player));
        assert forall|k: int| 0 <= k < oppo@.len() implies #[trigger] oppo_b.has(oppo@[k] as int) by {
            assert(prelude.oppo_workers.has(oppo@[k] as int));
        }
        lemma_count_positive(state.board.workers[player.idx()], start_pos as int);
        assert forall|o: int| #[trigger] oppo_b.has(o) implies oppo@.contains(o as u8) by {
            assert(oppo_b.within_board());
            assert(prelude.oppo_workers.has(o));
            crate::bitboard::lemma_squares_below(prelude.oppo_workers.0, 25);
            assert(crate::bitboard::bit(prelude.oppo_workers.0, o as u32));
        }
    }
    let start_height = prelude.board.get_height(start_pos);
    let end_height = prelude.board.get_height(end_pos);
    if prelude.other_god.has_female_worker() {
        let o1 = oppo[0];
        let o2 = oppo[1];
        let reach_board = reach_if_level_2(prelude, o1).or(reach_if_level_2(prelude, o2)).and(unblocked_squares);
        proof {
            lemma_second_member(state.board.workers[player.idx()], start_pos as int);
            let i = choose|i: int| 0 <= i < 25 && #[trigger] state.board.workers[player.idx()].has(i) && i != start_pos;
            assert(other_own_workers.has(i));
        }
        let other_worker = other_own_workers.lsb();
        let prev_height = start_height + prelude.board.get_height(other_worker);
        let oppo_height = prelude.board.get_height(o1) + prelude.board.get_height(o2);
        let is_improving = oppo_height > prev_height;
        proof {
            crate::bitboard::lemma_squares_below(prelude.oppo_workers.0, 25);
            assert(oppo@[0] < oppo@[1]);
        }
        push_swap_builds(
            flags, state, player, prelude, must_climb, result, start_pos, end_pos, all_possible_builds,
            o1 as u32, o2 as u32, reach_board, is_improving, true, o2 as u32, o1 as u32, reach_board, is_improving,
        );
        proof {
            assert forall|k: int| r0.len() <= k < result@.len() implies #[trigger] is_emitted_swap_word(*state, player, start_pos as u32, end_pos as u32, all_possible_builds, result@[k].action.0) by {
                lemma_swap_word_emitted(
                    *state, player, result@[k].action.0, start_pos as u32, end_pos as u32, all_possible_builds, all_possible_builds,
                    o1 as u32, o2 as u32, true, o2 as u32, o1 as u32,
                );
            }
        }
        proof {
            if flags & NARROWING_FLAGS == 0 {
                assert forall|s1: u32, s2: u32, b: int|
                    #![trigger nemesis_swap_listed(*state, player, end_pos as u32, s1, s2), all_possible_builds.has(b)]
                    nemesis_swap_listed(*state, player, end_pos as u32, s1, s2) && all_possible_builds.has(b) && 0 <= b < 25 implies lists_word(
                        result@,
                        nemesis_word(start_pos as u32, end_pos as u32, b as u32, s1, s2),
                    ) by {
                    assert(oppo_b.has(s1 as int) && oppo_b.has(s2 as int));
                    assert(oppo@.contains(s1 as u8));
                    assert(oppo@.contains(s2 as u8));
                }
            }
        }
        return;
    }

    let swap_count = prelude.own_workers.count_ones();
    if swap_count == 1 {
        proof {
            crate::bitboard::lemma_squares_below(prelude.oppo_workers.0, 25);
        }
        let mut oi: usize = 0;
        while oi < oppo.len()
            invariant
                oi <= oppo@.len(),
                forall|k: int| r0.len() <= k < result@.len() ==> #[trigger] is_emitted_swap_word(*state, player, start_pos as u32, end_pos as u32, all_possible_builds, result@[k].action.0),
                forall|i: int, j: int|
                    #![trigger result@[i], result@[j]]
                    r0.len() <= i < j < result@.len() ==> result@[i].action.0 != result@[j].action.0,
                forall|x: int, y: int| 0 <= x < y < oppo@.len() ==> oppo@[x] < oppo@[y],
                forall|k: int| #![trigger result@[k]]
                    r0.len() <= k < result@.len() ==> exists|j: int| 0 <= j < oi && #[trigger] oppo@[j] as u32 == field_at(result@[k].action.0, 15),
                nemesis_prelude_matches(*prelude, *state, player),
                own_count(*state, player) == 1,
                !state.gods[1 - player.idx()].has_female_worker_spec(),
                start_pos < 25,
                end_pos < 25,
                oppo_b == state.board.workers[1 - player.idx()],
                forall|k: int| 0 <= k < oppo@.len() ==> #[trigger] oppo@[k] < 25 && oppo_b.has(oppo@[k] as int),
                is_nemesis_step(*state, player, must_climb, start_pos as int, end_pos as int),
                nemesis_power_allowed(state.board, player, start_pos as int, end_pos as int),
                forall|i: int| #[trigger] all_possible_builds.has(i) == is_standard_build(state.board, prelude.build_mask, start_pos as int, end_pos as int, i),
                forall|k: int| 0 <= k < result@.len() ==> #[trigger] is_nemesis_turn(*state, player, must_climb, result@[k].action.0),
                r0.len() <= result@.len(),
                forall|k: int| 0 <= k < r0.len() ==> #[trigger] result@[k] == r0[k],
                flags & NARROWING_FLAGS == 0 ==> flags & 1u32 == 0 && flags & 2u32 == 0 && flags & 8u32 == 0,
                flags & NARROWING_FLAGS == 0 ==> forall|j: int, b: int|
                    #![trigger oppo@[j], all_possible_builds.has(b)]
                    0 <= j < oi && all_possible_builds.has(b) && 0 <= b < 25 ==> lists_word(
                        result@,
                        nemesis_word(start_pos as u32, end_pos as u32, b as u32, oppo@[j] as u32, NO_SWAP),
                    ),
            decreases oppo@.len() - oi,
        {
            let oppo_worker_pos = oppo[oi];
            let new_height = prelude.board.get_height(oppo_worker_pos);
            let swapped_reach = if new_height == 2 {
                crate::bitboard::neighbor_mask(oppo_worker_pos).and(prelude.win_mask).and(unblocked_squares)
            } else {
                BitBoard::empty()
            };
            let narrowed_builds = if is_interact_with_key_squares(flags) {
                if end_mask.or(BitBoard::as_mask(oppo_worker_pos)).and(key_squares).is_empty() {
                    all_possible_builds.and(key_squares)
                } else {
                    all_possible_builds
                }
            } else {
                all_possible_builds
            };
            let is_improving = new_height > start_height;
            let ghost before = result@;
            push_swap_builds(
                flags, state, player, prelude, must_climb, result, start_pos, end_pos, narrowed_builds,
                oppo_worker_pos as u32, NO_SWAP, swapped_reach, is_improving, false, 0, 0, swapped_reach, false,
            );
            proof {
                assert forall|i: int| #[trigger] narrowed_builds.has(i) implies all_possible_builds.has(i) by {}
                assert forall|k: int| r0.len() <= k < result@.len() implies #[trigger] is_emitted_swap_word(*state, player, start_pos as u32, end_pos as u32, all_possible_builds, result@[k].action.0) by {
                    if k < before.len() {
                        assert(result@[k] == before[k]);
                    } else {
                        lemma_swap_word_emitted(
                            *state, player, result@[k].action.0, start_pos as u32, end_pos as u32, narrowed_builds, all_possible_builds,
                            oppo_worker_pos as u32, NO_SWAP, false, 0, 0,
                        );
                    }
                }
                assert forall|k: int| #![trigger result@[k]] r0.len() <= k < result@.len() implies exists|j: int|
                    0 <= j < oi + 1 && #[trigger] oppo@[j] as u32 == field_at(result@[k].action.0, 15) by {
                    if k < before.len() {
                        assert(result@[k] == before[k]);
                        let j = choose|j: int| 0 <= j < oi && #[trigger] oppo@[j] as u32 == field_at(before[k].action.0, 15);
                        assert(oppo@[j] as u32 == field_at(result@[k].action.0, 15));
                    } else {
                        lemma_swap_word_fields(
                            result@[k].action.0, start_pos as u32, end_pos as u32, narrowed_builds, oppo_worker_pos as u32, NO_SWAP, false, 0, 0,
                        );
                        assert(oppo@[oi as int] as u32 == field_at(result@[k].action.0, 15));
                    }
                }
                assert forall|i: int, j: int|
                    #![trigger result@[i], result@[j]]
                    r0.len() <= i < j < result@.len() implies result@[i].action.0 != result@[j].action.0 by {
                    if i < before.len() && j < before.len() {
                        assert(result@[i] == before[i]);
                        assert(result@[j] == before[j]);
                    } else if i < before.len() {
                        assert(result@[i] == before[i]);
                        let x = choose|x: int| 0 <= x < oi && #[trigger] oppo@[x] as u32 == field_at(before[i].action.0, 15);
                        assert(oppo@[x] < oppo@[oi as int]);
                        lemma_swap_word_fields(
                            result@[j].action.0, start_pos as u32, end_pos as u32, narrowed_builds, oppo_worker_pos as u32, NO_SWAP, false, 0, 0,
                        );
                    }
                }
            }
            proof {
                lemma_lists_word_grows(before, result@);
                if flags & NARROWING_FLAGS == 0 {
                    assert forall|j: int, b: int|
                        #![trigger oppo@[j], all_possible_builds.has(b)]
                        0 <= j < oi + 1 && all_possible_builds.has(b) && 0 <= b < 25 implies lists_word(
                            result@,
                            nemesis_word(start_pos as u32, end_pos as u32, b as u32, oppo@[j] as u32, NO_SWAP),
                        ) by {
                        if j < oi {
                            assert(lists_word(before, nemesis_word(start_pos as u32, end_pos as u32, b as u32, oppo@[j] as u32, NO_SWAP)));
                        } else {
                            assert(narrowed_builds.has(b));
                        }
                    }
                }
            }
            oi = oi + 1;
        }
        proof {
            lemma_lists_word_grows(r0, result@);
            if flags & NARROWING_FLAGS == 0 {
                assert forall|s1: u32, s2: u32, b: int|
                    #![trigger nemesis_swap_listed(*state, player, end_pos as u32, s1, s2), all_possible_builds.has(b)]
                    nemesis_swap_listed(*state, player, end_pos as u32, s1, s2) && all_possible_builds.has(b) && 0 <= b < 25 implies lists_word(
                        result@,
                        nemesis_word(start_pos as u32, end_pos as u32, b as u32, s1, s2),
                    ) by {
                    assert(oppo@.contains(s1 as u8));
                    let j = choose|j: int| 0 <= j < oppo@.len() && oppo@[j] == s1 as u8;
                    assert(lists_word(result@, nemesis_word(start_pos as u32, end_pos as u32, b as u32, oppo@[j] as u32, NO_SWAP)));
                }
            }
        }
        return;
    }

    proof {
        assert(own_count(*state, player) == 2);
        lemma_second_member(state.board.workers[player.idx()], start_pos as int);
        let i = choose|i: int| 0 <= i < 25 && #[trigger] state.board.workers[player.idx()].has(i) && i != start_pos;
        assert(other_own_workers.has(i));
    }
    let other_worker = other_own_workers.lsb();
    let other_worker_height = prelude.board.get_height(other_worker);
    let oppo_count_now = prelude.oppo_workers.count_ones();
    if oppo_count_now == 0 {
        proof {
            if flags & NARROWING_FLAGS == 0 {
                assert forall|s1: u32, s2: u32, b: int|
                    #![trigger nemesis_swap_listed(*state, player, end_pos as u32, s1, s2), all_possible_builds.has(b)]
                    nemesis_swap_listed(*state, player, end_pos as u32, s1, s2) && all_possible_builds.has(b) && 0 <= b < 25 implies lists_word(
                        result@,
                        nemesis_word(start_pos as u32, end_pos as u32, b as u32, s1, s2),
                    ) by {
                    if oppo_b.has(s1 as int) {
                        assert(oppo@.contains(s1 as u8));
                    }
                    if oppo_b.has(s2 as int) {
                        assert(oppo@.contains(s2 as u8));
                    }
                }
            }
        }
        return;
    } else if oppo_count_now == 1 {
        let oppo_worker_pos = oppo[0];
        let oppo_height = prelude.board.get_height(oppo_worker_pos);
        let swap_moving_improver = oppo_height > start_height;
        let swap_standing_improver = end_height > start_height;
        let moving_worker_reach = if end_height == 2 {
            crate::bitboard::neighbor_mask(end_pos)
        } else {
            BitBoard::empty()
        };
        let swapped_reach = reach_if_level_2(prelude, oppo_worker_pos);
        let moving_worker_full_reach = other_threatening_neighbors.or(swapped_reach).and(unblocked_squares).and(prelude.win_mask);
        let other_worker_full_reach = moving_worker_reach.or(swapped_reach).and(unblocked_squares).and(prelude.win_mask);
        push_swap_builds(
            flags, state, player, prelude, must_climb, result, start_pos, end_pos, all_possible_builds,
            oppo_worker_pos as u32, NO_SWAP, moving_worker_full_reach, swap_moving_improver,
            true, end_pos as u32, oppo_worker_pos as u32, other_worker_full_reach, swap_standing_improver,
        );
        proof {
            assert(oppo_count(*state, player) == 1);
            assert forall|k: int| r0.len() <= k < result@.len() implies #[trigger] is_emitted_swap_word(*state, player, start_pos as u32, end_pos as u32, all_possible_builds, result@[k].action.0) by {
                lemma_swap_word_emitted(
                    *state, player, result@[k].action.0, start_pos as u32, end_pos as u32, all_possible_builds, all_possible_builds,
                    oppo_worker_pos as u32, NO_SWAP, true, end_pos as u32, oppo_worker_pos as u32,
                );
            }
        }
        proof {
            if flags & NARROWING_FLAGS == 0 {
                assert forall|s1: u32, s2: u32, b: int|
                    #![trigger nemesis_swap_listed(*state, player, end_pos as u32, s1, s2), all_possible_builds.has(b)]
                    nemesis_swap_listed(*state, player, end_pos as u32, s1, s2) && all_possible_builds.has(b) && 0 <= b < 25 implies lists_word(
                        result@,
                        nemesis_word(start_pos as u32, end_pos as u32, b as u32, s1, s2),
                    ) by {
                    if oppo_b.has(s1 as int) {
                        assert(oppo@.contains(s1 as u8));
                    }
                    if oppo_b.has(s2 as int) {
                        assert(oppo@.contains(s2 as u8));
                    }
                }
            }
        }
    } else if oppo_count_now == 2 {
        let o1 = oppo[0];
        let o2 = oppo[1];
        let mut reach_board = BitBoard::empty();
        if prelude.is_against_hypnus {
            if prelude.board.get_height(o1) == 2 && prelude.board.get_height(o2) == 2 {
                reach_board = crate::bitboard::neighbor_mask(o1).or(crate::bitboard::neighbor_mask(o2));
            }
        } else {
            reach_board = reach_if_level_2(prelude, o1).or(reach_if_level_2(prelude, o2));
        }
        reach_board = reach_board.and(unblocked_squares).and(prelude.win_mask);
        let prev_height = start_height + other_worker_height;
        let oppo_height = prelude.board.get_height(o1) + prelude.board.get_height(o2);
        let is_improving = oppo_height > prev_height;
        push_swap_builds(
            flags, state, player, prelude, must_climb, result, start_pos, end_pos, all_possible_builds,
            o1 as u32, o2 as u32, reach_board, is_improving, false, 0, 0, reach_board, false,
        );
        proof {
            assert(oppo_count(*state, player) == 2);
            crate::bitboard::lemma_squares_below(prelude.oppo_workers.0, 25);
            assert(oppo@[0] < oppo@[1]);
            assert forall|k: int| r0.len() <= k < result@.len() implies #[trigger] is_emitted_swap_word(*state, player, start_pos as u32, end_pos as u32, all_possible_builds, result@[k].action.0) by {
                lemma_swap_word_emitted(
                    *state, player, result@[k].action.0, start_pos as u32, end_pos as u32, all_possible_builds, all_possible_builds,
                    o1 as u32, o2 as u32, false, 0, 0,
                );
            }
        }
        proof {
            if flags & NARROWING_FLAGS == 0 {
                assert forall|s1: u32, s2: u32, b: int|
                    #![trigger nemesis_swap_listed(*state, player, end_pos as u32, s1, s2), all_possible_builds.has(b)]
                    nemesis_swap_listed(*state, player, end_pos as u32, s1, s2) && all_possible_builds.has(b) && 0 <= b < 25 implies lists_word(
                        result@,
                        nemesis_word(start_pos as u32, end_pos as u32, b as u32, s1, s2),
                    ) by {
                    assert(oppo@.contains(s1 as u8));
                    assert(oppo@.contains(s2 as u8));
                    assert(oppo@[0] < oppo@[1]);
                }
            }
        }
    } else {
        proof {
            crate::bitboard::lemma_squares_below(prelude.oppo_workers.0, 25);
            assert(oppo_count(*state, player) > 2);
        }
        let mut i1: usize = 0;
        while i1 < oppo.len()
            invariant
                i1 <= oppo@.len(),
                oppo_count(*state, player) > 2,
                forall|k: int| r0.len() <= k < result@.len() ==> #[trigger] is_emitted_swap_word(*state, player, start_pos as u32, end_pos as u32, all_possible_builds, result@[k].action.0),
                forall|i: int, j: int|
                    #![trigger result@[i], result@[j]]
                    r0.len() <= i < j < result@.len() ==> result@[i].action.0 != result@[j].action.0,
                forall|x: int, y: int| 0 <= x < y < oppo@.len() ==> oppo@[x] < oppo@[y],
                forall|k: int| #![trigger result@[k]]
                    r0.len() <= k < result@.len() ==> exists|j: int| 0 <= j < i1 && #[trigger] oppo@[j] as u32 == field_at(result@[k].action.0, 15),
                nemesis_prelude_matches(*prelude, *state, player),
                own_count(*state, player) == 2,
                oppo_count(*state, player) != 1,
                !state.gods[1 - player.idx()].has_female_worker_spec(),
                start_pos < 25,
                end_pos < 25,
                start_height <= 4,
                other_worker_height <= 4,
                oppo_b == state.board.workers[1 - player.idx()],
                forall|k: int| 0 <= k < oppo@.len() ==> #[trigger] oppo@[k] < 25 && oppo_b.has(oppo@[k] as int),
                forall|i: int| #[trigger] prelude.oppo_workers.has(i) == oppo_b.has(i),
                is_nemesis_step(*state, player, must_climb, start_pos as int, end_pos as int),
                nemesis_power_allowed(state.board, player, start_pos as int, end_pos as int),
                forall|i: int| #[trigger] all_possible_builds.has(i) == is_standard_build(state.board, prelude.build_mask, start_pos as int, end_pos as int, i),
                forall|k: int| 0 <= k < result@.len() ==> #[trigger] is_nemesis_turn(*state, player, must_climb, result@[k].action.0),
                r0.len() <= result@.len(),
                forall|k: int| 0 <= k < r0.len() ==> #[trigger] result@[k] == r0[k],
                flags & NARROWING_FLAGS == 0 ==> flags & 1u32 == 0 && flags & 2u32 == 0 && flags & 8u32 == 0,
                flags & NARROWING_FLAGS == 0 ==> forall|j: int, s2: u32, b: int|
                    #![trigger oppo@[j], oppo_b.has(s2 as int), all_possible_builds.has(b)]
                    0 <= j < i1 && oppo_b.has(s2 as int) && s2 < oppo@[j] && all_possible_builds.has(b) && 0 <= b < 25 ==> lists_word(
                        result@,
                        nemesis_word(start_pos as u32, end_pos as u32, b as u32, oppo@[j] as u32, s2),
                    ),
            decreases oppo@.len() - i1,
        {
            let oppo_worker_1 = oppo[i1];
            let op_1_height = prelude.board.get_height(oppo_worker_1);
            let reach_1 = reach_if_level_2(prelude, oppo_worker_1);
            let lower_set = prelude.oppo_workers.and(crate::bitboard::lower_squares(oppo_worker_1));
            let lower = lower_set.squares();
            proof {
                assert forall|sq: int| 0 <= sq < 25 && oppo_b.has(sq) && sq < oppo_worker_1 implies lower@.contains(sq as u8) by {
                    assert(prelude.oppo_workers.has(sq));
                    assert(lower_set.has(sq));
                }
            }
            let ghost ri = result@;
            proof {
                crate::bitboard::lemma_squares_below(lower_set.0, 25);
                assert forall|k: int| #![trigger ri[k]] r0.len() <= k < ri.len() implies field_among(oppo@, i1 as int, ri[k].action.0, 15) by {
                    assert(ri[k] == result@[k]);
                    let j = choose|j: int| 0 <= j < i1 && #[trigger] oppo@[j] as u32 == field_at(result@[k].action.0, 15);
                    assert(oppo@[j] as u32 == field_at(ri[k].action.0, 15));
                }
            }
            let mut i2: usize = 0;
            while i2 < lower.len()
                invariant
                    i2 <= lower@.len(),
                    oppo_count(*state, player) > 2,
                    i1 < oppo@.len(),
                    oppo_worker_1 == oppo@[i1 as int],
                    r0.len() <= ri.len(),
                    forall|x: int, y: int| 0 <= x < y < lower@.len() ==> lower@[x] < lower@[y],
                    forall|k: int| r0.len() <= k < result@.len() ==> #[trigger] is_emitted_swap_word(*state, player, start_pos as u32, end_pos as u32, all_possible_builds, result@[k].action.0),
                    forall|i: int, j: int|
                        #![trigger result@[i], result@[j]]
                        r0.len() <= i < j < result@.len() ==> result@[i].action.0 != result@[j].action.0,
                    forall|x: int, y: int| 0 <= x < y < oppo@.len() ==> oppo@[x] < oppo@[y],
                    forall|k: int| #![trigger ri[k]] r0.len() <= k < ri.len() ==> field_among(oppo@, i1 as int, ri[k].action.0, 15),
                    forall|k: int| #![trigger result@[k]]
                        ri.len() <= k < result@.len() ==> field_at(#[trigger] result@[k].action.0, 15) == oppo_worker_1 && exists|j: int|
                            0 <= j < i2 && #[trigger] lower@[j] as u32 == field_at(result@[k].action.0, 20),
                    nemesis_prelude_matches(*prelude, *state, player),
                    own_count(*state, player) == 2,
                    oppo_count(*state, player) != 1,
                    !state.gods[1 - player.idx()].has_female_worker_spec(),
                    start_pos < 25,
                    end_pos < 25,
                    oppo_worker_1 < 25,
                    op_1_height <= 4,
                    start_height <= 4,
                    other_worker_height <= 4,
                    oppo_b == state.board.workers[1 - player.idx()],
                    oppo_b.has(oppo_worker_1 as int),
                    forall|k: int| 0 <= k < lower@.len() ==> #[trigger] lower@[k] < oppo_worker_1 && oppo_b.has(lower@[k] as int),
                    is_nemesis_step(*state, player, must_climb, start_pos as int, end_pos as int),
                    nemesis_power_allowed(state.board, player, start_pos as int, end_pos as int),
                    forall|i: int| #[trigger] all_possible_builds.has(i) == is_standard_build(state.board, prelude.build_mask, start_pos as int, end_pos as int, i),
                    forall|k: int| 0 <= k < result@.len() ==> #[trigger] is_nemesis_turn(*state, player, must_climb, result@[k].action.0),
                    forall|i: int| #[trigger] prelude.oppo_workers.has(i) == oppo_b.has(i),
                    forall|sq: int| 0 <= sq < 25 && oppo_b.has(sq) && sq < oppo_worker_1 ==> lower@.contains(sq as u8),
                    ri.len() <= result@.len(),
                    forall|k: int| 0 <= k < ri.len() ==> #[trigger] result@[k] == ri[k],
                    flags & NARROWING_FLAGS == 0 ==> flags & 1u32 == 0 && flags & 2u32 == 0 && flags & 8u32 == 0,
                    flags & NARROWING_FLAGS == 0 ==> forall|j: int, b: int|
                        #![trigger lower@[j], all_possible_builds.has(b)]
                        0 <= j < i2 && all_possible_builds.has(b) && 0 <= b < 25 ==> lists_word(
                            result@,
                            nemesis_word(start_pos as u32, end_pos as u32, b as u32, oppo_worker_1 as u32, lower@[j] as u32),
                        ),
                decreases lower@.len() - i2,
            {
                let oppo_worker_2 = lower[i2];
                let op_2_height = prelude.board.get_height(oppo_worker_2);
                let is_improver = op_1_height + op_2_height > start_height + other_worker_height;
                let reach_board = reach_1.or(reach_if_level_2(prelude, oppo_worker_2)).and(unblocked_squares).and(prelude.win_mask);
                let pair_mask = BitBoard::as_mask(oppo_worker_1).or(BitBoard::as_mask(oppo_worker_2)).or(end_mask);
                let narrowed_builds = if is_interact_with_key_squares(flags) && pair_mask.and(key_squares).is_empty() {
                    all_possible_builds.and(key_squares)
                } else {
                    all_possible_builds
                };
                let ghost before = result@;
                push_swap_builds(
                    flags, state, player, prelude, must_climb, result, start_pos, end_pos, narrowed_builds,
                    oppo_worker_1 as u32, oppo_worker_2 as u32, reach_board, is_improver, false, 0, 0, reach_board, false,
                );
                proof {
                    assert forall|i: int| #[trigger] narrowed_builds.has(i) implies all_possible_builds.has(i) by {}
                    assert(oppo_worker_2 < oppo_worker_1);
                    assert forall|k: int| r0.len() <= k < result@.len() implies #[trigger] is_emitted_swap_word(*state, player, start_pos as u32, end_pos as u32, all_possible_builds, result@[k].action.0) by {
                        if k < before.len() {
                            assert(result@[k] == before[k]);
                        } else {
                            lemma_swap_word_emitted(
                                *state, player, result@[k].action.0, start_pos as u32, end_pos as u32, narrowed_builds, all_possible_builds,
                                oppo_worker_1 as u32, oppo_worker_2 as u32, false, 0, 0,
                            );
                        }
                    }
                    assert forall|k: int| #![trigger result@[k]] ri.len() <= k < result@.len() implies field_at(#[trigger] result@[k].action.0, 15) == oppo_worker_1
                        && exists|j: int| 0 <= j < i2 + 1 && #[trigger] lower@[j] as u32 == field_at(result@[k].action.0, 20) by {
                        if k < before.len() {
                            assert(result@[k] == before[k]);
                            let j = choose|j: int| 0 <= j < i2 && #[trigger] lower@[j] as u32 == field_at(before[k].action.0, 20);
                            assert(lower@[j] as u32 == field_at(result@[k].action.0, 20));
                        } else {
                            lemma_swap_word_fields(
                                result@[k].action.0, start_pos as u32, end_pos as u32, narrowed_builds, oppo_worker_1 as u32, oppo_worker_2 as u32,
                                false, 0, 0,
                            );
                            assert(lower@[i2 as int] as u32 == field_at(result@[k].action.0, 20));
                        }
                    }
                    assert forall|i: int, j: int|
                        #![trigger result@[i], result@[j]]
                        r0.len() <= i < j < result@.len() implies result@[i].action.0 != result@[j].action.0 by {
                        if i < before.len() && j < before.len() {
                            assert(result@[i] == before[i]);
                            assert(result@[j] == before[j]);
                        } else if i < before.len() {
                            assert(result@[i] == before[i]);
                            lemma_swap_word_fields(
                                result@[j].action.0, start_pos as u32, end_pos as u32, narrowed_builds, oppo_worker_1 as u32, oppo_worker_2 as u32,
                                false, 0, 0,
                            );
                            if i < ri.len() {
                                assert(result@[i] == ri[i]);
                                assert(field_among(oppo@, i1 as int, ri[i].action.0, 15));
                                let x = choose|x: int| 0 <= x < i1 && #[trigger] oppo@[x] as u32 == field_at(ri[i].action.0, 15);
                                assert(oppo@[x] < oppo@[i1 as int]);
                            } else {
                                let x = choose|x: int| 0 <= x < i2 && #[trigger] lower@[x] as u32 == field_at(before[i].action.0, 20);
                                assert(lower@[x] < lower@[i2 as int]);
                            }
                        }
                    }
                }
                proof {
                    lemma_lists_word_grows(before, result@);
                    if flags & NARROWING_FLAGS == 0 {
                        assert forall|j: int, b: int|
                            #![trigger lower@[j], all_possible_builds.has(b)]
                            0 <= j < i2 + 1 && all_possible_builds.has(b) && 0 <= b < 25 implies lists_word(
                                result@,
                                nemesis_word(start_pos as u32, end_pos as u32, b as u32, oppo_worker_1 as u32, lower@[j] as u32),
                            ) by {
                            if j < i2 {
                                assert(lists_word(
                                    before,
                                    nemesis_word(start_pos as u32, end_pos as u32, b as u32, oppo_worker_1 as u32, lower@[j] as u32),
                                ));
                            } else {
                                assert(narrowed_builds.has(b));
                            }
                        }
                    }
                }
                i2 = i2 + 1;
            }
            proof {
                assert forall|k: int| #![trigger result@[k]] r0.len() <= k < result@.len() implies exists|j: int|
                    0 <= j < i1 + 1 && #[trigger] oppo@[j] as u32 == field_at(result@[k].action.0, 15) by {
                    if k >= ri.len() {
                        assert(oppo@[i1 as int] as u32 == field_at(result@[k].action.0, 15));
                    } else {
                        assert(result@[k] == ri[k]);
                        assert(field_among(oppo@, i1 as int, ri[k].action.0, 15));
                        let j = choose|j: int| 0 <= j < i1 && #[trigger] oppo@[j] as u32 == field_at(ri[k].action.0, 15);
                        assert(oppo@[j] as u32 == field_at(result@[k].action.0, 15));
                    }
                }
            }
            proof {
                lemma_lists_word_grows(ri, result@);
                if flags & NARROWING_FLAGS == 0 {
                    assert forall|j: int, s2: u32, b: int|
                        #![trigger oppo@[j], oppo_b.has(s2 as int), all_possible_builds.has(b)]
                        0 <= j < i1 + 1 && oppo_b.has(s2 as int) && s2 < oppo@[j] && all_possible_builds.has(b) && 0 <= b < 25 implies lists_word(
                            result@,
                            nemesis_word(start_pos as u32, end_pos as u32, b as u32, oppo@[j] as u32, s2),
                        ) by {
                        if j < i1 {
                            assert(lists_word(ri, nemesis_word(start_pos as u32, end_pos as u32, b as u32, oppo@[j] as u32, s2)));
                        } else {
                            assert(lower@.contains(s2 as u8));
                            let jj = choose|jj: int| 0 <= jj < lower@.len() && lower@[jj] == s2 as u8;
                            assert(lists_word(
                                result@,
                                nemesis_word(start_pos as u32, end_pos as u32, b as u32, oppo_worker_1 as u32, lower@[jj] as u32),
                            ));
                        }
                    }
                }
            }
            i1 = i1 + 1;
        }
        proof {
            lemma_lists_word_grows(r0, result@);
            if flags & NARROWING_FLAGS == 0 {
                assert forall|s1: u32, s2: u32, b: int|
                    #![trigger nemesis_swap_listed(*state, player, end_pos as u32, s1, s2), all_possible_builds.has(b)]
                    nemesis_swap_listed(*state, player, end_pos as u32, s1, s2) && all_possible_builds.has(b) && 0 <= b < 25 implies lists_word(
                        result@,
                        nemesis_word(start_pos as u32, end_pos as u32, b as u32, s1, s2),
                    ) by {
                    assert(oppo@.contains(s1 as u8));
                    let j = choose|j: int| 0 <= j < oppo@.len() && oppo@[j] == s1 as u8;
                    assert(lists_word(result@, nemesis_word(start_pos as u32, end_pos as u32, b as u32, oppo@[j] as u32, s2)));
                }
            }
        }
    }
}

/// Whether no worker of `workers` neighbours an opposing worker.
fn none_neighbour_opponents(prelude: &GeneratorPreludeState, workers: BitBoard) -> (r: bool)
    requires
        prelude.inv(),
    ensures
        r == forall|w: int, o: int|
            0 <= w < 25 && #[trigger] workers.has(w) && #[trigger] prelude.oppo_workers.has(o) ==> !is_adjacent(w, o),
{
    let list = workers.squares();
    let mut i: usize = 0;
    while i < list.len()
        invariant
            i <= list@.len(),
            prelude.inv(),
            forall|k: int| 0 <= k < list@.len() ==> #[trigger] list@[k] < 25 && workers.has(list@[k] as int),
            forall|w: int| 0 <= w < 25 && #[trigger] workers.has(w) ==> list@.contains(w as u8),
            forall|k: int, o: int| 0 <= k < i && #[trigger] prelude.oppo_workers.has(o) ==> !is_adjacent(#[trigger] list@[k] as int, o),
        decreases list@.len() - i,
    {
        let n = crate::bitboard::neighbor_mask(list[i]).and(prelude.oppo_workers);
        if n.is_not_empty() {
            proof {
                let o = choose|o: int| #[trigger] n.has(o);
                assert(workers.has(list@[i as int] as int) && prelude.oppo_workers.has(o) && is_adjacent(list@[i as int] as int, o));
            }
            return false;
        }
        proof {
            assert forall|o: int| #[trigger] prelude.oppo_workers.has(o) implies !is_adjacent(list@[i as int] as int, o) by {
                assert(!n.has(o));
            }
        }
        i = i + 1;
    }
    proof {
        assert forall|w: int, o: int|
            0 <= w < 25 && #[trigger] workers.has(w) && #[trigger] prelude.oppo_workers.has(o) implies !is_adjacent(w, o) by {
            let k = choose|k: int| 0 <= k < list@.len() && list@[k] == w as u8;
            assert(!is_adjacent(list@[k] as int, o));
        }
    }
    true
}

/// The turns the generator owes with no narrowing filter on: every legal turn whose trade, if it
/// makes one, is one the generator lists; against Persephone, when a climb exists, only the
/// climbing ones.
pub open spec fn nemesis_turn_owed(state: FullGameState, player: Player, must_climb: bool, data: u32) -> bool {
    let from = field_at(data, 0);
    let to = field_at(data, 5);
    let build = field_at(data, 10);
    &&& is_nemesis_turn(state, player, must_climb, data)
    &&& !is_winning_data(data) && data != nemesis_word(from, to, build, NO_SWAP, 0) ==> nemesis_swap_listed(
        state,
        player,
        to,
        field_at(data, 15),
        field_at(data, 20),
    )
    &&& (state.gods[1 - player.idx()].is_persephone_spec() && !must_climb && exists|d: u32| #[trigger] is_nemesis_turn(state, player, true, d))
        ==> is_nemesis_turn(state, player, true, data)
}

/// Nemesis's move generator; `must_climb` asks for climbing moves only, which is how Persephone's
/// restriction is applied.
pub fn nemesis_move_gen(
    flags: MoveGenFlags,
    state: &FullGameState,
    player: Player,
    key_squares: BitBoard,
    must_climb: bool,
) -> (result: Vec<ScoredMove>)
    requires
        state.board.wf(),
        nemesis_counts_ok(*state, player),
    ensures
        forall|k: int| 0 <= k < result@.len() ==> #[trigger] is_nemesis_turn(*state, player, must_climb, result@[k].action.0),
        flags & NARROWING_FLAGS == 0 ==> forall|data: u32| #[trigger] nemesis_turn_owed(*state, player, must_climb, data) ==> lists_word(
            result@,
            data,
        ),
        flags & NARROWING_FLAGS == 0 && state.gods[1 - player.idx()].is_persephone_spec() && !must_climb && (exists|d: u32|
            #[trigger] is_nemesis_turn(*state, player, true, d)) ==> forall|k: int| 0 <= k < result@.len()
            ==> #[trigger] is_nemesis_turn(*state, player, true, result@[k].action.0),
    decreases if must_climb { 0int } else { 1int },
{
    broadcast use group_bit_lemmas;

    proof {
        crate::generic::lemma_no_flags(flags);
    }
    let mut result = if state.gods[player.other().index()].is_persephone() && !must_climb {
        let climbing = nemesis_move_gen(flags, state, player, key_squares, true);
        proof {
            assert forall|k: int| 0 <= k < climbing@.len() implies #[trigger] is_nemesis_turn(
                *state,
                player,
                must_climb,
                climbing@[k].action.0,
            ) by {
                assert(is_nemesis_turn(*state, player, true, climbing@[k].action.0));
            }
        }
        if climbing.len() > 0 {
            proof {
                if flags & NARROWING_FLAGS == 0 {
                    assert(is_nemesis_turn(*state, player, true, climbing@[0].action.0));
                    assert forall|data: u32| #[trigger] nemesis_turn_owed(*state, player, must_climb, data) implies lists_word(climbing@, data) by {
                        assert(nemesis_turn_owed(*state, player, true, data));
                    }
                }
            }
            return climbing;
        }
        proof {
            if flags & NARROWING_FLAGS == 0 {
                assert forall|d: u32| !#[trigger] is_nemesis_turn(*state, player, true, d) by {
                    if is_nemesis_turn(*state, player, true, d) {
                        let f = field_at(d, 0);
                        let t = field_at(d, 5);
                        let b = field_at(d, 10);
                        if !is_winning_data(d) && d != nemesis_word(f, t, b, NO_SWAP, 0) {
                            lemma_basic_word_is_turn(*state, player, true, f, t, b);
                            lemma_pack5(f, t, b, NO_SWAP, 0);
                            assert(nemesis_turn_owed(*state, player, true, nemesis_word(f, t, b, NO_SWAP, 0)));
                            assert(lists_word(climbing@, nemesis_word(f, t, b, NO_SWAP, 0)));
                        } else {
                            assert(nemesis_turn_owed(*state, player, true, d));
                        }
                    }
                }
            }
        }
        if flags & crate::generic::ANY_MOVE_FILTER > 0 {
            let unrestricted = nemesis_move_gen(0, state, player, key_squares, true);
            if unrestricted.len() > 0 {
                return climbing;
            }
        }
        climbing
    } else {
        Vec::new()
    };
    assert(flags & NARROWING_FLAGS == 0 && state.gods[1 - player.idx()].is_persephone_spec() && !must_climb ==> forall|d: u32|
        !#[trigger] is_nemesis_turn(*state, player, true, d));
    let mut prelude = get_generator_prelude_state(state, player, key_squares);
    let ghost initial_acting = prelude.acting_workers;
    proof {
        assert forall|i: int| #[trigger] prelude.acting_workers.has(i) implies is_acting_worker(*state, player, i) by {
            crate::gods::mortal::lemma_prelude_acting(*state, player, prelude.own_workers, prelude.acting_workers, i);
        }
    }
    let checkable_mask = prelude.exactly_level_2;
    modify_prelude_for_checking_workers(flags, checkable_mask, &mut prelude);
    proof {
        assert forall|i: int| #[trigger] prelude.acting_workers.has(i) && flags & crate::generic::MATE_ONLY != 0 implies prelude.exactly_level_2.has(i) by {
        }
    }
    let workers = prelude.acting_workers.squares();
    let mut wi: usize = 0;
    while wi < workers.len()
        invariant
            wi <= workers@.len(),
            nemesis_prelude_matches(prelude, *state, player),
            nemesis_counts_ok(*state, player),
            forall|k: int| 0 <= k < workers@.len() ==> #[trigger] workers@[k] < 25 && prelude.acting_workers.has(workers@[k] as int),
            forall|i: int| #[trigger] prelude.acting_workers.has(i) && flags & crate::generic::MATE_ONLY != 0 ==> prelude.exactly_level_2.has(i),
            forall|k: int| 0 <= k < result@.len() ==> #[trigger] is_nemesis_turn(*state, player, must_climb, result@[k].action.0),
            flags & NARROWING_FLAGS == 0 ==> flags & 1u32 == 0 && flags & 2u32 == 0 && flags & 8u32 == 0,
            flags & NARROWING_FLAGS == 0 && state.gods[1 - player.idx()].is_persephone_spec() && !must_climb ==> forall|d: u32|
                !#[trigger] is_nemesis_turn(*state, player, true, d),
            flags & NARROWING_FLAGS == 0 ==> forall|data: u32| #[trigger] nemesis_turn_owed(*state, player, must_climb, data) && (exists|j: int|
                0 <= j < wi && workers@[j] as u32 == field_at(data, 0)) ==> lists_word(result@, data),
        decreases workers@.len() - wi,
    {
        let ghost r0 = result@;
        let worker_start_pos = workers[wi];
        proof {
            assert(is_acting_worker(*state, player, worker_start_pos as int));
        }
        let worker_start_state = get_worker_start_move_state(&prelude, worker_start_pos);
        let mut worker_next_moves = get_worker_next_move_state(&prelude, &worker_start_state, checkable_mask, must_climb);
        if is_mate_only(flags) || worker_start_state.worker_start_height == 2 {
            let moves_to_level_3 = worker_next_moves.worker_moves.and(prelude.exactly_level_3).and(prelude.win_mask);
            let ghost before = result@;
            let stop = push_winning_moves(flags, &mut result, worker_start_pos, moves_to_level_3, 0);
            proof {
                assert forall|k: int| 0 <= k < result@.len() implies #[trigger] is_nemesis_turn(
                    *state,
                    player,
                    must_climb,
                    result@[k].action.0,
                ) by {
                    if k >= before.len() {
                        assert(is_winning_entry(result@[k], worker_start_pos, moves_to_level_3, 0));
                        let sq = choose|sq: u8|
                            sq < 25 && #[trigger] moves_to_level_3.has(sq as int) && result@[k].action.0 == (
                            worker_start_pos as u32) | ((sq as u32) << 5u32) | 0u32 | MOVE_IS_WINNING_MASK;
                        lemma_mortal_move_round_trip(worker_start_pos as u32, sq as u32, 0);
                        crate::bitboard::lemma_or_zero((worker_start_pos as u32) | ((sq as u32) << 5u32));
                    } else {
                        assert(result@[k] == before[k]);
                    }
                }
            }
            if stop {
                return result;
            }
            proof {
                if flags & NARROWING_FLAGS == 0 {
                    assert forall|data: u32| #[trigger] nemesis_turn_owed(*state, player, must_climb, data) && field_at(data, 0)
                        == worker_start_pos && is_winning_data(data) implies lists_word(result@, data) by {
                        let to = field_at(data, 5);
                        assert(moves_to_level_3.has(to as int));
                        let k = choose|k: int| before.len() <= k < result@.len() && #[trigger] result@[k].action.0
                            == (worker_start_pos as u32) | (((to as int) as u32) << 5u32) | 0u32 | MOVE_IS_WINNING_MASK;
                        crate::bitboard::lemma_or_zero((worker_start_pos as u32) | ((to as u32) << 5u32));
                        assert(result@[k].action.0 == data);
                    }
                }
            }
            worker_next_moves.worker_moves = worker_next_moves.worker_moves.xor(moves_to_level_3);
        }
        let ghost r1 = result@;
        proof {
            lemma_lists_word_grows(r0, r1);
        }
        if !is_mate_only(flags) {
            let can_neighbors_use_power = none_neighbour_opponents(&prelude, worker_start_state.other_own_workers);
            let ends = worker_next_moves.worker_moves.squares();
            proof {
                if flags & NARROWING_FLAGS == 0 {
                    assert forall|i: int| 0 <= i < 25 && is_nemesis_step(*state, player, must_climb, worker_start_pos as int, i) implies #[trigger] ends@.contains(
                        i as u8,
                    ) by {
                        assert(worker_next_moves.worker_moves.has(i));
                    }
                }
            }
            let mut ei: usize = 0;
            while ei < ends.len()
                invariant
                    ei <= ends@.len(),
                    flags & NARROWING_FLAGS == 0 ==> flags & 1u32 == 0 && flags & 2u32 == 0 && flags & 8u32 == 0,
                    r1.len() <= result@.len(),
                    forall|k: int| 0 <= k < r1.len() ==> #[trigger] result@[k] == r1[k],
                    flags & NARROWING_FLAGS == 0 ==> forall|data: u32| #[trigger] nemesis_turn_owed(*state, player, must_climb, data) && field_at(data, 0)
                        == worker_start_pos && !is_winning_data(data) && (exists|j: int| 0 <= j < ei && ends@[j] as u32 == field_at(data, 5))
                        ==> lists_word(result@, data),
                    nemesis_prelude_matches(prelude, *state, player),
                    nemesis_counts_ok(*state, player),
                    worker_start_pos < 25,
                    worker_start_state.describes(prelude, worker_start_pos as int),
                    can_neighbors_use_power == forall|w: int, o: int|
                        0 <= w < 25 && #[trigger] worker_start_state.other_own_workers.has(w)
                            && #[trigger] prelude.oppo_workers.has(o) ==> !is_adjacent(w, o),
                    forall|k: int| 0 <= k < ends@.len() ==> #[trigger] ends@[k] < 25 && is_nemesis_step(
                        *state,
                        player,
                        must_climb,
                        worker_start_pos as int,
                        ends@[k] as int,
                    ),
                    forall|k: int| 0 <= k < result@.len() ==> #[trigger] is_nemesis_turn(*state, player, must_climb, result@[k].action.0),
                decreases ends@.len() - ei,
            {
                let worker_end_pos = ends[ei];
                let worker_end_move_state = get_worker_end_move_state(&prelude, &worker_start_state, worker_end_pos);
                let end_neighbours = crate::bitboard::neighbor_mask(worker_end_pos).and(prelude.oppo_workers);
                let end_free = end_neighbours.is_empty();
                let can_use_power = can_neighbors_use_power && end_free;
                let build_state = get_worker_next_build_state(flags, &prelude, &worker_start_state, &worker_end_move_state);
                let reach_board = crate::gods::move_helpers::get_standard_reach_board(
                    &prelude,
                    &worker_next_moves,
                    &worker_end_move_state,
                    build_state.unblocked_squares,
                );
                let builds = build_state.narrowed_builds.squares();
                let ghost re = result@;
                let mut bi: usize = 0;
                while bi < builds.len()
                    invariant
                        bi <= builds@.len(),
                        re.len() <= result@.len(),
                        forall|k: int| 0 <= k < re.len() ==> #[trigger] result@[k] == re[k],
                        forall|j: int| 0 <= j < bi ==> #[trigger] lists_word(
                            result@,
                            nemesis_word(worker_start_pos as u32, worker_end_pos as u32, builds@[j] as u32, NO_SWAP, 0),
                        ),
                        nemesis_prelude_matches(prelude, *state, player),
                        worker_start_pos < 25,
                        worker_end_pos < 25,
                        is_nemesis_step(*state, player, must_climb, worker_start_pos as int, worker_end_pos as int),
                        build_state.describes(prelude, worker_start_pos as int, worker_end_pos as int),
                        forall|k: int| 0 <= k < builds@.len() ==> #[trigger] builds@[k] < 25 && build_state.narrowed_builds.has(
                            builds@[k] as int,
                        ),
                        forall|k: int| 0 <= k < result@.len() ==> #[trigger] is_nemesis_turn(*state, player, must_climb, result@[k].action.0),
                    decreases builds@.len() - bi,
                {
                    let worker_build_pos = builds[bi];
                    let build_mask = BitBoard::as_mask(worker_build_pos);
                    let new_action = NemesisMove::new_basic_move(worker_start_pos, worker_end_pos, worker_build_pos);
                    let final_level_3 = prelude.exactly_level_2.and(build_mask).or(prelude.exactly_level_3.minus(build_mask));
                    let is_check = reach_board.and(final_level_3).is_not_empty();
                    proof {
                        assert(build_state.all_possible_builds.has(worker_build_pos as int));
                        assert(prelude.build_mask.has(worker_build_pos as int));
                        lemma_basic_word_is_turn(*state, player, must_climb, worker_start_pos as u32, worker_end_pos as u32, worker_build_pos as u32);
                    }
                    let ghost before = result@;
                    result.push(build_scored_move(flags, new_action.to_generic(), is_check, worker_end_move_state.is_improving));
                    proof {
                        lemma_lists_word_grows(before, result@);
                        assert forall|j: int| 0 <= j < bi + 1 implies #[trigger] lists_word(
                            result@,
                            nemesis_word(worker_start_pos as u32, worker_end_pos as u32, builds@[j] as u32, NO_SWAP, 0),
                        ) by {
                            if j == bi {
                                assert(result@[before.len() as int].action.0 == nemesis_word(
                                    worker_start_pos as u32,
                                    worker_end_pos as u32,
                                    builds@[j] as u32,
                                    NO_SWAP,
                                    0,
                                ));
                            } else {
                                assert(lists_word(before, nemesis_word(worker_start_pos as u32, worker_end_pos as u32, builds@[j] as u32, NO_SWAP, 0)));
                            }
                        }
                    }
                    bi = bi + 1;
                }
                let ghost rb = result@;
                proof {
                    lemma_lists_word_grows(re, rb);
                }
                if can_use_power {
                    proof {
                        let p = player.idx();
                        let board = state.board;
                        assert forall|o: int| #[trigger] board.workers[1 - p].has(o) implies !is_adjacent(worker_end_pos as int, o) by {
                            assert(prelude.oppo_workers.has(o));
                            if is_adjacent(worker_end_pos as int, o) {
                                assert(end_neighbours.has(o));
                            }
                        }
                        assert forall|w: int, o: int|
                            #[trigger] board.workers[p].has(w) && #[trigger] board.workers[1 - p].has(o) && w != worker_start_pos
                                implies !is_adjacent(w, o) by {
                            assert(board.workers[p].within_board());
                            assert(prelude.own_workers.has(w));
                            assert(worker_start_state.other_own_workers.has(w));
                            assert(prelude.oppo_workers.has(o));
                        }
                    }
                    add_swap_moves(
                        flags,
                        state,
                        player,
                        &prelude,
                        must_climb,
                        &mut result,
                        worker_start_pos,
                        worker_end_pos,
                        worker_end_move_state.worker_end_mask,
                        worker_start_state.other_own_workers,
                        worker_next_moves.other_threatening_neighbors,
                        build_state.all_possible_builds,
                        build_state.unblocked_squares,
                        key_squares,
                    );
                }
                proof {
                    lemma_lists_word_grows(rb, result@);
                    if flags & NARROWING_FLAGS == 0 {
                        assert forall|data: u32| #[trigger] nemesis_turn_owed(*state, player, must_climb, data) && field_at(data, 0)
                            == worker_start_pos && !is_winning_data(data) && (exists|j: int| 0 <= j < ei + 1 && ends@[j] as u32 == field_at(data, 5))
                            implies lists_word(result@, data) by {
                            let j = choose|j: int| 0 <= j < ei + 1 && ends@[j] as u32 == field_at(data, 5);
                            if j == ei {
                                let b = field_at(data, 10);
                                assert(build_state.all_possible_builds.has(b as int));
                                if data == nemesis_word(worker_start_pos as u32, worker_end_pos as u32, b, NO_SWAP, 0) {
                                    assert(builds@.contains(b as u8));
                                    let jb = choose|jb: int| 0 <= jb < builds@.len() && builds@[jb] == b as u8;
                                    assert(lists_word(rb, nemesis_word(worker_start_pos as u32, worker_end_pos as u32, builds@[jb] as u32, NO_SWAP, 0)));
                                } else {
                                    let p = player.idx();
                                    assert(nemesis_power_allowed(state.board, player, worker_start_pos as int, worker_end_pos as int));
                                    assert(end_free) by {
                                        assert forall|o: int| !#[trigger] end_neighbours.has(o) by {
                                            if end_neighbours.has(o) {
                                                assert(state.board.workers[1 - p].has(o));
                                            }
                                        }
                                    }
                                    assert(can_neighbors_use_power) by {
                                        assert forall|w: int, o: int|
                                            0 <= w < 25 && #[trigger] worker_start_state.other_own_workers.has(w)
                                                && #[trigger] prelude.oppo_workers.has(o) implies !is_adjacent(w, o) by {
                                            assert(prelude.own_workers.has(w));
                                            assert(state.board.workers[p].has(w));
                                            assert(state.board.workers[1 - p].has(o));
                                        }
                                    }
                                    let s1 = field_at(data, 15);
                                    let s2 = field_at(data, 20);
                                    assert(nemesis_swap_listed(*state, player, worker_end_pos as u32, s1, s2));
                                    assert(build_state.all_possible_builds.has(b as int));
                                    assert(lists_word(result@, nemesis_word(worker_start_pos as u32, worker_end_pos as u32, (b as int) as u32, s1, s2)));
                                }
                            } else {
                                assert(lists_word(re, data));
                            }
                        }
                    }
                }
                ei = ei + 1;
            }
            proof {
                lemma_lists_word_grows(r1, result@);
                if flags & NARROWING_FLAGS == 0 {
                    assert forall|data: u32| #[trigger] nemesis_turn_owed(*state, player, must_climb, data) && (exists|j: int|
                        0 <= j < wi + 1 && workers@[j] as u32 == field_at(data, 0)) implies lists_word(result@, data) by {
                        let j = choose|j: int| 0 <= j < wi + 1 && workers@[j] as u32 == field_at(data, 0);
                        if j == wi {
                            if is_winning_data(data) {
                                assert(lists_word(r1, data));
                            } else {
                                let to = field_at(data, 5);
                                assert(is_nemesis_step(*state, player, must_climb, worker_start_pos as int, to as int));
                                assert(ends@.contains(to as u8));
                                let je = choose|je: int| 0 <= je < ends@.len() && ends@[je] == to as u8;
                                assert(ends@[je] as u32 == field_at(data, 5));
                            }
                        } else {
                            assert(lists_word(r0, data));
                        }
                    }
                }
            }
        }
        wi = wi + 1;
    }
    proof {
        if flags & NARROWING_FLAGS == 0 {
            assert forall|data: u32| #[trigger] nemesis_turn_owed(*state, player, must_climb, data) implies lists_word(result@, data) by {
                let f = field_at(data, 0);
                crate::gods::mortal::lemma_acting_in_prelude(*state, player, prelude.own_workers, initial_acting, f as int);
                assert(workers@.contains(f as u8));
                let j = choose|j: int| 0 <= j < workers@.len() && workers@[j] == f as u8;
                assert(workers@[j] as u32 == field_at(data, 0));
            }
        }
    }
    result
}

/// Nemesis's fixed data.
pub fn build_nemesis() -> (r: GodPower)
    ensures
        r.god_name == GodName::Nemesis,
        r.hash1 == 13902774959503976241u64,
        r.hash2 == 8706614857531094214u64,
        r.placement_type == PlacementType::Normal,
        r.symmetry == BoardSymmetry::Full,
        !r.is_persephone,
{
    god_power(GodName::Nemesis, 13902774959503976241, 8706614857531094214)
}

/// How a turn of this god changes the board: the workers, the heights, the god data and the
/// winner after it, and whose turn it is, are those of `after`.
pub open spec fn nemesis_move_effect(before: BoardState, after: BoardState, player: Player, data: u32) -> bool {
    &&& after.workers[player.idx()].0 == before.workers[player.idx()].0 ^ ((1u32 << field_at(data, 0)) ^ (1u32 << field_at(data, 5))) ^ nemesis_swap_bits(before, player, data)
    &&& after.workers[1 - player.idx()].0 == before.workers[1 - player.idx()].0 ^ nemesis_swap_bits( before, player, data, )
    &&& after.god_data == before.god_data
    &&& after.current_player == before.current_player
    &&& (is_winning_data(data) ==> after.winner == Some(player) && after.height_map == before.height_map)
    &&& (!is_winning_data(data) ==> after.winner == before.winner)
    &&& (!is_winning_data(data) ==> after.height(field_at(data, 10) as int) == before.height( field_at(data, 10) as int, ) + 1)
    &&& (!is_winning_data(data) ==> forall|i: int| i != field_at(data, 10) ==> #[trigger] after.height(i) == before.height(i))
}

} // verus!
