use vstd::prelude::*;

use crate::bitboard::{apply_neighbor_map_to_mask, bit, group_bit_lemmas, squares_below, BitBoard, CORNERS_MASK, MAIN_SECTION};
use crate::board::{BoardState, FullGameState, GodData, Player};
use crate::generic::{
    build_scored_move, field_at, is_interact_with_key_squares, is_mate_only, is_winning_data, read_position,
    GenericMove, MoveData, MoveGenFlags, ScoredMove, ANY_MOVE_FILTER, MOVE_DATA_MAIN_SECTION, MOVE_IS_WINNING_MASK,
    NARROWING_FLAGS,
};
use crate::gods::mortal::{
    history_idx, lemma_acting_in_prelude, lemma_lists_word_grows, lists_word, is_standard_turn, is_win_step, lemma_climbing_turn_is_turn, lemma_mortal_move_round_trip,
    lemma_prelude_acting, mortal_basic_data, mortal_winning_data, win_targets, MortalMove,
};
use crate::gods::move_helpers::{
    get_generator_prelude_state, get_sized_result, get_standard_reach_board, get_worker_end_move_state,
    get_worker_next_build_state_with_is_matched, get_worker_next_move_state, get_worker_start_move_state,
    is_standard_step, is_winning_entry, modify_prelude_for_checking_workers, push_winning_moves,
};
use crate::gods::{BoardSymmetry, PlacementType, god_power, GodName, GodPower};
use crate::square::{is_adjacent, is_square, Square};

verus! {

/// The power field starts above the three squares of the plain move.
pub const DISPLACEMENT_OFFSET: u32 = 15;

/// Each corner owns a slot this wide.
pub const SLOT_WIDTH: u32 = 3;

pub const SLOT_MASK: MoveData = 7;

pub const NUM_CORNERS: usize = 4;

/// The four slots, one per corner in the order A5, E5, A1, E1. A slot holds 0 when nothing was
/// forced onto its corner, else one more than the index of the forced worker among the opponent's
/// workers in ascending square order, read off the board before the power resolves.
pub const DISPLACEMENT_MASK: MoveData = 0x07FF_8000;

/// A slot can name at most this many workers.
pub const MAX_ADDRESSABLE_WORKERS: usize = 7;

/// God data of an Odysseus whose power is spent.
pub const POWER_USED: GodData = 1;

/// An Odysseus turn: an ordinary move and build, optionally preceded by the power, which forces
/// opponent workers next to Odysseus' workers onto free corners, once per game.
#[derive(Clone, Copy, PartialEq, Eq, Structural, Debug)]
pub struct OdysseusMove(pub MoveData);

/// The corner of slot `slot`.
pub open spec fn corner_of(slot: int) -> int {
    if slot == 0 {
        0
    } else if slot == 1 {
        4
    } else if slot == 2 {
        20
    } else {
        24
    }
}

/// The value in slot `slot` of a move word.
pub open spec fn slot_value(data: u32, slot: int) -> u32 {
    (data >> ((15 + 3 * slot) as u32)) & 7u32
}

/// The opponent's workers in ascending square order, at most as many as a slot can name.
pub open spec fn addressable(board: BoardState, player: Player) -> Seq<u8> {
    let all = squares_below(board.workers[1 - player.idx()].0, 25);
    if all.len() <= 7 {
        all
    } else {
        all.take(7)
    }
}

/// An opponent worker that stands next to one of the player's workers.
pub open spec fn is_forcible(board: BoardState, player: Player, sq: int) -> bool {
    &&& board.workers[1 - player.idx()].has(sq)
    &&& exists|s: int| 0 <= s < 25 && #[trigger] board.workers[player.idx()].has(s) && is_adjacent(s, sq)
}

/// A corner with no worker and no dome.
pub open spec fn is_free_corner(board: BoardState, sq: int) -> bool {
    &&& (sq == 0 || sq == 4 || sq == 20 || sq == 24)
    &&& !board.occupied(sq)
    &&& board.height(sq) < 4
}

/// The power as written in `data` is legal: it is still in hand, every named worker may be forced,
/// every used corner is free, and no worker is named twice.
pub open spec fn is_legal_displacement(board: BoardState, player: Player, data: u32) -> bool {
    let addr = addressable(board, player);
    &&& data & DISPLACEMENT_MASK != 0
    &&& board.god_data[player.idx()] == 0
    &&& forall|s: int|
        0 <= s < 4 && #[trigger] slot_value(data, s) != 0 ==> slot_value(data, s) - 1 < addr.len() && is_forcible(
            board,
            player,
            addr[slot_value(data, s) - 1] as int,
        ) && is_free_corner(board, corner_of(s))
    &&& forall|s: int, t: int|
        0 <= s < t < 4 && slot_value(data, s) != 0 ==> #[trigger] slot_value(data, s) != #[trigger] slot_value(data, t)
}

/// What slot `s` does to the opponent's workers: its worker leaves, its corner fills.
pub open spec fn slot_pair_mask(data: u32, addr: Seq<u8>, s: int) -> u32 {
    let v = slot_value(data, s);
    if v != 0 && v - 1 < addr.len() {
        (1u32 << addr[v - 1]) ^ (1u32 << (corner_of(s) as u32))
    } else {
        0
    }
}

/// What the first `n` slots do to the opponent's workers.
pub open spec fn displacement_mask_upto(data: u32, addr: Seq<u8>, n: nat) -> u32
    decreases n,
{
    if n == 0 {
        0
    } else {
        displacement_mask_upto(data, addr, (n - 1) as nat) ^ slot_pair_mask(data, addr, n - 1)
    }
}

/// The board once the power written in `data` has resolved.
pub open spec fn displaced_board(board: BoardState, player: Player, data: u32) -> BoardState {
    let moved = BitBoard(
        board.workers[1 - player.idx()].0 ^ displacement_mask_upto(data, addressable(board, player), 4),
    );
    BoardState {
        workers: if player.idx() == 0 {
            [board.workers[0], moved]
        } else {
            [moved, board.workers[1]]
        },
        ..board
    }
}

pub open spec fn displaced_state(state: FullGameState, player: Player, data: u32) -> FullGameState {
    FullGameState { board: displaced_board(state.board, player, data), gods: state.gods }
}

/// A legal Odysseus turn read off its word: a plain turn, or the power followed by a plain turn on
/// the board it leaves.
pub open spec fn is_odysseus_turn(state: FullGameState, player: Player, must_climb: bool, data: u32) -> bool {
    if data & DISPLACEMENT_MASK == 0 {
        is_standard_turn(state, player, must_climb, false, data)
    } else {
        &&& is_legal_displacement(state.board, player, data)
        &&& is_standard_turn(displaced_state(state, player, data), player, must_climb, false, data & !DISPLACEMENT_MASK)
    }
}

/// The squares, the power field and the winning flag of a move word lie apart.
pub proof fn lemma_odysseus_word(from: u32, to: u32, build: u32, disp: u32)
    by (bit_vector)
    requires
        from < 25,
        to < 25,
        build < 25,
        disp & !0x07FF_8000u32 == 0,
    ensures
        ((from | (to << 5u32) | (build << 10u32) | disp) >> 0u32) & 31u32 == from,
        ((from | (to << 5u32) | (build << 10u32) | disp) >> 5u32) & 31u32 == to,
        ((from | (to << 5u32) | (build << 10u32) | disp) >> 10u32) & 31u32 == build,
        (from | (to << 5u32) | (build << 10u32) | disp) & 0x8000_0000u32 == 0,
        (from | (to << 5u32) | (build << 10u32) | disp) & 0x07FF_8000u32 == disp,
        (from | (to << 5u32) | (build << 10u32) | disp) & !0x07FF_8000u32 == from | (to << 5u32) | (build << 10u32),
        (from | (to << 5u32) | (build << 10u32) | disp) & 0x3FFF_FFFFu32 == from | (to << 5u32) | (build << 10u32) | disp,
        ((from | (to << 5u32) | disp | 0x8000_0000u32) >> 0u32) & 31u32 == from,
        ((from | (to << 5u32) | disp | 0x8000_0000u32) >> 5u32) & 31u32 == to,
        (from | (to << 5u32) | disp | 0x8000_0000u32) & 0x8000_0000u32 != 0,
        (from | (to << 5u32) | disp | 0x8000_0000u32) & 0x07FF_8000u32 == disp,
        (from | (to << 5u32) | disp | 0x8000_0000u32) & !0x07FF_8000u32 == from | (to << 5u32) | 0x8000_0000u32,
{
}

/// Clearing the power field keeps the three squares and the winning flag.
pub proof fn lemma_strip_keeps_fields(data: u32)
    by (bit_vector)
    ensures
        ((data & !0x07FF_8000u32) >> 0u32) & 31u32 == (data >> 0u32) & 31u32,
        ((data & !0x07FF_8000u32) >> 5u32) & 31u32 == (data >> 5u32) & 31u32,
        ((data & !0x07FF_8000u32) >> 10u32) & 31u32 == (data >> 10u32) & 31u32,
        ((data & !0x07FF_8000u32) & 0x8000_0000u32 != 0) == (data & 0x8000_0000u32 != 0),
        (data & !0x07FF_8000u32) & 0x07FF_8000u32 == 0,
        data & 0x07FF_8000u32 == 0 ==> data & !0x07FF_8000u32 == data,
        data & !0x07FF_8000u32 == 0 && data != 0 ==> data & 0x07FF_8000u32 != 0,
        data & !0x07FF_8000u32 == 0 ==> data & 0x07FF_8000u32 == data,
        (data & 0x07FF_8000u32) & !0x07FF_8000u32 == 0,
        (data & 0x07FF_8000u32) & 0x07FF_8000u32 == data & 0x07FF_8000u32,
{
}

/// The slots live in the power field: words with the same power field have the same slots, and a
/// word with an empty power field has empty slots.
pub proof fn lemma_slots_in_field(data: u32, disp: u32, t: u32)
    by (bit_vector)
    requires
        data & 0x07FF_8000u32 == disp & 0x07FF_8000u32,
        t < 4,
    ensures
        (data >> ((15 + 3 * t) as u32)) & 7u32 == (disp >> ((15 + 3 * t) as u32)) & 7u32,
        disp & 0x07FF_8000u32 == 0 ==> (disp >> ((15 + 3 * t) as u32)) & 7u32 == 0,
{
}

/// Writing a worker into an empty slot sets that slot and leaves the others.
pub proof fn lemma_slot_insert(acc: u32, w: u32, slot: u32, t: u32)
    by (bit_vector)
    requires
        acc & !0x07FF_8000u32 == 0,
        1 <= w <= 7,
        slot < 4,
        t < 4,
        (acc >> ((15 + 3 * slot) as u32)) & 7u32 == 0,
    ensures
        ((acc | (w << ((15 + 3 * slot) as u32))) >> ((15 + 3 * t) as u32)) & 7u32 == (if t == slot {
            w
        } else {
            (acc >> ((15 + 3 * t) as u32)) & 7u32
        }),
        (acc | (w << ((15 + 3 * slot) as u32))) & !0x07FF_8000u32 == 0,
        (acc | (w << ((15 + 3 * slot) as u32))) != 0,
{
}

proof fn lemma_slot_small(data: u32, t: u32)
    by (bit_vector)
    ensures
        (data >> ((15 + 3 * t) as u32)) & 7u32 <= 7,
{
}

impl OdysseusMove {
    pub fn new_basic_move(move_from_position: Square, move_to_position: Square, build_position: Square, displacement: MoveData) -> (r: Self)
        requires
            move_from_position < 25,
            move_to_position < 25,
            build_position < 25,
        ensures
            r.0 == (move_from_position as u32) | ((move_to_position as u32) << 5u32) | ((build_position as u32) << 10u32)
                | displacement,
    {
        OdysseusMove(
            (move_from_position as u32) | ((move_to_position as u32) << 5u32) | ((build_position as u32) << 10u32)
                | displacement,
        )
    }

    pub fn new_winning_move(move_from_position: Square, move_to_position: Square, displacement: MoveData) -> (r: Self)
        requires
            move_from_position < 25,
            move_to_position < 25,
        ensures
            r.0 == (move_from_position as u32) | ((move_to_position as u32) << 5u32) | displacement | MOVE_IS_WINNING_MASK,
    {
        OdysseusMove((move_from_position as u32) | ((move_to_position as u32) << 5u32) | displacement | MOVE_IS_WINNING_MASK)
    }

    pub fn move_from_position(&self) -> (r: Square)
        ensures
            r == field_at(self.0, 0),
    {
        read_position(self.0, 0)
    }

    pub fn move_to_position(&self) -> (r: Square)
        ensures
            r == field_at(self.0, 5),
    {
        read_position(self.0, 5)
    }

    pub fn build_position(self) -> (r: Square)
        ensures
            r == field_at(self.0, 10),
    {
        read_position(self.0, 10)
    }

    /// The start and end squares of the moving worker.
    pub fn move_mask(self) -> (r: BitBoard)
        requires
            field_at(self.0, 0) < 25,
            field_at(self.0, 5) < 25,
        ensures
            r.0 == (1u32 << field_at(self.0, 0)) ^ (1u32 << field_at(self.0, 5)),
    {
        BitBoard::as_mask(self.move_from_position()).xor(BitBoard::as_mask(self.move_to_position()))
    }

    pub fn get_is_winning(&self) -> (r: bool)
        ensures
            r == is_winning_data(self.0),
    {
        (self.0 & MOVE_IS_WINNING_MASK) != 0
    }

    /// Whether the move uses the power.
    pub fn has_displacement(self) -> (r: bool)
        ensures
            r == (self.0 & DISPLACEMENT_MASK != 0),
    {
        (self.0 & DISPLACEMENT_MASK) != 0
    }

    /// The value in one slot.
    pub fn slot_value(self, slot: usize) -> (r: u32)
        requires
            slot < 4,
        ensures
            r == slot_value(self.0, slot as int),
            r <= 7,
    {
        let shift: u32 = DISPLACEMENT_OFFSET + (slot as u32) * SLOT_WIDTH;
        proof {
            lemma_slot_small(self.0, slot as u32);
        }
        (self.0 >> shift) & SLOT_MASK
    }
}

/// The corner of a slot.
pub fn corner_square(slot: usize) -> (r: Square)
    requires
        slot < 4,
    ensures
        r == corner_of(slot as int),
{
    if slot == 0 {
        0
    } else if slot == 1 {
        4
    } else if slot == 2 {
        20
    } else {
        24
    }
}

/// The same move with the power stripped off.
pub fn strip_displacement(action: GenericMove) -> (r: GenericMove)
    ensures
        r.0 == action.0 & !DISPLACEMENT_MASK,
{
    GenericMove::new(action.0 & !DISPLACEMENT_MASK)
}

proof fn lemma_corners_bit(i: u32)
    by (bit_vector)
    requires
        i < 32,
    ensures
        ((0x0110_0011u32 >> i) & 1u32 == 1u32) == (i == 0 || i == 4 || i == 20 || i == 24),
{
}

/// The addressable workers are opponent workers, in strictly ascending order.
pub proof fn lemma_addressable(board: BoardState, player: Player)
    ensures
        addressable(board, player).len() <= 7,
        forall|k: int|
            0 <= k < addressable(board, player).len() ==> #[trigger] addressable(board, player)[k] < 25
                && board.workers[1 - player.idx()].has(addressable(board, player)[k] as int),
        forall|a: int, b: int|
            0 <= a < b < addressable(board, player).len() ==> #[trigger] addressable(board, player)[a]
                < #[trigger] addressable(board, player)[b],
{
    crate::bitboard::lemma_squares_below(board.workers[1 - player.idx()].0, 25);
}

/// The opponent's workers in ascending square order, at most as many as a slot can name.
pub fn get_addressable_workers(board: &BoardState, player: Player) -> (r: Vec<Square>)
    ensures
        r@ == addressable(*board, player),
{
    let all = board.workers[player.other().index()].squares();
    let mut r: Vec<Square> = Vec::new();
    let mut i: usize = 0;
    while i < all.len() && i < MAX_ADDRESSABLE_WORKERS
        invariant
            i <= all@.len(),
            i <= 7,
            r@ == all@.take(i as int),
        decreases all@.len() - i,
    {
        r.push(all[i]);
        i = i + 1;
        assert(r@ == all@.take(i as int));
    }
    proof {
        if all@.len() <= 7 {
            assert(all@.take(all@.len() as int) == all@);
        }
    }
    r
}

/// The opponent workers that the power may force: those next to one of the player's workers.
pub fn get_forcible_workers(board: &BoardState, player: Player, other_god: GodName) -> (r: BitBoard)
    requires
        board.wf(),
    ensures
        forall|i: int| #[trigger] r.has(i) == is_forcible(*board, player, i),
{
    broadcast use group_bit_lemmas;

    let main = BitBoard::main_section();
    let own_workers = board.workers[player.index()].and(main);
    let oppo_workers = board.workers[player.other().index()].and(main);
    let frozen = other_god.get_frozen_mask(board, player.other());
    let r = oppo_workers.and(apply_neighbor_map_to_mask(own_workers)).minus(frozen);
    proof {
        let p = player.idx();
        assert forall|i: int| #[trigger] r.has(i) == is_forcible(*board, player, i) by {
            if r.has(i) {
                let s = choose|s: int| 0 <= s < 25 && #[trigger] own_workers.has(s) && is_adjacent(s, i);
                assert(board.workers[p].has(s));
            }
            if is_forcible(*board, player, i) {
                let s = choose|s: int| 0 <= s < 25 && #[trigger] board.workers[p].has(s) && is_adjacent(s, i);
                assert(own_workers.has(s));
                assert(board.workers[1 - p].within_board());
            }
        }
    }
    r
}

/// The corners a worker may be forced onto: no worker, no dome.
pub fn get_free_corners(board: &BoardState, player: Player, other_god: GodName) -> (r: BitBoard)
    requires
        board.wf(),
    ensures
        forall|i: int| #[trigger] r.has(i) == is_free_corner(*board, i),
{
    broadcast use group_bit_lemmas;

    let occupied = board.workers[0].or(board.workers[1]).or(board.at_least_level_4()).or(
        other_god.get_frozen_mask(board, player.other()),
    );
    let r = BitBoard(CORNERS_MASK).minus(occupied).and(BitBoard::main_section());
    proof {
        assert forall|i: int| #[trigger] r.has(i) == is_free_corner(*board, i) by {
            if 0 <= i < 32 {
                lemma_corners_bit(i as u32);
            }
        }
    }
    r
}

/// Whether an Odysseus player still holds the power and some corner is free to force a worker
/// onto.
pub fn power_is_live(board: &BoardState, odysseus_player: Player) -> (r: bool)
    requires
        board.wf(),
    ensures
        r == (board.god_data[odysseus_player.idx()] == 0 && exists|c: int| #[trigger] is_free_corner(*board, c)),
{
    let free = get_free_corners(board, odysseus_player, GodName::Mortal);
    let r = board.god_data[odysseus_player.index()] == 0 && free.is_not_empty();
    proof {
        if exists|c: int| #[trigger] free.has(c) {
            let c = choose|c: int| #[trigger] free.has(c);
            assert(is_free_corner(*board, c));
        }
        if exists|c: int| #[trigger] is_free_corner(*board, c) {
            let c = choose|c: int| #[trigger] is_free_corner(*board, c);
            assert(free.has(c));
        }
    }
    r
}

/// The (forced worker, corner) pairs of the first `n` slots.
pub open spec fn decoded_upto(data: u32, addr: Seq<u8>, n: nat) -> Seq<(u8, u8)>
    decreases n,
{
    if n == 0 {
        Seq::empty()
    } else {
        let prev = decoded_upto(data, addr, (n - 1) as nat);
        let v = slot_value(data, n - 1);
        if v != 0 && v - 1 < addr.len() {
            prev.push((addr[v - 1], corner_of(n - 1) as u8))
        } else {
            prev
        }
    }
}

/// The board the move and build of an Odysseus turn are played on.
pub open spec fn pre_move_board(board: BoardState, player: Player, data: u32) -> BoardState {
    if data & DISPLACEMENT_MASK != 0 {
        displaced_board(board, player, data)
    } else {
        board
    }
}

proof fn lemma_pair_bit(a: u32, c: u32, i: u32)
    requires
        a < 32,
        c < 32,
        i < 32,
    ensures
        bit((1u32 << a) ^ (1u32 << c), i) == ((i == a) != (i == c)),
{
    crate::bitboard::lemma_bit_xor(1u32 << a, 1u32 << c, i);
    crate::bitboard::lemma_bit_single(a, i);
    crate::bitboard::lemma_bit_single(c, i);
}

/// A legal power only touches squares that hold an opponent worker or a free corner.
proof fn lemma_mask_avoids(board: BoardState, player: Player, data: u32, n: nat)
    requires
        board.wf(),
        is_legal_displacement(board, player, data),
        n <= 4,
    ensures
        forall|i: u32|
            i < 32 && (i >= 25 || board.workers[player.idx()].has(i as int)) ==> !#[trigger] bit(
                displacement_mask_upto(data, addressable(board, player), n),
                i,
            ),
    decreases n,
{
    broadcast use group_bit_lemmas;

    let addr = addressable(board, player);
    let p = player.idx();
    if n > 0 {
        lemma_mask_avoids(board, player, data, (n - 1) as nat);
        lemma_addressable(board, player);
        let s = n - 1;
        let v = slot_value(data, s);
        let prev = displacement_mask_upto(data, addr, (n - 1) as nat);
        assert forall|i: u32| i < 32 && (i >= 25 || board.workers[p].has(i as int)) implies !#[trigger] bit(
            displacement_mask_upto(data, addr, n),
            i,
        ) by {
            assert(!bit(prev, i));
            if v != 0 && v - 1 < addr.len() {
                let a = addr[v - 1];
                assert(board.workers[1 - p].has(a as int));
                assert(is_free_corner(board, corner_of(s)));
                lemma_pair_bit(a as u32, corner_of(s) as u32, i);
                assert(board.workers[0].within_board() && board.workers[1].within_board());
            }
        }
    }
}

/// The power keeps the board well formed and moves no worker of the player.
pub proof fn lemma_displacement_keeps_wf(board: BoardState, player: Player, data: u32)
    requires
        board.wf(),
        is_legal_displacement(board, player, data),
    ensures
        displaced_board(board, player, data).wf(),
        displaced_board(board, player, data).workers[player.idx()] == board.workers[player.idx()],
        displaced_board(board, player, data).height_map == board.height_map,
        displaced_board(board, player, data).god_data == board.god_data,
{
    broadcast use group_bit_lemmas;

    let p = player.idx();
    let after = displaced_board(board, player, data);
    let m = displacement_mask_upto(data, addressable(board, player), 4);
    lemma_mask_avoids(board, player, data, 4);
    assert(after.workers[1 - p].0 == board.workers[1 - p].0 ^ m);
    assert(after.workers[p] == board.workers[p]);
    assert(board.workers[0].within_board() && board.workers[1].within_board());
    assert forall|i: int| #[trigger] after.workers[1 - p].has(i) implies is_square(i) by {
        if 25 <= i < 32 {
            crate::bitboard::lemma_bit_xor(board.workers[1 - p].0, m, i as u32);
            assert(!bit(m, i as u32));
            assert(!board.workers[1 - p].has(i));
        }
    }
    assert forall|i: int| !(#[trigger] after.workers[0].has(i) && after.workers[1].has(i)) by {
        if after.workers[p].has(i) && 0 <= i < 32 {
            assert(board.workers[p].has(i));
            crate::bitboard::lemma_bit_xor(board.workers[1 - p].0, m, i as u32);
            assert(!bit(m, i as u32));
            assert(!board.workers[1 - p].has(i));
        }
    }
}

impl OdysseusMove {
    /// The (forced worker, corner) pairs of the power, read against the board before it resolves.
    pub fn decode_displacements(self, board: &BoardState, player: Player) -> (r: Vec<(Square, Square)>)
        ensures
            self.0 & DISPLACEMENT_MASK == 0 ==> r@.len() == 0,
            self.0 & DISPLACEMENT_MASK != 0 ==> r@ == decoded_upto(self.0, addressable(*board, player), 4),
            forall|k: int| 0 <= k < r@.len() ==> (#[trigger] r@[k]).0 < 25 && r@[k].1 < 25,
    {
        let mut res: Vec<(Square, Square)> = Vec::new();
        if !self.has_displacement() {
            return res;
        }
        let sources = get_addressable_workers(board, player);
        proof {
            lemma_addressable(*board, player);
        }
        let mut slot: usize = 0;
        while slot < NUM_CORNERS
            invariant
                slot <= 4,
                sources@ == addressable(*board, player),
                forall|k: int| 0 <= k < sources@.len() ==> #[trigger] sources@[k] < 25,
                res@ == decoded_upto(self.0, sources@, slot as nat),
                forall|k: int| 0 <= k < res@.len() ==> (#[trigger] res@[k]).0 < 25 && res@[k].1 < 25,
            decreases 4 - slot,
        {
            let value = self.slot_value(slot);
            if value != 0 && ((value - 1) as usize) < sources.len() {
                let worker_idx = (value - 1) as usize;
                res.push((sources[worker_idx], corner_square(slot)));
            }
            slot = slot + 1;
        }
        res
    }

    /// What the power does to the opponent's workers, as one xor mask.
    pub fn displacement_xor_mask(self, board: &BoardState, player: Player) -> (r: u32)
        ensures
            r == displacement_mask_upto(self.0, addressable(*board, player), 4),
    {
        let sources = get_addressable_workers(board, player);
        proof {
            lemma_addressable(*board, player);
        }
        let mut m: u32 = 0;
        let mut slot: usize = 0;
        while slot < NUM_CORNERS
            invariant
                slot <= 4,
                sources@ == addressable(*board, player),
                forall|k: int| 0 <= k < sources@.len() ==> #[trigger] sources@[k] < 25,
                m == displacement_mask_upto(self.0, sources@, slot as nat),
            decreases 4 - slot,
        {
            let value = self.slot_value(slot);
            if value != 0 && ((value - 1) as usize) < sources.len() {
                let worker_sq = sources[(value - 1) as usize];
                let corner = corner_square(slot);
                m = m ^ ((1u32 << worker_sq) ^ (1u32 << (corner as u32)));
            }
            proof {
                broadcast use group_bit_lemmas;

                assert(displacement_mask_upto(self.0, sources@, (slot + 1) as nat) == displacement_mask_upto(
                    self.0,
                    sources@,
                    slot as nat,
                ) ^ slot_pair_mask(self.0, sources@, slot as int));
            }
            slot = slot + 1;
        }
        m
    }

    /// Plays the turn: the power, if used, forces the named workers onto their corners and is
    /// spent; then the worker moves, and either wins or builds.
    pub fn make_move(self, board: &mut BoardState, player: Player)
        requires
            old(board).wf(),
            self.0 & DISPLACEMENT_MASK != 0 ==> is_legal_displacement(*old(board), player, self.0),
            field_at(self.0, 0) < 25,
            field_at(self.0, 5) < 25,
            field_at(self.0, 10) < 25,
            pre_move_board(*old(board), player, self.0).workers[player.idx()].has(field_at(self.0, 0) as int),
            !pre_move_board(*old(board), player, self.0).occupied(field_at(self.0, 5) as int),
            !is_winning_data(self.0) ==> old(board).height(field_at(self.0, 10) as int) < 4,
        ensures
            final(board).wf(),
            final(board).workers[1 - player.idx()] == pre_move_board(*old(board), player, self.0).workers[1 - player.idx()],
            final(board).workers[player.idx()].0 == old(board).workers[player.idx()].0 ^ ((1u32 << field_at(self.0, 0))
                ^ (1u32 << field_at(self.0, 5))),
            self.0 & DISPLACEMENT_MASK != 0 ==> final(board).god_data[player.idx()] == POWER_USED,
            self.0 & DISPLACEMENT_MASK == 0 ==> final(board).god_data[player.idx()] == old(board).god_data[player.idx()],
            final(board).god_data[1 - player.idx()] == old(board).god_data[1 - player.idx()],
            final(board).current_player == old(board).current_player,
            is_winning_data(self.0) ==> final(board).winner == Some(player) && final(board).height_map == old(board).height_map,
            !is_winning_data(self.0) ==> final(board).winner == old(board).winner,
            !is_winning_data(self.0) ==> final(board).height(field_at(self.0, 10) as int) == old(board).height(
                field_at(self.0, 10) as int,
            ) + 1,
            !is_winning_data(self.0) ==> forall|i: int| i != field_at(self.0, 10) ==> #[trigger] final(board).height(i) == old(
                board,
            ).height(i),
    {
        if self.has_displacement() {
            let m = self.displacement_xor_mask(board, player);
            let ghost before = *board;
            board.worker_xor(player.other(), BitBoard(m));
            proof {
                lemma_displacement_keeps_wf(before, player, self.0);
                assert(board.workers =~= displaced_board(before, player, self.0).workers);
            }
            board.set_god_data(player, POWER_USED);
        }
        let plain = MortalMove(self.0 & !DISPLACEMENT_MASK);
        proof {
            lemma_strip_keeps_fields(self.0);
        }
        plain.make_move(board, player);
    }

    /// The squares an opponent would have to touch to stop this move: its start and end, and the
    /// corners the power fills.
    pub fn get_blocker_board(self, board: &BoardState) -> (r: BitBoard)
        requires
            field_at(self.0, 0) < 25,
            field_at(self.0, 5) < 25,
        ensures
            r.has(field_at(self.0, 0) as int),
            r.has(field_at(self.0, 5) as int),
            self.0 & DISPLACEMENT_MASK == 0 ==> r.0 == (1u32 << field_at(self.0, 0)) | (1u32 << field_at(self.0, 5)),
    {
        broadcast use group_bit_lemmas;

        let move_from = self.move_from_position();
        let mut res = BitBoard::as_mask(move_from).or(BitBoard::as_mask(self.move_to_position()));
        if self.has_displacement() {
            let player = if board.workers[0].contains_square(move_from) {
                Player::One
            } else {
                Player::Two
            };
            let pairs = self.decode_displacements(board, player);
            let mut k: usize = 0;
            while k < pairs.len()
                invariant
                    k <= pairs@.len(),
                    forall|j: int| 0 <= j < pairs@.len() ==> (#[trigger] pairs@[j]).0 < 25 && pairs@[j].1 < 25,
                    res.has(field_at(self.0, 0) as int),
                    res.has(field_at(self.0, 5) as int),
                decreases pairs@.len() - k,
            {
                let to = pairs[k].1;
                res = res.or(BitBoard::as_mask(to));
                k = k + 1;
            }
        }
        res
    }

    /// Index of the move in the history table: the three squares and their heights. The power is
    /// left out, as it fires at most once per game.
    pub fn get_history_idx(self, board: &BoardState) -> (r: usize)
        requires
            field_at(self.0, 0) < 25,
            field_at(self.0, 5) < 25,
            field_at(self.0, 10) < 25,
        ensures
            r == history_idx(self.0, *board),
    {
        MortalMove(self.0).get_history_idx(board)
    }

    pub fn to_generic(self) -> (r: GenericMove)
        ensures
            r.0 == self.0,
    {
        GenericMove(self.0)
    }

    pub fn from_generic(action: GenericMove) -> (r: Self)
        ensures
            r.0 == action.0,
    {
        OdysseusMove(action.0)
    }
}

/// Which kind a worker index is: 1 for a worker whose identity is tracked, else 0.
pub open spec fn worker_kind(female_worker_mask: u32, idx: u32) -> bool {
    bit(female_worker_mask, idx)
}

/// A displacement field that the generator may emit: non-empty, in the power field only, every
/// slot naming a forcible worker and a free corner, and no worker named twice.
pub open spec fn is_canonical_displacement(d: u32, free_corners: BitBoard, num_addressable: nat, forcible_mask: u32) -> bool {
    &&& d != 0
    &&& d & !DISPLACEMENT_MASK == 0
    &&& forall|s: int|
        0 <= s < 4 && #[trigger] slot_value(d, s) != 0 ==> free_corners.has(corner_of(s)) && slot_value(d, s) - 1
            < num_addressable && bit(forcible_mask, (slot_value(d, s) - 1) as u32)
    &&& forall|s: int, t: int|
        0 <= s < t < 4 && slot_value(d, s) != 0 ==> #[trigger] slot_value(d, s) != #[trigger] slot_value(d, t)
}

/// Workers of one kind are named in rising order as the slots go left to right.
pub open spec fn is_kind_ordered(d: u32, female_worker_mask: u32) -> bool {
    forall|s: int, t: int|
        0 <= s < t < 4 && slot_value(d, s) != 0 && slot_value(d, t) != 0 && worker_kind(
            female_worker_mask,
            (slot_value(d, s) - 1) as u32,
        ) == worker_kind(female_worker_mask, (slot_value(d, t) - 1) as u32) ==> #[trigger] slot_value(d, s)
            < #[trigger] slot_value(d, t)
}

/// A power field that keeps the slots of `acc` below `slot` and fills the later ones as the
/// generator may: each filled slot names a forcible worker, later than the last one of its kind
/// named so far, onto a free corner, and workers of one kind rise from slot to slot.
pub open spec fn completes_displacement(
    d: u32,
    acc: u32,
    slot: int,
    free_corners: BitBoard,
    num_addressable: nat,
    forcible_mask: u32,
    female_worker_mask: u32,
    last_male: int,
    last_female: int,
) -> bool {
    &&& d != 0
    &&& d & !DISPLACEMENT_MASK == 0
    &&& forall|s: int| 0 <= s < slot ==> #[trigger] slot_value(d, s) == slot_value(acc, s)
    &&& forall|s: int|
        slot <= s < 4 && #[trigger] slot_value(d, s) != 0 ==> free_corners.has(corner_of(s)) && slot_value(d, s) - 1
            < num_addressable && bit(forcible_mask, (slot_value(d, s) - 1) as u32) && slot_value(d, s) - 1 > (if worker_kind(
            female_worker_mask,
            (slot_value(d, s) - 1) as u32,
        ) {
            last_female
        } else {
            last_male
        })
    &&& forall|s: int, t: int|
        slot <= s < t < 4 && slot_value(d, s) != 0 && slot_value(d, t) != 0 && worker_kind(
            female_worker_mask,
            (slot_value(d, s) - 1) as u32,
        ) == worker_kind(female_worker_mask, (slot_value(d, t) - 1) as u32) ==> #[trigger] slot_value(d, s)
            < #[trigger] slot_value(d, t)
}

/// Two power fields with the same four slots are the same word.
proof fn lemma_slots_determine(a: u32, b: u32)
    by (bit_vector)
    requires
        a & !0x07FF_8000u32 == 0,
        b & !0x07FF_8000u32 == 0,
        (a >> 15u32) & 7u32 == (b >> 15u32) & 7u32,
        (a >> 18u32) & 7u32 == (b >> 18u32) & 7u32,
        (a >> 21u32) & 7u32 == (b >> 21u32) & 7u32,
        (a >> 24u32) & 7u32 == (b >> 24u32) & 7u32,
    ensures
        a == b,
{
}

/// Every non-empty assignment of forcible workers to free corners, as power fields. Two workers of
/// the same kind are interchangeable, so assignments are taken with the worker index rising within
/// a kind as the slots go left to right.
pub fn collect_displacements(free_corners: BitBoard, num_addressable: usize, forcible_mask: u32, female_worker_mask: u32) -> (r: Vec<MoveData>)
    requires
        num_addressable <= 7,
    ensures
        forall|k: int|
            0 <= k < r@.len() ==> #[trigger] is_canonical_displacement(r@[k], free_corners, num_addressable as nat, forcible_mask),
        forall|d: u32|
            #[trigger] is_canonical_displacement(d, free_corners, num_addressable as nat, forcible_mask) && is_kind_ordered(
                d,
                female_worker_mask,
            ) ==> r@.contains(d),
{
    let mut result: Vec<MoveData> = Vec::new();
    proof {
        assert forall|s: int| 0 <= s < 4 implies #[trigger] slot_value(0u32, s) == 0 by {
            assert(0u32 & 0x07FF_8000u32 == 0) by (bit_vector);
            lemma_slots_in_field(0u32, 0u32, s as u32);
        }
        assert(0u32 & !DISPLACEMENT_MASK == 0) by (bit_vector);
    }
    collect_displacements_inner(0, free_corners, -1, -1, num_addressable, forcible_mask, female_worker_mask, 0, &mut result);
    proof {
        assert forall|d: u32|
            #[trigger] is_canonical_displacement(d, free_corners, num_addressable as nat, forcible_mask) && is_kind_ordered(
                d,
                female_worker_mask,
            ) implies result@.contains(d) by {
            assert(completes_displacement(d, 0, 0, free_corners, num_addressable as nat, forcible_mask, female_worker_mask, -1, -1));
        }
    }
    result
}

fn collect_displacements_inner(
    slot: usize,
    free_corners: BitBoard,
    last_male: i32,
    last_female: i32,
    num_addressable: usize,
    forcible_mask: u32,
    female_worker_mask: u32,
    acc: MoveData,
    result: &mut Vec<MoveData>,
)
    requires
        slot <= 4,
        num_addressable <= 7,
        -1 <= last_male < 7,
        -1 <= last_female < 7,
        acc & !DISPLACEMENT_MASK == 0,
        forall|s: int| slot <= s < 4 ==> #[trigger] slot_value(acc, s) == 0,
        forall|s: int|
            0 <= s < slot && #[trigger] slot_value(acc, s) != 0 ==> free_corners.has(corner_of(s)) && slot_value(acc, s) - 1
                < num_addressable && bit(forcible_mask, (slot_value(acc, s) - 1) as u32) && slot_value(acc, s) - 1 <= (if worker_kind(
                female_worker_mask,
                (slot_value(acc, s) - 1) as u32,
            ) {
                last_female
            } else {
                last_male
            }),
        forall|s: int, t: int|
            0 <= s < t < slot && slot_value(acc, s) != 0 ==> #[trigger] slot_value(acc, s) != #[trigger] slot_value(acc, t),
    ensures
        final(result)@.len() >= old(result)@.len(),
        forall|k: int| 0 <= k < old(result)@.len() ==> #[trigger] final(result)@[k] == old(result)@[k],
        forall|k: int|
            old(result)@.len() <= k < final(result)@.len() ==> #[trigger] is_canonical_displacement(
                final(result)@[k],
                free_corners,
                num_addressable as nat,
                forcible_mask,
            ),
        forall|d: u32|
            #[trigger] completes_displacement(
                d,
                acc,
                slot as int,
                free_corners,
                num_addressable as nat,
                forcible_mask,
                female_worker_mask,
                last_male as int,
                last_female as int,
            ) ==> final(result)@.contains(d),
    decreases 4 - slot,
{
    if slot == NUM_CORNERS {
        if acc != 0 {
            result.push(acc);
        }
        proof {
            assert forall|d: u32|
                #[trigger] completes_displacement(
                    d,
                    acc,
                    slot as int,
                    free_corners,
                    num_addressable as nat,
                    forcible_mask,
                    female_worker_mask,
                    last_male as int,
                    last_female as int,
                ) implies result@.contains(d) by {
                assert(slot_value(d, 0) == slot_value(acc, 0));
                assert(slot_value(d, 1) == slot_value(acc, 1));
                assert(slot_value(d, 2) == slot_value(acc, 2));
                assert(slot_value(d, 3) == slot_value(acc, 3));
                lemma_slots_determine(d, acc);
                assert(result@[result@.len() - 1] == d);
            }
        }
        return;
    }
    collect_displacements_inner(
        slot + 1,
        free_corners,
        last_male,
        last_female,
        num_addressable,
        forcible_mask,
        female_worker_mask,
        acc,
        result,
    );
    let ghost after_empty = result@;
    proof {
        assert forall|d: u32|
            #[trigger] completes_displacement(
                d,
                acc,
                slot as int,
                free_corners,
                num_addressable as nat,
                forcible_mask,
                female_worker_mask,
                last_male as int,
                last_female as int,
            ) && slot_value(d, slot as int) == 0 implies result@.contains(d) by {
            assert(completes_displacement(
                d,
                acc,
                slot as int + 1,
                free_corners,
                num_addressable as nat,
                forcible_mask,
                female_worker_mask,
                last_male as int,
                last_female as int,
            ));
        }
    }
    let corner = corner_square(slot);
    if !free_corners.contains_square(corner) {
        return;
    }
    let ghost start = old(result)@;
    let mut worker_idx: usize = 0;
    while worker_idx < num_addressable
        invariant
            slot < 4,
            worker_idx <= num_addressable,
            num_addressable <= 7,
            -1 <= last_male < 7,
            -1 <= last_female < 7,
            corner == corner_of(slot as int),
            free_corners.has(corner_of(slot as int)),
            acc & !DISPLACEMENT_MASK == 0,
            forall|s: int| slot <= s < 4 ==> #[trigger] slot_value(acc, s) == 0,
            forall|s: int|
                0 <= s < slot && #[trigger] slot_value(acc, s) != 0 ==> free_corners.has(corner_of(s)) && slot_value(acc, s) - 1
                    < num_addressable && bit(forcible_mask, (slot_value(acc, s) - 1) as u32) && slot_value(acc, s) - 1 <= (if worker_kind(
                    female_worker_mask,
                    (slot_value(acc, s) - 1) as u32,
                ) {
                    last_female
                } else {
                    last_male
                }),
            forall|s: int, t: int|
                0 <= s < t < slot && slot_value(acc, s) != 0 ==> #[trigger] slot_value(acc, s) != #[trigger] slot_value(acc, t),
            result@.len() >= start.len(),
            forall|k: int| 0 <= k < start.len() ==> #[trigger] result@[k] == start[k],
            forall|k: int|
                start.len() <= k < result@.len() ==> #[trigger] is_canonical_displacement(
                    result@[k],
                    free_corners,
                    num_addressable as nat,
                    forcible_mask,
                ),
            forall|d: u32| #[trigger] completes_displacement(
                d,
                acc,
                slot as int,
                free_corners,
                num_addressable as nat,
                forcible_mask,
                female_worker_mask,
                last_male as int,
                last_female as int,
            ) && (slot_value(d, slot as int) == 0 || slot_value(d, slot as int) <= worker_idx)
                ==> result@.contains(d),
        decreases num_addressable - worker_idx,
    {
        let wi: u32 = worker_idx as u32;
        if forcible_mask & (1u32 << wi) != 0 {
            let is_female = (female_worker_mask >> wi) & 1 == 1;
            let last_of_kind = if is_female { last_female } else { last_male };
            if (worker_idx as i32) > last_of_kind {
                let w: u32 = wi + 1;
                let shift: u32 = DISPLACEMENT_OFFSET + (slot as u32) * SLOT_WIDTH;
                let slot_bits: u32 = w << shift;
                let next_acc = acc | slot_bits;
                let next_male = if is_female { last_male } else { worker_idx as i32 };
                let next_female = if is_female { worker_idx as i32 } else { last_female };
                proof {
                    assert(slot_value(acc, slot as int) == 0);
                    crate::bitboard::lemma_bit_test(forcible_mask, wi);
                    assert forall|t: int| 0 <= t < 4 implies #[trigger] slot_value(next_acc, t) == (if t == slot {
                        w
                    } else {
                        slot_value(acc, t)
                    }) by {
                        lemma_slot_insert(acc, w, slot as u32, t as u32);
                    }
                    lemma_slot_insert(acc, w, slot as u32, 0);
                    assert forall|s: int, t: int|
                        0 <= s < t < slot + 1 && slot_value(next_acc, s) != 0 implies #[trigger] slot_value(next_acc, s)
                        != #[trigger] slot_value(next_acc, t) by {
                        if t == slot {
                            let v = slot_value(acc, s);
                            if worker_kind(female_worker_mask, (v - 1) as u32) == is_female {
                                assert(v - 1 <= last_of_kind);
                            }
                        }
                    }
                }
                let ghost before = result@;
                collect_displacements_inner(
                    slot + 1,
                    free_corners,
                    next_male,
                    next_female,
                    num_addressable,
                    forcible_mask,
                    female_worker_mask,
                    next_acc,
                    result,
                );
                proof {
                    assert forall|d: u32| #[trigger] completes_displacement(
                d,
                acc,
                slot as int,
                free_corners,
                num_addressable as nat,
                forcible_mask,
                female_worker_mask,
                last_male as int,
                last_female as int,
            ) && (slot_value(d, slot as int) == 0 || slot_value(d, slot as int) <= worker_idx + 1)
                        implies result@.contains(d) by {
                        if slot_value(d, slot as int) == w {
                            assert forall|t: int| slot + 1 <= t < 4 && #[trigger] slot_value(d, t) != 0 implies slot_value(d, t) - 1 > (if worker_kind(
                                female_worker_mask,
                                (slot_value(d, t) - 1) as u32,
                            ) {
                                next_female as int
                            } else {
                                next_male as int
                            }) by {
                                if worker_kind(female_worker_mask, (slot_value(d, t) - 1) as u32) == is_female {
                                    assert(slot_value(d, slot as int) < slot_value(d, t));
                                }
                            }
                            assert(completes_displacement(
                                d,
                                next_acc,
                                slot as int + 1,
                                free_corners,
                                num_addressable as nat,
                                forcible_mask,
                                female_worker_mask,
                                next_male as int,
                                next_female as int,
                            ));
                        } else {
                            let i = choose|i: int| 0 <= i < before.len() && before[i] == d;
                            assert(result@[i] == d);
                        }
                    }
                }
            } else {
                proof {
                    assert forall|d: u32| #[trigger] completes_displacement(
                d,
                acc,
                slot as int,
                free_corners,
                num_addressable as nat,
                forcible_mask,
                female_worker_mask,
                last_male as int,
                last_female as int,
            ) implies slot_value(d, slot as int) != wi + 1 by {
                        if slot_value(d, slot as int) == wi + 1 {
                            assert(worker_kind(female_worker_mask, wi) == is_female);
                        }
                    }
                }
            }
        } else {
            proof {
                assert forall|d: u32| #[trigger] completes_displacement(
                d,
                acc,
                slot as int,
                free_corners,
                num_addressable as nat,
                forcible_mask,
                female_worker_mask,
                last_male as int,
                last_female as int,
            ) implies slot_value(d, slot as int) != wi + 1 by {
                    if slot_value(d, slot as int) == wi + 1 {
                        crate::bitboard::lemma_bit_test(forcible_mask, wi);
                        assert(bit(forcible_mask, wi));
                    }
                }
            }
        }
        worker_idx = worker_idx + 1;
    }
    proof {
        assert forall|d: u32| #[trigger] completes_displacement(
                d,
                acc,
                slot as int,
                free_corners,
                num_addressable as nat,
                forcible_mask,
                female_worker_mask,
                last_male as int,
                last_female as int,
            ) implies result@.contains(d) by {
            assert(slot_value(d, slot as int) <= 7) by (bit_vector);
        }
    }
}

/// A move word of an Odysseus turn whose power field is `disp`, and whose move and build are a
/// plain turn in `state`.
pub open spec fn is_tagged_turn(state: FullGameState, player: Player, must_climb: bool, disp: u32, data: u32) -> bool {
    &&& data & DISPLACEMENT_MASK == disp
    &&& is_standard_turn(state, player, must_climb, false, data & !DISPLACEMENT_MASK)
}

/// Two words with the same slots have the same power.
proof fn lemma_same_slots(board: BoardState, player: Player, d1: u32, d2: u32)
    requires
        forall|s: int| 0 <= s < 4 ==> #[trigger] slot_value(d1, s) == slot_value(d2, s),
        (d1 & DISPLACEMENT_MASK != 0) == (d2 & DISPLACEMENT_MASK != 0),
    ensures
        is_legal_displacement(board, player, d1) == is_legal_displacement(board, player, d2),
        displaced_board(board, player, d1) == displaced_board(board, player, d2),
{
    let addr = addressable(board, player);
    assert(slot_value(d1, 0) == slot_value(d2, 0));
    assert(slot_value(d1, 1) == slot_value(d2, 1));
    assert(slot_value(d1, 2) == slot_value(d2, 2));
    assert(slot_value(d1, 3) == slot_value(d2, 3));
    assert(displacement_mask_upto(d1, addr, 4) == displacement_mask_upto(d2, addr, 4)) by {
        reveal_with_fuel(displacement_mask_upto, 5);
    }
}

/// A word with the power field split off is the plain word with the field put back.
proof fn lemma_tag_split(x: u32, plain: u32, disp: u32)
    by (bit_vector)
    requires
        x & !0x07FF_8000u32 == plain,
        x & 0x07FF_8000u32 == disp,
    ensures
        x == plain | disp,
{
}

/// Putting the power field into a winning word.
proof fn lemma_tagged_win_word(from: u32, to: u32, disp: u32)
    by (bit_vector)
    ensures
        (from | (to << 5u32) | 0x8000_0000u32) | disp == from | (to << 5u32) | disp | 0x8000_0000u32,
{
}

/// The turns that one pass of the move and build half owes for the power field `disp`: every
/// tagged turn, except, in a pass with the power, a win that the pass without it already listed
/// from the same square (`listed_wins`).
pub open spec fn tagged_turn_owed(
    state: FullGameState,
    player: Player,
    must_climb: bool,
    disp: u32,
    listed_wins: Seq<BitBoard>,
    data: u32,
) -> bool {
    let plain = data & !DISPLACEMENT_MASK;
    &&& is_tagged_turn(state, player, must_climb, disp, data)
    &&& disp != 0 && is_winning_data(plain) ==> !listed_wins[field_at(plain, 0) as int].has(field_at(plain, 5) as int)
}

/// The move and build half of the turn, from `state`, with every move tagged with the power field
/// `displacement`. `powerless_wins` holds, per start square, the wins found without the power, so
/// a later pass with the power does not repeat them. Returns true when generation should stop.
fn generate_from_state(
    flags: MoveGenFlags,
    state: &FullGameState,
    player: Player,
    key_squares: BitBoard,
    displacement: MoveData,
    displacement_matched_key_squares: bool,
    powerless_wins: &mut Vec<BitBoard>,
    result: &mut Vec<ScoredMove>,
    must_climb: bool,
) -> (stop: bool)
    requires
        state.board.wf(),
        displacement & !DISPLACEMENT_MASK == 0,
        old(powerless_wins)@.len() == 25,
    ensures
        final(powerless_wins)@.len() == 25,
        final(result)@.len() >= old(result)@.len(),
        forall|k: int| 0 <= k < old(result)@.len() ==> #[trigger] final(result)@[k] == old(result)@[k],
        forall|k: int|
            old(result)@.len() <= k < final(result)@.len() ==> #[trigger] is_tagged_turn(
                *state,
                player,
                must_climb,
                displacement,
                final(result)@[k].action.0,
            ),
        flags & NARROWING_FLAGS == 0 ==> !stop,
        displacement != 0 ==> final(powerless_wins)@ == old(powerless_wins)@,
        flags & NARROWING_FLAGS == 0 && displacement == 0 ==> forall|s: int, t: int|
            0 <= s < 25 && 0 <= t < 25 ==> (#[trigger] final(powerless_wins)@[s].has(t) == (old(powerless_wins)@[s].has(t)
                || is_standard_turn(*state, player, must_climb, false, mortal_winning_data(s as u32, t as u32)))),
        flags & NARROWING_FLAGS == 0 ==> forall|data: u32| #[trigger] tagged_turn_owed(
            *state,
            player,
            must_climb,
            displacement,
            old(powerless_wins)@,
            data,
        ) ==> lists_word(final(result)@, data),
{
    broadcast use group_bit_lemmas;

    proof {
        crate::generic::lemma_no_flags(flags);
    }
    let ghost start = result@;
    let ghost pw0 = powerless_wins@;
    let is_powerless_pass = displacement == 0;
    let power_available_next_turn = is_powerless_pass && state.board.god_data[player.index()] == 0;
    let mut prelude = get_generator_prelude_state(state, player, key_squares);
    let ghost initial_acting = prelude.acting_workers;
    let checkable_mask = prelude.exactly_level_2;
    modify_prelude_for_checking_workers(flags, checkable_mask, &mut prelude);
    let workers = prelude.acting_workers.squares();
    proof {
        crate::bitboard::lemma_squares_below(prelude.acting_workers.0, 25);
    }
    let corners = BitBoard(CORNERS_MASK);

    let mut wi: usize = 0;
    while wi < workers.len()
        invariant
            wi <= workers@.len(),
            state.board.wf(),
            displacement & !DISPLACEMENT_MASK == 0,
            powerless_wins@.len() == 25,
            start == old(result)@,
            prelude.inv(),
            prelude.board == state.board,
            prelude.player == player,
            prelude.other_god == state.gods[1 - player.idx()],
            prelude.own_workers.0 == state.board.workers[player.idx()].0 & MAIN_SECTION,
            prelude.other_god.is_hypnus_spec() ==> initial_acting.0 == crate::gods::hypnus::hypnus_filter_spec(
                state.board.height_map,
                prelude.own_workers.0,
            ),
            !prelude.other_god.is_hypnus_spec() ==> initial_acting == prelude.own_workers,
            forall|i: int| #[trigger] prelude.acting_workers.has(i) ==> initial_acting.has(i),
            forall|k: int| 0 <= k < workers@.len() ==> #[trigger] workers@[k] < 25 && prelude.acting_workers.has(workers@[k] as int),
            result@.len() >= start.len(),
            forall|k: int| 0 <= k < start.len() ==> #[trigger] result@[k] == start[k],
            forall|k: int|
                start.len() <= k < result@.len() ==> #[trigger] is_tagged_turn(*state, player, must_climb, displacement, result@[k].action.0),
            pw0 == old(powerless_wins)@,
            displacement != 0 ==> powerless_wins@ == pw0,
            is_powerless_pass == (displacement == 0),
            flags & NARROWING_FLAGS == 0 ==> flags & 1u32 == 0 && flags & 2u32 == 0 && flags & 8u32 == 0,
            flags & NARROWING_FLAGS == 0 ==> prelude.acting_workers == initial_acting,
            flags & NARROWING_FLAGS == 0 ==> forall|data: u32| #[trigger] tagged_turn_owed(*state, player, must_climb, displacement, pw0, data)
                && (exists|j: int| 0 <= j < wi && workers@[j] as u32 == field_at(data & !DISPLACEMENT_MASK, 0)) ==> lists_word(result@, data),
            forall|a: int, b: int| 0 <= a < b < workers@.len() ==> workers@[a] < workers@[b],
            flags & NARROWING_FLAGS == 0 && displacement == 0 ==> forall|s: int, t: int|
                0 <= s < 25 && 0 <= t < 25 ==> (#[trigger] powerless_wins@[s].has(t) == (pw0[s].has(t) || (is_standard_turn(
                    *state,
                    player,
                    must_climb,
                    false,
                    mortal_winning_data(s as u32, t as u32),
                ) && exists|j: int| 0 <= j < wi && workers@[j] == s))),
        decreases workers@.len() - wi,
    {
        let worker_start_pos = workers[wi];
        proof {
            lemma_prelude_acting(*state, player, prelude.own_workers, initial_acting, worker_start_pos as int);
        }
        let worker_start_state = get_worker_start_move_state(&prelude, worker_start_pos);
        let mut worker_next_moves = get_worker_next_move_state(&prelude, &worker_start_state, checkable_mask, must_climb);
        let targets = win_targets(&prelude, worker_start_state.worker_start_height, false);
        let moves_to_level_3 = worker_next_moves.worker_moves.and(targets).and(prelude.win_mask);
        let start_idx = worker_start_pos as usize;
        proof {
            if flags & NARROWING_FLAGS == 0 {
                assert forall|t: int| 0 <= t < 25 implies #[trigger] moves_to_level_3.has(t) == is_standard_turn(
                    *state,
                    player,
                    must_climb,
                    false,
                    mortal_winning_data(worker_start_pos as u32, t as u32),
                ) by {
                    lemma_mortal_move_round_trip(worker_start_pos as u32, t as u32, 0);
                }
            }
        }
        let ghost pw_before = powerless_wins@;
        let emitted_wins = if is_powerless_pass {
            let seen = powerless_wins[start_idx];
            powerless_wins.set(start_idx, seen.or(moves_to_level_3));
            moves_to_level_3
        } else {
            moves_to_level_3.minus(powerless_wins[start_idx])
        };
        proof {
            if flags & NARROWING_FLAGS == 0 && displacement == 0 {
                assert forall|s: int, t: int| 0 <= s < 25 && 0 <= t < 25 implies (#[trigger] powerless_wins@[s].has(t) == (pw0[s].has(t)
                    || (is_standard_turn(*state, player, must_climb, false, mortal_winning_data(s as u32, t as u32)) && exists|j: int|
                    0 <= j < wi + 1 && workers@[j] == s))) by {
                    if s == worker_start_pos {
                        assert(workers@[wi as int] == s);
                        if exists|j: int| 0 <= j < wi && workers@[j] == s {
                            let j = choose|j: int| 0 <= j < wi && workers@[j] == s;
                            assert(workers@[j] < workers@[wi as int]);
                        }
                        assert(pw_before[s].has(t) == (pw0[s].has(t) || (is_standard_turn(
                            *state,
                            player,
                            must_climb,
                            false,
                            mortal_winning_data(s as u32, t as u32),
                        ) && exists|j: int| 0 <= j < wi && workers@[j] == s)));
                    } else {
                        assert(powerless_wins@[s] == pw_before[s]);
                        if exists|j: int| 0 <= j < wi + 1 && workers@[j] == s {
                            let j = choose|j: int| 0 <= j < wi + 1 && workers@[j] == s;
                            assert(j < wi);
                        }
                    }
                }
            }
        }
        let ghost before = result@;
        let stop = push_winning_moves(flags, result, worker_start_pos, emitted_wins, displacement);
        proof {
            assert forall|k: int| start.len() <= k < result@.len() implies #[trigger] is_tagged_turn(
                *state,
                player,
                must_climb,
                displacement,
                result@[k].action.0,
            ) by {
                if k >= before.len() {
                    assert(is_winning_entry(result@[k], worker_start_pos, emitted_wins, displacement));
                    let sq = choose|sq: u8| sq < 25 && #[trigger] emitted_wins.has(sq as int)
                        && result@[k].action.0 == (worker_start_pos as u32) | ((sq as u32) << 5u32) | displacement
                        | MOVE_IS_WINNING_MASK;
                    lemma_odysseus_word(worker_start_pos as u32, sq as u32, 0, displacement);
                    lemma_mortal_move_round_trip(worker_start_pos as u32, sq as u32, 0);
                    let plain = result@[k].action.0 & !DISPLACEMENT_MASK;
                    assert(plain == mortal_winning_data(worker_start_pos as u32, sq as u32));
                    assert(worker_next_moves.worker_moves.has(sq as int));
                    assert(targets.has(sq as int));
                } else {
                    assert(result@[k] == before[k]);
                }
            }
            assert forall|k: int| 0 <= k < start.len() implies #[trigger] result@[k] == start[k] by {
                assert(result@[k] == before[k]);
            }
        }
        if stop {
            return true;
        }
        proof {
            lemma_lists_word_grows(before, result@);
            if flags & NARROWING_FLAGS == 0 {
                assert forall|data: u32| #[trigger] tagged_turn_owed(*state, player, must_climb, displacement, pw0, data)
                    && field_at(data & !DISPLACEMENT_MASK, 0) == worker_start_pos && is_winning_data(data & !DISPLACEMENT_MASK)
                    implies lists_word(result@, data) by {
                    let plain = data & !DISPLACEMENT_MASK;
                    let to = field_at(plain, 5);
                    assert(worker_next_moves.worker_moves.has(to as int));
                    assert(targets.has(to as int));
                    assert(emitted_wins.has(to as int));
                    let k = choose|k: int| before.len() <= k < result@.len() && #[trigger] result@[k].action.0
                        == (worker_start_pos as u32) | (((to as int) as u32) << 5u32) | displacement | MOVE_IS_WINNING_MASK;
                    lemma_tag_split(data, plain, displacement);
                    lemma_tagged_win_word(worker_start_pos as u32, to, displacement);
                    assert(result@[k].action.0 == data);
                }
            }
        }
        let ghost r1 = result@;
        worker_next_moves.worker_moves = worker_next_moves.worker_moves.xor(moves_to_level_3);

        if !is_mate_only(flags) {
            let ends = worker_next_moves.worker_moves.squares();
            proof {
                if flags & NARROWING_FLAGS == 0 {
                    assert forall|i: int| 0 <= i < 25 && is_standard_step(state.board, worker_start_pos as int, i, must_climb)
                        && !is_win_step(false, state.board.height(worker_start_pos as int), state.board.height(i)) implies #[trigger] ends@.contains(
                        i as u8,
                    ) by {
                        assert(!targets.has(i));
                        assert(worker_next_moves.worker_moves.has(i));
                    }
                }
            }
            let mut ei: usize = 0;
            while ei < ends.len()
                invariant
                    ei <= ends@.len(),
                    state.board.wf(),
                    displacement & !DISPLACEMENT_MASK == 0,
                    powerless_wins@.len() == 25,
                    prelude.inv(),
                    prelude.board == state.board,
                    prelude.player == player,
                    prelude.other_god == state.gods[1 - player.idx()],
                    worker_start_pos < 25,
                    worker_start_state.describes(prelude, worker_start_pos as int),
                    crate::gods::mortal::is_acting_worker(*state, player, worker_start_pos as int),
                    forall|k: int|
                        0 <= k < ends@.len() ==> #[trigger] ends@[k] < 25 && is_standard_step(
                            state.board,
                            worker_start_pos as int,
                            ends@[k] as int,
                            must_climb,
                        ) && !is_win_step(false, state.board.height(worker_start_pos as int), state.board.height(ends@[k] as int)),
                    result@.len() >= start.len(),
                    forall|k: int| 0 <= k < start.len() ==> #[trigger] result@[k] == start[k],
                    forall|k: int|
                        start.len() <= k < result@.len() ==> #[trigger] is_tagged_turn(
                            *state,
                            player,
                            must_climb,
                            displacement,
                            result@[k].action.0,
                        ),
                    flags & NARROWING_FLAGS == 0 ==> flags & 1u32 == 0 && flags & 2u32 == 0 && flags & 8u32 == 0,
                    r1.len() <= result@.len(),
                    forall|k: int| 0 <= k < r1.len() ==> #[trigger] result@[k] == r1[k],
                    flags & NARROWING_FLAGS == 0 ==> forall|data: u32| #[trigger] tagged_turn_owed(*state, player, must_climb, displacement, pw0, data)
                        && field_at(data & !DISPLACEMENT_MASK, 0) == worker_start_pos && !is_winning_data(data & !DISPLACEMENT_MASK) && (exists|j: int|
                        0 <= j < ei && ends@[j] as u32 == field_at(data & !DISPLACEMENT_MASK, 5)) ==> lists_word(result@, data),
                decreases ends@.len() - ei,
            {
                let worker_end_pos = ends[ei];
                let worker_end_move_state = get_worker_end_move_state(&prelude, &worker_start_state, worker_end_pos);
                let is_key_squares_matched = displacement_matched_key_squares || worker_end_move_state.worker_end_mask.and(
                    prelude.key_squares,
                ).is_not_empty();
                let worker_next_build_state = get_worker_next_build_state_with_is_matched(
                    flags,
                    &prelude,
                    &worker_start_state,
                    &worker_end_move_state,
                    is_key_squares_matched,
                );
                let reach_board = get_standard_reach_board(
                    &prelude,
                    &worker_next_moves,
                    &worker_end_move_state,
                    worker_next_build_state.unblocked_squares,
                );
                let mut power_reach_board = reach_board;
                let mut free_corners_next_turn = BitBoard::empty();
                if power_available_next_turn {
                    let own_workers_after_move = worker_start_state.other_own_workers.or(worker_end_move_state.worker_end_mask);
                    let forcible_next_turn = prelude.oppo_workers.and(apply_neighbor_map_to_mask(own_workers_after_move)).minus(
                        prelude.domes_and_frozen,
                    );
                    free_corners_next_turn = corners.minus(own_workers_after_move.or(prelude.oppo_workers)).minus(
                        prelude.domes_and_frozen,
                    );
                    power_reach_board = get_standard_reach_board(
                        &prelude,
                        &worker_next_moves,
                        &worker_end_move_state,
                        worker_next_build_state.unblocked_squares.or(forcible_next_turn),
                    );
                }
                let builds = worker_next_build_state.narrowed_builds.squares();
                let ghost re = result@;
                let mut bi: usize = 0;
                while bi < builds.len()
                    invariant
                        bi <= builds@.len(),
                        re.len() <= result@.len(),
                        forall|k: int| 0 <= k < re.len() ==> #[trigger] result@[k] == re[k],
                        forall|j: int| 0 <= j < bi ==> #[trigger] lists_word(
                            result@,
                            (worker_start_pos as u32) | ((worker_end_pos as u32) << 5u32) | ((builds@[j] as u32) << 10u32) | displacement,
                        ),
                        displacement & !DISPLACEMENT_MASK == 0,
                        prelude.inv(),
                        prelude.board == state.board,
                        prelude.player == player,
                        prelude.other_god == state.gods[1 - player.idx()],
                        worker_start_pos < 25,
                        worker_end_pos < 25,
                        crate::gods::mortal::is_acting_worker(*state, player, worker_start_pos as int),
                        is_standard_step(state.board, worker_start_pos as int, worker_end_pos as int, must_climb),
                        !is_win_step(false, state.board.height(worker_start_pos as int), state.board.height(worker_end_pos as int)),
                        worker_next_build_state.describes(prelude, worker_start_pos as int, worker_end_pos as int),
                        worker_end_move_state.worker_end_pos == worker_end_pos,
                        forall|k: int|
                            0 <= k < builds@.len() ==> #[trigger] builds@[k] < 25 && worker_next_build_state.narrowed_builds.has(
                                builds@[k] as int,
                            ),
                        result@.len() >= start.len(),
                        forall|k: int| 0 <= k < start.len() ==> #[trigger] result@[k] == start[k],
                        forall|k: int|
                            start.len() <= k < result@.len() ==> #[trigger] is_tagged_turn(
                                *state,
                                player,
                                must_climb,
                                displacement,
                                result@[k].action.0,
                            ),
                    decreases builds@.len() - bi,
                {
                    let worker_build_pos = builds[bi];
                    let build_mask = BitBoard::as_mask(worker_build_pos);
                    let new_action = OdysseusMove::new_basic_move(worker_start_pos, worker_end_pos, worker_build_pos, displacement);
                    let final_level_3 = prelude.exactly_level_2.and(build_mask).or(prelude.exactly_level_3.minus(build_mask));
                    let corners_left = free_corners_next_turn.minus(build_mask.and(prelude.exactly_level_3));
                    let check_board = if corners_left.is_not_empty() {
                        power_reach_board
                    } else {
                        reach_board
                    };
                    let is_check = check_board.and(final_level_3).is_not_empty();
                    let ghost before = result@;
                    result.push(build_scored_move(flags, new_action.to_generic(), is_check, worker_end_move_state.is_improving));
                    proof {
                        lemma_odysseus_word(worker_start_pos as u32, worker_end_pos as u32, worker_build_pos as u32, displacement);
                        lemma_mortal_move_round_trip(worker_start_pos as u32, worker_end_pos as u32, worker_build_pos as u32);
                        assert(worker_next_build_state.narrowed_builds.has(worker_build_pos as int));
                        assert forall|k: int| start.len() <= k < result@.len() implies #[trigger] is_tagged_turn(
                            *state,
                            player,
                            must_climb,
                            displacement,
                            result@[k].action.0,
                        ) by {
                            if k < before.len() {
                                assert(result@[k] == before[k]);
                            }
                        }
                        lemma_lists_word_grows(before, result@);
                        assert forall|j: int| 0 <= j < bi + 1 implies #[trigger] lists_word(
                            result@,
                            (worker_start_pos as u32) | ((worker_end_pos as u32) << 5u32) | ((builds@[j] as u32) << 10u32) | displacement,
                        ) by {
                            if j == bi {
                                assert(result@[before.len() as int].action.0 == (worker_start_pos as u32) | ((worker_end_pos as u32) << 5u32)
                                    | ((builds@[j] as u32) << 10u32) | displacement);
                            } else {
                                assert(lists_word(
                                    before,
                                    (worker_start_pos as u32) | ((worker_end_pos as u32) << 5u32) | ((builds@[j] as u32) << 10u32) | displacement,
                                ));
                            }
                        }
                    }
                    bi = bi + 1;
                }
                proof {
                    lemma_lists_word_grows(re, result@);
                    if flags & NARROWING_FLAGS == 0 {
                        assert forall|data: u32| #[trigger] tagged_turn_owed(*state, player, must_climb, displacement, pw0, data)
                            && field_at(data & !DISPLACEMENT_MASK, 0) == worker_start_pos && !is_winning_data(data & !DISPLACEMENT_MASK) && (exists|j: int|
                            0 <= j < ei + 1 && ends@[j] as u32 == field_at(data & !DISPLACEMENT_MASK, 5)) implies lists_word(result@, data) by {
                            let plain = data & !DISPLACEMENT_MASK;
                            let j = choose|j: int| 0 <= j < ei + 1 && ends@[j] as u32 == field_at(plain, 5);
                            if j == ei {
                                let b = field_at(plain, 10);
                                assert(worker_next_build_state.all_possible_builds.has(b as int));
                                assert(builds@.contains(b as u8));
                                let jb = choose|jb: int| 0 <= jb < builds@.len() && builds@[jb] == b as u8;
                                lemma_tag_split(data, plain, displacement);
                                assert(data == (worker_start_pos as u32) | ((worker_end_pos as u32) << 5u32) | ((builds@[jb] as u32) << 10u32)
                                    | displacement);
                                assert(lists_word(
                                    result@,
                                    (worker_start_pos as u32) | ((worker_end_pos as u32) << 5u32) | ((builds@[jb] as u32) << 10u32) | displacement,
                                ));
                            } else {
                                assert(lists_word(re, data));
                            }
                        }
                    }
                }
                ei = ei + 1;
            }
            proof {
                lemma_lists_word_grows(r1, result@);
                if flags & NARROWING_FLAGS == 0 {
                    assert forall|data: u32| #[trigger] tagged_turn_owed(*state, player, must_climb, displacement, pw0, data) && (exists|j: int|
                        0 <= j < wi + 1 && workers@[j] as u32 == field_at(data & !DISPLACEMENT_MASK, 0)) implies lists_word(result@, data) by {
                        let plain = data & !DISPLACEMENT_MASK;
                        let j = choose|j: int| 0 <= j < wi + 1 && workers@[j] as u32 == field_at(plain, 0);
                        if j == wi {
                            if is_winning_data(plain) {
                                assert(lists_word(r1, data));
                            } else {
                                let to = field_at(plain, 5);
                                assert(ends@.contains(to as u8));
                                let je = choose|je: int| 0 <= je < ends@.len() && ends@[je] == to as u8;
                                assert(ends@[je] as u32 == field_at(plain, 5));
                            }
                        } else {
                            assert(lists_word(before, data));
                        }
                    }
                }
            }
        }
        wi = wi + 1;
    }
    proof {
        if flags & NARROWING_FLAGS == 0 {
            assert forall|data: u32| #[trigger] tagged_turn_owed(*state, player, must_climb, displacement, pw0, data) implies lists_word(
                result@,
                data,
            ) by {
                let f = field_at(data & !DISPLACEMENT_MASK, 0);
                lemma_acting_in_prelude(*state, player, prelude.own_workers, initial_acting, f as int);
                assert(workers@.contains(f as u8));
                let j = choose|j: int| 0 <= j < workers@.len() && workers@[j] == f as u8;
                assert(workers@[j] as u32 == field_at(data & !DISPLACEMENT_MASK, 0));
            }
            if displacement == 0 {
                assert forall|s: int, t: int| 0 <= s < 25 && 0 <= t < 25 implies (#[trigger] powerless_wins@[s].has(t) == (pw0[s].has(t)
                    || is_standard_turn(*state, player, must_climb, false, mortal_winning_data(s as u32, t as u32)))) by {
                    if is_standard_turn(*state, player, must_climb, false, mortal_winning_data(s as u32, t as u32)) {
                        lemma_mortal_move_round_trip(s as u32, t as u32, 0);
                        lemma_acting_in_prelude(*state, player, prelude.own_workers, initial_acting, s);
                        assert(workers@.contains(s as u8));
                        let j = choose|j: int| 0 <= j < workers@.len() && workers@[j] == s as u8;
                        assert(workers@[j] == s);
                    }
                }
            }
        }
    }
    false
}

/// A word with an empty power field is its own plain part.
proof fn lemma_no_power_field(x: u32)
    by (bit_vector)
    requires
        x & 0x07FF_8000u32 == 0,
    ensures
        x & !0x07FF_8000u32 == x,
{
}

/// The turns without the power that the generator owes with no narrowing filter on: every plain
/// turn; against Persephone, when a climb exists, only the climbing ones.
pub open spec fn odysseus_plain_turn_owed(state: FullGameState, player: Player, must_climb: bool, data: u32) -> bool {
    &&& data & DISPLACEMENT_MASK == 0
    &&& is_odysseus_turn(state, player, must_climb, data)
    &&& (state.gods[1 - player.idx()].is_persephone_spec() && !must_climb && exists|d: u32| #[trigger] is_odysseus_turn(state, player, true, d))
        ==> is_odysseus_turn(state, player, true, data)
}

/// The turns with the power that the generator owes with no narrowing filter on: each legal use of
/// the power, the forced workers named in rising order as the slots go, followed by every plain
/// turn on the board it leaves, except a win the player has without the power; against
/// Persephone, when a climb exists, only the climbing ones.
pub open spec fn odysseus_power_turn_owed(state: FullGameState, player: Player, must_climb: bool, data: u32) -> bool {
    let plain = data & !DISPLACEMENT_MASK;
    &&& data & DISPLACEMENT_MASK != 0
    &&& is_odysseus_turn(state, player, must_climb, data)
    &&& is_kind_ordered(data & DISPLACEMENT_MASK, 0u32)
    &&& is_winning_data(plain) ==> !is_standard_turn(state, player, must_climb, false, plain)
    &&& (state.gods[1 - player.idx()].is_persephone_spec() && !must_climb && exists|d: u32| #[trigger] is_odysseus_turn(state, player, true, d))
        ==> is_odysseus_turn(state, player, true, data)
}

/// A non-empty power field names a worker in some slot.
proof fn lemma_power_has_slot(data: u32)
    requires
        data & DISPLACEMENT_MASK != 0,
    ensures
        exists|s: int| 0 <= s < 4 && #[trigger] slot_value(data, s) != 0,
{
    let d = data & DISPLACEMENT_MASK;
    lemma_strip_keeps_fields(data);
    lemma_slots_in_field(data, d, 0);
    lemma_slots_in_field(data, d, 1);
    lemma_slots_in_field(data, d, 2);
    lemma_slots_in_field(data, d, 3);
    crate::bitboard::lemma_zero_and(0x07FF_8000u32);
    lemma_slots_in_field(0u32, 0u32, 0);
    lemma_slots_in_field(0u32, 0u32, 1);
    lemma_slots_in_field(0u32, 0u32, 2);
    lemma_slots_in_field(0u32, 0u32, 3);
    if forall|s: int| 0 <= s < 4 ==> #[trigger] slot_value(data, s) == 0 {
        assert(slot_value(data, 0) == 0);
        assert(slot_value(data, 1) == 0);
        assert(slot_value(data, 2) == 0);
        assert(slot_value(data, 3) == 0);
        assert(slot_value(d, 0) == (d >> 15u32) & 7u32);
        assert(slot_value(d, 1) == (d >> 18u32) & 7u32);
        assert(slot_value(d, 2) == (d >> 21u32) & 7u32);
        assert(slot_value(d, 3) == (d >> 24u32) & 7u32);
        assert(slot_value(0u32, 0) == (0u32 >> 15u32) & 7u32);
        assert(slot_value(0u32, 1) == (0u32 >> 18u32) & 7u32);
        assert(slot_value(0u32, 2) == (0u32 >> 21u32) & 7u32);
        assert(slot_value(0u32, 3) == (0u32 >> 24u32) & 7u32);
        crate::bitboard::lemma_zero_and(!0x07FF_8000u32);
        lemma_slots_determine(d, 0u32);
    }
}

/// The power field of a turn with the power is one the displacements of `collect_displacements`
/// cover, given the forcible workers and free corners of its board.
proof fn lemma_power_is_canonical(
    state: FullGameState,
    player: Player,
    must_climb: bool,
    data: u32,
    free_corners: BitBoard,
    num_addressable: nat,
    forcible_mask: u32,
)
    requires
        data & DISPLACEMENT_MASK != 0,
        is_odysseus_turn(state, player, must_climb, data),
        num_addressable == addressable(state.board, player).len(),
        forall|i: int| #[trigger] free_corners.has(i) == is_free_corner(state.board, i),
        forall|j: u32| j < num_addressable ==> (#[trigger] bit(forcible_mask, j) == is_forcible(
            state.board,
            player,
            addressable(state.board, player)[j as int] as int,
        )),
    ensures
        is_canonical_displacement(data & DISPLACEMENT_MASK, free_corners, num_addressable, forcible_mask),
        forall|s: int| 0 <= s < 4 ==> #[trigger] slot_value(data & DISPLACEMENT_MASK, s) == slot_value(data, s),
{
    let d = data & DISPLACEMENT_MASK;
    lemma_strip_keeps_fields(data);
    assert forall|s: int| 0 <= s < 4 implies #[trigger] slot_value(d, s) == slot_value(data, s) by {
        lemma_slots_in_field(data, d, s as u32);
    }
    assert forall|s: int| 0 <= s < 4 && #[trigger] slot_value(d, s) != 0 implies free_corners.has(corner_of(s)) && slot_value(d, s) - 1
        < num_addressable && bit(forcible_mask, (slot_value(d, s) - 1) as u32) by {
        assert(slot_value(data, s) != 0);
    }
    assert forall|s: int, t: int| 0 <= s < t < 4 && slot_value(d, s) != 0 implies #[trigger] slot_value(d, s) != #[trigger] slot_value(
        d,
        t,
    ) by {
        assert(slot_value(data, s) != slot_value(data, t));
    }
}

/// Persephone's rule on a list of Odysseus turns: when a climbing turn without the power is owed,
/// every listed turn climbs.
pub open spec fn keeps_persephone_rule(state: FullGameState, player: Player, r: Seq<ScoredMove>) -> bool {
    (exists|d: u32| #[trigger] odysseus_plain_turn_owed(state, player, true, d)) ==> forall|k: int|
        0 <= k < r.len() ==> #[trigger] is_odysseus_turn(state, player, true, r[k].action.0)
}

/// Odysseus' move generator; `must_climb` asks for climbing moves only, which is how Persephone's
/// restriction is applied.
pub fn odysseus_move_gen(
    flags: MoveGenFlags,
    state: &FullGameState,
    player: Player,
    key_squares: BitBoard,
    must_climb: bool,
) -> (result: Vec<ScoredMove>)
    requires
        state.board.wf(),
    ensures
        forall|k: int| 0 <= k < result@.len() ==> #[trigger] is_odysseus_turn(*state, player, must_climb, result@[k].action.0),
        flags & NARROWING_FLAGS == 0 ==> forall|data: u32| #[trigger] odysseus_plain_turn_owed(*state, player, must_climb, data)
            ==> lists_word(result@, data),
        flags & NARROWING_FLAGS == 0 ==> forall|data: u32| #[trigger] odysseus_power_turn_owed(*state, player, must_climb, data)
            ==> lists_word(result@, data),
        flags & NARROWING_FLAGS == 0 && state.gods[1 - player.idx()].is_persephone_spec() && !must_climb ==> keeps_persephone_rule(
            *state,
            player,
            result@,
        ),
    decreases if must_climb {
        0int
    } else {
        1int
    },
{
    broadcast use group_bit_lemmas;

    proof {
        crate::generic::lemma_no_flags(flags);
    }
    let mut result = if state.gods[player.other().index()].is_persephone() && !must_climb {
        let climbing = odysseus_move_gen(flags, state, player, key_squares, true);
        proof {
            assert forall|k: int| 0 <= k < climbing@.len() implies #[trigger] is_odysseus_turn(
                *state,
                player,
                must_climb,
                climbing@[k].action.0,
            ) by {
                let d = climbing@[k].action.0;
                assert(is_odysseus_turn(*state, player, true, d));
                lemma_climbing_turn_is_turn(*state, player, false, d);
                lemma_climbing_turn_is_turn(displaced_state(*state, player, d), player, false, d & !DISPLACEMENT_MASK);
            }
        }
        if climbing.len() > 0 {
            proof {
                if flags & NARROWING_FLAGS == 0 {
                    assert(is_odysseus_turn(*state, player, true, climbing@[0].action.0));
                    assert forall|data: u32| #[trigger] odysseus_plain_turn_owed(*state, player, must_climb, data) implies lists_word(
                        climbing@,
                        data,
                    ) by {
                        assert(odysseus_plain_turn_owed(*state, player, true, data));
                    }
                    assert forall|data: u32| #[trigger] odysseus_power_turn_owed(*state, player, must_climb, data) implies lists_word(
                        climbing@,
                        data,
                    ) by {
                        lemma_climbing_turn_is_turn(*state, player, false, data & !DISPLACEMENT_MASK);
                        assert(odysseus_power_turn_owed(*state, player, true, data));
                    }
                }
            }
            return climbing;
        }
        proof {
            if flags & NARROWING_FLAGS == 0 {
                assert forall|d: u32| !#[trigger] odysseus_plain_turn_owed(*state, player, true, d) by {
                    if odysseus_plain_turn_owed(*state, player, true, d) {
                        assert(lists_word(climbing@, d));
                    }
                }
            }
        }
        if flags & ANY_MOVE_FILTER > 0 {
            let unrestricted = odysseus_move_gen(0, state, player, key_squares, true);
            if unrestricted.len() > 0 {
                return climbing;
            }
        }
        climbing
    } else {
        get_sized_result(flags)
    };
    assert(flags & NARROWING_FLAGS == 0 && state.gods[1 - player.idx()].is_persephone_spec() && !must_climb ==> forall|d: u32|
        !#[trigger] odysseus_plain_turn_owed(*state, player, true, d));

    let mut powerless_wins: Vec<BitBoard> = Vec::new();
    while powerless_wins.len() < 25
        invariant
            powerless_wins@.len() <= 25,
            forall|k: int, t: int| 0 <= k < powerless_wins@.len() ==> !(#[trigger] powerless_wins@[k].has(t)),
        decreases 25 - powerless_wins@.len(),
    {
        powerless_wins.push(BitBoard::empty());
    }
    let ghost before = result@;
    let ghost pw_start = powerless_wins@;
    proof {
        assert(0u32 & !DISPLACEMENT_MASK == 0);
    }
    let stop = generate_from_state(flags, state, player, key_squares, 0, false, &mut powerless_wins, &mut result, must_climb);
    proof {
        assert forall|k: int| 0 <= k < result@.len() implies #[trigger] is_odysseus_turn(
            *state,
            player,
            must_climb,
            result@[k].action.0,
        ) by {
            if k >= before.len() {
                assert(is_tagged_turn(*state, player, must_climb, 0, result@[k].action.0));
                lemma_strip_keeps_fields(result@[k].action.0);
            } else {
                assert(result@[k] == before[k]);
            }
        }
    }
    proof {
        if flags & NARROWING_FLAGS == 0 {
            assert forall|data: u32| #[trigger] odysseus_plain_turn_owed(*state, player, must_climb, data) implies lists_word(result@, data) by {
                if !must_climb && state.gods[1 - player.idx()].is_persephone_spec() && exists|d: u32|
                    #[trigger] is_odysseus_turn(*state, player, true, d) {
                    assert(odysseus_plain_turn_owed(*state, player, true, data));
                }
                lemma_no_power_field(data);
                assert(tagged_turn_owed(*state, player, must_climb, 0, pw_start, data));
            }
        }
    }
    let ghost r_plain = result@;
    proof {
        if flags & NARROWING_FLAGS == 0 {
            assert forall|s: int, t: int| 0 <= s < 25 && 0 <= t < 25 implies (#[trigger] powerless_wins@[s].has(t) == is_standard_turn(
                *state,
                player,
                must_climb,
                false,
                mortal_winning_data(s as u32, t as u32),
            )) by {
                assert(!pw_start[s].has(t));
            }
        }
    }
    if stop {
        return result;
    }
    if state.board.god_data[player.index()] != 0 {
        proof {
            assert forall|data: u32| !#[trigger] odysseus_power_turn_owed(*state, player, must_climb, data) by {}
        }
        return result;
    }
    let other_god = state.gods[player.other().index()];
    let forcible = get_forcible_workers(&state.board, player, other_god);
    let free_corners = get_free_corners(&state.board, player, other_god);
    if forcible.is_empty() || free_corners.is_empty() {
        proof {
            assert forall|data: u32| !#[trigger] odysseus_power_turn_owed(*state, player, must_climb, data) by {
                if odysseus_power_turn_owed(*state, player, must_climb, data) {
                    lemma_power_has_slot(data);
                    let sl = choose|sl: int| 0 <= sl < 4 && #[trigger] slot_value(data, sl) != 0;
                    let addr = addressable(state.board, player);
                    assert(forcible.has(addr[slot_value(data, sl) - 1] as int));
                    assert(free_corners.has(corner_of(sl)));
                }
            }
        }
        return result;
    }
    let addressable_workers = get_addressable_workers(&state.board, player);
    proof {
        lemma_addressable(state.board, player);
    }
    let num_addressable = addressable_workers.len();
    let female_workers = other_god.get_female_worker_mask(&state.board, player.other());
    let mut forcible_mask: u32 = 0;
    let mut female_worker_mask: u32 = 0;
    let mut idx: usize = 0;
    while idx < num_addressable
        invariant
            idx <= num_addressable,
            num_addressable == addressable_workers@.len(),
            num_addressable <= 7,
            forall|k: int| 0 <= k < addressable_workers@.len() ==> #[trigger] addressable_workers@[k] < 25,
            forall|j: u32| j < 32 && #[trigger] bit(forcible_mask, j) ==> j < idx && forcible.has(addressable_workers@[j as int] as int),
            forall|j: u32| j < idx ==> (#[trigger] bit(forcible_mask, j) == forcible.has(addressable_workers@[j as int] as int)),
            female_worker_mask == 0,
            forall|i: int| !#[trigger] female_workers.has(i),
        decreases num_addressable - idx,
    {
        let sq = addressable_workers[idx];
        let ib: u32 = idx as u32;
        if forcible.contains_square(sq) {
            let prev = forcible_mask;
            forcible_mask = forcible_mask | (1u32 << ib);
            proof {
                assert forall|j: u32| j < 32 && #[trigger] bit(forcible_mask, j) implies j < idx + 1 && forcible.has(
                    addressable_workers@[j as int] as int,
                ) by {
                    crate::bitboard::lemma_bit_or(prev, 1u32 << ib, j);
                    crate::bitboard::lemma_bit_single(ib, j);
                }
                assert forall|j: u32| j < idx + 1 implies (#[trigger] bit(forcible_mask, j) == forcible.has(
                    addressable_workers@[j as int] as int,
                )) by {
                    crate::bitboard::lemma_bit_or(prev, 1u32 << ib, j);
                    crate::bitboard::lemma_bit_single(ib, j);
                }
            }
        } else {
            proof {
                assert forall|j: u32| j < idx + 1 implies (#[trigger] bit(forcible_mask, j) == forcible.has(
                    addressable_workers@[j as int] as int,
                )) by {
                    if j == idx {
                        if bit(forcible_mask, j) {
                            assert(j < idx);
                        }
                    }
                }
            }
        }
        if female_workers.contains_square(sq) {
            female_worker_mask = female_worker_mask | (1u32 << ib);
        }
        idx = idx + 1;
    }
    let displacements = collect_displacements(free_corners, num_addressable, forcible_mask, female_worker_mask);
    let mut di: usize = 0;
    while di < displacements.len()
        invariant
            di <= displacements@.len(),
            state.board.wf(),
            state.board.god_data[player.idx()] == 0,
            powerless_wins@.len() == 25,
            addressable_workers@ == addressable(state.board, player),
            num_addressable == addressable_workers@.len(),
            forall|i: int| #[trigger] forcible.has(i) == is_forcible(state.board, player, i),
            forall|i: int| #[trigger] free_corners.has(i) == is_free_corner(state.board, i),
            forall|j: u32| j < 32 && #[trigger] bit(forcible_mask, j) ==> j < num_addressable && forcible.has(addressable_workers@[j as int] as int),
            forall|k: int|
                0 <= k < displacements@.len() ==> #[trigger] is_canonical_displacement(
                    displacements@[k],
                    free_corners,
                    num_addressable as nat,
                    forcible_mask,
                ),
            forall|k: int| 0 <= k < result@.len() ==> #[trigger] is_odysseus_turn(*state, player, must_climb, result@[k].action.0),
            r_plain.len() <= result@.len(),
            forall|k: int| 0 <= k < r_plain.len() ==> #[trigger] result@[k] == r_plain[k],
            flags & NARROWING_FLAGS == 0 ==> flags & 1u32 == 0 && flags & 2u32 == 0 && flags & 8u32 == 0,
            flags & NARROWING_FLAGS == 0 ==> forall|s: int, t: int|
                0 <= s < 25 && 0 <= t < 25 ==> (#[trigger] powerless_wins@[s].has(t) == is_standard_turn(
                    *state,
                    player,
                    must_climb,
                    false,
                    mortal_winning_data(s as u32, t as u32),
                )),
            flags & NARROWING_FLAGS == 0 ==> forall|data: u32| #[trigger] odysseus_power_turn_owed(*state, player, must_climb, data)
                && (exists|j: int| 0 <= j < di && displacements@[j] == data & DISPLACEMENT_MASK) ==> lists_word(result@, data),
        decreases displacements@.len() - di,
    {
        let displacement = displacements[di];
        proof {
            assert(is_canonical_displacement(displacement, free_corners, num_addressable as nat, forcible_mask));
            lemma_strip_keeps_fields(displacement);
            assert forall|s: int| 0 <= s < 4 && #[trigger] slot_value(displacement, s) != 0 implies slot_value(displacement, s) - 1
                < addressable(state.board, player).len() && is_forcible(
                state.board,
                player,
                addressable(state.board, player)[slot_value(displacement, s) - 1] as int,
            ) && is_free_corner(state.board, corner_of(s)) by {
                let j = (slot_value(displacement, s) - 1) as u32;
                assert(bit(forcible_mask, j));
            }
            assert(is_legal_displacement(state.board, player, displacement));
            lemma_displacement_keeps_wf(state.board, player, displacement);
        }
        let action = OdysseusMove(displacement);
        let displacement_matched_key_squares = if is_interact_with_key_squares(flags) {
            let pairs = action.decode_displacements(&state.board, player);
            let mut touched = BitBoard::empty();
            let mut k: usize = 0;
            while k < pairs.len()
                invariant
                    k <= pairs@.len(),
                    forall|j: int| 0 <= j < pairs@.len() ==> (#[trigger] pairs@[j]).0 < 25 && pairs@[j].1 < 25,
                decreases pairs@.len() - k,
            {
                let from = pairs[k].0;
                let to = pairs[k].1;
                touched = touched.or(BitBoard::as_mask(from)).or(BitBoard::as_mask(to));
                k = k + 1;
            }
            touched.and(key_squares).is_not_empty()
        } else {
            false
        };
        let m = action.displacement_xor_mask(&state.board, player);
        let mut displaced_board_now = state.board;
        displaced_board_now.worker_xor(player.other(), BitBoard(m));
        let displaced = FullGameState { board: displaced_board_now, gods: state.gods };
        proof {
            assert(displaced.board.workers =~= displaced_board(state.board, player, displacement).workers);
            assert(displaced == displaced_state(*state, player, displacement));
        }
        let ghost before = result@;
        let ghost pw_now = powerless_wins@;
        let stop = generate_from_state(
            flags,
            &displaced,
            player,
            key_squares,
            displacement,
            displacement_matched_key_squares,
            &mut powerless_wins,
            &mut result,
            must_climb,
        );
        proof {
            assert forall|k: int| 0 <= k < result@.len() implies #[trigger] is_odysseus_turn(
                *state,
                player,
                must_climb,
                result@[k].action.0,
            ) by {
                if k >= before.len() {
                    let data = result@[k].action.0;
                    assert(is_tagged_turn(displaced, player, must_climb, displacement, data));
                    assert forall|s: int| 0 <= s < 4 implies #[trigger] slot_value(data, s) == slot_value(displacement, s) by {
                        lemma_slots_in_field(data, displacement, s as u32);
                    }
                    lemma_same_slots(state.board, player, data, displacement);
                } else {
                    assert(result@[k] == before[k]);
                }
            }
        }
        proof {
            lemma_lists_word_grows(before, result@);
            if flags & NARROWING_FLAGS == 0 {
                lemma_strip_keeps_fields(displacement);
                assert forall|data: u32| #[trigger] odysseus_power_turn_owed(*state, player, must_climb, data)
                    && (exists|j: int| 0 <= j < di + 1 && displacements@[j] == data & DISPLACEMENT_MASK) implies lists_word(result@, data) by {
                    let j = choose|j: int| 0 <= j < di + 1 && displacements@[j] == data & DISPLACEMENT_MASK;
                    if j < di {
                        assert(lists_word(before, data));
                    } else {
                        let plain = data & !DISPLACEMENT_MASK;
                        assert forall|sl: int| 0 <= sl < 4 implies #[trigger] slot_value(data, sl) == slot_value(displacement, sl) by {
                            lemma_slots_in_field(data, displacement, sl as u32);
                        }
                        lemma_same_slots(state.board, player, data, displacement);
                        assert(displaced_state(*state, player, data) == displaced);
                        if is_winning_data(plain) {
                            let f = field_at(plain, 0);
                            let t = field_at(plain, 5);
                            assert(displaced.board.workers[player.idx()].within_board());
                            assert(pw_now[f as int].has(t as int) == is_standard_turn(
                                *state,
                                player,
                                must_climb,
                                false,
                                mortal_winning_data(f, t),
                            ));
                        }
                        assert(tagged_turn_owed(displaced, player, must_climb, displacement, pw_now, data));
                    }
                }
            }
        }
        if stop {
            return result;
        }
        di = di + 1;
    }
    proof {
        lemma_lists_word_grows(r_plain, result@);
        if flags & NARROWING_FLAGS == 0 {
            assert forall|data: u32| #[trigger] odysseus_power_turn_owed(*state, player, must_climb, data) implies lists_word(result@, data) by {
                lemma_power_is_canonical(*state, player, must_climb, data, free_corners, num_addressable as nat, forcible_mask);
                assert(displacements@.contains(data & DISPLACEMENT_MASK));
                let j = choose|j: int| 0 <= j < displacements@.len() && displacements@[j] == data & DISPLACEMENT_MASK;
            }
        }
    }
    result
}

/// Odysseus's fixed data.
pub fn build_odysseus() -> (r: GodPower)
    ensures
        r.god_name == GodName::Odysseus,
        r.hash1 == 11398760139457466666u64,
        r.hash2 == 8756408457443776940u64,
        r.placement_type == PlacementType::Normal,
        r.symmetry == BoardSymmetry::Full,
        !r.is_persephone,
{
    god_power(GodName::Odysseus, 11398760139457466666, 8756408457443776940)
}

/// How a turn of this god changes the board: the workers, the heights, the god data and the
/// winner after it, and whose turn it is, are those of `after`.
pub open spec fn odysseus_move_effect(before: BoardState, after: BoardState, player: Player, data: u32) -> bool {
    &&& after.workers[1 - player.idx()] == pre_move_board(before, player, data).workers[1 - player.idx()]
    &&& after.workers[player.idx()].0 == before.workers[player.idx()].0 ^ ((1u32 << field_at(data, 0)) ^ (1u32 << field_at(data, 5)))
    &&& (data & DISPLACEMENT_MASK != 0 ==> after.god_data[player.idx()] == POWER_USED)
    &&& (data & DISPLACEMENT_MASK == 0 ==> after.god_data[player.idx()] == before.god_data[player.idx()])
    &&& after.god_data[1 - player.idx()] == before.god_data[1 - player.idx()]
    &&& after.current_player == before.current_player
    &&& (is_winning_data(data) ==> after.winner == Some(player) && after.height_map == before.height_map)
    &&& (!is_winning_data(data) ==> after.winner == before.winner)
    &&& (!is_winning_data(data) ==> after.height(field_at(data, 10) as int) == before.height( field_at(data, 10) as int, ) + 1)
    &&& (!is_winning_data(data) ==> forall|i: int| i != field_at(data, 10) ==> #[trigger] after.height(i) == before.height(i))
}

} // verus!
