use vstd::prelude::*;

use crate::bitboard::{apply_neighbor_map_to_mask, group_bit_lemmas, neighbor_mask, BitBoard};
use crate::board::{BoardState, FullGameState, Player};
use crate::generic::{
    build_scored_move, field_at, NARROWING_FLAGS, is_interact_with_key_squares, is_mate_only, is_winning_data, lemma_pack4,
    read_position, GenericMove, MoveData, MoveGenFlags, ScoredMove, MOVE_DATA_MAIN_SECTION, MOVE_IS_WINNING_MASK,
};
use crate::gods::mortal::{
    is_acting_worker, is_standard_build_for, lemma_acting_in_prelude, lemma_lists_word_grows, lists_word, lemma_move_worker_keeps_wf, lemma_mortal_move_round_trip,
    lemma_toggle_keeps_wf, mortal_winning_data,
};
use crate::gods::move_helpers::{
    get_generator_prelude_state, get_standard_reach_board, get_worker_end_move_state, get_worker_next_move_state,
    get_worker_start_move_state, is_standard_build, is_standard_step, is_winning_entry, lemma_layer_is_height,
    modify_prelude_for_checking_workers, push_winning_moves, GeneratorPreludeState,
};
use crate::gods::{BoardSymmetry, PlacementType, god_power, GodName, GodPower};
use crate::square::{is_adjacent, is_square, Square};

verus! {

/// A Medusa turn: a plain move and build, flagged when it ends by turning workers to stone.
#[derive(Clone, Copy, PartialEq, Eq, Structural, Debug)]
pub struct MedusaMove(pub MoveData);

impl MedusaMove {
    pub fn new_basic_move(move_from_position: Square, move_to_position: Square, build_position: Square, is_stone: bool) -> (r: Self)
        requires
            move_from_position < 25,
            move_to_position < 25,
            build_position < 25,
        ensures
            r.0 == (move_from_position as u32) | ((move_to_position as u32) << 5u32) | ((build_position as u32) << 10u32) | ((if is_stone { 1u32 } else { 0u32 }) << 15u32),
    {
        Self((move_from_position as u32) | ((move_to_position as u32) << 5u32) | ((build_position as u32) << 10u32) | ((if is_stone { 1u32 } else { 0u32 }) << 15u32))
    }

    pub fn new_winning_move(move_from_position: Square, move_to_position: Square) -> (r: Self)
        requires
            move_from_position < 25,
            move_to_position < 25,
        ensures
            r.0 == (move_from_position as u32) | ((move_to_position as u32) << 5u32) | MOVE_IS_WINNING_MASK,
    {
        Self((move_from_position as u32) | ((move_to_position as u32) << 5u32) | MOVE_IS_WINNING_MASK)
    }

    pub fn move_from_position(&self) -> (r: Square)
        ensures
            r == field_at(self.0, 0),
            r < 32,
    {
        read_position(self.0, 0)
    }

    pub fn move_to_position(&self) -> (r: Square)
        ensures
            r == field_at(self.0, 5),
            r < 32,
    {
        read_position(self.0, 5)
    }

    pub fn build_position(self) -> (r: Square)
        ensures
            r == field_at(self.0, 10),
            r < 32,
    {
        read_position(self.0, 10)
    }

    /// The start and end squares of the moving worker.
    pub fn move_mask(self) -> (r: BitBoard)
        ensures
            r.0 == (1u32 << field_at(self.0, 0)) ^ (1u32 << field_at(self.0, 5)),
    {
        BitBoard::as_mask(self.move_from_position()).xor(BitBoard::as_mask(self.move_to_position()))
    }

    /// Whether the turn ends by turning opponent workers to stone.
    pub fn is_stone_end_of_turn(self) -> (r: bool)
        ensures
            r == (self.0 & 0x8000u32 != 0),
    {
        (self.0 & 0x8000u32) != 0
    }

    pub fn get_is_winning(&self) -> (r: bool)
        ensures
            r == is_winning_data(self.0),
    {
        (self.0 & MOVE_IS_WINNING_MASK) != 0
    }
}

/// A Medusa move reads back what it was built from, and stays clear of the flags.
pub proof fn lemma_medusa_move_round_trip(move_from: u32, move_to: u32, build: u32, stone: u32)
    requires
        move_from < 25,
        move_to < 25,
        build < 25,
        stone <= 1,
    ensures
        field_at(move_from | (move_to << 5u32) | (build << 10u32) | (stone << 15u32), 0) == move_from,
        field_at(move_from | (move_to << 5u32) | (build << 10u32) | (stone << 15u32), 5) == move_to,
        field_at(move_from | (move_to << 5u32) | (build << 10u32) | (stone << 15u32), 10) == build,
        field_at(move_from | (move_to << 5u32) | (build << 10u32) | (stone << 15u32), 15) == stone,
        !is_winning_data(move_from | (move_to << 5u32) | (build << 10u32) | (stone << 15u32)),
        (move_from | (move_to << 5u32) | (build << 10u32) | (stone << 15u32)) & MOVE_DATA_MAIN_SECTION == move_from | (move_to << 5u32) | (build << 10u32) | (stone << 15u32),
{
    lemma_pack4(move_from, move_to, build, stone);
}

/// The word of a Medusa turn that does not win.
pub open spec fn medusa_data(from: u32, to: u32, build: u32, stone: bool) -> u32 {
    from | (to << 5u32) | (build << 10u32) | ((if stone { 1u32 } else { 0u32 }) << 15u32)
}

/// The height of a square once `build` has gone up a level.
pub open spec fn built_height(board: BoardState, build: int, i: int) -> nat {
    board.height(i) + if i == build {
        1nat
    } else {
        0nat
    }
}

/// Whether the opposing worker on `o` is turned to stone once the player's worker moved from `from`
/// to `to` and built on `build`: some worker of the player then stands next to it on a higher
/// level.
pub open spec fn medusa_stone(board: BoardState, player: Player, from: int, to: int, build: int, o: int) -> bool {
    let p = player.idx();
    &&& board.workers[1 - p].has(o)
    &&& exists|w: int|
        #[trigger] is_adjacent(w, o) && (w == to || (board.workers[p].has(w) && w != from)) && built_height(board, build, o)
            < built_height(board, build, w)
}

/// Whether the opposing worker on `o` is turned to stone at the end of the turn encoded in `data`.
pub open spec fn is_stoned_after(board: BoardState, player: Player, data: u32, o: int) -> bool {
    medusa_stone(board, player, field_at(data, 0) as int, field_at(data, 5) as int, field_at(data, 10) as int, o)
}

/// A legal Medusa turn, read off its word: a plain winning move, or a plain move and build whose
/// stone flag says whether some opposing worker is turned to stone.
pub open spec fn is_medusa_turn(state: FullGameState, player: Player, must_climb: bool, data: u32) -> bool {
    let board = state.board;
    let from = field_at(data, 0);
    let to = field_at(data, 5);
    let build = field_at(data, 10);
    &&& is_acting_worker(state, player, from as int)
    &&& is_standard_step(board, from as int, to as int, must_climb)
    &&& if is_winning_data(data) {
        &&& data == mortal_winning_data(from, to)
        &&& board.height(from as int) == 2
        &&& board.height(to as int) == 3
    } else {
        &&& !(board.height(from as int) == 2 && board.height(to as int) == 3)
        &&& is_standard_build_for(state, player, from as int, to as int, build as int)
        &&& data == medusa_data(
            from,
            to,
            build,
            exists|o: int| #[trigger] medusa_stone(board, player, from as int, to as int, build as int, o),
        )
    }
}

impl MedusaMove {
    pub fn get_blocker_board(self) -> (r: BitBoard)
        requires
            field_at(self.0, 0) < 25,
            field_at(self.0, 5) < 25,
        ensures
            r.0 == (1u32 << field_at(self.0, 0)) | (1u32 << field_at(self.0, 5)),
    {
        BitBoard::as_mask(self.move_from_position()).or(BitBoard::as_mask(self.move_to_position()))
    }

    pub fn to_generic(self) -> (r: GenericMove)
        ensures
            r.0 == self.0,
    {
        GenericMove(self.0)
    }

    pub fn from_generic(action: GenericMove) -> (r: Self)
        ensures
            r.0 == action.0,
    {
        MedusaMove(action.0)
    }

    /// Plays the turn: the worker moves, and either wins or builds; a turn flagged for stone then
    /// removes every opposing worker that stands next to a higher worker of the player, building
    /// a level where each stood.
    pub fn make_move(self, board: &mut BoardState, player: Player)
        requires
            field_at(self.0, 0) < 25,
            field_at(self.0, 5) < 25,
            field_at(self.0, 10) < 25,
            !is_winning_data(self.0) ==> old(board).height(field_at(self.0, 10) as int) < 4,
            old(board).wf(),
        ensures
            final(board).workers[player.idx()].0 == old(board).workers[player.idx()].0 ^ ((1u32 << field_at(self.0, 0))
                ^ (1u32 << field_at(self.0, 5))),
            final(board).god_data == old(board).god_data,
            final(board).current_player == old(board).current_player,
            is_winning_data(self.0) ==> final(board).winner == Some(player) && final(board).height_map == old(
                board,
            ).height_map && final(board).workers[1 - player.idx()] == old(board).workers[1 - player.idx()],
            !is_winning_data(self.0) ==> final(board).winner == old(board).winner,
            !is_winning_data(self.0) && self.0 & 0x8000u32 == 0 ==> final(board).workers[1 - player.idx()] == old(
                board,
            ).workers[1 - player.idx()] && forall|i: int| #[trigger] final(board).height(i) == built_height(
                *old(board),
                field_at(self.0, 10) as int,
                i,
            ),
            !is_winning_data(self.0) && self.0 & 0x8000u32 != 0 && old(board).workers[player.idx()].has(
                field_at(self.0, 0) as int,
            ) && !old(board).occupied(field_at(self.0, 5) as int) ==> {
                &&& forall|i: int| #[trigger] final(board).workers[1 - player.idx()].has(i) == (old(board).workers[1
                    - player.idx()].has(i) && !is_stoned_after(*old(board), player, self.0, i))
                &&& forall|i: int| #[trigger] final(board).height(i) == built_height(*old(board), field_at(self.0, 10) as int, i)
                    + if is_stoned_after(*old(board), player, self.0, i) {
                    1nat
                } else {
                    0nat
                }
            },
            old(board).wf() && old(board).workers[player.idx()].has(field_at(self.0, 0) as int) && !old(board).occupied(
                field_at(self.0, 5) as int,
            ) ==> final(board).wf(),
    {
        broadcast use group_bit_lemmas;

        let ghost before = *board;
        let p = player.index();
        let other = player.other();
        board.worker_xor(player, self.move_mask());
        proof {
            lemma_move_worker_keeps_wf(before, *board, player, field_at(self.0, 0), field_at(self.0, 5));
        }
        if self.get_is_winning() {
            board.set_winner(player);
            return;
        }
        let build = self.build_position();
        board.build_up(build);
        if !self.is_stone_end_of_turn() {
            return;
        }
        let ghost mid = *board;
        let ghost fits = before.workers[player.idx()].has(field_at(self.0, 0) as int) && !before.occupied(
            field_at(self.0, 5) as int,
        );
        proof {
            let from = field_at(self.0, 0) as int;
            let to = field_at(self.0, 5) as int;
            assert(before.workers[player.idx()].within_board());
            assert forall|i: int| #[trigger] mid.workers[player.idx()].has(i) implies is_square(i) by {
                assert(before.workers[player.idx()].has(i) || i == from || i == to);
            }
        }
        let stones = stone_squares(board, player);
        proof {
            if fits {
                assert forall|o: int| #[trigger] stones.has(o) == is_stoned_after(before, player, self.0, o) by {
                    let from = field_at(self.0, 0) as int;
                    let to = field_at(self.0, 5) as int;
                    assert forall|w: int| #[trigger] mid.workers[player.idx()].has(w) == (w == to || (before.workers[player.idx()].has(w)
                        && w != from)) by {
                    }
                    assert forall|i: int| #[trigger] mid.height(i) == built_height(before, build as int, i) by {
                    }
                    if stones.has(o) {
                        let w = choose|w: int| #[trigger] mid.workers[player.idx()].has(w) && is_adjacent(w, o) && mid.height(o) < mid.height(w);
                        assert(is_adjacent(w, o) && (w == to || (before.workers[player.idx()].has(w) && w != from)));
                    }
                    if is_stoned_after(before, player, self.0, o) {
                        let w = choose|w: int| #[trigger] is_adjacent(w, o) && (w == to || (before.workers[player.idx()].has(w) && w != from))
                            && built_height(before, build as int, o) < built_height(before, build as int, w);
                        assert(mid.workers[player.idx()].has(w));
                    }
                }
            }
        }
        board.worker_xor(other, stones);
        proof {
            assert(other.idx() == 1 - player.idx());
            assert(mid.workers[0].within_board() || !mid.wf());
            assert(BitBoard(stones.0) == stones);
            if mid.wf() {
                assert forall|i: int| #[trigger] BitBoard(stones.0).has(i) implies is_square(i) && !mid.workers[1 - (1 - player.idx())].has(i) by {
                    assert(mid.workers[1 - player.idx()].has(i));
                    assert(mid.workers[1 - player.idx()].within_board());
                    assert(!(mid.workers[0].has(i) && mid.workers[1].has(i)));
                }
                lemma_toggle_keeps_wf(mid, *board, 1 - player.idx(), stones.0);
            }
            assert forall|i: int| #[trigger] board.workers[1 - player.idx()].has(i) == (mid.workers[1 - player.idx()].has(i)
                && !stones.has(i)) by {
                if 0 <= i < 32 {
                    crate::bitboard::lemma_bit_xor(mid.workers[1 - player.idx()].0, stones.0, i as u32);
                }
                if stones.has(i) {
                    assert(mid.workers[1 - player.idx()].has(i));
                }
            }
        }
        let list = stones.squares();
        proof {
            crate::bitboard::lemma_squares_below(stones.0, 25);
        }
        let ghost killed = *board;
        let mut k: usize = 0;
        while k < list.len()
            invariant
                k <= list@.len(),
                forall|j: int| 0 <= j < list@.len() ==> #[trigger] list@[j] < 25 && stones.has(list@[j] as int),
                forall|a: int, b: int| 0 <= a < b < list@.len() ==> list@[a] < list@[b],
                forall|i: int| 0 <= i < 25 && #[trigger] stones.has(i) ==> list@.contains(i as u8),
                forall|i: int| #[trigger] stones.has(i) ==> mid.height(i) < 4,
                board.workers == killed.workers,
                board.god_data == killed.god_data,
                board.winner == killed.winner,
                board.current_player == killed.current_player,
                killed.height_map == mid.height_map,
                killed.wf() ==> board.wf(),
                forall|i: int| #[trigger] board.height(i) == mid.height(i) + if exists|j: int| 0 <= j < k && list@[j] == i {
                    1nat
                } else {
                    0nat
                },
            decreases list@.len() - k,
        {
            let s = list[k];
            proof {
                assert(!exists|j: int| 0 <= j < k && list@[j] == s as int);
                assert(board.height(s as int) == mid.height(s as int));
            }
            let ghost pre = *board;
            board.build_up(s);
            proof {
                assert forall|i: int| #[trigger] board.height(i) == mid.height(i) + if exists|j: int| 0 <= j < k + 1 && list@[j] == i {
                    1nat
                } else {
                    0nat
                } by {
                    if i == s as int {
                        assert(list@[k as int] == i);
                    } else {
                        assert(board.height(i) == pre.height(i));
                        if exists|j: int| 0 <= j < k + 1 && list@[j] == i {
                            let j = choose|j: int| 0 <= j < k + 1 && list@[j] == i;
                            assert(j < k);
                        }
                    }
                }
            }
            k = k + 1;
        }
        proof {
            assert forall|i: int| #[trigger] board.height(i) == mid.height(i) + if stones.has(i) { 1nat } else { 0nat } by {
                if stones.has(i) {
                    assert(list@.contains(i as u8));
                    let j = choose|j: int| 0 <= j < list@.len() && list@[j] == i as u8;
                    assert(list@[j] == i);
                } else if exists|j: int| 0 <= j < list@.len() && list@[j] == i {
                    let j = choose|j: int| 0 <= j < list@.len() && list@[j] == i;
                    assert(stones.has(list@[j] as int));
                }
            }
        }
    }
}

/// The opposing workers that stand next to a higher worker of the player: those Medusa turns to
/// stone.
fn stone_squares(board: &BoardState, player: Player) -> (r: BitBoard)
    requires
        board.layers_wf(),
        board.workers[player.idx()].within_board(),
    ensures
        forall|o: int| #[trigger] r.has(o) == (board.workers[1 - player.idx()].has(o) && exists|w: int|
            #[trigger] board.workers[player.idx()].has(w) && is_adjacent(w, o) && board.height(o) < board.height(w)),
        forall|o: int| #[trigger] r.has(o) ==> board.height(o) < 4,
{
    broadcast use group_bit_lemmas;

    let oppo = board.workers[player.other().index()];
    let own = board.workers[player.index()];
    let list = own.squares();
    let mut r = BitBoard::empty();
    let mut k: usize = 0;
    while k < list.len()
        invariant
            k <= list@.len(),
            board.layers_wf(),
            board.workers[player.idx()].within_board(),
            oppo == board.workers[1 - player.idx()],
            own == board.workers[player.idx()],
            forall|j: int| 0 <= j < list@.len() ==> #[trigger] list@[j] < 25 && own.has(list@[j] as int),
            forall|w: int| 0 <= w < 25 && #[trigger] own.has(w) ==> list@.contains(w as u8),
            forall|o: int| #[trigger] r.has(o) == (oppo.has(o) && exists|j: int|
                0 <= j < k && #[trigger] is_adjacent(list@[j] as int, o) && board.height(o) < board.height(list@[j] as int)),
        decreases list@.len() - k,
    {
        let w = list[k];
        let h = board.get_height(w);
        let old_r = r;
        if h > 0 {
            let lower = neighbor_mask(w).and(oppo).minus(board.height_map[h - 1]);
            r = r.or(lower);
            proof {
                assert forall|o: int| #[trigger] r.has(o) == (oppo.has(o) && exists|j: int|
                    0 <= j < k + 1 && #[trigger] is_adjacent(list@[j] as int, o) && board.height(o) < board.height(list@[j] as int)) by {
                    lemma_layer_is_height(*board, h - 1, o);
                    if lower.has(o) {
                        assert(is_adjacent(list@[k as int] as int, o));
                    }
                    if exists|j: int| 0 <= j < k + 1 && #[trigger] is_adjacent(list@[j] as int, o) && board.height(o) < board.height(list@[j] as int) {
                        let j = choose|j: int| 0 <= j < k + 1 && #[trigger] is_adjacent(list@[j] as int, o) && board.height(o)
                            < board.height(list@[j] as int);
                        if j < k {
                            assert(old_r.has(o) || !oppo.has(o));
                        }
                    }
                }
            }
        } else {
            proof {
                assert forall|o: int| #[trigger] r.has(o) == (oppo.has(o) && exists|j: int|
                    0 <= j < k + 1 && #[trigger] is_adjacent(list@[j] as int, o) && board.height(o) < board.height(list@[j] as int)) by {
                    if exists|j: int| 0 <= j < k + 1 && #[trigger] is_adjacent(list@[j] as int, o) && board.height(o) < board.height(list@[j] as int) {
                        let j = choose|j: int| 0 <= j < k + 1 && #[trigger] is_adjacent(list@[j] as int, o) && board.height(o)
                            < board.height(list@[j] as int);
                        assert(j < k);
                    }
                }
            }
        }
        k = k + 1;
    }
    proof {
        assert forall|o: int| #[trigger] r.has(o) == (board.workers[1 - player.idx()].has(o) && exists|w: int|
            #[trigger] board.workers[player.idx()].has(w) && is_adjacent(w, o) && board.height(o) < board.height(w)) by {
            if r.has(o) {
                let j = choose|j: int| 0 <= j < list@.len() && #[trigger] is_adjacent(list@[j] as int, o) && board.height(o)
                    < board.height(list@[j] as int);
                assert(own.has(list@[j] as int));
            }
            if exists|w: int| #[trigger] board.workers[player.idx()].has(w) && is_adjacent(w, o) && board.height(o) < board.height(w) {
                let w = choose|w: int| #[trigger] board.workers[player.idx()].has(w) && is_adjacent(w, o) && board.height(o) < board.height(w);
                assert(own.within_board());
                assert(list@.contains(w as u8));
                let j = choose|j: int| 0 <= j < list@.len() && list@[j] == w as u8;
                assert(is_adjacent(list@[j] as int, o));
            }
        }
        assert forall|o: int| #[trigger] r.has(o) implies board.height(o) < 4 by {
            let w = choose|w: int| #[trigger] board.workers[player.idx()].has(w) && is_adjacent(w, o) && board.height(o) < board.height(w);
        }
    }
    r
}

/// The opposing workers next to a worker of `workers` that stands higher than them.
fn stones_next_to(prelude: &GeneratorPreludeState, workers: BitBoard) -> (r: BitBoard)
    requires
        prelude.inv(),
    ensures
        forall|o: int| #[trigger] r.has(o) == (prelude.oppo_workers.has(o) && exists|w: int|
            0 <= w < 25 && #[trigger] workers.has(w) && is_adjacent(w, o) && prelude.board.height(o) < prelude.board.height(w)),
{
    broadcast use group_bit_lemmas;

    let board = prelude.board;
    let list = workers.squares();
    let mut r = BitBoard::empty();
    let mut k: usize = 0;
    while k < list.len()
        invariant
            k <= list@.len(),
            prelude.inv(),
            board == prelude.board,
            forall|j: int| 0 <= j < list@.len() ==> #[trigger] list@[j] < 25 && workers.has(list@[j] as int),
            forall|w: int| 0 <= w < 25 && #[trigger] workers.has(w) ==> list@.contains(w as u8),
            forall|o: int| #[trigger] r.has(o) == (prelude.oppo_workers.has(o) && exists|j: int|
                0 <= j < k && #[trigger] is_adjacent(list@[j] as int, o) && board.height(o) < board.height(list@[j] as int)),
        decreases list@.len() - k,
    {
        let w = list[k];
        let h = board.get_height(w);
        let old_r = r;
        if h > 0 {
            let lower = neighbor_mask(w).and(prelude.oppo_workers).minus(board.height_map[h - 1].or(prelude.domes_and_frozen));
            r = r.or(lower);
            proof {
                assert forall|o: int| #[trigger] r.has(o) == (prelude.oppo_workers.has(o) && exists|j: int|
                    0 <= j < k + 1 && #[trigger] is_adjacent(list@[j] as int, o) && board.height(o) < board.height(list@[j] as int)) by {
                    lemma_layer_is_height(board, h - 1, o);
                    if lower.has(o) {
                        assert(is_adjacent(list@[k as int] as int, o));
                    }
                    if exists|j: int| 0 <= j < k + 1 && #[trigger] is_adjacent(list@[j] as int, o) && board.height(o) < board.height(list@[j] as int) {
                        let j = choose|j: int| 0 <= j < k + 1 && #[trigger] is_adjacent(list@[j] as int, o) && board.height(o)
                            < board.height(list@[j] as int);
                        if j < k {
                            assert(old_r.has(o) || !prelude.oppo_workers.has(o));
                        }
                    }
                }
            }
        } else {
            proof {
                assert forall|o: int| #[trigger] r.has(o) == (prelude.oppo_workers.has(o) && exists|j: int|
                    0 <= j < k + 1 && #[trigger] is_adjacent(list@[j] as int, o) && board.height(o) < board.height(list@[j] as int)) by {
                    if exists|j: int| 0 <= j < k + 1 && #[trigger] is_adjacent(list@[j] as int, o) && board.height(o) < board.height(list@[j] as int) {
                        let j = choose|j: int| 0 <= j < k + 1 && #[trigger] is_adjacent(list@[j] as int, o) && board.height(o)
                            < board.height(list@[j] as int);
                        assert(j < k);
                    }
                }
            }
        }
        k = k + 1;
    }
    proof {
        assert forall|o: int| #[trigger] r.has(o) == (prelude.oppo_workers.has(o) && exists|w: int|
            0 <= w < 25 && #[trigger] workers.has(w) && is_adjacent(w, o) && board.height(o) < board.height(w)) by {
            if r.has(o) {
                let j = choose|j: int| 0 <= j < list@.len() && #[trigger] is_adjacent(list@[j] as int, o) && board.height(o)
                    < board.height(list@[j] as int);
                assert(workers.has(list@[j] as int));
            }
            if exists|w: int| 0 <= w < 25 && #[trigger] workers.has(w) && is_adjacent(w, o) && board.height(o) < board.height(w) {
                let w = choose|w: int| 0 <= w < 25 && #[trigger] workers.has(w) && is_adjacent(w, o) && board.height(o) < board.height(w);
                assert(list@.contains(w as u8));
                let j = choose|j: int| 0 <= j < list@.len() && list@[j] == w as u8;
                assert(is_adjacent(list@[j] as int, o));
            }
        }
    }
    r
}

/// A worker of the player after a move: the moved one on `to`, or one of `others`.
pub open spec fn stone_holder(others: BitBoard, to: int, w: int) -> bool {
    w == to || others.has(w)
}

/// The stone map the generator computes names exactly the workers the turn turns to stone.
proof fn lemma_stone_map_matches(
    state: FullGameState,
    player: Player,
    prelude: GeneratorPreludeState,
    from: int,
    to: int,
    build: int,
    other_own: BitBoard,
    stones: BitBoard,
)
    requires
        prelude.inv(),
        prelude.board == state.board,
        prelude.player == player,
        state.board.workers[player.idx()].has(from),
        !state.board.occupied(to),
        is_adjacent(to, build),
        !state.board.occupied(build) || build == from,
        is_square(to),
        forall|w: int| #[trigger] other_own.has(w) == (prelude.own_workers.has(w) && w != from),
        forall|o: int| #[trigger] stones.has(o) == (prelude.oppo_workers.has(o) && exists|w: int|
            0 <= w < 25 && #[trigger] stone_holder(other_own, to, w) && is_adjacent(w, o)
                && state.board.height(o) < state.board.height(w)),
    ensures
        forall|o: int| #[trigger] stones.has(o) == medusa_stone(state.board, player, from, to, build, o),
{
    let board = state.board;
    let p = player.idx();
    assert(board.workers[0].within_board() && board.workers[1].within_board());
    assert forall|o: int| #[trigger] stones.has(o) == medusa_stone(board, player, from, to, build, o) by {
        if board.workers[1 - p].has(o) {
            assert(prelude.oppo_workers.has(o));
            assert(o != build);
        }
        if stones.has(o) {
            let w = choose|w: int| 0 <= w < 25 && #[trigger] stone_holder(other_own, to, w) && is_adjacent(w, o)
                && board.height(o) < board.height(w);
            if w != to {
                assert(prelude.own_workers.has(w));
                assert(board.workers[p].has(w));
                assert(w != build);
            }
            assert(is_adjacent(w, o) && (w == to || (board.workers[p].has(w) && w != from)) && built_height(board, build, o)
                < built_height(board, build, w));
        }
        if medusa_stone(board, player, from, to, build, o) {
            let w = choose|w: int| #[trigger] is_adjacent(w, o) && (w == to || (board.workers[p].has(w) && w != from))
                && built_height(board, build, o) < built_height(board, build, w);
            if w != to {
                assert(prelude.own_workers.has(w));
                assert(other_own.has(w));
                assert(w != build);
            }
            assert(0 <= w < 25 && stone_holder(other_own, to, w) && is_adjacent(w, o) && board.height(o)
                < board.height(w));
        }
    }
}

/// A Medusa turn can be played: its squares are on the board, the mover is the player's and lands
/// on a free square, and a build goes on an undomed square.
pub proof fn lemma_medusa_turn_playable(state: FullGameState, player: Player, data: u32)
    requires
        state.board.wf(),
        is_medusa_turn(state, player, false, data),
    ensures
        field_at(data, 0) < 25,
        field_at(data, 5) < 25,
        field_at(data, 10) < 25,
        !is_winning_data(data) ==> state.board.height(field_at(data, 10) as int) < 4,
        state.board.workers[player.idx()].has(field_at(data, 0) as int),
        !state.board.occupied(field_at(data, 5) as int),
{
    if is_winning_data(data) {
        lemma_mortal_move_round_trip(field_at(data, 0), field_at(data, 5), 0);
    }
}

/// What the generator knows of its position while it works.
pub open spec fn medusa_prelude_matches(prelude: GeneratorPreludeState, state: FullGameState, player: Player) -> bool {
    &&& prelude.inv()
    &&& state.board.wf()
    &&& prelude.board == state.board
    &&& prelude.player == player
    &&& prelude.other_god == state.gods[1 - player.idx()]
    &&& forall|i: int| #[trigger] prelude.acting_workers.has(i) ==> is_acting_worker(state, player, i)
}

/// The turns the generator owes with no narrowing filter on: every legal turn, except that
/// against Persephone, when a climb exists, only the climbing ones.
pub open spec fn medusa_turn_owed(state: FullGameState, player: Player, must_climb: bool, data: u32) -> bool {
    &&& is_medusa_turn(state, player, must_climb, data)
    &&& (state.gods[1 - player.idx()].is_persephone_spec() && !must_climb && exists|d: u32| #[trigger] is_medusa_turn(state, player, true, d))
        ==> is_medusa_turn(state, player, true, data)
}

/// Medusa's move generator; `must_climb` asks for climbing moves only, which is how Persephone's
/// restriction is applied.
pub fn medusa_move_gen(
    flags: MoveGenFlags,
    state: &FullGameState,
    player: Player,
    key_squares: BitBoard,
    must_climb: bool,
) -> (result: Vec<ScoredMove>)
    requires
        state.board.wf(),
    ensures
        forall|k: int| 0 <= k < result@.len() ==> #[trigger] is_medusa_turn(*state, player, must_climb, result@[k].action.0),
        flags & NARROWING_FLAGS == 0 ==> forall|data: u32| #[trigger] medusa_turn_owed(*state, player, must_climb, data) ==> lists_word(
            result@,
            data,
        ),
        flags & NARROWING_FLAGS == 0 && state.gods[1 - player.idx()].is_persephone_spec() && !must_climb && (exists|d: u32|
            #[trigger] is_medusa_turn(*state, player, true, d)) ==> forall|k: int| 0 <= k < result@.len()
            ==> #[trigger] is_medusa_turn(*state, player, true, result@[k].action.0),
    decreases if must_climb { 0int } else { 1int },
{
    broadcast use group_bit_lemmas;

    proof {
        crate::generic::lemma_no_flags(flags);
    }

    let mut result = if state.gods[player.other().index()].is_persephone() && !must_climb {
        let climbing = medusa_move_gen(flags, state, player, key_squares, true);
        proof {
            assert forall|k: int| 0 <= k < climbing@.len() implies #[trigger] is_medusa_turn(
                *state,
                player,
                must_climb,
                climbing@[k].action.0,
            ) by {
                assert(is_medusa_turn(*state, player, true, climbing@[k].action.0));
            }
        }
        if climbing.len() > 0 {
            proof {
                if flags & NARROWING_FLAGS == 0 {
                    assert(is_medusa_turn(*state, player, true, climbing@[0].action.0));
                    assert forall|data: u32| #[trigger] medusa_turn_owed(*state, player, must_climb, data) implies lists_word(climbing@, data) by {
                        assert(medusa_turn_owed(*state, player, true, data));
                    }
                }
            }
            return climbing;
        }
        proof {
            if flags & NARROWING_FLAGS == 0 {
                assert forall|d: u32| !#[trigger] is_medusa_turn(*state, player, true, d) by {
                    if is_medusa_turn(*state, player, true, d) {
                        assert(medusa_turn_owed(*state, player, true, d));
                    }
                }
            }
        }
        if flags & crate::generic::ANY_MOVE_FILTER > 0 {
            let unrestricted = medusa_move_gen(0, state, player, key_squares, true);
            if unrestricted.len() > 0 {
                return climbing;
            }
        }
        climbing
    } else {
        Vec::new()
    };
    assert(flags & NARROWING_FLAGS == 0 && state.gods[1 - player.idx()].is_persephone_spec() && !must_climb ==> forall|d: u32|
        !#[trigger] is_medusa_turn(*state, player, true, d));

    let mut prelude = get_generator_prelude_state(state, player, key_squares);
    let ghost initial_acting = prelude.acting_workers;
    let ghost own0 = prelude.own_workers;
    proof {
        assert forall|i: int| #[trigger] prelude.acting_workers.has(i) implies is_acting_worker(*state, player, i) by {
            crate::gods::mortal::lemma_prelude_acting(*state, player, prelude.own_workers, prelude.acting_workers, i);
        }
    }
    let checkable_mask = prelude.exactly_level_2;
    modify_prelude_for_checking_workers(flags, checkable_mask, &mut prelude);
    proof {
        assert forall|i: int| #[trigger] prelude.acting_workers.has(i) && flags & crate::generic::MATE_ONLY != 0 implies prelude.exactly_level_2.has(i) by {
        }
    }
    let workers = prelude.acting_workers.squares();

    let mut wi: usize = 0;
    while wi < workers.len()
        invariant
            flags & NARROWING_FLAGS == 0 && state.gods[1 - player.idx()].is_persephone_spec() && !must_climb ==> forall|d: u32|
                !#[trigger] is_medusa_turn(*state, player, true, d),
            wi <= workers@.len(),
            medusa_prelude_matches(prelude, *state, player),
            forall|k: int| 0 <= k < workers@.len() ==> #[trigger] workers@[k] < 25 && prelude.acting_workers.has(workers@[k] as int),
            forall|i: int| #[trigger] prelude.acting_workers.has(i) && flags & crate::generic::MATE_ONLY != 0 ==> prelude.exactly_level_2.has(i),
            forall|k: int| 0 <= k < result@.len() ==> #[trigger] is_medusa_turn(*state, player, must_climb, result@[k].action.0),
            flags & NARROWING_FLAGS == 0 ==> forall|data: u32| #[trigger] is_medusa_turn(*state, player, must_climb, data) && (exists|j: int|
                0 <= j < wi && workers@[j] as u32 == field_at(data, 0)) ==> lists_word(result@, data),
        decreases workers@.len() - wi,
    {
        let worker_start_pos = workers[wi];
        proof {
            assert(is_acting_worker(*state, player, worker_start_pos as int));
        }
        let worker_start_state = get_worker_start_move_state(&prelude, worker_start_pos);
        let mut worker_next_moves = get_worker_next_move_state(&prelude, &worker_start_state, checkable_mask, must_climb);

        if is_mate_only(flags) || worker_start_state.worker_start_height == 2 {
            let moves_to_level_3 = worker_next_moves.worker_moves.and(prelude.exactly_level_3).and(prelude.win_mask);
            let ghost before = result@;
            let stop = push_winning_moves(flags, &mut result, worker_start_pos, moves_to_level_3, 0);
            proof {
                lemma_lists_word_grows(before, result@);
                if flags & NARROWING_FLAGS == 0 && !stop {
                    assert forall|data: u32| #[trigger] is_medusa_turn(*state, player, must_climb, data) && field_at(data, 0)
                        == worker_start_pos && is_winning_data(data) implies lists_word(result@, data) by {
                        let to = field_at(data, 5);
                        assert(moves_to_level_3.has(to as int));
                        let k = choose|k: int| before.len() <= k < result@.len() && #[trigger] result@[k].action.0
                            == (worker_start_pos as u32) | ((to as u32) << 5u32) | 0u32 | MOVE_IS_WINNING_MASK;
                        crate::bitboard::lemma_or_zero((worker_start_pos as u32) | ((to as u32) << 5u32));
                    }
                }
            }
            proof {
                assert forall|k: int| 0 <= k < result@.len() implies #[trigger] is_medusa_turn(
                    *state,
                    player,
                    must_climb,
                    result@[k].action.0,
                ) by {
                    if k >= before.len() {
                        assert(is_winning_entry(result@[k], worker_start_pos, moves_to_level_3, 0));
                        let sq = choose|sq: u8|
                            sq < 25 && #[trigger] moves_to_level_3.has(sq as int) && result@[k].action.0 == (
                            worker_start_pos as u32) | ((sq as u32) << 5u32) | 0u32 | MOVE_IS_WINNING_MASK;
                        lemma_mortal_move_round_trip(worker_start_pos as u32, sq as u32, 0);
                        crate::bitboard::lemma_or_zero((worker_start_pos as u32) | ((sq as u32) << 5u32));
                    } else {
                        assert(result@[k] == before[k]);
                    }
                }
            }
            if stop {
                proof {
                    crate::generic::lemma_no_flags(flags);
                }
                return result;
            }
            worker_next_moves.worker_moves = worker_next_moves.worker_moves.xor(moves_to_level_3);
        }

        proof {
            crate::generic::lemma_no_flags(flags);
            if flags & NARROWING_FLAGS == 0 {
                assert forall|data: u32| #[trigger] is_medusa_turn(*state, player, must_climb, data) && field_at(data, 0)
                    == worker_start_pos && is_winning_data(data) implies lists_word(result@, data) by {
                    assert(worker_start_state.worker_start_height == 2);
                }
            }
        }
        if !is_mate_only(flags) {
            let neighbor_stone_map = stones_next_to(&prelude, worker_start_state.other_own_workers);
            let ends = worker_next_moves.worker_moves.squares();
            proof {
                crate::generic::lemma_no_flags(flags);
                if flags & NARROWING_FLAGS == 0 {
                    assert forall|i: int| 0 <= i < 25 && is_standard_step(state.board, worker_start_pos as int, i, must_climb)
                        && !(state.board.height(worker_start_pos as int) == 2 && state.board.height(i) == 3) implies #[trigger] ends@.contains(i as u8) by {
                        assert(worker_next_moves.worker_moves.has(i));
                    }
                }
            }
            let mut ei: usize = 0;
            while ei < ends.len()
                invariant
                    flags & NARROWING_FLAGS == 0 && state.gods[1 - player.idx()].is_persephone_spec() && !must_climb ==> forall|d: u32|
                        !#[trigger] is_medusa_turn(*state, player, true, d),
                    ei <= ends@.len(),
                    medusa_prelude_matches(prelude, *state, player),
                    worker_start_pos < 25,
                    worker_start_state.describes(prelude, worker_start_pos as int),
                    is_acting_worker(*state, player, worker_start_pos as int),
                    forall|o: int| #[trigger] neighbor_stone_map.has(o) == (prelude.oppo_workers.has(o) && exists|w: int|
                        0 <= w < 25 && #[trigger] worker_start_state.other_own_workers.has(w) && is_adjacent(w, o)
                            && prelude.board.height(o) < prelude.board.height(w)),
                    forall|k: int| 0 <= k < ends@.len() ==> #[trigger] ends@[k] < 25 && is_standard_step(
                        state.board,
                        worker_start_pos as int,
                        ends@[k] as int,
                        must_climb,
                    ) && !(state.board.height(worker_start_pos as int) == 2 && state.board.height(ends@[k] as int) == 3),
                    forall|k: int| 0 <= k < result@.len() ==> #[trigger] is_medusa_turn(*state, player, must_climb, result@[k].action.0),
                    flags & NARROWING_FLAGS == 0 ==> forall|data: u32| #[trigger] is_medusa_turn(*state, player, must_climb, data) && (exists|j: int|
                        0 <= j < wi && workers@[j] as u32 == field_at(data, 0)) ==> lists_word(result@, data),
                    flags & NARROWING_FLAGS == 0 ==> forall|data: u32| #[trigger] is_medusa_turn(*state, player, must_climb, data) && field_at(data, 0)
                        == worker_start_pos && is_winning_data(data) ==> lists_word(result@, data),
                    flags & NARROWING_FLAGS == 0 ==> forall|data: u32| #[trigger] is_medusa_turn(*state, player, must_climb, data) && field_at(data, 0)
                        == worker_start_pos && !is_winning_data(data) && (exists|j: int| 0 <= j < ei && ends@[j] as u32 == field_at(data, 5))
                        ==> lists_word(result@, data),
                    flags & NARROWING_FLAGS == 0 ==> forall|i: int| 0 <= i < 25 && is_standard_step(state.board, worker_start_pos as int, i, must_climb)
                        && !(state.board.height(worker_start_pos as int) == 2 && state.board.height(i) == 3) ==> #[trigger] ends@.contains(i as u8),
                    flags & NARROWING_FLAGS == 0 ==> flags & crate::generic::INTERACT_WITH_KEY_SQUARES == 0 && flags & crate::generic::STOP_ON_MATE == 0,
                decreases ends@.len() - ei,
            {
                let worker_end_pos = ends[ei];
                let worker_end_move_state = get_worker_end_move_state(&prelude, &worker_start_state, worker_end_pos);
                let current_stone_map = stones_next_to(&prelude, worker_end_move_state.worker_end_mask);
                let final_stone_map = neighbor_stone_map.or(current_stone_map);
                let is_stone = final_stone_map.is_not_empty();
                proof {
                    assert forall|o: int| #[trigger] final_stone_map.has(o) == (prelude.oppo_workers.has(o) && exists|w: int|
                        0 <= w < 25 && #[trigger] stone_holder(worker_start_state.other_own_workers, worker_end_pos as int, w)
                            && is_adjacent(w, o) && state.board.height(o) < state.board.height(w)) by {
                        if neighbor_stone_map.has(o) {
                            let w = choose|w: int| 0 <= w < 25 && #[trigger] worker_start_state.other_own_workers.has(w)
                                && is_adjacent(w, o) && prelude.board.height(o) < prelude.board.height(w);
                            if w == worker_end_pos as int {
                                assert(worker_end_move_state.worker_end_mask.has(w));
                            }
                            assert(stone_holder(worker_start_state.other_own_workers, worker_end_pos as int, w));
                        }
                        if current_stone_map.has(o) {
                            let w = choose|w: int| 0 <= w < 25 && #[trigger] worker_end_move_state.worker_end_mask.has(w)
                                && is_adjacent(w, o) && prelude.board.height(o) < prelude.board.height(w);
                            assert(stone_holder(worker_start_state.other_own_workers, worker_end_pos as int, w));
                        }
                        if prelude.oppo_workers.has(o) && exists|w: int| 0 <= w < 25 && #[trigger] stone_holder(worker_start_state.other_own_workers, worker_end_pos as int, w)
                            && is_adjacent(w, o) && state.board.height(o) < state.board.height(w) {
                            let w = choose|w: int| 0 <= w < 25 && #[trigger] stone_holder(worker_start_state.other_own_workers, worker_end_pos as int, w)
                                && is_adjacent(w, o) && state.board.height(o) < state.board.height(w);
                            if w == worker_end_pos as int {
                                assert(worker_end_move_state.worker_end_mask.has(w));
                                assert(current_stone_map.has(o));
                            } else {
                                assert(worker_start_state.other_own_workers.has(w));
                                assert(neighbor_stone_map.has(o));
                            }
                        }
                    }
                }
                let unblocked_squares = worker_start_state.all_non_moving_workers.or(worker_end_move_state.worker_end_mask).or(
                    prelude.domes_and_frozen,
                ).not();
                let all_possible_builds = neighbor_mask(worker_end_pos).and(unblocked_squares).and(prelude.build_mask);
                let narrowed_builds = if is_interact_with_key_squares(flags) && final_stone_map.or(
                    worker_end_move_state.worker_end_mask,
                ).and(prelude.key_squares).is_empty() {
                    all_possible_builds.and(prelude.key_squares)
                } else {
                    all_possible_builds
                };
                let reach_board = get_standard_reach_board(
                    &prelude,
                    &worker_next_moves,
                    &worker_end_move_state,
                    unblocked_squares.or(final_stone_map),
                );
                let builds = narrowed_builds.squares();
                proof {
                    if flags & NARROWING_FLAGS == 0 {
                        assert forall|b: int| 0 <= b < 25 && #[trigger] is_standard_build_for(*state, player, worker_start_pos as int, worker_end_pos as int, b)
                            implies builds@.contains(b as u8) by {
                            assert(all_possible_builds.has(b));
                            assert(narrowed_builds.has(b));
                        }
                    }
                }
                let mut bi: usize = 0;
                while bi < builds.len()
                    invariant
                        flags & NARROWING_FLAGS == 0 && state.gods[1 - player.idx()].is_persephone_spec() && !must_climb ==> forall|d: u32|
                            !#[trigger] is_medusa_turn(*state, player, true, d),
                        bi <= builds@.len(),
                        medusa_prelude_matches(prelude, *state, player),
                        worker_start_pos < 25,
                        worker_end_pos < 25,
                        is_acting_worker(*state, player, worker_start_pos as int),
                        is_standard_step(state.board, worker_start_pos as int, worker_end_pos as int, must_climb),
                        !(state.board.height(worker_start_pos as int) == 2 && state.board.height(worker_end_pos as int) == 3),
                        worker_start_state.describes(prelude, worker_start_pos as int),
                        forall|o: int| #[trigger] final_stone_map.has(o) == (prelude.oppo_workers.has(o) && exists|w: int|
                            0 <= w < 25 && #[trigger] stone_holder(worker_start_state.other_own_workers, worker_end_pos as int, w)
                                && is_adjacent(w, o) && state.board.height(o) < state.board.height(w)),
                        is_stone == (final_stone_map.0 != 0),
                        is_stone == exists|o: int| #[trigger] final_stone_map.has(o),
                        forall|i: int| #[trigger] all_possible_builds.has(i) == (is_adjacent(worker_end_pos as int, i) && !(
                            state.board.occupied(i) && i != worker_start_pos) && i != worker_end_pos && !(is_square(i)
                            && state.board.height(i) == 4) && prelude.build_mask.has(i)),
                        forall|k: int| 0 <= k < builds@.len() ==> #[trigger] builds@[k] < 25 && all_possible_builds.has(builds@[k] as int),
                        forall|k: int| 0 <= k < result@.len() ==> #[trigger] is_medusa_turn(*state, player, must_climb, result@[k].action.0),
                        flags & NARROWING_FLAGS == 0 ==> forall|data: u32| #[trigger] is_medusa_turn(*state, player, must_climb, data) && (exists|j: int|
                            0 <= j < wi && workers@[j] as u32 == field_at(data, 0)) ==> lists_word(result@, data),
                        flags & NARROWING_FLAGS == 0 ==> forall|data: u32| #[trigger] is_medusa_turn(*state, player, must_climb, data) && field_at(data, 0)
                            == worker_start_pos && is_winning_data(data) ==> lists_word(result@, data),
                        flags & NARROWING_FLAGS == 0 ==> forall|data: u32| #[trigger] is_medusa_turn(*state, player, must_climb, data) && field_at(data, 0)
                            == worker_start_pos && !is_winning_data(data) && (exists|j: int| 0 <= j < ei && ends@[j] as u32 == field_at(data, 5))
                            ==> lists_word(result@, data),
                        flags & NARROWING_FLAGS == 0 ==> forall|i: int| 0 <= i < 25 && is_standard_step(state.board, worker_start_pos as int, i, must_climb)
                            && !(state.board.height(worker_start_pos as int) == 2 && state.board.height(i) == 3) ==> #[trigger] ends@.contains(i as u8),
                        flags & NARROWING_FLAGS == 0 ==> flags & crate::generic::INTERACT_WITH_KEY_SQUARES == 0 && flags & crate::generic::STOP_ON_MATE == 0,
                        flags & NARROWING_FLAGS == 0 ==> forall|data: u32| #[trigger] is_medusa_turn(*state, player, must_climb, data) && field_at(data, 0)
                            == worker_start_pos && !is_winning_data(data) && field_at(data, 5) == worker_end_pos && (exists|j: int| 0 <= j < bi
                            && builds@[j] as u32 == field_at(data, 10)) ==> lists_word(result@, data),
                        flags & NARROWING_FLAGS == 0 ==> forall|b: int| 0 <= b < 25 && #[trigger] is_standard_build_for(*state, player, worker_start_pos as int, worker_end_pos as int, b) ==> builds@.contains(b as u8),
                        ei < ends@.len(),
                        ends@[ei as int] == worker_end_pos,
                    decreases builds@.len() - bi,
                {
                    let worker_build_pos = builds[bi];
                    let build_mask = BitBoard::as_mask(worker_build_pos);
                    let new_action = MedusaMove::new_basic_move(worker_start_pos, worker_end_pos, worker_build_pos, is_stone);
                    let final_level_3 = prelude.exactly_level_2.and(build_mask.or(final_stone_map)).or(
                        prelude.exactly_level_3.minus(build_mask),
                    );
                    let is_check = reach_board.and(final_level_3).is_not_empty();
                    let ghost before = result@;
                    result.push(build_scored_move(flags, new_action.to_generic(), is_check, worker_end_move_state.is_improving));
                    proof {
                        let b = worker_build_pos as int;
                        assert(all_possible_builds.has(b));
                        lemma_stone_map_matches(
                            *state,
                            player,
                            prelude,
                            worker_start_pos as int,
                            worker_end_pos as int,
                            b,
                            worker_start_state.other_own_workers,
                            final_stone_map,
                        );
                        lemma_medusa_move_round_trip(
                            worker_start_pos as u32,
                            worker_end_pos as u32,
                            worker_build_pos as u32,
                            if is_stone { 1u32 } else { 0u32 },
                        );
                        assert(is_stone == exists|o: int| #[trigger] medusa_stone(state.board, player, worker_start_pos as int, worker_end_pos as int, b, o)) by {
                            if is_stone {
                                let o = choose|o: int| #[trigger] final_stone_map.has(o);
                                assert(medusa_stone(state.board, player, worker_start_pos as int, worker_end_pos as int, b, o));
                            }
                            if exists|o: int| #[trigger] medusa_stone(state.board, player, worker_start_pos as int, worker_end_pos as int, b, o) {
                                let o = choose|o: int| #[trigger] medusa_stone(state.board, player, worker_start_pos as int, worker_end_pos as int, b, o);
                                assert(final_stone_map.has(o));
                            }
                        }
                        assert forall|k: int| 0 <= k < result@.len() implies #[trigger] is_medusa_turn(
                            *state,
                            player,
                            must_climb,
                            result@[k].action.0,
                        ) by {
                            if k < before.len() {
                                assert(result@[k] == before[k]);
                            }
                        }
                        lemma_lists_word_grows(before, result@);
                        if flags & NARROWING_FLAGS == 0 {
                            assert forall|data: u32| #[trigger] is_medusa_turn(*state, player, must_climb, data) && field_at(data, 0)
                                == worker_start_pos && !is_winning_data(data) && field_at(data, 5) == worker_end_pos && (exists|j: int| 0 <= j < bi + 1
                                && builds@[j] as u32 == field_at(data, 10)) implies lists_word(result@, data) by {
                                let j = choose|j: int| 0 <= j < bi + 1 && builds@[j] as u32 == field_at(data, 10);
                                if j == bi {
                                    assert(result@[before.len() as int].action.0 == data);
                                }
                            }
                        }
                    }
                    bi = bi + 1;
                }
                proof {
                    if flags & NARROWING_FLAGS == 0 {
                        assert forall|data: u32| #[trigger] is_medusa_turn(*state, player, must_climb, data) && field_at(data, 0)
                            == worker_start_pos && !is_winning_data(data) && (exists|j: int| 0 <= j < ei + 1 && ends@[j] as u32 == field_at(data, 5))
                            implies lists_word(result@, data) by {
                            let j = choose|j: int| 0 <= j < ei + 1 && ends@[j] as u32 == field_at(data, 5);
                            if j == ei {
                                let b = field_at(data, 10);
                                assert(is_standard_build_for(*state, player, worker_start_pos as int, worker_end_pos as int, b as int));
                                assert(builds@.contains(b as u8));
                                let jb = choose|jb: int| 0 <= jb < builds@.len() && builds@[jb] == b as u8;
                                assert(builds@[jb] as u32 == field_at(data, 10));
                            }
                        }
                    }
                }
                ei = ei + 1;
            }
            proof {
                if flags & NARROWING_FLAGS == 0 {
                    assert forall|data: u32| #[trigger] is_medusa_turn(*state, player, must_climb, data) && (exists|j: int|
                        0 <= j < wi + 1 && workers@[j] as u32 == field_at(data, 0)) implies lists_word(result@, data) by {
                        let j = choose|j: int| 0 <= j < wi + 1 && workers@[j] as u32 == field_at(data, 0);
                        if j == wi && !is_winning_data(data) {
                            let to = field_at(data, 5);
                            assert(ends@.contains(to as u8));
                            let je = choose|je: int| 0 <= je < ends@.len() && ends@[je] == to as u8;
                            assert(ends@[je] as u32 == field_at(data, 5));
                        }
                    }
                }
            }
        }
        wi = wi + 1;
    }
    proof {
        if flags & NARROWING_FLAGS == 0 {
            assert forall|data: u32| #[trigger] medusa_turn_owed(*state, player, must_climb, data) implies lists_word(result@, data) by {
                let f = field_at(data, 0);
                lemma_acting_in_prelude(*state, player, own0, initial_acting, f as int);
                assert(workers@.contains(f as u8));
                let j = choose|j: int| 0 <= j < workers@.len() && workers@[j] == f as u8;
                assert(workers@[j] as u32 == field_at(data, 0));
            }
        }
    }
    result
}

/// Medusa's fixed data.
pub fn build_medusa() -> (r: GodPower)
    ensures
        r.god_name == GodName::Medusa,
        r.hash1 == 8549903969002325999u64,
        r.hash2 == 1897019337165897523u64,
        r.placement_type == PlacementType::Normal,
        r.symmetry == BoardSymmetry::Full,
        !r.is_persephone,
{
    god_power(GodName::Medusa, 8549903969002325999, 1897019337165897523)
}

/// How a turn of this god changes the board: the workers, the heights, the god data and the
/// winner after it, and whose turn it is, are those of `after`.
pub open spec fn medusa_move_effect(before: BoardState, after: BoardState, player: Player, data: u32) -> bool {
    &&& after.workers[player.idx()].0 == before.workers[player.idx()].0 ^ ((1u32 << field_at(data, 0)) ^ (1u32 << field_at(data, 5)))
    &&& after.god_data == before.god_data
    &&& after.current_player == before.current_player
    &&& (is_winning_data(data) ==> after.winner == Some(player) && after.height_map == before.height_map && after.workers[1 - player.idx()] == before.workers[1 - player.idx()])
    &&& (!is_winning_data(data) ==> after.winner == before.winner)
    &&& (!is_winning_data(data) && data & 0x8000u32 == 0 ==> after.workers[1 - player.idx()] == before.workers[1 - player.idx()] && forall|i: int| #[trigger] after.height(i) == built_height( before, field_at(data, 10) as int, i, ))
    &&& (!is_winning_data(data) && data & 0x8000u32 != 0 && before.workers[player.idx()].has( field_at(data, 0) as int, ) && !before.occupied(field_at(data, 5) as int) ==> { &&& forall|i: int| #[trigger] after.workers[1 - player.idx()].has(i) == (before.workers[1 - player.idx()].has(i) && !is_stoned_after(before, player, data, i)) &&& forall|i: int| #[trigger] after.height(i) == built_height(before, field_at(data, 10) as int, i) + if is_stoned_after(before, player, data, i) { 1nat } else { 0nat } })
}

} // verus!
