use vstd::prelude::*;

use crate::bitboard::{apply_neighbor_map_to_mask, bit, group_bit_lemmas, neighbor_mask, BitBoard, MAIN_SECTION};
use crate::board::{BoardState, FullGameState, Player};
use crate::generic::{
    build_scored_move, field_at, NARROWING_FLAGS, is_interact_with_key_squares, is_mate_only, is_winning_data, lemma_pack4, read_position,
    GenericMove, MoveData, MoveGenFlags, ScoredMove, ANY_MOVE_FILTER, MATE_ONLY, MOVE_DATA_MAIN_SECTION, MOVE_IS_WINNING_MASK,
};
use crate::gods::mortal::{
    is_acting_worker, is_standard_build_for, is_win_step, lemma_acting_in_prelude, lemma_lists_word_grows, lemma_mortal_move_round_trip,
    lemma_prelude_acting, lists_word,
    lemma_toggle_keeps_wf, mortal_winning_data, win_targets,
};
use crate::gods::move_helpers::{
    get_basic_moves, get_generator_prelude_state, get_sized_result, get_worker_end_move_state, get_worker_next_build_state,
    get_worker_start_move_state, is_standard_step, is_winning_entry, modify_prelude_for_checking_workers, push_winning_moves,
    GeneratorPreludeState,
};
use crate::square::{is_adjacent, is_square, Square};
use crate::gods::{BoardSymmetry, PlacementType, god_power, GodName, GodPower};

verus! {

/// A Hydra turn: a plain move and build, and the square of the worker the power acts on.
#[derive(Clone, Copy, PartialEq, Eq, Structural, Debug)]
pub struct HydraMove(pub MoveData);

impl HydraMove {
    pub fn new_basic_move(move_from_position: Square, move_to_position: Square, build_position: Square, special_worker_position: Square) -> (r: Self)
        requires
            move_from_position < 25,
            move_to_position < 25,
            build_position < 25,
            special_worker_position < 25,
        ensures
            r.0 == (move_from_position as u32) | ((move_to_position as u32) << 5u32) | ((build_position as u32) << 10u32) | ((special_worker_position as u32) << 15u32),
    {
        Self((move_from_position as u32) | ((move_to_position as u32) << 5u32) | ((build_position as u32) << 10u32) | ((special_worker_position as u32) << 15u32))
    }

    pub fn new_winning_move(move_from_position: Square, move_to_position: Square) -> (r: Self)
        requires
            move_from_position < 25,
            move_to_position < 25,
        ensures
            r.0 == (move_from_position as u32) | ((move_to_position as u32) << 5u32) | MOVE_IS_WINNING_MASK,
    {
        Self((move_from_position as u32) | ((move_to_position as u32) << 5u32) | MOVE_IS_WINNING_MASK)
    }

    pub fn move_from_position(&self) -> (r: Square)
        ensures
            r == field_at(self.0, 0),
            r < 32,
    {
        read_position(self.0, 0)
    }

    pub fn move_to_position(&self) -> (r: Square)
        ensures
            r == field_at(self.0, 5),
            r < 32,
    {
        read_position(self.0, 5)
    }

    pub fn build_position(self) -> (r: Square)
        ensures
            r == field_at(self.0, 10),
            r < 32,
    {
        read_position(self.0, 10)
    }

    /// The worker Hydra's power acts on this turn.
    pub fn special_worker_position(self) -> (r: Square)
        ensures
            r == field_at(self.0, 15),
            r < 32,
    {
        read_position(self.0, 15)
    }

    pub fn get_is_winning(&self) -> (r: bool)
        ensures
            r == is_winning_data(self.0),
    {
        (self.0 & MOVE_IS_WINNING_MASK) != 0
    }
}

/// A Hydra move reads back what it was built from, and stays clear of the flags.
pub proof fn lemma_hydra_move_round_trip(move_from: u32, move_to: u32, build: u32, special: u32)
    requires
        move_from < 25,
        move_to < 25,
        build < 25,
        special < 25,
    ensures
        field_at(move_from | (move_to << 5u32) | (build << 10u32) | (special << 15u32), 0) == move_from,
        field_at(move_from | (move_to << 5u32) | (build << 10u32) | (special << 15u32), 5) == move_to,
        field_at(move_from | (move_to << 5u32) | (build << 10u32) | (special << 15u32), 10) == build,
        field_at(move_from | (move_to << 5u32) | (build << 10u32) | (special << 15u32), 15) == special,
        !is_winning_data(move_from | (move_to << 5u32) | (build << 10u32) | (special << 15u32)),
        (move_from | (move_to << 5u32) | (build << 10u32) | (special << 15u32)) & MOVE_DATA_MAIN_SECTION == move_from | (move_to << 5u32) | (build << 10u32) | (special << 15u32),
{
    lemma_pack4(move_from, move_to, build, special);
}

/// The word of a move and build with the square the power acts on.
pub open spec fn hydra_data(from: u32, to: u32, build: u32, special: u32) -> u32 {
    from | (to << 5u32) | (build << 10u32) | (special << 15u32)
}

/// Whether `w` holds one of the player's workers once the worker on `from` has moved to `to`.
pub open spec fn is_own_after(board: BoardState, p: int, from: int, to: int, w: int) -> bool {
    w == to || (board.workers[p].has(w) && w != from)
}

/// Whether no two of the player's workers neighbour each other once the worker on `from` has moved
/// to `to`.
pub open spec fn hydra_workers_apart(board: BoardState, p: int, from: int, to: int) -> bool {
    forall|a: int, b: int|
        #![trigger is_own_after(board, p, from, to, a), is_own_after(board, p, from, to, b)]
        is_own_after(board, p, from, to, a) && is_own_after(board, p, from, to, b) ==> !is_adjacent(a, b)
}

/// The height of a square once `build` has been built up.
pub open spec fn height_after_build(board: BoardState, build: int, i: int) -> nat {
    board.height(i) + if i == build {
        1nat
    } else {
        0nat
    }
}

/// A square next to the moved worker where a new worker may come in: free once the worker has
/// moved, and not domed once the build is made.
pub open spec fn is_hydra_spot_candidate(board: BoardState, from: int, to: int, build: int, i: int) -> bool {
    &&& is_adjacent(to, i)
    &&& !(board.occupied(i) && i != from)
    &&& height_after_build(board, build, i) <= 3
}

/// A candidate square of the lowest level among the candidates.
pub open spec fn is_lowest_hydra_spot(board: BoardState, from: int, to: int, build: int, s: int) -> bool {
    &&& is_hydra_spot_candidate(board, from, to, build, s)
    &&& forall|j: int| #[trigger]
        is_hydra_spot_candidate(board, from, to, build, j) ==> height_after_build(board, build, s) <= height_after_build(
            board,
            build,
            j,
        )
}

/// A legal Hydra turn read off its word: a winning step; or a plain move and build, then, when no
/// two of the player's workers neighbour each other, a new worker on a lowest square next to the
/// moved worker, and otherwise the removal of one of the player's workers.
pub open spec fn is_hydra_turn(state: FullGameState, player: Player, must_climb: bool, data: u32) -> bool {
    let board = state.board;
    let p = player.idx();
    let from = field_at(data, 0);
    let to = field_at(data, 5);
    let build = field_at(data, 10);
    let special = field_at(data, 15);
    &&& is_acting_worker(state, player, from as int)
    &&& is_standard_step(board, from as int, to as int, must_climb)
    &&& if is_winning_data(data) {
        &&& data == mortal_winning_data(from, to)
        &&& is_win_step(false, board.height(from as int), board.height(to as int))
    } else {
        &&& data == hydra_data(from, to, build, special)
        &&& !is_win_step(false, board.height(from as int), board.height(to as int))
        &&& is_standard_build_for(state, player, from as int, to as int, build as int)
        &&& if hydra_workers_apart(board, p, from as int, to as int) {
            is_lowest_hydra_spot(board, from as int, to as int, build as int, special as int)
        } else {
            is_own_after(board, p, from as int, to as int, special as int)
        }
    }
}

/// A turn owed a climb is a turn.
pub proof fn lemma_hydra_climb_is_turn(state: FullGameState, player: Player, data: u32)
    ensures
        is_hydra_turn(state, player, true, data) ==> is_hydra_turn(state, player, false, data),
{
}

/// What playing a Hydra turn needs, read off the turn.
pub proof fn lemma_hydra_turn_playable(state: FullGameState, player: Player, data: u32)
    requires
        state.board.wf(),
        is_hydra_turn(state, player, false, data),
    ensures
        field_at(data, 0) < 25,
        field_at(data, 5) < 25,
        state.board.workers[player.idx()].has(field_at(data, 0) as int),
        !state.board.occupied(field_at(data, 5) as int),
        !is_winning_data(data) ==> field_at(data, 10) < 25 && field_at(data, 15) < 25 && state.board.height(
            field_at(data, 10) as int,
        ) < 4 && !state.board.workers[1 - player.idx()].has(field_at(data, 15) as int),
{
    let board = state.board;
    let p = player.idx();
    assert(board.workers[p].within_board());
    let s = field_at(data, 15) as int;
    if !is_winning_data(data) && board.workers[p].has(s) {
        assert(!(board.workers[0].has(s) && board.workers[1].has(s)));
    }
}

impl HydraMove {
    /// Plays the turn: the worker moves, and either wins, or builds and gains or loses the worker
    /// on the power's square.
    pub fn make_move(self, board: &mut BoardState, player: Player)
        requires
            old(board).wf(),
            field_at(self.0, 0) < 25,
            field_at(self.0, 5) < 25,
            old(board).workers[player.idx()].has(field_at(self.0, 0) as int),
            !old(board).occupied(field_at(self.0, 5) as int),
            !is_winning_data(self.0) ==> field_at(self.0, 10) < 25 && field_at(self.0, 15) < 25 && old(board).height(
                field_at(self.0, 10) as int,
            ) < 4 && !old(board).workers[1 - player.idx()].has(field_at(self.0, 15) as int),
        ensures
            final(board).wf(),
            final(board).current_player == old(board).current_player,
            final(board).god_data == old(board).god_data,
            final(board).workers[1 - player.idx()] == old(board).workers[1 - player.idx()],
            is_winning_data(self.0) ==> final(board).winner == Some(player) && final(board).height_map == old(board).height_map
                && final(board).workers[player.idx()].0 == old(board).workers[player.idx()].0 ^ ((1u32 << field_at(self.0, 0))
                ^ (1u32 << field_at(self.0, 5))),
            !is_winning_data(self.0) ==> final(board).winner == old(board).winner && final(board).workers[player.idx()].0 == old(
                board,
            ).workers[player.idx()].0 ^ ((1u32 << field_at(self.0, 0)) ^ (1u32 << field_at(self.0, 5)) ^ (1u32 << field_at(
                self.0,
                15,
            ))),
            !is_winning_data(self.0) ==> forall|i: int| #[trigger] final(board).height(i) == (if i == field_at(self.0, 10) {
                old(board).height(i) + 1
            } else {
                old(board).height(i)
            }),
    {
        broadcast use group_bit_lemmas;

        let ghost before = *board;
        let ghost p = player.idx();
        let from_mask = BitBoard::as_mask(self.move_from_position());
        let to_mask = BitBoard::as_mask(self.move_to_position());
        assert(before.workers[p].within_board());
        assert(!(before.workers[0].has(field_at(self.0, 0) as int) && before.workers[1].has(field_at(self.0, 0) as int)));
        if self.get_is_winning() {
            let mask = from_mask.xor(to_mask);
            board.worker_xor(player, mask);
            proof {
                lemma_toggle_keeps_wf(before, *board, p, mask.0);
            }
            board.set_winner(player);
            return;
        }
        let mask = from_mask.xor(to_mask).xor(BitBoard::as_mask(self.special_worker_position()));
        board.worker_xor(player, mask);
        proof {
            lemma_toggle_keeps_wf(before, *board, p, mask.0);
        }
        board.build_up(self.build_position());
    }

    pub fn to_generic(self) -> (r: GenericMove)
        ensures
            r.0 == self.0,
    {
        GenericMove(self.0)
    }
}

/// The squares where a new worker may come in next to the moved worker on `worker_end_pos`: the
/// free ones of the lowest level, counting the build on `build_pos`.
fn new_worker_spots(
    prelude: &GeneratorPreludeState,
    worker_start_pos: Square,
    worker_end_pos: Square,
    unblocked_squares: BitBoard,
    build_pos: Square,
) -> (r: BitBoard)
    requires
        prelude.inv(),
        worker_end_pos < 25,
        build_pos < 25,
        forall|i: int| #[trigger] unblocked_squares.has(i) == (0 <= i < 32 && !(prelude.board.occupied(i) && i != worker_start_pos)
            && i != worker_end_pos && !(is_square(i) && prelude.board.height(i) == 4)),
    ensures
        forall|i: int| #[trigger] r.has(i) == is_lowest_hydra_spot(
            prelude.board,
            worker_start_pos as int,
            worker_end_pos as int,
            build_pos as int,
            i,
        ),
{
    broadcast use group_bit_lemmas;

    let ghost board = prelude.board;
    let ghost from = worker_start_pos as int;
    let ghost to = worker_end_pos as int;
    let ghost b = build_pos as int;
    let build_square = BitBoard::as_mask(build_pos);
    let ending_neighbors = neighbor_mask(worker_end_pos).and(unblocked_squares);
    let s0 = ending_neighbors.and(prelude.exactly_level_0).minus(build_square);
    let s1 = ending_neighbors.and(prelude.exactly_level_0.and(build_square).or(prelude.exactly_level_1.minus(build_square)));
    let s2 = ending_neighbors.and(prelude.exactly_level_1.and(build_square).or(prelude.exactly_level_2.minus(build_square)));
    let s3 = ending_neighbors.and(prelude.exactly_level_2.and(build_square).or(prelude.exactly_level_3.minus(build_square)));
    proof {
        assert forall|i: int| #[trigger] is_hydra_spot_candidate(board, from, to, b, i) implies (s0.has(i) || s1.has(i) || s2.has(i)
            || s3.has(i)) by {
            assert(ending_neighbors.has(i));
        }
        assert forall|i: int| #[trigger] s0.has(i) implies is_hydra_spot_candidate(board, from, to, b, i) && height_after_build(
            board,
            b,
            i,
        ) == 0 by {}
        assert forall|i: int| #[trigger] s1.has(i) implies is_hydra_spot_candidate(board, from, to, b, i) && height_after_build(
            board,
            b,
            i,
        ) == 1 by {}
        assert forall|i: int| #[trigger] s2.has(i) implies is_hydra_spot_candidate(board, from, to, b, i) && height_after_build(
            board,
            b,
            i,
        ) == 2 by {}
        assert forall|i: int| #[trigger] s3.has(i) implies is_hydra_spot_candidate(board, from, to, b, i) && height_after_build(
            board,
            b,
            i,
        ) == 3 by {}
    }
    let r = if s0.is_not_empty() {
        s0
    } else if s1.is_not_empty() {
        s1
    } else if s2.is_not_empty() {
        s2
    } else if s3.is_not_empty() {
        s3
    } else {
        BitBoard::empty()
    };
    proof {
        assert forall|i: int| #[trigger] r.has(i) == is_lowest_hydra_spot(board, from, to, b, i) by {
            if is_lowest_hydra_spot(board, from, to, b, i) {
                assert(s0.has(i) || s1.has(i) || s2.has(i) || s3.has(i));
                if s0.0 != 0 {
                    let w = choose|w: int| #[trigger] s0.has(w);
                    assert(is_hydra_spot_candidate(board, from, to, b, w));
                } else if s1.0 != 0 {
                    let w = choose|w: int| #[trigger] s1.has(w);
                    assert(is_hydra_spot_candidate(board, from, to, b, w));
                } else if s2.0 != 0 {
                    let w = choose|w: int| #[trigger] s2.has(w);
                    assert(is_hydra_spot_candidate(board, from, to, b, w));
                }
            }
            if r.has(i) {
                assert forall|j: int| #[trigger] is_hydra_spot_candidate(board, from, to, b, j) implies height_after_build(
                    board,
                    b,
                    i,
                ) <= height_after_build(board, b, j) by {
                    assert(s0.has(j) || s1.has(j) || s2.has(j) || s3.has(j));
                }
            }
        }
    }
    r
}

/// The squares next to some worker of `workers`, and those next to two or more of them.
fn neighbors_and_double_neighbors(workers: BitBoard) -> (r: (BitBoard, BitBoard))
    ensures
        forall|i: int| #[trigger] r.0.has(i) == (exists|w: int| 0 <= w < 25 && #[trigger] workers.has(w) && is_adjacent(w, i)),
        forall|i: int| #[trigger] r.1.has(i) == (exists|w1: int, w2: int|
            0 <= w1 < 25 && 0 <= w2 < 25 && w1 != w2 && #[trigger] workers.has(w1) && #[trigger] workers.has(w2) && is_adjacent(w1, i)
                && is_adjacent(w2, i)),
{
    broadcast use group_bit_lemmas;

    let mut all_neighbors = BitBoard::empty();
    let mut double_neighbors = BitBoard::empty();
    let list = workers.squares();
    proof {
        crate::bitboard::lemma_squares_below(workers.0, 25);
    }
    let mut k: usize = 0;
    while k < list.len()
        invariant
            k <= list@.len(),
            forall|j: int| 0 <= j < list@.len() ==> #[trigger] list@[j] < 25 && workers.has(list@[j] as int),
            forall|w: int| 0 <= w < 25 && #[trigger] workers.has(w) ==> list@.contains(w as u8),
            forall|a: int, b: int| 0 <= a < b < list@.len() ==> list@[a] < list@[b],
            forall|i: int| #[trigger] all_neighbors.has(i) == (exists|j: int| 0 <= j < k && #[trigger] is_adjacent(list@[j] as int, i)),
            forall|i: int| #[trigger] double_neighbors.has(i) == (exists|j1: int, j2: int|
                0 <= j1 < j2 < k && #[trigger] is_adjacent(list@[j1] as int, i) && #[trigger] is_adjacent(list@[j2] as int, i)),
        decreases list@.len() - k,
    {
        let worker_neighbors = neighbor_mask(list[k]);
        let old_all = all_neighbors;
        let old_double = double_neighbors;
        double_neighbors = double_neighbors.or(worker_neighbors.and(all_neighbors));
        all_neighbors = all_neighbors.or(worker_neighbors);
        proof {
            assert forall|i: int| #[trigger] all_neighbors.has(i) == (exists|j: int| 0 <= j < k + 1 && #[trigger] is_adjacent(
                list@[j] as int,
                i,
            )) by {
                if exists|j: int| 0 <= j < k + 1 && #[trigger] is_adjacent(list@[j] as int, i) {
                    let j = choose|j: int| 0 <= j < k + 1 && #[trigger] is_adjacent(list@[j] as int, i);
                    if j < k {
                        assert(old_all.has(i));
                    }
                }
            }
            assert forall|i: int| #[trigger] double_neighbors.has(i) == (exists|j1: int, j2: int|
                0 <= j1 < j2 < k + 1 && #[trigger] is_adjacent(list@[j1] as int, i) && #[trigger] is_adjacent(list@[j2] as int, i)) by {
                if double_neighbors.has(i) && !old_double.has(i) {
                    let j1 = choose|j1: int| 0 <= j1 < k && #[trigger] is_adjacent(list@[j1] as int, i);
                    assert(0 <= j1 < k < k + 1 && is_adjacent(list@[j1] as int, i) && is_adjacent(list@[k as int] as int, i));
                }
                if exists|j1: int, j2: int|
                    0 <= j1 < j2 < k + 1 && #[trigger] is_adjacent(list@[j1] as int, i) && #[trigger] is_adjacent(list@[j2] as int, i) {
                    let (j1, j2) = choose|j1: int, j2: int|
                        0 <= j1 < j2 < k + 1 && #[trigger] is_adjacent(list@[j1] as int, i) && #[trigger] is_adjacent(
                            list@[j2] as int,
                            i,
                        );
                    if j2 < k {
                        assert(old_double.has(i));
                    } else {
                        assert(old_all.has(i));
                    }
                }
            }
        }
        k = k + 1;
    }
    proof {
        assert forall|i: int| #[trigger] all_neighbors.has(i) == (exists|w: int| 0 <= w < 25 && #[trigger] workers.has(w) && is_adjacent(w, i)) by {
            if all_neighbors.has(i) {
                let j = choose|j: int| 0 <= j < list@.len() && #[trigger] is_adjacent(list@[j] as int, i);
                assert(workers.has(list@[j] as int));
            }
            if exists|w: int| 0 <= w < 25 && #[trigger] workers.has(w) && is_adjacent(w, i) {
                let w = choose|w: int| 0 <= w < 25 && #[trigger] workers.has(w) && is_adjacent(w, i);
                assert(list@.contains(w as u8));
                let j = choose|j: int| 0 <= j < list@.len() && list@[j] == w as u8;
                assert(is_adjacent(list@[j] as int, i));
            }
        }
        assert forall|i: int| #[trigger] double_neighbors.has(i) == (exists|w1: int, w2: int|
            0 <= w1 < 25 && 0 <= w2 < 25 && w1 != w2 && #[trigger] workers.has(w1) && #[trigger] workers.has(w2) && is_adjacent(w1, i)
                && is_adjacent(w2, i)) by {
            if double_neighbors.has(i) {
                let (j1, j2) = choose|j1: int, j2: int|
                    0 <= j1 < j2 < list@.len() && #[trigger] is_adjacent(list@[j1] as int, i) && #[trigger] is_adjacent(
                        list@[j2] as int,
                        i,
                    );
                let w1 = list@[j1] as int;
                let w2 = list@[j2] as int;
                assert(workers.has(w1) && workers.has(w2) && w1 != w2);
            }
            if exists|w1: int, w2: int|
                0 <= w1 < 25 && 0 <= w2 < 25 && w1 != w2 && #[trigger] workers.has(w1) && #[trigger] workers.has(w2) && is_adjacent(
                    w1,
                    i,
                ) && is_adjacent(w2, i) {
                let (w1, w2) = choose|w1: int, w2: int|
                    0 <= w1 < 25 && 0 <= w2 < 25 && w1 != w2 && #[trigger] workers.has(w1) && #[trigger] workers.has(w2) && is_adjacent(
                        w1,
                        i,
                    ) && is_adjacent(w2, i);
                assert(list@.contains(w1 as u8));
                assert(list@.contains(w2 as u8));
                let j1 = choose|j: int| 0 <= j < list@.len() && list@[j] == w1 as u8;
                let j2 = choose|j: int| 0 <= j < list@.len() && list@[j] == w2 as u8;
                if j1 < j2 {
                    assert(is_adjacent(list@[j1] as int, i) && is_adjacent(list@[j2] as int, i));
                } else {
                    assert(is_adjacent(list@[j2] as int, i) && is_adjacent(list@[j1] as int, i));
                }
            }
        }
    }
    (all_neighbors, double_neighbors)
}

/// The turns the generator owes with no narrowing filter on: every legal turn, except that
/// against Persephone, when a climb exists, only the climbing ones.
pub open spec fn hydra_turn_owed(state: FullGameState, player: Player, must_climb: bool, data: u32) -> bool {
    &&& is_hydra_turn(state, player, must_climb, data)
    &&& (state.gods[1 - player.idx()].is_persephone_spec() && !must_climb && exists|d: u32| #[trigger] is_hydra_turn(state, player, true, d))
        ==> is_hydra_turn(state, player, true, data)
}

/// Hydra's move generator: plain moves and builds, each followed by a new worker on every lowest
/// square next to the moved worker when no two workers neighbour each other, or by the removal of
/// each worker otherwise. Against Hypnus a lone worker never moves.
pub fn hydra_move_gen(
    flags: MoveGenFlags,
    state: &FullGameState,
    player: Player,
    key_squares: BitBoard,
    must_climb: bool,
) -> (result: Vec<ScoredMove>)
    requires
        state.board.wf(),
    ensures
        forall|k: int| 0 <= k < result@.len() ==> #[trigger] is_hydra_turn(*state, player, must_climb, result@[k].action.0),
        flags & NARROWING_FLAGS == 0 ==> forall|data: u32| #[trigger] hydra_turn_owed(*state, player, must_climb, data) ==> lists_word(
            result@,
            data,
        ),
        flags & NARROWING_FLAGS == 0 && state.gods[1 - player.idx()].is_persephone_spec() && !must_climb && (exists|d: u32|
            #[trigger] is_hydra_turn(*state, player, true, d)) ==> forall|k: int| 0 <= k < result@.len()
            ==> #[trigger] is_hydra_turn(*state, player, true, result@[k].action.0),
    decreases if must_climb {
        0int
    } else {
        1int
    },
{
    broadcast use group_bit_lemmas;

    proof {
        crate::generic::lemma_no_flags(flags);
    }

    let mut result = if state.gods[player.other().index()].is_persephone() && !must_climb {
        let climbing = hydra_move_gen(flags, state, player, key_squares, true);
        proof {
            assert forall|k: int| 0 <= k < climbing@.len() implies #[trigger] is_hydra_turn(
                *state,
                player,
                must_climb,
                climbing@[k].action.0,
            ) by {
                lemma_hydra_climb_is_turn(*state, player, climbing@[k].action.0);
            }
        }
        if climbing.len() > 0 {
            proof {
                if flags & NARROWING_FLAGS == 0 {
                    assert(is_hydra_turn(*state, player, true, climbing@[0].action.0));
                    assert forall|data: u32| #[trigger] hydra_turn_owed(*state, player, must_climb, data) implies lists_word(climbing@, data) by {
                        assert(hydra_turn_owed(*state, player, true, data));
                    }
                }
            }
            return climbing;
        }
        proof {
            if flags & NARROWING_FLAGS == 0 {
                assert forall|d: u32| !#[trigger] is_hydra_turn(*state, player, true, d) by {
                    if is_hydra_turn(*state, player, true, d) {
                        assert(hydra_turn_owed(*state, player, true, d));
                    }
                }
            }
        }
        if flags & ANY_MOVE_FILTER > 0 {
            let unrestricted = hydra_move_gen(0, state, player, key_squares, true);
            if unrestricted.len() > 0 {
                return climbing;
            }
        }
        climbing
    } else {
        get_sized_result(flags)
    };
    assert(flags & NARROWING_FLAGS == 0 && state.gods[1 - player.idx()].is_persephone_spec() && !must_climb ==> forall|d: u32|
        !#[trigger] is_hydra_turn(*state, player, true, d));
    let mut prelude = get_generator_prelude_state(state, player, key_squares);
    if prelude.other_god.is_hypnus() && prelude.own_workers.count_ones() < 2 {
        proof {
            let p = player.idx();
            crate::gods::hypnus::lemma_popcount_bits(prelude.own_workers.0, 32);
            assert forall|data: u32| #[trigger] hydra_turn_owed(*state, player, must_climb, data) implies false by {
                let f = field_at(data, 0) as int;
                assert(state.board.workers[p].has(f));
                assert(bit(prelude.own_workers.0, f as u32));
            }
        }
        return result;
    }
    let ghost initial_acting = prelude.acting_workers;
    let checkable_mask = prelude.exactly_level_2;
    modify_prelude_for_checking_workers(flags, checkable_mask, &mut prelude);
    let neighbor_sets = if !is_mate_only(flags) {
        neighbors_and_double_neighbors(prelude.own_workers)
    } else {
        (BitBoard::empty(), BitBoard::empty())
    };
    let all_worker_neighbors = neighbor_sets.0;
    let all_worker_double_neighbors = neighbor_sets.1;
    let workers = prelude.acting_workers.squares();
    let mut wi: usize = 0;
    while wi < workers.len()
        invariant
            flags & NARROWING_FLAGS == 0 && state.gods[1 - player.idx()].is_persephone_spec() && !must_climb ==> forall|d: u32|
                !#[trigger] is_hydra_turn(*state, player, true, d),
            wi <= workers@.len(),
            state.board.wf(),
            prelude.inv(),
            prelude.board == state.board,
            prelude.player == player,
            prelude.other_god == state.gods[1 - player.idx()],
            prelude.own_workers.0 == state.board.workers[player.idx()].0 & MAIN_SECTION,
            prelude.other_god.is_hypnus_spec() ==> initial_acting.0 == crate::gods::hypnus::hypnus_filter_spec(
                state.board.height_map,
                prelude.own_workers.0,
            ),
            !prelude.other_god.is_hypnus_spec() ==> initial_acting == prelude.own_workers,
            forall|i: int| #[trigger] prelude.acting_workers.has(i) ==> initial_acting.has(i),
            forall|k: int| 0 <= k < workers@.len() ==> #[trigger] workers@[k] < 25 && prelude.acting_workers.has(workers@[k] as int),
            flags & MATE_ONLY == 0 ==> forall|i: int| #[trigger] all_worker_neighbors.has(i) == (exists|w: int|
                0 <= w < 25 && #[trigger] prelude.own_workers.has(w) && is_adjacent(w, i)),
            flags & MATE_ONLY == 0 ==> forall|i: int| #[trigger] all_worker_double_neighbors.has(i) == (exists|w1: int, w2: int|
                0 <= w1 < 25 && 0 <= w2 < 25 && w1 != w2 && #[trigger] prelude.own_workers.has(w1) && #[trigger] prelude.own_workers.has(w2)
                    && is_adjacent(w1, i) && is_adjacent(w2, i)),
            forall|k: int| 0 <= k < result@.len() ==> #[trigger] is_hydra_turn(*state, player, must_climb, result@[k].action.0),
            flags & NARROWING_FLAGS == 0 ==> forall|data: u32| #[trigger] is_hydra_turn(*state, player, must_climb, data) && (exists|j: int|
                0 <= j < wi && workers@[j] as u32 == field_at(data, 0)) ==> lists_word(result@, data),
            flags & NARROWING_FLAGS == 0 ==> flags & 1 == 0 && flags & 2 == 0 && flags & 8 == 0,
            flags & NARROWING_FLAGS == 0 ==> prelude.acting_workers == initial_acting,
        decreases workers@.len() - wi,
    {
        let worker_start_pos = workers[wi];
        wi = wi + 1;
        proof {
            lemma_prelude_acting(*state, player, prelude.own_workers, initial_acting, worker_start_pos as int);
        }
        let worker_start_state = get_worker_start_move_state(&prelude, worker_start_pos);
        let mut worker_moves = get_basic_moves(&prelude, &worker_start_state, must_climb);
        let targets = win_targets(&prelude, worker_start_state.worker_start_height, false);
        let winning_moves = worker_moves.and(targets).and(prelude.win_mask);
        let ghost before = result@;
        let stop = push_winning_moves(flags, &mut result, worker_start_pos, winning_moves, 0);
        proof {
            assert forall|k: int| 0 <= k < result@.len() implies #[trigger] is_hydra_turn(*state, player, must_climb, result@[k].action.0) by {
                if k >= before.len() {
                    assert(is_winning_entry(result@[k], worker_start_pos, winning_moves, 0));
                    let sq = choose|sq: u8| sq < 25 && #[trigger] winning_moves.has(sq as int)
                        && result@[k].action.0 == (worker_start_pos as u32) | ((sq as u32) << 5u32) | 0u32 | MOVE_IS_WINNING_MASK;
                    lemma_mortal_move_round_trip(worker_start_pos as u32, sq as u32, 0);
                    crate::bitboard::lemma_or_zero((worker_start_pos as u32) | ((sq as u32) << 5u32));
                    assert(worker_moves.has(sq as int));
                    assert(targets.has(sq as int));
                } else {
                    assert(result@[k] == before[k]);
                }
            }
        }
        proof {
            lemma_lists_word_grows(before, result@);
            if flags & NARROWING_FLAGS == 0 {
                assert forall|data: u32| #[trigger] is_hydra_turn(*state, player, must_climb, data) && field_at(data, 0)
                    == worker_start_pos && is_winning_data(data) implies lists_word(result@, data) by {
                    let to = field_at(data, 5);
                    assert(winning_moves.has(to as int));
                    let k = choose|k: int| before.len() <= k < result@.len() && #[trigger] result@[k].action.0
                        == (worker_start_pos as u32) | ((to as u32) << 5u32) | 0u32 | MOVE_IS_WINNING_MASK;
                    crate::bitboard::lemma_or_zero((worker_start_pos as u32) | ((to as u32) << 5u32));
                }
            }
        }
        if stop {
            return result;
        }
        worker_moves = worker_moves.xor(winning_moves);
        if is_mate_only(flags) {
            continue;
        }
        let worker_neighbors_without_own_worker = all_worker_neighbors.xor(neighbor_mask(worker_start_pos)).or(
            all_worker_double_neighbors,
        );
        proof {
            assert forall|i: int| #[trigger] worker_neighbors_without_own_worker.has(i) == (exists|w: int|
                0 <= w < 25 && #[trigger] prelude.own_workers.has(w) && w != worker_start_pos && is_adjacent(w, i)) by {
                if worker_neighbors_without_own_worker.has(i) {
                    if all_worker_double_neighbors.has(i) {
                        let (w1, w2) = choose|w1: int, w2: int|
                            0 <= w1 < 25 && 0 <= w2 < 25 && w1 != w2 && #[trigger] prelude.own_workers.has(w1)
                                && #[trigger] prelude.own_workers.has(w2) && is_adjacent(w1, i) && is_adjacent(w2, i);
                        if w1 == worker_start_pos {
                            assert(prelude.own_workers.has(w2) && w2 != worker_start_pos && is_adjacent(w2, i));
                        } else {
                            assert(prelude.own_workers.has(w1) && w1 != worker_start_pos && is_adjacent(w1, i));
                        }
                    } else if all_worker_neighbors.has(i) {
                        let w = choose|w: int| 0 <= w < 25 && #[trigger] prelude.own_workers.has(w) && is_adjacent(w, i);
                        assert(!is_adjacent(worker_start_pos as int, i));
                    } else {
                        assert(is_adjacent(worker_start_pos as int, i));
                        assert(prelude.own_workers.has(worker_start_pos as int));
                    }
                }
                if exists|w: int| 0 <= w < 25 && #[trigger] prelude.own_workers.has(w) && w != worker_start_pos && is_adjacent(w, i) {
                    let w = choose|w: int| 0 <= w < 25 && #[trigger] prelude.own_workers.has(w) && w != worker_start_pos && is_adjacent(w, i);
                    assert(all_worker_neighbors.has(i));
                    if is_adjacent(worker_start_pos as int, i) {
                        assert(prelude.own_workers.has(worker_start_pos as int));
                        assert(all_worker_double_neighbors.has(i));
                    }
                }
            }
        }
        let threatening_others = worker_start_state.other_own_workers.and(prelude.exactly_level_2);
        let reach_sets = neighbors_and_double_neighbors(threatening_others);
        let other_worker_reach = reach_sets.0;
        let other_worker_double_reach = reach_sets.1;
        let ends = worker_moves.squares();
        proof {
            if flags & NARROWING_FLAGS == 0 {
                assert forall|i: int| 0 <= i < 25 && is_standard_step(state.board, worker_start_pos as int, i, must_climb)
                    && !is_win_step(false, state.board.height(worker_start_pos as int), state.board.height(i)) implies #[trigger] ends@.contains(i as u8) by {
                    assert(!targets.has(i));
                    assert(worker_moves.has(i));
                }
            }
        }
        let mut ei: usize = 0;
        while ei < ends.len()
            invariant
                flags & NARROWING_FLAGS == 0 && state.gods[1 - player.idx()].is_persephone_spec() && !must_climb ==> forall|d: u32|
                    !#[trigger] is_hydra_turn(*state, player, true, d),
                ei <= ends@.len(),
                state.board.wf(),
                prelude.inv(),
                prelude.board == state.board,
                prelude.player == player,
                prelude.other_god == state.gods[1 - player.idx()],
                worker_start_pos < 25,
                worker_start_state.describes(prelude, worker_start_pos as int),
                is_acting_worker(*state, player, worker_start_pos as int),
                forall|i: int| #[trigger] worker_neighbors_without_own_worker.has(i) == (exists|w: int|
                    0 <= w < 25 && #[trigger] prelude.own_workers.has(w) && w != worker_start_pos && is_adjacent(w, i)),
                forall|k: int| 0 <= k < ends@.len() ==> #[trigger] ends@[k] < 25
                    && is_standard_step(state.board, worker_start_pos as int, ends@[k] as int, must_climb)
                    && !is_win_step(false, state.board.height(worker_start_pos as int), state.board.height(ends@[k] as int)),
                forall|k: int| 0 <= k < result@.len() ==> #[trigger] is_hydra_turn(*state, player, must_climb, result@[k].action.0),
                flags & NARROWING_FLAGS == 0 ==> forall|data: u32| #[trigger] is_hydra_turn(*state, player, must_climb, data) && (exists|j: int|
                    0 <= j < wi - 1 && workers@[j] as u32 == field_at(data, 0)) ==> lists_word(result@, data),
                flags & NARROWING_FLAGS == 0 ==> forall|data: u32| #[trigger] is_hydra_turn(*state, player, must_climb, data) && field_at(data, 0)
                    == worker_start_pos && is_winning_data(data) ==> lists_word(result@, data),
                flags & NARROWING_FLAGS == 0 ==> forall|data: u32| #[trigger] is_hydra_turn(*state, player, must_climb, data) && field_at(data, 0)
                    == worker_start_pos && !is_winning_data(data) && (exists|j: int| 0 <= j < ei && ends@[j] as u32 == field_at(data, 5))
                    ==> lists_word(result@, data),
                flags & NARROWING_FLAGS == 0 ==> forall|i: int| 0 <= i < 25 && is_standard_step(state.board, worker_start_pos as int, i, must_climb)
                    && !is_win_step(false, state.board.height(worker_start_pos as int), state.board.height(i)) ==> #[trigger] ends@.contains(i as u8),
                flags & NARROWING_FLAGS == 0 ==> flags & 1 == 0 && flags & 2 == 0 && flags & 8 == 0,
                1 <= wi <= workers@.len(),
                workers@[wi - 1] == worker_start_pos,
            decreases ends@.len() - ei,
        {
            let worker_end_pos = ends[ei];
            ei = ei + 1;
            let worker_end_move_state = get_worker_end_move_state(&prelude, &worker_start_state, worker_end_pos);
            let worker_next_build_state = get_worker_next_build_state(flags, &prelude, &worker_start_state, &worker_end_move_state);
            let unblocked_squares = worker_next_build_state.unblocked_squares;
            let end_neighbors = neighbor_mask(worker_end_pos);
            let new_worker_neighbor_map = worker_neighbors_without_own_worker.or(end_neighbors);
            let own_workers_after_move = worker_start_state.other_own_workers.or(worker_end_move_state.worker_end_mask);
            let touching = new_worker_neighbor_map.and(own_workers_after_move);
            let is_making_new_worker = touching.is_empty();
            proof {
                let board = state.board;
                let p = player.idx();
                let from = worker_start_pos as int;
                let to = worker_end_pos as int;
                assert forall|i: int| #[trigger] own_workers_after_move.has(i) == is_own_after(board, p, from, to, i) by {}
                assert forall|i: int| #[trigger] new_worker_neighbor_map.has(i) == (exists|w: int|
                    #[trigger] is_own_after(board, p, from, to, w) && is_adjacent(w, i)) by {
                    if new_worker_neighbor_map.has(i) {
                        if worker_neighbors_without_own_worker.has(i) {
                            let w = choose|w: int| 0 <= w < 25 && #[trigger] prelude.own_workers.has(w) && w != worker_start_pos && is_adjacent(w, i);
                            assert(is_own_after(board, p, from, to, w));
                        } else {
                            assert(is_own_after(board, p, from, to, to));
                        }
                    }
                    if exists|w: int| #[trigger] is_own_after(board, p, from, to, w) && is_adjacent(w, i) {
                        let w = choose|w: int| #[trigger] is_own_after(board, p, from, to, w) && is_adjacent(w, i);
                        if w != to {
                            assert(prelude.own_workers.has(w));
                        }
                    }
                }
                if is_making_new_worker {
                    assert forall|a: int, b: int|
                        #![trigger is_own_after(board, p, from, to, a), is_own_after(board, p, from, to, b)]
                        is_own_after(board, p, from, to, a) && is_own_after(board, p, from, to, b) implies !is_adjacent(a, b) by {
                        if is_adjacent(a, b) {
                            assert(new_worker_neighbor_map.has(b));
                            assert(own_workers_after_move.has(b));
                            assert(touching.has(b));
                        }
                    }
                } else {
                    let i = choose|i: int| #[trigger] touching.has(i);
                    assert(new_worker_neighbor_map.has(i) && own_workers_after_move.has(i));
                    let w = choose|w: int| #[trigger] is_own_after(board, p, from, to, w) && is_adjacent(w, i);
                    assert(is_own_after(board, p, from, to, i));
                    assert(!hydra_workers_apart(board, p, from, to));
                }
            }
            if is_making_new_worker {
                let end_on_level_2 = worker_end_move_state.worker_end_height == 2;
                let after_move_threats = if end_on_level_2 {
                    threatening_others.or(worker_end_move_state.worker_end_mask)
                } else {
                    threatening_others
                };
                let after_move_reach = if end_on_level_2 {
                    other_worker_reach.or(end_neighbors)
                } else {
                    other_worker_reach
                };
                let builds = worker_next_build_state.all_possible_builds.squares();
                proof {
                    assert forall|b: int| 0 <= b < 25 && #[trigger] is_standard_build_for(*state, player, worker_start_pos as int, worker_end_pos as int, b)
                        implies builds@.contains(b as u8) by {
                        assert(worker_next_build_state.all_possible_builds.has(b));
                    }
                }
                let mut bi: usize = 0;
                while bi < builds.len()
                    invariant
                        flags & NARROWING_FLAGS == 0 && state.gods[1 - player.idx()].is_persephone_spec() && !must_climb ==> forall|d: u32|
                            !#[trigger] is_hydra_turn(*state, player, true, d),
                        bi <= builds@.len(),
                        prelude.inv(),
                        prelude.board == state.board,
                        prelude.player == player,
                        prelude.other_god == state.gods[1 - player.idx()],
                        worker_start_pos < 25,
                        worker_end_pos < 25,
                        worker_end_move_state.worker_end_pos == worker_end_pos,
                        forall|i: int| #[trigger] worker_end_move_state.worker_end_mask.has(i) == (i == worker_end_pos),
                        is_acting_worker(*state, player, worker_start_pos as int),
                        is_standard_step(state.board, worker_start_pos as int, worker_end_pos as int, must_climb),
                        !is_win_step(false, state.board.height(worker_start_pos as int), state.board.height(worker_end_pos as int)),
                        hydra_workers_apart(state.board, player.idx(), worker_start_pos as int, worker_end_pos as int),
                        worker_next_build_state.describes(prelude, worker_start_pos as int, worker_end_pos as int),
                        unblocked_squares == worker_next_build_state.unblocked_squares,
                        forall|k: int| 0 <= k < builds@.len() ==> #[trigger] builds@[k] < 25
                            && worker_next_build_state.all_possible_builds.has(builds@[k] as int),
                        forall|k: int| 0 <= k < result@.len() ==> #[trigger] is_hydra_turn(*state, player, must_climb, result@[k].action.0),
                        flags & NARROWING_FLAGS == 0 ==> forall|data: u32| #[trigger] is_hydra_turn(*state, player, must_climb, data) && (exists|j: int|
                            0 <= j < wi - 1 && workers@[j] as u32 == field_at(data, 0)) ==> lists_word(result@, data),
                        flags & NARROWING_FLAGS == 0 ==> forall|data: u32| #[trigger] is_hydra_turn(*state, player, must_climb, data) && field_at(data, 0)
                            == worker_start_pos && is_winning_data(data) ==> lists_word(result@, data),
                        flags & NARROWING_FLAGS == 0 ==> forall|data: u32| #[trigger] is_hydra_turn(*state, player, must_climb, data) && field_at(data, 0)
                            == worker_start_pos && !is_winning_data(data) && (exists|j: int| 0 <= j < ei - 1 && ends@[j] as u32 == field_at(data, 5))
                            ==> lists_word(result@, data),
                        flags & NARROWING_FLAGS == 0 ==> forall|i: int| 0 <= i < 25 && is_standard_step(state.board, worker_start_pos as int, i, must_climb)
                            && !is_win_step(false, state.board.height(worker_start_pos as int), state.board.height(i)) ==> #[trigger] ends@.contains(i as u8),
                        flags & NARROWING_FLAGS == 0 ==> flags & 1 == 0 && flags & 2 == 0 && flags & 8 == 0,
                        1 <= wi <= workers@.len(),
                        workers@[wi - 1] == worker_start_pos,
                        flags & NARROWING_FLAGS == 0 ==> forall|data: u32| #[trigger] is_hydra_turn(*state, player, must_climb, data) && field_at(data, 0)
                            == worker_start_pos && !is_winning_data(data) && field_at(data, 5) == worker_end_pos && (exists|j: int| 0 <= j < bi
                            && builds@[j] as u32 == field_at(data, 10)) ==> lists_word(result@, data),
                        flags & NARROWING_FLAGS == 0 ==> forall|b: int| 0 <= b < 25 && #[trigger] is_standard_build_for(*state, player, worker_start_pos as int, worker_end_pos as int, b) ==> builds@.contains(b as u8),
                        1 <= ei <= ends@.len(),
                        ends@[ei - 1] == worker_end_pos,
                    decreases builds@.len() - bi,
                {
                    let worker_build_pos = builds[bi];
                    bi = bi + 1;
                    let worker_build_mask = BitBoard::as_mask(worker_build_pos);
                    let final_level_3 = prelude.exactly_level_2.and(worker_build_mask).or(prelude.exactly_level_3.minus(worker_build_mask)).and(
                        prelude.win_mask,
                    );
                    let final_level_2 = prelude.exactly_level_1.and(worker_build_mask).or(prelude.exactly_level_2.minus(worker_build_mask));
                    let mut addable_spots = new_worker_spots(&prelude, worker_start_pos, worker_end_pos, unblocked_squares, worker_build_pos);
                    if is_interact_with_key_squares(flags) {
                        if worker_end_move_state.worker_end_mask.or(worker_build_mask).and(prelude.key_squares).is_empty() {
                            addable_spots = addable_spots.and(prelude.key_squares);
                        }
                    }
                    proof {
                        assert(worker_next_build_state.all_possible_builds.has(worker_build_pos as int));
                        assert forall|i: int| #[trigger] addable_spots.has(i) implies is_lowest_hydra_spot(
                            state.board,
                            worker_start_pos as int,
                            worker_end_pos as int,
                            worker_build_pos as int,
                            i,
                        ) by {}
                    }
                    let spots = addable_spots.squares();
                    proof {
                        if flags & NARROWING_FLAGS == 0 {
                            assert forall|i: int| 0 <= i < 25 && #[trigger] is_lowest_hydra_spot(state.board, worker_start_pos as int, worker_end_pos as int, worker_build_pos as int, i)
                                implies spots@.contains(i as u8) by {
                                assert(addable_spots.has(i));
                            }
                        }
                    }
                    let mut si: usize = 0;
                    while si < spots.len()
                        invariant
                            flags & NARROWING_FLAGS == 0 && state.gods[1 - player.idx()].is_persephone_spec() && !must_climb ==> forall|d: u32|
                                !#[trigger] is_hydra_turn(*state, player, true, d),
                            si <= spots@.len(),
                            prelude.inv(),
                            prelude.board == state.board,
                            prelude.player == player,
                            prelude.other_god == state.gods[1 - player.idx()],
                            worker_start_pos < 25,
                            worker_end_pos < 25,
                            worker_build_pos < 25,
                            is_acting_worker(*state, player, worker_start_pos as int),
                            is_standard_step(state.board, worker_start_pos as int, worker_end_pos as int, must_climb),
                            !is_win_step(false, state.board.height(worker_start_pos as int), state.board.height(worker_end_pos as int)),
                            hydra_workers_apart(state.board, player.idx(), worker_start_pos as int, worker_end_pos as int),
                            is_standard_build_for(*state, player, worker_start_pos as int, worker_end_pos as int, worker_build_pos as int),
                            forall|k: int| 0 <= k < spots@.len() ==> #[trigger] spots@[k] < 25 && is_lowest_hydra_spot(
                                state.board,
                                worker_start_pos as int,
                                worker_end_pos as int,
                                worker_build_pos as int,
                                spots@[k] as int,
                            ),
                            forall|k: int| 0 <= k < result@.len() ==> #[trigger] is_hydra_turn(*state, player, must_climb, result@[k].action.0),
                        flags & NARROWING_FLAGS == 0 ==> forall|data: u32| #[trigger] is_hydra_turn(*state, player, must_climb, data) && (exists|j: int|
                            0 <= j < wi - 1 && workers@[j] as u32 == field_at(data, 0)) ==> lists_word(result@, data),
                        flags & NARROWING_FLAGS == 0 ==> forall|data: u32| #[trigger] is_hydra_turn(*state, player, must_climb, data) && field_at(data, 0)
                            == worker_start_pos && is_winning_data(data) ==> lists_word(result@, data),
                        flags & NARROWING_FLAGS == 0 ==> forall|data: u32| #[trigger] is_hydra_turn(*state, player, must_climb, data) && field_at(data, 0)
                            == worker_start_pos && !is_winning_data(data) && (exists|j: int| 0 <= j < ei - 1 && ends@[j] as u32 == field_at(data, 5))
                            ==> lists_word(result@, data),
                        flags & NARROWING_FLAGS == 0 ==> forall|i: int| 0 <= i < 25 && is_standard_step(state.board, worker_start_pos as int, i, must_climb)
                            && !is_win_step(false, state.board.height(worker_start_pos as int), state.board.height(i)) ==> #[trigger] ends@.contains(i as u8),
                        flags & NARROWING_FLAGS == 0 ==> flags & 1 == 0 && flags & 2 == 0 && flags & 8 == 0,
                        1 <= wi <= workers@.len(),
                        workers@[wi - 1] == worker_start_pos,
                        flags & NARROWING_FLAGS == 0 ==> forall|data: u32| #[trigger] is_hydra_turn(*state, player, must_climb, data) && field_at(data, 0)
                            == worker_start_pos && !is_winning_data(data) && field_at(data, 5) == worker_end_pos && (exists|j: int| 0 <= j < bi - 1
                            && builds@[j] as u32 == field_at(data, 10)) ==> lists_word(result@, data),
                        flags & NARROWING_FLAGS == 0 ==> forall|b: int| 0 <= b < 25 && #[trigger] is_standard_build_for(*state, player, worker_start_pos as int, worker_end_pos as int, b) ==> builds@.contains(b as u8),
                        1 <= ei <= ends@.len(),
                        ends@[ei - 1] == worker_end_pos,
                            flags & NARROWING_FLAGS == 0 ==> forall|data: u32| #[trigger] is_hydra_turn(*state, player, must_climb, data) && field_at(data, 0)
                        == worker_start_pos && !is_winning_data(data) && field_at(data, 5) == worker_end_pos && field_at(data, 10) == worker_build_pos && (exists|j: int| 0 <= j < si
                                && spots@[j] as u32 == field_at(data, 15)) ==> lists_word(result@, data),
                            flags & NARROWING_FLAGS == 0 ==> forall|i: int| 0 <= i < 25 && #[trigger] is_lowest_hydra_spot(state.board, worker_start_pos as int, worker_end_pos as int, worker_build_pos as int, i)
                                ==> spots@.contains(i as u8),
                            1 <= bi <= builds@.len(),
                            builds@[bi - 1] == worker_build_pos,
                        decreases spots@.len() - si,
                    {
                        let worker_to_add_pos = spots[si];
                        si = si + 1;
                        let new_action = HydraMove::new_basic_move(worker_start_pos, worker_end_pos, worker_build_pos, worker_to_add_pos);
                        let worker_to_add_mask = BitBoard::as_mask(worker_to_add_pos);
                        let is_final_worker_on_level_2 = final_level_2.and(worker_to_add_mask).is_not_empty();
                        let final_threats = if is_final_worker_on_level_2 {
                            after_move_threats.or(worker_to_add_mask)
                        } else {
                            after_move_threats
                        };
                        let final_reach = if is_final_worker_on_level_2 {
                            after_move_reach.or(neighbor_mask(worker_to_add_pos))
                        } else {
                            after_move_reach
                        };
                        let is_check = if prelude.is_against_hypnus && final_threats.count_ones() < 2 {
                            false
                        } else {
                            final_reach.and(final_level_3).and(unblocked_squares).minus(worker_to_add_mask).is_not_empty()
                        };
                        let ghost before = result@;
                        result.push(build_scored_move(flags, new_action.to_generic(), is_check, true));
                        proof {
                            lemma_lists_word_grows(before, result@);
                            assert(result@[before.len() as int].action.0 == hydra_data(worker_start_pos as u32, worker_end_pos as u32, worker_build_pos as u32, worker_to_add_pos as u32));
                            lemma_hydra_move_round_trip(
                                worker_start_pos as u32,
                                worker_end_pos as u32,
                                worker_build_pos as u32,
                                worker_to_add_pos as u32,
                            );
                            assert forall|k: int| 0 <= k < result@.len() implies #[trigger] is_hydra_turn(
                                *state,
                                player,
                                must_climb,
                                result@[k].action.0,
                            ) by {
                                if k < before.len() {
                                    assert(result@[k] == before[k]);
                                }
                            }
                        }
                    }
                    proof {
                        if flags & NARROWING_FLAGS == 0 {
                            assert forall|data: u32| #[trigger] is_hydra_turn(*state, player, must_climb, data) && field_at(data, 0)
                            == worker_start_pos && !is_winning_data(data) && field_at(data, 5) == worker_end_pos && (exists|j: int| 0 <= j < bi
                                && builds@[j] as u32 == field_at(data, 10)) implies lists_word(result@, data) by {
                                let j = choose|j: int| 0 <= j < bi && builds@[j] as u32 == field_at(data, 10);
                                if j == bi - 1 {
                                    let q = field_at(data, 15);
                                    assert(spots@.contains(q as u8));
                                    let jq = choose|jq: int| 0 <= jq < spots@.len() && spots@[jq] == q as u8;
                                    assert(spots@[jq] as u32 == field_at(data, 15));
                                }
                            }
                        }
                    }
                }
                proof {
                    if flags & NARROWING_FLAGS == 0 {
                        assert forall|data: u32| #[trigger] is_hydra_turn(*state, player, must_climb, data) && field_at(data, 0)
                            == worker_start_pos && !is_winning_data(data) && (exists|j: int| 0 <= j < ei && ends@[j] as u32 == field_at(data, 5))
                            implies lists_word(result@, data) by {
                            let j = choose|j: int| 0 <= j < ei && ends@[j] as u32 == field_at(data, 5);
                            if j == ei - 1 {
                                let b = field_at(data, 10);
                                assert(is_standard_build_for(*state, player, worker_start_pos as int, worker_end_pos as int, b as int));
                                assert(builds@.contains(b as u8));
                                let jb = choose|jb: int| 0 <= jb < builds@.len() && builds@[jb] == b as u8;
                                assert(builds@[jb] as u32 == field_at(data, 10));
                            }
                        }
                    }
                }
            } else {
                let end_on_level_2 = worker_end_move_state.worker_end_height == 2;
                let after_move_threats = if end_on_level_2 {
                    threatening_others.or(worker_end_move_state.worker_end_mask)
                } else {
                    threatening_others
                };
                let after_move_double_reach = if end_on_level_2 {
                    other_worker_double_reach.or(other_worker_reach.and(end_neighbors))
                } else {
                    other_worker_double_reach
                };
                let after_move_reach = if end_on_level_2 {
                    other_worker_reach.or(end_neighbors)
                } else {
                    other_worker_reach
                };
                let builds = worker_next_build_state.narrowed_builds.squares();
                let removable = own_workers_after_move.squares();
                proof {
                    if flags & NARROWING_FLAGS == 0 {
                        assert forall|b: int| 0 <= b < 25 && #[trigger] is_standard_build_for(*state, player, worker_start_pos as int, worker_end_pos as int, b)
                            implies builds@.contains(b as u8) by {
                            assert(worker_next_build_state.all_possible_builds.has(b));
                        }
                        assert forall|i: int| 0 <= i < 25 && #[trigger] is_own_after(state.board, player.idx(), worker_start_pos as int, worker_end_pos as int, i)
                            implies removable@.contains(i as u8) by {
                            assert(own_workers_after_move.has(i));
                        }
                    }
                }
                let mut bi: usize = 0;
                while bi < builds.len()
                    invariant
                        flags & NARROWING_FLAGS == 0 && state.gods[1 - player.idx()].is_persephone_spec() && !must_climb ==> forall|d: u32|
                            !#[trigger] is_hydra_turn(*state, player, true, d),
                        bi <= builds@.len(),
                        prelude.inv(),
                        prelude.board == state.board,
                        prelude.player == player,
                        prelude.other_god == state.gods[1 - player.idx()],
                        worker_start_pos < 25,
                        worker_end_pos < 25,
                        worker_end_move_state.worker_end_pos == worker_end_pos,
                        is_acting_worker(*state, player, worker_start_pos as int),
                        is_standard_step(state.board, worker_start_pos as int, worker_end_pos as int, must_climb),
                        !is_win_step(false, state.board.height(worker_start_pos as int), state.board.height(worker_end_pos as int)),
                        !hydra_workers_apart(state.board, player.idx(), worker_start_pos as int, worker_end_pos as int),
                        worker_next_build_state.describes(prelude, worker_start_pos as int, worker_end_pos as int),
                        forall|k: int| 0 <= k < builds@.len() ==> #[trigger] builds@[k] < 25
                            && worker_next_build_state.narrowed_builds.has(builds@[k] as int),
                        flags & NARROWING_FLAGS == 0 ==> forall|data: u32| #[trigger] is_hydra_turn(*state, player, must_climb, data) && (exists|j: int|
                            0 <= j < wi - 1 && workers@[j] as u32 == field_at(data, 0)) ==> lists_word(result@, data),
                        flags & NARROWING_FLAGS == 0 ==> forall|data: u32| #[trigger] is_hydra_turn(*state, player, must_climb, data) && field_at(data, 0)
                            == worker_start_pos && is_winning_data(data) ==> lists_word(result@, data),
                        flags & NARROWING_FLAGS == 0 ==> forall|data: u32| #[trigger] is_hydra_turn(*state, player, must_climb, data) && field_at(data, 0)
                            == worker_start_pos && !is_winning_data(data) && (exists|j: int| 0 <= j < ei - 1 && ends@[j] as u32 == field_at(data, 5))
                            ==> lists_word(result@, data),
                        flags & NARROWING_FLAGS == 0 ==> forall|i: int| 0 <= i < 25 && is_standard_step(state.board, worker_start_pos as int, i, must_climb)
                            && !is_win_step(false, state.board.height(worker_start_pos as int), state.board.height(i)) ==> #[trigger] ends@.contains(i as u8),
                        flags & NARROWING_FLAGS == 0 ==> flags & 1 == 0 && flags & 2 == 0 && flags & 8 == 0,
                        1 <= wi <= workers@.len(),
                        workers@[wi - 1] == worker_start_pos,
                        flags & NARROWING_FLAGS == 0 ==> forall|data: u32| #[trigger] is_hydra_turn(*state, player, must_climb, data) && field_at(data, 0)
                            == worker_start_pos && !is_winning_data(data) && field_at(data, 5) == worker_end_pos && (exists|j: int| 0 <= j < bi
                            && builds@[j] as u32 == field_at(data, 10)) ==> lists_word(result@, data),
                        flags & NARROWING_FLAGS == 0 ==> forall|b: int| 0 <= b < 25 && #[trigger] is_standard_build_for(*state, player, worker_start_pos as int, worker_end_pos as int, b) ==> builds@.contains(b as u8),
                        1 <= ei <= ends@.len(),
                        ends@[ei - 1] == worker_end_pos,
                        flags & NARROWING_FLAGS == 0 ==> forall|i: int| 0 <= i < 25 && #[trigger] is_own_after(state.board, player.idx(), worker_start_pos as int, worker_end_pos as int, i)
                            ==> removable@.contains(i as u8),
                        forall|k: int| 0 <= k < removable@.len() ==> #[trigger] removable@[k] < 25 && is_own_after(
                            state.board,
                            player.idx(),
                            worker_start_pos as int,
                            worker_end_pos as int,
                            removable@[k] as int,
                        ),
                        forall|k: int| 0 <= k < result@.len() ==> #[trigger] is_hydra_turn(*state, player, must_climb, result@[k].action.0),
                    decreases builds@.len() - bi,
                {
                    let worker_build_pos = builds[bi];
                    bi = bi + 1;
                    let worker_build_mask = BitBoard::as_mask(worker_build_pos);
                    let final_level_3 = prelude.exactly_level_2.and(worker_build_mask).or(prelude.exactly_level_3.minus(worker_build_mask)).and(
                        prelude.win_mask,
                    );
                    proof {
                        assert(worker_next_build_state.narrowed_builds.has(worker_build_pos as int));
                    }
                    let mut ri: usize = 0;
                    while ri < removable.len()
                        invariant
                            flags & NARROWING_FLAGS == 0 && state.gods[1 - player.idx()].is_persephone_spec() && !must_climb ==> forall|d: u32|
                                !#[trigger] is_hydra_turn(*state, player, true, d),
                            ri <= removable@.len(),
                            prelude.inv(),
                            prelude.board == state.board,
                            worker_start_pos < 25,
                            worker_end_pos < 25,
                            worker_build_pos < 25,
                            worker_end_move_state.worker_end_pos == worker_end_pos,
                            is_acting_worker(*state, player, worker_start_pos as int),
                            is_standard_step(state.board, worker_start_pos as int, worker_end_pos as int, must_climb),
                            !is_win_step(false, state.board.height(worker_start_pos as int), state.board.height(worker_end_pos as int)),
                            !hydra_workers_apart(state.board, player.idx(), worker_start_pos as int, worker_end_pos as int),
                            is_standard_build_for(*state, player, worker_start_pos as int, worker_end_pos as int, worker_build_pos as int),
                            forall|k: int| 0 <= k < removable@.len() ==> #[trigger] removable@[k] < 25 && is_own_after(
                                state.board,
                                player.idx(),
                                worker_start_pos as int,
                                worker_end_pos as int,
                                removable@[k] as int,
                            ),
                            forall|k: int| 0 <= k < result@.len() ==> #[trigger] is_hydra_turn(*state, player, must_climb, result@[k].action.0),
                        flags & NARROWING_FLAGS == 0 ==> forall|data: u32| #[trigger] is_hydra_turn(*state, player, must_climb, data) && (exists|j: int|
                            0 <= j < wi - 1 && workers@[j] as u32 == field_at(data, 0)) ==> lists_word(result@, data),
                        flags & NARROWING_FLAGS == 0 ==> forall|data: u32| #[trigger] is_hydra_turn(*state, player, must_climb, data) && field_at(data, 0)
                            == worker_start_pos && is_winning_data(data) ==> lists_word(result@, data),
                        flags & NARROWING_FLAGS == 0 ==> forall|data: u32| #[trigger] is_hydra_turn(*state, player, must_climb, data) && field_at(data, 0)
                            == worker_start_pos && !is_winning_data(data) && (exists|j: int| 0 <= j < ei - 1 && ends@[j] as u32 == field_at(data, 5))
                            ==> lists_word(result@, data),
                        flags & NARROWING_FLAGS == 0 ==> forall|i: int| 0 <= i < 25 && is_standard_step(state.board, worker_start_pos as int, i, must_climb)
                            && !is_win_step(false, state.board.height(worker_start_pos as int), state.board.height(i)) ==> #[trigger] ends@.contains(i as u8),
                        flags & NARROWING_FLAGS == 0 ==> flags & 1 == 0 && flags & 2 == 0 && flags & 8 == 0,
                        1 <= wi <= workers@.len(),
                        workers@[wi - 1] == worker_start_pos,
                        flags & NARROWING_FLAGS == 0 ==> forall|data: u32| #[trigger] is_hydra_turn(*state, player, must_climb, data) && field_at(data, 0)
                            == worker_start_pos && !is_winning_data(data) && field_at(data, 5) == worker_end_pos && (exists|j: int| 0 <= j < bi - 1
                            && builds@[j] as u32 == field_at(data, 10)) ==> lists_word(result@, data),
                        flags & NARROWING_FLAGS == 0 ==> forall|b: int| 0 <= b < 25 && #[trigger] is_standard_build_for(*state, player, worker_start_pos as int, worker_end_pos as int, b) ==> builds@.contains(b as u8),
                        1 <= ei <= ends@.len(),
                        ends@[ei - 1] == worker_end_pos,
                            flags & NARROWING_FLAGS == 0 ==> forall|data: u32| #[trigger] is_hydra_turn(*state, player, must_climb, data) && field_at(data, 0)
                        == worker_start_pos && !is_winning_data(data) && field_at(data, 5) == worker_end_pos && field_at(data, 10) == worker_build_pos && (exists|j: int| 0 <= j < ri
                                && removable@[j] as u32 == field_at(data, 15)) ==> lists_word(result@, data),
                            flags & NARROWING_FLAGS == 0 ==> forall|i: int| 0 <= i < 25 && #[trigger] is_own_after(state.board, player.idx(), worker_start_pos as int, worker_end_pos as int, i)
                                ==> removable@.contains(i as u8),
                            1 <= bi <= builds@.len(),
                            builds@[bi - 1] == worker_build_pos,
                        decreases removable@.len() - ri,
                    {
                        let worker_to_remove_pos = removable[ri];
                        ri = ri + 1;
                        let new_action = HydraMove::new_basic_move(worker_start_pos, worker_end_pos, worker_build_pos, worker_to_remove_pos);
                        let is_improving = worker_end_move_state.is_improving && worker_to_remove_pos != worker_end_pos;
                        let final_unblocked = unblocked_squares.or(BitBoard::as_mask(worker_to_remove_pos));
                        let is_check = if prelude.board.get_height(worker_to_remove_pos) == 2 {
                            if prelude.is_against_hypnus && after_move_threats.count_ones() < 3 {
                                false
                            } else {
                                let final_reach = after_move_reach.xor(neighbor_mask(worker_to_remove_pos)).or(after_move_double_reach);
                                final_reach.and(final_level_3).and(final_unblocked).is_not_empty()
                            }
                        } else {
                            if prelude.is_against_hypnus && after_move_threats.count_ones() < 2 {
                                false
                            } else {
                                after_move_reach.and(final_level_3).and(final_unblocked).is_not_empty()
                            }
                        };
                        let ghost before = result@;
                        result.push(build_scored_move(flags, new_action.to_generic(), is_check, is_improving));
                        proof {
                            lemma_lists_word_grows(before, result@);
                            assert(result@[before.len() as int].action.0 == hydra_data(worker_start_pos as u32, worker_end_pos as u32, worker_build_pos as u32, worker_to_remove_pos as u32));
                            lemma_hydra_move_round_trip(
                                worker_start_pos as u32,
                                worker_end_pos as u32,
                                worker_build_pos as u32,
                                worker_to_remove_pos as u32,
                            );
                            assert forall|k: int| 0 <= k < result@.len() implies #[trigger] is_hydra_turn(
                                *state,
                                player,
                                must_climb,
                                result@[k].action.0,
                            ) by {
                                if k < before.len() {
                                    assert(result@[k] == before[k]);
                                }
                            }
                        }
                    }
                    proof {
                        if flags & NARROWING_FLAGS == 0 {
                            assert forall|data: u32| #[trigger] is_hydra_turn(*state, player, must_climb, data) && field_at(data, 0)
                            == worker_start_pos && !is_winning_data(data) && field_at(data, 5) == worker_end_pos && (exists|j: int| 0 <= j < bi
                                && builds@[j] as u32 == field_at(data, 10)) implies lists_word(result@, data) by {
                                let j = choose|j: int| 0 <= j < bi && builds@[j] as u32 == field_at(data, 10);
                                if j == bi - 1 {
                                    let q = field_at(data, 15);
                                    assert(removable@.contains(q as u8));
                                    let jq = choose|jq: int| 0 <= jq < removable@.len() && removable@[jq] == q as u8;
                                    assert(removable@[jq] as u32 == field_at(data, 15));
                                }
                            }
                        }
                    }
                }
                proof {
                    if flags & NARROWING_FLAGS == 0 {
                        assert forall|data: u32| #[trigger] is_hydra_turn(*state, player, must_climb, data) && field_at(data, 0)
                            == worker_start_pos && !is_winning_data(data) && (exists|j: int| 0 <= j < ei && ends@[j] as u32 == field_at(data, 5))
                            implies lists_word(result@, data) by {
                            let j = choose|j: int| 0 <= j < ei && ends@[j] as u32 == field_at(data, 5);
                            if j == ei - 1 {
                                let b = field_at(data, 10);
                                assert(is_standard_build_for(*state, player, worker_start_pos as int, worker_end_pos as int, b as int));
                                assert(builds@.contains(b as u8));
                                let jb = choose|jb: int| 0 <= jb < builds@.len() && builds@[jb] == b as u8;
                                assert(builds@[jb] as u32 == field_at(data, 10));
                            }
                        }
                    }
                }
            }
        }
        proof {
            if flags & NARROWING_FLAGS == 0 {
                assert forall|data: u32| #[trigger] is_hydra_turn(*state, player, must_climb, data) && (exists|j: int|
                    0 <= j < wi && workers@[j] as u32 == field_at(data, 0)) implies lists_word(result@, data) by {
                    let j = choose|j: int| 0 <= j < wi && workers@[j] as u32 == field_at(data, 0);
                    if j == wi - 1 && !is_winning_data(data) {
                        let to = field_at(data, 5);
                        assert(ends@.contains(to as u8));
                        let je = choose|je: int| 0 <= je < ends@.len() && ends@[je] == to as u8;
                        assert(ends@[je] as u32 == field_at(data, 5));
                    }
                }
            }
        }
    }
    proof {
        if flags & NARROWING_FLAGS == 0 {
            assert forall|data: u32| #[trigger] hydra_turn_owed(*state, player, must_climb, data) implies lists_word(result@, data) by {
                let f = field_at(data, 0);
                lemma_acting_in_prelude(*state, player, prelude.own_workers, initial_acting, f as int);
                assert(workers@.contains(f as u8));
                let j = choose|j: int| 0 <= j < workers@.len() && workers@[j] == f as u8;
                assert(workers@[j] as u32 == field_at(data, 0));
            }
        }
    }
    result
}

/// Hydra's fixed data.
pub fn build_hydra() -> (r: GodPower)
    ensures
        r.god_name == GodName::Hydra,
        r.hash1 == 2854659210591727588u64,
        r.hash2 == 10142526825370404391u64,
        r.placement_type == PlacementType::Normal,
        r.symmetry == BoardSymmetry::Full,
        !r.is_persephone,
{
    god_power(GodName::Hydra, 2854659210591727588, 10142526825370404391)
}

/// How a turn of this god changes the board: the workers, the heights, the god data and the
/// winner after it, and whose turn it is, are those of `after`.
pub open spec fn hydra_move_effect(before: BoardState, after: BoardState, player: Player, data: u32) -> bool {
    &&& after.current_player == before.current_player
    &&& after.god_data == before.god_data
    &&& after.workers[1 - player.idx()] == before.workers[1 - player.idx()]
    &&& (is_winning_data(data) ==> after.winner == Some(player) && after.height_map == before.height_map && after.workers[player.idx()].0 == before.workers[player.idx()].0 ^ ((1u32 << field_at(data, 0)) ^ (1u32 << field_at(data, 5))))
    &&& (!is_winning_data(data) ==> after.winner == before.winner && after.workers[player.idx()].0 == before.workers[player.idx()].0 ^ ((1u32 << field_at(data, 0)) ^ (1u32 << field_at(data, 5)) ^ (1u32 << field_at( data, 15, ))))
    &&& (!is_winning_data(data) ==> forall|i: int| #[trigger] after.height(i) == (if i == field_at(data, 10) { before.height(i) + 1 } else { before.height(i) }))
}

} // verus!
