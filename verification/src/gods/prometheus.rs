use vstd::prelude::*;

use crate::bitboard::{apply_neighbor_map_to_mask, bit, group_bit_lemmas, lower_squares, neighbor_mask, popcount, BitBoard, MAIN_SECTION};
use crate::board::{BoardState, FullGameState, Player};
use crate::generic::{
    build_scored_move, field_at, is_interact_with_key_squares, is_mate_only, is_winning_data, lemma_pack3, lemma_pack4,
    read_position, GenericMove, MoveData, MoveGenFlags, ScoredMove, ANY_MOVE_FILTER, MOVE_DATA_MAIN_SECTION,
    MOVE_IS_WINNING_MASK, NARROWING_FLAGS,
};
use crate::gods::mortal::{
    lemma_acting_in_prelude, lemma_lists_word_grows, lists_word, is_acting_worker, is_standard_build_for, is_win_step, lemma_climbing_turn_is_turn, lemma_mortal_move_round_trip,
    lemma_move_worker_keeps_wf, lemma_prelude_acting, mortal_winning_data,
};
use crate::gods::move_helpers::{
    build_mask_allows, get_basic_moves, get_generator_prelude_state, get_sized_result, get_standard_reach_board,
    get_worker_end_move_state, get_worker_next_build_state, get_worker_start_move_state, is_standard_step, is_winning_entry,
    modify_prelude_for_checking_workers, push_winning_moves, WorkerNextMoveState,
};
use crate::square::{is_adjacent, is_square, Square};
use crate::gods::{BoardSymmetry, PlacementType, god_power, GodName, GodPower};

verus! {

/// A Prometheus turn: a plain move and build, optionally preceded by a build.
#[derive(Clone, Copy, PartialEq, Eq, Structural, Debug)]
pub struct PrometheusMove(pub MoveData);

impl PrometheusMove {
    pub fn new_basic_move(move_from_position: Square, move_to_position: Square, build_position: Square) -> (r: Self)
        requires
            move_from_position < 25,
            move_to_position < 25,
            build_position < 25,
        ensures
            r.0 == (move_from_position as u32) | ((move_to_position as u32) << 5u32) | ((build_position as u32) << 10u32) | (25u32 << 15u32),
    {
        Self((move_from_position as u32) | ((move_to_position as u32) << 5u32) | ((build_position as u32) << 10u32) | (25u32 << 15u32))
    }

    /// A turn that builds before moving, then moves without climbing and builds again.
    pub fn new_pre_build_move(move_from_position: Square, move_to_position: Square, build_position: Square, pre_build_position: Square) -> (r: Self)
        requires
            move_from_position < 25,
            move_to_position < 25,
            build_position < 25,
            pre_build_position < 25,
        ensures
            r.0 == (move_from_position as u32) | ((move_to_position as u32) << 5u32) | ((build_position as u32) << 10u32) | ((pre_build_position as u32) << 15u32),
    {
        Self((move_from_position as u32) | ((move_to_position as u32) << 5u32) | ((build_position as u32) << 10u32) | ((pre_build_position as u32) << 15u32))
    }

    pub fn new_winning_move(move_from_position: Square, move_to_position: Square) -> (r: Self)
        requires
            move_from_position < 25,
            move_to_position < 25,
        ensures
            r.0 == (move_from_position as u32) | ((move_to_position as u32) << 5u32) | MOVE_IS_WINNING_MASK,
    {
        Self((move_from_position as u32) | ((move_to_position as u32) << 5u32) | MOVE_IS_WINNING_MASK)
    }

    pub fn move_from_position(&self) -> (r: Square)
        ensures
            r == field_at(self.0, 0),
            r < 32,
    {
        read_position(self.0, 0)
    }

    pub fn move_to_position(&self) -> (r: Square)
        ensures
            r == field_at(self.0, 5),
            r < 32,
    {
        read_position(self.0, 5)
    }

    pub fn build_position(self) -> (r: Square)
        ensures
            r == field_at(self.0, 10),
            r < 32,
    {
        read_position(self.0, 10)
    }

    /// The build made before the move, if any.
    pub fn pre_build_position(self) -> (r: Option<Square>)
        ensures
            field_at(self.0, 15) < 32,
            r == (if field_at(self.0, 15) == 25 {
                None
            } else {
                Some(field_at(self.0, 15) as u8)
            }),
    {
        let value = read_position(self.0, 15);
        if value == 25 {
            None
        } else {
            Some(value)
        }
    }

    /// The start and end squares of the moving worker.
    pub fn move_mask(self) -> (r: BitBoard)
        ensures
            r.0 == (1u32 << field_at(self.0, 0)) | (1u32 << field_at(self.0, 5)),
    {
        BitBoard::as_mask(self.move_from_position()).or(BitBoard::as_mask(self.move_to_position()))
    }

    pub fn get_is_winning(&self) -> (r: bool)
        ensures
            r == is_winning_data(self.0),
    {
        (self.0 & MOVE_IS_WINNING_MASK) != 0
    }
}

/// A Prometheus move reads back what it was built from, and stays clear of the flags.
pub proof fn lemma_prometheus_move_round_trip(move_from: u32, move_to: u32, build: u32, pre_build: u32)
    requires
        move_from < 25,
        move_to < 25,
        build < 25,
        pre_build <= 25,
    ensures
        field_at(move_from | (move_to << 5u32) | (build << 10u32) | (pre_build << 15u32), 0) == move_from,
        field_at(move_from | (move_to << 5u32) | (build << 10u32) | (pre_build << 15u32), 5) == move_to,
        field_at(move_from | (move_to << 5u32) | (build << 10u32) | (pre_build << 15u32), 10) == build,
        field_at(move_from | (move_to << 5u32) | (build << 10u32) | (pre_build << 15u32), 15) == pre_build,
        !is_winning_data(move_from | (move_to << 5u32) | (build << 10u32) | (pre_build << 15u32)),
        (move_from | (move_to << 5u32) | (build << 10u32) | (pre_build << 15u32)) & MOVE_DATA_MAIN_SECTION == move_from | (move_to << 5u32) | (build << 10u32) | (pre_build << 15u32),
{
    lemma_pack4(move_from, move_to, build, pre_build);
}

pub open spec fn prometheus_plain_data(from: u32, to: u32, build: u32) -> u32 {
    from | (to << 5u32) | (build << 10u32) | (25u32 << 15u32)
}

pub open spec fn prometheus_pre_build_data(from: u32, to: u32, build: u32, pre_build: u32) -> u32 {
    from | (to << 5u32) | (build << 10u32) | (pre_build << 15u32)
}

/// The height of `x` once `pre_build` has been built up.
pub open spec fn height_after_pre_build(board: BoardState, pre_build: int, x: int) -> nat {
    board.height(x) + if x == pre_build {
        1nat
    } else {
        0nat
    }
}

/// A legal Prometheus turn read off its word: a plain turn; or a build next to the worker, then
/// a step that does not climb, then a build next to where it landed.
pub open spec fn is_prometheus_turn(state: FullGameState, player: Player, must_climb: bool, data: u32) -> bool {
    let board = state.board;
    let other = state.gods[1 - player.idx()];
    let from = field_at(data, 0);
    let to = field_at(data, 5);
    let build = field_at(data, 10);
    let pre = field_at(data, 15);
    &&& is_acting_worker(state, player, from as int)
    &&& if is_winning_data(data) {
        &&& data == mortal_winning_data(from, to)
        &&& is_standard_step(board, from as int, to as int, must_climb)
        &&& is_win_step(false, board.height(from as int), board.height(to as int))
    } else if pre == 25 {
        &&& data == prometheus_plain_data(from, to, build)
        &&& is_standard_step(board, from as int, to as int, must_climb)
        &&& !is_win_step(false, board.height(from as int), board.height(to as int))
        &&& is_standard_build_for(state, player, from as int, to as int, build as int)
    } else {
        &&& !must_climb
        &&& data == prometheus_pre_build_data(from, to, build, pre)
        &&& is_adjacent(from as int, pre as int)
        &&& !board.occupied(pre as int)
        &&& board.height(pre as int) < 4
        &&& build_mask_allows(other, board, player, pre as int)
        &&& is_adjacent(from as int, to as int)
        &&& !board.occupied(to as int)
        &&& height_after_pre_build(board, pre as int, to as int) <= board.height(from as int)
        &&& height_after_pre_build(board, pre as int, to as int) < 4
        &&& is_adjacent(to as int, build as int)
        &&& (!board.occupied(build as int) || build == from)
        &&& height_after_pre_build(board, pre as int, build as int) < 4
        &&& build_mask_allows(other, board, player, build as int)
    }
}

/// A climb owed turn is a turn.
pub proof fn lemma_prometheus_climb_is_turn(state: FullGameState, player: Player, data: u32)
    ensures
        is_prometheus_turn(state, player, true, data) ==> is_prometheus_turn(state, player, false, data),
{
}

impl PrometheusMove {
    /// Plays the turn: the worker moves, and either wins or builds; a pre-build is then added.
    pub fn make_move(self, board: &mut BoardState, player: Player)
        requires
            old(board).wf(),
            field_at(self.0, 0) < 25,
            field_at(self.0, 5) < 25,
            is_adjacent(field_at(self.0, 0) as int, field_at(self.0, 5) as int),
            old(board).workers[player.idx()].has(field_at(self.0, 0) as int),
            !old(board).occupied(field_at(self.0, 5) as int),
            !is_winning_data(self.0) ==> field_at(self.0, 10) < 25,
            !is_winning_data(self.0) && field_at(self.0, 15) == 25 ==> old(board).height(field_at(self.0, 10) as int) < 4,
            !is_winning_data(self.0) && field_at(self.0, 15) != 25 ==> field_at(self.0, 15) < 25 && old(board).height(
                field_at(self.0, 15) as int,
            ) < 4 && height_after_pre_build(*old(board), field_at(self.0, 15) as int, field_at(self.0, 10) as int) < 4,
        ensures
            final(board).wf(),
            final(board).current_player == old(board).current_player,
            final(board).god_data == old(board).god_data,
            final(board).workers[1 - player.idx()] == old(board).workers[1 - player.idx()],
            final(board).workers[player.idx()].0 == old(board).workers[player.idx()].0 ^ ((1u32 << field_at(self.0, 0)) | (1u32
                << field_at(self.0, 5))),
            is_winning_data(self.0) ==> final(board).winner == Some(player) && final(board).height_map == old(board).height_map,
            !is_winning_data(self.0) ==> final(board).winner == old(board).winner,
    {
        let ghost before = *board;
        let mask = BitBoard::as_mask(self.move_from_position()).or(BitBoard::as_mask(self.move_to_position()));
        proof {
            crate::gods::jason::lemma_or_is_xor(field_at(self.0, 0), field_at(self.0, 5));
        }
        board.worker_xor(player, mask);
        proof {
            lemma_move_worker_keeps_wf(before, *board, player, field_at(self.0, 0), field_at(self.0, 5));
        }
        if self.get_is_winning() {
            board.set_winner(player);
            return;
        }
        board.build_up(self.build_position());
        match self.pre_build_position() {
            Some(pre_build) => board.build_up(pre_build),
            None => {},
        }
    }

    pub fn to_generic(self) -> (r: GenericMove)
        ensures
            r.0 == self.0,
    {
        GenericMove(self.0)
    }
}

/// What playing a Prometheus turn needs, read off the turn.
pub proof fn lemma_prometheus_turn_playable(state: FullGameState, player: Player, data: u32)
    requires
        state.board.wf(),
        is_prometheus_turn(state, player, false, data),
    ensures
        field_at(data, 0) < 25,
        field_at(data, 5) < 25,
        is_adjacent(field_at(data, 0) as int, field_at(data, 5) as int),
        state.board.workers[player.idx()].has(field_at(data, 0) as int),
        !state.board.occupied(field_at(data, 5) as int),
        !is_winning_data(data) ==> field_at(data, 10) < 25,
        !is_winning_data(data) && field_at(data, 15) == 25 ==> state.board.height(field_at(data, 10) as int) < 4,
        !is_winning_data(data) && field_at(data, 15) != 25 ==> field_at(data, 15) < 25 && state.board.height(
            field_at(data, 15) as int,
        ) < 4 && height_after_pre_build(state.board, field_at(data, 15) as int, field_at(data, 10) as int) < 4,
{
    assert(state.board.workers[player.idx()].within_board());
}

/// The turns the generator owes with no narrowing filter on: every legal turn, except a pre-build
/// turn whose two builds come in the order that is listed the other way round, and a pre-build
/// turn of a worker standing on a dome; against Persephone, when a climb exists, only the climbing
/// ones.
pub open spec fn prometheus_turn_owed(state: FullGameState, player: Player, must_climb: bool, data: u32) -> bool {
    &&& is_prometheus_turn(state, player, must_climb, data)
    &&& !is_swapped_build_order(state, player, data)
    &&& !is_winning_data(data) && field_at(data, 15) != 25 ==> state.board.height(field_at(data, 0) as int) < 4
    &&& (state.gods[1 - player.idx()].is_persephone_spec() && !must_climb && exists|d: u32| #[trigger] is_prometheus_turn(state, player, true, d))
        ==> is_prometheus_turn(state, player, true, data)
}

/// Prometheus' move generator: plain turns, and, when no climb is owed, turns that build before
/// moving without climbing. Of two builds that could be made in either order, one order is kept.
pub fn prometheus_move_gen(
    flags: MoveGenFlags,
    state: &FullGameState,
    player: Player,
    key_squares: BitBoard,
    must_climb: bool,
) -> (result: Vec<ScoredMove>)
    requires
        state.board.wf(),
    ensures
        forall|k: int| 0 <= k < result@.len() ==> #[trigger] is_prometheus_turn(*state, player, must_climb, result@[k].action.0),
        flags & NARROWING_FLAGS == 0 ==> forall|data: u32| #[trigger] prometheus_turn_owed(*state, player, must_climb, data) ==> lists_word(
            result@,
            data,
        ),
        flags & NARROWING_FLAGS == 0 && state.gods[1 - player.idx()].is_persephone_spec() && !must_climb && (exists|d: u32|
            #[trigger] is_prometheus_turn(*state, player, true, d)) ==> forall|k: int| 0 <= k < result@.len()
            ==> #[trigger] is_prometheus_turn(*state, player, true, result@[k].action.0),
    decreases if must_climb {
        0int
    } else {
        1int
    },
{
    broadcast use group_bit_lemmas;

    proof {
        crate::generic::lemma_no_flags(flags);
    }
    let mut result = if state.gods[player.other().index()].is_persephone() && !must_climb {
        let climbing = prometheus_move_gen(flags, state, player, key_squares, true);
        proof {
            assert forall|k: int| 0 <= k < climbing@.len() implies #[trigger] is_prometheus_turn(
                *state,
                player,
                must_climb,
                climbing@[k].action.0,
            ) by {
                assert(is_prometheus_turn(*state, player, true, climbing@[k].action.0));
                lemma_prometheus_climb_is_turn(*state, player, climbing@[k].action.0);
            }
        }
        if climbing.len() > 0 {
            proof {
                if flags & NARROWING_FLAGS == 0 {
                    assert(is_prometheus_turn(*state, player, true, climbing@[0].action.0));
                    assert forall|data: u32| #[trigger] prometheus_turn_owed(*state, player, must_climb, data) implies lists_word(climbing@, data) by {
                        assert(prometheus_turn_owed(*state, player, true, data));
                    }
                }
            }
            return climbing;
        }
        proof {
            if flags & NARROWING_FLAGS == 0 {
                assert forall|d: u32| !#[trigger] is_prometheus_turn(*state, player, true, d) by {
                    if is_prometheus_turn(*state, player, true, d) {
                        assert(prometheus_turn_owed(*state, player, true, d));
                    }
                }
            }
        }
        if flags & ANY_MOVE_FILTER > 0 {
            let unrestricted = prometheus_move_gen(0, state, player, key_squares, true);
            if unrestricted.len() > 0 {
                return climbing;
            }
        }
        climbing
    } else {
        get_sized_result(flags)
    };
    assert(flags & NARROWING_FLAGS == 0 && state.gods[1 - player.idx()].is_persephone_spec() && !must_climb ==> forall|d: u32|
        !#[trigger] is_prometheus_turn(*state, player, true, d));
    let mut prelude = get_generator_prelude_state(state, player, key_squares);
    let ghost initial_acting = prelude.acting_workers;
    let checkable_mask = prelude.mate_start_mask;
    modify_prelude_for_checking_workers(flags, checkable_mask, &mut prelude);
    let workers = prelude.acting_workers.squares();
    let mut wi: usize = 0;
    while wi < workers.len()
        invariant
            wi <= workers@.len(),
            state.board.wf(),
            prelude.inv(),
            prelude.board == state.board,
            prelude.player == player,
            prelude.other_god == state.gods[1 - player.idx()],
            prelude.own_workers.0 == state.board.workers[player.idx()].0 & MAIN_SECTION,
            prelude.other_god.is_hypnus_spec() ==> initial_acting.0 == crate::gods::hypnus::hypnus_filter_spec(
                state.board.height_map,
                prelude.own_workers.0,
            ),
            !prelude.other_god.is_hypnus_spec() ==> initial_acting == prelude.own_workers,
            forall|i: int| #[trigger] prelude.acting_workers.has(i) ==> initial_acting.has(i),
            forall|k: int| 0 <= k < workers@.len() ==> #[trigger] workers@[k] < 25 && prelude.acting_workers.has(workers@[k] as int),
            forall|k: int| 0 <= k < result@.len() ==> #[trigger] is_prometheus_turn(*state, player, must_climb, result@[k].action.0),
            flags & NARROWING_FLAGS == 0 ==> flags & 1u32 == 0 && flags & 2u32 == 0 && flags & 8u32 == 0,
            flags & NARROWING_FLAGS == 0 ==> prelude.acting_workers == initial_acting,
            flags & NARROWING_FLAGS == 0 && state.gods[1 - player.idx()].is_persephone_spec() && !must_climb ==> forall|d: u32|
                !#[trigger] is_prometheus_turn(*state, player, true, d),
            flags & NARROWING_FLAGS == 0 ==> forall|data: u32| #[trigger] prometheus_turn_owed(*state, player, must_climb, data) && (exists|j: int|
                0 <= j < wi && workers@[j] as u32 == field_at(data, 0)) ==> lists_word(result@, data),
        decreases workers@.len() - wi,
    {
        let ghost r0 = result@;
        let worker_start_pos = workers[wi];
        wi = wi + 1;
        proof {
            lemma_prelude_acting(*state, player, prelude.own_workers, initial_acting, worker_start_pos as int);
        }
        let worker_start_state = get_worker_start_move_state(&prelude, worker_start_pos);
        let mut worker_moves = get_basic_moves(&prelude, &worker_start_state, must_climb);
        let start_height = worker_start_state.worker_start_height;
        if is_mate_only(flags) || worker_start_state.can_mate {
            let moves_to_level_3 = worker_moves.and(worker_start_state.winnable_squares);
            let ghost before = result@;
            let stop = push_winning_moves(flags, &mut result, worker_start_pos, moves_to_level_3, 0);
            proof {
                assert forall|k: int| 0 <= k < result@.len() implies #[trigger] is_prometheus_turn(
                    *state,
                    player,
                    must_climb,
                    result@[k].action.0,
                ) by {
                    if k >= before.len() {
                        assert(is_winning_entry(result@[k], worker_start_pos, moves_to_level_3, 0));
                        let sq = choose|sq: u8| sq < 25 && #[trigger] moves_to_level_3.has(sq as int)
                            && result@[k].action.0 == (worker_start_pos as u32) | ((sq as u32) << 5u32) | 0u32 | MOVE_IS_WINNING_MASK;
                        lemma_mortal_move_round_trip(worker_start_pos as u32, sq as u32, 0);
                        crate::bitboard::lemma_or_zero((worker_start_pos as u32) | ((sq as u32) << 5u32));
                        assert(worker_moves.has(sq as int));
                    } else {
                        assert(result@[k] == before[k]);
                    }
                }
            }
            if stop {
                return result;
            }
            proof {
                if flags & NARROWING_FLAGS == 0 {
                    assert forall|data: u32| #[trigger] prometheus_turn_owed(*state, player, must_climb, data) && field_at(data, 0)
                        == worker_start_pos && is_winning_data(data) implies lists_word(result@, data) by {
                        let to = field_at(data, 5);
                        assert(moves_to_level_3.has(to as int));
                        let k = choose|k: int| before.len() <= k < result@.len() && #[trigger] result@[k].action.0
                            == (worker_start_pos as u32) | (((to as int) as u32) << 5u32) | 0u32 | MOVE_IS_WINNING_MASK;
                        crate::bitboard::lemma_or_zero((worker_start_pos as u32) | ((to as u32) << 5u32));
                        assert(result@[k].action.0 == data);
                    }
                }
            }
            worker_moves = worker_moves.xor(moves_to_level_3);
        }
        let ghost r1 = result@;
        proof {
            lemma_lists_word_grows(r0, r1);
        }
        if is_mate_only(flags) {
            continue;
        }
        proof {
            assert forall|i: int| #[trigger] worker_moves.has(i) implies is_standard_step(state.board, worker_start_pos as int, i, must_climb)
                && !is_win_step(false, state.board.height(worker_start_pos as int), state.board.height(i)) by {
            }
        }
        let other_threatening_workers = worker_start_state.other_own_workers.and(prelude.exactly_level_2);
        let other_threatening_neighbors = apply_neighbor_map_to_mask(other_threatening_workers);
        let unblocked_squares = worker_start_state.all_non_moving_workers.or(prelude.domes_and_frozen).not();
        let pre_build_locations = neighbor_mask(worker_start_pos).and(unblocked_squares).and(prelude.build_mask);
        let ghost r1b = result@;
        if !must_climb {
            proof {
                assert forall|i: int| is_standard_step(state.board, worker_start_pos as int, i, false) && state.board.height(i) <= start_height
                    implies #[trigger] worker_moves.has(i) by {
                    assert(!worker_start_state.winnable_squares.has(i));
                }
            }
            add_pre_build_moves(
                flags,
                state,
                player,
                &prelude,
                &mut result,
                worker_start_pos,
                start_height,
                worker_moves,
                pre_build_locations,
                unblocked_squares,
                other_threatening_workers,
                other_threatening_neighbors,
                worker_start_state.other_own_workers,
            );
        }
        let ghost r2 = result@;
        proof {
            lemma_lists_word_grows(r1b, r2);
        }
        let worker_next_moves = WorkerNextMoveState { other_threatening_workers, other_threatening_neighbors, worker_moves };
        let ends = worker_moves.squares();
        proof {
            if flags & NARROWING_FLAGS == 0 {
                assert forall|i: int| 0 <= i < 25 && is_standard_step(state.board, worker_start_pos as int, i, must_climb)
                    && !is_win_step(false, state.board.height(worker_start_pos as int), state.board.height(i)) implies #[trigger] ends@.contains(
                    i as u8,
                ) by {
                    assert(!worker_start_state.winnable_squares.has(i));
                    assert(worker_moves.has(i));
                }
            }
        }
        let mut ei: usize = 0;
        while ei < ends.len()
            invariant
                ei <= ends@.len(),
                state.board.wf(),
                prelude.inv(),
                prelude.board == state.board,
                prelude.player == player,
                prelude.other_god == state.gods[1 - player.idx()],
                worker_start_pos < 25,
                worker_start_state.describes(prelude, worker_start_pos as int),
                is_acting_worker(*state, player, worker_start_pos as int),
                forall|k: int|
                    0 <= k < ends@.len() ==> #[trigger] ends@[k] < 25 && is_standard_step(
                        state.board,
                        worker_start_pos as int,
                        ends@[k] as int,
                        must_climb,
                    ) && !is_win_step(false, state.board.height(worker_start_pos as int), state.board.height(ends@[k] as int)),
                forall|k: int| 0 <= k < result@.len() ==> #[trigger] is_prometheus_turn(*state, player, must_climb, result@[k].action.0),
                flags & NARROWING_FLAGS == 0 ==> flags & 1u32 == 0 && flags & 2u32 == 0 && flags & 8u32 == 0,
                r2.len() <= result@.len(),
                forall|k: int| 0 <= k < r2.len() ==> #[trigger] result@[k] == r2[k],
                flags & NARROWING_FLAGS == 0 ==> forall|data: u32| #[trigger] prometheus_turn_owed(*state, player, must_climb, data) && field_at(data, 0)
                    == worker_start_pos && !is_winning_data(data) && field_at(data, 15) == 25 && (exists|j: int| 0 <= j < ei && ends@[j] as u32
                    == field_at(data, 5)) ==> lists_word(result@, data),
            decreases ends@.len() - ei,
        {
            let worker_end_pos = ends[ei];
            let worker_end_move_state = get_worker_end_move_state(&prelude, &worker_start_state, worker_end_pos);
            let worker_next_build_state = get_worker_next_build_state(flags, &prelude, &worker_start_state, &worker_end_move_state);
            let reach_board = get_standard_reach_board(
                &prelude,
                &worker_next_moves,
                &worker_end_move_state,
                worker_next_build_state.unblocked_squares,
            );
            let builds = worker_next_build_state.narrowed_builds.squares();
            let ghost re = result@;
            let mut bi: usize = 0;
            while bi < builds.len()
                invariant
                    bi <= builds@.len(),
                    re.len() <= result@.len(),
                    forall|k: int| 0 <= k < re.len() ==> #[trigger] result@[k] == re[k],
                    forall|j: int| 0 <= j < bi ==> #[trigger] lists_word(
                        result@,
                        prometheus_plain_data(worker_start_pos as u32, worker_end_pos as u32, builds@[j] as u32),
                    ),
                    prelude.inv(),
                    prelude.board == state.board,
                    prelude.player == player,
                    prelude.other_god == state.gods[1 - player.idx()],
                    worker_start_pos < 25,
                    worker_end_pos < 25,
                    is_acting_worker(*state, player, worker_start_pos as int),
                    is_standard_step(state.board, worker_start_pos as int, worker_end_pos as int, must_climb),
                    !is_win_step(false, state.board.height(worker_start_pos as int), state.board.height(worker_end_pos as int)),
                    worker_next_build_state.describes(prelude, worker_start_pos as int, worker_end_pos as int),
                    forall|k: int|
                        0 <= k < builds@.len() ==> #[trigger] builds@[k] < 25 && worker_next_build_state.narrowed_builds.has(
                            builds@[k] as int,
                        ),
                    forall|k: int| 0 <= k < result@.len() ==> #[trigger] is_prometheus_turn(*state, player, must_climb, result@[k].action.0),
                decreases builds@.len() - bi,
            {
                let worker_build_pos = builds[bi];
                let build_mask = BitBoard::as_mask(worker_build_pos);
                let final_level_3 = prelude.exactly_level_2.and(build_mask).or(prelude.exactly_level_3.minus(build_mask));
                let is_check = reach_board.and(final_level_3).is_not_empty();
                let action = PrometheusMove::new_basic_move(worker_start_pos, worker_end_pos, worker_build_pos);
                let ghost before = result@;
                result.push(build_scored_move(flags, action.to_generic(), is_check, worker_end_move_state.is_improving));
                proof {
                    lemma_pack4(worker_start_pos as u32, worker_end_pos as u32, worker_build_pos as u32, 25);
                    assert(worker_next_build_state.narrowed_builds.has(worker_build_pos as int));
                    assert forall|k: int| 0 <= k < result@.len() implies #[trigger] is_prometheus_turn(
                        *state,
                        player,
                        must_climb,
                        result@[k].action.0,
                    ) by {
                        if k < before.len() {
                            assert(result@[k] == before[k]);
                        }
                    }
                    lemma_lists_word_grows(before, result@);
                    assert forall|j: int| 0 <= j < bi + 1 implies #[trigger] lists_word(
                        result@,
                        prometheus_plain_data(worker_start_pos as u32, worker_end_pos as u32, builds@[j] as u32),
                    ) by {
                        if j == bi {
                            assert(result@[before.len() as int].action.0 == prometheus_plain_data(
                                worker_start_pos as u32,
                                worker_end_pos as u32,
                                builds@[j] as u32,
                            ));
                        } else {
                            assert(lists_word(before, prometheus_plain_data(worker_start_pos as u32, worker_end_pos as u32, builds@[j] as u32)));
                        }
                    }
                }
                bi = bi + 1;
            }
            proof {
                lemma_lists_word_grows(re, result@);
                if flags & NARROWING_FLAGS == 0 {
                    assert forall|data: u32| #[trigger] prometheus_turn_owed(*state, player, must_climb, data) && field_at(data, 0)
                        == worker_start_pos && !is_winning_data(data) && field_at(data, 15) == 25 && (exists|j: int| 0 <= j < ei + 1
                        && ends@[j] as u32 == field_at(data, 5)) implies lists_word(result@, data) by {
                        let j = choose|j: int| 0 <= j < ei + 1 && ends@[j] as u32 == field_at(data, 5);
                        if j == ei {
                            let b = field_at(data, 10);
                            assert(worker_next_build_state.all_possible_builds.has(b as int));
                            assert(builds@.contains(b as u8));
                            let jb = choose|jb: int| 0 <= jb < builds@.len() && builds@[jb] == b as u8;
                            assert(lists_word(result@, prometheus_plain_data(worker_start_pos as u32, worker_end_pos as u32, builds@[jb] as u32)));
                        } else {
                            assert(lists_word(re, data));
                        }
                    }
                }
            }
            ei = ei + 1;
        }
        proof {
            lemma_lists_word_grows(r2, result@);
            if flags & NARROWING_FLAGS == 0 {
                assert forall|data: u32| #[trigger] prometheus_turn_owed(*state, player, must_climb, data) && (exists|j: int|
                    0 <= j < wi && workers@[j] as u32 == field_at(data, 0)) implies lists_word(result@, data) by {
                    let j = choose|j: int| 0 <= j < wi && workers@[j] as u32 == field_at(data, 0);
                    if j == wi - 1 {
                        if is_winning_data(data) {
                            assert(lists_word(r1, data));
                        } else if field_at(data, 15) != 25 {
                            assert(!must_climb);
                            assert(pre_build_turn_owed(*state, player, worker_start_pos as int, data));
                            assert(lists_word(r2, data));
                        } else {
                            let to = field_at(data, 5);
                            assert(ends@.contains(to as u8));
                            let je = choose|je: int| 0 <= je < ends@.len() && ends@[je] == to as u8;
                            assert(ends@[je] as u32 == field_at(data, 5));
                        }
                    } else {
                        assert(lists_word(r0, data));
                    }
                }
            }
        }
    }
    proof {
        if flags & NARROWING_FLAGS == 0 {
            assert forall|data: u32| #[trigger] prometheus_turn_owed(*state, player, must_climb, data) implies lists_word(result@, data) by {
                let f = field_at(data, 0);
                lemma_acting_in_prelude(*state, player, prelude.own_workers, initial_acting, f as int);
                assert(workers@.contains(f as u8));
                let j = choose|j: int| 0 <= j < workers@.len() && workers@[j] == f as u8;
                assert(workers@[j] as u32 == field_at(data, 0));
            }
        }
    }
    result
}

/// A turn that builds first on `pre` and then on a lower-numbered square that could itself have
/// been the first build, while `pre` could have been the second: the same two builds in the other
/// order give the same position, and only that order is listed.
pub open spec fn is_swapped_build_order(state: FullGameState, player: Player, data: u32) -> bool {
    let board = state.board;
    let other = state.gods[1 - player.idx()];
    let from = field_at(data, 0) as int;
    let to = field_at(data, 5) as int;
    let build = field_at(data, 10) as int;
    let pre = field_at(data, 15) as int;
    &&& !is_winning_data(data)
    &&& pre != 25
    &&& build < pre
    &&& is_adjacent(from, build) && !(board.occupied(build) && build != from) && board.height(build) < 4
        && build_mask_allows(other, board, player, build)
    &&& is_adjacent(to, pre) && !(board.occupied(pre) && pre != from) && board.height(pre) < 4 && build_mask_allows(other, board, player, pre)
}

/// A pre-build turn of the worker on `from` that the generator owes; a worker standing on a dome,
/// which play never leads to, is given none.
pub open spec fn pre_build_turn_owed(state: FullGameState, player: Player, from: int, data: u32) -> bool {
    &&& is_prometheus_turn(state, player, false, data)
    &&& state.board.height(from) < 4
    &&& !is_winning_data(data)
    &&& field_at(data, 15) != 25
    &&& field_at(data, 0) == from
    &&& !is_swapped_build_order(state, player, data)
}

/// The turns of one worker that build before moving: the step may not climb, counting the
/// pre-build, and the second build may not land on a pre-build that domed its square.
fn add_pre_build_moves(
    flags: MoveGenFlags,
    state: &FullGameState,
    player: Player,
    prelude: &crate::gods::move_helpers::GeneratorPreludeState,
    result: &mut Vec<ScoredMove>,
    worker_start_pos: Square,
    start_height: usize,
    worker_moves: BitBoard,
    pre_build_locations: BitBoard,
    unblocked_squares: BitBoard,
    other_threatening_workers: BitBoard,
    other_threatening_neighbors: BitBoard,
    other_own_workers: BitBoard,
)
    requires
        state.board.wf(),
        prelude.inv(),
        prelude.board == state.board,
        prelude.player == player,
        prelude.other_god == state.gods[1 - player.idx()],
        worker_start_pos < 25,
        start_height == state.board.height(worker_start_pos as int),
        is_acting_worker(*state, player, worker_start_pos as int),
        forall|i: int| #[trigger] worker_moves.has(i) ==> is_standard_step(state.board, worker_start_pos as int, i, false),
        forall|i: int| #[trigger] unblocked_squares.has(i) == (0 <= i < 32 && !(state.board.occupied(i) && i != worker_start_pos)
            && !(is_square(i) && state.board.height(i) == 4)),
        forall|i: int| #[trigger] pre_build_locations.has(i) == (is_adjacent(worker_start_pos as int, i) && unblocked_squares.has(i)
            && prelude.build_mask.has(i)),
        forall|i: int| is_standard_step(state.board, worker_start_pos as int, i, false) && state.board.height(i) <= start_height
            ==> #[trigger] worker_moves.has(i),
    ensures
        final(result)@.len() >= old(result)@.len(),
        forall|k: int| 0 <= k < old(result)@.len() ==> #[trigger] final(result)@[k] == old(result)@[k],
        forall|k: int|
            old(result)@.len() <= k < final(result)@.len() ==> #[trigger] is_prometheus_turn(*state, player, false, final(result)@[k].action.0),
        flags & NARROWING_FLAGS == 0 ==> forall|data: u32| #[trigger] pre_build_turn_owed(*state, player, worker_start_pos as int, data)
            ==> lists_word(final(result)@, data),
{
    broadcast use group_bit_lemmas;

    let ghost start = result@;
    let board = prelude.board;
    proof {
        crate::generic::lemma_no_flags(flags);
    }
    if start_height >= 4 {
        // A worker never stands on a dome.
        return;
    }
    let layer_start = board.height_map[start_height];
    let pre_build_worker_moves = worker_moves.minus(layer_start);
    let moveable_ontop_of_prebuild = if start_height == 0 {
        BitBoard::empty()
    } else {
        pre_build_worker_moves.minus(board.height_map[start_height - 1])
    };
    proof {
        assert forall|i: int| #[trigger] pre_build_worker_moves.has(i) ==> is_standard_step(state.board, worker_start_pos as int, i, false)
            && state.board.height(i) <= start_height by {
            if pre_build_worker_moves.has(i) {
                crate::gods::move_helpers::lemma_layer_is_height(state.board, start_height as int, i);
            }
        }
        assert forall|i: int| #[trigger] moveable_ontop_of_prebuild.has(i) ==> state.board.height(i) + 1 <= start_height by {
            if moveable_ontop_of_prebuild.has(i) {
                crate::gods::move_helpers::lemma_layer_is_height(state.board, start_height - 1, i);
            }
        }
        assert forall|i: int| is_standard_step(state.board, worker_start_pos as int, i, false) && state.board.height(i) <= start_height
            implies #[trigger] pre_build_worker_moves.has(i) by {
            crate::gods::move_helpers::lemma_layer_is_height(state.board, start_height as int, i);
        }
        assert forall|i: int| is_standard_step(state.board, worker_start_pos as int, i, false) && state.board.height(i) + 1 <= start_height
            implies #[trigger] moveable_ontop_of_prebuild.has(i) by {
            crate::gods::move_helpers::lemma_layer_is_height(state.board, start_height as int, i);
            crate::gods::move_helpers::lemma_layer_is_height(state.board, start_height - 1, i);
        }
    }
    let pres = pre_build_locations.squares();
    let mut pi: usize = 0;
    while pi < pres.len()
        invariant
            pi <= pres@.len(),
            start == old(result)@,
            state.board.wf(),
            prelude.inv(),
            prelude.board == state.board,
            prelude.player == player,
            prelude.other_god == state.gods[1 - player.idx()],
            worker_start_pos < 25,
            start_height == state.board.height(worker_start_pos as int),
            start_height < 4,
            is_acting_worker(*state, player, worker_start_pos as int),
            forall|i: int| #[trigger] unblocked_squares.has(i) == (0 <= i < 32 && !(state.board.occupied(i) && i != worker_start_pos)
                && !(is_square(i) && state.board.height(i) == 4)),
            forall|i: int| #[trigger] pre_build_locations.has(i) == (is_adjacent(worker_start_pos as int, i) && unblocked_squares.has(i)
                && prelude.build_mask.has(i)),
            forall|k: int| 0 <= k < pres@.len() ==> #[trigger] pres@[k] < 25 && pre_build_locations.has(pres@[k] as int),
            forall|i: int| #[trigger] pre_build_worker_moves.has(i) ==> is_standard_step(state.board, worker_start_pos as int, i, false)
                && state.board.height(i) <= start_height,
            forall|i: int| #[trigger] moveable_ontop_of_prebuild.has(i) ==> state.board.height(i) + 1 <= start_height,
            forall|i: int| #[trigger] moveable_ontop_of_prebuild.has(i) ==> pre_build_worker_moves.has(i),
            forall|i: int| is_standard_step(state.board, worker_start_pos as int, i, false) && state.board.height(i) <= start_height
                ==> #[trigger] pre_build_worker_moves.has(i),
            forall|i: int| is_standard_step(state.board, worker_start_pos as int, i, false) && state.board.height(i) + 1 <= start_height
                ==> #[trigger] moveable_ontop_of_prebuild.has(i),
            forall|i: int| 0 <= i < 25 && #[trigger] pre_build_locations.has(i) ==> pres@.contains(i as u8),
            flags & NARROWING_FLAGS == 0 ==> flags & 1u32 == 0 && flags & 2u32 == 0 && flags & 8u32 == 0,
            flags & NARROWING_FLAGS == 0 ==> forall|data: u32| #[trigger] pre_build_turn_owed(*state, player, worker_start_pos as int, data)
                && (exists|j: int| 0 <= j < pi && pres@[j] as u32 == field_at(data, 15)) ==> lists_word(result@, data),
            result@.len() >= start.len(),
            forall|k: int| 0 <= k < start.len() ==> #[trigger] result@[k] == start[k],
            forall|k: int| start.len() <= k < result@.len() ==> #[trigger] is_prometheus_turn(*state, player, false, result@[k].action.0),
        decreases pres@.len() - pi,
    {
        let pre_build_pos = pres[pi];
        pi = pi + 1;
        let pre_build_mask = BitBoard::as_mask(pre_build_pos);
        let worker_moves_with_pre_build = pre_build_worker_moves.minus(pre_build_mask).or(pre_build_mask.and(moveable_ontop_of_prebuild));
        let dests = worker_moves_with_pre_build.squares();
        let ghost rp = result@;
        let mut di: usize = 0;
        while di < dests.len()
            invariant
                di <= dests@.len(),
                rp.len() <= result@.len(),
                forall|k: int| 0 <= k < rp.len() ==> #[trigger] result@[k] == rp[k],
                forall|i: int| #[trigger] pre_build_locations.has(i) ==> is_adjacent(worker_start_pos as int, i) && (0 <= i < 32
                    && !(state.board.occupied(i) && i != worker_start_pos) && !(is_square(i) && state.board.height(i) == 4))
                    && prelude.build_mask.has(i),
                flags & NARROWING_FLAGS == 0 ==> flags & 1u32 == 0 && flags & 2u32 == 0 && flags & 8u32 == 0,
                flags & NARROWING_FLAGS == 0 ==> forall|data: u32| #[trigger] pre_build_turn_owed(*state, player, worker_start_pos as int, data)
                    && field_at(data, 15) == pre_build_pos && (exists|j: int| 0 <= j < di && dests@[j] as u32 == field_at(data, 5))
                    ==> lists_word(result@, data),
                start == old(result)@,
                state.board.wf(),
                prelude.inv(),
                prelude.board == state.board,
                prelude.player == player,
                prelude.other_god == state.gods[1 - player.idx()],
                worker_start_pos < 25,
                pre_build_pos < 25,
                forall|i: int| #[trigger] pre_build_mask.has(i) == (i == pre_build_pos),
                pre_build_locations.has(pre_build_pos as int),
                start_height == state.board.height(worker_start_pos as int),
                start_height < 4,
                is_acting_worker(*state, player, worker_start_pos as int),
                forall|i: int| #[trigger] unblocked_squares.has(i) == (0 <= i < 32 && !(state.board.occupied(i) && i != worker_start_pos)
                    && !(is_square(i) && state.board.height(i) == 4)),
                forall|i: int| #[trigger] pre_build_locations.has(i) == (is_adjacent(worker_start_pos as int, i) && unblocked_squares.has(i)
                    && prelude.build_mask.has(i)),
                forall|k: int| 0 <= k < dests@.len() ==> #[trigger] dests@[k] < 25 && is_adjacent(worker_start_pos as int, dests@[k] as int)
                    && !state.board.occupied(dests@[k] as int) && height_after_pre_build(
                    state.board,
                    pre_build_pos as int,
                    dests@[k] as int,
                ) <= start_height && state.board.height(dests@[k] as int) < 4,
                result@.len() >= start.len(),
                forall|k: int| 0 <= k < start.len() ==> #[trigger] result@[k] == start[k],
                forall|k: int| start.len() <= k < result@.len() ==> #[trigger] is_prometheus_turn(*state, player, false, result@[k].action.0),
            decreases dests@.len() - di,
        {
            let worker_end_pos = dests[di];
            di = di + 1;
            let worker_end_mask = BitBoard::as_mask(worker_end_pos);
            let raised: usize = if worker_end_pos == pre_build_pos { 1 } else { 0 };
            let worker_end_height = board.get_height(worker_end_pos) + raised;
            let interchangeable_builds = pre_build_locations;
            let is_now_lvl_2: u32 = if worker_end_height == 2 { 1 } else { 0 };
            let post_build_locations = neighbor_mask(worker_end_pos).and(unblocked_squares).and(prelude.build_mask);
            let worker_plausible_next_moves = neighbor_mask(worker_end_pos).and(unblocked_squares);
            let domed_pre_build = pre_build_mask.and(prelude.exactly_level_3);
            let mut worker_builds = post_build_locations.minus(domed_pre_build);
            let ghost first_builds = worker_builds;
            proof {
                assert(domed_pre_build.has(pre_build_pos as int) == (state.board.height(pre_build_pos as int) == 3));
                assert forall|i: int| #[trigger] first_builds.has(i) implies post_build_locations.has(i) && !(i == pre_build_pos
                    && state.board.height(pre_build_pos as int) == 3) by {
                    assert(first_builds.has(i) == (post_build_locations.has(i) && !domed_pre_build.has(i)));
                }
            }
            if post_build_locations.and(interchangeable_builds).and(pre_build_mask).is_not_empty() {
                let both_buildable = worker_builds.and(interchangeable_builds);
                let dropped = both_buildable.and(lower_squares(pre_build_pos));
                let kept = worker_builds;
                worker_builds = worker_builds.xor(dropped);
                proof {
                    assert(kept == first_builds);
                    assert forall|i: int| #[trigger] worker_builds.has(i) implies kept.has(i) by {
                        if 0 <= i < 32 && !kept.has(i) {
                            assert(!dropped.has(i));
                        }
                    }
                    let x = BitBoard(post_build_locations.0 & interchangeable_builds.0 & pre_build_mask.0);
                    crate::bitboard::lemma_nonzero_has_bit(x.0);
                    let c = choose|c: u32| c < 32 && #[trigger] crate::bitboard::bit(x.0, c);
                    assert(x.has(c as int));
                    assert(post_build_locations.has(pre_build_pos as int));
                    assert forall|i: int| #[trigger] first_builds.has(i) && !worker_builds.has(i) implies interchangeable_builds.has(i)
                        && 0 <= i < pre_build_pos && post_build_locations.has(pre_build_pos as int) by {
                        assert(dropped.has(i));
                    }
                }
            }
            assert(forall|i: int| #[trigger] first_builds.has(i) && !worker_builds.has(i) ==> interchangeable_builds.has(i)
                && 0 <= i < pre_build_pos && post_build_locations.has(pre_build_pos as int));
            assert(forall|i: int| #[trigger] worker_builds.has(i) ==> first_builds.has(i));
            if is_interact_with_key_squares(flags) {
                if worker_end_mask.or(pre_build_mask).and(prelude.key_squares).is_empty() {
                    worker_builds = worker_builds.and(prelude.key_squares);
                }
            }
            proof {
                assert forall|i: int| #[trigger] worker_builds.has(i) implies post_build_locations.has(i) && !(i == pre_build_pos
                    && state.board.height(pre_build_pos as int) == 3) by {
                    assert(first_builds.has(i));
                }
            }
            let own_final_workers = other_own_workers.or(worker_end_mask);
            let reach_board = if prelude.is_against_hypnus && other_threatening_workers.count_ones() + is_now_lvl_2 < 2 {
                BitBoard::empty()
            } else {
                let scaled = if is_now_lvl_2 == 1 { worker_plausible_next_moves } else { BitBoard::empty() };
                other_threatening_neighbors.or(scaled).and(prelude.win_mask).minus(own_final_workers)
            };
            let builds = worker_builds.squares();
            let ghost rd = result@;
            let mut bi: usize = 0;
            while bi < builds.len()
                invariant
                    bi <= builds@.len(),
                    rd.len() <= result@.len(),
                    forall|k: int| 0 <= k < rd.len() ==> #[trigger] result@[k] == rd[k],
                    forall|j: int| 0 <= j < bi ==> #[trigger] lists_word(
                        result@,
                        prometheus_pre_build_data(worker_start_pos as u32, worker_end_pos as u32, builds@[j] as u32, pre_build_pos as u32),
                    ),
                    start == old(result)@,
                    prelude.inv(),
                    prelude.board == state.board,
                    prelude.player == player,
                    prelude.other_god == state.gods[1 - player.idx()],
                    worker_start_pos < 25,
                    pre_build_pos < 25,
                    worker_end_pos < 25,
                    pre_build_locations.has(pre_build_pos as int),
                    start_height == state.board.height(worker_start_pos as int),
                    start_height < 4,
                    is_acting_worker(*state, player, worker_start_pos as int),
                    forall|i: int| #[trigger] unblocked_squares.has(i) == (0 <= i < 32 && !(state.board.occupied(i) && i != worker_start_pos)
                        && !(is_square(i) && state.board.height(i) == 4)),
                    forall|i: int| #[trigger] pre_build_locations.has(i) == (is_adjacent(worker_start_pos as int, i)
                        && unblocked_squares.has(i) && prelude.build_mask.has(i)),
                    is_adjacent(worker_start_pos as int, worker_end_pos as int),
                    !state.board.occupied(worker_end_pos as int),
                    height_after_pre_build(state.board, pre_build_pos as int, worker_end_pos as int) <= start_height,
                    state.board.height(worker_end_pos as int) < 4,
                    forall|k: int| 0 <= k < builds@.len() ==> #[trigger] builds@[k] < 25 && is_adjacent(worker_end_pos as int, builds@[k] as int)
                        && unblocked_squares.has(builds@[k] as int) && prelude.build_mask.has(builds@[k] as int) && !(builds@[k]
                        == pre_build_pos && state.board.height(pre_build_pos as int) == 3),
                    result@.len() >= start.len(),
                    forall|k: int| 0 <= k < start.len() ==> #[trigger] result@[k] == start[k],
                    forall|k: int| start.len() <= k < result@.len() ==> #[trigger] is_prometheus_turn(*state, player, false, result@[k].action.0),
                decreases builds@.len() - bi,
            {
                let worker_build_pos = builds[bi];
                let worker_build_mask = BitBoard::as_mask(worker_build_pos);
                let final_level_3 = if worker_build_pos == pre_build_pos {
                    prelude.exactly_level_1.and(pre_build_mask).or(prelude.exactly_level_3.minus(pre_build_mask))
                } else {
                    let both_build_mask = pre_build_mask.or(worker_build_mask);
                    prelude.exactly_level_2.and(both_build_mask).or(prelude.exactly_level_3.minus(both_build_mask))
                };
                let is_check = reach_board.and(final_level_3).and(unblocked_squares).is_not_empty();
                let action = PrometheusMove::new_pre_build_move(worker_start_pos, worker_end_pos, worker_build_pos, pre_build_pos);
                let ghost before = result@;
                result.push(build_scored_move(flags, action.to_generic(), is_check, false));
                proof {
                    lemma_pack4(worker_start_pos as u32, worker_end_pos as u32, worker_build_pos as u32, pre_build_pos as u32);
                    assert forall|k: int| start.len() <= k < result@.len() implies #[trigger] is_prometheus_turn(
                        *state,
                        player,
                        false,
                        result@[k].action.0,
                    ) by {
                        if k < before.len() {
                            assert(result@[k] == before[k]);
                        }
                    }
                    lemma_lists_word_grows(before, result@);
                    assert forall|j: int| 0 <= j < bi + 1 implies #[trigger] lists_word(
                        result@,
                        prometheus_pre_build_data(worker_start_pos as u32, worker_end_pos as u32, builds@[j] as u32, pre_build_pos as u32),
                    ) by {
                        if j == bi {
                            assert(result@[before.len() as int].action.0 == prometheus_pre_build_data(
                                worker_start_pos as u32,
                                worker_end_pos as u32,
                                builds@[j] as u32,
                                pre_build_pos as u32,
                            ));
                        } else {
                            assert(lists_word(
                                before,
                                prometheus_pre_build_data(worker_start_pos as u32, worker_end_pos as u32, builds@[j] as u32, pre_build_pos as u32),
                            ));
                        }
                    }
                }
                bi = bi + 1;
            }
            proof {
                lemma_lists_word_grows(rd, result@);
                if flags & NARROWING_FLAGS == 0 {
                    assert forall|data: u32| #[trigger] pre_build_turn_owed(*state, player, worker_start_pos as int, data)
                        && field_at(data, 15) == pre_build_pos && (exists|j: int| 0 <= j < di && dests@[j] as u32 == field_at(data, 5))
                        implies lists_word(result@, data) by {
                        let j = choose|j: int| 0 <= j < di && dests@[j] as u32 == field_at(data, 5);
                        if j == di - 1 {
                            let b = field_at(data, 10);
                            assert(post_build_locations.has(b as int));
                            assert(first_builds.has(b as int));
                            assert(worker_builds.has(b as int)) by {
                                if !worker_builds.has(b as int) {
                                    assert(interchangeable_builds.has(b as int));
                                    assert(is_swapped_build_order(*state, player, data));
                                }
                            }
                            assert(builds@.contains(b as u8));
                            let jb = choose|jb: int| 0 <= jb < builds@.len() && builds@[jb] == b as u8;
                            assert(lists_word(
                                result@,
                                prometheus_pre_build_data(worker_start_pos as u32, worker_end_pos as u32, builds@[jb] as u32, pre_build_pos as u32),
                            ));
                        } else {
                            assert(lists_word(rd, data));
                        }
                    }
                }
            }
        }
        proof {
            lemma_lists_word_grows(rp, result@);
            if flags & NARROWING_FLAGS == 0 {
                assert forall|data: u32| #[trigger] pre_build_turn_owed(*state, player, worker_start_pos as int, data)
                    && (exists|j: int| 0 <= j < pi && pres@[j] as u32 == field_at(data, 15)) implies lists_word(result@, data) by {
                    let j = choose|j: int| 0 <= j < pi && pres@[j] as u32 == field_at(data, 15);
                    if j == pi - 1 {
                        let to = field_at(data, 5) as int;
                        assert(is_standard_step(state.board, worker_start_pos as int, to, false));
                        assert(worker_moves_with_pre_build.has(to));
                        assert(dests@.contains(to as u8));
                        let jd = choose|jd: int| 0 <= jd < dests@.len() && dests@[jd] == to as u8;
                        assert(dests@[jd] as u32 == field_at(data, 5));
                    } else {
                        assert(lists_word(rp, data));
                    }
                }
            }
        }
    }
    proof {
        if flags & NARROWING_FLAGS == 0 {
            assert forall|data: u32| #[trigger] pre_build_turn_owed(*state, player, worker_start_pos as int, data) implies lists_word(
                result@,
                data,
            ) by {
                let pre = field_at(data, 15) as int;
                assert(pre_build_locations.has(pre));
                assert(pres@.contains(pre as u8));
                let j = choose|j: int| 0 <= j < pres@.len() && pres@[j] == pre as u8;
                assert(pres@[j] as u32 == field_at(data, 15));
            }
        }
    }
}

/// Prometheus's fixed data.
pub fn build_prometheus() -> (r: GodPower)
    ensures
        r.god_name == GodName::Prometheus,
        r.hash1 == 7255800742029900355u64,
        r.hash2 == 11420172211286930201u64,
        r.placement_type == PlacementType::Normal,
        r.symmetry == BoardSymmetry::Full,
        !r.is_persephone,
{
    god_power(GodName::Prometheus, 7255800742029900355, 11420172211286930201)
}

/// How a turn of this god changes the board: the workers, the heights, the god data and the
/// winner after it, and whose turn it is, are those of `after`.
pub open spec fn prometheus_move_effect(before: BoardState, after: BoardState, player: Player, data: u32) -> bool {
    &&& after.current_player == before.current_player
    &&& after.god_data == before.god_data
    &&& after.workers[1 - player.idx()] == before.workers[1 - player.idx()]
    &&& after.workers[player.idx()].0 == before.workers[player.idx()].0 ^ ((1u32 << field_at(data, 0)) | (1u32 << field_at(data, 5)))
    &&& (is_winning_data(data) ==> after.winner == Some(player) && after.height_map == before.height_map)
    &&& (!is_winning_data(data) ==> after.winner == before.winner)
}

} // verus!
