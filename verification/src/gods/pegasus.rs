use vstd::prelude::*;

use crate::bitboard::{apply_neighbor_map_to_mask, group_bit_lemmas, neighbor_mask, BitBoard};
use crate::board::{BoardState, FullGameState, Player};
use crate::generic::{NARROWING_FLAGS, MATE_ONLY, STOP_ON_MATE, INTERACT_WITH_KEY_SQUARES, build_scored_move, field_at, is_mate_only, is_winning_data, MoveGenFlags, ScoredMove, MOVE_IS_WINNING_MASK};
use crate::gods::mortal::{is_kept_by_flags, lemma_acting_in_prelude, lemma_lists_word_grows, lists_word, 
    is_acting_worker, is_standard_build_for, lemma_mortal_move_round_trip, mortal_basic_data, mortal_winning_data,
    MortalMove,
};
use crate::gods::move_helpers::{
    get_generator_prelude_state, get_worker_end_move_state, get_worker_next_build_state, get_worker_start_move_state,
    get_reach_board_when_can_be_level_3, is_winning_entry, lemma_layer_is_height, modify_prelude_for_checking_workers, no_worker_on_dome_when_climb_owed,
    push_winning_moves, GeneratorPreludeState, WorkerStartMoveState,
};
use crate::gods::{BoardSymmetry, PlacementType, god_power, GodName, GodPower};
use crate::square::{is_adjacent, is_square};

verus! {

/// A step of Pegasus's worker: onto any free, undomed neighbour, whatever its level; when a climb
/// is owed, onto a higher one.
pub open spec fn is_pegasus_step(board: BoardState, from: int, to: int, must_climb: bool) -> bool {
    &&& is_adjacent(from, to)
    &&& !board.occupied(to)
    &&& board.height(to) < 4
    &&& (must_climb ==> board.height(to) > board.height(from))
}

/// A legal Pegasus turn, read off its word: only a climb from level 2 onto level 3 wins; any other
/// step is followed by a plain build.
pub open spec fn is_pegasus_turn(state: FullGameState, player: Player, must_climb: bool, data: u32) -> bool {
    let board = state.board;
    let from = field_at(data, 0);
    let to = field_at(data, 5);
    let build = field_at(data, 10);
    &&& is_acting_worker(state, player, from as int)
    &&& is_pegasus_step(board, from as int, to as int, must_climb)
    &&& if is_winning_data(data) {
        &&& data == mortal_winning_data(from, to)
        &&& board.height(from as int) == 2
        &&& board.height(to as int) == 3
    } else {
        &&& data == mortal_basic_data(from, to, build)
        &&& !(board.height(from as int) == 2 && board.height(to as int) == 3)
        &&& is_standard_build_for(state, player, from as int, to as int, build as int)
    }
}

/// The squares a worker may step onto, before any win is taken out.
fn pegasus_get_worker_moves(
    prelude: &GeneratorPreludeState,
    worker_start_state: &WorkerStartMoveState,
    blocked_squares: BitBoard,
    must_climb: bool,
) -> (r: BitBoard)
    requires
        prelude.inv(),
        worker_start_state.worker_start_pos < 25,
        worker_start_state.describes(*prelude, worker_start_state.worker_start_pos as int),
        must_climb ==> worker_start_state.worker_start_height < 4,
        forall|i: int| #[trigger] blocked_squares.has(i) == (prelude.board.occupied(i) || (is_square(i) && prelude.board.height(i) == 4)),
    ensures
        forall|i: int| #[trigger] r.has(i) == is_pegasus_step(prelude.board, worker_start_state.worker_start_pos as int, i, must_climb),
{
    broadcast use group_bit_lemmas;

    let n = neighbor_mask(worker_start_state.worker_start_pos);
    let r = if must_climb {
        n.and(prelude.board.height_map[worker_start_state.worker_start_height]).minus(blocked_squares)
    } else {
        n.minus(blocked_squares)
    };
    proof {
        assert forall|i: int| #[trigger] r.has(i) == is_pegasus_step(prelude.board, worker_start_state.worker_start_pos as int, i, must_climb) by {
            if must_climb {
                lemma_layer_is_height(prelude.board, worker_start_state.worker_start_height as int, i);
            }
        }
    }
    r
}

/// A Pegasus turn can be played: its squares are on the board, the mover is the player's and
/// lands on a free square, and a build goes on an undomed square.
pub proof fn lemma_pegasus_turn_playable(state: FullGameState, player: Player, data: u32)
    requires
        state.board.wf(),
        is_pegasus_turn(state, player, false, data),
    ensures
        field_at(data, 0) < 25,
        field_at(data, 5) < 25,
        field_at(data, 10) < 25,
        !is_winning_data(data) ==> state.board.height(field_at(data, 10) as int) < 4,
        state.board.workers[player.idx()].has(field_at(data, 0) as int),
        !state.board.occupied(field_at(data, 5) as int),
{
    if is_winning_data(data) {
        lemma_mortal_move_round_trip(field_at(data, 0), field_at(data, 5), 0);
    }
}

/// What the generator knows of its position while it works.
pub open spec fn pegasus_prelude_matches(prelude: GeneratorPreludeState, state: FullGameState, player: Player) -> bool {
    &&& prelude.inv()
    &&& state.board.wf()
    &&& prelude.board == state.board
    &&& prelude.player == player
    &&& prelude.other_god == state.gods[1 - player.idx()]
    &&& forall|i: int| #[trigger] prelude.acting_workers.has(i) ==> is_acting_worker(state, player, i)
}

/// The turns the generator owes with no narrowing filter on: every legal turn, except that
/// against Persephone, when a climb exists, only the climbing ones.
pub open spec fn pegasus_turn_owed(state: FullGameState, player: Player, must_climb: bool, data: u32) -> bool {
    &&& is_pegasus_turn(state, player, must_climb, data)
    &&& (state.gods[1 - player.idx()].is_persephone_spec() && !must_climb && exists|d: u32| #[trigger] is_pegasus_turn(state, player, true, d))
        ==> is_pegasus_turn(state, player, true, data)
}

/// Pegasus's move generator; `must_climb` asks for climbing moves only, which is how Persephone's
/// restriction is applied.
pub fn pegasus_move_gen(
    flags: MoveGenFlags,
    state: &FullGameState,
    player: Player,
    key_squares: BitBoard,
    must_climb: bool,
) -> (result: Vec<ScoredMove>)
    requires
        state.board.wf(),
        no_worker_on_dome_when_climb_owed(*state, player),
        must_climb ==> forall|i: int| #[trigger] state.board.workers[player.idx()].has(i) ==> state.board.height(i) < 4,
    ensures
        forall|k: int| 0 <= k < result@.len() ==> #[trigger] is_pegasus_turn(*state, player, must_climb, result@[k].action.0),
        flags & STOP_ON_MATE == 0 ==> forall|data: u32| #[trigger] pegasus_turn_owed(*state, player, must_climb, data) && is_kept_by_flags(
            flags,
            key_squares,
            data,
        ) ==> lists_word(result@, data),
        flags & NARROWING_FLAGS == 0 ==> forall|data: u32| #[trigger] pegasus_turn_owed(*state, player, must_climb, data) ==> lists_word(
            result@,
            data,
        ),
        flags & NARROWING_FLAGS == 0 && state.gods[1 - player.idx()].is_persephone_spec() && !must_climb && (exists|d: u32|
            #[trigger] is_pegasus_turn(*state, player, true, d)) ==> forall|k: int| 0 <= k < result@.len()
            ==> #[trigger] is_pegasus_turn(*state, player, true, result@[k].action.0),
    decreases if must_climb { 0int } else { 1int },
{
    broadcast use group_bit_lemmas;

    proof {
        crate::generic::lemma_no_flags(flags);
    }

    let mut result = if state.gods[player.other().index()].is_persephone() && !must_climb {
        let climbing = pegasus_move_gen(flags, state, player, key_squares, true);
        proof {
            assert forall|k: int| 0 <= k < climbing@.len() implies #[trigger] is_pegasus_turn(
                *state,
                player,
                must_climb,
                climbing@[k].action.0,
            ) by {
                assert(is_pegasus_turn(*state, player, true, climbing@[k].action.0));
            }
        }
        if climbing.len() > 0 {
            proof {
                if flags & NARROWING_FLAGS == 0 {
                    assert(is_pegasus_turn(*state, player, true, climbing@[0].action.0));
                    assert forall|data: u32| #[trigger] pegasus_turn_owed(*state, player, must_climb, data) implies lists_word(climbing@, data) by {
                        assert(pegasus_turn_owed(*state, player, true, data));
                    }
                }
                if flags & STOP_ON_MATE == 0 {
                    assert(is_pegasus_turn(*state, player, true, climbing@[0].action.0));
                    assert forall|data: u32| #[trigger] pegasus_turn_owed(*state, player, must_climb, data) && is_kept_by_flags(
                        flags,
                        key_squares,
                        data,
                    ) implies lists_word(climbing@, data) by {
                        assert(pegasus_turn_owed(*state, player, true, data));
                    }
                }
            }
            return climbing;
        }
        proof {
            if flags & NARROWING_FLAGS == 0 {
                assert forall|d: u32| !#[trigger] is_pegasus_turn(*state, player, true, d) by {
                    if is_pegasus_turn(*state, player, true, d) {
                        assert(pegasus_turn_owed(*state, player, true, d));
                    }
                }
            }
        }
        if flags & crate::generic::ANY_MOVE_FILTER > 0 {
            let unrestricted = pegasus_move_gen(0, state, player, key_squares, true);
            if unrestricted.len() > 0 {
                proof {
                    if flags & STOP_ON_MATE == 0 {
                        assert(is_pegasus_turn(*state, player, true, unrestricted@[0].action.0));
                        assert forall|data: u32| #[trigger] pegasus_turn_owed(*state, player, must_climb, data) && is_kept_by_flags(
                            flags,
                            key_squares,
                            data,
                        ) implies lists_word(climbing@, data) by {
                            assert(pegasus_turn_owed(*state, player, true, data));
                        }
                    }
                }
                return climbing;
            }
        }
        proof {
            if flags & STOP_ON_MATE == 0 {
                assert forall|d: u32| #[trigger] is_pegasus_turn(*state, player, true, d) && is_kept_by_flags(flags, key_squares, d)
                    implies false by {
                    assert(pegasus_turn_owed(*state, player, true, d));
                }
            }
        }
        climbing
    } else {
        Vec::new()
    };
    assert(flags & NARROWING_FLAGS == 0 && state.gods[1 - player.idx()].is_persephone_spec() && !must_climb ==> forall|d: u32|
        !#[trigger] is_pegasus_turn(*state, player, true, d));

    let mut prelude = get_generator_prelude_state(state, player, key_squares);
    let ghost initial_acting = prelude.acting_workers;
    let ghost own0 = prelude.own_workers;
    proof {
        assert forall|i: int| #[trigger] prelude.acting_workers.has(i) implies is_acting_worker(*state, player, i) by {
            crate::gods::mortal::lemma_prelude_acting(*state, player, prelude.own_workers, prelude.acting_workers, i);
        }
    }
    let checkable_mask = prelude.exactly_level_2;
    modify_prelude_for_checking_workers(flags, checkable_mask, &mut prelude);
    let blocked = prelude.all_workers_and_frozen_mask.or(prelude.domes_and_frozen);
    let workers = prelude.acting_workers.squares();

    let mut wi: usize = 0;
    while wi < workers.len()
        invariant
            flags & NARROWING_FLAGS == 0 && state.gods[1 - player.idx()].is_persephone_spec() && !must_climb ==> forall|d: u32|
                !#[trigger] is_pegasus_turn(*state, player, true, d),
            wi <= workers@.len(),
            pegasus_prelude_matches(prelude, *state, player),
            prelude.key_squares == key_squares,
            must_climb ==> forall|i: int| #[trigger] state.board.workers[player.idx()].has(i) ==> state.board.height(i) < 4,
            forall|i: int| #[trigger] blocked.has(i) == (prelude.board.occupied(i) || (is_square(i) && prelude.board.height(i) == 4)),
            forall|k: int| 0 <= k < workers@.len() ==> #[trigger] workers@[k] < 25 && prelude.acting_workers.has(workers@[k] as int),
            forall|i: int| #[trigger] prelude.acting_workers.has(i) && flags & crate::generic::MATE_ONLY != 0 ==> prelude.exactly_level_2.has(i),
            forall|k: int| 0 <= k < result@.len() ==> #[trigger] is_pegasus_turn(*state, player, must_climb, result@[k].action.0),
            flags & STOP_ON_MATE == 0 ==> forall|data: u32| #[trigger] is_pegasus_turn(*state, player, must_climb, data) && is_kept_by_flags(flags, key_squares, data) && (exists|j: int|
                0 <= j < wi && workers@[j] as u32 == field_at(data, 0)) ==> lists_word(result@, data),
        decreases workers@.len() - wi,
    {
        let worker_start_pos = workers[wi];
        proof {
            assert(is_acting_worker(*state, player, worker_start_pos as int));
        }
        let worker_start_state = get_worker_start_move_state(&prelude, worker_start_pos);
        let other_threatening_workers = worker_start_state.other_own_workers.and(prelude.exactly_level_2);
        let other_threatening_neighbors = apply_neighbor_map_to_mask(other_threatening_workers);
        let has_any_level_3_other_workers = worker_start_state.other_own_workers.and(prelude.exactly_level_3).is_not_empty();
        let mut worker_moves = pegasus_get_worker_moves(&prelude, &worker_start_state, blocked, must_climb);

        if is_mate_only(flags) || worker_start_state.worker_start_height == 2 {
            let moves_to_level_3 = worker_moves.and(prelude.exactly_level_3).and(prelude.win_mask);
            let ghost before = result@;
            let stop = push_winning_moves(flags, &mut result, worker_start_pos, moves_to_level_3, 0);
            proof {
                lemma_lists_word_grows(before, result@);
                if flags & STOP_ON_MATE == 0 && !stop {
                    assert forall|data: u32| #[trigger] is_pegasus_turn(*state, player, must_climb, data) && is_kept_by_flags(flags, key_squares, data) && field_at(data, 0)
                        == worker_start_pos && is_winning_data(data) implies lists_word(result@, data) by {
                        let to = field_at(data, 5);
                        assert(moves_to_level_3.has(to as int));
                        let k = choose|k: int| before.len() <= k < result@.len() && #[trigger] result@[k].action.0
                            == (worker_start_pos as u32) | ((to as u32) << 5u32) | 0u32 | MOVE_IS_WINNING_MASK;
                        crate::bitboard::lemma_or_zero((worker_start_pos as u32) | ((to as u32) << 5u32));
                    }
                }
            }
            proof {
                assert forall|k: int| 0 <= k < result@.len() implies #[trigger] is_pegasus_turn(
                    *state,
                    player,
                    must_climb,
                    result@[k].action.0,
                ) by {
                    if k >= before.len() {
                        assert(is_winning_entry(result@[k], worker_start_pos, moves_to_level_3, 0));
                        let sq = choose|sq: u8|
                            sq < 25 && #[trigger] moves_to_level_3.has(sq as int) && result@[k].action.0 == (
                            worker_start_pos as u32) | ((sq as u32) << 5u32) | 0u32 | MOVE_IS_WINNING_MASK;
                        lemma_mortal_move_round_trip(worker_start_pos as u32, sq as u32, 0);
                        crate::bitboard::lemma_or_zero((worker_start_pos as u32) | ((sq as u32) << 5u32));
                    } else {
                        assert(result@[k] == before[k]);
                    }
                }
            }
            if stop {
                proof {
                    crate::generic::lemma_no_flags(flags);
                }
                return result;
            }
            worker_moves = worker_moves.xor(moves_to_level_3);
        }

        proof {
            crate::generic::lemma_no_flags(flags);
            if flags & STOP_ON_MATE == 0 {
                assert forall|data: u32| #[trigger] is_pegasus_turn(*state, player, must_climb, data) && is_kept_by_flags(flags, key_squares, data) && field_at(data, 0)
                    == worker_start_pos && is_winning_data(data) implies lists_word(result@, data) by {
                    assert(worker_start_state.worker_start_height == 2);
                }
            }
        }
        if !is_mate_only(flags) {
            let ends = worker_moves.squares();
            proof {
                crate::generic::lemma_no_flags(flags);
                if flags & STOP_ON_MATE == 0 && flags & MATE_ONLY == 0 {
                    assert forall|i: int| 0 <= i < 25 && is_pegasus_step(state.board, worker_start_pos as int, i, must_climb)
                        && !(state.board.height(worker_start_pos as int) == 2 && state.board.height(i) == 3) implies #[trigger] ends@.contains(i as u8) by {
                        assert(worker_moves.has(i));
                    }
                }
            }
            let mut ei: usize = 0;
            while ei < ends.len()
                invariant
                    flags & NARROWING_FLAGS == 0 && state.gods[1 - player.idx()].is_persephone_spec() && !must_climb ==> forall|d: u32|
                        !#[trigger] is_pegasus_turn(*state, player, true, d),
                    ei <= ends@.len(),
                    pegasus_prelude_matches(prelude, *state, player),
                    prelude.key_squares == key_squares,
                    worker_start_pos < 25,
                    worker_start_state.describes(prelude, worker_start_pos as int),
                    is_acting_worker(*state, player, worker_start_pos as int),
                    forall|k: int| 0 <= k < ends@.len() ==> #[trigger] ends@[k] < 25 && is_pegasus_step(
                        state.board,
                        worker_start_pos as int,
                        ends@[k] as int,
                        must_climb,
                    ) && !(state.board.height(worker_start_pos as int) == 2 && state.board.height(ends@[k] as int) == 3),
                    forall|k: int| 0 <= k < result@.len() ==> #[trigger] is_pegasus_turn(*state, player, must_climb, result@[k].action.0),
                    flags & STOP_ON_MATE == 0 ==> forall|data: u32| #[trigger] is_pegasus_turn(*state, player, must_climb, data) && is_kept_by_flags(flags, key_squares, data) && (exists|j: int|
                        0 <= j < wi && workers@[j] as u32 == field_at(data, 0)) ==> lists_word(result@, data),
                    flags & STOP_ON_MATE == 0 ==> forall|data: u32| #[trigger] is_pegasus_turn(*state, player, must_climb, data) && is_kept_by_flags(flags, key_squares, data) && field_at(data, 0)
                        == worker_start_pos && is_winning_data(data) ==> lists_word(result@, data),
                    flags & STOP_ON_MATE == 0 ==> forall|data: u32| #[trigger] is_pegasus_turn(*state, player, must_climb, data) && is_kept_by_flags(flags, key_squares, data) && field_at(data, 0)
                        == worker_start_pos && !is_winning_data(data) && (exists|j: int| 0 <= j < ei && ends@[j] as u32 == field_at(data, 5))
                        ==> lists_word(result@, data),
                    flags & STOP_ON_MATE == 0 && flags & MATE_ONLY == 0 ==> forall|i: int| 0 <= i < 25 && is_pegasus_step(state.board, worker_start_pos as int, i, must_climb)
                        && !(state.board.height(worker_start_pos as int) == 2 && state.board.height(i) == 3) ==> #[trigger] ends@.contains(i as u8),
                    flags & NARROWING_FLAGS == 0 ==> !crate::gods::move_helpers::is_interact_with_key_squares_spec(flags),
                decreases ends@.len() - ei,
            {
                let worker_end_pos = ends[ei];
                let worker_end_move_state = get_worker_end_move_state(&prelude, &worker_start_state, worker_end_pos);
                let worker_next_build_state = get_worker_next_build_state(flags, &prelude, &worker_start_state, &worker_end_move_state);
                let reach_board = get_reach_board_when_can_be_level_3(
                    &prelude,
                    other_threatening_workers,
                    other_threatening_neighbors,
                    has_any_level_3_other_workers,
                    worker_end_pos,
                    worker_end_move_state.worker_end_height,
                    worker_next_build_state.unblocked_squares,
                );
                let builds = worker_next_build_state.narrowed_builds.squares();
                proof {
                    if flags & STOP_ON_MATE == 0 {
                        assert forall|b: int| 0 <= b < 25 && #[trigger] worker_next_build_state.all_possible_builds.has(b) && (flags
                            & INTERACT_WITH_KEY_SQUARES == 0 || key_squares.has(worker_end_pos as int) || key_squares.has(b)) implies builds@.contains(
                            b as u8,
                        ) by {
                            if flags & INTERACT_WITH_KEY_SQUARES != 0 && !prelude.key_squares.has(worker_end_pos as int) {
                                crate::bitboard::lemma_bit_and(
                                    worker_next_build_state.all_possible_builds.0,
                                    prelude.key_squares.0,
                                    b as u32,
                                );
                            }
                            assert(worker_next_build_state.narrowed_builds.has(b));
                        }
                    }
                }
                let mut bi: usize = 0;
                while bi < builds.len()
                    invariant
                        flags & NARROWING_FLAGS == 0 && state.gods[1 - player.idx()].is_persephone_spec() && !must_climb ==> forall|d: u32|
                            !#[trigger] is_pegasus_turn(*state, player, true, d),
                        bi <= builds@.len(),
                        pegasus_prelude_matches(prelude, *state, player),
                        prelude.key_squares == key_squares,
                        worker_start_pos < 25,
                        worker_end_pos < 25,
                        is_acting_worker(*state, player, worker_start_pos as int),
                        is_pegasus_step(state.board, worker_start_pos as int, worker_end_pos as int, must_climb),
                        !(state.board.height(worker_start_pos as int) == 2 && state.board.height(worker_end_pos as int) == 3),
                        worker_next_build_state.describes(prelude, worker_start_pos as int, worker_end_pos as int),
                        forall|k: int| 0 <= k < builds@.len() ==> #[trigger] builds@[k] < 25
                            && worker_next_build_state.narrowed_builds.has(builds@[k] as int),
                        forall|k: int| 0 <= k < result@.len() ==> #[trigger] is_pegasus_turn(*state, player, must_climb, result@[k].action.0),
                        flags & STOP_ON_MATE == 0 ==> forall|data: u32| #[trigger] is_pegasus_turn(*state, player, must_climb, data) && is_kept_by_flags(flags, key_squares, data) && (exists|j: int|
                            0 <= j < wi && workers@[j] as u32 == field_at(data, 0)) ==> lists_word(result@, data),
                        flags & STOP_ON_MATE == 0 ==> forall|data: u32| #[trigger] is_pegasus_turn(*state, player, must_climb, data) && is_kept_by_flags(flags, key_squares, data) && field_at(data, 0)
                            == worker_start_pos && is_winning_data(data) ==> lists_word(result@, data),
                        flags & STOP_ON_MATE == 0 ==> forall|data: u32| #[trigger] is_pegasus_turn(*state, player, must_climb, data) && is_kept_by_flags(flags, key_squares, data) && field_at(data, 0)
                            == worker_start_pos && !is_winning_data(data) && (exists|j: int| 0 <= j < ei && ends@[j] as u32 == field_at(data, 5))
                            ==> lists_word(result@, data),
                        flags & STOP_ON_MATE == 0 ==> forall|data: u32| #[trigger] is_pegasus_turn(*state, player, must_climb, data) && is_kept_by_flags(flags, key_squares, data) && field_at(data, 0)
                            == worker_start_pos && !is_winning_data(data) && field_at(data, 5) == worker_end_pos && (exists|j: int| 0 <= j < bi
                            && builds@[j] as u32 == field_at(data, 10)) ==> lists_word(result@, data),
                        flags & STOP_ON_MATE == 0 ==> forall|b: int| 0 <= b < 25 && #[trigger] worker_next_build_state.all_possible_builds.has(b) && (flags & INTERACT_WITH_KEY_SQUARES == 0 || key_squares.has(worker_end_pos as int) || key_squares.has(b)) ==> builds@.contains(b as u8),
                        ei < ends@.len(),
                        ends@[ei as int] == worker_end_pos,
                    decreases builds@.len() - bi,
                {
                    let worker_build_pos = builds[bi];
                    let build_mask = BitBoard::as_mask(worker_build_pos);
                    let new_action = MortalMove::new_basic_move(worker_start_pos, worker_end_pos, worker_build_pos);
                    let final_level_3 = prelude.exactly_level_2.and(build_mask).or(prelude.exactly_level_3.minus(build_mask));
                    let is_check = reach_board.and(final_level_3).is_not_empty();
                    let is_improving = worker_end_move_state.worker_end_height == 2;
                    let ghost before = result@;
                    result.push(build_scored_move(flags, new_action.to_generic(), is_check, is_improving));
                    proof {
                        lemma_lists_word_grows(before, result@);
                        assert(result@[before.len() as int].action.0 == mortal_basic_data(worker_start_pos as u32, worker_end_pos as u32, worker_build_pos as u32));
                        lemma_mortal_move_round_trip(worker_start_pos as u32, worker_end_pos as u32, worker_build_pos as u32);
                        assert(worker_next_build_state.all_possible_builds.has(worker_build_pos as int));
                        assert(prelude.build_mask.has(worker_build_pos as int));
                        assert forall|k: int| 0 <= k < result@.len() implies #[trigger] is_pegasus_turn(
                            *state,
                            player,
                            must_climb,
                            result@[k].action.0,
                        ) by {
                            if k < before.len() {
                                assert(result@[k] == before[k]);
                            }
                        }
                    }
                    bi = bi + 1;
                }
                proof {
                    if flags & STOP_ON_MATE == 0 {
                        assert forall|data: u32| #[trigger] is_pegasus_turn(*state, player, must_climb, data) && is_kept_by_flags(flags, key_squares, data) && field_at(data, 0)
                            == worker_start_pos && !is_winning_data(data) && (exists|j: int| 0 <= j < ei + 1 && ends@[j] as u32 == field_at(data, 5))
                            implies lists_word(result@, data) by {
                            let j = choose|j: int| 0 <= j < ei + 1 && ends@[j] as u32 == field_at(data, 5);
                            if j == ei {
                                let b = field_at(data, 10);
                                assert(worker_next_build_state.all_possible_builds.has(b as int));
                                assert(builds@.contains(b as u8));
                                let jb = choose|jb: int| 0 <= jb < builds@.len() && builds@[jb] == b as u8;
                                assert(builds@[jb] as u32 == field_at(data, 10));
                            }
                        }
                    }
                }
                ei = ei + 1;
            }
            proof {
                if flags & STOP_ON_MATE == 0 {
                    assert forall|data: u32| #[trigger] is_pegasus_turn(*state, player, must_climb, data) && is_kept_by_flags(flags, key_squares, data) && (exists|j: int|
                        0 <= j < wi + 1 && workers@[j] as u32 == field_at(data, 0)) implies lists_word(result@, data) by {
                        let j = choose|j: int| 0 <= j < wi + 1 && workers@[j] as u32 == field_at(data, 0);
                        if j == wi && !is_winning_data(data) {
                            let to = field_at(data, 5);
                            assert(ends@.contains(to as u8));
                            let je = choose|je: int| 0 <= je < ends@.len() && ends@[je] == to as u8;
                            assert(ends@[je] as u32 == field_at(data, 5));
                        }
                    }
                }
            }
        }
        wi = wi + 1;
    }
    proof {
        if flags & STOP_ON_MATE == 0 {
            assert forall|data: u32| #[trigger] pegasus_turn_owed(*state, player, must_climb, data) && is_kept_by_flags(flags, key_squares, data)
                implies lists_word(result@, data) by {
                let f = field_at(data, 0);
                assert(state.board.workers[player.idx()].within_board());
                lemma_acting_in_prelude(*state, player, own0, initial_acting, f as int);
                if flags & MATE_ONLY != 0 {
                    assert(is_winning_data(data));
                    assert(checkable_mask.has(f as int));
                }
                assert(prelude.acting_workers.has(f as int));
                assert(workers@.contains(f as u8));
                let j = choose|j: int| 0 <= j < workers@.len() && workers@[j] == f as u8;
                assert(workers@[j] as u32 == field_at(data, 0));
            }
        }
        if flags & NARROWING_FLAGS == 0 {
            assert forall|data: u32| #[trigger] pegasus_turn_owed(*state, player, must_climb, data) implies lists_word(result@, data) by {
                let f = field_at(data, 0);
                lemma_acting_in_prelude(*state, player, own0, initial_acting, f as int);
                assert(workers@.contains(f as u8));
                let j = choose|j: int| 0 <= j < workers@.len() && workers@[j] == f as u8;
                assert(workers@[j] as u32 == field_at(data, 0));
            }
        }
    }
    result
}

/// Pegasus's fixed data.
pub fn build_pegasus() -> (r: GodPower)
    ensures
        r.god_name == GodName::Pegasus,
        r.hash1 == 16247440087819553927u64,
        r.hash2 == 7661264400958143927u64,
        r.placement_type == PlacementType::Normal,
        r.symmetry == BoardSymmetry::Full,
        !r.is_persephone,
{
    god_power(GodName::Pegasus, 16247440087819553927, 7661264400958143927)
}

} // verus!
