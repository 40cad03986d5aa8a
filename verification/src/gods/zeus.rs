use vstd::prelude::*;

use crate::bitboard::{group_bit_lemmas, BitBoard};
use crate::board::{FullGameState, Player};
use crate::generic::{NARROWING_FLAGS, MATE_ONLY, STOP_ON_MATE, INTERACT_WITH_KEY_SQUARES, build_scored_move, field_at, is_interact_with_key_squares, is_mate_only, is_winning_data, MoveGenFlags, ScoredMove, MOVE_IS_WINNING_MASK};
use crate::gods::mortal::{
    is_kept_by_flags, is_mate_only_listing, lemma_acting_in_prelude, lemma_lists_word_grows, lists_word, is_acting_worker, is_standard_build_for, lemma_mortal_move_round_trip, mortal_basic_data, mortal_winning_data,
    MortalMove,
};
use crate::gods::move_helpers::{
    build_mask_allows, get_generator_prelude_state, get_reach_board_when_can_be_level_3, get_worker_end_move_state,
    get_worker_next_build_state, get_worker_next_move_state, get_worker_start_move_state, is_standard_step,
    is_winning_entry, modify_prelude_for_checking_workers, push_winning_moves, GeneratorPreludeState,
};
use crate::gods::{BoardSymmetry, PlacementType, god_power, GodName, GodPower};

verus! {

/// A build of Zeus after moving from `from` to `to`: a plain build, or one under the worker
/// itself while it stands below level 3.
pub open spec fn is_zeus_build(state: FullGameState, player: Player, from: int, to: int, build: int) -> bool {
    ||| is_standard_build_for(state, player, from, to, build)
    ||| (build == to && state.board.height(to) < 3 && build_mask_allows(state.gods[1 - player.idx()], state.board, player, to))
}

/// A legal Zeus turn, read off its word: a plain winning move, or a plain move followed by a
/// plain build or a build under the moved worker.
pub open spec fn is_zeus_turn(state: FullGameState, player: Player, must_climb: bool, data: u32) -> bool {
    let board = state.board;
    let from = field_at(data, 0);
    let to = field_at(data, 5);
    let build = field_at(data, 10);
    &&& is_acting_worker(state, player, from as int)
    &&& is_standard_step(board, from as int, to as int, must_climb)
    &&& if is_winning_data(data) {
        &&& data == mortal_winning_data(from, to)
        &&& board.height(from as int) == 2
        &&& board.height(to as int) == 3
    } else {
        &&& data == mortal_basic_data(from, to, build)
        &&& !(board.height(from as int) == 2 && board.height(to as int) == 3)
        &&& is_zeus_build(state, player, from as int, to as int, build as int)
    }
}

/// A Zeus turn can be played: its squares are on the board, the mover is the player's and lands on
/// a free square, and a build goes on an undomed square.
pub proof fn lemma_zeus_turn_playable(state: FullGameState, player: Player, data: u32)
    requires
        state.board.wf(),
        is_zeus_turn(state, player, false, data),
    ensures
        field_at(data, 0) < 25,
        field_at(data, 5) < 25,
        field_at(data, 10) < 25,
        !is_winning_data(data) ==> state.board.height(field_at(data, 10) as int) < 4,
        state.board.workers[player.idx()].has(field_at(data, 0) as int),
        !state.board.occupied(field_at(data, 5) as int),
{
    if is_winning_data(data) {
        lemma_mortal_move_round_trip(field_at(data, 0), field_at(data, 5), 0);
    }
}

/// A turn that climbs is a turn.
pub proof fn lemma_climbing_zeus_turn_is_turn(state: FullGameState, player: Player, data: u32)
    ensures
        is_zeus_turn(state, player, true, data) ==> is_zeus_turn(state, player, false, data),
{
}

/// What the generator knows of its position while it works.
pub open spec fn zeus_prelude_matches(prelude: GeneratorPreludeState, state: FullGameState, player: Player) -> bool {
    &&& prelude.inv()
    &&& state.board.wf()
    &&& prelude.board == state.board
    &&& prelude.player == player
    &&& prelude.other_god == state.gods[1 - player.idx()]
    &&& forall|i: int| #[trigger] prelude.acting_workers.has(i) ==> is_acting_worker(state, player, i)
}

/// The Zeus turns the generator owes with no narrowing filter on: every legal turn, except that
/// against Persephone, when a climb exists, only the climbing ones.
pub open spec fn zeus_turn_owed(state: FullGameState, player: Player, must_climb: bool, data: u32) -> bool {
    &&& is_zeus_turn(state, player, must_climb, data)
    &&& (state.gods[1 - player.idx()].is_persephone_spec() && !must_climb && exists|d: u32| #[trigger] is_zeus_turn(state, player, true, d))
        ==> is_zeus_turn(state, player, true, data)
}

/// Zeus's move generator; `must_climb` asks for climbing moves only, which is how Persephone's
/// restriction is applied.
pub fn zeus_move_gen(
    flags: MoveGenFlags,
    state: &FullGameState,
    player: Player,
    key_squares: BitBoard,
    must_climb: bool,
) -> (result: Vec<ScoredMove>)
    requires
        state.board.wf(),
    ensures
        forall|k: int| 0 <= k < result@.len() ==> #[trigger] is_zeus_turn(*state, player, must_climb, result@[k].action.0),
        flags & NARROWING_FLAGS == 0 ==> forall|data: u32| #[trigger] zeus_turn_owed(*state, player, must_climb, data) ==> lists_word(
            result@,
            data,
        ),
        flags & NARROWING_FLAGS == 0 && state.gods[1 - player.idx()].is_persephone_spec() && !must_climb && (exists|d: u32|
            #[trigger] is_zeus_turn(*state, player, true, d)) ==> forall|k: int| 0 <= k < result@.len()
            ==> #[trigger] is_zeus_turn(*state, player, true, result@[k].action.0),
        is_mate_only_listing(flags) ==> forall|data: u32| #[trigger] zeus_turn_owed(*state, player, must_climb, data) && is_winning_data(data)
            ==> lists_word(result@, data),
        flags & STOP_ON_MATE == 0 ==> forall|data: u32| #[trigger] zeus_turn_owed(*state, player, must_climb, data) && is_kept_by_flags(
            flags,
            key_squares,
            data,
        ) ==> lists_word(result@, data),
    decreases if must_climb { 0int } else { 1int },
{
    broadcast use group_bit_lemmas;

    proof {
        crate::generic::lemma_no_flags(flags);
    }

    let mut result = if state.gods[player.other().index()].is_persephone() && !must_climb {
        let climbing = zeus_move_gen(flags, state, player, key_squares, true);
        proof {
            assert forall|k: int| 0 <= k < climbing@.len() implies #[trigger] is_zeus_turn(
                *state,
                player,
                must_climb,
                climbing@[k].action.0,
            ) by {
                lemma_climbing_zeus_turn_is_turn(*state, player, climbing@[k].action.0);
            }
        }
        if climbing.len() > 0 {
            proof {
                if flags & NARROWING_FLAGS == 0 {
                    assert(is_zeus_turn(*state, player, true, climbing@[0].action.0));
                    assert forall|data: u32| #[trigger] zeus_turn_owed(*state, player, must_climb, data) implies lists_word(climbing@, data) by {
                        assert(zeus_turn_owed(*state, player, true, data));
                    }
                }
                if flags & STOP_ON_MATE == 0 {
                    assert(is_zeus_turn(*state, player, true, climbing@[0].action.0));
                    assert forall|data: u32| #[trigger] zeus_turn_owed(*state, player, must_climb, data) && is_kept_by_flags(
                        flags,
                        key_squares,
                        data,
                    ) implies lists_word(climbing@, data) by {
                        assert(zeus_turn_owed(*state, player, true, data));
                    }
                }
                if is_mate_only_listing(flags) {
                    assert(is_zeus_turn(*state, player, true, climbing@[0].action.0));
                    assert forall|data: u32| #[trigger] zeus_turn_owed(*state, player, must_climb, data) && is_winning_data(data)
                        implies lists_word(climbing@, data) by {
                        assert(zeus_turn_owed(*state, player, true, data));
                    }
                }
            }
            return climbing;
        }
        proof {
            if flags & NARROWING_FLAGS == 0 {
                assert forall|d: u32| !#[trigger] is_zeus_turn(*state, player, true, d) by {
                    if is_zeus_turn(*state, player, true, d) {
                        assert(zeus_turn_owed(*state, player, true, d));
                    }
                }
            }
        }
        if flags & crate::generic::ANY_MOVE_FILTER > 0 {
            let unrestricted = zeus_move_gen(0, state, player, key_squares, true);
            if unrestricted.len() > 0 {
                proof {
                    if flags & STOP_ON_MATE == 0 {
                        assert(is_zeus_turn(*state, player, true, unrestricted@[0].action.0));
                        assert forall|data: u32| #[trigger] zeus_turn_owed(*state, player, must_climb, data) && is_kept_by_flags(
                            flags,
                            key_squares,
                            data,
                        ) implies lists_word(climbing@, data) by {
                            assert(zeus_turn_owed(*state, player, true, data));
                        }
                    }
                    if is_mate_only_listing(flags) {
                        assert(is_zeus_turn(*state, player, true, unrestricted@[0].action.0));
                        assert forall|data: u32| #[trigger] zeus_turn_owed(*state, player, must_climb, data) && is_winning_data(data)
                            implies lists_word(climbing@, data) by {
                            assert(zeus_turn_owed(*state, player, true, data));
                        }
                    }
                }
                return climbing;
            }
        }
        proof {
            if is_mate_only_listing(flags) {
                assert forall|d: u32| #[trigger] is_zeus_turn(*state, player, true, d) && is_winning_data(d) implies false by {
                    assert(zeus_turn_owed(*state, player, true, d));
                }
            }
            if flags & STOP_ON_MATE == 0 {
                assert forall|d: u32| #[trigger] is_zeus_turn(*state, player, true, d) && is_kept_by_flags(flags, key_squares, d)
                    implies false by {
                    assert(zeus_turn_owed(*state, player, true, d));
                }
            }
        }
        climbing
    } else {
        Vec::new()
    };
    assert(flags & NARROWING_FLAGS == 0 && state.gods[1 - player.idx()].is_persephone_spec() && !must_climb ==> forall|d: u32|
        !#[trigger] is_zeus_turn(*state, player, true, d));
    assert(is_mate_only_listing(flags) && state.gods[1 - player.idx()].is_persephone_spec() && !must_climb ==> forall|d: u32|
        #[trigger] is_zeus_turn(*state, player, true, d) ==> !is_winning_data(d));

    let mut prelude = get_generator_prelude_state(state, player, key_squares);
    let ghost initial_acting = prelude.acting_workers;
    let ghost own0 = prelude.own_workers;
    proof {
        assert forall|i: int| #[trigger] prelude.acting_workers.has(i) implies is_acting_worker(*state, player, i) by {
            crate::gods::mortal::lemma_prelude_acting(*state, player, prelude.own_workers, prelude.acting_workers, i);
        }
    }
    let checkable_mask = prelude.exactly_level_2;
    modify_prelude_for_checking_workers(flags, checkable_mask, &mut prelude);
    let workers = prelude.acting_workers.squares();

    let mut wi: usize = 0;
    while wi < workers.len()
        invariant
            flags & NARROWING_FLAGS == 0 && state.gods[1 - player.idx()].is_persephone_spec() && !must_climb ==> forall|d: u32|
                !#[trigger] is_zeus_turn(*state, player, true, d),
            wi <= workers@.len(),
            zeus_prelude_matches(prelude, *state, player),
            prelude.key_squares == key_squares,
            forall|k: int| 0 <= k < workers@.len() ==> #[trigger] workers@[k] < 25 && prelude.acting_workers.has(workers@[k] as int),
            forall|i: int| #[trigger] prelude.acting_workers.has(i) && flags & crate::generic::MATE_ONLY != 0 ==> prelude.exactly_level_2.has(i),
            forall|k: int| 0 <= k < result@.len() ==> #[trigger] is_zeus_turn(*state, player, must_climb, result@[k].action.0),
            flags & STOP_ON_MATE == 0 ==> forall|data: u32| #[trigger] is_zeus_turn(*state, player, must_climb, data) && is_kept_by_flags(flags, key_squares, data) && (exists|j: int|
                0 <= j < wi && workers@[j] as u32 == field_at(data, 0)) ==> lists_word(result@, data),
            is_mate_only_listing(flags) ==> forall|data: u32| #[trigger] is_zeus_turn(*state, player, must_climb, data) && is_winning_data(data)
                && (exists|j: int| 0 <= j < wi && workers@[j] as u32 == field_at(data, 0)) ==> lists_word(result@, data),
        decreases workers@.len() - wi,
    {
        let worker_start_pos = workers[wi];
        proof {
            assert(is_acting_worker(*state, player, worker_start_pos as int));
        }
        let worker_start_state = get_worker_start_move_state(&prelude, worker_start_pos);
        let mut worker_next_moves = get_worker_next_move_state(&prelude, &worker_start_state, checkable_mask, must_climb);
        let has_any_level_3_other_workers = worker_start_state.other_own_workers.and(prelude.exactly_level_3).is_not_empty();

        if is_mate_only(flags) || worker_start_state.worker_start_height == 2 {
            let moves_to_level_3 = worker_next_moves.worker_moves.and(prelude.exactly_level_3).and(prelude.win_mask);
            let ghost before = result@;
            let stop = push_winning_moves(flags, &mut result, worker_start_pos, moves_to_level_3, 0);
            proof {
                lemma_lists_word_grows(before, result@);
                if is_mate_only_listing(flags) {
                    assert(!stop);
                    assert forall|data: u32| #[trigger] is_zeus_turn(*state, player, must_climb, data) && is_kept_by_flags(flags, key_squares, data) && is_winning_data(data)
                        && (exists|j: int| 0 <= j < wi + 1 && workers@[j] as u32 == field_at(data, 0)) implies lists_word(result@, data) by {
                        let j = choose|j: int| 0 <= j < wi + 1 && workers@[j] as u32 == field_at(data, 0);
                        if j < wi {
                            assert(lists_word(before, data));
                        } else {
                            let to = field_at(data, 5);
                            assert(moves_to_level_3.has(to as int));
                            let k = choose|k: int| before.len() <= k < result@.len() && #[trigger] result@[k].action.0
                                == (worker_start_pos as u32) | ((to as u32) << 5u32) | 0u32 | MOVE_IS_WINNING_MASK;
                            crate::bitboard::lemma_or_zero((worker_start_pos as u32) | ((to as u32) << 5u32));
                        }
                    }
                }
                if flags & STOP_ON_MATE == 0 && !stop {
                    assert forall|data: u32| #[trigger] is_zeus_turn(*state, player, must_climb, data) && is_kept_by_flags(flags, key_squares, data) && field_at(data, 0)
                        == worker_start_pos && is_winning_data(data) implies lists_word(result@, data) by {
                        let to = field_at(data, 5);
                        assert(moves_to_level_3.has(to as int));
                        let k = choose|k: int| before.len() <= k < result@.len() && #[trigger] result@[k].action.0
                            == (worker_start_pos as u32) | ((to as u32) << 5u32) | 0u32 | MOVE_IS_WINNING_MASK;
                        crate::bitboard::lemma_or_zero((worker_start_pos as u32) | ((to as u32) << 5u32));
                    }
                }
            }
            proof {
                assert forall|k: int| 0 <= k < result@.len() implies #[trigger] is_zeus_turn(
                    *state,
                    player,
                    must_climb,
                    result@[k].action.0,
                ) by {
                    if k >= before.len() {
                        assert(is_winning_entry(result@[k], worker_start_pos, moves_to_level_3, 0));
                        let sq = choose|sq: u8|
                            sq < 25 && #[trigger] moves_to_level_3.has(sq as int) && result@[k].action.0 == (
                            worker_start_pos as u32) | ((sq as u32) << 5u32) | 0u32 | MOVE_IS_WINNING_MASK;
                        lemma_mortal_move_round_trip(worker_start_pos as u32, sq as u32, 0);
                        crate::bitboard::lemma_or_zero((worker_start_pos as u32) | ((sq as u32) << 5u32));
                    } else {
                        assert(result@[k] == before[k]);
                    }
                }
            }
            if stop {
                proof {
                    crate::generic::lemma_no_flags(flags);
                }
                return result;
            }
            worker_next_moves.worker_moves = worker_next_moves.worker_moves.xor(moves_to_level_3);
        }

        proof {
            crate::generic::lemma_no_flags(flags);
            if flags & STOP_ON_MATE == 0 {
                assert forall|data: u32| #[trigger] is_zeus_turn(*state, player, must_climb, data) && is_kept_by_flags(flags, key_squares, data) && field_at(data, 0)
                    == worker_start_pos && is_winning_data(data) implies lists_word(result@, data) by {
                    assert(worker_start_state.worker_start_height == 2);
                }
            }
        }
        if !is_mate_only(flags) {
            let ends = worker_next_moves.worker_moves.squares();
            proof {
                crate::generic::lemma_no_flags(flags);
                if flags & STOP_ON_MATE == 0 && flags & MATE_ONLY == 0 {
                    assert forall|i: int| 0 <= i < 25 && is_standard_step(state.board, worker_start_pos as int, i, must_climb)
                        && !(state.board.height(worker_start_pos as int) == 2 && state.board.height(i) == 3) implies #[trigger] ends@.contains(i as u8) by {
                        assert(worker_next_moves.worker_moves.has(i));
                    }
                }
            }
            let mut ei: usize = 0;
            while ei < ends.len()
                invariant
                    flags & NARROWING_FLAGS == 0 && state.gods[1 - player.idx()].is_persephone_spec() && !must_climb ==> forall|d: u32|
                        !#[trigger] is_zeus_turn(*state, player, true, d),
                    ei <= ends@.len(),
                    zeus_prelude_matches(prelude, *state, player),
                    prelude.key_squares == key_squares,
                    worker_start_pos < 25,
                    worker_start_state.describes(prelude, worker_start_pos as int),
                    is_acting_worker(*state, player, worker_start_pos as int),
                    forall|k: int| 0 <= k < ends@.len() ==> #[trigger] ends@[k] < 25 && is_standard_step(
                        state.board,
                        worker_start_pos as int,
                        ends@[k] as int,
                        must_climb,
                    ) && !(state.board.height(worker_start_pos as int) == 2 && state.board.height(ends@[k] as int) == 3),
                    forall|k: int| 0 <= k < result@.len() ==> #[trigger] is_zeus_turn(*state, player, must_climb, result@[k].action.0),
                    flags & STOP_ON_MATE == 0 ==> forall|data: u32| #[trigger] is_zeus_turn(*state, player, must_climb, data) && is_kept_by_flags(flags, key_squares, data) && (exists|j: int|
                        0 <= j < wi && workers@[j] as u32 == field_at(data, 0)) ==> lists_word(result@, data),
                    flags & STOP_ON_MATE == 0 ==> forall|data: u32| #[trigger] is_zeus_turn(*state, player, must_climb, data) && is_kept_by_flags(flags, key_squares, data) && field_at(data, 0)
                        == worker_start_pos && is_winning_data(data) ==> lists_word(result@, data),
                    flags & STOP_ON_MATE == 0 ==> forall|data: u32| #[trigger] is_zeus_turn(*state, player, must_climb, data) && is_kept_by_flags(flags, key_squares, data) && field_at(data, 0)
                        == worker_start_pos && !is_winning_data(data) && (exists|j: int| 0 <= j < ei && ends@[j] as u32 == field_at(data, 5))
                        ==> lists_word(result@, data),
                    flags & STOP_ON_MATE == 0 && flags & MATE_ONLY == 0 ==> forall|i: int| 0 <= i < 25 && is_standard_step(state.board, worker_start_pos as int, i, must_climb)
                        && !(state.board.height(worker_start_pos as int) == 2 && state.board.height(i) == 3) ==> #[trigger] ends@.contains(i as u8),
                    flags & NARROWING_FLAGS == 0 ==> !crate::gods::move_helpers::is_interact_with_key_squares_spec(flags),
                decreases ends@.len() - ei,
            {
                let worker_end_pos = ends[ei];
                let worker_end_move_state = get_worker_end_move_state(&prelude, &worker_start_state, worker_end_pos);
                let worker_next_build_state = get_worker_next_build_state(flags, &prelude, &worker_start_state, &worker_end_move_state);
                let end_keys = worker_end_move_state.worker_end_mask.and(prelude.key_squares);
                let is_already_matched = end_keys.is_not_empty();
                let end_in_build_mask = prelude.build_mask.and(worker_end_move_state.worker_end_mask);
                let end_buildable = end_in_build_mask.is_not_empty();
                let ghost result_before_under = result@;
                if (!is_interact_with_key_squares(flags) || is_already_matched) && worker_end_move_state.worker_end_height < 3
                    && end_buildable {
                    let new_action = MortalMove::new_basic_move(worker_start_pos, worker_end_pos, worker_end_pos);
                    let reach_board = get_reach_board_when_can_be_level_3(
                        &prelude,
                        worker_next_moves.other_threatening_workers,
                        worker_next_moves.other_threatening_neighbors,
                        has_any_level_3_other_workers,
                        worker_end_pos,
                        worker_end_move_state.worker_end_height + 1,
                        worker_next_build_state.unblocked_squares,
                    );
                    let is_check = reach_board.and(prelude.exactly_level_3).is_not_empty();
                    let is_improving = worker_end_move_state.worker_end_height >= worker_start_state.worker_start_height;
                    let ghost before = result@;
                    result.push(build_scored_move(flags, new_action.to_generic(), is_check, is_improving));
                    proof {
                        lemma_lists_word_grows(before, result@);
                        assert(result@[before.len() as int].action.0 == mortal_basic_data(worker_start_pos as u32, worker_end_pos as u32, worker_end_pos as u32));
                        lemma_mortal_move_round_trip(worker_start_pos as u32, worker_end_pos as u32, worker_end_pos as u32);
                        let j = choose|j: int| #[trigger] end_in_build_mask.has(j);
                        assert(j == worker_end_pos);
                        assert(prelude.build_mask.has(worker_end_pos as int));
                        assert forall|k: int| 0 <= k < result@.len() implies #[trigger] is_zeus_turn(
                            *state,
                            player,
                            must_climb,
                            result@[k].action.0,
                        ) by {
                            if k < before.len() {
                                assert(result@[k] == before[k]);
                            }
                        }
                    }
                }
                proof {
                    if flags & STOP_ON_MATE == 0 {
                        crate::generic::lemma_no_flags(flags);
                        assert forall|data: u32| #[trigger] is_zeus_turn(*state, player, must_climb, data) && is_kept_by_flags(flags, key_squares, data) && field_at(data, 0)
                            == worker_start_pos && !is_winning_data(data) && field_at(data, 5) == worker_end_pos && field_at(data, 10)
                            == worker_end_pos implies lists_word(result@, data) by {
                            assert(prelude.build_mask.has(worker_end_pos as int));
                            assert(end_in_build_mask.has(worker_end_pos as int));
                            if flags & INTERACT_WITH_KEY_SQUARES != 0 {
                                assert(key_squares.has(worker_end_pos as int));
                                assert(worker_end_move_state.worker_end_mask.has(worker_end_pos as int));
                                assert(end_keys.has(worker_end_pos as int));
                            }
                        }
                    }
                }
                let reach_board = get_reach_board_when_can_be_level_3(
                    &prelude,
                    worker_next_moves.other_threatening_workers,
                    worker_next_moves.other_threatening_neighbors,
                    has_any_level_3_other_workers,
                    worker_end_pos,
                    worker_end_move_state.worker_end_height,
                    worker_next_build_state.unblocked_squares,
                );
                let builds = worker_next_build_state.narrowed_builds.squares();
                proof {
                    if flags & STOP_ON_MATE == 0 {
                        assert forall|b: int| 0 <= b < 25 && #[trigger] worker_next_build_state.all_possible_builds.has(b) && (flags
                            & INTERACT_WITH_KEY_SQUARES == 0 || key_squares.has(worker_end_pos as int) || key_squares.has(b)) implies builds@.contains(
                            b as u8,
                        ) by {
                            if flags & INTERACT_WITH_KEY_SQUARES != 0 && !prelude.key_squares.has(worker_end_pos as int) {
                                crate::bitboard::lemma_bit_and(
                                    worker_next_build_state.all_possible_builds.0,
                                    prelude.key_squares.0,
                                    b as u32,
                                );
                            }
                            assert(worker_next_build_state.narrowed_builds.has(b));
                        }
                    }
                }
                let mut bi: usize = 0;
                while bi < builds.len()
                    invariant
                        flags & NARROWING_FLAGS == 0 && state.gods[1 - player.idx()].is_persephone_spec() && !must_climb ==> forall|d: u32|
                            !#[trigger] is_zeus_turn(*state, player, true, d),
                        bi <= builds@.len(),
                        zeus_prelude_matches(prelude, *state, player),
                        prelude.key_squares == key_squares,
                        worker_start_pos < 25,
                        worker_end_pos < 25,
                        is_acting_worker(*state, player, worker_start_pos as int),
                        is_standard_step(state.board, worker_start_pos as int, worker_end_pos as int, must_climb),
                        !(state.board.height(worker_start_pos as int) == 2 && state.board.height(worker_end_pos as int) == 3),
                        worker_next_build_state.describes(prelude, worker_start_pos as int, worker_end_pos as int),
                        forall|k: int| 0 <= k < builds@.len() ==> #[trigger] builds@[k] < 25
                            && worker_next_build_state.narrowed_builds.has(builds@[k] as int),
                        forall|k: int| 0 <= k < result@.len() ==> #[trigger] is_zeus_turn(*state, player, must_climb, result@[k].action.0),
                        flags & STOP_ON_MATE == 0 ==> forall|data: u32| #[trigger] is_zeus_turn(*state, player, must_climb, data) && is_kept_by_flags(flags, key_squares, data) && (exists|j: int|
                            0 <= j < wi && workers@[j] as u32 == field_at(data, 0)) ==> lists_word(result@, data),
                        flags & STOP_ON_MATE == 0 ==> forall|data: u32| #[trigger] is_zeus_turn(*state, player, must_climb, data) && is_kept_by_flags(flags, key_squares, data) && field_at(data, 0)
                            == worker_start_pos && is_winning_data(data) ==> lists_word(result@, data),
                        flags & STOP_ON_MATE == 0 ==> forall|data: u32| #[trigger] is_zeus_turn(*state, player, must_climb, data) && is_kept_by_flags(flags, key_squares, data) && field_at(data, 0)
                            == worker_start_pos && !is_winning_data(data) && (exists|j: int| 0 <= j < ei && ends@[j] as u32 == field_at(data, 5))
                            ==> lists_word(result@, data),
                        flags & STOP_ON_MATE == 0 ==> forall|data: u32| #[trigger] is_zeus_turn(*state, player, must_climb, data) && is_kept_by_flags(flags, key_squares, data) && field_at(data, 0)
                            == worker_start_pos && !is_winning_data(data) && field_at(data, 5) == worker_end_pos && field_at(data, 10)
                            == worker_end_pos ==> lists_word(result@, data),
                        flags & STOP_ON_MATE == 0 ==> forall|data: u32| #[trigger] is_zeus_turn(*state, player, must_climb, data) && is_kept_by_flags(flags, key_squares, data) && field_at(data, 0)
                            == worker_start_pos && !is_winning_data(data) && field_at(data, 5) == worker_end_pos && (exists|j: int| 0 <= j < bi
                            && builds@[j] as u32 == field_at(data, 10)) ==> lists_word(result@, data),
                        flags & STOP_ON_MATE == 0 ==> forall|b: int| 0 <= b < 25 && #[trigger] worker_next_build_state.all_possible_builds.has(b) && (flags & INTERACT_WITH_KEY_SQUARES == 0 || key_squares.has(worker_end_pos as int) || key_squares.has(b)) ==> builds@.contains(b as u8),
                        ei < ends@.len(),
                        ends@[ei as int] == worker_end_pos,
                    decreases builds@.len() - bi,
                {
                    let worker_build_pos = builds[bi];
                    let build_mask = BitBoard::as_mask(worker_build_pos);
                    let new_action = MortalMove::new_basic_move(worker_start_pos, worker_end_pos, worker_build_pos);
                    let final_level_3 = prelude.exactly_level_2.and(build_mask).or(prelude.exactly_level_3.minus(build_mask));
                    let is_check = reach_board.and(final_level_3).is_not_empty();
                    let ghost before = result@;
                    result.push(build_scored_move(flags, new_action.to_generic(), is_check, worker_end_move_state.is_improving));
                    proof {
                        lemma_lists_word_grows(before, result@);
                        assert(result@[before.len() as int].action.0 == mortal_basic_data(worker_start_pos as u32, worker_end_pos as u32, worker_build_pos as u32));
                        lemma_mortal_move_round_trip(worker_start_pos as u32, worker_end_pos as u32, worker_build_pos as u32);
                        assert(worker_next_build_state.all_possible_builds.has(worker_build_pos as int));
                        assert(prelude.build_mask.has(worker_build_pos as int));
                        assert forall|k: int| 0 <= k < result@.len() implies #[trigger] is_zeus_turn(
                            *state,
                            player,
                            must_climb,
                            result@[k].action.0,
                        ) by {
                            if k < before.len() {
                                assert(result@[k] == before[k]);
                            }
                        }
                    }
                    bi = bi + 1;
                }
                proof {
                    if flags & STOP_ON_MATE == 0 {
                        assert forall|data: u32| #[trigger] is_zeus_turn(*state, player, must_climb, data) && is_kept_by_flags(flags, key_squares, data) && field_at(data, 0)
                            == worker_start_pos && !is_winning_data(data) && (exists|j: int| 0 <= j < ei + 1 && ends@[j] as u32 == field_at(data, 5))
                            implies lists_word(result@, data) by {
                            let j = choose|j: int| 0 <= j < ei + 1 && ends@[j] as u32 == field_at(data, 5);
                            if j == ei && field_at(data, 10) != worker_end_pos {
                                let b = field_at(data, 10);
                                assert(worker_next_build_state.all_possible_builds.has(b as int));
                                assert(builds@.contains(b as u8));
                                let jb = choose|jb: int| 0 <= jb < builds@.len() && builds@[jb] == b as u8;
                                assert(builds@[jb] as u32 == field_at(data, 10));
                            }
                        }
                    }
                }
                ei = ei + 1;
            }
            proof {
                if flags & STOP_ON_MATE == 0 {
                    assert forall|data: u32| #[trigger] is_zeus_turn(*state, player, must_climb, data) && is_kept_by_flags(flags, key_squares, data) && (exists|j: int|
                        0 <= j < wi + 1 && workers@[j] as u32 == field_at(data, 0)) implies lists_word(result@, data) by {
                        let j = choose|j: int| 0 <= j < wi + 1 && workers@[j] as u32 == field_at(data, 0);
                        if j == wi && !is_winning_data(data) {
                            let to = field_at(data, 5);
                            assert(ends@.contains(to as u8));
                            let je = choose|je: int| 0 <= je < ends@.len() && ends@[je] == to as u8;
                            assert(ends@[je] as u32 == field_at(data, 5));
                        }
                    }
                }
            }
        }
        wi = wi + 1;
    }
    proof {
        if flags & NARROWING_FLAGS == 0 {
            assert forall|data: u32| #[trigger] zeus_turn_owed(*state, player, must_climb, data) implies lists_word(result@, data) by {
                let f = field_at(data, 0);
                lemma_acting_in_prelude(*state, player, own0, initial_acting, f as int);
                assert(workers@.contains(f as u8));
                let j = choose|j: int| 0 <= j < workers@.len() && workers@[j] == f as u8;
                assert(workers@[j] as u32 == field_at(data, 0));
            }
        }
        if flags & STOP_ON_MATE == 0 {
            assert forall|data: u32| #[trigger] zeus_turn_owed(*state, player, must_climb, data) && is_kept_by_flags(flags, key_squares, data)
                implies lists_word(result@, data) by {
                let f = field_at(data, 0);
                assert(state.board.workers[player.idx()].within_board());
                lemma_acting_in_prelude(*state, player, own0, initial_acting, f as int);
                if flags & MATE_ONLY != 0 {
                    assert(is_winning_data(data));
                    assert(checkable_mask.has(f as int));
                }
                assert(prelude.acting_workers.has(f as int));
                assert(workers@.contains(f as u8));
                let j = choose|j: int| 0 <= j < workers@.len() && workers@[j] == f as u8;
                assert(workers@[j] as u32 == field_at(data, 0));
            }
        }
        if is_mate_only_listing(flags) {
            assert forall|data: u32| #[trigger] zeus_turn_owed(*state, player, must_climb, data) && is_winning_data(data)
                implies lists_word(result@, data) by {
                let f = field_at(data, 0);
                assert(state.board.workers[player.idx()].within_board());
                lemma_acting_in_prelude(*state, player, own0, initial_acting, f as int);
                assert(checkable_mask.has(f as int));
                assert(prelude.acting_workers.has(f as int));
                assert(workers@.contains(f as u8));
                let j = choose|j: int| 0 <= j < workers@.len() && workers@[j] == f as u8;
                assert(workers@[j] as u32 == field_at(data, 0));
            }
        }
    }
    result
}

/// Zeus's fixed data.
pub fn build_zeus() -> (r: GodPower)
    ensures
        r.god_name == GodName::Zeus,
        r.hash1 == 12061343469622292818u64,
        r.hash2 == 398941887106100521u64,
        r.placement_type == PlacementType::Normal,
        r.symmetry == BoardSymmetry::Full,
        !r.is_persephone,
{
    god_power(GodName::Zeus, 12061343469622292818, 398941887106100521)
}

} // verus!
