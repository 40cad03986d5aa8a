use vstd::prelude::*;

use crate::gods::{BoardSymmetry, god_power, GodName, GodPower, PlacementType};

use crate::bitboard::{group_bit_lemmas, popcount, BitBoard, MAIN_SECTION};
use crate::board::{BoardState, FullGameState, Player};
use crate::generic::{
    build_scored_move, field_at, is_mate_only, is_winning_data, MoveGenFlags, ScoredMove, MOVE_IS_WINNING_MASK, NARROWING_FLAGS,
    STOP_ON_MATE,
};
use crate::gods::mortal::{
    lemma_lists_word_grows, lists_word, is_acting_worker, is_standard_build_for, lemma_mortal_move_round_trip, mortal_basic_data, mortal_winning_data,
    MortalMove,
};
use crate::gods::move_helpers::{
    get_basic_moves, get_generator_prelude_state, get_worker_end_move_state, get_worker_next_build_state, get_worker_start_move_state,
    is_standard_build, is_standard_step, is_winning_entry, lemma_popcount_zero, push_winning_moves,
    GeneratorPreludeState,
};
use crate::square::is_square;

verus! {

/// A step of the worker on `from` that does not win by itself: a plain step, but not one from
/// level 2 onto level 3.
pub open spec fn is_proteus_step(board: BoardState, from: int, to: int, must_climb: bool) -> bool {
    &&& is_standard_step(board, from, to, must_climb)
    &&& !(board.height(from) == 2 && board.height(to) == 3)
}

/// Whether the player has a single worker on the board.
pub open spec fn has_lone_worker(state: FullGameState, player: Player) -> bool {
    popcount(state.board.workers[player.idx()].0 & MAIN_SECTION, 32) == 1
}

/// A legal Proteus turn, read off its word. A worker allowed to move wins by climbing from level 2
/// onto level 3. Otherwise any worker of the player is moved onto a square to which another of
/// their workers, one allowed to move, could step without winning, and builds from there. A lone
/// worker moves and builds as a plain one does.
pub open spec fn is_proteus_turn(state: FullGameState, player: Player, must_climb: bool, data: u32) -> bool {
    let board = state.board;
    let from = field_at(data, 0);
    let to = field_at(data, 5);
    let build = field_at(data, 10);
    if is_winning_data(data) {
        &&& data == mortal_winning_data(from, to)
        &&& if has_lone_worker(state, player) {
            board.workers[player.idx()].has(from as int)
        } else {
            is_acting_worker(state, player, from as int)
        }
        &&& is_standard_step(board, from as int, to as int, must_climb)
        &&& board.height(from as int) == 2
        &&& board.height(to as int) == 3
    } else {
        &&& data == mortal_basic_data(from, to, build)
        &&& board.workers[player.idx()].has(from as int)
        &&& if has_lone_worker(state, player) {
            is_proteus_step(board, from as int, to as int, must_climb)
        } else {
            exists|o: int|
                o != from && is_acting_worker(state, player, o) && #[trigger] is_proteus_step(
                    board,
                    o,
                    to as int,
                    must_climb,
                )
        }
        &&& is_standard_build_for(state, player, from as int, to as int, build as int)
    }
}

/// A move of a lone worker as the generator sees it.
pub open spec fn is_lone_worker_move(prelude: GeneratorPreludeState, must_climb: bool, data: u32) -> bool {
    let board = prelude.board;
    let from = field_at(data, 0);
    let to = field_at(data, 5);
    let build = field_at(data, 10);
    &&& prelude.own_workers.has(from as int)
    &&& if is_winning_data(data) {
        &&& data == mortal_winning_data(from, to)
        &&& is_standard_step(board, from as int, to as int, must_climb)
        &&& board.height(from as int) == 2
        &&& board.height(to as int) == 3
    } else {
        &&& data == mortal_basic_data(from, to, build)
        &&& is_proteus_step(board, from as int, to as int, must_climb)
        &&& is_standard_build(board, prelude.build_mask, from as int, to as int, build as int)
    }
}

/// A Proteus turn can be played: the squares are on the board, the mover is the player's, it
/// lands on a free square, and a build goes on an undomed square.
pub proof fn lemma_proteus_turn_playable(state: FullGameState, player: Player, data: u32)
    requires
        state.board.wf(),
        is_proteus_turn(state, player, false, data),
    ensures
        field_at(data, 0) < 25,
        field_at(data, 5) < 25,
        field_at(data, 10) < 25,
        !is_winning_data(data) ==> state.board.height(field_at(data, 10) as int) < 4,
        state.board.workers[player.idx()].has(field_at(data, 0) as int),
        !state.board.occupied(field_at(data, 5) as int),
{
    let board = state.board;
    let p = player.idx();
    let from = field_at(data, 0);
    let to = field_at(data, 5);
    assert(board.workers[p].within_board());
    if is_winning_data(data) {
        assert(board.workers[p].has(from as int));
        lemma_mortal_move_round_trip(from, to, 0);
    } else if !has_lone_worker(state, player) {
        let o = choose|o: int|
            o != from && is_acting_worker(state, player, o) && #[trigger] is_proteus_step(board, o, to as int, false);
        assert(is_proteus_step(board, o, to as int, false));
    }
}

/// Knowing that a set of one member has a member on the board, and only that one.
proof fn lemma_single_member(prelude: GeneratorPreludeState)
    requires
        prelude.inv(),
        popcount(prelude.own_workers.0, 32) == 1,
    ensures
        exists|i: int| 0 <= i < 25 && #[trigger] prelude.own_workers.has(i),
        forall|i: int, j: int| #[trigger] prelude.own_workers.has(i) && #[trigger] prelude.own_workers.has(j) ==> i == j,
{
    broadcast use group_bit_lemmas;

    if prelude.own_workers.0 == 0 {
        lemma_popcount_zero(32);
    }
    crate::bitboard::lemma_nonzero_has_bit(prelude.own_workers.0);
    let i = choose|i: u32| i < 32 && #[trigger] crate::bitboard::bit(prelude.own_workers.0, i);
    assert(prelude.own_workers.has(i as int));
    assert(prelude.board.workers[prelude.player.idx()].within_board());
    assert(prelude.board.workers[prelude.player.idx()].has(i as int));
    crate::gods::hypnus::lemma_popcount_bits(prelude.own_workers.0, 32);
    assert forall|a: int, b: int| #[trigger] prelude.own_workers.has(a) && #[trigger] prelude.own_workers.has(b) implies a == b by {
        let c = choose|c: u32| c < 32 && #[trigger] crate::bitboard::bit(prelude.own_workers.0, c) && forall|d: u32|
            d < 32 && d != c ==> !#[trigger] crate::bitboard::bit(prelude.own_workers.0, d);
        assert(crate::bitboard::bit(prelude.own_workers.0, a as u32));
        assert(crate::bitboard::bit(prelude.own_workers.0, b as u32));
    }
}

/// Moves of a player down to a single worker: that worker's plain moves, where a climb from
/// level 2 onto level 3 wins.
pub fn proteus_single_worker_move_gen(flags: MoveGenFlags, prelude: &GeneratorPreludeState, must_climb: bool) -> (result: Vec<
    ScoredMove,
>)
    requires
        prelude.inv(),
        popcount(prelude.own_workers.0, 32) == 1,
    ensures
        forall|k: int| 0 <= k < result@.len() ==> #[trigger] is_lone_worker_move(*prelude, must_climb, result@[k].action.0),
        flags & NARROWING_FLAGS == 0 ==> forall|data: u32| #[trigger] is_lone_worker_move(*prelude, must_climb, data) ==> lists_word(
            result@,
            data,
        ),
{
    broadcast use group_bit_lemmas;

    proof {
        crate::generic::lemma_no_flags(flags);
    }
    let mut result: Vec<ScoredMove> = Vec::new();
    proof {
        lemma_single_member(*prelude);
    }
    let worker_start_pos = prelude.own_workers.lsb();
    let worker_start_state = get_worker_start_move_state(prelude, worker_start_pos);

    if is_mate_only(flags) && worker_start_state.worker_start_height != 2 {
        return result;
    }

    let mut worker_moves = get_basic_moves(prelude, &worker_start_state, must_climb);
    let ghost orig = worker_moves;

    if is_mate_only(flags) || worker_start_state.worker_start_height == 2 {
        let moves_to_level_3 = worker_moves.and(prelude.exactly_level_3).and(prelude.win_mask);
        let stop = push_winning_moves(flags, &mut result, worker_start_pos, moves_to_level_3, 0);
        proof {
            assert forall|k: int| 0 <= k < result@.len() implies #[trigger] is_lone_worker_move(
                *prelude,
                must_climb,
                result@[k].action.0,
            ) by {
                assert(is_winning_entry(result@[k], worker_start_pos, moves_to_level_3, 0));
                let sq = choose|sq: u8|
                    sq < 25 && #[trigger] moves_to_level_3.has(sq as int) && result@[k].action.0 == (worker_start_pos as u32)
                        | ((sq as u32) << 5u32) | 0u32 | MOVE_IS_WINNING_MASK;
                lemma_mortal_move_round_trip(worker_start_pos as u32, sq as u32, 0);
                crate::bitboard::lemma_or_zero((worker_start_pos as u32) | ((sq as u32) << 5u32));
            }
            if flags & NARROWING_FLAGS == 0 && !stop {
                assert forall|data: u32| #[trigger] is_lone_worker_move(*prelude, must_climb, data) && is_winning_data(data)
                    implies lists_word(result@, data) by {
                    let to = field_at(data, 5);
                    assert(prelude.own_workers.has(worker_start_pos as int));
                    assert(field_at(data, 0) == worker_start_pos);
                    assert(moves_to_level_3.has(to as int));
                    let k = choose|k: int| 0 <= k < result@.len() && #[trigger] result@[k].action.0
                        == (worker_start_pos as u32) | (((to as int) as u32) << 5u32) | 0u32 | MOVE_IS_WINNING_MASK;
                    crate::bitboard::lemma_or_zero((worker_start_pos as u32) | ((to as u32) << 5u32));
                    assert(result@[k].action.0 == data);
                }
            }
        }
        if stop {
            return result;
        }
        worker_moves = worker_moves.xor(moves_to_level_3);
    }

    if is_mate_only(flags) {
        return result;
    }
    let ghost r1 = result@;
    proof {
        assert forall|i: int| #[trigger] worker_moves.has(i) == is_proteus_step(prelude.board, worker_start_pos as int, i, must_climb) by {
            assert(orig.has(i) == is_standard_step(prelude.board, worker_start_pos as int, i, must_climb));
        }
    }

    let ends = worker_moves.squares();
    let mut ei: usize = 0;
    while ei < ends.len()
        invariant
            ei <= ends@.len(),
            prelude.inv(),
            worker_start_pos < 25,
            prelude.own_workers.has(worker_start_pos as int),
            forall|i: int, j: int| #[trigger] prelude.own_workers.has(i) && #[trigger] prelude.own_workers.has(j) ==> i == j,
            worker_start_state.describes(*prelude, worker_start_pos as int),
            forall|k: int| 0 <= k < ends@.len() ==> #[trigger] ends@[k] < 25 && is_proteus_step(
                prelude.board,
                worker_start_pos as int,
                ends@[k] as int,
                must_climb,
            ),
            forall|k: int| 0 <= k < result@.len() ==> #[trigger] is_lone_worker_move(*prelude, must_climb, result@[k].action.0),
            flags & NARROWING_FLAGS == 0 ==> flags & 1u32 == 0 && flags & 2u32 == 0 && flags & 8u32 == 0,
            r1.len() <= result@.len(),
            forall|k: int| 0 <= k < r1.len() ==> #[trigger] result@[k] == r1[k],
            flags & NARROWING_FLAGS == 0 ==> forall|data: u32| #[trigger] is_lone_worker_move(*prelude, must_climb, data)
                && !is_winning_data(data) && (exists|j: int| 0 <= j < ei && ends@[j] as u32 == field_at(data, 5)) ==> lists_word(result@, data),
        decreases ends@.len() - ei,
    {
        let worker_end_pos = ends[ei];
        let worker_end_move_state = get_worker_end_move_state(prelude, &worker_start_state, worker_end_pos);
        let build_state = get_worker_next_build_state(flags, prelude, &worker_start_state, &worker_end_move_state);
        let next_turn_moves = if worker_end_move_state.worker_end_height == 2 {
            crate::bitboard::neighbor_mask(worker_end_pos).and(build_state.unblocked_squares)
        } else {
            BitBoard::empty()
        };
        let builds = build_state.narrowed_builds.squares();
        let ghost re = result@;
        let mut bi: usize = 0;
        while bi < builds.len()
            invariant
                bi <= builds@.len(),
                prelude.inv(),
                worker_start_pos < 25,
                worker_end_pos < 25,
                prelude.own_workers.has(worker_start_pos as int),
                is_proteus_step(prelude.board, worker_start_pos as int, worker_end_pos as int, must_climb),
                build_state.describes(*prelude, worker_start_pos as int, worker_end_pos as int),
                forall|k: int| 0 <= k < builds@.len() ==> #[trigger] builds@[k] < 25 && build_state.narrowed_builds.has(
                    builds@[k] as int,
                ),
                forall|k: int| 0 <= k < result@.len() ==> #[trigger] is_lone_worker_move(*prelude, must_climb, result@[k].action.0),
                re.len() <= result@.len(),
                forall|k: int| 0 <= k < re.len() ==> #[trigger] result@[k] == re[k],
                forall|j: int| 0 <= j < bi ==> #[trigger] lists_word(
                    result@,
                    mortal_basic_data(worker_start_pos as u32, worker_end_pos as u32, builds@[j] as u32),
                ),
            decreases builds@.len() - bi,
        {
            let worker_build_pos = builds[bi];
            let build_mask = BitBoard::as_mask(worker_build_pos);
            let new_action = MortalMove::new_basic_move(worker_start_pos, worker_end_pos, worker_build_pos);
            let final_level_2 = prelude.exactly_level_2.and(build_mask).or(prelude.exactly_level_3.minus(build_mask));
            let is_check = next_turn_moves.and(final_level_2).is_not_empty();
            let ghost before = result@;
            result.push(build_scored_move(flags, new_action.to_generic(), is_check, worker_end_move_state.is_improving));
            proof {
                lemma_mortal_move_round_trip(worker_start_pos as u32, worker_end_pos as u32, worker_build_pos as u32);
                assert(build_state.all_possible_builds.has(worker_build_pos as int));
                assert forall|k: int| 0 <= k < result@.len() implies #[trigger] is_lone_worker_move(
                    *prelude,
                    must_climb,
                    result@[k].action.0,
                ) by {
                    if k < before.len() {
                        assert(result@[k] == before[k]);
                    }
                }
                lemma_lists_word_grows(before, result@);
                assert(result@[before.len() as int].action.0 == mortal_basic_data(
                    worker_start_pos as u32,
                    worker_end_pos as u32,
                    worker_build_pos as u32,
                ));
                assert forall|j: int| 0 <= j < bi + 1 implies #[trigger] lists_word(
                    result@,
                    mortal_basic_data(worker_start_pos as u32, worker_end_pos as u32, builds@[j] as u32),
                ) by {
                    if j == bi {
                        assert(result@[before.len() as int].action.0 == mortal_basic_data(
                            worker_start_pos as u32,
                            worker_end_pos as u32,
                            builds@[j] as u32,
                        ));
                    } else {
                        assert(lists_word(before, mortal_basic_data(worker_start_pos as u32, worker_end_pos as u32, builds@[j] as u32)));
                    }
                }
            }
            bi = bi + 1;
        }
        proof {
            lemma_lists_word_grows(re, result@);
            if flags & NARROWING_FLAGS == 0 {
                assert forall|data: u32| #[trigger] is_lone_worker_move(*prelude, must_climb, data) && !is_winning_data(data) && (exists|j: int|
                    0 <= j < ei + 1 && ends@[j] as u32 == field_at(data, 5)) implies lists_word(result@, data) by {
                    let j = choose|j: int| 0 <= j < ei + 1 && ends@[j] as u32 == field_at(data, 5);
                    if j == ei {
                        let b = field_at(data, 10);
                        assert(prelude.own_workers.has(field_at(data, 0) as int));
                        assert(field_at(data, 0) == worker_start_pos);
                        assert(build_state.all_possible_builds.has(b as int));
                        assert(builds@.contains(b as u8));
                        let jb = choose|jb: int| 0 <= jb < builds@.len() && builds@[jb] == b as u8;
                        assert(lists_word(result@, mortal_basic_data(worker_start_pos as u32, worker_end_pos as u32, builds@[jb] as u32)));
                    } else {
                        assert(lists_word(re, data));
                    }
                }
            }
        }
        ei = ei + 1;
    }
    proof {
        lemma_lists_word_grows(r1, result@);
        if flags & NARROWING_FLAGS == 0 {
            assert forall|data: u32| #[trigger] is_lone_worker_move(*prelude, must_climb, data) implies lists_word(result@, data) by {
                assert(field_at(data, 0) == worker_start_pos);
                if is_winning_data(data) {
                    assert(lists_word(r1, data));
                } else {
                    let to = field_at(data, 5);
                    assert(worker_moves.has(to as int));
                    assert(ends@.contains(to as u8));
                    let j = choose|j: int| 0 <= j < ends@.len() && ends@[j] == to as u8;
                    assert(ends@[j] as u32 == field_at(data, 5));
                }
            }
        }
    }
    result
}

/// `moves` are the non-winning steps of the worker on `from`.
pub open spec fn are_proteus_steps_of(moves: BitBoard, board: BoardState, from: int, must_climb: bool) -> bool {
    forall|i: int| #[trigger] moves.has(i) == is_proteus_step(board, from, i, must_climb)
}

/// What the generator knows of its position while it works.
pub open spec fn proteus_prelude_matches(prelude: GeneratorPreludeState, state: FullGameState, player: Player) -> bool {
    &&& prelude.inv()
    &&& state.board.wf()
    &&& prelude.board == state.board
    &&& prelude.player == player
    &&& prelude.other_god == state.gods[1 - player.idx()]
    &&& prelude.own_workers.0 == state.board.workers[player.idx()].0 & MAIN_SECTION
    &&& forall|i: int| #[trigger] prelude.acting_workers.has(i) ==> is_acting_worker(state, player, i)
    &&& prelude.other_god.is_hypnus_spec() ==> prelude.acting_workers.0 == crate::gods::hypnus::hypnus_filter_spec(
        state.board.height_map,
        prelude.own_workers.0,
    )
    &&& !prelude.other_god.is_hypnus_spec() ==> prelude.acting_workers == prelude.own_workers
}

/// The acting workers' steps, one entry per square; winning climbs are pushed to `result` on the
/// way. Returns `None` when generation stops on a win.
fn proteus_worker_moves(
    flags: MoveGenFlags,
    state: &FullGameState,
    player: Player,
    prelude: &GeneratorPreludeState,
    must_climb: bool,
    result: &mut Vec<ScoredMove>,
) -> (r: Option<Vec<BitBoard>>)
    requires
        proteus_prelude_matches(*prelude, *state, player),
        !has_lone_worker(*state, player),
        forall|k: int| 0 <= k < old(result)@.len() ==> #[trigger] is_proteus_turn(*state, player, must_climb, old(result)@[k].action.0),
    ensures
        forall|k: int| 0 <= k < final(result)@.len() ==> #[trigger] is_proteus_turn(*state, player, must_climb, final(result)@[k].action.0),
        r is None <==> flags & STOP_ON_MATE != 0 && exists|s: int, t: int|
            #![trigger prelude.acting_workers.has(s), state.board.height(t)]
            0 <= s < 25 && prelude.acting_workers.has(s) && state.board.height(s) == 2 && is_standard_step(state.board, s, t, must_climb)
                && state.board.height(t) == 3,
        r is Some ==> r->0@.len() == 25 && forall|s: int|
            0 <= s < 25 && #[trigger] prelude.acting_workers.has(s) ==> are_proteus_steps_of(
                r->0@[s],
                state.board,
                s,
                must_climb,
            ),
        old(result)@.len() <= final(result)@.len(),
        forall|k: int| 0 <= k < old(result)@.len() ==> #[trigger] final(result)@[k] == old(result)@[k],
        r is Some && flags & NARROWING_FLAGS == 0 ==> forall|data: u32| #[trigger] is_proteus_turn(*state, player, must_climb, data)
            && is_winning_data(data) ==> lists_word(final(result)@, data),
{
    broadcast use group_bit_lemmas;

    let mut map: Vec<BitBoard> = Vec::new();
    let mut s: usize = 0;
    while s < 25
        invariant
            s <= 25,
            map@.len() == s,
        decreases 25 - s,
    {
        map.push(BitBoard::empty());
        s = s + 1;
    }
    let acting = prelude.acting_workers.squares();
    let ghost r0 = result@;
    proof {
        crate::generic::lemma_no_flags(flags);
    }
    let mut wi: usize = 0;
    while wi < acting.len()
        invariant
            wi <= acting@.len(),
            map@.len() == 25,
            r0 == old(result)@,
            r0.len() <= result@.len(),
            forall|k: int| 0 <= k < r0.len() ==> #[trigger] result@[k] == r0[k],
            flags & NARROWING_FLAGS == 0 ==> flags & 1u32 == 0 && flags & 2u32 == 0 && flags & 8u32 == 0,
            flags & NARROWING_FLAGS == 0 ==> forall|data: u32| #[trigger] is_proteus_turn(*state, player, must_climb, data)
                && is_winning_data(data) && (exists|j: int| 0 <= j < wi && acting@[j] as u32 == field_at(data, 0)) ==> lists_word(result@, data),
            flags & STOP_ON_MATE != 0 ==> forall|k: int, t: int|
                #![trigger acting@[k], state.board.height(t)]
                0 <= k < wi && state.board.height(acting@[k] as int) == 2 && is_standard_step(state.board, acting@[k] as int, t, must_climb)
                    ==> state.board.height(t) != 3,
            proteus_prelude_matches(*prelude, *state, player),
            !has_lone_worker(*state, player),
            forall|k: int| 0 <= k < acting@.len() ==> #[trigger] acting@[k] < 25 && prelude.acting_workers.has(acting@[k] as int),
            forall|k: int| 0 <= k < wi ==> are_proteus_steps_of(#[trigger] map@[acting@[k] as int], state.board, acting@[k] as int, must_climb),
            forall|k: int| 0 <= k < result@.len() ==> #[trigger] is_proteus_turn(*state, player, must_climb, result@[k].action.0),
        decreases acting@.len() - wi,
    {
        let worker_start_pos = acting[wi];
        let worker_start_mask = BitBoard::as_mask(worker_start_pos);
        let worker_start_height = prelude.board.get_height(worker_start_pos);
        let mut worker_moves = crate::gods::move_helpers::get_basic_moves_from_raw_data(
            prelude,
            worker_start_pos,
            worker_start_mask,
            worker_start_height,
            must_climb,
        );
        if worker_start_height == 2 {
            let moves_to_level_3 = worker_moves.and(prelude.exactly_level_3).and(prelude.win_mask);
            let ghost before = result@;
            let stop = push_winning_moves(flags, result, worker_start_pos, moves_to_level_3, 0);
            proof {
                assert(is_acting_worker(*state, player, worker_start_pos as int));
                assert forall|k: int| 0 <= k < result@.len() implies #[trigger] is_proteus_turn(
                    *state,
                    player,
                    must_climb,
                    result@[k].action.0,
                ) by {
                    if k >= before.len() {
                        assert(is_winning_entry(result@[k], worker_start_pos, moves_to_level_3, 0));
                        let sq = choose|sq: u8|
                            sq < 25 && #[trigger] moves_to_level_3.has(sq as int) && result@[k].action.0 == (
                            worker_start_pos as u32) | ((sq as u32) << 5u32) | 0u32 | MOVE_IS_WINNING_MASK;
                        lemma_mortal_move_round_trip(worker_start_pos as u32, sq as u32, 0);
                        crate::bitboard::lemma_or_zero((worker_start_pos as u32) | ((sq as u32) << 5u32));
                    } else {
                        assert(result@[k] == before[k]);
                    }
                }
            }
            if stop {
                proof {
                    let t = choose|t: int| 0 <= t < 25 && #[trigger] moves_to_level_3.has(t);
                    assert(state.board.height(t) == 3);
                }
                return None;
            }
            proof {
                lemma_lists_word_grows(before, result@);
                if flags & NARROWING_FLAGS == 0 {
                    assert forall|data: u32| #[trigger] is_proteus_turn(*state, player, must_climb, data) && is_winning_data(data)
                        && field_at(data, 0) == worker_start_pos implies lists_word(result@, data) by {
                        let to = field_at(data, 5);
                        assert(moves_to_level_3.has(to as int));
                        let k = choose|k: int| before.len() <= k < result@.len() && #[trigger] result@[k].action.0
                            == (worker_start_pos as u32) | (((to as int) as u32) << 5u32) | 0u32 | MOVE_IS_WINNING_MASK;
                        crate::bitboard::lemma_or_zero((worker_start_pos as u32) | ((to as u32) << 5u32));
                        lemma_mortal_move_round_trip(worker_start_pos as u32, to, 0);
                        assert(result@[k].action.0 == data);
                    }
                }
            }
            proof {
                if flags & STOP_ON_MATE != 0 {
                    assert forall|t: int| is_standard_step(state.board, worker_start_pos as int, t, must_climb) implies #[trigger] state.board.height(t) != 3 by {
                        if state.board.height(t) == 3 {
                            assert(moves_to_level_3.has(t));
                        }
                    }
                }
            }
            worker_moves = worker_moves.xor(moves_to_level_3);
        }
        proof {
            if flags & NARROWING_FLAGS == 0 {
                assert forall|data: u32| #[trigger] is_proteus_turn(*state, player, must_climb, data) && is_winning_data(data) && (exists|j: int|
                    0 <= j < wi + 1 && acting@[j] as u32 == field_at(data, 0)) implies lists_word(result@, data) by {
                    let j = choose|j: int| 0 <= j < wi + 1 && acting@[j] as u32 == field_at(data, 0);
                    if j < wi {
                        assert(exists|j: int| 0 <= j < wi && acting@[j] as u32 == field_at(data, 0));
                    } else {
                        assert(state.board.height(worker_start_pos as int) == 2);
                    }
                }
            }
        }
        let ghost old_map = map@;
        map.set(worker_start_pos as usize, worker_moves);
        proof {
            assert(are_proteus_steps_of(worker_moves, state.board, worker_start_pos as int, must_climb));
            assert forall|k: int| 0 <= k < wi + 1 implies are_proteus_steps_of(
                #[trigger] map@[acting@[k] as int],
                state.board,
                acting@[k] as int,
                must_climb,
            ) by {
                if acting@[k] != worker_start_pos {
                    assert(map@[acting@[k] as int] == old_map[acting@[k] as int]);
                }
            }
        }
        wi = wi + 1;
    }
    proof {
        assert forall|s: int| 0 <= s < 25 && #[trigger] prelude.acting_workers.has(s) implies are_proteus_steps_of(
            map@[s],
            state.board,
            s,
            must_climb,
        ) by {
            assert(acting@.contains(s as u8));
            let k = choose|k: int| 0 <= k < acting@.len() && acting@[k] == s as u8;
            assert(are_proteus_steps_of(map@[acting@[k] as int], state.board, acting@[k] as int, must_climb));
        }
    }
    proof {
        if flags & NARROWING_FLAGS == 0 {
            assert forall|data: u32| #[trigger] is_proteus_turn(*state, player, must_climb, data) && is_winning_data(data) implies lists_word(
                result@,
                data,
            ) by {
                let f = field_at(data, 0);
                crate::gods::mortal::lemma_acting_in_prelude(*state, player, prelude.own_workers, prelude.acting_workers, f as int);
                assert(acting@.contains(f as u8));
                let j = choose|j: int| 0 <= j < acting@.len() && acting@[j] == f as u8;
                assert(acting@[j] as u32 == field_at(data, 0));
            }
        }
        if flags & STOP_ON_MATE != 0 {
            assert forall|s: int, t: int|
                #![trigger prelude.acting_workers.has(s), state.board.height(t)]
                0 <= s < 25 && prelude.acting_workers.has(s) && state.board.height(s) == 2 && is_standard_step(state.board, s, t, must_climb)
                    implies state.board.height(t) != 3 by {
                assert(acting@.contains(s as u8));
                let k = choose|k: int| 0 <= k < acting@.len() && acting@[k] == s as u8;
                assert(acting@[k] as int == s);
            }
        }
    }
    Some(map)
}

/// The turns in which the worker on `worker_start_pos` takes the place of a step of another acting
/// worker. Each destination is played once over all of those workers.
fn push_proteus_takeovers(
    flags: MoveGenFlags,
    state: &FullGameState,
    player: Player,
    prelude: &GeneratorPreludeState,
    must_climb: bool,
    map: &Vec<BitBoard>,
    worker_start_pos: u8,
    result: &mut Vec<ScoredMove>,
)
    requires
        proteus_prelude_matches(*prelude, *state, player),
        !has_lone_worker(*state, player),
        worker_start_pos < 25,
        prelude.own_workers.has(worker_start_pos as int),
        map@.len() == 25,
        forall|s: int| 0 <= s < 25 && #[trigger] prelude.acting_workers.has(s) ==> are_proteus_steps_of(
            map@[s],
            state.board,
            s,
            must_climb,
        ),
        forall|k: int| 0 <= k < old(result)@.len() ==> #[trigger] is_proteus_turn(*state, player, must_climb, old(result)@[k].action.0),
    ensures
        forall|k: int| 0 <= k < final(result)@.len() ==> #[trigger] is_proteus_turn(*state, player, must_climb, final(result)@[k].action.0),
        old(result)@.len() <= final(result)@.len(),
        forall|k: int| 0 <= k < old(result)@.len() ==> #[trigger] final(result)@[k] == old(result)@[k],
        flags & NARROWING_FLAGS == 0 ==> forall|data: u32| #[trigger] is_proteus_turn(*state, player, must_climb, data)
            && !is_winning_data(data) && field_at(data, 0) == worker_start_pos ==> lists_word(final(result)@, data),
{
    broadcast use group_bit_lemmas;

    let worker_start_state = get_worker_start_move_state(prelude, worker_start_pos);
    let worker_start_mask = worker_start_state.worker_start_mask;
    let other_active_workers = prelude.acting_workers.minus(worker_start_mask);
    let other_threatening_workers = prelude.own_workers.xor(worker_start_mask).and(prelude.exactly_level_2);
    let other_threatening_neighbors = crate::bitboard::apply_neighbor_map_to_mask(other_threatening_workers);
    let mut remaining_moves = BitBoard::main_section();
    let others = other_active_workers.squares();
    let ghost r0 = result@;
    proof {
        crate::generic::lemma_no_flags(flags);
    }
    let mut oi: usize = 0;
    while oi < others.len()
        invariant
            oi <= others@.len(),
            r0 == old(result)@,
            r0.len() <= result@.len(),
            forall|k: int| 0 <= k < r0.len() ==> #[trigger] result@[k] == r0[k],
            flags & NARROWING_FLAGS == 0 ==> flags & 1u32 == 0 && flags & 2u32 == 0 && flags & 8u32 == 0,
            forall|i: int| #[trigger] remaining_moves.has(i) ==> is_square(i),
            forall|j: int, i: int| #![trigger map@[others@[j] as int].has(i)] 0 <= j < oi && map@[others@[j] as int].has(i)
                ==> !remaining_moves.has(i),
            flags & NARROWING_FLAGS == 0 ==> forall|data: u32| #[trigger] is_proteus_turn(*state, player, must_climb, data)
                && !is_winning_data(data) && field_at(data, 0) == worker_start_pos && !remaining_moves.has(field_at(data, 5) as int)
                ==> lists_word(result@, data),
            proteus_prelude_matches(*prelude, *state, player),
            !has_lone_worker(*state, player),
            worker_start_pos < 25,
            prelude.own_workers.has(worker_start_pos as int),
            worker_start_state.describes(*prelude, worker_start_pos as int),
            map@.len() == 25,
            forall|s: int| 0 <= s < 25 && #[trigger] prelude.acting_workers.has(s) ==> are_proteus_steps_of(
                map@[s],
                state.board,
                s,
                must_climb,
            ),
            forall|k: int| 0 <= k < others@.len() ==> #[trigger] others@[k] < 25 && other_active_workers.has(others@[k] as int),
            forall|i: int| #[trigger] other_active_workers.has(i) == (prelude.acting_workers.has(i) && i != worker_start_pos),
            forall|k: int| 0 <= k < result@.len() ==> #[trigger] is_proteus_turn(*state, player, must_climb, result@[k].action.0),
        decreases others@.len() - oi,
    {
        let other_worker_start_pos = others[oi];
        let ghost rem_before = remaining_moves;
        let ghost ro = result@;
        let other_worker_moves = map[other_worker_start_pos as usize].and(remaining_moves);
        remaining_moves = remaining_moves.xor(other_worker_moves);
        proof {
            assert(prelude.acting_workers.has(other_worker_start_pos as int));
            assert(is_acting_worker(*state, player, other_worker_start_pos as int));
        }
        let ends = other_worker_moves.squares();
        let mut ei: usize = 0;
        while ei < ends.len()
            invariant
                ei <= ends@.len(),
                proteus_prelude_matches(*prelude, *state, player),
                !has_lone_worker(*state, player),
                worker_start_pos < 25,
                other_worker_start_pos < 25,
                other_worker_start_pos != worker_start_pos,
                is_acting_worker(*state, player, other_worker_start_pos as int),
                prelude.own_workers.has(worker_start_pos as int),
                worker_start_state.describes(*prelude, worker_start_pos as int),
                forall|k: int| 0 <= k < ends@.len() ==> #[trigger] ends@[k] < 25 && is_proteus_step(
                    state.board,
                    other_worker_start_pos as int,
                    ends@[k] as int,
                    must_climb,
                ),
                forall|k: int| 0 <= k < result@.len() ==> #[trigger] is_proteus_turn(*state, player, must_climb, result@[k].action.0),
                flags & NARROWING_FLAGS == 0 ==> flags & 1u32 == 0 && flags & 2u32 == 0 && flags & 8u32 == 0,
                ro.len() <= result@.len(),
                forall|k: int| 0 <= k < ro.len() ==> #[trigger] result@[k] == ro[k],
                flags & NARROWING_FLAGS == 0 ==> forall|data: u32| #[trigger] is_proteus_turn(*state, player, must_climb, data)
                    && !is_winning_data(data) && field_at(data, 0) == worker_start_pos && (exists|j: int| 0 <= j < ei && ends@[j] as u32
                    == field_at(data, 5)) ==> lists_word(result@, data),
            decreases ends@.len() - ei,
        {
            let worker_end_pos = ends[ei];
            let worker_end_move_state = get_worker_end_move_state(prelude, &worker_start_state, worker_end_pos);
            let build_state = get_worker_next_build_state(flags, prelude, &worker_start_state, &worker_end_move_state);
            let is_mate_capable: u32 = if worker_end_move_state.worker_end_height == 2 { 1 } else { 0 };
            let reach_board = crate::gods::move_helpers::get_standard_reach_board_from_parts(
                prelude,
                other_threatening_workers,
                other_threatening_neighbors,
                worker_end_pos,
                is_mate_capable,
                build_state.unblocked_squares,
            );
            let builds = build_state.narrowed_builds.squares();
            let ghost re = result@;
            let mut bi: usize = 0;
            while bi < builds.len()
                invariant
                    bi <= builds@.len(),
                    re.len() <= result@.len(),
                    forall|k: int| 0 <= k < re.len() ==> #[trigger] result@[k] == re[k],
                    forall|j: int| 0 <= j < bi ==> #[trigger] lists_word(
                        result@,
                        mortal_basic_data(worker_start_pos as u32, worker_end_pos as u32, builds@[j] as u32),
                    ),
                    proteus_prelude_matches(*prelude, *state, player),
                    !has_lone_worker(*state, player),
                    worker_start_pos < 25,
                    worker_end_pos < 25,
                    other_worker_start_pos != worker_start_pos,
                    is_acting_worker(*state, player, other_worker_start_pos as int),
                    is_proteus_step(state.board, other_worker_start_pos as int, worker_end_pos as int, must_climb),
                    prelude.own_workers.has(worker_start_pos as int),
                    build_state.describes(*prelude, worker_start_pos as int, worker_end_pos as int),
                    forall|k: int| 0 <= k < builds@.len() ==> #[trigger] builds@[k] < 25 && build_state.narrowed_builds.has(
                        builds@[k] as int,
                    ),
                    forall|k: int| 0 <= k < result@.len() ==> #[trigger] is_proteus_turn(*state, player, must_climb, result@[k].action.0),
                decreases builds@.len() - bi,
            {
                let worker_build_pos = builds[bi];
                let build_mask = BitBoard::as_mask(worker_build_pos);
                let new_action = MortalMove::new_basic_move(worker_start_pos, worker_end_pos, worker_build_pos);
                let final_level_3 = prelude.exactly_level_2.and(build_mask).or(prelude.exactly_level_3.minus(build_mask));
                let is_check = reach_board.and(final_level_3).is_not_empty();
                let ghost before = result@;
                result.push(build_scored_move(flags, new_action.to_generic(), is_check, worker_end_move_state.is_improving));
                proof {
                    lemma_mortal_move_round_trip(worker_start_pos as u32, worker_end_pos as u32, worker_build_pos as u32);
                    assert(build_state.all_possible_builds.has(worker_build_pos as int));
                    let data = new_action.0;
                    assert(is_proteus_step(state.board, other_worker_start_pos as int, worker_end_pos as int, must_climb));
                    assert(state.board.workers[player.idx()].has(worker_start_pos as int));
                    assert(is_proteus_turn(*state, player, must_climb, data));
                    assert forall|k: int| 0 <= k < result@.len() implies #[trigger] is_proteus_turn(
                        *state,
                        player,
                        must_climb,
                        result@[k].action.0,
                    ) by {
                        if k < before.len() {
                            assert(result@[k] == before[k]);
                        }
                    }
                    lemma_lists_word_grows(before, result@);
                    assert forall|j: int| 0 <= j < bi + 1 implies #[trigger] lists_word(
                        result@,
                        mortal_basic_data(worker_start_pos as u32, worker_end_pos as u32, builds@[j] as u32),
                    ) by {
                        if j == bi {
                            assert(result@[before.len() as int].action.0 == mortal_basic_data(
                                worker_start_pos as u32,
                                worker_end_pos as u32,
                                builds@[j] as u32,
                            ));
                        } else {
                            assert(lists_word(before, mortal_basic_data(worker_start_pos as u32, worker_end_pos as u32, builds@[j] as u32)));
                        }
                    }
                }
                bi = bi + 1;
            }
            proof {
                lemma_lists_word_grows(re, result@);
                if flags & NARROWING_FLAGS == 0 {
                    assert forall|data: u32| #[trigger] is_proteus_turn(*state, player, must_climb, data) && !is_winning_data(data)
                        && field_at(data, 0) == worker_start_pos && (exists|j: int| 0 <= j < ei + 1 && ends@[j] as u32 == field_at(data, 5))
                        implies lists_word(result@, data) by {
                        let j = choose|j: int| 0 <= j < ei + 1 && ends@[j] as u32 == field_at(data, 5);
                        if j == ei {
                            let b = field_at(data, 10);
                            assert(build_state.all_possible_builds.has(b as int));
                            assert(builds@.contains(b as u8));
                            let jb = choose|jb: int| 0 <= jb < builds@.len() && builds@[jb] == b as u8;
                            assert(lists_word(result@, mortal_basic_data(worker_start_pos as u32, worker_end_pos as u32, builds@[jb] as u32)));
                        } else {
                            assert(lists_word(re, data));
                        }
                    }
                }
            }
            ei = ei + 1;
        }
        proof {
            lemma_lists_word_grows(ro, result@);
            if flags & NARROWING_FLAGS == 0 {
                assert forall|data: u32| #[trigger] is_proteus_turn(*state, player, must_climb, data) && !is_winning_data(data)
                    && field_at(data, 0) == worker_start_pos && !remaining_moves.has(field_at(data, 5) as int) implies lists_word(
                    result@,
                    data,
                ) by {
                    let to = field_at(data, 5);
                    if rem_before.has(to as int) {
                        assert(other_worker_moves.has(to as int));
                        assert(ends@.contains(to as u8));
                        let j = choose|j: int| 0 <= j < ends@.len() && ends@[j] == to as u8;
                        assert(ends@[j] as u32 == field_at(data, 5));
                    } else {
                        assert(lists_word(ro, data));
                    }
                }
            }
            assert forall|j: int, i: int| #![trigger map@[others@[j] as int].has(i)] 0 <= j < oi + 1 && map@[others@[j] as int].has(i)
                implies !remaining_moves.has(i) by {
                if j < oi {
                    assert(!rem_before.has(i));
                }
            }
        }
        oi = oi + 1;
    }
    proof {
        if flags & NARROWING_FLAGS == 0 {
            assert forall|data: u32| #[trigger] is_proteus_turn(*state, player, must_climb, data) && !is_winning_data(data)
                && field_at(data, 0) == worker_start_pos implies lists_word(result@, data) by {
                let to = field_at(data, 5);
                let o = choose|o: int|
                    o != field_at(data, 0) && is_acting_worker(*state, player, o) && #[trigger] is_proteus_step(state.board, o, to as int, must_climb);
                crate::gods::mortal::lemma_acting_in_prelude(*state, player, prelude.own_workers, prelude.acting_workers, o);
                assert(other_active_workers.has(o));
                assert(others@.contains(o as u8));
                let j = choose|j: int| 0 <= j < others@.len() && others@[j] == o as u8;
                assert(map@[others@[j] as int].has(to as int));
                assert(!remaining_moves.has(to as int));
            }
        }
    }
}

/// A worker of the player stands on a square of the generator's own workers.
proof fn lemma_own_worker_in_prelude(prelude: GeneratorPreludeState, state: FullGameState, player: Player, from: int)
    requires
        proteus_prelude_matches(prelude, state, player),
        state.board.workers[player.idx()].has(from),
    ensures
        prelude.own_workers.has(from),
        0 <= from < 25,
{
    broadcast use group_bit_lemmas;
    broadcast use crate::bitboard::lemma_main_section;

    assert(state.board.workers[player.idx()].within_board());
    assert(crate::bitboard::bit(MAIN_SECTION, from as u32));
}

/// The turns the generator owes with no narrowing filter on: every legal turn, except that against
/// Persephone, when a climb exists, only the climbing ones.
pub open spec fn proteus_turn_owed(state: FullGameState, player: Player, must_climb: bool, data: u32) -> bool {
    &&& is_proteus_turn(state, player, must_climb, data)
    &&& (state.gods[1 - player.idx()].is_persephone_spec() && !must_climb && exists|d: u32| #[trigger] is_proteus_turn(state, player, true, d))
        ==> is_proteus_turn(state, player, true, data)
}

/// Proteus's move generator; `must_climb` asks for climbing moves only, which is how Persephone's
/// restriction is applied.
pub fn proteus_move_gen(
    flags: MoveGenFlags,
    state: &FullGameState,
    player: Player,
    key_squares: BitBoard,
    must_climb: bool,
) -> (result: Vec<ScoredMove>)
    requires
        state.board.wf(),
    ensures
        forall|k: int| 0 <= k < result@.len() ==> #[trigger] is_proteus_turn(*state, player, must_climb, result@[k].action.0),
        flags & NARROWING_FLAGS == 0 ==> forall|data: u32| #[trigger] proteus_turn_owed(*state, player, must_climb, data) ==> lists_word(
            result@,
            data,
        ),
        flags & NARROWING_FLAGS == 0 && state.gods[1 - player.idx()].is_persephone_spec() && !must_climb && (exists|d: u32|
            #[trigger] is_proteus_turn(*state, player, true, d)) ==> forall|k: int| 0 <= k < result@.len()
            ==> #[trigger] is_proteus_turn(*state, player, true, result@[k].action.0),
    decreases if must_climb { 0int } else { 1int },
{
    broadcast use group_bit_lemmas;

    proof {
        crate::generic::lemma_no_flags(flags);
    }

    let mut result = if state.gods[player.other().index()].is_persephone() && !must_climb {
        let climbing = proteus_move_gen(flags, state, player, key_squares, true);
        proof {
            assert forall|k: int| 0 <= k < climbing@.len() implies #[trigger] is_proteus_turn(
                *state,
                player,
                must_climb,
                climbing@[k].action.0,
            ) by {
                lemma_climbing_proteus_turn_is_turn(*state, player, climbing@[k].action.0);
            }
        }
        if climbing.len() > 0 {
            proof {
                if flags & NARROWING_FLAGS == 0 {
                    assert(is_proteus_turn(*state, player, true, climbing@[0].action.0));
                    assert forall|data: u32| #[trigger] proteus_turn_owed(*state, player, must_climb, data) implies lists_word(climbing@, data) by {
                        assert(proteus_turn_owed(*state, player, true, data));
                    }
                }
            }
            return climbing;
        }
        proof {
            if flags & NARROWING_FLAGS == 0 {
                assert forall|d: u32| !#[trigger] is_proteus_turn(*state, player, true, d) by {
                    if is_proteus_turn(*state, player, true, d) {
                        assert(proteus_turn_owed(*state, player, true, d));
                    }
                }
            }
        }
        if flags & crate::generic::ANY_MOVE_FILTER > 0 {
            let unrestricted = proteus_move_gen(0, state, player, key_squares, true);
            if unrestricted.len() > 0 {
                return climbing;
            }
        }
        climbing
    } else {
        Vec::new()
    };
    assert(flags & NARROWING_FLAGS == 0 && state.gods[1 - player.idx()].is_persephone_spec() && !must_climb ==> forall|d: u32|
        !#[trigger] is_proteus_turn(*state, player, true, d));

    let prelude = get_generator_prelude_state(state, player, key_squares);
    proof {
        assert forall|i: int| #[trigger] prelude.acting_workers.has(i) implies is_acting_worker(*state, player, i) by {
            crate::gods::mortal::lemma_prelude_acting(*state, player, prelude.own_workers, prelude.acting_workers, i);
        }
    }
    if prelude.own_workers.count_ones() == 1 {
        let lone = proteus_single_worker_move_gen(flags, &prelude, must_climb);
        proof {
            assert forall|k: int| 0 <= k < lone@.len() implies #[trigger] is_proteus_turn(
                *state,
                player,
                must_climb,
                lone@[k].action.0,
            ) by {
                let data = lone@[k].action.0;
                assert(is_lone_worker_move(prelude, must_climb, data));
                assert(prelude.own_workers.has(field_at(data, 0) as int));
                if !is_winning_data(data) {
                    assert(prelude.build_mask.has(field_at(data, 10) as int));
                }
            }
            if flags & NARROWING_FLAGS == 0 {
                assert forall|data: u32| #[trigger] proteus_turn_owed(*state, player, must_climb, data) implies lists_word(lone@, data) by {
                    assert(has_lone_worker(*state, player));
                    lemma_own_worker_in_prelude(prelude, *state, player, field_at(data, 0) as int);
                    assert(is_lone_worker_move(prelude, must_climb, data));
                }
            }
        }
        return lone;
    }

    if is_mate_only(flags) {
        let lvl_2_acting = prelude.acting_workers.and(prelude.exactly_level_2).squares();
        let mut wi: usize = 0;
        while wi < lvl_2_acting.len()
            invariant
                wi <= lvl_2_acting@.len(),
                flags & NARROWING_FLAGS != 0,
                proteus_prelude_matches(prelude, *state, player),
                !has_lone_worker(*state, player),
                forall|k: int| 0 <= k < lvl_2_acting@.len() ==> #[trigger] lvl_2_acting@[k] < 25 && prelude.acting_workers.has(
                    lvl_2_acting@[k] as int,
                ) && prelude.exactly_level_2.has(lvl_2_acting@[k] as int),
                forall|k: int| 0 <= k < result@.len() ==> #[trigger] is_proteus_turn(*state, player, must_climb, result@[k].action.0),
            decreases lvl_2_acting@.len() - wi,
        {
            let worker_start_pos = lvl_2_acting[wi];
            let worker_start_mask = BitBoard::as_mask(worker_start_pos);
            let worker_start_height = prelude.board.get_height(worker_start_pos);
            let worker_moves = crate::gods::move_helpers::get_basic_moves_from_raw_data(
                &prelude,
                worker_start_pos,
                worker_start_mask,
                worker_start_height,
                must_climb,
            );
            let moves_to_level_3 = worker_moves.and(prelude.exactly_level_3).and(prelude.win_mask);
            let ghost before = result@;
            let stop = push_winning_moves(flags, &mut result, worker_start_pos, moves_to_level_3, 0);
            proof {
                assert(is_acting_worker(*state, player, worker_start_pos as int));
                assert forall|k: int| 0 <= k < result@.len() implies #[trigger] is_proteus_turn(
                    *state,
                    player,
                    must_climb,
                    result@[k].action.0,
                ) by {
                    if k >= before.len() {
                        assert(is_winning_entry(result@[k], worker_start_pos, moves_to_level_3, 0));
                        let sq = choose|sq: u8|
                            sq < 25 && #[trigger] moves_to_level_3.has(sq as int) && result@[k].action.0 == (
                            worker_start_pos as u32) | ((sq as u32) << 5u32) | 0u32 | MOVE_IS_WINNING_MASK;
                        lemma_mortal_move_round_trip(worker_start_pos as u32, sq as u32, 0);
                        crate::bitboard::lemma_or_zero((worker_start_pos as u32) | ((sq as u32) << 5u32));
                    } else {
                        assert(result@[k] == before[k]);
                    }
                }
            }
            if stop {
                return result;
            }
            wi = wi + 1;
        }
        return result;
    }

    let map = match proteus_worker_moves(flags, state, player, &prelude, must_climb, &mut result) {
        Some(map) => map,
        None => {
            return result;
        },
    };

    let own = prelude.own_workers.squares();
    let mut wi: usize = 0;
    while wi < own.len()
        invariant
            wi <= own@.len(),
            forall|sq: int| 0 <= sq < 25 && prelude.own_workers.has(sq) ==> own@.contains(sq as u8),
            flags & NARROWING_FLAGS == 0 ==> forall|data: u32| #[trigger] is_proteus_turn(*state, player, must_climb, data)
                && (is_winning_data(data) || exists|j: int| 0 <= j < wi && own@[j] as u32 == field_at(data, 0)) ==> lists_word(result@, data),
            flags & NARROWING_FLAGS == 0 && state.gods[1 - player.idx()].is_persephone_spec() && !must_climb ==> forall|d: u32|
                !#[trigger] is_proteus_turn(*state, player, true, d),
            proteus_prelude_matches(prelude, *state, player),
            !has_lone_worker(*state, player),
            map@.len() == 25,
            forall|s: int| 0 <= s < 25 && #[trigger] prelude.acting_workers.has(s) ==> are_proteus_steps_of(
                map@[s],
                state.board,
                s,
                must_climb,
            ),
            forall|k: int| 0 <= k < own@.len() ==> #[trigger] own@[k] < 25 && prelude.own_workers.has(own@[k] as int),
            forall|k: int| 0 <= k < result@.len() ==> #[trigger] is_proteus_turn(*state, player, must_climb, result@[k].action.0),
        decreases own@.len() - wi,
    {
        let ghost before = result@;
        push_proteus_takeovers(flags, state, player, &prelude, must_climb, &map, own[wi], &mut result);
        proof {
            lemma_lists_word_grows(before, result@);
            if flags & NARROWING_FLAGS == 0 {
                assert forall|data: u32| #[trigger] is_proteus_turn(*state, player, must_climb, data) && (is_winning_data(data) || exists|j: int|
                    0 <= j < wi + 1 && own@[j] as u32 == field_at(data, 0)) implies lists_word(result@, data) by {
                    if !is_winning_data(data) {
                        let j = choose|j: int| 0 <= j < wi + 1 && own@[j] as u32 == field_at(data, 0);
                        if j < wi {
                            assert(lists_word(before, data));
                        }
                    } else {
                        assert(lists_word(before, data));
                    }
                }
            }
        }
        wi = wi + 1;
    }
    proof {
        if flags & NARROWING_FLAGS == 0 {
            assert forall|data: u32| #[trigger] proteus_turn_owed(*state, player, must_climb, data) implies lists_word(result@, data) by {
                if !is_winning_data(data) {
                    let f = field_at(data, 0);
                    lemma_own_worker_in_prelude(prelude, *state, player, f as int);
                    assert(own@.contains(f as u8));
                    let j = choose|j: int| 0 <= j < own@.len() && own@[j] == f as u8;
                    assert(own@[j] as u32 == field_at(data, 0));
                }
            }
        }
    }
    result
}

/// A turn that climbs is a turn.
pub proof fn lemma_climbing_proteus_turn_is_turn(state: FullGameState, player: Player, data: u32)
    ensures
        is_proteus_turn(state, player, true, data) ==> is_proteus_turn(state, player, false, data),
{
    if is_proteus_turn(state, player, true, data) && !is_winning_data(data) && !has_lone_worker(state, player) {
        let o = choose|o: int|
            o != field_at(data, 0) && is_acting_worker(state, player, o) && #[trigger] is_proteus_step(
                state.board,
                o,
                field_at(data, 5) as int,
                true,
            );
        assert(is_proteus_step(state.board, o, field_at(data, 5) as int, false));
    }
}

/// Proteus's fixed data.
pub fn build_proteus() -> (r: GodPower)
    ensures
        r.god_name == GodName::Proteus,
        r.hash1 == 11735363125997027301u64,
        r.hash2 == 16382114980006810069u64,
        r.placement_type == PlacementType::ThreeWorkers,
        r.symmetry == BoardSymmetry::Full,
        !r.is_persephone,
{
    god_power(GodName::Proteus, 11735363125997027301, 16382114980006810069)
        .with_placement_type(PlacementType::ThreeWorkers)
}

} // verus!
