use vstd::prelude::*;

use crate::bitboard::{apply_neighbor_map_to_mask, bit, group_bit_lemmas, popcount, BitBoard, MAIN_SECTION, PERIMETER_MASK};
use crate::board::{BoardState, FullGameState, Player};
use crate::generic::{
    build_scored_move, field_at, NARROWING_FLAGS, is_interact_with_key_squares, is_mate_only, is_winning_data, lemma_pack4, read_position,
    GenericMove, MoveData, MoveGenFlags, ScoredMove, ANY_MOVE_FILTER, MOVE_DATA_MAIN_SECTION, MOVE_IS_WINNING_MASK,
};
use crate::gods::mortal::{
    is_acting_worker, is_standard_build_for, is_win_step, lemma_acting_in_prelude, lemma_lists_word_grows, lemma_move_worker_keeps_wf,
    lemma_prelude_acting, lists_word, win_targets,
};
use crate::gods::move_helpers::{
    build_mask_allows, get_basic_moves_from_raw_data, get_generator_prelude_state, get_sized_result, get_standard_reach_board,
    get_worker_end_move_state, get_worker_next_build_state, get_worker_next_move_state, get_worker_start_move_state,
    is_standard_step, is_winning_entry, push_winning_moves, GeneratorPreludeState,
};
use crate::square::{is_adjacent, is_perimeter, is_square, Square};
use crate::gods::{BoardSymmetry, PlacementType, god_power, GodName, GodPower};

verus! {

/// The placement field holds this when no worker is placed.
pub const NO_PLACEMENT: MoveData = 25;

/// A Jason turn: a plain move and build, or the power: placing a new worker and building.
#[derive(Clone, Copy, PartialEq, Eq, Structural, Debug)]
pub struct JasonMove(pub MoveData);

impl JasonMove {
    fn new_basic_move(move_from_position: Square, move_to_position: Square, build_position: Square) -> (r: Self)
        requires
            move_from_position < 25,
            move_to_position < 25,
            build_position < 25,
        ensures
            r.0 == (move_from_position as u32) | ((move_to_position as u32) << 5u32) | ((build_position as u32) << 10u32) | (25u32 << 15u32),
    {
        Self((move_from_position as u32) | ((move_to_position as u32) << 5u32) | ((build_position as u32) << 10u32) | (25u32 << 15u32))
    }

    /// A turn that places a new worker on `place_position` and builds.
    fn new_power_move(place_position: Square, build_position: Square) -> (r: Self)
        requires
            place_position < 25,
            build_position < 25,
        ensures
            r.0 == 0u32 | (0u32 << 5u32) | ((build_position as u32) << 10u32) | ((place_position as u32) << 15u32),
    {
        Self(0u32 | (0u32 << 5u32) | ((build_position as u32) << 10u32) | ((place_position as u32) << 15u32))
    }

    fn new_winning_move(move_from_position: Square, move_to_position: Square) -> (r: Self)
        requires
            move_from_position < 25,
            move_to_position < 25,
        ensures
            r.0 == (move_from_position as u32) | ((move_to_position as u32) << 5u32) | (0u32 << 10u32) | (25u32 << 15u32) | MOVE_IS_WINNING_MASK,
    {
        Self((move_from_position as u32) | ((move_to_position as u32) << 5u32) | (0u32 << 10u32) | (25u32 << 15u32) | MOVE_IS_WINNING_MASK)
    }

    pub fn move_from_position(&self) -> (r: Square)
        ensures
            r == field_at(self.0, 0),
            r < 32,
    {
        read_position(self.0, 0)
    }

    pub fn move_to_position(&self) -> (r: Square)
        ensures
            r == field_at(self.0, 5),
            r < 32,
    {
        read_position(self.0, 5)
    }

    fn build_position(self) -> (r: Square)
        ensures
            r == field_at(self.0, 10),
            r < 32,
    {
        read_position(self.0, 10)
    }

    /// Where the power places a worker, if it does.
    pub fn maybe_place_position(self) -> (r: Option<Square>)
        ensures
            field_at(self.0, 15) < 32,
            r == (if field_at(self.0, 15) == 25 {
                None
            } else {
                Some(field_at(self.0, 15) as u8)
            }),
    {
        let value = read_position(self.0, 15);
        if value == 25 {
            None
        } else {
            Some(value)
        }
    }

    /// The start and end squares of the moving worker.
    fn move_mask(self) -> (r: BitBoard)
        ensures
            r.0 == (1u32 << field_at(self.0, 0)) | (1u32 << field_at(self.0, 5)),
    {
        BitBoard::as_mask(self.move_from_position()).or(BitBoard::as_mask(self.move_to_position()))
    }

    fn get_is_winning(&self) -> (r: bool)
        ensures
            r == is_winning_data(self.0),
    {
        (self.0 & MOVE_IS_WINNING_MASK) != 0
    }
}

/// A Jason move reads back what it was built from, and stays clear of the flags.
pub proof fn lemma_jason_move_round_trip(move_from: u32, move_to: u32, build: u32, place: u32)
    requires
        move_from < 25,
        move_to < 25,
        build < 25,
        place <= 25,
    ensures
        field_at(move_from | (move_to << 5u32) | (build << 10u32) | (place << 15u32), 0) == move_from,
        field_at(move_from | (move_to << 5u32) | (build << 10u32) | (place << 15u32), 5) == move_to,
        field_at(move_from | (move_to << 5u32) | (build << 10u32) | (place << 15u32), 10) == build,
        field_at(move_from | (move_to << 5u32) | (build << 10u32) | (place << 15u32), 15) == place,
        !is_winning_data(move_from | (move_to << 5u32) | (build << 10u32) | (place << 15u32)),
        (move_from | (move_to << 5u32) | (build << 10u32) | (place << 15u32)) & MOVE_DATA_MAIN_SECTION == move_from | (move_to << 5u32) | (build << 10u32) | (place << 15u32),
{
    lemma_pack4(move_from, move_to, build, place);
}

/// The word of a plain Jason move.
pub open spec fn jason_basic_data(from: u32, to: u32, build: u32) -> u32 {
    from | (to << 5u32) | (build << 10u32) | (25u32 << 15u32)
}

/// The word of a plain winning Jason move.
pub open spec fn jason_winning_data(from: u32, to: u32) -> u32 {
    from | (to << 5u32) | (0u32 << 10u32) | (25u32 << 15u32) | 0x8000_0000u32
}

/// The word of a power move: the new worker ends on `placed`, then builds.
pub open spec fn jason_power_data(placed: u32, build: u32) -> u32 {
    0u32 | (0u32 << 5u32) | (build << 10u32) | (placed << 15u32)
}

/// Where the power may put the new worker down: an empty perimeter square on the ground.
pub open spec fn is_valid_placement(board: BoardState, q: int) -> bool {
    &&& is_perimeter(q)
    &&& !board.occupied(q)
    &&& board.height(q) == 0
}

/// A legal Jason turn read off its word: a plain turn, or, with the power in hand, a new worker
/// put down on the perimeter that steps and builds. With `must_climb` the step climbs.
pub open spec fn is_jason_turn(state: FullGameState, player: Player, must_climb: bool, data: u32) -> bool {
    let board = state.board;
    let from = field_at(data, 0);
    let to = field_at(data, 5);
    let build = field_at(data, 10);
    let placed = field_at(data, 15);
    if placed == 25 {
        &&& is_acting_worker(state, player, from as int)
        &&& is_standard_step(board, from as int, to as int, must_climb)
        &&& if is_winning_data(data) {
            &&& data == jason_winning_data(from, to)
            &&& is_win_step(false, board.height(from as int), board.height(to as int))
        } else {
            &&& data == jason_basic_data(from, to, build)
            &&& !is_win_step(false, board.height(from as int), board.height(to as int))
            &&& is_standard_build_for(state, player, from as int, to as int, build as int)
        }
    } else {
        &&& data == jason_power_data(placed, build)
        &&& board.god_data[player.idx()] == 0
        &&& exists|q: int| #[trigger] is_valid_placement(board, q) && is_standard_step(board, q, placed as int, must_climb)
        &&& is_adjacent(placed as int, build as int)
        &&& !board.occupied(build as int)
        &&& board.height(build as int) < 4
        &&& build_mask_allows(state.gods[1 - player.idx()], board, player, build as int)
    }
}

proof fn lemma_perimeter_bv(i: u32)
    by (bit_vector)
    requires
        i < 32,
    ensures
        ((0x01F8_C63Fu32 >> i) & 1u32 == 1u32) == (i == 0 || i == 1 || i == 2 || i == 3 || i == 4 || i == 5 || i == 9 || i == 10
            || i == 14 || i == 15 || i == 19 || i == 20 || i == 21 || i == 22 || i == 23 || i == 24),
{
}

/// The perimeter mask holds exactly the perimeter squares.
pub proof fn lemma_perimeter_bit(i: int)
    requires
        0 <= i < 32,
    ensures
        bit(PERIMETER_MASK, i as u32) == is_perimeter(i),
{
    lemma_perimeter_bv(i as u32);
}

pub proof fn lemma_or_is_xor(f: u32, t: u32)
    by (bit_vector)
    requires
        f < 32,
        t < 32,
        f != t,
    ensures
        (1u32 << f) | (1u32 << t) == (1u32 << f) ^ (1u32 << t),
{
}

/// The words of a Jason move read back what they were built from.
pub proof fn lemma_jason_words(from: u32, to: u32, build: u32, placed: u32)
    requires
        from < 25,
        to < 25,
        build < 25,
        placed < 25,
    ensures
        field_at(jason_basic_data(from, to, build), 0) == from,
        field_at(jason_basic_data(from, to, build), 5) == to,
        field_at(jason_basic_data(from, to, build), 10) == build,
        field_at(jason_basic_data(from, to, build), 15) == 25,
        !is_winning_data(jason_basic_data(from, to, build)),
        field_at(jason_winning_data(from, to), 0) == from,
        field_at(jason_winning_data(from, to), 5) == to,
        field_at(jason_winning_data(from, to), 10) == 0,
        field_at(jason_winning_data(from, to), 15) == 25,
        is_winning_data(jason_winning_data(from, to)),
        field_at(jason_power_data(placed, build), 10) == build,
        field_at(jason_power_data(placed, build), 15) == placed,
        !is_winning_data(jason_power_data(placed, build)),
{
    lemma_pack4(from, to, build, 25);
    lemma_pack4(from, to, 0, 25);
    lemma_pack4(0, 0, build, placed);
}

impl JasonMove {
    /// Plays the turn: a win, a plain move and build, or the power: the new worker appears where
    /// its step ends, the power is spent, and it builds.
    pub fn make_move(self, board: &mut BoardState, player: Player)
        requires
            old(board).wf(),
            field_at(self.0, 15) == 25 ==> field_at(self.0, 0) < 25 && field_at(self.0, 5) < 25 && old(board).workers[player.idx()].has(
                field_at(self.0, 0) as int,
            ) && !old(board).occupied(field_at(self.0, 5) as int) && is_adjacent(
                field_at(self.0, 0) as int,
                field_at(self.0, 5) as int,
            ),
            field_at(self.0, 15) != 25 ==> field_at(self.0, 15) < 25 && !old(board).occupied(field_at(self.0, 15) as int)
                && !is_winning_data(self.0),
            !is_winning_data(self.0) ==> field_at(self.0, 10) < 25 && old(board).height(field_at(self.0, 10) as int) < 4,
        ensures
            final(board).wf(),
            final(board).current_player == old(board).current_player,
            final(board).workers[1 - player.idx()] == old(board).workers[1 - player.idx()],
            field_at(self.0, 15) != 25 ==> final(board).god_data[player.idx()] == 1,
            field_at(self.0, 15) != 25 ==> final(board).workers[player.idx()].0 == old(board).workers[player.idx()].0 ^ (1u32
                << field_at(self.0, 15)),
            field_at(self.0, 15) == 25 ==> final(board).god_data == old(board).god_data,
            field_at(self.0, 15) == 25 ==> final(board).workers[player.idx()].0 == old(board).workers[player.idx()].0 ^ ((1u32
                << field_at(self.0, 0)) | (1u32 << field_at(self.0, 5))),
            is_winning_data(self.0) ==> final(board).winner == Some(player) && final(board).height_map == old(board).height_map,
            !is_winning_data(self.0) ==> final(board).winner == old(board).winner,
            !is_winning_data(self.0) ==> final(board).height(field_at(self.0, 10) as int) == old(board).height(
                field_at(self.0, 10) as int,
            ) + 1,
            !is_winning_data(self.0) ==> forall|i: int| i != field_at(self.0, 10) ==> #[trigger] final(board).height(i) == old(
                board,
            ).height(i),
    {
        broadcast use group_bit_lemmas;

        let ghost before = *board;
        let ghost p = player.idx();
        match self.maybe_place_position() {
            Some(place_pos) => {
                board.set_god_data(player, 1);
                board.worker_xor(player, BitBoard::as_mask(place_pos));
                proof {
                    assert forall|i: int| #[trigger] board.workers[p].has(i) == (before.workers[p].has(i) || i == place_pos) by {
                        if 0 <= i < 32 {
                            crate::bitboard::lemma_bit_xor(before.workers[p].0, 1u32 << place_pos, i as u32);
                            crate::bitboard::lemma_bit_single(place_pos as u32, i as u32);
                        }
                    }
                    assert(before.workers[0].within_board() && before.workers[1].within_board());
                    assert forall|i: int| !(#[trigger] board.workers[0].has(i) && board.workers[1].has(i)) by {
                        assert(!(before.workers[0].has(i) && before.workers[1].has(i)));
                    }
                }
                board.build_up(self.build_position());
            },
            None => {
                let mask = BitBoard::as_mask(self.move_from_position()).or(BitBoard::as_mask(self.move_to_position()));
                proof {
                    lemma_or_is_xor(field_at(self.0, 0), field_at(self.0, 5));
                }
                board.worker_xor(player, mask);
                proof {
                    lemma_move_worker_keeps_wf(before, *board, player, field_at(self.0, 0), field_at(self.0, 5));
                }
                if self.get_is_winning() {
                    board.set_winner(player);
                    return;
                }
                board.build_up(self.build_position());
            },
        }
    }

    pub fn to_generic(self) -> (r: GenericMove)
        ensures
            r.0 == self.0,
    {
        GenericMove(self.0)
    }
}

/// Every plain move of the acting workers, tagged with Jason's layout. Returns true when
/// generation should stop.
fn add_standard_moves(
    flags: MoveGenFlags,
    state: &FullGameState,
    player: Player,
    prelude: &GeneratorPreludeState,
    result: &mut Vec<ScoredMove>,
    must_climb: bool,
) -> (stop: bool)
    requires
        state.board.wf(),
        prelude.inv(),
        prelude.board == state.board,
        prelude.player == player,
        prelude.other_god == state.gods[1 - player.idx()],
        prelude.own_workers.0 == state.board.workers[player.idx()].0 & MAIN_SECTION,
        prelude.other_god.is_hypnus_spec() ==> prelude.acting_workers.0 == crate::gods::hypnus::hypnus_filter_spec(
            state.board.height_map,
            prelude.own_workers.0,
        ),
        !prelude.other_god.is_hypnus_spec() ==> prelude.acting_workers == prelude.own_workers,
    ensures
        final(result)@.len() >= old(result)@.len(),
        forall|k: int| 0 <= k < old(result)@.len() ==> #[trigger] final(result)@[k] == old(result)@[k],
        forall|k: int|
            old(result)@.len() <= k < final(result)@.len() ==> #[trigger] is_jason_turn(*state, player, must_climb, final(result)@[k].action.0),
        forall|k: int| old(result)@.len() <= k < final(result)@.len() ==> field_at(#[trigger] final(result)@[k].action.0, 15) == 25,
        stop ==> flags & crate::generic::STOP_ON_MATE != 0,
        flags & NARROWING_FLAGS == 0 ==> forall|data: u32| #[trigger] is_jason_turn(*state, player, must_climb, data) && field_at(data, 15) == 25 ==> lists_word(final(result)@, data),
{
    broadcast use group_bit_lemmas;

    proof {
        crate::generic::lemma_no_flags(flags);
    }

    let ghost start = result@;
    let checkable_mask = prelude.exactly_level_2;
    let acting_workers = if is_mate_only(flags) {
        prelude.acting_workers.and(checkable_mask)
    } else {
        prelude.acting_workers
    };
    let workers = acting_workers.squares();
    let mut wi: usize = 0;
    while wi < workers.len()
        invariant
            wi <= workers@.len(),
            state.board.wf(),
            start == old(result)@,
            prelude.inv(),
            prelude.board == state.board,
            prelude.player == player,
            prelude.other_god == state.gods[1 - player.idx()],
            prelude.own_workers.0 == state.board.workers[player.idx()].0 & MAIN_SECTION,
            prelude.other_god.is_hypnus_spec() ==> prelude.acting_workers.0 == crate::gods::hypnus::hypnus_filter_spec(
                state.board.height_map,
                prelude.own_workers.0,
            ),
            !prelude.other_god.is_hypnus_spec() ==> prelude.acting_workers == prelude.own_workers,
            forall|k: int| 0 <= k < workers@.len() ==> #[trigger] workers@[k] < 25 && prelude.acting_workers.has(workers@[k] as int),
            result@.len() >= start.len(),
            forall|k: int| 0 <= k < start.len() ==> #[trigger] result@[k] == start[k],
            forall|k: int| start.len() <= k < result@.len() ==> #[trigger] is_jason_turn(*state, player, must_climb, result@[k].action.0),
            forall|k: int| start.len() <= k < result@.len() ==> field_at(#[trigger] result@[k].action.0, 15) == 25,
            flags & NARROWING_FLAGS == 0 ==> forall|data: u32| #[trigger] is_jason_turn(*state, player, must_climb, data) && field_at(data, 15) == 25 && (exists|j: int| 0 <= j < wi && workers@[j] as u32 == field_at(data, 0))
                ==> lists_word(result@, data),
            flags & NARROWING_FLAGS == 0 ==> flags & 1 == 0 && flags & 2 == 0 && flags & 8 == 0,
            flags & NARROWING_FLAGS == 0 ==> acting_workers == prelude.acting_workers,
        decreases workers@.len() - wi,
    {
        let worker_start_pos = workers[wi];
        proof {
            lemma_prelude_acting(*state, player, prelude.own_workers, prelude.acting_workers, worker_start_pos as int);
        }
        let worker_start_state = get_worker_start_move_state(prelude, worker_start_pos);
        let mut worker_next_moves = get_worker_next_move_state(prelude, &worker_start_state, checkable_mask, must_climb);
        let targets = win_targets(prelude, worker_start_state.worker_start_height, false);
        let moves_to_level_3 = worker_next_moves.worker_moves.and(targets).and(prelude.win_mask);
        let ends = moves_to_level_3.squares();
        let mut ei: usize = 0;
        while ei < ends.len()
            invariant
                ei <= ends@.len(),
                worker_start_pos < 25,
                start == old(result)@,
                crate::gods::mortal::is_acting_worker(*state, player, worker_start_pos as int),
                forall|k: int| 0 <= k < ends@.len() ==> #[trigger] ends@[k] < 25 && is_standard_step(
                    state.board,
                    worker_start_pos as int,
                    ends@[k] as int,
                    must_climb,
                ) && is_win_step(false, state.board.height(worker_start_pos as int), state.board.height(ends@[k] as int)),
                result@.len() >= start.len(),
                forall|k: int| 0 <= k < start.len() ==> #[trigger] result@[k] == start[k],
                forall|k: int| start.len() <= k < result@.len() ==> #[trigger] is_jason_turn(*state, player, must_climb, result@[k].action.0),
                forall|k: int| start.len() <= k < result@.len() ==> field_at(#[trigger] result@[k].action.0, 15) == 25,
                flags & NARROWING_FLAGS == 0 ==> forall|data: u32| #[trigger] is_jason_turn(*state, player, must_climb, data) && field_at(data, 15) == 25 && (exists|j: int| 0 <= j < wi && workers@[j] as u32 == field_at(data, 0))
                    ==> lists_word(result@, data),
                flags & NARROWING_FLAGS == 0 ==> flags & 1 == 0 && flags & 2 == 0 && flags & 8 == 0,
                flags & NARROWING_FLAGS == 0 ==> forall|data: u32| #[trigger] is_jason_turn(*state, player, must_climb, data) && field_at(data, 15) == 25 && field_at(data, 0) == worker_start_pos && is_winning_data(data) && (exists|j: int| 0 <= j < ei && ends@[j] as u32 == field_at(data, 5))
                    ==> lists_word(result@, data),
            decreases ends@.len() - ei,
        {
            let e = ends[ei];
            let action = JasonMove::new_winning_move(worker_start_pos, e);
            let ghost before = result@;
            result.push(ScoredMove::new_winning_move(action.to_generic()));
            proof {
                lemma_lists_word_grows(before, result@);
                assert(result@[before.len() as int].action.0 == jason_winning_data(worker_start_pos as u32, e as u32));
                lemma_jason_words(worker_start_pos as u32, e as u32, 0, 0);
                assert forall|k: int| start.len() <= k < result@.len() implies #[trigger] is_jason_turn(
                    *state,
                    player,
                    must_climb,
                    result@[k].action.0,
                ) by {
                    if k < before.len() {
                        assert(result@[k] == before[k]);
                    }
                }
            }
            if crate::generic::is_stop_on_mate(flags) {
                return true;
            }
            ei = ei + 1;
        }
        proof {
            if flags & NARROWING_FLAGS == 0 {
                assert forall|data: u32| #[trigger] is_jason_turn(*state, player, must_climb, data) && field_at(data, 15) == 25 && field_at(data, 0) == worker_start_pos && is_winning_data(data) implies lists_word(result@, data) by {
                    let to = field_at(data, 5);
                    assert(moves_to_level_3.has(to as int));
                    assert(ends@.contains(to as u8));
                    let j = choose|j: int| 0 <= j < ends@.len() && ends@[j] == to as u8;
                    assert(ends@[j] as u32 == field_at(data, 5));
                }
            }
        }
        worker_next_moves.worker_moves = worker_next_moves.worker_moves.xor(moves_to_level_3);

        if !is_mate_only(flags) {
            let steps = worker_next_moves.worker_moves.squares();
            proof {
                if flags & NARROWING_FLAGS == 0 {
                    assert forall|i: int| 0 <= i < 25 && is_standard_step(state.board, worker_start_pos as int, i, must_climb)
                        && !is_win_step(false, state.board.height(worker_start_pos as int), state.board.height(i)) implies #[trigger] steps@.contains(i as u8) by {
                        assert(!targets.has(i));
                        assert(worker_next_moves.worker_moves.has(i));
                    }
                }
            }
            let mut si: usize = 0;
            while si < steps.len()
                invariant
                    si <= steps@.len(),
                    state.board.wf(),
                    start == old(result)@,
                    prelude.inv(),
                    prelude.board == state.board,
                    prelude.player == player,
                    prelude.other_god == state.gods[1 - player.idx()],
                    worker_start_pos < 25,
                    worker_start_state.describes(*prelude, worker_start_pos as int),
                    crate::gods::mortal::is_acting_worker(*state, player, worker_start_pos as int),
                    forall|k: int|
                        0 <= k < steps@.len() ==> #[trigger] steps@[k] < 25 && is_standard_step(
                            state.board,
                            worker_start_pos as int,
                            steps@[k] as int,
                            must_climb,
                        ) && !is_win_step(false, state.board.height(worker_start_pos as int), state.board.height(steps@[k] as int)),
                    result@.len() >= start.len(),
                    forall|k: int| 0 <= k < start.len() ==> #[trigger] result@[k] == start[k],
                    forall|k: int| start.len() <= k < result@.len() ==> #[trigger] is_jason_turn(*state, player, must_climb, result@[k].action.0),
                    forall|k: int| start.len() <= k < result@.len() ==> field_at(#[trigger] result@[k].action.0, 15) == 25,
                    flags & NARROWING_FLAGS == 0 ==> forall|data: u32| #[trigger] is_jason_turn(*state, player, must_climb, data) && field_at(data, 15) == 25 && (exists|j: int| 0 <= j < wi && workers@[j] as u32 == field_at(data, 0))
                        ==> lists_word(result@, data),
                    flags & NARROWING_FLAGS == 0 ==> flags & 1 == 0 && flags & 2 == 0 && flags & 8 == 0,
                    flags & NARROWING_FLAGS == 0 ==> forall|data: u32| #[trigger] is_jason_turn(*state, player, must_climb, data) && field_at(data, 15) == 25 && field_at(data, 0) == worker_start_pos && is_winning_data(data) ==> lists_word(result@, data),
                    flags & NARROWING_FLAGS == 0 ==> forall|data: u32| #[trigger] is_jason_turn(*state, player, must_climb, data) && field_at(data, 15) == 25 && field_at(data, 0) == worker_start_pos && !is_winning_data(data) && (exists|j: int| 0 <= j < si && steps@[j] as u32 == field_at(data, 5))
                        ==> lists_word(result@, data),
                    flags & NARROWING_FLAGS == 0 ==> forall|i: int| 0 <= i < 25 && is_standard_step(state.board, worker_start_pos as int, i, must_climb)
                        && !is_win_step(false, state.board.height(worker_start_pos as int), state.board.height(i)) ==> #[trigger] steps@.contains(i as u8),
                decreases steps@.len() - si,
            {
                let worker_end_pos = steps[si];
                let worker_end_move_state = get_worker_end_move_state(prelude, &worker_start_state, worker_end_pos);
                let worker_next_build_state = get_worker_next_build_state(flags, prelude, &worker_start_state, &worker_end_move_state);
                let reach_board = get_standard_reach_board(
                    prelude,
                    &worker_next_moves,
                    &worker_end_move_state,
                    worker_next_build_state.unblocked_squares,
                );
                let builds = worker_next_build_state.narrowed_builds.squares();
                proof {
                    if flags & NARROWING_FLAGS == 0 {
                        assert forall|b: int| 0 <= b < 25 && #[trigger] is_standard_build_for(*state, player, worker_start_pos as int, worker_end_pos as int, b)
                            implies builds@.contains(b as u8) by {
                            assert(worker_next_build_state.all_possible_builds.has(b));
                        }
                    }
                }
                let mut bi: usize = 0;
                while bi < builds.len()
                    invariant
                        bi <= builds@.len(),
                        start == old(result)@,
                        prelude.inv(),
                        prelude.board == state.board,
                        prelude.player == player,
                        prelude.other_god == state.gods[1 - player.idx()],
                        worker_start_pos < 25,
                        worker_end_pos < 25,
                        crate::gods::mortal::is_acting_worker(*state, player, worker_start_pos as int),
                        is_standard_step(state.board, worker_start_pos as int, worker_end_pos as int, must_climb),
                        !is_win_step(false, state.board.height(worker_start_pos as int), state.board.height(worker_end_pos as int)),
                        worker_next_build_state.describes(*prelude, worker_start_pos as int, worker_end_pos as int),
                        forall|k: int|
                            0 <= k < builds@.len() ==> #[trigger] builds@[k] < 25 && worker_next_build_state.narrowed_builds.has(
                                builds@[k] as int,
                            ),
                        result@.len() >= start.len(),
                        forall|k: int| 0 <= k < start.len() ==> #[trigger] result@[k] == start[k],
                        forall|k: int| start.len() <= k < result@.len() ==> #[trigger] is_jason_turn(*state, player, must_climb, result@[k].action.0),
                        forall|k: int| start.len() <= k < result@.len() ==> field_at(#[trigger] result@[k].action.0, 15) == 25,
                        flags & NARROWING_FLAGS == 0 ==> forall|data: u32| #[trigger] is_jason_turn(*state, player, must_climb, data) && field_at(data, 15) == 25 && (exists|j: int| 0 <= j < wi && workers@[j] as u32 == field_at(data, 0))
                            ==> lists_word(result@, data),
                        flags & NARROWING_FLAGS == 0 ==> flags & 1 == 0 && flags & 2 == 0 && flags & 8 == 0,
                        flags & NARROWING_FLAGS == 0 ==> forall|data: u32| #[trigger] is_jason_turn(*state, player, must_climb, data) && field_at(data, 15) == 25 && field_at(data, 0) == worker_start_pos && is_winning_data(data) ==> lists_word(result@, data),
                        flags & NARROWING_FLAGS == 0 ==> forall|data: u32| #[trigger] is_jason_turn(*state, player, must_climb, data) && field_at(data, 15) == 25 && field_at(data, 0) == worker_start_pos && !is_winning_data(data) && (exists|j: int| 0 <= j < si && steps@[j] as u32 == field_at(data, 5))
                            ==> lists_word(result@, data),
                        flags & NARROWING_FLAGS == 0 ==> forall|i: int| 0 <= i < 25 && is_standard_step(state.board, worker_start_pos as int, i, must_climb)
                            && !is_win_step(false, state.board.height(worker_start_pos as int), state.board.height(i)) ==> #[trigger] steps@.contains(i as u8),
                        flags & NARROWING_FLAGS == 0 ==> forall|data: u32| #[trigger] is_jason_turn(*state, player, must_climb, data) && field_at(data, 15) == 25 && field_at(data, 0) == worker_start_pos && !is_winning_data(data) && field_at(data, 5) == worker_end_pos && (exists|j: int| 0 <= j < bi
                            && builds@[j] as u32 == field_at(data, 10)) ==> lists_word(result@, data),
                        flags & NARROWING_FLAGS == 0 ==> forall|b: int| 0 <= b < 25 && #[trigger] is_standard_build_for(*state, player, worker_start_pos as int, worker_end_pos as int, b) ==> builds@.contains(b as u8),
                        si < steps@.len(),
                        steps@[si as int] == worker_end_pos,
                    decreases builds@.len() - bi,
                {
                    let worker_build_pos = builds[bi];
                    let build_mask = BitBoard::as_mask(worker_build_pos);
                    let final_level_3 = prelude.exactly_level_2.and(build_mask).or(prelude.exactly_level_3.minus(build_mask));
                    let is_check = reach_board.and(final_level_3).is_not_empty();
                    let action = JasonMove::new_basic_move(worker_start_pos, worker_end_pos, worker_build_pos);
                    let ghost before = result@;
                    result.push(build_scored_move(flags, action.to_generic(), is_check, worker_end_move_state.is_improving));
                    proof {
                        lemma_lists_word_grows(before, result@);
                        assert(result@[before.len() as int].action.0 == jason_basic_data(worker_start_pos as u32, worker_end_pos as u32, worker_build_pos as u32));
                        lemma_jason_words(worker_start_pos as u32, worker_end_pos as u32, worker_build_pos as u32, 0);
                        assert(worker_next_build_state.narrowed_builds.has(worker_build_pos as int));
                        assert forall|k: int| start.len() <= k < result@.len() implies #[trigger] is_jason_turn(
                            *state,
                            player,
                            must_climb,
                            result@[k].action.0,
                        ) by {
                            if k < before.len() {
                                assert(result@[k] == before[k]);
                            }
                        }
                    }
                    bi = bi + 1;
                }
                proof {
                    if flags & NARROWING_FLAGS == 0 {
                        assert forall|data: u32| #[trigger] is_jason_turn(*state, player, must_climb, data) && field_at(data, 15) == 25 && field_at(data, 0) == worker_start_pos && !is_winning_data(data) && (exists|j: int| 0 <= j < si + 1 && steps@[j] as u32 == field_at(data, 5))
                            implies lists_word(result@, data) by {
                            let j = choose|j: int| 0 <= j < si + 1 && steps@[j] as u32 == field_at(data, 5);
                            if j == si {
                                let b = field_at(data, 10);
                                assert(is_standard_build_for(*state, player, worker_start_pos as int, worker_end_pos as int, b as int));
                                assert(builds@.contains(b as u8));
                                let jb = choose|jb: int| 0 <= jb < builds@.len() && builds@[jb] == b as u8;
                                assert(builds@[jb] as u32 == field_at(data, 10));
                            }
                        }
                    }
                }
                si = si + 1;
            }
            proof {
                if flags & NARROWING_FLAGS == 0 {
                    assert forall|data: u32| #[trigger] is_jason_turn(*state, player, must_climb, data) && field_at(data, 15) == 25 && field_at(data, 0) == worker_start_pos && !is_winning_data(data) implies lists_word(result@, data) by {
                        let to = field_at(data, 5);
                        assert(steps@.contains(to as u8));
                        let j = choose|j: int| 0 <= j < steps@.len() && steps@[j] == to as u8;
                        assert(steps@[j] as u32 == field_at(data, 5));
                    }
                }
            }
        }
        proof {
            if flags & NARROWING_FLAGS == 0 {
                assert forall|data: u32| #[trigger] is_jason_turn(*state, player, must_climb, data) && field_at(data, 15) == 25 && (exists|j: int| 0 <= j < wi + 1 && workers@[j] as u32 == field_at(data, 0))
                    implies lists_word(result@, data) by {
                    let j = choose|j: int| 0 <= j < wi + 1 && workers@[j] as u32 == field_at(data, 0);
                }
            }
        }
        wi = wi + 1;
    }
    proof {
        if flags & NARROWING_FLAGS == 0 {
            assert forall|data: u32| #[trigger] is_jason_turn(*state, player, must_climb, data) && field_at(data, 15) == 25 implies lists_word(result@, data) by {
                let f = field_at(data, 0);
                lemma_acting_in_prelude(*state, player, prelude.own_workers, prelude.acting_workers, f as int);
                assert(workers@.contains(f as u8));
                let j = choose|j: int| 0 <= j < workers@.len() && workers@[j] == f as u8;
                assert(workers@[j] as u32 == field_at(data, 0));
            }
        }
    }
    false
}

/// The power moves: a new worker put down on an empty perimeter square on the ground steps,
/// then builds. Landing squares reached from several placements are kept once.
fn add_hero_power_moves(
    flags: MoveGenFlags,
    state: &FullGameState,
    player: Player,
    prelude: &GeneratorPreludeState,
    result: &mut Vec<ScoredMove>,
    must_climb: bool,
)
    requires
        state.board.wf(),
        state.board.god_data[player.idx()] == 0,
        prelude.inv(),
        prelude.board == state.board,
        prelude.player == player,
        prelude.other_god == state.gods[1 - player.idx()],
    ensures
        final(result)@.len() >= old(result)@.len(),
        forall|k: int| 0 <= k < old(result)@.len() ==> #[trigger] final(result)@[k] == old(result)@[k],
        forall|k: int|
            old(result)@.len() <= k < final(result)@.len() ==> #[trigger] is_jason_turn(*state, player, must_climb, final(result)@[k].action.0),
        forall|k: int| old(result)@.len() <= k < final(result)@.len() ==> field_at(#[trigger] final(result)@[k].action.0, 15) != 25,
        flags & NARROWING_FLAGS == 0 ==> forall|data: u32| #[trigger] is_jason_turn(*state, player, must_climb, data) && field_at(data, 15) != 25 ==> lists_word(final(result)@, data),
{
    broadcast use group_bit_lemmas;

    proof {
        crate::generic::lemma_no_flags(flags);
    }

    let ghost start = result@;
    let unblocked_squares = prelude.all_workers_and_frozen_mask.or(prelude.domes_and_frozen).not();
    let buildable_squares = unblocked_squares.and(prelude.build_mask);
    let valid_placements = BitBoard(PERIMETER_MASK).and(prelude.exactly_level_0).and(unblocked_squares);
    let threatening_workers = prelude.own_workers.and(prelude.exactly_level_2);
    let reach_board = if prelude.is_against_hypnus && threatening_workers.count_ones() < 2 {
        BitBoard::empty()
    } else {
        apply_neighbor_map_to_mask(threatening_workers).and(unblocked_squares).and(prelude.win_mask)
    };
    proof {
        assert forall|q: int| #[trigger] valid_placements.has(q) implies is_valid_placement(state.board, q) by {
            lemma_perimeter_bit(q);
        }
    }
    proof {
        assert forall|q: int| 0 <= q < 25 && #[trigger] is_valid_placement(state.board, q) implies valid_placements.has(q) by {
            lemma_perimeter_bit(q);
            assert(unblocked_squares.has(q));
        }
        assert forall|i: int| 0 <= i < 25 && !state.board.occupied(i) && state.board.height(i) < 4 && #[trigger] build_mask_allows(
            state.gods[1 - player.idx()],
            state.board,
            player,
            i,
        ) implies buildable_squares.has(i) by {
            assert(unblocked_squares.has(i));
        }
    }
    let mut seen_move_to = BitBoard::empty();
    let placements = valid_placements.squares();
    let mut pi: usize = 0;
    while pi < placements.len()
        invariant
            pi <= placements@.len(),
            start == old(result)@,
            state.board.god_data[player.idx()] == 0,
            prelude.inv(),
            prelude.board == state.board,
            prelude.player == player,
            prelude.other_god == state.gods[1 - player.idx()],
            forall|k: int| 0 <= k < placements@.len() ==> #[trigger] placements@[k] < 25 && is_valid_placement(state.board, placements@[k] as int),
            forall|i: int| #[trigger] buildable_squares.has(i) ==> !state.board.occupied(i) && state.board.height(i) < 4 && build_mask_allows(
                state.gods[1 - player.idx()],
                state.board,
                player,
                i,
            ),
            result@.len() >= start.len(),
            forall|k: int| 0 <= k < start.len() ==> #[trigger] result@[k] == start[k],
            forall|k: int| start.len() <= k < result@.len() ==> #[trigger] is_jason_turn(*state, player, must_climb, result@[k].action.0),
            forall|k: int| start.len() <= k < result@.len() ==> field_at(#[trigger] result@[k].action.0, 15) != 25,
            forall|i: int| 0 <= i < 25 && !state.board.occupied(i) && state.board.height(i) < 4 && #[trigger] build_mask_allows(
                state.gods[1 - player.idx()],
                state.board,
                player,
                i,
            ) ==> buildable_squares.has(i),
            flags & NARROWING_FLAGS == 0 ==> forall|data: u32| #[trigger] is_jason_turn(*state, player, must_climb, data) && field_at(data, 15) != 25 && seen_move_to.has(field_at(data, 15) as int) ==> lists_word(result@, data),
            flags & NARROWING_FLAGS == 0 ==> forall|j: int, m: int| 0 <= j < pi && 0 <= m < 25 && #[trigger] is_standard_step(state.board, placements@[j] as int, m, must_climb)
                ==> seen_move_to.has(m),
            flags & NARROWING_FLAGS == 0 ==> flags & 8 == 0,
        decreases placements@.len() - pi,
    {
        let init_pos = placements[pi];
        let place_mask = BitBoard::as_mask(init_pos);
        let worker_moves = get_basic_moves_from_raw_data(prelude, init_pos, place_mask, 0, must_climb);
        let ends = worker_moves.squares();
        proof {
            if flags & NARROWING_FLAGS == 0 {
                assert forall|m: int| 0 <= m < 25 && is_standard_step(state.board, init_pos as int, m, must_climb) implies #[trigger] ends@.contains(m as u8) by {
                    assert(worker_moves.has(m));
                }
            }
        }
        let mut ei: usize = 0;
        while ei < ends.len()
            invariant
                ei <= ends@.len(),
                start == old(result)@,
                init_pos < 25,
                is_valid_placement(state.board, init_pos as int),
                state.board.god_data[player.idx()] == 0,
                prelude.inv(),
                prelude.board == state.board,
                forall|k: int| 0 <= k < ends@.len() ==> #[trigger] ends@[k] < 25 && is_standard_step(
                    state.board,
                    init_pos as int,
                    ends@[k] as int,
                    must_climb,
                ),
                forall|i: int| #[trigger] buildable_squares.has(i) ==> !state.board.occupied(i) && state.board.height(i) < 4
                    && build_mask_allows(state.gods[1 - player.idx()], state.board, player, i),
                result@.len() >= start.len(),
                forall|k: int| 0 <= k < start.len() ==> #[trigger] result@[k] == start[k],
                forall|k: int| start.len() <= k < result@.len() ==> #[trigger] is_jason_turn(*state, player, must_climb, result@[k].action.0),
                forall|k: int| start.len() <= k < result@.len() ==> field_at(#[trigger] result@[k].action.0, 15) != 25,
                forall|i: int| 0 <= i < 25 && !state.board.occupied(i) && state.board.height(i) < 4 && #[trigger] build_mask_allows(
                    state.gods[1 - player.idx()],
                    state.board,
                    player,
                    i,
                ) ==> buildable_squares.has(i),
                flags & NARROWING_FLAGS == 0 ==> forall|data: u32| #[trigger] is_jason_turn(*state, player, must_climb, data) && field_at(data, 15) != 25 && seen_move_to.has(field_at(data, 15) as int) ==> lists_word(result@, data),
                flags & NARROWING_FLAGS == 0 ==> forall|j: int, m: int| 0 <= j < pi && 0 <= m < 25 && #[trigger] is_standard_step(state.board, placements@[j] as int, m, must_climb)
                    ==> seen_move_to.has(m),
                flags & NARROWING_FLAGS == 0 ==> flags & 8 == 0,
                flags & NARROWING_FLAGS == 0 ==> forall|j: int| 0 <= j < ei ==> seen_move_to.has(#[trigger] ends@[j] as int),
                flags & NARROWING_FLAGS == 0 ==> forall|m: int| 0 <= m < 25 && is_standard_step(state.board, init_pos as int, m, must_climb) ==> #[trigger] ends@.contains(m as u8),
                pi < placements@.len(),
                placements@[pi as int] == init_pos,
            decreases ends@.len() - ei,
        {
            let move_to = ends[ei];
            ei = ei + 1;
            let move_to_mask = BitBoard::as_mask(move_to);
            if move_to_mask.and(seen_move_to).is_not_empty() {
                continue;
            }
            let ghost seen_before = seen_move_to;
            seen_move_to = seen_move_to.or(move_to_mask);
            let all_possible_builds = crate::bitboard::neighbor_mask(move_to).and(buildable_squares);
            let mut narrowed_builds = all_possible_builds;
            if is_interact_with_key_squares(flags) {
                if move_to_mask.and(prelude.key_squares).is_empty() {
                    narrowed_builds = narrowed_builds.and(prelude.key_squares);
                }
            }
            let builds = narrowed_builds.squares();
            proof {
                if flags & NARROWING_FLAGS == 0 {
                    assert forall|b: int| 0 <= b < 25 && is_adjacent(move_to as int, b) && #[trigger] buildable_squares.has(b) implies builds@.contains(b as u8) by {
                        assert(all_possible_builds.has(b));
                        assert(narrowed_builds.has(b));
                    }
                    assert forall|data: u32| #[trigger] is_jason_turn(*state, player, must_climb, data) && field_at(data, 15) != 25 && seen_move_to.has(field_at(data, 15) as int) && field_at(data, 15) != move_to
                        implies lists_word(result@, data) by {
                        assert(seen_before.has(field_at(data, 15) as int));
                    }
                }
            }
            let mut bi: usize = 0;
            while bi < builds.len()
                invariant
                    bi <= builds@.len(),
                    start == old(result)@,
                    init_pos < 25,
                    move_to < 25,
                    is_valid_placement(state.board, init_pos as int),
                    is_standard_step(state.board, init_pos as int, move_to as int, must_climb),
                    state.board.god_data[player.idx()] == 0,
                    forall|k: int| 0 <= k < builds@.len() ==> #[trigger] builds@[k] < 25 && all_possible_builds.has(builds@[k] as int),
                    forall|i: int| #[trigger] all_possible_builds.has(i) == (crate::square::is_adjacent(move_to as int, i) && buildable_squares.has(i)),
                    forall|i: int| #[trigger] buildable_squares.has(i) ==> !state.board.occupied(i) && state.board.height(i) < 4
                        && build_mask_allows(state.gods[1 - player.idx()], state.board, player, i),
                    result@.len() >= start.len(),
                    forall|k: int| 0 <= k < start.len() ==> #[trigger] result@[k] == start[k],
                    forall|k: int| start.len() <= k < result@.len() ==> #[trigger] is_jason_turn(*state, player, must_climb, result@[k].action.0),
                    forall|k: int| start.len() <= k < result@.len() ==> field_at(#[trigger] result@[k].action.0, 15) != 25,
                    forall|i: int| 0 <= i < 25 && !state.board.occupied(i) && state.board.height(i) < 4 && #[trigger] build_mask_allows(
                        state.gods[1 - player.idx()],
                        state.board,
                        player,
                        i,
                    ) ==> buildable_squares.has(i),
                    flags & NARROWING_FLAGS == 0 ==> forall|data: u32| #[trigger] is_jason_turn(*state, player, must_climb, data) && field_at(data, 15) != 25 && seen_move_to.has(field_at(data, 15) as int) && field_at(data, 15) != move_to ==> lists_word(result@, data),
                    flags & NARROWING_FLAGS == 0 ==> forall|data: u32| #[trigger] is_jason_turn(*state, player, must_climb, data) && field_at(data, 15) != 25 && field_at(data, 15) == move_to && (exists|j: int| 0 <= j < bi && builds@[j] as u32 == field_at(data, 10))
                        ==> lists_word(result@, data),
                    flags & NARROWING_FLAGS == 0 ==> forall|b: int| 0 <= b < 25 && is_adjacent(move_to as int, b) && #[trigger] buildable_squares.has(b) ==> builds@.contains(b as u8),
                decreases builds@.len() - bi,
            {
                let build_pos = builds[bi];
                let build_mask = BitBoard::as_mask(build_pos);
                let final_level_3 = prelude.exactly_level_2.and(build_mask).or(prelude.exactly_level_3.minus(build_mask));
                let is_check = reach_board.and(final_level_3).is_not_empty();
                let action = JasonMove::new_power_move(move_to, build_pos);
                let ghost before = result@;
                result.push(build_scored_move(flags, action.to_generic(), is_check, false));
                proof {
                    lemma_lists_word_grows(before, result@);
                    assert(result@[before.len() as int].action.0 == jason_power_data(move_to as u32, build_pos as u32));
                    lemma_jason_words(0, 0, build_pos as u32, move_to as u32);
                    assert(all_possible_builds.has(build_pos as int));
                    assert(is_valid_placement(state.board, init_pos as int) && is_standard_step(
                        state.board,
                        init_pos as int,
                        move_to as int,
                        must_climb,
                    ));
                    assert forall|k: int| start.len() <= k < result@.len() implies #[trigger] is_jason_turn(
                        *state,
                        player,
                        must_climb,
                        result@[k].action.0,
                    ) by {
                        if k < before.len() {
                            assert(result@[k] == before[k]);
                        }
                    }
                }
                bi = bi + 1;
            }
            proof {
                if flags & NARROWING_FLAGS == 0 {
                    assert forall|data: u32| #[trigger] is_jason_turn(*state, player, must_climb, data) && field_at(data, 15) != 25 && seen_move_to.has(field_at(data, 15) as int) implies lists_word(result@, data) by {
                        if field_at(data, 15) == move_to {
                            let b = field_at(data, 10);
                            assert(buildable_squares.has(b as int));
                            assert(builds@.contains(b as u8));
                            let jb = choose|jb: int| 0 <= jb < builds@.len() && builds@[jb] == b as u8;
                            assert(builds@[jb] as u32 == field_at(data, 10));
                        }
                    }
                }
            }
        }
        proof {
            if flags & NARROWING_FLAGS == 0 {
                assert forall|j: int, m: int| 0 <= j < pi + 1 && 0 <= m < 25 && #[trigger] is_standard_step(state.board, placements@[j] as int, m, must_climb)
                    implies seen_move_to.has(m) by {
                    if j == pi {
                        assert(ends@.contains(m as u8));
                        let je = choose|je: int| 0 <= je < ends@.len() && ends@[je] == m as u8;
                        assert(seen_move_to.has(ends@[je] as int));
                    }
                }
            }
        }
        pi = pi + 1;
    }
    proof {
        if flags & NARROWING_FLAGS == 0 {
            assert forall|data: u32| #[trigger] is_jason_turn(*state, player, must_climb, data) && field_at(data, 15) != 25 implies lists_word(result@, data) by {
                let m = field_at(data, 15);
                let q = choose|q: int| #[trigger] is_valid_placement(state.board, q) && is_standard_step(state.board, q, m as int, must_climb);
                assert(valid_placements.has(q));
                assert(placements@.contains(q as u8));
                let j = choose|j: int| 0 <= j < placements@.len() && placements@[j] == q as u8;
                assert(is_standard_step(state.board, placements@[j] as int, m as int, must_climb));
            }
        }
    }
}

/// A turn owed to climb is a turn.
pub proof fn lemma_jason_climb_is_turn(state: FullGameState, player: Player, data: u32)
    ensures
        is_jason_turn(state, player, true, data) ==> is_jason_turn(state, player, false, data),
{
    if is_jason_turn(state, player, true, data) && field_at(data, 15) != 25 {
        let q = choose|q: int| #[trigger] is_valid_placement(state.board, q) && is_standard_step(
            state.board,
            q,
            field_at(data, 15) as int,
            true,
        );
        assert(is_valid_placement(state.board, q) && is_standard_step(state.board, q, field_at(data, 15) as int, false));
    }
}

/// Only a power word places a worker: the power word for `placed` and `build` reads back `placed`
/// as its placed square, and a plain or winning word reads back none (the value 25).
pub proof fn lemma_place_position_of_words(placed: u32, build: u32, from: u32, to: u32)
    requires
        placed < 25,
        build < 25,
        from < 25,
        to < 25,
    ensures
        field_at(jason_power_data(placed, build), 15) == placed,
        field_at(jason_basic_data(from, to, build), 15) == 25,
        field_at(jason_winning_data(from, to), 15) == 25,
{
    crate::generic::lemma_pack4(0, 0, build, placed);
    crate::generic::lemma_pack4(from, to, build, 25);
    crate::generic::lemma_pack4(from, to, 0, 25);
}

/// A plain Jason turn that climbs.
pub open spec fn is_jason_plain_climb(state: FullGameState, player: Player, data: u32) -> bool {
    is_jason_turn(state, player, true, data) && field_at(data, 15) == 25
}

/// A Jason power turn whose new worker climbs.
pub open spec fn is_jason_power_climb(state: FullGameState, player: Player, data: u32) -> bool {
    is_jason_turn(state, player, true, data) && field_at(data, 15) != 25
}

/// The turns owed against Persephone: every climbing turn when a plain climb exists; otherwise
/// every plain turn, and the power turns that climb, or all of them when none climbs.
pub open spec fn jason_turn_owed_vs_persephone(state: FullGameState, player: Player, data: u32) -> bool {
    if exists|d: u32| #[trigger] is_jason_plain_climb(state, player, d) {
        is_jason_turn(state, player, true, data)
    } else if field_at(data, 15) != 25 && exists|d: u32| #[trigger] is_jason_power_climb(state, player, d) {
        is_jason_turn(state, player, true, data)
    } else {
        is_jason_turn(state, player, false, data)
    }
}

/// Persephone's rule on a list of Jason turns: when a plain move can climb, every listed turn
/// climbs; when the power can climb, every listed use of the power climbs.
pub open spec fn keeps_persephone_rule(state: FullGameState, player: Player, r: Seq<ScoredMove>) -> bool {
    &&& (exists|d: u32| #[trigger] is_jason_plain_climb(state, player, d)) ==> forall|k: int|
        0 <= k < r.len() ==> #[trigger] is_jason_turn(state, player, true, r[k].action.0)
    &&& (exists|d: u32| #[trigger] is_jason_power_climb(state, player, d)) ==> forall|k: int|
        0 <= k < r.len() && field_at(#[trigger] r[k].action.0, 15) != 25 ==> is_jason_turn(state, player, true, r[k].action.0)
}

/// The turns the generator owes with no narrowing filter on.
pub open spec fn jason_turn_owed(state: FullGameState, player: Player, data: u32) -> bool {
    if state.gods[1 - player.idx()].is_persephone_spec() {
        jason_turn_owed_vs_persephone(state, player, data)
    } else {
        is_jason_turn(state, player, false, data)
    }
}

/// Whether a filter dropped every climbing plain move that there was.
fn filtered_out_a_climb(flags: MoveGenFlags, state: &FullGameState, player: Player, prelude: &GeneratorPreludeState) -> (r: bool)
    requires
        state.board.wf(),
        prelude.inv(),
        prelude.board == state.board,
        prelude.player == player,
        prelude.other_god == state.gods[1 - player.idx()],
        prelude.own_workers.0 == state.board.workers[player.idx()].0 & MAIN_SECTION,
        prelude.other_god.is_hypnus_spec() ==> prelude.acting_workers.0 == crate::gods::hypnus::hypnus_filter_spec(
            state.board.height_map,
            prelude.own_workers.0,
        ),
        !prelude.other_god.is_hypnus_spec() ==> prelude.acting_workers == prelude.own_workers,
    ensures
        r == (flags & ANY_MOVE_FILTER != 0 && exists|d: u32| #[trigger] is_jason_plain_climb(*state, player, d)),
{
    if flags & ANY_MOVE_FILTER == 0 {
        return false;
    }
    let mut unfiltered = get_sized_result(0);
    proof {
        crate::generic::lemma_no_flags(0);
    }
    add_standard_moves(0, state, player, prelude, &mut unfiltered, true);
    proof {
        if unfiltered@.len() > 0 {
            assert(is_jason_plain_climb(*state, player, unfiltered@[0].action.0));
        }
        if exists|d: u32| #[trigger] is_jason_plain_climb(*state, player, d) {
            let d = choose|d: u32| #[trigger] is_jason_plain_climb(*state, player, d);
            assert(lists_word(unfiltered@, d));
        }
    }
    unfiltered.len() > 0
}

/// Whether a filter dropped every climbing power move that there was.
fn filtered_out_a_power_climb(flags: MoveGenFlags, state: &FullGameState, player: Player, prelude: &GeneratorPreludeState) -> (r: bool)
    requires
        state.board.wf(),
        state.board.god_data[player.idx()] == 0,
        prelude.inv(),
        prelude.board == state.board,
        prelude.player == player,
        prelude.other_god == state.gods[1 - player.idx()],
    ensures
        r == (flags & ANY_MOVE_FILTER != 0 && exists|d: u32| #[trigger] is_jason_power_climb(*state, player, d)),
{
    if flags & ANY_MOVE_FILTER == 0 {
        return false;
    }
    let mut unfiltered = get_sized_result(0);
    proof {
        crate::generic::lemma_no_flags(0);
    }
    add_hero_power_moves(0, state, player, prelude, &mut unfiltered, true);
    proof {
        if unfiltered@.len() > 0 {
            assert(is_jason_power_climb(*state, player, unfiltered@[0].action.0));
        }
        if exists|d: u32| #[trigger] is_jason_power_climb(*state, player, d) {
            let d = choose|d: u32| #[trigger] is_jason_power_climb(*state, player, d);
            assert(lists_word(unfiltered@, d));
        }
    }
    unfiltered.len() > 0
}

/// Jason's move generator.
pub fn jason_move_gen(flags: MoveGenFlags, state: &FullGameState, player: Player, key_squares: BitBoard) -> (result: Vec<ScoredMove>)
    requires
        state.board.wf(),
    ensures
        forall|k: int| 0 <= k < result@.len() ==> #[trigger] is_jason_turn(*state, player, false, result@[k].action.0),
        flags & NARROWING_FLAGS == 0 ==> forall|data: u32| #[trigger] jason_turn_owed(*state, player, data) ==> lists_word(result@, data),
        flags & NARROWING_FLAGS == 0 && state.gods[1 - player.idx()].is_persephone_spec() ==> keeps_persephone_rule(*state, player, result@),
{
    proof {
        crate::generic::lemma_no_flags(flags);
    }
    let prelude = get_generator_prelude_state(state, player, key_squares);
    let has_power_available = state.board.god_data[player.index()] == 0;
    if prelude.is_against_persephone {
        return jason_vs_persephone(flags, state, player, &prelude, has_power_available);
    }
    let mut result = get_sized_result(flags);
    if add_standard_moves(flags, state, player, &prelude, &mut result, false) {
        return result;
    }
    let ghost plain = result@;
    if has_power_available && !is_mate_only(flags) {
        add_hero_power_moves(flags, state, player, &prelude, &mut result, false);
    }
    proof {
        lemma_lists_word_grows(plain, result@);
        if flags & NARROWING_FLAGS == 0 {
            assert forall|data: u32| #[trigger] jason_turn_owed(*state, player, data) implies lists_word(result@, data) by {
                if field_at(data, 15) == 25 {
                    assert(lists_word(plain, data));
                }
            }
        }
    }
    result
}

/// Against Persephone: a plain climb binds every move to climb, and the power may then only be
/// used to climb; with no plain climb, the power may be used to climb, and only when it cannot
/// climb may it land flat.
fn jason_vs_persephone(
    flags: MoveGenFlags,
    state: &FullGameState,
    player: Player,
    prelude: &GeneratorPreludeState,
    has_power_available: bool,
) -> (result: Vec<ScoredMove>)
    requires
        state.board.wf(),
        has_power_available == (state.board.god_data[player.idx()] == 0),
        prelude.inv(),
        prelude.board == state.board,
        prelude.player == player,
        prelude.other_god == state.gods[1 - player.idx()],
        prelude.own_workers.0 == state.board.workers[player.idx()].0 & MAIN_SECTION,
        prelude.other_god.is_hypnus_spec() ==> prelude.acting_workers.0 == crate::gods::hypnus::hypnus_filter_spec(
            state.board.height_map,
            prelude.own_workers.0,
        ),
        !prelude.other_god.is_hypnus_spec() ==> prelude.acting_workers == prelude.own_workers,
    ensures
        forall|k: int| 0 <= k < result@.len() ==> #[trigger] is_jason_turn(*state, player, false, result@[k].action.0),
        flags & NARROWING_FLAGS == 0 ==> forall|data: u32| #[trigger] jason_turn_owed_vs_persephone(*state, player, data) ==> lists_word(result@, data),
        flags & NARROWING_FLAGS == 0 ==> keeps_persephone_rule(*state, player, result@),
{
    proof {
        crate::generic::lemma_no_flags(flags);
    }
    let mut result = get_sized_result(flags);
    let stop = add_standard_moves(flags, state, player, prelude, &mut result, true);
    let ghost climbs = result@;
    proof {
        assert forall|k: int| 0 <= k < result@.len() implies #[trigger] is_jason_turn(*state, player, true, result@[k].action.0) by {}
        if flags & NARROWING_FLAGS == 0 {
            if result@.len() > 0 {
                assert(is_jason_plain_climb(*state, player, result@[0].action.0));
            }
            if exists|d: u32| #[trigger] is_jason_plain_climb(*state, player, d) {
                let d = choose|d: u32| #[trigger] is_jason_plain_climb(*state, player, d);
                assert(lists_word(result@, d));
            }
        }
    }
    proof {
        assert forall|k: int| 0 <= k < result@.len() implies #[trigger] is_jason_turn(*state, player, false, result@[k].action.0) by {
            lemma_jason_climb_is_turn(*state, player, result@[k].action.0);
        }
    }
    if stop {
        return result;
    }
    let must_climb = result.len() > 0 || filtered_out_a_climb(flags, state, player, prelude);
    proof {
        assert(forall|k: int| 0 <= k < climbs.len() ==> #[trigger] is_jason_turn(*state, player, true, climbs[k].action.0));
    }
    if must_climb {
        if has_power_available && !is_mate_only(flags) {
            let ghost before = result@;
            add_hero_power_moves(flags, state, player, prelude, &mut result, true);
            proof {
                assert forall|k: int| 0 <= k < result@.len() implies #[trigger] is_jason_turn(*state, player, false, result@[k].action.0) by {
                    if k < before.len() {
                        assert(result@[k] == before[k]);
                    } else {
                        lemma_jason_climb_is_turn(*state, player, result@[k].action.0);
                    }
                }
                assert forall|k: int| 0 <= k < result@.len() implies #[trigger] is_jason_turn(*state, player, true, result@[k].action.0) by {
                    if k < before.len() {
                        assert(result@[k] == before[k]);
                    }
                }
            }
        }
        proof {
            assert(forall|k: int| 0 <= k < result@.len() ==> #[trigger] is_jason_turn(*state, player, true, result@[k].action.0));
        }
        proof {
            lemma_lists_word_grows(climbs, result@);
            if flags & NARROWING_FLAGS == 0 {
                assert forall|data: u32| #[trigger] jason_turn_owed_vs_persephone(*state, player, data) implies lists_word(result@, data) by {
                    if field_at(data, 15) == 25 {
                        assert(is_jason_plain_climb(*state, player, data));
                        assert(lists_word(climbs, data));
                    }
                }
            }
        }
        return result;
    }
    let ghost empty_so_far = result@;
    if add_standard_moves(flags, state, player, prelude, &mut result, false) {
        return result;
    }
    let ghost plain = result@;
    proof {
        assert forall|k: int| 0 <= k < plain.len() implies field_at(#[trigger] plain[k].action.0, 15) == 25 by {
            assert(empty_so_far.len() == 0);
        }
    }
    if has_power_available && !is_mate_only(flags) {
        let flat_moves_only = result.len();
        let ghost before = result@;
        add_hero_power_moves(flags, state, player, prelude, &mut result, true);
        proof {
            assert forall|k: int| 0 <= k < result@.len() implies #[trigger] is_jason_turn(*state, player, false, result@[k].action.0) by {
                if k < before.len() {
                    assert(result@[k] == before[k]);
                } else {
                    lemma_jason_climb_is_turn(*state, player, result@[k].action.0);
                }
            }
        }
        let ghost with_climbs = result@;
        proof {
            if flags & NARROWING_FLAGS == 0 {
                if result@.len() > flat_moves_only {
                    assert(is_jason_power_climb(*state, player, result@[flat_moves_only as int].action.0));
                }
                if exists|d: u32| #[trigger] is_jason_power_climb(*state, player, d) {
                    let d = choose|d: u32| #[trigger] is_jason_power_climb(*state, player, d);
                    assert(lists_word(result@, d));
                    let k = choose|k: int| 0 <= k < result@.len() && #[trigger] result@[k].action.0 == d;
                    if k < flat_moves_only {
                        assert(result@[k] == plain[k]);
                    }
                }
            }
        }
        let power_can_climb = result.len() > flat_moves_only || filtered_out_a_power_climb(flags, state, player, prelude);
        if !power_can_climb {
            add_hero_power_moves(flags, state, player, prelude, &mut result, false);
        }
        proof {
            lemma_lists_word_grows(plain, with_climbs);
            lemma_lists_word_grows(with_climbs, result@);
            if flags & NARROWING_FLAGS == 0 && exists|d: u32| #[trigger] is_jason_power_climb(*state, player, d) {
                assert(power_can_climb);
                assert(result@ == with_climbs);
                assert forall|k: int|
                    0 <= k < result@.len() && field_at(#[trigger] result@[k].action.0, 15) != 25 implies is_jason_turn(
                    *state,
                    player,
                    true,
                    result@[k].action.0,
                ) by {
                    if k < flat_moves_only {
                        assert(result@[k] == plain[k]);
                    }
                }
            }
        }
    } else {
        proof {
            assert(result@ == plain);
        }
    }
    proof {
        lemma_lists_word_grows(plain, result@);
        if flags & NARROWING_FLAGS == 0 {
            assert forall|data: u32| #[trigger] jason_turn_owed_vs_persephone(*state, player, data) implies lists_word(result@, data) by {
                if field_at(data, 15) == 25 {
                    assert(lists_word(plain, data));
                }
            }
            assert(!exists|d: u32| #[trigger] is_jason_plain_climb(*state, player, d)) by {
                if exists|d: u32| #[trigger] is_jason_plain_climb(*state, player, d) {
                    let d = choose|d: u32| #[trigger] is_jason_plain_climb(*state, player, d);
                    assert(lists_word(climbs, d));
                }
            }
            if exists|d: u32| #[trigger] is_jason_power_climb(*state, player, d) {
                assert forall|k: int|
                    0 <= k < result@.len() && field_at(#[trigger] result@[k].action.0, 15) != 25 implies is_jason_turn(
                    *state,
                    player,
                    true,
                    result@[k].action.0,
                ) by {
                    if result@ == plain {
                        assert(field_at(plain[k].action.0, 15) == 25);
                    }
                }
            }
        }
    }
    result
}

/// What playing a Jason turn needs, read off the turn.
pub proof fn lemma_jason_turn_playable(state: FullGameState, player: Player, data: u32)
    requires
        state.board.wf(),
        is_jason_turn(state, player, false, data),
    ensures
        field_at(data, 15) == 25 ==> field_at(data, 0) < 25 && field_at(data, 5) < 25 && state.board.workers[player.idx()].has(
            field_at(data, 0) as int,
        ) && !state.board.occupied(field_at(data, 5) as int) && is_adjacent(field_at(data, 0) as int, field_at(data, 5) as int),
        field_at(data, 15) != 25 ==> field_at(data, 15) < 25 && !state.board.occupied(field_at(data, 15) as int) && !is_winning_data(
            data,
        ),
        !is_winning_data(data) ==> field_at(data, 10) < 25 && state.board.height(field_at(data, 10) as int) < 4,
{
    assert(state.board.workers[player.idx()].within_board());
    if field_at(data, 15) != 25 {
        let q = choose|q: int| #[trigger] is_valid_placement(state.board, q) && is_standard_step(
            state.board,
            q,
            field_at(data, 15) as int,
            false,
        );
        lemma_jason_words(0, 0, field_at(data, 10), field_at(data, 15));
    } else if is_winning_data(data) {
        lemma_jason_words(field_at(data, 0), field_at(data, 5), 0, 0);
    } else {
        lemma_jason_words(field_at(data, 0), field_at(data, 5), field_at(data, 10), 0);
    }
}

/// Jason's fixed data.
pub fn build_jason() -> (r: GodPower)
    ensures
        r.god_name == GodName::Jason,
        r.hash1 == 7892341056789234105u64,
        r.hash2 == 14567890123456789012u64,
        r.placement_type == PlacementType::Normal,
        r.symmetry == BoardSymmetry::Full,
        !r.is_persephone,
{
    god_power(GodName::Jason, 7892341056789234105, 14567890123456789012)
}

/// How a turn of this god changes the board: the workers, the heights, the god data and the
/// winner after it, and whose turn it is, are those of `after`.
pub open spec fn jason_move_effect(before: BoardState, after: BoardState, player: Player, data: u32) -> bool {
    &&& after.current_player == before.current_player
    &&& after.workers[1 - player.idx()] == before.workers[1 - player.idx()]
    &&& (field_at(data, 15) != 25 ==> after.god_data[player.idx()] == 1)
    &&& (field_at(data, 15) != 25 ==> after.workers[player.idx()].0 == before.workers[player.idx()].0 ^ (1u32 << field_at(data, 15)))
    &&& (field_at(data, 15) == 25 ==> after.god_data == before.god_data)
    &&& (field_at(data, 15) == 25 ==> after.workers[player.idx()].0 == before.workers[player.idx()].0 ^ ((1u32 << field_at(data, 0)) | (1u32 << field_at(data, 5))))
    &&& (is_winning_data(data) ==> after.winner == Some(player) && after.height_map == before.height_map)
    &&& (!is_winning_data(data) ==> after.winner == before.winner)
    &&& (!is_winning_data(data) ==> after.height(field_at(data, 10) as int) == before.height( field_at(data, 10) as int, ) + 1)
    &&& (!is_winning_data(data) ==> forall|i: int| i != field_at(data, 10) ==> #[trigger] after.height(i) == before.height(i))
}

} // verus!
