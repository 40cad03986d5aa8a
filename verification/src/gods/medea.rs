use vstd::prelude::*;

use crate::bitboard::{apply_neighbor_map_to_mask, group_bit_lemmas, BitBoard, MAIN_SECTION};
use crate::board::{BoardState, FullGameState, Player};
use crate::generic::{
    lemma_field_small, build_scored_move, field_at, NARROWING_FLAGS, is_interact_with_key_squares, is_mate_only, is_winning_data, lemma_pack4, read_position,
    GenericMove, MoveData, MoveGenFlags, ScoredMove, ANY_MOVE_FILTER, MOVE_DATA_MAIN_SECTION, MOVE_IS_WINNING_MASK,
};
use crate::gods::mortal::{
    is_acting_worker, is_mortal_turn, is_standard_build_for, is_win_step, lemma_move_worker_keeps_wf,
    is_standard_turn, lemma_acting_in_prelude, lemma_lists_word_grows, standard_turn_owed, lemma_mortal_move_round_trip, lemma_prelude_acting, lists_word, mortal_basic_data, mortal_move_gen, mortal_winning_data, win_targets,
};
use crate::gods::move_helpers::{
    get_generator_prelude_state, get_sized_result, get_standard_reach_board, get_standard_reach_board_from_parts,
    get_worker_end_move_state, get_worker_next_build_state, get_worker_next_move_state, get_worker_start_move_state,
    is_standard_step, is_winning_entry, modify_prelude_for_checking_workers, push_winning_moves, GeneratorPreludeState,
    WorkerEndMoveState, WorkerNextMoveState, WorkerStartMoveState,
};
use crate::square::{is_adjacent, is_square, Square};
use crate::gods::{BoardSymmetry, PlacementType, god_power, GodName, GodPower};

verus! {

/// A Medea turn: a plain move and build, optionally razing one worker next to hers.
#[derive(Clone, Copy, PartialEq, Eq, Structural, Debug)]
pub struct MedeaMove(pub MoveData);

impl MedeaMove {
    pub fn new_basic_move(move_from_position: Square, move_to_position: Square, build_position: Square) -> (r: Self)
        requires
            move_from_position < 25,
            move_to_position < 25,
            build_position < 25,
        ensures
            r.0 == (move_from_position as u32) | ((move_to_position as u32) << 5u32) | ((build_position as u32) << 10u32),
    {
        Self((move_from_position as u32) | ((move_to_position as u32) << 5u32) | ((build_position as u32) << 10u32))
    }

    /// A move and build that also razes the worker on `raze_position` to the ground.
    pub fn new_raze_move(move_from_position: Square, move_to_position: Square, build_position: Square, raze_position: Square) -> (r: Self)
        requires
            move_from_position < 25,
            move_to_position < 25,
            build_position < 25,
            raze_position < 25,
        ensures
            r.0 == (move_from_position as u32) | ((move_to_position as u32) << 5u32) | ((build_position as u32) << 10u32) | (((raze_position + 1) as u32) << 15u32),
    {
        Self((move_from_position as u32) | ((move_to_position as u32) << 5u32) | ((build_position as u32) << 10u32) | (((raze_position + 1) as u32) << 15u32))
    }

    pub fn new_winning_move(move_from_position: Square, move_to_position: Square) -> (r: Self)
        requires
            move_from_position < 25,
            move_to_position < 25,
        ensures
            r.0 == (move_from_position as u32) | ((move_to_position as u32) << 5u32) | MOVE_IS_WINNING_MASK,
    {
        Self((move_from_position as u32) | ((move_to_position as u32) << 5u32) | MOVE_IS_WINNING_MASK)
    }

    pub fn move_from_position(&self) -> (r: Square)
        ensures
            r == field_at(self.0, 0),
            r < 32,
    {
        read_position(self.0, 0)
    }

    pub fn move_to_position(&self) -> (r: Square)
        ensures
            r == field_at(self.0, 5),
            r < 32,
    {
        read_position(self.0, 5)
    }

    pub fn build_position(self) -> (r: Square)
        ensures
            r == field_at(self.0, 10),
            r < 32,
    {
        read_position(self.0, 10)
    }

    /// The square razed by the power, if any. The field holds one more than the square, so that 0
    /// means no raze.
    pub fn raze_position(self) -> (r: Option<Square>)
        ensures
            field_at(self.0, 15) < 32,
            r == (if field_at(self.0, 15) == 0 {
                None
            } else {
                Some((field_at(self.0, 15) - 1) as u8)
            }),
    {
        let value = read_position(self.0, 15);
        if value == 0 {
            None
        } else {
            Some(value - 1)
        }
    }

    /// The start and end squares of the moving worker.
    fn move_mask(self) -> (r: BitBoard)
        ensures
            r.0 == (1u32 << field_at(self.0, 0)) | (1u32 << field_at(self.0, 5)),
    {
        BitBoard::as_mask(self.move_from_position()).or(BitBoard::as_mask(self.move_to_position()))
    }

    fn get_is_winning(&self) -> (r: bool)
        ensures
            r == is_winning_data(self.0),
    {
        (self.0 & MOVE_IS_WINNING_MASK) != 0
    }
}

/// A Medea move reads back what it was built from, and stays clear of the flags.
pub proof fn lemma_medea_move_round_trip(move_from: u32, move_to: u32, build: u32, raze_field: u32)
    requires
        move_from < 25,
        move_to < 25,
        build < 25,
        raze_field <= 25,
    ensures
        field_at(move_from | (move_to << 5u32) | (build << 10u32) | (raze_field << 15u32), 0) == move_from,
        field_at(move_from | (move_to << 5u32) | (build << 10u32) | (raze_field << 15u32), 5) == move_to,
        field_at(move_from | (move_to << 5u32) | (build << 10u32) | (raze_field << 15u32), 10) == build,
        field_at(move_from | (move_to << 5u32) | (build << 10u32) | (raze_field << 15u32), 15) == raze_field,
        !is_winning_data(move_from | (move_to << 5u32) | (build << 10u32) | (raze_field << 15u32)),
        (move_from | (move_to << 5u32) | (build << 10u32) | (raze_field << 15u32)) & MOVE_DATA_MAIN_SECTION == move_from | (move_to << 5u32) | (build << 10u32) | (raze_field << 15u32),
{
    lemma_pack4(move_from, move_to, build, raze_field);
}

/// The word of a move that also razes `raze`: the square is stored one higher, so that an empty
/// field means no raze.
pub open spec fn medea_raze_data(from: u32, to: u32, build: u32, raze: u32) -> u32 {
    from | (to << 5u32) | (build << 10u32) | (((raze + 1) as u32) << 15u32)
}

/// Whether `w` holds one of the player's workers at the end of a turn in which the worker on
/// `from` moved to `to`.
pub open spec fn is_own_end_worker(board: BoardState, p: int, from: int, to: int, w: int) -> bool {
    w == to || (board.workers[p].has(w) && w != from)
}

/// A square Medea may raze once her worker has moved from `from` to `to`: a worker stands on it at
/// the end of the turn, it neighbours one of her workers, and it holds between one and three
/// levels.
pub open spec fn is_raze_target(board: BoardState, p: int, from: int, to: int, r: int) -> bool {
    &&& is_square(r)
    &&& (is_own_end_worker(board, p, from, to, r) || board.workers[1 - p].has(r))
    &&& exists|w: int| #[trigger] is_own_end_worker(board, p, from, to, w) && is_adjacent(w, r)
    &&& 1 <= board.height(r) < 4
}

/// A legal Medea turn read off its word: a plain turn; or, while her power is unspent, a plain
/// move and build followed by razing a square of `is_raze_target`.
pub open spec fn is_medea_turn(state: FullGameState, player: Player, must_climb: bool, data: u32) -> bool {
    let board = state.board;
    let p = player.idx();
    let from = field_at(data, 0);
    let to = field_at(data, 5);
    let build = field_at(data, 10);
    let raze_field = field_at(data, 15);
    if board.god_data[p] != 0 || raze_field == 0 {
        is_mortal_turn(state, player, must_climb, data)
    } else {
        &&& data == medea_raze_data(from, to, build, (raze_field - 1) as u32)
        &&& is_acting_worker(state, player, from as int)
        &&& is_standard_step(board, from as int, to as int, must_climb)
        &&& !is_win_step(false, board.height(from as int), board.height(to as int))
        &&& is_standard_build_for(state, player, from as int, to as int, build as int)
        &&& is_raze_target(board, p, from as int, to as int, raze_field - 1)
    }
}

/// A turn owed a climb is a turn.
pub proof fn lemma_medea_climb_is_turn(state: FullGameState, player: Player, data: u32)
    ensures
        is_medea_turn(state, player, true, data) ==> is_medea_turn(state, player, false, data),
{
}

/// The raze field of a plain word is empty.
proof fn lemma_plain_words_have_no_raze(from: u32, to: u32, build: u32)
    by (bit_vector)
    requires
        from < 32,
        to < 32,
        build < 32,
    ensures
        ((from | (to << 5u32) | (build << 10u32)) >> 15u32) & 31u32 == 0,
        ((from | (to << 5u32) | 0x8000_0000u32) >> 15u32) & 31u32 == 0,
{
}

/// What playing a Medea turn needs, read off the turn.
pub proof fn lemma_medea_turn_playable(state: FullGameState, player: Player, data: u32)
    requires
        state.board.wf(),
        is_medea_turn(state, player, false, data),
    ensures
        field_at(data, 0) < 25,
        field_at(data, 5) < 25,
        state.board.workers[player.idx()].has(field_at(data, 0) as int),
        !state.board.occupied(field_at(data, 5) as int),
        !is_winning_data(data) ==> field_at(data, 10) < 25 && state.board.height(field_at(data, 10) as int) < 4,
        !is_winning_data(data) ==> field_at(data, 15) <= 25,
{
    let from = field_at(data, 0);
    let to = field_at(data, 5);
    let build = field_at(data, 10);
    assert(state.board.workers[player.idx()].within_board());
    if state.board.god_data[player.idx()] != 0 || field_at(data, 15) == 0 {
        if is_winning_data(data) {
            lemma_mortal_move_round_trip(from, to, 0);
        } else {
            lemma_mortal_move_round_trip(from, to, build);
            lemma_plain_words_have_no_raze(from, to, build);
        }
    } else {
        lemma_pack4(from, to, build, field_at(data, 15));
    }
}

/// Once Medea's power is spent, no legal turn of hers razes.
pub proof fn lemma_medea_power_spent_for_good(state: FullGameState, player: Player, must_climb: bool, data: u32)
    requires
        state.board.wf(),
        state.board.god_data[player.idx()] != 0,
        is_medea_turn(state, player, must_climb, data),
    ensures
        field_at(data, 15) == 0,
{
    let from = field_at(data, 0);
    let to = field_at(data, 5);
    let build = field_at(data, 10);
    assert(state.board.workers[player.idx()].within_board());
    if is_winning_data(data) {
        lemma_mortal_move_round_trip(from, to, 0);
        lemma_plain_words_have_no_raze(from, to, 0);
    } else {
        lemma_mortal_move_round_trip(from, to, build);
        lemma_plain_words_have_no_raze(from, to, build);
    }
}

impl MedeaMove {
    /// Plays the turn: the worker moves, and either wins or builds; a raze then takes every level
    /// off its square and spends the power.
    pub fn make_move(self, board: &mut BoardState, player: Player)
        requires
            old(board).wf(),
            field_at(self.0, 0) < 25,
            field_at(self.0, 5) < 25,
            old(board).workers[player.idx()].has(field_at(self.0, 0) as int),
            !old(board).occupied(field_at(self.0, 5) as int),
            !is_winning_data(self.0) ==> field_at(self.0, 10) < 25 && old(board).height(field_at(self.0, 10) as int) < 4,
            !is_winning_data(self.0) ==> field_at(self.0, 15) <= 25,
        ensures
            final(board).wf(),
            final(board).current_player == old(board).current_player,
            final(board).workers[1 - player.idx()] == old(board).workers[1 - player.idx()],
            final(board).workers[player.idx()].0 == old(board).workers[player.idx()].0 ^ ((1u32 << field_at(self.0, 0)) | (1u32
                << field_at(self.0, 5))),
            is_winning_data(self.0) ==> final(board).winner == Some(player) && final(board).height_map == old(board).height_map
                && final(board).god_data == old(board).god_data,
            !is_winning_data(self.0) ==> final(board).winner == old(board).winner,
            !is_winning_data(self.0) && field_at(self.0, 15) == 0 ==> final(board).god_data == old(board).god_data,
            !is_winning_data(self.0) && field_at(self.0, 15) != 0 ==> final(board).god_data[player.idx()] == 1
                && final(board).god_data[1 - player.idx()] == old(board).god_data[1 - player.idx()],
            !is_winning_data(self.0) ==> forall|i: int| #[trigger] final(board).height(i) == (if field_at(self.0, 15) != 0 && i
                == field_at(self.0, 15) - 1 {
                0
            } else if i == field_at(self.0, 10) {
                old(board).height(i) + 1
            } else {
                old(board).height(i)
            }),
    {
        let ghost before = *board;
        let mask = self.move_mask();
        proof {
            crate::gods::jason::lemma_or_is_xor(field_at(self.0, 0), field_at(self.0, 5));
        }
        board.worker_xor(player, mask);
        proof {
            lemma_move_worker_keeps_wf(before, *board, player, field_at(self.0, 0), field_at(self.0, 5));
        }
        if self.get_is_winning() {
            board.set_winner(player);
            return;
        }
        board.build_up(self.build_position());
        let ghost built = *board;
        match self.raze_position() {
            Some(raze) => {
                board.set_god_data(player, 1);
                board.raze(raze);
                assert(raze == field_at(self.0, 15) - 1);
                assert forall|i: int| #[trigger] board.height(i) == (if i == raze {
                    0
                } else {
                    built.height(i)
                }) by {}
            },
            None => {},
        }
    }

    pub fn to_generic(self) -> (r: GenericMove)
        ensures
            r.0 == self.0,
    {
        GenericMove(self.0)
    }
}

/// The squares Medea may raze once her workers stand on `own_end_workers`: a worker on them, next
/// to one of hers, and at least one level up.
fn raze_targets(prelude: &GeneratorPreludeState, own_end_workers: BitBoard) -> (r: BitBoard)
    requires
        prelude.inv(),
    ensures
        forall|i: int| #[trigger] r.has(i) == ((exists|s: int| 0 <= s < 25 && #[trigger] own_end_workers.has(s) && is_adjacent(s, i))
            && (own_end_workers.has(i) || prelude.oppo_workers.has(i)) && prelude.board.height_map[0].has(i)
            && !prelude.domes_and_frozen.has(i)),
{
    apply_neighbor_map_to_mask(own_end_workers).and(own_end_workers.or(prelude.oppo_workers)).and(prelude.board.height_map[0]).minus(
        prelude.domes_and_frozen,
    )
}

/// Scores one move that ends in a raze. Razing her own worker drops it to the ground, so it
/// threatens nothing next turn, and the razed square no longer counts as level 3.
fn build_raze_move(
    flags: MoveGenFlags,
    prelude: &GeneratorPreludeState,
    worker_start_pos: Square,
    worker_end_move_state: &WorkerEndMoveState,
    worker_next_moves: &WorkerNextMoveState,
    unblocked_squares: BitBoard,
    worker_build_pos: Square,
    final_level_3: BitBoard,
    raze_pos: Square,
) -> (r: ScoredMove)
    requires
        prelude.inv(),
        worker_start_pos < 25,
        worker_end_move_state.worker_end_pos < 25,
        worker_end_move_state.is_mate_capable <= 1,
        worker_build_pos < 25,
        raze_pos < 25,
    ensures
        r.action.0 == medea_raze_data(
            worker_start_pos as u32,
            worker_end_move_state.worker_end_pos as u32,
            worker_build_pos as u32,
            raze_pos as u32,
        ),
{
    let raze_mask = BitBoard::as_mask(raze_pos);
    let stays_on_lvl_2: u32 = if raze_pos != worker_end_move_state.worker_end_pos {
        worker_end_move_state.is_mate_capable
    } else {
        0
    };
    let threatening_workers = worker_next_moves.other_threatening_workers.minus(raze_mask);
    let threatening_neighbors = if threatening_workers.0 == worker_next_moves.other_threatening_workers.0 {
        worker_next_moves.other_threatening_neighbors
    } else {
        apply_neighbor_map_to_mask(threatening_workers)
    };
    let reach_board = get_standard_reach_board_from_parts(
        prelude,
        threatening_workers,
        threatening_neighbors,
        worker_end_move_state.worker_end_pos,
        stays_on_lvl_2,
        unblocked_squares,
    );
    let action = MedeaMove::new_raze_move(worker_start_pos, worker_end_move_state.worker_end_pos, worker_build_pos, raze_pos);
    let is_check = reach_board.and(final_level_3).minus(raze_mask).is_not_empty();
    let is_improving = worker_end_move_state.is_improving && raze_pos != worker_end_move_state.worker_end_pos;
    build_scored_move(flags, action.to_generic(), is_check, is_improving)
}

/// A word that carries a raze never has the winning flag set.
proof fn lemma_raze_word_never_wins(data: u32)
    requires
        field_at(data, 15) != 0,
        data == medea_raze_data(field_at(data, 0), field_at(data, 5), field_at(data, 10), (field_at(data, 15) - 1) as u32),
    ensures
        !is_winning_data(data),
{
    lemma_field_small(data, 0);
    lemma_field_small(data, 5);
    lemma_field_small(data, 10);
    lemma_field_small(data, 15);
    assert((((field_at(data, 15) - 1) as u32 + 1) as u32) == field_at(data, 15));
    lemma_pack4(field_at(data, 0), field_at(data, 5), field_at(data, 10), field_at(data, 15));
}

/// The turns the generator owes with no narrowing filter on: every legal turn, except that
/// against Persephone, when a climb exists, only the climbing ones.
pub open spec fn medea_turn_owed(state: FullGameState, player: Player, must_climb: bool, data: u32) -> bool {
    &&& is_medea_turn(state, player, must_climb, data)
    &&& (state.gods[1 - player.idx()].is_persephone_spec() && !must_climb && exists|d: u32| #[trigger] is_medea_turn(state, player, true, d))
        ==> is_medea_turn(state, player, true, data)
}

/// Medea's move generator. Once her power is spent she moves as a mortal. While it is available,
/// each move and build is offered plain and with every raze of `is_raze_target`; wins are plain
/// climbs, with the power kept. In blocking generation, razing a key square blocks in its own
/// right, so such razes are offered after any build.
pub fn medea_move_gen(
    flags: MoveGenFlags,
    state: &FullGameState,
    player: Player,
    key_squares: BitBoard,
    must_climb: bool,
) -> (result: Vec<ScoredMove>)
    requires
        state.board.wf(),
    ensures
        forall|k: int| 0 <= k < result@.len() ==> #[trigger] is_medea_turn(*state, player, must_climb, result@[k].action.0),
        flags & NARROWING_FLAGS == 0 ==> forall|data: u32| #[trigger] medea_turn_owed(*state, player, must_climb, data) ==> lists_word(
            result@,
            data,
        ),
        flags & NARROWING_FLAGS == 0 && state.gods[1 - player.idx()].is_persephone_spec() && !must_climb && (exists|d: u32|
            #[trigger] is_medea_turn(*state, player, true, d)) ==> forall|k: int| 0 <= k < result@.len()
            ==> #[trigger] is_medea_turn(*state, player, true, result@[k].action.0),
    decreases if must_climb {
        0int
    } else {
        1int
    },
{
    broadcast use group_bit_lemmas;

    proof {
        crate::generic::lemma_no_flags(flags);
    }
    if state.board.god_data[player.index()] != 0 {
        let plain = mortal_move_gen(flags, state, player, key_squares, must_climb);
        proof {
            if flags & NARROWING_FLAGS == 0 {
                assert forall|data: u32| #[trigger] medea_turn_owed(*state, player, must_climb, data) implies lists_word(plain@, data) by {
                    if state.gods[1 - player.idx()].is_persephone_spec() && !must_climb && exists|d: u32|
                        #[trigger] is_standard_turn(*state, player, true, false, d) {
                        let d = choose|d: u32| #[trigger] is_standard_turn(*state, player, true, false, d);
                        assert(is_medea_turn(*state, player, true, d));
                    }
                    assert(standard_turn_owed(*state, player, must_climb, false, data));
                }
            }
        }
        return plain;
    }
    let mut result = if state.gods[player.other().index()].is_persephone() && !must_climb {
        let climbing = medea_move_gen(flags, state, player, key_squares, true);
        proof {
            assert forall|k: int| 0 <= k < climbing@.len() implies #[trigger] is_medea_turn(
                *state,
                player,
                must_climb,
                climbing@[k].action.0,
            ) by {
                lemma_medea_climb_is_turn(*state, player, climbing@[k].action.0);
            }
        }
        if climbing.len() > 0 {
            proof {
                if flags & NARROWING_FLAGS == 0 {
                    assert(is_medea_turn(*state, player, true, climbing@[0].action.0));
                    assert forall|data: u32| #[trigger] medea_turn_owed(*state, player, must_climb, data) implies lists_word(climbing@, data) by {
                        assert(medea_turn_owed(*state, player, true, data));
                    }
                }
            }
            return climbing;
        }
        proof {
            if flags & NARROWING_FLAGS == 0 {
                assert forall|d: u32| !#[trigger] is_medea_turn(*state, player, true, d) by {
                    if is_medea_turn(*state, player, true, d) {
                        assert(medea_turn_owed(*state, player, true, d));
                    }
                }
            }
        }
        if flags & ANY_MOVE_FILTER > 0 {
            let unrestricted = medea_move_gen(0, state, player, key_squares, true);
            if unrestricted.len() > 0 {
                return climbing;
            }
        }
        climbing
    } else {
        get_sized_result(flags)
    };
    assert(flags & NARROWING_FLAGS == 0 && state.gods[1 - player.idx()].is_persephone_spec() && !must_climb ==> forall|d: u32|
        !#[trigger] is_medea_turn(*state, player, true, d));
    let mut prelude = get_generator_prelude_state(state, player, key_squares);
    let ghost initial_acting = prelude.acting_workers;
    let checkable_mask = prelude.exactly_level_2;
    modify_prelude_for_checking_workers(flags, checkable_mask, &mut prelude);
    let workers = prelude.acting_workers.squares();
    let mut wi: usize = 0;
    while wi < workers.len()
        invariant
            flags & NARROWING_FLAGS == 0 && state.gods[1 - player.idx()].is_persephone_spec() && !must_climb ==> forall|d: u32|
                !#[trigger] is_medea_turn(*state, player, true, d),
            wi <= workers@.len(),
            state.board.wf(),
            state.board.god_data[player.idx()] == 0,
            prelude.inv(),
            prelude.board == state.board,
            prelude.player == player,
            prelude.other_god == state.gods[1 - player.idx()],
            prelude.own_workers.0 == state.board.workers[player.idx()].0 & MAIN_SECTION,
            prelude.other_god.is_hypnus_spec() ==> initial_acting.0 == crate::gods::hypnus::hypnus_filter_spec(
                state.board.height_map,
                prelude.own_workers.0,
            ),
            !prelude.other_god.is_hypnus_spec() ==> initial_acting == prelude.own_workers,
            forall|i: int| #[trigger] prelude.acting_workers.has(i) ==> initial_acting.has(i),
            forall|k: int| 0 <= k < workers@.len() ==> #[trigger] workers@[k] < 25 && prelude.acting_workers.has(workers@[k] as int),
            forall|k: int| 0 <= k < result@.len() ==> #[trigger] is_medea_turn(*state, player, must_climb, result@[k].action.0),
            flags & NARROWING_FLAGS == 0 ==> forall|data: u32| #[trigger] is_medea_turn(*state, player, must_climb, data) && (exists|j: int|
                0 <= j < wi && workers@[j] as u32 == field_at(data, 0)) ==> lists_word(result@, data),
            flags & NARROWING_FLAGS == 0 ==> flags & 1 == 0 && flags & 2 == 0 && flags & 8 == 0,
            flags & NARROWING_FLAGS == 0 ==> prelude.acting_workers == initial_acting,
        decreases workers@.len() - wi,
    {
        let worker_start_pos = workers[wi];
        wi = wi + 1;
        proof {
            lemma_prelude_acting(*state, player, prelude.own_workers, initial_acting, worker_start_pos as int);
        }
        let worker_start_state = get_worker_start_move_state(&prelude, worker_start_pos);
        let mut worker_next_moves = get_worker_next_move_state(&prelude, &worker_start_state, checkable_mask, must_climb);
        let targets = win_targets(&prelude, worker_start_state.worker_start_height, false);
        let winning_moves = worker_next_moves.worker_moves.and(targets).and(prelude.win_mask);
        let ghost before = result@;
        let stop = push_winning_moves(flags, &mut result, worker_start_pos, winning_moves, 0);
        proof {
            assert forall|k: int| 0 <= k < result@.len() implies #[trigger] is_medea_turn(
                *state,
                player,
                must_climb,
                result@[k].action.0,
            ) by {
                if k >= before.len() {
                    assert(is_winning_entry(result@[k], worker_start_pos, winning_moves, 0));
                    let sq = choose|sq: u8| sq < 25 && #[trigger] winning_moves.has(sq as int)
                        && result@[k].action.0 == (worker_start_pos as u32) | ((sq as u32) << 5u32) | 0u32 | MOVE_IS_WINNING_MASK;
                    lemma_mortal_move_round_trip(worker_start_pos as u32, sq as u32, 0);
                    lemma_plain_words_have_no_raze(worker_start_pos as u32, sq as u32, 0);
                    crate::bitboard::lemma_or_zero((worker_start_pos as u32) | ((sq as u32) << 5u32));
                    assert(worker_next_moves.worker_moves.has(sq as int));
                    assert(targets.has(sq as int));
                } else {
                    assert(result@[k] == before[k]);
                }
            }
        }
        proof {
            lemma_lists_word_grows(before, result@);
            if flags & NARROWING_FLAGS == 0 {
                assert forall|data: u32| #[trigger] is_medea_turn(*state, player, must_climb, data) && field_at(data, 0)
                    == worker_start_pos && is_winning_data(data) implies lists_word(result@, data) by {
                    if field_at(data, 15) != 0 {
                        lemma_raze_word_never_wins(data);
                    }
                    let to = field_at(data, 5);
                    assert(winning_moves.has(to as int));
                    let k = choose|k: int| before.len() <= k < result@.len() && #[trigger] result@[k].action.0
                        == (worker_start_pos as u32) | ((to as u32) << 5u32) | 0u32 | MOVE_IS_WINNING_MASK;
                    crate::bitboard::lemma_or_zero((worker_start_pos as u32) | ((to as u32) << 5u32));
                }
            }
        }
        if stop {
            return result;
        }
        worker_next_moves.worker_moves = worker_next_moves.worker_moves.xor(winning_moves);
        if is_mate_only(flags) {
            continue;
        }
        let ends = worker_next_moves.worker_moves.squares();
        proof {
            if flags & NARROWING_FLAGS == 0 {
                assert forall|i: int| 0 <= i < 25 && is_standard_step(state.board, worker_start_pos as int, i, must_climb)
                    && !is_win_step(false, state.board.height(worker_start_pos as int), state.board.height(i)) implies #[trigger] ends@.contains(i as u8) by {
                    assert(!targets.has(i));
                    assert(worker_next_moves.worker_moves.has(i));
                }
            }
        }
        let mut ei: usize = 0;
        while ei < ends.len()
            invariant
                flags & NARROWING_FLAGS == 0 && state.gods[1 - player.idx()].is_persephone_spec() && !must_climb ==> forall|d: u32|
                    !#[trigger] is_medea_turn(*state, player, true, d),
                ei <= ends@.len(),
                state.board.wf(),
                state.board.god_data[player.idx()] == 0,
                prelude.inv(),
                prelude.board == state.board,
                prelude.player == player,
                prelude.other_god == state.gods[1 - player.idx()],
                worker_start_pos < 25,
                worker_start_state.describes(prelude, worker_start_pos as int),
                is_acting_worker(*state, player, worker_start_pos as int),
                forall|k: int| 0 <= k < ends@.len() ==> #[trigger] ends@[k] < 25
                    && is_standard_step(state.board, worker_start_pos as int, ends@[k] as int, must_climb)
                    && !is_win_step(false, state.board.height(worker_start_pos as int), state.board.height(ends@[k] as int)),
                forall|k: int| 0 <= k < result@.len() ==> #[trigger] is_medea_turn(*state, player, must_climb, result@[k].action.0),
                flags & NARROWING_FLAGS == 0 ==> forall|data: u32| #[trigger] is_medea_turn(*state, player, must_climb, data) && (exists|j: int|
                    0 <= j < wi - 1 && workers@[j] as u32 == field_at(data, 0)) ==> lists_word(result@, data),
                flags & NARROWING_FLAGS == 0 ==> forall|data: u32| #[trigger] is_medea_turn(*state, player, must_climb, data) && field_at(data, 0)
                    == worker_start_pos && is_winning_data(data) ==> lists_word(result@, data),
                flags & NARROWING_FLAGS == 0 ==> forall|data: u32| #[trigger] is_medea_turn(*state, player, must_climb, data) && field_at(data, 0)
                    == worker_start_pos && !is_winning_data(data) && (exists|j: int| 0 <= j < ei && ends@[j] as u32 == field_at(data, 5))
                    ==> lists_word(result@, data),
                flags & NARROWING_FLAGS == 0 ==> forall|i: int| 0 <= i < 25 && is_standard_step(state.board, worker_start_pos as int, i, must_climb)
                    && !is_win_step(false, state.board.height(worker_start_pos as int), state.board.height(i)) ==> #[trigger] ends@.contains(i as u8),
                flags & NARROWING_FLAGS == 0 ==> flags & 1 == 0 && flags & 2 == 0 && flags & 8 == 0,
                1 <= wi <= workers@.len(),
                workers@[wi - 1] == worker_start_pos,
            decreases ends@.len() - ei,
        {
            let worker_end_pos = ends[ei];
            ei = ei + 1;
            let worker_end_move_state = get_worker_end_move_state(&prelude, &worker_start_state, worker_end_pos);
            let worker_next_build_state = get_worker_next_build_state(flags, &prelude, &worker_start_state, &worker_end_move_state);
            let own_end_workers = worker_start_state.other_own_workers.or(worker_end_move_state.worker_end_mask);
            let razes = raze_targets(&prelude, own_end_workers);
            proof {
                let p = player.idx();
                assert forall|i: int| #[trigger] razes.has(i) implies is_raze_target(
                    state.board,
                    p,
                    worker_start_pos as int,
                    worker_end_pos as int,
                    i,
                ) by {
                    let s = choose|s: int| 0 <= s < 25 && #[trigger] own_end_workers.has(s) && is_adjacent(s, i);
                    assert(is_own_end_worker(state.board, p, worker_start_pos as int, worker_end_pos as int, s));
                    assert(state.board.height_map[0].has(i));
                }
            }
            let reach_board = get_standard_reach_board(
                &prelude,
                &worker_next_moves,
                &worker_end_move_state,
                worker_next_build_state.unblocked_squares,
            );
            let raze_list = razes.squares();
            let builds = worker_next_build_state.narrowed_builds.squares();
            proof {
                if flags & NARROWING_FLAGS == 0 {
                    let p = player.idx();
                    assert forall|r: int| 0 <= r < 25 && #[trigger] is_raze_target(state.board, p, worker_start_pos as int, worker_end_pos as int, r)
                        implies raze_list@.contains(r as u8) by {
                        let w = choose|w: int| #[trigger] is_own_end_worker(state.board, p, worker_start_pos as int, worker_end_pos as int, w) && is_adjacent(w, r);
                        assert(own_end_workers.has(w));
                        if is_own_end_worker(state.board, p, worker_start_pos as int, worker_end_pos as int, r) {
                            assert(own_end_workers.has(r));
                        }
                        crate::gods::move_helpers::lemma_layer_is_height(state.board, 0, r);
                        assert(razes.has(r));
                    }
                    assert forall|b: int| 0 <= b < 25 && #[trigger] is_standard_build_for(*state, player, worker_start_pos as int, worker_end_pos as int, b)
                        implies builds@.contains(b as u8) by {
                        assert(worker_next_build_state.all_possible_builds.has(b));
                    }
                }
            }
            let mut bi: usize = 0;
            while bi < builds.len()
                invariant
                    flags & NARROWING_FLAGS == 0 && state.gods[1 - player.idx()].is_persephone_spec() && !must_climb ==> forall|d: u32|
                        !#[trigger] is_medea_turn(*state, player, true, d),
                    bi <= builds@.len(),
                    state.board.god_data[player.idx()] == 0,
                    prelude.inv(),
                    prelude.board == state.board,
                    prelude.player == player,
                    prelude.other_god == state.gods[1 - player.idx()],
                    worker_start_pos < 25,
                    worker_end_pos < 25,
                    worker_end_move_state.worker_end_pos == worker_end_pos,
                    worker_end_move_state.is_mate_capable <= 1,
                    is_acting_worker(*state, player, worker_start_pos as int),
                    is_standard_step(state.board, worker_start_pos as int, worker_end_pos as int, must_climb),
                    !is_win_step(false, state.board.height(worker_start_pos as int), state.board.height(worker_end_pos as int)),
                    worker_next_build_state.describes(prelude, worker_start_pos as int, worker_end_pos as int),
                    forall|k: int| 0 <= k < builds@.len() ==> #[trigger] builds@[k] < 25
                        && worker_next_build_state.narrowed_builds.has(builds@[k] as int),
                    forall|k: int| 0 <= k < raze_list@.len() ==> #[trigger] raze_list@[k] < 25 && is_raze_target(
                        state.board,
                        player.idx(),
                        worker_start_pos as int,
                        worker_end_pos as int,
                        raze_list@[k] as int,
                    ),
                    forall|k: int| 0 <= k < result@.len() ==> #[trigger] is_medea_turn(*state, player, must_climb, result@[k].action.0),
                    flags & NARROWING_FLAGS == 0 ==> forall|data: u32| #[trigger] is_medea_turn(*state, player, must_climb, data) && (exists|j: int|
                        0 <= j < wi - 1 && workers@[j] as u32 == field_at(data, 0)) ==> lists_word(result@, data),
                    flags & NARROWING_FLAGS == 0 ==> forall|data: u32| #[trigger] is_medea_turn(*state, player, must_climb, data) && field_at(data, 0)
                        == worker_start_pos && is_winning_data(data) ==> lists_word(result@, data),
                    flags & NARROWING_FLAGS == 0 ==> forall|data: u32| #[trigger] is_medea_turn(*state, player, must_climb, data) && field_at(data, 0)
                        == worker_start_pos && !is_winning_data(data) && (exists|j: int| 0 <= j < ei - 1 && ends@[j] as u32 == field_at(data, 5))
                        ==> lists_word(result@, data),
                    flags & NARROWING_FLAGS == 0 ==> forall|i: int| 0 <= i < 25 && is_standard_step(state.board, worker_start_pos as int, i, must_climb)
                        && !is_win_step(false, state.board.height(worker_start_pos as int), state.board.height(i)) ==> #[trigger] ends@.contains(i as u8),
                    flags & NARROWING_FLAGS == 0 ==> flags & 1 == 0 && flags & 2 == 0 && flags & 8 == 0,
                    1 <= wi <= workers@.len(),
                    workers@[wi - 1] == worker_start_pos,
                    flags & NARROWING_FLAGS == 0 ==> forall|data: u32| #[trigger] is_medea_turn(*state, player, must_climb, data) && field_at(data, 0)
                        == worker_start_pos && !is_winning_data(data) && field_at(data, 5) == worker_end_pos && (exists|j: int| 0 <= j < bi
                        && builds@[j] as u32 == field_at(data, 10)) ==> lists_word(result@, data),
                    flags & NARROWING_FLAGS == 0 ==> forall|b: int| 0 <= b < 25 && #[trigger] is_standard_build_for(*state, player, worker_start_pos as int, worker_end_pos as int, b) ==> builds@.contains(b as u8),
                    flags & NARROWING_FLAGS == 0 ==> forall|r: int| 0 <= r < 25 && #[trigger] is_raze_target(state.board, player.idx(), worker_start_pos as int, worker_end_pos as int, r) ==> raze_list@.contains(r as u8),
                    1 <= ei <= ends@.len(),
                    ends@[ei - 1] == worker_end_pos,
                decreases builds@.len() - bi,
            {
                let worker_build_pos = builds[bi];
                bi = bi + 1;
                let worker_build_mask = BitBoard::as_mask(worker_build_pos);
                let final_level_3 = prelude.exactly_level_2.and(worker_build_mask).or(prelude.exactly_level_3.minus(worker_build_mask));
                let new_action = MedeaMove::new_basic_move(worker_start_pos, worker_end_pos, worker_build_pos);
                let is_check = reach_board.and(final_level_3).is_not_empty();
                let ghost before = result@;
                result.push(build_scored_move(flags, new_action.to_generic(), is_check, worker_end_move_state.is_improving));
                proof {
                    lemma_mortal_move_round_trip(worker_start_pos as u32, worker_end_pos as u32, worker_build_pos as u32);
                    lemma_plain_words_have_no_raze(worker_start_pos as u32, worker_end_pos as u32, worker_build_pos as u32);
                    assert(worker_next_build_state.narrowed_builds.has(worker_build_pos as int));
                    assert forall|k: int| 0 <= k < result@.len() implies #[trigger] is_medea_turn(
                        *state,
                        player,
                        must_climb,
                        result@[k].action.0,
                    ) by {
                        if k < before.len() {
                            assert(result@[k] == before[k]);
                        }
                    }
                }
                let ghost mid = result@;
                push_raze_moves(
                    flags,
                    state,
                    player,
                    must_climb,
                    &prelude,
                    &mut result,
                    worker_start_pos,
                    &worker_end_move_state,
                    &worker_next_moves,
                    worker_next_build_state.unblocked_squares,
                    worker_build_pos,
                    final_level_3,
                    &raze_list,
                );
                proof {
                    lemma_lists_word_grows(before, mid);
                    lemma_lists_word_grows(mid, result@);
                    assert(lists_word(result@, mortal_basic_data(worker_start_pos as u32, worker_end_pos as u32, worker_build_pos as u32))) by {
                        assert(lists_word(mid, mortal_basic_data(worker_start_pos as u32, worker_end_pos as u32, worker_build_pos as u32))) by {
                            assert(mid[before.len() as int].action.0 == mortal_basic_data(worker_start_pos as u32, worker_end_pos as u32, worker_build_pos as u32));
                        }
                    }
                    if flags & NARROWING_FLAGS == 0 {
                        assert forall|data: u32| #[trigger] is_medea_turn(*state, player, must_climb, data) && field_at(data, 0)
                            == worker_start_pos && !is_winning_data(data) && field_at(data, 5) == worker_end_pos && (exists|j: int| 0 <= j < bi
                            && builds@[j] as u32 == field_at(data, 10)) implies lists_word(result@, data) by {
                            let j = choose|j: int| 0 <= j < bi && builds@[j] as u32 == field_at(data, 10);
                            if j == bi - 1 {
                                if field_at(data, 15) == 0 {
                                    assert(data == mortal_basic_data(worker_start_pos as u32, worker_end_pos as u32, worker_build_pos as u32));
                                } else {
                                    let r = field_at(data, 15) - 1;
                                    lemma_field_small(data, 15);
                                    assert(raze_list@.contains(r as u8));
                                    let kr = choose|kr: int| 0 <= kr < raze_list@.len() && raze_list@[kr] == r as u8;
                                    assert(lists_word(
                                        result@,
                                        medea_raze_data(worker_start_pos as u32, worker_end_pos as u32, worker_build_pos as u32, raze_list@[kr] as u32),
                                    ));
                                }
                            }
                        }
                    }
                }
            }
            if is_interact_with_key_squares(flags) {
                let raze_blockers = razes.and(key_squares);
                if raze_blockers.is_not_empty() {
                    let blocker_list = raze_blockers.squares();
                    let non_narrowed_builds = worker_next_build_state.all_possible_builds.minus(worker_next_build_state.narrowed_builds);
                    let others = non_narrowed_builds.squares();
                    let mut oi: usize = 0;
                    while oi < others.len()
                        invariant
                            flags & NARROWING_FLAGS == 0 && state.gods[1 - player.idx()].is_persephone_spec() && !must_climb ==> forall|d: u32|
                                !#[trigger] is_medea_turn(*state, player, true, d),
                            oi <= others@.len(),
                            state.board.god_data[player.idx()] == 0,
                            prelude.inv(),
                            prelude.board == state.board,
                            prelude.player == player,
                            prelude.other_god == state.gods[1 - player.idx()],
                            worker_start_pos < 25,
                            worker_end_pos < 25,
                            worker_end_move_state.worker_end_pos == worker_end_pos,
                            worker_end_move_state.is_mate_capable <= 1,
                            is_acting_worker(*state, player, worker_start_pos as int),
                            is_standard_step(state.board, worker_start_pos as int, worker_end_pos as int, must_climb),
                            !is_win_step(false, state.board.height(worker_start_pos as int), state.board.height(worker_end_pos as int)),
                            worker_next_build_state.describes(prelude, worker_start_pos as int, worker_end_pos as int),
                            forall|k: int| 0 <= k < others@.len() ==> #[trigger] others@[k] < 25
                                && worker_next_build_state.all_possible_builds.has(others@[k] as int),
                            forall|k: int| 0 <= k < blocker_list@.len() ==> #[trigger] blocker_list@[k] < 25 && is_raze_target(
                                state.board,
                                player.idx(),
                                worker_start_pos as int,
                                worker_end_pos as int,
                                blocker_list@[k] as int,
                            ),
                            forall|k: int| 0 <= k < result@.len() ==> #[trigger] is_medea_turn(*state, player, must_climb, result@[k].action.0),
                        decreases others@.len() - oi,
                    {
                        let worker_build_pos = others[oi];
                        oi = oi + 1;
                        let worker_build_mask = BitBoard::as_mask(worker_build_pos);
                        let final_level_3 = prelude.exactly_level_2.and(worker_build_mask).or(
                            prelude.exactly_level_3.minus(worker_build_mask),
                        );
                        push_raze_moves(
                            flags,
                            state,
                            player,
                            must_climb,
                            &prelude,
                            &mut result,
                            worker_start_pos,
                            &worker_end_move_state,
                            &worker_next_moves,
                            worker_next_build_state.unblocked_squares,
                            worker_build_pos,
                            final_level_3,
                            &blocker_list,
                        );
                    }
                }
            }
            proof {
                if flags & NARROWING_FLAGS == 0 {
                    assert forall|data: u32| #[trigger] is_medea_turn(*state, player, must_climb, data) && field_at(data, 0)
                        == worker_start_pos && !is_winning_data(data) && (exists|j: int| 0 <= j < ei && ends@[j] as u32 == field_at(data, 5))
                        implies lists_word(result@, data) by {
                        let j = choose|j: int| 0 <= j < ei && ends@[j] as u32 == field_at(data, 5);
                        if j == ei - 1 {
                            let b = field_at(data, 10);
                            if field_at(data, 15) == 0 {
                                assert(is_standard_build_for(*state, player, worker_start_pos as int, worker_end_pos as int, b as int));
                            } else {
                                assert(is_standard_build_for(*state, player, worker_start_pos as int, worker_end_pos as int, b as int));
                            }
                            assert(builds@.contains(b as u8));
                            let jb = choose|jb: int| 0 <= jb < builds@.len() && builds@[jb] == b as u8;
                            assert(builds@[jb] as u32 == field_at(data, 10));
                        }
                    }
                }
            }
        }
        proof {
            if flags & NARROWING_FLAGS == 0 {
                assert forall|data: u32| #[trigger] is_medea_turn(*state, player, must_climb, data) && (exists|j: int|
                    0 <= j < wi && workers@[j] as u32 == field_at(data, 0)) implies lists_word(result@, data) by {
                    let j = choose|j: int| 0 <= j < wi && workers@[j] as u32 == field_at(data, 0);
                    if j == wi - 1 && !is_winning_data(data) {
                        let to = field_at(data, 5);
                        if field_at(data, 15) != 0 {
                            assert(is_standard_step(state.board, worker_start_pos as int, to as int, must_climb));
                        }
                        assert(ends@.contains(to as u8));
                        let je = choose|je: int| 0 <= je < ends@.len() && ends@[je] == to as u8;
                        assert(ends@[je] as u32 == field_at(data, 5));
                    }
                }
            }
        }
    }
    proof {
        if flags & NARROWING_FLAGS == 0 {
            assert forall|data: u32| #[trigger] medea_turn_owed(*state, player, must_climb, data) implies lists_word(result@, data) by {
                let f = field_at(data, 0);
                lemma_acting_in_prelude(*state, player, prelude.own_workers, initial_acting, f as int);
                assert(workers@.contains(f as u8));
                let j = choose|j: int| 0 <= j < workers@.len() && workers@[j] == f as u8;
                assert(workers@[j] as u32 == field_at(data, 0));
            }
        }
    }
    result
}

/// Pushes the move and build from `worker_start_pos` to the worker's end square and
/// `worker_build_pos`, once with each raze of `razes`.
fn push_raze_moves(
    flags: MoveGenFlags,
    state: &FullGameState,
    player: Player,
    must_climb: bool,
    prelude: &GeneratorPreludeState,
    result: &mut Vec<ScoredMove>,
    worker_start_pos: Square,
    worker_end_move_state: &WorkerEndMoveState,
    worker_next_moves: &WorkerNextMoveState,
    unblocked_squares: BitBoard,
    worker_build_pos: Square,
    final_level_3: BitBoard,
    razes: &Vec<Square>,
)
    requires
        state.board.god_data[player.idx()] == 0,
        prelude.inv(),
        prelude.board == state.board,
        worker_start_pos < 25,
        worker_end_move_state.worker_end_pos < 25,
        worker_end_move_state.is_mate_capable <= 1,
        worker_build_pos < 25,
        is_acting_worker(*state, player, worker_start_pos as int),
        is_standard_step(state.board, worker_start_pos as int, worker_end_move_state.worker_end_pos as int, must_climb),
        !is_win_step(
            false,
            state.board.height(worker_start_pos as int),
            state.board.height(worker_end_move_state.worker_end_pos as int),
        ),
        is_standard_build_for(
            *state,
            player,
            worker_start_pos as int,
            worker_end_move_state.worker_end_pos as int,
            worker_build_pos as int,
        ),
        forall|k: int| 0 <= k < razes@.len() ==> #[trigger] razes@[k] < 25 && is_raze_target(
            state.board,
            player.idx(),
            worker_start_pos as int,
            worker_end_move_state.worker_end_pos as int,
            razes@[k] as int,
        ),
        forall|k: int| 0 <= k < old(result)@.len() ==> #[trigger] is_medea_turn(*state, player, must_climb, old(result)@[k].action.0),
    ensures
        forall|k: int| 0 <= k < final(result)@.len() ==> #[trigger] is_medea_turn(*state, player, must_climb, final(result)@[k].action.0),
        old(result)@.len() <= final(result)@.len(),
        forall|k: int| 0 <= k < old(result)@.len() ==> #[trigger] final(result)@[k] == old(result)@[k],
        forall|k: int| 0 <= k < razes@.len() ==> lists_word(
            final(result)@,
            #[trigger] medea_raze_data(
                worker_start_pos as u32,
                worker_end_move_state.worker_end_pos as u32,
                worker_build_pos as u32,
                razes@[k] as u32,
            ),
        ),
{
    let worker_end_pos = worker_end_move_state.worker_end_pos;
    let ghost start_list = result@;
    let mut ri: usize = 0;
    while ri < razes.len()
        invariant
            ri <= razes@.len(),
            state.board.god_data[player.idx()] == 0,
            prelude.inv(),
            prelude.board == state.board,
            worker_start_pos < 25,
            worker_end_pos == worker_end_move_state.worker_end_pos,
            worker_end_pos < 25,
            worker_end_move_state.is_mate_capable <= 1,
            worker_build_pos < 25,
            is_acting_worker(*state, player, worker_start_pos as int),
            is_standard_step(state.board, worker_start_pos as int, worker_end_pos as int, must_climb),
            !is_win_step(false, state.board.height(worker_start_pos as int), state.board.height(worker_end_pos as int)),
            is_standard_build_for(*state, player, worker_start_pos as int, worker_end_pos as int, worker_build_pos as int),
            forall|k: int| 0 <= k < razes@.len() ==> #[trigger] razes@[k] < 25 && is_raze_target(
                state.board,
                player.idx(),
                worker_start_pos as int,
                worker_end_pos as int,
                razes@[k] as int,
            ),
            forall|k: int| 0 <= k < result@.len() ==> #[trigger] is_medea_turn(*state, player, must_climb, result@[k].action.0),
            start_list.len() <= result@.len(),
            forall|k: int| 0 <= k < start_list.len() ==> #[trigger] result@[k] == start_list[k],
            forall|k: int| 0 <= k < ri ==> lists_word(
                result@,
                #[trigger] medea_raze_data(worker_start_pos as u32, worker_end_pos as u32, worker_build_pos as u32, razes@[k] as u32),
            ),
        decreases razes@.len() - ri,
    {
        let raze_pos = razes[ri];
        ri = ri + 1;
        let ghost before = result@;
        result.push(
            build_raze_move(
                flags,
                prelude,
                worker_start_pos,
                worker_end_move_state,
                worker_next_moves,
                unblocked_squares,
                worker_build_pos,
                final_level_3,
                raze_pos,
            ),
        );
        proof {
            lemma_pack4(worker_start_pos as u32, worker_end_pos as u32, worker_build_pos as u32, (raze_pos + 1) as u32);
            assert(is_raze_target(state.board, player.idx(), worker_start_pos as int, worker_end_pos as int, raze_pos as int));
            assert forall|k: int| 0 <= k < result@.len() implies #[trigger] is_medea_turn(
                *state,
                player,
                must_climb,
                result@[k].action.0,
            ) by {
                if k < before.len() {
                    assert(result@[k] == before[k]);
                }
            }
            lemma_lists_word_grows(before, result@);
            assert(result@[before.len() as int].action.0 == medea_raze_data(
                worker_start_pos as u32,
                worker_end_pos as u32,
                worker_build_pos as u32,
                razes@[ri - 1] as u32,
            ));
            assert forall|k: int| 0 <= k < ri implies lists_word(
                result@,
                #[trigger] medea_raze_data(worker_start_pos as u32, worker_end_pos as u32, worker_build_pos as u32, razes@[k] as u32),
            ) by {
                if k < ri - 1 {
                    assert(lists_word(
                        before,
                        medea_raze_data(worker_start_pos as u32, worker_end_pos as u32, worker_build_pos as u32, razes@[k] as u32),
                    ));
                }
            }
        }
    }
}

/// Medea's fixed data.
pub fn build_medea() -> (r: GodPower)
    ensures
        r.god_name == GodName::Medea,
        r.hash1 == 2739103548185174811u64,
        r.hash2 == 15600432297185516803u64,
        r.placement_type == PlacementType::Normal,
        r.symmetry == BoardSymmetry::Full,
        !r.is_persephone,
{
    god_power(GodName::Medea, 2739103548185174811, 15600432297185516803)
}

/// How a turn of this god changes the board: the workers, the heights, the god data and the
/// winner after it, and whose turn it is, are those of `after`.
pub open spec fn medea_move_effect(before: BoardState, after: BoardState, player: Player, data: u32) -> bool {
    &&& after.current_player == before.current_player
    &&& after.workers[1 - player.idx()] == before.workers[1 - player.idx()]
    &&& after.workers[player.idx()].0 == before.workers[player.idx()].0 ^ ((1u32 << field_at(data, 0)) | (1u32 << field_at(data, 5)))
    &&& (is_winning_data(data) ==> after.winner == Some(player) && after.height_map == before.height_map && after.god_data == before.god_data)
    &&& (!is_winning_data(data) ==> after.winner == before.winner)
    &&& (!is_winning_data(data) && field_at(data, 15) == 0 ==> after.god_data == before.god_data)
    &&& (!is_winning_data(data) && field_at(data, 15) != 0 ==> after.god_data[player.idx()] == 1 && after.god_data[1 - player.idx()] == before.god_data[1 - player.idx()])
    &&& (!is_winning_data(data) ==> forall|i: int| #[trigger] after.height(i) == (if field_at(data, 15) != 0 && i == field_at(data, 15) - 1 { 0 } else if i == field_at(data, 10) { before.height(i) + 1 } else { before.height(i) }))
}

} // verus!
