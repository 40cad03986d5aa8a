use vstd::prelude::*;

use crate::bitboard::{group_bit_lemmas, lower_squares, neighbor_mask, BitBoard, MAIN_SECTION};
use crate::board::{BoardState, FullGameState, Player};
use crate::generic::{
    build_scored_move, field_at, NARROWING_FLAGS, is_interact_with_key_squares, is_mate_only, is_stop_on_mate, is_winning_data, lemma_pack4,
    lemma_pack5, read_position, GenericMove, MoveData, MoveGenFlags, ScoredMove, ANY_MOVE_FILTER, MOVE_DATA_MAIN_SECTION,
    MOVE_IS_WINNING_MASK,
};
use crate::gods::mortal::{
    is_acting_worker, is_standard_build_for, is_win_step, lemma_move_worker_keeps_wf, lemma_mortal_move_round_trip,
    lemma_acting_in_prelude, lemma_lists_word_grows, lemma_prelude_acting, lists_word, mortal_winning_data, win_targets,
};
use crate::gods::move_helpers::{
    get_generator_prelude_state, get_sized_result, get_standard_reach_board, get_worker_end_move_state,
    get_worker_next_build_state, get_worker_next_move_state, get_worker_start_move_state, is_standard_step, is_winning_entry,
    modify_prelude_for_checking_workers, push_winning_moves, GeneratorPreludeState, WorkerEndMoveState, WorkerNextMoveState,
};
use crate::square::{is_adjacent, is_square, Square};
use crate::gods::{BoardSymmetry, PlacementType, god_power, GodName, GodPower};

verus! {

/// A Polyphemus turn: a plain move and build, optionally doming up to two squares.
#[derive(Clone, Copy, PartialEq, Eq, Structural, Debug)]
pub struct PolyphemusMove(pub MoveData);

impl PolyphemusMove {
    fn new_basic_move(move_from_position: Square, move_to_position: Square, build_position: Square) -> (r: Self)
        requires
            move_from_position < 25,
            move_to_position < 25,
            build_position < 25,
        ensures
            r.0 == (move_from_position as u32) | ((move_to_position as u32) << 5u32) | ((build_position as u32) << 10u32) | (25u32 << 15u32),
    {
        Self((move_from_position as u32) | ((move_to_position as u32) << 5u32) | ((build_position as u32) << 10u32) | (25u32 << 15u32))
    }

    /// A move and build that also domes one square, or two.
    fn new_power_move(move_from_position: Square, move_to_position: Square, build_position: Square, dome1: Square, dome2: Option<Square>) -> (r: Self)
        requires
            move_from_position < 25,
            move_to_position < 25,
            build_position < 25,
            dome1 < 25,
            dome2 matches Some(d) ==> d < 25,
        ensures
            r.0 == polyphemus_power_data(
                move_from_position as u32,
                move_to_position as u32,
                build_position as u32,
                dome1 as u32,
                match dome2 {
                    Some(d) => d as u32,
                    None => 25u32,
                },
            ),
    {
        let dome2_field: u32 = match dome2 {
            Some(d) => d as u32,
            None => 25,
        };
        Self((move_from_position as u32) | ((move_to_position as u32) << 5u32) | ((build_position as u32) << 10u32) | ((dome1 as u32) << 15u32) | (dome2_field << 20u32))
    }

    fn new_winning_move(move_from_position: Square, move_to_position: Square) -> (r: Self)
        requires
            move_from_position < 25,
            move_to_position < 25,
        ensures
            r.0 == (move_from_position as u32) | ((move_to_position as u32) << 5u32) | MOVE_IS_WINNING_MASK,
    {
        Self((move_from_position as u32) | ((move_to_position as u32) << 5u32) | MOVE_IS_WINNING_MASK)
    }

    fn move_from_position(&self) -> (r: Square)
        ensures
            r == field_at(self.0, 0),
            r < 32,
    {
        read_position(self.0, 0)
    }

    fn move_to_position(&self) -> (r: Square)
        ensures
            r == field_at(self.0, 5),
            r < 32,
    {
        read_position(self.0, 5)
    }

    fn build_position(self) -> (r: Square)
        ensures
            r == field_at(self.0, 10),
            r < 32,
    {
        read_position(self.0, 10)
    }

    /// The first square domed by the power, if any.
    pub fn dome_1(self) -> (r: Option<Square>)
        ensures
            field_at(self.0, 15) < 32,
            r == (if field_at(self.0, 15) == 25 {
                None
            } else {
                Some(field_at(self.0, 15) as u8)
            }),
    {
        let value = read_position(self.0, 15);
        if value == 25 {
            None
        } else {
            Some(value)
        }
    }

    /// The second square domed by the power, if any.
    pub fn dome_2(self) -> (r: Option<Square>)
        ensures
            field_at(self.0, 20) < 32,
            r == (if field_at(self.0, 20) == 25 {
                None
            } else {
                Some(field_at(self.0, 20) as u8)
            }),
    {
        let value = read_position(self.0, 20);
        if value == 25 {
            None
        } else {
            Some(value)
        }
    }

    /// The start and end squares of the moving worker.
    fn move_mask(self) -> (r: BitBoard)
        ensures
            r.0 == (1u32 << field_at(self.0, 0)) | (1u32 << field_at(self.0, 5)),
    {
        BitBoard::as_mask(self.move_from_position()).or(BitBoard::as_mask(self.move_to_position()))
    }

    fn get_is_winning(&self) -> (r: bool)
        ensures
            r == is_winning_data(self.0),
    {
        (self.0 & MOVE_IS_WINNING_MASK) != 0
    }
}

/// A Polyphemus move reads back what it was built from, and stays clear of the flags.
pub proof fn lemma_polyphemus_move_round_trip(move_from: u32, move_to: u32, build: u32, dome: u32)
    requires
        move_from < 25,
        move_to < 25,
        build < 25,
        dome <= 25,
    ensures
        field_at(move_from | (move_to << 5u32) | (build << 10u32) | (dome << 15u32), 0) == move_from,
        field_at(move_from | (move_to << 5u32) | (build << 10u32) | (dome << 15u32), 5) == move_to,
        field_at(move_from | (move_to << 5u32) | (build << 10u32) | (dome << 15u32), 10) == build,
        field_at(move_from | (move_to << 5u32) | (build << 10u32) | (dome << 15u32), 15) == dome,
        !is_winning_data(move_from | (move_to << 5u32) | (build << 10u32) | (dome << 15u32)),
        (move_from | (move_to << 5u32) | (build << 10u32) | (dome << 15u32)) & MOVE_DATA_MAIN_SECTION == move_from | (move_to << 5u32) | (build << 10u32) | (dome << 15u32),
{
    lemma_pack4(move_from, move_to, build, dome);
}

/// The word of a plain move and build.
pub open spec fn polyphemus_plain_data(from: u32, to: u32, build: u32) -> u32 {
    from | (to << 5u32) | (build << 10u32) | (25u32 << 15u32)
}

/// The word of a move and build that domes `dome1`, and `dome2` unless it is 25.
pub open spec fn polyphemus_power_data(from: u32, to: u32, build: u32, dome1: u32, dome2: u32) -> u32 {
    from | (to << 5u32) | (build << 10u32) | (dome1 << 15u32) | (dome2 << 20u32)
}

/// A square the power may dome once the worker has moved from `from` to `to` and built on
/// `build`: no worker stands on it then, it is not domed, and the build did not just dome it.
pub open spec fn is_domable(board: BoardState, from: int, to: int, build: int, d: int) -> bool {
    &&& is_square(d)
    &&& !(board.occupied(d) && d != from)
    &&& d != to
    &&& board.height(d) < 4
    &&& !(d == build && board.height(build) == 3)
}

/// A legal Polyphemus turn read off its word: a plain turn; or, while the power is unspent, a plain
/// move and build followed by doming one square, or two given in descending order.
pub open spec fn is_polyphemus_turn(state: FullGameState, player: Player, must_climb: bool, data: u32) -> bool {
    let board = state.board;
    let from = field_at(data, 0);
    let to = field_at(data, 5);
    let build = field_at(data, 10);
    let d1 = field_at(data, 15);
    let d2 = field_at(data, 20);
    &&& is_acting_worker(state, player, from as int)
    &&& is_standard_step(board, from as int, to as int, must_climb)
    &&& if is_winning_data(data) {
        &&& data == mortal_winning_data(from, to)
        &&& is_win_step(false, board.height(from as int), board.height(to as int))
    } else {
        &&& !is_win_step(false, board.height(from as int), board.height(to as int))
        &&& is_standard_build_for(state, player, from as int, to as int, build as int)
        &&& if d1 == 25 {
            data == polyphemus_plain_data(from, to, build)
        } else {
            &&& board.god_data[player.idx()] == 0
            &&& data == polyphemus_power_data(from, to, build, d1, d2)
            &&& is_domable(board, from as int, to as int, build as int, d1 as int)
            &&& (d2 == 25 || (d2 < d1 && is_domable(board, from as int, to as int, build as int, d2 as int)))
        }
    }
}

/// A turn owed a climb is a turn.
pub proof fn lemma_polyphemus_climb_is_turn(state: FullGameState, player: Player, data: u32)
    ensures
        is_polyphemus_turn(state, player, true, data) ==> is_polyphemus_turn(state, player, false, data),
{
}

/// Once the power is spent, no legal turn domes.
pub proof fn lemma_polyphemus_power_spent_for_good(state: FullGameState, player: Player, must_climb: bool, data: u32)
    requires
        state.board.god_data[player.idx()] != 0,
        is_polyphemus_turn(state, player, must_climb, data),
        !is_winning_data(data),
    ensures
        field_at(data, 15) == 25,
{
}

/// What playing a Polyphemus turn needs, read off the turn.
pub proof fn lemma_polyphemus_turn_playable(state: FullGameState, player: Player, data: u32)
    requires
        state.board.wf(),
        is_polyphemus_turn(state, player, false, data),
    ensures
        field_at(data, 0) < 25,
        field_at(data, 5) < 25,
        state.board.workers[player.idx()].has(field_at(data, 0) as int),
        !state.board.occupied(field_at(data, 5) as int),
        !is_winning_data(data) ==> field_at(data, 10) < 25 && state.board.height(field_at(data, 10) as int) < 4,
        !is_winning_data(data) && field_at(data, 15) != 25 ==> field_at(data, 15) < 25 && field_at(data, 20) <= 25,
{
    assert(state.board.workers[player.idx()].within_board());
}

impl PolyphemusMove {
    /// Plays the turn: the worker moves, and either wins or builds; the power then domes its
    /// squares and is spent.
    pub fn make_move(self, board: &mut BoardState, player: Player)
        requires
            old(board).wf(),
            field_at(self.0, 0) < 25,
            field_at(self.0, 5) < 25,
            old(board).workers[player.idx()].has(field_at(self.0, 0) as int),
            !old(board).occupied(field_at(self.0, 5) as int),
            !is_winning_data(self.0) ==> field_at(self.0, 10) < 25 && old(board).height(field_at(self.0, 10) as int) < 4,
            !is_winning_data(self.0) && field_at(self.0, 15) != 25 ==> field_at(self.0, 15) < 25 && field_at(self.0, 20) <= 25,
        ensures
            final(board).wf(),
            final(board).current_player == old(board).current_player,
            final(board).workers[1 - player.idx()] == old(board).workers[1 - player.idx()],
            final(board).workers[player.idx()].0 == old(board).workers[player.idx()].0 ^ ((1u32 << field_at(self.0, 0)) | (1u32
                << field_at(self.0, 5))),
            is_winning_data(self.0) ==> final(board).winner == Some(player) && final(board).height_map == old(board).height_map
                && final(board).god_data == old(board).god_data,
            !is_winning_data(self.0) ==> final(board).winner == old(board).winner,
            !is_winning_data(self.0) && field_at(self.0, 15) == 25 ==> final(board).god_data == old(board).god_data,
            !is_winning_data(self.0) && field_at(self.0, 15) != 25 ==> final(board).god_data[player.idx()] == 1
                && final(board).god_data[1 - player.idx()] == old(board).god_data[1 - player.idx()],
            !is_winning_data(self.0) ==> forall|i: int| #[trigger] final(board).height(i) == (if field_at(self.0, 15) != 25 && (i
                == field_at(self.0, 15) || (field_at(self.0, 20) != 25 && i == field_at(self.0, 20))) {
                4
            } else if i == field_at(self.0, 10) {
                old(board).height(i) + 1
            } else {
                old(board).height(i)
            }),
    {
        let ghost before = *board;
        let mask = self.move_mask();
        proof {
            crate::gods::jason::lemma_or_is_xor(field_at(self.0, 0), field_at(self.0, 5));
        }
        board.worker_xor(player, mask);
        proof {
            lemma_move_worker_keeps_wf(before, *board, player, field_at(self.0, 0), field_at(self.0, 5));
        }
        if self.get_is_winning() {
            board.set_winner(player);
            return;
        }
        board.build_up(self.build_position());
        let ghost built = *board;
        match self.dome_1() {
            Some(d1) => {
                board.set_god_data(player, 1);
                board.dome_up(d1);
                match self.dome_2() {
                    Some(d2) => board.dome_up(d2),
                    None => {},
                }
                assert forall|i: int| #[trigger] board.height(i) == (if i == d1 || (field_at(self.0, 20) != 25 && i == field_at(
                    self.0,
                    20,
                )) {
                    4
                } else {
                    built.height(i)
                }) by {}
            },
            None => {},
        }
    }

    pub fn to_generic(self) -> (r: GenericMove)
        ensures
            r.0 == self.0,
    {
        GenericMove(self.0)
    }
}

/// The turns the generator owes with no narrowing filter on: every legal turn, except that
/// against Persephone, when a climb exists, only the climbing ones.
pub open spec fn polyphemus_turn_owed(state: FullGameState, player: Player, must_climb: bool, data: u32) -> bool {
    &&& is_polyphemus_turn(state, player, must_climb, data)
    &&& (state.gods[1 - player.idx()].is_persephone_spec() && !must_climb && exists|d: u32| #[trigger] is_polyphemus_turn(state, player, true, d))
        ==> is_polyphemus_turn(state, player, true, data)
}

/// Polyphemus' move generator. Once the power is spent he moves as a mortal. While it is available,
/// each move and build is offered plain and followed by every dome, or pair of domes, of
/// `is_domable`. With the flags that stop on a win, orderings that reach the same board are offered
/// once.
pub fn polyphemus_move_gen(
    flags: MoveGenFlags,
    state: &FullGameState,
    player: Player,
    key_squares: BitBoard,
    must_climb: bool,
) -> (result: Vec<ScoredMove>)
    requires
        state.board.wf(),
    ensures
        forall|k: int| 0 <= k < result@.len() ==> #[trigger] is_polyphemus_turn(*state, player, must_climb, result@[k].action.0),
        flags & NARROWING_FLAGS == 0 ==> forall|data: u32| #[trigger] polyphemus_turn_owed(*state, player, must_climb, data) ==> lists_word(
            result@,
            data,
        ),
        flags & NARROWING_FLAGS == 0 && state.gods[1 - player.idx()].is_persephone_spec() && !must_climb && (exists|d: u32|
            #[trigger] is_polyphemus_turn(*state, player, true, d)) ==> forall|k: int| 0 <= k < result@.len()
            ==> #[trigger] is_polyphemus_turn(*state, player, true, result@[k].action.0),
    decreases if must_climb {
        0int
    } else {
        1int
    },
{
    broadcast use group_bit_lemmas;

    proof {
        crate::generic::lemma_no_flags(flags);
    }

    let mut result = if state.gods[player.other().index()].is_persephone() && !must_climb {
        let climbing = polyphemus_move_gen(flags, state, player, key_squares, true);
        proof {
            assert forall|k: int| 0 <= k < climbing@.len() implies #[trigger] is_polyphemus_turn(
                *state,
                player,
                must_climb,
                climbing@[k].action.0,
            ) by {
                lemma_polyphemus_climb_is_turn(*state, player, climbing@[k].action.0);
            }
        }
        if climbing.len() > 0 {
            proof {
                if flags & NARROWING_FLAGS == 0 {
                    assert(is_polyphemus_turn(*state, player, true, climbing@[0].action.0));
                    assert forall|data: u32| #[trigger] polyphemus_turn_owed(*state, player, must_climb, data) implies lists_word(climbing@, data) by {
                        assert(polyphemus_turn_owed(*state, player, true, data));
                    }
                }
            }
            return climbing;
        }
        proof {
            if flags & NARROWING_FLAGS == 0 {
                assert forall|d: u32| !#[trigger] is_polyphemus_turn(*state, player, true, d) by {
                    if is_polyphemus_turn(*state, player, true, d) {
                        assert(polyphemus_turn_owed(*state, player, true, d));
                    }
                }
            }
        }
        if flags & ANY_MOVE_FILTER > 0 {
            let unrestricted = polyphemus_move_gen(0, state, player, key_squares, true);
            if unrestricted.len() > 0 {
                return climbing;
            }
        }
        climbing
    } else {
        get_sized_result(flags)
    };
    assert(flags & NARROWING_FLAGS == 0 && state.gods[1 - player.idx()].is_persephone_spec() && !must_climb ==> forall|d: u32|
        !#[trigger] is_polyphemus_turn(*state, player, true, d));
    let mut prelude = get_generator_prelude_state(state, player, key_squares);
    let ghost initial_acting = prelude.acting_workers;
    let checkable_mask = prelude.exactly_level_2;
    modify_prelude_for_checking_workers(flags, checkable_mask, &mut prelude);
    let has_power_available = state.board.god_data[player.index()] == 0;
    let workers = prelude.acting_workers.squares();
    let mut wi: usize = 0;
    while wi < workers.len()
        invariant
            flags & NARROWING_FLAGS == 0 && state.gods[1 - player.idx()].is_persephone_spec() && !must_climb ==> forall|d: u32|
                !#[trigger] is_polyphemus_turn(*state, player, true, d),
            wi <= workers@.len(),
            state.board.wf(),
            has_power_available == (state.board.god_data[player.idx()] == 0),
            prelude.inv(),
            prelude.board == state.board,
            prelude.player == player,
            prelude.other_god == state.gods[1 - player.idx()],
            prelude.own_workers.0 == state.board.workers[player.idx()].0 & MAIN_SECTION,
            prelude.other_god.is_hypnus_spec() ==> initial_acting.0 == crate::gods::hypnus::hypnus_filter_spec(
                state.board.height_map,
                prelude.own_workers.0,
            ),
            !prelude.other_god.is_hypnus_spec() ==> initial_acting == prelude.own_workers,
            forall|i: int| #[trigger] prelude.acting_workers.has(i) ==> initial_acting.has(i),
            forall|k: int| 0 <= k < workers@.len() ==> #[trigger] workers@[k] < 25 && prelude.acting_workers.has(workers@[k] as int),
            forall|k: int| 0 <= k < result@.len() ==> #[trigger] is_polyphemus_turn(*state, player, must_climb, result@[k].action.0),
            flags & NARROWING_FLAGS == 0 ==> forall|data: u32| #[trigger] is_polyphemus_turn(*state, player, must_climb, data) && (exists|j: int|
                0 <= j < wi && workers@[j] as u32 == field_at(data, 0)) ==> lists_word(result@, data),
            flags & NARROWING_FLAGS == 0 ==> flags & 1 == 0 && flags & 2 == 0 && flags & 8 == 0,
            flags & NARROWING_FLAGS == 0 ==> prelude.acting_workers == initial_acting,
        decreases workers@.len() - wi,
    {
        let worker_start_pos = workers[wi];
        wi = wi + 1;
        proof {
            lemma_prelude_acting(*state, player, prelude.own_workers, initial_acting, worker_start_pos as int);
        }
        let worker_start_state = get_worker_start_move_state(&prelude, worker_start_pos);
        let mut worker_next_moves = get_worker_next_move_state(&prelude, &worker_start_state, checkable_mask, must_climb);
        let targets = win_targets(&prelude, worker_start_state.worker_start_height, false);
        let winning_moves = worker_next_moves.worker_moves.and(targets).and(prelude.win_mask);
        let ghost before = result@;
        let stop = push_winning_moves(flags, &mut result, worker_start_pos, winning_moves, 0);
        proof {
            assert forall|k: int| 0 <= k < result@.len() implies #[trigger] is_polyphemus_turn(
                *state,
                player,
                must_climb,
                result@[k].action.0,
            ) by {
                if k >= before.len() {
                    assert(is_winning_entry(result@[k], worker_start_pos, winning_moves, 0));
                    let sq = choose|sq: u8| sq < 25 && #[trigger] winning_moves.has(sq as int)
                        && result@[k].action.0 == (worker_start_pos as u32) | ((sq as u32) << 5u32) | 0u32 | MOVE_IS_WINNING_MASK;
                    lemma_mortal_move_round_trip(worker_start_pos as u32, sq as u32, 0);
                    crate::bitboard::lemma_or_zero((worker_start_pos as u32) | ((sq as u32) << 5u32));
                    assert(worker_next_moves.worker_moves.has(sq as int));
                    assert(targets.has(sq as int));
                } else {
                    assert(result@[k] == before[k]);
                }
            }
        }
        proof {
            lemma_lists_word_grows(before, result@);
            if flags & NARROWING_FLAGS == 0 {
                assert forall|data: u32| #[trigger] is_polyphemus_turn(*state, player, must_climb, data) && field_at(data, 0)
                    == worker_start_pos && is_winning_data(data) implies lists_word(result@, data) by {
                    let to = field_at(data, 5);
                    assert(winning_moves.has(to as int));
                    let k = choose|k: int| before.len() <= k < result@.len() && #[trigger] result@[k].action.0
                        == (worker_start_pos as u32) | ((to as u32) << 5u32) | 0u32 | MOVE_IS_WINNING_MASK;
                    crate::bitboard::lemma_or_zero((worker_start_pos as u32) | ((to as u32) << 5u32));
                }
            }
        }
        if stop {
            return result;
        }
        worker_next_moves.worker_moves = worker_next_moves.worker_moves.xor(winning_moves);
        if is_mate_only(flags) {
            continue;
        }
        let ends = worker_next_moves.worker_moves.squares();
        proof {
            if flags & NARROWING_FLAGS == 0 {
                assert forall|i: int| 0 <= i < 25 && is_standard_step(state.board, worker_start_pos as int, i, must_climb)
                    && !is_win_step(false, state.board.height(worker_start_pos as int), state.board.height(i)) implies #[trigger] ends@.contains(i as u8) by {
                    assert(!targets.has(i));
                    assert(worker_next_moves.worker_moves.has(i));
                }
            }
        }
        let mut ei: usize = 0;
        while ei < ends.len()
            invariant
                flags & NARROWING_FLAGS == 0 && state.gods[1 - player.idx()].is_persephone_spec() && !must_climb ==> forall|d: u32|
                    !#[trigger] is_polyphemus_turn(*state, player, true, d),
                ei <= ends@.len(),
                state.board.wf(),
                has_power_available == (state.board.god_data[player.idx()] == 0),
                prelude.inv(),
                prelude.board == state.board,
                prelude.player == player,
                prelude.other_god == state.gods[1 - player.idx()],
                worker_start_pos < 25,
                worker_start_state.describes(prelude, worker_start_pos as int),
                is_acting_worker(*state, player, worker_start_pos as int),
                forall|k: int| 0 <= k < ends@.len() ==> #[trigger] ends@[k] < 25
                    && is_standard_step(state.board, worker_start_pos as int, ends@[k] as int, must_climb)
                    && !is_win_step(false, state.board.height(worker_start_pos as int), state.board.height(ends@[k] as int)),
                forall|k: int| 0 <= k < result@.len() ==> #[trigger] is_polyphemus_turn(*state, player, must_climb, result@[k].action.0),
                flags & NARROWING_FLAGS == 0 ==> forall|data: u32| #[trigger] is_polyphemus_turn(*state, player, must_climb, data) && (exists|j: int|
                    0 <= j < wi - 1 && workers@[j] as u32 == field_at(data, 0)) ==> lists_word(result@, data),
                flags & NARROWING_FLAGS == 0 ==> forall|data: u32| #[trigger] is_polyphemus_turn(*state, player, must_climb, data) && field_at(data, 0)
                    == worker_start_pos && is_winning_data(data) ==> lists_word(result@, data),
                flags & NARROWING_FLAGS == 0 ==> forall|data: u32| #[trigger] is_polyphemus_turn(*state, player, must_climb, data) && field_at(data, 0)
                    == worker_start_pos && !is_winning_data(data) && (exists|j: int| 0 <= j < ei && ends@[j] as u32 == field_at(data, 5))
                    ==> lists_word(result@, data),
                flags & NARROWING_FLAGS == 0 ==> forall|i: int| 0 <= i < 25 && is_standard_step(state.board, worker_start_pos as int, i, must_climb)
                    && !is_win_step(false, state.board.height(worker_start_pos as int), state.board.height(i)) ==> #[trigger] ends@.contains(i as u8),
                flags & NARROWING_FLAGS == 0 ==> flags & 1 == 0 && flags & 2 == 0 && flags & 8 == 0,
                1 <= wi <= workers@.len(),
                workers@[wi - 1] == worker_start_pos,
            decreases ends@.len() - ei,
        {
            let worker_end_pos = ends[ei];
            ei = ei + 1;
            let worker_end_move_state = get_worker_end_move_state(&prelude, &worker_start_state, worker_end_pos);
            let worker_next_build_state = get_worker_next_build_state(flags, &prelude, &worker_start_state, &worker_end_move_state);
            let unblocked_squares = worker_next_build_state.unblocked_squares;
            let reach_board = get_standard_reach_board(&prelude, &worker_next_moves, &worker_end_move_state, unblocked_squares);
            let builds = if has_power_available {
                worker_next_build_state.all_possible_builds.squares()
            } else {
                worker_next_build_state.narrowed_builds.squares()
            };
            proof {
                if flags & NARROWING_FLAGS == 0 {
                    assert forall|b: int| 0 <= b < 25 && #[trigger] is_standard_build_for(*state, player, worker_start_pos as int, worker_end_pos as int, b)
                        implies builds@.contains(b as u8) by {
                        assert(worker_next_build_state.all_possible_builds.has(b));
                    }
                }
            }
            let mut bi: usize = 0;
            while bi < builds.len()
                invariant
                    flags & NARROWING_FLAGS == 0 && state.gods[1 - player.idx()].is_persephone_spec() && !must_climb ==> forall|d: u32|
                        !#[trigger] is_polyphemus_turn(*state, player, true, d),
                    bi <= builds@.len(),
                    has_power_available == (state.board.god_data[player.idx()] == 0),
                    prelude.inv(),
                    prelude.board == state.board,
                    prelude.player == player,
                    prelude.other_god == state.gods[1 - player.idx()],
                    worker_start_pos < 25,
                    worker_end_pos < 25,
                    worker_end_move_state.worker_end_pos == worker_end_pos,
                    forall|i: int| #[trigger] worker_end_move_state.worker_end_mask.has(i) == (i == worker_end_pos),
                    is_acting_worker(*state, player, worker_start_pos as int),
                    is_standard_step(state.board, worker_start_pos as int, worker_end_pos as int, must_climb),
                    !is_win_step(false, state.board.height(worker_start_pos as int), state.board.height(worker_end_pos as int)),
                    worker_next_build_state.describes(prelude, worker_start_pos as int, worker_end_pos as int),
                    unblocked_squares == worker_next_build_state.unblocked_squares,
                    forall|k: int| 0 <= k < builds@.len() ==> #[trigger] builds@[k] < 25
                        && worker_next_build_state.all_possible_builds.has(builds@[k] as int),
                    forall|k: int| 0 <= k < result@.len() ==> #[trigger] is_polyphemus_turn(*state, player, must_climb, result@[k].action.0),
                    flags & NARROWING_FLAGS == 0 ==> forall|data: u32| #[trigger] is_polyphemus_turn(*state, player, must_climb, data) && (exists|j: int|
                        0 <= j < wi - 1 && workers@[j] as u32 == field_at(data, 0)) ==> lists_word(result@, data),
                    flags & NARROWING_FLAGS == 0 ==> forall|data: u32| #[trigger] is_polyphemus_turn(*state, player, must_climb, data) && field_at(data, 0)
                        == worker_start_pos && is_winning_data(data) ==> lists_word(result@, data),
                    flags & NARROWING_FLAGS == 0 ==> forall|data: u32| #[trigger] is_polyphemus_turn(*state, player, must_climb, data) && field_at(data, 0)
                        == worker_start_pos && !is_winning_data(data) && (exists|j: int| 0 <= j < ei - 1 && ends@[j] as u32 == field_at(data, 5))
                        ==> lists_word(result@, data),
                    flags & NARROWING_FLAGS == 0 ==> forall|i: int| 0 <= i < 25 && is_standard_step(state.board, worker_start_pos as int, i, must_climb)
                        && !is_win_step(false, state.board.height(worker_start_pos as int), state.board.height(i)) ==> #[trigger] ends@.contains(i as u8),
                    flags & NARROWING_FLAGS == 0 ==> flags & 1 == 0 && flags & 2 == 0 && flags & 8 == 0,
                    1 <= wi <= workers@.len(),
                    workers@[wi - 1] == worker_start_pos,
                    flags & NARROWING_FLAGS == 0 ==> forall|data: u32| #[trigger] is_polyphemus_turn(*state, player, must_climb, data) && field_at(data, 0)
                        == worker_start_pos && !is_winning_data(data) && field_at(data, 5) == worker_end_pos && (exists|j: int| 0 <= j < bi
                        && builds@[j] as u32 == field_at(data, 10)) ==> lists_word(result@, data),
                    flags & NARROWING_FLAGS == 0 ==> forall|b: int| 0 <= b < 25 && #[trigger] is_standard_build_for(*state, player, worker_start_pos as int, worker_end_pos as int, b) ==> builds@.contains(b as u8),
                    1 <= ei <= ends@.len(),
                    ends@[ei - 1] == worker_end_pos,
                decreases builds@.len() - bi,
            {
                let worker_build_pos = builds[bi];
                bi = bi + 1;
                let ghost b0 = result@;
                let build_mask = BitBoard::as_mask(worker_build_pos);
                let final_level_3 = prelude.exactly_level_2.and(build_mask).or(prelude.exactly_level_3.minus(build_mask));
                let did_interact_yet = if is_interact_with_key_squares(flags) {
                    key_squares.and(worker_end_move_state.worker_end_mask.or(build_mask)).is_not_empty()
                } else {
                    true
                };
                if !has_power_available || did_interact_yet {
                    let is_check = reach_board.and(final_level_3).is_not_empty();
                    let new_action = PolyphemusMove::new_basic_move(worker_start_pos, worker_end_pos, worker_build_pos);
                    let ghost before = result@;
                    result.push(build_scored_move(flags, new_action.to_generic(), is_check, worker_end_move_state.is_improving));
                    proof {
                        lemma_pack4(worker_start_pos as u32, worker_end_pos as u32, worker_build_pos as u32, 25);
                        assert(worker_next_build_state.all_possible_builds.has(worker_build_pos as int));
                        assert forall|k: int| 0 <= k < result@.len() implies #[trigger] is_polyphemus_turn(
                            *state,
                            player,
                            must_climb,
                            result@[k].action.0,
                        ) by {
                            if k < before.len() {
                                assert(result@[k] == before[k]);
                            }
                        }
                    }
                }
                let ghost mid = result@;
                if has_power_available {
                    proof {
                        assert(worker_next_build_state.all_possible_builds.has(worker_build_pos as int));
                    }
                    push_dome_moves(
                        flags,
                        state,
                        player,
                        must_climb,
                        &prelude,
                        &mut result,
                        worker_start_pos,
                        &worker_end_move_state,
                        worker_next_build_state.all_possible_builds,
                        unblocked_squares,
                        reach_board,
                        worker_build_pos,
                        final_level_3,
                        did_interact_yet,
                        key_squares,
                    );
                }
                proof {
                    lemma_lists_word_grows(b0, mid);
                    lemma_lists_word_grows(mid, result@);
                    if flags & NARROWING_FLAGS == 0 {
                        assert(lists_word(mid, polyphemus_plain_data(worker_start_pos as u32, worker_end_pos as u32, worker_build_pos as u32))) by {
                            assert(mid[b0.len() as int].action.0 == polyphemus_plain_data(worker_start_pos as u32, worker_end_pos as u32, worker_build_pos as u32));
                        }
                        assert forall|data: u32| #[trigger] is_polyphemus_turn(*state, player, must_climb, data) && field_at(data, 0)
                            == worker_start_pos && !is_winning_data(data) && field_at(data, 5) == worker_end_pos && (exists|j: int| 0 <= j < bi
                            && builds@[j] as u32 == field_at(data, 10)) implies lists_word(result@, data) by {
                            let j = choose|j: int| 0 <= j < bi && builds@[j] as u32 == field_at(data, 10);
                            if j == bi - 1 {
                                if field_at(data, 15) == 25 {
                                    assert(data == polyphemus_plain_data(worker_start_pos as u32, worker_end_pos as u32, worker_build_pos as u32));
                                }
                            }
                        }
                    }
                }
            }
            proof {
                if flags & NARROWING_FLAGS == 0 {
                    assert forall|data: u32| #[trigger] is_polyphemus_turn(*state, player, must_climb, data) && field_at(data, 0)
                        == worker_start_pos && !is_winning_data(data) && (exists|j: int| 0 <= j < ei && ends@[j] as u32 == field_at(data, 5))
                        implies lists_word(result@, data) by {
                        let j = choose|j: int| 0 <= j < ei && ends@[j] as u32 == field_at(data, 5);
                        if j == ei - 1 {
                            let b = field_at(data, 10);
                            assert(is_standard_build_for(*state, player, worker_start_pos as int, worker_end_pos as int, b as int));
                            assert(builds@.contains(b as u8));
                            let jb = choose|jb: int| 0 <= jb < builds@.len() && builds@[jb] == b as u8;
                            assert(builds@[jb] as u32 == field_at(data, 10));
                        }
                    }
                }
            }
        }
        proof {
            if flags & NARROWING_FLAGS == 0 {
                assert forall|data: u32| #[trigger] is_polyphemus_turn(*state, player, must_climb, data) && (exists|j: int|
                    0 <= j < wi && workers@[j] as u32 == field_at(data, 0)) implies lists_word(result@, data) by {
                    let j = choose|j: int| 0 <= j < wi && workers@[j] as u32 == field_at(data, 0);
                    if j == wi - 1 && !is_winning_data(data) {
                        let to = field_at(data, 5);
                        assert(ends@.contains(to as u8));
                        let je = choose|je: int| 0 <= je < ends@.len() && ends@[je] == to as u8;
                        assert(ends@[je] as u32 == field_at(data, 5));
                    }
                }
            }
        }
    }
    proof {
        if flags & NARROWING_FLAGS == 0 {
            assert forall|data: u32| #[trigger] polyphemus_turn_owed(*state, player, must_climb, data) implies lists_word(result@, data) by {
                let f = field_at(data, 0);
                lemma_acting_in_prelude(*state, player, prelude.own_workers, initial_acting, f as int);
                assert(workers@.contains(f as u8));
                let j = choose|j: int| 0 <= j < workers@.len() && workers@[j] == f as u8;
                assert(workers@[j] as u32 == field_at(data, 0));
            }
        }
    }
    result
}

/// Pushes the move and build to `worker_build_pos` once with each dome, and each pair of domes,
/// that the power may add.
fn push_dome_moves(
    flags: MoveGenFlags,
    state: &FullGameState,
    player: Player,
    must_climb: bool,
    prelude: &GeneratorPreludeState,
    result: &mut Vec<ScoredMove>,
    worker_start_pos: Square,
    worker_end_move_state: &WorkerEndMoveState,
    all_possible_builds: BitBoard,
    unblocked_squares: BitBoard,
    reach_board: BitBoard,
    worker_build_pos: Square,
    final_level_3: BitBoard,
    did_interact_yet: bool,
    key_squares: BitBoard,
)
    requires
        state.board.god_data[player.idx()] == 0,
        prelude.inv(),
        prelude.board == state.board,
        worker_start_pos < 25,
        worker_end_move_state.worker_end_pos < 25,
        worker_build_pos < 25,
        is_acting_worker(*state, player, worker_start_pos as int),
        is_standard_step(state.board, worker_start_pos as int, worker_end_move_state.worker_end_pos as int, must_climb),
        !is_win_step(
            false,
            state.board.height(worker_start_pos as int),
            state.board.height(worker_end_move_state.worker_end_pos as int),
        ),
        is_standard_build_for(
            *state,
            player,
            worker_start_pos as int,
            worker_end_move_state.worker_end_pos as int,
            worker_build_pos as int,
        ),
        forall|i: int| #[trigger] unblocked_squares.has(i) == (0 <= i < 32 && !(state.board.occupied(i) && i != worker_start_pos)
            && i != worker_end_move_state.worker_end_pos && !(is_square(i) && state.board.height(i) == 4)),
        forall|k: int| 0 <= k < old(result)@.len() ==> #[trigger] is_polyphemus_turn(*state, player, must_climb, old(result)@[k].action.0),
    ensures
        forall|k: int| 0 <= k < final(result)@.len() ==> #[trigger] is_polyphemus_turn(*state, player, must_climb, final(result)@[k].action.0),
        old(result)@.len() <= final(result)@.len(),
        forall|k: int| 0 <= k < old(result)@.len() ==> #[trigger] final(result)@[k] == old(result)@[k],
        flags & NARROWING_FLAGS == 0 ==> forall|data: u32| #[trigger] is_polyphemus_turn(*state, player, must_climb, data) && field_at(data, 0) == worker_start_pos
            && !is_winning_data(data) && field_at(data, 5) == worker_end_move_state.worker_end_pos && field_at(data, 10) == worker_build_pos
            && field_at(data, 15) != 25 ==> lists_word(final(result)@, data),
{
    broadcast use group_bit_lemmas;

    proof {
        crate::generic::lemma_no_flags(flags);
    }
    let ghost start_list = result@;
    let worker_end_pos = worker_end_move_state.worker_end_pos;
    let build_mask = BitBoard::as_mask(worker_build_pos);
    let did_build_to_dome = prelude.board.get_height(worker_build_pos) == 3;
    let mut possible_domes = unblocked_squares.and(BitBoard::main_section()).minus(build_mask.and(prelude.exactly_level_3));
    if is_stop_on_mate(flags) && did_build_to_dome {
        let upper = lower_squares(worker_build_pos).not();
        possible_domes = possible_domes.minus(all_possible_builds.and(prelude.exactly_level_3).and(upper));
    }
    proof {
        assert forall|i: int| #[trigger] possible_domes.has(i) implies is_domable(
            state.board,
            worker_start_pos as int,
            worker_end_pos as int,
            worker_build_pos as int,
            i,
        ) by {
            assert(unblocked_squares.has(i));
        }
    }
    proof {
        if flags & NARROWING_FLAGS == 0 {
            assert forall|i: int| 0 <= i < 25 && #[trigger] is_domable(
                state.board,
                worker_start_pos as int,
                worker_end_pos as int,
                worker_build_pos as int,
                i,
            ) implies possible_domes.has(i) by {
                assert(unblocked_squares.has(i));
                if i == worker_build_pos as int {
                    assert(!prelude.exactly_level_3.has(i));
                }
            }
        }
    }
    let domes = possible_domes.squares();
    let mut di: usize = 0;
    let mut stopped = false;
    while di < domes.len() && !stopped
        invariant
            di <= domes@.len(),
            state.board.god_data[player.idx()] == 0,
            prelude.inv(),
            prelude.board == state.board,
            worker_start_pos < 25,
            worker_end_pos == worker_end_move_state.worker_end_pos,
            worker_end_pos < 25,
            worker_build_pos < 25,
            forall|i: int| #[trigger] build_mask.has(i) == (i == worker_build_pos),
            is_acting_worker(*state, player, worker_start_pos as int),
            is_standard_step(state.board, worker_start_pos as int, worker_end_pos as int, must_climb),
            !is_win_step(false, state.board.height(worker_start_pos as int), state.board.height(worker_end_pos as int)),
            is_standard_build_for(*state, player, worker_start_pos as int, worker_end_pos as int, worker_build_pos as int),
            forall|i: int| #[trigger] possible_domes.has(i) ==> is_domable(
                state.board,
                worker_start_pos as int,
                worker_end_pos as int,
                worker_build_pos as int,
                i,
            ),
            forall|k: int| 0 <= k < domes@.len() ==> #[trigger] domes@[k] < 25 && possible_domes.has(domes@[k] as int),
            forall|k: int| 0 <= k < result@.len() ==> #[trigger] is_polyphemus_turn(*state, player, must_climb, result@[k].action.0),
            start_list.len() <= result@.len(),
            forall|k: int| 0 <= k < start_list.len() ==> #[trigger] result@[k] == start_list[k],
            flags & NARROWING_FLAGS == 0 ==> flags & 2 == 0 && flags & 8 == 0 && !stopped,
            flags & NARROWING_FLAGS == 0 ==> forall|i: int| 0 <= i < 25 && #[trigger] is_domable(
                state.board,
                worker_start_pos as int,
                worker_end_pos as int,
                worker_build_pos as int,
                i,
            ) ==> possible_domes.has(i),
            flags & NARROWING_FLAGS == 0 ==> forall|data: u32| #[trigger] is_polyphemus_turn(*state, player, must_climb, data) && field_at(data, 0) == worker_start_pos
            && !is_winning_data(data) && field_at(data, 5) == worker_end_pos && field_at(data, 10) == worker_build_pos
            && field_at(data, 15) != 25 && (exists|j: int| 0 <= j < di && domes@[j] as u32 == field_at(data, 15))
                ==> lists_word(result@, data),
        decreases domes@.len() - di,
    {
        let d1 = domes[di];
        di = di + 1;
        let d1_mask = BitBoard::as_mask(d1);
        let did_interact_yet_d1 = if is_interact_with_key_squares(flags) {
            did_interact_yet || key_squares.and(d1_mask).is_not_empty()
        } else {
            true
        };
        let did_pass_dupe_check = if is_stop_on_mate(flags) {
            if did_build_to_dome && d1_mask.and(all_possible_builds).is_not_empty() {
                d1 > worker_build_pos
            } else {
                true
            }
        } else {
            true
        };
        if did_interact_yet_d1 && did_pass_dupe_check {
            let is_check = reach_board.and(final_level_3.minus(d1_mask)).is_not_empty();
            let new_action = PolyphemusMove::new_power_move(worker_start_pos, worker_end_pos, worker_build_pos, d1, None);
            let ghost before = result@;
            result.push(build_scored_move(flags, new_action.to_generic(), is_check, worker_end_move_state.is_improving));
            proof {
                lemma_lists_word_grows(before, result@);
                assert(result@[before.len() as int].action.0 == polyphemus_power_data(worker_start_pos as u32, worker_end_pos as u32, worker_build_pos as u32, d1 as u32, 25));
                lemma_pack5(worker_start_pos as u32, worker_end_pos as u32, worker_build_pos as u32, d1 as u32, 25);
                assert(possible_domes.has(d1 as int));
                assert forall|k: int| 0 <= k < result@.len() implies #[trigger] is_polyphemus_turn(
                    *state,
                    player,
                    must_climb,
                    result@[k].action.0,
                ) by {
                    if k < before.len() {
                        assert(result@[k] == before[k]);
                    }
                }
            }
        }
        let lower = lower_squares(d1);
        let mut possible_squares_2 = if is_stop_on_mate(flags) && all_possible_builds.and(d1_mask).is_not_empty() {
            possible_domes.and(lower).minus(build_mask)
        } else {
            possible_domes.and(lower)
        };
        if is_interact_with_key_squares(flags) && !did_interact_yet_d1 {
            possible_squares_2 = possible_squares_2.and(key_squares);
            if possible_squares_2.is_empty() {
                stopped = true;
            }
        }
        proof {
            assert forall|i: int| #[trigger] possible_squares_2.has(i) implies i < d1 && possible_domes.has(i) by {
                assert(lower.has(i));
            }
        }
        let seconds = possible_squares_2.squares();
        proof {
            if flags & NARROWING_FLAGS == 0 {
                assert forall|i: int| 0 <= i < d1 && #[trigger] is_domable(
                    state.board,
                    worker_start_pos as int,
                    worker_end_pos as int,
                    worker_build_pos as int,
                    i,
                ) implies seconds@.contains(i as u8) by {
                    assert(lower.has(i));
                    assert(possible_squares_2.has(i));
                }
            }
        }
        let mut si: usize = 0;
        while si < seconds.len()
            invariant
                si <= seconds@.len(),
                state.board.god_data[player.idx()] == 0,
                prelude.inv(),
                prelude.board == state.board,
                worker_start_pos < 25,
                worker_end_pos == worker_end_move_state.worker_end_pos,
                worker_end_pos < 25,
                worker_build_pos < 25,
                d1 < 25,
                is_acting_worker(*state, player, worker_start_pos as int),
                is_standard_step(state.board, worker_start_pos as int, worker_end_pos as int, must_climb),
                !is_win_step(false, state.board.height(worker_start_pos as int), state.board.height(worker_end_pos as int)),
                is_standard_build_for(*state, player, worker_start_pos as int, worker_end_pos as int, worker_build_pos as int),
                is_domable(state.board, worker_start_pos as int, worker_end_pos as int, worker_build_pos as int, d1 as int),
                forall|k: int| 0 <= k < seconds@.len() ==> #[trigger] seconds@[k] < d1 && is_domable(
                    state.board,
                    worker_start_pos as int,
                    worker_end_pos as int,
                    worker_build_pos as int,
                    seconds@[k] as int,
                ),
                forall|k: int| 0 <= k < result@.len() ==> #[trigger] is_polyphemus_turn(*state, player, must_climb, result@[k].action.0),
                start_list.len() <= result@.len(),
                forall|k: int| 0 <= k < start_list.len() ==> #[trigger] result@[k] == start_list[k],
                flags & NARROWING_FLAGS == 0 ==> flags & 2 == 0 && flags & 8 == 0 && !stopped,
                flags & NARROWING_FLAGS == 0 ==> forall|i: int| 0 <= i < 25 && #[trigger] is_domable(
                    state.board,
                    worker_start_pos as int,
                    worker_end_pos as int,
                    worker_build_pos as int,
                    i,
                ) ==> possible_domes.has(i),
                flags & NARROWING_FLAGS == 0 ==> forall|data: u32| #[trigger] is_polyphemus_turn(*state, player, must_climb, data) && field_at(data, 0) == worker_start_pos
                && !is_winning_data(data) && field_at(data, 5) == worker_end_pos && field_at(data, 10) == worker_build_pos
                && field_at(data, 15) != 25 && (exists|j: int| 0 <= j < di - 1 && domes@[j] as u32 == field_at(data, 15))
                    ==> lists_word(result@, data),
                flags & NARROWING_FLAGS == 0 ==> forall|data: u32| #[trigger] is_polyphemus_turn(*state, player, must_climb, data) && field_at(data, 0) == worker_start_pos
            && !is_winning_data(data) && field_at(data, 5) == worker_end_pos && field_at(data, 10) == worker_build_pos
            && field_at(data, 15) != 25 && field_at(data, 15) == d1 && (field_at(data, 20) == 25 || exists|j: int| 0 <= j < si
                    && seconds@[j] as u32 == field_at(data, 20)) ==> lists_word(result@, data),
                flags & NARROWING_FLAGS == 0 ==> forall|i: int| 0 <= i < d1 && #[trigger] is_domable(
                    state.board,
                    worker_start_pos as int,
                    worker_end_pos as int,
                    worker_build_pos as int,
                    i,
                ) ==> seconds@.contains(i as u8),
                1 <= di <= domes@.len(),
                domes@[di - 1] == d1,
            decreases seconds@.len() - si,
        {
            let d2 = seconds[si];
            si = si + 1;
            let d2_mask = BitBoard::as_mask(d2);
            let is_check = reach_board.and(final_level_3.minus(d1_mask.or(d2_mask))).is_not_empty();
            let new_action = PolyphemusMove::new_power_move(worker_start_pos, worker_end_pos, worker_build_pos, d1, Some(d2));
            let ghost before = result@;
            result.push(build_scored_move(flags, new_action.to_generic(), is_check, worker_end_move_state.is_improving));
            proof {
                lemma_lists_word_grows(before, result@);
                assert(result@[before.len() as int].action.0 == polyphemus_power_data(worker_start_pos as u32, worker_end_pos as u32, worker_build_pos as u32, d1 as u32, d2 as u32));
                lemma_pack5(worker_start_pos as u32, worker_end_pos as u32, worker_build_pos as u32, d1 as u32, d2 as u32);
                assert forall|k: int| 0 <= k < result@.len() implies #[trigger] is_polyphemus_turn(
                    *state,
                    player,
                    must_climb,
                    result@[k].action.0,
                ) by {
                    if k < before.len() {
                        assert(result@[k] == before[k]);
                    }
                }
            }
        }
        proof {
            if flags & NARROWING_FLAGS == 0 {
                assert forall|data: u32| #[trigger] is_polyphemus_turn(*state, player, must_climb, data) && field_at(data, 0) == worker_start_pos
            && !is_winning_data(data) && field_at(data, 5) == worker_end_pos && field_at(data, 10) == worker_build_pos
            && field_at(data, 15) != 25 && (exists|j: int| 0 <= j < di && domes@[j] as u32 == field_at(data, 15))
                    implies lists_word(result@, data) by {
                    let j = choose|j: int| 0 <= j < di && domes@[j] as u32 == field_at(data, 15);
                    if j == di - 1 && field_at(data, 20) != 25 {
                        let e = field_at(data, 20);
                        assert(seconds@.contains(e as u8));
                        let js = choose|js: int| 0 <= js < seconds@.len() && seconds@[js] == e as u8;
                        assert(seconds@[js] as u32 == field_at(data, 20));
                    }
                }
            }
        }
    }
    proof {
        if flags & NARROWING_FLAGS == 0 {
            assert forall|data: u32| #[trigger] is_polyphemus_turn(*state, player, must_climb, data) && field_at(data, 0) == worker_start_pos
            && !is_winning_data(data) && field_at(data, 5) == worker_end_pos && field_at(data, 10) == worker_build_pos
            && field_at(data, 15) != 25 implies lists_word(result@, data) by {
                let d = field_at(data, 15);
                assert(possible_domes.has(d as int));
                assert(domes@.contains(d as u8));
                let j = choose|j: int| 0 <= j < domes@.len() && domes@[j] == d as u8;
                assert(domes@[j] as u32 == field_at(data, 15));
            }
        }
    }
}

/// Polyphemus's fixed data.
pub fn build_polyphemus() -> (r: GodPower)
    ensures
        r.god_name == GodName::Polyphemus,
        r.hash1 == 18142252980210509973u64,
        r.hash2 == 12346902543242196568u64,
        r.placement_type == PlacementType::Normal,
        r.symmetry == BoardSymmetry::Full,
        !r.is_persephone,
{
    god_power(GodName::Polyphemus, 18142252980210509973, 12346902543242196568)
}

/// How a turn of this god changes the board: the workers, the heights, the god data and the
/// winner after it, and whose turn it is, are those of `after`.
pub open spec fn polyphemus_move_effect(before: BoardState, after: BoardState, player: Player, data: u32) -> bool {
    &&& after.current_player == before.current_player
    &&& after.workers[1 - player.idx()] == before.workers[1 - player.idx()]
    &&& after.workers[player.idx()].0 == before.workers[player.idx()].0 ^ ((1u32 << field_at(data, 0)) | (1u32 << field_at(data, 5)))
    &&& (is_winning_data(data) ==> after.winner == Some(player) && after.height_map == before.height_map && after.god_data == before.god_data)
    &&& (!is_winning_data(data) ==> after.winner == before.winner)
    &&& (!is_winning_data(data) && field_at(data, 15) == 25 ==> after.god_data == before.god_data)
    &&& (!is_winning_data(data) && field_at(data, 15) != 25 ==> after.god_data[player.idx()] == 1 && after.god_data[1 - player.idx()] == before.god_data[1 - player.idx()])
    &&& (!is_winning_data(data) ==> forall|i: int| #[trigger] after.height(i) == (if field_at(data, 15) != 25 && (i == field_at(data, 15) || (field_at(data, 20) != 25 && i == field_at(data, 20))) { 4 } else if i == field_at(data, 10) { before.height(i) + 1 } else { before.height(i) }))
}

} // verus!
