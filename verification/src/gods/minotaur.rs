use vstd::prelude::*;

use crate::bitboard::{group_bit_lemmas, neighbor_mask, popcount, BitBoard, MAIN_SECTION};
use crate::board::{BoardState, FullGameState, Player};
use crate::generic::{
    NARROWING_FLAGS, build_scored_move, field_at, is_interact_with_key_squares, is_mate_only, is_stop_on_mate, is_winning_data, lemma_pack4,
    read_position, GenericMove, MoveData, MoveGenFlags, ScoredMove, ANY_MOVE_FILTER, MOVE_IS_WINNING_MASK, MATE_ONLY, STOP_ON_MATE,
    INTERACT_WITH_KEY_SQUARES,
};
use crate::gods::mortal::{lemma_acting_in_prelude, lemma_lists_word_grows, lists_word, is_acting_worker, is_win_step, lemma_move_worker_keeps_wf, lemma_prelude_acting};
use crate::gods::move_helpers::{
    get_basic_moves_from_raw_data_with_custom_blockers, get_generator_prelude_state, get_sized_result,
    get_worker_start_move_state, is_step_with_blockers, modify_prelude_for_checking_workers, GeneratorPreludeState,
};
use crate::square::{is_adjacent, is_beyond, is_square, push_mapping, Square};
use crate::gods::{BoardSymmetry, PlacementType, god_power, GodName, GodPower};

verus! {

/// A Minotaur turn: a move, pushing the opposing worker on the square moved onto one step further
/// in the same direction, then a build.
#[derive(Clone, Copy, PartialEq, Eq, Structural, Debug)]
pub struct MinotaurMove(pub MoveData);

/// The word of a move from `from` to `to`, building on `build`, pushing to `push` (25 for no push).
pub open spec fn minotaur_data(from: u32, to: u32, build: u32, push: u32) -> u32 {
    from | (to << 5u32) | (build << 10u32) | (push << 15u32)
}

impl MinotaurMove {
    pub fn new_minotaur_move(move_from_position: Square, move_to_position: Square, build_position: Square) -> (r: Self)
        requires
            move_from_position < 25,
            move_to_position < 25,
            build_position < 25,
        ensures
            r.0 == minotaur_data(move_from_position as u32, move_to_position as u32, build_position as u32, 25),
    {
        Self((move_from_position as u32) | ((move_to_position as u32) << 5u32) | ((build_position as u32) << 10u32) | (25u32 << 15u32))
    }

    pub fn new_minotaur_push_move(
        move_from_position: Square,
        move_to_position: Square,
        build_position: Square,
        push_to_position: Square,
    ) -> (r: Self)
        requires
            move_from_position < 25,
            move_to_position < 25,
            build_position < 25,
            push_to_position < 25,
        ensures
            r.0 == minotaur_data(move_from_position as u32, move_to_position as u32, build_position as u32, push_to_position as u32),
    {
        Self(
            (move_from_position as u32) | ((move_to_position as u32) << 5u32) | ((build_position as u32) << 10u32) | ((
            push_to_position as u32) << 15u32),
        )
    }

    pub fn new_winning_move(move_from_position: Square, move_to_position: Square) -> (r: Self)
        requires
            move_from_position < 25,
            move_to_position < 25,
        ensures
            r.0 == minotaur_data(move_from_position as u32, move_to_position as u32, 0, 25) | MOVE_IS_WINNING_MASK,
    {
        Self((move_from_position as u32) | ((move_to_position as u32) << 5u32) | (0u32 << 10u32) | (25u32 << 15u32) | MOVE_IS_WINNING_MASK)
    }

    pub fn new_minotaur_winning_push_move(move_from_position: Square, move_to_position: Square, push_to_position: Square) -> (r: Self)
        requires
            move_from_position < 25,
            move_to_position < 25,
            push_to_position < 25,
        ensures
            r.0 == minotaur_data(move_from_position as u32, move_to_position as u32, 0, push_to_position as u32) | MOVE_IS_WINNING_MASK,
    {
        Self(
            (move_from_position as u32) | ((move_to_position as u32) << 5u32) | (0u32 << 10u32) | ((push_to_position as u32)
                << 15u32) | MOVE_IS_WINNING_MASK,
        )
    }

    pub fn move_from_position(&self) -> (r: Square)
        ensures
            r == field_at(self.0, 0),
            r < 32,
    {
        read_position(self.0, 0)
    }

    pub fn move_to_position(&self) -> (r: Square)
        ensures
            r == field_at(self.0, 5),
            r < 32,
    {
        read_position(self.0, 5)
    }

    /// Where the pushed worker lands, if the move pushes one.
    pub fn push_to_position(&self) -> (r: Option<Square>)
        ensures
            field_at(self.0, 15) < 32,
            r == (if field_at(self.0, 15) == 25 {
                None
            } else {
                Some(field_at(self.0, 15) as u8)
            }),
    {
        let value = read_position(self.0, 15);
        if value == 25 {
            None
        } else {
            Some(value)
        }
    }

    pub fn build_position(self) -> (r: Square)
        ensures
            r == field_at(self.0, 10),
            r < 32,
    {
        read_position(self.0, 10)
    }

    pub fn get_is_winning(&self) -> (r: bool)
        ensures
            r == is_winning_data(self.0),
    {
        (self.0 & MOVE_IS_WINNING_MASK) != 0
    }

    pub fn to_generic(self) -> (r: GenericMove)
        ensures
            r.0 == self.0,
    {
        GenericMove(self.0)
    }
}

/// Whether a worker stands on `s` for the opposing player once the worker on `to` is pushed to
/// `push` (25 for no push).
pub open spec fn is_oppo_after_push(board: BoardState, p: int, to: int, push: int, s: int) -> bool {
    (board.workers[1 - p].has(s) && s != to) || (s == push && push != 25)
}

/// Whether the player may build on `i` once the push is made: next to Limus' workers, where they
/// stand after the push, only a level 3 square may be domed.
pub open spec fn minotaur_build_allowed(state: FullGameState, p: int, to: int, push: int, i: int) -> bool {
    if state.gods[1 - p].is_limus_spec() {
        (0 <= i < 32 && !(exists|s: int| 0 <= s < 25 && #[trigger] is_oppo_after_push(state.board, p, to, push, s) && is_adjacent(s, i)))
            || (is_square(i) && state.board.height(i) == 3)
    } else {
        is_square(i)
    }
}

/// A legal Minotaur turn read off its word: a step that may land on an opposing worker, which is
/// then pushed one step further in the same direction onto a free square; a climb onto level 3
/// wins; otherwise a build next to where the worker landed, on a square no worker then stands on.
pub open spec fn is_minotaur_turn(state: FullGameState, player: Player, must_climb: bool, data: u32) -> bool {
    let board = state.board;
    let p = player.idx();
    let from = field_at(data, 0);
    let to = field_at(data, 5);
    let build = field_at(data, 10);
    let push = field_at(data, 15);
    &&& is_acting_worker(state, player, from as int)
    &&& is_adjacent(from as int, to as int)
    &&& !board.workers[p].has(to as int)
    &&& board.height(to as int) < 4
    &&& board.height(to as int) <= board.height(from as int) + 1
    &&& (must_climb ==> board.height(to as int) == board.height(from as int) + 1)
    &&& (push == 25) == !board.workers[1 - p].has(to as int)
    &&& (push != 25 ==> is_beyond(from as int, to as int, push as int) && !board.occupied(push as int) && board.height(push as int) < 4)
    &&& if is_winning_data(data) {
        &&& data == minotaur_data(from, to, 0, push) | MOVE_IS_WINNING_MASK
        &&& is_win_step(false, board.height(from as int), board.height(to as int))
    } else {
        &&& data == minotaur_data(from, to, build, push)
        &&& !is_win_step(false, board.height(from as int), board.height(to as int))
        &&& is_adjacent(to as int, build as int)
        &&& !(board.workers[p].has(build as int) && build != from)
        &&& !is_oppo_after_push(board, p, to as int, push as int, build as int)
        &&& board.height(build as int) < 4
        &&& minotaur_build_allowed(state, p, to as int, push as int, build as int)
    }
}

/// A turn owed a climb is a turn.
pub proof fn lemma_minotaur_climb_is_turn(state: FullGameState, player: Player, data: u32)
    ensures
        is_minotaur_turn(state, player, true, data) ==> is_minotaur_turn(state, player, false, data),
{
}

/// A Minotaur word reads back its squares.
proof fn lemma_minotaur_words(from: u32, to: u32, build: u32, push: u32)
    requires
        from < 25,
        to < 25,
        build < 25,
        push <= 25,
    ensures
        field_at(minotaur_data(from, to, build, push), 0) == from,
        field_at(minotaur_data(from, to, build, push), 5) == to,
        field_at(minotaur_data(from, to, build, push), 10) == build,
        field_at(minotaur_data(from, to, build, push), 15) == push,
        !is_winning_data(minotaur_data(from, to, build, push)),
        field_at(minotaur_data(from, to, 0, push) | MOVE_IS_WINNING_MASK, 0) == from,
        field_at(minotaur_data(from, to, 0, push) | MOVE_IS_WINNING_MASK, 5) == to,
        field_at(minotaur_data(from, to, 0, push) | MOVE_IS_WINNING_MASK, 15) == push,
        is_winning_data(minotaur_data(from, to, 0, push) | MOVE_IS_WINNING_MASK),
{
    lemma_pack4(from, to, build, push);
    lemma_pack4(from, to, 0, push);
}

/// What playing a Minotaur turn needs, read off the turn.
pub proof fn lemma_minotaur_turn_playable(state: FullGameState, player: Player, data: u32)
    requires
        state.board.wf(),
        is_minotaur_turn(state, player, false, data),
    ensures
        field_at(data, 0) < 25,
        field_at(data, 5) < 25,
        field_at(data, 0) != field_at(data, 5),
        state.board.workers[player.idx()].has(field_at(data, 0) as int),
        !state.board.workers[player.idx()].has(field_at(data, 5) as int),
        field_at(data, 15) == 25 ==> !state.board.workers[1 - player.idx()].has(field_at(data, 5) as int),
        field_at(data, 15) != 25 ==> field_at(data, 15) < 25 && state.board.workers[1 - player.idx()].has(field_at(data, 5) as int)
            && !state.board.occupied(field_at(data, 15) as int),
        !is_winning_data(data) ==> field_at(data, 10) < 25 && state.board.height(field_at(data, 10) as int) < 4,
{
}

impl MinotaurMove {
    /// Plays the turn: the pushed worker, if any, moves on first, then Minotaur moves, and either
    /// wins or builds.
    pub fn make_move(self, board: &mut BoardState, player: Player)
        requires
            old(board).wf(),
            field_at(self.0, 0) < 25,
            field_at(self.0, 5) < 25,
            field_at(self.0, 0) != field_at(self.0, 5),
            old(board).workers[player.idx()].has(field_at(self.0, 0) as int),
            !old(board).workers[player.idx()].has(field_at(self.0, 5) as int),
            field_at(self.0, 15) == 25 ==> !old(board).workers[1 - player.idx()].has(field_at(self.0, 5) as int),
            field_at(self.0, 15) != 25 ==> field_at(self.0, 15) < 25 && old(board).workers[1 - player.idx()].has(
                field_at(self.0, 5) as int,
            ) && !old(board).occupied(field_at(self.0, 15) as int),
            !is_winning_data(self.0) ==> field_at(self.0, 10) < 25 && old(board).height(field_at(self.0, 10) as int) < 4,
        ensures
            final(board).wf(),
            final(board).current_player == old(board).current_player,
            final(board).god_data == old(board).god_data,
            final(board).workers[player.idx()].0 == old(board).workers[player.idx()].0 ^ ((1u32 << field_at(self.0, 0)) ^ (1u32
                << field_at(self.0, 5))),
            field_at(self.0, 15) == 25 ==> final(board).workers[1 - player.idx()] == old(board).workers[1 - player.idx()],
            field_at(self.0, 15) != 25 ==> final(board).workers[1 - player.idx()].0 == old(board).workers[1 - player.idx()].0 ^ ((1u32
                << field_at(self.0, 5)) ^ (1u32 << field_at(self.0, 15))),
            is_winning_data(self.0) ==> final(board).winner == Some(player) && final(board).height_map == old(board).height_map,
            !is_winning_data(self.0) ==> final(board).winner == old(board).winner,
            !is_winning_data(self.0) ==> forall|i: int| #[trigger] final(board).height(i) == (if i == field_at(self.0, 10) {
                old(board).height(i) + 1
            } else {
                old(board).height(i)
            }),
    {
        broadcast use group_bit_lemmas;

        let ghost before = *board;
        let from = self.move_from_position();
        let to = self.move_to_position();
        let to_mask = BitBoard::as_mask(to);
        match self.push_to_position() {
            Some(push_to) => {
                let other = player.other();
                board.worker_xor(other, to_mask.xor(BitBoard::as_mask(push_to)));
                proof {
                    lemma_move_worker_keeps_wf(before, *board, other, to as u32, push_to as u32);
                }
            },
            None => {},
        }
        let ghost pushed = *board;
        board.worker_xor(player, BitBoard::as_mask(from).xor(to_mask));
        proof {
            lemma_move_worker_keeps_wf(pushed, *board, player, from as u32, to as u32);
        }
        if self.get_is_winning() {
            board.set_winner(player);
            return;
        }
        board.build_up(self.build_position());
    }
}

/// The turns the generator owes with no narrowing filter on: every legal turn, except that
/// against Persephone, when a climb exists, only the climbing ones.
pub open spec fn minotaur_turn_owed(state: FullGameState, player: Player, must_climb: bool, data: u32) -> bool {
    &&& is_minotaur_turn(state, player, must_climb, data)
    &&& (state.gods[1 - player.idx()].is_persephone_spec() && !must_climb && exists|d: u32| #[trigger] is_minotaur_turn(state, player, true, d))
        ==> is_minotaur_turn(state, player, true, data)
}

/// Whether a Minotaur turn touches the key squares: it ends on one, pushes a worker onto one, or
/// builds on one.
pub open spec fn touches_key_squares(data: u32, key_squares: BitBoard) -> bool {
    ||| key_squares.has(field_at(data, 5) as int)
    ||| field_at(data, 15) != 25 && key_squares.has(field_at(data, 15) as int)
    ||| !is_winning_data(data) && key_squares.has(field_at(data, 10) as int)
}

/// The turns a filter keeps: every win; the rest unless only wins are asked for, and, when only
/// turns interacting with the key squares are asked for, those that touch them.
pub open spec fn is_listed_by_flags(flags: MoveGenFlags, key_squares: BitBoard, data: u32) -> bool {
    ||| is_winning_data(data)
    ||| flags & MATE_ONLY == 0 && (flags & INTERACT_WITH_KEY_SQUARES == 0 || touches_key_squares(data, key_squares))
}

/// A build the filter keeps for a step ending on `to` that pushes onto `push` (25 for none).
pub open spec fn build_kept_by_flags(flags: MoveGenFlags, key_squares: BitBoard, to: int, push: int, b: int) -> bool {
    &&& flags & MATE_ONLY == 0
    &&& flags & INTERACT_WITH_KEY_SQUARES == 0 || key_squares.has(to) || push != 25 && key_squares.has(push) || key_squares.has(b)
}

/// Minotaur's move generator: each step may land on an opposing worker that can be pushed one
/// step further onto a free square; climbs onto level 3 win; otherwise the worker builds next to
/// where it landed.
pub fn minotaur_move_gen(
    flags: MoveGenFlags,
    state: &FullGameState,
    player: Player,
    key_squares: BitBoard,
    must_climb: bool,
) -> (result: Vec<ScoredMove>)
    requires
        state.board.wf(),
    ensures
        forall|k: int| 0 <= k < result@.len() ==> #[trigger] is_minotaur_turn(*state, player, must_climb, result@[k].action.0),
        flags & NARROWING_FLAGS == 0 ==> forall|data: u32| #[trigger] minotaur_turn_owed(*state, player, must_climb, data) ==> lists_word(
            result@,
            data,
        ),
        flags & NARROWING_FLAGS == 0 && state.gods[1 - player.idx()].is_persephone_spec() && !must_climb && (exists|d: u32|
            #[trigger] is_minotaur_turn(*state, player, true, d)) ==> forall|k: int| 0 <= k < result@.len()
            ==> #[trigger] is_minotaur_turn(*state, player, true, result@[k].action.0),
        flags & STOP_ON_MATE == 0 ==> forall|data: u32| #[trigger] minotaur_turn_owed(*state, player, must_climb, data)
            && is_listed_by_flags(flags, key_squares, data) ==> lists_word(result@, data),
    decreases if must_climb {
        0int
    } else {
        1int
    },
{
    broadcast use group_bit_lemmas;

    proof {
        crate::generic::lemma_no_flags(flags);
    }

    let mut result = if state.gods[player.other().index()].is_persephone() && !must_climb {
        let climbing = minotaur_move_gen(flags, state, player, key_squares, true);
        proof {
            assert forall|k: int| 0 <= k < climbing@.len() implies #[trigger] is_minotaur_turn(
                *state,
                player,
                must_climb,
                climbing@[k].action.0,
            ) by {
                lemma_minotaur_climb_is_turn(*state, player, climbing@[k].action.0);
            }
        }
        if climbing.len() > 0 {
            proof {
                if flags & NARROWING_FLAGS == 0 {
                    assert(is_minotaur_turn(*state, player, true, climbing@[0].action.0));
                    assert forall|data: u32| #[trigger] minotaur_turn_owed(*state, player, must_climb, data) implies lists_word(climbing@, data) by {
                        assert(minotaur_turn_owed(*state, player, true, data));
                    }
                }
                if flags & STOP_ON_MATE == 0 {
                    assert(is_minotaur_turn(*state, player, true, climbing@[0].action.0));
                    assert forall|data: u32| #[trigger] minotaur_turn_owed(*state, player, must_climb, data) && is_listed_by_flags(
                        flags,
                        key_squares,
                        data,
                    ) implies lists_word(climbing@, data) by {
                        assert(minotaur_turn_owed(*state, player, true, data));
                    }
                }
            }
            return climbing;
        }
        proof {
            if flags & NARROWING_FLAGS == 0 {
                assert forall|d: u32| !#[trigger] is_minotaur_turn(*state, player, true, d) by {
                    if is_minotaur_turn(*state, player, true, d) {
                        assert(minotaur_turn_owed(*state, player, true, d));
                    }
                }
            }
        }
        if flags & ANY_MOVE_FILTER > 0 {
            let unrestricted = minotaur_move_gen(0, state, player, key_squares, true);
            if unrestricted.len() > 0 {
                proof {
                    if flags & STOP_ON_MATE == 0 {
                        assert(is_minotaur_turn(*state, player, true, unrestricted@[0].action.0));
                        assert forall|data: u32| #[trigger] minotaur_turn_owed(*state, player, must_climb, data) && is_listed_by_flags(
                            flags,
                            key_squares,
                            data,
                        ) implies lists_word(climbing@, data) by {
                            assert(minotaur_turn_owed(*state, player, true, data));
                        }
                    }
                }
                return climbing;
            }
        }
        proof {
            if flags & STOP_ON_MATE == 0 {
                assert forall|d: u32| #[trigger] is_minotaur_turn(*state, player, true, d) && is_listed_by_flags(flags, key_squares, d)
                    implies false by {
                    assert(minotaur_turn_owed(*state, player, true, d));
                }
            }
        }
        climbing
    } else {
        get_sized_result(flags)
    };
    assert(flags & NARROWING_FLAGS == 0 && state.gods[1 - player.idx()].is_persephone_spec() && !must_climb ==> forall|d: u32|
        !#[trigger] is_minotaur_turn(*state, player, true, d));
    let mut prelude = get_generator_prelude_state(state, player, key_squares);
    let ghost initial_acting = prelude.acting_workers;
    let ghost p = player.idx();
    let checkable_mask = prelude.mate_start_mask;
    modify_prelude_for_checking_workers(flags, checkable_mask, &mut prelude);
    let blocked_squares = prelude.all_workers_and_frozen_mask.or(prelude.domes_and_frozen);
    let workers = prelude.acting_workers.squares();
    let mut wi: usize = 0;
    while wi < workers.len()
        invariant
            flags & NARROWING_FLAGS == 0 && state.gods[1 - player.idx()].is_persephone_spec() && !must_climb ==> forall|d: u32|
                !#[trigger] is_minotaur_turn(*state, player, true, d),
            wi <= workers@.len(),
            state.board.wf(),
            prelude.inv(),
            prelude.board == state.board,
            prelude.player == player,
            prelude.other_god == state.gods[1 - player.idx()],
            p == player.idx(),
            prelude.own_workers.0 == state.board.workers[player.idx()].0 & MAIN_SECTION,
            prelude.other_god.is_hypnus_spec() ==> initial_acting.0 == crate::gods::hypnus::hypnus_filter_spec(
                state.board.height_map,
                prelude.own_workers.0,
            ),
            !prelude.other_god.is_hypnus_spec() ==> initial_acting == prelude.own_workers,
            forall|i: int| #[trigger] prelude.acting_workers.has(i) ==> initial_acting.has(i),
            forall|i: int| #[trigger] blocked_squares.has(i) == (state.board.occupied(i) || (is_square(i) && state.board.height(i) == 4)),
            forall|k: int| 0 <= k < workers@.len() ==> #[trigger] workers@[k] < 25 && prelude.acting_workers.has(workers@[k] as int),
            forall|k: int| 0 <= k < result@.len() ==> #[trigger] is_minotaur_turn(*state, player, must_climb, result@[k].action.0),
            flags & STOP_ON_MATE == 0 ==> forall|data: u32| #[trigger] is_minotaur_turn(*state, player, must_climb, data) && is_listed_by_flags(flags, key_squares, data) && (exists|j: int|
                0 <= j < wi && workers@[j] as u32 == field_at(data, 0)) ==> lists_word(result@, data),
            flags & NARROWING_FLAGS == 0 ==> flags & 1 == 0 && flags & 2 == 0 && flags & 8 == 0,
            flags & NARROWING_FLAGS == 0 ==> prelude.acting_workers == initial_acting,
            flags & MATE_ONLY == 0 ==> prelude.acting_workers == initial_acting,
            flags & MATE_ONLY != 0 ==> prelude.acting_workers.0 == initial_acting.0 & checkable_mask.0,
            checkable_mask == prelude.exactly_level_2,
        decreases workers@.len() - wi,
    {
        let worker_start_pos = workers[wi];
        wi = wi + 1;
        proof {
            lemma_prelude_acting(*state, player, prelude.own_workers, initial_acting, worker_start_pos as int);
        }
        let worker_start_state = get_worker_start_move_state(&prelude, worker_start_pos);
        let move_blockers = worker_start_state.other_own_workers.or(prelude.domes_and_frozen);
        let mut worker_moves = get_basic_moves_from_raw_data_with_custom_blockers(
            &prelude,
            worker_start_pos,
            worker_start_state.worker_start_mask,
            worker_start_state.worker_start_height,
            move_blockers,
            must_climb,
        );
        if is_mate_only(flags) || worker_start_state.can_mate {
            let mut winning_entries = BitBoard::empty();
            let entries = worker_moves.squares();
            let mut ei: usize = 0;
            while ei < entries.len()
                invariant
                    flags & NARROWING_FLAGS == 0 && state.gods[1 - player.idx()].is_persephone_spec() && !must_climb ==> forall|d: u32|
                        !#[trigger] is_minotaur_turn(*state, player, true, d),
                    ei <= entries@.len(),
                    prelude.inv(),
                    prelude.board == state.board,
                    prelude.player == player,
                    p == player.idx(),
                    worker_start_pos < 25,
                    worker_start_state.describes(prelude, worker_start_pos as int),
                    is_acting_worker(*state, player, worker_start_pos as int),
                    forall|i: int| #[trigger] blocked_squares.has(i) == (state.board.occupied(i) || (is_square(i) && state.board.height(
                        i,
                    ) == 4)),
                    forall|k: int| 0 <= k < entries@.len() ==> #[trigger] entries@[k] < 25 && worker_moves.has(entries@[k] as int),
                    forall|i: int| #[trigger] worker_moves.has(i) == is_step_with_blockers(
                        state.board,
                        move_blockers,
                        worker_start_pos as int,
                        i,
                        must_climb,
                    ),
                    forall|i: int| #[trigger] move_blockers.has(i) == ((state.board.workers[p].has(i) && i != worker_start_pos) || (
                    is_square(i) && state.board.height(i) == 4)),
                    forall|k: int| 0 <= k < result@.len() ==> #[trigger] is_minotaur_turn(*state, player, must_climb, result@[k].action.0),
                    flags & STOP_ON_MATE == 0 ==> forall|data: u32| #[trigger] is_minotaur_turn(*state, player, must_climb, data) && is_listed_by_flags(flags, key_squares, data) && (exists|j: int|
                        0 <= j < wi - 1 && workers@[j] as u32 == field_at(data, 0)) ==> lists_word(result@, data),
                    flags & NARROWING_FLAGS == 0 ==> flags & 1 == 0 && flags & 2 == 0 && flags & 8 == 0,
                    flags & STOP_ON_MATE == 0 ==> forall|data: u32| #[trigger] is_minotaur_turn(*state, player, must_climb, data) && is_listed_by_flags(flags, key_squares, data) && field_at(data, 0) == worker_start_pos && is_winning_data(data) && (exists|j: int| 0 <= j < ei && entries@[j] as u32 == field_at(data, 5))
                        ==> lists_word(result@, data),
                    forall|i: int| #[trigger] winning_entries.has(i) ==> state.board.height(i) == 3,
                    1 <= wi <= workers@.len(),
                    workers@[wi - 1] == worker_start_pos,
                decreases entries@.len() - ei,
            {
                let entry_pos = entries[ei];
                ei = ei + 1;
                let ghost before_entry = result@;
                let entry_mask = BitBoard::as_mask(entry_pos);
                let entry_wins = entry_mask.and(prelude.exactly_level_3).and(prelude.win_mask);
                if entry_wins.is_not_empty() && worker_start_state.worker_start_height == 2 {
                    proof {
                        assert(worker_moves.has(entry_pos as int));
                        assert(state.board.height(entry_pos as int) == 3);
                    }
                    let mut winning_move: Option<MinotaurMove> = None;
                    let entry_oppo = entry_mask.and(prelude.oppo_workers);
                    proof {
                        assert(entry_oppo.has(entry_pos as int) == state.board.workers[1 - p].has(entry_pos as int));
                    }
                    if entry_oppo.is_not_empty() {
                        match push_mapping(worker_start_pos, entry_pos) {
                            Some(push_to) => {
                                proof {
                                    assert forall|q: int| #[trigger] is_beyond(worker_start_pos as int, entry_pos as int, q) implies q
                                        == push_to as int by {
                                        lemma_beyond_unique(worker_start_pos as int, entry_pos as int, q, push_to as int);
                                    }
                                }
                                let push_blocked = BitBoard::as_mask(push_to).and(blocked_squares);
                                if push_blocked.is_empty() {
                                    proof {
                                        assert(!push_blocked.has(push_to as int));
                                        assert(!blocked_squares.has(push_to as int));
                                    }
                                    winning_move = Some(MinotaurMove::new_minotaur_winning_push_move(worker_start_pos, entry_pos, push_to));
                                    proof {
                                        lemma_minotaur_words(worker_start_pos as u32, entry_pos as u32, 0, push_to as u32);
                                    }
                                }
                            },
                            None => {},
                        }
                    } else {
                        proof {
                            assert(!state.board.workers[1 - p].has(entry_pos as int));
                            lemma_minotaur_words(worker_start_pos as u32, entry_pos as u32, 0, 25);
                        }
                        winning_move = Some(MinotaurMove::new_winning_move(worker_start_pos, entry_pos));
                    }
                    match winning_move {
                        Some(m) => {
                            let ghost before = result@;
                            result.push(ScoredMove::new_winning_move(m.to_generic()));
                            proof {
                                assert forall|k: int| 0 <= k < result@.len() implies #[trigger] is_minotaur_turn(
                                    *state,
                                    player,
                                    must_climb,
                                    result@[k].action.0,
                                ) by {
                                    if k < before.len() {
                                        assert(result@[k] == before[k]);
                                    }
                                }
                            }
                            winning_entries = winning_entries.or(entry_mask);
                            if is_stop_on_mate(flags) {
                                return result;
                            }
                        },
                        None => {},
                    }
                }
                proof {
                    lemma_lists_word_grows(before_entry, result@);
                    if flags & STOP_ON_MATE == 0 {
                        assert forall|data: u32| #[trigger] is_minotaur_turn(*state, player, must_climb, data) && is_listed_by_flags(flags, key_squares, data) && field_at(data, 0) == worker_start_pos && is_winning_data(data) && (exists|j: int| 0 <= j < ei && entries@[j] as u32 == field_at(data, 5))
                            implies lists_word(result@, data) by {
                            let j = choose|j: int| 0 <= j < ei && entries@[j] as u32 == field_at(data, 5);
                            if j == ei - 1 {
                                let q = field_at(data, 15);
                                lemma_minotaur_words(worker_start_pos as u32, entry_pos as u32, 0, q);
                                assert(state.board.height(entry_pos as int) == 3);
                                assert(entry_wins.has(entry_pos as int));
                                if state.board.workers[1 - p].has(entry_pos as int) {
                                    assert(is_beyond(worker_start_pos as int, entry_pos as int, q as int));
                                    assert(!blocked_squares.has(q as int));
                                }
                                assert(result@.len() == before_entry.len() + 1);
                                assert(result@[before_entry.len() as int].action.0 == data);
                            }
                        }
                    }
                }
            }
            proof {
                if flags & STOP_ON_MATE == 0 {
                    assert forall|data: u32| #[trigger] is_minotaur_turn(*state, player, must_climb, data) && is_listed_by_flags(flags, key_squares, data) && field_at(data, 0) == worker_start_pos && is_winning_data(data) implies lists_word(result@, data) by {
                        let to = field_at(data, 5);
                        assert(worker_moves.has(to as int));
                        assert(entries@.contains(to as u8));
                        let j = choose|j: int| 0 <= j < entries@.len() && entries@[j] == to as u8;
                        assert(entries@[j] as u32 == field_at(data, 5));
                    }
                }
            }
            worker_moves = worker_moves.minus(winning_entries);
        }
        if is_mate_only(flags) {
            continue;
        }
        let ghost before_rest = result@;
        proof {
            if flags & STOP_ON_MATE == 0 {
                assert forall|data: u32| #[trigger] is_minotaur_turn(*state, player, must_climb, data) && is_listed_by_flags(flags, key_squares, data) && field_at(data, 0) == worker_start_pos && is_winning_data(data) implies lists_word(result@, data) by {
                    assert(worker_start_state.can_mate);
                }
            }
        }
        add_minotaur_moves(flags, state, player, must_climb, &prelude, &mut result, worker_start_pos, worker_moves, blocked_squares, key_squares);
        proof {
            lemma_lists_word_grows(before_rest, result@);
            if flags & STOP_ON_MATE == 0 {
                assert forall|data: u32| #[trigger] is_minotaur_turn(*state, player, must_climb, data) && is_listed_by_flags(flags, key_squares, data) && (exists|j: int|
                    0 <= j < wi && workers@[j] as u32 == field_at(data, 0)) implies lists_word(result@, data) by {
                    let j = choose|j: int| 0 <= j < wi && workers@[j] as u32 == field_at(data, 0);
                    if j == wi - 1 && !is_winning_data(data) {
                        assert(worker_moves.has(field_at(data, 5) as int));
                    }
                }
            }
        }
    }
    proof {
        if flags & NARROWING_FLAGS == 0 {
            assert forall|data: u32| #[trigger] minotaur_turn_owed(*state, player, must_climb, data) implies lists_word(result@, data) by {
                let f = field_at(data, 0);
                lemma_acting_in_prelude(*state, player, prelude.own_workers, initial_acting, f as int);
                assert(workers@.contains(f as u8));
                let j = choose|j: int| 0 <= j < workers@.len() && workers@[j] == f as u8;
                assert(workers@[j] as u32 == field_at(data, 0));
            }
        }
        if flags & STOP_ON_MATE == 0 {
            assert forall|data: u32| #[trigger] minotaur_turn_owed(*state, player, must_climb, data) && is_listed_by_flags(flags, key_squares, data)
                implies lists_word(result@, data) by {
                let f = field_at(data, 0);
                assert(state.board.workers[player.idx()].within_board());
                lemma_acting_in_prelude(*state, player, prelude.own_workers, initial_acting, f as int);
                if flags & MATE_ONLY != 0 {
                    assert(is_winning_data(data));
                    assert(checkable_mask.has(f as int));
                }
                assert(prelude.acting_workers.has(f as int));
                assert(workers@.contains(f as u8));
                let j = choose|j: int| 0 <= j < workers@.len() && workers@[j] == f as u8;
                assert(workers@[j] as u32 == field_at(data, 0));
            }
        }
    }
    result
}

/// Only one square lies beyond `over` seen from `from`.
proof fn lemma_beyond_unique(from: int, over: int, a: int, b: int)
    requires
        is_beyond(from, over, a),
        is_beyond(from, over, b),
    ensures
        a == b,
{
}

/// The non-winning steps of the worker on `worker_start_pos` among `worker_moves`, each with every
/// build, pushing an opposing worker that stands on the square stepped onto.
fn add_minotaur_moves(
    flags: MoveGenFlags,
    state: &FullGameState,
    player: Player,
    must_climb: bool,
    prelude: &GeneratorPreludeState,
    result: &mut Vec<ScoredMove>,
    worker_start_pos: Square,
    worker_moves: BitBoard,
    blocked_squares: BitBoard,
    key_squares: BitBoard,
)
    requires
        state.board.wf(),
        prelude.inv(),
        prelude.board == state.board,
        prelude.player == player,
        prelude.other_god == state.gods[1 - player.idx()],
        worker_start_pos < 25,
        is_acting_worker(*state, player, worker_start_pos as int),
        forall|i: int| #[trigger] blocked_squares.has(i) == (state.board.occupied(i) || (is_square(i) && state.board.height(i) == 4)),
        forall|i: int| #[trigger] worker_moves.has(i) ==> is_adjacent(worker_start_pos as int, i) && !state.board.workers[player.idx()].has(i)
            && state.board.height(i) < 4 && state.board.height(i) <= state.board.height(worker_start_pos as int) + 1 && (must_climb
            ==> state.board.height(i) == state.board.height(worker_start_pos as int) + 1),
        forall|k: int| 0 <= k < old(result)@.len() ==> #[trigger] is_minotaur_turn(*state, player, must_climb, old(result)@[k].action.0),
    ensures
        forall|k: int| 0 <= k < final(result)@.len() ==> #[trigger] is_minotaur_turn(*state, player, must_climb, final(result)@[k].action.0),
        old(result)@.len() <= final(result)@.len(),
        forall|k: int| 0 <= k < old(result)@.len() ==> #[trigger] final(result)@[k] == old(result)@[k],
        flags & STOP_ON_MATE == 0 ==> forall|data: u32| #[trigger] is_minotaur_turn(*state, player, must_climb, data) && is_listed_by_flags(flags, key_squares, data) && field_at(data, 0) == worker_start_pos
            && !is_winning_data(data) && worker_moves.has(field_at(data, 5) as int) ==> lists_word(final(result)@, data),
{
    broadcast use group_bit_lemmas;

    proof {
        crate::generic::lemma_no_flags(flags);
    }
    let ghost start_list = result@;

    let ghost p = player.idx();
    let start_height = prelude.board.get_height(worker_start_pos);
    let other_own_workers = prelude.own_workers.minus(BitBoard::as_mask(worker_start_pos));
    let entries = worker_moves.squares();
    let mut ei: usize = 0;
    while ei < entries.len()
        invariant
            ei <= entries@.len(),
            state.board.wf(),
            prelude.inv(),
            prelude.board == state.board,
            prelude.player == player,
            prelude.other_god == state.gods[1 - player.idx()],
            p == player.idx(),
            worker_start_pos < 25,
            start_height == state.board.height(worker_start_pos as int),
            is_acting_worker(*state, player, worker_start_pos as int),
            forall|i: int| #[trigger] other_own_workers.has(i) == (state.board.workers[p].has(i) && i != worker_start_pos),
            forall|i: int| #[trigger] blocked_squares.has(i) == (state.board.occupied(i) || (is_square(i) && state.board.height(i) == 4)),
            forall|i: int| #[trigger] worker_moves.has(i) ==> is_adjacent(worker_start_pos as int, i) && !state.board.workers[p].has(i)
                && state.board.height(i) < 4 && state.board.height(i) <= state.board.height(worker_start_pos as int) + 1 && (must_climb
                ==> state.board.height(i) == state.board.height(worker_start_pos as int) + 1),
            forall|k: int| 0 <= k < entries@.len() ==> #[trigger] entries@[k] < 25 && worker_moves.has(entries@[k] as int),
            forall|k: int| 0 <= k < result@.len() ==> #[trigger] is_minotaur_turn(*state, player, must_climb, result@[k].action.0),
            start_list.len() <= result@.len(),
            forall|k: int| 0 <= k < start_list.len() ==> #[trigger] result@[k] == start_list[k],
            flags & NARROWING_FLAGS == 0 ==> flags & 8 == 0,
            flags & STOP_ON_MATE == 0 ==> forall|data: u32| #[trigger] is_minotaur_turn(*state, player, must_climb, data) && is_listed_by_flags(flags, key_squares, data) && field_at(data, 0) == worker_start_pos
            && !is_winning_data(data) && (exists|j: int| 0 <= j < ei && entries@[j] as u32 == field_at(data, 5))
                ==> lists_word(result@, data),
        decreases entries@.len() - ei,
    {
        let entry_pos = entries[ei];
        ei = ei + 1;
        proof {
            assert(worker_moves.has(entry_pos as int));
        }
        let entry_mask = BitBoard::as_mask(entry_pos);
        let worker_end_pos = entry_pos;
        let worker_end_mask = entry_mask;
        let end_height = prelude.board.get_height(worker_end_pos);
        if start_height == 2 && end_height == 3 {
            // A climb onto level 3 was offered as a win.
        } else {
            let mut push_to_field: u8 = 25;
            let mut push_to_mask = BitBoard::empty();
            let mut final_build_mask = prelude.build_mask;
            let mut other_workers_post_push = prelude.oppo_workers;
            let mut can_step = true;
            let entry_oppo = entry_mask.and(prelude.oppo_workers);
            proof {
                assert(entry_oppo.has(entry_pos as int) == state.board.workers[1 - p].has(entry_pos as int));
            }
            if entry_oppo.is_not_empty() {
                match push_mapping(worker_start_pos, entry_pos) {
                    Some(push_to) => {
                        let tmp_push_to_mask = BitBoard::as_mask(push_to);
                        let push_blocked = tmp_push_to_mask.and(blocked_squares);
                        if push_blocked.is_empty() {
                            proof {
                                assert(!push_blocked.has(push_to as int));
                            }
                            push_to_field = push_to;
                            push_to_mask = tmp_push_to_mask;
                            other_workers_post_push = prelude.oppo_workers.xor(push_to_mask).xor(entry_mask);
                            final_build_mask = prelude.other_god.get_build_mask(other_workers_post_push).or(prelude.exactly_level_3);
                            proof {
                                assert(!blocked_squares.has(push_to as int));
                                assert(prelude.oppo_workers.has(entry_pos as int));
                            }
                        } else {
                            can_step = false;
                        }
                    },
                    None => {
                        can_step = false;
                    },
                }
            }
            proof {
                if flags & STOP_ON_MATE == 0 {
                    assert forall|data: u32| #[trigger] is_minotaur_turn(*state, player, must_climb, data) && is_listed_by_flags(flags, key_squares, data) && field_at(data, 0) == worker_start_pos
            && !is_winning_data(data) && field_at(data, 5) == worker_end_pos implies field_at(data, 15) == push_to_field && can_step by {
                        if state.board.workers[1 - p].has(worker_end_pos as int) {
                            let q = field_at(data, 15);
                            assert(is_beyond(worker_start_pos as int, worker_end_pos as int, q as int));
                        }
                    }
                }
            }
            if can_step {
                proof {
                    assert(prelude.oppo_workers.has(entry_pos as int) == (push_to_field != 25));
                    assert forall|i: int| #[trigger] other_workers_post_push.has(i) == is_oppo_after_push(
                        state.board,
                        p,
                        entry_pos as int,
                        push_to_field as int,
                        i,
                    ) by {}
                    assert forall|i: int| #[trigger] final_build_mask.has(i) implies minotaur_build_allowed(
                        *state,
                        p,
                        entry_pos as int,
                        push_to_field as int,
                        i,
                    ) by {
                        if state.gods[1 - p].is_limus_spec() && !(is_square(i) && state.board.height(i) == 3) {
                            if push_to_field == 25 {
                                assert(prelude.build_mask.has(i));
                                if exists|s: int| 0 <= s < 25 && #[trigger] is_oppo_after_push(state.board, p, entry_pos as int, 25, s)
                                    && is_adjacent(s, i) {
                                    let s = choose|s: int| 0 <= s < 25 && #[trigger] is_oppo_after_push(state.board, p, entry_pos as int, 25, s)
                                        && is_adjacent(s, i);
                                    assert(state.board.workers[1 - p].has(s));
                                }
                            } else {
                                if exists|s: int| 0 <= s < 25 && #[trigger] is_oppo_after_push(
                                    state.board,
                                    p,
                                    entry_pos as int,
                                    push_to_field as int,
                                    s,
                                ) && is_adjacent(s, i) {
                                    let s = choose|s: int| 0 <= s < 25 && #[trigger] is_oppo_after_push(
                                        state.board,
                                        p,
                                        entry_pos as int,
                                        push_to_field as int,
                                        s,
                                    ) && is_adjacent(s, i);
                                    assert(other_workers_post_push.has(s));
                                }
                            }
                        }
                    }
                }
                let is_improving = end_height > start_height;
                let mut worker_builds = neighbor_mask(worker_end_pos).minus(
                    other_workers_post_push.or(other_own_workers).or(prelude.domes_and_frozen),
                ).and(final_build_mask);
                let ghost unfiltered = worker_builds;
                let touched = worker_end_mask.or(push_to_mask).and(key_squares);
                if is_interact_with_key_squares(flags) {
                    if touched.is_empty() {
                        worker_builds = worker_builds.and(key_squares);
                    }
                }
                let free_move_spaces = other_own_workers.or(prelude.domes_and_frozen).or(worker_end_mask).not();
                let builds = worker_builds.squares();
                proof {
                    if flags & STOP_ON_MATE == 0 {
                        assert forall|b: int| 0 <= b < 25 && is_adjacent(worker_end_pos as int, b)
                            && build_kept_by_flags(flags, key_squares, worker_end_pos as int, push_to_field as int, b)
                            && !(state.board.workers[p].has(b) && b != worker_start_pos) && !is_oppo_after_push(
                            state.board,
                            p,
                            worker_end_pos as int,
                            push_to_field as int,
                            b,
                        ) && state.board.height(b) < 4 && #[trigger] minotaur_build_allowed(
                            *state,
                            p,
                            worker_end_pos as int,
                            push_to_field as int,
                            b,
                        ) implies builds@.contains(b as u8) by {
                            assert(!other_workers_post_push.has(b));
                            assert(!other_own_workers.has(b));
                            assert(!prelude.domes_and_frozen.has(b));
                            if state.gods[1 - p].is_limus_spec() && state.board.height(b) != 3 {
                                if push_to_field == 25 {
                                    assert forall|s: int| 0 <= s < 25 && #[trigger] state.board.workers[1 - p].has(s) implies !is_adjacent(s, b) by {
                                        assert(is_oppo_after_push(state.board, p, worker_end_pos as int, 25, s));
                                    }
                                    assert(prelude.build_mask.has(b));
                                } else {
                                    assert forall|s: int| 0 <= s < 25 && #[trigger] other_workers_post_push.has(s) implies !is_adjacent(s, b) by {
                                        assert(is_oppo_after_push(state.board, p, worker_end_pos as int, push_to_field as int, s));
                                    }
                                }
                            }
                            if state.board.height(b) == 3 {
                                assert(prelude.exactly_level_3.has(b));
                            }
                            assert(final_build_mask.has(b));
                            assert(unfiltered.has(b));
                            if key_squares.has(worker_end_pos as int) {
                                assert(touched.has(worker_end_pos as int));
                            }
                            if push_to_field != 25 && key_squares.has(push_to_field as int) {
                                assert(push_to_mask.has(push_to_field as int));
                                assert(touched.has(push_to_field as int));
                            }
                            assert(worker_builds.has(b));
                        }
                    }
                }
                let mut bi: usize = 0;
                while bi < builds.len()
                    invariant
                        bi <= builds@.len(),
                        prelude.inv(),
                        prelude.board == state.board,
                        prelude.player == player,
                        p == player.idx(),
                        worker_start_pos < 25,
                        worker_end_pos < 25,
                        push_to_field <= 25,
                        is_acting_worker(*state, player, worker_start_pos as int),
                        is_adjacent(worker_start_pos as int, worker_end_pos as int),
                        !state.board.workers[p].has(worker_end_pos as int),
                        state.board.height(worker_end_pos as int) < 4,
                        state.board.height(worker_end_pos as int) <= state.board.height(worker_start_pos as int) + 1,
                        must_climb ==> state.board.height(worker_end_pos as int) == state.board.height(worker_start_pos as int) + 1,
                        !is_win_step(false, state.board.height(worker_start_pos as int), state.board.height(worker_end_pos as int)),
                        (push_to_field == 25) == !state.board.workers[1 - p].has(worker_end_pos as int),
                        push_to_field != 25 ==> is_beyond(worker_start_pos as int, worker_end_pos as int, push_to_field as int)
                            && !state.board.occupied(push_to_field as int) && state.board.height(push_to_field as int) < 4,
                        forall|k: int| 0 <= k < builds@.len() ==> #[trigger] builds@[k] < 25 && is_adjacent(
                            worker_end_pos as int,
                            builds@[k] as int,
                        ) && !(state.board.workers[p].has(builds@[k] as int) && builds@[k] != worker_start_pos) && !is_oppo_after_push(
                            state.board,
                            p,
                            worker_end_pos as int,
                            push_to_field as int,
                            builds@[k] as int,
                        ) && state.board.height(builds@[k] as int) < 4 && minotaur_build_allowed(
                            *state,
                            p,
                            worker_end_pos as int,
                            push_to_field as int,
                            builds@[k] as int,
                        ),
                        forall|k: int| 0 <= k < result@.len() ==> #[trigger] is_minotaur_turn(*state, player, must_climb, result@[k].action.0),
                        start_list.len() <= result@.len(),
                        forall|k: int| 0 <= k < start_list.len() ==> #[trigger] result@[k] == start_list[k],
                        flags & STOP_ON_MATE == 0 ==> forall|data: u32| #[trigger] is_minotaur_turn(*state, player, must_climb, data) && is_listed_by_flags(flags, key_squares, data) && field_at(data, 0) == worker_start_pos
            && !is_winning_data(data) && (exists|j: int| 0 <= j < ei - 1 && entries@[j] as u32 == field_at(data, 5))
                            ==> lists_word(result@, data),
                        flags & STOP_ON_MATE == 0 ==> forall|data: u32| #[trigger] is_minotaur_turn(*state, player, must_climb, data) && is_listed_by_flags(flags, key_squares, data) && field_at(data, 0) == worker_start_pos
            && !is_winning_data(data) && field_at(data, 5) == worker_end_pos && (exists|j: int| 0 <= j < bi && builds@[j] as u32 == field_at(data, 10))
                            ==> lists_word(result@, data),
                        flags & STOP_ON_MATE == 0 ==> forall|b: int| 0 <= b < 25 && is_adjacent(worker_end_pos as int, b)
                            && build_kept_by_flags(flags, key_squares, worker_end_pos as int, push_to_field as int, b)
                            && !(state.board.workers[p].has(b) && b != worker_start_pos) && !is_oppo_after_push(
                            state.board,
                            p,
                            worker_end_pos as int,
                            push_to_field as int,
                            b,
                        ) && state.board.height(b) < 4 && #[trigger] minotaur_build_allowed(
                            *state,
                            p,
                            worker_end_pos as int,
                            push_to_field as int,
                            b,
                        ) ==> builds@.contains(b as u8),
                        flags & STOP_ON_MATE == 0 ==> forall|data: u32| #[trigger] is_minotaur_turn(*state, player, must_climb, data) && is_listed_by_flags(flags, key_squares, data) && field_at(data, 0) == worker_start_pos
            && !is_winning_data(data) && field_at(data, 5) == worker_end_pos ==> field_at(data, 15) == push_to_field,
                    decreases builds@.len() - bi,
                {
                    let worker_build_pos = builds[bi];
                    bi = bi + 1;
                    let worker_build_mask = BitBoard::as_mask(worker_build_pos);
                    let new_action = if push_to_field != 25 {
                        MinotaurMove::new_minotaur_push_move(worker_start_pos, worker_end_pos, worker_build_pos, push_to_field)
                    } else {
                        MinotaurMove::new_minotaur_move(worker_start_pos, worker_end_pos, worker_build_pos)
                    };
                    let is_check = minotaur_is_check(
                        prelude,
                        other_own_workers,
                        worker_end_mask,
                        worker_build_mask,
                        free_move_spaces,
                        other_workers_post_push,
                    );
                    let ghost before = result@;
                    result.push(build_scored_move(flags, new_action.to_generic(), is_check, is_improving));
                    proof {
                        lemma_lists_word_grows(before, result@);
                        assert(result@[before.len() as int].action.0 == minotaur_data(worker_start_pos as u32, worker_end_pos as u32, worker_build_pos as u32, push_to_field as u32));
                        lemma_minotaur_words(worker_start_pos as u32, worker_end_pos as u32, worker_build_pos as u32, push_to_field as u32);
                        assert forall|k: int| 0 <= k < result@.len() implies #[trigger] is_minotaur_turn(
                            *state,
                            player,
                            must_climb,
                            result@[k].action.0,
                        ) by {
                            if k < before.len() {
                                assert(result@[k] == before[k]);
                            }
                        }
                    }
                }
                proof {
                    if flags & STOP_ON_MATE == 0 {
                        assert forall|data: u32| #[trigger] is_minotaur_turn(*state, player, must_climb, data) && is_listed_by_flags(flags, key_squares, data) && field_at(data, 0) == worker_start_pos
            && !is_winning_data(data) && field_at(data, 5) == worker_end_pos implies lists_word(result@, data) by {
                            let b = field_at(data, 10);
                            assert(builds@.contains(b as u8));
                            let jb = choose|jb: int| 0 <= jb < builds@.len() && builds@[jb] == b as u8;
                            assert(builds@[jb] as u32 == field_at(data, 10));
                        }
                    }
                }
            }
        }
        proof {
            if flags & STOP_ON_MATE == 0 {
                assert forall|data: u32| #[trigger] is_minotaur_turn(*state, player, must_climb, data) && is_listed_by_flags(flags, key_squares, data) && field_at(data, 0) == worker_start_pos
            && !is_winning_data(data) && (exists|j: int| 0 <= j < ei && entries@[j] as u32 == field_at(data, 5))
                    implies lists_word(result@, data) by {
                    let j = choose|j: int| 0 <= j < ei && entries@[j] as u32 == field_at(data, 5);
                    if j == ei - 1 {
                        assert(#[trigger] is_minotaur_turn(*state, player, must_climb, data) && field_at(data, 0) == worker_start_pos
            && !is_winning_data(data) && field_at(data, 5) == worker_end_pos);
                    }
                }
            }
        }
    }
    proof {
        if flags & STOP_ON_MATE == 0 {
            assert forall|data: u32| #[trigger] is_minotaur_turn(*state, player, must_climb, data) && is_listed_by_flags(flags, key_squares, data) && field_at(data, 0) == worker_start_pos
            && !is_winning_data(data) && worker_moves.has(field_at(data, 5) as int) implies lists_word(result@, data) by {
                let to = field_at(data, 5);
                assert(entries@.contains(to as u8));
                let j = choose|j: int| 0 <= j < entries@.len() && entries@[j] == to as u8;
                assert(entries@[j] as u32 == field_at(data, 5));
            }
        }
    }
}

/// A square a level 2 worker would win on next turn: level 3 once this turn's build is on, on
/// the board and free to move to.
pub open spec fn minotaur_check_dest(prelude: GeneratorPreludeState, build: BitBoard, free: BitBoard, d: int) -> bool {
    &&& (prelude.exactly_level_2.has(d) && build.has(d)) || (prelude.exactly_level_3.has(d) && !build.has(d))
    &&& is_square(d)
    &&& free.has(d)
}

/// A square an opposing worker cannot be pushed onto: a worker's, a dome, or the level 3 square
/// just domed.
pub open spec fn minotaur_push_blocked(
    prelude: GeneratorPreludeState,
    other: BitBoard,
    end: BitBoard,
    build: BitBoard,
    post: BitBoard,
    t: int,
) -> bool {
    other.has(t) || end.has(t) || prelude.domes_and_frozen.has(t) || (prelude.exactly_level_3.has(t) && build.has(t))
        || post.has(t)
}

/// Whether the worker on `w` could win next turn: onto a neighbouring winning square that is
/// empty, or that an opposing worker holds and can be pushed off.
pub open spec fn minotaur_check_from(
    prelude: GeneratorPreludeState,
    other: BitBoard,
    end: BitBoard,
    build: BitBoard,
    free: BitBoard,
    post: BitBoard,
    w: int,
) -> bool {
    exists|d: int|
        is_adjacent(w, d) && #[trigger] minotaur_check_dest(prelude, build, free, d) && (!post.has(d) || exists|t: int|
            #[trigger] is_beyond(w, d, t) && !minotaur_push_blocked(prelude, other, end, build, post, t))
}

/// Whether the player threatens a win next turn: a worker on level 2 next to a level 3 square it
/// can step onto, or push an opposing worker off.
fn minotaur_is_check(
    prelude: &GeneratorPreludeState,
    other_own_workers: BitBoard,
    worker_end_mask: BitBoard,
    worker_build_mask: BitBoard,
    free_move_spaces: BitBoard,
    other_workers_post_push: BitBoard,
) -> (r: bool)
    requires
        prelude.inv(),
    ensures
        r == (!(prelude.is_against_hypnus && popcount((other_own_workers.0 | worker_end_mask.0) & prelude.exactly_level_2.0, 32)
            < 2) && exists|w: int|
            0 <= w < 25 && (other_own_workers.has(w) || worker_end_mask.has(w)) && prelude.exactly_level_2.has(w)
                && #[trigger] minotaur_check_from(
                *prelude,
                other_own_workers,
                worker_end_mask,
                worker_build_mask,
                free_move_spaces,
                other_workers_post_push,
                w,
            )),
{
    broadcast use group_bit_lemmas;

    let ghost other = other_own_workers;
    let ghost end = worker_end_mask;
    let ghost build = worker_build_mask;
    let ghost free = free_move_spaces;
    let ghost post = other_workers_post_push;
    let final_level_3 = prelude.exactly_level_2.and(worker_build_mask).or(prelude.exactly_level_3.minus(worker_build_mask));
    let possible_dest_board = final_level_3.and(prelude.win_mask).and(free_move_spaces);
    let checkable_own_workers = other_own_workers.or(worker_end_mask).and(prelude.exactly_level_2);
    let not_other_pushed_workers = other_workers_post_push.not();
    if prelude.is_against_hypnus && checkable_own_workers.count_ones() < 2 {
        return false;
    }
    let blocked_for_final_push_squares = other_own_workers.or(worker_end_mask).or(prelude.domes_and_frozen).or(
        prelude.exactly_level_3.and(worker_build_mask),
    ).or(other_workers_post_push);
    let workers = checkable_own_workers.squares();
    let mut wi: usize = 0;
    while wi < workers.len()
        invariant
            wi <= workers@.len(),
            prelude.inv(),
            forall|k: int| 0 <= k < workers@.len() ==> #[trigger] workers@[k] < 25 && checkable_own_workers.has(workers@[k] as int),
            other == other_own_workers,
            end == worker_end_mask,
            build == worker_build_mask,
            free == free_move_spaces,
            post == other_workers_post_push,
            forall|i: int| #[trigger] possible_dest_board.has(i) == minotaur_check_dest(*prelude, build, free, i),
            forall|i: int| 0 <= i < 32 ==> #[trigger] not_other_pushed_workers.has(i) == !post.has(i),
            forall|i: int| #[trigger] blocked_for_final_push_squares.has(i) == minotaur_push_blocked(*prelude, other, end, build, post, i),
            forall|k: int| 0 <= k < wi ==> !#[trigger] minotaur_check_from(*prelude, other, end, build, free, post, workers@[k] as int),
            !(prelude.is_against_hypnus && popcount((other.0 | end.0) & prelude.exactly_level_2.0, 32) < 2),
            forall|i: int| #[trigger] checkable_own_workers.has(i) == ((other.has(i) || end.has(i)) && prelude.exactly_level_2.has(i)),
        decreases workers@.len() - wi,
    {
        let worker = workers[wi];
        proof {
            assert(checkable_own_workers.has(workers@[wi as int] as int));
        }
        wi = wi + 1;
        let ns = neighbor_mask(worker).and(possible_dest_board);
        let free_ns = ns.and(not_other_pushed_workers);
        if free_ns.is_not_empty() {
            proof {
                let d = choose|d: int| #[trigger] free_ns.has(d);
                assert(minotaur_check_dest(*prelude, build, free, d));
                assert(minotaur_check_from(*prelude, other, end, build, free, post, worker as int));
            }
            return true;
        }
        let ns_pushed = ns.and(other_workers_post_push);
        let pushed = ns_pushed.squares();
        let mut oi: usize = 0;
        while oi < pushed.len()
            invariant
                oi <= pushed@.len(),
                worker < 25,
                forall|k: int| 0 <= k < pushed@.len() ==> #[trigger] pushed@[k] < 25 && ns_pushed.has(pushed@[k] as int),
                other == other_own_workers,
                end == worker_end_mask,
                build == worker_build_mask,
                free == free_move_spaces,
                post == other_workers_post_push,
                forall|i: int| #[trigger] ns_pushed.has(i) == (ns.has(i) && post.has(i)),
                forall|i: int| #[trigger] ns.has(i) == (is_adjacent(worker as int, i) && possible_dest_board.has(i)),
                forall|i: int| #[trigger] possible_dest_board.has(i) == minotaur_check_dest(*prelude, build, free, i),
                !(prelude.is_against_hypnus && popcount((other.0 | end.0) & prelude.exactly_level_2.0, 32) < 2),
                checkable_own_workers.has(worker as int),
                worker < 25,
                forall|i: int| #[trigger] checkable_own_workers.has(i) == ((other.has(i) || end.has(i)) && prelude.exactly_level_2.has(i)),
                forall|i: int| #[trigger] blocked_for_final_push_squares.has(i) == minotaur_push_blocked(*prelude, other, end, build, post, i),
                forall|k: int, t: int| 0 <= k < oi && #[trigger] is_beyond(worker as int, pushed@[k] as int, t) ==> minotaur_push_blocked(
                    *prelude,
                    other,
                    end,
                    build,
                    post,
                    t,
                ),
            decreases pushed@.len() - oi,
        {
            let o = pushed[oi];
            oi = oi + 1;
            match push_mapping(worker, o) {
                Some(push_to) => {
                    let landing = BitBoard::as_mask(push_to).and(blocked_for_final_push_squares);
                    if landing.is_empty() {
                        proof {
                            assert(!landing.has(push_to as int));
                            assert(ns.has(o as int));
                            assert(minotaur_check_dest(*prelude, build, free, o as int));
                            assert(minotaur_check_from(*prelude, other, end, build, free, post, worker as int));
                        }
                        return true;
                    }
                    proof {
                        assert(landing.has(push_to as int));
                        assert forall|k: int, t: int| 0 <= k < oi && #[trigger] is_beyond(worker as int, pushed@[k] as int, t) implies minotaur_push_blocked(
                            *prelude,
                            other,
                            end,
                            build,
                            post,
                            t,
                        ) by {
                            if k == oi - 1 {
                                crate::square::lemma_beyond_unique(worker as int, o as int, t, push_to as int);
                            }
                        }
                    }
                },
                None => {},
            }
        }
        proof {
            assert(!minotaur_check_from(*prelude, other, end, build, free, post, worker as int)) by {
                if minotaur_check_from(*prelude, other, end, build, free, post, worker as int) {
                    let d = choose|d: int|
                        is_adjacent(worker as int, d) && #[trigger] minotaur_check_dest(*prelude, build, free, d) && (!post.has(d)
                            || exists|t: int| #[trigger] is_beyond(worker as int, d, t) && !minotaur_push_blocked(*prelude, other, end, build, post, t));
                    assert(ns.has(d));
                    if !post.has(d) {
                        assert(free_ns.has(d));
                    } else {
                        assert(ns_pushed.has(d));
                        assert(pushed@.contains(d as u8));
                        let k = choose|k: int| 0 <= k < pushed@.len() && pushed@[k] == d as u8;
                        let t = choose|t: int| #[trigger] is_beyond(worker as int, d, t) && !minotaur_push_blocked(*prelude, other, end, build, post, t);
                        assert(is_beyond(worker as int, pushed@[k] as int, t));
                    }
                }
            }
        }
    }
    proof {
        assert forall|w: int|
            0 <= w < 25 && (other.has(w) || end.has(w)) && prelude.exactly_level_2.has(w) implies !#[trigger] minotaur_check_from(
            *prelude,
            other,
            end,
            build,
            free,
            post,
            w,
        ) by {
            assert(checkable_own_workers.has(w));
            assert(workers@.contains(w as u8));
            let k = choose|k: int| 0 <= k < workers@.len() && workers@[k] == w as u8;
            assert(!minotaur_check_from(*prelude, other, end, build, free, post, workers@[k] as int));
        }
    }
    false
}

/// Minotaur's fixed data.
pub fn build_minotaur() -> (r: GodPower)
    ensures
        r.god_name == GodName::Minotaur,
        r.hash1 == 16532879311019593353u64,
        r.hash2 == 196173323035994051u64,
        r.placement_type == PlacementType::Normal,
        r.symmetry == BoardSymmetry::Full,
        !r.is_persephone,
{
    god_power(GodName::Minotaur, 16532879311019593353, 196173323035994051)
}

/// How a turn of this god changes the board: the workers, the heights, the god data and the
/// winner after it, and whose turn it is, are those of `after`.
pub open spec fn minotaur_move_effect(before: BoardState, after: BoardState, player: Player, data: u32) -> bool {
    &&& after.current_player == before.current_player
    &&& after.god_data == before.god_data
    &&& after.workers[player.idx()].0 == before.workers[player.idx()].0 ^ ((1u32 << field_at(data, 0)) ^ (1u32 << field_at(data, 5)))
    &&& (field_at(data, 15) == 25 ==> after.workers[1 - player.idx()] == before.workers[1 - player.idx()])
    &&& (field_at(data, 15) != 25 ==> after.workers[1 - player.idx()].0 == before.workers[1 - player.idx()].0 ^ ((1u32 << field_at(data, 5)) ^ (1u32 << field_at(data, 15))))
    &&& (is_winning_data(data) ==> after.winner == Some(player) && after.height_map == before.height_map)
    &&& (!is_winning_data(data) ==> after.winner == before.winner)
    &&& (!is_winning_data(data) ==> forall|i: int| #[trigger] after.height(i) == (if i == field_at(data, 10) { before.height(i) + 1 } else { before.height(i) }))
}

} // verus!
