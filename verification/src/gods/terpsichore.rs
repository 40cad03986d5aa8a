use vstd::prelude::*;

use crate::bitboard::{group_bit_lemmas, lemma_squares_below, neighbor_mask, BitBoard, MAIN_SECTION};
use crate::board::{BoardState, FullGameState, Player};
use crate::generic::{
    build_scored_move, field_at, is_interact_with_key_squares, is_mate_only, is_stop_on_mate, is_winning_data, lemma_pack4,
    lemma_pack5, lemma_pack6, read_position, GenericMove, MoveData, MoveGenFlags, ScoredMove, ANY_MOVE_FILTER,
    MOVE_IS_WINNING_MASK, NARROWING_FLAGS,
};
use crate::gods::mortal::{
    is_acting_worker, is_standard_build_for, is_win_step, lemma_acting_in_prelude, lemma_lists_word_grows, lemma_prelude_acting,
    lemma_toggle_keeps_wf, lists_word,
};
use crate::gods::move_helpers::{
    get_basic_moves_from_raw_data_with_custom_blockers, get_generator_prelude_state, get_sized_result,
    get_standard_reach_board, get_worker_end_move_state, get_worker_next_build_state, get_worker_next_move_state,
    get_worker_start_move_state, is_standard_step, is_step_with_blockers, is_winning_entry, push_winning_moves,
    GeneratorPreludeState,
};
use crate::square::{is_adjacent, is_square, Square};
use crate::gods::{BoardSymmetry, PlacementType, god_power, GodName, GodPower};

verus! {

/// A Terpsichore turn: each worker moves and builds in turn; one of them alone, or both.
#[derive(Clone, Copy, PartialEq, Eq, Structural, Debug)]
pub struct TerpsichoreMove(pub MoveData);

impl TerpsichoreMove {
    pub fn new_basic_move(from: Square, to: Square, build: Square) -> (r: Self)
        requires
            from < 25,
            to < 25,
            build < 25,
        ensures
            r.0 == (from as u32) | ((to as u32) << 5u32) | ((build as u32) << 10u32) | (25u32 << 15u32) | (0u32 << 20u32) | (25u32 << 25u32),
    {
        Self((from as u32) | ((to as u32) << 5u32) | ((build as u32) << 10u32) | (25u32 << 15u32) | (0u32 << 20u32) | (25u32 << 25u32))
    }

    pub fn new_winning_single_move(from: Square, to: Square) -> (r: Self)
        requires
            from < 25,
            to < 25,
        ensures
            r.0 == (from as u32) | ((to as u32) << 5u32) | (0u32 << 10u32) | (25u32 << 15u32) | MOVE_IS_WINNING_MASK,
    {
        Self((from as u32) | ((to as u32) << 5u32) | (0u32 << 10u32) | (25u32 << 15u32) | MOVE_IS_WINNING_MASK)
    }

    /// Both workers move and build, one after the other.
    pub fn new_double_move(from1: Square, to1: Square, b1: Square, from2: Square, to2: Square, b2: Square) -> (r: Self)
        requires
            from1 < 25,
            to1 < 25,
            b1 < 25,
            from2 < 25,
            to2 < 25,
            b2 < 25,
        ensures
            r.0 == (from1 as u32) | ((to1 as u32) << 5u32) | ((b1 as u32) << 10u32) | ((from2 as u32) << 15u32) | ((to2 as u32) << 20u32) | ((b2 as u32) << 25u32),
    {
        Self((from1 as u32) | ((to1 as u32) << 5u32) | ((b1 as u32) << 10u32) | ((from2 as u32) << 15u32) | ((to2 as u32) << 20u32) | ((b2 as u32) << 25u32))
    }

    /// One worker steps aside and the other wins.
    pub fn new_winning_double_move(vacator_from: Square, vacator_to: Square, winner_from: Square, winner_to: Square) -> (r: Self)
        requires
            vacator_from < 25,
            vacator_to < 25,
            winner_from < 25,
            winner_to < 25,
        ensures
            r.0 == (vacator_from as u32) | ((vacator_to as u32) << 5u32) | (0u32 << 10u32) | ((winner_from as u32) << 15u32) | ((winner_to as u32) << 20u32) | MOVE_IS_WINNING_MASK,
    {
        Self((vacator_from as u32) | ((vacator_to as u32) << 5u32) | (0u32 << 10u32) | ((winner_from as u32) << 15u32) | ((winner_to as u32) << 20u32) | MOVE_IS_WINNING_MASK)
    }

    pub fn move_from_position_1(&self) -> (r: Square)
        ensures
            r == field_at(self.0, 0),
            r < 32,
    {
        read_position(self.0, 0)
    }

    pub fn move_to_position_1(&self) -> (r: Square)
        ensures
            r == field_at(self.0, 5),
            r < 32,
    {
        read_position(self.0, 5)
    }

    /// Where the second worker starts, if it moves.
    pub fn maybe_move_from_position_2(&self) -> (r: Option<Square>)
        ensures
            field_at(self.0, 15) < 32,
            r == (if field_at(self.0, 15) == 25 {
                None
            } else {
                Some(field_at(self.0, 15) as u8)
            }),
    {
        let value = read_position(self.0, 15);
        if value == 25 {
            None
        } else {
            Some(value)
        }
    }

    pub fn move_to_position_2(&self) -> (r: Square)
        ensures
            r == field_at(self.0, 20),
            r < 32,
    {
        read_position(self.0, 20)
    }

    pub fn build_position_1(&self) -> (r: Square)
        ensures
            r == field_at(self.0, 10),
            r < 32,
    {
        read_position(self.0, 10)
    }

    pub fn build_position_2(&self) -> (r: Square)
        ensures
            r == field_at(self.0, 25),
            r < 32,
    {
        read_position(self.0, 25)
    }

    pub fn get_is_winning(&self) -> (r: bool)
        ensures
            r == is_winning_data(self.0),
    {
        (self.0 & MOVE_IS_WINNING_MASK) != 0
    }
}

/// A Terpsichore double move reads back what it was built from.
pub proof fn lemma_terpsichore_move_round_trip(from1: u32, to1: u32, b1: u32, from2: u32, to2: u32, b2: u32)
    requires
        from1 < 25,
        to1 < 25,
        b1 < 25,
        from2 <= 25,
        to2 < 25,
        b2 <= 25,
    ensures
        field_at(from1 | (to1 << 5u32) | (b1 << 10u32) | (from2 << 15u32) | (to2 << 20u32) | (b2 << 25u32), 0) == from1,
        field_at(from1 | (to1 << 5u32) | (b1 << 10u32) | (from2 << 15u32) | (to2 << 20u32) | (b2 << 25u32), 5) == to1,
        field_at(from1 | (to1 << 5u32) | (b1 << 10u32) | (from2 << 15u32) | (to2 << 20u32) | (b2 << 25u32), 10) == b1,
        field_at(from1 | (to1 << 5u32) | (b1 << 10u32) | (from2 << 15u32) | (to2 << 20u32) | (b2 << 25u32), 15) == from2,
        field_at(from1 | (to1 << 5u32) | (b1 << 10u32) | (from2 << 15u32) | (to2 << 20u32) | (b2 << 25u32), 20) == to2,
        field_at(from1 | (to1 << 5u32) | (b1 << 10u32) | (from2 << 15u32) | (to2 << 20u32) | (b2 << 25u32), 25) == b2,
        !is_winning_data(from1 | (to1 << 5u32) | (b1 << 10u32) | (from2 << 15u32) | (to2 << 20u32) | (b2 << 25u32)),
{
    lemma_pack6(from1, to1, b1, from2, to2, b2);
}

/// The word of a lone worker's move and build.
pub open spec fn terpsichore_single_data(from: u32, to: u32, build: u32) -> u32 {
    from | (to << 5u32) | (build << 10u32) | (25u32 << 15u32) | (0u32 << 20u32) | (25u32 << 25u32)
}

/// The word of a winning step.
pub open spec fn terpsichore_win_data(from: u32, to: u32) -> u32 {
    from | (to << 5u32) | (0u32 << 10u32) | (25u32 << 15u32) | MOVE_IS_WINNING_MASK
}

/// The word of a turn where both workers move and build.
pub open spec fn terpsichore_double_data(from1: u32, to1: u32, b1: u32, from2: u32, to2: u32, b2: u32) -> u32 {
    from1 | (to1 << 5u32) | (b1 << 10u32) | (from2 << 15u32) | (to2 << 20u32) | (b2 << 25u32)
}

/// The word of a win where one worker steps aside and the other climbs where it stood.
pub open spec fn terpsichore_vacate_win_data(vacator_from: u32, vacator_to: u32, winner_from: u32, winner_to: u32) -> u32 {
    vacator_from | (vacator_to << 5u32) | (0u32 << 10u32) | (winner_from << 15u32) | (winner_to << 20u32) | MOVE_IS_WINNING_MASK
}

/// A step that only opposing workers and domes stand in the way of: the player's own workers are
/// moving too.
pub open spec fn is_free_step(board: BoardState, p: int, from: int, to: int) -> bool {
    &&& is_adjacent(from, to)
    &&& !board.workers[1 - p].has(to)
    &&& board.height(to) < 4
    &&& board.height(to) <= board.height(from) + 1
}

/// A square a worker may build on once both workers have moved to `to1` and `to2`.
pub open spec fn is_free_after_double(board: BoardState, p: int, to1: int, to2: int, b: int) -> bool {
    &&& b != to1
    &&& b != to2
    &&& !board.workers[1 - p].has(b)
    &&& board.height(b) < 4
}

/// A legal Terpsichore turn read off its word: a worker on level 2 climbing onto a free level 3
/// square; or one worker stepping off a level 3 square and the other climbing onto it; or, with a
/// lone worker, a plain turn; or both workers stepping, neither climbing onto level 3 from level
/// 2 nor swapping squares, and each building next to where it lands. Persephone's due is applied to
/// the lone worker only.
pub open spec fn is_terpsichore_turn(state: FullGameState, player: Player, must_climb: bool, data: u32) -> bool {
    let board = state.board;
    let p = player.idx();
    let f1 = field_at(data, 0);
    let t1 = field_at(data, 5);
    let b1 = field_at(data, 10);
    let f2 = field_at(data, 15);
    let t2 = field_at(data, 20);
    let b2 = field_at(data, 25);
    if is_winning_data(data) {
        if f2 == 25 {
            &&& data == terpsichore_win_data(f1, t1)
            &&& is_acting_worker(state, player, f1 as int)
            &&& board.height(f1 as int) == 2
            &&& is_free_step(board, p, f1 as int, t1 as int)
            &&& !board.workers[p].has(t1 as int)
            &&& board.height(t1 as int) == 3
        } else {
            &&& data == terpsichore_vacate_win_data(f1, t1, f2, t2)
            &&& t2 == f1
            &&& is_acting_worker(state, player, f2 as int)
            &&& board.height(f2 as int) == 2
            &&& is_free_step(board, p, f2 as int, f1 as int)
            &&& board.workers[p].has(f1 as int)
            &&& board.height(f1 as int) == 3
            &&& is_free_step(board, p, f1 as int, t1 as int)
            &&& t1 != f2
        }
    } else if f2 == 25 {
        &&& data == terpsichore_single_data(f1, t1, b1)
        &&& board.workers[p].has(f1 as int)
        &&& is_standard_step(board, f1 as int, t1 as int, must_climb)
        &&& !is_win_step(false, board.height(f1 as int), board.height(t1 as int))
        &&& is_standard_build_for(state, player, f1 as int, t1 as int, b1 as int)
    } else {
        &&& data == terpsichore_double_data(f1, t1, b1, f2, t2, b2)
        &&& board.workers[p].has(f1 as int)
        &&& board.workers[p].has(f2 as int)
        &&& f1 != f2
        &&& is_free_step(board, p, f1 as int, t1 as int)
        &&& !(board.height(f1 as int) == 2 && board.height(t1 as int) == 3)
        &&& is_free_step(board, p, f2 as int, t2 as int)
        &&& !(board.height(f2 as int) == 2 && board.height(t2 as int) == 3)
        &&& t1 != t2
        &&& !(t1 == f2 && t2 == f1)
        &&& is_adjacent(t1 as int, b1 as int)
        &&& is_free_after_double(board, p, t1 as int, t2 as int, b1 as int)
        &&& is_adjacent(t2 as int, b2 as int)
        &&& is_free_after_double(board, p, t1 as int, t2 as int, b2 as int)
        &&& !(b2 == b1 && board.height(b1 as int) == 3)
    }
}

/// A turn owed a climb is a turn.
pub proof fn lemma_terpsichore_climb_is_turn(state: FullGameState, player: Player, data: u32)
    ensures
        is_terpsichore_turn(state, player, true, data) ==> is_terpsichore_turn(state, player, false, data),
{
}

/// What playing a Terpsichore turn needs, read off the turn.
pub proof fn lemma_terpsichore_turn_playable(state: FullGameState, player: Player, data: u32)
    requires
        state.board.wf(),
        is_terpsichore_turn(state, player, false, data),
    ensures
        field_at(data, 0) < 25,
        field_at(data, 5) < 25,
        state.board.workers[player.idx()].has(field_at(data, 0) as int),
        !state.board.workers[1 - player.idx()].has(field_at(data, 5) as int),
        field_at(data, 15) != 25 ==> field_at(data, 15) < 25 && field_at(data, 20) < 25 && state.board.workers[player.idx()].has(
            field_at(data, 15) as int,
        ) && !state.board.workers[1 - player.idx()].has(field_at(data, 20) as int),
        !is_winning_data(data) ==> field_at(data, 10) < 25 && state.board.height(field_at(data, 10) as int) < 4,
        !is_winning_data(data) && field_at(data, 15) != 25 ==> field_at(data, 25) < 25 && state.board.height(
            field_at(data, 25) as int,
        ) + (if field_at(data, 25) == field_at(data, 10) {
            1int
        } else {
            0int
        }) < 4,
{
    let board = state.board;
    let p = player.idx();
    assert(board.workers[p].within_board());
    assert(!(board.workers[0].has(field_at(data, 0) as int) && board.workers[1].has(field_at(data, 0) as int)));
    assert(!(board.workers[0].has(field_at(data, 15) as int) && board.workers[1].has(field_at(data, 15) as int)));
}

impl TerpsichoreMove {
    /// Plays the turn: the moving workers leave and reach their squares, then the turn wins or each
    /// mover builds.
    pub fn make_move(self, board: &mut BoardState, player: Player)
        requires
            old(board).wf(),
            field_at(self.0, 0) < 25,
            field_at(self.0, 5) < 25,
            old(board).workers[player.idx()].has(field_at(self.0, 0) as int),
            !old(board).workers[1 - player.idx()].has(field_at(self.0, 5) as int),
            field_at(self.0, 15) != 25 ==> field_at(self.0, 15) < 25 && field_at(self.0, 20) < 25 && old(board).workers[player.idx()].has(
                field_at(self.0, 15) as int,
            ) && !old(board).workers[1 - player.idx()].has(field_at(self.0, 20) as int),
            !is_winning_data(self.0) ==> field_at(self.0, 10) < 25 && old(board).height(field_at(self.0, 10) as int) < 4,
            !is_winning_data(self.0) && field_at(self.0, 15) != 25 ==> field_at(self.0, 25) < 25 && old(board).height(
                field_at(self.0, 25) as int,
            ) + (if field_at(self.0, 25) == field_at(self.0, 10) {
                1int
            } else {
                0int
            }) < 4,
        ensures
            final(board).wf(),
            final(board).current_player == old(board).current_player,
            final(board).god_data == old(board).god_data,
            final(board).workers[1 - player.idx()] == old(board).workers[1 - player.idx()],
            field_at(self.0, 15) == 25 ==> final(board).workers[player.idx()].0 == old(board).workers[player.idx()].0 ^ ((1u32
                << field_at(self.0, 0)) ^ (1u32 << field_at(self.0, 5))),
            field_at(self.0, 15) != 25 ==> final(board).workers[player.idx()].0 == old(board).workers[player.idx()].0 ^ ((1u32
                << field_at(self.0, 0)) ^ (1u32 << field_at(self.0, 5)) ^ (1u32 << field_at(self.0, 15)) ^ (1u32 << field_at(
                self.0,
                20,
            ))),
            is_winning_data(self.0) ==> final(board).winner == Some(player) && final(board).height_map == old(board).height_map,
            !is_winning_data(self.0) ==> final(board).winner == old(board).winner,
            !is_winning_data(self.0) && field_at(self.0, 15) == 25 ==> forall|i: int| #[trigger] final(board).height(i) == (if i
                == field_at(self.0, 10) {
                old(board).height(i) + 1
            } else {
                old(board).height(i)
            }),
            !is_winning_data(self.0) && field_at(self.0, 15) != 25 ==> forall|i: int| #[trigger] final(board).height(i) == old(
                board,
            ).height(i) + (if i == field_at(self.0, 10) {
                1nat
            } else {
                0nat
            }) + (if i == field_at(self.0, 25) {
                1nat
            } else {
                0nat
            }),
    {
        broadcast use group_bit_lemmas;

        let ghost before = *board;
        let ghost p = player.idx();
        let base = BitBoard::as_mask(self.move_from_position_1()).xor(BitBoard::as_mask(self.move_to_position_1()));
        let mask = match self.maybe_move_from_position_2() {
            Some(from2) => base.xor(BitBoard::as_mask(from2)).xor(BitBoard::as_mask(self.move_to_position_2())),
            None => base,
        };
        proof {
            assert(before.workers[p].within_board());
            assert(!(before.workers[0].has(field_at(self.0, 0) as int) && before.workers[1].has(field_at(self.0, 0) as int)));
            assert(!(before.workers[0].has(field_at(self.0, 15) as int) && before.workers[1].has(field_at(self.0, 15) as int)));
        }
        board.worker_xor(player, mask);
        proof {
            lemma_toggle_keeps_wf(before, *board, p, mask.0);
        }
        if self.get_is_winning() {
            board.set_winner(player);
            return;
        }
        let ghost moved = *board;
        board.build_up(self.build_position_1());
        if self.maybe_move_from_position_2().is_some() {
            board.build_up(self.build_position_2());
        }
    }

    pub fn to_generic(self) -> (r: GenericMove)
        ensures
            r.0 == self.0,
    {
        GenericMove(self.0)
    }
}

/// The second-worker field of a word where only one worker moves.
const TERPSICHORE_NO_SECOND_MOVE: MoveData = 0x000C_8000;

/// The worker that climbs in a winning word: the one that moves, or the second one when the first
/// steps off the square it climbs onto.
pub open spec fn terpsichore_win_starter(data: u32) -> u32 {
    if field_at(data, 15) == 25 {
        field_at(data, 0)
    } else {
        field_at(data, 15)
    }
}

/// Persephone's rule on a list of Terpsichore turns: when a climbing turn is owed, every listed
/// turn climbs.
pub open spec fn keeps_persephone_rule(state: FullGameState, player: Player, r: Seq<ScoredMove>) -> bool {
    (exists|d: u32| #[trigger] terpsichore_turn_owed(state, player, true, d)) ==> forall|k: int|
        0 <= k < r.len() ==> #[trigger] is_terpsichore_turn(state, player, true, r[k].action.0)
}

/// The turns the generator owes with no narrowing filter on: every winning turn; a double move of
/// the two lowest-numbered workers, the lower one first, with its builds as listed; a single move
/// only of a lone worker; against Persephone, when a climb exists, only the climbing ones.
pub open spec fn terpsichore_turn_owed(state: FullGameState, player: Player, must_climb: bool, data: u32) -> bool {
    let p = player.idx();
    let f1 = field_at(data, 0) as int;
    let f2 = field_at(data, 15) as int;
    &&& is_terpsichore_turn(state, player, must_climb, data)
    &&& !is_winning_data(data) && f2 != 25 ==> double_turn_owed(state, player, must_climb, data) && f1 < f2 && forall|w: int|
        #[trigger] state.board.workers[p].has(w) && w < f2 ==> w == f1
    &&& !is_winning_data(data) && f2 == 25 ==> forall|w: int| #[trigger] state.board.workers[p].has(w) ==> w == f1
    &&& (state.gods[1 - p].is_persephone_spec() && !must_climb && exists|d: u32| #[trigger] is_terpsichore_turn(state, player, true, d))
        ==> is_terpsichore_turn(state, player, true, data)
}

/// Terpsichore's move generator. A worker on level 2 wins by climbing onto a free level 3 square,
/// or onto one of her own worker's that first steps aside. Otherwise both workers move and each
/// builds next to where it lands; with a lone worker, a plain turn. Of two builds that either
/// worker could make, one ordering is kept, and with the flags that stop on a win so is one of
/// two mirrored pairs of steps.
pub fn terpsichore_move_gen(
    flags: MoveGenFlags,
    state: &FullGameState,
    player: Player,
    key_squares: BitBoard,
    must_climb: bool,
) -> (result: Vec<ScoredMove>)
    requires
        state.board.wf(),
    ensures
        forall|k: int| 0 <= k < result@.len() ==> #[trigger] is_terpsichore_turn(*state, player, must_climb, result@[k].action.0),
        flags & NARROWING_FLAGS == 0 ==> forall|data: u32| #[trigger] terpsichore_turn_owed(*state, player, must_climb, data) ==> lists_word(
            result@,
            data,
        ),
        flags & NARROWING_FLAGS == 0 && state.gods[1 - player.idx()].is_persephone_spec() && !must_climb ==> keeps_persephone_rule(
            *state,
            player,
            result@,
        ),
    decreases if must_climb {
        0int
    } else {
        1int
    },
{
    broadcast use group_bit_lemmas;
    proof {
        crate::generic::lemma_no_flags(flags);
    }
    let mut result = if state.gods[player.other().index()].is_persephone() && !must_climb {
        let climbing = terpsichore_move_gen(flags, state, player, key_squares, true);
        proof {
            assert forall|k: int| 0 <= k < climbing@.len() implies #[trigger] is_terpsichore_turn(
                *state,
                player,
                must_climb,
                climbing@[k].action.0,
            ) by {
                lemma_terpsichore_climb_is_turn(*state, player, climbing@[k].action.0);
            }
        }
        if climbing.len() > 0 {
            proof {
                if flags & NARROWING_FLAGS == 0 {
                    assert(is_terpsichore_turn(*state, player, true, climbing@[0].action.0));
                    assert forall|data: u32| #[trigger] terpsichore_turn_owed(*state, player, must_climb, data) implies lists_word(climbing@, data) by {
                        assert(terpsichore_turn_owed(*state, player, true, data));
                    }
                }
            }
            return climbing;
        }
        proof {
            if flags & NARROWING_FLAGS == 0 {
                assert forall|d: u32| !#[trigger] terpsichore_turn_owed(*state, player, true, d) by {
                    if terpsichore_turn_owed(*state, player, true, d) {
                        assert(lists_word(climbing@, d));
                    }
                }
            }
        }
        if flags & ANY_MOVE_FILTER > 0 {
            let unrestricted = terpsichore_move_gen(0, state, player, key_squares, true);
            if unrestricted.len() > 0 {
                return climbing;
            }
        }
        climbing
    } else {
        get_sized_result(flags)
    };
    assert(flags & NARROWING_FLAGS == 0 && state.gods[1 - player.idx()].is_persephone_spec() && !must_climb ==> forall|d: u32|
        !#[trigger] terpsichore_turn_owed(*state, player, true, d));
    let prelude = get_generator_prelude_state(state, player, key_squares);
    let ghost p = player.idx();
    let checkable_mask = prelude.exactly_level_2;
    let non_own_worker_blockers = prelude.domes_and_frozen.or(prelude.oppo_workers);
    let starter_set = prelude.acting_workers.and(prelude.exactly_level_2);
    let starters = starter_set.squares();
    let mut si: usize = 0;
    while si < starters.len()
        invariant
            si <= starters@.len(),
            state.board.wf(),
            prelude.inv(),
            prelude.board == state.board,
            prelude.player == player,
            prelude.other_god == state.gods[1 - player.idx()],
            p == player.idx(),
            prelude.own_workers.0 == state.board.workers[player.idx()].0 & MAIN_SECTION,
            prelude.other_god.is_hypnus_spec() ==> prelude.acting_workers.0 == crate::gods::hypnus::hypnus_filter_spec(
                state.board.height_map,
                prelude.own_workers.0,
            ),
            !prelude.other_god.is_hypnus_spec() ==> prelude.acting_workers == prelude.own_workers,
            forall|i: int| #[trigger] non_own_worker_blockers.has(i) == ((is_square(i) && state.board.height(i) == 4)
                || state.board.workers[1 - p].has(i)),
            forall|k: int| 0 <= k < starters@.len() ==> #[trigger] starters@[k] < 25 && prelude.acting_workers.has(starters@[k] as int)
                && state.board.height(starters@[k] as int) == 2,
            forall|k: int| 0 <= k < result@.len() ==> #[trigger] is_terpsichore_turn(*state, player, must_climb, result@[k].action.0),
            flags & NARROWING_FLAGS == 0 ==> flags & 1u32 == 0 && flags & 2u32 == 0 && flags & 8u32 == 0,
            flags & NARROWING_FLAGS == 0 && state.gods[1 - player.idx()].is_persephone_spec() && !must_climb ==> forall|d: u32|
                !#[trigger] terpsichore_turn_owed(*state, player, true, d),
            flags & NARROWING_FLAGS == 0 ==> forall|data: u32| #[trigger] terpsichore_turn_owed(*state, player, must_climb, data) && is_winning_data(data) && (exists|j: int|
                0 <= j < si && starters@[j] as u32 == terpsichore_win_starter(data)) ==> lists_word(result@, data),
        decreases starters@.len() - si,
    {
        let ghost r0 = result@;
        let worker_start_pos = starters[si];
        si = si + 1;
        proof {
            lemma_prelude_acting(*state, player, prelude.own_workers, prelude.acting_workers, worker_start_pos as int);
        }
        let worker_start_mask = BitBoard::as_mask(worker_start_pos);
        let worker_moves = get_basic_moves_from_raw_data_with_custom_blockers(
            &prelude,
            worker_start_pos,
            worker_start_mask,
            2,
            non_own_worker_blockers,
            false,
        );
        let winning_moves = worker_moves.and(prelude.exactly_level_3).and(prelude.win_mask);
        let blocked_by_own = winning_moves.and(prelude.own_workers);
        let direct_wins = winning_moves.xor(blocked_by_own);
        let ghost before = result@;
        let stop = push_winning_moves(flags, &mut result, worker_start_pos, direct_wins, TERPSICHORE_NO_SECOND_MOVE);
        proof {
            assert forall|k: int| 0 <= k < result@.len() implies #[trigger] is_terpsichore_turn(
                *state,
                player,
                must_climb,
                result@[k].action.0,
            ) by {
                if k >= before.len() {
                    assert(is_winning_entry(result@[k], worker_start_pos, direct_wins, TERPSICHORE_NO_SECOND_MOVE));
                    let sq = choose|sq: u8| sq < 25 && #[trigger] direct_wins.has(sq as int) && result@[k].action.0 == (worker_start_pos as u32)
                        | ((sq as u32) << 5u32) | TERPSICHORE_NO_SECOND_MOVE | MOVE_IS_WINNING_MASK;
                    crate::generic::lemma_win_word_with_empty_second(worker_start_pos as u32, sq as u32);
                    lemma_pack4(worker_start_pos as u32, sq as u32, 0, 25);
                    assert(worker_moves.has(sq as int));
                } else {
                    assert(result@[k] == before[k]);
                }
            }
        }
        if stop {
            return result;
        }
        proof {
            lemma_lists_word_grows(before, result@);
            if flags & NARROWING_FLAGS == 0 {
                assert forall|data: u32| #[trigger] terpsichore_turn_owed(*state, player, must_climb, data) && is_winning_data(data) && field_at(data, 15) == 25
                    && field_at(data, 0) == worker_start_pos implies lists_word(result@, data) by {
                    let t1 = field_at(data, 5);
                    assert(worker_moves.has(t1 as int));
                    assert(direct_wins.has(t1 as int));
                    let k = choose|k: int| before.len() <= k < result@.len() && #[trigger] result@[k].action.0
                        == (worker_start_pos as u32) | (((t1 as int) as u32) << 5u32) | TERPSICHORE_NO_SECOND_MOVE | MOVE_IS_WINNING_MASK;
                    crate::generic::lemma_win_word_with_empty_second(worker_start_pos as u32, t1);
                    assert(result@[k].action.0 == data);
                }
            }
        }
        let ghost r1 = result@;
        let blockers = blocked_by_own.squares();
        let mut bi: usize = 0;
        while bi < blockers.len()
            invariant
                bi <= blockers@.len(),
                state.board.wf(),
                prelude.inv(),
                prelude.board == state.board,
                p == player.idx(),
                worker_start_pos < 25,
                forall|i: int| #[trigger] worker_start_mask.has(i) == (i == worker_start_pos),
                is_acting_worker(*state, player, worker_start_pos as int),
                state.board.height(worker_start_pos as int) == 2,
                forall|i: int| #[trigger] non_own_worker_blockers.has(i) == ((is_square(i) && state.board.height(i) == 4)
                    || state.board.workers[1 - p].has(i)),
                forall|k: int| 0 <= k < blockers@.len() ==> #[trigger] blockers@[k] < 25 && blocked_by_own.has(blockers@[k] as int),
                forall|i: int| #[trigger] blocked_by_own.has(i) ==> state.board.workers[p].has(i) && state.board.height(i) == 3
                    && is_free_step(state.board, p, worker_start_pos as int, i),
                forall|k: int| 0 <= k < result@.len() ==> #[trigger] is_terpsichore_turn(*state, player, must_climb, result@[k].action.0),
                flags & NARROWING_FLAGS == 0 ==> flags & 1u32 == 0 && flags & 2u32 == 0 && flags & 8u32 == 0,
                r1.len() <= result@.len(),
                forall|k: int| 0 <= k < r1.len() ==> #[trigger] result@[k] == r1[k],
                flags & NARROWING_FLAGS == 0 ==> forall|data: u32| #[trigger] terpsichore_turn_owed(*state, player, must_climb, data) && is_winning_data(data) && field_at(data, 15)
                    == worker_start_pos && (exists|j: int| 0 <= j < bi && blockers@[j] as u32 == field_at(data, 0)) ==> lists_word(result@, data),
            decreases blockers@.len() - bi,
        {
            let ghost rb = result@;
            let blocker_pos = blockers[bi];
            bi = bi + 1;
            let blocker_mask = BitBoard::as_mask(blocker_pos);
            let vacator_moves = get_basic_moves_from_raw_data_with_custom_blockers(
                &prelude,
                blocker_pos,
                blocker_mask,
                3,
                non_own_worker_blockers.or(worker_start_mask),
                false,
            );
            let vacator_set = vacator_moves.minus(worker_start_mask);
            let vacator_ends = vacator_set.squares();
            proof {
                assert forall|i: int| 0 <= i < 25 && is_free_step(state.board, p, blocker_pos as int, i) && i != worker_start_pos
                    implies #[trigger] vacator_ends@.contains(i as u8) by {
                    assert(vacator_moves.has(i));
                    assert(vacator_set.has(i));
                }
            }
            let mut vi: usize = 0;
            while vi < vacator_ends.len()
                invariant
                    vi <= vacator_ends@.len(),
                    p == player.idx(),
                    worker_start_pos < 25,
                    blocker_pos < 25,
                    is_acting_worker(*state, player, worker_start_pos as int),
                    state.board.height(worker_start_pos as int) == 2,
                    state.board.workers[p].has(blocker_pos as int),
                    state.board.height(blocker_pos as int) == 3,
                    is_free_step(state.board, p, worker_start_pos as int, blocker_pos as int),
                    forall|k: int| 0 <= k < vacator_ends@.len() ==> #[trigger] vacator_ends@[k] < 25 && vacator_ends@[k]
                        != worker_start_pos && is_free_step(state.board, p, blocker_pos as int, vacator_ends@[k] as int),
                    forall|k: int| 0 <= k < result@.len() ==> #[trigger] is_terpsichore_turn(*state, player, must_climb, result@[k].action.0),
                    flags & NARROWING_FLAGS == 0 ==> flags & 1u32 == 0 && flags & 2u32 == 0 && flags & 8u32 == 0,
                    rb.len() <= result@.len(),
                    forall|k: int| 0 <= k < rb.len() ==> #[trigger] result@[k] == rb[k],
                    forall|j: int| 0 <= j < vi ==> #[trigger] lists_word(
                        result@,
                        terpsichore_vacate_win_data(blocker_pos as u32, vacator_ends@[j] as u32, worker_start_pos as u32, blocker_pos as u32),
                    ),
                decreases vacator_ends@.len() - vi,
            {
                let vacator_to = vacator_ends[vi];
                vi = vi + 1;
                let action = TerpsichoreMove::new_winning_double_move(blocker_pos, vacator_to, worker_start_pos, blocker_pos);
                let ghost before = result@;
                result.push(ScoredMove::new_winning_move(action.to_generic()));
                proof {
                    lemma_pack5(blocker_pos as u32, vacator_to as u32, 0, worker_start_pos as u32, blocker_pos as u32);
                    assert forall|k: int| 0 <= k < result@.len() implies #[trigger] is_terpsichore_turn(
                        *state,
                        player,
                        must_climb,
                        result@[k].action.0,
                    ) by {
                        if k < before.len() {
                            assert(result@[k] == before[k]);
                        }
                    }
                    lemma_lists_word_grows(before, result@);
                    assert(result@[before.len() as int].action.0 == terpsichore_vacate_win_data(
                        blocker_pos as u32,
                        vacator_to as u32,
                        worker_start_pos as u32,
                        blocker_pos as u32,
                    ));
                    assert forall|j: int| 0 <= j < vi implies #[trigger] lists_word(
                        result@,
                        terpsichore_vacate_win_data(blocker_pos as u32, vacator_ends@[j] as u32, worker_start_pos as u32, blocker_pos as u32),
                    ) by {
                        if j < vi - 1 {
                            assert(lists_word(
                                before,
                                terpsichore_vacate_win_data(blocker_pos as u32, vacator_ends@[j] as u32, worker_start_pos as u32, blocker_pos as u32),
                            ));
                        }
                    }
                }
                if is_stop_on_mate(flags) {
                    return result;
                }
            }
            proof {
                lemma_lists_word_grows(rb, result@);
                if flags & NARROWING_FLAGS == 0 {
                    assert forall|data: u32| #[trigger] terpsichore_turn_owed(*state, player, must_climb, data) && is_winning_data(data) && field_at(data, 15) == worker_start_pos
                        && (exists|j: int| 0 <= j < bi && blockers@[j] as u32 == field_at(data, 0)) implies lists_word(result@, data) by {
                        let j = choose|j: int| 0 <= j < bi && blockers@[j] as u32 == field_at(data, 0);
                        if j == bi - 1 {
                            let t1 = field_at(data, 5) as int;
                            assert(vacator_ends@.contains(t1 as u8));
                            let jv = choose|jv: int| 0 <= jv < vacator_ends@.len() && vacator_ends@[jv] == t1 as u8;
                            assert(lists_word(
                                result@,
                                terpsichore_vacate_win_data(blocker_pos as u32, vacator_ends@[jv] as u32, worker_start_pos as u32, blocker_pos as u32),
                            ));
                        } else {
                            assert(lists_word(rb, data));
                        }
                    }
                }
            }
        }
        proof {
            lemma_lists_word_grows(r1, result@);
            lemma_lists_word_grows(r0, r1);
            if flags & NARROWING_FLAGS == 0 {
                assert forall|data: u32| #[trigger] terpsichore_turn_owed(*state, player, must_climb, data) && is_winning_data(data) && (exists|j: int|
                    0 <= j < si && starters@[j] as u32 == terpsichore_win_starter(data)) implies lists_word(result@, data) by {
                    let j = choose|j: int| 0 <= j < si && starters@[j] as u32 == terpsichore_win_starter(data);
                    if j == si - 1 {
                        if field_at(data, 15) == 25 {
                            assert(lists_word(r1, data));
                        } else {
                            let f1 = field_at(data, 0) as int;
                            assert(winning_moves.has(f1));
                            assert(blocked_by_own.has(f1));
                            assert(blockers@.contains(f1 as u8));
                            let jb = choose|jb: int| 0 <= jb < blockers@.len() && blockers@[jb] == f1 as u8;
                            assert(blockers@[jb] as u32 == field_at(data, 0));
                        }
                    } else {
                        assert(lists_word(r0, data));
                    }
                }
            }
        }
    }
    let ghost rw = result@;
    proof {
        if flags & NARROWING_FLAGS == 0 {
            assert forall|data: u32| #[trigger] terpsichore_turn_owed(*state, player, must_climb, data) && is_winning_data(data) implies lists_word(result@, data) by {
                let st = terpsichore_win_starter(data) as int;
                lemma_acting_in_prelude(*state, player, prelude.own_workers, prelude.acting_workers, st);
                assert(starter_set.has(st));
                assert(starters@.contains(st as u8));
                let j = choose|j: int| 0 <= j < starters@.len() && starters@[j] == st as u8;
                assert(starters@[j] as u32 == terpsichore_win_starter(data));
            }
        }
    }
    if is_mate_only(flags) {
        return result;
    }
    let own = prelude.own_workers.squares();
    proof {
        lemma_squares_below(prelude.own_workers.0, 25);
    }
    proof {
        assert forall|w: int| 0 <= w < 25 && #[trigger] state.board.workers[p].has(w) implies own@.contains(w as u8) by {
            assert(prelude.own_workers.has(w));
        }
        assert forall|k: int| 0 <= k < own@.len() implies #[trigger] state.board.workers[p].has(own@[k] as int) by {
            assert(prelude.own_workers.has(own@[k] as int));
        }
    }
    if own.len() == 0 {
        proof {
            if flags & NARROWING_FLAGS == 0 {
                assert forall|data: u32| #[trigger] terpsichore_turn_owed(*state, player, must_climb, data) implies lists_word(result@, data) by {
                    if !is_winning_data(data) {
                        assert(state.board.workers[p].has(field_at(data, 0) as int));
                        assert(own@.contains(field_at(data, 0) as u8));
                    }
                }
            }
        }
        return result;
    }
    let worker_start_1 = own[0];
    if own.len() >= 2 {
        let worker_start_2 = own[1];
        add_double_moves(flags, state, player, must_climb, &prelude, &mut result, worker_start_1, worker_start_2, non_own_worker_blockers, key_squares);
        proof {
            lemma_lists_word_grows(rw, result@);
            if flags & NARROWING_FLAGS == 0 {
                assert forall|data: u32| #[trigger] terpsichore_turn_owed(*state, player, must_climb, data) implies lists_word(result@, data) by {
                    if !is_winning_data(data) {
                        let f1 = field_at(data, 0) as int;
                        let f2 = field_at(data, 15) as int;
                        assert(state.board.workers[p].has(f1));
                        assert(own@.contains(f1 as u8));
                        if f2 == 25 {
                            assert(state.board.workers[p].has(own@[0] as int));
                            assert(state.board.workers[p].has(own@[1] as int));
                            assert(own@[0] < own@[1]);
                        } else {
                            assert(state.board.workers[p].has(f2));
                            assert(own@.contains(f2 as u8));
                            let k1 = choose|k1: int| 0 <= k1 < own@.len() && own@[k1] == f1 as u8;
                            let k2 = choose|k2: int| 0 <= k2 < own@.len() && own@[k2] == f2 as u8;
                            assert(state.board.workers[p].has(own@[0] as int));
                            assert(state.board.workers[p].has(own@[1] as int));
                            if k1 != 0 {
                                assert(own@[0] < own@[k1]);
                            }
                            assert(own@[0] == f1 as u8);
                            if k2 > 1 {
                                assert(own@[1] < own@[k2]);
                                assert(own@[0] < own@[1]);
                            }
                            assert(k2 != 0);
                            assert(own@[1] == f2 as u8);
                        }
                    } else {
                        assert(lists_word(rw, data));
                    }
                }
            }
        }
        return result;
    }
    let worker_start_state = get_worker_start_move_state(&prelude, worker_start_1);
    let mut worker_next_moves = get_worker_next_move_state(&prelude, &worker_start_state, checkable_mask, must_climb);
    if worker_start_state.worker_start_height == 2 {
        let moves_to_level_3 = worker_next_moves.worker_moves.and(prelude.exactly_level_3).and(prelude.win_mask);
        worker_next_moves.worker_moves = worker_next_moves.worker_moves.xor(moves_to_level_3);
    }
    let unblocked_non_own_workers = non_own_worker_blockers.not();
    let ends = worker_next_moves.worker_moves.squares();
    proof {
        if flags & NARROWING_FLAGS == 0 {
            assert forall|i: int| 0 <= i < 25 && is_standard_step(state.board, worker_start_1 as int, i, must_climb) && !is_win_step(
                false,
                state.board.height(worker_start_1 as int),
                state.board.height(i),
            ) implies #[trigger] ends@.contains(i as u8) by {
                assert(worker_next_moves.worker_moves.has(i));
            }
        }
    }
    let mut ei: usize = 0;
    while ei < ends.len()
        invariant
            ei <= ends@.len(),
            state.board.wf(),
            prelude.inv(),
            prelude.board == state.board,
            prelude.player == player,
            prelude.other_god == state.gods[1 - player.idx()],
            p == player.idx(),
            worker_start_1 < 25,
            worker_start_state.describes(prelude, worker_start_1 as int),
            state.board.workers[p].has(worker_start_1 as int),
            forall|k: int| 0 <= k < ends@.len() ==> #[trigger] ends@[k] < 25 && is_standard_step(
                state.board,
                worker_start_1 as int,
                ends@[k] as int,
                must_climb,
            ) && !is_win_step(false, state.board.height(worker_start_1 as int), state.board.height(ends@[k] as int)),
            forall|k: int| 0 <= k < result@.len() ==> #[trigger] is_terpsichore_turn(*state, player, must_climb, result@[k].action.0),
            flags & NARROWING_FLAGS == 0 ==> flags & 1u32 == 0 && flags & 2u32 == 0 && flags & 8u32 == 0,
            rw.len() <= result@.len(),
            forall|k: int| 0 <= k < rw.len() ==> #[trigger] result@[k] == rw[k],
            flags & NARROWING_FLAGS == 0 ==> forall|data: u32| #[trigger] terpsichore_turn_owed(*state, player, must_climb, data) && !is_winning_data(data) && field_at(data, 15) == 25
                && field_at(data, 0) == worker_start_1 && (exists|j: int| 0 <= j < ei && ends@[j] as u32 == field_at(data, 5)) ==> lists_word(
                result@,
                data,
            ),
        decreases ends@.len() - ei,
    {
        let worker_end_pos = ends[ei];
        ei = ei + 1;
        let worker_end_move_state = get_worker_end_move_state(&prelude, &worker_start_state, worker_end_pos);
        let worker_next_build_state = get_worker_next_build_state(flags, &prelude, &worker_start_state, &worker_end_move_state);
        let reach_board = get_standard_reach_board(&prelude, &worker_next_moves, &worker_end_move_state, unblocked_non_own_workers);
        let builds = worker_next_build_state.narrowed_builds.squares();
        let ghost re = result@;
        let mut bi: usize = 0;
        while bi < builds.len()
            invariant
                bi <= builds@.len(),
                prelude.inv(),
                prelude.board == state.board,
                prelude.player == player,
                prelude.other_god == state.gods[1 - player.idx()],
                p == player.idx(),
                worker_start_1 < 25,
                worker_end_pos < 25,
                state.board.workers[p].has(worker_start_1 as int),
                is_standard_step(state.board, worker_start_1 as int, worker_end_pos as int, must_climb),
                !is_win_step(false, state.board.height(worker_start_1 as int), state.board.height(worker_end_pos as int)),
                worker_next_build_state.describes(prelude, worker_start_1 as int, worker_end_pos as int),
                forall|k: int| 0 <= k < builds@.len() ==> #[trigger] builds@[k] < 25
                    && worker_next_build_state.narrowed_builds.has(builds@[k] as int),
                forall|k: int| 0 <= k < result@.len() ==> #[trigger] is_terpsichore_turn(*state, player, must_climb, result@[k].action.0),
                re.len() <= result@.len(),
                forall|k: int| 0 <= k < re.len() ==> #[trigger] result@[k] == re[k],
                forall|j: int| 0 <= j < bi ==> #[trigger] lists_word(
                    result@,
                    terpsichore_single_data(worker_start_1 as u32, worker_end_pos as u32, builds@[j] as u32),
                ),
            decreases builds@.len() - bi,
        {
            let worker_build_pos = builds[bi];
            bi = bi + 1;
            let new_action = TerpsichoreMove::new_basic_move(worker_start_1, worker_end_pos, worker_build_pos);
            let build_mask = BitBoard::as_mask(worker_build_pos);
            let final_level_3 = prelude.exactly_level_2.and(build_mask).or(prelude.exactly_level_3.minus(build_mask));
            let is_check = reach_board.and(final_level_3).is_not_empty();
            let ghost before = result@;
            result.push(build_scored_move(flags, new_action.to_generic(), is_check, worker_end_move_state.is_improving));
            proof {
                lemma_pack6(worker_start_1 as u32, worker_end_pos as u32, worker_build_pos as u32, 25, 0, 25);
                assert(worker_next_build_state.narrowed_builds.has(worker_build_pos as int));
                assert forall|k: int| 0 <= k < result@.len() implies #[trigger] is_terpsichore_turn(
                    *state,
                    player,
                    must_climb,
                    result@[k].action.0,
                ) by {
                    if k < before.len() {
                        assert(result@[k] == before[k]);
                    }
                }
                lemma_lists_word_grows(before, result@);
                assert(result@[before.len() as int].action.0 == terpsichore_single_data(
                    worker_start_1 as u32,
                    worker_end_pos as u32,
                    worker_build_pos as u32,
                ));
                assert forall|j: int| 0 <= j < bi implies #[trigger] lists_word(
                    result@,
                    terpsichore_single_data(worker_start_1 as u32, worker_end_pos as u32, builds@[j] as u32),
                ) by {
                    if j < bi - 1 {
                        assert(lists_word(before, terpsichore_single_data(worker_start_1 as u32, worker_end_pos as u32, builds@[j] as u32)));
                    }
                }
            }
        }
        proof {
            lemma_lists_word_grows(re, result@);
            if flags & NARROWING_FLAGS == 0 {
                assert forall|data: u32| #[trigger] terpsichore_turn_owed(*state, player, must_climb, data) && !is_winning_data(data) && field_at(data, 15) == 25 && field_at(data, 0)
                    == worker_start_1 && (exists|j: int| 0 <= j < ei && ends@[j] as u32 == field_at(data, 5)) implies lists_word(result@, data) by {
                    let j = choose|j: int| 0 <= j < ei && ends@[j] as u32 == field_at(data, 5);
                    if j == ei - 1 {
                        let b = field_at(data, 10);
                        assert(worker_next_build_state.all_possible_builds.has(b as int));
                        assert(builds@.contains(b as u8));
                        let jb = choose|jb: int| 0 <= jb < builds@.len() && builds@[jb] == b as u8;
                        assert(lists_word(result@, terpsichore_single_data(worker_start_1 as u32, worker_end_pos as u32, builds@[jb] as u32)));
                    } else {
                        assert(lists_word(re, data));
                    }
                }
            }
        }
    }
    proof {
        lemma_lists_word_grows(rw, result@);
        if flags & NARROWING_FLAGS == 0 {
            assert forall|data: u32| #[trigger] terpsichore_turn_owed(*state, player, must_climb, data) implies lists_word(result@, data) by {
                if !is_winning_data(data) {
                    let f1 = field_at(data, 0) as int;
                    assert(state.board.workers[p].has(f1));
                    assert(own@.contains(f1 as u8));
                    if field_at(data, 15) != 25 {
                        let f2 = field_at(data, 15) as int;
                        assert(state.board.workers[p].has(f2));
                        assert(own@.contains(f2 as u8));
                    } else {
                        let to = field_at(data, 5);
                        assert(ends@.contains(to as u8));
                        let je = choose|je: int| 0 <= je < ends@.len() && ends@[je] == to as u8;
                        assert(ends@[je] as u32 == field_at(data, 5));
                    }
                } else {
                    assert(lists_word(rw, data));
                }
            }
        }
    }
    result
}

/// A double move that the generator owes: any legal one, except that two build squares that
/// either worker could use are listed with the lower-numbered one first only.
pub open spec fn double_turn_owed(state: FullGameState, player: Player, must_climb: bool, data: u32) -> bool {
    let board = state.board;
    let p = player.idx();
    let t1 = field_at(data, 5) as int;
    let b1 = field_at(data, 10) as int;
    let t2 = field_at(data, 20) as int;
    let b2 = field_at(data, 25) as int;
    &&& is_terpsichore_turn(state, player, must_climb, data)
    &&& !is_winning_data(data)
    &&& field_at(data, 15) != 25
    &&& !(is_shared_build(board, p, t1, t2, b1) && is_shared_build(board, p, t1, t2, b2) && b2 < b1)
}

/// The turns where both workers step and build: every pair of steps that neither climbs onto level
/// 3 from level 2, lands on one square twice, nor swaps the two workers.
fn add_double_moves(
    flags: MoveGenFlags,
    state: &FullGameState,
    player: Player,
    must_climb: bool,
    prelude: &GeneratorPreludeState,
    result: &mut Vec<ScoredMove>,
    worker_start_1: Square,
    worker_start_2: Square,
    non_own_worker_blockers: BitBoard,
    key_squares: BitBoard,
)
    requires
        state.board.wf(),
        prelude.inv(),
        prelude.board == state.board,
        prelude.player == player,
        worker_start_1 < 25,
        worker_start_2 < 25,
        worker_start_1 != worker_start_2,
        state.board.workers[player.idx()].has(worker_start_1 as int),
        state.board.workers[player.idx()].has(worker_start_2 as int),
        forall|i: int| #[trigger] non_own_worker_blockers.has(i) == ((is_square(i) && state.board.height(i) == 4)
            || state.board.workers[1 - player.idx()].has(i)),
        forall|k: int| 0 <= k < old(result)@.len() ==> #[trigger] is_terpsichore_turn(*state, player, must_climb, old(result)@[k].action.0),
    ensures
        forall|k: int| 0 <= k < final(result)@.len() ==> #[trigger] is_terpsichore_turn(*state, player, must_climb, final(result)@[k].action.0),
        old(result)@.len() <= final(result)@.len(),
        forall|k: int| 0 <= k < old(result)@.len() ==> #[trigger] final(result)@[k] == old(result)@[k],
        flags & NARROWING_FLAGS == 0 ==> forall|data: u32| #[trigger] double_turn_owed(*state, player, must_climb, data) && field_at(data, 0)
            == worker_start_1 && field_at(data, 15) == worker_start_2 ==> lists_word(final(result)@, data),
{
    broadcast use group_bit_lemmas;

    proof {
        crate::generic::lemma_no_flags(flags);
    }
    let ghost r0 = result@;

    let ghost p = player.idx();
    let board = prelude.board;
    let start_height_1 = board.get_height(worker_start_1);
    let start_height_2 = board.get_height(worker_start_2);
    let start_mask_1 = BitBoard::as_mask(worker_start_1);
    let start_mask_2 = BitBoard::as_mask(worker_start_2);
    let moves_1 = get_basic_moves_from_raw_data_with_custom_blockers(
        prelude,
        worker_start_1,
        start_mask_1,
        start_height_1,
        non_own_worker_blockers,
        false,
    );
    let moves_2 = get_basic_moves_from_raw_data_with_custom_blockers(
        prelude,
        worker_start_2,
        start_mask_2,
        start_height_2,
        non_own_worker_blockers,
        false,
    );
    let win_squares = prelude.exactly_level_3.and(prelude.win_mask);
    let non_win_moves_1 = if start_height_1 == 2 {
        moves_1.minus(win_squares)
    } else {
        moves_1
    };
    let non_win_moves_2 = if start_height_2 == 2 {
        moves_2.minus(win_squares)
    } else {
        moves_2
    };
    proof {
        assert forall|i: int| is_free_step(state.board, p, worker_start_1 as int, i) && !(state.board.height(worker_start_1 as int) == 2
            && state.board.height(i) == 3) implies #[trigger] non_win_moves_1.has(i) by {
            assert(moves_1.has(i));
        }
        assert forall|i: int| is_free_step(state.board, p, worker_start_2 as int, i) && !(state.board.height(worker_start_2 as int) == 2
            && state.board.height(i) == 3) implies #[trigger] non_win_moves_2.has(i) by {
            assert(moves_2.has(i));
        }
    }
    let firsts = non_win_moves_1.squares();
    let mut i1: usize = 0;
    while i1 < firsts.len()
        invariant
            i1 <= firsts@.len(),
            state.board.wf(),
            prelude.inv(),
            prelude.board == state.board,
            prelude.player == player,
            p == player.idx(),
            worker_start_1 < 25,
            worker_start_2 < 25,
            worker_start_1 != worker_start_2,
            state.board.workers[p].has(worker_start_1 as int),
            state.board.workers[p].has(worker_start_2 as int),
            forall|i: int| #[trigger] start_mask_1.has(i) == (i == worker_start_1),
            forall|i: int| #[trigger] non_own_worker_blockers.has(i) == ((is_square(i) && state.board.height(i) == 4)
                || state.board.workers[1 - p].has(i)),
            forall|i: int| #[trigger] non_win_moves_1.has(i) ==> is_free_step(state.board, p, worker_start_1 as int, i) && !(
            state.board.height(worker_start_1 as int) == 2 && state.board.height(i) == 3),
            forall|i: int| #[trigger] non_win_moves_2.has(i) ==> is_free_step(state.board, p, worker_start_2 as int, i) && !(
            state.board.height(worker_start_2 as int) == 2 && state.board.height(i) == 3),
            forall|k: int| 0 <= k < firsts@.len() ==> #[trigger] firsts@[k] < 25 && non_win_moves_1.has(firsts@[k] as int),
            forall|k: int| 0 <= k < result@.len() ==> #[trigger] is_terpsichore_turn(*state, player, must_climb, result@[k].action.0),
            forall|i: int| is_free_step(state.board, p, worker_start_2 as int, i) && !(state.board.height(worker_start_2 as int) == 2
                && state.board.height(i) == 3) ==> #[trigger] non_win_moves_2.has(i),
            flags & NARROWING_FLAGS == 0 ==> flags & 1u32 == 0 && flags & 2u32 == 0 && flags & 8u32 == 0,
            r0.len() <= result@.len(),
            forall|k: int| 0 <= k < r0.len() ==> #[trigger] result@[k] == r0[k],
            flags & NARROWING_FLAGS == 0 ==> forall|data: u32| #[trigger] double_turn_owed(*state, player, must_climb, data) && field_at(data, 0)
                == worker_start_1 && field_at(data, 15) == worker_start_2 && (exists|j: int| 0 <= j < i1 && firsts@[j] as u32 == field_at(data, 5))
                ==> lists_word(result@, data),
        decreases firsts@.len() - i1,
    {
        let to1 = firsts[i1];
        i1 = i1 + 1;
        let end_mask_1 = BitBoard::as_mask(to1);
        let end_height_1 = board.get_height(to1);
        let to1_reachable_by_w2 = end_mask_1.and(non_win_moves_2).is_not_empty();
        let mut moves_2_filtered = non_win_moves_2.minus(end_mask_1);
        if to1 == worker_start_2 {
            moves_2_filtered = moves_2_filtered.minus(start_mask_1);
        }
        let seconds = moves_2_filtered.squares();
        proof {
            assert forall|i: int| is_free_step(state.board, p, worker_start_2 as int, i) && !(state.board.height(worker_start_2 as int) == 2
                && state.board.height(i) == 3) && i != to1 && !(to1 == worker_start_2 && i == worker_start_1) && 0 <= i < 25
                implies #[trigger] seconds@.contains(i as u8) by {
                assert(non_win_moves_2.has(i));
                assert(moves_2_filtered.has(i));
            }
        }
        let ghost ro = result@;
        let mut i2: usize = 0;
        while i2 < seconds.len()
            invariant
                i2 <= seconds@.len(),
                state.board.wf(),
                prelude.inv(),
                prelude.board == state.board,
                prelude.player == player,
                p == player.idx(),
                worker_start_1 < 25,
                worker_start_2 < 25,
                to1 < 25,
                worker_start_1 != worker_start_2,
                state.board.workers[p].has(worker_start_1 as int),
                state.board.workers[p].has(worker_start_2 as int),
                forall|i: int| #[trigger] non_own_worker_blockers.has(i) == ((is_square(i) && state.board.height(i) == 4)
                    || state.board.workers[1 - p].has(i)),
                is_free_step(state.board, p, worker_start_1 as int, to1 as int),
                !(state.board.height(worker_start_1 as int) == 2 && state.board.height(to1 as int) == 3),
                forall|k: int| 0 <= k < seconds@.len() ==> #[trigger] seconds@[k] < 25 && seconds@[k] != to1 && !(to1 == worker_start_2
                    && seconds@[k] == worker_start_1) && is_free_step(state.board, p, worker_start_2 as int, seconds@[k] as int)
                    && !(state.board.height(worker_start_2 as int) == 2 && state.board.height(seconds@[k] as int) == 3),
                forall|k: int| 0 <= k < result@.len() ==> #[trigger] is_terpsichore_turn(*state, player, must_climb, result@[k].action.0),
                flags & NARROWING_FLAGS == 0 ==> flags & 1u32 == 0 && flags & 2u32 == 0 && flags & 8u32 == 0,
                ro.len() <= result@.len(),
                forall|k: int| 0 <= k < ro.len() ==> #[trigger] result@[k] == ro[k],
                flags & NARROWING_FLAGS == 0 ==> forall|data: u32| #[trigger] double_turn_owed(*state, player, must_climb, data) && field_at(data, 0)
                    == worker_start_1 && field_at(data, 15) == worker_start_2 && field_at(data, 5) == to1 && (exists|j: int| 0 <= j < i2
                    && seconds@[j] as u32 == field_at(data, 20)) ==> lists_word(result@, data),
            decreases seconds@.len() - i2,
        {
            let ghost rs = result@;
            let to2 = seconds[i2];
            i2 = i2 + 1;
            let end_mask_2 = BitBoard::as_mask(to2);
            let mut skip = false;
            if is_stop_on_mate(flags) {
                let worker_swap_exists = to1_reachable_by_w2 && end_mask_2.and(non_win_moves_1).is_not_empty();
                if worker_swap_exists && to2 < to1 {
                    skip = true;
                }
            }
            if !skip {
                let end_height_2 = board.get_height(to2);
                emit_double_move_with_builds(
                    flags,
                    state,
                    player,
                    must_climb,
                    prelude,
                    worker_start_1,
                    to1,
                    worker_start_2,
                    to2,
                    start_height_1,
                    start_height_2,
                    end_height_1,
                    end_height_2,
                    non_own_worker_blockers,
                    key_squares,
                    result,
                );
            }
            proof {
                lemma_lists_word_grows(rs, result@);
                if flags & NARROWING_FLAGS == 0 {
                    assert forall|data: u32| #[trigger] double_turn_owed(*state, player, must_climb, data) && field_at(data, 0) == worker_start_1
                        && field_at(data, 15) == worker_start_2 && field_at(data, 5) == to1 && (exists|j: int| 0 <= j < i2 && seconds@[j] as u32
                        == field_at(data, 20)) implies lists_word(result@, data) by {
                        let j = choose|j: int| 0 <= j < i2 && seconds@[j] as u32 == field_at(data, 20);
                        if j == i2 - 1 {
                            let b1 = field_at(data, 10) as int;
                            let b2 = field_at(data, 25) as int;
                            assert(double_builds_owed(state.board, p, to1 as int, to2 as int, b1, b2));
                            lemma_pack6(worker_start_1 as u32, to1 as u32, b1 as u32, worker_start_2 as u32, to2 as u32, b2 as u32);
                        } else {
                            assert(lists_word(rs, data));
                        }
                    }
                }
            }
        }
        proof {
            lemma_lists_word_grows(ro, result@);
            if flags & NARROWING_FLAGS == 0 {
                assert forall|data: u32| #[trigger] double_turn_owed(*state, player, must_climb, data) && field_at(data, 0) == worker_start_1
                    && field_at(data, 15) == worker_start_2 && (exists|j: int| 0 <= j < i1 && firsts@[j] as u32 == field_at(data, 5))
                    implies lists_word(result@, data) by {
                    let j = choose|j: int| 0 <= j < i1 && firsts@[j] as u32 == field_at(data, 5);
                    if j == i1 - 1 {
                        let t2 = field_at(data, 20) as int;
                        assert(seconds@.contains(t2 as u8));
                        let j2 = choose|j2: int| 0 <= j2 < seconds@.len() && seconds@[j2] == t2 as u8;
                        assert(seconds@[j2] as u32 == field_at(data, 20));
                    } else {
                        assert(lists_word(ro, data));
                    }
                }
            }
        }
    }
    proof {
        if flags & NARROWING_FLAGS == 0 {
            assert forall|data: u32| #[trigger] double_turn_owed(*state, player, must_climb, data) && field_at(data, 0) == worker_start_1
                && field_at(data, 15) == worker_start_2 implies lists_word(result@, data) by {
                let t1 = field_at(data, 5) as int;
                assert(non_win_moves_1.has(t1));
                assert(firsts@.contains(t1 as u8));
                let j = choose|j: int| 0 <= j < firsts@.len() && firsts@[j] == t1 as u8;
                assert(firsts@[j] as u32 == field_at(data, 5));
            }
        }
    }
}

/// A square both workers could build on after a double move.
pub open spec fn is_shared_build(board: BoardState, p: int, to1: int, to2: int, b: int) -> bool {
    &&& is_adjacent(to1, b)
    &&& is_adjacent(to2, b)
    &&& is_free_after_double(board, p, to1, to2, b)
}

/// The builds the generator owes after a double move: each worker builds next to where it landed,
/// not both on the same level 3 square, and on two squares that either could use only with the
/// lower-numbered one first.
pub open spec fn double_builds_owed(board: BoardState, p: int, to1: int, to2: int, b1: int, b2: int) -> bool {
    &&& is_adjacent(to1, b1)
    &&& is_free_after_double(board, p, to1, to2, b1)
    &&& is_adjacent(to2, b2)
    &&& is_free_after_double(board, p, to1, to2, b2)
    &&& !(b2 == b1 && board.height(b1) == 3)
    &&& !(is_shared_build(board, p, to1, to2, b1) && is_shared_build(board, p, to1, to2, b2) && b2 < b1)
}

/// Pushes the double move from `w1_start` to `w1_end` and `w2_start` to `w2_end` with every pair
/// of builds, one next to each landing square; none when either worker has nowhere to build.
fn emit_double_move_with_builds(
    flags: MoveGenFlags,
    state: &FullGameState,
    player: Player,
    must_climb: bool,
    prelude: &GeneratorPreludeState,
    w1_start: Square,
    w1_end: Square,
    w2_start: Square,
    w2_end: Square,
    start_height_1: usize,
    start_height_2: usize,
    end_height_1: usize,
    end_height_2: usize,
    non_own_worker_blockers: BitBoard,
    key_squares: BitBoard,
    result: &mut Vec<ScoredMove>,
)
    requires
        prelude.inv(),
        prelude.board == state.board,
        w1_start < 25,
        w1_end < 25,
        w2_start < 25,
        w2_end < 25,
        w1_start != w2_start,
        w1_end != w2_end,
        !(w1_end == w2_start && w2_end == w1_start),
        state.board.workers[player.idx()].has(w1_start as int),
        state.board.workers[player.idx()].has(w2_start as int),
        is_free_step(state.board, player.idx(), w1_start as int, w1_end as int),
        !(state.board.height(w1_start as int) == 2 && state.board.height(w1_end as int) == 3),
        is_free_step(state.board, player.idx(), w2_start as int, w2_end as int),
        !(state.board.height(w2_start as int) == 2 && state.board.height(w2_end as int) == 3),
        forall|i: int| #[trigger] non_own_worker_blockers.has(i) == ((is_square(i) && state.board.height(i) == 4)
            || state.board.workers[1 - player.idx()].has(i)),
        forall|k: int| 0 <= k < old(result)@.len() ==> #[trigger] is_terpsichore_turn(*state, player, must_climb, old(result)@[k].action.0),
    ensures
        forall|k: int| 0 <= k < final(result)@.len() ==> #[trigger] is_terpsichore_turn(*state, player, must_climb, final(result)@[k].action.0),
        old(result)@.len() <= final(result)@.len(),
        forall|k: int| 0 <= k < old(result)@.len() ==> #[trigger] final(result)@[k] == old(result)@[k],
        flags & NARROWING_FLAGS == 0 ==> forall|b1: int, b2: int| #[trigger] double_builds_owed(
            state.board,
            player.idx(),
            w1_end as int,
            w2_end as int,
            b1,
            b2,
        ) ==> lists_word(
            final(result)@,
            terpsichore_double_data(w1_start as u32, w1_end as u32, b1 as u32, w2_start as u32, w2_end as u32, b2 as u32),
        ),
{
    broadcast use group_bit_lemmas;

    proof {
        crate::generic::lemma_no_flags(flags);
    }
    let ghost r0 = result@;

    let ghost p = player.idx();
    let w1_end_mask = BitBoard::as_mask(w1_end);
    let w2_end_mask = BitBoard::as_mask(w2_end);
    let workers_after_mask = w1_end_mask.or(w2_end_mask);
    let unblocked = workers_after_mask.or(non_own_worker_blockers).not();
    let possible_builds_1 = neighbor_mask(w1_end).and(unblocked);
    let possible_builds_2 = neighbor_mask(w2_end).and(unblocked);
    if possible_builds_1.is_empty() || possible_builds_2.is_empty() {
        proof {
            assert forall|x1: int, x2: int| !#[trigger] double_builds_owed(state.board, p, w1_end as int, w2_end as int, x1, x2) by {
                if double_builds_owed(state.board, p, w1_end as int, w2_end as int, x1, x2) {
                    assert(unblocked.has(x1));
                    assert(unblocked.has(x2));
                    assert(possible_builds_1.has(x1));
                    assert(possible_builds_2.has(x2));
                }
            }
        }
        return;
    }
    let build_overlap = possible_builds_1.and(possible_builds_2);
    let reach1 = if end_height_1 == 2 {
        neighbor_mask(w1_end)
    } else {
        BitBoard::empty()
    };
    let reach2 = if end_height_2 == 2 {
        neighbor_mask(w2_end)
    } else {
        BitBoard::empty()
    };
    let reach = reach1.or(reach2);
    let moves_hit_key = workers_after_mask.and(key_squares).is_not_empty();
    let is_improving = (end_height_1 == 1 && end_height_1 > start_height_1) || (end_height_2 == 2 && end_height_2 > start_height_2);
    proof {
        assert forall|i: int| #[trigger] possible_builds_1.has(i) implies is_adjacent(w1_end as int, i) && is_free_after_double(
            state.board,
            p,
            w1_end as int,
            w2_end as int,
            i,
        ) by {
            assert(unblocked.has(i));
        }
        assert forall|i: int| #[trigger] possible_builds_2.has(i) implies is_adjacent(w2_end as int, i) && is_free_after_double(
            state.board,
            p,
            w1_end as int,
            w2_end as int,
            i,
        ) by {
            assert(unblocked.has(i));
        }
        assert forall|i: int| is_adjacent(w1_end as int, i) && is_free_after_double(state.board, p, w1_end as int, w2_end as int, i)
            implies #[trigger] possible_builds_1.has(i) by {
            assert(unblocked.has(i));
        }
        assert forall|i: int| is_adjacent(w2_end as int, i) && is_free_after_double(state.board, p, w1_end as int, w2_end as int, i)
            implies #[trigger] possible_builds_2.has(i) by {
            assert(unblocked.has(i));
        }
        assert forall|i: int| #[trigger] build_overlap.has(i) == is_shared_build(state.board, p, w1_end as int, w2_end as int, i) by {
        }
    }
    let firsts = possible_builds_1.squares();
    let mut i1: usize = 0;
    while i1 < firsts.len()
        invariant
            i1 <= firsts@.len(),
            prelude.inv(),
            prelude.board == state.board,
            p == player.idx(),
            w1_start < 25,
            w1_end < 25,
            w2_start < 25,
            w2_end < 25,
            w1_start != w2_start,
            w1_end != w2_end,
            !(w1_end == w2_start && w2_end == w1_start),
            state.board.workers[p].has(w1_start as int),
            state.board.workers[p].has(w2_start as int),
            is_free_step(state.board, p, w1_start as int, w1_end as int),
            !(state.board.height(w1_start as int) == 2 && state.board.height(w1_end as int) == 3),
            is_free_step(state.board, p, w2_start as int, w2_end as int),
            !(state.board.height(w2_start as int) == 2 && state.board.height(w2_end as int) == 3),
            forall|i: int| #[trigger] possible_builds_1.has(i) ==> is_adjacent(w1_end as int, i) && is_free_after_double(
                state.board,
                p,
                w1_end as int,
                w2_end as int,
                i,
            ),
            forall|i: int| #[trigger] possible_builds_2.has(i) ==> is_adjacent(w2_end as int, i) && is_free_after_double(
                state.board,
                p,
                w1_end as int,
                w2_end as int,
                i,
            ),
            forall|k: int| 0 <= k < firsts@.len() ==> #[trigger] firsts@[k] < 25 && possible_builds_1.has(firsts@[k] as int),
            forall|k: int| 0 <= k < result@.len() ==> #[trigger] is_terpsichore_turn(*state, player, must_climb, result@[k].action.0),
            forall|i: int| is_adjacent(w2_end as int, i) && is_free_after_double(state.board, p, w1_end as int, w2_end as int, i)
                ==> #[trigger] possible_builds_2.has(i),
            forall|i: int| #[trigger] build_overlap.has(i) == is_shared_build(state.board, p, w1_end as int, w2_end as int, i),
            flags & NARROWING_FLAGS == 0 ==> flags & 1u32 == 0 && flags & 2u32 == 0 && flags & 8u32 == 0,
            r0.len() <= result@.len(),
            forall|k: int| 0 <= k < r0.len() ==> #[trigger] result@[k] == r0[k],
            flags & NARROWING_FLAGS == 0 ==> forall|b1: int, b2: int| #[trigger] double_builds_owed(
                state.board,
                p,
                w1_end as int,
                w2_end as int,
                b1,
                b2,
            ) && (exists|j: int| 0 <= j < i1 && firsts@[j] == b1) ==> lists_word(
                result@,
                terpsichore_double_data(w1_start as u32, w1_end as u32, b1 as u32, w2_start as u32, w2_end as u32, b2 as u32),
            ),
        decreases firsts@.len() - i1,
    {
        let b1 = firsts[i1];
        i1 = i1 + 1;
        let b1_mask = BitBoard::as_mask(b1);
        let b1_on_lvl_3 = b1_mask.and(prelude.exactly_level_3);
        let b1_was_lvl_3 = b1_on_lvl_3.is_not_empty();
        let b1_overlap_mask = b1_mask.and(build_overlap);
        let b1_in_overlap = b1_overlap_mask.is_not_empty();
        proof {
            if b1_in_overlap {
                let w = choose|w: int| #[trigger] b1_overlap_mask.has(w);
                assert(w == b1);
            } else {
                assert(!b1_overlap_mask.has(b1 as int));
            }
        }
        let b2_base = if b1_was_lvl_3 {
            possible_builds_2.minus(b1_mask)
        } else {
            possible_builds_2
        };
        let b2_options = if is_interact_with_key_squares(flags) && !moves_hit_key && b1_mask.and(key_squares).is_empty() {
            b2_base.and(key_squares)
        } else {
            b2_base
        };
        proof {
            assert forall|i: int| #[trigger] b2_options.has(i) implies possible_builds_2.has(i) && !(i == b1
                && state.board.height(b1 as int) == 3) by {
                if i == b1 && state.board.height(b1 as int) == 3 {
                    assert(b1_on_lvl_3.has(b1 as int));
                }
            }
        }
        let seconds = b2_options.squares();
        let ghost rb = result@;
        let mut i2: usize = 0;
        while i2 < seconds.len()
            invariant
                i2 <= seconds@.len(),
                prelude.inv(),
                prelude.board == state.board,
                p == player.idx(),
                w1_start < 25,
                w1_end < 25,
                w2_start < 25,
                w2_end < 25,
                b1 < 25,
                w1_start != w2_start,
                w1_end != w2_end,
                !(w1_end == w2_start && w2_end == w1_start),
                state.board.workers[p].has(w1_start as int),
                state.board.workers[p].has(w2_start as int),
                is_free_step(state.board, p, w1_start as int, w1_end as int),
                !(state.board.height(w1_start as int) == 2 && state.board.height(w1_end as int) == 3),
                is_free_step(state.board, p, w2_start as int, w2_end as int),
                !(state.board.height(w2_start as int) == 2 && state.board.height(w2_end as int) == 3),
                is_adjacent(w1_end as int, b1 as int),
                is_free_after_double(state.board, p, w1_end as int, w2_end as int, b1 as int),
                forall|k: int| 0 <= k < seconds@.len() ==> #[trigger] seconds@[k] < 25 && is_adjacent(w2_end as int, seconds@[k] as int)
                    && is_free_after_double(state.board, p, w1_end as int, w2_end as int, seconds@[k] as int) && !(seconds@[k] == b1
                    && state.board.height(b1 as int) == 3),
                forall|k: int| 0 <= k < result@.len() ==> #[trigger] is_terpsichore_turn(*state, player, must_climb, result@[k].action.0),
                forall|i: int| #[trigger] build_overlap.has(i) == is_shared_build(state.board, p, w1_end as int, w2_end as int, i),
                b1_in_overlap == build_overlap.has(b1 as int),
                rb.len() <= result@.len(),
                forall|k: int| 0 <= k < rb.len() ==> #[trigger] result@[k] == rb[k],
                forall|j: int| 0 <= j < i2 && !(is_shared_build(state.board, p, w1_end as int, w2_end as int, b1 as int)
                    && is_shared_build(state.board, p, w1_end as int, w2_end as int, seconds@[j] as int) && seconds@[j] < b1)
                    ==> #[trigger] lists_word(
                    result@,
                    terpsichore_double_data(w1_start as u32, w1_end as u32, b1 as u32, w2_start as u32, w2_end as u32, seconds@[j] as u32),
                ),
            decreases seconds@.len() - i2,
        {
            let b2 = seconds[i2];
            i2 = i2 + 1;
            let b2_mask = BitBoard::as_mask(b2);
            let ghost ri2 = result@;
            let b2_overlap_mask = b2_mask.and(build_overlap);
            let b2_in_overlap = b2_overlap_mask.is_not_empty();
            proof {
                if b2_in_overlap {
                    let w = choose|w: int| #[trigger] b2_overlap_mask.has(w);
                    assert(w == b2);
                } else {
                    assert(!b2_overlap_mask.has(b2 as int));
                }
            }
            if !(b1_in_overlap && b2_in_overlap && b2 < b1) {
                let both_mask = b1_mask.or(b2_mask);
                let final_lvl_3 = if b1 == b2 {
                    prelude.exactly_level_3.minus(b1_mask).or(prelude.exactly_level_1.and(b1_mask))
                } else {
                    prelude.exactly_level_3.minus(both_mask).or(prelude.exactly_level_2.and(both_mask))
                };
                let new_domes = if b1 == b2 {
                    prelude.exactly_level_2.and(b1_mask)
                } else {
                    prelude.exactly_level_3.and(both_mask)
                };
                let obstacles = non_own_worker_blockers.or(new_domes);
                let reachable = final_lvl_3.minus(obstacles).and(prelude.win_mask);
                let is_check = reach.and(reachable).is_not_empty();
                let new_action = TerpsichoreMove::new_double_move(w1_start, w1_end, b1, w2_start, w2_end, b2);
                let ghost before = result@;
                result.push(build_scored_move(flags, new_action.to_generic(), is_check, is_improving));
                proof {
                    lemma_pack6(w1_start as u32, w1_end as u32, b1 as u32, w2_start as u32, w2_end as u32, b2 as u32);
                    assert forall|k: int| 0 <= k < result@.len() implies #[trigger] is_terpsichore_turn(
                        *state,
                        player,
                        must_climb,
                        result@[k].action.0,
                    ) by {
                        if k < before.len() {
                            assert(result@[k] == before[k]);
                        }
                    }
                    lemma_lists_word_grows(before, result@);
                    assert(result@[before.len() as int].action.0 == terpsichore_double_data(
                        w1_start as u32,
                        w1_end as u32,
                        b1 as u32,
                        w2_start as u32,
                        w2_end as u32,
                        b2 as u32,
                    ));
                    assert(lists_word(
                        result@,
                        terpsichore_double_data(w1_start as u32, w1_end as u32, b1 as u32, w2_start as u32, w2_end as u32, b2 as u32),
                    ));
                }
            }
            proof {
                assert forall|j: int| 0 <= j < i2 && !(is_shared_build(state.board, p, w1_end as int, w2_end as int, b1 as int)
                    && is_shared_build(state.board, p, w1_end as int, w2_end as int, seconds@[j] as int) && seconds@[j] < b1)
                    implies #[trigger] lists_word(
                    result@,
                    terpsichore_double_data(w1_start as u32, w1_end as u32, b1 as u32, w2_start as u32, w2_end as u32, seconds@[j] as u32),
                ) by {
                    lemma_lists_word_grows(ri2, result@);
                    if j < i2 - 1 {
                        assert(lists_word(
                            ri2,
                            terpsichore_double_data(w1_start as u32, w1_end as u32, b1 as u32, w2_start as u32, w2_end as u32, seconds@[j] as u32),
                        ));
                    }
                }
            }
        }
        proof {
            if flags & NARROWING_FLAGS == 0 {
                assert forall|x1: int, x2: int| #[trigger] double_builds_owed(state.board, p, w1_end as int, w2_end as int, x1, x2) && (exists|j: int|
                    0 <= j < i1 && firsts@[j] == x1) implies lists_word(
                    result@,
                    terpsichore_double_data(w1_start as u32, w1_end as u32, x1 as u32, w2_start as u32, w2_end as u32, x2 as u32),
                ) by {
                    lemma_lists_word_grows(rb, result@);
                    if x1 == b1 {
                        assert(possible_builds_2.has(x2));
                        assert(b2_options.has(x2));
                        assert(seconds@.contains(x2 as u8));
                        let j2 = choose|j2: int| 0 <= j2 < seconds@.len() && seconds@[j2] == x2 as u8;
                        assert(lists_word(
                            result@,
                            terpsichore_double_data(w1_start as u32, w1_end as u32, b1 as u32, w2_start as u32, w2_end as u32, seconds@[j2] as u32),
                        ));
                    } else {
                        assert(lists_word(
                            rb,
                            terpsichore_double_data(w1_start as u32, w1_end as u32, x1 as u32, w2_start as u32, w2_end as u32, x2 as u32),
                        ));
                    }
                }
            }
        }
    }
    proof {
        if flags & NARROWING_FLAGS == 0 {
            assert forall|x1: int, x2: int| #[trigger] double_builds_owed(state.board, p, w1_end as int, w2_end as int, x1, x2) implies lists_word(
                result@,
                terpsichore_double_data(w1_start as u32, w1_end as u32, x1 as u32, w2_start as u32, w2_end as u32, x2 as u32),
            ) by {
                assert(possible_builds_1.has(x1));
                assert(firsts@.contains(x1 as u8));
                let j = choose|j: int| 0 <= j < firsts@.len() && firsts@[j] == x1 as u8;
            }
        }
    }
}

/// Terpsichore's fixed data.
pub fn build_terpsichore() -> (r: GodPower)
    ensures
        r.god_name == GodName::Terpsichore,
        r.hash1 == 412529686953457099u64,
        r.hash2 == 5297169764087678351u64,
        r.placement_type == PlacementType::Normal,
        r.symmetry == BoardSymmetry::Full,
        !r.is_persephone,
{
    god_power(GodName::Terpsichore, 412529686953457099, 5297169764087678351)
}

/// How a turn of this god changes the board: the workers, the heights, the god data and the
/// winner after it, and whose turn it is, are those of `after`.
pub open spec fn terpsichore_move_effect(before: BoardState, after: BoardState, player: Player, data: u32) -> bool {
    &&& after.current_player == before.current_player
    &&& after.god_data == before.god_data
    &&& after.workers[1 - player.idx()] == before.workers[1 - player.idx()]
    &&& (field_at(data, 15) == 25 ==> after.workers[player.idx()].0 == before.workers[player.idx()].0 ^ ((1u32 << field_at(data, 0)) ^ (1u32 << field_at(data, 5))))
    &&& (field_at(data, 15) != 25 ==> after.workers[player.idx()].0 == before.workers[player.idx()].0 ^ ((1u32 << field_at(data, 0)) ^ (1u32 << field_at(data, 5)) ^ (1u32 << field_at(data, 15)) ^ (1u32 << field_at( data, 20, ))))
    &&& (is_winning_data(data) ==> after.winner == Some(player) && after.height_map == before.height_map)
    &&& (!is_winning_data(data) ==> after.winner == before.winner)
    &&& (!is_winning_data(data) && field_at(data, 15) == 25 ==> forall|i: int| #[trigger] after.height(i) == (if i == field_at(data, 10) { before.height(i) + 1 } else { before.height(i) }))
    &&& (!is_winning_data(data) && field_at(data, 15) != 25 ==> forall|i: int| #[trigger] after.height(i) == before.height(i) + (if i == field_at(data, 10) { 1nat } else { 0nat }) + (if i == field_at(data, 25) { 1nat } else { 0nat }))
}

} // verus!
