use vstd::prelude::*;

use crate::bitboard::{apply_neighbor_map_to_mask, group_bit_lemmas, neighbor_mask, BitBoard};
use crate::board::{BoardState, FullGameState, Player};
use crate::generic::{
    build_scored_move, field_at, NARROWING_FLAGS, is_interact_with_key_squares, is_mate_only, is_winning_data, lemma_pack4,
    read_position, GenericMove, MoveData, MoveGenFlags, ScoredMove, MOVE_IS_WINNING_MASK,
};
use crate::gods::mortal::{
    is_acting_worker, is_standard_build_for, lemma_acting_in_prelude, lemma_lists_word_grows, lemma_move_worker_keeps_wf, lists_word,
};
use crate::gods::move_helpers::{
    get_generator_prelude_state, get_standard_reach_board_from_parts, get_worker_end_move_state,
    get_worker_next_build_state, get_worker_next_move_state, get_worker_start_move_state, is_standard_step,
    modify_prelude_for_checking_workers, GeneratorPreludeState,
};
use crate::gods::{BoardSymmetry, PlacementType, god_power, GodName, GodPower};
use crate::square::{is_adjacent, is_square, Square};

verus! {

/// The value of the drag field that names no square.
pub const NO_DRAG: u32 = 25;

/// A Scylla turn: a plain move and build, possibly dragging an opposing worker that stood next to
/// the mover into the square it left. The fourth field names the dragged worker's square, or 25.
#[derive(Clone, Copy, PartialEq, Eq, Structural, Debug)]
pub struct ScyllaMove(pub MoveData);

/// The word of a Scylla turn, field by field.
pub open spec fn scylla_word(from: u32, to: u32, build: u32, drag: u32) -> u32 {
    from | (to << 5u32) | (build << 10u32) | (drag << 15u32)
}

/// The word of a winning Scylla move.
pub open spec fn scylla_winning_word(from: u32, to: u32) -> u32 {
    scylla_word(from, to, 0, NO_DRAG) | MOVE_IS_WINNING_MASK
}

/// Whether the square `s` holds an opposing worker once the one on `d` was dragged to `from`.
pub open spec fn holds_oppo_after_drag(board: BoardState, player: Player, from: int, d: int, s: int) -> bool {
    (board.workers[1 - player.idx()].has(s) && s != d) || s == from
}

/// A build after a dragging move from `from` to `to`: a neighbour of `to`, undomed, free once the
/// dragged worker left `d` and stands on `from`, and allowed by the opposing god as the opposing
/// workers then stand.
pub open spec fn is_drag_build(state: FullGameState, player: Player, from: int, to: int, d: int, build: int) -> bool {
    let board = state.board;
    &&& is_adjacent(to, build)
    &&& build != from
    &&& (build == d || !board.occupied(build))
    &&& board.height(build) < 4
    &&& drag_build_allowed(state, player, from, d, build)
}

/// Whether the opposing god allows a build on `build` once the worker on `d` was dragged to
/// `from`: next to Limus's workers only a level 3 square may be domed.
pub open spec fn drag_build_allowed(state: FullGameState, player: Player, from: int, d: int, build: int) -> bool {
    let board = state.board;
    state.gods[1 - player.idx()].is_limus_spec() ==> !(exists|s: int|
        0 <= s < 25 && #[trigger] holds_oppo_after_drag(board, player, from, d, s) && is_adjacent(s, build))
        || board.height(build) == 3
}

/// A legal Scylla turn, read off its word: a plain winning move, a plain move and build, or a move
/// that drags an opposing worker, not on a dome, from next to the mover's start into it, then
/// builds.
pub open spec fn is_scylla_turn(state: FullGameState, player: Player, must_climb: bool, data: u32) -> bool {
    let board = state.board;
    let from = field_at(data, 0);
    let to = field_at(data, 5);
    let build = field_at(data, 10);
    let drag = field_at(data, 15);
    &&& is_acting_worker(state, player, from as int)
    &&& is_standard_step(board, from as int, to as int, must_climb)
    &&& if is_winning_data(data) {
        &&& data == scylla_winning_word(from, to)
        &&& board.height(from as int) == 2
        &&& board.height(to as int) == 3
    } else {
        &&& !(board.height(from as int) == 2 && board.height(to as int) == 3)
        &&& data == scylla_word(from, to, build, drag)
        &&& if drag == NO_DRAG {
            is_standard_build_for(state, player, from as int, to as int, build as int)
        } else {
            &&& is_adjacent(from as int, drag as int)
            &&& board.workers[1 - player.idx()].has(drag as int)
            &&& board.height(drag as int) < 4
            &&& is_drag_build(state, player, from as int, to as int, drag as int, build as int)
        }
    }
}

impl ScyllaMove {
    fn new_word(from: Square, to: Square, build: Square, drag: u32) -> (r: Self)
        requires
            from < 25,
            to < 25,
            build < 25,
            drag <= 25,
        ensures
            r.0 == scylla_word(from as u32, to as u32, build as u32, drag),
    {
        ScyllaMove((from as u32) | ((to as u32) << 5u32) | ((build as u32) << 10u32) | (drag << 15u32))
    }

    pub fn new_scylla_basic_move(move_from_position: Square, move_to_position: Square, build_position: Square) -> (r: Self)
        requires
            move_from_position < 25,
            move_to_position < 25,
            build_position < 25,
        ensures
            r.0 == scylla_word(move_from_position as u32, move_to_position as u32, build_position as u32, NO_DRAG),
    {
        Self::new_word(move_from_position, move_to_position, build_position, NO_DRAG)
    }

    pub fn new_scylla_drag_move(
        move_from_position: Square,
        move_to_position: Square,
        build_position: Square,
        drag_from_position: Square,
    ) -> (r: Self)
        requires
            move_from_position < 25,
            move_to_position < 25,
            build_position < 25,
            drag_from_position < 25,
        ensures
            r.0 == scylla_word(
                move_from_position as u32,
                move_to_position as u32,
                build_position as u32,
                drag_from_position as u32,
            ),
    {
        Self::new_word(move_from_position, move_to_position, build_position, drag_from_position as u32)
    }

    pub fn new_winning_move(move_from_position: Square, move_to_position: Square) -> (r: Self)
        requires
            move_from_position < 25,
            move_to_position < 25,
        ensures
            r.0 == scylla_winning_word(move_from_position as u32, move_to_position as u32),
    {
        let w = Self::new_word(move_from_position, move_to_position, 0, NO_DRAG);
        ScyllaMove(w.0 | MOVE_IS_WINNING_MASK)
    }

    pub fn move_from_position(&self) -> (r: Square)
        ensures
            r == field_at(self.0, 0),
    {
        read_position(self.0, 0)
    }

    pub fn move_to_position(&self) -> (r: Square)
        ensures
            r == field_at(self.0, 5),
    {
        read_position(self.0, 5)
    }

    pub fn build_position(self) -> (r: Square)
        ensures
            r == field_at(self.0, 10),
    {
        read_position(self.0, 10)
    }

    /// The square of the dragged worker, if any.
    pub fn maybe_drag_from_position(&self) -> (r: Option<Square>)
        ensures
            field_at(self.0, 15) == NO_DRAG ==> r is None,
            field_at(self.0, 15) != NO_DRAG ==> r == Some(field_at(self.0, 15) as u8),
            field_at(self.0, 15) < 32,
    {
        let value = read_position(self.0, 15);
        if value as u32 == NO_DRAG {
            None
        } else {
            Some(value)
        }
    }

    pub fn get_is_winning(&self) -> (r: bool)
        ensures
            r == is_winning_data(self.0),
    {
        (self.0 & MOVE_IS_WINNING_MASK) != 0
    }

    pub fn to_generic(self) -> (r: GenericMove)
        ensures
            r.0 == self.0,
    {
        GenericMove(self.0)
    }

    pub fn from_generic(action: GenericMove) -> (r: Self)
        ensures
            r.0 == action.0,
    {
        ScyllaMove(action.0)
    }

    /// The squares an opponent would have to touch to stop this move: its start and end.
    pub fn get_blocker_board(self) -> (r: BitBoard)
        requires
            field_at(self.0, 0) < 25,
            field_at(self.0, 5) < 25,
        ensures
            r.0 == (1u32 << field_at(self.0, 0)) | (1u32 << field_at(self.0, 5)),
    {
        BitBoard::as_mask(self.move_from_position()).or(BitBoard::as_mask(self.move_to_position()))
    }

    /// Plays the turn: the worker moves, a dragged opposing worker takes the square it left, and
    /// the turn either wins or builds.
    pub fn make_move(self, board: &mut BoardState, player: Player)
        requires
            field_at(self.0, 0) < 25,
            field_at(self.0, 5) < 25,
            field_at(self.0, 10) < 25,
            !is_winning_data(self.0) ==> old(board).height(field_at(self.0, 10) as int) < 4,
        ensures
            final(board).workers[player.idx()].0 == old(board).workers[player.idx()].0 ^ ((1u32 << field_at(self.0, 0))
                ^ (1u32 << field_at(self.0, 5))),
            field_at(self.0, 15) == NO_DRAG ==> final(board).workers[1 - player.idx()] == old(board).workers[1 - player.idx()],
            field_at(self.0, 15) != NO_DRAG ==> final(board).workers[1 - player.idx()].0 == old(board).workers[1
                - player.idx()].0 ^ ((1u32 << field_at(self.0, 15)) ^ (1u32 << field_at(self.0, 0))),
            final(board).god_data == old(board).god_data,
            final(board).current_player == old(board).current_player,
            is_winning_data(self.0) ==> final(board).winner == Some(player) && final(board).height_map == old(
                board,
            ).height_map,
            !is_winning_data(self.0) ==> final(board).winner == old(board).winner,
            !is_winning_data(self.0) ==> final(board).height(field_at(self.0, 10) as int) == old(board).height(
                field_at(self.0, 10) as int,
            ) + 1,
            !is_winning_data(self.0) ==> forall|i: int| i != field_at(self.0, 10) ==> #[trigger] final(board).height(i)
                == old(board).height(i),
            old(board).wf() && old(board).workers[player.idx()].has(field_at(self.0, 0) as int) && !old(board).occupied(
                field_at(self.0, 5) as int,
            ) && (field_at(self.0, 15) != NO_DRAG ==> old(board).workers[1 - player.idx()].has(field_at(self.0, 15) as int))
                ==> final(board).wf(),
    {
        broadcast use group_bit_lemmas;

        let ghost before = *board;
        let from = self.move_from_position();
        let to = self.move_to_position();
        let move_from = BitBoard::as_mask(from);
        let move_to = BitBoard::as_mask(to);
        board.worker_xor(player, move_to.xor(move_from));
        proof {
            assert((1u32 << from) ^ (1u32 << to) == (1u32 << to) ^ (1u32 << from)) by (bit_vector);
            lemma_move_worker_keeps_wf(before, *board, player, from as u32, to as u32);
        }
        let ghost moved = *board;
        match self.maybe_drag_from_position() {
            Some(drag_from) => {
                let mask = BitBoard::as_mask(drag_from).xor(move_from);
                board.worker_xor(player.other(), mask);
                proof {
                    let p = player.idx();
                    if before.wf() && before.workers[p].has(from as int) && !before.occupied(to as int)
                        && before.workers[1 - p].has(drag_from as int) {
                        assert(moved.wf());
                        assert(before.workers[1 - p].within_board());
                        assert(drag_from != from) by {
                            assert(!(before.workers[0].has(from as int) && before.workers[1].has(from as int)));
                        }
                        assert forall|i: int| #[trigger] board.workers[1 - p].has(i) == ((moved.workers[1 - p].has(i) && i != drag_from)
                            || i == from) by {
                            if 0 <= i < 32 {
                                crate::bitboard::lemma_bit_xor(moved.workers[1 - p].0, mask.0, i as u32);
                            }
                        }
                        assert forall|i: int| !(#[trigger] board.workers[0].has(i) && board.workers[1].has(i)) by {
                            assert(!(moved.workers[0].has(i) && moved.workers[1].has(i)));
                        }
                        assert(board.workers[1 - p].within_board());
                        assert(board.workers[0].within_board() && board.workers[1].within_board());
                    }
                }
            },
            None => {},
        }
        if self.get_is_winning() {
            board.set_winner(player);
            return;
        }
        board.build_up(self.build_position());
    }
}

/// A Scylla turn can be played: its squares are on the board, the mover is the player's and lands
/// on a free square, a dragged worker is the opponent's, and a build goes on an undomed square.
pub proof fn lemma_scylla_turn_playable(state: FullGameState, player: Player, data: u32)
    requires
        state.board.wf(),
        is_scylla_turn(state, player, false, data),
    ensures
        field_at(data, 0) < 25,
        field_at(data, 5) < 25,
        field_at(data, 10) < 25,
        !is_winning_data(data) ==> state.board.height(field_at(data, 10) as int) < 4,
        state.board.workers[player.idx()].has(field_at(data, 0) as int),
        !state.board.occupied(field_at(data, 5) as int),
        field_at(data, 15) != NO_DRAG ==> state.board.workers[1 - player.idx()].has(field_at(data, 15) as int),
{
    let from = field_at(data, 0);
    let to = field_at(data, 5);
    if is_winning_data(data) {
        lemma_pack4(from, to, 0, NO_DRAG);
        lemma_winning_word_fields(from, to);
    }
}

/// The fields of a winning word.
proof fn lemma_winning_word_fields(from: u32, to: u32)
    by (bit_vector)
    requires
        from < 32,
        to < 32,
    ensures
        ((((from | (to << 5u32) | (0u32 << 10u32) | (25u32 << 15u32)) | 0x8000_0000u32) >> 10u32) & 31u32) == 0,
        ((((from | (to << 5u32) | (0u32 << 10u32) | (25u32 << 15u32)) | 0x8000_0000u32) >> 15u32) & 31u32) == 25,
{
}

/// What the generator knows of its position while it works.
pub open spec fn scylla_prelude_matches(prelude: GeneratorPreludeState, state: FullGameState, player: Player) -> bool {
    &&& prelude.inv()
    &&& state.board.wf()
    &&& prelude.board == state.board
    &&& prelude.player == player
    &&& prelude.other_god == state.gods[1 - player.idx()]
    &&& prelude.oppo_workers.0 == state.board.workers[1 - player.idx()].0 & crate::bitboard::MAIN_SECTION
    &&& forall|i: int| #[trigger] prelude.acting_workers.has(i) ==> is_acting_worker(state, player, i)
}

/// A turn that climbs is a turn.
pub proof fn lemma_climbing_scylla_turn_is_turn(state: FullGameState, player: Player, data: u32)
    ensures
        is_scylla_turn(state, player, true, data) ==> is_scylla_turn(state, player, false, data),
{
}

/// Pushes the turns that drag the opposing worker on `drag` into the square the worker on
/// `start` leaves, for each of its steps in `ends`.
fn push_drag_moves(
    flags: MoveGenFlags,
    state: &FullGameState,
    player: Player,
    prelude: &GeneratorPreludeState,
    must_climb: bool,
    result: &mut Vec<ScoredMove>,
    start: Square,
    drag: Square,
    ends: BitBoard,
    other_own_workers: BitBoard,
    other_threatening_workers: BitBoard,
    other_threatening_neighbors: BitBoard,
    key_squares: BitBoard,
)
    requires
        scylla_prelude_matches(*prelude, *state, player),
        start < 25,
        drag < 25,
        is_acting_worker(*state, player, start as int),
        is_adjacent(start as int, drag as int),
        state.board.workers[1 - player.idx()].has(drag as int),
        state.board.height(drag as int) < 4,
        forall|i: int| #[trigger] other_own_workers.has(i) == (state.board.workers[player.idx()].has(i) && i != start),
        forall|i: int| #[trigger] ends.has(i) ==> is_standard_step(state.board, start as int, i, must_climb) && !(
        state.board.height(start as int) == 2 && state.board.height(i) == 3),
        forall|k: int| 0 <= k < old(result)@.len() ==> #[trigger] is_scylla_turn(*state, player, must_climb, old(result)@[k].action.0),
    ensures
        forall|k: int| 0 <= k < final(result)@.len() ==> #[trigger] is_scylla_turn(*state, player, must_climb, final(result)@[k].action.0),
        old(result)@.len() <= final(result)@.len(),
        forall|k: int| 0 <= k < old(result)@.len() ==> #[trigger] final(result)@[k] == old(result)@[k],
        flags & NARROWING_FLAGS == 0 ==> forall|data: u32|
            #[trigger] is_scylla_turn(*state, player, must_climb, data) && field_at(data, 0) == start
            && !is_winning_data(data) && field_at(data, 15) == drag && ends.has(field_at(data, 5) as int) ==> lists_word(final(result)@, data),
{
    broadcast use group_bit_lemmas;

    proof {
        crate::generic::lemma_no_flags(flags);
    }
    let ghost start_list = result@;
    let board = prelude.board;
    let start_mask = BitBoard::as_mask(start);
    let drag_mask = BitBoard::as_mask(drag);
    let new_oppo_workers = prelude.oppo_workers.xor(drag_mask).xor(start_mask);
    let all_blockers_after_drag = prelude.domes_and_frozen.or(new_oppo_workers).or(other_own_workers);
    let new_build_mask = prelude.other_god.get_build_mask(new_oppo_workers).or(prelude.exactly_level_3);
    proof {
        let p = player.idx();
        assert(board.workers[0].within_board() && board.workers[1].within_board());
        assert(start as int != drag as int);
        assert forall|s: int| #[trigger] new_oppo_workers.has(s) == holds_oppo_after_drag(board, player, start as int, drag as int, s) by {
            assert(prelude.oppo_workers.has(s) == board.workers[1 - p].has(s));
            if s == start as int {
                assert(board.workers[p].has(s));
                assert(!(board.workers[0].has(s) && board.workers[1].has(s)));
            }
        }
    }
    proof {
        assert forall|i: int| #[trigger] new_build_mask.has(i) implies drag_build_allowed(*state, player, start as int, drag as int, i) by {
            if prelude.other_god.is_limus_spec() && !prelude.exactly_level_3.has(i) {
                assert(0 <= i < 32);
                assert(!(exists|s: int| 0 <= s < 25 && #[trigger] new_oppo_workers.has(s) && is_adjacent(s, i)));
                assert forall|s: int| 0 <= s < 25 && #[trigger] holds_oppo_after_drag(board, player, start as int, drag as int, s)
                    implies !is_adjacent(s, i) by {
                    assert(new_oppo_workers.has(s));
                }
            }
        }
    }
    proof {
        assert forall|i: int| 0 <= i < 25 && #[trigger] drag_build_allowed(*state, player, start as int, drag as int, i)
            implies new_build_mask.has(i) by {
            if prelude.other_god.is_limus_spec() && state.board.height(i) != 3 {
                assert forall|s: int| 0 <= s < 25 && #[trigger] new_oppo_workers.has(s) implies !is_adjacent(s, i) by {
                    assert(holds_oppo_after_drag(board, player, start as int, drag as int, s));
                }
            }
            if state.board.height(i) == 3 {
                assert(prelude.exactly_level_3.has(i));
            }
        }
    }
    let list = ends.squares();
    let mut ei: usize = 0;
    while ei < list.len()
        invariant
            ei <= list@.len(),
            scylla_prelude_matches(*prelude, *state, player),
            board == state.board,
            start < 25,
            drag < 25,
            is_acting_worker(*state, player, start as int),
            is_adjacent(start as int, drag as int),
            state.board.workers[1 - player.idx()].has(drag as int),
            state.board.height(drag as int) < 4,
            forall|s: int| #[trigger] new_oppo_workers.has(s) == holds_oppo_after_drag(board, player, start as int, drag as int, s),
            forall|i: int| #[trigger] all_blockers_after_drag.has(i) == (prelude.domes_and_frozen.has(i) || new_oppo_workers.has(i)
                || other_own_workers.has(i)),
            forall|i: int| #[trigger] new_build_mask.has(i) ==> drag_build_allowed(*state, player, start as int, drag as int, i),
            forall|i: int| #[trigger] other_own_workers.has(i) == (state.board.workers[player.idx()].has(i) && i != start),
            forall|k: int| 0 <= k < list@.len() ==> #[trigger] list@[k] < 25 && is_standard_step(state.board, start as int, list@[k] as int, must_climb)
                && !(state.board.height(start as int) == 2 && state.board.height(list@[k] as int) == 3),
            forall|k: int| 0 <= k < result@.len() ==> #[trigger] is_scylla_turn(*state, player, must_climb, result@[k].action.0),
            forall|i: int| 0 <= i < 25 && #[trigger] drag_build_allowed(*state, player, start as int, drag as int, i) ==> new_build_mask.has(i),
            start_list.len() <= result@.len(),
            forall|k: int| 0 <= k < start_list.len() ==> #[trigger] result@[k] == start_list[k],
            flags & NARROWING_FLAGS == 0 ==> flags & 8 == 0,
            flags & NARROWING_FLAGS == 0 ==> forall|data: u32| #[trigger] is_scylla_turn(*state, player, must_climb, data) && field_at(data, 0) == start
            && !is_winning_data(data) && field_at(data, 15) == drag && (exists|j: int| 0 <= j < ei && list@[j] as u32 == field_at(data, 5))
                ==> lists_word(result@, data),
        decreases list@.len() - ei,
    {
        let end = list[ei];
        let end_mask = BitBoard::as_mask(end);
        let all_possible_builds = neighbor_mask(end).minus(all_blockers_after_drag).and(new_build_mask);
        proof {
            let p = player.idx();
            assert forall|b: int| #[trigger] all_possible_builds.has(b) implies is_drag_build(
                *state,
                player,
                start as int,
                end as int,
                drag as int,
                b,
            ) by {
                assert(!new_oppo_workers.has(b));
                assert(!other_own_workers.has(b));
                assert(!prelude.domes_and_frozen.has(b));
                if board.workers[1 - p].has(b) {
                    assert(prelude.oppo_workers.has(b));
                }
            }
        }
        let narrowed_builds = if is_interact_with_key_squares(flags) && key_squares.and(end_mask.or(drag_mask).or(start_mask)).is_empty() {
            all_possible_builds.and(prelude.key_squares)
        } else {
            all_possible_builds
        };
        let end_height = board.get_height(end);
        let is_mate_capable: u32 = if end_height == 2 { 1 } else { 0 };
        let reach_board = get_standard_reach_board_from_parts(
            prelude,
            other_threatening_workers,
            other_threatening_neighbors,
            end,
            is_mate_capable,
            all_blockers_after_drag.or(end_mask).not(),
        );
        let is_improving = end_height > board.get_height(start);
        let builds = narrowed_builds.squares();
        proof {
            if flags & NARROWING_FLAGS == 0 {
                let p = player.idx();
                assert forall|b: int| 0 <= b < 25 && #[trigger] is_drag_build(*state, player, start as int, end as int, drag as int, b)
                    implies builds@.contains(b as u8) by {
                    assert(board.workers[0].within_board() && board.workers[1].within_board());
                    assert(!new_oppo_workers.has(b));
                    assert(!other_own_workers.has(b));
                    assert(!prelude.domes_and_frozen.has(b));
                    assert(new_build_mask.has(b));
                    assert(all_possible_builds.has(b));
                    assert(narrowed_builds.has(b));
                }
            }
        }
        let mut bi: usize = 0;
        while bi < builds.len()
            invariant
                bi <= builds@.len(),
                scylla_prelude_matches(*prelude, *state, player),
                board == state.board,
                start < 25,
                end < 25,
                drag < 25,
                is_acting_worker(*state, player, start as int),
                is_standard_step(state.board, start as int, end as int, must_climb),
                !(state.board.height(start as int) == 2 && state.board.height(end as int) == 3),
                is_adjacent(start as int, drag as int),
                state.board.workers[1 - player.idx()].has(drag as int),
                state.board.height(drag as int) < 4,
                forall|k: int| 0 <= k < builds@.len() ==> #[trigger] builds@[k] < 25 && is_drag_build(
                    *state,
                    player,
                    start as int,
                    end as int,
                    drag as int,
                    builds@[k] as int,
                ),
                forall|k: int| 0 <= k < result@.len() ==> #[trigger] is_scylla_turn(*state, player, must_climb, result@[k].action.0),
                start_list.len() <= result@.len(),
                forall|k: int| 0 <= k < start_list.len() ==> #[trigger] result@[k] == start_list[k],
                flags & NARROWING_FLAGS == 0 ==> forall|data: u32| #[trigger] is_scylla_turn(*state, player, must_climb, data) && field_at(data, 0) == start
            && !is_winning_data(data) && field_at(data, 15) == drag && (exists|j: int| 0 <= j < ei && list@[j] as u32 == field_at(data, 5))
                    ==> lists_word(result@, data),
                flags & NARROWING_FLAGS == 0 ==> forall|data: u32| #[trigger] is_scylla_turn(*state, player, must_climb, data) && field_at(data, 0) == start
            && !is_winning_data(data) && field_at(data, 15) == drag && field_at(data, 5) == end && (exists|j: int| 0 <= j < bi && builds@[j] as u32 == field_at(data, 10))
                    ==> lists_word(result@, data),
                flags & NARROWING_FLAGS == 0 ==> forall|b: int| 0 <= b < 25 && #[trigger] is_drag_build(*state, player, start as int, end as int, drag as int, b) ==> builds@.contains(b as u8),
                ei < list@.len(),
                list@[ei as int] == end,
            decreases builds@.len() - bi,
        {
            let build = builds[bi];
            let build_mask = BitBoard::as_mask(build);
            let new_action = ScyllaMove::new_scylla_drag_move(start, end, build, drag);
            let final_level_3 = prelude.exactly_level_2.and(build_mask).or(prelude.exactly_level_3.minus(build_mask));
            let is_check = reach_board.and(final_level_3).is_not_empty();
            let ghost before = result@;
            result.push(build_scored_move(flags, new_action.to_generic(), is_check, is_improving));
            proof {
                lemma_lists_word_grows(before, result@);
                assert(result@[before.len() as int].action.0 == scylla_word(start as u32, end as u32, build as u32, drag as u32));
                lemma_pack4(start as u32, end as u32, build as u32, drag as u32);
                assert forall|k: int| 0 <= k < result@.len() implies #[trigger] is_scylla_turn(
                    *state,
                    player,
                    must_climb,
                    result@[k].action.0,
                ) by {
                    if k < before.len() {
                        assert(result@[k] == before[k]);
                    }
                }
            }
            bi = bi + 1;
        }
        proof {
            if flags & NARROWING_FLAGS == 0 {
                assert forall|data: u32| #[trigger] is_scylla_turn(*state, player, must_climb, data) && field_at(data, 0) == start
            && !is_winning_data(data) && field_at(data, 15) == drag && (exists|j: int| 0 <= j < ei + 1 && list@[j] as u32 == field_at(data, 5))
                    implies lists_word(result@, data) by {
                    let j = choose|j: int| 0 <= j < ei + 1 && list@[j] as u32 == field_at(data, 5);
                    if j == ei {
                        let b = field_at(data, 10);
                        assert(is_drag_build(*state, player, start as int, end as int, drag as int, b as int));
                        assert(builds@.contains(b as u8));
                        let jb = choose|jb: int| 0 <= jb < builds@.len() && builds@[jb] == b as u8;
                        assert(builds@[jb] as u32 == field_at(data, 10));
                    }
                }
            }
        }
        ei = ei + 1;
    }
    proof {
        if flags & NARROWING_FLAGS == 0 {
            assert forall|data: u32| #[trigger] is_scylla_turn(*state, player, must_climb, data) && field_at(data, 0) == start
            && !is_winning_data(data) && field_at(data, 15) == drag && ends.has(field_at(data, 5) as int) implies lists_word(result@, data) by {
                let to = field_at(data, 5);
                assert(list@.contains(to as u8));
                let j = choose|j: int| 0 <= j < list@.len() && list@[j] == to as u8;
                assert(list@[j] as u32 == field_at(data, 5));
            }
        }
    }
}

/// The turns the generator owes with no narrowing filter on: every legal turn, except that
/// against Persephone, when a climb exists, only the climbing ones.
pub open spec fn scylla_turn_owed(state: FullGameState, player: Player, must_climb: bool, data: u32) -> bool {
    &&& is_scylla_turn(state, player, must_climb, data)
    &&& (state.gods[1 - player.idx()].is_persephone_spec() && !must_climb && exists|d: u32| #[trigger] is_scylla_turn(state, player, true, d))
        ==> is_scylla_turn(state, player, true, data)
}

/// Scylla's move generator; `must_climb` asks for climbing moves only, which is how Persephone's
/// restriction is applied.
pub fn scylla_move_gen(
    flags: MoveGenFlags,
    state: &FullGameState,
    player: Player,
    key_squares: BitBoard,
    must_climb: bool,
) -> (result: Vec<ScoredMove>)
    requires
        state.board.wf(),
    ensures
        forall|k: int| 0 <= k < result@.len() ==> #[trigger] is_scylla_turn(*state, player, must_climb, result@[k].action.0),
        flags & NARROWING_FLAGS == 0 ==> forall|data: u32| #[trigger] scylla_turn_owed(*state, player, must_climb, data) ==> lists_word(
            result@,
            data,
        ),
        flags & NARROWING_FLAGS == 0 && state.gods[1 - player.idx()].is_persephone_spec() && !must_climb && (exists|d: u32|
            #[trigger] is_scylla_turn(*state, player, true, d)) ==> forall|k: int| 0 <= k < result@.len()
            ==> #[trigger] is_scylla_turn(*state, player, true, result@[k].action.0),
    decreases if must_climb { 0int } else { 1int },
{
    broadcast use group_bit_lemmas;

    proof {
        crate::generic::lemma_no_flags(flags);
    }

    let mut result = if state.gods[player.other().index()].is_persephone() && !must_climb {
        let climbing = scylla_move_gen(flags, state, player, key_squares, true);
        proof {
            assert forall|k: int| 0 <= k < climbing@.len() implies #[trigger] is_scylla_turn(
                *state,
                player,
                must_climb,
                climbing@[k].action.0,
            ) by {
                lemma_climbing_scylla_turn_is_turn(*state, player, climbing@[k].action.0);
            }
        }
        if climbing.len() > 0 {
            proof {
                if flags & NARROWING_FLAGS == 0 {
                    assert(is_scylla_turn(*state, player, true, climbing@[0].action.0));
                    assert forall|data: u32| #[trigger] scylla_turn_owed(*state, player, must_climb, data) implies lists_word(climbing@, data) by {
                        assert(scylla_turn_owed(*state, player, true, data));
                    }
                }
            }
            return climbing;
        }
        proof {
            if flags & NARROWING_FLAGS == 0 {
                assert forall|d: u32| !#[trigger] is_scylla_turn(*state, player, true, d) by {
                    if is_scylla_turn(*state, player, true, d) {
                        assert(scylla_turn_owed(*state, player, true, d));
                    }
                }
            }
        }
        if flags & crate::generic::ANY_MOVE_FILTER > 0 {
            let unrestricted = scylla_move_gen(0, state, player, key_squares, true);
            if unrestricted.len() > 0 {
                return climbing;
            }
        }
        climbing
    } else {
        Vec::new()
    };
    assert(flags & NARROWING_FLAGS == 0 && state.gods[1 - player.idx()].is_persephone_spec() && !must_climb ==> forall|d: u32|
        !#[trigger] is_scylla_turn(*state, player, true, d));

    let mut prelude = get_generator_prelude_state(state, player, key_squares);
    let ghost initial_acting = prelude.acting_workers;
    let ghost own0 = prelude.own_workers;
    proof {
        assert forall|i: int| #[trigger] prelude.acting_workers.has(i) implies is_acting_worker(*state, player, i) by {
            crate::gods::mortal::lemma_prelude_acting(*state, player, prelude.own_workers, prelude.acting_workers, i);
        }
    }
    let checkable_mask = prelude.mate_start_mask;
    modify_prelude_for_checking_workers(flags, checkable_mask, &mut prelude);
    let workers = prelude.acting_workers.squares();

    let mut wi: usize = 0;
    while wi < workers.len()
        invariant
            flags & NARROWING_FLAGS == 0 && state.gods[1 - player.idx()].is_persephone_spec() && !must_climb ==> forall|d: u32|
                !#[trigger] is_scylla_turn(*state, player, true, d),
            wi <= workers@.len(),
            scylla_prelude_matches(prelude, *state, player),
            checkable_mask == prelude.exactly_level_2,
            forall|k: int| 0 <= k < workers@.len() ==> #[trigger] workers@[k] < 25 && prelude.acting_workers.has(workers@[k] as int),
            forall|i: int| #[trigger] prelude.acting_workers.has(i) && flags & crate::generic::MATE_ONLY != 0 ==> prelude.exactly_level_2.has(i),
            forall|k: int| 0 <= k < result@.len() ==> #[trigger] is_scylla_turn(*state, player, must_climb, result@[k].action.0),
            flags & NARROWING_FLAGS == 0 ==> forall|data: u32| #[trigger] is_scylla_turn(*state, player, must_climb, data) && (exists|j: int|
                0 <= j < wi && workers@[j] as u32 == field_at(data, 0)) ==> lists_word(result@, data),
            flags & NARROWING_FLAGS == 0 ==> flags & 1 == 0 && flags & 2 == 0 && flags & 8 == 0,
        decreases workers@.len() - wi,
    {
        let worker_start_pos = workers[wi];
        proof {
            assert(is_acting_worker(*state, player, worker_start_pos as int));
        }
        let worker_start_state = get_worker_start_move_state(&prelude, worker_start_pos);
        let worker_next_moves = get_worker_next_move_state(&prelude, &worker_start_state, checkable_mask, must_climb);
        let mut worker_moves = worker_next_moves.worker_moves;

        if is_mate_only(flags) || worker_start_state.can_mate {
            let moves_to_level_3 = worker_moves.and(worker_start_state.winnable_squares);
            let wins = moves_to_level_3.squares();
            let mut k: usize = 0;
            while k < wins.len()
                invariant
                    flags & NARROWING_FLAGS == 0 && state.gods[1 - player.idx()].is_persephone_spec() && !must_climb ==> forall|d: u32|
                        !#[trigger] is_scylla_turn(*state, player, true, d),
                    k <= wins@.len(),
                    scylla_prelude_matches(prelude, *state, player),
                    worker_start_pos < 25,
                    is_acting_worker(*state, player, worker_start_pos as int),
                    forall|j: int| 0 <= j < wins@.len() ==> #[trigger] wins@[j] < 25 && is_standard_step(state.board, worker_start_pos as int, wins@[j] as int, must_climb)
                        && state.board.height(worker_start_pos as int) == 2 && state.board.height(wins@[j] as int) == 3,
                    forall|j: int| 0 <= j < result@.len() ==> #[trigger] is_scylla_turn(*state, player, must_climb, result@[j].action.0),
                    flags & NARROWING_FLAGS == 0 ==> forall|data: u32| #[trigger] is_scylla_turn(*state, player, must_climb, data) && (exists|j: int|
                0 <= j < wi && workers@[j] as u32 == field_at(data, 0)) ==> lists_word(result@, data),
                    flags & NARROWING_FLAGS == 0 ==> flags & 1 == 0 && flags & 2 == 0 && flags & 8 == 0,
                    flags & NARROWING_FLAGS == 0 ==> forall|data: u32| #[trigger] is_scylla_turn(*state, player, must_climb, data) && field_at(data, 0) == worker_start_pos && is_winning_data(data) && (exists|j: int| 0 <= j < k && wins@[j] as u32 == field_at(data, 5))
                        ==> lists_word(result@, data),
                decreases wins@.len() - k,
            {
                let new_action = ScyllaMove::new_winning_move(worker_start_pos, wins[k]);
                let ghost before = result@;
                result.push(ScoredMove::new_winning_move(new_action.to_generic()));
                proof {
                    lemma_lists_word_grows(before, result@);
                    assert(result@[before.len() as int].action.0 == scylla_winning_word(worker_start_pos as u32, wins@[k as int] as u32));
                    lemma_pack4(worker_start_pos as u32, wins@[k as int] as u32, 0, NO_DRAG);
                    lemma_winning_word_fields(worker_start_pos as u32, wins@[k as int] as u32);
                    assert forall|j: int| 0 <= j < result@.len() implies #[trigger] is_scylla_turn(
                        *state,
                        player,
                        must_climb,
                        result@[j].action.0,
                    ) by {
                        if j < before.len() {
                            assert(result@[j] == before[j]);
                        }
                    }
                }
                if crate::generic::is_stop_on_mate(flags) {
                    return result;
                }
                k = k + 1;
            }
            proof {
                if flags & NARROWING_FLAGS == 0 {
                    assert forall|data: u32| #[trigger] is_scylla_turn(*state, player, must_climb, data) && field_at(data, 0) == worker_start_pos && is_winning_data(data) implies lists_word(result@, data) by {
                        let to = field_at(data, 5);
                        assert(moves_to_level_3.has(to as int));
                        assert(wins@.contains(to as u8));
                        let j = choose|j: int| 0 <= j < wins@.len() && wins@[j] == to as u8;
                        assert(wins@[j] as u32 == field_at(data, 5));
                    }
                }
            }
            worker_moves = worker_moves.xor(moves_to_level_3);
        }
        proof {
            if flags & NARROWING_FLAGS == 0 {
                assert forall|data: u32| #[trigger] is_scylla_turn(*state, player, must_climb, data) && field_at(data, 0) == worker_start_pos && is_winning_data(data) implies lists_word(result@, data) by {
                    assert(worker_start_state.can_mate);
                }
                assert forall|i: int| 0 <= i < 25 && is_standard_step(state.board, worker_start_pos as int, i, must_climb)
                    && !(state.board.height(worker_start_pos as int) == 2 && state.board.height(i) == 3) implies #[trigger] worker_moves.has(i) by {
                    assert(worker_next_moves.worker_moves.has(i));
                }
            }
        }
        if !is_mate_only(flags) {
            let ends = worker_moves.squares();
            let mut ei: usize = 0;
            while ei < ends.len()
                invariant
                    flags & NARROWING_FLAGS == 0 && state.gods[1 - player.idx()].is_persephone_spec() && !must_climb ==> forall|d: u32|
                        !#[trigger] is_scylla_turn(*state, player, true, d),
                    ei <= ends@.len(),
                    scylla_prelude_matches(prelude, *state, player),
                    worker_start_pos < 25,
                    worker_start_state.describes(prelude, worker_start_pos as int),
                    is_acting_worker(*state, player, worker_start_pos as int),
                    forall|k: int| 0 <= k < ends@.len() ==> #[trigger] ends@[k] < 25 && is_standard_step(
                        state.board,
                        worker_start_pos as int,
                        ends@[k] as int,
                        must_climb,
                    ) && !(state.board.height(worker_start_pos as int) == 2 && state.board.height(ends@[k] as int) == 3),
                    forall|k: int| 0 <= k < result@.len() ==> #[trigger] is_scylla_turn(*state, player, must_climb, result@[k].action.0),
                    flags & NARROWING_FLAGS == 0 ==> forall|data: u32| #[trigger] is_scylla_turn(*state, player, must_climb, data) && (exists|j: int|
                        0 <= j < wi && workers@[j] as u32 == field_at(data, 0)) ==> lists_word(result@, data),
                    flags & NARROWING_FLAGS == 0 ==> flags & 1 == 0 && flags & 2 == 0 && flags & 8 == 0,
                    flags & NARROWING_FLAGS == 0 ==> forall|data: u32| #[trigger] is_scylla_turn(*state, player, must_climb, data) && field_at(data, 0) == worker_start_pos && is_winning_data(data) ==> lists_word(result@, data),
                    flags & NARROWING_FLAGS == 0 ==> forall|data: u32| #[trigger] is_scylla_turn(*state, player, must_climb, data) && field_at(data, 0) == worker_start_pos && !is_winning_data(data)
                    && field_at(data, 15) == NO_DRAG && (exists|j: int| 0 <= j < ei && ends@[j] as u32 == field_at(data, 5))
                        ==> lists_word(result@, data),
                    flags & NARROWING_FLAGS == 0 ==> forall|i: int| 0 <= i < 25 && is_standard_step(state.board, worker_start_pos as int, i, must_climb)
                        && !(state.board.height(worker_start_pos as int) == 2 && state.board.height(i) == 3) ==> #[trigger] worker_moves.has(i),
                    forall|i: int| 0 <= i < 25 && #[trigger] worker_moves.has(i) ==> ends@.contains(i as u8),
                decreases ends@.len() - ei,
            {
                let worker_end_pos = ends[ei];
                let worker_end_move_state = get_worker_end_move_state(&prelude, &worker_start_state, worker_end_pos);
                let worker_next_build_state = get_worker_next_build_state(flags, &prelude, &worker_start_state, &worker_end_move_state);
                let reach_board = get_standard_reach_board_from_parts(
                    &prelude,
                    worker_next_moves.other_threatening_workers,
                    worker_next_moves.other_threatening_neighbors,
                    worker_end_pos,
                    worker_end_move_state.is_mate_capable,
                    worker_next_build_state.unblocked_squares,
                );
                let builds = worker_next_build_state.narrowed_builds.squares();
                proof {
                    if flags & NARROWING_FLAGS == 0 {
                        assert forall|b: int| 0 <= b < 25 && #[trigger] is_standard_build_for(*state, player, worker_start_pos as int, worker_end_pos as int, b)
                            implies builds@.contains(b as u8) by {
                            assert(worker_next_build_state.all_possible_builds.has(b));
                        }
                    }
                }
                let mut bi: usize = 0;
                while bi < builds.len()
                    invariant
                        flags & NARROWING_FLAGS == 0 && state.gods[1 - player.idx()].is_persephone_spec() && !must_climb ==> forall|d: u32|
                            !#[trigger] is_scylla_turn(*state, player, true, d),
                        bi <= builds@.len(),
                        scylla_prelude_matches(prelude, *state, player),
                        worker_start_pos < 25,
                        worker_end_pos < 25,
                        is_acting_worker(*state, player, worker_start_pos as int),
                        is_standard_step(state.board, worker_start_pos as int, worker_end_pos as int, must_climb),
                        !(state.board.height(worker_start_pos as int) == 2 && state.board.height(worker_end_pos as int) == 3),
                        worker_next_build_state.describes(prelude, worker_start_pos as int, worker_end_pos as int),
                        forall|k: int| 0 <= k < builds@.len() ==> #[trigger] builds@[k] < 25
                            && worker_next_build_state.narrowed_builds.has(builds@[k] as int),
                        forall|k: int| 0 <= k < result@.len() ==> #[trigger] is_scylla_turn(*state, player, must_climb, result@[k].action.0),
                        flags & NARROWING_FLAGS == 0 ==> forall|data: u32| #[trigger] is_scylla_turn(*state, player, must_climb, data) && (exists|j: int|
                            0 <= j < wi && workers@[j] as u32 == field_at(data, 0)) ==> lists_word(result@, data),
                        flags & NARROWING_FLAGS == 0 ==> flags & 1 == 0 && flags & 2 == 0 && flags & 8 == 0,
                        flags & NARROWING_FLAGS == 0 ==> forall|data: u32| #[trigger] is_scylla_turn(*state, player, must_climb, data) && field_at(data, 0) == worker_start_pos && is_winning_data(data) ==> lists_word(result@, data),
                        flags & NARROWING_FLAGS == 0 ==> forall|data: u32| #[trigger] is_scylla_turn(*state, player, must_climb, data) && field_at(data, 0) == worker_start_pos && !is_winning_data(data)
                        && field_at(data, 15) == NO_DRAG && (exists|j: int| 0 <= j < ei && ends@[j] as u32 == field_at(data, 5))
                            ==> lists_word(result@, data),
                        flags & NARROWING_FLAGS == 0 ==> forall|i: int| 0 <= i < 25 && is_standard_step(state.board, worker_start_pos as int, i, must_climb)
                            && !(state.board.height(worker_start_pos as int) == 2 && state.board.height(i) == 3) ==> #[trigger] worker_moves.has(i),
                        forall|i: int| 0 <= i < 25 && #[trigger] worker_moves.has(i) ==> ends@.contains(i as u8),
                        flags & NARROWING_FLAGS == 0 ==> forall|data: u32| #[trigger] is_scylla_turn(*state, player, must_climb, data) && field_at(data, 0) == worker_start_pos && !is_winning_data(data)
                    && field_at(data, 15) == NO_DRAG && field_at(data, 5) == worker_end_pos && (exists|j: int| 0 <= j < bi
                            && builds@[j] as u32 == field_at(data, 10)) ==> lists_word(result@, data),
                        flags & NARROWING_FLAGS == 0 ==> forall|b: int| 0 <= b < 25 && #[trigger] is_standard_build_for(*state, player, worker_start_pos as int, worker_end_pos as int, b) ==> builds@.contains(b as u8),
                        ei < ends@.len(),
                        ends@[ei as int] == worker_end_pos,
                    decreases builds@.len() - bi,
                {
                    let worker_build_pos = builds[bi];
                    let build_mask = BitBoard::as_mask(worker_build_pos);
                    let new_action = ScyllaMove::new_scylla_basic_move(worker_start_pos, worker_end_pos, worker_build_pos);
                    let final_level_3 = prelude.exactly_level_2.and(build_mask).or(prelude.exactly_level_3.minus(build_mask));
                    let is_check = reach_board.and(final_level_3).is_not_empty();
                    let ghost before = result@;
                    result.push(build_scored_move(flags, new_action.to_generic(), is_check, worker_end_move_state.is_improving));
                    proof {
                        lemma_lists_word_grows(before, result@);
                        assert(result@[before.len() as int].action.0 == scylla_word(worker_start_pos as u32, worker_end_pos as u32, worker_build_pos as u32, NO_DRAG));
                        lemma_pack4(worker_start_pos as u32, worker_end_pos as u32, worker_build_pos as u32, NO_DRAG);
                        assert(worker_next_build_state.all_possible_builds.has(worker_build_pos as int));
                        assert(prelude.build_mask.has(worker_build_pos as int));
                        assert forall|k: int| 0 <= k < result@.len() implies #[trigger] is_scylla_turn(
                            *state,
                            player,
                            must_climb,
                            result@[k].action.0,
                        ) by {
                            if k < before.len() {
                                assert(result@[k] == before[k]);
                            }
                        }
                    }
                    bi = bi + 1;
                }
                proof {
                    if flags & NARROWING_FLAGS == 0 {
                        assert forall|data: u32| #[trigger] is_scylla_turn(*state, player, must_climb, data) && field_at(data, 0) == worker_start_pos && !is_winning_data(data)
                    && field_at(data, 15) == NO_DRAG && (exists|j: int| 0 <= j < ei + 1 && ends@[j] as u32 == field_at(data, 5))
                            implies lists_word(result@, data) by {
                            let j = choose|j: int| 0 <= j < ei + 1 && ends@[j] as u32 == field_at(data, 5);
                            if j == ei {
                                let b = field_at(data, 10);
                                assert(is_standard_build_for(*state, player, worker_start_pos as int, worker_end_pos as int, b as int));
                                assert(builds@.contains(b as u8));
                                let jb = choose|jb: int| 0 <= jb < builds@.len() && builds@[jb] == b as u8;
                                assert(builds@[jb] as u32 == field_at(data, 10));
                            }
                        }
                    }
                }
                ei = ei + 1;
            }
            proof {
                if flags & NARROWING_FLAGS == 0 {
                    assert forall|data: u32| #[trigger] is_scylla_turn(*state, player, must_climb, data) && field_at(data, 0) == worker_start_pos && !is_winning_data(data)
                    && field_at(data, 15) == NO_DRAG implies lists_word(result@, data) by {
                        let to = field_at(data, 5);
                        assert(worker_moves.has(to as int));
                        assert(ends@.contains(to as u8));
                        let je = choose|je: int| 0 <= je < ends@.len() && ends@[je] == to as u8;
                        assert(ends@[je] as u32 == field_at(data, 5));
                    }
                }
            }

            let possible_drags = neighbor_mask(worker_start_pos).and(prelude.oppo_workers).minus(prelude.domes_and_frozen);
            let drags = possible_drags.squares();
            let mut di: usize = 0;
            while di < drags.len()
                invariant
                    flags & NARROWING_FLAGS == 0 && state.gods[1 - player.idx()].is_persephone_spec() && !must_climb ==> forall|d: u32|
                        !#[trigger] is_scylla_turn(*state, player, true, d),
                    di <= drags@.len(),
                    scylla_prelude_matches(prelude, *state, player),
                    worker_start_pos < 25,
                    worker_start_state.describes(prelude, worker_start_pos as int),
                    is_acting_worker(*state, player, worker_start_pos as int),
                    forall|k: int| 0 <= k < drags@.len() ==> #[trigger] drags@[k] < 25 && possible_drags.has(drags@[k] as int),
                    flags & NARROWING_FLAGS == 0 ==> forall|data: u32| #[trigger] is_scylla_turn(*state, player, must_climb, data) && (exists|j: int|
                        0 <= j < wi && workers@[j] as u32 == field_at(data, 0)) ==> lists_word(result@, data),
                    flags & NARROWING_FLAGS == 0 ==> flags & 1 == 0 && flags & 2 == 0 && flags & 8 == 0,
                    flags & NARROWING_FLAGS == 0 ==> forall|data: u32| #[trigger] is_scylla_turn(*state, player, must_climb, data) && field_at(data, 0) == worker_start_pos && is_winning_data(data) ==> lists_word(result@, data),
                    flags & NARROWING_FLAGS == 0 ==> forall|data: u32| #[trigger] is_scylla_turn(*state, player, must_climb, data) && field_at(data, 0) == worker_start_pos && !is_winning_data(data)
                    && field_at(data, 15) == NO_DRAG ==> lists_word(result@, data),
                    flags & NARROWING_FLAGS == 0 ==> forall|data: u32| #[trigger] is_scylla_turn(*state, player, must_climb, data) && field_at(data, 0) == worker_start_pos && !is_winning_data(data)
                    && field_at(data, 15) != NO_DRAG && (exists|j: int| 0 <= j < di && drags@[j] as u32 == field_at(data, 15))
                        ==> lists_word(result@, data),
                    flags & NARROWING_FLAGS == 0 ==> forall|i: int| 0 <= i < 25 && is_standard_step(state.board, worker_start_pos as int, i, must_climb)
                        && !(state.board.height(worker_start_pos as int) == 2 && state.board.height(i) == 3) ==> #[trigger] worker_moves.has(i),
                    forall|i: int| #[trigger] possible_drags.has(i) == (is_adjacent(worker_start_pos as int, i) && prelude.oppo_workers.has(i)
                        && !prelude.domes_and_frozen.has(i)),
                    forall|i: int| #[trigger] worker_moves.has(i) ==> is_standard_step(state.board, worker_start_pos as int, i, must_climb)
                        && !(state.board.height(worker_start_pos as int) == 2 && state.board.height(i) == 3),
                    forall|k: int| 0 <= k < result@.len() ==> #[trigger] is_scylla_turn(*state, player, must_climb, result@[k].action.0),
                decreases drags@.len() - di,
            {
                let drag = drags[di];
                proof {
                    assert(possible_drags.has(drag as int));
                    assert(state.board.workers[1 - player.idx()].has(drag as int));
                    assert forall|i: int| #[trigger] worker_start_state.other_own_workers.has(i) == (state.board.workers[player.idx()].has(i)
                        && i != worker_start_pos) by {
                        assert(prelude.own_workers.has(i) == state.board.workers[player.idx()].has(i));
                    }
                }
                let ghost before = result@;
                push_drag_moves(
                    flags,
                    state,
                    player,
                    &prelude,
                    must_climb,
                    &mut result,
                    worker_start_pos,
                    drag,
                    worker_moves,
                    worker_start_state.other_own_workers,
                    worker_next_moves.other_threatening_workers,
                    worker_next_moves.other_threatening_neighbors,
                    key_squares,
                );
                proof {
                    lemma_lists_word_grows(before, result@);
                    if flags & NARROWING_FLAGS == 0 {
                        assert forall|data: u32| #[trigger] is_scylla_turn(*state, player, must_climb, data) && field_at(data, 0) == worker_start_pos && !is_winning_data(data)
                    && field_at(data, 15) != NO_DRAG && (exists|j: int| 0 <= j < di + 1 && drags@[j] as u32 == field_at(data, 15))
                            implies lists_word(result@, data) by {
                            let j = choose|j: int| 0 <= j < di + 1 && drags@[j] as u32 == field_at(data, 15);
                            if j == di {
                                assert(worker_moves.has(field_at(data, 5) as int));
                            }
                        }
                    }
                }
                di = di + 1;
            }
            proof {
                if flags & NARROWING_FLAGS == 0 {
                    assert forall|data: u32| #[trigger] is_scylla_turn(*state, player, must_climb, data) && field_at(data, 0) == worker_start_pos && !is_winning_data(data)
                    && field_at(data, 15) != NO_DRAG implies lists_word(result@, data) by {
                        let d = field_at(data, 15);
                        assert(possible_drags.has(d as int));
                        assert(drags@.contains(d as u8));
                        let j = choose|j: int| 0 <= j < drags@.len() && drags@[j] == d as u8;
                        assert(drags@[j] as u32 == field_at(data, 15));
                    }
                }
            }
        }
        proof {
            if flags & NARROWING_FLAGS == 0 {
                assert forall|data: u32| #[trigger] is_scylla_turn(*state, player, must_climb, data) && (exists|j: int|
                    0 <= j < wi + 1 && workers@[j] as u32 == field_at(data, 0)) implies lists_word(result@, data) by {
                    let j = choose|j: int| 0 <= j < wi + 1 && workers@[j] as u32 == field_at(data, 0);
                }
            }
        }
        wi = wi + 1;
    }
    proof {
        if flags & NARROWING_FLAGS == 0 {
            assert forall|data: u32| #[trigger] scylla_turn_owed(*state, player, must_climb, data) implies lists_word(result@, data) by {
                let f = field_at(data, 0);
                lemma_acting_in_prelude(*state, player, own0, initial_acting, f as int);
                assert(workers@.contains(f as u8));
                let j = choose|j: int| 0 <= j < workers@.len() && workers@[j] == f as u8;
                assert(workers@[j] as u32 == field_at(data, 0));
            }
        }
    }
    result
}

/// Scylla's fixed data.
pub fn build_scylla() -> (r: GodPower)
    ensures
        r.god_name == GodName::Scylla,
        r.hash1 == 12345678901234567890u64,
        r.hash2 == 9876543210987654321u64,
        r.placement_type == PlacementType::Normal,
        r.symmetry == BoardSymmetry::Full,
        !r.is_persephone,
{
    god_power(GodName::Scylla, 12345678901234567890, 9876543210987654321)
}

/// How a turn of this god changes the board: the workers, the heights, the god data and the
/// winner after it, and whose turn it is, are those of `after`.
pub open spec fn scylla_move_effect(before: BoardState, after: BoardState, player: Player, data: u32) -> bool {
    &&& after.workers[player.idx()].0 == before.workers[player.idx()].0 ^ ((1u32 << field_at(data, 0)) ^ (1u32 << field_at(data, 5)))
    &&& (field_at(data, 15) == NO_DRAG ==> after.workers[1 - player.idx()] == before.workers[1 - player.idx()])
    &&& (field_at(data, 15) != NO_DRAG ==> after.workers[1 - player.idx()].0 == before.workers[1 - player.idx()].0 ^ ((1u32 << field_at(data, 15)) ^ (1u32 << field_at(data, 0))))
    &&& after.god_data == before.god_data
    &&& after.current_player == before.current_player
    &&& (is_winning_data(data) ==> after.winner == Some(player) && after.height_map == before.height_map)
    &&& (!is_winning_data(data) ==> after.winner == before.winner)
    &&& (!is_winning_data(data) ==> after.height(field_at(data, 10) as int) == before.height( field_at(data, 10) as int, ) + 1)
    &&& (!is_winning_data(data) ==> forall|i: int| i != field_at(data, 10) ==> #[trigger] after.height(i) == before.height(i))
}

} // verus!
