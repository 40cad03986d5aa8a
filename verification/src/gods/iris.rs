use vstd::prelude::*;

use crate::bitboard::{group_bit_lemmas, neighbor_mask, BitBoard, MAIN_SECTION};
use crate::board::{BoardState, FullGameState, Player};
use crate::generic::{
    build_scored_move, field_at, NARROWING_FLAGS, is_mate_only, is_winning_data, read_position, GenericMove, MoveData, MoveGenFlags,
    ScoredMove, MOVE_IS_WINNING_MASK,
};
use crate::gods::mortal::{
    is_acting_worker, is_standard_build_for, lemma_acting_in_prelude, lemma_lists_word_grows, lists_word, lemma_move_worker_keeps_wf, lemma_mortal_move_round_trip,
    mortal_basic_data, mortal_winning_data,
};
use crate::gods::move_helpers::{
    get_basic_moves, get_generator_prelude_state, no_worker_on_dome_when_climb_owed, get_worker_end_move_state, get_worker_next_build_state,
    get_worker_start_move_state, is_standard_step, is_winning_entry, lemma_layer_is_height,
    modify_prelude_for_checking_workers, push_winning_moves, GeneratorPreludeState, WorkerEndMoveState,
    WorkerStartMoveState,
};
use crate::gods::{BoardSymmetry, PlacementType, god_power, GodName, GodPower};
use crate::square::{is_adjacent, is_beyond, is_square, push_mapping, Square};

verus! {

/// An Iris turn, laid out as a plain move and build.
#[derive(Clone, Copy, PartialEq, Eq, Structural, Debug)]
pub struct IrisMove(pub MoveData);

/// A jump of the worker on `from` over a neighbouring worker (one not on a dome) onto the free,
/// undomed square straight beyond it, whatever its level.
pub open spec fn is_iris_jump(board: BoardState, from: int, to: int) -> bool {
    &&& !board.occupied(to)
    &&& board.height(to) < 4
    &&& exists|over: int|
        #[trigger] is_beyond(from, over, to) && is_adjacent(from, over) && board.occupied(over) && board.height(over) < 4
}

/// Where Iris's worker on `from` may go: a plain step, or a jump over a neighbouring worker. When a
/// climb is owed, a jump must land higher, and a worker on level 3 has no move.
pub open spec fn is_iris_move(board: BoardState, from: int, to: int, must_climb: bool) -> bool {
    ||| is_standard_step(board, from, to, must_climb)
    ||| (is_iris_jump(board, from, to) && (must_climb ==> board.height(from) < 3 && board.height(to) > board.height(
        from,
    )))
}

/// A legal Iris turn, read off its word: a move that lands on level 3 from another level wins;
/// any other move is followed by a build.
pub open spec fn is_iris_turn(state: FullGameState, player: Player, must_climb: bool, data: u32) -> bool {
    let board = state.board;
    let from = field_at(data, 0);
    let to = field_at(data, 5);
    let build = field_at(data, 10);
    &&& is_acting_worker(state, player, from as int)
    &&& is_iris_move(board, from as int, to as int, must_climb)
    &&& if is_winning_data(data) {
        &&& data == mortal_winning_data(from, to)
        &&& board.height(to as int) == 3
        &&& board.height(from as int) != 3
    } else {
        &&& data == mortal_basic_data(from, to, build)
        &&& !(board.height(to as int) == 3 && board.height(from as int) != 3)
        &&& is_standard_build_for(state, player, from as int, to as int, build as int)
    }
}

impl IrisMove {
    pub fn new_basic_move(move_from_position: Square, move_to_position: Square, build_position: Square) -> (r: Self)
        requires
            move_from_position < 25,
            move_to_position < 25,
            build_position < 25,
        ensures
            r.0 == mortal_basic_data(move_from_position as u32, move_to_position as u32, build_position as u32),
    {
        Self((move_from_position as u32) | ((move_to_position as u32) << 5u32) | ((build_position as u32) << 10u32))
    }

    pub fn new_winning_move(move_from_position: Square, move_to_position: Square) -> (r: Self)
        requires
            move_from_position < 25,
            move_to_position < 25,
        ensures
            r.0 == mortal_winning_data(move_from_position as u32, move_to_position as u32),
    {
        Self((move_from_position as u32) | ((move_to_position as u32) << 5u32) | MOVE_IS_WINNING_MASK)
    }

    pub fn move_from_position(&self) -> (r: Square)
        ensures
            r == field_at(self.0, 0),
            r < 32,
    {
        read_position(self.0, 0)
    }

    pub fn move_to_position(&self) -> (r: Square)
        ensures
            r == field_at(self.0, 5),
            r < 32,
    {
        read_position(self.0, 5)
    }

    pub fn build_position(self) -> (r: Square)
        ensures
            r == field_at(self.0, 10),
            r < 32,
    {
        read_position(self.0, 10)
    }

    /// The start and end squares of the moving worker.
    pub fn move_mask(self) -> (r: BitBoard)
        ensures
            r.0 == (1u32 << field_at(self.0, 0)) ^ (1u32 << field_at(self.0, 5)),
    {
        BitBoard::as_mask(self.move_from_position()).xor(BitBoard::as_mask(self.move_to_position()))
    }

    pub fn get_is_winning(&self) -> (r: bool)
        ensures
            r == is_winning_data(self.0),
    {
        (self.0 & MOVE_IS_WINNING_MASK) != 0
    }

    /// Plays the move: the worker moves (stepping or jumping), and either wins or builds.
    pub fn make_move(self, board: &mut BoardState, player: Player)
        requires
            field_at(self.0, 0) < 25,
            field_at(self.0, 5) < 25,
            field_at(self.0, 10) < 25,
            !is_winning_data(self.0) ==> old(board).height(field_at(self.0, 10) as int) < 4,
        ensures
            final(board).workers[player.idx()].0 == old(board).workers[player.idx()].0 ^ ((1u32 << field_at(self.0, 0))
                ^ (1u32 << field_at(self.0, 5))),
            final(board).workers[1 - player.idx()] == old(board).workers[1 - player.idx()],
            final(board).god_data == old(board).god_data,
            final(board).current_player == old(board).current_player,
            is_winning_data(self.0) ==> final(board).winner == Some(player) && final(board).height_map == old(
                board,
            ).height_map,
            !is_winning_data(self.0) ==> final(board).winner == old(board).winner,
            !is_winning_data(self.0) ==> final(board).height(field_at(self.0, 10) as int) == old(board).height(
                field_at(self.0, 10) as int,
            ) + 1,
            !is_winning_data(self.0) ==> forall|i: int| i != field_at(self.0, 10) ==> #[trigger] final(board).height(i)
                == old(board).height(i),
            old(board).wf() && old(board).workers[player.idx()].has(field_at(self.0, 0) as int) && !old(board).occupied(
                field_at(self.0, 5) as int,
            ) ==> final(board).wf(),
    {
        let ghost before = *board;
        board.worker_xor(player, self.move_mask());
        proof {
            lemma_move_worker_keeps_wf(before, *board, player, field_at(self.0, 0), field_at(self.0, 5));
        }
        if self.get_is_winning() {
            board.set_winner(player);
            return;
        }
        board.build_up(self.build_position());
    }

    /// The squares an opponent would have to touch to stop this move: the whole board for a jump,
    /// whose outcome hangs on the worker jumped over, else its start and end.
    pub fn get_blocker_board(self) -> (r: BitBoard)
        requires
            field_at(self.0, 0) < 25,
            field_at(self.0, 5) < 25,
        ensures
            !is_adjacent(field_at(self.0, 0) as int, field_at(self.0, 5) as int) && (exists|over: int|
                is_beyond(field_at(self.0, 0) as int, over, field_at(self.0, 5) as int) && is_adjacent(
                    field_at(self.0, 0) as int,
                    over,
                )) ==> r.0 == MAIN_SECTION,
    {
        let from = self.move_from_position();
        let to = self.move_to_position();
        if jump_over_square(from, to) {
            BitBoard::main_section()
        } else {
            BitBoard::as_mask(from).or(BitBoard::as_mask(to))
        }
    }

    pub fn to_generic(self) -> (r: GenericMove)
        ensures
            r.0 == self.0,
    {
        GenericMove(self.0)
    }

    pub fn from_generic(action: GenericMove) -> (r: Self)
        ensures
            r.0 == action.0,
    {
        IrisMove(action.0)
    }
}

/// Whether a move from `from` to `to` jumps over a square between them.
fn jump_over_square(from: Square, to: Square) -> (r: bool)
    requires
        from < 25,
        to < 25,
    ensures
        r == (!is_adjacent(from as int, to as int) && exists|over: int|
            is_beyond(from as int, over, to as int) && is_adjacent(from as int, over)),
{
    let nm = neighbor_mask(from);
    let neighbours = nm.squares();
    proof {
        assert forall|o: int| 0 <= o < 25 && #[trigger] is_adjacent(from as int, o) implies neighbours@.contains(o as u8) by {
            assert(nm.has(o));
        }
    }
    let mut k: usize = 0;
    while k < neighbours.len()
        invariant
            k <= neighbours@.len(),
            from < 25,
            to < 25,
            forall|j: int| 0 <= j < neighbours@.len() ==> #[trigger] neighbours@[j] < 25 && is_adjacent(
                from as int,
                neighbours@[j] as int,
            ),
            forall|o: int| 0 <= o < 25 && #[trigger] is_adjacent(from as int, o) ==> neighbours@.contains(o as u8),
            forall|j: int| 0 <= j < k ==> !#[trigger] is_beyond(from as int, neighbours@[j] as int, to as int),
        decreases neighbours@.len() - k,
    {
        match push_mapping(from, neighbours[k]) {
            Some(beyond) => {
                if beyond == to {
                    return !crate::square::squares_adjacent(from, to);
                }
            },
            None => {},
        }
        k = k + 1;
    }
    proof {
        assert forall|over: int| is_beyond(from as int, over, to as int) implies !is_adjacent(from as int, over) by {
            if is_adjacent(from as int, over) {
                let j = choose|j: int| 0 <= j < neighbours@.len() && neighbours@[j] == over as u8;
                assert(!is_beyond(from as int, neighbours@[j] as int, to as int));
            }
        }
    }
    false
}

/// A jump lands on the board and is no step: it ends two rows or two columns away.
proof fn lemma_jump_lands_on_board(from: int, over: int, to: int)
    requires
        is_adjacent(from, over),
        is_beyond(from, over, to),
    ensures
        is_square(to),
        to != from,
        to != over,
{
    if to == from {
        crate::square::lemma_square_by_row_col(from, over);
    }
}

/// The squares the worker on `from` reaches by jumping over a worker of `jumpable` next to it.
fn iris_jumps(from: Square, jumpable: BitBoard) -> (r: BitBoard)
    requires
        from < 25,
    ensures
        forall|to: int| #[trigger] r.has(to) == exists|over: int|
            #[trigger] is_beyond(from as int, over, to) && is_adjacent(from as int, over) && jumpable.has(over),
{
    broadcast use group_bit_lemmas;

    let near = neighbor_mask(from).and(jumpable);
    let overs = near.squares();
    proof {
        assert forall|o: int| 0 <= o < 25 && is_adjacent(from as int, o) && #[trigger] jumpable.has(o) implies overs@.contains(o as u8) by {
            assert(near.has(o));
        }
    }
    let mut r = BitBoard::empty();
    let mut k: usize = 0;
    while k < overs.len()
        invariant
            k <= overs@.len(),
            from < 25,
            forall|j: int| 0 <= j < overs@.len() ==> #[trigger] overs@[j] < 25 && is_adjacent(from as int, overs@[j] as int)
                && jumpable.has(overs@[j] as int),
            forall|o: int| 0 <= o < 25 && is_adjacent(from as int, o) && #[trigger] jumpable.has(o) ==> overs@.contains(o as u8),
            forall|to: int| #[trigger] r.has(to) == exists|j: int|
                0 <= j < k && #[trigger] is_beyond(from as int, overs@[j] as int, to),
        decreases overs@.len() - k,
    {
        let over = overs[k];
        let old_r = r;
        match push_mapping(from, over) {
            Some(to) => {
                r = r.or(BitBoard::as_mask(to));
                proof {
                    assert forall|t: int| #[trigger] r.has(t) == exists|j: int|
                        0 <= j < k + 1 && #[trigger] is_beyond(from as int, overs@[j] as int, t) by {
                        if r.has(t) && !old_r.has(t) {
                            assert(t == to);
                            assert(is_beyond(from as int, overs@[k as int] as int, t));
                        }
                        if exists|j: int| 0 <= j < k + 1 && #[trigger] is_beyond(from as int, overs@[j] as int, t) {
                            let j = choose|j: int| 0 <= j < k + 1 && #[trigger] is_beyond(from as int, overs@[j] as int, t);
                            if j < k {
                                assert(old_r.has(t));
                            } else {
                                crate::square::lemma_beyond_unique(from as int, over as int, t, to as int);
                            }
                        }
                    }
                }
            },
            None => {
                proof {
                    assert forall|t: int| #[trigger] r.has(t) == exists|j: int|
                        0 <= j < k + 1 && #[trigger] is_beyond(from as int, overs@[j] as int, t) by {
                        if exists|j: int| 0 <= j < k + 1 && #[trigger] is_beyond(from as int, overs@[j] as int, t) {
                            let j = choose|j: int| 0 <= j < k + 1 && #[trigger] is_beyond(from as int, overs@[j] as int, t);
                            if j == k {
                                assert(!is_beyond(from as int, over as int, t));
                            }
                        }
                    }
                }
            },
        }
        k = k + 1;
    }
    proof {
        assert forall|to: int| #[trigger] r.has(to) == exists|over: int|
            #[trigger] is_beyond(from as int, over, to) && is_adjacent(from as int, over) && jumpable.has(over) by {
            if r.has(to) {
                let j = choose|j: int| 0 <= j < overs@.len() && #[trigger] is_beyond(from as int, overs@[j] as int, to);
                assert(is_beyond(from as int, overs@[j] as int, to) && is_adjacent(from as int, overs@[j] as int)
                    && jumpable.has(overs@[j] as int));
            }
            if exists|over: int| #[trigger] is_beyond(from as int, over, to) && is_adjacent(from as int, over) && jumpable.has(over) {
                let over = choose|over: int| #[trigger] is_beyond(from as int, over, to) && is_adjacent(from as int, over)
                    && jumpable.has(over);
                assert(overs@.contains(over as u8));
                let j = choose|j: int| 0 <= j < overs@.len() && overs@[j] == over as u8;
                assert(is_beyond(from as int, overs@[j] as int, to));
            }
        }
    }
    r
}

/// The moves of one worker: plain steps and jumps over neighbouring workers.
fn iris_get_worker_next_moves(
    prelude: &GeneratorPreludeState,
    worker_start_state: &WorkerStartMoveState,
    all_jumpable_workers: BitBoard,
    must_climb: bool,
) -> (r: BitBoard)
    requires
        prelude.inv(),
        worker_start_state.worker_start_pos < 25,
        worker_start_state.describes(*prelude, worker_start_state.worker_start_pos as int),
        must_climb ==> prelude.board.height(worker_start_state.worker_start_pos as int) < 4,
        forall|i: int| #[trigger] all_jumpable_workers.has(i) == (prelude.board.occupied(i) && prelude.board.height(i) < 4),
    ensures
        forall|i: int| #[trigger] r.has(i) == is_iris_move(prelude.board, worker_start_state.worker_start_pos as int, i, must_climb),
{
    broadcast use group_bit_lemmas;

    let board = prelude.board;
    let from = worker_start_state.worker_start_pos;
    let h = worker_start_state.worker_start_height;
    let base = get_basic_moves(prelude, worker_start_state, must_climb);
    let jumps = iris_jumps(from, all_jumpable_workers);
    let blocked = prelude.all_workers_and_frozen_mask.or(board.height_map[3]);
    let r = if must_climb {
        if h >= 3 {
            BitBoard::empty()
        } else {
            let rising_jump_moves = jumps.and(board.height_map[h]);
            base.or(rising_jump_moves).minus(blocked)
        }
    } else {
        base.or(jumps).minus(blocked)
    };
    proof {
        assert forall|i: int| #[trigger] r.has(i) == is_iris_move(board, from as int, i, must_climb) by {
            lemma_layer_is_height(board, 3, i);
            if must_climb && h < 3 {
                lemma_layer_is_height(board, h as int, i);
            }
            if jumps.has(i) {
                let over = choose|over: int| #[trigger] is_beyond(from as int, over, i) && is_adjacent(from as int, over)
                    && all_jumpable_workers.has(over);
                lemma_jump_lands_on_board(from as int, over, i);
            }
            if is_iris_jump(board, from as int, i) {
                let over = choose|over: int| #[trigger] is_beyond(from as int, over, i) && is_adjacent(from as int, over)
                    && board.occupied(over) && board.height(over) < 4;
                assert(all_jumpable_workers.has(over));
                assert(jumps.has(i));
                lemma_jump_lands_on_board(from as int, over, i);
            }
        }
    }
    r
}

/// The squares the player could win on next turn, given this move: steps and jumps of the workers
/// that may climb onto level 3.
fn iris_reach_board(
    prelude: &GeneratorPreludeState,
    worker_end_move_state: &WorkerEndMoveState,
    jumpable_for_neighbors: BitBoard,
    other_own_jumpable_workers: BitBoard,
    neighbor_reach: BitBoard,
    neighbor_max_height: usize,
) -> (r: BitBoard)
    requires
        prelude.inv(),
        worker_end_move_state.worker_end_pos < 25,
    ensures
        ({
            let end = worker_end_move_state.worker_end_pos as int;
            let eh = worker_end_move_state.worker_end_height;
            prelude.is_against_hypnus ==> forall|i: int| #[trigger] r.has(i) == ((neighbor_max_height <= eh && (neighbor_reach.has(i)
                || lands_over(other_own_jumpable_workers, end, i))) || (eh <= neighbor_max_height && eh < 3 && ((eh == 2
                && is_adjacent(end, i)) || jump_from_lands(end, jumpable_for_neighbors, i))))
        }),
        ({
            let end = worker_end_move_state.worker_end_pos as int;
            let eh = worker_end_move_state.worker_end_height;
            !prelude.is_against_hypnus ==> forall|i: int| #[trigger] r.has(i) == (neighbor_reach.has(i) || (eh == 2 && is_adjacent(end, i))
                || (eh < 3 && jump_from_lands(end, jumpable_for_neighbors, i)) || lands_over(other_own_jumpable_workers, end, i))
        }),
{
    let end_pos = worker_end_move_state.worker_end_pos;
    let end_height = worker_end_move_state.worker_end_height;
    let this_worker_next_turn_moves = neighbor_mask(end_pos);
    let near_jumpers = other_own_jumpable_workers.and(this_worker_next_turn_moves);
    let landed = jumps_onto(near_jumpers, end_pos);
    proof {
        assert forall|i: int| #[trigger] landed.has(i) == lands_over(other_own_jumpable_workers, end_pos as int, i) by {
            if lands_over(other_own_jumpable_workers, end_pos as int, i) {
                let from = choose|from: int| 0 <= from < 25 && #[trigger] other_own_jumpable_workers.has(from) && is_adjacent(
                    end_pos as int,
                    from,
                ) && is_beyond(from, end_pos as int, i);
                assert(near_jumpers.has(from));
            }
        }
    }
    if prelude.is_against_hypnus {
        let mut reach_board = BitBoard::empty();
        if neighbor_max_height <= end_height {
            reach_board = neighbor_reach.or(landed);
        }
        if end_height <= neighbor_max_height && end_height < 3 {
            if end_height == 2 {
                reach_board = reach_board.or(this_worker_next_turn_moves);
            }
            reach_board = reach_board.or(iris_jumps(end_pos, jumpable_for_neighbors));
        }
        reach_board
    } else {
        let mut reach_board = neighbor_reach;
        if end_height == 2 {
            reach_board = reach_board.or(this_worker_next_turn_moves);
        }
        if end_height < 3 {
            reach_board = reach_board.or(iris_jumps(end_pos, jumpable_for_neighbors));
        }
        reach_board.or(landed)
    }
}

/// Whether the worker on `from` lands on `to` by jumping over a neighbour in `jumpable`.
pub open spec fn jump_from_lands(from: int, jumpable: BitBoard, to: int) -> bool {
    exists|over: int| #[trigger] is_beyond(from, over, to) && is_adjacent(from, over) && jumpable.has(over)
}

/// Whether a neighbour of `over` in `jumpers` lands on `to` by jumping over `over`.
pub open spec fn lands_over(jumpers: BitBoard, over: int, to: int) -> bool {
    exists|from: int| 0 <= from < 25 && #[trigger] jumpers.has(from) && is_adjacent(over, from) && is_beyond(from, over, to)
}

/// The squares the workers of `jumpers` land on by jumping over the worker on `over`.
fn jumps_onto(jumpers: BitBoard, over: Square) -> (r: BitBoard)
    requires
        over < 25,
    ensures
        forall|to: int| #[trigger] r.has(to) == exists|from: int| 0 <= from < 25 && #[trigger] jumpers.has(from) && is_beyond(
            from,
            over as int,
            to,
        ),
{
    let list = jumpers.squares();
    let mut r = BitBoard::empty();
    let mut k: usize = 0;
    while k < list.len()
        invariant
            k <= list@.len(),
            over < 25,
            forall|j: int| 0 <= j < list@.len() ==> #[trigger] list@[j] < 25 && jumpers.has(list@[j] as int),
            forall|to: int| #[trigger] r.has(to) == exists|j: int| 0 <= j < k && #[trigger] is_beyond(list@[j] as int, over as int, to),
        decreases list@.len() - k,
    {
        let ghost prev = r;
        match push_mapping(list[k], over) {
            Some(to) => {
                r = r.or(BitBoard::as_mask(to));
                proof {
                    assert forall|t: int| #[trigger] r.has(t) == exists|j: int| 0 <= j < k + 1 && #[trigger] is_beyond(list@[j] as int, over as int, t) by {
                        if exists|j: int| 0 <= j < k + 1 && #[trigger] is_beyond(list@[j] as int, over as int, t) {
                            let j = choose|j: int| 0 <= j < k + 1 && #[trigger] is_beyond(list@[j] as int, over as int, t);
                            if j == k {
                                crate::square::lemma_beyond_unique(list@[j] as int, over as int, t, to as int);
                            } else {
                                assert(prev.has(t));
                            }
                        }
                        if t == to as int {
                            assert(is_beyond(list@[k as int] as int, over as int, t));
                        }
                    }
                }
            },
            None => {
                proof {
                    assert forall|t: int| #[trigger] r.has(t) == exists|j: int| 0 <= j < k + 1 && #[trigger] is_beyond(list@[j] as int, over as int, t) by {
                        if exists|j: int| 0 <= j < k + 1 && #[trigger] is_beyond(list@[j] as int, over as int, t) {
                            let j = choose|j: int| 0 <= j < k + 1 && #[trigger] is_beyond(list@[j] as int, over as int, t);
                            if j < k {
                                assert(prev.has(t));
                            }
                        }
                    }
                }
            },
        }
        k = k + 1;
    }
    proof {
        assert forall|to: int| #[trigger] r.has(to) == exists|from: int| 0 <= from < 25 && #[trigger] jumpers.has(from) && is_beyond(
            from,
            over as int,
            to,
        ) by {
            if r.has(to) {
                let j = choose|j: int| 0 <= j < list@.len() && #[trigger] is_beyond(list@[j] as int, over as int, to);
                assert(jumpers.has(list@[j] as int));
            }
            if exists|from: int| 0 <= from < 25 && #[trigger] jumpers.has(from) && is_beyond(from, over as int, to) {
                let from = choose|from: int| 0 <= from < 25 && #[trigger] jumpers.has(from) && is_beyond(from, over as int, to);
                assert(list@.contains(from as u8));
                let j = choose|j: int| 0 <= j < list@.len() && list@[j] == from as u8;
                assert(is_beyond(list@[j] as int, over as int, to));
            }
        }
    }
    r
}

/// What the generator knows of its position while it works.
pub open spec fn iris_prelude_matches(prelude: GeneratorPreludeState, state: FullGameState, player: Player) -> bool {
    &&& prelude.inv()
    &&& state.board.wf()
    &&& prelude.board == state.board
    &&& prelude.player == player
    &&& prelude.other_god == state.gods[1 - player.idx()]
    &&& forall|i: int| #[trigger] prelude.acting_workers.has(i) ==> is_acting_worker(state, player, i)
}

/// An Iris turn can be played: its squares are on the board, the mover is the player's and lands
/// on a free square, and a build goes on an undomed square.
pub proof fn lemma_iris_turn_playable(state: FullGameState, player: Player, data: u32)
    requires
        state.board.wf(),
        is_iris_turn(state, player, false, data),
    ensures
        field_at(data, 0) < 25,
        field_at(data, 5) < 25,
        field_at(data, 10) < 25,
        !is_winning_data(data) ==> state.board.height(field_at(data, 10) as int) < 4,
        state.board.workers[player.idx()].has(field_at(data, 0) as int),
        !state.board.occupied(field_at(data, 5) as int),
{
    let board = state.board;
    let from = field_at(data, 0) as int;
    let to = field_at(data, 5) as int;
    assert(board.workers[player.idx()].within_board());
    assert(board.workers[player.idx()].has(from));
    if !is_standard_step(board, from, to, false) {
        let over = choose|over: int| #[trigger] is_beyond(from, over, to) && is_adjacent(from, over) && board.occupied(over)
            && board.height(over) < 4;
        lemma_jump_lands_on_board(from, over, to);
    }
    if is_winning_data(data) {
        lemma_mortal_move_round_trip(field_at(data, 0), field_at(data, 5), 0);
    }
}

/// A turn that climbs is a turn.
pub proof fn lemma_climbing_iris_turn_is_turn(state: FullGameState, player: Player, data: u32)
    ensures
        is_iris_turn(state, player, true, data) ==> is_iris_turn(state, player, false, data),
{
}

/// The turns the generator owes with no narrowing filter on: every legal turn, except that
/// against Persephone, when a climb exists, only the climbing ones.
pub open spec fn iris_turn_owed(state: FullGameState, player: Player, must_climb: bool, data: u32) -> bool {
    &&& is_iris_turn(state, player, must_climb, data)
    &&& (state.gods[1 - player.idx()].is_persephone_spec() && !must_climb && exists|d: u32| #[trigger] is_iris_turn(state, player, true, d))
        ==> is_iris_turn(state, player, true, data)
}

/// Iris's move generator; `must_climb` asks for climbing moves only, which is how Persephone's
/// restriction is applied.
pub fn iris_move_gen(
    flags: MoveGenFlags,
    state: &FullGameState,
    player: Player,
    key_squares: BitBoard,
    must_climb: bool,
) -> (result: Vec<ScoredMove>)
    requires
        state.board.wf(),
        no_worker_on_dome_when_climb_owed(*state, player),
        must_climb ==> forall|i: int| #[trigger] state.board.workers[player.idx()].has(i) ==> state.board.height(i) < 4,
    ensures
        forall|k: int| 0 <= k < result@.len() ==> #[trigger] is_iris_turn(*state, player, must_climb, result@[k].action.0),
        flags & NARROWING_FLAGS == 0 ==> forall|data: u32| #[trigger] iris_turn_owed(*state, player, must_climb, data) ==> lists_word(
            result@,
            data,
        ),
        flags & NARROWING_FLAGS == 0 && state.gods[1 - player.idx()].is_persephone_spec() && !must_climb && (exists|d: u32|
            #[trigger] is_iris_turn(*state, player, true, d)) ==> forall|k: int| 0 <= k < result@.len()
            ==> #[trigger] is_iris_turn(*state, player, true, result@[k].action.0),
    decreases if must_climb { 0int } else { 1int },
{
    broadcast use group_bit_lemmas;

    proof {
        crate::generic::lemma_no_flags(flags);
    }

    let mut result = if state.gods[player.other().index()].is_persephone() && !must_climb {
        let climbing = iris_move_gen(flags, state, player, key_squares, true);
        proof {
            assert forall|k: int| 0 <= k < climbing@.len() implies #[trigger] is_iris_turn(
                *state,
                player,
                must_climb,
                climbing@[k].action.0,
            ) by {
                lemma_climbing_iris_turn_is_turn(*state, player, climbing@[k].action.0);
            }
        }
        if climbing.len() > 0 {
            proof {
                if flags & NARROWING_FLAGS == 0 {
                    assert(is_iris_turn(*state, player, true, climbing@[0].action.0));
                    assert forall|data: u32| #[trigger] iris_turn_owed(*state, player, must_climb, data) implies lists_word(climbing@, data) by {
                        assert(iris_turn_owed(*state, player, true, data));
                    }
                }
            }
            return climbing;
        }
        proof {
            if flags & NARROWING_FLAGS == 0 {
                assert forall|d: u32| !#[trigger] is_iris_turn(*state, player, true, d) by {
                    if is_iris_turn(*state, player, true, d) {
                        assert(iris_turn_owed(*state, player, true, d));
                    }
                }
            }
        }
        if flags & crate::generic::ANY_MOVE_FILTER > 0 {
            let unrestricted = iris_move_gen(0, state, player, key_squares, true);
            if unrestricted.len() > 0 {
                return climbing;
            }
        }
        climbing
    } else {
        Vec::new()
    };
    assert(flags & NARROWING_FLAGS == 0 && state.gods[1 - player.idx()].is_persephone_spec() && !must_climb ==> forall|d: u32|
        !#[trigger] is_iris_turn(*state, player, true, d));

    let mut prelude = get_generator_prelude_state(state, player, key_squares);
    let ghost initial_acting = prelude.acting_workers;
    let ghost own0 = prelude.own_workers;
    proof {
        assert forall|i: int| #[trigger] prelude.acting_workers.has(i) implies is_acting_worker(*state, player, i) by {
            crate::gods::mortal::lemma_prelude_acting(*state, player, prelude.own_workers, prelude.acting_workers, i);
        }
    }
    let not_level_3 = prelude.exactly_level_3.not();
    modify_prelude_for_checking_workers(flags, not_level_3, &mut prelude);
    let all_jumpable_workers = prelude.own_workers.or(prelude.oppo_workers).minus(prelude.domes_and_frozen);
    proof {
        assert forall|i: int| #[trigger] prelude.acting_workers.has(i) && flags & crate::generic::MATE_ONLY != 0
            implies prelude.board.height(i) != 3 by {
            assert(not_level_3.has(i));
        }
        assert forall|i: int| #[trigger] all_jumpable_workers.has(i) == (prelude.board.occupied(i) && prelude.board.height(i) < 4) by {
            if prelude.board.occupied(i) {
                assert(prelude.board.workers[0].within_board() && prelude.board.workers[1].within_board());
            }
        }
    }
    let workers = prelude.acting_workers.squares();

    let mut wi: usize = 0;
    while wi < workers.len()
        invariant
            flags & NARROWING_FLAGS == 0 && state.gods[1 - player.idx()].is_persephone_spec() && !must_climb ==> forall|d: u32|
                !#[trigger] is_iris_turn(*state, player, true, d),
            wi <= workers@.len(),
            iris_prelude_matches(prelude, *state, player),
            must_climb ==> forall|i: int| #[trigger] state.board.workers[player.idx()].has(i) ==> state.board.height(i) < 4,
            forall|i: int| #[trigger] all_jumpable_workers.has(i) == (prelude.board.occupied(i) && prelude.board.height(i) < 4),
            forall|k: int| 0 <= k < workers@.len() ==> #[trigger] workers@[k] < 25 && prelude.acting_workers.has(workers@[k] as int),
            forall|i: int| #[trigger] prelude.acting_workers.has(i) && flags & crate::generic::MATE_ONLY != 0 ==> prelude.board.height(i) != 3,
            forall|k: int| 0 <= k < result@.len() ==> #[trigger] is_iris_turn(*state, player, must_climb, result@[k].action.0),
            flags & NARROWING_FLAGS == 0 ==> forall|data: u32| #[trigger] is_iris_turn(*state, player, must_climb, data) && (exists|j: int|
                0 <= j < wi && workers@[j] as u32 == field_at(data, 0)) ==> lists_word(result@, data),
        decreases workers@.len() - wi,
    {
        let worker_start_pos = workers[wi];
        proof {
            assert(is_acting_worker(*state, player, worker_start_pos as int));
        }
        let worker_start_state = get_worker_start_move_state(&prelude, worker_start_pos);
        let mut worker_moves = iris_get_worker_next_moves(&prelude, &worker_start_state, all_jumpable_workers, must_climb);

        if is_mate_only(flags) || worker_start_state.worker_start_height != 3 {
            let moves_to_level_3 = worker_moves.and(prelude.exactly_level_3).and(prelude.win_mask);
            let ghost before = result@;
            let stop = push_winning_moves(flags, &mut result, worker_start_pos, moves_to_level_3, 0);
            proof {
                lemma_lists_word_grows(before, result@);
                if flags & NARROWING_FLAGS == 0 && !stop {
                    assert forall|data: u32| #[trigger] is_iris_turn(*state, player, must_climb, data) && field_at(data, 0)
                        == worker_start_pos && is_winning_data(data) implies lists_word(result@, data) by {
                        let to = field_at(data, 5);
                        assert(moves_to_level_3.has(to as int));
                        let k = choose|k: int| before.len() <= k < result@.len() && #[trigger] result@[k].action.0
                            == (worker_start_pos as u32) | ((to as u32) << 5u32) | 0u32 | MOVE_IS_WINNING_MASK;
                        crate::bitboard::lemma_or_zero((worker_start_pos as u32) | ((to as u32) << 5u32));
                    }
                }
            }
            proof {
                assert forall|k: int| 0 <= k < result@.len() implies #[trigger] is_iris_turn(
                    *state,
                    player,
                    must_climb,
                    result@[k].action.0,
                ) by {
                    if k >= before.len() {
                        assert(is_winning_entry(result@[k], worker_start_pos, moves_to_level_3, 0));
                        let sq = choose|sq: u8|
                            sq < 25 && #[trigger] moves_to_level_3.has(sq as int) && result@[k].action.0 == (
                            worker_start_pos as u32) | ((sq as u32) << 5u32) | 0u32 | MOVE_IS_WINNING_MASK;
                        lemma_mortal_move_round_trip(worker_start_pos as u32, sq as u32, 0);
                        crate::bitboard::lemma_or_zero((worker_start_pos as u32) | ((sq as u32) << 5u32));
                    } else {
                        assert(result@[k] == before[k]);
                    }
                }
            }
            if stop {
                proof {
                    crate::generic::lemma_no_flags(flags);
                }
                return result;
            }
            worker_moves = worker_moves.xor(moves_to_level_3);
        }

        proof {
            crate::generic::lemma_no_flags(flags);
            if flags & NARROWING_FLAGS == 0 {
                assert forall|data: u32| #[trigger] is_iris_turn(*state, player, must_climb, data) && field_at(data, 0)
                    == worker_start_pos && is_winning_data(data) implies lists_word(result@, data) by {
                    assert(worker_start_state.worker_start_height != 3);
                }
            }
        }
        if !is_mate_only(flags) {
            let other_own_level_2_workers = worker_start_state.other_own_workers.and(prelude.exactly_level_2);
            let other_own_jumpable_workers = worker_start_state.other_own_workers.minus(prelude.board.height_map[2]);
            let mut neighbor_reach = crate::bitboard::apply_neighbor_map_to_mask(other_own_level_2_workers);
            let jumpable_for_neighbors = all_jumpable_workers.xor(worker_start_state.worker_start_mask);
            let mut neighbor_max_height: usize = 0;
            let jumpers = other_own_jumpable_workers.squares();
            let mut ji: usize = 0;
            while ji < jumpers.len()
                invariant
                    flags & NARROWING_FLAGS == 0 && state.gods[1 - player.idx()].is_persephone_spec() && !must_climb ==> forall|d: u32|
                        !#[trigger] is_iris_turn(*state, player, true, d),
                    ji <= jumpers@.len(),
                    prelude.inv(),
                    neighbor_max_height <= 4,
                    forall|j: int| 0 <= j < jumpers@.len() ==> #[trigger] jumpers@[j] < 25,
                decreases jumpers@.len() - ji,
            {
                let jump_from_pos = jumpers[ji];
                neighbor_reach = neighbor_reach.or(iris_jumps(jump_from_pos, jumpable_for_neighbors));
                let height = prelude.board.get_height(jump_from_pos);
                if height > neighbor_max_height {
                    neighbor_max_height = height;
                }
                ji = ji + 1;
            }

            let ends = worker_moves.squares();
            proof {
                crate::generic::lemma_no_flags(flags);
                if flags & NARROWING_FLAGS == 0 {
                    assert forall|i: int| 0 <= i < 25 && is_iris_move(state.board, worker_start_pos as int, i, must_climb)
                        && !(state.board.height(i) == 3 && state.board.height(worker_start_pos as int) != 3) implies #[trigger] ends@.contains(i as u8) by {
                        assert(worker_moves.has(i));
                    }
                }
            }
            let mut ei: usize = 0;
            while ei < ends.len()
                invariant
                    flags & NARROWING_FLAGS == 0 && state.gods[1 - player.idx()].is_persephone_spec() && !must_climb ==> forall|d: u32|
                        !#[trigger] is_iris_turn(*state, player, true, d),
                    ei <= ends@.len(),
                    iris_prelude_matches(prelude, *state, player),
                    worker_start_pos < 25,
                    worker_start_state.describes(prelude, worker_start_pos as int),
                    is_acting_worker(*state, player, worker_start_pos as int),
                    forall|k: int| 0 <= k < ends@.len() ==> #[trigger] ends@[k] < 25 && is_iris_move(
                        state.board,
                        worker_start_pos as int,
                        ends@[k] as int,
                        must_climb,
                    ) && !(state.board.height(ends@[k] as int) == 3 && state.board.height(worker_start_pos as int) != 3),
                    forall|k: int| 0 <= k < result@.len() ==> #[trigger] is_iris_turn(*state, player, must_climb, result@[k].action.0),
                    flags & NARROWING_FLAGS == 0 ==> forall|data: u32| #[trigger] is_iris_turn(*state, player, must_climb, data) && (exists|j: int|
                        0 <= j < wi && workers@[j] as u32 == field_at(data, 0)) ==> lists_word(result@, data),
                    flags & NARROWING_FLAGS == 0 ==> forall|data: u32| #[trigger] is_iris_turn(*state, player, must_climb, data) && field_at(data, 0)
                        == worker_start_pos && is_winning_data(data) ==> lists_word(result@, data),
                    flags & NARROWING_FLAGS == 0 ==> forall|data: u32| #[trigger] is_iris_turn(*state, player, must_climb, data) && field_at(data, 0)
                        == worker_start_pos && !is_winning_data(data) && (exists|j: int| 0 <= j < ei && ends@[j] as u32 == field_at(data, 5))
                        ==> lists_word(result@, data),
                    flags & NARROWING_FLAGS == 0 ==> forall|i: int| 0 <= i < 25 && is_iris_move(state.board, worker_start_pos as int, i, must_climb)
                        && !(state.board.height(i) == 3 && state.board.height(worker_start_pos as int) != 3) ==> #[trigger] ends@.contains(i as u8),
                    flags & NARROWING_FLAGS == 0 ==> flags & crate::generic::INTERACT_WITH_KEY_SQUARES == 0 && flags & crate::generic::STOP_ON_MATE == 0,
                decreases ends@.len() - ei,
            {
                let worker_end_pos = ends[ei];
                let worker_end_move_state = get_worker_end_move_state(&prelude, &worker_start_state, worker_end_pos);
                let worker_next_build_state = get_worker_next_build_state(flags, &prelude, &worker_start_state, &worker_end_move_state);
                let reach_board = iris_reach_board(
                    &prelude,
                    &worker_end_move_state,
                    jumpable_for_neighbors,
                    other_own_jumpable_workers,
                    neighbor_reach,
                    neighbor_max_height,
                );
                let builds = worker_next_build_state.narrowed_builds.squares();
                proof {
                    if flags & NARROWING_FLAGS == 0 {
                        assert forall|b: int| 0 <= b < 25 && #[trigger] is_standard_build_for(*state, player, worker_start_pos as int, worker_end_pos as int, b)
                            implies builds@.contains(b as u8) by {
                            assert(worker_next_build_state.all_possible_builds.has(b));
                            assert(worker_next_build_state.narrowed_builds.has(b));
                        }
                    }
                }
                let mut bi: usize = 0;
                while bi < builds.len()
                    invariant
                        flags & NARROWING_FLAGS == 0 && state.gods[1 - player.idx()].is_persephone_spec() && !must_climb ==> forall|d: u32|
                            !#[trigger] is_iris_turn(*state, player, true, d),
                        bi <= builds@.len(),
                        iris_prelude_matches(prelude, *state, player),
                        worker_start_pos < 25,
                        worker_end_pos < 25,
                        is_acting_worker(*state, player, worker_start_pos as int),
                        is_iris_move(state.board, worker_start_pos as int, worker_end_pos as int, must_climb),
                        !(state.board.height(worker_end_pos as int) == 3 && state.board.height(worker_start_pos as int) != 3),
                        worker_next_build_state.describes(prelude, worker_start_pos as int, worker_end_pos as int),
                        forall|k: int| 0 <= k < builds@.len() ==> #[trigger] builds@[k] < 25
                            && worker_next_build_state.narrowed_builds.has(builds@[k] as int),
                        forall|k: int| 0 <= k < result@.len() ==> #[trigger] is_iris_turn(*state, player, must_climb, result@[k].action.0),
                        flags & NARROWING_FLAGS == 0 ==> forall|data: u32| #[trigger] is_iris_turn(*state, player, must_climb, data) && (exists|j: int|
                            0 <= j < wi && workers@[j] as u32 == field_at(data, 0)) ==> lists_word(result@, data),
                        flags & NARROWING_FLAGS == 0 ==> forall|data: u32| #[trigger] is_iris_turn(*state, player, must_climb, data) && field_at(data, 0)
                            == worker_start_pos && is_winning_data(data) ==> lists_word(result@, data),
                        flags & NARROWING_FLAGS == 0 ==> forall|data: u32| #[trigger] is_iris_turn(*state, player, must_climb, data) && field_at(data, 0)
                            == worker_start_pos && !is_winning_data(data) && (exists|j: int| 0 <= j < ei && ends@[j] as u32 == field_at(data, 5))
                            ==> lists_word(result@, data),
                        flags & NARROWING_FLAGS == 0 ==> forall|i: int| 0 <= i < 25 && is_iris_move(state.board, worker_start_pos as int, i, must_climb)
                            && !(state.board.height(i) == 3 && state.board.height(worker_start_pos as int) != 3) ==> #[trigger] ends@.contains(i as u8),
                        flags & NARROWING_FLAGS == 0 ==> flags & crate::generic::INTERACT_WITH_KEY_SQUARES == 0 && flags & crate::generic::STOP_ON_MATE == 0,
                        flags & NARROWING_FLAGS == 0 ==> forall|data: u32| #[trigger] is_iris_turn(*state, player, must_climb, data) && field_at(data, 0)
                            == worker_start_pos && !is_winning_data(data) && field_at(data, 5) == worker_end_pos && (exists|j: int| 0 <= j < bi
                            && builds@[j] as u32 == field_at(data, 10)) ==> lists_word(result@, data),
                        flags & NARROWING_FLAGS == 0 ==> forall|b: int| 0 <= b < 25 && #[trigger] is_standard_build_for(*state, player, worker_start_pos as int, worker_end_pos as int, b) ==> builds@.contains(b as u8),
                        ei < ends@.len(),
                        ends@[ei as int] == worker_end_pos,
                    decreases builds@.len() - bi,
                {
                    let worker_build_pos = builds[bi];
                    let build_mask = BitBoard::as_mask(worker_build_pos);
                    let new_action = IrisMove::new_basic_move(worker_start_pos, worker_end_pos, worker_build_pos);
                    let final_level_3 = prelude.exactly_level_2.and(build_mask).or(prelude.exactly_level_3.minus(build_mask));
                    let is_check = reach_board.and(final_level_3).and(worker_next_build_state.unblocked_squares).and(
                        prelude.win_mask,
                    ).is_not_empty();
                    let ghost before = result@;
                    result.push(build_scored_move(flags, new_action.to_generic(), is_check, worker_end_move_state.is_improving));
                    proof {
                        lemma_lists_word_grows(before, result@);
                        assert(result@[before.len() as int].action.0 == mortal_basic_data(worker_start_pos as u32, worker_end_pos as u32, worker_build_pos as u32));
                        lemma_mortal_move_round_trip(worker_start_pos as u32, worker_end_pos as u32, worker_build_pos as u32);
                        assert(worker_next_build_state.all_possible_builds.has(worker_build_pos as int));
                        assert(prelude.build_mask.has(worker_build_pos as int));
                        assert forall|k: int| 0 <= k < result@.len() implies #[trigger] is_iris_turn(
                            *state,
                            player,
                            must_climb,
                            result@[k].action.0,
                        ) by {
                            if k < before.len() {
                                assert(result@[k] == before[k]);
                            }
                        }
                    }
                    bi = bi + 1;
                }
                proof {
                    if flags & NARROWING_FLAGS == 0 {
                        assert forall|data: u32| #[trigger] is_iris_turn(*state, player, must_climb, data) && field_at(data, 0)
                            == worker_start_pos && !is_winning_data(data) && (exists|j: int| 0 <= j < ei + 1 && ends@[j] as u32 == field_at(data, 5))
                            implies lists_word(result@, data) by {
                            let j = choose|j: int| 0 <= j < ei + 1 && ends@[j] as u32 == field_at(data, 5);
                            if j == ei {
                                let b = field_at(data, 10);
                                assert(is_standard_build_for(*state, player, worker_start_pos as int, worker_end_pos as int, b as int));
                                assert(builds@.contains(b as u8));
                                let jb = choose|jb: int| 0 <= jb < builds@.len() && builds@[jb] == b as u8;
                                assert(builds@[jb] as u32 == field_at(data, 10));
                            }
                        }
                    }
                }
                ei = ei + 1;
            }
            proof {
                if flags & NARROWING_FLAGS == 0 {
                    assert forall|data: u32| #[trigger] is_iris_turn(*state, player, must_climb, data) && (exists|j: int|
                        0 <= j < wi + 1 && workers@[j] as u32 == field_at(data, 0)) implies lists_word(result@, data) by {
                        let j = choose|j: int| 0 <= j < wi + 1 && workers@[j] as u32 == field_at(data, 0);
                        if j == wi && !is_winning_data(data) {
                            let to = field_at(data, 5);
                            assert(ends@.contains(to as u8));
                            let je = choose|je: int| 0 <= je < ends@.len() && ends@[je] == to as u8;
                            assert(ends@[je] as u32 == field_at(data, 5));
                        }
                    }
                }
            }
        }
        wi = wi + 1;
    }
    proof {
        if flags & NARROWING_FLAGS == 0 {
            assert forall|data: u32| #[trigger] iris_turn_owed(*state, player, must_climb, data) implies lists_word(result@, data) by {
                let f = field_at(data, 0);
                lemma_acting_in_prelude(*state, player, own0, initial_acting, f as int);
                assert(workers@.contains(f as u8));
                let j = choose|j: int| 0 <= j < workers@.len() && workers@[j] == f as u8;
                assert(workers@[j] as u32 == field_at(data, 0));
            }
        }
    }
    result
}

/// Iris's fixed data.
pub fn build_iris() -> (r: GodPower)
    ensures
        r.god_name == GodName::Iris,
        r.hash1 == 9272470162271642607u64,
        r.hash2 == 1980090300899199513u64,
        r.placement_type == PlacementType::Normal,
        r.symmetry == BoardSymmetry::Full,
        !r.is_persephone,
{
    god_power(GodName::Iris, 9272470162271642607, 1980090300899199513)
}

/// How a turn of this god changes the board: the workers, the heights, the god data and the
/// winner after it, and whose turn it is, are those of `after`.
pub open spec fn iris_move_effect(before: BoardState, after: BoardState, player: Player, data: u32) -> bool {
    &&& after.workers[player.idx()].0 == before.workers[player.idx()].0 ^ ((1u32 << field_at(data, 0)) ^ (1u32 << field_at(data, 5)))
    &&& after.workers[1 - player.idx()] == before.workers[1 - player.idx()]
    &&& after.god_data == before.god_data
    &&& after.current_player == before.current_player
    &&& (is_winning_data(data) ==> after.winner == Some(player) && after.height_map == before.height_map)
    &&& (!is_winning_data(data) ==> after.winner == before.winner)
    &&& (!is_winning_data(data) ==> after.height(field_at(data, 10) as int) == before.height( field_at(data, 10) as int, ) + 1)
    &&& (!is_winning_data(data) ==> forall|i: int| i != field_at(data, 10) ==> #[trigger] after.height(i) == before.height(i))
}

} // verus!
