use vstd::prelude::*;

use crate::bitboard::{apply_neighbor_map_to_mask, bit, group_bit_lemmas, lemma_squares_below, neighbor_mask, popcount, BitBoard, MAIN_SECTION};
use crate::board::{BoardState, FullGameState, Player};
use crate::generic::{
    build_scored_move, field_at, is_interact_with_key_squares, is_mate_only, is_winning_data, lemma_pack4, lemma_pack6,
    read_position, GenericMove, MoveData, MoveGenFlags, ScoredMove, ANY_MOVE_FILTER, MOVE_IS_WINNING_MASK, NARROWING_FLAGS,
};
use crate::gods::mortal::{
    is_acting_worker, is_standard_build_for, is_win_step, lemma_acting_in_prelude, lemma_lists_word_grows, lemma_prelude_acting, lemma_toggle_keeps_wf,
    lists_word, win_targets,
};
use crate::gods::move_helpers::{
    build_mask_allows, get_basic_moves, get_generator_prelude_state, get_sized_result, get_standard_reach_board,
    get_worker_end_move_state, get_worker_next_build_state, get_worker_start_move_state, is_standard_step,
    is_winning_entry, modify_prelude_for_checking_workers, push_winning_moves, GeneratorPreludeState, WorkerNextMoveState,
};
use crate::square::{is_adjacent, is_square, Square};
use crate::gods::{BoardSymmetry, PlacementType, god_power, GodName, GodPower};

verus! {

pub const HERMES_MOVE_FROM_POSITION_OFFSET: u32 = 0;

pub const HERMES_MOVE_TO_POSITION_OFFSET: u32 = 5;

pub const HERMES_BUILD_POSITION_OFFSET: u32 = 10;

pub const HERMES_MOVE2_FROM_POSITION_OFFSET: u32 = 15;

pub const HERMES_MOVE2_TO_POSITION_OFFSET: u32 = 20;

pub const HERMES_ARE_DOUBLE_MOVES_OVERLAPPING_OFFSET: u32 = 25;

pub const HERMES_ARE_DOUBLE_MOVES_OVERLAPPING_MASK: MoveData = 0x0200_0000;

/// The second-worker field holds this when only one worker moves.
pub const HERMES_NOT_DOING_SPECIAL_MOVE_VALUE: MoveData = 0x000C_8000;

/// A Hermes turn: one worker's plain step, or both workers moving along their level, then a
/// build; or no move at all and a build.
#[derive(Clone, Copy, PartialEq, Eq, Structural, Debug)]
pub struct HermesMove(pub MoveData);

impl HermesMove {
    /// A turn where no worker moves, only a build.
    pub fn new_hermes_no_move(build_position: Square) -> (r: Self)
        requires
            build_position < 25,
        ensures
            r.0 == 0u32 | (0u32 << 5u32) | ((build_position as u32) << 10u32) | (25u32 << 15u32) | (0u32 << 20u32) | (0u32 << 25u32),
    {
        Self(0u32 | (0u32 << 5u32) | ((build_position as u32) << 10u32) | (25u32 << 15u32) | (0u32 << 20u32) | (0u32 << 25u32))
    }

    /// A turn where one worker moves one ordinary step.
    pub fn new_hermes_single_move(move_from_position: Square, move_to_position: Square, build_position: Square) -> (r: Self)
        requires
            move_from_position < 25,
            move_to_position < 25,
            build_position < 25,
        ensures
            r.0 == (move_from_position as u32) | ((move_to_position as u32) << 5u32) | ((build_position as u32) << 10u32) | (25u32 << 15u32) | (0u32 << 20u32) | (0u32 << 25u32),
    {
        Self((move_from_position as u32) | ((move_to_position as u32) << 5u32) | ((build_position as u32) << 10u32) | (25u32 << 15u32) | (0u32 << 20u32) | (0u32 << 25u32))
    }

    /// A turn where both workers move along the same level.
    pub fn new_hermes_double_move(move_from_position: Square, move_to_position: Square, move_from2_position: Square, move_to2_position: Square, build_position: Square, is_overlap: bool) -> (r: Self)
        requires
            move_from_position < 25,
            move_to_position < 25,
            move_from2_position < 25,
            move_to2_position < 25,
            build_position < 25,
        ensures
            r.0 == (move_from_position as u32) | ((move_to_position as u32) << 5u32) | ((build_position as u32) << 10u32) | ((move_from2_position as u32) << 15u32) | ((move_to2_position as u32) << 20u32) | ((if is_overlap { 1u32 } else { 0u32 }) << 25u32),
    {
        Self((move_from_position as u32) | ((move_to_position as u32) << 5u32) | ((build_position as u32) << 10u32) | ((move_from2_position as u32) << 15u32) | ((move_to2_position as u32) << 20u32) | ((if is_overlap { 1u32 } else { 0u32 }) << 25u32))
    }

    pub fn new_winning_move(move_from_position: Square, move_to_position: Square) -> (r: Self)
        requires
            move_from_position < 25,
            move_to_position < 25,
        ensures
            r.0 == (move_from_position as u32) | ((move_to_position as u32) << 5u32) | (0u32 << 10u32) | (25u32 << 15u32) | MOVE_IS_WINNING_MASK,
    {
        Self((move_from_position as u32) | ((move_to_position as u32) << 5u32) | (0u32 << 10u32) | (25u32 << 15u32) | MOVE_IS_WINNING_MASK)
    }

    pub fn move_from_position(&self) -> (r: Square)
        ensures
            r == field_at(self.0, 0),
            r < 32,
    {
        read_position(self.0, 0)
    }

    pub fn move_to_position(&self) -> (r: Square)
        ensures
            r == field_at(self.0, 5),
            r < 32,
    {
        read_position(self.0, 5)
    }

    pub fn build_position(self) -> (r: Square)
        ensures
            r == field_at(self.0, 10),
            r < 32,
    {
        read_position(self.0, 10)
    }

    /// The start of the second worker, when both move.
    pub fn move_from_position2(&self) -> (r: Option<Square>)
        ensures
            field_at(self.0, 15) < 32,
            r == (if field_at(self.0, 15) == 25 {
                None
            } else {
                Some(field_at(self.0, 15) as u8)
            }),
    {
        let value = read_position(self.0, 15);
        if value == 25 {
            None
        } else {
            Some(value)
        }
    }

    /// The end of the second worker; meaningful only when it moves.
    pub fn move_to_position2(self) -> (r: Square)
        ensures
            r == field_at(self.0, 20),
            r < 32,
    {
        read_position(self.0, 20)
    }

    pub fn are_double_moves_overlapping(self) -> (r: bool)
        ensures
            r == (self.0 & HERMES_ARE_DOUBLE_MOVES_OVERLAPPING_MASK != 0),
    {
        self.0 & HERMES_ARE_DOUBLE_MOVES_OVERLAPPING_MASK != 0
    }

    /// The squares the moving workers leave and reach.
    pub fn move_mask(self) -> (r: BitBoard)
        ensures
            field_at(self.0, 15) == 25 ==> r.0 == (1u32 << field_at(self.0, 0)) ^ (1u32 << field_at(self.0, 5)),
            field_at(self.0, 15) != 25 ==> r.0 == (1u32 << field_at(self.0, 0)) ^ (1u32 << field_at(self.0, 5)) ^ (1u32
                << field_at(self.0, 15)) ^ (1u32 << field_at(self.0, 20)),
    {
        let base = BitBoard::as_mask(self.move_from_position()).xor(BitBoard::as_mask(self.move_to_position()));
        match self.move_from_position2() {
            Some(move2) => base.xor(BitBoard::as_mask(move2)).xor(BitBoard::as_mask(self.move_to_position2())),
            None => base,
        }
    }

    pub fn get_is_winning(&self) -> (r: bool)
        ensures
            r == is_winning_data(self.0),
    {
        (self.0 & MOVE_IS_WINNING_MASK) != 0
    }
}

/// A Hermes move reads back what it was built from, and stays clear of the flags.
pub proof fn lemma_hermes_move_round_trip(from: u32, to: u32, build: u32, from2: u32, to2: u32, overlap: u32)
    requires
        from < 25,
        to < 25,
        build < 25,
        from2 <= 25,
        to2 < 25,
        overlap <= 1,
    ensures
        field_at(from | (to << 5u32) | (build << 10u32) | (from2 << 15u32) | (to2 << 20u32) | (overlap << 25u32), 0) == from,
        field_at(from | (to << 5u32) | (build << 10u32) | (from2 << 15u32) | (to2 << 20u32) | (overlap << 25u32), 5) == to,
        field_at(from | (to << 5u32) | (build << 10u32) | (from2 << 15u32) | (to2 << 20u32) | (overlap << 25u32), 10) == build,
        field_at(from | (to << 5u32) | (build << 10u32) | (from2 << 15u32) | (to2 << 20u32) | (overlap << 25u32), 15) == from2,
        field_at(from | (to << 5u32) | (build << 10u32) | (from2 << 15u32) | (to2 << 20u32) | (overlap << 25u32), 20) == to2,
        !is_winning_data(from | (to << 5u32) | (build << 10u32) | (from2 << 15u32) | (to2 << 20u32) | (overlap << 25u32)),
        field_at(from | (to << 5u32) | (0u32 << 10u32) | (25u32 << 15u32) | 0x8000_0000u32, 0) == from,
        field_at(from | (to << 5u32) | (0u32 << 10u32) | (25u32 << 15u32) | 0x8000_0000u32, 5) == to,
        field_at(from | (to << 5u32) | (0u32 << 10u32) | (25u32 << 15u32) | 0x8000_0000u32, 15) == 25,
        is_winning_data(from | (to << 5u32) | (0u32 << 10u32) | (25u32 << 15u32) | 0x8000_0000u32),
{
    lemma_pack6(from, to, build, from2, to2, overlap);
    lemma_pack4(from, to, 0, 25);
}

/// The word of a turn where one worker takes one step, or walks along its level.
pub open spec fn hermes_single_data(from: u32, to: u32, build: u32) -> u32 {
    from | (to << 5u32) | (build << 10u32) | (25u32 << 15u32) | (0u32 << 20u32) | (0u32 << 25u32)
}

/// The word of a turn where both workers walk along their levels.
pub open spec fn hermes_double_data(from: u32, to: u32, from2: u32, to2: u32, build: u32, overlap: bool) -> u32 {
    from | (to << 5u32) | (build << 10u32) | (from2 << 15u32) | (to2 << 20u32) | ((if overlap {
        1u32
    } else {
        0u32
    }) << 25u32)
}

/// The word of a winning step.
pub open spec fn hermes_winning_data(from: u32, to: u32) -> u32 {
    from | (to << 5u32) | (0u32 << 10u32) | (25u32 << 15u32) | MOVE_IS_WINNING_MASK
}

/// A square a worker of `p` on level `h` may walk across: on that level, below a dome, and free
/// of opposing workers.
pub open spec fn is_level_walkable(board: BoardState, p: int, h: nat, i: int) -> bool {
    is_square(i) && board.height(i) == h && h < 4 && !board.workers[1 - p].has(i)
}

/// Whether `path` is a walk across squares of level `h`: each square after the first is walkable
/// and next to the one before.
pub open spec fn is_level_path(board: BoardState, p: int, h: nat, path: Seq<int>) -> bool
    decreases path.len(),
{
    if path.len() <= 1 {
        true
    } else {
        &&& is_level_path(board, p, h, path.drop_last())
        &&& is_adjacent(path[path.len() - 2], path.last())
        &&& is_level_walkable(board, p, h, path.last())
    }
}

/// Whether the worker on `from` may walk to `to` along its own level.
pub open spec fn is_level_walk(board: BoardState, p: int, from: int, to: int) -> bool {
    exists|path: Seq<int>|
        #![trigger is_level_path(board, p, board.height(from), path)]
        path.len() >= 1 && path[0] == from && path.last() == to && is_level_path(board, p, board.height(from), path)
}

/// A Hermes step that changes level: the steps that stay on one level are the walks.
pub open spec fn is_hermes_step(board: BoardState, from: int, to: int, must_climb: bool) -> bool {
    is_standard_step(board, from, to, must_climb) && board.height(to) != board.height(from)
}

/// A legal Hermes turn read off its word: a winning climb; one worker stepping up or down, or,
/// when only one worker may move, walking along its level, then a plain build; or two workers
/// walking along their levels and a build next to either. When the overlap flag is set, the
/// second worker stands in the first one's region and both walk within it. A turn owed to
/// Persephone has no walk, which never climbs.
pub open spec fn is_hermes_turn(state: FullGameState, player: Player, must_climb: bool, data: u32) -> bool {
    let board = state.board;
    let p = player.idx();
    let from = field_at(data, 0);
    let to = field_at(data, 5);
    let build = field_at(data, 10);
    let from2 = field_at(data, 15);
    let to2 = field_at(data, 20);
    let overlap = data & HERMES_ARE_DOUBLE_MOVES_OVERLAPPING_MASK != 0;
    &&& is_acting_worker(state, player, from as int)
    &&& if is_winning_data(data) {
        &&& data == hermes_winning_data(from, to)
        &&& is_standard_step(board, from as int, to as int, must_climb)
        &&& is_win_step(false, board.height(from as int), board.height(to as int))
    } else if from2 == 25 {
        &&& data == hermes_single_data(from, to, build)
        &&& (is_hermes_step(board, from as int, to as int, must_climb) && !is_win_step(
            false,
            board.height(from as int),
            board.height(to as int),
        ) || !must_climb && is_level_walk(board, p, from as int, to as int))
        &&& is_standard_build_for(state, player, from as int, to as int, build as int)
    } else {
        &&& !must_climb
        &&& data == hermes_double_data(from, to, from2, to2, build, overlap)
        &&& is_acting_worker(state, player, from2 as int)
        &&& from != from2
        &&& to != to2
        &&& is_level_walk(board, p, from as int, to as int)
        &&& if overlap {
            is_level_walk(board, p, from as int, from2 as int) && is_level_walk(board, p, from as int, to2 as int)
        } else {
            is_level_walk(board, p, from2 as int, to2 as int)
        }
        &&& is_adjacent(to as int, build as int) || is_adjacent(to2 as int, build as int)
        &&& build != to && build != to2
        &&& !board.workers[1 - p].has(build as int)
        &&& board.height(build as int) < 4
        &&& build_mask_allows(state.gods[1 - p], board, player, build as int)
    }
}

/// A Hermes turn without a walk: a winning climb, or one worker stepping up or down, then a plain
/// build.
pub open spec fn is_hermes_step_turn(state: FullGameState, player: Player, must_climb: bool, data: u32) -> bool {
    let board = state.board;
    let from = field_at(data, 0);
    let to = field_at(data, 5);
    let build = field_at(data, 10);
    &&& is_acting_worker(state, player, from as int)
    &&& if is_winning_data(data) {
        &&& data == hermes_winning_data(from, to)
        &&& is_standard_step(board, from as int, to as int, must_climb)
        &&& is_win_step(false, board.height(from as int), board.height(to as int))
    } else {
        &&& data == hermes_single_data(from, to, build)
        &&& is_hermes_step(board, from as int, to as int, must_climb)
        &&& !is_win_step(false, board.height(from as int), board.height(to as int))
        &&& is_standard_build_for(state, player, from as int, to as int, build as int)
    }
}

/// Whether `f` is the only worker of `player` that may move.
pub open spec fn is_sole_acting(state: FullGameState, player: Player, f: int) -> bool {
    &&& is_acting_worker(state, player, f)
    &&& forall|w: int| #[trigger] is_acting_worker(state, player, w) ==> w == f
}

/// Whether `f1` and `f2` are, in square order, the first two workers of `player` that may move.
pub open spec fn are_first_two_acting(state: FullGameState, player: Player, f1: int, f2: int) -> bool {
    &&& f1 < f2
    &&& is_acting_worker(state, player, f1)
    &&& is_acting_worker(state, player, f2)
    &&& forall|w: int| #[trigger] is_acting_worker(state, player, w) ==> w == f1 || w == f2 || w > f2
}

/// The walks owed unless a climb is owed to Persephone: a lone worker's walks, each with a build;
/// or, of the first two workers in square order, every pair of walks with a build next to either.
pub open spec fn hermes_walk_owed(state: FullGameState, player: Player, data: u32) -> bool {
    let f1 = field_at(data, 0);
    let f2 = field_at(data, 15);
    &&& !(state.gods[1 - player.idx()].is_persephone_spec() && exists|d: u32| #[trigger] is_hermes_turn(state, player, true, d))
    &&& (is_sole_acting(state, player, f1 as int) && is_single_walk_for(state, player, f1, data)) || (are_first_two_acting(
        state,
        player,
        f1 as int,
        f2 as int,
    ) && is_double_walk_for(state, player, f1, f2, data))
}

/// The turns without a walk that the generator owes: all of them; against Persephone, when a climb
/// exists, only the climbing ones.
pub open spec fn hermes_step_turn_owed(state: FullGameState, player: Player, must_climb: bool, data: u32) -> bool {
    &&& is_hermes_step_turn(state, player, must_climb, data)
    &&& (state.gods[1 - player.idx()].is_persephone_spec() && !must_climb && exists|d: u32| #[trigger] is_hermes_turn(state, player, true, d))
        ==> is_hermes_turn(state, player, true, data)
}

/// The turns the generator owes with no narrowing filter on: those without a walk, and, when no
/// climb is asked for, the walks.
pub open spec fn hermes_turn_owed(state: FullGameState, player: Player, must_climb: bool, data: u32) -> bool {
    hermes_step_turn_owed(state, player, must_climb, data) || !must_climb && hermes_walk_owed(state, player, data)
}

/// Where a sorted list holds exactly the workers that may move, its first one or two entries are
/// the lone worker or the first two workers.
proof fn lemma_acting_order(state: FullGameState, player: Player, ws: Seq<u8>)
    requires
        forall|k: int| 0 <= k < ws.len() ==> #[trigger] is_acting_worker(state, player, ws[k] as int),
        forall|f: int| #[trigger] is_acting_worker(state, player, f) ==> ws.contains(f as u8) && 0 <= f < 25,
        forall|a: int, b: int| 0 <= a < b < ws.len() ==> ws[a] < ws[b],
    ensures
        ws.len() == 0 ==> forall|f: int| !#[trigger] is_acting_worker(state, player, f),
        ws.len() == 1 ==> is_sole_acting(state, player, ws[0] as int),
        ws.len() == 1 ==> forall|a: int, b: int| !#[trigger] are_first_two_acting(state, player, a, b),
        ws.len() >= 2 ==> are_first_two_acting(state, player, ws[0] as int, ws[1] as int),
        ws.len() >= 2 ==> forall|f: int| !#[trigger] is_sole_acting(state, player, f),
        forall|a: int, b: int| #[trigger] are_first_two_acting(state, player, a, b) ==> ws.len() >= 2 && a == ws[0] && b == ws[1],
        forall|f: int| #[trigger] is_sole_acting(state, player, f) ==> ws.len() == 1 && f == ws[0],
{
    assert forall|f: int| #[trigger] is_acting_worker(state, player, f) implies exists|k: int| 0 <= k < ws.len() && ws[k] == f by {
        assert(ws.contains(f as u8));
    }
    if ws.len() >= 1 {
        assert(is_acting_worker(state, player, ws[0] as int));
    }
    if ws.len() >= 2 {
        assert(is_acting_worker(state, player, ws[1] as int));
        assert forall|w: int| #[trigger] is_acting_worker(state, player, w) implies w == ws[0] || w == ws[1] || w > ws[1] by {
            let k = choose|k: int| 0 <= k < ws.len() && ws[k] == w;
            if k >= 2 {
                assert(ws[1] < ws[k]);
            }
        }
    }
    assert forall|a: int, b: int| #[trigger] are_first_two_acting(state, player, a, b) implies ws.len() >= 2 && a == ws[0] && b == ws[1] by {
        let ka = choose|k: int| 0 <= k < ws.len() && ws[k] == a;
        let kb = choose|k: int| 0 <= k < ws.len() && ws[k] == b;
        assert(ka != kb);
        assert(is_acting_worker(state, player, ws[0] as int));
        assert(is_acting_worker(state, player, ws[1] as int));
        if ka > 0 {
            assert(ws[0] < ws[ka]);
        }
        if kb > 1 {
            assert(ws[1] < ws[kb]);
            assert(ws[0] < ws[1]);
        }
    }
    assert forall|f: int| #[trigger] is_sole_acting(state, player, f) implies ws.len() == 1 && f == ws[0] by {
        let k = choose|k: int| 0 <= k < ws.len() && ws[k] == f;
        assert(is_acting_worker(state, player, ws[0] as int));
        if ws.len() >= 2 {
            assert(is_acting_worker(state, player, ws[1] as int));
        }
    }
}

/// Every climbing Hermes turn is one without a walk.
pub proof fn lemma_hermes_climb_is_step_turn(state: FullGameState, player: Player, data: u32)
    ensures
        is_hermes_turn(state, player, true, data) ==> is_hermes_step_turn(state, player, true, data),
{
}

/// A turn without a walk is a turn.
pub proof fn lemma_hermes_step_turn_is_turn(state: FullGameState, player: Player, must_climb: bool, data: u32)
    requires
        state.board.wf(),
    ensures
        is_hermes_step_turn(state, player, must_climb, data) ==> is_hermes_turn(state, player, must_climb, data),
{
    if is_hermes_step_turn(state, player, must_climb, data) && !is_winning_data(data) {
        let from = field_at(data, 0);
        let to = field_at(data, 5);
        let build = field_at(data, 10);
        assert(state.board.workers[player.idx()].within_board());
        assert(is_square(from as int));
        assert(is_square(build as int));
        lemma_hermes_move_round_trip(from, to, build, 25, 0, 0);
    }
}

/// A turn owed a climb is a turn.
pub proof fn lemma_hermes_climb_is_turn(state: FullGameState, player: Player, data: u32)
    ensures
        is_hermes_turn(state, player, true, data) ==> is_hermes_turn(state, player, false, data),
{
}

/// A walk ends on its start, or on a walkable square.
proof fn lemma_walk_ends_walkable(board: BoardState, p: int, from: int, to: int)
    requires
        is_level_walk(board, p, from, to),
    ensures
        to == from || is_level_walkable(board, p, board.height(from), to),
{
    let path = choose|path: Seq<int>|
        #![trigger is_level_path(board, p, board.height(from), path)]
        path.len() >= 1 && path[0] == from && path.last() == to && is_level_path(board, p, board.height(from), path);
    if path.len() > 1 {
        assert(is_level_walkable(board, p, board.height(from), path.last()));
    }
}

/// A walk extended by one walkable neighbour of its end is a walk.
proof fn lemma_walk_extend(board: BoardState, p: int, from: int, s: int, i: int)
    requires
        is_level_walk(board, p, from, s),
        is_adjacent(s, i),
        is_level_walkable(board, p, board.height(from), i),
    ensures
        is_level_walk(board, p, from, i),
{
    let h = board.height(from);
    let path = choose|path: Seq<int>|
        #![trigger is_level_path(board, p, h, path)]
        path.len() >= 1 && path[0] == from && path.last() == s && is_level_path(board, p, h, path);
    let longer = path.push(i);
    assert(longer.drop_last() =~= path);
    assert(longer[longer.len() - 2] == s);
    assert(is_level_path(board, p, h, longer));
    assert(longer[0] == from);
}

/// A turn where the worker on `f1` walks along its level, stopping anywhere in its region, its
/// start included, then builds as after a plain move.
pub open spec fn is_single_walk_for(state: FullGameState, player: Player, f1: u32, data: u32) -> bool {
    let to = field_at(data, 5);
    let build = field_at(data, 10);
    &&& data == hermes_single_data(f1, to, build)
    &&& is_level_walk(state.board, player.idx(), f1 as int, to as int)
    &&& is_standard_build_for(state, player, f1 as int, to as int, build as int)
}

/// A turn where the workers on `f1` and `f2` both walk along their levels, stopping on two
/// different squares, and a build next to either of them. The overlap flag tells whether the second
/// worker stands in the first one's region; two squares of that region are offered once, the first
/// worker's square coming first in square order.
pub open spec fn is_double_walk_for(state: FullGameState, player: Player, f1: u32, f2: u32, data: u32) -> bool {
    let board = state.board;
    let p = player.idx();
    let t1 = field_at(data, 5);
    let b = field_at(data, 10);
    let t2 = field_at(data, 20);
    let ov = is_level_walk(board, p, f1 as int, f2 as int);
    &&& data == hermes_double_data(f1, t1, f2, t2, b, ov)
    &&& is_level_walk(board, p, f1 as int, t1 as int)
    &&& if ov {
        is_level_walk(board, p, f1 as int, t2 as int)
    } else {
        is_level_walk(board, p, f2 as int, t2 as int)
    }
    &&& t1 != t2
    &&& t1 < t2 || !is_level_walk(board, p, f1 as int, t2 as int)
    &&& is_adjacent(t1 as int, b as int) || is_adjacent(t2 as int, b as int)
    &&& b != t1 && b != t2
    &&& !board.workers[1 - p].has(b as int)
    &&& board.height(b as int) < 4
    &&& build_mask_allows(state.gods[1 - p], board, player, b as int)
}

/// A region closed under walking: every walkable neighbour of one of its squares is in it.
pub open spec fn is_walk_closed(region: BitBoard, walkable: BitBoard) -> bool {
    forall|s: int, i: int|
        #![trigger region.has(s), is_adjacent(s, i)]
        region.has(s) && is_adjacent(s, i) && walkable.has(i) ==> region.has(i)
}

/// A word that counts as many board squares as the board has holds every one of them.
proof fn lemma_popcount_full(x: u32, n: nat)
    requires
        n <= 32,
        popcount(x, n) >= n,
    ensures
        forall|i: u32| i < n ==> #[trigger] bit(x, i),
    decreases n,
{
    if n > 0 {
        crate::gods::triton::lemma_popcount_at_most(x, (n - 1) as nat);
        lemma_popcount_full(x, (n - 1) as nat);
    }
}

/// A closed region that holds the start of a walk holds its end.
proof fn lemma_closed_holds_walk(board: BoardState, p: int, h: nat, region: BitBoard, walkable: BitBoard, path: Seq<int>)
    requires
        path.len() >= 1,
        region.has(path[0]),
        is_level_path(board, p, h, path),
        is_walk_closed(region, walkable),
        forall|i: int| #[trigger] walkable.has(i) == is_level_walkable(board, p, h, i),
    ensures
        region.has(path.last()),
    decreases path.len(),
{
    if path.len() > 1 {
        let prefix = path.drop_last();
        lemma_closed_holds_walk(board, p, h, region, walkable, prefix);
        assert(prefix.last() == path[path.len() - 2]);
        assert(walkable.has(path.last()));
    }
}

/// The region a worker on `origin` can walk along: every square reached by walking across
/// `walkable`, which holds the level's free squares. The region is widened one step at a time
/// until it stops growing; no walk across the board needs more than 24 steps.
fn flood_fill(walkable: BitBoard, origin: Square, Ghost(board): Ghost<BoardState>, Ghost(p): Ghost<int>) -> (r: BitBoard)
    requires
        origin < 25,
        forall|i: int| #[trigger] walkable.has(i) == is_level_walkable(board, p, board.height(origin as int), i),
    ensures
        r.has(origin as int),
        forall|i: int| #[trigger] r.has(i) ==> is_level_walk(board, p, origin as int, i),
        forall|i: int| is_level_walk(board, p, origin as int, i) ==> #[trigger] r.has(i),
{
    broadcast use group_bit_lemmas;

    let ghost h = board.height(origin as int);
    let mut result = BitBoard::as_mask(origin);
    proof {
        let single = seq![origin as int];
        assert(is_level_path(board, p, h, single));
        assert(single.last() == origin as int);
        crate::gods::triton::lemma_popcount_grows(0u32, result.0, 25);
        assert(bit(result.0, origin as u32));
    }
    let mut k: u32 = 0;
    while k < 24
        invariant
            k <= 24,
            origin < 25,
            h == board.height(origin as int),
            forall|i: int| #[trigger] walkable.has(i) == is_level_walkable(board, p, h, i),
            result.has(origin as int),
            forall|i: int| #[trigger] result.has(i) ==> is_level_walk(board, p, origin as int, i),
            forall|i: int| #[trigger] result.has(i) ==> is_square(i),
            k + 1 <= popcount(result.0, 25) || is_walk_closed(result, walkable),
        decreases 24 - k,
    {
        let next = result.or(apply_neighbor_map_to_mask(result).and(walkable));
        proof {
            assert forall|i: int| #[trigger] next.has(i) implies is_level_walk(board, p, origin as int, i) by {
                if !result.has(i) {
                    let s = choose|s: int| 0 <= s < 25 && #[trigger] result.has(s) && is_adjacent(s, i);
                    lemma_walk_extend(board, p, origin as int, s, i);
                }
            }
        }
        if next.0 == result.0 {
            proof {
                assert forall|s: int, i: int|
                    #![trigger result.has(s), is_adjacent(s, i)]
                    result.has(s) && is_adjacent(s, i) && walkable.has(i) implies result.has(i) by {
                    assert(next.has(i));
                }
            }
            k = 24;
        } else {
            proof {
                assert forall|i: u32| i < 25 && #[trigger] bit(result.0, i) implies bit(next.0, i) by {
                    assert(result.has(i as int));
                    assert(next.has(i as int));
                }
                let nx: u32 = next.0;
                let rx: u32 = result.0;
                assert(nx ^ rx != 0) by (bit_vector)
                    requires
                        nx != rx,
                ;
                crate::bitboard::lemma_nonzero_has_bit(next.0 ^ result.0);
                let wu = choose|i: u32| i < 32 && #[trigger] bit(next.0 ^ result.0, i);
                let w = wu as int;
                crate::bitboard::lemma_bit_xor(next.0, result.0, wu);
                assert(bit(next.0, wu) != bit(result.0, wu));
                assert(next.has(w) != result.has(w));
                assert(next.has(w) && !result.has(w));
                assert(is_square(w));
                assert(bit(next.0, w as u32) && !bit(result.0, w as u32));
                crate::gods::triton::lemma_popcount_grows(result.0, next.0, 25);
            }
            result = next;
            k = k + 1;
        }
    }
    proof {
        if !is_walk_closed(result, walkable) {
            lemma_popcount_full(result.0, 25);
            assert forall|s: int, i: int|
                #![trigger result.has(s), is_adjacent(s, i)]
                result.has(s) && is_adjacent(s, i) && walkable.has(i) implies result.has(i) by {
                assert(bit(result.0, i as u32));
            }
        }
        assert forall|i: int| is_level_walk(board, p, origin as int, i) implies #[trigger] result.has(i) by {
            let path = choose|path: Seq<int>|
                #![trigger is_level_path(board, p, h, path)]
                path.len() >= 1 && path[0] == origin && path.last() == i && is_level_path(board, p, h, path);
            lemma_closed_holds_walk(board, p, h, result, walkable, path);
        }
    }
    result
}

impl HermesMove {
    /// Plays the turn: the moving workers leave and reach their squares, then the worker wins or
    /// builds.
    pub fn make_move(self, board: &mut BoardState, player: Player)
        requires
            old(board).wf(),
            field_at(self.0, 0) < 25,
            field_at(self.0, 5) < 25,
            old(board).workers[player.idx()].has(field_at(self.0, 0) as int),
            !old(board).workers[1 - player.idx()].has(field_at(self.0, 5) as int),
            field_at(self.0, 15) != 25 ==> field_at(self.0, 15) < 25 && field_at(self.0, 20) < 25 && old(board).workers[player.idx()].has(
                field_at(self.0, 15) as int,
            ) && !old(board).workers[1 - player.idx()].has(field_at(self.0, 20) as int),
            !is_winning_data(self.0) ==> field_at(self.0, 10) < 25 && old(board).height(field_at(self.0, 10) as int) < 4,
        ensures
            final(board).wf(),
            final(board).current_player == old(board).current_player,
            final(board).god_data == old(board).god_data,
            final(board).workers[1 - player.idx()] == old(board).workers[1 - player.idx()],
            field_at(self.0, 15) == 25 ==> final(board).workers[player.idx()].0 == old(board).workers[player.idx()].0 ^ ((1u32
                << field_at(self.0, 0)) ^ (1u32 << field_at(self.0, 5))),
            field_at(self.0, 15) != 25 ==> final(board).workers[player.idx()].0 == old(board).workers[player.idx()].0 ^ ((1u32
                << field_at(self.0, 0)) ^ (1u32 << field_at(self.0, 5)) ^ (1u32 << field_at(self.0, 15)) ^ (1u32 << field_at(
                self.0,
                20,
            ))),
            is_winning_data(self.0) ==> final(board).winner == Some(player) && final(board).height_map == old(board).height_map,
            !is_winning_data(self.0) ==> final(board).winner == old(board).winner,
            !is_winning_data(self.0) ==> forall|i: int| #[trigger] final(board).height(i) == (if i == field_at(self.0, 10) {
                old(board).height(i) + 1
            } else {
                old(board).height(i)
            }),
    {
        broadcast use group_bit_lemmas;

        let ghost before = *board;
        let mask = self.move_mask();
        proof {
            let p = player.idx();
            assert forall|i: int| #[trigger] mask.has(i) implies is_square(i) && !before.workers[1 - p].has(i) by {
                let f = field_at(self.0, 0);
                let t = field_at(self.0, 5);
                crate::bitboard::lemma_bit_xor(1u32 << f, 1u32 << t, i as u32);
                crate::bitboard::lemma_bit_single(f, i as u32);
                crate::bitboard::lemma_bit_single(t, i as u32);
                assert(before.workers[p].within_board());
                if field_at(self.0, 15) != 25 {
                    let f2 = field_at(self.0, 15);
                    let t2 = field_at(self.0, 20);
                    crate::bitboard::lemma_bit_xor((1u32 << f) ^ (1u32 << t) ^ (1u32 << f2), 1u32 << t2, i as u32);
                    crate::bitboard::lemma_bit_xor((1u32 << f) ^ (1u32 << t), 1u32 << f2, i as u32);
                    crate::bitboard::lemma_bit_single(f2, i as u32);
                    crate::bitboard::lemma_bit_single(t2, i as u32);
                    assert(!before.workers[1 - p].has(f2 as int));
                }
                assert(!before.workers[1 - p].has(f as int));
            }
        }
        board.worker_xor(player, mask);
        proof {
            lemma_toggle_keeps_wf(before, *board, player.idx(), mask.0);
        }
        if self.get_is_winning() {
            board.set_winner(player);
            return;
        }
        board.build_up(self.build_position());
    }

    pub fn to_generic(self) -> (r: GenericMove)
        ensures
            r.0 == self.0,
    {
        GenericMove(self.0)
    }
}

/// What playing a Hermes turn needs, read off the turn.
pub proof fn lemma_hermes_turn_playable(state: FullGameState, player: Player, data: u32)
    requires
        state.board.wf(),
        is_hermes_turn(state, player, false, data),
    ensures
        field_at(data, 0) < 25,
        field_at(data, 5) < 25,
        state.board.workers[player.idx()].has(field_at(data, 0) as int),
        !state.board.workers[1 - player.idx()].has(field_at(data, 5) as int),
        field_at(data, 15) != 25 ==> field_at(data, 15) < 25 && field_at(data, 20) < 25 && state.board.workers[player.idx()].has(
            field_at(data, 15) as int,
        ) && !state.board.workers[1 - player.idx()].has(field_at(data, 20) as int),
        !is_winning_data(data) ==> field_at(data, 10) < 25 && state.board.height(field_at(data, 10) as int) < 4,
{
    let board = state.board;
    let p = player.idx();
    let from = field_at(data, 0);
    let to = field_at(data, 5);
    let build = field_at(data, 10);
    let from2 = field_at(data, 15);
    let to2 = field_at(data, 20);
    assert(board.workers[p].within_board());
    assert(!(board.workers[0].has(from as int) && board.workers[1].has(from as int)));
    if is_winning_data(data) {
        lemma_hermes_move_round_trip(from, to, 0, 25, 0, 0);
    } else if from2 == 25 {
        if !is_hermes_step(board, from as int, to as int, false) {
            lemma_walk_ends_walkable(board, p, from as int, to as int);
        }
    } else {
        assert(!(board.workers[0].has(from2 as int) && board.workers[1].has(from2 as int)));
        lemma_walk_ends_walkable(board, p, from as int, to as int);
        let overlap = data & HERMES_ARE_DOUBLE_MOVES_OVERLAPPING_MASK != 0;
        if overlap {
            lemma_walk_ends_walkable(board, p, from as int, to2 as int);
        } else {
            lemma_walk_ends_walkable(board, p, from2 as int, to2 as int);
        }
    }
}

/// The overlap flag of a double move reads back.
proof fn lemma_hermes_overlap_bit(from: u32, to: u32, build: u32, from2: u32, to2: u32, overlap: u32)
    by (bit_vector)
    requires
        from < 32,
        to < 32,
        build < 32,
        from2 < 32,
        to2 < 32,
        overlap <= 1,
    ensures
        ((from | (to << 5u32) | (build << 10u32) | (from2 << 15u32) | (to2 << 20u32) | (overlap << 25u32)) & 0x0200_0000u32
            != 0) == (overlap == 1),
{
}

/// Hermes' move generator. Each worker may step up or down as a mortal does; when only one worker
/// may move, it may instead walk anywhere along its level, and when two may, both walk along their
/// levels, and the turn builds next to either. Of two walks that end on the same pair of squares
/// within one region, one is kept. Against Persephone, a climb owed leaves the plain climbs only.
pub fn hermes_move_gen(
    flags: MoveGenFlags,
    state: &FullGameState,
    player: Player,
    key_squares: BitBoard,
    must_climb: bool,
) -> (result: Vec<ScoredMove>)
    requires
        state.board.wf(),
    ensures
        forall|k: int| 0 <= k < result@.len() ==> #[trigger] is_hermes_turn(*state, player, must_climb, result@[k].action.0),
        flags & NARROWING_FLAGS == 0 ==> forall|data: u32| #[trigger] hermes_turn_owed(*state, player, must_climb, data) ==> lists_word(
            result@,
            data,
        ),
        flags & NARROWING_FLAGS == 0 && state.gods[1 - player.idx()].is_persephone_spec() && !must_climb && (exists|d: u32|
            #[trigger] is_hermes_turn(*state, player, true, d)) ==> forall|k: int| 0 <= k < result@.len()
            ==> #[trigger] is_hermes_turn(*state, player, true, result@[k].action.0),
    decreases if must_climb {
        0int
    } else {
        1int
    },
{
    broadcast use group_bit_lemmas;

    proof {
        crate::generic::lemma_no_flags(flags);
    }
    let mut result = if state.gods[player.other().index()].is_persephone() && !must_climb {
        let climbing = hermes_move_gen(flags, state, player, key_squares, true);
        proof {
            assert forall|k: int| 0 <= k < climbing@.len() implies #[trigger] is_hermes_turn(
                *state,
                player,
                must_climb,
                climbing@[k].action.0,
            ) by {
                lemma_hermes_climb_is_turn(*state, player, climbing@[k].action.0);
            }
        }
        if climbing.len() > 0 {
            proof {
                if flags & NARROWING_FLAGS == 0 {
                    assert(is_hermes_turn(*state, player, true, climbing@[0].action.0));
                    assert forall|data: u32| #[trigger] hermes_turn_owed(*state, player, must_climb, data) implies lists_word(climbing@, data) by {
                        lemma_hermes_climb_is_step_turn(*state, player, data);
                        assert(hermes_step_turn_owed(*state, player, must_climb, data));
                        assert(hermes_turn_owed(*state, player, true, data));
                    }
                }
            }
            return climbing;
        }
        proof {
            if flags & NARROWING_FLAGS == 0 {
                assert forall|d: u32| !#[trigger] is_hermes_turn(*state, player, true, d) by {
                    if is_hermes_turn(*state, player, true, d) {
                        lemma_hermes_climb_is_step_turn(*state, player, d);
                        assert(hermes_step_turn_owed(*state, player, true, d));
                        assert(hermes_turn_owed(*state, player, true, d));
                    }
                }
            }
        }
        if flags & ANY_MOVE_FILTER > 0 {
            let unrestricted = hermes_move_gen(0, state, player, key_squares, true);
            if unrestricted.len() > 0 {
                return climbing;
            }
        }
        climbing
    } else {
        get_sized_result(flags)
    };
    let mut prelude = get_generator_prelude_state(state, player, key_squares);
    let ghost initial_acting = prelude.acting_workers;
    let checkable_mask = prelude.exactly_level_2;
    modify_prelude_for_checking_workers(flags, checkable_mask, &mut prelude);
    let workers = prelude.acting_workers.squares();
    proof {
        assert(flags & NARROWING_FLAGS == 0 ==> prelude.acting_workers == initial_acting);
    }
    let mut wi: usize = 0;
    while wi < workers.len()
        invariant
            wi <= workers@.len(),
            flags & NARROWING_FLAGS == 0 ==> prelude.acting_workers == initial_acting,
            flags & NARROWING_FLAGS == 0 && state.gods[1 - player.idx()].is_persephone_spec() && !must_climb ==> forall|d: u32|
                !#[trigger] is_hermes_turn(*state, player, true, d),
            flags & NARROWING_FLAGS == 0 ==> forall|data: u32| #[trigger] is_hermes_step_turn(*state, player, must_climb, data) && (exists|j: int|
                0 <= j < wi && workers@[j] as u32 == field_at(data, 0)) ==> lists_word(result@, data),
            state.board.wf(),
            prelude.inv(),
            prelude.board == state.board,
            prelude.player == player,
            prelude.other_god == state.gods[1 - player.idx()],
            prelude.own_workers.0 == state.board.workers[player.idx()].0 & MAIN_SECTION,
            prelude.other_god.is_hypnus_spec() ==> initial_acting.0 == crate::gods::hypnus::hypnus_filter_spec(
                state.board.height_map,
                prelude.own_workers.0,
            ),
            !prelude.other_god.is_hypnus_spec() ==> initial_acting == prelude.own_workers,
            forall|i: int| #[trigger] prelude.acting_workers.has(i) ==> initial_acting.has(i),
            forall|k: int| 0 <= k < workers@.len() ==> #[trigger] workers@[k] < 25 && prelude.acting_workers.has(workers@[k] as int),
            forall|k: int| 0 <= k < result@.len() ==> #[trigger] is_hermes_turn(*state, player, must_climb, result@[k].action.0),
        decreases workers@.len() - wi,
    {
        let worker_start_pos = workers[wi];
        wi = wi + 1;
        proof {
            lemma_prelude_acting(*state, player, prelude.own_workers, initial_acting, worker_start_pos as int);
        }
        let worker_start_state = get_worker_start_move_state(&prelude, worker_start_pos);
        let start_height = worker_start_state.worker_start_height;
        let other_threatening_workers = worker_start_state.other_own_workers.and(checkable_mask);
        let other_threatening_neighbors = apply_neighbor_map_to_mask(other_threatening_workers);
        let same_level = if start_height <= 3 {
            prelude.board.exactly_level_n(start_height)
        } else {
            BitBoard::empty()
        };
        let mut worker_moves = get_basic_moves(&prelude, &worker_start_state, must_climb).minus(same_level);
        let targets = win_targets(&prelude, start_height, false);
        let winning_moves = worker_moves.and(targets).and(prelude.win_mask);
        let ghost before = result@;
        let stop = push_winning_moves(flags, &mut result, worker_start_pos, winning_moves, HERMES_NOT_DOING_SPECIAL_MOVE_VALUE);
        proof {
            assert forall|k: int| 0 <= k < result@.len() implies #[trigger] is_hermes_turn(
                *state,
                player,
                must_climb,
                result@[k].action.0,
            ) by {
                if k >= before.len() {
                    assert(is_winning_entry(result@[k], worker_start_pos, winning_moves, HERMES_NOT_DOING_SPECIAL_MOVE_VALUE));
                    let sq = choose|sq: u8| sq < 25 && #[trigger] winning_moves.has(sq as int) && result@[k].action.0 == (worker_start_pos as u32)
                        | ((sq as u32) << 5u32) | HERMES_NOT_DOING_SPECIAL_MOVE_VALUE | MOVE_IS_WINNING_MASK;
                    crate::generic::lemma_win_word_with_empty_second(worker_start_pos as u32, sq as u32);
                    lemma_hermes_move_round_trip(worker_start_pos as u32, sq as u32, 0, 25, 0, 0);
                    assert(worker_moves.has(sq as int));
                    assert(targets.has(sq as int));
                } else {
                    assert(result@[k] == before[k]);
                }
            }
        }
        proof {
            lemma_lists_word_grows(before, result@);
            crate::generic::lemma_no_flags(flags);
            if flags & NARROWING_FLAGS == 0 && !stop {
                assert forall|data: u32| #[trigger] is_hermes_step_turn(*state, player, must_climb, data) && field_at(data, 0) == worker_start_pos && is_winning_data(data)
                    implies lists_word(result@, data) by {
                    let to = field_at(data, 5);
                    assert(!same_level.has(to as int));
                    assert(winning_moves.has(to as int));
                    let k = choose|k: int| before.len() <= k < result@.len() && #[trigger] result@[k].action.0 == (worker_start_pos as u32)
                        | ((to as u32) << 5u32) | HERMES_NOT_DOING_SPECIAL_MOVE_VALUE | MOVE_IS_WINNING_MASK;
                    crate::generic::lemma_win_word_with_empty_second(worker_start_pos as u32, to as u32);
                }
            }
        }
        if stop {
            return result;
        }
        let ghost all_moves = worker_moves;
        worker_moves = worker_moves.xor(winning_moves);
        if is_mate_only(flags) {
            continue;
        }
        let unblocked_squares = worker_start_state.all_non_moving_workers.or(prelude.domes_and_frozen).not();
        let worker_next_moves = WorkerNextMoveState { other_threatening_workers, other_threatening_neighbors, worker_moves };
        let ends = worker_moves.squares();
        proof {
            if flags & NARROWING_FLAGS == 0 {
                assert forall|i: int| 0 <= i < 25 && is_hermes_step(state.board, worker_start_pos as int, i, must_climb) && !is_win_step(
                    false,
                    state.board.height(worker_start_pos as int),
                    state.board.height(i),
                ) implies #[trigger] ends@.contains(i as u8) by {
                    assert(!same_level.has(i));
                    assert(!targets.has(i));
                    assert(all_moves.has(i));
                    assert(worker_moves.has(i));
                }
            }
        }
        let mut ei: usize = 0;
        while ei < ends.len()
            invariant
                ei <= ends@.len(),
                wi >= 1,
                wi <= workers@.len(),
                workers@[wi - 1] == worker_start_pos,
                flags & NARROWING_FLAGS == 0 ==> forall|data: u32| #[trigger] is_hermes_step_turn(*state, player, must_climb, data) && (exists|j: int|
                    0 <= j < wi - 1 && workers@[j] as u32 == field_at(data, 0)) ==> lists_word(result@, data),
                flags & NARROWING_FLAGS == 0 ==> forall|data: u32| #[trigger] is_hermes_step_turn(*state, player, must_climb, data) && field_at(data, 0) == worker_start_pos
                    && is_winning_data(data) ==> lists_word(result@, data),
                flags & NARROWING_FLAGS == 0 ==> forall|data: u32| #[trigger] is_hermes_step_turn(*state, player, must_climb, data) && field_at(data, 0) == worker_start_pos
                    && !is_winning_data(data) && (exists|j: int| 0 <= j < ei && ends@[j] as u32 == field_at(data, 5)) ==> lists_word(result@, data),
                flags & NARROWING_FLAGS == 0 ==> forall|i: int| 0 <= i < 25 && is_hermes_step(state.board, worker_start_pos as int, i, must_climb)
                    && !is_win_step(false, state.board.height(worker_start_pos as int), state.board.height(i)) ==> #[trigger] ends@.contains(i as u8),
                flags & NARROWING_FLAGS == 0 ==> !crate::gods::move_helpers::is_interact_with_key_squares_spec(flags),
                state.board.wf(),
                prelude.inv(),
                prelude.board == state.board,
                prelude.player == player,
                prelude.other_god == state.gods[1 - player.idx()],
                worker_start_pos < 25,
                worker_start_state.describes(prelude, worker_start_pos as int),
                is_acting_worker(*state, player, worker_start_pos as int),
                forall|k: int| 0 <= k < ends@.len() ==> #[trigger] ends@[k] < 25 && is_hermes_step(
                    state.board,
                    worker_start_pos as int,
                    ends@[k] as int,
                    must_climb,
                ) && !is_win_step(false, state.board.height(worker_start_pos as int), state.board.height(ends@[k] as int)),
                forall|k: int| 0 <= k < result@.len() ==> #[trigger] is_hermes_turn(*state, player, must_climb, result@[k].action.0),
            decreases ends@.len() - ei,
        {
            let worker_end_pos = ends[ei];
            ei = ei + 1;
            let worker_end_move_state = get_worker_end_move_state(&prelude, &worker_start_state, worker_end_pos);
            let worker_next_build_state = get_worker_next_build_state(flags, &prelude, &worker_start_state, &worker_end_move_state);
            let reach_board = get_standard_reach_board(&prelude, &worker_next_moves, &worker_end_move_state, unblocked_squares);
            let builds = worker_next_build_state.narrowed_builds.squares();
            let ghost result_at_end_start = result@;
            let mut bi: usize = 0;
            while bi < builds.len()
                invariant
                    bi <= builds@.len(),
                    ei >= 1,
                    ei <= ends@.len(),
                    ends@[ei - 1] == worker_end_pos,
                    wi >= 1,
                    wi <= workers@.len(),
                    workers@[wi - 1] == worker_start_pos,
                    flags & NARROWING_FLAGS == 0 ==> forall|data: u32| #[trigger] is_hermes_step_turn(*state, player, must_climb, data) && (exists|j: int|
                        0 <= j < wi - 1 && workers@[j] as u32 == field_at(data, 0)) ==> lists_word(result@, data),
                    flags & NARROWING_FLAGS == 0 ==> forall|data: u32| #[trigger] is_hermes_step_turn(*state, player, must_climb, data) && field_at(data, 0) == worker_start_pos
                        && is_winning_data(data) ==> lists_word(result@, data),
                    flags & NARROWING_FLAGS == 0 ==> forall|data: u32| #[trigger] is_hermes_step_turn(*state, player, must_climb, data) && field_at(data, 0) == worker_start_pos
                        && !is_winning_data(data) && (exists|j: int| 0 <= j < ei - 1 && ends@[j] as u32 == field_at(data, 5)) ==> lists_word(
                        result@,
                        data,
                    ),
                    flags & NARROWING_FLAGS == 0 ==> forall|data: u32| #[trigger] is_hermes_step_turn(*state, player, must_climb, data) && field_at(data, 0) == worker_start_pos
                        && !is_winning_data(data) && field_at(data, 5) == worker_end_pos && (exists|j: int| 0 <= j < bi && builds@[j] as u32 == field_at(
                        data,
                        10,
                    )) ==> lists_word(result@, data),
                    flags & NARROWING_FLAGS == 0 ==> forall|b: int| 0 <= b < 25 && #[trigger] worker_next_build_state.all_possible_builds.has(b)
                        ==> builds@.contains(b as u8),
                    prelude.inv(),
                    prelude.board == state.board,
                    prelude.player == player,
                    prelude.other_god == state.gods[1 - player.idx()],
                    worker_start_pos < 25,
                    worker_end_pos < 25,
                    is_acting_worker(*state, player, worker_start_pos as int),
                    is_hermes_step(state.board, worker_start_pos as int, worker_end_pos as int, must_climb),
                    !is_win_step(false, state.board.height(worker_start_pos as int), state.board.height(worker_end_pos as int)),
                    worker_next_build_state.describes(prelude, worker_start_pos as int, worker_end_pos as int),
                    forall|k: int| 0 <= k < builds@.len() ==> #[trigger] builds@[k] < 25
                        && worker_next_build_state.narrowed_builds.has(builds@[k] as int),
                    forall|k: int| 0 <= k < result@.len() ==> #[trigger] is_hermes_turn(*state, player, must_climb, result@[k].action.0),
                decreases builds@.len() - bi,
            {
                let worker_build_pos = builds[bi];
                bi = bi + 1;
                let new_action = HermesMove::new_hermes_single_move(worker_start_pos, worker_end_pos, worker_build_pos);
                let worker_build_mask = BitBoard::as_mask(worker_build_pos);
                let final_level_3 = prelude.exactly_level_2.and(worker_build_mask).or(prelude.exactly_level_3.minus(worker_build_mask));
                let is_check = reach_board.and(final_level_3).and(unblocked_squares).is_not_empty();
                let ghost before = result@;
                result.push(build_scored_move(flags, new_action.to_generic(), is_check, worker_end_move_state.is_improving));
                proof {
                    lemma_hermes_move_round_trip(worker_start_pos as u32, worker_end_pos as u32, worker_build_pos as u32, 25, 0, 0);
                    lemma_lists_word_grows(before, result@);
                    assert(result@[before.len() as int].action.0 == hermes_single_data(
                        worker_start_pos as u32,
                        worker_end_pos as u32,
                        worker_build_pos as u32,
                    ));
                    if flags & NARROWING_FLAGS == 0 {
                        assert forall|data: u32| #[trigger] is_hermes_step_turn(*state, player, must_climb, data) && field_at(data, 0) == worker_start_pos && !is_winning_data(data)
                            && field_at(data, 5) == worker_end_pos && (exists|j: int| 0 <= j < bi && builds@[j] as u32 == field_at(data, 10))
                            implies lists_word(result@, data) by {
                            let j = choose|j: int| 0 <= j < bi && builds@[j] as u32 == field_at(data, 10);
                            if j < bi - 1 {
                                assert(lists_word(before, data));
                            } else {
                                assert(result@[before.len() as int].action.0 == data);
                            }
                        }
                    }
                    assert(worker_next_build_state.narrowed_builds.has(worker_build_pos as int));
                    assert forall|k: int| 0 <= k < result@.len() implies #[trigger] is_hermes_turn(
                        *state,
                        player,
                        must_climb,
                        result@[k].action.0,
                    ) by {
                        if k < before.len() {
                            assert(result@[k] == before[k]);
                        }
                    }
                }
            }
            proof {
                if flags & NARROWING_FLAGS == 0 {
                    assert forall|data: u32| #[trigger] is_hermes_step_turn(*state, player, must_climb, data) && field_at(data, 0) == worker_start_pos && !is_winning_data(data)
                        && (exists|j: int| 0 <= j < ei && ends@[j] as u32 == field_at(data, 5)) implies lists_word(result@, data) by {
                        let j = choose|j: int| 0 <= j < ei && ends@[j] as u32 == field_at(data, 5);
                        if j == ei - 1 {
                            let b = field_at(data, 10);
                            assert(worker_next_build_state.all_possible_builds.has(b as int));
                            assert(builds@.contains(b as u8));
                            let jb = choose|jb: int| 0 <= jb < builds@.len() && builds@[jb] == b as u8;
                            assert(builds@[jb] as u32 == field_at(data, 10));
                        }
                    }
                }
            }
        }
        proof {
            if flags & NARROWING_FLAGS == 0 {
                assert forall|data: u32| #[trigger] is_hermes_step_turn(*state, player, must_climb, data) && (exists|j: int| 0 <= j < wi && workers@[j] as u32 == field_at(data, 0))
                    implies lists_word(result@, data) by {
                    let j = choose|j: int| 0 <= j < wi && workers@[j] as u32 == field_at(data, 0);
                    if j == wi - 1 && !is_winning_data(data) {
                        let to = field_at(data, 5);
                        assert(ends@.contains(to as u8));
                        let je = choose|je: int| 0 <= je < ends@.len() && ends@[je] == to as u8;
                        assert(ends@[je] as u32 == field_at(data, 5));
                    }
                }
            }
        }
    }
    proof {
        if flags & NARROWING_FLAGS == 0 {
            assert forall|data: u32| #[trigger] hermes_step_turn_owed(*state, player, must_climb, data) implies lists_word(result@, data) by {
                let f = field_at(data, 0);
                assert(state.board.workers[player.idx()].within_board());
                lemma_acting_in_prelude(*state, player, prelude.own_workers, initial_acting, f as int);
                assert(workers@.contains(f as u8));
                let j = choose|j: int| 0 <= j < workers@.len() && workers@[j] == f as u8;
                assert(workers@[j] as u32 == field_at(data, 0));
            }
        }
    }
    let ghost before_walks = result@;
    proof {
        lemma_squares_below(prelude.acting_workers.0, 25);
        if flags & NARROWING_FLAGS == 0 {
            assert forall|k: int| 0 <= k < workers@.len() implies #[trigger] is_acting_worker(*state, player, workers@[k] as int) by {
                lemma_prelude_acting(*state, player, prelude.own_workers, initial_acting, workers@[k] as int);
            }
            assert forall|f: int| #[trigger] is_acting_worker(*state, player, f) implies workers@.contains(f as u8) && 0 <= f < 25 by {
                assert(state.board.workers[player.idx()].within_board());
                lemma_acting_in_prelude(*state, player, prelude.own_workers, initial_acting, f);
            }
            lemma_acting_order(*state, player, workers@);
        }
    }
    if is_mate_only(flags) || must_climb || workers.len() == 0 {
        proof {
            if flags & NARROWING_FLAGS == 0 {
                assert forall|data: u32| #[trigger] hermes_turn_owed(*state, player, must_climb, data) implies lists_word(result@, data) by {
                    assert(hermes_step_turn_owed(*state, player, must_climb, data));
                }
            }
        }
        return result;
    }
    let f1 = workers[0];
    proof {
        lemma_prelude_acting(*state, player, prelude.own_workers, initial_acting, f1 as int);
    }
    if workers.len() == 1 {
        add_single_walks(flags, state, player, &prelude, &mut result, f1);
        proof {
            lemma_lists_word_grows(before_walks, result@);
            if flags & NARROWING_FLAGS == 0 {
                assert forall|data: u32| #[trigger] hermes_turn_owed(*state, player, must_climb, data) implies lists_word(result@, data) by {
                    if !hermes_step_turn_owed(*state, player, must_climb, data) {
                        assert(is_sole_acting(*state, player, field_at(data, 0) as int));
                    }
                }
            }
        }
        return result;
    }
    let f2 = workers[1];
    proof {
        lemma_prelude_acting(*state, player, prelude.own_workers, initial_acting, f2 as int);
    }
    add_double_walks(flags, state, player, &prelude, &mut result, f1, f2);
    proof {
        lemma_lists_word_grows(before_walks, result@);
        if flags & NARROWING_FLAGS == 0 {
            assert forall|data: u32| #[trigger] hermes_turn_owed(*state, player, must_climb, data) implies lists_word(result@, data) by {
                if !hermes_step_turn_owed(*state, player, must_climb, data) {
                    assert(are_first_two_acting(*state, player, field_at(data, 0) as int, field_at(data, 15) as int));
                }
            }
        }
    }
    result
}

/// The walks of a lone worker along its level, each followed by a build next to where it stops;
/// staying put counts as a walk.
fn add_single_walks(
    flags: MoveGenFlags,
    state: &FullGameState,
    player: Player,
    prelude: &GeneratorPreludeState,
    result: &mut Vec<ScoredMove>,
    f1: Square,
)
    requires
        state.board.wf(),
        prelude.inv(),
        prelude.board == state.board,
        prelude.player == player,
        prelude.other_god == state.gods[1 - player.idx()],
        f1 < 25,
        is_acting_worker(*state, player, f1 as int),
        forall|k: int| 0 <= k < old(result)@.len() ==> #[trigger] is_hermes_turn(*state, player, false, old(result)@[k].action.0),
    ensures
        forall|k: int| 0 <= k < final(result)@.len() ==> #[trigger] is_hermes_turn(*state, player, false, final(result)@[k].action.0),
        old(result)@.len() <= final(result)@.len(),
        forall|k: int| 0 <= k < old(result)@.len() ==> #[trigger] final(result)@[k] == old(result)@[k],
        flags & NARROWING_FLAGS == 0 ==> forall|data: u32| #[trigger] is_single_walk_for(*state, player, f1 as u32, data)
            ==> lists_word(final(result)@, data),
{
    broadcast use group_bit_lemmas;

    let ghost p = player.idx();
    let board = prelude.board;
    let m1 = BitBoard::as_mask(f1);
    let h1 = board.get_height(f1);
    let level = if h1 <= 3 {
        board.exactly_level_n(h1)
    } else {
        BitBoard::empty()
    };
    let walkable = level.minus(prelude.oppo_workers);
    let c1 = flood_fill(walkable, f1, Ghost(board), Ghost(p));
    let non_selected_workers = prelude.all_workers_and_frozen_mask.minus(m1);
    let buildable_squares = non_selected_workers.or(prelude.domes_and_frozen).not();
    let l1 = if h1 == 2 {
        BitBoard::main_section()
    } else {
        BitBoard::empty()
    };
    let ends = c1.squares();
    proof {
        crate::generic::lemma_no_flags(flags);
        assert forall|i: int| is_level_walk(state.board, p, f1 as int, i) implies #[trigger] ends@.contains(i as u8) by {
            lemma_walk_ends_walkable(state.board, p, f1 as int, i);
            assert(c1.has(i));
        }
    }
    let mut ei: usize = 0;
    while ei < ends.len()
        invariant
            ei <= ends@.len(),
            flags & NARROWING_FLAGS == 0 ==> !crate::gods::move_helpers::is_interact_with_key_squares_spec(flags),
            flags & NARROWING_FLAGS == 0 ==> forall|data: u32| #[trigger] is_single_walk_for(*state, player, f1 as u32, data)
                && (exists|j: int| 0 <= j < ei && ends@[j] as u32 == field_at(data, 5)) ==> lists_word(result@, data),
            state.board.wf(),
            old(result)@.len() <= result@.len(),
            forall|k: int| 0 <= k < old(result)@.len() ==> #[trigger] result@[k] == old(result)@[k],
            prelude.inv(),
            prelude.board == state.board,
            prelude.player == player,
            prelude.other_god == state.gods[1 - player.idx()],
            p == player.idx(),
            f1 < 25,
            is_acting_worker(*state, player, f1 as int),
            forall|i: int| #[trigger] buildable_squares.has(i) == (0 <= i < 32 && !(state.board.occupied(i) && i != f1) && !(
            is_square(i) && state.board.height(i) == 4)),
            forall|k: int| 0 <= k < ends@.len() ==> #[trigger] ends@[k] < 25 && is_level_walk(state.board, p, f1 as int, ends@[k] as int),
            forall|k: int| 0 <= k < result@.len() ==> #[trigger] is_hermes_turn(*state, player, false, result@[k].action.0),
        decreases ends@.len() - ei,
    {
        let t1 = ends[ei];
        ei = ei + 1;
        let worker_end_mask = BitBoard::as_mask(t1);
        let all_possible_builds = neighbor_mask(t1).and(buildable_squares);
        let mut narrowed_builds = all_possible_builds.and(prelude.build_mask);
        if is_interact_with_key_squares(flags) {
            if worker_end_mask.and(prelude.key_squares).is_empty() {
                narrowed_builds = narrowed_builds.and(prelude.key_squares);
            }
        }
        let reach_board = neighbor_mask(t1).and(l1).and(prelude.win_mask);
        let builds = narrowed_builds.squares();
        proof {
            if flags & NARROWING_FLAGS == 0 {
                assert forall|b: int| 0 <= b < 25 && is_standard_build_for(*state, player, f1 as int, t1 as int, b) implies #[trigger] builds@.contains(
                    b as u8,
                ) by {
                    assert(narrowed_builds.has(b));
                }
            }
        }
        let ghost result_at_end_start = result@;
        let mut bi: usize = 0;
        while bi < builds.len()
            invariant
                bi <= builds@.len(),
                ei >= 1,
                ei <= ends@.len(),
                ends@[ei - 1] == t1,
                flags & NARROWING_FLAGS == 0 ==> forall|data: u32| #[trigger] is_single_walk_for(*state, player, f1 as u32, data)
                    && (exists|j: int| 0 <= j < ei - 1 && ends@[j] as u32 == field_at(data, 5)) ==> lists_word(result@, data),
                flags & NARROWING_FLAGS == 0 ==> forall|data: u32| #[trigger] is_single_walk_for(*state, player, f1 as u32, data)
                    && field_at(data, 5) == t1 && (exists|j: int| 0 <= j < bi && builds@[j] as u32 == field_at(data, 10)) ==> lists_word(
                    result@,
                    data,
                ),
                flags & NARROWING_FLAGS == 0 ==> forall|b: int| 0 <= b < 25 && is_standard_build_for(*state, player, f1 as int, t1 as int, b)
                    ==> #[trigger] builds@.contains(b as u8),
                prelude.inv(),
                old(result)@.len() <= result@.len(),
                forall|k: int| 0 <= k < old(result)@.len() ==> #[trigger] result@[k] == old(result)@[k],
                prelude.board == state.board,
                prelude.player == player,
                prelude.other_god == state.gods[1 - player.idx()],
                p == player.idx(),
                f1 < 25,
                t1 < 25,
                is_acting_worker(*state, player, f1 as int),
                is_level_walk(state.board, p, f1 as int, t1 as int),
                forall|k: int| 0 <= k < builds@.len() ==> #[trigger] builds@[k] < 25 && is_standard_build_for(
                    *state,
                    player,
                    f1 as int,
                    t1 as int,
                    builds@[k] as int,
                ),
                forall|k: int| 0 <= k < result@.len() ==> #[trigger] is_hermes_turn(*state, player, false, result@[k].action.0),
            decreases builds@.len() - bi,
        {
            let worker_build_pos = builds[bi];
            bi = bi + 1;
            let worker_build_mask = BitBoard::as_mask(worker_build_pos);
            let new_action = HermesMove::new_hermes_single_move(f1, t1, worker_build_pos);
            let is_check = prelude.exactly_level_2.and(worker_build_mask).or(prelude.exactly_level_3.minus(worker_build_mask)).and(
                reach_board,
            ).and(buildable_squares).is_not_empty();
            let ghost before = result@;
            result.push(build_scored_move(flags, new_action.to_generic(), is_check, false));
            proof {
                lemma_hermes_move_round_trip(f1 as u32, t1 as u32, worker_build_pos as u32, 25, 0, 0);
                lemma_lists_word_grows(before, result@);
                assert(result@[before.len() as int].action.0 == hermes_single_data(f1 as u32, t1 as u32, worker_build_pos as u32));
                if flags & NARROWING_FLAGS == 0 {
                    assert forall|data: u32| #[trigger] is_single_walk_for(*state, player, f1 as u32, data) && field_at(data, 5) == t1
                        && (exists|j: int| 0 <= j < bi && builds@[j] as u32 == field_at(data, 10)) implies lists_word(result@, data) by {
                        let j = choose|j: int| 0 <= j < bi && builds@[j] as u32 == field_at(data, 10);
                        if j < bi - 1 {
                            assert(lists_word(before, data));
                        } else {
                            assert(result@[before.len() as int].action.0 == data);
                        }
                    }
                }
                assert forall|k: int| 0 <= k < result@.len() implies #[trigger] is_hermes_turn(*state, player, false, result@[k].action.0) by {
                    if k < before.len() {
                        assert(result@[k] == before[k]);
                    }
                }
            }
        }
        proof {
            if flags & NARROWING_FLAGS == 0 {
                assert forall|data: u32| #[trigger] is_single_walk_for(*state, player, f1 as u32, data)
                    && (exists|j: int| 0 <= j < ei && ends@[j] as u32 == field_at(data, 5)) implies lists_word(result@, data) by {
                    let j = choose|j: int| 0 <= j < ei && ends@[j] as u32 == field_at(data, 5);
                    if j == ei - 1 {
                        let b = field_at(data, 10);
                        assert(builds@.contains(b as u8));
                        let jb = choose|jb: int| 0 <= jb < builds@.len() && builds@[jb] == b as u8;
                        assert(builds@[jb] as u32 == field_at(data, 10));
                    }
                }
            }
        }
    }
    proof {
        if flags & NARROWING_FLAGS == 0 {
            assert forall|data: u32| #[trigger] is_single_walk_for(*state, player, f1 as u32, data) implies lists_word(result@, data) by {
                let to = field_at(data, 5);
                lemma_walk_ends_walkable(state.board, p, f1 as int, to as int);
                assert(ends@.contains(to as u8));
                let j = choose|j: int| 0 <= j < ends@.len() && ends@[j] == to as u8;
                assert(ends@[j] as u32 == field_at(data, 5));
            }
        }
    }
}

/// The turns where both workers walk along their levels, then build next to either. When the
/// second worker stands in the first one's region both walk within it, and each pair of end
/// squares is offered once.
fn add_double_walks(
    flags: MoveGenFlags,
    state: &FullGameState,
    player: Player,
    prelude: &GeneratorPreludeState,
    result: &mut Vec<ScoredMove>,
    f1: Square,
    f2: Square,
)
    requires
        state.board.wf(),
        prelude.inv(),
        prelude.board == state.board,
        prelude.player == player,
        prelude.other_god == state.gods[1 - player.idx()],
        f1 < 25,
        f2 < 25,
        f1 != f2,
        is_acting_worker(*state, player, f1 as int),
        is_acting_worker(*state, player, f2 as int),
        forall|k: int| 0 <= k < old(result)@.len() ==> #[trigger] is_hermes_turn(*state, player, false, old(result)@[k].action.0),
    ensures
        forall|k: int| 0 <= k < final(result)@.len() ==> #[trigger] is_hermes_turn(*state, player, false, final(result)@[k].action.0),
        old(result)@.len() <= final(result)@.len(),
        forall|k: int| 0 <= k < old(result)@.len() ==> #[trigger] final(result)@[k] == old(result)@[k],
        flags & NARROWING_FLAGS == 0 ==> forall|data: u32| #[trigger] is_double_walk_for(*state, player, f1 as u32, f2 as u32, data)
            ==> lists_word(final(result)@, data),
{
    broadcast use group_bit_lemmas;

    let ghost p = player.idx();
    let board = prelude.board;
    let h1 = board.get_height(f1);
    let level1 = if h1 <= 3 {
        board.exactly_level_n(h1)
    } else {
        BitBoard::empty()
    };
    let c1 = flood_fill(level1.minus(prelude.oppo_workers), f1, Ghost(board), Ghost(p));
    let is_overlap = c1.contains_square(f2);
    let h2 = if is_overlap {
        h1
    } else {
        board.get_height(f2)
    };
    let mut c2 = if is_overlap {
        c1
    } else {
        let level2 = if h2 <= 3 {
            board.exactly_level_n(h2)
        } else {
            BitBoard::empty()
        };
        flood_fill(level2.minus(prelude.oppo_workers), f2, Ghost(board), Ghost(p))
    };
    let blocked_squares = prelude.oppo_workers.or(prelude.domes_and_frozen);
    let l1 = if h1 == 2 {
        BitBoard::main_section()
    } else {
        BitBoard::empty()
    };
    let l2 = if h2 == 2 {
        BitBoard::main_section()
    } else {
        BitBoard::empty()
    };
    let firsts = c1.squares();
    let ghost c2_init = c2;
    proof {
        crate::generic::lemma_no_flags(flags);
        lemma_squares_below(c1.0, 25);
        assert(is_overlap == is_level_walk(state.board, p, f1 as int, f2 as int));
        assert forall|i: int| is_level_walk(state.board, p, f1 as int, i) implies #[trigger] firsts@.contains(i as u8) by {
            lemma_walk_ends_walkable(state.board, p, f1 as int, i);
            assert(c1.has(i));
        }
        assert forall|i: int| (if is_overlap {
            is_level_walk(state.board, p, f1 as int, i)
        } else {
            is_level_walk(state.board, p, f2 as int, i)
        }) implies #[trigger] c2_init.has(i) by {}
    }
    let mut i1: usize = 0;
    while i1 < firsts.len()
        invariant
            i1 <= firsts@.len(),
            flags & NARROWING_FLAGS == 0 ==> !crate::gods::move_helpers::is_interact_with_key_squares_spec(flags),
            is_overlap == is_level_walk(state.board, p, f1 as int, f2 as int),
            forall|a: int, b: int| 0 <= a < b < firsts@.len() ==> firsts@[a] < firsts@[b],
            forall|i: int| (if is_overlap {
                is_level_walk(state.board, p, f1 as int, i)
            } else {
                is_level_walk(state.board, p, f2 as int, i)
            }) ==> #[trigger] c2_init.has(i),
            forall|i: int| 0 <= i < 32 ==> (#[trigger] c2.has(i) == (c2_init.has(i) && !(exists|j: int| 0 <= j < i1 && firsts@[j] == i))),
            flags & NARROWING_FLAGS == 0 ==> forall|data: u32| #[trigger] is_double_walk_for(*state, player, f1 as u32, f2 as u32, data)
                && (exists|j: int| 0 <= j < i1 && firsts@[j] as u32 == field_at(data, 5)) ==> lists_word(result@, data),
            state.board.wf(),
            old(result)@.len() <= result@.len(),
            forall|k: int| 0 <= k < old(result)@.len() ==> #[trigger] result@[k] == old(result)@[k],
            prelude.inv(),
            prelude.board == state.board,
            prelude.player == player,
            prelude.other_god == state.gods[1 - player.idx()],
            p == player.idx(),
            f1 < 25,
            f2 < 25,
            f1 != f2,
            is_acting_worker(*state, player, f1 as int),
            is_acting_worker(*state, player, f2 as int),
            is_overlap ==> is_level_walk(state.board, p, f1 as int, f2 as int),
            forall|i: int| #[trigger] blocked_squares.has(i) == (state.board.workers[1 - p].has(i) || (is_square(i)
                && state.board.height(i) == 4)),
            forall|i: int| #[trigger] c2.has(i) ==> i < 25 && if is_overlap {
                is_level_walk(state.board, p, f1 as int, i)
            } else {
                is_level_walk(state.board, p, f2 as int, i)
            },
            forall|k: int| 0 <= k < firsts@.len() ==> #[trigger] firsts@[k] < 25 && is_level_walk(
                state.board,
                p,
                f1 as int,
                firsts@[k] as int,
            ),
            forall|k: int| 0 <= k < result@.len() ==> #[trigger] is_hermes_turn(*state, player, false, result@[k].action.0),
        decreases firsts@.len() - i1,
    {
        let t1 = firsts[i1];
        i1 = i1 + 1;
        let t1_mask = BitBoard::as_mask(t1);
        c2 = c2.minus(t1_mask);
        let t1_ns = neighbor_mask(t1);
        let from_level_2_1 = t1_ns.and(l1);
        let seconds = c2.squares();
        proof {
            if flags & NARROWING_FLAGS == 0 {
                assert forall|data: u32| #[trigger] is_double_walk_for(*state, player, f1 as u32, f2 as u32, data) && field_at(data, 5) == t1
                    implies seconds@.contains(field_at(data, 20) as u8) by {
                    let t2 = field_at(data, 20) as int;
                    if is_overlap {
                        lemma_walk_ends_walkable(state.board, p, f1 as int, t2);
                    } else {
                        lemma_walk_ends_walkable(state.board, p, f2 as int, t2);
                    }
                    assert(c2_init.has(t2));
                    if exists|j: int| 0 <= j < i1 && firsts@[j] == t2 {
                        let j = choose|j: int| 0 <= j < i1 && firsts@[j] == t2;
                        assert(c1.has(t2));
                        if j < i1 - 1 {
                            assert(firsts@[j] < firsts@[i1 - 1]);
                        }
                    }
                    assert(c2.has(t2));
                }
            }
        }
        let ghost result_at_first = result@;
        let mut i2: usize = 0;
        while i2 < seconds.len()
            invariant
                i2 <= seconds@.len(),
                i1 >= 1,
                i1 <= firsts@.len(),
                firsts@[i1 - 1] == t1,
                flags & NARROWING_FLAGS == 0 ==> !crate::gods::move_helpers::is_interact_with_key_squares_spec(flags),
                is_overlap == is_level_walk(state.board, p, f1 as int, f2 as int),
                flags & NARROWING_FLAGS == 0 ==> forall|data: u32| #[trigger] is_double_walk_for(*state, player, f1 as u32, f2 as u32, data)
                    && (exists|j: int| 0 <= j < i1 - 1 && firsts@[j] as u32 == field_at(data, 5)) ==> lists_word(result@, data),
                flags & NARROWING_FLAGS == 0 ==> forall|data: u32| #[trigger] is_double_walk_for(*state, player, f1 as u32, f2 as u32, data)
                    && field_at(data, 5) == t1 && (exists|j: int| 0 <= j < i2 && seconds@[j] as u32 == field_at(data, 20)) ==> lists_word(
                    result@,
                    data,
                ),
                prelude.inv(),
                old(result)@.len() <= result@.len(),
                forall|k: int| 0 <= k < old(result)@.len() ==> #[trigger] result@[k] == old(result)@[k],
                prelude.board == state.board,
                prelude.player == player,
                prelude.other_god == state.gods[1 - player.idx()],
                p == player.idx(),
                f1 < 25,
                f2 < 25,
                t1 < 25,
                f1 != f2,
                is_acting_worker(*state, player, f1 as int),
                is_acting_worker(*state, player, f2 as int),
                is_level_walk(state.board, p, f1 as int, t1 as int),
                is_overlap ==> is_level_walk(state.board, p, f1 as int, f2 as int),
                forall|i: int| #[trigger] blocked_squares.has(i) == (state.board.workers[1 - p].has(i) || (is_square(i)
                    && state.board.height(i) == 4)),
                forall|i: int| #[trigger] t1_ns.has(i) == is_adjacent(t1 as int, i),
                forall|i: int| #[trigger] t1_mask.has(i) == (i == t1),
                forall|k: int| 0 <= k < seconds@.len() ==> #[trigger] seconds@[k] < 25 && seconds@[k] != t1 && if is_overlap {
                    is_level_walk(state.board, p, f1 as int, seconds@[k] as int)
                } else {
                    is_level_walk(state.board, p, f2 as int, seconds@[k] as int)
                },
                forall|k: int| 0 <= k < result@.len() ==> #[trigger] is_hermes_turn(*state, player, false, result@[k].action.0),
            decreases seconds@.len() - i2,
        {
            let t2 = seconds[i2];
            i2 = i2 + 1;
            let t2_mask = BitBoard::as_mask(t2);
            let both_mask = t1_mask.or(t2_mask);
            let t2_ns = neighbor_mask(t2);
            let near = t1_ns.or(t2_ns).minus(blocked_squares.or(both_mask));
            let worker_plausible_next_moves = near.and(prelude.win_mask);
            let mut possible_builds = near.and(prelude.build_mask);
            if is_interact_with_key_squares(flags) {
                if both_mask.and(prelude.key_squares).is_empty() {
                    possible_builds = possible_builds.and(prelude.key_squares);
                }
            }
            proof {
                assert forall|i: int| #[trigger] possible_builds.has(i) implies 0 <= i < 25 && (is_adjacent(t1 as int, i) || is_adjacent(
                    t2 as int,
                    i,
                )) && i != t1 && i != t2 && !state.board.workers[1 - p].has(i) && state.board.height(i) < 4
                    && build_mask_allows(state.gods[1 - p], state.board, player, i) by {
                    assert(near.has(i));
                    assert(prelude.build_mask.has(i));
                    assert(!blocked_squares.has(i));
                    assert(!both_mask.has(i));
                }
            }
            let from_level_2_2 = t2_ns.and(l2);
            let l2_neighbors = from_level_2_1.or(from_level_2_2);
            let builds = possible_builds.squares();
            proof {
                if flags & NARROWING_FLAGS == 0 {
                    assert forall|data: u32| #[trigger] is_double_walk_for(*state, player, f1 as u32, f2 as u32, data) && field_at(data, 5) == t1
                        && field_at(data, 20) == t2 implies builds@.contains(field_at(data, 10) as u8) by {
                        let b = field_at(data, 10) as int;
                        assert(is_square(b));
                        assert(near.has(b));
                        assert(possible_builds.has(b));
                    }
                }
            }
            let mut bi: usize = 0;
            while bi < builds.len()
                invariant
                    bi <= builds@.len(),
                    i1 >= 1,
                    i1 <= firsts@.len(),
                    firsts@[i1 - 1] == t1,
                    i2 >= 1,
                    i2 <= seconds@.len(),
                    seconds@[i2 - 1] == t2,
                    is_overlap == is_level_walk(state.board, p, f1 as int, f2 as int),
                    flags & NARROWING_FLAGS == 0 ==> forall|data: u32| #[trigger] is_double_walk_for(*state, player, f1 as u32, f2 as u32, data)
                        && (exists|j: int| 0 <= j < i1 - 1 && firsts@[j] as u32 == field_at(data, 5)) ==> lists_word(result@, data),
                    flags & NARROWING_FLAGS == 0 ==> forall|data: u32| #[trigger] is_double_walk_for(*state, player, f1 as u32, f2 as u32, data)
                        && field_at(data, 5) == t1 && (exists|j: int| 0 <= j < i2 - 1 && seconds@[j] as u32 == field_at(data, 20)) ==> lists_word(
                        result@,
                        data,
                    ),
                    flags & NARROWING_FLAGS == 0 ==> forall|data: u32| #[trigger] is_double_walk_for(*state, player, f1 as u32, f2 as u32, data)
                        && field_at(data, 5) == t1 && field_at(data, 20) == t2 && (exists|j: int| 0 <= j < bi && builds@[j] as u32 == field_at(
                        data,
                        10,
                    )) ==> lists_word(result@, data),
                    prelude.inv(),
                    old(result)@.len() <= result@.len(),
                    forall|k: int| 0 <= k < old(result)@.len() ==> #[trigger] result@[k] == old(result)@[k],
                    prelude.board == state.board,
                    prelude.player == player,
                    prelude.other_god == state.gods[1 - player.idx()],
                    p == player.idx(),
                    f1 < 25,
                    f2 < 25,
                    t1 < 25,
                    t2 < 25,
                    f1 != f2,
                    t1 != t2,
                    is_acting_worker(*state, player, f1 as int),
                    is_acting_worker(*state, player, f2 as int),
                    is_level_walk(state.board, p, f1 as int, t1 as int),
                    if is_overlap {
                        is_level_walk(state.board, p, f1 as int, f2 as int) && is_level_walk(state.board, p, f1 as int, t2 as int)
                    } else {
                        is_level_walk(state.board, p, f2 as int, t2 as int)
                    },
                    forall|k: int| 0 <= k < builds@.len() ==> #[trigger] builds@[k] < 25 && (is_adjacent(t1 as int, builds@[k] as int)
                        || is_adjacent(t2 as int, builds@[k] as int)) && builds@[k] != t1 && builds@[k] != t2
                        && !state.board.workers[1 - p].has(builds@[k] as int) && state.board.height(builds@[k] as int) < 4
                        && build_mask_allows(state.gods[1 - p], state.board, player, builds@[k] as int),
                    forall|k: int| 0 <= k < result@.len() ==> #[trigger] is_hermes_turn(*state, player, false, result@[k].action.0),
                decreases builds@.len() - bi,
            {
                let build = builds[bi];
                bi = bi + 1;
                let new_action = HermesMove::new_hermes_double_move(f1, t1, f2, t2, build, is_overlap);
                let worker_build_mask = BitBoard::as_mask(build);
                let is_check = l2_neighbors.and(worker_plausible_next_moves).and(
                    prelude.exactly_level_3.minus(worker_build_mask).or(prelude.exactly_level_2.and(worker_build_mask)),
                ).is_not_empty();
                let ghost before = result@;
                result.push(build_scored_move(flags, new_action.to_generic(), is_check, false));
                proof {
                    let ov: u32 = if is_overlap { 1 } else { 0 };
                    lemma_hermes_move_round_trip(f1 as u32, t1 as u32, build as u32, f2 as u32, t2 as u32, ov);
                    lemma_hermes_overlap_bit(f1 as u32, t1 as u32, build as u32, f2 as u32, t2 as u32, ov);
                    lemma_lists_word_grows(before, result@);
                    assert(result@[before.len() as int].action.0 == hermes_double_data(
                        f1 as u32,
                        t1 as u32,
                        f2 as u32,
                        t2 as u32,
                        build as u32,
                        is_overlap,
                    ));
                    if flags & NARROWING_FLAGS == 0 {
                        assert forall|data: u32| #[trigger] is_double_walk_for(*state, player, f1 as u32, f2 as u32, data) && field_at(data, 5) == t1
                            && field_at(data, 20) == t2 && (exists|j: int| 0 <= j < bi && builds@[j] as u32 == field_at(data, 10))
                            implies lists_word(result@, data) by {
                            let j = choose|j: int| 0 <= j < bi && builds@[j] as u32 == field_at(data, 10);
                            if j < bi - 1 {
                                assert(lists_word(before, data));
                            } else {
                                assert(result@[before.len() as int].action.0 == data);
                            }
                        }
                    }
                    assert forall|k: int| 0 <= k < result@.len() implies #[trigger] is_hermes_turn(*state, player, false, result@[k].action.0) by {
                        if k < before.len() {
                            assert(result@[k] == before[k]);
                        }
                    }
                }
            }
            proof {
                if flags & NARROWING_FLAGS == 0 {
                    assert forall|data: u32| #[trigger] is_double_walk_for(*state, player, f1 as u32, f2 as u32, data) && field_at(data, 5) == t1
                        && (exists|j: int| 0 <= j < i2 && seconds@[j] as u32 == field_at(data, 20)) implies lists_word(result@, data) by {
                        let j = choose|j: int| 0 <= j < i2 && seconds@[j] as u32 == field_at(data, 20);
                        if j == i2 - 1 {
                            let b = field_at(data, 10);
                            assert(builds@.contains(b as u8));
                            let jb = choose|jb: int| 0 <= jb < builds@.len() && builds@[jb] == b as u8;
                            assert(builds@[jb] as u32 == field_at(data, 10));
                        }
                    }
                }
            }
        }
        proof {
            if flags & NARROWING_FLAGS == 0 {
                assert forall|data: u32| #[trigger] is_double_walk_for(*state, player, f1 as u32, f2 as u32, data)
                    && (exists|j: int| 0 <= j < i1 && firsts@[j] as u32 == field_at(data, 5)) implies lists_word(result@, data) by {
                    let j = choose|j: int| 0 <= j < i1 && firsts@[j] as u32 == field_at(data, 5);
                    if j == i1 - 1 {
                        let t2 = field_at(data, 20);
                        assert(seconds@.contains(t2 as u8));
                        let js = choose|js: int| 0 <= js < seconds@.len() && seconds@[js] == t2 as u8;
                        assert(seconds@[js] as u32 == field_at(data, 20));
                    }
                }
            }
            assert forall|i: int| 0 <= i < 32 implies (#[trigger] c2.has(i) == (c2_init.has(i) && !(exists|j: int| 0 <= j < i1 && firsts@[j] == i))) by {
                if exists|j: int| 0 <= j < i1 && firsts@[j] == i {
                    let j = choose|j: int| 0 <= j < i1 && firsts@[j] == i;
                    if j < i1 - 1 {
                        assert(exists|j2: int| 0 <= j2 < i1 - 1 && firsts@[j2] == i);
                    }
                }
            }
        }
    }
    proof {
        if flags & NARROWING_FLAGS == 0 {
            assert forall|data: u32| #[trigger] is_double_walk_for(*state, player, f1 as u32, f2 as u32, data) implies lists_word(result@, data) by {
                let t1 = field_at(data, 5);
                lemma_walk_ends_walkable(state.board, p, f1 as int, t1 as int);
                assert(firsts@.contains(t1 as u8));
                let j = choose|j: int| 0 <= j < firsts@.len() && firsts@[j] == t1 as u8;
                assert(firsts@[j] as u32 == field_at(data, 5));
            }
        }
    }
}

/// Hermes's fixed data.
pub fn build_hermes() -> (r: GodPower)
    ensures
        r.god_name == GodName::Hermes,
        r.hash1 == 8064494721607657900u64,
        r.hash2 == 8099092864803375172u64,
        r.placement_type == PlacementType::Normal,
        r.symmetry == BoardSymmetry::Full,
        !r.is_persephone,
{
    god_power(GodName::Hermes, 8064494721607657900, 8099092864803375172)
}

/// How a turn of this god changes the board: the workers, the heights, the god data and the
/// winner after it, and whose turn it is, are those of `after`.
pub open spec fn hermes_move_effect(before: BoardState, after: BoardState, player: Player, data: u32) -> bool {
    &&& after.current_player == before.current_player
    &&& after.god_data == before.god_data
    &&& after.workers[1 - player.idx()] == before.workers[1 - player.idx()]
    &&& (field_at(data, 15) == 25 ==> after.workers[player.idx()].0 == before.workers[player.idx()].0 ^ ((1u32 << field_at(data, 0)) ^ (1u32 << field_at(data, 5))))
    &&& (field_at(data, 15) != 25 ==> after.workers[player.idx()].0 == before.workers[player.idx()].0 ^ ((1u32 << field_at(data, 0)) ^ (1u32 << field_at(data, 5)) ^ (1u32 << field_at(data, 15)) ^ (1u32 << field_at( data, 20, ))))
    &&& (is_winning_data(data) ==> after.winner == Some(player) && after.height_map == before.height_map)
    &&& (!is_winning_data(data) ==> after.winner == before.winner)
    &&& (!is_winning_data(data) ==> forall|i: int| #[trigger] after.height(i) == (if i == field_at(data, 10) { before.height(i) + 1 } else { before.height(i) }))
}

} // verus!
