use vstd::prelude::*;

use crate::bitboard::{group_bit_lemmas, inclusive_neighbor_mask, neighbor_mask, BitBoard, MAIN_SECTION};
use crate::board::{BoardState, FullGameState, Player};
use crate::generic::{
    build_scored_move, field_at, is_interact_with_key_squares, is_mate_only, is_stop_on_mate, is_winning_data, lemma_pack3,
    lemma_pack5, read_position, GenericMove, MoveData, MoveGenFlags, ScoredMove, ANY_MOVE_FILTER, MOVE_IS_WINNING_MASK, NARROWING_FLAGS,
};
use crate::gods::mortal::{is_acting_worker, lemma_lists_word_grows, lemma_prelude_acting, lists_word, mortal_basic_data};
use crate::gods::move_helpers::{build_mask_allows, get_generator_prelude_state, get_sized_result, GeneratorPreludeState};
use crate::square::{is_adjacent, is_square, Square};
use crate::gods::{BoardSymmetry, god_power, PlacementType, GodName, GodPower};

verus! {

/// A Stymphalians turn: a walk of up to three steps, then a build; a winning walk also records the two squares it passed through.
#[derive(Clone, Copy, PartialEq, Eq, Structural, Debug)]
pub struct StymphaliansMove(pub MoveData);

impl StymphaliansMove {
    fn new_basic_move(move_from_position: Square, move_to_position: Square, build_position: Square) -> (r: Self)
        requires
            move_from_position < 25,
            move_to_position < 25,
            build_position < 25,
        ensures
            r.0 == (move_from_position as u32) | ((move_to_position as u32) << 5u32) | ((build_position as u32) << 10u32),
    {
        Self((move_from_position as u32) | ((move_to_position as u32) << 5u32) | ((build_position as u32) << 10u32))
    }

    /// A winning walk, with the two squares it passes through.
    fn new_winning_move(move_from_position: Square, move_to_position: Square, path_1: Square, path_2: Square) -> (r: Self)
        requires
            move_from_position < 25,
            move_to_position < 25,
            path_1 < 25,
            path_2 < 25,
        ensures
            r.0 == (move_from_position as u32) | ((move_to_position as u32) << 5u32) | (0u32 << 10u32) | ((path_1 as u32) << 15u32) | ((path_2 as u32) << 20u32) | MOVE_IS_WINNING_MASK,
    {
        Self((move_from_position as u32) | ((move_to_position as u32) << 5u32) | (0u32 << 10u32) | ((path_1 as u32) << 15u32) | ((path_2 as u32) << 20u32) | MOVE_IS_WINNING_MASK)
    }

    pub fn move_from_position(&self) -> (r: Square)
        ensures
            r == field_at(self.0, 0),
            r < 32,
    {
        read_position(self.0, 0)
    }

    pub fn move_to_position(&self) -> (r: Square)
        ensures
            r == field_at(self.0, 5),
            r < 32,
    {
        read_position(self.0, 5)
    }

    fn build_position(self) -> (r: Square)
        ensures
            r == field_at(self.0, 10),
            r < 32,
    {
        read_position(self.0, 10)
    }

    fn winning_path_1(self) -> (r: Square)
        ensures
            r == field_at(self.0, 15),
            r < 32,
    {
        read_position(self.0, 15)
    }

    fn winning_path_2(self) -> (r: Square)
        ensures
            r == field_at(self.0, 20),
            r < 32,
    {
        read_position(self.0, 20)
    }

    /// The start and end squares of the moving worker.
    fn move_mask(self) -> (r: BitBoard)
        ensures
            r.0 == (1u32 << field_at(self.0, 0)) ^ (1u32 << field_at(self.0, 5)),
    {
        BitBoard::as_mask(self.move_from_position()).xor(BitBoard::as_mask(self.move_to_position()))
    }

    fn get_is_winning(&self) -> (r: bool)
        ensures
            r == is_winning_data(self.0),
    {
        (self.0 & MOVE_IS_WINNING_MASK) != 0
    }
}

/// One step of a walk: onto a free, undomed neighbour, at most one level up.
pub open spec fn sty_step(board: BoardState, from: int, to: int) -> bool {
    &&& is_adjacent(from, to)
    &&& !board.occupied(to)
    &&& board.height(to) < 4
    &&& board.height(to) <= board.height(from) + 1
}

pub open spec fn climbs(board: BoardState, from: int, to: int) -> bool {
    board.height(to) > board.height(from)
}

/// A walk must end on a square that is neither the start nor next to it.
pub open spec fn is_far_destination(from: int, to: int) -> bool {
    is_square(to) && to != from && !is_adjacent(from, to)
}

/// A walk of two or three steps from `from` to `to`; with `need_climb`, one of its steps climbs.
pub open spec fn sty_reaches(board: BoardState, from: int, to: int, need_climb: bool) -> bool {
    ||| exists|a: int|
        #[trigger] sty_step(board, from, a) && sty_step(board, a, to) && (need_climb ==> climbs(board, from, a) || climbs(
            board,
            a,
            to,
        ))
    ||| exists|a: int, b: int|
        #![trigger sty_step(board, from, a), sty_step(board, a, b)]
        sty_step(board, from, a) && sty_step(board, a, b) && sty_step(board, b, to) && (need_climb ==> climbs(board, from, a)
            || climbs(board, a, b) || climbs(board, b, to))
}

/// A winning walk through `p1` (two steps, `p2 == p1`) or through `p1` then `p2` (three steps),
/// whose last step climbs from level 2 onto level 3.
pub open spec fn is_winning_walk(board: BoardState, from: int, to: int, p1: int, p2: int) -> bool {
    &&& board.height(to) == 3
    &&& if p1 == p2 {
        sty_step(board, from, p1) && sty_step(board, p1, to) && board.height(p1) == 2
    } else {
        sty_step(board, from, p1) && sty_step(board, p1, p2) && sty_step(board, p2, to) && board.height(p2) == 2
    }
}

pub open spec fn sty_winning_data(from: u32, to: u32, p1: u32, p2: u32) -> u32 {
    from | (to << 5u32) | (0u32 << 10u32) | (p1 << 15u32) | (p2 << 20u32) | 0x8000_0000u32
}

/// A legal Stymphalians turn read off its word: a walk of two or three steps ending away from the
/// start, then a build; or a walk that wins by climbing onto level 3, with its squares recorded.
/// With `must_climb` a non-winning walk climbs somewhere.
pub open spec fn is_stymphalians_turn(state: FullGameState, player: Player, must_climb: bool, data: u32) -> bool {
    let board = state.board;
    let from = field_at(data, 0);
    let to = field_at(data, 5);
    &&& is_acting_worker(state, player, from as int)
    &&& is_far_destination(from as int, to as int)
    &&& if is_winning_data(data) {
        &&& data == sty_winning_data(from, to, field_at(data, 15), field_at(data, 20))
        &&& is_winning_walk(board, from as int, to as int, field_at(data, 15) as int, field_at(data, 20) as int)
    } else {
        let build = field_at(data, 10);
        &&& data == mortal_basic_data(from, to, build)
        &&& sty_reaches(board, from as int, to as int, must_climb)
        &&& is_adjacent(to as int, build as int)
        &&& !board.occupied(build as int)
        &&& board.height(build as int) < 4
        &&& build_mask_allows(state.gods[1 - player.idx()], board, player, build as int)
    }
}

/// A turn owed to climb is a turn.
pub proof fn lemma_climbing_walk_is_walk(state: FullGameState, player: Player, data: u32)
    ensures
        is_stymphalians_turn(state, player, true, data) ==> is_stymphalians_turn(state, player, false, data),
{
    let board = state.board;
    let from = field_at(data, 0) as int;
    let to = field_at(data, 5) as int;
    if is_stymphalians_turn(state, player, true, data) && !is_winning_data(data) {
        if exists|a: int| #[trigger] sty_step(board, from, a) && sty_step(board, a, to) && (climbs(board, from, a) || climbs(board, a, to)) {
            let a = choose|a: int| #[trigger] sty_step(board, from, a) && sty_step(board, a, to) && (climbs(board, from, a) || climbs(board, a, to));
            assert(sty_step(board, from, a) && sty_step(board, a, to));
        } else {
            let (a, b) = choose|a: int, b: int|
                #![trigger sty_step(board, from, a), sty_step(board, a, b)]
                sty_step(board, from, a) && sty_step(board, a, b) && sty_step(board, b, to) && (climbs(board, from, a) || climbs(
                    board,
                    a,
                    b,
                ) || climbs(board, b, to));
            assert(sty_step(board, from, a) && sty_step(board, a, b));
        }
    }
}

/// Free squares at most one level above `h`, among `open`.
fn open_at_height(prelude: &GeneratorPreludeState, open: BitBoard, h: usize) -> (r: BitBoard)
    requires
        prelude.inv(),
        forall|i: int| #[trigger] open.has(i) ==> prelude.board.height(i) < 4,
    ensures
        forall|i: int| #[trigger] r.has(i) == (open.has(i) && prelude.board.height(i) <= h + 1),
{
    let board = prelude.board;
    let layer = if h == 0 {
        board.height_map[1]
    } else if h == 1 {
        board.height_map[2]
    } else {
        board.height_map[3]
    };
    let r = layer.not().and(open);
    proof {
        assert forall|i: int| #[trigger] r.has(i) == (open.has(i) && prelude.board.height(i) <= h + 1) by {
            if 0 <= i < 32 {
                if h == 0 {
                    crate::gods::move_helpers::lemma_layer_is_height(board, 1, i);
                } else if h == 1 {
                    crate::gods::move_helpers::lemma_layer_is_height(board, 2, i);
                } else {
                    crate::gods::move_helpers::lemma_layer_is_height(board, 3, i);
                }
            }
        }
    }
    r
}

/// The squares one step of a walk from `m` reaches.
fn step_targets(prelude: &GeneratorPreludeState, open: BitBoard, m: Square) -> (r: BitBoard)
    requires
        prelude.inv(),
        m < 25,
        forall|i: int| #[trigger] open.has(i) == (0 <= i < 32 && !prelude.board.occupied(i) && !(is_square(i) && prelude.board.height(i) == 4)),
    ensures
        forall|i: int| #[trigger] r.has(i) == sty_step(prelude.board, m as int, i),
{
    let h = prelude.board.get_height(m);
    let r = neighbor_mask(m).and(open_at_height(prelude, open, h));
    proof {
        assert forall|i: int| #[trigger] r.has(i) == sty_step(prelude.board, m as int, i) by {
            if is_adjacent(m as int, i) {
                assert(is_square(i));
            }
        }
    }
    r
}

/// A first step of a three-step winning walk whose second square is `m`.
fn find_first_step(prelude: &GeneratorPreludeState, open: BitBoard, one_d: BitBoard, m: Square) -> (r: Square)
    requires
        prelude.inv(),
        m < 25,
        prelude.board.height(m as int) == 2,
        forall|i: int| #[trigger] open.has(i) == (0 <= i < 32 && !prelude.board.occupied(i) && !(is_square(i) && prelude.board.height(i) == 4)),
        exists|f: int| #[trigger] one_d.has(f) && sty_step(prelude.board, f, m as int),
    ensures
        r < 25,
        one_d.has(r as int),
        sty_step(prelude.board, r as int, m as int),
{
    let board = prelude.board;
    let pool = one_d.and(neighbor_mask(m)).and(board.height_map[0]);
    let candidates = pool.squares();
    let mut idx: usize = 0;
    while idx < candidates.len()
        invariant
            idx <= candidates@.len(),
            prelude.inv(),
            board == prelude.board,
            m < 25,
            forall|i: int| #[trigger] open.has(i) == (0 <= i < 32 && !prelude.board.occupied(i) && !(is_square(i) && prelude.board.height(i) == 4)),
            forall|k: int| 0 <= k < candidates@.len() ==> #[trigger] candidates@[k] < 25 && one_d.has(candidates@[k] as int),
            forall|sq: int| 0 <= sq < 25 && pool.has(sq) ==> candidates@.contains(sq as u8),
            forall|k: int| 0 <= k < idx ==> !sty_step(board, #[trigger] candidates@[k] as int, m as int),
        decreases candidates@.len() - idx,
    {
        let c = candidates[idx];
        let targets = step_targets(prelude, open, c);
        if targets.contains_square(m) {
            return c;
        }
        assert(!targets.has(m as int));
        idx = idx + 1;
    }
    proof {
        let f = choose|f: int| #[trigger] one_d.has(f) && sty_step(prelude.board, f, m as int);
        crate::square::lemma_adjacent_symmetric(f, m as int);
        crate::gods::move_helpers::lemma_layer_is_height(board, 0, f);
        assert(pool.has(f));
        let k = choose|k: int| 0 <= k < candidates@.len() && candidates@[k] == f as u8;
        assert(!sty_step(board, candidates@[k] as int, m as int));
    }
    0
}

/// A move word of a build after a walk from `start` to `end`.
pub open spec fn is_walk_build(state: FullGameState, player: Player, start: int, end: int, data: u32) -> bool {
    let board = state.board;
    let build = field_at(data, 10);
    &&& data == mortal_basic_data(start as u32, end as u32, build)
    &&& is_adjacent(end, build as int)
    &&& !board.occupied(build as int)
    &&& board.height(build as int) < 4
    &&& build_mask_allows(state.gods[1 - player.idx()], board, player, build as int)
}

/// Pushes a move for every build around `end` after a walk from `start`.
fn push_walk_builds(
    flags: MoveGenFlags,
    state: &FullGameState,
    player: Player,
    prelude: &GeneratorPreludeState,
    open_for_builds: BitBoard,
    start: Square,
    end: Square,
    result: &mut Vec<ScoredMove>,
)
    requires
        prelude.inv(),
        prelude.board == state.board,
        prelude.player == player,
        prelude.other_god == state.gods[1 - player.idx()],
        start < 25,
        end < 25,
        forall|i: int| #[trigger] open_for_builds.has(i) ==> !state.board.occupied(i) && state.board.height(i) < 4
            && build_mask_allows(state.gods[1 - player.idx()], state.board, player, i),
    ensures
        final(result)@.len() >= old(result)@.len(),
        forall|k: int| 0 <= k < old(result)@.len() ==> #[trigger] final(result)@[k] == old(result)@[k],
        forall|k: int|
            old(result)@.len() <= k < final(result)@.len() ==> #[trigger] is_walk_build(
                *state,
                player,
                start as int,
                end as int,
                final(result)@[k].action.0,
            ),
        forall|b: int|
            0 <= b < 25 && is_adjacent(end as int, b) && #[trigger] open_for_builds.has(b) && (flags
            & crate::generic::INTERACT_WITH_KEY_SQUARES == 0 || prelude.key_squares.has(end as int) || prelude.key_squares.has(b)) ==> lists_word(final(result)@, mortal_basic_data(start as u32, end as u32, b as u32)),
{
    let worker_builds = neighbor_mask(end).and(open_for_builds);
    let mut narrowed_builds = worker_builds;
    let end_keys = BitBoard::as_mask(end).and(prelude.key_squares);
    if is_interact_with_key_squares(flags) {
        let is_key_squares_matched = end_keys.is_not_empty();
        if !is_key_squares_matched {
            narrowed_builds = narrowed_builds.and(prelude.key_squares);
        }
    }
    let builds = narrowed_builds.squares();
    proof {
        assert forall|b: int|
            0 <= b < 25 && is_adjacent(end as int, b) && #[trigger] open_for_builds.has(b) && (flags
            & crate::generic::INTERACT_WITH_KEY_SQUARES == 0 || prelude.key_squares.has(end as int) || prelude.key_squares.has(b)) implies builds@.contains(b as u8) by {
            assert(worker_builds.has(b));
            if prelude.key_squares.has(end as int) {
                assert(end_keys.has(end as int));
            }
            assert(narrowed_builds.has(b));
        }
    }
    let ghost start_len = result@.len();
    let mut bi: usize = 0;
    while bi < builds.len()
        invariant
            bi <= builds@.len(),
            start < 25,
            end < 25,
            start_len == old(result)@.len(),
            forall|k: int| 0 <= k < builds@.len() ==> #[trigger] builds@[k] < 25 && worker_builds.has(builds@[k] as int),
            forall|i: int| #[trigger] worker_builds.has(i) == (is_adjacent(end as int, i) && open_for_builds.has(i)),
            forall|i: int| #[trigger] open_for_builds.has(i) ==> !state.board.occupied(i) && state.board.height(i) < 4
                && build_mask_allows(state.gods[1 - player.idx()], state.board, player, i),
            result@.len() >= start_len,
            forall|k: int| 0 <= k < start_len ==> #[trigger] result@[k] == old(result)@[k],
            forall|k: int|
                start_len <= k < result@.len() ==> #[trigger] is_walk_build(*state, player, start as int, end as int, result@[k].action.0),
            forall|j: int| 0 <= j < bi ==> lists_word(result@, #[trigger] mortal_basic_data(start as u32, end as u32, builds@[j] as u32)),
        decreases builds@.len() - bi,
    {
        let b = builds[bi];
        let action = StymphaliansMove::new_basic_move(start, end, b);
        let ghost before = result@;
        result.push(build_scored_move(flags, GenericMove(action.0), false, false));
        proof {
            lemma_pack3(start as u32, end as u32, b as u32);
            lemma_lists_word_grows(before, result@);
            assert(result@[before.len() as int].action.0 == mortal_basic_data(start as u32, end as u32, b as u32));
            assert forall|j: int| 0 <= j < bi + 1 implies lists_word(result@, #[trigger] mortal_basic_data(start as u32, end as u32, builds@[j] as u32)) by {
                if j < bi {
                    assert(lists_word(before, mortal_basic_data(start as u32, end as u32, builds@[j] as u32)));
                }
            }
            assert(worker_builds.has(b as int));
            assert forall|k: int| start_len <= k < result@.len() implies #[trigger] is_walk_build(
                *state,
                player,
                start as int,
                end as int,
                result@[k].action.0,
            ) by {
                if k < before.len() {
                    assert(result@[k] == before[k]);
                }
            }
        }
        bi = bi + 1;
    }
    proof {
        assert forall|b: int|
            0 <= b < 25 && is_adjacent(end as int, b) && #[trigger] open_for_builds.has(b) && (flags
            & crate::generic::INTERACT_WITH_KEY_SQUARES == 0 || prelude.key_squares.has(end as int) || prelude.key_squares.has(b)) implies lists_word(result@, mortal_basic_data(start as u32, end as u32, b as u32)) by {
            assert(builds@.contains(b as u8));
            let j = choose|j: int| 0 <= j < builds@.len() && builds@[j] == b as u8;
            assert(lists_word(result@, mortal_basic_data(start as u32, end as u32, builds@[j] as u32)));
        }
    }
}

/// Pushes a winning walk. Returns true when generation should stop.
fn push_walk_win(
    flags: MoveGenFlags,
    result: &mut Vec<ScoredMove>,
    start: Square,
    end: Square,
    path_1: Square,
    path_2: Square,
) -> (stop: bool)
    requires
        start < 25,
        end < 25,
        path_1 < 25,
        path_2 < 25,
    ensures
        final(result)@ == old(result)@.push(final(result)@.last()),
        final(result)@.last().action.0 == sty_winning_data(start as u32, end as u32, path_1 as u32, path_2 as u32),
        field_at(final(result)@.last().action.0, 0) == start,
        field_at(final(result)@.last().action.0, 5) == end,
        field_at(final(result)@.last().action.0, 15) == path_1,
        field_at(final(result)@.last().action.0, 20) == path_2,
        is_winning_data(final(result)@.last().action.0),
        stop == is_stop_on_mate_spec(flags),
{
    let action = StymphaliansMove::new_winning_move(start, end, path_1, path_2);
    proof {
        lemma_pack5(start as u32, end as u32, 0, path_1 as u32, path_2 as u32);
    }
    result.push(ScoredMove::new_winning_move(GenericMove(action.0)));
    is_stop_on_mate(flags)
}

pub open spec fn is_stop_on_mate_spec(flags: MoveGenFlags) -> bool {
    flags & crate::generic::STOP_ON_MATE != 0
}

/// A square a two-step walk from `from` wins on: away from the start, on level 3, entered from
/// level 2.
pub open spec fn is_short_win_end(board: BoardState, from: int, e: int) -> bool {
    &&& is_far_destination(from, e)
    &&& board.height(e) == 3
    &&& exists|m: int| #[trigger] sty_step(board, from, m) && sty_step(board, m, e) && board.height(m) == 2
}

/// A square some walk from `from` wins on.
pub open spec fn is_win_end(board: BoardState, from: int, e: int) -> bool {
    &&& is_far_destination(from, e)
    &&& exists|p1: int, p2: int| #[trigger] is_winning_walk(board, from, e, p1, p2)
}

/// A walk of two steps, or of three whose middle square no two-step walk wins on.
pub open spec fn sty_reaches_past_wins(board: BoardState, from: int, to: int) -> bool {
    ||| exists|a: int| #[trigger] sty_step(board, from, a) && sty_step(board, a, to)
    ||| exists|a: int, b: int|
        #![trigger sty_step(board, from, a), sty_step(board, a, b)]
        sty_step(board, from, a) && sty_step(board, a, b) && sty_step(board, b, to) && !is_short_win_end(board, from, b)
}

/// A climbing walk of two steps, or of three whose middle square no two-step walk wins on.
pub open spec fn sty_climbs_past_wins(board: BoardState, from: int, to: int) -> bool {
    ||| exists|a: int|
        #[trigger] sty_step(board, from, a) && sty_step(board, a, to) && (climbs(board, from, a) || climbs(board, a, to))
    ||| exists|a: int, b: int|
        #![trigger sty_step(board, from, a), sty_step(board, a, b)]
        sty_step(board, from, a) && sty_step(board, a, b) && sty_step(board, b, to) && !is_short_win_end(board, from, b) && (climbs(
            board,
            from,
            a,
        ) || climbs(board, a, b) || climbs(board, b, to))
}

/// Some listed word is a winning walk from `from` to `e`.
pub open spec fn lists_win_to(r: Seq<ScoredMove>, from: int, e: int) -> bool {
    exists|k: int|
        0 <= k < r.len() && #[trigger] is_winning_data(r[k].action.0) && field_at(r[k].action.0, 0) == from && field_at(
            r[k].action.0,
            5,
        ) == e
}

/// Every square a walk of an acting worker wins on is the end of some listed winning walk.
pub open spec fn lists_every_winning_walk(state: FullGameState, player: Player, r: Seq<ScoredMove>) -> bool {
    forall|from: int, e: int| is_acting_worker(state, player, from) && #[trigger] is_win_end(state.board, from, e) ==> lists_win_to(r, from, e)
}

/// The climbing turns owed when a climb is owed: every climbing walk that does not win, whose end
/// no walk of the worker wins on, and which does not pass over a square that a two-step walk
/// already wins on.
pub open spec fn stymphalians_climb_owed(state: FullGameState, player: Player, data: u32) -> bool {
    let from = field_at(data, 0) as int;
    let to = field_at(data, 5) as int;
    &&& is_stymphalians_turn(state, player, true, data)
    &&& !is_winning_data(data)
    &&& !is_win_end(state.board, from, to)
    &&& sty_climbs_past_wins(state.board, from, to)
}

/// The turns the generator owes with no narrowing filter on: every turn that does not win, whose
/// end no walk of the worker wins on, and which does not need to pass over a square that a
/// two-step walk already wins on; against Persephone, when a climb exists, only the climbing ones.
/// Winning walks are owed one per end, by `lists_every_winning_walk`.
pub open spec fn stymphalians_turn_owed(state: FullGameState, player: Player, data: u32) -> bool {
    let from = field_at(data, 0) as int;
    let to = field_at(data, 5) as int;
    if state.gods[1 - player.idx()].is_persephone_spec() && exists|d: u32| #[trigger] is_stymphalians_turn(state, player, true, d) {
        stymphalians_climb_owed(state, player, data)
    } else {
        &&& is_stymphalians_turn(state, player, false, data)
        &&& !is_winning_data(data)
        &&& !is_win_end(state.board, from, to)
        &&& sty_reaches_past_wins(state.board, from, to)
    }
}

/// A list that holds every winning walk and every owed climbing walk is not empty when some
/// climbing turn exists.
proof fn lemma_climbing_turn_listed(state: FullGameState, player: Player, r: Seq<ScoredMove>, d: u32)
    requires
        lists_every_winning_walk(state, player, r),
        forall|data: u32| #[trigger] stymphalians_climb_owed(state, player, data) ==> lists_word(r, data),
        is_stymphalians_turn(state, player, true, d),
    ensures
        r.len() > 0,
{
    let board = state.board;
    let from = field_at(d, 0) as int;
    let to = field_at(d, 5) as int;
    if is_winning_data(d) {
        assert(is_winning_walk(board, from, to, field_at(d, 15) as int, field_at(d, 20) as int));
        assert(is_win_end(board, from, to));
        assert(lists_win_to(r, from, to));
    } else if is_win_end(board, from, to) {
        assert(lists_win_to(r, from, to));
    } else if sty_climbs_past_wins(board, from, to) {
        assert(stymphalians_climb_owed(state, player, d));
        assert(lists_word(r, d));
    } else {
        if exists|a: int| #[trigger] sty_step(board, from, a) && sty_step(board, a, to) && (climbs(board, from, a) || climbs(board, a, to)) {
            let a = choose|a: int| #[trigger] sty_step(board, from, a) && sty_step(board, a, to) && (climbs(board, from, a) || climbs(board, a, to));
            assert(sty_step(board, from, a) && sty_step(board, a, to));
        } else {
            let (a, b) = choose|a: int, b: int|
                #![trigger sty_step(board, from, a), sty_step(board, a, b)]
                sty_step(board, from, a) && sty_step(board, a, b) && sty_step(board, b, to) && (climbs(board, from, a) || climbs(
                    board,
                    a,
                    b,
                ) || climbs(board, b, to));
            assert(sty_step(board, from, a) && sty_step(board, a, b));
            assert(is_short_win_end(board, from, b));
            lemma_short_win_is_win(board, from, b);
            assert(lists_win_to(r, from, b));
        }
    }
}

/// A list that keeps the moves of `before` at their places keeps their winning walks.
pub proof fn lemma_lists_win_grows(before: Seq<ScoredMove>, after: Seq<ScoredMove>)
    requires
        before.len() <= after.len(),
        forall|k: int| 0 <= k < before.len() ==> #[trigger] after[k] == before[k],
    ensures
        forall|from: int, e: int| #[trigger] lists_win_to(before, from, e) ==> lists_win_to(after, from, e),
{
    assert forall|from: int, e: int| #[trigger] lists_win_to(before, from, e) implies lists_win_to(after, from, e) by {
        let k = choose|k: int|
            0 <= k < before.len() && #[trigger] is_winning_data(before[k].action.0) && field_at(before[k].action.0, 0) == from
                && field_at(before[k].action.0, 5) == e;
        assert(after[k] == before[k]);
    }
}

/// A short winning walk is a winning walk.
proof fn lemma_short_win_is_win(board: BoardState, from: int, e: int)
    requires
        is_short_win_end(board, from, e),
    ensures
        is_win_end(board, from, e),
{
    let m = choose|m: int| #[trigger] sty_step(board, from, m) && sty_step(board, m, e) && board.height(m) == 2;
    assert(is_winning_walk(board, from, e, m, m));
}

/// An end reached past the short wins, on which no walk wins, is among the second or third
/// squares of the walks the generator follows.
proof fn lemma_past_wins_reached(board: BoardState, start: int, to: int, one_d: BitBoard, two_d: BitBoard, three_d: BitBoard)
    requires
        forall|i: int| #[trigger] one_d.has(i) == sty_step(board, start, i),
        forall|f: int, i: int|
            #![trigger sty_step(board, start, f), sty_step(board, f, i)]
            sty_step(board, start, f) && sty_step(board, f, i) && !one_d.has(i) && i != start && !is_short_win_end(board, start, i) && 0 <= i
                < 32 ==> two_d.has(i),
        forall|m: int, i: int| #[trigger] two_d.has(m) && #[trigger] sty_step(board, m, i) ==> three_d.has(i),
        is_far_destination(start, to),
        !is_win_end(board, start, to),
        sty_reaches_past_wins(board, start, to),
    ensures
        two_d.has(to) || three_d.has(to),
{
    if !is_short_win_end(board, start, to) {
    } else {
        lemma_short_win_is_win(board, start, to);
    }
    assert(!one_d.has(to));
    if exists|a: int| #[trigger] sty_step(board, start, a) && sty_step(board, a, to) {
        let a = choose|a: int| #[trigger] sty_step(board, start, a) && sty_step(board, a, to);
        assert(two_d.has(to));
    } else {
        let (a, b) = choose|a: int, b: int|
            #![trigger sty_step(board, start, a), sty_step(board, a, b)]
            sty_step(board, start, a) && sty_step(board, a, b) && sty_step(board, b, to) && !is_short_win_end(board, start, b);
        if one_d.has(b) {
            assert(sty_step(board, start, b) && sty_step(board, b, to));
        } else if b == start {
            assert(is_adjacent(start, to));
        } else {
            assert(two_d.has(b));
            assert(three_d.has(to));
        }
    }
}

/// The facts every worker loop keeps about the prelude and the open squares.
pub open spec fn sty_frame(state: FullGameState, player: Player, prelude: GeneratorPreludeState, open: BitBoard, open_for_builds: BitBoard) -> bool {
    &&& state.board.wf()
    &&& prelude.inv()
    &&& prelude.board == state.board
    &&& prelude.player == player
    &&& prelude.other_god == state.gods[1 - player.idx()]
    &&& forall|i: int| #[trigger] open.has(i) == (0 <= i < 32 && !state.board.occupied(i) && !(is_square(i) && state.board.height(i) == 4))
    &&& forall|i: int| #[trigger] open_for_builds.has(i) ==> !state.board.occupied(i) && state.board.height(i) < 4
        && build_mask_allows(state.gods[1 - player.idx()], state.board, player, i)
}

/// One worker's walks: the winning walks first, one per end, then every other far end the worker
/// reaches, with each build. Returns true when generation stops on a win.
#[verifier::rlimit(60)]
fn stymphalians_worker_gen(
    flags: MoveGenFlags,
    state: &FullGameState,
    player: Player,
    prelude: &GeneratorPreludeState,
    open_squares: BitBoard,
    open_squares_for_builds: BitBoard,
    all_plausible_winning_mask: BitBoard,
    start: Square,
    result: &mut Vec<ScoredMove>,
) -> (stop: bool)
    requires
        sty_frame(*state, player, *prelude, open_squares, open_squares_for_builds),
        forall|i: int| #[trigger] open_squares_for_builds.has(i) == (open_squares.has(i) && prelude.build_mask.has(i)),
        start < 25,
        is_acting_worker(*state, player, start as int),
        forall|i: int| #[trigger] all_plausible_winning_mask.has(i) == (is_square(i) && state.board.height(i) == 3),
        forall|k: int| 0 <= k < old(result)@.len() ==> #[trigger] is_stymphalians_turn(*state, player, false, old(result)@[k].action.0),
    ensures
        final(result)@.len() >= old(result)@.len(),
        forall|k: int| 0 <= k < old(result)@.len() ==> #[trigger] final(result)@[k] == old(result)@[k],
        forall|k: int| 0 <= k < final(result)@.len() ==> #[trigger] is_stymphalians_turn(*state, player, false, final(result)@[k].action.0),
        flags & NARROWING_FLAGS == 0 ==> !stop,
        flags & NARROWING_FLAGS == 0 ==> forall|e: int| #[trigger] is_win_end(state.board, start as int, e) ==> lists_win_to(final(result)@, start as int, e),
        flags & NARROWING_FLAGS == 0 ==> forall|data: u32|
            #[trigger] is_stymphalians_turn(*state, player, false, data) && field_at(data, 0) == start && !is_winning_data(data) && !is_win_end(
                state.board,
                start as int,
                field_at(data, 5) as int,
            ) && sty_reaches_past_wins(state.board, start as int, field_at(data, 5) as int) ==> lists_word(final(result)@, data),
{
    broadcast use group_bit_lemmas;

    proof {
        crate::generic::lemma_no_flags(flags);
    }
    let ghost board = state.board;
    let ghost start_len = old(result)@.len();
    let start_mask = BitBoard::as_mask(start);
    let open_final_destinations = open_squares.minus(inclusive_neighbor_mask(start));
    let all_winning_destinations = all_plausible_winning_mask.and(open_final_destinations);
    let mut one_d = step_targets(prelude, open_squares, start);
    if is_mate_only(flags) {
        one_d = one_d.and(prelude.board.height_map[0]);
        if one_d.is_empty() {
            return false;
        }
    }
    let mut visitable_squares = one_d.or(start_mask).not();
    let mut visitable_wins = one_d.or(start_mask).not();
    let mut two_d = BitBoard::empty();
    let firsts = one_d.squares();
    let mut fi: usize = 0;
    while fi < firsts.len()
        invariant
            fi <= firsts@.len(),
            sty_frame(*state, player, *prelude, open_squares, open_squares_for_builds),
            board == state.board,
            start < 25,
            is_acting_worker(*state, player, start as int),
            forall|i: int| #[trigger] open_final_destinations.has(i) == (open_squares.has(i) && i != start && !is_adjacent(start as int, i)),
            forall|i: int| #[trigger] all_winning_destinations.has(i) == (open_final_destinations.has(i) && is_square(i) && state.board.height(i) == 3),
            forall|i: int| #[trigger] one_d.has(i) ==> sty_step(state.board, start as int, i),
            flags & NARROWING_FLAGS == 0 ==> forall|i: int| #[trigger] one_d.has(i) == sty_step(state.board, start as int, i),
            forall|k: int| 0 <= k < firsts@.len() ==> #[trigger] firsts@[k] < 25 && one_d.has(firsts@[k] as int),
            forall|i: int| #[trigger] two_d.has(i) ==> exists|f: int| #[trigger] one_d.has(f) && sty_step(state.board, f, i),
            forall|j: int, i: int| 0 <= j < fi && #[trigger] sty_step(board, firsts@[j] as int, i) ==> two_d.has(i),
            forall|i: int| #[trigger] visitable_wins.has(i) ==> !one_d.has(i) && i != start,
            forall|i: int|
                0 <= i < 32 && !one_d.has(i) && i != start && !#[trigger] visitable_wins.has(i) ==> is_short_win_end(board, start as int, i)
                    && lists_win_to(result@, start as int, i),
            forall|j: int, e: int|
                0 <= j < fi && #[trigger] sty_step(board, firsts@[j] as int, e) && board.height(firsts@[j] as int) == 2 && board.height(e) == 3
                    && is_far_destination(start as int, e) ==> lists_win_to(result@, start as int, e),
            result@.len() >= start_len,
            start_len == old(result)@.len(),
            forall|k: int| 0 <= k < start_len ==> #[trigger] result@[k] == old(result)@[k],
            forall|k: int| 0 <= k < result@.len() ==> #[trigger] is_stymphalians_turn(*state, player, false, result@[k].action.0),
        decreases firsts@.len() - fi,
    {
        let m = firsts[fi];
        fi = fi + 1;
        let new_moves = step_targets(prelude, open_squares, m);
        let ghost loop_start = result@;
        if prelude.board.get_height(m) == 2 {
            let wins = new_moves.and(all_winning_destinations).and(visitable_wins);
            let ends = wins.squares();
            let mut ei: usize = 0;
            while ei < ends.len()
                invariant
                    ei <= ends@.len(),
                    start < 25,
                    m < 25,
                    state.board.height(m as int) == 2,
                    is_acting_worker(*state, player, start as int),
                    sty_step(state.board, start as int, m as int),
                    forall|k: int| 0 <= k < ends@.len() ==> #[trigger] ends@[k] < 25 && sty_step(state.board, m as int, ends@[k] as int)
                        && is_far_destination(start as int, ends@[k] as int) && state.board.height(ends@[k] as int) == 3,
                    result@.len() >= loop_start.len(),
                    forall|k: int| 0 <= k < loop_start.len() ==> #[trigger] result@[k] == loop_start[k],
                    result@.len() >= start_len,
                    start_len == old(result)@.len(),
                    forall|k: int| 0 <= k < start_len ==> #[trigger] result@[k] == old(result)@[k],
                    forall|x: int| 0 <= x < ei ==> lists_win_to(result@, start as int, #[trigger] ends@[x] as int),
                    forall|k: int| 0 <= k < result@.len() ==> #[trigger] is_stymphalians_turn(*state, player, false, result@[k].action.0),
                decreases ends@.len() - ei,
            {
                let e = ends[ei];
                let ghost before = result@;
                let stop = push_walk_win(flags, result, start, e, m, m);
                proof {
                    lemma_lists_win_grows(before, result@);
                    let last = result@.len() - 1;
                    assert(is_winning_data(result@[last].action.0) && field_at(result@[last].action.0, 0) == start && field_at(
                        result@[last].action.0,
                        5,
                    ) == e);
                    assert forall|x: int| 0 <= x < ei + 1 implies lists_win_to(result@, start as int, #[trigger] ends@[x] as int) by {
                        if x < ei {
                            assert(lists_win_to(before, start as int, ends@[x] as int));
                        }
                    }
                    assert forall|k: int| 0 <= k < result@.len() implies #[trigger] is_stymphalians_turn(
                        *state,
                        player,
                        false,
                        result@[k].action.0,
                    ) by {
                        if k < before.len() {
                            assert(result@[k] == before[k]);
                        }
                    }
                }
                proof {
                    crate::generic::lemma_no_flags(flags);
                }
                if stop {
                    return true;
                }
                ei = ei + 1;
            }
            let old_visitable = visitable_wins;
            visitable_wins = visitable_wins.minus(wins);
            proof {
                lemma_lists_win_grows(loop_start, result@);
                assert forall|i: int|
                    0 <= i < 32 && !one_d.has(i) && i != start && !#[trigger] visitable_wins.has(i) implies is_short_win_end(
                        board,
                        start as int,
                        i,
                    ) && lists_win_to(result@, start as int, i) by {
                    if old_visitable.has(i) {
                        assert(wins.has(i));
                        assert(ends@.contains(i as u8));
                        let x = choose|x: int| 0 <= x < ends@.len() && ends@[x] == i as u8;
                        assert(lists_win_to(result@, start as int, ends@[x] as int));
                        assert(sty_step(board, start as int, m as int) && sty_step(board, m as int, i) && board.height(m as int) == 2);
                    } else {
                        assert(lists_win_to(loop_start, start as int, i));
                    }
                }
                assert forall|j: int, e: int|
                    0 <= j < fi && #[trigger] sty_step(board, firsts@[j] as int, e) && board.height(firsts@[j] as int) == 2
                        && board.height(e) == 3 && is_far_destination(start as int, e) implies lists_win_to(result@, start as int, e) by {
                    if j < fi - 1 {
                        assert(lists_win_to(loop_start, start as int, e));
                    } else {
                        assert(new_moves.has(e));
                        assert(open_squares.has(e));
                        assert(all_winning_destinations.has(e));
                        if visitable_wins.has(e) {
                            assert(old_visitable.has(e));
                            assert(wins.has(e));
                        }
                        if one_d.has(e) {
                            assert(sty_step(board, start as int, e));
                        }
                        assert(!one_d.has(e) && e != start && !visitable_wins.has(e));
                    }
                }
            }
        } else {
            proof {
                assert forall|j: int, e: int|
                    0 <= j < fi && #[trigger] sty_step(board, firsts@[j] as int, e) && board.height(firsts@[j] as int) == 2
                        && board.height(e) == 3 && is_far_destination(start as int, e) implies lists_win_to(result@, start as int, e) by {
                    if j == fi - 1 {
                        assert(firsts@[j] == m);
                    }
                }
            }
        }
        let old_two_d = two_d;
        two_d = two_d.or(new_moves);
        proof {
            assert forall|i: int| #[trigger] two_d.has(i) implies exists|f: int| #[trigger] one_d.has(f) && sty_step(state.board, f, i) by {
                if !old_two_d.has(i) {
                    assert(one_d.has(m as int) && sty_step(state.board, m as int, i));
                }
            }
        }
    }
    proof {
        if flags & NARROWING_FLAGS == 0 {
            assert forall|f: int, i: int|
                #![trigger sty_step(board, start as int, f), sty_step(board, f, i)]
                sty_step(board, start as int, f) && sty_step(board, f, i) implies two_d.has(i) by {
                assert(one_d.has(f));
                assert(firsts@.contains(f as u8));
                let j = choose|j: int| 0 <= j < firsts@.len() && firsts@[j] == f as u8;
                assert(sty_step(board, firsts@[j] as int, i));
            }
            assert forall|e: int| #[trigger] is_short_win_end(board, start as int, e) implies lists_win_to(result@, start as int, e) by {
                let m = choose|m: int| #[trigger] sty_step(board, start as int, m) && sty_step(board, m, e) && board.height(m) == 2;
                assert(one_d.has(m));
                assert(firsts@.contains(m as u8));
                let j = choose|j: int| 0 <= j < firsts@.len() && firsts@[j] == m as u8;
                assert(sty_step(board, firsts@[j] as int, e));
            }
        }
        assert forall|i: int|
            0 <= i < 32 && !one_d.has(i) && i != start && !#[trigger] visitable_wins.has(i) implies is_win_end(board, start as int, i)
                && lists_win_to(result@, start as int, i) by {
            lemma_short_win_is_win(board, start as int, i);
        }
    }
    let ghost two_d_all = two_d;
    visitable_squares = visitable_squares.and(visitable_wins);
    two_d = two_d.and(visitable_squares);
    proof {
        if flags & NARROWING_FLAGS == 0 {
            assert forall|f: int, i: int|
                #![trigger sty_step(board, start as int, f), sty_step(board, f, i)]
                sty_step(board, start as int, f) && sty_step(board, f, i) && !one_d.has(i) && i != start && !is_short_win_end(
                    board,
                    start as int,
                    i,
                ) && 0 <= i < 32 implies two_d.has(i) by {
                assert(two_d_all.has(i));
                if !visitable_wins.has(i) {
                    assert(is_short_win_end(board, start as int, i));
                }
            }
        }
    }
    if is_mate_only(flags) {
        two_d = two_d.and(prelude.board.height_map[1]);
        if two_d.is_empty() {
            return false;
        }
    }
    let mut three_d = BitBoard::empty();
    let seconds = two_d.squares();
    let mut si: usize = 0;
    while si < seconds.len()
        invariant
            si <= seconds@.len(),
            sty_frame(*state, player, *prelude, open_squares, open_squares_for_builds),
            board == state.board,
            start < 25,
            is_acting_worker(*state, player, start as int),
            forall|i: int| #[trigger] open_final_destinations.has(i) == (open_squares.has(i) && i != start && !is_adjacent(start as int, i)),
            forall|i: int| #[trigger] all_winning_destinations.has(i) == (open_final_destinations.has(i) && is_square(i) && state.board.height(i) == 3),
            forall|i: int| #[trigger] one_d.has(i) ==> sty_step(state.board, start as int, i),
            flags & NARROWING_FLAGS == 0 ==> forall|i: int| #[trigger] one_d.has(i) == sty_step(state.board, start as int, i),
            forall|i: int| #[trigger] two_d.has(i) ==> exists|f: int| #[trigger] one_d.has(f) && sty_step(state.board, f, i),
            flags & NARROWING_FLAGS == 0 ==> forall|f: int, i: int|
                #![trigger sty_step(board, start as int, f), sty_step(board, f, i)]
                sty_step(board, start as int, f) && sty_step(board, f, i) && !one_d.has(i) && i != start && !is_short_win_end(
                    board,
                    start as int,
                    i,
                ) && 0 <= i < 32 ==> two_d.has(i),
            flags & NARROWING_FLAGS == 0 ==> forall|e: int| #[trigger] is_short_win_end(board, start as int, e) ==> lists_win_to(result@, start as int, e),
            forall|k: int| 0 <= k < seconds@.len() ==> #[trigger] seconds@[k] < 25 && two_d.has(seconds@[k] as int),
            forall|i: int| #[trigger] three_d.has(i) ==> exists|m: int| #[trigger] two_d.has(m) && sty_step(state.board, m, i),
            forall|j: int, i: int| 0 <= j < si && #[trigger] sty_step(board, seconds@[j] as int, i) ==> three_d.has(i),
            forall|i: int| #[trigger] visitable_wins.has(i) ==> !one_d.has(i) && i != start,
            forall|i: int|
                0 <= i < 32 && !one_d.has(i) && i != start && !#[trigger] visitable_wins.has(i) ==> is_win_end(board, start as int, i)
                    && lists_win_to(result@, start as int, i),
            forall|j: int, e: int|
                0 <= j < si && #[trigger] sty_step(board, seconds@[j] as int, e) && board.height(seconds@[j] as int) == 2 && board.height(e) == 3
                    && is_far_destination(start as int, e) ==> lists_win_to(result@, start as int, e),
            result@.len() >= start_len,
            start_len == old(result)@.len(),
            forall|k: int| 0 <= k < start_len ==> #[trigger] result@[k] == old(result)@[k],
            forall|k: int| 0 <= k < result@.len() ==> #[trigger] is_stymphalians_turn(*state, player, false, result@[k].action.0),
        decreases seconds@.len() - si,
    {
        let m = seconds[si];
        si = si + 1;
        let new_moves = step_targets(prelude, open_squares, m);
        let ghost loop_start = result@;
        if prelude.board.get_height(m) == 2 {
            let wins = new_moves.and(all_winning_destinations).and(visitable_wins);
            let ends = wins.squares();
            let mut ei: usize = 0;
            while ei < ends.len()
                invariant
                    ei <= ends@.len(),
                    sty_frame(*state, player, *prelude, open_squares, open_squares_for_builds),
                    start < 25,
                    m < 25,
                    two_d.has(m as int),
                    state.board.height(m as int) == 2,
                    is_acting_worker(*state, player, start as int),
                    forall|i: int| #[trigger] one_d.has(i) ==> sty_step(state.board, start as int, i),
                    forall|i: int| #[trigger] two_d.has(i) ==> exists|f: int| #[trigger] one_d.has(f) && sty_step(state.board, f, i),
                    forall|k: int| 0 <= k < ends@.len() ==> #[trigger] ends@[k] < 25 && sty_step(state.board, m as int, ends@[k] as int)
                        && is_far_destination(start as int, ends@[k] as int) && state.board.height(ends@[k] as int) == 3,
                    result@.len() >= loop_start.len(),
                    forall|k: int| 0 <= k < loop_start.len() ==> #[trigger] result@[k] == loop_start[k],
                    result@.len() >= start_len,
                    start_len == old(result)@.len(),
                    forall|k: int| 0 <= k < start_len ==> #[trigger] result@[k] == old(result)@[k],
                    forall|x: int| 0 <= x < ei ==> lists_win_to(result@, start as int, #[trigger] ends@[x] as int),
                    forall|k: int| 0 <= k < result@.len() ==> #[trigger] is_stymphalians_turn(*state, player, false, result@[k].action.0),
                decreases ends@.len() - ei,
            {
                let e = ends[ei];
                assert(two_d.has(m as int));
                let first = find_first_step(prelude, open_squares, one_d, m);
                let ghost before = result@;
                let stop = push_walk_win(flags, result, start, e, first, m);
                proof {
                    assert(first != m) by {
                        assert(is_adjacent(first as int, m as int));
                    }
                    lemma_lists_win_grows(before, result@);
                    let last = result@.len() - 1;
                    assert(is_winning_data(result@[last].action.0) && field_at(result@[last].action.0, 0) == start && field_at(
                        result@[last].action.0,
                        5,
                    ) == e);
                    assert forall|x: int| 0 <= x < ei + 1 implies lists_win_to(result@, start as int, #[trigger] ends@[x] as int) by {
                        if x < ei {
                            assert(lists_win_to(before, start as int, ends@[x] as int));
                        }
                    }
                    assert forall|k: int| 0 <= k < result@.len() implies #[trigger] is_stymphalians_turn(
                        *state,
                        player,
                        false,
                        result@[k].action.0,
                    ) by {
                        if k < before.len() {
                            assert(result@[k] == before[k]);
                        }
                    }
                }
                proof {
                    crate::generic::lemma_no_flags(flags);
                }
                if stop {
                    return true;
                }
                ei = ei + 1;
            }
            let old_visitable = visitable_wins;
            visitable_wins = visitable_wins.minus(wins);
            proof {
                lemma_lists_win_grows(loop_start, result@);
                assert forall|i: int|
                    0 <= i < 32 && !one_d.has(i) && i != start && !#[trigger] visitable_wins.has(i) implies is_win_end(
                        board,
                        start as int,
                        i,
                    ) && lists_win_to(result@, start as int, i) by {
                    if old_visitable.has(i) {
                        assert(wins.has(i));
                        assert(ends@.contains(i as u8));
                        let x = choose|x: int| 0 <= x < ends@.len() && ends@[x] == i as u8;
                        assert(lists_win_to(result@, start as int, ends@[x] as int));
                        let f = choose|f: int| #[trigger] one_d.has(f) && sty_step(state.board, f, m as int);
                        assert(is_adjacent(f, m as int));
                        assert(is_winning_walk(board, start as int, i, f, m as int));
                    } else {
                        assert(lists_win_to(loop_start, start as int, i));
                    }
                }
                assert forall|j: int, e: int|
                    0 <= j < si && #[trigger] sty_step(board, seconds@[j] as int, e) && board.height(seconds@[j] as int) == 2
                        && board.height(e) == 3 && is_far_destination(start as int, e) implies lists_win_to(result@, start as int, e) by {
                    if j < si - 1 {
                        assert(lists_win_to(loop_start, start as int, e));
                    } else {
                        assert(new_moves.has(e));
                        assert(open_squares.has(e));
                        assert(all_winning_destinations.has(e));
                        if visitable_wins.has(e) {
                            assert(old_visitable.has(e));
                            assert(wins.has(e));
                        }
                        if one_d.has(e) {
                            assert(sty_step(board, start as int, e));
                        }
                        assert(!one_d.has(e) && e != start && !visitable_wins.has(e));
                    }
                }
                if flags & NARROWING_FLAGS == 0 {
                    assert forall|e: int| #[trigger] is_short_win_end(board, start as int, e) implies lists_win_to(result@, start as int, e) by {
                        assert(lists_win_to(loop_start, start as int, e));
                    }
                }
            }
        } else {
            proof {
                assert forall|j: int, e: int|
                    0 <= j < si && #[trigger] sty_step(board, seconds@[j] as int, e) && board.height(seconds@[j] as int) == 2
                        && board.height(e) == 3 && is_far_destination(start as int, e) implies lists_win_to(result@, start as int, e) by {
                    if j == si - 1 {
                        assert(seconds@[j] == m);
                    }
                }
            }
        }
        let old_three_d = three_d;
        three_d = three_d.or(new_moves);
        proof {
            assert forall|i: int| #[trigger] three_d.has(i) implies exists|mm: int| #[trigger] two_d.has(mm) && sty_step(state.board, mm, i) by {
                if !old_three_d.has(i) {
                    assert(two_d.has(m as int) && sty_step(state.board, m as int, i));
                }
            }
        }
    }
    if is_mate_only(flags) {
        return false;
    }
    proof {
        if flags & NARROWING_FLAGS == 0 {
            assert forall|mm: int, i: int| #[trigger] two_d.has(mm) && #[trigger] sty_step(board, mm, i) implies three_d.has(i) by {
                let f = choose|f: int| #[trigger] one_d.has(f) && sty_step(state.board, f, mm);
                assert(is_adjacent(f, mm));
                assert(seconds@.contains(mm as u8));
                let j = choose|j: int| 0 <= j < seconds@.len() && seconds@[j] == mm as u8;
                assert(sty_step(board, seconds@[j] as int, i));
            }
            assert forall|e: int| #[trigger] is_win_end(board, start as int, e) implies lists_win_to(result@, start as int, e) by {
                let (p1, p2) = choose|p1: int, p2: int| #[trigger] is_winning_walk(board, start as int, e, p1, p2);
                if p1 == p2 {
                    assert(is_short_win_end(board, start as int, e));
                } else if one_d.has(p2) {
                    assert(sty_step(board, start as int, p2) && sty_step(board, p2, e) && board.height(p2) == 2);
                    assert(is_short_win_end(board, start as int, e));
                } else if p2 == start {
                    assert(is_adjacent(start as int, e));
                } else {
                    assert(two_d.has(p2));
                    let f = choose|f: int| #[trigger] one_d.has(f) && sty_step(state.board, f, p2);
                    assert(is_adjacent(f, p2));
                    assert(seconds@.contains(p2 as u8));
                    let j = choose|j: int| 0 <= j < seconds@.len() && seconds@[j] == p2 as u8;
                    assert(sty_step(board, seconds@[j] as int, e));
                }
            }
        }
    }
    let worker_final_moves = two_d.or(three_d).and(open_final_destinations).and(visitable_wins);
    let finals = worker_final_moves.squares();
    proof {
        assert forall|k: int| 0 <= k < finals@.len() implies #[trigger] finals@[k] < 25 && is_far_destination(start as int, finals@[k] as int)
            && sty_reaches(state.board, start as int, finals@[k] as int, false) by {
            let e = finals@[k] as int;
            assert(worker_final_moves.has(e));
            if two_d.has(e) {
                let f = choose|f: int| #[trigger] one_d.has(f) && sty_step(state.board, f, e);
                assert(sty_step(state.board, start as int, f) && sty_step(state.board, f, e));
            } else {
                let mm = choose|mm: int| #[trigger] two_d.has(mm) && sty_step(state.board, mm, e);
                let f = choose|f: int| #[trigger] one_d.has(f) && sty_step(state.board, f, mm);
                assert(sty_step(state.board, start as int, f) && sty_step(state.board, f, mm));
            }
        }
    }
    let ghost pre_finals = result@;
    let mut ki: usize = 0;
    while ki < finals.len()
        invariant
            ki <= finals@.len(),
            sty_frame(*state, player, *prelude, open_squares, open_squares_for_builds),
            start < 25,
            is_acting_worker(*state, player, start as int),
            forall|k: int| 0 <= k < finals@.len() ==> #[trigger] finals@[k] < 25 && is_far_destination(start as int, finals@[k] as int)
                && sty_reaches(state.board, start as int, finals@[k] as int, false),
            result@.len() >= pre_finals.len(),
            forall|k: int| 0 <= k < pre_finals.len() ==> #[trigger] result@[k] == pre_finals[k],
            forall|x: int, b: int|
                0 <= x < ki && 0 <= b < 25 && is_adjacent(finals@[x] as int, b) && open_squares_for_builds.has(b) && flags
                    & crate::generic::INTERACT_WITH_KEY_SQUARES == 0 ==> lists_word(
                    result@,
                    #[trigger] mortal_basic_data(start as u32, finals@[x] as u32, b as u32),
                ),
            forall|k: int| 0 <= k < result@.len() ==> #[trigger] is_stymphalians_turn(*state, player, false, result@[k].action.0),
        decreases finals@.len() - ki,
    {
        let end = finals[ki];
        let ghost before = result@;
        push_walk_builds(flags, state, player, prelude, open_squares_for_builds, start, end, result);
        proof {
            lemma_lists_word_grows(before, result@);
            assert forall|k: int| 0 <= k < result@.len() implies #[trigger] is_stymphalians_turn(
                *state,
                player,
                false,
                result@[k].action.0,
            ) by {
                if k < before.len() {
                    assert(result@[k] == before[k]);
                } else {
                    assert(is_walk_build(*state, player, start as int, end as int, result@[k].action.0));
                    lemma_pack3(start as u32, end as u32, field_at(result@[k].action.0, 10));
                }
            }
            assert forall|x: int, b: int|
                0 <= x < ki + 1 && 0 <= b < 25 && is_adjacent(finals@[x] as int, b) && open_squares_for_builds.has(b) && flags
                    & crate::generic::INTERACT_WITH_KEY_SQUARES == 0 implies lists_word(
                    result@,
                    #[trigger] mortal_basic_data(start as u32, finals@[x] as u32, b as u32),
                ) by {
                if x < ki {
                    assert(lists_word(before, mortal_basic_data(start as u32, finals@[x] as u32, b as u32)));
                }
            }
        }
        ki = ki + 1;
    }
    proof {
        lemma_lists_win_grows(pre_finals, result@);
        if flags & NARROWING_FLAGS == 0 {
            assert forall|data: u32|
                #[trigger] is_stymphalians_turn(*state, player, false, data) && field_at(data, 0) == start && !is_winning_data(data)
                    && !is_win_end(state.board, start as int, field_at(data, 5) as int) && sty_reaches_past_wins(
                    state.board,
                    start as int,
                    field_at(data, 5) as int,
                ) implies lists_word(result@, data) by {
                let to = field_at(data, 5) as int;
                let build = field_at(data, 10) as int;
                lemma_past_wins_reached(board, start as int, to, one_d, two_d, three_d);
                assert(open_squares.has(to));
                assert(open_final_destinations.has(to));
                if !visitable_wins.has(to) {
                    assert(!one_d.has(to));
                }
                assert(worker_final_moves.has(to));
                assert(finals@.contains(to as u8));
                let x = choose|x: int| 0 <= x < finals@.len() && finals@[x] == to as u8;
                assert(prelude.build_mask.has(build));
                assert(open_squares_for_builds.has(build));
                assert(lists_word(result@, mortal_basic_data(start as u32, finals@[x] as u32, build as u32)));
            }
        }
    }
    false
}

/// Stymphalians' move generator: each worker walks two or three steps, ending away from where it
/// started, then builds. Against Persephone a climbing walk is owed when one exists.
pub fn stymphalians_move_gen(
    flags: MoveGenFlags,
    state: &FullGameState,
    player: Player,
    key_squares: BitBoard,
    must_climb: bool,
) -> (result: Vec<ScoredMove>)
    requires
        state.board.wf(),
    ensures
        forall|k: int| 0 <= k < result@.len() ==> #[trigger] is_stymphalians_turn(*state, player, must_climb, result@[k].action.0),
        flags & NARROWING_FLAGS == 0 && !must_climb ==> forall|data: u32| #[trigger] stymphalians_turn_owed(*state, player, data) ==> lists_word(
            result@,
            data,
        ),
        flags & NARROWING_FLAGS == 0 ==> lists_every_winning_walk(*state, player, result@),
        flags & NARROWING_FLAGS == 0 && must_climb ==> forall|data: u32| #[trigger] stymphalians_climb_owed(*state, player, data) ==> lists_word(
            result@,
            data,
        ),
        flags & NARROWING_FLAGS == 0 && state.gods[1 - player.idx()].is_persephone_spec() && !must_climb && (exists|d: u32|
            #[trigger] is_stymphalians_turn(*state, player, true, d)) ==> forall|k: int| 0 <= k < result@.len()
            ==> #[trigger] is_stymphalians_turn(*state, player, true, result@[k].action.0),
    decreases if must_climb {
        0int
    } else {
        1int
    },
{
    broadcast use group_bit_lemmas;

    proof {
        crate::generic::lemma_no_flags(flags);
    }
    if must_climb {
        return stymphalians_vs_persephone(flags, state, player, key_squares);
    }
    let mut result = if state.gods[player.other().index()].is_persephone() {
        let climbing = stymphalians_move_gen(flags, state, player, key_squares, true);
        proof {
            assert forall|k: int| 0 <= k < climbing@.len() implies #[trigger] is_stymphalians_turn(
                *state,
                player,
                must_climb,
                climbing@[k].action.0,
            ) by {
                assert(is_stymphalians_turn(*state, player, true, climbing@[k].action.0));
                lemma_climbing_walk_is_walk(*state, player, climbing@[k].action.0);
            }
        }
        if climbing.len() > 0 {
            proof {
                if flags & NARROWING_FLAGS == 0 {
                    assert(is_stymphalians_turn(*state, player, true, climbing@[0].action.0));
                    assert forall|data: u32| #[trigger] stymphalians_turn_owed(*state, player, data) implies lists_word(climbing@, data) by {
                        assert(stymphalians_climb_owed(*state, player, data));
                    }
                }
            }
            return climbing;
        }
        proof {
            if flags & NARROWING_FLAGS == 0 {
                assert forall|d: u32| !#[trigger] is_stymphalians_turn(*state, player, true, d) by {
                    if is_stymphalians_turn(*state, player, true, d) {
                        lemma_climbing_turn_listed(*state, player, climbing@, d);
                    }
                }
            }
        }
        if flags & ANY_MOVE_FILTER > 0 {
            let unrestricted = stymphalians_move_gen(0, state, player, key_squares, true);
            if unrestricted.len() > 0 {
                return climbing;
            }
        }
        climbing
    } else {
        get_sized_result(flags)
    };
    assert(flags & NARROWING_FLAGS == 0 && state.gods[1 - player.idx()].is_persephone_spec() && !must_climb ==> forall|d: u32|
        !#[trigger] is_stymphalians_turn(*state, player, true, d));
    let prelude = get_generator_prelude_state(state, player, key_squares);
    let open_squares = prelude.all_workers_and_frozen_mask.or(prelude.domes_and_frozen).not();
    let open_squares_for_builds = open_squares.and(prelude.build_mask);
    let all_plausible_winning_mask = prelude.exactly_level_3.and(prelude.win_mask);
    let workers = prelude.acting_workers.squares();
    let mut wi: usize = 0;
    while wi < workers.len()
        invariant
            wi <= workers@.len(),
            sty_frame(*state, player, prelude, open_squares, open_squares_for_builds),
            forall|i: int| #[trigger] open_squares_for_builds.has(i) == (open_squares.has(i) && prelude.build_mask.has(i)),
            !must_climb,
            flags & NARROWING_FLAGS == 0 && state.gods[1 - player.idx()].is_persephone_spec() ==> forall|d: u32|
                !#[trigger] is_stymphalians_turn(*state, player, true, d),
            prelude.own_workers.0 == state.board.workers[player.idx()].0 & MAIN_SECTION,
            prelude.other_god.is_hypnus_spec() ==> prelude.acting_workers.0 == crate::gods::hypnus::hypnus_filter_spec(
                state.board.height_map,
                prelude.own_workers.0,
            ),
            !prelude.other_god.is_hypnus_spec() ==> prelude.acting_workers == prelude.own_workers,
            forall|i: int| #[trigger] all_plausible_winning_mask.has(i) == (is_square(i) && state.board.height(i) == 3),
            forall|k: int| 0 <= k < workers@.len() ==> #[trigger] workers@[k] < 25 && prelude.acting_workers.has(workers@[k] as int),
            forall|k: int| 0 <= k < result@.len() ==> #[trigger] is_stymphalians_turn(*state, player, must_climb, result@[k].action.0),
            flags & NARROWING_FLAGS == 0 ==> forall|data: u32|
                #[trigger] stymphalians_turn_owed(*state, player, data) && (exists|j: int| 0 <= j < wi && workers@[j] as u32 == field_at(data, 0))
                    ==> lists_word(result@, data),
            flags & NARROWING_FLAGS == 0 ==> forall|from: int, e: int|
                #[trigger] is_win_end(state.board, from, e) && (exists|j: int| 0 <= j < wi && workers@[j] as int == from) ==> lists_win_to(
                    result@,
                    from,
                    e,
                ),
        decreases workers@.len() - wi,
    {
        let start = workers[wi];
        wi = wi + 1;
        proof {
            lemma_prelude_acting(*state, player, prelude.own_workers, prelude.acting_workers, start as int);
        }
        let ghost before = result@;
        let stop = stymphalians_worker_gen(
            flags,
            state,
            player,
            &prelude,
            open_squares,
            open_squares_for_builds,
            all_plausible_winning_mask,
            start,
            &mut result,
        );
        proof {
            lemma_lists_word_grows(before, result@);
            lemma_lists_win_grows(before, result@);
            if flags & NARROWING_FLAGS == 0 {
                assert forall|data: u32|
                    #[trigger] stymphalians_turn_owed(*state, player, data) && (exists|j: int|
                        0 <= j < wi && workers@[j] as u32 == field_at(data, 0)) implies lists_word(result@, data) by {
                    let j = choose|j: int| 0 <= j < wi && workers@[j] as u32 == field_at(data, 0);
                    if j < wi - 1 {
                        assert(lists_word(before, data));
                    } else {
                        assert(field_at(data, 0) == start);
                    }
                }
                assert forall|from: int, e: int|
                    #[trigger] is_win_end(state.board, from, e) && (exists|j: int| 0 <= j < wi && workers@[j] as int == from) implies lists_win_to(
                        result@,
                        from,
                        e,
                    ) by {
                    let j = choose|j: int| 0 <= j < wi && workers@[j] as int == from;
                    if j < wi - 1 {
                        assert(lists_win_to(before, from, e));
                    }
                }
            }
        }
        if stop {
            return result;
        }
    }
    proof {
        if flags & NARROWING_FLAGS == 0 {
            assert forall|data: u32| #[trigger] stymphalians_turn_owed(*state, player, data) implies lists_word(result@, data) by {
                let f = field_at(data, 0);
                crate::gods::mortal::lemma_acting_in_prelude(*state, player, prelude.own_workers, prelude.acting_workers, f as int);
                assert(workers@.contains(f as u8));
                let j = choose|j: int| 0 <= j < workers@.len() && workers@[j] == f as u8;
                assert(workers@[j] as u32 == field_at(data, 0));
            }
            assert forall|from: int, e: int|
                is_acting_worker(*state, player, from) && #[trigger] is_win_end(state.board, from, e) implies lists_win_to(
                    result@,
                    from,
                    e,
                ) by {
                assert(state.board.workers[player.idx()].has(from));
                assert(state.board.workers[player.idx()].within_board());
                assert(0 <= from < 25);
                crate::gods::mortal::lemma_acting_in_prelude(*state, player, prelude.own_workers, prelude.acting_workers, from);
                assert(workers@.contains(from as u8));
                let j = choose|j: int| 0 <= j < workers@.len() && workers@[j] == from as u8;
                assert(workers@[j] as int == from);
            }
        }
    }
    result
}

/// An end reached by a climbing walk past the short wins, on which no walk wins, is among the
/// second or third squares of the walks the climbing generator follows.
proof fn lemma_climbing_walk_reached(
    board: BoardState,
    start: int,
    to: int,
    one_d: BitBoard,
    one_d_climbed: BitBoard,
    two_d_climb: BitBoard,
    two_d_not_climb: BitBoard,
    three_d: BitBoard,
)
    requires
        forall|i: int| #[trigger] one_d.has(i) == sty_step(board, start, i),
        forall|i: int| #[trigger] one_d_climbed.has(i) == (one_d.has(i) && climbs(board, start, i)),
        forall|ff: int, i: int|
            #![trigger sty_step(board, start, ff), sty_step(board, ff, i)]
            sty_step(board, start, ff) && sty_step(board, ff, i) && !is_short_win_end(board, start, i) && (climbs(board, start, ff) || climbs(
                board,
                ff,
                i,
            )) && !one_d_climbed.has(i) && i != start ==> two_d_climb.has(i),
        forall|ff: int, i: int|
            #![trigger sty_step(board, start, ff), sty_step(board, ff, i)]
            sty_step(board, start, ff) && sty_step(board, ff, i) && !is_short_win_end(board, start, i) && !(climbs(board, start, ff) || climbs(
                board,
                ff,
                i,
            )) && !one_d.has(i) && i != start && board.height(i) < 3 ==> two_d_not_climb.has(i),
        forall|mm: int, i: int|
            second_step_done(two_d_climb, two_d_not_climb, 2, mm) && #[trigger] sty_step(board, mm, i) && !is_win_end(board, start, i) && (
            two_d_climb.has(mm) || climbs(board, mm, i)) ==> three_d.has(i),
        is_far_destination(start, to),
        !is_win_end(board, start, to),
        sty_climbs_past_wins(board, start, to),
    ensures
        two_d_climb.has(to) || three_d.has(to),
{
    if is_short_win_end(board, start, to) {
        lemma_short_win_is_win(board, start, to);
    }
    assert(!one_d.has(to));
    if exists|a: int| #[trigger] sty_step(board, start, a) && sty_step(board, a, to) && (climbs(board, start, a) || climbs(board, a, to)) {
        let a = choose|a: int| #[trigger] sty_step(board, start, a) && sty_step(board, a, to) && (climbs(board, start, a) || climbs(board, a, to));
        assert(two_d_climb.has(to));
    } else {
        let (a, b) = choose|a: int, b: int|
            #![trigger sty_step(board, start, a), sty_step(board, a, b)]
            sty_step(board, start, a) && sty_step(board, a, b) && sty_step(board, b, to) && !is_short_win_end(board, start, b) && (climbs(
                board,
                start,
                a,
            ) || climbs(board, a, b) || climbs(board, b, to));
        if climbs(board, start, a) || climbs(board, a, b) {
            if one_d_climbed.has(b) {
                assert(sty_step(board, start, b) && sty_step(board, b, to) && climbs(board, start, b));
            } else if b == start {
                assert(is_adjacent(start, to));
            } else {
                assert(two_d_climb.has(b));
                assert(second_step_done(two_d_climb, two_d_not_climb, 2, b));
                assert(three_d.has(to));
            }
        } else {
            if one_d.has(b) {
                assert(sty_step(board, start, b) && sty_step(board, b, to) && climbs(board, b, to));
            } else if b == start {
                assert(is_adjacent(start, to));
            } else if board.height(b) >= 3 {
                assert(board.height(to) > board.height(b));
            } else {
                assert(two_d_not_climb.has(b));
                assert(second_step_done(two_d_climb, two_d_not_climb, 2, b));
                assert(three_d.has(to));
            }
        }
    }
}

/// Whether the climbing generator has looked at first step `m` in its passes so far: the
/// climbing first steps in the first pass, the others in the second.
pub open spec fn first_step_done(one_d_climbed: BitBoard, one_d_not_climbed: BitBoard, pass: int, m: int) -> bool {
    (pass >= 1 && one_d_climbed.has(m)) || (pass >= 2 && one_d_not_climbed.has(m))
}

/// Whether the climbing generator has looked at second square `m` in its passes so far.
pub open spec fn second_step_done(two_d_climb: BitBoard, two_d_not_climb: BitBoard, pass: int, m: int) -> bool {
    (pass >= 1 && two_d_climb.has(m)) || (pass >= 2 && two_d_not_climb.has(m))
}

/// One worker's walks when a climb is owed: its winning walks, one per end, then the far ends it
/// reaches by a walk that climbs, with each build. Returns true when generation stops on a win.
#[verifier::rlimit(80)]
fn stymphalians_climbing_worker_gen(
    flags: MoveGenFlags,
    state: &FullGameState,
    player: Player,
    prelude: &GeneratorPreludeState,
    open_squares: BitBoard,
    open_squares_for_builds: BitBoard,
    start: Square,
    result: &mut Vec<ScoredMove>,
) -> (stop: bool)
    requires
        sty_frame(*state, player, *prelude, open_squares, open_squares_for_builds),
        forall|i: int| #[trigger] open_squares_for_builds.has(i) == (open_squares.has(i) && prelude.build_mask.has(i)),
        start < 25,
        is_acting_worker(*state, player, start as int),
        forall|k: int| 0 <= k < old(result)@.len() ==> #[trigger] is_stymphalians_turn(*state, player, true, old(result)@[k].action.0),
    ensures
        final(result)@.len() >= old(result)@.len(),
        forall|k: int| 0 <= k < old(result)@.len() ==> #[trigger] final(result)@[k] == old(result)@[k],
        forall|k: int| 0 <= k < final(result)@.len() ==> #[trigger] is_stymphalians_turn(*state, player, true, final(result)@[k].action.0),
        flags & NARROWING_FLAGS == 0 ==> !stop,
        flags & NARROWING_FLAGS == 0 ==> forall|e: int| #[trigger] is_win_end(state.board, start as int, e) ==> lists_win_to(final(result)@, start as int, e),
        flags & NARROWING_FLAGS == 0 ==> forall|data: u32|
            #[trigger] is_stymphalians_turn(*state, player, true, data) && field_at(data, 0) == start && !is_winning_data(data) && !is_win_end(
                state.board,
                start as int,
                field_at(data, 5) as int,
            ) && sty_climbs_past_wins(state.board, start as int, field_at(data, 5) as int) ==> lists_word(final(result)@, data),
{
    broadcast use group_bit_lemmas;

    proof {
        crate::generic::lemma_no_flags(flags);
    }
    let ghost board = state.board;
    let ghost start_len = old(result)@.len();
    let start_mask = BitBoard::as_mask(start);
    let start_height = prelude.board.get_height(start);
    let mut open_final_destinations = open_squares.minus(inclusive_neighbor_mask(start));
    let mut one_d = step_targets(prelude, open_squares, start);
    if is_mate_only(flags) {
        one_d = one_d.and(prelude.board.height_map[0]);
        if one_d.is_empty() {
            return false;
        }
    }
    let climb_layer = if start_height >= 4 {
        BitBoard::empty()
    } else {
        prelude.board.height_map[start_height]
    };
    let one_d_climbed = one_d.and(climb_layer);
    let one_d_not_climbed = one_d.xor(one_d_climbed);
    proof {
        assert forall|i: int| #[trigger] one_d_climbed.has(i) == (one_d.has(i) && climbs(state.board, start as int, i)) by {
            if start_height < 4 && 0 <= i < 32 {
                crate::gods::move_helpers::lemma_layer_is_height(state.board, start_height as int, i);
            }
        }
        assert forall|i: int| #[trigger] one_d_not_climbed.has(i) == (one_d.has(i) && !climbs(state.board, start as int, i)) by {
            if 0 <= i < 32 {
                assert(one_d_climbed.has(i) == (one_d.has(i) && climbs(state.board, start as int, i)));
            }
        }
    }
    let mut two_d_climb = BitBoard::empty();
    let mut two_d_not_climb = BitBoard::empty();
    let mut pass: usize = 0;
    while pass < 2
        invariant
            pass <= 2,
            forall|m: int, i: int|
                first_step_done(one_d_climbed, one_d_not_climbed, pass as int, m) && #[trigger] sty_step(board, m, i) && !is_short_win_end(
                    board,
                    start as int,
                    i,
                ) ==> (if climbs(board, start as int, m) || climbs(board, m, i) {
                    two_d_climb.has(i)
                } else {
                    two_d_not_climb.has(i)
                }),
            board == state.board,
            start_len == old(result)@.len(),
            result@.len() >= start_len,
            forall|k: int| 0 <= k < start_len ==> #[trigger] result@[k] == old(result)@[k],
            forall|i: int|
                0 <= i < 32 && is_far_destination(start as int, i) && open_squares.has(i) && !#[trigger] open_final_destinations.has(i)
                    ==> is_win_end(board, start as int, i) && lists_win_to(result@, start as int, i),
            flags & NARROWING_FLAGS == 0 ==> forall|i: int| #[trigger] one_d.has(i) == sty_step(state.board, start as int, i),
            forall|m: int, e: int|
                first_step_done(one_d_climbed, one_d_not_climbed, pass as int, m) && board.height(m) == 2 && #[trigger] sty_step(board, m, e)
                    && board.height(e) == 3 && is_far_destination(start as int, e) ==> lists_win_to(result@, start as int, e),
            forall|m: int, i: int|
                first_step_done(one_d_climbed, one_d_not_climbed, pass as int, m) && #[trigger] sty_step(board, m, i) && board.height(i) == 2
                    ==> two_d_climb.has(i) || two_d_not_climb.has(i),
            sty_frame(*state, player, *prelude, open_squares, open_squares_for_builds),
            start < 25,
            is_acting_worker(*state, player, start as int),
            forall|i: int| #[trigger] open_final_destinations.has(i) ==> open_squares.has(i) && i != start && !is_adjacent(start as int, i),
            forall|i: int| #[trigger] one_d.has(i) ==> sty_step(state.board, start as int, i),
            forall|i: int| #[trigger] one_d_climbed.has(i) == (one_d.has(i) && climbs(state.board, start as int, i)),
            forall|i: int| #[trigger] one_d_not_climbed.has(i) == (one_d.has(i) && !climbs(state.board, start as int, i)),
            forall|i: int| #[trigger] two_d_climb.has(i) ==> exists|f: int| #[trigger] one_d.has(f) && sty_step(state.board, f, i)
                && (climbs(state.board, start as int, f) || climbs(state.board, f, i)),
            forall|i: int| #[trigger] two_d_not_climb.has(i) ==> exists|f: int| #[trigger] one_d.has(f) && sty_step(state.board, f, i),
            forall|k: int| 0 <= k < result@.len() ==> #[trigger] is_stymphalians_turn(*state, player, true, result@[k].action.0),
        decreases 2 - pass,
    {
        let source = if pass == 0 {
            one_d_climbed
        } else {
            one_d_not_climbed
        };
        let firsts = source.squares();
        let mut fi: usize = 0;
        while fi < firsts.len()
            invariant
                fi <= firsts@.len(),
                pass < 2,
                forall|m: int, i: int|
                    first_step_done(one_d_climbed, one_d_not_climbed, pass as int, m) && #[trigger] sty_step(board, m, i) && !is_short_win_end(
                        board,
                        start as int,
                        i,
                    ) ==> (if climbs(board, start as int, m) || climbs(board, m, i) {
                        two_d_climb.has(i)
                    } else {
                        two_d_not_climb.has(i)
                    }),
                forall|j: int, i: int|
                    0 <= j < fi && #[trigger] sty_step(board, firsts@[j] as int, i) && !is_short_win_end(board, start as int, i) ==> (if climbs(
                        board,
                        start as int,
                        firsts@[j] as int,
                    ) || climbs(board, firsts@[j] as int, i) {
                        two_d_climb.has(i)
                    } else {
                        two_d_not_climb.has(i)
                    }),
                board == state.board,
                start_len == old(result)@.len(),
                result@.len() >= start_len,
                forall|k: int| 0 <= k < start_len ==> #[trigger] result@[k] == old(result)@[k],
                forall|i: int|
                    0 <= i < 32 && is_far_destination(start as int, i) && open_squares.has(i) && !#[trigger] open_final_destinations.has(i)
                        ==> is_win_end(board, start as int, i) && lists_win_to(result@, start as int, i),
                flags & NARROWING_FLAGS == 0 ==> forall|i: int| #[trigger] one_d.has(i) == sty_step(state.board, start as int, i),
                forall|m: int, e: int|
                    first_step_done(one_d_climbed, one_d_not_climbed, pass as int, m) && board.height(m) == 2 && #[trigger] sty_step(board, m, e)
                        && board.height(e) == 3 && is_far_destination(start as int, e) ==> lists_win_to(result@, start as int, e),
                forall|m: int, i: int|
                    first_step_done(one_d_climbed, one_d_not_climbed, pass as int, m) && #[trigger] sty_step(board, m, i) && board.height(i) == 2
                        ==> two_d_climb.has(i) || two_d_not_climb.has(i),
                forall|j: int, e: int|
                    0 <= j < fi && board.height(firsts@[j] as int) == 2 && #[trigger] sty_step(board, firsts@[j] as int, e) && board.height(e) == 3
                        && is_far_destination(start as int, e) ==> lists_win_to(result@, start as int, e),
                forall|j: int, i: int|
                    0 <= j < fi && #[trigger] sty_step(board, firsts@[j] as int, i) && board.height(i) == 2 ==> two_d_climb.has(i)
                        || two_d_not_climb.has(i),
                sty_frame(*state, player, *prelude, open_squares, open_squares_for_builds),
                start < 25,
                is_acting_worker(*state, player, start as int),
                forall|i: int| #[trigger] open_final_destinations.has(i) ==> open_squares.has(i) && i != start && !is_adjacent(start as int, i),
                forall|i: int| #[trigger] one_d.has(i) ==> sty_step(state.board, start as int, i),
                source == (if pass == 0 { one_d_climbed } else { one_d_not_climbed }),
                forall|i: int| #[trigger] one_d_climbed.has(i) == (one_d.has(i) && climbs(state.board, start as int, i)),
                forall|i: int| #[trigger] one_d_not_climbed.has(i) == (one_d.has(i) && !climbs(state.board, start as int, i)),
                forall|k: int| 0 <= k < firsts@.len() ==> #[trigger] firsts@[k] < 25 && source.has(firsts@[k] as int),
                forall|i: int| #[trigger] two_d_climb.has(i) ==> exists|f: int| #[trigger] one_d.has(f) && sty_step(state.board, f, i)
                    && (climbs(state.board, start as int, f) || climbs(state.board, f, i)),
                forall|i: int| #[trigger] two_d_not_climb.has(i) ==> exists|f: int| #[trigger] one_d.has(f) && sty_step(state.board, f, i),
                forall|k: int| 0 <= k < result@.len() ==> #[trigger] is_stymphalians_turn(*state, player, true, result@[k].action.0),
            decreases firsts@.len() - fi,
        {
            let m = firsts[fi];
            fi = fi + 1;
            let m_height = prelude.board.get_height(m);
            let mut new_moves = step_targets(prelude, open_squares, m);
            let ghost loop_start = result@;
            let ghost old_open_final = open_final_destinations;
            let ghost raw_moves = new_moves;
            if m_height == 2 {
                let wins = new_moves.and(open_final_destinations).and(prelude.exactly_level_3);
                let ends = wins.squares();
                let mut ei: usize = 0;
                while ei < ends.len()
                    invariant
                        ei <= ends@.len(),
                        start < 25,
                        m < 25,
                        state.board.height(m as int) == 2,
                        is_acting_worker(*state, player, start as int),
                        sty_step(state.board, start as int, m as int),
                        forall|k: int| 0 <= k < ends@.len() ==> #[trigger] ends@[k] < 25 && sty_step(state.board, m as int, ends@[k] as int)
                            && is_far_destination(start as int, ends@[k] as int) && state.board.height(ends@[k] as int) == 3,
                        board == state.board,
                        start_len == old(result)@.len(),
                        result@.len() >= start_len,
                        forall|k: int| 0 <= k < start_len ==> #[trigger] result@[k] == old(result)@[k],
                        result@.len() >= loop_start.len(),
                        forall|k: int| 0 <= k < loop_start.len() ==> #[trigger] result@[k] == loop_start[k],
                        forall|x: int| 0 <= x < ei ==> lists_win_to(result@, start as int, #[trigger] ends@[x] as int),
                        forall|k: int| 0 <= k < result@.len() ==> #[trigger] is_stymphalians_turn(*state, player, true, result@[k].action.0),
                    decreases ends@.len() - ei,
                {
                    let e = ends[ei];
                    let ghost before = result@;
                    let stop = push_walk_win(flags, result, start, e, m, m);
                    proof {
                        assert forall|k: int| 0 <= k < result@.len() implies #[trigger] is_stymphalians_turn(
                            *state,
                            player,
                            true,
                            result@[k].action.0,
                        ) by {
                            if k < before.len() {
                                assert(result@[k] == before[k]);
                            }
                        }
                    }
                    proof {
                        lemma_lists_win_grows(before, result@);
                        let last = result@.len() - 1;
                        assert(is_winning_data(result@[last].action.0) && field_at(result@[last].action.0, 0) == start && field_at(result@[last].action.0, 5) == e);
                        assert forall|x: int| 0 <= x < ei + 1 implies lists_win_to(result@, start as int, #[trigger] ends@[x] as int) by {
                            if x < ei {
                                assert(lists_win_to(before, start as int, ends@[x] as int));
                            }
                        }
                        crate::generic::lemma_no_flags(flags);
                    }
                    if stop {
                        return true;
                    }
                    ei = ei + 1;
                }
                new_moves = new_moves.minus(wins);
                open_final_destinations = open_final_destinations.minus(wins);
                proof {
                    lemma_lists_win_grows(loop_start, result@);
                    assert forall|i: int|
                        0 <= i < 32 && is_far_destination(start as int, i) && open_squares.has(i) && !#[trigger] open_final_destinations.has(i)
                            implies is_win_end(board, start as int, i) && lists_win_to(result@, start as int, i) by {
                        if old_open_final.has(i) {
                            assert(wins.has(i));
                            assert(ends@.contains(i as u8));
                            let x = choose|x: int| 0 <= x < ends@.len() && ends@[x] == i as u8;
                            assert(lists_win_to(result@, start as int, ends@[x] as int));
                            assert(is_winning_walk(board, start as int, i, m as int, m as int));
                        } else {
                            assert(lists_win_to(loop_start, start as int, i));
                        }
                    }
                    assert forall|j: int, e: int|
                        0 <= j < fi && board.height(firsts@[j] as int) == 2 && #[trigger] sty_step(board, firsts@[j] as int, e) && board.height(e)
                            == 3 && is_far_destination(start as int, e) implies lists_win_to(result@, start as int, e) by {
                        if j < fi - 1 {
                            assert(lists_win_to(loop_start, start as int, e));
                        } else {
                            assert(open_squares.has(e));
                            if old_open_final.has(e) {
                                assert(raw_moves.has(e));
                                assert(wins.has(e));
                            }
                            assert(!open_final_destinations.has(e));
                        }
                    }
                    assert forall|m2: int, e: int|
                        first_step_done(one_d_climbed, one_d_not_climbed, pass as int, m2) && board.height(m2) == 2 && #[trigger] sty_step(board, m2, e)
                            && board.height(e) == 3 && is_far_destination(start as int, e) implies lists_win_to(result@, start as int, e) by {
                        assert(lists_win_to(loop_start, start as int, e));
                    }
                }
            } else {
                proof {
                    assert forall|j: int, e: int|
                        0 <= j < fi && board.height(firsts@[j] as int) == 2 && #[trigger] sty_step(board, firsts@[j] as int, e) && board.height(e)
                            == 3 && is_far_destination(start as int, e) implies lists_win_to(result@, start as int, e) by {
                        if j == fi - 1 {
                            assert(firsts@[j] == m);
                        }
                    }
                }
            }
            proof {
                assert forall|i: int| #[trigger] sty_step(board, m as int, i) && board.height(i) == 2 implies new_moves.has(i) by {
                    assert(raw_moves.has(i));
                }
            }
            let old_climb = two_d_climb;
            let old_not_climb = two_d_not_climb;
            if pass == 0 {
                two_d_climb = two_d_climb.or(new_moves);
                proof {
                    assert forall|i: int| #[trigger] two_d_climb.has(i) implies exists|f: int| #[trigger] one_d.has(f) && sty_step(
                        state.board,
                        f,
                        i,
                    ) && (climbs(state.board, start as int, f) || climbs(state.board, f, i)) by {
                        if !old_climb.has(i) {
                            assert(one_d.has(m as int) && sty_step(state.board, m as int, i));
                        }
                    }
                }
            } else {
                let m_layer = if m_height >= 4 {
                    BitBoard::empty()
                } else {
                    prelude.board.height_map[m_height]
                };
                let from_climbs = new_moves.and(m_layer);
                let from_non_climbs = new_moves.xor(from_climbs);
                two_d_climb = two_d_climb.or(from_climbs);
                two_d_not_climb = two_d_not_climb.or(from_non_climbs);
                proof {
                    assert forall|i: int| #[trigger] two_d_climb.has(i) implies exists|f: int| #[trigger] one_d.has(f) && sty_step(
                        state.board,
                        f,
                        i,
                    ) && (climbs(state.board, start as int, f) || climbs(state.board, f, i)) by {
                        if !old_climb.has(i) {
                            if m_height < 4 && 0 <= i < 32 {
                                crate::gods::move_helpers::lemma_layer_is_height(state.board, m_height as int, i);
                            }
                            assert(one_d.has(m as int) && sty_step(state.board, m as int, i));
                        }
                    }
                    assert forall|i: int| #[trigger] two_d_not_climb.has(i) implies exists|f: int| #[trigger] one_d.has(f)
                        && sty_step(state.board, f, i) by {
                        if !old_not_climb.has(i) {
                            assert(one_d.has(m as int) && sty_step(state.board, m as int, i));
                        }
                    }
                }
            }
            proof {
                assert forall|j: int, i: int|
                    0 <= j < fi && #[trigger] sty_step(board, firsts@[j] as int, i) && !is_short_win_end(board, start as int, i) implies (if climbs(
                        board,
                        start as int,
                        firsts@[j] as int,
                    ) || climbs(board, firsts@[j] as int, i) {
                        two_d_climb.has(i)
                    } else {
                        two_d_not_climb.has(i)
                    }) by {
                    if j < fi - 1 {
                        assert(if climbs(board, start as int, firsts@[j] as int) || climbs(board, firsts@[j] as int, i) {
                            old_climb.has(i)
                        } else {
                            old_not_climb.has(i)
                        });
                    } else {
                        assert(firsts@[j] == m);
                        assert(raw_moves.has(i));
                        if m_height == 2 && open_squares.has(i) && is_far_destination(start as int, i) && board.height(i) == 3 {
                            assert(sty_step(board, start as int, m as int));
                            assert(is_short_win_end(board, start as int, i));
                        }
                        assert(new_moves.has(i));
                        if pass == 0 {
                            assert(one_d_climbed.has(m as int));
                        } else {
                            assert(one_d_not_climbed.has(m as int));
                            if m_height < 4 && 0 <= i < 32 {
                                crate::gods::move_helpers::lemma_layer_is_height(state.board, m_height as int, i);
                            }
                        }
                    }
                }
                assert forall|m2: int, i: int|
                    first_step_done(one_d_climbed, one_d_not_climbed, pass as int, m2) && #[trigger] sty_step(board, m2, i) && !is_short_win_end(
                        board,
                        start as int,
                        i,
                    ) implies (if climbs(board, start as int, m2) || climbs(board, m2, i) {
                        two_d_climb.has(i)
                    } else {
                        two_d_not_climb.has(i)
                    }) by {
                    assert(if climbs(board, start as int, m2) || climbs(board, m2, i) {
                        old_climb.has(i)
                    } else {
                        old_not_climb.has(i)
                    });
                }
                assert forall|j: int, i: int|
                    0 <= j < fi && #[trigger] sty_step(board, firsts@[j] as int, i) && board.height(i) == 2 implies two_d_climb.has(i)
                        || two_d_not_climb.has(i) by {
                    if j < fi - 1 {
                        assert(old_climb.has(i) || old_not_climb.has(i));
                    } else {
                        assert(firsts@[j] == m);
                        assert(new_moves.has(i));
                        if pass != 0 && m_height < 4 && 0 <= i < 32 {
                            crate::gods::move_helpers::lemma_layer_is_height(state.board, m_height as int, i);
                        }
                    }
                }
                assert forall|m2: int, i: int|
                    first_step_done(one_d_climbed, one_d_not_climbed, pass as int, m2) && #[trigger] sty_step(board, m2, i) && board.height(i) == 2
                        implies two_d_climb.has(i) || two_d_not_climb.has(i) by {
                    assert(old_climb.has(i) || old_not_climb.has(i));
                }
            }
        }
        proof {
            assert forall|m: int, e: int|
                first_step_done(one_d_climbed, one_d_not_climbed, pass as int + 1, m) && board.height(m) == 2 && #[trigger] sty_step(board, m, e)
                    && board.height(e) == 3 && is_far_destination(start as int, e) implies lists_win_to(result@, start as int, e) by {
                if !first_step_done(one_d_climbed, one_d_not_climbed, pass as int, m) {
                    assert(source.has(m));
                    assert(is_adjacent(start as int, m));
                    assert(firsts@.contains(m as u8));
                    let j = choose|j: int| 0 <= j < firsts@.len() && firsts@[j] == m as u8;
                    assert(sty_step(board, firsts@[j] as int, e));
                }
            }
            assert forall|m: int, i: int|
                first_step_done(one_d_climbed, one_d_not_climbed, pass as int + 1, m) && #[trigger] sty_step(board, m, i) && board.height(i) == 2
                    implies two_d_climb.has(i) || two_d_not_climb.has(i) by {
                if !first_step_done(one_d_climbed, one_d_not_climbed, pass as int, m) {
                    assert(source.has(m));
                    assert(is_adjacent(start as int, m));
                    assert(firsts@.contains(m as u8));
                    let j = choose|j: int| 0 <= j < firsts@.len() && firsts@[j] == m as u8;
                    assert(sty_step(board, firsts@[j] as int, i));
                }
            }
        }
        proof {
            assert forall|m: int, i: int|
                first_step_done(one_d_climbed, one_d_not_climbed, pass as int + 1, m) && #[trigger] sty_step(board, m, i) && !is_short_win_end(
                    board,
                    start as int,
                    i,
                ) implies (if climbs(board, start as int, m) || climbs(board, m, i) {
                    two_d_climb.has(i)
                } else {
                    two_d_not_climb.has(i)
                }) by {
                if !first_step_done(one_d_climbed, one_d_not_climbed, pass as int, m) {
                    assert(source.has(m));
                    assert(is_adjacent(start as int, m));
                    assert(firsts@.contains(m as u8));
                    let j = choose|j: int| 0 <= j < firsts@.len() && firsts@[j] == m as u8;
                    assert(sty_step(board, firsts@[j] as int, i));
                }
            }
        }
        pass = pass + 1;
    }
    let ghost climb_all = two_d_climb;
    let ghost not_climb_all = two_d_not_climb;
    proof {
        if flags & NARROWING_FLAGS == 0 {
            assert forall|e: int| #[trigger] is_short_win_end(board, start as int, e) implies lists_win_to(result@, start as int, e) by {
                let m = choose|m: int| #[trigger] sty_step(board, start as int, m) && sty_step(board, m, e) && board.height(m) == 2;
                assert(one_d.has(m));
                assert(first_step_done(one_d_climbed, one_d_not_climbed, 2, m));
            }
        }
    }
    two_d_climb = two_d_climb.minus(one_d_climbed.or(start_mask));
    two_d_not_climb = two_d_not_climb.minus(one_d.or(start_mask).or(prelude.board.height_map[2]));
    proof {
        if flags & NARROWING_FLAGS == 0 {
            assert forall|f: int, i: int|
                #![trigger sty_step(board, start as int, f), sty_step(board, f, i)]
                sty_step(board, start as int, f) && sty_step(board, f, i) && board.height(i) == 2 && !one_d.has(i) && i != start implies two_d_climb.has(i)
                    || two_d_not_climb.has(i) by {
                assert(one_d.has(f));
                assert(first_step_done(one_d_climbed, one_d_not_climbed, 2, f));
                assert(climb_all.has(i) || not_climb_all.has(i));
                assert(is_square(i));
                crate::gods::move_helpers::lemma_layer_is_height(state.board, 2, i);
            }
            assert forall|ff: int, i: int|
                #![trigger sty_step(board, start as int, ff), sty_step(board, ff, i)]
                sty_step(board, start as int, ff) && sty_step(board, ff, i) && !is_short_win_end(board, start as int, i) && (climbs(
                    board,
                    start as int,
                    ff,
                ) || climbs(board, ff, i)) && !one_d_climbed.has(i) && i != start implies two_d_climb.has(i) by {
                assert(one_d.has(ff));
                assert(first_step_done(one_d_climbed, one_d_not_climbed, 2, ff));
                assert(climb_all.has(i));
            }
            assert forall|ff: int, i: int|
                #![trigger sty_step(board, start as int, ff), sty_step(board, ff, i)]
                sty_step(board, start as int, ff) && sty_step(board, ff, i) && !is_short_win_end(board, start as int, i) && !(climbs(
                    board,
                    start as int,
                    ff,
                ) || climbs(board, ff, i)) && !one_d.has(i) && i != start && board.height(i) < 3 implies two_d_not_climb.has(i) by {
                assert(one_d.has(ff));
                assert(first_step_done(one_d_climbed, one_d_not_climbed, 2, ff));
                assert(not_climb_all.has(i));
                assert(is_square(i));
                crate::gods::move_helpers::lemma_layer_is_height(state.board, 2, i);
            }
        }
    }
    if is_mate_only(flags) {
        two_d_climb = two_d_climb.and(prelude.board.height_map[1]);
        two_d_not_climb = two_d_not_climb.and(prelude.board.height_map[1]);
        if two_d_climb.or(two_d_not_climb).is_empty() {
            return false;
        }
    }
    let mut three_d_climb = BitBoard::empty();
    let mut pass2: usize = 0;
    while pass2 < 2
        invariant
            pass2 <= 2,
            flags & NARROWING_FLAGS == 0 ==> forall|i: int| #[trigger] one_d.has(i) == sty_step(state.board, start as int, i),
            forall|i: int| #[trigger] one_d_climbed.has(i) == (one_d.has(i) && climbs(state.board, start as int, i)),
            flags & NARROWING_FLAGS == 0 ==> forall|ff: int, i: int|
                #![trigger sty_step(board, start as int, ff), sty_step(board, ff, i)]
                sty_step(board, start as int, ff) && sty_step(board, ff, i) && !is_short_win_end(board, start as int, i) && (climbs(
                    board,
                    start as int,
                    ff,
                ) || climbs(board, ff, i)) && !one_d_climbed.has(i) && i != start ==> two_d_climb.has(i),
            flags & NARROWING_FLAGS == 0 ==> forall|ff: int, i: int|
                #![trigger sty_step(board, start as int, ff), sty_step(board, ff, i)]
                sty_step(board, start as int, ff) && sty_step(board, ff, i) && !is_short_win_end(board, start as int, i) && !(climbs(
                    board,
                    start as int,
                    ff,
                ) || climbs(board, ff, i)) && !one_d.has(i) && i != start && board.height(i) < 3 ==> two_d_not_climb.has(i),
            forall|mm: int, i: int|
                second_step_done(two_d_climb, two_d_not_climb, pass2 as int, mm) && #[trigger] sty_step(board, mm, i) && !is_win_end(
                    board,
                    start as int,
                    i,
                ) && (two_d_climb.has(mm) || climbs(board, mm, i)) ==> three_d_climb.has(i),
            board == state.board,
            start_len == old(result)@.len(),
            result@.len() >= start_len,
            forall|k: int| 0 <= k < start_len ==> #[trigger] result@[k] == old(result)@[k],
            forall|i: int|
                0 <= i < 32 && is_far_destination(start as int, i) && open_squares.has(i) && !#[trigger] open_final_destinations.has(i)
                    ==> is_win_end(board, start as int, i) && lists_win_to(result@, start as int, i),
            flags & NARROWING_FLAGS == 0 ==> forall|e: int| #[trigger] is_short_win_end(board, start as int, e) ==> lists_win_to(result@, start as int, e),
            flags & NARROWING_FLAGS == 0 ==> forall|f: int, i: int|
                #![trigger sty_step(board, start as int, f), sty_step(board, f, i)]
                sty_step(board, start as int, f) && sty_step(board, f, i) && board.height(i) == 2 && !one_d.has(i) && i != start ==> two_d_climb.has(i)
                    || two_d_not_climb.has(i),
            forall|m: int, e: int|
                second_step_done(two_d_climb, two_d_not_climb, pass2 as int, m) && board.height(m) == 2 && #[trigger] sty_step(board, m, e)
                    && board.height(e) == 3 && is_far_destination(start as int, e) ==> lists_win_to(result@, start as int, e),
            sty_frame(*state, player, *prelude, open_squares, open_squares_for_builds),
            start < 25,
            is_acting_worker(*state, player, start as int),
            forall|i: int| #[trigger] open_final_destinations.has(i) ==> open_squares.has(i) && i != start && !is_adjacent(start as int, i),
            forall|i: int| #[trigger] one_d.has(i) ==> sty_step(state.board, start as int, i),
            forall|i: int| #[trigger] two_d_climb.has(i) ==> exists|f: int| #[trigger] one_d.has(f) && sty_step(state.board, f, i)
                && (climbs(state.board, start as int, f) || climbs(state.board, f, i)),
            forall|i: int| #[trigger] two_d_not_climb.has(i) ==> exists|f: int| #[trigger] one_d.has(f) && sty_step(state.board, f, i),
            forall|i: int| #[trigger] three_d_climb.has(i) ==> sty_reaches(state.board, start as int, i, true),
            forall|k: int| 0 <= k < result@.len() ==> #[trigger] is_stymphalians_turn(*state, player, true, result@[k].action.0),
        decreases 2 - pass2,
    {
        let source = if pass2 == 0 {
            two_d_climb
        } else {
            two_d_not_climb
        };
        let seconds = source.squares();
        let mut si: usize = 0;
        while si < seconds.len()
            invariant
                si <= seconds@.len(),
                pass2 < 2,
                flags & NARROWING_FLAGS == 0 ==> forall|i: int| #[trigger] one_d.has(i) == sty_step(state.board, start as int, i),
                forall|i: int| #[trigger] one_d_climbed.has(i) == (one_d.has(i) && climbs(state.board, start as int, i)),
                flags & NARROWING_FLAGS == 0 ==> forall|ff: int, i: int|
                    #![trigger sty_step(board, start as int, ff), sty_step(board, ff, i)]
                    sty_step(board, start as int, ff) && sty_step(board, ff, i) && !is_short_win_end(board, start as int, i) && (climbs(
                        board,
                        start as int,
                        ff,
                    ) || climbs(board, ff, i)) && !one_d_climbed.has(i) && i != start ==> two_d_climb.has(i),
                flags & NARROWING_FLAGS == 0 ==> forall|ff: int, i: int|
                    #![trigger sty_step(board, start as int, ff), sty_step(board, ff, i)]
                    sty_step(board, start as int, ff) && sty_step(board, ff, i) && !is_short_win_end(board, start as int, i) && !(climbs(
                        board,
                        start as int,
                        ff,
                    ) || climbs(board, ff, i)) && !one_d.has(i) && i != start && board.height(i) < 3 ==> two_d_not_climb.has(i),
                forall|mm: int, i: int|
                    second_step_done(two_d_climb, two_d_not_climb, pass2 as int, mm) && #[trigger] sty_step(board, mm, i) && !is_win_end(
                        board,
                        start as int,
                        i,
                    ) && (two_d_climb.has(mm) || climbs(board, mm, i)) ==> three_d_climb.has(i),
                forall|j: int, i: int|
                    0 <= j < si && #[trigger] sty_step(board, seconds@[j] as int, i) && !is_win_end(board, start as int, i) && (pass2 == 0
                        || climbs(board, seconds@[j] as int, i)) ==> three_d_climb.has(i),
                board == state.board,
                start_len == old(result)@.len(),
                result@.len() >= start_len,
                forall|k: int| 0 <= k < start_len ==> #[trigger] result@[k] == old(result)@[k],
                forall|i: int|
                    0 <= i < 32 && is_far_destination(start as int, i) && open_squares.has(i) && !#[trigger] open_final_destinations.has(i)
                        ==> is_win_end(board, start as int, i) && lists_win_to(result@, start as int, i),
                flags & NARROWING_FLAGS == 0 ==> forall|e: int| #[trigger] is_short_win_end(board, start as int, e) ==> lists_win_to(result@, start as int, e),
                flags & NARROWING_FLAGS == 0 ==> forall|f: int, i: int|
                    #![trigger sty_step(board, start as int, f), sty_step(board, f, i)]
                    sty_step(board, start as int, f) && sty_step(board, f, i) && board.height(i) == 2 && !one_d.has(i) && i != start ==> two_d_climb.has(i)
                        || two_d_not_climb.has(i),
                forall|m: int, e: int|
                    second_step_done(two_d_climb, two_d_not_climb, pass2 as int, m) && board.height(m) == 2 && #[trigger] sty_step(board, m, e)
                        && board.height(e) == 3 && is_far_destination(start as int, e) ==> lists_win_to(result@, start as int, e),
                forall|j: int, e: int|
                    0 <= j < si && board.height(seconds@[j] as int) == 2 && #[trigger] sty_step(board, seconds@[j] as int, e) && board.height(e) == 3
                        && is_far_destination(start as int, e) ==> lists_win_to(result@, start as int, e),
                sty_frame(*state, player, *prelude, open_squares, open_squares_for_builds),
                start < 25,
                is_acting_worker(*state, player, start as int),
                forall|i: int| #[trigger] open_final_destinations.has(i) ==> open_squares.has(i) && i != start && !is_adjacent(start as int, i),
                forall|i: int| #[trigger] one_d.has(i) ==> sty_step(state.board, start as int, i),
                source == (if pass2 == 0 { two_d_climb } else { two_d_not_climb }),
                forall|i: int| #[trigger] two_d_climb.has(i) ==> exists|f: int| #[trigger] one_d.has(f) && sty_step(state.board, f, i)
                    && (climbs(state.board, start as int, f) || climbs(state.board, f, i)),
                forall|i: int| #[trigger] two_d_not_climb.has(i) ==> exists|f: int| #[trigger] one_d.has(f) && sty_step(state.board, f, i),
                forall|k: int| 0 <= k < seconds@.len() ==> #[trigger] seconds@[k] < 25 && source.has(seconds@[k] as int),
                forall|i: int| #[trigger] three_d_climb.has(i) ==> sty_reaches(state.board, start as int, i, true),
                forall|k: int| 0 <= k < result@.len() ==> #[trigger] is_stymphalians_turn(*state, player, true, result@[k].action.0),
            decreases seconds@.len() - si,
        {
            let m = seconds[si];
            si = si + 1;
            let m_height = prelude.board.get_height(m);
            let mut new_moves = step_targets(prelude, open_squares, m);
            let ghost stepped = new_moves;
            let ghost loop_start = result@;
            let ghost old_open_final = open_final_destinations;
            if pass2 == 1 {
                let m_layer = if m_height >= 4 {
                    BitBoard::empty()
                } else {
                    prelude.board.height_map[m_height]
                };
                let only_climbs = new_moves.and(m_layer);
                proof {
                    assert forall|i: int| #[trigger] only_climbs.has(i) ==> sty_step(state.board, m as int, i) && climbs(
                        state.board,
                        m as int,
                        i,
                    ) by {
                        if m_height < 4 && 0 <= i < 32 {
                            crate::gods::move_helpers::lemma_layer_is_height(state.board, m_height as int, i);
                        }
                    }
                }
                new_moves = only_climbs;
            }
            proof {
                assert(forall|i: int| #[trigger] new_moves.has(i) ==> sty_step(state.board, m as int, i));
                assert forall|e: int| #[trigger] sty_step(board, m as int, e) && m_height == 2 && board.height(e) == 3 implies new_moves.has(e) by {
                    if pass2 == 1 {
                        crate::gods::move_helpers::lemma_layer_is_height(state.board, 2, e);
                    }
                }
            }
            let ghost raw_moves = new_moves;
            if m_height == 2 {
                let wins = new_moves.and(open_final_destinations).and(prelude.exactly_level_3);
                let ends = wins.squares();
                let mut ei: usize = 0;
                while ei < ends.len()
                    invariant
                        ei <= ends@.len(),
                        sty_frame(*state, player, *prelude, open_squares, open_squares_for_builds),
                        start < 25,
                        m < 25,
                        source.has(m as int),
                        source == (if pass2 == 0 { two_d_climb } else { two_d_not_climb }),
                        state.board.height(m as int) == 2,
                        is_acting_worker(*state, player, start as int),
                        forall|i: int| #[trigger] one_d.has(i) ==> sty_step(state.board, start as int, i),
                        forall|i: int| #[trigger] two_d_climb.has(i) ==> exists|f: int| #[trigger] one_d.has(f) && sty_step(
                            state.board,
                            f,
                            i,
                        ) && (climbs(state.board, start as int, f) || climbs(state.board, f, i)),
                        forall|i: int| #[trigger] two_d_not_climb.has(i) ==> exists|f: int| #[trigger] one_d.has(f) && sty_step(
                            state.board,
                            f,
                            i,
                        ),
                        forall|k: int| 0 <= k < ends@.len() ==> #[trigger] ends@[k] < 25 && sty_step(state.board, m as int, ends@[k] as int)
                            && is_far_destination(start as int, ends@[k] as int) && state.board.height(ends@[k] as int) == 3,
                        board == state.board,
                        start_len == old(result)@.len(),
                        result@.len() >= start_len,
                        forall|k: int| 0 <= k < start_len ==> #[trigger] result@[k] == old(result)@[k],
                        result@.len() >= loop_start.len(),
                        forall|k: int| 0 <= k < loop_start.len() ==> #[trigger] result@[k] == loop_start[k],
                        forall|x: int| 0 <= x < ei ==> lists_win_to(result@, start as int, #[trigger] ends@[x] as int),
                        forall|k: int| 0 <= k < result@.len() ==> #[trigger] is_stymphalians_turn(*state, player, true, result@[k].action.0),
                    decreases ends@.len() - ei,
                {
                    let e = ends[ei];
                    assert(exists|f: int| #[trigger] one_d.has(f) && sty_step(state.board, f, m as int));
                    let first = find_first_step(prelude, open_squares, one_d, m);
                    let ghost before = result@;
                    let stop = push_walk_win(flags, result, start, e, first, m);
                    proof {
                        assert(first != m) by {
                            assert(is_adjacent(first as int, m as int));
                        }
                        assert forall|k: int| 0 <= k < result@.len() implies #[trigger] is_stymphalians_turn(
                            *state,
                            player,
                            true,
                            result@[k].action.0,
                        ) by {
                            if k < before.len() {
                                assert(result@[k] == before[k]);
                            }
                        }
                    }
                    proof {
                        lemma_lists_win_grows(before, result@);
                        let last = result@.len() - 1;
                        assert(is_winning_data(result@[last].action.0) && field_at(result@[last].action.0, 0) == start && field_at(result@[last].action.0, 5) == e);
                        assert forall|x: int| 0 <= x < ei + 1 implies lists_win_to(result@, start as int, #[trigger] ends@[x] as int) by {
                            if x < ei {
                                assert(lists_win_to(before, start as int, ends@[x] as int));
                            }
                        }
                        crate::generic::lemma_no_flags(flags);
                    }
                    if stop {
                        return true;
                    }
                    ei = ei + 1;
                }
                new_moves = new_moves.minus(wins);
                open_final_destinations = open_final_destinations.minus(wins);
                proof {
                    lemma_lists_win_grows(loop_start, result@);
                    assert forall|i: int|
                        0 <= i < 32 && is_far_destination(start as int, i) && open_squares.has(i) && !#[trigger] open_final_destinations.has(i)
                            implies is_win_end(board, start as int, i) && lists_win_to(result@, start as int, i) by {
                        if old_open_final.has(i) {
                            assert(wins.has(i));
                            assert(ends@.contains(i as u8));
                            let x = choose|x: int| 0 <= x < ends@.len() && ends@[x] == i as u8;
                            assert(lists_win_to(result@, start as int, ends@[x] as int));
                            let f0 = choose|f0: int| #[trigger] one_d.has(f0) && sty_step(state.board, f0, m as int);
                            assert(is_adjacent(f0, m as int));
                            assert(is_winning_walk(board, start as int, i, f0, m as int));
                        } else {
                            assert(lists_win_to(loop_start, start as int, i));
                        }
                    }
                    assert forall|j: int, e: int|
                        0 <= j < si && board.height(seconds@[j] as int) == 2 && #[trigger] sty_step(board, seconds@[j] as int, e) && board.height(e)
                            == 3 && is_far_destination(start as int, e) implies lists_win_to(result@, start as int, e) by {
                        if j < si - 1 {
                            assert(lists_win_to(loop_start, start as int, e));
                        } else {
                            assert(open_squares.has(e));
                            if old_open_final.has(e) {
                                assert(raw_moves.has(e));
                                assert(wins.has(e));
                            }
                            assert(!open_final_destinations.has(e));
                        }
                    }
                    assert forall|m2: int, e: int|
                        second_step_done(two_d_climb, two_d_not_climb, pass2 as int, m2) && board.height(m2) == 2 && #[trigger] sty_step(board, m2, e)
                            && board.height(e) == 3 && is_far_destination(start as int, e) implies lists_win_to(result@, start as int, e) by {
                        assert(lists_win_to(loop_start, start as int, e));
                    }
                    if flags & NARROWING_FLAGS == 0 {
                        assert forall|e: int| #[trigger] is_short_win_end(board, start as int, e) implies lists_win_to(result@, start as int, e) by {
                            assert(lists_win_to(loop_start, start as int, e));
                        }
                    }
                }
            } else {
                proof {
                    assert forall|j: int, e: int|
                        0 <= j < si && board.height(seconds@[j] as int) == 2 && #[trigger] sty_step(board, seconds@[j] as int, e) && board.height(e)
                            == 3 && is_far_destination(start as int, e) implies lists_win_to(result@, start as int, e) by {
                        if j == si - 1 {
                            assert(seconds@[j] == m);
                        }
                    }
                }
            }
            let old_three = three_d_climb;
            three_d_climb = three_d_climb.or(new_moves);
            proof {
                assert forall|j: int, i: int|
                    0 <= j < si && #[trigger] sty_step(board, seconds@[j] as int, i) && !is_win_end(board, start as int, i) && (pass2 == 0
                        || climbs(board, seconds@[j] as int, i)) implies three_d_climb.has(i) by {
                    if j < si - 1 {
                        assert(old_three.has(i));
                    } else {
                        assert(seconds@[j] == m);
                        assert(stepped.has(i));
                        if pass2 == 1 && m_height < 4 && 0 <= i < 32 {
                            crate::gods::move_helpers::lemma_layer_is_height(state.board, m_height as int, i);
                        }
                        assert(raw_moves.has(i));
                        if m_height == 2 && open_squares.has(i) && is_far_destination(start as int, i) && board.height(i) == 3 {
                            let f0 = choose|f0: int| #[trigger] one_d.has(f0) && sty_step(state.board, f0, m as int);
                            assert(is_adjacent(f0, m as int));
                            assert(is_winning_walk(board, start as int, i, f0, m as int));
                        }
                        assert(new_moves.has(i));
                    }
                }
                assert forall|mm: int, i: int|
                    second_step_done(two_d_climb, two_d_not_climb, pass2 as int, mm) && #[trigger] sty_step(board, mm, i) && !is_win_end(
                        board,
                        start as int,
                        i,
                    ) && (two_d_climb.has(mm) || climbs(board, mm, i)) implies three_d_climb.has(i) by {
                    assert(old_three.has(i));
                }
                assert forall|i: int| #[trigger] three_d_climb.has(i) implies sty_reaches(state.board, start as int, i, true) by {
                    if !old_three.has(i) {
                        assert(sty_step(state.board, m as int, i));
                        if pass2 == 0 {
                            let f = choose|f: int| #[trigger] one_d.has(f) && sty_step(state.board, f, m as int) && (climbs(
                                state.board,
                                start as int,
                                f,
                            ) || climbs(state.board, f, m as int));
                            assert(sty_step(state.board, start as int, f) && sty_step(state.board, f, m as int));
                        } else {
                            let f = choose|f: int| #[trigger] one_d.has(f) && sty_step(state.board, f, m as int);
                            assert(sty_step(state.board, start as int, f) && sty_step(state.board, f, m as int));
                        }
                    }
                }
            }
        }
        proof {
            assert forall|mm: int, i: int|
                second_step_done(two_d_climb, two_d_not_climb, pass2 as int + 1, mm) && #[trigger] sty_step(board, mm, i) && !is_win_end(
                    board,
                    start as int,
                    i,
                ) && (two_d_climb.has(mm) || climbs(board, mm, i)) implies three_d_climb.has(i) by {
                if !second_step_done(two_d_climb, two_d_not_climb, pass2 as int, mm) {
                    assert(source.has(mm));
                    let f0 = choose|f0: int| #[trigger] one_d.has(f0) && sty_step(state.board, f0, mm);
                    assert(is_adjacent(f0, mm));
                    assert(seconds@.contains(mm as u8));
                    let j = choose|j: int| 0 <= j < seconds@.len() && seconds@[j] == mm as u8;
                    assert(sty_step(board, seconds@[j] as int, i));
                }
            }
            assert forall|m: int, e: int|
                second_step_done(two_d_climb, two_d_not_climb, pass2 as int + 1, m) && board.height(m) == 2 && #[trigger] sty_step(board, m, e)
                    && board.height(e) == 3 && is_far_destination(start as int, e) implies lists_win_to(result@, start as int, e) by {
                if !second_step_done(two_d_climb, two_d_not_climb, pass2 as int, m) {
                    assert(source.has(m));
                    let f = choose|f: int| #[trigger] one_d.has(f) && sty_step(state.board, f, m);
                    assert(is_adjacent(f, m));
                    assert(seconds@.contains(m as u8));
                    let j = choose|j: int| 0 <= j < seconds@.len() && seconds@[j] == m as u8;
                    assert(sty_step(board, seconds@[j] as int, e));
                }
            }
        }
        pass2 = pass2 + 1;
    }
    if is_mate_only(flags) {
        return false;
    }
    proof {
        if flags & NARROWING_FLAGS == 0 {
            assert forall|e: int| #[trigger] is_win_end(board, start as int, e) implies lists_win_to(result@, start as int, e) by {
                let (p1, p2) = choose|p1: int, p2: int| #[trigger] is_winning_walk(board, start as int, e, p1, p2);
                if p1 == p2 {
                    assert(is_short_win_end(board, start as int, e));
                } else if one_d.has(p2) {
                    assert(sty_step(board, start as int, p2) && sty_step(board, p2, e) && board.height(p2) == 2);
                    assert(is_short_win_end(board, start as int, e));
                } else if p2 == start {
                    assert(is_adjacent(start as int, e));
                } else {
                    assert(sty_step(board, start as int, p1) && sty_step(board, p1, p2));
                    assert(two_d_climb.has(p2) || two_d_not_climb.has(p2));
                    assert(second_step_done(two_d_climb, two_d_not_climb, 2, p2));
                }
            }
        }
    }
    let ghost pre_finals = result@;
    let worker_final_moves = two_d_climb.or(three_d_climb).and(open_final_destinations);
    let finals = worker_final_moves.squares();
    proof {
        assert forall|k: int| 0 <= k < finals@.len() implies #[trigger] finals@[k] < 25 && is_far_destination(start as int, finals@[k] as int)
            && sty_reaches(state.board, start as int, finals@[k] as int, true) by {
            let e = finals@[k] as int;
            assert(worker_final_moves.has(e));
            if two_d_climb.has(e) {
                let f = choose|f: int| #[trigger] one_d.has(f) && sty_step(state.board, f, e) && (climbs(state.board, start as int, f)
                    || climbs(state.board, f, e));
                assert(sty_step(state.board, start as int, f) && sty_step(state.board, f, e));
            }
        }
    }
    let mut ki: usize = 0;
    while ki < finals.len()
        invariant
            ki <= finals@.len(),
            start_len == old(result)@.len(),
            result@.len() >= pre_finals.len(),
            pre_finals.len() >= start_len,
            forall|k: int| 0 <= k < pre_finals.len() ==> #[trigger] result@[k] == pre_finals[k],
            forall|k: int| 0 <= k < start_len ==> #[trigger] pre_finals[k] == old(result)@[k],
            sty_frame(*state, player, *prelude, open_squares, open_squares_for_builds),
            start < 25,
            is_acting_worker(*state, player, start as int),
            forall|k: int| 0 <= k < finals@.len() ==> #[trigger] finals@[k] < 25 && is_far_destination(start as int, finals@[k] as int)
                && sty_reaches(state.board, start as int, finals@[k] as int, true),
            forall|k: int| 0 <= k < result@.len() ==> #[trigger] is_stymphalians_turn(*state, player, true, result@[k].action.0),
            forall|x: int, b: int|
                0 <= x < ki && 0 <= b < 25 && is_adjacent(finals@[x] as int, b) && open_squares_for_builds.has(b) && flags
                    & crate::generic::INTERACT_WITH_KEY_SQUARES == 0 ==> lists_word(
                    result@,
                    #[trigger] mortal_basic_data(start as u32, finals@[x] as u32, b as u32),
                ),
        decreases finals@.len() - ki,
    {
        let end = finals[ki];
        let ghost before = result@;
        push_walk_builds(flags, state, player, prelude, open_squares_for_builds, start, end, result);
        proof {
            assert forall|k: int| 0 <= k < result@.len() implies #[trigger] is_stymphalians_turn(
                *state,
                player,
                true,
                result@[k].action.0,
            ) by {
                if k < before.len() {
                    assert(result@[k] == before[k]);
                } else {
                    assert(is_walk_build(*state, player, start as int, end as int, result@[k].action.0));
                    lemma_pack3(start as u32, end as u32, field_at(result@[k].action.0, 10));
                }
            }
            lemma_lists_word_grows(before, result@);
            assert forall|x: int, b: int|
                0 <= x < ki + 1 && 0 <= b < 25 && is_adjacent(finals@[x] as int, b) && open_squares_for_builds.has(b) && flags
                    & crate::generic::INTERACT_WITH_KEY_SQUARES == 0 implies lists_word(
                    result@,
                    #[trigger] mortal_basic_data(start as u32, finals@[x] as u32, b as u32),
                ) by {
                if x < ki {
                    assert(lists_word(before, mortal_basic_data(start as u32, finals@[x] as u32, b as u32)));
                }
            }
        }
        ki = ki + 1;
    }
    proof {
        lemma_lists_win_grows(pre_finals, result@);
        if flags & NARROWING_FLAGS == 0 {
            crate::generic::lemma_no_flags(flags);
            assert forall|data: u32|
                #[trigger] is_stymphalians_turn(*state, player, true, data) && field_at(data, 0) == start && !is_winning_data(data)
                    && !is_win_end(state.board, start as int, field_at(data, 5) as int) && sty_climbs_past_wins(
                    state.board,
                    start as int,
                    field_at(data, 5) as int,
                ) implies lists_word(result@, data) by {
                let to = field_at(data, 5) as int;
                let build = field_at(data, 10) as int;
                lemma_climbing_walk_reached(board, start as int, to, one_d, one_d_climbed, two_d_climb, two_d_not_climb, three_d_climb);
                assert(open_squares.has(to));
                assert(open_final_destinations.has(to));
                assert(worker_final_moves.has(to));
                assert(finals@.contains(to as u8));
                let x = choose|x: int| 0 <= x < finals@.len() && finals@[x] == to as u8;
                assert(prelude.build_mask.has(build));
                assert(open_squares_for_builds.has(build));
                assert(lists_word(result@, mortal_basic_data(start as u32, finals@[x] as u32, build as u32)));
            }
        }
    }
    false
}

/// Stymphalians' walks when a climb is owed: the walks that climb somewhere, and the winning ones.
fn stymphalians_vs_persephone(flags: MoveGenFlags, state: &FullGameState, player: Player, key_squares: BitBoard) -> (result: Vec<
    ScoredMove,
>)
    requires
        state.board.wf(),
    ensures
        forall|k: int| 0 <= k < result@.len() ==> #[trigger] is_stymphalians_turn(*state, player, true, result@[k].action.0),
        flags & NARROWING_FLAGS == 0 ==> lists_every_winning_walk(*state, player, result@),
        flags & NARROWING_FLAGS == 0 ==> forall|data: u32| #[trigger] stymphalians_climb_owed(*state, player, data) ==> lists_word(result@, data),
{
    broadcast use group_bit_lemmas;

    let mut result = get_sized_result(flags);
    let prelude = get_generator_prelude_state(state, player, key_squares);
    let open_squares = prelude.all_workers_and_frozen_mask.or(prelude.domes_and_frozen).not();
    let open_squares_for_builds = open_squares.and(prelude.build_mask);
    let workers = prelude.acting_workers.squares();
    let mut wi: usize = 0;
    while wi < workers.len()
        invariant
            wi <= workers@.len(),
            sty_frame(*state, player, prelude, open_squares, open_squares_for_builds),
            forall|i: int| #[trigger] open_squares_for_builds.has(i) == (open_squares.has(i) && prelude.build_mask.has(i)),
            prelude.own_workers.0 == state.board.workers[player.idx()].0 & MAIN_SECTION,
            prelude.other_god.is_hypnus_spec() ==> prelude.acting_workers.0 == crate::gods::hypnus::hypnus_filter_spec(
                state.board.height_map,
                prelude.own_workers.0,
            ),
            !prelude.other_god.is_hypnus_spec() ==> prelude.acting_workers == prelude.own_workers,
            forall|k: int| 0 <= k < workers@.len() ==> #[trigger] workers@[k] < 25 && prelude.acting_workers.has(workers@[k] as int),
            forall|k: int| 0 <= k < result@.len() ==> #[trigger] is_stymphalians_turn(*state, player, true, result@[k].action.0),
            flags & NARROWING_FLAGS == 0 ==> forall|from: int, e: int|
                #[trigger] is_win_end(state.board, from, e) && (exists|j: int| 0 <= j < wi && workers@[j] as int == from) ==> lists_win_to(
                    result@,
                    from,
                    e,
                ),
            flags & NARROWING_FLAGS == 0 ==> forall|data: u32|
                #[trigger] stymphalians_climb_owed(*state, player, data) && (exists|j: int| 0 <= j < wi && workers@[j] as u32 == field_at(data, 0))
                    ==> lists_word(result@, data),
        decreases workers@.len() - wi,
    {
        let start = workers[wi];
        wi = wi + 1;
        proof {
            lemma_prelude_acting(*state, player, prelude.own_workers, prelude.acting_workers, start as int);
        }
        let ghost before = result@;
        let stop = stymphalians_climbing_worker_gen(flags, state, player, &prelude, open_squares, open_squares_for_builds, start, &mut result);
        proof {
            lemma_lists_win_grows(before, result@);
            lemma_lists_word_grows(before, result@);
            if flags & NARROWING_FLAGS == 0 {
                assert forall|data: u32|
                    #[trigger] stymphalians_climb_owed(*state, player, data) && (exists|j: int|
                        0 <= j < wi && workers@[j] as u32 == field_at(data, 0)) implies lists_word(result@, data) by {
                    let j = choose|j: int| 0 <= j < wi && workers@[j] as u32 == field_at(data, 0);
                    if j < wi - 1 {
                        assert(lists_word(before, data));
                    } else {
                        assert(field_at(data, 0) == start);
                    }
                }
                assert forall|from: int, e: int|
                    #[trigger] is_win_end(state.board, from, e) && (exists|j: int| 0 <= j < wi && workers@[j] as int == from) implies lists_win_to(
                        result@,
                        from,
                        e,
                    ) by {
                    let j = choose|j: int| 0 <= j < wi && workers@[j] as int == from;
                    if j < wi - 1 {
                        assert(lists_win_to(before, from, e));
                    }
                }
            }
        }
        if stop {
            return result;
        }
    }
    proof {
        if flags & NARROWING_FLAGS == 0 {
            assert forall|from: int, e: int|
                is_acting_worker(*state, player, from) && #[trigger] is_win_end(state.board, from, e) implies lists_win_to(result@, from, e) by {
                assert(state.board.workers[player.idx()].within_board());
                assert(0 <= from < 25);
                crate::gods::mortal::lemma_acting_in_prelude(*state, player, prelude.own_workers, prelude.acting_workers, from);
                assert(workers@.contains(from as u8));
                let j = choose|j: int| 0 <= j < workers@.len() && workers@[j] == from as u8;
                assert(workers@[j] as int == from);
            }
            assert forall|data: u32| #[trigger] stymphalians_climb_owed(*state, player, data) implies lists_word(result@, data) by {
                let f = field_at(data, 0);
                crate::gods::mortal::lemma_acting_in_prelude(*state, player, prelude.own_workers, prelude.acting_workers, f as int);
                assert(workers@.contains(f as u8));
                let j = choose|j: int| 0 <= j < workers@.len() && workers@[j] == f as u8;
                assert(workers@[j] as u32 == field_at(data, 0));
            }
        }
    }
    result
}

/// What playing a Stymphalians turn needs: the squares are on the board, the worker is the
/// player's, the end is free, and the build is not domed.
pub proof fn lemma_turn_playable(state: FullGameState, player: Player, must_climb: bool, data: u32)
    requires
        state.board.wf(),
        is_stymphalians_turn(state, player, must_climb, data),
    ensures
        field_at(data, 0) < 25,
        field_at(data, 5) < 25,
        field_at(data, 10) < 25,
        state.board.workers[player.idx()].has(field_at(data, 0) as int),
        !state.board.occupied(field_at(data, 5) as int),
        !is_winning_data(data) ==> state.board.height(field_at(data, 10) as int) < 4,
{
    let board = state.board;
    let from = field_at(data, 0) as int;
    let to = field_at(data, 5) as int;
    assert(board.workers[player.idx()].within_board());
    if is_winning_data(data) {
        lemma_pack5(field_at(data, 0), field_at(data, 5), 0, field_at(data, 15), field_at(data, 20));
    } else {
        lemma_pack3(field_at(data, 0), field_at(data, 5), field_at(data, 10));
        if exists|a: int| #[trigger] sty_step(board, from, a) && sty_step(board, a, to) && (must_climb ==> climbs(board, from, a)
            || climbs(board, a, to)) {
            let a = choose|a: int| #[trigger] sty_step(board, from, a) && sty_step(board, a, to) && (must_climb ==> climbs(board, from, a)
                || climbs(board, a, to));
            assert(sty_step(board, a, to));
        } else {
            let (a, b) = choose|a: int, b: int|
                #![trigger sty_step(board, from, a), sty_step(board, a, b)]
                sty_step(board, from, a) && sty_step(board, a, b) && sty_step(board, b, to) && (must_climb ==> climbs(board, from, a)
                    || climbs(board, a, b) || climbs(board, b, to));
            assert(sty_step(board, b, to));
        }
    }
}

/// Stymphalians's fixed data.
pub fn build_stymphalians() -> (r: GodPower)
    ensures
        r.god_name == GodName::Stymphalians,
        r.hash1 == 13160410892805251325u64,
        r.hash2 == 4854231340135741197u64,
        r.placement_type == PlacementType::ThreeWorkers,
        r.symmetry == BoardSymmetry::Full,
        !r.is_persephone,
{
    god_power(GodName::Stymphalians, 13160410892805251325, 4854231340135741197)
        .with_placement_type(PlacementType::ThreeWorkers)
}

} // verus!
