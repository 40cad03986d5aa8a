use vstd::prelude::*;

use crate::bitboard::{apply_neighbor_map_to_mask, bit, group_bit_lemmas, neighbor_mask, perimeter_mask, popcount, BitBoard, MAIN_SECTION};
use crate::board::{BoardState, FullGameState, Player};
use crate::generic::{
    build_scored_move, field_at, is_interact_with_key_squares, is_mate_only, is_stop_on_mate, is_winning_data, read_position,
    GenericMove, MoveData, MoveGenFlags, ScoredMove, ANY_MOVE_FILTER, MOVE_IS_WINNING_MASK, NARROWING_FLAGS,
};
use crate::gods::mortal::{
    is_acting_worker, is_standard_build_for, lemma_lists_word_grows, lemma_mortal_move_round_trip, lemma_prelude_acting,
    lemma_toggle_keeps_wf, lists_word, mortal_basic_data, mortal_winning_data,
};
use crate::gods::move_helpers::{get_generator_prelude_state, get_sized_result, GeneratorPreludeState};
use crate::square::{is_adjacent, is_perimeter, is_square, Square};
use crate::gods::{BoardSymmetry, PlacementType, god_power, GodName, GodPower};

verus! {

/// A Triton turn, laid out as a plain move and build: the start and end of the walk, and the build.
#[derive(Clone, Copy, PartialEq, Eq, Structural, Debug)]
pub struct TritonMove(pub MoveData);

impl TritonMove {
    pub fn new_basic_move(move_from_position: Square, move_to_position: Square, build_position: Square) -> (r: Self)
        requires
            move_from_position < 25,
            move_to_position < 25,
            build_position < 25,
        ensures
            r.0 == (move_from_position as u32) | ((move_to_position as u32) << 5u32) | ((build_position as u32) << 10u32),
    {
        Self((move_from_position as u32) | ((move_to_position as u32) << 5u32) | ((build_position as u32) << 10u32))
    }

    pub fn new_winning_move(move_from_position: Square, move_to_position: Square) -> (r: Self)
        requires
            move_from_position < 25,
            move_to_position < 25,
        ensures
            r.0 == (move_from_position as u32) | ((move_to_position as u32) << 5u32) | MOVE_IS_WINNING_MASK,
    {
        Self((move_from_position as u32) | ((move_to_position as u32) << 5u32) | MOVE_IS_WINNING_MASK)
    }

    pub fn move_from_position(&self) -> (r: Square)
        ensures
            r == field_at(self.0, 0),
            r < 32,
    {
        read_position(self.0, 0)
    }

    pub fn move_to_position(&self) -> (r: Square)
        ensures
            r == field_at(self.0, 5),
            r < 32,
    {
        read_position(self.0, 5)
    }

    pub fn build_position(self) -> (r: Square)
        ensures
            r == field_at(self.0, 10),
            r < 32,
    {
        read_position(self.0, 10)
    }

    /// The start and end squares of the moving worker.
    pub fn move_mask(self) -> (r: BitBoard)
        ensures
            r.0 == (1u32 << field_at(self.0, 0)) ^ (1u32 << field_at(self.0, 5)),
    {
        BitBoard::as_mask(self.move_from_position()).xor(BitBoard::as_mask(self.move_to_position()))
    }

    pub fn get_is_winning(&self) -> (r: bool)
        ensures
            r == is_winning_data(self.0),
    {
        (self.0 & MOVE_IS_WINNING_MASK) != 0
    }
}

/// One step of a Triton walk from `a` to `b`, for the worker that started on `start`: onto a
/// neighbour that is free (the start is free once the walk is under way) and not domed, climbing
/// at most one level, and never the climb from level 2 to level 3, which wins and ends the turn.
pub open spec fn triton_step(board: BoardState, start: int, a: int, b: int) -> bool {
    &&& is_adjacent(a, b)
    &&& !(board.occupied(b) && b != start)
    &&& board.height(b) < 4
    &&& board.height(b) <= board.height(a) + 1
    &&& !(board.height(a) == 2 && board.height(b) == 3)
}

/// Whether `path` is a Triton walk from `start`: each step is a `triton_step`, and every square the
/// walk passes through on the way is on the perimeter.
pub open spec fn is_triton_path(board: BoardState, start: int, path: Seq<int>) -> bool
    decreases path.len(),
{
    if path.len() <= 1 {
        path.len() == 1 && path[0] == start
    } else {
        &&& is_triton_path(board, start, path.drop_last())
        &&& triton_step(board, start, path[path.len() - 2], path.last())
        &&& (path.len() == 2 || is_perimeter(path[path.len() - 2]))
    }
}

/// Whether some step of the walk climbs.
pub open spec fn path_climbs(board: BoardState, path: Seq<int>) -> bool {
    exists|i: int| 1 <= i < path.len() && #[trigger] board.height(path[i]) > board.height(path[i - 1])
}

/// Whether a walk from `start` may stop on `to`, climbing on the way when `climbed` asks for it.
pub open spec fn triton_moves_to(board: BoardState, start: int, to: int, climbed: bool) -> bool {
    exists|path: Seq<int>|
        #[trigger] is_triton_path(board, start, path) && path.len() >= 2 && path.last() == to && (climbed ==> path_climbs(
            board,
            path,
        ))
}

/// Whether a walk from `start` may reach `to` and carry on from there: `to` is the start, or a
/// perimeter square.
pub open spec fn triton_can_extend(board: BoardState, start: int, to: int, climbed: bool) -> bool {
    exists|path: Seq<int>|
        #[trigger] is_triton_path(board, start, path) && path.len() >= 1 && path.last() == to && (path.len() == 1
            || is_perimeter(to)) && (climbed ==> path_climbs(board, path))
}

/// Whether the worker on `start` wins by walking to a level 2 square it may carry on from, and
/// climbing from there onto the level 3 square `w`.
pub open spec fn is_triton_win(board: BoardState, start: int, w: int) -> bool {
    exists|pos: int|
        #[trigger] triton_can_extend(board, start, pos, false) && board.height(pos) == 2 && is_adjacent(pos, w) && !(
        board.occupied(w) && w != start) && board.height(w) == 3
}

/// A legal Triton turn read off its word: a walk ending in a climb from level 2 to level 3; or a
/// walk, climbing somewhere on the way when a climb is owed, then a plain build.
pub open spec fn is_triton_turn(state: FullGameState, player: Player, must_climb: bool, data: u32) -> bool {
    let board = state.board;
    let from = field_at(data, 0);
    let to = field_at(data, 5);
    let build = field_at(data, 10);
    &&& is_acting_worker(state, player, from as int)
    &&& if is_winning_data(data) {
        &&& data == mortal_winning_data(from, to)
        &&& is_triton_win(board, from as int, to as int)
    } else {
        &&& data == mortal_basic_data(from, to, build)
        &&& triton_moves_to(board, from as int, to as int, must_climb)
        &&& is_standard_build_for(state, player, from as int, to as int, build as int)
    }
}

/// A turn owed a climb is a turn.
pub proof fn lemma_triton_climb_is_turn(state: FullGameState, player: Player, data: u32)
    ensures
        is_triton_turn(state, player, true, data) ==> is_triton_turn(state, player, false, data),
{
    if is_triton_turn(state, player, true, data) && !is_winning_data(data) {
        let board = state.board;
        let from = field_at(data, 0) as int;
        let to = field_at(data, 5) as int;
        let path = choose|path: Seq<int>|
            #[trigger] is_triton_path(board, from, path) && path.len() >= 2 && path.last() == to && path_climbs(board, path);
        assert(is_triton_path(board, from, path) && path.len() >= 2 && path.last() == to);
    }
}

/// A walk extended by one more step from a square it may carry on from is a walk, and climbs when
/// the walk did or the step does.
proof fn lemma_triton_extend(board: BoardState, start: int, path: Seq<int>, s: int)
    requires
        is_triton_path(board, start, path),
        path.len() >= 1,
        triton_step(board, start, path.last(), s),
        path.len() == 1 || is_perimeter(path.last()),
    ensures
        is_triton_path(board, start, path.push(s)),
        path.push(s).len() >= 2,
        path.push(s).last() == s,
        path_climbs(board, path.push(s)) == (path_climbs(board, path) || board.height(s) > board.height(path.last())),
{
    let longer = path.push(s);
    assert(longer.drop_last() =~= path);
    assert(longer[longer.len() - 2] == path.last());
    if path_climbs(board, path) {
        let i = choose|i: int| 1 <= i < path.len() && #[trigger] board.height(path[i]) > board.height(path[i - 1]);
        assert(longer[i] == path[i] && longer[i - 1] == path[i - 1]);
        assert(board.height(longer[i]) > board.height(longer[i - 1]));
    }
    if board.height(s) > board.height(path.last()) {
        let i = path.len() as int;
        assert(board.height(longer[i]) > board.height(longer[i - 1]));
    }
    if path_climbs(board, longer) {
        let i = choose|i: int| 1 <= i < longer.len() && #[trigger] board.height(longer[i]) > board.height(longer[i - 1]);
        if i < path.len() {
            assert(longer[i] == path[i] && longer[i - 1] == path[i - 1]);
            assert(board.height(path[i]) > board.height(path[i - 1]));
        }
    }
}

/// Where a walk may stop, the worker may stand: the square is free but for the walker.
proof fn lemma_triton_destination(board: BoardState, start: int, to: int, climbed: bool)
    requires
        triton_moves_to(board, start, to, climbed),
    ensures
        is_square(to),
        !(board.occupied(to) && to != start),
{
    let path = choose|path: Seq<int>|
        #[trigger] is_triton_path(board, start, path) && path.len() >= 2 && path.last() == to && (climbed ==> path_climbs(
            board,
            path,
        ));
    assert(triton_step(board, start, path[path.len() - 2], path.last()));
}

/// Whether a step from `s` to `t` lands the walk in the climbed layer: once it has climbed, or
/// when a climb is owed and this step climbs.
pub open spec fn triton_lands_climbed(board: BoardState, must_climb: bool, c: bool, s: int, t: int) -> bool {
    c || (must_climb && board.height(t) > board.height(s))
}

/// Every step of a walk from `s`, in layer `c`, has been recorded in its layer, and from level 2
/// every climb onto level 3 has been taken as a win.
pub open spec fn triton_expanded(
    board: BoardState,
    start: int,
    must_climb: bool,
    c: bool,
    s: int,
    dest0: BitBoard,
    dest1: BitBoard,
    emitted: BitBoard,
) -> bool {
    &&& forall|t: int|
        #[trigger] triton_step(board, start, s, t) ==> (if triton_lands_climbed(board, must_climb, c, s, t) {
            dest1.has(t)
        } else {
            dest0.has(t)
        })
    &&& board.height(s) == 2 ==> forall|w: int|
        #[trigger] is_adjacent(s, w) && !(board.occupied(w) && w != start) && board.height(w) == 3 ==> emitted.has(w)
}

/// Recording more keeps a square expanded.
proof fn lemma_expanded_grows(
    board: BoardState,
    start: int,
    must_climb: bool,
    c: bool,
    s: int,
    dest0: BitBoard,
    dest1: BitBoard,
    emitted: BitBoard,
    dest0b: BitBoard,
    dest1b: BitBoard,
    emittedb: BitBoard,
)
    requires
        triton_expanded(board, start, must_climb, c, s, dest0, dest1, emitted),
        forall|i: int| #[trigger] dest0.has(i) ==> dest0b.has(i),
        forall|i: int| #[trigger] dest1.has(i) ==> dest1b.has(i),
        forall|i: int| #[trigger] emitted.has(i) ==> emittedb.has(i),
    ensures
        triton_expanded(board, start, must_climb, c, s, dest0b, dest1b, emittedb),
{
}

/// A walk's squares are recorded in the layer its climbs so far put them in, once every recorded
/// square the walk may carry on from is expanded.
proof fn lemma_triton_closure(
    board: BoardState,
    start: int,
    must_climb: bool,
    seen0: BitBoard,
    seen1: BitBoard,
    dest0: BitBoard,
    dest1: BitBoard,
    emitted: BitBoard,
    path: Seq<int>,
)
    requires
        seen0.has(start),
        forall|s: int| #[trigger] seen0.has(s) && (s == start || is_perimeter(s)) ==> triton_expanded(board, start, must_climb, false, s, dest0, dest1, emitted),
        forall|s: int| #[trigger] seen1.has(s) && is_perimeter(s) ==> triton_expanded(board, start, must_climb, true, s, dest0, dest1, emitted),
        forall|i: int| #[trigger] dest0.has(i) ==> seen0.has(i),
        forall|i: int| #[trigger] dest1.has(i) ==> seen1.has(i),
        is_triton_path(board, start, path),
        path.len() >= 1,
    ensures
        if must_climb && path_climbs(board, path) {
            seen1.has(path.last()) && (path.len() >= 2 ==> dest1.has(path.last()))
        } else {
            seen0.has(path.last()) && (path.len() >= 2 ==> dest0.has(path.last()))
        },
    decreases path.len(),
{
    if path.len() == 1 {
        assert(!path_climbs(board, path));
    } else {
        let prev = path.drop_last();
        lemma_triton_closure(board, start, must_climb, seen0, seen1, dest0, dest1, emitted, prev);
        let p = prev.last();
        let t = path.last();
        assert(path =~= prev.push(t));
        assert(path[path.len() - 2] == p);
        assert(triton_step(board, start, p, t));
        if prev.len() == 1 {
            assert(p == start);
            assert(!path_climbs(board, prev));
        } else {
            assert(is_perimeter(p));
        }
        lemma_triton_extend(board, start, prev, t);
        let cp = must_climb && path_climbs(board, prev);
        if cp {
            assert(triton_expanded(board, start, must_climb, true, p, dest0, dest1, emitted));
        } else {
            assert(triton_expanded(board, start, must_climb, false, p, dest0, dest1, emitted));
        }
    }
}

/// A count of bits never drops when bits are added, and rises when one is.
pub proof fn lemma_popcount_grows(x: u32, y: u32, n: nat)
    requires
        n <= 32,
        forall|i: u32| i < n && #[trigger] bit(x, i) ==> bit(y, i),
    ensures
        popcount(x, n) <= popcount(y, n),
        (exists|i: u32| i < n && #[trigger] bit(y, i) && !bit(x, i)) ==> popcount(x, n) < popcount(y, n),
    decreases n,
{
    if n > 0 {
        lemma_popcount_grows(x, y, (n - 1) as nat);
        if exists|i: u32| i < n && #[trigger] bit(y, i) && !bit(x, i) {
            let i = choose|i: u32| i < n && #[trigger] bit(y, i) && !bit(x, i);
            if i < n - 1 {
                assert(exists|j: u32| j < (n - 1) as nat && #[trigger] bit(y, j) && !bit(x, j));
            }
        }
    }
}

/// At most `n` bits among the first `n`.
pub proof fn lemma_popcount_at_most(x: u32, n: nat)
    ensures
        popcount(x, n) <= n,
    decreases n,
{
    if n > 0 {
        lemma_popcount_at_most(x, (n - 1) as nat);
    }
}

/// What playing a Triton turn needs, read off the turn.
pub proof fn lemma_triton_turn_playable(state: FullGameState, player: Player, data: u32)
    requires
        state.board.wf(),
        is_triton_turn(state, player, false, data),
    ensures
        field_at(data, 0) < 25,
        field_at(data, 5) < 25,
        state.board.workers[player.idx()].has(field_at(data, 0) as int),
        !state.board.workers[1 - player.idx()].has(field_at(data, 5) as int),
        !is_winning_data(data) ==> field_at(data, 10) < 25 && state.board.height(field_at(data, 10) as int) < 4,
{
    let board = state.board;
    let from = field_at(data, 0) as int;
    let to = field_at(data, 5) as int;
    assert(board.workers[player.idx()].within_board());
    assert(!(board.workers[0].has(from) && board.workers[1].has(from)));
    if !is_winning_data(data) {
        lemma_triton_destination(board, from, to, false);
    }
}

impl TritonMove {
    /// Plays the turn: the worker moves to the end of its walk (staying put when the walk came
    /// back), then wins or builds.
    pub fn make_move(self, board: &mut BoardState, player: Player)
        requires
            old(board).wf(),
            field_at(self.0, 0) < 25,
            field_at(self.0, 5) < 25,
            old(board).workers[player.idx()].has(field_at(self.0, 0) as int),
            !old(board).workers[1 - player.idx()].has(field_at(self.0, 5) as int),
            !is_winning_data(self.0) ==> field_at(self.0, 10) < 25 && old(board).height(field_at(self.0, 10) as int) < 4,
        ensures
            final(board).wf(),
            final(board).current_player == old(board).current_player,
            final(board).god_data == old(board).god_data,
            final(board).workers[1 - player.idx()] == old(board).workers[1 - player.idx()],
            final(board).workers[player.idx()].0 == old(board).workers[player.idx()].0 ^ ((1u32 << field_at(self.0, 0)) ^ (1u32
                << field_at(self.0, 5))),
            is_winning_data(self.0) ==> final(board).winner == Some(player) && final(board).height_map == old(board).height_map,
            !is_winning_data(self.0) ==> final(board).winner == old(board).winner,
            !is_winning_data(self.0) ==> forall|i: int| #[trigger] final(board).height(i) == (if i == field_at(self.0, 10) {
                old(board).height(i) + 1
            } else {
                old(board).height(i)
            }),
    {
        broadcast use group_bit_lemmas;

        let ghost before = *board;
        let ghost p = player.idx();
        let mask = self.move_mask();
        proof {
            assert(before.workers[p].within_board());
            assert(!(before.workers[0].has(field_at(self.0, 0) as int) && before.workers[1].has(field_at(self.0, 0) as int)));
        }
        board.worker_xor(player, mask);
        proof {
            lemma_toggle_keeps_wf(before, *board, p, mask.0);
        }
        if self.get_is_winning() {
            board.set_winner(player);
            return;
        }
        board.build_up(self.build_position());
    }

    pub fn to_generic(self) -> (r: GenericMove)
        ensures
            r.0 == self.0,
    {
        GenericMove(self.0)
    }
}

/// The perimeter squares.
fn perimeter_squares() -> (r: BitBoard)
    ensures
        forall|i: int| #[trigger] r.has(i) == is_perimeter(i),
{
    let r = perimeter_mask();
    proof {
        assert forall|i: int| #[trigger] r.has(i) == is_perimeter(i) by {
            if 0 <= i < 32 {
                crate::gods::jason::lemma_perimeter_bit(i);
            }
        }
    }
    r
}

/// A step of the walk the blocker board follows, on the board alone: onto a neighbour that no
/// blocker holds, at most one level up and never above level 3.
pub open spec fn chain_step(board: BoardState, blockers: BitBoard, a: int, b: int) -> bool {
    &&& is_adjacent(a, b)
    &&& !blockers.has(b)
    &&& board.height(b) <= board.height(a) + 1
    &&& board.height(b) <= 3
}

/// A set of squares closed under chain steps taken from the start or from a perimeter square.
pub open spec fn is_chain_closed(board: BoardState, blockers: BitBoard, start: int, r: BitBoard) -> bool {
    forall|x: int, b: int|
        #![trigger r.has(x), chain_step(board, blockers, x, b)]
        r.has(x) && (x == start || is_perimeter(x)) && chain_step(board, blockers, x, b) ==> r.has(b)
}

/// Every square a walk starting on `worker_pos` can pass over or stop on, using the board alone:
/// plain adjacency, climbing at most one level, and the perimeter rule for carrying on.
fn get_chain_reachable_squares(board: &BoardState, worker_pos: Square, blockers: BitBoard) -> (r: BitBoard)
    requires
        worker_pos < 25,
        board.wf(),
    ensures
        r.has(worker_pos as int),
        is_chain_closed(*board, blockers, worker_pos as int, r),
{
    broadcast use group_bit_lemmas;

    let open = blockers.not().and(BitBoard::main_section());
    let perimeter = perimeter_squares();
    let mut reached = BitBoard::as_mask(worker_pos);
    let mut frontier = reached;
    let mut rounds: u32 = 0;
    proof {
        assert(bit(reached.0, worker_pos as u32));
        lemma_popcount_grows(0u32, reached.0, 25);
    }
    while frontier.is_not_empty() && rounds < 25
        invariant
            worker_pos < 25,
            board.wf(),
            reached.has(worker_pos as int),
            forall|i: int| #[trigger] perimeter.has(i) == is_perimeter(i),
            forall|i: int| #[trigger] open.has(i) == (!blockers.has(i) && is_square(i)),
            forall|i: int| #[trigger] frontier.has(i) ==> is_square(i) && reached.has(i) && (i == worker_pos || is_perimeter(i)),
            forall|i: int| #[trigger] reached.has(i) ==> is_square(i),
            forall|x: int, b: int|
                #![trigger reached.has(x), chain_step(*board, blockers, x, b)]
                reached.has(x) && (x == worker_pos || is_perimeter(x)) && !frontier.has(x) && chain_step(*board, blockers, x, b)
                    ==> reached.has(b),
            frontier.0 != 0 ==> rounds + 1 <= popcount(reached.0, 25),
        decreases 25 - rounds,
    {
        let mut next = BitBoard::empty();
        let positions = frontier.squares();
        let mut k: usize = 0;
        while k < positions.len()
            invariant
                k <= positions@.len(),
                board.wf(),
                forall|j: int| 0 <= j < positions@.len() ==> #[trigger] positions@[j] < 25,
                forall|i: int| #[trigger] open.has(i) == (!blockers.has(i) && is_square(i)),
                forall|i: int| #[trigger] next.has(i) ==> is_square(i) && !reached.has(i),
                forall|j: int, b: int|
                    #![trigger positions@[j], chain_step(*board, blockers, positions@[j] as int, b)]
                    0 <= j < k && chain_step(*board, blockers, positions@[j] as int, b) ==> reached.has(b) || next.has(b),
            decreases positions@.len() - k,
        {
            let pos = positions[k];
            k = k + 1;
            let height = board.get_height(pos);
            let cap = if height + 1 < 3 {
                height + 1
            } else {
                3
            };
            let steps = neighbor_mask(pos).and(open).minus(board.height_map[cap]);
            let prev = next;
            next = next.or(steps.minus(reached));
            proof {
                assert forall|j: int, b: int|
                    #![trigger positions@[j], chain_step(*board, blockers, positions@[j] as int, b)]
                    0 <= j < k && chain_step(*board, blockers, positions@[j] as int, b) implies reached.has(b) || next.has(b) by {
                    if j == k - 1 {
                        assert(!board.height_map[cap as int].has(b));
                        assert(steps.has(b));
                    } else {
                        assert(reached.has(b) || prev.has(b));
                    }
                }
            }
        }
        let old_reached = reached;
        let old_frontier = frontier;
        reached = reached.or(next);
        frontier = next.and(perimeter);
        proof {
            assert forall|x: int, b: int|
                #![trigger reached.has(x), chain_step(*board, blockers, x, b)]
                reached.has(x) && (x == worker_pos || is_perimeter(x)) && !frontier.has(x) && chain_step(*board, blockers, x, b)
                    implies reached.has(b) by {
                if old_reached.has(x) {
                    if old_frontier.has(x) {
                        assert(positions@.contains(x as u8));
                        let j = choose|j: int| 0 <= j < positions@.len() && positions@[j] == x as u8;
                        assert(positions@[j] as int == x);
                        assert(old_reached.has(b) || next.has(b));
                    } else {
                        assert(old_reached.has(b));
                    }
                } else {
                    assert(next.has(x));
                    assert(x != worker_pos);
                    assert(perimeter.has(x));
                    assert(frontier.has(x));
                }
            }
            if frontier.0 != 0 {
                crate::bitboard::lemma_nonzero_has_bit(frontier.0);
                let w = choose|i: u32| i < 32 && #[trigger] bit(frontier.0, i);
                assert(frontier.has(w as int));
                assert(next.has(w as int));
                assert(!old_reached.has(w as int));
                assert forall|i: u32| i < 25 && #[trigger] bit(old_reached.0, i) implies bit(reached.0, i) by {
                    assert(old_reached.has(i as int));
                    assert(reached.has(i as int));
                }
                assert(reached.has(w as int));
                assert(bit(reached.0, w) && !bit(old_reached.0, w));
                lemma_popcount_grows(old_reached.0, reached.0, 25);
            }
        }
        rounds = rounds + 1;
    }
    proof {
        if frontier.0 != 0 {
            lemma_popcount_at_most(reached.0, 25);
        }
    }
    reached
}

/// A closed set of squares that holds the start holds every square of a Triton walk from it.
proof fn lemma_chain_holds_walk(board: BoardState, start: int, blockers: BitBoard, r: BitBoard, path: Seq<int>)
    requires
        board.wf(),
        path.len() >= 1,
        is_triton_path(board, start, path),
        r.has(start),
        is_chain_closed(board, blockers, start, r),
        forall|i: int| #[trigger] blockers.has(i) ==> (board.occupied(i) || board.height(i) == 4) && i != start,
    ensures
        forall|k: int| 0 <= k < path.len() ==> #[trigger] r.has(path[k]),
    decreases path.len(),
{
    if path.len() > 1 {
        let prefix = path.drop_last();
        lemma_chain_holds_walk(board, start, blockers, r, prefix);
        let a = path[path.len() - 2];
        let b = path.last();
        assert(prefix[prefix.len() - 1] == a);
        assert(r.has(a));
        if path.len() == 2 {
            assert(prefix.len() == 1);
            assert(is_triton_path(board, start, prefix));
            assert(prefix[0] == start);
            assert(a == prefix[0]);
        }
        assert(chain_step(board, blockers, a, b));
        assert forall|k: int| 0 <= k < path.len() implies #[trigger] r.has(path[k]) by {
            if k < path.len() - 1 {
                assert(path[k] == prefix[k]);
            }
        }
    }
}

impl TritonMove {
    /// The squares an opponent would have to touch to stop this move: its start and end, and every
    /// perimeter square a walk from the start could pass over.
    pub fn get_blocker_board(self, board: &BoardState) -> (r: BitBoard)
        requires
            board.wf(),
            field_at(self.0, 0) < 25,
            field_at(self.0, 5) < 25,
        ensures
            r.has(field_at(self.0, 0) as int),
            r.has(field_at(self.0, 5) as int),
            forall|i: int| #[trigger] r.has(i) ==> i == field_at(self.0, 0) || i == field_at(self.0, 5) || is_perimeter(i),
            forall|path: Seq<int>, k: int|
                #![trigger is_triton_path(*board, field_at(self.0, 0) as int, path), path[k]]
                is_triton_path(*board, field_at(self.0, 0) as int, path) && 0 <= k < path.len() && is_perimeter(path[k]) ==> r.has(
                    path[k],
                ),
    {
        broadcast use group_bit_lemmas;

        let from = self.move_from_position();
        let to = self.move_to_position();
        let blockers = board.workers[0].or(board.workers[1]).or(board.at_least_level_4()).minus(BitBoard::as_mask(from));
        let reachable = get_chain_reachable_squares(board, from, blockers);
        let perimeter = perimeter_squares();
        let r = BitBoard::as_mask(from).or(BitBoard::as_mask(to)).or(reachable.and(perimeter));
        proof {
            assert forall|path: Seq<int>, k: int|
                #![trigger is_triton_path(*board, field_at(self.0, 0) as int, path), path[k]]
                is_triton_path(*board, field_at(self.0, 0) as int, path) && 0 <= k < path.len() && is_perimeter(path[k]) implies r.has(
                    path[k],
                ) by {
                lemma_chain_holds_walk(*board, from as int, blockers, reachable, path);
                assert(reachable.has(path[k]));
                assert(perimeter.has(path[k]));
            }
        }
        r
    }
}

/// The squares a worker standing on each height may step onto: at most one level up, never a dome,
/// nor down where the opposing god forbids it.
fn get_step_masks(prelude: &GeneratorPreludeState) -> (r: [BitBoard; 4])
    requires
        prelude.inv(),
    ensures
        forall|h: int, i: int|
            0 <= h < 4 && is_square(i) ==> (#[trigger] r[h].has(i) == (prelude.board.height(i) <= h + 1 && prelude.board.height(i) < 4)),
{
    let hm = prelude.board.height_map;
    let r = if prelude.is_down_prevented {
        [hm[1].not(), hm[0].minus(hm[2]), hm[1].minus(hm[3]), hm[2].minus(hm[3])]
    } else if prelude.can_climb {
        [hm[1].not(), hm[2].not(), hm[3].not(), hm[3].not()]
    } else {
        [hm[0].not(), hm[1].not(), hm[2].not(), hm[3].not()]
    };
    r
}

/// A build that the null move of an acting worker before `from` (in square order) already
/// offers: a worker not on a dome that may walk back to where it started, without winning there.
pub open spec fn triton_null_build_taken(state: FullGameState, player: Player, must_climb: bool, from: int, build: int) -> bool {
    exists|w: int|
        0 <= w < from && #[trigger] is_acting_worker(state, player, w) && state.board.height(w) < 4 && triton_moves_to(
            state.board,
            w,
            w,
            must_climb,
        ) && !is_triton_win(state.board, w, w) && is_standard_build_for(state, player, w, w, build)
}

/// The turns owed for a given demand to climb: every turn of a worker not on a dome, except a walk
/// ending where the worker could win instead, and a null move whose build an earlier worker's
/// null move already offers.
pub open spec fn triton_walk_owed(state: FullGameState, player: Player, must_climb: bool, data: u32) -> bool {
    let from = field_at(data, 0) as int;
    let to = field_at(data, 5) as int;
    let build = field_at(data, 10) as int;
    &&& is_triton_turn(state, player, must_climb, data)
    &&& state.board.height(from) < 4
    &&& !is_winning_data(data) ==> !is_triton_win(state.board, from, to) && !(to == from && triton_null_build_taken(
        state,
        player,
        must_climb,
        from,
        build,
    ))
}

/// Whether no turn of `player` climbs.
pub open spec fn no_climbing_turn(state: FullGameState, player: Player) -> bool {
    forall|d: u32| !#[trigger] is_triton_turn(state, player, true, d)
}

/// The turns the generator owes: away from Persephone, or against her when no turn climbs, every
/// walk owed.
pub open spec fn triton_turn_owed(state: FullGameState, player: Player, data: u32) -> bool {
    (!state.gods[1 - player.idx()].is_persephone_spec() || no_climbing_turn(state, player)) && triton_walk_owed(
        state,
        player,
        false,
        data,
    )
}

/// Persephone's rule on a list of Triton turns: when a climbing turn is owed, every listed turn
/// climbs.
pub open spec fn keeps_persephone_rule(state: FullGameState, player: Player, r: Seq<ScoredMove>) -> bool {
    (exists|d: u32| #[trigger] triton_walk_owed(state, player, true, d)) ==> forall|k: int|
        0 <= k < r.len() ==> #[trigger] is_triton_turn(state, player, true, r[k].action.0)
}

/// The builds that the null moves of the first `n` workers of `ws` offer include `build`.
pub open spec fn triton_null_offered_by(state: FullGameState, player: Player, must_climb: bool, ws: Seq<u8>, n: int, build: int) -> bool {
    exists|j: int|
        0 <= j < n && #[trigger] ws[j] < 25 && state.board.height(ws[j] as int) < 4 && triton_moves_to(
            state.board,
            ws[j] as int,
            ws[j] as int,
            must_climb,
        ) && !is_triton_win(state.board, ws[j] as int, ws[j] as int) && is_standard_build_for(
            state,
            player,
            ws[j] as int,
            ws[j] as int,
            build,
        )
}

/// Triton's move generator. Each worker walks, stepping again whenever it lands on the perimeter;
/// a climb from level 2 to level 3 anywhere on the walk wins. Every other square the walk may stop
/// on, the start included, is offered with each build; two workers that both stay put do not
/// offer the same build twice. Against Persephone a climb owed may come anywhere on the walk.
pub fn triton_move_gen(
    flags: MoveGenFlags,
    state: &FullGameState,
    player: Player,
    key_squares: BitBoard,
    must_climb: bool,
) -> (result: Vec<ScoredMove>)
    requires
        state.board.wf(),
    ensures
        forall|k: int| 0 <= k < result@.len() ==> #[trigger] is_triton_turn(*state, player, must_climb, result@[k].action.0),
        flags & NARROWING_FLAGS == 0 && (must_climb || !state.gods[1 - player.idx()].is_persephone_spec()
            || no_climbing_turn(*state, player)) ==> forall|data: u32|
            #[trigger] triton_walk_owed(*state, player, must_climb, data) ==> lists_word(result@, data),
        flags & NARROWING_FLAGS == 0 && state.gods[1 - player.idx()].is_persephone_spec() && !must_climb ==> keeps_persephone_rule(
            *state,
            player,
            result@,
        ),
    decreases if must_climb {
        0int
    } else {
        1int
    },
{
    broadcast use group_bit_lemmas;

    proof {
        crate::generic::lemma_no_flags(flags);
    }
    let mut result = if state.gods[player.other().index()].is_persephone() && !must_climb {
        let climbing = triton_move_gen(flags, state, player, key_squares, true);
        proof {
            assert forall|k: int| 0 <= k < climbing@.len() implies #[trigger] is_triton_turn(
                *state,
                player,
                must_climb,
                climbing@[k].action.0,
            ) by {
                lemma_triton_climb_is_turn(*state, player, climbing@[k].action.0);
            }
        }
        if climbing.len() > 0 {
            proof {
                assert(is_triton_turn(*state, player, true, climbing@[0].action.0));
            }
            return climbing;
        }
        proof {
            if flags & NARROWING_FLAGS == 0 {
                assert forall|d: u32| !#[trigger] triton_walk_owed(*state, player, true, d) by {
                    if triton_walk_owed(*state, player, true, d) {
                        assert(lists_word(climbing@, d));
                    }
                }
            }
        }
        if flags & ANY_MOVE_FILTER > 0 {
            let unrestricted = triton_move_gen(0, state, player, key_squares, true);
            if unrestricted.len() > 0 {
                return climbing;
            }
        }
        climbing
    } else {
        get_sized_result(flags)
    };
    let prelude = get_generator_prelude_state(state, player, key_squares);
    let all_blockers = prelude.all_workers_and_frozen_mask.or(prelude.domes_and_frozen);
    let step_masks = get_step_masks(&prelude);
    let all_win_targets = prelude.exactly_level_3.and(prelude.win_mask);
    if is_mate_only(flags) {
        let springboards = apply_neighbor_map_to_mask(all_win_targets).and(prelude.exactly_level_2).minus(prelude.domes_and_frozen);
        if springboards.is_empty() {
            return result;
        }
    }
    assert(flags & NARROWING_FLAGS == 0 && state.gods[1 - player.idx()].is_persephone_spec() && !must_climb ==> forall|d: u32|
        !#[trigger] triton_walk_owed(*state, player, true, d));
    let mut null_move_builds = BitBoard::empty();
    let workers = prelude.acting_workers.squares();
    proof {
        crate::bitboard::lemma_squares_below(prelude.acting_workers.0, 25);
    }
    let mut wi: usize = 0;
    while wi < workers.len()
        invariant
            wi <= workers@.len(),
            forall|x: int, y: int| 0 <= x < y < workers@.len() ==> workers@[x] < workers@[y],
            forall|sq: int| 0 <= sq < 25 && prelude.acting_workers.has(sq) ==> workers@.contains(sq as u8),
            flags & NARROWING_FLAGS == 0 && state.gods[1 - player.idx()].is_persephone_spec() && !must_climb ==> forall|d: u32|
                !#[trigger] triton_walk_owed(*state, player, true, d),
            flags & NARROWING_FLAGS == 0 ==> forall|b: int| #[trigger] null_move_builds.has(b) ==> triton_null_offered_by(
                *state,
                player,
                must_climb,
                workers@,
                wi as int,
                b,
            ),
            flags & NARROWING_FLAGS == 0 ==> forall|data: u32|
                #[trigger] triton_walk_owed(*state, player, must_climb, data) && (exists|j: int| 0 <= j < wi && workers@[j] as u32 == field_at(data, 0))
                    ==> lists_word(result@, data),
            state.board.wf(),
            prelude.inv(),
            prelude.board == state.board,
            prelude.player == player,
            prelude.other_god == state.gods[1 - player.idx()],
            prelude.own_workers.0 == state.board.workers[player.idx()].0 & MAIN_SECTION,
            prelude.other_god.is_hypnus_spec() ==> prelude.acting_workers.0 == crate::gods::hypnus::hypnus_filter_spec(
                state.board.height_map,
                prelude.own_workers.0,
            ),
            !prelude.other_god.is_hypnus_spec() ==> prelude.acting_workers == prelude.own_workers,
            forall|i: int| #[trigger] all_blockers.has(i) == (state.board.occupied(i) || (is_square(i) && state.board.height(i) == 4)),
            forall|h: int, i: int|
                0 <= h < 4 && is_square(i) ==> (#[trigger] step_masks[h].has(i) == (state.board.height(i) <= h + 1
                    && state.board.height(i) < 4)),
            forall|i: int| #[trigger] all_win_targets.has(i) == (is_square(i) && state.board.height(i) == 3),
            forall|k: int| 0 <= k < workers@.len() ==> #[trigger] workers@[k] < 25 && prelude.acting_workers.has(workers@[k] as int),
            forall|k: int| 0 <= k < result@.len() ==> #[trigger] is_triton_turn(*state, player, must_climb, result@[k].action.0),
        decreases workers@.len() - wi,
    {
        let worker_start_pos = workers[wi];
        wi = wi + 1;
        proof {
            lemma_prelude_acting(*state, player, prelude.own_workers, prelude.acting_workers, worker_start_pos as int);
        }
        let ghost before = result@;
        let ghost null_before = null_move_builds;
        let stop = add_triton_walks(
            flags,
            state,
            player,
            must_climb,
            &prelude,
            &mut result,
            worker_start_pos,
            all_blockers,
            step_masks,
            all_win_targets,
            &mut null_move_builds,
        );
        proof {
            lemma_lists_word_grows(before, result@);
            if flags & NARROWING_FLAGS == 0 {
                assert forall|b: int| #[trigger] null_move_builds.has(b) implies triton_null_offered_by(
                    *state,
                    player,
                    must_climb,
                    workers@,
                    wi as int,
                    b,
                ) by {
                    if null_before.has(b) {
                        let j = choose|j: int|
                            0 <= j < wi - 1 && #[trigger] workers@[j] < 25 && state.board.height(workers@[j] as int) < 4 && triton_moves_to(
                                state.board,
                                workers@[j] as int,
                                workers@[j] as int,
                                must_climb,
                            ) && !is_triton_win(state.board, workers@[j] as int, workers@[j] as int) && is_standard_build_for(
                                *state,
                                player,
                                workers@[j] as int,
                                workers@[j] as int,
                                b,
                            );
                        assert(workers@[j] < 25);
                    } else {
                        assert(workers@[wi - 1] < 25);
                    }
                }
                assert forall|data: u32|
                    #[trigger] triton_walk_owed(*state, player, must_climb, data) && (exists|j: int|
                        0 <= j < wi && workers@[j] as u32 == field_at(data, 0)) implies lists_word(result@, data) by {
                    let j = choose|j: int| 0 <= j < wi && workers@[j] as u32 == field_at(data, 0);
                    if j < wi - 1 {
                        assert(lists_word(before, data));
                    } else {
                        let from = field_at(data, 0) as int;
                        let to = field_at(data, 5) as int;
                        let b = field_at(data, 10) as int;
                        assert(from == worker_start_pos);
                        if !is_winning_data(data) {
                            if to == from && null_before.has(b) {
                                let jj = choose|jj: int|
                                    0 <= jj < wi - 1 && #[trigger] workers@[jj] < 25 && state.board.height(workers@[jj] as int) < 4
                                        && triton_moves_to(state.board, workers@[jj] as int, workers@[jj] as int, must_climb) && !is_triton_win(
                                        state.board,
                                        workers@[jj] as int,
                                        workers@[jj] as int,
                                    ) && is_standard_build_for(*state, player, workers@[jj] as int, workers@[jj] as int, b);
                                let w = workers@[jj] as int;
                                assert(workers@[jj] < workers@[wi - 1]);
                                lemma_prelude_acting(*state, player, prelude.own_workers, prelude.acting_workers, w);
                                assert(triton_null_build_taken(*state, player, must_climb, from, b));
                            }
                            assert(triton_moves_to(state.board, from, to, must_climb));
                            assert(is_standard_build_for(*state, player, from, to, b));
                            assert(data == mortal_basic_data(from as u32, to as u32, b as u32));
                        } else {
                            assert(data == mortal_winning_data(from as u32, to as u32));
                        }
                    }
                }
            }
        }
        if stop {
            return result;
        }
    }
    proof {
        if flags & NARROWING_FLAGS == 0 {
            assert forall|data: u32| #[trigger] triton_walk_owed(*state, player, must_climb, data) implies lists_word(result@, data) by {
                let f = field_at(data, 0);
                assert(state.board.workers[player.idx()].within_board());
                crate::gods::mortal::lemma_acting_in_prelude(*state, player, prelude.own_workers, prelude.acting_workers, f as int);
                assert(workers@.contains(f as u8));
                let j = choose|j: int| 0 <= j < workers@.len() && workers@[j] == f as u8;
                assert(workers@[j] as u32 == field_at(data, 0));
            }
        }
    }
    result
}

/// The null-move builds after the worker on `start`: those of the workers before, and, when the
/// worker may walk back to where it started, every build around it.
pub open spec fn triton_null_builds_after(state: FullGameState, player: Player, must_climb: bool, start: int, before: BitBoard, b: int) -> bool {
    before.has(b) || (triton_moves_to(state.board, start, start, must_climb) && !is_triton_win(state.board, start, start)
        && is_standard_build_for(state, player, start, start, b))
}

/// The walks of the worker on `worker_start_pos`: pushes its wins, and unless only wins are asked
/// for, its moves and builds. Returns true when generation should stop on a win.
#[verifier::rlimit(80)]
fn add_triton_walks(
    flags: MoveGenFlags,
    state: &FullGameState,
    player: Player,
    must_climb: bool,
    prelude: &GeneratorPreludeState,
    result: &mut Vec<ScoredMove>,
    worker_start_pos: Square,
    all_blockers: BitBoard,
    step_masks: [BitBoard; 4],
    all_win_targets: BitBoard,
    null_move_builds: &mut BitBoard,
) -> (stop: bool)
    requires
        state.board.wf(),
        prelude.inv(),
        prelude.board == state.board,
        prelude.player == player,
        prelude.other_god == state.gods[1 - player.idx()],
        worker_start_pos < 25,
        is_acting_worker(*state, player, worker_start_pos as int),
        forall|i: int| #[trigger] all_blockers.has(i) == (state.board.occupied(i) || (is_square(i) && state.board.height(i) == 4)),
        forall|h: int, i: int|
            0 <= h < 4 && is_square(i) ==> (#[trigger] step_masks[h].has(i) == (state.board.height(i) <= h + 1
                && state.board.height(i) < 4)),
        forall|i: int| #[trigger] all_win_targets.has(i) == (is_square(i) && state.board.height(i) == 3),
        forall|k: int| 0 <= k < old(result)@.len() ==> #[trigger] is_triton_turn(*state, player, must_climb, old(result)@[k].action.0),
    ensures
        forall|k: int| 0 <= k < final(result)@.len() ==> #[trigger] is_triton_turn(*state, player, must_climb, final(result)@[k].action.0),
        old(result)@.len() <= final(result)@.len(),
        forall|k: int| 0 <= k < old(result)@.len() ==> #[trigger] final(result)@[k] == old(result)@[k],
        flags & NARROWING_FLAGS == 0 ==> !stop,
        flags & NARROWING_FLAGS == 0 && state.board.height(worker_start_pos as int) < 4 ==> forall|w: int|
            #[trigger] is_triton_win(state.board, worker_start_pos as int, w) ==> lists_word(
            final(result)@,
            mortal_winning_data(worker_start_pos as u32, w as u32),
        ),
        flags & NARROWING_FLAGS == 0 && state.board.height(worker_start_pos as int) < 4 ==> forall|to: int, b: int|
            #![trigger triton_moves_to(state.board, worker_start_pos as int, to, must_climb), is_standard_build_for(*state, player, worker_start_pos as int, to, b)]
            triton_moves_to(state.board, worker_start_pos as int, to, must_climb) && !is_triton_win(state.board, worker_start_pos as int, to)
                && is_standard_build_for(*state, player, worker_start_pos as int, to, b) && !(to == worker_start_pos && old(null_move_builds).has(b))
                ==> lists_word(final(result)@, mortal_basic_data(worker_start_pos as u32, to as u32, b as u32)),
        flags & NARROWING_FLAGS == 0 ==> forall|b: int| #[trigger] final(null_move_builds).has(b) == (if state.board.height(
            worker_start_pos as int,
        ) < 4 {
            triton_null_builds_after(*state, player, must_climb, worker_start_pos as int, *old(null_move_builds), b)
        } else {
            old(null_move_builds).has(b)
        }),
{
    broadcast use group_bit_lemmas;

    proof {
        crate::generic::lemma_no_flags(flags);
    }
    let ghost board = state.board;
    let ghost start = worker_start_pos as int;
    let ghost null0 = *null_move_builds;
    let worker_start_mask = BitBoard::as_mask(worker_start_pos);
    let start_height = prelude.board.get_height(worker_start_pos);
    if start_height >= 4 {
        // A worker never stands on a dome: there is nothing to walk from.
        return false;
    }
    let blockers = all_blockers.minus(worker_start_mask);
    let walkable = blockers.not().and(BitBoard::main_section());
    let open_by_height = [
        step_masks[0].and(walkable),
        step_masks[1].and(walkable),
        step_masks[2].and(walkable),
        step_masks[3].and(walkable),
    ];
    let win_targets = all_win_targets.and(walkable);
    let final_destination_mask = walkable;
    let perimeter = perimeter_squares();
    proof {
        assert forall|i: int| #[trigger] walkable.has(i) == (is_square(i) && !(board.occupied(i) && i != start) && !(board.height(i) == 4 && i != start)) by {}
        assert forall|h: int, i: int| 0 <= h < 4 implies (#[trigger] open_by_height[h].has(i) == (is_square(i) && !(board.occupied(i)
            && i != start) && board.height(i) < 4 && board.height(i) <= h + 1)) by {
            assert(walkable.has(i) ==> is_square(i));
        }
        let single = seq![start];
        assert(is_triton_path(board, start, single));
        assert(single.last() == start);
    }
    let mut exp0 = worker_start_mask;
    let mut exp1 = BitBoard::empty();
    let mut seen0 = exp0;
    let mut seen1 = exp1;
    let mut dest0 = BitBoard::empty();
    let mut dest1 = BitBoard::empty();
    let mut emitted_wins = BitBoard::empty();
    let mut rounds: u32 = 0;
    proof {
        lemma_popcount_grows(0u32, seen0.0, 25);
        assert(bit(seen0.0, start as u32));
    }
    while (exp0.is_not_empty() || exp1.is_not_empty()) && rounds < 51
        invariant
            worker_start_pos < 25,
            start == worker_start_pos as int,
            board == state.board,
            board.height(start) < 4,
            prelude.inv(),
            prelude.board == state.board,
            is_acting_worker(*state, player, worker_start_pos as int),
            forall|i: int| #[trigger] walkable.has(i) == (is_square(i) && !(board.occupied(i) && i != start) && !(board.height(i) == 4 && i != start)),
            forall|h: int, i: int|
                0 <= h < 4 ==> (#[trigger] open_by_height[h].has(i) == (is_square(i) && !(board.occupied(i) && i != start)
                    && board.height(i) < 4 && board.height(i) <= h + 1)),
            forall|i: int| #[trigger] win_targets.has(i) == (walkable.has(i) && board.height(i) == 3),
            final_destination_mask == walkable,
            forall|i: int| #[trigger] perimeter.has(i) == is_perimeter(i),
            forall|i: int| #[trigger] exp0.has(i) ==> triton_can_extend(board, start, i, false),
            forall|i: int| #[trigger] exp1.has(i) ==> triton_can_extend(board, start, i, true),
            forall|i: int| #[trigger] dest0.has(i) ==> triton_moves_to(board, start, i, false),
            forall|i: int| #[trigger] dest1.has(i) ==> triton_moves_to(board, start, i, true),
            forall|k: int| 0 <= k < result@.len() ==> #[trigger] is_triton_turn(*state, player, must_climb, result@[k].action.0),
            old(result)@.len() <= result@.len(),
            forall|k: int| 0 <= k < old(result)@.len() ==> #[trigger] result@[k] == old(result)@[k],
            *null_move_builds == null0,
            seen0.has(start),
            forall|i: int| #[trigger] seen0.has(i) ==> is_square(i) && board.height(i) < 4,
            forall|i: int| #[trigger] seen1.has(i) ==> is_square(i) && board.height(i) < 4,
            forall|i: int| #[trigger] exp0.has(i) ==> seen0.has(i),
            forall|i: int| #[trigger] exp1.has(i) ==> seen1.has(i),
            forall|i: int| #[trigger] dest0.has(i) ==> seen0.has(i),
            forall|i: int| #[trigger] dest1.has(i) ==> seen1.has(i),
            forall|s: int|
                #[trigger] seen0.has(s) && (s == start || is_perimeter(s)) ==> exp0.has(s) || triton_expanded(
                    board,
                    start,
                    must_climb,
                    false,
                    s,
                    dest0,
                    dest1,
                    emitted_wins,
                ),
            forall|s: int|
                #[trigger] seen1.has(s) && is_perimeter(s) ==> exp1.has(s) || triton_expanded(board, start, must_climb, true, s, dest0, dest1, emitted_wins),
            (exists|i: int| #[trigger] exp0.has(i)) || (exists|i: int| #[trigger] exp1.has(i)) ==> rounds + 1 <= popcount(seen0.0, 25)
                + popcount(seen1.0, 25),
            forall|w: int| #[trigger] emitted_wins.has(w) ==> is_triton_win(board, start, w) && lists_word(
                result@,
                mortal_winning_data(worker_start_pos as u32, w as u32),
            ),
        decreases 51 - rounds,
    {
        let ghost s0 = seen0;
        let ghost s1 = seen1;
        let ghost e0 = exp0;
        let ghost e1 = exp1;
        let ghost rounds_before = rounds;
        rounds = rounds + 1;
        let mut next0 = BitBoard::empty();
        let mut next1 = BitBoard::empty();
        let mut climbed: usize = 0;
        while climbed < 2
            invariant
                climbed <= 2,
                worker_start_pos < 25,
                start == worker_start_pos as int,
                board == state.board,
                board.height(start) < 4,
                prelude.inv(),
                prelude.board == state.board,
                is_acting_worker(*state, player, worker_start_pos as int),
                forall|i: int| #[trigger] walkable.has(i) == (is_square(i) && !(board.occupied(i) && i != start) && !(board.height(i) == 4 && i != start)),
                forall|h: int, i: int|
                    0 <= h < 4 ==> (#[trigger] open_by_height[h].has(i) == (is_square(i) && !(board.occupied(i) && i != start)
                        && board.height(i) < 4 && board.height(i) <= h + 1)),
                forall|i: int| #[trigger] win_targets.has(i) == (walkable.has(i) && board.height(i) == 3),
                final_destination_mask == walkable,
                forall|i: int| #[trigger] perimeter.has(i) == is_perimeter(i),
                exp0 == e0,
                exp1 == e1,
                forall|i: int| #[trigger] exp0.has(i) ==> triton_can_extend(board, start, i, false),
                forall|i: int| #[trigger] exp1.has(i) ==> triton_can_extend(board, start, i, true),
                forall|i: int| #[trigger] next0.has(i) ==> triton_can_extend(board, start, i, false),
                forall|i: int| #[trigger] next1.has(i) ==> triton_can_extend(board, start, i, true),
                forall|i: int| #[trigger] dest0.has(i) ==> triton_moves_to(board, start, i, false),
                forall|i: int| #[trigger] dest1.has(i) ==> triton_moves_to(board, start, i, true),
                forall|k: int| 0 <= k < result@.len() ==> #[trigger] is_triton_turn(*state, player, must_climb, result@[k].action.0),
                old(result)@.len() <= result@.len(),
                forall|k: int| 0 <= k < old(result)@.len() ==> #[trigger] result@[k] == old(result)@[k],
                *null_move_builds == null0,
                seen0.has(start),
                forall|i: int| #[trigger] seen0.has(i) ==> is_square(i) && board.height(i) < 4,
                forall|i: int| #[trigger] seen1.has(i) ==> is_square(i) && board.height(i) < 4,
                forall|i: int| #[trigger] s0.has(i) ==> seen0.has(i),
                forall|i: int| #[trigger] s1.has(i) ==> seen1.has(i),
                forall|i: int| #[trigger] exp0.has(i) ==> s0.has(i),
                forall|i: int| #[trigger] exp1.has(i) ==> s1.has(i),
                forall|i: int| #[trigger] next0.has(i) ==> seen0.has(i) && !s0.has(i),
                forall|i: int| #[trigger] next1.has(i) ==> seen1.has(i) && !s1.has(i),
                forall|i: int| #[trigger] dest0.has(i) ==> seen0.has(i),
                forall|i: int| #[trigger] dest1.has(i) ==> seen1.has(i),
                forall|s: int|
                    #[trigger] seen0.has(s) && (s == start || is_perimeter(s)) ==> next0.has(s) || triton_expanded(
                        board,
                        start,
                        must_climb,
                        false,
                        s,
                        dest0,
                        dest1,
                        emitted_wins,
                    ) || (climbed == 0 && exp0.has(s)),
                forall|s: int|
                    #[trigger] seen1.has(s) && is_perimeter(s) ==> next1.has(s) || triton_expanded(
                        board,
                        start,
                        must_climb,
                        true,
                        s,
                        dest0,
                        dest1,
                        emitted_wins,
                    ) || (climbed <= 1 && exp1.has(s)),
                forall|w: int| #[trigger] emitted_wins.has(w) ==> is_triton_win(board, start, w) && lists_word(
                    result@,
                    mortal_winning_data(worker_start_pos as u32, w as u32),
                ),
            decreases 2 - climbed,
        {
            let frontier = if climbed == 0 {
                exp0
            } else {
                exp1
            };
            let ghost c = climbed == 1;
            let positions = frontier.squares();
            let mut k: usize = 0;
            while k < positions.len()
                invariant
                    k <= positions@.len(),
                    climbed < 2,
                    c == (climbed == 1),
                    frontier == (if climbed == 0 { exp0 } else { exp1 }),
                    forall|sq: int| 0 <= sq < 25 && frontier.has(sq) ==> positions@.contains(sq as u8),
                    worker_start_pos < 25,
                    start == worker_start_pos as int,
                    board == state.board,
                    board.height(start) < 4,
                    prelude.inv(),
                    prelude.board == state.board,
                    is_acting_worker(*state, player, worker_start_pos as int),
                    forall|i: int| #[trigger] walkable.has(i) == (is_square(i) && !(board.occupied(i) && i != start) && !(board.height(i) == 4 && i != start)),
                    forall|h: int, i: int|
                        0 <= h < 4 ==> (#[trigger] open_by_height[h].has(i) == (is_square(i) && !(board.occupied(i) && i != start)
                            && board.height(i) < 4 && board.height(i) <= h + 1)),
                    forall|i: int| #[trigger] win_targets.has(i) == (walkable.has(i) && board.height(i) == 3),
                    final_destination_mask == walkable,
                    forall|i: int| #[trigger] perimeter.has(i) == is_perimeter(i),
                    exp0 == e0,
                    exp1 == e1,
                    forall|j: int| 0 <= j < positions@.len() ==> #[trigger] positions@[j] < 25 && triton_can_extend(
                        board,
                        start,
                        positions@[j] as int,
                        c,
                    ) && frontier.has(positions@[j] as int),
                    forall|i: int| #[trigger] next0.has(i) ==> triton_can_extend(board, start, i, false),
                    forall|i: int| #[trigger] next1.has(i) ==> triton_can_extend(board, start, i, true),
                    forall|i: int| #[trigger] dest0.has(i) ==> triton_moves_to(board, start, i, false),
                    forall|i: int| #[trigger] dest1.has(i) ==> triton_moves_to(board, start, i, true),
                    forall|k: int| 0 <= k < result@.len() ==> #[trigger] is_triton_turn(*state, player, must_climb, result@[k].action.0),
                    old(result)@.len() <= result@.len(),
                    forall|k: int| 0 <= k < old(result)@.len() ==> #[trigger] result@[k] == old(result)@[k],
                    *null_move_builds == null0,
                    seen0.has(start),
                    forall|i: int| #[trigger] seen0.has(i) ==> is_square(i) && board.height(i) < 4,
                    forall|i: int| #[trigger] seen1.has(i) ==> is_square(i) && board.height(i) < 4,
                    forall|i: int| #[trigger] s0.has(i) ==> seen0.has(i),
                    forall|i: int| #[trigger] s1.has(i) ==> seen1.has(i),
                    forall|i: int| #[trigger] exp0.has(i) ==> s0.has(i),
                    forall|i: int| #[trigger] exp1.has(i) ==> s1.has(i),
                    forall|i: int| #[trigger] next0.has(i) ==> seen0.has(i) && !s0.has(i),
                    forall|i: int| #[trigger] next1.has(i) ==> seen1.has(i) && !s1.has(i),
                    forall|i: int| #[trigger] dest0.has(i) ==> seen0.has(i),
                    forall|i: int| #[trigger] dest1.has(i) ==> seen1.has(i),
                    forall|s: int|
                        #[trigger] seen0.has(s) && (s == start || is_perimeter(s)) ==> next0.has(s) || triton_expanded(
                            board,
                            start,
                            must_climb,
                            false,
                            s,
                            dest0,
                            dest1,
                            emitted_wins,
                        ) || (climbed == 0 && exp0.has(s) && !(exists|j: int| 0 <= j < k && #[trigger] positions@[j] as int == s)),
                    forall|s: int|
                        #[trigger] seen1.has(s) && is_perimeter(s) ==> next1.has(s) || triton_expanded(
                            board,
                            start,
                            must_climb,
                            true,
                            s,
                            dest0,
                            dest1,
                            emitted_wins,
                        ) || (climbed == 0 && exp1.has(s)) || (climbed == 1 && exp1.has(s) && !(exists|j: int|
                            0 <= j < k && #[trigger] positions@[j] as int == s)),
                    forall|w: int| #[trigger] emitted_wins.has(w) ==> is_triton_win(board, start, w) && lists_word(
                        result@,
                        mortal_winning_data(worker_start_pos as u32, w as u32),
                    ),
                decreases positions@.len() - k,
            {
                let pos = positions[k];
                k = k + 1;
                let ghost d0_before = dest0;
                let ghost d1_before = dest1;
                let ghost em_before = emitted_wins;
                let ghost seen0_before = seen0;
                let ghost seen1_before = seen1;
                let ghost next0_before = next0;
                let ghost next1_before = next1;
                let ghost result_before = result@;
                let height = prelude.board.get_height(pos);
                if height < 4 {
                    let raw_steps = neighbor_mask(pos).and(open_by_height[height]);
                    let mut steps = raw_steps;
                    if height == 2 {
                        let wins = raw_steps.and(win_targets);
                        steps = steps.minus(wins);
                        let new_wins = wins.and(final_destination_mask).minus(emitted_wins);
                        emitted_wins = emitted_wins.or(new_wins);
                        let win_list = new_wins.squares();
                        let mut n: usize = 0;
                        while n < win_list.len()
                            invariant
                                n <= win_list@.len(),
                                worker_start_pos < 25,
                                pos < 25,
                                start == worker_start_pos as int,
                                board == state.board,
                                is_acting_worker(*state, player, worker_start_pos as int),
                                triton_can_extend(board, start, pos as int, false),
                                board.height(pos as int) == 2,
                                forall|j: int| 0 <= j < win_list@.len() ==> #[trigger] win_list@[j] < 25 && is_adjacent(
                                    pos as int,
                                    win_list@[j] as int,
                                ) && !(board.occupied(win_list@[j] as int) && win_list@[j] != start) && board.height(win_list@[j] as int)
                                    == 3,
                                forall|k: int| 0 <= k < result@.len() ==> #[trigger] is_triton_turn(
                                    *state,
                                    player,
                                    must_climb,
                                    result@[k].action.0,
                                ),
                                result_before.len() <= result@.len(),
                                forall|k: int| 0 <= k < result_before.len() ==> #[trigger] result@[k] == result_before[k],
                                old(result)@.len() <= result@.len(),
                                forall|k: int| 0 <= k < old(result)@.len() ==> #[trigger] result@[k] == old(result)@[k],
                                forall|j: int| 0 <= j < n ==> lists_word(
                                    result@,
                                    #[trigger] mortal_winning_data(worker_start_pos as u32, win_list@[j] as u32),
                                ),
                            decreases win_list@.len() - n,
                        {
                            let win_pos = win_list[n];
                            n = n + 1;
                            let ghost before = result@;
                            result.push(ScoredMove::new_winning_move(TritonMove::new_winning_move(worker_start_pos, win_pos).to_generic()));
                            proof {
                                lemma_mortal_move_round_trip(worker_start_pos as u32, win_pos as u32, 0);
                                assert(triton_can_extend(board, start, pos as int, false));
                                assert(is_triton_win(board, start, win_pos as int));
                                lemma_lists_word_grows(before, result@);
                                assert(result@[before.len() as int].action.0 == mortal_winning_data(worker_start_pos as u32, win_pos as u32));
                                assert forall|k: int| 0 <= k < result@.len() implies #[trigger] is_triton_turn(
                                    *state,
                                    player,
                                    must_climb,
                                    result@[k].action.0,
                                ) by {
                                    if k < before.len() {
                                        assert(result@[k] == before[k]);
                                    }
                                }
                                assert forall|j: int| 0 <= j < n implies lists_word(
                                    result@,
                                    #[trigger] mortal_winning_data(worker_start_pos as u32, win_list@[j] as u32),
                                ) by {
                                    if j < n - 1 {
                                        assert(lists_word(before, mortal_winning_data(worker_start_pos as u32, win_list@[j] as u32)));
                                    }
                                }
                            }
                            proof {
                                crate::generic::lemma_no_flags(flags);
                            }
                            if is_stop_on_mate(flags) {
                                return true;
                            }
                        }
                        proof {
                            lemma_lists_word_grows(result_before, result@);
                            assert forall|w: int| #[trigger] emitted_wins.has(w) implies is_triton_win(board, start, w) && lists_word(
                                result@,
                                mortal_winning_data(worker_start_pos as u32, w as u32),
                            ) by {
                                if em_before.has(w) {
                                    assert(lists_word(result_before, mortal_winning_data(worker_start_pos as u32, w as u32)));
                                } else {
                                    assert(new_wins.has(w));
                                    assert(win_list@.contains(w as u8));
                                    let j = choose|j: int| 0 <= j < win_list@.len() && win_list@[j] == w as u8;
                                    assert(lists_word(result@, mortal_winning_data(worker_start_pos as u32, win_list@[j] as u32)));
                                    assert(is_triton_win(board, start, w)) by {
                                        assert(triton_can_extend(board, start, pos as int, false));
                                    }
                                }
                            }
                        }
                    }
                    let climbing = steps.and(prelude.board.height_map[height]);
                    let (arrival0, arrival1) = if must_climb && climbed == 0 {
                        (steps.minus(climbing), climbing)
                    } else if climbed == 0 {
                        (steps, BitBoard::empty())
                    } else {
                        (BitBoard::empty(), steps)
                    };
                    proof {
                        let path = choose|path: Seq<int>|
                            #[trigger] is_triton_path(board, start, path) && path.len() >= 1 && path.last() == pos as int && (path.len() == 1
                                || is_perimeter(pos as int)) && (c ==> path_climbs(board, path));
                        assert forall|s: int| #[trigger] steps.has(s) implies triton_step(board, start, pos as int, s) by {
                            assert(raw_steps.has(s));
                            crate::gods::move_helpers::lemma_layer_is_height(board, 2, s);
                        }
                        assert forall|s: int| #[trigger] climbing.has(s) implies board.height(s) > board.height(pos as int) by {
                            crate::gods::move_helpers::lemma_layer_is_height(board, height as int, s);
                        }
                        assert forall|s: int| #[trigger] arrival0.has(s) implies triton_moves_to(board, start, s, false)
                            && (is_perimeter(s) ==> triton_can_extend(board, start, s, false)) by {
                            lemma_triton_extend(board, start, path, s);
                            let longer = path.push(s);
                            assert(is_triton_path(board, start, longer) && longer.len() >= 2 && longer.last() == s);
                        }
                        assert forall|s: int| #[trigger] arrival1.has(s) implies triton_moves_to(board, start, s, true)
                            && (is_perimeter(s) ==> triton_can_extend(board, start, s, true)) by {
                            lemma_triton_extend(board, start, path, s);
                            let longer = path.push(s);
                            assert(is_triton_path(board, start, longer) && longer.len() >= 2 && longer.last() == s);
                            assert(path_climbs(board, longer));
                        }
                        assert forall|t: int| #[trigger] triton_step(board, start, pos as int, t) implies (if triton_lands_climbed(
                            board,
                            must_climb,
                            c,
                            pos as int,
                            t,
                        ) {
                            arrival1.has(t)
                        } else {
                            arrival0.has(t)
                        }) by {
                            assert(raw_steps.has(t));
                            if height == 2 {
                                assert(!win_targets.has(t));
                            }
                            assert(steps.has(t));
                            if 0 <= t < 32 {
                                crate::gods::move_helpers::lemma_layer_is_height(board, height as int, t);
                            }
                        }
                        if height == 2 {
                            assert forall|w: int|
                                #[trigger] is_adjacent(pos as int, w) && !(board.occupied(w) && w != start) && board.height(w) == 3 implies emitted_wins.has(
                                w,
                            ) by {
                                assert(is_square(w));
                                assert(raw_steps.has(w));
                            }
                        }
                    }
                    dest0 = dest0.or(arrival0);
                    dest1 = dest1.or(arrival1);
                    let fresh0 = arrival0.minus(seen0);
                    seen0 = seen0.or(fresh0);
                    next0 = next0.or(fresh0.and(perimeter));
                    let fresh1 = arrival1.minus(seen1);
                    seen1 = seen1.or(fresh1);
                    next1 = next1.or(fresh1.and(perimeter));
                    proof {
                        assert(forall|t: int| #[trigger] steps.has(t) ==> is_square(t) && board.height(t) < 4);
                        assert(triton_expanded(board, start, must_climb, c, pos as int, dest0, dest1, emitted_wins));
                        assert forall|s: int|
                            #[trigger] seen0.has(s) && (s == start || is_perimeter(s)) implies next0.has(s) || triton_expanded(
                            board,
                            start,
                            must_climb,
                            false,
                            s,
                            dest0,
                            dest1,
                            emitted_wins,
                        ) || (climbed == 0 && exp0.has(s) && !(exists|j: int| 0 <= j < k && #[trigger] positions@[j] as int == s)) by {
                            if seen0_before.has(s) {
                                if next0_before.has(s) {
                                } else if triton_expanded(board, start, must_climb, false, s, d0_before, d1_before, em_before) {
                                    lemma_expanded_grows(board, start, must_climb, false, s, d0_before, d1_before, em_before, dest0, dest1, emitted_wins);
                                } else if s != pos as int {
                                    assert(climbed == 0 && exp0.has(s));
                                    if exists|j: int| 0 <= j < k && #[trigger] positions@[j] as int == s {
                                        let j = choose|j: int| 0 <= j < k && #[trigger] positions@[j] as int == s;
                                        assert(j < k - 1);
                                    }
                                }
                            }
                        }
                        assert forall|s: int|
                            #[trigger] seen1.has(s) && is_perimeter(s) implies next1.has(s) || triton_expanded(
                            board,
                            start,
                            must_climb,
                            true,
                            s,
                            dest0,
                            dest1,
                            emitted_wins,
                        ) || (climbed == 0 && exp1.has(s)) || (climbed == 1 && exp1.has(s) && !(exists|j: int|
                            0 <= j < k && #[trigger] positions@[j] as int == s)) by {
                            if seen1_before.has(s) {
                                if next1_before.has(s) {
                                } else if triton_expanded(board, start, must_climb, true, s, d0_before, d1_before, em_before) {
                                    lemma_expanded_grows(board, start, must_climb, true, s, d0_before, d1_before, em_before, dest0, dest1, emitted_wins);
                                } else if climbed == 1 && s != pos as int {
                                    assert(exp1.has(s));
                                    if exists|j: int| 0 <= j < k && #[trigger] positions@[j] as int == s {
                                        let j = choose|j: int| 0 <= j < k && #[trigger] positions@[j] as int == s;
                                        assert(j < k - 1);
                                    }
                                }
                            }
                        }
                    }
                } else {
                    proof {
                        assert(frontier.has(pos as int));
                        assert(false);
                    }
                }
            }
            proof {
                assert forall|s: int|
                    #[trigger] seen0.has(s) && (s == start || is_perimeter(s)) implies next0.has(s) || triton_expanded(
                    board,
                    start,
                    must_climb,
                    false,
                    s,
                    dest0,
                    dest1,
                    emitted_wins,
                ) || (climbed + 1 == 0 && exp0.has(s)) by {
                    if climbed == 0 && exp0.has(s) && !(exists|j: int| 0 <= j < k && #[trigger] positions@[j] as int == s) {
                        assert(is_square(s));
                        assert(positions@.contains(s as u8));
                        let j = choose|j: int| 0 <= j < positions@.len() && positions@[j] == s as u8;
                        assert(positions@[j] as int == s);
                    }
                }
                assert forall|s: int|
                    #[trigger] seen1.has(s) && is_perimeter(s) implies next1.has(s) || triton_expanded(
                    board,
                    start,
                    must_climb,
                    true,
                    s,
                    dest0,
                    dest1,
                    emitted_wins,
                ) || (climbed + 1 <= 1 && exp1.has(s)) by {
                    if climbed == 1 && exp1.has(s) && !(exists|j: int| 0 <= j < k && #[trigger] positions@[j] as int == s) {
                        assert(is_square(s));
                        assert(positions@.contains(s as u8));
                        let j = choose|j: int| 0 <= j < positions@.len() && positions@[j] == s as u8;
                        assert(positions@[j] as int == s);
                    }
                }
            }
            climbed = climbed + 1;
        }
        proof {
            assert forall|x: u32| x < 25 && #[trigger] bit(s0.0, x) implies bit(seen0.0, x) by {
                assert(s0.has(x as int));
            }
            assert forall|x: u32| x < 25 && #[trigger] bit(s1.0, x) implies bit(seen1.0, x) by {
                assert(s1.has(x as int));
            }
            lemma_popcount_grows(s0.0, seen0.0, 25);
            lemma_popcount_grows(s1.0, seen1.0, 25);
            assert(rounds_before + 1 <= popcount(s0.0, 25) + popcount(s1.0, 25));
            if exists|i: int| #[trigger] next0.has(i) {
                let i = choose|i: int| #[trigger] next0.has(i);
                assert(seen0.has(i) && !s0.has(i));
                assert(is_square(i));
                assert(bit(seen0.0, i as u32) && !bit(s0.0, i as u32));
            }
            if exists|i: int| #[trigger] next1.has(i) {
                let i = choose|i: int| #[trigger] next1.has(i);
                assert(seen1.has(i) && !s1.has(i));
                assert(is_square(i));
                assert(bit(seen1.0, i as u32) && !bit(s1.0, i as u32));
            }
        }
        exp0 = next0;
        exp1 = next1;
    }
    proof {
        lemma_popcount_at_most(seen0.0, 25);
        lemma_popcount_at_most(seen1.0, 25);
        assert(forall|i: int| !#[trigger] exp0.has(i));
        assert(forall|i: int| !#[trigger] exp1.has(i));
    }
    proof {
        if flags & NARROWING_FLAGS == 0 {
            assert forall|w: int| #[trigger] is_triton_win(board, start, w) implies emitted_wins.has(w) by {
                let pos = choose|pos: int|
                    #[trigger] triton_can_extend(board, start, pos, false) && board.height(pos) == 2 && is_adjacent(pos, w) && !(
                    board.occupied(w) && w != start) && board.height(w) == 3;
                let path = choose|path: Seq<int>|
                    #[trigger] is_triton_path(board, start, path) && path.len() >= 1 && path.last() == pos && (path.len() == 1 || is_perimeter(
                        pos,
                    )) && (false ==> path_climbs(board, path));
                lemma_triton_closure(board, start, must_climb, seen0, seen1, dest0, dest1, emitted_wins, path);
                if path.len() == 1 {
                    assert(pos == start);
                    assert(!path_climbs(board, path));
                }
                if must_climb && path_climbs(board, path) {
                    assert(triton_expanded(board, start, must_climb, true, pos, dest0, dest1, emitted_wins));
                } else {
                    assert(triton_expanded(board, start, must_climb, false, pos, dest0, dest1, emitted_wins));
                }
                assert(emitted_wins.has(w));
            }
        }
    }
    if is_mate_only(flags) {
        return false;
    }
    let destinations = if must_climb {
        dest1
    } else {
        dest0
    };
    let final_destinations = destinations.and(final_destination_mask).minus(emitted_wins);
    let ends = final_destinations.squares();
    proof {
        if flags & NARROWING_FLAGS == 0 {
            assert forall|to: int| #[trigger] triton_moves_to(board, start, to, must_climb) && !is_triton_win(board, start, to) implies ends@.contains(
                to as u8,
            ) by {
                let path = choose|path: Seq<int>|
                    #[trigger] is_triton_path(board, start, path) && path.len() >= 2 && path.last() == to && (must_climb ==> path_climbs(
                        board,
                        path,
                    ));
                lemma_triton_closure(board, start, must_climb, seen0, seen1, dest0, dest1, emitted_wins, path);
                lemma_triton_destination(board, start, to, must_climb);
                assert(destinations.has(to));
                assert(walkable.has(to));
                assert(final_destinations.has(to));
            }
        }
    }
    proof {
        crate::bitboard::lemma_squares_below(final_destinations.0, 25);
    }
    let ghost pre_ends = result@;
    let mut ei: usize = 0;
    while ei < ends.len()
        invariant
            ei <= ends@.len(),
            worker_start_pos < 25,
            start == worker_start_pos as int,
            board == state.board,
            prelude.inv(),
            prelude.board == state.board,
            prelude.player == player,
            prelude.other_god == state.gods[1 - player.idx()],
            is_acting_worker(*state, player, worker_start_pos as int),
            forall|i: int| #[trigger] worker_start_mask.has(i) == (i == start),
            forall|j: int| 0 <= j < ends@.len() ==> #[trigger] ends@[j] < 25 && triton_moves_to(board, start, ends@[j] as int, must_climb),
            forall|k: int| 0 <= k < result@.len() ==> #[trigger] is_triton_turn(*state, player, must_climb, result@[k].action.0),
            forall|x: int, y: int| 0 <= x < y < ends@.len() ==> ends@[x] < ends@[y],
            old(result)@.len() <= pre_ends.len(),
            forall|k: int| 0 <= k < old(result)@.len() ==> #[trigger] pre_ends[k] == old(result)@[k],
            pre_ends.len() <= result@.len(),
            forall|k: int| 0 <= k < pre_ends.len() ==> #[trigger] result@[k] == pre_ends[k],
            flags & NARROWING_FLAGS == 0 ==> flags & 8u32 == 0,
            flags & NARROWING_FLAGS == 0 ==> forall|x: int, b: int|
                0 <= x < ei && is_standard_build_for(*state, player, start, ends@[x] as int, b) && !(ends@[x] as int == start && null0.has(b))
                    ==> lists_word(result@, #[trigger] mortal_basic_data(worker_start_pos as u32, ends@[x] as u32, b as u32)),
            flags & NARROWING_FLAGS == 0 ==> forall|b: int| #[trigger] null_move_builds.has(b) == (null0.has(b) || ((exists|x: int|
                0 <= x < ei && ends@[x] as int == start) && is_standard_build_for(*state, player, start, start, b))),
        decreases ends@.len() - ei,
    {
        let worker_end_pos = ends[ei];
        ei = ei + 1;
        proof {
            lemma_triton_destination(board, start, worker_end_pos as int, must_climb);
        }
        let ghost null_before = *null_move_builds;
        let ghost result_at_end = result@;
        let worker_end_mask = BitBoard::as_mask(worker_end_pos);
        let worker_end_height = prelude.board.get_height(worker_end_pos);
        let is_improving = worker_end_height > start_height;
        let all_non_moving_workers = prelude.all_workers_and_frozen_mask.minus(worker_start_mask);
        let unblocked_squares = all_non_moving_workers.or(worker_end_mask).or(prelude.domes_and_frozen).not();
        let mut builds = neighbor_mask(worker_end_pos).and(unblocked_squares).and(prelude.build_mask);
        let ghost std_builds = builds;
        proof {
            assert forall|b: int| 0 <= b < 25 && is_standard_build_for(*state, player, start, worker_end_pos as int, b) implies #[trigger] std_builds.has(b) by {
                assert(is_adjacent(worker_end_pos as int, b));
                assert(unblocked_squares.has(b));
            }
        }
        if is_interact_with_key_squares(flags) {
            if worker_end_mask.and(prelude.key_squares).is_empty() {
                builds = builds.and(prelude.key_squares);
            }
        }
        if worker_end_pos == worker_start_pos {
            builds = builds.minus(*null_move_builds);
            *null_move_builds = null_move_builds.or(builds);
        }
        proof {
            assert forall|b: int| #[trigger] builds.has(b) implies is_standard_build_for(
                *state,
                player,
                start,
                worker_end_pos as int,
                b,
            ) by {
                assert(unblocked_squares.has(b));
            }
        }
        let build_list = builds.squares();
        let mut bi: usize = 0;
        while bi < build_list.len()
            invariant
                bi <= build_list@.len(),
                worker_start_pos < 25,
                worker_end_pos < 25,
                start == worker_start_pos as int,
                board == state.board,
                is_acting_worker(*state, player, worker_start_pos as int),
                triton_moves_to(board, start, worker_end_pos as int, must_climb),
                forall|j: int| 0 <= j < build_list@.len() ==> #[trigger] build_list@[j] < 25 && is_standard_build_for(
                    *state,
                    player,
                    start,
                    worker_end_pos as int,
                    build_list@[j] as int,
                ),
                forall|k: int| 0 <= k < result@.len() ==> #[trigger] is_triton_turn(*state, player, must_climb, result@[k].action.0),
                result_at_end.len() <= result@.len(),
                forall|k: int| 0 <= k < result_at_end.len() ==> #[trigger] result@[k] == result_at_end[k],
                forall|j: int| 0 <= j < bi ==> lists_word(
                    result@,
                    #[trigger] mortal_basic_data(worker_start_pos as u32, worker_end_pos as u32, build_list@[j] as u32),
                ),
            decreases build_list@.len() - bi,
        {
            let worker_build_pos = build_list[bi];
            bi = bi + 1;
            let new_action = TritonMove::new_basic_move(worker_start_pos, worker_end_pos, worker_build_pos);
            let ghost before = result@;
            result.push(build_scored_move(flags, new_action.to_generic(), false, is_improving));
            proof {
                lemma_mortal_move_round_trip(worker_start_pos as u32, worker_end_pos as u32, worker_build_pos as u32);
                lemma_lists_word_grows(before, result@);
                assert(result@[before.len() as int].action.0 == mortal_basic_data(
                    worker_start_pos as u32,
                    worker_end_pos as u32,
                    worker_build_pos as u32,
                ));
                assert forall|k: int| 0 <= k < result@.len() implies #[trigger] is_triton_turn(*state, player, must_climb, result@[k].action.0) by {
                    if k < before.len() {
                        assert(result@[k] == before[k]);
                    }
                }
                assert forall|j: int| 0 <= j < bi implies lists_word(
                    result@,
                    #[trigger] mortal_basic_data(worker_start_pos as u32, worker_end_pos as u32, build_list@[j] as u32),
                ) by {
                    if j < bi - 1 {
                        assert(lists_word(before, mortal_basic_data(worker_start_pos as u32, worker_end_pos as u32, build_list@[j] as u32)));
                    }
                }
            }
        }
        proof {
            lemma_lists_word_grows(result_at_end, result@);
            if flags & NARROWING_FLAGS == 0 {
                assert forall|x: int, b: int|
                    0 <= x < ei && is_standard_build_for(*state, player, start, ends@[x] as int, b) && !(ends@[x] as int == start && null0.has(b))
                        implies lists_word(result@, #[trigger] mortal_basic_data(worker_start_pos as u32, ends@[x] as u32, b as u32)) by {
                    if x < ei - 1 {
                        assert(lists_word(result_at_end, mortal_basic_data(worker_start_pos as u32, ends@[x] as u32, b as u32)));
                    } else {
                        assert(is_adjacent(worker_end_pos as int, b));
                        assert(std_builds.has(b));
                        if worker_end_pos == worker_start_pos {
                            if null_before.has(b) {
                                let x2 = choose|x2: int| 0 <= x2 < ei - 1 && ends@[x2] as int == start;
                                assert(ends@[x2] < ends@[x]);
                            }
                        }
                        assert(builds.has(b));
                        assert(build_list@.contains(b as u8));
                        let j = choose|j: int| 0 <= j < build_list@.len() && build_list@[j] == b as u8;
                        assert(lists_word(result@, mortal_basic_data(worker_start_pos as u32, worker_end_pos as u32, build_list@[j] as u32)));
                    }
                }
                assert forall|b: int| #[trigger] null_move_builds.has(b) == (null0.has(b) || ((exists|x: int|
                    0 <= x < ei && ends@[x] as int == start) && is_standard_build_for(*state, player, start, start, b))) by {
                    if worker_end_pos == worker_start_pos {
                        assert(ends@[ei - 1] as int == start);
                        if is_standard_build_for(*state, player, start, start, b) {
                            assert(is_adjacent(start, b));
                            assert(std_builds.has(b));
                        }
                    } else {
                        if exists|x: int| 0 <= x < ei && ends@[x] as int == start {
                            let x = choose|x: int| 0 <= x < ei && ends@[x] as int == start;
                            assert(x < ei - 1);
                        }
                    }
                }
            }
        }
    }
    proof {
        lemma_lists_word_grows(pre_ends, result@);
        if flags & NARROWING_FLAGS == 0 {
            assert forall|w: int| #[trigger] is_triton_win(state.board, worker_start_pos as int, w) implies lists_word(
                result@,
                mortal_winning_data(worker_start_pos as u32, w as u32),
            ) by {
                assert(emitted_wins.has(w));
                assert(lists_word(pre_ends, mortal_winning_data(worker_start_pos as u32, w as u32)));
            }
            assert forall|to: int, b: int|
                #![trigger triton_moves_to(state.board, worker_start_pos as int, to, must_climb), is_standard_build_for(*state, player, worker_start_pos as int, to, b)]
                triton_moves_to(state.board, worker_start_pos as int, to, must_climb) && !is_triton_win(state.board, worker_start_pos as int, to)
                    && is_standard_build_for(*state, player, worker_start_pos as int, to, b) && !(to == worker_start_pos && null0.has(b))
                    implies lists_word(result@, mortal_basic_data(worker_start_pos as u32, to as u32, b as u32)) by {
                assert(ends@.contains(to as u8));
                let x = choose|x: int| 0 <= x < ends@.len() && ends@[x] == to as u8;
                assert(lists_word(result@, mortal_basic_data(worker_start_pos as u32, ends@[x] as u32, b as u32)));
            }
            assert forall|b: int| #[trigger] null_move_builds.has(b) == triton_null_builds_after(*state, player, must_climb, start, null0, b) by {
                if triton_moves_to(state.board, start, start, must_climb) && !is_triton_win(state.board, start, start) {
                    assert(ends@.contains(start as u8));
                    let x = choose|x: int| 0 <= x < ends@.len() && ends@[x] == start as u8;
                    assert(ends@[x] as int == start);
                } else if exists|x: int| 0 <= x < ends@.len() && ends@[x] as int == start {
                    let x = choose|x: int| 0 <= x < ends@.len() && ends@[x] as int == start;
                    assert(triton_moves_to(board, start, start, must_climb));
                    assert(final_destinations.has(start));
                    assert(!emitted_wins.has(start));
                }
            }
        }
    }
    false
}

/// Triton's fixed data.
pub fn build_triton() -> (r: GodPower)
    ensures
        r.god_name == GodName::Triton,
        r.hash1 == 6157020147743148521u64,
        r.hash2 == 15188297704320771830u64,
        r.placement_type == PlacementType::Normal,
        r.symmetry == BoardSymmetry::Full,
        !r.is_persephone,
{
    god_power(GodName::Triton, 6157020147743148521, 15188297704320771830)
}

/// How a turn of this god changes the board: the workers, the heights, the god data and the
/// winner after it, and whose turn it is, are those of `after`.
pub open spec fn triton_move_effect(before: BoardState, after: BoardState, player: Player, data: u32) -> bool {
    &&& after.current_player == before.current_player
    &&& after.god_data == before.god_data
    &&& after.workers[1 - player.idx()] == before.workers[1 - player.idx()]
    &&& after.workers[player.idx()].0 == before.workers[player.idx()].0 ^ ((1u32 << field_at(data, 0)) ^ (1u32 << field_at(data, 5)))
    &&& (is_winning_data(data) ==> after.winner == Some(player) && after.height_map == before.height_map)
    &&& (!is_winning_data(data) ==> after.winner == before.winner)
    &&& (!is_winning_data(data) ==> forall|i: int| #[trigger] after.height(i) == (if i == field_at(data, 10) { before.height(i) + 1 } else { before.height(i) }))
}

} // verus!
