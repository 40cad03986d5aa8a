use vstd::prelude::*;

use crate::bitboard::{
    apply_neighbor_map_to_mask, bit, group_bit_lemmas, inclusive_neighbor_mask, neighbor_mask,
    popcount, BitBoard, MAIN_SECTION,
};
use crate::board::{BoardState, FullGameState, Player};
use crate::generic::{
    is_interact_with_key_squares, is_mate_only, is_stop_on_mate, GenericMove, MoveGenFlags,
    ScoredMove, MATE_ONLY, MOVE_IS_WINNING_MASK, STOP_ON_MATE,
};
use crate::gods::GodName;
use crate::square::{is_adjacent, is_square, Square};

verus! {

/// Under a well formed board, layer `k` holds exactly the squares at least `k + 1` high.
pub proof fn lemma_layer_is_height(board: BoardState, k: int, i: int)
    requires
        board.layers_wf(),
        0 <= k < 4,
    ensures
        board.height_map[k].has(i) == (is_square(i) && board.height(i) >= k + 1),
{
    if board.height_map[3].has(i) {
        assert(board.height_map[3].within_board());
    }
    if board.height_map[2].has(i) {
        assert(board.height_map[2].within_board());
    }
    if board.height_map[1].has(i) {
        assert(board.height_map[1].within_board());
    }
    if board.height_map[0].has(i) {
        assert(board.height_map[0].within_board());
    }
}

pub proof fn lemma_popcount_zero(n: nat)
    requires
        n <= 32,
    ensures
        popcount(0, n) == 0,
    decreases n,
{
    broadcast use group_bit_lemmas;

    if n > 0 {
        lemma_popcount_zero((n - 1) as nat);
    }
}

/// A legal plain step of a worker: onto a free, undomed neighbour, at most one level up (and
/// exactly one level up when a climb is owed).
pub open spec fn is_standard_step(board: BoardState, from: int, to: int, must_climb: bool) -> bool {
    &&& is_adjacent(from, to)
    &&& !board.occupied(to)
    &&& board.height(to) < 4
    &&& board.height(to) <= board.height(from) + 1
    &&& (must_climb ==> board.height(to) == board.height(from) + 1)
}

/// A legal plain build after a worker moved from `from` to `to`: a neighbour of `to` that is not
/// domed, holds no worker once the mover has left `from`, and that the opposing god allows.
pub open spec fn is_standard_build(board: BoardState, build_mask: BitBoard, from: int, to: int, build: int) -> bool {
    &&& is_adjacent(to, build)
    &&& (!board.occupied(build) || build == from)
    &&& board.height(build) < 4
    &&& build_mask.has(build)
}

/// The squares the player may build on, given the opposing god: anywhere, except that next to
/// Limus' workers only a level 3 square may be domed.
pub open spec fn build_mask_allows(other_god: GodName, board: BoardState, player: Player, i: int) -> bool {
    if other_god.is_limus_spec() {
        (0 <= i < 32 && !(exists|s: int|
            0 <= s < 25 && #[trigger] board.workers[1 - player.idx()].has(s) && is_adjacent(s, i)))
            || (is_square(i) && board.height(i) == 3)
    } else {
        is_square(i)
    }
}

/// When a climb may be owed (against Persephone), none of the player's workers stands on a dome:
/// the positions the generators of gods that read the layer above a worker are defined on.
pub open spec fn no_worker_on_dome_when_climb_owed(state: FullGameState, player: Player) -> bool {
    state.gods[1 - player.idx()].is_persephone_spec() ==> forall|i: int|
        #[trigger] state.board.workers[player.idx()].has(i) ==> state.board.height(i) < 4
}

/// Whether the generator is defined on the position.
pub fn check_no_worker_on_dome_when_climb_owed(state: &FullGameState, player: Player) -> (r: bool)
    requires
        state.board.wf(),
    ensures
        r == no_worker_on_dome_when_climb_owed(*state, player),
{
    if !state.gods[player.other().index()].is_persephone() {
        return true;
    }
    let workers = state.board.workers[player.index()];
    let list = workers.squares();
    let mut k: usize = 0;
    while k < list.len()
        invariant
            k <= list@.len(),
            state.board.wf(),
            state.gods[1 - player.idx()].is_persephone_spec(),
            workers == state.board.workers[player.idx()],
            forall|j: int| 0 <= j < list@.len() ==> #[trigger] list@[j] < 25 && workers.has(list@[j] as int),
            forall|i: int| 0 <= i < 25 && #[trigger] workers.has(i) ==> list@.contains(i as u8),
            forall|j: int| 0 <= j < k ==> state.board.height(#[trigger] list@[j] as int) < 4,
        decreases list@.len() - k,
    {
        if state.board.get_height(list[k]) == 4 {
            proof {
                assert(workers.has(list@[k as int] as int));
            }
            return false;
        }
        k = k + 1;
    }
    proof {
        assert(workers.within_board());
        assert forall|i: int| #[trigger] workers.has(i) implies state.board.height(i) < 4 by {
            let j = choose|j: int| 0 <= j < list@.len() && list@[j] == i as u8;
            assert(state.board.height(list@[j] as int) < 4);
        }
    }
    true
}

/// What every move generator works from: the board seen by one player against one god.
pub struct GeneratorPreludeState {
    pub board: BoardState,
    pub player: Player,
    pub key_squares: BitBoard,
    pub other_god: GodName,
    pub exactly_level_0: BitBoard,
    pub exactly_level_1: BitBoard,
    pub exactly_level_2: BitBoard,
    pub exactly_level_3: BitBoard,
    pub domes_and_frozen: BitBoard,
    pub can_climb: bool,
    pub own_workers: BitBoard,
    pub oppo_workers: BitBoard,
    pub all_workers_and_frozen_mask: BitBoard,
    pub win_mask: BitBoard,
    pub build_mask: BitBoard,
    /// The area a god like Aphrodite confines workers to; empty here, as no god of this library
    /// confines them.
    pub affinity_area: BitBoard,
    /// Squares that teleport a worker to each other; only a token god sets them.
    pub portal_squares: BitBoard,
    /// Squares a worker could win from on its next move.
    pub mate_start_mask: BitBoard,
    pub is_against_hypnus: bool,
    /// Whether the opponent slides moving workers; never, as no god of this library does.
    pub is_against_harpies: bool,
    pub is_against_persephone: bool,
    pub is_down_prevented: bool,
    pub acting_workers: BitBoard,
}

impl GeneratorPreludeState {
    /// The prelude describes its board faithfully.
    pub open spec fn inv(self) -> bool {
        let board = self.board;
        let p = self.player.idx();
        &&& board.wf()
        &&& forall|i: int| #[trigger] self.own_workers.has(i) == board.workers[p].has(i)
        &&& forall|i: int| #[trigger] self.oppo_workers.has(i) == board.workers[1 - p].has(i)
        &&& forall|i: int| #[trigger] self.exactly_level_0.has(i) == (is_square(i) && board.height(i) == 0)
        &&& forall|i: int| #[trigger] self.exactly_level_1.has(i) == (is_square(i) && board.height(i) == 1)
        &&& forall|i: int| #[trigger] self.exactly_level_2.has(i) == (is_square(i) && board.height(i) == 2)
        &&& forall|i: int| #[trigger] self.exactly_level_3.has(i) == (is_square(i) && board.height(i) == 3)
        &&& forall|i: int| #[trigger] self.domes_and_frozen.has(i) == (is_square(i) && board.height(i) == 4)
        &&& forall|i: int| #[trigger] self.all_workers_and_frozen_mask.has(i) == board.occupied(i)
        &&& forall|i: int| #[trigger] self.win_mask.has(i) == is_square(i)
        &&& forall|i: int| #[trigger] self.build_mask.has(i) == build_mask_allows(self.other_god, board, self.player, i)
        &&& self.affinity_area.0 == 0
        &&& self.portal_squares.0 == 0
        &&& self.mate_start_mask == self.exactly_level_2
        &&& self.can_climb
        &&& !self.is_against_harpies
        &&& !self.is_down_prevented
        &&& self.is_against_hypnus == self.other_god.is_hypnus_spec()
        &&& self.is_against_persephone == self.other_god.is_persephone_spec()
        &&& forall|i: int| #[trigger] self.acting_workers.has(i) ==> self.own_workers.has(i)
    }
}

/// Both whirlpools of a token god, when both are on the board. No god here keeps tokens, so
/// there is never a portal.
pub fn get_portal_squares(state: &FullGameState, player: Player) -> (r: BitBoard)
    ensures
        r.0 == 0,
{
    let first = state.gods[player.index()];
    let second = state.gods[player.other().index()];
    if first.is_token_user() || second.is_token_user() {
        return BitBoard::empty();
    }
    BitBoard::empty()
}

/// Blocking generation narrows moves to the key squares; a worker parked on a whirlpool would
/// defend by stepping off, so with such a portal in play the narrowing would be dropped. No god
/// here keeps tokens, so there is never a portal and the key squares come back unchanged.
pub fn widen_key_squares_for_portal(state: &FullGameState, player: Player, key_squares: BitBoard) -> (r: BitBoard)
    ensures
        r == key_squares,
{
    let portal = get_portal_squares(state, player);
    if portal.is_empty() || portal.and(key_squares).is_empty() {
        return key_squares;
    }
    key_squares
}

pub fn get_generator_prelude_state(state: &FullGameState, player: Player, key_squares: BitBoard) -> (r: GeneratorPreludeState)
    requires
        state.board.wf(),
    ensures
        r.inv(),
        r.board == state.board,
        r.player == player,
        r.key_squares == key_squares,
        r.other_god == state.gods[1 - player.idx()],
        r.own_workers.0 == state.board.workers[player.idx()].0 & MAIN_SECTION,
        r.oppo_workers.0 == state.board.workers[1 - player.idx()].0 & MAIN_SECTION,
        r.other_god.is_hypnus_spec() ==> r.acting_workers.0 == crate::gods::hypnus::hypnus_filter_spec(
            state.board.height_map,
            r.own_workers.0,
        ),
        !r.other_god.is_hypnus_spec() ==> r.acting_workers == r.own_workers,
{
    broadcast use group_bit_lemmas;

    let board = state.board;
    let p = player.index();
    let o = player.other().index();
    let other_god = state.gods[o];

    let exactly_level_0 = board.exactly_level_0();
    let exactly_level_1 = board.exactly_level_1();
    let exactly_level_2 = board.exactly_level_2();
    let exactly_level_3 = board.exactly_level_3();
    let domes = board.at_least_level_4();
    let frozen = other_god.get_frozen_mask(&board, player.other());

    let main = BitBoard::main_section();
    let own_workers = board.workers[p].and(main);
    let oppo_workers = board.workers[o].and(main);
    let all_workers_mask = own_workers.or(oppo_workers);
    let win_mask = other_god.win_mask();
    let build_mask = other_god.get_build_mask(oppo_workers).or(exactly_level_3);

    let is_against_hypnus = other_god.is_hypnus();
    let is_against_harpies = other_god.is_harpies();
    let is_against_aphrodite = other_god.is_aphrodite();

    let affinity_area = if is_against_aphrodite {
        apply_neighbor_map_to_mask(oppo_workers)
    } else {
        BitBoard::empty()
    };

    let acting_workers = if is_against_hypnus {
        crate::gods::hypnus::hypnus_moveable_worker_filter(&board, own_workers)
    } else {
        own_workers
    };

    let portal_squares = get_portal_squares(state, player);
    let mate_start_mask = if portal_squares.and(exactly_level_3).and(win_mask).is_not_empty() {
        main
    } else {
        exactly_level_2
    };

    let can_climb = other_god.can_opponent_climb(&board, player.other());
    let is_down_prevented = other_god.is_preventing_down();

    let r = GeneratorPreludeState {
        board,
        player,
        key_squares,
        other_god,
        exactly_level_0,
        exactly_level_1,
        exactly_level_2,
        exactly_level_3,
        domes_and_frozen: domes.or(frozen),
        can_climb,
        own_workers,
        oppo_workers,
        all_workers_and_frozen_mask: all_workers_mask.or(frozen),
        win_mask,
        build_mask,
        affinity_area,
        portal_squares,
        mate_start_mask,
        is_against_hypnus,
        is_against_harpies,
        is_against_persephone: other_god.is_persephone(),
        is_down_prevented,
        acting_workers,
    };
    proof {
        assert(board.workers[p as int].within_board());
        assert(board.workers[o as int].within_board());
        assert forall|i: int| #[trigger] r.own_workers.has(i) == board.workers[p as int].has(i) by {
            if board.workers[p as int].has(i) {
                assert(is_square(i));
            }
        }
        assert forall|i: int| #[trigger] r.oppo_workers.has(i) == board.workers[o as int].has(i) by {
            if board.workers[o as int].has(i) {
                assert(is_square(i));
            }
        }
        assert forall|i: int| #[trigger] r.all_workers_and_frozen_mask.has(i) == board.occupied(i) by {
            assert(r.own_workers.has(i) == board.workers[p as int].has(i));
            assert(r.oppo_workers.has(i) == board.workers[o as int].has(i));
        }
        assert forall|i: int| #[trigger] r.domes_and_frozen.has(i) == (is_square(i) && board.height(i) == 4) by {
        }
        assert forall|i: int| #[trigger] r.build_mask.has(i) == build_mask_allows(other_god, board, player, i) by {
            if other_god.is_limus_spec() {
                assert forall|s: int| 0 <= s < 25 implies #[trigger] oppo_workers.has(s) == board.workers[1 - player.idx()].has(s) by {
                    assert(r.oppo_workers.has(s) == board.workers[o as int].has(s));
                }
                if 0 <= i < 32 {
                    if exists|s: int| 0 <= s < 25 && #[trigger] oppo_workers.has(s) && is_adjacent(s, i) {
                        let s = choose|s: int| 0 <= s < 25 && #[trigger] oppo_workers.has(s) && is_adjacent(s, i);
                        assert(board.workers[1 - player.idx()].has(s));
                    }
                    if exists|s: int| 0 <= s < 25 && #[trigger] board.workers[1 - player.idx()].has(s) && is_adjacent(s, i) {
                        let s = choose|s: int| 0 <= s < 25 && #[trigger] board.workers[1 - player.idx()].has(s) && is_adjacent(s, i);
                        assert(oppo_workers.has(s));
                    }
                } else {
                    assert(!exactly_level_3.has(i));
                }
            }
        }
        assert forall|i: int| #[trigger] r.acting_workers.has(i) implies r.own_workers.has(i) by {
            if is_against_hypnus {
                crate::gods::hypnus::lemma_hypnus_filter_subset(board.height_map, own_workers.0, i as u32);
            }
        }
    }
    r
}

/// In mate-only generation, only the workers that can threaten a win need to move.
pub fn modify_prelude_for_checking_workers(flags: MoveGenFlags, checkable_from_mask: BitBoard, prelude: &mut GeneratorPreludeState)
    requires
        old(prelude).inv(),
    ensures
        final(prelude).inv(),
        *final(prelude) == (GeneratorPreludeState { acting_workers: final(prelude).acting_workers, ..*old(prelude) }),
        forall|i: int| #[trigger] final(prelude).acting_workers.has(i) ==> old(prelude).acting_workers.has(i),
        flags & MATE_ONLY == 0 ==> final(prelude).acting_workers == old(prelude).acting_workers,
        flags & MATE_ONLY != 0 ==> final(prelude).acting_workers.0 == old(prelude).acting_workers.0 & checkable_from_mask.0,
{
    if is_mate_only(flags) {
        prelude.acting_workers = prelude.acting_workers.and(checkable_from_mask);
    }
}

/// The workers that may move this turn.
pub fn get_basic_acting_workers(flags: MoveGenFlags, prelude: &GeneratorPreludeState) -> (r: BitBoard)
    requires
        prelude.inv(),
    ensures
        forall|i: int| #[trigger] r.has(i) ==> prelude.own_workers.has(i),
{
    let mut acting_workers = prelude.own_workers;
    if prelude.is_against_hypnus {
        acting_workers = crate::gods::hypnus::hypnus_moveable_worker_filter(&prelude.board, acting_workers);
        proof {
            assert forall|i: int| #[trigger] acting_workers.has(i) implies prelude.own_workers.has(i) by {
                crate::gods::hypnus::lemma_hypnus_filter_subset(prelude.board.height_map, prelude.own_workers.0, i as u32);
            }
        }
    }
    if is_mate_only(flags) {
        acting_workers = acting_workers.and(prelude.mate_start_mask);
    }
    acting_workers
}

/// The one worker about to move.
pub struct WorkerStartMoveState {
    pub worker_start_pos: Square,
    pub worker_start_mask: BitBoard,
    pub worker_start_height: usize,
    pub other_own_workers: BitBoard,
    pub all_non_moving_workers: BitBoard,
    /// Could this worker win on its next move?
    pub can_mate: bool,
    /// The level 3 squares this worker wins on.
    pub winnable_squares: BitBoard,
}

impl WorkerStartMoveState {
    pub open spec fn describes(self, prelude: GeneratorPreludeState, pos: int) -> bool {
        let board = prelude.board;
        &&& self.worker_start_pos == pos
        &&& forall|i: int| #[trigger] self.worker_start_mask.has(i) == (i == pos)
        &&& self.worker_start_height == board.height(pos)
        &&& forall|i: int| #[trigger] self.other_own_workers.has(i) == (prelude.own_workers.has(i) && i != pos)
        &&& forall|i: int| #[trigger] self.all_non_moving_workers.has(i) == (board.occupied(i) && i != pos)
        &&& self.can_mate == (board.height(pos) == 2)
        &&& forall|i: int| #[trigger] self.winnable_squares.has(i) == (board.height(pos) == 2 && is_square(i) && board.height(i) == 3)
    }
}

pub fn get_worker_start_move_state(prelude: &GeneratorPreludeState, worker_start_pos: Square) -> (r: WorkerStartMoveState)
    requires
        prelude.inv(),
        worker_start_pos < 25,
        prelude.own_workers.has(worker_start_pos as int),
    ensures
        r.describes(*prelude, worker_start_pos as int),
{
    let worker_start_mask = BitBoard::as_mask(worker_start_pos);
    let worker_start_height = prelude.board.get_height(worker_start_pos);
    let other_own_workers = prelude.own_workers.xor(worker_start_mask);
    let non_moving_workers = prelude.oppo_workers.or(other_own_workers);
    let start_in_mate_mask = prelude.mate_start_mask.and(worker_start_mask);
    let can_mate = start_in_mate_mask.is_not_empty();
    let arrival_mask = if worker_start_height == 2 {
        BitBoard::main_section()
    } else {
        get_active_portal(prelude, worker_start_mask)
    };
    let winnable_squares = prelude.exactly_level_3.and(prelude.win_mask).and(arrival_mask);
    let r = WorkerStartMoveState {
        worker_start_pos,
        worker_start_mask,
        worker_start_height,
        other_own_workers,
        all_non_moving_workers: non_moving_workers,
        can_mate,
        winnable_squares,
    };
    proof {
        let p = prelude.player.idx();
        assert forall|i: int| #[trigger] r.all_non_moving_workers.has(i) == (prelude.board.occupied(i) && i != worker_start_pos) by {
            assert(prelude.own_workers.has(i) == prelude.board.workers[p].has(i));
            assert(prelude.oppo_workers.has(i) == prelude.board.workers[1 - p].has(i));
        }
        if can_mate {
            let j = choose|j: int| #[trigger] start_in_mate_mask.has(j);
            assert(j == worker_start_pos);
        } else {
            assert(!start_in_mate_mask.has(worker_start_pos as int));
        }
    }
    r
}

/// The portal as seen by one worker: none here, as there are no portals.
pub fn get_active_portal(prelude: &GeneratorPreludeState, worker_start_mask: BitBoard) -> (r: BitBoard)
    requires
        prelude.inv(),
    ensures
        r.0 == 0,
        forall|i: int| !#[trigger] r.has(i),
{
    get_active_portal_after_displacement(prelude, worker_start_mask, BitBoard::empty())
}

/// The portal as seen by a worker whose move also relocates others: the whirlpools work only
/// when neither is occupied once the move has settled.
pub fn get_active_portal_after_displacement(prelude: &GeneratorPreludeState, vacated: BitBoard, newly_filled: BitBoard) -> (r: BitBoard)
    requires
        prelude.inv(),
    ensures
        r.0 == 0,
        forall|i: int| !#[trigger] r.has(i),
{
    broadcast use group_bit_lemmas;

    let portal = prelude.portal_squares;
    if portal.is_empty() {
        return BitBoard::empty();
    }
    let occupied = prelude.all_workers_and_frozen_mask.minus(vacated).or(newly_filled);
    if portal.and(occupied).is_empty() {
        portal
    } else {
        BitBoard::empty()
    }
}

/// Entering one whirlpool lands on the other: swaps the portal pair in when exactly one of them
/// is reachable.
pub fn put_moves_through_portals(moves: BitBoard, portal: BitBoard) -> (r: BitBoard)
    ensures
        popcount(moves.0 & portal.0, 32) == 1 ==> r.0 == moves.0 ^ portal.0,
        popcount(moves.0 & portal.0, 32) != 1 ==> r == moves,
        portal.0 == 0 ==> r == moves,
{
    proof {
        if portal.0 == 0 {
            let m = moves.0;
            let pm = portal.0;
            assert(m & pm == 0) by (bit_vector)
                requires
                    pm == 0;
            lemma_popcount_zero(32);
        }
    }
    if moves.and(portal).count_ones() == 1 {
        moves.xor(portal)
    } else {
        moves
    }
}

/// Where a worker may go, and what its team threatens from the other workers.
pub struct WorkerNextMoveState {
    pub other_threatening_workers: BitBoard,
    pub other_threatening_neighbors: BitBoard,
    pub worker_moves: BitBoard,
}

pub fn get_worker_next_move_state(
    prelude: &GeneratorPreludeState,
    worker_start_state: &WorkerStartMoveState,
    checkable_from_mask: BitBoard,
    must_climb: bool,
) -> (r: WorkerNextMoveState)
    requires
        prelude.inv(),
        worker_start_state.describes(*prelude, worker_start_state.worker_start_pos as int),
        worker_start_state.worker_start_pos < 25,
    ensures
        forall|i: int| #[trigger] r.worker_moves.has(i) == is_standard_step(prelude.board, worker_start_state.worker_start_pos as int, i, must_climb),
        forall|i: int| #[trigger] r.other_threatening_workers.has(i) == (worker_start_state.other_own_workers.has(i) && checkable_from_mask.has(i)),
        forall|i: int| #[trigger] r.other_threatening_neighbors.has(i) == (exists|s: int| 0 <= s < 25 && #[trigger] r.other_threatening_workers.has(s) && is_adjacent(s, i)),
{
    let other_threatening_workers = worker_start_state.other_own_workers.and(checkable_from_mask);
    let other_threatening_neighbors = apply_neighbor_map_to_mask(other_threatening_workers);
    let worker_moves = get_basic_moves(prelude, worker_start_state, must_climb);
    let r = WorkerNextMoveState { other_threatening_workers, other_threatening_neighbors, worker_moves };
    assert forall|i: int| #[trigger] r.other_threatening_neighbors.has(i) == (exists|s: int|
        0 <= s < 25 && #[trigger] r.other_threatening_workers.has(s) && is_adjacent(s, i)) by {
        if other_threatening_neighbors.has(i) {
            let s = choose|s: int| 0 <= s < 25 && #[trigger] other_threatening_workers.has(s) && is_adjacent(s, i);
            assert(r.other_threatening_workers.has(s));
        }
        if exists|s: int| 0 <= s < 25 && #[trigger] r.other_threatening_workers.has(s) && is_adjacent(s, i) {
            let s = choose|s: int| 0 <= s < 25 && #[trigger] r.other_threatening_workers.has(s) && is_adjacent(s, i);
            assert(other_threatening_workers.has(s));
        }
    }
    r
}

/// How high a worker may climb this turn.
pub fn get_worker_climb_height(prelude: &GeneratorPreludeState, worker_start_state: &WorkerStartMoveState) -> (r: usize)
    requires
        worker_start_state.worker_start_height <= 4,
    ensures
        r == get_worker_climb_height_spec(worker_start_state.worker_start_height as int, prelude.can_climb),
{
    get_worker_climb_height_raw(worker_start_state.worker_start_height, prelude.can_climb)
}

pub open spec fn get_worker_climb_height_spec(height: int, can_climb: bool) -> int {
    let h = height + if can_climb { 1int } else { 0int };
    if h < 3 { h } else { 3 }
}

pub fn get_worker_climb_height_raw(worker_start_height: usize, can_climb: bool) -> (r: usize)
    requires
        worker_start_height <= 4,
    ensures
        r == get_worker_climb_height_spec(worker_start_height as int, can_climb),
        r <= 3,
{
    let h = worker_start_height + if can_climb { 1 } else { 0 };
    if h < 3 { h } else { 3 }
}

/// A worker starting inside the affinity area must stay inside it.
pub fn restrict_moves_by_affinity_area(worker_start_mask: BitBoard, worker_moves: BitBoard, affinity_area: BitBoard) -> (r: BitBoard)
    ensures
        worker_start_mask.0 & affinity_area.0 != 0 ==> r.0 == worker_moves.0 & affinity_area.0,
        worker_start_mask.0 & affinity_area.0 == 0 ==> r == worker_moves,
{
    if worker_start_mask.and(affinity_area).is_not_empty() {
        worker_moves.and(affinity_area)
    } else {
        worker_moves
    }
}

pub fn get_basic_moves(prelude: &GeneratorPreludeState, worker_start_state: &WorkerStartMoveState, must_climb: bool) -> (r: BitBoard)
    requires
        prelude.inv(),
        worker_start_state.describes(*prelude, worker_start_state.worker_start_pos as int),
        worker_start_state.worker_start_pos < 25,
    ensures
        forall|i: int| #[trigger] r.has(i) == is_standard_step(prelude.board, worker_start_state.worker_start_pos as int, i, must_climb),
{
    get_basic_moves_from_raw_data(
        prelude,
        worker_start_state.worker_start_pos,
        worker_start_state.worker_start_mask,
        worker_start_state.worker_start_height,
        must_climb,
    )
}

pub fn get_basic_moves_from_raw_data(
    prelude: &GeneratorPreludeState,
    worker_start_pos: Square,
    worker_start_mask: BitBoard,
    worker_start_height: usize,
    must_climb: bool,
) -> (r: BitBoard)
    requires
        prelude.inv(),
        worker_start_pos < 25,
        worker_start_height == prelude.board.height(worker_start_pos as int),
    ensures
        forall|i: int| #[trigger] r.has(i) == is_standard_step(prelude.board, worker_start_pos as int, i, must_climb),
{
    get_basic_moves_from_raw_data_with_custom_blockers(
        prelude,
        worker_start_pos,
        worker_start_mask,
        worker_start_height,
        prelude.all_workers_and_frozen_mask,
        must_climb,
    )
}

/// A plain step where `blockers` stand in for the occupied squares.
pub open spec fn is_step_with_blockers(board: BoardState, blockers: BitBoard, from: int, to: int, must_climb: bool) -> bool {
    &&& is_adjacent(from, to)
    &&& !blockers.has(to)
    &&& board.height(to) < 4
    &&& board.height(to) <= board.height(from) + 1
    &&& (must_climb ==> board.height(to) == board.height(from) + 1)
}

pub fn get_basic_moves_from_raw_data_with_custom_blockers(
    prelude: &GeneratorPreludeState,
    worker_start_pos: Square,
    worker_start_mask: BitBoard,
    worker_start_height: usize,
    blockers: BitBoard,
    must_climb: bool,
) -> (r: BitBoard)
    requires
        prelude.inv(),
        worker_start_pos < 25,
        worker_start_height == prelude.board.height(worker_start_pos as int),
    ensures
        forall|i: int| #[trigger] r.has(i) == is_step_with_blockers(prelude.board, blockers, worker_start_pos as int, i, must_climb),
        blockers == prelude.all_workers_and_frozen_mask ==> forall|i: int|
            #[trigger] r.has(i) == is_standard_step(prelude.board, worker_start_pos as int, i, must_climb),
{
    let move_mask = neighbor_mask(worker_start_pos);
    let r = get_limited_moves_given_move_mask(prelude, move_mask, worker_start_mask, worker_start_height, blockers, must_climb, true);
    proof {
        if blockers == prelude.all_workers_and_frozen_mask {
            assert forall|i: int| #[trigger] r.has(i) == is_standard_step(prelude.board, worker_start_pos as int, i, must_climb) by {
                assert(blockers.has(i) == prelude.board.occupied(i));
            }
        }
    }
    r
}

pub fn get_basic_moves_from_raw_data_with_custom_blockers_no_affinity(
    prelude: &GeneratorPreludeState,
    worker_start_pos: Square,
    worker_start_height: usize,
    blockers: BitBoard,
    must_climb: bool,
) -> (r: BitBoard)
    requires
        prelude.inv(),
        worker_start_pos < 25,
        worker_start_height == prelude.board.height(worker_start_pos as int),
    ensures
        forall|i: int| #[trigger] r.has(i) == is_step_with_blockers(prelude.board, blockers, worker_start_pos as int, i, must_climb),
{
    let move_mask = neighbor_mask(worker_start_pos);
    get_limited_moves_given_move_mask(prelude, move_mask, BitBoard::empty(), worker_start_height, blockers, must_climb, false)
}

/// Squares below a worker, which a god that forbids moving down would rule out.
pub fn get_down_blocker_mask(prelude: &GeneratorPreludeState, worker_start_height: usize) -> (r: BitBoard)
    requires
        prelude.inv(),
    ensures
        r.0 == 0,
{
    if prelude.is_down_prevented && worker_start_height > 0 && worker_start_height <= 4 {
        prelude.board.height_map[worker_start_height - 1].not()
    } else {
        BitBoard::empty()
    }
}

/// Squares a worker may move onto as far as moving down goes: all of them here.
pub fn get_down_allowed_mask(prelude: &GeneratorPreludeState, worker_start_height: usize) -> (r: BitBoard)
    requires
        prelude.inv(),
    ensures
        r.0 == MAIN_SECTION,
        forall|i: int| #[trigger] r.has(i) == is_square(i),
{
    if prelude.is_down_prevented && worker_start_height > 0 && worker_start_height <= 4 {
        prelude.board.height_map[worker_start_height - 1]
    } else {
        BitBoard::main_section()
    }
}

pub fn get_limited_moves_given_move_mask(
    prelude: &GeneratorPreludeState,
    move_mask: BitBoard,
    worker_start_mask: BitBoard,
    worker_start_height: usize,
    blockers: BitBoard,
    must_climb: bool,
    apply_affinity: bool,
) -> (r: BitBoard)
    requires
        prelude.inv(),
        worker_start_height <= 4,
        forall|i: int| #[trigger] move_mask.has(i) ==> is_square(i),
    ensures
        forall|i: int|
            #[trigger] r.has(i) == (move_mask.has(i) && !blockers.has(i) && prelude.board.height(i) < 4
                && prelude.board.height(i) <= worker_start_height + 1 && (must_climb ==> prelude.board.height(i)
                == worker_start_height + 1)),
{
    broadcast use group_bit_lemmas;

    let portal = get_active_portal(prelude, worker_start_mask);
    let board = prelude.board;
    if must_climb {
        let height_mask = if worker_start_height == 0 {
            prelude.exactly_level_1
        } else if worker_start_height == 1 {
            prelude.exactly_level_2
        } else if worker_start_height == 2 {
            prelude.exactly_level_3
        } else {
            return BitBoard::empty();
        };
        let worker_moves = move_mask.and(height_mask).minus(blockers);
        put_moves_through_portals(worker_moves, portal)
    } else {
        let down_allowed_mask = get_down_allowed_mask(prelude, worker_start_height);
        let climb_height = get_worker_climb_height_raw(worker_start_height, prelude.can_climb);
        let worker_moves = move_mask.and(down_allowed_mask).minus(board.height_map[climb_height].or(blockers));
        proof {
            assert forall|i: int| #[trigger] worker_moves.has(i) == (move_mask.has(i) && !blockers.has(i) && board.height(i) < 4
                && board.height(i) <= worker_start_height + 1) by {
                lemma_layer_is_height(board, climb_height as int, i);
            }
        }
        let worker_moves = put_moves_through_portals(worker_moves, portal);
        if apply_affinity {
            restrict_moves_by_affinity_area(worker_start_mask, worker_moves, prelude.affinity_area)
        } else {
            worker_moves
        }
    }
}

/// Where a moved worker ended up.
pub struct WorkerEndMoveState {
    pub worker_end_pos: Square,
    pub worker_end_mask: BitBoard,
    pub worker_end_height: usize,
    pub is_improving: bool,
    /// 1 when the worker could win from here next move, else 0.
    pub is_mate_capable: u32,
}

impl WorkerEndMoveState {
    pub open spec fn describes(self, prelude: GeneratorPreludeState, start: WorkerStartMoveState, pos: int) -> bool {
        let board = prelude.board;
        &&& self.worker_end_pos == pos
        &&& forall|i: int| #[trigger] self.worker_end_mask.has(i) == (i == pos)
        &&& self.worker_end_height == board.height(pos)
        &&& self.is_improving == (board.height(pos) > start.worker_start_height)
        &&& self.is_mate_capable == (if board.height(pos) == 2 { 1u32 } else { 0u32 })
    }
}

pub fn get_worker_end_move_state(prelude: &GeneratorPreludeState, worker_start_state: &WorkerStartMoveState, worker_end_pos: Square) -> (r: WorkerEndMoveState)
    requires
        prelude.inv(),
        worker_end_pos < 25,
    ensures
        r.describes(*prelude, *worker_start_state, worker_end_pos as int),
{
    let worker_end_mask = BitBoard::as_mask(worker_end_pos);
    let worker_end_height = prelude.board.get_height(worker_end_pos);
    let is_improving = worker_end_height > worker_start_state.worker_start_height;
    let end_in_mate_mask = prelude.mate_start_mask.and(worker_end_mask);
    let is_mate_capable: u32 = if end_in_mate_mask.is_not_empty() { 1 } else { 0 };
    proof {
        if end_in_mate_mask.0 != 0 {
            let j = choose|j: int| #[trigger] end_in_mate_mask.has(j);
            assert(j == worker_end_pos);
        } else {
            assert(!end_in_mate_mask.has(worker_end_pos as int));
        }
    }
    WorkerEndMoveState { worker_end_pos, worker_end_mask, worker_end_height, is_improving, is_mate_capable }
}

/// The squares on which the player would stand on level 3 next turn if they were level 3:
/// neighbours of the other level 2 workers, and of the mover when it ends on level 2.
pub fn get_standard_reach_board_from_parts(
    prelude: &GeneratorPreludeState,
    other_threatening_workers: BitBoard,
    other_threatening_neighbors: BitBoard,
    worker_end_pos: Square,
    is_mate_capable: u32,
    unblocked_squares: BitBoard,
) -> (r: BitBoard)
    requires
        prelude.inv(),
        worker_end_pos < 25,
        is_mate_capable <= 1,
    ensures
        prelude.is_against_hypnus && popcount(other_threatening_workers.0, 32) + is_mate_capable < 2 ==> r.0 == 0,
        !(prelude.is_against_hypnus && popcount(other_threatening_workers.0, 32) + is_mate_capable < 2) ==> forall|i: int|
            #[trigger] r.has(i) == ((other_threatening_neighbors.has(i) || (is_mate_capable == 1 && is_adjacent(worker_end_pos as int, i)))
                && is_square(i) && unblocked_squares.has(i)),
{
    let next_turn_moves = put_moves_through_portals(neighbor_mask(worker_end_pos), prelude.portal_squares).and(unblocked_squares);
    if prelude.is_against_hypnus && prelude.portal_squares.is_empty()
        && (other_threatening_workers.count_ones() + is_mate_capable) < 2 {
        BitBoard::empty()
    } else {
        let scaled = if is_mate_capable == 1 { next_turn_moves } else { BitBoard::empty() };
        other_threatening_neighbors.or(scaled).and(prelude.win_mask).and(unblocked_squares)
    }
}

pub fn get_standard_reach_board(
    prelude: &GeneratorPreludeState,
    worker_move_state: &WorkerNextMoveState,
    worker_end_move_state: &WorkerEndMoveState,
    unblocked_squares: BitBoard,
) -> (r: BitBoard)
    requires
        prelude.inv(),
        worker_end_move_state.worker_end_pos < 25,
        worker_end_move_state.is_mate_capable <= 1,
    ensures
        prelude.is_against_hypnus && popcount(worker_move_state.other_threatening_workers.0, 32)
            + worker_end_move_state.is_mate_capable < 2 ==> r.0 == 0,
        !(prelude.is_against_hypnus && popcount(worker_move_state.other_threatening_workers.0, 32)
            + worker_end_move_state.is_mate_capable < 2) ==> forall|i: int|
            #[trigger] r.has(i) == ((worker_move_state.other_threatening_neighbors.has(i) || (
            worker_end_move_state.is_mate_capable == 1 && is_adjacent(worker_end_move_state.worker_end_pos as int, i)))
                && is_square(i) && unblocked_squares.has(i)),
{
    get_standard_reach_board_from_parts(
        prelude,
        worker_move_state.other_threatening_workers,
        worker_move_state.other_threatening_neighbors,
        worker_end_move_state.worker_end_pos,
        worker_end_move_state.is_mate_capable,
        unblocked_squares,
    )
}

/// The squares the player could win on next turn for gods whose workers may reach level 3 from
/// below it: next to the level 2 workers and to the mover when it ends on level 2. Against Hypnus
/// that needs two such workers or one already on level 3, and a mover ending on level 3 adds none.
pub fn get_reach_board_when_can_be_level_3(
    prelude: &GeneratorPreludeState,
    other_threatening_workers: BitBoard,
    other_threatening_neighbors: BitBoard,
    has_level_3_others: bool,
    worker_end_pos: Square,
    worker_end_height: usize,
    unblocked_squares: BitBoard,
) -> (r: BitBoard)
    requires
        prelude.inv(),
        worker_end_pos < 25,
    ensures
        !prelude.is_against_hypnus ==> forall|i: int| #[trigger] r.has(i) == ((other_threatening_neighbors.has(i) || (
            worker_end_height == 2 && is_adjacent(worker_end_pos as int, i))) && is_square(i) && unblocked_squares.has(i)),
        prelude.is_against_hypnus && worker_end_height == 3 ==> forall|i: int| #[trigger] r.has(i) == (
            other_threatening_neighbors.has(i) && unblocked_squares.has(i)),
        prelude.is_against_hypnus && worker_end_height != 3 && (has_level_3_others || popcount(other_threatening_workers.0, 32)
            + (if worker_end_height == 2 { 1int } else { 0int }) >= 2) ==> forall|i: int| #[trigger] r.has(i) == ((
            other_threatening_neighbors.has(i) || (worker_end_height == 2 && is_adjacent(worker_end_pos as int, i)))
            && unblocked_squares.has(i)),
        prelude.is_against_hypnus && worker_end_height != 3 && !(has_level_3_others || popcount(other_threatening_workers.0, 32)
            + (if worker_end_height == 2 { 1int } else { 0int }) >= 2) ==> r.0 == 0,
{
    let next_turn_moves = neighbor_mask(worker_end_pos);
    let mover_reach = if worker_end_height == 2 { next_turn_moves } else { BitBoard::empty() };
    if prelude.is_against_hypnus {
        let is_now_lvl_2: u32 = if worker_end_height == 2 { 1 } else { 0 };
        if worker_end_height == 3 {
            other_threatening_neighbors.and(unblocked_squares)
        } else if has_level_3_others || other_threatening_workers.count_ones() + is_now_lvl_2 >= 2 {
            other_threatening_neighbors.or(mover_reach).and(unblocked_squares)
        } else {
            BitBoard::empty()
        }
    } else {
        other_threatening_neighbors.or(mover_reach).and(prelude.win_mask).and(unblocked_squares)
    }
}

/// Where the moved worker may build.
pub struct WorkerNextBuildState {
    pub unblocked_squares: BitBoard,
    pub all_possible_builds: BitBoard,
    pub narrowed_builds: BitBoard,
}

impl WorkerNextBuildState {
    pub open spec fn describes(self, prelude: GeneratorPreludeState, from: int, to: int) -> bool {
        &&& forall|i: int| #[trigger] self.unblocked_squares.has(i) == (0 <= i < 32 && !(prelude.board.occupied(i) && i != from) && i != to
            && !(is_square(i) && prelude.board.height(i) == 4))
        &&& forall|i: int| #[trigger] self.all_possible_builds.has(i) == is_standard_build(prelude.board, prelude.build_mask, from, to, i)
        &&& forall|i: int| #[trigger] self.narrowed_builds.has(i) ==> self.all_possible_builds.has(i)
    }
}

pub fn get_worker_next_build_state_with_is_matched(
    flags: MoveGenFlags,
    prelude: &GeneratorPreludeState,
    worker_start_state: &WorkerStartMoveState,
    worker_end_move_state: &WorkerEndMoveState,
    is_key_squares_matched: bool,
) -> (r: WorkerNextBuildState)
    requires
        prelude.inv(),
        worker_start_state.describes(*prelude, worker_start_state.worker_start_pos as int),
        worker_end_move_state.describes(*prelude, *worker_start_state, worker_end_move_state.worker_end_pos as int),
        worker_end_move_state.worker_end_pos < 25,
    ensures
        r.describes(*prelude, worker_start_state.worker_start_pos as int, worker_end_move_state.worker_end_pos as int),
        !is_interact_with_key_squares_spec(flags) || is_key_squares_matched ==> r.narrowed_builds == r.all_possible_builds,
        is_interact_with_key_squares_spec(flags) && !is_key_squares_matched ==> r.narrowed_builds.0 == r.all_possible_builds.0 & prelude.key_squares.0,
{
    broadcast use group_bit_lemmas;

    let unblocked_squares = worker_start_state.all_non_moving_workers.or(worker_end_move_state.worker_end_mask).or(prelude.domes_and_frozen).not();
    let all_possible_builds = neighbor_mask(worker_end_move_state.worker_end_pos).and(unblocked_squares).and(prelude.build_mask);
    let mut narrowed_builds = all_possible_builds;
    if is_interact_with_key_squares(flags) {
        if !is_key_squares_matched {
            narrowed_builds = narrowed_builds.and(prelude.key_squares);
        }
    }
    WorkerNextBuildState { unblocked_squares, all_possible_builds, narrowed_builds }
}

pub open spec fn is_interact_with_key_squares_spec(flags: MoveGenFlags) -> bool {
    flags & crate::generic::INTERACT_WITH_KEY_SQUARES != 0
}

pub fn get_worker_next_build_state(
    flags: MoveGenFlags,
    prelude: &GeneratorPreludeState,
    worker_start_state: &WorkerStartMoveState,
    worker_end_move_state: &WorkerEndMoveState,
) -> (r: WorkerNextBuildState)
    requires
        prelude.inv(),
        worker_start_state.describes(*prelude, worker_start_state.worker_start_pos as int),
        worker_end_move_state.describes(*prelude, *worker_start_state, worker_end_move_state.worker_end_pos as int),
        worker_end_move_state.worker_end_pos < 25,
    ensures
        r.describes(*prelude, worker_start_state.worker_start_pos as int, worker_end_move_state.worker_end_pos as int),
        !is_interact_with_key_squares_spec(flags) || prelude.key_squares.has(worker_end_move_state.worker_end_pos as int)
            ==> r.narrowed_builds == r.all_possible_builds,
        is_interact_with_key_squares_spec(flags) && !prelude.key_squares.has(worker_end_move_state.worker_end_pos as int)
            ==> r.narrowed_builds.0 == r.all_possible_builds.0 & prelude.key_squares.0,
{
    let end_in_key_squares = worker_end_move_state.worker_end_mask.and(prelude.key_squares);
    let is_already_matched = end_in_key_squares.is_not_empty();
    proof {
        if is_already_matched {
            let j = choose|j: int| #[trigger] end_in_key_squares.has(j);
            assert(j == worker_end_move_state.worker_end_pos);
        } else {
            assert(!end_in_key_squares.has(worker_end_move_state.worker_end_pos as int));
        }
    }
    get_worker_next_build_state_with_is_matched(flags, prelude, worker_start_state, worker_end_move_state, is_already_matched)
}

/// A winning move of `worker_start_pos` onto a square of `wins`, tagged with `extra`.
pub open spec fn is_winning_entry(m: ScoredMove, worker_start_pos: Square, wins: BitBoard, extra: u32) -> bool {
    &&& exists|sq: u8| sq < 25 && #[trigger] wins.has(sq as int)
        && m.action.0 == (worker_start_pos as u32) | ((sq as u32) << 5u32) | extra | MOVE_IS_WINNING_MASK
    &&& m.score == crate::generic::WINNING_MOVE_SCORE
}

/// Pushes a winning move from `worker_start_pos` for each square of `wins`, whose word is the two
/// squares, the god's own `extra` bits and the winning flag. Returns true when generation should
/// stop because a win was found and the flags ask to stop on one.
pub fn push_winning_moves(
    flags: MoveGenFlags,
    result: &mut Vec<ScoredMove>,
    worker_start_pos: Square,
    wins: BitBoard,
    extra: u32,
) -> (stop: bool)
    requires
        worker_start_pos < 25,
    ensures
        final(result)@.len() >= old(result)@.len(),
        forall|k: int| 0 <= k < old(result)@.len() ==> #[trigger] final(result)@[k] == old(result)@[k],
        forall|k: int| old(result)@.len() <= k < final(result)@.len() ==> #[trigger] is_winning_entry(
            final(result)@[k],
            worker_start_pos,
            wins,
            extra,
        ),
        stop ==> flags & STOP_ON_MATE != 0 && final(result)@.len() > old(result)@.len(),
        flags & STOP_ON_MATE != 0 && (exists|sq: int| 0 <= sq < 25 && #[trigger] wins.has(sq)) ==> stop,
        stop ==> exists|sq: int| 0 <= sq < 25 && #[trigger] wins.has(sq),
        !stop ==> forall|sq: int| 0 <= sq < 25 && #[trigger] wins.has(sq) ==> exists|k: int|
            old(result)@.len() <= k < final(result)@.len() && #[trigger] final(result)@[k].action.0
                == (worker_start_pos as u32) | ((sq as u32) << 5u32) | extra | MOVE_IS_WINNING_MASK,
        final(result)@.len() - old(result)@.len() <= crate::bitboard::squares_below(wins.0, 25).len(),
        forall|k: int| old(result)@.len() <= k < final(result)@.len() ==> #[trigger] final(result)@[k].action.0
            == (worker_start_pos as u32) | ((crate::bitboard::squares_below(wins.0, 25)[k - old(result)@.len()] as u32) << 5u32) | extra
            | MOVE_IS_WINNING_MASK,
{
    let ends = wins.squares();
    let ghost start_len = result@.len();
    let mut idx: usize = 0;
    while idx < ends.len()
        invariant
            idx <= ends@.len(),
            worker_start_pos < 25,
            start_len == old(result)@.len(),
            forall|k: int| 0 <= k < ends@.len() ==> #[trigger] ends@[k] < 25 && wins.has(ends@[k] as int),
            forall|sq: int| 0 <= sq < 25 && #[trigger] wins.has(sq) ==> ends@.contains(sq as u8),
            ends@ == crate::bitboard::squares_below(wins.0, 25),
            flags & STOP_ON_MATE != 0 ==> idx == 0,
            result@.len() == start_len + idx,
            forall|k: int| 0 <= k < start_len ==> #[trigger] result@[k] == old(result)@[k],
            forall|k: int| start_len <= k < result@.len() ==> #[trigger] result@[k].action.0
                == (worker_start_pos as u32) | ((ends@[k - start_len] as u32) << 5u32) | extra | MOVE_IS_WINNING_MASK
                && result@[k].score == crate::generic::WINNING_MOVE_SCORE,
        decreases ends@.len() - idx,
    {
        let end_pos = ends[idx];
        let data = (worker_start_pos as u32) | ((end_pos as u32) << 5u32) | extra | MOVE_IS_WINNING_MASK;
        let ghost before = result@;
        result.push(ScoredMove::new_winning_move(GenericMove(data)));
        idx = idx + 1;
        if is_stop_on_mate(flags) {
            proof {
                assert(wins.has(end_pos as int));
                assert forall|k: int| start_len <= k < result@.len() implies #[trigger] result@[k].action.0
                    == (worker_start_pos as u32) | ((ends@[k - start_len] as u32) << 5u32) | extra | MOVE_IS_WINNING_MASK by {
                    if k < before.len() {
                        assert(result@[k] == before[k]);
                    }
                }
            }
            proof {
                assert forall|k: int| start_len <= k < result@.len() implies #[trigger] is_winning_entry(result@[k], worker_start_pos, wins, extra) by {
                    let sq = ends@[k - start_len];
                    assert(wins.has(sq as int));
                    assert(result@[k].action.0 == (worker_start_pos as u32) | ((sq as u32) << 5u32) | extra | MOVE_IS_WINNING_MASK);
                    assert(result@[k].score == crate::generic::WINNING_MOVE_SCORE);
                }
            }
            return true;
        }
    }
    proof {
        if flags & STOP_ON_MATE != 0 && (exists|sq: int| 0 <= sq < 25 && #[trigger] wins.has(sq)) {
            let sq = choose|sq: int| 0 <= sq < 25 && #[trigger] wins.has(sq);
            assert(ends@.contains(sq as u8));
        }
    }
    proof {
        assert forall|k: int| start_len <= k < result@.len() implies #[trigger] is_winning_entry(result@[k], worker_start_pos, wins, extra) by {
            let sq = ends@[k - start_len];
            assert(wins.has(sq as int));
            assert(result@[k].action.0 == (worker_start_pos as u32) | ((sq as u32) << 5u32) | extra | MOVE_IS_WINNING_MASK);
            assert(result@[k].score == crate::generic::WINNING_MOVE_SCORE);
        }
        assert forall|sq: int| 0 <= sq < 25 && #[trigger] wins.has(sq) implies exists|k: int|
            start_len <= k < result@.len() && #[trigger] result@[k].action.0
                == (worker_start_pos as u32) | ((sq as u32) << 5u32) | extra | MOVE_IS_WINNING_MASK by {
            let j = choose|j: int| 0 <= j < ends@.len() && ends@[j] == sq as u8;
            assert(result@[start_len + j].action.0 == (worker_start_pos as u32) | ((sq as u32) << 5u32) | extra | MOVE_IS_WINNING_MASK);
        }
    }
    false
}

/// An empty move list.
pub fn get_sized_result(flags: MoveGenFlags) -> (r: Vec<ScoredMove>)
    ensures
        r@.len() == 0,
{
    let capacity: usize = if is_mate_only(flags) { 1 } else { 128 };
    Vec::with_capacity(capacity)
}

} // verus!
