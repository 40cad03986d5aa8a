use vstd::prelude::*;

use crate::bitboard::{group_bit_lemmas, neighbor_mask, BitBoard, MAIN_SECTION};
use crate::board::{BoardState, FullGameState, Player};
use crate::generic::{
    build_scored_move, field_at, is_mate_only, is_stop_on_mate, is_winning_data, read_position, GenericMove, MoveData,
    MoveGenFlags, ScoredMove, ANY_MOVE_FILTER, MOVE_IS_WINNING_MASK, NARROWING_FLAGS,
};
use crate::gods::mortal::{
    lemma_lists_word_grows, lists_word, is_acting_worker, is_standard_build_for, is_win_step, lemma_mortal_move_round_trip, lemma_move_worker_keeps_wf,
    lemma_prelude_acting, mortal_basic_data, win_targets,
};
use crate::gods::move_helpers::{
    get_generator_prelude_state, get_sized_result, get_standard_reach_board, get_worker_end_move_state,
    get_worker_next_build_state, get_worker_next_move_state, get_worker_start_move_state, is_standard_step, is_winning_entry,
    push_winning_moves, GeneratorPreludeState,
};
use crate::square::{is_adjacent, is_beyond, is_square, push_mapping, Square};
use crate::gods::{BoardSymmetry, PlacementType, god_power, GodName, GodPower};

verus! {

/// Set on a win that comes from surrounding an opponent worker rather than from climbing.
pub const IS_DANCE_WIN_BIT: MoveData = 0x8000;

/// A Maenads turn: a plain move and build, a climbing win, or a win by surrounding an opponent worker.
#[derive(Clone, Copy, PartialEq, Eq, Structural, Debug)]
pub struct MaenadsMove(pub MoveData);

impl MaenadsMove {
    fn new_basic_move(move_from_position: Square, move_to_position: Square, build_position: Square) -> (r: Self)
        requires
            move_from_position < 25,
            move_to_position < 25,
            build_position < 25,
        ensures
            r.0 == (move_from_position as u32) | ((move_to_position as u32) << 5u32) | ((build_position as u32) << 10u32),
    {
        Self((move_from_position as u32) | ((move_to_position as u32) << 5u32) | ((build_position as u32) << 10u32))
    }

    fn new_winning_move(move_from_position: Square, move_to_position: Square) -> (r: Self)
        requires
            move_from_position < 25,
            move_to_position < 25,
        ensures
            r.0 == (move_from_position as u32) | ((move_to_position as u32) << 5u32) | (25u32 << 10u32) | (0u32 << 15u32) | MOVE_IS_WINNING_MASK,
    {
        Self((move_from_position as u32) | ((move_to_position as u32) << 5u32) | (25u32 << 10u32) | (0u32 << 15u32) | MOVE_IS_WINNING_MASK)
    }

    fn new_winning_dance_move(move_from_position: Square, move_to_position: Square) -> (r: Self)
        requires
            move_from_position < 25,
            move_to_position < 25,
        ensures
            r.0 == (move_from_position as u32) | ((move_to_position as u32) << 5u32) | (0u32 << 10u32) | (1u32 << 15u32) | MOVE_IS_WINNING_MASK,
    {
        Self((move_from_position as u32) | ((move_to_position as u32) << 5u32) | (0u32 << 10u32) | (1u32 << 15u32) | MOVE_IS_WINNING_MASK)
    }

    pub fn move_from_position(&self) -> (r: Square)
        ensures
            r == field_at(self.0, 0),
            r < 32,
    {
        read_position(self.0, 0)
    }

    pub fn move_to_position(&self) -> (r: Square)
        ensures
            r == field_at(self.0, 5),
            r < 32,
    {
        read_position(self.0, 5)
    }

    pub fn build_position(self) -> (r: Square)
        ensures
            r == field_at(self.0, 10),
            r < 32,
    {
        read_position(self.0, 10)
    }

    /// The start and end squares of the moving worker.
    fn move_mask(self) -> (r: BitBoard)
        ensures
            r.0 == (1u32 << field_at(self.0, 0)) ^ (1u32 << field_at(self.0, 5)),
    {
        BitBoard::as_mask(self.move_from_position()).xor(BitBoard::as_mask(self.move_to_position()))
    }

    fn get_is_winning(&self) -> (r: bool)
        ensures
            r == is_winning_data(self.0),
    {
        (self.0 & MOVE_IS_WINNING_MASK) != 0
    }

    fn get_is_dance_win(&self) -> (r: bool)
        ensures
            r == (self.0 & IS_DANCE_WIN_BIT != 0),
    {
        (self.0 & IS_DANCE_WIN_BIT) != 0
    }
}

/// The word of a win by climbing.
pub open spec fn maenads_climb_win_data(from: u32, to: u32) -> u32 {
    from | (to << 5u32) | 0x6400u32 | MOVE_IS_WINNING_MASK
}

/// The word of a win by surrounding.
pub open spec fn maenads_dance_win_data(from: u32, to: u32) -> u32 {
    from | (to << 5u32) | IS_DANCE_WIN_BIT | MOVE_IS_WINNING_MASK
}

/// The winning words read back their squares and flags.
proof fn lemma_maenads_win_words(from: u32, to: u32)
    by (bit_vector)
    requires
        from < 32,
        to < 32,
    ensures
        ((from | (to << 5u32) | 0x6400u32 | 0x8000_0000u32) >> 0u32) & 31u32 == from,
        ((from | (to << 5u32) | 0x6400u32 | 0x8000_0000u32) >> 5u32) & 31u32 == to,
        (from | (to << 5u32) | 0x6400u32 | 0x8000_0000u32) & 0x8000_0000u32 != 0,
        (from | (to << 5u32) | 0x6400u32 | 0x8000_0000u32) & 0x8000u32 == 0,
        ((from | (to << 5u32) | 0x8000u32 | 0x8000_0000u32) >> 0u32) & 31u32 == from,
        ((from | (to << 5u32) | 0x8000u32 | 0x8000_0000u32) >> 5u32) & 31u32 == to,
        (from | (to << 5u32) | 0x8000u32 | 0x8000_0000u32) & 0x8000_0000u32 != 0,
        (from | (to << 5u32) | 0x8000u32 | 0x8000_0000u32) & 0x8000u32 != 0,
{
}

/// A square where a worker surrounds an opposing worker: past one that neighbours a worker of the
/// player, seen from that worker.
pub open spec fn is_mad_spot(board: BoardState, p: int, s: int) -> bool {
    exists|w: int, o: int|
        board.workers[p].has(w) && board.workers[1 - p].has(o) && is_adjacent(w, o) && #[trigger] is_beyond(w, o, s)
}

/// A legal Maenads turn read off its word: a climb onto level 3; a step onto a square that
/// surrounds an opposing worker, which wins; or a plain move that does neither, and a build.
pub open spec fn is_maenads_turn(state: FullGameState, player: Player, must_climb: bool, data: u32) -> bool {
    let board = state.board;
    let p = player.idx();
    let from = field_at(data, 0);
    let to = field_at(data, 5);
    let build = field_at(data, 10);
    &&& is_acting_worker(state, player, from as int)
    &&& is_standard_step(board, from as int, to as int, must_climb)
    &&& if is_winning_data(data) {
        if data & IS_DANCE_WIN_BIT != 0 {
            &&& data == maenads_dance_win_data(from, to)
            &&& is_mad_spot(board, p, to as int)
        } else {
            &&& data == maenads_climb_win_data(from, to)
            &&& is_win_step(false, board.height(from as int), board.height(to as int))
        }
    } else {
        &&& data == mortal_basic_data(from, to, build)
        &&& !is_win_step(false, board.height(from as int), board.height(to as int))
        &&& !is_mad_spot(board, p, to as int)
        &&& is_standard_build_for(state, player, from as int, to as int, build as int)
    }
}

/// A turn owed a climb is a turn.
pub proof fn lemma_maenads_climb_is_turn(state: FullGameState, player: Player, data: u32)
    ensures
        is_maenads_turn(state, player, true, data) ==> is_maenads_turn(state, player, false, data),
{
}

/// What playing a Maenads turn needs, read off the turn.
pub proof fn lemma_maenads_turn_playable(state: FullGameState, player: Player, data: u32)
    requires
        state.board.wf(),
        is_maenads_turn(state, player, false, data),
    ensures
        field_at(data, 0) < 25,
        field_at(data, 5) < 25,
        state.board.workers[player.idx()].has(field_at(data, 0) as int),
        !state.board.occupied(field_at(data, 5) as int),
        !is_winning_data(data) ==> field_at(data, 10) < 25 && state.board.height(field_at(data, 10) as int) < 4,
{
    assert(state.board.workers[player.idx()].within_board());
}

/// The squares where a worker would surround an opposing worker: one step past each opposing
/// worker that neighbours a worker of the player.
fn mad_spots(prelude: &GeneratorPreludeState) -> (r: BitBoard)
    requires
        prelude.inv(),
    ensures
        forall|s: int| #[trigger] r.has(s) == is_mad_spot(prelude.board, prelude.player.idx(), s),
{
    broadcast use group_bit_lemmas;

    let ghost board = prelude.board;
    let ghost p = prelude.player.idx();
    let mut spots = BitBoard::empty();
    let own = prelude.own_workers.squares();
    let mut wi: usize = 0;
    while wi < own.len()
        invariant
            wi <= own@.len(),
            prelude.inv(),
            board == prelude.board,
            p == prelude.player.idx(),
            forall|k: int| 0 <= k < own@.len() ==> #[trigger] own@[k] < 25 && prelude.own_workers.has(own@[k] as int),
            forall|w: int| 0 <= w < 25 && #[trigger] prelude.own_workers.has(w) ==> own@.contains(w as u8),
            forall|s: int| #[trigger] spots.has(s) == (exists|k: int, o: int|
                0 <= k < wi && board.workers[1 - p].has(o) && is_adjacent(own@[k] as int, o) && #[trigger] is_beyond(
                    own@[k] as int,
                    o,
                    s,
                )),
        decreases own@.len() - wi,
    {
        let worker_pos = own[wi];
        let oppo_near = neighbor_mask(worker_pos).and(prelude.oppo_workers);
        let oppo_neighbors = oppo_near.squares();
        let ghost before = spots;
        let mut oi: usize = 0;
        while oi < oppo_neighbors.len()
            invariant
                oi <= oppo_neighbors@.len(),
                wi < own@.len(),
                worker_pos == own@[wi as int],
                worker_pos < 25,
                prelude.inv(),
                board == prelude.board,
                p == prelude.player.idx(),
                forall|k: int| 0 <= k < oppo_neighbors@.len() ==> #[trigger] oppo_neighbors@[k] < 25 && is_adjacent(
                    worker_pos as int,
                    oppo_neighbors@[k] as int,
                ) && board.workers[1 - p].has(oppo_neighbors@[k] as int),
                forall|s: int| #[trigger] spots.has(s) == (before.has(s) || exists|m: int|
                    0 <= m < oi && #[trigger] is_beyond(worker_pos as int, oppo_neighbors@[m] as int, s)),
            decreases oppo_neighbors@.len() - oi,
        {
            let oppo_neighbor = oppo_neighbors[oi];
            let ghost prev = spots;
            match push_mapping(worker_pos, oppo_neighbor) {
                Some(other_side_pos) => {
                    spots = spots.or(BitBoard::as_mask(other_side_pos));
                    proof {
                        assert forall|s: int| #[trigger] spots.has(s) == (before.has(s) || exists|m: int|
                            0 <= m < oi + 1 && #[trigger] is_beyond(worker_pos as int, oppo_neighbors@[m] as int, s)) by {
                            if s == other_side_pos {
                                assert(is_beyond(worker_pos as int, oppo_neighbors@[oi as int] as int, s));
                            }
                            if exists|m: int| 0 <= m < oi + 1 && #[trigger] is_beyond(worker_pos as int, oppo_neighbors@[m] as int, s) {
                                let m = choose|m: int| 0 <= m < oi + 1 && #[trigger] is_beyond(worker_pos as int, oppo_neighbors@[m] as int, s);
                                if m == oi {
                                    assert(s == other_side_pos as int);
                                } else {
                                    assert(prev.has(s));
                                }
                            }
                        }
                    }
                },
                None => {
                    proof {
                        assert forall|s: int| #[trigger] spots.has(s) == (before.has(s) || exists|m: int|
                            0 <= m < oi + 1 && #[trigger] is_beyond(worker_pos as int, oppo_neighbors@[m] as int, s)) by {
                            if exists|m: int| 0 <= m < oi + 1 && #[trigger] is_beyond(worker_pos as int, oppo_neighbors@[m] as int, s) {
                                let m = choose|m: int| 0 <= m < oi + 1 && #[trigger] is_beyond(worker_pos as int, oppo_neighbors@[m] as int, s);
                                assert(m != oi);
                            }
                        }
                    }
                },
            }
            oi = oi + 1;
        }
        proof {
            assert forall|s: int| #[trigger] spots.has(s) == (exists|k: int, o: int|
                0 <= k < wi + 1 && board.workers[1 - p].has(o) && is_adjacent(own@[k] as int, o) && #[trigger] is_beyond(
                    own@[k] as int,
                    o,
                    s,
                )) by {
                if spots.has(s) && !before.has(s) {
                    let m = choose|m: int| 0 <= m < oppo_neighbors@.len() && #[trigger] is_beyond(worker_pos as int, oppo_neighbors@[m] as int, s);
                    let o = oppo_neighbors@[m] as int;
                    assert(0 <= wi < wi + 1 && board.workers[1 - p].has(o) && is_adjacent(own@[wi as int] as int, o) && is_beyond(
                        own@[wi as int] as int,
                        o,
                        s,
                    ));
                }
                if exists|k: int, o: int|
                    0 <= k < wi + 1 && board.workers[1 - p].has(o) && is_adjacent(own@[k] as int, o) && #[trigger] is_beyond(
                        own@[k] as int,
                        o,
                        s,
                    ) {
                    let (k, o) = choose|k: int, o: int|
                        0 <= k < wi + 1 && board.workers[1 - p].has(o) && is_adjacent(own@[k] as int, o) && #[trigger] is_beyond(
                            own@[k] as int,
                            o,
                            s,
                        );
                    if k == wi {
                        assert(oppo_near.has(o));
                        assert(oppo_neighbors@.contains(o as u8));
                        let m = choose|m: int| 0 <= m < oppo_neighbors@.len() && oppo_neighbors@[m] == o as u8;
                        assert(is_beyond(worker_pos as int, oppo_neighbors@[m] as int, s));
                    } else {
                        assert(before.has(s));
                    }
                }
            }
        }
        wi = wi + 1;
    }
    proof {
        assert forall|s: int| #[trigger] spots.has(s) == is_mad_spot(board, p, s) by {
            if spots.has(s) {
                let (k, o) = choose|k: int, o: int|
                    0 <= k < own@.len() && board.workers[1 - p].has(o) && is_adjacent(own@[k] as int, o) && #[trigger] is_beyond(
                        own@[k] as int,
                        o,
                        s,
                    );
                assert(board.workers[p].has(own@[k] as int));
            }
            if is_mad_spot(board, p, s) {
                let (w, o) = choose|w: int, o: int|
                    board.workers[p].has(w) && board.workers[1 - p].has(o) && is_adjacent(w, o) && #[trigger] is_beyond(w, o, s);
                assert(prelude.own_workers.has(w));
                assert(own@.contains(w as u8));
                let k = choose|k: int| 0 <= k < own@.len() && own@[k] == w as u8;
                assert(is_beyond(own@[k] as int, o, s));
            }
        }
    }
    spots
}

impl MaenadsMove {
    /// Plays the turn: the worker moves, and either wins or builds.
    pub fn make_move(self, board: &mut BoardState, player: Player)
        requires
            old(board).wf(),
            field_at(self.0, 0) < 25,
            field_at(self.0, 5) < 25,
            old(board).workers[player.idx()].has(field_at(self.0, 0) as int),
            !old(board).occupied(field_at(self.0, 5) as int),
            !is_winning_data(self.0) ==> field_at(self.0, 10) < 25 && old(board).height(field_at(self.0, 10) as int) < 4,
        ensures
            final(board).wf(),
            final(board).current_player == old(board).current_player,
            final(board).god_data == old(board).god_data,
            final(board).workers[1 - player.idx()] == old(board).workers[1 - player.idx()],
            final(board).workers[player.idx()].0 == old(board).workers[player.idx()].0 ^ ((1u32 << field_at(self.0, 0)) ^ (1u32
                << field_at(self.0, 5))),
            is_winning_data(self.0) ==> final(board).winner == Some(player) && final(board).height_map == old(board).height_map,
            !is_winning_data(self.0) ==> final(board).winner == old(board).winner,
            !is_winning_data(self.0) ==> forall|i: int| #[trigger] final(board).height(i) == (if i == field_at(self.0, 10) {
                old(board).height(i) + 1
            } else {
                old(board).height(i)
            }),
    {
        let ghost before = *board;
        board.worker_xor(player, self.move_mask());
        proof {
            lemma_move_worker_keeps_wf(before, *board, player, field_at(self.0, 0), field_at(self.0, 5));
        }
        if self.get_is_winning() {
            board.set_winner(player);
            return;
        }
        board.build_up(self.build_position());
    }

    pub fn to_generic(self) -> (r: GenericMove)
        ensures
            r.0 == self.0,
    {
        GenericMove(self.0)
    }
}

/// A win by surrounding from `from` is listed only when some square the worker can dance to
/// leaves a build open next to it.
pub open spec fn maenads_dance_build_open(state: FullGameState, player: Player, must_climb: bool, from: int) -> bool {
    exists|e: int, b: int|
        is_standard_step(state.board, from, e, must_climb) && !is_win_step(false, state.board.height(from), state.board.height(e))
            && is_mad_spot(state.board, player.idx(), e) && #[trigger] is_standard_build_for(state, player, from, e, b)
}

/// Persephone's rule on a list of Maenads turns: when a climbing turn is owed, every listed turn
/// climbs.
pub open spec fn keeps_persephone_rule(state: FullGameState, player: Player, r: Seq<ScoredMove>) -> bool {
    (exists|d: u32| #[trigger] maenads_turn_owed(state, player, true, d)) ==> forall|k: int|
        0 <= k < r.len() ==> #[trigger] is_maenads_turn(state, player, true, r[k].action.0)
}

/// The turns the generator owes with no narrowing filter on: every legal turn, except that a win
/// by surrounding is listed only when it does not also climb onto level 3 and some square the
/// worker could dance to (climbing, when a climb is owed) leaves a build open; against Persephone,
/// when a climb exists, only the climbing ones.
pub open spec fn maenads_turn_owed(state: FullGameState, player: Player, must_climb: bool, data: u32) -> bool {
    let from = field_at(data, 0);
    let to = field_at(data, 5);
    let climb_owed = state.gods[1 - player.idx()].is_persephone_spec() && exists|d: u32| #[trigger] is_maenads_turn(state, player, true, d);
    &&& is_maenads_turn(state, player, must_climb, data)
    &&& is_winning_data(data) && data & IS_DANCE_WIN_BIT != 0 ==> !is_win_step(
        false,
        state.board.height(from as int),
        state.board.height(to as int),
    ) && maenads_dance_build_open(state, player, must_climb || climb_owed, from as int)
    &&& (state.gods[1 - player.idx()].is_persephone_spec() && !must_climb && exists|d: u32| #[trigger] is_maenads_turn(state, player, true, d))
        ==> is_maenads_turn(state, player, true, data)
}

/// Maenads's move generator. A win by surrounding is emitted, for every square that gives one,
/// each time a square the worker could dance to leaves a build open.
pub fn maenads_move_gen(
    flags: MoveGenFlags,
    state: &FullGameState,
    player: Player,
    key_squares: BitBoard,
    must_climb: bool,
) -> (result: Vec<ScoredMove>)
    requires
        state.board.wf(),
    ensures
        forall|k: int| 0 <= k < result@.len() ==> #[trigger] is_maenads_turn(*state, player, must_climb, result@[k].action.0),
        flags & NARROWING_FLAGS == 0 ==> forall|data: u32| #[trigger] maenads_turn_owed(*state, player, must_climb, data) ==> lists_word(
            result@,
            data,
        ),
        flags & NARROWING_FLAGS == 0 && state.gods[1 - player.idx()].is_persephone_spec() && !must_climb ==> keeps_persephone_rule(
            *state,
            player,
            result@,
        ),
    decreases if must_climb {
        0int
    } else {
        1int
    },
{
    broadcast use group_bit_lemmas;

    proof {
        crate::generic::lemma_no_flags(flags);
    }
    let mut result = if state.gods[player.other().index()].is_persephone() && !must_climb {
        let climbing = maenads_move_gen(flags, state, player, key_squares, true);
        proof {
            assert forall|k: int| 0 <= k < climbing@.len() implies #[trigger] is_maenads_turn(
                *state,
                player,
                must_climb,
                climbing@[k].action.0,
            ) by {
                lemma_maenads_climb_is_turn(*state, player, climbing@[k].action.0);
            }
        }
        if climbing.len() > 0 {
            proof {
                if flags & NARROWING_FLAGS == 0 {
                    assert(is_maenads_turn(*state, player, true, climbing@[0].action.0));
                    assert forall|data: u32| #[trigger] maenads_turn_owed(*state, player, must_climb, data) implies lists_word(climbing@, data) by {
                        assert(maenads_turn_owed(*state, player, true, data));
                    }
                }
            }
            return climbing;
        }
        proof {
            if flags & NARROWING_FLAGS == 0 {
                assert forall|d: u32| !#[trigger] maenads_turn_owed(*state, player, true, d) by {
                    if maenads_turn_owed(*state, player, true, d) {
                        assert(lists_word(climbing@, d));
                    }
                }
            }
        }
        if flags & ANY_MOVE_FILTER > 0 {
            let unrestricted = maenads_move_gen(0, state, player, key_squares, true);
            if unrestricted.len() > 0 {
                return climbing;
            }
        }
        climbing
    } else {
        get_sized_result(flags)
    };
    assert(flags & NARROWING_FLAGS == 0 && state.gods[1 - player.idx()].is_persephone_spec() && !must_climb ==> forall|d: u32|
        !#[trigger] maenads_turn_owed(*state, player, true, d));
    let prelude = get_generator_prelude_state(state, player, key_squares);
    let ghost p = player.idx();
    let mad = mad_spots(&prelude);
    let workers = prelude.acting_workers.squares();
    let mut wi: usize = 0;
    while wi < workers.len()
        invariant
            wi <= workers@.len(),
            state.board.wf(),
            prelude.inv(),
            prelude.board == state.board,
            prelude.player == player,
            prelude.other_god == state.gods[1 - player.idx()],
            p == player.idx(),
            prelude.own_workers.0 == state.board.workers[player.idx()].0 & MAIN_SECTION,
            prelude.other_god.is_hypnus_spec() ==> prelude.acting_workers.0 == crate::gods::hypnus::hypnus_filter_spec(
                state.board.height_map,
                prelude.own_workers.0,
            ),
            !prelude.other_god.is_hypnus_spec() ==> prelude.acting_workers == prelude.own_workers,
            forall|s: int| #[trigger] mad.has(s) == is_mad_spot(state.board, p, s),
            forall|k: int| 0 <= k < workers@.len() ==> #[trigger] workers@[k] < 25 && prelude.acting_workers.has(workers@[k] as int),
            forall|sq: int| 0 <= sq < 25 && prelude.acting_workers.has(sq) ==> workers@.contains(sq as u8),
            forall|k: int| 0 <= k < result@.len() ==> #[trigger] is_maenads_turn(*state, player, must_climb, result@[k].action.0),
            flags & NARROWING_FLAGS == 0 ==> flags & 1u32 == 0 && flags & 2u32 == 0 && flags & 8u32 == 0,
            flags & NARROWING_FLAGS == 0 ==> forall|data: u32| #[trigger] maenads_turn_owed(*state, player, must_climb, data) && (exists|j: int|
                0 <= j < wi && workers@[j] as u32 == field_at(data, 0)) ==> lists_word(result@, data),
            flags & NARROWING_FLAGS == 0 && state.gods[1 - player.idx()].is_persephone_spec() && !must_climb ==> forall|d: u32|
                !#[trigger] maenads_turn_owed(*state, player, true, d),
        decreases workers@.len() - wi,
    {
        let ghost r0 = result@;
        let worker_start_pos = workers[wi];
        wi = wi + 1;
        proof {
            lemma_prelude_acting(*state, player, prelude.own_workers, prelude.acting_workers, worker_start_pos as int);
        }
        let worker_start_state = get_worker_start_move_state(&prelude, worker_start_pos);
        let mut worker_next_moves = get_worker_next_move_state(&prelude, &worker_start_state, prelude.exactly_level_2, must_climb);
        let ghost orig = worker_next_moves.worker_moves;
        if worker_start_state.worker_start_height == 2 {
            let moves_to_level_3 = worker_next_moves.worker_moves.and(prelude.exactly_level_3).and(prelude.win_mask);
            let ghost before = result@;
            let stop = push_winning_moves(flags, &mut result, worker_start_pos, moves_to_level_3, 0x6400);
            proof {
                assert forall|k: int| 0 <= k < result@.len() implies #[trigger] is_maenads_turn(
                    *state,
                    player,
                    must_climb,
                    result@[k].action.0,
                ) by {
                    if k >= before.len() {
                        assert(is_winning_entry(result@[k], worker_start_pos, moves_to_level_3, 0x6400));
                        let sq = choose|sq: u8| sq < 25 && #[trigger] moves_to_level_3.has(sq as int) && result@[k].action.0
                            == (worker_start_pos as u32) | ((sq as u32) << 5u32) | 0x6400u32 | MOVE_IS_WINNING_MASK;
                        lemma_maenads_win_words(worker_start_pos as u32, sq as u32);
                        assert(worker_next_moves.worker_moves.has(sq as int));
                    } else {
                        assert(result@[k] == before[k]);
                    }
                }
                if flags & NARROWING_FLAGS == 0 {
                    assert forall|data: u32| #[trigger] maenads_turn_owed(*state, player, must_climb, data) && field_at(data, 0)
                        == worker_start_pos && is_winning_data(data) && data & IS_DANCE_WIN_BIT == 0 implies lists_word(result@, data) by {
                        let to = field_at(data, 5);
                        assert(moves_to_level_3.has(to as int));
                        let k = choose|k: int| before.len() <= k < result@.len() && #[trigger] result@[k].action.0
                            == (worker_start_pos as u32) | (((to as int) as u32) << 5u32) | 0x6400u32 | MOVE_IS_WINNING_MASK;
                        assert(result@[k].action.0 == data);
                    }
                }
            }
            if stop {
                return result;
            }
            worker_next_moves.worker_moves = worker_next_moves.worker_moves.xor(moves_to_level_3);
        }
        let ghost r1 = result@;
        proof {
            lemma_lists_word_grows(r0, r1);
        }
        let ghost moves_now = worker_next_moves.worker_moves;
        proof {
            assert forall|i: int| #[trigger] moves_now.has(i) == (is_standard_step(
                state.board,
                worker_start_pos as int,
                i,
                must_climb,
            ) && !is_win_step(false, state.board.height(worker_start_pos as int), state.board.height(i))) by {
                assert(orig.has(i) == is_standard_step(state.board, worker_start_pos as int, i, must_climb));
            }
        }
        if !prelude.is_against_harpies {
            let dance_wins = worker_next_moves.worker_moves.and(mad).and(prelude.win_mask);
            if dance_wins.is_not_empty() {
                let unblocked_squares = worker_start_state.all_non_moving_workers.or(prelude.domes_and_frozen).not();
                let ends = dance_wins.squares();
                let mut di: usize = 0;
                while di < ends.len()
                    invariant
                        di <= ends@.len(),
                        forall|k: int| 0 <= k < ends@.len() ==> #[trigger] ends@[k] < 25,
                        worker_start_pos < 25,
                        p == player.idx(),
                        prelude.inv(),
                        prelude.board == state.board,
                        prelude.player == player,
                        prelude.other_god == state.gods[1 - player.idx()],
                        worker_start_state.describes(prelude, worker_start_pos as int),
                        forall|i: int| 0 <= i < 32 ==> #[trigger] unblocked_squares.has(i) == !(worker_start_state.all_non_moving_workers.has(i)
                            || prelude.domes_and_frozen.has(i)),
                        is_acting_worker(*state, player, worker_start_pos as int),
                        forall|i: int| #[trigger] dance_wins.has(i) ==> is_standard_step(state.board, worker_start_pos as int, i, must_climb)
                            && is_mad_spot(state.board, p, i),
                        forall|k: int| 0 <= k < result@.len() ==> #[trigger] is_maenads_turn(*state, player, must_climb, result@[k].action.0),
                        flags & NARROWING_FLAGS == 0 ==> flags & 1u32 == 0 && flags & 2u32 == 0 && flags & 8u32 == 0,
                        r1.len() <= result@.len(),
                        forall|k: int| 0 <= k < r1.len() ==> #[trigger] result@[k] == r1[k],
                        flags & NARROWING_FLAGS == 0 && (exists|j: int, b: int| 0 <= j < di && #[trigger] is_standard_build_for(
                            *state,
                            player,
                            worker_start_pos as int,
                            ends@[j] as int,
                            b,
                        )) ==> forall|i: int| 0 <= i < 25 && #[trigger] dance_wins.has(i) ==> lists_word(
                            result@,
                            maenads_dance_win_data(worker_start_pos as u32, i as u32),
                        ),
                    decreases ends@.len() - di,
                {
                    let end_pos = ends[di];
                    di = di + 1;
                    let all_possible_builds = neighbor_mask(end_pos).and(unblocked_squares).and(prelude.build_mask);
                    let ghost before = result@;
                    if all_possible_builds.is_not_empty() {
                        let stop = push_winning_moves(flags, &mut result, worker_start_pos, dance_wins, IS_DANCE_WIN_BIT);
                        proof {
                            assert forall|k: int| 0 <= k < result@.len() implies #[trigger] is_maenads_turn(
                                *state,
                                player,
                                must_climb,
                                result@[k].action.0,
                            ) by {
                                if k >= before.len() {
                                    assert(is_winning_entry(result@[k], worker_start_pos, dance_wins, IS_DANCE_WIN_BIT));
                                    let sq = choose|sq: u8| sq < 25 && #[trigger] dance_wins.has(sq as int) && result@[k].action.0
                                        == (worker_start_pos as u32) | ((sq as u32) << 5u32) | IS_DANCE_WIN_BIT | MOVE_IS_WINNING_MASK;
                                    lemma_maenads_win_words(worker_start_pos as u32, sq as u32);
                                } else {
                                    assert(result@[k] == before[k]);
                                }
                            }
                        }
                        if stop {
                            return result;
                        }
                        proof {
                            lemma_lists_word_grows(before, result@);
                            if flags & NARROWING_FLAGS == 0 {
                                assert forall|i: int| 0 <= i < 25 && #[trigger] dance_wins.has(i) implies lists_word(
                                    result@,
                                    maenads_dance_win_data(worker_start_pos as u32, i as u32),
                                ) by {
                                    let k = choose|k: int| before.len() <= k < result@.len() && #[trigger] result@[k].action.0
                                        == (worker_start_pos as u32) | ((i as u32) << 5u32) | IS_DANCE_WIN_BIT | MOVE_IS_WINNING_MASK;
                                }
                            }
                        }
                    } else {
                        proof {
                            assert forall|b: int| !#[trigger] is_standard_build_for(*state, player, worker_start_pos as int, end_pos as int, b) by {
                                if is_standard_build_for(*state, player, worker_start_pos as int, end_pos as int, b) {
                                    assert(all_possible_builds.has(b));
                                }
                            }
                        }
                    }
                    proof {
                        if flags & NARROWING_FLAGS == 0 && (exists|j: int, b: int| 0 <= j < di && #[trigger] is_standard_build_for(
                            *state,
                            player,
                            worker_start_pos as int,
                            ends@[j] as int,
                            b,
                        )) {
                            let (j, b) = choose|j: int, b: int| 0 <= j < di && #[trigger] is_standard_build_for(
                                *state,
                                player,
                                worker_start_pos as int,
                                ends@[j] as int,
                                b,
                            );
                            if j < di - 1 {
                                lemma_lists_word_grows(before, result@);
                                assert(exists|j: int, b: int| 0 <= j < di - 1 && #[trigger] is_standard_build_for(
                                    *state,
                                    player,
                                    worker_start_pos as int,
                                    ends@[j] as int,
                                    b,
                                ));
                            }
                        }
                    }
                }
                proof {
                    if flags & NARROWING_FLAGS == 0 {
                        assert forall|data: u32| #[trigger] maenads_turn_owed(*state, player, must_climb, data) && field_at(data, 0)
                            == worker_start_pos && is_winning_data(data) && data & IS_DANCE_WIN_BIT != 0 implies lists_word(result@, data) by {
                            if !must_climb && state.gods[1 - player.idx()].is_persephone_spec() && exists|d: u32|
                                #[trigger] is_maenads_turn(*state, player, true, d) {
                                assert(maenads_turn_owed(*state, player, true, data));
                            }
                            let (e, b) = choose|e: int, b: int| is_standard_step(state.board, worker_start_pos as int, e, must_climb)
                                && !is_win_step(false, state.board.height(worker_start_pos as int), state.board.height(e))
                                && is_mad_spot(state.board, player.idx(), e) && #[trigger] is_standard_build_for(
                                *state,
                                player,
                                worker_start_pos as int,
                                e,
                                b,
                            );
                            assert(moves_now.has(e));
                            assert(mad.has(e));
                            assert(dance_wins.has(e));
                            assert(ends@.contains(e as u8));
                            let j = choose|j: int| 0 <= j < ends@.len() && ends@[j] == e as u8;
                            assert(is_standard_build_for(*state, player, worker_start_pos as int, ends@[j] as int, b));
                            let to = field_at(data, 5);
                            assert(moves_now.has(to as int));
                            assert(mad.has(to as int));
                            assert(dance_wins.has(to as int));
                        }
                    }
                }
                worker_next_moves.worker_moves = worker_next_moves.worker_moves.xor(dance_wins);
            } else {
                proof {
                    if flags & NARROWING_FLAGS == 0 {
                        assert forall|data: u32| #[trigger] maenads_turn_owed(*state, player, must_climb, data) && field_at(data, 0)
                            == worker_start_pos && is_winning_data(data) && data & IS_DANCE_WIN_BIT != 0 implies lists_word(result@, data) by {
                            if !must_climb && state.gods[1 - player.idx()].is_persephone_spec() && exists|d: u32|
                                #[trigger] is_maenads_turn(*state, player, true, d) {
                                assert(maenads_turn_owed(*state, player, true, data));
                            }
                            let (e, b) = choose|e: int, b: int| is_standard_step(state.board, worker_start_pos as int, e, must_climb)
                                && !is_win_step(false, state.board.height(worker_start_pos as int), state.board.height(e))
                                && is_mad_spot(state.board, player.idx(), e) && #[trigger] is_standard_build_for(
                                *state,
                                player,
                                worker_start_pos as int,
                                e,
                                b,
                            );
                            assert(moves_now.has(e));
                            assert(mad.has(e));
                            assert(dance_wins.has(e));
                        }
                    }
                }
            }
            proof {
                assert forall|i: int| #[trigger] worker_next_moves.worker_moves.has(i) == (moves_now.has(i) && !is_mad_spot(
                    state.board,
                    p,
                    i,
                )) by {
                    if is_mad_spot(state.board, p, i) && moves_now.has(i) {
                        assert(mad.has(i));
                        assert(dance_wins.has(i));
                    }
                    if moves_now.has(i) && !is_mad_spot(state.board, p, i) {
                        assert(!mad.has(i));
                    }
                }
            }
        }
        let ghost r2 = result@;
        proof {
            lemma_lists_word_grows(r1, r2);
        }
        if is_mate_only(flags) && !prelude.is_against_harpies {
            continue;
        }
        proof {
            assert forall|i: int| #[trigger] worker_next_moves.worker_moves.has(i) implies is_standard_step(
                state.board,
                worker_start_pos as int,
                i,
                must_climb,
            ) && !is_win_step(false, state.board.height(worker_start_pos as int), state.board.height(i)) && !is_mad_spot(
                state.board,
                p,
                i,
            ) by {
                assert(moves_now.has(i));
            }
        }
        let ends = worker_next_moves.worker_moves.squares();
        proof {
            if flags & NARROWING_FLAGS == 0 {
                assert forall|i: int| 0 <= i < 25 && is_standard_step(state.board, worker_start_pos as int, i, must_climb)
                    && !is_win_step(false, state.board.height(worker_start_pos as int), state.board.height(i))
                    && !is_mad_spot(state.board, p, i) implies #[trigger] ends@.contains(i as u8) by {
                    assert(moves_now.has(i));
                    assert(worker_next_moves.worker_moves.has(i));
                }
            }
        }
        let mut ei: usize = 0;
        while ei < ends.len()
            invariant
                ei <= ends@.len(),
                state.board.wf(),
                prelude.inv(),
                prelude.board == state.board,
                prelude.player == player,
                prelude.other_god == state.gods[1 - player.idx()],
                p == player.idx(),
                worker_start_pos < 25,
                worker_start_state.describes(prelude, worker_start_pos as int),
                is_acting_worker(*state, player, worker_start_pos as int),
                forall|k: int| 0 <= k < ends@.len() ==> #[trigger] ends@[k] < 25 && is_standard_step(
                    state.board,
                    worker_start_pos as int,
                    ends@[k] as int,
                    must_climb,
                ) && !is_win_step(false, state.board.height(worker_start_pos as int), state.board.height(ends@[k] as int))
                    && !is_mad_spot(state.board, p, ends@[k] as int),
                forall|k: int| 0 <= k < result@.len() ==> #[trigger] is_maenads_turn(*state, player, must_climb, result@[k].action.0),
                flags & NARROWING_FLAGS == 0 ==> flags & 1u32 == 0 && flags & 2u32 == 0 && flags & 8u32 == 0,
                r2.len() <= result@.len(),
                forall|k: int| 0 <= k < r2.len() ==> #[trigger] result@[k] == r2[k],
                flags & NARROWING_FLAGS == 0 ==> forall|data: u32| #[trigger] maenads_turn_owed(*state, player, must_climb, data) && field_at(data, 0)
                    == worker_start_pos && !is_winning_data(data) && (exists|j: int| 0 <= j < ei && ends@[j] as u32 == field_at(data, 5))
                    ==> lists_word(result@, data),
            decreases ends@.len() - ei,
        {
            let worker_end_pos = ends[ei];
            ei = ei + 1;
            let worker_end_move_state = get_worker_end_move_state(&prelude, &worker_start_state, worker_end_pos);
            if prelude.is_against_harpies {
                if is_mate_only(flags) {
                    continue;
                }
            }
            let worker_next_build_state = get_worker_next_build_state(flags, &prelude, &worker_start_state, &worker_end_move_state);
            let reach_board = get_standard_reach_board(
                &prelude,
                &worker_next_moves,
                &worker_end_move_state,
                worker_next_build_state.unblocked_squares,
            );
            let builds = worker_next_build_state.narrowed_builds.squares();
            let ghost re = result@;
            let mut bi: usize = 0;
            while bi < builds.len()
                invariant
                    bi <= builds@.len(),
                    prelude.inv(),
                    prelude.board == state.board,
                    prelude.player == player,
                    prelude.other_god == state.gods[1 - player.idx()],
                    p == player.idx(),
                    worker_start_pos < 25,
                    worker_end_pos < 25,
                    is_acting_worker(*state, player, worker_start_pos as int),
                    is_standard_step(state.board, worker_start_pos as int, worker_end_pos as int, must_climb),
                    !is_win_step(false, state.board.height(worker_start_pos as int), state.board.height(worker_end_pos as int)),
                    !is_mad_spot(state.board, p, worker_end_pos as int),
                    worker_next_build_state.describes(prelude, worker_start_pos as int, worker_end_pos as int),
                    forall|k: int| 0 <= k < builds@.len() ==> #[trigger] builds@[k] < 25
                        && worker_next_build_state.narrowed_builds.has(builds@[k] as int),
                    forall|k: int| 0 <= k < result@.len() ==> #[trigger] is_maenads_turn(*state, player, must_climb, result@[k].action.0),
                    re.len() <= result@.len(),
                    forall|k: int| 0 <= k < re.len() ==> #[trigger] result@[k] == re[k],
                    flags & NARROWING_FLAGS == 0 ==> forall|data: u32| #[trigger] maenads_turn_owed(*state, player, must_climb, data) && field_at(data, 0)
                        == worker_start_pos && !is_winning_data(data) && field_at(data, 5) == worker_end_pos && (exists|j: int| 0 <= j < bi
                        && builds@[j] as u32 == field_at(data, 10)) ==> lists_word(result@, data),
                decreases builds@.len() - bi,
            {
                let worker_build_pos = builds[bi];
                bi = bi + 1;
                let new_action = MaenadsMove::new_basic_move(worker_start_pos, worker_end_pos, worker_build_pos);
                let build_mask = BitBoard::as_mask(worker_build_pos);
                let final_level_3 = prelude.exactly_level_2.and(build_mask).or(prelude.exactly_level_3.minus(build_mask));
                let is_check = reach_board.and(final_level_3).is_not_empty();
                let ghost before = result@;
                result.push(build_scored_move(flags, new_action.to_generic(), is_check, worker_end_move_state.is_improving));
                proof {
                    lemma_mortal_move_round_trip(worker_start_pos as u32, worker_end_pos as u32, worker_build_pos as u32);
                    assert(worker_next_build_state.narrowed_builds.has(worker_build_pos as int));
                    assert forall|k: int| 0 <= k < result@.len() implies #[trigger] is_maenads_turn(
                        *state,
                        player,
                        must_climb,
                        result@[k].action.0,
                    ) by {
                        if k < before.len() {
                            assert(result@[k] == before[k]);
                        }
                    }
                    lemma_lists_word_grows(before, result@);
                    assert(result@[before.len() as int].action.0 == mortal_basic_data(
                        worker_start_pos as u32,
                        worker_end_pos as u32,
                        worker_build_pos as u32,
                    ));
                    assert(forall|k: int| 0 <= k < before.len() ==> #[trigger] result@[k] == before[k]);
                }
            }
            proof {
                lemma_lists_word_grows(re, result@);
                if flags & NARROWING_FLAGS == 0 {
                    assert forall|data: u32| #[trigger] maenads_turn_owed(*state, player, must_climb, data) && field_at(data, 0)
                        == worker_start_pos && !is_winning_data(data) && (exists|j: int| 0 <= j < ei && ends@[j] as u32 == field_at(data, 5))
                        implies lists_word(result@, data) by {
                        let j = choose|j: int| 0 <= j < ei && ends@[j] as u32 == field_at(data, 5);
                        if j == ei - 1 {
                            let b = field_at(data, 10);
                            assert(worker_next_build_state.all_possible_builds.has(b as int));
                            assert(builds@.contains(b as u8));
                            let jb = choose|jb: int| 0 <= jb < builds@.len() && builds@[jb] == b as u8;
                            assert(builds@[jb] as u32 == field_at(data, 10));
                        } else {
                            assert(lists_word(re, data));
                        }
                    }
                }
            }
        }
        proof {
            lemma_lists_word_grows(r2, result@);
            if flags & NARROWING_FLAGS == 0 {
                assert forall|data: u32| #[trigger] maenads_turn_owed(*state, player, must_climb, data) && (exists|j: int|
                    0 <= j < wi && workers@[j] as u32 == field_at(data, 0)) implies lists_word(result@, data) by {
                    let j = choose|j: int| 0 <= j < wi && workers@[j] as u32 == field_at(data, 0);
                    if j == wi - 1 {
                        if !is_winning_data(data) {
                            let to = field_at(data, 5);
                            assert(ends@.contains(to as u8));
                            let je = choose|je: int| 0 <= je < ends@.len() && ends@[je] == to as u8;
                            assert(ends@[je] as u32 == field_at(data, 5));
                        }
                    } else {
                        assert(lists_word(r0, data));
                    }
                }
            }
        }
    }
    proof {
        if flags & NARROWING_FLAGS == 0 {
            assert forall|data: u32| #[trigger] maenads_turn_owed(*state, player, must_climb, data) implies lists_word(result@, data) by {
                let f = field_at(data, 0);
                crate::gods::mortal::lemma_acting_in_prelude(*state, player, prelude.own_workers, prelude.acting_workers, f as int);
                assert(workers@.contains(f as u8));
                let j = choose|j: int| 0 <= j < workers@.len() && workers@[j] == f as u8;
                assert(workers@[j] as u32 == field_at(data, 0));
            }
        }
    }
    result
}

/// Maenads's fixed data.
pub fn build_maenads() -> (r: GodPower)
    ensures
        r.god_name == GodName::Maenads,
        r.hash1 == 6024874840407544606u64,
        r.hash2 == 8949450171891062378u64,
        r.placement_type == PlacementType::Normal,
        r.symmetry == BoardSymmetry::Full,
        !r.is_persephone,
{
    god_power(GodName::Maenads, 6024874840407544606, 8949450171891062378)
}

/// How a turn of this god changes the board: the workers, the heights, the god data and the
/// winner after it, and whose turn it is, are those of `after`.
pub open spec fn maenads_move_effect(before: BoardState, after: BoardState, player: Player, data: u32) -> bool {
    &&& after.current_player == before.current_player
    &&& after.god_data == before.god_data
    &&& after.workers[1 - player.idx()] == before.workers[1 - player.idx()]
    &&& after.workers[player.idx()].0 == before.workers[player.idx()].0 ^ ((1u32 << field_at(data, 0)) ^ (1u32 << field_at(data, 5)))
    &&& (is_winning_data(data) ==> after.winner == Some(player) && after.height_map == before.height_map)
    &&& (!is_winning_data(data) ==> after.winner == before.winner)
    &&& (!is_winning_data(data) ==> forall|i: int| #[trigger] after.height(i) == (if i == field_at(data, 10) { before.height(i) + 1 } else { before.height(i) }))
}

} // verus!
