use vstd::prelude::*;

use crate::bitboard::{group_bit_lemmas, neighbor_mask, BitBoard};
use crate::board::{BoardState, FullGameState, Player};
use crate::generic::{NARROWING_FLAGS, 
    build_scored_move, field_at, is_interact_with_key_squares, is_mate_only, is_winning_data, lemma_pack4,
    read_position, GenericMove, MoveData, MoveGenFlags, ScoredMove, MOVE_DATA_MAIN_SECTION, MOVE_IS_WINNING_MASK,
};
use crate::gods::mortal::{lemma_acting_in_prelude, lemma_lists_word_grows, lists_word, 
    is_acting_worker, is_standard_build_for, lemma_move_worker_keeps_wf, lemma_mortal_move_round_trip,
    lemma_toggle_keeps_wf, mortal_winning_data,
};
use crate::gods::move_helpers::{
    get_generator_prelude_state, get_standard_reach_board, get_worker_end_move_state, get_worker_next_move_state,
    get_worker_start_move_state, is_standard_step, is_winning_entry, lemma_layer_is_height,
    modify_prelude_for_checking_workers, push_winning_moves, GeneratorPreludeState,
};
use crate::gods::{BoardSymmetry, PlacementType, god_power, GodName, GodPower};
use crate::square::{is_adjacent, is_square, Square};

verus! {

/// A Theseus turn: a plain move and build, optionally removing an opponent worker.
#[derive(Clone, Copy, PartialEq, Eq, Structural, Debug)]
pub struct TheseusMove(pub MoveData);

impl TheseusMove {
    pub fn new_basic_move(move_from_position: Square, move_to_position: Square, build_position: Square) -> (r: Self)
        requires
            move_from_position < 25,
            move_to_position < 25,
            build_position < 25,
        ensures
            r.0 == (move_from_position as u32) | ((move_to_position as u32) << 5u32) | ((build_position as u32) << 10u32) | (25u32 << 15u32),
    {
        Self((move_from_position as u32) | ((move_to_position as u32) << 5u32) | ((build_position as u32) << 10u32) | (25u32 << 15u32))
    }

    /// A move and build that also removes the opponent worker on `kill_square`.
    pub fn new_power_move(move_from_position: Square, move_to_position: Square, build_position: Square, kill_square: Square) -> (r: Self)
        requires
            move_from_position < 25,
            move_to_position < 25,
            build_position < 25,
            kill_square < 25,
        ensures
            r.0 == (move_from_position as u32) | ((move_to_position as u32) << 5u32) | ((build_position as u32) << 10u32) | ((kill_square as u32) << 15u32),
    {
        Self((move_from_position as u32) | ((move_to_position as u32) << 5u32) | ((build_position as u32) << 10u32) | ((kill_square as u32) << 15u32))
    }

    pub fn new_winning_move(move_from_position: Square, move_to_position: Square) -> (r: Self)
        requires
            move_from_position < 25,
            move_to_position < 25,
        ensures
            r.0 == (move_from_position as u32) | ((move_to_position as u32) << 5u32) | MOVE_IS_WINNING_MASK,
    {
        Self((move_from_position as u32) | ((move_to_position as u32) << 5u32) | MOVE_IS_WINNING_MASK)
    }

    pub fn move_from_position(&self) -> (r: Square)
        ensures
            r == field_at(self.0, 0),
            r < 32,
    {
        read_position(self.0, 0)
    }

    pub fn move_to_position(&self) -> (r: Square)
        ensures
            r == field_at(self.0, 5),
            r < 32,
    {
        read_position(self.0, 5)
    }

    pub fn build_position(self) -> (r: Square)
        ensures
            r == field_at(self.0, 10),
            r < 32,
    {
        read_position(self.0, 10)
    }

    /// The square of the worker removed by the power, if any.
    pub fn maybe_kill_square(self) -> (r: Option<Square>)
        ensures
            field_at(self.0, 15) < 32,
            r == (if field_at(self.0, 15) == 25 {
                None
            } else {
                Some(field_at(self.0, 15) as u8)
            }),
    {
        let value = read_position(self.0, 15);
        if value == 25 {
            None
        } else {
            Some(value)
        }
    }

    /// The start and end squares of the moving worker.
    pub fn move_mask(self) -> (r: BitBoard)
        ensures
            r.0 == (1u32 << field_at(self.0, 0)) | (1u32 << field_at(self.0, 5)),
    {
        BitBoard::as_mask(self.move_from_position()).or(BitBoard::as_mask(self.move_to_position()))
    }

    pub fn get_is_winning(&self) -> (r: bool)
        ensures
            r == is_winning_data(self.0),
    {
        (self.0 & MOVE_IS_WINNING_MASK) != 0
    }
}

/// The word of a Theseus turn that does not win; a kill field of 25 names no kill.
pub open spec fn theseus_word(from: u32, to: u32, build: u32, kill: u32) -> u32 {
    from | (to << 5u32) | (build << 10u32) | (kill << 15u32)
}

/// Whether Theseus may remove the opposing worker on `o` once his worker moved from `from` to
/// `to`: it stands, not on a dome, next to the moved worker on level 0 while at least two levels
/// up, or on level 1 while at least three up; or next to another of his workers on level 0 while
/// at least three up.
pub open spec fn is_theseus_target(board: BoardState, player: Player, from: int, to: int, o: int) -> bool {
    let p = player.idx();
    &&& board.workers[1 - p].has(o)
    &&& board.height(o) < 4
    &&& {
        ||| (is_adjacent(to, o) && ((board.height(to) == 0 && board.height(o) >= 2) || (board.height(to) == 1 && board.height(o)
            >= 3)))
        ||| exists|w: int|
            #[trigger] board.workers[p].has(w) && w != from && is_adjacent(w, o) && board.height(w) == 0 && board.height(o)
                >= 3
    }
}

/// A legal Theseus turn, read off its word: a plain winning move, or a plain move and build that,
/// while his power is unused, may also remove a target worker.
pub open spec fn is_theseus_turn(state: FullGameState, player: Player, must_climb: bool, data: u32) -> bool {
    let board = state.board;
    let from = field_at(data, 0);
    let to = field_at(data, 5);
    let build = field_at(data, 10);
    let kill = field_at(data, 15);
    &&& is_acting_worker(state, player, from as int)
    &&& is_standard_step(board, from as int, to as int, must_climb)
    &&& if is_winning_data(data) {
        &&& data == mortal_winning_data(from, to)
        &&& board.height(from as int) == 2
        &&& board.height(to as int) == 3
    } else {
        &&& !(board.height(from as int) == 2 && board.height(to as int) == 3)
        &&& is_standard_build_for(state, player, from as int, to as int, build as int)
        &&& data == theseus_word(from, to, build, kill)
        &&& (kill != 25 ==> board.god_data[player.idx()] == 0 && is_theseus_target(board, player, from as int, to as int, kill as int))
    }
}

impl TheseusMove {
    pub fn to_generic(self) -> (r: GenericMove)
        ensures
            r.0 == self.0,
    {
        GenericMove(self.0)
    }

    pub fn from_generic(action: GenericMove) -> (r: Self)
        ensures
            r.0 == action.0,
    {
        TheseusMove(action.0)
    }

    /// Plays the turn: the worker moves, and either wins or builds; a kill marks the power used
    /// and removes the opposing worker.
    pub fn make_move(self, board: &mut BoardState, player: Player)
        requires
            field_at(self.0, 0) < 25,
            field_at(self.0, 5) < 25,
            field_at(self.0, 10) < 25,
            !is_winning_data(self.0) ==> old(board).height(field_at(self.0, 10) as int) < 4,
        ensures
            final(board).workers[player.idx()].0 == old(board).workers[player.idx()].0 ^ ((1u32 << field_at(self.0, 0))
                | (1u32 << field_at(self.0, 5))),
            final(board).current_player == old(board).current_player,
            is_winning_data(self.0) ==> final(board).winner == Some(player) && final(board).height_map == old(
                board,
            ).height_map && final(board).workers[1 - player.idx()] == old(board).workers[1 - player.idx()]
                && final(board).god_data == old(board).god_data,
            !is_winning_data(self.0) ==> final(board).winner == old(board).winner,
            !is_winning_data(self.0) ==> final(board).height(field_at(self.0, 10) as int) == old(board).height(
                field_at(self.0, 10) as int,
            ) + 1,
            !is_winning_data(self.0) ==> forall|i: int| i != field_at(self.0, 10) ==> #[trigger] final(board).height(i)
                == old(board).height(i),
            !is_winning_data(self.0) && field_at(self.0, 15) == 25 ==> final(board).workers[1 - player.idx()] == old(
                board,
            ).workers[1 - player.idx()] && final(board).god_data == old(board).god_data,
            !is_winning_data(self.0) && field_at(self.0, 15) != 25 ==> {
                &&& final(board).god_data[player.idx()] == 1
                &&& final(board).god_data[1 - player.idx()] == old(board).god_data[1 - player.idx()]
                &&& forall|i: int| #[trigger] final(board).workers[1 - player.idx()].has(i) == (old(board).workers[1
                    - player.idx()].has(i) && i != field_at(self.0, 15))
            },
            old(board).wf() && old(board).workers[player.idx()].has(field_at(self.0, 0) as int) && !old(board).occupied(
                field_at(self.0, 5) as int,
            ) ==> final(board).wf(),
    {
        broadcast use group_bit_lemmas;

        let ghost before = *board;
        let from = self.move_from_position();
        let to = self.move_to_position();
        let worker_move_mask = self.move_mask();
        board.worker_xor(player, worker_move_mask);
        proof {
            if before.workers[player.idx()].has(from as int) && !before.occupied(to as int) {
                assert(from != to);
                lemma_or_is_xor(from as u32, to as u32);
                lemma_move_worker_keeps_wf(before, *board, player, from as u32, to as u32);
            }
        }
        if self.get_is_winning() {
            board.set_winner(player);
            return;
        }
        board.build_up(self.build_position());
        let ghost built = *board;
        match self.maybe_kill_square() {
            Some(kill) => {
                let ghost mid = *board;
                board.set_god_data(player, 1);
                let other = player.other();
                let doomed = board.workers[other.index()].and(BitBoard::as_mask(kill));
                board.worker_xor(other, doomed);
                proof {
                    let q = 1 - player.idx();
                    assert(other.idx() == q);
                    assert forall|i: int| #[trigger] board.workers[q].has(i) == (mid.workers[q].has(i) && i != kill) by {
                        if 0 <= i < 32 {
                            crate::bitboard::lemma_bit_xor(mid.workers[q].0, doomed.0, i as u32);
                        }
                    }
                    if mid.wf() {
                        assert(BitBoard(doomed.0) == doomed);
                        assert forall|i: int| #[trigger] BitBoard(doomed.0).has(i) implies is_square(i) && !mid.workers[1 - q].has(i) by {
                            assert(mid.workers[q].has(i));
                            assert(mid.workers[q].within_board());
                            assert(!(mid.workers[0].has(i) && mid.workers[1].has(i)));
                        }
                        lemma_toggle_keeps_wf(mid, *board, q, doomed.0);
                    }
                }
            },
            None => {},
        }
        proof {
            assert(board.height_map == built.height_map);
            assert forall|i: int| #[trigger] board.height(i) == built.height(i) by {
            }
        }
    }
}

/// The opposing workers, not on domes, that the player's workers of `others` on level 0 stand
/// three or more levels below, or on level 1 four or more.
fn kill_range_of_others(prelude: &GeneratorPreludeState, others: BitBoard, targetable: BitBoard) -> (r: BitBoard)
    requires
        prelude.inv(),
    ensures
        forall|o: int| #[trigger] r.has(o) == (targetable.has(o) && exists|w: int|
            0 <= w < 25 && #[trigger] others.has(w) && is_adjacent(w, o) && ((prelude.board.height(w) == 0
                && prelude.board.height(o) >= 3) || (prelude.board.height(w) == 1 && prelude.board.height(o) >= 4))),
{
    broadcast use group_bit_lemmas;

    let board = prelude.board;
    let list = others.squares();
    let mut r = BitBoard::empty();
    let mut k: usize = 0;
    while k < list.len()
        invariant
            k <= list@.len(),
            prelude.inv(),
            board == prelude.board,
            forall|j: int| 0 <= j < list@.len() ==> #[trigger] list@[j] < 25 && others.has(list@[j] as int),
            forall|w: int| 0 <= w < 25 && #[trigger] others.has(w) ==> list@.contains(w as u8),
            forall|o: int| #[trigger] r.has(o) == (targetable.has(o) && exists|j: int|
                0 <= j < k && #[trigger] is_adjacent(list@[j] as int, o) && ((board.height(list@[j] as int) == 0
                    && board.height(o) >= 3) || (board.height(list@[j] as int) == 1 && board.height(o) >= 4))),
        decreases list@.len() - k,
    {
        let w = list[k];
        let h = board.get_height(w);
        let old_r = r;
        if h <= 1 {
            let layer = if h == 0 { board.height_map[2] } else { board.height_map[3] };
            let hits = neighbor_mask(w).and(targetable).and(layer);
            r = r.or(hits);
            proof {
                assert forall|o: int| #[trigger] r.has(o) == (targetable.has(o) && exists|j: int|
                    0 <= j < k + 1 && #[trigger] is_adjacent(list@[j] as int, o) && ((board.height(list@[j] as int) == 0
                        && board.height(o) >= 3) || (board.height(list@[j] as int) == 1 && board.height(o) >= 4))) by {
                    lemma_layer_is_height(board, 2, o);
                    lemma_layer_is_height(board, 3, o);
                    if hits.has(o) {
                        assert(is_adjacent(list@[k as int] as int, o));
                    }
                    if exists|j: int| 0 <= j < k + 1 && #[trigger] is_adjacent(list@[j] as int, o) && ((board.height(list@[j] as int) == 0
                        && board.height(o) >= 3) || (board.height(list@[j] as int) == 1 && board.height(o) >= 4)) {
                        let j = choose|j: int| 0 <= j < k + 1 && #[trigger] is_adjacent(list@[j] as int, o) && ((board.height(
                            list@[j] as int,
                        ) == 0 && board.height(o) >= 3) || (board.height(list@[j] as int) == 1 && board.height(o) >= 4));
                        if j < k {
                            assert(old_r.has(o) || !targetable.has(o));
                        }
                    }
                }
            }
        } else {
            proof {
                assert forall|o: int| #[trigger] r.has(o) == (targetable.has(o) && exists|j: int|
                    0 <= j < k + 1 && #[trigger] is_adjacent(list@[j] as int, o) && ((board.height(list@[j] as int) == 0
                        && board.height(o) >= 3) || (board.height(list@[j] as int) == 1 && board.height(o) >= 4))) by {
                    if exists|j: int| 0 <= j < k + 1 && #[trigger] is_adjacent(list@[j] as int, o) && ((board.height(list@[j] as int) == 0
                        && board.height(o) >= 3) || (board.height(list@[j] as int) == 1 && board.height(o) >= 4)) {
                        let j = choose|j: int| 0 <= j < k + 1 && #[trigger] is_adjacent(list@[j] as int, o) && ((board.height(
                            list@[j] as int,
                        ) == 0 && board.height(o) >= 3) || (board.height(list@[j] as int) == 1 && board.height(o) >= 4));
                        assert(j < k);
                    }
                }
            }
        }
        k = k + 1;
    }
    proof {
        assert forall|o: int| #[trigger] r.has(o) == (targetable.has(o) && exists|w: int|
            0 <= w < 25 && #[trigger] others.has(w) && is_adjacent(w, o) && ((board.height(w) == 0 && board.height(o) >= 3)
                || (board.height(w) == 1 && board.height(o) >= 4))) by {
            if r.has(o) {
                let j = choose|j: int| 0 <= j < list@.len() && #[trigger] is_adjacent(list@[j] as int, o) && ((board.height(
                    list@[j] as int,
                ) == 0 && board.height(o) >= 3) || (board.height(list@[j] as int) == 1 && board.height(o) >= 4));
                assert(others.has(list@[j] as int));
            }
            if exists|w: int| 0 <= w < 25 && #[trigger] others.has(w) && is_adjacent(w, o) && ((board.height(w) == 0 && board.height(o)
                >= 3) || (board.height(w) == 1 && board.height(o) >= 4)) {
                let w = choose|w: int| 0 <= w < 25 && #[trigger] others.has(w) && is_adjacent(w, o) && ((board.height(w) == 0
                    && board.height(o) >= 3) || (board.height(w) == 1 && board.height(o) >= 4));
                assert(list@.contains(w as u8));
                let j = choose|j: int| 0 <= j < list@.len() && list@[j] == w as u8;
                assert(is_adjacent(list@[j] as int, o));
            }
        }
    }
    r
}

/// Theseus's power is spent for good: a turn that kills marks it used, and while it is marked
/// used no legal turn of his kills.
pub proof fn lemma_theseus_power_spent_for_good(state: FullGameState, player: Player, must_climb: bool, data: u32)
    requires
        is_theseus_turn(state, player, must_climb, data),
        state.board.god_data[player.idx()] != 0,
        !is_winning_data(data),
    ensures
        field_at(data, 15) == 25,
{
}

/// What the generator knows of its position while it works.
pub open spec fn theseus_prelude_matches(prelude: GeneratorPreludeState, state: FullGameState, player: Player) -> bool {
    &&& prelude.inv()
    &&& state.board.wf()
    &&& prelude.board == state.board
    &&& prelude.player == player
    &&& prelude.other_god == state.gods[1 - player.idx()]
    &&& forall|i: int| #[trigger] prelude.acting_workers.has(i) ==> is_acting_worker(state, player, i)
}

/// A Theseus turn can be played: its squares are on the board, the mover is the player's and lands
/// on a free square, and a build goes on an undomed square.
pub proof fn lemma_theseus_turn_playable(state: FullGameState, player: Player, data: u32)
    requires
        state.board.wf(),
        is_theseus_turn(state, player, false, data),
    ensures
        field_at(data, 0) < 25,
        field_at(data, 5) < 25,
        field_at(data, 10) < 25,
        !is_winning_data(data) ==> state.board.height(field_at(data, 10) as int) < 4,
        state.board.workers[player.idx()].has(field_at(data, 0) as int),
        !state.board.occupied(field_at(data, 5) as int),
{
    if is_winning_data(data) {
        lemma_mortal_move_round_trip(field_at(data, 0), field_at(data, 5), 0);
    }
}

/// The turns the generator owes with no narrowing filter on: every legal turn, except that
/// against Persephone, when a climb exists, only the climbing ones.
pub open spec fn theseus_turn_owed(state: FullGameState, player: Player, must_climb: bool, data: u32) -> bool {
    &&& is_theseus_turn(state, player, must_climb, data)
    &&& (state.gods[1 - player.idx()].is_persephone_spec() && !must_climb && exists|d: u32| #[trigger] is_theseus_turn(state, player, true, d))
        ==> is_theseus_turn(state, player, true, data)
}

/// Theseus's move generator; `must_climb` asks for climbing moves only, which is how Persephone's
/// restriction is applied.
pub fn theseus_move_gen(
    flags: MoveGenFlags,
    state: &FullGameState,
    player: Player,
    key_squares: BitBoard,
    must_climb: bool,
) -> (result: Vec<ScoredMove>)
    requires
        state.board.wf(),
    ensures
        forall|k: int| 0 <= k < result@.len() ==> #[trigger] is_theseus_turn(*state, player, must_climb, result@[k].action.0),
        flags & NARROWING_FLAGS == 0 ==> forall|data: u32| #[trigger] theseus_turn_owed(*state, player, must_climb, data) ==> lists_word(
            result@,
            data,
        ),
        flags & NARROWING_FLAGS == 0 && state.gods[1 - player.idx()].is_persephone_spec() && !must_climb && (exists|d: u32|
            #[trigger] is_theseus_turn(*state, player, true, d)) ==> forall|k: int| 0 <= k < result@.len()
            ==> #[trigger] is_theseus_turn(*state, player, true, result@[k].action.0),
    decreases if must_climb { 0int } else { 1int },
{
    broadcast use group_bit_lemmas;

    proof {
        crate::generic::lemma_no_flags(flags);
    }

    let mut result = if state.gods[player.other().index()].is_persephone() && !must_climb {
        let climbing = theseus_move_gen(flags, state, player, key_squares, true);
        proof {
            assert forall|k: int| 0 <= k < climbing@.len() implies #[trigger] is_theseus_turn(
                *state,
                player,
                must_climb,
                climbing@[k].action.0,
            ) by {
                assert(is_theseus_turn(*state, player, true, climbing@[k].action.0));
            }
        }
        if climbing.len() > 0 {
            proof {
                if flags & NARROWING_FLAGS == 0 {
                    assert(is_theseus_turn(*state, player, true, climbing@[0].action.0));
                    assert forall|data: u32| #[trigger] theseus_turn_owed(*state, player, must_climb, data) implies lists_word(climbing@, data) by {
                        assert(theseus_turn_owed(*state, player, true, data));
                    }
                }
            }
            return climbing;
        }
        proof {
            if flags & NARROWING_FLAGS == 0 {
                assert forall|d: u32| !#[trigger] is_theseus_turn(*state, player, true, d) by {
                    if is_theseus_turn(*state, player, true, d) {
                        assert(theseus_turn_owed(*state, player, true, d));
                    }
                }
            }
        }
        if flags & crate::generic::ANY_MOVE_FILTER > 0 {
            let unrestricted = theseus_move_gen(0, state, player, key_squares, true);
            if unrestricted.len() > 0 {
                return climbing;
            }
        }
        climbing
    } else {
        Vec::new()
    };
    assert(flags & NARROWING_FLAGS == 0 && state.gods[1 - player.idx()].is_persephone_spec() && !must_climb ==> forall|d: u32|
        !#[trigger] is_theseus_turn(*state, player, true, d));

    let mut prelude = get_generator_prelude_state(state, player, key_squares);
    let ghost initial_acting = prelude.acting_workers;
    let ghost own0 = prelude.own_workers;
    proof {
        assert forall|i: int| #[trigger] prelude.acting_workers.has(i) implies is_acting_worker(*state, player, i) by {
            crate::gods::mortal::lemma_prelude_acting(*state, player, prelude.own_workers, prelude.acting_workers, i);
        }
    }
    let checkable_mask = prelude.exactly_level_2;
    modify_prelude_for_checking_workers(flags, checkable_mask, &mut prelude);
    let targetable_oppo_workers = prelude.oppo_workers.minus(prelude.domes_and_frozen);
    let has_power_available = state.board.god_data[player.index()] == 0;
    let workers = prelude.acting_workers.squares();

    let mut wi: usize = 0;
    while wi < workers.len()
        invariant
            flags & NARROWING_FLAGS == 0 && state.gods[1 - player.idx()].is_persephone_spec() && !must_climb ==> forall|d: u32|
                !#[trigger] is_theseus_turn(*state, player, true, d),
            wi <= workers@.len(),
            theseus_prelude_matches(prelude, *state, player),
            has_power_available == (state.board.god_data[player.idx()] == 0),
            forall|o: int| #[trigger] targetable_oppo_workers.has(o) == (state.board.workers[1 - player.idx()].has(o)
                && state.board.height(o) < 4),
            forall|k: int| 0 <= k < workers@.len() ==> #[trigger] workers@[k] < 25 && prelude.acting_workers.has(workers@[k] as int),
            forall|i: int| #[trigger] prelude.acting_workers.has(i) && flags & crate::generic::MATE_ONLY != 0 ==> prelude.exactly_level_2.has(i),
            forall|k: int| 0 <= k < result@.len() ==> #[trigger] is_theseus_turn(*state, player, must_climb, result@[k].action.0),
            flags & NARROWING_FLAGS == 0 ==> forall|data: u32| #[trigger] is_theseus_turn(*state, player, must_climb, data) && (exists|j: int|
                0 <= j < wi && workers@[j] as u32 == field_at(data, 0)) ==> lists_word(result@, data),
        decreases workers@.len() - wi,
    {
        let worker_start_pos = workers[wi];
        proof {
            assert(is_acting_worker(*state, player, worker_start_pos as int));
        }
        let worker_start_state = get_worker_start_move_state(&prelude, worker_start_pos);
        let mut worker_next_moves = get_worker_next_move_state(&prelude, &worker_start_state, checkable_mask, must_climb);

        if is_mate_only(flags) || worker_start_state.worker_start_height == 2 {
            let moves_to_level_3 = worker_next_moves.worker_moves.and(prelude.exactly_level_3).and(prelude.win_mask);
            let ghost before = result@;
            let stop = push_winning_moves(flags, &mut result, worker_start_pos, moves_to_level_3, 0);
            proof {
                lemma_lists_word_grows(before, result@);
                if flags & NARROWING_FLAGS == 0 && !stop {
                    assert forall|data: u32| #[trigger] is_theseus_turn(*state, player, must_climb, data) && field_at(data, 0)
                        == worker_start_pos && is_winning_data(data) implies lists_word(result@, data) by {
                        let to = field_at(data, 5);
                        assert(moves_to_level_3.has(to as int));
                        let k = choose|k: int| before.len() <= k < result@.len() && #[trigger] result@[k].action.0
                            == (worker_start_pos as u32) | ((to as u32) << 5u32) | 0u32 | MOVE_IS_WINNING_MASK;
                        crate::bitboard::lemma_or_zero((worker_start_pos as u32) | ((to as u32) << 5u32));
                    }
                }
            }
            proof {
                assert forall|k: int| 0 <= k < result@.len() implies #[trigger] is_theseus_turn(
                    *state,
                    player,
                    must_climb,
                    result@[k].action.0,
                ) by {
                    if k >= before.len() {
                        assert(is_winning_entry(result@[k], worker_start_pos, moves_to_level_3, 0));
                        let sq = choose|sq: u8|
                            sq < 25 && #[trigger] moves_to_level_3.has(sq as int) && result@[k].action.0 == (
                            worker_start_pos as u32) | ((sq as u32) << 5u32) | 0u32 | MOVE_IS_WINNING_MASK;
                        lemma_mortal_move_round_trip(worker_start_pos as u32, sq as u32, 0);
                        crate::bitboard::lemma_or_zero((worker_start_pos as u32) | ((sq as u32) << 5u32));
                    } else {
                        assert(result@[k] == before[k]);
                    }
                }
            }
            if stop {
                proof {
                    crate::generic::lemma_no_flags(flags);
                }
                return result;
            }
            worker_next_moves.worker_moves = worker_next_moves.worker_moves.xor(moves_to_level_3);
        }

        proof {
            crate::generic::lemma_no_flags(flags);
            if flags & NARROWING_FLAGS == 0 {
                assert forall|data: u32| #[trigger] is_theseus_turn(*state, player, must_climb, data) && field_at(data, 0)
                    == worker_start_pos && is_winning_data(data) implies lists_word(result@, data) by {
                    assert(worker_start_state.worker_start_height == 2);
                }
            }
        }
        if !is_mate_only(flags) {
            let neighbor_kill_range = kill_range_of_others(&prelude, worker_start_state.other_own_workers, targetable_oppo_workers);
            let ends = worker_next_moves.worker_moves.squares();
            proof {
                crate::generic::lemma_no_flags(flags);
                if flags & NARROWING_FLAGS == 0 {
                    assert forall|i: int| 0 <= i < 25 && is_standard_step(state.board, worker_start_pos as int, i, must_climb)
                        && !(state.board.height(worker_start_pos as int) == 2 && state.board.height(i) == 3) implies #[trigger] ends@.contains(i as u8) by {
                        assert(worker_next_moves.worker_moves.has(i));
                    }
                }
            }
            let mut ei: usize = 0;
            while ei < ends.len()
                invariant
                    flags & NARROWING_FLAGS == 0 && state.gods[1 - player.idx()].is_persephone_spec() && !must_climb ==> forall|d: u32|
                        !#[trigger] is_theseus_turn(*state, player, true, d),
                    ei <= ends@.len(),
                    theseus_prelude_matches(prelude, *state, player),
                    has_power_available == (state.board.god_data[player.idx()] == 0),
                    worker_start_pos < 25,
                    worker_start_state.describes(prelude, worker_start_pos as int),
                    is_acting_worker(*state, player, worker_start_pos as int),
                    forall|o: int| #[trigger] targetable_oppo_workers.has(o) == (state.board.workers[1 - player.idx()].has(o)
                        && state.board.height(o) < 4),
                    forall|o: int| #[trigger] neighbor_kill_range.has(o) == (targetable_oppo_workers.has(o) && exists|w: int|
                        0 <= w < 25 && #[trigger] worker_start_state.other_own_workers.has(w) && is_adjacent(w, o) && ((
                        prelude.board.height(w) == 0 && prelude.board.height(o) >= 3) || (prelude.board.height(w) == 1
                            && prelude.board.height(o) >= 4))),
                    forall|k: int| 0 <= k < ends@.len() ==> #[trigger] ends@[k] < 25 && is_standard_step(
                        state.board,
                        worker_start_pos as int,
                        ends@[k] as int,
                        must_climb,
                    ) && !(state.board.height(worker_start_pos as int) == 2 && state.board.height(ends@[k] as int) == 3),
                    forall|k: int| 0 <= k < result@.len() ==> #[trigger] is_theseus_turn(*state, player, must_climb, result@[k].action.0),
                    flags & NARROWING_FLAGS == 0 ==> forall|data: u32| #[trigger] is_theseus_turn(*state, player, must_climb, data) && (exists|j: int|
                        0 <= j < wi && workers@[j] as u32 == field_at(data, 0)) ==> lists_word(result@, data),
                    flags & NARROWING_FLAGS == 0 ==> forall|data: u32| #[trigger] is_theseus_turn(*state, player, must_climb, data) && field_at(data, 0)
                        == worker_start_pos && is_winning_data(data) ==> lists_word(result@, data),
                    flags & NARROWING_FLAGS == 0 ==> forall|data: u32| #[trigger] is_theseus_turn(*state, player, must_climb, data) && field_at(data, 0)
                        == worker_start_pos && !is_winning_data(data) && (exists|j: int| 0 <= j < ei && ends@[j] as u32 == field_at(data, 5))
                        ==> lists_word(result@, data),
                    flags & NARROWING_FLAGS == 0 ==> forall|i: int| 0 <= i < 25 && is_standard_step(state.board, worker_start_pos as int, i, must_climb)
                        && !(state.board.height(worker_start_pos as int) == 2 && state.board.height(i) == 3) ==> #[trigger] ends@.contains(i as u8),
                    flags & NARROWING_FLAGS == 0 ==> !crate::gods::move_helpers::is_interact_with_key_squares_spec(flags),
                    forall|o: int| #[trigger] worker_start_state.other_own_workers.has(o) == (prelude.own_workers.has(o) && o != worker_start_pos),
                decreases ends@.len() - ei,
            {
                let worker_end_pos = ends[ei];
                let worker_end_move_state = get_worker_end_move_state(&prelude, &worker_start_state, worker_end_pos);
                let build_state = crate::gods::move_helpers::get_worker_next_build_state_with_is_matched(
                    flags,
                    &prelude,
                    &worker_start_state,
                    &worker_end_move_state,
                    true,
                );
                let unblocked_squares = build_state.unblocked_squares;
                let all_possible_builds = build_state.all_possible_builds;
                let no_blockers_reach_board = get_standard_reach_board(
                    &prelude,
                    &worker_next_moves,
                    &worker_end_move_state,
                    BitBoard::main_section(),
                );
                let end_neighbors = neighbor_mask(worker_end_pos);
                let end_height = worker_end_move_state.worker_end_height;
                let full_kill_range = if end_height == 0 {
                    neighbor_kill_range.or(end_neighbors.and(prelude.board.height_map[1]).and(targetable_oppo_workers))
                } else if end_height == 1 {
                    neighbor_kill_range.or(end_neighbors.and(prelude.board.height_map[2]).and(targetable_oppo_workers))
                } else {
                    neighbor_kill_range
                };
                proof {
                    let board = state.board;
                    let p = player.idx();
                    assert forall|o: int| #[trigger] full_kill_range.has(o) implies is_theseus_target(
                        board,
                        player,
                        worker_start_pos as int,
                        worker_end_pos as int,
                        o,
                    ) by {
                        lemma_layer_is_height(board, 1, o);
                        lemma_layer_is_height(board, 2, o);
                        if neighbor_kill_range.has(o) {
                            let w = choose|w: int| 0 <= w < 25 && #[trigger] worker_start_state.other_own_workers.has(w)
                                && is_adjacent(w, o) && ((board.height(w) == 0 && board.height(o) >= 3) || (board.height(w) == 1
                                && board.height(o) >= 4));
                            assert(prelude.own_workers.has(w));
                            assert(board.workers[p].has(w));
                        }
                    }
                }
                proof {
                    let board = state.board;
                    let p = player.idx();
                    assert forall|o: int| 0 <= o < 25 && #[trigger] is_theseus_target(
                        board,
                        player,
                        worker_start_pos as int,
                        worker_end_pos as int,
                        o,
                    ) implies full_kill_range.has(o) by {
                        lemma_layer_is_height(board, 1, o);
                        lemma_layer_is_height(board, 2, o);
                        assert(targetable_oppo_workers.has(o));
                        if !(is_adjacent(worker_end_pos as int, o) && ((board.height(worker_end_pos as int) == 0 && board.height(o) >= 2)
                            || (board.height(worker_end_pos as int) == 1 && board.height(o) >= 3))) {
                            let w = choose|w: int|
                                #[trigger] board.workers[p].has(w) && w != worker_start_pos as int && is_adjacent(w, o) && board.height(w)
                                    == 0 && board.height(o) >= 3;
                            assert(prelude.own_workers.has(w));
                            assert(worker_start_state.other_own_workers.has(w));
                            assert(neighbor_kill_range.has(o));
                        }
                    }
                }
                let ghost result_before_kills = result@;
                if has_power_available {
                    let kills = full_kill_range.squares();
                    let mut ki: usize = 0;
                    proof {
                        crate::generic::lemma_no_flags(flags);
                    }
                    while ki < kills.len()
                        invariant
                            flags & NARROWING_FLAGS == 0 && state.gods[1 - player.idx()].is_persephone_spec() && !must_climb ==> forall|d: u32|
                                !#[trigger] is_theseus_turn(*state, player, true, d),
                            ki <= kills@.len(),
                            theseus_prelude_matches(prelude, *state, player),
                            state.board.god_data[player.idx()] == 0,
                            worker_start_pos < 25,
                            worker_end_pos < 25,
                            is_acting_worker(*state, player, worker_start_pos as int),
                            is_standard_step(state.board, worker_start_pos as int, worker_end_pos as int, must_climb),
                            !(state.board.height(worker_start_pos as int) == 2 && state.board.height(worker_end_pos as int) == 3),
                            build_state.describes(prelude, worker_start_pos as int, worker_end_pos as int),
                            all_possible_builds == build_state.all_possible_builds,
                            forall|k: int| 0 <= k < kills@.len() ==> #[trigger] kills@[k] < 25 && is_theseus_target(
                                state.board,
                                player,
                                worker_start_pos as int,
                                worker_end_pos as int,
                                kills@[k] as int,
                            ),
                            forall|k: int| 0 <= k < result@.len() ==> #[trigger] is_theseus_turn(*state, player, must_climb, result@[k].action.0),
                            flags & NARROWING_FLAGS == 0 ==> forall|data: u32| #[trigger] is_theseus_turn(*state, player, must_climb, data) && (exists|j: int|
                            0 <= j < wi && workers@[j] as u32 == field_at(data, 0)) ==> lists_word(result@, data),
                            flags & NARROWING_FLAGS == 0 ==> forall|data: u32| #[trigger] is_theseus_turn(*state, player, must_climb, data) && field_at(data, 0)
                            == worker_start_pos && is_winning_data(data) ==> lists_word(result@, data),
                            flags & NARROWING_FLAGS == 0 ==> forall|data: u32| #[trigger] is_theseus_turn(*state, player, must_climb, data) && field_at(data, 0)
                            == worker_start_pos && !is_winning_data(data) && (exists|j: int| 0 <= j < ei && ends@[j] as u32 == field_at(data, 5))
                            ==> lists_word(result@, data),
                            ei < ends@.len(),
                            ends@[ei as int] == worker_end_pos,
                            flags & NARROWING_FLAGS == 0 ==> !crate::gods::move_helpers::is_interact_with_key_squares_spec(flags),
                            flags & NARROWING_FLAGS == 0 ==> forall|data: u32| #[trigger] is_theseus_turn(*state, player, must_climb, data) && field_at(data, 0)
                                == worker_start_pos && !is_winning_data(data) && field_at(data, 5) == worker_end_pos && field_at(data, 15) != 25
                                && (exists|j: int| 0 <= j < ki && kills@[j] as u32 == field_at(data, 15)) ==> lists_word(result@, data),
                            flags & NARROWING_FLAGS == 0 ==> forall|o: int| 0 <= o < 25 && #[trigger] is_theseus_target(
                                state.board,
                                player,
                                worker_start_pos as int,
                                worker_end_pos as int,
                                o,
                            ) ==> kills@.contains(o as u8),
                            forall|o: int| 0 <= o < 25 && #[trigger] full_kill_range.has(o) ==> kills@.contains(o as u8),
                        decreases kills@.len() - ki,
                    {
                        let kill_pos = kills[ki];
                        let kill_mask = BitBoard::as_mask(kill_pos);
                        let narrowed_builds = if is_interact_with_key_squares(flags) && worker_end_move_state.worker_end_mask.or(
                            kill_mask,
                        ).and(prelude.key_squares).is_empty() {
                            all_possible_builds.and(prelude.key_squares)
                        } else {
                            all_possible_builds
                        };
                        let reach_board = no_blockers_reach_board.and(unblocked_squares.or(kill_mask));
                        let builds = narrowed_builds.squares();
                        let mut bi: usize = 0;
                        while bi < builds.len()
                            invariant
                                flags & NARROWING_FLAGS == 0 && state.gods[1 - player.idx()].is_persephone_spec() && !must_climb ==> forall|d: u32|
                                    !#[trigger] is_theseus_turn(*state, player, true, d),
                                bi <= builds@.len(),
                                theseus_prelude_matches(prelude, *state, player),
                                state.board.god_data[player.idx()] == 0,
                                worker_start_pos < 25,
                                worker_end_pos < 25,
                                kill_pos < 25,
                                is_acting_worker(*state, player, worker_start_pos as int),
                                is_standard_step(state.board, worker_start_pos as int, worker_end_pos as int, must_climb),
                                !(state.board.height(worker_start_pos as int) == 2 && state.board.height(worker_end_pos as int) == 3),
                                build_state.describes(prelude, worker_start_pos as int, worker_end_pos as int),
                                is_theseus_target(state.board, player, worker_start_pos as int, worker_end_pos as int, kill_pos as int),
                                forall|k: int| 0 <= k < builds@.len() ==> #[trigger] builds@[k] < 25 && build_state.all_possible_builds.has(
                                    builds@[k] as int,
                                ),
                                forall|k: int| 0 <= k < result@.len() ==> #[trigger] is_theseus_turn(*state, player, must_climb, result@[k].action.0),
                                flags & NARROWING_FLAGS == 0 ==> forall|data: u32| #[trigger] is_theseus_turn(*state, player, must_climb, data) && (exists|j: int|
                                0 <= j < wi && workers@[j] as u32 == field_at(data, 0)) ==> lists_word(result@, data),
                                flags & NARROWING_FLAGS == 0 ==> forall|data: u32| #[trigger] is_theseus_turn(*state, player, must_climb, data) && field_at(data, 0)
                                == worker_start_pos && is_winning_data(data) ==> lists_word(result@, data),
                                flags & NARROWING_FLAGS == 0 ==> forall|data: u32| #[trigger] is_theseus_turn(*state, player, must_climb, data) && field_at(data, 0)
                                == worker_start_pos && !is_winning_data(data) && (exists|j: int| 0 <= j < ei && ends@[j] as u32 == field_at(data, 5))
                                ==> lists_word(result@, data),
                                ei < ends@.len(),
                                ends@[ei as int] == worker_end_pos,
                                flags & NARROWING_FLAGS == 0 ==> !crate::gods::move_helpers::is_interact_with_key_squares_spec(flags),
                                flags & NARROWING_FLAGS == 0 ==> forall|data: u32| #[trigger] is_theseus_turn(*state, player, must_climb, data) && field_at(data, 0)
                                    == worker_start_pos && !is_winning_data(data) && field_at(data, 5) == worker_end_pos && field_at(data, 15) != 25
                                    && (exists|j: int| 0 <= j < ki && kills@[j] as u32 == field_at(data, 15)) ==> lists_word(result@, data),
                                flags & NARROWING_FLAGS == 0 ==> forall|data: u32| #[trigger] is_theseus_turn(*state, player, must_climb, data) && field_at(data, 0)
                                    == worker_start_pos && !is_winning_data(data) && field_at(data, 5) == worker_end_pos && field_at(data, 15) == kill_pos
                                    && (exists|j: int| 0 <= j < bi && builds@[j] as u32 == field_at(data, 10)) ==> lists_word(result@, data),
                                ki < kills@.len(),
                                kills@[ki as int] == kill_pos,
                                flags & NARROWING_FLAGS == 0 ==> forall|b: int| 0 <= b < 25 && #[trigger] all_possible_builds.has(b) ==> builds@.contains(b as u8),
                            decreases builds@.len() - bi,
                        {
                            let worker_build_pos = builds[bi];
                            let build_mask = BitBoard::as_mask(worker_build_pos);
                            let final_level_3 = prelude.exactly_level_2.and(build_mask).or(prelude.exactly_level_3.minus(build_mask));
                            let is_check = reach_board.and(final_level_3).is_not_empty();
                            let new_action = TheseusMove::new_power_move(worker_start_pos, worker_end_pos, worker_build_pos, kill_pos);
                            let ghost before = result@;
                            result.push(build_scored_move(flags, new_action.to_generic(), is_check, true));
                            proof {
                                lemma_lists_word_grows(before, result@);
                                assert(result@[before.len() as int].action.0 == theseus_word(worker_start_pos as u32, worker_end_pos as u32, worker_build_pos as u32, kill_pos as u32));
                                lemma_pack4(worker_start_pos as u32, worker_end_pos as u32, worker_build_pos as u32, kill_pos as u32);
                                assert(prelude.build_mask.has(worker_build_pos as int));
                                assert forall|k: int| 0 <= k < result@.len() implies #[trigger] is_theseus_turn(
                                    *state,
                                    player,
                                    must_climb,
                                    result@[k].action.0,
                                ) by {
                                    if k < before.len() {
                                        assert(result@[k] == before[k]);
                                    }
                                }
                            }
                            bi = bi + 1;
                        }
                        proof {
                            if flags & NARROWING_FLAGS == 0 {
                                assert forall|data: u32| #[trigger] is_theseus_turn(*state, player, must_climb, data) && field_at(data, 0)
                                    == worker_start_pos && !is_winning_data(data) && field_at(data, 5) == worker_end_pos && field_at(data, 15) != 25
                                    && (exists|j: int| 0 <= j < ki + 1 && kills@[j] as u32 == field_at(data, 15)) implies lists_word(result@, data) by {
                                    let j = choose|j: int| 0 <= j < ki + 1 && kills@[j] as u32 == field_at(data, 15);
                                    if j == ki {
                                        let b = field_at(data, 10);
                                        assert(build_state.all_possible_builds.has(b as int));
                                        assert(builds@.contains(b as u8));
                                        let jb = choose|jb: int| 0 <= jb < builds@.len() && builds@[jb] == b as u8;
                                        assert(builds@[jb] as u32 == field_at(data, 10));
                                    }
                                }
                            }
                        }
                        ki = ki + 1;
                    }
                    proof {
                        if flags & NARROWING_FLAGS == 0 {
                            assert forall|data: u32| #[trigger] is_theseus_turn(*state, player, must_climb, data) && field_at(data, 0)
                                == worker_start_pos && !is_winning_data(data) && field_at(data, 5) == worker_end_pos && field_at(data, 15) != 25
                                implies lists_word(result@, data) by {
                                let o = field_at(data, 15);
                                assert(kills@.contains(o as u8));
                                let j = choose|j: int| 0 <= j < kills@.len() && kills@[j] == o as u8;
                                assert(kills@[j] as u32 == field_at(data, 15));
                            }
                        }
                    }
                }

                proof {
                    crate::generic::lemma_no_flags(flags);
                    if flags & NARROWING_FLAGS == 0 && !has_power_available {
                        assert forall|data: u32| #[trigger] is_theseus_turn(*state, player, must_climb, data) && field_at(data, 0)
                            == worker_start_pos && !is_winning_data(data) && field_at(data, 5) == worker_end_pos && field_at(data, 15) != 25
                            implies lists_word(result@, data) by {
                            assert(state.board.god_data[player.idx()] == 0);
                        }
                    }
                }
                let reach_board = no_blockers_reach_board.and(unblocked_squares);
                let narrowed_builds = if is_interact_with_key_squares(flags) && worker_end_move_state.worker_end_mask.and(
                    prelude.key_squares,
                ).is_empty() {
                    all_possible_builds.and(prelude.key_squares)
                } else {
                    all_possible_builds
                };
                let builds = narrowed_builds.squares();
                let mut bi: usize = 0;
                while bi < builds.len()
                    invariant
                        flags & NARROWING_FLAGS == 0 && state.gods[1 - player.idx()].is_persephone_spec() && !must_climb ==> forall|d: u32|
                            !#[trigger] is_theseus_turn(*state, player, true, d),
                        bi <= builds@.len(),
                        theseus_prelude_matches(prelude, *state, player),
                        worker_start_pos < 25,
                        worker_end_pos < 25,
                        is_acting_worker(*state, player, worker_start_pos as int),
                        is_standard_step(state.board, worker_start_pos as int, worker_end_pos as int, must_climb),
                        !(state.board.height(worker_start_pos as int) == 2 && state.board.height(worker_end_pos as int) == 3),
                        build_state.describes(prelude, worker_start_pos as int, worker_end_pos as int),
                        forall|k: int| 0 <= k < builds@.len() ==> #[trigger] builds@[k] < 25 && build_state.all_possible_builds.has(
                            builds@[k] as int,
                        ),
                        forall|k: int| 0 <= k < result@.len() ==> #[trigger] is_theseus_turn(*state, player, must_climb, result@[k].action.0),
                        flags & NARROWING_FLAGS == 0 ==> forall|data: u32| #[trigger] is_theseus_turn(*state, player, must_climb, data) && (exists|j: int|
                            0 <= j < wi && workers@[j] as u32 == field_at(data, 0)) ==> lists_word(result@, data),
                        flags & NARROWING_FLAGS == 0 ==> forall|data: u32| #[trigger] is_theseus_turn(*state, player, must_climb, data) && field_at(data, 0)
                            == worker_start_pos && is_winning_data(data) ==> lists_word(result@, data),
                        flags & NARROWING_FLAGS == 0 ==> forall|data: u32| #[trigger] is_theseus_turn(*state, player, must_climb, data) && field_at(data, 0)
                            == worker_start_pos && !is_winning_data(data) && (exists|j: int| 0 <= j < ei && ends@[j] as u32 == field_at(data, 5))
                            ==> lists_word(result@, data),
                        flags & NARROWING_FLAGS == 0 ==> forall|data: u32| #[trigger] is_theseus_turn(*state, player, must_climb, data) && field_at(data, 0)
                            == worker_start_pos && !is_winning_data(data) && field_at(data, 5) == worker_end_pos && field_at(data, 15) != 25
                            ==> lists_word(result@, data),
                        flags & NARROWING_FLAGS == 0 ==> forall|data: u32| #[trigger] is_theseus_turn(*state, player, must_climb, data) && field_at(data, 0)
                            == worker_start_pos && !is_winning_data(data) && field_at(data, 5) == worker_end_pos && field_at(data, 15) == 25
                            && (exists|j: int| 0 <= j < bi && builds@[j] as u32 == field_at(data, 10)) ==> lists_word(result@, data),
                        flags & NARROWING_FLAGS == 0 ==> forall|b: int| 0 <= b < 25 && #[trigger] build_state.all_possible_builds.has(b) ==> builds@.contains(b as u8),
                        ei < ends@.len(),
                        ends@[ei as int] == worker_end_pos,
                    decreases builds@.len() - bi,
                {
                    let worker_build_pos = builds[bi];
                    let build_mask = BitBoard::as_mask(worker_build_pos);
                    let final_level_3 = prelude.exactly_level_2.and(build_mask).or(prelude.exactly_level_3.minus(build_mask));
                    let is_check = reach_board.and(final_level_3).is_not_empty();
                    let new_action = TheseusMove::new_basic_move(worker_start_pos, worker_end_pos, worker_build_pos);
                    let ghost before = result@;
                    result.push(build_scored_move(flags, new_action.to_generic(), is_check, worker_end_move_state.is_improving));
                    proof {
                        lemma_lists_word_grows(before, result@);
                        assert(result@[before.len() as int].action.0 == theseus_word(worker_start_pos as u32, worker_end_pos as u32, worker_build_pos as u32, 25));
                        lemma_pack4(worker_start_pos as u32, worker_end_pos as u32, worker_build_pos as u32, 25);
                        assert(prelude.build_mask.has(worker_build_pos as int));
                        assert forall|k: int| 0 <= k < result@.len() implies #[trigger] is_theseus_turn(
                            *state,
                            player,
                            must_climb,
                            result@[k].action.0,
                        ) by {
                            if k < before.len() {
                                assert(result@[k] == before[k]);
                            }
                        }
                    }
                    bi = bi + 1;
                }
                proof {
                    if flags & NARROWING_FLAGS == 0 {
                        assert forall|data: u32| #[trigger] is_theseus_turn(*state, player, must_climb, data) && field_at(data, 0)
                            == worker_start_pos && !is_winning_data(data) && (exists|j: int| 0 <= j < ei + 1 && ends@[j] as u32 == field_at(data, 5))
                            implies lists_word(result@, data) by {
                            let j = choose|j: int| 0 <= j < ei + 1 && ends@[j] as u32 == field_at(data, 5);
                            if j == ei && field_at(data, 15) == 25 {
                                let b = field_at(data, 10);
                                assert(build_state.all_possible_builds.has(b as int));
                                assert(builds@.contains(b as u8));
                                let jb = choose|jb: int| 0 <= jb < builds@.len() && builds@[jb] == b as u8;
                                assert(builds@[jb] as u32 == field_at(data, 10));
                            }
                        }
                    }
                }
                ei = ei + 1;
            }
            proof {
                if flags & NARROWING_FLAGS == 0 {
                    assert forall|data: u32| #[trigger] is_theseus_turn(*state, player, must_climb, data) && (exists|j: int|
                        0 <= j < wi + 1 && workers@[j] as u32 == field_at(data, 0)) implies lists_word(result@, data) by {
                        let j = choose|j: int| 0 <= j < wi + 1 && workers@[j] as u32 == field_at(data, 0);
                        if j == wi && !is_winning_data(data) {
                            let to = field_at(data, 5);
                            assert(ends@.contains(to as u8));
                            let je = choose|je: int| 0 <= je < ends@.len() && ends@[je] == to as u8;
                            assert(ends@[je] as u32 == field_at(data, 5));
                        }
                    }
                }
            }
        }
        wi = wi + 1;
    }
    proof {
        if flags & NARROWING_FLAGS == 0 {
            assert forall|data: u32| #[trigger] theseus_turn_owed(*state, player, must_climb, data) implies lists_word(result@, data) by {
                let f = field_at(data, 0);
                lemma_acting_in_prelude(*state, player, own0, initial_acting, f as int);
                assert(workers@.contains(f as u8));
                let j = choose|j: int| 0 <= j < workers@.len() && workers@[j] == f as u8;
                assert(workers@[j] as u32 == field_at(data, 0));
            }
        }
    }
    result
}

/// Two different single bits make the same word whether or-ed or xor-ed.
proof fn lemma_or_is_xor(a: u32, b: u32)
    by (bit_vector)
    requires
        a < 32,
        b < 32,
        a != b,
    ensures
        (1u32 << a) | (1u32 << b) == (1u32 << a) ^ (1u32 << b),
{
}

/// A Theseus move reads back what it was built from, and stays clear of the flags.
pub proof fn lemma_theseus_move_round_trip(move_from: u32, move_to: u32, build: u32, kill: u32)
    requires
        move_from < 25,
        move_to < 25,
        build < 25,
        kill <= 25,
    ensures
        field_at(move_from | (move_to << 5u32) | (build << 10u32) | (kill << 15u32), 0) == move_from,
        field_at(move_from | (move_to << 5u32) | (build << 10u32) | (kill << 15u32), 5) == move_to,
        field_at(move_from | (move_to << 5u32) | (build << 10u32) | (kill << 15u32), 10) == build,
        field_at(move_from | (move_to << 5u32) | (build << 10u32) | (kill << 15u32), 15) == kill,
        !is_winning_data(move_from | (move_to << 5u32) | (build << 10u32) | (kill << 15u32)),
        (move_from | (move_to << 5u32) | (build << 10u32) | (kill << 15u32)) & MOVE_DATA_MAIN_SECTION == move_from | (move_to << 5u32) | (build << 10u32) | (kill << 15u32),
{
    lemma_pack4(move_from, move_to, build, kill);
}

/// Theseus's fixed data.
pub fn build_theseus() -> (r: GodPower)
    ensures
        r.god_name == GodName::Theseus,
        r.hash1 == 3436485852601412104u64,
        r.hash2 == 11014775580519688057u64,
        r.placement_type == PlacementType::Normal,
        r.symmetry == BoardSymmetry::Full,
        !r.is_persephone,
{
    god_power(GodName::Theseus, 3436485852601412104, 11014775580519688057)
}

/// How a turn of this god changes the board: the workers, the heights, the god data and the
/// winner after it, and whose turn it is, are those of `after`.
pub open spec fn theseus_move_effect(before: BoardState, after: BoardState, player: Player, data: u32) -> bool {
    &&& after.workers[player.idx()].0 == before.workers[player.idx()].0 ^ ((1u32 << field_at(data, 0)) | (1u32 << field_at(data, 5)))
    &&& after.current_player == before.current_player
    &&& (is_winning_data(data) ==> after.winner == Some(player) && after.height_map == before.height_map && after.workers[1 - player.idx()] == before.workers[1 - player.idx()] && after.god_data == before.god_data)
    &&& (!is_winning_data(data) ==> after.winner == before.winner)
    &&& (!is_winning_data(data) ==> after.height(field_at(data, 10) as int) == before.height( field_at(data, 10) as int, ) + 1)
    &&& (!is_winning_data(data) ==> forall|i: int| i != field_at(data, 10) ==> #[trigger] after.height(i) == before.height(i))
    &&& (!is_winning_data(data) && field_at(data, 15) == 25 ==> after.workers[1 - player.idx()] == before.workers[1 - player.idx()] && after.god_data == before.god_data)
    &&& (!is_winning_data(data) && field_at(data, 15) != 25 ==> { &&& after.god_data[player.idx()] == 1 &&& after.god_data[1 - player.idx()] == before.god_data[1 - player.idx()] &&& forall|i: int| #[trigger] after.workers[1 - player.idx()].has(i) == (before.workers[1 - player.idx()].has(i) && i != field_at(data, 15)) })
}

} // verus!
