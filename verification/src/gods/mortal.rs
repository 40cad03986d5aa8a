use vstd::prelude::*;

use crate::gods::{BoardSymmetry, PlacementType, god_power, GodName, GodPower};

use crate::bitboard::{apply_neighbor_map_to_mask, bit, group_bit_lemmas, neighbor_mask, popcount, BitBoard, MAIN_SECTION};
use crate::board::{BoardState, FullGameState, Player};
use crate::generic::{NARROWING_FLAGS, INTERACT_WITH_KEY_SQUARES, 
    build_scored_move, field_at, is_interact_with_key_squares, is_mate_only, is_winning_data, lemma_pack3, read_position,
    GenericMove, MoveData, MoveGenFlags, ScoredMove, ANY_MOVE_FILTER, MATE_ONLY, STOP_ON_MATE,
    MOVE_DATA_MAIN_SECTION, MOVE_IS_WINNING_MASK, WINNING_MOVE_SCORE,
};
use crate::gods::hypnus::hypnus_filter_spec;
use crate::gods::move_helpers::{
    build_mask_allows, get_generator_prelude_state, get_sized_result, get_standard_reach_board,
    get_worker_end_move_state, get_worker_next_build_state_with_is_matched, get_worker_next_move_state,
    get_worker_start_move_state, is_standard_step, is_winning_entry,
    modify_prelude_for_checking_workers, push_winning_moves, GeneratorPreludeState, WorkerEndMoveState,
    WorkerStartMoveState,
};
use crate::square::{is_adjacent, is_square, Square};

verus! {

pub const MORTAL_MOVE_FROM_POSITION_OFFSET: u32 = 0;

pub const MORTAL_MOVE_TO_POSITION_OFFSET: u32 = 5;

pub const MORTAL_BUILD_POSITION_OFFSET: u32 = 10;

/// A plain turn: move one worker, then build next to it. A winning move has no build.
#[derive(Clone, Copy, PartialEq, Eq, Structural, Debug)]
pub struct MortalMove(pub MoveData);

/// The word of a plain move.
pub open spec fn mortal_basic_data(from: u32, to: u32, build: u32) -> u32 {
    from | (to << 5u32) | (build << 10u32)
}

/// The word of a plain winning move.
pub open spec fn mortal_winning_data(from: u32, to: u32) -> u32 {
    from | (to << 5u32) | 0x8000_0000u32
}

impl MortalMove {
    pub fn new_basic_move(move_from_position: Square, move_to_position: Square, build_position: Square) -> (r: Self)
        requires
            move_from_position < 25,
            move_to_position < 25,
            build_position < 25,
        ensures
            r.0 == mortal_basic_data(move_from_position as u32, move_to_position as u32, build_position as u32),
    {
        MortalMove((move_from_position as u32) | ((move_to_position as u32) << 5u32) | ((build_position as u32) << 10u32))
    }

    pub fn new_winning_move(move_from_position: Square, move_to_position: Square) -> (r: Self)
        requires
            move_from_position < 25,
            move_to_position < 25,
        ensures
            r.0 == mortal_winning_data(move_from_position as u32, move_to_position as u32),
    {
        MortalMove((move_from_position as u32) | ((move_to_position as u32) << 5u32) | MOVE_IS_WINNING_MASK)
    }

    pub fn move_from_position(&self) -> (r: Square)
        ensures
            r == field_at(self.0, 0),
    {
        read_position(self.0, MORTAL_MOVE_FROM_POSITION_OFFSET)
    }

    pub fn move_to_position(&self) -> (r: Square)
        ensures
            r == field_at(self.0, 5),
    {
        read_position(self.0, MORTAL_MOVE_TO_POSITION_OFFSET)
    }

    pub fn build_position(self) -> (r: Square)
        ensures
            r == field_at(self.0, 10),
    {
        read_position(self.0, MORTAL_BUILD_POSITION_OFFSET)
    }

    /// The start and end squares of the moving worker.
    pub fn move_mask(self) -> (r: BitBoard)
        requires
            field_at(self.0, 0) < 25,
            field_at(self.0, 5) < 25,
        ensures
            r.0 == (1u32 << field_at(self.0, 0)) ^ (1u32 << field_at(self.0, 5)),
    {
        BitBoard::as_mask(self.move_from_position()).xor(BitBoard::as_mask(self.move_to_position()))
    }

    pub fn get_is_winning(&self) -> (r: bool)
        ensures
            r == is_winning_data(self.0),
    {
        (self.0 & MOVE_IS_WINNING_MASK) != 0
    }

    /// Plays the move: the worker moves, and either wins or builds.
    pub fn make_move(self, board: &mut BoardState, player: Player)
        requires
            field_at(self.0, 0) < 25,
            field_at(self.0, 5) < 25,
            field_at(self.0, 10) < 25,
            !is_winning_data(self.0) ==> old(board).height(field_at(self.0, 10) as int) < 4,
        ensures
            final(board).workers[player.idx()].0 == old(board).workers[player.idx()].0 ^ ((1u32 << field_at(self.0, 0))
                ^ (1u32 << field_at(self.0, 5))),
            final(board).workers[1 - player.idx()] == old(board).workers[1 - player.idx()],
            final(board).god_data == old(board).god_data,
            final(board).current_player == old(board).current_player,
            is_winning_data(self.0) ==> final(board).winner == Some(player) && final(board).height_map == old(board).height_map,
            !is_winning_data(self.0) ==> final(board).winner == old(board).winner,
            !is_winning_data(self.0) ==> final(board).height(field_at(self.0, 10) as int) == old(board).height(field_at(self.0, 10) as int) + 1,
            !is_winning_data(self.0) ==> forall|i: int| i != field_at(self.0, 10) ==> #[trigger] final(board).height(i) == old(board).height(i),
            old(board).wf() && old(board).workers[player.idx()].has(field_at(self.0, 0) as int) && !old(board).occupied(
                field_at(self.0, 5) as int,
            ) ==> final(board).wf(),
    {
        let worker_move_mask = self.move_mask();
        let ghost before = *board;
        board.worker_xor(player, worker_move_mask);
        proof {
            lemma_move_worker_keeps_wf(before, *board, player, field_at(self.0, 0), field_at(self.0, 5));
        }
        if self.get_is_winning() {
            board.set_winner(player);
            return;
        }
        board.build_up(self.build_position());
    }

    /// The squares an opponent would have to touch to stop this move: its start and end.
    pub fn get_blocker_board(self) -> (r: BitBoard)
        requires
            field_at(self.0, 0) < 25,
            field_at(self.0, 5) < 25,
        ensures
            r.0 == (1u32 << field_at(self.0, 0)) | (1u32 << field_at(self.0, 5)),
    {
        BitBoard::as_mask(self.move_from_position()).or(BitBoard::as_mask(self.move_to_position()))
    }

    /// Index of the move in the history table: the three squares and their heights.
    pub fn get_history_idx(self, board: &BoardState) -> (r: usize)
        requires
            field_at(self.0, 0) < 25,
            field_at(self.0, 5) < 25,
            field_at(self.0, 10) < 25,
        ensures
            r == history_idx(self.0, *board),
    {
        let from = self.move_from_position();
        let to = self.move_to_position();
        let build = self.build_position();
        let from_height = board.get_height(from);
        let to_height = board.get_height(to);
        let build_height = board.get_height(build);
        let fu = from as usize;
        let tu = to as usize;
        let bu = build as usize;
        let mut res = 4 * fu + from_height;
        res = res * 100 + 4 * tu + to_height;
        res = res * 100 + 4 * bu + build_height;
        res
    }

    pub fn to_generic(self) -> (r: GenericMove)
        ensures
            r.0 == self.0,
    {
        GenericMove(self.0)
    }

    pub fn from_generic(action: GenericMove) -> (r: Self)
        ensures
            r.0 == action.0,
    {
        MortalMove(action.0)
    }
}

/// Index in the history table of a move over three squares: each square with its height.
pub open spec fn history_idx(data: u32, board: BoardState) -> int {
    ((4 * field_at(data, 0) + board.height(field_at(data, 0) as int)) * 100 + 4 * field_at(data, 5) + board.height(
        field_at(data, 5) as int,
    )) * 100 + 4 * field_at(data, 10) + board.height(field_at(data, 10) as int)
}

/// A plain move reads back the squares it was built from, and stays in the main section; a
/// winning move reads back its two squares and carries the winning flag.
pub proof fn lemma_mortal_move_round_trip(from: u32, to: u32, build: u32)
    requires
        from < 25,
        to < 25,
        build < 25,
    ensures
        field_at(mortal_basic_data(from, to, build), 0) == from,
        field_at(mortal_basic_data(from, to, build), 5) == to,
        field_at(mortal_basic_data(from, to, build), 10) == build,
        !is_winning_data(mortal_basic_data(from, to, build)),
        mortal_basic_data(from, to, build) & MOVE_DATA_MAIN_SECTION == mortal_basic_data(from, to, build),
        field_at(mortal_winning_data(from, to), 0) == from,
        field_at(mortal_winning_data(from, to), 5) == to,
        field_at(mortal_winning_data(from, to), 10) == 0,
        is_winning_data(mortal_winning_data(from, to)),
{
    lemma_pack3(from, to, build);
}

/// Whether the player may start a move with the worker on `from`: one of theirs, and not the one
/// Hypnus holds back.
pub open spec fn is_acting_worker(state: FullGameState, player: Player, from: int) -> bool {
    let board = state.board;
    let p = player.idx();
    &&& board.workers[p].has(from)
    &&& (state.gods[1 - p].is_hypnus_spec() ==> bit(
        hypnus_filter_spec(board.height_map, board.workers[p].0 & MAIN_SECTION),
        from as u32,
    ))
}

/// A legal build after a plain move from `from` to `to`.
pub open spec fn is_standard_build_for(state: FullGameState, player: Player, from: int, to: int, build: int) -> bool {
    let board = state.board;
    &&& is_adjacent(to, build)
    &&& (!board.occupied(build) || build == from)
    &&& board.height(build) < 4
    &&& build_mask_allows(state.gods[1 - player.idx()], board, player, build)
}

/// Whether a step from height `hf` to height `ht` wins: climbing onto level 3, or with Pan's power
/// also dropping two or more levels.
pub open spec fn is_win_step(pan_wins: bool, hf: nat, ht: nat) -> bool {
    ||| hf == 2 && ht == 3
    ||| pan_wins && ((hf == 2 && ht == 0) || (hf == 3 && (ht == 0 || ht == 1)))
}

/// A legal turn of move-then-build, read off its word: a winning step, or a step that does not win
/// followed by a legal build. `pan_wins` adds Pan's winning drops.
pub open spec fn is_standard_turn(state: FullGameState, player: Player, must_climb: bool, pan_wins: bool, data: u32) -> bool {
    let board = state.board;
    let from = field_at(data, 0);
    let to = field_at(data, 5);
    let build = field_at(data, 10);
    &&& is_acting_worker(state, player, from as int)
    &&& is_standard_step(board, from as int, to as int, must_climb)
    &&& if is_winning_data(data) {
        &&& data == mortal_winning_data(from, to)
        &&& is_win_step(pan_wins, board.height(from as int), board.height(to as int))
    } else {
        &&& data == mortal_basic_data(from, to, build)
        &&& !is_win_step(pan_wins, board.height(from as int), board.height(to as int))
        &&& is_standard_build_for(state, player, from as int, to as int, build as int)
    }
}

/// A legal plain turn.
pub open spec fn is_mortal_turn(state: FullGameState, player: Player, must_climb: bool, data: u32) -> bool {
    is_standard_turn(state, player, must_climb, false, data)
}

/// Moving a worker of `player` from `from` onto the free square `to` keeps the board well formed.
pub proof fn lemma_move_worker_keeps_wf(before: BoardState, after: BoardState, player: Player, from: u32, to: u32)
    requires
        from < 25,
        to < 25,
        after.workers[player.idx()].0 == before.workers[player.idx()].0 ^ ((1u32 << from) ^ (1u32 << to)),
        after.workers[1 - player.idx()] == before.workers[1 - player.idx()],
        after.height_map == before.height_map,
    ensures
        before.wf() && before.workers[player.idx()].has(from as int) && !before.occupied(to as int) ==> after.wf(),
        forall|i: int| #[trigger] after.workers[player.idx()].has(i) == (before.workers[player.idx()].has(i) != ((i
            == from || i == to) && from != to)),
{
    broadcast use group_bit_lemmas;

    let p = player.idx();
    assert forall|i: int| #[trigger] after.workers[p].has(i) == (before.workers[p].has(i) != ((i == from || i == to) && from != to)) by {
        if 0 <= i < 32 {
            crate::bitboard::lemma_bit_xor(before.workers[p].0, (1u32 << from) ^ (1u32 << to), i as u32);
            crate::bitboard::lemma_bit_xor(1u32 << from, 1u32 << to, i as u32);
            crate::bitboard::lemma_bit_single(from, i as u32);
            crate::bitboard::lemma_bit_single(to, i as u32);
        }
    }
    if before.wf() && before.workers[p].has(from as int) && !before.occupied(to as int) {
        assert(before.workers[0].within_board() && before.workers[1].within_board());
        assert(after.workers[0].within_board() && after.workers[1].within_board());
        assert forall|i: int| !(#[trigger] after.workers[0].has(i) && after.workers[1].has(i)) by {
            assert(!(before.workers[0].has(i) && before.workers[1].has(i)));
        }
    }
}

/// Toggling squares of the player's workers that are on the board and free of opposing workers
/// keeps the board well formed.
pub proof fn lemma_toggle_keeps_wf(before: BoardState, after: BoardState, p: int, mask: u32)
    requires
        p == 0 || p == 1,
        before.wf(),
        forall|i: int| #[trigger] BitBoard(mask).has(i) ==> is_square(i) && !before.workers[1 - p].has(i),
        after.workers[p].0 == before.workers[p].0 ^ mask,
        after.workers[1 - p] == before.workers[1 - p],
        after.height_map == before.height_map,
    ensures
        after.wf(),
{
    broadcast use group_bit_lemmas;

    assert forall|i: int| #[trigger] after.workers[p].has(i) ==> before.workers[p].has(i) || BitBoard(mask).has(i) by {
        if 0 <= i < 32 {
            crate::bitboard::lemma_bit_xor(before.workers[p].0, mask, i as u32);
        }
    }
    assert(before.workers[0].within_board() && before.workers[1].within_board());
    assert forall|i: int| !(#[trigger] after.workers[0].has(i) && after.workers[1].has(i)) by {
        assert(!(before.workers[0].has(i) && before.workers[1].has(i)));
    }
}

/// A turn that climbs is a turn.
pub proof fn lemma_climbing_turn_is_turn(state: FullGameState, player: Player, pan_wins: bool, data: u32)
    ensures
        is_standard_turn(state, player, true, pan_wins, data) ==> is_standard_turn(state, player, false, pan_wins, data),
{
}

/// A worker that may act is one the prelude lets act.
pub proof fn lemma_acting_in_prelude(state: FullGameState, player: Player, own: BitBoard, acting: BitBoard, from: int)
    requires
        state.board.wf(),
        own.0 == state.board.workers[player.idx()].0 & MAIN_SECTION,
        state.gods[1 - player.idx()].is_hypnus_spec() ==> acting.0 == hypnus_filter_spec(state.board.height_map, own.0),
        !state.gods[1 - player.idx()].is_hypnus_spec() ==> acting == own,
        is_acting_worker(state, player, from),
        0 <= from < 25,
    ensures
        acting.has(from),
{
    broadcast use group_bit_lemmas;
    broadcast use crate::bitboard::lemma_main_section;

    assert(bit(MAIN_SECTION, from as u32));
}

pub proof fn lemma_prelude_acting(state: FullGameState, player: Player, own: BitBoard, acting: BitBoard, from: int)
    requires
        state.board.wf(),
        own.0 == state.board.workers[player.idx()].0 & MAIN_SECTION,
        state.gods[1 - player.idx()].is_hypnus_spec() ==> acting.0 == hypnus_filter_spec(state.board.height_map, own.0),
        !state.gods[1 - player.idx()].is_hypnus_spec() ==> acting == own,
        acting.has(from),
    ensures
        is_acting_worker(state, player, from),
{
    broadcast use group_bit_lemmas;

    if state.gods[1 - player.idx()].is_hypnus_spec() {
        crate::gods::hypnus::lemma_hypnus_filter_subset(state.board.height_map, own.0, from as u32);
    }
}

/// Mortal's move generator; `must_climb` asks for climbing moves only, which is how Persephone's
/// restriction is applied.
pub fn mortal_move_gen(
    flags: MoveGenFlags,
    state: &FullGameState,
    player: Player,
    key_squares: BitBoard,
    must_climb: bool,
) -> (result: Vec<ScoredMove>)
    requires
        state.board.wf(),
    ensures
        forall|k: int| 0 <= k < result@.len() ==> #[trigger] is_mortal_turn(*state, player, must_climb, result@[k].action.0),
        flags & NARROWING_FLAGS == 0 ==> forall|data: u32| #[trigger] standard_turn_owed(*state, player, must_climb, false, data) ==> lists_word(
            result@,
            data,
        ),
        flags & NARROWING_FLAGS == 0 && state.gods[1 - player.idx()].is_persephone_spec() && !must_climb && (exists|d: u32|
            #[trigger] is_standard_turn(*state, player, true, false, d)) ==> forall|k: int| 0 <= k < result@.len()
            ==> #[trigger] is_standard_turn(*state, player, true, false, result@[k].action.0),
        is_mate_only_listing(flags) ==> forall|data: u32| #[trigger] standard_turn_owed(*state, player, must_climb, false, data)
            && is_winning_data(data) ==> lists_word(result@, data),
        flags & STOP_ON_MATE == 0 ==> forall|data: u32| #[trigger] standard_turn_owed(*state, player, must_climb, false, data)
            && is_kept_by_flags(flags, key_squares, data) ==> lists_word(result@, data),
        forall|k1: int, k2: int| 0 <= k1 < k2 < result@.len() ==> #[trigger] result@[k1].action.0 != #[trigger] result@[k2].action.0,
{
    standard_turn_move_gen(flags, state, player, key_squares, must_climb, BitBoard::empty(), false)
}

/// The squares a worker at height `h` wins on by stepping there.
pub fn win_targets(prelude: &GeneratorPreludeState, h: usize, pan_wins: bool) -> (r: BitBoard)
    requires
        prelude.inv(),
    ensures
        forall|i: int| #[trigger] r.has(i) == (is_square(i) && is_win_step(pan_wins, h as nat, prelude.board.height(i))),
{
    if h == 2 {
        if pan_wins {
            prelude.exactly_level_0.or(prelude.exactly_level_3)
        } else {
            prelude.exactly_level_3
        }
    } else if h == 3 && pan_wins {
        prelude.exactly_level_0.or(prelude.exactly_level_1)
    } else {
        BitBoard::empty()
    }
}

/// The move list holds a move with this word.
pub open spec fn lists_word(r: Seq<ScoredMove>, data: u32) -> bool {
    exists|k: int| 0 <= k < r.len() && #[trigger] r[k].action.0 == data
}

/// A list that keeps the moves of `before` at their places still holds their words.
pub proof fn lemma_lists_word_grows(before: Seq<ScoredMove>, after: Seq<ScoredMove>)
    requires
        before.len() <= after.len(),
        forall|k: int| 0 <= k < before.len() ==> #[trigger] after[k] == before[k],
    ensures
        forall|d: u32| #[trigger] lists_word(before, d) ==> lists_word(after, d),
{
    assert forall|d: u32| #[trigger] lists_word(before, d) implies lists_word(after, d) by {
        let k = choose|k: int| 0 <= k < before.len() && #[trigger] before[k].action.0 == d;
        assert(after[k] == before[k]);
    }
}

/// The turns a move-then-build generator owes with no filter on: every legal turn, except that
/// against Persephone, when a climb exists, only the climbing ones.
pub open spec fn standard_turn_owed(state: FullGameState, player: Player, must_climb: bool, pan_wins: bool, data: u32) -> bool {
    &&& is_standard_turn(state, player, must_climb, pan_wins, data)
    &&& (state.gods[1 - player.idx()].is_persephone_spec() && !must_climb && exists|d: u32|
        #[trigger] is_standard_turn(state, player, true, pan_wins, d)) ==> is_standard_turn(state, player, true, pan_wins, data)
}

/// The order the plain generator lists turns in: by start square; for one start, the wins first,
/// by end square, then the other turns by end square and build.
pub open spec fn turn_order_lt(a: u32, b: u32) -> bool {
    let fa = field_at(a, 0);
    let fb = field_at(b, 0);
    ||| fa < fb
    ||| fa == fb && is_winning_data(a) && !is_winning_data(b)
    ||| fa == fb && is_winning_data(a) && is_winning_data(b) && field_at(a, 5) < field_at(b, 5)
    ||| fa == fb && !is_winning_data(a) && !is_winning_data(b) && (field_at(a, 5) < field_at(b, 5) || field_at(a, 5) == field_at(
        b,
        5,
    ) && field_at(a, 10) < field_at(b, 10))
}

/// The turns a filter keeps among plain move-and-build turns: every win; the rest unless only
/// wins are asked for, and, when only turns interacting with the key squares are asked for, those
/// that end on or build on one.
pub open spec fn is_kept_by_flags(flags: MoveGenFlags, key_squares: BitBoard, data: u32) -> bool {
    ||| is_winning_data(data)
    ||| flags & MATE_ONLY == 0 && (flags & crate::generic::INTERACT_WITH_KEY_SQUARES == 0 || key_squares.has(field_at(data, 5) as int)
        || key_squares.has(field_at(data, 10) as int))
}

/// Flags asking for the winning moves alone, listed in full rather than stopping at the first.
pub open spec fn is_mate_only_listing(flags: MoveGenFlags) -> bool {
    flags & MATE_ONLY != 0 && flags & STOP_ON_MATE == 0
}

/// Moves for a move-then-build turn. Against Persephone a climb is owed when one exists; with a
/// filter on, a filtered-out climb still counts. In blocking generation a move counts as
/// interacting with the key squares also when it starts on `extra_key_builds`, and builds there
/// count too. `pan_wins` adds Pan's winning drops.
pub fn standard_turn_move_gen(
    flags: MoveGenFlags,
    state: &FullGameState,
    player: Player,
    key_squares: BitBoard,
    must_climb: bool,
    extra_key_builds: BitBoard,
    pan_wins: bool,
) -> (result: Vec<ScoredMove>)
    requires
        state.board.wf(),
    ensures
        forall|k: int| 0 <= k < result@.len() ==> #[trigger] is_standard_turn(*state, player, must_climb, pan_wins, result@[k].action.0),
        flags & NARROWING_FLAGS == 0 ==> forall|data: u32| #[trigger] standard_turn_owed(*state, player, must_climb, pan_wins, data) ==> lists_word(
            result@,
            data,
        ),
        flags & NARROWING_FLAGS == 0 && state.gods[1 - player.idx()].is_persephone_spec() && !must_climb && (exists|d: u32|
            #[trigger] is_standard_turn(*state, player, true, pan_wins, d)) ==> forall|k: int| 0 <= k < result@.len()
            ==> #[trigger] is_standard_turn(*state, player, true, pan_wins, result@[k].action.0),
        is_mate_only_listing(flags) ==> forall|data: u32| #[trigger] standard_turn_owed(*state, player, must_climb, pan_wins, data)
            && is_winning_data(data) ==> lists_word(result@, data),
        flags & STOP_ON_MATE == 0 ==> forall|data: u32| #[trigger] standard_turn_owed(*state, player, must_climb, pan_wins, data)
            && is_kept_by_flags(flags, key_squares, data) ==> lists_word(result@, data),
        forall|k1: int, k2: int| 0 <= k1 < k2 < result@.len() ==> #[trigger] result@[k1].action.0 != #[trigger] result@[k2].action.0,
    decreases if must_climb { 0int } else { 1int },
{
    broadcast use group_bit_lemmas;

    proof {
        if flags & NARROWING_FLAGS == 0 {
            crate::generic::lemma_no_flags(flags);
        }
    }
    let mut result = if state.gods[player.other().index()].is_persephone() && !must_climb {
        let climbing = standard_turn_move_gen(flags, state, player, key_squares, true, extra_key_builds, pan_wins);
        proof {
            assert forall|k: int| 0 <= k < climbing@.len() implies #[trigger] is_standard_turn(*state, player, must_climb, pan_wins, climbing@[k].action.0) by {
                lemma_climbing_turn_is_turn(*state, player, pan_wins, climbing@[k].action.0);
            }
        }
        if climbing.len() > 0 {
            proof {
                if flags & NARROWING_FLAGS == 0 {
                    let d0 = climbing@[0].action.0;
                    assert(is_standard_turn(*state, player, true, pan_wins, d0));
                    assert forall|data: u32| #[trigger] standard_turn_owed(*state, player, must_climb, pan_wins, data) implies lists_word(
                        climbing@,
                        data,
                    ) by {
                        assert(standard_turn_owed(*state, player, true, pan_wins, data));
                    }
                }
                if flags & STOP_ON_MATE == 0 {
                    let d0 = climbing@[0].action.0;
                    assert(is_standard_turn(*state, player, true, pan_wins, d0));
                    assert forall|data: u32| #[trigger] standard_turn_owed(*state, player, must_climb, pan_wins, data) && is_kept_by_flags(
                        flags,
                        key_squares,
                        data,
                    ) implies lists_word(climbing@, data) by {
                        assert(standard_turn_owed(*state, player, true, pan_wins, data));
                    }
                }
                if is_mate_only_listing(flags) {
                    let d0 = climbing@[0].action.0;
                    assert(is_standard_turn(*state, player, true, pan_wins, d0));
                    assert forall|data: u32| #[trigger] standard_turn_owed(*state, player, must_climb, pan_wins, data) && is_winning_data(data)
                        implies lists_word(climbing@, data) by {
                        assert(standard_turn_owed(*state, player, true, pan_wins, data));
                    }
                }
            }
            return climbing;
        }
        proof {
            if flags & NARROWING_FLAGS == 0 {
                assert forall|d: u32| !#[trigger] is_standard_turn(*state, player, true, pan_wins, d) by {
                    if is_standard_turn(*state, player, true, pan_wins, d) {
                        assert(standard_turn_owed(*state, player, true, pan_wins, d));
                    }
                }
            }
        }
        if flags & ANY_MOVE_FILTER > 0 {
            let unrestricted = standard_turn_move_gen(0, state, player, key_squares, true, extra_key_builds, pan_wins);
            if unrestricted.len() > 0 {
                proof {
                    if flags & STOP_ON_MATE == 0 {
                        let d0 = unrestricted@[0].action.0;
                        assert(is_standard_turn(*state, player, true, pan_wins, d0));
                        assert forall|data: u32| #[trigger] standard_turn_owed(*state, player, must_climb, pan_wins, data) && is_kept_by_flags(
                            flags,
                            key_squares,
                            data,
                        ) implies lists_word(climbing@, data) by {
                            assert(standard_turn_owed(*state, player, true, pan_wins, data));
                        }
                    }
                    if is_mate_only_listing(flags) {
                        let d0 = unrestricted@[0].action.0;
                        assert(is_standard_turn(*state, player, true, pan_wins, d0));
                        assert forall|data: u32| #[trigger] standard_turn_owed(*state, player, must_climb, pan_wins, data) && is_winning_data(data)
                            implies lists_word(climbing@, data) by {
                            assert(standard_turn_owed(*state, player, true, pan_wins, data));
                        }
                    }
                }
                return climbing;
            }
        }
        proof {
            if is_mate_only_listing(flags) {
                assert forall|d: u32| #[trigger] is_standard_turn(*state, player, true, pan_wins, d) && is_winning_data(d) implies false by {
                    assert(standard_turn_owed(*state, player, true, pan_wins, d));
                }
            }
            if flags & STOP_ON_MATE == 0 {
                assert forall|d: u32| #[trigger] is_standard_turn(*state, player, true, pan_wins, d) && is_kept_by_flags(flags, key_squares, d)
                    implies false by {
                    assert(standard_turn_owed(*state, player, true, pan_wins, d));
                }
            }
        }
        climbing
    } else {
        get_sized_result(flags)
    };
    assert(flags & NARROWING_FLAGS == 0 && state.gods[1 - player.idx()].is_persephone_spec() && !must_climb ==> forall|d: u32|
        !#[trigger] is_standard_turn(*state, player, true, pan_wins, d));
    assert(is_mate_only_listing(flags) && state.gods[1 - player.idx()].is_persephone_spec() && !must_climb ==> forall|d: u32|
        #[trigger] is_standard_turn(*state, player, true, pan_wins, d) ==> !is_winning_data(d));

    let mut prelude = get_generator_prelude_state(state, player, key_squares);
    let ghost initial_acting = prelude.acting_workers;
    let checkable_mask = if pan_wins {
        prelude.exactly_level_2.or(prelude.exactly_level_3)
    } else {
        prelude.exactly_level_2
    };
    modify_prelude_for_checking_workers(flags, checkable_mask, &mut prelude);
    let workers = prelude.acting_workers.squares();
    proof {
        crate::bitboard::lemma_squares_below(prelude.acting_workers.0, 25);
    }

    let mut wi: usize = 0;
    while wi < workers.len()
        invariant
            wi <= workers@.len(),
            state.board.wf(),
            prelude.inv(),
            prelude.board == state.board,
            prelude.key_squares == key_squares,
            prelude.player == player,
            prelude.other_god == state.gods[1 - player.idx()],
            prelude.own_workers.0 == state.board.workers[player.idx()].0 & MAIN_SECTION,
            prelude.other_god.is_hypnus_spec() ==> initial_acting.0 == hypnus_filter_spec(
                state.board.height_map,
                prelude.own_workers.0,
            ),
            !prelude.other_god.is_hypnus_spec() ==> initial_acting == prelude.own_workers,
            forall|i: int| #[trigger] prelude.acting_workers.has(i) ==> initial_acting.has(i),
            forall|k: int| 0 <= k < workers@.len() ==> #[trigger] workers@[k] < 25 && prelude.acting_workers.has(workers@[k] as int),
            forall|k: int| 0 <= k < result@.len() ==> #[trigger] is_standard_turn(*state, player, must_climb, pan_wins, result@[k].action.0),
            flags & NARROWING_FLAGS == 0 ==> prelude.acting_workers == initial_acting,
            flags & STOP_ON_MATE == 0 ==> forall|data: u32| #[trigger] is_standard_turn(*state, player, must_climb, pan_wins, data) && is_kept_by_flags(flags, key_squares, data) && (exists|j: int|
                0 <= j < wi && workers@[j] as u32 == field_at(data, 0)) ==> lists_word(result@, data),
            flags & NARROWING_FLAGS == 0 && state.gods[1 - player.idx()].is_persephone_spec() && !must_climb ==> forall|d: u32|
                !#[trigger] is_standard_turn(*state, player, true, pan_wins, d),
            is_mate_only_listing(flags) ==> forall|data: u32| #[trigger] is_standard_turn(*state, player, must_climb, pan_wins, data)
                && is_winning_data(data) && (exists|j: int| 0 <= j < wi && workers@[j] as u32 == field_at(data, 0)) ==> lists_word(result@, data),
            forall|a: int, b: int| 0 <= a < b < workers@.len() ==> workers@[a] < workers@[b],
            forall|k1: int, k2: int|
                #![trigger result@[k1], result@[k2]]
                0 <= k1 < k2 < result@.len() ==> turn_order_lt(result@[k1].action.0, result@[k2].action.0),
            forall|k: int, j: int|
                #![trigger result@[k], workers@[j]]
                0 <= k < result@.len() && wi <= j < workers@.len() ==> field_at(result@[k].action.0, 0) < workers@[j],
        decreases workers@.len() - wi,
    {
        let ghost result_at_start = result@;
        let worker_start_pos = workers[wi];
        proof {
            lemma_prelude_acting(*state, player, prelude.own_workers, initial_acting, worker_start_pos as int);
        }
        let worker_start_state = get_worker_start_move_state(&prelude, worker_start_pos);
        let mut worker_next_moves = get_worker_next_move_state(&prelude, &worker_start_state, checkable_mask, must_climb);
        let start_height = worker_start_state.worker_start_height;

        let targets = win_targets(&prelude, start_height, pan_wins);
        let winning_moves = worker_next_moves.worker_moves.and(targets).and(prelude.win_mask);
        let ghost before = result@;
        let stop = push_winning_moves(flags, &mut result, worker_start_pos, winning_moves, 0);
        proof {
            lemma_lists_word_grows(before, result@);
            if is_mate_only_listing(flags) {
                assert(!stop);
                assert forall|data: u32| #[trigger] is_standard_turn(*state, player, must_climb, pan_wins, data) && is_winning_data(data)
                    && (exists|j: int| 0 <= j < wi + 1 && workers@[j] as u32 == field_at(data, 0)) implies lists_word(result@, data) by {
                    let j = choose|j: int| 0 <= j < wi + 1 && workers@[j] as u32 == field_at(data, 0);
                    if j < wi {
                        assert(lists_word(before, data));
                    } else {
                        let to = field_at(data, 5);
                        assert(winning_moves.has(to as int));
                        let k = choose|k: int| before.len() <= k < result@.len() && #[trigger] result@[k].action.0
                            == (worker_start_pos as u32) | ((to as u32) << 5u32) | 0u32 | MOVE_IS_WINNING_MASK;
                        crate::bitboard::lemma_or_zero((worker_start_pos as u32) | ((to as u32) << 5u32));
                    }
                }
            }
            if flags & STOP_ON_MATE == 0 && !stop {
                assert forall|data: u32| #[trigger] is_standard_turn(*state, player, must_climb, pan_wins, data) && is_kept_by_flags(flags, key_squares, data) && field_at(data, 0)
                    == worker_start_pos && is_winning_data(data) implies lists_word(result@, data) by {
                    let to = field_at(data, 5);
                    assert(winning_moves.has(to as int));
                    let k = choose|k: int| before.len() <= k < result@.len() && #[trigger] result@[k].action.0
                        == (worker_start_pos as u32) | ((to as u32) << 5u32) | 0u32 | MOVE_IS_WINNING_MASK;
                    crate::bitboard::lemma_or_zero((worker_start_pos as u32) | ((to as u32) << 5u32));
                }
            }
        }
        proof {
            assert forall|k: int| 0 <= k < result@.len() implies #[trigger] is_standard_turn(*state, player, must_climb, pan_wins, result@[k].action.0) by {
                if k >= before.len() {
                    assert(is_winning_entry(result@[k], worker_start_pos, winning_moves, 0));
                    let sq = choose|sq: u8| sq < 25 && #[trigger] winning_moves.has(sq as int)
                        && result@[k].action.0 == (worker_start_pos as u32) | ((sq as u32) << 5u32) | 0u32 | MOVE_IS_WINNING_MASK;
                    lemma_mortal_move_round_trip(worker_start_pos as u32, sq as u32, 0);
                    let data = result@[k].action.0;
                    crate::bitboard::lemma_or_zero((worker_start_pos as u32) | ((sq as u32) << 5u32));
                    assert(data == mortal_winning_data(worker_start_pos as u32, sq as u32));
                    assert(worker_next_moves.worker_moves.has(sq as int));
                    assert(targets.has(sq as int));
                    assert(field_at(data, 0) == worker_start_pos);
                    assert(field_at(data, 5) == sq);
                } else {
                    assert(result@[k] == before[k]);
                }
            }
        }
        proof {
            crate::bitboard::lemma_squares_below(winning_moves.0, 25);
            let sqs = crate::bitboard::squares_below(winning_moves.0, 25);
            assert forall|k: int| before.len() <= k < result@.len() implies field_at(#[trigger] result@[k].action.0, 0) == worker_start_pos
                && is_winning_data(result@[k].action.0) && field_at(result@[k].action.0, 5) == sqs[k - before.len()] by {
                let sq = sqs[k - before.len()];
                lemma_mortal_move_round_trip(worker_start_pos as u32, sq as u32, 0);
                crate::bitboard::lemma_or_zero((worker_start_pos as u32) | ((sq as u32) << 5u32));
                assert(result@[k].action.0 == mortal_winning_data(worker_start_pos as u32, sq as u32));
            }
            assert forall|k: int| 0 <= k < before.len() implies field_at(#[trigger] result@[k].action.0, 0) < worker_start_pos by {
                assert(result@[k] == before[k]);
                assert(field_at(before[k].action.0, 0) < workers@[wi as int]);
            }
            assert forall|k1: int, k2: int|
                #![trigger result@[k1], result@[k2]]
                0 <= k1 < k2 < result@.len() implies turn_order_lt(result@[k1].action.0, result@[k2].action.0) by {
                if k2 < before.len() {
                    assert(result@[k1] == before[k1]);
                    assert(result@[k2] == before[k2]);
                } else if k1 >= before.len() {
                    assert(sqs[k1 - before.len()] < sqs[k2 - before.len()]);
                }
            }
            assert forall|k: int| 0 <= k < result@.len() implies field_at(#[trigger] result@[k].action.0, 0) <= worker_start_pos && (field_at(
                result@[k].action.0,
                0,
            ) == worker_start_pos ==> is_winning_data(result@[k].action.0)) by {
                if k < before.len() {
                } else {
                }
            }
        }
        if stop {
            proof {
                if flags & NARROWING_FLAGS == 0 {
                    crate::generic::lemma_no_flags(flags);
                }
            }
            return result;
        }
        worker_next_moves.worker_moves = worker_next_moves.worker_moves.xor(winning_moves);

        let start_on_extra = worker_start_state.worker_start_mask.and(extra_key_builds).is_not_empty();
        let widened_key_squares = prelude.key_squares.or(extra_key_builds);
        proof {
            if flags & NARROWING_FLAGS == 0 {
                crate::generic::lemma_no_flags(flags);
            }
        }
        if !is_mate_only(flags) {
            let ends = worker_next_moves.worker_moves.squares();
            proof {
                if flags & STOP_ON_MATE == 0 && flags & MATE_ONLY == 0 {
                    crate::generic::lemma_no_flags(flags);
                    assert forall|i: int| 0 <= i < 25 && is_standard_step(state.board, worker_start_pos as int, i, must_climb)
                        && !is_win_step(pan_wins, state.board.height(worker_start_pos as int), state.board.height(i)) implies #[trigger] ends@.contains(i as u8) by {
                        assert(!targets.has(i));
                        assert(worker_next_moves.worker_moves.has(i));
                    }
                }
            }
            proof {
                crate::bitboard::lemma_squares_below(worker_next_moves.worker_moves.0, 25);
            }
            let mut ei: usize = 0;
            while ei < ends.len()
                invariant
                    ei <= ends@.len(),
                    forall|a: int, b: int| 0 <= a < b < ends@.len() ==> ends@[a] < ends@[b],
                    forall|k1: int, k2: int|
                        #![trigger result@[k1], result@[k2]]
                        0 <= k1 < k2 < result@.len() ==> turn_order_lt(result@[k1].action.0, result@[k2].action.0),
                    forall|k: int| 0 <= k < result@.len() ==> field_at(#[trigger] result@[k].action.0, 0) <= worker_start_pos,
                    forall|k: int, j: int|
                        #![trigger result@[k], ends@[j]]
                        0 <= k < result@.len() && ei <= j < ends@.len() && field_at(result@[k].action.0, 0) == worker_start_pos
                            && !is_winning_data(result@[k].action.0) ==> field_at(result@[k].action.0, 5) < ends@[j],
                    state.board.wf(),
                    prelude.inv(),
                    prelude.board == state.board,
                    prelude.key_squares == key_squares,
                    forall|i: int| #[trigger] widened_key_squares.has(i) == (prelude.key_squares.has(i) || extra_key_builds.has(i)),
                    prelude.player == player,
                    prelude.other_god == state.gods[1 - player.idx()],
                    worker_start_pos < 25,
                    worker_start_state.describes(prelude, worker_start_pos as int),
                    is_acting_worker(*state, player, worker_start_pos as int),
                    forall|k: int| 0 <= k < ends@.len() ==> #[trigger] ends@[k] < 25
                        && is_standard_step(state.board, worker_start_pos as int, ends@[k] as int, must_climb)
                        && !is_win_step(pan_wins, state.board.height(worker_start_pos as int), state.board.height(ends@[k] as int)),
                    forall|k: int| 0 <= k < result@.len() ==> #[trigger] is_standard_turn(*state, player, must_climb, pan_wins, result@[k].action.0),
                    flags & STOP_ON_MATE == 0 ==> forall|data: u32| #[trigger] is_standard_turn(*state, player, must_climb, pan_wins, data) && is_kept_by_flags(flags, key_squares, data) && (exists|j: int|
                        0 <= j < wi && workers@[j] as u32 == field_at(data, 0)) ==> lists_word(result@, data),
                    flags & STOP_ON_MATE == 0 ==> forall|data: u32| #[trigger] is_standard_turn(*state, player, must_climb, pan_wins, data) && is_kept_by_flags(flags, key_squares, data) && field_at(data, 0)
                        == worker_start_pos && is_winning_data(data) ==> lists_word(result@, data),
                    flags & STOP_ON_MATE == 0 ==> forall|data: u32| #[trigger] is_standard_turn(*state, player, must_climb, pan_wins, data) && is_kept_by_flags(flags, key_squares, data) && field_at(data, 0)
                        == worker_start_pos && !is_winning_data(data) && (exists|j: int| 0 <= j < ei && ends@[j] as u32 == field_at(data, 5))
                        ==> lists_word(result@, data),
                    flags & STOP_ON_MATE == 0 && flags & MATE_ONLY == 0 ==> forall|i: int| 0 <= i < 25 && is_standard_step(state.board, worker_start_pos as int, i, must_climb)
                        && !is_win_step(pan_wins, state.board.height(worker_start_pos as int), state.board.height(i)) ==> #[trigger] ends@.contains(i as u8),
                    flags & NARROWING_FLAGS == 0 ==> !crate::gods::move_helpers::is_interact_with_key_squares_spec(flags),
                decreases ends@.len() - ei,
            {
                let ghost result_at_end_start = result@;
                let worker_end_pos = ends[ei];
                let worker_end_move_state = get_worker_end_move_state(&prelude, &worker_start_state, worker_end_pos);
                let worker_next_build_state = get_worker_next_build_state_with_is_matched(flags, &prelude, &worker_start_state, &worker_end_move_state, true);
                let end_keys = worker_end_move_state.worker_end_mask.and(prelude.key_squares);
                let is_matched = end_keys.is_not_empty() || start_on_extra;
                let narrowed_builds = if is_interact_with_key_squares(flags) && !is_matched {
                    worker_next_build_state.all_possible_builds.and(widened_key_squares)
                } else {
                    worker_next_build_state.all_possible_builds
                };
                let reach_board = get_standard_reach_board(&prelude, &worker_next_moves, &worker_end_move_state, worker_next_build_state.unblocked_squares);
                let builds = narrowed_builds.squares();
                proof {
                    if flags & STOP_ON_MATE == 0 {
                        assert forall|b: int| 0 <= b < 25 && #[trigger] worker_next_build_state.all_possible_builds.has(b) && (flags
                            & INTERACT_WITH_KEY_SQUARES == 0 || key_squares.has(worker_end_pos as int) || key_squares.has(b)) implies builds@.contains(
                            b as u8,
                        ) by {
                            if crate::gods::move_helpers::is_interact_with_key_squares_spec(flags) && !is_matched {
                                assert(!prelude.key_squares.has(worker_end_pos as int)) by {
                                    if prelude.key_squares.has(worker_end_pos as int) {
                                        assert(end_keys.has(worker_end_pos as int));
                                    }
                                }
                                assert(key_squares.has(b));
                                assert(prelude.key_squares.has(b));
                                assert(widened_key_squares.has(b));
                                crate::bitboard::lemma_bit_and(
                                    worker_next_build_state.all_possible_builds.0,
                                    widened_key_squares.0,
                                    b as u32,
                                );
                            }
                            assert(narrowed_builds.has(b));
                        }
                    }
                }
                proof {
                    crate::bitboard::lemma_squares_below(narrowed_builds.0, 25);
                    assert forall|k: int| 0 <= k < result@.len() && field_at(#[trigger] result@[k].action.0, 0) == worker_start_pos
                        && !is_winning_data(result@[k].action.0) implies field_at(result@[k].action.0, 5) < worker_end_pos by {
                        assert(ends@[ei as int] == worker_end_pos);
                    }
                }
                let mut bi: usize = 0;
                while bi < builds.len()
                    invariant
                        bi <= builds@.len(),
                        forall|a: int, b: int| 0 <= a < b < builds@.len() ==> builds@[a] < builds@[b],
                        forall|k1: int, k2: int|
                            #![trigger result@[k1], result@[k2]]
                            0 <= k1 < k2 < result@.len() ==> turn_order_lt(result@[k1].action.0, result@[k2].action.0),
                        forall|k: int| 0 <= k < result@.len() ==> field_at(#[trigger] result@[k].action.0, 0) <= worker_start_pos,
                        forall|k: int| 0 <= k < result@.len() && field_at(#[trigger] result@[k].action.0, 0) == worker_start_pos
                            && !is_winning_data(result@[k].action.0) ==> field_at(result@[k].action.0, 5) <= worker_end_pos,
                        forall|k: int, j: int|
                            #![trigger result@[k], builds@[j]]
                            0 <= k < result@.len() && bi <= j < builds@.len() && field_at(result@[k].action.0, 0) == worker_start_pos
                                && !is_winning_data(result@[k].action.0) && field_at(result@[k].action.0, 5) == worker_end_pos
                                ==> field_at(result@[k].action.0, 10) < builds@[j],
                        prelude.inv(),
                        prelude.board == state.board,
                        prelude.key_squares == key_squares,
                        prelude.player == player,
                        prelude.other_god == state.gods[1 - player.idx()],
                        worker_start_pos < 25,
                        worker_end_pos < 25,
                        is_acting_worker(*state, player, worker_start_pos as int),
                        is_standard_step(state.board, worker_start_pos as int, worker_end_pos as int, must_climb),
                        !is_win_step(pan_wins, state.board.height(worker_start_pos as int), state.board.height(worker_end_pos as int)),
                        worker_next_build_state.describes(prelude, worker_start_pos as int, worker_end_pos as int),
                        worker_end_move_state.worker_end_pos == worker_end_pos,
                        forall|k: int| 0 <= k < builds@.len() ==> #[trigger] builds@[k] < 25
                            && worker_next_build_state.all_possible_builds.has(builds@[k] as int),
                        forall|k: int| 0 <= k < result@.len() ==> #[trigger] is_standard_turn(*state, player, must_climb, pan_wins, result@[k].action.0),
                        flags & STOP_ON_MATE == 0 ==> forall|data: u32| #[trigger] is_standard_turn(*state, player, must_climb, pan_wins, data) && is_kept_by_flags(flags, key_squares, data) && (exists|j: int|
                            0 <= j < wi && workers@[j] as u32 == field_at(data, 0)) ==> lists_word(result@, data),
                        flags & STOP_ON_MATE == 0 ==> forall|data: u32| #[trigger] is_standard_turn(*state, player, must_climb, pan_wins, data) && is_kept_by_flags(flags, key_squares, data) && field_at(data, 0)
                            == worker_start_pos && is_winning_data(data) ==> lists_word(result@, data),
                        flags & STOP_ON_MATE == 0 ==> forall|data: u32| #[trigger] is_standard_turn(*state, player, must_climb, pan_wins, data) && is_kept_by_flags(flags, key_squares, data) && field_at(data, 0)
                            == worker_start_pos && !is_winning_data(data) && (exists|j: int| 0 <= j < ei && ends@[j] as u32 == field_at(data, 5))
                            ==> lists_word(result@, data),
                        flags & STOP_ON_MATE == 0 ==> forall|data: u32| #[trigger] is_standard_turn(*state, player, must_climb, pan_wins, data) && is_kept_by_flags(flags, key_squares, data) && field_at(data, 0)
                            == worker_start_pos && !is_winning_data(data) && field_at(data, 5) == worker_end_pos && (exists|j: int| 0 <= j < bi
                            && builds@[j] as u32 == field_at(data, 10)) ==> lists_word(result@, data),
                        flags & STOP_ON_MATE == 0 ==> forall|b: int| 0 <= b < 25 && #[trigger] worker_next_build_state.all_possible_builds.has(b) && (flags
                            & INTERACT_WITH_KEY_SQUARES == 0 || key_squares.has(worker_end_pos as int) || key_squares.has(b)) ==> builds@.contains(b as u8),
                        ends@[ei as int] == worker_end_pos,
                        ei < ends@.len(),
                    decreases builds@.len() - bi,
                {
                    let worker_build_pos = builds[bi];
                    let worker_build_mask = BitBoard::as_mask(worker_build_pos);
                    let new_action = MortalMove::new_basic_move(worker_start_pos, worker_end_pos, worker_build_pos);
                    let is_check = if pan_wins {
                        pan_is_check(&prelude, &worker_start_state, &worker_end_move_state, worker_next_build_state.unblocked_squares, worker_build_mask)
                    } else {
                        let final_level_3 = prelude.exactly_level_2.and(worker_build_mask).or(prelude.exactly_level_3.minus(worker_build_mask));
                        reach_board.and(final_level_3).is_not_empty()
                    };
                    let ghost before = result@;
                    result.push(build_scored_move(flags, new_action.to_generic(), is_check, worker_end_move_state.is_improving));
                    proof {
                        lemma_lists_word_grows(before, result@);
                        assert(result@[before.len() as int].action.0 == mortal_basic_data(worker_start_pos as u32, worker_end_pos as u32, worker_build_pos as u32));
                        lemma_mortal_move_round_trip(worker_start_pos as u32, worker_end_pos as u32, worker_build_pos as u32);
                        assert(worker_next_build_state.all_possible_builds.has(worker_build_pos as int));
                        assert forall|k: int| 0 <= k < result@.len() implies #[trigger] is_standard_turn(*state, player, must_climb, pan_wins, result@[k].action.0) by {
                            if k < before.len() {
                                assert(result@[k] == before[k]);
                            }
                        }
                        let w = result@[before.len() as int].action.0;
                        assert(field_at(w, 0) == worker_start_pos && !is_winning_data(w) && field_at(w, 5) == worker_end_pos && field_at(w, 10)
                            == worker_build_pos);
                        assert forall|k1: int, k2: int|
                            #![trigger result@[k1], result@[k2]]
                            0 <= k1 < k2 < result@.len() implies turn_order_lt(result@[k1].action.0, result@[k2].action.0) by {
                            assert(result@[k1] == before[k1]);
                            if k2 < before.len() {
                                assert(result@[k2] == before[k2]);
                            } else {
                                assert(field_at(before[k1].action.0, 0) <= worker_start_pos);
                                if field_at(before[k1].action.0, 0) == worker_start_pos && !is_winning_data(before[k1].action.0)
                                    && field_at(before[k1].action.0, 5) == worker_end_pos {
                                    assert(field_at(before[k1].action.0, 10) < builds@[bi as int]);
                                }
                            }
                        }
                        assert forall|k: int| 0 <= k < result@.len() implies field_at(#[trigger] result@[k].action.0, 0) <= worker_start_pos by {
                            if k < before.len() {
                                assert(result@[k] == before[k]);
                            }
                        }
                        assert forall|k: int| 0 <= k < result@.len() && field_at(#[trigger] result@[k].action.0, 0) == worker_start_pos
                            && !is_winning_data(result@[k].action.0) implies field_at(result@[k].action.0, 5) <= worker_end_pos by {
                            if k < before.len() {
                                assert(result@[k] == before[k]);
                            }
                        }
                        assert forall|k: int, j: int|
                            #![trigger result@[k], builds@[j]]
                            0 <= k < result@.len() && bi + 1 <= j < builds@.len() && field_at(result@[k].action.0, 0) == worker_start_pos
                                && !is_winning_data(result@[k].action.0) && field_at(result@[k].action.0, 5) == worker_end_pos
                                implies field_at(result@[k].action.0, 10) < builds@[j] by {
                            if k < before.len() {
                                assert(result@[k] == before[k]);
                            } else {
                                assert(builds@[bi as int] < builds@[j]);
                            }
                        }
                    }
                    bi = bi + 1;
                }
                proof {
                    if flags & STOP_ON_MATE == 0 {
                        assert forall|data: u32| #[trigger] is_standard_turn(*state, player, must_climb, pan_wins, data) && is_kept_by_flags(flags, key_squares, data) && field_at(data, 0)
                            == worker_start_pos && !is_winning_data(data) && (exists|j: int| 0 <= j < ei + 1 && ends@[j] as u32 == field_at(data, 5))
                            implies lists_word(result@, data) by {
                            let j = choose|j: int| 0 <= j < ei + 1 && ends@[j] as u32 == field_at(data, 5);
                            if j == ei {
                                let b = field_at(data, 10);
                                assert(worker_next_build_state.all_possible_builds.has(b as int));
                                assert(builds@.contains(b as u8));
                                let jb = choose|jb: int| 0 <= jb < builds@.len() && builds@[jb] == b as u8;
                                assert(builds@[jb] as u32 == field_at(data, 10));
                            }
                        }
                    }
                }
                proof {
                    assert forall|k: int, j: int|
                        #![trigger result@[k], ends@[j]]
                        0 <= k < result@.len() && ei + 1 <= j < ends@.len() && field_at(result@[k].action.0, 0) == worker_start_pos
                            && !is_winning_data(result@[k].action.0) implies field_at(result@[k].action.0, 5) < ends@[j] by {
                        assert(ends@[ei as int] < ends@[j]);
                    }
                }
                ei = ei + 1;
            }
            proof {
                if flags & STOP_ON_MATE == 0 {
                    assert forall|data: u32| #[trigger] is_standard_turn(*state, player, must_climb, pan_wins, data) && is_kept_by_flags(flags, key_squares, data) && (exists|j: int|
                        0 <= j < wi + 1 && workers@[j] as u32 == field_at(data, 0)) implies lists_word(result@, data) by {
                        let j = choose|j: int| 0 <= j < wi + 1 && workers@[j] as u32 == field_at(data, 0);
                        if j == wi && !is_winning_data(data) {
                            let to = field_at(data, 5);
                            assert(ends@.contains(to as u8));
                            let je = choose|je: int| 0 <= je < ends@.len() && ends@[je] == to as u8;
                            assert(ends@[je] as u32 == field_at(data, 5));
                        }
                    }
                }
            }
        }
        proof {
            assert forall|k: int, j: int|
                #![trigger result@[k], workers@[j]]
                0 <= k < result@.len() && wi + 1 <= j < workers@.len() implies field_at(result@[k].action.0, 0) < workers@[j] by {
                assert(workers@[wi as int] < workers@[j]);
            }
        }
        wi = wi + 1;
    }
    proof {
        if flags & NARROWING_FLAGS == 0 {
            assert forall|data: u32| #[trigger] standard_turn_owed(*state, player, must_climb, pan_wins, data) implies lists_word(
                result@,
                data,
            ) by {
                let f = field_at(data, 0);
                lemma_acting_in_prelude(*state, player, prelude.own_workers, initial_acting, f as int);
                assert(workers@.contains(f as u8));
                let j = choose|j: int| 0 <= j < workers@.len() && workers@[j] == f as u8;
                assert(workers@[j] as u32 == field_at(data, 0));
            }
        }
        if flags & STOP_ON_MATE == 0 {
            assert forall|data: u32| #[trigger] standard_turn_owed(*state, player, must_climb, pan_wins, data) && is_kept_by_flags(
                flags,
                key_squares,
                data,
            ) implies lists_word(result@, data) by {
                let f = field_at(data, 0);
                assert(state.board.workers[player.idx()].within_board());
                lemma_acting_in_prelude(*state, player, prelude.own_workers, initial_acting, f as int);
                if flags & MATE_ONLY != 0 {
                    assert(is_winning_data(data));
                    assert(checkable_mask.has(f as int));
                }
                assert(prelude.acting_workers.has(f as int));
                assert(workers@.contains(f as u8));
                let j = choose|j: int| 0 <= j < workers@.len() && workers@[j] == f as u8;
                assert(workers@[j] as u32 == field_at(data, 0));
            }
        }
        if is_mate_only_listing(flags) {
            assert forall|data: u32| #[trigger] standard_turn_owed(*state, player, must_climb, pan_wins, data) && is_winning_data(data)
                implies lists_word(result@, data) by {
                let f = field_at(data, 0);
                assert(state.board.workers[player.idx()].within_board());
                lemma_acting_in_prelude(*state, player, prelude.own_workers, initial_acting, f as int);
                assert(checkable_mask.has(f as int));
                assert(prelude.acting_workers.has(f as int));
                assert(workers@.contains(f as u8));
                let j = choose|j: int| 0 <= j < workers@.len() && workers@[j] == f as u8;
                assert(workers@[j] as u32 == field_at(data, 0));
            }
        }
    }
    result
}

/// A worker of `a` on a square of `b` touches `i`.
pub open spec fn touches(a: BitBoard, b: BitBoard, i: int) -> bool {
    exists|s: int| 0 <= s < 25 && #[trigger] a.has(s) && b.has(s) && is_adjacent(s, i)
}

/// Whether Pan could win on `i` next turn: a worker other than the mover on level 2, or the mover
/// ending there (when Hypnus lets any of them climb), steps from level 2 onto level 0 or 3 (a
/// level 2 square just built counting as 3), or one on level 3 (or the mover ending there, when
/// not held back) drops onto level 0 or an unbuilt level 1; `i` is free, not where the mover stands.
pub open spec fn pan_check_at(
    prelude: GeneratorPreludeState,
    other: BitBoard,
    end: int,
    end_mask: BitBoard,
    eh: nat,
    unblocked: BitBoard,
    build: BitBoard,
    i: int,
) -> bool {
    let suppressed = prelude.is_against_hypnus && popcount(other.0 & prelude.exactly_level_2.0, 32) + (if eh == 2 {
        1int
    } else {
        0int
    }) < 2;
    let next = is_adjacent(end, i) && unblocked.has(i);
    let reach_2 = !suppressed && (touches(other, prelude.exactly_level_2, i) || (eh == 2 && next));
    let reach_3 = touches(other, prelude.exactly_level_3, i) || (!suppressed && eh != 2 && eh == 3 && next);
    let win_2 = reach_2 && (((prelude.exactly_level_0.has(i) || prelude.exactly_level_3.has(i)) && !build.has(i)) || (
    prelude.exactly_level_2.has(i) && build.has(i)));
    let win_3 = reach_3 && (prelude.exactly_level_0.has(i) || (prelude.exactly_level_1.has(i) && !build.has(i)));
    &&& win_2 || win_3
    &&& unblocked.has(i)
    &&& !end_mask.has(i)
    &&& is_square(i)
}

/// Whether Pan threatens a win next turn after this build: from level 2 onto level 0 or a level 3
/// square (or a level 2 square just built up), from level 3 onto level 0 or an unbuilt level 1.
fn pan_is_check(
    prelude: &GeneratorPreludeState,
    worker_start_state: &WorkerStartMoveState,
    worker_end_move_state: &WorkerEndMoveState,
    unblocked_squares: BitBoard,
    worker_build_mask: BitBoard,
) -> (r: bool)
    requires
        prelude.inv(),
        worker_end_move_state.worker_end_pos < 25,
    ensures
        r == exists|i: int| #[trigger] pan_check_at(
            *prelude,
            worker_start_state.other_own_workers,
            worker_end_move_state.worker_end_pos as int,
            worker_end_move_state.worker_end_mask,
            worker_end_move_state.worker_end_height as nat,
            unblocked_squares,
            worker_build_mask,
            i,
        ),
{
    broadcast use group_bit_lemmas;

    let other_lvl_2_workers = worker_start_state.other_own_workers.and(prelude.exactly_level_2);
    let mut reach_2 = apply_neighbor_map_to_mask(other_lvl_2_workers);
    let other_lvl_3_workers = worker_start_state.other_own_workers.and(prelude.exactly_level_3);
    let mut reach_3 = apply_neighbor_map_to_mask(other_lvl_3_workers);
    let next_turn_moves = neighbor_mask(worker_end_move_state.worker_end_pos).and(unblocked_squares);
    let is_now_lvl_2: u32 = if worker_end_move_state.worker_end_height == 2 { 1 } else { 0 };
    if prelude.is_against_hypnus && other_lvl_2_workers.count_ones() + is_now_lvl_2 < 2 {
        reach_2 = BitBoard::empty();
    } else if worker_end_move_state.worker_end_height == 2 {
        reach_2 = reach_2.or(next_turn_moves);
    } else if worker_end_move_state.worker_end_height == 3 {
        reach_3 = reach_3.or(next_turn_moves);
    }
    let anti_worker_build_mask = worker_build_mask.not();
    let winnable_from_2 = reach_2.and(
        prelude.exactly_level_0.or(prelude.exactly_level_3).and(anti_worker_build_mask).or(prelude.exactly_level_2.and(worker_build_mask)),
    );
    let winnable_from_3 = reach_3.and(prelude.exactly_level_0.or(prelude.exactly_level_1.and(anti_worker_build_mask)));
    let check_board = winnable_from_2.or(winnable_from_3).and(unblocked_squares).minus(worker_end_move_state.worker_end_mask).and(prelude.win_mask);
    proof {
        let other = worker_start_state.other_own_workers;
        assert forall|i: int| #[trigger] check_board.has(i) == pan_check_at(
            *prelude,
            other,
            worker_end_move_state.worker_end_pos as int,
            worker_end_move_state.worker_end_mask,
            worker_end_move_state.worker_end_height as nat,
            unblocked_squares,
            worker_build_mask,
            i,
        ) by {
            if touches(other, prelude.exactly_level_2, i) {
                let s = choose|s: int| 0 <= s < 25 && #[trigger] other.has(s) && prelude.exactly_level_2.has(s) && is_adjacent(s, i);
                assert(other_lvl_2_workers.has(s));
            }
            if touches(other, prelude.exactly_level_3, i) {
                let s = choose|s: int| 0 <= s < 25 && #[trigger] other.has(s) && prelude.exactly_level_3.has(s) && is_adjacent(s, i);
                assert(other_lvl_3_workers.has(s));
            }
        }
    }
    let r = check_board.is_not_empty();
    proof {
        let other = worker_start_state.other_own_workers;
        if exists|i: int| #[trigger] pan_check_at(
                *prelude,
                other,
                worker_end_move_state.worker_end_pos as int,
                worker_end_move_state.worker_end_mask,
                worker_end_move_state.worker_end_height as nat,
                unblocked_squares,
                worker_build_mask,
                i,
            ) {
            let i = choose|i: int| #[trigger] pan_check_at(
                *prelude,
                other,
                worker_end_move_state.worker_end_pos as int,
                worker_end_move_state.worker_end_mask,
                worker_end_move_state.worker_end_height as nat,
                unblocked_squares,
                worker_build_mask,
                i,
            );
            assert(check_board.has(i));
        }
        if r {
            let i = choose|i: int| #[trigger] check_board.has(i);
            assert(pan_check_at(
                *prelude,
                other,
                worker_end_move_state.worker_end_pos as int,
                worker_end_move_state.worker_end_mask,
                worker_end_move_state.worker_end_height as nat,
                unblocked_squares,
                worker_build_mask,
                i,
            ));
        }
    }
    r
}

/// Mortal's fixed data.
pub fn build_mortal() -> (r: GodPower)
    ensures
        r.god_name == GodName::Mortal,
        r.hash1 == 13716661772054342839u64,
        r.hash2 == 15637952489637380097u64,
        r.placement_type == PlacementType::Normal,
        r.symmetry == BoardSymmetry::Full,
        !r.is_persephone,
{
    god_power(GodName::Mortal, 13716661772054342839, 15637952489637380097)
}

/// How a turn of this god changes the board: the workers, the heights, the god data and the
/// winner after it, and whose turn it is, are those of `after`.
pub open spec fn mortal_move_effect(before: BoardState, after: BoardState, player: Player, data: u32) -> bool {
    &&& after.workers[player.idx()].0 == before.workers[player.idx()].0 ^ ((1u32 << field_at(data, 0)) ^ (1u32 << field_at(data, 5)))
    &&& after.workers[1 - player.idx()] == before.workers[1 - player.idx()]
    &&& after.god_data == before.god_data
    &&& after.current_player == before.current_player
    &&& (is_winning_data(data) ==> after.winner == Some(player) && after.height_map == before.height_map)
    &&& (!is_winning_data(data) ==> after.winner == before.winner)
    &&& (!is_winning_data(data) ==> after.height(field_at(data, 10) as int) == before.height(field_at(data, 10) as int) + 1)
    &&& (!is_winning_data(data) ==> forall|i: int| i != field_at(data, 10) ==> #[trigger] after.height(i) == before.height(i))
}

} // verus!
