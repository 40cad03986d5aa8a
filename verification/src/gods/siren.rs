use vstd::prelude::*;

use crate::bitboard::{
    apply_neighbor_map_to_mask, bit, group_bit_lemmas, lemma_squares_below, neighbor_mask, squares_below, BitBoard,
};
use crate::board::{BoardState, FullGameState, Player};
use crate::generic::{
    build_scored_move, field_at, NARROWING_FLAGS, is_interact_with_key_squares, is_mate_only, is_stop_on_mate, is_winning_data, lemma_pack4,
    read_position, GenericMove, MoveData, MoveGenFlags, ScoredMove, ANY_MOVE_FILTER, MOVE_DATA_MAIN_SECTION,
    MOVE_IS_WINNING_MASK,
};
use crate::gods::mortal::{
    is_standard_turn, lemma_lists_word_grows, lists_word, standard_turn_owed, is_mortal_turn, lemma_climbing_turn_is_turn, standard_turn_move_gen, MortalMove,
};
use crate::gods::move_helpers::{get_generator_prelude_state, GeneratorPreludeState};
use crate::square::{is_adjacent, is_square, Square};
use crate::gods::{PlacementType, god_power, BoardSymmetry, GodName, GodPower};

verus! {

/// The song's worker mask sits above the build, five bits wide.
pub const FORCE_MASK_OFFSET: u32 = 15;

pub const FORCE_MASK_WIDTH: u32 = 5;

pub const FORCE_MASK: MoveData = 0x000F_8000;

/// The song names at most this many opponent workers.
pub const SIREN_MAX_ADDRESSABLE_WORKERS: usize = 5;

/// A Siren turn: a plain move and build, or the song: one worker builds while the named opponent workers are dragged one square down the board.
#[derive(Clone, Copy, PartialEq, Eq, Structural, Debug)]
pub struct SirenMove(pub MoveData);

impl SirenMove {
    pub fn new_basic_move(move_from_position: Square, move_to_position: Square, build_position: Square) -> (r: Self)
        requires
            move_from_position < 25,
            move_to_position < 25,
            build_position < 25,
        ensures
            r.0 == (move_from_position as u32) | ((move_to_position as u32) << 5u32) | ((build_position as u32) << 10u32),
    {
        Self((move_from_position as u32) | ((move_to_position as u32) << 5u32) | ((build_position as u32) << 10u32))
    }

    /// A song turn: no worker moves, the named opponent workers are dragged, and `builder_position` builds.
    pub fn new_song_move(builder_position: Square, build_position: Square, force_mask: MoveData) -> (r: Self)
        requires
            builder_position < 25,
            build_position < 25,
            force_mask < 32,
        ensures
            r.0 == (builder_position as u32) | (25u32 << 5u32) | ((build_position as u32) << 10u32) | (force_mask << 15u32),
    {
        Self((builder_position as u32) | (25u32 << 5u32) | ((build_position as u32) << 10u32) | (force_mask << 15u32))
    }

    pub fn new_winning_move(move_from_position: Square, move_to_position: Square) -> (r: Self)
        requires
            move_from_position < 25,
            move_to_position < 25,
        ensures
            r.0 == (move_from_position as u32) | ((move_to_position as u32) << 5u32) | MOVE_IS_WINNING_MASK,
    {
        Self((move_from_position as u32) | ((move_to_position as u32) << 5u32) | MOVE_IS_WINNING_MASK)
    }

    /// The worker that acts: the one that steps, or the one that builds on a song turn.
    pub fn move_from_position(&self) -> (r: Square)
        ensures
            r == field_at(self.0, 0),
            r < 32,
    {
        read_position(self.0, 0)
    }

    /// Where the worker steps; none on a song turn.
    pub fn maybe_move_to_position(&self) -> (r: Option<Square>)
        ensures
            field_at(self.0, 5) < 32,
            r == (if field_at(self.0, 5) == 25 {
                None
            } else {
                Some(field_at(self.0, 5) as u8)
            }),
    {
        let value = read_position(self.0, 5);
        if value == 25 {
            None
        } else {
            Some(value)
        }
    }

    pub fn build_position(self) -> (r: Square)
        ensures
            r == field_at(self.0, 10),
            r < 32,
    {
        read_position(self.0, 10)
    }

    /// Which of the opponent's workers, in ascending square order, the song drags.
    pub fn force_mask(self) -> (r: MoveData)
        ensures
            r == field_at(self.0, 15),
    {
        (self.0 >> FORCE_MASK_OFFSET) & 31u32
    }

    pub fn get_is_winning(&self) -> (r: bool)
        ensures
            r == is_winning_data(self.0),
    {
        (self.0 & MOVE_IS_WINNING_MASK) != 0
    }

    /// The workers the song drags on `board`, which must be the position before the song: each
    /// with the square below it where it lands, in ascending order of where they stand.
    pub fn decode_forced_workers(self, board: &BoardState, player: Player) -> (r: Vec<(Square, Square)>)
        ensures
            forall|j: int| 0 <= j < r@.len() ==> #[trigger] r@[j].1 == r@[j].0 + 5 && is_dragged(*board, player, field_at(self.0, 15), r@[j].0 as int),
            forall|s: int| is_dragged(*board, player, field_at(self.0, 15), s) ==> exists|j: int| 0 <= j < r@.len() && #[trigger] r@[j].0 == s,
            forall|x: int, y: int| 0 <= x < y < r@.len() ==> r@[x].0 < r@[y].0,
    {
        let mask = self.force_mask();
        let addr = get_addressable_workers(board, player);
        let ghost a = oppo_squares(*board, player);
        proof {
            lemma_squares_below(board.workers[1 - player.idx()].0, 25);
        }
        let mut r: Vec<(Square, Square)> = Vec::new();
        let mut k: usize = 0;
        while k < SIREN_MAX_ADDRESSABLE_WORKERS
            invariant
                k <= 5,
                a == oppo_squares(*board, player),
                mask == field_at(self.0, 15),
                addr@.len() <= 5,
                addr@.len() == if a.len() < 5 { a.len() } else { 5 },
                forall|j: int| 0 <= j < addr@.len() ==> #[trigger] addr@[j] == a[j],
                forall|j: int| 0 <= j < a.len() ==> #[trigger] a[j] < 25,
                forall|x: int, y: int| 0 <= x < y < a.len() ==> a[x] < a[y],
                forall|j: int| #![trigger r@[j]] 0 <= j < r@.len() ==> r@[j].1 == r@[j].0 + 5 && dragged_below(a, mask, k as nat, r@[j].0 as int),
                forall|s: int| dragged_below(a, mask, k as nat, s) ==> exists|j: int| 0 <= j < r@.len() && #[trigger] r@[j].0 == s,
                forall|x: int, y: int| 0 <= x < y < r@.len() ==> r@[x].0 < r@[y].0,
                forall|j: int, i: int| #![trigger r@[j], a[i]] 0 <= j < r@.len() && k <= i < a.len() ==> r@[j].0 < a[i],
            decreases 5 - k,
        {
            let ghost k1: nat = (k + 1) as nat;
            if k < addr.len() && (mask >> (k as u32)) & 1 == 1 && addr[k] < 20 {
                let ghost before = r@;
                r.push((addr[k], addr[k] + 5));
                proof {
                    assert(bit(mask, k as u32));
                    assert forall|j: int| #![trigger r@[j]] 0 <= j < r@.len() implies r@[j].1 == r@[j].0 + 5 && dragged_below(a, mask, k1, r@[j].0 as int) by {
                        if j < before.len() {
                            assert(r@[j] == before[j]);
                            assert(dragged_below(a, mask, k as nat, before[j].0 as int));
                        } else {
                            assert(r@[j].0 == a[k as int]);
                        }
                    }
                    assert forall|s: int| dragged_below(a, mask, k1, s) implies exists|j: int| 0 <= j < r@.len() && #[trigger] r@[j].0 == s by {
                        if dragged_below(a, mask, k as nat, s) {
                            let j = choose|j: int| 0 <= j < before.len() && #[trigger] before[j].0 == s;
                            assert(r@[j] == before[j]);
                        } else {
                            assert(r@[before.len() as int].0 == s);
                        }
                    }
                    assert forall|x: int, y: int| 0 <= x < y < r@.len() implies r@[x].0 < r@[y].0 by {
                        if y == before.len() {
                            assert(r@[x] == before[x]);
                            assert(r@[y].0 == a[k as int]);
                        } else {
                            assert(r@[x] == before[x] && r@[y] == before[y]);
                        }
                    }
                    assert forall|j: int, i: int| #![trigger r@[j], a[i]] 0 <= j < r@.len() && k + 1 <= i < a.len() implies r@[j].0 < a[i] by {
                        if j < before.len() {
                            assert(r@[j] == before[j]);
                        } else {
                            assert(r@[j].0 == a[k as int]);
                        }
                    }
                }
            } else {
                proof {
                    assert forall|s: int| dragged_below(a, mask, k1, s) implies exists|j: int| 0 <= j < r@.len() && #[trigger] r@[j].0 == s by {
                        assert(dragged_below(a, mask, k as nat, s));
                    }
                    assert forall|j: int| #![trigger r@[j]] 0 <= j < r@.len() implies r@[j].1 == r@[j].0 + 5 && dragged_below(a, mask, k1, r@[j].0 as int) by {
                        assert(dragged_below(a, mask, k as nat, r@[j].0 as int));
                    }
                }
            }
            k = k + 1;
        }
        r
    }

    /// Plays the turn. An ordinary turn plays as a mortal one. On a song turn the named opposing
    /// workers, read off the board before anything moves, are each dragged one square down the
    /// board, and the builder builds; nobody wins by being dragged.
    pub fn make_move(self, board: &mut BoardState, player: Player)
        requires
            field_at(self.0, 0) < 25,
            field_at(self.0, 10) < 25,
            field_at(self.0, 5) != NO_MOVE_SENTINEL ==> field_at(self.0, 5) < 25,
            !(is_winning_data(self.0) && field_at(self.0, 5) != NO_MOVE_SENTINEL) ==> old(board).height(
                field_at(self.0, 10) as int,
            ) < 4,
        ensures
            final(board).god_data == old(board).god_data,
            final(board).current_player == old(board).current_player,
            field_at(self.0, 5) != NO_MOVE_SENTINEL ==> final(board).workers[player.idx()].0 == old(board).workers[player.idx()].0
                ^ ((1u32 << field_at(self.0, 0)) ^ (1u32 << field_at(self.0, 5))),
            field_at(self.0, 5) != NO_MOVE_SENTINEL ==> final(board).workers[1 - player.idx()] == old(board).workers[1
                - player.idx()],
            field_at(self.0, 5) != NO_MOVE_SENTINEL && is_winning_data(self.0) ==> final(board).winner == Some(player)
                && final(board).height_map == old(board).height_map,
            field_at(self.0, 5) == NO_MOVE_SENTINEL ==> final(board).workers[player.idx()] == old(board).workers[player.idx()],
            field_at(self.0, 5) == NO_MOVE_SENTINEL ==> forall|i: int| #[trigger] final(board).workers[1 - player.idx()].has(i)
                == (old(board).workers[1 - player.idx()].has(i) != (is_dragged(*old(board), player, field_at(self.0, 15), i)
                != is_dragged(*old(board), player, field_at(self.0, 15), i - 5))),
            !(is_winning_data(self.0) && field_at(self.0, 5) != NO_MOVE_SENTINEL) ==> final(board).winner == old(
                board,
            ).winner,
            !(is_winning_data(self.0) && field_at(self.0, 5) != NO_MOVE_SENTINEL) ==> final(board).height(
                field_at(self.0, 10) as int,
            ) == old(board).height(field_at(self.0, 10) as int) + 1,
            !(is_winning_data(self.0) && field_at(self.0, 5) != NO_MOVE_SENTINEL) ==> forall|i: int| i != field_at(
                self.0,
                10,
            ) ==> #[trigger] final(board).height(i) == old(board).height(i),
            old(board).wf() && (field_at(self.0, 5) != NO_MOVE_SENTINEL ==> old(board).workers[player.idx()].has(
                field_at(self.0, 0) as int,
            ) && !old(board).occupied(field_at(self.0, 5) as int)) && (field_at(self.0, 5) == NO_MOVE_SENTINEL ==> forall|
                s: int,
            | is_dragged(*old(board), player, field_at(self.0, 15), s) ==> !#[trigger] old(board).occupied(s + 5))
                ==> final(board).wf(),
    {
        broadcast use group_bit_lemmas;

        if self.maybe_move_to_position().is_some() {
            MortalMove(self.0).make_move(board, player);
            return;
        }
        let ghost before = *board;
        let ghost a = oppo_squares(before, player);
        let mask = self.force_mask();
        let addr = get_addressable_workers(board, player);
        let o = player.other();
        proof {
            lemma_squares_below(before.workers[1 - player.idx()].0, 25);
        }
        let mut k: usize = 0;
        while k < SIREN_MAX_ADDRESSABLE_WORKERS
            invariant
                k <= 5,
                o.idx() == 1 - player.idx(),
                a == oppo_squares(before, player),
                mask == field_at(self.0, 15),
                addr@.len() <= 5,
                addr@.len() == if a.len() < 5 { a.len() } else { 5 },
                forall|j: int| 0 <= j < addr@.len() ==> #[trigger] addr@[j] == a[j],
                forall|j: int| 0 <= j < a.len() ==> #[trigger] a[j] < 25 && bit(before.workers[1 - player.idx()].0, a[j] as u32),
                forall|x: int, y: int| 0 <= x < y < a.len() ==> a[x] < a[y],
                board.workers[player.idx()] == before.workers[player.idx()],
                board.height_map == before.height_map,
                board.god_data == before.god_data,
                board.winner == before.winner,
                board.current_player == before.current_player,
                forall|i: int| #[trigger] board.workers[1 - player.idx()].has(i) == (before.workers[1 - player.idx()].has(i) != (
                    dragged_below(a, mask, k as nat, i) != dragged_below(a, mask, k as nat, i - 5))),
            decreases 5 - k,
        {
            let ghost prev = *board;
            if k < addr.len() && (mask >> (k as u32)) & 1 == 1 && addr[k] < 20 {
                let from = addr[k];
                let toggle = BitBoard::as_mask(from).xor(BitBoard::as_mask(from + 5));
                board.worker_xor(o, toggle);
                proof {
                    assert forall|i: int| #[trigger] board.workers[1 - player.idx()].has(i) == (before.workers[1 - player.idx()].has(i) != (
                        dragged_below(a, mask, (k + 1) as nat, i) != dragged_below(a, mask, (k + 1) as nat, i - 5))) by {
                        assert(prev.workers[1 - player.idx()].has(i) == (before.workers[1 - player.idx()].has(i) != (
                            dragged_below(a, mask, k as nat, i) != dragged_below(a, mask, k as nat, i - 5))));
                        if 0 <= i < 32 {
                            crate::bitboard::lemma_bit_xor(prev.workers[1 - player.idx()].0, toggle.0, i as u32);
                        }
                        assert(toggle.has(i) == ((i == from as int) != (i == from as int + 5)));
                        assert(a[k as int] == from);
                        assert(bit(mask, k as u32));
                        assert(dragged_below(a, mask, (k + 1) as nat, i) == (dragged_below(a, mask, k as nat, i) || i == from as int));
                        assert(dragged_below(a, mask, (k + 1) as nat, i - 5) == (dragged_below(a, mask, k as nat, i - 5) || i - 5
                            == from as int));
                        if dragged_below(a, mask, k as nat, i) {
                            lemma_dragged_witness(a, mask, k as nat, i);
                            assert(i != from as int);
                        }
                        if dragged_below(a, mask, k as nat, i - 5) {
                            lemma_dragged_witness(a, mask, k as nat, i - 5);
                            assert(i - 5 != from as int);
                        }
                    }
                }
            } else {
                proof {
                    assert forall|i: int| #[trigger] board.workers[1 - player.idx()].has(i) == (before.workers[1 - player.idx()].has(i) != (
                        dragged_below(a, mask, (k + 1) as nat, i) != dragged_below(a, mask, (k + 1) as nat, i - 5))) by {
                        assert(prev.workers[1 - player.idx()].has(i) == (before.workers[1 - player.idx()].has(i) != (
                            dragged_below(a, mask, k as nat, i) != dragged_below(a, mask, k as nat, i - 5))));
                    }
                }
            }
            k = k + 1;
        }
        let ghost moved = *board;
        proof {
            let p = player.idx();
            if before.wf() && (forall|s: int| is_dragged(before, player, mask, s) ==> !#[trigger] before.occupied(s + 5)) {
                assert forall|i: int| #[trigger] moved.workers[1 - p].has(i) implies is_square(i) && !moved.workers[p].has(i) by {
                    if is_dragged(before, player, mask, i - 5) {
                        let s = i - 5;
                        lemma_dragged_witness(a, mask, 5, s);
                        assert(!before.occupied(s + 5));
                        assert(s + 5 == i);
                    } else if is_dragged(before, player, mask, i) {
                        lemma_dragged_witness(a, mask, 5, i);
                    } else {
                        assert(before.workers[1 - p].has(i));
                    }
                }
                assert forall|i: int| !(#[trigger] moved.workers[0].has(i) && moved.workers[1].has(i)) by {
                    if moved.workers[1 - p].has(i) {
                        assert(!moved.workers[p].has(i));
                    }
                }
                assert(moved.workers[1 - p].within_board());
                assert(moved.workers[0].within_board() && moved.workers[1].within_board());
                assert(moved.wf());
            }
        }
        board.build_up(self.build_position());
    }
}

/// The value of the to-field on a song turn: one past the last square.
pub const NO_MOVE_SENTINEL: u32 = 25;

/// The opponent's workers in ascending square order; the song names them by their place here.
pub open spec fn oppo_squares(board: BoardState, player: Player) -> Seq<u8> {
    squares_below(board.workers[1 - player.idx()].0, 25)
}

/// Whether the song of `mask` drags the worker on `s`, among the first `n` places of `a`: the
/// place is named in the mask, holds `s`, and `s` has a row below it.
pub open spec fn dragged_below(a: Seq<u8>, mask: u32, n: nat, s: int) -> bool
    decreases n,
{
    if n == 0 {
        false
    } else {
        let k = (n - 1) as int;
        dragged_below(a, mask, (n - 1) as nat, s) || (k < a.len() && bit(mask, k as u32) && a[k] as int == s && s < 20)
    }
}

/// Whether the song of `mask` drags the opposing worker on `s` one square down the board. Only the
/// first five opposing workers can be named.
pub open spec fn is_dragged(board: BoardState, player: Player, mask: u32, s: int) -> bool {
    dragged_below(oppo_squares(board, player), mask, 5, s)
}

/// Whether an opposing worker stands on `s` once the song of `mask` has resolved.
pub open spec fn oppo_after_song(board: BoardState, player: Player, mask: u32, s: int) -> bool {
    (board.workers[1 - player.idx()].has(s) && !is_dragged(board, player, mask, s)) || is_dragged(board, player, mask, s - 5)
}

/// A worker the song can drag: it is not on a dome, and the square below it is on the board,
/// free and undomed.
pub open spec fn is_forcible(board: BoardState, s: int) -> bool {
    &&& 0 <= s < 20
    &&& board.height(s) < 4
    &&& !board.occupied(s + 5)
    &&& board.height(s + 5) < 4
}

/// A mask the song may sing: it names at least one worker, and every worker it names is there and
/// can be dragged.
pub open spec fn is_song_mask(board: BoardState, player: Player, mask: u32) -> bool {
    let a = oppo_squares(board, player);
    &&& 0 < mask < 32
    &&& forall|k: int| 0 <= k < 5 && #[trigger] bit(mask, k as u32) ==> k < a.len() && is_forcible(board, a[k] as int)
}

/// Whether the opposing god allows a build on `build` once the song of `mask` has resolved: next to
/// Limus's workers only a level 3 square may be domed.
pub open spec fn song_build_allowed(state: FullGameState, player: Player, mask: u32, build: int) -> bool {
    let board = state.board;
    state.gods[1 - player.idx()].is_limus_spec() ==> !(exists|s: int|
        0 <= s < 25 && #[trigger] oppo_after_song(board, player, mask, s) && is_adjacent(s, build))
        || board.height(build) == 3
}

/// A build during the song of `mask`: the lowest of the player's workers next to `build` builds
/// there, on an undomed square that no worker stands on once the song has resolved.
pub open spec fn is_song_build(state: FullGameState, player: Player, mask: u32, builder: int, build: int) -> bool {
    let board = state.board;
    let p = player.idx();
    &&& board.workers[p].has(builder)
    &&& is_adjacent(builder, build)
    &&& forall|s: int| 0 <= s < builder ==> !(#[trigger] board.workers[p].has(s) && is_adjacent(s, build))
    &&& !board.workers[p].has(build)
    &&& !oppo_after_song(board, player, mask, build)
    &&& board.height(build) < 4
    &&& song_build_allowed(state, player, mask, build)
}

/// The word of a song turn.
pub open spec fn siren_song_word(builder: u32, build: u32, mask: u32) -> u32 {
    builder | (25u32 << 5u32) | (build << 10u32) | (mask << 15u32)
}

/// A legal Siren turn, read off its word: a mortal turn, or, when no climb is owed, the song: the
/// named opposing workers are each dragged one square down the board, and one of her workers
/// builds.
pub open spec fn is_siren_turn(state: FullGameState, player: Player, must_climb: bool, data: u32) -> bool {
    if field_at(data, 5) != NO_MOVE_SENTINEL {
        is_mortal_turn(state, player, must_climb, data)
    } else {
        let builder = field_at(data, 0);
        let build = field_at(data, 10);
        let mask = field_at(data, 15);
        &&& !must_climb
        &&& data == siren_song_word(builder, build, mask)
        &&& is_song_mask(state.board, player, mask)
        &&& is_song_build(state, player, mask, builder as int, build as int)
    }
}

/// Whatever the song drags is a named opposing worker, at most five places down the list.
pub proof fn lemma_dragged_witness(a: Seq<u8>, mask: u32, n: nat, s: int)
    requires
        dragged_below(a, mask, n, s),
    ensures
        exists|k: int| 0 <= k < n && k < a.len() && #[trigger] a[k] as int == s && bit(mask, k as u32) && s < 20,
    decreases n,
{
    let k = (n - 1) as int;
    if dragged_below(a, mask, (n - 1) as nat, s) {
        lemma_dragged_witness(a, mask, (n - 1) as nat, s);
    } else {
        assert(a[k] as int == s);
    }
}

/// The first five opposing workers, in ascending square order.
fn get_addressable_workers(board: &BoardState, player: Player) -> (r: Vec<Square>)
    ensures
        r@.len() <= SIREN_MAX_ADDRESSABLE_WORKERS,
        r@.len() == if oppo_squares(*board, player).len() < 5 {
            oppo_squares(*board, player).len()
        } else {
            5
        },
        forall|k: int| 0 <= k < r@.len() ==> #[trigger] r@[k] == oppo_squares(*board, player)[k],
{
    let all = board.workers[player.other().index()].squares();
    let mut r: Vec<Square> = Vec::new();
    let mut k: usize = 0;
    while k < all.len() && k < SIREN_MAX_ADDRESSABLE_WORKERS
        invariant
            k <= all@.len(),
            k <= 5,
            all@ == oppo_squares(*board, player),
            r@.len() == k,
            forall|j: int| 0 <= j < k ==> #[trigger] r@[j] == all@[j],
        decreases 5 - k,
    {
        r.push(all[k]);
        k = k + 1;
    }
    r
}

/// A song move reads back what it was built from, and stays clear of the flags.
pub proof fn lemma_siren_song_round_trip(builder: u32, build: u32, force_mask: u32)
    requires
        builder < 25,
        build < 25,
        force_mask < 32,
    ensures
        field_at(builder | (25u32 << 5u32) | (build << 10u32) | (force_mask << 15u32), 0) == builder,
        field_at(builder | (25u32 << 5u32) | (build << 10u32) | (force_mask << 15u32), 5) == 25,
        field_at(builder | (25u32 << 5u32) | (build << 10u32) | (force_mask << 15u32), 10) == build,
        field_at(builder | (25u32 << 5u32) | (build << 10u32) | (force_mask << 15u32), 15) == force_mask,
        !is_winning_data(builder | (25u32 << 5u32) | (build << 10u32) | (force_mask << 15u32)),
        (builder | (25u32 << 5u32) | (build << 10u32) | (force_mask << 15u32)) & MOVE_DATA_MAIN_SECTION == builder | (25u32
            << 5u32) | (build << 10u32) | (force_mask << 15u32),
{
    lemma_pack4(builder, 25, build, force_mask);
}

/// A Siren turn can be played: its squares are on the board, an ordinary turn's mover is hers and
/// lands on a free square, a build goes on an undomed square, and every worker the song drags has
/// a free square below it.
pub proof fn lemma_siren_turn_playable(state: FullGameState, player: Player, data: u32)
    requires
        state.board.wf(),
        is_siren_turn(state, player, false, data),
    ensures
        field_at(data, 0) < 25,
        field_at(data, 10) < 25,
        field_at(data, 5) != NO_MOVE_SENTINEL ==> field_at(data, 5) < 25,
        !(is_winning_data(data) && field_at(data, 5) != NO_MOVE_SENTINEL) ==> state.board.height(field_at(data, 10) as int) < 4,
        field_at(data, 5) != NO_MOVE_SENTINEL ==> state.board.workers[player.idx()].has(field_at(data, 0) as int)
            && !state.board.occupied(field_at(data, 5) as int),
        field_at(data, 5) == NO_MOVE_SENTINEL ==> forall|s: int|
            is_dragged(state.board, player, field_at(data, 15), s) ==> !#[trigger] state.board.occupied(s + 5),
        field_at(data, 5) == NO_MOVE_SENTINEL ==> !is_winning_data(data),
{
    if field_at(data, 5) != NO_MOVE_SENTINEL {
        crate::gods::mortal::lemma_mortal_move_round_trip(field_at(data, 0), field_at(data, 5), 0);
    } else {
        let mask = field_at(data, 15);
        lemma_siren_song_round_trip(field_at(data, 0), field_at(data, 10), mask);
        assert forall|s: int| is_dragged(state.board, player, mask, s) implies !#[trigger] state.board.occupied(s + 5) by {
            lemma_dragged_facts(state.board, player, mask, s);
        }
    }
}

/// A worker the song drags is an opposing worker that can be dragged.
pub proof fn lemma_dragged_facts(board: BoardState, player: Player, mask: u32, s: int)
    requires
        is_song_mask(board, player, mask),
        is_dragged(board, player, mask, s),
    ensures
        board.workers[1 - player.idx()].has(s),
        is_forcible(board, s),
{
    let a = oppo_squares(board, player);
    lemma_dragged_witness(a, mask, 5, s);
    let k = choose|k: int| 0 <= k < 5 && k < a.len() && #[trigger] a[k] as int == s && bit(mask, k as u32) && s < 20;
    lemma_squares_below(board.workers[1 - player.idx()].0, 25);
    assert(bit(board.workers[1 - player.idx()].0, a[k] as u32));
}

/// How the board reads once a song has resolved: where the opposing workers stand, and which
/// squares are open.
proof fn lemma_song_squares(
    board: BoardState,
    player: Player,
    mask: u32,
    forced_from: BitBoard,
    forced_to: BitBoard,
    open: BitBoard,
    oppo: BitBoard,
    open_after: BitBoard,
    new_oppo: BitBoard,
)
    requires
        board.wf(),
        is_song_mask(board, player, mask),
        forall|s: int| #[trigger] forced_from.has(s) == is_dragged(board, player, mask, s),
        forall|i: int| #[trigger] forced_to.has(i) == (5 <= i < 25 && forced_from.has(i - 5)),
        forall|i: int| #[trigger] open.has(i) == (is_square(i) && !board.occupied(i) && board.height(i) < 4),
        forall|i: int| #[trigger] oppo.has(i) == board.workers[1 - player.idx()].has(i),
        forall|i: int| #[trigger] open_after.has(i) == ((open.has(i) != forced_from.has(i)) != forced_to.has(i)),
        forall|i: int| #[trigger] new_oppo.has(i) == ((oppo.has(i) != forced_from.has(i)) != forced_to.has(i)),
    ensures
        forall|i: int| #[trigger] new_oppo.has(i) == oppo_after_song(board, player, mask, i),
        forall|i: int| #[trigger] open_after.has(i) == (is_square(i) && !board.workers[player.idx()].has(i) && !oppo_after_song(
            board,
            player,
            mask,
            i,
        ) && board.height(i) < 4),
{
    let p = player.idx();
    assert forall|i: int| #![trigger new_oppo.has(i)] #![trigger open_after.has(i)] new_oppo.has(i) == oppo_after_song(board, player, mask, i) && open_after.has(i) == (is_square(i)
        && !board.workers[p].has(i) && !oppo_after_song(board, player, mask, i) && board.height(i) < 4) by {
        if is_dragged(board, player, mask, i) {
            lemma_dragged_facts(board, player, mask, i);
            assert(!(board.workers[0].has(i) && board.workers[1].has(i)));
        }
        if is_dragged(board, player, mask, i - 5) {
            let s = i - 5;
            lemma_dragged_facts(board, player, mask, s);
            assert(s + 5 == i);
            assert(forced_to.has(i));
            if is_dragged(board, player, mask, i) {
                lemma_dragged_facts(board, player, mask, i);
            }
        } else {
            assert(!forced_to.has(i));
        }
    }
}

/// A turn that climbs is a turn.
pub proof fn lemma_climbing_siren_turn_is_turn(state: FullGameState, player: Player, data: u32)
    ensures
        is_siren_turn(state, player, true, data) ==> is_siren_turn(state, player, false, data),
{
    lemma_climbing_turn_is_turn(state, player, false, data);
}

/// What the song generator knows of its position while it works.
pub open spec fn siren_prelude_matches(prelude: GeneratorPreludeState, state: FullGameState, player: Player) -> bool {
    &&& prelude.inv()
    &&& state.board.wf()
    &&& prelude.board == state.board
    &&& prelude.player == player
    &&& prelude.other_god == state.gods[1 - player.idx()]
}

proof fn lemma_add_mask_bit(m: u32, k: u32, j: u32)
    by (bit_vector)
    requires
        m < 32,
        k < 5,
        j < 32,
    ensures
        (m | (1u32 << k)) < 32,
        (((m | (1u32 << k)) >> j) & 1u32 == 1u32) == (((m >> j) & 1u32 == 1u32) || j == k),
{
}

proof fn lemma_next_subset(s: u32, m: u32, j: u32)
    by (bit_vector)
    requires
        s != 0,
        j < 32,
    ensures
        ((s - 1) as u32 & m) < s,
        ((((s - 1) as u32 & m) >> j) & 1u32 == 1u32) ==> ((m >> j) & 1u32 == 1u32),
        ((s - 1) as u32 & m) <= m,
{
}

/// A mask of five bits that is not zero has one of them set.
proof fn lemma_small_mask_has_bit(m: u32)
    by (bit_vector)
    requires
        0 < m < 32,
    ensures
        (m >> 0u32) & 1u32 == 1u32 || (m >> 1u32) & 1u32 == 1u32 || (m >> 2u32) & 1u32 == 1u32 || (m >> 3u32) & 1u32 == 1u32 || (m
            >> 4u32) & 1u32 == 1u32,
{
}

/// A song turn: no worker moves, the opposing workers named by the mask are dragged down, and
/// the lowest of the player's workers next to the build builds.
pub open spec fn is_siren_song_turn(state: FullGameState, player: Player, data: u32) -> bool {
    is_siren_turn(state, player, false, data) && field_at(data, 5) == NO_MOVE_SENTINEL
}

/// The places a song mask names are places whose workers can be dragged, so its bits lie in the
/// mask `f` of such places.
proof fn lemma_song_mask_within(board: BoardState, player: Player, m: u32, f: u32, forcible: BitBoard, addr: Seq<u8>)
    requires
        is_song_mask(board, player, m),
        addr.len() == if oppo_squares(board, player).len() < 5 {
            oppo_squares(board, player).len()
        } else {
            5
        },
        forall|k: int| 0 <= k < addr.len() ==> #[trigger] addr[k] == oppo_squares(board, player)[k],
        forall|k: int| 0 <= k < 32 ==> #[trigger] bit(f, k as u32) == (k < addr.len() && forcible.has(addr[k] as int)),
        forall|s: int| 0 <= s < 25 && board.workers[1 - player.idx()].has(s) && #[trigger] is_forcible(board, s) ==> forcible.has(s),
    ensures
        bit(m, 0) ==> bit(f, 0),
        bit(m, 1) ==> bit(f, 1),
        bit(m, 2) ==> bit(f, 2),
        bit(m, 3) ==> bit(f, 3),
        bit(m, 4) ==> bit(f, 4),
{
    if bit(m, 0) {
        lemma_song_bit_within(board, player, m, f, forcible, addr, 0);
    }
    if bit(m, 1) {
        lemma_song_bit_within(board, player, m, f, forcible, addr, 1);
    }
    if bit(m, 2) {
        lemma_song_bit_within(board, player, m, f, forcible, addr, 2);
    }
    if bit(m, 3) {
        lemma_song_bit_within(board, player, m, f, forcible, addr, 3);
    }
    if bit(m, 4) {
        lemma_song_bit_within(board, player, m, f, forcible, addr, 4);
    }
}

/// One named place of a song mask is a place whose worker can be dragged.
proof fn lemma_song_bit_within(board: BoardState, player: Player, m: u32, f: u32, forcible: BitBoard, addr: Seq<u8>, k: u32)
    requires
        is_song_mask(board, player, m),
        addr.len() == if oppo_squares(board, player).len() < 5 {
            oppo_squares(board, player).len()
        } else {
            5
        },
        forall|j: int| 0 <= j < addr.len() ==> #[trigger] addr[j] == oppo_squares(board, player)[j],
        forall|j: int| 0 <= j < 32 ==> #[trigger] bit(f, j as u32) == (j < addr.len() && forcible.has(addr[j] as int)),
        forall|s: int| 0 <= s < 25 && board.workers[1 - player.idx()].has(s) && #[trigger] is_forcible(board, s) ==> forcible.has(s),
        k < 5,
        bit(m, k),
    ensures
        bit(f, k),
{
    let a = oppo_squares(board, player);
    let ki = k as int;
    lemma_squares_below(board.workers[1 - player.idx()].0, 25);
    assert(bit(m, ki as u32));
    assert(ki < a.len() && is_forcible(board, a[ki] as int));
    assert(a[ki] < 25 && bit(board.workers[1 - player.idx()].0, a[ki] as u32));
    assert(board.workers[1 - player.idx()].has(a[ki] as int));
    assert(forcible.has(addr[ki] as int));
    assert(bit(f, ki as u32));
}

/// A mask whose bits all lie in `f` is at most `f`.
proof fn lemma_submask_at_most(m: u32, f: u32)
    by (bit_vector)
    requires
        m < 32,
        (m >> 0u32) & 1u32 == 1u32 ==> (f >> 0u32) & 1u32 == 1u32,
        (m >> 1u32) & 1u32 == 1u32 ==> (f >> 1u32) & 1u32 == 1u32,
        (m >> 2u32) & 1u32 == 1u32 ==> (f >> 2u32) & 1u32 == 1u32,
        (m >> 3u32) & 1u32 == 1u32 ==> (f >> 3u32) & 1u32 == 1u32,
        (m >> 4u32) & 1u32 == 1u32 ==> (f >> 4u32) & 1u32 == 1u32,
    ensures
        m <= f,
{
}

/// Stepping from the submask `s` of `f` to the next one down skips no submask of `f`.
proof fn lemma_next_subset_skips_none(m: u32, s: u32, f: u32)
    by (bit_vector)
    requires
        m < 32,
        s < 32,
        m < s,
        (m >> 0u32) & 1u32 == 1u32 ==> (f >> 0u32) & 1u32 == 1u32,
        (m >> 1u32) & 1u32 == 1u32 ==> (f >> 1u32) & 1u32 == 1u32,
        (m >> 2u32) & 1u32 == 1u32 ==> (f >> 2u32) & 1u32 == 1u32,
        (m >> 3u32) & 1u32 == 1u32 ==> (f >> 3u32) & 1u32 == 1u32,
        (m >> 4u32) & 1u32 == 1u32 ==> (f >> 4u32) & 1u32 == 1u32,
        (s >> 0u32) & 1u32 == 1u32 ==> (f >> 0u32) & 1u32 == 1u32,
        (s >> 1u32) & 1u32 == 1u32 ==> (f >> 1u32) & 1u32 == 1u32,
        (s >> 2u32) & 1u32 == 1u32 ==> (f >> 2u32) & 1u32 == 1u32,
        (s >> 3u32) & 1u32 == 1u32 ==> (f >> 3u32) & 1u32 == 1u32,
        (s >> 4u32) & 1u32 == 1u32 ==> (f >> 4u32) & 1u32 == 1u32,
    ensures
        m <= ((s - 1) as u32 & f),
{
}

/// The squares the song could drag from, named by their place among the opposing workers: bit `k`
/// is set when the `k`th opposing worker can be dragged.
fn forcible_places(addr: &Vec<Square>, forcible: BitBoard) -> (m: u32)
    requires
        addr@.len() <= 5,
        forall|k: int| 0 <= k < addr@.len() ==> #[trigger] addr@[k] < 25,
    ensures
        m < 32,
        forall|k: int| 0 <= k < 32 ==> #[trigger] bit(m, k as u32) == (k < addr@.len() && forcible.has(addr@[k] as int)),
{
    broadcast use group_bit_lemmas;

    let mut m: u32 = 0;
    let mut k: usize = 0;
    while k < addr.len()
        invariant
            k <= addr@.len(),
            addr@.len() <= 5,
            forall|j: int| 0 <= j < addr@.len() ==> #[trigger] addr@[j] < 25,
            m < 32,
            forall|j: int| 0 <= j < 32 ==> #[trigger] bit(m, j as u32) == (j < k && forcible.has(addr@[j] as int)),
        decreases addr@.len() - k,
    {
        if forcible.contains_square(addr[k]) {
            let old_m = m;
            m = m | (1u32 << (k as u32));
            proof {
                assert forall|j: int| 0 <= j < 32 implies #[trigger] bit(m, j as u32) == (j < k + 1 && forcible.has(addr@[j] as int)) by {
                    lemma_add_mask_bit(old_m, k as u32, j as u32);
                    assert(bit(old_m, j as u32) == (j < k && forcible.has(addr@[j] as int)));
                }
                lemma_add_mask_bit(old_m, k as u32, 0);
            }
        } else {
            proof {
                assert forall|j: int| 0 <= j < 32 implies #[trigger] bit(m, j as u32) == (j < k + 1 && forcible.has(addr@[j] as int)) by {
                    if j == k {
                        assert(!forcible.has(addr@[j] as int));
                    }
                }
            }
        }
        k = k + 1;
    }
    m
}

/// The squares of the workers a mask names.
fn named_squares(addr: &Vec<Square>, mask: u32, a: Ghost<Seq<u8>>) -> (r: BitBoard)
    requires
        addr@.len() <= 5,
        addr@.len() == if a@.len() < 5 { a@.len() } else { 5 },
        forall|k: int| 0 <= k < addr@.len() ==> #[trigger] addr@[k] == a@[k],
        forall|k: int| 0 <= k < addr@.len() ==> #[trigger] addr@[k] < 25,
        forall|k: int| 0 <= k < 5 && #[trigger] bit(mask, k as u32) ==> k < a@.len() && a@[k] < 20,
    ensures
        forall|s: int| #[trigger] r.has(s) == dragged_below(a@, mask, 5, s),
{
    broadcast use group_bit_lemmas;

    let mut r = BitBoard::empty();
    let mut k: usize = 0;
    while k < SIREN_MAX_ADDRESSABLE_WORKERS
        invariant
            k <= 5,
            addr@.len() <= 5,
            addr@.len() == if a@.len() < 5 { a@.len() } else { 5 },
            forall|j: int| 0 <= j < addr@.len() ==> #[trigger] addr@[j] == a@[j],
            forall|j: int| 0 <= j < addr@.len() ==> #[trigger] addr@[j] < 25,
            forall|j: int| 0 <= j < 5 && #[trigger] bit(mask, j as u32) ==> j < a@.len() && a@[j] < 20,
            forall|s: int| #[trigger] r.has(s) == dragged_below(a@, mask, k as nat, s),
        decreases 5 - k,
    {
        if k < addr.len() && (mask >> (k as u32)) & 1 == 1 {
            r = r.or(BitBoard::as_mask(addr[k]));
            proof {
                assert(bit(mask, k as u32));
                assert forall|s: int| #[trigger] r.has(s) == dragged_below(a@, mask, (k + 1) as nat, s) by {
                    assert(dragged_below(a@, mask, (k + 1) as nat, s) == (dragged_below(a@, mask, k as nat, s) || s == addr@[k as int]));
                }
            }
        } else {
            proof {
                assert forall|s: int| #[trigger] r.has(s) == dragged_below(a@, mask, (k + 1) as nat, s) by {
                    assert(dragged_below(a@, mask, (k + 1) as nat, s) == dragged_below(a@, mask, k as nat, s));
                }
            }
        }
        k = k + 1;
    }
    r
}

/// Pushes every song: each non-empty set of the opposing workers that can be dragged, with every
/// build one of her workers can then make.
fn push_song_moves(
    flags: MoveGenFlags,
    state: &FullGameState,
    player: Player,
    prelude: &GeneratorPreludeState,
    key_squares: BitBoard,
    result: &mut Vec<ScoredMove>,
)
    requires
        siren_prelude_matches(*prelude, *state, player),
        forall|k: int| 0 <= k < old(result)@.len() ==> #[trigger] is_siren_turn(*state, player, false, old(result)@[k].action.0),
    ensures
        forall|k: int| 0 <= k < final(result)@.len() ==> #[trigger] is_siren_turn(*state, player, false, final(result)@[k].action.0),
        old(result)@.len() <= final(result)@.len(),
        forall|k: int| 0 <= k < old(result)@.len() ==> #[trigger] final(result)@[k] == old(result)@[k],
        flags & NARROWING_FLAGS == 0 ==> forall|data: u32| #[trigger] is_siren_song_turn(*state, player, data) ==> lists_word(final(result)@, data),
{
    broadcast use group_bit_lemmas;

    proof {
        crate::generic::lemma_no_flags(flags);
    }
    let ghost start_list = result@;

    let board = prelude.board;
    let ghost p = player.idx();
    let blocked = prelude.all_workers_and_frozen_mask.or(prelude.domes_and_frozen);
    let open = BitBoard::main_section().minus(blocked);
    let forcible = prelude.oppo_workers.minus(prelude.domes_and_frozen).and(open.shift_north());
    proof {
        assert forall|s: int| #[trigger] forcible.has(s) implies board.workers[1 - p].has(s) && is_forcible(board, s) by {
            assert(open.has(s + 5));
        }
    }
    proof {
        assert forall|s: int| 0 <= s < 25 && board.workers[1 - p].has(s) && #[trigger] is_forcible(board, s) implies forcible.has(s) by {
            assert(open.has(s + 5));
            assert(prelude.oppo_workers.has(s));
        }
    }
    if forcible.is_empty() {
        proof {
            if flags & NARROWING_FLAGS == 0 {
                assert forall|data: u32| #[trigger] is_siren_song_turn(*state, player, data) implies lists_word(result@, data) by {
                    let m = field_at(data, 15);
                    let a = oppo_squares(board, player);
                    lemma_squares_below(board.workers[1 - p].0, 25);
                    lemma_small_mask_has_bit(m);
                    assert(exists|k: int| 0 <= k < 5 && #[trigger] bit(m, k as u32)) by {
                        if bit(m, 0) { assert(bit(m, 0 as u32)); }
                        else if bit(m, 1) { assert(bit(m, 1 as u32)); }
                        else if bit(m, 2) { assert(bit(m, 2 as u32)); }
                        else if bit(m, 3) { assert(bit(m, 3 as u32)); }
                        else { assert(bit(m, 4 as u32)); }
                    }
                    let k = choose|k: int| 0 <= k < 5 && #[trigger] bit(m, k as u32);
                    assert(k < a.len() && is_forcible(board, a[k] as int));
                    assert(board.workers[1 - p].has(a[k] as int));
                    assert(forcible.has(a[k] as int));
                }
            }
        }
        return;
    }
    let addr = get_addressable_workers(&board, player);
    let ghost a = oppo_squares(board, player);
    proof {
        lemma_squares_below(board.workers[1 - p].0, 25);
    }
    let forcible_mask = forcible_places(&addr, forcible);

    let threatening_workers = prelude.own_workers.and(prelude.exactly_level_2);
    let threatening_neighbors = apply_neighbor_map_to_mask(threatening_workers);
    let has_threat = !(prelude.is_against_hypnus && threatening_workers.count_ones() < 2);
    let all_builder_neighbors = apply_neighbor_map_to_mask(prelude.own_workers);

    let mut subset = forcible_mask;
    proof {
        if flags & NARROWING_FLAGS == 0 {
            assert forall|data: u32| #[trigger] is_siren_song_turn(*state, player, data) && field_at(data, 15) > subset implies lists_word(result@, data) by {
                lemma_song_mask_within(board, player, field_at(data, 15), forcible_mask, forcible, addr@);
                lemma_submask_at_most(field_at(data, 15), forcible_mask);
            }
        }
    }
    while subset != 0
        invariant
            siren_prelude_matches(*prelude, *state, player),
            board == state.board,
            p == player.idx(),
            a == oppo_squares(board, player),
            addr@.len() <= 5,
            addr@.len() == if a.len() < 5 { a.len() } else { 5 },
            forall|k: int| 0 <= k < addr@.len() ==> #[trigger] addr@[k] == a[k],
            forall|k: int| 0 <= k < addr@.len() ==> #[trigger] addr@[k] < 25,
            forall|s: int| #[trigger] forcible.has(s) ==> board.workers[1 - p].has(s) && is_forcible(board, s),
            forall|k: int| 0 <= k < 32 ==> #[trigger] bit(forcible_mask, k as u32) == (k < addr@.len() && forcible.has(addr@[k] as int)),
            forall|i: int| #[trigger] open.has(i) == (is_square(i) && !board.occupied(i) && board.height(i) < 4),
            forall|i: int| #[trigger] all_builder_neighbors.has(i) == (exists|s: int|
                0 <= s < 25 && #[trigger] prelude.own_workers.has(s) && is_adjacent(s, i)),
            subset <= forcible_mask,
            forcible_mask < 32,
            forall|k: int| 0 <= k < 32 && #[trigger] bit(subset, k as u32) ==> bit(forcible_mask, k as u32),
            forall|k: int| 0 <= k < result@.len() ==> #[trigger] is_siren_turn(*state, player, false, result@[k].action.0),
            forall|s: int| 0 <= s < 25 && board.workers[1 - p].has(s) && #[trigger] is_forcible(board, s) ==> forcible.has(s),
            start_list.len() <= result@.len(),
            forall|k: int| 0 <= k < start_list.len() ==> #[trigger] result@[k] == start_list[k],
            flags & NARROWING_FLAGS == 0 ==> flags & 8 == 0,
            flags & NARROWING_FLAGS == 0 ==> forall|data: u32| #[trigger] is_siren_song_turn(*state, player, data) && field_at(data, 15) > subset ==> lists_word(result@, data),
        decreases subset,
    {
        proof {
            assert(is_song_mask(board, player, subset)) by {
                assert forall|k: int| 0 <= k < 5 && #[trigger] bit(subset, k as u32) implies k < a.len() && is_forcible(board, a[k] as int) by {
                    assert(bit(forcible_mask, k as u32));
                    assert(forcible.has(addr@[k] as int));
                }
            }
        }
        let forced_from = named_squares(&addr, subset, Ghost(a));
        let forced_to = forced_from.shift_south();
        let open_after = open.xor(forced_from).xor(forced_to);
        let new_oppo_workers = prelude.oppo_workers.xor(forced_from).xor(forced_to);
        proof {
            lemma_song_squares(board, player, subset, forced_from, forced_to, open, prelude.oppo_workers, open_after, new_oppo_workers);
        }
        let build_mask_after = prelude.other_god.get_build_mask(new_oppo_workers).or(prelude.exactly_level_3);
        let mut narrowed_builds = all_builder_neighbors.and(open_after).and(build_mask_after);
        if is_interact_with_key_squares(flags) && key_squares.and(forced_from.or(forced_to)).is_empty() {
            narrowed_builds = narrowed_builds.and(prelude.key_squares);
        }
        let reach_board = if has_threat {
            threatening_neighbors.and(prelude.win_mask).and(open_after)
        } else {
            BitBoard::empty()
        };
        proof {
            assert forall|b: int| #[trigger] narrowed_builds.has(b) implies open_after.has(b) && all_builder_neighbors.has(b)
                && song_build_allowed(*state, player, subset, b) by {
                if prelude.other_god.is_limus_spec() && !prelude.exactly_level_3.has(b) {
                    assert(0 <= b < 32);
                    assert(!(exists|s: int| 0 <= s < 25 && #[trigger] new_oppo_workers.has(s) && is_adjacent(s, b)));
                    assert forall|s: int| 0 <= s < 25 && #[trigger] oppo_after_song(board, player, subset, s) implies !is_adjacent(s, b) by {
                        assert(new_oppo_workers.has(s));
                    }
                }
            }
        }
        let builds = narrowed_builds.squares();
        proof {
            if flags & NARROWING_FLAGS == 0 {
                assert forall|data: u32| #[trigger] is_siren_song_turn(*state, player, data) && field_at(data, 15) == subset implies builds@.contains(field_at(data, 10) as u8) by {
                    let b = field_at(data, 10) as int;
                    let w = field_at(data, 0) as int;
                    assert(prelude.own_workers.has(w));
                    assert(all_builder_neighbors.has(b));
                    assert(open_after.has(b));
                    if prelude.other_god.is_limus_spec() && state.board.height(b) != 3 {
                        assert forall|s: int| 0 <= s < 25 && #[trigger] new_oppo_workers.has(s) implies !is_adjacent(s, b) by {
                            assert(oppo_after_song(board, player, subset, s));
                        }
                    }
                    if state.board.height(b) == 3 {
                        assert(prelude.exactly_level_3.has(b));
                    }
                    assert(build_mask_after.has(b));
                    assert(narrowed_builds.has(b));
                }
            }
        }
        let mut bi: usize = 0;
        while bi < builds.len()
            invariant
                bi <= builds@.len(),
                siren_prelude_matches(*prelude, *state, player),
                board == state.board,
                p == player.idx(),
                0 < subset < 32,
                is_song_mask(board, player, subset),
                forall|k: int| 0 <= k < builds@.len() ==> #[trigger] builds@[k] < 25 && narrowed_builds.has(builds@[k] as int),
                forall|b: int| #[trigger] narrowed_builds.has(b) ==> open_after.has(b) && all_builder_neighbors.has(b)
                    && song_build_allowed(*state, player, subset, b),
                forall|i: int| #[trigger] open_after.has(i) == (is_square(i) && !board.workers[p].has(i) && !oppo_after_song(
                    board,
                    player,
                    subset,
                    i,
                ) && board.height(i) < 4),
                forall|i: int| #[trigger] all_builder_neighbors.has(i) == (exists|s: int|
                    0 <= s < 25 && #[trigger] prelude.own_workers.has(s) && is_adjacent(s, i)),
                forall|k: int| 0 <= k < result@.len() ==> #[trigger] is_siren_turn(*state, player, false, result@[k].action.0),
                start_list.len() <= result@.len(),
                forall|k: int| 0 <= k < start_list.len() ==> #[trigger] result@[k] == start_list[k],
                flags & NARROWING_FLAGS == 0 ==> forall|data: u32| #[trigger] is_siren_song_turn(*state, player, data) && field_at(data, 15) > subset ==> lists_word(result@, data),
                flags & NARROWING_FLAGS == 0 ==> forall|data: u32| #[trigger] is_siren_song_turn(*state, player, data) && field_at(data, 15) == subset && (exists|j: int| 0 <= j < bi && builds@[j] as u32 == field_at(data, 10))
                    ==> lists_word(result@, data),
                flags & NARROWING_FLAGS == 0 ==> forall|data: u32| #[trigger] is_siren_song_turn(*state, player, data) && field_at(data, 15) == subset ==> builds@.contains(field_at(data, 10) as u8),
            decreases builds@.len() - bi,
        {
            let build = builds[bi];
            let builders = prelude.own_workers.and(neighbor_mask(build));
            proof {
                assert(all_builder_neighbors.has(build as int));
                let s = choose|s: int| 0 <= s < 25 && #[trigger] prelude.own_workers.has(s) && is_adjacent(s, build as int);
                assert(builders.has(s));
            }
            let builder = builders.lsb();
            let build_mask = BitBoard::as_mask(build);
            let final_level_3 = prelude.exactly_level_2.and(build_mask).or(prelude.exactly_level_3.minus(build_mask));
            let is_check = reach_board.and(final_level_3).is_not_empty();
            let new_action = SirenMove::new_song_move(builder, build, subset);
            let ghost before = result@;
            result.push(build_scored_move(flags, GenericMove(new_action.0), is_check, false));
            proof {
                lemma_lists_word_grows(before, result@);
                if flags & NARROWING_FLAGS == 0 {
                    assert forall|data: u32| #[trigger] is_siren_song_turn(*state, player, data) && field_at(data, 15) == subset && (exists|j: int| 0 <= j < bi + 1 && builds@[j] as u32 == field_at(data, 10))
                        implies lists_word(result@, data) by {
                        let j = choose|j: int| 0 <= j < bi + 1 && builds@[j] as u32 == field_at(data, 10);
                        if j == bi {
                            let w = field_at(data, 0) as int;
                            crate::square::lemma_adjacent_symmetric(w, build as int);
                            assert(builders.has(w));
                            if (builder as int) < w {
                                crate::square::lemma_adjacent_symmetric(builder as int, build as int);
                                assert(prelude.own_workers.has(builder as int));
                            }
                            assert(builder as int == w);
                            assert(result@[before.len() as int].action.0 == data);
                        }
                    }
                }
                lemma_siren_song_round_trip(builder as u32, build as u32, subset);
                assert(is_song_build(*state, player, subset, builder as int, build as int)) by {
                    assert forall|s: int| 0 <= s < builder implies !(#[trigger] board.workers[p].has(s) && is_adjacent(s, build as int)) by {
                        assert(!builders.has(s));
                        assert(prelude.own_workers.has(s) == board.workers[p].has(s));
                    }
                }
                assert forall|k: int| 0 <= k < result@.len() implies #[trigger] is_siren_turn(*state, player, false, result@[k].action.0) by {
                    if k < before.len() {
                        assert(result@[k] == before[k]);
                    }
                }
            }
            bi = bi + 1;
        }
        let ghost prev_subset = subset;
        proof {
            if flags & NARROWING_FLAGS == 0 {
                assert forall|data: u32| #[trigger] is_siren_song_turn(*state, player, data) && field_at(data, 15) == subset implies lists_word(result@, data) by {
                    let b = field_at(data, 10);
                    assert(builds@.contains(b as u8));
                    let j = choose|j: int| 0 <= j < builds@.len() && builds@[j] == b as u8;
                    assert(builds@[j] as u32 == field_at(data, 10));
                }
            }
        }
        subset = ((subset - 1) as u32) & forcible_mask;
        proof {
            if flags & NARROWING_FLAGS == 0 {
                assert forall|data: u32| #[trigger] is_siren_song_turn(*state, player, data) && field_at(data, 15) > subset implies lists_word(result@, data) by {
                    let m = field_at(data, 15);
                    if m < prev_subset {
                        lemma_song_mask_within(board, player, m, forcible_mask, forcible, addr@);
                        assert(bit(prev_subset, 0int as u32) ==> bit(forcible_mask, 0int as u32));
                        assert(bit(prev_subset, 1int as u32) ==> bit(forcible_mask, 1int as u32));
                        assert(bit(prev_subset, 2int as u32) ==> bit(forcible_mask, 2int as u32));
                        assert(bit(prev_subset, 3int as u32) ==> bit(forcible_mask, 3int as u32));
                        assert(bit(prev_subset, 4int as u32) ==> bit(forcible_mask, 4int as u32));
                        lemma_next_subset_skips_none(m, prev_subset, forcible_mask);
                    }
                }
            }
        }
        proof {
            lemma_next_subset(prev_subset, forcible_mask, 0);
            assert forall|k: int| 0 <= k < 32 && #[trigger] bit(subset, k as u32) implies bit(forcible_mask, k as u32) by {
                lemma_next_subset(prev_subset, forcible_mask, k as u32);
            }
        }
    }
    proof {
        if flags & NARROWING_FLAGS == 0 {
            assert forall|data: u32| #[trigger] is_siren_song_turn(*state, player, data) implies lists_word(result@, data) by {
                assert(field_at(data, 15) > 0);
            }
        }
    }
}

/// The turns the generator owes with no narrowing filter on: every legal turn, except that
/// against Persephone, when a climb exists, only the climbing ones.
pub open spec fn siren_turn_owed(state: FullGameState, player: Player, must_climb: bool, data: u32) -> bool {
    &&& is_siren_turn(state, player, must_climb, data)
    &&& (state.gods[1 - player.idx()].is_persephone_spec() && !must_climb && exists|d: u32| #[trigger] is_siren_turn(state, player, true, d))
        ==> is_siren_turn(state, player, true, data)
}

/// Siren's move generator: every mortal turn, and then, when no climb is owed, every song.
/// `must_climb` asks for climbing moves only, which is how Persephone's restriction is applied.
pub fn siren_move_gen(
    flags: MoveGenFlags,
    state: &FullGameState,
    player: Player,
    key_squares: BitBoard,
    must_climb: bool,
) -> (result: Vec<ScoredMove>)
    requires
        state.board.wf(),
    ensures
        forall|k: int| 0 <= k < result@.len() ==> #[trigger] is_siren_turn(*state, player, must_climb, result@[k].action.0),
        flags & NARROWING_FLAGS == 0 ==> forall|data: u32| #[trigger] siren_turn_owed(*state, player, must_climb, data) ==> lists_word(
            result@,
            data,
        ),
        flags & NARROWING_FLAGS == 0 && state.gods[1 - player.idx()].is_persephone_spec() && !must_climb && (exists|d: u32|
            #[trigger] is_siren_turn(*state, player, true, d)) ==> forall|k: int| 0 <= k < result@.len()
            ==> #[trigger] is_siren_turn(*state, player, true, result@[k].action.0),
    decreases if must_climb { 0int } else { 1int },
{
    proof {
        crate::generic::lemma_no_flags(flags);
    }
    if state.gods[player.other().index()].is_persephone() && !must_climb {
        let climbing = siren_move_gen(flags, state, player, key_squares, true);
        proof {
            assert forall|k: int| 0 <= k < climbing@.len() implies #[trigger] is_siren_turn(*state, player, must_climb, climbing@[k].action.0) by {
                lemma_climbing_siren_turn_is_turn(*state, player, climbing@[k].action.0);
            }
        }
        if climbing.len() > 0 {
            proof {
                if flags & NARROWING_FLAGS == 0 {
                    assert(is_siren_turn(*state, player, true, climbing@[0].action.0));
                    assert forall|data: u32| #[trigger] siren_turn_owed(*state, player, must_climb, data) implies lists_word(climbing@, data) by {
                        assert(siren_turn_owed(*state, player, true, data));
                    }
                }
            }
            return climbing;
        }
        proof {
            if flags & NARROWING_FLAGS == 0 {
                assert forall|d: u32| !#[trigger] is_siren_turn(*state, player, true, d) by {
                    if is_siren_turn(*state, player, true, d) {
                        assert(siren_turn_owed(*state, player, true, d));
                    }
                }
            }
        }
        if flags & ANY_MOVE_FILTER > 0 {
            let unrestricted = siren_move_gen(0, state, player, key_squares, true);
            if unrestricted.len() > 0 {
                return climbing;
            }
        }
    }
    assert(flags & NARROWING_FLAGS == 0 && state.gods[1 - player.idx()].is_persephone_spec() && !must_climb ==> forall|d: u32|
        !#[trigger] is_siren_turn(*state, player, true, d));
    let mut result = standard_turn_move_gen(flags, state, player, key_squares, must_climb, BitBoard::empty(), false);
    proof {
        assert forall|k: int| 0 <= k < result@.len() implies #[trigger] is_siren_turn(*state, player, must_climb, result@[k].action.0) by {
            assert(is_mortal_turn(*state, player, must_climb, result@[k].action.0));
        }
    }
    // The song never climbs, so it is never a mate and never pays a climb owed to Persephone.
    proof {
        if flags & NARROWING_FLAGS == 0 {
            assert forall|data: u32| #[trigger] siren_turn_owed(*state, player, must_climb, data) && field_at(data, 5) != NO_MOVE_SENTINEL
                implies lists_word(result@, data) by {
                if !must_climb && state.gods[1 - player.idx()].is_persephone_spec() && exists|d: u32|
                    #[trigger] is_standard_turn(*state, player, true, false, d) {
                    let d = choose|d: u32| #[trigger] is_standard_turn(*state, player, true, false, d);
                    assert(is_siren_turn(*state, player, true, d));
                }
                assert(standard_turn_owed(*state, player, must_climb, false, data));
            }
        }
    }
    if is_mate_only(flags) || must_climb {
        return result;
    }
    if is_stop_on_mate(flags) && result.len() > 0 && result[result.len() - 1].get_is_winning() {
        return result;
    }
    let prelude = get_generator_prelude_state(state, player, key_squares);
    let ghost mortal = result@;
    push_song_moves(flags, state, player, &prelude, key_squares, &mut result);
    proof {
        lemma_lists_word_grows(mortal, result@);
        if flags & NARROWING_FLAGS == 0 {
            assert forall|data: u32| #[trigger] siren_turn_owed(*state, player, must_climb, data) implies lists_word(result@, data) by {
                if field_at(data, 5) != NO_MOVE_SENTINEL {
                    assert(lists_word(mortal, data));
                } else {
                    assert(is_siren_song_turn(*state, player, data));
                }
            }
        }
    }
    result
}

/// Siren's fixed data.
pub fn build_siren() -> (r: GodPower)
    ensures
        r.god_name == GodName::Siren,
        r.hash1 == 10422823607176399451u64,
        r.hash2 == 6002115468925304309u64,
        r.placement_type == PlacementType::Normal,
        r.symmetry == BoardSymmetry::HorizontalOnly,
        !r.is_persephone,
{
    god_power(GodName::Siren, 10422823607176399451, 6002115468925304309)
        .with_symmetry(BoardSymmetry::HorizontalOnly)
}

/// How a turn of this god changes the board: the workers, the heights, the god data and the
/// winner after it, and whose turn it is, are those of `after`.
pub open spec fn siren_move_effect(before: BoardState, after: BoardState, player: Player, data: u32) -> bool {
    &&& after.god_data == before.god_data
    &&& after.current_player == before.current_player
    &&& (field_at(data, 5) != NO_MOVE_SENTINEL ==> after.workers[player.idx()].0 == before.workers[player.idx()].0 ^ ((1u32 << field_at(data, 0)) ^ (1u32 << field_at(data, 5))))
    &&& (field_at(data, 5) != NO_MOVE_SENTINEL ==> after.workers[1 - player.idx()] == before.workers[1 - player.idx()])
    &&& (field_at(data, 5) != NO_MOVE_SENTINEL && is_winning_data(data) ==> after.winner == Some(player) && after.height_map == before.height_map)
    &&& (field_at(data, 5) == NO_MOVE_SENTINEL ==> after.workers[player.idx()] == before.workers[player.idx()])
    &&& (field_at(data, 5) == NO_MOVE_SENTINEL ==> forall|i: int| #[trigger] after.workers[1 - player.idx()].has(i) == (before.workers[1 - player.idx()].has(i) != (is_dragged(before, player, field_at(data, 15), i) != is_dragged(before, player, field_at(data, 15), i - 5))))
    &&& (!(is_winning_data(data) && field_at(data, 5) != NO_MOVE_SENTINEL) ==> after.winner == before.winner)
    &&& (!(is_winning_data(data) && field_at(data, 5) != NO_MOVE_SENTINEL) ==> after.height( field_at(data, 10) as int, ) == before.height(field_at(data, 10) as int) + 1)
    &&& (!(is_winning_data(data) && field_at(data, 5) != NO_MOVE_SENTINEL) ==> forall|i: int| i != field_at( data, 10, ) ==> #[trigger] after.height(i) == before.height(i))
}

} // verus!
