use vstd::prelude::*;

use crate::bitboard::{group_bit_lemmas, BitBoard};
use crate::board::{BoardState, FullGameState, Player};
use crate::generic::{is_winning_data, GenericMove, ScoredMove};
use crate::gods::mortal::lists_word;
use crate::gods::GodName;
use crate::square::Square;

verus! {

/// A move of the player to act, and the position it leads to.
#[derive(Clone, Copy, PartialEq, Eq, Debug)]
pub struct FullChoice {
    pub action: GenericMove,
    pub state: FullGameState,
}

impl FullGameState {
    /// Both gods are ones whose moves this library generates, and the god to act can generate its
    /// moves on this position.
    pub open spec fn playable(self) -> bool {
        &&& self.gods[0].is_playable_spec()
        &&& self.gods[1].is_playable_spec()
        &&& self.gods[self.board.current_player.idx()].moves_defined(self, self.board.current_player)
    }

    /// Whether both gods are ones whose moves this library generates, and the god to act can
    /// generate moves here.
    pub fn is_playable(&self) -> (r: bool)
        requires
            self.board.wf(),
        ensures
            r == self.playable(),
    {
        let p = self.board.current_player;
        self.gods[0].is_playable() && self.gods[1].is_playable() && self.gods[p.index()].has_moves_defined(self, p)
    }

    pub fn new(board: BoardState, gods: [GodName; 2]) -> (r: FullGameState)
        ensures
            r.board == board,
            r.gods == gods,
    {
        FullGameState { board, gods }
    }

    /// The god of the player to act, and the other one.
    pub fn get_active_non_active_gods(&self) -> (r: (GodName, GodName))
        ensures
            r.0 == self.gods[self.board.current_player.idx()],
            r.1 == self.gods[1 - self.board.current_player.idx()],
    {
        let p = self.board.current_player;
        (self.gods[p.index()], self.gods[p.other().index()])
    }

    /// `after` is the board that a legal turn of the player to act, given by its move word, leaves
    /// behind (with the turn handed over).
    pub open spec fn reached_by_turn(self, after: BoardState, data: u32) -> bool {
        let p = self.board.current_player;
        &&& self.gods[p.idx()].is_legal_turn(self, p, data)
        &&& self.gods[p.idx()].move_effect(self.board, after.with_turn(p), p, data)
    }

    /// Plays `action` for the player to act and hands the turn over.
    pub fn next_state(&self, active_god: GodName, oppo_god: GodName, action: GenericMove) -> (r: FullGameState)
        requires
            self.board.wf(),
            self.playable(),
            active_god == self.gods[self.board.current_player.idx()],
            active_god.is_legal_turn(*self, self.board.current_player, action.0),
        ensures
            r.board.wf(),
            r.gods == self.gods,
            r.board.current_player == self.board.current_player.other_spec(),
            is_winning_data(action.0) ==> r.board.winner == Some(self.board.current_player),
            !is_winning_data(action.0) ==> r.board.winner == self.board.winner,
            active_god.move_effect(self.board, r.board.with_turn(self.board.current_player), self.board.current_player, action.0),
    {
        let player = self.board.current_player;
        let mut board = active_god.make_move(self, player, action);
        let ghost played = board;
        board.flip_current_player();
        proof {
            assert(board.with_turn(player) == played);
        }
        FullGameState { board, gods: self.gods }
    }

    /// Every move of the player to act.
    pub fn get_current_moves(&self) -> (r: Vec<ScoredMove>)
        requires
            self.board.wf(),
            self.playable(),
        ensures
            forall|k: int| 0 <= k < r@.len() ==> #[trigger] self.gods[self.board.current_player.idx()].is_legal_turn(
                *self,
                self.board.current_player,
                r@[k].action.0,
            ),
            self.gods[self.board.current_player.idx()].lists_every_turn() ==> forall|data: u32| #[trigger] self.gods[self.board.current_player.idx()].turn_owed(
                *self,
                self.board.current_player,
                data,
            ) ==> lists_word(r@, data),
    {
        let (active_god, _) = self.get_active_non_active_gods();
        active_god.get_all_moves(self, self.board.current_player)
    }

    /// Every position the player to act can move to.
    pub fn get_next_states(&self) -> (r: Vec<FullGameState>)
        requires
            self.board.wf(),
            self.playable(),
        ensures
            forall|k: int| 0 <= k < r@.len() ==> (#[trigger] r@[k]).board.wf(),
            forall|k: int| 0 <= k < r@.len() ==> (#[trigger] r@[k]).gods == self.gods,
            forall|k: int| 0 <= k < r@.len() ==> (#[trigger] r@[k]).board.current_player == self.board.current_player.other_spec(),
            forall|k: int| #![trigger r@[k]] 0 <= k < r@.len() ==> exists|data: u32| #[trigger] self.reached_by_turn(r@[k].board, data),
            self.gods[self.board.current_player.idx()].lists_every_turn() ==> forall|data: u32| #[trigger] self.gods[self.board.current_player.idx()].turn_owed(
                *self,
                self.board.current_player,
                data,
            ) ==> exists|k: int| 0 <= k < r@.len() && self.gods[self.board.current_player.idx()].move_effect(
                self.board,
                (#[trigger] r@[k]).board.with_turn(self.board.current_player),
                self.board.current_player,
                data,
            ),
    {
        let choices = self.get_next_states_interactive();
        let mut r: Vec<FullGameState> = Vec::new();
        let mut i: usize = 0;
        while i < choices.len()
            invariant
                i <= choices@.len(),
                r@.len() == i,
                forall|k: int| 0 <= k < choices@.len() ==> (#[trigger] choices@[k]).state.board.wf(),
                forall|k: int| 0 <= k < r@.len() ==> #[trigger] r@[k] == choices@[k].state,
                forall|k: int| 0 <= k < choices@.len() ==> self.gods[self.board.current_player.idx()].move_effect(
                    self.board,
                    (#[trigger] choices@[k]).state.board.with_turn(self.board.current_player),
                    self.board.current_player,
                    choices@[k].action.0,
                ),
                forall|k: int| 0 <= k < choices@.len() ==> #[trigger] self.gods[self.board.current_player.idx()].is_legal_turn(
                    *self,
                    self.board.current_player,
                    choices@[k].action.0,
                ),
            decreases choices@.len() - i,
        {
            r.push(choices[i].state);
            i = i + 1;
        }
        proof {
            if self.gods[self.board.current_player.idx()].lists_every_turn() {
                assert forall|data: u32| #[trigger] self.gods[self.board.current_player.idx()].turn_owed(
                    *self,
                    self.board.current_player,
                    data,
                ) implies exists|k: int| 0 <= k < r@.len() && self.gods[self.board.current_player.idx()].move_effect(
                    self.board,
                    (#[trigger] r@[k]).board.with_turn(self.board.current_player),
                    self.board.current_player,
                    data,
                ) by {
                    let k = choose|k: int| 0 <= k < choices@.len() && #[trigger] choices@[k].action.0 == data;
                    assert(r@[k] == choices@[k].state);
                }
            }
            assert forall|k: int| #![trigger r@[k]] 0 <= k < r@.len() implies exists|data: u32| #[trigger] self.reached_by_turn(r@[k].board, data) by {
                assert(r@[k] == choices@[k].state);
                let d = choices@[k].action.0;
                assert(self.gods[self.board.current_player.idx()].is_legal_turn(*self, self.board.current_player, d));
                assert(self.gods[self.board.current_player.idx()].move_effect(
                    self.board,
                    choices@[k].state.board.with_turn(self.board.current_player),
                    self.board.current_player,
                    d,
                ));
                assert(self.reached_by_turn(r@[k].board, d));
            }
        }
        r
    }

    /// Every move of the player to act, each with the position it leads to.
    pub fn get_next_states_interactive(&self) -> (r: Vec<FullChoice>)
        requires
            self.board.wf(),
            self.playable(),
        ensures
            forall|k: int| 0 <= k < r@.len() ==> (#[trigger] r@[k]).state.board.wf(),
            forall|k: int| 0 <= k < r@.len() ==> #[trigger] self.gods[self.board.current_player.idx()].is_legal_turn(
                *self,
                self.board.current_player,
                r@[k].action.0,
            ),
            forall|k: int| 0 <= k < r@.len() ==> (#[trigger] r@[k]).state.gods == self.gods,
            forall|k: int| 0 <= k < r@.len() ==> (#[trigger] r@[k]).state.board.current_player == self.board.current_player.other_spec(),
            forall|k: int|
                0 <= k < r@.len() ==> (if is_winning_data((#[trigger] r@[k]).action.0) {
                    r@[k].state.board.winner == Some(self.board.current_player)
                } else {
                    r@[k].state.board.winner == self.board.winner
                }),
            forall|k: int| 0 <= k < r@.len() ==> self.gods[self.board.current_player.idx()].move_effect(
                self.board,
                (#[trigger] r@[k]).state.board.with_turn(self.board.current_player),
                self.board.current_player,
                r@[k].action.0,
            ),
            self.gods[self.board.current_player.idx()].lists_every_turn() ==> forall|data: u32| #[trigger] self.gods[self.board.current_player.idx()].turn_owed(
                *self,
                self.board.current_player,
                data,
            ) ==> exists|k: int| 0 <= k < r@.len() && #[trigger] r@[k].action.0 == data,
    {
        let (active_god, oppo_god) = self.get_active_non_active_gods();
        let moves = self.get_current_moves();
        let mut r: Vec<FullChoice> = Vec::new();
        let mut i: usize = 0;
        while i < moves.len()
            invariant
                i <= moves@.len(),
                self.board.wf(),
                self.playable(),
                active_god == self.gods[self.board.current_player.idx()],
                forall|k: int| 0 <= k < moves@.len() ==> #[trigger] self.gods[self.board.current_player.idx()].is_legal_turn(
                    *self,
                    self.board.current_player,
                    moves@[k].action.0,
                ),
                forall|k: int| 0 <= k < r@.len() ==> (#[trigger] r@[k]).state.board.wf(),
                forall|k: int| 0 <= k < r@.len() ==> #[trigger] self.gods[self.board.current_player.idx()].is_legal_turn(
                    *self,
                    self.board.current_player,
                    r@[k].action.0,
                ),
                forall|k: int| 0 <= k < r@.len() ==> (#[trigger] r@[k]).state.gods == self.gods,
                forall|k: int| 0 <= k < r@.len() ==> (#[trigger] r@[k]).state.board.current_player == self.board.current_player.other_spec(),
                forall|k: int|
                    0 <= k < r@.len() ==> (if is_winning_data((#[trigger] r@[k]).action.0) {
                        r@[k].state.board.winner == Some(self.board.current_player)
                    } else {
                        r@[k].state.board.winner == self.board.winner
                    }),
                r@.len() == i,
                forall|k: int| 0 <= k < r@.len() ==> #[trigger] r@[k].action == moves@[k].action,
                forall|k: int| 0 <= k < r@.len() ==> self.gods[self.board.current_player.idx()].move_effect(
                    self.board,
                    (#[trigger] r@[k]).state.board.with_turn(self.board.current_player),
                    self.board.current_player,
                    r@[k].action.0,
                ),
            decreases moves@.len() - i,
        {
            let action = moves[i].action;
            let state = self.next_state(active_god, oppo_god, action);
            r.push(FullChoice { action, state });
            i = i + 1;
        }
        proof {
            if self.gods[self.board.current_player.idx()].lists_every_turn() {
                assert forall|data: u32| #[trigger] self.gods[self.board.current_player.idx()].turn_owed(
                    *self,
                    self.board.current_player,
                    data,
                ) implies exists|k: int| 0 <= k < r@.len() && #[trigger] r@[k].action.0 == data by {
                    let k = choose|k: int| 0 <= k < moves@.len() && #[trigger] moves@[k].action.0 == data;
                    assert(r@[k].action == moves@[k].action);
                }
            }
        }
        r
    }
}

/// Builds positions square by square, mostly for tests.
#[derive(Clone, Debug)]
pub struct GameStateBuilder {
    pub gods: [GodName; 2],
    pub p1_workers: BitBoard,
    pub p2_workers: BitBoard,
    pub heights: Vec<u8>,
    pub current_player: Player,
}

impl GameStateBuilder {
    /// The builder's position is consistent: workers on distinct squares, heights up to a dome.
    pub open spec fn wf(self) -> bool {
        &&& self.p1_workers.within_board()
        &&& self.p2_workers.within_board()
        &&& forall|i: int| !(#[trigger] self.p1_workers.has(i) && self.p2_workers.has(i))
        &&& self.heights@.len() == 25
        &&& forall|k: int| 0 <= k < 25 ==> #[trigger] self.heights@[k] <= 4
    }

    pub fn new(p1_god: GodName, p2_god: GodName) -> (r: GameStateBuilder)
        ensures
            r.wf(),
            r.gods == [p1_god, p2_god],
            forall|i: int| !(#[trigger] r.p1_workers.has(i)),
            forall|i: int| !(#[trigger] r.p2_workers.has(i)),
            forall|k: int| 0 <= k < 25 ==> #[trigger] r.heights@[k] == 0,
            r.current_player == Player::One,
    {
        broadcast use group_bit_lemmas;

        let mut heights: Vec<u8> = Vec::new();
        let mut i: usize = 0;
        while i < 25
            invariant
                i <= 25,
                heights@.len() == i,
                forall|k: int| 0 <= k < i ==> #[trigger] heights@[k] == 0,
            decreases 25 - i,
        {
            heights.push(0);
            i = i + 1;
        }
        GameStateBuilder {
            gods: [p1_god, p2_god],
            p1_workers: BitBoard::empty(),
            p2_workers: BitBoard::empty(),
            heights,
            current_player: Player::One,
        }
    }

    /// Adds a worker for the first player on a free square.
    pub fn with_p1_worker(self, sq: Square) -> (r: GameStateBuilder)
        requires
            self.wf(),
            sq < 25,
            !self.p2_workers.has(sq as int),
        ensures
            r.wf(),
            r.gods == self.gods,
            forall|i: int| #[trigger] r.p1_workers.has(i) == (self.p1_workers.has(i) || i == sq),
            r.p2_workers == self.p2_workers,
            r.heights@ == self.heights@,
            r.current_player == self.current_player,
    {
        GameStateBuilder { p1_workers: self.p1_workers.or(BitBoard::as_mask(sq)), ..self }
    }

    /// Adds a worker for the second player on a free square.
    pub fn with_p2_worker(self, sq: Square) -> (r: GameStateBuilder)
        requires
            self.wf(),
            sq < 25,
            !self.p1_workers.has(sq as int),
        ensures
            r.wf(),
            r.gods == self.gods,
            forall|i: int| #[trigger] r.p2_workers.has(i) == (self.p2_workers.has(i) || i == sq),
            r.p1_workers == self.p1_workers,
            r.heights@ == self.heights@,
            r.current_player == self.current_player,
    {
        GameStateBuilder { p2_workers: self.p2_workers.or(BitBoard::as_mask(sq)), ..self }
    }

    /// Sets the height of a square.
    pub fn with_height(self, sq: Square, height: u8) -> (r: GameStateBuilder)
        requires
            self.wf(),
            sq < 25,
            height <= 4,
        ensures
            r.wf(),
            r.gods == self.gods,
            r.heights@ == self.heights@.update(sq as int, height),
            r.p1_workers == self.p1_workers,
            r.p2_workers == self.p2_workers,
            r.current_player == self.current_player,
    {
        let mut s = self;
        s.heights.set(sq as usize, height);
        s
    }

    /// Hands the first move to `player`.
    pub fn with_current_player(self, player: Player) -> (r: GameStateBuilder)
        requires
            self.wf(),
        ensures
            r.wf(),
            r.gods == self.gods,
            r.current_player == player,
            r.p1_workers == self.p1_workers,
            r.p2_workers == self.p2_workers,
            r.heights@ == self.heights@,
    {
        GameStateBuilder { current_player: player, ..self }
    }

    /// The position built so far.
    pub fn build(self) -> (r: FullGameState)
        requires
            self.wf(),
        ensures
            r.board.wf(),
            r.gods == self.gods,
            r.board.workers[0] == self.p1_workers,
            r.board.workers[1] == self.p2_workers,
            r.board.current_player == self.current_player,
            r.board.winner is None,
            r.board.god_data == [0u32, 0u32],
            forall|k: int| 0 <= k < 25 ==> #[trigger] r.board.height(k) == self.heights@[k],
    {
        broadcast use group_bit_lemmas;

        let e = BitBoard::empty();
        let mut board = BoardState {
            current_player: self.current_player,
            workers: [self.p1_workers, self.p2_workers],
            height_map: [e, e, e, e],
            god_data: [0, 0],
            winner: None,
        };
        let mut sq: u8 = 0;
        while sq < 25
            invariant
                sq <= 25,
                self.wf(),
                board.wf(),
                board.workers == [self.p1_workers, self.p2_workers],
                board.current_player == self.current_player,
                board.winner is None,
                board.god_data == [0u32, 0u32],
                forall|k: int| 0 <= k < sq ==> #[trigger] board.height(k) == self.heights@[k],
                forall|k: int| sq <= k < 32 ==> #[trigger] board.height(k) == 0,
            decreases 25 - sq,
        {
            let target = self.heights[sq as usize];
            let mut h: u8 = 0;
            while h < target
                invariant
                    h <= target,
                    target <= 4,
                    sq < 25,
                    board.wf(),
                    board.workers == [self.p1_workers, self.p2_workers],
                    board.current_player == self.current_player,
                    board.winner is None,
                    board.god_data == [0u32, 0u32],
                    board.height(sq as int) == h,
                    forall|k: int| 0 <= k < sq ==> #[trigger] board.height(k) == self.heights@[k],
                    forall|k: int| sq < k < 32 ==> #[trigger] board.height(k) == 0,
                decreases target - h,
            {
                board.build_up(sq);
                h = h + 1;
            }
            sq = sq + 1;
        }
        FullGameState { board, gods: self.gods }
    }
}

/// The two gods of a game.
#[derive(Clone, Copy, PartialEq, Eq, Debug)]
pub struct Matchup {
    pub god_1: GodName,
    pub god_2: GodName,
}

impl Matchup {
    pub fn new(god_1: GodName, god_2: GodName) -> (r: Matchup)
        ensures
            r.god_1 == god_1,
            r.god_2 == god_2,
    {
        Matchup { god_1, god_2 }
    }
}

/// Pairs of gods that cannot meet: Hydra grows more workers than Odysseus' power can name.
pub open spec fn is_banned_pair(a: GodName, b: GodName) -> bool {
    (a == GodName::Odysseus && b == GodName::Hydra) || (a == GodName::Hydra && b == GodName::Odysseus)
}

/// Whether the matchup cannot be played.
pub fn is_matchup_banned(matchup: &Matchup) -> (r: bool)
    ensures
        r == is_banned_pair(matchup.god_1, matchup.god_2),
{
    match (matchup.god_1, matchup.god_2) {
        (GodName::Odysseus, GodName::Hydra) | (GodName::Hydra, GodName::Odysseus) => true,
        _ => false,
    }
}

} // verus!
