use vstd::prelude::*;

use crate::bitboard::BitBoard;
use crate::board::{FullGameState, Player};
use crate::game::FullChoice;
use crate::generic::{is_winning_data, ScoredMove, INCLUDE_SCORE, MATE_ONLY};
use crate::gods::mortal::lists_word;

verus! {

/// Which agreement between the move generators failed.
#[derive(Clone, Copy, PartialEq, Eq, Debug)]
pub enum ConsistencyError {
    /// A god of the position is not one whose moves this library generates.
    UnsupportedGod,
    /// The same move was generated twice.
    DuplicateMove,
    /// Scoring the moves changed which moves there are.
    ScoredMovesDiffer,
    /// The mate-only generator disagrees with the winning moves of the full one.
    MateMovesDiffer,
    /// A move's resulting position disagrees with whether the move wins.
    WinnerMismatch,
}

/// No move word occurs twice.
pub open spec fn no_duplicates(moves: Seq<ScoredMove>) -> bool {
    forall|i: int, j: int| 0 <= i < j < moves.len() ==> #[trigger] moves[i].action.0 != #[trigger] moves[j].action.0
}

pub open spec fn has_action(moves: Seq<ScoredMove>, action: u32) -> bool {
    exists|j: int| 0 <= j < moves.len() && #[trigger] moves[j].action.0 == action
}

/// Both lists hold the same moves, as many of them.
pub open spec fn same_actions(a: Seq<ScoredMove>, b: Seq<ScoredMove>) -> bool {
    &&& a.len() == b.len()
    &&& forall|i: int| 0 <= i < a.len() ==> #[trigger] has_action(b, a[i].action.0)
    &&& forall|j: int| 0 <= j < b.len() ==> #[trigger] has_action(a, b[j].action.0)
}

/// The mate-only list is exactly the winning moves of the full list.
pub open spec fn mate_moves_match(all: Seq<ScoredMove>, mate: Seq<ScoredMove>) -> bool {
    &&& forall|i: int| 0 <= i < mate.len() ==> is_winning_data(#[trigger] mate[i].action.0) && has_action(all, mate[i].action.0)
    &&& forall|j: int| 0 <= j < all.len() && is_winning_data(#[trigger] all[j].action.0) ==> has_action(mate, all[j].action.0)
}

/// A winning move makes the mover the winner, and no other move settles the game.
pub open spec fn winners_match(state: FullGameState, choices: Seq<FullChoice>) -> bool {
    forall|k: int|
        0 <= k < choices.len() ==> (if is_winning_data(#[trigger] choices[k].action.0) {
            choices[k].state.board.winner == Some(state.board.current_player)
        } else {
            choices[k].state.board.winner == state.board.winner
        })
}

/// Checks that the move generators of a position agree with each other.
pub struct ConsistencyChecker {
    pub state: FullGameState,
    /// Every move of the player to act.
    pub all_moves: Vec<ScoredMove>,
    /// The same, with ordering scores.
    pub scored_moves: Vec<ScoredMove>,
    /// Only the winning moves.
    pub mate_moves: Vec<ScoredMove>,
    /// Every move with the position it leads to.
    pub choices: Vec<FullChoice>,
}

impl ConsistencyChecker {
    /// The lists are what the generators of the position give, as far as their contracts say:
    /// each holds only legal turns of the god to act; the full and the scored lists hold every turn
    /// that god owes, for the gods shown to list every turn they owe; every choice is a legal turn
    /// with the position it leads to, and every owed turn has a choice.
    pub open spec fn lists_from_generators(self) -> bool {
        let state = self.state;
        let p = state.board.current_player;
        let god = state.gods[p.idx()];
        &&& forall|k: int| 0 <= k < self.all_moves@.len() ==> #[trigger] god.is_legal_turn(state, p, self.all_moves@[k].action.0)
        &&& forall|k: int| 0 <= k < self.scored_moves@.len() ==> #[trigger] god.is_legal_turn(state, p, self.scored_moves@[k].action.0)
        &&& forall|k: int| 0 <= k < self.mate_moves@.len() ==> #[trigger] god.is_legal_turn(state, p, self.mate_moves@[k].action.0)
        &&& god.lists_every_turn() ==> forall|data: u32| #[trigger] god.turn_owed(state, p, data) ==> lists_word(self.all_moves@, data)
            && lists_word(self.scored_moves@, data)
        &&& forall|k: int| 0 <= k < self.choices@.len() ==> #[trigger] state.reached_by_turn(
            self.choices@[k].state.board,
            self.choices@[k].action.0,
        )
        &&& god.lists_every_turn() ==> forall|data: u32| #[trigger] god.turn_owed(state, p, data) ==> exists|k: int|
            0 <= k < self.choices@.len() && #[trigger] self.choices@[k].action.0 == data
    }

    /// Every check passes on the lists: no move repeats, scoring keeps the moves, mate-only
    /// generation gives exactly the winning moves, and each choice's winner agrees with its move.
    pub open spec fn checks_pass(self) -> bool {
        &&& no_duplicates(self.all_moves@)
        &&& same_actions(self.all_moves@, self.scored_moves@)
        &&& mate_moves_match(self.all_moves@, self.mate_moves@)
        &&& winners_match(self.state, self.choices@)
    }

    pub fn new(state: &FullGameState) -> (r: ConsistencyChecker)
        ensures
            r.state == *state,
            r.all_moves@.len() == 0,
            r.scored_moves@.len() == 0,
            r.mate_moves@.len() == 0,
            r.choices@.len() == 0,
    {
        ConsistencyChecker {
            state: *state,
            all_moves: Vec::new(),
            scored_moves: Vec::new(),
            mate_moves: Vec::new(),
            choices: Vec::new(),
        }
    }

    /// Generates the moves of the player to act in every way, then checks, in this order, that
    /// the gods are supported, that no move repeats, that scoring keeps the moves, that mate-only
    /// generation finds exactly the winning moves, and that the winners of the resulting
    /// positions match.
    pub fn perform_all_validations(&mut self) -> (r: Result<(), ConsistencyError>)
        requires
            old(self).state.board.wf(),
        ensures
            final(self).state == old(self).state,
            !old(self).state.playable() ==> r == Err::<(), ConsistencyError>(ConsistencyError::UnsupportedGod),
            old(self).state.playable() ==> (r is Ok <==> (no_duplicates(final(self).all_moves@) && same_actions(
                final(self).all_moves@,
                final(self).scored_moves@,
            ) && mate_moves_match(final(self).all_moves@, final(self).mate_moves@) && winners_match(
                final(self).state,
                final(self).choices@,
            ))),
            r == Err::<(), ConsistencyError>(ConsistencyError::DuplicateMove) ==> !no_duplicates(final(self).all_moves@),
            r == Err::<(), ConsistencyError>(ConsistencyError::ScoredMovesDiffer) ==> !same_actions(
                final(self).all_moves@,
                final(self).scored_moves@,
            ),
            r == Err::<(), ConsistencyError>(ConsistencyError::MateMovesDiffer) ==> !mate_moves_match(
                final(self).all_moves@,
                final(self).mate_moves@,
            ),
            r != Err::<(), ConsistencyError>(ConsistencyError::WinnerMismatch),
            old(self).state.playable() ==> winners_match(final(self).state, final(self).choices@),
            old(self).state.playable() ==> final(self).lists_from_generators(),
            old(self).state.playable() ==> (r is Ok <==> final(self).checks_pass()),
    {
        if !self.state.is_playable() {
            return Err(ConsistencyError::UnsupportedGod);
        }
        let state = self.state;
        let player = state.board.current_player;
        let god = state.gods[player.index()];
        self.all_moves = god.get_moves(0, &state, player, BitBoard::main_section());
        self.scored_moves = god.get_moves(INCLUDE_SCORE, &state, player, BitBoard::main_section());
        self.mate_moves = god.get_moves(MATE_ONLY, &state, player, BitBoard::main_section());
        self.choices = state.get_next_states_interactive();
        proof {
            crate::generic::lemma_no_flags(0);
            assert forall|k: int| 0 <= k < self.choices@.len() implies #[trigger] state.reached_by_turn(
                self.choices@[k].state.board,
                self.choices@[k].action.0,
            ) by {
                assert(state.gods[player.idx()].is_legal_turn(state, player, self.choices@[k].action.0));
            }
        }
        if !all_distinct(&self.all_moves) {
            return Err(ConsistencyError::DuplicateMove);
        }
        if !(self.all_moves.len() == self.scored_moves.len() && all_found_in(&self.all_moves, &self.scored_moves)
            && all_found_in(&self.scored_moves, &self.all_moves)) {
            return Err(ConsistencyError::ScoredMovesDiffer);
        }
        if !(mate_moves_found(&self.all_moves, &self.mate_moves) && winning_moves_found(&self.all_moves, &self.mate_moves)) {
            return Err(ConsistencyError::MateMovesDiffer);
        }
        if !winners_agree(&state, &self.choices) {
            return Err(ConsistencyError::WinnerMismatch);
        }
        Ok(())
    }
}

/// Whether some move of the list has this word.
pub fn find_action(moves: &Vec<ScoredMove>, action: u32) -> (r: bool)
    ensures
        r == has_action(moves@, action),
{
    let mut j: usize = 0;
    while j < moves.len()
        invariant
            j <= moves@.len(),
            forall|k: int| 0 <= k < j ==> #[trigger] moves@[k].action.0 != action,
        decreases moves@.len() - j,
    {
        if moves[j].action.0 == action {
            return true;
        }
        j = j + 1;
    }
    false
}

/// Whether no move word occurs twice.
pub fn all_distinct(moves: &Vec<ScoredMove>) -> (r: bool)
    ensures
        r == no_duplicates(moves@),
{
    let mut i: usize = 0;
    while i < moves.len()
        invariant
            i <= moves@.len(),
            forall|a: int, b: int| 0 <= a < i && a < b < moves@.len() ==> #[trigger] moves@[a].action.0 != #[trigger] moves@[b].action.0,
        decreases moves@.len() - i,
    {
        let mut j: usize = i + 1;
        while j < moves.len()
            invariant
                i < moves@.len(),
                i + 1 <= j <= moves@.len(),
                forall|a: int, b: int| 0 <= a < i && a < b < moves@.len() ==> #[trigger] moves@[a].action.0 != #[trigger] moves@[b].action.0,
                forall|b: int| i < b < j ==> moves@[i as int].action.0 != #[trigger] moves@[b].action.0,
            decreases moves@.len() - j,
        {
            if moves[i].action.0 == moves[j].action.0 {
                return false;
            }
            j = j + 1;
        }
        i = i + 1;
    }
    true
}

/// Whether every move of `a` occurs in `b`.
pub fn all_found_in(a: &Vec<ScoredMove>, b: &Vec<ScoredMove>) -> (r: bool)
    ensures
        r == (forall|i: int| 0 <= i < a@.len() ==> #[trigger] has_action(b@, a@[i].action.0)),
{
    let mut i: usize = 0;
    while i < a.len()
        invariant
            i <= a@.len(),
            forall|k: int| 0 <= k < i ==> #[trigger] has_action(b@, a@[k].action.0),
        decreases a@.len() - i,
    {
        if !find_action(b, a[i].action.0) {
            return false;
        }
        i = i + 1;
    }
    true
}

/// Whether every move of the mate-only list wins and occurs in the full list.
pub fn mate_moves_found(all: &Vec<ScoredMove>, mate: &Vec<ScoredMove>) -> (r: bool)
    ensures
        r == (forall|i: int| 0 <= i < mate@.len() ==> is_winning_data(#[trigger] mate@[i].action.0) && has_action(all@, mate@[i].action.0)),
{
    let mut i: usize = 0;
    while i < mate.len()
        invariant
            i <= mate@.len(),
            forall|k: int| 0 <= k < i ==> is_winning_data(#[trigger] mate@[k].action.0) && has_action(all@, mate@[k].action.0),
        decreases mate@.len() - i,
    {
        if !mate[i].get_is_winning() || !find_action(all, mate[i].action.0) {
            return false;
        }
        i = i + 1;
    }
    true
}

/// Whether every winning move of the full list occurs in the mate-only list.
pub fn winning_moves_found(all: &Vec<ScoredMove>, mate: &Vec<ScoredMove>) -> (r: bool)
    ensures
        r == (forall|j: int| 0 <= j < all@.len() && is_winning_data(#[trigger] all@[j].action.0) ==> has_action(mate@, all@[j].action.0)),
{
    let mut j: usize = 0;
    while j < all.len()
        invariant
            j <= all@.len(),
            forall|k: int| 0 <= k < j && is_winning_data(#[trigger] all@[k].action.0) ==> has_action(mate@, all@[k].action.0),
        decreases all@.len() - j,
    {
        if all[j].get_is_winning() && !find_action(mate, all[j].action.0) {
            return false;
        }
        j = j + 1;
    }
    true
}

/// Whether every resulting position has the winner its move calls for.
pub fn winners_agree(state: &FullGameState, choices: &Vec<FullChoice>) -> (r: bool)
    ensures
        r == winners_match(*state, choices@),
{
    let player = state.board.current_player;
    let mut k: usize = 0;
    while k < choices.len()
        invariant
            k <= choices@.len(),
            player == state.board.current_player,
            forall|i: int|
                0 <= i < k ==> (if is_winning_data(#[trigger] choices@[i].action.0) {
                    choices@[i].state.board.winner == Some(state.board.current_player)
                } else {
                    choices@[i].state.board.winner == state.board.winner
                }),
        decreases choices@.len() - k,
    {
        let choice = choices[k];
        let ok = if choice.action.get_is_winning() {
            match choice.state.board.winner {
                Some(p) => p == player,
                None => false,
            }
        } else {
            match (choice.state.board.winner, state.board.winner) {
                (None, None) => true,
                (Some(a), Some(b)) => a == b,
                _ => false,
            }
        };
        if !ok {
            return false;
        }
        k = k + 1;
    }
    true
}

/// Runs every check on the position.
pub fn consistency_check(state: &FullGameState) -> (r: Result<(), ConsistencyError>)
    requires
        state.board.wf(),
    ensures
        !state.playable() ==> r == Err::<(), ConsistencyError>(ConsistencyError::UnsupportedGod),
        state.playable() ==> exists|c: ConsistencyChecker|
            c.state == *state && #[trigger] c.lists_from_generators() && (r is Ok <==> c.checks_pass()),
{
    let mut checker = ConsistencyChecker::new(state);
    let r = checker.perform_all_validations();
    proof {
        if state.playable() {
            assert(checker.lists_from_generators());
        }
    }
    r
}

} // verus!
