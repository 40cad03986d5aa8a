use vstd::prelude::*;

use crate::bitboard::{group_bit_lemmas, BitBoard};
use crate::board::{BoardState, Player};
use crate::game::FullChoice;
use crate::square::Square;

verus! {

/// A description of positions, matched against the positions a move list leads to.
#[derive(Clone, Debug)]
pub struct MoveVerifier {
    pub p1_workers_at: BitBoard,
    pub p1_workers_not_at: BitBoard,
    pub p2_workers_at: BitBoard,
    pub p2_workers_not_at: BitBoard,
    pub heights_at: Vec<(Square, usize)>,
    pub winner: Option<Player>,
    /// Whether the game must still be undecided.
    pub no_winner: bool,
}

impl MoveVerifier {
    /// Whether a board fits the description.
    pub open spec fn matches_spec(self, board: BoardState) -> bool {
        &&& forall|i: int| #[trigger] self.p1_workers_at.has(i) ==> board.workers[0].has(i)
        &&& forall|i: int| #[trigger] self.p1_workers_not_at.has(i) ==> !board.workers[0].has(i)
        &&& forall|i: int| #[trigger] self.p2_workers_at.has(i) ==> board.workers[1].has(i)
        &&& forall|i: int| #[trigger] self.p2_workers_not_at.has(i) ==> !board.workers[1].has(i)
        &&& forall|k: int| 0 <= k < self.heights_at@.len() ==> board.height(#[trigger] self.heights_at@[k].0 as int)
            == self.heights_at@[k].1
        &&& (self.winner matches Some(p) ==> board.winner == Some(p))
        &&& (self.no_winner ==> board.winner is None)
    }

    pub fn new() -> (r: MoveVerifier)
        ensures
            r.p1_workers_at.0 == 0,
            r.p1_workers_not_at.0 == 0,
            r.p2_workers_at.0 == 0,
            r.p2_workers_not_at.0 == 0,
            r.heights_at@.len() == 0,
            r.winner is None,
            !r.no_winner,
    {
        MoveVerifier {
            p1_workers_at: BitBoard::empty(),
            p1_workers_not_at: BitBoard::empty(),
            p2_workers_at: BitBoard::empty(),
            p2_workers_not_at: BitBoard::empty(),
            heights_at: Vec::new(),
            winner: None,
            no_winner: false,
        }
    }

    pub fn with_p1_worker_at(self, sq: Square) -> (r: MoveVerifier)
        requires
            sq < 25,
        ensures
            r.p1_workers_at.0 == self.p1_workers_at.0 | (1u32 << sq),
    {
        MoveVerifier { p1_workers_at: self.p1_workers_at.or(BitBoard::as_mask(sq)), ..self }
    }

    pub fn without_p1_worker_at(self, sq: Square) -> (r: MoveVerifier)
        requires
            sq < 25,
        ensures
            r.p1_workers_not_at.0 == self.p1_workers_not_at.0 | (1u32 << sq),
    {
        MoveVerifier { p1_workers_not_at: self.p1_workers_not_at.or(BitBoard::as_mask(sq)), ..self }
    }

    pub fn with_p2_worker_at(self, sq: Square) -> (r: MoveVerifier)
        requires
            sq < 25,
        ensures
            r.p2_workers_at.0 == self.p2_workers_at.0 | (1u32 << sq),
    {
        MoveVerifier { p2_workers_at: self.p2_workers_at.or(BitBoard::as_mask(sq)), ..self }
    }

    pub fn without_p2_worker_at(self, sq: Square) -> (r: MoveVerifier)
        requires
            sq < 25,
        ensures
            r.p2_workers_not_at.0 == self.p2_workers_not_at.0 | (1u32 << sq),
    {
        MoveVerifier { p2_workers_not_at: self.p2_workers_not_at.or(BitBoard::as_mask(sq)), ..self }
    }

    pub fn with_height_at(self, sq: Square, height: usize) -> (r: MoveVerifier)
        requires
            sq < 25,
        ensures
            r.heights_at@ == self.heights_at@.push((sq, height)),
    {
        let mut s = self;
        s.heights_at.push((sq, height));
        s
    }

    pub fn is_winner(self, player: Player) -> (r: MoveVerifier)
        ensures
            r.winner == Some(player),
    {
        MoveVerifier { winner: Some(player), ..self }
    }

    /// Asks for a position where nobody has won.
    pub fn no_winner(self) -> (r: MoveVerifier)
        ensures
            r.no_winner,
            r.winner == self.winner,
    {
        MoveVerifier { no_winner: true, ..self }
    }

    /// Whether a board fits the description.
    pub fn matches(&self, board: &BoardState) -> (r: bool)
        ensures
            r == self.matches_spec(*board),
    {
        broadcast use group_bit_lemmas;

        let m1 = self.p1_workers_at.minus(board.workers[0]);
        let m2 = self.p1_workers_not_at.and(board.workers[0]);
        let m3 = self.p2_workers_at.minus(board.workers[1]);
        let m4 = self.p2_workers_not_at.and(board.workers[1]);
        let r1 = m1.is_empty();
        let r2 = m2.is_empty();
        let r3 = m3.is_empty();
        let r4 = m4.is_empty();
        let mut heights_ok = true;
        let mut k: usize = 0;
        while k < self.heights_at.len()
            invariant
                k <= self.heights_at@.len(),
                heights_ok == forall|j: int| 0 <= j < k ==> board.height(#[trigger] self.heights_at@[j].0 as int)
                    == self.heights_at@[j].1,
            decreases self.heights_at@.len() - k,
        {
            let (sq, h) = self.heights_at[k];
            let actual = if sq < 32 { board.get_height(sq) } else { 0 };
            if actual != h {
                heights_ok = false;
            }
            k = k + 1;
        }
        let winner_ok = match self.winner {
            Some(p) => match board.winner {
                Some(q) => q == p,
                None => false,
            },
            None => true,
        };
        let undecided_ok = !self.no_winner || board.winner.is_none();
        proof {
            if r1 {
                assert forall|i: int| #[trigger] self.p1_workers_at.has(i) implies board.workers[0].has(i) by {
                    assert(!m1.has(i));
                }
            }
            if r2 {
                assert forall|i: int| #[trigger] self.p1_workers_not_at.has(i) implies !board.workers[0].has(i) by {
                    assert(!m2.has(i));
                }
            }
            if r3 {
                assert forall|i: int| #[trigger] self.p2_workers_at.has(i) implies board.workers[1].has(i) by {
                    assert(!m3.has(i));
                }
            }
            if r4 {
                assert forall|i: int| #[trigger] self.p2_workers_not_at.has(i) implies !board.workers[1].has(i) by {
                    assert(!m4.has(i));
                }
            }
            if !r1 {
                let i = choose|i: int| #[trigger] m1.has(i);
                assert(self.p1_workers_at.has(i) && !board.workers[0].has(i));
            }
            if !r2 {
                let i = choose|i: int| #[trigger] m2.has(i);
                assert(self.p1_workers_not_at.has(i) && board.workers[0].has(i));
            }
            if !r3 {
                let i = choose|i: int| #[trigger] m3.has(i);
                assert(self.p2_workers_at.has(i) && !board.workers[1].has(i));
            }
            if !r4 {
                let i = choose|i: int| #[trigger] m4.has(i);
                assert(self.p2_workers_not_at.has(i) && board.workers[1].has(i));
            }
        }
        r1 && r2 && r3 && r4 && heights_ok && winner_ok && undecided_ok
    }

    /// Whether some position fits.
    pub fn any(&self, choices: &Vec<FullChoice>) -> (r: bool)
        ensures
            r == exists|k: int| 0 <= k < choices@.len() && self.matches_spec(#[trigger] choices@[k].state.board),
    {
        let mut i: usize = 0;
        while i < choices.len()
            invariant
                i <= choices@.len(),
                forall|k: int| 0 <= k < i ==> !self.matches_spec(#[trigger] choices@[k].state.board),
            decreases choices@.len() - i,
        {
            if self.matches(&choices[i].state.board) {
                return true;
            }
            i = i + 1;
        }
        false
    }

    /// Whether no position fits.
    pub fn none(&self, choices: &Vec<FullChoice>) -> (r: bool)
        ensures
            r == forall|k: int| 0 <= k < choices@.len() ==> !self.matches_spec(#[trigger] choices@[k].state.board),
    {
        !self.any(choices)
    }

    /// Whether every position fits.
    pub fn all(&self, choices: &Vec<FullChoice>) -> (r: bool)
        ensures
            r == forall|k: int| 0 <= k < choices@.len() ==> self.matches_spec(#[trigger] choices@[k].state.board),
    {
        let mut i: usize = 0;
        while i < choices.len()
            invariant
                i <= choices@.len(),
                forall|k: int| 0 <= k < i ==> self.matches_spec(#[trigger] choices@[k].state.board),
            decreases choices@.len() - i,
        {
            if !self.matches(&choices[i].state.board) {
                return false;
            }
            i = i + 1;
        }
        true
    }
}

} // verus!
