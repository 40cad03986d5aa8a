use vstd::prelude::*;

use crate::bitboard::{bit, group_bit_lemmas, lemma_main_section, BitBoard, MAIN_SECTION};
use crate::gods::GodName;
use crate::square::{is_square, Square};

verus! {

/// One of the two sides.
#[derive(Clone, Copy, PartialEq, Eq, Structural, Debug, Hash)]
pub enum Player {
    One,
    Two,
}

impl Player {
    /// 0 for the first player, 1 for the second.
    pub open spec fn idx(self) -> int {
        match self {
            Player::One => 0,
            Player::Two => 1,
        }
    }

    pub fn index(self) -> (r: usize)
        ensures
            r == self.idx(),
            r < 2,
    {
        match self {
            Player::One => 0,
            Player::Two => 1,
        }
    }

    /// The opponent.
    pub fn other(self) -> (r: Player)
        ensures
            r.idx() == 1 - self.idx(),
            r != self,
    {
        match self {
            Player::One => Player::Two,
            Player::Two => Player::One,
        }
    }
}

/// Per-god state word, stored for each player.
pub type GodData = u32;

/// The pieces on the board.
///
/// `height_map[k]` holds the squares built at least `k + 1` levels high, so a square's height is
/// the number of layers that hold it, and a dome is the fourth layer.
#[derive(Clone, Copy, PartialEq, Eq, Debug, Hash)]
pub struct BoardState {
    pub current_player: Player,
    pub workers: [BitBoard; 2],
    pub height_map: [BitBoard; 4],
    pub god_data: [GodData; 2],
    pub winner: Option<Player>,
}

impl BoardState {
    /// The height of a square: how many levels stand on it (4 is a dome).
    pub open spec fn height(self, sq: int) -> nat {
        if self.height_map[3].has(sq) {
            4
        } else if self.height_map[2].has(sq) {
            3
        } else if self.height_map[1].has(sq) {
            2
        } else if self.height_map[0].has(sq) {
            1
        } else {
            0
        }
    }

    /// Whether the square holds a worker of the player with this index.
    pub open spec fn has_worker(self, p: int, sq: int) -> bool {
        self.workers[p].has(sq)
    }

    /// The same board with `p` to act.
    pub open spec fn with_turn(self, p: Player) -> BoardState {
        BoardState { current_player: p, ..self }
    }

    /// Whether the square holds any worker.
    pub open spec fn occupied(self, sq: int) -> bool {
        self.workers[0].has(sq) || self.workers[1].has(sq)
    }

    /// Layers only hold squares of the board and each layer rests on the one below.
    pub open spec fn layers_wf(self) -> bool {
        &&& forall|i: int| #[trigger] self.height_map[1].has(i) ==> self.height_map[0].has(i)
        &&& forall|i: int| #[trigger] self.height_map[2].has(i) ==> self.height_map[1].has(i)
        &&& forall|i: int| #[trigger] self.height_map[3].has(i) ==> self.height_map[2].has(i)
        &&& self.height_map[0].within_board()
        &&& self.height_map[1].within_board()
        &&& self.height_map[2].within_board()
        &&& self.height_map[3].within_board()
    }

    /// Layers only hold squares of the board and each layer rests on the one below; workers stand
    /// on the board and never share a square.
    pub open spec fn wf(self) -> bool {
        &&& forall|i: int| #[trigger] self.height_map[1].has(i) ==> self.height_map[0].has(i)
        &&& forall|i: int| #[trigger] self.height_map[2].has(i) ==> self.height_map[1].has(i)
        &&& forall|i: int| #[trigger] self.height_map[3].has(i) ==> self.height_map[2].has(i)
        &&& self.height_map[0].within_board()
        &&& self.height_map[1].within_board()
        &&& self.height_map[2].within_board()
        &&& self.height_map[3].within_board()
        &&& self.workers[0].within_board()
        &&& self.workers[1].within_board()
        &&& forall|i: int| !(#[trigger] self.workers[0].has(i) && self.workers[1].has(i))
    }

    /// An empty, unbuilt board with the first player to move.
    pub fn new() -> (r: BoardState)
        ensures
            r.wf(),
            r.current_player == Player::One,
            r.winner is None,
            r.god_data[0] == 0 && r.god_data[1] == 0,
            forall|i: int| !#[trigger] r.occupied(i),
            forall|i: int| #[trigger] r.height(i) == 0,
    {
        broadcast use group_bit_lemmas;

        let e = BitBoard::empty();
        BoardState {
            current_player: Player::One,
            workers: [e, e],
            height_map: [e, e, e, e],
            god_data: [0, 0],
            winner: None,
        }
    }

    pub fn get_height(&self, sq: Square) -> (r: usize)
        requires
            sq < 32,
        ensures
            r == self.height(sq as int),
            r <= 4,
    {
        if self.height_map[3].contains_square(sq) {
            4
        } else if self.height_map[2].contains_square(sq) {
            3
        } else if self.height_map[1].contains_square(sq) {
            2
        } else if self.height_map[0].contains_square(sq) {
            1
        } else {
            0
        }
    }

    /// Squares of the board with nothing built on them.
    pub fn exactly_level_0(&self) -> (r: BitBoard)
        ensures
            r.0 == MAIN_SECTION & !self.height_map[0].0,
            self.wf() ==> forall|i: int| #[trigger] r.has(i) == (is_square(i) && self.height(i) == 0),
    {
        broadcast use lemma_main_section;

        let r = BitBoard::main_section().minus(self.height_map[0]);
        proof {
            if self.wf() {
                assert forall|i: int| #[trigger] r.has(i) == (is_square(i) && self.height(i) == 0) by {
                    if is_square(i) && !self.height_map[0].has(i) {
                        assert(!self.height_map[1].has(i));
                        assert(!self.height_map[2].has(i));
                    }
                }
            }
        }
        r
    }

    pub fn exactly_level_1(&self) -> (r: BitBoard)
        ensures
            r.0 == self.height_map[0].0 & !self.height_map[1].0,
            self.wf() ==> forall|i: int| #[trigger] r.has(i) == (is_square(i) && self.height(i) == 1),
    {
        let r = self.height_map[0].minus(self.height_map[1]);
        proof {
            if self.wf() {
                assert forall|i: int| #[trigger] r.has(i) == (is_square(i) && self.height(i) == 1) by {
                    if self.height_map[0].has(i) && !self.height_map[1].has(i) {
                        assert(!self.height_map[2].has(i));
                        assert(self.height_map[0].within_board());
                    }
                }
            }
        }
        r
    }

    pub fn exactly_level_2(&self) -> (r: BitBoard)
        ensures
            r.0 == self.height_map[1].0 & !self.height_map[2].0,
            self.wf() ==> forall|i: int| #[trigger] r.has(i) == (is_square(i) && self.height(i) == 2),
    {
        let r = self.height_map[1].minus(self.height_map[2]);
        proof {
            if self.wf() {
                assert forall|i: int| #[trigger] r.has(i) == (is_square(i) && self.height(i) == 2) by {
                    if self.height_map[1].has(i) && !self.height_map[2].has(i) {
                        assert(!self.height_map[3].has(i));
                        assert(self.height_map[1].within_board());
                    }
                }
            }
        }
        r
    }

    pub fn exactly_level_3(&self) -> (r: BitBoard)
        ensures
            r.0 == self.height_map[2].0 & !self.height_map[3].0,
            self.wf() ==> forall|i: int| #[trigger] r.has(i) == (is_square(i) && self.height(i) == 3),
    {
        let r = self.height_map[2].minus(self.height_map[3]);
        proof {
            if self.wf() {
                assert forall|i: int| #[trigger] r.has(i) == (is_square(i) && self.height(i) == 3) by {
                    if self.height_map[2].has(i) {
                        assert(self.height_map[1].has(i));
                        assert(self.height_map[2].within_board());
                    }
                }
            }
        }
        r
    }

    /// Domed squares.
    pub fn at_least_level_4(&self) -> (r: BitBoard)
        ensures
            r == self.height_map[3],
            self.wf() ==> forall|i: int| #[trigger] r.has(i) == (is_square(i) && self.height(i) == 4),
    {
        proof {
            if self.wf() {
                assert forall|i: int| #[trigger] self.height_map[3].has(i) == (is_square(i) && self.height(i) == 4) by {
                    if self.height_map[3].has(i) {
                        assert(self.height_map[3].within_board());
                    }
                }
            }
        }
        self.height_map[3]
    }

    /// Squares of exactly height `n`, for `n` up to 3.
    pub fn exactly_level_n(&self, n: usize) -> (r: BitBoard)
        requires
            n <= 3,
        ensures
            self.wf() ==> forall|i: int| #[trigger] r.has(i) == (is_square(i) && self.height(i) == n),
    {
        if n == 0 {
            self.exactly_level_0()
        } else if n == 1 {
            self.exactly_level_1()
        } else if n == 2 {
            self.exactly_level_2()
        } else {
            self.exactly_level_3()
        }
    }

    /// Toggles the squares of `mask` in the player's workers: moving a worker is toggling its
    /// start and end squares.
    pub fn worker_xor(&mut self, player: Player, mask: BitBoard)
        ensures
            final(self).workers[player.idx()].0 == old(self).workers[player.idx()].0 ^ mask.0,
            final(self).workers[1 - player.idx()] == old(self).workers[1 - player.idx()],
            final(self).height_map == old(self).height_map,
            final(self).god_data == old(self).god_data,
            final(self).winner == old(self).winner,
            final(self).current_player == old(self).current_player,
    {
        let p = player.index();
        let updated = self.workers[p].xor(mask);
        if p == 0 {
            self.workers = [updated, self.workers[1]];
        } else {
            self.workers = [self.workers[0], updated];
        }
    }

    /// Adds one level on a square.
    pub fn build_up(&mut self, sq: Square)
        requires
            sq < 25,
            old(self).height(sq as int) < 4,
        ensures
            forall|i: int| i != sq ==> #[trigger] final(self).height(i) == old(self).height(i),
            final(self).height(sq as int) == old(self).height(sq as int) + 1,
            old(self).wf() ==> final(self).wf(),
            old(self).layers_wf() ==> final(self).layers_wf(),
            final(self).workers == old(self).workers,
            final(self).god_data == old(self).god_data,
            final(self).winner == old(self).winner,
            final(self).current_player == old(self).current_player,
    {
        let h = self.get_height(sq);
        let mask = BitBoard::as_mask(sq);
        let ghost old_board = *self;
        if h == 0 {
            self.height_map = [self.height_map[0].or(mask), self.height_map[1], self.height_map[2], self.height_map[3]];
        } else if h == 1 {
            self.height_map = [self.height_map[0], self.height_map[1].or(mask), self.height_map[2], self.height_map[3]];
        } else if h == 2 {
            self.height_map = [self.height_map[0], self.height_map[1], self.height_map[2].or(mask), self.height_map[3]];
        } else {
            self.height_map = [self.height_map[0], self.height_map[1], self.height_map[2], self.height_map[3].or(mask)];
        }
        proof {
            if old_board.wf() {
            }
        }
    }

    /// Fills a square up to a dome, whatever its height.
    pub fn dome_up(&mut self, sq: Square)
        requires
            sq < 25,
        ensures
            forall|i: int| i != sq ==> #[trigger] final(self).height(i) == old(self).height(i),
            final(self).height(sq as int) == 4,
            old(self).wf() ==> final(self).wf(),
            final(self).workers == old(self).workers,
            final(self).god_data == old(self).god_data,
            final(self).winner == old(self).winner,
            final(self).current_player == old(self).current_player,
    {
        let mask = BitBoard::as_mask(sq);
        self.height_map = [
            self.height_map[0].or(mask),
            self.height_map[1].or(mask),
            self.height_map[2].or(mask),
            self.height_map[3].or(mask),
        ];
    }

    /// Takes every level off a square, leaving it at ground level.
    pub fn raze(&mut self, sq: Square)
        requires
            sq < 25,
        ensures
            forall|i: int| i != sq ==> #[trigger] final(self).height(i) == old(self).height(i),
            final(self).height(sq as int) == 0,
            old(self).wf() ==> final(self).wf(),
            final(self).workers == old(self).workers,
            final(self).god_data == old(self).god_data,
            final(self).winner == old(self).winner,
            final(self).current_player == old(self).current_player,
    {
        let mask = BitBoard::as_mask(sq);
        self.height_map = [
            self.height_map[0].minus(mask),
            self.height_map[1].minus(mask),
            self.height_map[2].minus(mask),
            self.height_map[3].minus(mask),
        ];
    }

    pub fn set_god_data(&mut self, player: Player, data: GodData)
        ensures
            final(self).god_data[player.idx()] == data,
            final(self).god_data[1 - player.idx()] == old(self).god_data[1 - player.idx()],
            final(self).workers == old(self).workers,
            final(self).height_map == old(self).height_map,
            final(self).winner == old(self).winner,
            final(self).current_player == old(self).current_player,
    {
        if player.index() == 0 {
            self.god_data = [data, self.god_data[1]];
        } else {
            self.god_data = [self.god_data[0], data];
        }
    }

    pub fn set_winner(&mut self, player: Player)
        ensures
            final(self).winner == Some(player),
            final(self).workers == old(self).workers,
            final(self).height_map == old(self).height_map,
            final(self).god_data == old(self).god_data,
            final(self).current_player == old(self).current_player,
    {
        self.winner = Some(player);
    }

    pub fn get_winner(&self) -> (r: Option<Player>)
        ensures
            r == self.winner,
    {
        self.winner
    }

    /// Hands the turn to the other player.
    pub fn flip_current_player(&mut self)
        ensures
            final(self).current_player == old(self).current_player.other_spec(),
            final(self).workers == old(self).workers,
            final(self).height_map == old(self).height_map,
            final(self).god_data == old(self).god_data,
            final(self).winner == old(self).winner,
    {
        self.current_player = self.current_player.other();
    }
}

/// A position: the board and the god each player plays.
#[derive(Clone, Copy, PartialEq, Eq, Debug, Hash)]
pub struct FullGameState {
    pub board: BoardState,
    pub gods: [GodName; 2],
}

impl Player {
    pub open spec fn other_spec(self) -> Player {
        match self {
            Player::One => Player::Two,
            Player::Two => Player::One,
        }
    }
}

} // verus!
