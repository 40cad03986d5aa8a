use vstd::prelude::*;

use crate::square::{is_adjacent, is_square, is_wrap_adjacent, squares_adjacent, squares_wrap_adjacent, Square};

verus! {

/// Whether bit `i` of `x` is set.
pub open spec fn bit(x: u32, i: u32) -> bool {
    (x >> i) & 1u32 == 1u32
}

/// The 25 bits that stand for the squares of the board.
pub const MAIN_SECTION: u32 = 0x1FF_FFFF;

/// The four corners: A5, E5, A1 and E1.
pub const CORNERS_MASK: u32 = 0b10001_00000_00000_00000_10001;

/// The outer ring of the board.
pub const PERIMETER_MASK: u32 = 0b11111_10001_10001_10001_11111;

proof fn lemma_bit_ops_bv(x: u32, y: u32, i: u32, s: u32)
    by (bit_vector)
    requires
        i < 32,
        s < 32,
    ensures
        ((x & y) >> i) & 1u32 == 1u32 <==> (((x >> i) & 1u32 == 1u32) && ((y >> i) & 1u32
            == 1u32)),
        ((x | y) >> i) & 1u32 == 1u32 <==> (((x >> i) & 1u32 == 1u32) || ((y >> i) & 1u32
            == 1u32)),
        ((x ^ y) >> i) & 1u32 == 1u32 <==> (((x >> i) & 1u32 == 1u32) != ((y >> i) & 1u32
            == 1u32)),
        ((!x) >> i) & 1u32 == 1u32 <==> !((x >> i) & 1u32 == 1u32),
        !(((0u32 >> i) & 1u32) == 1u32),
        ((1u32 << s) >> i) & 1u32 == 1u32 <==> i == s,
        (x & (1u32 << s)) != 0u32 <==> (x >> s) & 1u32 == 1u32,
{
}

pub broadcast proof fn lemma_bit_and(x: u32, y: u32, i: u32)
    requires
        i < 32,
    ensures
        #[trigger] bit(x & y, i) == (bit(x, i) && bit(y, i)),
{
    lemma_bit_ops_bv(x, y, i, 0);
}

pub broadcast proof fn lemma_bit_or(x: u32, y: u32, i: u32)
    requires
        i < 32,
    ensures
        #[trigger] bit(x | y, i) == (bit(x, i) || bit(y, i)),
{
    lemma_bit_ops_bv(x, y, i, 0);
}

pub broadcast proof fn lemma_bit_xor(x: u32, y: u32, i: u32)
    requires
        i < 32,
    ensures
        #[trigger] bit(x ^ y, i) == (bit(x, i) != bit(y, i)),
{
    lemma_bit_ops_bv(x, y, i, 0);
}

pub broadcast proof fn lemma_bit_not(x: u32, i: u32)
    requires
        i < 32,
    ensures
        #[trigger] bit(!x, i) == !bit(x, i),
{
    lemma_bit_ops_bv(x, 0, i, 0);
}

pub broadcast proof fn lemma_bit_zero(i: u32)
    requires
        i < 32,
    ensures
        !#[trigger] bit(0u32, i),
{
    lemma_bit_ops_bv(0, 0, i, 0);
}

pub broadcast proof fn lemma_bit_single(s: u32, i: u32)
    requires
        i < 32,
        s < 32,
    ensures
        #[trigger] bit(1u32 << s, i) == (i == s),
{
    lemma_bit_ops_bv(0, 0, i, s);
}

pub broadcast proof fn lemma_bit_test(x: u32, s: u32)
    requires
        s < 32,
    ensures
        (#[trigger] (x & (1u32 << s)) != 0u32) == bit(x, s),
{
    lemma_bit_ops_bv(x, 0, 0, s);
}

proof fn lemma_and_zero_bv(x: u32)
    by (bit_vector)
    ensures
        x & 0u32 == 0u32,
        0u32 & x == 0u32,
        x | 0u32 == x,
        x ^ 0u32 == x,
{
}

pub broadcast proof fn lemma_and_zero(x: u32)
    ensures
        #[trigger] (x & 0u32) == 0u32,
{
    lemma_and_zero_bv(x);
}

pub broadcast proof fn lemma_zero_and(x: u32)
    ensures
        #[trigger] (0u32 & x) == 0u32,
{
    lemma_and_zero_bv(x);
}

pub broadcast proof fn lemma_or_zero(x: u32)
    ensures
        #[trigger] (x | 0u32) == x,
{
    lemma_and_zero_bv(x);
}

pub broadcast proof fn lemma_xor_zero(x: u32)
    ensures
        #[trigger] (x ^ 0u32) == x,
{
    lemma_and_zero_bv(x);
}

pub broadcast group group_bit_lemmas {
    lemma_xor_zero,
    lemma_and_zero,
    lemma_zero_and,
    lemma_or_zero,
    lemma_bit_and,
    lemma_bit_or,
    lemma_bit_xor,
    lemma_bit_not,
    lemma_bit_zero,
    lemma_bit_single,
    lemma_bit_test,
}

proof fn lemma_nonzero_has_bit_bv(x: u32)
    by (bit_vector)
    ensures
        x != 0u32 ==> ((x >> 0u32) & 1u32 == 1u32 || (x >> 1u32) & 1u32 == 1u32 || (x >> 2u32)
            & 1u32 == 1u32 || (x >> 3u32) & 1u32 == 1u32 || (x >> 4u32) & 1u32 == 1u32 || (x
            >> 5u32) & 1u32 == 1u32 || (x >> 6u32) & 1u32 == 1u32 || (x >> 7u32) & 1u32 == 1u32
            || (x >> 8u32) & 1u32 == 1u32 || (x >> 9u32) & 1u32 == 1u32 || (x >> 10u32) & 1u32
            == 1u32 || (x >> 11u32) & 1u32 == 1u32 || (x >> 12u32) & 1u32 == 1u32 || (x >> 13u32)
            & 1u32 == 1u32 || (x >> 14u32) & 1u32 == 1u32 || (x >> 15u32) & 1u32 == 1u32 || (x
            >> 16u32) & 1u32 == 1u32 || (x >> 17u32) & 1u32 == 1u32 || (x >> 18u32) & 1u32
            == 1u32 || (x >> 19u32) & 1u32 == 1u32 || (x >> 20u32) & 1u32 == 1u32 || (x >> 21u32)
            & 1u32 == 1u32 || (x >> 22u32) & 1u32 == 1u32 || (x >> 23u32) & 1u32 == 1u32 || (x
            >> 24u32) & 1u32 == 1u32 || (x >> 25u32) & 1u32 == 1u32 || (x >> 26u32) & 1u32
            == 1u32 || (x >> 27u32) & 1u32 == 1u32 || (x >> 28u32) & 1u32 == 1u32 || (x >> 29u32)
            & 1u32 == 1u32 || (x >> 30u32) & 1u32 == 1u32 || (x >> 31u32) & 1u32 == 1u32),
{
}

/// A non-zero word has a set bit.
pub proof fn lemma_nonzero_has_bit(x: u32)
    requires
        x != 0,
    ensures
        exists|i: u32| i < 32 && #[trigger] bit(x, i),
{
    lemma_nonzero_has_bit_bv(x);
    if bit(x, 0) {
        assert(bit(x, 0));
    } else if bit(x, 1) {
        assert(bit(x, 1));
    } else if bit(x, 2) {
        assert(bit(x, 2));
    } else if bit(x, 3) {
        assert(bit(x, 3));
    } else if bit(x, 4) {
        assert(bit(x, 4));
    } else if bit(x, 5) {
        assert(bit(x, 5));
    } else if bit(x, 6) {
        assert(bit(x, 6));
    } else if bit(x, 7) {
        assert(bit(x, 7));
    } else if bit(x, 8) {
        assert(bit(x, 8));
    } else if bit(x, 9) {
        assert(bit(x, 9));
    } else if bit(x, 10) {
        assert(bit(x, 10));
    } else if bit(x, 11) {
        assert(bit(x, 11));
    } else if bit(x, 12) {
        assert(bit(x, 12));
    } else if bit(x, 13) {
        assert(bit(x, 13));
    } else if bit(x, 14) {
        assert(bit(x, 14));
    } else if bit(x, 15) {
        assert(bit(x, 15));
    } else if bit(x, 16) {
        assert(bit(x, 16));
    } else if bit(x, 17) {
        assert(bit(x, 17));
    } else if bit(x, 18) {
        assert(bit(x, 18));
    } else if bit(x, 19) {
        assert(bit(x, 19));
    } else if bit(x, 20) {
        assert(bit(x, 20));
    } else if bit(x, 21) {
        assert(bit(x, 21));
    } else if bit(x, 22) {
        assert(bit(x, 22));
    } else if bit(x, 23) {
        assert(bit(x, 23));
    } else if bit(x, 24) {
        assert(bit(x, 24));
    } else if bit(x, 25) {
        assert(bit(x, 25));
    } else if bit(x, 26) {
        assert(bit(x, 26));
    } else if bit(x, 27) {
        assert(bit(x, 27));
    } else if bit(x, 28) {
        assert(bit(x, 28));
    } else if bit(x, 29) {
        assert(bit(x, 29));
    } else if bit(x, 30) {
        assert(bit(x, 30));
    } else {
        assert(bit(x, 31));
    }
}

/// A word is zero exactly when none of its bits is set.
pub proof fn lemma_zero_iff_no_bit(x: u32)
    ensures
        (x == 0) <==> (forall|i: u32| i < 32 ==> !#[trigger] bit(x, i)),
{
    broadcast use group_bit_lemmas;

    if x != 0 {
        lemma_nonzero_has_bit(x);
    }
}

proof fn lemma_main_section_bv(i: u32)
    by (bit_vector)
    requires
        i < 32,
    ensures
        ((0x1FF_FFFFu32 >> i) & 1u32 == 1u32) == (i < 25),
{
}

/// The main section holds exactly the bits of the 25 squares.
pub broadcast proof fn lemma_main_section(i: u32)
    requires
        i < 32,
    ensures
        #[trigger] bit(MAIN_SECTION, i) == (i < 25),
{
    lemma_main_section_bv(i);
}

/// A set of squares, one bit per square.
#[derive(Clone, Copy, PartialEq, Eq, Debug, Hash)]
pub struct BitBoard(pub u32);

impl BitBoard {
    /// Whether the square is in the set.
    pub open spec fn has(self, sq: int) -> bool {
        0 <= sq < 32 && bit(self.0, sq as u32)
    }

    /// Every member is a square of the board.
    pub open spec fn within_board(self) -> bool {
        forall|i: int| #[trigger] self.has(i) ==> is_square(i)
    }

    pub fn empty() -> (r: BitBoard)
        ensures
            r.0 == 0,
            forall|i: int| !#[trigger] r.has(i),
    {
        broadcast use group_bit_lemmas;

        BitBoard(0)
    }

    pub fn main_section() -> (r: BitBoard)
        ensures
            r.0 == MAIN_SECTION,
            forall|i: int| #[trigger] r.has(i) == is_square(i),
    {
        broadcast use lemma_main_section;

        BitBoard(MAIN_SECTION)
    }

    /// The set holding just one square.
    pub fn as_mask(sq: Square) -> (r: BitBoard)
        requires
            sq < 32,
        ensures
            r.0 == 1u32 << sq,
            forall|i: int| #[trigger] r.has(i) == (i == sq),
    {
        broadcast use group_bit_lemmas;

        BitBoard(1u32 << sq)
    }

    pub fn and(self, other: BitBoard) -> (r: BitBoard)
        ensures
            r.0 == self.0 & other.0,
            forall|i: int| #[trigger] r.has(i) == (self.has(i) && other.has(i)),
    {
        broadcast use group_bit_lemmas;

        BitBoard(self.0 & other.0)
    }

    pub fn or(self, other: BitBoard) -> (r: BitBoard)
        ensures
            r.0 == self.0 | other.0,
            forall|i: int| #[trigger] r.has(i) == (self.has(i) || other.has(i)),
    {
        broadcast use group_bit_lemmas;

        BitBoard(self.0 | other.0)
    }

    pub fn xor(self, other: BitBoard) -> (r: BitBoard)
        ensures
            r.0 == self.0 ^ other.0,
            forall|i: int| #[trigger] r.has(i) == (self.has(i) != other.has(i)),
    {
        broadcast use group_bit_lemmas;

        BitBoard(self.0 ^ other.0)
    }

    /// The complement, over all 32 bits.
    pub fn not(self) -> (r: BitBoard)
        ensures
            r.0 == !self.0,
            forall|i: int| 0 <= i < 32 ==> #[trigger] r.has(i) == !self.has(i),
    {
        broadcast use group_bit_lemmas;

        BitBoard(!self.0)
    }

    /// The squares of `self` that are not in `other`.
    pub fn minus(self, other: BitBoard) -> (r: BitBoard)
        ensures
            r.0 == self.0 & !other.0,
            forall|i: int| #[trigger] r.has(i) == (self.has(i) && !other.has(i)),
    {
        broadcast use group_bit_lemmas;

        BitBoard(self.0 & !other.0)
    }

    pub fn is_empty(self) -> (r: bool)
        ensures
            r == (self.0 == 0),
            r == (forall|i: int| !#[trigger] self.has(i)),
    {
        proof {
            lemma_zero_iff_no_bit(self.0);
            if self.0 != 0 {
                let i = choose|i: u32| i < 32 && #[trigger] bit(self.0, i);
                assert(self.has(i as int));
            }
        }
        self.0 == 0
    }

    pub fn is_not_empty(self) -> (r: bool)
        ensures
            r == (self.0 != 0),
            r == (exists|i: int| #[trigger] self.has(i)),
    {
        !self.is_empty()
    }

    /// Whether the square is in the set.
    pub fn contains_square(self, sq: Square) -> (r: bool)
        requires
            sq < 32,
        ensures
            r == self.has(sq as int),
    {
        broadcast use group_bit_lemmas;

        (self.0 & (1u32 << sq)) != 0
    }

    /// Same as `contains_square`.
    pub fn get_bit(self, sq: Square) -> (r: bool)
        requires
            sq < 32,
        ensures
            r == self.has(sq as int),
    {
        self.contains_square(sq)
    }

    /// Number of members, counted over all 32 bits.
    pub fn count_ones(self) -> (r: u32)
        ensures
            r == popcount(self.0, 32),
            r <= 32,
    {
        let mut count: u32 = 0;
        let mut i: u32 = 0;
        while i < 32
            invariant
                i <= 32,
                count == popcount(self.0, i as nat),
                count <= i,
            decreases 32 - i,
        {
            if (self.0 >> i) & 1 == 1 {
                count = count + 1;
            }
            i = i + 1;
        }
        count
    }

    /// The squares of the board in the set, in ascending order.
    pub fn squares(self) -> (r: Vec<Square>)
        ensures
            r@ == squares_below(self.0, 25),
            forall|k: int| 0 <= k < r@.len() ==> #[trigger] r@[k] < 25 && self.has(r@[k] as int),
            forall|sq: int| 0 <= sq < 25 && self.has(sq) ==> r@.contains(sq as u8),
    {
        let mut r: Vec<Square> = Vec::new();
        let mut i: u8 = 0;
        while i < 25
            invariant
                i <= 25,
                r@ == squares_below(self.0, i as nat),
            decreases 25 - i,
        {
            if (self.0 >> i) & 1 == 1 {
                r.push(i);
            }
            i = i + 1;
        }
        proof {
            lemma_squares_below(self.0, 25);
        }
        r
    }

    /// Every square moved one row down the board, towards row 1; the bottom row drops off.
    pub fn shift_south(self) -> (r: BitBoard)
        ensures
            forall|i: int| #[trigger] r.has(i) == (5 <= i < 25 && self.has(i - 5)),
    {
        let r = BitBoard((self.0 << 5u32) & MAIN_SECTION);
        proof {
            assert forall|i: int| #[trigger] r.has(i) == (5 <= i < 25 && self.has(i - 5)) by {
                if 0 <= i < 32 {
                    lemma_shift_south_bit(self.0, i as u32);
                }
            }
        }
        r
    }

    /// Every square moved one row up the board, towards row 5; the top row drops off.
    pub fn shift_north(self) -> (r: BitBoard)
        ensures
            forall|i: int| #[trigger] r.has(i) == (0 <= i < 27 && self.has(i + 5)),
    {
        let r = BitBoard(self.0 >> 5u32);
        proof {
            assert forall|i: int| #[trigger] r.has(i) == (0 <= i < 27 && self.has(i + 5)) by {
                if 0 <= i < 32 {
                    lemma_shift_north_bit(self.0, i as u32);
                }
            }
        }
        r
    }

    /// The lowest square in the set.
    pub fn lsb(self) -> (r: Square)
        requires
            exists|i: int| 0 <= i < 25 && #[trigger] self.has(i),
        ensures
            r < 25,
            self.has(r as int),
            forall|i: int| 0 <= i < r ==> !#[trigger] self.has(i),
    {
        let mut i: u8 = 0;
        while i < 25
            invariant
                i <= 25,
                forall|j: int| 0 <= j < i ==> !#[trigger] self.has(j),
                exists|j: int| 0 <= j < 25 && #[trigger] self.has(j),
            decreases 25 - i,
        {
            if (self.0 >> i) & 1 == 1 {
                return i;
            }
            i = i + 1;
        }
        i
    }
}

proof fn lemma_shift_south_bit(x: u32, i: u32)
    by (bit_vector)
    requires
        i < 32,
    ensures
        ((((x << 5u32) & 0x1FF_FFFFu32) >> i) & 1u32 == 1u32) == (5 <= i && i < 25 && ((x >> ((i - 5) as u32)) & 1u32
            == 1u32)),
{
}

proof fn lemma_shift_north_bit(x: u32, i: u32)
    by (bit_vector)
    requires
        i < 32,
    ensures
        (((x >> 5u32) >> i) & 1u32 == 1u32) == (i < 27 && ((x >> ((i + 5) as u32)) & 1u32 == 1u32)),
{
}

/// Number of set bits of `x` below bit `n`.
pub open spec fn popcount(x: u32, n: nat) -> nat
    decreases n,
{
    if n == 0 {
        0
    } else {
        popcount(x, (n - 1) as nat) + if bit(x, (n - 1) as u32) {
            1nat
        } else {
            0nat
        }
    }
}

/// The set bits of `x` below bit `n`, in ascending order.
pub open spec fn squares_below(x: u32, n: nat) -> Seq<u8>
    decreases n,
{
    if n == 0 {
        Seq::empty()
    } else if bit(x, (n - 1) as u32) {
        squares_below(x, (n - 1) as nat).push((n - 1) as u8)
    } else {
        squares_below(x, (n - 1) as nat)
    }
}

/// `squares_below` lists exactly the set bits below `n`, in strictly ascending order.
pub proof fn lemma_squares_below(x: u32, n: nat)
    requires
        n <= 32,
    ensures
        forall|k: int|
            0 <= k < squares_below(x, n).len() ==> #[trigger] squares_below(x, n)[k] < n && bit(
                x,
                squares_below(x, n)[k] as u32,
            ),
        forall|i: int| 0 <= i < n && #[trigger] bit(x, i as u32) ==> squares_below(x, n).contains(i as u8),
        forall|a: int, b: int|
            0 <= a < b < squares_below(x, n).len() ==> squares_below(x, n)[a]
                < squares_below(x, n)[b],
    decreases n,
{
    if n > 0 {
        lemma_squares_below(x, (n - 1) as nat);
        let prev = squares_below(x, (n - 1) as nat);
        if bit(x, (n - 1) as u32) {
            assert(squares_below(x, n) == prev.push((n - 1) as u8));
            assert forall|i: int| 0 <= i < n && #[trigger] bit(x, i as u32) implies squares_below(
                x,
                n,
            ).contains(i as u8) by {
                if i == n - 1 {
                    assert(squares_below(x, n)[prev.len() as int] == i as u8);
                } else {
                    let k = choose|k: int| 0 <= k < prev.len() && prev[k] == i as u8;
                    assert(squares_below(x, n)[k] == i as u8);
                }
            }
        }
    }
}

/// `squares_below` lists as many squares as there are set bits below `n`.
pub proof fn lemma_squares_below_len(x: u32, n: nat)
    ensures
        squares_below(x, n).len() == popcount(x, n),
    decreases n,
{
    if n > 0 {
        lemma_squares_below_len(x, (n - 1) as nat);
    }
}

/// A word with no bits past the board counts the same over the board as over all 32 bits.
pub proof fn lemma_popcount_within(x: u32, n: nat)
    requires
        25 <= n <= 32,
        forall|i: u32| 25 <= i < 32 ==> !#[trigger] bit(x, i),
    ensures
        popcount(x, n) == popcount(x, 25),
    decreases n,
{
    if n > 25 {
        lemma_popcount_within(x, (n - 1) as nat);
    }
}

/// The squares of a set on the board: as many as its members, each a member, in ascending order.
pub proof fn lemma_board_squares(b: BitBoard)
    requires
        b.within_board(),
    ensures
        squares_below(b.0, 25).len() == popcount(b.0, 32),
        forall|k: int| 0 <= k < squares_below(b.0, 25).len() ==> #[trigger] squares_below(b.0, 25)[k] < 25 && b.has(
            squares_below(b.0, 25)[k] as int,
        ),
        forall|x: int, y: int|
            0 <= x < y < squares_below(b.0, 25).len() ==> squares_below(b.0, 25)[x] < squares_below(b.0, 25)[y],
{
    assert forall|i: u32| 25 <= i < 32 implies !#[trigger] bit(b.0, i) by {
        if bit(b.0, i) {
            assert(b.has(i as int));
        }
    }
    lemma_popcount_within(b.0, 32);
    lemma_squares_below_len(b.0, 25);
    lemma_squares_below(b.0, 25);
}

proof fn lemma_lower_squares_bv(q: u32, i: u32)
    by (bit_vector)
    requires
        q < 32,
        i < 32,
    ensures
        (1u32 << q) >= 1,
        ((((1u32 << q) - 1u32) as u32 >> i) & 1u32 == 1u32) == (i < q),
{
}

/// The squares numbered below `q`.
pub fn lower_squares(q: Square) -> (r: BitBoard)
    requires
        q < 25,
    ensures
        forall|i: int| #[trigger] r.has(i) == (0 <= i < q),
{
    proof {
        lemma_lower_squares_bv(q as u32, 0);
    }
    let r = BitBoard(((1u32 << (q as u32)) - 1) as u32);
    proof {
        assert forall|i: int| #[trigger] r.has(i) == (0 <= i < q) by {
            if 0 <= i < 32 {
                lemma_lower_squares_bv(q as u32, i as u32);
            }
        }
    }
    r
}

/// Every square neighbouring `sq`.
pub fn neighbor_mask(sq: Square) -> (r: BitBoard)
    requires
        sq < 25,
    ensures
        forall|i: int| #[trigger] r.has(i) == is_adjacent(sq as int, i),
{
    broadcast use group_bit_lemmas;

    let mut m: u32 = 0;
    let mut j: u8 = 0;
    while j < 25
        invariant
            j <= 25,
            sq < 25,
            forall|i: int| 0 <= i < 32 ==> #[trigger] bit(m, i as u32) == (i < j && is_adjacent(sq as int, i)),
        decreases 25 - j,
    {
        let ju: u32 = j as u32;
        if squares_adjacent(sq, j) {
            let old_m = m;
            m = m | (1u32 << ju);
            assert forall|i: int| 0 <= i < 32 implies #[trigger] bit(m, i as u32) == (i < j + 1
                && is_adjacent(sq as int, i)) by {
                lemma_bit_or(old_m, 1u32 << ju, i as u32);
                lemma_bit_single(ju, i as u32);
            }
        }
        j = j + 1;
    }
    BitBoard(m)
}

/// Every square touching `sq` when the board wraps around at its edges.
pub fn wrapping_neighbor_mask(sq: Square) -> (r: BitBoard)
    requires
        sq < 25,
    ensures
        forall|i: int| #[trigger] r.has(i) == is_wrap_adjacent(sq as int, i),
{
    broadcast use group_bit_lemmas;

    let mut m: u32 = 0;
    let mut j: u8 = 0;
    while j < 25
        invariant
            j <= 25,
            sq < 25,
            forall|i: int| 0 <= i < 32 ==> #[trigger] bit(m, i as u32) == (i < j && is_wrap_adjacent(sq as int, i)),
        decreases 25 - j,
    {
        let ju: u32 = j as u32;
        if squares_wrap_adjacent(sq, j) {
            let old_m = m;
            m = m | (1u32 << ju);
            assert forall|i: int| 0 <= i < 32 implies #[trigger] bit(m, i as u32) == (i < j + 1
                && is_wrap_adjacent(sq as int, i)) by {
                lemma_bit_or(old_m, 1u32 << ju, i as u32);
                lemma_bit_single(ju, i as u32);
            }
        }
        j = j + 1;
    }
    BitBoard(m)
}

/// `sq` together with every square neighbouring it.
pub fn inclusive_neighbor_mask(sq: Square) -> (r: BitBoard)
    requires
        sq < 25,
    ensures
        forall|i: int| #[trigger] r.has(i) == (i == sq || is_adjacent(sq as int, i)),
{
    neighbor_mask(sq).or(BitBoard::as_mask(sq))
}

/// The union of the neighbourhoods of every square of `mask`.
pub fn apply_neighbor_map_to_mask(mask: BitBoard) -> (r: BitBoard)
    ensures
        forall|i: int|
            #[trigger] r.has(i) == (exists|s: int|
                0 <= s < 25 && #[trigger] mask.has(s) && is_adjacent(s, i)),
{
    let mut res = BitBoard::empty();
    let mut s: u8 = 0;
    while s < 25
        invariant
            s <= 25,
            forall|i: int|
                #[trigger] res.has(i) == (exists|t: int|
                    0 <= t < s && #[trigger] mask.has(t) && is_adjacent(t, i)),
        decreases 25 - s,
    {
        if mask.contains_square(s) {
            let n = neighbor_mask(s);
            let old_res = res;
            res = res.or(n);
            assert forall|i: int|
                #[trigger] res.has(i) == (exists|t: int|
                    0 <= t < s + 1 && #[trigger] mask.has(t) && is_adjacent(t, i)) by {
                if res.has(i) && !old_res.has(i) {
                    assert(mask.has(s as int) && is_adjacent(s as int, i));
                }
                if exists|t: int| 0 <= t < s + 1 && #[trigger] mask.has(t) && is_adjacent(t, i) {
                    let t = choose|t: int| 0 <= t < s + 1 && #[trigger] mask.has(t) && is_adjacent(t, i);
                    if t < s {
                        assert(old_res.has(i));
                    }
                }
            }
        } else {
            assert forall|i: int|
                #[trigger] res.has(i) == (exists|t: int|
                    0 <= t < s + 1 && #[trigger] mask.has(t) && is_adjacent(t, i)) by {
                if exists|t: int| 0 <= t < s + 1 && #[trigger] mask.has(t) && is_adjacent(t, i) {
                    let t = choose|t: int| 0 <= t < s + 1 && #[trigger] mask.has(t) && is_adjacent(t, i);
                    assert(t < s);
                }
            }
        }
        s = s + 1;
    }
    res
}

/// The outer ring of the board.
pub fn perimeter_mask() -> (r: BitBoard)
    ensures
        r.0 == PERIMETER_MASK,
{
    BitBoard(PERIMETER_MASK)
}

/// The four corner squares.
pub fn corners_mask() -> (r: BitBoard)
    ensures
        r.0 == CORNERS_MASK,
{
    BitBoard(CORNERS_MASK)
}

} // verus!
