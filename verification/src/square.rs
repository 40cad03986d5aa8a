use vstd::prelude::*;

verus! {

/// A square of the 5x5 board, numbered row by row from the top left: A5 is 0, E5 is 4,
/// A1 is 20 and E1 is 24. Row 0 is rank 5 and column 0 is file A.
pub type Square = u8;

/// Number of squares on the board.
pub const NUM_SQUARES: usize = 25;

pub const A5: Square = 0;
pub const B5: Square = 1;
pub const C5: Square = 2;
pub const D5: Square = 3;
pub const E5: Square = 4;
pub const A4: Square = 5;
pub const B4: Square = 6;
pub const C4: Square = 7;
pub const D4: Square = 8;
pub const E4: Square = 9;
pub const A3: Square = 10;
pub const B3: Square = 11;
pub const C3: Square = 12;
pub const D3: Square = 13;
pub const E3: Square = 14;
pub const A2: Square = 15;
pub const B2: Square = 16;
pub const C2: Square = 17;
pub const D2: Square = 18;
pub const E2: Square = 19;
pub const A1: Square = 20;
pub const B1: Square = 21;
pub const C1: Square = 22;
pub const D1: Square = 23;
pub const E1: Square = 24;

/// A value names a square of the board.
pub open spec fn is_square(sq: int) -> bool {
    0 <= sq < 25
}

/// Row of a square, 0 being rank 5.
pub open spec fn row_of(sq: int) -> int {
    sq / 5
}

/// Column of a square, 0 being file A.
pub open spec fn col_of(sq: int) -> int {
    sq % 5
}

/// Two distinct squares that touch, orthogonally or diagonally.
pub open spec fn is_adjacent(a: int, b: int) -> bool {
    &&& is_square(a)
    &&& is_square(b)
    &&& a != b
    &&& -1 <= row_of(a) - row_of(b) <= 1
    &&& -1 <= col_of(a) - col_of(b) <= 1
}

/// A square on the outer ring of the board.
pub open spec fn is_perimeter(sq: int) -> bool {
    is_square(sq) && (row_of(sq) == 0 || row_of(sq) == 4 || col_of(sq) == 0 || col_of(sq) == 4)
}

/// Adjacency is symmetric.
pub proof fn lemma_adjacent_symmetric(a: int, b: int)
    ensures
        is_adjacent(a, b) == is_adjacent(b, a),
{
}

pub fn square_row(sq: Square) -> (r: u8)
    requires
        sq < 25,
    ensures
        r == row_of(sq as int),
        r < 5,
{
    sq / 5
}

pub fn square_col(sq: Square) -> (r: u8)
    requires
        sq < 25,
    ensures
        r == col_of(sq as int),
        r < 5,
{
    sq % 5
}

/// Whether two squares touch.
pub fn squares_adjacent(a: Square, b: Square) -> (r: bool)
    requires
        a < 25,
        b < 25,
    ensures
        r == is_adjacent(a as int, b as int),
{
    let ra = square_row(a);
    let rb = square_row(b);
    let ca = square_col(a);
    let cb = square_col(b);
    let row_close = if ra >= rb { ra - rb <= 1 } else { rb - ra <= 1 };
    let col_close = if ca >= cb { ca - cb <= 1 } else { cb - ca <= 1 };
    a != b && row_close && col_close
}

/// Whether `to` lies one step past `over`, seen from `from`: the square a worker on `over` would
/// be pushed to, straight away from `from`.
pub open spec fn is_beyond(from: int, over: int, to: int) -> bool {
    &&& is_square(to)
    &&& row_of(to) == 2 * row_of(over) - row_of(from)
    &&& col_of(to) == 2 * col_of(over) - col_of(from)
}

/// Two rows (or two columns) that touch when the board wraps around at its edges.
pub open spec fn wrap_close(x: int, y: int) -> bool {
    let d = (x - y) % 5;
    d == 0 || d == 1 || d == 4
}

/// Two distinct squares that touch when the board wraps around at its edges.
pub open spec fn is_wrap_adjacent(a: int, b: int) -> bool {
    &&& is_square(a)
    &&& is_square(b)
    &&& a != b
    &&& wrap_close(row_of(a), row_of(b))
    &&& wrap_close(col_of(a), col_of(b))
}

/// Whether two squares touch when the board wraps around at its edges.
pub fn squares_wrap_adjacent(a: Square, b: Square) -> (r: bool)
    requires
        a < 25,
        b < 25,
    ensures
        r == is_wrap_adjacent(a as int, b as int),
{
    let dr = (square_row(a) + 5 - square_row(b)) % 5;
    let dc = (square_col(a) + 5 - square_col(b)) % 5;
    a != b && (dr == 0 || dr == 1 || dr == 4) && (dc == 0 || dc == 1 || dc == 4)
}

/// A square is fixed by its row and column.
pub proof fn lemma_square_by_row_col(a: int, b: int)
    requires
        is_square(a),
        is_square(b),
        row_of(a) == row_of(b),
        col_of(a) == col_of(b),
    ensures
        a == b,
{
}

/// There is at most one square past `over` seen from `from`.
pub proof fn lemma_beyond_unique(from: int, over: int, t: int, u: int)
    requires
        is_beyond(from, over, t),
        is_beyond(from, over, u),
    ensures
        t == u,
{
    lemma_square_by_row_col(t, u);
}

/// The square one step past `over` seen from `from`, if it is on the board.
pub fn push_mapping(from: Square, over: Square) -> (r: Option<Square>)
    requires
        from < 25,
        over < 25,
    ensures
        r matches Some(to) ==> to < 25 && is_beyond(from as int, over as int, to as int),
        r is None ==> forall|to: int| !#[trigger] is_beyond(from as int, over as int, to),
{
    let rf = square_row(from);
    let cf = square_col(from);
    let ro = square_row(over);
    let co = square_col(over);
    if 2 * ro >= rf && 2 * ro - rf < 5 && 2 * co >= cf && 2 * co - cf < 5 {
        Some(square_at(2 * ro - rf, 2 * co - cf))
    } else {
        None
    }
}

/// The square on a row and column.
pub fn square_at(row: u8, col: u8) -> (sq: Square)
    requires
        row < 5,
        col < 5,
    ensures
        sq == row * 5 + col,
        sq < 25,
        row_of(sq as int) == row,
        col_of(sq as int) == col,
{
    row * 5 + col
}

/// The file letter of a square, as an ASCII byte (65 is `A`).
pub fn square_file_byte(sq: Square) -> (b: u8)
    requires
        sq < 25,
    ensures
        b == 65 + col_of(sq as int),
{
    65 + square_col(sq)
}

/// The rank digit of a square, as an ASCII byte (53 is `5`).
pub fn square_rank_byte(sq: Square) -> (b: u8)
    requires
        sq < 25,
    ensures
        b == 53 - row_of(sq as int),
{
    53 - square_row(sq)
}

/// Reads a square from its file letter and rank digit (`A1`, `e5`, ...).
pub fn square_from_bytes(file: u8, rank: u8) -> (r: Option<Square>)
    ensures
        r is Some <==> ((65 <= file <= 69 || 97 <= file <= 101) && 49 <= rank <= 53),
        r matches Some(sq) ==> sq < 25 && row_of(sq as int) == 53 - rank && col_of(sq as int)
            == (if file <= 69 {
            file - 65
        } else {
            file - 97
        }),
{
    let col = if 65 <= file && file <= 69 {
        file - 65
    } else if 97 <= file && file <= 101 {
        file - 97
    } else {
        return None;
    };
    if rank < 49 || rank > 53 {
        return None;
    }
    Some(square_at(53 - rank, col))
}

} // verus!
