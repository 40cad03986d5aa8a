use vstd::prelude::*;

use crate::bitboard::{group_bit_lemmas, BitBoard};
use crate::board::{FullGameState, GodData, Player};
use crate::game::GameStateBuilder;
use crate::gods::{all_gods, GodName};
use crate::square::{square_file_byte, square_from_bytes, square_rank_byte, Square};

verus! {

/// Why a position string was refused.
#[derive(Clone, Copy, PartialEq, Eq, Debug)]
pub enum FenError {
    /// Not four sections separated by `/`.
    WrongSectionCount,
    /// Heights that are not 25 digits from 0 to 4 (spaces aside), nor empty.
    BadHeights,
    /// A player to move other than `1` or `2`.
    BadPlayer,
    /// A god section without `:`, or with unbalanced brackets.
    BadGodSection,
    /// A god name this library does not play.
    UnknownGod,
    /// God data the god does not accept.
    BadGodData,
    /// A worker square that is not a square.
    BadSquare,
    /// Two workers on one square.
    OverlappingWorkers,
}

pub const SLASH: u8 = 47;

const COLON: u8 = 58;

const COMMA: u8 = 44;

const SPACE: u8 = 32;

const OPEN_BRACKET: u8 = 91;

const CLOSE_BRACKET: u8 = 93;

const DIGIT_ZERO: u8 = 48;

/// Whether `b[start..end]` spells `name`.
pub fn bytes_match(b: &[u8], start: usize, end: usize, name: &Vec<u8>) -> (r: bool)
    requires
        start <= end <= b@.len(),
    ensures
        r == (b@.subrange(start as int, end as int) == name@),
{
    if end - start != name.len() {
        proof {
            assert(b@.subrange(start as int, end as int).len() != name@.len());
        }
        return false;
    }
    let mut i: usize = 0;
    while i < name.len()
        invariant
            i <= name@.len(),
            start <= end <= b@.len(),
            end - start == name@.len(),
            forall|k: int| 0 <= k < i ==> b@[start + k] == #[trigger] name@[k],
        decreases name@.len() - i,
    {
        if b[start + i] != name[i] {
            proof {
                assert(b@.subrange(start as int, end as int)[i as int] != name@[i as int]);
            }
            return false;
        }
        i = i + 1;
    }
    proof {
        assert(b@.subrange(start as int, end as int) =~= name@);
    }
    true
}

/// The first index of `byte` in `b[start..end]`, if any.
pub fn find_byte(b: &[u8], start: usize, end: usize, byte: u8) -> (r: Option<usize>)
    requires
        start <= end <= b@.len(),
    ensures
        r matches Some(i) ==> start <= i < end && b@[i as int] == byte && forall|k: int| start <= k < i ==> b@[k] != byte,
        r is None ==> forall|k: int| start <= k < end ==> b@[k] != byte,
{
    let mut i = start;
    while i < end
        invariant
            start <= i <= end,
            end <= b@.len(),
            forall|k: int| start <= k < i ==> b@[k] != byte,
        decreases end - i,
    {
        if b[i] == byte {
            return Some(i);
        }
        i = i + 1;
    }
    None
}

/// The god whose name is `b[start..end]`.
pub fn god_from_name(b: &[u8], start: usize, end: usize) -> (r: Option<GodName>)
    requires
        start <= end <= b@.len(),
    ensures
        r matches Some(g) ==> g.name_spec() == b@.subrange(start as int, end as int),
        r is None ==> forall|g: GodName| #[trigger] g.name_spec() != b@.subrange(start as int, end as int),
{
    let gods = all_gods();
    let mut i: usize = 0;
    while i < gods.len()
        invariant
            i <= gods@.len(),
            start <= end <= b@.len(),
            forall|g: GodName| #[trigger] gods@.contains(g),
            forall|k: int| 0 <= k < i ==> #[trigger] gods@[k].name_spec() != b@.subrange(start as int, end as int),
        decreases gods@.len() - i,
    {
        let god = gods[i];
        let name = god.name_bytes();
        if bytes_match(b, start, end, &name) {
            return Some(god);
        }
        i = i + 1;
    }
    proof {
        assert forall|g: GodName| #[trigger] g.name_spec() != b@.subrange(start as int, end as int) by {
            assert(gods@.contains(g));
            let k = choose|k: int| 0 <= k < gods@.len() && gods@[k] == g;
        }
    }
    None
}

/// The heights written in `s`: each digit from 0 to 4, in order, other bytes skipped.
pub open spec fn height_digits(s: Seq<u8>) -> Seq<u8>
    decreases s.len(),
{
    if s.len() == 0 {
        Seq::empty()
    } else if 48 <= s.last() <= 52 {
        height_digits(s.drop_last()).push((s.last() - 48) as u8)
    } else {
        height_digits(s.drop_last())
    }
}

/// A heights section: only spaces and digits from 0 to 4, and either no digit or 25 of them.
pub open spec fn heights_section_ok(s: Seq<u8>) -> bool {
    &&& forall|k: int| 0 <= k < s.len() ==> #[trigger] s[k] == 32 || 48 <= s[k] <= 52
    &&& height_digits(s).len() == 0 || height_digits(s).len() == 25
}

/// The heights a valid section stands for: its digits, or a flat board when it has none.
pub open spec fn section_heights(s: Seq<u8>) -> Seq<u8> {
    if height_digits(s).len() == 0 {
        Seq::new(25, |k: int| 0u8)
    } else {
        height_digits(s)
    }
}

/// Reading more of a section never loses a digit.
proof fn lemma_height_digits_grow(s: Seq<u8>, i: int, j: int)
    requires
        0 <= i <= j <= s.len(),
    ensures
        height_digits(s.take(i)).len() <= height_digits(s.take(j)).len(),
    decreases j - i,
{
    if i < j {
        lemma_height_digits_grow(s, i, j - 1);
        assert(s.take(j).drop_last() =~= s.take(j - 1));
    }
}

/// Reads the 25 square heights, ignoring spaces; an empty section is a flat board.
pub fn parse_heights(b: &[u8], start: usize, end: usize) -> (r: Result<Vec<u8>, FenError>)
    requires
        start <= end <= b@.len(),
    ensures
        r matches Ok(h) ==> h@.len() == 25 && forall|k: int| 0 <= k < 25 ==> #[trigger] h@[k] <= 4,
        r is Ok <==> heights_section_ok(b@.subrange(start as int, end as int)),
        r matches Ok(h) ==> h@ == section_heights(b@.subrange(start as int, end as int)),
        r matches Err(e) ==> e == FenError::BadHeights,
{
    let ghost sec = b@.subrange(start as int, end as int);
    let mut heights: Vec<u8> = Vec::new();
    let mut i = start;
    while i < end
        invariant
            start <= i <= end,
            end <= b@.len(),
            sec == b@.subrange(start as int, end as int),
            heights@.len() <= 25,
            forall|k: int| 0 <= k < heights@.len() ==> #[trigger] heights@[k] <= 4,
            heights@ == height_digits(sec.take(i - start)),
            forall|k: int| 0 <= k < i - start ==> #[trigger] sec[k] == SPACE || 48 <= sec[k] <= 52,
        decreases end - i,
    {
        let c = b[i];
        proof {
            assert(sec.take(i - start + 1).drop_last() =~= sec.take(i - start));
            assert(sec.take(i - start + 1).last() == c);
        }
        if c == SPACE {
        } else if c >= DIGIT_ZERO && c <= DIGIT_ZERO + 4 {
            if heights.len() == 25 {
                proof {
                    lemma_height_digits_grow(sec, i - start + 1, sec.len() as int);
                    assert(sec.take(sec.len() as int) =~= sec);
                }
                return Err(FenError::BadHeights);
            }
            heights.push(c - DIGIT_ZERO);
        } else {
            proof {
                assert(sec[i - start] == c);
            }
            return Err(FenError::BadHeights);
        }
        i = i + 1;
    }
    proof {
        assert(sec.take(i - start) =~= sec);
    }
    if heights.len() == 0 {
        let mut k: usize = 0;
        while k < 25
            invariant
                k <= 25,
                heights@.len() == k,
                forall|j: int| 0 <= j < heights@.len() ==> #[trigger] heights@[j] == 0,
            decreases 25 - k,
        {
            heights.push(0);
            k = k + 1;
        }
        proof {
            assert(heights@ =~= Seq::new(25, |k: int| 0u8));
        }
    }
    if heights.len() != 25 {
        return Err(FenError::BadHeights);
    }
    Ok(heights)
}

/// Whether a file byte and a rank byte name a square: `A`-`E` or `a`-`e`, then `1`-`5`.
pub open spec fn square_bytes_ok(f: u8, r: u8) -> bool {
    (65 <= f <= 69 || 97 <= f <= 101) && 49 <= r <= 53
}

/// The square a file byte and a rank byte name.
pub open spec fn square_of_bytes(f: u8, r: u8) -> int {
    (53 - r) * 5 + (if f <= 69 { f - 65 } else { f - 97 })
}

/// How many squares a list of `len` bytes holds.
pub open spec fn listed_count(len: nat) -> int {
    ((len + 1) / 3) as int
}

/// The square the `k`th entry of the list names.
pub open spec fn listed_at(s: Seq<u8>, k: int) -> int {
    square_of_bytes(s[3 * k], s[3 * k + 1])
}

/// A worker list: empty, or squares separated by commas, no square twice.
pub open spec fn worker_list_ok(s: Seq<u8>) -> bool {
    s.len() == 0 || {
        &&& s.len() % 3 == 2
        &&& forall|k: int| 0 <= k < listed_count(s.len()) ==> #[trigger] square_bytes_ok(s[3 * k], s[3 * k + 1])
        &&& forall|k: int| 0 <= k < listed_count(s.len()) - 1 ==> #[trigger] s[3 * k + 2] == 44
        &&& forall|k: int, l: int| 0 <= k < l < listed_count(s.len()) ==> #[trigger] listed_at(s, k) != #[trigger] listed_at(s, l)
    }
}

/// Whether the list names the square `x`.
pub open spec fn lists_square(s: Seq<u8>, x: int) -> bool {
    exists|k: int| 0 <= k < listed_count(s.len()) && #[trigger] listed_at(s, k) == x
}

/// Reads a comma separated list of squares.
pub fn parse_workers(b: &[u8], start: usize, end: usize) -> (r: Result<BitBoard, FenError>)
    requires
        start <= end <= b@.len(),
    ensures
        r matches Ok(w) ==> w.within_board(),
        r is Ok <==> worker_list_ok(b@.subrange(start as int, end as int)),
        r matches Ok(w) ==> forall|x: int| #[trigger] w.has(x) == lists_square(b@.subrange(start as int, end as int), x),
{
    broadcast use group_bit_lemmas;

    let ghost sec = b@.subrange(start as int, end as int);
    let mut workers = BitBoard::empty();
    if start == end {
        proof {
            assert forall|x: int| #[trigger] workers.has(x) == lists_square(sec, x) by {
                assert(listed_count(sec.len()) == 0);
            }
        }
        return Ok(workers);
    }
    let mut i = start;
    let ghost mut m: int = 0;
    loop
        invariant
            start <= i <= end,
            end <= b@.len(),
            start < end,
            sec == b@.subrange(start as int, end as int),
            workers.within_board(),
            i - start == 3 * m,
            0 <= m,
            i < end,
            forall|k: int| 0 <= k < m ==> #[trigger] square_bytes_ok(sec[3 * k], sec[3 * k + 1]),
            forall|k: int| 0 <= k < m ==> #[trigger] sec[3 * k + 2] == 44,
            forall|k: int, l: int| 0 <= k < l < m ==> #[trigger] listed_at(sec, k) != #[trigger] listed_at(sec, l),
            forall|x: int| #[trigger] workers.has(x) == exists|k: int| 0 <= k < m && #[trigger] listed_at(sec, k) == x,
        decreases end - i,
    {
        if end - i < 2 {
            return Err(FenError::BadSquare);
        }
        proof {
            assert(sec[3 * m] == b@[i as int]);
            assert(sec[3 * m + 1] == b@[i + 1]);
        }
        let sq = match square_from_bytes(b[i], b[i + 1]) {
            Some(sq) => sq,
            None => {
                proof {
                    if worker_list_ok(sec) {
                        assert(square_bytes_ok(sec[3 * m], sec[3 * m + 1]));
                    }
                }
                return Err(FenError::BadSquare);
            },
        };
        proof {
            assert(sq as int == 5 * (sq as int / 5) + sq as int % 5);
            assert(listed_at(sec, m) == sq as int);
        }
        if workers.contains_square(sq) {
            proof {
                if worker_list_ok(sec) {
                    let k = choose|k: int| 0 <= k < m && #[trigger] listed_at(sec, k) == sq as int;
                    assert(listed_at(sec, k) != listed_at(sec, m));
                }
            }
            return Err(FenError::OverlappingWorkers);
        }
        let ghost old_workers = workers;
        workers = workers.or(BitBoard::as_mask(sq));
        proof {
            assert forall|x: int| #[trigger] workers.has(x) == exists|k: int| 0 <= k < m + 1 && #[trigger] listed_at(sec, k) == x by {
                if old_workers.has(x) {
                    let k = choose|k: int| 0 <= k < m && #[trigger] listed_at(sec, k) == x;
                }
                if exists|k: int| 0 <= k < m + 1 && #[trigger] listed_at(sec, k) == x {
                    let k = choose|k: int| 0 <= k < m + 1 && #[trigger] listed_at(sec, k) == x;
                    if k < m {
                        assert(old_workers.has(x));
                    }
                }
            }
            assert forall|k: int, l: int| 0 <= k < l < m + 1 implies #[trigger] listed_at(sec, k) != #[trigger] listed_at(sec, l) by {
                if l == m {
                    assert(old_workers.has(listed_at(sec, k)));
                }
            }
        }
        i = i + 2;
        if i == end {
            proof {
                assert(listed_count(sec.len()) == m + 1);
                assert forall|x: int| #[trigger] workers.has(x) == lists_square(sec, x) by {
                    if workers.has(x) {
                        let k = choose|k: int| 0 <= k < m + 1 && #[trigger] listed_at(sec, k) == x;
                    }
                }
            }
            return Ok(workers);
        }
        if b[i] != COMMA {
            proof {
                assert(sec[3 * m + 2] == b@[i as int]);
                if worker_list_ok(sec) {
                    assert(sec[3 * m + 2] == 44);
                }
            }
            return Err(FenError::BadSquare);
        }
        proof {
            assert(sec[3 * m + 2] == b@[i as int]);
        }
        i = i + 1;
        if i == end {
            return Err(FenError::BadSquare);
        }
        proof {
            m = m + 1;
        }
    }
}

/// The index of the first `byte` in `s` at or after `from`, or the length of `s` if none.
pub open spec fn first_at(s: Seq<u8>, byte: u8, from: int) -> int
    decreases s.len() - from,
{
    if from < 0 || from >= s.len() {
        s.len() as int
    } else if s[from] == byte {
        from
    } else {
        first_at(s, byte, from + 1)
    }
}

/// What `find_byte` finds is the first occurrence.
proof fn lemma_first_at(s: Seq<u8>, byte: u8, from: int, i: int)
    requires
        0 <= from <= i <= s.len(),
        i < s.len() ==> s[i] == byte,
        forall|k: int| from <= k < i ==> s[k] != byte,
    ensures
        first_at(s, byte, from) == i,
    decreases i - from,
{
    if from < i {
        lemma_first_at(s, byte, from + 1, i);
    }
}

/// Where the colon of a god section stands.
pub open spec fn section_colon(s: Seq<u8>) -> int {
    first_at(s, 58, 0)
}

/// Where the opening bracket before the colon stands, or the colon's place if none.
pub open spec fn section_bracket(s: Seq<u8>) -> int {
    first_at(s.take(section_colon(s)), 91, 0)
}

/// The god's name in a section.
pub open spec fn section_name(s: Seq<u8>) -> Seq<u8> {
    s.take(section_bracket(s))
}

/// The god data between the brackets of a section, or nothing.
pub open spec fn section_data(s: Seq<u8>) -> Seq<u8> {
    if section_bracket(s) < section_colon(s) {
        s.subrange(section_bracket(s) + 1, section_colon(s) - 1)
    } else {
        Seq::empty()
    }
}

/// The worker list of a section, after the colon.
pub open spec fn section_workers(s: Seq<u8>) -> Seq<u8> {
    s.skip(section_colon(s) + 1)
}

/// The bytes of a worker list naming `sqs` in order: each square as its file letter and rank
/// digit, separated by commas.
pub open spec fn square_list_bytes(sqs: Seq<u8>) -> Seq<u8>
    decreases sqs.len(),
{
    if sqs.len() == 0 {
        Seq::empty()
    } else {
        let last = sqs.last() as int;
        let head = square_list_bytes(sqs.drop_last());
        let sep = if sqs.len() == 1 {
            head
        } else {
            head.push(44u8)
        };
        sep.push((65 + crate::square::col_of(last)) as u8).push((53 - crate::square::row_of(last)) as u8)
    }
}

/// Where each square and comma of a worker list stands.
proof fn lemma_square_list_layout(sqs: Seq<u8>)
    requires
        forall|k: int| 0 <= k < sqs.len() ==> #[trigger] sqs[k] < 25,
    ensures
        square_list_bytes(sqs).len() == (if sqs.len() == 0 {
            0
        } else {
            3 * sqs.len() - 1
        }),
        forall|k: int| 0 <= k < sqs.len() ==> #[trigger] square_list_bytes(sqs)[3 * k] == (65 + crate::square::col_of(sqs[k] as int)) as u8
            && square_list_bytes(sqs)[3 * k + 1] == (53 - crate::square::row_of(sqs[k] as int)) as u8,
        forall|k: int| 0 <= k < sqs.len() - 1 ==> #[trigger] square_list_bytes(sqs)[3 * k + 2] == 44,
    decreases sqs.len(),
{
    if sqs.len() > 0 {
        let t = sqs.drop_last();
        assert forall|k: int| 0 <= k < t.len() implies #[trigger] t[k] < 25 by {
            assert(t[k] == sqs[k]);
        }
        lemma_square_list_layout(t);
        let b = square_list_bytes(sqs);
        let h = square_list_bytes(t);
        assert forall|k: int| 0 <= k < sqs.len() implies #[trigger] b[3 * k] == (65 + crate::square::col_of(sqs[k] as int)) as u8
            && b[3 * k + 1] == (53 - crate::square::row_of(sqs[k] as int)) as u8 by {
            if k < t.len() {
                assert(t[k] == sqs[k]);
                assert(b[3 * k] == h[3 * k]);
                assert(b[3 * k + 1] == h[3 * k + 1]);
            }
        }
        assert forall|k: int| 0 <= k < sqs.len() - 1 implies #[trigger] b[3 * k + 2] == 44 by {
            if k < t.len() - 1 {
                assert(b[3 * k + 2] == h[3 * k + 2]);
            }
        }
    }
}

/// A worker list written from squares in rising order reads back as a valid list naming just
/// those squares.
proof fn lemma_square_list_reads(sqs: Seq<u8>)
    requires
        forall|k: int| 0 <= k < sqs.len() ==> #[trigger] sqs[k] < 25,
        forall|a: int, b: int| 0 <= a < b < sqs.len() ==> sqs[a] < sqs[b],
    ensures
        worker_list_ok(square_list_bytes(sqs)),
        forall|x: int| #[trigger] lists_square(square_list_bytes(sqs), x) == exists|k: int| 0 <= k < sqs.len() && sqs[k] == x,
        forall|k: int| 0 <= k < square_list_bytes(sqs).len() ==> {
            let c = #[trigger] square_list_bytes(sqs)[k];
            c == 44 || 49 <= c <= 53 || 65 <= c <= 69
        },
{
    lemma_square_list_layout(sqs);
    let w = square_list_bytes(sqs);
    let n = sqs.len();
    assert forall|k: int| 0 <= k < n implies #[trigger] listed_at(w, k) == sqs[k] as int && square_bytes_ok(w[3 * k], w[3 * k + 1]) by {
        let sq = sqs[k] as int;
        assert(w[3 * k] == (65 + crate::square::col_of(sq)) as u8);
        assert(w[3 * k + 1] == (53 - crate::square::row_of(sq)) as u8);
        assert(sq == crate::square::row_of(sq) * 5 + crate::square::col_of(sq));
    }
    if n > 0 {
        assert(listed_count(w.len()) == n) by {
            assert((3 * n - 1 + 1) / 3 == n);
        }
    } else {
        assert(listed_count(w.len()) == 0);
    }
    assert forall|x: int| #[trigger] lists_square(w, x) == exists|k: int| 0 <= k < sqs.len() && sqs[k] == x by {
        if exists|k: int| 0 <= k < sqs.len() && sqs[k] == x {
            let k = choose|k: int| 0 <= k < sqs.len() && sqs[k] == x;
            assert(listed_at(w, k) == x);
        }
    }
    assert forall|k: int| 0 <= k < w.len() implies {
        let c = #[trigger] w[k];
        c == 44 || 49 <= c <= 53 || 65 <= c <= 69
    } by {
        let q = k / 3;
        let r = k % 3;
        assert(k == 3 * q + r);
        assert(0 <= q < n);
        let sq = sqs[q] as int;
        assert(0 <= crate::square::col_of(sq) < 5 && 0 <= crate::square::row_of(sq) < 5);
        if r == 0 {
            assert(w[3 * q] == (65 + crate::square::col_of(sq)) as u8);
            assert(w[3 * q] == w[k]);
        } else if r == 1 {
            assert(w[3 * q] == (65 + crate::square::col_of(sq)) as u8);
            assert(w[3 * q + 1] == (53 - crate::square::row_of(sq)) as u8);
            assert(w[3 * q + 1] == w[k]);
        } else {
            assert(q < n - 1);
            assert(w[3 * q + 2] == w[k]);
        }
    }
    if n > 0 {
        assert forall|k: int, l: int| 0 <= k < l < listed_count(w.len()) implies #[trigger] listed_at(w, k) != #[trigger] listed_at(w, l) by {
            assert(sqs[k] < sqs[l]);
        }
    }
}

/// A god section `name[data]:squares` that reads: a colon; brackets, if any, closing right
/// before it; a known god; data it accepts; a worker list.
pub open spec fn god_section_ok(s: Seq<u8>) -> bool {
    let c = section_colon(s);
    let o = section_bracket(s);
    &&& c < s.len()
    &&& o < c ==> c - 1 > o && s[c - 1] == 93
    &&& exists|g: GodName| #[trigger] g.name_spec() == section_name(s)
    &&& forall|g: GodName| #[trigger] g.name_spec() == section_name(s) ==> g.god_data_value(section_data(s)) is Some
    &&& worker_list_ok(section_workers(s))
}

/// Where a section's name ends and its bracketed data starts and ends, given where its colon
/// stands; `None` where an opening bracket is not closed right before the colon.
fn section_brackets(b: &[u8], start: usize, colon: usize, end: usize) -> (r: Option<(usize, usize, usize)>)
    requires
        start <= colon < end <= b@.len(),
        colon - start == section_colon(b@.subrange(start as int, end as int)),
    ensures
        ({
            let s = b@.subrange(start as int, end as int);
            let c = section_colon(s);
            let o = section_bracket(s);
            r is Some <==> (o < c ==> c - 1 > o && s[c - 1] == 93)
        }),
        r matches Some(t) ==> start <= t.0 <= colon && t.1 <= t.2 <= colon
            && b@.subrange(start as int, t.0 as int) == section_name(b@.subrange(start as int, end as int))
            && b@.subrange(t.1 as int, t.2 as int) == section_data(b@.subrange(start as int, end as int)),
{
    let ghost s = b@.subrange(start as int, end as int);
    let ghost c = colon - start;
    proof {
        assert(s.take(c) =~= b@.subrange(start as int, colon as int));
    }
    match find_byte(b, start, colon, OPEN_BRACKET) {
        Some(o) => {
            proof {
                lemma_first_at(s.take(c), OPEN_BRACKET, 0, o - start);
            }
            if colon == 0 || colon - 1 <= o || b[colon - 1] != CLOSE_BRACKET {
                return None;
            }
            proof {
                assert(b@.subrange(o + 1, (colon - 1) as int) =~= section_data(s));
                assert(b@.subrange(start as int, o as int) =~= section_name(s));
            }
            Some((o, o + 1, colon - 1))
        },
        None => {
            proof {
                lemma_first_at(s.take(c), OPEN_BRACKET, 0, c);
                assert(b@.subrange(colon as int, colon as int) =~= section_data(s));
                assert(b@.subrange(start as int, colon as int) =~= section_name(s));
            }
            Some((colon, colon, colon))
        },
    }
}

/// Reads one player's section: `name[data]:squares`.
pub fn parse_god_section(b: &[u8], start: usize, end: usize) -> (r: Result<(GodName, GodData, BitBoard), FenError>)
    requires
        start <= end <= b@.len(),
    ensures
        r matches Ok(sec) ==> sec.2.within_board(),
        r is Ok <==> god_section_ok(b@.subrange(start as int, end as int)),
        r matches Ok(sec) ==> sec.0.name_spec() == section_name(b@.subrange(start as int, end as int)),
        r matches Ok(sec) ==> Some(sec.1) == sec.0.god_data_value(section_data(b@.subrange(start as int, end as int))),
        r matches Ok(sec) ==> forall|x: int| #[trigger] sec.2.has(x) == lists_square(
            section_workers(b@.subrange(start as int, end as int)),
            x,
        ),
{
    let ghost s = b@.subrange(start as int, end as int);
    let colon = match find_byte(b, start, end, COLON) {
        Some(c) => c,
        None => {
            proof {
                lemma_first_at(s, COLON, 0, s.len() as int);
            }
            return Err(FenError::BadGodSection);
        },
    };
    let ghost c = colon - start;
    proof {
        lemma_first_at(s, COLON, 0, c);
        assert(s.take(c) =~= b@.subrange(start as int, colon as int));
    }
    let (name_end, data_start, data_end) = match section_brackets(b, start, colon, end) {
        Some(t) => t,
        None => return Err(FenError::BadGodSection),
    };
    proof {
        assert(b@.subrange(start as int, name_end as int) =~= section_name(s));
        assert(b@.subrange(colon + 1, end as int) =~= section_workers(s));
    }
    let god = match god_from_name(b, start, name_end) {
        Some(g) => g,
        None => return Err(FenError::UnknownGod),
    };
    let data = match god.parse_god_data(&slice_range(b, data_start, data_end)) {
        Some(d) => d,
        None => {
            return Err(FenError::BadGodData);
        },
    };
    let workers = parse_workers(b, colon + 1, end)?;
    Ok((god, data, workers))
}


/// A copy of `b[start..end]`.
pub fn slice_range(b: &[u8], start: usize, end: usize) -> (r: Vec<u8>)
    requires
        start <= end <= b@.len(),
    ensures
        r@ == b@.subrange(start as int, end as int),
{
    let mut r: Vec<u8> = Vec::new();
    let mut i = start;
    while i < end
        invariant
            start <= i <= end,
            end <= b@.len(),
            r@ == b@.subrange(start as int, i as int),
        decreases end - i,
    {
        r.push(b[i]);
        proof {
            assert(b@.subrange(start as int, i + 1) =~= b@.subrange(start as int, i as int).push(b@[i as int]));
        }
        i = i + 1;
    }
    r
}

/// The bytes of a position string.
pub open spec fn fen_bytes(fen: &str) -> Seq<u8> {
    vstd::string::StringSliceAdditionalSpecFns::spec_bytes(fen)
}

/// Reads a position string such as `0000000000000001000000000/1/jason[x]:A1,C1/persephone:E5,D5`:
/// the 25 heights from A5 to E1, the player to move, then each player's god, god data and
/// workers.
pub fn parse_fen(fen: &str) -> (r: Result<FullGameState, FenError>)
    ensures
        r matches Ok(state) ==> state.board.wf() && state.board.winner is None,
        r is Ok <==> fen_ok(fen_bytes(fen)),
        r matches Ok(state) ==> state.gods[0].name_spec() == section_name(fen_section_1(fen_bytes(fen)))
            && state.gods[1].name_spec() == section_name(fen_section_2(fen_bytes(fen))),
        r matches Ok(state) ==> state.board.current_player == (if fen_bytes(fen)[fen_s1(fen_bytes(fen)) + 1]
            == 49 {
            Player::One
        } else {
            Player::Two
        }),
        r matches Ok(state) ==> forall|k: int| 0 <= k < 25 ==> #[trigger] state.board.height(k) == section_heights(
            fen_bytes(fen).take(fen_s1(fen_bytes(fen))),
        )[k],
        r matches Ok(state) ==> forall|x: int| #[trigger] state.board.workers[0].has(x) == lists_square(
            section_workers(fen_section_1(fen_bytes(fen))),
            x,
        ),
        r matches Ok(state) ==> forall|x: int| #[trigger] state.board.workers[1].has(x) == lists_square(
            section_workers(fen_section_2(fen_bytes(fen))),
            x,
        ),
        r matches Ok(state) ==> Some(state.board.god_data[0]) == state.gods[0].god_data_value(
            section_data(fen_section_1(fen_bytes(fen))),
        ) && Some(state.board.god_data[1]) == state.gods[1].god_data_value(
            section_data(fen_section_2(fen_bytes(fen))),
        ),
{
    parse_fen_bytes(fen.as_bytes())
}

/// Where the first slash of a position string stands.
pub open spec fn fen_s1(b: Seq<u8>) -> int {
    first_at(b, 47, 0)
}

/// Where the second slash stands.
pub open spec fn fen_s2(b: Seq<u8>) -> int {
    first_at(b, 47, fen_s1(b) + 1)
}

/// Where the third slash stands.
pub open spec fn fen_s3(b: Seq<u8>) -> int {
    first_at(b, 47, fen_s2(b) + 1)
}

/// The first player's section.
pub open spec fn fen_section_1(b: Seq<u8>) -> Seq<u8> {
    b.subrange(fen_s2(b) + 1, fen_s3(b))
}

/// The second player's section.
pub open spec fn fen_section_2(b: Seq<u8>) -> Seq<u8> {
    b.subrange(fen_s3(b) + 1, b.len() as int)
}

/// A position string that reads: four sections separated by three slashes, heights, a player to
/// move of `1` or `2`, two god sections, and no square with a worker of each player.
pub open spec fn fen_ok(b: Seq<u8>) -> bool {
    &&& fen_s3(b) < b.len()
    &&& first_at(b, 47, fen_s3(b) + 1) == b.len()
    &&& heights_section_ok(b.take(fen_s1(b)))
    &&& fen_s2(b) == fen_s1(b) + 2
    &&& (b[fen_s1(b) + 1] == 49 || b[fen_s1(b) + 1] == 50)
    &&& god_section_ok(fen_section_1(b))
    &&& god_section_ok(fen_section_2(b))
    &&& forall|x: int| !(#[trigger] lists_square(section_workers(fen_section_1(b)), x) && lists_square(
        section_workers(fen_section_2(b)),
        x,
    ))
}

pub fn parse_fen_bytes(b: &[u8]) -> (r: Result<FullGameState, FenError>)
    ensures
        r matches Ok(state) ==> state.board.wf() && state.board.winner is None,
        r is Ok <==> fen_ok(b@),
        r matches Ok(state) ==> state.gods[0].name_spec() == section_name(fen_section_1(b@)) && state.gods[1].name_spec()
            == section_name(fen_section_2(b@)),
        r matches Ok(state) ==> state.board.current_player == (if b@[fen_s1(b@) + 1] == 49 {
            Player::One
        } else {
            Player::Two
        }),
        r matches Ok(state) ==> forall|k: int| 0 <= k < 25 ==> #[trigger] state.board.height(k) == section_heights(
            b@.take(fen_s1(b@)),
        )[k],
        r matches Ok(state) ==> forall|x: int| #[trigger] state.board.workers[0].has(x) == lists_square(
            section_workers(fen_section_1(b@)),
            x,
        ),
        r matches Ok(state) ==> forall|x: int| #[trigger] state.board.workers[1].has(x) == lists_square(
            section_workers(fen_section_2(b@)),
            x,
        ),
        r matches Ok(state) ==> Some(state.board.god_data[0]) == state.gods[0].god_data_value(section_data(fen_section_1(b@)))
            && Some(state.board.god_data[1]) == state.gods[1].god_data_value(section_data(fen_section_2(b@))),
{
    let len = b.len();
    let s1 = match find_byte(b, 0, len, SLASH) {
        Some(i) => i,
        None => {
            proof {
                lemma_first_at(b@, SLASH, 0, len as int);
            }
            return Err(FenError::WrongSectionCount);
        },
    };
    proof {
        lemma_first_at(b@, SLASH, 0, s1 as int);
    }
    let s2 = match find_byte(b, s1 + 1, len, SLASH) {
        Some(i) => i,
        None => {
            proof {
                lemma_first_at(b@, SLASH, s1 + 1, len as int);
            }
            return Err(FenError::WrongSectionCount);
        },
    };
    proof {
        lemma_first_at(b@, SLASH, s1 + 1, s2 as int);
    }
    let s3 = match find_byte(b, s2 + 1, len, SLASH) {
        Some(i) => i,
        None => {
            proof {
                lemma_first_at(b@, SLASH, s2 + 1, len as int);
            }
            return Err(FenError::WrongSectionCount);
        },
    };
    proof {
        lemma_first_at(b@, SLASH, s2 + 1, s3 as int);
    }
    match find_byte(b, s3 + 1, len, SLASH) {
        Some(i) => {
            proof {
                lemma_first_at(b@, SLASH, s3 + 1, i as int);
            }
            return Err(FenError::WrongSectionCount);
        },
        None => {
            proof {
                lemma_first_at(b@, SLASH, s3 + 1, len as int);
            }
        },
    }
    proof {
        assert(b@.subrange(0, s1 as int) =~= b@.take(s1 as int));
    }
    let heights = match parse_heights(b, 0, s1) {
        Ok(h) => h,
        Err(e) => return Err(e),
    };
    if s2 != s1 + 2 {
        return Err(FenError::BadPlayer);
    }
    let current_player = if b[s1 + 1] == DIGIT_ZERO + 1 {
        Player::One
    } else if b[s1 + 1] == DIGIT_ZERO + 2 {
        Player::Two
    } else {
        return Err(FenError::BadPlayer);
    };
    let (god_1, data_1, workers_1) = match parse_god_section(b, s2 + 1, s3) {
        Ok(sec) => sec,
        Err(e) => return Err(e),
    };
    let (god_2, data_2, workers_2) = match parse_god_section(b, s3 + 1, len) {
        Ok(sec) => sec,
        Err(e) => return Err(e),
    };
    let shared = workers_1.and(workers_2);
    if shared.is_not_empty() {
        proof {
            let x = choose|x: int| #[trigger] shared.has(x);
            assert(lists_square(section_workers(fen_section_1(b@)), x));
        }
        return Err(FenError::OverlappingWorkers);
    }
    assert forall|i: int| !(#[trigger] workers_1.has(i) && workers_2.has(i)) by {
        assert(!shared.has(i));
    }
    let builder = GameStateBuilder {
        gods: [god_1, god_2],
        p1_workers: workers_1,
        p2_workers: workers_2,
        heights,
        current_player,
    };
    let ghost hs = heights@;
    let mut state = builder.build();
    let ghost built = state;
    state.board.god_data = [data_1, data_2];
    proof {
        assert(fen_s1(b@) == s1);
        assert(hs == section_heights(b@.take(fen_s1(b@))));
        assert forall|k: int| 0 <= k < 25 implies #[trigger] state.board.height(k) == section_heights(b@.take(fen_s1(b@)))[k] by {
            assert(built.board.height(k) == hs[k]);
            assert(state.board.height_map == built.board.height_map);
        }
        assert(fen_s2(b@) == s2);
        assert(fen_s3(b@) == s3);
        assert(fen_section_1(b@) == b@.subrange(s2 + 1, s3 as int));
        assert(fen_section_2(b@) == b@.subrange(s3 + 1, len as int));
        assert(heights_section_ok(b@.take(fen_s1(b@))));
        assert(god_section_ok(fen_section_1(b@)));
        assert(god_section_ok(fen_section_2(b@)));
        assert(first_at(b@, 47, fen_s3(b@) + 1) == b@.len());
        assert forall|x: int| !(#[trigger] lists_square(section_workers(fen_section_1(b@)), x) && lists_square(
            section_workers(fen_section_2(b@)),
            x,
        )) by {
            assert(!shared.has(x));
        }
        assert(fen_ok(b@));
    }
    Ok(state)
}

/// What a god section written by `push_god_section` reads back as: no slash in it, a colon, well
/// placed brackets, the god's name, its data text and exactly the workers on the board.
pub open spec fn section_reads_back(sec: Seq<u8>, god: GodName, data: GodData, workers: BitBoard) -> bool {
    &&& forall|k: int| 0 <= k < sec.len() ==> #[trigger] sec[k] != 47
    &&& section_colon(sec) < sec.len()
    &&& section_bracket(sec) < section_colon(sec) ==> section_colon(sec) - 1 > section_bracket(sec) && sec[section_colon(sec) - 1] == 93
    &&& section_name(sec) == god.name_spec()
    &&& section_data(sec) == god.god_data_text(data)
    &&& worker_list_ok(section_workers(sec))
    &&& forall|x: int| #[trigger] lists_square(section_workers(sec), x) == (0 <= x < 25 && workers.has(x))
}

/// Appends one player's section: name, data in brackets if any, then the squares in ascending
/// order.
fn push_god_section(out: &mut Vec<u8>, god: GodName, data: GodData, workers: BitBoard)
    ensures
        final(out)@.len() > old(out)@.len(),
        forall|k: int| 0 <= k < old(out)@.len() ==> #[trigger] final(out)@[k] == old(out)@[k],
        section_reads_back(final(out)@.subrange(old(out)@.len() as int, final(out)@.len() as int), god, data, workers),
{
    let ghost start = out@;
    let ghost n = god.name_spec();
    let ghost d = god.god_data_text(data);
    let name = god.name_bytes();
    let mut i: usize = 0;
    while i < name.len()
        invariant
            i <= name@.len(),
            name@ == n,
            out@ == start + n.take(i as int),
        decreases name@.len() - i,
    {
        out.push(name[i]);
        proof {
            assert(n.take(i + 1) =~= n.take(i as int).push(n[i as int]));
        }
        i = i + 1;
    }
    proof {
        assert(n.take(i as int) =~= n);
    }
    let ghost after_name = out@;
    let data_bytes = god.stringify_god_data(data);
    let ghost m: Seq<u8> = if d.len() > 0 {
        seq![91u8] + d + seq![93u8]
    } else {
        Seq::empty()
    };
    if data_bytes.len() > 0 {
        out.push(OPEN_BRACKET);
        let mut j: usize = 0;
        while j < data_bytes.len()
            invariant
                j <= data_bytes@.len(),
                data_bytes@ == d,
                out@ == after_name.push(91u8) + d.take(j as int),
            decreases data_bytes@.len() - j,
        {
            out.push(data_bytes[j]);
            proof {
                assert(d.take(j + 1) =~= d.take(j as int).push(d[j as int]));
            }
            j = j + 1;
        }
        out.push(CLOSE_BRACKET);
        proof {
            assert(d.take(j as int) =~= d);
            assert(out@ =~= after_name + m);
        }
    } else {
        proof {
            assert(out@ =~= after_name + m);
        }
    }
    out.push(COLON);
    let ghost before_list = out@;
    let squares = workers.squares();
    proof {
        crate::bitboard::lemma_squares_below(workers.0, 25);
        assert(square_list_bytes(squares@.take(0)) =~= Seq::<u8>::empty());
        assert(out@ =~= before_list + square_list_bytes(squares@.take(0)));
    }
    let mut k: usize = 0;
    while k < squares.len()
        invariant
            k <= squares@.len(),
            forall|m: int| 0 <= m < squares@.len() ==> #[trigger] squares@[m] < 25,
            out@ == before_list + square_list_bytes(squares@.take(k as int)),
        decreases squares@.len() - k,
    {
        let ghost before = out@;
        if k > 0 {
            out.push(COMMA);
        }
        let sq: Square = squares[k];
        out.push(square_file_byte(sq));
        out.push(square_rank_byte(sq));
        proof {
            let t = squares@.take(k + 1);
            assert(t.drop_last() =~= squares@.take(k as int));
            assert(t.last() == sq);
            assert(out@ =~= before_list + square_list_bytes(t));
        }
        k = k + 1;
    }
    proof {
        assert(squares@.take(k as int) =~= squares@);
        let w = square_list_bytes(squares@);
        lemma_square_list_reads(squares@);
        crate::gods::lemma_name_letters(god);
        crate::gods::lemma_god_data_text_plain(god, data);
        let sec = out@.subrange(start.len() as int, out@.len() as int);
        assert(sec =~= n + m + seq![58u8] + w);
        let c: int = (n.len() + m.len()) as int;
        assert forall|q: int| 0 <= q < c implies sec[q] != 58 by {
            if q < n.len() {
                assert(sec[q] == n[q]);
            } else if d.len() > 0 {
                if q > n.len() && q < c - 1 {
                    assert(sec[q] == d[q - n.len() - 1]);
                }
            }
        }
        assert(sec[c] == 58);
        lemma_first_at(sec, 58, 0, c);
        assert(section_colon(sec) == c);
        let tk = sec.take(c);
        assert forall|q: int| 0 <= q < n.len() implies tk[q] != 91 by {
            assert(tk[q] == n[q]);
        }
        if d.len() > 0 {
            assert(tk[n.len() as int] == 91);
            lemma_first_at(tk, 91, 0, n.len() as int);
            assert(sec.subrange(n.len() + 1int, c - 1) =~= d);
        } else {
            lemma_first_at(tk, 91, 0, c);
        }
        assert(section_bracket(sec) == n.len());
        assert(sec.take(n.len() as int) =~= n);
        assert(section_name(sec) == n);
        assert(section_data(sec) =~= d);
        assert(sec.skip(c + 1) =~= w);
        assert forall|q: int| 0 <= q < sec.len() implies #[trigger] sec[q] != 47 by {
            if q < n.len() {
                assert(sec[q] == n[q]);
            } else if q < c {
                if d.len() > 0 && q > n.len() && q < c - 1 {
                    assert(sec[q] == d[q - n.len() - 1]);
                }
            } else if q > c {
                assert(sec[q] == w[q - c - 1]);
            }
        }
        assert forall|x: int| #[trigger] lists_square(section_workers(sec), x) == (0 <= x < 25 && workers.has(x)) by {
            if 0 <= x < 25 && workers.has(x) {
                assert(squares@.contains(x as u8));
            }
        }
    }
}

/// A run of height digits reads back as those heights.
proof fn lemma_height_digits_all(s: Seq<u8>)
    requires
        forall|k: int| 0 <= k < s.len() ==> 48 <= #[trigger] s[k] <= 52,
    ensures
        height_digits(s).len() == s.len(),
        forall|k: int| 0 <= k < s.len() ==> #[trigger] height_digits(s)[k] == s[k] - 48,
    decreases s.len(),
{
    if s.len() > 0 {
        let t = s.drop_last();
        assert forall|k: int| 0 <= k < t.len() implies 48 <= #[trigger] t[k] <= 52 by {
            assert(t[k] == s[k]);
        }
        lemma_height_digits_all(t);
        assert forall|k: int| 0 <= k < s.len() implies #[trigger] height_digits(s)[k] == s[k] - 48 by {
            if k < s.len() - 1 {
                assert(t[k] == s[k]);
            }
        }
    }
}

/// A position whose every part the written form carries: a well formed board, and god data that
/// each god's text form reads back as.
pub open spec fn has_written_form(state: FullGameState) -> bool {
    &&& state.board.wf()
    &&& state.gods[0].god_data_value(state.gods[0].god_data_text(state.board.god_data[0])) == Some(state.board.god_data[0])
    &&& state.gods[1].god_data_value(state.gods[1].god_data_text(state.board.god_data[1])) == Some(state.board.god_data[1])
}

/// Writes a position in the form `parse_fen` reads, as ASCII bytes: the heights, the player to
/// move, then each player's section. The heights and the player to move read back as they were,
/// and so do the gods, their data and the workers, wherever the written form can carry them.
pub fn game_state_to_fen(state: &FullGameState) -> (r: Vec<u8>)
    ensures
        r@.len() > 28,
        forall|k: int| 0 <= k < 25 ==> #[trigger] r@[k] == 48 + state.board.height(k),
        r@[25] == SLASH,
        r@[26] == (if state.board.current_player == Player::One {
            49u8
        } else {
            50u8
        }),
        r@[27] == SLASH,
        fen_s1(r@) == 25,
        fen_s2(r@) == 27,
        heights_section_ok(r@.take(fen_s1(r@))),
        forall|k: int| 0 <= k < 25 ==> #[trigger] section_heights(r@.take(fen_s1(r@)))[k] == state.board.height(k),
        (r@[fen_s1(r@) + 1] == 49) == (state.board.current_player == Player::One),
        has_written_form(*state) ==> fen_ok(r@),
        has_written_form(*state) ==> section_name(fen_section_1(r@)) == state.gods[0].name_spec() && section_name(fen_section_2(r@))
            == state.gods[1].name_spec(),
        has_written_form(*state) ==> state.gods[0].god_data_value(section_data(fen_section_1(r@))) == Some(state.board.god_data[0])
            && state.gods[1].god_data_value(section_data(fen_section_2(r@))) == Some(state.board.god_data[1]),
        has_written_form(*state) ==> forall|x: int| #[trigger] lists_square(section_workers(fen_section_1(r@)), x)
            == state.board.workers[0].has(x),
        has_written_form(*state) ==> forall|x: int| #[trigger] lists_square(section_workers(fen_section_2(r@)), x)
            == state.board.workers[1].has(x),
{
    let mut out: Vec<u8> = Vec::new();
    let mut sq: u8 = 0;
    while sq < 25
        invariant
            sq <= 25,
            out@.len() == sq,
            forall|k: int| 0 <= k < sq ==> #[trigger] out@[k] == 48 + state.board.height(k),
        decreases 25 - sq,
    {
        let h = state.board.get_height(sq) as u8;
        out.push(DIGIT_ZERO + h);
        sq = sq + 1;
    }
    out.push(SLASH);
    let ghost prefix = out@;
    match state.board.current_player {
        Player::One => out.push(DIGIT_ZERO + 1),
        Player::Two => out.push(DIGIT_ZERO + 2),
    }
    out.push(SLASH);
    let ghost with_player = out@;
    push_god_section(&mut out, state.gods[0], state.board.god_data[0], state.board.workers[0]);
    let ghost after_first = out@;
    out.push(SLASH);
    let ghost with_first = out@;
    push_god_section(&mut out, state.gods[1], state.board.god_data[1], state.board.workers[1]);
    proof {
        let b = out@;
        let l1 = after_first.len() as int;
        let sec1 = after_first.subrange(28, l1);
        let sec2 = b.subrange(l1 + 1, b.len() as int);
        assert(b.subrange(28, l1) =~= sec1) by {
            assert forall|k: int| 28 <= k < l1 implies b[k] == after_first[k] by {
                assert(b[k] == with_first[k]);
            }
        }
        assert(b[l1] == SLASH) by {
            assert(b[l1] == with_first[l1]);
        }
        assert(b[26] == with_player[26] && b[27] == with_player[27]) by {
            assert(b[26] == with_first[26]);
            assert(b[27] == with_first[27]);
            assert(with_first[26] == after_first[26]);
            assert(with_first[27] == after_first[27]);
        }
        assert forall|k: int| 28 <= k < l1 implies b[k] != SLASH by {
            assert(b[k] == sec1[k - 28]);
        }
        if has_written_form(*state) {
            assert forall|k: int| 0 <= k < 25 implies b[k] != SLASH by {
                assert(b[k] == with_first[k]);
                assert(with_first[k] == after_first[k]);
                assert(after_first[k] == with_player[k]);
            }
            lemma_first_at(b, SLASH, 0, 25);
            lemma_first_at(b, SLASH, 26, 27);
            lemma_first_at(b, SLASH, 28, l1);
            assert forall|k: int| l1 + 1 <= k < b.len() implies b[k] != SLASH by {
                assert(b[k] == sec2[k - l1 - 1]);
            }
            lemma_first_at(b, SLASH, l1 + 1, b.len() as int);
            assert(fen_s3(b) == l1);
            assert(fen_section_1(b) =~= sec1);
            assert(fen_section_2(b) =~= sec2);
            assert forall|g: GodName| #[trigger] g.name_spec() == section_name(sec1) implies g.god_data_value(section_data(sec1)) is Some by {
                crate::gods::lemma_name_unique(g, state.gods[0]);
            }
            assert forall|g: GodName| #[trigger] g.name_spec() == section_name(sec2) implies g.god_data_value(section_data(sec2)) is Some by {
                crate::gods::lemma_name_unique(g, state.gods[1]);
            }
            assert(god_section_ok(sec1));
            assert(god_section_ok(sec2));
            assert forall|x: int| #[trigger] lists_square(section_workers(sec1), x) == state.board.workers[0].has(x) by {}
            assert forall|x: int| !(#[trigger] lists_square(section_workers(fen_section_1(b)), x) && lists_square(
                section_workers(fen_section_2(b)),
                x,
            )) by {}
        }
    }
    proof {
        assert forall|k: int| 0 <= k < 28 implies out@[k] == with_player[k] by {
            assert(out@[k] == with_first[k]);
            assert(with_first[k] == with_player[k]);
        }
        assert forall|k: int| 0 <= k < 26 implies out@[k] == prefix[k] by {
            assert(out@[k] == with_player[k]);
        }
        let b = out@;
        assert forall|k: int| 0 <= k < 25 implies b[k] != SLASH by {
            assert(b[k] == prefix[k]);
        }
        lemma_first_at(b, SLASH, 0, 25);
        lemma_first_at(b, SLASH, 26, 27);
        let hs = b.take(25);
        assert forall|k: int| 0 <= k < hs.len() implies 48 <= #[trigger] hs[k] <= 52 by {
            assert(hs[k] == prefix[k]);
        }
        lemma_height_digits_all(hs);
        assert forall|k: int| 0 <= k < hs.len() implies #[trigger] hs[k] == 32 || 48 <= hs[k] <= 52 by {
            assert(hs[k] == prefix[k]);
        }
    }
    out
}

} // verus!
