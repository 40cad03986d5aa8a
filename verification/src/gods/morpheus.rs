use vstd::prelude::*;

use crate::bitboard::{bit, group_bit_lemmas, neighbor_mask, BitBoard};
use crate::board::{BoardState, FullGameState, Player};
use crate::generic::{
    build_scored_move, field_at, is_interact_with_key_squares, is_mate_only, is_winning_data, read_position,
    GenericMove, MoveData, MoveGenFlags, ScoredMove, ANY_MOVE_FILTER, MOVE_IS_WINNING_MASK,
};
use crate::gods::mortal::{is_acting_worker, is_standard_build_for, lemma_move_worker_keeps_wf, lemma_prelude_acting};
use crate::gods::move_helpers::{
    get_generator_prelude_state, get_sized_result, get_standard_reach_board_from_parts, get_worker_end_move_state,
    get_worker_next_build_state, get_worker_next_move_state, get_worker_start_move_state, is_standard_step,
    modify_prelude_for_checking_workers, GeneratorPreludeState,
};
use crate::square::{is_adjacent, Square};
use crate::gods::{BoardSymmetry, PlacementType, god_power, GodName, GodPower};

verus! {

/// The square offset of each of the eight directions, clockwise from the north-west.
pub open spec fn dir_offset(d: int) -> int {
    if d == 0 {
        -6
    } else if d == 1 {
        -5
    } else if d == 2 {
        -4
    } else if d == 3 {
        1
    } else if d == 4 {
        6
    } else if d == 5 {
        5
    } else if d == 6 {
        4
    } else {
        -1
    }
}

/// Whether `b` is the neighbour of `a` in direction `d`.
pub open spec fn in_direction(a: int, d: int, b: int) -> bool {
    &&& 0 <= d < 8
    &&& is_adjacent(a, b)
    &&& b == a + dir_offset(d)
}

/// The bits that write `n` builds in one direction: a lone 0 for none, `n` ones closed by a 0 for
/// one to three, and four ones, with nothing to close them, for a full tower.
pub open spec fn run_bits(n: nat) -> Seq<bool> {
    if n == 0 {
        seq![false]
    } else if n >= 4 {
        seq![true, true, true, true]
    } else {
        Seq::new(n, |i: int| true).push(false)
    }
}

/// The runs of the directions from `d` on, in order.
pub open spec fn encode_from(c: Seq<nat>, d: nat) -> Seq<bool>
    decreases 8 - d,
{
    if d >= 8 {
        Seq::empty()
    } else {
        run_bits(c[d as int]) + encode_from(c, d + 1)
    }
}

/// The build section of a Morpheus word for the counts `c`, one run per direction.
pub open spec fn encode_runs(c: Seq<nat>) -> Seq<bool> {
    encode_from(c, 0)
}

/// Reading state of the build section: the direction being read, how many ones in a row it has
/// seen, and the counts so far.
pub open spec fn decode_step(st: (nat, nat, Seq<nat>), b: bool) -> (nat, nat, Seq<nat>) {
    let (d, k, c) = st;
    if d >= 8 {
        st
    } else if b {
        let c2 = c.update(d as int, c[d as int] + 1);
        if k + 1 == 4 {
            ((d + 1) as nat, 0, c2)
        } else {
            (d, (k + 1) as nat, c2)
        }
    } else {
        ((d + 1) as nat, 0, c)
    }
}

/// Reads the bits in order from the state `st`.
pub open spec fn decode_bits(bits: Seq<bool>, st: (nat, nat, Seq<nat>)) -> (nat, nat, Seq<nat>)
    decreases bits.len(),
{
    if bits.len() == 0 {
        st
    } else {
        decode_bits(bits.drop_first(), decode_step(st, bits[0]))
    }
}

/// No builds in any direction.
pub open spec fn no_builds() -> Seq<nat> {
    Seq::new(8, |i: int| 0nat)
}

/// The 20 bits of the build section of a word.
pub open spec fn build_bits(data: u32) -> Seq<bool> {
    Seq::new(20, |i: int| bit(data, i as u32))
}

/// The builds per direction that a word asks for.
pub open spec fn morpheus_counts(data: u32) -> Seq<nat> {
    decode_bits(build_bits(data), (0, 0, no_builds())).2
}

/// Counts of a full turn: eight directions, at most a tower each.
pub open spec fn counts_fit(c: Seq<nat>) -> bool {
    &&& c.len() == 8
    &&& forall|d: int| 0 <= d < 8 ==> #[trigger] c[d] <= 4
}

/// The total of the counts of the first `n` directions.
pub open spec fn total_below(c: Seq<nat>, n: nat) -> nat
    decreases n,
{
    if n == 0 {
        0
    } else {
        total_below(c, (n - 1) as nat) + c[n - 1]
    }
}

/// The total number of builds.
pub open spec fn total_builds(c: Seq<nat>) -> nat {
    total_below(c, 8)
}

/// Reading `a` then `b` is reading `a + b`.
pub proof fn lemma_decode_concat(a: Seq<bool>, b: Seq<bool>, st: (nat, nat, Seq<nat>))
    ensures
        decode_bits(a + b, st) == decode_bits(b, decode_bits(a, st)),
    decreases a.len(),
{
    if a.len() > 0 {
        assert((a + b).drop_first() == a.drop_first() + b);
        lemma_decode_concat(a.drop_first(), b, decode_step(st, a[0]));
    } else {
        assert(a + b == b);
    }
}

/// Past the last direction nothing more is read.
pub proof fn lemma_decode_done(bits: Seq<bool>, st: (nat, nat, Seq<nat>))
    requires
        st.0 >= 8,
    ensures
        decode_bits(bits, st) == st,
    decreases bits.len(),
{
    if bits.len() > 0 {
        lemma_decode_done(bits.drop_first(), st);
    }
}

/// Reading one direction's run from its start moves on to the next direction with its count.
proof fn lemma_decode_run(n: nat, d: nat, c: Seq<nat>)
    requires
        d < 8,
        n <= 4,
        c.len() == 8,
    ensures
        decode_bits(run_bits(n), (d, 0, c)) == ((d + 1) as nat, 0nat, c.update(d as int, c[d as int] + n)),
{
    reveal_with_fuel(decode_bits, 6);
    let r = run_bits(n);
    if n == 0 {
        assert(c.update(d as int, c[d as int] + 0) =~= c);
    } else if n == 1 {
        assert(r =~= seq![true, false]);
    } else if n == 2 {
        assert(r =~= seq![true, true, false]);
        let c1 = c.update(d as int, c[d as int] + 1);
        assert(c1.update(d as int, c1[d as int] + 1) =~= c.update(d as int, c[d as int] + 2));
    } else if n == 3 {
        assert(r =~= seq![true, true, true, false]);
        let c1 = c.update(d as int, c[d as int] + 1);
        let c2 = c1.update(d as int, c1[d as int] + 1);
        assert(c2.update(d as int, c2[d as int] + 1) =~= c.update(d as int, c[d as int] + 3));
    } else {
        let c1 = c.update(d as int, c[d as int] + 1);
        let c2 = c1.update(d as int, c1[d as int] + 1);
        let c3 = c2.update(d as int, c2[d as int] + 1);
        assert(c3.update(d as int, c3[d as int] + 1) =~= c.update(d as int, c[d as int] + 4));
    }
}

/// Reading the runs of the directions from `d` on, then any zeros, ends with the counts.
proof fn lemma_decode_encode_from(c: Seq<nat>, d: nat, cu: Seq<nat>, z: Seq<bool>)
    requires
        d <= 8,
        counts_fit(c),
        cu.len() == 8,
        forall|j: int| 0 <= j < d ==> #[trigger] cu[j] == c[j],
        forall|j: int| d <= j < 8 ==> #[trigger] cu[j] == 0,
    ensures
        decode_bits(encode_from(c, d) + z, (d, 0, cu)).2 == c,
    decreases 8 - d,
{
    if d >= 8 {
        assert(encode_from(c, d) + z =~= z);
        lemma_decode_done(z, (d, 0, cu));
        assert(cu =~= c);
    } else {
        let r = run_bits(c[d as int]);
        let rest = encode_from(c, d + 1);
        assert(encode_from(c, d) + z =~= r + (rest + z));
        lemma_decode_concat(r, rest + z, (d, 0, cu));
        lemma_decode_run(c[d as int], d, cu);
        let cu2 = cu.update(d as int, cu[d as int] + c[d as int]);
        lemma_decode_encode_from(c, d + 1, cu2, z);
    }
}

/// A word whose build section holds the runs of `c` asks for exactly the counts `c`.
pub proof fn lemma_counts_round_trip(c: Seq<nat>, data: u32)
    requires
        counts_fit(c),
        encode_runs(c).len() <= 20,
        forall|i: int| 0 <= i < 20 ==> #[trigger] bit(data, i as u32) == (i < encode_runs(c).len() && encode_runs(c)[i]),
    ensures
        morpheus_counts(data) == c,
{
    let e = encode_runs(c);
    let z = Seq::new((20 - e.len()) as nat, |i: int| false);
    assert(build_bits(data) =~= e + z);
    lemma_decode_encode_from(c, 0, no_builds(), z);
}

/// The runs of the first `i` directions, in order.
pub open spec fn encode_upto(c: Seq<nat>, i: nat) -> Seq<bool>
    decreases i,
{
    if i == 0 {
        Seq::empty()
    } else {
        encode_upto(c, (i - 1) as nat) + run_bits(c[i - 1])
    }
}

/// The runs before direction `i` and the runs from it make up the whole section.
pub proof fn lemma_encode_split(c: Seq<nat>, i: nat)
    requires
        i <= 8,
    ensures
        encode_upto(c, i) + encode_from(c, i) == encode_runs(c),
    decreases i,
{
    if i == 0 {
        assert(encode_upto(c, 0) + encode_from(c, 0) =~= encode_runs(c));
    } else {
        lemma_encode_split(c, (i - 1) as nat);
        let p = encode_upto(c, (i - 1) as nat);
        assert(encode_from(c, (i - 1) as nat) == run_bits(c[i - 1]) + encode_from(c, i));
        assert(p + (run_bits(c[i - 1]) + encode_from(c, i)) =~= (p + run_bits(c[i - 1])) + encode_from(c, i));
    }
}

/// The section is at most a bit per direction plus a bit per build.
pub proof fn lemma_encode_len(c: Seq<nat>, d: nat)
    requires
        d <= 8,
        counts_fit(c),
    ensures
        encode_from(c, d).len() + total_below(c, d) <= 8 - d + total_builds(c),
    decreases 8 - d,
{
    if d < 8 {
        lemma_encode_len(c, d + 1);
    }
}

/// The counts as numbers, from the bytes that hold them.
pub open spec fn counts_of(v: Seq<u8>) -> Seq<nat> {
    Seq::new(8, |i: int| v[i] as nat)
}

proof fn lemma_run_mask(n: u32, k: u32, j: u32)
    by (bit_vector)
    requires
        n <= 4,
        k <= 20,
        j < 32,
    ensures
        (((((1u32 << n) - 1u32) as u32) << k) >> j) & 1u32 == 1u32 <==> (k <= j && j < k + n),
        0b1111u32 == ((1u32 << 4u32) - 1u32) as u32,
        (1u32 << n) >= 1,
        (1u32 << 0u32) == 1,
{
}

proof fn lemma_run_bound(x: u32, n: u32, k: u32, m: u32)
    by (bit_vector)
    requires
        x < (1u32 << k),
        n <= 4,
        k + n <= m,
        m <= 20,
    ensures
        (x | ((((1u32 << n) - 1u32) as u32) << k)) < (1u32 << m),
        x < (1u32 << m),
{
}

proof fn lemma_word_fields(bits: u32, from: u32, to: u32, j: u32)
    by (bit_vector)
    requires
        bits < (1u32 << 20u32),
        from < 32,
        to < 25,
        j < 20,
    ensures
        ((bits | (from << 20u32) | (to << 25u32)) >> 20u32) & 31u32 == from,
        ((bits | (from << 20u32) | (to << 25u32)) >> 25u32) & 31u32 == to,
        (bits | (from << 20u32) | (to << 25u32)) & 0x8000_0000u32 == 0,
        (((bits | (from << 20u32) | (to << 25u32)) >> j) & 1u32 == 1u32) == ((bits >> j) & 1u32 == 1u32),
{
}

/// The build section for the counts `c`, as a number.
fn encode_counts(counts: &Vec<u8>) -> (r: u32)
    requires
        counts@.len() == 8,
        counts_fit(counts_of(counts@)),
        total_builds(counts_of(counts@)) <= 12,
    ensures
        r < (1u32 << 20u32),
        encode_runs(counts_of(counts@)).len() <= 20,
        forall|j: int| 0 <= j < 32 ==> #[trigger] bit(r, j as u32) == (j < encode_runs(counts_of(counts@)).len()
            && encode_runs(counts_of(counts@))[j]),
{
    let ghost c = counts_of(counts@);
    proof {
        lemma_encode_len(c, 0);
        lemma_encode_split(c, 8);
        assert(encode_from(c, 8) =~= Seq::<bool>::empty());
        assert(encode_upto(c, 8) =~= encode_runs(c));
    }
    broadcast use crate::bitboard::group_bit_lemmas;

    let mut data: u32 = 0;
    let mut bit_idx: u32 = 0;
    let mut i: usize = 0;
    proof {
        lemma_run_mask(0, 0, 0);
    }
    while i < 8
        invariant
            i <= 8,
            counts@.len() == 8,
            c == counts_of(counts@),
            counts_fit(c),
            encode_runs(c).len() <= 20,
            bit_idx == encode_upto(c, i as nat).len(),
            bit_idx <= 20,
            data < (1u32 << bit_idx),
            forall|j: int| 0 <= j < 32 ==> #[trigger] bit(data, j as u32) == (j < bit_idx && encode_upto(c, i as nat)[j]),
        decreases 8 - i,
    {
        let ghost prev = encode_upto(c, i as nat);
        let n = counts[i];
        proof {
            lemma_encode_split(c, i as nat);
            lemma_encode_split(c, (i + 1) as nat);
            assert(encode_from(c, i as nat) == run_bits(c[i as int]) + encode_from(c, (i + 1) as nat));
            assert(encode_upto(c, (i + 1) as nat) == prev + run_bits(c[i as int]));
            assert(n as nat == c[i as int]);
            assert(encode_upto(c, (i + 1) as nat).len() <= 20);
        }
        let old_data = data;
        if n == 0 {
            bit_idx = bit_idx + 1;
            proof {
                lemma_run_bound(old_data, 0, (bit_idx - 1) as u32, bit_idx);
                assert forall|j: int| 0 <= j < 32 implies #[trigger] bit(data, j as u32) == (j < bit_idx && encode_upto(c, (i + 1) as nat)[j]) by {
                    if j < bit_idx - 1 {
                        assert(encode_upto(c, (i + 1) as nat)[j] == prev[j]);
                    }
                }
            }
        } else if n == 4 {
            data = data | (0b1111u32 << bit_idx);
            bit_idx = bit_idx + 4;
            proof {
                let k = (bit_idx - 4) as u32;
                lemma_run_mask(4, k, 0);
                lemma_run_bound(old_data, 4, k, bit_idx);
                assert forall|j: int| 0 <= j < 32 implies #[trigger] bit(data, j as u32) == (j < bit_idx && encode_upto(c, (i + 1) as nat)[j]) by {
                    lemma_run_mask(4, k, j as u32);
                    crate::bitboard::lemma_bit_or(old_data, 0b1111u32 << k, j as u32);
                    if j < k {
                        assert(encode_upto(c, (i + 1) as nat)[j] == prev[j]);
                    } else if j < bit_idx {
                        assert(encode_upto(c, (i + 1) as nat)[j] == run_bits(4)[j - k]);
                    }
                }
            }
        } else {
            let nn = n as u32;
            proof {
                lemma_run_mask(nn, bit_idx, 0);
            }
            data = data | ((((1u32 << nn) - 1) as u32) << bit_idx);
            bit_idx = bit_idx + nn + 1;
            proof {
                let k = (bit_idx - nn - 1) as u32;
                lemma_run_mask(nn, k, 0);
                lemma_run_bound(old_data, nn, k, bit_idx);
                assert forall|j: int| 0 <= j < 32 implies #[trigger] bit(data, j as u32) == (j < bit_idx && encode_upto(c, (i + 1) as nat)[j]) by {
                    lemma_run_mask(nn, k, j as u32);
                    crate::bitboard::lemma_bit_or(old_data, (((1u32 << nn) - 1) as u32) << k, j as u32);
                    if j < k {
                        assert(encode_upto(c, (i + 1) as nat)[j] == prev[j]);
                    } else if j < bit_idx {
                        assert(encode_upto(c, (i + 1) as nat)[j] == run_bits(n as nat)[j - k]);
                    }
                }
            }
        }
        i = i + 1;
    }
    proof {
        lemma_run_bound(data, 0, bit_idx, 20);
    }
    data
}

/// How many levels the counts `c` put on `s`, over the first `n` directions from `to`.
pub open spec fn builds_at_below(to: int, c: Seq<nat>, n: nat, s: int) -> nat
    decreases n,
{
    if n == 0 {
        0
    } else {
        builds_at_below(to, c, (n - 1) as nat, s) + if to + dir_offset(n - 1) == s {
            c[n - 1]
        } else {
            0nat
        }
    }
}

/// How many levels the counts `c` put on `s`, building around `to`.
pub open spec fn builds_at(to: int, c: Seq<nat>, s: int) -> nat {
    builds_at_below(to, c, 8, s)
}

/// Each direction leads to its own square.
proof fn lemma_builds_at_dir(to: int, c: Seq<nat>, n: nat, d: int)
    requires
        0 <= d < 8,
        n <= 8,
    ensures
        builds_at_below(to, c, n, to + dir_offset(d)) == if d < n { c[d] } else { 0nat },
    decreases n,
{
    if n > 0 {
        lemma_builds_at_dir(to, c, (n - 1) as nat, d);
    }
}

/// One more build in direction `d` puts one more level on its square.
proof fn lemma_builds_at_add(to: int, c: Seq<nat>, n: nat, d: int, s: int)
    requires
        0 <= d < 8,
        c.len() == 8,
        n <= 8,
    ensures
        builds_at_below(to, c.update(d, c[d] + 1), n, s) == builds_at_below(to, c, n, s) + if d < n && to
            + dir_offset(d) == s {
            1nat
        } else {
            0nat
        },
    decreases n,
{
    if n > 0 {
        lemma_builds_at_add(to, c, (n - 1) as nat, d, s);
    }
}

/// One more build in direction `d` adds one to the total.
proof fn lemma_total_add(c: Seq<nat>, n: nat, d: int)
    requires
        0 <= d < 8,
        c.len() == 8,
        n <= 8,
    ensures
        total_below(c.update(d, c[d] + 1), n) == total_below(c, n) + if d < n { 1nat } else { 0nat },
    decreases n,
{
    if n > 0 {
        lemma_total_add(c, (n - 1) as nat, d);
    }
}

/// Reading on never takes a build away, and keeps eight counts.
proof fn lemma_decode_grows(bits: Seq<bool>, st: (nat, nat, Seq<nat>))
    requires
        st.2.len() == 8,
    ensures
        decode_bits(bits, st).2.len() == 8,
        forall|d: int| 0 <= d < 8 ==> #[trigger] decode_bits(bits, st).2[d] >= st.2[d],
    decreases bits.len(),
{
    if bits.len() > 0 {
        lemma_decode_grows(bits.drop_first(), decode_step(st, bits[0]));
    }
}

/// Reading the first `i + 1` bits is reading the first `i`, then bit `i`.
proof fn lemma_decode_take(bits: Seq<bool>, i: int, st: (nat, nat, Seq<nat>))
    requires
        0 <= i < bits.len(),
    ensures
        decode_bits(bits.take(i + 1), st) == decode_step(decode_bits(bits.take(i), st), bits[i]),
{
    assert(bits.take(i + 1) =~= bits.take(i) + seq![bits[i]]);
    lemma_decode_concat(bits.take(i), seq![bits[i]], st);
    reveal_with_fuel(decode_bits, 2);
    assert(seq![bits[i]].drop_first() =~= Seq::<bool>::empty());
}

/// No counts put nothing anywhere.
proof fn lemma_builds_at_zero(to: int, c: Seq<nat>, n: nat, s: int)
    requires
        c == no_builds(),
        n <= 8,
    ensures
        builds_at_below(to, c, n, s) == 0,
    decreases n,
{
    if n > 0 {
        lemma_builds_at_zero(to, c, (n - 1) as nat, s);
    }
}

/// No counts total nothing.
proof fn lemma_total_zero(c: Seq<nat>, n: nat)
    requires
        c == no_builds(),
        n <= 8,
    ensures
        total_below(c, n) == 0,
    decreases n,
{
    if n > 0 {
        lemma_total_zero(c, (n - 1) as nat);
    }
}

/// Counts below others total no more than they do.
proof fn lemma_total_bound(big: Seq<nat>, small: Seq<nat>, n: nat)
    requires
        n <= 8,
        big.len() == 8,
        small.len() == 8,
        forall|d: int| 0 <= d < 8 ==> #[trigger] small[d] <= big[d],
    ensures
        total_below(small, n) <= total_below(big, n),
    decreases n,
{
    if n > 0 {
        lemma_total_bound(big, small, (n - 1) as nat);
    }
}

/// The words a board can carry out: every build's square is on the board in its direction and
/// has room for its levels, and there are build tokens enough.
pub open spec fn morpheus_playable(board: BoardState, player: Player, data: u32) -> bool {
    let c = morpheus_counts(data);
    let to = field_at(data, 25) as int;
    &&& counts_fit(c)
    &&& forall|d: int| 0 <= d < 8 && #[trigger] c[d] > 0 ==> in_direction(to, d, to + dir_offset(d)) && board.height(
        to + dir_offset(d),
    ) + c[d] <= 4
    &&& total_builds(c) <= board.god_data[player.idx()] + 1
    &&& board.god_data[player.idx()] < 0xFFFF_FFFF
}

/// The square next to `sq` in direction `d`.
fn square_toward(sq: Square, d: u32) -> (r: Square)
    requires
        d < 8,
        0 <= sq + dir_offset(d as int) < 25,
    ensures
        r == sq + dir_offset(d as int),
{
    if d == 0 {
        sq - 6
    } else if d == 1 {
        sq - 5
    } else if d == 2 {
        sq - 4
    } else if d == 3 {
        sq + 1
    } else if d == 4 {
        sq + 6
    } else if d == 5 {
        sq + 5
    } else if d == 6 {
        sq + 4
    } else {
        sq - 1
    }
}

/// The word of a winning Morpheus move.
pub open spec fn morpheus_winning_word(from: u32, to: u32) -> u32 {
    (from << 20u32) | (to << 25u32) | MOVE_IS_WINNING_MASK
}

/// A word of a move from `from` to `to` with the builds `c`: the squares above the build section,
/// the runs of `c` in it, and no flag.
pub open spec fn is_morpheus_word(data: u32, from: u32, to: u32, c: Seq<nat>) -> bool {
    &&& field_at(data, 20) == from
    &&& field_at(data, 25) == to
    &&& data & 0xC000_0000u32 == 0
    &&& forall|j: int| 0 <= j < 20 ==> #[trigger] bit(data, j as u32) == (j < encode_runs(c).len() && encode_runs(c)[j])
}

/// `n` builds in direction `d` after a move from `from` to `to`: the square there may be built
/// on, and has room for them.
pub open spec fn is_morpheus_build(state: FullGameState, player: Player, from: int, to: int, d: int, n: nat) -> bool {
    &&& in_direction(to, d, to + dir_offset(d))
    &&& is_standard_build_for(state, player, from, to, to + dir_offset(d))
    &&& state.board.height(to + dir_offset(d)) + n <= 4
}

/// A legal Morpheus turn, read off its word: a move as a mortal's, then, unless it wins, any
/// number of builds around where the worker landed, up to the build tokens plus one and at most
/// twelve, each square built at most up to a dome.
pub open spec fn is_morpheus_turn(state: FullGameState, player: Player, must_climb: bool, data: u32) -> bool {
    let board = state.board;
    let p = player.idx();
    let from = field_at(data, 20);
    let to = field_at(data, 25);
    let c = morpheus_counts(data);
    &&& is_acting_worker(state, player, from as int)
    &&& is_standard_step(board, from as int, to as int, must_climb)
    &&& board.god_data[p] < 0xFFFF_FFFF
    &&& if is_winning_data(data) {
        &&& data == morpheus_winning_word(from, to)
        &&& board.height(from as int) == 2
        &&& board.height(to as int) == 3
    } else {
        &&& !(board.height(from as int) == 2 && board.height(to as int) == 3)
        &&& counts_fit(c)
        &&& is_morpheus_word(data, from, to, c)
        &&& total_builds(c) <= board.god_data[p] + 1
        &&& total_builds(c) <= 12
        &&& forall|d: int| 0 <= d < 8 && #[trigger] c[d] > 0 ==> is_morpheus_build(state, player, from as int, to as int, d, c[d])
    }
}

/// Directions with no builds write only closing zeros.
proof fn lemma_encode_from_zero(c: Seq<nat>, d: nat)
    requires
        d <= 8,
        forall|j: int| d <= j < 8 ==> #[trigger] c[j] == 0,
    ensures
        encode_from(c, d) =~= Seq::new((8 - d) as nat, |i: int| false),
    decreases 8 - d,
{
    if d < 8 {
        lemma_encode_from_zero(c, d + 1);
    }
}

/// The runs of directions with no builds are closing zeros only.
proof fn lemma_encode_upto_zero(c: Seq<nat>, i: nat)
    requires
        i <= 8,
        forall|j: int| 0 <= j < i ==> #[trigger] c[j] == 0,
    ensures
        encode_upto(c, i) =~= Seq::new(i, |k: int| false),
    decreases i,
{
    if i > 0 {
        lemma_encode_upto_zero(c, (i - 1) as nat);
    }
}

/// One build in direction `d`, none elsewhere.
pub open spec fn single_build(d: int) -> Seq<nat> {
    Seq::new(8, |i: int| if i == d { 1nat } else { 0nat })
}

/// With one build, its direction's bit is the only one set: bit `d`.
proof fn lemma_single_build_runs(d: int)
    requires
        0 <= d < 8,
    ensures
        encode_runs(single_build(d)).len() == 9,
        forall|j: int| 0 <= j < 9 ==> #[trigger] encode_runs(single_build(d))[j] == (j == d),
        counts_fit(single_build(d)),
        total_builds(single_build(d)) == 1,
{
    let c = single_build(d);
    lemma_encode_split(c, d as nat);
    lemma_encode_upto_zero(c, d as nat);
    lemma_encode_from_zero(c, (d + 1) as nat);
    assert(encode_from(c, d as nat) == run_bits(1) + encode_from(c, (d + 1) as nat));
    assert(run_bits(1) =~= seq![true, false]);
    lemma_total_single(d, 8);
}

proof fn lemma_total_single(d: int, n: nat)
    requires
        0 <= d < 8,
        n <= 8,
    ensures
        total_below(single_build(d), n) == if d < n { 1nat } else { 0nat },
    decreases n,
{
    if n > 0 {
        lemma_total_single(d, (n - 1) as nat);
    }
}

/// With no builds the section is all zeros.
proof fn lemma_no_build_runs()
    ensures
        encode_runs(no_builds()).len() == 8,
        forall|j: int| 0 <= j < 8 ==> !#[trigger] encode_runs(no_builds())[j],
        counts_fit(no_builds()),
        total_builds(no_builds()) == 0,
{
    lemma_encode_from_zero(no_builds(), 0);
    lemma_total_zero(no_builds(), 8);
}

proof fn lemma_single_bit_word(from: u32, to: u32, d: u32, j: u32)
    by (bit_vector)
    requires
        from < 25,
        to < 25,
        d < 8,
        j < 20,
    ensures
        ((((from << 20u32) | (to << 25u32) | (1u32 << d)) >> 20u32) & 31u32) == from,
        ((((from << 20u32) | (to << 25u32) | (1u32 << d)) >> 25u32) & 31u32) == to,
        ((from << 20u32) | (to << 25u32) | (1u32 << d)) & 0xC000_0000u32 == 0,
        (((((from << 20u32) | (to << 25u32) | (1u32 << d)) >> j) & 1u32) == 1u32) == (j == d),
        ((((from << 20u32) | (to << 25u32)) >> 20u32) & 31u32) == from,
        ((((from << 20u32) | (to << 25u32)) >> 25u32) & 31u32) == to,
        ((from << 20u32) | (to << 25u32)) & 0xC000_0000u32 == 0,
        ((((from << 20u32) | (to << 25u32)) >> j) & 1u32) != 1u32,
{
}

/// The direction from `a` to its neighbour `b`.
fn direction_toward(a: Square, b: Square) -> (r: u32)
    requires
        is_adjacent(a as int, b as int),
    ensures
        r < 8,
        in_direction(a as int, r as int, b as int),
{
    if b + 6 == a {
        0
    } else if b + 5 == a {
        1
    } else if b + 4 == a {
        2
    } else if b == a + 1 {
        3
    } else if b == a + 6 {
        4
    } else if b == a + 5 {
        5
    } else if b == a + 4 {
        6
    } else {
        proof {
            assert(a as int == 5 * (a as int / 5) + a as int % 5);
            assert(b as int == 5 * (b as int / 5) + b as int % 5);
        }
        7
    }
}

/// A Morpheus turn: the low 20 bits count the builds per direction, the move sits above them.
#[derive(Clone, Copy, PartialEq, Eq, Structural, Debug)]
pub struct MorpheusMove(pub MoveData);

impl MorpheusMove {
    fn new_zero_build_turn(move_from_position: Square, move_to_position: Square) -> (r: Self)
        requires
            move_from_position < 25,
            move_to_position < 25,
        ensures
            r.0 == ((move_from_position as u32) << 20u32) | ((move_to_position as u32) << 25u32),
    {
        Self(((move_from_position as u32) << 20u32) | ((move_to_position as u32) << 25u32))
    }

    /// A turn with one build, in direction `build_dir` (0 to 7) from the moved worker.
    fn new_one_build_turn(move_from_position: Square, move_to_position: Square, build_dir: u8) -> (r: Self)
        requires
            move_from_position < 25,
            move_to_position < 25,
            build_dir < 8,
        ensures
            r.0 == ((move_from_position as u32) << 20u32) | ((move_to_position as u32) << 25u32) | (1u32 << (build_dir as u32)),
    {
        Self(((move_from_position as u32) << 20u32) | ((move_to_position as u32) << 25u32) | (1u32 << (build_dir as u32)))
    }

    fn new_winning_move(move_from_position: Square, move_to_position: Square) -> (r: Self)
        requires
            move_from_position < 25,
            move_to_position < 25,
        ensures
            r.0 == ((move_from_position as u32) << 20u32) | ((move_to_position as u32) << 25u32) | MOVE_IS_WINNING_MASK,
    {
        Self(((move_from_position as u32) << 20u32) | ((move_to_position as u32) << 25u32) | MOVE_IS_WINNING_MASK)
    }

    pub fn move_from_position(&self) -> (r: Square)
        ensures
            r == field_at(self.0, 20),
            r < 32,
    {
        read_position(self.0, 20)
    }

    pub fn move_to_position(&self) -> (r: Square)
        ensures
            r == field_at(self.0, 25),
            r < 32,
    {
        read_position(self.0, 25)
    }

    /// The start and end squares of the moving worker.
    pub fn move_mask(self) -> (r: BitBoard)
        ensures
            r.0 == (1u32 << field_at(self.0, 20)) ^ (1u32 << field_at(self.0, 25)),
    {
        BitBoard::as_mask(self.move_from_position()).xor(BitBoard::as_mask(self.move_to_position()))
    }

    pub fn get_is_winning(&self) -> (r: bool)
        ensures
            r == is_winning_data(self.0),
    {
        (self.0 & MOVE_IS_WINNING_MASK) != 0
    }

    /// Plays the turn: the worker moves and wins, or the builds of the word go up around where
    /// it landed, and the build tokens go up by one and down by one per build.
    pub fn make_move(self, board: &mut BoardState, player: Player)
        requires
            field_at(self.0, 20) < 25,
            field_at(self.0, 25) < 25,
            !is_winning_data(self.0) ==> morpheus_playable(*old(board), player, self.0),
        ensures
            final(board).workers[player.idx()].0 == old(board).workers[player.idx()].0 ^ ((1u32 << field_at(self.0, 20))
                ^ (1u32 << field_at(self.0, 25))),
            final(board).workers[1 - player.idx()] == old(board).workers[1 - player.idx()],
            final(board).current_player == old(board).current_player,
            final(board).god_data[1 - player.idx()] == old(board).god_data[1 - player.idx()],
            is_winning_data(self.0) ==> final(board).winner == Some(player) && final(board).height_map == old(board).height_map
                && final(board).god_data == old(board).god_data,
            !is_winning_data(self.0) ==> final(board).winner == old(board).winner,
            !is_winning_data(self.0) ==> forall|i: int| #[trigger] final(board).height(i) == old(board).height(i)
                + builds_at(field_at(self.0, 25) as int, morpheus_counts(self.0), i),
            !is_winning_data(self.0) ==> final(board).god_data[player.idx()] == old(board).god_data[player.idx()] + 1
                - total_builds(morpheus_counts(self.0)),
            old(board).wf() && old(board).workers[player.idx()].has(field_at(self.0, 20) as int) && !old(board).occupied(
                field_at(self.0, 25) as int,
            ) ==> final(board).wf(),
    {
        let ghost before = *board;
        let worker_move_mask = self.move_mask();
        board.worker_xor(player, worker_move_mask);
        proof {
            lemma_move_worker_keeps_wf(before, *board, player, field_at(self.0, 20), field_at(self.0, 25));
        }
        if self.get_is_winning() {
            board.set_winner(player);
            return;
        }
        let ghost moved = *board;
        let ghost bits = build_bits(self.0);
        let ghost init: (nat, nat, Seq<nat>) = (0nat, 0nat, no_builds());
        let ghost fin = morpheus_counts(self.0);
        let ghost mut counts: Seq<nat> = no_builds();
        let to = self.move_to_position();
        let old_available_builds = board.god_data[player.index()];
        proof {
            lemma_decode_grows(bits, init);
            assert(decode_bits(bits.take(0), init) == init) by {
                assert(bits.take(0) =~= Seq::<bool>::empty());
            }
            assert(bits.skip(0) =~= bits);
            lemma_total_zero(counts, 8);
            lemma_total_bound(fin, counts, 8);
            assert forall|s: int| #[trigger] moved.height(s) == moved.height(s) + builds_at(to as int, counts, s) by {
                assert(builds_at(to as int, counts, s) == 0) by {
                    lemma_builds_at_zero(to as int, counts, 8, s);
                }
            }
        }
        let mut dir: u32 = 0;
        let mut consecutive: u32 = 0;
        let mut total: u32 = 0;
        let mut i: u32 = 0;
        while i < 20 && dir < 8
            invariant
                i <= 20,
                dir <= 8,
                consecutive < 4,
                to == field_at(self.0, 25),
                to < 25,
                !is_winning_data(self.0),
                morpheus_playable(before, player, self.0),
                fin == morpheus_counts(self.0),
                bits == build_bits(self.0),
                init == (0nat, 0nat, no_builds()),
                (dir as nat, consecutive as nat, counts) == decode_bits(bits.take(i as int), init),
                counts.len() == 8,
                forall|d: int| 0 <= d < 8 ==> #[trigger] counts[d] <= fin[d],
                total as nat == total_builds(counts),
                total_builds(counts) <= total_builds(fin),
                decode_bits(bits, init) == decode_bits(bits.skip(i as int), decode_bits(bits.take(i as int), init)),
                board.workers == moved.workers,
                board.god_data == moved.god_data,
                board.winner == moved.winner,
                board.current_player == moved.current_player,
                moved.height_map == before.height_map,
                moved.god_data == before.god_data,
                moved.wf() ==> board.wf(),
                forall|s: int| #[trigger] board.height(s) == moved.height(s) + builds_at(to as int, counts, s),
            decreases 20 - i,
        {
            let ghost st = decode_bits(bits.take(i as int), init);
            proof {
                lemma_decode_take(bits, i as int, init);
                assert(bits.take(i as int) + bits.skip(i as int) =~= bits);
                let next = decode_step(st, bits[i as int]);
                assert(bits.skip(i as int) =~= seq![bits[i as int]] + bits.skip(i as int + 1));
                lemma_decode_concat(seq![bits[i as int]], bits.skip(i as int + 1), st);
                reveal_with_fuel(decode_bits, 2);
                assert(seq![bits[i as int]].drop_first() =~= Seq::<bool>::empty());
                assert(decode_bits(bits.skip(i as int), st) == decode_bits(bits.skip(i as int + 1), next));
                lemma_decode_concat(bits.take(i as int + 1), bits.skip(i as int + 1), init);
                assert(bits.take(i as int + 1) + bits.skip(i as int + 1) =~= bits);
                lemma_decode_grows(bits.skip(i as int + 1), next);
            }
            if (self.0 >> i) & 1 == 1 {
                proof {
                    assert(bits[i as int]);
                    let d = dir as int;
                    let next = decode_step(st, true);
                    assert(next.2 == counts.update(d, counts[d] + 1));
                    assert(decode_bits(bits, init) == decode_bits(bits.skip(i as int + 1), next));
                    assert(decode_bits(bits.skip(i as int + 1), next).2[d] >= next.2[d]);
                    assert(fin[d] >= counts[d] + 1);
                    lemma_builds_at_dir(to as int, counts, 8, d);
                }
                let sq = square_toward(to, dir);
                board.build_up(sq);
                proof {
                    let d = dir as int;
                    assert forall|s: int| #[trigger] board.height(s) == moved.height(s) + builds_at(to as int, counts.update(d, counts[d] + 1), s) by {
                        lemma_builds_at_add(to as int, counts, 8, d, s);
                    }
                    lemma_total_add(counts, 8, d);
                    lemma_total_bound(fin, counts.update(d, counts[d] + 1), 8);
                    counts = counts.update(d, counts[d] + 1);
                }
                total = total + 1;
                consecutive = consecutive + 1;
                if consecutive == 4 {
                    consecutive = 0;
                    dir = dir + 1;
                }
            } else {
                consecutive = 0;
                dir = dir + 1;
            }
            i = i + 1;
        }
        proof {
            if i == 20 {
                assert(bits.take(20) =~= bits);
            } else {
                lemma_decode_done(bits.skip(i as int), decode_bits(bits.take(i as int), init));
            }
            assert(counts == fin);
        }
        let new_available_builds = if total == 0 {
            old_available_builds + 1
        } else {
            old_available_builds - (total - 1)
        };
        let ghost built = *board;
        board.set_god_data(player, new_available_builds);
        proof {
            assert forall|s: int| #[trigger] board.height(s) == before.height(s) + builds_at(to as int, fin, s) by {
                assert(board.height(s) == built.height(s));
                assert(moved.height(s) == before.height(s));
            }
        }
    }
}

/// Morpheus's fixed data.
pub fn build_morpheus() -> (r: GodPower)
    ensures
        r.god_name == GodName::Morpheus,
        r.hash1 == 838429420552497011u64,
        r.hash2 == 482189877001639000u64,
        r.placement_type == PlacementType::Normal,
        r.symmetry == BoardSymmetry::Full,
        !r.is_persephone,
{
    god_power(GodName::Morpheus, 838429420552497011, 482189877001639000)
}

} // verus!
