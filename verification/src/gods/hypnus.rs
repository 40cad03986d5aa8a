use vstd::prelude::*;

use crate::gods::{BoardSymmetry, PlacementType, god_power, GodName, GodPower};

use crate::bitboard::{bit, group_bit_lemmas, popcount, BitBoard};
use crate::board::BoardState;

verus! {

/// What Hypnus leaves movable of `workers`: the one worker that stands strictly higher than all
/// the others may not move. A lone worker is strictly highest, so it may not move either. The
/// levels are looked at from the top: a single worker on level 3, else on level 2, else on level 1.
pub open spec fn hypnus_filter_spec(hm: [BitBoard; 4], workers: u32) -> u32 {
    let l3 = hm[2].0 & workers;
    let l2 = hm[1].0 & workers;
    let l1 = hm[0].0 & workers;
    if popcount(workers, 32) == 1 {
        0
    } else if popcount(l3, 32) == 1 {
        workers ^ l3
    } else if popcount(l3, 32) > 1 {
        workers
    } else if popcount(l2, 32) == 1 {
        workers ^ l2
    } else if popcount(l2, 32) > 1 {
        workers
    } else if popcount(l1, 32) == 1 {
        workers ^ l1
    } else {
        workers
    }
}

pub fn hypnus_moveable_worker_filter(board: &BoardState, workers: BitBoard) -> (r: BitBoard)
    ensures
        r.0 == hypnus_filter_spec(board.height_map, workers.0),
        board.wf() && workers.within_board() && (forall|j: int| #[trigger] workers.has(j) ==> board.height(j) < 4) ==> forall|i: int|
            0 <= i < 25 ==> (#[trigger] r.has(i) == (workers.has(i) && !is_strictly_highest(*board, workers.0, i))),
{
    proof {
        if board.wf() && workers.within_board() && (forall|j: int| #[trigger] workers.has(j) ==> board.height(j) < 4) {
            assert forall|i: int| 0 <= i < 25 implies (bit(hypnus_filter_spec(board.height_map, workers.0), i as u32) == (bit(
                workers.0,
                i as u32,
            ) && !is_strictly_highest(*board, workers.0, i))) by {
                assert forall|j: u32| 25 <= j < 32 implies !#[trigger] bit(workers.0, j) by {
                    assert(!workers.has(j as int));
                }
                assert forall|j: int| 0 <= j < 25 && #[trigger] bit(workers.0, j as u32) implies board.height(j) < 4 by {
                    assert(workers.has(j));
                }
                lemma_hypnus_holds_back_the_highest(*board, workers.0, i);
            }
        }
    }
    if workers.count_ones() == 1 {
        return BitBoard::empty();
    }
    let lvl_3_workers = board.height_map[2].and(workers);
    let lvl_3_worker_count = lvl_3_workers.count_ones();
    if lvl_3_worker_count == 1 {
        return workers.xor(lvl_3_workers);
    } else if lvl_3_worker_count > 1 {
        return workers;
    }
    let lvl_2_workers = board.height_map[1].and(workers);
    let lvl_2_worker_count = lvl_2_workers.count_ones();
    if lvl_2_worker_count == 1 {
        return workers.xor(lvl_2_workers);
    } else if lvl_2_worker_count > 1 {
        return workers;
    }
    let lvl_1_workers = board.height_map[0].and(workers);
    let lvl_1_worker_count = lvl_1_workers.count_ones();
    if lvl_1_worker_count == 1 {
        return workers.xor(lvl_1_workers);
    }
    workers
}

/// Hypnus only ever holds workers back; he never adds one.
pub proof fn lemma_hypnus_filter_subset(hm: [BitBoard; 4], workers: u32, i: u32)
    ensures
        i < 32 && bit(hypnus_filter_spec(hm, workers), i) ==> bit(workers, i),
{
    broadcast use group_bit_lemmas;

}

/// What the count of set bits below `n` says of the bits themselves.
pub proof fn lemma_popcount_bits(x: u32, n: nat)
    requires
        n <= 32,
    ensures
        popcount(x, n) == 0 ==> forall|i: u32| i < n ==> !#[trigger] bit(x, i),
        popcount(x, n) == 1 ==> exists|i: u32| i < n && #[trigger] bit(x, i) && forall|j: u32| j < n && j != i ==> !#[trigger] bit(x, j),
        popcount(x, n) >= 2 ==> exists|i: u32, j: u32| i < n && j < n && i != j && #[trigger] bit(x, i) && #[trigger] bit(x, j),
    decreases n,
{
    if n > 0 {
        let m = (n - 1) as nat;
        let k = (n - 1) as u32;
        lemma_popcount_bits(x, m);
        assert(popcount(x, n) == popcount(x, m) + if bit(x, k) { 1nat } else { 0nat });
        if popcount(x, n) == 1 {
            if bit(x, k) {
                assert(popcount(x, m) == 0);
                assert forall|j: u32| j < n && j != k implies !#[trigger] bit(x, j) by {
                    assert(j < m);
                }
            } else {
                let i = choose|i: u32| i < m && #[trigger] bit(x, i) && forall|j: u32| j < m && j != i ==> !#[trigger] bit(x, j);
                assert forall|j: u32| j < n && j != i implies !#[trigger] bit(x, j) by {
                    if j < m {
                    } else {
                        assert(j == k);
                    }
                }
            }
        }
        if popcount(x, n) >= 2 {
            if popcount(x, m) >= 2 {
                let (i, j) = choose|i: u32, j: u32| i < m && j < m && i != j && #[trigger] bit(x, i) && #[trigger] bit(x, j);
                assert(i < n && j < n && i != j && bit(x, i) && bit(x, j));
            } else {
                assert(popcount(x, m) == 1 && bit(x, k));
                let i = choose|i: u32| i < m && #[trigger] bit(x, i) && forall|j: u32| j < m && j != i ==> !#[trigger] bit(x, j);
                assert(i < n && k < n && i != k && bit(x, i) && bit(x, k));
            }
        }
    }
}

/// The worker on `i` stands strictly higher than every other worker of `workers`.
pub open spec fn is_strictly_highest(board: BoardState, workers: u32, i: int) -> bool {
    &&& 0 <= i < 25
    &&& bit(workers, i as u32)
    &&& forall|j: int| 0 <= j < 25 && j != i && #[trigger] bit(workers, j as u32) ==> board.height(j) < board.height(i)
}

/// Hypnus holds back exactly the worker that stands strictly higher than every other one, when
/// there is such a worker, and no other.
#[verifier::spinoff_prover]
#[verifier::rlimit(80)]
pub proof fn lemma_hypnus_holds_back_the_highest(board: BoardState, workers: u32, i: int)
    requires
        board.wf(),
        forall|j: u32| 25 <= j < 32 ==> !#[trigger] bit(workers, j),
        forall|j: int| 0 <= j < 25 && #[trigger] bit(workers, j as u32) ==> board.height(j) < 4,
        0 <= i < 25,
    ensures
        bit(hypnus_filter_spec(board.height_map, workers), i as u32) == (bit(workers, i as u32) && !is_strictly_highest(
            board,
            workers,
            i,
        )),
{
    broadcast use group_bit_lemmas;

    let hm = board.height_map;
    let l3 = hm[2].0 & workers;
    let l2 = hm[1].0 & workers;
    let l1 = hm[0].0 & workers;
    assert(hm[0].within_board() && hm[1].within_board() && hm[2].within_board() && hm[3].within_board());
    assert forall|j: int| 0 <= j < 25 implies (#[trigger] bit(l3, j as u32) == (bit(workers, j as u32) && board.height(j) >= 3)) && bit(
        l2,
        j as u32,
    ) == (bit(workers, j as u32) && board.height(j) >= 2) && bit(l1, j as u32) == (bit(workers, j as u32) && board.height(j) >= 1) by {
        assert(hm[3].has(j) ==> hm[2].has(j));
        assert(hm[2].has(j) ==> hm[1].has(j));
        assert(hm[1].has(j) ==> hm[0].has(j));
    }
    assert forall|j: u32| 25 <= j < 32 implies !#[trigger] bit(l3, j) && !bit(l2, j) && !bit(l1, j) by {}
    lemma_popcount_bits(workers, 32);
    lemma_popcount_bits(l3, 32);
    lemma_popcount_bits(l2, 32);
    lemma_popcount_bits(l1, 32);
    let r = hypnus_filter_spec(hm, workers);
    if popcount(workers, 32) == 1 {
        let w = choose|w: u32| w < 32 && #[trigger] bit(workers, w) && forall|j: u32| j < 32 && j != w ==> !#[trigger] bit(workers, j);
        assert(w < 25);
        if i == w as int {
            assert forall|j: int| 0 <= j < 25 && j != i && #[trigger] bit(workers, j as u32) implies board.height(j) < board.height(i) by {
                assert(j as u32 != w);
            }
        }
    } else if popcount(l3, 32) == 1 {
        let w = choose|w: u32| w < 32 && #[trigger] bit(l3, w) && forall|j: u32| j < 32 && j != w ==> !#[trigger] bit(l3, j);
        assert(w < 25);
        assert(bit(l3, (w as int) as u32));
        if i == w as int {
            assert forall|j: int| 0 <= j < 25 && j != i && #[trigger] bit(workers, j as u32) implies board.height(j) < board.height(i) by {
                assert(!bit(l3, j as u32));
            }
        } else if bit(workers, i as u32) {
            assert(!bit(l3, i as u32));
            assert(bit(workers, (w as int) as u32));
        }
    } else if popcount(l3, 32) > 1 {
        let (a, b) = choose|a: u32, b: u32| a < 32 && b < 32 && a != b && #[trigger] bit(l3, a) && #[trigger] bit(l3, b);
        assert(bit(l3, (a as int) as u32) && bit(l3, (b as int) as u32));
        if bit(workers, i as u32) {
            if i != a as int {
                assert(bit(workers, (a as int) as u32));
            } else {
                assert(bit(workers, (b as int) as u32));
            }
        }
    } else if popcount(l2, 32) == 1 {
        let w = choose|w: u32| w < 32 && #[trigger] bit(l2, w) && forall|j: u32| j < 32 && j != w ==> !#[trigger] bit(l2, j);
        assert(w < 25);
        assert(bit(l2, (w as int) as u32));
        assert(!bit(l3, (w as int) as u32));
        if i == w as int {
            assert forall|j: int| 0 <= j < 25 && j != i && #[trigger] bit(workers, j as u32) implies board.height(j) < board.height(i) by {
                assert(!bit(l2, j as u32));
            }
        } else if bit(workers, i as u32) {
            assert(!bit(l2, i as u32));
            assert(bit(workers, (w as int) as u32));
        }
    } else if popcount(l2, 32) > 1 {
        let (a, b) = choose|a: u32, b: u32| a < 32 && b < 32 && a != b && #[trigger] bit(l2, a) && #[trigger] bit(l2, b);
        assert(bit(l2, (a as int) as u32) && bit(l2, (b as int) as u32));
        assert(!bit(l3, (a as int) as u32) && !bit(l3, (b as int) as u32));
        if bit(workers, i as u32) {
            assert(!bit(l3, i as u32));
            if i != a as int {
                assert(bit(workers, (a as int) as u32));
            } else {
                assert(bit(workers, (b as int) as u32));
            }
        }
    } else if popcount(l1, 32) == 1 {
        let w = choose|w: u32| w < 32 && #[trigger] bit(l1, w) && forall|j: u32| j < 32 && j != w ==> !#[trigger] bit(l1, j);
        assert(w < 25);
        assert(bit(l1, (w as int) as u32));
        assert(!bit(l2, (w as int) as u32));
        if i == w as int {
            assert forall|j: int| 0 <= j < 25 && j != i && #[trigger] bit(workers, j as u32) implies board.height(j) < board.height(i) by {
                assert(!bit(l1, j as u32));
            }
        } else if bit(workers, i as u32) {
            assert(!bit(l1, i as u32));
            assert(bit(workers, (w as int) as u32));
        }
    } else if popcount(l1, 32) > 1 {
        let (a, b) = choose|a: u32, b: u32| a < 32 && b < 32 && a != b && #[trigger] bit(l1, a) && #[trigger] bit(l1, b);
        assert(bit(l1, (a as int) as u32) && bit(l1, (b as int) as u32));
        assert(!bit(l2, (a as int) as u32) && !bit(l2, (b as int) as u32));
        if bit(workers, i as u32) {
            assert(!bit(l2, i as u32));
            if i != a as int {
                assert(bit(workers, (a as int) as u32));
            } else {
                assert(bit(workers, (b as int) as u32));
            }
        }
    } else {
        if bit(workers, i as u32) {
            assert(!bit(l1, i as u32));
            assert(popcount(workers, 32) != 0);
            let (a, b) = choose|a: u32, b: u32| a < 32 && b < 32 && a != b && #[trigger] bit(workers, a) && #[trigger] bit(workers, b);
            assert(a < 25 && b < 25);
            assert(bit(workers, (a as int) as u32) && bit(workers, (b as int) as u32));
            assert(!bit(l1, (a as int) as u32) && !bit(l1, (b as int) as u32));
            if i != a as int {
                assert(board.height(a as int) >= board.height(i));
            } else {
                assert(board.height(b as int) >= board.height(i));
            }
        }
    }
}

/// Hypnus's fixed data.
pub fn build_hypnus() -> (r: GodPower)
    ensures
        r.god_name == GodName::Hypnus,
        r.hash1 == 15915408769625054955u64,
        r.hash2 == 4326272341964757690u64,
        r.placement_type == PlacementType::Normal,
        r.symmetry == BoardSymmetry::Full,
        !r.is_persephone,
{
    god_power(GodName::Hypnus, 15915408769625054955, 4326272341964757690)
}

} // verus!
