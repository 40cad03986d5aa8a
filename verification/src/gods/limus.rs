use vstd::prelude::*;

use crate::gods::{BoardSymmetry, PlacementType, god_power, GodName, GodPower};

use crate::bitboard::{apply_neighbor_map_to_mask, BitBoard};
use crate::square::is_adjacent;

verus! {

/// Limus' opponents cannot build next to her workers (a level 3 dome is dealt with by the
/// caller).
pub fn limus_build_mask(own_workers: BitBoard) -> (r: BitBoard)
    ensures
        forall|i: int|
            0 <= i < 32 ==> #[trigger] r.has(i) == !(exists|s: int|
                0 <= s < 25 && #[trigger] own_workers.has(s) && is_adjacent(s, i)),
{
    apply_neighbor_map_to_mask(own_workers).not()
}

/// Limus's fixed data.
pub fn build_limus() -> (r: GodPower)
    ensures
        r.god_name == GodName::Limus,
        r.hash1 == 16891272677587276158u64,
        r.hash2 == 7282884513832450650u64,
        r.placement_type == PlacementType::Normal,
        r.symmetry == BoardSymmetry::Full,
        !r.is_persephone,
{
    god_power(GodName::Limus, 16891272677587276158, 7282884513832450650)
}

} // verus!
