use vstd::prelude::*;

use crate::gods::{BoardSymmetry, PlacementType, god_power, GodName, GodPower};

verus! {

/// Poseidon's fixed data.
pub fn build_poseidon() -> (r: GodPower)
    ensures
        r.god_name == GodName::Poseidon,
        r.hash1 == 39626542716481940u64,
        r.hash2 == 12412485317668298438u64,
        r.placement_type == PlacementType::Normal,
        r.symmetry == BoardSymmetry::Full,
        !r.is_persephone,
{
    god_power(GodName::Poseidon, 39626542716481940, 12412485317668298438)
}

} // verus!
