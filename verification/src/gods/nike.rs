use vstd::prelude::*;

use crate::gods::{BoardSymmetry, PlacementType, god_power, GodName, GodPower};

verus! {

/// Nike's fixed data.
pub fn build_nike() -> (r: GodPower)
    ensures
        r.god_name == GodName::Nike,
        r.hash1 == 2166638488424994940u64,
        r.hash2 == 8591575656066204147u64,
        r.placement_type == PlacementType::Normal,
        r.symmetry == BoardSymmetry::Full,
        !r.is_persephone,
{
    god_power(GodName::Nike, 2166638488424994940, 8591575656066204147)
}

} // verus!
