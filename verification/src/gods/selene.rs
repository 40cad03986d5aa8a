use vstd::prelude::*;

use crate::gods::{BoardSymmetry, god_power, PlacementType, GodName, GodPower};

verus! {

/// Selene's fixed data.
pub fn build_selene() -> (r: GodPower)
    ensures
        r.god_name == GodName::Selene,
        r.hash1 == 4758789900555289074u64,
        r.hash2 == 17548932275576909220u64,
        r.placement_type == PlacementType::FemaleWorker,
        r.symmetry == BoardSymmetry::Full,
        !r.is_persephone,
{
    god_power(GodName::Selene, 4758789900555289074, 17548932275576909220)
        .with_placement_type(PlacementType::FemaleWorker)
}

} // verus!
