use vstd::prelude::*;

use crate::gods::{BoardSymmetry, god_power, PlacementType, GodName, GodPower};

verus! {

/// Hippolyta's fixed data.
pub fn build_hippolyta() -> (r: GodPower)
    ensures
        r.god_name == GodName::Hippolyta,
        r.hash1 == 1007433104289952955u64,
        r.hash2 == 6338572412622910049u64,
        r.placement_type == PlacementType::FemaleWorker,
        r.symmetry == BoardSymmetry::Full,
        !r.is_persephone,
{
    god_power(GodName::Hippolyta, 1007433104289952955, 6338572412622910049)
        .with_placement_type(PlacementType::FemaleWorker)
}

} // verus!
