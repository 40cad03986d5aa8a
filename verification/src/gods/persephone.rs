use vstd::prelude::*;

use crate::bitboard::{apply_neighbor_map_to_mask, BitBoard, MAIN_SECTION};
use crate::board::{FullGameState, Player};
use crate::generic::{NARROWING_FLAGS, is_winning_data, MoveGenFlags, ScoredMove};
use crate::gods::mortal::{is_mate_only_listing, lists_word, standard_turn_owed, is_mortal_turn, is_standard_turn, standard_turn_move_gen};
use crate::gods::{BoardSymmetry, PlacementType, god_power, GodName, GodPower};

verus! {

/// Persephone's own moves are plain turns. Against Pan, a build next to one of Pan's workers can
/// take a win away, so blocking generation also keeps those builds.
pub fn persephone_move_gen(flags: MoveGenFlags, state: &FullGameState, player: Player, key_squares: BitBoard, must_climb: bool) -> (r: Vec<ScoredMove>)
    requires
        state.board.wf(),
    ensures
        forall|k: int| 0 <= k < r@.len() ==> #[trigger] is_mortal_turn(*state, player, must_climb, r@[k].action.0),
        flags & NARROWING_FLAGS == 0 ==> forall|data: u32| #[trigger] standard_turn_owed(*state, player, must_climb, false, data) ==> lists_word(r@, data),
        flags & NARROWING_FLAGS == 0 && state.gods[1 - player.idx()].is_persephone_spec() && !must_climb && (exists|d: u32|
            #[trigger] is_standard_turn(*state, player, true, false, d)) ==> forall|k: int| 0 <= k < r@.len()
            ==> #[trigger] is_standard_turn(*state, player, true, false, r@[k].action.0),
        is_mate_only_listing(flags) ==> forall|data: u32| #[trigger] standard_turn_owed(*state, player, must_climb, false, data)
            && is_winning_data(data) ==> lists_word(r@, data),
        flags & crate::generic::STOP_ON_MATE == 0 ==> forall|data: u32| #[trigger] standard_turn_owed(*state, player, must_climb, false, data)
            && crate::gods::mortal::is_kept_by_flags(flags, key_squares, data) ==> lists_word(r@, data),
        forall|k1: int, k2: int| 0 <= k1 < k2 < r@.len() ==> #[trigger] r@[k1].action.0 != #[trigger] r@[k2].action.0,
{
    let other = state.gods[player.other().index()];
    let vs_pan_key_builds = match other {
        GodName::Pan => apply_neighbor_map_to_mask(state.board.workers[player.other().index()].and(BitBoard::main_section())),
        _ => BitBoard::empty(),
    };
    standard_turn_move_gen(flags, state, player, key_squares, must_climb, vs_pan_key_builds, false)
}

/// Persephone's fixed data.
pub fn build_persephone() -> (r: GodPower)
    ensures
        r.god_name == GodName::Persephone,
        r.hash1 == 14142160666731608851u64,
        r.hash2 == 6544769205610216454u64,
        r.placement_type == PlacementType::Normal,
        r.symmetry == BoardSymmetry::Full,
        r.is_persephone,
{
    god_power(GodName::Persephone, 14142160666731608851, 6544769205610216454)
        .with_is_persephone()
}

} // verus!
