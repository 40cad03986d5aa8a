use vstd::prelude::*;

use crate::bitboard::BitBoard;
use crate::board::{FullGameState, Player};
use crate::generic::{NARROWING_FLAGS, is_winning_data, MoveGenFlags, ScoredMove};
use crate::gods::mortal::{is_mate_only_listing, lists_word, standard_turn_owed, is_standard_turn, standard_turn_move_gen};
use crate::gods::{BoardSymmetry, PlacementType, god_power, GodName, GodPower};

verus! {

/// Pan's moves: a plain turn, where stepping down two or more levels also wins.
pub fn pan_move_gen(flags: MoveGenFlags, state: &FullGameState, player: Player, key_squares: BitBoard, must_climb: bool) -> (r: Vec<ScoredMove>)
    requires
        state.board.wf(),
    ensures
        forall|k: int| 0 <= k < r@.len() ==> #[trigger] is_standard_turn(*state, player, must_climb, true, r@[k].action.0),
        flags & NARROWING_FLAGS == 0 ==> forall|data: u32| #[trigger] standard_turn_owed(*state, player, must_climb, true, data) ==> lists_word(r@, data),
        flags & NARROWING_FLAGS == 0 && state.gods[1 - player.idx()].is_persephone_spec() && !must_climb && (exists|d: u32|
            #[trigger] is_standard_turn(*state, player, true, true, d)) ==> forall|k: int| 0 <= k < r@.len()
            ==> #[trigger] is_standard_turn(*state, player, true, true, r@[k].action.0),
        is_mate_only_listing(flags) ==> forall|data: u32| #[trigger] standard_turn_owed(*state, player, must_climb, true, data)
            && is_winning_data(data) ==> lists_word(r@, data),
        flags & crate::generic::STOP_ON_MATE == 0 ==> forall|data: u32| #[trigger] standard_turn_owed(*state, player, must_climb, true, data)
            && crate::gods::mortal::is_kept_by_flags(flags, key_squares, data) ==> lists_word(r@, data),
        forall|k1: int, k2: int| 0 <= k1 < k2 < r@.len() ==> #[trigger] r@[k1].action.0 != #[trigger] r@[k2].action.0,
{
    standard_turn_move_gen(flags, state, player, key_squares, must_climb, BitBoard::empty(), true)
}

/// Pan's fixed data.
pub fn build_pan() -> (r: GodPower)
    ensures
        r.god_name == GodName::Pan,
        r.hash1 == 9244705180822939865u64,
        r.hash2 == 18175931309899694692u64,
        r.placement_type == PlacementType::Normal,
        r.symmetry == BoardSymmetry::Full,
        !r.is_persephone,
{
    god_power(GodName::Pan, 9244705180822939865, 18175931309899694692)
}

} // verus!
