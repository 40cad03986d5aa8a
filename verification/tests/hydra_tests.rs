use santorini_core::board::Player;
use santorini_core::consistency_checker::consistency_check;
use santorini_core::fen::parse_fen;
use santorini_core::gods::hydra::HydraMove;
use santorini_core::gods::GodName;

#[test]
fn hydra_gains_a_worker_when_none_neighbour() {
    let state = parse_fen("0000000000000000000000000/1/hydra:A1,E5/mortal:C3,D3").unwrap();
    let moves = GodName::Hydra.get_all_moves(&state, Player::One);
    assert!(!moves.is_empty());
    for m in &moves {
        let next = state.next_state(GodName::Hydra, GodName::Mortal, m.action);
        assert_eq!(next.board.workers[0].count_ones(), 3, "{:?}", HydraMove(m.action.0));
    }
    consistency_check(&state).unwrap();
}

#[test]
fn hydra_new_worker_comes_in_on_the_lowest_level() {
    // Everything around A2 is at level 1 except B3, which stays on the ground, so a new worker
    // next to A2 comes in on B3 unless the build raises it.
    let state =
        parse_fen("0000000000100000100011000/1/hydra:A1,E5/mortal:C3,D3").unwrap();
    for m in &GodName::Hydra.get_all_moves(&state, Player::One) {
        let action = HydraMove(m.action.0);
        if action.move_from_position() != santorini_core::square::A1
            || action.move_to_position() != santorini_core::square::A2
        {
            continue;
        }
        let spot = action.special_worker_position();
        let spot_height = state.board.get_height(spot) + if spot == action.build_position() { 1 } else { 0 };
        let expected = if action.build_position() == santorini_core::square::B3 { 1 } else { 0 };
        assert_eq!(spot_height, expected, "{:?}", action);
    }
}

#[test]
fn hydra_loses_a_worker_when_two_neighbour() {
    // A1 and B1 neighbour each other; moving B1 to C1 keeps them apart only if it leaves.
    let state = parse_fen("0000000000000000000000000/1/hydra:A1,B1/mortal:D5,E5").unwrap();
    let moves = GodName::Hydra.get_all_moves(&state, Player::One);
    assert!(!moves.is_empty());
    for m in &moves {
        let next = state.next_state(GodName::Hydra, GodName::Mortal, m.action);
        let count = next.board.workers[0].count_ones();
        assert!(count == 1 || count == 3, "{:?} left {} workers", HydraMove(m.action.0), count);
    }
}

#[test]
fn hydra_alone_does_not_move_against_hypnus() {
    let state = parse_fen("0000000000000000000000000/1/hydra:A1/hypnus:D5,E5").unwrap();
    assert!(GodName::Hydra.get_all_moves(&state, Player::One).is_empty());
}
