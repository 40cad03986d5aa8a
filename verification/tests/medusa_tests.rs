use santorini_core::board::Player;
use santorini_core::fen::parse_fen;
use santorini_core::gods::medusa::MedusaMove;
use santorini_core::gods::GodName;
use santorini_core::square::{B1, E5};

#[test]
fn medusa_flags_stoning_of_a_lower_neighbour() {
    // A1 is level 1 and holds a Medusa worker; the mortal worker on B1 stands on the ground.
    let state = parse_fen("0000000000000000000010000/1/medusa:A1,E5/mortal:B1,C5").unwrap();
    let moves = GodName::Medusa.get_all_moves(&state, Player::One);
    let e5_moves: Vec<_> = moves.iter().map(|m| MedusaMove(m.action.0)).filter(|m| m.move_from_position() == E5).collect();
    assert!(!e5_moves.is_empty());
    assert!(e5_moves.iter().all(|m| m.is_stone_end_of_turn()));
}

#[test]
fn medusa_stoning_removes_the_worker_and_builds() {
    let state = parse_fen("0000000000000000000010000/1/medusa:A1,E5/mortal:B1,C5").unwrap();
    let m = GodName::Medusa
        .get_all_moves(&state, Player::One)
        .into_iter()
        .find(|m| MedusaMove(m.action.0).move_from_position() == E5)
        .unwrap();
    let next = state.next_state(GodName::Medusa, GodName::Mortal, m.action);
    assert!(!next.board.workers[1].contains_square(B1));
    assert_eq!(next.board.workers[1].count_ones(), 1);
    assert_eq!(next.board.get_height(B1), 1);
}

#[test]
fn medusa_does_not_stone_a_worker_on_the_same_level() {
    let state = parse_fen("0000000000000000000011000/1/medusa:A1,E5/mortal:B1,C5").unwrap();
    let moves = GodName::Medusa.get_all_moves(&state, Player::One);
    assert!(moves
        .iter()
        .map(|m| MedusaMove(m.action.0))
        .filter(|m| m.move_from_position() == E5)
        .all(|m| !m.is_stone_end_of_turn()));
}
