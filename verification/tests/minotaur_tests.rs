use santorini_core::board::Player;
use santorini_core::consistency_checker::consistency_check;
use santorini_core::fen::parse_fen;
use santorini_core::gods::minotaur::MinotaurMove;
use santorini_core::gods::GodName;
use santorini_core::move_verifier::MoveVerifier;
use santorini_core::square::{C2, C3, C4};

#[test]
fn minotaur_pushes_an_opponent_straight_back() {
    // C2 steps onto C3, pushing the opposing worker there on to C4.
    let state = parse_fen("0000000000000000000000000/1/minotaur:C2,A1/mortal:C3,E5").unwrap();
    let next_states = state.get_next_states_interactive();
    assert!(MoveVerifier::new()
        .with_p1_worker_at(C3)
        .without_p1_worker_at(C2)
        .with_p2_worker_at(C4)
        .without_p2_worker_at(C3)
        .any(&next_states));
    consistency_check(&state).unwrap();
}

#[test]
fn minotaur_cannot_push_into_a_worker() {
    // C4 is taken, so the worker on C3 cannot be pushed and Minotaur cannot step there.
    let state = parse_fen("0000000000000000000000000/1/minotaur:C2,A1/mortal:C3,C4").unwrap();
    for m in &GodName::Minotaur.get_all_moves(&state, Player::One) {
        let action = MinotaurMove(m.action.0);
        assert!(!(action.move_from_position() == C2 && action.move_to_position() == C3), "{:?}", action);
    }
}

#[test]
fn minotaur_wins_by_pushing_off_level_three() {
    // An opposing worker stands on the level 3 square C3; Minotaur climbs from C2 and pushes it.
    let state = parse_fen("0000000000003000020000000/1/minotaur:C2,A1/mortal:C3,E5").unwrap();
    let next_states = state.get_next_states_interactive();
    assert!(MoveVerifier::new().with_p1_worker_at(C3).with_p2_worker_at(C4).is_winner(Player::One).any(&next_states));
}
