use santorini_core::board::Player;
use santorini_core::consistency_checker::consistency_check;
use santorini_core::fen::parse_fen;
use santorini_core::gods::maenads::MaenadsMove;
use santorini_core::gods::GodName;
use santorini_core::move_verifier::MoveVerifier;
use santorini_core::square::D3;

#[test]
fn maenads_win_by_surrounding_an_opponent() {
    // B3 and an opposing worker on C3: stepping onto D3 traps C3 between two Maenads.
    let state = parse_fen("0000000000000000000000000/1/maenads:B3,D2/mortal:C3,E5").unwrap();
    let next_states = state.get_next_states_interactive();
    assert!(MoveVerifier::new().with_p1_worker_at(D3).is_winner(Player::One).any(&next_states));
    consistency_check(&state).unwrap();
}

#[test]
fn maenads_every_surrounding_step_wins() {
    let state = parse_fen("0000000000000000000000000/1/maenads:B3,D2/mortal:C3,E5").unwrap();
    for m in &GodName::Maenads.get_all_moves(&state, Player::One) {
        let action = MaenadsMove(m.action.0);
        if action.move_to_position() == D3 {
            assert!(m.action.get_is_winning(), "{:?}", action);
        }
    }
}

#[test]
fn maenads_without_neighbours_move_as_mortals() {
    let state = parse_fen("0000000000000000000000000/1/maenads:A1,E1/mortal:C5,E5").unwrap();
    let mortal = parse_fen("0000000000000000000000000/1/mortal:A1,E1/mortal:C5,E5").unwrap();
    assert_eq!(
        GodName::Maenads.get_all_moves(&state, Player::One).len(),
        GodName::Mortal.get_all_moves(&mortal, Player::One).len()
    );
}
