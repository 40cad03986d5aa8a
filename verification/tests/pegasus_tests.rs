use santorini_core::board::Player;
use santorini_core::fen::parse_fen;
use santorini_core::gods::mortal::MortalMove;
use santorini_core::gods::GodName;
use santorini_core::square::{A1, B2, C3, D4};

fn pegasus_moves(fen: &str) -> Vec<MortalMove> {
    let state = parse_fen(fen).unwrap();
    GodName::Pegasus.get_all_moves(&state, Player::One).iter().map(|m| MortalMove(m.action.0)).collect()
}

#[test]
fn pegasus_climbs_several_levels() {
    // B2 is level 3 and A1 is on the ground.
    let moves = pegasus_moves("0000000000000000300000000/1/pegasus:A1,E5/mortal:A5,E1");
    assert!(moves.iter().any(|m| m.move_from_position() == A1 && m.move_to_position() == B2 && !m.get_is_winning()));
    assert!(!moves.iter().any(|m| m.get_is_winning()));
}

#[test]
fn pegasus_wins_only_from_level_two() {
    // C3 is level 2 and D4 level 3.
    let moves = pegasus_moves("0000000030002000000000000/1/pegasus:C3,A1/mortal:A5,E1");
    assert!(moves.iter().any(|m| m.get_is_winning() && m.move_from_position() == C3 && m.move_to_position() == D4));
}

#[test]
fn pegasus_does_not_step_onto_a_dome() {
    let moves = pegasus_moves("0000000000000000400000000/1/pegasus:A1,E5/mortal:A5,E1");
    assert!(!moves.iter().any(|m| m.move_to_position() == B2));
}
