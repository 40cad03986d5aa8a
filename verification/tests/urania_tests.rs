use santorini_core::board::Player;
use santorini_core::fen::parse_fen;
use santorini_core::gods::mortal::MortalMove;
use santorini_core::gods::GodName;
use santorini_core::square::{A1, A5, E1, E5};

fn urania_moves(fen: &str) -> Vec<MortalMove> {
    let state = parse_fen(fen).unwrap();
    GodName::Urania.get_all_moves(&state, Player::One).iter().map(|m| MortalMove(m.action.0)).collect()
}

#[test]
fn urania_steps_across_the_edge() {
    let moves = urania_moves("0000000000000000000000000/1/urania:A1,C3/mortal:B4,D2");
    assert!(moves.iter().any(|m| m.move_from_position() == A1 && m.move_to_position() == E1));
    assert!(moves.iter().any(|m| m.move_from_position() == A1 && m.move_to_position() == A5));
    assert!(moves.iter().any(|m| m.move_from_position() == A1 && m.move_to_position() == E5));
}

#[test]
fn urania_builds_across_the_edge() {
    let moves = urania_moves("0000000000000000000000000/1/urania:A1,C3/mortal:B4,D2");
    assert!(moves.iter().any(|m| m.move_to_position() == E1 && m.build_position() == A1));
    assert!(moves.iter().any(|m| m.move_to_position() == E1 && m.build_position() == E5));
}
