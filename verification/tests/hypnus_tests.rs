use santorini_core::board::Player;
use santorini_core::fen::parse_fen;
use santorini_core::gods::GodName;

#[test]
fn a_lone_worker_on_the_ground_may_not_move_against_hypnus() {
    let state = parse_fen("0000000000000000000000000/1/mortal:A1/hypnus:D5,E5").unwrap();
    assert!(GodName::Mortal.get_all_moves(&state, Player::One).is_empty());
}

#[test]
fn the_strictly_highest_worker_may_not_move_against_hypnus() {
    let state = parse_fen("1000000000000000000000000/1/mortal:A5,C3/hypnus:D5,E5").unwrap();
    let moves = GodName::Mortal.get_all_moves(&state, Player::One);
    assert!(!moves.is_empty());
    for m in &moves {
        assert_eq!(m.action.0 & 31, 12);
    }
}

#[test]
fn workers_on_one_level_all_move_against_hypnus() {
    let state = parse_fen("0000000000000000000000000/1/mortal:A1,E1/hypnus:D5,E5").unwrap();
    let moves = GodName::Mortal.get_all_moves(&state, Player::One);
    assert!(moves.iter().any(|m| m.action.0 & 31 == 20));
    assert!(moves.iter().any(|m| m.action.0 & 31 == 24));
}
