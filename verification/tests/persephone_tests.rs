use santorini_core::board::Player;
use santorini_core::consistency_checker::{ConsistencyChecker, ConsistencyError};
use santorini_core::fen::parse_fen;
use santorini_core::game::GameStateBuilder;
use santorini_core::gods::GodName;
use santorini_core::square::{A1, B2, C3, E5};

#[test]
fn test_persephone_pan_blocker() {
    let state = parse_fen("0000200000300000200001000/1/persephone:A1,B1/pan:E5,C1").unwrap();

    let mut checker = ConsistencyChecker::new(&state);
    checker.perform_all_validations().expect("Failed check");
}

#[test]
fn persephone_forces_a_climb_when_one_exists() {
    let state = GameStateBuilder::new(GodName::Mortal, GodName::Persephone)
        .with_p1_worker(C3)
        .with_p2_worker(E5)
        .with_height(B2, 1)
        .build();
    let moves = GodName::Mortal.get_all_moves(&state, Player::One);
    assert!(!moves.is_empty());
    for m in &moves {
        assert_eq!((m.action.0 >> 5) & 31, B2 as u32);
    }
}

#[test]
fn checker_refuses_unsupported_gods() {
    let state = GameStateBuilder::new(GodName::Nike, GodName::Mortal)
        .with_p1_worker(A1)
        .with_p2_worker(E5)
        .build();
    let mut checker = ConsistencyChecker::new(&state);
    assert_eq!(checker.perform_all_validations(), Err(ConsistencyError::UnsupportedGod));
}

#[test]
fn persephone_lists_no_turn_twice() {
    let state = parse_fen("0000200000300000200001000/1/persephone:A1,B1/pan:E5,C1").unwrap();
    let moves = GodName::Persephone.get_all_moves(&state, Player::One);
    assert!(!moves.is_empty());
    let mut words: Vec<u32> = moves.iter().map(|m| m.action.0).collect();
    let n = words.len();
    words.sort();
    words.dedup();
    assert_eq!(words.len(), n);
}
