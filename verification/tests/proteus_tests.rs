use santorini_core::board::Player;
use santorini_core::fen::parse_fen;
use santorini_core::gods::mortal::MortalMove;
use santorini_core::gods::GodName;
use santorini_core::square::{A1, A2, B3, C3, D4, E5};

fn decoded(state_fen: &str) -> Vec<MortalMove> {
    let state = parse_fen(state_fen).unwrap();
    GodName::Proteus.get_all_moves(&state, Player::One).iter().map(|m| MortalMove(m.action.0)).collect()
}

#[test]
fn proteus_worker_takes_a_step_of_another_worker() {
    let moves = decoded("0000000000000000000000000/1/proteus:A1,C3,E5/mortal:A5,E1");
    assert!(moves.iter().any(|m| m.move_from_position() == A1 && m.move_to_position() == D4));
    assert!(moves.iter().any(|m| m.move_from_position() == C3 && m.move_to_position() == A2));
}

#[test]
fn proteus_worker_does_not_take_its_own_step() {
    let moves = decoded("0000000000000000000000000/1/proteus:A1,C3,E5/mortal:A5,E1");
    assert!(!moves.iter().any(|m| m.move_from_position() == A1 && m.move_to_position() == A2));
    assert!(!moves.iter().any(|m| m.move_from_position() == C3 && m.move_to_position() == B3));
}

#[test]
fn proteus_lists_each_turn_once() {
    let moves = decoded("0000000000000000000000000/1/proteus:A1,C3,E5/mortal:A5,E1");
    for (i, a) in moves.iter().enumerate() {
        for b in moves.iter().skip(i + 1) {
            assert_ne!(a.0, b.0);
        }
    }
}

#[test]
fn proteus_takeover_moves_the_chosen_worker() {
    let state = parse_fen("0000000000000000000000000/1/proteus:A1,C3,E5/mortal:A5,E1").unwrap();
    let m = GodName::Proteus
        .get_all_moves(&state, Player::One)
        .into_iter()
        .find(|m| {
            let d = MortalMove(m.action.0);
            d.move_from_position() == A1 && d.move_to_position() == D4
        })
        .unwrap();
    let next = state.next_state(GodName::Proteus, GodName::Mortal, m.action);
    let workers = next.board.workers[0];
    assert!(workers.contains_square(D4));
    assert!(workers.contains_square(C3));
    assert!(workers.contains_square(E5));
    assert!(!workers.contains_square(A1));
    assert_eq!(next.board.get_height(MortalMove(m.action.0).build_position()), 1);
}

#[test]
fn proteus_climb_onto_level_three_wins() {
    // C3 stands on level 2 and D4 is level 3.
    let moves = decoded("0000000030002000000000000/1/proteus:A1,C3,E5/mortal:A5,E1");
    assert!(moves.iter().any(|m| m.get_is_winning() && m.move_from_position() == C3 && m.move_to_position() == D4));
}

#[test]
fn proteus_lone_worker_moves_plainly() {
    let moves = decoded("0000000000000000000000000/1/proteus:C3/mortal:A5,E1");
    assert!(!moves.is_empty());
    for m in &moves {
        assert_eq!(m.move_from_position(), C3);
    }
    assert!(moves.iter().any(|m| m.move_to_position() == B3));
    assert!(!moves.iter().any(|m| m.move_to_position() == E5));
}
