use santorini_core::board::Player;
use santorini_core::fen::parse_fen;
use santorini_core::gods::theseus::TheseusMove;
use santorini_core::gods::GodName;
use santorini_core::square::{A2, B1, C1};

fn theseus_moves(fen: &str) -> Vec<TheseusMove> {
    let state = parse_fen(fen).unwrap();
    GodName::Theseus.get_all_moves(&state, Player::One).iter().map(|m| TheseusMove(m.action.0)).collect()
}

#[test]
fn theseus_kills_a_worker_two_levels_above() {
    // C1 is level 2 and holds a mortal worker; Theseus can step from A1 to B1 next to it.
    let moves = theseus_moves("0000000000000000000000200/1/theseus:A1,E5/mortal:C1,E1");
    assert!(moves.iter().any(|m| m.move_to_position() == B1 && m.maybe_kill_square() == Some(C1)));
    assert!(!moves.iter().any(|m| m.move_to_position() == A2 && m.maybe_kill_square() == Some(C1)));
}

#[test]
fn theseus_kill_removes_the_worker_and_spends_the_power() {
    let state = parse_fen("0000000000000000000000200/1/theseus:A1,E5/mortal:C1,E1").unwrap();
    let m = GodName::Theseus
        .get_all_moves(&state, Player::One)
        .into_iter()
        .find(|m| TheseusMove(m.action.0).maybe_kill_square() == Some(C1))
        .unwrap();
    let next = state.next_state(GodName::Theseus, GodName::Mortal, m.action);
    assert!(!next.board.workers[1].contains_square(C1));
    assert_eq!(next.board.god_data[0], 1);
}

#[test]
fn theseus_cannot_kill_twice() {
    let moves = theseus_moves("0000000000000000000000200/1/theseus[x]:A1,E5/mortal:C1,E1");
    assert!(!moves.is_empty());
    assert!(moves.iter().all(|m| m.maybe_kill_square().is_none()));
}
