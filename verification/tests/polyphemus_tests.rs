use santorini_core::board::Player;
use santorini_core::consistency_checker::consistency_check;
use santorini_core::fen::parse_fen;
use santorini_core::generic::GenericMove;
use santorini_core::gods::polyphemus::PolyphemusMove;
use santorini_core::gods::GodName;
use santorini_core::square::{B1, B2};

#[test]
fn polyphemus_domes_two_squares_once() {
    let state = parse_fen("0000000000000000000000000/1/polyphemus:A1,E5/mortal:C3,D3").unwrap();
    let moves = GodName::Polyphemus.get_all_moves(&state, Player::One);

    let mut found = false;
    for m in &moves {
        let action = PolyphemusMove(m.action.0);
        if action.dome_1() == Some(B2) {
            let next = state.next_state(GodName::Polyphemus, GodName::Mortal, m.action);
            assert_eq!(next.board.get_height(B2), 4);
            assert_eq!(next.board.god_data[0], 1);
            found = true;
        }
    }
    assert!(found);
    consistency_check(&state).unwrap();
}

#[test]
fn polyphemus_power_is_spent_for_good() {
    let spent = parse_fen("0000000000000000000000000/1/polyphemus[x]:A1,E5/mortal:C3,D3").unwrap();
    let as_mortal = parse_fen("0000000000000000000000000/1/mortal:A1,E5/mortal:C3,D3").unwrap();
    let moves = GodName::Polyphemus.get_all_moves(&spent, Player::One);
    for m in &moves {
        assert_eq!(PolyphemusMove(m.action.0).dome_1(), None);
    }
    assert_eq!(moves.len(), GodName::Mortal.get_all_moves(&as_mortal, Player::One).len());
}

#[test]
fn polyphemus_double_dome_lands_both_domes() {
    // Two free squares may be domed together; B1 comes after B2 in square order, so the pair
    // is written with B1 first.
    let state = parse_fen("0000000000000000000000000/1/polyphemus:A1,E5/mortal:C3,D3").unwrap();
    let moves = GodName::Polyphemus.get_all_moves(&state, Player::One);
    let mut found = false;
    for m in &moves {
        let action = PolyphemusMove(m.action.0);
        if action.dome_1() == Some(B1) && action.dome_2() == Some(B2) {
            let next = state.next_state(GodName::Polyphemus, GodName::Mortal, GenericMove(m.action.0));
            assert_eq!(next.board.get_height(B1), 4);
            assert_eq!(next.board.get_height(B2), 4);
            found = true;
        }
        if let (Some(d1), Some(d2)) = (action.dome_1(), action.dome_2()) {
            assert!(d2 < d1, "domes come in descending order");
        }
    }
    assert!(found);
}
