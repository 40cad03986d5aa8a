use santorini_core::board::Player;
use santorini_core::fen::parse_fen;
use santorini_core::gods::nemesis::NemesisMove;
use santorini_core::gods::GodName;
use santorini_core::square::{A1, A5, C3, C5, D4, E1, E5};

fn nemesis_moves(fen: &str) -> Vec<NemesisMove> {
    let state = parse_fen(fen).unwrap();
    GodName::Nemesis.get_all_moves(&state, Player::One).iter().map(|m| NemesisMove(m.action.0)).collect()
}

#[test]
fn nemesis_trades_both_workers_when_apart() {
    let moves = nemesis_moves("0000000000000000000000000/1/nemesis:A1,E1/mortal:A5,E5");
    let doubles: Vec<_> = moves.iter().filter(|m| m.maybe_swap_1().is_some() && m.maybe_swap_2().is_some()).collect();
    assert!(!doubles.is_empty());
    for m in &doubles {
        assert_eq!(m.maybe_swap_1(), Some(A5));
        assert_eq!(m.maybe_swap_2(), Some(E5));
    }
    assert!(!moves.iter().any(|m| m.maybe_swap_1().is_some() && m.maybe_swap_2().is_none()));
    assert!(moves.iter().any(|m| m.maybe_swap_1().is_none()));
}

#[test]
fn nemesis_double_trade_exchanges_places() {
    let state = parse_fen("0000000000000000000000000/1/nemesis:A1,E1/mortal:A5,E5").unwrap();
    let m = GodName::Nemesis
        .get_all_moves(&state, Player::One)
        .into_iter()
        .find(|m| {
            let d = NemesisMove(m.action.0);
            d.move_from_position() == A1 && d.maybe_swap_1().is_some() && d.maybe_swap_2().is_some()
        })
        .unwrap();
    let d = NemesisMove(m.action.0);
    let next = state.next_state(GodName::Nemesis, GodName::Mortal, m.action);
    let own = next.board.workers[0];
    let oppo = next.board.workers[1];
    assert!(own.contains_square(A5) && own.contains_square(E5));
    assert_eq!(own.count_ones(), 2);
    assert!(oppo.contains_square(d.move_to_position()) && oppo.contains_square(E1));
    assert_eq!(oppo.count_ones(), 2);
}

#[test]
fn nemesis_has_no_power_next_to_an_opponent() {
    // B1 stands next to A1, so a move of E1 leaves A1 next to an opposing worker.
    let moves = nemesis_moves("0000000000000000000000000/1/nemesis:A1,E1/mortal:B1,E5");
    assert!(moves.iter().filter(|m| m.move_from_position() == E1).all(|m| m.maybe_swap_1().is_none()));
    assert!(moves.iter().any(|m| m.move_from_position() == E1));
}

#[test]
fn nemesis_lone_worker_trades_with_one() {
    let moves = nemesis_moves("0000000000000000000000000/1/nemesis:A1/mortal:C5,E5");
    let singles: Vec<_> = moves.iter().filter(|m| m.maybe_swap_1().is_some()).collect();
    assert!(singles.iter().any(|m| m.maybe_swap_1() == Some(C5)));
    assert!(singles.iter().any(|m| m.maybe_swap_1() == Some(E5)));
    assert!(singles.iter().all(|m| m.maybe_swap_2().is_none()));
}

#[test]
fn nemesis_two_workers_against_one_trade_either() {
    let moves = nemesis_moves("0000000000000000000000000/1/nemesis:A1,E1/mortal:C5");
    assert!(moves.iter().any(|m| m.maybe_swap_1() == Some(C5) && m.maybe_swap_2().is_none()));
    assert!(moves
        .iter()
        .any(|m| m.maybe_swap_1() == Some(m.move_to_position()) && m.maybe_swap_2() == Some(C5)));
}

#[test]
fn nemesis_single_trade_with_standing_worker() {
    let state = parse_fen("0000000000000000000000000/1/nemesis:A1,E1/mortal:C5").unwrap();
    let m = GodName::Nemesis
        .get_all_moves(&state, Player::One)
        .into_iter()
        .find(|m| {
            let d = NemesisMove(m.action.0);
            d.move_from_position() == A1 && d.maybe_swap_1().is_some() && d.maybe_swap_2() == Some(C5)
        })
        .unwrap();
    let d = NemesisMove(m.action.0);
    let next = state.next_state(GodName::Nemesis, GodName::Mortal, m.action);
    assert!(next.board.workers[0].contains_square(d.move_to_position()));
    assert!(next.board.workers[0].contains_square(C5));
    assert!(!next.board.workers[0].contains_square(E1));
    assert!(next.board.workers[1].contains_square(E1));
}

#[test]
fn nemesis_climb_onto_level_three_wins() {
    // C3 stands on level 2 and D4 is level 3.
    let moves = nemesis_moves("0000000030002000000000000/1/nemesis:C3,A1/mortal:A5,E1");
    assert!(moves.iter().any(|m| m.get_is_winning() && m.move_from_position() == C3 && m.move_to_position() == D4));
}

#[test]
fn nemesis_with_three_workers_is_not_supported() {
    let state = parse_fen("0000000000000000000000000/1/nemesis:A1,B1,E1/mortal:A5,E5").unwrap();
    assert!(!state.is_playable());
    let two = parse_fen("0000000000000000000000000/1/nemesis:A1,E1/mortal:A5,E5").unwrap();
    assert!(two.is_playable());
}

#[test]
fn nemesis_double_trade_with_two_opponents_is_listed_once() {
    let moves = nemesis_moves("0000000000000000000000000/1/nemesis:A1,C1/mortal:E5,E4");
    let doubles: Vec<_> = moves
        .iter()
        .filter(|m| {
            m.move_from_position() == santorini_core::square::A1
                && m.move_to_position() == santorini_core::square::A2
                && m.build_position() == santorini_core::square::B2
                && m.maybe_swap_1().is_some()
                && m.maybe_swap_2().is_some()
        })
        .collect();
    assert_eq!(doubles.len(), 1);
}
