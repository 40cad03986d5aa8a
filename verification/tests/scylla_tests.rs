use santorini_core::board::Player;
use santorini_core::fen::parse_fen;
use santorini_core::gods::scylla::ScyllaMove;
use santorini_core::gods::GodName;
use santorini_core::square::{A1, B1, B2, C3};

fn scylla_moves(fen: &str) -> Vec<ScyllaMove> {
    let state = parse_fen(fen).unwrap();
    GodName::Scylla.get_all_moves(&state, Player::One).iter().map(|m| ScyllaMove(m.action.0)).collect()
}

#[test]
fn scylla_drags_a_neighbour_into_her_start() {
    let moves = scylla_moves("0000000000000000000000000/1/scylla:A1,E5/mortal:B1,E1");
    assert!(moves.iter().any(|m| m.move_from_position() == A1 && m.maybe_drag_from_position() == Some(B1)));
    assert!(moves.iter().any(|m| m.move_from_position() == A1 && m.maybe_drag_from_position().is_none()));
}

#[test]
fn scylla_drag_plays_out() {
    let state = parse_fen("0000000000000000000000000/1/scylla:A1,E5/mortal:B1,E1").unwrap();
    let m = GodName::Scylla
        .get_all_moves(&state, Player::One)
        .into_iter()
        .find(|m| {
            let d = ScyllaMove(m.action.0);
            d.move_to_position() == B2 && d.maybe_drag_from_position() == Some(B1)
        })
        .unwrap();
    let next = state.next_state(GodName::Scylla, GodName::Mortal, m.action);
    assert!(next.board.workers[0].contains_square(B2));
    assert!(next.board.workers[1].contains_square(A1));
    assert!(!next.board.workers[1].contains_square(B1));
}

#[test]
fn scylla_does_not_drag_a_worker_that_is_not_next_to_her() {
    let moves = scylla_moves("0000000000000000000000000/1/scylla:A1,E5/mortal:C3,E1");
    assert!(!moves.iter().any(|m| m.maybe_drag_from_position() == Some(C3)));
}

#[test]
fn scylla_drag_frees_the_square_for_a_build() {
    let moves = scylla_moves("0000000000000000000000000/1/scylla:A1,E5/mortal:B1,E1");
    assert!(moves.iter().any(|m| m.move_to_position() == B2 && m.maybe_drag_from_position() == Some(B1) && m.build_position() == B1));
    assert!(!moves.iter().any(|m| m.maybe_drag_from_position() == Some(B1) && m.build_position() == A1));
}
