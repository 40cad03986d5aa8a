use santorini_core::board::Player;
use santorini_core::fen::parse_fen;
use santorini_core::gods::iris::IrisMove;
use santorini_core::gods::GodName;
use santorini_core::square::{A1, B1, B2, C3, E4, E5};

fn iris_moves(fen: &str) -> Vec<IrisMove> {
    let state = parse_fen(fen).unwrap();
    GodName::Iris.get_all_moves(&state, Player::One).iter().map(|m| IrisMove(m.action.0)).collect()
}

#[test]
fn iris_jumps_over_a_neighbouring_worker() {
    let moves = iris_moves("0000000000000000000000000/1/iris:A1,E4/mortal:B2,E5");
    assert!(moves.iter().any(|m| m.move_from_position() == A1 && m.move_to_position() == C3 && !m.get_is_winning()));
}

#[test]
fn iris_jumps_whatever_the_level() {
    // C3 is two levels up.
    let moves = iris_moves("0000000000002000000000000/1/iris:A1,E4/mortal:B2,E5");
    assert!(moves.iter().any(|m| m.move_from_position() == A1 && m.move_to_position() == C3));
}

#[test]
fn iris_jump_onto_level_three_wins() {
    let moves = iris_moves("0000000000003000000000000/1/iris:A1,E4/mortal:B2,E5");
    assert!(moves.iter().any(|m| m.get_is_winning() && m.move_from_position() == A1 && m.move_to_position() == C3));
}

#[test]
fn iris_does_not_jump_onto_a_dome() {
    let moves = iris_moves("0000000000004000000000000/1/iris:A1,E4/mortal:B2,E5");
    assert!(!moves.iter().any(|m| m.move_to_position() == C3));
}

#[test]
fn iris_does_not_jump_without_a_worker_between() {
    let moves = iris_moves("0000000000000000000000000/1/iris:A1,E4/mortal:B1,E5");
    assert!(!moves.iter().any(|m| m.move_from_position() == A1 && m.move_to_position() == C3));
}

#[test]
fn iris_jump_plays_out() {
    let state = parse_fen("0000000000000000000000000/1/iris:A1,E4/mortal:B2,E5").unwrap();
    let m = GodName::Iris
        .get_all_moves(&state, Player::One)
        .into_iter()
        .find(|m| {
            let d = IrisMove(m.action.0);
            d.move_from_position() == A1 && d.move_to_position() == C3
        })
        .unwrap();
    let next = state.next_state(GodName::Iris, GodName::Mortal, m.action);
    assert!(next.board.workers[0].contains_square(C3));
    assert!(!next.board.workers[0].contains_square(A1));
    assert!(next.board.workers[1].contains_square(B2));
    assert_eq!(next.board.get_height(IrisMove(m.action.0).build_position()), 1);
}
