use std::collections::HashSet;

use santorini_core::consistency_checker::consistency_check;
use santorini_core::fen::parse_fen;
use santorini_core::gods::prometheus::PrometheusMove;
use santorini_core::gods::GodName;
use santorini_core::move_verifier::MoveVerifier;
use santorini_core::square::{B2, B3, B4, C2, C3, D2, D3};

// The pre-build and the post-move build are interchangeable only when both squares can be
// built on before *and* after the move, so only then may one of the two orderings be
// dropped. Regression: the ordering was pruned by square index alone, which silently lost
// every build square shared by the start and end squares whenever the pre-build square was
// out of reach after the move.
#[test]
fn test_pre_build_keeps_shared_build_squares() {
    let state = parse_fen("0000000000000000000000000/1/prometheus:C3,A1/mortal:E5,E4").unwrap();

    let next_states = state.get_next_states_interactive();

    // Pre-build on B4 (only reachable from C3), step C3 -> C2, then build on any neighbour
    // of C2 -- including the squares that neighbour both C3 and C2.
    for second_build in [B3, D3, B2, D2] {
        assert!(MoveVerifier::new()
            .with_p1_worker_at(C2)
            .without_p1_worker_at(C3)
            .with_height_at(B4, 1)
            .with_height_at(second_build, 1)
            .no_winner()
            .any(&next_states));
    }

    consistency_check(&state).unwrap();
}

// The same pair of builds must not be emitted in both orders when either order is legal.
#[test]
fn test_interchangeable_builds_are_not_duplicated() {
    let state = parse_fen("0000000000000000000000000/1/prometheus:C3,A1/mortal:E5,E4").unwrap();

    let all_states = state.get_next_states();
    let distinct = all_states.iter().collect::<HashSet<_>>();
    assert_eq!(all_states.len(), distinct.len());
}

#[test]
fn prometheus_pre_build_forbids_climbing() {
    // With a pre-build, a worker on the ground never ends higher than it started.
    let state = parse_fen("0000000100000000000000000/1/prometheus:C3,A1/mortal:E5,E4").unwrap();
    let moves = GodName::Prometheus.get_all_moves(&state, state.board.current_player);
    let mut pre_builds = 0;
    for m in &moves {
        let action = PrometheusMove(m.action.0);
        if action.pre_build_position().is_some() && !action.get_is_winning() {
            pre_builds += 1;
            let to = action.move_to_position();
            let raised = if Some(to) == action.pre_build_position() { 1 } else { 0 };
            assert!(state.board.get_height(to) + raised <= state.board.get_height(action.move_from_position()));
        }
    }
    assert!(pre_builds > 0);
    consistency_check(&state).unwrap();
}
