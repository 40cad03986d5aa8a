use santorini_core::board::Player;
use santorini_core::consistency_checker::consistency_check;
use santorini_core::fen::parse_fen;
use santorini_core::game::GameStateBuilder;
use santorini_core::gods::hermes::HermesMove;
use santorini_core::gods::GodName;
use santorini_core::move_verifier::MoveVerifier;
use santorini_core::square::{A1, A2, B1, B2, C3, D4, E1, E4, E5};

#[test]
fn hermes_walks_both_workers_across_a_level() {
    // A flat board: both workers may walk anywhere along the ground, then build.
    let state = parse_fen("0000000000000000000000000/1/hermes:A1,E5/mortal:C3,D3").unwrap();
    let next_states = state.get_next_states_interactive();

    // A1 walks to E1 and E5 to A5 in one turn.
    assert!(MoveVerifier::new()
        .with_p1_worker_at(E1)
        .without_p1_worker_at(A1)
        .without_p1_worker_at(E5)
        .no_winner()
        .any(&next_states));
    consistency_check(&state).unwrap();
}

#[test]
fn hermes_may_stay_put_and_only_build() {
    let state = parse_fen("0000000000000000000000000/1/hermes:A1,E5/mortal:C3,D3").unwrap();
    let moves = GodName::Hermes.get_all_moves(&state, Player::One);
    let mut stays = false;
    for m in &moves {
        let action = HermesMove(m.action.0);
        if let Some(from2) = action.move_from_position2() {
            if action.move_from_position() == action.move_to_position() && from2 == action.move_to_position2() {
                stays = true;
            }
        }
    }
    assert!(stays);
}

#[test]
fn hermes_walk_stops_at_a_level_change_and_at_opponents() {
    // A lone worker on the ground, walled in by level 1 squares on B1 and B2 and an opponent
    // on A2: it can only step up, never walk.
    let state = GameStateBuilder::new(GodName::Hermes, GodName::Mortal)
        .with_p1_worker(A1)
        .with_p2_worker(A2)
        .with_p2_worker(E1)
        .with_height(B1, 1)
        .with_height(B2, 1)
        .build();
    let moves = GodName::Hermes.get_all_moves(&state, Player::One);
    assert!(!moves.is_empty());
    for m in &moves {
        let action = HermesMove(m.action.0);
        assert!(action.move_from_position2().is_none());
        let to = action.move_to_position();
        assert!(to == A1 || to == B1 || to == B2, "{:?}", action);
    }
}

#[test]
fn hermes_steps_up_to_win() {
    let state = GameStateBuilder::new(GodName::Hermes, GodName::Mortal)
        .with_p1_worker(C3)
        .with_p1_worker(A1)
        .with_p2_worker(E1)
        .with_p2_worker(E4)
        .with_height(C3, 2)
        .with_height(D4, 3)
        .build();
    let next_states = state.get_next_states_interactive();
    assert!(MoveVerifier::new().with_p1_worker_at(D4).is_winner(Player::One).any(&next_states));
    consistency_check(&state).unwrap();
}

#[test]
fn hermes_lone_worker_walks_anywhere_on_its_level() {
    // A lone worker on a flat board walks to any free ground square and builds next to it.
    let state = GameStateBuilder::new(GodName::Hermes, GodName::Mortal)
        .with_p1_worker(A1)
        .with_p2_worker(E5)
        .with_p2_worker(E4)
        .build();
    let moves = GodName::Hermes.get_all_moves(&state, Player::One);
    let walk = HermesMove::new_hermes_single_move(A1, C3, D4);
    assert!(moves.iter().any(|m| m.action.0 == walk.0));
    let stay = HermesMove::new_hermes_single_move(A1, A1, B2);
    assert!(moves.iter().any(|m| m.action.0 == stay.0));
}

#[test]
fn hermes_double_walk_pairs_are_listed_once() {
    // Both workers share the ground: each pair of end squares comes once.
    let state = parse_fen("0000000000000000000000000/1/hermes:A1,E5/mortal:C3,D3").unwrap();
    let moves = GodName::Hermes.get_all_moves(&state, Player::One);
    let mut words: Vec<u32> = moves.iter().map(|m| m.action.0).collect();
    let n = words.len();
    words.sort();
    words.dedup();
    assert_eq!(words.len(), n);
    let both = HermesMove::new_hermes_double_move(E5, B2, A1, E1, B1, true);
    assert!(moves.iter().any(|m| m.action.0 == both.0));
}
