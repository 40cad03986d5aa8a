use santorini_core::board::Player;
use santorini_core::consistency_checker::consistency_check;
use santorini_core::fen::parse_fen;
use santorini_core::game::GameStateBuilder;
use santorini_core::gods::terpsichore::TerpsichoreMove;
use santorini_core::gods::GodName;
use santorini_core::move_verifier::MoveVerifier;
use santorini_core::square::{A1, B1, E4, E5};

#[test]
fn test_terpsichore_does_not_emit_simultaneous_worker_swap() {
    // Workers adjacent at A1 and B1. The "swap" - w1 A1->B1 while w2 B1->A1 - is physically
    // impossible (whichever moves first walks into the other). The only states that would leave
    // both A1 and B1 occupied after a Terpsichore turn are swap states, so none may exist. The
    // filter must not over-restrict either: some move has w1 entering w2's start (B1) while w1
    // vacates A1.
    let state = GameStateBuilder::new(GodName::Terpsichore, GodName::Mortal)
        .with_p1_worker(A1)
        .with_p1_worker(B1)
        .with_p2_worker(E4)
        .with_p2_worker(E5)
        .build();

    let next_states = state.get_next_states_interactive();

    assert!(MoveVerifier::new().with_p1_worker_at(A1).with_p1_worker_at(B1).none(&next_states));

    assert!(MoveVerifier::new().with_p1_worker_at(B1).without_p1_worker_at(A1).any(&next_states));
}

#[test]
fn test_terpsichore_wins_via_vacate_and_climb() {
    // A1 at height 3 (a worker on top), B1 at height 2 (a worker adjacent). The h3 worker can't
    // win - it's already there - and the h2 worker can't climb to A1 because A1 is occupied. But
    // the vacator (h3 worker) moves away, then the h2 worker climbs to A1 and wins.
    let state = GameStateBuilder::new(GodName::Terpsichore, GodName::Mortal)
        .with_p1_worker(A1)
        .with_p1_worker(B1)
        .with_p2_worker(E4)
        .with_p2_worker(E5)
        .with_height(A1, 3)
        .with_height(B1, 2)
        .build();

    let next_states = state.get_next_states_interactive();

    assert!(MoveVerifier::new()
        .is_winner(Player::One)
        .with_p1_worker_at(A1)
        .without_p1_worker_at(B1)
        .any(&next_states));
}

#[test]
fn terpsichore_moves_both_workers_every_turn() {
    let state = parse_fen("0000000000000000000000000/1/terpsichore:A1,E1/mortal:C3,C5").unwrap();
    let moves = GodName::Terpsichore.get_all_moves(&state, Player::One);
    assert!(!moves.is_empty());
    for m in &moves {
        let action = TerpsichoreMove(m.action.0);
        assert!(action.maybe_move_from_position_2().is_some(), "{:?}", action);
        let next = state.next_state(GodName::Terpsichore, GodName::Mortal, m.action);
        assert!(!next.board.workers[0].contains_square(A1));
    }
    consistency_check(&state).unwrap();
}

#[test]
fn terpsichore_lone_worker_moves_as_a_mortal() {
    let alone = parse_fen("0000000000000000000000000/1/terpsichore:A1/mortal:C3,C5").unwrap();
    let mortal = parse_fen("0000000000000000000000000/1/mortal:A1/mortal:C3,C5").unwrap();
    assert_eq!(
        GodName::Terpsichore.get_all_moves(&alone, Player::One).len(),
        GodName::Mortal.get_all_moves(&mortal, Player::One).len()
    );
}
