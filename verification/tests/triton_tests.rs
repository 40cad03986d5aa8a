use santorini_core::bitboard::{neighbor_mask, BitBoard};
use santorini_core::board::{FullGameState, Player};
use santorini_core::consistency_checker::ConsistencyChecker;
use santorini_core::game::GameStateBuilder;
use santorini_core::generic::MATE_ONLY;
use santorini_core::gods::triton::TritonMove;
use santorini_core::gods::GodName;
use santorini_core::move_verifier::MoveVerifier;
use santorini_core::square::{Square, A1, A2, A3, A4, A5, B1, B2, B3, B4, B5, C1, C3, C5, D1, D3, E1, E2, E4, E5};

fn destinations_from(state: &FullGameState, player: Player, from: Square) -> BitBoard {
    let mut res = BitBoard::empty();
    for scored in GodName::Triton.get_all_moves(state, player) {
        let action = TritonMove(scored.action.0);
        if action.move_from_position() == from {
            res = res.or(BitBoard::as_mask(action.move_to_position()));
        }
    }
    res
}

#[test]
fn test_triton_walks_the_perimeter() {
    // A worker on the empty perimeter can chain around the whole ring, but may never reach the
    // far side of the middle: the first step into the middle ends the chain.
    let state = GameStateBuilder::new(GodName::Triton, GodName::Mortal)
        .with_p1_worker(A5)
        .with_p1_worker(E1)
        .with_p2_worker(C1)
        .with_p2_worker(D1)
        .build();

    let destinations = destinations_from(&state, Player::One, A5);

    for square in [A4, A1, C5, E5, E4, B4, B2] {
        assert!(destinations.contains_square(square), "{} should be reachable", square);
    }
    // C3 is only reachable via the middle, and the middle is where a chain stops.
    assert!(!destinations.contains_square(C3));
    // Walking the ring all the way back around is legal, and is the only way to stand still.
    assert!(destinations.contains_square(A5));
}


#[test]
fn test_triton_does_not_chain_off_a_middle_space() {
    // Every neighbor of C3 is a middle space, so this worker takes exactly one step.
    let state = GameStateBuilder::new(GodName::Triton, GodName::Mortal)
        .with_p1_worker(C3)
        .with_p2_worker(A1)
        .build();

    let destinations = destinations_from(&state, Player::One, C3);
    assert_eq!(destinations, neighbor_mask(C3));
}

#[test]
fn test_triton_wins_by_walking_to_a_springboard() {
    // C1 is a level 3 square that no worker starts next to. B1 is a level 2 perimeter space, so
    // the worker can walk A1 -> B1 and climb off it in the same turn.
    let state = GameStateBuilder::new(GodName::Triton, GodName::Mortal)
        .with_p1_worker(A1)
        .with_p2_worker(E5)
        .with_height(A1, 1)
        .with_height(B1, 2)
        .with_height(C1, 3)
        .build();

    let next_states = state.get_next_states_interactive();
    assert!(MoveVerifier::new().is_winner(Player::One).with_p1_worker_at(C1).any(&next_states));
}

#[test]
fn test_triton_cannot_climb_off_a_middle_springboard() {
    // Same shape, but the level 2 springboard is in the middle, so the chain ends there and the
    // climb has to wait for next turn.
    let state = GameStateBuilder::new(GodName::Triton, GodName::Mortal)
        .with_p1_worker(B3)
        .with_p2_worker(E5)
        .with_height(C3, 2)
        .with_height(D3, 3)
        .build();

    let next_states = state.get_next_states_interactive();
    assert!(MoveVerifier::new().is_winner(Player::One).none(&next_states));
}

#[test]
fn test_triton_may_stop_after_the_first_step() {
    // The chain is optional, so every single-step destination is still offered.
    let state = GameStateBuilder::new(GodName::Triton, GodName::Mortal)
        .with_p1_worker(A5)
        .with_p2_worker(E1)
        .build();

    let destinations = destinations_from(&state, Player::One, A5);
    for square in neighbor_mask(A5).squares() {
        assert!(destinations.contains_square(square), "{} should be reachable in one step", square);
    }
}

#[test]
fn test_triton_chain_respects_climb_limit() {
    // B5 is level 2, so a ground level worker on A5 cannot step onto it, and everything past it
    // along the top row is unreachable.
    let state = GameStateBuilder::new(GodName::Triton, GodName::Mortal)
        .with_p1_worker(A5)
        .with_p2_worker(E1)
        .with_height(B5, 2)
        .with_height(B4, 2)
        .with_height(A4, 2)
        .build();

    let destinations = destinations_from(&state, Player::One, A5);
    assert_eq!(destinations, BitBoard::empty());
}

#[test]
fn test_triton_consistency_on_a_crowded_board() {
    let state = GameStateBuilder::new(GodName::Triton, GodName::Mortal)
        .with_p1_worker(A5)
        .with_p1_worker(E1)
        .with_p2_worker(C3)
        .with_p2_worker(B2)
        .with_height(A5, 2)
        .with_height(B5, 3)
        .with_height(C5, 1)
        .with_height(A4, 2)
        .with_height(D1, 2)
        .with_height(E2, 4)
        .with_height(C3, 1)
        .build();

    ConsistencyChecker::new(&state)
        .perform_all_validations()
        .expect("consistency check should pass");
}

#[test]
fn test_triton_vs_persephone_climb_may_come_mid_chain() {
    // A5 -> A4 is flat, A4 -> A3 climbs, A3 -> A2 comes back down to where the turn started.
    // Persephone is satisfied by the climb happening anywhere in the chain.
    let state = GameStateBuilder::new(GodName::Triton, GodName::Persephone)
        .with_p1_worker(A5)
        .with_p2_worker(E1)
        .with_height(A3, 1)
        .build();

    let destinations = destinations_from(&state, Player::One, A5);
    assert!(destinations.contains_square(A3), "the climb itself is legal");
    assert!(destinations.contains_square(A2), "stepping back down past the climb is legal");
}

#[test]
fn test_triton_vs_persephone_drops_chains_that_never_climb() {
    // Every neighbor of C3 is a middle space, so there is no chain to hide a climb in: only the
    // single step onto the level 1 square survives.
    let state = GameStateBuilder::new(GodName::Triton, GodName::Persephone)
        .with_p1_worker(C3)
        .with_p2_worker(E1)
        .with_height(B2, 1)
        .build();

    assert_eq!(destinations_from(&state, Player::One, C3), BitBoard::as_mask(B2));
}

#[test]
fn test_triton_vs_persephone_falls_back_when_no_climb_exists() {
    let state = GameStateBuilder::new(GodName::Triton, GodName::Persephone)
        .with_p1_worker(A5)
        .with_p2_worker(E1)
        .build();

    assert!(destinations_from(&state, Player::One, A5).is_not_empty());
}

#[test]
fn test_triton_blocker_board_covers_the_walk() {
    let state = GameStateBuilder::new(GodName::Triton, GodName::Mortal)
        .with_p1_worker(A1)
        .with_p2_worker(E5)
        .with_height(A1, 1)
        .with_height(B1, 2)
        .with_height(C1, 3)
        .build();

    let wins = GodName::Triton.get_moves(MATE_ONLY, &state, Player::One, BitBoard::main_section());
    assert_eq!(wins.len(), 1);

    let blockers = TritonMove(wins[0].action.0).get_blocker_board(&state.board);
    // B1 is the springboard: building it up to a dome, or standing on it, is what stops this.
    assert!(blockers.contains_square(B1));
    assert!(blockers.contains_square(A1));
    assert!(blockers.contains_square(C1));
}

#[test]
fn triton_every_move_ends_on_a_free_square_or_home() {
    let state = GameStateBuilder::new(GodName::Triton, GodName::Mortal)
        .with_p1_worker(A5)
        .with_p1_worker(E1)
        .with_p2_worker(C3)
        .with_p2_worker(B2)
        .build();
    for m in &GodName::Triton.get_all_moves(&state, Player::One) {
        let next = state.next_state(GodName::Triton, GodName::Mortal, m.action);
        assert_eq!(next.board.workers[0].count_ones(), 2);
    }
}
