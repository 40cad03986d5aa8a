use santorini_core::board::Player;
use santorini_core::fen::{game_state_to_fen, parse_fen};
use santorini_core::game::{is_matchup_banned, GameStateBuilder, Matchup};
use santorini_core::generic::{MoveData, MOVE_DATA_MAIN_SECTION};
use santorini_core::gods::odysseus::{
    OdysseusMove, DISPLACEMENT_MASK, DISPLACEMENT_OFFSET, POWER_USED, SLOT_WIDTH,
};
use santorini_core::gods::GodName;
use santorini_core::move_verifier::MoveVerifier;
use santorini_core::square::{A1, A3, A4, A5, B1, B2, B3, C1, C3, D1, D3, E1, E3, E5};

#[test]
fn test_odysseus_displacement_does_not_disturb_the_mortal_move() {
    // The displacement field must live entirely above the mortal from/to/build bits, and
    // entirely below the check/winning flags.
    let plain = OdysseusMove::new_basic_move(A1, B2, C3, 0);
    let displacement = (7 as MoveData) << DISPLACEMENT_OFFSET
        | (7 as MoveData) << (DISPLACEMENT_OFFSET + 3 * SLOT_WIDTH);
    let forced = OdysseusMove::new_basic_move(A1, B2, C3, displacement);

    assert_eq!(forced.move_from_position(), A1);
    assert_eq!(forced.move_to_position(), B2);
    assert_eq!(forced.build_position(), C3);
    assert!(!plain.has_displacement());
    assert!(forced.has_displacement());
    assert_eq!(forced.0 & !DISPLACEMENT_MASK, plain.0);
    assert_eq!(forced.0 & MOVE_DATA_MAIN_SECTION, forced.0);
}

#[test]
fn test_odysseus_wins_by_forcing_a_worker_off_the_winning_square() {
    // B1 is at height 3 with an opponent worker parked on it, and Odysseus sits next to it at
    // height 2. He cannot climb into an occupied space, so the only win is to fling that
    // worker into a corner first.
    let state = GameStateBuilder::new(GodName::Odysseus, GodName::Mortal)
        .with_p1_worker(C1)
        .with_p1_worker(E5)
        .with_p2_worker(B1)
        .with_p2_worker(E3)
        .with_height(C1, 2)
        .with_height(B1, 3)
        .build();

    let next_states = state.get_next_states_interactive();

    assert!(MoveVerifier::new()
        .is_winner(Player::One)
        .with_p1_worker_at(B1)
        .any(&next_states));

    // The forced worker has to have gone to a corner, and A1 is the only one both free and
    // not occupied by Odysseus himself (E5 holds his other worker).
    assert!(MoveVerifier::new()
        .is_winner(Player::One)
        .with_p1_worker_at(B1)
        .with_p2_worker_at(A1)
        .any(&next_states));
}

#[test]
fn test_odysseus_forces_two_workers_in_one_turn() {
    // Both opponent workers neighbor Odysseus, so both can be flung at once.
    let state = GameStateBuilder::new(GodName::Odysseus, GodName::Mortal)
        .with_p1_worker(C3)
        .with_p1_worker(C1)
        .with_p2_worker(B3)
        .with_p2_worker(D3)
        .build();

    let next_states = state.get_next_states_interactive();

    assert!(MoveVerifier::new()
        .with_p2_worker_at(A5)
        .with_p2_worker_at(E5)
        .any(&next_states));

    // ...and forcing only one of them is legal too ("any number").
    assert!(MoveVerifier::new()
        .with_p2_worker_at(A5)
        .with_p2_worker_at(D3)
        .any(&next_states));
}

#[test]
fn test_odysseus_only_forces_neighboring_workers() {
    // D1 is nowhere near either Odysseus worker, so it stays put no matter what.
    let state = GameStateBuilder::new(GodName::Odysseus, GodName::Mortal)
        .with_p1_worker(A4)
        .with_p1_worker(A3)
        .with_p2_worker(A5)
        .with_p2_worker(D1)
        .build();

    let next_states = state.get_next_states_interactive();

    assert!(MoveVerifier::new()
        .without_p2_worker_at(D1)
        .none(&next_states));
    // The neighboring worker on A5 is already on a corner, but can still be moved to another.
    assert!(MoveVerifier::new().with_p2_worker_at(E5).any(&next_states));
}

#[test]
fn test_odysseus_cannot_force_onto_domed_or_occupied_corners() {
    // A5 is domed, E5 and E1 hold Odysseus' own workers, A1 holds the other opponent worker.
    // With no corner free the power cannot be used at all.
    let state = GameStateBuilder::new(GodName::Odysseus, GodName::Mortal)
        .with_p1_worker(E5)
        .with_p1_worker(E1)
        .with_p2_worker(D1)
        .with_p2_worker(A1)
        .with_height(A5, 4)
        .build();

    let next_states = state.get_next_states_interactive();

    for next_state in &next_states {
        assert_eq!(
            next_state.state.board.workers[1], state.board.workers[1],
            "No corner is free, so no opponent worker should ever move"
        );
    }
}

#[test]
fn test_odysseus_power_is_once_per_game() {
    // Same shape as the two-worker test, but god_data already marks the power as spent.
    let state = parse_fen("0000000000000000000000000/1/odysseus[x]:C3,C1/mortal:B3,D3")
        .expect("fen should parse");

    let next_states = state.get_next_states_interactive();

    for next_state in &next_states {
        assert_eq!(
            next_state.state.board.workers[1], state.board.workers[1],
            "The power is spent, so no opponent worker should move"
        );
    }
}

#[test]
fn test_odysseus_god_data_round_trips_through_fen() {
    let fen = "0000000000000000000000000/1/odysseus[x]:C3,C1/mortal:B3,D3";
    let state = parse_fen(fen).expect("fen should parse");
    assert_eq!(state.board.god_data[0], POWER_USED);
    assert_eq!(game_state_to_fen(&state), fen.as_bytes().to_vec());
}

#[test]
fn test_odysseus_hydra_matchup_is_banned() {
    // Hydra grows past the 7 workers a 3 bit slot can name.
    assert!(is_matchup_banned(&Matchup::new(
        GodName::Odysseus,
        GodName::Hydra
    )));
}

#[test]
fn odysseus_spent_power_plays_like_a_mortal() {
    // With the power spent, the moves are exactly the plain ones.
    let state = parse_fen("0000000000000000000000000/1/odysseus[x]:C3,C1/mortal:B3,D3").unwrap();
    let as_mortal = parse_fen("0000000000000000000000000/1/mortal:C3,C1/mortal:B3,D3").unwrap();
    let odysseus_moves = state.get_next_states_interactive();
    let mortal_moves = as_mortal.get_next_states_interactive();
    assert_eq!(odysseus_moves.len(), mortal_moves.len());
}

#[test]
fn odysseus_power_marks_god_data() {
    // Every move that forces a worker spends the power; the others keep it.
    let state = GameStateBuilder::new(GodName::Odysseus, GodName::Mortal)
        .with_p1_worker(C3)
        .with_p1_worker(C1)
        .with_p2_worker(B3)
        .with_p2_worker(D3)
        .build();
    let next_states = state.get_next_states_interactive();
    let mut forced = 0;
    for choice in &next_states {
        let action = OdysseusMove(choice.action.0);
        if action.has_displacement() {
            forced += 1;
            assert_eq!(choice.state.board.god_data[0], POWER_USED);
        } else {
            assert_eq!(choice.state.board.god_data[0], 0);
            assert_eq!(choice.state.board.workers[1], state.board.workers[1]);
        }
    }
    assert!(forced > 0);
}
