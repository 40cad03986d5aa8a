use santorini_core::bitboard::BitBoard;
use santorini_core::board::{FullGameState, Player};
use santorini_core::consistency_checker::consistency_check;
use santorini_core::fen::parse_fen;
use santorini_core::game::GameStateBuilder;
use santorini_core::generic::{CHECKING_MOVE_SCORE, INCLUDE_SCORE, INTERACT_WITH_KEY_SQUARES, MATE_ONLY};
use santorini_core::gods::medea::MedeaMove;
use santorini_core::gods::mortal::MortalMove;
use santorini_core::gods::GodName;
use santorini_core::move_verifier::MoveVerifier;
use santorini_core::square::{Square, A1, A4, A5, B3, B4, B5, C1, C2, C3, C4, C5, D5, E1, E2, E5};

/// Every square Medea is offered as a raze target for the given worker move.
fn raze_targets_for(state: &FullGameState, player: Player, from: Square, to: Square) -> BitBoard {
    let mut res = BitBoard::empty();
    for scored in GodName::Medea.get_all_moves(state, player) {
        let action = MedeaMove(scored.action.0);
        if action.move_from_position() != from || action.move_to_position() != to {
            continue;
        }
        if let Some(raze) = action.raze_position() {
            res = res.or(BitBoard::as_mask(raze));
        }
    }
    res
}

fn winning_moves(god: GodName, state: &FullGameState, player: Player) -> Vec<MortalMove> {
    god.get_moves(MATE_ONLY, state, player, BitBoard::main_section())
        .iter()
        .map(|m| MortalMove(m.action.0))
        .collect()
}

#[test]
fn test_medea_strips_a_neighbouring_opponent_to_the_ground() {
    // D5 is a level 3 square with an opponent worker parked on it, next to Medea's C5.
    let state = GameStateBuilder::new(GodName::Medea, GodName::Mortal)
        .with_p1_worker(C5)
        .with_p1_worker(A1)
        .with_p2_worker(D5)
        .with_p2_worker(E1)
        .with_height(D5, 3)
        .build();

    let next_states = state.get_next_states_interactive();
    assert!(MoveVerifier::new()
        .with_p2_worker_at(D5)
        .with_height_at(D5, 0)
        .any(&next_states));
}

#[test]
fn test_medea_can_raze_her_own_worker() {
    // Her two workers neighbour each other, so B5 is a legal target for the power.
    let state = GameStateBuilder::new(GodName::Medea, GodName::Mortal)
        .with_p1_worker(A5)
        .with_p1_worker(B5)
        .with_p2_worker(E1)
        .with_p2_worker(E2)
        .with_height(B5, 2)
        .build();

    assert!(raze_targets_for(&state, Player::One, A5, A4).contains_square(B5));
}

#[test]
fn test_medea_can_raze_the_square_she_just_climbed_onto() {
    // The power resolves at the end of the turn, so the worker that moved is standing next to
    // her other worker by then and is fair game itself.
    let state = GameStateBuilder::new(GodName::Medea, GodName::Mortal)
        .with_p1_worker(A5)
        .with_p1_worker(C5)
        .with_p2_worker(E1)
        .with_p2_worker(E2)
        .with_height(B5, 1)
        .build();

    assert!(raze_targets_for(&state, Player::One, A5, B5).contains_square(B5));
}

#[test]
fn test_medea_does_not_raze_out_of_reach_or_empty_squares() {
    // C1 holds an opponent worker but neighbours neither of her workers; D5 is a level 3
    // square with nobody on it; B5 is occupied but already at ground level.
    let state = GameStateBuilder::new(GodName::Medea, GodName::Mortal)
        .with_p1_worker(A5)
        .with_p1_worker(A1)
        .with_p2_worker(B5)
        .with_p2_worker(C1)
        .with_height(D5, 3)
        .build();

    let targets = raze_targets_for(&state, Player::One, A5, A4);
    assert!(!targets.contains_square(C1), "out of reach");
    assert!(!targets.contains_square(D5), "nobody is standing there");
    assert!(!targets.contains_square(B5), "already on the ground");
    assert!(targets.is_empty());
}

#[test]
fn test_medea_spends_the_power_only_when_she_razes() {
    let state = GameStateBuilder::new(GodName::Medea, GodName::Mortal)
        .with_p1_worker(A5)
        .with_p1_worker(A1)
        .with_p2_worker(B5)
        .with_p2_worker(E1)
        .with_height(B5, 2)
        .build();

    let mut saw_raze = false;
    for scored in GodName::Medea.get_all_moves(&state, Player::One) {
        let action = MedeaMove(scored.action.0);
        let next = state.next_state(GodName::Medea, GodName::Mortal, scored.action);
        let expected = if action.raze_position().is_some() {
            saw_raze = true;
            1
        } else {
            0
        };
        assert_eq!(next.board.god_data[0], expected, "{:?} should leave god data {}", action, expected);
    }
    assert!(saw_raze);
}

#[test]
fn test_medea_power_is_spent_for_good() {
    let state = parse_fen("02000 00000 00000 00000 00000/1/medea[x]:A5,A1/mortal:B5,E1").unwrap();
    assert_eq!(raze_targets_for(&state, Player::One, A5, A4), BitBoard::empty());

    // ...and once spent she reads exactly like a mortal.
    let as_mortal = parse_fen("02000 00000 00000 00000 00000/1/mortal:A5,A1/mortal:B5,E1").unwrap();
    assert_eq!(
        GodName::Medea.get_all_moves(&state, Player::One).len(),
        GodName::Mortal.get_all_moves(&as_mortal, Player::One).len()
    );
}

#[test]
fn test_medea_wins_without_paying_for_it() {
    // A plain climb to level 3, with an opponent worker sitting next to her the whole time.
    let state = GameStateBuilder::new(GodName::Medea, GodName::Mortal)
        .with_p1_worker(A5)
        .with_p1_worker(E5)
        .with_p2_worker(B4)
        .with_p2_worker(E1)
        .with_height(A5, 2)
        .with_height(B5, 3)
        .with_height(B4, 2)
        .build();

    let wins = GodName::Medea.get_moves(MATE_ONLY, &state, Player::One, BitBoard::main_section());
    assert_eq!(wins.len(), 1);

    let win = MedeaMove(wins[0].action.0);
    assert_eq!(win.move_to_position(), B5);
    assert_eq!(win.raze_position(), None, "a win has no use for the power");
}

#[test]
fn test_medea_razes_the_opponent_off_his_springboard() {
    // Black stands on C3 at level 2 with a level 3 square at C2: a win next turn. Medea cannot
    // build on C2 to stop it, but she can pull the tower out from under C3.
    let state = GameStateBuilder::new(GodName::Medea, GodName::Mortal)
        .with_p1_worker(B3)
        .with_p1_worker(A1)
        .with_p2_worker(C3)
        .with_p2_worker(E5)
        .with_current_player(Player::One)
        .with_height(C3, 2)
        .with_height(C2, 3)
        .build();

    let mut key_squares = BitBoard::empty();
    for win in winning_moves(GodName::Mortal, &state, Player::Two) {
        key_squares = key_squares.or(win.get_blocker_board());
    }

    let blockers =
        GodName::Medea.get_moves(INCLUDE_SCORE | INTERACT_WITH_KEY_SQUARES, &state, Player::One, key_squares);
    let mut found = false;
    for scored in &blockers {
        let action = MedeaMove(scored.action.0);
        if action.raze_position() != Some(C3) {
            continue;
        }
        found = true;
        let next = state.next_state(GodName::Medea, GodName::Mortal, scored.action);
        assert!(
            winning_moves(GodName::Mortal, &next, Player::Two).is_empty(),
            "{:?} should have taken the win away",
            action
        );
    }
    assert!(found, "razing the springboard is a blocking move");
}

#[test]
fn test_medea_check_flag_accounts_for_the_raze() {
    // She lands on B4 at level 2 next to the level 3 square B3, which is a check - unless she
    // then razes the ground she stands on.
    let state = GameStateBuilder::new(GodName::Medea, GodName::Mortal)
        .with_p1_worker(A4)
        .with_p1_worker(C5)
        .with_p2_worker(E1)
        .with_p2_worker(E2)
        .with_height(A4, 1)
        .with_height(B4, 2)
        .with_height(B3, 3)
        .build();

    assert_eq!(consistency_check(&state), Ok(()));

    let mut saw_plain_check = false;
    let mut saw_self_raze = false;
    for scored in GodName::Medea.get_moves_for_search(&state, Player::One) {
        let action = MedeaMove(scored.action.0);
        if action.move_from_position() != A4 || action.move_to_position() != B4 || action.build_position() != A5 {
            continue;
        }
        match action.raze_position() {
            None => {
                saw_plain_check = true;
                assert_eq!(scored.score, CHECKING_MOVE_SCORE, "{:?}", action);
            }
            Some(B4) => {
                saw_self_raze = true;
                assert_ne!(scored.score, CHECKING_MOVE_SCORE, "{:?} razes the ground she was going to climb from", action);
            }
            Some(_) => {}
        }
    }
    assert!(saw_plain_check && saw_self_raze);
}

#[test]
fn medea_raze_leaves_the_square_at_ground_level_and_keeps_the_rest() {
    // A raze of C4 under an opposing worker: C4 drops to 0, the build lands, the power is spent.
    let state = GameStateBuilder::new(GodName::Medea, GodName::Mortal)
        .with_p1_worker(C5)
        .with_p1_worker(A1)
        .with_p2_worker(C4)
        .with_p2_worker(E1)
        .with_height(C4, 3)
        .with_height(D5, 1)
        .build();

    let action = MedeaMove::new_raze_move(C5, B5, A5, C4);
    let next = state.next_state(GodName::Medea, GodName::Mortal, santorini_core::generic::GenericMove(action.0));
    assert_eq!(next.board.get_height(C4), 0);
    assert_eq!(next.board.get_height(A5), 1);
    assert_eq!(next.board.get_height(D5), 1);
    assert_eq!(next.board.god_data[0], 1);
    assert!(next.board.workers[1].contains_square(C4));
    assert!(next.board.workers[0].contains_square(B5));
}
