use santorini_core::board::Player;
use santorini_core::fen::{game_state_to_fen, parse_fen};
use santorini_core::game::GameStateBuilder;
use santorini_core::gods::mortal::MortalMove;
use santorini_core::gods::GodName;
use santorini_core::move_verifier::MoveVerifier;
use santorini_core::square::{A1, B2, C3, C4, D4, E5};

#[test]
fn mortal_move_encoding_round_trips() {
    let action = MortalMove::new_basic_move(A1, B2, C3);
    assert_eq!(action.move_from_position(), A1);
    assert_eq!(action.move_to_position(), B2);
    assert_eq!(action.build_position(), C3);
    assert!(!action.get_is_winning());

    let win = MortalMove::new_winning_move(C3, C4);
    assert_eq!(win.move_from_position(), C3);
    assert_eq!(win.move_to_position(), C4);
    assert!(win.get_is_winning());
}

#[test]
fn mortal_corner_worker_has_three_steps() {
    let state = GameStateBuilder::new(GodName::Mortal, GodName::Mortal)
        .with_p1_worker(A1)
        .with_p2_worker(E5)
        .build();
    let moves = GodName::Mortal.get_all_moves(&state, Player::One);
    // Three steps from the corner; after each, the builds around the new square (including
    // the vacated corner).
    assert_eq!(moves.len(), 5 + 5 + 8);
}

#[test]
fn mortal_wins_by_climbing_to_level_three() {
    let state = GameStateBuilder::new(GodName::Mortal, GodName::Mortal)
        .with_p1_worker(C3)
        .with_p2_worker(E5)
        .with_height(C3, 2)
        .with_height(D4, 3)
        .build();
    let next_states = state.get_next_states_interactive();
    assert!(MoveVerifier::new().is_winner(Player::One).with_p1_worker_at(D4).any(&next_states));
}

#[test]
fn fen_round_trips() {
    let fen = "0000000000000001000000000/1/mortal:A1,C1/persephone:D5,E5";
    let state = parse_fen(fen).expect("fen should parse");
    assert_eq!(game_state_to_fen(&state), fen.as_bytes().to_vec());
}

#[test]
fn next_state_moves_the_worker_and_builds() {
    let state = GameStateBuilder::new(GodName::Mortal, GodName::Mortal)
        .with_p1_worker(C3)
        .with_p2_worker(E5)
        .build();
    let action = MortalMove::new_basic_move(C3, B2, A1).to_generic();
    let next = state.next_state(GodName::Mortal, GodName::Mortal, action);
    assert!(next.board.workers[0].contains_square(B2));
    assert!(!next.board.workers[0].contains_square(C3));
    assert!(next.board.workers[1].contains_square(E5));
    assert_eq!(next.board.get_height(A1), 1);
    assert_eq!(next.board.get_height(B2), 0);
    assert_eq!(next.board.current_player, Player::Two);
    assert_eq!(next.board.winner, None);
}

#[test]
fn mortal_mate_only_lists_every_win() {
    // A worker on level 2 with two level 3 squares next to it: asking for wins alone lists both.
    let state = GameStateBuilder::new(GodName::Mortal, GodName::Mortal)
        .with_p1_worker(C3)
        .with_p1_worker(A1)
        .with_p2_worker(E5)
        .with_height(C3, 2)
        .with_height(B2, 3)
        .with_height(D4, 3)
        .build();
    let flags = santorini_core::generic::MATE_ONLY;
    let key_squares = santorini_core::bitboard::BitBoard::main_section();
    let wins = GodName::Mortal.get_moves(flags, &state, Player::One, key_squares);
    let to_b2 = MortalMove::new_winning_move(C3, B2);
    let to_d4 = MortalMove::new_winning_move(C3, D4);
    assert!(wins.iter().any(|m| m.action.0 == to_b2.0));
    assert!(wins.iter().any(|m| m.action.0 == to_d4.0));
    assert_eq!(wins.len(), 2);
}
