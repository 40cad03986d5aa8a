use santorini_core::bitboard::{neighbor_mask, BitBoard};
use santorini_core::board::{FullGameState, Player};
use santorini_core::consistency_checker::consistency_check;
use santorini_core::game::GameStateBuilder;
use santorini_core::generic::CHECKING_MOVE_SCORE;
use santorini_core::gods::siren::SirenMove;
use santorini_core::gods::GodName;
use santorini_core::move_verifier::MoveVerifier;
use santorini_core::generic::GenericMove;
use santorini_core::square::{A1, A4, A5, B1, B2, B5, C1, C2, C3, C4, D1, D2, D3, E1, E2, E3};

/// Every set of opponent workers the song is offered as dragging, as (dragged-from) masks.
fn song_drags_for(state: &FullGameState, player: Player) -> Vec<BitBoard> {
    let mut res = Vec::new();

    for scored in GodName::Siren.get_all_moves(state, player) {
        let action = SirenMove(scored.action.0);
        if action.maybe_move_to_position().is_some() {
            continue;
        }

        let forced = action.decode_forced_workers(&state.board, player);
        let mut mask = BitBoard::empty();
        for (from, _) in forced {
            mask = mask.or(BitBoard::as_mask(from));
        }
        if !res.contains(&mask) {
            res.push(mask);
        }
    }

    res
}

#[test]
fn test_song_drags_a_worker_one_square_down() {
    // C3 is the only opponent worker within the song's reach that has anywhere to go; E1 is on
    // the bottom row.
    let state = GameStateBuilder::new(GodName::Siren, GodName::Mortal)
        .with_p1_worker(A5)
        .with_p1_worker(A4)
        .with_p2_worker(C3)
        .with_p2_worker(E1)
        .with_height(C2, 3)
        .build();

    let next_states = state.get_next_states_interactive();

    // Level makes no difference to where the song can put somebody: C2 is three storeys up.
    assert!(MoveVerifier::new().without_p2_worker_at(C3).with_p2_worker_at(C2).any(&next_states));

    assert_eq!(song_drags_for(&state, Player::One), vec![BitBoard::as_mask(C3)]);
}

#[test]
fn test_song_drags_every_subset_of_the_workers_it_can_reach() {
    let state = GameStateBuilder::new(GodName::Siren, GodName::Mortal)
        .with_p1_worker(A5)
        .with_p1_worker(A4)
        .with_p2_worker(C3)
        .with_p2_worker(E3)
        .build();

    let mut drags = song_drags_for(&state, Player::One);
    drags.sort_by_key(|b| b.0);

    assert_eq!(
        drags,
        vec![BitBoard::as_mask(C3), BitBoard::as_mask(E3), BitBoard::as_mask(C3).or(BitBoard::as_mask(E3))]
    );
}

#[test]
fn test_song_leaves_workers_with_nowhere_downwind_to_go() {
    // A1 is on the bottom row, B2 has a dome below it, and D3 has the opponent's other worker
    // below it.
    let state = GameStateBuilder::new(GodName::Siren, GodName::Scylla)
        .with_p1_worker(A5)
        .with_p1_worker(C1)
        .with_p2_worker(A1)
        .with_p2_worker(B2)
        .with_p2_worker(D3)
        .with_p2_worker(D2)
        .with_height(B1, 4)
        .build();

    // D2 itself is free to move: D1 is empty. Nothing else is.
    assert_eq!(song_drags_for(&state, Player::One), vec![BitBoard::as_mask(D2)]);
}

#[test]
fn test_song_does_not_shuffle_a_column_along() {
    // D3 sits directly above D2, and the whole song resolves at once, so D2 stepping off D2
    // does not open D2 up as somewhere to put D3.
    let state = GameStateBuilder::new(GodName::Siren, GodName::Mortal)
        .with_p1_worker(A5)
        .with_p1_worker(A4)
        .with_p2_worker(D3)
        .with_p2_worker(D2)
        .build();

    assert_eq!(song_drags_for(&state, Player::One), vec![BitBoard::as_mask(D2)]);
}

#[test]
fn test_being_dragged_onto_level_three_does_not_win() {
    // C2 is a level 3 square directly downwind of an opponent worker. Being forced is not
    // moving, so nobody wins by landing there.
    let state = GameStateBuilder::new(GodName::Siren, GodName::Mortal)
        .with_p1_worker(A5)
        .with_p1_worker(A4)
        .with_p2_worker(C3)
        .with_p2_worker(E1)
        .with_height(C3, 2)
        .with_height(C2, 3)
        .build();

    let mut saw_the_drag = false;
    for scored in GodName::Siren.get_all_moves(&state, Player::One) {
        let action = SirenMove(scored.action.0);
        if action.maybe_move_to_position().is_some() {
            continue;
        }
        saw_the_drag = true;

        let next = state.next_state(GodName::Siren, GodName::Mortal, scored.action);
        assert_eq!(next.board.get_winner(), None, "{:?}", action);
        assert!(!scored.get_is_winning(), "{:?}", action);
    }
    assert!(saw_the_drag);
}

#[test]
fn test_song_builds_with_either_worker() {
    // Her workers stand at opposite corners, so between them they can build anywhere along
    // either corner - and each build square is emitted exactly once.
    let state = GameStateBuilder::new(GodName::Siren, GodName::Mortal)
        .with_p1_worker(A5)
        .with_p1_worker(E1)
        .with_p2_worker(C3)
        .with_p2_worker(C4)
        .build();

    let mut builds_near_a5 = false;
    let mut builds_near_e1 = false;

    for scored in GodName::Siren.get_all_moves(&state, Player::One) {
        let action = SirenMove(scored.action.0);
        if action.maybe_move_to_position().is_some() {
            continue;
        }

        let build = action.build_position();
        let builder = action.move_from_position();
        assert!(
            neighbor_mask(build).contains_square(builder),
            "{:?} builds out of reach of the worker it names",
            action
        );

        builds_near_a5 |= build == B5;
        builds_near_e1 |= build == D1;
    }

    assert!(builds_near_a5 && builds_near_e1);
}

#[test]
fn test_song_can_create_a_check() {
    // Her B2 worker stands on level 2 next to a level 2 square. Building C2 up makes it a
    // level 3 she can step onto next turn, and the song is how she spends the turn.
    let state = GameStateBuilder::new(GodName::Siren, GodName::Mortal)
        .with_p1_worker(B2)
        .with_p1_worker(A5)
        .with_p2_worker(E3)
        .with_p2_worker(E1)
        .with_height(B2, 2)
        .with_height(C2, 2)
        .build();

    assert_eq!(consistency_check(&state), Ok(()));

    let mut saw_check = false;
    for scored in GodName::Siren.get_moves_for_search(&state, Player::One) {
        let action = SirenMove(scored.action.0);
        if action.maybe_move_to_position().is_some() || action.build_position() != C2 {
            continue;
        }
        saw_check = true;
        assert_eq!(scored.score, CHECKING_MOVE_SCORE, "{:?}", action);
    }
    assert!(saw_check);
}

#[test]
fn test_persephone_takes_the_song_away() {
    // Her A5 worker can climb onto B5, so Persephone obliges her to - and the song, which
    // climbs nothing, is not a way out of it.
    let state = GameStateBuilder::new(GodName::Siren, GodName::Persephone)
        .with_p1_worker(A5)
        .with_p1_worker(E1)
        .with_p2_worker(C3)
        .with_p2_worker(E3)
        .with_height(B5, 1)
        .build();

    assert_eq!(consistency_check(&state), Ok(()));
    assert!(song_drags_for(&state, Player::One).is_empty());

    // Without the climb on offer she gets it back.
    let flat = GameStateBuilder::new(GodName::Siren, GodName::Persephone)
        .with_p1_worker(A5)
        .with_p1_worker(E1)
        .with_p2_worker(C3)
        .with_p2_worker(E3)
        .build();

    assert!(!song_drags_for(&flat, Player::One).is_empty());
}

#[test]
fn siren_song_moves_the_named_workers_and_builds() {
    // Opponent workers on C3 and E3 (places 0 and 1 in square order); the song names both.
    let state = GameStateBuilder::new(GodName::Siren, GodName::Mortal)
        .with_p1_worker(A5)
        .with_p1_worker(A4)
        .with_p2_worker(C3)
        .with_p2_worker(E3)
        .build();
    let song = SirenMove::new_song_move(A5, B5, 0b11);
    let mut board = state.board;
    song.make_move(&mut board, Player::One);
    assert!(!board.workers[1].contains_square(C3));
    assert!(!board.workers[1].contains_square(E3));
    assert!(board.workers[1].contains_square(C2));
    assert!(board.workers[1].contains_square(E2));
    assert_eq!(board.workers[0], state.board.workers[0]);
    assert_eq!(board.get_height(B5), 1);
    assert_eq!(board.get_winner(), None);
}

#[test]
fn siren_song_names_workers_by_their_place() {
    // Only the second opposing worker (E3, place 1) is named.
    let state = GameStateBuilder::new(GodName::Siren, GodName::Mortal)
        .with_p1_worker(A5)
        .with_p1_worker(A4)
        .with_p2_worker(C3)
        .with_p2_worker(E3)
        .build();
    let song = SirenMove::new_song_move(A5, B5, 0b10);
    assert_eq!(song.decode_forced_workers(&state.board, Player::One), vec![(E3, E2)]);
    let next = state.next_state(GodName::Siren, GodName::Mortal, GenericMove(song.0));
    assert!(next.board.workers[1].contains_square(C3));
    assert!(next.board.workers[1].contains_square(E2));
}

#[test]
fn siren_ordinary_turn_plays_as_a_mortal_one() {
    let state = GameStateBuilder::new(GodName::Siren, GodName::Mortal)
        .with_p1_worker(A5)
        .with_p1_worker(A4)
        .with_p2_worker(C3)
        .with_p2_worker(E1)
        .build();
    let plain = SirenMove::new_basic_move(A5, B5, C4);
    let mut board = state.board;
    plain.make_move(&mut board, Player::One);
    assert!(board.workers[0].contains_square(B5));
    assert!(!board.workers[0].contains_square(A5));
    assert_eq!(board.workers[1], state.board.workers[1]);
    assert_eq!(board.get_height(C4), 1);
}
