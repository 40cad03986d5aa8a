use std::collections::HashSet;

use santorini_core::bitboard::{neighbor_mask, BitBoard, MAIN_SECTION, PERIMETER_MASK};
use santorini_core::board::{BoardState, FullGameState, GodData, Player};
use santorini_core::consistency_checker::consistency_check;
use santorini_core::fen::parse_fen;
use santorini_core::game::GameStateBuilder;
use santorini_core::generic::GenericMove;
use santorini_core::gods::jason::JasonMove;
use santorini_core::gods::GodName;
use santorini_core::move_verifier::MoveVerifier;
use santorini_core::square::{Square, A1, A2, B1, B2, B5, C1, C3, C5, D1, D3, D4, D5, E1, E2, E5};

fn jason_move_climbs(state: &FullGameState, action: GenericMove) -> bool {
    let board = &state.board;
    let jason_move = JasonMove(action.0);

    if action.get_is_winning() {
        return true;
    }

    if let Some(end_pos) = jason_move.maybe_place_position() {
        // The placed worker always starts on the ground
        board.get_height(end_pos) > 0
    } else {
        board.get_height(jason_move.move_to_position())
            > board.get_height(jason_move.move_from_position())
    }
}

fn assert_all_moves_climb(state: &FullGameState) {
    let jason = GodName::Jason.to_power();
    let moves = jason.get_all_moves(state, state.board.current_player);
    assert!(!moves.is_empty());

    for scored_move in &moves {
        assert!(
            jason_move_climbs(state, scored_move.action),
            "Move didn't climb: {:?}",
            JasonMove(scored_move.action.0)
        );
    }
}

// A `BoardState` minus the bookkeeping the brute force would have to maintain by hand
type BoardSignature = (u32, u32, [u32; 4], [GodData; 2], bool);

fn board_signature(board: &BoardState) -> BoardSignature {
    (
        board.workers[0].0 & MAIN_SECTION,
        board.workers[1].0 & MAIN_SECTION,
        std::array::from_fn(|i| board.height_map[i].0 & MAIN_SECTION),
        board.god_data,
        board.get_winner().is_some(),
    )
}

fn square_mask(sq: Square) -> BitBoard {
    BitBoard(1u32 << sq)
}

fn add_builds(bucket: &mut HashSet<BoardSignature>, moved: &BoardState, end: Square, blocked: BitBoard) {
    for build in neighbor_mask(end).minus(blocked).squares() {
        let mut next = moved.clone();
        next.build_up(build);
        bucket.insert(board_signature(&next));
    }
}

// Every position Jason can legally reach, worked out from first principles
fn bruteforce_next_boards(state: &FullGameState, player: Player) -> HashSet<BoardSignature> {
    let board = &state.board;
    let main = BitBoard::main_section();
    let own_workers = board.workers[player.index()].and(main);
    let oppo_workers = board.workers[player.other().index()].and(main);
    let all_workers = own_workers.or(oppo_workers);
    let domes = board.at_least_level_4();

    let mut ordinary_climbing = HashSet::new();
    let mut ordinary_flat = HashSet::new();
    let mut power_climbing = HashSet::new();
    let mut power_flat = HashSet::new();

    // Ordinary move + build
    for start in own_workers.squares() {
        let start_height = board.get_height(start);

        for end in neighbor_mask(start).minus(all_workers.or(domes)).squares() {
            let end_height = board.get_height(end);
            if end_height > start_height + 1 {
                continue;
            }

            let did_climb = end_height > start_height;

            let mut moved = board.clone();
            moved.worker_xor(player, square_mask(start).or(square_mask(end)));

            // Only climbing onto level 3 wins - a worker already up there can walk across
            if end_height == 3 && did_climb {
                moved.set_winner(player);
                ordinary_climbing.insert(board_signature(&moved));
                continue;
            }

            let blocked = all_workers.minus(square_mask(start)).or(square_mask(end)).or(domes);
            let bucket = if did_climb {
                &mut ordinary_climbing
            } else {
                &mut ordinary_flat
            };
            add_builds(bucket, &moved, end, blocked);
        }
    }

    // Place the extra worker on the perimeter, then move + build with it
    if board.god_data[player.index()] == 0 {
        let placements = BitBoard(PERIMETER_MASK)
            .and(board.exactly_level_0())
            .minus(all_workers);

        for place in placements.squares() {
            for end in neighbor_mask(place).minus(all_workers.or(domes)).squares() {
                let end_height = board.get_height(end);
                if end_height > 1 {
                    continue;
                }

                let mut moved = board.clone();
                moved.set_god_data(player, 1);
                moved.worker_xor(player, square_mask(end));

                // The placement square is vacated by the move, so it stays buildable
                let blocked = all_workers.or(square_mask(end)).or(domes);
                let bucket = if end_height > 0 {
                    &mut power_climbing
                } else {
                    &mut power_flat
                };
                add_builds(bucket, &moved, end, blocked);
            }
        }
    }

    let mut legal: HashSet<BoardSignature> =
        ordinary_climbing.union(&power_climbing).copied().collect();

    // Persephone can't force Jason to spend his power just to find a climb
    if ordinary_climbing.is_empty() {
        legal.extend(&ordinary_flat);

        if power_climbing.is_empty() {
            legal.extend(&power_flat);
        }
    }

    legal
}

fn real_next_boards(state: &FullGameState, player: Player) -> HashSet<BoardSignature> {
    let (active_god, oppo_god) = state.get_active_non_active_gods();
    active_god
        .get_all_moves(state, player)
        .iter()
        .map(|m| board_signature(&state.next_state(active_god, oppo_god, m.action).board))
        .collect()
}

fn assert_moves_match_bruteforce(state: &FullGameState) {
    let player = state.board.current_player;
    let bruteforce = bruteforce_next_boards(state, player);
    let real = real_next_boards(state, player);

    let missing: Vec<_> = bruteforce.difference(&real).collect();
    let extra: Vec<_> = real.difference(&bruteforce).collect();

    assert!(
        missing.is_empty() && extra.is_empty(),
        "Move mismatch on {:?}:\n  Missing ({}): {:?}\n  Extra ({}): {:?}",
        state,
        missing.len(),
        missing,
        extra.len(),
        extra,
    );
}

#[test]
fn test_jason_vs_persephone_power_only_climb_binds_the_power_turn() {
    // Neither worker can climb, but a placed worker could step up onto D4
    let state = GameStateBuilder::new(GodName::Jason, GodName::Persephone)
        .with_p1_worker(A1)
        .with_p1_worker(A2)
        .with_p2_worker(E1)
        .with_p2_worker(E2)
        .with_height(D4, 1)
        .build();

    consistency_check(&state).unwrap();
    assert_moves_match_bruteforce(&state);

    let next_states = state.get_next_states_interactive();

    // Declining the power entirely
    assert!(MoveVerifier::new()
        .with_p1_worker_at(B1)
        .without_p1_worker_at(A1)
        .any(&next_states));

    // Taking the climb the power makes available
    assert!(MoveVerifier::new().with_p1_worker_at(D4).any(&next_states));

    // Placing next to D4 but landing flat
    assert!(MoveVerifier::new()
        .with_p1_worker_at(A1)
        .with_p1_worker_at(A2)
        .with_p1_worker_at(D5)
        .none(&next_states));

    // Placing on the far side of the board, out of reach of any climb
    assert!(MoveVerifier::new()
        .with_p1_worker_at(A1)
        .with_p1_worker_at(A2)
        .with_p1_worker_at(C5)
        .none(&next_states));

    for next_state in state.get_next_states() {
        let workers = next_state.board.workers[0];
        let placed_a_worker = workers.count_ones() > 2;
        assert!(
            !placed_a_worker || workers.contains_square(D4),
            "Placed a worker without climbing: {:?}",
            next_state
        );
    }
}

#[test]
fn test_jason_vs_persephone_no_climb_anywhere_frees_the_power_turn() {
    // The same position with D4 flattened, so no climb exists anywhere
    let state = GameStateBuilder::new(GodName::Jason, GodName::Persephone)
        .with_p1_worker(A1)
        .with_p1_worker(A2)
        .with_p2_worker(E1)
        .with_p2_worker(E2)
        .build();

    consistency_check(&state).unwrap();
    assert_moves_match_bruteforce(&state);

    let next_states = state.get_next_states_interactive();

    assert!(MoveVerifier::new()
        .with_p1_worker_at(A1)
        .with_p1_worker_at(A2)
        .with_p1_worker_at(C5)
        .any(&next_states));
}

#[test]
fn test_jason_vs_persephone_ordinary_climb_binds_the_power() {
    // A1 can step up to A2 without the power, so every move has to climb
    let state = GameStateBuilder::new(GodName::Jason, GodName::Persephone)
        .with_p1_worker(A1)
        .with_p1_worker(C1)
        .with_p2_worker(E5)
        .with_p2_worker(D5)
        .with_height(A2, 1)
        .with_height(D3, 1)
        .build();

    consistency_check(&state).unwrap();
    assert_all_moves_climb(&state);
    assert_moves_match_bruteforce(&state);

    let next_states = state.get_next_states_interactive();

    assert!(MoveVerifier::new().with_p1_worker_at(A2).any(&next_states));
    assert!(MoveVerifier::new().with_p1_worker_at(D3).any(&next_states));

    // D1 is a flat step for C1, B5 a flat landing square for the power
    assert!(MoveVerifier::new().with_p1_worker_at(D1).none(&next_states));
    assert!(MoveVerifier::new().with_p1_worker_at(B5).none(&next_states));
}

#[test]
fn test_jason_vs_persephone_spent_power_plays_as_mortal() {
    // Once the power is gone Jason is a plain mortal, and A1 -> A2 is the only climb
    let state = parse_fen("0000000000000001000000000/1/jason[x]:A1,C1/persephone:E5,D5").unwrap();

    consistency_check(&state).unwrap();
    assert_all_moves_climb(&state);
    assert_moves_match_bruteforce(&state);

    let next_states = state.get_next_states_interactive();
    assert!(MoveVerifier::new().with_p1_worker_at(A2).all(&next_states));

    for next_state in state.get_next_states() {
        assert_eq!(next_state.board.workers[0].count_ones(), 2);
    }
}

#[test]
fn test_jason_vs_persephone_climb_is_also_a_win() {
    // The forced climb is a winning one, so it's the whole move list
    let state = GameStateBuilder::new(GodName::Jason, GodName::Persephone)
        .with_p1_worker(A1)
        .with_p1_worker(C1)
        .with_p2_worker(E5)
        .with_p2_worker(D5)
        .with_height(A1, 2)
        .with_height(A2, 3)
        .with_height(D3, 1)
        .build();

    consistency_check(&state).unwrap();
    assert_moves_match_bruteforce(&state);

    let next_states = state.get_next_states_interactive();
    assert!(MoveVerifier::new().is_winner(Player::One).any(&next_states));
}

#[test]
fn test_jason_vs_persephone_bruteforce_handcrafted_positions() {
    for fen in [
        // Flat board - nothing can climb, so nothing is restricted
        "0000000000000000000000000/1/jason:A1,C1/persephone:E5,D5",
        // Power spent, varied terrain
        "0102000210003021000102100/1/jason[x]:B2,D4/persephone:C3,A5",
        // Only the perimeter is raised, so the power has climbs everywhere
        "1111110000100001000011111/1/jason:B2,C3/persephone:D3,C2",
        // Crowded, high terrain with domes about
        "2413122132212314321213212/1/jason:A1,C3/persephone:A5,E1",
        // Jason walled in at height 2 while a ground-level climb waits for the power
        "0000000030300003330000010/1/jason:C3,B3/persephone:E5,E4",
        // A3 can walk across level 3 to B3, which neither wins nor counts as a climb
        "0000000000330000000000000/1/jason:A3,C1/persephone:E5,E4",
    ] {
        let state = parse_fen(fen).unwrap();
        consistency_check(&state).unwrap();
        assert_moves_match_bruteforce(&state);
    }
}

#[test]
fn jason_power_spends_god_data_against_a_mortal() {
    let state = GameStateBuilder::new(GodName::Jason, GodName::Mortal)
        .with_p1_worker(C3)
        .with_p1_worker(B2)
        .with_p2_worker(E5)
        .with_p2_worker(E1)
        .build();
    let next_states = state.get_next_states_interactive();
    let mut placed = 0;
    for choice in &next_states {
        let action = JasonMove(choice.action.0);
        if action.maybe_place_position().is_some() {
            placed += 1;
            assert_eq!(choice.state.board.god_data[0], 1);
            assert_eq!(choice.state.board.workers[0].count_ones(), 3);
        } else {
            assert_eq!(choice.state.board.god_data[0], 0);
        }
    }
    assert!(placed > 0);
    consistency_check(&state).unwrap();
}
