use std::collections::HashSet;

use santorini_core::bitboard::{inclusive_neighbor_mask, neighbor_mask, BitBoard};
use santorini_core::board::{FullGameState, Player};
use santorini_core::consistency_checker::ConsistencyChecker;
use santorini_core::fen::parse_fen;
use santorini_core::game::GameStateBuilder;
use santorini_core::gods::stymphalians::StymphaliansMove;
use santorini_core::gods::GodName;
use santorini_core::move_verifier::MoveVerifier;
use santorini_core::square::{Square, A1, A5, B2, B3, C1, C3, D2, D4, E1};
use santorini_core::square::{B1, D1, E5};

/// (start_square, end_square, is_winning)
type MoveEntry = (Square, Square, bool);

/// Brute-force reference: enumerate all reachable (start, end, is_win) triples
/// for Stymphalians via 1-3 steps, with a given climb requirement.
/// A move is winning if the worker lands on exactly level 3.
fn bruteforce_destinations_inner(
    state: &FullGameState,
    player: Player,
    require_climb: bool,
) -> HashSet<MoveEntry> {
    let board = &state.board;
    let main = BitBoard::main_section();
    let own_workers = board.workers[player.index()].and(main);
    let oppo_workers = board.workers[player.other().index()].and(main);
    let all_workers = own_workers.or(oppo_workers);
    let domes = board.at_least_level_4();
    let blocked = all_workers.or(domes);
    let exactly_level_3 = board.exactly_level_3();

    let mut result = HashSet::new();

    for start_pos in own_workers.squares() {
        let start_height = board.get_height(start_pos);

        for step1 in neighbor_mask(start_pos).squares() {
            if blocked.contains_square(step1) {
                continue;
            }
            let step1_height = board.get_height(step1);
            // can_climb is always true vs Persephone, so max +1 height per step
            if step1_height > start_height + 1 {
                continue;
            }
            let did_climb_1 = step1_height > start_height;

            // 1-step moves are always adjacent to start — never a valid final position.
            for step2 in neighbor_mask(step1).squares() {
                if blocked.contains_square(step2) || step2 == start_pos {
                    continue;
                }
                let step2_height = board.get_height(step2);
                if step2_height > step1_height + 1 {
                    continue;
                }
                let did_climb_2 = did_climb_1 || step2_height > step1_height;

                let is_non_adjacent = !inclusive_neighbor_mask(start_pos).contains_square(step2);
                let is_win_2 = exactly_level_3.contains_square(step2) && step2_height > step1_height;
                if is_non_adjacent && (!require_climb || did_climb_2) {
                    result.insert((start_pos, step2, is_win_2));
                }

                // Winning by moving up to level 3 ends the move — no further steps.
                if is_win_2 && is_non_adjacent && (!require_climb || did_climb_2) {
                    continue;
                }

                for step3 in neighbor_mask(step2).squares() {
                    if blocked.contains_square(step3) || step3 == start_pos {
                        continue;
                    }
                    let step3_height = board.get_height(step3);
                    if step3_height > step2_height + 1 {
                        continue;
                    }
                    let did_climb_3 = did_climb_2 || step3_height > step2_height;

                    let is_non_adjacent = !inclusive_neighbor_mask(start_pos).contains_square(step3);
                    if is_non_adjacent && (!require_climb || did_climb_3) {
                        let is_win =
                            exactly_level_3.contains_square(step3) && step3_height > step2_height;
                        result.insert((start_pos, step3, is_win));
                    }
                }
            }
        }
    }

    result
}

/// Brute-force reference move generator for Stymphalians vs Persephone.
/// Implements Persephone's rule: if any climbing move exists, only climbing
/// moves are legal. Otherwise, all moves are legal (fallback).
fn bruteforce_stymphalians_vs_persephone_destinations(
    state: &FullGameState,
    player: Player,
) -> HashSet<MoveEntry> {
    let climbing = bruteforce_destinations_inner(state, player, true);
    if !climbing.is_empty() {
        climbing
    } else {
        bruteforce_destinations_inner(state, player, false)
    }
}

/// Collect the set of (start, end, is_win) from the real move generator.
fn real_stymphalians_vs_persephone_destinations(
    state: &FullGameState,
    player: Player,
) -> HashSet<MoveEntry> {
    let god = GodName::Stymphalians.to_power();
    let moves = god.get_all_moves(state, player);

    let mut result = HashSet::new();
    for m in moves {
        let sm = StymphaliansMove(m.action.0);
        result.insert((
            sm.move_from_position(),
            sm.move_to_position(),
            m.get_is_winning(),
        ));
    }
    result
}

/// Compare the brute-force and optimized move generators on a given state.
/// If any winning moves exist, asserts both agree on all wins.
/// Otherwise, asserts both agree on all (non-winning) moves.
fn assert_destinations_match(state: &FullGameState, player: Player) {
    let bruteforce = bruteforce_stymphalians_vs_persephone_destinations(state, player);
    let real = real_stymphalians_vs_persephone_destinations(state, player);

    let bf_wins: HashSet<_> = bruteforce.iter().filter(|(_, _, w)| *w).copied().collect();
    let real_wins: HashSet<_> = real.iter().filter(|(_, _, w)| *w).copied().collect();

    if !bf_wins.is_empty() || !real_wins.is_empty() {
        // Winning moves exist — only compare wins
        let missing: Vec<_> = bf_wins.difference(&real_wins).collect();
        let extra: Vec<_> = real_wins.difference(&bf_wins).collect();
        if !missing.is_empty() || !extra.is_empty() {
            panic!(
                "Win mismatch on state {:?} (player {:?}):\n  \
                 Missing wins (brute-force only): {:?}\n  \
                 Extra wins (real only): {:?}",
                state, player, missing, extra,
            );
        }
        return;
    }

    let only_in_real: Vec<_> = real.difference(&bruteforce).collect();

    if !only_in_real.is_empty() {
        panic!(
            "Move mismatch on state {:?} (player {:?}):\n  \
             Extra (real only): {:?}",
            state, player, only_in_real,
        );
    }
}

#[test]
fn test_stymphalians_vs_persephone_must_climb() {
    // Worker on level 0 with level 1 square nearby — must climb during moves.
    let state = GameStateBuilder::new(GodName::Stymphalians, GodName::Persephone)
        .with_p1_worker(C3)
        .with_height(B2, 1)
        .build();

    let next_states = state.get_next_states_interactive();
    assert!(!next_states.is_empty(), "Should have at least one move");
    assert!(MoveVerifier::new()
        .is_winner(Player::Two)
        .none(&next_states));
}

#[test]
fn test_stymphalians_vs_persephone_no_climb_possible() {
    let state = GameStateBuilder::new(GodName::Stymphalians, GodName::Persephone)
        .with_p1_worker(C3)
        .build();

    let next_states = state.get_next_states_interactive();
    assert!(
        !next_states.is_empty(),
        "Should have moves when no climbing is possible"
    );
}

#[test]
fn test_stymphalians_vs_persephone_win() {
    let state = GameStateBuilder::new(GodName::Stymphalians, GodName::Persephone)
        .with_p1_worker(A1)
        .with_height(A1, 2)
        .with_height(B2, 2)
        .with_height(C3, 3)
        .build();

    let next_states = state.get_next_states_interactive();
    assert!(MoveVerifier::new().is_winner(Player::One).any(&next_states));
}

#[test]
fn test_bruteforce_vs_real_basic_climb() {
    let state = GameStateBuilder::new(GodName::Stymphalians, GodName::Persephone)
        .with_p1_worker(C3)
        .with_height(B2, 1)
        .build();
    assert_destinations_match(&state, Player::One);
}

#[test]
fn test_bruteforce_vs_real_no_climb_possible() {
    // All flat — no climbs possible, so Persephone allows non-climbing moves
    let state = GameStateBuilder::new(GodName::Stymphalians, GodName::Persephone)
        .with_p1_worker(C3)
        .build();
    assert_destinations_match(&state, Player::One);
}

#[test]
fn test_bruteforce_vs_real_climb_through_visited() {
    let state =
        parse_fen("0000000000002224442400330/1/stymphalians:A1,B1,C1/persephone:D5,E5").unwrap();
    assert_destinations_match(&state, Player::One);
}

#[test]
fn test_bruteforce_vs_real_winning_position() {
    let state = GameStateBuilder::new(GodName::Stymphalians, GodName::Persephone)
        .with_p1_worker(A1)
        .with_height(A1, 2)
        .with_height(B2, 2)
        .with_height(C3, 3)
        .build();
    assert_destinations_match(&state, Player::One);
}

#[test]
fn test_bruteforce_vs_real_varied_heights() {
    // Stymphalians worker in the middle with varied terrain
    let state = GameStateBuilder::new(GodName::Stymphalians, GodName::Persephone)
        .with_p1_worker(C3)
        .with_height(B2, 1)
        .with_height(B3, 2)
        .with_height(D4, 1)
        .with_height(D2, 3)
        .with_height(A5, 2)
        .build();
    assert_destinations_match(&state, Player::One);
}

#[test]
fn test_bruteforce_vs_real_crowded_board() {
    // All workers placed, with some height variety
    let state =
        parse_fen("1002010020001001002010200/1/stymphalians:A1,C3,E5/persephone:B2,D4").unwrap();
    assert_destinations_match(&state, Player::One);
}

#[test]
fn test_bruteforce_vs_real_high_terrain() {
    let state =
        parse_fen("2213121132212311321213212/1/stymphalians:A1,C3,E5/persephone:A5,E1").unwrap();
    assert_destinations_match(&state, Player::One);
}

#[test]
fn stymphalians_never_end_next_to_the_start() {
    let state = GameStateBuilder::new(GodName::Stymphalians, GodName::Mortal)
        .with_p1_worker(C3)
        .with_p2_worker(A5)
        .build();
    let moves = GodName::Stymphalians.get_all_moves(&state, Player::One);
    assert!(!moves.is_empty());
    for m in &moves {
        let sm = StymphaliansMove(m.action.0);
        assert_eq!(sm.move_from_position(), C3);
        assert!(!inclusive_neighbor_mask(C3).contains_square(sm.move_to_position()));
    }
}

#[test]
fn test_stymphalians_vs_persephone_cant_end_near_start() {
    let state = GameStateBuilder::new(GodName::Stymphalians, GodName::Persephone)
        .with_p1_worker(C3)
        .with_height(B2, 1)
        .build();

    let mut checker = ConsistencyChecker::new(&state);
    checker.perform_all_validations().expect("Failed check");
}

#[test]
fn test_stymphalians_vs_persephone_climb_through_visited_square() {
    // C1(h=3) can reach E1 via C1->D2(h=2)->D1(h=3)->E1(h=0).
    // The D2->D1 step is a climb, satisfying Persephone's must-climb requirement.
    // D1 is also a 1d neighbor of C1, so it appears in both 1d and 2d move sets.
    // The climb through D1 must still propagate even though D1 was visited as a 1d move.
    // C1's only legal moves should be C1->E1 (build D1) and C1->E1 (build D2).
    let state =
        parse_fen("0000000000002224442400330/1/stymphalians:A1,B1,C1/persephone:D5,E5").unwrap();

    let stymphalians = GodName::Stymphalians.to_power();
    let moves = stymphalians.get_moves_for_search(&state, Player::One);

    let c1_moves: Vec<_> = moves
        .iter()
        .filter(|m| {
            let sm = StymphaliansMove(m.action.0);
            sm.move_from_position() == C1
        })
        .collect();

    assert_eq!(
        c1_moves.len(),
        2,
        "C1 should only have 2 moves (C1->E1 build D1, C1->E1 build D2), got: {:?}",
        c1_moves
            .iter()
            .map(|m| format!("{:?}", StymphaliansMove(m.action.0)))
            .collect::<Vec<_>>()
    );

    for m in &c1_moves {
        let sm = StymphaliansMove(m.action.0);
        assert_eq!(
            sm.move_to_position(),
            E1,
            "C1 should only move to E1, got {:?}",
            sm
        );
    }
}

#[test]
fn stymphalians_three_step_win_is_listed() {
    // Only a three-step walk reaches the level 3 square D1: A1 -> B1 -> C1 (level 2) -> D1.
    let state = GameStateBuilder::new(GodName::Stymphalians, GodName::Mortal)
        .with_p1_worker(A1)
        .with_p2_worker(E5)
        .with_height(A1, 1)
        .with_height(B1, 1)
        .with_height(C1, 2)
        .with_height(D1, 3)
        .build();
    let moves = GodName::Stymphalians.get_all_moves(&state, Player::One);
    assert!(moves.iter().any(|m| {
        let action = StymphaliansMove(m.action.0);
        m.get_is_winning() && action.move_from_position() == A1 && action.move_to_position() == D1
    }));
}
