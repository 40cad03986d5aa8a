use santorini_core::board::Player;
use santorini_core::fen::parse_fen;
use santorini_core::gods::mortal::MortalMove;
use santorini_core::gods::GodName;
use santorini_core::square::{A1, B2};

#[test]
fn zeus_builds_under_itself() {
    let state = parse_fen("0000000000000000000000000/1/zeus:A1,E5/mortal:A5,E1").unwrap();
    let moves = GodName::Zeus.get_all_moves(&state, Player::One);
    let m = moves
        .iter()
        .find(|m| {
            let d = MortalMove(m.action.0);
            d.move_from_position() == A1 && d.move_to_position() == B2 && d.build_position() == B2
        })
        .unwrap();
    let next = state.next_state(GodName::Zeus, GodName::Mortal, m.action);
    assert!(next.board.workers[0].contains_square(B2));
    assert_eq!(next.board.get_height(B2), 1);
}

#[test]
fn zeus_does_not_build_under_itself_on_level_three() {
    // B2 is level 3; A1 stands on level 3 too so the step there does not win.
    let state = parse_fen("0000000000000000300030000/1/zeus:A1,E5/mortal:A5,E1").unwrap();
    let moves = GodName::Zeus.get_all_moves(&state, Player::One);
    assert!(moves.iter().any(|m| MortalMove(m.action.0).move_to_position() == B2));
    assert!(!moves.iter().any(|m| {
        let d = MortalMove(m.action.0);
        d.move_to_position() == B2 && d.build_position() == B2
    }));
}
