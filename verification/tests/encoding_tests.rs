use santorini_core::generic::MOVE_DATA_MAIN_SECTION;
use santorini_core::gods::hermes::HermesMove;
use santorini_core::gods::GodName;
use santorini_core::gods::medea::MedeaMove;
use santorini_core::gods::mortal::MortalMove;
use santorini_core::gods::prometheus::PrometheusMove;
use santorini_core::gods::siren::{SirenMove, FORCE_MASK_WIDTH};
use santorini_core::gods::terpsichore::TerpsichoreMove;
use santorini_core::gods::triton::TritonMove;
use santorini_core::square::{A1, A5, B2, C3, C4, D4, E1, E5};

#[test]
fn test_medea_move_fits_in_the_main_section() {
    let plain = MedeaMove::new_basic_move(A1, B2, C3);
    assert_eq!(plain.move_from_position(), A1);
    assert_eq!(plain.move_to_position(), B2);
    assert_eq!(plain.build_position(), C3);
    assert_eq!(plain.raze_position(), None);
    assert_eq!(plain.0 & MOVE_DATA_MAIN_SECTION, plain.0);

    // A5 is square 0, so it is the one that would be mistaken for "no raze" without the +1.
    for raze in [A5, A1, E5, E1, C3] {
        let action = MedeaMove::new_raze_move(A1, B2, C3, raze);
        assert_eq!(action.move_from_position(), A1);
        assert_eq!(action.move_to_position(), B2);
        assert_eq!(action.build_position(), C3);
        assert_eq!(action.raze_position(), Some(raze));
        assert_eq!(action.0 & MOVE_DATA_MAIN_SECTION, action.0);
    }
}

#[test]
fn test_siren_move_fits_in_the_main_section() {
    let plain = SirenMove::new_basic_move(A1, B2, C3);
    assert_eq!(plain.move_from_position(), A1);
    assert_eq!(plain.maybe_move_to_position(), Some(B2));
    assert_eq!(plain.build_position(), C3);
    assert_eq!(plain.force_mask(), 0);
    assert_eq!(plain.0 & MOVE_DATA_MAIN_SECTION, plain.0);

    // An ordinary turn is a mortal turn, and encodes to the same bits.
    let mortal = MortalMove::new_basic_move(A1, B2, C3);
    assert_eq!(plain.0, mortal.0);

    for force_mask in 1..(1 << FORCE_MASK_WIDTH) {
        let song = SirenMove::new_song_move(A1, C3, force_mask);
        assert_eq!(song.move_from_position(), A1);
        assert_eq!(song.maybe_move_to_position(), None);
        assert_eq!(song.build_position(), C3);
        assert_eq!(song.force_mask(), force_mask);
        assert_eq!(song.0 & MOVE_DATA_MAIN_SECTION, song.0);
    }
}

#[test]
fn test_triton_move_fits_in_the_main_section() {
    let action = TritonMove::new_basic_move(A1, B2, C3);
    assert_eq!(action.move_from_position(), A1);
    assert_eq!(action.move_to_position(), B2);
    assert_eq!(action.build_position(), C3);
    assert_eq!(action.0 & MOVE_DATA_MAIN_SECTION, action.0);
}

#[test]
fn hermes_moves_read_back() {
    let none = HermesMove::new_hermes_no_move(C3);
    assert_eq!(none.build_position(), C3);
    assert_eq!(none.move_from_position2(), None);

    let double = HermesMove::new_hermes_double_move(A1, B2, E5, D4, C3, true);
    assert_eq!(double.move_from_position(), A1);
    assert_eq!(double.move_to_position(), B2);
    assert_eq!(double.move_from_position2(), Some(E5));
    assert_eq!(double.move_to_position2(), D4);
    assert_eq!(double.build_position(), C3);
    assert!(double.are_double_moves_overlapping());
    assert_eq!(double.move_mask().0, (1 << A1) ^ (1 << B2) ^ (1 << E5) ^ (1 << D4));

    let win = HermesMove::new_winning_move(C3, C4);
    assert!(win.get_is_winning());
    assert_eq!(win.move_to_position(), C4);
    assert_eq!(win.move_from_position2(), None);
}

#[test]
fn prometheus_pre_build_reads_back() {
    let plain = PrometheusMove::new_basic_move(A1, B2, C3);
    assert_eq!(plain.pre_build_position(), None);
    let pre = PrometheusMove::new_pre_build_move(A1, B2, C3, A5);
    assert_eq!(pre.pre_build_position(), Some(A5));
    assert_eq!(pre.build_position(), C3);
    assert_eq!(pre.move_mask().0, (1 << A1) | (1 << B2));
}

#[test]
fn terpsichore_moves_read_back() {
    let single = TerpsichoreMove::new_basic_move(A1, B2, C3);
    assert_eq!(single.maybe_move_from_position_2(), None);
    let double = TerpsichoreMove::new_double_move(A1, B2, C3, E5, D4, E1);
    assert_eq!(double.move_from_position_1(), A1);
    assert_eq!(double.move_to_position_1(), B2);
    assert_eq!(double.build_position_1(), C3);
    assert_eq!(double.maybe_move_from_position_2(), Some(E5));
    assert_eq!(double.move_to_position_2(), D4);
    assert_eq!(double.build_position_2(), E1);
    assert!(!double.get_is_winning());
}

#[test]
fn each_god_reads_its_own_god_data() {
    assert_eq!(GodName::Hippolyta.parse_god_data(b"C3"), Some(1u32 << 12));
    assert_eq!(GodName::Selene.parse_god_data(b"a5"), Some(1u32));
    assert_eq!(GodName::Hippolyta.parse_god_data(b"x"), None);
    assert_eq!(GodName::Nike.parse_god_data(b"^"), Some(1));
    assert_eq!(GodName::Nike.parse_god_data(b"x"), None);
    assert_eq!(GodName::Morpheus.parse_god_data(b"12"), Some(12));
    assert_eq!(GodName::Morpheus.parse_god_data(b"+7"), Some(7));
    assert_eq!(GodName::Morpheus.parse_god_data(b"4294967296"), None);
    assert_eq!(GodName::Morpheus.parse_god_data(b"1a"), None);
    assert_eq!(GodName::Medea.parse_god_data(b"X"), Some(1));
    assert_eq!(GodName::Medea.parse_god_data(b""), Some(0));
}

#[test]
fn each_god_writes_its_own_god_data() {
    assert_eq!(GodName::Hippolyta.stringify_god_data(1u32 << 12), b"C3".to_vec());
    assert_eq!(GodName::Hippolyta.stringify_god_data(0), Vec::<u8>::new());
    assert_eq!(GodName::Nike.stringify_god_data(1), b"^".to_vec());
    assert_eq!(GodName::Morpheus.stringify_god_data(0), b"0".to_vec());
    assert_eq!(GodName::Morpheus.stringify_god_data(305), b"305".to_vec());
    assert_eq!(GodName::Jason.stringify_god_data(1), b"x".to_vec());
}
