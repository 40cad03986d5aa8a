pub mod hermes;
pub mod hippolyta;
pub mod hydra;
pub mod hypnus;
pub mod iris;
pub mod jason;
pub mod limus;
pub mod maenads;
pub mod medea;
pub mod medusa;
pub mod minotaur;
pub mod morpheus;
pub mod mortal;
pub mod move_helpers;
pub mod nemesis;
pub mod nike;
pub mod odysseus;
pub mod pan;
pub mod pegasus;
pub mod persephone;
pub mod polyphemus;
pub mod poseidon;
pub mod prometheus;
pub mod proteus;
pub mod scylla;
pub mod selene;
pub mod siren;
pub mod stymphalians;
pub mod terpsichore;
pub mod theseus;
pub mod triton;
pub mod urania;
pub mod zeus;

use vstd::prelude::*;

use crate::bitboard::{BitBoard, MAIN_SECTION};
use crate::board::{BoardState, FullGameState, GodData, Player};
use crate::generic::{field_at, is_winning_data, GenericMove, MoveGenFlags, ScoredMove, INCLUDE_SCORE, NARROWING_FLAGS};
use crate::gods::mortal::{is_mate_only_listing, lists_word, standard_turn_owed, is_mortal_turn, is_standard_turn, mortal_move_gen, MortalMove};

verus! {

/// The gods this library plays.
#[derive(Clone, Copy, PartialEq, Eq, Structural, Debug, Hash)]
pub enum GodName {
    Mortal,
    Pan,
    Persephone,
    Hypnus,
    Limus,
    Hermes,
    Hippolyta,
    Hydra,
    Iris,
    Jason,
    Maenads,
    Medea,
    Medusa,
    Minotaur,
    Morpheus,
    Nemesis,
    Nike,
    Odysseus,
    Pegasus,
    Polyphemus,
    Poseidon,
    Prometheus,
    Proteus,
    Scylla,
    Selene,
    Siren,
    Stymphalians,
    Terpsichore,
    Theseus,
    Triton,
    Urania,
    Zeus,
}

/// Where a god's workers go at the start of the game.
#[derive(Clone, Copy, PartialEq, Eq, Structural, Debug)]
pub enum PlacementType {
    Normal,
    ThreeWorkers,
    FemaleWorker,
}

/// Which mirror images of a position a god's game is symmetric under.
#[derive(Clone, Copy, PartialEq, Eq, Structural, Debug)]
pub enum BoardSymmetry {
    Full,
    HorizontalOnly,
}

/// A god's fixed data: its name, the two hash keys of its side, how it places its workers, the
/// symmetries of its games, and whether it forces the opponent to climb.
#[derive(Clone, Copy, PartialEq, Eq, Debug)]
pub struct GodPower {
    pub god_name: GodName,
    pub hash1: u64,
    pub hash2: u64,
    pub placement_type: PlacementType,
    pub symmetry: BoardSymmetry,
    pub is_persephone: bool,
}

/// A god with the default options.
pub fn god_power(god_name: GodName, hash1: u64, hash2: u64) -> (r: GodPower)
    ensures
        r.god_name == god_name,
        r.hash1 == hash1,
        r.hash2 == hash2,
        r.placement_type == PlacementType::Normal,
        r.symmetry == BoardSymmetry::Full,
        !r.is_persephone,
{
    GodPower {
        god_name,
        hash1,
        hash2,
        placement_type: PlacementType::Normal,
        symmetry: BoardSymmetry::Full,
        is_persephone: false,
    }
}

impl GodPower {
    pub fn with_placement_type(self, placement_type: PlacementType) -> (r: GodPower)
        ensures
            r == (GodPower { placement_type, ..self }),
    {
        GodPower { placement_type, ..self }
    }

    pub fn with_symmetry(self, symmetry: BoardSymmetry) -> (r: GodPower)
        ensures
            r == (GodPower { symmetry, ..self }),
    {
        GodPower { symmetry, ..self }
    }

    pub fn with_is_persephone(self) -> (r: GodPower)
        ensures
            r == (GodPower { is_persephone: true, ..self }),
    {
        GodPower { is_persephone: true, ..self }
    }

    /// Every move of the god for `player`.
    pub fn get_all_moves(&self, state: &FullGameState, player: Player) -> (r: Vec<ScoredMove>)
        requires
            state.board.wf(),
            self.god_name.is_playable_spec(),
            state.gods[1 - player.idx()].is_playable_spec(),
            self.god_name.moves_defined(*state, player),
        ensures
            forall|k: int| 0 <= k < r@.len() ==> #[trigger] self.god_name.is_legal_turn(*state, player, r@[k].action.0),
            self.god_name.lists_every_turn() ==> forall|data: u32| #[trigger] self.god_name.turn_owed(*state, player, data)
                ==> lists_word(r@, data),
    {
        self.god_name.get_all_moves(state, player)
    }

    /// Every move of the god for `player`, with ordering scores.
    pub fn get_moves_for_search(&self, state: &FullGameState, player: Player) -> (r: Vec<ScoredMove>)
        requires
            state.board.wf(),
            self.god_name.is_playable_spec(),
            state.gods[1 - player.idx()].is_playable_spec(),
            self.god_name.moves_defined(*state, player),
        ensures
            forall|k: int| 0 <= k < r@.len() ==> #[trigger] self.god_name.is_legal_turn(*state, player, r@[k].action.0),
            self.god_name.lists_every_turn() ==> forall|data: u32| #[trigger] self.god_name.turn_owed(*state, player, data)
                ==> lists_word(r@, data),
    {
        self.god_name.get_moves_for_search(state, player)
    }
}

/// Every god, in a fixed order.
pub fn all_gods() -> (r: Vec<GodName>)
    ensures
        r@.len() == 32,
        forall|g: GodName| #[trigger] r@.contains(g),
{
    let r = vec![GodName::Mortal, GodName::Pan, GodName::Persephone, GodName::Hypnus, GodName::Limus, GodName::Hermes, GodName::Hippolyta, GodName::Hydra, GodName::Iris, GodName::Jason, GodName::Maenads, GodName::Medea, GodName::Medusa, GodName::Minotaur, GodName::Morpheus, GodName::Nemesis, GodName::Nike, GodName::Odysseus, GodName::Pegasus, GodName::Polyphemus, GodName::Poseidon, GodName::Prometheus, GodName::Proteus, GodName::Scylla, GodName::Selene, GodName::Siren, GodName::Stymphalians, GodName::Terpsichore, GodName::Theseus, GodName::Triton, GodName::Urania, GodName::Zeus];
    proof {
        assert forall|g: GodName| #[trigger] r@.contains(g) by {
            match g {
                GodName::Mortal => assert(r@[0] == g),
                GodName::Pan => assert(r@[1] == g),
                GodName::Persephone => assert(r@[2] == g),
                GodName::Hypnus => assert(r@[3] == g),
                GodName::Limus => assert(r@[4] == g),
                GodName::Hermes => assert(r@[5] == g),
                GodName::Hippolyta => assert(r@[6] == g),
                GodName::Hydra => assert(r@[7] == g),
                GodName::Iris => assert(r@[8] == g),
                GodName::Jason => assert(r@[9] == g),
                GodName::Maenads => assert(r@[10] == g),
                GodName::Medea => assert(r@[11] == g),
                GodName::Medusa => assert(r@[12] == g),
                GodName::Minotaur => assert(r@[13] == g),
                GodName::Morpheus => assert(r@[14] == g),
                GodName::Nemesis => assert(r@[15] == g),
                GodName::Nike => assert(r@[16] == g),
                GodName::Odysseus => assert(r@[17] == g),
                GodName::Pegasus => assert(r@[18] == g),
                GodName::Polyphemus => assert(r@[19] == g),
                GodName::Poseidon => assert(r@[20] == g),
                GodName::Prometheus => assert(r@[21] == g),
                GodName::Proteus => assert(r@[22] == g),
                GodName::Scylla => assert(r@[23] == g),
                GodName::Selene => assert(r@[24] == g),
                GodName::Siren => assert(r@[25] == g),
                GodName::Stymphalians => assert(r@[26] == g),
                GodName::Terpsichore => assert(r@[27] == g),
                GodName::Theseus => assert(r@[28] == g),
                GodName::Triton => assert(r@[29] == g),
                GodName::Urania => assert(r@[30] == g),
                GodName::Zeus => assert(r@[31] == g),
            }
        }
    }
    r
}

impl GodName {
    /// The god's fixed data.
    pub fn to_power(self) -> (r: GodPower)
        ensures
            r.god_name == self,
    {
        match self {
            GodName::Mortal => mortal::build_mortal(),
            GodName::Pan => pan::build_pan(),
            GodName::Persephone => persephone::build_persephone(),
            GodName::Hypnus => hypnus::build_hypnus(),
            GodName::Limus => limus::build_limus(),
            GodName::Hermes => hermes::build_hermes(),
            GodName::Hippolyta => hippolyta::build_hippolyta(),
            GodName::Hydra => hydra::build_hydra(),
            GodName::Iris => iris::build_iris(),
            GodName::Jason => jason::build_jason(),
            GodName::Maenads => maenads::build_maenads(),
            GodName::Medea => medea::build_medea(),
            GodName::Medusa => medusa::build_medusa(),
            GodName::Minotaur => minotaur::build_minotaur(),
            GodName::Morpheus => morpheus::build_morpheus(),
            GodName::Nemesis => nemesis::build_nemesis(),
            GodName::Nike => nike::build_nike(),
            GodName::Odysseus => odysseus::build_odysseus(),
            GodName::Pegasus => pegasus::build_pegasus(),
            GodName::Polyphemus => polyphemus::build_polyphemus(),
            GodName::Poseidon => poseidon::build_poseidon(),
            GodName::Prometheus => prometheus::build_prometheus(),
            GodName::Proteus => proteus::build_proteus(),
            GodName::Scylla => scylla::build_scylla(),
            GodName::Selene => selene::build_selene(),
            GodName::Siren => siren::build_siren(),
            GodName::Stymphalians => stymphalians::build_stymphalians(),
            GodName::Terpsichore => terpsichore::build_terpsichore(),
            GodName::Theseus => theseus::build_theseus(),
            GodName::Triton => triton::build_triton(),
            GodName::Urania => urania::build_urania(),
            GodName::Zeus => zeus::build_zeus(),
        }
    }

    /// The god's name, lower case, as ASCII bytes.
    pub open spec fn name_spec(self) -> Seq<u8> {
        match self {
            GodName::Mortal => seq![109u8, 111u8, 114u8, 116u8, 97u8, 108u8],
            GodName::Pan => seq![112u8, 97u8, 110u8],
            GodName::Persephone => seq![112u8, 101u8, 114u8, 115u8, 101u8, 112u8, 104u8, 111u8, 110u8, 101u8],
            GodName::Hypnus => seq![104u8, 121u8, 112u8, 110u8, 117u8, 115u8],
            GodName::Limus => seq![108u8, 105u8, 109u8, 117u8, 115u8],
            GodName::Hermes => seq![104u8, 101u8, 114u8, 109u8, 101u8, 115u8],
            GodName::Hippolyta => seq![104u8, 105u8, 112u8, 112u8, 111u8, 108u8, 121u8, 116u8, 97u8],
            GodName::Hydra => seq![104u8, 121u8, 100u8, 114u8, 97u8],
            GodName::Iris => seq![105u8, 114u8, 105u8, 115u8],
            GodName::Jason => seq![106u8, 97u8, 115u8, 111u8, 110u8],
            GodName::Maenads => seq![109u8, 97u8, 101u8, 110u8, 97u8, 100u8, 115u8],
            GodName::Medea => seq![109u8, 101u8, 100u8, 101u8, 97u8],
            GodName::Medusa => seq![109u8, 101u8, 100u8, 117u8, 115u8, 97u8],
            GodName::Minotaur => seq![109u8, 105u8, 110u8, 111u8, 116u8, 97u8, 117u8, 114u8],
            GodName::Morpheus => seq![109u8, 111u8, 114u8, 112u8, 104u8, 101u8, 117u8, 115u8],
            GodName::Nemesis => seq![110u8, 101u8, 109u8, 101u8, 115u8, 105u8, 115u8],
            GodName::Nike => seq![110u8, 105u8, 107u8, 101u8],
            GodName::Odysseus => seq![111u8, 100u8, 121u8, 115u8, 115u8, 101u8, 117u8, 115u8],
            GodName::Pegasus => seq![112u8, 101u8, 103u8, 97u8, 115u8, 117u8, 115u8],
            GodName::Polyphemus => seq![112u8, 111u8, 108u8, 121u8, 112u8, 104u8, 101u8, 109u8, 117u8, 115u8],
            GodName::Poseidon => seq![112u8, 111u8, 115u8, 101u8, 105u8, 100u8, 111u8, 110u8],
            GodName::Prometheus => seq![112u8, 114u8, 111u8, 109u8, 101u8, 116u8, 104u8, 101u8, 117u8, 115u8],
            GodName::Proteus => seq![112u8, 114u8, 111u8, 116u8, 101u8, 117u8, 115u8],
            GodName::Scylla => seq![115u8, 99u8, 121u8, 108u8, 108u8, 97u8],
            GodName::Selene => seq![115u8, 101u8, 108u8, 101u8, 110u8, 101u8],
            GodName::Siren => seq![115u8, 105u8, 114u8, 101u8, 110u8],
            GodName::Stymphalians => seq![115u8, 116u8, 121u8, 109u8, 112u8, 104u8, 97u8, 108u8, 105u8, 97u8, 110u8, 115u8],
            GodName::Terpsichore => seq![116u8, 101u8, 114u8, 112u8, 115u8, 105u8, 99u8, 104u8, 111u8, 114u8, 101u8],
            GodName::Theseus => seq![116u8, 104u8, 101u8, 115u8, 101u8, 117u8, 115u8],
            GodName::Triton => seq![116u8, 114u8, 105u8, 116u8, 111u8, 110u8],
            GodName::Urania => seq![117u8, 114u8, 97u8, 110u8, 105u8, 97u8],
            GodName::Zeus => seq![122u8, 101u8, 117u8, 115u8],
        }
    }

    pub fn name_bytes(self) -> (r: Vec<u8>)
        ensures
            r@ == self.name_spec(),
            r@.len() > 0,
            forall|k: int| 0 <= k < r@.len() ==> 97 <= #[trigger] r@[k] <= 122,
    {
        match self {
            GodName::Mortal => vec![109, 111, 114, 116, 97, 108],
            GodName::Pan => vec![112, 97, 110],
            GodName::Persephone => vec![112, 101, 114, 115, 101, 112, 104, 111, 110, 101],
            GodName::Hypnus => vec![104, 121, 112, 110, 117, 115],
            GodName::Limus => vec![108, 105, 109, 117, 115],
            GodName::Hermes => vec![104, 101, 114, 109, 101, 115],
            GodName::Hippolyta => vec![104, 105, 112, 112, 111, 108, 121, 116, 97],
            GodName::Hydra => vec![104, 121, 100, 114, 97],
            GodName::Iris => vec![105, 114, 105, 115],
            GodName::Jason => vec![106, 97, 115, 111, 110],
            GodName::Maenads => vec![109, 97, 101, 110, 97, 100, 115],
            GodName::Medea => vec![109, 101, 100, 101, 97],
            GodName::Medusa => vec![109, 101, 100, 117, 115, 97],
            GodName::Minotaur => vec![109, 105, 110, 111, 116, 97, 117, 114],
            GodName::Morpheus => vec![109, 111, 114, 112, 104, 101, 117, 115],
            GodName::Nemesis => vec![110, 101, 109, 101, 115, 105, 115],
            GodName::Nike => vec![110, 105, 107, 101],
            GodName::Odysseus => vec![111, 100, 121, 115, 115, 101, 117, 115],
            GodName::Pegasus => vec![112, 101, 103, 97, 115, 117, 115],
            GodName::Polyphemus => vec![112, 111, 108, 121, 112, 104, 101, 109, 117, 115],
            GodName::Poseidon => vec![112, 111, 115, 101, 105, 100, 111, 110],
            GodName::Prometheus => vec![112, 114, 111, 109, 101, 116, 104, 101, 117, 115],
            GodName::Proteus => vec![112, 114, 111, 116, 101, 117, 115],
            GodName::Scylla => vec![115, 99, 121, 108, 108, 97],
            GodName::Selene => vec![115, 101, 108, 101, 110, 101],
            GodName::Siren => vec![115, 105, 114, 101, 110],
            GodName::Stymphalians => vec![115, 116, 121, 109, 112, 104, 97, 108, 105, 97, 110, 115],
            GodName::Terpsichore => vec![116, 101, 114, 112, 115, 105, 99, 104, 111, 114, 101],
            GodName::Theseus => vec![116, 104, 101, 115, 101, 117, 115],
            GodName::Triton => vec![116, 114, 105, 116, 111, 110],
            GodName::Urania => vec![117, 114, 97, 110, 105, 97],
            GodName::Zeus => vec![122, 101, 117, 115],
        }
    }

    /// Whether the god keeps a "power used" flag in its god data.
    pub open spec fn has_power_flag_spec(self) -> bool {
        self == GodName::Jason || self == GodName::Medea || self == GodName::Odysseus || self == GodName::Polyphemus
            || self == GodName::Theseus || self == GodName::Nike
    }

    pub fn has_power_flag(self) -> (r: bool)
        ensures
            r == self.has_power_flag_spec(),
    {
        match self {
            GodName::Jason | GodName::Medea | GodName::Odysseus | GodName::Polyphemus | GodName::Theseus
            | GodName::Nike => true,
            _ => false,
        }
    }

    /// The god data that the bytes between brackets stand for, in each god's own form: nothing is
    /// 0; for Nike `^` is her spent power; for Hippolyta and Selene a square names the female
    /// worker, kept as that square's bit; for Morpheus a decimal count of stored builds; for the
    /// other gods with a one-use power `x` (or `X`) is that power spent. Anything else is refused.
    pub open spec fn god_data_value(self, data: Seq<u8>) -> Option<GodData> {
        if data.len() == 0 {
            Some(0u32)
        } else if self == GodName::Nike {
            if data.len() == 1 && data[0] == 94 {
                Some(1u32)
            } else {
                None
            }
        } else if self == GodName::Hippolyta || self == GodName::Selene {
            if data.len() == 2 && crate::fen::square_bytes_ok(data[0], data[1]) {
                Some(1u32 << (crate::fen::square_of_bytes(data[0], data[1]) as u32))
            } else {
                None
            }
        } else if self == GodName::Morpheus {
            decimal_value(data)
        } else if self.has_power_flag_spec() && data.len() == 1 && (data[0] == 120 || data[0] == 88) {
            Some(1u32)
        } else {
            None
        }
    }

    /// Reads the god data written between brackets in a position string, in the god's own form.
    pub fn parse_god_data(self, data: &[u8]) -> (r: Option<GodData>)
        ensures
            r == self.god_data_value(data@),
    {
        if data.len() == 0 {
            Some(0)
        } else if self == GodName::Nike {
            if data.len() == 1 && data[0] == 94 {
                Some(1)
            } else {
                None
            }
        } else if self == GodName::Hippolyta || self == GodName::Selene {
            if data.len() == 2 {
                match crate::square::square_from_bytes(data[0], data[1]) {
                    Some(sq) => {
                        proof {
                            assert(sq as int == crate::fen::square_of_bytes(data@[0], data@[1]));
                        }
                        Some(1u32 << sq)
                    },
                    None => None,
                }
            } else {
                None
            }
        } else if self == GodName::Morpheus {
            parse_decimal(data)
        } else if self.has_power_flag() && data.len() == 1 && (data[0] == 120 || data[0] == 88) {
            Some(1)
        } else {
            None
        }
    }

    /// The god data as written between brackets in a position string, in the god's own form;
    /// empty when there is nothing to write.
    pub open spec fn god_data_text(self, data: GodData) -> Seq<u8> {
        if self == GodName::Nike {
            if data != 0 {
                seq![94u8]
            } else {
                seq![]
            }
        } else if self == GodName::Hippolyta || self == GodName::Selene {
            if exists|i: int| 0 <= i < 25 && #[trigger] BitBoard(data).has(i) {
                let i = choose|i: int| 0 <= i < 25 && BitBoard(data).has(i) && forall|j: int| 0 <= j < i ==> !#[trigger] BitBoard(data).has(j);
                seq![(65 + crate::square::col_of(i)) as u8, (53 - crate::square::row_of(i)) as u8]
            } else {
                seq![]
            }
        } else if self == GodName::Morpheus {
            decimal_text(data as nat)
        } else if self.has_power_flag_spec() && data != 0 {
            seq![120u8]
        } else {
            seq![]
        }
    }

    /// The god data as written in a position string, or nothing.
    pub fn stringify_god_data(self, data: GodData) -> (r: Vec<u8>)
        ensures
            r@ == self.god_data_text(data),
    {
        if self == GodName::Nike {
            if data != 0 {
                vec![94]
            } else {
                Vec::new()
            }
        } else if self == GodName::Hippolyta || self == GodName::Selene {
            let b = BitBoard(data);
            let on_board = b.and(BitBoard::main_section());
            if on_board.is_not_empty() {
                proof {
                    let k = choose|k: int| #[trigger] on_board.has(k);
                    assert(0 <= k < 25 && b.has(k));
                }
                let sq = b.lsb();
                proof {
                    let i = choose|i: int| 0 <= i < 25 && b.has(i) && forall|j: int| 0 <= j < i ==> !#[trigger] b.has(j);
                    assert(i == sq as int) by {
                        if i < sq as int {
                        } else if i > sq as int {
                        }
                    }
                }
                vec![crate::square::square_file_byte(sq), crate::square::square_rank_byte(sq)]
            } else {
                proof {
                    assert forall|i: int| 0 <= i < 25 implies !#[trigger] b.has(i) by {
                        if b.has(i) {
                            assert(on_board.has(i));
                        }
                    }
                }
                Vec::new()
            }
        } else if self == GodName::Morpheus {
            let mut out: Vec<u8> = Vec::new();
            push_decimal(data, &mut out);
            out
        } else if self.has_power_flag() && data != 0 {
            vec![120]
        } else {
            Vec::new()
        }
    }

    /// The gods whose move generation this library carries, and whose effect on the opponent's
    /// moves it models.
    pub open spec fn is_playable_spec(self) -> bool {
        match self {
            GodName::Mortal | GodName::Pan | GodName::Persephone | GodName::Hypnus | GodName::Limus
            | GodName::Odysseus | GodName::Stymphalians | GodName::Jason | GodName::Prometheus | GodName::Medea
            | GodName::Hermes | GodName::Polyphemus | GodName::Hydra | GodName::Terpsichore
            | GodName::Maenads | GodName::Minotaur | GodName::Triton | GodName::Proteus
            | GodName::Nemesis | GodName::Iris | GodName::Medusa | GodName::Pegasus | GodName::Zeus
            | GodName::Urania | GodName::Scylla | GodName::Theseus | GodName::Siren => true,
            _ => false,
        }
    }

    pub fn is_playable(self) -> (r: bool)
        ensures
            r == self.is_playable_spec(),
    {
        match self {
            GodName::Mortal | GodName::Pan | GodName::Persephone | GodName::Hypnus | GodName::Limus
            | GodName::Odysseus | GodName::Stymphalians | GodName::Jason | GodName::Prometheus | GodName::Medea
            | GodName::Hermes | GodName::Polyphemus | GodName::Hydra | GodName::Terpsichore
            | GodName::Maenads | GodName::Minotaur | GodName::Triton | GodName::Proteus
            | GodName::Nemesis | GodName::Iris | GodName::Medusa | GodName::Pegasus | GodName::Zeus
            | GodName::Urania | GodName::Scylla | GodName::Theseus | GodName::Siren => true,
            _ => false,
        }
    }

    /// Whether the god's move generation is defined on the position: Nemesis's needs her worker
    /// counts in range, and Iris's, Pegasus's and Urania's, when a climb may be owed, no worker on a
    /// dome.
    pub open spec fn moves_defined(self, state: FullGameState, player: Player) -> bool {
        &&& (self == GodName::Nemesis ==> nemesis::nemesis_counts_ok(state, player))
        &&& (self == GodName::Iris || self == GodName::Pegasus || self == GodName::Urania ==> crate::gods::move_helpers::no_worker_on_dome_when_climb_owed(
            state,
            player,
        ))
    }

    pub fn has_moves_defined(self, state: &FullGameState, player: Player) -> (r: bool)
        requires
            state.board.wf(),
        ensures
            r == self.moves_defined(*state, player),
    {
        match self {
            GodName::Nemesis => nemesis::has_supported_worker_counts(state, player),
            GodName::Iris | GodName::Pegasus | GodName::Urania => crate::gods::move_helpers::check_no_worker_on_dome_when_climb_owed(state, player),
            _ => true,
        }
    }

    /// A legal turn of this god for `player` in `state`, read off the move word.
    pub open spec fn is_legal_turn(self, state: FullGameState, player: Player, data: u32) -> bool {
        match self {
            GodName::Pan => is_standard_turn(state, player, false, true, data),
            GodName::Odysseus => odysseus::is_odysseus_turn(state, player, false, data),
            GodName::Stymphalians => stymphalians::is_stymphalians_turn(state, player, false, data),
            GodName::Jason => jason::is_jason_turn(state, player, false, data),
            GodName::Prometheus => prometheus::is_prometheus_turn(state, player, false, data),
            GodName::Medea => medea::is_medea_turn(state, player, false, data),
            GodName::Hermes => hermes::is_hermes_turn(state, player, false, data),
            GodName::Polyphemus => polyphemus::is_polyphemus_turn(state, player, false, data),
            GodName::Hydra => hydra::is_hydra_turn(state, player, false, data),
            GodName::Maenads => maenads::is_maenads_turn(state, player, false, data),
            GodName::Minotaur => minotaur::is_minotaur_turn(state, player, false, data),
            GodName::Triton => triton::is_triton_turn(state, player, false, data),
            GodName::Terpsichore => terpsichore::is_terpsichore_turn(state, player, false, data),
            GodName::Proteus => proteus::is_proteus_turn(state, player, false, data),
            GodName::Nemesis => nemesis::is_nemesis_turn(state, player, false, data),
            GodName::Iris => iris::is_iris_turn(state, player, false, data),
            GodName::Medusa => medusa::is_medusa_turn(state, player, false, data),
            GodName::Pegasus => pegasus::is_pegasus_turn(state, player, false, data),
            GodName::Zeus => zeus::is_zeus_turn(state, player, false, data),
            GodName::Urania => urania::is_urania_turn(state, player, false, data),
            GodName::Scylla => scylla::is_scylla_turn(state, player, false, data),
            GodName::Theseus => theseus::is_theseus_turn(state, player, false, data),
            GodName::Siren => siren::is_siren_turn(state, player, false, data),
            _ => is_mortal_turn(state, player, false, data),
        }
    }

    /// A legal turn of this god for `player` that climbs: the turns that Persephone's rule asks for
    /// when one exists.
    pub open spec fn is_climbing_turn(self, state: FullGameState, player: Player, data: u32) -> bool {
        match self {
            GodName::Pan => is_standard_turn(state, player, true, true, data),
            GodName::Odysseus => odysseus::is_odysseus_turn(state, player, true, data),
            GodName::Stymphalians => stymphalians::is_stymphalians_turn(state, player, true, data),
            GodName::Jason => jason::is_jason_turn(state, player, true, data),
            GodName::Prometheus => prometheus::is_prometheus_turn(state, player, true, data),
            GodName::Medea => medea::is_medea_turn(state, player, true, data),
            GodName::Hermes => hermes::is_hermes_turn(state, player, true, data),
            GodName::Polyphemus => polyphemus::is_polyphemus_turn(state, player, true, data),
            GodName::Hydra => hydra::is_hydra_turn(state, player, true, data),
            GodName::Maenads => maenads::is_maenads_turn(state, player, true, data),
            GodName::Minotaur => minotaur::is_minotaur_turn(state, player, true, data),
            GodName::Triton => triton::is_triton_turn(state, player, true, data),
            GodName::Terpsichore => terpsichore::is_terpsichore_turn(state, player, true, data),
            GodName::Proteus => proteus::is_proteus_turn(state, player, true, data),
            GodName::Nemesis => nemesis::is_nemesis_turn(state, player, true, data),
            GodName::Iris => iris::is_iris_turn(state, player, true, data),
            GodName::Medusa => medusa::is_medusa_turn(state, player, true, data),
            GodName::Pegasus => pegasus::is_pegasus_turn(state, player, true, data),
            GodName::Zeus => zeus::is_zeus_turn(state, player, true, data),
            GodName::Urania => urania::is_urania_turn(state, player, true, data),
            GodName::Scylla => scylla::is_scylla_turn(state, player, true, data),
            GodName::Theseus => theseus::is_theseus_turn(state, player, true, data),
            GodName::Siren => siren::is_siren_turn(state, player, true, data),
            _ => is_mortal_turn(state, player, true, data),
        }
    }

    /// The gods whose generator is shown to list only climbing turns against Persephone when a
    /// climbing turn exists.
    pub open spec fn climbs_when_persephone_asks(self) -> bool {
        match self {
            GodName::Mortal | GodName::Pan | GodName::Persephone | GodName::Hypnus | GodName::Limus | GodName::Zeus
            | GodName::Pegasus | GodName::Theseus | GodName::Urania | GodName::Medusa | GodName::Iris | GodName::Medea
            | GodName::Scylla | GodName::Polyphemus | GodName::Minotaur | GodName::Siren | GodName::Hydra | GodName::Proteus
            | GodName::Prometheus | GodName::Nemesis | GodName::Hermes | GodName::Stymphalians => true,
            _ => false,
        }
    }

    /// The gods whose generator is shown to list every turn it owes.
    pub open spec fn lists_every_turn(self) -> bool {
        match self {
            GodName::Mortal | GodName::Pan | GodName::Persephone | GodName::Hypnus | GodName::Limus | GodName::Zeus
            | GodName::Pegasus | GodName::Theseus | GodName::Urania
            | GodName::Medusa | GodName::Iris | GodName::Medea | GodName::Scylla | GodName::Polyphemus
            | GodName::Jason | GodName::Minotaur | GodName::Siren | GodName::Hydra | GodName::Maenads | GodName::Proteus
            | GodName::Prometheus | GodName::Nemesis | GodName::Odysseus | GodName::Terpsichore | GodName::Stymphalians
            | GodName::Hermes | GodName::Triton => true,
            _ => false,
        }
    }

    /// For the gods whose rule against Persephone is shown in another form than "only climbing
    /// turns when one exists": for Jason, a climbing plain move binds every turn to climb and a
    /// climbing use of the power binds every use of the power to climb; for Maenads and
    /// Terpsichore, every turn climbs when a climbing turn is owed; for Triton, every turn climbs
    /// when a climbing turn of a worker not on a dome is owed; for Odysseus, every turn climbs when
    /// a climbing turn without the power is owed.
    pub open spec fn follows_persephone_rule(self, state: FullGameState, player: Player, r: Seq<ScoredMove>) -> bool {
        match self {
            GodName::Jason => jason::keeps_persephone_rule(state, player, r),
            GodName::Maenads => maenads::keeps_persephone_rule(state, player, r),
            GodName::Terpsichore => terpsichore::keeps_persephone_rule(state, player, r),
            GodName::Triton => triton::keeps_persephone_rule(state, player, r),
            GodName::Odysseus => odysseus::keeps_persephone_rule(state, player, r),
            _ => true,
        }
    }

    /// For the gods whose winning turns are owed one per winning end rather than word for word:
    /// every such end is reached by some listed winning turn.
    pub open spec fn lists_every_win(self, state: FullGameState, player: Player, r: Seq<ScoredMove>) -> bool {
        match self {
            GodName::Stymphalians => stymphalians::lists_every_winning_walk(state, player, r),
            _ => true,
        }
    }

    /// The turns this god's generator owes with no narrowing filter on: every legal turn, except
    /// that against Persephone only those her rule leaves (for most gods, when a climb exists, the
    /// climbing ones), and except where a god's own owed set says otherwise: a turn that the
    /// generator lists only in another order giving the same position (for Odysseus, the power
    /// with the forced workers named in rising order), a win Odysseus has without the power, taken
    /// with it, a single move of Terpsichore when she has more than one worker, for Stymphalians
    /// the winning walks (owed one per end, by `lists_every_win`), the walks ending where a walk
    /// wins and those passing over a square a shorter walk wins on, for Hermes a walk of one worker
    /// when two may move (listed as a walk of both, the other staying put) and the walks of workers
    /// past the first two, and for Triton a walk ending where it could win instead, a null move
    /// whose build an earlier worker's null move offers, a worker on a dome, and, against
    /// Persephone when some turn climbs, every turn.
    pub open spec fn turn_owed(self, state: FullGameState, player: Player, data: u32) -> bool {
        match self {
            GodName::Pan => standard_turn_owed(state, player, false, true, data),
            GodName::Zeus => zeus::zeus_turn_owed(state, player, false, data),
            GodName::Pegasus => pegasus::pegasus_turn_owed(state, player, false, data),
            GodName::Theseus => theseus::theseus_turn_owed(state, player, false, data),
            GodName::Urania => urania::urania_turn_owed(state, player, false, data),
            GodName::Medusa => medusa::medusa_turn_owed(state, player, false, data),
            GodName::Iris => iris::iris_turn_owed(state, player, false, data),
            GodName::Medea => medea::medea_turn_owed(state, player, false, data),
            GodName::Scylla => scylla::scylla_turn_owed(state, player, false, data),
            GodName::Polyphemus => polyphemus::polyphemus_turn_owed(state, player, false, data),
            GodName::Jason => jason::jason_turn_owed(state, player, data),
            GodName::Minotaur => minotaur::minotaur_turn_owed(state, player, false, data),
            GodName::Siren => siren::siren_turn_owed(state, player, false, data),
            GodName::Hydra => hydra::hydra_turn_owed(state, player, false, data),
            GodName::Maenads => maenads::maenads_turn_owed(state, player, false, data),
            GodName::Proteus => proteus::proteus_turn_owed(state, player, false, data),
            GodName::Prometheus => prometheus::prometheus_turn_owed(state, player, false, data),
            GodName::Nemesis => nemesis::nemesis_turn_owed(state, player, false, data),
            GodName::Odysseus => odysseus::odysseus_plain_turn_owed(state, player, false, data)
                || odysseus::odysseus_power_turn_owed(state, player, false, data),
            GodName::Terpsichore => terpsichore::terpsichore_turn_owed(state, player, false, data),
            GodName::Stymphalians => stymphalians::stymphalians_turn_owed(state, player, data),
            GodName::Hermes => hermes::hermes_turn_owed(state, player, false, data),
            GodName::Triton => triton::triton_turn_owed(state, player, data),
            _ => standard_turn_owed(state, player, false, false, data),
        }
    }

    /// The gods whose turns are a plain move and build; their generator lists no turn twice.
    pub open spec fn is_plain_mover(self) -> bool {
        match self {
            GodName::Mortal | GodName::Pan | GodName::Persephone | GodName::Hypnus | GodName::Limus => true,
            _ => false,
        }
    }

    /// The gods whose generator, with a filter on but no stop at the first win, lists every owed
    /// turn the filter keeps (`is_kept_by_flags`).
    pub open spec fn filters_by_key_squares(self) -> bool {
        self.is_plain_mover() || self == GodName::Zeus || self == GodName::Pegasus || self == GodName::Urania
    }

    /// The gods whose generator, asked for the winning moves alone, lists every winning turn owed.
    pub open spec fn lists_every_mate(self) -> bool {
        self.filters_by_key_squares() || self == GodName::Minotaur
    }

    /// The god's moves for `player`, filtered by `flags`.
    pub fn get_moves(self, flags: MoveGenFlags, state: &FullGameState, player: Player, key_squares: BitBoard) -> (r: Vec<ScoredMove>)
        requires
            state.board.wf(),
            self.is_playable_spec(),
            state.gods[1 - player.idx()].is_playable_spec(),
            self.moves_defined(*state, player),
        ensures
            forall|k: int| 0 <= k < r@.len() ==> #[trigger] self.is_legal_turn(*state, player, r@[k].action.0),
            self.lists_every_turn() && flags & NARROWING_FLAGS == 0 ==> forall|data: u32| #[trigger] self.turn_owed(*state, player, data) ==> lists_word(
                r@,
                data,
            ),
            flags & NARROWING_FLAGS == 0 ==> self.lists_every_win(*state, player, r@),
            flags & NARROWING_FLAGS == 0 && state.gods[1 - player.idx()].is_persephone_spec() ==> self.follows_persephone_rule(*state, player, r@),
            self.climbs_when_persephone_asks() && flags & NARROWING_FLAGS == 0 && state.gods[1 - player.idx()].is_persephone_spec() && (exists|d: u32|
                #[trigger] self.is_climbing_turn(*state, player, d)) ==> forall|k: int| 0 <= k < r@.len()
                ==> #[trigger] self.is_climbing_turn(*state, player, r@[k].action.0),
            self.lists_every_mate() && is_mate_only_listing(flags) ==> forall|data: u32| #[trigger] self.turn_owed(*state, player, data)
                && is_winning_data(data) ==> lists_word(r@, data),
            self.filters_by_key_squares() && flags & crate::generic::STOP_ON_MATE == 0 ==> forall|data: u32| #[trigger] self.turn_owed(
                *state,
                player,
                data,
            ) && crate::gods::mortal::is_kept_by_flags(flags, key_squares, data) ==> lists_word(r@, data),
            self == GodName::Minotaur && flags & crate::generic::STOP_ON_MATE == 0 ==> forall|data: u32| #[trigger] self.turn_owed(
                *state,
                player,
                data,
            ) && minotaur::is_listed_by_flags(flags, key_squares, data) ==> lists_word(r@, data),
            self.is_plain_mover() ==> forall|k1: int, k2: int| 0 <= k1 < k2 < r@.len() ==> #[trigger] r@[k1].action.0 != #[trigger] r@[k2].action.0,
    {
        match self {
            GodName::Pan => pan::pan_move_gen(flags, state, player, key_squares, false),
            GodName::Persephone => persephone::persephone_move_gen(flags, state, player, key_squares, false),
            GodName::Odysseus => odysseus::odysseus_move_gen(flags, state, player, key_squares, false),
            GodName::Stymphalians => stymphalians::stymphalians_move_gen(flags, state, player, key_squares, false),
            GodName::Jason => jason::jason_move_gen(flags, state, player, key_squares),
            GodName::Prometheus => prometheus::prometheus_move_gen(flags, state, player, key_squares, false),
            GodName::Medea => medea::medea_move_gen(flags, state, player, key_squares, false),
            GodName::Hermes => hermes::hermes_move_gen(flags, state, player, key_squares, false),
            GodName::Polyphemus => polyphemus::polyphemus_move_gen(flags, state, player, key_squares, false),
            GodName::Hydra => hydra::hydra_move_gen(flags, state, player, key_squares, false),
            GodName::Maenads => maenads::maenads_move_gen(flags, state, player, key_squares, false),
            GodName::Minotaur => minotaur::minotaur_move_gen(flags, state, player, key_squares, false),
            GodName::Triton => triton::triton_move_gen(flags, state, player, key_squares, false),
            GodName::Terpsichore => terpsichore::terpsichore_move_gen(flags, state, player, key_squares, false),
            GodName::Proteus => proteus::proteus_move_gen(flags, state, player, key_squares, false),
            GodName::Nemesis => nemesis::nemesis_move_gen(flags, state, player, key_squares, false),
            GodName::Iris => iris::iris_move_gen(flags, state, player, key_squares, false),
            GodName::Medusa => medusa::medusa_move_gen(flags, state, player, key_squares, false),
            GodName::Pegasus => pegasus::pegasus_move_gen(flags, state, player, key_squares, false),
            GodName::Zeus => zeus::zeus_move_gen(flags, state, player, key_squares, false),
            GodName::Urania => urania::urania_move_gen(flags, state, player, key_squares, false),
            GodName::Scylla => scylla::scylla_move_gen(flags, state, player, key_squares, false),
            GodName::Theseus => theseus::theseus_move_gen(flags, state, player, key_squares, false),
            GodName::Siren => siren::siren_move_gen(flags, state, player, key_squares, false),
            _ => mortal_move_gen(flags, state, player, key_squares, false),
        }
    }

    /// Every move of the god for `player`.
    pub fn get_all_moves(self, state: &FullGameState, player: Player) -> (r: Vec<ScoredMove>)
        requires
            state.board.wf(),
            self.is_playable_spec(),
            state.gods[1 - player.idx()].is_playable_spec(),
            self.moves_defined(*state, player),
        ensures
            forall|k: int| 0 <= k < r@.len() ==> #[trigger] self.is_legal_turn(*state, player, r@[k].action.0),
            self.lists_every_turn() ==> forall|data: u32| #[trigger] self.turn_owed(*state, player, data) ==> lists_word(
                r@,
                data,
            ),
            self.lists_every_win(*state, player, r@),
            state.gods[1 - player.idx()].is_persephone_spec() ==> self.follows_persephone_rule(*state, player, r@),
            self.climbs_when_persephone_asks() && state.gods[1 - player.idx()].is_persephone_spec() && (exists|d: u32|
                #[trigger] self.is_climbing_turn(*state, player, d)) ==> forall|k: int| 0 <= k < r@.len()
                ==> #[trigger] self.is_climbing_turn(*state, player, r@[k].action.0),
            self.is_plain_mover() ==> forall|k1: int, k2: int| 0 <= k1 < k2 < r@.len() ==> #[trigger] r@[k1].action.0 != #[trigger] r@[k2].action.0,
    {
        proof {
            crate::generic::lemma_no_flags(0);
        }
        self.get_moves(0, state, player, BitBoard::main_section())
    }

    /// Every move of the god for `player`, with ordering scores.
    pub fn get_moves_for_search(self, state: &FullGameState, player: Player) -> (r: Vec<ScoredMove>)
        requires
            state.board.wf(),
            self.is_playable_spec(),
            state.gods[1 - player.idx()].is_playable_spec(),
            self.moves_defined(*state, player),
        ensures
            forall|k: int| 0 <= k < r@.len() ==> #[trigger] self.is_legal_turn(*state, player, r@[k].action.0),
            self.lists_every_turn() ==> forall|data: u32| #[trigger] self.turn_owed(*state, player, data) ==> lists_word(
                r@,
                data,
            ),
            self.lists_every_win(*state, player, r@),
            state.gods[1 - player.idx()].is_persephone_spec() ==> self.follows_persephone_rule(*state, player, r@),
            self.climbs_when_persephone_asks() && state.gods[1 - player.idx()].is_persephone_spec() && (exists|d: u32|
                #[trigger] self.is_climbing_turn(*state, player, d)) ==> forall|k: int| 0 <= k < r@.len()
                ==> #[trigger] self.is_climbing_turn(*state, player, r@[k].action.0),
            self.is_plain_mover() ==> forall|k1: int, k2: int| 0 <= k1 < k2 < r@.len() ==> #[trigger] r@[k1].action.0 != #[trigger] r@[k2].action.0,
    {
        proof {
            crate::generic::lemma_no_flags(0);
        }
        self.get_moves(INCLUDE_SCORE, state, player, BitBoard::main_section())
    }

    /// How a turn of this god, given by its move word, changes the board: `after` is the board
    /// that the turn leaves, before the turn passes to the other player. Only the gods whose moves
    /// this library generates have one.
    pub open spec fn move_effect(self, before: BoardState, after: BoardState, player: Player, data: u32) -> bool {
        match self {
            GodName::Mortal | GodName::Pan | GodName::Persephone | GodName::Hypnus | GodName::Limus
            | GodName::Stymphalians | GodName::Proteus | GodName::Pegasus | GodName::Zeus | GodName::Urania
                => crate::gods::mortal::mortal_move_effect(before, after, player, data),
            GodName::Hermes => hermes::hermes_move_effect(before, after, player, data),
            GodName::Hydra => hydra::hydra_move_effect(before, after, player, data),
            GodName::Iris => iris::iris_move_effect(before, after, player, data),
            GodName::Jason => jason::jason_move_effect(before, after, player, data),
            GodName::Maenads => maenads::maenads_move_effect(before, after, player, data),
            GodName::Medea => medea::medea_move_effect(before, after, player, data),
            GodName::Medusa => medusa::medusa_move_effect(before, after, player, data),
            GodName::Minotaur => minotaur::minotaur_move_effect(before, after, player, data),
            GodName::Nemesis => nemesis::nemesis_move_effect(before, after, player, data),
            GodName::Odysseus => odysseus::odysseus_move_effect(before, after, player, data),
            GodName::Polyphemus => polyphemus::polyphemus_move_effect(before, after, player, data),
            GodName::Prometheus => prometheus::prometheus_move_effect(before, after, player, data),
            GodName::Scylla => scylla::scylla_move_effect(before, after, player, data),
            GodName::Siren => siren::siren_move_effect(before, after, player, data),
            GodName::Terpsichore => terpsichore::terpsichore_move_effect(before, after, player, data),
            GodName::Theseus => theseus::theseus_move_effect(before, after, player, data),
            GodName::Triton => triton::triton_move_effect(before, after, player, data),
            _ => false,
        }
    }

    /// Plays a legal turn of this god on the board of `state`.
    pub fn make_move(self, state: &FullGameState, player: Player, action: GenericMove) -> (r: BoardState)
        requires
            state.board.wf(),
            self.is_playable_spec(),
            self.is_legal_turn(*state, player, action.0),
        ensures
            r.wf(),
            r.current_player == state.board.current_player,
            is_winning_data(action.0) ==> r.winner == Some(player),
            !is_winning_data(action.0) ==> r.winner == state.board.winner,
            self.move_effect(state.board, r, player, action.0),
    {
        let mut board = state.board;
        match self {
            GodName::Hydra | GodName::Iris | GodName::Maenads | GodName::Medea | GodName::Medusa | GodName::Minotaur | GodName::Nemesis | GodName::Pegasus | GodName::Polyphemus | GodName::Proteus | GodName::Scylla | GodName::Siren | GodName::Theseus | GodName::Triton | GodName::Urania | GodName::Zeus => {
                return self.make_own_word_move(state, player, action);
            },
            GodName::Odysseus => {
                let m = odysseus::OdysseusMove::from_generic(action);
                proof {
                    odysseus::lemma_strip_keeps_fields(action.0);
                    crate::gods::mortal::lemma_mortal_move_round_trip(field_at(action.0, 0), field_at(action.0, 5), 0);
                    if action.0 & odysseus::DISPLACEMENT_MASK != 0 {
                        odysseus::lemma_displacement_keeps_wf(state.board, player, action.0);
                    }
                }
                m.make_move(&mut board, player);
            },
            GodName::Jason => {
                let m = jason::JasonMove(action.0);
                proof {
                    jason::lemma_jason_turn_playable(*state, player, action.0);
                }
                m.make_move(&mut board, player);
            },
            GodName::Prometheus => {
                let m = prometheus::PrometheusMove(action.0);
                proof {
                    prometheus::lemma_prometheus_turn_playable(*state, player, action.0);
                }
                m.make_move(&mut board, player);
            },
            GodName::Hermes => {
                let m = hermes::HermesMove(action.0);
                proof {
                    hermes::lemma_hermes_turn_playable(*state, player, action.0);
                }
                m.make_move(&mut board, player);
            },
            GodName::Terpsichore => {
                let m = terpsichore::TerpsichoreMove(action.0);
                proof {
                    terpsichore::lemma_terpsichore_turn_playable(*state, player, action.0);
                }
                m.make_move(&mut board, player);
            },
            GodName::Stymphalians => {
                let m = MortalMove::from_generic(action);
                proof {
                    stymphalians::lemma_turn_playable(*state, player, false, action.0);
                }
                m.make_move(&mut board, player);
            },
            _ => {
                let m = MortalMove::from_generic(action);
                proof {
                    crate::gods::mortal::lemma_mortal_move_round_trip(field_at(action.0, 0), field_at(action.0, 5), 0);
                }
                m.make_move(&mut board, player);
            }
        }
        board
    }

    /// Plays a legal turn of one of the gods with a move word of their own.
    fn make_own_word_move(self, state: &FullGameState, player: Player, action: GenericMove) -> (r: BoardState)
        requires
            state.board.wf(),
            self is Hydra || self is Iris || self is Maenads || self is Medea || self is Medusa || self is Minotaur || self is Nemesis || self is Pegasus
                || self is Polyphemus || self is Proteus || self is Scylla || self is Siren || self is Theseus || self is Triton || self is Urania
                || self is Zeus,
            self.is_legal_turn(*state, player, action.0),
        ensures
            r.wf(),
            r.current_player == state.board.current_player,
            is_winning_data(action.0) ==> r.winner == Some(player),
            !is_winning_data(action.0) ==> r.winner == state.board.winner,
            self.move_effect(state.board, r, player, action.0),
    {
        let mut board = state.board;
        match self {
            GodName::Triton => {
                let m = triton::TritonMove(action.0);
                proof {
                    triton::lemma_triton_turn_playable(*state, player, action.0);
                }
                m.make_move(&mut board, player);
            },
            GodName::Minotaur => {
                let m = minotaur::MinotaurMove(action.0);
                proof {
                    minotaur::lemma_minotaur_turn_playable(*state, player, action.0);
                }
                m.make_move(&mut board, player);
            },
            GodName::Maenads => {
                let m = maenads::MaenadsMove(action.0);
                proof {
                    maenads::lemma_maenads_turn_playable(*state, player, action.0);
                }
                m.make_move(&mut board, player);
            },
            GodName::Hydra => {
                let m = hydra::HydraMove(action.0);
                proof {
                    hydra::lemma_hydra_turn_playable(*state, player, action.0);
                }
                m.make_move(&mut board, player);
            },
            GodName::Polyphemus => {
                let m = polyphemus::PolyphemusMove(action.0);
                proof {
                    polyphemus::lemma_polyphemus_turn_playable(*state, player, action.0);
                }
                m.make_move(&mut board, player);
            },
            GodName::Iris => {
                let m = iris::IrisMove(action.0);
                proof {
                    iris::lemma_iris_turn_playable(*state, player, action.0);
                }
                m.make_move(&mut board, player);
            },
            GodName::Medusa => {
                let m = medusa::MedusaMove(action.0);
                proof {
                    medusa::lemma_medusa_turn_playable(*state, player, action.0);
                }
                m.make_move(&mut board, player);
            },
            GodName::Pegasus => {
                let m = MortalMove::from_generic(action);
                proof {
                    pegasus::lemma_pegasus_turn_playable(*state, player, action.0);
                }
                m.make_move(&mut board, player);
            },
            GodName::Zeus => {
                let m = MortalMove::from_generic(action);
                proof {
                    zeus::lemma_zeus_turn_playable(*state, player, action.0);
                }
                m.make_move(&mut board, player);
            },
            GodName::Urania => {
                let m = MortalMove::from_generic(action);
                proof {
                    urania::lemma_urania_turn_playable(*state, player, action.0);
                }
                m.make_move(&mut board, player);
            },
            GodName::Scylla => {
                let m = scylla::ScyllaMove(action.0);
                proof {
                    scylla::lemma_scylla_turn_playable(*state, player, action.0);
                }
                m.make_move(&mut board, player);
            },
            GodName::Theseus => {
                let m = theseus::TheseusMove(action.0);
                proof {
                    theseus::lemma_theseus_turn_playable(*state, player, action.0);
                }
                m.make_move(&mut board, player);
            },
            GodName::Siren => {
                let m = siren::SirenMove(action.0);
                proof {
                    siren::lemma_siren_turn_playable(*state, player, action.0);
                }
                m.make_move(&mut board, player);
            },
            GodName::Nemesis => {
                let m = nemesis::NemesisMove(action.0);
                proof {
                    nemesis::lemma_nemesis_turn_playable(*state, player, action.0);
                }
                m.make_move(&mut board, player);
            },
            GodName::Proteus => {
                let m = MortalMove::from_generic(action);
                proof {
                    proteus::lemma_proteus_turn_playable(*state, player, action.0);
                }
                m.make_move(&mut board, player);
            },
            GodName::Medea => {
                let m = medea::MedeaMove(action.0);
                proof {
                    medea::lemma_medea_turn_playable(*state, player, action.0);
                }
                m.make_move(&mut board, player);
            },
            _ => {
                proof {
                    assert(false);
                }
            },
        }
        board
    }

    pub open spec fn is_hypnus_spec(self) -> bool {
        self == GodName::Hypnus
    }

    pub open spec fn is_persephone_spec(self) -> bool {
        self == GodName::Persephone
    }

    pub open spec fn is_limus_spec(self) -> bool {
        self == GodName::Limus
    }

    /// Whether this god only lets the opponent move workers other than the single highest one.
    pub fn is_hypnus(self) -> (r: bool)
        ensures
            r == self.is_hypnus_spec(),
    {
        match self {
            GodName::Hypnus => true,
            _ => false,
        }
    }

    /// Whether this god makes the opponent climb whenever a climb is available.
    pub fn is_persephone(self) -> (r: bool)
        ensures
            r == self.is_persephone_spec(),
    {
        match self {
            GodName::Persephone => true,
            _ => false,
        }
    }

    /// Whether this god plays one worker of a distinguished kind, which others' powers must keep
    /// track of when they move it.
    pub open spec fn has_female_worker_spec(self) -> bool {
        self == GodName::Selene || self == GodName::Hippolyta
    }

    pub fn has_female_worker(self) -> (r: bool)
        ensures
            r == self.has_female_worker_spec(),
    {
        match self {
            GodName::Selene | GodName::Hippolyta => true,
            _ => false,
        }
    }

    /// Whether this god slides the opponent's moving workers; none of the gods here does.
    pub fn is_harpies(self) -> (r: bool)
        ensures
            !r,
    {
        false
    }

    /// Whether this god confines the opponent's workers next to hers; none of the gods here does.
    pub fn is_aphrodite(self) -> (r: bool)
        ensures
            !r,
    {
        false
    }

    /// Whether this god stops the opponent from moving down; none of the gods here does.
    pub fn is_preventing_down(self) -> (r: bool)
        ensures
            !r,
    {
        false
    }

    /// Whether this god keeps tokens on the board; none of the gods here does.
    pub fn is_token_user(self) -> (r: bool)
        ensures
            !r,
    {
        false
    }

    /// Squares this god holds that count as domes to the opponent; none of the gods here has
    /// any.
    pub fn get_frozen_mask(self, board: &BoardState, player: Player) -> (r: BitBoard)
        ensures
            r.0 == 0,
            forall|i: int| !#[trigger] r.has(i),
    {
        BitBoard::empty()
    }

    /// The opponent's workers whose identity this god tracks; none of the gods here tracks any.
    pub fn get_female_worker_mask(self, board: &BoardState, player: Player) -> (r: BitBoard)
        ensures
            r.0 == 0,
            forall|i: int| !#[trigger] r.has(i),
    {
        BitBoard::empty()
    }

    /// Squares the opponent may win on; every square for the gods here.
    pub fn win_mask(self) -> (r: BitBoard)
        ensures
            r.0 == MAIN_SECTION,
            forall|i: int| #[trigger] r.has(i) == crate::square::is_square(i),
    {
        BitBoard::main_section()
    }

    /// Whether the opponent may move up this turn; always so for the gods here.
    pub fn can_opponent_climb(self, board: &BoardState, player: Player) -> (r: bool)
        ensures
            r,
    {
        true
    }

    /// Squares the opponent may build on, given this god's own workers.
    pub fn get_build_mask(self, own_workers: BitBoard) -> (r: BitBoard)
        ensures
            self.is_limus_spec() ==> forall|i: int|
                0 <= i < 32 ==> #[trigger] r.has(i) == !(exists|s: int|
                    0 <= s < 25 && #[trigger] own_workers.has(s) && crate::square::is_adjacent(s, i)),
            !self.is_limus_spec() ==> r.0 == MAIN_SECTION,
            !self.is_limus_spec() ==> forall|i: int| #[trigger] r.has(i) == crate::square::is_square(i),
    {
        match self {
            GodName::Limus => limus::limus_build_mask(own_workers),
            _ => BitBoard::main_section(),
        }
    }
}

/// The god a name's length and first three letters pick out.
pub open spec fn god_of_name_key(len: nat, c0: u8, c1: u8, c2: u8) -> GodName {
    if len == 6 && c0 == 109 && c1 == 111 && c2 == 114 {
        GodName::Mortal
    } else if len == 3 && c0 == 112 && c1 == 97 && c2 == 110 {
        GodName::Pan
    } else if len == 10 && c0 == 112 && c1 == 101 && c2 == 114 {
        GodName::Persephone
    } else if len == 6 && c0 == 104 && c1 == 121 && c2 == 112 {
        GodName::Hypnus
    } else if len == 5 && c0 == 108 && c1 == 105 && c2 == 109 {
        GodName::Limus
    } else if len == 6 && c0 == 104 && c1 == 101 && c2 == 114 {
        GodName::Hermes
    } else if len == 9 && c0 == 104 && c1 == 105 && c2 == 112 {
        GodName::Hippolyta
    } else if len == 5 && c0 == 104 && c1 == 121 && c2 == 100 {
        GodName::Hydra
    } else if len == 4 && c0 == 105 && c1 == 114 && c2 == 105 {
        GodName::Iris
    } else if len == 5 && c0 == 106 && c1 == 97 && c2 == 115 {
        GodName::Jason
    } else if len == 7 && c0 == 109 && c1 == 97 && c2 == 101 {
        GodName::Maenads
    } else if len == 5 && c0 == 109 && c1 == 101 && c2 == 100 {
        GodName::Medea
    } else if len == 6 && c0 == 109 && c1 == 101 && c2 == 100 {
        GodName::Medusa
    } else if len == 8 && c0 == 109 && c1 == 105 && c2 == 110 {
        GodName::Minotaur
    } else if len == 8 && c0 == 109 && c1 == 111 && c2 == 114 {
        GodName::Morpheus
    } else if len == 7 && c0 == 110 && c1 == 101 && c2 == 109 {
        GodName::Nemesis
    } else if len == 4 && c0 == 110 && c1 == 105 && c2 == 107 {
        GodName::Nike
    } else if len == 8 && c0 == 111 && c1 == 100 && c2 == 121 {
        GodName::Odysseus
    } else if len == 7 && c0 == 112 && c1 == 101 && c2 == 103 {
        GodName::Pegasus
    } else if len == 10 && c0 == 112 && c1 == 111 && c2 == 108 {
        GodName::Polyphemus
    } else if len == 8 && c0 == 112 && c1 == 111 && c2 == 115 {
        GodName::Poseidon
    } else if len == 10 && c0 == 112 && c1 == 114 && c2 == 111 {
        GodName::Prometheus
    } else if len == 7 && c0 == 112 && c1 == 114 && c2 == 111 {
        GodName::Proteus
    } else if len == 6 && c0 == 115 && c1 == 99 && c2 == 121 {
        GodName::Scylla
    } else if len == 6 && c0 == 115 && c1 == 101 && c2 == 108 {
        GodName::Selene
    } else if len == 5 && c0 == 115 && c1 == 105 && c2 == 114 {
        GodName::Siren
    } else if len == 12 && c0 == 115 && c1 == 116 && c2 == 121 {
        GodName::Stymphalians
    } else if len == 11 && c0 == 116 && c1 == 101 && c2 == 114 {
        GodName::Terpsichore
    } else if len == 7 && c0 == 116 && c1 == 104 && c2 == 101 {
        GodName::Theseus
    } else if len == 6 && c0 == 116 && c1 == 114 && c2 == 105 {
        GodName::Triton
    } else if len == 6 && c0 == 117 && c1 == 114 && c2 == 97 {
        GodName::Urania
    } else {
        GodName::Zeus
    }
}

/// A god's name picks it out from its length and first three letters.
proof fn lemma_name_key(g: GodName)
    ensures
        g.name_spec().len() >= 3,
        god_of_name_key(g.name_spec().len(), g.name_spec()[0], g.name_spec()[1], g.name_spec()[2]) == g,
{
    match g {
        GodName::Mortal => {},
        GodName::Pan => {},
        GodName::Persephone => {},
        GodName::Hypnus => {},
        GodName::Limus => {},
        GodName::Hermes => {},
        GodName::Hippolyta => {},
        GodName::Hydra => {},
        GodName::Iris => {},
        GodName::Jason => {},
        GodName::Maenads => {},
        GodName::Medea => {},
        GodName::Medusa => {},
        GodName::Minotaur => {},
        GodName::Morpheus => {},
        GodName::Nemesis => {},
        GodName::Nike => {},
        GodName::Odysseus => {},
        GodName::Pegasus => {},
        GodName::Polyphemus => {},
        GodName::Poseidon => {},
        GodName::Prometheus => {},
        GodName::Proteus => {},
        GodName::Scylla => {},
        GodName::Selene => {},
        GodName::Siren => {},
        GodName::Stymphalians => {},
        GodName::Terpsichore => {},
        GodName::Theseus => {},
        GodName::Triton => {},
        GodName::Urania => {},
        GodName::Zeus => {},
    }
}

/// Two gods with the same name are the same god.
pub proof fn lemma_name_unique(a: GodName, b: GodName)
    requires
        a.name_spec() == b.name_spec(),
    ensures
        a == b,
{
    lemma_name_key(a);
    lemma_name_key(b);
}


/// A god's name is made of lower case letters.
pub proof fn lemma_name_letters(g: GodName)
    ensures
        forall|k: int| 0 <= k < g.name_spec().len() ==> 97 <= #[trigger] g.name_spec()[k] <= 122,
{
    match g {
        GodName::Mortal => {},
        GodName::Pan => {},
        GodName::Persephone => {},
        GodName::Hypnus => {},
        GodName::Limus => {},
        GodName::Hermes => {},
        GodName::Hippolyta => {},
        GodName::Hydra => {},
        GodName::Iris => {},
        GodName::Jason => {},
        GodName::Maenads => {},
        GodName::Medea => {},
        GodName::Medusa => {},
        GodName::Minotaur => {},
        GodName::Morpheus => {},
        GodName::Nemesis => {},
        GodName::Nike => {},
        GodName::Odysseus => {},
        GodName::Pegasus => {},
        GodName::Polyphemus => {},
        GodName::Poseidon => {},
        GodName::Prometheus => {},
        GodName::Proteus => {},
        GodName::Scylla => {},
        GodName::Selene => {},
        GodName::Siren => {},
        GodName::Stymphalians => {},
        GodName::Terpsichore => {},
        GodName::Theseus => {},
        GodName::Triton => {},
        GodName::Urania => {},
        GodName::Zeus => {},
    }
}

/// The decimal text of a number is made of digits.
pub proof fn lemma_decimal_text_digits(n: nat)
    ensures
        decimal_text(n).len() >= 1,
        forall|k: int| 0 <= k < decimal_text(n).len() ==> 48 <= #[trigger] decimal_text(n)[k] <= 57,
    decreases n,
{
    if n >= 10 {
        lemma_decimal_text_digits(n / 10);
        let t = decimal_text(n / 10);
        assert forall|k: int| 0 <= k < decimal_text(n).len() implies 48 <= #[trigger] decimal_text(n)[k] <= 57 by {
            if k < t.len() {
                assert(decimal_text(n)[k] == t[k]);
            }
        }
    }
}

/// The god data text holds no slash, colon or bracket.
pub proof fn lemma_god_data_text_plain(g: GodName, data: GodData)
    ensures
        forall|k: int| 0 <= k < g.god_data_text(data).len() ==> {
            let c = #[trigger] g.god_data_text(data)[k];
            c != 47 && c != 58 && c != 91 && c != 93
        },
{
    if g == GodName::Morpheus {
        lemma_decimal_text_digits(data as nat);
    } else if g == GodName::Hippolyta || g == GodName::Selene {
        if exists|i: int| 0 <= i < 25 && #[trigger] BitBoard(data).has(i) {
            let i = choose|i: int| 0 <= i < 25 && BitBoard(data).has(i) && forall|j: int| 0 <= j < i ==> !#[trigger] BitBoard(data).has(j);
            assert(0 <= crate::square::col_of(i) < 5);
            assert(0 <= crate::square::row_of(i) < 5);
        }
    }
}

/// The value of a run of decimal digits.
pub open spec fn digits_value(d: Seq<u8>) -> nat
    decreases d.len(),
{
    if d.len() == 0 {
        0
    } else {
        digits_value(d.drop_last()) * 10 + (d.last() - 48) as nat
    }
}

/// Every byte is a decimal digit.
pub open spec fn all_digits(d: Seq<u8>) -> bool {
    forall|k: int| 0 <= k < d.len() ==> 48 <= #[trigger] d[k] <= 57
}

/// The number a decimal string names, as Rust reads an unsigned 32 bit number: an optional `+`,
/// then at least one digit, and a value that fits.
pub open spec fn decimal_value(d: Seq<u8>) -> Option<u32> {
    let digits = if d.len() > 0 && d[0] == 43 {
        d.subrange(1, d.len() as int)
    } else {
        d
    };
    if digits.len() > 0 && all_digits(digits) && digits_value(digits) <= u32::MAX {
        Some(digits_value(digits) as u32)
    } else {
        None
    }
}

/// The decimal digits of `n`, without leading zeros.
pub open spec fn decimal_text(n: nat) -> Seq<u8>
    decreases n,
{
    if n < 10 {
        seq![(48 + n) as u8]
    } else {
        decimal_text(n / 10).push((48 + n % 10) as u8)
    }
}

/// A longer run of digits is worth at least as much as its start.
proof fn lemma_digits_value_grows(d: Seq<u8>, i: int)
    requires
        all_digits(d),
        0 <= i <= d.len(),
    ensures
        digits_value(d.subrange(0, i)) <= digits_value(d),
    decreases d.len() - i,
{
    if i < d.len() {
        lemma_digits_value_grows(d, i + 1);
        assert(d.subrange(0, i + 1).drop_last() =~= d.subrange(0, i));
    } else {
        assert(d.subrange(0, i) =~= d);
    }
}

/// Reads a decimal number as Rust reads an unsigned 32 bit number.
fn parse_decimal(data: &[u8]) -> (r: Option<u32>)
    ensures
        r == decimal_value(data@),
{
    let start: usize = if data.len() > 0 && data[0] == 43 { 1 } else { 0 };
    let ghost digits = if data@.len() > 0 && data@[0] == 43 {
        data@.subrange(1, data@.len() as int)
    } else {
        data@
    };
    if start == data.len() {
        return None;
    }
    let mut value: u64 = 0;
    let mut i: usize = start;
    while i < data.len()
        invariant
            start <= i <= data@.len(),
            start < data@.len(),
            digits == data@.subrange(start as int, data@.len() as int),
            digits == (if data@.len() > 0 && data@[0] == 43 {
                data@.subrange(1, data@.len() as int)
            } else {
                data@
            }),
            value == digits_value(digits.subrange(0, i - start)),
            value <= u32::MAX,
            forall|k: int| 0 <= k < i - start ==> 48 <= #[trigger] digits[k] <= 57,
        decreases data@.len() - i,
    {
        let c = data[i];
        if c < 48 || c > 57 {
            proof {
                assert(digits[i - start] == c);
                assert(!all_digits(digits));
            }
            return None;
        }
        let next = value * 10 + (c - 48) as u64;
        proof {
            let pre = digits.subrange(0, i - start + 1);
            assert(pre.drop_last() =~= digits.subrange(0, i - start));
            assert(pre.last() == c);
            assert(digits_value(pre) == next);
        }
        if next > 0xFFFF_FFFF {
            proof {
                if all_digits(digits) {
                    lemma_digits_value_grows(digits, i - start + 1);
                }
            }
            return None;
        }
        value = next;
        i = i + 1;
    }
    proof {
        assert(digits.subrange(0, i - start) =~= digits);
    }
    Some(value as u32)
}

/// Appends the decimal digits of `n`.
fn push_decimal(n: u32, out: &mut Vec<u8>)
    ensures
        final(out)@ == old(out)@ + decimal_text(n as nat),
    decreases n,
{
    if n >= 10 {
        push_decimal(n / 10, out);
    }
    let d: u8 = (n % 10) as u8;
    out.push(48 + d);
    proof {
        if n >= 10 {
            assert(decimal_text(n as nat) == decimal_text((n / 10) as nat).push((48 + n % 10) as u8));
        }
    }
}

} // verus!

