//! The in-memory configuration model: general information, boards with
//! their measurements and packets, and the board index that maps each board
//! name to the relative path of its manifest file.
//!
//! Each executable type has a mathematical mirror (`...V`) reached through
//! `deep_view()`; contracts and laws speak about those mirrors.

use vstd::prelude::*;

verus! {

/// Why an engine operation was refused.
#[derive(Debug, Clone, PartialEq)]
pub enum AdjError {
    /// A mandatory file was absent, or the board to rename does not exist.
    NotFound(String),
    /// The new name of a rename already identifies a board.
    Conflict(String),
    /// The caller handed in a payload the engine refuses to persist.
    BadRequest(String),
    /// A mandatory file held text that is not the JSON shape it must be.
    ParseFailure(String),
}

/// Flat descriptive mappings, carried through load and save unchanged.
#[derive(Debug, Clone, PartialEq)]
pub struct GeneralInfo {
    pub ports: Vec<(String, u16)>,
    pub addresses: Vec<(String, String)>,
    pub units: Vec<(String, String)>,
    pub message_ids: Vec<(String, u32)>,
}

/// Mathematical mirror of [`GeneralInfo`].
pub ghost struct GeneralInfoV {
    pub ports: Seq<(Seq<char>, u16)>,
    pub addresses: Seq<(Seq<char>, Seq<char>)>,
    pub units: Seq<(Seq<char>, Seq<char>)>,
    pub message_ids: Seq<(Seq<char>, u32)>,
}

impl DeepView for GeneralInfo {
    type V = GeneralInfoV;

    open spec fn deep_view(&self) -> GeneralInfoV {
        GeneralInfoV {
            ports: self.ports.deep_view(),
            addresses: self.addresses.deep_view(),
            units: self.units.deep_view(),
            message_ids: self.message_ids.deep_view(),
        }
    }
}

/// One sensor or telemetry value definition.  The two optional ranges hold
/// their endpoints as JSON number tokens, kept as text so that no floating
/// point runs through the engine.
#[derive(Debug, Clone, PartialEq)]
pub struct Measurement {
    pub id: String,
    pub name: String,
    pub measurement_type: String,
    pub pod_units: Option<String>,
    pub display_units: Option<String>,
    pub enum_values: Option<Vec<String>>,
    pub safe_range: Option<(String, String)>,
    pub warning_range: Option<(String, String)>,
}

/// Mathematical mirror of [`Measurement`].
pub ghost struct MeasurementV {
    pub id: Seq<char>,
    pub name: Seq<char>,
    pub measurement_type: Seq<char>,
    pub pod_units: Option<Seq<char>>,
    pub display_units: Option<Seq<char>>,
    pub enum_values: Option<Seq<Seq<char>>>,
    pub safe_range: Option<(Seq<char>, Seq<char>)>,
    pub warning_range: Option<(Seq<char>, Seq<char>)>,
}

impl DeepView for Measurement {
    type V = MeasurementV;

    open spec fn deep_view(&self) -> MeasurementV {
        MeasurementV {
            id: self.id@,
            name: self.name@,
            measurement_type: self.measurement_type@,
            pod_units: self.pod_units.deep_view(),
            display_units: self.display_units.deep_view(),
            enum_values: self.enum_values.deep_view(),
            safe_range: self.safe_range.deep_view(),
            warning_range: self.warning_range.deep_view(),
        }
    }
}

/// One message definition.  A packet whose `packet_type` is the literal
/// `"order"` is a command packet and is persisted apart from the data
/// packets.
#[derive(Debug, Clone, PartialEq)]
pub struct Packet {
    pub packet_type: String,
    pub name: String,
    pub variables: Vec<String>,
    pub id: Option<u32>,
}

/// Mathematical mirror of [`Packet`].
pub ghost struct PacketV {
    pub packet_type: Seq<char>,
    pub name: Seq<char>,
    pub variables: Seq<Seq<char>>,
    pub id: Option<u32>,
}

impl DeepView for Packet {
    type V = PacketV;

    open spec fn deep_view(&self) -> PacketV {
        PacketV {
            packet_type: self.packet_type@,
            name: self.name@,
            variables: self.variables.deep_view(),
            id: self.id.deep_view(),
        }
    }
}

/// One board's configuration: identity and its ordered record lists.
#[derive(Debug, Clone, PartialEq)]
pub struct Board {
    pub board_id: u32,
    pub board_ip: String,
    pub measurements: Vec<Measurement>,
    pub packets: Vec<Packet>,
}

/// Mathematical mirror of [`Board`].
pub ghost struct BoardV {
    pub board_id: u32,
    pub board_ip: Seq<char>,
    pub measurements: Seq<MeasurementV>,
    pub packets: Seq<PacketV>,
}

impl DeepView for Board {
    type V = BoardV;

    open spec fn deep_view(&self) -> BoardV {
        BoardV {
            board_id: self.board_id,
            board_ip: self.board_ip@,
            measurements: self.measurements.deep_view(),
            packets: self.packets.deep_view(),
        }
    }
}

/// A board together with the name that identifies it.
#[derive(Debug, Clone, PartialEq)]
pub struct BoardEntry {
    pub name: String,
    pub board: Board,
}

/// Mathematical mirror of [`BoardEntry`].
pub ghost struct BoardEntryV {
    pub name: Seq<char>,
    pub board: BoardV,
}

impl DeepView for BoardEntry {
    type V = BoardEntryV;

    open spec fn deep_view(&self) -> BoardEntryV {
        BoardEntryV { name: self.name@, board: self.board.deep_view() }
    }
}

impl BoardEntry {
    /// Pairs a name with a board.
    pub fn new(name: String, board: Board) -> (r: BoardEntry)
        ensures
            r.deep_view() == (BoardEntryV { name: name@, board: board.deep_view() }),
    {
        BoardEntry { name, board }
    }

    /// The name that identifies this board.
    pub fn name(&self) -> (r: &String)
        ensures
            r@ == self.deep_view().name,
    {
        &self.name
    }

    /// The board's configuration.
    pub fn board(&self) -> (r: &Board)
        ensures
            r.deep_view() == self.deep_view().board,
    {
        &self.board
    }

    /// The board's configuration, for mutation in place.
    pub fn board_mut(&mut self) -> (r: &mut Board)
        ensures
            r.deep_view() == old(self).deep_view().board,
            final (self).deep_view() == (BoardEntryV {
                name: old(self).deep_view().name,
                board: final (r).deep_view(),
            }),
    {
        &mut self.board
    }
}

/// The whole configuration tree: the mandatory general information, the
/// ordered board records, and the board index.
#[derive(Debug, Clone, PartialEq)]
pub struct ADJConfig {
    pub general_info: GeneralInfo,
    pub boards: Vec<BoardEntry>,
    pub board_list: Vec<(String, String)>,
}

/// Mathematical mirror of [`ADJConfig`].
pub ghost struct ADJConfigV {
    pub general_info: GeneralInfoV,
    pub boards: Seq<BoardEntryV>,
    pub board_list: Seq<(Seq<char>, Seq<char>)>,
}

impl DeepView for ADJConfig {
    type V = ADJConfigV;

    open spec fn deep_view(&self) -> ADJConfigV {
        ADJConfigV {
            general_info: self.general_info.deep_view(),
            boards: self.boards.deep_view(),
            board_list: self.board_list.deep_view(),
        }
    }
}

/// Whether some pair in `s` carries the key `k`.
pub open spec fn alist_has<V>(s: Seq<(Seq<char>, V)>, k: Seq<char>) -> bool {
    exists|i: int| 0 <= i < s.len() && s[i].0 == k
}

/// The keys of `s` are pairwise distinct.
pub open spec fn alist_distinct<V>(s: Seq<(Seq<char>, V)>) -> bool {
    forall|i: int, j: int| 0 <= i < j < s.len() ==> s[i].0 != s[j].0
}

/// Whether some board in `bs` carries the name `n`.
pub open spec fn has_board(bs: Seq<BoardEntryV>, n: Seq<char>) -> bool {
    exists|i: int| 0 <= i < bs.len() && bs[i].name == n
}

/// The board names of `bs` are pairwise distinct.
pub open spec fn boards_distinct(bs: Seq<BoardEntryV>) -> bool {
    forall|i: int, j: int| 0 <= i < j < bs.len() ==> bs[i].name != bs[j].name
}

impl ADJConfig {
    /// Refuses a configuration update that carries neither ports nor
    /// boards: such a payload is taken for incomplete data and must not
    /// reach the writer.
    pub fn validate_update(&self) -> (r: Result<(), AdjError>)
        ensures
            r is Ok <==> self.deep_view().general_info.ports.len() > 0
                || self.deep_view().boards.len() > 0,
    {
        if self.general_info.ports.is_empty() && self.boards.is_empty() {
            Err(
                AdjError::BadRequest(
                    String::from_str("configuration holds no ports and no boards"),
                ),
            )
        } else {
            Ok(())
        }
    }
}

} // verus!
