//! The vocabulary of the venue document: units, layers, and the kinds of
//! walls, openings, zones, obstacles, components, links and routing edges.

use vstd::prelude::*;
use crate::ids::LayerId;

verus! {

pub const VENUE_SCHEMA_VERSION: &'static str = "cfs.venue/1.0";

#[derive(Clone, Debug, PartialEq)]
pub struct Units {
    pub length: LengthUnit,
}

impl Default for Units {
    fn default() -> (u: Units)
        ensures
            u.length == LengthUnit::Meter,
    {
        Units { length: LengthUnit::Meter }
    }
}

/// The display unit assumed when a document names none.
pub fn default_length_unit() -> (u: LengthUnit)
    ensures
        u == LengthUnit::Meter,
{
    LengthUnit::Meter
}

/// Display unit only. **All stored coordinates are metres regardless.**
#[derive(Clone, Copy, Debug, PartialEq, Eq, Structural)]
pub enum LengthUnit {
    Meter,
    Foot,
}

#[derive(Clone, Copy, Debug, PartialEq, Eq, Structural)]
pub enum CalibrationSource {
    /// DXF `$INSUNITS` header or equivalent explicit declaration.
    FileHeader,
    /// OCR'd dimension string cross-checked against the geometry it annotates.
    OcrDimension,
    /// Inferred from the modal detected door width (~0.9 m).
    DoorWidthPrior,
    /// User clicked two points and typed the real distance.
    ManualTwoPoint,
}

#[derive(Clone, Debug, PartialEq)]
pub struct Layer {
    pub id: LayerId,
    pub name: String,
    pub visible: bool,
    pub locked: bool,
    pub z: i32,
    pub kind: LayerKind,
}

impl Layer {
    /// The layer every new document starts with: visible, unlocked, at `z`
    /// zero, holding ordinary (not proposed) geometry.
    pub fn default_structure() -> (l: Layer)
        ensures
            l.id.0@ == "lay_struct"@,
            l.name@ == "Structure"@,
            l.visible,
            !l.locked,
            l.z == 0,
            l.kind == LayerKind::Normal,
    {
        Layer {
            id: LayerId::new("lay_struct".to_owned()),
            name: "Structure".to_owned(),
            visible: true,
            locked: false,
            z: 0,
            kind: LayerKind::Normal,
        }
    }
}

#[derive(Clone, Copy, Debug, PartialEq, Eq, Structural)]
pub enum LayerKind {
    Normal,
    /// Un-committed AI or import output awaiting human review. Nothing on a
    /// proposal layer is ever simulated or reported until accepted.
    Proposal,
}

impl Default for LayerKind {
    fn default() -> (k: LayerKind)
        ensures
            k == LayerKind::Normal,
    {
        LayerKind::Normal
    }
}

/// Layers are visible unless a document says otherwise.
pub fn yes() -> (b: bool)
    ensures
        b,
{
    true
}

#[derive(Clone, Copy, Debug, PartialEq, Eq, Structural)]
pub enum WallKind {
    /// A load-bearing or envelope wall (`structural` in documents).
    StructuralWall,
    Partition,
    Barrier,
    Temporary,
}

impl Default for WallKind {
    fn default() -> (k: WallKind)
        ensures
            k == WallKind::StructuralWall,
    {
        WallKind::StructuralWall
    }
}

#[derive(Clone, Copy, Debug, PartialEq, Eq, Structural)]
pub enum OpeningKind {
    Door,
    DoubleDoor,
    /// A plain gap in a wall — no leaf, no frame.
    Gap,
    Gate,
    Revolving,
    EmergencyExit,
}

impl Default for OpeningKind {
    fn default() -> (k: OpeningKind)
        ensures
            k == OpeningKind::Door,
    {
        OpeningKind::Door
    }
}

#[derive(Clone, Copy, Debug, PartialEq, Eq, Structural)]
pub enum Swing {
    Both,
    Inward,
    Outward,
}

impl Default for Swing {
    fn default() -> (s: Swing)
        ensures
            s == Swing::Both,
    {
        Swing::Both
    }
}

#[derive(Clone, Copy, Debug, PartialEq, Eq, Structural)]
pub enum GateState {
    Open,
    Closed,
    EntryOnly,
    ExitOnly,
}

impl Default for GateState {
    fn default() -> (s: GateState)
        ensures
            s == GateState::Open,
    {
        GateState::Open
    }
}

/// NFPA 101 Table 7.3.1.2 occupancy classification.
#[derive(Clone, Copy, Debug, PartialEq, Eq, Structural)]
pub enum ZoneKind {
    /// Standing, dance floor, no fixed seating. OLF 0.65 m²/person.
    AssemblyConcentrated,
    /// Dining, exhibition. OLF 1.4 m²/person.
    AssemblyLessConcentrated,
    /// Standing space. OLF 0.46 m²/person.
    AssemblyStandingSpace,
    AssemblyFixedSeating,
    Circulation,
    Business,
    Mercantile,
    Storage,
    BackOfHouse,
    Queue,
    Restricted,
    Exterior,
}

#[derive(Clone, Copy, Debug, PartialEq, Eq, Structural)]
pub enum ObstacleKind {
    Generic,
    Pillar,
    Furniture,
    Equipment,
    Planter,
    Water,
}

impl Default for ObstacleKind {
    fn default() -> (k: ObstacleKind)
        ensures
            k == ObstacleKind::Generic,
    {
        ObstacleKind::Generic
    }
}

#[derive(Clone, Copy, Debug, PartialEq, Eq, Structural)]
pub enum ComponentType {
    Turnstile,
    SecurityCheckpoint,
    RegistrationDesk,
    TicketCounter,
    Barricade,
    SeatingBlock,
    Stall,
    Sign,
}

#[derive(Clone, Copy, Debug, PartialEq, Eq, Structural)]
pub enum FlowDirection {
    In,
    Out,
    Both,
}

impl Default for FlowDirection {
    fn default() -> (d: FlowDirection)
        ensures
            d == FlowDirection::Both,
    {
        FlowDirection::Both
    }
}

#[derive(Clone, Copy, Debug, PartialEq, Eq, Structural)]
pub enum QueueDiscipline {
    /// One line per server.
    Parallel,
    /// One line feeding all servers.
    Serpentine,
    Single,
}

impl Default for QueueDiscipline {
    fn default() -> (q: QueueDiscipline)
        ensures
            q == QueueDiscipline::Parallel,
    {
        QueueDiscipline::Parallel
    }
}

#[derive(Clone, Copy, Debug, PartialEq, Eq, Structural)]
pub enum LinkKind {
    Stair,
    Ramp,
    Escalator,
    Elevator,
    /// A void with no physical connection — used to model an atrium edge.
    Opening,
}

#[derive(Clone, Copy, Debug, PartialEq, Eq, Structural)]
pub enum EdgeDirection {
    Both,
    Forward,
    Backward,
}

impl Default for EdgeDirection {
    fn default() -> (d: EdgeDirection)
        ensures
            d == EdgeDirection::Both,
    {
        EdgeDirection::Both
    }
}

#[derive(Clone, Copy, Debug, PartialEq, Eq, Structural)]
pub enum FlowConstraintKind {
    OneWay,
    Preferred,
    Avoid,
}

} // verus!
