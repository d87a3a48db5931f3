//! Typed identifiers.
//!
//! Every entity id is a distinct type but a plain string underneath, so a
//! `WallId` cannot be passed where an `OpeningId` is expected.

use vstd::prelude::*;

verus! {

/// A floor within a venue.
#[derive(Clone, Debug, PartialEq, Eq, PartialOrd, Ord, Hash)]
pub struct FloorId(pub String);

impl FloorId {
    pub fn new(s: String) -> (r: FloorId)
        ensures
            r.0@ == s@,
    {
        FloorId(s)
    }

    pub fn as_str(&self) -> (r: &str)
        ensures
            r@ == self.0@,
    {
        self.0.as_str()
    }
}

/// A wall polyline.
#[derive(Clone, Debug, PartialEq, Eq, PartialOrd, Ord, Hash)]
pub struct WallId(pub String);

impl WallId {
    pub fn new(s: String) -> (r: WallId)
        ensures
            r.0@ == s@,
    {
        WallId(s)
    }

    pub fn as_str(&self) -> (r: &str)
        ensures
            r@ == self.0@,
    {
        self.0.as_str()
    }
}

/// An opening (door, gate, gap) parameterised along a wall.
#[derive(Clone, Debug, PartialEq, Eq, PartialOrd, Ord, Hash)]
pub struct OpeningId(pub String);

impl OpeningId {
    pub fn new(s: String) -> (r: OpeningId)
        ensures
            r.0@ == s@,
    {
        OpeningId(s)
    }

    pub fn as_str(&self) -> (r: &str)
        ensures
            r@ == self.0@,
    {
        self.0.as_str()
    }
}

/// A semantic zone polygon.
#[derive(Clone, Debug, PartialEq, Eq, PartialOrd, Ord, Hash)]
pub struct ZoneId(pub String);

impl ZoneId {
    pub fn new(s: String) -> (r: ZoneId)
        ensures
            r.0@ == s@,
    {
        ZoneId(s)
    }

    pub fn as_str(&self) -> (r: &str)
        ensures
            r@ == self.0@,
    {
        self.0.as_str()
    }
}

/// A placed intelligent component.
#[derive(Clone, Debug, PartialEq, Eq, PartialOrd, Ord, Hash)]
pub struct ComponentId(pub String);

impl ComponentId {
    pub fn new(s: String) -> (r: ComponentId)
        ensures
            r.0@ == s@,
    {
        ComponentId(s)
    }

    pub fn as_str(&self) -> (r: &str)
        ensures
            r@ == self.0@,
    {
        self.0.as_str()
    }
}

/// A vertical link between two floors.
#[derive(Clone, Debug, PartialEq, Eq, PartialOrd, Ord, Hash)]
pub struct LinkId(pub String);

impl LinkId {
    pub fn new(s: String) -> (r: LinkId)
        ensures
            r.0@ == s@,
    {
        LinkId(s)
    }

    pub fn as_str(&self) -> (r: &str)
        ensures
            r@ == self.0@,
    {
        self.0.as_str()
    }
}

/// A routing-graph waypoint.
#[derive(Clone, Debug, PartialEq, Eq, PartialOrd, Ord, Hash)]
pub struct WaypointId(pub String);

impl WaypointId {
    pub fn new(s: String) -> (r: WaypointId)
        ensures
            r.0@ == s@,
    {
        WaypointId(s)
    }

    pub fn as_str(&self) -> (r: &str)
        ensures
            r@ == self.0@,
    {
        self.0.as_str()
    }
}

/// A drawing/visibility layer.
#[derive(Clone, Debug, PartialEq, Eq, PartialOrd, Ord, Hash)]
pub struct LayerId(pub String);

impl LayerId {
    pub fn new(s: String) -> (r: LayerId)
        ensures
            r.0@ == s@,
    {
        LayerId(s)
    }

    pub fn as_str(&self) -> (r: &str)
        ensures
            r@ == self.0@,
    {
        self.0.as_str()
    }
}

} // verus!
