//! The vocabulary of the scenario document — simulation modes, itinerary
//! goals, timed events — and the reference checks a scenario must pass
//! against the venue it targets.

use vstd::prelude::*;
use vstd::string::StringExecFns;
use crate::ids::{ComponentId, FloorId, LinkId, OpeningId, WaypointId, ZoneId};
use crate::text::{decimal, spec_decimal};
use crate::validate::{contains_id, spec_contains_id, Issue, Severity};

verus! {

pub const SCENARIO_SCHEMA_VERSION: &'static str = "cfs.scenario/1.0";

#[derive(Clone, Copy, Debug, PartialEq, Eq, Structural)]
pub enum SimMode {
    EventFlow,
    PeakLoad,
    Evacuation,
}

impl Default for SimMode {
    fn default() -> (m: SimMode)
        ensures
            m == SimMode::EventFlow,
    {
        SimMode::EventFlow
    }
}

/// Where an itinerary step sends an agent.
#[derive(Clone, Debug, PartialEq)]
pub enum Goal {
    Zone { id: ZoneId },
    Component { id: ComponentId },
    Waypoint { id: WaypointId },
    Opening { id: OpeningId },
    NearestExit,
}

#[derive(Clone, Debug, PartialEq)]
pub enum EventKind {
    Alarm { scope: AlarmScope, egress_policy: EgressPolicy },
    CloseOpening { target: OpeningId },
    OpenOpening { target: OpeningId },
    BlockLink { target: LinkId },
    UnblockLink { target: LinkId },
    CloseComponent { target: ComponentId },
    OpenComponent { target: ComponentId },
}

#[derive(Clone, Debug, PartialEq)]
pub enum AlarmScope {
    All,
    Floor { id: FloorId },
    Zone { id: ZoneId },
}

impl Default for AlarmScope {
    fn default() -> (s: AlarmScope)
        ensures
            s == AlarmScope::All,
    {
        AlarmScope::All
    }
}

#[derive(Clone, Copy, Debug, PartialEq, Eq, Structural)]
pub enum EgressPolicy {
    NearestAvailable,
    FamiliarRoute,
    AssignedExit,
}

impl Default for EgressPolicy {
    fn default() -> (p: EgressPolicy)
        ensures
            p == EgressPolicy::NearestAvailable,
    {
        EgressPolicy::NearestAvailable
    }
}

#[derive(Clone, Copy, Debug, PartialEq, Eq, Structural)]
pub enum OccupancyBasis {
    Simulated,
    Declared,
}

impl Default for OccupancyBasis {
    fn default() -> (b: OccupancyBasis)
        ensures
            b == OccupancyBasis::Simulated,
    {
        OccupancyBasis::Simulated
    }
}

/// The venue ids a scenario may refer to.
pub struct VenueIds {
    pub openings: Vec<String>,
    pub zones: Vec<String>,
    pub components: Vec<String>,
    pub waypoints: Vec<String>,
    pub links: Vec<String>,
}

/// The goal names something the venue has (the nearest exit always exists).
pub open spec fn spec_goal_known(goal: Goal, v: VenueIds) -> bool {
    match goal {
        Goal::Zone { id } => spec_contains_id(v.zones@, id.0@),
        Goal::Component { id } => spec_contains_id(v.components@, id.0@),
        Goal::Waypoint { id } => spec_contains_id(v.waypoints@, id.0@),
        Goal::Opening { id } => spec_contains_id(v.openings@, id.0@),
        Goal::NearestExit => true,
    }
}

/// The event targets something the venue has (an alarm targets nothing).
pub open spec fn spec_event_target_known(e: EventKind, v: VenueIds) -> bool {
    match e {
        EventKind::CloseOpening { target } | EventKind::OpenOpening { target } =>
            spec_contains_id(v.openings@, target.0@),
        EventKind::BlockLink { target } | EventKind::UnblockLink { target } =>
            spec_contains_id(v.links@, target.0@),
        EventKind::CloseComponent { target } | EventKind::OpenComponent { target } =>
            spec_contains_id(v.components@, target.0@),
        EventKind::Alarm { .. } => true,
    }
}

/// An event's target is looked up in the venue's list for its kind, and only
/// there: an opening event is known exactly when an opening has the target's
/// id, a link event when a link does, a component event when a component
/// does; an alarm names no target and is always known.
pub proof fn lemma_event_targets_are_looked_up_by_kind(e: EventKind, v: VenueIds)
    ensures
        match e {
            EventKind::CloseOpening { target } | EventKind::OpenOpening { target } =>
                spec_event_target_known(e, v) <==> exists|j: int|
                    0 <= j < v.openings@.len() && (#[trigger] v.openings@[j])@ == target.0@,
            EventKind::BlockLink { target } | EventKind::UnblockLink { target } =>
                spec_event_target_known(e, v) <==> exists|j: int|
                    0 <= j < v.links@.len() && (#[trigger] v.links@[j])@ == target.0@,
            EventKind::CloseComponent { target } | EventKind::OpenComponent { target } =>
                spec_event_target_known(e, v) <==> exists|j: int|
                    0 <= j < v.components@.len() && (#[trigger] v.components@[j])@ == target.0@,
            EventKind::Alarm { .. } => spec_event_target_known(e, v),
        },
{
}

/// An itinerary goal is looked up in the venue's list for its kind, and only
/// there; the nearest exit always exists.
pub proof fn lemma_goals_are_looked_up_by_kind(goal: Goal, v: VenueIds)
    ensures
        match goal {
            Goal::Zone { id } => spec_goal_known(goal, v) <==> exists|j: int|
                0 <= j < v.zones@.len() && (#[trigger] v.zones@[j])@ == id.0@,
            Goal::Component { id } => spec_goal_known(goal, v) <==> exists|j: int|
                0 <= j < v.components@.len() && (#[trigger] v.components@[j])@ == id.0@,
            Goal::Waypoint { id } => spec_goal_known(goal, v) <==> exists|j: int|
                0 <= j < v.waypoints@.len() && (#[trigger] v.waypoints@[j])@ == id.0@,
            Goal::Opening { id } => spec_goal_known(goal, v) <==> exists|j: int|
                0 <= j < v.openings@.len() && (#[trigger] v.openings@[j])@ == id.0@,
            Goal::NearestExit => spec_goal_known(goal, v),
        },
{
}

/// An evacuation is flagged as having no alarm exactly when the mode is
/// evacuation and no event is an alarm: any alarm at all silences the
/// warning, and no other mode ever raises it.
pub proof fn lemma_evacuation_warning_needs_no_alarm(mode: SimMode, events: Seq<EventKind>)
    ensures
        spec_evacuation_without_alarm(mode, events) <==> (mode == SimMode::Evacuation && !exists|i: int|
            0 <= i < events.len() && #[trigger] events[i] is Alarm),
        forall|i: int|
            0 <= i < events.len() && #[trigger] events[i] is Alarm ==> !spec_evacuation_without_alarm(
                mode,
                events,
            ),
        mode != SimMode::Evacuation ==> !spec_evacuation_without_alarm(mode, events),
{
}

/// A missing target is named by its kind and its quoted id: an opening, a
/// link or a component.
pub proof fn lemma_target_names_say_kind_and_id(e: EventKind)
    ensures
        match e {
            EventKind::CloseOpening { target } | EventKind::OpenOpening { target } => spec_target_name(e)
                == "opening '"@ + target.0@ + "'"@,
            EventKind::BlockLink { target } | EventKind::UnblockLink { target } => spec_target_name(e)
                == "link '"@ + target.0@ + "'"@,
            EventKind::CloseComponent { target } | EventKind::OpenComponent { target } =>
                spec_target_name(e) == "component '"@ + target.0@ + "'"@,
            EventKind::Alarm { .. } => true,
        },
{
}

/// A missing goal is named by its kind and its quoted id, and the finding for
/// step `step` says so after the step number.
pub proof fn lemma_goal_names_say_kind_and_id(step: nat, goal: Goal)
    ensures
        spec_orphan_goal_message(step, goal) == "step "@ + spec_decimal(step) + ": references unknown "@
            + spec_goal_name(goal),
        match goal {
            Goal::Zone { id } => spec_goal_name(goal) == "zone '"@ + id.0@ + "'"@,
            Goal::Component { id } => spec_goal_name(goal) == "component '"@ + id.0@ + "'"@,
            Goal::Waypoint { id } => spec_goal_name(goal) == "waypoint '"@ + id.0@ + "'"@,
            Goal::Opening { id } => spec_goal_name(goal) == "opening '"@ + id.0@ + "'"@,
            Goal::NearestExit => true,
        },
{
}

/// Does the itinerary goal refer to something the venue has?
pub fn goal_known(goal: &Goal, v: &VenueIds) -> (r: bool)
    ensures
        r == spec_goal_known(*goal, *v),
{
    match goal {
        Goal::Zone { id } => contains_id(&v.zones, &id.0),
        Goal::Component { id } => contains_id(&v.components, &id.0),
        Goal::Waypoint { id } => contains_id(&v.waypoints, &id.0),
        Goal::Opening { id } => contains_id(&v.openings, &id.0),
        Goal::NearestExit => true,
    }
}

/// Does the event's target exist in the venue?
pub fn event_target_known(e: &EventKind, v: &VenueIds) -> (r: bool)
    ensures
        r == spec_event_target_known(*e, *v),
{
    match e {
        EventKind::CloseOpening { target } | EventKind::OpenOpening { target } => contains_id(
            &v.openings,
            &target.0,
        ),
        EventKind::BlockLink { target } | EventKind::UnblockLink { target } => contains_id(
            &v.links,
            &target.0,
        ),
        EventKind::CloseComponent { target } | EventKind::OpenComponent { target } =>
            contains_id(&v.components, &target.0),
        EventKind::Alarm { .. } => true,
    }
}

/// An evacuation with no alarm event never triggers egress.
pub open spec fn spec_evacuation_without_alarm(mode: SimMode, events: Seq<EventKind>) -> bool {
    mode == SimMode::Evacuation && forall|i: int|
        0 <= i < events.len() ==> !(#[trigger] events[i] is Alarm)
}

/// Is this an evacuation whose events never sound an alarm?
pub fn evacuation_without_alarm(mode: SimMode, events: &Vec<EventKind>) -> (r: bool)
    ensures
        r == spec_evacuation_without_alarm(mode, events@),
{
    match mode {
        SimMode::Evacuation => {},
        _ => {
            return false;
        },
    }
    let mut i: usize = 0;
    while i < events.len()
        invariant
            i <= events@.len(),
            forall|j: int| 0 <= j < i ==> !(#[trigger] events@[j] is Alarm),
        decreases events.len() - i,
    {
        match &events[i] {
            EventKind::Alarm { .. } => {
                return false;
            },
            _ => {},
        }
        i += 1;
    }
    true
}


/// What a goal names, for a finding: its kind and id, as `zone 'id'`.
pub open spec fn spec_goal_name(goal: Goal) -> Seq<char> {
    match goal {
        Goal::Zone { id } => "zone '"@ + id.0@ + "'"@,
        Goal::Component { id } => "component '"@ + id.0@ + "'"@,
        Goal::Waypoint { id } => "waypoint '"@ + id.0@ + "'"@,
        Goal::Opening { id } => "opening '"@ + id.0@ + "'"@,
        Goal::NearestExit => "the nearest exit"@,
    }
}

/// What an event targets, for a finding: its kind and id, as `link 'id'`.
pub open spec fn spec_target_name(e: EventKind) -> Seq<char> {
    match e {
        EventKind::CloseOpening { target } | EventKind::OpenOpening { target } => "opening '"@
            + target.0@ + "'"@,
        EventKind::BlockLink { target } | EventKind::UnblockLink { target } => "link '"@
            + target.0@ + "'"@,
        EventKind::CloseComponent { target } | EventKind::OpenComponent { target } =>
            "component '"@ + target.0@ + "'"@,
        EventKind::Alarm { .. } => "the alarm"@,
    }
}

/// `kind` followed by the quoted `id`.
fn quoted(kind: &str, id: &String) -> (r: String)
    ensures
        r@ == kind@ + id@ + "'"@,
{
    String::from_str(kind).concat(id.as_str()).concat("'")
}

/// The thing a goal names, when the venue does not have it; `None` when it
/// does (the nearest exit always exists).
pub fn missing_goal(goal: &Goal, v: &VenueIds) -> (r: Option<String>)
    ensures
        r is None <==> spec_goal_known(*goal, *v),
        r matches Some(s) ==> s@ == spec_goal_name(*goal),
{
    if goal_known(goal, v) {
        return None;
    }
    match goal {
        Goal::Zone { id } => Some(quoted("zone '", &id.0)),
        Goal::Component { id } => Some(quoted("component '", &id.0)),
        Goal::Waypoint { id } => Some(quoted("waypoint '", &id.0)),
        Goal::Opening { id } => Some(quoted("opening '", &id.0)),
        Goal::NearestExit => None,
    }
}

/// The thing an event targets, when the venue does not have it; `None` when
/// it does (an alarm targets nothing).
pub fn missing_target(e: &EventKind, v: &VenueIds) -> (r: Option<String>)
    ensures
        r is None <==> spec_event_target_known(*e, *v),
        r matches Some(s) ==> s@ == spec_target_name(*e),
{
    if event_target_known(e, v) {
        return None;
    }
    match e {
        EventKind::CloseOpening { target } | EventKind::OpenOpening { target } => Some(
            quoted("opening '", &target.0),
        ),
        EventKind::BlockLink { target } | EventKind::UnblockLink { target } => Some(
            quoted("link '", &target.0),
        ),
        EventKind::CloseComponent { target } | EventKind::OpenComponent { target } => Some(
            quoted("component '", &target.0),
        ),
        EventKind::Alarm { .. } => None,
    }
}


/// The message for itinerary step `step` whose goal names something missing.
pub open spec fn spec_orphan_goal_message(step: nat, goal: Goal) -> Seq<char> {
    "step "@ + spec_decimal(step) + ": references unknown "@ + spec_goal_name(goal)
}

/// The error for itinerary step `step` of population `pid` when its goal
/// names something the venue does not have; `None` when the goal is known.
pub fn orphan_goal_issue(pid: &str, step: usize, goal: &Goal, v: &VenueIds) -> (r: Option<Issue>)
    ensures
        r is None <==> spec_goal_known(*goal, *v),
        r matches Some(i) ==> {
            &&& i.severity == Severity::Error
            &&& i.code@ == "itinerary.orphan_goal"@
            &&& i.element matches Some(e) && e@ == pid@
            &&& i.message@ == spec_orphan_goal_message(step as nat, *goal)
        },
{
    match missing_goal(goal, v) {
        None => None,
        Some(what) => {
            let msg = String::from_str("step ").concat(decimal(step).as_str()).concat(
                ": references unknown ",
            ).concat(what.as_str());
            Some(Issue::error("itinerary.orphan_goal", pid.to_owned(), msg))
        },
    }
}

} // verus!
