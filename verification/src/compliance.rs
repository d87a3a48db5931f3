//! The vocabulary of life-safety rules: what a rule measures, how it compares,
//! and what it concluded.

use vstd::prelude::*;

verus! {

/// What a rule measures.
///
/// A closed set rather than an expression language, so a rule pack can be
/// checked by reading it.
#[derive(Clone, Copy, Debug, PartialEq, Eq, Structural)]
pub enum Subject {
    /// Occupancy against the load the floor area permits.
    OccupantLoad,
    /// Number of separate means of egress.
    ExitCount,
    /// Total clear egress width, metres.
    ExitWidth,
    /// Clear width of the narrowest exit, metres.
    NarrowestExit,
    /// Time to clear the venue, seconds.
    EgressTime,
    /// Peak crowd density, persons/m².
    PeakDensity,
    /// Longest travel distance to an exit, metres.
    TravelDistance,
}

/// How the measured value is compared against the limit.
#[derive(Clone, Copy, Debug, PartialEq, Eq, Structural)]
pub enum Compare {
    /// The measured value must not exceed the limit.
    AtMost,
    /// The measured value must reach the limit.
    AtLeast,
}

/// Whether a rule passed, and why.
#[derive(Clone, Copy, Debug, PartialEq, Eq, Structural)]
pub enum Status {
    Pass,
    Fail,
    /// The facts needed are not available — usually because the venue has not
    /// been simulated. Distinct from a pass, and must never be shown as one.
    NotAssessed,
}

/// How a finding names what a subject measures.
pub open spec fn spec_subject_name(s: Subject) -> Seq<char> {
    match s {
        Subject::OccupantLoad => "occupancy"@,
        Subject::ExitCount => "the number of exits"@,
        Subject::ExitWidth => "total egress width"@,
        Subject::NarrowestExit => "the narrowest exit"@,
        Subject::EgressTime => "egress time"@,
        Subject::PeakDensity => "peak density"@,
        Subject::TravelDistance => "travel distance"@,
    }
}

/// The unit a subject is measured in.
pub open spec fn spec_subject_unit(s: Subject) -> Seq<char> {
    match s {
        Subject::OccupantLoad | Subject::ExitCount => "persons"@,
        Subject::ExitWidth | Subject::NarrowestExit | Subject::TravelDistance => "m"@,
        Subject::EgressTime => "s"@,
        Subject::PeakDensity => "persons/m²"@,
    }
}

pub fn subject_name(s: Subject) -> (r: &'static str)
    ensures
        r@ == spec_subject_name(s),
{
    match s {
        Subject::OccupantLoad => "occupancy",
        Subject::ExitCount => "the number of exits",
        Subject::ExitWidth => "total egress width",
        Subject::NarrowestExit => "the narrowest exit",
        Subject::EgressTime => "egress time",
        Subject::PeakDensity => "peak density",
        Subject::TravelDistance => "travel distance",
    }
}

pub fn subject_unit(s: Subject) -> (r: &'static str)
    ensures
        r@ == spec_subject_unit(s),
{
    match s {
        Subject::OccupantLoad | Subject::ExitCount => "persons",
        Subject::ExitWidth | Subject::NarrowestExit | Subject::TravelDistance => "m",
        Subject::EgressTime => "s",
        Subject::PeakDensity => "persons/m²",
    }
}

} // verus!
