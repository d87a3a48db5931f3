//! The three-valued answer of an orientation test.
//!
//! Computing an orientation needs exact arithmetic on coordinates and is done
//! by the host; everything that only *combines* orientation answers lives
//! here.

use vstd::prelude::*;

verus! {

/// Which side of a directed line a point falls on.
#[derive(Clone, Copy, Debug, PartialEq, Eq, Structural)]
pub enum Orientation {
    /// `c` is to the left of the directed line `a → b` (counter-clockwise turn).
    CounterClockwise,
    /// `c` is to the right of the directed line `a → b` (clockwise turn).
    Clockwise,
    /// `a`, `b`, `c` are exactly collinear.
    Collinear,
}

/// `+1` counter-clockwise, `-1` clockwise, `0` collinear.
pub open spec fn orientation_sign(o: Orientation) -> int {
    match o {
        Orientation::CounterClockwise => 1,
        Orientation::Clockwise => -1,
        Orientation::Collinear => 0,
    }
}

/// The orientation seen when the direction of travel is reversed.
pub open spec fn orientation_reversed(o: Orientation) -> Orientation {
    match o {
        Orientation::CounterClockwise => Orientation::Clockwise,
        Orientation::Clockwise => Orientation::CounterClockwise,
        Orientation::Collinear => Orientation::Collinear,
    }
}

impl Orientation {
    pub fn is_collinear(self) -> (r: bool)
        ensures
            r == (self == Orientation::Collinear),
    {
        matches!(self, Orientation::Collinear)
    }

    /// `+1` counter-clockwise, `-1` clockwise, `0` collinear.
    pub fn sign(self) -> (s: i32)
        ensures
            s as int == orientation_sign(self),
    {
        match self {
            Orientation::CounterClockwise => 1,
            Orientation::Clockwise => -1,
            Orientation::Collinear => 0,
        }
    }

    pub fn reversed(self) -> (r: Orientation)
        ensures
            r == orientation_reversed(self),
    {
        match self {
            Orientation::CounterClockwise => Orientation::Clockwise,
            Orientation::Clockwise => Orientation::CounterClockwise,
            Orientation::Collinear => Orientation::Collinear,
        }
    }
}

/// Reversing twice gives back the original orientation, reversal negates the
/// sign, and an orientation is collinear exactly when its sign is zero.
pub proof fn lemma_orientation_algebra(o: Orientation)
    ensures
        orientation_reversed(orientation_reversed(o)) == o,
        orientation_sign(orientation_reversed(o)) == -orientation_sign(o),
        (orientation_sign(o) == 0) == (o == Orientation::Collinear),
        (orientation_reversed(o) == Orientation::Collinear) == (o == Orientation::Collinear),
{
}

/// The sign determines the orientation: two orientations with the same sign
/// are the same orientation.
pub proof fn lemma_sign_is_injective(a: Orientation, b: Orientation)
    requires
        orientation_sign(a) == orientation_sign(b),
    ensures
        a == b,
{
}

} // verus!
