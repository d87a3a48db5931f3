//! Ring classifications, and convexity decided from a ring's turn directions.
//!
//! Whether a ring turns left or right at each vertex is an orientation answer
//! the host computes with exact arithmetic; whether those turns make a convex
//! ring is decided here.

use vstd::prelude::*;
use vstd::string::StringExecFns;
use crate::predicates::{orientation_reversed, Orientation};
use crate::text::{decimal, spec_decimal};

verus! {

/// Ring winding direction.
#[derive(Clone, Copy, Debug, PartialEq, Eq, Structural)]
pub enum Winding {
    CounterClockwise,
    Clockwise,
    /// Zero area — fewer than three distinct points, or all collinear.
    Degenerate,
}

/// A structural defect in a polygon.
#[derive(Clone, Debug, PartialEq, Structural)]
pub enum Defect {
    /// Fewer than three vertices.
    TooFewVertices { count: usize },
    /// A coordinate is NaN or infinite.
    NonFinite { index: usize },
    /// Two consecutive vertices are identical.
    RepeatedVertex { index: usize },
    /// Two non-adjacent edges cross. The polygon is not simple.
    SelfIntersection { edge_a: usize, edge_b: usize },
    /// The ring encloses no area.
    ZeroArea,
}

impl Defect {
    /// How the defect reads in the editor's validation panel.
    pub open spec fn text(&self) -> Seq<char> {
        match *self {
            Defect::TooFewVertices { count } => "polygon has "@ + spec_decimal(count as nat)
                + " vertices, needs at least 3"@,
            Defect::NonFinite { index } => "vertex "@ + spec_decimal(index as nat)
                + " is not finite"@,
            Defect::RepeatedVertex { index } => "vertex "@ + spec_decimal(index as nat)
                + " repeats the previous vertex"@,
            Defect::SelfIntersection { edge_a, edge_b } => "edges "@ + spec_decimal(edge_a as nat)
                + " and "@ + spec_decimal(edge_b as nat) + " intersect"@,
            Defect::ZeroArea => "polygon encloses zero area"@,
        }
    }

    /// How the defect reads in the editor's validation panel.
    pub fn to_string(&self) -> (r: String)
        ensures
            r@ == self.text(),
    {
        match *self {
            Defect::TooFewVertices { count } => String::from_str("polygon has ").concat(
                decimal(count).as_str(),
            ).concat(" vertices, needs at least 3"),
            Defect::NonFinite { index } => String::from_str("vertex ").concat(
                decimal(index).as_str(),
            ).concat(" is not finite"),
            Defect::RepeatedVertex { index } => String::from_str("vertex ").concat(
                decimal(index).as_str(),
            ).concat(" repeats the previous vertex"),
            Defect::SelfIntersection { edge_a, edge_b } => String::from_str("edges ").concat(
                decimal(edge_a).as_str(),
            ).concat(" and ").concat(decimal(edge_b).as_str()).concat(" intersect"),
            Defect::ZeroArea => String::from_str("polygon encloses zero area"),
        }
    }
}

/// Where a point sits relative to a ring.
#[derive(Clone, Copy, Debug, PartialEq, Eq, Structural)]
pub enum PointLocation {
    Inside,
    Outside,
    /// Exactly on an edge or vertex.
    Boundary,
}

/// A ring whose turn at vertex `i + 1` is `turns[i]` is convex: it has at
/// least three vertices, turns somewhere, and every non-straight turn goes the
/// same way.
pub open spec fn turns_are_convex(turns: Seq<Orientation>) -> bool {
    &&& turns.len() >= 3
    &&& exists|i: int| 0 <= i < turns.len() && #[trigger] turns[i] != Orientation::Collinear
    &&& forall|i: int, j: int|
        0 <= i < turns.len() && 0 <= j < turns.len() && #[trigger] turns[i]
            != Orientation::Collinear && #[trigger] turns[j] != Orientation::Collinear
            ==> turns[i] == turns[j]
}

/// The turns of the same ring walked the other way: in reverse order, each
/// one reversed.
pub open spec fn turns_walked_backwards(turns: Seq<Orientation>) -> Seq<Orientation> {
    Seq::new(turns.len(), |i: int| orientation_reversed(turns[turns.len() - 1 - i]))
}

/// Is the ring convex, given its turn directions in order? Degenerate rings
/// (fewer than three vertices, or no turn at all) are not convex.
pub fn is_convex_turns(turns: &Vec<Orientation>) -> (r: bool)
    ensures
        r == turns_are_convex(turns@),
{
    let n = turns.len();
    if n < 3 {
        return false;
    }
    let mut seen: Option<Orientation> = None;
    let mut i: usize = 0;
    while i < n
        invariant
            n == turns@.len(),
            i <= n,
            seen is None ==> forall|j: int| 0 <= j < i ==> turns@[j] == Orientation::Collinear,
            seen matches Some(o) ==> o != Orientation::Collinear && (exists|j: int|
                0 <= j < i && #[trigger] turns@[j] == o) && forall|j: int|
                0 <= j < i && turns@[j] != Orientation::Collinear ==> #[trigger] turns@[j] == o,
        decreases n - i,
    {
        let o = turns[i];
        if !o.is_collinear() {
            match seen {
                None => {
                    seen = Some(o);
                },
                Some(prev) => {
                    if prev != o {
                        assert(!turns_are_convex(turns@)) by {
                            let j = choose|j: int| 0 <= j < i && #[trigger] turns@[j] == prev;
                            assert(turns@[j] != Orientation::Collinear && turns@[i as int]
                                != Orientation::Collinear);
                        }
                        return false;
                    }
                },
            }
        }
        i += 1;
    }
    match seen {
        None => {
            assert(!turns_are_convex(turns@));
            false
        },
        Some(o) => {
            assert(turns_are_convex(turns@)) by {
                let j = choose|j: int| 0 <= j < n && #[trigger] turns@[j] == o;
                assert(turns@[j] != Orientation::Collinear);
            }
            true
        },
    }
}

/// Convexity does not depend on winding: a ring is convex exactly when the
/// same ring walked the other way is.
pub proof fn lemma_convexity_ignores_winding(turns: Seq<Orientation>)
    ensures
        turns_are_convex(turns) == turns_are_convex(turns_walked_backwards(turns)),
{
    let b = turns_walked_backwards(turns);
    let n = turns.len() as int;
    assert forall|i: int| 0 <= i < n implies #[trigger] b[i] == orientation_reversed(
        turns[n - 1 - i],
    ) && (b[i] != Orientation::Collinear) == (turns[n - 1 - i] != Orientation::Collinear) by {}
    if turns_are_convex(turns) {
        let k = choose|k: int| 0 <= k < n && #[trigger] turns[k] != Orientation::Collinear;
        assert(b[n - 1 - k] != Orientation::Collinear);
        assert forall|i: int, j: int|
            0 <= i < n && 0 <= j < n && #[trigger] b[i] != Orientation::Collinear && #[trigger] b[j]
                != Orientation::Collinear implies b[i] == b[j] by {
            assert(turns[n - 1 - i] == turns[n - 1 - j]);
        }
    }
    if turns_are_convex(b) {
        let k = choose|k: int| 0 <= k < n && #[trigger] b[k] != Orientation::Collinear;
        assert(turns[n - 1 - k] != Orientation::Collinear);
        assert forall|i: int, j: int|
            0 <= i < n && 0 <= j < n && #[trigger] turns[i] != Orientation::Collinear
                && #[trigger] turns[j] != Orientation::Collinear implies turns[i] == turns[j] by {
            assert(b[n - 1 - i] != Orientation::Collinear);
            assert(b[n - 1 - j] != Orientation::Collinear);
            assert(b[n - 1 - i] == b[n - 1 - j]);
        }
    }
}

} // verus!
