//! Deciding which triangles are floor and which are solid.
//!
//! A constrained triangulation tiles the whole convex hull, including the space
//! outside the building and the inside of every pillar. Classification
//! separates floor from solid by counting wall crossings from outside:
//!
//! ```text
//!   depth 0   outside the building        solid
//!   depth 1   inside the outline          WALKABLE
//!   depth 2   inside a pillar             solid
//!   depth 3   a courtyard within a pillar WALKABLE
//! ```
//!
//! So **odd depth is walkable**. Each triangle's depth is the *least* number of
//! constrained edges crossed on any route from outside the hull, which is
//! well defined even when a wall run has a gap; a separate consistency pass
//! then reports the places where the rings are not closed.
//!
//! The least crossing count is characterised here without paths: a labelling
//! *respects the crossings* when no hull triangle is labelled above what its
//! hull edge allows and no step across an edge lowers the count by more than
//! the edge costs. The crossing depths are the greatest such labelling.

use vstd::prelude::*;
use vstd::string::StringExecFns;
use crate::text::{decimal, spec_decimal};
use crate::triangulation::{
    edge_key, lemma_slot, links_in_range, spec_edge_key, spec_live_count, Triangle, Triangulation,
    TriIdx, NO_NEIGHBOUR,
};

verus! {

/// Per-triangle classification for a mesh.
#[derive(Clone, Debug)]
pub struct Regions {
    /// Nesting depth, indexed by triangle. `u32::MAX` for triangles the fill
    /// never reached.
    pub depth: Vec<u32>,
    /// `true` where an agent can stand — odd nesting depth.
    pub walkable: Vec<bool>,
    /// Diagnostics for the compiler to surface in the editor.
    pub warnings: Vec<RegionWarning>,
}

#[derive(Clone, Copy, Debug, PartialEq, Eq, Structural)]
pub enum RegionWarning {
    /// No triangle touched the convex hull, so there was nothing to seed from.
    NoBoundary,
    /// A triangle was unreachable from the hull. The mesh is disconnected.
    Unreachable { triangle: TriIdx },
    /// Nothing was classified walkable. Almost always an unclosed outline
    /// letting the exterior fill leak inward.
    NoWalkableArea,
    /// Two adjacent triangles disagree about nesting depth, meaning "inside"
    /// is not well defined here. The constraint rings are not closed.
    InconsistentNesting { a: TriIdx, b: TriIdx },
}

impl RegionWarning {
    /// How the warning reads in the editor.
    pub open spec fn text(&self) -> Seq<char> {
        match *self {
            RegionWarning::NoBoundary => "mesh has no boundary edge to seed from"@,
            RegionWarning::Unreachable { triangle } => "triangle "@ + spec_decimal(triangle as nat)
                + " is unreachable from the mesh boundary"@,
            RegionWarning::NoWalkableArea =>
                "no walkable area found; the floor outline is probably not closed"@,
            RegionWarning::InconsistentNesting { a, b } => "triangles "@ + spec_decimal(a as nat)
                + " and "@ + spec_decimal(b as nat)
                + " disagree about inside/outside; a wall run is not closed"@,
        }
    }

    /// How the warning reads in the editor.
    pub fn to_string(&self) -> (r: String)
        ensures
            r@ == self.text(),
    {
        match *self {
            RegionWarning::NoBoundary => String::from_str("mesh has no boundary edge to seed from"),
            RegionWarning::Unreachable { triangle } => String::from_str("triangle ").concat(
                decimal(triangle).as_str(),
            ).concat(" is unreachable from the mesh boundary"),
            RegionWarning::NoWalkableArea => String::from_str(
                "no walkable area found; the floor outline is probably not closed",
            ),
            RegionWarning::InconsistentNesting { a, b } => String::from_str("triangles ").concat(
                decimal(a).as_str(),
            ).concat(" and ").concat(decimal(b).as_str()).concat(
                " disagree about inside/outside; a wall run is not closed",
            ),
        }
    }
}

// ---------------------------------------------------------------------------
// Specification
// ---------------------------------------------------------------------------

/// The depth a live triangle on the hull starts from: reaching it across an
/// open hull edge costs nothing, across a walled one costs one crossing.
/// `None` for deleted triangles and triangles with no hull edge.
pub open spec fn seed_depth(t: Triangle) -> Option<u32> {
    let h0 = t.n[0] == NO_NEIGHBOUR;
    let h1 = t.n[1] == NO_NEIGHBOUR;
    let h2 = t.n[2] == NO_NEIGHBOUR;
    if t.deleted || !(h0 || h1 || h2) {
        None
    } else if (h0 && !t.constrained[0]) || (h1 && !t.constrained[1]) || (h2
        && !t.constrained[2]) {
        Some(0u32)
    } else {
        Some(1u32)
    }
}

/// Crossing edge `i` of `t` costs one if it is a wall, nothing otherwise.
pub open spec fn crossing_weight(t: Triangle, i: int) -> int {
    if t.constrained[i] {
        1
    } else {
        0
    }
}

/// Edge `i` of triangle `cur` leads to a live triangle.
pub open spec fn step_ok(tris: Seq<Triangle>, cur: int, i: int) -> bool {
    let nb = tris[cur].n[i];
    nb != NO_NEIGHBOUR && nb < tris.len() && !tris[nb as int].deleted
}

/// `m` never claims a triangle is deeper than some route from outside shows.
pub open spec fn respects_crossings(tris: Seq<Triangle>, m: Seq<u32>) -> bool {
    &&& m.len() == tris.len()
    &&& forall|t: int|
        0 <= t < tris.len() && seed_depth(tris[t]) is Some ==> #[trigger] m[t] <= seed_depth(
            tris[t],
        )->0
    &&& forall|cur: int, i: int|
        #![trigger m[cur], tris[cur].n[i]]
        0 <= cur < tris.len() && 0 <= i < 3 && m[cur] < u32::MAX && step_ok(tris, cur, i)
            ==> m[tris[cur].n[i] as int] <= m[cur] + crossing_weight(tris[cur], i)
}

/// Every labelling that respects the crossings lies below `d`.
pub open spec fn dominates(tris: Seq<Triangle>, d: Seq<u32>) -> bool {
    forall|m: Seq<u32>, x: int|
        #![trigger respects_crossings(tris, m), m[x]]
        respects_crossings(tris, m) && 0 <= x < tris.len() ==> m[x] <= d[x]
}

/// `d` is the crossing-depth labelling: it respects the crossings and is the
/// greatest labelling that does.
pub open spec fn is_crossing_depth(tris: Seq<Triangle>, d: Seq<u32>) -> bool {
    respects_crossings(tris, d) && dominates(tris, d)
}

/// An agent can stand on triangle `t`: it is live, reached, and at odd depth.
pub open spec fn spec_walkable(tris: Seq<Triangle>, d: Seq<u32>, t: int) -> bool {
    !tris[t].deleted && d[t] != u32::MAX && d[t] % 2 == 1
}

/// Some live triangle lies on the hull.
pub open spec fn has_seed(tris: Seq<Triangle>) -> bool {
    exists|t: int| 0 <= t < tris.len() && (#[trigger] seed_depth(tris[t])) is Some
}

/// `Unreachable` warnings for the live unreached triangles below `k`, in order.
pub open spec fn unreachable_upto(tris: Seq<Triangle>, d: Seq<u32>, k: int) -> Seq<RegionWarning>
    decreases k,
{
    if k <= 0 {
        Seq::empty()
    } else {
        let p = unreachable_upto(tris, d, k - 1);
        if !tris[k - 1].deleted && d[k - 1] == u32::MAX {
            p.push(RegionWarning::Unreachable { triangle: (k - 1) as TriIdx })
        } else {
            p
        }
    }
}

/// Edge `i` of triangle `idx` joins two reached live triangles whose depths
/// differ by something other than the cost of crossing it.
pub open spec fn nesting_conflict(tris: Seq<Triangle>, d: Seq<u32>, idx: int, i: int) -> bool {
    let nb = tris[idx].n[i];
    &&& !tris[idx].deleted
    &&& d[idx] != u32::MAX
    &&& nb != NO_NEIGHBOUR
    &&& nb < tris.len()
    &&& !tris[nb as int].deleted
    &&& d[nb as int] != u32::MAX
    &&& {
        let gap = if d[idx] >= d[nb as int] {
            d[idx] - d[nb as int]
        } else {
            d[nb as int] - d[idx]
        };
        gap != crossing_weight(tris[idx], i)
    }
}

/// The conflicting triangle pairs found in the first `s` edge slots, each
/// pair reported once, smaller index first, in order of discovery.
pub open spec fn conflicts_upto(tris: Seq<Triangle>, d: Seq<u32>, s: int) -> Seq<(TriIdx, TriIdx)>
    decreases s,
{
    if s <= 0 {
        Seq::empty()
    } else {
        let p = conflicts_upto(tris, d, s - 1);
        let idx = (s - 1) / 3;
        let i = (s - 1) % 3;
        let key = spec_edge_key(idx as TriIdx, tris[idx].n[i]);
        if nesting_conflict(tris, d, idx, i) && !p.contains(key) {
            p.push(key)
        } else {
            p
        }
    }
}

/// The warnings a classification reports, in the order it reports them.
pub open spec fn region_warnings(tris: Seq<Triangle>, d: Seq<u32>, w: Seq<bool>) -> Seq<
    RegionWarning,
> {
    let boundary = if has_seed(tris) {
        Seq::empty()
    } else {
        seq![RegionWarning::NoBoundary]
    };
    let conflicts = conflicts_upto(tris, d, 3 * tris.len() as int).map_values(
        |k: (TriIdx, TriIdx)| RegionWarning::InconsistentNesting { a: k.0, b: k.1 },
    );
    let leak = if !w.contains(true) && spec_live_count(tris) > 0 {
        seq![RegionWarning::NoWalkableArea]
    } else {
        Seq::empty()
    };
    boundary + unreachable_upto(tris, d, tris.len() as int) + conflicts + leak
}

/// Number of `Unreachable` warnings.
pub open spec fn count_unreachable(ws: Seq<RegionWarning>) -> nat
    decreases ws.len(),
{
    if ws.len() == 0 {
        0
    } else {
        count_unreachable(ws.drop_last()) + if ws.last() is Unreachable {
            1nat
        } else {
            0nat
        }
    }
}

/// Number of live triangles below `k` that depth `d` leaves unreached.
pub open spec fn unreached_count(tris: Seq<Triangle>, d: Seq<u32>, k: int) -> nat
    decreases k,
{
    if k <= 0 {
        0
    } else {
        unreached_count(tris, d, k - 1) + if !tris[k - 1].deleted && d[k - 1] == u32::MAX {
            1nat
        } else {
            0nat
        }
    }
}

proof fn lemma_count_unreachable_concat(a: Seq<RegionWarning>, b: Seq<RegionWarning>)
    ensures
        count_unreachable(a + b) == count_unreachable(a) + count_unreachable(b),
    decreases b.len(),
{
    if b.len() > 0 {
        lemma_count_unreachable_concat(a, b.drop_last());
        assert((a + b).drop_last() =~= a + b.drop_last());
    } else {
        assert(a + b =~= a);
    }
}

proof fn lemma_unreachable_upto_count(tris: Seq<Triangle>, d: Seq<u32>, k: int)
    ensures
        count_unreachable(unreachable_upto(tris, d, k)) == unreached_count(tris, d, k),
    decreases k,
{
    if k > 0 {
        lemma_unreachable_upto_count(tris, d, k - 1);
        let p = unreachable_upto(tris, d, k - 1);
        if !tris[k - 1].deleted && d[k - 1] == u32::MAX {
            assert(p.push(RegionWarning::Unreachable { triangle: (k - 1) as TriIdx }).drop_last()
                =~= p);
        }
    }
}

proof fn lemma_no_unreachable_among_conflicts(ks: Seq<(TriIdx, TriIdx)>)
    ensures
        count_unreachable(
            ks.map_values(|k: (TriIdx, TriIdx)| RegionWarning::InconsistentNesting { a: k.0, b: k.1 }),
        ) == 0,
    decreases ks.len(),
{
    if ks.len() > 0 {
        lemma_no_unreachable_among_conflicts(ks.drop_last());
        assert(ks.map_values(
            |k: (TriIdx, TriIdx)| RegionWarning::InconsistentNesting { a: k.0, b: k.1 },
        ).drop_last() =~= ks.drop_last().map_values(
            |k: (TriIdx, TriIdx)| RegionWarning::InconsistentNesting { a: k.0, b: k.1 },
        ));
    }
}

/// The warnings of a classification count one `Unreachable` per live
/// triangle the fill never reached, and no more: the number a disconnected
/// floor reports is the number of triangles cut off from the rest.
pub proof fn lemma_unreachable_warnings_count_unreached(
    tris: Seq<Triangle>,
    d: Seq<u32>,
    w: Seq<bool>,
)
    ensures
        count_unreachable(region_warnings(tris, d, w)) == unreached_count(tris, d, tris.len() as int),
{
    let boundary = if has_seed(tris) {
        Seq::empty()
    } else {
        seq![RegionWarning::NoBoundary]
    };
    let ks = conflicts_upto(tris, d, 3 * tris.len() as int);
    let conflicts = ks.map_values(
        |k: (TriIdx, TriIdx)| RegionWarning::InconsistentNesting { a: k.0, b: k.1 },
    );
    let leak = if !w.contains(true) && spec_live_count(tris) > 0 {
        seq![RegionWarning::NoWalkableArea]
    } else {
        Seq::empty()
    };
    let unreached = unreachable_upto(tris, d, tris.len() as int);
    assert(count_unreachable(boundary) == 0) by {
        if !has_seed(tris) {
            assert(boundary.drop_last() =~= Seq::<RegionWarning>::empty());
            assert(count_unreachable(boundary.drop_last()) == 0);
            assert(boundary.last() == RegionWarning::NoBoundary);
        }
    }
    assert(count_unreachable(leak) == 0) by {
        if !w.contains(true) && spec_live_count(tris) > 0 {
            assert(leak.drop_last() =~= Seq::<RegionWarning>::empty());
            assert(count_unreachable(leak.drop_last()) == 0);
            assert(leak.last() == RegionWarning::NoWalkableArea);
        }
    }
    lemma_no_unreachable_among_conflicts(ks);
    lemma_unreachable_upto_count(tris, d, tris.len() as int);
    lemma_count_unreachable_concat(boundary, unreached);
    lemma_count_unreachable_concat(boundary + unreached, conflicts);
    lemma_count_unreachable_concat(boundary + unreached + conflicts, leak);
}

/// Number of `true` entries.
pub open spec fn count_true(s: Seq<bool>) -> nat
    decreases s.len(),
{
    if s.len() == 0 {
        0
    } else {
        count_true(s.drop_last()) + if s.last() {
            1nat
        } else {
            0nat
        }
    }
}

/// Sum of a labelling, the measure that strictly falls while relaxing.
pub open spec fn total(s: Seq<u32>) -> nat
    decreases s.len(),
{
    if s.len() == 0 {
        0
    } else {
        total(s.drop_last()) + s.last() as nat
    }
}

proof fn lemma_total_update(s: Seq<u32>, i: int, v: u32)
    requires
        0 <= i < s.len(),
    ensures
        total(s.update(i, v)) + s[i] == total(s) + v,
    decreases s.len(),
{
    if i < s.len() - 1 {
        lemma_total_update(s.drop_last(), i, v);
        assert(s.update(i, v).drop_last() =~= s.drop_last().update(i, v));
    } else {
        assert(s.update(i, v).drop_last() =~= s.drop_last());
    }
}

// ---------------------------------------------------------------------------
// Laws
// ---------------------------------------------------------------------------

/// The crossing-depth labelling of a mesh is unique: two labellings that both
/// respect the crossings and dominate every labelling that does are equal.
pub proof fn lemma_crossing_depth_unique(tris: Seq<Triangle>, d1: Seq<u32>, d2: Seq<u32>)
    requires
        is_crossing_depth(tris, d1),
        is_crossing_depth(tris, d2),
    ensures
        d1 == d2,
{
    assert forall|x: int| 0 <= x < d1.len() implies d1[x] == d2[x] by {
        assert(respects_crossings(tris, d1) && d1[x] <= d2[x]);
        assert(respects_crossings(tris, d2) && d2[x] <= d1[x]);
    }
    assert(d1 =~= d2);
}

/// A hull triangle whose hull edge is open is at depth zero, hence solid; one
/// whose hull edges are all walls is at depth at most one.
pub proof fn lemma_open_hull_is_outside(tris: Seq<Triangle>, d: Seq<u32>, t: int)
    requires
        is_crossing_depth(tris, d),
        0 <= t < tris.len(),
        seed_depth(tris[t]) is Some,
    ensures
        seed_depth(tris[t]) == Some(0u32) ==> d[t] == 0 && !spec_walkable(tris, d, t),
        d[t] <= 1,
{
    assert(d[t] <= seed_depth(tris[t])->0);
}

// ---------------------------------------------------------------------------
// Implementation
// ---------------------------------------------------------------------------

fn seed_of(t: &Triangle) -> (r: Option<u32>)
    ensures
        r == seed_depth(*t),
{
    if t.deleted {
        return None;
    }
    let mut seed: Option<u32> = None;
    let mut i: usize = 0;
    while i < 3
        invariant
            i <= 3,
            !t.deleted,
            seed is None <==> forall|j: int| 0 <= j < i ==> t.n[j] != NO_NEIGHBOUR,
            seed == Some(0u32) <==> exists|j: int|
                0 <= j < i && t.n[j] == NO_NEIGHBOUR && !t.constrained[j],
            seed is Some ==> seed->0 <= 1,
        decreases 3 - i,
    {
        if t.n[i] == NO_NEIGHBOUR {
            let d: u32 = if t.constrained[i] {
                1
            } else {
                0
            };
            seed = match seed {
                None => Some(d),
                Some(s) => Some(if s < d {
                    s
                } else {
                    d
                }),
            };
        }
        i += 1;
    }
    assert(seed is None <==> !(t.n[0] == NO_NEIGHBOUR || t.n[1] == NO_NEIGHBOUR || t.n[2]
        == NO_NEIGHBOUR));
    assert(seed == Some(0u32) <==> ((t.n[0] == NO_NEIGHBOUR && !t.constrained[0]) || (t.n[1]
        == NO_NEIGHBOUR && !t.constrained[1]) || (t.n[2] == NO_NEIGHBOUR && !t.constrained[2])));
    seed
}

/// Lower `depth[nb]` to `next`, keeping every respecting labelling below it.
proof fn lemma_relax_keeps_dominance(
    tris: Seq<Triangle>,
    d: Seq<u32>,
    cur: int,
    i: int,
    next: u32,
)
    requires
        dominates(tris, d),
        d.len() == tris.len(),
        0 <= cur < tris.len(),
        0 <= i < 3,
        d[cur] < u32::MAX,
        step_ok(tris, cur, i),
        next == d[cur] + crossing_weight(tris[cur], i),
    ensures
        dominates(tris, d.update(tris[cur].n[i] as int, next)),
{
    let nb = tris[cur].n[i] as int;
    let d2 = d.update(nb, next);
    assert forall|m: Seq<u32>, x: int|
        #![trigger respects_crossings(tris, m), m[x]]
        respects_crossings(tris, m) && 0 <= x < tris.len() implies m[x] <= d2[x] by {
        assert(m[cur] <= d[cur]);
        if x == nb {
            assert(m[cur] < u32::MAX);
            assert(m[tris[cur].n[i] as int] <= m[cur] + crossing_weight(tris[cur], i));
        } else {
            assert(m[x] <= d[x]);
        }
    }
}

/// The starting labelling: hull triangles at their seed depth, all else
/// unreached.
fn seed_depths(tris: &Vec<Triangle>) -> (r: (Vec<u32>, bool))
    ensures
        r.0@.len() == tris@.len(),
        forall|x: int|
            0 <= x < tris@.len() ==> #[trigger] r.0@[x] == match seed_depth(tris@[x]) {
                Some(s) => s,
                None => u32::MAX,
            },
        r.1 == has_seed(tris@),
{
    let mut depth: Vec<u32> = Vec::new();
    let mut found = false;
    let mut idx: usize = 0;
    while idx < tris.len()
        invariant
            idx <= tris@.len(),
            depth@.len() == idx,
            forall|x: int|
                0 <= x < idx ==> #[trigger] depth@[x] == match seed_depth(tris@[x]) {
                    Some(s) => s,
                    None => u32::MAX,
                },
            found == exists|x: int| 0 <= x < idx && (#[trigger] seed_depth(tris@[x])) is Some,
        decreases tris.len() - idx,
    {
        let s = seed_of(&tris[idx]);
        match s {
            Some(d) => {
                depth.push(d);
                found = true;
            },
            None => {
                depth.push(u32::MAX);
                assert forall|x: int|
                    0 <= x < idx + 1 && (#[trigger] seed_depth(tris@[x])) is Some implies x
                    < idx by {}
            },
        }
        idx += 1;
    }
    (depth, found)
}

/// Classify every triangle as floor or solid.
///
/// Call on a compacted triangulation with adjacency built. The depths are the
/// crossing depths of the mesh (see [`is_crossing_depth`]); a triangle is
/// walkable when it is live and reached at odd depth; the warnings are, in
/// order: `NoBoundary` when no live triangle lies on the hull, `Unreachable`
/// for each live unreached triangle, `InconsistentNesting` for each adjacent
/// pair whose depths differ by other than the crossing cost, and
/// `NoWalkableArea` when live triangles exist but none is walkable.
#[verifier::spinoff_prover]
pub fn classify<P>(t: &Triangulation<P>) -> (r: Regions)
    requires
        links_in_range(t.triangles@),
    ensures
        r.depth@.len() == t.triangles@.len(),
        r.walkable@.len() == t.triangles@.len(),
        is_crossing_depth(t.triangles@, r.depth@),
        forall|i: int|
            0 <= i < t.triangles@.len() ==> #[trigger] r.walkable@[i] == spec_walkable(
                t.triangles@,
                r.depth@,
                i,
            ),
        r.warnings@ == region_warnings(t.triangles@, r.depth@, r.walkable@),
{
    let ghost tris = t.triangles@;
    let n = t.triangles.len();
    let (mut depth, seeded) = seed_depths(&t.triangles);

    proof {
        assert forall|m: Seq<u32>, x: int|
            #![trigger respects_crossings(tris, m), m[x]]
            respects_crossings(tris, m) && 0 <= x < tris.len() implies m[x] <= depth@[x] by {
            if seed_depth(tris[x]) is Some {
                assert(m[x] <= seed_depth(tris[x])->0);
            }
        }
    }

    // Relax to the least crossing count. Each pass that changes anything
    // strictly lowers the sum of the labels, so the passes stop.
    loop
        invariant
            n == tris.len(),
            tris == t.triangles@,
            links_in_range(tris),
            depth@.len() == n,
            forall|x: int| 0 <= x < n && #[trigger] depth@[x] < u32::MAX ==> !tris[x].deleted,
            forall|x: int|
                0 <= x < n && seed_depth(tris[x]) is Some ==> #[trigger] depth@[x] <= seed_depth(
                    tris[x],
                )->0,
            dominates(tris, depth@),
        ensures
            respects_crossings(tris, depth@),
            dominates(tris, depth@),
            depth@.len() == n,
        decreases total(depth@),
    {
        let ghost before = depth@;
        let mut changed = false;
        let mut cur: usize = 0;
        while cur < n
            invariant
                n == tris.len(),
                tris == t.triangles@,
                links_in_range(tris),
                depth@.len() == n,
                cur <= n,
                forall|x: int| 0 <= x < n && #[trigger] depth@[x] < u32::MAX ==> !tris[x].deleted,
                forall|x: int|
                    0 <= x < n && seed_depth(tris[x]) is Some ==> #[trigger] depth@[x]
                        <= seed_depth(tris[x])->0,
                dominates(tris, depth@),
                total(depth@) <= total(before),
                changed ==> total(depth@) < total(before),
                !changed ==> depth@ == before,
                !changed ==> forall|c: int, i: int|
                    #![trigger depth@[c], tris[c].n[i]]
                    0 <= c < cur && 0 <= i < 3 && depth@[c] < u32::MAX && step_ok(tris, c, i)
                        ==> depth@[tris[c].n[i] as int] <= depth@[c] + crossing_weight(tris[c], i),
            decreases n - cur,
        {
            let d = depth[cur];
            if d != u32::MAX {
                let mut i: usize = 0;
                while i < 3
                    invariant
                        n == tris.len(),
                        tris == t.triangles@,
                        links_in_range(tris),
                        depth@.len() == n,
                        cur < n,
                        i <= 3,
                        d == depth@[cur as int],
                        d < u32::MAX,
                        !tris[cur as int].deleted,
                        forall|x: int|
                            0 <= x < n && #[trigger] depth@[x] < u32::MAX ==> !tris[x].deleted,
                        forall|x: int|
                            0 <= x < n && seed_depth(tris[x]) is Some ==> #[trigger] depth@[x]
                                <= seed_depth(tris[x])->0,
                        dominates(tris, depth@),
                        total(depth@) <= total(before),
                        changed ==> total(depth@) < total(before),
                        !changed ==> depth@ == before,
                        !changed ==> forall|c: int, j: int|
                            #![trigger depth@[c], tris[c].n[j]]
                            0 <= c < cur && 0 <= j < 3 && depth@[c] < u32::MAX && step_ok(
                                tris,
                                c,
                                j,
                            ) ==> depth@[tris[c].n[j] as int] <= depth@[c] + crossing_weight(
                                tris[c],
                                j,
                            ),
                        !changed ==> forall|j: int|
                            #![trigger tris[cur as int].n[j]]
                            0 <= j < i && step_ok(tris, cur as int, j) ==> depth@[tris[cur as int].n[j]
                                as int] <= depth@[cur as int] + crossing_weight(tris[cur as int], j),
                    decreases 3 - i,
                {
                    let nb = t.triangles[cur].n[i];
                    if nb != NO_NEIGHBOUR {
                        assert(nb < n);
                        if !t.triangles[nb].deleted {
                            let next: u32 = if t.triangles[cur].constrained[i] {
                                d + 1
                            } else {
                                d
                            };
                            if next < depth[nb] {
                                proof {
                                    lemma_relax_keeps_dominance(
                                        tris,
                                        depth@,
                                        cur as int,
                                        i as int,
                                        next,
                                    );
                                    lemma_total_update(depth@, nb as int, next);
                                }
                                depth.set(nb, next);
                                changed = true;
                            }
                        }
                    }
                    i += 1;
                }
            }
            cur += 1;
        }
        if !changed {
            break;
        }
    }

    // Live triangles the fill never reached.
    let mut warnings: Vec<RegionWarning> = Vec::new();
    if !seeded {
        warnings.push(RegionWarning::NoBoundary);
    }
    let ghost head = warnings@;
    let mut idx: usize = 0;
    while idx < n
        invariant
            n == tris.len(),
            tris == t.triangles@,
            depth@.len() == n,
            idx <= n,
            warnings@ == head + unreachable_upto(tris, depth@, idx as int),
        decreases n - idx,
    {
        if !t.triangles[idx].deleted && depth[idx] == u32::MAX {
            warnings.push(RegionWarning::Unreachable { triangle: idx });
        }
        idx += 1;
    }

    // Consistency: across an open edge the depth is unchanged; across a wall
    // it differs by exactly one.
    let mut reported: Vec<(TriIdx, TriIdx)> = Vec::new();
    let mut idx: usize = 0;
    while idx < n
        invariant
            n == tris.len(),
            tris == t.triangles@,
            links_in_range(tris),
            depth@.len() == n,
            idx <= n,
            reported@ == conflicts_upto(tris, depth@, 3 * idx),
        decreases n - idx,
    {
        let tri = t.triangles[idx];
        let mut i: usize = 0;
        while i < 3
            invariant
                n == tris.len(),
                tris == t.triangles@,
                links_in_range(tris),
                depth@.len() == n,
                idx < n,
                tri == tris[idx as int],
                i <= 3,
                reported@ == conflicts_upto(tris, depth@, 3 * idx + i),
            decreases 3 - i,
        {
            proof {
                lemma_slot(idx as int, i as int);
            }
            if !tri.deleted && depth[idx] != u32::MAX {
                let nb = tri.n[i];
                if nb != NO_NEIGHBOUR {
                    assert(nb < n);
                    if !t.triangles[nb].deleted && depth[nb] != u32::MAX {
                        let expected: u32 = if tri.constrained[i] {
                            1
                        } else {
                            0
                        };
                        let a = depth[idx];
                        let b = depth[nb];
                        let actual = if a >= b {
                            a - b
                        } else {
                            b - a
                        };
                        if actual != expected {
                            let key = edge_key(idx, nb);
                            if !contains_key_pair(&reported, key) {
                                reported.push(key);
                            }
                        }
                    }
                }
            }
            i += 1;
        }
        idx += 1;
    }
    let ghost mid = warnings@;
    let mut j: usize = 0;
    while j < reported.len()
        invariant
            j <= reported@.len(),
            warnings@ == mid + reported@.subrange(0, j as int).map_values(
                |k: (TriIdx, TriIdx)| RegionWarning::InconsistentNesting { a: k.0, b: k.1 },
            ),
        decreases reported.len() - j,
    {
        let key = reported[j];
        warnings.push(RegionWarning::InconsistentNesting { a: key.0, b: key.1 });
        assert(reported@.subrange(0, j + 1).map_values(
            |k: (TriIdx, TriIdx)| RegionWarning::InconsistentNesting { a: k.0, b: k.1 },
        ) =~= reported@.subrange(0, j as int).map_values(
            |k: (TriIdx, TriIdx)| RegionWarning::InconsistentNesting { a: k.0, b: k.1 },
        ).push(RegionWarning::InconsistentNesting { a: key.0, b: key.1 }));
        j += 1;
    }
    assert(reported@.subrange(0, reported@.len() as int) =~= reported@);

    // Odd depth is walkable.
    let mut walkable: Vec<bool> = Vec::new();
    let mut any_walkable = false;
    let mut idx: usize = 0;
    while idx < n
        invariant
            n == tris.len(),
            tris == t.triangles@,
            depth@.len() == n,
            idx <= n,
            walkable@.len() == idx,
            forall|x: int|
                0 <= x < idx ==> #[trigger] walkable@[x] == spec_walkable(tris, depth@, x),
            any_walkable == walkable@.contains(true),
        decreases n - idx,
    {
        let d = depth[idx];
        let w = !t.triangles[idx].deleted && d != u32::MAX && d % 2 == 1;
        let ghost prev = walkable@;
        walkable.push(w);
        proof {
            if walkable@.contains(true) && !w {
                let q = choose|q: int| 0 <= q < walkable@.len() && #[trigger] walkable@[q] == true;
                assert(prev[q] == true);
            }
            if w {
                assert(walkable@[idx as int] == true);
            }
            if prev.contains(true) {
                let q = choose|q: int| 0 <= q < prev.len() && #[trigger] prev[q] == true;
                assert(walkable@[q] == true);
            }
        }
        any_walkable = any_walkable || w;
        idx += 1;
    }
    if !any_walkable && t.live_count() > 0 {
        warnings.push(RegionWarning::NoWalkableArea);
    }
    Regions { depth, walkable, warnings }
}

fn contains_key_pair(v: &Vec<(TriIdx, TriIdx)>, k: (TriIdx, TriIdx)) -> (r: bool)
    ensures
        r == v@.contains(k),
{
    let mut j: usize = 0;
    while j < v.len()
        invariant
            j <= v.len(),
            forall|q: int| 0 <= q < j ==> v@[q] != k,
        decreases v.len() - j,
    {
        if v[j].0 == k.0 && v[j].1 == k.1 {
            return true;
        }
        j += 1;
    }
    false
}

impl Regions {
    /// Is triangle `t` floor? Out-of-range indices are not.
    pub fn is_walkable(&self, t: TriIdx) -> (r: bool)
        ensures
            r == (t < self.walkable@.len() && self.walkable@[t as int]),
    {
        if t < self.walkable.len() {
            self.walkable[t]
        } else {
            false
        }
    }

    pub fn walkable_count(&self) -> (c: usize)
        ensures
            c == count_true(self.walkable@),
    {
        let mut c: usize = 0;
        let mut i: usize = 0;
        while i < self.walkable.len()
            invariant
                i <= self.walkable@.len(),
                c == count_true(self.walkable@.subrange(0, i as int)),
                c <= i,
            decreases self.walkable.len() - i,
        {
            assert(self.walkable@.subrange(0, i + 1).drop_last() =~= self.walkable@.subrange(
                0,
                i as int,
            ));
            if self.walkable[i] {
                c += 1;
            }
            i += 1;
        }
        assert(self.walkable@.subrange(0, self.walkable@.len() as int) =~= self.walkable@);
        c
    }

    /// How many triangles the fill never reached, counted from the warnings.
    pub fn unreachable_count(&self) -> (c: usize)
        ensures
            c == count_unreachable(self.warnings@),
    {
        let mut c: usize = 0;
        let mut i: usize = 0;
        while i < self.warnings.len()
            invariant
                i <= self.warnings@.len(),
                c == count_unreachable(self.warnings@.subrange(0, i as int)),
                c <= i,
            decreases self.warnings.len() - i,
        {
            assert(self.warnings@.subrange(0, i + 1).drop_last() =~= self.warnings@.subrange(
                0,
                i as int,
            ));
            if let RegionWarning::Unreachable { .. } = self.warnings[i] {
                c += 1;
            }
            i += 1;
        }
        assert(self.warnings@.subrange(0, self.warnings@.len() as int) =~= self.warnings@);
        c
    }
}

impl Default for Regions {
    fn default() -> (r: Regions)
        ensures
            r.depth@.len() == 0,
            r.walkable@.len() == 0,
            r.warnings@.len() == 0,
    {
        Regions { depth: Vec::new(), walkable: Vec::new(), warnings: Vec::new() }
    }
}

} // verus!
