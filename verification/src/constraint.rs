//! Bookkeeping for constraint edges — the walls a constrained Delaunay
//! triangulation must contain.
//!
//! Carving a constraint into a mesh needs orientation and in-circle answers;
//! deciding whether a constraint list is usable at all, whether an edge is
//! already present, and which edge of a triangle joins two vertices does not.
//!
//! The walk along a constraint `a → b` needs only two facts per vertex: which
//! side of the directed line `a → b` it lies on, and whether it lies strictly
//! inside the segment. Given those, [`walk_crossed`] is pure topology.

use vstd::prelude::*;
use vstd::string::StringExecFns;
use crate::cavity::{tombstone_cavity, tombstoned_copy};
use crate::predicates::Orientation;
use crate::text::{decimal, spec_decimal};
use crate::triangulation::{
    first_joining_edge, is_rebuild_of, lemma_push_to_set, spec_edge_key, tri_edge, tri_has_vertex, TriangulationError, Triangle, Triangulation,
    TriIdx, VertIdx, NO_NEIGHBOUR,
};

verus! {

#[derive(Clone, Debug, PartialEq, Eq)]
pub enum ConstraintError {
    /// A constraint referenced a vertex index that does not exist.
    UnknownVertex(VertIdx),
    /// A constraint had identical endpoints.
    Degenerate(VertIdx),
    /// The walk failed to reach the target. Indicates a malformed mesh, and is
    /// a bug rather than bad input — reported instead of looping forever.
    WalkFailed { from: VertIdx, to: VertIdx },
}

#[derive(Clone, Debug, PartialEq, Eq)]
pub enum CdtError {
    Triangulation(TriangulationError),
    Constraint(ConstraintError),
}

impl ConstraintError {
    /// How the error reads.
    pub open spec fn text(&self) -> Seq<char> {
        match *self {
            ConstraintError::UnknownVertex(v) => "constraint references unknown vertex "@
                + spec_decimal(v as nat),
            ConstraintError::Degenerate(v) => "constraint has identical endpoints ("@
                + spec_decimal(v as nat) + ", "@ + spec_decimal(v as nat) + ")"@,
            ConstraintError::WalkFailed { from, to } => "constraint walk from "@ + spec_decimal(
                from as nat,
            ) + " to "@ + spec_decimal(to as nat) + " did not terminate"@,
        }
    }

    /// How the error reads.
    pub fn to_string(&self) -> (r: String)
        ensures
            r@ == self.text(),
    {
        match *self {
            ConstraintError::UnknownVertex(v) => String::from_str(
                "constraint references unknown vertex ",
            ).concat(decimal(v).as_str()),
            ConstraintError::Degenerate(v) => String::from_str(
                "constraint has identical endpoints (",
            ).concat(decimal(v).as_str()).concat(", ").concat(decimal(v).as_str()).concat(")"),
            ConstraintError::WalkFailed { from, to } => String::from_str("constraint walk from ")
                .concat(decimal(from).as_str()).concat(" to ").concat(decimal(to).as_str()).concat(
                " did not terminate",
            ),
        }
    }
}

impl CdtError {
    /// How the error reads: as the error it wraps.
    pub open spec fn text(&self) -> Seq<char> {
        match *self {
            CdtError::Triangulation(e) => e.text(),
            CdtError::Constraint(e) => e.text(),
        }
    }

    /// How the error reads: as the error it wraps.
    pub fn to_string(&self) -> (r: String)
        ensures
            r@ == self.text(),
    {
        match self {
            CdtError::Triangulation(e) => e.to_string(),
            CdtError::Constraint(e) => e.to_string(),
        }
    }
}

impl From<TriangulationError> for CdtError {
    fn from(e: TriangulationError) -> (r: Self) {
        CdtError::Triangulation(e)
    }
}

impl vstd::std_specs::convert::FromSpecImpl<TriangulationError> for CdtError {
    open spec fn obeys_from_spec() -> bool {
        true
    }

    open spec fn from_spec(e: TriangulationError) -> Self {
        CdtError::Triangulation(e)
    }
}

impl From<ConstraintError> for CdtError {
    fn from(e: ConstraintError) -> (r: Self) {
        CdtError::Constraint(e)
    }
}

impl vstd::std_specs::convert::FromSpecImpl<ConstraintError> for CdtError {
    open spec fn obeys_from_spec() -> bool {
        true
    }

    open spec fn from_spec(e: ConstraintError) -> Self {
        CdtError::Constraint(e)
    }
}

/// Edge `i` of `t` joins `x` and `y`, in either direction.
pub open spec fn edge_joins(t: Triangle, i: int, x: VertIdx, y: VertIdx) -> bool {
    let e = tri_edge(t, i);
    (e.0 == x && e.1 == y) || (e.0 == y && e.1 == x)
}

/// The first problem with a constraint list, scanning the pairs in order and
/// checking each pair's first vertex, then its second, then that they differ.
pub open spec fn first_constraint_problem(num_points: nat, edges: Seq<(VertIdx, VertIdx)>) -> Option<
    ConstraintError,
>
    decreases edges.len(),
{
    if edges.len() == 0 {
        None
    } else {
        match first_constraint_problem(num_points, edges.drop_last()) {
            Some(e) => Some(e),
            None => {
                let (a, b) = edges.last();
                if a >= num_points {
                    Some(ConstraintError::UnknownVertex(a))
                } else if b >= num_points {
                    Some(ConstraintError::UnknownVertex(b))
                } else if a == b {
                    Some(ConstraintError::Degenerate(a))
                } else {
                    None
                }
            },
        }
    }
}

/// Reject a constraint list that names a vertex outside `0..num_points` or
/// joins a vertex to itself, reporting the first offending pair.
pub fn check_constraint_edges(num_points: usize, edges: &Vec<(VertIdx, VertIdx)>) -> (r: Result<
    (),
    ConstraintError,
>)
    ensures
        match first_constraint_problem(num_points as nat, edges@) {
            Some(e) => r == Err::<(), ConstraintError>(e),
            None => r is Ok,
        },
{
    let mut j: usize = 0;
    while j < edges.len()
        invariant
            j <= edges@.len(),
            first_constraint_problem(num_points as nat, edges@.subrange(0, j as int)) is None,
        decreases edges.len() - j,
    {
        let (a, b) = edges[j];
        assert(edges@.subrange(0, j + 1).drop_last() =~= edges@.subrange(0, j as int));
        if a >= num_points {
            proof {
                lemma_problem_prefix(num_points as nat, edges@, j + 1);
            }
            return Err(ConstraintError::UnknownVertex(a));
        }
        if b >= num_points {
            proof {
                lemma_problem_prefix(num_points as nat, edges@, j + 1);
            }
            return Err(ConstraintError::UnknownVertex(b));
        }
        if a == b {
            proof {
                lemma_problem_prefix(num_points as nat, edges@, j + 1);
            }
            return Err(ConstraintError::Degenerate(a));
        }
        j += 1;
    }
    assert(edges@.subrange(0, edges@.len() as int) =~= edges@);
    Ok(())
}

/// Once a prefix of the list has a problem, the whole list reports that one.
proof fn lemma_problem_prefix(num_points: nat, edges: Seq<(VertIdx, VertIdx)>, k: int)
    requires
        0 <= k <= edges.len(),
        first_constraint_problem(num_points, edges.subrange(0, k)) is Some,
    ensures
        first_constraint_problem(num_points, edges) == first_constraint_problem(
            num_points,
            edges.subrange(0, k),
        ),
    decreases edges.len() - k,
{
    if k < edges.len() {
        assert(edges.subrange(0, k + 1).drop_last() =~= edges.subrange(0, k));
        lemma_problem_prefix(num_points, edges, k + 1);
    } else {
        assert(edges.subrange(0, k) =~= edges);
    }
}

/// Which edge of `tri` joins vertices `x` and `y`? The first one that does.
pub fn edge_index_between(tri: &Triangle, x: VertIdx, y: VertIdx) -> (r: Option<usize>)
    ensures
        match r {
            Some(i) => i < 3 && edge_joins(*tri, i as int, x, y) && forall|j: int|
                0 <= j < i ==> !edge_joins(*tri, j, x, y),
            None => forall|j: int| 0 <= j < 3 ==> !edge_joins(*tri, j, x, y),
        },
{
    let mut i: usize = 0;
    while i < 3
        invariant
            i <= 3,
            forall|j: int| 0 <= j < i ==> !edge_joins(*tri, j, x, y),
        decreases 3 - i,
    {
        let (p, q) = tri.edge(i);
        if (p == x && q == y) || (p == y && q == x) {
            return Some(i);
        }
        i += 1;
    }
    None
}

/// Find a live triangle holding the edge `a—b`, and which of its edges it is:
/// the first live triangle that does, and its first such edge.
pub fn find_edge<P>(t: &Triangulation<P>, a: VertIdx, b: VertIdx) -> (r: Option<(TriIdx, usize)>)
    ensures
        match r {
            Some((idx, i)) => {
                &&& idx < t.triangles@.len()
                &&& i < 3
                &&& !t.triangles@[idx as int].deleted
                &&& edge_joins(t.triangles@[idx as int], i as int, a, b)
                &&& forall|j: int| 0 <= j < i ==> !edge_joins(t.triangles@[idx as int], j, a, b)
                &&& forall|u: int, j: int|
                    0 <= u < idx && 0 <= j < 3 && !t.triangles@[u].deleted ==> !(#[trigger] edge_joins(t.triangles@[u], j, a, b))
            },
            None => forall|u: int, j: int|
                0 <= u < t.triangles@.len() && 0 <= j < 3 && !t.triangles@[u].deleted
                    ==> !(#[trigger] edge_joins(t.triangles@[u], j, a, b)),
        },
{
    let mut idx: usize = 0;
    while idx < t.triangles.len()
        invariant
            idx <= t.triangles@.len(),
            forall|u: int, j: int|
                0 <= u < idx && 0 <= j < 3 && !t.triangles@[u].deleted ==> !(#[trigger] edge_joins(t.triangles@[u], j, a, b)),
        decreases t.triangles.len() - idx,
    {
        if !t.triangles[idx].deleted {
            match edge_index_between(&t.triangles[idx], a, b) {
                Some(i) => {
                    return Some((idx, i));
                },
                None => {},
            }
        }
        idx += 1;
    }
    None
}


/// What a walk along a constraint found.
#[derive(Clone, Debug, PartialEq, Eq)]
pub enum Walk {
    /// A vertex lies strictly inside the constraint; split there.
    HitVertex(VertIdx),
    /// The triangles the constraint crosses, in order from `a`, and the
    /// vertex chains left and right of `a → b`.
    Crossed { triangles: Vec<TriIdx>, left: Vec<VertIdx>, right: Vec<VertIdx> },
}

/// What the walk decides at one triangle while looking for where to start.
#[derive(Clone, Copy, Debug, PartialEq, Eq, Structural)]
pub enum StartStep {
    /// Not a live triangle at `a`, or `b` is not inside its wedge at `a`.
    Skip,
    /// A vertex of the triangle lies strictly inside the constraint.
    Hit(VertIdx),
    /// The constraint leaves `a` through this triangle.
    Enter,
}

/// The position of `x` in `t` (the first, when it occurs).
pub open spec fn vertex_pos(t: Triangle, x: VertIdx) -> int {
    if t.v[0] == x {
        0
    } else if t.v[1] == x {
        1
    } else {
        2
    }
}

/// The decision at triangle `t` when starting a walk from `a` to `b`, where
/// `side[v]` is the orientation of `(a, b, v)` and `on[v]` says `v` lies
/// strictly inside the segment. With `p`, `q` the vertices after `a`, a
/// vertex on the segment (other than `b`) is hit, `p` first; otherwise the
/// walk enters when `b` lies in the wedge from `a → p` counter-clockwise to
/// `a → q`, that is, when `p` is not left of `a → b` and `q` is not right
/// of it.
pub open spec fn start_step(t: Triangle, a: VertIdx, b: VertIdx, side: Seq<Orientation>, on: Seq<bool>) -> StartStep {
    if t.deleted || !tri_has_vertex(t, a) {
        StartStep::Skip
    } else {
        let k = vertex_pos(t, a);
        let p = t.v[(k + 1) % 3];
        let q = t.v[(k + 2) % 3];
        if p != b && on[p as int] {
            StartStep::Hit(p)
        } else if q != b && on[q as int] {
            StartStep::Hit(q)
        } else if side[p as int] != Orientation::CounterClockwise && side[q as int]
            != Orientation::Clockwise {
            StartStep::Enter
        } else {
            StartStep::Skip
        }
    }
}

/// The first triangle at or after `i` where the start decision is not to skip.
pub open spec fn first_start(tris: Seq<Triangle>, a: VertIdx, b: VertIdx, side: Seq<Orientation>, on: Seq<bool>, i: int) -> Option<int>
    decreases tris.len() - i,
{
    if i < 0 || i >= tris.len() {
        None
    } else if start_step(tris[i], a, b, side, on) != StartStep::Skip {
        Some(i)
    } else {
        first_start(tris, a, b, side, on, i + 1)
    }
}

proof fn lemma_first_start(tris: Seq<Triangle>, a: VertIdx, b: VertIdx, side: Seq<Orientation>, on: Seq<bool>, i: int)
    requires
        0 <= i,
    ensures
        match first_start(tris, a, b, side, on, i) {
            Some(j) => i <= j < tris.len() && start_step(tris[j], a, b, side, on) != StartStep::Skip,
            None => true,
        },
    decreases tris.len() - i,
{
    if i < tris.len() && start_step(tris[i], a, b, side, on) == StartStep::Skip {
        lemma_first_start(tris, a, b, side, on, i + 1);
    }
}

/// A walk in progress: it is about to cross edge `edge` of triangle `from`,
/// which joins `u` (left of `a → b`) and `w` (right of it).
pub struct WalkState {
    pub from: int,
    pub edge: int,
    pub u: VertIdx,
    pub w: VertIdx,
    pub crossed: Seq<TriIdx>,
    pub left: Seq<VertIdx>,
    pub right: Seq<VertIdx>,
}

/// How a walk ends.
pub enum WalkOutcome {
    Hit(VertIdx),
    Crossed(Seq<TriIdx>, Seq<VertIdx>, Seq<VertIdx>),
    Failed,
}

/// The first vertex of `t` that is neither `u` nor `w`.
pub open spec fn spec_apex(t: Triangle, u: VertIdx, w: VertIdx) -> Option<VertIdx> {
    if t.v[0] != u && t.v[0] != w {
        Some(t.v[0])
    } else if t.v[1] != u && t.v[1] != w {
        Some(t.v[1])
    } else if t.v[2] != u && t.v[2] != w {
        Some(t.v[2])
    } else {
        None
    }
}

/// The walk from state `st` with at most `steps` more crossings: cross into
/// the neighbour; find its apex `r`; stop at `b`, stop on a vertex inside the
/// segment, otherwise keep `r` on its side and cross the edge from `r` to the
/// vertex kept on the other side. A missing neighbour, apex or edge, or
/// running out of steps, fails.
pub open spec fn walk_outcome(tris: Seq<Triangle>, side: Seq<Orientation>, on: Seq<bool>, b: VertIdx, st: WalkState, steps: nat) -> WalkOutcome
    decreases steps,
{
    if steps == 0 {
        WalkOutcome::Failed
    } else {
        let next = tris[st.from].n[st.edge];
        if next == NO_NEIGHBOUR {
            WalkOutcome::Failed
        } else {
            let crossed = st.crossed.push(next);
            match spec_apex(tris[next as int], st.u, st.w) {
                None => WalkOutcome::Failed,
                Some(r) => if r == b {
                    WalkOutcome::Crossed(crossed, st.left, st.right)
                } else if on[r as int] {
                    WalkOutcome::Hit(r)
                } else {
                    let to_left = side[r as int] == Orientation::CounterClockwise;
                    let u = if to_left { r } else { st.u };
                    let w = if to_left { st.w } else { r };
                    let left = if to_left { st.left.push(r) } else { st.left };
                    let right = if to_left { st.right } else { st.right.push(r) };
                    match first_joining_edge(tris[next as int], u, w) {
                        None => WalkOutcome::Failed,
                        Some(i) => walk_outcome(
                            tris,
                            side,
                            on,
                            b,
                            WalkState { from: next as int, edge: i, u, w, crossed, left, right },
                            (steps - 1) as nat,
                        ),
                    }
                },
            }
        }
    }
}

/// The whole walk from `a` to `b`: start at the first triangle that does not
/// skip; a hit there ends it, otherwise cross the edge opposite `a` with its
/// left end as `u`, for at most the triangle count plus four crossings.
pub open spec fn spec_walk(tris: Seq<Triangle>, side: Seq<Orientation>, on: Seq<bool>, a: VertIdx, b: VertIdx) -> WalkOutcome {
    match first_start(tris, a, b, side, on, 0) {
        None => WalkOutcome::Failed,
        Some(idx) => match start_step(tris[idx], a, b, side, on) {
            StartStep::Hit(v) => WalkOutcome::Hit(v),
            StartStep::Enter => {
                let t = tris[idx];
                let k = vertex_pos(t, a);
                let p = t.v[(k + 1) % 3];
                let q = t.v[(k + 2) % 3];
                let u = if side[p as int] == Orientation::CounterClockwise { p } else { q };
                let w = if side[p as int] == Orientation::CounterClockwise { q } else { p };
                walk_outcome(
                    tris,
                    side,
                    on,
                    b,
                    WalkState {
                        from: idx,
                        edge: k,
                        u,
                        w,
                        crossed: seq![idx as TriIdx],
                        left: seq![u],
                        right: seq![w],
                    },
                    (tris.len() + 4) as nat,
                )
            },
            StartStep::Skip => WalkOutcome::Failed,
        },
    }
}

/// Every vertex of every triangle, deleted or not, indexes the per-vertex
/// facts, and every link of every triangle is empty or in range.
pub open spec fn walkable_mesh(tris: Seq<Triangle>, n: nat) -> bool {
    &&& forall|t: int, k: int| 0 <= t < tris.len() && 0 <= k < 3 ==> #[trigger] tris[t].v[k] < n
    &&& forall|t: int, k: int|
        0 <= t < tris.len() && 0 <= k < 3 ==> #[trigger] tris[t].n[k] == NO_NEIGHBOUR
            || tris[t].n[k] < tris.len()
}

/// The first triangle where the start decision is not to skip, and that
/// decision.
fn find_start<P>(t: &Triangulation<P>, a: VertIdx, b: VertIdx, side: &Vec<Orientation>, on: &Vec<bool>) -> (r: Option<(TriIdx, StartStep)>)
    requires
        side@.len() == on@.len(),
        walkable_mesh(t.triangles@, side@.len()),
    ensures
        match r {
            Some((idx, step)) => first_start(t.triangles@, a, b, side@, on@, 0) == Some(idx as int)
                && step == start_step(t.triangles@[idx as int], a, b, side@, on@),
            None => first_start(t.triangles@, a, b, side@, on@, 0) is None,
        },
{
    let ghost tris = t.triangles@;
    let mut idx: usize = 0;
    while idx < t.triangles.len()
        invariant
            tris == t.triangles@,
            side@.len() == on@.len(),
            walkable_mesh(tris, side@.len()),
            idx <= tris.len(),
            first_start(tris, a, b, side@, on@, 0) == first_start(tris, a, b, side@, on@, idx as int),
        decreases t.triangles.len() - idx,
    {
        let tri = t.triangles[idx];
        let mut step = StartStep::Skip;
        if !tri.deleted {
            match tri.index_of(a) {
                Some(k) => {
                    let p = tri.v[(k + 1) % 3];
                    let q = tri.v[(k + 2) % 3];
                    assert(tris[idx as int].v[((k + 1) % 3) as int] < side@.len());
                    assert(tris[idx as int].v[((k + 2) % 3) as int] < side@.len());
                    if p != b && on[p] {
                        step = StartStep::Hit(p);
                    } else if q != b && on[q] {
                        step = StartStep::Hit(q);
                    } else if side[p] != Orientation::CounterClockwise && side[q]
                        != Orientation::Clockwise {
                        step = StartStep::Enter;
                    }
                },
                None => {},
            }
        }
        assert(step == start_step(tris[idx as int], a, b, side@, on@));
        if step != StartStep::Skip {
            return Some((idx, step));
        }
        idx += 1;
    }
    None
}

/// The first vertex of `t` that is neither `u` nor `w`.
fn apex(t: &Triangle, u: VertIdx, w: VertIdx) -> (r: Option<VertIdx>)
    ensures
        r == spec_apex(*t, u, w),
{
    if t.v[0] != u && t.v[0] != w {
        Some(t.v[0])
    } else if t.v[1] != u && t.v[1] != w {
        Some(t.v[1])
    } else if t.v[2] != u && t.v[2] != w {
        Some(t.v[2])
    } else {
        None
    }
}

/// Walk from `a` toward `b`, collecting the crossed triangles and the two
/// vertex chains flanking the segment.
///
/// `side[v]` is the orientation of `(a, b, v)` and `on[v]` says whether `v`
/// lies strictly inside the segment `a—b`; the walk reads them for the
/// vertices it meets. It fails, rather than looping, on a mesh where the
/// walk leaves the hull, finds no way on, or takes more steps than there are
/// triangles.
#[verifier::spinoff_prover]
pub fn walk_crossed<P>(t: &Triangulation<P>, a: VertIdx, b: VertIdx, side: &Vec<Orientation>, on: &Vec<bool>) -> (r: Result<Walk, ConstraintError>)
    requires
        side@.len() == on@.len(),
        walkable_mesh(t.triangles@, side@.len()),
        t.triangles@.len() + 4 <= usize::MAX,
    ensures
        match r {
            Ok(Walk::HitVertex(v)) => spec_walk(t.triangles@, side@, on@, a, b) == WalkOutcome::Hit(v),
            Ok(Walk::Crossed { triangles, left, right }) => spec_walk(t.triangles@, side@, on@, a, b)
                == WalkOutcome::Crossed(triangles@, left@, right@),
            Err(e) => e == (ConstraintError::WalkFailed { from: a, to: b }) && spec_walk(
                t.triangles@,
                side@,
                on@,
                a,
                b,
            ) is Failed,
        },
{
    let ghost tris = t.triangles@;
    let (start, step) = match find_start(t, a, b, side, on) {
        Some(found) => found,
        None => {
            return Err(ConstraintError::WalkFailed { from: a, to: b });
        },
    };
    match step {
        StartStep::Hit(v) => {
            return Ok(Walk::HitVertex(v));
        },
        StartStep::Skip => {
            return Err(ConstraintError::WalkFailed { from: a, to: b });
        },
        StartStep::Enter => {},
    }
    proof {
        lemma_first_start(tris, a, b, side@, on@, 0);
    }
    let tri = t.triangles[start];
    let k = match tri.index_of(a) {
        Some(k) => k,
        None => {
            return Err(ConstraintError::WalkFailed { from: a, to: b });
        },
    };
    let p = tri.v[(k + 1) % 3];
    let q = tri.v[(k + 2) % 3];
    assert(tris[start as int].v[((k + 1) % 3) as int] < side@.len());
    let p_left = side[p] == Orientation::CounterClockwise;
    let mut u = if p_left { p } else { q };
    let mut w = if p_left { q } else { p };
    let mut triangles: Vec<TriIdx> = vec![start];
    let mut left: Vec<VertIdx> = vec![u];
    let mut right: Vec<VertIdx> = vec![w];
    let mut from = start;
    let mut edge_i = k;
    let limit = t.triangles.len() + 4;
    let mut it: usize = 0;
    assert(triangles@ =~= seq![start]);
    assert(left@ =~= seq![u]);
    assert(right@ =~= seq![w]);
    while it < limit
        invariant
            tris == t.triangles@,
            side@.len() == on@.len(),
            walkable_mesh(tris, side@.len()),
            limit == tris.len() + 4,
            it <= limit,
            from < tris.len(),
            edge_i < 3,
            spec_walk(tris, side@, on@, a, b) == walk_outcome(
                tris,
                side@,
                on@,
                b,
                WalkState {
                    from: from as int,
                    edge: edge_i as int,
                    u,
                    w,
                    crossed: triangles@,
                    left: left@,
                    right: right@,
                },
                (limit - it) as nat,
            ),
        decreases limit - it,
    {
        let next = t.triangles[from].n[edge_i];
        if next == NO_NEIGHBOUR {
            return Err(ConstraintError::WalkFailed { from: a, to: b });
        }
        assert(next < tris.len());
        triangles.push(next);
        let nt = t.triangles[next];
        let r = match apex(&nt, u, w) {
            Some(r) => r,
            None => {
                return Err(ConstraintError::WalkFailed { from: a, to: b });
            },
        };
        if r == b {
            return Ok(Walk::Crossed { triangles, left, right });
        }
        assert(r < side@.len()) by {
            assert(nt.v[0] < side@.len() && nt.v[1] < side@.len() && nt.v[2] < side@.len());
        }
        if on[r] {
            return Ok(Walk::HitVertex(r));
        }
        if side[r] == Orientation::CounterClockwise {
            left.push(r);
            u = r;
        } else {
            right.push(r);
            w = r;
        }
        match edge_index_between(&nt, u, w) {
            Some(i) => {
                assert(i == 0 || !edge_joins(nt, 0, u, w));
                assert(i <= 1 || !edge_joins(nt, 1, u, w));
                assert(first_joining_edge(nt, u, w) == Some(i as int));
                from = next;
                edge_i = i;
            },
            None => {
                assert(!edge_joins(nt, 0, u, w));
                assert(!edge_joins(nt, 1, u, w));
                assert(!edge_joins(nt, 2, u, w));
                assert(first_joining_edge(nt, u, w) is None);
                return Err(ConstraintError::WalkFailed { from: a, to: b });
            },
        }
        it += 1;
    }
    Err(ConstraintError::WalkFailed { from: a, to: b })
}


/// Triangle `x` links to triangle `y` across one of its edges.
pub open spec fn linked(tris: Seq<Triangle>, x: TriIdx, y: TriIdx) -> bool {
    tris[x as int].n[0] == y || tris[x as int].n[1] == y || tris[x as int].n[2] == y
}

/// Each triangle of `ts` links to the next.
pub open spec fn is_chain(tris: Seq<Triangle>, ts: Seq<TriIdx>) -> bool {
    forall|i: int| 0 <= i < ts.len() - 1 ==> #[trigger] linked(tris, ts[i], ts[i + 1])
}

proof fn lemma_walk_outcome_chain(tris: Seq<Triangle>, side: Seq<Orientation>, on: Seq<bool>, b: VertIdx, st: WalkState, steps: nat)
    requires
        st.crossed.len() >= 1,
        st.crossed.last() == st.from,
        0 <= st.edge < 3,
        is_chain(tris, st.crossed),
    ensures
        match walk_outcome(tris, side, on, b, st, steps) {
            WalkOutcome::Crossed(ts, l, r) => {
                &&& ts.len() > st.crossed.len()
                &&& ts.subrange(0, st.crossed.len() as int) == st.crossed
                &&& is_chain(tris, ts)
                &&& tri_has_vertex(tris[ts.last() as int], b)
            },
            _ => true,
        },
    decreases steps,
{
    if steps > 0 {
        let next = tris[st.from].n[st.edge];
        if next != NO_NEIGHBOUR {
            let crossed = st.crossed.push(next);
            assert(linked(tris, st.crossed.last(), next));
            assert(is_chain(tris, crossed)) by {
                assert forall|i: int| 0 <= i < crossed.len() - 1 implies #[trigger] linked(
                    tris,
                    crossed[i],
                    crossed[i + 1],
                ) by {
                    if i < st.crossed.len() - 1 {
                        assert(crossed[i] == st.crossed[i] && crossed[i + 1] == st.crossed[i + 1]);
                    }
                }
            }
            assert(crossed.subrange(0, st.crossed.len() as int) =~= st.crossed);
            match spec_apex(tris[next as int], st.u, st.w) {
                None => {},
                Some(r) => if r != b && !on[r as int] {
                    let to_left = side[r as int] == Orientation::CounterClockwise;
                    let u = if to_left { r } else { st.u };
                    let w = if to_left { st.w } else { r };
                    let left = if to_left { st.left.push(r) } else { st.left };
                    let right = if to_left { st.right } else { st.right.push(r) };
                    match first_joining_edge(tris[next as int], u, w) {
                        None => {},
                        Some(i) => {
                            let st2 = WalkState { from: next as int, edge: i, u, w, crossed, left, right };
                            lemma_walk_outcome_chain(tris, side, on, b, st2, (steps - 1) as nat);
                            match walk_outcome(tris, side, on, b, st2, (steps - 1) as nat) {
                                WalkOutcome::Crossed(ts, l2, r2) => {
                                    assert(ts.subrange(0, st.crossed.len() as int) =~= ts.subrange(
                                        0,
                                        crossed.len() as int,
                                    ).subrange(0, st.crossed.len() as int));
                                },
                                _ => {},
                            }
                        },
                    }
                } else if r == b {
                    assert(tri_has_vertex(tris[next as int], r));
                },
            }
        }
    }
}

/// The chains keep their sides: each starts with an end of the first edge
/// crossed, the left one not right of `a → b` and the right one not left of
/// it; every later vertex on the left chain lies strictly left of `a → b`,
/// and every later vertex on the right chain does not.
pub open spec fn chains_sided(side: Seq<Orientation>, l: Seq<VertIdx>, r: Seq<VertIdx>) -> bool {
    &&& l.len() >= 1
    &&& r.len() >= 1
    &&& side[l[0] as int] != Orientation::Clockwise
    &&& side[r[0] as int] != Orientation::CounterClockwise
    &&& forall|k: int| 1 <= k < l.len() ==> side[#[trigger] l[k] as int] == Orientation::CounterClockwise
    &&& forall|k: int| 1 <= k < r.len() ==> side[#[trigger] r[k] as int] != Orientation::CounterClockwise
}

proof fn lemma_walk_outcome_sides(
    tris: Seq<Triangle>,
    side: Seq<Orientation>,
    on: Seq<bool>,
    b: VertIdx,
    st: WalkState,
    steps: nat,
)
    requires
        chains_sided(side, st.left, st.right),
    ensures
        walk_outcome(tris, side, on, b, st, steps) matches WalkOutcome::Crossed(_, l, r) ==> chains_sided(
            side,
            l,
            r,
        ),
    decreases steps,
{
    if steps > 0 {
        let next = tris[st.from].n[st.edge];
        if next != NO_NEIGHBOUR {
            let crossed = st.crossed.push(next);
            match spec_apex(tris[next as int], st.u, st.w) {
                None => {},
                Some(r) => if r != b && !on[r as int] {
                    let to_left = side[r as int] == Orientation::CounterClockwise;
                    let u = if to_left { r } else { st.u };
                    let w = if to_left { st.w } else { r };
                    let left = if to_left { st.left.push(r) } else { st.left };
                    let right = if to_left { st.right } else { st.right.push(r) };
                    assert(chains_sided(side, left, right)) by {
                        if to_left {
                            assert(left[left.len() - 1] == r);
                            assert forall|k: int| 1 <= k < left.len() implies side[#[trigger] left[k] as int]
                                == Orientation::CounterClockwise by {
                                if k < st.left.len() {
                                    assert(left[k] == st.left[k]);
                                }
                            }
                        } else {
                            assert(right[right.len() - 1] == r);
                            assert forall|k: int| 1 <= k < right.len() implies side[#[trigger] right[k] as int]
                                != Orientation::CounterClockwise by {
                                if k < st.right.len() {
                                    assert(right[k] == st.right[k]);
                                }
                            }
                        }
                    }
                    match first_joining_edge(tris[next as int], u, w) {
                        None => {},
                        Some(i) => {
                            lemma_walk_outcome_sides(
                                tris,
                                side,
                                on,
                                b,
                                WalkState { from: next as int, edge: i, u, w, crossed, left, right },
                                (steps - 1) as nat,
                            );
                        },
                    }
                },
            }
        }
    }
}

/// A walk that gets through keeps each vertex it meets on its own side: the
/// left chain starts with a vertex not right of `a → b` and then holds only
/// vertices strictly left of it; the right chain starts with a vertex not
/// left of `a → b` and then holds only vertices that are not left of it.
/// Each vertex the walk passes goes to the left chain exactly when it lies
/// strictly left of `a → b`.
pub proof fn lemma_walk_keeps_chain_sides(tris: Seq<Triangle>, side: Seq<Orientation>, on: Seq<bool>, a: VertIdx, b: VertIdx)
    ensures
        match spec_walk(tris, side, on, a, b) {
            WalkOutcome::Crossed(ts, l, r) => {
                &&& l.len() >= 1
                &&& r.len() >= 1
                &&& side[l[0] as int] != Orientation::Clockwise
                &&& side[r[0] as int] != Orientation::CounterClockwise
                &&& forall|k: int| 1 <= k < l.len() ==> side[#[trigger] l[k] as int] == Orientation::CounterClockwise
                &&& forall|k: int| 1 <= k < r.len() ==> side[#[trigger] r[k] as int] != Orientation::CounterClockwise
            },
            _ => true,
        },
{
    match first_start(tris, a, b, side, on, 0) {
        None => {},
        Some(idx) => match start_step(tris[idx], a, b, side, on) {
            StartStep::Enter => {
                let t = tris[idx];
                let k = vertex_pos(t, a);
                let p = t.v[(k + 1) % 3];
                let q = t.v[(k + 2) % 3];
                let u = if side[p as int] == Orientation::CounterClockwise { p } else { q };
                let w = if side[p as int] == Orientation::CounterClockwise { q } else { p };
                let st = WalkState {
                    from: idx,
                    edge: k,
                    u,
                    w,
                    crossed: seq![idx as TriIdx],
                    left: seq![u],
                    right: seq![w],
                };
                assert(chains_sided(side, st.left, st.right));
                lemma_walk_outcome_sides(tris, side, on, b, st, (tris.len() + 4) as nat);
            },
            _ => {},
        },
    }
}

proof fn lemma_walk_outcome_hits_inside(
    tris: Seq<Triangle>,
    side: Seq<Orientation>,
    on: Seq<bool>,
    b: VertIdx,
    st: WalkState,
    steps: nat,
)
    ensures
        walk_outcome(tris, side, on, b, st, steps) matches WalkOutcome::Hit(v) ==> v != b && on[v as int],
    decreases steps,
{
    if steps > 0 {
        let next = tris[st.from].n[st.edge];
        if next != NO_NEIGHBOUR {
            let crossed = st.crossed.push(next);
            match spec_apex(tris[next as int], st.u, st.w) {
                None => {},
                Some(r) => if r != b && !on[r as int] {
                    let to_left = side[r as int] == Orientation::CounterClockwise;
                    let u = if to_left { r } else { st.u };
                    let w = if to_left { st.w } else { r };
                    let left = if to_left { st.left.push(r) } else { st.left };
                    let right = if to_left { st.right } else { st.right.push(r) };
                    match first_joining_edge(tris[next as int], u, w) {
                        None => {},
                        Some(i) => {
                            lemma_walk_outcome_hits_inside(
                                tris,
                                side,
                                on,
                                b,
                                WalkState { from: next as int, edge: i, u, w, crossed, left, right },
                                (steps - 1) as nat,
                            );
                        },
                    }
                },
            }
        }
    }
}

/// A walk stops on a vertex only when that vertex lies strictly inside the
/// segment `a — b`: the constraint is split there, never at `b` itself.
pub proof fn lemma_walk_hits_only_inner_vertices(tris: Seq<Triangle>, side: Seq<Orientation>, on: Seq<bool>, a: VertIdx, b: VertIdx)
    ensures
        spec_walk(tris, side, on, a, b) matches WalkOutcome::Hit(v) ==> v != b && on[v as int],
{
    match first_start(tris, a, b, side, on, 0) {
        None => {},
        Some(idx) => match start_step(tris[idx], a, b, side, on) {
            StartStep::Enter => {
                let t = tris[idx];
                let k = vertex_pos(t, a);
                let p = t.v[(k + 1) % 3];
                let q = t.v[(k + 2) % 3];
                let u = if side[p as int] == Orientation::CounterClockwise { p } else { q };
                let w = if side[p as int] == Orientation::CounterClockwise { q } else { p };
                let st = WalkState {
                    from: idx,
                    edge: k,
                    u,
                    w,
                    crossed: seq![idx as TriIdx],
                    left: seq![u],
                    right: seq![w],
                };
                lemma_walk_outcome_hits_inside(tris, side, on, b, st, (tris.len() + 4) as nat);
            },
            _ => {},
        },
    }
}

/// A walk that gets through crosses a chain of neighbouring triangles: it
/// starts at a live triangle holding `a`, each triangle it crosses is linked
/// to the next, and the last one holds `b`.
pub proof fn lemma_walk_is_a_chain(tris: Seq<Triangle>, side: Seq<Orientation>, on: Seq<bool>, a: VertIdx, b: VertIdx)
    requires
        tris.len() <= usize::MAX,
    ensures
        match spec_walk(tris, side, on, a, b) {
            WalkOutcome::Crossed(ts, l, r) => {
                &&& ts.len() >= 2
                &&& !tris[ts[0] as int].deleted
                &&& tri_has_vertex(tris[ts[0] as int], a)
                &&& is_chain(tris, ts)
                &&& tri_has_vertex(tris[ts.last() as int], b)
            },
            _ => true,
        },
{
    lemma_first_start(tris, a, b, side, on, 0);
    match first_start(tris, a, b, side, on, 0) {
        None => {},
        Some(idx) => match start_step(tris[idx], a, b, side, on) {
            StartStep::Enter => {
                let t = tris[idx];
                let k = vertex_pos(t, a);
                let p = t.v[(k + 1) % 3];
                let q = t.v[(k + 2) % 3];
                let u = if side[p as int] == Orientation::CounterClockwise { p } else { q };
                let w = if side[p as int] == Orientation::CounterClockwise { q } else { p };
                let st = WalkState {
                    from: idx,
                    edge: k,
                    u,
                    w,
                    crossed: seq![idx as TriIdx],
                    left: seq![u],
                    right: seq![w],
                };
                lemma_walk_outcome_chain(tris, side, on, b, st, (tris.len() + 4) as nat);
                match walk_outcome(tris, side, on, b, st, (tris.len() + 4) as nat) {
                    WalkOutcome::Crossed(ts, l, r) => {
                        assert(ts[0] == ts.subrange(0, 1)[0]);
                    },
                    _ => {},
                }
            },
            _ => {},
        },
    }
}


/// A fresh triangle over vertices `v`, as [`Triangle::new`] makes it.
pub open spec fn fresh_triangle(v: [VertIdx; 3]) -> Triangle {
    Triangle {
        v,
        n: [NO_NEIGHBOUR, NO_NEIGHBOUR, NO_NEIGHBOUR],
        constrained: [false, false, false],
        deleted: false,
    }
}

/// The triangle list after carving: the crossed triangles tombstoned, then one
/// fresh triangle per vertex triple appended.
pub open spec fn carved(tris: Seq<Triangle>, crossed: Seq<TriIdx>, fresh: Seq<[VertIdx; 3]>) -> Seq<Triangle> {
    Seq::new(
        tris.len(),
        |u: int|
            Triangle {
                v: tris[u].v,
                n: tris[u].n,
                constrained: tris[u].constrained,
                deleted: tris[u].deleted || crossed.contains(u as TriIdx),
            },
    ) + Seq::new(fresh.len(), |k: int| fresh_triangle(fresh[k]))
}

/// Carving replaces exactly the crossed triangles: every triangle keeps its
/// vertices, the crossed ones are deleted, the others keep their standing,
/// and after them come the new triangles, live, with the given vertices, in
/// order.
pub proof fn lemma_carving_replaces_the_crossed(tris: Seq<Triangle>, crossed: Seq<TriIdx>, fresh: Seq<[VertIdx; 3]>)
    requires
        tris.len() <= usize::MAX,
    ensures
        carved(tris, crossed, fresh).len() == tris.len() + fresh.len(),
        forall|u: int|
            0 <= u < tris.len() ==> (#[trigger] carved(tris, crossed, fresh)[u]).v == tris[u].v && carved(
                tris,
                crossed,
                fresh,
            )[u].deleted == (tris[u].deleted || exists|k: int|
                0 <= k < crossed.len() && #[trigger] crossed[k] as int == u),
        forall|k: int|
            0 <= k < fresh.len() ==> (#[trigger] carved(tris, crossed, fresh)[tris.len() + k]).v == fresh[k]
                && !carved(tris, crossed, fresh)[tris.len() + k].deleted,
{
    let c = carved(tris, crossed, fresh);
    assert forall|u: int| 0 <= u < tris.len() implies (#[trigger] c[u]).v == tris[u].v && c[u].deleted == (
    tris[u].deleted || exists|k: int| 0 <= k < crossed.len() && #[trigger] crossed[k] as int == u) by {
        if crossed.contains(u as TriIdx) {
            let k = choose|k: int| 0 <= k < crossed.len() && crossed[k] == u as TriIdx;
            assert(crossed[k] as int == u);
        }
        if exists|k: int| 0 <= k < crossed.len() && #[trigger] crossed[k] as int == u {
            let k = choose|k: int| 0 <= k < crossed.len() && #[trigger] crossed[k] as int == u;
            assert(crossed[k] == u as TriIdx);
        }
    }
}

/// Replace the triangles a constraint crosses by the triangles that fill the
/// two sides of it, then rebuild every link and constraint flag.
///
/// `fresh` holds the new triangles' vertices, already wound
/// counter-clockwise.
#[verifier::spinoff_prover]
pub fn carve<P>(t: &mut Triangulation<P>, crossed: &Vec<TriIdx>, fresh: &Vec<[VertIdx; 3]>)
    requires
        forall|k: int| 0 <= k < crossed.len() ==> #[trigger] crossed@[k] < old(t).triangles.len(),
        old(t).triangles.len() + fresh.len() <= usize::MAX,
    ensures
        is_rebuild_of(
            final(t).triangles@,
            carved(old(t).triangles@, crossed@, fresh@),
            old(t).constraints@,
        ),
        final(t).points@ == old(t).points@,
        final(t).constraints@ == old(t).constraints@,
        final(t).num_input == old(t).num_input,
{
    let ghost tris0 = t.triangles@;
    tombstone_cavity(t, crossed);
    let ghost tris1 = t.triangles@;
    let mut k: usize = 0;
    while k < fresh.len()
        invariant
            k <= fresh.len(),
            tris1.len() == tris0.len(),
            tris1.len() + fresh.len() <= usize::MAX,
            t.triangles@.len() == tris1.len() + k,
            forall|u: int| 0 <= u < tris1.len() ==> #[trigger] t.triangles@[u] == tris1[u],
            forall|j: int|
                0 <= j < k ==> #[trigger] t.triangles@[tris1.len() + j] == fresh_triangle(fresh@[j]),
            t.points@ == old(t).points@,
            t.constraints@ == old(t).constraints@,
            t.num_input == old(t).num_input,
        decreases fresh.len() - k,
    {
        let v = fresh[k];
        let tri = Triangle::new(v[0], v[1], v[2]);
        assert(tri.v =~= v);
        assert(tri.n =~= [NO_NEIGHBOUR, NO_NEIGHBOUR, NO_NEIGHBOUR]);
        assert(tri.constrained =~= [false, false, false]);
        t.triangles.push(tri);
        k += 1;
    }
    proof {
        let c = carved(tris0, crossed@, fresh@);
        assert forall|u: int| 0 <= u < c.len() implies #[trigger] t.triangles@[u] == c[u] by {
            if u < tris0.len() {
                assert(tombstoned_copy(tris1[u], tris0[u], crossed@.contains(u as TriIdx)));
                assert(t.triangles@[u] == tris1[u]);
            } else {
                let j = u - tris1.len();
                assert(t.triangles@[tris1.len() + j] == fresh_triangle(fresh@[j]));
            }
        }
        assert(t.triangles@ =~= c);
    }
    t.rebuild_adjacency();
}


/// The edges between consecutive distinct entries of the first `k + 1`
/// entries of a vertex chain.
pub open spec fn chain_edges_upto(idx: Seq<VertIdx>, k: int) -> Seq<(VertIdx, VertIdx)>
    decreases k,
{
    if k <= 0 {
        Seq::empty()
    } else {
        let p = chain_edges_upto(idx, k - 1);
        if idx[k - 1] != idx[k] {
            p.push((idx[k - 1], idx[k]))
        } else {
            p
        }
    }
}

/// The edges of an open vertex chain: each consecutive pair, skipping a
/// vertex repeated in place.
pub open spec fn spec_chain_edges(idx: Seq<VertIdx>) -> Seq<(VertIdx, VertIdx)> {
    if idx.len() == 0 {
        Seq::empty()
    } else {
        chain_edges_upto(idx, idx.len() - 1)
    }
}

/// The edges of the first `k` vertices of a closed ring, each to the next
/// (the last to the first), skipping a vertex repeated in place.
pub open spec fn ring_edges_upto(idx: Seq<VertIdx>, k: int) -> Seq<(VertIdx, VertIdx)>
    decreases k,
{
    if k <= 0 {
        Seq::empty()
    } else {
        let p = ring_edges_upto(idx, k - 1);
        let a = idx[k - 1];
        let b = idx[k % idx.len() as int];
        if a != b {
            p.push((a, b))
        } else {
            p
        }
    }
}

/// The edges of a closed ring.
pub open spec fn spec_ring_edges(idx: Seq<VertIdx>) -> Seq<(VertIdx, VertIdx)> {
    ring_edges_upto(idx, idx.len() as int)
}

/// The constraint edges of an open wall run, given its vertex indices.
pub fn chain_edges(idx: &Vec<VertIdx>) -> (r: Vec<(VertIdx, VertIdx)>)
    ensures
        r@ == spec_chain_edges(idx@),
{
    let mut out: Vec<(VertIdx, VertIdx)> = Vec::new();
    let mut k: usize = 1;
    while k < idx.len()
        invariant
            1 <= k,
            k == 1 || k <= idx@.len(),
            out@ == chain_edges_upto(idx@, k - 1),
        decreases idx.len() - k,
    {
        if idx[k - 1] != idx[k] {
            out.push((idx[k - 1], idx[k]));
        }
        k += 1;
    }
    proof {
        if idx@.len() > 0 {
            assert(k == idx@.len());
        }
    }
    out
}

/// The constraint edges of a closed ring, given its vertex indices.
pub fn ring_edges(idx: &Vec<VertIdx>) -> (r: Vec<(VertIdx, VertIdx)>)
    ensures
        r@ == spec_ring_edges(idx@),
{
    let n = idx.len();
    let mut out: Vec<(VertIdx, VertIdx)> = Vec::new();
    let mut i: usize = 0;
    while i < n
        invariant
            n == idx@.len(),
            i <= n,
            out@ == ring_edges_upto(idx@, i as int),
        decreases n - i,
    {
        let a = idx[i];
        let b = idx[(i + 1) % n];
        if a != b {
            out.push((a, b));
        }
        i += 1;
    }
    out
}

/// The normalised keys of an edge list.
pub open spec fn edge_keys(edges: Seq<(VertIdx, VertIdx)>) -> Set<(VertIdx, VertIdx)> {
    edges.map_values(|e: (VertIdx, VertIdx)| spec_edge_key(e.0, e.1)).to_set()
}

/// Drop the temporary seals from the constraints and rebuild adjacency, so the
/// sealed doorways become ordinary mesh edges again.
#[verifier::spinoff_prover]
pub fn unseal<P>(t: &mut Triangulation<P>, seals: &Vec<(VertIdx, VertIdx)>)
    ensures
        final(t).constraints@.to_set() == old(t).constraints@.to_set().difference(
            edge_keys(seals@),
        ),
        is_rebuild_of(final(t).triangles@, old(t).triangles@, final(t).constraints@),
        final(t).points@ == old(t).points@,
        final(t).num_input == old(t).num_input,
{
    let ghost tris = t.triangles@;
    let mut j: usize = 0;
    while j < seals.len()
        invariant
            j <= seals@.len(),
            t.triangles@ == tris,
            tris == old(t).triangles@,
            t.points@ == old(t).points@,
            t.num_input == old(t).num_input,
            t.constraints@.to_set() == old(t).constraints@.to_set().difference(
                edge_keys(seals@.subrange(0, j as int)),
            ),
        decreases seals.len() - j,
    {
        let (a, b) = seals[j];
        t.remove_constraint(a, b);
        proof {
            let f = |e: (VertIdx, VertIdx)| spec_edge_key(e.0, e.1);
            let pre = seals@.subrange(0, j as int);
            assert(seals@.subrange(0, j + 1) =~= pre.push((a, b)));
            assert(pre.push((a, b)).map_values(f) =~= pre.map_values(f).push(spec_edge_key(a, b)));
            lemma_push_to_set(pre.map_values(f), spec_edge_key(a, b));
            assert(t.constraints@.to_set() =~= old(t).constraints@.to_set().difference(
                edge_keys(seals@.subrange(0, j + 1)),
            ));
        }
        j += 1;
    }
    assert(seals@.subrange(0, seals@.len() as int) =~= seals@);
    t.rebuild_adjacency();
}

} // verus!
