//! Triangle records and the topology of a triangle mesh.
//!
//! # Representation
//!
//! Triangles are stored in a flat `Vec` and referred to by index. Each triangle
//! keeps its three vertex indices and its three neighbour triangle indices,
//! where neighbour `i` is the triangle across the edge *opposite* vertex `i`.
//!
//! Deleted triangles are tombstoned rather than removed, so indices stay stable
//! during a build. [`Triangulation::compact`] drops them at the end.
//!
//! The mesh is generic over its point type: nothing here reads a coordinate.
//! The point list is carried along so that vertex indices and the points they
//! name stay together, and so that compaction can drop the helper vertices
//! appended after the input points.

use vstd::prelude::*;
use vstd::string::StringExecFns;
use crate::predicates::Orientation;
use crate::text::{decimal, spec_decimal};

verus! {

/// Index of a triangle within [`Triangulation::triangles`].
pub type TriIdx = usize;

/// Index of a vertex within [`Triangulation::points`].
pub type VertIdx = usize;

/// Sentinel for "no neighbour" — the edge is on the convex hull.
pub const NO_NEIGHBOUR: TriIdx = usize::MAX;

#[derive(Clone, Copy, Debug, PartialEq, Eq)]
pub struct Triangle {
    /// Vertex indices, always counter-clockwise.
    pub v: [VertIdx; 3],
    /// `n[i]` is the triangle across the edge opposite vertex `v[i]`,
    /// or [`NO_NEIGHBOUR`].
    pub n: [TriIdx; 3],
    /// `constrained[i]` marks the edge opposite vertex `v[i]` as a constraint
    /// edge — a wall.
    pub constrained: [bool; 3],
    /// Tombstone. Compacted away by [`Triangulation::compact`].
    pub deleted: bool,
}

/// The edge opposite vertex `i`, as an ordered vertex pair with the triangle
/// on its left.
pub open spec fn tri_edge(t: Triangle, i: int) -> (VertIdx, VertIdx) {
    (t.v[(i + 1) % 3], t.v[(i + 2) % 3])
}

/// Does the triangle use vertex `x`?
pub open spec fn tri_has_vertex(t: Triangle, x: VertIdx) -> bool {
    t.v[0] == x || t.v[1] == x || t.v[2] == x
}

/// One representation of an undirected edge: the smaller index first.
pub open spec fn spec_edge_key(a: VertIdx, b: VertIdx) -> (VertIdx, VertIdx) {
    if a < b {
        (a, b)
    } else {
        (b, a)
    }
}

impl Triangle {
    /// A fresh triangle with no neighbours, no constrained edges, not deleted.
    pub fn new(a: VertIdx, b: VertIdx, c: VertIdx) -> (t: Triangle)
        ensures
            t.v@ == seq![a, b, c],
            t.n@ == seq![NO_NEIGHBOUR, NO_NEIGHBOUR, NO_NEIGHBOUR],
            t.constrained@ == seq![false, false, false],
            !t.deleted,
    {
        let t = Triangle {
            v: [a, b, c],
            n: [NO_NEIGHBOUR, NO_NEIGHBOUR, NO_NEIGHBOUR],
            constrained: [false, false, false],
            deleted: false,
        };
        assert(t.v@ =~= seq![a, b, c]);
        assert(t.n@ =~= seq![NO_NEIGHBOUR, NO_NEIGHBOUR, NO_NEIGHBOUR]);
        assert(t.constrained@ =~= seq![false, false, false]);
        t
    }

    /// The edge opposite vertex `i`, as an ordered vertex pair.
    ///
    /// Ordered so the triangle stays on the left, which makes the pairing with
    /// the neighbour's reversed edge unambiguous.
    pub fn edge(&self, i: usize) -> (e: (VertIdx, VertIdx))
        requires
            i < 3,
        ensures
            e == tri_edge(*self, i as int),
    {
        (self.v[(i + 1) % 3], self.v[(i + 2) % 3])
    }

    /// Position of vertex `x` within this triangle, if present: the first one.
    pub fn index_of(&self, x: VertIdx) -> (r: Option<usize>)
        ensures
            match r {
                Some(k) => k < 3 && self.v[k as int] == x && forall|j: int|
                    0 <= j < k ==> self.v[j] != x,
                None => !tri_has_vertex(*self, x),
            },
    {
        if self.v[0] == x {
            Some(0)
        } else if self.v[1] == x {
            Some(1)
        } else if self.v[2] == x {
            Some(2)
        } else {
            None
        }
    }

    pub fn contains_vertex(&self, x: VertIdx) -> (r: bool)
        ensures
            r == tri_has_vertex(*self, x),
    {
        self.v[0] == x || self.v[1] == x || self.v[2] == x
    }
}

/// Normalise a vertex pair so an edge has one representation regardless of
/// which direction it was discovered from.
pub fn edge_key(a: VertIdx, b: VertIdx) -> (k: (VertIdx, VertIdx))
    ensures
        k == spec_edge_key(a, b),
{
    if a < b {
        (a, b)
    } else {
        (b, a)
    }
}

/// An edge key does not depend on the direction the edge is read in, lists
/// the smaller index first, and names exactly the two vertices it was given.
pub proof fn lemma_edge_key_normalises(a: VertIdx, b: VertIdx)
    ensures
        spec_edge_key(a, b) == spec_edge_key(b, a),
        spec_edge_key(a, b).0 <= spec_edge_key(a, b).1,
        (spec_edge_key(a, b) == (a, b)) || (spec_edge_key(a, b) == (b, a)),
        spec_edge_key(spec_edge_key(a, b).0, spec_edge_key(a, b).1) == spec_edge_key(a, b),
{
}

/// Two directed edges have the same key exactly when they join the same two
/// vertices, in either direction.
pub proof fn lemma_edge_key_identifies_edges(a: VertIdx, b: VertIdx, c: VertIdx, d: VertIdx)
    ensures
        (spec_edge_key(a, b) == spec_edge_key(c, d)) == ((a == c && b == d) || (a == d && b
            == c)),
{
}

#[derive(Clone, Debug, PartialEq, Eq)]
pub enum TriangulationError {
    /// Fewer than three input points.
    TooFewPoints(usize),
    /// All input points are collinear, so there is no triangle to build.
    AllCollinear,
    /// A coordinate was NaN or infinite.
    NonFinite(usize),
    /// Two input points coincide. Callers should deduplicate first — silently
    /// dropping a point would shift every downstream vertex index.
    DuplicatePoint { a: VertIdx, b: VertIdx },
}

impl TriangulationError {
    /// How the error reads.
    pub open spec fn text(&self) -> Seq<char> {
        match *self {
            TriangulationError::TooFewPoints(n) => "need at least 3 points, got "@ + spec_decimal(
                n as nat,
            ),
            TriangulationError::AllCollinear => "all input points are collinear"@,
            TriangulationError::NonFinite(i) => "point "@ + spec_decimal(i as nat) + " is not finite"@,
            TriangulationError::DuplicatePoint { a, b } => "points "@ + spec_decimal(a as nat)
                + " and "@ + spec_decimal(b as nat) + " coincide; deduplicate before triangulating"@,
        }
    }

    /// How the error reads.
    pub fn to_string(&self) -> (r: String)
        ensures
            r@ == self.text(),
    {
        match self {
            TriangulationError::TooFewPoints(n) => String::from_str(
                "need at least 3 points, got ",
            ).concat(decimal(*n).as_str()),
            TriangulationError::AllCollinear => String::from_str("all input points are collinear"),
            TriangulationError::NonFinite(i) => String::from_str("point ").concat(
                decimal(*i).as_str(),
            ).concat(" is not finite"),
            TriangulationError::DuplicatePoint { a, b } => String::from_str("points ").concat(
                decimal(*a).as_str(),
            ).concat(" and ").concat(decimal(*b).as_str()).concat(
                " coincide; deduplicate before triangulating",
            ),
        }
    }
}

// ---------------------------------------------------------------------------
// Specification vocabulary over a triangle list
// ---------------------------------------------------------------------------

/// Indices of the live triangles among the first `k`, in increasing order.
pub open spec fn live_prefix(tris: Seq<Triangle>, k: int) -> Seq<int>
    decreases k,
{
    if k <= 0 {
        Seq::empty()
    } else {
        let p = live_prefix(tris, k - 1);
        if !tris[k - 1].deleted {
            p.push(k - 1)
        } else {
            p
        }
    }
}

/// Indices of all live triangles, in increasing order.
pub open spec fn live_indices(tris: Seq<Triangle>) -> Seq<int> {
    live_prefix(tris, tris.len() as int)
}

/// Number of live triangles.
pub open spec fn spec_live_count(tris: Seq<Triangle>) -> nat {
    live_indices(tris).len()
}

/// Every live triangle's neighbour links name a triangle or the sentinel.
pub open spec fn links_in_range(tris: Seq<Triangle>) -> bool {
    forall|t: int, k: int|
        0 <= t < tris.len() && 0 <= k < 3 && !tris[t].deleted ==> (#[trigger] tris[t].n[k]
            == NO_NEIGHBOUR || tris[t].n[k] < tris.len())
}

/// `live_prefix` lists exactly the live indices below `k`, in increasing order.
pub proof fn lemma_live_prefix(tris: Seq<Triangle>, k: int)
    requires
        0 <= k <= tris.len(),
    ensures
        live_prefix(tris, k).len() <= k,
        forall|j: int|
            0 <= j < live_prefix(tris, k).len() ==> 0 <= #[trigger] live_prefix(tris, k)[j] < k
                && !tris[live_prefix(tris, k)[j]].deleted,
        forall|j1: int, j2: int|
            0 <= j1 < j2 < live_prefix(tris, k).len() ==> #[trigger] live_prefix(tris, k)[j1]
                < #[trigger] live_prefix(tris, k)[j2],
    decreases k,
{
    if k > 0 {
        lemma_live_prefix(tris, k - 1);
    }
}

/// A live triangle below `k` sits in `live_prefix(tris, k)` at its rank.
pub proof fn lemma_live_rank(tris: Seq<Triangle>, k: int, x: int)
    requires
        0 <= x < k <= tris.len(),
        !tris[x].deleted,
    ensures
        live_prefix(tris, x).len() < live_prefix(tris, k).len(),
        live_prefix(tris, k)[live_prefix(tris, x).len() as int] == x,
    decreases k,
{
    if x < k - 1 {
        lemma_live_rank(tris, k - 1, x);
    }
}

/// Where a neighbour index lands once tombstones are removed: live triangles
/// keep their rank among live triangles, anything else becomes "no neighbour".
pub open spec fn compacted_index(tris: Seq<Triangle>, x: TriIdx) -> TriIdx {
    if x == NO_NEIGHBOUR || x >= tris.len() || tris[x as int].deleted {
        NO_NEIGHBOUR
    } else {
        live_prefix(tris, x as int).len() as TriIdx
    }
}

/// Slot `s` names edge `s % 3` of triangle `s / 3`.
pub open spec fn slot_key(tris: Seq<Triangle>, s: int) -> (VertIdx, VertIdx) {
    let e = tri_edge(tris[s / 3], s % 3);
    spec_edge_key(e.0, e.1)
}

/// The slots below `k` that belong to live triangles and carry edge `key`.
pub open spec fn owners_upto(tris: Seq<Triangle>, key: (VertIdx, VertIdx), k: int) -> Seq<int>
    decreases k,
{
    if k <= 0 {
        Seq::empty()
    } else {
        let p = owners_upto(tris, key, k - 1);
        if !tris[(k - 1) / 3].deleted && slot_key(tris, k - 1) == key {
            p.push(k - 1)
        } else {
            p
        }
    }
}

/// Every slot of a live triangle carrying edge `key`, in slot order.
pub open spec fn owners(tris: Seq<Triangle>, key: (VertIdx, VertIdx)) -> Seq<int> {
    owners_upto(tris, key, 3 * tris.len() as int)
}

/// The neighbour an adjacency rebuild assigns to slot `s`: the other owner of
/// its edge when exactly two slots own it (a manifold edge), otherwise none.
pub open spec fn rebuilt_neighbour(tris: Seq<Triangle>, s: int) -> TriIdx {
    let o = owners(tris, slot_key(tris, s));
    if o.len() == 2 {
        if o[0] == s {
            (o[1] / 3) as TriIdx
        } else {
            (o[0] / 3) as TriIdx
        }
    } else {
        NO_NEIGHBOUR
    }
}

/// Does a triangle touch one of the helper vertices appended after the input?
pub open spec fn touches_helper(t: Triangle, num_input: usize) -> bool {
    t.v[0] >= num_input || t.v[1] >= num_input || t.v[2] >= num_input
}

/// `new` is `old` with every triangle that names a helper vertex tombstoned:
/// same length, same vertices, and a triangle is deleted exactly when it was
/// already or touches a helper.
pub open spec fn helpers_tombstoned(new: Seq<Triangle>, old: Seq<Triangle>, num_input: usize) -> bool {
    &&& new.len() == old.len()
    &&& forall|t: int|
        0 <= t < old.len() ==> (#[trigger] new[t]).v == old[t].v && new[t].deleted == (
        old[t].deleted || touches_helper(old[t], num_input))
}

/// `new` holds the vertices of the live triangles of `old`, in order.
pub open spec fn keeps_live_vertices(new: Seq<Triangle>, old: Seq<Triangle>) -> bool {
    &&& new.len() == spec_live_count(old)
    &&& forall|j: int| 0 <= j < new.len() ==> (#[trigger] new[j]).v == old[live_indices(old)[j]].v
}

/// A mesh under construction or finished.
#[derive(Clone, Debug)]
pub struct Triangulation<P> {
    /// Input points followed by any helper vertices during a build. After
    /// [`Triangulation::compact`] only the input points remain.
    pub points: Vec<P>,
    pub triangles: Vec<Triangle>,
    /// Constraint edges as normalised `(min, max)` vertex pairs. The
    /// authoritative record; per-triangle `constrained` flags are derived from
    /// this by [`Triangulation::rebuild_adjacency`], so the two cannot disagree.
    pub constraints: Vec<(VertIdx, VertIdx)>,
    /// Number of original input points, i.e. where helper vertices start.
    pub num_input: usize,
}

/// A constraint list is a set of normalised edges: each pair is stored
/// smaller vertex first, and none twice.
pub open spec fn is_constraint_set(c: Seq<(VertIdx, VertIdx)>) -> bool {
    &&& c.no_duplicates()
    &&& forall|k: int| 0 <= k < c.len() ==> (#[trigger] c[k]).0 <= c[k].1
}

/// Appending to a sequence adds exactly that element to its set of elements.
pub proof fn lemma_push_to_set<A>(s: Seq<A>, e: A)
    ensures
        s.push(e).to_set() == s.to_set().insert(e),
{
    broadcast use vstd::set::group_set_axioms;

    assert forall|x: A| #[trigger] s.push(e).to_set().contains(x) == s.to_set().insert(e).contains(
        x,
    ) by {
        if s.push(e).contains(x) {
            let q = choose|q: int| 0 <= q < s.push(e).len() && #[trigger] s.push(e)[q] == x;
            if q < s.len() {
                assert(s[q] == x);
            }
        }
        if s.contains(x) {
            let q = choose|q: int| 0 <= q < s.len() && #[trigger] s[q] == x;
            assert(s.push(e)[q] == x);
        }
        if x == e {
            assert(s.push(e)[s.len() as int] == x);
        }
    }
    assert(s.push(e).to_set() =~= s.to_set().insert(e));
}

fn contains_pair(v: &Vec<(usize, usize)>, k: (usize, usize)) -> (r: bool)
    ensures
        r == v@.contains(k),
{
    let mut j: usize = 0;
    while j < v.len()
        invariant
            j <= v.len(),
            forall|q: int| 0 <= q < j ==> v@[q] != k,
        decreases v.len() - j,
    {
        if v[j].0 == k.0 && v[j].1 == k.1 {
            return true;
        }
        j += 1;
    }
    false
}

impl<P> Triangulation<P> {
    /// An empty mesh over the given points.
    pub fn new(points: Vec<P>, num_input: usize) -> (t: Triangulation<P>)
        ensures
            t.points@ == points@,
            t.triangles@.len() == 0,
            t.constraints@.len() == 0,
            t.num_input == num_input,
    {
        Triangulation { points, triangles: Vec::new(), constraints: Vec::new(), num_input }
    }

    /// Indices of the triangles that survive, ignoring tombstones, in order.
    pub fn live(&self) -> (r: Vec<TriIdx>)
        ensures
            r@.len() == live_indices(self.triangles@).len(),
            forall|j: int|
                0 <= j < r@.len() ==> #[trigger] r@[j] as int == live_indices(self.triangles@)[j],
    {
        let mut out: Vec<TriIdx> = Vec::new();
        let mut i: usize = 0;
        while i < self.triangles.len()
            invariant
                i <= self.triangles@.len(),
                out@.len() == live_prefix(self.triangles@, i as int).len(),
                forall|j: int|
                    0 <= j < out@.len() ==> #[trigger] out@[j] as int == live_prefix(
                        self.triangles@,
                        i as int,
                    )[j],
            decreases self.triangles.len() - i,
        {
            if !self.triangles[i].deleted {
                out.push(i);
            }
            i += 1;
        }
        out
    }

    pub fn live_count(&self) -> (c: usize)
        ensures
            c == spec_live_count(self.triangles@),
    {
        let mut c: usize = 0;
        let mut i: usize = 0;
        while i < self.triangles.len()
            invariant
                i <= self.triangles@.len(),
                c == live_prefix(self.triangles@, i as int).len(),
            decreases self.triangles.len() - i,
        {
            proof {
                lemma_live_prefix(self.triangles@, i as int);
            }
            if !self.triangles[i].deleted {
                c += 1;
            }
            i += 1;
        }
        c
    }

    pub fn vertex(&self, v: VertIdx) -> (p: P) where P: Copy
        requires
            v < self.points@.len(),
        ensures
            p == self.points@[v as int],
    {
        self.points[v]
    }

    /// Is the edge opposite vertex `i` of triangle `t` a constraint?
    pub fn is_constrained(&self, t: TriIdx, i: usize) -> (r: bool)
        requires
            t < self.triangles@.len(),
            i < 3,
        ensures
            r == self.triangles@[t as int].constrained[i as int],
    {
        self.triangles[t].constrained[i]
    }

    /// Is `key` recorded as a constraint edge?
    pub fn has_constraint(&self, key: (VertIdx, VertIdx)) -> (r: bool)
        ensures
            r == self.constraints@.contains(key),
    {
        contains_pair(&self.constraints, key)
    }

    /// Record the constraint edge `a—b`, once.
    pub fn add_constraint(&mut self, a: VertIdx, b: VertIdx)
        ensures
            final(self).constraints@.to_set() == old(self).constraints@.to_set().insert(
                spec_edge_key(a, b),
            ),
            is_constraint_set(old(self).constraints@) ==> is_constraint_set(
                final(self).constraints@,
            ),
            final(self).points@ == old(self).points@,
            final(self).triangles@ == old(self).triangles@,
            final(self).num_input == old(self).num_input,
    {
        let k = edge_key(a, b);
        if !contains_pair(&self.constraints, k) {
            self.constraints.push(k);
            proof {
                lemma_push_to_set(old(self).constraints@, k);
            }
        } else {
            assert(self.constraints@.to_set() =~= old(self).constraints@.to_set().insert(k));
        }
    }

    /// Forget the constraint edge `a—b`.
    pub fn remove_constraint(&mut self, a: VertIdx, b: VertIdx)
        ensures
            final(self).constraints@.to_set() == old(self).constraints@.to_set().remove(
                spec_edge_key(a, b),
            ),
            is_constraint_set(old(self).constraints@) ==> is_constraint_set(
                final(self).constraints@,
            ),
            final(self).points@ == old(self).points@,
            final(self).triangles@ == old(self).triangles@,
            final(self).num_input == old(self).num_input,
    {
        let k = edge_key(a, b);
        let mut kept: Vec<(VertIdx, VertIdx)> = Vec::new();
        let mut j: usize = 0;
        while j < self.constraints.len()
            invariant
                j <= self.constraints@.len(),
                kept@.to_set() == self.constraints@.subrange(0, j as int).to_set().remove(k),
                is_constraint_set(self.constraints@) ==> is_constraint_set(kept@),
                forall|x: int|
                    0 <= x < kept@.len() ==> exists|q: int|
                        0 <= q < j && self.constraints@[q] == #[trigger] kept@[x],
            decreases self.constraints.len() - j,
        {
            let e = self.constraints[j];
            let ghost before = kept@;
            assert(self.constraints@.subrange(0, j + 1) =~= self.constraints@.subrange(
                0,
                j as int,
            ).push(e));
            proof {
                lemma_push_to_set(self.constraints@.subrange(0, j as int), e);
            }
            if !(e.0 == k.0 && e.1 == k.1) {
                kept.push(e);
                proof {
                    lemma_push_to_set(before, e);
                    if is_constraint_set(self.constraints@) {
                        assert forall|x: int, y: int|
                            0 <= x < kept@.len() && 0 <= y < kept@.len() && x != y implies kept@[x]
                            != kept@[y] by {
                            if y == kept@.len() - 1 && x < y {
                                let q = choose|q: int|
                                    0 <= q < j && self.constraints@[q] == #[trigger] before[x];
                                assert(self.constraints@[q] != self.constraints@[j as int]);
                            } else if x == kept@.len() - 1 && y < x {
                                let q = choose|q: int|
                                    0 <= q < j && self.constraints@[q] == #[trigger] before[y];
                                assert(self.constraints@[q] != self.constraints@[j as int]);
                            }
                        }
                    }
                    assert forall|x: int| 0 <= x < kept@.len() implies exists|q: int|
                        0 <= q < j + 1 && self.constraints@[q] == #[trigger] kept@[x] by {
                        if x < before.len() {
                            let q = choose|q: int|
                                0 <= q < j && self.constraints@[q] == #[trigger] before[x];
                            assert(0 <= q < j + 1 && self.constraints@[q] == kept@[x]);
                        } else {
                            assert(self.constraints@[j as int] == kept@[x]);
                        }
                    }
                }
            }
            assert(kept@.to_set() =~= self.constraints@.subrange(0, j + 1).to_set().remove(k));
            j += 1;
        }
        assert(self.constraints@.subrange(0, self.constraints@.len() as int)
            =~= self.constraints@);
        self.constraints = kept;
    }
}

/// Slot arithmetic: slot `3t + i` is edge `i` of triangle `t`.
pub proof fn lemma_slot(t: int, i: int)
    requires
        t >= 0,
        0 <= i < 3,
    ensures
        (3 * t + i) / 3 == t,
        (3 * t + i) % 3 == i,
{
    assert((3 * t + i) / 3 == t) by (nonlinear_arith)
        requires
            t >= 0,
            0 <= i < 3,
    ;
    assert((3 * t + i) % 3 == i) by (nonlinear_arith)
        requires
            t >= 0,
            0 <= i < 3,
    ;
}

/// A deleted triangle owns none of its slots.
proof fn lemma_owners_skip_deleted(tris: Seq<Triangle>, key: (VertIdx, VertIdx), t: int)
    requires
        0 <= t < tris.len(),
        tris[t].deleted,
    ensures
        owners_upto(tris, key, 3 * t + 3) == owners_upto(tris, key, 3 * t),
{
    lemma_slot(t, 0);
    lemma_slot(t, 1);
    lemma_slot(t, 2);
    assert(owners_upto(tris, key, 3 * t + 1) == owners_upto(tris, key, 3 * t));
    assert(owners_upto(tris, key, 3 * t + 2) == owners_upto(tris, key, 3 * t + 1));
}

/// How many live slots carry `key` (counting stops at three), and the first
/// two of them as `(triangle, edge)` pairs.
fn scan_owners(tris: &Vec<Triangle>, key: (VertIdx, VertIdx)) -> (r: (
    usize,
    (usize, usize),
    (usize, usize),
))
    ensures
        r.0 as int == if owners(tris@, key).len() < 3 {
            owners(tris@, key).len() as int
        } else {
            3
        },
        r.0 >= 1 ==> (r.1).1 < 3 && 3 * (r.1).0 + (r.1).1 == owners(tris@, key)[0],
        r.0 >= 2 ==> (r.2).1 < 3 && 3 * (r.2).0 + (r.2).1 == owners(tris@, key)[1],
{
    let mut count: usize = 0;
    let mut f: (usize, usize) = (0, 0);
    let mut g: (usize, usize) = (0, 0);
    let mut t: usize = 0;
    while t < tris.len()
        invariant
            t <= tris@.len(),
            count as int == if owners_upto(tris@, key, 3 * t).len() < 3 {
                owners_upto(tris@, key, 3 * t).len() as int
            } else {
                3
            },
            count >= 1 ==> f.1 < 3 && 3 * f.0 + f.1 == owners_upto(tris@, key, 3 * t)[0],
            count >= 2 ==> g.1 < 3 && 3 * g.0 + g.1 == owners_upto(tris@, key, 3 * t)[1],
        decreases tris.len() - t,
    {
        if tris[t].deleted {
            proof {
                lemma_owners_skip_deleted(tris@, key, t as int);
            }
        } else {
            let mut i: usize = 0;
            while i < 3
                invariant
                    t < tris@.len(),
                    !tris@[t as int].deleted,
                    i <= 3,
                    count as int == if owners_upto(tris@, key, 3 * t + i).len() < 3 {
                        owners_upto(tris@, key, 3 * t + i).len() as int
                    } else {
                        3
                    },
                    count >= 1 ==> f.1 < 3 && 3 * f.0 + f.1 == owners_upto(tris@, key, 3 * t + i)[0],
                    count >= 2 ==> g.1 < 3 && 3 * g.0 + g.1 == owners_upto(tris@, key, 3 * t + i)[1],
                decreases 3 - i,
            {
                proof {
                    lemma_slot(t as int, i as int);
                }
                let (a, b) = tris[t].edge(i);
                let k = edge_key(a, b);
                if k.0 == key.0 && k.1 == key.1 {
                    if count == 0 {
                        f = (t, i);
                    } else if count == 1 {
                        g = (t, i);
                    }
                    if count < 3 {
                        count += 1;
                    }
                }
                i += 1;
            }
        }
        t += 1;
    }
    (count, f, g)
}

/// `new` is what rebuilding the adjacency of `old` produces: vertices and
/// tombstones kept, each live slot linked to the other owner of its edge when
/// the edge has exactly two owners, flagged when its edge is a constraint, and
/// deleted triangles cleared.
pub open spec fn is_rebuild_of(
    new: Seq<Triangle>,
    old: Seq<Triangle>,
    constraints: Seq<(VertIdx, VertIdx)>,
) -> bool {
    &&& new.len() == old.len()
    &&& forall|t: int|
        0 <= t < old.len() ==> (#[trigger] new[t]).v == old[t].v && new[t].deleted == old[t].deleted
    &&& forall|t: int, i: int|
        0 <= t < old.len() && 0 <= i < 3 ==> #[trigger] new[t].n[i] == if old[t].deleted {
            NO_NEIGHBOUR
        } else {
            rebuilt_neighbour(old, 3 * t + i)
        }
    &&& forall|t: int, i: int|
        0 <= t < old.len() && 0 <= i < 3 ==> #[trigger] new[t].constrained[i] == (!old[t].deleted
            && constraints.contains(slot_key(old, 3 * t + i)))
}

impl<P> Triangulation<P> {
    /// The neighbour and constraint flag a rebuild assigns to edge `i` of the
    /// live triangle `t`.
    fn rebuilt_slot(&self, t: TriIdx, i: usize) -> (r: (TriIdx, bool))
        requires
            t < self.triangles@.len(),
            i < 3,
            !self.triangles@[t as int].deleted,
        ensures
            r.0 == rebuilt_neighbour(self.triangles@, 3 * t + i),
            r.1 == self.constraints@.contains(slot_key(self.triangles@, 3 * t + i)),
    {
        proof {
            lemma_slot(t as int, i as int);
        }
        let (a, b) = self.triangles[t].edge(i);
        let key = edge_key(a, b);
        let (count, f, g) = scan_owners(&self.triangles, key);
        let ghost o = owners(self.triangles@, key);
        let nb = if count == 2 {
            proof {
                lemma_slot(f.0 as int, f.1 as int);
                lemma_slot(g.0 as int, g.1 as int);
            }
            if f.0 == t && f.1 == i {
                g.0
            } else {
                assert(o[0] != 3 * t + i);
                f.0
            }
        } else {
            NO_NEIGHBOUR
        };
        (nb, contains_pair(&self.constraints, key))
    }

    /// Rebuild every neighbour link and constraint flag from scratch by
    /// matching edges.
    ///
    /// A link is made across an edge exactly when two live slots carry it; an
    /// edge carried by one slot is on the boundary and one carried by three or
    /// more is not manifold, and both get no neighbour. Deleted triangles lose
    /// all their links and flags.
    #[verifier::spinoff_prover]
    pub fn rebuild_adjacency(&mut self)
        ensures
            is_rebuild_of(final(self).triangles@, old(self).triangles@, old(self).constraints@),
            final(self).points@ == old(self).points@,
            final(self).constraints@ == old(self).constraints@,
            final(self).num_input == old(self).num_input,
    {
        let mut out: Vec<Triangle> = Vec::new();
        let mut t: usize = 0;
        while t < self.triangles.len()
            invariant
                t <= self.triangles@.len(),
                out@.len() == t,
                forall|u: int|
                    0 <= u < t ==> (#[trigger] out@[u]).v == self.triangles@[u].v
                        && out@[u].deleted == self.triangles@[u].deleted,
                forall|u: int, i: int|
                    0 <= u < t && 0 <= i < 3 ==> #[trigger] out@[u].n[i] == if self.triangles@[u].deleted {
                        NO_NEIGHBOUR
                    } else {
                        rebuilt_neighbour(self.triangles@, 3 * u + i)
                    },
                forall|u: int, i: int|
                    0 <= u < t && 0 <= i < 3 ==> #[trigger] out@[u].constrained[i] == (
                    !self.triangles@[u].deleted && self.constraints@.contains(
                        slot_key(self.triangles@, 3 * u + i),
                    )),
            decreases self.triangles.len() - t,
        {
            let tri = self.triangles[t];
            if tri.deleted {
                out.push(
                    Triangle {
                        v: tri.v,
                        n: [NO_NEIGHBOUR, NO_NEIGHBOUR, NO_NEIGHBOUR],
                        constrained: [false, false, false],
                        deleted: true,
                    },
                );
            } else {
                let (n0, c0) = self.rebuilt_slot(t, 0);
                let (n1, c1) = self.rebuilt_slot(t, 1);
                let (n2, c2) = self.rebuilt_slot(t, 2);
                out.push(
                    Triangle { v: tri.v, n: [n0, n1, n2], constrained: [c0, c1, c2], deleted: false },
                );
            }
            t += 1;
        }
        self.triangles = out;
    }

    /// Discard every triangle still attached to a helper vertex (one at index
    /// `num_input` or above), then clear neighbour links that point at deleted
    /// triangles.
    pub fn remove_super_triangle(&mut self)
        requires
            forall|t: int, k: int|
                0 <= t < old(self).triangles@.len() && 0 <= k < 3 && !old(self).triangles@[t].deleted
                    && !touches_helper(old(self).triangles@[t], old(self).num_input) ==> (
                #[trigger] old(self).triangles@[t].n[k] == NO_NEIGHBOUR || old(self).triangles@[t].n[k]
                    < old(self).triangles@.len()),
        ensures
            final(self).triangles@.len() == old(self).triangles@.len(),
            helpers_tombstoned(final(self).triangles@, old(self).triangles@, old(self).num_input),
            final(self).points@ == old(self).points@,
            final(self).constraints@ == old(self).constraints@,
            final(self).num_input == old(self).num_input,
            forall|t: int|
                0 <= t < old(self).triangles@.len() ==> (#[trigger] final(self).triangles@[t]).v
                    == old(self).triangles@[t].v && final(self).triangles@[t].constrained == old(self).triangles@[t].constrained && final(self).triangles@[t].deleted == (old(self).triangles@[t].deleted || touches_helper(
                    old(self).triangles@[t],
                    old(self).num_input,
                )),
            forall|t: int, k: int|
                0 <= t < old(self).triangles@.len() && 0 <= k < 3 ==> #[trigger] final(self).triangles@[t].n[k] == if !final(self).triangles@[t].deleted && old(self).triangles@[t].n[k] != NO_NEIGHBOUR && final(self).triangles@[old(self).triangles@[t].n[k] as int].deleted {
                    NO_NEIGHBOUR
                } else {
                    old(self).triangles@[t].n[k]
                },
    {
        let n = self.num_input;
        let mut marked: Vec<Triangle> = Vec::new();
        let mut t: usize = 0;
        while t < self.triangles.len()
            invariant
                t <= self.triangles@.len(),
                marked@.len() == t,
                forall|u: int|
                    0 <= u < t ==> (#[trigger] marked@[u]).v == self.triangles@[u].v
                        && marked@[u].n == self.triangles@[u].n && marked@[u].constrained
                        == self.triangles@[u].constrained && marked@[u].deleted == (
                    self.triangles@[u].deleted || touches_helper(self.triangles@[u], n)),
            decreases self.triangles.len() - t,
        {
            let mut tri = self.triangles[t];
            if tri.v[0] >= n || tri.v[1] >= n || tri.v[2] >= n {
                tri.deleted = true;
            }
            marked.push(tri);
            t += 1;
        }
        self.triangles = marked;
        drop_dangling_neighbours(self);
    }
}

impl<P> Triangulation<P> {
    /// Remove tombstoned triangles and the helper vertices, renumbering
    /// everything. Call once the build is finished.
    ///
    /// Live triangles keep their relative order; each neighbour link is
    /// renumbered to its target's new index, and a link to a deleted triangle
    /// becomes "no neighbour".
    #[verifier::spinoff_prover]
    pub fn compact(&mut self)
        requires
            links_in_range(old(self).triangles@),
        ensures
            final(self).triangles@.len() == spec_live_count(old(self).triangles@),
            keeps_live_vertices(final(self).triangles@, old(self).triangles@),
            forall|j: int|
                0 <= j < final(self).triangles@.len() ==> {
                    let o = live_indices(old(self).triangles@)[j];
                    &&& (#[trigger] final(self).triangles@[j]).v == old(self).triangles@[o].v
                    &&& final(self).triangles@[j].constrained == old(self).triangles@[o].constrained
                    &&& !final(self).triangles@[j].deleted
                    &&& forall|k: int|
                        0 <= k < 3 ==> #[trigger] final(self).triangles@[j].n[k] == compacted_index(
                            old(self).triangles@,
                            old(self).triangles@[o].n[k],
                        )
                },
            old(self).num_input <= old(self).points@.len() ==> final(self).points@ == old(
                self,
            ).points@.subrange(0, old(self).num_input as int),
            old(self).num_input > old(self).points@.len() ==> final(self).points@ == old(self).points@,
            final(self).constraints@ == old(self).constraints@,
            final(self).num_input == old(self).num_input,
    {
        let ghost tris = self.triangles@;
        let len = self.triangles.len();
        let mut remap: Vec<TriIdx> = Vec::new();
        let mut out: Vec<Triangle> = Vec::new();
        let mut i: usize = 0;
        while i < len
            invariant
                len == tris.len(),
                tris == self.triangles@,
                i <= len,
                remap@.len() == i,
                forall|x: int|
                    0 <= x < i ==> #[trigger] remap@[x] == if tris[x].deleted {
                        NO_NEIGHBOUR
                    } else {
                        live_prefix(tris, x).len() as TriIdx
                    },
                out@.len() == live_prefix(tris, i as int).len(),
                forall|j: int|
                    0 <= j < out@.len() ==> #[trigger] out@[j] == tris[live_prefix(
                        tris,
                        i as int,
                    )[j]],
            decreases len - i,
        {
            if !self.triangles[i].deleted {
                remap.push(out.len());
                out.push(self.triangles[i]);
            } else {
                remap.push(NO_NEIGHBOUR);
            }
            i += 1;
        }
        proof {
            lemma_live_prefix(tris, len as int);
        }
        let mut j: usize = 0;
        while j < out.len()
            invariant
                len == tris.len(),
                links_in_range(tris),
                remap@.len() == len,
                forall|x: int|
                    0 <= x < len ==> #[trigger] remap@[x] == if tris[x].deleted {
                        NO_NEIGHBOUR
                    } else {
                        live_prefix(tris, x).len() as TriIdx
                    },
                out@.len() == live_indices(tris).len(),
                forall|q: int|
                    0 <= q < live_indices(tris).len() ==> 0 <= #[trigger] live_indices(tris)[q]
                        < len && !tris[live_indices(tris)[q]].deleted,
                j <= out@.len(),
                forall|q: int|
                    j <= q < out@.len() ==> #[trigger] out@[q] == tris[live_indices(tris)[q]],
                forall|q: int|
                    0 <= q < j ==> {
                        let o = live_indices(tris)[q];
                        &&& (#[trigger] out@[q]).v == tris[o].v
                        &&& out@[q].constrained == tris[o].constrained
                        &&& !out@[q].deleted
                        &&& forall|k: int|
                            0 <= k < 3 ==> #[trigger] out@[q].n[k] == compacted_index(
                                tris,
                                tris[o].n[k],
                            )
                    },
            decreases out.len() - j,
        {
            let mut tri = out[j];
            let ghost o = live_indices(tris)[j as int];
            let mut k: usize = 0;
            while k < 3
                invariant
                    len == tris.len(),
                    links_in_range(tris),
                    remap@.len() == len,
                    forall|x: int|
                        0 <= x < len ==> #[trigger] remap@[x] == if tris[x].deleted {
                            NO_NEIGHBOUR
                        } else {
                            live_prefix(tris, x).len() as TriIdx
                        },
                    0 <= o < len,
                    !tris[o].deleted,
                    tri.v == tris[o].v,
                    tri.constrained == tris[o].constrained,
                    !tri.deleted,
                    k <= 3,
                    forall|q: int|
                        0 <= q < 3 ==> #[trigger] tri.n[q] == if q < k {
                            compacted_index(tris, tris[o].n[q])
                        } else {
                            tris[o].n[q]
                        },
                decreases 3 - k,
            {
                let x = tri.n[k];
                if x != NO_NEIGHBOUR {
                    assert(x < len);
                    tri.n[k] = remap[x];
                }
                k += 1;
            }
            out.set(j, tri);
            j += 1;
        }
        self.triangles = out;
        self.points.truncate(self.num_input);
    }
}

/// Clear neighbour links that point at deleted triangles.
#[verifier::spinoff_prover]
fn drop_dangling_neighbours<P>(t: &mut Triangulation<P>)
    requires
        forall|u: int, k: int|
            0 <= u < old(t).triangles@.len() && 0 <= k < 3 && !old(t).triangles@[u].deleted ==> (
            #[trigger] old(t).triangles@[u].n[k] == NO_NEIGHBOUR || old(t).triangles@[u].n[k]
                < old(t).triangles@.len()),
    ensures
        final(t).triangles@.len() == old(t).triangles@.len(),
        final(t).points@ == old(t).points@,
        final(t).constraints@ == old(t).constraints@,
        final(t).num_input == old(t).num_input,
        forall|u: int|
            0 <= u < old(t).triangles@.len() ==> (#[trigger] final(t).triangles@[u]).v == old(t).triangles@[u].v && final(t).triangles@[u].constrained == old(t).triangles@[u].constrained
                && final(t).triangles@[u].deleted == old(t).triangles@[u].deleted,
        forall|u: int, k: int|
            0 <= u < old(t).triangles@.len() && 0 <= k < 3 ==> #[trigger] final(t).triangles@[u].n[k]
                == if !old(t).triangles@[u].deleted && old(t).triangles@[u].n[k] != NO_NEIGHBOUR
                && old(t).triangles@[old(t).triangles@[u].n[k] as int].deleted {
                NO_NEIGHBOUR
            } else {
                old(t).triangles@[u].n[k]
            },
{
    let mut out: Vec<Triangle> = Vec::new();
    let mut u: usize = 0;
    while u < t.triangles.len()
        invariant
            u <= t.triangles@.len(),
            out@.len() == u,
            forall|w: int, k: int|
                0 <= w < t.triangles@.len() && 0 <= k < 3 && !t.triangles@[w].deleted ==> (
                #[trigger] t.triangles@[w].n[k] == NO_NEIGHBOUR || t.triangles@[w].n[k]
                    < t.triangles@.len()),
            forall|w: int|
                0 <= w < u ==> (#[trigger] out@[w]).v == t.triangles@[w].v && out@[w].constrained
                    == t.triangles@[w].constrained && out@[w].deleted == t.triangles@[w].deleted,
            forall|w: int, k: int|
                0 <= w < u && 0 <= k < 3 ==> #[trigger] out@[w].n[k] == if !t.triangles@[w].deleted
                    && t.triangles@[w].n[k] != NO_NEIGHBOUR
                    && t.triangles@[t.triangles@[w].n[k] as int].deleted {
                    NO_NEIGHBOUR
                } else {
                    t.triangles@[w].n[k]
                },
        decreases t.triangles.len() - u,
    {
        let mut tri = t.triangles[u];
        if !tri.deleted {
            let mut k: usize = 0;
            while k < 3
                invariant
                    u < t.triangles@.len(),
                    tri.v == t.triangles@[u as int].v,
                    tri.constrained == t.triangles@[u as int].constrained,
                    tri.deleted == t.triangles@[u as int].deleted,
                    !tri.deleted,
                    k <= 3,
                    forall|w: int, j: int|
                        0 <= w < t.triangles@.len() && 0 <= j < 3 && !t.triangles@[w].deleted ==> (
                        #[trigger] t.triangles@[w].n[j] == NO_NEIGHBOUR || t.triangles@[w].n[j]
                            < t.triangles@.len()),
                    forall|j: int|
                        0 <= j < 3 ==> #[trigger] tri.n[j] == if j < k && t.triangles@[u as int].n[j]
                            != NO_NEIGHBOUR
                            && t.triangles@[t.triangles@[u as int].n[j] as int].deleted {
                            NO_NEIGHBOUR
                        } else {
                            t.triangles@[u as int].n[j]
                        },
                decreases 3 - k,
            {
                let nb = tri.n[k];
                if nb != NO_NEIGHBOUR && t.triangles[nb].deleted {
                    tri.n[k] = NO_NEIGHBOUR;
                }
                k += 1;
            }
        }
        out.push(tri);
        u += 1;
    }
    t.triangles = out;
}

/// A structural invariant a mesh fails, as found by
/// [`Triangulation::check_invariants`].
#[derive(Clone, Copy, Debug, PartialEq, Eq, Structural)]
pub enum MeshDefect {
    /// A live triangle names the same vertex twice.
    RepeatedVertex { triangle: TriIdx, v0: VertIdx, v1: VertIdx, v2: VertIdx },
    /// A live triangle names a vertex past the end of the point list.
    VertexOutOfRange { triangle: TriIdx, vertex: VertIdx },
    /// A live triangle is wound clockwise.
    WoundClockwise { triangle: TriIdx },
    /// A live triangle's vertices are collinear.
    Degenerate { triangle: TriIdx },
    /// A neighbour link points at a triangle that is deleted or does not exist.
    DeadNeighbour { triangle: TriIdx, edge: usize, neighbour: TriIdx },
    /// A neighbour does not have the edge the link crosses.
    UnsharedEdge { triangle: TriIdx, edge: usize, neighbour: TriIdx, a: VertIdx, b: VertIdx },
    /// The neighbour's link back across the shared edge points elsewhere.
    AsymmetricLink {
        triangle: TriIdx,
        edge: usize,
        neighbour: TriIdx,
        back_edge: usize,
        back: TriIdx,
    },
}

impl MeshDefect {
    /// How the defect reads in a diagnostic.
    pub open spec fn text(&self) -> Seq<char> {
        match *self {
            MeshDefect::RepeatedVertex { triangle, v0, v1, v2 } => "triangle "@ + spec_decimal(
                triangle as nat,
            ) + " has a repeated vertex: ["@ + spec_decimal(v0 as nat) + ", "@ + spec_decimal(
                v1 as nat,
            ) + ", "@ + spec_decimal(v2 as nat) + "]"@,
            MeshDefect::VertexOutOfRange { triangle, vertex } => "triangle "@ + spec_decimal(
                triangle as nat,
            ) + " references vertex "@ + spec_decimal(vertex as nat) + " out of range"@,
            MeshDefect::WoundClockwise { triangle } => "triangle "@ + spec_decimal(triangle as nat)
                + " is wound clockwise"@,
            MeshDefect::Degenerate { triangle } => "triangle "@ + spec_decimal(triangle as nat)
                + " is degenerate (collinear)"@,
            MeshDefect::DeadNeighbour { triangle, edge, neighbour } => "triangle "@ + spec_decimal(
                triangle as nat,
            ) + " neighbour "@ + spec_decimal(edge as nat) + " points at "@ + spec_decimal(
                neighbour as nat,
            ) + ", which is not live"@,
            MeshDefect::UnsharedEdge { triangle, edge, neighbour, a, b } => "triangle "@
                + spec_decimal(triangle as nat) + " neighbour "@ + spec_decimal(edge as nat)
                + " = "@ + spec_decimal(neighbour as nat) + " does not share edge ("@
                + spec_decimal(a as nat) + ","@ + spec_decimal(b as nat) + ")"@,
            MeshDefect::AsymmetricLink { triangle, edge, neighbour, back_edge, back } =>
                "asymmetric link: "@ + spec_decimal(triangle as nat) + ".n["@ + spec_decimal(
                edge as nat,
            ) + "] = "@ + spec_decimal(neighbour as nat) + " but "@ + spec_decimal(
                neighbour as nat,
            ) + ".n["@ + spec_decimal(back_edge as nat) + "] = "@ + spec_decimal(back as nat),
        }
    }

    /// How the defect reads in a diagnostic.
    pub fn to_string(&self) -> (r: String)
        ensures
            r@ == self.text(),
    {
        match *self {
            MeshDefect::RepeatedVertex { triangle, v0, v1, v2 } => String::from_str("triangle ")
                .concat(decimal(triangle).as_str()).concat(" has a repeated vertex: [").concat(
                decimal(v0).as_str(),
            ).concat(", ").concat(decimal(v1).as_str()).concat(", ").concat(
                decimal(v2).as_str(),
            ).concat("]"),
            MeshDefect::VertexOutOfRange { triangle, vertex } => String::from_str("triangle ")
                .concat(decimal(triangle).as_str()).concat(" references vertex ").concat(
                decimal(vertex).as_str(),
            ).concat(" out of range"),
            MeshDefect::WoundClockwise { triangle } => String::from_str("triangle ").concat(
                decimal(triangle).as_str(),
            ).concat(" is wound clockwise"),
            MeshDefect::Degenerate { triangle } => String::from_str("triangle ").concat(
                decimal(triangle).as_str(),
            ).concat(" is degenerate (collinear)"),
            MeshDefect::DeadNeighbour { triangle, edge, neighbour } => String::from_str(
                "triangle ",
            ).concat(decimal(triangle).as_str()).concat(" neighbour ").concat(
                decimal(edge).as_str(),
            ).concat(" points at ").concat(decimal(neighbour).as_str()).concat(
                ", which is not live",
            ),
            MeshDefect::UnsharedEdge { triangle, edge, neighbour, a, b } => String::from_str(
                "triangle ",
            ).concat(decimal(triangle).as_str()).concat(" neighbour ").concat(
                decimal(edge).as_str(),
            ).concat(" = ").concat(decimal(neighbour).as_str()).concat(
                " does not share edge (",
            ).concat(decimal(a).as_str()).concat(",").concat(decimal(b).as_str()).concat(")"),
            MeshDefect::AsymmetricLink { triangle, edge, neighbour, back_edge, back } =>
                String::from_str("asymmetric link: ").concat(decimal(triangle).as_str()).concat(
                ".n[",
            ).concat(decimal(edge).as_str()).concat("] = ").concat(
                decimal(neighbour).as_str(),
            ).concat(" but ").concat(decimal(neighbour).as_str()).concat(".n[").concat(
                decimal(back_edge).as_str(),
            ).concat("] = ").concat(decimal(back).as_str()),
        }
    }
}

/// Vertex-range defects of triangle `idx`, one per offending vertex slot.
pub open spec fn range_defects(t: Triangle, idx: int, num_points: nat) -> Seq<MeshDefect> {
    let d0 = if t.v[0] >= num_points {
        seq![MeshDefect::VertexOutOfRange { triangle: idx as TriIdx, vertex: t.v[0] }]
    } else {
        Seq::empty()
    };
    let d1 = if t.v[1] >= num_points {
        seq![MeshDefect::VertexOutOfRange { triangle: idx as TriIdx, vertex: t.v[1] }]
    } else {
        Seq::empty()
    };
    let d2 = if t.v[2] >= num_points {
        seq![MeshDefect::VertexOutOfRange { triangle: idx as TriIdx, vertex: t.v[2] }]
    } else {
        Seq::empty()
    };
    d0 + d1 + d2
}

/// The winding defect of triangle `idx`, if it is not counter-clockwise.
pub open spec fn winding_defects(o: Orientation, idx: int) -> Seq<MeshDefect> {
    match o {
        Orientation::CounterClockwise => Seq::empty(),
        Orientation::Clockwise => seq![MeshDefect::WoundClockwise { triangle: idx as TriIdx }],
        Orientation::Collinear => seq![MeshDefect::Degenerate { triangle: idx as TriIdx }],
    }
}

/// The first edge of `t` joining `x` and `y` in either direction.
pub open spec fn first_joining_edge(t: Triangle, x: VertIdx, y: VertIdx) -> Option<int> {
    let j0 = tri_edge(t, 0);
    let j1 = tri_edge(t, 1);
    let j2 = tri_edge(t, 2);
    if (j0.0 == y && j0.1 == x) || (j0.0 == x && j0.1 == y) {
        Some(0)
    } else if (j1.0 == y && j1.1 == x) || (j1.0 == x && j1.1 == y) {
        Some(1)
    } else if (j2.0 == y && j2.1 == x) || (j2.0 == x && j2.1 == y) {
        Some(2)
    } else {
        None
    }
}

/// The link defect of edge `i` of live triangle `idx`, if any.
pub open spec fn link_defects(tris: Seq<Triangle>, idx: int, i: int) -> Seq<MeshDefect> {
    let nb = tris[idx].n[i];
    if nb == NO_NEIGHBOUR {
        Seq::empty()
    } else if nb >= tris.len() || tris[nb as int].deleted {
        seq![MeshDefect::DeadNeighbour { triangle: idx as TriIdx, edge: i as usize, neighbour: nb }]
    } else {
        let e = tri_edge(tris[idx], i);
        match first_joining_edge(tris[nb as int], e.0, e.1) {
            None => seq![
                MeshDefect::UnsharedEdge {
                    triangle: idx as TriIdx,
                    edge: i as usize,
                    neighbour: nb,
                    a: e.0,
                    b: e.1,
                },
            ],
            Some(j) => if tris[nb as int].n[j] != idx {
                seq![
                    MeshDefect::AsymmetricLink {
                        triangle: idx as TriIdx,
                        edge: i as usize,
                        neighbour: nb,
                        back_edge: j as usize,
                        back: tris[nb as int].n[j],
                    },
                ]
            } else {
                Seq::empty()
            },
        }
    }
}

/// Defects found checking the first `k` triangles, and whether the check
/// stopped early: once more than 32 defects are known after a triangle's
/// vertex-range check, checking ends there.
pub open spec fn defects_upto(
    tris: Seq<Triangle>,
    num_points: nat,
    winding: Seq<Orientation>,
    k: int,
) -> (Seq<MeshDefect>, bool)
    decreases k,
{
    if k <= 0 {
        (Seq::empty(), false)
    } else {
        let (p, stopped) = defects_upto(tris, num_points, winding, k - 1);
        let idx = k - 1;
        let t = tris[idx];
        if stopped || t.deleted {
            (p, stopped)
        } else if t.v[0] == t.v[1] || t.v[1] == t.v[2] || t.v[0] == t.v[2] {
            (
                p.push(
                    MeshDefect::RepeatedVertex {
                        triangle: idx as TriIdx,
                        v0: t.v[0],
                        v1: t.v[1],
                        v2: t.v[2],
                    },
                ),
                false,
            )
        } else {
            let q = p + range_defects(t, idx, num_points);
            if q.len() > 32 {
                (q, true)
            } else {
                (
                    q + winding_defects(winding[idx], idx) + link_defects(tris, idx, 0)
                        + link_defects(tris, idx, 1) + link_defects(tris, idx, 2),
                    false,
                )
            }
        }
    }
}

/// Once the check has stopped, later triangles add nothing.
proof fn lemma_check_stays_stopped(
    tris: Seq<Triangle>,
    num_points: nat,
    winding: Seq<Orientation>,
    k: int,
    n: int,
)
    requires
        0 <= k <= n,
        defects_upto(tris, num_points, winding, k).1,
    ensures
        defects_upto(tris, num_points, winding, n) == defects_upto(tris, num_points, winding, k),
    decreases n - k,
{
    if k < n {
        lemma_check_stays_stopped(tris, num_points, winding, k, n - 1);
    }
}

impl<P> Triangulation<P> {
    fn link_defect(&self, idx: TriIdx, i: usize) -> (r: Option<MeshDefect>)
        requires
            idx < self.triangles@.len(),
            i < 3,
        ensures
            match r {
                Some(d) => link_defects(self.triangles@, idx as int, i as int) == seq![d],
                None => link_defects(self.triangles@, idx as int, i as int) == Seq::<
                    MeshDefect,
                >::empty(),
            },
    {
        let tri = self.triangles[idx];
        let nb = tri.n[i];
        if nb == NO_NEIGHBOUR {
            return None;
        }
        if nb >= self.triangles.len() || self.triangles[nb].deleted {
            return Some(MeshDefect::DeadNeighbour { triangle: idx, edge: i, neighbour: nb });
        }
        let (x, y) = tri.edge(i);
        let back = self.triangles[nb];
        let mut found: Option<usize> = None;
        let mut j: usize = 0;
        while j < 3
            invariant
                j <= 3,
                found is None ==> forall|q: int| 0 <= q < j ==> first_joining_edge(back, x, y)
                    != Some(q),
                found is None && j == 3 ==> first_joining_edge(back, x, y) is None,
                found matches Some(q) ==> first_joining_edge(back, x, y) == Some(q as int),
            decreases 3 - j,
        {
            if found.is_none() {
                let (p, q) = back.edge(j);
                if (p == y && q == x) || (p == x && q == y) {
                    found = Some(j);
                }
            }
            j += 1;
        }
        match found {
            None => Some(MeshDefect::UnsharedEdge { triangle: idx, edge: i, neighbour: nb, a: x, b: y }),
            Some(j) => {
                if back.n[j] != idx {
                    Some(
                        MeshDefect::AsymmetricLink {
                            triangle: idx,
                            edge: i,
                            neighbour: nb,
                            back_edge: j,
                            back: back.n[j],
                        },
                    )
                } else {
                    None
                }
            },
        }
    }

    /// Verify the structural invariants, given the orientation of each
    /// triangle's vertices (`winding[t]` for triangle `t`; only live
    /// triangles' entries are read). Returns every violation found.
    ///
    /// For each live triangle in order: a repeated vertex is reported and the
    /// triangle is not checked further; otherwise each vertex past the end of
    /// the point list is reported, and if more than 32 defects are then known
    /// the check ends; otherwise a clockwise or collinear winding is reported,
    /// then each neighbour link that points at a dead triangle, at one that
    /// lacks the shared edge, or at one whose link back points elsewhere.
    #[verifier::spinoff_prover]
    #[verifier::rlimit(40)]
    pub fn check_invariants(&self, winding: &Vec<Orientation>) -> (r: Vec<MeshDefect>)
        requires
            winding@.len() == self.triangles@.len(),
        ensures
            r@ == defects_upto(
                self.triangles@,
                self.points@.len(),
                winding@,
                self.triangles@.len() as int,
            ).0,
    {
        let ghost tris = self.triangles@;
        let ghost np = self.points@.len();
        let mut errs: Vec<MeshDefect> = Vec::new();
        let mut idx: usize = 0;
        while idx < self.triangles.len()
            invariant
                tris == self.triangles@,
                np == self.points@.len(),
                winding@.len() == tris.len(),
                idx <= tris.len(),
                errs@ == defects_upto(tris, np, winding@, idx as int).0,
                !defects_upto(tris, np, winding@, idx as int).1,
            decreases self.triangles.len() - idx,
        {
            let tri = self.triangles[idx];
            if !tri.deleted {
                let a = tri.v[0];
                let b = tri.v[1];
                let c = tri.v[2];
                if a == b || b == c || a == c {
                    errs.push(MeshDefect::RepeatedVertex { triangle: idx, v0: a, v1: b, v2: c });
                } else {
                    let ghost before = errs@;
                    let mut k: usize = 0;
                    while k < 3
                        invariant
                            tris == self.triangles@,
                            np == self.points@.len(),
                            idx < tris.len(),
                            tri == tris[idx as int],
                            k <= 3,
                            errs@ == before + (if k == 0 {
                                Seq::empty()
                            } else if k == 1 {
                                range_defects(tri, idx as int, np).subrange(
                                    0,
                                    (if tri.v[0] >= np {
                                        1int
                                    } else {
                                        0
                                    }),
                                )
                            } else if k == 2 {
                                range_defects(tri, idx as int, np).subrange(
                                    0,
                                    (if tri.v[0] >= np {
                                        1int
                                    } else {
                                        0
                                    }) + (if tri.v[1] >= np {
                                        1int
                                    } else {
                                        0
                                    }),
                                )
                            } else {
                                range_defects(tri, idx as int, np)
                            }),
                        decreases 3 - k,
                    {
                        let v = tri.v[k];
                        if v >= self.points.len() {
                            errs.push(MeshDefect::VertexOutOfRange { triangle: idx, vertex: v });
                        }
                        proof {
                            let r = range_defects(tri, idx as int, np);
                            let c0: int = if tri.v[0] >= np {
                                1
                            } else {
                                0
                            };
                            let c1: int = if tri.v[1] >= np {
                                1
                            } else {
                                0
                            };
                            if k == 0 {
                                assert(r.subrange(0, c0) =~= (if v >= np {
                                    seq![MeshDefect::VertexOutOfRange { triangle: idx, vertex: v }]
                                } else {
                                    Seq::empty()
                                }));
                            } else if k == 1 {
                                assert(r.subrange(0, c0 + c1) =~= r.subrange(0, c0) + (if v >= np {
                                    seq![MeshDefect::VertexOutOfRange { triangle: idx, vertex: v }]
                                } else {
                                    Seq::empty()
                                }));
                            } else {
                                assert(r =~= r.subrange(0, c0 + c1) + (if v >= np {
                                    seq![MeshDefect::VertexOutOfRange { triangle: idx, vertex: v }]
                                } else {
                                    Seq::empty()
                                }));
                            }
                        }
                        k += 1;
                    }
                    if errs.len() > 32 {
                        proof {
                            assert(errs@ =~= before + range_defects(tri, idx as int, np));
                            lemma_check_stays_stopped(tris, np, winding@, idx + 1, tris.len() as int);
                        }
                        return errs;
                    }
                    let ghost q = errs@;
                    match winding[idx] {
                        Orientation::CounterClockwise => {},
                        Orientation::Clockwise => {
                            errs.push(MeshDefect::WoundClockwise { triangle: idx });
                        },
                        Orientation::Collinear => {
                            errs.push(MeshDefect::Degenerate { triangle: idx });
                        },
                    }
                    assert(errs@ =~= q + winding_defects(winding@[idx as int], idx as int));
                    let mut i: usize = 0;
                    while i < 3
                        invariant
                            tris == self.triangles@,
                            winding@.len() == tris.len(),
                            idx < tris.len(),
                            i <= 3,
                            errs@ == q + winding_defects(winding@[idx as int], idx as int) + (
                            if i == 0 {
                                Seq::empty()
                            } else if i == 1 {
                                link_defects(tris, idx as int, 0)
                            } else if i == 2 {
                                link_defects(tris, idx as int, 0) + link_defects(tris, idx as int, 1)
                            } else {
                                link_defects(tris, idx as int, 0) + link_defects(tris, idx as int, 1)
                                    + link_defects(tris, idx as int, 2)
                            }),
                        decreases 3 - i,
                    {
                        let ghost pre = errs@;
                        match self.link_defect(idx, i) {
                            Some(d) => {
                                errs.push(d);
                            },
                            None => {},
                        }
                        assert(errs@ =~= pre + link_defects(tris, idx as int, i as int));
                        i += 1;
                    }
                    assert(errs@ =~= q + winding_defects(winding@[idx as int], idx as int)
                        + link_defects(tris, idx as int, 0) + link_defects(tris, idx as int, 1)
                        + link_defects(tris, idx as int, 2));
                }
            }
            idx += 1;
        }
        errs
    }
}

/// The owners of an edge are live slots carrying it, in increasing order, and
/// every live slot carrying it is among them.
proof fn lemma_owners(tris: Seq<Triangle>, key: (VertIdx, VertIdx), k: int)
    requires
        0 <= k <= 3 * tris.len(),
    ensures
        forall|j: int|
            0 <= j < owners_upto(tris, key, k).len() ==> 0 <= #[trigger] owners_upto(
                tris,
                key,
                k,
            )[j] < k && !tris[owners_upto(tris, key, k)[j] / 3].deleted && slot_key(
                tris,
                owners_upto(tris, key, k)[j],
            ) == key,
        forall|j1: int, j2: int|
            0 <= j1 < j2 < owners_upto(tris, key, k).len() ==> #[trigger] owners_upto(
                tris,
                key,
                k,
            )[j1] < #[trigger] owners_upto(tris, key, k)[j2],
        forall|s: int|
            0 <= s < k && !tris[s / 3].deleted && slot_key(tris, s) == key ==> #[trigger] owners_upto(
                tris,
                key,
                k,
            ).contains(s),
    decreases k,
{
    if k > 0 {
        lemma_owners(tris, key, k - 1);
        let p = owners_upto(tris, key, k - 1);
        assert forall|s: int|
            0 <= s < k && !tris[s / 3].deleted && slot_key(tris, s) == key implies #[trigger] owners_upto(
            tris,
            key,
            k,
        ).contains(s) by {
            if s < k - 1 {
                assert(p.contains(s));
                let q = choose|q: int| 0 <= q < p.len() && p[q] == s;
                assert(owners_upto(tris, key, k)[q] == s);
            } else {
                assert(owners_upto(tris, key, k)[p.len() as int] == s);
            }
        }
    }
}

proof fn lemma_slot_split(s: int)
    requires
        s >= 0,
    ensures
        s == 3 * (s / 3) + s % 3,
        0 <= s % 3 < 3,
        s / 3 >= 0,
{
    assert(s == 3 * (s / 3) + s % 3 && 0 <= s % 3 < 3 && s / 3 >= 0) by (nonlinear_arith)
        requires
            s >= 0,
    ;
}

/// Links made by a rebuild are symmetric: when slot `3t + i` of a live
/// triangle is linked to triangle `u`, then `u` is live, and some edge of `u`
/// carries the same edge and is linked back to `t`.
pub proof fn lemma_rebuilt_links_are_symmetric(tris: Seq<Triangle>, t: int, i: int)
    requires
        tris.len() < usize::MAX,
        0 <= t < tris.len(),
        0 <= i < 3,
        !tris[t].deleted,
        rebuilt_neighbour(tris, 3 * t + i) != NO_NEIGHBOUR,
    ensures
        ({
            let u = rebuilt_neighbour(tris, 3 * t + i) as int;
            &&& 0 <= u < tris.len()
            &&& !tris[u].deleted
            &&& exists|j: int|
                0 <= j < 3 && rebuilt_neighbour(tris, 3 * u + j) == t && #[trigger] slot_key(
                    tris,
                    3 * u + j,
                ) == slot_key(tris, 3 * t + i)
        }),
{
    let s = 3 * t + i;
    lemma_slot(t, i);
    let key = slot_key(tris, s);
    let o = owners(tris, key);
    lemma_owners(tris, key, 3 * tris.len() as int);
    assert(o.contains(s));
    assert(o.len() == 2) by {
        if o.len() != 2 {
            assert(rebuilt_neighbour(tris, s) == NO_NEIGHBOUR);
        }
    }
    let other = if o[0] == s {
        o[1]
    } else {
        o[0]
    };
    assert(o[0] != o[1]);
    assert(o[0] == s || o[1] == s);
    lemma_slot_split(other);
    let u = other / 3;
    let j = other % 3;
    assert(0 <= u < tris.len()) by (nonlinear_arith)
        requires
            other == 3 * u + j,
            0 <= other < 3 * tris.len(),
            0 <= j < 3,
    ;
    assert(rebuilt_neighbour(tris, s) as int == u);
    assert(slot_key(tris, 3 * u + j) == key);
    assert(owners(tris, slot_key(tris, 3 * u + j)) == o);
    lemma_slot_split(s);
    assert(s / 3 == t);
    assert(o[0] == other || o[1] == other);
    assert(rebuilt_neighbour(tris, 3 * u + j) as int == t);
}

/// After a rebuild, no live triangle with three distinct vertices has a bad
/// link: every link names a live triangle that shares the crossed edge and
/// links straight back.
pub proof fn lemma_rebuilt_links_are_sound(
    new: Seq<Triangle>,
    old: Seq<Triangle>,
    constraints: Seq<(VertIdx, VertIdx)>,
    t: int,
    i: int,
)
    requires
        old.len() < usize::MAX,
        is_rebuild_of(new, old, constraints),
        forall|u: int|
            0 <= u < old.len() && !old[u].deleted ==> #[trigger] old[u].v[0] != old[u].v[1]
                && old[u].v[1] != old[u].v[2] && old[u].v[0] != old[u].v[2],
        0 <= t < new.len(),
        0 <= i < 3,
        !new[t].deleted,
    ensures
        link_defects(new, t, i) == Seq::<MeshDefect>::empty(),
{
    let nb = new[t].n[i];
    assert(nb == rebuilt_neighbour(old, 3 * t + i));
    if nb != NO_NEIGHBOUR {
        lemma_rebuilt_links_are_symmetric(old, t, i);
        let u = nb as int;
        let j = choose|j: int|
            0 <= j < 3 && rebuilt_neighbour(old, 3 * u + j) == t && #[trigger] slot_key(
                old,
                3 * u + j,
            ) == slot_key(old, 3 * t + i);
        lemma_slot(u, j);
        lemma_slot(t, i);
        assert(new[u].v == old[u].v);
        assert(new[t].v == old[t].v);
        let e = tri_edge(new[t], i);
        let f = tri_edge(new[u], j);
        lemma_edge_key_identifies_edges(e.0, e.1, f.0, f.1);
        lemma_slot(u, 0);
        lemma_slot(u, 1);
        lemma_slot(u, 2);
        assert(first_joining_edge(new[u], e.0, e.1) == Some(j));
        assert(new[u].n[j] == t);
    }
}


/// Two triangle lists with the same vertices and tombstones, slot for slot.
pub open spec fn same_skeleton(a: Seq<Triangle>, b: Seq<Triangle>) -> bool {
    &&& a.len() == b.len()
    &&& forall|t: int| 0 <= t < a.len() ==> (#[trigger] a[t]).v == b[t].v && a[t].deleted == b[t].deleted
}

proof fn lemma_owners_follow_skeleton(a: Seq<Triangle>, b: Seq<Triangle>, key: (VertIdx, VertIdx), k: int)
    requires
        same_skeleton(a, b),
        k <= 3 * a.len(),
    ensures
        owners_upto(a, key, k) == owners_upto(b, key, k),
    decreases k,
{
    if k > 0 {
        lemma_owners_follow_skeleton(a, b, key, k - 1);
        let t = (k - 1) / 3;
        assert(a[t].v == b[t].v && a[t].deleted == b[t].deleted);
        assert(slot_key(a, k - 1) == slot_key(b, k - 1));
    }
}

/// Rebuilding adjacency a second time changes nothing: links and constraint
/// flags depend only on the vertices, the tombstones and the constraint list,
/// and a rebuild keeps all three.
pub proof fn lemma_rebuild_is_idempotent(
    old: Seq<Triangle>,
    mid: Seq<Triangle>,
    new: Seq<Triangle>,
    constraints: Seq<(VertIdx, VertIdx)>,
)
    requires
        is_rebuild_of(mid, old, constraints),
        is_rebuild_of(new, mid, constraints),
    ensures
        new.len() == mid.len(),
        forall|t: int|
            0 <= t < mid.len() ==> (#[trigger] new[t]).v == mid[t].v && new[t].deleted == mid[t].deleted,
        forall|t: int, i: int|
            0 <= t < mid.len() && 0 <= i < 3 ==> #[trigger] new[t].n[i] == mid[t].n[i]
                && new[t].constrained[i] == mid[t].constrained[i],
{
    assert(same_skeleton(mid, old));
    assert forall|t: int, i: int| 0 <= t < mid.len() && 0 <= i < 3 implies #[trigger] new[t].n[i]
        == mid[t].n[i] && new[t].constrained[i] == mid[t].constrained[i] by {
        lemma_slot(t, i);
        assert(mid[t].v == old[t].v);
        assert(slot_key(mid, 3 * t + i) == slot_key(old, 3 * t + i));
        lemma_owners_follow_skeleton(mid, old, slot_key(old, 3 * t + i), 3 * mid.len() as int);
        assert(rebuilt_neighbour(mid, 3 * t + i) == rebuilt_neighbour(old, 3 * t + i));
    }
}

/// Adding a constraint that was absent and then removing it leaves the set of
/// constraints as it was.
pub proof fn lemma_remove_undoes_add(
    before: Seq<(VertIdx, VertIdx)>,
    added: Seq<(VertIdx, VertIdx)>,
    after: Seq<(VertIdx, VertIdx)>,
    a: VertIdx,
    b: VertIdx,
)
    requires
        !before.to_set().contains(spec_edge_key(a, b)),
        added.to_set() == before.to_set().insert(spec_edge_key(a, b)),
        after.to_set() == added.to_set().remove(spec_edge_key(a, b)),
    ensures
        after.to_set() == before.to_set(),
{
    assert(after.to_set() =~= before.to_set());
}


/// Links follow their triangles through compaction: a live triangle's
/// compacted index is its rank among live triangles, and the triangle at that
/// place after compaction is the one it was.
pub proof fn lemma_compaction_keeps_targets(tris: Seq<Triangle>, x: int)
    requires
        tris.len() <= usize::MAX,
        0 <= x < tris.len(),
        !tris[x].deleted,
    ensures
        compacted_index(tris, x as TriIdx) as int == live_prefix(tris, x).len(),
        compacted_index(tris, x as TriIdx) < spec_live_count(tris),
        live_indices(tris)[compacted_index(tris, x as TriIdx) as int] == x,
{
    lemma_live_rank(tris, tris.len() as int, x);
    lemma_live_prefix(tris, x);
    assert(x != NO_NEIGHBOUR);
}

/// Once the triangles naming a helper vertex are tombstoned and the mesh is
/// compacted, every triangle left names input vertices only.
pub proof fn lemma_compaction_leaves_input_vertices(
    before: Seq<Triangle>,
    mid: Seq<Triangle>,
    after: Seq<Triangle>,
    num_input: usize,
)
    requires
        helpers_tombstoned(mid, before, num_input),
        keeps_live_vertices(after, mid),
    ensures
        forall|j: int, k: int| 0 <= j < after.len() && 0 <= k < 3 ==> #[trigger] after[j].v[k] < num_input,
{
    lemma_live_prefix(mid, mid.len() as int);
    assert forall|j: int, k: int| 0 <= j < after.len() && 0 <= k < 3 implies #[trigger] after[j].v[k]
        < num_input by {
        let o = live_indices(mid)[j];
        assert(0 <= o < mid.len() && !mid[o].deleted);
        assert(mid[o].v == before[o].v);
        assert(!touches_helper(before[o], num_input));
    }
}


/// A rebuilt mesh links only to triangles it has: every live triangle's links
/// are in range, and each link names a live triangle, so the result can be
/// classified.
pub proof fn lemma_rebuilt_links_in_range(
    new: Seq<Triangle>,
    old: Seq<Triangle>,
    constraints: Seq<(VertIdx, VertIdx)>,
)
    requires
        is_rebuild_of(new, old, constraints),
        old.len() <= usize::MAX,
    ensures
        links_in_range(new),
        forall|t: int, i: int|
            0 <= t < new.len() && 0 <= i < 3 && #[trigger] new[t].n[i] != NO_NEIGHBOUR ==> !new[new[t].n[i] as int].deleted,
{
    assert forall|t: int, i: int| 0 <= t < new.len() && 0 <= i < 3 implies (#[trigger] new[t].n[i]
        == NO_NEIGHBOUR || new[t].n[i] < new.len()) && (new[t].n[i] != NO_NEIGHBOUR
        ==> !new[new[t].n[i] as int].deleted) by {
        if !old[t].deleted {
            lemma_slot(t, i);
            let key = slot_key(old, 3 * t + i);
            lemma_owners(old, key, 3 * old.len() as int);
            let o = owners(old, key);
            if o.len() == 2 {
                assert(0 <= o[0] < 3 * old.len() && 0 <= o[1] < 3 * old.len());
                lemma_slot_split(o[0]);
                lemma_slot_split(o[1]);
            }
        }
    }
}


/// After a constraint is added it is present, and after it is removed it is
/// absent, whatever the list held before.
pub proof fn lemma_constraint_presence(
    before: Seq<(VertIdx, VertIdx)>,
    after: Seq<(VertIdx, VertIdx)>,
    a: VertIdx,
    b: VertIdx,
    added: bool,
)
    requires
        added ==> after.to_set() == before.to_set().insert(spec_edge_key(a, b)),
        !added ==> after.to_set() == before.to_set().remove(spec_edge_key(a, b)),
    ensures
        after.contains(spec_edge_key(a, b)) == added,
{
    assert(after.to_set().contains(spec_edge_key(a, b)) == added);
}

} // verus!
