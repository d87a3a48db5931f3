//! Which mesh edges are portals.
//!
//! A portal is a shared edge between two walkable triangles: where an agent
//! passes from one triangle to the next. Constrained edges are never portals —
//! a wall is not a way through. Measuring a portal's width needs coordinates;
//! deciding which edges are portals, and which portals touch each triangle,
//! does not.

use vstd::prelude::*;
use crate::region::Regions;
use crate::triangulation::{lemma_slot, tri_edge, Triangle, Triangulation, TriIdx, VertIdx, NO_NEIGHBOUR};

verus! {

/// A traversable edge between two walkable triangles, before measurement.
#[derive(Clone, Copy, Debug, PartialEq, Eq)]
pub struct PortalEdge {
    pub a: VertIdx,
    pub b: VertIdx,
    /// The two triangles this edge separates, the lower index first.
    pub tris: (TriIdx, TriIdx),
}

/// Index `t` is walkable in `w` (out-of-range indices are not).
pub open spec fn walkable_at(w: Seq<bool>, t: int) -> bool {
    0 <= t < w.len() && w[t]
}

/// Edge `i` of triangle `idx` is recorded as a portal: the triangle is live
/// and walkable, the edge is not a wall, the neighbour is walkable, and the
/// neighbour's index is not below `idx` (so each shared edge is recorded
/// once, from its lower-indexed side).
pub open spec fn is_portal_slot(tris: Seq<Triangle>, w: Seq<bool>, idx: int, i: int) -> bool {
    let t = tris[idx];
    let nb = t.n[i];
    &&& !t.deleted
    &&& walkable_at(w, idx)
    &&& nb != NO_NEIGHBOUR
    &&& !t.constrained[i]
    &&& walkable_at(w, nb as int)
    &&& nb >= idx
}

/// The portals found in the first `s` edge slots, in slot order.
pub open spec fn portals_upto(tris: Seq<Triangle>, w: Seq<bool>, s: int) -> Seq<PortalEdge>
    decreases s,
{
    if s <= 0 {
        Seq::empty()
    } else {
        let p = portals_upto(tris, w, s - 1);
        let idx = (s - 1) / 3;
        let i = (s - 1) % 3;
        if is_portal_slot(tris, w, idx, i) {
            let e = tri_edge(tris[idx], i);
            p.push(PortalEdge { a: e.0, b: e.1, tris: (idx as TriIdx, tris[idx].n[i]) })
        } else {
            p
        }
    }
}

/// Portal indices below `k` touching triangle `x`: a portal is listed once for
/// each of its two sides that is `x`.
pub open spec fn incident_upto(portals: Seq<PortalEdge>, x: int, k: int) -> Seq<usize>
    decreases k,
{
    if k <= 0 {
        Seq::empty()
    } else {
        let p = incident_upto(portals, x, k - 1);
        let q = portals[k - 1];
        let p1 = if q.tris.0 == x {
            p.push((k - 1) as usize)
        } else {
            p
        };
        if q.tris.1 == x {
            p1.push((k - 1) as usize)
        } else {
            p1
        }
    }
}

/// The portal edges of a classified mesh, in order of the triangle and edge
/// they are found from.
pub fn portal_edges<P>(t: &Triangulation<P>, regions: &Regions) -> (r: Vec<PortalEdge>)
    ensures
        r@ == portals_upto(t.triangles@, regions.walkable@, 3 * t.triangles@.len() as int),
{
    let ghost tris = t.triangles@;
    let ghost w = regions.walkable@;
    let mut out: Vec<PortalEdge> = Vec::new();
    let mut idx: usize = 0;
    while idx < t.triangles.len()
        invariant
            tris == t.triangles@,
            w == regions.walkable@,
            idx <= tris.len(),
            out@ == portals_upto(tris, w, 3 * idx),
        decreases t.triangles.len() - idx,
    {
        let tri = t.triangles[idx];
        let mut i: usize = 0;
        while i < 3
            invariant
                tris == t.triangles@,
                w == regions.walkable@,
                idx < tris.len(),
                tri == tris[idx as int],
                i <= 3,
                out@ == portals_upto(tris, w, 3 * idx + i),
            decreases 3 - i,
        {
            proof {
                crate::triangulation::lemma_slot(idx as int, i as int);
            }
            let nb = tri.n[i];
            if !tri.deleted && regions.is_walkable(idx) && nb != NO_NEIGHBOUR && !tri.constrained[i]
                && regions.is_walkable(nb) && nb >= idx {
                let (a, b) = tri.edge(i);
                out.push(PortalEdge { a, b, tris: (idx, nb) });
            }
            i += 1;
        }
        idx += 1;
    }
    out
}

/// For each of `n` triangles, the indices of the portals touching it, in
/// portal order.
pub fn incident_portals(portals: &Vec<PortalEdge>, n: usize) -> (r: Vec<Vec<usize>>)
    requires
        forall|k: int|
            0 <= k < portals@.len() ==> (#[trigger] portals@[k]).tris.0 < n && portals@[k].tris.1
                < n,
    ensures
        r@.len() == n,
        forall|x: int| 0 <= x < n ==> (#[trigger] r@[x])@ == incident_upto(portals@, x, portals@.len() as int),
{
    let mut out: Vec<Vec<usize>> = Vec::new();
    let mut x: usize = 0;
    while x < n
        invariant
            x <= n,
            out@.len() == x,
            forall|y: int| 0 <= y < x ==> (#[trigger] out@[y])@.len() == 0,
        decreases n - x,
    {
        out.push(Vec::new());
        x += 1;
    }
    let mut k: usize = 0;
    while k < portals.len()
        invariant
            k <= portals@.len(),
            out@.len() == n,
            forall|j: int|
                0 <= j < portals@.len() ==> (#[trigger] portals@[j]).tris.0 < n && portals@[j].tris.1
                    < n,
            forall|y: int| 0 <= y < n ==> (#[trigger] out@[y])@ == incident_upto(portals@, y, k as int),
        decreases portals.len() - k,
    {
        let q = portals[k];
        let t0 = q.tris.0;
        let mut v0 = out[t0].clone();
        v0.push(k);
        out.set(t0, v0);
        let t1 = q.tris.1;
        let mut v1 = out[t1].clone();
        v1.push(k);
        out.set(t1, v1);
        k += 1;
    }
    out
}


/// The edge a path leaves `t` through toward `to`, as `(left, right)`
/// relative to travel: leaving through the edge opposite `v[i]`, `v[i + 1]`
/// lies right of travel and `v[i + 2]` left, by the counter-clockwise
/// winding. The first edge linked to `to` is taken; `None` if none is.
pub open spec fn gate_toward(t: Triangle, to: TriIdx) -> Option<(VertIdx, VertIdx)> {
    if t.n[0] == to {
        Some((t.v[2], t.v[1]))
    } else if t.n[1] == to {
        Some((t.v[0], t.v[2]))
    } else if t.n[2] == to {
        Some((t.v[1], t.v[0]))
    } else {
        None
    }
}

/// The gates of the first `k` consecutive pairs of a corridor.
pub open spec fn gates_upto(tris: Seq<Triangle>, corridor: Seq<TriIdx>, k: int) -> Seq<(VertIdx, VertIdx)>
    decreases k,
{
    if k <= 0 {
        Seq::empty()
    } else {
        let p = gates_upto(tris, corridor, k - 1);
        match gate_toward(tris[corridor[k - 1] as int], corridor[k]) {
            Some(g) => p.push(g),
            None => p,
        }
    }
}

/// The portal edges crossed by a triangle corridor, in order, each as the
/// `(left, right)` vertex pair relative to the direction of travel. A pair of
/// corridor triangles that are not linked contributes nothing.
pub fn corridor_portals<P>(t: &Triangulation<P>, corridor: &Vec<TriIdx>) -> (r: Vec<(VertIdx, VertIdx)>)
    requires
        forall|k: int| 0 <= k < corridor@.len() - 1 ==> #[trigger] corridor@[k] < t.triangles@.len(),
    ensures
        r@ == gates_upto(
            t.triangles@,
            corridor@,
            if corridor@.len() == 0 { 0 } else { corridor@.len() - 1 },
        ),
{
    let mut out: Vec<(VertIdx, VertIdx)> = Vec::new();
    if corridor.len() == 0 {
        return out;
    }
    let mut k: usize = 0;
    while k + 1 < corridor.len()
        invariant
            forall|j: int| 0 <= j < corridor@.len() - 1 ==> #[trigger] corridor@[j] < t.triangles@.len(),
            corridor@.len() >= 1,
            k + 1 <= corridor@.len(),
            out@ == gates_upto(t.triangles@, corridor@, k as int),
        decreases corridor.len() - k,
    {
        let from = corridor[k];
        let to = corridor[k + 1];
        let tri = t.triangles[from];
        // The first edge linked to `to`, as (left, right) of travel.
        if tri.n[0] == to {
            out.push((tri.v[2], tri.v[1]));
        } else if tri.n[1] == to {
            out.push((tri.v[0], tri.v[2]));
        } else if tri.n[2] == to {
            out.push((tri.v[1], tri.v[0]));
        }
        k += 1;
    }
    out
}

/// Every portal joins two walkable triangles that are linked across an edge
/// that is not a wall, and the edge it records is that edge of its first
/// triangle.
pub proof fn lemma_portals_are_open_links(tris: Seq<Triangle>, w: Seq<bool>, s: int, j: int)
    requires
        0 <= j < portals_upto(tris, w, s).len(),
    ensures
        ({
            let p = portals_upto(tris, w, s)[j];
            let t = p.tris.0 as int;
            &&& walkable_at(w, t)
            &&& walkable_at(w, p.tris.1 as int)
            &&& !tris[t].deleted
            &&& p.tris.0 <= p.tris.1
            &&& exists|i: int|
                0 <= i < 3 && #[trigger] tris[t].n[i] == p.tris.1 && !tris[t].constrained[i]
                    && tri_edge(tris[t], i) == (p.a, p.b)
        }),
    decreases s,
{
    if s > 0 {
        let prev = portals_upto(tris, w, s - 1);
        if j < prev.len() {
            lemma_portals_are_open_links(tris, w, s - 1, j);
        } else {
            let idx = (s - 1) / 3;
            let i = (s - 1) % 3;
            assert(tris[idx].n[i] == portals_upto(tris, w, s)[j].tris.1);
        }
    }
}


/// Consecutive corridor triangles `corridor[j]`, `corridor[j + 1]` are linked
/// across some edge of the first.
pub open spec fn corridor_linked(tris: Seq<Triangle>, corridor: Seq<TriIdx>, j: int) -> bool {
    exists|i: int| 0 <= i < 3 && #[trigger] tris[corridor[j] as int].n[i] == corridor[j + 1]
}

/// Edge `i` of `t` is the first linked to `to`.
pub open spec fn first_link_to(t: Triangle, to: TriIdx, i: int) -> bool {
    &&& 0 <= i < 3
    &&& t.n[i] == to
    &&& forall|i2: int| 0 <= i2 < i ==> t.n[i2] != to
}

/// Along a corridor whose consecutive triangles are linked, one portal is
/// reported per step, and the portal of step `j` is the edge the corridor
/// leaves `corridor[j]` through, read against the direction of travel: with
/// `i` the first edge linked to `corridor[j + 1]`, the portal is the edge's
/// end on the left and its start on the right, whichever edge `i` is.
pub proof fn lemma_corridor_gates_are_crossed_edges(
    tris: Seq<Triangle>,
    corridor: Seq<TriIdx>,
    k: int,
)
    requires
        0 <= k < corridor.len(),
        forall|j: int| 0 <= j < k ==> #[trigger] corridor_linked(tris, corridor, j),
    ensures
        gates_upto(tris, corridor, k).len() == k,
        forall|j: int, i: int|
            0 <= j < k && #[trigger] first_link_to(tris[corridor[j] as int], corridor[j + 1], i)
                ==> #[trigger] gates_upto(tris, corridor, k)[j] == (
                tri_edge(tris[corridor[j] as int], i).1,
                tri_edge(tris[corridor[j] as int], i).0,
            ),
    decreases k,
{
    if k > 0 {
        lemma_corridor_gates_are_crossed_edges(tris, corridor, k - 1);
        let p = gates_upto(tris, corridor, k - 1);
        let t = tris[corridor[k - 1] as int];
        let to = corridor[k];
        assert(corridor_linked(tris, corridor, k - 1));
        let i0 = choose|i: int| 0 <= i < 3 && #[trigger] t.n[i] == to;
        let gate = gate_toward(t, to);
        assert(gate is Some) by {
            assert(t.n[i0] == to);
        }
        let g = gates_upto(tris, corridor, k);
        assert(g == p.push(gate->0));
        assert forall|j: int, i: int|
            0 <= j < k && #[trigger] first_link_to(tris[corridor[j] as int], corridor[j + 1], i)
                implies #[trigger] gates_upto(tris, corridor, k)[j] == (
                tri_edge(tris[corridor[j] as int], i).1,
                tri_edge(tris[corridor[j] as int], i).0,
            ) by {
            if j < k - 1 {
                assert(g[j] == p[j]);
                assert(p[j] == gates_upto(tris, corridor, k - 1)[j]);
            } else {
                assert(j == k - 1);
                if i == 0 {
                } else if i == 1 {
                    assert(t.n[0] != to);
                } else {
                    assert(t.n[0] != to);
                    assert(t.n[1] != to);
                }
            }
        }
    }
}

/// Every portal touching a triangle is listed for it, and nothing else is:
/// portal `q` is in triangle `x`'s list exactly when one of its two sides is
/// `x`.
pub proof fn lemma_incident_lists_touching_portals(portals: Seq<PortalEdge>, x: int, k: int, q: int)
    requires
        portals.len() <= usize::MAX,
        0 <= q < k <= portals.len(),
    ensures
        incident_upto(portals, x, k).contains(q as usize) <==> (portals[q].tris.0 == x
            || portals[q].tris.1 == x),
    decreases k,
{
    lemma_incident_below(portals, x, k - 1);
    let p = incident_upto(portals, x, k - 1);
    let r = incident_upto(portals, x, k);
    let qk = portals[k - 1];
    let p1 = if qk.tris.0 == x {
        p.push((k - 1) as usize)
    } else {
        p
    };
    assert(r == if qk.tris.1 == x {
        p1.push((k - 1) as usize)
    } else {
        p1
    });
    assert(forall|m: int| 0 <= m < p.len() ==> r[m] == p[m]);
    assert(forall|m: int| p.len() <= m < r.len() ==> r[m] == (k - 1) as usize);
    if q < k - 1 {
        lemma_incident_lists_touching_portals(portals, x, k - 1, q);
        if p.contains(q as usize) {
            let m = choose|m: int| 0 <= m < p.len() && p[m] == q as usize;
            assert(r[m] == q as usize);
        }
        if r.contains(q as usize) {
            let m = choose|m: int| 0 <= m < r.len() && r[m] == q as usize;
            assert(m < p.len());
            assert(p[m] == q as usize);
        }
    } else {
        if r.contains(q as usize) {
            let m = choose|m: int| 0 <= m < r.len() && r[m] == q as usize;
            if m < p.len() {
                assert(p[m] < k - 1);
            }
            assert(r.len() > p.len());
        }
        if portals[q].tris.0 == x || portals[q].tris.1 == x {
            assert(r[r.len() - 1] == q as usize);
        }
    }
}

proof fn lemma_incident_below(portals: Seq<PortalEdge>, x: int, k: int)
    requires
        portals.len() <= usize::MAX,
        0 <= k <= portals.len(),
    ensures
        forall|m: int|
            0 <= m < incident_upto(portals, x, k).len() ==> #[trigger] incident_upto(portals, x, k)[m]
                < k,
    decreases k,
{
    if k > 0 {
        lemma_incident_below(portals, x, k - 1);
        let p = incident_upto(portals, x, k - 1);
        let qk = portals[k - 1];
        let p1 = if qk.tris.0 == x {
            p.push((k - 1) as usize)
        } else {
            p
        };
        assert(forall|m: int| 0 <= m < p1.len() ==> p1[m] < k);
    }
}


proof fn lemma_portals_grow(tris: Seq<Triangle>, w: Seq<bool>, s1: int, s2: int, x: PortalEdge)
    requires
        s1 <= s2,
        portals_upto(tris, w, s1).contains(x),
    ensures
        portals_upto(tris, w, s2).contains(x),
    decreases s2 - s1,
{
    if s1 < s2 {
        lemma_portals_grow(tris, w, s1, s2 - 1, x);
        let p = portals_upto(tris, w, s2 - 1);
        let m = choose|m: int| 0 <= m < p.len() && p[m] == x;
        assert(portals_upto(tris, w, s2)[m] == x);
    }
}

/// No open way between walkable triangles is missed: every edge of a live
/// walkable triangle that is not a wall and leads to a walkable neighbour
/// whose index is not lower is listed as a portal, with that edge and those
/// two triangles.
pub proof fn lemma_every_open_link_is_a_portal(tris: Seq<Triangle>, w: Seq<bool>, t: int, i: int)
    requires
        tris.len() <= usize::MAX,
        0 <= t < tris.len(),
        0 <= i < 3,
        !tris[t].deleted,
        walkable_at(w, t),
        tris[t].n[i] != NO_NEIGHBOUR,
        !tris[t].constrained[i],
        walkable_at(w, tris[t].n[i] as int),
        tris[t].n[i] >= t,
    ensures
        portals_upto(tris, w, 3 * tris.len() as int).contains(
            PortalEdge {
                a: tri_edge(tris[t], i).0,
                b: tri_edge(tris[t], i).1,
                tris: (t as TriIdx, tris[t].n[i]),
            },
        ),
{
    lemma_slot(t, i);
    let s = 3 * t + i + 1;
    let x = PortalEdge { a: tri_edge(tris[t], i).0, b: tri_edge(tris[t], i).1, tris: (t as TriIdx, tris[t].n[i]) };
    assert(is_portal_slot(tris, w, t, i));
    let p = portals_upto(tris, w, s);
    assert(p[p.len() - 1] == x);
    lemma_portals_grow(tris, w, s, 3 * tris.len() as int, x);
}


/// Each triangle's portal list is in portal order.
pub proof fn lemma_incident_lists_are_in_portal_order(portals: Seq<PortalEdge>, x: int, k: int)
    requires
        portals.len() <= usize::MAX,
        0 <= k <= portals.len(),
    ensures
        forall|m1: int, m2: int|
            0 <= m1 < m2 < incident_upto(portals, x, k).len() ==> #[trigger] incident_upto(portals, x, k)[m1]
                <= #[trigger] incident_upto(portals, x, k)[m2],
    decreases k,
{
    if k > 0 {
        lemma_incident_lists_are_in_portal_order(portals, x, k - 1);
        lemma_incident_below(portals, x, k - 1);
        let p = incident_upto(portals, x, k - 1);
        let qk = portals[k - 1];
        let p1 = if qk.tris.0 == x {
            p.push((k - 1) as usize)
        } else {
            p
        };
        let r = incident_upto(portals, x, k);
        assert(r == if qk.tris.1 == x {
            p1.push((k - 1) as usize)
        } else {
            p1
        });
        assert(forall|m: int| 0 <= m < p.len() ==> r[m] == p[m]);
        assert(forall|m: int| p.len() <= m < r.len() ==> r[m] == (k - 1) as usize);
    }
}

/// Portals come in the order of the triangle they are found from: the first
/// triangle of each portal is at most that of the next.
pub proof fn lemma_portals_in_triangle_order(tris: Seq<Triangle>, w: Seq<bool>, s: int)
    requires
        tris.len() <= usize::MAX,
        0 <= s <= 3 * tris.len(),
    ensures
        forall|m: int| 0 <= m < portals_upto(tris, w, s).len() ==> 3 * (#[trigger] portals_upto(tris, w, s)[m]).tris.0 < s,
        forall|m1: int, m2: int|
            0 <= m1 < m2 < portals_upto(tris, w, s).len() ==> (#[trigger] portals_upto(tris, w, s)[m1]).tris.0
                <= (#[trigger] portals_upto(tris, w, s)[m2]).tris.0,
    decreases s,
{
    if s > 0 {
        lemma_portals_in_triangle_order(tris, w, s - 1);
        let p = portals_upto(tris, w, s - 1);
        let r = portals_upto(tris, w, s);
        let idx = (s - 1) / 3;
        assert(3 * idx <= s - 1) by (nonlinear_arith)
            requires
                idx == (s - 1) / 3,
                s >= 1,
        ;
        assert(s - 1 < 3 * idx + 3) by (nonlinear_arith)
            requires
                idx == (s - 1) / 3,
                s >= 1,
        ;
        assert(forall|m: int| 0 <= m < p.len() ==> r[m] == p[m]);
        if r.len() > p.len() {
            assert(r[r.len() - 1].tris.0 == idx as TriIdx);
        }
    }
}

/// A corridor step whose two triangles are not linked adds no portal, and a
/// linked one adds exactly one: the corridor yields one portal per linked
/// step.
pub proof fn lemma_corridor_portals_count_linked_steps(tris: Seq<Triangle>, corridor: Seq<TriIdx>, k: int)
    requires
        0 <= k < corridor.len(),
    ensures
        gates_upto(tris, corridor, k).len() == linked_steps(tris, corridor, k),
    decreases k,
{
    if k > 0 {
        lemma_corridor_portals_count_linked_steps(tris, corridor, k - 1);
        let t = tris[corridor[k - 1] as int];
        let to = corridor[k];
        if corridor_linked(tris, corridor, k - 1) {
            let i0 = choose|i: int| 0 <= i < 3 && #[trigger] t.n[i] == to;
            assert(t.n[i0] == to);
        } else {
            assert(t.n[0] != to);
            assert(t.n[1] != to);
            assert(t.n[2] != to);
        }
    }
}

/// The number of steps among the first `k` whose two triangles are linked.
pub open spec fn linked_steps(tris: Seq<Triangle>, corridor: Seq<TriIdx>, k: int) -> nat
    decreases k,
{
    if k <= 0 {
        0
    } else {
        linked_steps(tris, corridor, k - 1) + if corridor_linked(tris, corridor, k - 1) {
            1nat
        } else {
            0nat
        }
    }
}

} // verus!
