//! Re-triangulating a star-shaped cavity around a new vertex.
//!
//! Bowyer–Watson inserts a vertex by deleting every triangle whose
//! circumcircle contains it (the cavity) and fanning the cavity's boundary to
//! the new vertex. Deciding which triangles are in the cavity is a geometric
//! question; everything after that is bookkeeping on indices, and lives here:
//! collecting the boundary, tombstoning the cavity, creating one triangle per
//! boundary edge, pointing the outside triangles back at them, and stitching
//! the fan together.

use vstd::prelude::*;
use crate::constraint::{edge_index_between, edge_joins};
use crate::triangulation::{
    first_joining_edge, tri_edge, TriIdx, Triangle, Triangulation, VertIdx, NO_NEIGHBOUR,
};

verus! {

/// A cavity boundary edge `(a, b, outside)`: the edge from `a` to `b` with the
/// cavity on its left, and the triangle on the other side (or
/// [`NO_NEIGHBOUR`]).
pub type CavityEdge = (VertIdx, VertIdx, TriIdx);

/// Is edge `i` of triangle `t` on the cavity boundary, i.e. not shared with
/// another cavity triangle?
pub open spec fn on_boundary(tris: Seq<Triangle>, bad: Seq<TriIdx>, t: int, i: int) -> bool {
    let nb = tris[t].n[i];
    !(nb != NO_NEIGHBOUR && bad.contains(nb))
}

/// The boundary entry contributed by edge `i` of cavity triangle `t`, if any.
pub open spec fn slot_boundary(tris: Seq<Triangle>, bad: Seq<TriIdx>, t: int, i: int) -> Seq<
    CavityEdge,
> {
    if on_boundary(tris, bad, t, i) {
        seq![(tri_edge(tris[t], i).0, tri_edge(tris[t], i).1, tris[t].n[i])]
    } else {
        Seq::empty()
    }
}

/// The boundary entries of one cavity triangle, edge by edge.
pub open spec fn triangle_boundary(tris: Seq<Triangle>, bad: Seq<TriIdx>, t: int) -> Seq<
    CavityEdge,
> {
    slot_boundary(tris, bad, t, 0) + slot_boundary(tris, bad, t, 1) + slot_boundary(
        tris,
        bad,
        t,
        2,
    )
}

/// The boundary entries of the first `m` cavity triangles, in cavity order.
pub open spec fn cavity_boundary_upto(tris: Seq<Triangle>, bad: Seq<TriIdx>, m: int) -> Seq<
    CavityEdge,
>
    decreases m,
{
    if m <= 0 {
        Seq::empty()
    } else {
        cavity_boundary_upto(tris, bad, m - 1) + triangle_boundary(tris, bad, bad[m - 1] as int)
    }
}

/// The whole cavity boundary: every edge of a cavity triangle that is not
/// shared with another cavity triangle, in cavity order then edge order.
pub open spec fn cavity_boundary(tris: Seq<Triangle>, bad: Seq<TriIdx>) -> Seq<CavityEdge> {
    cavity_boundary_upto(tris, bad, bad.len() as int)
}

/// Does entry `e` start at `x` (and, if `y` is given, not end at `y`)?
pub open spec fn starts_at(e: CavityEdge, x: VertIdx, y: Option<VertIdx>) -> bool {
    e.0 == x && match y {
        Some(w) => e.1 != w,
        None => true,
    }
}

/// Does entry `e` end at `y` (and, if `x` is given, not start at `x`)?
pub open spec fn ends_at(e: CavityEdge, y: VertIdx, x: Option<VertIdx>) -> bool {
    e.1 == y && match x {
        Some(w) => e.0 != w,
        None => true,
    }
}

/// The last index in `[lo, hi)` whose entry starts at `x` (not ending at `y`).
pub open spec fn last_from(bnd: Seq<CavityEdge>, x: VertIdx, y: Option<VertIdx>, lo: int, hi: int) -> Option<
    int,
>
    decreases hi - lo,
{
    if hi <= lo {
        None
    } else if starts_at(bnd[hi - 1], x, y) {
        Some(hi - 1)
    } else {
        last_from(bnd, x, y, lo, hi - 1)
    }
}

/// The last index in `[lo, hi)` whose entry ends at `y` (not starting at `x`).
pub open spec fn last_to(bnd: Seq<CavityEdge>, y: VertIdx, x: Option<VertIdx>, lo: int, hi: int) -> Option<
    int,
>
    decreases hi - lo,
{
    if hi <= lo {
        None
    } else if ends_at(bnd[hi - 1], y, x) {
        Some(hi - 1)
    } else {
        last_to(bnd, y, x, lo, hi - 1)
    }
}

/// The fan triangle linked across edge `(b, p)` of fan triangle `k`: pairs are
/// visited in order `(i, j)`, `i < j`, and a later match overwrites an earlier
/// one, so a later triangle starting at `b` wins, and failing that the last
/// earlier one that starts at `b` without closing a two-cycle.
pub open spec fn fan_next(bnd: Seq<CavityEdge>, k: int) -> Option<int> {
    match last_from(bnd, bnd[k].1, None, k + 1, bnd.len() as int) {
        Some(j) => Some(j),
        None => last_from(bnd, bnd[k].1, Some(bnd[k].0), 0, k),
    }
}

/// The fan triangle linked across edge `(p, a)` of fan triangle `k`, by the
/// same visiting order as [`fan_next`].
pub open spec fn fan_prev(bnd: Seq<CavityEdge>, k: int) -> Option<int> {
    match last_to(bnd, bnd[k].0, Some(bnd[k].1), k + 1, bnd.len() as int) {
        Some(j) => Some(j),
        None => last_to(bnd, bnd[k].0, None, 0, k),
    }
}

/// The triangle index of fan entry `j` when the fan starts at index `base`.
pub open spec fn fan_index(base: int, j: Option<int>) -> TriIdx {
    match j {
        Some(x) => (base + x) as TriIdx,
        None => NO_NEIGHBOUR,
    }
}

/// The last fan entry in `[0, hi)` whose outside triangle is `u` and whose
/// edge is edge `i` of `tri` (the old triangle `u`).
pub open spec fn last_facing(bnd: Seq<CavityEdge>, tri: Triangle, u: int, i: int, hi: int) -> Option<
    int,
>
    decreases hi,
{
    if hi <= 0 {
        None
    } else if bnd[hi - 1].2 == u && first_joining_edge(tri, bnd[hi - 1].0, bnd[hi - 1].1) == Some(
        i,
    ) {
        Some(hi - 1)
    } else {
        last_facing(bnd, tri, u, i, hi - 1)
    }
}

/// A boundary that closes into a proper ring: no entry is degenerate, no two
/// entries start at one vertex or end at one vertex, and no entry is the
/// reverse of another.
pub open spec fn proper_ring(bnd: Seq<CavityEdge>) -> bool {
    &&& forall|k: int| 0 <= k < bnd.len() ==> #[trigger] bnd[k].0 != bnd[k].1
    &&& forall|i: int, j: int|
        #![trigger bnd[i], bnd[j]]
        0 <= i < bnd.len() && 0 <= j < bnd.len() && i != j ==> bnd[i].0 != bnd[j].0
            && bnd[i].1 != bnd[j].1 && !(bnd[i].0 == bnd[j].1 && bnd[i].1 == bnd[j].0)
}

proof fn lemma_last_from(bnd: Seq<CavityEdge>, x: VertIdx, y: Option<VertIdx>, lo: int, hi: int)
    ensures
        match last_from(bnd, x, y, lo, hi) {
            Some(j) => lo <= j < hi && starts_at(bnd[j], x, y) && forall|m: int|
                j < m < hi ==> !#[trigger] starts_at(bnd[m], x, y),
            None => forall|m: int| lo <= m < hi ==> !#[trigger] starts_at(bnd[m], x, y),
        },
    decreases hi - lo,
{
    if hi > lo && !starts_at(bnd[hi - 1], x, y) {
        lemma_last_from(bnd, x, y, lo, hi - 1);
    }
}

proof fn lemma_last_to(bnd: Seq<CavityEdge>, y: VertIdx, x: Option<VertIdx>, lo: int, hi: int)
    ensures
        match last_to(bnd, y, x, lo, hi) {
            Some(j) => lo <= j < hi && ends_at(bnd[j], y, x) && forall|m: int|
                j < m < hi ==> !#[trigger] ends_at(bnd[m], y, x),
            None => forall|m: int| lo <= m < hi ==> !#[trigger] ends_at(bnd[m], y, x),
        },
    decreases hi - lo,
{
    if hi > lo && !ends_at(bnd[hi - 1], y, x) {
        lemma_last_to(bnd, y, x, lo, hi - 1);
    }
}

/// Around a proper ring the fan closes: each new triangle is linked across
/// its edge `(b, p)` to the one new triangle whose boundary edge starts at
/// `b`, and across `(p, a)` to the one whose boundary edge ends at `a`; where
/// there is no such triangle the link is empty.
pub proof fn lemma_fan_follows_ring(bnd: Seq<CavityEdge>, k: int)
    requires
        proper_ring(bnd),
        0 <= k < bnd.len(),
    ensures
        forall|j: int|
            0 <= j < bnd.len() ==> (fan_next(bnd, k) == Some(j) <==> #[trigger] bnd[j].0 == bnd[k].1),
        forall|j: int|
            0 <= j < bnd.len() ==> (fan_prev(bnd, k) == Some(j) <==> #[trigger] bnd[j].1 == bnd[k].0),
        fan_next(bnd, k) is None <==> forall|j: int| 0 <= j < bnd.len() ==> #[trigger] bnd[j].0 != bnd[k].1,
        fan_prev(bnd, k) is None <==> forall|j: int| 0 <= j < bnd.len() ==> #[trigger] bnd[j].1 != bnd[k].0,
{
    let n = bnd.len() as int;
    lemma_last_from(bnd, bnd[k].1, None, k + 1, n);
    lemma_last_from(bnd, bnd[k].1, Some(bnd[k].0), 0, k);
    lemma_last_to(bnd, bnd[k].0, Some(bnd[k].1), k + 1, n);
    lemma_last_to(bnd, bnd[k].0, None, 0, k);
    assert forall|j: int| 0 <= j < n implies (fan_next(bnd, k) == Some(j) <==> #[trigger] bnd[j].0
        == bnd[k].1) by {
        if bnd[j].0 == bnd[k].1 {
            assert(j != k);
            if j > k {
                assert(starts_at(bnd[j], bnd[k].1, None));
            } else {
                assert(starts_at(bnd[j], bnd[k].1, Some(bnd[k].0)));
                assert forall|m: int| k + 1 <= m < n implies !#[trigger] starts_at(
                    bnd[m],
                    bnd[k].1,
                    None,
                ) by {
                    assert(bnd[m].0 != bnd[j].0);
                }
            }
            assert forall|m: int| j < m < n && m != k implies !#[trigger] starts_at(bnd[m], bnd[k].1, None) by {
                assert(bnd[m].0 != bnd[j].0);
            }
        }
    }
    assert forall|j: int| 0 <= j < n implies (fan_prev(bnd, k) == Some(j) <==> #[trigger] bnd[j].1
        == bnd[k].0) by {
        if bnd[j].1 == bnd[k].0 {
            assert(j != k);
            if j > k {
                assert(ends_at(bnd[j], bnd[k].0, Some(bnd[k].1)));
            } else {
                assert(ends_at(bnd[j], bnd[k].0, None));
                assert forall|m: int| k + 1 <= m < n implies !#[trigger] ends_at(
                    bnd[m],
                    bnd[k].0,
                    Some(bnd[k].1),
                ) by {
                    assert(bnd[m].1 != bnd[j].1);
                }
            }
            assert forall|m: int| j < m < n && m != k implies !#[trigger] ends_at(bnd[m], bnd[k].0, None) by {
                assert(bnd[m].1 != bnd[j].1);
            }
        }
    }
}


/// The link of edge `i` of old triangle `u` after the fan is built: the last
/// new triangle whose boundary edge is that edge, or the old link.
pub open spec fn facing_link(bnd: Seq<CavityEdge>, tri: Triangle, u: int, i: int, hi: int, base: int) -> TriIdx {
    match last_facing(bnd, tri, u, i, hi) {
        Some(k) => (base + k) as TriIdx,
        None => tri.n[i],
    }
}

/// Fan triangle `k` over boundary `bnd` around vertex `p`, before stitching:
/// vertices `(a, b, p)`, no constrained edge, live, linked outward across
/// `(a, b)`.
pub open spec fn is_fan_triangle(f: Triangle, bnd: Seq<CavityEdge>, k: int, p: VertIdx) -> bool {
    &&& f.v[0] == bnd[k].0
    &&& f.v[1] == bnd[k].1
    &&& f.v[2] == p
    &&& !f.constrained[0] && !f.constrained[1] && !f.constrained[2]
    &&& !f.deleted
    &&& f.n[2] == bnd[k].2
}

proof fn lemma_boundary_bounds(tris: Seq<Triangle>, bad: Seq<TriIdx>, m: int)
    requires
        0 <= m <= bad.len(),
        forall|k: int| 0 <= k < bad.len() ==> #[trigger] bad[k] < tris.len(),
        forall|k: int, i: int|
            0 <= k < bad.len() && 0 <= i < 3 ==> #[trigger] tris[bad[k] as int].n[i] == NO_NEIGHBOUR
                || tris[bad[k] as int].n[i] < tris.len(),
    ensures
        cavity_boundary_upto(tris, bad, m).len() <= 3 * m,
        forall|j: int|
            0 <= j < cavity_boundary_upto(tris, bad, m).len() ==> #[trigger] cavity_boundary_upto(
                tris,
                bad,
                m,
            )[j].2 == NO_NEIGHBOUR || cavity_boundary_upto(tris, bad, m)[j].2 < tris.len(),
    decreases m,
{
    if m > 0 {
        lemma_boundary_bounds(tris, bad, m - 1);
        let t = bad[m - 1] as int;
        assert(tris[t].n[0] == NO_NEIGHBOUR || tris[t].n[0] < tris.len());
        assert(tris[t].n[1] == NO_NEIGHBOUR || tris[t].n[1] < tris.len());
        assert(tris[t].n[2] == NO_NEIGHBOUR || tris[t].n[2] < tris.len());
    }
}

fn in_cavity(bad: &Vec<TriIdx>, x: TriIdx) -> (r: bool)
    ensures
        r == bad@.contains(x),
{
    let mut j: usize = 0;
    while j < bad.len()
        invariant
            j <= bad.len(),
            forall|q: int| 0 <= q < j ==> bad@[q] != x,
        decreases bad.len() - j,
    {
        if bad[j] == x {
            return true;
        }
        j += 1;
    }
    false
}

fn push_slot(out: &mut Vec<CavityEdge>, tris: &Vec<Triangle>, bad: &Vec<TriIdx>, t: TriIdx, i: usize)
    requires
        t < tris.len(),
        i < 3,
    ensures
        final(out)@ == old(out)@ + slot_boundary(tris@, bad@, t as int, i as int),
{
    let tri = tris[t];
    let nb = tri.n[i];
    let shared = nb != NO_NEIGHBOUR && in_cavity(bad, nb);
    if !shared {
        let e = tri.edge(i);
        out.push((e.0, e.1, nb));
    }
    assert(out@ =~= old(out)@ + slot_boundary(tris@, bad@, t as int, i as int));
}

fn collect_boundary(tris: &Vec<Triangle>, bad: &Vec<TriIdx>) -> (bnd: Vec<CavityEdge>)
    requires
        forall|k: int| 0 <= k < bad.len() ==> #[trigger] bad@[k] < tris.len(),
    ensures
        bnd@ == cavity_boundary(tris@, bad@),
{
    let mut out: Vec<CavityEdge> = Vec::new();
    let mut k: usize = 0;
    while k < bad.len()
        invariant
            k <= bad.len(),
            forall|q: int| 0 <= q < bad.len() ==> #[trigger] bad@[q] < tris.len(),
            out@ == cavity_boundary_upto(tris@, bad@, k as int),
        decreases bad.len() - k,
    {
        let idx = bad[k];
        let ghost before = out@;
        push_slot(&mut out, tris, bad, idx, 0);
        push_slot(&mut out, tris, bad, idx, 1);
        push_slot(&mut out, tris, bad, idx, 2);
        assert(out@ =~= before + triangle_boundary(tris@, bad@, idx as int));
        k += 1;
    }
    out
}

fn find_last_from(bnd: &Vec<CavityEdge>, x: VertIdx, y: Option<VertIdx>, lo: usize, hi: usize) -> (r: Option<usize>)
    requires
        lo <= hi <= bnd.len(),
    ensures
        match r {
            Some(j) => last_from(bnd@, x, y, lo as int, hi as int) == Some(j as int),
            None => last_from(bnd@, x, y, lo as int, hi as int) is None,
        },
{
    let mut j = hi;
    while j > lo
        invariant
            lo <= j <= hi <= bnd.len(),
            last_from(bnd@, x, y, lo as int, hi as int) == last_from(bnd@, x, y, lo as int, j as int),
        decreases j - lo,
    {
        let e = bnd[j - 1];
        let hit = e.0 == x && match y {
            Some(w) => e.1 != w,
            None => true,
        };
        if hit {
            return Some(j - 1);
        }
        j -= 1;
    }
    None
}

fn find_last_to(bnd: &Vec<CavityEdge>, y: VertIdx, x: Option<VertIdx>, lo: usize, hi: usize) -> (r: Option<usize>)
    requires
        lo <= hi <= bnd.len(),
    ensures
        match r {
            Some(j) => last_to(bnd@, y, x, lo as int, hi as int) == Some(j as int),
            None => last_to(bnd@, y, x, lo as int, hi as int) is None,
        },
{
    let mut j = hi;
    while j > lo
        invariant
            lo <= j <= hi <= bnd.len(),
            last_to(bnd@, y, x, lo as int, hi as int) == last_to(bnd@, y, x, lo as int, j as int),
        decreases j - lo,
    {
        let e = bnd[j - 1];
        let hit = e.1 == y && match x {
            Some(w) => e.0 != w,
            None => true,
        };
        if hit {
            return Some(j - 1);
        }
        j -= 1;
    }
    None
}



/// `f` is `o` with its tombstone set when `gone`.
pub open spec fn tombstoned_copy(f: Triangle, o: Triangle, gone: bool) -> bool {
    &&& f.v == o.v
    &&& f.n == o.n
    &&& f.constrained == o.constrained
    &&& f.deleted == (o.deleted || gone)
}

/// `f` has the vertices, constraint flags and tombstone of `o`.
pub open spec fn same_shape(f: Triangle, o: Triangle) -> bool {
    &&& f.v == o.v
    &&& f.constrained == o.constrained
    &&& f.deleted == o.deleted
}

/// Tombstone every cavity triangle; nothing else changes.
#[verifier::spinoff_prover]
pub(crate) fn tombstone_cavity<P>(t: &mut Triangulation<P>, bad: &Vec<TriIdx>)
    requires
        forall|k: int| 0 <= k < bad.len() ==> #[trigger] bad@[k] < old(t).triangles.len(),
    ensures
        final(t).points@ == old(t).points@,
        final(t).constraints@ == old(t).constraints@,
        final(t).num_input == old(t).num_input,
        final(t).triangles@.len() == old(t).triangles@.len(),
        forall|u: int|
            0 <= u < old(t).triangles@.len() ==> tombstoned_copy(
                #[trigger] final(t).triangles@[u],
                old(t).triangles@[u],
                bad@.contains(u as TriIdx),
            ),
{
    let ghost old_tris = t.triangles@;
    let mut k: usize = 0;
    while k < bad.len()
        invariant
            k <= bad.len(),
            forall|q: int| 0 <= q < bad.len() ==> #[trigger] bad@[q] < old_tris.len(),
            t.points@ == old(t).points@,
            t.constraints@ == old(t).constraints@,
            t.num_input == old(t).num_input,
            old_tris == old(t).triangles@,
            t.triangles@.len() == old_tris.len(),
            forall|u: int|
                0 <= u < old_tris.len() ==> {
                    &&& #[trigger] t.triangles@[u].v == old_tris[u].v
                    &&& t.triangles@[u].n == old_tris[u].n
                    &&& t.triangles@[u].constrained == old_tris[u].constrained
                    &&& t.triangles@[u].deleted == (old_tris[u].deleted || exists|q: int|
                        0 <= q < k && bad@[q] == u)
                },
        decreases bad.len() - k,
    {
        let idx = bad[k];
        let ghost prev = t.triangles@;
        let mut tri = t.triangles[idx];
        tri.deleted = true;
        t.triangles.set(idx, tri);
        proof {
            assert forall|u: int| 0 <= u < old_tris.len() implies #[trigger] t.triangles@[u].deleted
                == (old_tris[u].deleted || exists|q: int| 0 <= q < k + 1 && bad@[q] == u) by {
                if u == idx as int {
                    assert(bad@[k as int] == u);
                } else {
                    assert(t.triangles@[u] == prev[u]);
                    assert(prev[u].v == old_tris[u].v);
                    if exists|q: int| 0 <= q < k && bad@[q] == u {
                        let q = choose|q: int| 0 <= q < k && bad@[q] == u;
                        assert(0 <= q < k + 1 && bad@[q] == u);
                    }
                    if exists|q: int| 0 <= q < k + 1 && bad@[q] == u {
                        let q = choose|q: int| 0 <= q < k + 1 && bad@[q] == u;
                        assert(q != k);
                        assert(0 <= q < k && bad@[q] == u);
                    }
                }
            }
        }
        k += 1;
    }
    proof {
        assert forall|u: int| 0 <= u < old_tris.len() implies tombstoned_copy(
            #[trigger] t.triangles@[u],
            old_tris[u],
            bad@.contains(u as TriIdx),
        ) by {
            assert(t.triangles@[u].v == old_tris[u].v);
            if exists|q: int| 0 <= q < bad.len() && bad@[q] == u {
                let q = choose|q: int| 0 <= q < bad.len() && bad@[q] == u;
                assert(bad@[q] == u as TriIdx);
            }
            if bad@.contains(u as TriIdx) {
                let q = choose|q: int| 0 <= q < bad.len() && bad@[q] == u as TriIdx;
                assert(bad@[q] == u);
            }
        }
    }
}

/// Append one fan triangle per boundary entry and point each outside triangle
/// back at the new triangle across the shared edge.
#[verifier::spinoff_prover]
fn push_fan<P>(t: &mut Triangulation<P>, p: VertIdx, bnd: &Vec<CavityEdge>)
    requires
        old(t).triangles.len() + bnd.len() < usize::MAX,
        forall|j: int|
            0 <= j < bnd.len() ==> #[trigger] bnd@[j].2 == NO_NEIGHBOUR || bnd@[j].2 < old(
                t,
            ).triangles.len(),
    ensures
        final(t).points@ == old(t).points@,
        final(t).constraints@ == old(t).constraints@,
        final(t).num_input == old(t).num_input,
        final(t).triangles@.len() == old(t).triangles@.len() + bnd.len(),
        forall|u: int|
            0 <= u < old(t).triangles@.len() ==> same_shape(
                #[trigger] final(t).triangles@[u],
                old(t).triangles@[u],
            ),
        forall|u: int, i: int|
            0 <= u < old(t).triangles@.len() && 0 <= i < 3 ==> #[trigger] final(t).triangles@[u].n[i]
                == facing_link(
                bnd@,
                old(t).triangles@[u],
                u,
                i,
                bnd.len() as int,
                old(t).triangles@.len() as int,
            ),
        forall|k: int|
            0 <= k < bnd.len() ==> is_fan_triangle(
                #[trigger] final(t).triangles@[old(t).triangles@.len() + k],
                bnd@,
                k,
                p,
            ) && final(t).triangles@[old(t).triangles@.len() + k].n[0] == NO_NEIGHBOUR
                && final(t).triangles@[old(t).triangles@.len() + k].n[1] == NO_NEIGHBOUR,
{
    let ghost old_tris = t.triangles@;
    let base = t.triangles.len();
    let mut k: usize = 0;
    while k < bnd.len()
        invariant
            k <= bnd.len(),
            base == old_tris.len(),
            old_tris == old(t).triangles@,
            base + bnd.len() < usize::MAX,
            forall|j: int|
                0 <= j < bnd.len() ==> #[trigger] bnd@[j].2 == NO_NEIGHBOUR || bnd@[j].2 < base,
            t.points@ == old(t).points@,
            t.constraints@ == old(t).constraints@,
            t.num_input == old(t).num_input,
            t.triangles@.len() == base + k,
            forall|u: int| 0 <= u < base ==> same_shape(#[trigger] t.triangles@[u], old_tris[u]),
            forall|u: int, i: int|
                0 <= u < base && 0 <= i < 3 ==> #[trigger] t.triangles@[u].n[i] == facing_link(
                    bnd@,
                    old_tris[u],
                    u,
                    i,
                    k as int,
                    base as int,
                ),
            forall|j: int|
                0 <= j < k ==> is_fan_triangle(#[trigger] t.triangles@[base + j], bnd@, j, p)
                    && t.triangles@[base + j].n[0] == NO_NEIGHBOUR && t.triangles@[base + j].n[1]
                    == NO_NEIGHBOUR,
        decreases bnd.len() - k,
    {
        let ghost prev = t.triangles@;
        let e = bnd[k];
        let a = e.0;
        let b = e.1;
        let outside = e.2;
        let new_idx = t.triangles.len();
        let mut tri = Triangle::new(a, b, p);
        tri.n[2] = outside;
        t.triangles.push(tri);
        if outside != NO_NEIGHBOUR {
            let back = t.triangles[outside];
            match edge_index_between(&back, a, b) {
                Some(i) => {
                    assert(i == 0 || !edge_joins(back, 0, a, b));
                    assert(i <= 1 || !edge_joins(back, 1, a, b));
                    assert(first_joining_edge(back, b, a) == Some(i as int));
                    let mut back2 = back;
                    back2.n[i] = new_idx;
                    t.triangles.set(outside, back2);
                },
                None => {
                    assert(!edge_joins(back, 0, a, b));
                    assert(!edge_joins(back, 1, a, b));
                    assert(!edge_joins(back, 2, a, b));
                    assert(first_joining_edge(back, b, a) is None);
                },
            }
        }
        proof {
            assert forall|u: int| 0 <= u < base implies same_shape(#[trigger] t.triangles@[u], old_tris[u]) by {
                assert(same_shape(prev[u], old_tris[u]));
            }
            assert forall|u: int, i: int| 0 <= u < base && 0 <= i < 3 implies #[trigger] t.triangles@[u].n[i]
                == facing_link(bnd@, old_tris[u], u, i, k + 1, base as int) by {
                assert(first_joining_edge(old_tris[u], b, a) == first_joining_edge(old_tris[u], a, b));
            }
            assert forall|j: int| 0 <= j < k + 1 implies is_fan_triangle(#[trigger] t.triangles@[base + j], bnd@, j, p)
                    && t.triangles@[base + j].n[0] == NO_NEIGHBOUR && t.triangles@[base + j].n[1]
                    == NO_NEIGHBOUR by {
                if j < k {
                    assert(t.triangles@[base + j] == prev[base + j]);
                }
            }
        }
        k += 1;
    }
}


/// Stitch fan triangles `base..` to each other across the edges at the new
/// vertex; nothing else changes.
#[verifier::spinoff_prover]
fn stitch_fan<P>(t: &mut Triangulation<P>, base: usize, bnd: &Vec<CavityEdge>)
    requires
        old(t).triangles.len() == base + bnd.len(),
        base + bnd.len() < usize::MAX,
    ensures
        final(t).points@ == old(t).points@,
        final(t).constraints@ == old(t).constraints@,
        final(t).num_input == old(t).num_input,
        final(t).triangles@.len() == old(t).triangles@.len(),
        forall|u: int| 0 <= u < base ==> #[trigger] final(t).triangles@[u] == old(t).triangles@[u],
        forall|k: int|
            0 <= k < bnd.len() ==> {
                &&& same_shape(#[trigger] final(t).triangles@[base + k], old(t).triangles@[base + k])
                &&& final(t).triangles@[base + k].n[2] == old(t).triangles@[base + k].n[2]
                &&& final(t).triangles@[base + k].n[0] == fan_index(base as int, fan_next(bnd@, k))
                &&& final(t).triangles@[base + k].n[1] == fan_index(base as int, fan_prev(bnd@, k))
            },
{
    let ghost old_tris = t.triangles@;
    let m = bnd.len();
    let mut k: usize = 0;
    while k < m
        invariant
            k <= m,
            m == bnd.len(),
            old_tris == old(t).triangles@,
            old_tris.len() == base + m,
            base + m < usize::MAX,
            t.points@ == old(t).points@,
            t.constraints@ == old(t).constraints@,
            t.num_input == old(t).num_input,
            t.triangles@.len() == old_tris.len(),
            forall|u: int| 0 <= u < base ==> #[trigger] t.triangles@[u] == old_tris[u],
            forall|j: int| k <= j < m ==> #[trigger] t.triangles@[base + j] == old_tris[base + j],
            forall|j: int|
                0 <= j < k ==> {
                    &&& same_shape(#[trigger] t.triangles@[base + j], old_tris[base + j])
                    &&& t.triangles@[base + j].n[2] == old_tris[base + j].n[2]
                    &&& t.triangles@[base + j].n[0] == fan_index(base as int, fan_next(bnd@, j))
                    &&& t.triangles@[base + j].n[1] == fan_index(base as int, fan_prev(bnd@, j))
                },
        decreases m - k,
    {
        let e = bnd[k];
        let next = match find_last_from(bnd, e.1, None, k + 1, m) {
            Some(j) => Some(j),
            None => find_last_from(bnd, e.1, Some(e.0), 0, k),
        };
        let prev_link = match find_last_to(bnd, e.0, Some(e.1), k + 1, m) {
            Some(j) => Some(j),
            None => find_last_to(bnd, e.0, None, 0, k),
        };
        proof {
            lemma_last_from(bnd@, e.1, None, k + 1, m as int);
            lemma_last_from(bnd@, e.1, Some(e.0), 0, k as int);
            lemma_last_to(bnd@, e.0, Some(e.1), k + 1, m as int);
            lemma_last_to(bnd@, e.0, None, 0, k as int);
        }
        let ghost before = t.triangles@;
        let mut tri = t.triangles[base + k];
        tri.n[0] = match next {
            Some(j) => base + j,
            None => NO_NEIGHBOUR,
        };
        tri.n[1] = match prev_link {
            Some(j) => base + j,
            None => NO_NEIGHBOUR,
        };
        t.triangles.set(base + k, tri);
        proof {
            assert forall|j: int| 0 <= j < k + 1 implies {
                &&& same_shape(#[trigger] t.triangles@[base + j], old_tris[base + j])
                &&& t.triangles@[base + j].n[2] == old_tris[base + j].n[2]
                &&& t.triangles@[base + j].n[0] == fan_index(base as int, fan_next(bnd@, j))
                &&& t.triangles@[base + j].n[1] == fan_index(base as int, fan_prev(bnd@, j))
            } by {
                if j < k {
                    assert(t.triangles@[base + j] == before[base + j]);
                } else {
                    assert(before[base + j] == old_tris[base + j]);
                }
            }
            assert forall|j: int| k + 1 <= j < m implies #[trigger] t.triangles@[base + j] == old_tris[base + j] by {
                assert(t.triangles@[base + j] == before[base + j]);
            }
        }
        k += 1;
    }
}

/// Replace the cavity formed by triangles `bad` with a fan around vertex `p`.
///
/// The cavity boundary is every edge of a cavity triangle not shared with
/// another cavity triangle, oriented with the cavity on its left, collected in
/// cavity order. The cavity triangles are tombstoned; for each boundary edge
/// `(a, b)` in turn a triangle `(a, b, p)` is appended, linked across `(a, b)`
/// to the triangle outside, which is linked back across its edge joining `a`
/// and `b`. Finally the new triangles are stitched to each other where one's
/// `b` is another's `a`.
#[verifier::spinoff_prover]
pub fn fill_cavity<P>(t: &mut Triangulation<P>, p: VertIdx, bad: &Vec<TriIdx>)
    requires
        forall|k: int| 0 <= k < bad.len() ==> #[trigger] bad@[k] < old(t).triangles.len(),
        forall|k: int, i: int|
            0 <= k < bad.len() && 0 <= i < 3 ==> #[trigger] old(t).triangles@[bad@[k] as int].n[i]
                == NO_NEIGHBOUR || old(t).triangles@[bad@[k] as int].n[i] < old(t).triangles.len(),
        old(t).triangles.len() + 3 * bad.len() < usize::MAX,
    ensures
        final(t).points@ == old(t).points@,
        final(t).constraints@ == old(t).constraints@,
        final(t).num_input == old(t).num_input,
        final(t).triangles@.len() == old(t).triangles@.len() + cavity_boundary(
            old(t).triangles@,
            bad@,
        ).len(),
        forall|u: int|
            0 <= u < old(t).triangles@.len() ==> {
                &&& #[trigger] final(t).triangles@[u].v == old(t).triangles@[u].v
                &&& final(t).triangles@[u].constrained == old(t).triangles@[u].constrained
                &&& final(t).triangles@[u].deleted == (old(t).triangles@[u].deleted
                    || bad@.contains(u as TriIdx))
            },
        forall|u: int, i: int|
            0 <= u < old(t).triangles@.len() && 0 <= i < 3 ==> #[trigger] final(t).triangles@[u].n[i]
                == facing_link(
                cavity_boundary(old(t).triangles@, bad@),
                old(t).triangles@[u],
                u,
                i,
                cavity_boundary(old(t).triangles@, bad@).len() as int,
                old(t).triangles@.len() as int,
            ),
        forall|k: int|
            0 <= k < cavity_boundary(old(t).triangles@, bad@).len() ==> {
                &&& is_fan_triangle(
                    #[trigger] final(t).triangles@[old(t).triangles@.len() + k],
                    cavity_boundary(old(t).triangles@, bad@),
                    k,
                    p,
                )
                &&& final(t).triangles@[old(t).triangles@.len() + k].n[0] == fan_index(
                    old(t).triangles@.len() as int,
                    fan_next(cavity_boundary(old(t).triangles@, bad@), k),
                )
                &&& final(t).triangles@[old(t).triangles@.len() + k].n[1] == fan_index(
                    old(t).triangles@.len() as int,
                    fan_prev(cavity_boundary(old(t).triangles@, bad@), k),
                )
            },
{
    let ghost tris0 = t.triangles@;
    let base = t.triangles.len();
    let bnd = collect_boundary(&t.triangles, bad);
    proof {
        lemma_boundary_bounds(tris0, bad@, bad@.len() as int);
    }
    tombstone_cavity(t, bad);
    let ghost tris1 = t.triangles@;
    push_fan(t, p, &bnd);
    let ghost tris2 = t.triangles@;
    stitch_fan(t, base, &bnd);
    proof {
        assert forall|u: int| 0 <= u < base implies {
            &&& #[trigger] t.triangles@[u].v == tris0[u].v
            &&& t.triangles@[u].constrained == tris0[u].constrained
            &&& t.triangles@[u].deleted == (tris0[u].deleted || bad@.contains(u as TriIdx))
        } by {
            assert(tombstoned_copy(tris1[u], tris0[u], bad@.contains(u as TriIdx)));
            assert(same_shape(tris2[u], tris1[u]));
        }
        assert forall|u: int, i: int| 0 <= u < base && 0 <= i < 3 implies #[trigger] t.triangles@[u].n[i]
            == facing_link(bnd@, tris0[u], u, i, bnd@.len() as int, base as int) by {
            assert(tombstoned_copy(tris1[u], tris0[u], bad@.contains(u as TriIdx)));
            assert(t.triangles@[u] == tris2[u]);
            assert(tris2[u].n[i] == facing_link(bnd@, tris1[u], u, i, bnd@.len() as int, base as int));
            lemma_facing_link_ignores_links(bnd@, tris1[u], tris0[u], u, i, bnd@.len() as int, base as int);
        }
        assert forall|k: int| 0 <= k < bnd@.len() implies {
            &&& is_fan_triangle(#[trigger] t.triangles@[base + k], bnd@, k, p)
            &&& t.triangles@[base + k].n[0] == fan_index(base as int, fan_next(bnd@, k))
            &&& t.triangles@[base + k].n[1] == fan_index(base as int, fan_prev(bnd@, k))
        } by {
            assert(is_fan_triangle(tris2[base + k], bnd@, k, p));
        }
    }
}

/// The facing link reads the old link only where no fan entry faces the
/// edge, and the vertices otherwise.
proof fn lemma_facing_link_ignores_links(
    bnd: Seq<CavityEdge>,
    a: Triangle,
    b: Triangle,
    u: int,
    i: int,
    hi: int,
    base: int,
)
    requires
        a.v == b.v,
        a.n == b.n,
    ensures
        facing_link(bnd, a, u, i, hi, base) == facing_link(bnd, b, u, i, hi, base),
    decreases hi,
{
    if hi > 0 {
        lemma_facing_link_ignores_links(bnd, a, b, u, i, hi - 1, base);
    }
}

} // verus!
