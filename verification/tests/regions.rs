use crowdflow::navmesh::{corridor_portals, incident_portals, portal_edges, PortalEdge};
use crowdflow::region::{classify, RegionWarning};
use crowdflow::triangulation::{Triangle, Triangulation, NO_NEIGHBOUR};

/// A 20 x 12 hall as two triangles, outline walled when `walls` is set.
fn hall(walls: bool) -> Triangulation<(i64, i64)> {
    let mut t = Triangulation::new(vec![(0, 0), (20, 0), (20, 12), (0, 12)], 4);
    t.triangles.push(Triangle::new(0, 1, 2));
    t.triangles.push(Triangle::new(0, 2, 3));
    if walls {
        t.add_constraint(0, 1);
        t.add_constraint(1, 2);
        t.add_constraint(2, 3);
        t.add_constraint(3, 0);
    }
    t.rebuild_adjacency();
    t
}

/// A chain of triangles, each linked across slot 0 to the next and across
/// slot 1 to the previous; `walls[i]` walls the link between `i` and `i + 1`.
/// Only the first triangle touches the hull, across slot 2, walled when
/// `hull_wall` is set; every other unused slot links the triangle to itself.
fn chain(n: usize, walls: &[bool], hull_wall: bool) -> Triangulation<(i64, i64)> {
    let mut t = Triangulation::new(vec![], 0);
    for i in 0..n {
        let mut tri = Triangle::new(3 * i, 3 * i + 1, 3 * i + 2);
        tri.n = [
            if i + 1 < n { i + 1 } else { i },
            if i > 0 { i - 1 } else { i },
            if i == 0 { NO_NEIGHBOUR } else { i },
        ];
        tri.constrained = [
            i + 1 < n && walls[i],
            i > 0 && walls[i - 1],
            i == 0 && hull_wall,
        ];
        t.triangles.push(tri);
    }
    t
}

#[test]
fn a_walled_two_triangle_hall_is_entirely_walkable() {
    let t = hall(true);
    let r = classify(&t);
    assert_eq!(r.depth, vec![1, 1]);
    assert_eq!(r.walkable_count(), 2);
    assert!(r.warnings.is_empty());
    assert!(r.is_walkable(0) && r.is_walkable(1));
    assert!(!r.is_walkable(2));
}

#[test]
fn an_unwalled_mesh_has_no_floor() {
    let t = hall(false);
    let r = classify(&t);
    assert_eq!(r.depth, vec![0, 0]);
    assert_eq!(r.walkable_count(), 0);
    assert_eq!(r.warnings, vec![RegionWarning::NoWalkableArea]);
}

#[test]
fn crossing_walls_alternates_floor_and_solid() {
    // hull wall, then walls between 0|1 and 2|3: depths 1, 2, 2, 3.
    let t = chain(4, &[true, false, true], true);
    let r = classify(&t);
    assert_eq!(r.depth, vec![1, 2, 2, 3]);
    assert_eq!(r.walkable, vec![true, false, false, true]);
    assert!(r.warnings.is_empty());
}

#[test]
fn a_mesh_with_no_hull_edge_has_nothing_to_seed_from() {
    let mut t: Triangulation<(i64, i64)> = Triangulation::new(vec![], 0);
    let mut a = Triangle::new(0, 1, 2);
    let mut b = Triangle::new(0, 2, 1);
    a.n = [1, 1, 1];
    b.n = [0, 0, 0];
    t.triangles = vec![a, b];
    let r = classify(&t);
    assert_eq!(r.depth, vec![u32::MAX, u32::MAX]);
    assert_eq!(
        r.warnings,
        vec![
            RegionWarning::NoBoundary,
            RegionWarning::Unreachable { triangle: 0 },
            RegionWarning::Unreachable { triangle: 1 },
            RegionWarning::NoWalkableArea,
        ]
    );
    assert_eq!(r.unreachable_count(), 2);
}

#[test]
fn a_wall_that_does_not_separate_anything_is_inconsistent() {
    // Triangle 1 is reached around the wall at no cost, so the wall between
    // 0 and 1 separates two triangles at the same depth.
    let mut t = chain(2, &[true], false);
    t.triangles[1].n[2] = NO_NEIGHBOUR;
    let r = classify(&t);
    assert_eq!(r.depth, vec![0, 0]);
    assert_eq!(
        r.warnings,
        vec![RegionWarning::InconsistentNesting { a: 0, b: 1 }, RegionWarning::NoWalkableArea]
    );
}

#[test]
fn deleted_triangles_are_never_floor() {
    let mut t = hall(true);
    t.triangles[1].deleted = true;
    let r = classify(&t);
    assert_eq!(r.walkable, vec![true, false]);
    assert_eq!(r.walkable_count(), 1);
}

#[test]
fn a_walled_hall_has_one_internal_portal() {
    let t = hall(true);
    let r = classify(&t);
    let p = portal_edges(&t, &r);
    assert_eq!(p, vec![PortalEdge { a: 2, b: 0, tris: (0, 1) }]);
    assert_eq!(incident_portals(&p, 2), vec![vec![0], vec![0]]);
}

#[test]
fn walled_edges_are_never_portals() {
    let mut t = hall(true);
    t.add_constraint(0, 2);
    t.rebuild_adjacency();
    let r = classify(&t);
    assert!(portal_edges(&t, &r).is_empty());
    let t = hall(false);
    let r = classify(&t);
    // Nothing is walkable, so nothing is a portal either.
    assert!(portal_edges(&t, &r).is_empty());
}

#[test]
fn a_corridor_lists_its_portals_left_then_right() {
    let t = hall(true);
    assert_eq!(corridor_portals(&t, &vec![0, 1]), vec![(0, 2)]);
    assert_eq!(corridor_portals(&t, &vec![1, 0]), vec![(2, 0)]);
    assert_eq!(corridor_portals(&t, &vec![1, 0, 1]), vec![(2, 0), (0, 2)]);
    assert!(corridor_portals(&t, &vec![0]).is_empty());
    assert!(corridor_portals(&t, &vec![]).is_empty());
}

#[test]
fn an_island_cut_off_from_the_hall_is_counted_once() {
    let mut t = hall(true);
    let mut island = Triangle::new(0, 1, 3);
    island.n = [2, 2, 2];
    t.triangles.push(island);
    let r = classify(&t);
    assert_eq!(r.depth, vec![1, 1, u32::MAX]);
    assert_eq!(r.warnings, vec![RegionWarning::Unreachable { triangle: 2 }]);
    assert_eq!(r.unreachable_count(), 1);
    assert_eq!(r.walkable_count(), 2);
}
