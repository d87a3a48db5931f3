use crowdflow::cavity::fill_cavity;
use crowdflow::predicates::Orientation;
use crowdflow::triangulation::{Triangle, Triangulation, NO_NEIGHBOUR};

fn ccw(n: usize) -> Vec<Orientation> {
    vec![Orientation::CounterClockwise; n]
}

#[test]
fn a_point_inside_one_triangle_makes_a_closed_fan_of_three() {
    let mut t = Triangulation::new(vec![(0, 0), (4, 0), (0, 4), (1, 1)], 3);
    t.triangles.push(Triangle::new(0, 1, 2));
    fill_cavity(&mut t, 3, &vec![0]);

    assert_eq!(t.triangles.len(), 4);
    assert!(t.triangles[0].deleted);
    assert_eq!(t.triangles[1].v, [1, 2, 3]);
    assert_eq!(t.triangles[2].v, [2, 0, 3]);
    assert_eq!(t.triangles[3].v, [0, 1, 3]);
    // Around the fan: each triangle's edge (b, p) meets the next one's (p, a).
    assert_eq!(t.triangles[1].n, [2, 3, NO_NEIGHBOUR]);
    assert_eq!(t.triangles[2].n, [3, 1, NO_NEIGHBOUR]);
    assert_eq!(t.triangles[3].n, [1, 2, NO_NEIGHBOUR]);
    assert!(t.check_invariants(&ccw(4)).is_empty());
}

#[test]
fn the_triangle_outside_the_cavity_is_pointed_back_at_the_fan() {
    let mut t = Triangulation::new(vec![(0, 0), (4, 0), (4, 4), (0, 4), (3, 1)], 5);
    t.triangles.push(Triangle::new(0, 1, 2));
    t.triangles.push(Triangle::new(0, 2, 3));
    t.rebuild_adjacency();
    fill_cavity(&mut t, 4, &vec![0]);

    assert_eq!(t.triangles.len(), 5);
    assert!(t.triangles[0].deleted);
    assert!(!t.triangles[1].deleted);
    // The boundary edge (2, 0) faces triangle 1; its fan triangle is 3.
    assert_eq!(t.triangles[3].v, [2, 0, 4]);
    assert_eq!(t.triangles[3].n[2], 1);
    assert_eq!(t.triangles[1].n[2], 3);
    assert!(t.check_invariants(&ccw(5)).is_empty());
}

#[test]
fn a_two_triangle_cavity_keeps_its_shared_edge_out_of_the_boundary() {
    let mut t = Triangulation::new(vec![(0, 0), (4, 0), (4, 4), (0, 4), (2, 2)], 5);
    t.triangles.push(Triangle::new(0, 1, 2));
    t.triangles.push(Triangle::new(0, 2, 3));
    t.rebuild_adjacency();
    fill_cavity(&mut t, 4, &vec![0, 1]);

    // Four boundary edges, four new triangles, all linked in a ring.
    assert_eq!(t.triangles.len(), 6);
    assert!(t.triangles[0].deleted && t.triangles[1].deleted);
    assert_eq!(t.live_count(), 4);
    assert!(t.check_invariants(&ccw(6)).is_empty());
    for k in 2..6 {
        assert_eq!(t.triangles[k].v[2], 4);
        assert_eq!(t.triangles[k].n[2], NO_NEIGHBOUR);
        assert_ne!(t.triangles[k].n[0], NO_NEIGHBOUR);
        assert_ne!(t.triangles[k].n[1], NO_NEIGHBOUR);
    }
}

#[test]
fn an_empty_cavity_changes_nothing() {
    let mut t = Triangulation::new(vec![(0, 0), (4, 0), (0, 4), (1, 1)], 3);
    t.triangles.push(Triangle::new(0, 1, 2));
    fill_cavity(&mut t, 3, &vec![]);
    assert_eq!(t.triangles.len(), 1);
    assert!(!t.triangles[0].deleted);
}
