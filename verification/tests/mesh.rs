use crowdflow::predicates::Orientation;
use crowdflow::triangulation::{edge_key, MeshDefect, Triangle, Triangulation, NO_NEIGHBOUR};

/// The unit square split along its 0–2 diagonal: (0, 1, 2) and (0, 2, 3).
fn square() -> Triangulation<(i64, i64)> {
    let mut t = Triangulation::new(vec![(0, 0), (1, 0), (1, 1), (0, 1)], 4);
    t.triangles.push(Triangle::new(0, 1, 2));
    t.triangles.push(Triangle::new(0, 2, 3));
    t.rebuild_adjacency();
    t
}

fn ccw(n: usize) -> Vec<Orientation> {
    vec![Orientation::CounterClockwise; n]
}

#[test]
fn a_new_triangle_has_no_links() {
    let t = Triangle::new(4, 5, 6);
    assert_eq!(t.v, [4, 5, 6]);
    assert_eq!(t.n, [NO_NEIGHBOUR; 3]);
    assert_eq!(t.constrained, [false; 3]);
    assert!(!t.deleted);
}

#[test]
fn an_edge_is_opposite_its_vertex() {
    let t = Triangle::new(4, 5, 6);
    assert_eq!(t.edge(0), (5, 6));
    assert_eq!(t.edge(1), (6, 4));
    assert_eq!(t.edge(2), (4, 5));
}

#[test]
fn vertex_lookup() {
    let t = Triangle::new(4, 5, 6);
    assert_eq!(t.index_of(5), Some(1));
    assert_eq!(t.index_of(7), None);
    assert!(t.contains_vertex(6));
    assert!(!t.contains_vertex(0));
}

#[test]
fn edge_keys_ignore_direction() {
    assert_eq!(edge_key(3, 1), (1, 3));
    assert_eq!(edge_key(1, 3), (1, 3));
    assert_eq!(edge_key(2, 2), (2, 2));
}

#[test]
fn rebuilding_links_the_shared_diagonal() {
    let t = square();
    assert_eq!(t.triangles[0].n, [NO_NEIGHBOUR, 1, NO_NEIGHBOUR]);
    assert_eq!(t.triangles[1].n, [NO_NEIGHBOUR, NO_NEIGHBOUR, 0]);
    assert!(t.check_invariants(&ccw(2)).is_empty());
}

#[test]
fn rebuilding_marks_constraint_edges_on_both_sides() {
    let mut t = square();
    t.add_constraint(2, 0);
    t.rebuild_adjacency();
    assert!(t.is_constrained(0, 1));
    assert!(t.is_constrained(1, 2));
    assert!(!t.is_constrained(0, 0));
    // The link survives: a wall is still an edge of the mesh.
    assert_eq!(t.triangles[0].n[1], 1);
}

#[test]
fn constraints_are_a_set_of_normalised_pairs() {
    let mut t = square();
    t.add_constraint(3, 0);
    t.add_constraint(0, 3);
    assert_eq!(t.constraints, vec![(0, 3)]);
    assert!(t.has_constraint((0, 3)));
    t.remove_constraint(3, 0);
    assert!(!t.has_constraint((0, 3)));
    assert!(t.constraints.is_empty());
}

#[test]
fn live_skips_tombstones() {
    let mut t = square();
    t.triangles[0].deleted = true;
    assert_eq!(t.live(), vec![1]);
    assert_eq!(t.live_count(), 1);
    assert_eq!(t.vertex(2), (1, 1));
}

#[test]
fn removing_the_helper_vertices_drops_their_triangles_and_links() {
    // Vertex 3 is a helper (num_input = 3).
    let mut t = Triangulation::new(vec![(0, 0), (1, 0), (1, 1), (0, 1)], 3);
    t.triangles.push(Triangle::new(0, 1, 2));
    t.triangles.push(Triangle::new(0, 2, 3));
    t.rebuild_adjacency();
    t.remove_super_triangle();
    assert!(!t.triangles[0].deleted);
    assert!(t.triangles[1].deleted);
    assert_eq!(t.triangles[0].n[1], NO_NEIGHBOUR);
}

#[test]
fn after_compaction_only_input_vertices_remain() {
    // Vertices 4, 5 and 6 are helpers around the four input points.
    let mut t = Triangulation::new(
        vec![(0, 0), (4, 0), (4, 4), (0, 4), (-9, -9), (20, -9), (0, 20)],
        4,
    );
    t.triangles.push(Triangle::new(0, 1, 2));
    t.triangles.push(Triangle::new(0, 2, 3));
    t.triangles.push(Triangle::new(4, 1, 0));
    t.triangles.push(Triangle::new(5, 2, 1));
    t.triangles.push(Triangle::new(3, 2, 6));
    t.rebuild_adjacency();
    t.remove_super_triangle();
    t.compact();
    assert_eq!(t.triangles.len(), 2);
    assert_eq!(t.points.len(), 4);
    for tri in &t.triangles {
        assert!(tri.v.iter().all(|v| *v < t.points.len()));
    }
    assert_eq!(t.triangles[0].n, [NO_NEIGHBOUR, 1, NO_NEIGHBOUR]);
}

#[test]
fn compaction_renumbers_links() {
    let mut t = Triangulation::new(vec![(0, 0), (1, 0), (1, 1), (0, 1), (9, 9)], 4);
    let mut a = Triangle::new(0, 1, 2);
    let mut gone = Triangle::new(0, 2, 3);
    let mut b = Triangle::new(0, 2, 3);
    a.n = [2, 1, NO_NEIGHBOUR];
    gone.deleted = true;
    b.n = [0, NO_NEIGHBOUR, NO_NEIGHBOUR];
    t.triangles = vec![a, gone, b];
    t.compact();
    assert_eq!(t.triangles.len(), 2);
    assert_eq!(t.triangles[0].n, [1, NO_NEIGHBOUR, NO_NEIGHBOUR]);
    assert_eq!(t.triangles[1].n, [0, NO_NEIGHBOUR, NO_NEIGHBOUR]);
    assert_eq!(t.triangles[1].v, [0, 2, 3]);
    assert_eq!(t.points.len(), 4);
}

#[test]
fn a_clockwise_triangle_is_reported() {
    let t = square();
    let w = vec![Orientation::CounterClockwise, Orientation::Clockwise];
    assert_eq!(t.check_invariants(&w), vec![MeshDefect::WoundClockwise { triangle: 1 }]);
    let w = vec![Orientation::Collinear, Orientation::CounterClockwise];
    assert_eq!(t.check_invariants(&w), vec![MeshDefect::Degenerate { triangle: 0 }]);
}

#[test]
fn broken_links_are_reported() {
    let mut t = square();
    t.triangles[1].n[2] = NO_NEIGHBOUR;
    assert_eq!(
        t.check_invariants(&ccw(2)),
        vec![MeshDefect::AsymmetricLink { triangle: 0, edge: 1, neighbour: 1, back_edge: 2, back: NO_NEIGHBOUR }]
    );
    let mut t = square();
    t.triangles[1].deleted = true;
    assert_eq!(
        t.check_invariants(&ccw(2)),
        vec![MeshDefect::DeadNeighbour { triangle: 0, edge: 1, neighbour: 1 }]
    );
    let mut t = square();
    t.triangles[0].n[0] = 1;
    assert_eq!(
        t.check_invariants(&ccw(2)),
        vec![MeshDefect::UnsharedEdge { triangle: 0, edge: 0, neighbour: 1, a: 1, b: 2 }]
    );
}

#[test]
fn bad_vertices_are_reported() {
    let mut t = Triangulation::new(vec![(0, 0), (1, 0), (1, 1)], 3);
    t.triangles.push(Triangle::new(0, 0, 1));
    t.triangles.push(Triangle::new(0, 1, 7));
    assert_eq!(
        t.check_invariants(&ccw(2)),
        vec![
            MeshDefect::RepeatedVertex { triangle: 0, v0: 0, v1: 0, v2: 1 },
            MeshDefect::VertexOutOfRange { triangle: 1, vertex: 7 },
        ]
    );
}

#[test]
fn the_check_stops_after_thirty_two_findings() {
    let mut t: Triangulation<(i64, i64)> = Triangulation::new(vec![], 0);
    for _ in 0..40 {
        t.triangles.push(Triangle::new(0, 1, 2));
    }
    // Each triangle has three out-of-range vertices; the eleventh pushes the
    // count past 32 and the check ends there.
    assert_eq!(t.check_invariants(&ccw(40)).len(), 33);
}

#[test]
fn rebuilding_twice_changes_nothing() {
    let mut t = square();
    t.add_constraint(0, 1);
    t.rebuild_adjacency();
    let once = t.triangles.clone();
    t.rebuild_adjacency();
    assert_eq!(t.triangles, once);
}
