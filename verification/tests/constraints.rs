use crowdflow::constraint::{
    carve, chain_edges, check_constraint_edges, edge_index_between, find_edge, ring_edges, unseal, walk_crossed, CdtError,
    ConstraintError, Walk,
};
use crowdflow::polygon::is_convex_turns;
use crowdflow::predicates::Orientation;
use crowdflow::predicates::Orientation::{Clockwise, Collinear, CounterClockwise};
use crowdflow::triangulation::{Triangle, Triangulation, TriangulationError, NO_NEIGHBOUR};

#[test]
fn constraint_lists_naming_bad_vertices_are_rejected() {
    assert_eq!(check_constraint_edges(4, &vec![(0, 1), (1, 2)]), Ok(()));
    assert_eq!(check_constraint_edges(4, &vec![(0, 1), (1, 9)]), Err(ConstraintError::UnknownVertex(9)));
    assert_eq!(check_constraint_edges(4, &vec![(7, 1)]), Err(ConstraintError::UnknownVertex(7)));
    assert_eq!(check_constraint_edges(4, &vec![(2, 2), (0, 9)]), Err(ConstraintError::Degenerate(2)));
    assert_eq!(check_constraint_edges(0, &vec![]), Ok(()));
}

#[test]
fn errors_wrap_into_the_build_error() {
    let e: CdtError = ConstraintError::Degenerate(3).into();
    assert_eq!(e, CdtError::Constraint(ConstraintError::Degenerate(3)));
    let e: CdtError = TriangulationError::AllCollinear.into();
    assert_eq!(e, CdtError::Triangulation(TriangulationError::AllCollinear));
}

#[test]
fn edges_are_found_in_either_direction() {
    let t = Triangle::new(4, 5, 6);
    assert_eq!(edge_index_between(&t, 6, 5), Some(0));
    assert_eq!(edge_index_between(&t, 4, 6), Some(1));
    assert_eq!(edge_index_between(&t, 4, 7), None);

    let mut m = Triangulation::new(vec![(0, 0), (1, 0), (1, 1), (0, 1)], 4);
    m.triangles.push(Triangle::new(0, 1, 2));
    m.triangles.push(Triangle::new(0, 2, 3));
    assert_eq!(find_edge(&m, 0, 2), Some((0, 1)));
    assert_eq!(find_edge(&m, 3, 2), Some((1, 0)));
    assert_eq!(find_edge(&m, 1, 3), None);
    m.triangles[0].deleted = true;
    assert_eq!(find_edge(&m, 2, 0), Some((1, 2)));
}

#[test]
fn convexity_from_turns() {
    assert!(is_convex_turns(&vec![CounterClockwise, CounterClockwise, CounterClockwise, CounterClockwise]));
    assert!(is_convex_turns(&vec![Clockwise, Collinear, Clockwise, Clockwise]));
    assert!(!is_convex_turns(&vec![CounterClockwise, Clockwise, CounterClockwise, CounterClockwise]));
    assert!(!is_convex_turns(&vec![Collinear, Collinear, Collinear]));
    assert!(!is_convex_turns(&vec![CounterClockwise, CounterClockwise]));
}

#[test]
fn convexity_does_not_depend_on_winding() {
    let rings = vec![
        vec![CounterClockwise, CounterClockwise, CounterClockwise, CounterClockwise],
        vec![Clockwise, Collinear, Clockwise, Clockwise],
        vec![CounterClockwise, Clockwise, CounterClockwise, CounterClockwise],
        vec![Collinear, Collinear, Collinear],
    ];
    for turns in rings {
        let flipped: Vec<Orientation> = turns.iter().map(|o| o.reversed()).collect();
        assert_eq!(is_convex_turns(&turns), is_convex_turns(&flipped));
    }
}

/// The unit square split along 0–2, with adjacency built.
fn square() -> Triangulation<(i64, i64)> {
    let mut m = Triangulation::new(vec![(0, 0), (1, 0), (1, 1), (0, 1)], 4);
    m.triangles.push(Triangle::new(0, 1, 2));
    m.triangles.push(Triangle::new(0, 2, 3));
    m.rebuild_adjacency();
    m
}

/// Sides of the square's corners relative to the line from 1 to 3.
fn sides_1_to_3() -> Vec<Orientation> {
    vec![CounterClockwise, Collinear, Clockwise, Collinear]
}

#[test]
fn the_walk_crosses_the_diagonal() {
    let m = square();
    let w = walk_crossed(&m, 1, 3, &sides_1_to_3(), &vec![false; 4]);
    assert_eq!(w, Ok(Walk::Crossed { triangles: vec![0, 1], left: vec![0], right: vec![2] }));
}

#[test]
fn a_vertex_inside_the_constraint_is_hit() {
    let m = square();
    let w = walk_crossed(&m, 1, 3, &sides_1_to_3(), &vec![false, false, true, false]);
    assert_eq!(w, Ok(Walk::HitVertex(2)));
}

#[test]
fn a_walk_off_the_hull_fails_instead_of_guessing() {
    let mut m = square();
    m.triangles[0].n[1] = NO_NEIGHBOUR;
    let w = walk_crossed(&m, 1, 3, &sides_1_to_3(), &vec![false; 4]);
    assert_eq!(w, Err(ConstraintError::WalkFailed { from: 1, to: 3 }));
    // No triangle at vertex 9: nowhere to start.
    let w = walk_crossed(&m, 9, 3, &sides_1_to_3(), &vec![false; 4]);
    assert_eq!(w, Err(ConstraintError::WalkFailed { from: 9, to: 3 }));
}

#[test]
fn carving_a_diagonal_puts_it_in_the_mesh() {
    let mut m = square();
    m.add_constraint(1, 3);
    carve(&mut m, &vec![0, 1], &vec![[1, 3, 0], [1, 2, 3]]);
    assert_eq!(m.triangles.len(), 4);
    assert!(m.triangles[0].deleted && m.triangles[1].deleted);
    assert_eq!(m.triangles[2].n, [NO_NEIGHBOUR, NO_NEIGHBOUR, 3]);
    assert_eq!(m.triangles[3].n, [NO_NEIGHBOUR, 2, NO_NEIGHBOUR]);
    assert_eq!(m.triangles[2].constrained, [false, false, true]);
    assert_eq!(m.triangles[3].constrained, [false, true, false]);
    assert_eq!(find_edge(&m, 3, 1), Some((2, 2)));
    assert_eq!(find_edge(&m, 0, 2), None);
}

#[test]
fn the_crossed_triangles_are_neighbours() {
    let m = square();
    match walk_crossed(&m, 1, 3, &sides_1_to_3(), &vec![false; 4]) {
        Ok(Walk::Crossed { triangles, .. }) => {
            for w in triangles.windows(2) {
                assert!(m.triangles[w[0]].n.contains(&w[1]));
            }
            assert!(m.triangles[triangles[0]].contains_vertex(1));
            assert!(m.triangles[*triangles.last().unwrap()].contains_vertex(3));
        }
        other => panic!("unexpected walk: {other:?}"),
    }
}

#[test]
fn wall_runs_and_rings_become_edges() {
    assert_eq!(chain_edges(&vec![4, 5, 5, 6]), vec![(4, 5), (5, 6)]);
    assert!(chain_edges(&vec![4]).is_empty());
    assert!(chain_edges(&vec![]).is_empty());
    assert_eq!(ring_edges(&vec![0, 1, 2]), vec![(0, 1), (1, 2), (2, 0)]);
    assert_eq!(ring_edges(&vec![0, 1, 1, 2]), vec![(0, 1), (1, 2), (2, 0)]);
    assert!(ring_edges(&vec![3]).is_empty());
}

#[test]
fn unsealing_a_doorway_keeps_the_walls() {
    let mut m = square();
    m.add_constraint(0, 1);
    m.add_constraint(2, 0);
    m.rebuild_adjacency();
    assert!(m.is_constrained(0, 1));
    unseal(&mut m, &vec![(0, 2)]);
    assert_eq!(m.constraints, vec![(0, 1)]);
    assert!(!m.is_constrained(0, 1));
    assert!(m.is_constrained(0, 2));
    assert_eq!(m.triangles[0].n[1], 1);
}
