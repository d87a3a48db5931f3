use crowdflow::constraint::{CdtError, ConstraintError};
use crowdflow::polygon::Defect;
use crowdflow::region::RegionWarning;
use crowdflow::triangulation::{MeshDefect, TriangulationError, NO_NEIGHBOUR};
use crowdflow::validate::{Issue, Report, Severity};

#[test]
fn triangulation_errors_name_their_points() {
    assert_eq!(TriangulationError::TooFewPoints(2).to_string(), "need at least 3 points, got 2");
    assert_eq!(TriangulationError::AllCollinear.to_string(), "all input points are collinear");
    assert_eq!(TriangulationError::NonFinite(14).to_string(), "point 14 is not finite");
    assert_eq!(
        TriangulationError::DuplicatePoint { a: 3, b: 120 }.to_string(),
        "points 3 and 120 coincide; deduplicate before triangulating"
    );
}

#[test]
fn constraint_errors_read_as_the_error_they_wrap() {
    assert_eq!(
        ConstraintError::UnknownVertex(9).to_string(),
        "constraint references unknown vertex 9"
    );
    assert_eq!(
        ConstraintError::Degenerate(4).to_string(),
        "constraint has identical endpoints (4, 4)"
    );
    let walk = ConstraintError::WalkFailed { from: 0, to: 31 };
    assert_eq!(walk.to_string(), "constraint walk from 0 to 31 did not terminate");
    assert_eq!(CdtError::Constraint(walk.clone()).to_string(), walk.to_string());
    assert_eq!(
        CdtError::Triangulation(TriangulationError::AllCollinear).to_string(),
        "all input points are collinear"
    );
}

#[test]
fn region_warnings_read_for_the_editor() {
    assert_eq!(RegionWarning::NoBoundary.to_string(), "mesh has no boundary edge to seed from");
    assert_eq!(
        RegionWarning::Unreachable { triangle: 17 }.to_string(),
        "triangle 17 is unreachable from the mesh boundary"
    );
    assert_eq!(
        RegionWarning::NoWalkableArea.to_string(),
        "no walkable area found; the floor outline is probably not closed"
    );
    assert_eq!(
        RegionWarning::InconsistentNesting { a: 2, b: 5 }.to_string(),
        "triangles 2 and 5 disagree about inside/outside; a wall run is not closed"
    );
}

#[test]
fn polygon_defects_read_for_the_editor() {
    assert_eq!(
        Defect::TooFewVertices { count: 2 }.to_string(),
        "polygon has 2 vertices, needs at least 3"
    );
    assert_eq!(Defect::NonFinite { index: 0 }.to_string(), "vertex 0 is not finite");
    assert_eq!(
        Defect::RepeatedVertex { index: 6 }.to_string(),
        "vertex 6 repeats the previous vertex"
    );
    assert_eq!(
        Defect::SelfIntersection { edge_a: 1, edge_b: 3 }.to_string(),
        "edges 1 and 3 intersect"
    );
    assert_eq!(Defect::ZeroArea.to_string(), "polygon encloses zero area");
}

#[test]
fn mesh_defects_name_triangles_and_links() {
    assert_eq!(
        MeshDefect::RepeatedVertex { triangle: 4, v0: 1, v1: 1, v2: 7 }.to_string(),
        "triangle 4 has a repeated vertex: [1, 1, 7]"
    );
    assert_eq!(
        MeshDefect::VertexOutOfRange { triangle: 0, vertex: 12 }.to_string(),
        "triangle 0 references vertex 12 out of range"
    );
    assert_eq!(MeshDefect::WoundClockwise { triangle: 3 }.to_string(), "triangle 3 is wound clockwise");
    assert_eq!(
        MeshDefect::Degenerate { triangle: 8 }.to_string(),
        "triangle 8 is degenerate (collinear)"
    );
    assert_eq!(
        MeshDefect::DeadNeighbour { triangle: 2, edge: 1, neighbour: 40 }.to_string(),
        "triangle 2 neighbour 1 points at 40, which is not live"
    );
    assert_eq!(
        MeshDefect::UnsharedEdge { triangle: 2, edge: 0, neighbour: 5, a: 10, b: 11 }.to_string(),
        "triangle 2 neighbour 0 = 5 does not share edge (10,11)"
    );
    assert_eq!(
        MeshDefect::AsymmetricLink { triangle: 1, edge: 2, neighbour: 6, back_edge: 0, back: NO_NEIGHBOUR }
            .to_string(),
        format!("asymmetric link: 1.n[2] = 6 but 6.n[0] = {}", usize::MAX)
    );
}

#[test]
fn a_finding_reads_on_one_line() {
    let addressed = Issue::error("opening.orphan_wall", "op_1".to_string(), "references unknown wall 'w_9'".to_string());
    assert_eq!(
        addressed.to_string(),
        "[Error] opening.orphan_wall (op_1): references unknown wall 'w_9'"
    );
    let general = Issue::new(Severity::Info, "link.no_flow_rate", None, "stair has no flowRatePpmm".to_string());
    assert_eq!(general.to_string(), "[Info] link.no_flow_rate: stair has no flowRatePpmm");
    let warned = Issue::warn("zone.unjustified_olf", "zn_1".to_string(), "an auditor will ask".to_string());
    assert_eq!(warned.to_string(), "[Warning] zone.unjustified_olf (zn_1): an auditor will ask");
}

#[test]
fn a_report_reads_as_its_lines_or_says_it_is_clean() {
    let mut r = Report::new();
    assert_eq!(r.to_string(), "no issues");
    r.push(Issue::error("venue.no_floors", "v".to_string(), "venue has no floors".to_string()));
    r.push(Issue::new(Severity::Warning, "venue.scale_unconfirmed", None, "unconfirmed".to_string()));
    assert_eq!(
        r.to_string(),
        "[Error] venue.no_floors (v): venue has no floors\n[Warning] venue.scale_unconfirmed: unconfirmed\n"
    );
}
