use crowdflow::compliance::{subject_name, subject_unit, Subject};
use crowdflow::ids::{LinkId, OpeningId, WaypointId, ZoneId};
use crowdflow::scenario::{
    evacuation_without_alarm, event_target_known, goal_known, missing_goal, missing_target, orphan_goal_issue,
    AlarmScope, EgressPolicy, EventKind, Goal, SimMode, VenueIds,
};
use crowdflow::validate::{
    component_requirements, component_type_name, contains_id, link_end_issues, preplaced_issues,
    reference_issue, repeats_earlier, routing_issues, version_issue, Issue, ParamPresence, Report, Severity,
};
use crowdflow::text::decimal;
use crowdflow::venue::{default_length_unit, yes, ComponentType, Layer, LayerKind, LengthUnit, Units};

fn ids(v: &[&str]) -> Vec<String> {
    v.iter().map(|s| s.to_string()).collect()
}

fn venue_ids() -> VenueIds {
    VenueIds {
        openings: ids(&["op_door_w", "op_door_e"]),
        zones: ids(&["zn_hall"]),
        components: ids(&[]),
        waypoints: ids(&["wp_1"]),
        links: ids(&["ln_stair"]),
    }
}

#[test]
fn subjects_read_as_prose_with_units() {
    assert_eq!(subject_name(Subject::OccupantLoad), "occupancy");
    assert_eq!(subject_name(Subject::ExitCount), "the number of exits");
    assert_eq!(subject_name(Subject::NarrowestExit), "the narrowest exit");
    assert_eq!(subject_unit(Subject::ExitCount), "persons");
    assert_eq!(subject_unit(Subject::ExitWidth), "m");
    assert_eq!(subject_unit(Subject::EgressTime), "s");
    assert_eq!(subject_unit(Subject::PeakDensity), "persons/m²");
}

#[test]
fn the_default_layer_is_visible_structure() {
    let l = Layer::default_structure();
    assert_eq!(l.id.as_str(), "lay_struct");
    assert_eq!(l.name, "Structure");
    assert!(l.visible && !l.locked);
    assert_eq!(l.z, 0);
    assert_eq!(l.kind, LayerKind::Normal);
    assert_eq!(LayerKind::default(), LayerKind::Normal);
    assert!(yes());
}

#[test]
fn lengths_default_to_metres() {
    assert_eq!(default_length_unit(), LengthUnit::Meter);
    assert_eq!(Units::default().length, LengthUnit::Meter);
}

#[test]
fn goals_must_name_something_in_the_venue() {
    let v = venue_ids();
    assert!(goal_known(&Goal::Zone { id: ZoneId::new("zn_hall".into()) }, &v));
    assert!(!goal_known(&Goal::Zone { id: ZoneId::new("zn_missing".into()) }, &v));
    assert!(goal_known(&Goal::Opening { id: OpeningId::new("op_door_e".into()) }, &v));
    assert!(goal_known(&Goal::NearestExit, &v));
}

#[test]
fn events_must_target_something_in_the_venue() {
    let v = venue_ids();
    assert!(event_target_known(&EventKind::BlockLink { target: LinkId::new("ln_stair".into()) }, &v));
    assert!(!event_target_known(&EventKind::CloseOpening { target: OpeningId::new("op_x".into()) }, &v));
    let alarm = EventKind::Alarm { scope: AlarmScope::All, egress_policy: EgressPolicy::NearestAvailable };
    assert!(event_target_known(&alarm, &v));
}

#[test]
fn an_evacuation_without_an_alarm_is_flagged() {
    let close = EventKind::CloseOpening { target: OpeningId::new("op_door_w".into()) };
    let alarm = EventKind::Alarm { scope: AlarmScope::default(), egress_policy: EgressPolicy::default() };
    assert!(evacuation_without_alarm(SimMode::Evacuation, &vec![close.clone()]));
    assert!(evacuation_without_alarm(SimMode::Evacuation, &vec![]));
    assert!(!evacuation_without_alarm(SimMode::Evacuation, &vec![close.clone(), alarm]));
    assert!(!evacuation_without_alarm(SimMode::PeakLoad, &vec![close]));
    assert_eq!(SimMode::default(), SimMode::EventFlow);
}

#[test]
fn a_report_counts_by_severity() {
    let mut r = Report::new();
    assert!(r.is_ok() && !r.has_errors());
    r.push(Issue::warn("link.same_floor", "ln_1".into(), "both ends are on the same floor".into()));
    assert!(r.is_ok());
    r.push(Issue::error("floor.duplicate_id", "fl_1".into(), "duplicate floor id 'fl_1'".into()));
    r.push(Issue::new(Severity::Info, "link.no_flow_rate", None, "default applied".into()));
    assert!(!r.is_ok() && r.has_errors());
    assert_eq!(r.count(Severity::Error), 1);
    assert_eq!(r.count(Severity::Warning), 1);
    assert_eq!(r.count(Severity::Info), 1);
    let errs = r.errors();
    assert_eq!(errs.len(), 1);
    assert_eq!(errs[0].code, "floor.duplicate_id");
    assert_eq!(errs[0].element, Some("fl_1".to_string()));
    assert_eq!(Report::default().issues.len(), 0);
}

#[test]
fn repeated_ids_are_found_after_their_first_use() {
    let v = ids(&["a", "b", "a", "c", "b", "a"]);
    assert_eq!(repeats_earlier(&v), vec![false, false, true, false, true, true]);
    assert!(contains_id(&v, &"c".to_string()));
    assert!(!contains_id(&v, &"d".to_string()));
}

fn presence() -> ParamPresence {
    ParamPresence {
        lanes: None,
        service_time: false,
        max_throughput: false,
        rows: false,
        cols: false,
        seat_pitch: false,
        row_pitch: false,
        footprint: false,
        heading: false,
    }
}

fn codes_and_messages(v: &[Issue]) -> Vec<(Severity, String, String)> {
    v.iter().map(|i| (i.severity, i.code.clone(), i.message.clone())).collect()
}

#[test]
fn a_bare_turnstile_lacks_lanes_and_a_rate() {
    let r = component_requirements("cmp_ts", ComponentType::Turnstile, presence(), false);
    assert_eq!(
        codes_and_messages(&r),
        vec![
            (Severity::Error, "component.missing_param".to_string(), "turnstile requires 'lanes'".to_string()),
            (
                Severity::Error,
                "component.missing_param".to_string(),
                "turnstile requires 'serviceTime' or 'maxThroughputPph'".to_string()
            ),
        ]
    );
    assert!(r.iter().all(|i| i.element == Some("cmp_ts".to_string())));
    let mut p = presence();
    p.lanes = Some(4);
    p.max_throughput = true;
    assert!(component_requirements("cmp_ts", ComponentType::Turnstile, p, false).is_empty());
}

#[test]
fn a_checkpoint_with_zero_lanes_and_no_queue() {
    let mut p = presence();
    p.lanes = Some(0);
    let r = component_requirements("cmp_sec", ComponentType::SecurityCheckpoint, p, false);
    assert_eq!(
        codes_and_messages(&r),
        vec![
            (Severity::Error, "component.zero_lanes".to_string(), "lanes must be >= 1".to_string()),
            (
                Severity::Error,
                "component.missing_param".to_string(),
                "SecurityCheckpoint requires 'serviceTime'".to_string()
            ),
            (
                Severity::Warning,
                "component.no_queue_area".to_string(),
                "no queueArea bound; agents will queue in free space".to_string()
            ),
        ]
    );
    p.lanes = None;
    p.service_time = true;
    let r = component_requirements("cmp_desk", ComponentType::RegistrationDesk, p, true);
    assert_eq!(
        codes_and_messages(&r),
        vec![(
            Severity::Warning,
            "component.missing_param".to_string(),
            "RegistrationDesk has no 'lanes'; assuming 1 server".to_string()
        )]
    );
}

#[test]
fn seating_stalls_and_signs_need_their_own_params() {
    let r = component_requirements("cmp_seat", ComponentType::SeatingBlock, presence(), false);
    assert_eq!(r.len(), 2);
    assert_eq!(r[0].message, "seatingBlock requires 'rows' and 'cols'");
    assert_eq!(r[1].severity, Severity::Warning);
    let r = component_requirements("cmp_stall", ComponentType::Stall, presence(), false);
    assert_eq!(r[0].message, "Stall requires 'footprint'");
    let r = component_requirements("cmp_sign", ComponentType::Sign, presence(), false);
    assert_eq!(r[0].message, "sign requires 'headingDeg'");
    assert_eq!(component_type_name(ComponentType::TicketCounter), "TicketCounter");
}

#[test]
fn a_goal_naming_a_missing_zone_is_reported() {
    let v = venue_ids();
    let goal = Goal::Zone { id: ZoneId::new("zn_nowhere".into()) };
    assert_eq!(missing_goal(&goal, &v), Some("zone 'zn_nowhere'".to_string()));
    assert_eq!(missing_goal(&Goal::Zone { id: ZoneId::new("zn_hall".into()) }, &v), None);
    assert_eq!(missing_goal(&Goal::NearestExit, &v), None);
    let e = EventKind::UnblockLink { target: LinkId::new("ln_lift".into()) };
    assert_eq!(missing_target(&e, &v), Some("link 'ln_lift'".to_string()));
    let e = EventKind::OpenOpening { target: OpeningId::new("op_door_w".into()) };
    assert_eq!(missing_target(&e, &v), None);
}

#[test]
fn counts_are_written_in_decimal() {
    assert_eq!(decimal(0), "0");
    assert_eq!(decimal(7), "7");
    assert_eq!(decimal(10), "10");
    assert_eq!(decimal(305), "305");
    assert_eq!(decimal(usize::MAX), usize::MAX.to_string());
}

#[test]
fn a_wrong_schema_version_is_one_error() {
    let i = version_issue("venue.schema_version", "cfs.venue/1.0", &"cfs.venue/999.0".to_string()).unwrap();
    assert_eq!(i.severity, Severity::Error);
    assert_eq!(i.code, "venue.schema_version");
    assert_eq!(i.element, None);
    assert_eq!(i.message, "expected schemaVersion 'cfs.venue/1.0', got 'cfs.venue/999.0'");
    assert!(version_issue("venue.schema_version", "cfs.venue/1.0", &"cfs.venue/1.0".to_string()).is_none());
}

#[test]
fn dangling_routing_references_are_reported() {
    let floors = ids(&["f0"]);
    let wps = vec![("wp_a".to_string(), "f0".to_string()), ("wp_b".to_string(), "f9".to_string())];
    let edges = vec![("wp_a".to_string(), "wp_z".to_string()), ("wp_y".to_string(), "wp_b".to_string())];
    let r = routing_issues(&floors, &wps, &edges);
    let got: Vec<(String, Option<String>, String)> =
        r.iter().map(|i| (i.code.clone(), i.element.clone(), i.message.clone())).collect();
    assert_eq!(
        got,
        vec![
            ("waypoint.orphan_floor".to_string(), Some("wp_b".to_string()), "references unknown floor 'f9'".to_string()),
            ("edge.orphan_waypoint".to_string(), Some("wp_z".to_string()), "edge references unknown waypoint 'wp_z'".to_string()),
            ("edge.orphan_waypoint".to_string(), Some("wp_y".to_string()), "edge references unknown waypoint 'wp_y'".to_string()),
        ]
    );
    assert!(r.iter().all(|i| i.severity == Severity::Error));
}

#[test]
fn link_ends_are_checked_against_the_floors() {
    let floors = ids(&["f0", "f1"]);
    let ok = vec![("f0".to_string(), 4), ("f1".to_string(), 4)];
    assert!(link_end_issues("ln_1", &floors, &ok).is_empty());

    let same = vec![("f0".to_string(), 4), ("f0".to_string(), 4)];
    let r = link_end_issues("ln_1", &floors, &same);
    assert_eq!(r.len(), 1);
    assert_eq!((r[0].severity, r[0].code.as_str()), (Severity::Warning, "link.same_floor"));

    let bad = vec![("f7".to_string(), 2)];
    let r = link_end_issues("ln_2", &floors, &bad);
    let got: Vec<(&str, &str)> = r.iter().map(|i| (i.code.as_str(), i.message.as_str())).collect();
    assert_eq!(
        got,
        vec![
            ("link.bad_ends", "link must have exactly 2 ends, has 1"),
            ("link.orphan_floor", "references unknown floor 'f7'"),
            ("link.degenerate_footprint", "footprint on floor 'f7' has < 3 points"),
        ]
    );
    assert!(r.iter().all(|i| i.element == Some("ln_2".to_string())));
}

#[test]
fn preplaced_arrivals_need_known_zones() {
    let known = ids(&["zn_hall"]);
    let r = preplaced_issues("pop_1", &vec![], &known);
    assert_eq!(r.len(), 1);
    assert_eq!((r[0].code.as_str(), r[0].message.as_str()), ("arrival.no_zones", "preplaced arrival has no zones"));
    let r = preplaced_issues("pop_1", &ids(&["zn_hall", "zn_bar"]), &known);
    assert_eq!(r.len(), 1);
    assert_eq!(r[0].code, "arrival.orphan_zone");
    assert_eq!(r[0].message, "references unknown zone 'zn_bar'");
    assert_eq!(r[0].element, Some("pop_1".to_string()));
}

#[test]
fn an_itinerary_step_to_nowhere_is_an_error() {
    let v = venue_ids();
    let goal = Goal::Waypoint { id: WaypointId::new("wp_9".into()) };
    let i = orphan_goal_issue("pop_1", 12, &goal, &v).unwrap();
    assert_eq!(i.severity, Severity::Error);
    assert_eq!(i.code, "itinerary.orphan_goal");
    assert_eq!(i.message, "step 12: references unknown waypoint 'wp_9'");
    assert!(orphan_goal_issue("pop_1", 0, &Goal::Waypoint { id: WaypointId::new("wp_1".into()) }, &v).is_none());
}

#[test]
fn a_dangling_reference_is_quoted_and_a_known_one_is_silent() {
    let walls = ids(&["w_1", "w_2"]);
    let found = reference_issue(
        Severity::Error,
        "opening.orphan_wall",
        "op_1",
        "references unknown wall ",
        &"w_9".to_string(),
        &walls,
    )
    .expect("w_9 is not a wall");
    assert_eq!(found.severity, Severity::Error);
    assert_eq!(found.code, "opening.orphan_wall");
    assert_eq!(found.element.as_deref(), Some("op_1"));
    assert_eq!(found.message, "references unknown wall 'w_9'");
    let known = reference_issue(
        Severity::Warning,
        "element.orphan_layer",
        "op_1",
        "references unknown layer ",
        &"w_2".to_string(),
        &walls,
    );
    assert!(known.is_none());
}
