use starmap::{
    base_systems, flight_paths, ship_systems, Flight, FlightLine, FlightPath, FlightSegment, Site,
    UserData,
};

fn line(kind: &str, natural_id: Option<&str>) -> FlightLine {
    FlightLine {
        line_type: Some(kind.to_string()),
        line_id: None,
        line_natural_id: natural_id.map(|s| s.to_string()),
        line_name: None,
    }
}

fn segment(origin: Vec<FlightLine>, dest: Vec<FlightLine>) -> FlightSegment {
    FlightSegment {
        segment_type: None,
        origin: None,
        destination: None,
        origin_lines: Some(origin),
        destination_lines: Some(dest),
    }
}

fn flight(ship: &str, segments: Vec<FlightSegment>) -> Flight {
    Flight { ship_id: Some(ship.to_string()), segments: Some(segments), ..Default::default() }
}

fn site(planet: Option<&str>) -> Site {
    Site {
        site_id: "s".to_string(),
        planet_id: "p".to_string(),
        planet_identifier: planet.map(|s| s.to_string()),
        planet_name: None,
        planet_founded_epoch_ms: None,
        invested_permits: None,
        maximum_permits: None,
        user_name_submitted: None,
        timestamp: None,
    }
}

#[test]
fn origin_from_first_segment_and_destination_from_last() {
    let f = flight(
        "ship-1",
        vec![
            segment(vec![line("planet", Some("UV-351a")), line("system", Some("UV-351"))], vec![]),
            segment(vec![], vec![line("station", Some("X")), line("system", Some("OT-580"))]),
        ],
    );
    assert_eq!(f.origin_system_natural_id(), Some("UV-351".to_string()));
    assert_eq!(f.destination_system_natural_id(), Some("OT-580".to_string()));
    let p = FlightPath::from_flight(&f).unwrap();
    assert_eq!(p.origin_system_id, "UV-351");
    assert_eq!(p.destination_system_id, "OT-580");
    assert_eq!(p.ship_registration, Some("ship-1".to_string()));
    assert!(!p.is_in_system);
}

#[test]
fn same_ends_are_in_system() {
    let f = flight(
        "ship-2",
        vec![segment(vec![line("system", Some("ZV-307"))], vec![line("system", Some("ZV-307"))])],
    );
    let p = FlightPath::from_flight(&f).unwrap();
    assert!(p.is_in_system);
    assert_eq!(p.origin_system_id, "ZV-307");
}

#[test]
fn underivable_end_gives_no_path() {
    let no_system = flight("s", vec![segment(vec![line("planet", Some("A"))], vec![line("system", Some("B"))])]);
    assert_eq!(no_system.origin_system_natural_id(), None);
    assert!(FlightPath::from_flight(&no_system).is_none());

    let first_system_without_id = flight(
        "s",
        vec![segment(vec![line("system", None), line("system", Some("A"))], vec![line("system", Some("B"))])],
    );
    assert_eq!(first_system_without_id.origin_system_natural_id(), None);

    let no_segments = Flight { segments: Some(Vec::new()), ..Default::default() };
    assert!(FlightPath::from_flight(&no_segments).is_none());
    let missing = Flight::default();
    assert_eq!(missing.destination_system_natural_id(), None);
}

#[test]
fn flight_paths_skip_underivable_flights() {
    let good = flight("a", vec![segment(vec![line("system", Some("A"))], vec![line("system", Some("B"))])]);
    let bad = Flight::default();
    let paths = flight_paths(&vec![bad, good]);
    assert_eq!(paths.len(), 1);
    assert_eq!(paths[0].destination_system_id, "B");
}

#[test]
fn ship_and_base_systems() {
    let ships = ship_systems(&vec![Some("UV-351a".to_string()), Some(String::new()), None, Some("UV-351b".to_string())]);
    assert_eq!(ships, vec!["UV-351".to_string()]);
    let bases = base_systems(&vec![site(Some("OT-580c")), site(None), site(Some("ZV-307"))]);
    assert_eq!(bases, vec!["OT-580".to_string(), "ZV-307".to_string()]);
}

#[test]
fn user_data_from_records() {
    let f = flight("a", vec![segment(vec![line("system", Some("A"))], vec![line("system", Some("A"))])]);
    let u = UserData::from_records(
        "pilot".to_string(),
        &vec![Some("KW-688c".to_string())],
        &vec![f],
        &vec![site(Some("UV-351a"))],
    );
    assert_eq!(u.username, "pilot");
    assert_eq!(u.ship_system_ids, vec!["KW-688".to_string()]);
    assert_eq!(u.base_system_ids, vec!["UV-351".to_string()]);
    assert_eq!(u.flight_paths.len(), 1);
    assert!(u.flight_paths[0].is_in_system);
}
