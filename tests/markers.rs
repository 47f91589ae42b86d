use starmap::{
    markers_of, recompute_markers, ExchangeIndex, ExchangeStation, FlightPath, MarkerToggles,
    SystemMarker, UserData,
};

fn station(system: &str, code: &str) -> ExchangeStation {
    ExchangeStation {
        station_id: format!("st-{}", code),
        natural_id: format!("{}-STN", code),
        name: format!("{} Station", code),
        system_id: format!("sys-{}", system),
        system_natural_id: system.to_string(),
        system_name: system.to_string(),
        comex_code: code.to_string(),
        comex_name: format!("{} Exchange", code),
    }
}

fn path(origin: &str, dest: &str) -> FlightPath {
    FlightPath {
        origin_system_id: origin.to_string(),
        destination_system_id: dest.to_string(),
        ship_registration: None,
        is_in_system: origin == dest,
    }
}

fn user(ships: &[&str], bases: &[&str], flights: Vec<FlightPath>) -> UserData {
    UserData {
        username: "pilot".to_string(),
        ship_system_ids: ships.iter().map(|s| s.to_string()).collect(),
        base_system_ids: bases.iter().map(|s| s.to_string()).collect(),
        flight_paths: flights,
    }
}

fn all_on() -> MarkerToggles {
    MarkerToggles { show_cx: true, show_bases: true, show_ships: true }
}

fn exchanges(list: &[(&str, &str)]) -> ExchangeIndex {
    let mut x = ExchangeIndex::new();
    let stations: Vec<ExchangeStation> = list.iter().map(|(s, c)| station(s, c)).collect();
    x.add_stations(&stations);
    x
}

#[test]
fn all_three_markers_in_priority_order() {
    let x = exchanges(&[("UV-351", "IC1")]);
    let u = Some(user(&["UV-351"], &["UV-351"], Vec::new()));
    let set = recompute_markers(&x, &u, all_on());
    assert_eq!(set.entries.len(), 1);
    let m = set.get(&"UV-351".to_string()).unwrap();
    assert_eq!(m, &vec![SystemMarker::CommodityExchange, SystemMarker::Base, SystemMarker::Ship]);
}

#[test]
fn hiding_bases_keeps_other_markers_in_order() {
    let x = exchanges(&[("UV-351", "IC1")]);
    let u = Some(user(&["UV-351"], &["UV-351", "OT-580"], Vec::new()));
    let shown = recompute_markers(&x, &u, all_on());
    assert_eq!(shown.entries.len(), 2);
    let hidden = recompute_markers(
        &x,
        &u,
        MarkerToggles { show_cx: true, show_bases: false, show_ships: true },
    );
    assert_eq!(hidden.entries.len(), 1);
    assert_eq!(
        hidden.get(&"UV-351".to_string()).unwrap(),
        &vec![SystemMarker::CommodityExchange, SystemMarker::Ship]
    );
    assert!(hidden.get(&"OT-580".to_string()).is_none());
}

#[test]
fn in_system_flight_marks_ship_but_transit_does_not() {
    let x = ExchangeIndex::new();
    let u = Some(user(&[], &[], vec![path("ZV-307", "ZV-307"), path("AB-1", "CD-2")]));
    let set = recompute_markers(&x, &u, all_on());
    assert_eq!(set.entries.len(), 1);
    assert_eq!(set.get(&"ZV-307".to_string()).unwrap(), &vec![SystemMarker::Ship]);
    assert!(set.get(&"AB-1".to_string()).is_none());
    assert!(set.get(&"CD-2".to_string()).is_none());
}

#[test]
fn no_user_gives_only_exchanges() {
    let x = exchanges(&[("UV-351", "IC1"), ("OT-580", "NC1")]);
    let set = recompute_markers(&x, &None, all_on());
    assert_eq!(set.entries.len(), 2);
    assert_eq!(set.get(&"OT-580".to_string()).unwrap(), &vec![SystemMarker::CommodityExchange]);
    let off = recompute_markers(
        &x,
        &None,
        MarkerToggles { show_cx: false, show_bases: true, show_ships: true },
    );
    assert!(off.entries.is_empty());
}

#[test]
fn all_toggles_off_gives_no_markers() {
    let x = exchanges(&[("UV-351", "IC1")]);
    let u = Some(user(&["UV-351"], &["UV-351"], vec![path("A", "A")]));
    let set = recompute_markers(
        &x,
        &u,
        MarkerToggles { show_cx: false, show_bases: false, show_ships: false },
    );
    assert!(set.entries.is_empty());
}

#[test]
fn markers_of_one_system() {
    let x = exchanges(&[("UV-351", "IC1")]);
    let u = Some(user(&[], &["UV-351"], Vec::new()));
    let m = markers_of(&x, &u, all_on(), &"UV-351".to_string());
    assert_eq!(m, vec![SystemMarker::CommodityExchange, SystemMarker::Base]);
    let none = markers_of(&x, &u, all_on(), &"QQ-1".to_string());
    assert!(none.is_empty());
}

#[test]
fn exchange_code_last_wins() {
    let x = exchanges(&[("UV-351", "IC1"), ("OT-580", "NC1"), ("UV-351", "IC2")]);
    assert_eq!(x.code_of(&"UV-351".to_string()), Some("IC2".to_string()));
    assert_eq!(x.code_of(&"OT-580".to_string()), Some("NC1".to_string()));
    assert_eq!(x.code_of(&"ZV-307".to_string()), None);
    assert!(x.contains(&"OT-580".to_string()));
    assert!(!x.contains(&"ZV-307".to_string()));
}

#[test]
fn marker_colours() {
    assert_eq!(SystemMarker::CommodityExchange.rgb(), (255, 100, 100));
    assert_eq!(SystemMarker::Base.rgb(), (100, 255, 100));
    assert_eq!(SystemMarker::Ship.rgb(), (100, 150, 255));
}
