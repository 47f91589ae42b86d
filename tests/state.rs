use starmap::{
    ExchangeStation, MapState, MarkerToggles, StarSystem, SystemConnection, SystemMarker, UserData,
};

fn record(id: &str, natural_id: &str, conns: &[&str]) -> StarSystem {
    StarSystem {
        system_id: id.to_string(),
        name: natural_id.to_string(),
        natural_id: natural_id.to_string(),
        star_type: "M".to_string(),
        sector_id: String::new(),
        sub_sector_id: String::new(),
        connections: conns
            .iter()
            .map(|c| SystemConnection { system_connection_id: String::new(), connecting_id: c.to_string() })
            .collect(),
        user_name_submitted: String::new(),
        timestamp: String::new(),
    }
}

fn station(system: &str, code: &str) -> ExchangeStation {
    ExchangeStation {
        station_id: String::new(),
        natural_id: String::new(),
        name: String::new(),
        system_id: String::new(),
        system_natural_id: system.to_string(),
        system_name: String::new(),
        comex_code: code.to_string(),
        comex_name: String::new(),
    }
}

fn base_user(system: &str) -> UserData {
    UserData {
        username: "pilot".to_string(),
        ship_system_ids: Vec::new(),
        base_system_ids: vec![system.to_string()],
        flight_paths: Vec::new(),
    }
}

#[test]
fn failed_fetch_keeps_last_graph() {
    let mut s = MapState::new();
    assert!(s.loading);
    s.systems_loaded(Ok(vec![record("1", "A", &["2"]), record("2", "B", &["1"])]));
    assert!(!s.loading);
    assert_eq!(s.star_map.as_ref().unwrap().edge_count(), 1);
    s.systems_loaded(Err("HTTP error: 500".to_string()));
    assert_eq!(s.error, Some("HTTP error: 500".to_string()));
    assert_eq!(s.star_map.as_ref().unwrap().node_count(), 2);
}

#[test]
fn new_graph_replaces_old() {
    let mut s = MapState::new();
    s.systems_loaded(Ok(vec![record("1", "A", &[])]));
    s.systems_loaded(Ok(vec![record("1", "A", &[]), record("2", "B", &[]), record("3", "C", &[])]));
    assert_eq!(s.star_map.as_ref().unwrap().node_count(), 3);
}

#[test]
fn markers_follow_every_input_change() {
    let mut s = MapState::new();
    assert!(s.markers.entries.is_empty());
    s.stations_loaded(Ok(vec![station("UV-351", "IC1")]));
    assert_eq!(s.markers.get(&"UV-351".to_string()).unwrap(), &vec![SystemMarker::CommodityExchange]);
    s.stations_loaded(Err("offline".to_string()));
    assert_eq!(s.markers.entries.len(), 1);
    s.user_data_loaded(Ok(base_user("UV-351")));
    assert_eq!(
        s.markers.get(&"UV-351".to_string()).unwrap(),
        &vec![SystemMarker::CommodityExchange, SystemMarker::Base]
    );
    s.user_data_loaded(Err("offline".to_string()));
    assert!(s.user_data.is_some());
    s.set_toggles(MarkerToggles { show_cx: false, show_bases: true, show_ships: true });
    assert_eq!(s.markers.get(&"UV-351".to_string()).unwrap(), &vec![SystemMarker::Base]);
    s.logout();
    assert!(s.user_data.is_none());
    assert!(s.markers.entries.is_empty());
}
