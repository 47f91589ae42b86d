use starmap::{extract_system_from_planet, StarMap, StarSystem, StarType, SystemConnection};

fn record(id: &str, natural_id: &str, name: &str, conns: &[&str]) -> StarSystem {
    StarSystem {
        system_id: id.to_string(),
        name: name.to_string(),
        natural_id: natural_id.to_string(),
        star_type: "G".to_string(),
        sector_id: "sector".to_string(),
        sub_sector_id: "sub".to_string(),
        connections: conns
            .iter()
            .map(|c| SystemConnection {
                system_connection_id: format!("{}-{}", id, c),
                connecting_id: c.to_string(),
            })
            .collect(),
        user_name_submitted: String::new(),
        timestamp: String::new(),
    }
}

#[test]
fn mutual_connection_gives_one_edge() {
    let map = StarMap::from_systems(vec![record("1", "A", "Alpha", &["2"]), record("2", "B", "Beta", &["1"])]);
    assert_eq!(map.node_count(), 2);
    assert_eq!(map.edge_count(), 1);
    let (a, b) = map.edge(0);
    assert!((a, b) == (0, 1) || (a, b) == (1, 0));
}

#[test]
fn empty_input_gives_empty_graph() {
    let map = StarMap::from_systems(Vec::new());
    assert_eq!(map.node_count(), 0);
    assert_eq!(map.edge_count(), 0);
}

#[test]
fn dangling_connection_is_dropped() {
    let map = StarMap::from_systems(vec![record("1", "A", "Alpha", &["99"]), record("2", "B", "Beta", &[])]);
    assert_eq!(map.node_count(), 2);
    assert_eq!(map.edge_count(), 0);
    assert!(map.neighbors(0).is_empty());
}

#[test]
fn one_sided_connection_gives_one_edge() {
    let map = StarMap::from_systems(vec![record("1", "A", "Alpha", &["2"]), record("2", "B", "Beta", &[])]);
    assert_eq!(map.edge_count(), 1);
    assert_eq!(map.neighbors(1), vec![0]);
}

#[test]
fn repeated_declarations_collapse() {
    let map = StarMap::from_systems(vec![
        record("1", "A", "Alpha", &["2", "2", "3"]),
        record("2", "B", "Beta", &["1", "3"]),
        record("3", "C", "Gamma", &["1", "2", "404"]),
    ]);
    assert_eq!(map.node_count(), 3);
    assert_eq!(map.edge_count(), 3);
    let mut n = map.neighbors(2);
    n.sort();
    assert_eq!(n, vec![0, 1]);
}

#[test]
fn nodes_keep_record_attributes_in_order() {
    let mut a = record("x1", "ZV-307", "Moria", &[]);
    a.star_type = "K".to_string();
    let mut b = record("x2", "OT-580", "Montem", &[]);
    b.star_type = "Q".to_string();
    let map = StarMap::from_systems(vec![a, b]);
    assert_eq!(map.node(0).name, "Moria");
    assert_eq!(map.node(0).natural_id, "ZV-307");
    assert_eq!(map.node(0).star_type, StarType::K);
    assert_eq!(map.node(1).star_type, StarType::Unknown);
    assert_eq!(map.node(1).sector_id, "sector");
    assert_eq!(map.find_by_natural_id("OT-580"), Some(1));
    assert_eq!(map.find_by_natural_id("nope"), None);
    assert_eq!(map.find_by_record_id("x1"), Some(0));
    assert_eq!(map.find_by_record_id("x3"), None);
}

#[test]
fn rebuilding_gives_same_graph() {
    let input = vec![
        record("1", "A", "Alpha", &["2", "3"]),
        record("2", "B", "Beta", &["1"]),
        record("3", "C", "Gamma", &["2"]),
    ];
    let m1 = StarMap::from_systems(input.clone());
    let m2 = StarMap::from_systems(input);
    assert_eq!(m1.node_count(), m2.node_count());
    assert_eq!(m1.edge_count(), m2.edge_count());
    for i in 0..m1.node_count() {
        assert_eq!(m1.node(i).natural_id, m2.node(i).natural_id);
        let mut a = m1.neighbors(i);
        let mut b = m2.neighbors(i);
        a.sort();
        b.sort();
        assert_eq!(a, b);
    }
}

#[test]
fn duplicate_record_id_resolves_to_last() {
    let map = StarMap::from_systems(vec![
        record("1", "A", "Alpha", &[]),
        record("1", "A2", "Alpha again", &[]),
        record("2", "B", "Beta", &["1"]),
    ]);
    assert_eq!(map.node_count(), 3);
    assert_eq!(map.edge_count(), 1);
    assert_eq!(map.neighbors(2), vec![1]);
    assert!(map.neighbors(0).is_empty());
}

#[test]
fn planet_suffix_is_stripped() {
    assert_eq!(extract_system_from_planet("UV-351a"), "UV-351");
    assert_eq!(extract_system_from_planet("OT-580"), "OT-580");
    assert_eq!(extract_system_from_planet("OT-580B"), "OT-580B");
    assert_eq!(extract_system_from_planet(""), "");
    assert_eq!(extract_system_from_planet("z"), "");
}

#[test]
fn star_type_from_first_letter() {
    assert_eq!(StarType::from_str("O"), StarType::O);
    assert_eq!(StarType::from_str("B2"), StarType::B);
    assert_eq!(StarType::from_str("A"), StarType::A);
    assert_eq!(StarType::from_str("F"), StarType::F);
    assert_eq!(StarType::from_str("G"), StarType::G);
    assert_eq!(StarType::from_str("K"), StarType::K);
    assert_eq!(StarType::from_str("M5"), StarType::M);
    assert_eq!(StarType::from_str("g"), StarType::Unknown);
    assert_eq!(StarType::from_str(""), StarType::Unknown);
}

#[test]
fn star_type_colours() {
    assert_eq!(StarType::O.rgb(), (155, 176, 255));
    assert_eq!(StarType::G.rgb(), (255, 244, 234));
    assert_eq!(StarType::Unknown.rgb(), (160, 160, 160));
}

#[test]
fn search_ignores_case_and_matches_either_field() {
    let map = StarMap::from_systems(vec![
        record("1", "UV-351", "Benten", &[]),
        record("2", "OT-580", "Montem", &[]),
        record("3", "ZV-307", "Moria", &[]),
    ]);
    assert_eq!(map.search("uv"), vec![0]);
    assert_eq!(map.search("MO"), vec![1, 2]);
    assert_eq!(map.search("-3"), vec![0, 2]);
    assert_eq!(map.search("xyz"), Vec::<usize>::new());
    assert_eq!(map.search(""), Vec::<usize>::new());
}

#[test]
fn search_caps_at_limit_in_node_order() {
    let records: Vec<StarSystem> = (0..15)
        .map(|i| record(&format!("{}", i), &format!("AB-{}", i), &format!("Star {}", i), &[]))
        .collect();
    let map = StarMap::from_systems(records);
    let found = map.search("star");
    assert_eq!(found.len(), starmap::SEARCH_LIMIT);
    assert_eq!(found, (0..10).collect::<Vec<usize>>());
}
