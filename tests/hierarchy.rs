use hive_telemetry::apiary::{Apiary, Hierarchy};

fn strings(v: &[&str]) -> Vec<String> {
    v.iter().map(|s| s.to_string()).collect()
}

fn sample() -> Apiary {
    let mut a = Apiary::new("north".to_string());
    a.insert_gateway("gw1".to_string(), strings(&["b1", "b2"]));
    a.insert_gateway("gw2".to_string(), strings(&["b3"]));
    a
}

#[test]
fn gateway_membership() {
    let a = sample();
    assert_eq!(a.name(), "north");
    assert!(a.has_gateway("gw1".to_string()));
    assert!(a.has_gateway("gw2".to_string()));
    assert!(!a.has_gateway("gw3".to_string()));
}

#[test]
fn bridge_membership_scans_all_gateways() {
    let a = sample();
    assert!(a.has_bridge("b1".to_string()));
    assert!(a.has_bridge("b3".to_string()));
    assert!(!a.has_bridge("b4".to_string()));
    assert!(!a.has_bridge("gw1".to_string()));
}

#[test]
fn bridges_flatten_in_gateway_order() {
    let a = sample();
    assert_eq!(a.get_bridges(), strings(&["b1", "b2", "b3"]));
    assert!(Apiary::new("empty".to_string()).get_bridges().is_empty());
}

#[test]
fn reinserted_gateway_keeps_place_and_takes_new_list() {
    let mut a = sample();
    a.insert_gateway("gw1".to_string(), strings(&["b9"]));
    assert_eq!(a.get_bridges(), strings(&["b9", "b3"]));
    assert!(!a.has_bridge("b1".to_string()));
}

#[test]
fn unknown_facility_has_nothing() {
    let mut h = Hierarchy::new();
    h.insert(sample());
    let north = "north".to_string();
    let south = "south".to_string();
    assert!(h.has_gateway(&north, "gw2".to_string()));
    assert!(h.has_bridge(&north, "b2".to_string()));
    assert!(!h.has_bridge(&north, "b7".to_string()));
    assert!(!h.has_gateway(&south, "gw2".to_string()));
    assert!(!h.has_bridge(&south, "b2".to_string()));
    assert!(h.all_bridges(&south).is_empty());
    assert_eq!(h.all_bridges(&north), strings(&["b1", "b2", "b3"]));
}

#[test]
fn reinserted_facility_replaces_the_old_one() {
    let mut h = Hierarchy::new();
    h.insert(sample());
    let mut other = Apiary::new("north".to_string());
    other.insert_gateway("gw9".to_string(), strings(&["x"]));
    h.insert(other);
    let north = "north".to_string();
    assert!(!h.has_gateway(&north, "gw1".to_string()));
    assert!(h.has_gateway(&north, "gw9".to_string()));
    assert_eq!(h.all_bridges(&north), strings(&["x"]));
}
