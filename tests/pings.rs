use hive_telemetry::apiary::{Apiary, Hierarchy};
use hive_telemetry::pings::GatewayPings;
use hive_telemetry::shared::Failure;

fn hierarchy() -> Hierarchy {
    let mut a = Apiary::new("north".to_string());
    a.insert_gateway("gw1".to_string(), vec!["b1".to_string()]);
    a.insert_gateway("gw2".to_string(), vec![]);
    let mut h = Hierarchy::new();
    h.insert(a);
    h
}

#[test]
fn never_pinged_gateway_reads_epoch_origin() {
    let h = hierarchy();
    let p = GatewayPings::new();
    assert_eq!(p.last_ping(&h, &"north".to_string(), &"gw1".to_string()), Ok(0));
}

#[test]
fn ping_is_recorded_and_replaced() {
    let h = hierarchy();
    let north = "north".to_string();
    let gw1 = "gw1".to_string();
    let gw2 = "gw2".to_string();
    let mut p = GatewayPings::new();
    assert_eq!(p.record(&h, &north, &gw1, 1_700_000_000_000), Ok(()));
    assert_eq!(p.last_ping(&h, &north, &gw1), Ok(1_700_000_000_000));
    assert_eq!(p.record(&h, &north, &gw2, 5), Ok(()));
    assert_eq!(p.record(&h, &north, &gw1, 1_700_000_000_500), Ok(()));
    assert_eq!(p.last_ping(&h, &north, &gw1), Ok(1_700_000_000_500));
    assert_eq!(p.last_ping(&h, &north, &gw2), Ok(5));
}

#[test]
fn unknown_facility_or_gateway_is_unauthorized() {
    let h = hierarchy();
    let mut p = GatewayPings::new();
    let south = "south".to_string();
    let north = "north".to_string();
    let gw1 = "gw1".to_string();
    let gw9 = "gw9".to_string();
    assert_eq!(p.record(&h, &south, &gw1, 10), Err(Failure::Authorization));
    assert_eq!(p.last_ping(&h, &south, &gw1), Err(Failure::Authorization));
    assert_eq!(p.record(&h, &north, &gw9, 10), Err(Failure::Authorization));
    assert_eq!(p.last_ping(&h, &north, &gw1), Ok(0));
}
