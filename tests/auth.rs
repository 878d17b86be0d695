use hive_telemetry::shared::{AppData, DBDevice, DeviceError, Failure};

const TOKEN_A: &str = "550e8400-e29b-41d4-a716-446655440000";
const SERIAL_A: &str = "936da01f-9abd-4d9d-80c7-02af85c822a8";
const TOKEN_B: &str = "67e55044-10b1-426f-9247-bb680e5fe0c8";
const SERIAL_B: &str = "a1a2a3a4-b1b2-c1c2-d1d2-d3d4d5d6d7d8";

fn device(token: &str, serial: &str) -> DBDevice {
    DBDevice { auth_token: token.to_string(), serial_number: serial.to_string() }
}

#[test]
fn resolves_declared_serial_numbers() {
    let rows = vec![device(TOKEN_A, SERIAL_A), device(TOKEN_B, SERIAL_B)];
    let cache = AppData::new(&rows).unwrap();
    assert!(cache.auth_token_valid(0x550e8400_e29b_41d4_a716_446655440000));
    assert_eq!(
        cache.get_serial_number(0x550e8400_e29b_41d4_a716_446655440000),
        Some(0x936da01f_9abd_4d9d_80c7_02af85c822a8)
    );
    assert_eq!(
        cache.get_serial_number(0x67e55044_10b1_426f_9247_bb680e5fe0c8),
        Some(0xa1a2a3a4_b1b2_c1c2_d1d2_d3d4d5d6d7d8)
    );
}

#[test]
fn unknown_token_is_absent_and_invalid() {
    let rows = vec![device(TOKEN_A, SERIAL_A)];
    let cache = AppData::new(&rows).unwrap();
    assert!(!cache.auth_token_valid(1));
    assert_eq!(cache.get_serial_number(1), None);
    let empty = AppData::new(&Vec::new()).unwrap();
    assert!(!empty.auth_token_valid(0x550e8400_e29b_41d4_a716_446655440000));
}

#[test]
fn accepts_other_uuid_layouts() {
    let rows = vec![device(
        "550E8400E29B41D4A716446655440000",
        "{936da01f-9abd-4d9d-80c7-02af85c822a8}",
    )];
    let cache = AppData::new(&rows).unwrap();
    assert_eq!(
        cache.get_serial_number(0x550e8400_e29b_41d4_a716_446655440000),
        Some(0x936da01f_9abd_4d9d_80c7_02af85c822a8)
    );
}

#[test]
fn later_row_wins_for_repeated_token() {
    let rows = vec![device(TOKEN_A, SERIAL_A), device(TOKEN_A, SERIAL_B)];
    let cache = AppData::new(&rows).unwrap();
    assert_eq!(
        cache.get_serial_number(0x550e8400_e29b_41d4_a716_446655440000),
        Some(0xa1a2a3a4_b1b2_c1c2_d1d2_d3d4d5d6d7d8)
    );
}

#[test]
fn bad_token_aborts_construction() {
    let rows = vec![device(TOKEN_A, SERIAL_A), device("not-a-uuid", SERIAL_B)];
    assert_eq!(AppData::new(&rows).err(), Some(DeviceError::BadAuthToken(1)));
}

#[test]
fn bad_serial_aborts_construction() {
    let rows = vec![device(TOKEN_A, "936da01f"), device("also bad", SERIAL_B)];
    assert_eq!(AppData::new(&rows).err(), Some(DeviceError::BadSerialNumber(0)));
}

#[test]
fn failures_map_to_statuses() {
    assert_eq!(Failure::Authorization.status(), 401);
    assert_eq!(Failure::Format.status(), 406);
}
