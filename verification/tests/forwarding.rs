use demo2::forwarding::{row_ids, ConnectedDevices, DemoThrottle, RowRangeError, DEMO_UI_STRIDE};
use demo2::session::ConnState;

#[test]
fn every_eighth_demo_sample_of_a_sensor_is_forwarded() {
    let mut throttle = DemoThrottle::new();
    let passed: Vec<bool> = (0..16).map(|_| throttle.forward("serial://a", 0)).collect();
    let expected: Vec<bool> = (1..=16u64).map(|n| n % DEMO_UI_STRIDE == 0).collect();
    assert_eq!(passed, expected);
    assert!(!throttle.forward("serial://a", 1));
    assert!(!throttle.forward("serial://b", 0));
}

#[test]
fn connected_devices_follow_session_states() {
    let mut devices = ConnectedDevices::new();
    assert_eq!(devices.session_changed("tcp://a", ConnState::Connecting), 0);
    assert_eq!(devices.session_changed("tcp://a", ConnState::Ready), 1);
    assert_eq!(devices.session_changed("tcp://a", ConnState::Ready), 1);
    assert_eq!(devices.session_changed("tcp://b", ConnState::Ready), 2);
    assert_eq!(devices.session_changed("tcp://a", ConnState::Degraded), 2);
    assert_eq!(devices.session_changed("tcp://a", ConnState::Disconnected), 1);
    assert_eq!(devices.session_changed("tcp://c", ConnState::Disconnected), 1);
}

#[test]
fn sample_ids_must_fit_the_database_columns() {
    assert_eq!(row_ids(3, 42), Ok((3, 42)));
    let too_big = i32::MAX as usize + 1;
    assert_eq!(row_ids(too_big, u64::MAX), Err(RowRangeError::SensorId(too_big)));
    assert_eq!(row_ids(0, u64::MAX), Err(RowRangeError::RequestId(u64::MAX)));
    assert_eq!(
        RowRangeError::RequestId(u64::MAX).message(),
        "request_id out of PostgreSQL BIGINT range: 18446744073709551615"
    );
    assert_eq!(
        RowRangeError::SensorId(2147483648).message(),
        "sensor_id out of PostgreSQL INTEGER range: 2147483648"
    );
}
