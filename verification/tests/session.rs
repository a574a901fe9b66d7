use demo2::session::{ConnState, LifecycleAction, SessionLifecycle, StateChange};
use demo2::session::{
    command_frame, next_backoff_ms, parse_sensor_text, parse_sensor_value, Command, CommandKind,
    Frame, RetryPolicy, SessionConfig, SessionCore, SessionCoreEvent, SessionError,
};
use std::time::SystemTime;

fn command(request_id: u64, timeout_ms: u64, max_attempts: u32, idempotent: bool) -> Command {
    Command {
        request_id,
        kind: CommandKind::ReadParam,
        payload: b"read".to_vec(),
        timeout_ms,
        retry: RetryPolicy { max_attempts, base_delay_ms: 10 },
        idempotent,
    }
}

#[test]
fn command_produces_transmit_and_response_completes_pending() {
    let now = 0;
    let mut core = SessionCore::new(SessionConfig::default(), now);

    let events = core.handle_command(command(7, 1_000, 1, true), now);
    assert_eq!(events.len(), 1);
    match &events[0] {
        SessionCoreEvent::Transmit(frame) => {
            assert_eq!(frame.request_id, 7);
            assert_eq!(frame.kind, 0x01);
            assert_eq!(frame.payload, b"read");
        }
        _ => panic!("expected transmit event"),
    }

    let events = core.handle_frame(
        Frame { request_id: 7, kind: 0x80, payload: b"ok".to_vec() },
        now,
        SystemTime::UNIX_EPOCH,
    );
    assert_eq!(events.len(), 1);
    match &events[0] {
        SessionCoreEvent::CommandSucceeded(response) => {
            assert_eq!(response.request_id, 7);
            assert_eq!(response.code, 0x80);
            assert_eq!(response.payload, b"ok");
        }
        _ => panic!("expected command success event"),
    }
}

#[test]
fn idempotent_command_retries_then_times_out() {
    let now = 0;
    let mut core = SessionCore::new(SessionConfig::default(), now);

    let _ = core.handle_command(command(8, 100, 2, true), now);

    let events = core.handle_timeout_tick(now + 100);
    assert_eq!(events.len(), 1);
    match &events[0] {
        SessionCoreEvent::Transmit(frame) => assert_eq!(frame.request_id, 8),
        _ => panic!("expected retry transmit event"),
    }

    let events = core.handle_timeout_tick(now + 200);
    assert_eq!(events.len(), 1);
    match &events[0] {
        SessionCoreEvent::CommandTimedOut(request_id) => assert_eq!(*request_id, 8),
        _ => panic!("expected timeout event"),
    }
}

#[test]
fn non_idempotent_command_does_not_retry() {
    let now = 0;
    let mut core = SessionCore::new(SessionConfig::default(), now);

    let _ = core.handle_command(command(9, 100, 3, false), now);

    let events = core.handle_timeout_tick(now + 100);
    assert_eq!(events.len(), 1);
    match &events[0] {
        SessionCoreEvent::CommandTimedOut(request_id) => assert_eq!(*request_id, 9),
        _ => panic!("expected timeout event"),
    }
}

#[test]
fn telemetry_frame_produces_ack_event() {
    let now = 0;
    let mut core = SessionCore::new(SessionConfig::default(), now);

    let events = core.handle_frame(
        Frame { request_id: 11, kind: 0x34, payload: b"sid=2,value=42.5".to_vec() },
        now,
        SystemTime::UNIX_EPOCH,
    );

    assert_eq!(events.len(), 1);
    match &events[0] {
        SessionCoreEvent::TelemetryReceived { request_id, sensor_id, value_text, ack } => {
            assert_eq!(*request_id, 11);
            assert_eq!(*sensor_id, 2);
            assert_eq!(value_text.parse::<f64>().unwrap(), 42.5);
            assert_eq!(ack.request_id, 11);
            assert_eq!(ack.kind, 0x90);
            assert_eq!(ack.payload, b"demo2-ack");
        }
        _ => panic!("expected telemetry event"),
    }
}

#[test]
fn heartbeat_reports_silence_past_the_timeout() {
    let mut core = SessionCore::new(SessionConfig::default(), 1_000);
    let events = core.handle_heartbeat_tick(9_000);
    assert_eq!(events.len(), 1);
    let events = core.handle_heartbeat_tick(9_001);
    assert_eq!(events.len(), 2);
    assert!(matches!(events[1], SessionCoreEvent::HeartbeatTimedOut));
    let _ = core.handle_frame(Frame { request_id: 0, kind: 0xF1, payload: vec![] }, 9_001, SystemTime::UNIX_EPOCH);
    assert_eq!(core.handle_heartbeat_tick(9_002).len(), 1);
    let mut quiet = SessionCore::new(SessionConfig { enable_heartbeat: false, ..SessionConfig::default() }, 0);
    assert!(quiet.handle_heartbeat_tick(100_000).is_empty());
}

#[test]
fn unknown_frames_and_bad_reports_are_flagged() {
    let mut core = SessionCore::new(SessionConfig::default(), 0);
    let events = core.handle_frame(Frame { request_id: 3, kind: 0x55, payload: vec![] }, 0, SystemTime::UNIX_EPOCH);
    assert!(matches!(events[0], SessionCoreEvent::UnsolicitedFrame(0x55)));
    let events = core.handle_frame(Frame { request_id: 3, kind: 0x34, payload: b"sid=x,value=1".to_vec() }, 0, SystemTime::UNIX_EPOCH);
    assert!(matches!(events[0], SessionCoreEvent::InvalidTelemetry));
    let events = core.handle_frame(Frame { request_id: 3, kind: 0x34, payload: vec![0xff, 0xfe] }, 0, SystemTime::UNIX_EPOCH);
    assert!(matches!(events[0], SessionCoreEvent::InvalidTelemetry));
}

#[test]
fn close_returns_every_pending_request() {
    let mut core = SessionCore::new(SessionConfig::default(), 0);
    let _ = core.handle_command(command(1, 100, 1, true), 0);
    let _ = core.handle_command(command(2, 100, 1, true), 0);
    let _ = core.handle_command(command(1, 300, 1, true), 0);
    assert_eq!(core.close(), vec![1, 2]);
    assert!(core.close().is_empty());
}

#[test]
fn sensor_reports_parse_keys_in_any_case() {
    assert_eq!(parse_sensor_text(" SID = 4 , Value = -1e3 "), Some((4, "-1e3".to_string())));
    assert_eq!(parse_sensor_text("value=1,sid=2,sid=3"), Some((3, "1".to_string())));
    assert_eq!(parse_sensor_text("sid=2"), None);
    assert_eq!(parse_sensor_text("sid=2,,value=1"), None);
    assert_eq!(parse_sensor_value(b"sid=1,value=0.5"), Some((1, "0.5".to_string())));
    assert_eq!(parse_sensor_value(&[0xc3, 0x28]), None);
}

#[test]
fn frames_backoff_and_errors_read_as_documented() {
    let cmd = command(5, 10, 1, true);
    let frame = command_frame(&cmd);
    assert_eq!((frame.request_id, frame.kind, frame.payload.as_slice()), (5, 1, &b"read"[..]));
    assert_eq!(next_backoff_ms(200, 5_000), 400);
    assert_eq!(next_backoff_ms(4_000, 5_000), 5_000);
    assert_eq!(next_backoff_ms(u64::MAX, 5_000), 5_000);
    assert_eq!(SessionError::Closed.message(), "session closed");
    assert_eq!(SessionError::Codec("bad crc".to_string()).message(), "codec error: bad crc");
}

#[test]
fn session_lifecycle_reconnects_with_growing_waits() {
    let mut life = SessionLifecycle::new(SessionConfig::default());
    let change = |from, to| LifecycleAction::Announce(StateChange { from, to });
    assert_eq!(
        life.start(),
        vec![change(ConnState::Disconnected, ConnState::Connecting), LifecycleAction::Connect]
    );
    assert_eq!(
        life.on_connect_failed(),
        vec![
            change(ConnState::Connecting, ConnState::Reconnecting),
            LifecycleAction::Close,
            LifecycleAction::Sleep(200),
            change(ConnState::Reconnecting, ConnState::Connecting),
            LifecycleAction::Connect,
        ]
    );
    assert_eq!(life.backoff_ms, 400);
    assert_eq!(
        life.on_connected(),
        vec![
            change(ConnState::Connecting, ConnState::Handshaking),
            change(ConnState::Handshaking, ConnState::Ready),
            LifecycleAction::Serve,
        ]
    );
    assert_eq!(life.enter(ConnState::Degraded), Some(StateChange { from: ConnState::Ready, to: ConnState::Degraded }));
    assert_eq!(life.enter(ConnState::Degraded), None);
    for _ in 0..10 {
        life.on_connection_ended(false);
    }
    assert_eq!(life.backoff_ms, 5000);
    assert_eq!(
        life.on_connection_ended(true),
        vec![change(ConnState::Connecting, ConnState::Disconnected), LifecycleAction::Close, LifecycleAction::Stop]
    );
}

#[test]
fn session_without_reconnect_stops_after_a_failure() {
    let mut config = SessionConfig::default();
    config.reconnect_enabled = false;
    let mut life = SessionLifecycle::new(config);
    life.start();
    assert_eq!(
        life.on_connect_failed(),
        vec![
            LifecycleAction::Announce(StateChange { from: ConnState::Connecting, to: ConnState::Disconnected }),
            LifecycleAction::Close,
            LifecycleAction::Stop,
        ]
    );
    assert_eq!(life.state, ConnState::Disconnected);
}
