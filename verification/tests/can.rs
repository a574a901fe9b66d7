use demo2::can::{
    candidate_can_configs, can_device_id, enqueue_can_tx, CanTxQueue, format_can_channels, format_can_frame,
    format_can_target, normalized_can_channels, normalized_watchdog_targets, CanChannelConfig,
    CanFrame, CanSignalWatchdogConfig, CanSignalWatchdogTarget, CanTransportConfig, CanTxFrame,
    SentFilterConfig, HW_SUBTYPE_TC1012, HW_SUBTYPE_TC1016,
};
use demo2::can_ingress::{CanClock, CanIngressCore, CanIngressEvent, FrameOutcome};
use std::collections::HashSet;
use std::time::SystemTime;

fn axis_frame(channel: u8, value: i32) -> CanFrame {
    let mut data = [0u8; 64];
    data[..4].copy_from_slice(&value.to_be_bytes());
    CanFrame { channel, properties: 0, dlc: 4, identifier: 0x100, timestamp_us: 0, data }
}

fn two_channel_config() -> CanTransportConfig {
    let mut config = CanTransportConfig::default();
    config.channels = vec![
        CanChannelConfig { index: 0, arbitration_baud_kbps: 500, data_baud_kbps: 2_000 },
        CanChannelConfig { index: 1, arbitration_baud_kbps: 500, data_baud_kbps: 2_000 },
    ];
    config
}

fn alarm_ids(events: &[CanIngressEvent]) -> HashSet<String> {
    events
        .iter()
        .filter_map(|event| match event {
            CanIngressEvent::AlarmRaised(alarm) | CanIngressEvent::AlarmCleared(alarm) => {
                Some(alarm.alarm_id.clone())
            }
            _ => None,
        })
        .collect()
}

fn outcome_events(outcome: &FrameOutcome) -> Vec<&CanIngressEvent> {
    outcome.head.iter().chain(outcome.tail.iter()).collect()
}

fn outcome_alarm_ids(outcome: &FrameOutcome) -> HashSet<String> {
    outcome_events(outcome)
        .into_iter()
        .filter_map(|event| match event {
            CanIngressEvent::AlarmRaised(alarm) | CanIngressEvent::AlarmCleared(alarm) => {
                Some(alarm.alarm_id.clone())
            }
            _ => None,
        })
        .collect()
}

fn axis_frame_count(outcome: &FrameOutcome) -> Option<u64> {
    outcome.signals.axis.map(|_| outcome.frame_count)
}

#[test]
fn explicit_tc1016_probes_its_four_physical_channels() {
    assert_eq!(HW_SUBTYPE_TC1016, 11);

    let config = CanTransportConfig::default();
    let candidates = candidate_can_configs(&config);

    assert_eq!(candidates.len(), 4);
    assert!(candidates.iter().all(|candidate| {
        candidate.hardware_name == "TC1016" && candidate.hardware_subtype == HW_SUBTYPE_TC1016
    }));
    assert_eq!(
        candidates.iter().map(|candidate| candidate.channels[0].index).collect::<Vec<_>>(),
        vec![0, 1, 2, 3]
    );
}

#[test]
fn auto_hardware_name_pairs_models_with_their_subtypes() {
    let mut config = CanTransportConfig::default();
    config.hardware_name = "auto".to_string();
    let candidates = candidate_can_configs(&config);

    assert!(candidates.iter().any(|candidate| {
        candidate.hardware_name == "TC1016" && candidate.hardware_subtype == HW_SUBTYPE_TC1016
    }));
    assert!(candidates.iter().any(|candidate| {
        candidate.hardware_name == "TC1012" && candidate.hardware_subtype == HW_SUBTYPE_TC1012
    }));
}

#[test]
fn several_configured_channels_are_probed_as_one_list() {
    let config = two_channel_config();
    let candidates = candidate_can_configs(&config);
    assert_eq!(candidates.len(), 1);
    assert_eq!(candidates[0].channels, config.channels);
}

#[test]
fn empty_channel_list_falls_back_to_channel_zero() {
    let mut config = CanTransportConfig::default();
    config.channels.clear();
    assert_eq!(
        normalized_can_channels(&config),
        vec![CanChannelConfig { index: 0, arbitration_baud_kbps: 500, data_baud_kbps: 2000 }]
    );
}

#[test]
fn can_texts_are_stable() {
    let config = two_channel_config();
    assert_eq!(format_can_channels(&config.channels), "ch0:500kbps/2000kbps,ch1:500kbps/2000kbps");
    assert_eq!(
        format_can_target(&config),
        "hw=TC1016 subtype=11 channels=ch0:500kbps/2000kbps,ch1:500kbps/2000kbps"
    );
    assert_eq!(can_device_id(&config, 1), "can://TC1016:ch1");
    let mut frame = axis_frame(1, 0x01020304);
    frame.properties = 1;
    frame.timestamp_us = 77;
    assert_eq!(format_can_frame(&frame), "TX ch=1 id=0x100 dlc=4 ts=77us data=01 02 03 04");
}

#[test]
fn sent_filter_defaults_to_ten_samples() {
    let config = SentFilterConfig::default();
    assert!(config.enabled);
    assert_eq!(config.window_size, 10);
}

#[test]
fn watchdog_targets_keep_only_configured_channels() {
    let config = two_channel_config();
    let watchdog_config = CanSignalWatchdogConfig {
        enabled: true,
        timeout_ms: 2000,
        targets: vec![
            CanSignalWatchdogTarget { channel: 1, identifier: Some(0x100), label: "a".to_string() },
            CanSignalWatchdogTarget { channel: 3, identifier: None, label: "b".to_string() },
        ],
    };
    let targets = normalized_watchdog_targets(&watchdog_config, &config.channels);
    assert_eq!(targets.len(), 1);
    assert_eq!(targets[0].channel, 1);
    let disabled = CanSignalWatchdogConfig { enabled: false, ..CanSignalWatchdogConfig::default() };
    assert!(normalized_watchdog_targets(&disabled, &config.channels).is_empty());
    let every = normalized_watchdog_targets(&CanSignalWatchdogConfig::default(), &config.channels);
    assert_eq!(every[1].label, "Channel 1 signal");
}

#[test]
fn can_core_keeps_frame_count_order_per_channel() {
    let config = CanTransportConfig::default();
    let observed_at = 0;
    let mut core =
        CanIngressCore::new(&CanSignalWatchdogConfig::default(), &config.channels, observed_at);
    let now = SystemTime::UNIX_EPOCH;

    let first_ch0 = core.handle_frame(&config, &axis_frame(0, 10), now, observed_at);
    let first_ch1 = core.handle_frame(&config, &axis_frame(1, 20), now, observed_at);
    let second_ch0 = core.handle_frame(&config, &axis_frame(0, 30), now, observed_at);

    assert_eq!(axis_frame_count(&first_ch0), Some(1));
    assert_eq!(axis_frame_count(&first_ch1), Some(1));
    assert_eq!(axis_frame_count(&second_ch0), Some(2));
}

#[test]
fn watchdogs_raise_and_clear_independently_per_channel() {
    let config = two_channel_config();
    let started_at = 0;
    let watchdog_config = CanSignalWatchdogConfig {
        enabled: true,
        timeout_ms: 2_000,
        targets: vec![
            CanSignalWatchdogTarget {
                channel: 0,
                identifier: Some(0x100),
                label: "channel zero axis".to_string(),
            },
            CanSignalWatchdogTarget {
                channel: 1,
                identifier: Some(0x100),
                label: "channel one axis".to_string(),
            },
        ],
    };
    let mut core = CanIngressCore::new(&watchdog_config, &config.channels, started_at);

    let raised = core.poll_signal_timeouts(&config, started_at + 2_000, SystemTime::UNIX_EPOCH);
    assert_eq!(
        alarm_ids(&raised),
        HashSet::from([
            "can_signal_timeout_ch0_id100".to_string(),
            "can_signal_timeout_ch1_id100".to_string(),
        ])
    );

    let restored =
        core.handle_frame(&config, &axis_frame(0, 10), SystemTime::UNIX_EPOCH, started_at + 3_000);
    assert_eq!(
        outcome_alarm_ids(&restored),
        HashSet::from(["can_signal_timeout_ch0_id100".to_string()])
    );
    assert!(outcome_events(&restored).iter().any(|event| matches!(
        event,
        CanIngressEvent::AlarmCleared(alarm) if alarm.device_id == "can://TC1016:ch0"
    )));

    let no_duplicate = core.poll_signal_timeouts(&config, started_at + 3_000, SystemTime::UNIX_EPOCH);
    assert!(no_duplicate.is_empty());
}

#[test]
fn empty_watchdog_targets_monitor_every_configured_channel() {
    let config = two_channel_config();
    let core = CanIngressCore::new(&CanSignalWatchdogConfig::default(), &config.channels, 0);

    let watched = core.watched_signals();
    assert_eq!(watched.len(), 2);
    assert!(watched.iter().all(|(_, identifier)| identifier.is_none()));
}

#[test]
fn exact_can_id_watchdog_accepts_an_rx_frame_without_a_business_decoder() {
    let config = CanTransportConfig::default();
    let started_at = 0;
    let watchdog_config = CanSignalWatchdogConfig {
        enabled: true,
        timeout_ms: 2_000,
        targets: vec![CanSignalWatchdogTarget {
            channel: 0,
            identifier: Some(0x555),
            label: "custom signal".to_string(),
        }],
    };
    let mut core = CanIngressCore::new(&watchdog_config, &config.channels, started_at);
    core.poll_signal_timeouts(&config, started_at + 2_000, SystemTime::UNIX_EPOCH);
    let frame =
        CanFrame { channel: 0, properties: 0, dlc: 1, identifier: 0x555, timestamp_us: 0, data: [0; 64] };

    let restored = core.handle_frame(&config, &frame, SystemTime::UNIX_EPOCH, started_at + 3_000);

    assert!(outcome_events(&restored).iter().any(|event| matches!(
        event,
        CanIngressEvent::AlarmCleared(alarm)
            if alarm.alarm_id == "can_signal_timeout_ch0_id555"
    )));
}

#[test]
fn timeout_alarm_text_names_the_signal() {
    let config = CanTransportConfig::default();
    let watchdog_config = CanSignalWatchdogConfig {
        enabled: true,
        timeout_ms: 1_500,
        targets: vec![CanSignalWatchdogTarget {
            channel: 0,
            identifier: Some(0x1F),
            label: "pedal".to_string(),
        }],
    };
    let mut core = CanIngressCore::new(&watchdog_config, &config.channels, 0);
    assert!(core.poll_signal_timeouts(&config, 1_499, SystemTime::UNIX_EPOCH).is_empty());
    let raised = core.poll_signal_timeouts(&config, 1_500, SystemTime::UNIX_EPOCH);
    assert_eq!(raised.len(), 1);
    match &raised[0] {
        CanIngressEvent::AlarmRaised(alarm) => {
            assert_eq!(alarm.alarm_id, "can_signal_timeout_ch0_id01F");
            assert_eq!(
                alarm.message,
                "channel=0, signal=pedal, target=CAN ID 0x1F, timeout_ms=1500, state=interrupted"
            );
            assert!(!alarm.cleared);
        }
        _ => panic!("expected a raised alarm"),
    }
}

#[test]
fn sent_error_types_raise_once_and_clear_together() {
    let config = CanTransportConfig::default();
    let mut core = CanIngressCore::new(&CanSignalWatchdogConfig::default(), &config.channels, 0);
    let mut frame = CanFrame { channel: 0, properties: 0, dlc: 4, identifier: 3, timestamp_us: 0, data: [0; 64] };
    frame.data[..4].copy_from_slice(&[2, 1, 0, 0]);
    let first = core.handle_frame(&config, &frame, SystemTime::UNIX_EPOCH, 0);
    assert_eq!(first.head.len(), 2);
    match &first.head[1] {
        CanIngressEvent::Status(text) => assert_eq!(text, "SENT error type=2 t1=1 t2=0 s=0 active"),
        _ => panic!("expected the error text"),
    }
    let again = core.handle_frame(&config, &frame, SystemTime::UNIX_EPOCH, 0);
    assert!(again.head.is_empty());
    frame.data[..4].copy_from_slice(&[0, 0, 0, 0]);
    let cleared = core.handle_frame(&config, &frame, SystemTime::UNIX_EPOCH, 0);
    assert_eq!(cleared.head.len(), 2);
    match &cleared.head[0] {
        CanIngressEvent::AlarmCleared(alarm) => assert_eq!(alarm.alarm_id, "sent_error_2"),
        _ => panic!("expected the error cleared"),
    }
}

#[test]
fn self_test_reply_is_reported_and_frames_are_logged() {
    let config = CanTransportConfig::default();
    let mut core = CanIngressCore::new(&CanSignalWatchdogConfig::default(), &config.channels, 0);
    let mut frame = CanFrame { channel: 0, properties: 0, dlc: 3, identifier: 0x123, timestamp_us: 5, data: [0; 64] };
    frame.data[..3].copy_from_slice(&[1, 0, 1]);
    let outcome = core.handle_frame(&config, &frame, SystemTime::UNIX_EPOCH, 0);
    match &outcome.head[0] {
        CanIngressEvent::Status(text) => assert_eq!(text, "CAN 自检结果: X=通过 Y=失败 Z=通过"),
        _ => panic!("expected the self-test report"),
    }
    match &outcome.tail[1] {
        CanIngressEvent::Log { device_id, level, msg } => {
            assert_eq!(device_id, "can://TC1016:ch0");
            assert_eq!(*level, "info");
            assert_eq!(msg, "can://TC1016:ch0 frame=1 RX ch=0 id=0x123 dlc=3 ts=5us data=01 00 01");
        }
        _ => panic!("expected the frame log"),
    }
}

#[test]
fn hardware_spacing_survives_late_callbacks_and_clock_resets() {
    let start: u64 = 100_000_000;
    let mut clock = CanClock::new();
    assert_eq!(clock.capture(1_000_000, start).captured_at_us, start);
    let next = clock.capture(1_002_000, start + 5_000_000);
    assert_eq!(next.captured_at_us, start + 2_000);
    assert_eq!(next.elapsed_us as f64 / 1_000_000.0, 0.002);
    let reset = clock.capture(10, start + 6_000_000);
    assert_eq!(reset.captured_at_us, start + 6_000_000);
    assert_eq!(reset.elapsed_us as f64 / 1_000_000.0, 6.0);
    let next = clock.capture(1_010, start + 7_000_000);
    assert_eq!(next.captured_at_us, start + 6_001_000);
}

#[test]
fn unavailable_clock_uses_callback_time_without_resetting_valid_anchor() {
    let start: u64 = 100_000_000;
    let mut clock = CanClock::new();
    assert_eq!(clock.capture(0, start).captured_at_us, start);
    clock.capture(100, start + 1_000_000);
    assert_eq!(clock.capture(0, start + 2_000_000).elapsed_us as f64 / 1_000_000.0, 2.0);
    assert_eq!(clock.capture(1_100, start + 3_000_000).elapsed_us as f64 / 1_000_000.0, 1.001);
}

#[test]
fn tx_queue_reports_missing_and_closed_channels() {
    let frame = CanTxFrame::new(0, 0x123, 8, [0xA5, 0x22, 0x33, 0x44, 0x55, 0x66, 0x77, 0x88]);
    assert_eq!(enqueue_can_tx(&mut None, frame), Err("collector CAN channel not ready".to_string()));
    let (tx, mut rx) = tokio::sync::mpsc::unbounded_channel();
    let mut queue = Some(CanTxQueue::new(tx));
    assert_eq!(enqueue_can_tx(&mut queue, frame), Ok(()));
    assert_eq!(rx.try_recv().map(|f: CanTxFrame| f.identifier), Ok(0x123));
    drop(rx);
    assert_eq!(
        enqueue_can_tx(&mut queue, frame),
        Err("collector CAN TX enqueue failed: channel closed".to_string())
    );
}

#[test]
fn self_test_request_reports_whether_it_was_queued() {
    let frame = demo2::can::self_test_frame();
    assert_eq!((frame.channel, frame.identifier, frame.dlc), (0, 0x123, 8));
    assert_eq!(frame.data, [0xA5, 0x22, 0x33, 0x44, 0x55, 0x66, 0x77, 0x88]);
    assert_eq!(
        demo2::can::request_self_test(&mut None),
        "CAN self-test failed: collector CAN channel not ready"
    );
    let (tx, mut rx) = tokio::sync::mpsc::unbounded_channel();
    let mut queue = Some(CanTxQueue::new(tx));
    assert_eq!(
        demo2::can::request_self_test(&mut queue),
        "CAN self-test queued: id=0x123 dlc=8 data=[A5, 22, 33, 44, 55, 66, 77, 88]，等待 collector 回报自检结果"
    );
    assert_eq!(rx.try_recv().unwrap().identifier, 0x123);
    drop(rx);
    assert_eq!(
        demo2::can::request_self_test(&mut queue),
        "CAN self-test failed: collector CAN TX enqueue failed: channel closed"
    );
}

#[test]
fn capture_times_never_go_back() {
    let mut clock = CanClock::new();
    assert_eq!(clock.capture(0, 10_000_000).captured_at_us, 10_000_000);
    // The host clock stepped back.
    assert_eq!(clock.capture(0, 1_000_000).captured_at_us, 10_000_000);
    // A device clock restart anchored at an earlier host time.
    let t = clock.capture(50, 2_000_000);
    assert_eq!(t.captured_at_us, 10_000_000);
    assert_eq!(t.elapsed_us, 0);
    assert_eq!(clock.capture(0, 12_000_000).captured_at_us, 12_000_000);
}
