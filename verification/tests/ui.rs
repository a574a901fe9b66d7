use demo2::ui_time::time_input_in_range;
use demo2::alarm::{AlarmEvent, AlarmLevel, SentJumpLevel};
use demo2::ui_models::{
    next_window_group, TestSignalView, WindowGroups,
    alarm_level_rank, alarm_level_text, can_channel_from_device_id, format_ts_ms,
    is_can_signal_timeout, sent_angle_jump_alarm_id, sent_jump_alarm_id, sent_jump_level_text,
    AlarmRecordData, AlarmRecordState, ReplayMode, SignalBinding,
};
use demo2::ui_time::{
    civil_from_days, days_from_civil, default_can_export_filename, format_alarm_datetime,
    format_datetime_for_filename, format_datetime_input, parse_time_input,
};
use std::time::{Duration, SystemTime};

#[test]
fn civil_dates_convert_both_ways() {
    assert_eq!(days_from_civil(1970, 1, 1), 0);
    assert_eq!(days_from_civil(2000, 3, 1), 11_017);
    assert_eq!(civil_from_days(11_017), (2000, 3, 1));
    assert_eq!(civil_from_days(-1), (1969, 12, 31));
    assert_eq!(civil_from_days(days_from_civil(2024, 2, 29)), (2024, 2, 29));
}

#[test]
fn timestamps_render_in_the_display_time_zone() {
    assert_eq!(format_datetime_input(0), "1970-01-01 08:00:00");
    assert_eq!(format_datetime_input(-1), "1970-01-01 07:59:59");
    assert_eq!(format_datetime_for_filename(1_700_000_000_000), "11-15_06-13-20");
    assert_eq!(
        default_can_export_filename(0, 1_000, 86_400_000),
        "can_export_01-02_08-00-00_01-01_08-00-00_01-01_08-00-01.txt"
    );
    assert_eq!(
        format_alarm_datetime(SystemTime::UNIX_EPOCH + Duration::from_secs(3_600)),
        "01/01 09:00:00"
    );
    assert_eq!(format_ts_ms(1_000), "08:00:01");
}

#[test]
fn signal_bindings_name_their_windows() {
    assert_eq!(SignalBinding::CanAxisY.title(3), "can_y_3");
    assert_eq!(SignalBinding::TcpSensor(7).title(1), "tcp_sensor_7_1");
    assert_eq!(SignalBinding::Sent2P2.sensor_id(), 3);
    assert_eq!(SignalBinding::TcpSensor(9).sensor_id(), 9);
    assert!(SignalBinding::TcpSensor(0).uses_tcp_series());
    assert_eq!(SignalBinding::Sent3Angle.chart_label(), Some("SENT S angle"));
    assert_eq!(SignalBinding::TcpSensor(0).chart_label(), None);
    assert!(SignalBinding::CanAxisZ.is_can_axis());
    assert!(!SignalBinding::DemoAxisX.is_can_axis());
    assert_eq!(SignalBinding::Sent1P1.value_label(), "torque");
    assert_eq!(SignalBinding::CanAxisX.value_label(), "raw");
    assert_eq!(SignalBinding::DemoAxisY.demo_derived_angle_id(), Some("sensor_1_angle"));
}

#[test]
fn replay_modes_label_their_series() {
    assert_eq!(ReplayMode::Sent.series_labels()[4], "S angle");
    assert_eq!(ReplayMode::Can3Axis.axis_filters(), ["x", "y", "z", "__unused_4__", "__unused_5__"]);
    assert_eq!(ReplayMode::Can3Axis.export_header(), "# CAN 3-axis export");
    assert_eq!(ReplayMode::Sent.load_status(), "正在加载 SENT 回放数据...");
    assert_eq!(ReplayMode::Can3Axis.empty_status(), "该时间段没有 3轴 数据");
}

#[test]
fn alarm_records_start_closed_and_empty() {
    let state = AlarmRecordState::new("dsn".to_string());
    assert!(!state.open && state.data.is_none());
    assert_eq!(state.status, "未加载");
    let data = AlarmRecordData { records: vec![], page_index: 0, has_next: false, total_count: 0 };
    assert!(data.is_empty());
}

#[test]
fn alarm_levels_rank_and_name() {
    assert!(alarm_level_rank(&AlarmLevel::Purple) > alarm_level_rank(&AlarmLevel::Critical));
    assert_eq!(alarm_level_text(&AlarmLevel::Warning), "WARNING");
    assert_eq!(sent_jump_level_text(SentJumpLevel::Critical), "RED");
    assert_eq!(sent_jump_alarm_id(1), "sent_torque_jump_t1");
    assert_eq!(sent_jump_alarm_id(3), "sent_torque_jump_t2");
    assert_eq!(sent_angle_jump_alarm_id(4), "sent_angle_jump_s");
    assert_eq!(sent_angle_jump_alarm_id(5), "sent_angle_jump_unknown");
}

#[test]
fn signal_timeouts_are_recognised_by_id_and_channel() {
    assert_eq!(can_channel_from_device_id("can://TC1016:ch3"), Some(3));
    assert_eq!(can_channel_from_device_id("can://a:ch1:ch12"), Some(12));
    assert_eq!(can_channel_from_device_id("tcp://x"), None);
    let event = AlarmEvent {
        device_id: "can://TC1016:ch0".to_string(),
        alarm_id: "can_signal_timeout_ch0_any".to_string(),
        level: AlarmLevel::Critical,
        message: String::new(),
        raised_at: SystemTime::UNIX_EPOCH,
        cleared: false,
    };
    assert!(is_can_signal_timeout(&event));
    let other = AlarmEvent { alarm_id: "sent_error_1".to_string(), ..event.clone() };
    assert!(!is_can_signal_timeout(&other));
}

#[test]
fn typed_times_read_as_local_date_time_or_milliseconds() {
    assert_eq!(parse_time_input(" 1700000000000 "), Some(1_700_000_000_000));
    assert_eq!(parse_time_input("2023-11-15 06:13:20"), Some(1_700_000_000_000));
    assert_eq!(parse_time_input("2023/11/15T06:13:20"), Some(1_700_000_000_000));
    assert_eq!(parse_time_input("2023-11-15"), Some(1_699_977_600_000));
    assert_eq!(parse_time_input("2023-11-15 6"), Some(1_699_999_200_000));
    assert_eq!(parse_time_input("1969-12-31 23:59:59"), Some(-28_801_000));
    assert_eq!(parse_time_input("   "), None);
    assert_eq!(parse_time_input("2023-13-01"), None);
    assert_eq!(parse_time_input("2023-11-15 06:13:20 x"), None);
    assert_eq!(parse_time_input("2023-11 06:13"), None);
    assert_eq!(parse_time_input("2023-11-15 06:13:20:01"), None);
}

#[test]
fn formatted_time_reads_back() {
    let ts = 1_700_000_000_000;
    assert_eq!(parse_time_input(&format_datetime_input(ts)), Some(ts));
}

#[test]
fn formatted_time_reads_back_rounded_down_to_the_second() {
    assert_eq!(parse_time_input(&format_datetime_input(0)), Some(0));
    assert_eq!(parse_time_input(&format_datetime_input(1_234)), Some(1_000));
    let last = 253_402_271_999_999;
    assert_eq!(format_datetime_input(last), "9999-12-31 23:59:59");
    assert_eq!(parse_time_input(&format_datetime_input(last)), Some(last - 999));
}

#[test]
fn typed_times_far_out_of_range_are_detected() {
    assert!(time_input_in_range("2024-02-29 23:59:59"));
    assert!(time_input_in_range("1700000000000"));
    assert!(time_input_in_range("not a time"));
    assert!(time_input_in_range(""));
    assert!(time_input_in_range("-5000-01-01"));
    assert!(!time_input_in_range("9223372036854775807-01-01"));
    assert!(!time_input_in_range("100000000000000-01-01"));
    assert!(time_input_in_range("100000000-01-01"));
    assert_eq!(parse_time_input("100000000-01-01"), Some(3_155_633_032_752_000_000));
    assert_eq!(parse_time_input("-5000-01-01"), None);
}

#[test]
fn window_groups_number_their_windows_per_view() {
    let mut groups = WindowGroups::new();
    let sent = next_window_group(TestSignalView::Sent, &mut groups, &[]);
    let titles: Vec<&str> = sent.iter().map(|(t, _)| t.as_str()).collect();
    assert_eq!(titles, ["sent_t1_angle_1", "sent_t1_torque_1", "sent_t2_angle_1", "sent_t2_torque_1", "sent_s_angle_1"]);
    assert_eq!(groups.sent, 2);
    let can = next_window_group(TestSignalView::CanFrame, &mut groups, &[]);
    assert_eq!(can[2], ("can_z_1".to_string(), SignalBinding::CanAxisZ));
    let existing = [Some(SignalBinding::TcpSensor(2)), None, Some(SignalBinding::TcpSensor(5)), Some(SignalBinding::CanAxisX)];
    let tcp = next_window_group(TestSignalView::TcpFrame, &mut groups, &existing);
    assert_eq!(tcp.len(), 4);
    assert_eq!(tcp[0], ("tcp_sensor_5_1".to_string(), SignalBinding::TcpSensor(5)));
    assert_eq!(tcp[3].1, SignalBinding::TcpSensor(8));
    let tcp2 = next_window_group(TestSignalView::TcpFrame, &mut groups, &[Some(SignalBinding::TcpSensor(usize::MAX - 1))]);
    assert_eq!(tcp2.len(), 1);
    assert_eq!(tcp2[0].0, format!("tcp_sensor_{}_2", usize::MAX - 1));
    assert_eq!(groups, WindowGroups { demo: 1, sent: 2, can: 2, tcp: 3 });
}
