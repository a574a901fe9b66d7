use demo2::telemetry::TelemetrySourceKind;
use demo2::ui_models::{AlarmRecordData, AlarmRecordRow, AlarmRecordState, ReplayMode, TestSignalView};
use demo2::ui_queries::{
    time_range_in_range,
    alarm_record_page, default_time_inputs, detect_view_for_sample, is_self_test_status,
    outcome_text, parse_time_range, plan_can_replay_export, plan_can_replay_load,
    replay_alarm_series, replay_loaded_text, replay_refusal_text, RecordsRequestError,
    ReplayRequestError, ReplaySelection, ReplaySeries, TimeRangeError,
};

fn row(ts_ms: i64, alarm_id: &str) -> AlarmRecordRow {
    AlarmRecordRow {
        ts_ms,
        device_id: "can://a:ch0".to_string(),
        alarm_id: alarm_id.to_string(),
        level: "Warning".to_string(),
        message: String::new(),
        cleared: false,
    }
}

fn window(start: &str, end: &str) -> AlarmRecordState {
    let mut st = AlarmRecordState::new("dsn".to_string());
    st.start_ts_input = start.to_string();
    st.end_ts_input = end.to_string();
    st
}

#[test]
fn time_ranges_need_two_readable_times_in_order() {
    assert_eq!(parse_time_range("1000", " 2000 "), Ok((1000, 2000)));
    assert_eq!(parse_time_range("1970-01-01 08:00:01", "2000"), Ok((1000, 2000)));
    assert_eq!(parse_time_range("", "2000"), Err(TimeRangeError::InvalidStart));
    assert_eq!(parse_time_range("1000", "soon"), Err(TimeRangeError::InvalidEnd));
    assert_eq!(parse_time_range("2000", "2000"), Err(TimeRangeError::NotIncreasing));
}

#[test]
fn replay_load_waits_for_the_previous_one() {
    assert_eq!(plan_can_replay_load(true, "", ""), Err(ReplayRequestError::Busy));
    assert_eq!(plan_can_replay_load(false, "1", "2"), Ok((1, 2)));
    let err = plan_can_replay_load(false, "x", "2").unwrap_err();
    assert_eq!(err, ReplayRequestError::Range(TimeRangeError::InvalidStart));
    assert_eq!(replay_refusal_text(err, false), "开始时间请输入 ts_ms 或 YYYY-MM-DD HH:MM:SS");
    assert_eq!(replay_refusal_text(ReplayRequestError::Busy, false), "正在加载，请稍候");
    assert_eq!(replay_refusal_text(ReplayRequestError::Busy, true), "正在导出，请稍候...");
}

#[test]
fn exports_write_only_series_the_mode_has() {
    let only_uv = ReplaySelection { x: false, y: false, z: false, u: true, v: true };
    assert_eq!(
        plan_can_replay_export(false, "1", "2", ReplayMode::Can3Axis, only_uv),
        Err(ReplayRequestError::NoSeriesSelected)
    );
    assert_eq!(
        plan_can_replay_export(false, "1", "2", ReplayMode::Sent, only_uv),
        Ok((1, 2, only_uv))
    );
    let all = ReplaySelection { x: true, y: true, z: true, u: true, v: true };
    assert_eq!(
        plan_can_replay_export(false, "1", "2", ReplayMode::Can3Axis, all),
        Ok((1, 2, ReplaySelection { x: true, y: true, z: true, u: false, v: false }))
    );
    assert_eq!(
        replay_refusal_text(ReplayRequestError::NoSeriesSelected, true),
        "至少勾选一个轴后再导出"
    );
}

#[test]
fn replayed_alarms_land_on_their_series() {
    assert_eq!(replay_alarm_series(ReplayMode::Can3Axis, "can_y_h", ""), Some(ReplaySeries::Y));
    assert_eq!(replay_alarm_series(ReplayMode::Can3Axis, "sent_angle_jump_t1", ""), None);
    assert_eq!(replay_alarm_series(ReplayMode::Sent, "sent_torque_jump_t1", ""), Some(ReplaySeries::Y));
    assert_eq!(replay_alarm_series(ReplayMode::Sent, "sent_angle_jump_t1", ""), Some(ReplaySeries::X));
    assert_eq!(replay_alarm_series(ReplayMode::Sent, "sent_torque_jump_t2", ""), Some(ReplaySeries::U));
    assert_eq!(replay_alarm_series(ReplayMode::Sent, "sent_error", "t2=1 s=0"), Some(ReplaySeries::Z));
    assert_eq!(replay_alarm_series(ReplayMode::Sent, "sent_error", "t1=0 s=1"), Some(ReplaySeries::V));
    assert_eq!(replay_alarm_series(ReplayMode::Sent, "can_x_h", ""), None);
}

#[test]
fn live_samples_pick_their_view() {
    assert_eq!(detect_view_for_sample(TelemetrySourceKind::CanSent, "can://a", 0), Some(TestSignalView::Sent));
    assert_eq!(detect_view_for_sample(TelemetrySourceKind::SerialDemo, "x", 9), Some(TestSignalView::Demo));
    assert_eq!(detect_view_for_sample(TelemetrySourceKind::Unknown, "can://a", 9), Some(TestSignalView::CanFrame));
    assert_eq!(detect_view_for_sample(TelemetrySourceKind::FrameStream, "tcp://b", 9), Some(TestSignalView::TcpFrame));
    assert_eq!(detect_view_for_sample(TelemetrySourceKind::Unknown, "serial", 4), Some(TestSignalView::Sent));
    assert_eq!(detect_view_for_sample(TelemetrySourceKind::Unknown, "serial", 5), None);
}

#[test]
fn record_pages_are_requested_with_offset_and_one_extra_row() {
    let mut st = window("1000", "2000");
    let q = st.begin_page_request(2).unwrap();
    assert_eq!((q.start_ts_ms, q.end_ts_ms), (1000, 2000));
    assert_eq!((q.page_index, q.offset, q.fetch_limit), (2, 100, 51));
    assert!(st.loading);
    assert_eq!(st.status, "正在加载第 3 页报警记录...");
    assert!(st.begin_page_request(0).is_none());
    assert_eq!(st.status, "正在加载，请稍候");

    let mut st = window("1000", "2000");
    let q = st.begin_page_request(-4).unwrap();
    assert_eq!((q.page_index, q.offset), (0, 0));

    let mut st = window("2000", "1000");
    assert!(st.begin_page_request(0).is_none());
    assert!(!st.loading);
    assert_eq!(st.status, "结束时间必须大于开始时间");

    let mut st = window("1000", "2000");
    st.show_can_x = false;
    st.show_can_y = false;
    st.show_can_z = false;
    st.show_can_timeout = false;
    st.show_sent_t1 = false;
    st.show_sent_t2 = false;
    st.show_sent_s = false;
    assert!(st.begin_page_request(0).is_none());
    assert_eq!(st.status, "至少选择一个分组");
    let _ = RecordsRequestError::NoGroupSelected;
}

#[test]
fn fetched_rows_make_a_page_and_tell_whether_more_follow() {
    let rows: Vec<AlarmRecordRow> = (0..51).map(|i| row(i, "can_x_h")).collect();
    let page = alarm_record_page(rows, 1, 120);
    assert_eq!(page.records.len(), 50);
    assert!(page.has_next);
    assert_eq!(page.records[49].ts_ms, 49);
    let page = alarm_record_page(vec![row(5, "can_x_h")], 0, 1);
    assert_eq!(page.records.len(), 1);
    assert!(!page.has_next);
}

#[test]
fn finished_pages_set_the_status_line() {
    let mut st = window("1000", "2000");
    st.begin_page_request(0).unwrap();
    st.finish_page_request(Ok(AlarmRecordData {
        records: vec![row(5, "can_x_h"), row(6, "can_y_l")],
        page_index: 0,
        has_next: true,
        total_count: 60,
    }));
    assert!(!st.loading);
    assert!(st.has_next);
    assert_eq!(st.status, "page 1, 2 alarm records, total 60");
    st.finish_page_request(Ok(AlarmRecordData { records: vec![], page_index: 1, has_next: false, total_count: 60 }));
    assert_eq!(st.status, "page 2 has no alarm records, total 60");
    assert_eq!(st.page_index, 1);
    st.finish_page_request(Err("db down".to_string()));
    assert_eq!(st.status, "load failed: db down");
    assert!(st.data.is_none());
}

#[test]
fn replay_from_records_spans_the_page_with_context() {
    let mut st = window("1000", "2000");
    assert!(st.replay_from_records().is_none());
    assert_eq!(st.status, "请先加载报警记录");
    st.data = Some(AlarmRecordData { records: vec![], page_index: 0, has_next: false, total_count: 0 });
    assert!(st.replay_from_records().is_none());
    assert_eq!(st.status, "当前页没有报警记录，无法打开时间分布");

    st.data = Some(AlarmRecordData {
        records: vec![row(100_000, "can_x_h"), row(40_000, "can_y_h"), row(70_000, "can_z_l")],
        page_index: 0,
        has_next: false,
        total_count: 3,
    });
    st.show_can_y = false;
    let r = st.replay_from_records().unwrap();
    assert_eq!((r.start_ts_ms, r.end_ts_ms), (10_000, 130_000));
    assert_eq!(r.mode, ReplayMode::Can3Axis);
    assert_eq!(r.selection, ReplaySelection { x: true, y: false, z: true, u: false, v: false });

    st.show_can_x = false;
    st.show_can_z = false;
    st.show_sent_t1 = false;
    let r = st.replay_from_records().unwrap();
    assert_eq!(r.mode, ReplayMode::Sent);
    assert_eq!(r.selection, ReplaySelection { x: false, y: false, z: true, u: true, v: true });

    st.data = Some(AlarmRecordData { records: vec![row(i64::MIN + 5, "a")], page_index: 0, has_next: false, total_count: 1 });
    let r = st.replay_from_records().unwrap();
    assert_eq!((r.start_ts_ms, r.end_ts_ms), (i64::MIN, i64::MIN + 30_005));
}

#[test]
fn windows_open_on_the_last_five_minutes_when_blank() {
    assert_eq!(
        default_time_inputs(" ", "2000", 300_000, 300_000),
        Some(("1970-01-01 08:00:00".to_string(), "1970-01-01 08:05:00".to_string()))
    );
    assert_eq!(default_time_inputs("1", "2", 300_000, 300_000), None);
    let mut st = window("", "");
    st.open_at(600_000);
    assert!(st.open);
    assert_eq!(st.start_ts_input, "1970-01-01 08:05:00");
    assert_eq!(st.end_ts_input, "1970-01-01 08:10:00");
    let mut st = window("1", "2");
    st.open_now();
    assert_eq!(st.start_ts_input, "1");
}

#[test]
fn status_lines_after_loads_and_exports() {
    assert_eq!(replay_loaded_text(ReplayMode::Sent, true, 0, 0), "该时间段没有 SENT 数据");
    assert_eq!(replay_loaded_text(ReplayMode::Sent, false, 10, 10), "已加载 10 个回放点");
    assert_eq!(
        replay_loaded_text(ReplayMode::Can3Axis, false, 9000, 4000),
        "已加载 9000 个回放点，图表降采样显示 4000 个点"
    );
    assert_eq!(outcome_text(&Ok("a.txt".to_string()), "exported", "export failed"), "exported: a.txt");
    assert_eq!(outcome_text(&Err("disk".to_string()), "exported", "export failed"), "export failed: disk");
    assert!(is_self_test_status("CAN self-test passed"));
    assert!(!is_self_test_status("connected"));
}

#[test]
fn range_check_covers_only_the_texts_that_are_read() {
    assert!(time_range_in_range("1000", "2000"));
    assert!(!time_range_in_range("9223372036854775807-01-01", "1"));
    assert!(time_range_in_range("garbage", "9223372036854775807-01-01"));
    assert!(!time_range_in_range("1", "9223372036854775807-01-01"));
}
