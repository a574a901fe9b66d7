use demo2::alarm::{
    history_ready, AlarmBound, AlarmLevel, CanAxisAlarmState, SentJumpLevel, ThresholdCheck,
};
use demo2::telemetry::{
    axis_name, is_sent_angle_sample, is_sent_torque_sample, sent_angle_label, sent_torque_label,
    TelemetrySourceKind,
};

#[test]
fn maps_axis_names_by_source() {
    assert_eq!(axis_name(TelemetrySourceKind::CanAxis, 0), "x");
    assert_eq!(axis_name(TelemetrySourceKind::SerialDemo, 2), "z");
    assert_eq!(axis_name(TelemetrySourceKind::CanSent, 3), "t2_torque");
    assert_eq!(axis_name(TelemetrySourceKind::TcpFrame, 3), "");
}

#[test]
fn only_sent_over_can_names_sent_signals() {
    assert_eq!(axis_name(TelemetrySourceKind::CanSent, 0), "t1_angle");
    assert_eq!(axis_name(TelemetrySourceKind::CanSent, 4), "s_angle");
    assert_eq!(axis_name(TelemetrySourceKind::CanSent, 5), "");
    assert_eq!(axis_name(TelemetrySourceKind::SerialSent1, 0), "");
    assert_eq!(axis_name(TelemetrySourceKind::SerialSent3, 4), "");
    assert_eq!(axis_name(TelemetrySourceKind::Unknown, 0), "");
}

#[test]
fn classifies_sent_samples() {
    assert!(is_sent_torque_sample(TelemetrySourceKind::CanSent, 1));
    assert!(is_sent_angle_sample(TelemetrySourceKind::SerialSent3, 4));
    assert!(!is_sent_torque_sample(TelemetrySourceKind::CanAxis, 1));
}

#[test]
fn sent_labels_name_each_sensor() {
    assert_eq!(sent_torque_label(1), "T1 torque");
    assert_eq!(sent_torque_label(3), "T2 torque");
    assert_eq!(sent_torque_label(0), "SENT torque");
    assert_eq!(sent_angle_label(0), "T1 angle");
    assert_eq!(sent_angle_label(2), "T2 angle");
    assert_eq!(sent_angle_label(4), "S angle");
    assert_eq!(sent_angle_label(1), "SENT angle");
}

#[test]
fn alarm_bounds_and_jump_levels_have_fixed_names() {
    assert_eq!(AlarmBound::High.short_code(), "h");
    assert_eq!(AlarmBound::Low.short_code(), "l");
    assert_eq!(AlarmBound::High.name(), "high");
    assert_eq!(AlarmBound::Low.name(), "low");
    assert_eq!(SentJumpLevel::Warning.alarm_level(), AlarmLevel::Warning);
    assert_eq!(SentJumpLevel::Critical.alarm_level(), AlarmLevel::Critical);
    assert_eq!(SentJumpLevel::Purple.alarm_level(), AlarmLevel::Purple);
    let state = CanAxisAlarmState::new();
    assert!(!state.high_active && !state.low_active);
}

#[test]
fn jump_history_is_ready_at_the_baseline_window() {
    assert!(!history_ready(9));
    assert!(history_ready(10));
}

#[test]
fn threshold_alarms_raise_once_and_clear_on_return() {
    let state = CanAxisAlarmState::new();
    let above = ThresholdCheck::Compared { reached: true, left: false };
    let inside = ThresholdCheck::Compared { reached: false, left: true };
    let (state, edges) = state.step_thresholds(above, ThresholdCheck::Unset);
    assert!(state.high_active);
    assert_eq!(edges.len(), 1);
    assert!(!edges[0].cleared && edges[0].bound == AlarmBound::High);
    let (state, edges) = state.step_thresholds(above, ThresholdCheck::Unset);
    assert!(edges.is_empty() && state.high_active);
    let (state, edges) = state.step_thresholds(inside, above);
    assert_eq!(edges.len(), 2);
    assert!(edges[0].cleared && edges[0].bound == AlarmBound::High);
    assert!(!edges[1].cleared && edges[1].bound == AlarmBound::Low);
    let (state, edges) = state.step_thresholds(inside, ThresholdCheck::Unset);
    assert!(!state.low_active);
    assert!(edges[0].cleared && edges[0].unset);
}
