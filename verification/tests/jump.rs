use demo2::alarm::{
    can_threshold_alarm_id, rule_alarm_id, AlarmBound, CanAxisAlarmState, SentJumpLevel,
    ThresholdCheck, SENT_JUMP_BASELINE_WINDOW,
};
use demo2::jump::{
    level_for, sent_angle_jump_alarm_id, sent_angle_red_axis, sent_torque_jump_alarm_id,
    torque_jump_events, BaselineWindow, SentAngleAxis, SentAngleJumpState, SentTorqueJumpState,
    SentTorqueJumpTransition,
};

fn high_check(threshold: Option<f64>, value: f64) -> ThresholdCheck {
    match threshold {
        Some(t) => ThresholdCheck::Compared { reached: value >= t, left: value < t },
        None => ThresholdCheck::Unset,
    }
}

fn low_check(threshold: Option<f64>, value: f64) -> ThresholdCheck {
    match threshold {
        Some(t) => ThresholdCheck::Compared { reached: value <= t, left: value > t },
        None => ThresholdCheck::Unset,
    }
}

/// Measures `value` against the baseline of `state` with the thresholds
/// warn 0.2, red 0.3, purple 0.4.
fn torque_step(
    state: SentTorqueJumpState<f64>,
    value: f64,
) -> (SentTorqueJumpState<f64>, Option<SentTorqueJumpTransition<f64>>) {
    let measured = state.baseline().map(|samples| {
        let mean = samples.iter().sum::<f64>() / samples.len() as f64;
        let delta = (value - mean).abs();
        (delta, level_for(delta >= 0.4, delta >= 0.3, delta > 0.2))
    });
    state.evaluate(value, measured)
}

#[test]
fn can_threshold_tracks_edges() {
    let state = CanAxisAlarmState::new();
    let (state, transitions) =
        state.step_thresholds(high_check(Some(10.0), 11.0), low_check(Some(-10.0), 11.0));
    assert!(state.high_active);
    assert_eq!(transitions.len(), 1);
    assert_eq!(transitions[0].bound, AlarmBound::High);
    assert!(!transitions[0].cleared);

    let (state, transitions) =
        state.step_thresholds(high_check(Some(10.0), 9.0), low_check(Some(-10.0), 9.0));
    assert!(!state.high_active);
    assert_eq!(transitions.len(), 1);
    assert!(transitions[0].cleared);
}

#[test]
fn torque_jump_uses_history_baseline() {
    let mut state = SentTorqueJumpState::new(0.0);
    for _ in 0..SENT_JUMP_BASELINE_WINDOW {
        let result = torque_step(state, 1.0);
        state = result.0;
        assert!(result.1.is_none());
    }

    let (state, transition) = torque_step(state, 1.35);
    assert_eq!(state.level, SentJumpLevel::Critical);
    assert_eq!(state.alert_count, 1);
    assert_eq!(transition.unwrap().next_level, SentJumpLevel::Critical);
}

#[test]
fn window_keeps_the_last_ten_samples() {
    let mut w = BaselineWindow::new(0u32);
    assert_eq!(w.len(), 0);
    for v in 1..=9u32 {
        w = w.push(v);
    }
    assert!(!w.is_ready());
    assert_eq!(w.samples(), (1..=9).collect::<Vec<u32>>());
    w = w.push(10);
    assert!(w.is_ready());
    w = w.push(11).push(12);
    assert_eq!(w.len(), 10);
    // Slot order: 11 and 12 overwrote the two oldest slots.
    assert_eq!(w.samples(), vec![11, 12, 3, 4, 5, 6, 7, 8, 9, 10]);
}

#[test]
fn torque_level_follows_threshold_comparisons() {
    assert_eq!(level_for(true, true, true), SentJumpLevel::Purple);
    assert_eq!(level_for(false, true, true), SentJumpLevel::Critical);
    assert_eq!(level_for(false, false, true), SentJumpLevel::Warning);
    assert_eq!(level_for(false, false, false), SentJumpLevel::Normal);
}

#[test]
fn torque_jump_before_a_full_history_measures_nothing() {
    let state = SentTorqueJumpState::new(0.0f64);
    assert!(state.baseline().is_none());
    let (state, t) = state.evaluate(5.0, None);
    assert!(t.is_none());
    assert_eq!(state.level, SentJumpLevel::Normal);
    assert_eq!(state.history.len(), 1);
}

#[test]
fn torque_level_change_clears_then_raises() {
    let state = SentTorqueJumpState::new(0i64);
    let (state, t) = state.evaluate(1, Some((5, SentJumpLevel::Warning)));
    let t = t.unwrap();
    assert_eq!(torque_jump_events(&t), vec![(SentJumpLevel::Warning, false)]);
    let (state, same) = state.evaluate(1, Some((6, SentJumpLevel::Warning)));
    assert!(same.is_none());
    assert_eq!(state.alert_count, 1);
    assert_eq!(state.last_delta, 6);
    let (state, t) = state.evaluate(1, Some((9, SentJumpLevel::Purple)));
    assert_eq!(
        torque_jump_events(&t.unwrap()),
        vec![(SentJumpLevel::Warning, true), (SentJumpLevel::Purple, false)]
    );
    assert_eq!(state.alert_count, 2);
    let (state, t) = state.evaluate(1, Some((0, SentJumpLevel::Normal)));
    assert_eq!(torque_jump_events(&t.unwrap()), vec![(SentJumpLevel::Purple, true)]);
    assert_eq!(state.alert_count, 2);
}

#[test]
fn angle_jump_raises_and_clears_once() {
    let state = SentAngleJumpState::new(0i32);
    let (state, t) = state.evaluate(1, Some((3, true)));
    assert!(state.active);
    assert!(!t.unwrap().cleared);
    let (state, t) = state.evaluate(1, Some((4, true)));
    assert!(t.is_none());
    assert_eq!(state.alert_count, 1);
    let (state, t) = state.evaluate(1, Some((0, false)));
    let t = t.unwrap();
    assert!(t.cleared);
    assert_eq!(t.delta_abs, 0);
    assert!(!state.active);
}

#[test]
fn jump_alarm_ids_name_the_sensor() {
    assert_eq!(sent_torque_jump_alarm_id(1), "sent_torque_jump_t1");
    assert_eq!(sent_torque_jump_alarm_id(3), "sent_torque_jump_t2");
    assert_eq!(sent_angle_jump_alarm_id(0), "sent_angle_jump_t1");
    assert_eq!(sent_angle_jump_alarm_id(2), "sent_angle_jump_t2");
    assert_eq!(sent_angle_jump_alarm_id(4), "sent_angle_jump_s");
    assert_eq!(sent_angle_jump_alarm_id(7), "sent_angle_jump_unknown");
    assert_eq!(sent_angle_red_axis(0), SentAngleAxis::T1);
    assert_eq!(sent_angle_red_axis(2), SentAngleAxis::T2);
    assert_eq!(sent_angle_red_axis(4), SentAngleAxis::S);
    assert_eq!(sent_angle_red_axis(9), SentAngleAxis::T1);
}

#[test]
fn threshold_alarm_ids_name_rule_sensor_and_side() {
    assert_eq!(rule_alarm_id("temperature", 1, AlarmBound::High), "temperature_sensor_1_high");
    assert_eq!(rule_alarm_id("pressure", 12, AlarmBound::Low), "pressure_sensor_12_low");
    assert_eq!(can_threshold_alarm_id("x", AlarmBound::High), "can_x_h");
    assert_eq!(can_threshold_alarm_id("t2_torque", AlarmBound::Low), "can_t2_torque_l");
}
