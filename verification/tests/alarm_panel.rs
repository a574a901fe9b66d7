use demo2::alarm::{AlarmEvent, AlarmLevel};
use demo2::alarm_panel::{AlarmPanel, IndicatorKind, MAX_ALARM_HISTORY};
use demo2::alarm_sync::{AlarmSnapshot, AlarmUpdate};
use demo2::alarm::SentJumpLevel;

fn event(device_id: &str, alarm_id: &str, level: AlarmLevel, cleared: bool) -> AlarmEvent {
    AlarmEvent {
        device_id: device_id.into(),
        alarm_id: alarm_id.into(),
        level,
        message: alarm_id.into(),
        raised_at: std::time::SystemTime::UNIX_EPOCH,
        cleared,
    }
}

fn update(epoch: u128, revision: u64, event: AlarmEvent) -> AlarmUpdate {
    AlarmUpdate { epoch, revision, event }
}

#[test]
fn delayed_alarm_cannot_override_snapshot_or_increment_history() {
    let mut panel = AlarmPanel::new();
    let epoch = uuid::Uuid::new_v4().as_u128();
    let alarm = event("can://test:ch0", "sent_angle_jump_t1", AlarmLevel::Critical, false);
    panel.apply_snapshot(&AlarmSnapshot { epoch, revision: 2, alarms: vec![] }, 10);
    panel.apply_update(&update(epoch, 1, alarm.clone()), 11);
    assert!(panel.active_items().is_empty());
    assert_eq!(panel.total_alarm_count(), 0);
    assert!(panel.history_items().is_empty());
    panel.apply_update(&update(epoch, 3, alarm), 12);
    assert_eq!(panel.active_items().len(), 1);
    assert_eq!(panel.total_alarm_count(), 1);
    panel.apply_snapshot(&AlarmSnapshot { epoch, revision: 2, alarms: vec![] }, 13);
    assert_eq!(panel.active_items().len(), 1);
}

#[test]
fn snapshot_repairs_missing_raise_and_clear_without_counting_duplicates() {
    let mut panel = AlarmPanel::new();
    let alarm = event("a", "high", AlarmLevel::Critical, false);
    panel.apply_snapshot(&AlarmSnapshot { epoch: 0, revision: 1, alarms: vec![alarm.clone()] }, 100);
    assert_eq!(panel.active_items().len(), 1);
    let first_received_at = panel.active_items()[0].received_at_ms;
    panel.apply_snapshot(&AlarmSnapshot { epoch: 0, revision: 1, alarms: vec![alarm] }, 200);
    assert_eq!(panel.active_items()[0].received_at_ms, first_received_at);
    assert_eq!(panel.total_alarm_count(), 0);
    panel.apply_snapshot(&AlarmSnapshot { epoch: 0, revision: 2, alarms: vec![] }, 300);
    assert!(panel.active_items().is_empty());
}

#[test]
fn raising_an_active_alarm_again_does_not_count_twice() {
    let mut panel = AlarmPanel::new();
    let raise = event("can://a:ch0", "can_x_h", AlarmLevel::Warning, false);
    assert!(panel.apply_update(&update(7, 1, raise.clone()), 1));
    assert!(panel.apply_update(&update(7, 2, raise.clone()), 2));
    assert_eq!(panel.total_alarm_count(), 1);
    assert_eq!(panel.history_items().len(), 2);
    assert_eq!(panel.history_items()[0].received_at_ms, 2);
    assert_eq!(panel.active_items()[0].received_at_ms, 2);
    assert!(panel.apply_update(&update(7, 3, event("can://a:ch0", "can_x_h", AlarmLevel::Warning, true)), 3));
    assert!(panel.active_items().is_empty());
    assert!(panel.apply_update(&update(7, 4, raise), 4));
    assert_eq!(panel.total_alarm_count(), 2);
    assert_eq!(panel.alarm_raise_count("can_x_h"), 3);
}

#[test]
fn history_keeps_the_newest_entries() {
    let mut panel = AlarmPanel::new();
    for rev in 1..=60u64 {
        let e = event("d", &format!("a{rev}"), AlarmLevel::Info, false);
        assert!(panel.apply_update(&update(1, rev, e), rev));
    }
    assert_eq!(panel.history_items().len(), MAX_ALARM_HISTORY);
    assert_eq!(panel.history_items()[0].event.alarm_id, "a60");
    assert_eq!(panel.history_items()[49].event.alarm_id, "a11");
    assert_eq!(panel.total_alarm_count(), 60);
}

#[test]
fn acknowledgements_follow_the_active_alarms() {
    let mut panel = AlarmPanel::new();
    let t0 = event("can://x:ch0", "can_signal_timeout_0x101", AlarmLevel::Warning, false);
    let t1 = event("can://x:ch1", "can_signal_timeout_0x101", AlarmLevel::Warning, false);
    let other = event("can://x:ch0", "can_x_h", AlarmLevel::Critical, false);
    panel.apply_update(&update(1, 1, t0.clone()), 1);
    panel.apply_update(&update(1, 2, t1.clone()), 1);
    panel.apply_update(&update(1, 3, other.clone()), 1);
    panel.acknowledge_channel(0);
    assert!(panel.is_acknowledged(&t0.device_id, &t0.alarm_id));
    assert!(!panel.is_acknowledged(&t1.device_id, &t1.alarm_id));
    assert!(!panel.is_acknowledged(&other.device_id, &other.alarm_id));
    panel.acknowledge_all();
    assert!(panel.is_acknowledged(&t1.device_id, &t1.alarm_id));
    let mut cleared = t0.clone();
    cleared.cleared = true;
    panel.apply_update(&update(1, 4, cleared), 2);
    assert!(!panel.is_acknowledged(&t0.device_id, &t0.alarm_id));
    panel.apply_snapshot(&AlarmSnapshot { epoch: 1, revision: 5, alarms: vec![t1.clone()] }, 3);
    assert!(panel.is_acknowledged(&t1.device_id, &t1.alarm_id));
    assert!(!panel.is_acknowledged(&other.device_id, &other.alarm_id));
    assert_eq!(panel.active_items().len(), 1);
}

#[test]
fn panel_summaries_and_indicators() {
    let mut panel = AlarmPanel::new();
    assert_eq!(panel.highest_active_rank(), 0);
    assert_eq!(panel.sent_jump_level_for_alarm("sent_torque_jump_t1"), SentJumpLevel::Normal);
    assert!(panel.indicator(IndicatorKind::Can).is_none());
    panel.apply_update(&update(1, 1, event("serial", "sent_torque_jump_t1", AlarmLevel::Info, false)), 1);
    panel.apply_update(&update(1, 2, event("serial2", "sent_torque_jump_t1", AlarmLevel::Purple, false)), 1);
    panel.apply_update(&update(1, 3, event("can://a:ch0", "can_y_l", AlarmLevel::Critical, false)), 1);
    assert_eq!(panel.highest_active_rank(), 4);
    assert_eq!(panel.sent_jump_level_for_alarm("sent_torque_jump_t1"), SentJumpLevel::Purple);
    assert!(panel.alarm_active("can_y_l"));
    assert!(!panel.alarm_active("can_z_l"));
    let (item, active) = panel.indicator(IndicatorKind::Can).unwrap();
    assert!(active);
    assert_eq!(item.event.alarm_id, "can_y_l");
    panel.apply_update(&update(1, 4, event("can://a:ch0", "can_y_l", AlarmLevel::Critical, true)), 2);
    let (item, active) = panel.indicator(IndicatorKind::Can).unwrap();
    assert!(!active);
    assert!(item.event.cleared);
    assert!(panel.indicator(IndicatorKind::SentError).is_none());
    panel.clear_stats();
    assert!(panel.active_items().is_empty());
    assert!(panel.history_items().is_empty());
    assert_eq!(panel.total_alarm_count(), 0);
}

#[test]
fn active_alarms_are_listed_newest_first() {
    let mut panel = AlarmPanel::new();
    assert!(panel.apply_update(&update(3, 1, event("dev", "a", AlarmLevel::Warning, false)), 10));
    assert!(panel.apply_update(&update(3, 2, event("dev", "b", AlarmLevel::Warning, false)), 30));
    assert!(panel.apply_update(&update(3, 3, event("dev", "c", AlarmLevel::Warning, false)), 20));
    let ids: Vec<String> = panel.active_newest_first().iter().map(|i| i.event.alarm_id.clone()).collect();
    assert_eq!(ids, vec!["b", "c", "a"]);
}
