use demo2::alarm::{AlarmEvent, AlarmLevel};
use demo2::alarm_sync::{AlarmSnapshot, AlarmState, AlarmTracker, AlarmUpdate};
use uuid::Uuid;

fn update(epoch: u128, revision: u64, id: &str, cleared: bool) -> AlarmUpdate {
    AlarmUpdate {
        epoch,
        revision,
        event: AlarmEvent {
            device_id: "can://test:ch0".into(),
            alarm_id: id.into(),
            cleared,
            level: AlarmLevel::Critical,
            message: id.into(),
            raised_at: std::time::SystemTime::UNIX_EPOCH,
        },
    }
}

#[test]
fn newer_snapshot_rejects_delayed_raise_and_clear() {
    let epoch = Uuid::new_v4().as_u128();
    let mut tracker = AlarmTracker::new();
    tracker.apply_snapshot(&AlarmSnapshot { epoch, revision: 2, alarms: vec![] });
    assert!(!tracker.apply_update(&update(epoch, 1, "a", false)));
    assert_eq!(tracker.active().len(), 0);
    tracker.apply_snapshot(&AlarmSnapshot {
        epoch,
        revision: 4,
        alarms: vec![update(epoch, 4, "a", false).event],
    });
    assert!(!tracker.apply_update(&update(epoch, 3, "a", true)));
    assert_eq!(tracker.active().len(), 1);
}

#[test]
fn late_snapshot_preserves_newer_raise_and_clear_and_other_keys() {
    let epoch = Uuid::new_v4().as_u128();
    let mut tracker = AlarmTracker::new();
    assert!(tracker.apply_update(&update(epoch, 4, "a", false)));
    assert!(tracker.apply_update(&update(epoch, 3, "b", true)));
    tracker.apply_snapshot(&AlarmSnapshot {
        epoch,
        revision: 2,
        alarms: vec![update(epoch, 2, "b", false).event, update(epoch, 1, "c", false).event],
    });
    let mut ids: Vec<_> = tracker.active().iter().map(|a| a.alarm_id.as_str()).collect();
    ids.sort();
    assert_eq!(ids, vec!["a", "c"]);
    assert!(!tracker.apply_update(&update(epoch, 3, "a", false)));
    assert!(!tracker.apply_snapshot(&AlarmSnapshot { epoch, revision: 1, alarms: vec![] }));
}

#[test]
fn collector_restart_resets_revision_but_old_epoch_deltas_are_ignored() {
    let old = Uuid::new_v4().as_u128();
    let new = Uuid::new_v4().as_u128();
    let mut tracker = AlarmTracker::new();
    tracker.apply_update(&update(old, 100, "a", false));
    tracker.apply_snapshot(&AlarmSnapshot { epoch: new, revision: 0, alarms: vec![] });
    assert_eq!(tracker.active().len(), 0);
    assert!(!tracker.apply_update(&update(old, 101, "a", false)));
    assert!(tracker.apply_update(&update(new, 1, "a", false)));
    assert!(!tracker.apply_update(&update(new, 1, "a", false)));
}

#[test]
fn transitions_take_the_next_revision_whatever_the_flag_says() {
    let mut state = AlarmState::new();
    let raised = state.record_transition(update(0, 0, "a", true).event, false);
    assert!(!raised.event.cleared);
    assert_eq!(raised.revision, 1);
    assert_eq!(raised.epoch, state.epoch());
    assert_eq!(state.snapshot().alarms.len(), 1);
    let cleared = state.record_transition(update(0, 0, "a", false).event, true);
    assert!(cleared.event.cleared);
    assert_eq!(cleared.revision, 2);
    assert_eq!(state.snapshot().alarms.len(), 0);
    assert_eq!(state.snapshot().revision, 2);
}

#[test]
fn collector_records_and_viewer_converges_on_snapshot_then_updates() {
    let mut state = AlarmState::new();
    let first = state.record(update(0, 0, "a", false).event);
    assert_eq!(first.revision, 1);
    assert_eq!(first.epoch, state.epoch());
    let snapshot = state.snapshot();
    assert_eq!(snapshot.revision, 1);
    assert_eq!(snapshot.alarms.len(), 1);
    let second = state.record(update(0, 0, "b", false).event);
    let third = state.record(update(0, 0, "a", true).event);
    assert_eq!(state.revision(), 3);

    let mut tracker = AlarmTracker::new();
    assert!(tracker.apply_snapshot(&snapshot));
    assert_eq!(tracker.epoch(), Some(state.epoch()));
    assert!(!tracker.apply_update(&first));
    assert!(tracker.apply_update(&second));
    assert!(tracker.apply_update(&third));
    let ids: Vec<_> = tracker.active().iter().map(|a| a.alarm_id.as_str()).collect();
    assert_eq!(ids, vec!["b"]);
    assert_eq!(state.snapshot().alarms.len(), 1);
}
