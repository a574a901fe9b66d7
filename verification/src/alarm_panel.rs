//! The viewer's alarm panel: the alarms it shows as active, which of them
//! the operator acknowledged, the recent history, and how many alarms were
//! raised. It follows one collector through an [`AlarmTracker`], so a late
//! or repeated update never reaches the panel.
use vstd::prelude::*;
use crate::alarm::{AlarmEvent, AlarmLevel, SentJumpLevel};
use crate::text::{chars_eq, chars_of};
use crate::ui_models::{alarm_level_rank, spec_alarm_level_rank, starts_with, starts_with_exec};
use crate::alarm_sync::{
    AlarmSnapshot, AlarmTracker, AlarmUpdate, TrackerModel, ev_key, ev_val, events_map,
    spec_apply_snapshot, spec_apply_update,
};
use crate::keyed::{
    Key, distinct_keys, keyed_map, lemma_distinct_push, lemma_keyed_map_dom, lemma_keyed_map_index,
    lemma_keyed_map_push, lemma_keyed_map_remove, lemma_keyed_map_update,
};

verus! {

/// Entries kept in the history, newest first.
pub const MAX_ALARM_HISTORY: usize = 50;

/// An alarm as the panel shows it, with when it arrived on the viewer's
/// clock (milliseconds).
#[derive(Debug)]
pub struct AlarmViewItem {
    pub event: AlarmEvent,
    pub received_at_ms: u64,
}

/// An acknowledged alarm.
struct AckEntry {
    device_id: String,
    alarm_id: String,
}

pub open spec fn item_key() -> spec_fn(AlarmViewItem) -> Key {
    |i: AlarmViewItem| (i.event.device_id@, i.event.alarm_id@)
}

pub open spec fn item_val() -> spec_fn(AlarmViewItem) -> (AlarmEvent, u64) {
    |i: AlarmViewItem| (i.event, i.received_at_ms)
}

spec fn ack_key() -> spec_fn(AckEntry) -> Key {
    |a: AckEntry| (a.device_id@, a.alarm_id@)
}

spec fn ack_val() -> spec_fn(AckEntry) -> () {
    |a: AckEntry| ()
}

/// An item as a plain pair.
pub open spec fn item_pair(i: AlarmViewItem) -> (AlarmEvent, u64) {
    (i.event, i.received_at_ms)
}

/// What an [`AlarmPanel`] stands for.
pub struct PanelModel {
    /// The merge of everything the collector sent.
    pub tracker: TrackerModel,
    /// Active alarms with when they arrived.
    pub active: Map<Key, (AlarmEvent, u64)>,
    pub acknowledged: Set<Key>,
    /// Raises and clears, newest first.
    pub history: Seq<(AlarmEvent, u64)>,
    /// Alarms raised while not active.
    pub total_alarm_count: u64,
}

/// The panel after a snapshot: the tracker's active alarms, each keeping
/// the arrival time it had on the panel, the others arriving at `now_ms`.
pub open spec fn spec_rebuild(
    shown: Map<Key, (AlarmEvent, u64)>,
    events: Map<Key, AlarmEvent>,
    now_ms: u64,
) -> Map<Key, (AlarmEvent, u64)> {
    Map::new(
        |k: Key| events.dom().contains(k),
        |k: Key|
            (
                events[k],
                if shown.dom().contains(k) {
                    shown[k].1
                } else {
                    now_ms
                },
            ),
    )
}

/// `h` with `x` in front, cut to the history's length.
pub open spec fn push_front_capped(h: Seq<(AlarmEvent, u64)>, x: (AlarmEvent, u64)) -> Seq<(AlarmEvent, u64)> {
    let all = seq![x] + h;
    if all.len() > MAX_ALARM_HISTORY {
        all.take(MAX_ALARM_HISTORY as int)
    } else {
        all
    }
}

/// The panel after an accepted update: a clear drops the alarm and its
/// acknowledgement; a raise shows it as arrived at `now_ms`, and when it
/// was not active counts it and drops any old acknowledgement. Either goes
/// to the front of the history.
pub open spec fn spec_panel_update(m: PanelModel, t: TrackerModel, e: AlarmEvent, now_ms: u64) -> PanelModel {
    let k = ev_key()(e);
    let fresh = !e.cleared && !m.active.dom().contains(k);
    PanelModel {
        tracker: t,
        active: if e.cleared {
            m.active.remove(k)
        } else {
            m.active.insert(k, (e, now_ms))
        },
        acknowledged: if e.cleared || fresh {
            m.acknowledged.remove(k)
        } else {
            m.acknowledged
        },
        history: push_front_capped(m.history, (e, now_ms)),
        total_alarm_count: if fresh {
            if m.total_alarm_count == u64::MAX {
                u64::MAX
            } else {
                (m.total_alarm_count + 1) as u64
            }
        } else {
            m.total_alarm_count
        },
    }
}

/// The active CAN signal timeouts of one channel.
pub open spec fn channel_timeouts(active: Map<Key, (AlarmEvent, u64)>, channel: u8) -> Set<Key> {
    Set::new(
        |k: Key|
            active.dom().contains(k) && crate::ui_models::spec_is_can_signal_timeout(active[k].0)
                && crate::ui_models::spec_can_channel_from_device_id(active[k].0.device_id@) == Some(
                channel,
            ),
    )
}

/// The viewer's alarm panel.
pub struct AlarmPanel {
    tracker: AlarmTracker,
    active: Vec<AlarmViewItem>,
    acknowledged: Vec<AckEntry>,
    history: Vec<AlarmViewItem>,
    total_alarm_count: u64,
}

impl View for AlarmPanel {
    type V = PanelModel;

    closed spec fn view(&self) -> PanelModel {
        PanelModel {
            tracker: self.tracker@,
            active: keyed_map(self.active@, item_key(), item_val()),
            acknowledged: keyed_map(self.acknowledged@, ack_key(), ack_val()).dom(),
            history: self.history@.map_values(|i: AlarmViewItem| item_pair(i)),
            total_alarm_count: self.total_alarm_count,
        }
    }
}

fn copy_event(e: &AlarmEvent) -> (r: AlarmEvent)
    ensures
        r == *e,
{
    e.clone()
}

fn find_item(v: &Vec<AlarmViewItem>, device_id: &String, alarm_id: &String) -> (r: Option<usize>)
    ensures
        match r {
            Some(i) => i < v@.len() && item_key()(v@[i as int]) == (device_id@, alarm_id@),
            None => !keyed_map(v@, item_key(), item_val()).dom().contains((device_id@, alarm_id@)),
        },
{
    let mut i: usize = 0;
    while i < v.len()
        invariant
            i <= v@.len(),
            forall|j: int| 0 <= j < i ==> item_key()(v@[j]) != (device_id@, alarm_id@),
        decreases v@.len() - i,
    {
        if v[i].event.device_id == *device_id && v[i].event.alarm_id == *alarm_id {
            return Some(i);
        }
        i = i + 1;
    }
    proof {
        lemma_keyed_map_dom(v@, item_key(), item_val(), (device_id@, alarm_id@));
    }
    None
}

fn find_ack(v: &Vec<AckEntry>, device_id: &String, alarm_id: &String) -> (r: Option<usize>)
    ensures
        match r {
            Some(i) => i < v@.len() && ack_key()(v@[i as int]) == (device_id@, alarm_id@),
            None => !keyed_map(v@, ack_key(), ack_val()).dom().contains((device_id@, alarm_id@)),
        },
{
    let mut i: usize = 0;
    while i < v.len()
        invariant
            i <= v@.len(),
            forall|j: int| 0 <= j < i ==> ack_key()(v@[j]) != (device_id@, alarm_id@),
        decreases v@.len() - i,
    {
        if v[i].device_id == *device_id && v[i].alarm_id == *alarm_id {
            return Some(i);
        }
        i = i + 1;
    }
    proof {
        lemma_keyed_map_dom(v@, ack_key(), ack_val(), (device_id@, alarm_id@));
    }
    None
}

fn remove_item(v: &mut Vec<AlarmViewItem>, device_id: &String, alarm_id: &String)
    requires
        distinct_keys(old(v)@, item_key()),
    ensures
        distinct_keys(final(v)@, item_key()),
        keyed_map(final(v)@, item_key(), item_val()) == keyed_map(old(v)@, item_key(), item_val()).remove(
            (device_id@, alarm_id@),
        ),
{
    match find_item(v, device_id, alarm_id) {
        Some(i) => {
            proof {
                lemma_keyed_map_remove(v@, item_key(), item_val(), i as int);
            }
            v.remove(i);
        },
        None => {
            assert(keyed_map(v@, item_key(), item_val()) =~= keyed_map(v@, item_key(), item_val()).remove(
                (device_id@, alarm_id@),
            ));
        },
    }
}

fn remove_ack(v: &mut Vec<AckEntry>, device_id: &String, alarm_id: &String)
    requires
        distinct_keys(old(v)@, ack_key()),
    ensures
        distinct_keys(final(v)@, ack_key()),
        keyed_map(final(v)@, ack_key(), ack_val()).dom() == keyed_map(old(v)@, ack_key(), ack_val()).dom().remove(
            (device_id@, alarm_id@),
        ),
{
    match find_ack(v, device_id, alarm_id) {
        Some(i) => {
            proof {
                lemma_keyed_map_remove(v@, ack_key(), ack_val(), i as int);
            }
            v.remove(i);
        },
        None => {
            assert(keyed_map(v@, ack_key(), ack_val()).dom() =~= keyed_map(v@, ack_key(), ack_val()).dom().remove(
                (device_id@, alarm_id@),
            ));
        },
    }
}

/// Adds an acknowledgement unless it is there.
fn add_ack(v: &mut Vec<AckEntry>, device_id: &String, alarm_id: &String)
    requires
        distinct_keys(old(v)@, ack_key()),
    ensures
        distinct_keys(final(v)@, ack_key()),
        keyed_map(final(v)@, ack_key(), ack_val()).dom() == keyed_map(old(v)@, ack_key(), ack_val()).dom().insert(
            (device_id@, alarm_id@),
        ),
{
    match find_ack(v, device_id, alarm_id) {
        Some(i) => {
            proof {
                lemma_keyed_map_index(v@, ack_key(), ack_val(), i as int);
            }
            assert(keyed_map(v@, ack_key(), ack_val()).dom() =~= keyed_map(v@, ack_key(), ack_val()).dom().insert(
                (device_id@, alarm_id@),
            ));
        },
        None => {
            let a = AckEntry { device_id: device_id.clone(), alarm_id: alarm_id.clone() };
            proof {
                lemma_keyed_map_push(v@, ack_key(), ack_val(), a);
                lemma_distinct_push(v@, ack_key(), ack_val(), a);
            }
            v.push(a);
        },
    }
}

impl AlarmPanel {
    #[verifier::type_invariant]
    closed spec fn inv(self) -> bool {
        &&& distinct_keys(self.active@, item_key())
        &&& distinct_keys(self.acknowledged@, ack_key())
        &&& self.history@.len() <= MAX_ALARM_HISTORY
    }

    /// An empty panel that has heard from no collector.
    pub fn new() -> (r: Self)
        ensures
            r@.tracker.epoch is None,
            r@.tracker.snapshot_revision is None,
            r@.tracker.revisions == Map::<Key, u64>::empty(),
            r@.tracker.active == Map::<Key, AlarmEvent>::empty(),
            r@.active == Map::<Key, (AlarmEvent, u64)>::empty(),
            r@.acknowledged == Set::<Key>::empty(),
            r@.history == Seq::<(AlarmEvent, u64)>::empty(),
            r@.total_alarm_count == 0,
    {
        let r = AlarmPanel {
            tracker: AlarmTracker::new(),
            active: Vec::new(),
            acknowledged: Vec::new(),
            history: Vec::new(),
            total_alarm_count: 0,
        };
        assert(r.history@.map_values(|i: AlarmViewItem| item_pair(i)) =~= Seq::<
            (AlarmEvent, u64),
        >::empty());
        r
    }

    /// Hands an update to the tracker and, when it is taken, shows it on
    /// the panel; returns whether it was taken. A refused update leaves
    /// the panel as it was.
    pub fn apply_update(&mut self, update: &AlarmUpdate, now_ms: u64) -> (accepted: bool)
        ensures
            accepted == spec_apply_update(old(self)@.tracker, *update).1,
            accepted ==> final(self)@ == spec_panel_update(
                old(self)@,
                spec_apply_update(old(self)@.tracker, *update).0,
                update.event,
                now_ms,
            ),
            !accepted ==> final(self)@ == (PanelModel {
                tracker: spec_apply_update(old(self)@.tracker, *update).0,
                ..old(self)@
            }),
    {
        proof {
            use_type_invariant(&*self);
        }
        let mut tracker = AlarmTracker::new();
        std::mem::swap(&mut tracker, &mut self.tracker);
        let accepted = tracker.apply_update(update);
        self.tracker = tracker;
        if !accepted {
            return false;
        }
        let e = &update.event;
        let mut active: Vec<AlarmViewItem> = Vec::new();
        std::mem::swap(&mut active, &mut self.active);
        let mut acks: Vec<AckEntry> = Vec::new();
        std::mem::swap(&mut acks, &mut self.acknowledged);
        let mut history: Vec<AlarmViewItem> = Vec::new();
        std::mem::swap(&mut history, &mut self.history);
        if e.cleared {
            remove_item(&mut active, &e.device_id, &e.alarm_id);
            remove_ack(&mut acks, &e.device_id, &e.alarm_id);
        } else {
            let item = AlarmViewItem { event: copy_event(e), received_at_ms: now_ms };
            match find_item(&active, &e.device_id, &e.alarm_id) {
                Some(i) => {
                    proof {
                        lemma_keyed_map_index(active@, item_key(), item_val(), i as int);
                        lemma_keyed_map_update(active@, item_key(), item_val(), i as int, item);
                    }
                    active.set(i, item);
                },
                None => {
                    proof {
                        lemma_keyed_map_push(active@, item_key(), item_val(), item);
                        lemma_distinct_push(active@, item_key(), item_val(), item);
                    }
                    active.push(item);
                    if self.total_alarm_count < u64::MAX {
                        self.total_alarm_count = self.total_alarm_count + 1;
                    }
                    remove_ack(&mut acks, &e.device_id, &e.alarm_id);
                },
            }
        }
        let ghost h0 = history@;
        let entry = AlarmViewItem { event: copy_event(e), received_at_ms: now_ms };
        history.insert(0, entry);
        if history.len() > MAX_ALARM_HISTORY {
            history.pop();
        }
        proof {
            let f = |i: AlarmViewItem| item_pair(i);
            let all = seq![(*e, now_ms)] + h0.map_values(f);
            if h0.len() + 1 > MAX_ALARM_HISTORY {
                assert(history@.map_values(f) =~= all.take(MAX_ALARM_HISTORY as int));
            } else {
                assert(history@.map_values(f) =~= all);
            }
        }
        self.active = active;
        self.acknowledged = acks;
        self.history = history;
        true
    }

    /// Hands a snapshot to the tracker, then shows exactly the tracker's
    /// active alarms: those already shown keep their arrival time, and
    /// acknowledgements of alarms no longer active are dropped. The history
    /// and the count are left alone. Returns whether it was taken.
    pub fn apply_snapshot(&mut self, snapshot: &AlarmSnapshot, now_ms: u64) -> (accepted: bool)
        ensures
            (final(self)@.tracker, accepted) == spec_apply_snapshot(
                old(self)@.tracker,
                snapshot.epoch,
                snapshot.revision,
                snapshot.alarms@,
            ),
            final(self)@.active == spec_rebuild(old(self)@.active, final(self)@.tracker.active, now_ms),
            final(self)@.acknowledged == old(self)@.acknowledged.intersect(
                final(self)@.tracker.active.dom(),
            ),
            final(self)@.history == old(self)@.history,
            final(self)@.total_alarm_count == old(self)@.total_alarm_count,
    {
        proof {
            use_type_invariant(&*self);
        }
        let mut tracker = AlarmTracker::new();
        std::mem::swap(&mut tracker, &mut self.tracker);
        let accepted = tracker.apply_snapshot(snapshot);
        self.tracker = tracker;
        let events = self.tracker.active();
        let ghost shown = keyed_map(self.active@, item_key(), item_val());
        let mut rebuilt: Vec<AlarmViewItem> = Vec::new();
        let mut i: usize = 0;
        while i < events.len()
            invariant
                i <= events@.len(),
                distinct_keys(events@, ev_key()),
                distinct_keys(self.active@, item_key()),
                shown == keyed_map(self.active@, item_key(), item_val()),
                distinct_keys(rebuilt@, item_key()),
                keyed_map(rebuilt@, item_key(), item_val()) == spec_rebuild(
                    shown,
                    events_map(events@.take(i as int)),
                    now_ms,
                ),
            decreases events@.len() - i,
        {
            let e = &events[i];
            let received = match find_item(&self.active, &e.device_id, &e.alarm_id) {
                Some(j) => {
                    proof {
                        lemma_keyed_map_index(self.active@, item_key(), item_val(), j as int);
                    }
                    self.active[j].received_at_ms
                },
                None => now_ms,
            };
            let item = AlarmViewItem { event: copy_event(e), received_at_ms: received };
            proof {
                let pre = events@.take(i as int);
                assert(events@.take(i + 1) =~= pre.push(events@[i as int]));
                lemma_keyed_map_push(pre, ev_key(), ev_val(), events@[i as int]);
                lemma_keyed_map_dom(pre, ev_key(), ev_val(), ev_key()(events@[i as int]));
                if exists|j: int| 0 <= j < pre.len() && ev_key()(pre[j]) == ev_key()(events@[i as int]) {
                    let j = choose|j: int|
                        0 <= j < pre.len() && ev_key()(pre[j]) == ev_key()(events@[i as int]);
                    assert(pre[j] == events@[j]);
                }
                lemma_keyed_map_push(rebuilt@, item_key(), item_val(), item);
                lemma_distinct_push(rebuilt@, item_key(), item_val(), item);
                assert(keyed_map(rebuilt@.push(item), item_key(), item_val()) =~= spec_rebuild(
                    shown,
                    events_map(events@.take(i + 1)),
                    now_ms,
                ));
            }
            rebuilt.push(item);
            i = i + 1;
        }
        proof {
            assert(events@.take(i as int) =~= events@);
        }
        let ghost active_dom = events_map(events@).dom();
        let mut kept: Vec<AckEntry> = Vec::new();
        let mut acks: Vec<AckEntry> = Vec::new();
        std::mem::swap(&mut acks, &mut self.acknowledged);
        let ghost acks0 = acks@;
        let mut j: usize = 0;
        while j < acks.len()
            invariant
                j <= acks@.len(),
                acks@ == acks0,
                distinct_keys(acks0, ack_key()),
                distinct_keys(kept@, ack_key()),
                distinct_keys(rebuilt@, item_key()),
                keyed_map(rebuilt@, item_key(), item_val()).dom() == active_dom,
                keyed_map(kept@, ack_key(), ack_val()).dom() == keyed_map(
                    acks0.take(j as int),
                    ack_key(),
                    ack_val(),
                ).dom().intersect(active_dom),
            decreases acks@.len() - j,
        {
            let a = &acks[j];
            let ghost pre = acks0.take(j as int);
            proof {
                assert(acks0.take(j + 1) =~= pre.push(acks0[j as int]));
                lemma_keyed_map_push(pre, ack_key(), ack_val(), acks0[j as int]);
            }
            match find_item(&rebuilt, &a.device_id, &a.alarm_id) {
                Some(t) => {
                    proof {
                        lemma_keyed_map_dom(rebuilt@, item_key(), item_val(), ack_key()(acks0[j as int]));
                        assert(item_key()(rebuilt@[t as int]) == ack_key()(acks0[j as int]));
                    }
                    let entry = AckEntry { device_id: a.device_id.clone(), alarm_id: a.alarm_id.clone() };
                    proof {
                        lemma_keyed_map_dom(pre, ack_key(), ack_val(), ack_key()(acks0[j as int]));
                        if exists|t: int| 0 <= t < pre.len() && ack_key()(pre[t]) == ack_key()(acks0[j as int]) {
                            let t = choose|t: int|
                                0 <= t < pre.len() && ack_key()(pre[t]) == ack_key()(acks0[j as int]);
                            assert(pre[t] == acks0[t]);
                        }
                        lemma_keyed_map_push(kept@, ack_key(), ack_val(), entry);
                        lemma_distinct_push(kept@, ack_key(), ack_val(), entry);
                    }
                    kept.push(entry);
                },
                None => {},
            }
            proof {
                assert(keyed_map(kept@, ack_key(), ack_val()).dom() =~= keyed_map(
                    acks0.take(j + 1),
                    ack_key(),
                    ack_val(),
                ).dom().intersect(active_dom));
            }
            j = j + 1;
        }
        proof {
            assert(acks0.take(j as int) =~= acks0);
        }
        self.active = rebuilt;
        self.acknowledged = kept;
        accepted
    }

    /// Acknowledges the active CAN signal timeouts of one channel.
    pub fn acknowledge_channel(&mut self, channel: u8)
        ensures
            final(self)@ == (PanelModel {
                acknowledged: old(self)@.acknowledged.union(channel_timeouts(old(self)@.active, channel)),
                ..old(self)@
            }),
    {
        proof {
            use_type_invariant(&*self);
        }
        let ghost items = self.active@;
        let mut acks: Vec<AckEntry> = Vec::new();
        std::mem::swap(&mut acks, &mut self.acknowledged);
        let ghost acks0 = acks@;
        let mut i: usize = 0;
        while i < self.active.len()
            invariant
                i <= items.len(),
                self.active@ == items,
                distinct_keys(items, item_key()),
                distinct_keys(acks@, ack_key()),
                keyed_map(acks@, ack_key(), ack_val()).dom() == keyed_map(acks0, ack_key(), ack_val()).dom().union(
                    Set::new(
                        |k: Key|
                            exists|t: int|
                                0 <= t < i && item_key()(items[t]) == k
                                    && crate::ui_models::spec_is_can_signal_timeout(items[t].event)
                                    && crate::ui_models::spec_can_channel_from_device_id(
                                    items[t].event.device_id@,
                                ) == Some(channel),
                    ),
                ),
            decreases items.len() - i,
        {
            let ev = &self.active[i].event;
            let matched = crate::ui_models::is_can_signal_timeout(ev) && match crate::ui_models::can_channel_from_device_id(
                ev.device_id.as_str(),
            ) {
                Some(c) => c == channel,
                None => false,
            };
            let ghost before = keyed_map(acks@, ack_key(), ack_val()).dom();
            if matched {
                add_ack(&mut acks, &ev.device_id, &ev.alarm_id);
            }
            proof {
                let pred_i = |k: Key|
                    exists|t: int|
                        0 <= t < i && item_key()(items[t]) == k
                            && crate::ui_models::spec_is_can_signal_timeout(items[t].event)
                            && crate::ui_models::spec_can_channel_from_device_id(items[t].event.device_id@)
                            == Some(channel);
                let pred_n = |k: Key|
                    exists|t: int|
                        0 <= t < i + 1 && item_key()(items[t]) == k
                            && crate::ui_models::spec_is_can_signal_timeout(items[t].event)
                            && crate::ui_models::spec_can_channel_from_device_id(items[t].event.device_id@)
                            == Some(channel);
                assert forall|k: Key| #[trigger] Set::new(pred_n).contains(k) == (Set::new(pred_i).contains(k) || (
                matched && k == item_key()(items[i as int]))) by {
                    if Set::new(pred_n).contains(k) {
                        let t = choose|t: int|
                            0 <= t < i + 1 && item_key()(items[t]) == k
                                && crate::ui_models::spec_is_can_signal_timeout(items[t].event)
                                && crate::ui_models::spec_can_channel_from_device_id(items[t].event.device_id@)
                                == Some(channel);
                        if t < i {
                            assert(pred_i(k));
                        }
                    }
                    if matched && k == item_key()(items[i as int]) {
                        assert(pred_n(k));
                    }
                    if Set::new(pred_i).contains(k) {
                        let t = choose|t: int|
                            0 <= t < i && item_key()(items[t]) == k
                                && crate::ui_models::spec_is_can_signal_timeout(items[t].event)
                                && crate::ui_models::spec_can_channel_from_device_id(items[t].event.device_id@)
                                == Some(channel);
                        assert(pred_n(k));
                    }
                }
                assert(keyed_map(acks@, ack_key(), ack_val()).dom() =~= keyed_map(acks0, ack_key(), ack_val()).dom().union(
                    Set::new(pred_n),
                ));
            }
            i = i + 1;
        }
        proof {
            let m = keyed_map(items, item_key(), item_val());
            assert forall|k: Key|
                #[trigger] channel_timeouts(m, channel).contains(k) == (exists|t: int|
                    0 <= t < items.len() && item_key()(items[t]) == k
                        && crate::ui_models::spec_is_can_signal_timeout(items[t].event)
                        && crate::ui_models::spec_can_channel_from_device_id(items[t].event.device_id@)
                        == Some(channel)) by {
                lemma_keyed_map_dom(items, item_key(), item_val(), k);
                if m.dom().contains(k) {
                    let t = choose|t: int| 0 <= t < items.len() && item_key()(items[t]) == k;
                    lemma_keyed_map_index(items, item_key(), item_val(), t);
                }
                if exists|t: int|
                    0 <= t < items.len() && item_key()(items[t]) == k
                        && crate::ui_models::spec_is_can_signal_timeout(items[t].event)
                        && crate::ui_models::spec_can_channel_from_device_id(items[t].event.device_id@)
                        == Some(channel) {
                    let t = choose|t: int|
                        0 <= t < items.len() && item_key()(items[t]) == k
                            && crate::ui_models::spec_is_can_signal_timeout(items[t].event)
                            && crate::ui_models::spec_can_channel_from_device_id(items[t].event.device_id@)
                            == Some(channel);
                    lemma_keyed_map_index(items, item_key(), item_val(), t);
                }
            }
            assert(keyed_map(acks@, ack_key(), ack_val()).dom() =~= keyed_map(acks0, ack_key(), ack_val()).dom().union(
                channel_timeouts(m, channel),
            ));
        }
        self.acknowledged = acks;
    }

    /// Acknowledges every active alarm.
    pub fn acknowledge_all(&mut self)
        ensures
            final(self)@ == (PanelModel {
                acknowledged: old(self)@.acknowledged.union(old(self)@.active.dom()),
                ..old(self)@
            }),
    {
        proof {
            use_type_invariant(&*self);
        }
        let ghost items = self.active@;
        let mut acks: Vec<AckEntry> = Vec::new();
        std::mem::swap(&mut acks, &mut self.acknowledged);
        let ghost acks0 = acks@;
        let mut i: usize = 0;
        while i < self.active.len()
            invariant
                i <= items.len(),
                self.active@ == items,
                distinct_keys(acks@, ack_key()),
                keyed_map(acks@, ack_key(), ack_val()).dom() == keyed_map(acks0, ack_key(), ack_val()).dom().union(
                    keyed_map(items.take(i as int), item_key(), item_val()).dom(),
                ),
            decreases items.len() - i,
        {
            let ev = &self.active[i].event;
            add_ack(&mut acks, &ev.device_id, &ev.alarm_id);
            proof {
                assert(items.take(i + 1) =~= items.take(i as int).push(items[i as int]));
                lemma_keyed_map_push(items.take(i as int), item_key(), item_val(), items[i as int]);
                assert(keyed_map(acks@, ack_key(), ack_val()).dom() =~= keyed_map(acks0, ack_key(), ack_val()).dom().union(
                    keyed_map(items.take(i + 1), item_key(), item_val()).dom(),
                ));
            }
            i = i + 1;
        }
        proof {
            assert(items.take(i as int) =~= items);
        }
        self.acknowledged = acks;
    }

    /// Clears the shown alarms, the history and the count; the tracker and
    /// the acknowledgements stay.
    pub fn clear_stats(&mut self)
        ensures
            final(self)@ == (PanelModel {
                active: Map::<Key, (AlarmEvent, u64)>::empty(),
                history: Seq::<(AlarmEvent, u64)>::empty(),
                total_alarm_count: 0,
                ..old(self)@
            }),
    {
        proof {
            use_type_invariant(&*self);
        }
        self.active = Vec::new();
        self.history = Vec::new();
        self.total_alarm_count = 0;
        assert(self.history@.map_values(|i: AlarmViewItem| item_pair(i)) =~= Seq::<
            (AlarmEvent, u64),
        >::empty());
        assert(keyed_map(self.active@, item_key(), item_val()) =~= Map::<
            Key,
            (AlarmEvent, u64),
        >::empty());
    }
}

/// Which indicator window an alarm feeds.
#[derive(Clone, Copy, Debug, PartialEq, Eq, Structural)]
pub enum IndicatorKind {
    /// The demo alarm bit.
    Demo,
    /// Any alarm of a CAN device.
    Can,
    /// A SENT error report.
    SentError,
}

pub open spec fn indicator_matches(kind: IndicatorKind, e: AlarmEvent) -> bool {
    match kind {
        IndicatorKind::Demo => e.alarm_id@ == "demo_alarm_bit"@,
        IndicatorKind::Can => starts_with(e.device_id@, "can://"@),
        IndicatorKind::SentError => starts_with(e.alarm_id@, "sent_error_"@),
    }
}

/// Raises (not clears) of `alarm_id` in a history.
pub open spec fn raises_of(h: Seq<(AlarmEvent, u64)>, alarm_id: Seq<char>) -> nat
    decreases h.len(),
{
    if h.len() == 0 {
        0
    } else {
        raises_of(h.drop_last(), alarm_id) + if h.last().0.alarm_id@ == alarm_id && !h.last().0.cleared {
            1nat
        } else {
            0nat
        }
    }
}

/// The SENT jump level an alarm level is shown as.
pub open spec fn jump_level_of(level: AlarmLevel) -> SentJumpLevel {
    match level {
        AlarmLevel::Purple => SentJumpLevel::Purple,
        AlarmLevel::Critical => SentJumpLevel::Critical,
        AlarmLevel::Warning | AlarmLevel::Info => SentJumpLevel::Warning,
    }
}

pub open spec fn jump_rank(level: SentJumpLevel) -> int {
    match level {
        SentJumpLevel::Purple => 3,
        SentJumpLevel::Critical => 2,
        SentJumpLevel::Warning => 1,
        SentJumpLevel::Normal => 0,
    }
}

fn text_is(s: &String, t: &str) -> (r: bool)
    ensures
        r == (s@ == t@),
{
    let v = chars_of(s.as_str());
    let r = chars_eq(&v, 0, v.len(), t);
    assert(v@.subrange(0, v@.len() as int) =~= v@);
    r
}

fn indicator_matches_exec(kind: IndicatorKind, e: &AlarmEvent) -> (r: bool)
    ensures
        r == indicator_matches(kind, *e),
{
    match kind {
        IndicatorKind::Demo => text_is(&e.alarm_id, "demo_alarm_bit"),
        IndicatorKind::Can => starts_with_exec(&chars_of(e.device_id.as_str()), "can://"),
        IndicatorKind::SentError => starts_with_exec(&chars_of(e.alarm_id.as_str()), "sent_error_"),
    }
}

impl AlarmPanel {
    /// Alarms raised while not active.
    pub fn total_alarm_count(&self) -> (r: u64)
        ensures
            r == self@.total_alarm_count,
    {
        self.total_alarm_count
    }

    /// The active alarms as kept, once each.
    pub closed spec fn active_list(self) -> Seq<AlarmViewItem> {
        self.active@
    }

    /// The active alarms, once each.
    pub fn active_items(&self) -> (r: &[AlarmViewItem])
        ensures
            r@ == self.active_list(),
            distinct_keys(r@, item_key()),
            keyed_map(r@, item_key(), item_val()) == self@.active,
    {
        proof {
            use_type_invariant(self);
        }
        self.active.as_slice()
    }

    /// The active alarms, most recently received first; alarms received at
    /// the same time keep the order in which they are kept.
    pub fn active_newest_first(&self) -> (r: Vec<AlarmViewItem>)
        ensures
            r@.to_multiset() == self.active_list().to_multiset(),
            forall|i: int, j: int| 0 <= i < j < r@.len() ==> r@[i].received_at_ms >= r@[j].received_at_ms,
    {
        broadcast use vstd::seq_lib::group_to_multiset_ensures;
        let mut out: Vec<AlarmViewItem> = Vec::new();
        let mut k: usize = 0;
        while k < self.active.len()
            invariant
                k <= self.active@.len(),
                out@.to_multiset() == self.active@.take(k as int).to_multiset(),
                forall|i: int, j: int| 0 <= i < j < out@.len() ==> out@[i].received_at_ms >= out@[j].received_at_ms,
            decreases self.active@.len() - k,
        {
            let item = AlarmViewItem {
                event: copy_event(&self.active[k].event),
                received_at_ms: self.active[k].received_at_ms,
            };
            let t = item.received_at_ms;
            let mut pos: usize = 0;
            while pos < out.len() && out[pos].received_at_ms >= t
                invariant
                    pos <= out@.len(),
                    forall|i: int| 0 <= i < pos ==> out@[i].received_at_ms >= t,
                decreases out@.len() - pos,
            {
                pos = pos + 1;
            }
            let ghost before = out@;
            proof {
                assert(item == self.active@[k as int]);
                assert(self.active@.take(k + 1) =~= self.active@.take(k as int).push(item));
                vstd::seq_lib::to_multiset_insert(before, pos as int, item);
            }
            out.insert(pos, item);
            proof {
                assert(out@ == before.insert(pos as int, item));
                let tk = self.active@.take(k as int);
                tk.to_multiset_ensures();
                assert(tk.push(item).to_multiset() =~= tk.to_multiset().insert(item));
                assert(out@.to_multiset() == self.active@.take(k + 1).to_multiset());
                assert forall|i: int, j: int| 0 <= i < j < out@.len() implies out@[i].received_at_ms
                    >= out@[j].received_at_ms by {
                    if j < pos {
                        assert(out@[i] == before[i] && out@[j] == before[j]);
                    } else if j == pos {
                        assert(out@[i] == before[i]);
                    } else if i < pos {
                        assert(out@[i] == before[i] && out@[j] == before[j - 1]);
                        assert(before[pos as int].received_at_ms < t);
                        if pos < j - 1 {
                            assert(before[pos as int].received_at_ms >= before[j - 1].received_at_ms);
                        }
                    } else if i == pos {
                        assert(out@[j] == before[j - 1]);
                        assert(before[pos as int].received_at_ms < t);
                        if pos < j - 1 {
                            assert(before[pos as int].received_at_ms >= before[j - 1].received_at_ms);
                        }
                    } else {
                        assert(out@[i] == before[i - 1] && out@[j] == before[j - 1]);
                    }
                }
            }
            k = k + 1;
        }
        proof {
            assert(self.active@.take(self.active@.len() as int) =~= self.active@);
        }
        out
    }

    /// The history, newest first.
    pub fn history_items(&self) -> (r: &[AlarmViewItem])
        ensures
            r@.map_values(|i: AlarmViewItem| item_pair(i)) == self@.history,
            r@.len() <= MAX_ALARM_HISTORY,
    {
        proof {
            use_type_invariant(self);
        }
        self.history.as_slice()
    }

    /// Whether the operator acknowledged an alarm.
    pub fn is_acknowledged(&self, device_id: &String, alarm_id: &String) -> (r: bool)
        ensures
            r == self@.acknowledged.contains((device_id@, alarm_id@)),
    {
        proof {
            use_type_invariant(self);
        }
        match find_ack(&self.acknowledged, device_id, alarm_id) {
            Some(i) => {
                proof {
                    lemma_keyed_map_index(self.acknowledged@, ack_key(), ack_val(), i as int);
                }
                true
            },
            None => false,
        }
    }

    /// The highest severity rank among the active alarms; 0 when none is
    /// active.
    pub fn highest_active_rank(&self) -> (r: u8)
        ensures
            forall|k: Key| #[trigger]
                self@.active.dom().contains(k) ==> spec_alarm_level_rank(self@.active[k].0.level) <= r,
            r == 0 <==> self@.active.dom() == Set::<Key>::empty(),
            r != 0 ==> exists|k: Key|
                #[trigger] self@.active.dom().contains(k) && spec_alarm_level_rank(self@.active[k].0.level)
                    == r,
    {
        proof {
            use_type_invariant(self);
        }
        let ghost items = self.active@;
        let mut best: u8 = 0;
        let mut i: usize = 0;
        while i < self.active.len()
            invariant
                i <= items.len(),
                self.active@ == items,
                forall|t: int| 0 <= t < i ==> spec_alarm_level_rank(#[trigger] items[t].event.level) <= best,
                best == 0 ==> i == 0,
                best != 0 ==> exists|t: int|
                    0 <= t < i && spec_alarm_level_rank(#[trigger] items[t].event.level) == best,
            decreases items.len() - i,
        {
            let rank = alarm_level_rank(&self.active[i].event.level);
            if rank > best {
                best = rank;
            }
            i = i + 1;
        }
        proof {
            let m = keyed_map(items, item_key(), item_val());
            assert forall|k: Key| #[trigger] m.dom().contains(k) implies spec_alarm_level_rank(m[k].0.level)
                <= best by {
                lemma_keyed_map_dom(items, item_key(), item_val(), k);
                let t = choose|t: int| 0 <= t < items.len() && item_key()(items[t]) == k;
                lemma_keyed_map_index(items, item_key(), item_val(), t);
                assert(spec_alarm_level_rank(items[t].event.level) <= best);
            }
            if best != 0 {
                let t = choose|t: int|
                    0 <= t < i && spec_alarm_level_rank(#[trigger] items[t].event.level) == best;
                lemma_keyed_map_index(items, item_key(), item_val(), t);
                assert(m.dom().contains(item_key()(items[t])));
                assert(m.dom() != Set::<Key>::empty()) by {
                    assert(Set::<Key>::empty().contains(item_key()(items[t])) == false);
                }
            } else {
                assert(items.len() == 0);
                assert(m.dom() =~= Set::<Key>::empty()) by {
                    assert forall|k: Key| !m.dom().contains(k) by {
                        lemma_keyed_map_dom(items, item_key(), item_val(), k);
                    }
                }
            }
        }
        best
    }

    /// Whether some active alarm has the id `alarm_id`.
    pub fn alarm_active(&self, alarm_id: &str) -> (r: bool)
        ensures
            r == exists|k: Key| #[trigger] self@.active.dom().contains(k) && k.1 == alarm_id@,
    {
        proof {
            use_type_invariant(self);
        }
        let ghost items = self.active@;
        let mut i: usize = 0;
        while i < self.active.len()
            invariant
                i <= items.len(),
                self.active@ == items,
                distinct_keys(items, item_key()),
                forall|t: int| 0 <= t < i ==> (#[trigger] items[t]).event.alarm_id@ != alarm_id@,
            decreases items.len() - i,
        {
            if text_is(&self.active[i].event.alarm_id, alarm_id) {
                proof {
                    lemma_keyed_map_index(items, item_key(), item_val(), i as int);
                    let k = item_key()(items[i as int]);
                    assert(self@.active.dom().contains(k) && k.1 == alarm_id@);
                }
                return true;
            }
            i = i + 1;
        }
        proof {
            let m = keyed_map(items, item_key(), item_val());
            assert forall|k: Key| #[trigger] m.dom().contains(k) implies k.1 != alarm_id@ by {
                lemma_keyed_map_dom(items, item_key(), item_val(), k);
                let t = choose|t: int| 0 <= t < items.len() && item_key()(items[t]) == k;
                assert(items[t].event.alarm_id@ != alarm_id@);
            }
        }
        false
    }

    /// The SENT jump level shown for `alarm_id`: the highest among its
    /// active alarms, `Normal` when none is active.
    pub fn sent_jump_level_for_alarm(&self, alarm_id: &str) -> (r: SentJumpLevel)
        ensures
            forall|k: Key| #[trigger]
                self@.active.dom().contains(k) && k.1 == alarm_id@ ==> jump_rank(
                    jump_level_of(self@.active[k].0.level),
                ) <= jump_rank(r),
            r == SentJumpLevel::Normal || exists|k: Key|
                #[trigger] self@.active.dom().contains(k) && k.1 == alarm_id@ && jump_level_of(
                    self@.active[k].0.level,
                ) == r,
    {
        proof {
            use_type_invariant(self);
        }
        let ghost items = self.active@;
        let mut best = SentJumpLevel::Normal;
        let mut i: usize = 0;
        while i < self.active.len()
            invariant
                i <= items.len(),
                self.active@ == items,
                forall|t: int|
                    0 <= t < i && (#[trigger] items[t]).event.alarm_id@ == alarm_id@ ==> jump_rank(
                        jump_level_of(items[t].event.level),
                    ) <= jump_rank(best),
                best == SentJumpLevel::Normal || exists|t: int|
                    0 <= t < i && (#[trigger] items[t]).event.alarm_id@ == alarm_id@ && jump_level_of(
                        items[t].event.level,
                    ) == best,
            decreases items.len() - i,
        {
            if text_is(&self.active[i].event.alarm_id, alarm_id) {
                let level = match self.active[i].event.level {
                    AlarmLevel::Purple => SentJumpLevel::Purple,
                    AlarmLevel::Critical => SentJumpLevel::Critical,
                    AlarmLevel::Warning | AlarmLevel::Info => SentJumpLevel::Warning,
                };
                let rank: u8 = match level {
                    SentJumpLevel::Purple => 3,
                    SentJumpLevel::Critical => 2,
                    SentJumpLevel::Warning => 1,
                    SentJumpLevel::Normal => 0,
                };
                let best_rank: u8 = match best {
                    SentJumpLevel::Purple => 3,
                    SentJumpLevel::Critical => 2,
                    SentJumpLevel::Warning => 1,
                    SentJumpLevel::Normal => 0,
                };
                if rank > best_rank {
                    best = level;
                }
            }
            i = i + 1;
        }
        proof {
            let m = keyed_map(items, item_key(), item_val());
            assert forall|k: Key| #[trigger] m.dom().contains(k) && k.1 == alarm_id@ implies jump_rank(
                jump_level_of(m[k].0.level),
            ) <= jump_rank(best) by {
                lemma_keyed_map_dom(items, item_key(), item_val(), k);
                let t = choose|t: int| 0 <= t < items.len() && item_key()(items[t]) == k;
                lemma_keyed_map_index(items, item_key(), item_val(), t);
                assert(items[t].event.alarm_id@ == alarm_id@);
            }
            if best != SentJumpLevel::Normal {
                let t = choose|t: int|
                    0 <= t < i && (#[trigger] items[t]).event.alarm_id@ == alarm_id@ && jump_level_of(
                        items[t].event.level,
                    ) == best;
                lemma_keyed_map_index(items, item_key(), item_val(), t);
                assert(m.dom().contains(item_key()(items[t])));
            }
        }
        best
    }

    /// Raises of `alarm_id` kept in the history.
    pub fn alarm_raise_count(&self, alarm_id: &str) -> (r: usize)
        ensures
            r == raises_of(self@.history, alarm_id@),
    {
        proof {
            use_type_invariant(self);
        }
        let ghost h = self@.history;
        let mut n: usize = 0;
        let mut i: usize = 0;
        while i < self.history.len()
            invariant
                i <= self.history@.len() <= MAX_ALARM_HISTORY,
                h == self.history@.map_values(|it: AlarmViewItem| item_pair(it)),
                n == raises_of(h.take(i as int), alarm_id@),
                n <= i,
            decreases self.history@.len() - i,
        {
            let e = &self.history[i].event;
            proof {
                assert(h.take(i + 1).drop_last() =~= h.take(i as int));
                assert(h.take(i + 1).last() == item_pair(self.history@[i as int]));
            }
            if text_is(&e.alarm_id, alarm_id) && !e.cleared {
                n = n + 1;
            }
            i = i + 1;
        }
        proof {
            assert(h.take(i as int) =~= h);
        }
        n
    }

    /// The alarm an indicator window shows: an active one of its kind, else
    /// (but for SENT errors) the newest of its kind in the history, with
    /// whether it is active.
    pub fn indicator(&self, kind: IndicatorKind) -> (r: Option<(&AlarmViewItem, bool)>)
        ensures
            match r {
                Some((it, active)) => if active {
                    &&& self@.active.dom().contains(item_key()(*it))
                    &&& self@.active[item_key()(*it)] == item_pair(*it)
                    &&& indicator_matches(kind, it.event)
                } else {
                    &&& kind != IndicatorKind::SentError
                    &&& forall|k: Key| #[trigger]
                        self@.active.dom().contains(k) ==> !indicator_matches(kind, self@.active[k].0)
                    &&& exists|j: int|
                        0 <= j < self@.history.len() && self@.history[j] == item_pair(*it)
                            && indicator_matches(kind, it.event) && forall|j2: int|
                            0 <= j2 < j ==> !indicator_matches(kind, #[trigger] self@.history[j2].0)
                },
                None => {
                    &&& forall|k: Key| #[trigger]
                        self@.active.dom().contains(k) ==> !indicator_matches(kind, self@.active[k].0)
                    &&& kind != IndicatorKind::SentError ==> forall|j: int|
                        0 <= j < self@.history.len() ==> !indicator_matches(kind, #[trigger] self@.history[j].0)
                },
            },
    {
        proof {
            use_type_invariant(self);
        }
        let ghost items = self.active@;
        let mut i: usize = 0;
        while i < self.active.len()
            invariant
                i <= items.len(),
                self.active@ == items,
                distinct_keys(items, item_key()),
                forall|t: int| 0 <= t < i ==> !indicator_matches(kind, (#[trigger] items[t]).event),
            decreases items.len() - i,
        {
            if indicator_matches_exec(kind, &self.active[i].event) {
                proof {
                    lemma_keyed_map_index(items, item_key(), item_val(), i as int);
                }
                return Some((&self.active[i], true));
            }
            i = i + 1;
        }
        proof {
            let m = keyed_map(items, item_key(), item_val());
            assert forall|k: Key| #[trigger] m.dom().contains(k) implies !indicator_matches(kind, m[k].0) by {
                lemma_keyed_map_dom(items, item_key(), item_val(), k);
                let t = choose|t: int| 0 <= t < items.len() && item_key()(items[t]) == k;
                lemma_keyed_map_index(items, item_key(), item_val(), t);
                assert(!indicator_matches(kind, items[t].event));
            }
        }
        let sent_error = match kind {
            IndicatorKind::SentError => true,
            _ => false,
        };
        if sent_error {
            return None;
        }
        let ghost h = self@.history;
        let mut j: usize = 0;
        while j < self.history.len()
            invariant
                j <= self.history@.len(),
                h == self.history@.map_values(|it: AlarmViewItem| item_pair(it)),
                h == self@.history,
                kind != IndicatorKind::SentError,
                forall|k: Key| #[trigger]
                    self@.active.dom().contains(k) ==> !indicator_matches(kind, self@.active[k].0),
                forall|t: int| 0 <= t < j ==> !indicator_matches(kind, #[trigger] h[t].0),
            decreases self.history@.len() - j,
        {
            if indicator_matches_exec(kind, &self.history[j].event) {
                proof {
                    assert(h[j as int] == item_pair(self.history@[j as int]));
                    assert(0 <= j < self@.history.len() && self@.history[j as int] == item_pair(
                        self.history@[j as int],
                    ) && indicator_matches(kind, self.history@[j as int].event));
                }
                return Some((&self.history[j], false));
            }
            proof {
                assert(h[j as int] == item_pair(self.history@[j as int]));
            }
            j = j + 1;
        }
        None
    }
}

/// After a snapshot the panel shows exactly the tracker's active alarms.
pub proof fn lemma_snapshot_shows_tracker(
    shown: Map<Key, (AlarmEvent, u64)>,
    events: Map<Key, AlarmEvent>,
    now_ms: u64,
)
    ensures
        spec_rebuild(shown, events, now_ms).dom() == events.dom(),
        forall|k: Key| #[trigger]
            events.dom().contains(k) ==> spec_rebuild(shown, events, now_ms)[k].0 == events[k],
        forall|k: Key|
            #[trigger] events.dom().contains(k) && shown.dom().contains(k) ==> spec_rebuild(
                shown,
                events,
                now_ms,
            )[k].1 == shown[k].1,
{
    assert(spec_rebuild(shown, events, now_ms).dom() =~= events.dom());
}

/// The history keeps at most its length, the newest entry first.
pub proof fn lemma_history_bounded(h: Seq<(AlarmEvent, u64)>, x: (AlarmEvent, u64))
    requires
        h.len() <= MAX_ALARM_HISTORY,
    ensures
        push_front_capped(h, x).len() <= MAX_ALARM_HISTORY,
        push_front_capped(h, x)[0] == x,
        forall|i: int| 0 < i < push_front_capped(h, x).len() ==> push_front_capped(h, x)[i] == h[i - 1],
{
}

/// Raising an alarm that is already shown does not count it again; raising
/// one that is not shown counts it once (up to the counter's limit).
pub proof fn lemma_raise_counts_once(m: PanelModel, t: TrackerModel, e: AlarmEvent, now_ms: u64)
    requires
        !e.cleared,
        m.total_alarm_count < u64::MAX,
    ensures
        m.active.dom().contains(ev_key()(e)) ==> spec_panel_update(m, t, e, now_ms).total_alarm_count
            == m.total_alarm_count,
        !m.active.dom().contains(ev_key()(e)) ==> spec_panel_update(m, t, e, now_ms).total_alarm_count
            == m.total_alarm_count + 1,
        spec_panel_update(spec_panel_update(m, t, e, now_ms), t, e, now_ms).total_alarm_count
            == spec_panel_update(m, t, e, now_ms).total_alarm_count,
{
}

} // verus!
