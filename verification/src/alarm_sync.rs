//! Alarm state shared between the collector and its viewers.
//!
//! The collector keeps the truth in an [`AlarmState`]: every raise or clear
//! bumps a revision and yields an [`AlarmUpdate`]; a snapshot carries the
//! active set at a revision. A viewer merges snapshots and updates, which may
//! arrive late or twice, in an [`AlarmTracker`].
use vstd::prelude::*;
use crate::alarm::AlarmEvent;
use crate::keyed::{
    Key, distinct_keys, keyed_map, lemma_distinct_push, lemma_keyed_map_dom, lemma_keyed_map_index,
    lemma_keyed_map_push, lemma_keyed_map_remove, lemma_keyed_map_update,
};

verus! {

/// Key of an alarm event: (device id, alarm id).
pub open spec fn ev_key() -> spec_fn(AlarmEvent) -> Key {
    |e: AlarmEvent| (e.device_id@, e.alarm_id@)
}

pub open spec fn ev_val() -> spec_fn(AlarmEvent) -> AlarmEvent {
    |e: AlarmEvent| e
}

/// The map from key to event that a list of events stands for.
pub open spec fn events_map(s: Seq<AlarmEvent>) -> Map<Key, AlarmEvent> {
    keyed_map(s, ev_key(), ev_val())
}

/// One raise or clear, stamped with the collector session and revision.
#[derive(Debug)]
pub struct AlarmUpdate {
    pub epoch: u128,
    pub revision: u64,
    pub event: AlarmEvent,
}

impl Clone for AlarmUpdate {
    fn clone(&self) -> (r: Self)
        ensures
            r == *self,
    {
        AlarmUpdate { epoch: self.epoch, revision: self.revision, event: self.event.clone() }
    }
}

/// The active alarms of a collector session at one revision.
#[derive(Debug)]
pub struct AlarmSnapshot {
    pub epoch: u128,
    pub revision: u64,
    pub alarms: Vec<AlarmEvent>,
}

/// `alarms` lists exactly the active alarms `active`, once each, none cleared.
pub open spec fn snapshot_matches(alarms: Seq<AlarmEvent>, active: Map<Key, AlarmEvent>) -> bool {
    &&& distinct_keys(alarms, ev_key())
    &&& events_map(alarms) == active
    &&& forall|i: int| 0 <= i < alarms.len() ==> !(#[trigger] alarms[i]).cleared
}

/// Finds the event with the given key.
fn find_event(v: &Vec<AlarmEvent>, device_id: &String, alarm_id: &String) -> (r: Option<usize>)
    ensures
        match r {
            Some(i) => i < v@.len() && ev_key()(v@[i as int]) == (device_id@, alarm_id@),
            None => !events_map(v@).dom().contains((device_id@, alarm_id@)),
        },
{
    let mut i: usize = 0;
    while i < v.len()
        invariant
            i <= v@.len(),
            forall|j: int| 0 <= j < i ==> ev_key()(v@[j]) != (device_id@, alarm_id@),
        decreases v@.len() - i,
    {
        if v[i].device_id == *device_id && v[i].alarm_id == *alarm_id {
            return Some(i);
        }
        i = i + 1;
    }
    proof {
        lemma_keyed_map_dom(v@, ev_key(), ev_val(), (device_id@, alarm_id@));
    }
    None
}

/// Inserts `e`, replacing the event with the same key.
fn upsert_event(v: &mut Vec<AlarmEvent>, e: AlarmEvent)
    requires
        distinct_keys(old(v)@, ev_key()),
    ensures
        distinct_keys(final(v)@, ev_key()),
        events_map(final(v)@) == events_map(old(v)@).insert(ev_key()(e), e),
        (forall|i: int| 0 <= i < old(v)@.len() ==> !(#[trigger] old(v)@[i]).cleared) && !e.cleared
            ==> forall|i: int| 0 <= i < final(v)@.len() ==> !(#[trigger] final(v)@[i]).cleared,
{
    match find_event(v, &e.device_id, &e.alarm_id) {
        Some(i) => {
            proof {
                lemma_keyed_map_update(v@, ev_key(), ev_val(), i as int, e);
            }
            v.set(i, e);
        },
        None => {
            proof {
                lemma_keyed_map_push(v@, ev_key(), ev_val(), e);
                lemma_distinct_push(v@, ev_key(), ev_val(), e);
            }
            v.push(e);
        },
    }
}

/// Removes the event with the given key, if present.
fn remove_event(v: &mut Vec<AlarmEvent>, device_id: &String, alarm_id: &String)
    requires
        distinct_keys(old(v)@, ev_key()),
    ensures
        distinct_keys(final(v)@, ev_key()),
        events_map(final(v)@) == events_map(old(v)@).remove((device_id@, alarm_id@)),
        (forall|i: int| 0 <= i < old(v)@.len() ==> !(#[trigger] old(v)@[i]).cleared) ==> forall|
            i: int,
        |
            0 <= i < final(v)@.len() ==> !(#[trigger] final(v)@[i]).cleared,
{
    match find_event(v, device_id, alarm_id) {
        Some(i) => {
            proof {
                lemma_keyed_map_remove(v@, ev_key(), ev_val(), i as int);
            }
            let ghost before = v@;
            v.remove(i);
            assert forall|j: int| 0 <= j < v@.len() implies v@[j] == before[if j < i {
                j
            } else {
                j + 1
            }] by {}
        },
        None => {
            assert(events_map(v@) =~= events_map(v@).remove((device_id@, alarm_id@)));
        },
    }
}

// ---------------------------------------------------------------------------
// Collector side
// ---------------------------------------------------------------------------
/// What an [`AlarmState`] stands for.
pub struct CollectorModel {
    pub epoch: u128,
    pub revision: u64,
    pub active: Map<Key, AlarmEvent>,
}

/// Recording one raise or clear: the revision goes up by one and the active
/// set gains or loses the alarm.
pub open spec fn spec_record(m: CollectorModel, alarm: AlarmEvent) -> (CollectorModel, AlarmUpdate) {
    let revision = (m.revision + 1) as u64;
    let k = ev_key()(alarm);
    (
        CollectorModel {
            epoch: m.epoch,
            revision,
            active: if alarm.cleared {
                m.active.remove(k)
            } else {
                m.active.insert(k, alarm)
            },
        },
        AlarmUpdate { epoch: m.epoch, revision, event: alarm },
    )
}

/// Each recorded transition takes the next revision of the same session
/// and is announced with it; afterwards its alarm is active exactly when it
/// was raised, and every other alarm is as it was.
pub proof fn lemma_transition_steps_revision(m: CollectorModel, alarm: AlarmEvent, cleared: bool, other: Key)
    requires
        m.revision < u64::MAX,
        other != ev_key()(alarm),
    ensures
        ({
            let (m1, u) = spec_record(m, AlarmEvent { cleared, ..alarm });
            &&& u.epoch == m.epoch && m1.epoch == m.epoch
            &&& u.revision == m.revision + 1 && m1.revision == u.revision
            &&& u.event == AlarmEvent { cleared, ..alarm }
            &&& m1.active.dom().contains(ev_key()(alarm)) == !cleared
            &&& m1.active.dom().contains(other) == m.active.dom().contains(other)
            &&& m.active.dom().contains(other) ==> m1.active[other] == m.active[other]
        }),
{
    assert(ev_key()(AlarmEvent { cleared, ..alarm }) == ev_key()(alarm));
}

/// Makes a fresh collector session id (`uuid::Uuid::new_v4`, as its 128 bits).
/// The id is random: nothing is promised of it.
#[verifier::external_body]
fn new_epoch() -> u128 {
    uuid::Uuid::new_v4().as_u128()
}

/// The collector's alarm truth: session id, last revision and active alarms.
pub struct AlarmState {
    epoch: u128,
    revision: u64,
    active: Vec<AlarmEvent>,
}

impl View for AlarmState {
    type V = CollectorModel;

    closed spec fn view(&self) -> CollectorModel {
        CollectorModel { epoch: self.epoch, revision: self.revision, active: events_map(self.active@) }
    }
}

impl AlarmState {
    #[verifier::type_invariant]
    closed spec fn inv(self) -> bool {
        &&& distinct_keys(self.active@, ev_key())
        &&& forall|i: int| 0 <= i < self.active@.len() ==> !(#[trigger] self.active@[i]).cleared
    }

    /// A new session: fresh random epoch, revision 0, nothing active.
    pub fn new() -> (r: Self)
        ensures
            r@.revision == 0,
            r@.active == Map::<Key, AlarmEvent>::empty(),
    {
        AlarmState { epoch: new_epoch(), revision: 0, active: Vec::new() }
    }

    pub fn epoch(&self) -> (r: u128)
        ensures
            r == self@.epoch,
    {
        self.epoch
    }

    pub fn revision(&self) -> (r: u64)
        ensures
            r == self@.revision,
    {
        self.revision
    }

    /// Records a raise (`alarm.cleared == false`) or a clear and returns the
    /// update that announces it.
    pub fn record(&mut self, alarm: AlarmEvent) -> (u: AlarmUpdate)
        requires
            old(self)@.revision < u64::MAX,
        ensures
            (final(self)@, u) == spec_record(old(self)@, alarm),
    {
        proof {
            use_type_invariant(&*self);
        }
        let revision = self.revision + 1;
        let mut active: Vec<AlarmEvent> = Vec::new();
        std::mem::swap(&mut active, &mut self.active);
        if alarm.cleared {
            remove_event(&mut active, &alarm.device_id, &alarm.alarm_id);
        } else {
            upsert_event(&mut active, alarm.clone());
        }
        self.active = active;
        self.revision = revision;
        AlarmUpdate { epoch: self.epoch, revision, event: alarm }
    }

    /// Records `alarm` as raised (`cleared == false`) or cleared, whatever
    /// its own flag says, and returns the update that announces it.
    pub fn record_transition(&mut self, alarm: AlarmEvent, cleared: bool) -> (u: AlarmUpdate)
        requires
            old(self)@.revision < u64::MAX,
        ensures
            (final(self)@, u) == spec_record(old(self)@, AlarmEvent { cleared, ..alarm }),
    {
        let mut alarm = alarm;
        alarm.cleared = cleared;
        self.record(alarm)
    }

    /// The active alarms at the current revision.
    pub fn snapshot(&self) -> (s: AlarmSnapshot)
        ensures
            s.epoch == self@.epoch,
            s.revision == self@.revision,
            snapshot_matches(s.alarms@, self@.active),
    {
        proof {
            use_type_invariant(self);
        }
        AlarmSnapshot { epoch: self.epoch, revision: self.revision, alarms: self.active.clone() }
    }
}

// ---------------------------------------------------------------------------
// Viewer side
// ---------------------------------------------------------------------------
/// What an [`AlarmTracker`] stands for.
pub struct TrackerModel {
    /// Collector session the tracker follows.
    pub epoch: Option<u128>,
    /// Revision of the last snapshot applied.
    pub snapshot_revision: Option<u64>,
    /// Per alarm, the revision of the last update applied to it.
    pub revisions: Map<Key, u64>,
    /// Active alarms.
    pub active: Map<Key, AlarmEvent>,
}

/// Applying one update. The tracker adopts the update's session if it has
/// none yet. The update is refused when it belongs to another session, is
/// not newer than the last snapshot, or not newer than the last update of
/// the same alarm; otherwise it raises or clears its alarm.
pub open spec fn spec_apply_update(m: TrackerModel, u: AlarmUpdate) -> (TrackerModel, bool) {
    let epoch = match m.epoch {
        Some(e) => e,
        None => u.epoch,
    };
    let m1 = TrackerModel { epoch: Some(epoch), ..m };
    let k = ev_key()(u.event);
    if u.epoch != epoch || (m.snapshot_revision matches Some(r) && u.revision <= r) || (
    m.revisions.dom().contains(k) && u.revision <= m.revisions[k]) {
        (m1, false)
    } else {
        (
            TrackerModel {
                revisions: m.revisions.insert(k, u.revision),
                active: if u.event.cleared {
                    m.active.remove(k)
                } else {
                    m.active.insert(k, u.event)
                },
                ..m1
            },
            true,
        )
    }
}

/// The per-alarm revisions newer than `r`.
pub open spec fn newer_than(revisions: Map<Key, u64>, r: u64) -> Map<Key, u64> {
    revisions.restrict(Set::new(|k: Key| revisions.dom().contains(k) && revisions[k] > r))
}

/// Laying the alarms of a snapshot over `active`: every alarm listed as
/// raised, whose key has no newer update, becomes active.
pub open spec fn overlay(
    active: Map<Key, AlarmEvent>,
    alarms: Seq<AlarmEvent>,
    revisions: Map<Key, u64>,
) -> Map<Key, AlarmEvent>
    decreases alarms.len(),
{
    if alarms.len() == 0 {
        active
    } else {
        let prev = overlay(active, alarms.drop_last(), revisions);
        let a = alarms.last();
        if !a.cleared && !revisions.dom().contains(ev_key()(a)) {
            prev.insert(ev_key()(a), a)
        } else {
            prev
        }
    }
}

/// Applying a snapshot. A snapshot of another session restarts the tracker
/// on that session. A snapshot not newer than the last one applied is
/// refused. Otherwise only updates newer than the snapshot are kept, with
/// the alarms they decided, and the snapshot's alarms fill in the rest.
pub open spec fn spec_apply_snapshot(
    m: TrackerModel,
    epoch: u128,
    revision: u64,
    alarms: Seq<AlarmEvent>,
) -> (TrackerModel, bool) {
    let base = if m.epoch != Some(epoch) {
        TrackerModel {
            epoch: Some(epoch),
            snapshot_revision: None,
            revisions: Map::empty(),
            active: Map::empty(),
        }
    } else {
        m
    };
    if base.snapshot_revision matches Some(r) && revision <= r {
        (base, false)
    } else {
        let revisions = newer_than(base.revisions, revision);
        let kept = base.active.restrict(revisions.dom());
        (
            TrackerModel {
                epoch: Some(epoch),
                snapshot_revision: Some(revision),
                revisions,
                active: overlay(kept, alarms, revisions),
            },
            true,
        )
    }
}

/// The last revision applied to one alarm.
struct RevisionEntry {
    device_id: String,
    alarm_id: String,
    revision: u64,
}

spec fn rev_key() -> spec_fn(RevisionEntry) -> Key {
    |e: RevisionEntry| (e.device_id@, e.alarm_id@)
}

spec fn rev_val() -> spec_fn(RevisionEntry) -> u64 {
    |e: RevisionEntry| e.revision
}

spec fn revisions_map(s: Seq<RevisionEntry>) -> Map<Key, u64> {
    keyed_map(s, rev_key(), rev_val())
}

fn find_revision(v: &Vec<RevisionEntry>, device_id: &String, alarm_id: &String) -> (r: Option<
    usize,
>)
    ensures
        match r {
            Some(i) => i < v@.len() && rev_key()(v@[i as int]) == (device_id@, alarm_id@),
            None => !revisions_map(v@).dom().contains((device_id@, alarm_id@)),
        },
{
    let mut i: usize = 0;
    while i < v.len()
        invariant
            i <= v@.len(),
            forall|j: int| 0 <= j < i ==> rev_key()(v@[j]) != (device_id@, alarm_id@),
        decreases v@.len() - i,
    {
        if v[i].device_id == *device_id && v[i].alarm_id == *alarm_id {
            return Some(i);
        }
        i = i + 1;
    }
    proof {
        lemma_keyed_map_dom(v@, rev_key(), rev_val(), (device_id@, alarm_id@));
    }
    None
}

/// A viewer's merge of alarm snapshots and updates from one collector.
pub struct AlarmTracker {
    epoch: Option<u128>,
    snapshot_revision: Option<u64>,
    revisions: Vec<RevisionEntry>,
    active: Vec<AlarmEvent>,
}

impl View for AlarmTracker {
    type V = TrackerModel;

    closed spec fn view(&self) -> TrackerModel {
        TrackerModel {
            epoch: self.epoch,
            snapshot_revision: self.snapshot_revision,
            revisions: revisions_map(self.revisions@),
            active: events_map(self.active@),
        }
    }
}

impl AlarmTracker {
    #[verifier::type_invariant]
    closed spec fn inv(self) -> bool {
        &&& distinct_keys(self.revisions@, rev_key())
        &&& distinct_keys(self.active@, ev_key())
    }

    /// A tracker that has seen nothing.
    pub fn new() -> (r: Self)
        ensures
            r@.epoch is None,
            r@.snapshot_revision is None,
            r@.revisions == Map::<Key, u64>::empty(),
            r@.active == Map::<Key, AlarmEvent>::empty(),
    {
        AlarmTracker { epoch: None, snapshot_revision: None, revisions: Vec::new(), active: Vec::new() }
    }

    /// The collector session being followed.
    pub fn epoch(&self) -> (r: Option<u128>)
        ensures
            r == self@.epoch,
    {
        self.epoch
    }

    /// The active alarms, once each.
    pub fn active(&self) -> (r: &[AlarmEvent])
        ensures
            events_map(r@) == self@.active,
            distinct_keys(r@, ev_key()),
    {
        proof {
            use_type_invariant(self);
        }
        self.active.as_slice()
    }

    /// Applies one update; returns whether it was taken.
    pub fn apply_update(&mut self, update: &AlarmUpdate) -> (accepted: bool)
        ensures
            (final(self)@, accepted) == spec_apply_update(old(self)@, *update),
    {
        proof {
            use_type_invariant(&*self);
        }
        let epoch = match self.epoch {
            Some(e) => e,
            None => {
                self.epoch = Some(update.epoch);
                update.epoch
            },
        };
        if update.epoch != epoch {
            return false;
        }
        match self.snapshot_revision {
            Some(r) => {
                if update.revision <= r {
                    return false;
                }
            },
            None => {},
        }
        let device_id = &update.event.device_id;
        let alarm_id = &update.event.alarm_id;
        let mut revisions: Vec<RevisionEntry> = Vec::new();
        std::mem::swap(&mut revisions, &mut self.revisions);
        let entry = RevisionEntry {
            device_id: device_id.clone(),
            alarm_id: alarm_id.clone(),
            revision: update.revision,
        };
        match find_revision(&revisions, device_id, alarm_id) {
            Some(i) => {
                proof {
                    lemma_keyed_map_index(revisions@, rev_key(), rev_val(), i as int);
                }
                if update.revision <= revisions[i].revision {
                    self.revisions = revisions;
                    return false;
                }
                proof {
                    lemma_keyed_map_update(revisions@, rev_key(), rev_val(), i as int, entry);
                }
                revisions.set(i, entry);
            },
            None => {
                proof {
                    lemma_keyed_map_push(revisions@, rev_key(), rev_val(), entry);
                    lemma_distinct_push(revisions@, rev_key(), rev_val(), entry);
                }
                revisions.push(entry);
            },
        }
        self.revisions = revisions;
        let mut active: Vec<AlarmEvent> = Vec::new();
        std::mem::swap(&mut active, &mut self.active);
        if update.event.cleared {
            remove_event(&mut active, device_id, alarm_id);
        } else {
            upsert_event(&mut active, update.event.clone());
        }
        self.active = active;
        true
    }

    /// Applies a snapshot; returns whether it was taken.
    pub fn apply_snapshot(&mut self, snapshot: &AlarmSnapshot) -> (accepted: bool)
        ensures
            (final(self)@, accepted) == spec_apply_snapshot(
                old(self)@,
                snapshot.epoch,
                snapshot.revision,
                snapshot.alarms@,
            ),
    {
        let same_epoch = match self.epoch {
            Some(e) => e == snapshot.epoch,
            None => false,
        };
        if !same_epoch {
            *self = AlarmTracker {
                epoch: Some(snapshot.epoch),
                snapshot_revision: None,
                revisions: Vec::new(),
                active: Vec::new(),
            };
            assert(self@.revisions =~= Map::<Key, u64>::empty());
            assert(self@.active =~= Map::<Key, AlarmEvent>::empty());
        }
        proof {
            use_type_invariant(&*self);
        }
        let ghost base = self@;
        match self.snapshot_revision {
            Some(r) => {
                if snapshot.revision <= r {
                    return false;
                }
            },
            None => {},
        }
        let cutoff = snapshot.revision;
        let mut old_revisions: Vec<RevisionEntry> = Vec::new();
        std::mem::swap(&mut old_revisions, &mut self.revisions);
        let ghost newer = newer_than(base.revisions, cutoff);
        let mut revisions: Vec<RevisionEntry> = Vec::new();
        let mut i: usize = 0;
        while i < old_revisions.len()
            invariant
                i <= old_revisions@.len(),
                distinct_keys(old_revisions@, rev_key()),
                revisions_map(old_revisions@) == base.revisions,
                distinct_keys(revisions@, rev_key()),
                revisions_map(revisions@) == newer_than(
                    revisions_map(old_revisions@.take(i as int)),
                    cutoff,
                ),
            decreases old_revisions@.len() - i,
        {
            let ghost prefix = old_revisions@.take(i as int);
            let ghost e = old_revisions@[i as int];
            proof {
                assert(old_revisions@.take(i + 1).drop_last() =~= prefix);
                lemma_keyed_map_dom(prefix, rev_key(), rev_val(), rev_key()(e));
                assert(!revisions_map(prefix).dom().contains(rev_key()(e))) by {
                    if revisions_map(prefix).dom().contains(rev_key()(e)) {
                        let j = choose|j: int|
                            0 <= j < prefix.len() && rev_key()(prefix[j]) == rev_key()(e);
                        assert(rev_key()(old_revisions@[j]) == rev_key()(old_revisions@[i as int]));
                    }
                }
            }
            if old_revisions[i].revision > cutoff {
                let kept = RevisionEntry {
                    device_id: old_revisions[i].device_id.clone(),
                    alarm_id: old_revisions[i].alarm_id.clone(),
                    revision: old_revisions[i].revision,
                };
                proof {
                    lemma_keyed_map_push(revisions@, rev_key(), rev_val(), kept);
                    lemma_distinct_push(revisions@, rev_key(), rev_val(), kept);
                    assert(revisions_map(revisions@.push(kept)) =~= newer_than(
                        revisions_map(old_revisions@.take(i + 1)),
                        cutoff,
                    ));
                }
                revisions.push(kept);
            } else {
                proof {
                    assert(revisions_map(revisions@) =~= newer_than(
                        revisions_map(old_revisions@.take(i + 1)),
                        cutoff,
                    ));
                }
            }
            i = i + 1;
        }
        assert(old_revisions@.take(i as int) =~= old_revisions@);
        let mut old_active: Vec<AlarmEvent> = Vec::new();
        std::mem::swap(&mut old_active, &mut self.active);
        let mut active: Vec<AlarmEvent> = Vec::new();
        let mut j: usize = 0;
        while j < old_active.len()
            invariant
                j <= old_active@.len(),
                distinct_keys(old_active@, ev_key()),
                events_map(old_active@) == base.active,
                revisions_map(revisions@) == newer,
                distinct_keys(revisions@, rev_key()),
                distinct_keys(active@, ev_key()),
                events_map(active@) == events_map(old_active@.take(j as int)).restrict(newer.dom()),
            decreases old_active@.len() - j,
        {
            let ghost prefix = old_active@.take(j as int);
            let ghost e = old_active@[j as int];
            proof {
                assert(old_active@.take(j + 1).drop_last() =~= prefix);
                lemma_keyed_map_dom(prefix, ev_key(), ev_val(), ev_key()(e));
                assert(!events_map(prefix).dom().contains(ev_key()(e))) by {
                    if events_map(prefix).dom().contains(ev_key()(e)) {
                        let k = choose|k: int|
                            0 <= k < prefix.len() && ev_key()(prefix[k]) == ev_key()(e);
                        assert(ev_key()(old_active@[k]) == ev_key()(old_active@[j as int]));
                    }
                }
            }
            match find_revision(&revisions, &old_active[j].device_id, &old_active[j].alarm_id) {
                Some(idx) => {
                    let kept = old_active[j].clone();
                    proof {
                        lemma_keyed_map_index(revisions@, rev_key(), rev_val(), idx as int);
                        lemma_keyed_map_push(active@, ev_key(), ev_val(), kept);
                        lemma_distinct_push(active@, ev_key(), ev_val(), kept);
                        assert(events_map(active@.push(kept)) =~= events_map(
                            old_active@.take(j + 1),
                        ).restrict(newer.dom()));
                    }
                    active.push(kept);
                },
                None => {
                    proof {
                        assert(events_map(active@) =~= events_map(
                            old_active@.take(j + 1),
                        ).restrict(newer.dom()));
                    }
                },
            }
            j = j + 1;
        }
        assert(old_active@.take(j as int) =~= old_active@);
        let ghost kept = base.active.restrict(newer.dom());
        let mut n: usize = 0;
        while n < snapshot.alarms.len()
            invariant
                n <= snapshot.alarms@.len(),
                revisions_map(revisions@) == newer,
                distinct_keys(revisions@, rev_key()),
                distinct_keys(active@, ev_key()),
                events_map(active@) == overlay(kept, snapshot.alarms@.take(n as int), newer),
            decreases snapshot.alarms@.len() - n,
        {
            proof {
                assert(snapshot.alarms@.take(n + 1).drop_last() =~= snapshot.alarms@.take(
                    n as int,
                ));
            }
            let alarm = &snapshot.alarms[n];
            assert(snapshot.alarms@.take(n + 1).last() == *alarm);
            if !alarm.cleared {
                match find_revision(&revisions, &alarm.device_id, &alarm.alarm_id) {
                    Some(idx) => {
                        proof {
                            lemma_keyed_map_index(revisions@, rev_key(), rev_val(), idx as int);
                        }
                    },
                    None => {
                        upsert_event(&mut active, alarm.clone());
                    },
                }
            }
            n = n + 1;
        }
        assert(snapshot.alarms@.take(n as int) =~= snapshot.alarms@);
        self.revisions = revisions;
        self.active = active;
        self.snapshot_revision = Some(cutoff);
        assert(self@.revisions == newer);
        true
    }
}

// ---------------------------------------------------------------------------
// Laws
// ---------------------------------------------------------------------------
/// The collector recording `events` in order: its final state and the
/// updates it announced.
pub open spec fn run_collector(m: CollectorModel, events: Seq<AlarmEvent>) -> (
    CollectorModel,
    Seq<AlarmUpdate>,
)
    decreases events.len(),
{
    if events.len() == 0 {
        (m, Seq::empty())
    } else {
        let prev = run_collector(m, events.drop_last());
        let step = spec_record(prev.0, events.last());
        (step.0, prev.1.push(step.1))
    }
}

/// A tracker applying `updates` in order: its final state, and whether every
/// update was taken.
pub open spec fn apply_updates(t: TrackerModel, updates: Seq<AlarmUpdate>) -> (TrackerModel, bool)
    decreases updates.len(),
{
    if updates.len() == 0 {
        (t, true)
    } else {
        let prev = apply_updates(t, updates.drop_last());
        let step = spec_apply_update(prev.0, updates.last());
        (step.0, prev.1 && step.1)
    }
}

proof fn lemma_overlay_fresh(alarms: Seq<AlarmEvent>)
    requires
        forall|i: int| 0 <= i < alarms.len() ==> !(#[trigger] alarms[i]).cleared,
    ensures
        overlay(Map::empty(), alarms, Map::empty()) == events_map(alarms),
    decreases alarms.len(),
{
    if alarms.len() > 0 {
        let prev = alarms.drop_last();
        assert forall|i: int| 0 <= i < prev.len() implies !(#[trigger] prev[i]).cleared by {
            assert(prev[i] == alarms[i]);
        }
        lemma_overlay_fresh(prev);
        assert(!alarms[alarms.len() - 1].cleared);
    }
}

proof fn lemma_converge_inv(
    m: CollectorModel,
    events: Seq<AlarmEvent>,
    alarms: Seq<AlarmEvent>,
    t: TrackerModel,
)
    requires
        m.revision + events.len() <= u64::MAX,
        snapshot_matches(alarms, m.active),
        t.epoch != Some(m.epoch),
    ensures
        ({
            let t1 = spec_apply_snapshot(t, m.epoch, m.revision, alarms);
            let run = run_collector(m, events);
            let t2 = apply_updates(t1.0, run.1);
            &&& t1.1
            &&& t2.1
            &&& t2.0.active == run.0.active
            &&& t2.0.epoch == Some(m.epoch)
            &&& t2.0.snapshot_revision == Some(m.revision)
            &&& run.0.revision == m.revision + events.len()
            &&& run.0.epoch == m.epoch
            &&& forall|k: Key| #[trigger]
                t2.0.revisions.dom().contains(k) ==> t2.0.revisions[k] <= run.0.revision
        }),
    decreases events.len(),
{
    let t1 = spec_apply_snapshot(t, m.epoch, m.revision, alarms);
    if events.len() == 0 {
        lemma_overlay_fresh(alarms);
        assert(newer_than(Map::<Key, u64>::empty(), m.revision) =~= Map::<Key, u64>::empty());
        assert(Map::<Key, AlarmEvent>::empty().restrict(Map::<Key, u64>::empty().dom())
            =~= Map::<Key, AlarmEvent>::empty());
    } else {
        let prev_events = events.drop_last();
        lemma_converge_inv(m, prev_events, alarms, t);
        let prev = run_collector(m, prev_events);
        let step = spec_record(prev.0, events.last());
        let run = run_collector(m, events);
        assert(run.1 == prev.1.push(step.1));
        assert(run.1.drop_last() =~= prev.1);
        let tp = apply_updates(t1.0, prev.1);
        let u = step.1;
        let k = ev_key()(u.event);
        assert(tp.0.revisions.dom().contains(k) ==> tp.0.revisions[k] <= prev.0.revision);
        let t2 = apply_updates(t1.0, run.1);
        assert(t2.0.active =~= run.0.active);
    }
}

/// A viewer that starts following a collector session from one of its
/// snapshots, and then receives the updates the collector announces for the
/// events it records, in order, ends with exactly the collector's active
/// alarms; the snapshot and every update are taken.
pub proof fn lemma_snapshot_then_updates_converge(
    m: CollectorModel,
    events: Seq<AlarmEvent>,
    alarms: Seq<AlarmEvent>,
    t: TrackerModel,
)
    requires
        m.revision + events.len() <= u64::MAX,
        snapshot_matches(alarms, m.active),
        t.epoch != Some(m.epoch),
    ensures
        ({
            let t1 = spec_apply_snapshot(t, m.epoch, m.revision, alarms);
            let run = run_collector(m, events);
            let t2 = apply_updates(t1.0, run.1);
            &&& t1.1
            &&& t2.1
            &&& t2.0.active == run.0.active
        }),
{
    lemma_converge_inv(m, events, alarms, t);
}

/// After a snapshot at revision `r`, an update at revision `r` or older is
/// refused and changes no alarm.
pub proof fn lemma_stale_update_refused(t: TrackerModel, u: AlarmUpdate)
    requires
        t.snapshot_revision matches Some(r) && u.revision <= r,
    ensures
        !spec_apply_update(t, u).1,
        spec_apply_update(t, u).0.active == t.active,
        spec_apply_update(t, u).0.revisions == t.revisions,
        spec_apply_update(t, u).0.snapshot_revision == t.snapshot_revision,
{
}

/// An update from another collector session than the one followed is
/// refused and changes nothing.
pub proof fn lemma_other_session_update_refused(t: TrackerModel, u: AlarmUpdate)
    requires
        t.epoch is Some,
        t.epoch != Some(u.epoch),
    ensures
        spec_apply_update(t, u) == (t, false),
{
}

/// An update that was taken is refused when it arrives again, and the
/// second delivery changes nothing.
pub proof fn lemma_duplicate_update_refused(t: TrackerModel, u: AlarmUpdate)
    requires
        spec_apply_update(t, u).1,
    ensures
        spec_apply_update(spec_apply_update(t, u).0, u) == (spec_apply_update(t, u).0, false),
{
    let t1 = spec_apply_update(t, u).0;
    assert(t1.revisions.dom().contains(ev_key()(u.event)));
}

/// A snapshot not newer than the last one applied, from the same session,
/// is refused and changes nothing.
pub proof fn lemma_old_snapshot_refused(
    t: TrackerModel,
    revision: u64,
    alarms: Seq<AlarmEvent>,
)
    requires
        t.epoch is Some,
        t.snapshot_revision matches Some(r) && revision <= r,
    ensures
        spec_apply_snapshot(t, t.epoch->0, revision, alarms) == (t, false),
{
}

proof fn lemma_overlay_keeps_updated(
    active: Map<Key, AlarmEvent>,
    alarms: Seq<AlarmEvent>,
    revisions: Map<Key, u64>,
    k: Key,
)
    requires
        revisions.dom().contains(k),
    ensures
        overlay(active, alarms, revisions).dom().contains(k) == active.dom().contains(k),
        active.dom().contains(k) ==> overlay(active, alarms, revisions)[k] == active[k],
    decreases alarms.len(),
{
    if alarms.len() > 0 {
        lemma_overlay_keeps_updated(active, alarms.drop_last(), revisions, k);
    }
}

/// `alarms` lists `k` raised.
pub open spec fn lists_raised(alarms: Seq<AlarmEvent>, k: Key) -> bool {
    exists|i: int| 0 <= i < alarms.len() && !alarms[i].cleared && #[trigger] ev_key()(alarms[i]) == k
}

proof fn lemma_overlay_dom(
    active: Map<Key, AlarmEvent>,
    alarms: Seq<AlarmEvent>,
    revisions: Map<Key, u64>,
    k: Key,
)
    ensures
        overlay(active, alarms, revisions).dom().contains(k) <==> (active.dom().contains(k) || (
        !revisions.dom().contains(k) && lists_raised(alarms, k))),
    decreases alarms.len(),
{
    if alarms.len() > 0 {
        let prev = alarms.drop_last();
        lemma_overlay_dom(active, prev, revisions, k);
        let a = alarms.last();
        if lists_raised(alarms, k) {
            let i = choose|i: int| 0 <= i < alarms.len() && !alarms[i].cleared && #[trigger] ev_key()(alarms[i]) == k;
            if i < prev.len() {
                assert(prev[i] == alarms[i]);
                assert(lists_raised(prev, k));
            }
        }
        if lists_raised(prev, k) {
            let i = choose|i: int| 0 <= i < prev.len() && !prev[i].cleared && #[trigger] ev_key()(prev[i]) == k;
            assert(alarms[i] == prev[i]);
            assert(lists_raised(alarms, k));
        }
        if !a.cleared && ev_key()(a) == k {
            assert(alarms[alarms.len() - 1] == a);
            assert(lists_raised(alarms, k));
        }
    }
}

/// The active alarms after a snapshot is taken. From a new session, `k` is
/// active exactly when the snapshot lists it raised. From the session
/// followed, an alarm updated after the snapshot's revision stays as that
/// update left it; any other alarm is active exactly when the snapshot
/// lists it raised.
pub proof fn lemma_snapshot_active_set(
    t: TrackerModel,
    epoch: u128,
    revision: u64,
    alarms: Seq<AlarmEvent>,
    k: Key,
)
    requires
        spec_apply_snapshot(t, epoch, revision, alarms).1,
    ensures
        ({
            let t1 = spec_apply_snapshot(t, epoch, revision, alarms).0;
            &&& t.epoch != Some(epoch) ==> (t1.active.dom().contains(k) <==> lists_raised(alarms, k))
            &&& t.epoch == Some(epoch) ==> {
                let newer = newer_than(t.revisions, revision);
                t1.active.dom().contains(k) <==> if newer.dom().contains(k) {
                    t.active.dom().contains(k)
                } else {
                    lists_raised(alarms, k)
                }
            }
        }),
{
    if t.epoch != Some(epoch) {
        let newer = newer_than(Map::<Key, u64>::empty(), revision);
        assert(newer =~= Map::<Key, u64>::empty());
        let kept = Map::<Key, AlarmEvent>::empty().restrict(newer.dom());
        assert(kept =~= Map::<Key, AlarmEvent>::empty());
        lemma_overlay_dom(kept, alarms, newer, k);
    } else {
        let newer = newer_than(t.revisions, revision);
        let kept = t.active.restrict(newer.dom());
        lemma_overlay_dom(kept, alarms, newer, k);
    }
}

/// A snapshot of the followed session that arrives after newer updates
/// keeps, for each alarm updated after the snapshot's revision, whether it
/// is active and with which event, as that update decided.
pub proof fn lemma_late_snapshot_keeps_newer_updates(
    t: TrackerModel,
    revision: u64,
    alarms: Seq<AlarmEvent>,
    k: Key,
)
    requires
        t.epoch is Some,
        t.revisions.dom().contains(k),
        t.revisions[k] > revision,
    ensures
        ({
            let t1 = spec_apply_snapshot(t, t.epoch->0, revision, alarms).0;
            &&& t1.active.dom().contains(k) == t.active.dom().contains(k)
            &&& t.active.dom().contains(k) ==> t1.active[k] == t.active[k]
        }),
{
    let newer = newer_than(t.revisions, revision);
    assert(newer.dom().contains(k));
    let kept = t.active.restrict(newer.dom());
    lemma_overlay_keeps_updated(kept, alarms, newer, k);
}

} // verus!
