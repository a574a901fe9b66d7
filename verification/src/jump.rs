//! SENT jump detection: the window of past samples a jump is measured
//! against, and the state machines that turn measured jumps into alarm
//! transitions. The samples themselves are of any copyable type; measuring a
//! jump (a mean, a difference, comparisons with thresholds) is the caller's.
use vstd::prelude::*;
use crate::alarm::{SENT_JUMP_BASELINE_WINDOW, SentJumpLevel};
use crate::text::push_str;

verus! {

broadcast use vstd::seq_lib::group_to_multiset_ensures;

/// The last `SENT_JUMP_BASELINE_WINDOW` samples, kept in a ring of slots.
pub struct BaselineWindow<T> {
    slots: Vec<T>,
    len: usize,
    /// The slot of the oldest sample of a full window; the next sample
    /// overwrites it.
    oldest: usize,
}

impl<T> BaselineWindow<T> {
    #[verifier::type_invariant]
    closed spec fn inv(self) -> bool {
        &&& self.slots@.len() == SENT_JUMP_BASELINE_WINDOW
        &&& self.len <= SENT_JUMP_BASELINE_WINDOW
        &&& self.oldest < SENT_JUMP_BASELINE_WINDOW
        &&& self.len < SENT_JUMP_BASELINE_WINDOW ==> self.oldest == 0
    }

    /// The samples held, oldest first.
    pub closed spec fn arrivals(self) -> Seq<T> {
        if self.len < SENT_JUMP_BASELINE_WINDOW {
            self.slots@.take(self.len as int)
        } else {
            self.slots@.subrange(self.oldest as int, SENT_JUMP_BASELINE_WINDOW as int)
                + self.slots@.take(self.oldest as int)
        }
    }

    /// The samples held, in slot order: the order a baseline sums them in.
    pub closed spec fn slot_order(self) -> Seq<T> {
        self.slots@.take(self.len as int)
    }
}

/// The window after `value` arrives: the oldest sample leaves a full window.
pub open spec fn window_after<T>(held: Seq<T>, value: T) -> Seq<T> {
    if held.len() < SENT_JUMP_BASELINE_WINDOW {
        held.push(value)
    } else {
        held.drop_first().push(value)
    }
}

/// What a window holds after `pushes` arrive at an empty one.
pub open spec fn window_of<T>(pushes: Seq<T>) -> Seq<T>
    decreases pushes.len(),
{
    if pushes.len() == 0 {
        Seq::empty()
    } else {
        window_after(window_of(pushes.drop_last()), pushes.last())
    }
}

/// A window holds the last `SENT_JUMP_BASELINE_WINDOW` samples that
/// arrived, oldest first, or all of them while fewer arrived.
pub proof fn lemma_window_keeps_last<T>(pushes: Seq<T>)
    ensures
        window_of(pushes) == (if pushes.len() <= SENT_JUMP_BASELINE_WINDOW {
            pushes
        } else {
            pushes.subrange(pushes.len() - SENT_JUMP_BASELINE_WINDOW, pushes.len() as int)
        }),
    decreases pushes.len(),
{
    if pushes.len() > 0 {
        let rest = pushes.drop_last();
        lemma_window_keeps_last(rest);
        if pushes.len() <= SENT_JUMP_BASELINE_WINDOW {
            assert(rest.push(pushes.last()) =~= pushes);
        } else {
            let n = pushes.len() as int;
            let w = SENT_JUMP_BASELINE_WINDOW as int;
            if rest.len() <= SENT_JUMP_BASELINE_WINDOW {
                assert(rest.drop_first().push(pushes.last()) =~= pushes.subrange(n - w, n));
            } else {
                assert(rest.subrange(n - 1 - w, n - 1).drop_first().push(pushes.last())
                    =~= pushes.subrange(n - w, n));
            }
        }
    }
}

impl<T: Copy> BaselineWindow<T> {
    /// An empty window whose slots are filled with `fill`.
    pub fn new(fill: T) -> (r: Self)
        ensures
            r.arrivals() == Seq::<T>::empty(),
            r.slot_order() == Seq::<T>::empty(),
    {
        let mut slots: Vec<T> = Vec::new();
        let mut i: usize = 0;
        while i < SENT_JUMP_BASELINE_WINDOW
            invariant
                i <= SENT_JUMP_BASELINE_WINDOW,
                slots@.len() == i,
            decreases SENT_JUMP_BASELINE_WINDOW - i,
        {
            slots.push(fill);
            i = i + 1;
        }
        let r = BaselineWindow { slots, len: 0, oldest: 0 };
        assert(r.slots@.take(0) =~= Seq::<T>::empty());
        r
    }

    /// How many samples are held.
    pub fn len(&self) -> (r: usize)
        ensures
            r == self.arrivals().len(),
            r == self.slot_order().len(),
            r <= SENT_JUMP_BASELINE_WINDOW,
    {
        proof {
            use_type_invariant(self);
        }
        self.len
    }

    /// A baseline exists once the window is full.
    pub fn is_ready(&self) -> (r: bool)
        ensures
            r == (self.arrivals().len() == SENT_JUMP_BASELINE_WINDOW),
    {
        proof {
            use_type_invariant(self);
        }
        self.len >= SENT_JUMP_BASELINE_WINDOW
    }

    /// The window with `value` added, the oldest sample dropped from a
    /// full window.
    pub fn push(self, value: T) -> (r: Self)
        ensures
            r.arrivals() == window_after(self.arrivals(), value),
    {
        proof {
            use_type_invariant(&self);
        }
        let ghost before = self.arrivals();
        let ghost old_slots = self.slots@;
        let w = SENT_JUMP_BASELINE_WINDOW;
        let BaselineWindow { slots, len, oldest } = self;
        let mut slots = slots;
        if len < w {
            slots.set(len, value);
            let r = BaselineWindow { slots, len: len + 1, oldest };
            proof {
                assert(r.slots@ == old_slots.update(len as int, value));
                assert(r.arrivals() =~= before.push(value));
            }
            r
        } else {
            slots.set(oldest, value);
            let r = BaselineWindow { slots, len, oldest: if oldest + 1 == w { 0 } else { oldest + 1 } };
            proof {
                assert(r.slots@ == old_slots.update(oldest as int, value));
                assert(r.arrivals() =~= before.drop_first().push(value));
            }
            r
        }
    }

    /// The samples held, in slot order.
    pub fn samples(&self) -> (r: Vec<T>)
        ensures
            r@ == self.slot_order(),
            r@.to_multiset() == self.arrivals().to_multiset(),
    {
        proof {
            use_type_invariant(self);
            if self.len == SENT_JUMP_BASELINE_WINDOW {
                let a = self.slots@.subrange(self.oldest as int, SENT_JUMP_BASELINE_WINDOW as int);
                let b = self.slots@.take(self.oldest as int);
                assert(self.slot_order() =~= b + a);
                vstd::seq_lib::lemma_seq_union_to_multiset_commutative(a, b);
            }
        }
        let mut out: Vec<T> = Vec::new();
        let mut i: usize = 0;
        while i < self.len
            invariant
                i <= self.len <= self.slots@.len(),
                out@ == self.slots@.take(i as int),
            decreases self.len - i,
        {
            out.push(self.slots[i]);
            i = i + 1;
            assert(out@ =~= self.slots@.take(i as int));
        }
        out
    }
}

/// The level of a torque jump from how it compares with the thresholds:
/// purple at or above the purple threshold, critical at or above red,
/// warning above warn, normal otherwise.
pub open spec fn spec_level_for(reaches_purple: bool, reaches_red: bool, exceeds_warn: bool) -> SentJumpLevel {
    if reaches_purple {
        SentJumpLevel::Purple
    } else if reaches_red {
        SentJumpLevel::Critical
    } else if exceeds_warn {
        SentJumpLevel::Warning
    } else {
        SentJumpLevel::Normal
    }
}

/// The level of a torque jump, given whether it reaches the purple
/// threshold, reaches the red one and exceeds the warning one.
pub fn level_for(reaches_purple: bool, reaches_red: bool, exceeds_warn: bool) -> (r: SentJumpLevel)
    ensures
        r == spec_level_for(reaches_purple, reaches_red, exceeds_warn),
{
    if reaches_purple {
        SentJumpLevel::Purple
    } else if reaches_red {
        SentJumpLevel::Critical
    } else if exceeds_warn {
        SentJumpLevel::Warning
    } else {
        SentJumpLevel::Normal
    }
}

/// A change of a torque jump's level.
pub struct SentTorqueJumpTransition<T> {
    pub previous_level: SentJumpLevel,
    pub next_level: SentJumpLevel,
    pub delta_abs: T,
}

/// Jump tracking of one SENT torque signal.
pub struct SentTorqueJumpState<T> {
    pub history: BaselineWindow<T>,
    pub last_delta: T,
    pub alert_count: u64,
    pub level: SentJumpLevel,
}

/// `count + 1`, saturating at `u64::MAX`.
pub open spec fn saturating_inc(count: u64) -> u64 {
    if count == u64::MAX {
        count
    } else {
        (count + 1) as u64
    }
}

impl<T: Copy> SentTorqueJumpState<T> {
    /// No history, no jump yet; `zero` fills the empty slots and stands as
    /// the last jump.
    pub fn new(zero: T) -> (r: Self)
        ensures
            r.history.arrivals() == Seq::<T>::empty(),
            r.last_delta == zero,
            r.alert_count == 0,
            r.level == SentJumpLevel::Normal,
    {
        SentTorqueJumpState {
            history: BaselineWindow::new(zero),
            last_delta: zero,
            alert_count: 0,
            level: SentJumpLevel::Normal,
        }
    }

    /// The samples a new value is measured against, in slot order; `None`
    /// until the history is full.
    pub fn baseline(&self) -> (r: Option<Vec<T>>)
        ensures
            r is Some <==> self.history.arrivals().len() == SENT_JUMP_BASELINE_WINDOW,
            r matches Some(v) ==> v@ == self.history.slot_order() && v@.to_multiset()
                == self.history.arrivals().to_multiset(),
    {
        if self.history.is_ready() {
            Some(self.history.samples())
        } else {
            None
        }
    }

    /// Takes `value` into the history. `measured` is its jump against the
    /// baseline, with the level of that jump, when a baseline existed: the
    /// level moves there, a change of level is returned, and a change to a
    /// level other than normal is counted.
    pub fn evaluate(self, value: T, measured: Option<(T, SentJumpLevel)>) -> (r: (
        Self,
        Option<SentTorqueJumpTransition<T>>,
    ))
        ensures
            r.0.history.arrivals() == window_after(self.history.arrivals(), value),
            measured is None ==> r.1 is None && r.0.last_delta == self.last_delta
                && r.0.alert_count == self.alert_count && r.0.level == self.level,
            measured matches Some((delta, next)) ==> {
                &&& r.0.last_delta == delta
                &&& r.0.level == next
                &&& r.0.alert_count == (if next != self.level && next != SentJumpLevel::Normal {
                    saturating_inc(self.alert_count)
                } else {
                    self.alert_count
                })
                &&& (next == self.level ==> r.1 is None)
                &&& (next != self.level ==> (r.1 matches Some(t) && t.previous_level == self.level
                    && t.next_level == next && t.delta_abs == delta))
            },
    {
        let SentTorqueJumpState { history, last_delta, alert_count, level } = self;
        let history = history.push(value);
        match measured {
            None => (SentTorqueJumpState { history, last_delta, alert_count, level }, None),
            Some((delta, next)) => {
                let transition = if next != level {
                    Some(SentTorqueJumpTransition { previous_level: level, next_level: next, delta_abs: delta })
                } else {
                    None
                };
                let alert_count = if next != level && next != SentJumpLevel::Normal {
                    alert_count.saturating_add(1)
                } else {
                    alert_count
                };
                (SentTorqueJumpState { history, last_delta: delta, alert_count, level: next }, transition)
            },
        }
    }
}

/// The alarm transitions a change of torque jump level is reported as: the
/// previous level cleared, then the new one raised, each only when it is
/// not normal.
pub open spec fn spec_torque_jump_events(previous: SentJumpLevel, next: SentJumpLevel) -> Seq<(SentJumpLevel, bool)> {
    (if previous != SentJumpLevel::Normal { seq![(previous, true)] } else { Seq::empty() })
        + (if next != SentJumpLevel::Normal { seq![(next, false)] } else { Seq::empty() })
}

/// Each alarm transition of a torque level change, as its level and
/// whether it clears.
pub fn torque_jump_events<T>(transition: &SentTorqueJumpTransition<T>) -> (r: Vec<(SentJumpLevel, bool)>)
    ensures
        r@ == spec_torque_jump_events(transition.previous_level, transition.next_level),
{
    let mut out: Vec<(SentJumpLevel, bool)> = Vec::new();
    if transition.previous_level != SentJumpLevel::Normal {
        out.push((transition.previous_level, true));
    }
    if transition.next_level != SentJumpLevel::Normal {
        out.push((transition.next_level, false));
    }
    proof {
        assert(out@ =~= spec_torque_jump_events(transition.previous_level, transition.next_level));
    }
    out
}

/// A change of an angle jump alarm.
pub struct SentAngleJumpTransition<T> {
    pub delta_abs: T,
    pub cleared: bool,
}

/// Jump tracking of one SENT angle signal.
pub struct SentAngleJumpState<T> {
    pub history: BaselineWindow<T>,
    pub last_delta: T,
    pub alert_count: u64,
    pub active: bool,
}

impl<T: Copy> SentAngleJumpState<T> {
    /// No history, no alarm; `zero` fills the empty slots and stands as the
    /// last jump.
    pub fn new(zero: T) -> (r: Self)
        ensures
            r.history.arrivals() == Seq::<T>::empty(),
            r.last_delta == zero,
            r.alert_count == 0,
            !r.active,
    {
        SentAngleJumpState { history: BaselineWindow::new(zero), last_delta: zero, alert_count: 0, active: false }
    }

    /// The samples a new value is measured against, in slot order; `None`
    /// until the history is full.
    pub fn baseline(&self) -> (r: Option<Vec<T>>)
        ensures
            r is Some <==> self.history.arrivals().len() == SENT_JUMP_BASELINE_WINDOW,
            r matches Some(v) ==> v@ == self.history.slot_order() && v@.to_multiset()
                == self.history.arrivals().to_multiset(),
    {
        if self.history.is_ready() {
            Some(self.history.samples())
        } else {
            None
        }
    }

    /// Takes `value` into the history. `measured` is its jump against the
    /// baseline, with whether that jump reaches the red threshold, when a
    /// baseline existed: the alarm becomes active exactly then, a change is
    /// returned, and each activation is counted.
    pub fn evaluate(self, value: T, measured: Option<(T, bool)>) -> (r: (
        Self,
        Option<SentAngleJumpTransition<T>>,
    ))
        ensures
            r.0.history.arrivals() == window_after(self.history.arrivals(), value),
            measured is None ==> r.1 is None && r.0.last_delta == self.last_delta
                && r.0.alert_count == self.alert_count && r.0.active == self.active,
            measured matches Some((delta, reaches_red)) ==> {
                &&& r.0.last_delta == delta
                &&& r.0.active == reaches_red
                &&& r.0.alert_count == (if !self.active && reaches_red {
                    saturating_inc(self.alert_count)
                } else {
                    self.alert_count
                })
                &&& (reaches_red == self.active ==> r.1 is None)
                &&& (reaches_red != self.active ==> (r.1 matches Some(t) && t.delta_abs == delta
                    && t.cleared == self.active))
            },
    {
        let SentAngleJumpState { history, last_delta, alert_count, active } = self;
        let history = history.push(value);
        match measured {
            None => (SentAngleJumpState { history, last_delta, alert_count, active }, None),
            Some((delta, reaches_red)) => {
                let transition = if reaches_red != active {
                    Some(SentAngleJumpTransition { delta_abs: delta, cleared: active && !reaches_red })
                } else {
                    None
                };
                let alert_count = if !active && reaches_red {
                    alert_count.saturating_add(1)
                } else {
                    alert_count
                };
                (SentAngleJumpState { history, last_delta: delta, alert_count, active: reaches_red }, transition)
            },
        }
    }
}

/// The id of a torque jump alarm: T1 for sensor 1, T2 otherwise.
pub open spec fn spec_torque_jump_alarm_id(sensor_id: usize) -> Seq<char> {
    if sensor_id == 1 {
        "sent_torque_jump_t1"@
    } else {
        "sent_torque_jump_t2"@
    }
}

/// The id of the torque jump alarm of a sensor.
pub fn sent_torque_jump_alarm_id(sensor_id: usize) -> (r: String)
    ensures
        r@ == spec_torque_jump_alarm_id(sensor_id),
{
    let mut s = String::new();
    push_str(&mut s, "sent_torque_jump_");
    push_str(&mut s, if sensor_id == 1 { "t1" } else { "t2" });
    proof {
        reveal_strlit("sent_torque_jump_");
        reveal_strlit("t1");
        reveal_strlit("t2");
        reveal_strlit("sent_torque_jump_t1");
        reveal_strlit("sent_torque_jump_t2");
        assert(s@ =~= spec_torque_jump_alarm_id(sensor_id));
    }
    s
}

/// The id of an angle jump alarm: T1, T2 and S for sensors 0, 2 and 4.
pub open spec fn spec_angle_jump_alarm_id(sensor_id: usize) -> Seq<char> {
    if sensor_id == 0 {
        "sent_angle_jump_t1"@
    } else if sensor_id == 2 {
        "sent_angle_jump_t2"@
    } else if sensor_id == 4 {
        "sent_angle_jump_s"@
    } else {
        "sent_angle_jump_unknown"@
    }
}

/// The id of the angle jump alarm of a sensor.
pub fn sent_angle_jump_alarm_id(sensor_id: usize) -> (r: String)
    ensures
        r@ == spec_angle_jump_alarm_id(sensor_id),
{
    let name = match sensor_id {
        0 => "t1",
        2 => "t2",
        4 => "s",
        _ => "unknown",
    };
    let mut s = String::new();
    push_str(&mut s, "sent_angle_jump_");
    push_str(&mut s, name);
    proof {
        reveal_strlit("sent_angle_jump_");
        reveal_strlit("t1");
        reveal_strlit("t2");
        reveal_strlit("s");
        reveal_strlit("unknown");
        reveal_strlit("sent_angle_jump_t1");
        reveal_strlit("sent_angle_jump_t2");
        reveal_strlit("sent_angle_jump_s");
        reveal_strlit("sent_angle_jump_unknown");
        assert(s@ =~= spec_angle_jump_alarm_id(sensor_id));
    }
    s
}

/// Which configured red threshold an angle jump is held against.
#[derive(Clone, Copy, Debug, PartialEq, Eq, Structural)]
pub enum SentAngleAxis {
    T1,
    T2,
    S,
}

pub open spec fn spec_angle_red_axis(sensor_id: usize) -> SentAngleAxis {
    if sensor_id == 2 {
        SentAngleAxis::T2
    } else if sensor_id == 4 {
        SentAngleAxis::S
    } else {
        SentAngleAxis::T1
    }
}

/// The red threshold of sensor 2 is T2's, of sensor 4 S's, of any other T1's.
pub fn sent_angle_red_axis(sensor_id: usize) -> (r: SentAngleAxis)
    ensures
        r == spec_angle_red_axis(sensor_id),
{
    match sensor_id {
        2 => SentAngleAxis::T2,
        4 => SentAngleAxis::S,
        _ => SentAngleAxis::T1,
    }
}

} // verus!
