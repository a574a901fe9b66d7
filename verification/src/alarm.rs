//! Alarm events and the small enumerations the alarm logic is phrased in.
use vstd::prelude::*;
use std::time::SystemTime;
use crate::text::{dec, push_dec, push_str};

verus! {

/// `std::time::SystemTime`, carried through alarm events as an opaque timestamp.
#[verifier::external_type_specification]
#[verifier::external_body]
pub struct ExSystemTime(SystemTime);

/// Severity of an alarm.
#[derive(Clone, Copy, Debug, PartialEq, Eq, Structural)]
pub enum AlarmLevel {
    Info,
    Warning,
    Critical,
    Purple,
}

/// One alarm transition: raised (`cleared == false`) or cleared.
#[derive(Debug)]
pub struct AlarmEvent {
    pub device_id: String,
    pub alarm_id: String,
    pub level: AlarmLevel,
    pub message: String,
    pub raised_at: SystemTime,
    pub cleared: bool,
}

impl Clone for AlarmEvent {
    fn clone(&self) -> (r: Self)
        ensures
            r == *self,
    {
        AlarmEvent {
            device_id: self.device_id.clone(),
            alarm_id: self.alarm_id.clone(),
            level: self.level,
            message: self.message.clone(),
            raised_at: self.raised_at,
            cleared: self.cleared,
        }
    }
}

/// Which side of a threshold an alarm watches.
#[derive(Clone, Copy, Debug, PartialEq, Eq, Structural)]
pub enum AlarmBound {
    High,
    Low,
}

impl AlarmBound {
    pub open spec fn spec_short_code(self) -> Seq<char> {
        match self {
            AlarmBound::High => "h"@,
            AlarmBound::Low => "l"@,
        }
    }

    pub fn short_code(self) -> (r: &'static str)
        ensures
            r@ == self.spec_short_code(),
    {
        match self {
            AlarmBound::High => "h",
            AlarmBound::Low => "l",
        }
    }

    pub open spec fn spec_name(self) -> Seq<char> {
        match self {
            AlarmBound::High => "high"@,
            AlarmBound::Low => "low"@,
        }
    }

    pub fn name(self) -> (r: &'static str)
        ensures
            r@ == self.spec_name(),
    {
        match self {
            AlarmBound::High => "high",
            AlarmBound::Low => "low",
        }
    }
}

/// Whether the high and low threshold alarms of one CAN axis are active.
#[derive(Clone, Copy, Debug, PartialEq, Eq, Structural)]
pub struct CanAxisAlarmState {
    pub high_active: bool,
    pub low_active: bool,
}

/// A sample compared with one threshold: `reached` when it is at or beyond
/// the threshold (`>=` for high, `<=` for low), `left` when it is strictly
/// inside (`<` for high, `>` for low). Both are false for a sample that is
/// not a number.
#[derive(Clone, Copy, Debug, PartialEq, Eq, Structural)]
pub enum ThresholdCheck {
    Unset,
    Compared { reached: bool, left: bool },
}

/// A threshold alarm raised or cleared; `unset` when it was cleared because
/// its threshold was removed.
#[derive(Clone, Copy, Debug, PartialEq, Eq, Structural)]
pub struct ThresholdEdge {
    pub bound: AlarmBound,
    pub cleared: bool,
    pub unset: bool,
}

/// One bound's alarm after a sample: whether it is active, and the edge, if
/// any. A set threshold raises the inactive alarm when reached and clears
/// the active one when left; removing the threshold clears it.
pub open spec fn bound_step(active: bool, check: ThresholdCheck, bound: AlarmBound) -> (bool, Option<ThresholdEdge>) {
    match check {
        ThresholdCheck::Compared { reached, left } => if !active && reached {
            (true, Some(ThresholdEdge { bound, cleared: false, unset: false }))
        } else if active && left {
            (false, Some(ThresholdEdge { bound, cleared: true, unset: false }))
        } else {
            (active, None)
        },
        ThresholdCheck::Unset => if active {
            (false, Some(ThresholdEdge { bound, cleared: true, unset: true }))
        } else {
            (false, None)
        },
    }
}

pub open spec fn edges_of(e: Option<ThresholdEdge>) -> Seq<ThresholdEdge> {
    match e {
        Some(x) => seq![x],
        None => Seq::empty(),
    }
}

impl CanAxisAlarmState {
    /// Neither alarm active.
    pub fn new() -> (r: Self)
        ensures
            !r.high_active && !r.low_active,
    {
        CanAxisAlarmState { high_active: false, low_active: false }
    }

    /// The alarms after a sample compared with the high and low thresholds,
    /// and their edges, high first.
    pub fn step_thresholds(self, high: ThresholdCheck, low: ThresholdCheck) -> (r: (Self, Vec<ThresholdEdge>))
        ensures
            r.0.high_active == bound_step(self.high_active, high, AlarmBound::High).0,
            r.0.low_active == bound_step(self.low_active, low, AlarmBound::Low).0,
            r.1@ == edges_of(bound_step(self.high_active, high, AlarmBound::High).1) + edges_of(
                bound_step(self.low_active, low, AlarmBound::Low).1,
            ),
    {
        let mut edges: Vec<ThresholdEdge> = Vec::new();
        let (high_active, high_edge) = step_bound(self.high_active, high, AlarmBound::High);
        let (low_active, low_edge) = step_bound(self.low_active, low, AlarmBound::Low);
        match high_edge {
            Some(e) => edges.push(e),
            None => {},
        }
        match low_edge {
            Some(e) => edges.push(e),
            None => {},
        }
        assert(edges@ =~= edges_of(high_edge) + edges_of(low_edge));
        (CanAxisAlarmState { high_active, low_active }, edges)
    }
}

/// One bound's alarm after a sample compared with its threshold.
pub fn step_bound(active: bool, check: ThresholdCheck, bound: AlarmBound) -> (r: (bool, Option<ThresholdEdge>))
    ensures
        r == bound_step(active, check, bound),
{
    match check {
        ThresholdCheck::Compared { reached, left } => if !active && reached {
            (true, Some(ThresholdEdge { bound, cleared: false, unset: false }))
        } else if active && left {
            (false, Some(ThresholdEdge { bound, cleared: true, unset: false }))
        } else {
            (active, None)
        },
        ThresholdCheck::Unset => if active {
            (false, Some(ThresholdEdge { bound, cleared: true, unset: true }))
        } else {
            (false, None)
        },
    }
}

/// An alarm is raised at most once until it is cleared: a second sample
/// that reaches the threshold again raises nothing.
pub proof fn lemma_threshold_raises_once(active: bool, first: ThresholdCheck, second: ThresholdCheck, bound: AlarmBound)
    requires
        bound_step(active, first, bound).1 matches Some(e) && !e.cleared,
        second matches ThresholdCheck::Compared { reached, left } && !left,
    ensures
        bound_step(bound_step(active, first, bound).0, second, bound).1 is None,
        bound_step(bound_step(active, first, bound).0, second, bound).0,
{
}

/// Severity of a SENT jump.
#[derive(Clone, Copy, Debug, PartialEq, Eq, Structural)]
pub enum SentJumpLevel {
    Normal,
    Warning,
    Critical,
    Purple,
}

impl SentJumpLevel {
    pub open spec fn spec_alarm_level(self) -> AlarmLevel {
        match self {
            SentJumpLevel::Purple => AlarmLevel::Purple,
            SentJumpLevel::Critical => AlarmLevel::Critical,
            _ => AlarmLevel::Warning,
        }
    }

    /// The alarm level a jump of this severity is reported with.
    pub fn alarm_level(self) -> (r: AlarmLevel)
        ensures
            r == self.spec_alarm_level(),
    {
        match self {
            SentJumpLevel::Purple => AlarmLevel::Purple,
            SentJumpLevel::Critical => AlarmLevel::Critical,
            SentJumpLevel::Normal | SentJumpLevel::Warning => AlarmLevel::Warning,
        }
    }
}

/// Number of past samples a SENT jump is measured against.
pub const SENT_JUMP_BASELINE_WINDOW: usize = 10;

/// A jump baseline exists once the history window is full.
pub fn history_ready(len: usize) -> (r: bool)
    ensures
        r == (len >= SENT_JUMP_BASELINE_WINDOW),
{
    len >= SENT_JUMP_BASELINE_WINDOW
}

/// `<rule>_sensor_<sensor>_<high|low>`: the id of a rule's alarm.
pub open spec fn spec_rule_alarm_id(rule: Seq<char>, sensor_id: usize, bound: AlarmBound) -> Seq<char> {
    rule + "_sensor_"@ + dec(sensor_id as nat) + "_"@ + bound.spec_name()
}

/// The id of the alarm a threshold rule raises on one side of a sensor.
pub fn rule_alarm_id(rule: &str, sensor_id: usize, bound: AlarmBound) -> (r: String)
    ensures
        r@ == spec_rule_alarm_id(rule@, sensor_id, bound),
{
    let mut s = String::new();
    push_str(&mut s, rule);
    push_str(&mut s, "_sensor_");
    push_dec(&mut s, sensor_id as u64);
    push_str(&mut s, "_");
    push_str(&mut s, bound.name());
    proof {
        assert(s@ =~= spec_rule_alarm_id(rule@, sensor_id, bound));
    }
    s
}

/// `can_<axis>_<h|l>`: the id of a CAN axis threshold alarm.
pub open spec fn spec_can_threshold_alarm_id(axis: Seq<char>, bound: AlarmBound) -> Seq<char> {
    "can_"@ + axis + "_"@ + bound.spec_short_code()
}

/// The id of the alarm a CAN axis raises on one side.
pub fn can_threshold_alarm_id(axis: &str, bound: AlarmBound) -> (r: String)
    ensures
        r@ == spec_can_threshold_alarm_id(axis@, bound),
{
    let mut s = String::new();
    push_str(&mut s, "can_");
    push_str(&mut s, axis);
    push_str(&mut s, "_");
    push_str(&mut s, bound.short_code());
    proof {
        assert(s@ =~= spec_can_threshold_alarm_id(axis@, bound));
    }
    s
}

} // verus!
