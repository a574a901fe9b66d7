//! The CAN ingress core: per-channel frame counting, SENT error alarms,
//! self-test reports, periodic frame logging and the signal watchdogs, plus
//! the clock that turns hardware timestamps into capture times.
use vstd::prelude::*;
use crate::alarm::{AlarmEvent, AlarmLevel};
use crate::can::{
    can_device_id, device_id_text, format_can_frame, frame_text, dlc_len, marked, polled,
    lemma_undecoded_frame_feeds_no_any_watchdog,
    started_watchdogs, CanFrame, CanSignalWatchdogConfig, CanChannelConfig, CanTransportConfig,
    SignalWatchdogs,
};
use crate::can_data::{
    be_i32, decode_axis_raw, decode_self_test_response, decode_sent_1_raw, decode_sent_2_raw,
    decode_sent_error, decode_sent_value_bits, le_i16, le_u32, axis_sensor_of, Sent1Raw,
    SentCanError,
};
use crate::text::{dec, push_dec, push_str};
use std::time::SystemTime;

verus! {

// ---------------------------------------------------------------------------
// Capture clock
// ---------------------------------------------------------------------------
/// When a frame was captured, in microseconds since the Unix epoch, and how
/// long after the first frame of the clock its hardware time lies.
#[derive(Clone, Copy, Debug, PartialEq, Eq, Structural)]
pub struct FrameTime {
    pub captured_at_us: u64,
    pub elapsed_us: u64,
}

/// Maps hardware timestamps (relative microseconds) of one channel to host
/// time. The first timestamped frame anchors the mapping at its reception
/// time; a timestamp lower than the previous one is a clock restart and
/// re-anchors. A frame without timestamp (0) takes its reception time.
/// Capture times never go back: a frame mapped before the previous capture
/// (the host clock stepped back, the device clock restarted) is captured at
/// the previous capture time.
#[derive(Debug)]
pub struct CanClock {
    origin_us: Option<u64>,
    anchor: Option<(u64, u64)>,
    last_timestamp_us: Option<u64>,
    last_captured_us: Option<u64>,
}

impl CanClock {
    #[verifier::type_invariant]
    spec fn wf(self) -> bool {
        match self.anchor {
            Some((anchor_us, _)) => match self.last_timestamp_us {
                Some(last) => anchor_us <= last,
                None => false,
            },
            None => true,
        }
    }

    pub closed spec fn spec_origin(self) -> Option<u64> {
        self.origin_us
    }

    pub closed spec fn spec_anchor(self) -> Option<(u64, u64)> {
        self.anchor
    }

    pub closed spec fn spec_last(self) -> Option<u64> {
        self.last_timestamp_us
    }

    /// The capture time of the previous frame.
    pub closed spec fn spec_last_captured(self) -> Option<u64> {
        self.last_captured_us
    }

    /// A clock that has seen no frame.
    pub fn new() -> (r: Self)
        ensures
            r.spec_origin() is None && r.spec_anchor() is None && r.spec_last() is None
                && r.spec_last_captured() is None,
    {
        CanClock { origin_us: None, anchor: None, last_timestamp_us: None, last_captured_us: None }
    }

    /// The capture time of a frame with hardware timestamp `timestamp_us`
    /// received at `received_at_us`: its mapped time (the reception time when
    /// that does not fit), held at the previous capture time when earlier.
    pub fn capture(&mut self, timestamp_us: u64, received_at_us: u64) -> (t: FrameTime)
        ensures
            captured(*old(self), *final(self), timestamp_us, received_at_us, t),
            old(self).spec_last_captured() matches Some(p) ==> t.captured_at_us >= p,
            final(self).spec_last_captured() == Some(t.captured_at_us),
    {
        proof {
            use_type_invariant(&*self);
        }
        let origin = match self.origin_us {
            Some(o) => o,
            None => received_at_us,
        };
        let mut anchor = self.anchor;
        let mut last = self.last_timestamp_us;
        let mapped = if timestamp_us == 0 {
            received_at_us
        } else {
            let reset = match (self.anchor, self.last_timestamp_us) {
                (None, _) => true,
                (Some(_), Some(l)) => timestamp_us < l,
                (Some(_), None) => false,
            };
            let (anchor_us, anchor_time) = if reset {
                (timestamp_us, received_at_us)
            } else {
                match self.anchor {
                    Some(a) => a,
                    None => (timestamp_us, received_at_us),
                }
            };
            anchor = Some((anchor_us, anchor_time));
            last = Some(timestamp_us);
            let delta = timestamp_us - anchor_us;
            if anchor_time <= u64::MAX - delta {
                anchor_time + delta
            } else {
                received_at_us
            }
        };
        let captured = match self.last_captured_us {
            Some(p) => if mapped < p {
                p
            } else {
                mapped
            },
            None => mapped,
        };
        *self = CanClock {
            origin_us: Some(origin),
            anchor,
            last_timestamp_us: last,
            last_captured_us: Some(captured),
        };
        let elapsed = if mapped >= origin {
            mapped - origin
        } else {
            0
        };
        FrameTime { captured_at_us: captured, elapsed_us: elapsed }
    }
}

/// The host time a frame with hardware timestamp `timestamp_us`, received
/// at `received_at_us`, maps to on clock `old`, before holding it at the
/// previous capture.
pub open spec fn mapped_time(old: CanClock, timestamp_us: u64, received_at_us: u64) -> u64 {
    if timestamp_us == 0 {
        received_at_us
    } else {
        let reset = old.spec_anchor() is None || (old.spec_last() matches Some(last) && timestamp_us < last);
        let anchor = if reset {
            (timestamp_us, received_at_us)
        } else {
            old.spec_anchor()->0
        };
        if anchor.1 + (timestamp_us - anchor.0) <= u64::MAX {
            (anchor.1 + (timestamp_us - anchor.0)) as u64
        } else {
            received_at_us
        }
    }
}

/// `new` and `t` are what capturing a frame with hardware timestamp
/// `timestamp_us`, received at `received_at_us`, makes of `old`.
pub open spec fn captured(old: CanClock, new: CanClock, timestamp_us: u64, received_at_us: u64, t: FrameTime) -> bool {
    let mapped = mapped_time(old, timestamp_us, received_at_us);
    &&& new.spec_origin() == Some(
        match old.spec_origin() {
            Some(o) => o,
            None => received_at_us,
        },
    )
    &&& timestamp_us == 0 ==> new.spec_anchor() == old.spec_anchor() && new.spec_last() == old.spec_last()
    &&& timestamp_us != 0 ==> {
        let reset = old.spec_anchor() is None || (old.spec_last() matches Some(last) && timestamp_us < last);
        let anchor = if reset {
            (timestamp_us, received_at_us)
        } else {
            old.spec_anchor()->0
        };
        &&& new.spec_anchor() == Some(anchor)
        &&& new.spec_last() == Some(timestamp_us)
        &&& anchor.0 <= timestamp_us
    }
    &&& t.captured_at_us == match old.spec_last_captured() {
        Some(p) => if mapped < p {
            p
        } else {
            mapped
        },
        None => mapped,
    }
    &&& new.spec_last_captured() == Some(t.captured_at_us)
    &&& t.elapsed_us == if mapped >= new.spec_origin()->0 {
        (mapped - new.spec_origin()->0) as u64
    } else {
        0
    }
}

/// Capture times never go back: whatever the hardware timestamps and the
/// host clock do, each capture is at or after the one before it.
pub proof fn lemma_captures_never_go_back(
    c0: CanClock,
    c1: CanClock,
    c2: CanClock,
    ts1: u64,
    recv1: u64,
    t1: FrameTime,
    ts2: u64,
    recv2: u64,
    t2: FrameTime,
)
    requires
        captured(c0, c1, ts1, recv1, t1),
        captured(c1, c2, ts2, recv2, t2),
    ensures
        t1.captured_at_us <= t2.captured_at_us,
{
}

/// Hardware spacing is kept: two timestamped frames in order, the second
/// not earlier than the first, the first not held back, are captured
/// exactly as far apart as their timestamps, however late their callbacks
/// came (when the times fit).
pub proof fn lemma_capture_keeps_spacing(
    c0: CanClock,
    c1: CanClock,
    c2: CanClock,
    ts1: u64,
    recv1: u64,
    t1: FrameTime,
    ts2: u64,
    recv2: u64,
    t2: FrameTime,
)
    requires
        captured(c0, c1, ts1, recv1, t1),
        captured(c1, c2, ts2, recv2, t2),
        ts1 != 0,
        ts1 <= ts2,
        t1.captured_at_us == mapped_time(c0, ts1, recv1),
        ({
            let anchor = c1.spec_anchor()->0;
            anchor.1 + (ts2 - anchor.0) <= u64::MAX
        }),
    ensures
        t2.captured_at_us - t1.captured_at_us == ts2 - ts1,
{
}

/// A frame without hardware timestamp takes its reception time (held at the
/// previous capture) and leaves the mapping of later timestamped frames as
/// it was.
pub proof fn lemma_untimed_frame_keeps_anchor(c0: CanClock, c1: CanClock, recv: u64, t: FrameTime)
    requires
        captured(c0, c1, 0, recv, t),
    ensures
        t.captured_at_us == (match c0.spec_last_captured() {
            Some(p) => if recv < p {
                p
            } else {
                recv
            },
            None => recv,
        }),
        c1.spec_anchor() == c0.spec_anchor(),
        c1.spec_last() == c0.spec_last(),
{
}

// ---------------------------------------------------------------------------
// Frame handling
// ---------------------------------------------------------------------------
/// What the ingress reports, besides telemetry values.
#[derive(Debug)]
pub enum CanIngressEvent {
    Status(String),
    Log { device_id: String, level: &'static str, msg: String },
    AlarmRaised(AlarmEvent),
    AlarmCleared(AlarmEvent),
}

/// The per-channel state: frames seen and SENT error types active.
#[derive(Debug)]
pub struct ChannelRuntime {
    pub channel: u8,
    pub frame_count: u64,
    pub active_sent_errors: Vec<u8>,
}

/// The decoded SENT and axis fields of a frame, as integers on the wire.
#[derive(Debug)]
pub struct DecodedSignals {
    pub sent_values: Option<[(usize, u32); 5]>,
    pub sent_1: Option<Sent1Raw>,
    pub sent_2: Option<(i16, i16)>,
    pub axis: Option<(usize, i32)>,
}

/// The outcome of one frame: its count on its channel, the events before
/// its telemetry values (self-test report, SENT error alarms), the decoded
/// fields from which those values come, and the events after them (frame
/// log, restored watchdogs).
#[derive(Debug)]
pub struct FrameOutcome {
    pub device_id: String,
    pub frame_count: u64,
    pub head: Vec<CanIngressEvent>,
    pub signals: DecodedSignals,
    pub tail: Vec<CanIngressEvent>,
}

/// A SENT error report of an RX frame on CAN id 3 with at least 4 bytes.
pub open spec fn spec_sent_error_of(is_tx: bool, identifier: u32, data: Seq<u8>) -> Option<SentCanError> {
    if !is_tx && identifier == 3 && data.len() >= 4 {
        Some(
            SentCanError {
                error_type: data[0],
                t1_error: data[1] != 0,
                t2_error: data[2] != 0,
                s_error: data[3] != 0,
            },
        )
    } else {
        None
    }
}

/// Whether a frame carries a decodable signal: generic SENT values, a SENT
/// frame on CAN id 1 or 2, or a three-axis sample.
pub open spec fn decodes_signal(is_tx: bool, identifier: u32, data: Seq<u8>) -> bool {
    ||| (!is_tx && identifier != 1 && identifier != 2 && identifier != 3 && data.len() >= 53)
    ||| (!is_tx && identifier == 1 && data.len() >= 10 && (data[0] == 1 || data[0] == 2))
    ||| (!is_tx && identifier == 2 && data.len() >= 10)
    ||| (axis_sensor_of(identifier) is Some && data.len() >= 4)
}

/// The fields of `s` are those the decoders read from the frame.
pub open spec fn decoded_from(s: DecodedSignals, is_tx: bool, identifier: u32, data: Seq<u8>) -> bool {
    &&& (s.sent_values is Some <==> (!is_tx && identifier != 1 && identifier != 2 && identifier != 3
        && data.len() >= 53))
    &&& (s.sent_values matches Some(a) ==> {
        &&& a@[0].0 == 0 && a@[0].1 as int == le_u32(data[25], data[26], data[27], data[28])
        &&& a@[1].0 == 1 && a@[1].1 as int == le_u32(data[29], data[30], data[31], data[32])
        &&& a@[2].0 == 2 && a@[2].1 as int == le_u32(data[1], data[2], data[3], data[4])
        &&& a@[3].0 == 3 && a@[3].1 as int == le_u32(data[5], data[6], data[7], data[8])
        &&& a@[4].0 == 4 && a@[4].1 as int == le_u32(data[49], data[50], data[51], data[52])
    })
    &&& (s.sent_1 is Some <==> (!is_tx && identifier == 1 && data.len() >= 10 && (data[0] == 1
        || data[0] == 2)))
    &&& (s.sent_1 matches Some(Sent1Raw::T2 { angle, torque }) ==> data[0] == 1 && angle as int
        == le_i16(data[6], data[7]) && torque as int == le_i16(data[8], data[9]))
    &&& (s.sent_1 matches Some(Sent1Raw::S(v)) ==> data[0] == 2 && v as int == le_i16(data[4], data[5]))
    &&& (s.sent_2 is Some <==> (!is_tx && identifier == 2 && data.len() >= 10))
    &&& (s.sent_2 matches Some((angle, torque)) ==> angle as int == le_i16(data[6], data[7])
        && torque as int == le_i16(data[8], data[9]))
    &&& (s.axis is Some <==> (axis_sensor_of(identifier) is Some && data.len() >= 4))
    &&& (s.axis matches Some((sensor, raw)) ==> Some(sensor) == axis_sensor_of(identifier) && raw as int
        == be_i32(data[0], data[1], data[2], data[3]))
}

/// The active error types after a SENT error report, and the (type,
/// cleared) pairs it reports: type 0 clears every active type, in order;
/// another type is raised once, while not already active.
pub open spec fn sent_error_step(active: Seq<u8>, error_type: u8) -> (Seq<u8>, Seq<(u8, bool)>) {
    if error_type == 0 {
        (Seq::empty(), active.map_values(|t: u8| (t, true)))
    } else if active.contains(error_type) {
        (active, Seq::empty())
    } else {
        (active.push(error_type), seq![(error_type, false)])
    }
}

pub open spec fn flag_digit(b: bool) -> Seq<char> {
    if b {
        "1"@
    } else {
        "0"@
    }
}

/// `SENT error type=<t> t1=<0|1> t2=<0|1> s=<0|1> <active|cleared>`.
pub open spec fn sent_error_detail(error_type: u8, error: SentCanError, cleared: bool) -> Seq<char> {
    "SENT error type="@ + dec(error_type as nat) + " t1="@ + flag_digit(error.t1_error) + " t2="@
        + flag_digit(error.t2_error) + " s="@ + flag_digit(error.s_error) + " "@ + if cleared {
        "cleared"@
    } else {
        "active"@
    }
}

/// The two events reporting SENT error `error_type` of `device_id`: the
/// warning alarm raised or cleared, then its text as a status line.
pub open spec fn is_sent_error_report(
    alarm: CanIngressEvent,
    status: CanIngressEvent,
    device_id: Seq<char>,
    error_type: u8,
    error: SentCanError,
    cleared: bool,
    now: SystemTime,
) -> bool {
    let detail = sent_error_detail(error_type, error, cleared);
    let ok = |e: AlarmEvent|
        e.device_id@ == device_id && e.alarm_id@ == "sent_error_"@ + dec(error_type as nat)
            && e.level == AlarmLevel::Warning && e.message@ == detail && e.raised_at == now
            && e.cleared == cleared;
    &&& if cleared {
        alarm matches CanIngressEvent::AlarmCleared(e) && ok(e)
    } else {
        alarm matches CanIngressEvent::AlarmRaised(e) && ok(e)
    }
    &&& status matches CanIngressEvent::Status(m) && m@ == detail
}

pub open spec fn pass_text(ok: bool) -> Seq<char> {
    if ok {
        "通过"@
    } else {
        "失败"@
    }
}

/// `CAN 自检结果: X=<通过|失败> Y=… Z=…`.
pub open spec fn self_test_text(x: bool, y: bool, z: bool) -> Seq<char> {
    "CAN 自检结果: X="@ + pass_text(x) + " Y="@ + pass_text(y) + " Z="@ + pass_text(z)
}

/// Frames 1 to 5 of a channel, and every hundredth, are logged.
pub open spec fn logs_frame(frame_count: u64) -> bool {
    frame_count <= 5 || frame_count % 100 == 0
}

/// `<device id> frame=<count> <frame text>`.
pub open spec fn frame_log_text(device_id: Seq<char>, frame_count: u64, f: CanFrame) -> Seq<char> {
    device_id + " frame="@ + dec(frame_count as nat) + " "@ + frame_text(f)
}

/// The frame count and active SENT errors of `channel` in `cs`.
pub open spec fn channel_state(cs: Seq<ChannelRuntime>, channel: u8) -> (u64, Seq<u8>) {
    if exists|i: int| 0 <= i < cs.len() && cs[i].channel == channel {
        let i = choose|i: int| 0 <= i < cs.len() && cs[i].channel == channel;
        (cs[i].frame_count, cs[i].active_sent_errors@)
    } else {
        (0, Seq::empty())
    }
}

pub open spec fn distinct_channels(cs: Seq<ChannelRuntime>) -> bool {
    forall|i: int, j: int| 0 <= i < j < cs.len() ==> cs[i].channel != cs[j].channel
}

/// `r` and the new state (`new_cs`, `new_wd`) are what one frame makes of
/// the old state: see `CanIngressCore::handle_frame`.
/// From index `k0` on, `head` holds the two events of each report, in order.
pub open spec fn reports_at(
    head: Seq<CanIngressEvent>,
    k0: int,
    reports: Seq<(u8, bool)>,
    device: Seq<char>,
    err: SentCanError,
    now: SystemTime,
) -> bool {
    forall|j: int|
        0 <= j < reports.len() ==> is_sent_error_report(
            #[trigger] head[k0 + 2 * j],
            head[k0 + 2 * j + 1],
            device,
            reports[j].0,
            err,
            reports[j].1,
            now,
        )
}

pub open spec fn frame_handled(
    old_cs: Seq<ChannelRuntime>,
    new_cs: Seq<ChannelRuntime>,
    old_wd: SignalWatchdogs,
    new_wd: SignalWatchdogs,
    hardware_name: Seq<char>,
    frame: CanFrame,
    now: SystemTime,
    observed_ms: u64,
    r: FrameOutcome,
) -> bool {
    let data = frame.data@.subrange(0, dlc_len(frame.dlc) as int);
    let tx = frame.spec_is_tx();
    let id = frame.identifier;
    let device = device_id_text(hardware_name, frame.channel);
    let (c0, active0) = channel_state(old_cs, frame.channel);
    let n = if c0 == u64::MAX {
        c0
    } else {
        (c0 + 1) as u64
    };
    let err = spec_sent_error_of(tx, id, data);
    let (active1, reports) = match err {
        Some(e) => sent_error_step(active0, e.error_type),
        None => (active0, Seq::<(u8, bool)>::empty()),
    };
    let st = !tx && id == 0x123 && data.len() >= 3;
    let k0: int = if st {
        1
    } else {
        0
    };
    let l0: int = if logs_frame(n) {
        2
    } else {
        0
    };
    &&& r.device_id@ == device
    &&& r.frame_count == n
    &&& channel_state(new_cs, frame.channel) == (n, active1)
    &&& forall|ch: u8|
        ch != frame.channel ==> #[trigger] channel_state(new_cs, ch)
            == channel_state(old_cs, ch)
    &&& r.head@.len() == k0 + 2 * reports.len()
    &&& st ==> (r.head@[0] matches CanIngressEvent::Status(m) && m@ == self_test_text(
        data[0] == 1,
        data[1] == 1,
        data[2] == 1,
    ))
    &&& reports_at(r.head@, k0, reports, device, err->0, now)
    &&& decoded_from(r.signals, tx, id, data)
    &&& logs_frame(n) ==> (r.tail@[0] matches CanIngressEvent::Status(m) && m@
        == frame_log_text(device, n, frame))
    &&& logs_frame(n) ==> (r.tail@[1] matches CanIngressEvent::Log { device_id, level, msg }
        && device_id@ == device && level@ == "info"@ && msg@ == frame_log_text(device, n, frame))
    &&& exists|restored: Seq<AlarmEvent>|
        {
            &&& marked(
                old_wd,
                new_wd,
                device,
                frame.channel,
                id,
                tx,
                decodes_signal(tx, id, data),
                observed_ms,
                now,
                restored,
            )
            &&& r.tail@.len() == l0 + restored.len()
            &&& forall|j: int|
                0 <= j < restored.len() ==> (#[trigger] r.tail@[l0 + j])
                    == CanIngressEvent::AlarmCleared(restored[j])
        }
}

/// A SENT error report of type 0 clears every active error type of its
/// channel: afterwards none is active, and each one that was is reported
/// cleared, in order.
pub proof fn lemma_clear_report_leaves_none_active(
    old_cs: Seq<ChannelRuntime>,
    new_cs: Seq<ChannelRuntime>,
    old_wd: SignalWatchdogs,
    new_wd: SignalWatchdogs,
    hardware_name: Seq<char>,
    frame: CanFrame,
    now: SystemTime,
    observed_ms: u64,
    r: FrameOutcome,
)
    requires
        frame_handled(old_cs, new_cs, old_wd, new_wd, hardware_name, frame, now, observed_ms, r),
        !frame.spec_is_tx(),
        frame.identifier == 3,
        dlc_len(frame.dlc) >= 4,
        frame.data@[0] == 0,
    ensures
        channel_state(new_cs, frame.channel).1.len() == 0,
        r.head@.len() == 2 * channel_state(old_cs, frame.channel).1.len(),
        forall|j: int| 0 <= j < channel_state(old_cs, frame.channel).1.len() ==> {
            let err = spec_sent_error_of(false, 3, frame.data@.subrange(0, dlc_len(frame.dlc) as int))->0;
            is_sent_error_report(
                #[trigger] r.head@[2 * j],
                r.head@[2 * j + 1],
                device_id_text(hardware_name, frame.channel),
                channel_state(old_cs, frame.channel).1[j],
                err,
                true,
                now,
            )
        },
{
    let data = frame.data@.subrange(0, dlc_len(frame.dlc) as int);
    assert(data[0] == 0);
    let active0 = channel_state(old_cs, frame.channel).1;
    let reports = active0.map_values(|t: u8| (t, true));
    let err = spec_sent_error_of(false, 3, data)->0;
    assert(sent_error_step(active0, 0) == (Seq::<u8>::empty(), reports));
    assert forall|j: int| 0 <= j < active0.len() implies is_sent_error_report(
        #[trigger] r.head@[2 * j],
        r.head@[2 * j + 1],
        device_id_text(hardware_name, frame.channel),
        active0[j],
        err,
        true,
        now,
    ) by {
        assert(reports[j] == (active0[j], true));
        let k0: int = if !frame.spec_is_tx() && frame.identifier == 0x123 && data.len() >= 3 {
            1
        } else {
            0
        };
        assert(k0 == 0);
        assert(is_sent_error_report(
            r.head@[k0 + 2 * j],
            r.head@[k0 + 2 * j + 1],
            device_id_text(hardware_name, frame.channel),
            reports[j].0,
            err,
            reports[j].1,
            now,
        ));
    }
}

/// After a clearing report, a SENT error of any type reported again on the
/// same channel is raised again: the frame reports exactly that type,
/// raised, and it is then the only active type.
pub proof fn lemma_error_raised_again_after_clear(
    cs0: Seq<ChannelRuntime>,
    cs1: Seq<ChannelRuntime>,
    cs2: Seq<ChannelRuntime>,
    wd0: SignalWatchdogs,
    wd1: SignalWatchdogs,
    wd2: SignalWatchdogs,
    hardware_name: Seq<char>,
    clear: CanFrame,
    again: CanFrame,
    now1: SystemTime,
    now2: SystemTime,
    obs1: u64,
    obs2: u64,
    r1: FrameOutcome,
    r2: FrameOutcome,
)
    requires
        frame_handled(cs0, cs1, wd0, wd1, hardware_name, clear, now1, obs1, r1),
        frame_handled(cs1, cs2, wd1, wd2, hardware_name, again, now2, obs2, r2),
        !clear.spec_is_tx() && clear.identifier == 3 && dlc_len(clear.dlc) >= 4 && clear.data@[0] == 0,
        !again.spec_is_tx() && again.identifier == 3 && dlc_len(again.dlc) >= 4 && again.data@[0] != 0,
        again.channel == clear.channel,
    ensures
        channel_state(cs2, again.channel).1 == seq![again.data@[0]],
        r2.head@.len() == 2,
        is_sent_error_report(
            r2.head@[0],
            r2.head@[1],
            device_id_text(hardware_name, again.channel),
            again.data@[0],
            spec_sent_error_of(false, 3, again.data@.subrange(0, dlc_len(again.dlc) as int))->0,
            false,
            now2,
        ),
{
    lemma_clear_report_leaves_none_active(cs0, cs1, wd0, wd1, hardware_name, clear, now1, obs1, r1);
    let data = again.data@.subrange(0, dlc_len(again.dlc) as int);
    assert(data[0] == again.data@[0]);
    assert(!Seq::<u8>::empty().contains(again.data@[0]));
    assert(channel_state(cs1, again.channel).1 =~= Seq::<u8>::empty());
    assert(Seq::<u8>::empty().push(again.data@[0]) =~= seq![again.data@[0]]);
    let reports = seq![(again.data@[0], false)];
    assert(sent_error_step(Seq::<u8>::empty(), data[0]) == (seq![again.data@[0]], reports));
    let k0: int = if !again.spec_is_tx() && again.identifier == 0x123 && data.len() >= 3 {
        1
    } else {
        0
    };
    assert(k0 == 0);
    assert(is_sent_error_report(
        r2.head@[k0 + 2 * 0],
        r2.head@[k0 + 2 * 0 + 1],
        device_id_text(hardware_name, again.channel),
        reports[0].0,
        spec_sent_error_of(false, 3, data)->0,
        reports[0].1,
        now2,
    ));
}

/// A SENT error report carries no decodable signal, so it feeds no
/// watchdog without a CAN id: each keeps its last-seen time and its alarm.
pub proof fn lemma_error_report_feeds_no_any_watchdog(
    old_cs: Seq<ChannelRuntime>,
    new_cs: Seq<ChannelRuntime>,
    old_wd: SignalWatchdogs,
    new_wd: SignalWatchdogs,
    hardware_name: Seq<char>,
    frame: CanFrame,
    now: SystemTime,
    observed_ms: u64,
    r: FrameOutcome,
    i: int,
)
    requires
        frame_handled(old_cs, new_cs, old_wd, new_wd, hardware_name, frame, now, observed_ms, r),
        frame.identifier == 3,
        0 <= i < old_wd.spec_watchdogs().len(),
        old_wd.spec_watchdogs()[i].identifier is None,
    ensures
        new_wd.spec_watchdogs()[i].last_seen_ms == old_wd.spec_watchdogs()[i].last_seen_ms,
        new_wd.spec_watchdogs()[i].alarm_active == old_wd.spec_watchdogs()[i].alarm_active,
{
    let data = frame.data@.subrange(0, dlc_len(frame.dlc) as int);
    assert(!decodes_signal(frame.spec_is_tx(), 3, data));
    assert(exists|restored: Seq<AlarmEvent>|
        marked(
            old_wd,
            new_wd,
            device_id_text(hardware_name, frame.channel),
            frame.channel,
            3,
            frame.spec_is_tx(),
            false,
            observed_ms,
            now,
            restored,
        ));
    let restored = choose|restored: Seq<AlarmEvent>|
        marked(
            old_wd,
            new_wd,
            device_id_text(hardware_name, frame.channel),
            frame.channel,
            3,
            frame.spec_is_tx(),
            false,
            observed_ms,
            now,
            restored,
        );
    lemma_undecoded_frame_feeds_no_any_watchdog(
        old_wd,
        new_wd,
        device_id_text(hardware_name, frame.channel),
        frame.channel,
        3,
        frame.spec_is_tx(),
        observed_ms,
        now,
        restored,
        i,
    );
}

/// The ingress state of one CAN adapter.
pub struct CanIngressCore {
    channels: Vec<ChannelRuntime>,
    watchdogs: SignalWatchdogs,
}

impl CanIngressCore {
    #[verifier::type_invariant]
    spec fn wf(self) -> bool {
        distinct_channels(self.channels@)
    }

    pub closed spec fn spec_channels(self) -> Seq<ChannelRuntime> {
        self.channels@
    }

    pub closed spec fn spec_watchdogs(self) -> SignalWatchdogs {
        self.watchdogs
    }

    /// An ingress that has seen no frame, watching the configured signals
    /// from `started_ms` on.
    pub fn new(watchdog_config: &CanSignalWatchdogConfig, channels: &[CanChannelConfig], started_ms: u64) -> (r: Self)
        ensures
            r.spec_channels().len() == 0,
            started_watchdogs(r.spec_watchdogs(), *watchdog_config, channels@, started_ms),
    {
        CanIngressCore {
            channels: Vec::new(),
            watchdogs: SignalWatchdogs::new(watchdog_config, channels, started_ms),
        }
    }

    /// The (channel, CAN id) pairs watched, in watchdog order.
    pub fn watched_signals(&self) -> (r: Vec<(u8, Option<u32>)>)
        ensures
            r@.len() == self.spec_watchdogs().spec_watchdogs().len(),
            forall|i: int|
                0 <= i < r@.len() ==> (#[trigger] r@[i]) == (
                    self.spec_watchdogs().spec_watchdogs()[i].channel,
                    self.spec_watchdogs().spec_watchdogs()[i].identifier,
                ),
    {
        self.watchdogs.watched_signals()
    }

    /// Raises the watchdogs gone quiet by `now_ms`.
    pub fn poll_signal_timeouts(&mut self, config: &CanTransportConfig, now_ms: u64, wall_time: SystemTime) -> (events: Vec<CanIngressEvent>)
        ensures
            final(self).spec_channels() == old(self).spec_channels(),
            exists|raised: Seq<AlarmEvent>|
                {
                    &&& polled(
                        old(self).spec_watchdogs(),
                        final(self).spec_watchdogs(),
                        config.hardware_name@,
                        now_ms,
                        wall_time,
                        raised,
                    )
                    &&& events@.len() == raised.len()
                    &&& forall|j: int|
                        0 <= j < raised.len() ==> (#[trigger] events@[j]) == CanIngressEvent::AlarmRaised(raised[j])
                },
    {
        proof {
            use_type_invariant(&*self);
        }
        let mut ws = SignalWatchdogs::empty();
        std::mem::swap(&mut ws, &mut self.watchdogs);
        let raised = ws.poll_signal_timeouts(config, now_ms, wall_time);
        self.watchdogs = ws;
        let ghost r = raised@;
        let events = wrap_alarms(raised, true);
        assert(polled(old(self).spec_watchdogs(), self.spec_watchdogs(), config.hardware_name@, now_ms, wall_time, r));
        assert(events@.len() == r.len() && forall|j: int|
            0 <= j < r.len() ==> (#[trigger] events@[j]) == CanIngressEvent::AlarmRaised(r[j]));
        events
    }

    fn find_channel(&self, channel: u8) -> (r: Option<usize>)
        ensures
            match r {
                Some(i) => i < self.channels@.len() && self.channels@[i as int].channel == channel,
                None => forall|i: int| 0 <= i < self.channels@.len() ==> self.channels@[i].channel != channel,
            },
    {
        let mut i: usize = 0;
        while i < self.channels.len()
            invariant
                i <= self.channels@.len(),
                forall|k: int| 0 <= k < i ==> self.channels@[k].channel != channel,
            decreases self.channels@.len() - i,
        {
            if self.channels[i].channel == channel {
                return Some(i);
            }
            i = i + 1;
        }
        None
    }

    /// Takes in one frame received at `observed_ms` (`now` on the wall
    /// clock). The caller turns the decoded fields into telemetry values and
    /// reports, in order, `head`, those values, then `tail`.
    pub fn handle_frame(
        &mut self,
        config: &CanTransportConfig,
        frame: &CanFrame,
        now: SystemTime,
        observed_ms: u64,
    ) -> (r: FrameOutcome)
        ensures
            frame_handled(
                old(self).spec_channels(),
                final(self).spec_channels(),
                old(self).spec_watchdogs(),
                final(self).spec_watchdogs(),
                config.hardware_name@,
                *frame,
                now,
                observed_ms,
                r,
            ),
    {
        proof {
            use_type_invariant(&*self);
        }
        let ghost old_wd = self.watchdogs;
        let device_id = can_device_id(config, frame.channel);
        let is_tx = frame.is_tx();
        let identifier = frame.identifier;
        let data = frame.data_bytes();
        let ghost old_cs = self.channels@;
        let mut channels = Vec::new();
        std::mem::swap(&mut channels, &mut self.channels);
        let idx = match find_in(&channels, frame.channel) {
            Some(i) => i,
            None => {
                channels.push(ChannelRuntime { channel: frame.channel, frame_count: 0, active_sent_errors: Vec::new() });
                proof {
                    assert forall|x: int, y: int| 0 <= x < y < channels@.len() implies channels@[x].channel
                        != channels@[y].channel by {
                        if y == channels@.len() - 1 {
                            assert(channels@[x] == old_cs[x]);
                        } else {
                            assert(channels@[x] == old_cs[x] && channels@[y] == old_cs[y]);
                        }
                    }
                    lemma_channel_state_at(old_cs, frame.channel);
                    lemma_push_channel(old_cs, channels@.last());
                }
                channels.len() - 1
            },
        };
        proof {
            lemma_channel_state_of(channels@, idx as int, frame.channel);
        }
        let ghost mid_cs = channels@;
        let mut state = channels.remove(idx);
        let frame_count = if state.frame_count == u64::MAX {
            state.frame_count
        } else {
            state.frame_count + 1
        };
        state.frame_count = frame_count;

        let mut head: Vec<CanIngressEvent> = Vec::new();
        match decode_self_test_response(is_tx, identifier, data) {
            Some((x_ok, y_ok, z_ok)) => {
                head.push(CanIngressEvent::Status(self_test_message(x_ok, y_ok, z_ok)));
            },
            None => {},
        }
        match decode_sent_error(is_tx, identifier, data) {
            Some(error) => {
                reconcile_sent_error(&device_id, error, &mut state.active_sent_errors, now, &mut head);
            },
            None => {},
        }
        let sent_values = decode_sent_value_bits(is_tx, identifier, data);
        let sent_1 = decode_sent_1_raw(is_tx, identifier, data);
        let sent_2 = decode_sent_2_raw(is_tx, identifier, data);
        let axis = decode_axis_raw(identifier, data);
        let signal_received = sent_values.is_some() || sent_1.is_some() || sent_2.is_some() || axis.is_some();

        let mut tail: Vec<CanIngressEvent> = Vec::new();
        if frame_count <= 5 || frame_count % 100 == 0 {
            let mut msg = String::new();
            push_str(&mut msg, device_id.as_str());
            push_str(&mut msg, " frame=");
            push_dec(&mut msg, frame_count);
            push_str(&mut msg, " ");
            let text = format_can_frame(frame);
            push_str(&mut msg, text.as_str());
            let msg2 = msg.clone();
            tail.push(CanIngressEvent::Status(msg));
            tail.push(CanIngressEvent::Log { device_id: device_id.clone(), level: "info", msg: msg2 });
        }
        let mut ws = SignalWatchdogs::empty();
        std::mem::swap(&mut ws, &mut self.watchdogs);
        let restored = ws.mark_signal_received(
            device_id.as_str(),
            frame.channel,
            identifier,
            is_tx,
            signal_received,
            observed_ms,
            now,
        );
        self.watchdogs = ws;
        let ghost rest = restored@;
        proof {
            let d = frame.data@.subrange(0, dlc_len(frame.dlc) as int);
            assert(data@ == d);
            assert(signal_received == decodes_signal(is_tx, identifier, d));
            assert(marked(
                old_wd,
                self.watchdogs,
                device_id@,
                frame.channel,
                identifier,
                is_tx,
                decodes_signal(is_tx, identifier, d),
                observed_ms,
                now,
                rest,
            ));
            assert(decoded_from(DecodedSignals { sent_values, sent_1, sent_2, axis }, is_tx, identifier, d));
        }
        let mut cleared = wrap_alarms(restored, false);
        tail.append(&mut cleared);

        channels.insert(idx, state);
        proof {
            assert(channels@ =~= mid_cs.update(idx as int, channels@[idx as int]));
            lemma_update_channel(mid_cs, idx as int, channels@[idx as int]);
        }
        self.channels = channels;
        let r = FrameOutcome {
            device_id,
            frame_count,
            head,
            signals: DecodedSignals { sent_values, sent_1, sent_2, axis },
            tail,
        };
        r
    }
}

fn find_in(cs: &Vec<ChannelRuntime>, channel: u8) -> (r: Option<usize>)
    ensures
        match r {
            Some(i) => i < cs@.len() && cs@[i as int].channel == channel,
            None => forall|i: int| 0 <= i < cs@.len() ==> cs@[i].channel != channel,
        },
{
    let mut i: usize = 0;
    while i < cs.len()
        invariant
            i <= cs@.len(),
            forall|k: int| 0 <= k < i ==> cs@[k].channel != channel,
        decreases cs@.len() - i,
    {
        if cs[i].channel == channel {
            return Some(i);
        }
        i = i + 1;
    }
    None
}

proof fn lemma_channel_state_of(cs: Seq<ChannelRuntime>, i: int, channel: u8)
    requires
        distinct_channels(cs),
        0 <= i < cs.len(),
        cs[i].channel == channel,
    ensures
        channel_state(cs, channel) == (cs[i].frame_count, cs[i].active_sent_errors@),
{
    let j = choose|j: int| 0 <= j < cs.len() && cs[j].channel == channel;
    assert(j == i);
}

proof fn lemma_push_channel(cs: Seq<ChannelRuntime>, s: ChannelRuntime)
    requires
        distinct_channels(cs.push(s)),
    ensures
        forall|ch: u8| ch != s.channel ==> #[trigger] channel_state(cs.push(s), ch) == channel_state(cs, ch),
{
    let u = cs.push(s);
    assert forall|ch: u8| ch != s.channel implies #[trigger] channel_state(u, ch) == channel_state(cs, ch) by {
        if exists|k: int| 0 <= k < cs.len() && cs[k].channel == ch {
            let k = choose|k: int| 0 <= k < cs.len() && cs[k].channel == ch;
            assert(u[k] == cs[k]);
            assert(distinct_channels(cs)) by {
                assert forall|x: int, y: int| 0 <= x < y < cs.len() implies cs[x].channel != cs[y].channel by {
                    assert(u[x] == cs[x] && u[y] == cs[y]);
                }
            }
            lemma_channel_state_of(cs, k, ch);
            lemma_channel_state_of(u, k, ch);
        } else {
            assert forall|k: int| 0 <= k < u.len() implies u[k].channel != ch by {
                if k < cs.len() {
                    assert(u[k] == cs[k]);
                }
            }
        }
    }
}

proof fn lemma_channel_state_at(cs: Seq<ChannelRuntime>, channel: u8)
    requires
        forall|i: int| 0 <= i < cs.len() ==> cs[i].channel != channel,
    ensures
        channel_state(cs, channel) == (0u64, Seq::<u8>::empty()),
{
}

proof fn lemma_update_channel(cs: Seq<ChannelRuntime>, i: int, s: ChannelRuntime)
    requires
        distinct_channels(cs),
        0 <= i < cs.len(),
        s.channel == cs[i].channel,
    ensures
        distinct_channels(cs.update(i, s)),
        channel_state(cs.update(i, s), s.channel) == (s.frame_count, s.active_sent_errors@),
        forall|ch: u8| ch != s.channel ==> #[trigger] channel_state(cs.update(i, s), ch) == channel_state(cs, ch),
{
    let u = cs.update(i, s);
    assert(distinct_channels(u)) by {
        assert forall|x: int, y: int| 0 <= x < y < u.len() implies u[x].channel != u[y].channel by {
            if x != i && y != i {
                assert(u[x] == cs[x] && u[y] == cs[y]);
            }
        }
    }
    lemma_channel_state_of(u, i, s.channel);
    assert forall|ch: u8| ch != s.channel implies #[trigger] channel_state(u, ch) == channel_state(cs, ch) by {
        if exists|k: int| 0 <= k < cs.len() && cs[k].channel == ch {
            let k = choose|k: int| 0 <= k < cs.len() && cs[k].channel == ch;
            assert(k != i);
            assert(u[k] == cs[k]);
            lemma_channel_state_of(cs, k, ch);
            lemma_channel_state_of(u, k, ch);
        } else {
            assert forall|k: int| 0 <= k < u.len() implies u[k].channel != ch by {
                if k != i {
                    assert(u[k] == cs[k]);
                }
            }
        }
    }
}

/// The alarms, in order, as raised (`raise`) or cleared events.
fn wrap_alarms(alarms: Vec<AlarmEvent>, raise: bool) -> (events: Vec<CanIngressEvent>)
    ensures
        events@.len() == alarms@.len(),
        forall|j: int|
            0 <= j < alarms@.len() ==> (#[trigger] events@[j]) == if raise {
                CanIngressEvent::AlarmRaised(alarms@[j])
            } else {
                CanIngressEvent::AlarmCleared(alarms@[j])
            },
{
    let ghost all = alarms@;
    let mut rest = alarms;
    let mut events: Vec<CanIngressEvent> = Vec::new();
    while rest.len() > 0
        invariant
            events@.len() + rest@.len() == all.len(),
            rest@ == all.skip(events@.len() as int),
            forall|j: int|
                0 <= j < events@.len() ==> (#[trigger] events@[j]) == if raise {
                    CanIngressEvent::AlarmRaised(all[j])
                } else {
                    CanIngressEvent::AlarmCleared(all[j])
                },
        decreases rest@.len(),
    {
        let ghost k = events@.len();
        let e = rest.remove(0);
        assert(e == all[k as int]);
        assert(rest@ =~= all.skip(k as int + 1));
        if raise {
            events.push(CanIngressEvent::AlarmRaised(e));
        } else {
            events.push(CanIngressEvent::AlarmCleared(e));
        }
    }
    events
}

fn push_pass(s: &mut String, ok: bool)
    ensures
        final(s)@ == old(s)@ + pass_text(ok),
{
    if ok {
        push_str(s, "通过");
    } else {
        push_str(s, "失败");
    }
}

fn self_test_message(x: bool, y: bool, z: bool) -> (r: String)
    ensures
        r@ == self_test_text(x, y, z),
{
    let mut r = String::new();
    push_str(&mut r, "CAN 自检结果: X=");
    push_pass(&mut r, x);
    push_str(&mut r, " Y=");
    push_pass(&mut r, y);
    push_str(&mut r, " Z=");
    push_pass(&mut r, z);
    r
}

fn push_flag(s: &mut String, b: bool)
    ensures
        final(s)@ == old(s)@ + flag_digit(b),
{
    if b {
        push_str(s, "1");
    } else {
        push_str(s, "0");
    }
}

/// Appends the alarm and status line reporting SENT error `error_type`.
fn push_sent_error_report(
    events: &mut Vec<CanIngressEvent>,
    device_id: &String,
    error_type: u8,
    error: SentCanError,
    cleared: bool,
    now: SystemTime,
)
    ensures
        final(events)@.len() == old(events)@.len() + 2,
        forall|j: int| 0 <= j < old(events)@.len() ==> final(events)@[j] == old(events)@[j],
        is_sent_error_report(
            final(events)@[old(events)@.len() as int],
            final(events)@[old(events)@.len() as int + 1],
            device_id@,
            error_type,
            error,
            cleared,
            now,
        ),
{
    let mut detail = String::new();
    push_str(&mut detail, "SENT error type=");
    push_dec(&mut detail, error_type as u64);
    push_str(&mut detail, " t1=");
    push_flag(&mut detail, error.t1_error);
    push_str(&mut detail, " t2=");
    push_flag(&mut detail, error.t2_error);
    push_str(&mut detail, " s=");
    push_flag(&mut detail, error.s_error);
    push_str(&mut detail, " ");
    if cleared {
        push_str(&mut detail, "cleared");
    } else {
        push_str(&mut detail, "active");
    }
    assert(detail@ =~= sent_error_detail(error_type, error, cleared));
    let mut alarm_id = String::new();
    push_str(&mut alarm_id, "sent_error_");
    push_dec(&mut alarm_id, error_type as u64);
    let alarm = AlarmEvent {
        device_id: device_id.clone(),
        alarm_id,
        level: AlarmLevel::Warning,
        message: detail.clone(),
        raised_at: now,
        cleared,
    };
    if cleared {
        events.push(CanIngressEvent::AlarmCleared(alarm));
    } else {
        events.push(CanIngressEvent::AlarmRaised(alarm));
    }
    events.push(CanIngressEvent::Status(detail));
}

/// Applies a SENT error report to the active error types of a channel and
/// appends what it reports.
fn reconcile_sent_error(
    device_id: &String,
    error: SentCanError,
    active: &mut Vec<u8>,
    now: SystemTime,
    events: &mut Vec<CanIngressEvent>,
)
    ensures
        ({
            let (active1, reports) = sent_error_step(old(active)@, error.error_type);
            &&& final(active)@ == active1
            &&& final(events)@.len() == old(events)@.len() + 2 * reports.len()
            &&& forall|j: int| 0 <= j < old(events)@.len() ==> final(events)@[j] == old(events)@[j]
            &&& forall|j: int|
                0 <= j < reports.len() ==> is_sent_error_report(
                    #[trigger] final(events)@[old(events)@.len() + 2 * j],
                    final(events)@[old(events)@.len() + 2 * j + 1],
                    device_id@,
                    reports[j].0,
                    error,
                    reports[j].1,
                    now,
                )
        }),
{
    let ghost start = events@;
    let ghost act0 = active@;
    if error.error_type == 0 {
        let mut i: usize = 0;
        while i < active.len()
            invariant
                active@ == act0,
                i <= act0.len(),
                events@.len() == start.len() + 2 * i,
                forall|j: int| 0 <= j < start.len() ==> events@[j] == start[j],
                forall|j: int|
                    0 <= j < i ==> is_sent_error_report(
                        #[trigger] events@[start.len() + 2 * j],
                        events@[start.len() + 2 * j + 1],
                        device_id@,
                        act0[j],
                        error,
                        true,
                        now,
                    ),
            decreases act0.len() - i,
        {
            let ghost before = events@;
            push_sent_error_report(events, device_id, active[i], error, true, now);
            assert forall|j: int| 0 <= j < i implies is_sent_error_report(
                #[trigger] events@[start.len() + 2 * j],
                events@[start.len() + 2 * j + 1],
                device_id@,
                act0[j],
                error,
                true,
                now,
            ) by {
                assert(events@[start.len() + 2 * j] == before[start.len() + 2 * j]);
                assert(events@[start.len() + 2 * j + 1] == before[start.len() + 2 * j + 1]);
            }
            i = i + 1;
        }
        active.clear();
        proof {
            let reports = act0.map_values(|t: u8| (t, true));
            assert forall|j: int| 0 <= j < reports.len() implies is_sent_error_report(
                #[trigger] events@[start.len() + 2 * j],
                events@[start.len() + 2 * j + 1],
                device_id@,
                reports[j].0,
                error,
                reports[j].1,
                now,
            ) by {
                assert(reports[j] == (act0[j], true));
            }
        }
        return;
    }
    let mut present = false;
    let mut i: usize = 0;
    while i < active.len()
        invariant
            active@ == act0,
            i <= act0.len(),
            present == exists|k: int| 0 <= k < i && act0[k] == error.error_type,
        decreases act0.len() - i,
    {
        if active[i] == error.error_type {
            present = true;
        }
        i = i + 1;
    }
    if !present {
        active.push(error.error_type);
        push_sent_error_report(events, device_id, error.error_type, error, false, now);
    }
}

} // verus!
