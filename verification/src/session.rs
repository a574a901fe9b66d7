//! The request/response session with a framed device: pending commands with
//! deadlines and retries, heartbeats, and what each received frame means.
//! Times are milliseconds on a monotonic clock chosen by the caller.
use vstd::prelude::*;
use vstd::utf8::{valid_utf8, decode_utf8};
use crate::text::{
    chars_of, eq_ignore_ascii_case, eq_ignore_case, parse_unsigned, parse_unsigned_spec, split,
    split_ranges, string_of, trim, trim_bounds,
};
use std::time::SystemTime;

verus! {

/// Frame kind of a heartbeat request.
pub const HEARTBEAT_KIND: u8 = 0xF0;

/// Frame kind of a heartbeat reply.
pub const HEARTBEAT_REPLY_KIND: u8 = 0xF1;

/// Frame kind of a telemetry report.
pub const TELEMETRY_KIND: u8 = 0x34;

/// Frame kind of the acknowledgement of a telemetry report.
pub const TELEMETRY_ACK_KIND: u8 = 0x90;

/// Why a session call failed.
#[derive(Debug)]
pub enum SessionError {
    Closed,
    Timeout,
    Transport(String),
    Codec(String),
    Busy,
}

impl SessionError {
    pub open spec fn spec_message(&self) -> Seq<char> {
        match self {
            SessionError::Closed => "session closed"@,
            SessionError::Timeout => "command timeout"@,
            SessionError::Transport(m) => "transport error: "@ + m@,
            SessionError::Codec(m) => "codec error: "@ + m@,
            SessionError::Busy => "command channel full"@,
        }
    }

    /// The error's text.
    pub fn message(&self) -> (r: String)
        ensures
            r@ == self.spec_message(),
    {
        let mut r = String::new();
        match self {
            SessionError::Closed => crate::text::push_str(&mut r, "session closed"),
            SessionError::Timeout => crate::text::push_str(&mut r, "command timeout"),
            SessionError::Transport(m) => {
                crate::text::push_str(&mut r, "transport error: ");
                crate::text::push_str(&mut r, m.as_str());
            },
            SessionError::Codec(m) => {
                crate::text::push_str(&mut r, "codec error: ");
                crate::text::push_str(&mut r, m.as_str());
            },
            SessionError::Busy => crate::text::push_str(&mut r, "command channel full"),
        }
        r
    }
}

/// Session timing, in milliseconds.
#[derive(Clone, Copy, Debug)]
pub struct SessionConfig {
    pub heartbeat_interval_ms: u64,
    pub heartbeat_timeout_ms: u64,
    pub reconnect_base_ms: u64,
    pub reconnect_max_ms: u64,
    pub enable_heartbeat: bool,
    pub reconnect_enabled: bool,
}

impl SessionConfig {
    /// Heartbeat every 2 s, degraded after 8 s of silence, reconnect after
    /// 200 ms doubling up to 5 s.
    pub fn default() -> (r: Self)
        ensures
            r.heartbeat_interval_ms == 2000,
            r.heartbeat_timeout_ms == 8000,
            r.reconnect_base_ms == 200,
            r.reconnect_max_ms == 5000,
            r.enable_heartbeat,
            r.reconnect_enabled,
    {
        SessionConfig {
            heartbeat_interval_ms: 2000,
            heartbeat_timeout_ms: 8000,
            reconnect_base_ms: 200,
            reconnect_max_ms: 5000,
            enable_heartbeat: true,
            reconnect_enabled: true,
        }
    }
}

/// The wait before the next reconnection: doubled, at most `max_ms`.
pub fn next_backoff_ms(backoff_ms: u64, max_ms: u64) -> (r: u64)
    ensures
        r == if 2 * backoff_ms > max_ms {
            max_ms as int
        } else {
            2 * backoff_ms
        },
{
    if backoff_ms > max_ms / 2 {
        if 2 * (backoff_ms as u128) > max_ms as u128 {
            max_ms
        } else {
            2 * backoff_ms
        }
    } else {
        2 * backoff_ms
    }
}

/// One frame on the wire.
#[derive(Debug)]
pub struct Frame {
    pub request_id: u64,
    pub kind: u8,
    pub payload: Vec<u8>,
}

/// What a command asks of the device.
#[derive(Clone, Copy, Debug, PartialEq, Eq, Structural)]
pub enum CommandKind {
    ReadParam,
}

impl CommandKind {
    pub open spec fn spec_code(self) -> u8 {
        match self {
            CommandKind::ReadParam => 0x01,
        }
    }

    /// The frame kind that carries the command.
    pub fn code(self) -> (r: u8)
        ensures
            r == self.spec_code(),
    {
        match self {
            CommandKind::ReadParam => 0x01,
        }
    }
}

/// How often a command may be sent in all; the base delay is in milliseconds.
#[derive(Clone, Copy, Debug)]
pub struct RetryPolicy {
    pub max_attempts: u32,
    pub base_delay_ms: u64,
}

/// A command to the device; the timeout is in milliseconds.
#[derive(Debug)]
pub struct Command {
    pub request_id: u64,
    pub kind: CommandKind,
    pub payload: Vec<u8>,
    pub timeout_ms: u64,
    pub retry: RetryPolicy,
    pub idempotent: bool,
}

/// The device's answer to a command.
#[derive(Debug)]
pub struct Response {
    pub request_id: u64,
    pub code: u8,
    pub payload: Vec<u8>,
    pub ts: SystemTime,
}

/// The frame that carries `cmd`.
pub fn command_frame(cmd: &Command) -> (f: Frame)
    ensures
        f.request_id == cmd.request_id,
        f.kind == cmd.kind.spec_code(),
        f.payload@ == cmd.payload@,
{
    Frame { request_id: cmd.request_id, kind: cmd.kind.code(), payload: cmd.payload.clone() }
}

/// `f` carries `cmd`.
pub open spec fn carries(f: Frame, cmd: Command) -> bool {
    f.request_id == cmd.request_id && f.kind == cmd.kind.spec_code() && f.payload@ == cmd.payload@
}

/// What the session loop must do after a step of the session core.
#[derive(Debug)]
pub enum SessionCoreEvent {
    Transmit(Frame),
    CommandSucceeded(Response),
    CommandTimedOut(u64),
    /// A telemetry report: the sensor id, the text of its value, and the
    /// acknowledgement to send back.
    TelemetryReceived { request_id: u64, sensor_id: usize, value_text: String, ack: Frame },
    InvalidTelemetry,
    UnsolicitedFrame(u8),
    HeartbeatTimedOut,
}

/// A command sent and not answered yet.
#[derive(Debug)]
pub struct PendingCommand {
    pub cmd: Command,
    pub deadline_ms: u64,
    pub attempts: u32,
}

/// No two pending commands share a request id.
pub open spec fn distinct_ids(ps: Seq<PendingCommand>) -> bool {
    forall|i: int, j: int|
        0 <= i < j < ps.len() ==> ps[i].cmd.request_id != ps[j].cmd.request_id
}

/// Whether a command with request id `id` is pending.
pub open spec fn has_id(ps: Seq<PendingCommand>, id: u64) -> bool {
    exists|i: int| 0 <= i < ps.len() && ps[i].cmd.request_id == id
}

/// The pending commands of `ps` but the one with request id `id`, in order.
pub open spec fn without_id(ps: Seq<PendingCommand>, id: u64) -> Seq<PendingCommand> {
    ps.filter(|p: PendingCommand| p.cmd.request_id != id)
}

/// A pending command at tick time `now_ms`: expired when its deadline has
/// come; an expired command is sent again while it is idempotent and has
/// attempts left, and is given up otherwise.
pub open spec fn expired(p: PendingCommand, now_ms: u64) -> bool {
    now_ms >= p.deadline_ms
}

pub open spec fn retried(p: PendingCommand) -> bool {
    p.cmd.idempotent && p.attempts < p.cmd.retry.max_attempts
}

/// Indices, in order, of the expired commands among the first `n`.
pub open spec fn expired_indices(ps: Seq<PendingCommand>, n: nat, now_ms: u64) -> Seq<int>
    decreases n,
{
    if n == 0 {
        Seq::empty()
    } else {
        let prev = expired_indices(ps, (n - 1) as nat, now_ms);
        if expired(ps[n - 1], now_ms) {
            prev.push(n - 1)
        } else {
            prev
        }
    }
}

/// Indices, in order, of the commands among the first `n` still pending
/// after a tick at `now_ms`.
pub open spec fn kept_indices(ps: Seq<PendingCommand>, n: nat, now_ms: u64) -> Seq<int>
    decreases n,
{
    if n == 0 {
        Seq::empty()
    } else {
        let prev = kept_indices(ps, (n - 1) as nat, now_ms);
        if !expired(ps[n - 1], now_ms) || retried(ps[n - 1]) {
            prev.push(n - 1)
        } else {
            prev
        }
    }
}

/// `q` is `p` after a tick at `now_ms` that kept it.
pub open spec fn ticked(p: PendingCommand, q: PendingCommand, now_ms: u64) -> bool {
    if expired(p, now_ms) {
        &&& q.cmd == p.cmd
        &&& q.attempts == p.attempts + 1
        &&& q.deadline_ms == now_ms + p.cmd.timeout_ms
    } else {
        q == p
    }
}

/// `e` is what the tick at `now_ms` reports for the expired command `p`:
/// the command sent again, or its timeout.
pub open spec fn tick_event(e: SessionCoreEvent, p: PendingCommand) -> bool {
    if retried(p) {
        e matches SessionCoreEvent::Transmit(f) && carries(f, p.cmd)
    } else {
        e == SessionCoreEvent::CommandTimedOut(p.cmd.request_id)
    }
}

// ---------------------------------------------------------------------------
// Telemetry payloads
// ---------------------------------------------------------------------------
/// `std::str::from_utf8`: the text of `bytes` when they are valid UTF-8.
#[verifier::external_body]
fn utf8_text(bytes: &[u8]) -> (r: Option<&str>)
    ensures
        match r {
            Some(s) => valid_utf8(bytes@) && s@ == decode_utf8(bytes@),
            None => !valid_utf8(bytes@),
        },
{
    match std::str::from_utf8(bytes) {
        Ok(s) => Some(s),
        Err(_) => None,
    }
}

/// Whether `part` holds an `=`.
pub open spec fn has_eq(part: Seq<char>) -> bool {
    exists|e: int| 0 <= e < part.len() && part[e] == '='
}

/// `e` is the position of the first `=` of `part`.
pub open spec fn is_first_eq(part: Seq<char>, e: int) -> bool {
    0 <= e < part.len() && part[e] == '=' && forall|k: int| 0 <= k < e ==> part[k] != '='
}

pub open spec fn first_eq(part: Seq<char>) -> int {
    choose|e: int| is_first_eq(part, e)
}

/// The `sid` and the text of `value` set by `key=value` parts, the last of
/// each winning; `None` when a part has no `=`.
pub open spec fn sensor_fields(parts: Seq<Seq<char>>) -> Option<(Option<nat>, Option<Seq<char>>)>
    decreases parts.len(),
{
    if parts.len() == 0 {
        Some((None, None))
    } else {
        match sensor_fields(parts.drop_last()) {
            Some((sid, value)) => {
                let p = parts.last();
                if !has_eq(p) {
                    None
                } else {
                    let e = first_eq(p);
                    let key = trim(p.take(e));
                    let v = trim(p.skip(e + 1));
                    if eq_ignore_ascii_case(key, "sid"@) {
                        Some((parse_unsigned_spec(v, usize::MAX as nat), value))
                    } else if eq_ignore_ascii_case(key, "value"@) {
                        Some((sid, Some(v)))
                    } else {
                        Some((sid, value))
                    }
                }
            },
            None => None,
        }
    }
}

/// A telemetry report `sid=<usize>,value=<text>`: comma-separated
/// `key=value` parts, keys in any ASCII case, whitespace around text ignored.
pub open spec fn spec_parse_sensor_text(text: Seq<char>) -> Option<(nat, Seq<char>)> {
    match sensor_fields(split(trim(text), ',')) {
        Some((Some(sid), Some(v))) => Some((sid, v)),
        _ => None,
    }
}

proof fn lemma_sensor_fields_none(parts: Seq<Seq<char>>, j: int, k: int)
    requires
        0 <= j <= k <= parts.len(),
        sensor_fields(parts.take(j)) is None,
    ensures
        sensor_fields(parts.take(k)) is None,
    decreases k - j,
{
    if k > j {
        lemma_sensor_fields_none(parts, j, k - 1);
        assert(parts.take(k).drop_last() =~= parts.take(k - 1));
    }
}

/// Reads a telemetry report: the sensor id and the text of the value.
pub fn parse_sensor_text(text: &str) -> (r: Option<(usize, String)>)
    ensures
        match r {
            Some((sid, v)) => spec_parse_sensor_text(text@) == Some((sid as nat, v@)),
            None => spec_parse_sensor_text(text@) is None,
        },
{
    let v = chars_of(text);
    let (lo, hi) = trim_bounds(&v, 0, v.len());
    proof {
        assert(v@.subrange(0, v@.len() as int) =~= text@);
    }
    let ranges = split_ranges(&v, lo, hi, ',');
    let ghost parts = split(trim(text@), ',');
    proof {
        assert(parts.take(0) =~= Seq::<Seq<char>>::empty());
    }
    let mut sid: Option<usize> = None;
    let mut value: Option<(usize, usize)> = None;
    let mut j: usize = 0;
    while j < ranges.len()
        invariant
            v@ == text@,
            lo <= hi,
            parts == split(v@.subrange(lo as int, hi as int), ','),
            v@.subrange(lo as int, hi as int) == trim(text@),
            ranges@.len() == parts.len(),
            forall|q: int|
                0 <= q < ranges@.len() ==> {
                    &&& lo <= (#[trigger] ranges@[q]).0 <= ranges@[q].1 <= hi
                    &&& v@.subrange(ranges@[q].0 as int, ranges@[q].1 as int) == parts[q]
                },
            hi <= v@.len(),
            j <= ranges@.len(),
            match value {
                Some((a, b)) => a <= b <= v@.len(),
                None => true,
            },
            sensor_fields(parts.take(j as int)) == Some(
                (
                    match sid {
                        Some(s) => Some(s as nat),
                        None => None::<nat>,
                    },
                    match value {
                        Some((a, b)) => Some(v@.subrange(a as int, b as int)),
                        None => None::<Seq<char>>,
                    },
                ),
            ),
        decreases ranges@.len() - j,
    {
        let (a, b) = ranges[j];
        let ghost p = parts[j as int];
        proof {
            assert(parts.take(j + 1).drop_last() =~= parts.take(j as int));
            assert(parts.take(j + 1).last() == p);
        }
        let mut e = a;
        while e < b && v[e] != '='
            invariant
                a <= e <= b <= v@.len(),
                forall|k: int| a <= k < e ==> v@[k] != '=',
            decreases b - e,
        {
            e = e + 1;
        }
        if e == b {
            proof {
                assert(!has_eq(p)) by {
                    if has_eq(p) {
                        let x = choose|x: int| 0 <= x < p.len() && p[x] == '=';
                        assert(v@[a + x] == '=');
                    }
                }
                lemma_sensor_fields_none(parts, j + 1, parts.len() as int);
                assert(parts.take(parts.len() as int) =~= parts);
            }
            return None;
        }
        proof {
            let e0 = (e - a) as int;
            assert(is_first_eq(p, e0));
            assert forall|x: int| is_first_eq(p, x) implies x == e0 by {
                if x < e0 {
                    assert(p[x] != '=');
                } else if x > e0 {
                    assert(p[e0] != '=');
                }
            }
            assert(first_eq(p) == e0);
            assert(p.take(e0) =~= v@.subrange(a as int, e as int));
            assert(p.skip(e0 + 1) =~= v@.subrange(e + 1, b as int));
        }
        let (klo, khi) = trim_bounds(&v, a, e);
        let (vlo, vhi) = trim_bounds(&v, e + 1, b);
        if eq_ignore_case(&v, klo, khi, "sid") {
            sid = match parse_unsigned(&v, vlo, vhi, usize::MAX as u64) {
                Some(x) => Some(x as usize),
                None => None,
            };
        } else if eq_ignore_case(&v, klo, khi, "value") {
            value = Some((vlo, vhi));
        }
        j = j + 1;
    }
    proof {
        assert(parts.take(parts.len() as int) =~= parts);
    }
    match (sid, value) {
        (Some(s), Some((a, b))) => Some((s, string_of(&v, a, b))),
        _ => None,
    }
}

/// Reads the payload of a telemetry frame: `None` unless it is UTF-8 text
/// that `parse_sensor_text` accepts.
pub fn parse_sensor_value(payload: &[u8]) -> (r: Option<(usize, String)>)
    ensures
        match r {
            Some((sid, v)) => valid_utf8(payload@) && spec_parse_sensor_text(decode_utf8(payload@))
                == Some((sid as nat, v@)),
            None => !valid_utf8(payload@) || spec_parse_sensor_text(decode_utf8(payload@)) is None,
        },
{
    match utf8_text(payload) {
        Some(text) => parse_sensor_text(text),
        None => None,
    }
}

// ---------------------------------------------------------------------------
// The session core
// ---------------------------------------------------------------------------
/// The state of one connection: pending commands, in the order they were
/// first sent, and the time of the last received frame.
pub struct SessionCore {
    config: SessionConfig,
    pending: Vec<PendingCommand>,
    last_rx_ms: u64,
}

impl SessionCore {
    #[verifier::type_invariant]
    spec fn wf(self) -> bool {
        distinct_ids(self.pending@)
    }

    pub closed spec fn spec_pending(self) -> Seq<PendingCommand> {
        self.pending@
    }

    pub closed spec fn spec_last_rx_ms(self) -> u64 {
        self.last_rx_ms
    }

    pub closed spec fn spec_config(self) -> SessionConfig {
        self.config
    }

    /// A session with nothing pending, last heard from at `now_ms`.
    pub fn new(config: SessionConfig, now_ms: u64) -> (r: Self)
        ensures
            r.spec_pending().len() == 0,
            r.spec_last_rx_ms() == now_ms,
            r.spec_config() == config,
    {
        SessionCore { config, pending: Vec::new(), last_rx_ms: now_ms }
    }

    fn find(&self, id: u64) -> (r: Option<usize>)
        ensures
            match r {
                Some(i) => i < self.pending@.len() && self.pending@[i as int].cmd.request_id == id,
                None => !has_id(self.pending@, id),
            },
    {
        let mut i: usize = 0;
        while i < self.pending.len()
            invariant
                i <= self.pending@.len(),
                forall|k: int| 0 <= k < i ==> self.pending@[k].cmd.request_id != id,
            decreases self.pending@.len() - i,
        {
            if self.pending[i].cmd.request_id == id {
                return Some(i);
            }
            i = i + 1;
        }
        None
    }

    /// Sends `cmd` and waits for its answer until `now_ms` plus its timeout;
    /// a command pending under the same request id is replaced.
    pub fn handle_command(&mut self, cmd: Command, now_ms: u64) -> (events: Vec<SessionCoreEvent>)
        requires
            now_ms + cmd.timeout_ms <= u64::MAX,
        ensures
            events@.len() == 1,
            events@[0] matches SessionCoreEvent::Transmit(f) && carries(f, cmd),
            final(self).spec_last_rx_ms() == old(self).spec_last_rx_ms(),
            final(self).spec_config() == old(self).spec_config(),
            ({
                let p = PendingCommand { cmd, deadline_ms: (now_ms + cmd.timeout_ms) as u64, attempts: 1 };
                if has_id(old(self).spec_pending(), cmd.request_id) {
                    exists|i: int|
                        0 <= i < old(self).spec_pending().len() && old(self).spec_pending()[i].cmd.request_id
                            == cmd.request_id && final(self).spec_pending() == old(self).spec_pending().update(i, p)
                } else {
                    final(self).spec_pending() == old(self).spec_pending().push(p)
                }
            }),
    {
        proof {
            use_type_invariant(&*self);
        }
        let frame = command_frame(&cmd);
        let id = cmd.request_id;
        let deadline_ms = now_ms + cmd.timeout_ms;
        let p = PendingCommand { cmd, deadline_ms, attempts: 1 };
        let mut pending = Vec::new();
        std::mem::swap(&mut pending, &mut self.pending);
        let ghost before = pending@;
        let mut i: usize = 0;
        let mut found: Option<usize> = None;
        while i < pending.len()
            invariant
                pending@ == before,
                i <= before.len(),
                match found {
                    Some(k) => k < before.len() && before[k as int].cmd.request_id == id,
                    None => forall|k: int| 0 <= k < i ==> before[k].cmd.request_id != id,
                },
            decreases before.len() - i,
        {
            if found.is_none() && pending[i].cmd.request_id == id {
                found = Some(i);
            }
            i = i + 1;
        }
        match found {
            Some(k) => {
                pending.set(k, p);
                assert(distinct_ids(pending@)) by {
                    assert forall|x: int, y: int| 0 <= x < y < pending@.len() implies pending@[x].cmd.request_id
                        != pending@[y].cmd.request_id by {
                        if x != k && y != k {
                            assert(pending@[x] == before[x] && pending@[y] == before[y]);
                        } else if x == k {
                            assert(pending@[y] == before[y]);
                        } else {
                            assert(pending@[x] == before[x]);
                        }
                    }
                }
            },
            None => {
                pending.push(p);
                assert(distinct_ids(pending@)) by {
                    assert forall|x: int, y: int| 0 <= x < y < pending@.len() implies pending@[x].cmd.request_id
                        != pending@[y].cmd.request_id by {
                        assert(pending@[x] == before[x]);
                        if y < before.len() {
                            assert(pending@[y] == before[y]);
                        }
                    }
                }
            },
        }
        self.pending = pending;
        let mut events = Vec::new();
        events.push(SessionCoreEvent::Transmit(frame));
        events
    }

    /// Sends a heartbeat, and reports the connection lost when nothing was
    /// received for longer than the heartbeat timeout. Does nothing when
    /// heartbeats are off.
    pub fn handle_heartbeat_tick(&mut self, now_ms: u64) -> (events: Vec<SessionCoreEvent>)
        ensures
            *final(self) == *old(self),
            !old(self).spec_config().enable_heartbeat ==> events@.len() == 0,
            old(self).spec_config().enable_heartbeat ==> {
                &&& events@.len() == if crate::can::elapsed_ms(now_ms, old(self).spec_last_rx_ms())
                    > old(self).spec_config().heartbeat_timeout_ms {
                    2int
                } else {
                    1int
                }
                &&& events@[0] matches SessionCoreEvent::Transmit(f) && f.request_id == 0 && f.kind
                    == HEARTBEAT_KIND && f.payload@.len() == 0
                &&& events@.len() == 2 ==> events@[1] == SessionCoreEvent::HeartbeatTimedOut
            },
    {
        let mut events = Vec::new();
        if !self.config.enable_heartbeat {
            return events;
        }
        events.push(
            SessionCoreEvent::Transmit(
                Frame { request_id: 0, kind: HEARTBEAT_KIND, payload: Vec::new() },
            ),
        );
        let elapsed = if now_ms >= self.last_rx_ms {
            now_ms - self.last_rx_ms
        } else {
            0
        };
        if elapsed > self.config.heartbeat_timeout_ms {
            events.push(SessionCoreEvent::HeartbeatTimedOut);
        }
        events
    }

    /// Whether every pending deadline can be moved to `now_ms` plus its
    /// command's timeout.
    pub open spec fn spec_deadlines_fit(self, now_ms: u64) -> bool {
        forall|i: int|
            0 <= i < self.spec_pending().len() ==> now_ms + (#[trigger] self.spec_pending()[i]).cmd.timeout_ms
                <= u64::MAX
    }

    pub fn deadlines_fit(&self, now_ms: u64) -> (r: bool)
        ensures
            r == self.spec_deadlines_fit(now_ms),
    {
        let mut i: usize = 0;
        while i < self.pending.len()
            invariant
                i <= self.pending@.len(),
                forall|k: int| 0 <= k < i ==> now_ms + self.pending@[k].cmd.timeout_ms <= u64::MAX,
            decreases self.pending@.len() - i,
        {
            if self.pending[i].cmd.timeout_ms > u64::MAX - now_ms {
                return false;
            }
            i = i + 1;
        }
        true
    }

    /// Handles every command whose deadline has come, in pending order: one
    /// that is idempotent and has attempts left is sent again with a new
    /// deadline; any other is dropped and reported timed out.
    pub fn handle_timeout_tick(&mut self, now_ms: u64) -> (events: Vec<SessionCoreEvent>)
        requires
            old(self).spec_deadlines_fit(now_ms),
        ensures
            final(self).spec_last_rx_ms() == old(self).spec_last_rx_ms(),
            final(self).spec_config() == old(self).spec_config(),
            ({
                let ps = old(self).spec_pending();
                let ex = expired_indices(ps, ps.len(), now_ms);
                let kept = kept_indices(ps, ps.len(), now_ms);
                &&& events@.len() == ex.len()
                &&& forall|j: int| 0 <= j < ex.len() ==> tick_event(#[trigger] events@[j], ps[ex[j]])
                &&& final(self).spec_pending().len() == kept.len()
                &&& forall|j: int|
                    0 <= j < kept.len() ==> ticked(ps[kept[j]], #[trigger] final(self).spec_pending()[j], now_ms)
            }),
    {
        proof {
            use_type_invariant(&*self);
        }
        let mut pending = Vec::new();
        std::mem::swap(&mut pending, &mut self.pending);
        let ghost ps = pending@;
        let mut kept: Vec<PendingCommand> = Vec::new();
        let mut events: Vec<SessionCoreEvent> = Vec::new();
        let n = pending.len();
        let mut rest = pending;
        let ghost total = ps.len();
        let mut i: usize = 0;
        while rest.len() > 0
            invariant
                i + rest@.len() == total,
                total == ps.len(),
                total == n,
                rest@ == ps.skip(i as int),
                forall|k: int| 0 <= k < total ==> now_ms + (#[trigger] ps[k]).cmd.timeout_ms <= u64::MAX,
                distinct_ids(ps),
                events@.len() == expired_indices(ps, i as nat, now_ms).len(),
                forall|j: int|
                    0 <= j < events@.len() ==> tick_event(
                        #[trigger] events@[j],
                        ps[expired_indices(ps, i as nat, now_ms)[j]],
                    ),
                kept@.len() == kept_indices(ps, i as nat, now_ms).len(),
                forall|j: int|
                    0 <= j < kept@.len() ==> ticked(
                        ps[kept_indices(ps, i as nat, now_ms)[j]],
                        #[trigger] kept@[j],
                        now_ms,
                    ),
                forall|j: int|
                    0 <= j < kept@.len() ==> 0 <= #[trigger] kept_indices(ps, i as nat, now_ms)[j] < i,
                forall|j: int, l: int|
                    0 <= j < l < kept@.len() ==> kept_indices(ps, i as nat, now_ms)[j]
                        < kept_indices(ps, i as nat, now_ms)[l],
            decreases rest@.len(),
        {
            let p = rest.remove(0);
            assert(p == ps[i as int]);
            assert(rest@ =~= ps.skip(i + 1));
            if now_ms >= p.deadline_ms {
                if p.cmd.idempotent && p.attempts < p.cmd.retry.max_attempts {
                    let frame = command_frame(&p.cmd);
                    let q = PendingCommand {
                        deadline_ms: now_ms + p.cmd.timeout_ms,
                        attempts: p.attempts + 1,
                        cmd: p.cmd,
                    };
                    kept.push(q);
                    events.push(SessionCoreEvent::Transmit(frame));
                } else {
                    events.push(SessionCoreEvent::CommandTimedOut(p.cmd.request_id));
                }
            } else {
                kept.push(p);
            }
            i = i + 1;
        }
        proof {
            assert forall|x: int, y: int| 0 <= x < y < kept@.len() implies kept@[x].cmd.request_id
                != kept@[y].cmd.request_id by {
                let kx = kept_indices(ps, total as nat, now_ms)[x];
                let ky = kept_indices(ps, total as nat, now_ms)[y];
                assert(kept@[x].cmd == ps[kx].cmd);
                assert(kept@[y].cmd == ps[ky].cmd);
            }
        }
        self.pending = kept;
        events
    }

    /// Takes in a frame received at `now_ms`: a heartbeat reply only counts
    /// as traffic; an answer to a pending command completes it; a telemetry
    /// report is acknowledged (or reported invalid); anything else is
    /// unsolicited.
    pub fn handle_frame(&mut self, frame: Frame, now_ms: u64, system_now: SystemTime) -> (events: Vec<
        SessionCoreEvent,
    >)
        ensures
            final(self).spec_last_rx_ms() == now_ms,
            final(self).spec_config() == old(self).spec_config(),
            frame.kind == HEARTBEAT_REPLY_KIND ==> events@.len() == 0 && final(self).spec_pending()
                == old(self).spec_pending(),
            frame.kind != HEARTBEAT_REPLY_KIND && has_id(old(self).spec_pending(), frame.request_id)
                ==> {
                &&& final(self).spec_pending() == without_id(old(self).spec_pending(), frame.request_id)
                &&& events@.len() == 1
                &&& events@[0] matches SessionCoreEvent::CommandSucceeded(r) && r.request_id
                    == frame.request_id && r.code == frame.kind && r.payload@ == frame.payload@ && r.ts
                    == system_now
            },
            frame.kind != HEARTBEAT_REPLY_KIND && !has_id(old(self).spec_pending(), frame.request_id)
                ==> {
                &&& final(self).spec_pending() == old(self).spec_pending()
                &&& events@.len() == 1
                &&& frame.kind == TELEMETRY_KIND ==> match (
                    if valid_utf8(frame.payload@) {
                        spec_parse_sensor_text(decode_utf8(frame.payload@))
                    } else {
                        None
                    }
                ) {
                    Some((sid, v)) => events@[0] matches SessionCoreEvent::TelemetryReceived {
                        request_id,
                        sensor_id,
                        value_text,
                        ack,
                    } && request_id == frame.request_id && sensor_id == sid && value_text@ == v
                        && ack.request_id == frame.request_id && ack.kind == TELEMETRY_ACK_KIND
                        && ack.payload@ == "demo2-ack"@.map_values(|c: char| c as u8),
                    None => events@[0] == SessionCoreEvent::InvalidTelemetry,
                }
                &&& frame.kind != TELEMETRY_KIND ==> events@[0] == SessionCoreEvent::UnsolicitedFrame(
                    frame.kind,
                )
            },
    {
        proof {
            use_type_invariant(&*self);
        }
        self.last_rx_ms = now_ms;
        let mut events = Vec::new();
        if frame.kind == HEARTBEAT_REPLY_KIND {
            return events;
        }
        match self.find(frame.request_id) {
            Some(k) => {
                let mut pending = Vec::new();
                std::mem::swap(&mut pending, &mut self.pending);
                let ghost before = pending@;
                let _ = pending.remove(k);
                proof {
                    lemma_remove_unique(before, k as int, frame.request_id);
                    assert forall|x: int, y: int| 0 <= x < y < pending@.len() implies pending@[x].cmd.request_id
                        != pending@[y].cmd.request_id by {
                        let bx = if x < k { x } else { x + 1 };
                        let by_ = if y < k { y } else { y + 1 };
                        assert(pending@[x] == before[bx]);
                        assert(pending@[y] == before[by_]);
                    }
                }
                self.pending = pending;
                events.push(
                    SessionCoreEvent::CommandSucceeded(
                        Response {
                            request_id: frame.request_id,
                            code: frame.kind,
                            payload: frame.payload,
                            ts: system_now,
                        },
                    ),
                );
                return events;
            },
            None => {},
        }
        if frame.kind == TELEMETRY_KIND {
            match parse_sensor_value(frame.payload.as_slice()) {
                Some((sensor_id, value_text)) => {
                    let ack = Frame {
                        request_id: frame.request_id,
                        kind: TELEMETRY_ACK_KIND,
                        payload: ack_payload(),
                    };
                    events.push(
                        SessionCoreEvent::TelemetryReceived {
                            request_id: frame.request_id,
                            sensor_id,
                            value_text,
                            ack,
                        },
                    );
                },
                None => events.push(SessionCoreEvent::InvalidTelemetry),
            }
            return events;
        }
        events.push(SessionCoreEvent::UnsolicitedFrame(frame.kind));
        events
    }

    /// Ends the session: the request ids of every pending command, in
    /// pending order, and nothing pending any more.
    pub fn close(&mut self) -> (ids: Vec<u64>)
        ensures
            ids@ == old(self).spec_pending().map_values(|p: PendingCommand| p.cmd.request_id),
            final(self).spec_pending().len() == 0,
            final(self).spec_last_rx_ms() == old(self).spec_last_rx_ms(),
            final(self).spec_config() == old(self).spec_config(),
    {
        let mut pending = Vec::new();
        std::mem::swap(&mut pending, &mut self.pending);
        let mut ids = Vec::new();
        let mut i: usize = 0;
        while i < pending.len()
            invariant
                i <= pending@.len(),
                ids@ =~= pending@.take(i as int).map_values(|p: PendingCommand| p.cmd.request_id),
            decreases pending@.len() - i,
        {
            ids.push(pending[i].cmd.request_id);
            i = i + 1;
        }
        assert(pending@.take(pending@.len() as int) =~= pending@);
        ids
    }
}

/// The acknowledgement payload, `demo2-ack`.
fn ack_payload() -> (r: Vec<u8>)
    ensures
        r@ == "demo2-ack"@.map_values(|c: char| c as u8),
{
    let text = chars_of("demo2-ack");
    let mut r: Vec<u8> = Vec::new();
    let mut i: usize = 0;
    proof {
        reveal_strlit("demo2-ack");
    }
    while i < text.len()
        invariant
            text@ == "demo2-ack"@,
            i <= text@.len(),
            forall|k: int| 0 <= k < text@.len() ==> (text@[k] as u32) < 128,
            r@ =~= text@.take(i as int).map_values(|c: char| c as u8),
        decreases text@.len() - i,
    {
        r.push(text[i] as u8);
        i = i + 1;
    }
    assert(text@.take(text@.len() as int) =~= text@);
    r
}

/// A command is completed at most once: once the answer to request `id`
/// removed it, no command with that id is pending.
pub proof fn lemma_answer_completes_once(ps: Seq<PendingCommand>, id: u64)
    ensures
        !has_id(without_id(ps, id), id),
        forall|i: int|
            0 <= i < without_id(ps, id).len() ==> (#[trigger] without_id(ps, id)[i]).cmd.request_id != id,
{
    let f = |p: PendingCommand| p.cmd.request_id != id;
    assert forall|i: int| 0 <= i < ps.filter(f).len() implies f(#[trigger] ps.filter(f)[i]) by {
        ps.lemma_filter_pred(f, i);
    }
}

proof fn lemma_remove_unique(before: Seq<PendingCommand>, k: int, id: u64)
    requires
        0 <= k < before.len(),
        before[k].cmd.request_id == id,
        distinct_ids(before),
    ensures
        before.remove(k) == without_id(before, id),
{
    let f = |p: PendingCommand| p.cmd.request_id != id;
    let pre = before.take(k);
    let post = before.skip(k + 1);
    assert(before =~= pre + seq![before[k]] + post);
    assert(pre.filter(f) =~= pre) by {
        assert forall|x: int| 0 <= x < pre.len() implies f(pre[x]) by {
            assert(pre[x] == before[x]);
        }
        lemma_filter_all(pre, f);
    }
    assert(post.filter(f) =~= post) by {
        assert forall|x: int| 0 <= x < post.len() implies f(post[x]) by {
            assert(post[x] == before[k + 1 + x]);
        }
        lemma_filter_all(post, f);
    }
    assert(seq![before[k]].filter(f) =~= Seq::<PendingCommand>::empty()) by {
        reveal_with_fuel(Seq::filter, 2);
        assert(!f(before[k]));
        assert(seq![before[k]].last() == before[k]);
        assert(seq![before[k]].drop_last() =~= Seq::<PendingCommand>::empty());
        assert(Seq::<PendingCommand>::empty().filter(f) =~= Seq::<PendingCommand>::empty());
    }
    Seq::filter_distributes_over_add(pre + seq![before[k]], post, f);
    Seq::filter_distributes_over_add(pre, seq![before[k]], f);
    assert(before.remove(k) =~= pre + post);
}

proof fn lemma_filter_all(s: Seq<PendingCommand>, f: spec_fn(PendingCommand) -> bool)
    requires
        forall|x: int| 0 <= x < s.len() ==> f(s[x]),
    ensures
        s.filter(f) == s,
    decreases s.len(),
{
    reveal(Seq::filter);
    if s.len() > 0 {
        assert forall|x: int| 0 <= x < s.drop_last().len() implies f(s.drop_last()[x]) by {
            assert(s.drop_last()[x] == s[x]);
        }
        lemma_filter_all(s.drop_last(), f);
        assert(f(s[s.len() - 1]));
        assert(s.drop_last().push(s.last()) =~= s);
    } else {
        assert(s.filter(f) =~= s);
    }
}

// ---------------------------------------------------------------------------
// Session lifecycle
// ---------------------------------------------------------------------------
/// Where a device session stands.
#[derive(Clone, Copy, Debug, PartialEq, Eq, Structural)]
pub enum ConnState {
    Disconnected,
    Connecting,
    Handshaking,
    Ready,
    Degraded,
    Reconnecting,
}

/// A change of state, announced to the rest of the collector.
#[derive(Clone, Copy, Debug, PartialEq, Eq, Structural)]
pub struct StateChange {
    pub from: ConnState,
    pub to: ConnState,
}

/// What the session's task does next.
#[derive(Clone, Copy, Debug, PartialEq, Eq, Structural)]
pub enum LifecycleAction {
    /// Announce a change of state.
    Announce(StateChange),
    /// Open the transport.
    Connect,
    /// Serve the open connection until it ends.
    Serve,
    /// Close the transport.
    Close,
    /// Wait this many milliseconds before connecting again.
    Sleep(u64),
    /// The session is over.
    Stop,
}

/// Moving to `next`: announced only when it is a change.
pub open spec fn spec_enter(state: ConnState, next: ConnState) -> Seq<LifecycleAction> {
    if state == next {
        Seq::empty()
    } else {
        seq![LifecycleAction::Announce(StateChange { from: state, to: next })]
    }
}

/// The state machine of a device session's task: connecting, serving,
/// and reconnecting with a growing wait, or stopping.
pub struct SessionLifecycle {
    pub state: ConnState,
    pub backoff_ms: u64,
    pub config: SessionConfig,
}

/// After a failed or broken connection: stop when reconnecting is off, else
/// wait and connect again.
pub open spec fn spec_after_failure(m: SessionLifecycle) -> (SessionLifecycle, Seq<LifecycleAction>) {
    if !m.config.reconnect_enabled {
        (
            SessionLifecycle { state: ConnState::Disconnected, ..m },
            spec_enter(m.state, ConnState::Disconnected) + seq![LifecycleAction::Close, LifecycleAction::Stop],
        )
    } else {
        (
            SessionLifecycle {
                state: ConnState::Connecting,
                backoff_ms: (if 2 * m.backoff_ms > m.config.reconnect_max_ms {
                    m.config.reconnect_max_ms as int
                } else {
                    2 * m.backoff_ms
                }) as u64,
                ..m
            },
            spec_enter(m.state, ConnState::Reconnecting) + seq![
                LifecycleAction::Close,
                LifecycleAction::Sleep(m.backoff_ms),
            ] + spec_enter(ConnState::Reconnecting, ConnState::Connecting) + seq![
                LifecycleAction::Connect,
            ],
        )
    }
}

impl SessionLifecycle {
    /// A session not yet started, waiting the base delay after its first
    /// failure.
    pub fn new(config: SessionConfig) -> (r: Self)
        ensures
            r.state == ConnState::Disconnected,
            r.backoff_ms == config.reconnect_base_ms,
            r.config == config,
    {
        SessionLifecycle { state: ConnState::Disconnected, backoff_ms: config.reconnect_base_ms, config }
    }

    /// Moves to `next`; the change to announce, if it is one.
    pub fn enter(&mut self, next: ConnState) -> (r: Option<StateChange>)
        ensures
            final(self).state == next,
            final(self).backoff_ms == old(self).backoff_ms,
            final(self).config == old(self).config,
            r == if old(self).state == next {
                None
            } else {
                Some(StateChange { from: old(self).state, to: next })
            },
    {
        if self.state == next {
            return None;
        }
        let prev = self.state;
        self.state = next;
        Some(StateChange { from: prev, to: next })
    }

    fn push_enter(&mut self, next: ConnState, actions: &mut Vec<LifecycleAction>)
        ensures
            final(self).state == next,
            final(self).backoff_ms == old(self).backoff_ms,
            final(self).config == old(self).config,
            final(actions)@ == old(actions)@ + spec_enter(old(self).state, next),
    {
        match self.enter(next) {
            Some(change) => actions.push(LifecycleAction::Announce(change)),
            None => {
                assert(actions@ =~= actions@ + Seq::<LifecycleAction>::empty());
            },
        }
    }

    /// Starts the session: connecting.
    pub fn start(&mut self) -> (r: Vec<LifecycleAction>)
        ensures
            *final(self) == (SessionLifecycle { state: ConnState::Connecting, ..*old(self) }),
            r@ == spec_enter(old(self).state, ConnState::Connecting) + seq![LifecycleAction::Connect],
    {
        let mut actions: Vec<LifecycleAction> = Vec::new();
        self.push_enter(ConnState::Connecting, &mut actions);
        actions.push(LifecycleAction::Connect);
        assert(actions@ =~= spec_enter(old(self).state, ConnState::Connecting) + seq![
            LifecycleAction::Connect,
        ]);
        actions
    }

    /// The transport opened: through the handshake to ready, then serve.
    pub fn on_connected(&mut self) -> (r: Vec<LifecycleAction>)
        ensures
            *final(self) == (SessionLifecycle { state: ConnState::Ready, ..*old(self) }),
            r@ == spec_enter(old(self).state, ConnState::Handshaking) + spec_enter(
                ConnState::Handshaking,
                ConnState::Ready,
            ) + seq![LifecycleAction::Serve],
    {
        let mut actions: Vec<LifecycleAction> = Vec::new();
        self.push_enter(ConnState::Handshaking, &mut actions);
        self.push_enter(ConnState::Ready, &mut actions);
        actions.push(LifecycleAction::Serve);
        assert(actions@ =~= spec_enter(old(self).state, ConnState::Handshaking) + spec_enter(
            ConnState::Handshaking,
            ConnState::Ready,
        ) + seq![LifecycleAction::Serve]);
        actions
    }

    fn after_failure(&mut self) -> (r: Vec<LifecycleAction>)
        ensures
            (*final(self), r@) == spec_after_failure(*old(self)),
    {
        let mut actions: Vec<LifecycleAction> = Vec::new();
        if !self.config.reconnect_enabled {
            self.push_enter(ConnState::Disconnected, &mut actions);
            actions.push(LifecycleAction::Close);
            actions.push(LifecycleAction::Stop);
            assert(actions@ =~= spec_enter(old(self).state, ConnState::Disconnected) + seq![
                LifecycleAction::Close,
                LifecycleAction::Stop,
            ]);
            return actions;
        }
        let wait = self.backoff_ms;
        self.push_enter(ConnState::Reconnecting, &mut actions);
        actions.push(LifecycleAction::Close);
        actions.push(LifecycleAction::Sleep(wait));
        self.backoff_ms = next_backoff_ms(wait, self.config.reconnect_max_ms);
        self.push_enter(ConnState::Connecting, &mut actions);
        actions.push(LifecycleAction::Connect);
        assert(actions@ =~= spec_enter(old(self).state, ConnState::Reconnecting) + seq![
            LifecycleAction::Close,
            LifecycleAction::Sleep(wait),
        ] + spec_enter(ConnState::Reconnecting, ConnState::Connecting) + seq![
            LifecycleAction::Connect,
        ]);
        actions
    }

    /// Opening the transport failed.
    pub fn on_connect_failed(&mut self) -> (r: Vec<LifecycleAction>)
        ensures
            (*final(self), r@) == spec_after_failure(*old(self)),
    {
        self.after_failure()
    }

    /// The connection ended: cleanly when asked to stop, which ends the
    /// session; otherwise as a failure.
    pub fn on_connection_ended(&mut self, clean: bool) -> (r: Vec<LifecycleAction>)
        ensures
            clean ==> *final(self) == (SessionLifecycle {
                state: ConnState::Disconnected,
                ..*old(self)
            }) && r@ == spec_enter(old(self).state, ConnState::Disconnected) + seq![
                LifecycleAction::Close,
                LifecycleAction::Stop,
            ],
            !clean ==> (*final(self), r@) == spec_after_failure(*old(self)),
    {
        if clean {
            let mut actions: Vec<LifecycleAction> = Vec::new();
            self.push_enter(ConnState::Disconnected, &mut actions);
            actions.push(LifecycleAction::Close);
            actions.push(LifecycleAction::Stop);
            assert(actions@ =~= spec_enter(old(self).state, ConnState::Disconnected) + seq![
                LifecycleAction::Close,
                LifecycleAction::Stop,
            ]);
            actions
        } else {
            self.after_failure()
        }
    }
}

/// Waits between reconnections grow and never pass the limit, once within
/// it.
pub proof fn lemma_backoff_bounded(m: SessionLifecycle)
    requires
        m.config.reconnect_enabled,
        m.backoff_ms <= m.config.reconnect_max_ms,
    ensures
        m.backoff_ms <= spec_after_failure(m).0.backoff_ms <= m.config.reconnect_max_ms,
        spec_after_failure(m).1.contains(LifecycleAction::Sleep(m.backoff_ms)),
{
    let acts = spec_after_failure(m).1;
    let pre = spec_enter(m.state, ConnState::Reconnecting);
    assert(acts[pre.len() as int + 1] == LifecycleAction::Sleep(m.backoff_ms));
}

/// Every change a failure announces is a real change, and the session then
/// stops or connects again.
pub proof fn lemma_failure_announces_real_changes(m: SessionLifecycle)
    ensures
        forall|i: int|
            0 <= i < spec_after_failure(m).1.len() ==> (#[trigger] spec_after_failure(m).1[i] matches LifecycleAction::Announce(c)
                ==> c.from != c.to),
        !m.config.reconnect_enabled ==> spec_after_failure(m).1.last() == LifecycleAction::Stop,
        m.config.reconnect_enabled ==> spec_after_failure(m).1.last() == LifecycleAction::Connect,
{
}

} // verus!
