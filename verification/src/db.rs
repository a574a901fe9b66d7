//! Persistence decisions: capture timestamps, the daily partitions a batch
//! of samples needs, and the delays between write attempts.
use vstd::prelude::*;
use serde_json::Value;
use vstd::string::StrSliceExecFns;
use vstd::utf8::encode_utf8;
use std::time::{SystemTime, UNIX_EPOCH};

verus! {

/// Milliseconds in one day.
pub const DAY_MS: i64 = 86400000;

/// Shortest delay between write attempts, in milliseconds.
pub const MIN_RETRY_DELAY_MS: u64 = 1;

/// Longest delay between write attempts, in milliseconds.
pub const MAX_RETRY_DELAY_MS: u64 = 30000;

/// Reads the clock: `SystemTime::now().duration_since(UNIX_EPOCH)` in whole
/// milliseconds, `None` when the clock is before the epoch. The value
/// depends on the time of the call, so nothing is stated of it.
#[verifier::external_body]
fn epoch_millis() -> (r: Option<u128>) {
    match SystemTime::now().duration_since(UNIX_EPOCH) {
        Ok(d) => Some(d.as_millis()),
        Err(_) => None,
    }
}

/// A clock reading in milliseconds as stored: truncated to `i64`, and 0 for
/// a clock before the epoch.
pub fn stored_millis(since_epoch: Option<u128>) -> (r: i64)
    ensures
        r == match since_epoch {
            Some(ms) => ms as i64,
            None => 0,
        },
{
    match since_epoch {
        Some(ms) => ms as i64,
        None => 0,
    }
}

/// The current time in milliseconds since the Unix epoch, as stored.
pub fn now_ms() -> (r: i64) {
    stored_millis(epoch_millis())
}

/// The day (counted from the epoch, floor division) of a timestamp.
pub open spec fn day_of(ts_ms: i64) -> int {
    ts_ms as int / DAY_MS as int
}

/// Strictly increasing.
pub open spec fn strictly_increasing(s: Seq<i64>) -> bool {
    forall|i: int, j: int| 0 <= i < j < s.len() ==> s[i] < s[j]
}

/// `i64::div_euclid` by the length of a day.
pub fn day_index(ts_ms: i64) -> (r: i64)
    ensures
        r == day_of(ts_ms),
{
    if ts_ms >= 0 {
        ts_ms / DAY_MS
    } else {
        let m = -1 - ts_ms;
        let a = m / DAY_MS;
        proof {
            lemma_floor_div_negative(ts_ms as int, m as int, a as int);
        }
        -a - 1
    }
}

proof fn lemma_floor_div_negative(ts: int, m: int, a: int)
    requires
        ts < 0,
        m == -1 - ts,
        a == m / 86400000,
    ensures
        ts / 86400000 == -a - 1,
{
    let b = m % 86400000;
    assert(m == 86400000 * a + b && 0 <= b < 86400000) by (nonlinear_arith)
        requires
            m >= 0,
            a == m / 86400000,
            b == m % 86400000,
    ;
    assert(ts == 86400000 * (-a - 1) + (86400000 - b - 1)) by (nonlinear_arith)
        requires
            m == 86400000 * a + b,
            ts == -1 - m,
    ;
    vstd::arithmetic::div_mod::lemma_fundamental_div_mod_converse(
        ts,
        86400000,
        -a - 1,
        86400000 - b - 1,
    );
}

/// The days the samples fall on, each once, in increasing order: the daily
/// partitions a batch needs.
pub fn partition_days(ts_values: &[i64]) -> (days: Vec<i64>)
    ensures
        strictly_increasing(days@),
        forall|d: i64| days@.contains(d) <==> exists|i: int| 0 <= i < ts_values@.len() && day_of(ts_values@[i]) == d,
{
    let mut days: Vec<i64> = Vec::new();
    let mut i: usize = 0;
    while i < ts_values.len()
        invariant
            i <= ts_values@.len(),
            strictly_increasing(days@),
            forall|d: i64| days@.contains(d) <==> exists|k: int| 0 <= k < i && day_of(ts_values@[k]) == d,
        decreases ts_values@.len() - i,
    {
        let day = day_index(ts_values[i]);
        let mut p: usize = 0;
        while p < days.len() && days[p] < day
            invariant
                p <= days@.len(),
                forall|k: int| 0 <= k < p ==> days@[k] < day,
            decreases days@.len() - p,
        {
            p = p + 1;
        }
        let ghost before = days@;
        if p < days.len() && days[p] == day {
            assert(days@[p as int] == day);
            assert forall|d: i64| days@.contains(d) <==> (before.contains(d) || d == day) by {
                if d == day {
                    assert(days@[p as int] == d);
                }
            }
        } else {
            days.insert(p, day);
            assert forall|x: int, y: int| 0 <= x < y < days@.len() implies days@[x] < days@[y] by {
                if y < p {
                } else if x < p && y == p {
                } else if x < p {
                    assert(days@[y] == before[y - 1]);
                } else if x == p {
                    assert(days@[y] == before[y - 1]);
                    assert(before[p as int] > day);
                } else {
                    assert(days@[x] == before[x - 1]);
                    assert(days@[y] == before[y - 1]);
                }
            }
            assert forall|d: i64| days@.contains(d) <==> (before.contains(d) || d == day) by {
                if days@.contains(d) {
                    let x = choose|x: int| 0 <= x < days@.len() && days@[x] == d;
                    if x < p {
                        assert(before[x] == d);
                    } else if x > p {
                        assert(before[x - 1] == d);
                    }
                }
                if before.contains(d) {
                    let x = choose|x: int| 0 <= x < before.len() && before[x] == d;
                    if x < p {
                        assert(days@[x] == d);
                    } else {
                        assert(days@[x + 1] == d);
                    }
                }
                if d == day {
                    assert(days@[p as int] == d);
                }
            }
        }
        assert forall|d: i64| days@.contains(d) <==> exists|k: int| 0 <= k < i + 1 && day_of(ts_values@[k]) == d by {
            assert(days@.contains(d) <==> (before.contains(d) || d == day));
            if d == day {
                assert(day_of(ts_values@[i as int]) == d);
            }
            if before.contains(d) {
                let k = choose|k: int| 0 <= k < i && day_of(ts_values@[k]) == d;
                assert(0 <= k < i + 1 && day_of(ts_values@[k]) == d);
            }
            if exists|k: int| 0 <= k < i + 1 && day_of(ts_values@[k]) == d {
                let k = choose|k: int| 0 <= k < i + 1 && day_of(ts_values@[k]) == d;
                if k < i {
                    assert(exists|k2: int| 0 <= k2 < i && day_of(ts_values@[k2]) == d);
                    assert(before.contains(d));
                }
            }
        }
        i = i + 1;
    }
    days
}

/// The first delay between write attempts: the base delay clamped to
/// 1 ms ..= 30 s.
pub fn initial_retry_delay_ms(base_ms: u64) -> (r: u64)
    ensures
        r == if base_ms < MIN_RETRY_DELAY_MS {
            MIN_RETRY_DELAY_MS
        } else if base_ms > MAX_RETRY_DELAY_MS {
            MAX_RETRY_DELAY_MS
        } else {
            base_ms
        },
{
    if base_ms < MIN_RETRY_DELAY_MS {
        MIN_RETRY_DELAY_MS
    } else if base_ms > MAX_RETRY_DELAY_MS {
        MAX_RETRY_DELAY_MS
    } else {
        base_ms
    }
}

/// The delay after `delay_ms`: doubled, at most 30 s.
pub fn next_retry_delay_ms(delay_ms: u64) -> (r: u64)
    ensures
        r == if 2 * delay_ms > MAX_RETRY_DELAY_MS {
            MAX_RETRY_DELAY_MS as int
        } else {
            2 * delay_ms
        },
{
    if delay_ms > MAX_RETRY_DELAY_MS / 2 {
        MAX_RETRY_DELAY_MS
    } else {
        2 * delay_ms
    }
}

/// The collector's counters as reported on the health endpoint.
#[derive(Debug)]
pub struct HealthStats {
    pub ingress_ready: bool,
    pub ui_ready: bool,
    pub ingress_connections: u64,
    pub ui_clients: u64,
    pub samples_rx: u64,
    pub ui_drop: u64,
    pub db_drop: u64,
    pub db_write_fail: u64,
    pub last_db_error: Option<String>,
}

/// A JSON scalar as written in a report.
#[derive(Debug)]
pub enum JsonScalar {
    Bool(bool),
    UInt(u64),
    Text(String),
    Null,
}

/// What a [`JsonScalar`] stands for.
pub enum JsonLeaf {
    Bool(bool),
    UInt(u64),
    Text(Seq<char>),
    Null,
}

impl View for JsonScalar {
    type V = JsonLeaf;

    open spec fn view(&self) -> JsonLeaf {
        match self {
            JsonScalar::Bool(b) => JsonLeaf::Bool(*b),
            JsonScalar::UInt(n) => JsonLeaf::UInt(*n),
            JsonScalar::Text(t) => JsonLeaf::Text(t@),
            JsonScalar::Null => JsonLeaf::Null,
        }
    }
}

/// The compact JSON text serde_json writes for the object whose members
/// are `members` (keys in its map order); named, not spelled out.
pub uninterp spec fn json_object_text(members: Seq<(Seq<char>, JsonLeaf)>) -> Seq<char>;

pub open spec fn member_view(m: (String, JsonScalar)) -> (Seq<char>, JsonLeaf) {
    (m.0@, m.1@)
}

/// `serde_json::Value::to_string` of the object holding `members`, each
/// scalar turned into the `Value` of the same kind. The text is a function
/// of the members alone, so it is named by `json_object_text`.
#[verifier::external_body]
fn json_object_to_string(members: Vec<(String, JsonScalar)>) -> (r: String)
    ensures
        r@ == json_object_text(members@.map_values(|m: (String, JsonScalar)| member_view(m))),
{
    let mut map = serde_json::Map::new();
    for (key, value) in members {
        let value = match value {
            JsonScalar::Bool(b) => Value::from(b),
            JsonScalar::UInt(n) => Value::from(n),
            JsonScalar::Text(t) => Value::from(t),
            JsonScalar::Null => Value::Null,
        };
        map.insert(key, value);
    }
    Value::Object(map).to_string()
}

/// The members of the health report: the readiness flags and counters,
/// and the last database error as a string or `null`.
pub open spec fn spec_health_members(stats: HealthStats) -> Seq<(Seq<char>, JsonLeaf)> {
    seq![
        ("ingress_ready"@, JsonLeaf::Bool(stats.ingress_ready)),
        ("ui_ready"@, JsonLeaf::Bool(stats.ui_ready)),
        ("ingress_connections"@, JsonLeaf::UInt(stats.ingress_connections)),
        ("ui_clients"@, JsonLeaf::UInt(stats.ui_clients)),
        ("samples_rx"@, JsonLeaf::UInt(stats.samples_rx)),
        ("ui_drop"@, JsonLeaf::UInt(stats.ui_drop)),
        ("db_drop"@, JsonLeaf::UInt(stats.db_drop)),
        ("db_write_fail"@, JsonLeaf::UInt(stats.db_write_fail)),
        ("last_db_error"@, match stats.last_db_error {
            Some(t) => JsonLeaf::Text(t@),
            None => JsonLeaf::Null,
        }),
    ]
}

/// The members of the health report, in order.
pub fn health_members(stats: &HealthStats) -> (r: Vec<(String, JsonScalar)>)
    ensures
        r@.map_values(|m: (String, JsonScalar)| member_view(m)) == spec_health_members(*stats),
{
    let mut r: Vec<(String, JsonScalar)> = Vec::new();
    r.push((String::from_str("ingress_ready"), JsonScalar::Bool(stats.ingress_ready)));
    r.push((String::from_str("ui_ready"), JsonScalar::Bool(stats.ui_ready)));
    r.push((String::from_str("ingress_connections"), JsonScalar::UInt(stats.ingress_connections)));
    r.push((String::from_str("ui_clients"), JsonScalar::UInt(stats.ui_clients)));
    r.push((String::from_str("samples_rx"), JsonScalar::UInt(stats.samples_rx)));
    r.push((String::from_str("ui_drop"), JsonScalar::UInt(stats.ui_drop)));
    r.push((String::from_str("db_drop"), JsonScalar::UInt(stats.db_drop)));
    r.push((String::from_str("db_write_fail"), JsonScalar::UInt(stats.db_write_fail)));
    let last = match &stats.last_db_error {
        Some(t) => JsonScalar::Text(t.clone()),
        None => JsonScalar::Null,
    };
    r.push((String::from_str("last_db_error"), last));
    assert(r@.map_values(|m: (String, JsonScalar)| member_view(m)) =~= spec_health_members(*stats));
    r
}

/// The health report: the counters as one JSON object.
pub fn health_json(stats: &HealthStats) -> (r: String)
    ensures
        r@ == json_object_text(spec_health_members(*stats)),
{
    json_object_to_string(health_members(stats))
}

/// `GET /ready` as bytes.
pub open spec fn ready_request() -> Seq<u8> {
    seq![71u8, 69u8, 84u8, 32u8, 47u8, 114u8, 101u8, 97u8, 100u8, 121u8]
}

/// The health endpoint's answer: for a request starting `GET /ready`,
/// whether ingress and the viewer feed are both up (503 when not); for any
/// other, the counters.
pub open spec fn spec_health_response(request: Seq<u8>, stats: HealthStats) -> Seq<char> {
    let ready_asked = request.len() >= 10 && request.take(10) == ready_request();
    let (code, body) = if ready_asked {
        if stats.ingress_ready && stats.ui_ready {
            ("200 OK"@, "{\"ready\":true}"@)
        } else {
            ("503 Service Unavailable"@, "{\"ready\":false}"@)
        }
    } else {
        (
            "200 OK"@,
            json_object_text(spec_health_members(stats)),
        )
    };
    "HTTP/1.1 "@ + code + "\r\nContent-Type: application/json\r\nContent-Length: "@ + crate::text::dec(
        encode_utf8(body).len(),
    ) + "\r\nConnection: close\r\n\r\n"@ + body
}

fn asks_ready(request: &[u8]) -> (r: bool)
    ensures
        r == (request@.len() >= 10 && request@.take(10) == ready_request()),
{
    if request.len() < 10 {
        return false;
    }
    let r = request[0] == 71 && request[1] == 69 && request[2] == 84 && request[3] == 32 && request[4]
        == 47 && request[5] == 114 && request[6] == 101 && request[7] == 97 && request[8] == 100
        && request[9] == 121;
    proof {
        if r {
            assert(request@.take(10) =~= ready_request());
        } else {
            if request@.take(10) == ready_request() {
                assert(request@.take(10)[0] == 71u8);
                assert(request@.take(10)[1] == 69u8);
                assert(request@.take(10)[2] == 84u8);
                assert(request@.take(10)[3] == 32u8);
                assert(request@.take(10)[4] == 47u8);
                assert(request@.take(10)[5] == 114u8);
                assert(request@.take(10)[6] == 101u8);
                assert(request@.take(10)[7] == 97u8);
                assert(request@.take(10)[8] == 100u8);
                assert(request@.take(10)[9] == 121u8);
            }
        }
    }
    r
}

/// The full HTTP answer of the health endpoint to the request read.
pub fn health_response(request: &[u8], stats: &HealthStats) -> (r: String)
    ensures
        r@ == spec_health_response(request@, *stats),
{
    let (code, body) = if asks_ready(request) {
        if stats.ingress_ready && stats.ui_ready {
            ("200 OK", String::from_str("{\"ready\":true}"))
        } else {
            ("503 Service Unavailable", String::from_str("{\"ready\":false}"))
        }
    } else {
        ("200 OK", health_json(stats))
    };
    let body_len = body.as_str().as_bytes_vec().len();
    let mut r = String::from_str("HTTP/1.1 ");
    crate::text::push_str(&mut r, code);
    crate::text::push_str(&mut r, "\r\nContent-Type: application/json\r\nContent-Length: ");
    crate::text::push_dec(&mut r, body_len as u64);
    crate::text::push_str(&mut r, "\r\nConnection: close\r\n\r\n");
    crate::text::push_str(&mut r, body.as_str());
    r
}

} // verus!
