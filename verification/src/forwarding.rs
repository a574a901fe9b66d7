//! What the collector's forwarders decide: which demo samples reach the
//! viewers, how many devices are connected, and whether a sample's numbers
//! fit the database columns.
use vstd::prelude::*;
use crate::keyed::{
    distinct_keys, keyed_map, lemma_distinct_push, lemma_keyed_map_dom, lemma_keyed_map_index,
    lemma_keyed_map_push, lemma_keyed_map_remove, lemma_keyed_map_update,
};
use crate::session::ConnState;
use crate::text::{chars_eq, chars_of, dec, push_dec, push_str};

verus! {

/// Only every this many-th demo sample of a sensor goes to the viewers.
pub const DEMO_UI_STRIDE: u64 = 8;

/// Demo samples seen for one (device, sensor).
struct DemoCounter {
    device_id: String,
    sensor_id: usize,
    count: u64,
}

spec fn counter_key() -> spec_fn(DemoCounter) -> (Seq<char>, usize) {
    |c: DemoCounter| (c.device_id@, c.sensor_id)
}

spec fn counter_val() -> spec_fn(DemoCounter) -> u64 {
    |c: DemoCounter| c.count
}

fn same_text(a: &String, b: &str) -> (r: bool)
    ensures
        r == (a@ == b@),
{
    let v = chars_of(a.as_str());
    let r = chars_eq(&v, 0, v.len(), b);
    assert(v@.subrange(0, v@.len() as int) =~= a@);
    r
}

fn find_counter(v: &Vec<DemoCounter>, device_id: &str, sensor_id: usize) -> (r: Option<usize>)
    ensures
        match r {
            Some(i) => i < v@.len() && counter_key()(v@[i as int]) == (device_id@, sensor_id),
            None => !keyed_map(v@, counter_key(), counter_val()).dom().contains((device_id@, sensor_id)),
        },
{
    let mut i: usize = 0;
    while i < v.len()
        invariant
            i <= v@.len(),
            forall|j: int| 0 <= j < i ==> counter_key()(#[trigger] v@[j]) != (device_id@, sensor_id),
        decreases v@.len() - i,
    {
        if v[i].sensor_id == sensor_id && same_text(&v[i].device_id, device_id) {
            return Some(i);
        }
        i = i + 1;
    }
    proof {
        lemma_keyed_map_dom(v@, counter_key(), counter_val(), (device_id@, sensor_id));
    }
    None
}

/// Thins out demo samples on their way to the viewers.
pub struct DemoThrottle {
    counters: Vec<DemoCounter>,
}

impl View for DemoThrottle {
    type V = Map<(Seq<char>, usize), u64>;

    closed spec fn view(&self) -> Map<(Seq<char>, usize), u64> {
        keyed_map(self.counters@, counter_key(), counter_val())
    }
}

/// The count after one more sample (held at the counter's limit).
pub open spec fn bumped(counts: Map<(Seq<char>, usize), u64>, k: (Seq<char>, usize)) -> u64 {
    let c: int = if counts.dom().contains(k) {
        counts[k] as int
    } else {
        0
    };
    if c == u64::MAX {
        u64::MAX
    } else {
        (c + 1) as u64
    }
}

impl DemoThrottle {
    #[verifier::type_invariant]
    closed spec fn inv(self) -> bool {
        distinct_keys(self.counters@, counter_key())
    }

    /// No sample seen yet.
    pub fn new() -> (r: Self)
        ensures
            r@ == Map::<(Seq<char>, usize), u64>::empty(),
    {
        DemoThrottle { counters: Vec::new() }
    }

    /// Counts a demo sample of `sensor_id` on `device_id`; whether it goes
    /// to the viewers (every eighth of its sensor does).
    pub fn forward(&mut self, device_id: &str, sensor_id: usize) -> (r: bool)
        ensures
            final(self)@ == old(self)@.insert((device_id@, sensor_id), bumped(old(self)@, (device_id@, sensor_id))),
            r == (bumped(old(self)@, (device_id@, sensor_id)) % DEMO_UI_STRIDE == 0),
    {
        proof {
            use_type_invariant(&*self);
        }
        let mut counters: Vec<DemoCounter> = Vec::new();
        std::mem::swap(&mut counters, &mut self.counters);
        let count;
        match find_counter(&counters, device_id, sensor_id) {
            Some(i) => {
                proof {
                    lemma_keyed_map_index(counters@, counter_key(), counter_val(), i as int);
                }
                let c = counters[i].count;
                count = if c == u64::MAX {
                    c
                } else {
                    c + 1
                };
                let entry = DemoCounter { device_id: String::from_str(device_id), sensor_id, count };
                proof {
                    lemma_keyed_map_update(counters@, counter_key(), counter_val(), i as int, entry);
                }
                counters.set(i, entry);
            },
            None => {
                count = 1;
                let entry = DemoCounter { device_id: String::from_str(device_id), sensor_id, count };
                proof {
                    lemma_keyed_map_push(counters@, counter_key(), counter_val(), entry);
                    lemma_distinct_push(counters@, counter_key(), counter_val(), entry);
                }
                counters.push(entry);
            },
        }
        self.counters = counters;
        count % DEMO_UI_STRIDE == 0
    }
}

/// Among eight samples in a row of one sensor (its count below the limit),
/// exactly one reaches the viewers.
pub proof fn lemma_one_in_eight_forwarded(c: int)
    requires
        0 <= c,
    ensures
        exists|j: int| 0 <= j < 8 && #[trigger] ((c + j) % 8) == 0,
        forall|i: int, j: int|
            0 <= i < j < 8 && #[trigger] ((c + i) % 8) == 0 ==> #[trigger] ((c + j) % 8) != 0,
{
    let j = (8 - c % 8) % 8;
    assert((c + j) % 8 == 0);
}

// ---------------------------------------------------------------------------
// Connected devices
// ---------------------------------------------------------------------------
struct DeviceEntry {
    device_id: String,
}

spec fn device_key() -> spec_fn(DeviceEntry) -> Seq<char> {
    |d: DeviceEntry| d.device_id@
}

spec fn device_val() -> spec_fn(DeviceEntry) -> () {
    |d: DeviceEntry| ()
}

/// The devices whose session is ready.
pub struct ConnectedDevices {
    devices: Vec<DeviceEntry>,
}

impl View for ConnectedDevices {
    type V = Set<Seq<char>>;

    closed spec fn view(&self) -> Set<Seq<char>> {
        keyed_map(self.devices@, device_key(), device_val()).dom()
    }
}

/// The connected devices after a session of `device_id` changed to `to`:
/// it counts once ready, and no longer once disconnected.
pub open spec fn spec_session_changed(devices: Set<Seq<char>>, device_id: Seq<char>, to: ConnState) -> Set<Seq<char>> {
    match to {
        ConnState::Ready => devices.insert(device_id),
        ConnState::Disconnected => devices.remove(device_id),
        _ => devices,
    }
}

impl ConnectedDevices {
    #[verifier::type_invariant]
    closed spec fn inv(self) -> bool {
        distinct_keys(self.devices@, device_key())
    }

    /// None connected.
    pub fn new() -> (r: Self)
        ensures
            r@ == Set::<Seq<char>>::empty(),
    {
        let r = ConnectedDevices { devices: Vec::new() };
        assert(r@ =~= Set::<Seq<char>>::empty());
        r
    }

    fn find(v: &Vec<DeviceEntry>, device_id: &str) -> (r: Option<usize>)
        ensures
            match r {
                Some(i) => i < v@.len() && device_key()(v@[i as int]) == device_id@,
                None => !keyed_map(v@, device_key(), device_val()).dom().contains(device_id@),
            },
    {
        let mut i: usize = 0;
        while i < v.len()
            invariant
                i <= v@.len(),
                forall|j: int| 0 <= j < i ==> device_key()(#[trigger] v@[j]) != device_id@,
            decreases v@.len() - i,
        {
            if same_text(&v[i].device_id, device_id) {
                return Some(i);
            }
            i = i + 1;
        }
        proof {
            lemma_keyed_map_dom(v@, device_key(), device_val(), device_id@);
        }
        None
    }

    /// Follows a session's change of state; returns how many devices are
    /// connected.
    pub fn session_changed(&mut self, device_id: &str, to: ConnState) -> (r: usize)
        ensures
            final(self)@ == spec_session_changed(old(self)@, device_id@, to),
            r == final(self)@.len(),
            final(self)@.finite(),
    {
        proof {
            use_type_invariant(&*self);
        }
        let mut devices: Vec<DeviceEntry> = Vec::new();
        std::mem::swap(&mut devices, &mut self.devices);
        let found = Self::find(&devices, device_id);
        match to {
            ConnState::Ready => {
                match found {
                    Some(i) => {
                        proof {
                            lemma_keyed_map_index(devices@, device_key(), device_val(), i as int);
                            assert(keyed_map(devices@, device_key(), device_val()).dom() =~= keyed_map(
                                devices@,
                                device_key(),
                                device_val(),
                            ).dom().insert(device_id@));
                        }
                    },
                    None => {
                        let entry = DeviceEntry { device_id: String::from_str(device_id) };
                        proof {
                            lemma_keyed_map_push(devices@, device_key(), device_val(), entry);
                            lemma_distinct_push(devices@, device_key(), device_val(), entry);
                        }
                        devices.push(entry);
                    },
                }
            },
            ConnState::Disconnected => {
                match found {
                    Some(i) => {
                        proof {
                            lemma_keyed_map_remove(devices@, device_key(), device_val(), i as int);
                        }
                        devices.remove(i);
                    },
                    None => {
                        assert(keyed_map(devices@, device_key(), device_val()).dom() =~= keyed_map(
                            devices@,
                            device_key(),
                            device_val(),
                        ).dom().remove(device_id@));
                    },
                }
            },
            _ => {},
        }
        proof {
            lemma_distinct_len(devices@);
        }
        let n = devices.len();
        self.devices = devices;
        n
    }
}

proof fn lemma_distinct_len(v: Seq<DeviceEntry>)
    requires
        distinct_keys(v, device_key()),
    ensures
        keyed_map(v, device_key(), device_val()).dom().finite(),
        keyed_map(v, device_key(), device_val()).dom().len() == v.len(),
    decreases v.len(),
{
    if v.len() > 0 {
        let init = v.drop_last();
        assert(distinct_keys(init, device_key())) by {
            assert forall|a: int, b: int|
                0 <= a < init.len() && 0 <= b < init.len() && a != b implies device_key()(init[a])
                != device_key()(init[b]) by {
                assert(init[a] == v[a] && init[b] == v[b]);
            }
        }
        lemma_distinct_len(init);
        lemma_keyed_map_dom(init, device_key(), device_val(), device_key()(v.last()));
        if exists|j: int| 0 <= j < init.len() && device_key()(init[j]) == device_key()(v.last()) {
            let j = choose|j: int| 0 <= j < init.len() && device_key()(init[j]) == device_key()(v.last());
            assert(device_key()(v[j]) == device_key()(v[v.len() - 1]));
        }
    }
}

// ---------------------------------------------------------------------------
// Database columns
// ---------------------------------------------------------------------------
/// Why a sample cannot be stored.
#[derive(Clone, Copy, Debug, PartialEq, Eq, Structural)]
pub enum RowRangeError {
    /// The sensor number is over the INTEGER column's range.
    SensorId(usize),
    /// The request id is over the BIGINT column's range.
    RequestId(u64),
}

impl RowRangeError {
    pub open spec fn spec_message(self) -> Seq<char> {
        match self {
            RowRangeError::SensorId(v) => "sensor_id out of PostgreSQL INTEGER range: "@ + dec(v as nat),
            RowRangeError::RequestId(v) => "request_id out of PostgreSQL BIGINT range: "@ + dec(v as nat),
        }
    }

    /// The error's text.
    pub fn message(&self) -> (r: String)
        ensures
            r@ == self.spec_message(),
    {
        let mut r = String::new();
        match self {
            RowRangeError::SensorId(v) => {
                push_str(&mut r, "sensor_id out of PostgreSQL INTEGER range: ");
                push_dec(&mut r, *v as u64);
            },
            RowRangeError::RequestId(v) => {
                push_str(&mut r, "request_id out of PostgreSQL BIGINT range: ");
                push_dec(&mut r, *v);
            },
        }
        r
    }
}

/// The sensor number and request id as stored, when they fit the columns;
/// the sensor number is checked first.
pub fn row_ids(sensor_id: usize, request_id: u64) -> (r: Result<(i32, i64), RowRangeError>)
    ensures
        sensor_id > i32::MAX ==> r == Err::<(i32, i64), RowRangeError>(RowRangeError::SensorId(sensor_id)),
        sensor_id <= i32::MAX && request_id > i64::MAX ==> r == Err::<(i32, i64), RowRangeError>(
            RowRangeError::RequestId(request_id),
        ),
        sensor_id <= i32::MAX && request_id <= i64::MAX ==> r == Ok::<(i32, i64), RowRangeError>(
            (sensor_id as i32, request_id as i64),
        ),
{
    if sensor_id > 0x7fff_ffff {
        return Err(RowRangeError::SensorId(sensor_id));
    }
    if request_id > 0x7fff_ffff_ffff_ffff {
        return Err(RowRangeError::RequestId(request_id));
    }
    Ok((sensor_id as i32, request_id as i64))
}

} // verus!
