//! Signals computed from raw sensor samples: each signal is a sensor's raw
//! value, or a formula applied to another signal. Which signals a raw sample
//! produces, and in which order, is decided here; a formula is applied by a
//! function the caller hands in, on values of the caller's type.
use vstd::prelude::*;
use crate::text::{dec, push_dec, push_str};

verus! {

/// What a signal is computed from.
pub enum SignalKind<F> {
    /// The raw value of a sensor.
    SourceSensor { sensor_id: usize },
    /// `formula` applied to the signal `input_signal_id`.
    Derived { input_signal_id: String, formula: F },
}

/// A signal: its id, display name, unit, shown decimals and source.
pub struct SignalSpec<F> {
    pub id: String,
    pub name: String,
    pub unit: String,
    pub decimals: usize,
    pub kind: SignalKind<F>,
}

/// A raw sensor sample.
pub struct RawSample<V> {
    pub device_id: String,
    pub sensor_id: usize,
    pub t_sec: V,
    pub value: V,
    pub req_id: u64,
}

/// A sample of one signal.
pub struct SignalSample<V> {
    pub signal_id: String,
    pub device_id: String,
    pub t_sec: V,
    pub value: V,
    pub req_id: u64,
}

/// `s` is the raw signal of `sensor`.
pub open spec fn is_source_of<F>(s: SignalSpec<F>, sensor: usize) -> bool {
    s.kind matches SignalKind::SourceSensor { sensor_id } && sensor_id == sensor
}

/// `s` is computed from the signal with id `input`.
pub open spec fn feeds_on<F>(s: SignalSpec<F>, input: Seq<char>) -> bool {
    s.kind matches SignalKind::Derived { input_signal_id, .. } && input_signal_id@ == input
}

/// The indices below `n` of the raw signals of `sensor`, ascending.
pub open spec fn sources_upto<F>(specs: Seq<SignalSpec<F>>, sensor: usize, n: int) -> Seq<int>
    decreases n,
{
    if n <= 0 {
        Seq::empty()
    } else if is_source_of(specs[n - 1], sensor) {
        sources_upto(specs, sensor, n - 1).push(n - 1)
    } else {
        sources_upto(specs, sensor, n - 1)
    }
}

/// The indices below `n` of the signals computed from `input`, ascending.
pub open spec fn fed_upto<F>(specs: Seq<SignalSpec<F>>, input: Seq<char>, n: int) -> Seq<int>
    decreases n,
{
    if n <= 0 {
        Seq::empty()
    } else if feeds_on(specs[n - 1], input) {
        fed_upto(specs, input, n - 1).push(n - 1)
    } else {
        fed_upto(specs, input, n - 1)
    }
}

/// For each signal in `sources`, in order, the signals computed from it.
pub open spec fn derived_from<F>(specs: Seq<SignalSpec<F>>, sources: Seq<int>) -> Seq<int>
    decreases sources.len(),
{
    if sources.len() == 0 {
        Seq::empty()
    } else {
        derived_from(specs, sources.drop_last()) + fed_upto(specs, specs[sources.last()].id@, specs.len() as int)
    }
}

/// The raw signals of `sensor`.
pub open spec fn source_hits<F>(specs: Seq<SignalSpec<F>>, sensor: usize) -> Seq<int> {
    sources_upto(specs, sensor, specs.len() as int)
}

/// The signals a raw sample of `sensor` produces: its raw signals in order,
/// then, for each of them, the signals computed from it.
pub open spec fn emitted<F>(specs: Seq<SignalSpec<F>>, sensor: usize) -> Seq<int> {
    source_hits(specs, sensor) + derived_from(specs, source_hits(specs, sensor))
}

/// The formula of a derived signal.
pub open spec fn formula_of<F>(s: SignalSpec<F>) -> F
    recommends
        s.kind is Derived,
{
    s.kind->formula
}

proof fn lemma_sources_upto_bounds<F>(specs: Seq<SignalSpec<F>>, sensor: usize, n: int)
    requires
        n <= specs.len(),
    ensures
        forall|k: int| 0 <= k < sources_upto(specs, sensor, n).len() ==> 0 <= #[trigger] sources_upto(specs, sensor, n)[k] < n
            && is_source_of(specs[sources_upto(specs, sensor, n)[k]], sensor),
    decreases n,
{
    if n > 0 {
        lemma_sources_upto_bounds(specs, sensor, n - 1);
        let p = sources_upto(specs, sensor, n - 1);
        assert forall|k: int| 0 <= k < sources_upto(specs, sensor, n).len() implies 0
            <= #[trigger] sources_upto(specs, sensor, n)[k] < n && is_source_of(
            specs[sources_upto(specs, sensor, n)[k]],
            sensor,
        ) by {
            if k < p.len() {
                assert(sources_upto(specs, sensor, n)[k] == p[k]);
            }
        }
    }
}

proof fn lemma_fed_upto_bounds<F>(specs: Seq<SignalSpec<F>>, input: Seq<char>, n: int)
    requires
        n <= specs.len(),
    ensures
        forall|k: int| 0 <= k < fed_upto(specs, input, n).len() ==> 0 <= #[trigger] fed_upto(specs, input, n)[k] < n
            && feeds_on(specs[fed_upto(specs, input, n)[k]], input),
    decreases n,
{
    if n > 0 {
        lemma_fed_upto_bounds(specs, input, n - 1);
        let p = fed_upto(specs, input, n - 1);
        assert forall|k: int| 0 <= k < fed_upto(specs, input, n).len() implies 0
            <= #[trigger] fed_upto(specs, input, n)[k] < n && feeds_on(
            specs[fed_upto(specs, input, n)[k]],
            input,
        ) by {
            if k < p.len() {
                assert(fed_upto(specs, input, n)[k] == p[k]);
            }
        }
    }
}

proof fn lemma_fed_upto_complete<F>(specs: Seq<SignalSpec<F>>, input: Seq<char>, n: int, j: int)
    requires
        0 <= j < n <= specs.len(),
        feeds_on(specs[j], input),
    ensures
        fed_upto(specs, input, n).contains(j),
    decreases n,
{
    if j < n - 1 {
        lemma_fed_upto_complete(specs, input, n - 1, j);
        let p = fed_upto(specs, input, n - 1);
        let i = choose|i: int| 0 <= i < p.len() && p[i] == j;
        assert(fed_upto(specs, input, n)[i] == j);
    } else {
        assert(fed_upto(specs, input, n).last() == j);
    }
}

proof fn lemma_derived_from_members<F>(specs: Seq<SignalSpec<F>>, sources: Seq<int>)
    requires
        forall|m: int| 0 <= m < sources.len() ==> 0 <= #[trigger] sources[m] < specs.len(),
    ensures
        forall|k: int| 0 <= k < derived_from(specs, sources).len() ==> exists|m: int| 0 <= m < sources.len()
            && feeds_on(specs[#[trigger] derived_from(specs, sources)[k]], specs[sources[m]].id@),
        forall|m: int, j: int| 0 <= m < sources.len() && 0 <= j < specs.len() && feeds_on(specs[j], specs[#[trigger] sources[m]].id@)
            ==> #[trigger] derived_from(specs, sources).contains(j),
    decreases sources.len(),
{
    if sources.len() > 0 {
        let rest = sources.drop_last();
        lemma_derived_from_members(specs, rest);
        let last = sources.last();
        let input = specs[last].id@;
        let fed = fed_upto(specs, input, specs.len() as int);
        lemma_fed_upto_bounds(specs, input, specs.len() as int);
        let d = derived_from(specs, sources);
        let dr = derived_from(specs, rest);
        assert(d == dr + fed);
        assert forall|k: int| 0 <= k < d.len() implies exists|m: int| 0 <= m < sources.len()
            && feeds_on(specs[#[trigger] d[k]], specs[sources[m]].id@) by {
            if k < dr.len() {
                assert(d[k] == dr[k]);
                let m = choose|m: int| 0 <= m < rest.len() && feeds_on(specs[dr[k]], specs[rest[m]].id@);
                assert(rest[m] == sources[m]);
            } else {
                assert(d[k] == fed[k - dr.len()]);
                assert(feeds_on(specs[fed[k - dr.len()]], input));
                assert(sources[sources.len() - 1] == last);
            }
        }
        assert forall|m: int, j: int| 0 <= m < sources.len() && 0 <= j < specs.len() && feeds_on(specs[j], specs[#[trigger] sources[m]].id@)
            implies #[trigger] d.contains(j) by {
            if m < rest.len() {
                assert(rest[m] == sources[m]);
                assert(dr.contains(j));
                let i = choose|i: int| 0 <= i < dr.len() && dr[i] == j;
                assert(d[i] == j);
            } else {
                lemma_fed_upto_complete(specs, input, specs.len() as int, j);
                let i = choose|i: int| 0 <= i < fed.len() && fed[i] == j;
                assert(d[dr.len() + i] == j);
            }
        }
    }
}

/// A raw sample of a sensor produces the raw signals of that sensor, then
/// exactly the signals computed from one of them: a derived signal whose
/// input did not change is not produced, and one whose input did is.
pub proof fn lemma_derived_follow_their_source<F>(specs: Seq<SignalSpec<F>>, sensor: usize)
    ensures
        forall|k: int| 0 <= k < source_hits(specs, sensor).len() ==> is_source_of(
            specs[#[trigger] emitted(specs, sensor)[k]],
            sensor,
        ),
        forall|k: int| source_hits(specs, sensor).len() <= k < emitted(specs, sensor).len() ==> exists|m: int|
            0 <= m < source_hits(specs, sensor).len() && feeds_on(
                specs[#[trigger] emitted(specs, sensor)[k]],
                specs[source_hits(specs, sensor)[m]].id@,
            ),
        forall|m: int, j: int| 0 <= m < source_hits(specs, sensor).len() && 0 <= j < specs.len() && feeds_on(
            specs[j],
            specs[#[trigger] source_hits(specs, sensor)[m]].id@,
        ) ==> #[trigger] emitted(specs, sensor).contains(j),
{
    let srcs = source_hits(specs, sensor);
    let e = emitted(specs, sensor);
    lemma_sources_upto_bounds(specs, sensor, specs.len() as int);
    lemma_derived_from_members(specs, srcs);
    let d = derived_from(specs, srcs);
    assert forall|k: int| 0 <= k < srcs.len() implies is_source_of(specs[#[trigger] e[k]], sensor) by {
        assert(e[k] == srcs[k]);
    }
    assert forall|k: int| srcs.len() <= k < e.len() implies exists|m: int| 0 <= m < srcs.len() && feeds_on(
        specs[#[trigger] e[k]],
        specs[srcs[m]].id@,
    ) by {
        assert(e[k] == d[k - srcs.len()]);
    }
    assert forall|m: int, j: int| 0 <= m < srcs.len() && 0 <= j < specs.len() && feeds_on(
        specs[j],
        specs[#[trigger] srcs[m]].id@,
    ) implies #[trigger] e.contains(j) by {
        assert(d.contains(j));
        let i = choose|i: int| 0 <= i < d.len() && d[i] == j;
        assert(e[srcs.len() + i] == j);
    }
}

/// `o` is a sample of signal `s` taken from `raw`, whatever its value.
pub open spec fn sample_of<F, V>(o: SignalSample<V>, s: SignalSpec<F>, raw: RawSample<V>) -> bool {
    &&& o.signal_id@ == s.id@
    &&& o.device_id@ == raw.device_id@
    &&& o.t_sec == raw.t_sec
    &&& o.req_id == raw.req_id
}

/// Signals by id, in a fixed order.
pub struct SignalProcessor<F> {
    specs: Vec<SignalSpec<F>>,
}

impl<F> View for SignalProcessor<F> {
    type V = Seq<SignalSpec<F>>;

    closed spec fn view(&self) -> Seq<SignalSpec<F>> {
        self.specs@
    }
}

impl<F> SignalProcessor<F> {
    pub fn new(specs: Vec<SignalSpec<F>>) -> (r: Self)
        ensures
            r@ == specs@,
    {
        SignalProcessor { specs }
    }

    pub fn specs(&self) -> (r: &[SignalSpec<F>])
        ensures
            r@ == self@,
    {
        self.specs.as_slice()
    }

    /// The first signal with id `signal_id`.
    pub fn spec(&self, signal_id: &str) -> (r: Option<&SignalSpec<F>>)
        ensures
            r is None <==> forall|i: int| 0 <= i < self@.len() ==> self@[i].id@ != signal_id@,
            r matches Some(s) ==> exists|i: int| 0 <= i < self@.len() && *s == self@[i] && self@[i].id@
                == signal_id@ && forall|j: int| 0 <= j < i ==> self@[j].id@ != signal_id@,
    {
        let mut i: usize = 0;
        while i < self.specs.len()
            invariant
                i <= self@.len(),
                self@ == self.specs@,
                forall|j: int| 0 <= j < i ==> self@[j].id@ != signal_id@,
            decreases self@.len() - i,
        {
            if same_text(&self.specs[i].id, signal_id) {
                return Some(&self.specs[i]);
            }
            i = i + 1;
        }
        None
    }

    /// The samples a raw sample produces: one per raw signal of its sensor,
    /// with its value, then for each of those, one per signal computed from
    /// it, with the value `derive` gives for the formula and the raw value.
    pub fn ingest_raw<V: Copy, G: Fn(&F, V) -> V>(&self, raw: &RawSample<V>, derive: G) -> (r: Vec<SignalSample<V>>)
        requires
            forall|f: &F, v: V| #[trigger] derive.requires((f, v)),
        ensures
            r@.len() == emitted(self@, raw.sensor_id).len(),
            forall|k: int| 0 <= k < r@.len() ==> sample_of(#[trigger] r@[k], self@[emitted(self@, raw.sensor_id)[k]], *raw),
            forall|k: int| 0 <= k < source_hits(self@, raw.sensor_id).len() ==> #[trigger] r@[k].value == raw.value,
            forall|k: int| source_hits(self@, raw.sensor_id).len() <= k < r@.len() ==> derive.ensures(
                (&formula_of(self@[emitted(self@, raw.sensor_id)[k]]), raw.value),
                #[trigger] r@[k].value,
            ),
    {
        let specs = &self.specs;
        let n = specs.len();
        let ghost sp = specs@;
        let mut out: Vec<SignalSample<V>> = Vec::new();
        let mut sources: Vec<usize> = Vec::new();
        let mut i: usize = 0;
        proof {
            lemma_sources_upto_bounds(sp, raw.sensor_id, n as int);
        }
        while i < n
            invariant
                i <= n,
                n == sp.len(),
                sp == specs@,
                sources@.len() == sources_upto(sp, raw.sensor_id, i as int).len(),
                forall|k: int| 0 <= k < sources@.len() ==> sources@[k] as int == #[trigger] sources_upto(sp, raw.sensor_id, i as int)[k],
                out@.len() == sources@.len(),
                forall|k: int| 0 <= k < out@.len() ==> sample_of(#[trigger] out@[k], sp[sources@[k] as int], *raw)
                    && out@[k].value == raw.value,
            decreases n - i,
        {
            if let SignalKind::SourceSensor { sensor_id } = &specs[i].kind {
                if *sensor_id == raw.sensor_id {
                    out.push(SignalSample {
                        signal_id: specs[i].id.clone(),
                        device_id: raw.device_id.clone(),
                        t_sec: raw.t_sec,
                        value: raw.value,
                        req_id: raw.req_id,
                    });
                    sources.push(i);
                }
            }
            i = i + 1;
        }
        let ghost srcs = source_hits(sp, raw.sensor_id);
        assert(sources@.len() == srcs.len());
        let count = sources.len();
        let mut s: usize = 0;
        while s < count
            invariant
                s <= count,
                count == sources@.len() == srcs.len(),
                n == sp.len(),
                sp == specs@,
                srcs == source_hits(sp, raw.sensor_id),
                forall|k: int| 0 <= k < sources@.len() ==> sources@[k] as int == #[trigger] srcs[k],
                forall|k: int| 0 <= k < srcs.len() ==> 0 <= #[trigger] srcs[k] < sp.len(),
                forall|f: &F, v: V| #[trigger] derive.requires((f, v)),
                out@.len() == srcs.len() + derived_from(sp, srcs.take(s as int)).len(),
                forall|k: int| 0 <= k < out@.len() ==> sample_of(#[trigger] out@[k], sp[(srcs + derived_from(sp, srcs.take(s as int)))[k]], *raw),
                forall|k: int| 0 <= k < srcs.len() ==> #[trigger] out@[k].value == raw.value,
                forall|k: int| srcs.len() <= k < out@.len() ==> derive.ensures(
                    (&formula_of(sp[(srcs + derived_from(sp, srcs.take(s as int)))[k]]), raw.value),
                    #[trigger] out@[k].value,
                ),
            decreases count - s,
        {
            let src = sources[s];
            assert(sources@[s as int] as int == srcs[s as int]);
            let ghost input = sp[src as int].id@;
            let ghost before = srcs + derived_from(sp, srcs.take(s as int));
            proof {
                lemma_fed_upto_bounds(sp, input, n as int);
            }
            let mut j: usize = 0;
            while j < n
                invariant
                    j <= n,
                    n == sp.len(),
                    sp == specs@,
                    src < n,
                    input == sp[src as int].id@,
                    forall|f: &F, v: V| #[trigger] derive.requires((f, v)),
                    out@.len() == before.len() + fed_upto(sp, input, j as int).len(),
                    forall|k: int| 0 <= k < out@.len() ==> sample_of(#[trigger] out@[k], sp[(before + fed_upto(sp, input, j as int))[k]], *raw),
                    forall|k: int| 0 <= k < srcs.len() ==> #[trigger] out@[k].value == raw.value,
                    srcs.len() <= before.len(),
                    forall|k: int| srcs.len() <= k < out@.len() ==> derive.ensures(
                        (&formula_of(sp[(before + fed_upto(sp, input, j as int))[k]]), raw.value),
                        #[trigger] out@[k].value,
                    ),
                decreases n - j,
            {
                let ghost prev = before + fed_upto(sp, input, j as int);
                if let SignalKind::Derived { input_signal_id, formula } = &specs[j].kind {
                    if *input_signal_id == specs[src].id {
                        let value = derive(formula, raw.value);
                        out.push(SignalSample {
                            signal_id: specs[j].id.clone(),
                            device_id: raw.device_id.clone(),
                            t_sec: raw.t_sec,
                            value,
                            req_id: raw.req_id,
                        });
                        proof {
                            assert(before + fed_upto(sp, input, j + 1) =~= prev.push(j as int));
                        }
                    } else {
                        proof {
                            assert(before + fed_upto(sp, input, j + 1) =~= prev);
                        }
                    }
                } else {
                    proof {
                        assert(before + fed_upto(sp, input, j + 1) =~= prev);
                    }
                }
                j = j + 1;
            }
            proof {
                assert(srcs.take(s + 1).drop_last() =~= srcs.take(s as int));
                assert(srcs.take(s + 1).last() == srcs[s as int]);
                assert(srcs + derived_from(sp, srcs.take(s + 1)) =~= before + fed_upto(sp, input, n as int));
            }
            s = s + 1;
        }
        proof {
            assert(srcs.take(count as int) =~= srcs);
        }
        out
    }
}

/// `sensor_<i>_raw`: the id of a sensor's raw signal.
pub open spec fn raw_signal_id(i: nat) -> Seq<char> {
    "sensor_"@ + dec(i) + "_raw"@
}

/// The display name and unit of a sensor's raw signal: the SENT signals of
/// sensors 0 to 4 by name, any other sensor by number.
pub open spec fn raw_signal_label(i: nat) -> (Seq<char>, Seq<char>) {
    if i == 0 {
        ("sent_t1_angle"@, "deg"@)
    } else if i == 1 {
        ("sent_t1_torque"@, "Nm"@)
    } else if i == 2 {
        ("sent_t2_angle"@, "deg"@)
    } else if i == 3 {
        ("sent_t2_torque"@, "Nm"@)
    } else if i == 4 {
        ("sent_s_angle"@, "deg"@)
    } else {
        ("Sensor "@ + dec(i), "raw"@)
    }
}

/// The names of the four angle signals computed from sensors 0 to 3.
pub open spec fn angle_signal_name(k: nat) -> Seq<char> {
    if k == 0 {
        "sensor_P1_angle"@
    } else if k == 1 {
        "sensor_T1_angle"@
    } else if k == 2 {
        "sensor_P2_angle"@
    } else {
        "sensor_T2_angle"@
    }
}

/// `s` is the default raw signal of sensor `i`.
pub open spec fn is_default_raw_spec<F>(s: SignalSpec<F>, i: nat) -> bool {
    &&& s.id@ == raw_signal_id(i)
    &&& s.name@ == raw_signal_label(i).0
    &&& s.unit@ == raw_signal_label(i).1
    &&& s.decimals == 3
    &&& s.kind matches SignalKind::SourceSensor { sensor_id } && sensor_id == i
}

/// `s` is the default angle signal computed from sensor `k` by `formula`.
pub open spec fn is_default_angle_spec<F>(s: SignalSpec<F>, k: nat, formula: F) -> bool {
    &&& s.id@ == "sensor_"@ + dec(k) + "_angle"@
    &&& s.name@ == angle_signal_name(k)
    &&& s.unit@ == "deg"@
    &&& s.decimals == 3
    &&& s.kind matches SignalKind::Derived { input_signal_id, formula: f } && input_signal_id@
        == raw_signal_id(k) && f == formula
}

fn push_raw_spec<F>(specs: &mut Vec<SignalSpec<F>>, i: usize)
    ensures
        final(specs)@.len() == old(specs)@.len() + 1,
        final(specs)@.drop_last() == old(specs)@,
        is_default_raw_spec(final(specs)@.last(), i as nat),
{
    let mut id = String::new();
    push_str(&mut id, "sensor_");
    push_dec(&mut id, i as u64);
    push_str(&mut id, "_raw");
    let (name, unit) = match i {
        0 => ("sent_t1_angle".to_string(), "deg".to_string()),
        1 => ("sent_t1_torque".to_string(), "Nm".to_string()),
        2 => ("sent_t2_angle".to_string(), "deg".to_string()),
        3 => ("sent_t2_torque".to_string(), "Nm".to_string()),
        4 => ("sent_s_angle".to_string(), "deg".to_string()),
        _ => {
            let mut name = String::new();
            push_str(&mut name, "Sensor ");
            push_dec(&mut name, i as u64);
            (name, "raw".to_string())
        },
    };
    proof {
        reveal_strlit("sensor_");
        reveal_strlit("_raw");
        assert(id@ =~= raw_signal_id(i as nat));
        if i > 4 {
            assert(name@ =~= raw_signal_label(i as nat).0);
        }
    }
    specs.push(SignalSpec { id, name, unit, decimals: 3, kind: SignalKind::SourceSensor { sensor_id: i } });
    proof {
        assert(specs@.drop_last() =~= old(specs)@);
    }
}

fn push_angle_spec<F>(specs: &mut Vec<SignalSpec<F>>, k: usize, name: &str, formula: F)
    requires
        k < 4,
        name@ == angle_signal_name(k as nat),
    ensures
        final(specs)@.len() == old(specs)@.len() + 1,
        final(specs)@.drop_last() == old(specs)@,
        is_default_angle_spec(final(specs)@.last(), k as nat, formula),
{
    let mut id = String::new();
    push_str(&mut id, "sensor_");
    push_dec(&mut id, k as u64);
    push_str(&mut id, "_angle");
    let mut input = String::new();
    push_str(&mut input, "sensor_");
    push_dec(&mut input, k as u64);
    push_str(&mut input, "_raw");
    proof {
        reveal_strlit("sensor_");
        reveal_strlit("_raw");
        reveal_strlit("_angle");
        assert(input@ =~= raw_signal_id(k as nat));
        assert(id@ =~= "sensor_"@ + dec(k as nat) + "_angle"@);
    }
    specs.push(SignalSpec {
        id,
        name: name.to_string(),
        unit: "deg".to_string(),
        decimals: 3,
        kind: SignalKind::Derived { input_signal_id: input, formula },
    });
    proof {
        assert(specs@.drop_last() =~= old(specs)@);
    }
}

/// The viewer's signals: the raw signal of each of `sensor_count` sensors,
/// then the P1, T1, P2 and T2 angles computed from sensors 0 to 3 by the
/// four formulas given, in that order.
pub fn default_signal_specs<F>(sensor_count: usize, angle_formulas: (F, F, F, F)) -> (r: Vec<SignalSpec<F>>)
    ensures
        r@.len() == sensor_count + 4,
        forall|i: int| 0 <= i < sensor_count ==> is_default_raw_spec(#[trigger] r@[i], i as nat),
        is_default_angle_spec(r@[sensor_count as int], 0, angle_formulas.0),
        is_default_angle_spec(r@[sensor_count + 1], 1, angle_formulas.1),
        is_default_angle_spec(r@[sensor_count + 2], 2, angle_formulas.2),
        is_default_angle_spec(r@[sensor_count + 3], 3, angle_formulas.3),
{
    let mut specs: Vec<SignalSpec<F>> = Vec::new();
    let mut i: usize = 0;
    while i < sensor_count
        invariant
            i <= sensor_count,
            specs@.len() == i,
            forall|j: int| 0 <= j < i ==> is_default_raw_spec(#[trigger] specs@[j], j as nat),
        decreases sensor_count - i,
    {
        let ghost before = specs@;
        push_raw_spec(&mut specs, i);
        proof {
            assert forall|j: int| 0 <= j < i + 1 implies is_default_raw_spec(#[trigger] specs@[j], j as nat) by {
                if j < i {
                    assert(specs@[j] == before[j]);
                }
            }
        }
        i = i + 1;
    }
    let ghost raw = specs@;
    let (p1, t1, p2, t2) = angle_formulas;
    proof {
        reveal_strlit("sensor_P1_angle");
        reveal_strlit("sensor_T1_angle");
        reveal_strlit("sensor_P2_angle");
        reveal_strlit("sensor_T2_angle");
    }
    push_angle_spec(&mut specs, 0, "sensor_P1_angle", p1);
    let ghost s0 = specs@;
    push_angle_spec(&mut specs, 1, "sensor_T1_angle", t1);
    let ghost s1 = specs@;
    push_angle_spec(&mut specs, 2, "sensor_P2_angle", p2);
    let ghost s2 = specs@;
    push_angle_spec(&mut specs, 3, "sensor_T2_angle", t2);
    proof {
        assert(specs@.drop_last() == s2);
        assert(s2.drop_last() == s1);
        assert(s1.drop_last() == s0);
        assert(s0.drop_last() == raw);
        assert forall|j: int| 0 <= j < sensor_count implies is_default_raw_spec(#[trigger] specs@[j], j as nat) by {
            assert(specs@[j] == s2[j]);
            assert(s2[j] == s1[j]);
            assert(s1[j] == s0[j]);
            assert(s0[j] == raw[j]);
        }
        assert(specs@[sensor_count as int] == s2[sensor_count as int]);
        assert(s2[sensor_count as int] == s1[sensor_count as int]);
        assert(s1[sensor_count as int] == s0[sensor_count as int]);
        assert(specs@[sensor_count + 1] == s2[sensor_count + 1]);
        assert(s2[sensor_count + 1] == s1[sensor_count + 1]);
        assert(specs@[sensor_count + 2] == s2[sensor_count + 2]);
    }
    specs
}

/// The last `n` elements of `s`, or all of them while fewer.
pub open spec fn last_n<T>(s: Seq<T>, n: nat) -> Seq<T> {
    if s.len() <= n {
        s
    } else {
        s.subrange(s.len() - n, s.len() as int)
    }
}

/// Sensors with a smoothing window: the five SENT signals.
pub const SENT_SMOOTHED_SENSORS: usize = 5;

/// Moving windows of the five SENT signals: each holds the last
/// `window_size` samples of its sensor.
pub struct SentMovingAverage<T> {
    window_size: usize,
    windows: Vec<Vec<T>>,
}

impl<T> SentMovingAverage<T> {
    /// Samples per window.
    pub closed spec fn size(self) -> nat {
        self.window_size as nat
    }

    /// The samples held for `sensor`, oldest first.
    pub closed spec fn window(self, sensor: int) -> Seq<T> {
        self.windows@[sensor]@
    }

    /// The windows of the five sensors.
    pub closed spec fn windows(self) -> Seq<Seq<T>> {
        self.windows@.map_values(|w: Vec<T>| w@)
    }

    pub closed spec fn wf(self) -> bool {
        &&& self.window_size >= 1
        &&& self.windows@.len() == SENT_SMOOTHED_SENSORS
        &&& forall|i: int| 0 <= i < SENT_SMOOTHED_SENSORS ==> #[trigger] self.windows@[i]@.len() <= self.window_size
    }
}

impl<T: Copy> SentMovingAverage<T> {
    /// Empty windows of `window_size` samples, at least one.
    pub fn new(window_size: usize) -> (r: Self)
        ensures
            r.wf(),
            r.size() == if window_size == 0 { 1 } else { window_size },
            forall|i: int| 0 <= i < SENT_SMOOTHED_SENSORS ==> #[trigger] r.window(i) == Seq::<T>::empty(),
    {
        let mut windows: Vec<Vec<T>> = Vec::new();
        let mut i: usize = 0;
        while i < SENT_SMOOTHED_SENSORS
            invariant
                i <= SENT_SMOOTHED_SENSORS,
                windows@.len() == i,
                forall|j: int| 0 <= j < i ==> #[trigger] windows@[j]@ == Seq::<T>::empty(),
            decreases SENT_SMOOTHED_SENSORS - i,
        {
            windows.push(Vec::new());
            i = i + 1;
        }
        SentMovingAverage { window_size: if window_size == 0 { 1 } else { window_size }, windows }
    }

    /// Takes `value` into the window of `sensor_id`, dropping what falls out
    /// of it, and returns the samples now held, oldest first, to average;
    /// `None` for a sensor without a window. Other windows stay as they are.
    pub fn push_sample(&mut self, sensor_id: usize, value: T) -> (r: Option<Vec<T>>)
        requires
            old(self).wf(),
        ensures
            final(self).wf(),
            final(self).size() == old(self).size(),
            sensor_id >= SENT_SMOOTHED_SENSORS ==> r is None,
            forall|i: int| 0 <= i < SENT_SMOOTHED_SENSORS && i != sensor_id ==> #[trigger] final(self).window(i)
                == old(self).window(i),
            sensor_id < SENT_SMOOTHED_SENSORS ==> {
                &&& final(self).window(sensor_id as int) == last_n(
                    old(self).window(sensor_id as int).push(value),
                    old(self).size(),
                )
                &&& r matches Some(v) && v@ == final(self).window(sensor_id as int)
            },
    {
        if sensor_id >= SENT_SMOOTHED_SENSORS {
            return None;
        }
        let size = self.window_size;
        let ghost before = self.windows@[sensor_id as int]@;
        let w = &mut self.windows[sensor_id];
        w.push(value);
        if w.len() > size {
            w.remove(0);
            proof {
                assert(w@ =~= last_n(before.push(value), size as nat));
            }
        } else {
            proof {
                assert(w@ =~= last_n(before.push(value), size as nat));
            }
        }
        Some(copy_of(&self.windows[sensor_id]))
    }
}

/// What a SENT value of a frame becomes: the samples of its window to
/// average, or the value itself when it stays out of the windows.
pub enum SmoothedSent<T> {
    Window(Vec<T>),
    Passed(T),
}

/// The windows after value `v` of sensor `s` arrives; `enters` says whether
/// it may enter a window (the caller lets in only finite values).
pub open spec fn sent_step<T>(ws: Seq<Seq<T>>, size: nat, s: usize, v: T, enters: bool) -> Seq<Seq<T>> {
    if enters && s < SENT_SMOOTHED_SENSORS {
        ws.update(s as int, last_n(ws[s as int].push(v), size))
    } else {
        ws
    }
}

/// The windows after the values of `vals` arrive in order.
pub open spec fn sent_fold<T>(ws: Seq<Seq<T>>, size: nat, vals: Seq<(usize, T, bool)>) -> Seq<Seq<T>>
    decreases vals.len(),
{
    if vals.len() == 0 {
        ws
    } else {
        let p = vals.last();
        sent_step(sent_fold(ws, size, vals.drop_last()), size, p.0, p.1, p.2)
    }
}

impl<T: Copy> SentMovingAverage<T> {
    /// Takes the SENT values of one frame, in order, into the windows of
    /// their sensors; only the signals present in the frame move. Each
    /// entering value of a sensor with a window comes back as that window
    /// right after it arrived; any other value comes back as it is.
    pub fn smooth_frame(&mut self, values: &Vec<(usize, T, bool)>) -> (r: Vec<(usize, SmoothedSent<T>)>)
        requires
            old(self).wf(),
        ensures
            final(self).wf(),
            final(self).size() == old(self).size(),
            final(self).windows() == sent_fold(old(self).windows(), old(self).size(), values@),
            r@.len() == values@.len(),
            forall|k: int| 0 <= k < values@.len() ==> {
                let (s, v, enters) = #[trigger] values@[k];
                &&& r@[k].0 == s
                &&& if enters && s < SENT_SMOOTHED_SENSORS {
                    r@[k].1 matches SmoothedSent::Window(w) && w@ == sent_fold(
                        old(self).windows(),
                        old(self).size(),
                        values@.take(k + 1),
                    )[s as int]
                } else {
                    r@[k].1 == SmoothedSent::Passed(v)
                }
            },
    {
        let ghost start = self.windows();
        let ghost size = self.size();
        let mut out: Vec<(usize, SmoothedSent<T>)> = Vec::new();
        let mut i: usize = 0;
        while i < values.len()
            invariant
                i <= values@.len(),
                self.wf(),
                self.size() == size,
                self.windows() == sent_fold(start, size, values@.take(i as int)),
                out@.len() == i,
                forall|k: int| 0 <= k < i ==> {
                    let (s, v, enters) = #[trigger] values@[k];
                    &&& out@[k].0 == s
                    &&& if enters && s < SENT_SMOOTHED_SENSORS {
                        out@[k].1 matches SmoothedSent::Window(w) && w@ == sent_fold(start, size, values@.take(k + 1))[s as int]
                    } else {
                        out@[k].1 == SmoothedSent::Passed(v)
                    }
                },
            decreases values@.len() - i,
        {
            let (s, v, enters) = values[i];
            let ghost before = self.windows();
            proof {
                assert(values@.take(i + 1).drop_last() =~= values@.take(i as int));
                assert(values@.take(i + 1).last() == values@[i as int]);
            }
            if enters && s < SENT_SMOOTHED_SENSORS {
                let ghost old_self = *self;
                let w = self.push_sample(s, v);
                proof {
                    assert forall|j: int| 0 <= j < before.len() implies #[trigger] self.windows()[j] == sent_step(
                        before,
                        size,
                        s,
                        v,
                        enters,
                    )[j] by {
                        assert(self.windows()[j] == self.window(j));
                        assert(before[j] == old_self.window(j));
                    }
                    assert(self.windows() =~= sent_step(before, size, s, v, enters));
                }
                match w {
                    Some(w) => out.push((s, SmoothedSent::Window(w))),
                    None => out.push((s, SmoothedSent::Passed(v))),
                }
            } else {
                out.push((s, SmoothedSent::Passed(v)));
            }
            i = i + 1;
        }
        proof {
            assert(values@.take(values@.len() as int) =~= values@);
        }
        out
    }
}

fn copy_of<T: Copy>(v: &Vec<T>) -> (r: Vec<T>)
    ensures
        r@ == v@,
{
    let mut out: Vec<T> = Vec::new();
    let mut i: usize = 0;
    while i < v.len()
        invariant
            i <= v@.len(),
            out@ == v@.take(i as int),
        decreases v@.len() - i,
    {
        out.push(v[i]);
        i = i + 1;
        assert(out@ =~= v@.take(i as int));
    }
    assert(v@.take(v@.len() as int) =~= v@);
    out
}

/// Whether the smoothed value of a sensor is an average on the circle: the
/// angles of sensors 0, 2 and 4.
pub fn averages_on_circle(sensor_id: usize) -> (r: bool)
    ensures
        r == (sensor_id == 0 || sensor_id == 2 || sensor_id == 4),
{
    sensor_id == 0 || sensor_id == 2 || sensor_id == 4
}

fn same_text(a: &String, b: &str) -> (r: bool)
    ensures
        r == (a@ == b@),
{
    let v = crate::text::chars_of(a.as_str());
    let r = crate::text::chars_eq(&v, 0, v.len(), b);
    assert(v@.subrange(0, v@.len() as int) =~= a@);
    r
}

} // verus!
