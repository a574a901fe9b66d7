//! Collector settings: defaults, environment overrides and the CAN channel
//! list the collector opens.
use vstd::prelude::*;
use crate::can::{
    CanChannelConfig, CanSignalWatchdogTarget, channel_label, HW_SUBTYPE_TC1012, HW_SUBTYPE_TC1016,
};
use crate::text::{
    chars_of, eq_ignore_ascii_case, eq_ignore_case, hex, parse_i64, parse_i64_spec, parse_unsigned,
    parse_unsigned_spec, push_dec, push_hex, push_str, split, split_ranges, trim, trim_bounds,
};

verus! {

/// Default Butterworth order of the database filter.
pub const DEFAULT_DB_FILTER_ORDER: usize = 10;

/// Default SENT moving-average window.
pub const DEFAULT_SENT_FILTER_WINDOW: usize = 10;

/// Default CAN signal watchdog timeout, in milliseconds.
pub const DEFAULT_CAN_SIGNAL_TIMEOUT_MS: u64 = 2000;

pub fn default_db_filter_enabled() -> (r: bool)
    ensures
        !r,
{
    false
}

pub fn default_db_filter_order() -> (r: usize)
    ensures
        r == DEFAULT_DB_FILTER_ORDER,
{
    DEFAULT_DB_FILTER_ORDER
}

pub fn default_sent_filter_enabled() -> (r: bool)
    ensures
        r,
{
    true
}

pub fn default_sent_filter_window() -> (r: usize)
    ensures
        r == DEFAULT_SENT_FILTER_WINDOW,
{
    DEFAULT_SENT_FILTER_WINDOW
}

pub fn default_can_autostart_tsmaster() -> (r: bool)
    ensures
        r,
{
    true
}

pub fn default_can_hardware_subtype() -> (r: Option<i32>)
    ensures
        r == Some(HW_SUBTYPE_TC1016),
{
    Some(HW_SUBTYPE_TC1016)
}

pub fn default_can_signal_watchdog_enabled() -> (r: bool)
    ensures
        r,
{
    true
}

pub fn default_can_signal_timeout_ms() -> (r: u64)
    ensures
        r == DEFAULT_CAN_SIGNAL_TIMEOUT_MS,
{
    DEFAULT_CAN_SIGNAL_TIMEOUT_MS
}

/// One entry of the configured CAN channel list: a bare channel index, or
/// an index with its own bit rates.
#[derive(Debug)]
pub enum CollectorCanChannelConfig {
    Index(u8),
    Detailed(CollectorCanChannelDetail),
}

/// A configured channel with optional bit rates (kbit/s).
#[derive(Debug)]
pub struct CollectorCanChannelDetail {
    pub index: u8,
    pub baud_kbps: Option<u32>,
    pub data_baud_kbps: Option<u32>,
}

/// A configured signal watchdog: a channel, optionally a CAN id, and an
/// optional label.
#[derive(Debug)]
pub struct CollectorCanSignalWatchdogConfig {
    pub channel: u8,
    pub can_id: Option<u32>,
    pub label: Option<String>,
}

// ---------------------------------------------------------------------------
// Flags and numbers from the environment
// ---------------------------------------------------------------------------
/// A boolean setting: `1`/`true`/`yes`/`on` or `0`/`false`/`no`/`off`,
/// ignoring surrounding whitespace and ASCII case.
pub open spec fn spec_flag_value(text: Seq<char>) -> Option<bool> {
    let t = trim(text);
    if eq_ignore_ascii_case(t, "1"@) || eq_ignore_ascii_case(t, "true"@) || eq_ignore_ascii_case(
        t,
        "yes"@,
    ) || eq_ignore_ascii_case(t, "on"@) {
        Some(true)
    } else if eq_ignore_ascii_case(t, "0"@) || eq_ignore_ascii_case(t, "false"@)
        || eq_ignore_ascii_case(t, "no"@) || eq_ignore_ascii_case(t, "off"@) {
        Some(false)
    } else {
        None
    }
}

/// Reads a boolean setting (the value of an environment variable).
pub fn flag_value(text: &str) -> (r: Option<bool>)
    ensures
        r == spec_flag_value(text@),
{
    let v = chars_of(text);
    let (lo, hi) = trim_bounds(&v, 0, v.len());
    proof {
        assert(v@.subrange(0, v@.len() as int) =~= text@);
    }
    if eq_ignore_case(&v, lo, hi, "1") || eq_ignore_case(&v, lo, hi, "true") || eq_ignore_case(
        &v,
        lo,
        hi,
        "yes",
    ) || eq_ignore_case(&v, lo, hi, "on") {
        Some(true)
    } else if eq_ignore_case(&v, lo, hi, "0") || eq_ignore_case(&v, lo, hi, "false")
        || eq_ignore_case(&v, lo, hi, "no") || eq_ignore_case(&v, lo, hi, "off") {
        Some(false)
    } else {
        None
    }
}

/// `str::parse::<u32>` of optional text.
pub open spec fn parsed_u32(text: Option<Seq<char>>) -> Option<u32> {
    match text {
        Some(t) => match parse_unsigned_spec(t, u32::MAX as nat) {
            Some(v) => Some(v as u32),
            None => None,
        },
        None => None,
    }
}

/// `str::parse::<u8>` of optional text.
pub open spec fn parsed_u8(text: Option<Seq<char>>) -> Option<u8> {
    match text {
        Some(t) => match parse_unsigned_spec(t, u8::MAX as nat) {
            Some(v) => Some(v as u8),
            None => None,
        },
        None => None,
    }
}

/// `str::parse::<u64>` of optional text.
pub open spec fn parsed_u64(text: Option<Seq<char>>) -> Option<u64> {
    match text {
        Some(t) => match parse_unsigned_spec(t, u64::MAX as nat) {
            Some(v) => Some(v as u64),
            None => None,
        },
        None => None,
    }
}

/// `str::parse::<i32>` of optional text.
pub open spec fn parsed_i32(text: Option<Seq<char>>) -> Option<i32> {
    match text {
        Some(t) => match parse_i64_spec(t) {
            Some(v) => if i32::MIN <= v <= i32::MAX {
                Some(v as i32)
            } else {
                None
            },
            None => None,
        },
        None => None,
    }
}

pub open spec fn text_view(text: Option<String>) -> Option<Seq<char>> {
    match text {
        Some(s) => Some(s@),
        None => None,
    }
}

fn parse_u32_text(text: &Option<String>) -> (r: Option<u32>)
    ensures
        r == parsed_u32(text_view(*text)),
{
    match text {
        Some(s) => {
            let v = chars_of(s.as_str());
            proof {
                assert(v@.subrange(0, v@.len() as int) =~= s@);
            }
            match parse_unsigned(&v, 0, v.len(), 0xffff_ffff) {
                Some(x) => Some(x as u32),
                None => None,
            }
        },
        None => None,
    }
}

fn parse_u8_text(text: &Option<String>) -> (r: Option<u8>)
    ensures
        r == parsed_u8(text_view(*text)),
{
    match text {
        Some(s) => {
            let v = chars_of(s.as_str());
            proof {
                assert(v@.subrange(0, v@.len() as int) =~= s@);
            }
            match parse_unsigned(&v, 0, v.len(), 0xff) {
                Some(x) => Some(x as u8),
                None => None,
            }
        },
        None => None,
    }
}

/// `str::parse::<u64>` of an optional setting.
pub fn parse_u64_text(text: &Option<String>) -> (r: Option<u64>)
    ensures
        r == parsed_u64(text_view(*text)),
{
    match text {
        Some(s) => {
            let v = chars_of(s.as_str());
            proof {
                assert(v@.subrange(0, v@.len() as int) =~= s@);
            }
            parse_unsigned(&v, 0, v.len(), 0xffff_ffff_ffff_ffff)
        },
        None => None,
    }
}

/// `str::parse::<i32>` of an optional setting.
pub fn parse_i32_text(text: &Option<String>) -> (r: Option<i32>)
    ensures
        r == parsed_i32(text_view(*text)),
{
    match text {
        Some(s) => {
            let v = chars_of(s.as_str());
            proof {
                assert(v@.subrange(0, v@.len() as int) =~= s@);
            }
            match parse_i64(&v, 0, v.len()) {
                Some(x) => if -2147483648 <= x && x <= 2147483647 {
                    Some(x as i32)
                } else {
                    None
                },
                None => None,
            }
        },
        None => None,
    }
}

// ---------------------------------------------------------------------------
// Channel list
// ---------------------------------------------------------------------------
/// The channel indices of comma-separated pieces, skipping blank pieces;
/// `None` when a non-blank piece is not a `u8`.
pub open spec fn channel_items(pieces: Seq<Seq<char>>) -> Option<Seq<u8>>
    decreases pieces.len(),
{
    if pieces.len() == 0 {
        Some(Seq::empty())
    } else {
        match channel_items(pieces.drop_last()) {
            Some(prev) => {
                let t = trim(pieces.last());
                if t.len() == 0 {
                    Some(prev)
                } else {
                    match parse_unsigned_spec(t, 255) {
                        Some(v) => Some(prev.push(v as u8)),
                        None => None,
                    }
                }
            },
            None => None,
        }
    }
}

/// A comma-separated channel list: `None` when an item is not a channel
/// index or when no item is given.
pub open spec fn spec_parse_can_channel_list(value: Seq<char>) -> Option<Seq<u8>> {
    match channel_items(split(value, ',')) {
        Some(cs) => if cs.len() == 0 {
            None
        } else {
            Some(cs)
        },
        None => None,
    }
}

proof fn lemma_channel_items_none(pieces: Seq<Seq<char>>, j: int, k: int)
    requires
        0 <= j <= k <= pieces.len(),
        channel_items(pieces.take(j)) is None,
    ensures
        channel_items(pieces.take(k)) is None,
    decreases k - j,
{
    if k > j {
        lemma_channel_items_none(pieces, j, k - 1);
        assert(pieces.take(k).drop_last() =~= pieces.take(k - 1));
    }
}

pub fn parse_can_channel_list(value: &str) -> (r: Option<Vec<u8>>)
    ensures
        match r {
            Some(v) => spec_parse_can_channel_list(value@) == Some(v@),
            None => spec_parse_can_channel_list(value@) is None,
        },
{
    let v = chars_of(value);
    let ranges = split_ranges(&v, 0, v.len(), ',');
    let ghost pieces = split(value@, ',');
    proof {
        assert(v@.subrange(0, v@.len() as int) =~= value@);
        assert(pieces.take(0) =~= Seq::<Seq<char>>::empty());
    }
    let mut channels: Vec<u8> = Vec::new();
    let mut j: usize = 0;
    while j < ranges.len()
        invariant
            v@ == value@,
            pieces == split(value@, ','),
            ranges@.len() == pieces.len(),
            forall|q: int|
                0 <= q < ranges@.len() ==> {
                    &&& 0 <= (#[trigger] ranges@[q]).0 <= ranges@[q].1 <= v@.len()
                    &&& v@.subrange(ranges@[q].0 as int, ranges@[q].1 as int) == pieces[q]
                },
            j <= ranges@.len(),
            channel_items(pieces.take(j as int)) == Some(channels@),
        decreases ranges@.len() - j,
    {
        let (a, b) = ranges[j];
        let (lo, hi) = trim_bounds(&v, a, b);
        proof {
            assert(pieces.take(j + 1).drop_last() =~= pieces.take(j as int));
            assert(pieces.take(j + 1).last() == pieces[j as int]);
        }
        if lo < hi {
            match parse_unsigned(&v, lo, hi, 255) {
                Some(x) => {
                    channels.push(x as u8);
                },
                None => {
                    proof {
                        lemma_channel_items_none(pieces, j + 1, pieces.len() as int);
                        assert(pieces.take(pieces.len() as int) =~= pieces);
                    }
                    return None;
                },
            }
        }
        j = j + 1;
    }
    proof {
        assert(pieces.take(pieces.len() as int) =~= pieces);
    }
    if channels.len() == 0 {
        None
    } else {
        Some(channels)
    }
}

/// The environment settings that override the configured channels; each is
/// the raw text of its variable, `None` when unset.
#[derive(Debug)]
pub struct CanChannelEnv {
    /// `DEMO2_COLLECTOR_CAN_CHANNELS`
    pub channels: Option<String>,
    /// `DEMO2_COLLECTOR_CAN_CHANNEL`
    pub channel: Option<String>,
    /// `DEMO2_COLLECTOR_CAN_BAUD_KBPS`
    pub baud_kbps: Option<String>,
    /// `DEMO2_COLLECTOR_CAN_DATA_BAUD_KBPS`
    pub data_baud_kbps: Option<String>,
}

pub open spec fn or_else<T>(a: Option<T>, b: Option<T>) -> Option<T> {
    match a {
        Some(x) => Some(x),
        None => b,
    }
}

pub open spec fn unwrap_or<T>(a: Option<T>, d: T) -> T {
    match a {
        Some(x) => x,
        None => d,
    }
}

pub open spec fn channel_at(index: u8, arbitration: u32, data: u32) -> CanChannelConfig {
    CanChannelConfig { index, arbitration_baud_kbps: arbitration, data_baud_kbps: data }
}

/// The configured channel entry `c` with the environment bit rates `eb`/`ed`
/// and the configured defaults `baud`/`data`.
pub open spec fn configured_channel(
    c: CollectorCanChannelConfig,
    eb: Option<u32>,
    ed: Option<u32>,
    baud: u32,
    data: u32,
) -> CanChannelConfig {
    match c {
        CollectorCanChannelConfig::Index(index) => channel_at(
            index,
            unwrap_or(eb, baud),
            unwrap_or(ed, data),
        ),
        CollectorCanChannelConfig::Detailed(d) => channel_at(
            d.index,
            unwrap_or(or_else(eb, d.baud_kbps), baud),
            unwrap_or(or_else(ed, d.data_baud_kbps), data),
        ),
    }
}

/// The channels the collector opens: a channel list from the environment
/// first, then a single channel from the environment, then the configured
/// list, and the configured single channel when that list is empty. Bit
/// rates from the environment win over configured ones.
pub open spec fn spec_collector_can_channels(
    env: CanChannelEnv,
    can_channel: u8,
    can_baud_kbps: u32,
    can_data_baud_kbps: u32,
    can_channels: Seq<CollectorCanChannelConfig>,
) -> Seq<CanChannelConfig> {
    let eb = parsed_u32(text_view(env.baud_kbps));
    let ed = parsed_u32(text_view(env.data_baud_kbps));
    let db = unwrap_or(eb, can_baud_kbps);
    let dd = unwrap_or(ed, can_data_baud_kbps);
    let list = match text_view(env.channels) {
        Some(t) => spec_parse_can_channel_list(t),
        None => None,
    };
    match list {
        Some(indices) => indices.map_values(|index: u8| channel_at(index, db, dd)),
        None => match parsed_u8(text_view(env.channel)) {
            Some(index) => seq![channel_at(index, db, dd)],
            None => if can_channels.len() == 0 {
                seq![channel_at(can_channel, db, dd)]
            } else {
                can_channels.map_values(
                    |c: CollectorCanChannelConfig|
                        configured_channel(c, eb, ed, can_baud_kbps, can_data_baud_kbps),
                )
            },
        },
    }
}

pub fn collector_can_channels(
    env: &CanChannelEnv,
    can_channel: u8,
    can_baud_kbps: u32,
    can_data_baud_kbps: u32,
    can_channels: &[CollectorCanChannelConfig],
) -> (r: Vec<CanChannelConfig>)
    ensures
        r@ == spec_collector_can_channels(
            *env,
            can_channel,
            can_baud_kbps,
            can_data_baud_kbps,
            can_channels@,
        ),
{
    let eb = parse_u32_text(&env.baud_kbps);
    let ed = parse_u32_text(&env.data_baud_kbps);
    let db = match eb {
        Some(x) => x,
        None => can_baud_kbps,
    };
    let dd = match ed {
        Some(x) => x,
        None => can_data_baud_kbps,
    };
    let list = match &env.channels {
        Some(t) => parse_can_channel_list(t.as_str()),
        None => None,
    };
    let mut r: Vec<CanChannelConfig> = Vec::new();
    match list {
        Some(indices) => {
            let mut i: usize = 0;
            while i < indices.len()
                invariant
                    i <= indices@.len(),
                    r@ =~= indices@.take(i as int).map_values(|index: u8| channel_at(index, db, dd)),
                decreases indices@.len() - i,
            {
                r.push(channel_at_exec(indices[i], db, dd));
                i = i + 1;
            }
            assert(indices@.take(indices@.len() as int) =~= indices@);
            return r;
        },
        None => {},
    }
    match parse_u8_text(&env.channel) {
        Some(index) => {
            r.push(channel_at_exec(index, db, dd));
            assert(r@ =~= seq![channel_at(index, db, dd)]);
            return r;
        },
        None => {},
    }
    if can_channels.len() == 0 {
        r.push(channel_at_exec(can_channel, db, dd));
        assert(r@ =~= seq![channel_at(can_channel, db, dd)]);
        return r;
    }
    let mut i: usize = 0;
    while i < can_channels.len()
        invariant
            i <= can_channels@.len(),
            db == unwrap_or(eb, can_baud_kbps),
            dd == unwrap_or(ed, can_data_baud_kbps),
            r@ =~= can_channels@.take(i as int).map_values(
                |c: CollectorCanChannelConfig|
                    configured_channel(c, eb, ed, can_baud_kbps, can_data_baud_kbps),
            ),
        decreases can_channels@.len() - i,
    {
        let c = match &can_channels[i] {
            CollectorCanChannelConfig::Index(index) => channel_at_exec(*index, db, dd),
            CollectorCanChannelConfig::Detailed(d) => {
                let b = match eb {
                    Some(x) => x,
                    None => match d.baud_kbps {
                        Some(x) => x,
                        None => can_baud_kbps,
                    },
                };
                let e = match ed {
                    Some(x) => x,
                    None => match d.data_baud_kbps {
                        Some(x) => x,
                        None => can_data_baud_kbps,
                    },
                };
                channel_at_exec(d.index, b, e)
            },
        };
        assert(c == configured_channel(can_channels@[i as int], eb, ed, can_baud_kbps, can_data_baud_kbps));
        r.push(c);
        i = i + 1;
    }
    assert(can_channels@.take(can_channels@.len() as int) =~= can_channels@);
    r
}

fn channel_at_exec(index: u8, arbitration: u32, data: u32) -> (r: CanChannelConfig)
    ensures
        r == channel_at(index, arbitration, data),
{
    CanChannelConfig { index, arbitration_baud_kbps: arbitration, data_baud_kbps: data }
}

// ---------------------------------------------------------------------------
// CAN adapter and watchdog settings
// ---------------------------------------------------------------------------
/// The adapter subtype: from the environment when it parses; else the
/// configured one unless the hardware name came from the environment; else
/// the subtype that the hardware name implies (TC1016 by default).
pub open spec fn spec_hardware_subtype(
    env_subtype: Option<Seq<char>>,
    env_name_set: bool,
    configured: Option<i32>,
    hardware_name: Seq<char>,
) -> i32 {
    match parsed_i32(env_subtype) {
        Some(s) => s,
        None => match (if env_name_set {
            None
        } else {
            configured
        }) {
            Some(s) => s,
            None => if eq_ignore_ascii_case(trim(hardware_name), "TC1012"@) {
                HW_SUBTYPE_TC1012
            } else {
                HW_SUBTYPE_TC1016
            },
        },
    }
}

pub fn hardware_subtype(
    env_subtype: &Option<String>,
    env_name_set: bool,
    configured: Option<i32>,
    hardware_name: &str,
) -> (r: i32)
    ensures
        r == spec_hardware_subtype(text_view(*env_subtype), env_name_set, configured, hardware_name@),
{
    match parse_i32_text(env_subtype) {
        Some(s) => return s,
        None => {},
    }
    if !env_name_set {
        match configured {
            Some(s) => return s,
            None => {},
        }
    }
    let v = chars_of(hardware_name);
    let (lo, hi) = trim_bounds(&v, 0, v.len());
    proof {
        assert(v@.subrange(0, v@.len() as int) =~= hardware_name@);
    }
    if eq_ignore_case(&v, lo, hi, "TC1012") {
        HW_SUBTYPE_TC1012
    } else {
        HW_SUBTYPE_TC1016
    }
}

/// The label a configured watchdog gets when it has none.
pub open spec fn default_target_label(channel: u8, can_id: Option<u32>) -> Seq<char> {
    match can_id {
        Some(id) => "CAN 0x"@ + hex(id as nat),
        None => channel_label(channel),
    }
}

/// The configured watchdogs as targets, in order, each labelled by its own
/// label or else by its CAN id or channel.
pub fn watchdog_targets(configured: &[CollectorCanSignalWatchdogConfig]) -> (r: Vec<CanSignalWatchdogTarget>)
    ensures
        r@.len() == configured@.len(),
        forall|i: int|
            0 <= i < r@.len() ==> {
                let t = #[trigger] r@[i];
                let c = configured@[i];
                &&& t.channel == c.channel
                &&& t.identifier == c.can_id
                &&& t.label@ == match c.label {
                    Some(l) => l@,
                    None => default_target_label(c.channel, c.can_id),
                }
            },
{
    let mut r: Vec<CanSignalWatchdogTarget> = Vec::new();
    let mut i: usize = 0;
    while i < configured.len()
        invariant
            i <= configured@.len(),
            r@.len() == i,
            forall|k: int|
                0 <= k < i ==> {
                    let t = #[trigger] r@[k];
                    let c = configured@[k];
                    &&& t.channel == c.channel
                    &&& t.identifier == c.can_id
                    &&& t.label@ == match c.label {
                        Some(l) => l@,
                        None => default_target_label(c.channel, c.can_id),
                    }
                },
        decreases configured@.len() - i,
    {
        let c = &configured[i];
        let label = match &c.label {
            Some(l) => l.clone(),
            None => {
                let mut l = String::new();
                match c.can_id {
                    Some(id) => {
                        push_str(&mut l, "CAN 0x");
                        push_hex(&mut l, id as u64);
                    },
                    None => {
                        push_str(&mut l, "Channel ");
                        push_dec(&mut l, c.channel as u64);
                        push_str(&mut l, " signal");
                    },
                }
                assert(l@ =~= default_target_label(c.channel, c.can_id));
                l
            },
        };
        r.push(CanSignalWatchdogTarget { channel: c.channel, identifier: c.can_id, label });
        i = i + 1;
    }
    r
}

/// A positive setting: the environment value when it parses, else the
/// configured one, and at least 1.
pub open spec fn spec_at_least_one(env: Option<nat>, configured: nat) -> nat {
    let v = unwrap_or(env, configured);
    if v < 1 {
        1
    } else {
        v
    }
}

/// The signal watchdog timeout in milliseconds (`DEMO2_CAN_SIGNAL_TIMEOUT_MS`
/// over the configured value).
pub fn signal_timeout_ms(env: &Option<String>, configured: u64) -> (r: u64)
    ensures
        r == spec_at_least_one(
            match text_view(*env) {
                Some(t) => parse_unsigned_spec(t, u64::MAX as nat),
                None => None,
            },
            configured as nat,
        ),
{
    let v = match parse_u64_text(env) {
        Some(x) => x,
        None => configured,
    };
    if v < 1 {
        1
    } else {
        v
    }
}

/// The SENT moving-average window (`DEMO2_SENT_FILTER_WINDOW` over the
/// configured value).
pub fn sent_filter_window(env: &Option<String>, configured: usize) -> (r: usize)
    ensures
        r == spec_at_least_one(
            match text_view(*env) {
                Some(t) => parse_unsigned_spec(t, usize::MAX as nat),
                None => None,
            },
            configured as nat,
        ),
{
    let parsed = match env {
        Some(s) => {
            let v = chars_of(s.as_str());
            proof {
                assert(v@.subrange(0, v@.len() as int) =~= s@);
            }
            parse_unsigned(&v, 0, v.len(), usize::MAX as u64)
        },
        None => None,
    };
    let v = match parsed {
        Some(x) => x as usize,
        None => configured,
    };
    if v < 1 {
        1
    } else {
        v
    }
}

// ---------------------------------------------------------------------------
// Viewer settings
// ---------------------------------------------------------------------------
/// Collector feed address the viewer connects to by default.
pub fn default_feed_addr() -> (r: &'static str)
    ensures
        r@ == "127.0.0.1:19011"@,
{
    "127.0.0.1:19011"
}

/// Collector control address the viewer sends commands to by default.
pub fn default_control_addr() -> (r: &'static str)
    ensures
        r@ == "127.0.0.1:19013"@,
{
    "127.0.0.1:19013"
}

/// Database the viewer reads history from by default.
pub fn default_pg_dsn() -> (r: &'static str)
    ensures
        r@ == "host=127.0.0.1 port=5432 user=postgres password=123456 dbname=demo2"@,
{
    "host=127.0.0.1 port=5432 user=postgres password=123456 dbname=demo2"
}

/// Text that is not blank.
pub open spec fn filled(t: Option<Seq<char>>) -> bool {
    t matches Some(s) && trim(s).len() != 0
}

/// A viewer setting: the environment's value when it is not blank, else
/// the configuration file's when it is not blank, else the default.
pub open spec fn spec_resolve_setting(env: Option<Seq<char>>, file: Option<Seq<char>>, default: Seq<char>) -> Seq<
    char,
> {
    if filled(env) {
        env->0
    } else if filled(file) {
        file->0
    } else {
        default
    }
}

fn is_filled(t: &Option<String>) -> (r: bool)
    ensures
        r == filled(match t {
            Some(s) => Some(s@),
            None => None,
        }),
{
    match t {
        Some(s) => {
            let v = chars_of(s.as_str());
            let (lo, hi) = trim_bounds(&v, 0, v.len());
            assert(v@.subrange(0, v@.len() as int) =~= s@);
            lo < hi
        },
        None => false,
    }
}

/// Picks a viewer setting from the environment, the configuration file and
/// the default.
pub fn resolve_setting(env: Option<String>, file: Option<String>, default: &str) -> (r: String)
    ensures
        r@ == spec_resolve_setting(
            match env {
                Some(s) => Some(s@),
                None => None,
            },
            match file {
                Some(s) => Some(s@),
                None => None,
            },
            default@,
        ),
{
    if is_filled(&env) {
        match env {
            Some(s) => s,
            None => String::new(),
        }
    } else if is_filled(&file) {
        match file {
            Some(s) => s,
            None => String::new(),
        }
    } else {
        String::from_str(default)
    }
}

/// The text of a configuration file without a leading byte-order mark.
pub open spec fn spec_strip_bom(text: Seq<char>) -> Seq<char> {
    if text.len() > 0 && text[0] == '\u{feff}' {
        text.skip(1)
    } else {
        text
    }
}

/// Drops a leading byte-order mark, which some editors write in front of
/// the configuration file.
pub fn strip_bom(text: &str) -> (r: String)
    ensures
        r@ == spec_strip_bom(text@),
{
    let v = chars_of(text);
    if v.len() > 0 && v[0] == '\u{feff}' {
        let r = crate::text::string_of(&v, 1, v.len());
        assert(v@.subrange(1, v@.len() as int) =~= text@.skip(1));
        r
    } else {
        String::from_str(text)
    }
}

/// Whether persistence is switched off: `DEMO2_DISABLE_DB` set to `1` or,
/// in any case, `true`.
pub open spec fn spec_db_disabled(value: Option<Seq<char>>) -> bool {
    match value {
        Some(v) => v == "1"@ || eq_ignore_ascii_case(v, "true"@),
        None => false,
    }
}

/// Reads the switch that turns persistence off.
pub fn db_disabled(value: Option<String>) -> (r: bool)
    ensures
        r == spec_db_disabled(
            match value {
                Some(s) => Some(s@),
                None => None,
            },
        ),
{
    match value {
        Some(s) => {
            let v = chars_of(s.as_str());
            assert(v@.subrange(0, v@.len() as int) =~= s@);
            crate::text::chars_eq(&v, 0, v.len(), "1") || eq_ignore_case(&v, 0, v.len(), "true")
        },
        None => false,
    }
}

/// Why a Butterworth filter of some order cannot be built from second-order
/// sections.
#[derive(Clone, Copy, Debug, PartialEq, Eq, Structural)]
pub enum FilterOrderError {
    TooLow,
    Odd,
}

impl FilterOrderError {
    pub fn message(self) -> (r: &'static str)
        ensures
            self == FilterOrderError::TooLow ==> r@ == "filter order must be at least 2"@,
            self == FilterOrderError::Odd ==> r@
                == "filter order must be even for cascaded Butterworth sections"@,
    {
        match self {
            FilterOrderError::TooLow => "filter order must be at least 2",
            FilterOrderError::Odd => "filter order must be even for cascaded Butterworth sections",
        }
    }
}

/// The number of second-order sections of a Butterworth filter of `order`:
/// half the order, which must be even and at least 2.
pub fn butterworth_sections(order: usize) -> (r: Result<usize, FilterOrderError>)
    ensures
        order < 2 <==> r == Err::<usize, FilterOrderError>(FilterOrderError::TooLow),
        (order >= 2 && order % 2 == 1) <==> r == Err::<usize, FilterOrderError>(FilterOrderError::Odd),
        (order >= 2 && order % 2 == 0) <==> r == Ok::<usize, FilterOrderError>(order / 2),
{
    if order < 2 {
        Err(FilterOrderError::TooLow)
    } else if order % 2 != 0 {
        Err(FilterOrderError::Odd)
    } else {
        Ok(order / 2)
    }
}

} // verus!
