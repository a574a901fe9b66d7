//! CAN ingress: adapter configuration, the candidates probed when opening an
//! adapter, device ids and log text, and the signal watchdogs that raise an
//! alarm when a channel goes quiet.
use vstd::prelude::*;
use crate::alarm::{AlarmEvent, AlarmLevel};
use crate::text::{
    ascii_lower, eq_ignore_ascii_case, eq_ignore_case, chars_of, dec, hex, push_dec, push_hex, push_pad_hex, push_signed_dec, push_str, signed_dec, string_of,
    trim, trim_bounds, zero_pad,
};
use std::time::SystemTime;

verus! {

/// TSMaster device subtype of the TC1016 adapter.
pub const HW_SUBTYPE_TC1016: i32 = 11;

/// TSMaster device subtype of the TC1012 adapter.
pub const HW_SUBTYPE_TC1012: i32 = 12;

/// Bit rates of one CAN channel.
#[derive(Clone, Copy, Debug, PartialEq, Eq, Structural)]
pub struct CanChannelConfig {
    pub index: u8,
    pub arbitration_baud_kbps: u32,
    pub data_baud_kbps: u32,
}

/// How to open a CAN adapter.
#[derive(Debug)]
pub struct CanTransportConfig {
    pub tsmaster_bin: Option<String>,
    pub autostart_tsmaster: bool,
    pub hardware_name: String,
    pub hardware_subtype: i32,
    pub channels: Vec<CanChannelConfig>,
}

/// The sending half of tokio's unbounded channel, carried through opaque.
#[verifier::external_type_specification]
#[verifier::external_body]
#[verifier::reject_recursive_types(T)]
pub struct ExUnboundedSender<T>(tokio::sync::mpsc::UnboundedSender<T>);

/// The CAN ingress's transmit queue: the sending half of its channel, and
/// the frames handed to it through this handle so far, in order.
pub struct CanTxQueue {
    sender: tokio::sync::mpsc::UnboundedSender<CanTxFrame>,
    handed: Ghost<Seq<CanTxFrame>>,
}

impl CanTxQueue {
    /// The frames queued through this handle, oldest first.
    pub closed spec fn queued(self) -> Seq<CanTxFrame> {
        self.handed@
    }

    pub closed spec fn spec_sender(self) -> tokio::sync::mpsc::UnboundedSender<CanTxFrame> {
        self.sender
    }

    /// A handle on `sender` that has queued nothing yet.
    pub fn new(sender: tokio::sync::mpsc::UnboundedSender<CanTxFrame>) -> (r: Self)
        ensures
            r.queued() == Seq::<CanTxFrame>::empty(),
            r.spec_sender() == sender,
    {
        CanTxQueue { sender, handed: Ghost(Seq::empty()) }
    }
}

/// `UnboundedSender::send`: hands `frame` to the channel unless its
/// receiving half is closed; the same sender stays. `Ok` means the frame
/// was queued, so it joins what this handle has queued; an error queues
/// nothing and is tokio's `SendError`, whose text is `channel closed`.
/// Whether the receiving half is closed depends on the other task, so which
/// of the two comes is not stated.
#[verifier::external_body]
fn send_tx_frame(queue: &mut CanTxQueue, frame: CanTxFrame) -> (r: Result<(), String>)
    ensures
        final(queue).spec_sender() == old(queue).spec_sender(),
        r is Ok ==> final(queue).queued() == old(queue).queued().push(frame),
        r matches Err(m) ==> m@ == "channel closed"@ && final(queue).queued() == old(queue).queued(),
{
    match queue.sender.send(frame) {
        Ok(()) => Ok(()),
        Err(err) => Err(format!("{err}")),
    }
}

/// Queues a frame for the CAN ingress to transmit: an error when the
/// ingress has not installed its queue, or when the queue is closed. On
/// success the frame, unchanged, has joined the queue; on an error nothing
/// was queued.
pub fn enqueue_can_tx(queue: &mut Option<CanTxQueue>, frame: CanTxFrame) -> (r: Result<(), String>)
    ensures
        *old(queue) is None ==> (*final(queue) is None && (r matches Err(m) && m@ == "collector CAN channel not ready"@)),
        *old(queue) matches Some(q) ==> (*final(queue) matches Some(f) && f.spec_sender() == q.spec_sender() && (
            match r {
                Ok(()) => f.queued() == q.queued().push(frame),
                Err(m) => m@ == "collector CAN TX enqueue failed: "@ + "channel closed"@ && f.queued() == q.queued(),
            })),
{
    match queue {
        None => Err(String::from_str("collector CAN channel not ready")),
        Some(q) => match send_tx_frame(q, frame) {
            Ok(()) => Ok(()),
            Err(e) => {
                let mut m = String::from_str("collector CAN TX enqueue failed: ");
                push_str(&mut m, e.as_str());
                Err(m)
            },
        },
    }
}

/// The channel list used when none is configured: channel 0 at 500/2000 kbps.
pub open spec fn default_channels() -> Seq<CanChannelConfig> {
    seq![CanChannelConfig { index: 0, arbitration_baud_kbps: 500, data_baud_kbps: 2000 }]
}

fn default_channel_list() -> (r: Vec<CanChannelConfig>)
    ensures
        r@ == default_channels(),
{
    let mut r = Vec::new();
    r.push(CanChannelConfig { index: 0, arbitration_baud_kbps: 500, data_baud_kbps: 2000 });
    assert(r@ =~= default_channels());
    r
}

impl CanTransportConfig {
    /// A TC1016 on channel 0, TSMaster started on demand.
    pub fn default() -> (r: Self)
        ensures
            r.tsmaster_bin is None,
            r.autostart_tsmaster,
            r.hardware_name@ == "TC1016"@,
            r.hardware_subtype == HW_SUBTYPE_TC1016,
            r.channels@ == default_channels(),
    {
        CanTransportConfig {
            tsmaster_bin: None,
            autostart_tsmaster: true,
            hardware_name: String::from_str("TC1016"),
            hardware_subtype: HW_SUBTYPE_TC1016,
            channels: default_channel_list(),
        }
    }
}

impl Clone for CanTransportConfig {
    fn clone(&self) -> (r: Self)
        ensures
            r.tsmaster_bin == self.tsmaster_bin,
            r.autostart_tsmaster == self.autostart_tsmaster,
            r.hardware_name == self.hardware_name,
            r.hardware_subtype == self.hardware_subtype,
            r.channels@ == self.channels@,
    {
        let channels = self.channels.clone();
        assert(channels@ =~= self.channels@);
        CanTransportConfig {
            tsmaster_bin: match &self.tsmaster_bin {
                Some(bin) => Some(bin.clone()),
                None => None,
            },
            autostart_tsmaster: self.autostart_tsmaster,
            hardware_name: self.hardware_name.clone(),
            hardware_subtype: self.hardware_subtype,
            channels,
        }
    }
}

/// A received (or echoed transmitted) CAN FD frame.
#[derive(Clone, Copy, Debug)]
pub struct CanFrame {
    pub channel: u8,
    pub properties: u8,
    pub dlc: u8,
    pub identifier: u32,
    pub timestamp_us: u64,
    pub data: [u8; 64],
}

/// Payload length of a CAN FD data length code.
pub open spec fn dlc_len(dlc: u8) -> nat {
    if dlc <= 8 {
        dlc as nat
    } else if dlc == 9 {
        12
    } else if dlc == 10 {
        16
    } else if dlc == 11 {
        20
    } else if dlc == 12 {
        24
    } else if dlc == 13 {
        32
    } else if dlc == 14 {
        48
    } else {
        64
    }
}

impl CanFrame {
    /// Bit 0 of the properties marks a frame this side transmitted.
    pub open spec fn spec_is_tx(self) -> bool {
        self.properties % 2 == 1
    }

    pub fn is_tx(&self) -> (r: bool)
        ensures
            r == self.spec_is_tx(),
    {
        self.properties % 2 == 1
    }

    /// The payload bytes its data length code covers.
    pub fn data_bytes(&self) -> (r: &[u8])
        ensures
            r@ == self.data@.subrange(0, dlc_len(self.dlc) as int),
    {
        let len: usize = if self.dlc <= 8 {
            self.dlc as usize
        } else if self.dlc == 9 {
            12
        } else if self.dlc == 10 {
            16
        } else if self.dlc == 11 {
            20
        } else if self.dlc == 12 {
            24
        } else if self.dlc == 13 {
            32
        } else if self.dlc == 14 {
            48
        } else {
            64
        };
        let all: &[u8] = self.data.as_slice();
        &all[0..len]
    }
}

/// A classic CAN frame queued for transmission.
#[derive(Clone, Copy, Debug)]
pub struct CanTxFrame {
    pub channel: u8,
    pub identifier: u32,
    pub dlc: u8,
    pub data: [u8; 8],
}

impl CanTxFrame {
    pub fn new(channel: u8, identifier: u32, dlc: u8, data: [u8; 8]) -> (r: Self)
        ensures
            r == (CanTxFrame { channel, identifier, dlc, data }),
    {
        CanTxFrame { channel, identifier, dlc, data }
    }
}

/// CAN id of the self-test request the viewer sends.
pub const SELF_TEST_CAN_ID: u32 = 0x123;

/// The self-test request: on channel 0, id 0x123, the eight bytes
/// `A5 22 33 44 55 66 77 88`.
pub fn self_test_frame() -> (r: CanTxFrame)
    ensures
        r.channel == 0 && r.identifier == SELF_TEST_CAN_ID && r.dlc == 8,
        r.data@ == seq![0xA5u8, 0x22u8, 0x33u8, 0x44u8, 0x55u8, 0x66u8, 0x77u8, 0x88u8],
{
    let r = CanTxFrame::new(0, SELF_TEST_CAN_ID, 8, [0xA5, 0x22, 0x33, 0x44, 0x55, 0x66, 0x77, 0x88]);
    assert(r.data@ =~= seq![0xA5u8, 0x22u8, 0x33u8, 0x44u8, 0x55u8, 0x66u8, 0x77u8, 0x88u8]);
    r
}

/// Queues the self-test request; returns the status line the viewer shows.
/// When it was queued, the self-test frame has joined the queue.
pub fn request_self_test(queue: &mut Option<CanTxQueue>) -> (r: String)
    ensures
        *old(queue) is None ==> (*final(queue) is None) && r@ == "CAN self-test failed: "@ + "collector CAN channel not ready"@,
        *old(queue) matches Some(q) ==> (*final(queue) matches Some(f) && f.spec_sender() == q.spec_sender() && (
            (r@ == "CAN self-test queued: id=0x123 dlc=8 data=[A5, 22, 33, 44, 55, 66, 77, 88]，等待 collector 回报自检结果"@
                && f.queued().len() == q.queued().len() + 1 && f.queued().drop_last() == q.queued()
                && f.queued().last().channel == 0 && f.queued().last().identifier == SELF_TEST_CAN_ID
                && f.queued().last().dlc == 8 && f.queued().last().data@ == seq![0xA5u8, 0x22u8, 0x33u8, 0x44u8, 0x55u8, 0x66u8, 0x77u8, 0x88u8])
            || (r@ == "CAN self-test failed: "@ + ("collector CAN TX enqueue failed: "@ + "channel closed"@)
                && f.queued() == q.queued()))),
{
    let frame = self_test_frame();
    match enqueue_can_tx(queue, frame) {
        Ok(()) => {
            proof {
                assert((*queue)->0.queued().drop_last() =~= (*old(queue))->0.queued());
            }
            String::from_str(
                "CAN self-test queued: id=0x123 dlc=8 data=[A5, 22, 33, 44, 55, 66, 77, 88]，等待 collector 回报自检结果",
            )
        },
        Err(e) => {
            let mut r = String::from_str("CAN self-test failed: ");
            push_str(&mut r, e.as_str());
            r
        },
    }
}

/// Moving-average smoothing of SENT values at CAN ingress.
#[derive(Clone, Copy, Debug, PartialEq, Eq, Structural)]
pub struct SentFilterConfig {
    pub enabled: bool,
    pub window_size: usize,
}

impl SentFilterConfig {
    /// Enabled, over 10 samples.
    pub fn default() -> (r: Self)
        ensures
            r.enabled,
            r.window_size == 10,
    {
        SentFilterConfig { enabled: true, window_size: 10 }
    }
}

/// One monitored signal: a channel, and a CAN id or (when `None`) any
/// decoded signal frame.
#[derive(Debug)]
pub struct CanSignalWatchdogTarget {
    pub channel: u8,
    pub identifier: Option<u32>,
    pub label: String,
}

impl Clone for CanSignalWatchdogTarget {
    fn clone(&self) -> (r: Self)
        ensures
            r == *self,
    {
        CanSignalWatchdogTarget {
            channel: self.channel,
            identifier: self.identifier,
            label: self.label.clone(),
        }
    }
}

/// Signal watchdog settings; the timeout is in milliseconds.
#[derive(Debug)]
pub struct CanSignalWatchdogConfig {
    pub enabled: bool,
    pub timeout_ms: u64,
    pub targets: Vec<CanSignalWatchdogTarget>,
}

impl CanSignalWatchdogConfig {
    /// Enabled, 2 s timeout, every configured channel watched.
    pub fn default() -> (r: Self)
        ensures
            r.enabled,
            r.timeout_ms == 2000,
            r.targets@.len() == 0,
    {
        CanSignalWatchdogConfig { enabled: true, timeout_ms: 2000, targets: Vec::new() }
    }
}

// ---------------------------------------------------------------------------
// Text
// ---------------------------------------------------------------------------
pub open spec fn channel_text(c: CanChannelConfig) -> Seq<char> {
    "ch"@ + dec(c.index as nat) + ":"@ + dec(c.arbitration_baud_kbps as nat) + "kbps/"@ + dec(
        c.data_baud_kbps as nat,
    ) + "kbps"@
}

/// The channel texts joined by commas.
pub open spec fn channels_text(cs: Seq<CanChannelConfig>) -> Seq<char>
    decreases cs.len(),
{
    if cs.len() == 0 {
        Seq::empty()
    } else if cs.len() == 1 {
        channel_text(cs[0])
    } else {
        channels_text(cs.drop_last()) + ","@ + channel_text(cs.last())
    }
}

/// `ch<index>:<arbitration>kbps/<data>kbps` for each channel, comma-separated.
pub fn format_can_channels(channels: &[CanChannelConfig]) -> (r: String)
    ensures
        r@ == channels_text(channels@),
{
    let mut s = String::new();
    let mut i: usize = 0;
    while i < channels.len()
        invariant
            i <= channels@.len(),
            s@ == channels_text(channels@.take(i as int)),
        decreases channels@.len() - i,
    {
        let ghost before = s@;
        assert(channels@.take(i + 1).drop_last() =~= channels@.take(i as int));
        if i > 0 {
            push_str(&mut s, ",");
        }
        let c = channels[i];
        push_str(&mut s, "ch");
        push_dec(&mut s, c.index as u64);
        push_str(&mut s, ":");
        push_dec(&mut s, c.arbitration_baud_kbps as u64);
        push_str(&mut s, "kbps/");
        push_dec(&mut s, c.data_baud_kbps as u64);
        push_str(&mut s, "kbps");
        proof {
            if i == 0 {
                assert(channels@.take(1) =~= seq![c]);
                assert(s@ =~= channels_text(channels@.take(i + 1)));
            } else {
                assert(s@ =~= channels_text(channels@.take(i + 1)));
            }
        }
        i = i + 1;
    }
    assert(channels@.take(i as int) =~= channels@);
    s
}

pub open spec fn target_text(c: CanTransportConfig) -> Seq<char> {
    "hw="@ + c.hardware_name@ + " subtype="@ + signed_dec(c.hardware_subtype as int) + " channels="@
        + channels_text(c.channels@)
}

/// `hw=<name> subtype=<subtype> channels=<channels>`.
pub fn format_can_target(config: &CanTransportConfig) -> (r: String)
    ensures
        r@ == target_text(*config),
{
    let mut s = String::new();
    push_str(&mut s, "hw=");
    push_str(&mut s, config.hardware_name.as_str());
    push_str(&mut s, " subtype=");
    push_signed_dec(&mut s, config.hardware_subtype as i64);
    push_str(&mut s, " channels=");
    let channels = format_can_channels(config.channels.as_slice());
    push_str(&mut s, channels.as_str());
    assert(s@ =~= target_text(*config));
    s
}

pub open spec fn device_id_text(hardware_name: Seq<char>, channel: u8) -> Seq<char> {
    "can://"@ + hardware_name + ":ch"@ + dec(channel as nat)
}

/// `can://<hardware name>:ch<channel>`.
pub fn can_device_id(config: &CanTransportConfig, channel: u8) -> (r: String)
    ensures
        r@ == device_id_text(config.hardware_name@, channel),
{
    let mut s = String::new();
    push_str(&mut s, "can://");
    push_str(&mut s, config.hardware_name.as_str());
    push_str(&mut s, ":ch");
    push_dec(&mut s, channel as u64);
    assert(s@ =~= device_id_text(config.hardware_name@, channel));
    s
}

pub open spec fn byte_texts(bytes: Seq<u8>) -> Seq<char>
    decreases bytes.len(),
{
    if bytes.len() == 0 {
        Seq::empty()
    } else if bytes.len() == 1 {
        zero_pad(hex(bytes[0] as nat), 2)
    } else {
        byte_texts(bytes.drop_last()) + " "@ + zero_pad(hex(bytes.last() as nat), 2)
    }
}

pub open spec fn frame_text(f: CanFrame) -> Seq<char> {
    (if f.spec_is_tx() {
        "TX"@
    } else {
        "RX"@
    }) + " ch="@ + dec(f.channel as nat) + " id=0x"@ + zero_pad(hex(f.identifier as nat), 3)
        + " dlc="@ + dec(f.dlc as nat) + " ts="@ + dec(f.timestamp_us as nat) + "us data="@
        + byte_texts(f.data@.subrange(0, dlc_len(f.dlc) as int))
}

/// One log line for a frame: direction, channel, id, length code, hardware
/// time stamp and payload in hex.
pub fn format_can_frame(frame: &CanFrame) -> (r: String)
    ensures
        r@ == frame_text(*frame),
{
    let mut s = String::new();
    if frame.is_tx() {
        push_str(&mut s, "TX");
    } else {
        push_str(&mut s, "RX");
    }
    push_str(&mut s, " ch=");
    push_dec(&mut s, frame.channel as u64);
    push_str(&mut s, " id=0x");
    push_pad_hex(&mut s, frame.identifier as u64, 3);
    push_str(&mut s, " dlc=");
    push_dec(&mut s, frame.dlc as u64);
    push_str(&mut s, " ts=");
    push_dec(&mut s, frame.timestamp_us);
    push_str(&mut s, "us data=");
    let ghost head = s@;
    let data = frame.data_bytes();
    let mut i: usize = 0;
    while i < data.len()
        invariant
            i <= data@.len(),
            s@ == head + byte_texts(data@.take(i as int)),
        decreases data@.len() - i,
    {
        assert(data@.take(i + 1).drop_last() =~= data@.take(i as int));
        if i > 0 {
            push_str(&mut s, " ");
        }
        push_pad_hex(&mut s, data[i] as u64, 2);
        proof {
            if i == 0 {
                assert(data@.take(1) =~= seq![data@[0]]);
            }
            assert(s@ =~= head + byte_texts(data@.take(i + 1)));
        }
        i = i + 1;
    }
    assert(data@.take(i as int) =~= data@);
    assert(s@ =~= frame_text(*frame));
    s
}

// ---------------------------------------------------------------------------
// Probing
// ---------------------------------------------------------------------------
/// The configured channels, or the default list when none is configured.
pub open spec fn spec_normalized_channels(c: CanTransportConfig) -> Seq<CanChannelConfig> {
    if c.channels@.len() == 0 {
        default_channels()
    } else {
        c.channels@
    }
}

pub fn normalized_can_channels(config: &CanTransportConfig) -> (r: Vec<CanChannelConfig>)
    ensures
        r@ == spec_normalized_channels(*config),
{
    if config.channels.len() == 0 {
        default_channel_list()
    } else {
        config.channels.clone()
    }
}

/// An empty (after trimming) or `auto` hardware name asks for auto-detection.
pub open spec fn is_auto_hardware_name(name: Seq<char>) -> bool {
    trim(name).len() == 0 || eq_ignore_ascii_case(trim(name), "auto"@)
}

/// The (hardware name, subtype) pairs tried, in order.
pub open spec fn hardware_candidates(c: CanTransportConfig) -> Seq<(Seq<char>, i32)> {
    if is_auto_hardware_name(c.hardware_name@) {
        seq![("TC1016"@, HW_SUBTYPE_TC1016), ("TC1012"@, HW_SUBTYPE_TC1012)]
    } else {
        seq![(trim(c.hardware_name@), c.hardware_subtype)]
    }
}

/// `first` moved to each channel index below `n` other than its own, in order.
pub open spec fn moved_channels(first: CanChannelConfig, n: nat) -> Seq<Seq<CanChannelConfig>>
    decreases n,
{
    if n == 0 {
        Seq::empty()
    } else {
        let prev = moved_channels(first, (n - 1) as nat);
        if (n - 1) as u8 != first.index {
            prev.push(seq![CanChannelConfig { index: (n - 1) as u8, ..first }])
        } else {
            prev
        }
    }
}

/// The channel lists tried, in order: a single configured channel is tried
/// as given and then moved to each other of the four physical channels; a
/// list of several is tried as given.
pub open spec fn channel_candidates(channels: Seq<CanChannelConfig>) -> Seq<Seq<CanChannelConfig>> {
    if channels.len() == 1 {
        seq![channels] + moved_channels(channels[0], 4)
    } else {
        seq![channels]
    }
}

/// Every hardware candidate with every channel candidate, hardware first.
pub open spec fn candidate_keys(
    hardware: Seq<(Seq<char>, i32)>,
    channels: Seq<Seq<CanChannelConfig>>,
) -> Seq<(Seq<char>, i32, Seq<CanChannelConfig>)>
    decreases hardware.len(),
{
    if hardware.len() == 0 {
        Seq::empty()
    } else {
        candidate_keys(hardware.drop_last(), channels) + channels.map_values(
            |ch: Seq<CanChannelConfig>| (hardware.last().0, hardware.last().1, ch),
        )
    }
}

pub open spec fn spec_candidate_keys(c: CanTransportConfig) -> Seq<(Seq<char>, i32, Seq<CanChannelConfig>)> {
    candidate_keys(hardware_candidates(c), channel_candidates(spec_normalized_channels(c)))
}

fn channel_candidate_list(channels: Vec<CanChannelConfig>) -> (r: Vec<Vec<CanChannelConfig>>)
    ensures
        r@.len() == channel_candidates(channels@).len(),
        forall|i: int| 0 <= i < r@.len() ==> (#[trigger] r@[i])@ == channel_candidates(channels@)[i],
{
    let mut r: Vec<Vec<CanChannelConfig>> = Vec::new();
    if channels.len() == 1 {
        let first = channels[0];
        r.push(channels);
        let mut n: u8 = 0;
        while n < 4
            invariant
                n <= 4,
                r@.len() == 1 + moved_channels(first, n as nat).len(),
                r@[0]@ == seq![first],
                forall|i: int|
                    1 <= i < r@.len() ==> (#[trigger] r@[i])@ == moved_channels(first, n as nat)[i
                        - 1],
            decreases 4 - n,
        {
            if n != first.index {
                let mut moved: Vec<CanChannelConfig> = Vec::new();
                moved.push(CanChannelConfig { index: n, ..first });
                assert(moved@ =~= seq![CanChannelConfig { index: n, ..first }]);
                r.push(moved);
            }
            n = n + 1;
        }
        assert(channels@ =~= seq![first]);
    } else {
        r.push(channels);
    }
    r
}

/// The configurations to probe, in order, when opening the adapter of
/// `config`: each hardware candidate (TC1016 then TC1012 for an automatic
/// name, else the trimmed configured name and subtype) with each channel
/// candidate. Everything else is copied from `config`. No two candidates
/// share hardware name, subtype and channel list.
pub fn candidate_can_configs(config: &CanTransportConfig) -> (r: Vec<CanTransportConfig>)
    ensures
        r@.len() == spec_candidate_keys(*config).len(),
        forall|i: int|
            0 <= i < r@.len() ==> {
                let c = #[trigger] r@[i];
                let k = spec_candidate_keys(*config)[i];
                &&& c.hardware_name@ == k.0
                &&& c.hardware_subtype == k.1
                &&& c.channels@ == k.2
                &&& c.tsmaster_bin == config.tsmaster_bin
                &&& c.autostart_tsmaster == config.autostart_tsmaster
            },
        forall|i: int, j: int|
            0 <= i < j < r@.len() ==> !(r@[i].hardware_name@ == r@[j].hardware_name@
                && r@[i].hardware_subtype == r@[j].hardware_subtype && r@[i].channels@
                == r@[j].channels@),
{
    let name = chars_of(config.hardware_name.as_str());
    let (lo, hi) = trim_bounds(&name, 0, name.len());
    assert(name@.subrange(0, name@.len() as int) =~= config.hardware_name@);
    let is_auto = lo == hi || eq_ignore_case(&name, lo, hi, "auto");
    let mut hardware: Vec<(String, i32)> = Vec::new();
    if is_auto {
        hardware.push((String::from_str("TC1016"), HW_SUBTYPE_TC1016));
        hardware.push((String::from_str("TC1012"), HW_SUBTYPE_TC1012));
    } else {
        hardware.push((string_of(&name, lo, hi), config.hardware_subtype));
    }
    let ghost hw_spec = hardware_candidates(*config);
    assert(hardware@.len() == hw_spec.len());
    assert(forall|h: int|
        0 <= h < hardware@.len() ==> hardware@[h].0@ == hw_spec[h].0 && hardware@[h].1
            == hw_spec[h].1);
    let channels = channel_candidate_list(normalized_can_channels(config));
    let ghost ch_spec = channel_candidates(spec_normalized_channels(*config));
    let mut r: Vec<CanTransportConfig> = Vec::new();
    let mut h: usize = 0;
    while h < hardware.len()
        invariant
            h <= hardware@.len(),
            hardware@.len() == hw_spec.len(),
            forall|x: int|
                0 <= x < hardware@.len() ==> hardware@[x].0@ == hw_spec[x].0 && hardware@[x].1
                    == hw_spec[x].1,
            channels@.len() == ch_spec.len(),
            forall|x: int| 0 <= x < channels@.len() ==> (#[trigger] channels@[x])@ == ch_spec[x],
            r@.len() == candidate_keys(hw_spec.take(h as int), ch_spec).len(),
            forall|i: int|
                0 <= i < r@.len() ==> {
                    let c = #[trigger] r@[i];
                    let k = candidate_keys(hw_spec.take(h as int), ch_spec)[i];
                    &&& c.hardware_name@ == k.0
                    &&& c.hardware_subtype == k.1
                    &&& c.channels@ == k.2
                    &&& c.tsmaster_bin == config.tsmaster_bin
                    &&& c.autostart_tsmaster == config.autostart_tsmaster
                },
        decreases hardware@.len() - h,
    {
        let ghost prev_keys = candidate_keys(hw_spec.take(h as int), ch_spec);
        assert(hw_spec.take(h + 1).drop_last() =~= hw_spec.take(h as int));
        let mut n: usize = 0;
        while n < channels.len()
            invariant
                h < hardware@.len(),
                n <= channels@.len(),
                hardware@.len() == hw_spec.len(),
                forall|x: int|
                    0 <= x < hardware@.len() ==> hardware@[x].0@ == hw_spec[x].0 && hardware@[x].1
                        == hw_spec[x].1,
                channels@.len() == ch_spec.len(),
                forall|x: int| 0 <= x < channels@.len() ==> (#[trigger] channels@[x])@ == ch_spec[x],
                r@.len() == prev_keys.len() + n,
                forall|i: int|
                    0 <= i < r@.len() ==> {
                        let c = #[trigger] r@[i];
                        let k = (prev_keys + ch_spec.map_values(
                            |ch: Seq<CanChannelConfig>| (hw_spec[h as int].0, hw_spec[h as int].1, ch),
                        ))[i];
                        &&& c.hardware_name@ == k.0
                        &&& c.hardware_subtype == k.1
                        &&& c.channels@ == k.2
                        &&& c.tsmaster_bin == config.tsmaster_bin
                        &&& c.autostart_tsmaster == config.autostart_tsmaster
                    },
            decreases channels@.len() - n,
        {
            let mut candidate = config.clone();
            candidate.hardware_name = hardware[h].0.clone();
            candidate.hardware_subtype = hardware[h].1;
            candidate.channels = channels[n].clone();
            r.push(candidate);
            n = n + 1;
        }
        assert(hw_spec.take(h + 1).last() == hw_spec[h as int]);
        h = h + 1;
    }
    assert(hw_spec.take(h as int) =~= hw_spec);
    proof {
        lemma_candidates_distinct(*config);
        let keys = spec_candidate_keys(*config);
        assert forall|i: int, j: int| 0 <= i < j < r@.len() implies !(r@[i].hardware_name@
            == r@[j].hardware_name@ && r@[i].hardware_subtype == r@[j].hardware_subtype
            && r@[i].channels@ == r@[j].channels@) by {
            assert(keys[i] != keys[j]);
        }
    }
    r
}

proof fn lemma_moved_channels(first: CanChannelConfig, n: nat)
    requires
        n <= 4,
    ensures
        forall|i: int|
            0 <= i < moved_channels(first, n).len() ==> {
                let c = #[trigger] moved_channels(first, n)[i];
                &&& c.len() == 1
                &&& c[0].index != first.index
                &&& c[0].index < n
            },
        forall|i: int, j: int|
            0 <= i < j < moved_channels(first, n).len() ==> moved_channels(first, n)[i][0].index
                < moved_channels(first, n)[j][0].index,
    decreases n,
{
    if n > 0 {
        let m = (n - 1) as nat;
        lemma_moved_channels(first, m);
        let prev = moved_channels(first, m);
        let cur = moved_channels(first, n);
        if m as u8 != first.index {
            let c = seq![CanChannelConfig { index: m as u8, ..first }];
            assert(cur == prev.push(c));
            assert(c[0].index == m);
            assert forall|i: int| 0 <= i < cur.len() implies {
                let x = #[trigger] cur[i];
                &&& x.len() == 1
                &&& x[0].index != first.index
                &&& x[0].index < n
            } by {
                if i < prev.len() {
                    assert(cur[i] == prev[i]);
                }
            }
            assert forall|i: int, j: int| 0 <= i < j < cur.len() implies cur[i][0].index
                < cur[j][0].index by {
                if j < prev.len() {
                    assert(cur[i] == prev[i] && cur[j] == prev[j]);
                } else {
                    assert(cur[i] == prev[i]);
                }
            }
        } else {
            assert(cur == prev);
        }
    }
}

proof fn lemma_channel_candidates_distinct(channels: Seq<CanChannelConfig>)
    ensures
        forall|i: int, j: int|
            0 <= i < j < channel_candidates(channels).len() ==> channel_candidates(channels)[i]
                != channel_candidates(channels)[j],
{
    if channels.len() == 1 {
        lemma_moved_channels(channels[0], 4);
        let cs = channel_candidates(channels);
        assert forall|i: int, j: int| 0 <= i < j < cs.len() implies cs[i] != cs[j] by {
            if i == 0 {
                assert(cs[j][0].index != channels[0].index);
            } else {
                assert(cs[i][0].index < cs[j][0].index);
            }
        }
    }
}

proof fn lemma_candidate_keys_index(
    hardware: Seq<(Seq<char>, i32)>,
    channels: Seq<Seq<CanChannelConfig>>,
)
    ensures
        candidate_keys(hardware, channels).len() == hardware.len() * channels.len(),
        forall|a: int, b: int|
            0 <= a < hardware.len() && 0 <= b < channels.len() ==> #[trigger] candidate_keys(
                hardware,
                channels,
            )[a * channels.len() + b] == (hardware[a].0, hardware[a].1, channels[b]),
    decreases hardware.len(),
{
    if hardware.len() > 0 {
        let prev = hardware.drop_last();
        lemma_candidate_keys_index(prev, channels);
        let n: int = channels.len() as int;
        assert(hardware.len() * n == prev.len() * n + n) by (nonlinear_arith)
            requires
                hardware.len() == prev.len() + 1,
        ;
        assert forall|a: int, b: int| 0 <= a < hardware.len() && 0 <= b < n implies #[trigger] candidate_keys(
            hardware,
            channels,
        )[a * n + b] == (hardware[a].0, hardware[a].1, channels[b]) by {
            if a < prev.len() {
                assert(a * n + b < prev.len() * n) by (nonlinear_arith)
                    requires
                        a + 1 <= prev.len(),
                        0 <= b < n,
                        a >= 0,
                ;
                assert(prev[a] == hardware[a]);
            } else {
                assert(a * n == prev.len() * n);
            }
        }
    }
}

proof fn lemma_candidates_distinct(c: CanTransportConfig)
    ensures
        forall|i: int, j: int|
            0 <= i < j < spec_candidate_keys(c).len() ==> spec_candidate_keys(c)[i]
                != spec_candidate_keys(c)[j],
{
    let hw = hardware_candidates(c);
    let chs = channel_candidates(spec_normalized_channels(c));
    lemma_channel_candidates_distinct(spec_normalized_channels(c));
    lemma_candidate_keys_index(hw, chs);
    let keys = spec_candidate_keys(c);
    let n: int = chs.len() as int;
    assert(n >= 1);
    assert forall|i: int, j: int| 0 <= i < j < keys.len() implies keys[i] != keys[j] by {
        let ai = i / n;
        let bi = i % n;
        let aj = j / n;
        let bj = j % n;
        assert(i == ai * n + bi && 0 <= bi < n) by (nonlinear_arith)
            requires
                n >= 1,
                ai == i / n,
                bi == i % n,
        ;
        assert(j == aj * n + bj && 0 <= bj < n) by (nonlinear_arith)
            requires
                n >= 1,
                aj == j / n,
                bj == j % n,
        ;
        assert(0 <= ai < hw.len() && 0 <= aj < hw.len()) by (nonlinear_arith)
            requires
                n >= 1,
                0 <= i < j < hw.len() * n,
                ai == i / n,
                aj == j / n,
        ;
        assert(keys[i] == (hw[ai].0, hw[ai].1, chs[bi]));
        assert(keys[j] == (hw[aj].0, hw[aj].1, chs[bj]));
        if ai == aj {
            assert(bi != bj);
        } else {
            assert(hw.len() == 2);
            assert(hw[0].0 != hw[1].0) by {
                reveal_strlit("TC1016");
                reveal_strlit("TC1012");
                assert(hw[0].0[5] != hw[1].0[5]);
            }
        }
    }
}

// ---------------------------------------------------------------------------
// Signal watchdogs
// ---------------------------------------------------------------------------
/// Whether some channel of `channels` has index `channel`.
pub open spec fn channel_listed(channels: Seq<CanChannelConfig>, channel: u8) -> bool {
    exists|i: int| 0 <= i < channels.len() && channels[i].index == channel
}

/// The targets on a listed channel, in order.
pub open spec fn targets_on(
    targets: Seq<CanSignalWatchdogTarget>,
    channels: Seq<CanChannelConfig>,
) -> Seq<CanSignalWatchdogTarget>
    decreases targets.len(),
{
    if targets.len() == 0 {
        Seq::empty()
    } else {
        let prev = targets_on(targets.drop_last(), channels);
        if channel_listed(channels, targets.last().channel) {
            prev.push(targets.last())
        } else {
            prev
        }
    }
}

pub open spec fn channel_label(index: u8) -> Seq<char> {
    "Channel "@ + dec(index as nat) + " signal"@
}

/// A target as (channel, CAN id, label).
pub open spec fn target_entry(t: CanSignalWatchdogTarget) -> (u8, Option<u32>, Seq<char>) {
    (t.channel, t.identifier, t.label@)
}

/// The targets watched: none when disabled; with no targets configured, one
/// per channel (any decoded signal frame); otherwise the configured targets
/// on a configured channel, in order.
pub open spec fn watched_targets(
    config: CanSignalWatchdogConfig,
    channels: Seq<CanChannelConfig>,
) -> Seq<(u8, Option<u32>, Seq<char>)> {
    if !config.enabled {
        Seq::empty()
    } else if config.targets@.len() == 0 {
        Seq::new(
            channels.len(),
            |i: int| (channels[i].index, None, channel_label(channels[i].index)),
        )
    } else {
        targets_on(config.targets@, channels).map_values(|t: CanSignalWatchdogTarget| target_entry(t))
    }
}

pub fn normalized_watchdog_targets(
    config: &CanSignalWatchdogConfig,
    channels: &[CanChannelConfig],
) -> (r: Vec<CanSignalWatchdogTarget>)
    ensures
        r@.map_values(|t: CanSignalWatchdogTarget| target_entry(t)) == watched_targets(
            *config,
            channels@,
        ),
{
    let mut r: Vec<CanSignalWatchdogTarget> = Vec::new();
    if !config.enabled {
        assert(r@.map_values(|t: CanSignalWatchdogTarget| target_entry(t)) =~= Seq::empty());
        return r;
    }
    if config.targets.len() == 0 {
        let mut i: usize = 0;
        while i < channels.len()
            invariant
                i <= channels@.len(),
                r@.len() == i,
                forall|k: int|
                    0 <= k < i ==> {
                        let t = #[trigger] r@[k];
                        &&& t.channel == channels@[k].index
                        &&& t.identifier is None
                        &&& t.label@ == channel_label(channels@[k].index)
                    },
            decreases channels@.len() - i,
        {
            let index = channels[i].index;
            let mut label = String::new();
            push_str(&mut label, "Channel ");
            push_dec(&mut label, index as u64);
            push_str(&mut label, " signal");
            assert(label@ =~= channel_label(index));
            r.push(CanSignalWatchdogTarget { channel: index, identifier: None, label });
            i = i + 1;
        }
        assert(r@.map_values(|t: CanSignalWatchdogTarget| target_entry(t)) =~= watched_targets(
            *config,
            channels@,
        ));
        return r;
    }
    let mut i: usize = 0;
    while i < config.targets.len()
        invariant
            i <= config.targets@.len(),
            r@ == targets_on(config.targets@.take(i as int), channels@),
        decreases config.targets@.len() - i,
    {
        assert(config.targets@.take(i + 1).drop_last() =~= config.targets@.take(i as int));
        let channel = config.targets[i].channel;
        let mut listed = false;
        let mut k: usize = 0;
        while k < channels.len()
            invariant
                k <= channels@.len(),
                listed == exists|x: int| 0 <= x < k && channels@[x].index == channel,
            decreases channels@.len() - k,
        {
            if channels[k].index == channel {
                listed = true;
            }
            k = k + 1;
        }
        if listed {
            r.push(config.targets[i].clone());
        }
        i = i + 1;
    }
    assert(config.targets@.take(i as int) =~= config.targets@);
    r
}

/// One watched signal and its state; times are in milliseconds on the
/// ingress clock.
#[derive(Debug)]
pub struct SignalWatchdog {
    pub channel: u8,
    pub identifier: Option<u32>,
    pub label: String,
    pub last_seen_ms: u64,
    pub alarm_active: bool,
}

pub open spec fn timeout_alarm_id(channel: u8, identifier: Option<u32>) -> Seq<char> {
    "can_signal_timeout_ch"@ + dec(channel as nat) + "_"@ + match identifier {
        Some(id) => "id"@ + zero_pad(hex(id as nat), 3),
        None => "any"@,
    }
}

pub open spec fn timeout_message(
    channel: u8,
    identifier: Option<u32>,
    label: Seq<char>,
    timeout_ms: u64,
    cleared: bool,
) -> Seq<char> {
    "channel="@ + dec(channel as nat) + ", signal="@ + label + ", target="@ + match identifier {
        Some(id) => "CAN ID 0x"@ + hex(id as nat),
        None => "any decoded signal frame"@,
    } + ", timeout_ms="@ + dec(timeout_ms as nat) + ", state="@ + if cleared {
        "restored"@
    } else {
        "interrupted"@
    }
}

/// `e` reports the watchdog of `channel`/`identifier` labelled `label` as
/// interrupted (raised) or restored (cleared), at `now`, as a critical alarm.
pub open spec fn is_timeout_event(
    e: AlarmEvent,
    device_id: Seq<char>,
    channel: u8,
    identifier: Option<u32>,
    label: Seq<char>,
    timeout_ms: u64,
    now: SystemTime,
    cleared: bool,
) -> bool {
    &&& e.device_id@ == device_id
    &&& e.alarm_id@ == timeout_alarm_id(channel, identifier)
    &&& e.level == AlarmLevel::Critical
    &&& e.message@ == timeout_message(channel, identifier, label, timeout_ms, cleared)
    &&& e.raised_at == now
    &&& e.cleared == cleared
}

/// The alarm event for a signal watchdog going off (`cleared == false`) or
/// recovering.
pub fn signal_timeout_alarm_event(
    device_id: &str,
    watchdog: &SignalWatchdog,
    timeout_ms: u64,
    now: SystemTime,
    cleared: bool,
) -> (e: AlarmEvent)
    ensures
        is_timeout_event(
            e,
            device_id@,
            watchdog.channel,
            watchdog.identifier,
            watchdog.label@,
            timeout_ms,
            now,
            cleared,
        ),
{
    let mut alarm_id = String::new();
    push_str(&mut alarm_id, "can_signal_timeout_ch");
    push_dec(&mut alarm_id, watchdog.channel as u64);
    push_str(&mut alarm_id, "_");
    match watchdog.identifier {
        Some(id) => {
            push_str(&mut alarm_id, "id");
            push_pad_hex(&mut alarm_id, id as u64, 3);
        },
        None => push_str(&mut alarm_id, "any"),
    }
    assert(alarm_id@ =~= timeout_alarm_id(watchdog.channel, watchdog.identifier));
    let mut message = String::new();
    push_str(&mut message, "channel=");
    push_dec(&mut message, watchdog.channel as u64);
    push_str(&mut message, ", signal=");
    push_str(&mut message, watchdog.label.as_str());
    push_str(&mut message, ", target=");
    match watchdog.identifier {
        Some(id) => {
            push_str(&mut message, "CAN ID 0x");
            push_hex(&mut message, id as u64);
        },
        None => push_str(&mut message, "any decoded signal frame"),
    }
    push_str(&mut message, ", timeout_ms=");
    push_dec(&mut message, timeout_ms);
    push_str(&mut message, ", state=");
    if cleared {
        push_str(&mut message, "restored");
    } else {
        push_str(&mut message, "interrupted");
    }
    assert(message@ =~= timeout_message(
        watchdog.channel,
        watchdog.identifier,
        watchdog.label@,
        timeout_ms,
        cleared,
    ));
    AlarmEvent {
        device_id: String::from_str(device_id),
        alarm_id,
        level: AlarmLevel::Critical,
        message,
        raised_at: now,
        cleared,
    }
}

/// A frame counts for a watchdog when it is on the watchdog's channel and
/// either has the watched CAN id or, for an any-signal watchdog, carried a
/// decoded signal.
pub open spec fn frame_feeds(w: SignalWatchdog, channel: u8, identifier: u32, decoded: bool) -> bool {
    w.channel == channel && match w.identifier {
        Some(expected) => expected == identifier,
        None => decoded,
    }
}

/// Milliseconds from `since` to `now`, zero when `now` is earlier.
pub open spec fn elapsed_ms(now: u64, since: u64) -> int {
    if now >= since {
        now - since
    } else {
        0
    }
}

/// Indices, in order, of the watchdogs among the first `n` that are raised
/// and fed by the frame: those the frame restores.
pub open spec fn restored_by(
    ws: Seq<SignalWatchdog>,
    n: nat,
    channel: u8,
    identifier: u32,
    decoded: bool,
) -> Seq<int>
    decreases n,
{
    if n == 0 {
        Seq::empty()
    } else {
        let prev = restored_by(ws, (n - 1) as nat, channel, identifier, decoded);
        if ws[n - 1].alarm_active && frame_feeds(ws[n - 1], channel, identifier, decoded) {
            prev.push(n - 1)
        } else {
            prev
        }
    }
}

/// Indices, in order, of the watchdogs among the first `n` not raised yet
/// whose signal has been quiet for `timeout_ms` at `now_ms`.
pub open spec fn timed_out(ws: Seq<SignalWatchdog>, n: nat, now_ms: u64, timeout_ms: u64) -> Seq<
    int,
>
    decreases n,
{
    if n == 0 {
        Seq::empty()
    } else {
        let prev = timed_out(ws, (n - 1) as nat, now_ms, timeout_ms);
        if !ws[n - 1].alarm_active && elapsed_ms(now_ms, ws[n - 1].last_seen_ms) >= timeout_ms {
            prev.push(n - 1)
        } else {
            prev
        }
    }
}

/// No two watchdogs watch the same (channel, CAN id).
pub open spec fn distinct_watchdogs(ws: Seq<SignalWatchdog>) -> bool {
    forall|x: int, y: int|
        0 <= x < y < ws.len() ==> !(ws[x].channel == ws[y].channel && ws[x].identifier
            == ws[y].identifier)
}

/// Entry `k`, among the first `n` of `ts`, names `w`'s channel, CAN id and
/// label, and no later entry among them names the same channel and CAN id.
pub open spec fn latest_entry_for(
    ts: Seq<(u8, Option<u32>, Seq<char>)>,
    n: int,
    w: SignalWatchdog,
    k: int,
) -> bool {
    &&& 0 <= k < n
    &&& ts[k] == (w.channel, w.identifier, w.label@)
    &&& forall|k2: int| k < k2 < n ==> !(#[trigger] ts[k2].0 == w.channel && ts[k2].1 == w.identifier)
}

/// Every watchdog stands for the last of the first `n` entries of `ts` with
/// its channel and CAN id.
pub open spec fn all_latest(ts: Seq<(u8, Option<u32>, Seq<char>)>, n: int, ws: Seq<SignalWatchdog>) -> bool {
    forall|x: int| 0 <= x < ws.len() ==> #[trigger] has_latest_entry(ts, n, ws[x])
}

/// Some entry among the first `n` of `ts` is the last one for `w`.
pub open spec fn has_latest_entry(ts: Seq<(u8, Option<u32>, Seq<char>)>, n: int, w: SignalWatchdog) -> bool {
    exists|k: int| latest_entry_for(ts, n, w, k)
}

/// Some watchdog watches the channel and CAN id of entry `e`.
pub open spec fn has_watchdog(ws: Seq<SignalWatchdog>, e: (u8, Option<u32>, Seq<char>)) -> bool {
    exists|x: int| 0 <= x < ws.len() && ws[x].channel == e.0 && ws[x].identifier == e.1
}

/// Each of the first `n` entries of `ts` has a watchdog.
pub open spec fn all_covered(ts: Seq<(u8, Option<u32>, Seq<char>)>, n: int, ws: Seq<SignalWatchdog>) -> bool {
    forall|k: int| 0 <= k < n ==> #[trigger] has_watchdog(ws, ts[k])
}

/// Every watchdog was last fed at `started_ms` and is not raised.
pub open spec fn all_fresh(ws: Seq<SignalWatchdog>, started_ms: u64) -> bool {
    forall|x: int| 0 <= x < ws.len() ==> (#[trigger] ws[x]).last_seen_ms == started_ms && !ws[x].alarm_active
}

proof fn lemma_watch_replace(
    ts: Seq<(u8, Option<u32>, Seq<char>)>,
    n: int,
    before: Seq<SignalWatchdog>,
    p: int,
    w: SignalWatchdog,
    started_ms: u64,
)
    requires
        0 <= n < ts.len(),
        0 <= p < before.len(),
        before[p].channel == ts[n].0 && before[p].identifier == ts[n].1,
        ts[n] == (w.channel, w.identifier, w.label@),
        w.last_seen_ms == started_ms && !w.alarm_active,
        distinct_watchdogs(before),
        all_latest(ts, n, before),
        all_covered(ts, n, before),
        all_fresh(before, started_ms),
    ensures
        distinct_watchdogs(before.update(p, w)),
        all_latest(ts, n + 1, before.update(p, w)),
        all_covered(ts, n + 1, before.update(p, w)),
        all_fresh(before.update(p, w), started_ms),
{
    let after = before.update(p, w);
    assert forall|x: int| 0 <= x < after.len() implies #[trigger] has_latest_entry(ts, n + 1, after[x]) by {
        if x != p {
            assert(has_latest_entry(ts, n, before[x]));
            let k0 = choose|k: int| latest_entry_for(ts, n, before[x], k);
            assert(latest_entry_for(ts, n + 1, after[x], k0));
        } else {
            assert(latest_entry_for(ts, n + 1, after[x], n));
        }
    }
    assert(all_latest(ts, n + 1, after));
    assert forall|k: int| 0 <= k < n + 1 implies #[trigger] has_watchdog(after, ts[k]) by {
        if k < n {
            assert(has_watchdog(before, ts[k]));
            let x0 = choose|x: int|
                0 <= x < before.len() && before[x].channel == ts[k].0 && before[x].identifier
                    == ts[k].1;
            assert(after[x0].channel == before[x0].channel);
        } else {
            assert(after[p].channel == ts[k].0);
        }
    }
}

proof fn lemma_watch_push(
    ts: Seq<(u8, Option<u32>, Seq<char>)>,
    n: int,
    before: Seq<SignalWatchdog>,
    w: SignalWatchdog,
    started_ms: u64,
)
    requires
        0 <= n < ts.len(),
        forall|x: int|
            0 <= x < before.len() ==> !(before[x].channel == ts[n].0 && before[x].identifier
                == ts[n].1),
        ts[n] == (w.channel, w.identifier, w.label@),
        w.last_seen_ms == started_ms && !w.alarm_active,
        distinct_watchdogs(before),
        all_latest(ts, n, before),
        all_covered(ts, n, before),
        all_fresh(before, started_ms),
    ensures
        distinct_watchdogs(before.push(w)),
        all_latest(ts, n + 1, before.push(w)),
        all_covered(ts, n + 1, before.push(w)),
        all_fresh(before.push(w), started_ms),
{
    let after = before.push(w);
    assert forall|x: int| 0 <= x < after.len() implies #[trigger] has_latest_entry(ts, n + 1, after[x]) by {
        if x < before.len() {
            assert(has_latest_entry(ts, n, before[x]));
            let k0 = choose|k: int| latest_entry_for(ts, n, before[x], k);
            assert(latest_entry_for(ts, n + 1, after[x], k0));
        } else {
            assert(latest_entry_for(ts, n + 1, after[x], n));
        }
    }
    assert(all_latest(ts, n + 1, after));
    assert forall|k: int| 0 <= k < n + 1 implies #[trigger] has_watchdog(after, ts[k]) by {
        if k < n {
            assert(has_watchdog(before, ts[k]));
            let x0 = choose|x: int|
                0 <= x < before.len() && before[x].channel == ts[k].0 && before[x].identifier
                    == ts[k].1;
            assert(after[x0] == before[x0]);
        } else {
            assert(after[before.len() as int].channel == ts[k].0);
        }
    }
}

/// The position of the watchdog of `channel`/`identifier`, if any.
fn find_watchdog(ws: &Vec<SignalWatchdog>, channel: u8, identifier: Option<u32>) -> (r: Option<usize>)
    ensures
        match r {
            Some(p) => p < ws@.len() && ws@[p as int].channel == channel && ws@[p as int].identifier
                == identifier,
            None => forall|x: int|
                0 <= x < ws@.len() ==> !(ws@[x].channel == channel && ws@[x].identifier == identifier),
        },
{
    let mut k: usize = 0;
    while k < ws.len()
        invariant
            k <= ws@.len(),
            forall|x: int| 0 <= x < k ==> !(ws@[x].channel == channel && ws@[x].identifier == identifier),
        decreases ws@.len() - k,
    {
        if ws[k].channel == channel && ws[k].identifier == identifier {
            return Some(k);
        }
        k = k + 1;
    }
    None
}

proof fn lemma_timed_out_none(ws: Seq<SignalWatchdog>, n: nat, now_ms: u64, timeout_ms: u64)
    requires
        n <= ws.len(),
        forall|i: int| 0 <= i < n ==> (#[trigger] ws[i]).alarm_active || elapsed_ms(now_ms, ws[i].last_seen_ms) < timeout_ms,
    ensures
        timed_out(ws, n, now_ms, timeout_ms).len() == 0,
    decreases n,
{
    if n > 0 {
        lemma_timed_out_none(ws, (n - 1) as nat, now_ms, timeout_ms);
        assert(ws[n - 1].alarm_active || elapsed_ms(now_ms, ws[n - 1].last_seen_ms) < timeout_ms);
    }
}

proof fn lemma_restored_contains(
    ws: Seq<SignalWatchdog>,
    n: nat,
    channel: u8,
    identifier: u32,
    decoded: bool,
    i: int,
)
    requires
        0 <= i < n <= ws.len(),
        ws[i].alarm_active,
        frame_feeds(ws[i], channel, identifier, decoded),
    ensures
        restored_by(ws, n, channel, identifier, decoded).contains(i),
    decreases n,
{
    let r = restored_by(ws, n, channel, identifier, decoded);
    if i == n - 1 {
        assert(r[r.len() - 1] == i);
    } else {
        lemma_restored_contains(ws, (n - 1) as nat, channel, identifier, decoded, i);
        let prev = restored_by(ws, (n - 1) as nat, channel, identifier, decoded);
        let k = choose|k: int| 0 <= k < prev.len() && prev[k] == i;
        assert(r[k] == i);
    }
}

/// Polling twice at the same time raises nothing the second time: every
/// watchdog due was raised by the first poll.
pub proof fn lemma_poll_again_raises_nothing(
    a: SignalWatchdogs,
    b: SignalWatchdogs,
    c: SignalWatchdogs,
    hardware_name: Seq<char>,
    now_ms: u64,
    first_wall: SystemTime,
    second_wall: SystemTime,
    first: Seq<AlarmEvent>,
    second: Seq<AlarmEvent>,
)
    requires
        polled(a, b, hardware_name, now_ms, first_wall, first),
        polled(b, c, hardware_name, now_ms, second_wall, second),
    ensures
        second.len() == 0,
        c.spec_watchdogs() == b.spec_watchdogs(),
{
    assert forall|i: int| 0 <= i < b.spec_watchdogs().len() implies (#[trigger] b.spec_watchdogs()[i]).alarm_active
        || elapsed_ms(now_ms, b.spec_watchdogs()[i].last_seen_ms) < b.spec_timeout_ms() by {
        let w = a.spec_watchdogs()[i];
        assert(b.spec_watchdogs()[i].last_seen_ms == w.last_seen_ms);
    }
    lemma_timed_out_none(b.spec_watchdogs(), b.spec_watchdogs().len(), now_ms, b.spec_timeout_ms());
    assert forall|i: int| 0 <= i < b.spec_watchdogs().len() implies #[trigger] c.spec_watchdogs()[i] == b.spec_watchdogs()[i] by {
        let w = b.spec_watchdogs()[i];
        let v = c.spec_watchdogs()[i];
        assert(v.alarm_active == w.alarm_active);
    }
    assert(c.spec_watchdogs() =~= b.spec_watchdogs());
}

/// A raised watchdog is restored by the next RX frame that feeds it: the
/// frame clears it, resets its time, and the restoration is reported.
pub proof fn lemma_feeding_frame_restores(
    b: SignalWatchdogs,
    c: SignalWatchdogs,
    device_id: Seq<char>,
    channel: u8,
    identifier: u32,
    decoded_signal: bool,
    observed_ms: u64,
    now: SystemTime,
    events: Seq<AlarmEvent>,
    i: int,
)
    requires
        marked(b, c, device_id, channel, identifier, false, decoded_signal, observed_ms, now, events),
        0 <= i < b.spec_watchdogs().len(),
        b.spec_watchdogs()[i].alarm_active,
        frame_feeds(b.spec_watchdogs()[i], channel, identifier, decoded_signal),
    ensures
        !c.spec_watchdogs()[i].alarm_active,
        c.spec_watchdogs()[i].last_seen_ms == observed_ms,
        exists|j: int|
            0 <= j < events.len() && is_timeout_event(
                #[trigger] events[j],
                device_id,
                b.spec_watchdogs()[i].channel,
                b.spec_watchdogs()[i].identifier,
                b.spec_watchdogs()[i].label@,
                b.spec_timeout_ms(),
                now,
                true,
            ),
{
    let w = b.spec_watchdogs()[i];
    assert(c.spec_watchdogs()[i].alarm_active == (w.alarm_active && !frame_feeds(w, channel, identifier, decoded_signal)));
    let ws = b.spec_watchdogs();
    lemma_restored_contains(ws, ws.len(), channel, identifier, decoded_signal, i);
    let r = restored_by(ws, ws.len(), channel, identifier, decoded_signal);
    let j = choose|j: int| 0 <= j < r.len() && r[j] == i;
    assert(is_timeout_event(events[j], device_id, w.channel, w.identifier, w.label@, b.spec_timeout_ms(), now, true));
}

/// The watchdog state of one CAN ingress.
pub struct SignalWatchdogs {
    watchdogs: Vec<SignalWatchdog>,
    timeout_ms: u64,
}

/// `r` watches the normalized targets of `config` on `channels` from
/// `started_ms` on: one watchdog per (channel, CAN id), with the label of
/// the last target for it, none raised; the timeout is at least 1 ms.
pub open spec fn started_watchdogs(
    r: SignalWatchdogs,
    config: CanSignalWatchdogConfig,
    channels: Seq<CanChannelConfig>,
    started_ms: u64,
) -> bool {
    &&& r.spec_timeout_ms() == if config.timeout_ms == 0 {
        1
    } else {
        config.timeout_ms
    }
    &&& all_fresh(r.spec_watchdogs(), started_ms)
    &&& distinct_watchdogs(r.spec_watchdogs())
    &&& all_latest(
        watched_targets(config, channels),
        watched_targets(config, channels).len() as int,
        r.spec_watchdogs(),
    )
    &&& all_covered(
        watched_targets(config, channels),
        watched_targets(config, channels).len() as int,
        r.spec_watchdogs(),
    )
}

/// `new` is `old` after a frame on `channel` with `identifier`, seen at
/// `observed_ms`: an RX frame resets every watchdog it feeds and restores
/// those raised, `events` reporting each restoration in watchdog order; a
/// TX frame changes nothing.
pub open spec fn marked(
    old: SignalWatchdogs,
    new: SignalWatchdogs,
    device_id: Seq<char>,
    channel: u8,
    identifier: u32,
    is_tx: bool,
    decoded_signal: bool,
    observed_ms: u64,
    now: SystemTime,
    events: Seq<AlarmEvent>,
) -> bool {
    &&& new.spec_timeout_ms() == old.spec_timeout_ms()
    &&& new.spec_watchdogs().len() == old.spec_watchdogs().len()
    &&& is_tx ==> events.len() == 0 && new.spec_watchdogs() == old.spec_watchdogs()
    &&& !is_tx ==> forall|i: int|
        0 <= i < old.spec_watchdogs().len() ==> {
            let w = #[trigger] old.spec_watchdogs()[i];
            let v = new.spec_watchdogs()[i];
            &&& v.channel == w.channel
            &&& v.identifier == w.identifier
            &&& v.label == w.label
            &&& v.last_seen_ms == if frame_feeds(w, channel, identifier, decoded_signal) {
                observed_ms
            } else {
                w.last_seen_ms
            }
            &&& v.alarm_active == (w.alarm_active && !frame_feeds(w, channel, identifier, decoded_signal))
        }
    &&& !is_tx ==> ({
        let restored = restored_by(
            old.spec_watchdogs(),
            old.spec_watchdogs().len(),
            channel,
            identifier,
            decoded_signal,
        );
        &&& events.len() == restored.len()
        &&& forall|j: int|
            0 <= j < events.len() ==> {
                let w = old.spec_watchdogs()[restored[j]];
                is_timeout_event(
                    #[trigger] events[j],
                    device_id,
                    w.channel,
                    w.identifier,
                    w.label@,
                    old.spec_timeout_ms(),
                    now,
                    true,
                )
            }
    })
}

/// A frame that carries no decodable signal feeds no watchdog without a CAN
/// id: each keeps its last-seen time and its alarm, and none is restored.
pub proof fn lemma_undecoded_frame_feeds_no_any_watchdog(
    old: SignalWatchdogs,
    new: SignalWatchdogs,
    device_id: Seq<char>,
    channel: u8,
    identifier: u32,
    is_tx: bool,
    observed_ms: u64,
    now: SystemTime,
    events: Seq<AlarmEvent>,
    i: int,
)
    requires
        marked(old, new, device_id, channel, identifier, is_tx, false, observed_ms, now, events),
        0 <= i < old.spec_watchdogs().len(),
        old.spec_watchdogs()[i].identifier is None,
    ensures
        new.spec_watchdogs()[i].last_seen_ms == old.spec_watchdogs()[i].last_seen_ms,
        new.spec_watchdogs()[i].alarm_active == old.spec_watchdogs()[i].alarm_active,
        !restored_by(old.spec_watchdogs(), old.spec_watchdogs().len(), channel, identifier, false).contains(i),
{
    lemma_unfed_not_restored(old.spec_watchdogs(), old.spec_watchdogs().len(), channel, identifier, false, i);
}

proof fn lemma_unfed_not_restored(
    ws: Seq<SignalWatchdog>,
    n: nat,
    channel: u8,
    identifier: u32,
    decoded: bool,
    i: int,
)
    requires
        n <= ws.len(),
        !frame_feeds(ws[i], channel, identifier, decoded),
    ensures
        !restored_by(ws, n, channel, identifier, decoded).contains(i),
    decreases n,
{
    if n > 0 {
        lemma_unfed_not_restored(ws, (n - 1) as nat, channel, identifier, decoded, i);
        let prev = restored_by(ws, (n - 1) as nat, channel, identifier, decoded);
        let r = restored_by(ws, n, channel, identifier, decoded);
        if r.contains(i) {
            let k = choose|k: int| 0 <= k < r.len() && r[k] == i;
            if k < prev.len() {
                assert(prev[k] == i);
            }
        }
    }
}

/// `new` is `old` polled at `now_ms`: every watchdog not raised whose signal
/// has been quiet for the timeout is raised, `events` reporting each, in
/// watchdog order, for the device of its channel on `hardware_name`.
pub open spec fn polled(
    old: SignalWatchdogs,
    new: SignalWatchdogs,
    hardware_name: Seq<char>,
    now_ms: u64,
    wall_time: SystemTime,
    events: Seq<AlarmEvent>,
) -> bool {
    &&& new.spec_timeout_ms() == old.spec_timeout_ms()
    &&& new.spec_watchdogs().len() == old.spec_watchdogs().len()
    &&& forall|i: int|
        0 <= i < old.spec_watchdogs().len() ==> {
            let w = #[trigger] old.spec_watchdogs()[i];
            let v = new.spec_watchdogs()[i];
            &&& v.channel == w.channel
            &&& v.identifier == w.identifier
            &&& v.label == w.label
            &&& v.last_seen_ms == w.last_seen_ms
            &&& v.alarm_active == (w.alarm_active || elapsed_ms(now_ms, w.last_seen_ms)
                >= old.spec_timeout_ms())
        }
    &&& ({
        let fired = timed_out(old.spec_watchdogs(), old.spec_watchdogs().len(), now_ms, old.spec_timeout_ms());
        &&& events.len() == fired.len()
        &&& forall|j: int|
            0 <= j < events.len() ==> {
                let w = old.spec_watchdogs()[fired[j]];
                is_timeout_event(
                    #[trigger] events[j],
                    device_id_text(hardware_name, w.channel),
                    w.channel,
                    w.identifier,
                    w.label@,
                    old.spec_timeout_ms(),
                    wall_time,
                    false,
                )
            }
    })
}

impl SignalWatchdogs {
    /// No watchdog; a stand-in while the real state is borrowed.
    pub(crate) fn empty() -> (r: Self)
        ensures
            r.spec_watchdogs().len() == 0,
    {
        SignalWatchdogs { watchdogs: Vec::new(), timeout_ms: 1 }
    }

    pub closed spec fn spec_watchdogs(&self) -> Seq<SignalWatchdog> {
        self.watchdogs@
    }

    pub closed spec fn spec_timeout_ms(&self) -> u64 {
        self.timeout_ms
    }

    /// The (channel, CAN id) pairs watched, in watchdog order.
    pub fn watched_signals(&self) -> (r: Vec<(u8, Option<u32>)>)
        ensures
            r@.len() == self.spec_watchdogs().len(),
            forall|i: int|
                0 <= i < r@.len() ==> (#[trigger] r@[i]) == (self.spec_watchdogs()[i].channel, self.spec_watchdogs()[i].identifier),
    {
        let mut r: Vec<(u8, Option<u32>)> = Vec::new();
        let mut i: usize = 0;
        while i < self.watchdogs.len()
            invariant
                i <= self.watchdogs@.len(),
                r@.len() == i,
                forall|k: int|
                    0 <= k < i ==> (#[trigger] r@[k]) == (self.watchdogs@[k].channel, self.watchdogs@[k].identifier),
            decreases self.watchdogs@.len() - i,
        {
            r.push((self.watchdogs[i].channel, self.watchdogs[i].identifier));
            i = i + 1;
        }
        r
    }

    /// Watches the normalized targets of `config` from `started_ms` on, one
    /// watchdog per (channel, CAN id) carrying the label of the last target
    /// with that pair. The timeout is at least 1 ms.
    pub fn new(config: &CanSignalWatchdogConfig, channels: &[CanChannelConfig], started_ms: u64) -> (r: Self)
        ensures
            started_watchdogs(r, *config, channels@, started_ms),
    {
        let targets = normalized_watchdog_targets(config, channels);
        let ghost ts = watched_targets(*config, channels@);
        proof {
            assert forall|k: int| 0 <= k < targets@.len() implies #[trigger] ts[k] == target_entry(
                targets@[k],
            ) by {
                assert(targets@.map_values(|t: CanSignalWatchdogTarget| target_entry(t))[k]
                    == target_entry(targets@[k]));
            }
        }
        let mut watchdogs: Vec<SignalWatchdog> = Vec::new();
        let mut i: usize = 0;
        while i < targets.len()
            invariant
                i <= targets@.len(),
                ts.len() == targets@.len(),
                forall|k: int| 0 <= k < targets@.len() ==> #[trigger] ts[k] == target_entry(targets@[k]),
                distinct_watchdogs(watchdogs@),
                all_latest(ts, i as int, watchdogs@),
                all_covered(ts, i as int, watchdogs@),
                all_fresh(watchdogs@, started_ms),
            decreases targets@.len() - i,
        {
            let channel = targets[i].channel;
            let identifier = targets[i].identifier;
            let found = find_watchdog(&watchdogs, channel, identifier);
            let w = SignalWatchdog {
                channel,
                identifier,
                label: targets[i].label.clone(),
                last_seen_ms: started_ms,
                alarm_active: false,
            };
            let ghost before = watchdogs@;
            assert(ts[i as int] == target_entry(targets@[i as int]));
            match found {
                Some(p) => {
                    proof {
                        lemma_watch_replace(ts, i as int, before, p as int, w, started_ms);
                    }
                    watchdogs.set(p, w);
                },
                None => {
                    proof {
                        lemma_watch_push(ts, i as int, before, w, started_ms);
                    }
                    watchdogs.push(w);
                },
            }
            i = i + 1;
        }
        let timeout_ms = if config.timeout_ms == 0 {
            1
        } else {
            config.timeout_ms
        };
        SignalWatchdogs { watchdogs, timeout_ms }
    }

    /// Records a frame seen at `observed_ms`: every watchdog it feeds is
    /// reset, and those that were raised are restored, each restoration
    /// reported in watchdog order. Frames this side transmitted are ignored.
    pub fn mark_signal_received(
        &mut self,
        device_id: &str,
        channel: u8,
        identifier: u32,
        is_tx: bool,
        decoded_signal: bool,
        observed_ms: u64,
        now: SystemTime,
    ) -> (events: Vec<AlarmEvent>)
        ensures
            marked(
                *old(self),
                *final(self),
                device_id@,
                channel,
                identifier,
                is_tx,
                decoded_signal,
                observed_ms,
                now,
                events@,
            ),
    {
        let mut events: Vec<AlarmEvent> = Vec::new();
        if is_tx {
            return events;
        }
        let ghost old_ws = self.watchdogs@;
        let mut i: usize = 0;
        while i < self.watchdogs.len()
            invariant
                i <= self.watchdogs@.len(),
                self.watchdogs@.len() == old_ws.len(),
                self.timeout_ms == old(self).timeout_ms,
                old_ws == old(self).watchdogs@,
                forall|x: int| i <= x < old_ws.len() ==> self.watchdogs@[x] == old_ws[x],
                forall|x: int|
                    0 <= x < i ==> {
                        let w = #[trigger] old_ws[x];
                        let v = self.watchdogs@[x];
                        &&& v.channel == w.channel
                        &&& v.identifier == w.identifier
                        &&& v.label == w.label
                        &&& v.last_seen_ms == if frame_feeds(w, channel, identifier, decoded_signal) {
                            observed_ms
                        } else {
                            w.last_seen_ms
                        }
                        &&& v.alarm_active == (w.alarm_active && !frame_feeds(
                            w,
                            channel,
                            identifier,
                            decoded_signal,
                        ))
                    },
                events@.len() == restored_by(old_ws, i as nat, channel, identifier, decoded_signal).len(),
                forall|j: int|
                    0 <= j < events@.len() ==> {
                        let w = old_ws[restored_by(old_ws, i as nat, channel, identifier, decoded_signal)[j]];
                        is_timeout_event(
                            #[trigger] events@[j],
                            device_id@,
                            w.channel,
                            w.identifier,
                            w.label@,
                            self.timeout_ms,
                            now,
                            true,
                        )
                    },
            decreases old_ws.len() - i,
        {
            let ghost prev = restored_by(old_ws, i as nat, channel, identifier, decoded_signal);
            let feeds = self.watchdogs[i].channel == channel && match self.watchdogs[i].identifier {
                Some(expected) => expected == identifier,
                None => decoded_signal,
            };
            assert(feeds == frame_feeds(old_ws[i as int], channel, identifier, decoded_signal));
            if feeds {
                if self.watchdogs[i].alarm_active {
                    let e = signal_timeout_alarm_event(
                        device_id,
                        &self.watchdogs[i],
                        self.timeout_ms,
                        now,
                        true,
                    );
                    events.push(e);
                }
                let w = SignalWatchdog {
                    channel: self.watchdogs[i].channel,
                    identifier: self.watchdogs[i].identifier,
                    label: self.watchdogs[i].label.clone(),
                    last_seen_ms: observed_ms,
                    alarm_active: false,
                };
                self.watchdogs.set(i, w);
            }
            assert(restored_by(old_ws, (i + 1) as nat, channel, identifier, decoded_signal) == if old_ws[i as int].alarm_active && feeds {
                prev.push(i as int)
            } else {
                prev
            });
            i = i + 1;
        }
        events
    }

    /// Raises, in watchdog order, every watchdog not raised yet whose signal
    /// has not been seen for the timeout by `now_ms`.
    pub fn poll_signal_timeouts(
        &mut self,
        config: &CanTransportConfig,
        now_ms: u64,
        wall_time: SystemTime,
    ) -> (events: Vec<AlarmEvent>)
        ensures
            polled(*old(self), *final(self), config.hardware_name@, now_ms, wall_time, events@),
    {
        let mut events: Vec<AlarmEvent> = Vec::new();
        let ghost old_ws = self.watchdogs@;
        let ghost timeout = self.timeout_ms;
        let mut i: usize = 0;
        while i < self.watchdogs.len()
            invariant
                i <= self.watchdogs@.len(),
                self.watchdogs@.len() == old_ws.len(),
                self.timeout_ms == timeout,
                timeout == old(self).timeout_ms,
                old_ws == old(self).watchdogs@,
                forall|x: int| i <= x < old_ws.len() ==> self.watchdogs@[x] == old_ws[x],
                forall|x: int|
                    0 <= x < i ==> {
                        let w = #[trigger] old_ws[x];
                        let v = self.watchdogs@[x];
                        &&& v.channel == w.channel
                        &&& v.identifier == w.identifier
                        &&& v.label == w.label
                        &&& v.last_seen_ms == w.last_seen_ms
                        &&& v.alarm_active == (w.alarm_active || elapsed_ms(now_ms, w.last_seen_ms) >= timeout)
                    },
                events@.len() == timed_out(old_ws, i as nat, now_ms, timeout).len(),
                forall|j: int|
                    0 <= j < events@.len() ==> {
                        let w = old_ws[timed_out(old_ws, i as nat, now_ms, timeout)[j]];
                        is_timeout_event(
                            #[trigger] events@[j],
                            device_id_text(config.hardware_name@, w.channel),
                            w.channel,
                            w.identifier,
                            w.label@,
                            timeout,
                            wall_time,
                            false,
                        )
                    },
            decreases old_ws.len() - i,
        {
            let ghost prev = timed_out(old_ws, i as nat, now_ms, timeout);
            let elapsed = if now_ms >= self.watchdogs[i].last_seen_ms {
                now_ms - self.watchdogs[i].last_seen_ms
            } else {
                0
            };
            let fires = !self.watchdogs[i].alarm_active && elapsed >= self.timeout_ms;
            if fires {
                let device_id = can_device_id(config, self.watchdogs[i].channel);
                let e = signal_timeout_alarm_event(
                    device_id.as_str(),
                    &self.watchdogs[i],
                    self.timeout_ms,
                    wall_time,
                    false,
                );
                events.push(e);
                let w = SignalWatchdog {
                    channel: self.watchdogs[i].channel,
                    identifier: self.watchdogs[i].identifier,
                    label: self.watchdogs[i].label.clone(),
                    last_seen_ms: self.watchdogs[i].last_seen_ms,
                    alarm_active: true,
                };
                self.watchdogs.set(i, w);
            }
            assert(timed_out(old_ws, (i + 1) as nat, now_ms, timeout) == if fires {
                prev.push(i as int)
            } else {
                prev
            });
            i = i + 1;
        }
        events
    }
}

} // verus!
