//! What the viewer shows: signal bindings of chart windows, replay modes,
//! alarm-record pages, and the names, ranks and ids of alarms.
use vstd::prelude::*;
use crate::alarm::{AlarmEvent, AlarmLevel, SentJumpLevel};
use crate::text::{
    chars_eq, chars_of, dec, parse_unsigned, parse_unsigned_spec, push_dec, push_signed_pad_dec,
    push_str, signed_pad_dec,
};
use crate::ui_time::{floor_div, DISPLAY_TZ_OFFSET_SECS};

verus! {

/// The group of test signals a chart window follows.
#[derive(Clone, Copy, Debug, PartialEq, Eq, Structural)]
pub enum TestSignalView {
    Demo,
    Sent,
    CanFrame,
    TcpFrame,
}

/// The signal a chart window plots.
#[derive(Clone, Copy, Debug, PartialEq, Eq, Structural)]
pub enum SignalBinding {
    DemoAxisX,
    DemoAxisY,
    DemoAxisZ,
    Sent1V1,
    Sent1P1,
    Sent2V2,
    Sent2P2,
    Sent3Angle,
    CanAxisX,
    CanAxisY,
    CanAxisZ,
    TcpSensor(usize),
}

impl SignalBinding {
    pub open spec fn spec_title_prefix(self) -> Seq<char> {
        match self {
            SignalBinding::DemoAxisX => "demo_x_"@,
            SignalBinding::DemoAxisY => "demo_y_"@,
            SignalBinding::DemoAxisZ => "demo_z_"@,
            SignalBinding::Sent1V1 => "sent_t1_angle_"@,
            SignalBinding::Sent1P1 => "sent_t1_torque_"@,
            SignalBinding::Sent2V2 => "sent_t2_angle_"@,
            SignalBinding::Sent2P2 => "sent_t2_torque_"@,
            SignalBinding::Sent3Angle => "sent_s_angle_"@,
            SignalBinding::CanAxisX => "can_x_"@,
            SignalBinding::CanAxisY => "can_y_"@,
            SignalBinding::CanAxisZ => "can_z_"@,
            SignalBinding::TcpSensor(id) => "tcp_sensor_"@ + dec(id as nat) + "_"@,
        }
    }

    /// The title of the `index`-th window showing this signal.
    pub fn title(self, index: u32) -> (r: String)
        ensures
            r@ == self.spec_title_prefix() + dec(index as nat),
    {
        let mut r = String::new();
        match self {
            SignalBinding::DemoAxisX => push_str(&mut r, "demo_x_"),
            SignalBinding::DemoAxisY => push_str(&mut r, "demo_y_"),
            SignalBinding::DemoAxisZ => push_str(&mut r, "demo_z_"),
            SignalBinding::Sent1V1 => push_str(&mut r, "sent_t1_angle_"),
            SignalBinding::Sent1P1 => push_str(&mut r, "sent_t1_torque_"),
            SignalBinding::Sent2V2 => push_str(&mut r, "sent_t2_angle_"),
            SignalBinding::Sent2P2 => push_str(&mut r, "sent_t2_torque_"),
            SignalBinding::Sent3Angle => push_str(&mut r, "sent_s_angle_"),
            SignalBinding::CanAxisX => push_str(&mut r, "can_x_"),
            SignalBinding::CanAxisY => push_str(&mut r, "can_y_"),
            SignalBinding::CanAxisZ => push_str(&mut r, "can_z_"),
            SignalBinding::TcpSensor(id) => {
                push_str(&mut r, "tcp_sensor_");
                push_dec(&mut r, id as u64);
                push_str(&mut r, "_");
            },
        }
        push_dec(&mut r, index as u64);
        r
    }

    pub open spec fn spec_sensor_id(self) -> usize {
        match self {
            SignalBinding::DemoAxisX => 0,
            SignalBinding::DemoAxisY => 1,
            SignalBinding::DemoAxisZ => 2,
            SignalBinding::Sent1V1 => 0,
            SignalBinding::Sent1P1 => 1,
            SignalBinding::Sent2V2 => 2,
            SignalBinding::Sent2P2 => 3,
            SignalBinding::Sent3Angle => 4,
            SignalBinding::CanAxisX => 0,
            SignalBinding::CanAxisY => 1,
            SignalBinding::CanAxisZ => 2,
            SignalBinding::TcpSensor(id) => id,
        }
    }

    /// The sensor id of the signal within its source.
    pub fn sensor_id(self) -> (r: usize)
        ensures
            r == self.spec_sensor_id(),
    {
        match self {
            SignalBinding::DemoAxisX => 0,
            SignalBinding::DemoAxisY => 1,
            SignalBinding::DemoAxisZ => 2,
            SignalBinding::Sent1V1 => 0,
            SignalBinding::Sent1P1 => 1,
            SignalBinding::Sent2V2 => 2,
            SignalBinding::Sent2P2 => 3,
            SignalBinding::Sent3Angle => 4,
            SignalBinding::CanAxisX => 0,
            SignalBinding::CanAxisY => 1,
            SignalBinding::CanAxisZ => 2,
            SignalBinding::TcpSensor(id) => id,
        }
    }

    /// Whether the signal is a TCP sensor series.
    pub fn uses_tcp_series(self) -> (r: bool)
        ensures
            r == (self is TcpSensor),
    {
        match self {
            SignalBinding::TcpSensor(_) => true,
            _ => false,
        }
    }

    pub open spec fn spec_chart_label(self) -> Option<Seq<char>> {
        match self {
            SignalBinding::DemoAxisX => Some("demo axis X"@),
            SignalBinding::DemoAxisY => Some("demo axis Y"@),
            SignalBinding::DemoAxisZ => Some("demo axis Z"@),
            SignalBinding::Sent1V1 => Some("SENT T1 angle"@),
            SignalBinding::Sent1P1 => Some("SENT T1 torque"@),
            SignalBinding::Sent2V2 => Some("SENT T2 angle"@),
            SignalBinding::Sent2P2 => Some("SENT T2 torque"@),
            SignalBinding::Sent3Angle => Some("SENT S angle"@),
            SignalBinding::CanAxisX => Some("CAN axis X"@),
            SignalBinding::CanAxisY => Some("CAN axis Y"@),
            SignalBinding::CanAxisZ => Some("CAN axis Z"@),
            SignalBinding::TcpSensor(_) => None,
        }
    }

    /// The legend of the signal's curve; none for TCP sensors.
    pub fn chart_label(self) -> (r: Option<&'static str>)
        ensures
            match r {
                Some(s) => self.spec_chart_label() == Some(s@),
                None => self.spec_chart_label() is None,
            },
    {
        match self {
            SignalBinding::DemoAxisX => Some("demo axis X"),
            SignalBinding::DemoAxisY => Some("demo axis Y"),
            SignalBinding::DemoAxisZ => Some("demo axis Z"),
            SignalBinding::Sent1V1 => Some("SENT T1 angle"),
            SignalBinding::Sent1P1 => Some("SENT T1 torque"),
            SignalBinding::Sent2V2 => Some("SENT T2 angle"),
            SignalBinding::Sent2P2 => Some("SENT T2 torque"),
            SignalBinding::Sent3Angle => Some("SENT S angle"),
            SignalBinding::CanAxisX => Some("CAN axis X"),
            SignalBinding::CanAxisY => Some("CAN axis Y"),
            SignalBinding::CanAxisZ => Some("CAN axis Z"),
            SignalBinding::TcpSensor(_) => None,
        }
    }

    /// Whether the signal is one of the three CAN axes.
    pub fn is_can_axis(self) -> (r: bool)
        ensures
            r == (self is CanAxisX || self is CanAxisY || self is CanAxisZ),
    {
        match self {
            SignalBinding::CanAxisX | SignalBinding::CanAxisY | SignalBinding::CanAxisZ => true,
            _ => false,
        }
    }

    pub open spec fn spec_value_label(self) -> Seq<char> {
        match self {
            SignalBinding::Sent1V1 | SignalBinding::Sent2V2 | SignalBinding::Sent3Angle => "angle"@,
            SignalBinding::Sent1P1 | SignalBinding::Sent2P2 => "torque"@,
            _ => "raw"@,
        }
    }

    /// What the plotted value is: an angle, a torque, or a raw value.
    pub fn value_label(self) -> (r: &'static str)
        ensures
            r@ == self.spec_value_label(),
    {
        match self {
            SignalBinding::Sent1V1 | SignalBinding::Sent2V2 | SignalBinding::Sent3Angle => "angle",
            SignalBinding::Sent1P1 | SignalBinding::Sent2P2 => "torque",
            _ => "raw",
        }
    }

    pub open spec fn spec_demo_derived_angle_id(self) -> Option<Seq<char>> {
        match self {
            SignalBinding::DemoAxisX => Some("sensor_0_angle"@),
            SignalBinding::DemoAxisY => Some("sensor_1_angle"@),
            SignalBinding::DemoAxisZ => Some("sensor_2_angle"@),
            _ => None,
        }
    }

    /// The derived angle signal of a demo axis.
    pub fn demo_derived_angle_id(self) -> (r: Option<&'static str>)
        ensures
            match r {
                Some(s) => self.spec_demo_derived_angle_id() == Some(s@),
                None => self.spec_demo_derived_angle_id() is None,
            },
    {
        match self {
            SignalBinding::DemoAxisX => Some("sensor_0_angle"),
            SignalBinding::DemoAxisY => Some("sensor_1_angle"),
            SignalBinding::DemoAxisZ => Some("sensor_2_angle"),
            _ => None,
        }
    }
}

// ---------------------------------------------------------------------------
// Chart windows
// ---------------------------------------------------------------------------
/// The number the next group of chart windows of each view gets.
#[derive(Clone, Copy, Debug, PartialEq, Eq, Structural)]
pub struct WindowGroups {
    pub demo: u32,
    pub sent: u32,
    pub can: u32,
    pub tcp: u32,
}

impl WindowGroups {
    /// Every view starts at group 1.
    pub fn new() -> (r: Self)
        ensures
            r == (WindowGroups { demo: 1, sent: 1, can: 1, tcp: 1 }),
    {
        WindowGroups { demo: 1, sent: 1, can: 1, tcp: 1 }
    }
}

pub open spec fn next_index(i: u32) -> u32 {
    if i == u32::MAX {
        i
    } else {
        (i + 1) as u32
    }
}

/// The group number a new window group of `view` gets.
pub open spec fn group_index(g: WindowGroups, view: TestSignalView) -> u32 {
    match view {
        TestSignalView::Demo => g.demo,
        TestSignalView::Sent => g.sent,
        TestSignalView::CanFrame => g.can,
        TestSignalView::TcpFrame => g.tcp,
    }
}

/// The group numbers after a group of `view` was opened.
pub open spec fn groups_after(g: WindowGroups, view: TestSignalView) -> WindowGroups {
    match view {
        TestSignalView::Demo => WindowGroups { demo: next_index(g.demo), ..g },
        TestSignalView::Sent => WindowGroups { sent: next_index(g.sent), ..g },
        TestSignalView::CanFrame => WindowGroups { can: next_index(g.can), ..g },
        TestSignalView::TcpFrame => WindowGroups { tcp: next_index(g.tcp), ..g },
    }
}

/// The highest TCP sensor shown in the windows (0 when none is).
pub open spec fn max_tcp_sensor(bindings: Seq<Option<SignalBinding>>) -> usize
    decreases bindings.len(),
{
    if bindings.len() == 0 {
        0
    } else {
        let m = max_tcp_sensor(bindings.drop_last());
        match bindings.last() {
            Some(SignalBinding::TcpSensor(id)) => if id > m {
                id
            } else {
                m
            },
            _ => m,
        }
    }
}

/// The signals of a new window group of `view`: each axis of the view; for
/// TCP frames four sensors from the highest one already shown (fewer at
/// the end of the range).
pub open spec fn group_bindings(view: TestSignalView, start_sensor: usize) -> Seq<SignalBinding> {
    match view {
        TestSignalView::Demo => seq![SignalBinding::DemoAxisX, SignalBinding::DemoAxisY, SignalBinding::DemoAxisZ],
        TestSignalView::Sent => seq![
            SignalBinding::Sent1V1,
            SignalBinding::Sent1P1,
            SignalBinding::Sent2V2,
            SignalBinding::Sent2P2,
            SignalBinding::Sent3Angle,
        ],
        TestSignalView::CanFrame => seq![SignalBinding::CanAxisX, SignalBinding::CanAxisY, SignalBinding::CanAxisZ],
        TestSignalView::TcpFrame => Seq::new(
            (if start_sensor + 4 > usize::MAX {
                usize::MAX - start_sensor
            } else {
                4
            }) as nat,
            |i: int| SignalBinding::TcpSensor((start_sensor + i) as usize),
        ),
    }
}

fn max_tcp_sensor_exec(bindings: &[Option<SignalBinding>]) -> (r: usize)
    ensures
        r == max_tcp_sensor(bindings@),
{
    let mut m: usize = 0;
    let mut i: usize = 0;
    while i < bindings.len()
        invariant
            i <= bindings@.len(),
            m == max_tcp_sensor(bindings@.take(i as int)),
        decreases bindings@.len() - i,
    {
        proof {
            assert(bindings@.take(i + 1).drop_last() =~= bindings@.take(i as int));
        }
        match bindings[i] {
            Some(SignalBinding::TcpSensor(id)) => {
                if id > m {
                    m = id;
                }
            },
            _ => {},
        }
        i = i + 1;
    }
    assert(bindings@.take(i as int) =~= bindings@);
    m
}

/// Opens a new group of chart windows for `view`: the title and signal of
/// each window, in order; the view's group number moves on.
pub fn next_window_group(
    view: TestSignalView,
    groups: &mut WindowGroups,
    existing: &[Option<SignalBinding>],
) -> (r: Vec<(String, SignalBinding)>)
    ensures
        *final(groups) == groups_after(*old(groups), view),
        r@.len() == group_bindings(view, max_tcp_sensor(existing@)).len(),
        forall|i: int|
            0 <= i < r@.len() ==> (#[trigger] r@[i]).1 == group_bindings(view, max_tcp_sensor(existing@))[i]
                && r@[i].0@ == r@[i].1.spec_title_prefix() + dec(group_index(*old(groups), view) as nat),
{
    let index = match view {
        TestSignalView::Demo => groups.demo,
        TestSignalView::Sent => groups.sent,
        TestSignalView::CanFrame => groups.can,
        TestSignalView::TcpFrame => groups.tcp,
    };
    let start = max_tcp_sensor_exec(existing);
    let mut bindings: Vec<SignalBinding> = Vec::new();
    match view {
        TestSignalView::Demo => {
            bindings.push(SignalBinding::DemoAxisX);
            bindings.push(SignalBinding::DemoAxisY);
            bindings.push(SignalBinding::DemoAxisZ);
        },
        TestSignalView::Sent => {
            bindings.push(SignalBinding::Sent1V1);
            bindings.push(SignalBinding::Sent1P1);
            bindings.push(SignalBinding::Sent2V2);
            bindings.push(SignalBinding::Sent2P2);
            bindings.push(SignalBinding::Sent3Angle);
        },
        TestSignalView::CanFrame => {
            bindings.push(SignalBinding::CanAxisX);
            bindings.push(SignalBinding::CanAxisY);
            bindings.push(SignalBinding::CanAxisZ);
        },
        TestSignalView::TcpFrame => {
            let end: usize = if start > usize::MAX - 4 {
                usize::MAX
            } else {
                start + 4
            };
            let mut id = start;
            while id < end
                invariant
                    start <= id <= end,
                    end - start <= 4,
                    end == if start + 4 > usize::MAX {
                        usize::MAX as int
                    } else {
                        start + 4
                    },
                    bindings@ == Seq::new(
                        (id - start) as nat,
                        |i: int| SignalBinding::TcpSensor((start + i) as usize),
                    ),
                decreases end - id,
            {
                bindings.push(SignalBinding::TcpSensor(id));
                id = id + 1;
                assert(bindings@ =~= Seq::new(
                    (id - start) as nat,
                    |i: int| SignalBinding::TcpSensor((start + i) as usize),
                ));
            }
        },
    }
    proof {
        assert(bindings@ =~= group_bindings(view, start));
    }
    let mut r: Vec<(String, SignalBinding)> = Vec::new();
    let mut i: usize = 0;
    while i < bindings.len()
        invariant
            i <= bindings@.len(),
            bindings@ == group_bindings(view, start),
            start == max_tcp_sensor(existing@),
            index == group_index(*old(groups), view),
            r@.len() == i,
            forall|j: int|
                0 <= j < i ==> (#[trigger] r@[j]).1 == bindings@[j] && r@[j].0@
                    == r@[j].1.spec_title_prefix() + dec(index as nat),
        decreases bindings@.len() - i,
    {
        let b = bindings[i];
        r.push((b.title(index), b));
        i = i + 1;
    }
    match view {
        TestSignalView::Demo => groups.demo = if index == u32::MAX { index } else { index + 1 },
        TestSignalView::Sent => groups.sent = if index == u32::MAX { index } else { index + 1 },
        TestSignalView::CanFrame => groups.can = if index == u32::MAX { index } else { index + 1 },
        TestSignalView::TcpFrame => groups.tcp = if index == u32::MAX { index } else { index + 1 },
    }
    r
}

/// What the replay window loads.
#[derive(Clone, Copy, Debug, PartialEq, Eq, Structural)]
pub enum ReplayMode {
    Can3Axis,
    Sent,
}

impl ReplayMode {
    pub open spec fn spec_load_status(self) -> Seq<char> {
        match self {
            ReplayMode::Can3Axis => "正在加载 3轴 回放数据..."@,
            ReplayMode::Sent => "正在加载 SENT 回放数据..."@,
        }
    }

    /// The status shown while loading.
    pub fn load_status(self) -> (r: &'static str)
        ensures
            r@ == self.spec_load_status(),
    {
        match self {
            ReplayMode::Can3Axis => "正在加载 3轴 回放数据...",
            ReplayMode::Sent => "正在加载 SENT 回放数据...",
        }
    }

    pub open spec fn spec_empty_status(self) -> Seq<char> {
        match self {
            ReplayMode::Can3Axis => "该时间段没有 3轴 数据"@,
            ReplayMode::Sent => "该时间段没有 SENT 数据"@,
        }
    }

    /// The status shown when the range holds no data.
    pub fn empty_status(self) -> (r: &'static str)
        ensures
            r@ == self.spec_empty_status(),
    {
        match self {
            ReplayMode::Can3Axis => "该时间段没有 3轴 数据",
            ReplayMode::Sent => "该时间段没有 SENT 数据",
        }
    }

    pub open spec fn spec_export_header(self) -> Seq<char> {
        match self {
            ReplayMode::Can3Axis => "# CAN 3-axis export"@,
            ReplayMode::Sent => "# SENT export"@,
        }
    }

    /// The first line of an export file.
    pub fn export_header(self) -> (r: &'static str)
        ensures
            r@ == self.spec_export_header(),
    {
        match self {
            ReplayMode::Can3Axis => "# CAN 3-axis export",
            ReplayMode::Sent => "# SENT export",
        }
    }

    pub open spec fn spec_series_labels(self) -> Seq<Seq<char>> {
        match self {
            ReplayMode::Can3Axis => seq!["X"@, "Y"@, "Z"@, ""@, ""@],
            ReplayMode::Sent => seq!["T1 angle"@, "T1 torque"@, "T2 angle"@, "T2 torque"@, "S angle"@],
        }
    }

    /// The legends of the five series.
    pub fn series_labels(self) -> (r: [&'static str; 5])
        ensures
            forall|i: int| 0 <= i < 5 ==> (#[trigger] r@[i])@ == self.spec_series_labels()[i],
    {
        match self {
            ReplayMode::Can3Axis => ["X", "Y", "Z", "", ""],
            ReplayMode::Sent => ["T1 angle", "T1 torque", "T2 angle", "T2 torque", "S angle"],
        }
    }

    pub open spec fn spec_axis_filters(self) -> Seq<Seq<char>> {
        match self {
            ReplayMode::Can3Axis => seq!["x"@, "y"@, "z"@, "__unused_4__"@, "__unused_5__"@],
            ReplayMode::Sent => seq![
                "t1_angle"@,
                "t1_torque"@,
                "t2_angle"@,
                "t2_torque"@,
                "s_angle"@,
            ],
        }
    }

    /// The stored axis names of the five series.
    pub fn axis_filters(self) -> (r: [&'static str; 5])
        ensures
            forall|i: int| 0 <= i < 5 ==> (#[trigger] r@[i])@ == self.spec_axis_filters()[i],
    {
        match self {
            ReplayMode::Can3Axis => ["x", "y", "z", "__unused_4__", "__unused_5__"],
            ReplayMode::Sent => ["t1_angle", "t1_torque", "t2_angle", "t2_torque", "s_angle"],
        }
    }
}

/// One stored alarm record.
#[derive(Clone, Debug)]
pub struct AlarmRecordRow {
    pub ts_ms: i64,
    pub device_id: String,
    pub alarm_id: String,
    pub level: String,
    pub message: String,
    pub cleared: bool,
}

/// One page of alarm records.
#[derive(Debug)]
pub struct AlarmRecordData {
    pub records: Vec<AlarmRecordRow>,
    pub page_index: i64,
    pub has_next: bool,
    pub total_count: i64,
}

impl AlarmRecordData {
    /// Whether the page holds no record.
    pub fn is_empty(&self) -> (r: bool)
        ensures
            r == (self.records@.len() == 0),
    {
        self.records.len() == 0
    }
}

/// The alarm-record window.
#[derive(Debug)]
pub struct AlarmRecordState {
    pub open: bool,
    pub loading: bool,
    pub status: String,
    pub pg_dsn: String,
    pub start_ts_input: String,
    pub end_ts_input: String,
    pub show_can_x: bool,
    pub show_can_y: bool,
    pub show_can_z: bool,
    pub show_can_timeout: bool,
    pub show_sent_t1: bool,
    pub show_sent_t2: bool,
    pub show_sent_s: bool,
    pub page_index: i64,
    pub has_next: bool,
    pub data: Option<AlarmRecordData>,
}

impl AlarmRecordState {
    /// A closed window, nothing loaded, every group shown, on the first page.
    pub fn new(pg_dsn: String) -> (r: Self)
        ensures
            !r.open && !r.loading,
            r.status@ == "未加载"@,
            r.pg_dsn == pg_dsn,
            r.start_ts_input@.len() == 0 && r.end_ts_input@.len() == 0,
            r.show_can_x && r.show_can_y && r.show_can_z && r.show_can_timeout,
            r.show_sent_t1 && r.show_sent_t2 && r.show_sent_s,
            r.page_index == 0 && !r.has_next,
            r.data is None,
    {
        AlarmRecordState {
            open: false,
            loading: false,
            status: String::from_str("未加载"),
            pg_dsn,
            start_ts_input: String::new(),
            end_ts_input: String::new(),
            show_can_x: true,
            show_can_y: true,
            show_can_z: true,
            show_can_timeout: true,
            show_sent_t1: true,
            show_sent_t2: true,
            show_sent_s: true,
            page_index: 0,
            has_next: false,
            data: None,
        }
    }
}

// ---------------------------------------------------------------------------
// Alarm names and ranks
// ---------------------------------------------------------------------------
pub open spec fn spec_alarm_level_rank(level: AlarmLevel) -> u8 {
    match level {
        AlarmLevel::Info => 1,
        AlarmLevel::Warning => 2,
        AlarmLevel::Critical => 3,
        AlarmLevel::Purple => 4,
    }
}

/// Severity rank: info 1 < warning 2 < critical 3 < purple 4.
pub fn alarm_level_rank(level: &AlarmLevel) -> (r: u8)
    ensures
        r == spec_alarm_level_rank(*level),
{
    match level {
        AlarmLevel::Info => 1,
        AlarmLevel::Warning => 2,
        AlarmLevel::Critical => 3,
        AlarmLevel::Purple => 4,
    }
}

/// The severity rank increases strictly with the alarm level: info below
/// warning below critical below purple, all above the rank 0 of an empty
/// panel.
pub proof fn lemma_rank_increases_with_level()
    ensures
        0 < spec_alarm_level_rank(AlarmLevel::Info),
        spec_alarm_level_rank(AlarmLevel::Info) < spec_alarm_level_rank(AlarmLevel::Warning),
        spec_alarm_level_rank(AlarmLevel::Warning) < spec_alarm_level_rank(AlarmLevel::Critical),
        spec_alarm_level_rank(AlarmLevel::Critical) < spec_alarm_level_rank(AlarmLevel::Purple),
{
}

pub open spec fn spec_alarm_level_text(level: AlarmLevel) -> Seq<char> {
    match level {
        AlarmLevel::Info => "INFO"@,
        AlarmLevel::Warning => "WARNING"@,
        AlarmLevel::Critical => "CRITICAL"@,
        AlarmLevel::Purple => "PURPLE"@,
    }
}

pub fn alarm_level_text(level: &AlarmLevel) -> (r: &'static str)
    ensures
        r@ == spec_alarm_level_text(*level),
{
    match level {
        AlarmLevel::Info => "INFO",
        AlarmLevel::Warning => "WARNING",
        AlarmLevel::Critical => "CRITICAL",
        AlarmLevel::Purple => "PURPLE",
    }
}

pub open spec fn spec_sent_jump_level_text(level: SentJumpLevel) -> Seq<char> {
    match level {
        SentJumpLevel::Normal => "OK"@,
        SentJumpLevel::Warning => "WARN"@,
        SentJumpLevel::Critical => "RED"@,
        SentJumpLevel::Purple => "PURPLE"@,
    }
}

pub fn sent_jump_level_text(level: SentJumpLevel) -> (r: &'static str)
    ensures
        r@ == spec_sent_jump_level_text(level),
{
    match level {
        SentJumpLevel::Normal => "OK",
        SentJumpLevel::Warning => "WARN",
        SentJumpLevel::Critical => "RED",
        SentJumpLevel::Purple => "PURPLE",
    }
}

/// The torque-jump alarm of a SENT torque sensor: T1 for sensor 1, T2
/// otherwise.
pub fn sent_jump_alarm_id(sensor_id: usize) -> (r: &'static str)
    ensures
        r@ == if sensor_id == 1 {
            "sent_torque_jump_t1"@
        } else {
            "sent_torque_jump_t2"@
        },
{
    if sensor_id == 1 {
        "sent_torque_jump_t1"
    } else {
        "sent_torque_jump_t2"
    }
}

pub open spec fn spec_sent_angle_jump_alarm_id(sensor_id: usize) -> Seq<char> {
    if sensor_id == 0 {
        "sent_angle_jump_t1"@
    } else if sensor_id == 2 {
        "sent_angle_jump_t2"@
    } else if sensor_id == 4 {
        "sent_angle_jump_s"@
    } else {
        "sent_angle_jump_unknown"@
    }
}

/// The angle-jump alarm of a SENT angle sensor.
pub fn sent_angle_jump_alarm_id(sensor_id: usize) -> (r: &'static str)
    ensures
        r@ == spec_sent_angle_jump_alarm_id(sensor_id),
{
    match sensor_id {
        0 => "sent_angle_jump_t1",
        2 => "sent_angle_jump_t2",
        4 => "sent_angle_jump_s",
        _ => "sent_angle_jump_unknown",
    }
}

/// `s[p..p+3]` is `:ch` and no later `:ch` follows.
pub open spec fn is_last_ch(s: Seq<char>, p: int) -> bool {
    &&& 0 <= p && p + 3 <= s.len()
    &&& s[p] == ':' && s[p + 1] == 'c' && s[p + 2] == 'h'
    &&& forall|q: int| p < q && q + 3 <= s.len() ==> !(#[trigger] s[q] == ':' && s[q + 1] == 'c' && s[q + 2] == 'h')
}

/// The channel of a CAN device id `...:ch<u8>`: the text after the last
/// `:ch`, when it is a `u8`.
pub open spec fn spec_can_channel_from_device_id(device_id: Seq<char>) -> Option<u8> {
    if exists|p: int| is_last_ch(device_id, p) {
        let p = choose|p: int| is_last_ch(device_id, p);
        match parse_unsigned_spec(device_id.skip(p + 3), 255) {
            Some(v) => Some(v as u8),
            None => None,
        }
    } else {
        None
    }
}

pub fn can_channel_from_device_id(device_id: &str) -> (r: Option<u8>)
    ensures
        r == spec_can_channel_from_device_id(device_id@),
{
    let v = chars_of(device_id);
    let n = v.len();
    if n < 3 {
        assert(!exists|p: int| is_last_ch(device_id@, p));
        return None;
    }
    let mut p: usize = n - 3;
    loop
        invariant
            v@ == device_id@,
            n == v@.len(),
            n >= 3,
            p + 3 <= n,
            forall|q: int| p < q && q + 3 <= n ==> !(#[trigger] v@[q] == ':' && v@[q + 1] == 'c' && v@[q + 2] == 'h'),
        decreases p,
    {
        if v[p] == ':' && v[p + 1] == 'c' && v[p + 2] == 'h' {
            proof {
                assert(is_last_ch(device_id@, p as int));
                assert forall|x: int| is_last_ch(device_id@, x) implies x == p by {
                    if x < p {
                        assert(!(device_id@[p as int] == ':' && device_id@[p + 1] == 'c' && device_id@[p + 2] == 'h'));
                    }
                }
                assert(v@.subrange(p + 3, n as int) =~= device_id@.skip(p + 3));
            }
            return match parse_unsigned(&v, p + 3, n, 255) {
                Some(x) => Some(x as u8),
                None => None,
            };
        }
        if p == 0 {
            proof {
                assert(!exists|x: int| is_last_ch(device_id@, x)) by {
                    if exists|x: int| is_last_ch(device_id@, x) {
                        let x = choose|x: int| is_last_ch(device_id@, x);
                        assert(x >= 0);
                    }
                }
            }
            return None;
        }
        p = p - 1;
    }
}

/// A signal-timeout alarm of a CAN channel.
pub open spec fn spec_is_can_signal_timeout(e: AlarmEvent) -> bool {
    e.alarm_id@.len() >= 19 && e.alarm_id@.take(19) == "can_signal_timeout_"@
        && spec_can_channel_from_device_id(e.device_id@) is Some
}

pub fn is_can_signal_timeout(event: &AlarmEvent) -> (r: bool)
    ensures
        r == spec_is_can_signal_timeout(*event),
{
    let id = chars_of(event.alarm_id.as_str());
    proof {
        reveal_strlit("can_signal_timeout_");
    }
    if id.len() < 19 {
        return false;
    }
    if !chars_eq(&id, 0, 19, "can_signal_timeout_") {
        assert(id@.subrange(0, 19) =~= id@.take(19));
        return false;
    }
    assert(id@.subrange(0, 19) =~= id@.take(19));
    can_channel_from_device_id(event.device_id.as_str()).is_some()
}

/// `hh:mm:ss` of a timestamp in the display time zone.
pub open spec fn spec_format_ts_ms(ts_ms: int) -> Seq<char> {
    let total = ts_ms / 1000 + DISPLAY_TZ_OFFSET_SECS;
    let secs = total % 86400;
    signed_pad_dec(secs / 3600, 2) + ":"@ + signed_pad_dec((secs % 3600) / 60, 2) + ":"@
        + signed_pad_dec(secs % 60, 2)
}

pub fn format_ts_ms(ts_ms: i64) -> (r: String)
    ensures
        r@ == spec_format_ts_ms(ts_ms as int),
{
    let total = floor_div(ts_ms, 1000) + DISPLAY_TZ_OFFSET_SECS;
    let days = floor_div(total, 86400);
    let secs = total - days * 86400;
    assert(secs == total % 86400 && 0 <= secs < 86400) by (nonlinear_arith)
        requires
            days == total / 86400,
            secs == total - days * 86400,
    ;
    let mut r = String::new();
    push_signed_pad_dec(&mut r, secs / 3600, 2);
    push_str(&mut r, ":");
    push_signed_pad_dec(&mut r, (secs % 3600) / 60, 2);
    push_str(&mut r, ":");
    push_signed_pad_dec(&mut r, secs % 60, 2);
    r
}

// ---------------------------------------------------------------------------
// Alarm-record groups
// ---------------------------------------------------------------------------
/// `s` starts with `p`.
pub open spec fn starts_with(s: Seq<char>, p: Seq<char>) -> bool {
    p.len() <= s.len() && s.take(p.len() as int) == p
}

/// `s` ends with `p`.
pub open spec fn ends_with(s: Seq<char>, p: Seq<char>) -> bool {
    p.len() <= s.len() && s.skip(s.len() - p.len()) == p
}

/// `p` occurs in `s`.
pub open spec fn contains_text(s: Seq<char>, p: Seq<char>) -> bool {
    exists|i: int| 0 <= i && i + p.len() <= s.len() && #[trigger] s.subrange(i, i + p.len()) == p
}

pub(crate) fn starts_with_exec(s: &Vec<char>, p: &str) -> (r: bool)
    ensures
        r == starts_with(s@, p@),
{
    let w = chars_of(p);
    if w.len() > s.len() {
        return false;
    }
    let r = chars_eq(s, 0, w.len(), p);
    assert(s@.subrange(0, w@.len() as int) =~= s@.take(w@.len() as int));
    r
}

pub(crate) fn ends_with_exec(s: &Vec<char>, p: &str) -> (r: bool)
    ensures
        r == ends_with(s@, p@),
{
    let w = chars_of(p);
    if w.len() > s.len() {
        return false;
    }
    let r = chars_eq(s, s.len() - w.len(), s.len(), p);
    assert(s@.subrange(s@.len() - w@.len(), s@.len() as int) =~= s@.skip(s@.len() - w@.len()));
    r
}

pub(crate) fn contains_exec(s: &Vec<char>, p: &str) -> (r: bool)
    ensures
        r == contains_text(s@, p@),
{
    let w = chars_of(p);
    if w.len() > s.len() {
        return false;
    }
    let n = s.len();
    let last = n - w.len();
    let mut i: usize = 0;
    loop
        invariant
            w@ == p@,
            n == s@.len(),
            w@.len() <= s@.len(),
            last == s@.len() - w@.len(),
            i <= last,
            forall|k: int| 0 <= k < i ==> #[trigger] s@.subrange(k, k + w@.len()) != p@,
        decreases last - i,
    {
        if chars_eq(s, i, i + w.len(), p) {
            return true;
        }
        if i == last {
            proof {
                assert forall|k: int| 0 <= k && k + p@.len() <= s@.len() implies #[trigger] s@.subrange(
                    k,
                    k + p@.len(),
                ) != p@ by {
                    if k < i {
                    } else {
                        assert(k == i);
                    }
                }
            }
            return false;
        }
        i = i + 1;
    }
}

/// The record of an alarm of CAN axis `axis` (`can_<axis>_…`).
pub fn alarm_record_matches_can_axis(row: &AlarmRecordRow, axis: &str) -> (r: bool)
    ensures
        r == starts_with(row.alarm_id@, "can_"@ + axis@ + "_"@),
{
    let id = chars_of(row.alarm_id.as_str());
    let mut prefix = String::new();
    push_str(&mut prefix, "can_");
    push_str(&mut prefix, axis);
    push_str(&mut prefix, "_");
    starts_with_exec(&id, prefix.as_str())
}

/// The record of a CAN signal timeout.
pub fn alarm_record_matches_can_timeout(row: &AlarmRecordRow) -> (r: bool)
    ensures
        r == starts_with(row.alarm_id@, "can_signal_timeout_"@),
{
    let id = chars_of(row.alarm_id.as_str());
    starts_with_exec(&id, "can_signal_timeout_")
}

pub open spec fn spec_matches_sent_part(row: AlarmRecordRow, part: Seq<char>) -> bool {
    if part == "t1"@ {
        ends_with(row.alarm_id@, "_t1"@) || contains_text(row.message@, "t1=1"@)
    } else if part == "t2"@ {
        ends_with(row.alarm_id@, "_t2"@) || contains_text(row.message@, "t2=1"@)
    } else if part == "s"@ {
        ends_with(row.alarm_id@, "_s"@) || contains_text(row.message@, "s=1"@)
    } else {
        false
    }
}

/// The record of an alarm of SENT part `part` (`t1`, `t2` or `s`): by its
/// id suffix, or by the part's error flag in its message.
pub fn alarm_record_matches_sent_part(row: &AlarmRecordRow, part: &str) -> (r: bool)
    ensures
        r == spec_matches_sent_part(*row, part@),
{
    let p = chars_of(part);
    let id = chars_of(row.alarm_id.as_str());
    let msg = chars_of(row.message.as_str());
    proof {
        assert(p@.subrange(0, p@.len() as int) =~= p@);
    }
    if chars_eq(&p, 0, p.len(), "t1") {
        ends_with_exec(&id, "_t1") || contains_exec(&msg, "t1=1")
    } else if chars_eq(&p, 0, p.len(), "t2") {
        ends_with_exec(&id, "_t2") || contains_exec(&msg, "t2=1")
    } else if chars_eq(&p, 0, p.len(), "s") {
        ends_with_exec(&id, "_s") || contains_exec(&msg, "s=1")
    } else {
        false
    }
}

/// The groups a record belongs to, in a fixed order.
pub open spec fn record_group_names(row: AlarmRecordRow) -> Seq<Seq<char>> {
    let g1 = if starts_with(row.alarm_id@, "can_x_"@) { seq!["CAN X"@] } else { Seq::empty() };
    let g2 = if starts_with(row.alarm_id@, "can_y_"@) { seq!["CAN Y"@] } else { Seq::empty() };
    let g3 = if starts_with(row.alarm_id@, "can_z_"@) { seq!["CAN Z"@] } else { Seq::empty() };
    let g4 = if starts_with(row.alarm_id@, "can_signal_timeout_"@) {
        seq!["CAN Timeout"@]
    } else {
        Seq::empty()
    };
    let g5 = if spec_matches_sent_part(row, "t1"@) { seq!["SENT T1"@] } else { Seq::empty() };
    let g6 = if spec_matches_sent_part(row, "t2"@) { seq!["SENT T2"@] } else { Seq::empty() };
    let g7 = if spec_matches_sent_part(row, "s"@) { seq!["SENT S"@] } else { Seq::empty() };
    g1 + g2 + g3 + g4 + g5 + g6 + g7
}

/// The names joined by `, `.
pub open spec fn joined(names: Seq<Seq<char>>) -> Seq<char>
    decreases names.len(),
{
    if names.len() == 0 {
        Seq::empty()
    } else if names.len() == 1 {
        names[0]
    } else {
        joined(names.drop_last()) + ", "@ + names.last()
    }
}

fn push_group(out: &mut String, count: &mut usize, name: &str, member: bool, names: Ghost<Seq<Seq<char>>>)
    requires
        old(out)@ == joined(names@),
        *old(count) == names@.len(),
        names@.len() < 8,
    ensures
        member ==> final(out)@ == joined(names@.push(name@)) && *final(count) == names@.len() + 1,
        !member ==> final(out)@ == old(out)@ && *final(count) == *old(count),
{
    if member {
        if *count > 0 {
            push_str(out, ", ");
        }
        push_str(out, name);
        proof {
            let n = names@.push(name@);
            assert(n.drop_last() =~= names@);
            if names@.len() == 0 {
                assert(joined(names@) =~= Seq::<char>::empty());
                assert(final(out)@ =~= name@);
            }
        }
        *count = *count + 1;
    }
}

/// The groups of a record joined by `, `, or `Other` when it belongs to
/// none.
#[verifier::spinoff_prover]
#[verifier::rlimit(50)]
pub fn alarm_record_groups(row: &AlarmRecordRow) -> (r: String)
    ensures
        r@ == if record_group_names(*row).len() == 0 {
            "Other"@
        } else {
            joined(record_group_names(*row))
        },
{
    let mut out = String::new();
    let mut count: usize = 0;
    let ghost mut names: Seq<Seq<char>> = Seq::empty();
    let id = chars_of(row.alarm_id.as_str());
    proof {
        reveal_strlit("can_x_");
        reveal_strlit("can_y_");
        reveal_strlit("can_z_");
    }
    let c1 = starts_with_exec(&id, "can_x_");
    push_group(&mut out, &mut count, "CAN X", c1, Ghost(names));
    proof { if c1 { names = names.push("CAN X"@); } }
    let c2 = starts_with_exec(&id, "can_y_");
    push_group(&mut out, &mut count, "CAN Y", c2, Ghost(names));
    proof { if c2 { names = names.push("CAN Y"@); } }
    let c3 = starts_with_exec(&id, "can_z_");
    push_group(&mut out, &mut count, "CAN Z", c3, Ghost(names));
    proof { if c3 { names = names.push("CAN Z"@); } }
    let c4 = alarm_record_matches_can_timeout(row);
    push_group(&mut out, &mut count, "CAN Timeout", c4, Ghost(names));
    proof { if c4 { names = names.push("CAN Timeout"@); } }
    let c5 = alarm_record_matches_sent_part(row, "t1");
    push_group(&mut out, &mut count, "SENT T1", c5, Ghost(names));
    proof { if c5 { names = names.push("SENT T1"@); } }
    let c6 = alarm_record_matches_sent_part(row, "t2");
    push_group(&mut out, &mut count, "SENT T2", c6, Ghost(names));
    proof { if c6 { names = names.push("SENT T2"@); } }
    let c7 = alarm_record_matches_sent_part(row, "s");
    push_group(&mut out, &mut count, "SENT S", c7, Ghost(names));
    proof { if c7 { names = names.push("SENT S"@); } }
    proof {
        assert(names =~= record_group_names(*row));
    }
    if count == 0 {
        String::from_str("Other")
    } else {
        out
    }
}

} // verus!
