//! What the viewer decides around its database requests: the time range
//! typed in, which series a replay exports, which page of alarm records to
//! fetch, and on which replayed series a stored alarm is drawn.
use vstd::prelude::*;
use crate::telemetry::TelemetrySourceKind;
use crate::text::{chars_of, trim, trim_bounds};
use crate::text::{push_dec, push_signed_dec, push_str, dec, signed_dec};
use crate::ui_models::{
    contains_exec, contains_text, starts_with, starts_with_exec, AlarmRecordData, AlarmRecordRow,
    AlarmRecordState, ReplayMode, TestSignalView,
};
use crate::ui_time::{
    format_datetime_input, parse_time_input, spec_datetime_input, spec_parse_time_input,
    time_input_fits,
};

verus! {

// ---------------------------------------------------------------------------
// Time ranges
// ---------------------------------------------------------------------------
/// Why a typed time range was refused.
#[derive(Clone, Copy, Debug, PartialEq, Eq, Structural)]
pub enum TimeRangeError {
    InvalidStart,
    InvalidEnd,
    NotIncreasing,
}

/// The range from `start` to `end`, both read as typed times, the end after
/// the start; the start is looked at first.
pub open spec fn spec_time_range(start: Seq<char>, end: Seq<char>) -> Result<(int, int), TimeRangeError> {
    match spec_parse_time_input(start) {
        None => Err(TimeRangeError::InvalidStart),
        Some(s) => match spec_parse_time_input(end) {
            None => Err(TimeRangeError::InvalidEnd),
            Some(e) => if e <= s {
                Err(TimeRangeError::NotIncreasing)
            } else {
                Ok((s, e))
            },
        },
    }
}

/// Both texts are read without leaving `i64` where they are read at all.
pub open spec fn time_range_fits(start: Seq<char>, end: Seq<char>) -> bool {
    &&& time_input_fits(start)
    &&& spec_parse_time_input(start) is Some ==> time_input_fits(end)
}

/// Whether reading the two texts stays within `i64`.
pub fn time_range_in_range(start: &str, end: &str) -> (r: bool)
    ensures
        r == time_range_fits(start@, end@),
{
    crate::ui_time::time_input_in_range(start) && (parse_time_input(start).is_none()
        || crate::ui_time::time_input_in_range(end))
}

/// Reads a start and an end time typed in the viewer.
pub fn parse_time_range(start: &str, end: &str) -> (r: Result<(i64, i64), TimeRangeError>)
    requires
        time_range_fits(start@, end@),
    ensures
        match r {
            Ok((s, e)) => spec_time_range(start@, end@) == Ok::<(int, int), TimeRangeError>(
                (s as int, e as int),
            ),
            Err(err) => spec_time_range(start@, end@) == Err::<(int, int), TimeRangeError>(err),
        },
{
    let s = match parse_time_input(start) {
        Some(v) => v,
        None => return Err(TimeRangeError::InvalidStart),
    };
    let e = match parse_time_input(end) {
        Some(v) => v,
        None => return Err(TimeRangeError::InvalidEnd),
    };
    if e <= s {
        return Err(TimeRangeError::NotIncreasing);
    }
    Ok((s, e))
}

// ---------------------------------------------------------------------------
// Replay requests
// ---------------------------------------------------------------------------
/// Why a replay load or export was not started.
#[derive(Clone, Copy, Debug, PartialEq, Eq, Structural)]
pub enum ReplayRequestError {
    /// The previous request has not finished.
    Busy,
    Range(TimeRangeError),
    /// An export with no series ticked.
    NoSeriesSelected,
}

/// The series of a replay, in the order of the mode's axis filters.
#[derive(Clone, Copy, Debug, PartialEq, Eq, Structural)]
pub enum ReplaySeries {
    X,
    Y,
    Z,
    U,
    V,
}

/// Which series an export writes.
#[derive(Clone, Copy, Debug, PartialEq, Eq, Structural)]
pub struct ReplaySelection {
    pub x: bool,
    pub y: bool,
    pub z: bool,
    pub u: bool,
    pub v: bool,
}

/// The range of a replay load, unless one is running.
pub open spec fn spec_plan_replay_load(loading: bool, start: Seq<char>, end: Seq<char>) -> Result<
    (int, int),
    ReplayRequestError,
> {
    if loading {
        Err(ReplayRequestError::Busy)
    } else {
        match spec_time_range(start, end) {
            Ok(range) => Ok(range),
            Err(e) => Err(ReplayRequestError::Range(e)),
        }
    }
}

/// Checks a replay load before it starts: none running, and a good range.
pub fn plan_can_replay_load(loading: bool, start: &str, end: &str) -> (r: Result<(i64, i64), ReplayRequestError>)
    requires
        !loading ==> time_range_fits(start@, end@),
    ensures
        match r {
            Ok((s, e)) => spec_plan_replay_load(loading, start@, end@) == Ok::<
                (int, int),
                ReplayRequestError,
            >((s as int, e as int)),
            Err(err) => spec_plan_replay_load(loading, start@, end@) == Err::<
                (int, int),
                ReplayRequestError,
            >(err),
        },
{
    if loading {
        return Err(ReplayRequestError::Busy);
    }
    match parse_time_range(start, end) {
        Ok(range) => Ok(range),
        Err(e) => Err(ReplayRequestError::Range(e)),
    }
}

/// The series an export writes: the three first as ticked, the two last
/// only in SENT mode.
pub open spec fn spec_export_selection(mode: ReplayMode, ticked: ReplaySelection) -> ReplaySelection {
    ReplaySelection {
        x: ticked.x,
        y: ticked.y,
        z: ticked.z,
        u: mode == ReplayMode::Sent && ticked.u,
        v: mode == ReplayMode::Sent && ticked.v,
    }
}

pub open spec fn any_selected(s: ReplaySelection) -> bool {
    s.x || s.y || s.z || s.u || s.v
}

/// The range and series of an export: none running, a good range, and at
/// least one series that the mode has.
pub open spec fn spec_plan_replay_export(
    exporting: bool,
    start: Seq<char>,
    end: Seq<char>,
    mode: ReplayMode,
    ticked: ReplaySelection,
) -> Result<(int, int, ReplaySelection), ReplayRequestError> {
    if exporting {
        Err(ReplayRequestError::Busy)
    } else {
        match spec_time_range(start, end) {
            Err(e) => Err(ReplayRequestError::Range(e)),
            Ok((s, e)) => if !any_selected(spec_export_selection(mode, ticked)) {
                Err(ReplayRequestError::NoSeriesSelected)
            } else {
                Ok((s, e, spec_export_selection(mode, ticked)))
            },
        }
    }
}

/// Checks an export before it starts.
pub fn plan_can_replay_export(
    exporting: bool,
    start: &str,
    end: &str,
    mode: ReplayMode,
    ticked: ReplaySelection,
) -> (r: Result<(i64, i64, ReplaySelection), ReplayRequestError>)
    requires
        !exporting ==> time_range_fits(start@, end@),
    ensures
        match r {
            Ok((s, e, sel)) => spec_plan_replay_export(exporting, start@, end@, mode, ticked) == Ok::<
                (int, int, ReplaySelection),
                ReplayRequestError,
            >((s as int, e as int, sel)),
            Err(err) => spec_plan_replay_export(exporting, start@, end@, mode, ticked) == Err::<
                (int, int, ReplaySelection),
                ReplayRequestError,
            >(err),
        },
{
    if exporting {
        return Err(ReplayRequestError::Busy);
    }
    let (s, e) = match parse_time_range(start, end) {
        Ok(range) => range,
        Err(err) => return Err(ReplayRequestError::Range(err)),
    };
    let sent = match mode {
        ReplayMode::Sent => true,
        ReplayMode::Can3Axis => false,
    };
    let sel = ReplaySelection {
        x: ticked.x,
        y: ticked.y,
        z: ticked.z,
        u: sent && ticked.u,
        v: sent && ticked.v,
    };
    if !(sel.x || sel.y || sel.z || sel.u || sel.v) {
        return Err(ReplayRequestError::NoSeriesSelected);
    }
    Ok((s, e, sel))
}

pub open spec fn spec_replay_refusal_text(err: ReplayRequestError, exporting: bool) -> Seq<char> {
    match err {
        ReplayRequestError::Busy => if exporting {
            "正在导出，请稍候..."@
        } else {
            "正在加载，请稍候"@
        },
        ReplayRequestError::Range(TimeRangeError::InvalidStart) => "开始时间请输入 ts_ms 或 YYYY-MM-DD HH:MM:SS"@,
        ReplayRequestError::Range(TimeRangeError::InvalidEnd) => "结束时间请输入 ts_ms 或 YYYY-MM-DD HH:MM:SS"@,
        ReplayRequestError::Range(TimeRangeError::NotIncreasing) => "结束时间必须大于开始时间"@,
        ReplayRequestError::NoSeriesSelected => "至少勾选一个轴后再导出"@,
    }
}

/// The status line shown when a replay load (or, with `exporting`, an
/// export) was not started.
pub fn replay_refusal_text(err: ReplayRequestError, exporting: bool) -> (r: &'static str)
    ensures
        r@ == spec_replay_refusal_text(err, exporting),
{
    match err {
        ReplayRequestError::Busy => if exporting {
            "正在导出，请稍候..."
        } else {
            "正在加载，请稍候"
        },
        ReplayRequestError::Range(TimeRangeError::InvalidStart) => "开始时间请输入 ts_ms 或 YYYY-MM-DD HH:MM:SS",
        ReplayRequestError::Range(TimeRangeError::InvalidEnd) => "结束时间请输入 ts_ms 或 YYYY-MM-DD HH:MM:SS",
        ReplayRequestError::Range(TimeRangeError::NotIncreasing) => "结束时间必须大于开始时间",
        ReplayRequestError::NoSeriesSelected => "至少勾选一个轴后再导出",
    }
}

// ---------------------------------------------------------------------------
// Replayed alarms
// ---------------------------------------------------------------------------
/// The series a stored alarm is drawn on: in 3-axis mode by its axis
/// prefix; in SENT mode the torque jumps on the torque series and angle
/// jumps or error flags on the angle series of their part.
pub open spec fn spec_replay_alarm_series(mode: ReplayMode, alarm_id: Seq<char>, message: Seq<char>) -> Option<ReplaySeries> {
    match mode {
        ReplayMode::Can3Axis => if starts_with(alarm_id, "can_x_"@) {
            Some(ReplaySeries::X)
        } else if starts_with(alarm_id, "can_y_"@) {
            Some(ReplaySeries::Y)
        } else if starts_with(alarm_id, "can_z_"@) {
            Some(ReplaySeries::Z)
        } else {
            None
        },
        ReplayMode::Sent => if alarm_id == "sent_torque_jump_t1"@ {
            Some(ReplaySeries::Y)
        } else if alarm_id == "sent_angle_jump_t1"@ || contains_text(message, "t1=1"@) {
            Some(ReplaySeries::X)
        } else if alarm_id == "sent_torque_jump_t2"@ {
            Some(ReplaySeries::U)
        } else if alarm_id == "sent_angle_jump_t2"@ || contains_text(message, "t2=1"@) {
            Some(ReplaySeries::Z)
        } else if alarm_id == "sent_angle_jump_s"@ || contains_text(message, "s=1"@) {
            Some(ReplaySeries::V)
        } else {
            None
        },
    }
}

fn text_is(v: &Vec<char>, t: &str) -> (r: bool)
    ensures
        r == (v@ == t@),
{
    let r = crate::text::chars_eq(v, 0, v.len(), t);
    assert(v@.subrange(0, v@.len() as int) =~= v@);
    r
}

/// The series a stored alarm is drawn on in a replay, if any.
pub fn replay_alarm_series(mode: ReplayMode, alarm_id: &str, message: &str) -> (r: Option<ReplaySeries>)
    ensures
        r == spec_replay_alarm_series(mode, alarm_id@, message@),
{
    let id = chars_of(alarm_id);
    match mode {
        ReplayMode::Can3Axis => {
            if starts_with_exec(&id, "can_x_") {
                Some(ReplaySeries::X)
            } else if starts_with_exec(&id, "can_y_") {
                Some(ReplaySeries::Y)
            } else if starts_with_exec(&id, "can_z_") {
                Some(ReplaySeries::Z)
            } else {
                None
            }
        },
        ReplayMode::Sent => {
            let msg = chars_of(message);
            if text_is(&id, "sent_torque_jump_t1") {
                Some(ReplaySeries::Y)
            } else if text_is(&id, "sent_angle_jump_t1") || contains_exec(&msg, "t1=1") {
                Some(ReplaySeries::X)
            } else if text_is(&id, "sent_torque_jump_t2") {
                Some(ReplaySeries::U)
            } else if text_is(&id, "sent_angle_jump_t2") || contains_exec(&msg, "t2=1") {
                Some(ReplaySeries::Z)
            } else if text_is(&id, "sent_angle_jump_s") || contains_exec(&msg, "s=1") {
                Some(ReplaySeries::V)
            } else {
                None
            }
        },
    }
}

// ---------------------------------------------------------------------------
// Live samples
// ---------------------------------------------------------------------------
/// The view a live sample belongs to: by its source, or for an unknown
/// source by its device address, else the SENT view for the first five
/// sensors.
pub open spec fn spec_view_for_sample(kind: TelemetrySourceKind, device_id: Seq<char>, sensor_id: usize) -> Option<TestSignalView> {
    match kind {
        TelemetrySourceKind::SerialDemo => Some(TestSignalView::Demo),
        TelemetrySourceKind::SerialSent1 | TelemetrySourceKind::SerialSent2
        | TelemetrySourceKind::SerialSent3 | TelemetrySourceKind::CanSent => Some(TestSignalView::Sent),
        TelemetrySourceKind::CanAxis => Some(TestSignalView::CanFrame),
        TelemetrySourceKind::TcpFrame => Some(TestSignalView::TcpFrame),
        TelemetrySourceKind::Unknown | TelemetrySourceKind::FrameStream => if starts_with(device_id, "can://"@) {
            Some(TestSignalView::CanFrame)
        } else if starts_with(device_id, "tcp://"@) {
            Some(TestSignalView::TcpFrame)
        } else if sensor_id <= 4 {
            Some(TestSignalView::Sent)
        } else {
            None
        },
    }
}

/// The view a live sample belongs to, if any.
pub fn detect_view_for_sample(kind: TelemetrySourceKind, device_id: &str, sensor_id: usize) -> (r: Option<TestSignalView>)
    ensures
        r == spec_view_for_sample(kind, device_id@, sensor_id),
{
    match kind {
        TelemetrySourceKind::SerialDemo => Some(TestSignalView::Demo),
        TelemetrySourceKind::SerialSent1 | TelemetrySourceKind::SerialSent2
        | TelemetrySourceKind::SerialSent3 | TelemetrySourceKind::CanSent => Some(TestSignalView::Sent),
        TelemetrySourceKind::CanAxis => Some(TestSignalView::CanFrame),
        TelemetrySourceKind::TcpFrame => Some(TestSignalView::TcpFrame),
        TelemetrySourceKind::Unknown | TelemetrySourceKind::FrameStream => {
            let id = chars_of(device_id);
            if starts_with_exec(&id, "can://") {
                Some(TestSignalView::CanFrame)
            } else if starts_with_exec(&id, "tcp://") {
                Some(TestSignalView::TcpFrame)
            } else if sensor_id <= 4 {
                Some(TestSignalView::Sent)
            } else {
                None
            }
        },
    }
}

// ---------------------------------------------------------------------------
// Alarm-record pages
// ---------------------------------------------------------------------------
/// Records on one page.
pub const ALARM_RECORD_PAGE_SIZE: i64 = 50;

/// Time added before the first and after the last record of a page when a
/// replay is opened from it.
pub const ALARM_REPLAY_CONTEXT_MS: i64 = 30000;

/// Why a page of alarm records was not requested.
#[derive(Clone, Copy, Debug, PartialEq, Eq, Structural)]
pub enum RecordsRequestError {
    Busy,
    Range(TimeRangeError),
    NoGroupSelected,
}

/// A request for one page of alarm records: the range, the groups, where
/// the page starts, and how many rows to fetch (one more than a page, which
/// tells whether another page follows).
#[derive(Clone, Copy, Debug, PartialEq, Eq, Structural)]
pub struct AlarmRecordQuery {
    pub start_ts_ms: i64,
    pub end_ts_ms: i64,
    pub show_can_x: bool,
    pub show_can_y: bool,
    pub show_can_z: bool,
    pub show_can_timeout: bool,
    pub show_sent_t1: bool,
    pub show_sent_t2: bool,
    pub show_sent_s: bool,
    pub page_index: i64,
    pub offset: i64,
    pub fetch_limit: i64,
}

pub open spec fn any_group(st: AlarmRecordState) -> bool {
    st.show_can_x || st.show_can_y || st.show_can_z || st.show_can_timeout || st.show_sent_t1
        || st.show_sent_t2 || st.show_sent_s
}

/// The page asked for, never before the first.
pub open spec fn page_from(page_index: i64) -> int {
    if page_index < 0 {
        0
    } else {
        page_index as int
    }
}

/// The request for page `page_index` of the window's range and groups.
pub open spec fn spec_records_query(st: AlarmRecordState, page_index: i64) -> Result<
    AlarmRecordQuery,
    RecordsRequestError,
> {
    if st.loading {
        Err(RecordsRequestError::Busy)
    } else {
        match spec_time_range(st.start_ts_input@, st.end_ts_input@) {
            Err(e) => Err(RecordsRequestError::Range(e)),
            Ok((s, e)) => if !any_group(st) {
                Err(RecordsRequestError::NoGroupSelected)
            } else {
                Ok(
                    AlarmRecordQuery {
                        start_ts_ms: s as i64,
                        end_ts_ms: e as i64,
                        show_can_x: st.show_can_x,
                        show_can_y: st.show_can_y,
                        show_can_z: st.show_can_z,
                        show_can_timeout: st.show_can_timeout,
                        show_sent_t1: st.show_sent_t1,
                        show_sent_t2: st.show_sent_t2,
                        show_sent_s: st.show_sent_s,
                        page_index: page_from(page_index) as i64,
                        offset: (page_from(page_index) * ALARM_RECORD_PAGE_SIZE) as i64,
                        fetch_limit: (ALARM_RECORD_PAGE_SIZE + 1) as i64,
                    },
                )
            },
        }
    }
}

pub open spec fn spec_records_refusal_text(err: RecordsRequestError) -> Seq<char> {
    match err {
        RecordsRequestError::Busy => "正在加载，请稍候"@,
        RecordsRequestError::Range(TimeRangeError::InvalidStart) => "开始时间无效"@,
        RecordsRequestError::Range(TimeRangeError::InvalidEnd) => "结束时间无效"@,
        RecordsRequestError::Range(TimeRangeError::NotIncreasing) => "结束时间必须大于开始时间"@,
        RecordsRequestError::NoGroupSelected => "至少选择一个分组"@,
    }
}

pub open spec fn spec_records_loading_text(page: int) -> Seq<char> {
    "正在加载第 "@ + dec((page + 1) as nat) + " 页报警记录..."@
}

/// The status line of a loaded page.
pub open spec fn spec_records_loaded_text(data: AlarmRecordData) -> Seq<char> {
    if data.records@.len() == 0 {
        "page "@ + signed_dec(data.page_index + 1) + " has no alarm records, total "@ + signed_dec(
            data.total_count as int,
        )
    } else {
        "page "@ + signed_dec(data.page_index + 1) + ", "@ + dec(data.records@.len()) + " alarm records, total "@
            + signed_dec(data.total_count as int)
    }
}

/// Every field but the status line and the loading flag is the same.
pub open spec fn same_window(a: AlarmRecordState, b: AlarmRecordState) -> bool {
    &&& a.open == b.open
    &&& a.pg_dsn == b.pg_dsn
    &&& a.start_ts_input == b.start_ts_input
    &&& a.end_ts_input == b.end_ts_input
    &&& a.show_can_x == b.show_can_x
    &&& a.show_can_y == b.show_can_y
    &&& a.show_can_z == b.show_can_z
    &&& a.show_can_timeout == b.show_can_timeout
    &&& a.show_sent_t1 == b.show_sent_t1
    &&& a.show_sent_t2 == b.show_sent_t2
    &&& a.show_sent_s == b.show_sent_s
    &&& a.page_index == b.page_index
    &&& a.has_next == b.has_next
    &&& a.data == b.data
}

/// The first `ALARM_RECORD_PAGE_SIZE` rows fetched, and whether more came.
pub open spec fn spec_record_page(rows: Seq<AlarmRecordRow>) -> (Seq<AlarmRecordRow>, bool) {
    if rows.len() > ALARM_RECORD_PAGE_SIZE {
        (rows.take(ALARM_RECORD_PAGE_SIZE as int), true)
    } else {
        (rows, false)
    }
}

/// A page of records from the rows fetched for it (at most one more than a
/// page).
pub fn alarm_record_page(rows: Vec<AlarmRecordRow>, page_index: i64, total_count: i64) -> (r: AlarmRecordData)
    ensures
        r.records@ == spec_record_page(rows@).0,
        r.has_next == spec_record_page(rows@).1,
        r.page_index == page_index,
        r.total_count == total_count,
{
    let mut records = rows;
    let has_next = records.len() > 50;
    if has_next {
        while records.len() > 50
            invariant
                50 <= records@.len() <= rows@.len(),
                forall|i: int| 0 <= i < records@.len() ==> records@[i] == rows@[i],
            decreases records@.len(),
        {
            records.pop();
        }
        assert(records@ =~= rows@.take(50));
    }
    AlarmRecordData { records, page_index, has_next, total_count }
}

impl AlarmRecordState {
    /// Starts a request for page `page_index`: returns what to fetch, with
    /// the window marked loading; or, when refused, only sets the status
    /// line to say why.
    pub fn begin_page_request(&mut self, page_index: i64) -> (r: Option<AlarmRecordQuery>)
        requires
            !old(self).loading ==> time_range_fits(
                old(self).start_ts_input@,
                old(self).end_ts_input@,
            ),
            page_index <= i64::MAX / ALARM_RECORD_PAGE_SIZE,
        ensures
            same_window(*final(self), *old(self)),
            match spec_records_query(*old(self), page_index) {
                Ok(q) => r == Some(q) && final(self).loading && final(self).status@
                    == spec_records_loading_text(page_from(page_index)),
                Err(e) => r is None && final(self).loading == old(self).loading
                    && final(self).status@ == spec_records_refusal_text(e),
            },
    {
        if self.loading {
            self.status = String::from_str("正在加载，请稍候");
            return None;
        }
        let (start_ts_ms, end_ts_ms) = match parse_time_range(
            self.start_ts_input.as_str(),
            self.end_ts_input.as_str(),
        ) {
            Ok(range) => range,
            Err(e) => {
                self.status = String::from_str(
                    match e {
                        TimeRangeError::InvalidStart => "开始时间无效",
                        TimeRangeError::InvalidEnd => "结束时间无效",
                        TimeRangeError::NotIncreasing => "结束时间必须大于开始时间",
                    },
                );
                return None;
            },
        };
        if !(self.show_can_x || self.show_can_y || self.show_can_z || self.show_can_timeout
            || self.show_sent_t1 || self.show_sent_t2 || self.show_sent_s) {
            self.status = String::from_str("至少选择一个分组");
            return None;
        }
        let page: i64 = if page_index < 0 {
            0
        } else {
            page_index
        };
        let q = AlarmRecordQuery {
            start_ts_ms,
            end_ts_ms,
            show_can_x: self.show_can_x,
            show_can_y: self.show_can_y,
            show_can_z: self.show_can_z,
            show_can_timeout: self.show_can_timeout,
            show_sent_t1: self.show_sent_t1,
            show_sent_t2: self.show_sent_t2,
            show_sent_s: self.show_sent_s,
            page_index: page,
            offset: page * ALARM_RECORD_PAGE_SIZE,
            fetch_limit: ALARM_RECORD_PAGE_SIZE + 1,
        };
        self.loading = true;
        let mut status = String::from_str("正在加载第 ");
        push_dec(&mut status, (page + 1) as u64);
        push_str(&mut status, " 页报警记录...");
        self.status = status;
        Some(q)
    }

    /// Takes the outcome of a page request: the page and its status line,
    /// or the error; the window is no longer loading.
    pub fn finish_page_request(&mut self, result: Result<AlarmRecordData, String>)
        requires
            result matches Ok(data) ==> data.page_index < i64::MAX,
        ensures
            !final(self).loading,
            final(self).open == old(self).open,
            final(self).pg_dsn == old(self).pg_dsn,
            final(self).start_ts_input == old(self).start_ts_input,
            final(self).end_ts_input == old(self).end_ts_input,
            final(self).show_can_x == old(self).show_can_x,
            final(self).show_can_y == old(self).show_can_y,
            final(self).show_can_z == old(self).show_can_z,
            final(self).show_can_timeout == old(self).show_can_timeout,
            final(self).show_sent_t1 == old(self).show_sent_t1,
            final(self).show_sent_t2 == old(self).show_sent_t2,
            final(self).show_sent_s == old(self).show_sent_s,
            match result {
                Ok(data) => {
                    &&& final(self).page_index == data.page_index
                    &&& final(self).has_next == data.has_next
                    &&& final(self).status@ == spec_records_loaded_text(data)
                    &&& final(self).data == Some(data)
                },
                Err(e) => {
                    &&& final(self).page_index == old(self).page_index
                    &&& final(self).has_next == old(self).has_next
                    &&& final(self).status@ == "load failed: "@ + e@
                    &&& final(self).data is None
                },
            },
    {
        self.loading = false;
        match result {
            Ok(data) => {
                self.page_index = data.page_index;
                self.has_next = data.has_next;
                let mut status = String::from_str("page ");
                push_signed_dec(&mut status, data.page_index + 1);
                if data.records.len() == 0 {
                    push_str(&mut status, " has no alarm records, total ");
                } else {
                    push_str(&mut status, ", ");
                    push_dec(&mut status, data.records.len() as u64);
                    push_str(&mut status, " alarm records, total ");
                }
                push_signed_dec(&mut status, data.total_count);
                self.status = status;
                self.data = Some(data);
            },
            Err(e) => {
                let mut status = String::from_str("load failed: ");
                push_str(&mut status, e.as_str());
                self.status = status;
                self.data = None;
            },
        }
    }
}

// ---------------------------------------------------------------------------
// Replay from a page of records
// ---------------------------------------------------------------------------
/// `x` held to the range of `i64`.
pub open spec fn clamp_i64(x: int) -> int {
    if x < i64::MIN {
        i64::MIN as int
    } else if x > i64::MAX {
        i64::MAX as int
    } else {
        x
    }
}

/// The earliest time among the records.
pub open spec fn min_ts(rows: Seq<AlarmRecordRow>) -> int
    decreases rows.len(),
{
    if rows.len() <= 1 {
        if rows.len() == 1 {
            rows[0].ts_ms as int
        } else {
            0
        }
    } else {
        let m = min_ts(rows.drop_last());
        if (rows.last().ts_ms as int) < m {
            rows.last().ts_ms as int
        } else {
            m
        }
    }
}

/// The latest time among the records.
pub open spec fn max_ts(rows: Seq<AlarmRecordRow>) -> int
    decreases rows.len(),
{
    if rows.len() <= 1 {
        if rows.len() == 1 {
            rows[0].ts_ms as int
        } else {
            0
        }
    } else {
        let m = max_ts(rows.drop_last());
        if (rows.last().ts_ms as int) > m {
            rows.last().ts_ms as int
        } else {
            m
        }
    }
}

/// The earliest and the latest time are those of some record, and no
/// record lies outside them.
proof fn lemma_min_max_ts(rows: Seq<AlarmRecordRow>)
    requires
        rows.len() > 0,
    ensures
        exists|i: int| 0 <= i < rows.len() && rows[i].ts_ms == min_ts(rows),
        exists|i: int| 0 <= i < rows.len() && rows[i].ts_ms == max_ts(rows),
        forall|i: int| 0 <= i < rows.len() ==> min_ts(rows) <= #[trigger] rows[i].ts_ms <= max_ts(rows),
    decreases rows.len(),
{
    if rows.len() > 1 {
        let init = rows.drop_last();
        lemma_min_max_ts(init);
        let a = choose|i: int| 0 <= i < init.len() && init[i].ts_ms == min_ts(init);
        let b = choose|i: int| 0 <= i < init.len() && init[i].ts_ms == max_ts(init);
        assert(rows[a] == init[a]);
        assert(rows[b] == init[b]);
        let n = rows.len() - 1;
        assert(rows[n] == rows.last());
        if (rows[n].ts_ms as int) < min_ts(init) {
            assert(rows[n].ts_ms == min_ts(rows));
        } else {
            assert(rows[a].ts_ms == min_ts(rows));
        }
        if (rows[n].ts_ms as int) > max_ts(init) {
            assert(rows[n].ts_ms == max_ts(rows));
        } else {
            assert(rows[b].ts_ms == max_ts(rows));
        }
        assert forall|i: int| 0 <= i < rows.len() implies min_ts(rows) <= #[trigger] rows[i].ts_ms
            <= max_ts(rows) by {
            if i < rows.len() - 1 {
                assert(rows[i] == init[i]);
            }
        }
    } else {
        assert(rows[0].ts_ms == min_ts(rows));
        assert(rows[0].ts_ms == max_ts(rows));
    }
}

/// What a replay opened from the records shown starts with.
#[derive(Clone, Copy, Debug, PartialEq, Eq, Structural)]
pub struct ReplayFromRecords {
    pub start_ts_ms: i64,
    pub end_ts_ms: i64,
    pub mode: ReplayMode,
    pub selection: ReplaySelection,
}

/// The replay around the records of a page: from shortly before the first
/// to shortly after the last; the 3-axis mode when a CAN axis group is
/// shown, else SENT, with the series of the groups shown.
pub open spec fn spec_replay_from_records(st: AlarmRecordState, rows: Seq<AlarmRecordRow>) -> ReplayFromRecords {
    let can = st.show_can_x || st.show_can_y || st.show_can_z;
    let mode = if can {
        ReplayMode::Can3Axis
    } else {
        ReplayMode::Sent
    };
    ReplayFromRecords {
        start_ts_ms: clamp_i64(min_ts(rows) - ALARM_REPLAY_CONTEXT_MS) as i64,
        end_ts_ms: clamp_i64(max_ts(rows) + ALARM_REPLAY_CONTEXT_MS) as i64,
        mode,
        selection: ReplaySelection {
            x: if can {
                st.show_can_x
            } else {
                st.show_sent_t1
            },
            y: if can {
                st.show_can_y
            } else {
                st.show_sent_t1
            },
            z: if can {
                st.show_can_z
            } else {
                st.show_sent_t2
            },
            u: !can && st.show_sent_t2,
            v: !can && st.show_sent_s,
        },
    }
}

fn first_last_ts(rows: &Vec<AlarmRecordRow>) -> (r: (i64, i64))
    requires
        rows@.len() > 0,
    ensures
        r.0 == min_ts(rows@),
        r.1 == max_ts(rows@),
{
    let mut lo = rows[0].ts_ms;
    let mut hi = rows[0].ts_ms;
    let mut i: usize = 1;
    assert(rows@.take(1).drop_last() =~= Seq::<AlarmRecordRow>::empty());
    while i < rows.len()
        invariant
            1 <= i <= rows@.len(),
            lo == min_ts(rows@.take(i as int)),
            hi == max_ts(rows@.take(i as int)),
        decreases rows@.len() - i,
    {
        let t = rows[i].ts_ms;
        assert(rows@.take(i + 1).drop_last() =~= rows@.take(i as int));
        if t < lo {
            lo = t;
        }
        if t > hi {
            hi = t;
        }
        i = i + 1;
    }
    assert(rows@.take(i as int) =~= rows@);
    (lo, hi)
}

impl AlarmRecordState {
    /// What to replay around the records shown; when there are none, only
    /// the status line says so.
    pub fn replay_from_records(&mut self) -> (r: Option<ReplayFromRecords>)
        ensures
            same_window(*final(self), *old(self)),
            final(self).loading == old(self).loading,
            match old(self).data {
                None => r is None && final(self).status@ == "请先加载报警记录"@,
                Some(data) => if data.records@.len() == 0 {
                    r is None && final(self).status@ == "当前页没有报警记录，无法打开时间分布"@
                } else {
                    r == Some(spec_replay_from_records(*old(self), data.records@))
                        && final(self).status == old(self).status
                },
            },
    {
        let (first, last) = match &self.data {
            None => {
                self.status = String::from_str("请先加载报警记录");
                return None;
            },
            Some(data) => {
                if data.records.len() == 0 {
                    self.status = String::from_str("当前页没有报警记录，无法打开时间分布");
                    return None;
                }
                first_last_ts(&data.records)
            },
        };
        let start_ts_ms: i64 = if first < i64::MIN + ALARM_REPLAY_CONTEXT_MS {
            i64::MIN
        } else {
            first - ALARM_REPLAY_CONTEXT_MS
        };
        let end_ts_ms: i64 = if last > i64::MAX - ALARM_REPLAY_CONTEXT_MS {
            i64::MAX
        } else {
            last + ALARM_REPLAY_CONTEXT_MS
        };
        let can = self.show_can_x || self.show_can_y || self.show_can_z;
        let mode = if can {
            ReplayMode::Can3Axis
        } else {
            ReplayMode::Sent
        };
        let selection = ReplaySelection {
            x: if can {
                self.show_can_x
            } else {
                self.show_sent_t1
            },
            y: if can {
                self.show_can_y
            } else {
                self.show_sent_t1
            },
            z: if can {
                self.show_can_z
            } else {
                self.show_sent_t2
            },
            u: !can && self.show_sent_t2,
            v: !can && self.show_sent_s,
        };
        Some(ReplayFromRecords { start_ts_ms, end_ts_ms, mode, selection })
    }
}

/// A replay opened from a page of records covers every record on it.
pub proof fn lemma_replay_covers_records(st: AlarmRecordState, rows: Seq<AlarmRecordRow>)
    requires
        rows.len() > 0,
    ensures
        forall|i: int|
            0 <= i < rows.len() ==> spec_replay_from_records(st, rows).start_ts_ms <= #[trigger] rows[i].ts_ms
                <= spec_replay_from_records(st, rows).end_ts_ms,
{
    lemma_min_max_ts(rows);
}

// ---------------------------------------------------------------------------
// Opening a window, and its status lines
// ---------------------------------------------------------------------------
/// Span shown when the alarm-record window opens with no range typed.
pub const ALARM_RECORD_DEFAULT_WINDOW_MS: i64 = 300000;

/// Span shown when the replay window opens with no range typed.
pub const CAN_REPLAY_DEFAULT_WINDOW_MS: i64 = 300000;

/// The range a window opens with: the typed one when both ends hold text,
/// else the last `window_ms` up to `now_ms`.
pub open spec fn spec_default_inputs(start: Seq<char>, end: Seq<char>, now_ms: i64, window_ms: i64) -> Option<
    (Seq<char>, Seq<char>),
> {
    if trim(start).len() == 0 || trim(end).len() == 0 {
        Some((spec_datetime_input(clamp_i64(now_ms - window_ms)), spec_datetime_input(now_ms as int)))
    } else {
        None
    }
}

fn is_blank(text: &str) -> (r: bool)
    ensures
        r == (trim(text@).len() == 0),
{
    let v = chars_of(text);
    let (a, b) = trim_bounds(&v, 0, v.len());
    assert(v@.subrange(0, v@.len() as int) =~= text@);
    a == b
}

/// The start and end texts a window opens with when one of its inputs is
/// blank; `None` keeps what was typed.
pub fn default_time_inputs(start: &str, end: &str, now_ms: i64, window_ms: i64) -> (r: Option<(String, String)>)
    requires
        window_ms >= 0,
    ensures
        match r {
            Some((a, b)) => spec_default_inputs(start@, end@, now_ms, window_ms) == Some((a@, b@)),
            None => spec_default_inputs(start@, end@, now_ms, window_ms) is None,
        },
{
    if is_blank(start) || is_blank(end) {
        let from: i64 = if now_ms < i64::MIN + window_ms {
            i64::MIN
        } else {
            now_ms - window_ms
        };
        Some((format_datetime_input(from), format_datetime_input(now_ms)))
    } else {
        None
    }
}

impl AlarmRecordState {
    /// Opens the window at time `now_ms`, filling in the last five minutes
    /// when its range is not typed in.
    pub fn open_at(&mut self, now_ms: i64)
        ensures
            final(self).open,
            final(self).loading == old(self).loading,
            final(self).status == old(self).status,
            final(self).show_can_x == old(self).show_can_x,
            final(self).show_can_y == old(self).show_can_y,
            final(self).show_can_z == old(self).show_can_z,
            final(self).show_can_timeout == old(self).show_can_timeout,
            final(self).show_sent_t1 == old(self).show_sent_t1,
            final(self).show_sent_t2 == old(self).show_sent_t2,
            final(self).show_sent_s == old(self).show_sent_s,
            final(self).page_index == old(self).page_index,
            final(self).data == old(self).data,
            match spec_default_inputs(
                old(self).start_ts_input@,
                old(self).end_ts_input@,
                now_ms,
                ALARM_RECORD_DEFAULT_WINDOW_MS,
            ) {
                Some((a, b)) => final(self).start_ts_input@ == a && final(self).end_ts_input@ == b,
                None => final(self).start_ts_input == old(self).start_ts_input
                    && final(self).end_ts_input == old(self).end_ts_input,
            },
    {
        self.open = true;
        match default_time_inputs(
            self.start_ts_input.as_str(),
            self.end_ts_input.as_str(),
            now_ms,
            ALARM_RECORD_DEFAULT_WINDOW_MS,
        ) {
            Some((a, b)) => {
                self.start_ts_input = a;
                self.end_ts_input = b;
            },
            None => {},
        }
    }

    /// Opens the window now; see `open_at`.
    pub fn open_now(&mut self)
        ensures
            final(self).open,
            final(self).loading == old(self).loading,
            final(self).data == old(self).data,
    {
        let now = crate::db::now_ms();
        self.open_at(now);
    }
}

/// The status line after a replay load: what the mode lacks when nothing
/// came, else how many points were loaded and, when fewer are drawn, how
/// many are.
pub open spec fn spec_replay_loaded_text(mode: ReplayMode, empty: bool, raw: usize, displayed: usize) -> Seq<char> {
    if empty {
        mode.spec_empty_status()
    } else if displayed < raw {
        "已加载 "@ + dec(raw as nat) + " 个回放点，图表降采样显示 "@ + dec(displayed as nat) + " 个点"@
    } else {
        "已加载 "@ + dec(raw as nat) + " 个回放点"@
    }
}

/// The status line after a replay load.
pub fn replay_loaded_text(mode: ReplayMode, empty: bool, raw: usize, displayed: usize) -> (r: String)
    ensures
        r@ == spec_replay_loaded_text(mode, empty, raw, displayed),
{
    if empty {
        return String::from_str(mode.empty_status());
    }
    let mut r = String::from_str("已加载 ");
    push_dec(&mut r, raw as u64);
    if displayed < raw {
        push_str(&mut r, " 个回放点，图表降采样显示 ");
        push_dec(&mut r, displayed as u64);
        push_str(&mut r, " 个点");
    } else {
        push_str(&mut r, " 个回放点");
    }
    r
}

/// The status line after a finished request: `<ok>: <value>` or
/// `<failed>: <error>`.
pub fn outcome_text(result: &Result<String, String>, ok: &str, failed: &str) -> (r: String)
    ensures
        r@ == match result {
            Ok(v) => ok@ + ": "@ + v@,
            Err(e) => failed@ + ": "@ + e@,
        },
{
    let mut r = String::new();
    match result {
        Ok(v) => {
            push_str(&mut r, ok);
            push_str(&mut r, ": ");
            push_str(&mut r, v.as_str());
        },
        Err(e) => {
            push_str(&mut r, failed);
            push_str(&mut r, ": ");
            push_str(&mut r, e.as_str());
        },
    }
    r
}

/// A status line that reports a CAN self-test.
pub open spec fn spec_is_self_test_status(status: Seq<char>) -> bool {
    contains_text(status, "CAN self-test"@) || contains_text(status, "CAN 鑷"@) || contains_text(
        status,
        "CAN 鑷缁撴灉"@,
    )
}

/// Whether a status line reports a CAN self-test (the viewer keeps the last
/// such line).
pub fn is_self_test_status(status: &str) -> (r: bool)
    ensures
        r == spec_is_self_test_status(status@),
{
    let v = chars_of(status);
    contains_exec(&v, "CAN self-test") || contains_exec(&v, "CAN 鑷") || contains_exec(&v, "CAN 鑷缁撴灉")
}

} // verus!
