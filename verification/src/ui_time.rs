//! Calendar arithmetic and the date/time text of the viewer, shown in the
//! display time zone (UTC+8).
use vstd::prelude::*;
use crate::text::{
    all_digits, is_digit, lemma_pad_dec_reads_back, lemma_split_single, lemma_split_then_piece,
    lemma_words_single, lemma_words_then_space, lemma_words_then_word, signed_text_value,
    chars_of, is_ws, lemma_split_nonempty, parse_i64, parse_i64_spec, push_signed_pad_dec, push_str, signed_pad_dec,
    split, split_ranges, trim, trim_bounds, word_ranges, words,
};
use std::time::{SystemTime, UNIX_EPOCH};

verus! {

/// Offset of the display time zone from UTC, in seconds.
pub const DISPLAY_TZ_OFFSET_SECS: i64 = 28800;

/// Division rounding toward zero, as `/` on Rust integers.
pub open spec fn trunc_div(a: int, b: int) -> int {
    if a >= 0 {
        a / b
    } else {
        -((-a) / b)
    }
}

/// `i64::div_euclid` by a positive divisor.
pub fn floor_div(a: i64, b: i64) -> (r: i64)
    requires
        b > 0,
    ensures
        r == a / b,
{
    if a >= 0 {
        a / b
    } else {
        let m = -1 - a;
        let q = m / b;
        proof {
            let rem = m % b;
            assert(m == b * q + rem && 0 <= rem < b) by (nonlinear_arith)
                requires
                    m >= 0,
                    b > 0,
                    q == m / b,
                    rem == m % b,
            ;
            assert(a == b * (-q - 1) + (b - rem - 1)) by (nonlinear_arith)
                requires
                    m == b * q + rem,
                    a == -1 - m,
            ;
            vstd::arithmetic::div_mod::lemma_fundamental_div_mod_converse(
                a as int,
                b as int,
                -q - 1,
                b - rem - 1,
            );
            assert(q * b <= m) by (nonlinear_arith)
                requires
                    m == b * q + rem,
                    0 <= rem,
            ;
        }
        -q - 1
    }
}

// ---------------------------------------------------------------------------
// Civil calendar (proleptic Gregorian), days counted from 1970-01-01
// ---------------------------------------------------------------------------
/// The (year, month, day) of day number `days`.
pub open spec fn spec_civil_from_days(days: int) -> (int, int, int) {
    let z = days + 719468;
    let era = z / 146097;
    let doe = z - era * 146097;
    let yoe = (doe - doe / 1460 + doe / 36524 - doe / 146096) / 365;
    let y = yoe + era * 400;
    let doy = doe - (365 * yoe + yoe / 4 - yoe / 100);
    let mp = (5 * doy + 2) / 153;
    let d = doy - (153 * mp + 2) / 5 + 1;
    let m = if mp < 10 {
        mp + 3
    } else {
        mp - 9
    };
    (
        if m <= 2 {
            y + 1
        } else {
            y
        },
        m,
        d,
    )
}

/// Day numbers whose date can be computed in `i64`.
pub open spec fn civil_days_fit(days: int) -> bool {
    i64::MIN + 146096 - 719468 <= days <= i64::MAX - 719468
}

/// The date of a day number.
pub fn civil_from_days(days: i64) -> (r: (i64, i64, i64))
    requires
        civil_days_fit(days as int),
    ensures
        (r.0 as int, r.1 as int, r.2 as int) == spec_civil_from_days(days as int),
        1 <= r.1 <= 12,
        1 <= r.2 <= 31,
{
    let z = days + 719468;
    let era = floor_div(z, 146097);
    let doe = z - era * 146097;
    assert(0 <= doe < 146097) by (nonlinear_arith)
        requires
            era == z / 146097,
            doe == z - era * 146097,
    ;
    assert(era * 146097 <= z) by (nonlinear_arith)
        requires
            era == z / 146097,
    ;
    let yoe = (doe - doe / 1460 + doe / 36524 - doe / 146096) / 365;
    assert(0 <= yoe <= 399);
    let y = yoe + era * 400;
    let doy = doe - (365 * yoe + yoe / 4 - yoe / 100);
    assert(0 <= doy <= 365);
    let mp = (5 * doy + 2) / 153;
    let d = doy - (153 * mp + 2) / 5 + 1;
    assert(1 <= d <= 31);
    let m = if mp < 10 {
        mp + 3
    } else {
        mp - 9
    };
    let year = if m <= 2 {
        y + 1
    } else {
        y
    };
    (year, m, d)
}

/// The day number of a date, computed as `/` on integers does.
pub open spec fn spec_days_from_civil(year: int, month: int, day: int) -> int {
    let y = year - if month <= 2 {
        1int
    } else {
        0int
    };
    let era = y / 400;
    let yoe = y - era * 400;
    let mp = month + if month > 2 {
        -3int
    } else {
        9int
    };
    let doy = trunc_div(153 * mp + 2, 5) + day - 1;
    let doe = yoe * 365 + yoe / 4 - yoe / 100 + doy;
    era * 146097 + doe - 719468
}

pub open spec fn fits_i64(x: int) -> bool {
    i64::MIN <= x <= i64::MAX
}

/// Dates whose day number can be computed in `i64` without overflow.
pub open spec fn days_from_civil_fits(year: int, month: int, day: int) -> bool {
    let y = year - if month <= 2 {
        1int
    } else {
        0int
    };
    let era = y / 400;
    let mp = month + if month > 2 {
        -3int
    } else {
        9int
    };
    let doy = trunc_div(153 * mp + 2, 5) + day - 1;
    let yoe = y - era * 400;
    let doe = yoe * 365 + yoe / 4 - yoe / 100 + doy;
    &&& fits_i64(y)
    &&& (y < 0 ==> fits_i64(y - 399))
    &&& fits_i64(mp)
    &&& fits_i64(153 * mp)
    &&& fits_i64(153 * mp + 2)
    &&& fits_i64(trunc_div(153 * mp + 2, 5) + day)
    &&& fits_i64(doy)
    &&& fits_i64(yoe * 365 + yoe / 4 - yoe / 100 + doy)
    &&& fits_i64(era * 146097)
    &&& fits_i64(era * 146097 + doe)
    &&& fits_i64(era * 146097 + doe - 719468)
}

/// The day number of a date.
pub fn days_from_civil(year: i64, month: i64, day: i64) -> (r: i64)
    requires
        days_from_civil_fits(year as int, month as int, day as int),
    ensures
        r == spec_days_from_civil(year as int, month as int, day as int),
{
    let y = year - if month <= 2 {
        1
    } else {
        0
    };
    let era = floor_div(y, 400);
    assert(era * 400 <= y && y - era * 400 < 400) by (nonlinear_arith)
        requires
            era == y / 400,
    ;
    let yoe = y - era * 400;
    let mp = month + if month > 2 {
        -3
    } else {
        9
    };
    let num = 153 * mp + 2;
    let q = num / 5;
    assert(q == trunc_div(num as int, 5));
    let doy = q + day - 1;
    let doe = yoe * 365 + yoe / 4 - yoe / 100 + doy;
    era * 146097 + doe - 719468
}

/// Every day number is the day number of its own date: `days_from_civil`
/// undoes `civil_from_days`.
pub proof fn lemma_civil_roundtrip(days: int)
    ensures
        ({
            let (y, m, d) = spec_civil_from_days(days);
            spec_days_from_civil(y, m, d) == days
        }),
{
    let z = days + 719468;
    let era = z / 146097;
    let doe = z - era * 146097;
    assert(0 <= doe < 146097) by (nonlinear_arith)
        requires
            era == z / 146097,
            doe == z - era * 146097,
    ;
    let yoe = (doe - doe / 1460 + doe / 36524 - doe / 146096) / 365;
    assert(0 <= yoe <= 399);
    let y = yoe + era * 400;
    assert(y / 400 == era) by {
        vstd::arithmetic::div_mod::lemma_fundamental_div_mod_converse(y, 400, era, yoe);
    }
    let doy = doe - (365 * yoe + yoe / 4 - yoe / 100);
    assert(0 <= doy <= 365);
    let mp = (5 * doy + 2) / 153;
    assert(0 <= mp <= 11);
    let d = doy - (153 * mp + 2) / 5 + 1;
    let m = if mp < 10 {
        mp + 3
    } else {
        mp - 9
    };
    let yy = if m <= 2 {
        y + 1
    } else {
        y
    };
    assert(spec_civil_from_days(days) == (yy, m, d));
    let y2 = yy - if m <= 2 {
        1int
    } else {
        0int
    };
    assert(y2 == y);
    let mp2 = m + if m > 2 {
        -3int
    } else {
        9int
    };
    assert(mp2 == mp);
    assert(trunc_div(153 * mp2 + 2, 5) == (153 * mp + 2) / 5);
}

// ---------------------------------------------------------------------------
// Text
// ---------------------------------------------------------------------------
/// The local date and time of a timestamp: (year, month, day, hour,
/// minute, second) in the display time zone.
pub open spec fn local_fields(ts_ms: int) -> (int, int, int, int, int, int) {
    let total = ts_ms / 1000 + DISPLAY_TZ_OFFSET_SECS;
    let days = total / 86400;
    let secs = total % 86400;
    let (y, m, d) = spec_civil_from_days(days);
    (y, m, d, secs / 3600, (secs % 3600) / 60, secs % 60)
}

fn local_fields_exec(ts_ms: i64) -> (r: (i64, i64, i64, i64, i64, i64))
    ensures
        (r.0 as int, r.1 as int, r.2 as int, r.3 as int, r.4 as int, r.5 as int) == local_fields(
            ts_ms as int,
        ),
        0 <= r.3 < 24 && 0 <= r.4 < 60 && 0 <= r.5 < 60,
{
    let total = floor_div(ts_ms, 1000) + DISPLAY_TZ_OFFSET_SECS;
    let days = floor_div(total, 86400);
    let secs = total - days * 86400;
    assert(secs == total % 86400 && 0 <= secs < 86400) by (nonlinear_arith)
        requires
            days == total / 86400,
            secs == total - days * 86400,
    ;
    let (y, m, d) = civil_from_days(days);
    (y, m, d, secs / 3600, (secs % 3600) / 60, secs % 60)
}

/// `YYYY-MM-DD hh:mm:ss`.
pub open spec fn spec_datetime_input(ts_ms: int) -> Seq<char> {
    let (y, mo, d, h, mi, s) = local_fields(ts_ms);
    signed_pad_dec(y, 4) + "-"@ + signed_pad_dec(mo, 2) + "-"@ + signed_pad_dec(d, 2) + " "@
        + signed_pad_dec(h, 2) + ":"@ + signed_pad_dec(mi, 2) + ":"@ + signed_pad_dec(s, 2)
}

/// A timestamp (ms since the epoch) as editable local date-time text.
pub fn format_datetime_input(ts_ms: i64) -> (r: String)
    ensures
        r@ == spec_datetime_input(ts_ms as int),
{
    let (y, mo, d, h, mi, s) = local_fields_exec(ts_ms);
    let mut r = String::new();
    push_signed_pad_dec(&mut r, y, 4);
    push_str(&mut r, "-");
    push_signed_pad_dec(&mut r, mo, 2);
    push_str(&mut r, "-");
    push_signed_pad_dec(&mut r, d, 2);
    push_str(&mut r, " ");
    push_signed_pad_dec(&mut r, h, 2);
    push_str(&mut r, ":");
    push_signed_pad_dec(&mut r, mi, 2);
    push_str(&mut r, ":");
    push_signed_pad_dec(&mut r, s, 2);
    r
}

/// `MM-DD_hh-mm-ss`.
pub open spec fn spec_datetime_for_filename(ts_ms: int) -> Seq<char> {
    let (y, mo, d, h, mi, s) = local_fields(ts_ms);
    signed_pad_dec(mo, 2) + "-"@ + signed_pad_dec(d, 2) + "_"@ + signed_pad_dec(h, 2) + "-"@
        + signed_pad_dec(mi, 2) + "-"@ + signed_pad_dec(s, 2)
}

/// A timestamp as local date-time text usable in a file name.
pub fn format_datetime_for_filename(ts_ms: i64) -> (r: String)
    ensures
        r@ == spec_datetime_for_filename(ts_ms as int),
{
    let (_y, mo, d, h, mi, s) = local_fields_exec(ts_ms);
    let mut r = String::new();
    push_signed_pad_dec(&mut r, mo, 2);
    push_str(&mut r, "-");
    push_signed_pad_dec(&mut r, d, 2);
    push_str(&mut r, "_");
    push_signed_pad_dec(&mut r, h, 2);
    push_str(&mut r, "-");
    push_signed_pad_dec(&mut r, mi, 2);
    push_str(&mut r, "-");
    push_signed_pad_dec(&mut r, s, 2);
    r
}

/// `MM/DD hh:mm:ss`.
pub open spec fn spec_alarm_datetime(ts_ms: int) -> Seq<char> {
    let (y, mo, d, h, mi, s) = local_fields(ts_ms);
    signed_pad_dec(mo, 2) + "/"@ + signed_pad_dec(d, 2) + " "@ + signed_pad_dec(h, 2) + ":"@
        + signed_pad_dec(mi, 2) + ":"@ + signed_pad_dec(s, 2)
}

/// `SystemTime::duration_since(UNIX_EPOCH)` in whole milliseconds, `None`
/// for a time before the epoch.
#[verifier::external_body]
fn millis_since_epoch(time: SystemTime) -> (r: Option<u128>) {
    match time.duration_since(UNIX_EPOCH) {
        Ok(d) => Some(d.as_millis()),
        Err(_) => None,
    }
}

/// The alarm-list text of an alarm time given in milliseconds since the
/// epoch (0 for a time before it).
pub fn format_alarm_millis(since_epoch: Option<u128>) -> (r: String)
    ensures
        r@ == spec_alarm_datetime(
            match since_epoch {
                Some(ms) => (ms as i64) as int,
                None => 0,
            },
        ),
{
    let ts_ms: i64 = match since_epoch {
        Some(ms) => ms as i64,
        None => 0,
    };
    let (_y, mo, d, h, mi, s) = local_fields_exec(ts_ms);
    let mut r = String::new();
    push_signed_pad_dec(&mut r, mo, 2);
    push_str(&mut r, "/");
    push_signed_pad_dec(&mut r, d, 2);
    push_str(&mut r, " ");
    push_signed_pad_dec(&mut r, h, 2);
    push_str(&mut r, ":");
    push_signed_pad_dec(&mut r, mi, 2);
    push_str(&mut r, ":");
    push_signed_pad_dec(&mut r, s, 2);
    r
}

/// The time of an alarm as `MM/DD hh:mm:ss` in the display time zone. The
/// milliseconds of `time` since the epoch come from the standard library and
/// are not stated: the text is that of some `i64` timestamp.
pub fn format_alarm_datetime(time: SystemTime) -> (r: String)
    ensures
        exists|ts_ms: i64| r@ == #[trigger] spec_alarm_datetime(ts_ms as int),
{
    let since_epoch = millis_since_epoch(time);
    let r = format_alarm_millis(since_epoch);
    let ghost ts_ms: i64 = match since_epoch {
        Some(ms) => ms as i64,
        None => 0,
    };
    assert(r@ == spec_alarm_datetime(ts_ms as int));
    r
}

/// `can_export_<now>_<start>_<end>.txt`, each time in file-name form.
pub fn default_can_export_filename(start_ts_ms: i64, end_ts_ms: i64, now_ts_ms: i64) -> (r: String)
    ensures
        r@ == "can_export_"@ + spec_datetime_for_filename(now_ts_ms as int) + "_"@
            + spec_datetime_for_filename(start_ts_ms as int) + "_"@ + spec_datetime_for_filename(
            end_ts_ms as int,
        ) + ".txt"@,
{
    let mut r = String::new();
    push_str(&mut r, "can_export_");
    let now = format_datetime_for_filename(now_ts_ms);
    push_str(&mut r, now.as_str());
    push_str(&mut r, "_");
    let start = format_datetime_for_filename(start_ts_ms);
    push_str(&mut r, start.as_str());
    push_str(&mut r, "_");
    let end = format_datetime_for_filename(end_ts_ms);
    push_str(&mut r, end.as_str());
    push_str(&mut r, ".txt");
    r
}

// ---------------------------------------------------------------------------
// Reading times
// ---------------------------------------------------------------------------
/// `/` reads as `-` and `T` as a space.
pub open spec fn normalize_char(c: char) -> char {
    if c == '/' {
        '-'
    } else if c == 'T' {
        ' '
    } else {
        c
    }
}

pub open spec fn opt_field(piece: Seq<char>) -> Option<int> {
    parse_i64_spec(piece)
}

/// The local date and time written in `t` (already trimmed): a date
/// `Y-M-D` (or `Y/M/D`) and an optional time `h[:m[:s]]`, separated by
/// whitespace or `T`; each field an `i64`, and in range.
pub open spec fn spec_time_fields(t: Seq<char>) -> Option<(int, int, int, int, int, int)> {
    let ws = words(t.map_values(|c: char| normalize_char(c)));
    if ws.len() == 0 || ws.len() > 2 {
        None
    } else {
        let dps = split(ws[0], '-');
        let tps = if ws.len() == 2 {
            split(ws[1], ':')
        } else {
            seq!["0"@]
        };
        if dps.len() != 3 || tps.len() > 3 {
            None
        } else {
            match (
                opt_field(dps[0]),
                opt_field(dps[1]),
                opt_field(dps[2]),
                if ws.len() == 2 { opt_field(tps[0]) } else { Some(0int) },
                if tps.len() >= 2 { opt_field(tps[1]) } else { Some(0int) },
                if tps.len() >= 3 { opt_field(tps[2]) } else { Some(0int) },
            ) {
                (Some(y), Some(mo), Some(d), Some(h), Some(mi), Some(sec)) => if 1 <= mo <= 12 && 1
                    <= d <= 31 && 0 <= h <= 23 && 0 <= mi <= 59 && 0 <= sec <= 59 {
                    Some((y, mo, d, h, mi, sec))
                } else {
                    None
                },
                _ => None,
            }
        }
    }
}

/// Milliseconds since the epoch of a local date and time.
pub open spec fn local_millis(y: int, mo: int, d: int, h: int, mi: int, sec: int) -> int {
    (spec_days_from_civil(y, mo, d) * 86400 + h * 3600 + mi * 60 + sec - DISPLAY_TZ_OFFSET_SECS) * 1000
}

/// A time typed in the viewer: milliseconds as an integer, or a local date
/// and time; `None` for blank or unreadable text.
pub open spec fn spec_parse_time_input(text: Seq<char>) -> Option<int> {
    let t = trim(text);
    if t.len() == 0 {
        None
    } else {
        match parse_i64_spec(t) {
            Some(v) => Some(v),
            None => match spec_time_fields(t) {
                Some((y, mo, d, h, mi, sec)) => Some(local_millis(y, mo, d, h, mi, sec)),
                None => None,
            },
        }
    }
}

/// Text whose date and time can be turned into milliseconds in `i64`.
pub open spec fn time_input_fits(text: Seq<char>) -> bool {
    let t = trim(text);
    t.len() != 0 && parse_i64_spec(t) is None ==> match spec_time_fields(t) {
        Some((y, mo, d, h, mi, sec)) => {
            let days = spec_days_from_civil(y, mo, d);
            &&& days_from_civil_fits(y, mo, d)
            &&& fits_i64(days * 86400)
            &&& fits_i64(days * 86400 + h * 3600 + mi * 60 + sec)
            &&& fits_i64(days * 86400 + h * 3600 + mi * 60 + sec - DISPLAY_TZ_OFFSET_SECS)
            &&& fits_i64(local_millis(y, mo, d, h, mi, sec))
        },
        None => true,
    }
}

fn field_at(v: &Vec<char>, range: (usize, usize)) -> (r: Option<i64>)
    requires
        range.0 <= range.1 <= v@.len(),
    ensures
        match r {
            Some(x) => opt_field(v@.subrange(range.0 as int, range.1 as int)) == Some(x as int),
            None => opt_field(v@.subrange(range.0 as int, range.1 as int)) is None,
        },
{
    parse_i64(v, range.0, range.1)
}

/// The local date and time written in `v[lo..hi]` (already trimmed).
fn time_fields(v: &Vec<char>, lo: usize, hi: usize) -> (r: Option<(i64, i64, i64, i64, i64, i64)>)
    requires
        lo <= hi <= v@.len(),
    ensures
        match r {
            Some((y, mo, d, h, mi, sec)) => spec_time_fields(v@.subrange(lo as int, hi as int)) == Some(
                (y as int, mo as int, d as int, h as int, mi as int, sec as int),
            ),
            None => spec_time_fields(v@.subrange(lo as int, hi as int)) is None,
        },
{
    let ghost t = v@.subrange(lo as int, hi as int);
    let mut n: Vec<char> = Vec::new();
    let mut k = lo;
    while k < hi
        invariant
            lo <= k <= hi <= v@.len(),
            n@ =~= v@.subrange(lo as int, k as int).map_values(|c: char| normalize_char(c)),
        decreases hi - k,
    {
        let c = v[k];
        let m = if c == '/' {
            '-'
        } else if c == 'T' {
            ' '
        } else {
            c
        };
        n.push(m);
        k = k + 1;
    }
    proof {
        assert(n@.subrange(0, n@.len() as int) =~= n@);
        assert(n@ == t.map_values(|c: char| normalize_char(c)));
    }
    let ws = word_ranges(&n, 0, n.len());
    let ghost wsv = words(t.map_values(|c: char| normalize_char(c)));
    if ws.len() == 0 || ws.len() > 2 {
        return None;
    }
    let dps = split_ranges(&n, ws[0].0, ws[0].1, '-');
    if dps.len() != 3 {
        return None;
    }
    let (h, mi, sec) = if ws.len() == 2 {
        let tps = split_ranges(&n, ws[1].0, ws[1].1, ':');
        proof {
            lemma_split_nonempty(n@.subrange(ws[1].0 as int, ws[1].1 as int), ':');
        }
        if tps.len() > 3 {
            return None;
        }
        let h = match field_at(&n, tps[0]) {
            Some(x) => x,
            None => {
                proof {
                    assert(spec_time_fields(t) is None);
                }
                return None;
            },
        };
        let mi = if tps.len() >= 2 {
            match field_at(&n, tps[1]) {
                Some(x) => x,
                None => return None,
            }
        } else {
            0
        };
        let sec = if tps.len() >= 3 {
            match field_at(&n, tps[2]) {
                Some(x) => x,
                None => return None,
            }
        } else {
            0
        };
        (h, mi, sec)
    } else {
        (0, 0, 0)
    };
    let y = match field_at(&n, dps[0]) {
        Some(x) => x,
        None => return None,
    };
    let mo = match field_at(&n, dps[1]) {
        Some(x) => x,
        None => return None,
    };
    let d = match field_at(&n, dps[2]) {
        Some(x) => x,
        None => return None,
    };
    if !(1 <= mo && mo <= 12 && 1 <= d && d <= 31 && 0 <= h && h <= 23 && 0 <= mi && mi <= 59 && 0
        <= sec && sec <= 59) {
        return None;
    }
    proof {
        assert(spec_time_fields(t) == Some((y as int, mo as int, d as int, h as int, mi as int, sec as int)));
    }
    Some((y, mo, d, h, mi, sec))
}

/// Reads a time typed in the viewer.
pub fn parse_time_input(text: &str) -> (r: Option<i64>)
    requires
        time_input_fits(text@),
    ensures
        match r {
            Some(ms) => spec_parse_time_input(text@) == Some(ms as int),
            None => spec_parse_time_input(text@) is None,
        },
{
    let v = chars_of(text);
    let (lo, hi) = trim_bounds(&v, 0, v.len());
    proof {
        assert(v@.subrange(0, v@.len() as int) =~= text@);
    }
    if lo == hi {
        return None;
    }
    match parse_i64(&v, lo, hi) {
        Some(x) => return Some(x),
        None => {},
    }
    match time_fields(&v, lo, hi) {
        Some((y, mo, d, h, mi, sec)) => {
            let days = days_from_civil(y, mo, d);
            let local = days * 86400 + h * 3600 + mi * 60 + sec;
            Some((local - DISPLAY_TZ_OFFSET_SECS) * 1000)
        },
        None => None,
    }
}

/// A local date and time whose milliseconds can be computed in `i64`.
pub open spec fn fields_fit(y: int, mo: int, d: int, h: int, mi: int, sec: int) -> bool {
    let days = spec_days_from_civil(y, mo, d);
    &&& days_from_civil_fits(y, mo, d)
    &&& fits_i64(days * 86400)
    &&& fits_i64(days * 86400 + h * 3600 + mi * 60 + sec)
    &&& fits_i64(days * 86400 + h * 3600 + mi * 60 + sec - DISPLAY_TZ_OFFSET_SECS)
    &&& fits_i64(local_millis(y, mo, d, h, mi, sec))
}

fn fits(x: i128) -> (r: bool)
    ensures
        r == fits_i64(x as int),
{
    -9223372036854775808i128 <= x && x <= 9223372036854775807i128
}

/// Whether the milliseconds of a local date and time fit in `i64`.
fn civil_fits(year: i64, mo: i64, d: i64, h: i64, mi: i64, sec: i64) -> (r: bool)
    requires
        1 <= mo <= 12,
        1 <= d <= 31,
        0 <= h <= 23,
        0 <= mi <= 59,
        0 <= sec <= 59,
    ensures
        r == fields_fit(year as int, mo as int, d as int, h as int, mi as int, sec as int),
{
    if mo <= 2 && year == i64::MIN {
        return false;
    }
    let y: i64 = if mo <= 2 {
        year - 1
    } else {
        year
    };
    if y < 0 && y < i64::MIN + 399 {
        return false;
    }
    let era = floor_div(y, 400);
    assert(era * 400 <= y && y - era * 400 < 400) by (nonlinear_arith)
        requires
            era == y / 400,
    ;
    let yoe = (y - era * 400) as i128;
    let mp: i128 = if mo > 2 {
        mo as i128 - 3
    } else {
        mo as i128 + 9
    };
    let doy = (153 * mp + 2) / 5 + d as i128 - 1;
    assert((153 * mp + 2) / 5 == trunc_div(153 * mp + 2, 5));
    let doe = yoe * 365 + yoe / 4 - yoe / 100 + doy;
    let era_days = era as i128 * 146097;
    let days = era_days + doe - 719468;
    let secs = days * 86400;
    let local = secs + h as i128 * 3600 + mi as i128 * 60 + sec as i128;
    let shifted = local - 28800;
    let millis = shifted * 1000;
    fits(era_days) && fits(era_days + doe) && fits(days) && fits(secs) && fits(local) && fits(shifted)
        && fits(millis)
}

/// Whether a typed time is read without leaving `i64` (every text that is
/// not a readable local date and time is).
pub fn time_input_in_range(text: &str) -> (r: bool)
    ensures
        r == time_input_fits(text@),
{
    let v = chars_of(text);
    let (lo, hi) = trim_bounds(&v, 0, v.len());
    proof {
        assert(v@.subrange(0, v@.len() as int) =~= text@);
    }
    if lo == hi {
        return true;
    }
    match parse_i64(&v, lo, hi) {
        Some(_) => return true,
        None => {},
    }
    match time_fields(&v, lo, hi) {
        Some((y, mo, d, h, mi, sec)) => civil_fits(y, mo, d, h, mi, sec),
        None => true,
    }
}

// ---------------------------------------------------------------------------
// Reading back a formatted time
// ---------------------------------------------------------------------------
/// The characters of a formatted date and time: digits and the separators.
pub open spec fn plain_char(c: char) -> bool {
    is_digit(c) || c == '-' || c == ':' || c == ' '
}

pub open spec fn plain(s: Seq<char>) -> bool {
    forall|i: int| 0 <= i < s.len() ==> plain_char(#[trigger] s[i])
}

proof fn lemma_plain_concat(a: Seq<char>, b: Seq<char>)
    requires
        plain(a),
        plain(b),
    ensures
        plain(a + b),
{
    assert forall|i: int| 0 <= i < (a + b).len() implies plain_char(#[trigger] (a + b)[i]) by {
        if i < a.len() {
            assert((a + b)[i] == a[i]);
        } else {
            assert((a + b)[i] == b[i - a.len()]);
        }
    }
}

/// Two digit runs joined by a separator, as pieces.
proof fn lemma_join_pieces(a: Seq<char>, sep: char, b: Seq<char>)
    requires
        all_digits(a),
        all_digits(b),
        !is_digit(sep),
        plain_char(sep),
    ensures
        plain(a.push(sep) + b),
        forall|i: int| 0 <= i < b.len() ==> #[trigger] b[i] != sep,
{
    assert(plain(a));
    assert(plain(b));
    assert(plain(seq![sep]));
    assert(a.push(sep) =~= a + seq![sep]);
    lemma_plain_concat(a, seq![sep]);
    lemma_plain_concat(a.push(sep), b);
}

/// The calendar fields of a day number are in range: month 1 to 12, day 1
/// to 31, and a year not before 1600 for a day not before the epoch.
#[verifier::spinoff_prover]
proof fn lemma_civil_fields_range(days: int)
    requires
        0 <= days <= 100_000_000,
    ensures
        ({
            let (y, m, d) = spec_civil_from_days(days);
            &&& 1 <= m <= 12
            &&& 1 <= d <= 31
            &&& 0 <= y <= 1_000_000
        }),
{
    let z = days + 719468;
    let era = z / 146097;
    let doe = z - era * 146097;
    assert(0 <= doe < 146097) by (nonlinear_arith)
        requires
            era == z / 146097,
            doe == z - era * 146097,
            z >= 0,
    ;
    assert(era >= 4 && era <= 700) by (nonlinear_arith)
        requires
            era == z / 146097,
            719468 <= z <= 100_719_468,
    ;
    let yoe = (doe - doe / 1460 + doe / 36524 - doe / 146096) / 365;
    assert(0 <= yoe <= 399);
    let doy = doe - (365 * yoe + yoe / 4 - yoe / 100);
    assert(0 <= doy <= 365);
    let mp = (5 * doy + 2) / 153;
    assert(0 <= mp <= 11);
    let d = doy - (153 * mp + 2) / 5 + 1;
    assert(1 <= d <= 31) by (nonlinear_arith)
        requires
            mp == (5 * doy + 2) / 153,
            0 <= doy <= 365,
            0 <= mp <= 11,
            d == doy - (153 * mp + 2) / 5 + 1,
    ;
}

/// The text of a local date and time, `YYYY-MM-DD hh:mm:ss`.
pub open spec fn datetime_text(y: int, mo: int, d: int, h: int, mi: int, sec: int) -> Seq<char> {
    signed_pad_dec(y, 4) + "-"@ + signed_pad_dec(mo, 2) + "-"@ + signed_pad_dec(d, 2) + " "@
        + signed_pad_dec(h, 2) + ":"@ + signed_pad_dec(mi, 2) + ":"@ + signed_pad_dec(sec, 2)
}

#[verifier::rlimit(50)]
#[verifier::spinoff_prover]
proof fn lemma_local_fields_facts(ts_ms: int)
    requires
        0 <= ts_ms <= 253_402_271_999_999,
    ensures
        ({
            let (y, mo, d, h, mi, sec) = local_fields(ts_ms);
            &&& 0 <= y <= 1_000_000
            &&& 1 <= mo <= 12
            &&& 1 <= d <= 31
            &&& 0 <= h <= 23
            &&& 0 <= mi <= 59
            &&& 0 <= sec <= 59
            &&& local_millis(y, mo, d, h, mi, sec) == ts_ms - ts_ms % 1000
            &&& spec_datetime_input(ts_ms) == datetime_text(y, mo, d, h, mi, sec)
        }),
{
    let total = ts_ms / 1000 + DISPLAY_TZ_OFFSET_SECS;
    let days = total / 86400;
    let secs = total % 86400;
    assert((ts_ms / 1000) * 1000 == ts_ms - ts_ms % 1000);
    assert(days * 86400 + secs == total);
    assert(0 <= days <= 100_000_000);
    lemma_civil_fields_range(days);
    lemma_civil_roundtrip(days);
    let h = secs / 3600;
    let mi = (secs % 3600) / 60;
    let sec = secs % 60;
    assert(secs == h * 3600 + mi * 60 + sec && 0 <= h <= 23) by {
        assert(0 <= secs < 86400);
    }
    let (y, mo, d) = spec_civil_from_days(days);
    assert(local_fields(ts_ms) == (y, mo, d, h, mi, sec));
    assert(spec_days_from_civil(y, mo, d) == days);
    assert(local_millis(y, mo, d, h, mi, sec) == (total - DISPLAY_TZ_OFFSET_SECS) * 1000);
}

/// Digit runs joined as a date and a time: its words, and the pieces of
/// each word.
#[verifier::spinoff_prover]
proof fn lemma_datetime_words(
    ya: Seq<char>,
    ma: Seq<char>,
    da: Seq<char>,
    ha: Seq<char>,
    mia: Seq<char>,
    sa: Seq<char>,
)
    requires
        all_digits(ya) && all_digits(ma) && all_digits(da) && all_digits(ha) && all_digits(mia)
            && all_digits(sa),
        ya.len() >= 1 && ma.len() >= 1 && da.len() >= 1 && ha.len() >= 1 && mia.len() >= 1 && sa.len() >= 1,
    ensures
        ({
            let date = (ya.push('-') + ma).push('-') + da;
            let time = (ha.push(':') + mia).push(':') + sa;
            let text = date.push(' ') + time;
            &&& plain(text)
            &&& text[0] == ya[0]
            &&& text.last() == sa.last()
            &&& text[ya.len() as int] == '-'
            &&& words(text) == seq![date, time]
            &&& split(date, '-') == seq![ya, ma, da]
            &&& split(time, ':') == seq![ha, mia, sa]
        }),
{
    let ym = ya.push('-') + ma;
    let date = ym.push('-') + da;
    let hm = ha.push(':') + mia;
    let time = hm.push(':') + sa;
    let text = date.push(' ') + time;
    lemma_join_pieces(ya, '-', ma);
    lemma_join_pieces(ha, ':', mia);
    assert(plain(da) && plain(sa));
    assert(ym.push('-') =~= ym + seq!['-']);
    lemma_plain_concat(ym, seq!['-']);
    lemma_plain_concat(ym.push('-'), da);
    assert(hm.push(':') =~= hm + seq![':']);
    lemma_plain_concat(hm, seq![':']);
    lemma_plain_concat(hm.push(':'), sa);
    assert(date.push(' ') =~= date + seq![' ']);
    lemma_plain_concat(date, seq![' ']);
    lemma_plain_concat(date.push(' '), time);
    assert(text[ya.len() as int] == '-');
    assert forall|i: int| 0 <= i < date.len() implies !is_ws(#[trigger] date[i]) by {
        assert(text[i] == date[i]);
        assert(date[i] != ' ');
    }
    assert forall|i: int| 0 <= i < time.len() implies !is_ws(#[trigger] time[i]) by {
        assert(text[date.len() + 1 + i] == time[i]);
        assert(time[i] != ' ');
    }
    lemma_words_single(date);
    lemma_words_then_space(date, ' ');
    lemma_words_then_word(date.push(' '), time);
    assert(words(text) =~= seq![date, time]);
    assert forall|i: int| 0 <= i < ya.len() implies #[trigger] ya[i] != '-' by {}
    lemma_split_single(ya, '-');
    lemma_split_then_piece(ya, '-', ma);
    assert forall|i: int| 0 <= i < da.len() implies #[trigger] da[i] != '-' by {}
    lemma_split_then_piece(ym, '-', da);
    assert(split(date, '-') =~= seq![ya, ma, da]);
    assert forall|i: int| 0 <= i < ha.len() implies #[trigger] ha[i] != ':' by {}
    lemma_split_single(ha, ':');
    lemma_split_then_piece(ha, ':', mia);
    assert forall|i: int| 0 <= i < sa.len() implies #[trigger] sa[i] != ':' by {}
    lemma_split_then_piece(hm, ':', sa);
    assert(split(time, ':') =~= seq![ha, mia, sa]);
}

#[verifier::rlimit(50)]
#[verifier::spinoff_prover]
proof fn lemma_datetime_text_fields(y: int, mo: int, d: int, h: int, mi: int, sec: int)
    requires
        0 <= y <= 1_000_000,
        1 <= mo <= 12,
        1 <= d <= 31,
        0 <= h <= 23,
        0 <= mi <= 59,
        0 <= sec <= 59,
    ensures
        spec_parse_time_input(datetime_text(y, mo, d, h, mi, sec)) == Some(local_millis(y, mo, d, h, mi, sec)),
{
    let ya = signed_pad_dec(y, 4);
    let ma = signed_pad_dec(mo, 2);
    let da = signed_pad_dec(d, 2);
    let ha = signed_pad_dec(h, 2);
    let mia = signed_pad_dec(mi, 2);
    let sa = signed_pad_dec(sec, 2);
    lemma_pad_dec_reads_back(y as nat, 4);
    lemma_pad_dec_reads_back(mo as nat, 2);
    lemma_pad_dec_reads_back(d as nat, 2);
    lemma_pad_dec_reads_back(h as nat, 2);
    lemma_pad_dec_reads_back(mi as nat, 2);
    lemma_pad_dec_reads_back(sec as nat, 2);
    lemma_datetime_words(ya, ma, da, ha, mia, sa);
    reveal_strlit("-");
    reveal_strlit(":");
    reveal_strlit(" ");
    let date = (ya.push('-') + ma).push('-') + da;
    let time = (ha.push(':') + mia).push(':') + sa;
    let text = datetime_text(y, mo, d, h, mi, sec);
    assert(text =~= date.push(' ') + time);
    assert(is_digit(ya[0]) && is_digit(sa.last()));
    assert(trim(text) == text);
    assert(!all_digits(text));
    assert(signed_text_value(text) is None);
    assert(text.map_values(|c: char| normalize_char(c)) =~= text);
    assert(spec_time_fields(text) == Some((y, mo, d, h, mi, sec)));
}

/// Reading back the text of a time gives that time, rounded down to the
/// second, for every time from the epoch to the end of year 9999 in the
/// display time zone.
pub proof fn lemma_datetime_input_reads_back(ts_ms: int)
    requires
        0 <= ts_ms <= 253_402_271_999_999,
    ensures
        spec_parse_time_input(spec_datetime_input(ts_ms)) == Some(ts_ms - ts_ms % 1000),
{
    lemma_local_fields_facts(ts_ms);
    let (y, mo, d, h, mi, sec) = local_fields(ts_ms);
    lemma_datetime_text_fields(y, mo, d, h, mi, sec);
}

} // verus!
