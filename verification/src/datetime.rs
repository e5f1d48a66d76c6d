//! Calendar date-times as plain values (proleptic Gregorian, no time zone),
//! with the few chrono operations the scheduler needs.

use chrono::{Datelike, Offset, Timelike};
use vstd::prelude::*;

verus! {

/// chrono's earliest representable year.
pub const MIN_YEAR: i32 = -262143;

/// chrono's latest representable year.
pub const MAX_YEAR: i32 = 262142;

/// A wall-clock date and time (the content of a chrono `NaiveDateTime`, to the second).
#[derive(Debug, Clone, Copy, PartialEq, Eq)]
pub struct CivilDateTime {
    pub year: i32,
    pub month: u32,
    pub day: u32,
    pub hour: u32,
    pub minute: u32,
    pub second: u32,
}

pub open spec fn is_leap(y: int) -> bool {
    (y % 4 == 0 && y % 100 != 0) || y % 400 == 0
}

pub open spec fn days_in_month(y: int, m: int) -> int {
    if m == 2 {
        if is_leap(y) {
            29
        } else {
            28
        }
    } else if m == 4 || m == 6 || m == 9 || m == 11 {
        30
    } else {
        31
    }
}

/// A date-time that exists in the calendar and in chrono's range.
pub open spec fn valid_civil(dt: CivilDateTime) -> bool {
    &&& MIN_YEAR <= dt.year <= MAX_YEAR
    &&& 1 <= dt.month <= 12
    &&& 1 <= dt.day <= days_in_month(dt.year as int, dt.month as int)
    &&& dt.hour < 24
    &&& dt.minute < 60
    &&& dt.second < 60
}

/// Days in the months of year `y` before month `m`.
pub open spec fn days_before_month(y: int, m: int) -> int {
    let leap: int = if is_leap(y) {
        1
    } else {
        0
    };
    if m <= 1 {
        0
    } else if m == 2 {
        31
    } else if m == 3 {
        59 + leap
    } else if m == 4 {
        90 + leap
    } else if m == 5 {
        120 + leap
    } else if m == 6 {
        151 + leap
    } else if m == 7 {
        181 + leap
    } else if m == 8 {
        212 + leap
    } else if m == 9 {
        243 + leap
    } else if m == 10 {
        273 + leap
    } else if m == 11 {
        304 + leap
    } else {
        334 + leap
    }
}

/// Leap years in `[0, y)` (negative for years before 0).
pub open spec fn leaps_before(y: int) -> int {
    (y + 3) / 4 - (y + 99) / 100 + (y + 399) / 400
}

/// Days from 0000-01-01 to the first day of year `y`.
pub open spec fn days_before_year(y: int) -> int {
    365 * y + leaps_before(y)
}

/// Days from 0000-01-01 (a Saturday) to the date of `dt`.
pub open spec fn day_number(dt: CivilDateTime) -> int {
    days_before_year(dt.year as int) + days_before_month(dt.year as int, dt.month as int) + dt.day
        - 1
}

/// Seconds from 0000-01-01T00:00:00 to `dt`.
pub open spec fn civil_seconds(dt: CivilDateTime) -> int {
    day_number(dt) * 86400 + dt.hour * 3600 + dt.minute * 60 + dt.second
}

/// Day of the week, counted from Sunday = 0.
pub open spec fn weekday_spec(dt: CivilDateTime) -> int {
    (day_number(dt) + 6) % 7
}

pub open spec fn civil_min() -> CivilDateTime {
    CivilDateTime { year: MIN_YEAR, month: 1, day: 1, hour: 0, minute: 0, second: 0 }
}

pub open spec fn civil_max() -> CivilDateTime {
    CivilDateTime { year: MAX_YEAR, month: 12, day: 31, hour: 23, minute: 59, second: 59 }
}

/// chrono's `NaiveDateTime::checked_add_signed` with a whole number of seconds.
///
/// Claimed of chrono: the result is the date-time `secs` seconds later (no leap
/// seconds in naive arithmetic), and `None` exactly when that lies outside
/// chrono's range of dates.
#[verifier::external_body]
pub(crate) fn civil_checked_add_seconds(dt: CivilDateTime, secs: i64) -> (r: Option<CivilDateTime>)
    requires
        valid_civil(dt),
        -86_400_000 <= secs <= 86_400_000,
    ensures
        r matches Some(x) ==> valid_civil(x) && civil_seconds(x) == civil_seconds(dt) + secs,
        r is None <==> !(civil_seconds(civil_min()) <= civil_seconds(dt) + secs <= civil_seconds(
            civil_max(),
        )),
{
    let n = chrono::NaiveDate::from_ymd_opt(dt.year, dt.month, dt.day)
        .and_then(|d| d.and_hms_opt(dt.hour, dt.minute, dt.second))
        .unwrap();
    let m = n.checked_add_signed(chrono::TimeDelta::seconds(secs))?;
    Some(CivilDateTime {
        year: m.year(),
        month: m.month(),
        day: m.day(),
        hour: m.hour(),
        minute: m.minute(),
        second: m.second(),
    })
}

/// chrono's `Weekday::num_days_from_sunday` of the date of `dt`.
///
/// Claimed of chrono: the Gregorian weekday, Sunday = 0 (0000-01-01 is a Saturday).
#[verifier::external_body]
pub(crate) fn civil_weekday_from_sunday(dt: CivilDateTime) -> (r: u32)
    requires
        valid_civil(dt),
    ensures
        r == weekday_spec(dt),
{
    let d = chrono::NaiveDate::from_ymd_opt(dt.year, dt.month, dt.day).unwrap();
    d.weekday().num_days_from_sunday()
}

/// chrono's `(a - b).num_seconds()` for two naive date-times.
///
/// Claimed of chrono: the signed number of seconds from `b` to `a`.
#[verifier::external_body]
pub(crate) fn civil_seconds_between(a: CivilDateTime, b: CivilDateTime) -> (r: i64)
    requires
        valid_civil(a),
        valid_civil(b),
    ensures
        r == civil_seconds(a) - civil_seconds(b),
{
    let x = chrono::NaiveDate::from_ymd_opt(a.year, a.month, a.day)
        .and_then(|d| d.and_hms_opt(a.hour, a.minute, a.second))
        .unwrap();
    let y = chrono::NaiveDate::from_ymd_opt(b.year, b.month, b.day)
        .and_then(|d| d.and_hms_opt(b.hour, b.minute, b.second))
        .unwrap();
    (x - y).num_seconds()
}

/// The wall-clock time in the IANA zone `tz_name` (chrono-tz) at `utc_seconds`
/// seconds after the Unix epoch; `None` when the zone name is unknown, or the
/// instant or its wall-clock time lies outside chrono's range.
pub uninterp spec fn zone_local_time(tz_name: Seq<char>, utc_seconds: int) -> Option<CivilDateTime>;

/// chrono-tz's `str::parse::<Tz>`, chrono's `DateTime::from_timestamp`, and the
/// UTC time moved by the zone's offset at that instant with
/// `NaiveDateTime::checked_add_offset` (what `naive_local` does, without its
/// panic when the offset leaves chrono's range).
///
/// Claimed: the result depends on the zone name and the instant alone (the zone
/// database is fixed in the crate), and a returned time is a valid one.
#[verifier::external_body]
pub(crate) fn local_time_in_zone(tz_name: &str, utc_seconds: i64) -> (r: Option<CivilDateTime>)
    ensures
        r == zone_local_time(tz_name@, utc_seconds as int),
        r matches Some(x) ==> valid_civil(x),
{
    let tz: chrono_tz::Tz = tz_name.parse().ok()?;
    let utc = chrono::DateTime::from_timestamp(utc_seconds, 0)?;
    let offset = utc.with_timezone(&tz).offset().fix();
    let m = utc.naive_utc().checked_add_offset(offset)?;
    Some(CivilDateTime {
        year: m.year(),
        month: m.month(),
        day: m.day(),
        hour: m.hour(),
        minute: m.minute(),
        second: m.second(),
    })
}

impl CivilDateTime {
    /// chrono's `with_second`: the same date-time with the second replaced.
    pub fn with_second(self, s: u32) -> (r: Option<CivilDateTime>)
        ensures
            r == (if s < 60 {
                Some(CivilDateTime { second: s, ..self })
            } else {
                None::<CivilDateTime>
            }),
    {
        if s < 60 {
            Some(CivilDateTime { second: s, ..self })
        } else {
            None
        }
    }

    /// chrono's `with_minute`.
    pub fn with_minute(self, m: u32) -> (r: Option<CivilDateTime>)
        ensures
            r == (if m < 60 {
                Some(CivilDateTime { minute: m, ..self })
            } else {
                None::<CivilDateTime>
            }),
    {
        if m < 60 {
            Some(CivilDateTime { minute: m, ..self })
        } else {
            None
        }
    }

    /// chrono's `with_hour`.
    pub fn with_hour(self, h: u32) -> (r: Option<CivilDateTime>)
        ensures
            r == (if h < 24 {
                Some(CivilDateTime { hour: h, ..self })
            } else {
                None::<CivilDateTime>
            }),
    {
        if h < 24 {
            Some(CivilDateTime { hour: h, ..self })
        } else {
            None
        }
    }

    /// chrono's `with_day`: `None` when the day does not exist in the month.
    pub fn with_day(self, d: u32) -> (r: Option<CivilDateTime>)
        requires
            1 <= self.month <= 12,
        ensures
            r == (if 1 <= d <= days_in_month(self.year as int, self.month as int) {
                Some(CivilDateTime { day: d, ..self })
            } else {
                None::<CivilDateTime>
            }),
    {
        let y: i32 = self.year;
        let leap: bool = (y % 4 == 0 && y % 100 != 0) || y % 400 == 0;
        let dim: u32 = if self.month == 2 {
            if leap {
                29
            } else {
                28
            }
        } else if self.month == 4 || self.month == 6 || self.month == 9 || self.month == 11 {
            30
        } else {
            31
        };
        if 1 <= d && d <= dim {
            Some(CivilDateTime { day: d, ..self })
        } else {
            None
        }
    }

    /// `NaiveDate::from_ymd_opt(year, month, 1)?.and_hms_opt(0, 0, 0)`: midnight on
    /// the first of the month, `None` outside chrono's years or for a bad month.
    pub fn first_of_month(year: i32, month: u32) -> (r: Option<CivilDateTime>)
        ensures
            r == (if MIN_YEAR <= year <= MAX_YEAR && 1 <= month <= 12 {
                Some(CivilDateTime { year, month, day: 1, hour: 0, minute: 0, second: 0 })
            } else {
                None::<CivilDateTime>
            }),
    {
        if MIN_YEAR <= year && year <= MAX_YEAR && 1 <= month && month <= 12 {
            Some(CivilDateTime { year, month, day: 1, hour: 0, minute: 0, second: 0 })
        } else {
            None
        }
    }
}

proof fn lemma_div4(y: int)
    ensures
        (y + 4) / 4 == (y + 3) / 4 + (if y % 4 == 0 { 1int } else { 0int }),
{
    assert((y + 4) / 4 == (y + 3) / 4 + (if y % 4 == 0 { 1int } else { 0int })) by (nonlinear_arith);
}

proof fn lemma_div100(y: int)
    ensures
        (y + 100) / 100 == (y + 99) / 100 + (if y % 100 == 0 { 1int } else { 0int }),
{
    assert((y + 100) / 100 == (y + 99) / 100 + (if y % 100 == 0 { 1int } else { 0int })) by (nonlinear_arith);
}

proof fn lemma_div400(y: int)
    ensures
        (y + 400) / 400 == (y + 399) / 400 + (if y % 400 == 0 { 1int } else { 0int }),
{
    assert((y + 400) / 400 == (y + 399) / 400 + (if y % 400 == 0 { 1int } else { 0int })) by (nonlinear_arith);
}

/// A year has 365 days, 366 when it is a leap year.
pub proof fn lemma_year_length(y: int)
    ensures
        days_before_year(y + 1) == days_before_year(y) + 365 + (if is_leap(y) {
            1int
        } else {
            0int
        }),
{
    lemma_div4(y);
    lemma_div100(y);
    lemma_div400(y);
    assert(leaps_before(y + 1) == (y + 4) / 4 - (y + 100) / 100 + (y + 400) / 400);
}

/// Later months of a year start after every day of an earlier month.
pub proof fn lemma_month_order(y: int, m1: int, m2: int)
    requires
        1 <= m1 < m2 <= 12,
    ensures
        days_before_month(y, m2) >= days_before_month(y, m1) + days_in_month(y, m1),
{
}

/// The first of a later month of the same year comes after `dt`.
pub proof fn lemma_later_month(dt: CivilDateTime, m: u32)
    requires
        valid_civil(dt),
        dt.month < m <= 12,
    ensures
        civil_seconds(CivilDateTime { year: dt.year, month: m, day: 1, hour: 0, minute: 0, second: 0 }) > civil_seconds(dt),
{
    lemma_month_order(dt.year as int, dt.month as int, m as int);
}

/// The first of any month of the next year comes after `dt`.
pub proof fn lemma_next_year(dt: CivilDateTime, m: u32)
    requires
        valid_civil(dt),
        1 <= m <= 12,
    ensures
        civil_seconds(CivilDateTime { year: (dt.year + 1) as i32, month: m, day: 1, hour: 0, minute: 0, second: 0 })
            > civil_seconds(dt),
{
    lemma_year_length(dt.year as int);
    if dt.month < 12 {
        lemma_month_order(dt.year as int, dt.month as int, 12);
    }
}

/// The second of a date-time is its seconds count modulo a minute.
pub proof fn lemma_second_of(dt: CivilDateTime)
    requires
        valid_civil(dt),
    ensures
        civil_seconds(dt) % 60 == dt.second,
{
    let k = day_number(dt) * 1440 + dt.hour * 60 + dt.minute;
    assert(civil_seconds(dt) == 60 * k + dt.second);
    assert((60 * k + dt.second) % 60 == dt.second) by (nonlinear_arith)
        requires
            0 <= dt.second < 60,
    ;
}

/// Years start in order.
pub proof fn lemma_years_in_order(y1: int, y2: int)
    requires
        y1 <= y2,
    ensures
        days_before_year(y1) <= days_before_year(y2),
    decreases y2 - y1,
{
    if y1 < y2 {
        lemma_year_length(y2 - 1);
        lemma_years_in_order(y1, y2 - 1);
    }
}

/// Every day of a year comes before the first day of any later year.
proof fn lemma_day_before_later_year(dt: CivilDateTime, y: int)
    requires
        valid_civil(dt),
        dt.year < y,
    ensures
        day_number(dt) < days_before_year(y),
{
    lemma_year_length(dt.year as int);
    lemma_years_in_order(dt.year as int + 1, y);
    if dt.month < 12 {
        lemma_month_order(dt.year as int, dt.month as int, 12);
    }
}

/// Distinct date-times are distinct instants: `civil_seconds` is one-to-one
/// on valid date-times.
pub proof fn lemma_civil_injective(a: CivilDateTime, b: CivilDateTime)
    requires
        valid_civil(a),
        valid_civil(b),
        civil_seconds(a) == civil_seconds(b),
    ensures
        a == b,
{
    let da = day_number(a);
    let db = day_number(b);
    let ra = a.hour * 3600 + a.minute * 60 + a.second;
    let rb = b.hour * 3600 + b.minute * 60 + b.second;
    assert(0 <= ra < 86400 && 0 <= rb < 86400);
    assert(da == db && ra == rb) by (nonlinear_arith)
        requires
            da * 86400 + ra == db * 86400 + rb,
            0 <= ra < 86400,
            0 <= rb < 86400,
    ;
    assert(a.hour == b.hour && a.minute == b.minute && a.second == b.second) by (nonlinear_arith)
        requires
            a.hour * 3600 + a.minute * 60 + a.second == b.hour * 3600 + b.minute * 60 + b.second,
            a.minute < 60,
            a.second < 60,
            b.minute < 60,
            b.second < 60,
    ;
    if a.year < b.year {
        lemma_day_before_later_year(a, b.year as int);
    } else if b.year < a.year {
        lemma_day_before_later_year(b, a.year as int);
    } else if a.month < b.month {
        lemma_month_order(a.year as int, a.month as int, b.month as int);
    } else if b.month < a.month {
        lemma_month_order(a.year as int, b.month as int, a.month as int);
    }
}

/// The valid date-time at the instant `t` (seconds from 0000-01-01).
pub open spec fn civil_at(t: int) -> CivilDateTime {
    choose|x: CivilDateTime| valid_civil(x) && civil_seconds(x) == t
}

/// `dt + secs` as chrono's checked addition gives it.
pub open spec fn add_seconds_spec(dt: CivilDateTime, secs: int) -> Option<CivilDateTime> {
    let t = civil_seconds(dt) + secs;
    if civil_seconds(civil_min()) <= t <= civil_seconds(civil_max()) {
        Some(civil_at(t))
    } else {
        None
    }
}

/// What the checked addition returns is `add_seconds_spec`.
pub proof fn lemma_add_seconds(dt: CivilDateTime, secs: int, r: Option<CivilDateTime>)
    requires
        r matches Some(x) ==> valid_civil(x) && civil_seconds(x) == civil_seconds(dt) + secs,
        r is None <==> !(civil_seconds(civil_min()) <= civil_seconds(dt) + secs <= civil_seconds(civil_max())),
    ensures
        r == add_seconds_spec(dt, secs),
{
    if let Some(x) = r {
        let y = civil_at(civil_seconds(dt) + secs);
        assert(valid_civil(y) && civil_seconds(y) == civil_seconds(dt) + secs);
        lemma_civil_injective(x, y);
    }
}

/// Seconds since midnight.
pub open spec fn time_of_day(dt: CivilDateTime) -> int {
    dt.hour * 3600 + dt.minute * 60 + dt.second
}

/// `a`'s date comes before `b`'s, in calendar order.
pub open spec fn date_before(a: CivilDateTime, b: CivilDateTime) -> bool {
    ||| a.year < b.year
    ||| a.year == b.year && a.month < b.month
    ||| a.year == b.year && a.month == b.month && a.day < b.day
}

/// Days are numbered in calendar order.
proof fn lemma_date_before_day_number(a: CivilDateTime, b: CivilDateTime)
    requires
        valid_civil(a),
        valid_civil(b),
        date_before(a, b),
    ensures
        day_number(a) < day_number(b),
{
    if a.year < b.year {
        lemma_day_before_later_year(a, b.year as int);
    } else if a.month < b.month {
        lemma_month_order(a.year as int, a.month as int, b.month as int);
    }
}

/// Day numbers tell dates apart, in calendar order.
pub proof fn lemma_day_number_order(a: CivilDateTime, b: CivilDateTime)
    requires
        valid_civil(a),
        valid_civil(b),
    ensures
        day_number(a) < day_number(b) ==> date_before(a, b),
        day_number(a) == day_number(b) ==> a.year == b.year && a.month == b.month && a.day == b.day,
{
    if date_before(a, b) {
        lemma_date_before_day_number(a, b);
    } else if date_before(b, a) {
        lemma_date_before_day_number(b, a);
    }
}

/// An instant splits into a day and a time of day: the earlier of two valid
/// date-times has the earlier (or the same) day, and on the same day the
/// earlier (or the same) time.
pub proof fn lemma_seconds_split(a: CivilDateTime, b: CivilDateTime)
    requires
        valid_civil(a),
        valid_civil(b),
        civil_seconds(a) <= civil_seconds(b),
    ensures
        day_number(a) <= day_number(b),
        day_number(a) == day_number(b) ==> time_of_day(a) <= time_of_day(b),
        day_number(a) == day_number(b) && civil_seconds(a) < civil_seconds(b) ==> time_of_day(a) < time_of_day(b),
{
    let da = day_number(a);
    let db = day_number(b);
    let ta = time_of_day(a);
    let tb = time_of_day(b);
    assert(civil_seconds(a) == da * 86400 + ta);
    assert(civil_seconds(b) == db * 86400 + tb);
    assert(0 <= ta < 86400 && 0 <= tb < 86400);
    assert(da <= db) by (nonlinear_arith)
        requires
            da * 86400 + ta <= db * 86400 + tb,
            0 <= ta < 86400,
            0 <= tb < 86400,
    ;
}

/// Times of day are ordered by hour, then minute, then second.
pub proof fn lemma_time_order(a: CivilDateTime, b: CivilDateTime)
    requires
        valid_civil(a),
        valid_civil(b),
        time_of_day(a) <= time_of_day(b),
    ensures
        a.hour <= b.hour,
        a.hour == b.hour ==> a.minute <= b.minute,
        a.hour == b.hour && a.minute == b.minute ==> a.second <= b.second,
{
    let ra = a.minute * 60 + a.second;
    let rb = b.minute * 60 + b.second;
    assert(0 <= ra < 3600 && 0 <= rb < 3600);
    assert(a.hour <= b.hour) by (nonlinear_arith)
        requires
            a.hour * 3600 + ra <= b.hour * 3600 + rb,
            0 <= ra < 3600,
            0 <= rb < 3600,
    ;
}

/// Moving a valid date-time by a whole number of days (within a day of
/// seconds, a whole hour, a whole minute) moves its day, hour or minute count.
pub proof fn lemma_shift(a: CivilDateTime, x: CivilDateTime, unit: int)
    requires
        valid_civil(a),
        valid_civil(x),
        unit == 60 || unit == 3600 || unit == 86400,
        civil_seconds(x) == civil_seconds(a) + unit,
    ensures
        unit == 86400 ==> day_number(x) == day_number(a) + 1 && time_of_day(x) == time_of_day(a),
        unit == 3600 ==> day_number(x) * 24 + x.hour == day_number(a) * 24 + a.hour + 1
            && x.minute == a.minute && x.second == a.second,
        unit == 60 ==> (day_number(x) * 24 + x.hour) * 60 + x.minute == (day_number(a) * 24 + a.hour) * 60 + a.minute + 1
            && x.second == a.second,
{
    let ha = day_number(a) * 24 + a.hour;
    let hx = day_number(x) * 24 + x.hour;
    let ma = ha * 60 + a.minute;
    let mx = hx * 60 + x.minute;
    assert(civil_seconds(a) == ma * 60 + a.second) by (nonlinear_arith)
        requires
            ma == ha * 60 + a.minute,
            ha == day_number(a) * 24 + a.hour,
            civil_seconds(a) == day_number(a) * 86400 + a.hour * 3600 + a.minute * 60 + a.second,
    ;
    assert(civil_seconds(x) == mx * 60 + x.second) by (nonlinear_arith)
        requires
            mx == hx * 60 + x.minute,
            hx == day_number(x) * 24 + x.hour,
            civil_seconds(x) == day_number(x) * 86400 + x.hour * 3600 + x.minute * 60 + x.second,
    ;
    if unit == 60 {
        assert(mx == ma + 1 && x.second == a.second) by (nonlinear_arith)
            requires
                mx * 60 + x.second == ma * 60 + a.second + 60,
                0 <= a.second < 60,
                0 <= x.second < 60,
        ;
    } else if unit == 3600 {
        let ra = a.minute * 60 + a.second;
        let rx = x.minute * 60 + x.second;
        assert(hx == ha + 1 && rx == ra) by (nonlinear_arith)
            requires
                hx * 3600 + rx == ha * 3600 + ra + 3600,
                0 <= ra < 3600,
                0 <= rx < 3600,
        ;
        assert(x.minute == a.minute && x.second == a.second) by (nonlinear_arith)
            requires
                x.minute * 60 + x.second == a.minute * 60 + a.second,
                0 <= a.second < 60,
                0 <= x.second < 60,
        ;
    } else {
        let ta = time_of_day(a);
        let tx = time_of_day(x);
        assert(day_number(x) == day_number(a) + 1 && tx == ta) by (nonlinear_arith)
            requires
                day_number(x) * 86400 + tx == day_number(a) * 86400 + ta + 86400,
                0 <= ta < 86400,
                0 <= tx < 86400,
        ;
    }
}

/// Every day from chrono's first to its last has a date.
proof fn lemma_day_exists(d: int)
    requires
        day_number(civil_min()) <= d <= day_number(civil_max()),
    ensures
        exists|x: CivilDateTime| valid_civil(x) && day_number(x) == d,
    decreases d - day_number(civil_min()),
{
    if d == day_number(civil_min()) {
        assert(valid_civil(civil_min()));
    } else {
        lemma_day_exists(d - 1);
        let x = choose|x: CivilDateTime| valid_civil(x) && day_number(x) == d - 1;
        if x.day < days_in_month(x.year as int, x.month as int) {
            let y = CivilDateTime { day: (x.day + 1) as u32, ..x };
            assert(valid_civil(y) && day_number(y) == d);
        } else if x.month < 12 {
            let y = CivilDateTime { month: (x.month + 1) as u32, day: 1, ..x };
            assert(valid_civil(y) && day_number(y) == d);
        } else {
            if x.year == MAX_YEAR {
                assert(x == CivilDateTime { hour: x.hour, minute: x.minute, second: x.second, ..civil_max() });
                assert(day_number(x) == day_number(civil_max()));
            }
            lemma_year_length(x.year as int);
            let y = CivilDateTime { year: (x.year + 1) as i32, month: 1, day: 1, ..x };
            assert(valid_civil(y) && day_number(y) == d);
        }
    }
}

/// Every instant in chrono's range is a valid date-time.
pub proof fn lemma_civil_at(t: int)
    requires
        civil_seconds(civil_min()) <= t <= civil_seconds(civil_max()),
    ensures
        valid_civil(civil_at(t)),
        civil_seconds(civil_at(t)) == t,
{
    let lo = day_number(civil_min());
    let hi = day_number(civil_max());
    let d = t / 86400;
    let r = t % 86400;
    assert(t == d * 86400 + r && 0 <= r < 86400) by (nonlinear_arith)
        requires
            d == t / 86400,
            r == t % 86400,
    ;
    assert(lo <= d <= hi) by (nonlinear_arith)
        requires
            lo * 86400 <= t <= hi * 86400 + 86399,
            t == d * 86400 + r,
            0 <= r < 86400,
    ;
    lemma_day_exists(d);
    let x = choose|x: CivilDateTime| valid_civil(x) && day_number(x) == d;
    let h = r / 3600;
    let q = r % 3600;
    let m = q / 60;
    let s = q % 60;
    assert(r == h * 3600 + q && 0 <= q < 3600 && 0 <= h < 24) by (nonlinear_arith)
        requires
            0 <= r < 86400,
            h == r / 3600,
            q == r % 3600,
    ;
    assert(q == m * 60 + s && 0 <= s < 60 && 0 <= m < 60) by (nonlinear_arith)
        requires
            0 <= q < 3600,
            m == q / 60,
            s == q % 60,
    ;
    let y = CivilDateTime { hour: h as u32, minute: m as u32, second: s as u32, ..x };
    assert(valid_civil(y));
    assert(civil_seconds(y) == t);
}

} // verus!
