//! Cron matching and the search for the next time a cron expression fires.

use vstd::prelude::*;
use crate::cron::{CronExpression, CronField, CronSpec, cron_spec};
use crate::datetime::{
    CivilDateTime, MAX_YEAR, MIN_YEAR, add_seconds_spec, days_in_month, lemma_add_seconds, civil_checked_add_seconds, civil_seconds, civil_seconds_between, lemma_later_month,
    lemma_next_year, civil_max, civil_min, date_before, day_number, lemma_civil_at, lemma_day_number_order,
    lemma_seconds_split, lemma_shift, lemma_time_order, time_of_day,
    civil_weekday_from_sunday, local_time_in_zone, valid_civil, weekday_spec, zone_local_time,
};

verus! {

impl CronExpression {
    /// Whether `dt` satisfies all six fields (the weekday counted from Sunday = 0).
    pub open spec fn matches_spec(&self, dt: CivilDateTime) -> bool {
        &&& self.second.values@.contains(dt.second)
        &&& self.minute.values@.contains(dt.minute)
        &&& self.hour.values@.contains(dt.hour)
        &&& self.day_of_month.values@.contains(dt.day)
        &&& self.month.values@.contains(dt.month)
        &&& self.day_of_week.values@.contains(weekday_spec(dt) as u32)
    }

    /// Whether every listed value lies in its field's range, as in a parsed
    /// expression: seconds and minutes 0-59, hours 0-23, days 1-31, months 1-12.
    pub open spec fn in_range(&self) -> bool {
        &&& forall|v: u32| self.second.values@.contains(v) ==> v < 60
        &&& forall|v: u32| self.minute.values@.contains(v) ==> v < 60
        &&& forall|v: u32| self.hour.values@.contains(v) ==> v < 24
        &&& forall|v: u32| self.day_of_month.values@.contains(v) ==> 1 <= v <= 31
        &&& forall|v: u32| self.month.values@.contains(v) ==> 1 <= v <= 12
    }

    /// Whether the date-time `dt` matches this expression.
    pub fn matches_datetime(&self, dt: &CivilDateTime) -> (b: bool)
        requires
            valid_civil(*dt),
        ensures
            b == self.matches_spec(*dt),
    {
        self.second.matches(dt.second) && self.minute.matches(dt.minute) && self.hour.matches(
            dt.hour,
        ) && self.day_of_month.matches(dt.day) && self.month.matches(dt.month)
            && self.day_of_week.matches(civil_weekday_from_sunday(*dt))
    }
}

/// The least member of `s` that is at least `x`, if there is one.
#[verifier::opaque]
pub open spec fn least_at_least(s: Set<u32>, x: u32) -> Option<u32> {
    if exists|v: u32| s.contains(v) && v >= x {
        Some(choose|m: u32| s.contains(m) && m >= x && forall|v: u32| s.contains(v) && v >= x ==> m <= v)
    } else {
        None
    }
}

/// The least member of `s`.
#[verifier::opaque]
pub open spec fn least(s: Set<u32>) -> u32 {
    choose|m: u32| s.contains(m) && forall|v: u32| s.contains(v) ==> m <= v
}

/// The greatest member of `s`.
#[verifier::opaque]
pub open spec fn greatest(s: Set<u32>) -> u32 {
    choose|m: u32| s.contains(m) && forall|v: u32| s.contains(v) ==> v <= m
}

/// The values a field lists, as a set.
pub open spec fn field_set(f: CronField) -> Set<u32> {
    Set::new(|v: u32| f.values@.contains(v))
}

impl CronExpression {
    /// The values each field lists, as sets.
    pub open spec fn sets(&self) -> CronSpec {
        CronSpec {
            second: field_set(self.second),
            minute: field_set(self.minute),
            hour: field_set(self.hour),
            day_of_month: field_set(self.day_of_month),
            month: field_set(self.month),
            day_of_week: field_set(self.day_of_week),
        }
    }
}

/// A parsed expression's fields are the sets its text denotes.
pub proof fn lemma_sets_denoted(c: CronExpression, s: CronSpec)
    requires
        c.denotes(s),
    ensures
        c.sets() == s,
{
    assert(c.sets().second =~= s.second);
    assert(c.sets().minute =~= s.minute);
    assert(c.sets().hour =~= s.hour);
    assert(c.sets().day_of_month =~= s.day_of_month);
    assert(c.sets().month =~= s.month);
    assert(c.sets().day_of_week =~= s.day_of_week);
}

proof fn lemma_first_is_least(f: CronField)
    requires
        f.wf(),
        f.values@.len() > 0,
    ensures
        f.values@[0] == least(field_set(f)),
{
    let s = field_set(f);
    let m = f.values@[0];
    assert(s.contains(m));
    assert forall|v: u32| s.contains(v) implies m <= v by {
        let j = choose|j: int| 0 <= j < f.values@.len() && f.values@[j] == v;
        if j > 0 {
            assert(f.values@[0] < f.values@[j]);
        }
    }
    reveal(least);
    let c = least(s);
    assert(s.contains(c) && forall|v: u32| s.contains(v) ==> c <= v);
}

proof fn lemma_last_is_greatest(f: CronField)
    requires
        f.wf(),
        f.values@.len() > 0,
    ensures
        f.values@.last() == greatest(field_set(f)),
{
    let s = field_set(f);
    let n = f.values@.len() - 1;
    let m = f.values@[n];
    assert(s.contains(m));
    assert forall|v: u32| s.contains(v) implies v <= m by {
        let j = choose|j: int| 0 <= j < f.values@.len() && f.values@[j] == v;
        if j < n {
            assert(f.values@[j] < f.values@[n]);
        }
    }
    reveal(greatest);
    let c = greatest(s);
    assert(s.contains(c) && forall|v: u32| s.contains(v) ==> v <= c);
}

/// The first listed value that is at least `x` (`iter().find(|v| v >= x)`):
/// the least such value, the values being listed in ascending order.
fn first_at_least(f: &CronField, x: u32) -> (r: Option<u32>)
    requires
        f.wf(),
    ensures
        r == least_at_least(field_set(*f), x),
        r matches Some(v) ==> f.values@.contains(v) && v >= x,
        r is None ==> forall|j: int| 0 <= j < f.values@.len() ==> f.values@[j] < x,
{
    let ghost s = field_set(*f);
    let mut i: usize = 0;
    while i < f.values.len()
        invariant
            f.wf(),
            s == field_set(*f),
            i <= f.values@.len(),
            forall|j: int| 0 <= j < i ==> f.values@[j] < x,
        decreases f.values.len() - i,
    {
        if f.values[i] >= x {
            let m = f.values[i];
            proof {
                reveal(least_at_least);
                assert(s.contains(m));
                assert forall|v: u32| s.contains(v) && v >= x implies m <= v by {
                    let j = choose|j: int| 0 <= j < f.values@.len() && f.values@[j] == v;
                    if j < i {
                    } else if j > i {
                        assert(f.values@[i as int] < f.values@[j]);
                    }
                }
                let c = choose|c: u32| s.contains(c) && c >= x && forall|v: u32| s.contains(v) && v >= x ==> c <= v;
                assert(s.contains(c) && c >= x && forall|v: u32| s.contains(v) && v >= x ==> c <= v);
            }
            return Some(m);
        }
        i = i + 1;
    }
    proof {
        reveal(least_at_least);
        assert forall|v: u32| !(s.contains(v) && v >= x) by {
            if s.contains(v) {
                let j = choose|j: int| 0 <= j < f.values@.len() && f.values@[j] == v;
            }
        }
    }
    None
}

fn first_value(f: &CronField) -> (r: u32)
    requires
        f.values@.len() > 0,
    ensures
        r == f.values@[0],
{
    f.values[0]
}

fn last_value(f: &CronField) -> (r: u32)
    requires
        f.values@.len() > 0,
    ensures
        r == f.values@.last(),
{
    f.values[f.values.len() - 1]
}

/// What one turn of the search does.
pub enum Step {
    /// `dt` matches: it is the answer.
    Fire,
    /// Look next at this later date-time.
    Next(CivilDateTime),
    /// A jump left the calendar or chrono's range.
    GiveUp,
}

/// `Next` of the date-time a jump produced, `GiveUp` when there is none.
pub open spec fn jump(o: Option<CivilDateTime>) -> Step {
    match o {
        Some(x) => Step::Next(x),
        None => Step::GiveUp,
    }
}

/// Midnight on the first of month `m` of year `y`, when chrono has that date.
pub open spec fn month_start(y: int, m: u32) -> Option<CivilDateTime> {
    if MIN_YEAR <= y <= MAX_YEAR && 1 <= m <= 12 {
        Some(CivilDateTime { year: y as i32, month: m, day: 1, hour: 0, minute: 0, second: 0 })
    } else {
        None
    }
}

/// The least member of `s` that is at least `x`, or else `wrap` (the search
/// wraps round to the field's first value).
pub open spec fn next_or(s: Set<u32>, x: u32, wrap: u32) -> u32 {
    match least_at_least(s, x) {
        Some(v) => v,
        None => wrap,
    }
}

/// `dt` at the time of day `h:m:s`, when those are a time of day.
pub open spec fn at_time(dt: CivilDateTime, h: u32, m: u32, s: u32) -> Option<CivilDateTime> {
    if h < 24 && m < 60 && s < 60 {
        Some(CivilDateTime { hour: h, minute: m, second: s, ..dt })
    } else {
        None
    }
}

/// `dt` moved by `secs` seconds, then set to the time of day `h:m:s`.
pub open spec fn later_at(dt: CivilDateTime, secs: int, h: u32, m: u32, s: u32) -> Option<CivilDateTime> {
    match add_seconds_spec(dt, secs) {
        Some(x) => at_time(x, h, m, s),
        None => None,
    }
}

/// Midnight on the first of the month after that of `dt`.
pub open spec fn next_month_start(dt: CivilDateTime) -> Option<CivilDateTime> {
    if dt.month < 12 {
        month_start(dt.year as int, (dt.month + 1) as u32)
    } else {
        month_start(dt.year + 1, 1)
    }
}

/// One turn of the greedy search at `dt` for the fields `c`: the first field
/// (month, hour, minute, second, day of month, weekday) that `dt` does not
/// match decides the jump; when all match, `dt` fires.
pub open spec fn step_spec(c: CronSpec, dt: CivilDateTime) -> Step {
    let ss = least(c.second);
    let fm = least(c.month);
    let next_year = month_start(dt.year + 1, fm);
    if dt.month > greatest(c.month) {
        jump(next_year)
    } else if !c.month.contains(dt.month) {
        let nm = next_or(c.month, dt.month, fm);
        if nm < dt.month {
            jump(next_year)
        } else {
            jump(month_start(dt.year as int, nm))
        }
    } else if !c.hour.contains(dt.hour) {
        let nh = next_or(c.hour, dt.hour, least(c.hour));
        if nh <= dt.hour {
            jump(later_at(dt, 86400, 0, 0, 0))
        } else {
            jump(at_time(dt, nh, 0, 0))
        }
    } else if !c.minute.contains(dt.minute) {
        let nmin = next_or(c.minute, dt.minute, least(c.minute));
        if nmin <= dt.minute {
            jump(match add_seconds_spec(dt, 3600) {
                Some(x) => at_time(x, x.hour, 0, 0),
                None => None,
            })
        } else {
            jump(at_time(dt, dt.hour, nmin, 0))
        }
    } else if !c.second.contains(dt.second) {
        match least_at_least(c.second, dt.second) {
            Some(ns) => jump(at_time(dt, dt.hour, dt.minute, ns)),
            None => jump(match add_seconds_spec(dt, 60) {
                Some(x) => at_time(x, x.hour, x.minute, ss),
                None => None,
            }),
        }
    } else if !c.day_of_month.contains(dt.day) {
        let nd = next_or(c.day_of_month, dt.day, least(c.day_of_month));
        if nd <= dt.day {
            jump(later_at(dt, 86400, 0, 0, ss))
        } else if 1 <= nd <= days_in_month(dt.year as int, dt.month as int) {
            jump(at_time(CivilDateTime { day: nd, ..dt }, 0, 0, ss))
        } else {
            jump(next_month_start(dt))
        }
    } else if !c.day_of_week.contains(weekday_spec(dt) as u32) {
        jump(later_at(dt, 86400, 0, 0, ss))
    } else {
        Step::Fire
    }
}

/// One turn of the greedy search at `dt`: the first field (month, hour,
/// minute, second, day of month, weekday) that does not match decides the
/// jump to a later date-time.
#[verifier::rlimit(60)]
#[verifier::spinoff_prover]
fn fire_step(cron: &CronExpression, at: CivilDateTime, start_second: u32) -> (st: Step)
    requires
        cron.wf(),
        valid_civil(at),
        start_second == cron.second.values@[0],
    ensures
        st == step_spec(cron.sets(), at),
        match st {
            Step::Fire => cron.matches_spec(at),
            Step::Next(n) => valid_civil(n) && civil_seconds(n) > civil_seconds(at),
            Step::GiveUp => true,
        },
{
    let ghost c = cron.sets();
    proof {
        lemma_first_is_least(cron.second);
        lemma_first_is_least(cron.month);
        lemma_last_is_greatest(cron.month);
        lemma_first_is_least(cron.hour);
        lemma_first_is_least(cron.minute);
        lemma_first_is_least(cron.day_of_month);
    }
    let mut dt = at;
    let year: i32 = dt.year;
    let first_month: u32 = first_value(&cron.month);
    let last_month: u32 = last_value(&cron.month);
    if dt.month > last_month {
        proof {
            if 1 <= first_month <= 12 {
                lemma_next_year(at, first_month);
            }
        }
        dt = match CivilDateTime::first_of_month(year + 1, first_month) {
            Some(x) => x,
            None => {
                return Step::GiveUp;
            },
        };
        return Step::Next(dt);
    }
    if !cron.month.matches(dt.month) {
        let next_month: u32 = match first_at_least(&cron.month, dt.month) {
            Some(m) => m,
            None => first_month,
        };
        if next_month < dt.month {
            proof {
                if 1 <= first_month <= 12 {
                    lemma_next_year(at, first_month);
                }
            }
            dt = match CivilDateTime::first_of_month(year + 1, first_month) {
                Some(x) => x,
                None => {
                    return Step::GiveUp;
                },
            };
            return Step::Next(dt);
        }
        proof {
            if next_month <= 12 {
                lemma_later_month(at, next_month);
            }
        }
        dt = match CivilDateTime::first_of_month(year, next_month) {
            Some(x) => x,
            None => {
                return Step::GiveUp;
            },
        };
        return Step::Next(dt);
    }
    if !cron.hour.matches(dt.hour) {
        let next_hour: u32 = match first_at_least(&cron.hour, dt.hour) {
            Some(h) => h,
            None => first_value(&cron.hour),
        };
        if next_hour <= dt.hour {
            let r = civil_checked_add_seconds(dt, 86_400);
            proof {
                lemma_add_seconds(at, 86400, r);
            }
            dt = match r {
                Some(x) => x,
                None => {
                    return Step::GiveUp;
                },
            };
            dt = CivilDateTime { hour: 0, minute: 0, second: 0, ..dt };
            return Step::Next(dt);
        }
        dt = match dt.with_hour(next_hour) {
            Some(x) => x,
            None => {
                return Step::GiveUp;
            },
        };
        dt = CivilDateTime { minute: 0, second: 0, ..dt };
        return Step::Next(dt);
    }
    if !cron.minute.matches(dt.minute) {
        let next_minute: u32 = match first_at_least(&cron.minute, dt.minute) {
            Some(m) => m,
            None => first_value(&cron.minute),
        };
        if next_minute <= dt.minute {
            let r = civil_checked_add_seconds(dt, 3_600);
            proof {
                lemma_add_seconds(at, 3600, r);
            }
            dt = match r {
                Some(x) => x,
                None => {
                    return Step::GiveUp;
                },
            };
            dt = CivilDateTime { minute: 0, second: 0, ..dt };
            return Step::Next(dt);
        }
        dt = match dt.with_minute(next_minute) {
            Some(x) => x,
            None => {
                return Step::GiveUp;
            },
        };
        dt = CivilDateTime { second: 0, ..dt };
        return Step::Next(dt);
    }
    if !cron.second.matches(dt.second) {
        if let Some(ns) = first_at_least(&cron.second, dt.second) {
            dt = match dt.with_second(ns) {
                Some(x) => x,
                None => {
                    return Step::GiveUp;
                },
            };
        } else {
            let r = civil_checked_add_seconds(dt, 60);
            proof {
                lemma_add_seconds(at, 60, r);
            }
            dt = match r {
                Some(x) => x,
                None => {
                    return Step::GiveUp;
                },
            };
            dt = match dt.with_second(start_second) {
                Some(x) => x,
                None => {
                    return Step::GiveUp;
                },
            };
        }
        return Step::Next(dt);
    }
    if !cron.day_of_month.matches(dt.day) {
        let next_dom: u32 = match first_at_least(&cron.day_of_month, dt.day) {
            Some(d) => d,
            None => first_value(&cron.day_of_month),
        };
        if next_dom <= dt.day {
            let r = civil_checked_add_seconds(dt, 86_400);
            proof {
                lemma_add_seconds(at, 86400, r);
            }
            dt = match r {
                Some(x) => x,
                None => {
                    return Step::GiveUp;
                },
            };
            dt = match (CivilDateTime { hour: 0, minute: 0, ..dt }).with_second(start_second) {
                Some(x) => x,
                None => {
                    return Step::GiveUp;
                },
            };
            return Step::Next(dt);
        }
        dt = match dt.with_day(next_dom) {
            Some(x) => x,
            None => {
                let next = if dt.month < 12 {
                    proof {
                        lemma_later_month(at, (at.month + 1) as u32);
                    }
                    CivilDateTime::first_of_month(year, dt.month + 1)
                } else {
                    proof {
                        lemma_next_year(at, 1);
                    }
                    CivilDateTime::first_of_month(year + 1, 1)
                };
                return match next {
                    Some(x) => Step::Next(x),
                    None => Step::GiveUp,
                };
            },
        };
        dt = match (CivilDateTime { hour: 0, minute: 0, ..dt }).with_second(start_second) {
            Some(x) => x,
            None => {
                return Step::GiveUp;
            },
        };
        return Step::Next(dt);
    }
    let dow: u32 = civil_weekday_from_sunday(dt);
    if !cron.day_of_week.matches(dow) {
        let r = civil_checked_add_seconds(dt, 86_400);
        proof {
            lemma_add_seconds(at, 86400, r);
        }
        dt = match r {
            Some(x) => x,
            None => {
                return Step::GiveUp;
            },
        };
        dt = match (CivilDateTime { hour: 0, minute: 0, ..dt }).with_second(start_second) {
            Some(x) => x,
            None => {
                return Step::GiveUp;
            },
        };
        return Step::Next(dt);
    }
    Step::Fire
}

/// At most `fuel` turns of the search from `dt`: the date-time that fires,
/// or `None` when the search gives up or runs out of turns.
pub open spec fn search_spec(c: CronSpec, dt: CivilDateTime, fuel: nat) -> Option<CivilDateTime>
    decreases fuel,
{
    if fuel == 0 {
        None
    } else {
        match step_spec(c, dt) {
            Step::Fire => Some(dt),
            Step::Next(n) => search_spec(c, n, (fuel - 1) as nat),
            Step::GiveUp => None,
        }
    }
}

/// The turns the search is given: about a year of minutes.
pub open spec fn search_turns() -> nat {
    527040
}

/// What `next_fire_time` finds: the search from one second after `from`.
pub open spec fn next_fire_spec(c: CronSpec, from: CivilDateTime) -> Option<CivilDateTime> {
    match add_seconds_spec(from, 1) {
        Some(d) => search_spec(c, d, search_turns()),
        None => None,
    }
}

proof fn lemma_min_from(s: Set<u32>, x: u32, w: u32)
    requires
        s.contains(w),
        w >= x,
    ensures
        exists|m: u32| s.contains(m) && m >= x && forall|u: u32| s.contains(u) && u >= x ==> m <= u,
    decreases w,
{
    if !(forall|u: u32| s.contains(u) && u >= x ==> w <= u) {
        let u = choose|u: u32| !(s.contains(u) && u >= x ==> w <= u);
        lemma_min_from(s, x, u);
    }
}

proof fn lemma_max_from(s: Set<u32>, w: u32)
    requires
        s.contains(w),
    ensures
        exists|m: u32| s.contains(m) && forall|u: u32| s.contains(u) ==> u <= m,
    decreases 0xffff_ffffu32 - w,
{
    if !(forall|u: u32| s.contains(u) ==> u <= w) {
        let u = choose|u: u32| !(s.contains(u) ==> u <= w);
        lemma_max_from(s, u);
    }
}

/// `least_at_least` is the least member at or above `x`, if any.
proof fn lemma_least_at_least(s: Set<u32>, x: u32)
    ensures
        least_at_least(s, x) matches Some(v) ==> s.contains(v) && v >= x && forall|u: u32| s.contains(u) && u >= x ==> v <= u,
        least_at_least(s, x) is None ==> forall|u: u32| s.contains(u) ==> u < x,
{
    reveal(least_at_least);
    if exists|v: u32| s.contains(v) && v >= x {
        let w = choose|v: u32| s.contains(v) && v >= x;
        lemma_min_from(s, x, w);
    }
}

/// The least and greatest members of a set that has one.
proof fn lemma_least_greatest(s: Set<u32>, w: u32)
    requires
        s.contains(w),
    ensures
        s.contains(least(s)),
        forall|u: u32| s.contains(u) ==> least(s) <= u,
        s.contains(greatest(s)),
        forall|u: u32| s.contains(u) ==> u <= greatest(s),
{
    reveal(least);
    reveal(greatest);
    lemma_min_from(s, 0, w);
    lemma_max_from(s, w);
}

/// Two date-times with an instant `t` between them, `a <= t < b`: `t`'s day
/// lies between theirs, and shares the time bound of an end whose day it shares.
proof fn lemma_between(a: CivilDateTime, t: CivilDateTime, b: CivilDateTime)
    requires
        valid_civil(a),
        valid_civil(t),
        valid_civil(b),
        civil_seconds(a) <= civil_seconds(t) < civil_seconds(b),
    ensures
        day_number(a) <= day_number(t) <= day_number(b),
        day_number(a) < day_number(t) ==> date_before(a, t),
        day_number(a) == day_number(t) ==> a.year == t.year && a.month == t.month && a.day == t.day
            && time_of_day(a) <= time_of_day(t),
        day_number(t) < day_number(b) ==> date_before(t, b),
        day_number(t) == day_number(b) ==> t.year == b.year && t.month == b.month && t.day == b.day
            && time_of_day(t) < time_of_day(b),
{
    lemma_seconds_split(a, t);
    lemma_seconds_split(t, b);
    lemma_day_number_order(a, t);
    lemma_day_number_order(t, b);
}

/// `dt` moved by `secs` seconds, when that stays in chrono's range, is a valid
/// date-time that many seconds later.
proof fn lemma_add_seconds_valid(dt: CivilDateTime, secs: int)
    requires
        add_seconds_spec(dt, secs) is Some,
    ensures
        valid_civil(add_seconds_spec(dt, secs)->0),
        civil_seconds(add_seconds_spec(dt, secs)->0) == civil_seconds(dt) + secs,
{
    lemma_civil_at(civil_seconds(dt) + secs);
}

/// No time from `dt` up to (not including) `n` matches.
pub open spec fn skips_none(cron: CronExpression, dt: CivilDateTime, n: CivilDateTime) -> bool {
    forall|t: CivilDateTime|
        valid_civil(t) && civil_seconds(dt) <= civil_seconds(t) < civil_seconds(n) ==> !cron.matches_spec(t)
}

/// The facts about the fields' least and greatest values that a turn uses.
proof fn lemma_field_facts(cron: CronExpression, dt: CivilDateTime)
    requires
        cron.wf(),
    ensures
        cron.sets().second.contains(least(cron.sets().second)),
        forall|u: u32| cron.sets().second.contains(u) ==> least(cron.sets().second) <= u,
        cron.sets().month.contains(least(cron.sets().month)),
        forall|u: u32| cron.sets().month.contains(u) ==> least(cron.sets().month) <= u,
        forall|u: u32| cron.sets().month.contains(u) ==> u <= greatest(cron.sets().month),
        cron.sets().hour.contains(least(cron.sets().hour)),
        cron.sets().minute.contains(least(cron.sets().minute)),
        cron.sets().day_of_month.contains(least(cron.sets().day_of_month)),
{
    let c = cron.sets();
    assert(c.second.contains(cron.second.values@[0]));
    assert(c.minute.contains(cron.minute.values@[0]));
    assert(c.hour.contains(cron.hour.values@[0]));
    assert(c.day_of_month.contains(cron.day_of_month.values@[0]));
    assert(c.month.contains(cron.month.values@[0]));
    lemma_least_greatest(c.second, cron.second.values@[0]);
    lemma_least_greatest(c.minute, cron.minute.values@[0]);
    lemma_least_greatest(c.hour, cron.hour.values@[0]);
    lemma_least_greatest(c.day_of_month, cron.day_of_month.values@[0]);
    lemma_least_greatest(c.month, cron.month.values@[0]);
}

/// A turn that moves on because of the month.
proof fn lemma_step_month(cron: CronExpression, dt: CivilDateTime, n: CivilDateTime)
    requires
        cron.wf(),
        valid_civil(dt),
        dt.month > greatest(cron.sets().month) || !cron.sets().month.contains(dt.month),
        step_spec(cron.sets(), dt) == Step::Next(n),
    ensures
        valid_civil(n),
        skips_none(cron, dt, n),
{
    let c = cron.sets();
    lemma_field_facts(cron, dt);
    lemma_least_at_least(c.month, dt.month);
    let fm = least(c.month);
    if dt.month > greatest(c.month) || (!c.month.contains(dt.month) && next_or(c.month, dt.month, fm) < dt.month) {
        assert(n == CivilDateTime { year: (dt.year + 1) as i32, month: fm, day: 1, hour: 0, minute: 0, second: 0 });
        assert forall|t: CivilDateTime| valid_civil(t) && civil_seconds(dt) <= civil_seconds(t) < civil_seconds(n)
            implies !cron.matches_spec(t) by {
            lemma_between(dt, t, n);
            assert(dt.year <= t.year <= dt.year + 1);
            if t.year == dt.year {
                assert(t.month >= dt.month);
                assert(!c.month.contains(t.month));
            } else {
                assert(t.month < fm);
                assert(!c.month.contains(t.month));
            }
        }
    } else {
        let nm = next_or(c.month, dt.month, fm);
        assert(n == CivilDateTime { year: dt.year, month: nm, day: 1, hour: 0, minute: 0, second: 0 });
        assert forall|t: CivilDateTime| valid_civil(t) && civil_seconds(dt) <= civil_seconds(t) < civil_seconds(n)
            implies !cron.matches_spec(t) by {
            lemma_between(dt, t, n);
            assert(t.year == dt.year && dt.month <= t.month < nm);
            assert(!c.month.contains(t.month));
        }
    }
}

/// A turn that moves on because of the hour.
proof fn lemma_step_hour(cron: CronExpression, dt: CivilDateTime, n: CivilDateTime)
    requires
        cron.wf(),
        valid_civil(dt),
        dt.month <= greatest(cron.sets().month),
        cron.sets().month.contains(dt.month),
        !cron.sets().hour.contains(dt.hour),
        step_spec(cron.sets(), dt) == Step::Next(n),
    ensures
        valid_civil(n),
        skips_none(cron, dt, n),
{
    let c = cron.sets();
    lemma_field_facts(cron, dt);
    lemma_least_at_least(c.hour, dt.hour);
    let nh = next_or(c.hour, dt.hour, least(c.hour));
    if nh <= dt.hour {
        lemma_add_seconds_valid(dt, 86400);
        let x = add_seconds_spec(dt, 86400)->0;
        lemma_shift(dt, x, 86400);
        assert(n == CivilDateTime { hour: 0, minute: 0, second: 0, ..x });
        assert(day_number(n) == day_number(x));
        assert forall|t: CivilDateTime| valid_civil(t) && civil_seconds(dt) <= civil_seconds(t) < civil_seconds(n)
            implies !cron.matches_spec(t) by {
            lemma_between(dt, t, n);
            assert(day_number(t) == day_number(dt));
            lemma_time_order(dt, t);
            assert(!c.hour.contains(t.hour));
        }
    } else {
        assert(n == CivilDateTime { hour: nh, minute: 0, second: 0, ..dt });
        assert forall|t: CivilDateTime| valid_civil(t) && civil_seconds(dt) <= civil_seconds(t) < civil_seconds(n)
            implies !cron.matches_spec(t) by {
            lemma_between(dt, t, n);
            assert(day_number(n) == day_number(dt));
            lemma_time_order(dt, t);
            assert(t.hour < nh);
            assert(!c.hour.contains(t.hour));
        }
    }
}

/// A turn that moves on because of the minute.
proof fn lemma_step_minute(cron: CronExpression, dt: CivilDateTime, n: CivilDateTime)
    requires
        cron.wf(),
        valid_civil(dt),
        dt.month <= greatest(cron.sets().month),
        cron.sets().month.contains(dt.month),
        cron.sets().hour.contains(dt.hour),
        !cron.sets().minute.contains(dt.minute),
        step_spec(cron.sets(), dt) == Step::Next(n),
    ensures
        valid_civil(n),
        skips_none(cron, dt, n),
{
    let c = cron.sets();
    lemma_field_facts(cron, dt);
    lemma_least_at_least(c.minute, dt.minute);
    let nmin = next_or(c.minute, dt.minute, least(c.minute));
    if nmin <= dt.minute {
        lemma_add_seconds_valid(dt, 3600);
        let x = add_seconds_spec(dt, 3600)->0;
        lemma_shift(dt, x, 3600);
        assert(n == CivilDateTime { minute: 0, second: 0, ..x });
        assert(day_number(n) == day_number(x));
        assert forall|t: CivilDateTime| valid_civil(t) && civil_seconds(dt) <= civil_seconds(t) < civil_seconds(n)
            implies !cron.matches_spec(t) by {
            lemma_between(dt, t, n);
            assert(day_number(t) == day_number(dt));
            lemma_time_order(dt, t);
            assert(t.hour == dt.hour);
            assert(t.minute >= dt.minute);
            assert(!c.minute.contains(t.minute));
        }
    } else {
        assert(n == CivilDateTime { minute: nmin, second: 0, ..dt });
        assert forall|t: CivilDateTime| valid_civil(t) && civil_seconds(dt) <= civil_seconds(t) < civil_seconds(n)
            implies !cron.matches_spec(t) by {
            lemma_between(dt, t, n);
            assert(day_number(n) == day_number(dt));
            lemma_time_order(dt, t);
            lemma_time_order(t, n);
            assert(t.hour == dt.hour);
            assert(dt.minute <= t.minute < nmin);
            assert(!c.minute.contains(t.minute));
        }
    }
}

/// A turn that moves on because of the second.
proof fn lemma_step_second(cron: CronExpression, dt: CivilDateTime, n: CivilDateTime)
    requires
        cron.wf(),
        valid_civil(dt),
        dt.month <= greatest(cron.sets().month),
        cron.sets().month.contains(dt.month),
        cron.sets().hour.contains(dt.hour),
        cron.sets().minute.contains(dt.minute),
        !cron.sets().second.contains(dt.second),
        step_spec(cron.sets(), dt) == Step::Next(n),
    ensures
        valid_civil(n),
        skips_none(cron, dt, n),
{
    let c = cron.sets();
    lemma_field_facts(cron, dt);
    lemma_least_at_least(c.second, dt.second);
    let ss = least(c.second);
    match least_at_least(c.second, dt.second) {
        Some(ns) => {
            assert(n == CivilDateTime { second: ns, ..dt });
            assert forall|t: CivilDateTime| valid_civil(t) && civil_seconds(dt) <= civil_seconds(t) < civil_seconds(n)
                implies !cron.matches_spec(t) by {
                lemma_between(dt, t, n);
                assert(day_number(n) == day_number(dt));
                lemma_time_order(dt, t);
                lemma_time_order(t, n);
                assert(dt.second <= t.second < ns);
                assert(!c.second.contains(t.second));
            }
        },
        None => {
            lemma_add_seconds_valid(dt, 60);
            let x = add_seconds_spec(dt, 60)->0;
            lemma_shift(dt, x, 60);
            assert(n == CivilDateTime { second: ss, ..x });
            assert forall|t: CivilDateTime| valid_civil(t) && civil_seconds(dt) <= civil_seconds(t) < civil_seconds(n)
                implies !cron.matches_spec(t) by {
                let md = (day_number(dt) * 24 + dt.hour) * 60 + dt.minute;
                let mt = (day_number(t) * 24 + t.hour) * 60 + t.minute;
                assert(civil_seconds(dt) == md * 60 + dt.second) by (nonlinear_arith)
                    requires
                        md == (day_number(dt) * 24 + dt.hour) * 60 + dt.minute,
                        civil_seconds(dt) == day_number(dt) * 86400 + dt.hour * 3600 + dt.minute * 60 + dt.second,
                ;
                assert(civil_seconds(t) == mt * 60 + t.second) by (nonlinear_arith)
                    requires
                        mt == (day_number(t) * 24 + t.hour) * 60 + t.minute,
                        civil_seconds(t) == day_number(t) * 86400 + t.hour * 3600 + t.minute * 60 + t.second,
                ;
                assert(civil_seconds(n) == (md + 1) * 60 + ss) by (nonlinear_arith)
                    requires
                        (day_number(x) * 24 + x.hour) * 60 + x.minute == md + 1,
                        n == (CivilDateTime { second: ss, ..x }),
                        civil_seconds(n) == day_number(n) * 86400 + n.hour * 3600 + n.minute * 60 + n.second,
                        day_number(n) == day_number(x),
                ;
                assert(t.second >= dt.second || t.second < ss) by (nonlinear_arith)
                    requires
                        md * 60 + dt.second <= mt * 60 + t.second,
                        mt * 60 + t.second < (md + 1) * 60 + ss,
                        0 <= dt.second < 60,
                        0 <= t.second < 60,
                        ss < 60,
                ;
                assert(!c.second.contains(t.second));
            }
        },
    }
}

/// A turn that moves on because of the day of the month.
proof fn lemma_step_day(cron: CronExpression, dt: CivilDateTime, n: CivilDateTime)
    requires
        cron.wf(),
        valid_civil(dt),
        dt.month <= greatest(cron.sets().month),
        cron.sets().month.contains(dt.month),
        cron.sets().hour.contains(dt.hour),
        cron.sets().minute.contains(dt.minute),
        cron.sets().second.contains(dt.second),
        !cron.sets().day_of_month.contains(dt.day),
        step_spec(cron.sets(), dt) == Step::Next(n),
    ensures
        valid_civil(n),
        skips_none(cron, dt, n),
{
    let c = cron.sets();
    lemma_field_facts(cron, dt);
    lemma_least_at_least(c.day_of_month, dt.day);
    let ss = least(c.second);
    let nd = next_or(c.day_of_month, dt.day, least(c.day_of_month));
    if nd <= dt.day {
        lemma_add_seconds_valid(dt, 86400);
        let x = add_seconds_spec(dt, 86400)->0;
        lemma_shift(dt, x, 86400);
        assert(n == CivilDateTime { hour: 0, minute: 0, second: ss, ..x });
        assert(day_number(n) == day_number(x));
        assert forall|t: CivilDateTime| valid_civil(t) && civil_seconds(dt) <= civil_seconds(t) < civil_seconds(n)
            implies !cron.matches_spec(t) by {
            lemma_between(dt, t, n);
            if day_number(t) == day_number(dt) {
                assert(!c.day_of_month.contains(t.day));
            } else {
                assert(day_number(t) == day_number(n));
                assert(t.second < ss);
                assert(!c.second.contains(t.second));
            }
        }
    } else if 1 <= nd <= days_in_month(dt.year as int, dt.month as int) {
        assert(n == CivilDateTime { day: nd, hour: 0, minute: 0, second: ss, ..dt });
        assert forall|t: CivilDateTime| valid_civil(t) && civil_seconds(dt) <= civil_seconds(t) < civil_seconds(n)
            implies !cron.matches_spec(t) by {
            lemma_between(dt, t, n);
            if day_number(t) == day_number(n) {
                assert(t.second < ss);
                assert(!c.second.contains(t.second));
            } else {
                assert(t.year == dt.year && t.month == dt.month && dt.day <= t.day < nd);
                assert(!c.day_of_month.contains(t.day));
            }
        }
    } else {
        assert(n == next_month_start(dt)->0);
        assert forall|t: CivilDateTime| valid_civil(t) && civil_seconds(dt) <= civil_seconds(t) < civil_seconds(n)
            implies !cron.matches_spec(t) by {
            lemma_between(dt, t, n);
            assert(t.year == dt.year && t.month == dt.month && dt.day <= t.day);
            assert(t.day < nd);
            assert(!c.day_of_month.contains(t.day));
        }
    }
}

/// A turn that moves on because of the weekday.
proof fn lemma_step_weekday(cron: CronExpression, dt: CivilDateTime, n: CivilDateTime)
    requires
        cron.wf(),
        valid_civil(dt),
        dt.month <= greatest(cron.sets().month),
        cron.sets().month.contains(dt.month),
        cron.sets().hour.contains(dt.hour),
        cron.sets().minute.contains(dt.minute),
        cron.sets().second.contains(dt.second),
        cron.sets().day_of_month.contains(dt.day),
        step_spec(cron.sets(), dt) == Step::Next(n),
    ensures
        valid_civil(n),
        skips_none(cron, dt, n),
{
    let c = cron.sets();
    lemma_field_facts(cron, dt);
    let ss = least(c.second);
    lemma_add_seconds_valid(dt, 86400);
    let x = add_seconds_spec(dt, 86400)->0;
    lemma_shift(dt, x, 86400);
    assert(n == CivilDateTime { hour: 0, minute: 0, second: ss, ..x });
    assert(day_number(n) == day_number(x));
    assert forall|t: CivilDateTime| valid_civil(t) && civil_seconds(dt) <= civil_seconds(t) < civil_seconds(n)
        implies !cron.matches_spec(t) by {
        lemma_between(dt, t, n);
        if day_number(t) == day_number(dt) {
            assert(weekday_spec(t) == weekday_spec(dt));
            assert(!c.day_of_week.contains(weekday_spec(t) as u32));
        } else {
            assert(day_number(t) == day_number(n));
            assert(t.second < ss);
            assert(!c.second.contains(t.second));
        }
    }
}

/// One turn of the search skips no time that fires: when it fires, `dt`
/// matches; when it moves on, it moves to a valid date-time, and no time from
/// `dt` up to (not including) that one matches.
proof fn lemma_step_skips_none(cron: CronExpression, dt: CivilDateTime)
    requires
        cron.wf(),
        valid_civil(dt),
    ensures
        step_spec(cron.sets(), dt) is Fire ==> cron.matches_spec(dt),
        step_spec(cron.sets(), dt) matches Step::Next(n) ==> valid_civil(n) && skips_none(cron, dt, n),
{
    let c = cron.sets();
    if let Step::Next(n) = step_spec(c, dt) {
        if dt.month > greatest(c.month) || !c.month.contains(dt.month) {
            lemma_step_month(cron, dt, n);
        } else if !c.hour.contains(dt.hour) {
            lemma_step_hour(cron, dt, n);
        } else if !c.minute.contains(dt.minute) {
            lemma_step_minute(cron, dt, n);
        } else if !c.second.contains(dt.second) {
            lemma_step_second(cron, dt, n);
        } else if !c.day_of_month.contains(dt.day) {
            lemma_step_day(cron, dt, n);
        } else {
            lemma_step_weekday(cron, dt, n);
        }
    }
}

/// A valid date-time is not before chrono's first instant.
proof fn lemma_not_before_min(dt: CivilDateTime)
    requires
        valid_civil(dt),
    ensures
        civil_seconds(civil_min()) <= civil_seconds(dt),
{
    lemma_day_number_order(dt, civil_min());
    let d0 = day_number(civil_min());
    let d = day_number(dt);
    assert(d0 <= d);
    assert(d0 * 86400 <= d * 86400) by (nonlinear_arith)
        requires
            d0 <= d,
    ;
}

/// A turn of the search gives up only when nothing later fires: for an
/// expression whose values lie in their fields' ranges, at a date-time at least
/// a day before the end of chrono's range, a turn that gives up leaves no
/// matching date-time at or after `dt`.
#[verifier::rlimit(50)]
#[verifier::spinoff_prover]
pub proof fn law_step_gives_up_only_when_nothing_follows(cron: CronExpression, dt: CivilDateTime)
    requires
        cron.wf(),
        cron.in_range(),
        valid_civil(dt),
        civil_seconds(dt) + 86400 <= civil_seconds(civil_max()),
    ensures
        step_spec(cron.sets(), dt) is GiveUp ==> forall|t: CivilDateTime|
            valid_civil(t) && civil_seconds(dt) <= civil_seconds(t) ==> !cron.matches_spec(t),
{
    let c = cron.sets();
    lemma_field_facts(cron, dt);
    lemma_not_before_min(dt);
    lemma_least_at_least(c.month, dt.month);
    lemma_least_at_least(c.hour, dt.hour);
    lemma_least_at_least(c.minute, dt.minute);
    lemma_least_at_least(c.second, dt.second);
    lemma_least_at_least(c.day_of_month, dt.day);
    assert(add_seconds_spec(dt, 60) is Some);
    assert(add_seconds_spec(dt, 3600) is Some);
    assert(add_seconds_spec(dt, 86400) is Some);
    let fm = least(c.month);
    assert(cron.month.values@.contains(fm));
    assert(cron.second.values@.contains(least(c.second)));
    if dt.month > greatest(c.month) || !c.month.contains(dt.month) {
        if step_spec(c, dt) is GiveUp {
            let nm = next_or(c.month, dt.month, fm);
            if !(dt.month > greatest(c.month)) && nm >= dt.month {
                assert(cron.month.values@.contains(nm));
                assert(month_start(dt.year as int, nm) is Some);
            }
            assert(dt.year == MAX_YEAR);
            assert forall|t: CivilDateTime| valid_civil(t) && civil_seconds(dt) <= civil_seconds(t)
                implies !cron.matches_spec(t) by {
                lemma_seconds_split(dt, t);
                lemma_day_number_order(dt, t);
                assert(t.year == dt.year && t.month >= dt.month);
                assert(!c.month.contains(t.month));
            }
        }
    } else if !c.hour.contains(dt.hour) {
        let nh = next_or(c.hour, dt.hour, least(c.hour));
        assert(cron.hour.values@.contains(nh));
        lemma_add_seconds_valid(dt, 86400);
    } else if !c.minute.contains(dt.minute) {
        let nmin = next_or(c.minute, dt.minute, least(c.minute));
        assert(cron.minute.values@.contains(nmin));
        lemma_add_seconds_valid(dt, 3600);
    } else if !c.second.contains(dt.second) {
        if let Some(ns) = least_at_least(c.second, dt.second) {
            assert(cron.second.values@.contains(ns));
        }
        lemma_add_seconds_valid(dt, 60);
    } else if !c.day_of_month.contains(dt.day) {
        let nd = next_or(c.day_of_month, dt.day, least(c.day_of_month));
        assert(cron.day_of_month.values@.contains(nd));
        lemma_add_seconds_valid(dt, 86400);
        if nd > dt.day && !(nd <= days_in_month(dt.year as int, dt.month as int)) {
            assert(dt.month < 12);
        }
    } else {
        lemma_add_seconds_valid(dt, 86400);
    }
}

/// The search skips no time that fires: what it finds from `dt` is the first
/// matching time at or after `dt`.
proof fn lemma_search_skips_none(cron: CronExpression, dt: CivilDateTime, fuel: nat)
    requires
        cron.wf(),
        valid_civil(dt),
    ensures
        search_spec(cron.sets(), dt, fuel) matches Some(r) ==> skips_none(cron, dt, r),
    decreases fuel,
{
    if fuel > 0 {
        lemma_step_skips_none(cron, dt);
        if let Step::Next(n) = step_spec(cron.sets(), dt) {
            lemma_search_skips_none(cron, n, (fuel - 1) as nat);
        }
    }
}

/// Whether `fuel` turns of the search from `dt` all move on, neither firing
/// nor giving up (the search runs out of turns).
pub open spec fn runs_out(c: CronSpec, dt: CivilDateTime, fuel: nat) -> bool
    decreases fuel,
{
    if fuel == 0 {
        true
    } else {
        match step_spec(c, dt) {
            Step::Next(n) => runs_out(c, n, (fuel - 1) as nat),
            _ => false,
        }
    }
}

/// A search that finds nothing and does not run out of turns leaves no
/// matching date-time from `dt` on, up to a day before the end of chrono's range.
proof fn lemma_search_finds_any(cron: CronExpression, dt: CivilDateTime, fuel: nat)
    requires
        cron.wf(),
        cron.in_range(),
        valid_civil(dt),
        search_spec(cron.sets(), dt, fuel) is None,
        !runs_out(cron.sets(), dt, fuel),
    ensures
        forall|t: CivilDateTime|
            valid_civil(t) && civil_seconds(dt) <= civil_seconds(t) && civil_seconds(t) + 86400 <= civil_seconds(civil_max())
                ==> !cron.matches_spec(t),
    decreases fuel,
{
    let c = cron.sets();
    lemma_step_skips_none(cron, dt);
    match step_spec(c, dt) {
        Step::Next(n) => {
            lemma_search_finds_any(cron, n, (fuel - 1) as nat);
        },
        _ => {
            if civil_seconds(dt) + 86400 <= civil_seconds(civil_max()) {
                law_step_gives_up_only_when_nothing_follows(cron, dt);
            }
        },
    }
}

/// `next_fire_time` misses nothing: when it finds no fire time although its
/// search did not run out of turns, no date-time after `from` (up to a day
/// before the end of chrono's range) matches.
pub proof fn law_next_fire_misses_nothing(cron: CronExpression, from: CivilDateTime, t: CivilDateTime)
    requires
        cron.wf(),
        cron.in_range(),
        valid_civil(from),
        valid_civil(t),
        next_fire_spec(cron.sets(), from) is None,
        add_seconds_spec(from, 1) matches Some(d) && !runs_out(cron.sets(), d, search_turns()),
        civil_seconds(from) < civil_seconds(t),
        civil_seconds(t) + 86400 <= civil_seconds(civil_max()),
    ensures
        !cron.matches_spec(t),
{
    lemma_add_seconds_valid(from, 1);
    lemma_search_finds_any(cron, add_seconds_spec(from, 1)->0, search_turns());
}

/// `next_fire_time` finds the first time the expression fires: no time strictly
/// between `from` and the time it returns matches.
pub proof fn law_next_fire_is_first(cron: CronExpression, from: CivilDateTime, t: CivilDateTime)
    requires
        cron.wf(),
        valid_civil(from),
        valid_civil(t),
        next_fire_spec(cron.sets(), from) matches Some(r) && civil_seconds(from) < civil_seconds(t) < civil_seconds(r),
    ensures
        !cron.matches_spec(t),
{
    lemma_add_seconds_valid(from, 1);
    lemma_search_skips_none(cron, add_seconds_spec(from, 1)->0, search_turns());
}

/// Finds the next time at which `cron` fires after `from`, searching forward
/// from the second after it.
///
/// Greedy: fix the month, then hour, minute, second, day of month and weekday,
/// jumping ahead whenever a field does not match; gives up after 527 040 steps
/// (about a year of minutes), or when a jump leaves the calendar or chrono's range.
pub fn next_fire_time(cron: &CronExpression, from: CivilDateTime) -> (r: Option<CivilDateTime>)
    requires
        cron.wf(),
        valid_civil(from),
    ensures
        r == next_fire_spec(cron.sets(), from),
        r matches Some(dt) ==> valid_civil(dt) && cron.matches_spec(dt) && civil_seconds(dt) > civil_seconds(from),
        r matches Some(dt) ==> forall|t: CivilDateTime|
            valid_civil(t) && civil_seconds(from) < civil_seconds(t) < civil_seconds(dt) ==> !cron.matches_spec(t),
{
    let first = civil_checked_add_seconds(from, 1);
    proof {
        lemma_add_seconds(from, 1, first);
    }
    let mut dt = match first {
        Some(x) => x,
        None => {
            return None;
        },
    };
    let ghost base = civil_seconds(dt);
    let start_second: u32 = first_value(&cron.second);
    let mut iter: u32 = 0;
    while iter < 527_040
        invariant
            cron.wf(),
            valid_civil(from),
            valid_civil(dt),
            start_second == cron.second.values@[0],
            base == civil_seconds(from) + 1,
            civil_seconds(dt) >= base,
            iter <= 527_040,
            search_spec(cron.sets(), dt, (search_turns() - iter) as nat) == next_fire_spec(cron.sets(), from),
        decreases 527_040 - iter,
    {
        iter = iter + 1;
        match fire_step(cron, dt, start_second) {
            Step::Fire => {
                proof {
                    assert forall|t: CivilDateTime|
                        valid_civil(t) && civil_seconds(from) < civil_seconds(t) < civil_seconds(dt)
                        implies !cron.matches_spec(t) by {
                        law_next_fire_is_first(*cron, from, t);
                    }
                }
                return Some(dt);
            },
            Step::Next(n) => {
                dt = n;
            },
            Step::GiveUp => {
                return None;
            },
        }
    }
    None
}

/// An agent's schedule: when (a cron expression) and in which time zone.
#[derive(Debug, Clone)]
pub struct Schedule {
    pub cron: String,
    pub timezone: String,
}

pub open spec fn spec_matches(s: CronSpec, dt: CivilDateTime) -> bool {
    &&& s.second.contains(dt.second)
    &&& s.minute.contains(dt.minute)
    &&& s.hour.contains(dt.hour)
    &&& s.day_of_month.contains(dt.day)
    &&& s.month.contains(dt.month)
    &&& s.day_of_week.contains(weekday_spec(dt) as u32)
}

pub open spec fn within_a_minute(a: CivilDateTime, b: CivilDateTime) -> bool {
    -60 <= civil_seconds(a) - civil_seconds(b) <= 60
}

/// Where the search for a due fire time starts: 61 seconds before `local`, so
/// that its first candidate is a minute before `local` (or `local` itself, at the
/// very start of chrono's range).
pub open spec fn due_search_start(local: CivilDateTime) -> CivilDateTime {
    match add_seconds_spec(local, -61) {
        Some(b) => b,
        None => local,
    }
}

/// Whether the first fire time found from a minute before `local` lies within a
/// minute of it.
pub open spec fn due_spec(c: CronSpec, local: CivilDateTime) -> bool {
    match next_fire_spec(c, due_search_start(local)) {
        Some(n) => within_a_minute(n, local),
        None => false,
    }
}

/// Whether the schedule with cron text `cron` and zone name `tz` is due at the
/// instant `utc_seconds`.
pub open spec fn schedule_due_spec(cron: Seq<char>, tz: Seq<char>, utc_seconds: int) -> bool {
    match cron_spec(cron) {
        Ok(c) => match zone_local_time(tz, utc_seconds) {
            Some(local) => due_spec(c, local),
            None => false,
        },
        Err(_) => false,
    }
}

/// Whether `cron` fires within 60 seconds of the local time `local_now`: the
/// first fire time found from a minute before `local_now` lies at most a minute
/// away from it.
pub fn is_due_at(cron: &CronExpression, local_now: CivilDateTime) -> (b: bool)
    requires
        cron.wf(),
        valid_civil(local_now),
    ensures
        b == due_spec(cron.sets(), local_now),
        b ==> exists|dt: CivilDateTime| valid_civil(dt) && cron.matches_spec(dt) && within_a_minute(dt, local_now),
        !b && add_seconds_spec(local_now, -61) is Some && next_fire_spec(cron.sets(), due_search_start(local_now)) is Some
            ==> forall|t: CivilDateTime| valid_civil(t) && within_a_minute(t, local_now) ==> !cron.matches_spec(t),
{
    let back = civil_checked_add_seconds(local_now, -61);
    proof {
        lemma_add_seconds(local_now, -61, back);
    }
    let start = match back {
        Some(b) => b,
        None => local_now,
    };
    match next_fire_time(cron, start) {
        None => false,
        Some(next) => {
            let diff: i64 = civil_seconds_between(next, local_now);
            let due = -60 <= diff && diff <= 60;
            if due {
                assert(valid_civil(next) && cron.matches_spec(next) && within_a_minute(next, local_now));
            } else if back.is_some() {
                assert(civil_seconds(start) == civil_seconds(local_now) - 61);
                assert(civil_seconds(next) > civil_seconds(local_now) + 60);
            }
            due
        },
    }
}

/// Whether `schedule` is due at `now_utc_seconds` (seconds since the Unix epoch):
/// its cron expression parses, its time zone is known, and it fires within a
/// minute of the local time, before or after.
pub fn is_schedule_due(schedule: &Schedule, now_utc_seconds: i64) -> (b: bool)
    ensures
        b == schedule_due_spec(schedule.cron@, schedule.timezone@, now_utc_seconds as int),
        b ==> (cron_spec(schedule.cron@) matches Ok(s) && zone_local_time(schedule.timezone@, now_utc_seconds as int) matches Some(local)
            && exists|dt: CivilDateTime| valid_civil(dt) && spec_matches(s, dt) && within_a_minute(dt, local)),
        !b ==> (cron_spec(schedule.cron@) matches Ok(s) ==> (zone_local_time(schedule.timezone@, now_utc_seconds as int) matches Some(local)
            ==> (add_seconds_spec(local, -61) is Some && next_fire_spec(s, due_search_start(local)) is Some
            ==> forall|t: CivilDateTime| valid_civil(t) && within_a_minute(t, local) ==> !spec_matches(s, t)))),
{
    let cron = match CronExpression::parse(schedule.cron.as_str()) {
        Ok(c) => c,
        Err(_) => {
            return false;
        },
    };
    let ghost s = cron_spec(schedule.cron@)->Ok_0;
    proof {
        lemma_sets_denoted(cron, s);
    }
    let local_now = match local_time_in_zone(schedule.timezone.as_str(), now_utc_seconds) {
        Some(l) => l,
        None => {
            return false;
        },
    };
    let due = is_due_at(&cron, local_now);
    proof {
        if due {
            let dt = choose|dt: CivilDateTime| valid_civil(dt) && cron.matches_spec(dt) && within_a_minute(dt, local_now);
            assert(spec_matches(s, dt));
        } else {
            assert forall|t: CivilDateTime| spec_matches(s, t) == cron.matches_spec(t) by {}
        }
    }
    due
}

} // verus!
