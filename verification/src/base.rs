//! Base occurrences: the local (date, time-of-day) slots a frequency produces
//! before overlays, makeup and timezone resolution.
//!
//! The base series over a date range is, day by day in ascending order, the
//! times the frequency fires on that day (a time repeated once per rule that
//! selects the day). This is the sorted list of every rule's dates in range.

use crate::civil::{
    civil_days, civil_from_days, days_in_month, month_length, weekday_index, Date, Time, Weekday,
    MAX_DAYS, MAX_YEAR, MIN_DAYS, MIN_YEAR,
};
use crate::cron::{
    cron_fields_spec, cron_weekday_matches, cron_weekday_spec, field_values, parse_cron, CronFields,
};
use crate::schedule::{Frequency, MonthDay, Nth, NthWeekday};
use vstd::prelude::*;

verus! {

/// A local base occurrence: a date and a wall-clock time.
#[derive(Clone, Copy, PartialEq, Eq, Structural, Debug, Hash)]
pub struct Slot {
    pub date: Date,
    pub time: Time,
}

/// Day numbers the engine works with: chrono's range (years -262143 to
/// 262142, about 191 million days) without 1000 days at either end, so that
/// every year, month, quarter and makeup step around them exists and no
/// date arithmetic on them overflows. This takes under three years off each end of a range of over
/// half a million years.
pub open spec fn engine_day(d: int) -> bool {
    MIN_DAYS + 1000 <= d <= MAX_DAYS - 1000
}

/// The years of engine days are within chrono's range, short of the last year.
pub proof fn lemma_engine_day_year(d: Date)
    requires
        engine_day(d.days as int),
        ({
            let (y, m, dd) = civil_from_days(d.days as int);
            crate::civil::valid_ymd(y, m, dd) && civil_days(y, m, dd) == d.days && MIN_YEAR <= y
                <= MAX_YEAR
        }),
    ensures
        MIN_YEAR <= civil_from_days(d.days as int).0 < MAX_YEAR,
{
    let (y, m, dd) = civil_from_days(d.days as int);
    if y == MAX_YEAR {
        crate::civil::lemma_days_before_month_bounds(y, m);
        assert(crate::civil::days_before_year(MAX_YEAR as int) == MAX_DAYS - 365);
    }
}

/// The date of the `md` day of month `m` of year `y`, as a day number.
pub open spec fn month_day_date_spec(y: int, m: int, md: MonthDay) -> Option<int> {
    if m < 1 || m > 12 {
        None
    } else {
        match md {
            MonthDay::Day { value } => if 1 <= value <= month_length(y, m) {
                Some(civil_days(y, m, value as int))
            } else {
                None
            },
            MonthDay::Last => Some(civil_days(y, m, month_length(y, m))),
        }
    }
}

/// The last day of `month` in `year`.
pub fn last_day_of_month(year: i32, month: u32) -> (r: Date)
    requires
        MIN_YEAR <= year < MAX_YEAR,
        1 <= month <= 12,
    ensures
        r.days == civil_days(year as int, month as int, month_length(year as int, month as int)),
        r.in_range(),
{
    let n = days_in_month(year, month);
    Date::from_ymd(year, month, n).unwrap()
}

/// The date for a [`MonthDay`] within `(year, month)`, or `None` if the day
/// does not exist (e.g. day 31 in February) or `month` is out of range.
pub fn month_day_date(year: i32, month: u32, md: MonthDay) -> (r: Option<Date>)
    requires
        MIN_YEAR <= year < MAX_YEAR,
    ensures
        r is Some <==> month_day_date_spec(year as int, month as int, md) is Some,
        r matches Some(d) ==> Some(d.days as int) == month_day_date_spec(
            year as int,
            month as int,
            md,
        ) && d.in_range(),
{
    if month < 1 || month > 12 {
        return None;
    }
    match md {
        MonthDay::Day { value } => {
            let v = value as u32;
            if v >= 1 && v <= days_in_month(year, month) {
                Date::from_ymd(year, month, v)
            } else {
                None
            }
        },
        MonthDay::Last => Some(last_day_of_month(year, month)),
    }
}

pub open spec fn nth_of_spec(nth: Nth) -> Option<u32> {
    match nth {
        Nth::First => Some(1),
        Nth::Second => Some(2),
        Nth::Third => Some(3),
        Nth::Fourth => Some(4),
        Nth::Fifth => Some(5),
        Nth::Last => None,
    }
}

/// The ordinal of an [`Nth`]; `None` for the last.
pub fn nth_of(nth: Nth) -> (r: Option<u32>)
    ensures
        r == nth_of_spec(nth),
{
    match nth {
        Nth::First => Some(1),
        Nth::Second => Some(2),
        Nth::Third => Some(3),
        Nth::Fourth => Some(4),
        Nth::Fifth => Some(5),
        Nth::Last => None,
    }
}

/// The day number of the `nth` `weekday` in `(y, m)`, if it exists.
pub open spec fn nth_weekday_spec(y: int, m: int, weekday: Weekday, nth: Nth) -> Option<int> {
    match nth_of_spec(nth) {
        Some(n) => {
            let first = civil_days(y, m, 1);
            let offset = (7 + weekday.index() - weekday_index(first)) % 7;
            let day = 1 + offset + 7 * (n - 1);
            if day <= month_length(y, m) {
                Some(civil_days(y, m, day))
            } else {
                None
            }
        },
        None => {
            let last = civil_days(y, m, month_length(y, m));
            let back = (7 + weekday_index(last) - weekday.index()) % 7;
            Some(last - back)
        },
    }
}

/// Date of the `nth` `weekday` in `(year, month)`, or `None` if it does not
/// exist (e.g. a 5th Friday in a 4-Friday month).
pub fn nth_weekday_date(year: i32, month: u32, weekday: Weekday, nth: Nth) -> (r: Option<Date>)
    requires
        MIN_YEAR <= year < MAX_YEAR,
        1 <= month <= 12,
    ensures
        r is Some <==> nth_weekday_spec(year as int, month as int, weekday, nth) is Some,
        r matches Some(d) ==> Some(d.days as int) == nth_weekday_spec(
            year as int,
            month as int,
            weekday,
            nth,
        ) && d.in_range(),
{
    match nth_of(nth) {
        Some(n) => {
            let first = Date::from_ymd(year, month, 1).unwrap();
            let offset: u32 = (7 + weekday.num_days_from_monday()
                - first.weekday().num_days_from_monday()) % 7;
            let day: u32 = 1 + offset + 7 * (n - 1);
            if day <= days_in_month(year, month) {
                Date::from_ymd(year, month, day)
            } else {
                None
            }
        },
        None => {
            let last = last_day_of_month(year, month);
            let back: u32 = (7 + last.weekday().num_days_from_monday()
                - weekday.num_days_from_monday()) % 7;
            let r = Date { days: last.days - back as i32 };
            proof {
                crate::civil::lemma_civil_days_bounds(year as int, month as int, 1);
                assert(civil_days(year as int, month as int, month_length(year as int, month as int))
                    - civil_days(year as int, month as int, 1) >= 27);
            }
            Some(r)
        },
    }
}

/// 24 slots at `minute` past each hour (none if the minute does not exist).
pub open spec fn hourly_times(minute: u8) -> Seq<Time> {
    if minute < 60 {
        Seq::new(24, |h: int| Time { hour: h as u32, minute: minute as u32 })
    } else {
        seq![]
    }
}

/// `hour:minute` for each hour, then each minute, in order.
pub open spec fn cron_times(hours: Seq<u32>, minutes: Seq<u32>) -> Seq<Time>
    decreases hours.len(),
{
    if hours.len() == 0 {
        seq![]
    } else {
        cron_times(hours.drop_last(), minutes) + minutes.map_values(
            |mi: u32| Time { hour: hours.last(), minute: mi },
        )
    }
}

pub open spec fn repeat_time(t: Time, n: nat) -> Seq<Time> {
    Seq::new(n, |i: int| t)
}

/// The times at which frequency `f` fires on day `d`, ascending, each as many
/// times as rules select the day.
pub open spec fn slots_on(f: Frequency, d: int) -> Seq<Time> {
    let (y, m, dd) = civil_from_days(d);
    let wd = weekday_index(d);
    match f {
        Frequency::Hourly { minute } => hourly_times(minute),
        Frequency::Daily { time } => seq![time],
        Frequency::Weekly { days, time } => if days@.contains(Weekday::from_index(wd)) {
            seq![time]
        } else {
            seq![]
        },
        Frequency::EveryNDays { interval, start_date, time } => {
            let k = d - start_date.days;
            if k >= 0 && k % (interval as int) == 0 {
                seq![time]
            } else {
                seq![]
            }
        },
        Frequency::EveryNWeeks { interval, start_date, days, time } => {
            let anchor = start_date.days - weekday_index(start_date.days as int);
            let weeks = (d - wd - anchor) / 7;
            if weeks >= 0 && weeks % (interval as int) == 0 && days@.contains(
                Weekday::from_index(wd),
            ) {
                seq![time]
            } else {
                seq![]
            }
        },
        Frequency::MonthlyByDay { days, time } => repeat_time(
            time,
            days@.filter(|md: MonthDay| month_day_date_spec(y, m, md) == Some(d)).len(),
        ),
        Frequency::MonthlyByWeekday { weekdays, time } => repeat_time(
            time,
            weekdays@.filter(
                |nw: NthWeekday| nth_weekday_spec(y, m, nw.weekday, nw.nth) == Some(d),
            ).len(),
        ),
        Frequency::Yearly { month, day, time } => if month_day_date_spec(y, month as int, day)
            == Some(d) {
            seq![time]
        } else {
            seq![]
        },
        Frequency::Quarterly { month, day, time } => if ((m + 11) % 3) + 1 == month
            && month_day_date_spec(y, m, day) == Some(d) {
            seq![time]
        } else {
            seq![]
        },
        Frequency::CustomCron { expr } => match cron_fields_spec(expr@) {
            None => seq![],
            Some((minutes, hours, month_days, months, weekdays)) => if months.contains(m as u32)
                && month_days.contains(dd as u32) && cron_weekday_spec(weekdays, (wd + 1) % 7) {
                cron_times(hours, minutes)
            } else {
                seq![]
            },
        },
    }
}

/// The slots of day `d`.
pub open spec fn day_slots(f: Frequency, d: int) -> Seq<Slot> {
    slots_on(f, d).map_values(|t: Time| Slot { date: Date { days: d as i32 }, time: t })
}

/// Base occurrences with local date in `[lo, hi]`, ascending.
pub open spec fn base_seq(f: Frequency, lo: int, hi: int) -> Seq<Slot>
    decreases hi - lo + 1,
{
    if hi < lo {
        seq![]
    } else {
        base_seq(f, lo, hi - 1) + day_slots(f, hi)
    }
}

/// A frequency the engine can enumerate: valid times, positive intervals and
/// anchors inside chrono's range.
pub open spec fn frequency_wf(f: Frequency) -> bool {
    match f {
        Frequency::Hourly { .. } => true,
        Frequency::Daily { time } => time.valid(),
        Frequency::Weekly { time, .. } => time.valid(),
        Frequency::EveryNDays { interval, start_date, time } => interval >= 1 && time.valid()
            && engine_day(start_date.days as int),
        Frequency::EveryNWeeks { interval, start_date, time, .. } => interval >= 1 && time.valid()
            && engine_day(start_date.days as int),
        Frequency::MonthlyByDay { time, .. } => time.valid(),
        Frequency::MonthlyByWeekday { time, .. } => time.valid(),
        Frequency::Yearly { time, .. } => time.valid(),
        Frequency::Quarterly { time, .. } => time.valid(),
        Frequency::CustomCron { .. } => true,
    }
}

fn weekday_in(days: &Vec<Weekday>, w: Weekday) -> (r: bool)
    ensures
        r == days@.contains(w),
{
    let mut i: usize = 0;
    while i < days.len()
        invariant
            i <= days.len(),
            forall|j: int| 0 <= j < i ==> days@[j] != w,
        decreases days.len() - i,
    {
        if days[i] == w {
            return true;
        }
        i = i + 1;
    }
    false
}

fn u32_in(values: &Vec<u32>, v: u32) -> (r: bool)
    ensures
        r == values@.contains(v),
{
    let mut i: usize = 0;
    while i < values.len()
        invariant
            i <= values.len(),
            forall|j: int| 0 <= j < i ==> values@[j] != v,
        decreases values.len() - i,
    {
        if values[i] == v {
            return true;
        }
        i = i + 1;
    }
    false
}

/// Append `n` slots of `date` at `time`.
fn push_repeat(out: &mut Vec<Slot>, date: Date, time: Time, n: usize)
    ensures
        final(out)@ == old(out)@ + repeat_time(time, n as nat).map_values(
            |t: Time| Slot { date: date, time: t },
        ),
{
    let ghost start = out@;
    let mut i: usize = 0;
    while i < n
        invariant
            i <= n,
            out@ == start + repeat_time(time, i as nat).map_values(
                |t: Time| Slot { date: date, time: t },
            ),
        decreases n - i,
    {
        out.push(Slot { date, time });
        i = i + 1;
        assert(repeat_time(time, i as nat).map_values(|t: Time| Slot { date: date, time: t })
            =~= repeat_time(time, (i - 1) as nat).map_values(
            |t: Time| Slot { date: date, time: t },
        ).push(Slot { date, time }));
    }
}

/// Number of month days of `days` that fall on `d` in `(year, month)`.
fn count_month_days(days: &Vec<MonthDay>, year: i32, month: u32, d: Date) -> (r: usize)
    requires
        MIN_YEAR <= year < MAX_YEAR,
    ensures
        r == days@.filter(
            |md: MonthDay| month_day_date_spec(year as int, month as int, md) == Some(d.days as int),
        ).len(),
{
    let ghost pred = |md: MonthDay|
        month_day_date_spec(year as int, month as int, md) == Some(d.days as int);
    let mut n: usize = 0;
    let mut i: usize = 0;
    while i < days.len()
        invariant
            i <= days.len(),
            MIN_YEAR <= year < MAX_YEAR,
            n <= i,
            pred == (|md: MonthDay|
                month_day_date_spec(year as int, month as int, md) == Some(d.days as int)),
            n == days@.subrange(0, i as int).filter(pred).len(),
        decreases days.len() - i,
    {
        let hit = match month_day_date(year, month, days[i]) {
            Some(x) => x.days == d.days,
            None => false,
        };
        proof {
            assert(days@.subrange(0, i as int + 1) == days@.subrange(0, i as int).push(days@[i as int]));
            days@.subrange(0, i as int).lemma_filter_push(days@[i as int], pred);
        }
        if hit {
            n = n + 1;
        }
        i = i + 1;
    }
    assert(days@.subrange(0, days@.len() as int) == days@);
    n
}

/// Number of nth-weekdays of `weekdays` that fall on `d` in `(year, month)`.
fn count_nth_weekdays(weekdays: &Vec<NthWeekday>, year: i32, month: u32, d: Date) -> (r: usize)
    requires
        MIN_YEAR <= year < MAX_YEAR,
        1 <= month <= 12,
    ensures
        r == weekdays@.filter(
            |nw: NthWeekday|
                nth_weekday_spec(year as int, month as int, nw.weekday, nw.nth) == Some(
                    d.days as int,
                ),
        ).len(),
{
    let ghost pred = |nw: NthWeekday|
        nth_weekday_spec(year as int, month as int, nw.weekday, nw.nth) == Some(d.days as int);
    let mut n: usize = 0;
    let mut i: usize = 0;
    while i < weekdays.len()
        invariant
            i <= weekdays.len(),
            MIN_YEAR <= year < MAX_YEAR,
            1 <= month <= 12,
            n <= i,
            pred == (|nw: NthWeekday|
                nth_weekday_spec(year as int, month as int, nw.weekday, nw.nth) == Some(
                    d.days as int,
                )),
            n == weekdays@.subrange(0, i as int).filter(pred).len(),
        decreases weekdays.len() - i,
    {
        let nw = weekdays[i];
        let hit = match nth_weekday_date(year, month, nw.weekday, nw.nth) {
            Some(x) => x.days == d.days,
            None => false,
        };
        proof {
            assert(weekdays@.subrange(0, i as int + 1) == weekdays@.subrange(0, i as int).push(
                weekdays@[i as int],
            ));
            weekdays@.subrange(0, i as int).lemma_filter_push(weekdays@[i as int], pred);
        }
        if hit {
            n = n + 1;
        }
        i = i + 1;
    }
    assert(weekdays@.subrange(0, weekdays@.len() as int) == weekdays@);
    n
}

/// Append the cron slots of `date`: each hour, then each minute.
fn push_cron_times(out: &mut Vec<Slot>, date: Date, hours: &Vec<u32>, minutes: &Vec<u32>)
    ensures
        final(out)@ == old(out)@ + cron_times(hours@, minutes@).map_values(
            |t: Time| Slot { date: date, time: t },
        ),
{
    let ghost start = out@;
    let ghost f = |t: Time| Slot { date: date, time: t };
    let mut i: usize = 0;
    while i < hours.len()
        invariant
            i <= hours.len(),
            f == (|t: Time| Slot { date: date, time: t }),
            out@ == start + cron_times(hours@.subrange(0, i as int), minutes@).map_values(f),
        decreases hours.len() - i,
    {
        let h = hours[i];
        let ghost before = out@;
        let mut j: usize = 0;
        while j < minutes.len()
            invariant
                j <= minutes.len(),
                f == (|t: Time| Slot { date: date, time: t }),
                out@ == before + minutes@.subrange(0, j as int).map_values(
                    |mi: u32| Time { hour: h, minute: mi },
                ).map_values(f),
            decreases minutes.len() - j,
        {
            out.push(Slot { date, time: Time { hour: h, minute: minutes[j] } });
            j = j + 1;
            assert(minutes@.subrange(0, j as int).map_values(|mi: u32| Time { hour: h, minute: mi }).map_values(f)
                =~= minutes@.subrange(0, j - 1 as int).map_values(
                |mi: u32| Time { hour: h, minute: mi },
            ).map_values(f).push(Slot { date, time: Time { hour: h, minute: minutes@[j - 1] } }));
        }
        proof {
            let hs = hours@.subrange(0, i as int + 1);
            assert(hs.drop_last() == hours@.subrange(0, i as int));
            assert(hs.last() == h);
            assert(minutes@.subrange(0, minutes@.len() as int) == minutes@);
            let a = cron_times(hours@.subrange(0, i as int), minutes@);
            let b = minutes@.map_values(|mi: u32| Time { hour: h, minute: mi });
            assert(cron_times(hs, minutes@) == a + b);
            assert((a + b).map_values(f) =~= a.map_values(f) + b.map_values(f));
        }
        i = i + 1;
    }
    assert(hours@.subrange(0, hours@.len() as int) == hours@);
}

/// Append the slots of day `d` for frequency `f`.
fn push_day_slots(out: &mut Vec<Slot>, f: &Frequency, d: Date, cron: &Option<CronFields>)
    requires
        engine_day(d.days as int),
        frequency_wf(*f),
        f is CustomCron ==> match cron {
            Some(c) => cron_fields_spec(f->expr@) == Some(
                (c.minutes@, c.hours@, c.month_days@, c.months@, c.weekdays@),
            ),
            None => cron_fields_spec(f->expr@) is None,
        },
    ensures
        final(out)@ == old(out)@ + day_slots(*f, d.days as int),
{
    let (y, m, dd) = d.ymd();
    proof {
        lemma_engine_day_year(d);
    }
    let w = d.weekday();
    let ghost mk = |t: Time| Slot { date: Date { days: d.days as i32 }, time: t };
    assert(Date { days: d.days as i32 } == d);
    match f {
        Frequency::Hourly { minute } => {
            let ghost start = out@;
            if *minute < 60 {
                let mut hour: u32 = 0;
                while hour < 24
                    invariant
                        hour <= 24,
                        *minute < 60,
                        mk == (|t: Time| Slot { date: Date { days: d.days as i32 }, time: t }),
                        out@ == start + Seq::new(
                            hour as nat,
                            |h: int| Time { hour: h as u32, minute: *minute as u32 },
                        ).map_values(mk),
                    decreases 24 - hour,
                {
                    out.push(Slot { date: d, time: Time { hour, minute: *minute as u32 } });
                    hour = hour + 1;
                    assert(Seq::new(
                        hour as nat,
                        |h: int| Time { hour: h as u32, minute: *minute as u32 },
                    ).map_values(mk) =~= Seq::new(
                        (hour - 1) as nat,
                        |h: int| Time { hour: h as u32, minute: *minute as u32 },
                    ).map_values(mk).push(
                        Slot { date: d, time: Time { hour: (hour - 1) as u32, minute: *minute as u32 } },
                    ));
                }
            }
            assert(out@ =~= start + day_slots(*f, d.days as int));
        },
        Frequency::Daily { time } => {
            out.push(Slot { date: d, time: *time });
            assert(day_slots(*f, d.days as int) =~= seq![Slot { date: d, time: *time }]);
        },
        Frequency::Weekly { days, time } => {
            if weekday_in(days, w) {
                out.push(Slot { date: d, time: *time });
                assert(day_slots(*f, d.days as int) =~= seq![Slot { date: d, time: *time }]);
            } else {
                assert(day_slots(*f, d.days as int) =~= seq![]);
            }
        },
        Frequency::EveryNDays { interval, start_date, time } => {
            let k: i64 = d.days as i64 - start_date.days as i64;
            if k >= 0 && (k as u64) % (*interval as u64) == 0 {
                out.push(Slot { date: d, time: *time });
                assert(day_slots(*f, d.days as int) =~= seq![Slot { date: d, time: *time }]);
            } else {
                assert(day_slots(*f, d.days as int) =~= seq![]);
            }
        },
        Frequency::EveryNWeeks { interval, start_date, days, time } => {
            let anchor = crate::civil::week_start(*start_date);
            let ws = crate::civil::week_start(d);
            let diff: i64 = ws.days as i64 - anchor.days as i64;
            let hit = if diff >= 0 {
                let weeks: u64 = (diff as u64) / 7;
                weeks % (*interval as u64) == 0 && weekday_in(days, w)
            } else {
                false
            };
            proof {
                let wsd = d.days - weekday_index(d.days as int);
                let an = start_date.days - weekday_index(start_date.days as int);
                assert(diff == wsd - an);
                if diff >= 0 {
                    assert((diff as u64) / 7 == (diff as int) / 7);
                }
            }
            if hit {
                out.push(Slot { date: d, time: *time });
                assert(day_slots(*f, d.days as int) =~= seq![Slot { date: d, time: *time }]);
            } else {
                assert(day_slots(*f, d.days as int) =~= seq![]);
            }
        },
        Frequency::MonthlyByDay { days, time } => {
            let n = count_month_days(days, y, m, d);
            push_repeat(out, d, *time, n);
        },
        Frequency::MonthlyByWeekday { weekdays, time } => {
            let n = count_nth_weekdays(weekdays, y, m, d);
            push_repeat(out, d, *time, n);
        },
        Frequency::Yearly { month, day, time } => {
            let hit = match month_day_date(y, *month as u32, *day) {
                Some(x) => x.days == d.days,
                None => false,
            };
            if hit {
                out.push(Slot { date: d, time: *time });
                assert(day_slots(*f, d.days as int) =~= seq![Slot { date: d, time: *time }]);
            } else {
                assert(day_slots(*f, d.days as int) =~= seq![]);
            }
        },
        Frequency::Quarterly { month, day, time } => {
            let hit = if ((m + 11) % 3) + 1 == *month as u32 {
                match month_day_date(y, m, *day) {
                    Some(x) => x.days == d.days,
                    None => false,
                }
            } else {
                false
            };
            if hit {
                out.push(Slot { date: d, time: *time });
                assert(day_slots(*f, d.days as int) =~= seq![Slot { date: d, time: *time }]);
            } else {
                assert(day_slots(*f, d.days as int) =~= seq![]);
            }
        },
        Frequency::CustomCron { .. } => {
            match cron {
                None => {
                    assert(day_slots(*f, d.days as int) =~= seq![]);
                },
                Some(c) => {
                    if u32_in(&c.months, m) && u32_in(&c.month_days, dd) && cron_weekday_matches(
                        &c.weekdays,
                        w,
                    ) {
                        push_cron_times(out, d, &c.hours, &c.minutes);
                    } else {
                        assert(day_slots(*f, d.days as int) =~= seq![]);
                    }
                },
            }
        },
    }
}

/// Base occurrences whose local date lies in `[lo, hi]`, ascending.
pub fn enumerate_base(f: &Frequency, lo: Date, hi: Date) -> (r: Vec<Slot>)
    requires
        engine_day(lo.days as int),
        engine_day(hi.days as int),
        frequency_wf(*f),
    ensures
        r@ == base_seq(*f, lo.days as int, hi.days as int),
{
    let cron = match f {
        Frequency::CustomCron { expr } => parse_cron(expr.as_str()),
        _ => None,
    };
    let mut out: Vec<Slot> = Vec::new();
    if hi.days < lo.days {
        return out;
    }
    let mut d: i32 = lo.days;
    while d <= hi.days
        invariant
            lo.days <= d <= hi.days + 1,
            engine_day(lo.days as int),
            engine_day(hi.days as int),
            frequency_wf(*f),
            f is CustomCron ==> match cron {
                Some(c) => cron_fields_spec(f->expr@) == Some(
                    (c.minutes@, c.hours@, c.month_days@, c.months@, c.weekdays@),
                ),
                None => cron_fields_spec(f->expr@) is None,
            },
            out@ == base_seq(*f, lo.days as int, d - 1),
        decreases hi.days - d + 1,
    {
        push_day_slots(&mut out, f, Date { days: d }, &cron);
        d = d + 1;
    }
    out
}

/// Every slot lies on an engine day and has a valid time of day.
pub open spec fn slots_ok(base: Seq<Slot>) -> bool {
    forall|i: int|
        0 <= i < base.len() ==> engine_day(#[trigger] base[i].date.days as int)
            && base[i].time.valid()
}

/// The values a cron field selects lie within the field's bounds.
pub proof fn lemma_field_values_bounded(field: Seq<char>, min: u32, max: u32)
    ensures
        forall|i: int|
            0 <= i < field_values(field, min, max).len() ==> min <= #[trigger] field_values(
                field,
                min,
                max,
            )[i] <= max,
{
    let all = crate::cron::bound_range(min, max);
    let pred = |v: u32| crate::cron::field_contains(field, min, max, v as int);
    assert(field_values(field, min, max) == all.filter(pred));
    assert forall|i: int| 0 <= i < all.filter(pred).len() implies min <= #[trigger] all.filter(
        pred,
    )[i] <= max by {
        let x = all.filter(pred)[i];
        assert(all.filter(pred).contains(x));
        all.lemma_filter_contains_rev(pred, x);
        let k = choose|k: int| 0 <= k < all.len() && all[k] == x;
    }
}

pub proof fn lemma_cron_times_valid(hours: Seq<u32>, minutes: Seq<u32>)
    requires
        forall|i: int| 0 <= i < hours.len() ==> #[trigger] hours[i] < 24,
        forall|i: int| 0 <= i < minutes.len() ==> #[trigger] minutes[i] < 60,
    ensures
        forall|i: int|
            0 <= i < cron_times(hours, minutes).len() ==> (#[trigger] cron_times(hours, minutes)[i]).valid(),
    decreases hours.len(),
{
    if hours.len() > 0 {
        lemma_cron_times_valid(hours.drop_last(), minutes);
        let a = cron_times(hours.drop_last(), minutes);
        let b = minutes.map_values(|mi: u32| Time { hour: hours.last(), minute: mi });
        assert(cron_times(hours, minutes) == a + b);
        assert forall|i: int| 0 <= i < (a + b).len() implies (#[trigger] (a + b)[i]).valid() by {
            if i >= a.len() {
                assert((a + b)[i] == b[i - a.len()]);
            }
        }
    }
}

/// The slots of a day carry valid times.
pub proof fn lemma_slots_on_valid(f: Frequency, d: int)
    requires
        frequency_wf(f),
    ensures
        forall|i: int| 0 <= i < slots_on(f, d).len() ==> (#[trigger] slots_on(f, d)[i]).valid(),
{
    match f {
        Frequency::CustomCron { expr } => {
            match cron_fields_spec(expr@) {
                Some((minutes, hours, month_days, months, weekdays)) => {
                    let w = crate::cron::words(expr@);
                    lemma_field_values_bounded(w[0], 0, 59);
                    lemma_field_values_bounded(w[1], 0, 23);
                    lemma_cron_times_valid(hours, minutes);
                },
                None => {},
            }
        },
        _ => {},
    }
}

/// Base slots lie on their window's days and carry valid times.
pub proof fn lemma_base_seq_slots(f: Frequency, lo: int, hi: int)
    requires
        frequency_wf(f),
        MIN_DAYS <= lo,
        hi <= MAX_DAYS,
    ensures
        forall|i: int|
            0 <= i < base_seq(f, lo, hi).len() ==> lo <= #[trigger] base_seq(f, lo, hi)[i].date.days
                <= hi && base_seq(f, lo, hi)[i].time.valid(),
    decreases hi - lo + 1,
{
    if hi >= lo {
        lemma_base_seq_slots(f, lo, hi - 1);
        lemma_slots_on_valid(f, hi);
        let a = base_seq(f, lo, hi - 1);
        let b = day_slots(f, hi);
        assert(base_seq(f, lo, hi) == a + b);
        assert forall|i: int| 0 <= i < (a + b).len() implies lo <= #[trigger] (a + b)[i].date.days
            <= hi && (a + b)[i].time.valid() by {
            if i >= a.len() {
                assert((a + b)[i] == b[i - a.len()]);
                assert(b[i - a.len()] == Slot { date: Date { days: hi as i32 }, time: slots_on(f, hi)[i - a.len()] });
            }
        }
    }
}

/// The base slots of a window of engine days are all engine-day slots with
/// valid times.
pub proof fn lemma_base_seq_ok(f: Frequency, lo: int, hi: int)
    requires
        frequency_wf(f),
        engine_day(lo),
        engine_day(hi),
    ensures
        slots_ok(base_seq(f, lo, hi)),
{
    lemma_base_seq_slots(f, lo, hi);
}

/// The base series of a date range is that of a first part followed by that
/// of the rest.
pub proof fn lemma_base_seq_split(f: Frequency, lo: int, mid: int, hi: int)
    requires
        lo - 1 <= mid <= hi,
    ensures
        base_seq(f, lo, hi) == base_seq(f, lo, mid) + base_seq(f, mid + 1, hi),
    decreases hi - mid,
{
    if hi == mid {
        assert(base_seq(f, mid + 1, hi) =~= Seq::<Slot>::empty());
        assert(base_seq(f, lo, mid) + Seq::<Slot>::empty() =~= base_seq(f, lo, mid));
    } else {
        lemma_base_seq_split(f, lo, mid, hi - 1);
        assert(base_seq(f, lo, hi) == base_seq(f, lo, hi - 1) + day_slots(f, hi));
        assert(base_seq(f, mid + 1, hi) == base_seq(f, mid + 1, hi - 1) + day_slots(f, hi));
        assert(base_seq(f, lo, mid) + base_seq(f, mid + 1, hi) =~= base_seq(f, lo, mid) + base_seq(
            f,
            mid + 1,
            hi - 1,
        ) + day_slots(f, hi));
    }
}

} // verus!
