//! Human-readable text: a schedule's summary and the messages of its errors.

use crate::civil::Weekday;
use crate::generate::QueryError;
use crate::schedule::{Frequency, Makeup, MonthDay, Schedule, ScheduleError};
use crate::text::{
    chars_to_string, date_text, decimal_spec, push_date, push_decimal, push_padded, push_str,
    push_time, time_text, two_digits,
};
use vstd::prelude::*;

verus! {

pub open spec fn weekday_label_spec(w: Weekday) -> Seq<char> {
    match w {
        Weekday::Mon => "Monday"@,
        Weekday::Tue => "Tuesday"@,
        Weekday::Wed => "Wednesday"@,
        Weekday::Thu => "Thursday"@,
        Weekday::Fri => "Friday"@,
        Weekday::Sat => "Saturday"@,
        Weekday::Sun => "Sunday"@,
    }
}

pub open spec fn month_day_label_spec(md: MonthDay) -> Seq<char> {
    match md {
        MonthDay::Day { value } => decimal_spec(value as nat),
        MonthDay::Last => "last day"@,
    }
}

/// The pieces of `parts` with `sep` between consecutive ones.
pub open spec fn join(parts: Seq<Seq<char>>, sep: Seq<char>) -> Seq<char>
    decreases parts.len(),
{
    if parts.len() == 0 {
        Seq::empty()
    } else if parts.len() == 1 {
        parts[0]
    } else {
        join(parts.drop_last(), sep) + sep + parts.last()
    }
}

pub open spec fn weekday_list(days: Seq<Weekday>) -> Seq<char> {
    join(days.map_values(|w: Weekday| weekday_label_spec(w)), ", "@)
}

pub open spec fn month_day_list(days: Seq<MonthDay>) -> Seq<char> {
    join(days.map_values(|md: MonthDay| month_day_label_spec(md)), ", "@)
}

/// The summary of a frequency's base recurrence.
pub open spec fn base_description(f: Frequency) -> Seq<char> {
    match f {
        Frequency::Hourly { minute } => "Every hour at minute "@ + two_digits(minute as nat),
        Frequency::Daily { time } => "Every day at "@ + time_text(time),
        Frequency::Weekly { days, time } => "Every "@ + weekday_list(days@) + " at "@ + time_text(
            time,
        ),
        Frequency::EveryNDays { interval, start_date, time } => "Every "@ + decimal_spec(
            interval as nat,
        ) + " days from "@ + date_text(start_date) + " at "@ + time_text(time),
        Frequency::EveryNWeeks { interval, start_date, days, time } => "Every "@ + decimal_spec(
            interval as nat,
        ) + " weeks from "@ + date_text(start_date) + " on "@ + weekday_list(days@) + " at "@
            + time_text(time),
        Frequency::MonthlyByDay { days, time } => "Every month on "@ + month_day_list(days@)
            + " at "@ + time_text(time),
        Frequency::MonthlyByWeekday { weekdays, time } => "Every month on "@ + decimal_spec(
            weekdays@.len(),
        ) + " rule(s) at "@ + time_text(time),
        Frequency::Yearly { month, day, time } => "Every year on "@ + decimal_spec(month as nat)
            + "/"@ + month_day_label_spec(day) + " at "@ + time_text(time),
        Frequency::Quarterly { month, day, time } => "Every quarter in month "@ + decimal_spec(
            month as nat,
        ) + " on "@ + month_day_label_spec(day) + " at "@ + time_text(time),
        Frequency::CustomCron { expr } => "Cron `"@ + expr@ + "`"@,
    }
}

/// The summary of a schedule: its base recurrence and timezone, then the
/// number of overlays when there are any, then whether makeup is on.
pub open spec fn describe_spec(s: Schedule) -> Seq<char> {
    let head = base_description(s.freq) + " "@ + s.timezone@;
    let with_overlays = if s.overlays@.len() > 0 {
        head + ", with "@ + decimal_spec(s.overlays@.len()) + " overlay(s)"@
    } else {
        head
    };
    if s.makeup is Skip {
        with_overlays
    } else {
        with_overlays + ", with makeup"@
    }
}

/// The dates a frequency names are within chrono's range.
pub open spec fn frequency_dates_in_range(f: Frequency) -> bool {
    match f {
        Frequency::EveryNDays { start_date, .. } => start_date.in_range(),
        Frequency::EveryNWeeks { start_date, .. } => start_date.in_range(),
        _ => true,
    }
}

fn push_weekday_label(out: &mut Vec<char>, w: Weekday)
    ensures
        final(out)@ == old(out)@ + weekday_label_spec(w),
{
    match w {
        Weekday::Mon => push_str(out, "Monday"),
        Weekday::Tue => push_str(out, "Tuesday"),
        Weekday::Wed => push_str(out, "Wednesday"),
        Weekday::Thu => push_str(out, "Thursday"),
        Weekday::Fri => push_str(out, "Friday"),
        Weekday::Sat => push_str(out, "Saturday"),
        Weekday::Sun => push_str(out, "Sunday"),
    }
}

fn push_month_day_label(out: &mut Vec<char>, md: MonthDay)
    ensures
        final(out)@ == old(out)@ + month_day_label_spec(md),
{
    match md {
        MonthDay::Day { value } => push_decimal(out, value as u64),
        MonthDay::Last => push_str(out, "last day"),
    }
}

/// The label of a month day: its number, or `last day`.
pub fn month_day_label(day: MonthDay) -> (r: String)
    ensures
        r@ == month_day_label_spec(day),
{
    let mut v: Vec<char> = Vec::new();
    push_month_day_label(&mut v, day);
    assert(v@ =~= month_day_label_spec(day));
    chars_to_string(&v)
}

proof fn lemma_join_step(parts: Seq<Seq<char>>, sep: Seq<char>, k: int)
    requires
        0 <= k < parts.len(),
    ensures
        join(parts.subrange(0, k + 1), sep) == if k == 0 {
            parts[0]
        } else {
            join(parts.subrange(0, k), sep) + sep + parts[k]
        },
{
    let p = parts.subrange(0, k + 1);
    assert(p.drop_last() == parts.subrange(0, k));
    assert(p.last() == parts[k]);
    if k == 0 {
        assert(p.len() == 1);
        assert(p[0] == parts[0]);
    }
}

fn push_weekday_list(out: &mut Vec<char>, days: &Vec<Weekday>)
    ensures
        final(out)@ == old(out)@ + weekday_list(days@),
{
    let ghost start = out@;
    let ghost labels = days@.map_values(|w: Weekday| weekday_label_spec(w));
    let mut i: usize = 0;
    while i < days.len()
        invariant
            i <= days@.len(),
            labels == days@.map_values(|w: Weekday| weekday_label_spec(w)),
            out@ == start + join(labels.subrange(0, i as int), ", "@),
        decreases days.len() - i,
    {
        proof {
            lemma_join_step(labels, ", "@, i as int);
        }
        if i > 0 {
            push_str(out, ", ");
        }
        push_weekday_label(out, days[i]);
        i = i + 1;
        assert(out@ =~= start + join(labels.subrange(0, i as int), ", "@));
    }
    assert(labels.subrange(0, days@.len() as int) =~= labels);
}

fn push_month_day_list(out: &mut Vec<char>, days: &Vec<MonthDay>)
    ensures
        final(out)@ == old(out)@ + month_day_list(days@),
{
    let ghost start = out@;
    let ghost labels = days@.map_values(|md: MonthDay| month_day_label_spec(md));
    let mut i: usize = 0;
    while i < days.len()
        invariant
            i <= days@.len(),
            labels == days@.map_values(|md: MonthDay| month_day_label_spec(md)),
            out@ == start + join(labels.subrange(0, i as int), ", "@),
        decreases days.len() - i,
    {
        proof {
            lemma_join_step(labels, ", "@, i as int);
        }
        if i > 0 {
            push_str(out, ", ");
        }
        push_month_day_label(out, days[i]);
        i = i + 1;
        assert(out@ =~= start + join(labels.subrange(0, i as int), ", "@));
    }
    assert(labels.subrange(0, days@.len() as int) =~= labels);
}

fn push_base_description(out: &mut Vec<char>, f: &Frequency)
    requires
        frequency_dates_in_range(*f),
    ensures
        final(out)@ == old(out)@ + base_description(*f),
{
    let ghost start = out@;
    match f {
        Frequency::Hourly { minute } => {
            push_str(out, "Every hour at minute ");
            push_padded(out, *minute as u64, 2);
        },
        Frequency::Daily { time } => {
            push_str(out, "Every day at ");
            push_time(out, *time);
        },
        Frequency::Weekly { days, time } => {
            push_str(out, "Every ");
            push_weekday_list(out, days);
            push_str(out, " at ");
            push_time(out, *time);
        },
        Frequency::EveryNDays { interval, start_date, time } => {
            push_str(out, "Every ");
            push_decimal(out, *interval as u64);
            push_str(out, " days from ");
            push_date(out, *start_date);
            push_str(out, " at ");
            push_time(out, *time);
        },
        Frequency::EveryNWeeks { interval, start_date, days, time } => {
            push_str(out, "Every ");
            push_decimal(out, *interval as u64);
            push_str(out, " weeks from ");
            push_date(out, *start_date);
            push_str(out, " on ");
            push_weekday_list(out, days);
            push_str(out, " at ");
            push_time(out, *time);
        },
        Frequency::MonthlyByDay { days, time } => {
            push_str(out, "Every month on ");
            push_month_day_list(out, days);
            push_str(out, " at ");
            push_time(out, *time);
        },
        Frequency::MonthlyByWeekday { weekdays, time } => {
            push_str(out, "Every month on ");
            push_decimal(out, weekdays.len() as u64);
            push_str(out, " rule(s) at ");
            push_time(out, *time);
        },
        Frequency::Yearly { month, day, time } => {
            push_str(out, "Every year on ");
            push_decimal(out, *month as u64);
            push_str(out, "/");
            push_month_day_label(out, *day);
            push_str(out, " at ");
            push_time(out, *time);
        },
        Frequency::Quarterly { month, day, time } => {
            push_str(out, "Every quarter in month ");
            push_decimal(out, *month as u64);
            push_str(out, " on ");
            push_month_day_label(out, *day);
            push_str(out, " at ");
            push_time(out, *time);
        },
        Frequency::CustomCron { expr } => {
            push_str(out, "Cron `");
            push_str(out, expr.as_str());
            push_str(out, "`");
        },
    }
    assert(out@ =~= start + base_description(*f));
}

impl Schedule {
    /// Human-readable summary of the schedule's base recurrence, e.g.
    /// `Every Monday at 09:00 UTC`.
    pub fn describe(&self) -> (r: String)
        requires
            frequency_dates_in_range(self.freq),
        ensures
            r@ == describe_spec(*self),
    {
        let mut v: Vec<char> = Vec::new();
        push_base_description(&mut v, &self.freq);
        push_str(&mut v, " ");
        push_str(&mut v, self.timezone.name());
        if self.overlays.len() > 0 {
            push_str(&mut v, ", with ");
            push_decimal(&mut v, self.overlays.len() as u64);
            push_str(&mut v, " overlay(s)");
        }
        let makeup_on = match self.makeup {
            Makeup::Skip => false,
            _ => true,
        };
        if makeup_on {
            push_str(&mut v, ", with makeup");
        }
        assert(v@ =~= describe_spec(*self));
        chars_to_string(&v)
    }
}

/// The message of a validation error.
pub open spec fn schedule_error_message(e: ScheduleError) -> Seq<char> {
    match e {
        ScheduleError::InvalidMinute(m) => "minute "@ + decimal_spec(m as nat)
            + " out of range 0..=59"@,
        ScheduleError::EmptyDays => "day/weekday selection is empty"@,
        ScheduleError::InvalidMonthDay(d) => "month day "@ + decimal_spec(d as nat)
            + " out of range 1..=31"@,
        ScheduleError::InvalidMonth(m) => "month "@ + decimal_spec(m as nat) + " out of range 1..=12"@,
        ScheduleError::InvalidInterval(n) => "interval "@ + decimal_spec(n as nat)
            + " out of range 1.."@,
        ScheduleError::InvalidQuarterMonth(m) => "quarter month "@ + decimal_spec(m as nat)
            + " out of range 1..=3"@,
        ScheduleError::InvalidCron => "invalid cron expression"@,
        ScheduleError::InvalidSkipThreshold(n) => "skip threshold "@ + decimal_spec(n as nat)
            + " out of range 1.."@,
        ScheduleError::InvalidMaxSkipGap(n) => "max skip gap "@ + decimal_spec(n as nat)
            + " out of range 1.."@,
        ScheduleError::EmptyOverlayGroup => "overlay group is empty"@,
        ScheduleError::EmptyCalendarGroup => "calendar group is empty"@,
        ScheduleError::EmptyCustomCalendar => "custom calendar name empty"@,
        ScheduleError::StartNotBeforeEnd => "start must be strictly before end"@,
        ScheduleError::NeverFires => "schedule can never produce an occurrence"@,
    }
}

/// The message of a query error.
pub open spec fn query_error_message(e: QueryError) -> Seq<char> {
    match e {
        QueryError::MakeupFailed { date } => "makeup failed for excluded occurrence on "@
            + date_text(date),
        QueryError::MaxSkipGapExceeded { max_days } => "schedule gap exceeded max_skip_gap of "@
            + decimal_spec(max_days as nat) + " days"@,
    }
}

fn number_message(prefix: &str, n: u64, suffix: &str) -> (r: String)
    ensures
        r@ == prefix@ + decimal_spec(n as nat) + suffix@,
{
    let mut v: Vec<char> = Vec::new();
    push_str(&mut v, prefix);
    push_decimal(&mut v, n);
    push_str(&mut v, suffix);
    assert(v@ =~= prefix@ + decimal_spec(n as nat) + suffix@);
    chars_to_string(&v)
}

fn text_message(text: &str) -> (r: String)
    ensures
        r@ == text@,
{
    let mut v: Vec<char> = Vec::new();
    push_str(&mut v, text);
    assert(v@ =~= text@);
    chars_to_string(&v)
}

impl ScheduleError {
    /// The human-readable message of this error.
    pub fn message(&self) -> (r: String)
        ensures
            r@ == schedule_error_message(*self),
    {
        match self {
            ScheduleError::InvalidMinute(m) => number_message(
                "minute ",
                *m as u64,
                " out of range 0..=59",
            ),
            ScheduleError::EmptyDays => text_message("day/weekday selection is empty"),
            ScheduleError::InvalidMonthDay(d) => number_message(
                "month day ",
                *d as u64,
                " out of range 1..=31",
            ),
            ScheduleError::InvalidMonth(m) => number_message(
                "month ",
                *m as u64,
                " out of range 1..=12",
            ),
            ScheduleError::InvalidInterval(n) => number_message(
                "interval ",
                *n as u64,
                " out of range 1..",
            ),
            ScheduleError::InvalidQuarterMonth(m) => number_message(
                "quarter month ",
                *m as u64,
                " out of range 1..=3",
            ),
            ScheduleError::InvalidCron => text_message("invalid cron expression"),
            ScheduleError::InvalidSkipThreshold(n) => number_message(
                "skip threshold ",
                *n as u64,
                " out of range 1..",
            ),
            ScheduleError::InvalidMaxSkipGap(n) => number_message(
                "max skip gap ",
                *n as u64,
                " out of range 1..",
            ),
            ScheduleError::EmptyOverlayGroup => text_message("overlay group is empty"),
            ScheduleError::EmptyCalendarGroup => text_message("calendar group is empty"),
            ScheduleError::EmptyCustomCalendar => text_message("custom calendar name empty"),
            ScheduleError::StartNotBeforeEnd => text_message("start must be strictly before end"),
            ScheduleError::NeverFires => text_message("schedule can never produce an occurrence"),
        }
    }
}

impl QueryError {
    /// The human-readable message of this error.
    pub fn message(&self) -> (r: String)
        requires
            self matches QueryError::MakeupFailed { date } ==> date.in_range(),
        ensures
            r@ == query_error_message(*self),
    {
        match self {
            QueryError::MakeupFailed { date } => {
                let mut v: Vec<char> = Vec::new();
                push_str(&mut v, "makeup failed for excluded occurrence on ");
                push_date(&mut v, *date);
                assert(v@ =~= query_error_message(*self));
                chars_to_string(&v)
            },
            QueryError::MaxSkipGapExceeded { max_days } => number_message(
                "schedule gap exceeded max_skip_gap of ",
                *max_days as u64,
                " days",
            ),
        }
    }
}

} // verus!
