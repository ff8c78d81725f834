//! The schedule data model and its structural validation.
//!
//! A [`Schedule`] is pure datetime math: a frequency, a timezone, optional
//! calendar overlays, a makeup strategy, and optional start/end bounds. The
//! computation lives in [`crate::engine`].

use crate::civil::{Date, Time, Weekday};
use crate::cron::cron_expr_valid;
use crate::cron::valid_cron_spec;
use crate::zone::{Instant, TimeZone};
use vstd::prelude::*;

verus! {

/// A day within a month: a fixed `1..=31`, or the last day.
#[derive(Clone, Copy, PartialEq, Eq, Structural, Debug, Hash)]
pub enum MonthDay {
    Day { value: u8 },
    Last,
}

/// Which occurrence of a weekday within a month.
#[derive(Clone, Copy, PartialEq, Eq, Structural, Debug, Hash)]
pub enum Nth {
    First,
    Second,
    Third,
    Fourth,
    Fifth,
    Last,
}

/// An ordinal weekday within a month, e.g. the third Monday.
#[derive(Clone, Copy, PartialEq, Eq, Structural, Debug, Hash)]
pub struct NthWeekday {
    pub nth: Nth,
    pub weekday: Weekday,
}

/// A recurrence rule: the base series of local wall-clock occurrences.
#[derive(Clone, Debug, PartialEq, Eq)]
pub enum Frequency {
    /// Every hour, at `minute` past the hour. Time-of-day is not used.
    Hourly { minute: u8 },
    /// Every day at `time`.
    Daily { time: Time },
    /// Every selected weekday at `time`.
    Weekly { days: Vec<Weekday>, time: Time },
    /// Every `interval` days counted from `start_date`, at `time`.
    EveryNDays { interval: u32, start_date: Date, time: Time },
    /// Selected weekdays of every `interval`-th week counted from the week of
    /// `start_date`, at `time`.
    EveryNWeeks { interval: u32, start_date: Date, days: Vec<Weekday>, time: Time },
    /// Selected days-of-month at `time`.
    MonthlyByDay { days: Vec<MonthDay>, time: Time },
    /// Selected nth-weekdays at `time`.
    MonthlyByWeekday { weekdays: Vec<NthWeekday>, time: Time },
    /// Once a year in `month` on `day` at `time`.
    Yearly { month: u8, day: MonthDay, time: Time },
    /// Once a quarter in the `month`-th month (1..=3) of the quarter.
    Quarterly { month: u8, day: MonthDay, time: Time },
    /// Every local minute matching a five-field cron expression.
    CustomCron { expr: String },
}

/// Built-in calendars, resolved by a [`crate::CalendarProvider`].
#[derive(Clone, Copy, PartialEq, Eq, Structural, Debug, Hash)]
pub enum CalendarId {
    UsFederalHoliday,
    UsBusinessDay,
    NyseHoliday,
    NyseTradingDay,
}

/// A set of dates: a built-in calendar, an inline date list, set algebra over
/// other specs, or a calendar named for the provider to resolve.
#[derive(Debug)]
pub enum CalendarSpec {
    BuiltIn(CalendarId),
    Dates { dates: Vec<Date> },
    Union { union: Vec<CalendarSpec> },
    Diff { diff: Vec<CalendarSpec> },
    Custom { custom: String },
}

#[derive(Clone, Copy, PartialEq, Eq, Structural, Debug, Hash)]
pub enum OverlayRule {
    /// Drop the occurrence if its local date IS in the calendar set.
    Exclude,
    /// Drop the occurrence if its local date is NOT in the calendar set.
    Only,
}

/// A calendar filter with an optional makeup override.
#[derive(Debug)]
pub struct OverlayCalendar {
    pub calendar: CalendarSpec,
    pub rule: OverlayRule,
    pub makeup: Option<Makeup>,
}

/// An OR group of overlays: passes when any child passes.
#[derive(Debug)]
pub struct OverlayAny {
    pub any: Vec<Overlay>,
    pub makeup: Option<Makeup>,
}

/// A filter on occurrence dates. Top-level overlays are ANDed.
#[derive(Debug)]
pub enum Overlay {
    Calendar(OverlayCalendar),
    Any(OverlayAny),
}

#[derive(Clone, Copy, PartialEq, Eq, Structural, Debug, Hash)]
pub enum MakeupDirection {
    /// Drop the excluded occurrence.
    Skip,
    Before,
    After,
    Nearest,
}

impl Default for MakeupDirection {
    fn default() -> (r: MakeupDirection)
        ensures
            r == MakeupDirection::Skip,
    {
        MakeupDirection::Skip
    }
}

#[derive(Clone, Copy, PartialEq, Eq, Structural, Debug, Hash)]
pub struct MakeupStepOptions {
    pub direction: MakeupDirection,
    pub max_hops: Option<u32>,
}

/// One step of a makeup cascade: a direction, optionally with its own hop cap.
#[derive(Clone, Copy, PartialEq, Eq, Structural, Debug, Hash)]
pub enum MakeupStep {
    Direction(MakeupDirection),
    Options(MakeupStepOptions),
}

impl MakeupStep {
    pub open spec fn parts_spec(self) -> (MakeupDirection, Option<u32>) {
        match self {
            MakeupStep::Direction(d) => (d, None),
            MakeupStep::Options(o) => (o.direction, o.max_hops),
        }
    }

    /// A step with only a direction.
    pub fn direction(direction: MakeupDirection) -> (r: Self)
        ensures
            r == MakeupStep::Direction(direction),
    {
        MakeupStep::Direction(direction)
    }

    /// The step's direction and hop cap.
    pub fn parts(&self) -> (r: (MakeupDirection, Option<u32>))
        ensures
            r == self.parts_spec(),
    {
        match self {
            MakeupStep::Direction(direction) => (*direction, None),
            MakeupStep::Options(options) => (options.direction, options.max_hops),
        }
    }
}

/// A makeup direction per excluded weekday, with a default.
#[derive(Clone, Copy, PartialEq, Eq, Structural, Debug, Hash)]
pub struct WeekdayMakeup {
    pub mon: Option<MakeupDirection>,
    pub tue: Option<MakeupDirection>,
    pub wed: Option<MakeupDirection>,
    pub thu: Option<MakeupDirection>,
    pub fri: Option<MakeupDirection>,
    pub sat: Option<MakeupDirection>,
    pub sun: Option<MakeupDirection>,
    pub default: Option<MakeupDirection>,
}

impl Default for WeekdayMakeup {
    fn default() -> (r: WeekdayMakeup)
        ensures
            r.mon is None && r.tue is None && r.wed is None && r.thu is None && r.fri is None
                && r.sat is None && r.sun is None && r.default is None,
    {
        WeekdayMakeup {
            mon: None,
            tue: None,
            wed: None,
            thu: None,
            fri: None,
            sat: None,
            sun: None,
            default: None,
        }
    }
}

impl WeekdayMakeup {
    pub open spec fn selected(self, weekday: Weekday) -> Option<MakeupDirection> {
        match weekday {
            Weekday::Mon => self.mon,
            Weekday::Tue => self.tue,
            Weekday::Wed => self.wed,
            Weekday::Thu => self.thu,
            Weekday::Fri => self.fri,
            Weekday::Sat => self.sat,
            Weekday::Sun => self.sun,
        }
    }

    /// The weekday's direction, else the default, else none.
    pub open spec fn direction_for_spec(self, weekday: Weekday) -> MakeupDirection {
        match self.selected(weekday) {
            Some(d) => d,
            None => match self.default {
                Some(d) => d,
                None => MakeupDirection::Skip,
            },
        }
    }

    pub fn direction_for(&self, weekday: Weekday) -> (r: MakeupDirection)
        ensures
            r == self.direction_for_spec(weekday),
    {
        let selected = match weekday {
            Weekday::Mon => self.mon,
            Weekday::Tue => self.tue,
            Weekday::Wed => self.wed,
            Weekday::Thu => self.thu,
            Weekday::Fri => self.fri,
            Weekday::Sat => self.sat,
            Weekday::Sun => self.sun,
        };
        match selected {
            Some(d) => d,
            None => match self.default {
                Some(d) => d,
                None => MakeupDirection::Skip,
            },
        }
    }
}

/// What to do when an overlay drops a base occurrence.
#[derive(Clone, Debug, PartialEq, Eq)]
pub enum Makeup {
    /// Skip the cycle entirely.
    Skip,
    /// Move to the nearest EARLIER surviving day (same time-of-day).
    Before,
    /// Move to the nearest LATER surviving day (same time-of-day).
    After,
    /// Move to the nearest surviving day, preferring later dates on ties.
    Nearest,
    /// Select a makeup direction based on the excluded date's weekday.
    ByWeekday(WeekdayMakeup),
    /// Try makeup strategies in order until one succeeds or disables makeup.
    Cascade(Vec<MakeupStep>),
}

impl Default for Makeup {
    fn default() -> (r: Makeup)
        ensures
            r is Skip,
    {
        Makeup::Skip
    }
}

impl Makeup {
    /// The makeup steps tried for an excluded date falling on `weekday`.
    pub open spec fn steps_spec(self, weekday: Weekday) -> Seq<MakeupStep> {
        match self {
            Makeup::Skip => seq![MakeupStep::Direction(MakeupDirection::Skip)],
            Makeup::Before => seq![MakeupStep::Direction(MakeupDirection::Before)],
            Makeup::After => seq![MakeupStep::Direction(MakeupDirection::After)],
            Makeup::Nearest => seq![MakeupStep::Direction(MakeupDirection::Nearest)],
            Makeup::ByWeekday(map) => seq![MakeupStep::Direction(map.direction_for_spec(weekday))],
            Makeup::Cascade(steps) => steps@,
        }
    }

    pub fn steps_for(&self, weekday: Weekday) -> (r: Vec<MakeupStep>)
        ensures
            r@ == self.steps_spec(weekday),
    {
        match self {
            Makeup::Skip => vec![MakeupStep::direction(MakeupDirection::Skip)],
            Makeup::Before => vec![MakeupStep::direction(MakeupDirection::Before)],
            Makeup::After => vec![MakeupStep::direction(MakeupDirection::After)],
            Makeup::Nearest => vec![MakeupStep::direction(MakeupDirection::Nearest)],
            Makeup::ByWeekday(map) => vec![MakeupStep::direction(map.direction_for(weekday))],
            Makeup::Cascade(steps) => {
                let mut out: Vec<MakeupStep> = Vec::new();
                let mut i: usize = 0;
                while i < steps.len()
                    invariant
                        i <= steps.len(),
                        out@ == steps@.subrange(0, i as int),
                    decreases steps.len() - i,
                {
                    out.push(steps[i]);
                    i = i + 1;
                }
                out
            },
        }
    }

    /// The single direction of a direction-only makeup (`None` for weekday
    /// maps and cascades).
    pub open spec fn as_direction(self) -> MakeupDirection {
        match self {
            Makeup::Before => MakeupDirection::Before,
            Makeup::After => MakeupDirection::After,
            Makeup::Nearest => MakeupDirection::Nearest,
            _ => MakeupDirection::Skip,
        }
    }

    pub fn from_direction(value: MakeupDirection) -> (r: Makeup)
        ensures
            r == Makeup::from_direction_spec(value),
    {
        match value {
            MakeupDirection::Skip => Makeup::Skip,
            MakeupDirection::Before => Makeup::Before,
            MakeupDirection::After => Makeup::After,
            MakeupDirection::Nearest => Makeup::Nearest,
        }
    }

    pub open spec fn from_direction_spec(value: MakeupDirection) -> Makeup {
        match value {
            MakeupDirection::Skip => Makeup::Skip,
            MakeupDirection::Before => Makeup::Before,
            MakeupDirection::After => Makeup::After,
            MakeupDirection::Nearest => Makeup::Nearest,
        }
    }

    pub fn to_direction(&self) -> (r: MakeupDirection)
        ensures
            r == self.as_direction(),
    {
        match self {
            Makeup::Before => MakeupDirection::Before,
            Makeup::After => MakeupDirection::After,
            Makeup::Nearest => MakeupDirection::Nearest,
            _ => MakeupDirection::Skip,
        }
    }
}

/// Converting a direction to a makeup and back gives the direction again.
pub proof fn law_direction_makeup_roundtrip(d: MakeupDirection)
    ensures
        Makeup::from_direction_spec(d).as_direction() == d,
{
}

/// What to do when enabled makeup cannot find a surviving destination.
#[derive(Clone, Copy, PartialEq, Eq, Structural, Debug, Hash)]
pub enum MakeupFailure {
    /// Drop the occurrence silently.
    Skip,
    /// Emit the occurrence on its original excluded date.
    KeepOriginal,
    /// Fail the query.
    Error,
}

impl Default for MakeupFailure {
    fn default() -> (r: MakeupFailure)
        ensures
            r == MakeupFailure::Skip,
    {
        MakeupFailure::Skip
    }
}

/// A recurrence rule.
#[derive(Debug)]
pub struct Schedule {
    pub freq: Frequency,
    pub timezone: TimeZone,
    /// Calendar filters, ANDed. Empty = no filtering.
    pub overlays: Vec<Overlay>,
    /// What to do when an overlay drops a base occurrence.
    pub makeup: Makeup,
    /// Maximum number of days to scan for makeup. `None` keeps the built-in
    /// search limit.
    pub max_makeup_hops: Option<u32>,
    /// What to do when makeup is enabled but no surviving destination is found.
    pub makeup_failure: MakeupFailure,
    /// Restrict makeup destination dates to these weekdays.
    pub makeup_only_on: Option<Vec<Weekday>>,
    /// Keep makeup destinations within the original ISO week.
    pub makeup_within_week: bool,
    /// Reject Saturday and Sunday makeup destinations.
    pub makeup_exclude_weekends: bool,
    /// Do not let makeup land on or cross an adjacent base occurrence.
    pub makeup_before_next: bool,
    /// Skip excluded base-occurrence runs at or above this length before makeup.
    pub skip_if_consecutive_excluded: Option<u32>,
    /// Fail queries whose occurrence stream has a longer gap (in days).
    pub max_skip_gap: Option<u32>,
    /// No occurrence before this instant (future-start support).
    pub start: Option<Instant>,
    /// No occurrence at/after this instant (series bound).
    pub end: Option<Instant>,
}

/// Structural validation error.
#[derive(Clone, Copy, PartialEq, Eq, Structural, Debug)]
pub enum ScheduleError {
    InvalidMinute(u8),
    EmptyDays,
    InvalidMonthDay(u8),
    InvalidMonth(u8),
    InvalidInterval(u32),
    InvalidQuarterMonth(u8),
    InvalidCron,
    InvalidSkipThreshold(u32),
    InvalidMaxSkipGap(u32),
    EmptyOverlayGroup,
    EmptyCalendarGroup,
    EmptyCustomCalendar,
    StartNotBeforeEnd,
    NeverFires,
}

/// The error for a month day outside `1..=31`.
pub open spec fn month_day_error(d: MonthDay) -> Option<ScheduleError> {
    match d {
        MonthDay::Day { value } => if value < 1 || value > 31 {
            Some(ScheduleError::InvalidMonthDay(value))
        } else {
            None
        },
        MonthDay::Last => None,
    }
}

/// The first month-day error of `days`, in order.
pub open spec fn first_month_day_error(days: Seq<MonthDay>) -> Option<ScheduleError>
    decreases days.len(),
{
    if days.len() == 0 {
        None
    } else {
        match first_month_day_error(days.drop_last()) {
            Some(e) => Some(e),
            None => month_day_error(days.last()),
        }
    }
}

/// `s` without repeats, keeping first occurrences in order.
pub open spec fn dedup_seq<T>(s: Seq<T>) -> Seq<T>
    decreases s.len(),
{
    if s.len() == 0 {
        s
    } else {
        let rest = dedup_seq(s.drop_last());
        if rest.contains(s.last()) {
            rest
        } else {
            rest.push(s.last())
        }
    }
}

pub proof fn lemma_dedup_seq_props<T>(s: Seq<T>)
    ensures
        forall|x: T| dedup_seq(s).contains(x) <==> s.contains(x),
        dedup_seq(s).no_duplicates(),
        dedup_seq(s).len() <= s.len(),
        dedup_seq(s).len() == 0 <==> s.len() == 0,
    decreases s.len(),
{
    if s.len() > 0 {
        lemma_dedup_seq_props(s.drop_last());
        let rest = dedup_seq(s.drop_last());
        assert forall|x: T| s.contains(x) <==> (s.drop_last().contains(x) || x == s.last()) by {
            if s.contains(x) {
                let i = choose|i: int| 0 <= i < s.len() && s[i] == x;
                if i < s.len() - 1 {
                    assert(s.drop_last()[i] == x);
                }
            }
            if s.drop_last().contains(x) {
                let i = choose|i: int| 0 <= i < s.drop_last().len() && s.drop_last()[i] == x;
                assert(s[i] == x);
            }
            if x == s.last() {
                assert(s[s.len() - 1] == x);
            }
        }
        if !rest.contains(s.last()) {
            assert forall|x: T| rest.push(s.last()).contains(x) <==> (rest.contains(x) || x
                == s.last()) by {
                if rest.push(s.last()).contains(x) {
                    let i = choose|i: int|
                        0 <= i < rest.push(s.last()).len() && rest.push(s.last())[i] == x;
                    if i < rest.len() {
                        assert(rest[i] == x);
                    }
                }
                if rest.contains(x) {
                    let i = choose|i: int| 0 <= i < rest.len() && rest[i] == x;
                    assert(rest.push(s.last())[i] == x);
                }
                if x == s.last() {
                    assert(rest.push(s.last())[rest.len() as int] == x);
                }
            }
        }
    }
}

/// The frequency after validation's dedup of its selection lists.
pub open spec fn deduped_frequency(new: Frequency, old: Frequency) -> bool {
    match (new, old) {
        (Frequency::Weekly { days: d1, time: t1 }, Frequency::Weekly { days: d0, time: t0 }) => d1@
            == dedup_seq(d0@) && t1 == t0,
        (
            Frequency::EveryNWeeks { interval: i1, start_date: s1, days: d1, time: t1 },
            Frequency::EveryNWeeks { interval: i0, start_date: s0, days: d0, time: t0 },
        ) => i1 == i0 && s1 == s0 && t1 == t0 && if i0 < 1 {
            d1@ == d0@
        } else {
            d1@ == dedup_seq(d0@)
        },
        (
            Frequency::MonthlyByDay { days: d1, time: t1 },
            Frequency::MonthlyByDay { days: d0, time: t0 },
        ) => t1 == t0 && if first_month_day_error(d0@) is Some {
            d1@ == d0@
        } else {
            d1@ == dedup_seq(d0@)
        },
        (
            Frequency::MonthlyByWeekday { weekdays: w1, time: t1 },
            Frequency::MonthlyByWeekday { weekdays: w0, time: t0 },
        ) => w1@ == dedup_seq(w0@) && t1 == t0,
        (Frequency::CustomCron { expr: e1 }, Frequency::CustomCron { expr: e0 }) => e1@ == e0@,
        (Frequency::Hourly { .. }, _) => new == old,
        (Frequency::Daily { .. }, _) => new == old,
        (Frequency::EveryNDays { .. }, _) => new == old,
        (Frequency::Yearly { .. }, _) => new == old,
        (Frequency::Quarterly { .. }, _) => new == old,
        _ => false,
    }
}

/// The first structural error of a frequency, if any.
pub open spec fn frequency_error(f: Frequency) -> Option<ScheduleError> {
    match f {
        Frequency::Hourly { minute } => if minute > 59 {
            Some(ScheduleError::InvalidMinute(minute))
        } else {
            None
        },
        Frequency::Daily { .. } => None,
        Frequency::Weekly { days, .. } => if days@.len() == 0 {
            Some(ScheduleError::EmptyDays)
        } else {
            None
        },
        Frequency::EveryNDays { interval, .. } => if interval < 1 {
            Some(ScheduleError::InvalidInterval(interval))
        } else {
            None
        },
        Frequency::EveryNWeeks { interval, days, .. } => if interval < 1 {
            Some(ScheduleError::InvalidInterval(interval))
        } else if days@.len() == 0 {
            Some(ScheduleError::EmptyDays)
        } else {
            None
        },
        Frequency::MonthlyByDay { days, .. } => match first_month_day_error(days@) {
            Some(e) => Some(e),
            None => if days@.len() == 0 {
                Some(ScheduleError::EmptyDays)
            } else {
                None
            },
        },
        Frequency::MonthlyByWeekday { weekdays, .. } => if weekdays@.len() == 0 {
            Some(ScheduleError::EmptyDays)
        } else {
            None
        },
        Frequency::Yearly { month, day, .. } => if month < 1 || month > 12 {
            Some(ScheduleError::InvalidMonth(month))
        } else {
            month_day_error(day)
        },
        Frequency::Quarterly { month, day, .. } => if month < 1 || month > 3 {
            Some(ScheduleError::InvalidQuarterMonth(month))
        } else {
            month_day_error(day)
        },
        Frequency::CustomCron { expr } => if valid_cron_spec(expr@) {
            None
        } else {
            Some(ScheduleError::InvalidCron)
        },
    }
}

/// The first structural error of a calendar spec (depth first), if any.
pub open spec fn calendar_spec_error(c: CalendarSpec) -> Option<ScheduleError>
    decreases c,
{
    match c {
        CalendarSpec::BuiltIn(_) => None,
        CalendarSpec::Dates { .. } => None,
        CalendarSpec::Union { union } => if union@.len() == 0 {
            Some(ScheduleError::EmptyCalendarGroup)
        } else {
            calendar_specs_error(union@, 0)
        },
        CalendarSpec::Diff { diff } => if diff@.len() == 0 {
            Some(ScheduleError::EmptyCalendarGroup)
        } else {
            calendar_specs_error(diff@, 0)
        },
        CalendarSpec::Custom { custom } => if custom@.len() == 0 {
            Some(ScheduleError::EmptyCustomCalendar)
        } else {
            None
        },
    }
}

/// The first structural error among `cs[i..]`.
pub open spec fn calendar_specs_error(cs: Seq<CalendarSpec>, i: int) -> Option<ScheduleError>
    decreases cs, cs.len() - i,
{
    if i < 0 || i >= cs.len() {
        None
    } else {
        match calendar_spec_error(cs[i]) {
            Some(e) => Some(e),
            None => calendar_specs_error(cs, i + 1),
        }
    }
}

/// The first structural error of an overlay (depth first), if any.
pub open spec fn overlay_error(o: Overlay) -> Option<ScheduleError>
    decreases o,
{
    match o {
        Overlay::Calendar(c) => calendar_spec_error(c.calendar),
        Overlay::Any(g) => if g.any@.len() == 0 {
            Some(ScheduleError::EmptyOverlayGroup)
        } else {
            overlays_error(g.any@, 0)
        },
    }
}

/// The first structural error among `os[i..]`.
pub open spec fn overlays_error(os: Seq<Overlay>, i: int) -> Option<ScheduleError>
    decreases os, os.len() - i,
{
    if i < 0 || i >= os.len() {
        None
    } else {
        match overlay_error(os[i]) {
            Some(e) => Some(e),
            None => overlays_error(os, i + 1),
        }
    }
}

/// Everything but the frequency is the same.
pub open spec fn same_except_freq(a: Schedule, b: Schedule) -> bool {
    &&& a.timezone == b.timezone
    &&& a.overlays == b.overlays
    &&& a.makeup == b.makeup
    &&& a.max_makeup_hops == b.max_makeup_hops
    &&& a.makeup_failure == b.makeup_failure
    &&& a.makeup_only_on == b.makeup_only_on
    &&& a.makeup_within_week == b.makeup_within_week
    &&& a.makeup_exclude_weekends == b.makeup_exclude_weekends
    &&& a.makeup_before_next == b.makeup_before_next
    &&& a.skip_if_consecutive_excluded == b.skip_if_consecutive_excluded
    &&& a.max_skip_gap == b.max_skip_gap
    &&& a.start == b.start
    &&& a.end == b.end
}

/// The first structural error of a schedule whose frequency has been checked,
/// in the order validation checks them.
pub open spec fn schedule_error(s: Schedule) -> Option<ScheduleError> {
    match frequency_error(s.freq) {
        Some(e) => Some(e),
        None => if s.start is Some && s.end is Some && s.start->0.ms >= s.end->0.ms {
            Some(ScheduleError::StartNotBeforeEnd)
        } else if s.skip_if_consecutive_excluded == Some(0u32) {
            Some(ScheduleError::InvalidSkipThreshold(0))
        } else if s.max_skip_gap == Some(0u32) {
            Some(ScheduleError::InvalidMaxSkipGap(0))
        } else {
            overlays_error(s.overlays@, 0)
        },
    }
}

/// The error for a month day outside `1..=31`.
pub fn check_month_day(d: &MonthDay) -> (r: Result<(), ScheduleError>)
    ensures
        r is Err <==> month_day_error(*d) is Some,
        r matches Err(e) ==> month_day_error(*d) == Some(e),
{
    if let MonthDay::Day { value } = d {
        if *value < 1 || *value > 31 {
            return Err(ScheduleError::InvalidMonthDay(*value));
        }
    }
    Ok(())
}

/// Remove repeated month days in place, keeping first occurrences in order.
pub fn dedup(v: &mut Vec<MonthDay>)
    ensures
        final(v)@ == dedup_seq(old(v)@),
{
    let mut out: Vec<MonthDay> = Vec::new();
    let mut i: usize = 0;
    while i < v.len()
        invariant
            i <= v.len(),
            out@ == dedup_seq(v@.subrange(0, i as int)),
        decreases v.len() - i,
    {
        let x = v[i];
        let mut found = false;
        let mut j: usize = 0;
        while j < out.len()
            invariant
                j <= out.len(),
                found <==> out@.subrange(0, j as int).contains(x),
            decreases out.len() - j,
        {
            if out[j] == x {
                found = true;
            }
            proof {
                let a = out@.subrange(0, j as int);
                let b = out@.subrange(0, j as int + 1);
                assert(b == a.push(out@[j as int]));
                assert(b.contains(x) <==> a.contains(x) || out@[j as int] == x) by {
                    if b.contains(x) {
                        let k = choose|k: int| 0 <= k < b.len() && b[k] == x;
                        if k < a.len() {
                            assert(a[k] == x);
                        }
                    }
                    if a.contains(x) {
                        let k = choose|k: int| 0 <= k < a.len() && a[k] == x;
                        assert(b[k] == x);
                    }
                    if out@[j as int] == x {
                        assert(b[j as int] == x);
                    }
                }
            }
            j = j + 1;
        }
        assert(out@.subrange(0, out@.len() as int) == out@);
        assert(v@.subrange(0, i as int + 1).drop_last() == v@.subrange(0, i as int));
        if !found {
            out.push(x);
        }
        i = i + 1;
    }
    assert(v@.subrange(0, v@.len() as int) == v@);
    *v = out;
}

/// Remove repeated nth-weekdays in place, keeping first occurrences in order.
pub fn dedup_nth_weekdays(v: &mut Vec<NthWeekday>)
    ensures
        final(v)@ == dedup_seq(old(v)@),
{
    let mut out: Vec<NthWeekday> = Vec::new();
    let mut i: usize = 0;
    while i < v.len()
        invariant
            i <= v.len(),
            out@ == dedup_seq(v@.subrange(0, i as int)),
        decreases v.len() - i,
    {
        let x = v[i];
        let mut found = false;
        let mut j: usize = 0;
        while j < out.len()
            invariant
                j <= out.len(),
                found <==> out@.subrange(0, j as int).contains(x),
            decreases out.len() - j,
        {
            if out[j] == x {
                found = true;
            }
            proof {
                let a = out@.subrange(0, j as int);
                let b = out@.subrange(0, j as int + 1);
                assert(b == a.push(out@[j as int]));
                assert(b.contains(x) <==> a.contains(x) || out@[j as int] == x) by {
                    if b.contains(x) {
                        let k = choose|k: int| 0 <= k < b.len() && b[k] == x;
                        if k < a.len() {
                            assert(a[k] == x);
                        }
                    }
                    if a.contains(x) {
                        let k = choose|k: int| 0 <= k < a.len() && a[k] == x;
                        assert(b[k] == x);
                    }
                    if out@[j as int] == x {
                        assert(b[j as int] == x);
                    }
                }
            }
            j = j + 1;
        }
        assert(out@.subrange(0, out@.len() as int) == out@);
        assert(v@.subrange(0, i as int + 1).drop_last() == v@.subrange(0, i as int));
        if !found {
            out.push(x);
        }
        i = i + 1;
    }
    assert(v@.subrange(0, v@.len() as int) == v@);
    *v = out;
}

/// Remove repeated weekdays in place, keeping first occurrences in order.
pub fn dedup_weekdays(v: &mut Vec<Weekday>)
    ensures
        final(v)@ == dedup_seq(old(v)@),
{
    let mut out: Vec<Weekday> = Vec::new();
    let mut i: usize = 0;
    while i < v.len()
        invariant
            i <= v.len(),
            out@ == dedup_seq(v@.subrange(0, i as int)),
        decreases v.len() - i,
    {
        let x = v[i];
        let mut found = false;
        let mut j: usize = 0;
        while j < out.len()
            invariant
                j <= out.len(),
                found <==> out@.subrange(0, j as int).contains(x),
            decreases out.len() - j,
        {
            if out[j] == x {
                found = true;
            }
            proof {
                let a = out@.subrange(0, j as int);
                let b = out@.subrange(0, j as int + 1);
                assert(b == a.push(out@[j as int]));
                assert(b.contains(x) <==> a.contains(x) || out@[j as int] == x) by {
                    if b.contains(x) {
                        let k = choose|k: int| 0 <= k < b.len() && b[k] == x;
                        if k < a.len() {
                            assert(a[k] == x);
                        }
                    }
                    if a.contains(x) {
                        let k = choose|k: int| 0 <= k < a.len() && a[k] == x;
                        assert(b[k] == x);
                    }
                    if out@[j as int] == x {
                        assert(b[j as int] == x);
                    }
                }
            }
            j = j + 1;
        }
        assert(out@.subrange(0, out@.len() as int) == out@);
        assert(v@.subrange(0, i as int + 1).drop_last() == v@.subrange(0, i as int));
        if !found {
            out.push(x);
        }
        i = i + 1;
    }
    assert(v@.subrange(0, v@.len() as int) == v@);
    *v = out;
}

} // verus!

verus! {

fn copy_weekdays(v: &Vec<Weekday>) -> (r: Vec<Weekday>)
    ensures
        r@ == v@,
{
    let mut out: Vec<Weekday> = Vec::new();
    let mut i: usize = 0;
    while i < v.len()
        invariant
            i <= v.len(),
            out@ == v@.subrange(0, i as int),
        decreases v.len() - i,
    {
        out.push(v[i]);
        i = i + 1;
    }
    assert(v@.subrange(0, v@.len() as int) == v@);
    out
}

fn copy_month_days(v: &Vec<MonthDay>) -> (r: Vec<MonthDay>)
    ensures
        r@ == v@,
{
    let mut out: Vec<MonthDay> = Vec::new();
    let mut i: usize = 0;
    while i < v.len()
        invariant
            i <= v.len(),
            out@ == v@.subrange(0, i as int),
        decreases v.len() - i,
    {
        out.push(v[i]);
        i = i + 1;
    }
    assert(v@.subrange(0, v@.len() as int) == v@);
    out
}

fn copy_nth_weekdays(v: &Vec<NthWeekday>) -> (r: Vec<NthWeekday>)
    ensures
        r@ == v@,
{
    let mut out: Vec<NthWeekday> = Vec::new();
    let mut i: usize = 0;
    while i < v.len()
        invariant
            i <= v.len(),
            out@ == v@.subrange(0, i as int),
        decreases v.len() - i,
    {
        out.push(v[i]);
        i = i + 1;
    }
    assert(v@.subrange(0, v@.len() as int) == v@);
    out
}

/// The first month-day error of `days`, in order.
fn first_bad_month_day(days: &Vec<MonthDay>) -> (r: Result<(), ScheduleError>)
    ensures
        r is Err <==> first_month_day_error(days@) is Some,
        r matches Err(e) ==> first_month_day_error(days@) == Some(e),
{
    let mut i: usize = 0;
    while i < days.len()
        invariant
            i <= days.len(),
            first_month_day_error(days@.subrange(0, i as int)) is None,
        decreases days.len() - i,
    {
        proof {
            assert(days@.subrange(0, i as int + 1).drop_last() == days@.subrange(0, i as int));
        }
        match check_month_day(&days[i]) {
            Err(e) => {
                proof {
                    lemma_first_month_day_error_prefix(days@, i as int + 1);
                }
                return Err(e);
            },
            Ok(()) => {},
        }
        i = i + 1;
    }
    assert(days@.subrange(0, days@.len() as int) == days@);
    Ok(())
}

/// An error in a prefix is the first error of the whole sequence.
pub proof fn lemma_first_month_day_error_prefix(days: Seq<MonthDay>, n: int)
    requires
        0 <= n <= days.len(),
        first_month_day_error(days.subrange(0, n)) is Some,
    ensures
        first_month_day_error(days) == first_month_day_error(days.subrange(0, n)),
    decreases days.len(),
{
    if n < days.len() {
        assert(days.drop_last().subrange(0, n) == days.subrange(0, n));
        lemma_first_month_day_error_prefix(days.drop_last(), n);
    } else {
        assert(days.subrange(0, n) == days);
    }
}

/// Structural check of a calendar spec (depth first).
pub fn check_calendar_spec(c: &CalendarSpec) -> (r: Result<(), ScheduleError>)
    ensures
        r is Err <==> calendar_spec_error(*c) is Some,
        r matches Err(e) ==> calendar_spec_error(*c) == Some(e),
    decreases c,
{
    match c {
        CalendarSpec::BuiltIn(_) => Ok(()),
        CalendarSpec::Dates { .. } => Ok(()),
        CalendarSpec::Union { union } => {
            if union.len() == 0 {
                return Err(ScheduleError::EmptyCalendarGroup);
            }
            check_calendar_specs(union)
        },
        CalendarSpec::Diff { diff } => {
            if diff.len() == 0 {
                return Err(ScheduleError::EmptyCalendarGroup);
            }
            check_calendar_specs(diff)
        },
        CalendarSpec::Custom { custom } => {
            if custom.unicode_len() == 0 {
                Err(ScheduleError::EmptyCustomCalendar)
            } else {
                Ok(())
            }
        },
    }
}

fn check_calendar_specs(cs: &Vec<CalendarSpec>) -> (r: Result<(), ScheduleError>)
    ensures
        r is Err <==> calendar_specs_error(cs@, 0) is Some,
        r matches Err(e) ==> calendar_specs_error(cs@, 0) == Some(e),
    decreases cs,
{
    let mut i: usize = 0;
    while i < cs.len()
        invariant
            i <= cs.len(),
            calendar_specs_error(cs@, 0) == calendar_specs_error(cs@, i as int),
        decreases cs.len() - i,
    {
        assert(decreases_to!(cs => cs@[i as int]));
        match check_calendar_spec(&cs[i]) {
            Err(e) => {
                return Err(e);
            },
            Ok(()) => {},
        }
        i = i + 1;
    }
    Ok(())
}

/// Structural check of an overlay (depth first).
pub fn check_overlay(o: &Overlay) -> (r: Result<(), ScheduleError>)
    ensures
        r is Err <==> overlay_error(*o) is Some,
        r matches Err(e) ==> overlay_error(*o) == Some(e),
    decreases o,
{
    match o {
        Overlay::Calendar(c) => check_calendar_spec(&c.calendar),
        Overlay::Any(g) => {
            if g.any.len() == 0 {
                return Err(ScheduleError::EmptyOverlayGroup);
            }
            check_overlays(&g.any)
        },
    }
}

fn check_overlays(os: &Vec<Overlay>) -> (r: Result<(), ScheduleError>)
    ensures
        r is Err <==> overlays_error(os@, 0) is Some,
        r matches Err(e) ==> overlays_error(os@, 0) == Some(e),
    decreases os,
{
    let mut i: usize = 0;
    while i < os.len()
        invariant
            i <= os.len(),
            overlays_error(os@, 0) == overlays_error(os@, i as int),
        decreases os.len() - i,
    {
        assert(decreases_to!(os => os@[i as int]));
        match check_overlay(&os[i]) {
            Err(e) => {
                return Err(e);
            },
            Ok(()) => {},
        }
        i = i + 1;
    }
    Ok(())
}

impl Schedule {
    /// Structural validation. Dedupes day and weekday selections in place.
    pub fn validate(&mut self) -> (r: Result<(), ScheduleError>)
        ensures
            deduped_frequency(final(self).freq, old(self).freq),
            same_except_freq(*final(self), *old(self)),
            r is Err <==> schedule_error(*final(self)) is Some,
            r matches Err(e) ==> schedule_error(*final(self)) == Some(e),
    {
        let new_freq: Option<Frequency> = match &self.freq {
            Frequency::Weekly { days, time } => {
                let mut d = copy_weekdays(days);
                dedup_weekdays(&mut d);
                Some(Frequency::Weekly { days: d, time: *time })
            },
            Frequency::EveryNWeeks { interval, start_date, days, time } => {
                if *interval < 1 {
                    None
                } else {
                    let mut d = copy_weekdays(days);
                    dedup_weekdays(&mut d);
                    Some(
                        Frequency::EveryNWeeks {
                            interval: *interval,
                            start_date: *start_date,
                            days: d,
                            time: *time,
                        },
                    )
                }
            },
            Frequency::MonthlyByDay { days, time } => {
                match first_bad_month_day(days) {
                    Err(_) => None,
                    Ok(()) => {
                        let mut d = copy_month_days(days);
                        dedup(&mut d);
                        Some(Frequency::MonthlyByDay { days: d, time: *time })
                    },
                }
            },
            Frequency::MonthlyByWeekday { weekdays, time } => {
                let mut d = copy_nth_weekdays(weekdays);
                dedup_nth_weekdays(&mut d);
                Some(Frequency::MonthlyByWeekday { weekdays: d, time: *time })
            },
            _ => None,
        };
        if let Some(f) = new_freq {
            proof {
                match f {
                    Frequency::Weekly { .. } => lemma_dedup_seq_props(
                        old(self).freq->Weekly_days@,
                    ),
                    Frequency::EveryNWeeks { .. } => lemma_dedup_seq_props(
                        old(self).freq->EveryNWeeks_days@,
                    ),
                    Frequency::MonthlyByDay { .. } => lemma_dedup_seq_props(
                        old(self).freq->MonthlyByDay_days@,
                    ),
                    Frequency::MonthlyByWeekday { .. } => lemma_dedup_seq_props(
                        old(self).freq->weekdays@,
                    ),
                    _ => {},
                }
            }
            self.freq = f;
        }
        match &self.freq {
            Frequency::Hourly { minute } => {
                if *minute > 59 {
                    return Err(ScheduleError::InvalidMinute(*minute));
                }
            },
            Frequency::Daily { .. } => {},
            Frequency::Weekly { days, .. } => {
                if days.len() == 0 {
                    return Err(ScheduleError::EmptyDays);
                }
            },
            Frequency::EveryNDays { interval, .. } => {
                if *interval < 1 {
                    return Err(ScheduleError::InvalidInterval(*interval));
                }
            },
            Frequency::EveryNWeeks { interval, days, .. } => {
                if *interval < 1 {
                    return Err(ScheduleError::InvalidInterval(*interval));
                }
                if days.len() == 0 {
                    return Err(ScheduleError::EmptyDays);
                }
            },
            Frequency::MonthlyByDay { days, .. } => {
                first_bad_month_day(days)?;
                if days.len() == 0 {
                    return Err(ScheduleError::EmptyDays);
                }
            },
            Frequency::MonthlyByWeekday { weekdays, .. } => {
                if weekdays.len() == 0 {
                    return Err(ScheduleError::EmptyDays);
                }
            },
            Frequency::Yearly { month, day, .. } => {
                if *month < 1 || *month > 12 {
                    return Err(ScheduleError::InvalidMonth(*month));
                }
                check_month_day(day)?;
            },
            Frequency::Quarterly { month, day, .. } => {
                if *month < 1 || *month > 3 {
                    return Err(ScheduleError::InvalidQuarterMonth(*month));
                }
                check_month_day(day)?;
            },
            Frequency::CustomCron { expr } => {
                if !cron_expr_valid(expr.as_str()) {
                    return Err(ScheduleError::InvalidCron);
                }
            },
        }
        if let (Some(start), Some(end)) = (self.start, self.end) {
            if start.ms >= end.ms {
                return Err(ScheduleError::StartNotBeforeEnd);
            }
        }
        if let Some(0) = self.skip_if_consecutive_excluded {
            return Err(ScheduleError::InvalidSkipThreshold(0));
        }
        if let Some(0) = self.max_skip_gap {
            return Err(ScheduleError::InvalidMaxSkipGap(0));
        }
        check_overlays(&self.overlays)
    }
}

} // verus!
