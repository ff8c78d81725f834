use dateme::base::{month_day_date, nth_of, nth_weekday_date};
use dateme::calendar::{FnCalendars, NoCalendars};
use dateme::civil::{days_in_month, days_since, week_start, Date, Time, Weekday};
use dateme::cron::{cron_expr_valid, parse_cron_values};
use dateme::describe::month_day_label;
use dateme::generate::QueryError;
use dateme::schedule::{
    check_month_day, dedup, dedup_nth_weekdays, dedup_weekdays, CalendarId, CalendarSpec, Frequency,
    Makeup, MakeupDirection, MakeupFailure, MakeupStep, MonthDay, Nth, NthWeekday, Overlay,
    OverlayAny, OverlayCalendar, OverlayRule, Schedule, ScheduleError,
};
use dateme::text::{date_string, time_label};
use dateme::zone::{utc_date, Instant, LocalResolution, TimeZone};

fn utc(s: &str) -> Instant {
    Instant::from_millis(chrono::DateTime::parse_from_rfc3339(s).unwrap().timestamp_millis())
}

fn hm(h: u32, m: u32) -> Time {
    Time::from_hm(h, m).unwrap()
}

fn date(y: i32, m: u32, d: u32) -> Date {
    Date::from_ymd(y, m, d).unwrap()
}

fn schedule(freq: Frequency, timezone: TimeZone) -> Schedule {
    Schedule {
        freq,
        timezone,
        overlays: vec![],
        makeup: Makeup::Skip,
        max_makeup_hops: None,
        makeup_failure: MakeupFailure::Skip,
        makeup_only_on: None,
        makeup_within_week: false,
        makeup_exclude_weekends: false,
        makeup_before_next: false,
        skip_if_consecutive_excluded: None,
        max_skip_gap: None,
        start: None,
        end: None,
    }
}

fn overlay(calendar: CalendarSpec, rule: OverlayRule) -> Overlay {
    Overlay::Calendar(OverlayCalendar { calendar, rule, makeup: None })
}

fn chrono_date_text(d: Date) -> String {
    chrono::NaiveDate::from_num_days_from_ce_opt(d.days).unwrap().to_string()
}

#[test]
fn since_is_until_reversed() {
    let cal = FnCalendars::new(|_id: CalendarId, d: Date| Some(d == date(2026, 3, 4)));
    let mut s = schedule(Frequency::Daily { time: hm(8, 15) }, TimeZone::utc());
    s.overlays = vec![overlay(CalendarSpec::BuiltIn(CalendarId::NyseHoliday), OverlayRule::Exclude)];
    s.makeup = Makeup::After;
    let after = utc("2026-03-01T00:00:00Z");
    let before = utc("2026-03-10T00:00:00Z");
    let mut until = s.until(before, after, &cal);
    let since = s.since(after, before, &cal);
    until.reverse();
    assert_eq!(since, until);
    assert_eq!(s.count_between(after, before, &cal), since.len());
    assert_eq!(since.len(), 8);
}

#[test]
fn until_to_end_starts_with_next() {
    let mut s = schedule(
        Frequency::Weekly { days: vec![Weekday::Tue, Weekday::Thu], time: hm(10, 0) },
        TimeZone::utc(),
    );
    s.end = Some(utc("2026-05-01T00:00:00Z"));
    let after = utc("2026-04-01T00:00:00Z");
    let series = s.until(s.end.unwrap(), after, &NoCalendars);
    assert_eq!(series.first().copied(), s.next(after, &NoCalendars));
    assert_eq!(series[0], utc("2026-04-02T10:00:00Z"));

    // Past the end there is nothing, and next agrees.
    let late = utc("2026-05-02T00:00:00Z");
    assert_eq!(s.next(late, &NoCalendars), None);
}

#[test]
fn since_from_start_starts_with_previous() {
    let mut s = schedule(Frequency::Daily { time: hm(18, 45) }, TimeZone::utc());
    s.start = Some(utc("2026-02-01T00:00:00Z"));
    let before = utc("2026-02-05T00:00:00Z");
    let series = s.since(s.start.unwrap(), before, &NoCalendars);
    assert_eq!(series.first().copied(), s.previous(before, &NoCalendars));
    assert_eq!(series.last().copied(), Some(utc("2026-02-01T18:45:00Z")));
    // Nothing before the start.
    assert_eq!(s.previous(utc("2026-02-01T12:00:00Z"), &NoCalendars), None);
}

#[test]
fn upcoming_is_ascending_after_reference_and_bounded() {
    let s = schedule(Frequency::Hourly { minute: 5 }, TimeZone::from_name("Europe/Berlin").unwrap());
    let after = utc("2026-03-29T00:00:00Z");
    let got = s.upcoming(30, after, &NoCalendars);
    assert_eq!(got.len(), 30);
    assert!(got.windows(2).all(|w| w[0].ms < w[1].ms));
    assert!(got.iter().all(|t| t.ms > after.ms));
    assert_eq!(got[0], s.next(after, &NoCalendars).unwrap());
    assert!(s.upcoming(0, after, &NoCalendars).is_empty());
}

#[test]
fn overlays_are_anded_and_any_groups_ored() {
    let cal = FnCalendars::new(|id: CalendarId, d: Date| match id {
        CalendarId::UsFederalHoliday => Some(d == date(2026, 9, 8)),
        CalendarId::NyseHoliday => Some(d == date(2026, 9, 9)),
        _ => Some(false),
    });
    let mut s = schedule(Frequency::Daily { time: hm(12, 0) }, TimeZone::utc());
    s.overlays = vec![
        overlay(CalendarSpec::BuiltIn(CalendarId::UsFederalHoliday), OverlayRule::Exclude),
        overlay(CalendarSpec::BuiltIn(CalendarId::NyseHoliday), OverlayRule::Exclude),
    ];
    let after = utc("2026-09-07T00:00:00Z");
    let before = utc("2026-09-11T00:00:00Z");
    assert_eq!(
        s.until(before, after, &cal),
        vec![utc("2026-09-07T12:00:00Z"), utc("2026-09-10T12:00:00Z")]
    );
    s.overlays = vec![Overlay::Any(OverlayAny {
        any: vec![
            overlay(CalendarSpec::BuiltIn(CalendarId::UsFederalHoliday), OverlayRule::Exclude),
            overlay(CalendarSpec::BuiltIn(CalendarId::NyseHoliday), OverlayRule::Exclude),
        ],
        makeup: None,
    })];
    assert_eq!(s.until(before, after, &cal).len(), 4);
}

#[test]
fn only_rule_keeps_calendar_dates() {
    let mut s = schedule(Frequency::Daily { time: hm(7, 0) }, TimeZone::utc());
    s.overlays = vec![overlay(
        CalendarSpec::Dates { dates: vec![date(2026, 2, 2), date(2026, 2, 4)] },
        OverlayRule::Only,
    )];
    assert_eq!(
        s.until(utc("2026-02-10T00:00:00Z"), utc("2026-02-01T00:00:00Z"), &NoCalendars),
        vec![utc("2026-02-02T07:00:00Z"), utc("2026-02-04T07:00:00Z")]
    );
}

#[test]
fn missing_calendars_count_as_not_in_set() {
    let mut s = schedule(Frequency::Daily { time: hm(7, 0) }, TimeZone::utc());
    s.overlays = vec![overlay(CalendarSpec::Custom { custom: "unknown".to_string() }, OverlayRule::Exclude)];
    assert_eq!(
        s.count_between(utc("2026-02-01T00:00:00Z"), utc("2026-02-04T00:00:00Z"), &NoCalendars),
        3
    );
    s.overlays = vec![overlay(CalendarSpec::BuiltIn(CalendarId::NyseTradingDay), OverlayRule::Only)];
    assert_eq!(
        s.count_between(utc("2026-02-01T00:00:00Z"), utc("2026-02-04T00:00:00Z"), &NoCalendars),
        0
    );
}

#[test]
fn nearest_makeup_goes_earlier_when_later_is_blocked() {
    let cal = FnCalendars::new(|_id: CalendarId, d: Date| {
        Some(d.days >= date(2026, 6, 10).days && d.days <= date(2026, 6, 12).days)
    });
    let mut s = schedule(Frequency::Weekly { days: vec![Weekday::Thu], time: hm(9, 0) }, TimeZone::utc());
    s.overlays = vec![overlay(CalendarSpec::BuiltIn(CalendarId::NyseHoliday), OverlayRule::Exclude)];
    s.makeup = Makeup::Nearest;
    // Thu 06-11 is excluded; +1 (06-12) is excluded, -1 (06-10) is excluded,
    // +2 (06-13) survives.
    assert_eq!(s.next(utc("2026-06-05T00:00:00Z"), &cal), Some(utc("2026-06-13T09:00:00Z")));
}

#[test]
fn makeup_failure_skip_drops_and_reasons_name_the_original() {
    let cal = FnCalendars::new(|_id: CalendarId, d: Date| Some(d == date(2026, 1, 6)));
    let mut s = schedule(Frequency::Weekly { days: vec![Weekday::Tue], time: hm(9, 0) }, TimeZone::utc());
    s.overlays = vec![overlay(CalendarSpec::BuiltIn(CalendarId::NyseHoliday), OverlayRule::Exclude)];
    s.makeup = Makeup::Before;
    let traces = s
        .try_until_trace(utc("2026-01-14T00:00:00Z"), utc("2026-01-01T00:00:00Z"), &cal)
        .unwrap();
    assert_eq!(traces.len(), 2);
    assert_eq!(traces[0].instant, utc("2026-01-05T09:00:00Z"));
    assert_eq!(traces[0].reason, format!("makeup_from({})", chrono_date_text(date(2026, 1, 6))));
    assert_eq!(traces[1].reason, "base");

    s.max_makeup_hops = Some(0);
    s.makeup_failure = MakeupFailure::Skip;
    assert_eq!(
        s.until(utc("2026-01-14T00:00:00Z"), utc("2026-01-01T00:00:00Z"), &cal),
        vec![utc("2026-01-13T09:00:00Z")]
    );
}

#[test]
fn cascade_with_zero_hops_is_a_failure_not_a_skip() {
    let cal = FnCalendars::new(|_id: CalendarId, d: Date| Some(d == date(2026, 1, 6)));
    let mut s = schedule(Frequency::Weekly { days: vec![Weekday::Tue], time: hm(9, 0) }, TimeZone::utc());
    s.overlays = vec![overlay(CalendarSpec::BuiltIn(CalendarId::NyseHoliday), OverlayRule::Exclude)];
    s.makeup = Makeup::Cascade(vec![MakeupStep::Options(dateme::schedule::MakeupStepOptions {
        direction: MakeupDirection::After,
        max_hops: Some(0),
    })]);
    s.makeup_failure = MakeupFailure::KeepOriginal;
    assert_eq!(s.next(utc("2026-01-05T00:00:00Z"), &cal), Some(utc("2026-01-06T09:00:00Z")));
    let trace = s.try_next_trace(utc("2026-01-05T00:00:00Z"), &cal).unwrap().unwrap();
    assert_eq!(trace.reason, "base");
}

#[test]
fn trace_queries_match_instant_queries() {
    let s = schedule(Frequency::Daily { time: hm(23, 30) }, TimeZone::from_name("Asia/Tokyo").unwrap());
    let after = utc("2026-01-01T00:00:00Z");
    let before = utc("2026-01-06T00:00:00Z");
    let traces = s.try_upcoming_trace(4, after, &NoCalendars).unwrap();
    let instants = s.try_upcoming(4, after, &NoCalendars).unwrap();
    assert_eq!(traces.iter().map(|t| t.instant).collect::<Vec<_>>(), instants);
    let since = s.try_since_trace(after, before, &NoCalendars).unwrap();
    assert_eq!(since.iter().map(|t| t.instant).collect::<Vec<_>>(), s.since(after, before, &NoCalendars));
    let prev = s.try_previous_trace(before, &NoCalendars).unwrap().unwrap();
    assert_eq!(Some(prev.instant), s.previous(before, &NoCalendars));
    assert_eq!(prev.instant, utc("2026-01-05T14:30:00Z"));
}

#[test]
fn empty_and_reversed_windows_are_empty() {
    let s = schedule(Frequency::Daily { time: hm(12, 0) }, TimeZone::utc());
    let t = utc("2026-01-01T00:00:00Z");
    assert!(s.until(t, t, &NoCalendars).is_empty());
    assert!(s.since(utc("2026-01-05T00:00:00Z"), t, &NoCalendars).is_empty());
    assert_eq!(s.try_count_between(t, t, &NoCalendars), Ok(0));
    assert_eq!(s.try_is_occurrence(utc("2026-01-01T12:00:00Z"), &NoCalendars), Ok(true));
    assert_eq!(s.try_is_occurrence(utc("2026-01-01T12:00:00.001Z"), &NoCalendars), Ok(false));
}

#[test]
fn max_skip_gap_open_ends_for_searches() {
    let cal = FnCalendars::new(|_id: CalendarId, d: Date| Some(d.days >= date(2026, 1, 3).days && d.days <= date(2026, 1, 9).days));
    let mut s = schedule(Frequency::Daily { time: hm(9, 0) }, TimeZone::utc());
    s.overlays = vec![overlay(CalendarSpec::BuiltIn(CalendarId::UsFederalHoliday), OverlayRule::Exclude)];
    s.max_skip_gap = Some(3);
    // Searches measure from their reference instant: after the excluded week
    // the gaps are short, across it they are not.
    assert_eq!(s.try_next(utc("2026-01-08T00:00:00Z"), &cal), Ok(Some(utc("2026-01-10T09:00:00Z"))));
    assert_eq!(
        s.try_next(utc("2026-01-02T12:00:00Z"), &cal),
        Err(QueryError::MaxSkipGapExceeded { max_days: 3 })
    );
    assert_eq!(s.next(utc("2026-01-02T12:00:00Z"), &cal), None);
    // A window spanning the excluded week has a gap longer than three days.
    assert_eq!(
        s.try_until(utc("2026-01-12T00:00:00Z"), utc("2026-01-01T00:00:00Z"), &cal),
        Err(QueryError::MaxSkipGapExceeded { max_days: 3 })
    );
    assert_eq!(s.count_between(utc("2026-01-01T00:00:00Z"), utc("2026-01-12T00:00:00Z"), &cal), 0);
    assert!(s.since(utc("2026-01-01T00:00:00Z"), utc("2026-01-12T00:00:00Z"), &cal).is_empty());
}

#[test]
fn every_frequency_kind_generates() {
    let tz = TimeZone::utc();
    let after = utc("2026-01-01T00:00:00Z");
    let hourly = schedule(Frequency::Hourly { minute: 59 }, tz.clone());
    assert_eq!(hourly.next(after, &NoCalendars), Some(utc("2026-01-01T00:59:00Z")));
    let bad_minute = schedule(Frequency::Hourly { minute: 60 }, tz.clone());
    assert_eq!(bad_minute.next(after, &NoCalendars), None);
    let monthly = schedule(
        Frequency::MonthlyByWeekday {
            weekdays: vec![NthWeekday { nth: Nth::Last, weekday: Weekday::Mon }],
            time: hm(8, 0),
        },
        tz.clone(),
    );
    assert_eq!(monthly.next(after, &NoCalendars), Some(utc("2026-01-26T08:00:00Z")));
    let yearly = schedule(Frequency::Yearly { month: 2, day: MonthDay::Last, time: hm(0, 0) }, tz.clone());
    assert_eq!(
        yearly.upcoming(3, after, &NoCalendars),
        vec![utc("2026-02-28T00:00:00Z"), utc("2027-02-28T00:00:00Z"), utc("2028-02-29T00:00:00Z")]
    );
    let quarterly = schedule(Frequency::Quarterly { month: 3, day: MonthDay::Last, time: hm(17, 0) }, tz.clone());
    assert_eq!(quarterly.next(after, &NoCalendars), Some(utc("2026-03-31T17:00:00Z")));
    let cron = schedule(Frequency::CustomCron { expr: "*/20 9-10 1 * 0".to_string() }, tz.clone());
    // 2026-02-01 is a Sunday (day-of-week 0), the first of the month.
    assert_eq!(
        cron.until(utc("2026-02-02T00:00:00Z"), utc("2026-01-31T00:00:00Z"), &NoCalendars).len(),
        6
    );
    let bad_cron = schedule(Frequency::CustomCron { expr: "* * *".to_string() }, tz.clone());
    assert_eq!(bad_cron.next(after, &NoCalendars), None);
    let weeks = schedule(
        Frequency::EveryNWeeks {
            interval: 3,
            start_date: date(2025, 12, 31),
            days: vec![Weekday::Mon],
            time: hm(6, 0),
        },
        tz,
    );
    // The cycle is anchored at the week of 2025-12-29.
    assert_eq!(weeks.next(after, &NoCalendars), Some(utc("2026-01-19T06:00:00Z")));
}

#[test]
fn calendar_arithmetic_formulas() {
    assert_eq!(days_in_month(2023, 2), 28);
    assert_eq!(days_in_month(2000, 2), 29);
    assert_eq!(days_in_month(1900, 2), 28);
    assert_eq!(days_in_month(2026, 4), 30);
    assert_eq!(date(1970, 1, 1).days, 719163);
    assert_eq!(date(1, 1, 1).weekday(), Weekday::Mon);
    assert_eq!(date(2026, 1, 18).weekday(), Weekday::Sun);
    assert_eq!(Date::from_ymd(2026, 2, 30), None);
    assert_eq!(Time::from_hm(24, 0), None);
    assert_eq!(days_since(date(2026, 1, 1), date(2026, 3, 1)), 59);
    assert_eq!(week_start(date(2026, 1, 18)), date(2026, 1, 12));
    assert_eq!(date(2026, 12, 31).add_days(1), Some(date(2027, 1, 1)));
    assert_eq!(month_day_date(2026, 4, MonthDay::Day { value: 31 }), None);
    assert_eq!(month_day_date(2026, 13, MonthDay::Last), None);
    assert_eq!(month_day_date(2024, 2, MonthDay::Last), Some(date(2024, 2, 29)));
    assert_eq!(nth_of(Nth::Fourth), Some(4));
    assert_eq!(nth_of(Nth::Last), None);
    assert_eq!(nth_weekday_date(2026, 1, Weekday::Fri, Nth::Last), Some(date(2026, 1, 30)));
    assert_eq!(nth_weekday_date(2026, 2, Weekday::Fri, Nth::Fifth), None);
    assert_eq!(nth_weekday_date(2026, 3, Weekday::Sun, Nth::First), Some(date(2026, 3, 1)));
}

#[test]
fn cron_fields_parse_leniently_and_validate_strictly() {
    assert_eq!(parse_cron_values("1-10/3", 0, 59), vec![1, 4, 7, 10]);
    assert_eq!(parse_cron_values("*/20", 0, 59), vec![0, 20, 40]);
    assert_eq!(parse_cron_values("5,3,5", 0, 59), vec![3, 5]);
    assert_eq!(parse_cron_values("abc", 1, 12), vec![1]);
    assert_eq!(parse_cron_values("70", 0, 59), Vec::<u32>::new());
    assert_eq!(parse_cron_values("0,7", 0, 7), vec![0, 7]);
    assert!(cron_expr_valid("30 9 * * 1-5"));
    assert!(cron_expr_valid("  */15\t0-23/2 1,15 * *  "));
    assert!(!cron_expr_valid("30 9 * *"));
    assert!(!cron_expr_valid("60 9 * * *"));
    assert!(!cron_expr_valid("5-1 * * * *"));
    assert!(!cron_expr_valid("*/0 * * * *"));
    assert!(cron_expr_valid("0 12 * * 0,6"));
    assert!(!cron_expr_valid("0 12 * * 7"));
}

#[test]
fn validation_reports_each_error() {
    let tz = TimeZone::utc();
    let check = |freq: Frequency| schedule(freq, TimeZone::utc()).validate();
    assert_eq!(check(Frequency::Weekly { days: vec![], time: hm(9, 0) }), Err(ScheduleError::EmptyDays));
    assert_eq!(
        check(Frequency::MonthlyByDay { days: vec![MonthDay::Day { value: 0 }], time: hm(9, 0) }),
        Err(ScheduleError::InvalidMonthDay(0))
    );
    assert_eq!(
        check(Frequency::Yearly { month: 13, day: MonthDay::Last, time: hm(9, 0) }),
        Err(ScheduleError::InvalidMonth(13))
    );
    assert_eq!(
        check(Frequency::EveryNDays { interval: 0, start_date: date(2026, 1, 1), time: hm(9, 0) }),
        Err(ScheduleError::InvalidInterval(0))
    );
    assert_eq!(
        check(Frequency::Quarterly { month: 4, day: MonthDay::Last, time: hm(9, 0) }),
        Err(ScheduleError::InvalidQuarterMonth(4))
    );
    assert_eq!(check(Frequency::CustomCron { expr: "* * * * * *".to_string() }), Err(ScheduleError::InvalidCron));
    assert_eq!(check(Frequency::MonthlyByWeekday { weekdays: vec![], time: hm(9, 0) }), Err(ScheduleError::EmptyDays));

    let mut gap = schedule(Frequency::Daily { time: hm(9, 0) }, tz.clone());
    gap.max_skip_gap = Some(0);
    assert_eq!(gap.validate(), Err(ScheduleError::InvalidMaxSkipGap(0)));

    let mut group = schedule(Frequency::Daily { time: hm(9, 0) }, tz.clone());
    group.overlays = vec![Overlay::Any(OverlayAny { any: vec![], makeup: None })];
    assert_eq!(group.validate(), Err(ScheduleError::EmptyOverlayGroup));

    let mut union = schedule(Frequency::Daily { time: hm(9, 0) }, tz.clone());
    union.overlays = vec![overlay(CalendarSpec::Union { union: vec![] }, OverlayRule::Exclude)];
    assert_eq!(union.validate(), Err(ScheduleError::EmptyCalendarGroup));

    let mut custom = schedule(Frequency::Daily { time: hm(9, 0) }, tz.clone());
    custom.overlays = vec![overlay(
        CalendarSpec::Diff { diff: vec![CalendarSpec::Custom { custom: String::new() }] },
        OverlayRule::Exclude,
    )];
    assert_eq!(custom.validate(), Err(ScheduleError::EmptyCustomCalendar));

    // Validation dedupes, and a second validation changes nothing.
    let mut dup = schedule(
        Frequency::MonthlyByDay {
            days: vec![MonthDay::Last, MonthDay::Day { value: 2 }, MonthDay::Last],
            time: hm(9, 0),
        },
        tz,
    );
    assert_eq!(dup.validate(), Ok(()));
    assert_eq!(dup.freq, Frequency::MonthlyByDay { days: vec![MonthDay::Last, MonthDay::Day { value: 2 }], time: hm(9, 0) });
    assert_eq!(dup.validate(), Ok(()));
    assert_eq!(dup.freq, Frequency::MonthlyByDay { days: vec![MonthDay::Last, MonthDay::Day { value: 2 }], time: hm(9, 0) });
}

#[test]
fn second_validation_repeats_the_first() {
    let mut s = schedule(
        Frequency::Weekly { days: vec![Weekday::Wed, Weekday::Mon, Weekday::Wed], time: hm(9, 0) },
        TimeZone::utc(),
    );
    s.max_skip_gap = Some(0);
    let first = s.validate();
    assert_eq!(first, Err(ScheduleError::InvalidMaxSkipGap(0)));
    let deduped = Frequency::Weekly { days: vec![Weekday::Wed, Weekday::Mon], time: hm(9, 0) };
    assert_eq!(s.freq, deduped);
    assert_eq!(s.validate(), first);
    assert_eq!(s.freq, deduped);
    assert_eq!(s.max_skip_gap, Some(0));
}

#[test]
fn dedup_helpers_keep_first_occurrences() {
    let mut days = vec![MonthDay::Day { value: 3 }, MonthDay::Last, MonthDay::Day { value: 3 }];
    dedup(&mut days);
    assert_eq!(days, vec![MonthDay::Day { value: 3 }, MonthDay::Last]);
    let mut weekdays = vec![Weekday::Fri, Weekday::Mon, Weekday::Fri, Weekday::Mon];
    dedup_weekdays(&mut weekdays);
    assert_eq!(weekdays, vec![Weekday::Fri, Weekday::Mon]);
    let first = NthWeekday { nth: Nth::First, weekday: Weekday::Tue };
    let mut nths = vec![first, first];
    dedup_nth_weekdays(&mut nths);
    assert_eq!(nths, vec![first]);
    assert_eq!(check_month_day(&MonthDay::Day { value: 32 }), Err(ScheduleError::InvalidMonthDay(32)));
    assert_eq!(check_month_day(&MonthDay::Last), Ok(()));
}

#[test]
fn makeup_direction_round_trip() {
    for d in [MakeupDirection::Skip, MakeupDirection::Before, MakeupDirection::After, MakeupDirection::Nearest] {
        assert_eq!(Makeup::from_direction(d).to_direction(), d);
    }
    assert_eq!(Makeup::Cascade(vec![]).to_direction(), MakeupDirection::Skip);
    assert_eq!(MakeupStep::direction(MakeupDirection::After).parts(), (MakeupDirection::After, None));
}

#[test]
fn text_rendering_matches_chrono() {
    for d in [date(2026, 1, 5), date(0, 3, 1), date(-1, 12, 31), date(12345, 6, 7), date(9999, 12, 31)] {
        assert_eq!(date_string(d), chrono_date_text(d));
    }
    assert_eq!(date_string(date(-1, 12, 31)), "-0001-12-31");
    assert_eq!(date_string(date(12345, 6, 7)), "+12345-06-07");
    assert_eq!(time_label(hm(9, 5)), "09:05");
    assert_eq!(month_day_label(MonthDay::Day { value: 7 }), "7");
    assert_eq!(month_day_label(MonthDay::Last), "last day");
}

#[test]
fn descriptions_and_messages() {
    let tz = TimeZone::utc();
    let mut s = schedule(Frequency::Hourly { minute: 5 }, tz.clone());
    assert_eq!(s.describe(), "Every hour at minute 05 UTC");
    s.overlays = vec![overlay(CalendarSpec::BuiltIn(CalendarId::NyseHoliday), OverlayRule::Exclude)];
    s.makeup = Makeup::After;
    assert_eq!(s.describe(), "Every hour at minute 05 UTC, with 1 overlay(s), with makeup");
    let weekly = schedule(Frequency::Weekly { days: vec![Weekday::Mon, Weekday::Fri], time: hm(17, 30) }, TimeZone::from_name("America/New_York").unwrap());
    assert_eq!(weekly.describe(), "Every Monday, Friday at 17:30 America/New_York");
    let n_days = schedule(Frequency::EveryNDays { interval: 3, start_date: date(2026, 1, 1), time: hm(9, 0) }, tz.clone());
    assert_eq!(n_days.describe(), "Every 3 days from 2026-01-01 at 09:00 UTC");
    let n_weeks = schedule(
        Frequency::EveryNWeeks { interval: 2, start_date: date(2026, 1, 5), days: vec![Weekday::Thu], time: hm(17, 0) },
        tz.clone(),
    );
    assert_eq!(n_weeks.describe(), "Every 2 weeks from 2026-01-05 on Thursday at 17:00 UTC");
    let by_day = schedule(Frequency::MonthlyByDay { days: vec![MonthDay::Day { value: 1 }, MonthDay::Last], time: hm(12, 0) }, tz.clone());
    assert_eq!(by_day.describe(), "Every month on 1, last day at 12:00 UTC");
    let by_weekday = schedule(
        Frequency::MonthlyByWeekday { weekdays: vec![NthWeekday { nth: Nth::First, weekday: Weekday::Tue }], time: hm(9, 0) },
        tz.clone(),
    );
    assert_eq!(by_weekday.describe(), "Every month on 1 rule(s) at 09:00 UTC");
    let yearly = schedule(Frequency::Yearly { month: 7, day: MonthDay::Day { value: 4 }, time: hm(12, 0) }, tz.clone());
    assert_eq!(yearly.describe(), "Every year on 7/4 at 12:00 UTC");
    let quarterly = schedule(Frequency::Quarterly { month: 1, day: MonthDay::Day { value: 15 }, time: hm(12, 0) }, tz.clone());
    assert_eq!(quarterly.describe(), "Every quarter in month 1 on 15 at 12:00 UTC");
    let cron = schedule(Frequency::CustomCron { expr: "30 9 * * 1-5".to_string() }, tz.clone());
    assert_eq!(cron.describe(), "Cron `30 9 * * 1-5` UTC");
    let daily = schedule(Frequency::Daily { time: hm(0, 0) }, tz);
    assert_eq!(daily.describe(), "Every day at 00:00 UTC");

    assert_eq!(ScheduleError::InvalidMinute(60).message(), "minute 60 out of range 0..=59");
    assert_eq!(ScheduleError::StartNotBeforeEnd.message(), "start must be strictly before end");
    assert_eq!(ScheduleError::InvalidSkipThreshold(0).message(), "skip threshold 0 out of range 1..");
    assert_eq!(
        QueryError::MakeupFailed { date: date(2026, 1, 19) }.message(),
        "makeup failed for excluded occurrence on 2026-01-19"
    );
    assert_eq!(
        QueryError::MaxSkipGapExceeded { max_days: 2 }.message(),
        "schedule gap exceeded max_skip_gap of 2 days"
    );
}

#[test]
fn time_zones_resolve_local_readings() {
    assert_eq!(TimeZone::from_name("Mars/Olympus_Mons"), None);
    let ny = TimeZone::from_name("America/New_York").unwrap();
    assert_eq!(ny.name(), "America/New_York");
    // 2026-03-08 02:30 does not exist in New York; 01:30 on 2026-11-01 occurs twice.
    assert_eq!(ny.resolve(date(2026, 3, 8), 2, 30), LocalResolution::Gap);
    assert_eq!(
        ny.resolve(date(2026, 11, 1), 1, 30),
        LocalResolution::Ambiguous(utc("2026-11-01T05:30:00Z"), utc("2026-11-01T06:30:00Z"))
    );
    assert_eq!(ny.resolve(date(2026, 7, 1), 9, 0), LocalResolution::Single(utc("2026-07-01T13:00:00Z")));
    assert_eq!(utc_date(Instant::from_millis(-1)), date(1969, 12, 31));
    assert_eq!(utc_date(Instant::from_millis(0)), date(1970, 1, 1));
    assert_eq!(utc_date(Instant::from_millis(86_399_999)), date(1970, 1, 1));
    assert_eq!(utc_date(utc("2026-01-01T03:30:00Z")), date(2026, 1, 1));
}

#[test]
fn is_occurrence_agrees_with_until() {
    let cal = FnCalendars::new(|_id: CalendarId, d: Date| Some(d == date(2026, 6, 10)));
    let mut s = schedule(
        Frequency::Weekly { days: vec![Weekday::Mon, Weekday::Wed], time: hm(7, 45) },
        TimeZone::utc(),
    );
    s.overlays = vec![overlay(CalendarSpec::BuiltIn(CalendarId::NyseHoliday), OverlayRule::Exclude)];
    s.makeup = Makeup::After;
    let after = utc("2026-06-01T00:00:00Z");
    let before = utc("2026-06-20T00:00:00Z");
    let series = s.until(before, after, &cal);
    assert_eq!(series.len(), 6);
    assert!(series.contains(&utc("2026-06-11T07:45:00Z")));
    for x in &series {
        assert!(s.is_occurrence(*x, &cal));
    }
    for probe in ["2026-06-10T07:45:00Z", "2026-06-08T07:46:00Z", "2026-06-12T07:45:00Z"] {
        let x = utc(probe);
        assert!(!series.contains(&x));
        assert!(!s.is_occurrence(x, &cal));
    }
}

#[test]
fn upcoming_is_the_start_of_until_to_end() {
    let mut s = schedule(
        Frequency::MonthlyByDay { days: vec![MonthDay::Day { value: 31 }, MonthDay::Day { value: 15 }], time: hm(12, 0) },
        TimeZone::utc(),
    );
    s.end = Some(utc("2026-09-01T00:00:00Z"));
    let after = utc("2026-01-20T00:00:00Z");
    let series = s.until(s.end.unwrap(), after, &NoCalendars);
    let first_four = s.upcoming(4, after, &NoCalendars);
    assert_eq!(first_four, series[..4].to_vec());
    assert_eq!(
        first_four,
        vec![
            utc("2026-01-31T12:00:00Z"),
            utc("2026-02-15T12:00:00Z"),
            utc("2026-03-15T12:00:00Z"),
            utc("2026-03-31T12:00:00Z"),
        ]
    );
    assert_eq!(s.upcoming(100, after, &NoCalendars), series);
    assert_eq!(series.len(), 12);
}

#[test]
fn neighbour_bound_before_makeup_agrees_across_windows() {
    let excluded: Vec<Date> = (6..=22).map(|d| date(2026, 1, d)).collect();
    let mut s = schedule(
        Frequency::MonthlyByDay {
            days: vec![MonthDay::Day { value: 2 }, MonthDay::Day { value: 14 }, MonthDay::Day { value: 22 }],
            time: hm(9, 0),
        },
        TimeZone::utc(),
    );
    s.overlays = vec![overlay(CalendarSpec::Dates { dates: excluded }, OverlayRule::Exclude)];
    s.makeup = Makeup::Before;
    s.makeup_before_next = true;
    let after = utc("2025-12-25T00:00:00Z");
    let before = utc("2026-02-10T00:00:00Z");
    let series = s.until(before, after, &NoCalendars);
    assert_eq!(
        series,
        vec![
            utc("2026-01-02T09:00:00Z"),
            utc("2026-01-05T09:00:00Z"),
            utc("2026-02-02T09:00:00Z"),
        ]
    );
    for x in &series {
        assert!(s.is_occurrence(*x, &NoCalendars));
    }
    assert_eq!(s.next(utc("2026-01-03T00:00:00Z"), &NoCalendars), Some(utc("2026-01-05T09:00:00Z")));
}

#[test]
fn neighbour_bound_nearest_makeup_agrees_across_windows() {
    let excluded: Vec<Date> = (6..=22).map(|d| date(2026, 1, d)).collect();
    let mut s = schedule(
        Frequency::MonthlyByDay {
            days: vec![MonthDay::Day { value: 2 }, MonthDay::Day { value: 14 }, MonthDay::Day { value: 22 }],
            time: hm(9, 0),
        },
        TimeZone::utc(),
    );
    s.overlays = vec![overlay(CalendarSpec::Dates { dates: excluded }, OverlayRule::Exclude)];
    s.makeup = Makeup::Nearest;
    s.makeup_before_next = true;
    let x = utc("2026-01-05T09:00:00Z");
    let series = s.until(utc("2026-02-01T00:00:00Z"), utc("2025-12-25T00:00:00Z"), &NoCalendars);
    assert_eq!(
        series,
        vec![
            utc("2026-01-02T09:00:00Z"),
            utc("2026-01-05T09:00:00Z"),
            utc("2026-01-23T09:00:00Z"),
        ]
    );
    for y in &series {
        assert!(s.is_occurrence(*y, &NoCalendars));
    }
    assert_eq!(s.next(utc("2026-01-03T00:00:00Z"), &NoCalendars), Some(x));
    assert_eq!(s.until(utc("2026-01-06T00:00:00Z"), utc("2026-01-03T00:00:00Z"), &NoCalendars), vec![x]);
    assert_eq!(s.previous(utc("2026-01-20T00:00:00Z"), &NoCalendars), Some(x));
}

#[test]
fn consecutive_skip_threshold_counts_the_whole_series() {
    let excluded = vec![
        date(2026, 1, 12),
        date(2026, 1, 19),
        date(2026, 1, 26),
        date(2026, 2, 2),
        date(2026, 2, 9),
    ];
    let mut s = schedule(
        Frequency::Weekly { days: vec![Weekday::Mon], time: hm(9, 0) },
        TimeZone::utc(),
    );
    s.overlays = vec![overlay(CalendarSpec::Dates { dates: excluded }, OverlayRule::Exclude)];
    s.makeup = Makeup::Before;
    s.skip_if_consecutive_excluded = Some(5);
    let x = utc("2026-01-11T09:00:00Z");
    let series = s.until(utc("2026-02-20T00:00:00Z"), utc("2026-01-01T00:00:00Z"), &NoCalendars);
    assert_eq!(series, vec![utc("2026-01-05T09:00:00Z"), utc("2026-02-16T09:00:00Z")]);
    assert!(!s.is_occurrence(x, &NoCalendars));
    assert!(s.until(utc("2026-01-15T00:00:00Z"), utc("2026-01-10T00:00:00Z"), &NoCalendars).is_empty());
    assert_eq!(s.next(utc("2026-01-10T00:00:00Z"), &NoCalendars), Some(utc("2026-02-16T09:00:00Z")));
    assert!(s.since(utc("2026-02-05T00:00:00Z"), utc("2026-02-12T00:00:00Z"), &NoCalendars).is_empty());
    assert_eq!(s.previous(utc("2026-02-12T00:00:00Z"), &NoCalendars), Some(utc("2026-01-05T09:00:00Z")));
    assert_eq!(
        s.until(utc("2026-02-20T00:00:00Z"), utc("2026-01-01T00:00:00Z"), &NoCalendars),
        [
            s.until(utc("2026-01-11T12:00:00Z"), utc("2026-01-01T00:00:00Z"), &NoCalendars),
            s.until(utc("2026-02-20T00:00:00Z"), utc("2026-01-11T12:00:00Z"), &NoCalendars),
        ]
        .concat()
    );
    s.skip_if_consecutive_excluded = Some(6);
    assert_eq!(
        s.until(utc("2026-02-20T00:00:00Z"), utc("2026-01-01T00:00:00Z"), &NoCalendars),
        vec![
            utc("2026-01-05T09:00:00Z"),
            utc("2026-01-11T09:00:00Z"),
            utc("2026-01-18T09:00:00Z"),
            utc("2026-01-25T09:00:00Z"),
            utc("2026-02-01T09:00:00Z"),
            utc("2026-02-08T09:00:00Z"),
            utc("2026-02-16T09:00:00Z"),
        ]
    );
}

#[test]
fn until_within_max_skip_gap_succeeds() {
    let mut s = schedule(
        Frequency::Weekly { days: vec![Weekday::Fri], time: hm(18, 30) },
        TimeZone::utc(),
    );
    s.max_skip_gap = Some(7);
    let after = utc("2026-03-01T00:00:00Z");
    let before = utc("2026-03-25T00:00:00Z");
    let v = s.try_until(before, after, &NoCalendars).unwrap();
    assert_eq!(
        v,
        vec![utc("2026-03-06T18:30:00Z"), utc("2026-03-13T18:30:00Z"), utc("2026-03-20T18:30:00Z")]
    );
    let week = 7 * 86_400_000i64;
    assert!(v[0].millis() - after.millis() <= week);
    for w in v.windows(2) {
        assert!(w[1].millis() - w[0].millis() <= week);
    }
    assert!(before.millis() - v[2].millis() <= week);
    s.max_skip_gap = Some(6);
    assert_eq!(s.try_until(before, after, &NoCalendars), Err(QueryError::MaxSkipGapExceeded { max_days: 6 }));
}

#[test]
fn searches_gap_check_only_what_they_return() {
    let excluded: Vec<Date> = (10..=14).map(|d| date(2026, 1, d)).collect();
    let mut s = schedule(Frequency::Daily { time: hm(9, 0) }, TimeZone::utc());
    s.overlays = vec![overlay(CalendarSpec::Dates { dates: excluded }, OverlayRule::Exclude)];
    s.max_skip_gap = Some(2);
    assert_eq!(
        s.try_next(utc("2026-01-01T00:00:00Z"), &NoCalendars),
        Ok(Some(utc("2026-01-01T09:00:00Z")))
    );
    assert_eq!(s.upcoming(3, utc("2026-01-01T00:00:00Z"), &NoCalendars).len(), 3);
    assert_eq!(
        s.try_upcoming(10, utc("2026-01-01T00:00:00Z"), &NoCalendars),
        Err(QueryError::MaxSkipGapExceeded { max_days: 2 })
    );
    assert_eq!(
        s.try_previous(utc("2026-01-20T00:00:00Z"), &NoCalendars),
        Ok(Some(utc("2026-01-19T09:00:00Z")))
    );
    assert_eq!(
        s.try_previous(utc("2026-01-15T00:00:00Z"), &NoCalendars),
        Err(QueryError::MaxSkipGapExceeded { max_days: 2 })
    );
}

#[test]
fn made_up_occurrence_never_displaces_a_base_one() {
    let cal = FnCalendars::new(|id: CalendarId, d: Date| {
        Some(id == CalendarId::UsFederalHoliday && d == date(2026, 1, 5))
    });
    let mut s = schedule(Frequency::Daily { time: hm(9, 0) }, TimeZone::utc());
    s.overlays = vec![overlay(CalendarSpec::BuiltIn(CalendarId::UsFederalHoliday), OverlayRule::Exclude)];
    s.makeup = Makeup::After;
    let traces = s.generate_traces(date(2026, 1, 4), date(2026, 1, 7), &cal).unwrap();
    let instants: Vec<Instant> = traces.iter().map(|t| t.instant).collect();
    assert_eq!(
        instants,
        vec![utc("2026-01-04T09:00:00Z"), utc("2026-01-06T09:00:00Z"), utc("2026-01-07T09:00:00Z")]
    );
    assert_eq!(traces[1].reason, "base");
}

#[test]
fn cron_values_take_any_bounds() {
    assert_eq!(parse_cron_values("*", 5, 3), Vec::<u32>::new());
    assert_eq!(parse_cron_values("*/0", 2, 6), vec![2]);
    assert_eq!(
        parse_cron_values("4294967290-4294967295/2", 4294967290, u32::MAX),
        vec![4294967290, 4294967292, 4294967294]
    );
    assert_eq!(parse_cron_values("*", u32::MAX, u32::MAX), vec![u32::MAX]);
}

#[test]
fn window_laws_hold_in_new_york() {
    let ny = TimeZone::from_name("America/New_York").unwrap();
    let cal = FnCalendars::new(|_id: CalendarId, d: Date| Some(d == date(2026, 3, 9)));
    let mut s = schedule(
        Frequency::Weekly { days: vec![Weekday::Mon, Weekday::Thu], time: hm(2, 30) },
        ny,
    );
    s.overlays = vec![overlay(CalendarSpec::BuiltIn(CalendarId::NyseHoliday), OverlayRule::Exclude)];
    s.makeup = Makeup::After;
    s.end = Some(utc("2026-04-15T00:00:00Z"));
    let after = utc("2026-03-01T00:00:00Z");
    let series = s.until(s.end.unwrap(), after, &cal);
    assert_eq!(series.first().copied(), s.next(after, &cal));
    assert_eq!(s.upcoming(5, after, &cal), series[..5].to_vec());
    for x in &series {
        assert!(s.is_occurrence(*x, &cal));
    }
    let mid = utc("2026-03-20T00:00:00Z");
    let mut halves = s.until(mid, after, &cal);
    halves.extend(s.until(s.end.unwrap(), mid, &cal));
    assert_eq!(halves, series);
    let mut back = s.since(after, s.end.unwrap(), &cal);
    back.reverse();
    assert_eq!(back, series);
    assert_eq!(s.previous(s.end.unwrap(), &cal), series.last().copied());
}

#[test]
fn excluded_runs_reach_past_long_windows() {
    let excluded: Vec<Date> = (1..=40).map(|d| Date { days: date(2026, 1, 1).days + d - 1 }).collect();
    let mut s = schedule(Frequency::Daily { time: hm(9, 0) }, TimeZone::utc());
    s.overlays = vec![overlay(CalendarSpec::Dates { dates: excluded }, OverlayRule::Exclude)];
    s.makeup = Makeup::After;
    s.makeup_failure = MakeupFailure::KeepOriginal;
    s.skip_if_consecutive_excluded = Some(40);
    assert!(s.until(utc("2026-01-25T00:00:00Z"), utc("2026-01-20T00:00:00Z"), &NoCalendars).is_empty());
    assert_eq!(s.next(utc("2026-01-20T00:00:00Z"), &NoCalendars), Some(utc("2026-02-10T09:00:00Z")));
    assert_eq!(s.previous(utc("2026-02-05T00:00:00Z"), &NoCalendars), Some(utc("2025-12-31T09:00:00Z")));
    assert!(!s.is_occurrence(utc("2026-01-21T09:00:00Z"), &NoCalendars));
    s.skip_if_consecutive_excluded = Some(41);
    assert!(s.is_occurrence(utc("2026-01-21T09:00:00Z"), &NoCalendars));
    let never = {
        let mut n = schedule(Frequency::CustomCron { expr: "0 0 30 2 *".to_string() }, TimeZone::utc());
        n.skip_if_consecutive_excluded = Some(3);
        n
    };
    assert_eq!(never.next(utc("2026-01-01T00:00:00Z"), &NoCalendars), None);
}

#[test]
fn window_laws_hold_across_a_skipped_day() {
    // Pacific/Apia skipped 2011-12-30, moving from UTC-10 to UTC+14.
    let apia = TimeZone::from_name("Pacific/Apia").unwrap();
    let mut s = schedule(Frequency::Daily { time: hm(23, 30) }, apia);
    s.overlays = vec![overlay(CalendarSpec::Dates { dates: vec![date(2011, 12, 28)] }, OverlayRule::Exclude)];
    s.makeup = Makeup::After;
    let after = utc("2011-12-25T00:00:00Z");
    let before = utc("2012-01-06T00:00:00Z");
    let series = s.until(before, after, &NoCalendars);
    assert!(!series.is_empty());
    for w in series.windows(2) {
        assert!(w[0] < w[1]);
    }
    assert_eq!(s.next(after, &NoCalendars), series.first().copied());
    assert_eq!(s.upcoming(4, after, &NoCalendars), series[..4].to_vec());
    for x in &series {
        assert!(s.is_occurrence(*x, &NoCalendars));
    }
    for mid in ["2011-12-29T12:00:00Z", "2011-12-30T10:00:00Z", "2011-12-31T00:00:00Z"] {
        let m = utc(mid);
        if !s.is_occurrence(m, &NoCalendars) {
            let mut halves = s.until(m, after, &NoCalendars);
            halves.extend(s.until(before, m, &NoCalendars));
            assert_eq!(halves, series);
        }
    }
    let mut back = s.since(after, before, &NoCalendars);
    back.reverse();
    assert_eq!(back, series);
    assert_eq!(s.previous(before, &NoCalendars), series.last().copied());
}
