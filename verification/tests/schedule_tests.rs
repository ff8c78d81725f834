use dateme::calendar::{CalendarProvider, DefaultCalendars, FnCalendars, FnCustomCalendars, NoCalendars};
use dateme::civil::{Date, Time, Weekday};
use dateme::generate::QueryError;
use dateme::schedule::{
    CalendarId, CalendarSpec, Frequency, Makeup, MakeupDirection, MakeupFailure, MakeupStep,
    MakeupStepOptions, MonthDay, Nth, NthWeekday, Overlay, OverlayAny, OverlayCalendar, OverlayRule,
    Schedule, ScheduleError, WeekdayMakeup,
};
use dateme::zone::{Instant, TimeZone};

fn utc(s: &str) -> Instant {
    Instant::from_millis(chrono::DateTime::parse_from_rfc3339(s).unwrap().timestamp_millis())
}

fn hm(h: u32, m: u32) -> Time {
    Time::from_hm(h, m).unwrap()
}

fn date(y: i32, m: u32, d: u32) -> Date {
    Date::from_ymd(y, m, d).unwrap()
}

fn ny() -> TimeZone {
    TimeZone::from_name("America/New_York").unwrap()
}

fn day(value: u8) -> MonthDay {
    MonthDay::Day { value }
}

fn calendars<F: Fn(CalendarId, Date) -> Option<bool>>(f: F) -> FnCalendars<F> {
    FnCalendars::new(f)
}

/// A schedule with every optional field at its default.
fn schedule(freq: Frequency, timezone: TimeZone) -> Schedule {
    Schedule {
        freq,
        timezone,
        overlays: vec![],
        makeup: Makeup::Skip,
        max_makeup_hops: None,
        makeup_failure: MakeupFailure::Skip,
        makeup_only_on: None,
        makeup_within_week: false,
        makeup_exclude_weekends: false,
        makeup_before_next: false,
        skip_if_consecutive_excluded: None,
        max_skip_gap: None,
        start: None,
        end: None,
    }
}

fn exclude(id: CalendarId) -> Overlay {
    Overlay::Calendar(OverlayCalendar {
        calendar: CalendarSpec::BuiltIn(id),
        rule: OverlayRule::Exclude,
        makeup: None,
    })
}

#[test]
fn weekly_monday_nyse_exclude_after() {
    // Fake NYSE holiday: Mon 2026-01-19 (MLK Day).
    let cal = calendars(|id: CalendarId, d: Date| match id {
        CalendarId::NyseHoliday => Some(d == date(2026, 1, 19)),
        _ => Some(false),
    });
    let mut s = schedule(Frequency::Weekly { days: vec![Weekday::Mon], time: hm(17, 30) }, ny());
    s.overlays = vec![exclude(CalendarId::NyseHoliday)];
    s.makeup = Makeup::After;

    assert_eq!(s.next(utc("2026-01-12T00:00:00Z"), &cal), Some(utc("2026-01-12T22:30:00Z")));
    // The 01-19 Monday is a holiday, so makeup after moves it to Tue 2026-01-20 17:30 ET.
    assert_eq!(s.next(utc("2026-01-13T00:00:00Z"), &cal), Some(utc("2026-01-20T22:30:00Z")));
}

#[test]
fn makeup_hops_cap_drops_when_next_day_is_excluded() {
    let cal = calendars(|id: CalendarId, d: Date| match id {
        CalendarId::NyseHoliday => Some(d == date(2026, 1, 19) || d == date(2026, 1, 20)),
        _ => Some(false),
    });
    let mut s = schedule(Frequency::Weekly { days: vec![Weekday::Mon], time: hm(17, 30) }, ny());
    s.overlays = vec![exclude(CalendarId::NyseHoliday)];
    s.makeup = Makeup::After;

    assert_eq!(s.next(utc("2026-01-13T00:00:00Z"), &cal), Some(utc("2026-01-21T22:30:00Z")));

    s.max_makeup_hops = Some(1);
    assert_eq!(s.next(utc("2026-01-13T00:00:00Z"), &cal), Some(utc("2026-01-26T22:30:00Z")));

    s.max_makeup_hops = Some(0);
    assert_eq!(s.next(utc("2026-01-13T00:00:00Z"), &cal), Some(utc("2026-01-26T22:30:00Z")));
}

#[test]
fn makeup_failure_can_keep_original_excluded_date() {
    let cal = calendars(|id: CalendarId, d: Date| match id {
        CalendarId::NyseHoliday => Some(d == date(2026, 1, 19) || d == date(2026, 1, 20)),
        _ => Some(false),
    });
    let mut s = schedule(Frequency::Weekly { days: vec![Weekday::Mon], time: hm(17, 30) }, ny());
    s.overlays = vec![exclude(CalendarId::NyseHoliday)];
    s.makeup = Makeup::After;
    s.max_makeup_hops = Some(1);
    s.makeup_failure = MakeupFailure::KeepOriginal;

    assert_eq!(s.next(utc("2026-01-13T00:00:00Z"), &cal), Some(utc("2026-01-19T22:30:00Z")));

    s.makeup = Makeup::Skip;
    assert_eq!(s.next(utc("2026-01-13T00:00:00Z"), &cal), Some(utc("2026-01-26T22:30:00Z")));
}

#[test]
fn makeup_failure_can_return_query_error() {
    let cal = calendars(|id: CalendarId, d: Date| match id {
        CalendarId::NyseHoliday => Some(d == date(2026, 1, 19) || d == date(2026, 1, 20)),
        _ => Some(false),
    });
    let mut s = schedule(Frequency::Weekly { days: vec![Weekday::Mon], time: hm(17, 30) }, ny());
    s.overlays = vec![exclude(CalendarId::NyseHoliday)];
    s.makeup = Makeup::After;
    s.max_makeup_hops = Some(1);
    s.makeup_failure = MakeupFailure::Error;

    assert_eq!(
        s.try_next(utc("2026-01-13T00:00:00Z"), &cal),
        Err(QueryError::MakeupFailed { date: date(2026, 1, 19) })
    );
}

#[test]
fn consecutive_excluded_base_occurrences_skip_before_makeup() {
    let cal = calendars(|id: CalendarId, d: Date| match id {
        CalendarId::UsFederalHoliday => Some(d == date(2026, 1, 5) || d == date(2026, 1, 7)),
        _ => Some(false),
    });
    let mut s = schedule(
        Frequency::Weekly { days: vec![Weekday::Mon, Weekday::Wed], time: hm(9, 0) },
        TimeZone::utc(),
    );
    s.overlays = vec![exclude(CalendarId::UsFederalHoliday)];
    s.makeup = Makeup::After;

    assert_eq!(
        s.until(utc("2026-01-12T00:00:00Z"), utc("2026-01-04T00:00:00Z"), &cal),
        vec![utc("2026-01-06T09:00:00Z"), utc("2026-01-08T09:00:00Z")]
    );

    s.skip_if_consecutive_excluded = Some(2);
    assert_eq!(
        s.until(utc("2026-01-12T00:00:00Z"), utc("2026-01-04T00:00:00Z"), &cal),
        Vec::<Instant>::new()
    );
}

#[test]
fn consecutive_excluded_threshold_keeps_short_runs() {
    let cal = calendars(|id: CalendarId, d: Date| match id {
        CalendarId::UsFederalHoliday => Some(d == date(2026, 1, 5)),
        _ => Some(false),
    });
    let mut s = schedule(Frequency::Daily { time: hm(9, 0) }, TimeZone::utc());
    s.overlays = vec![exclude(CalendarId::UsFederalHoliday)];
    s.makeup = Makeup::After;
    s.skip_if_consecutive_excluded = Some(2);

    assert_eq!(s.next(utc("2026-01-04T10:00:00Z"), &cal), Some(utc("2026-01-06T09:00:00Z")));
}

#[test]
fn max_skip_gap_errors_when_query_window_has_large_gap() {
    let cal = calendars(|id: CalendarId, d: Date| match id {
        CalendarId::UsFederalHoliday => {
            Some(d == date(2026, 1, 5) || d == date(2026, 1, 6) || d == date(2026, 1, 7))
        }
        _ => Some(false),
    });
    let mut s = schedule(Frequency::Daily { time: hm(9, 0) }, TimeZone::utc());
    s.overlays = vec![exclude(CalendarId::UsFederalHoliday)];
    s.max_skip_gap = Some(2);

    assert_eq!(
        s.try_until(utc("2026-01-09T00:00:00Z"), utc("2026-01-04T00:00:00Z"), &cal),
        Err(QueryError::MaxSkipGapExceeded { max_days: 2 })
    );
}

#[test]
fn overlay_any_groups_pass_when_any_child_passes() {
    let cal = calendars(|id: CalendarId, d: Date| match id {
        CalendarId::UsFederalHoliday => Some(d == date(2026, 1, 5) || d == date(2026, 1, 6)),
        CalendarId::NyseHoliday => Some(d == date(2026, 1, 5)),
        _ => Some(false),
    });
    let mut s = schedule(Frequency::Daily { time: hm(9, 0) }, TimeZone::utc());
    s.overlays = vec![Overlay::Any(OverlayAny {
        any: vec![exclude(CalendarId::UsFederalHoliday), exclude(CalendarId::NyseHoliday)],
        makeup: None,
    })];

    assert_eq!(
        s.until(utc("2026-01-07T00:00:00Z"), utc("2026-01-04T00:00:00Z"), &cal),
        vec![utc("2026-01-04T09:00:00Z"), utc("2026-01-06T09:00:00Z")]
    );
}

#[test]
fn per_overlay_makeup_overrides_schedule_makeup() {
    let cal = calendars(|id: CalendarId, d: Date| match id {
        CalendarId::NyseHoliday => Some(d == date(2026, 1, 5)),
        _ => Some(false),
    });
    let mut s = schedule(Frequency::Weekly { days: vec![Weekday::Mon], time: hm(9, 0) }, TimeZone::utc());
    s.overlays = vec![Overlay::Calendar(OverlayCalendar {
        calendar: CalendarSpec::BuiltIn(CalendarId::NyseHoliday),
        rule: OverlayRule::Exclude,
        makeup: Some(Makeup::Before),
    })];
    s.makeup = Makeup::After;

    assert_eq!(s.next(utc("2026-01-01T00:00:00Z"), &cal), Some(utc("2026-01-04T09:00:00Z")));
}

#[test]
fn inline_date_set_calendar_excludes_dates() {
    let mut s = schedule(Frequency::Daily { time: hm(9, 0) }, TimeZone::utc());
    s.overlays = vec![Overlay::Calendar(OverlayCalendar {
        calendar: CalendarSpec::Dates { dates: vec![date(2026, 7, 3), date(2026, 7, 4)] },
        rule: OverlayRule::Exclude,
        makeup: None,
    })];

    assert_eq!(
        s.until(utc("2026-07-06T00:00:00Z"), utc("2026-07-02T00:00:00Z"), &NoCalendars),
        vec![utc("2026-07-02T09:00:00Z"), utc("2026-07-05T09:00:00Z")]
    );
}

#[test]
fn calendar_union_and_diff_combine_sets() {
    let cal = calendars(|id: CalendarId, d: Date| match id {
        CalendarId::UsFederalHoliday => Some(d == date(2026, 7, 3) || d == date(2026, 7, 6)),
        CalendarId::NyseHoliday => Some(d == date(2026, 7, 3)),
        _ => Some(false),
    });
    let mut s = schedule(Frequency::Daily { time: hm(9, 0) }, TimeZone::utc());
    s.overlays = vec![Overlay::Calendar(OverlayCalendar {
        calendar: CalendarSpec::Union {
            union: vec![
                CalendarSpec::BuiltIn(CalendarId::UsFederalHoliday),
                CalendarSpec::Dates { dates: vec![date(2026, 7, 7)] },
            ],
        },
        rule: OverlayRule::Exclude,
        makeup: None,
    })];

    assert_eq!(
        s.until(utc("2026-07-09T00:00:00Z"), utc("2026-07-02T00:00:00Z"), &cal),
        vec![
            utc("2026-07-02T09:00:00Z"),
            utc("2026-07-04T09:00:00Z"),
            utc("2026-07-05T09:00:00Z"),
            utc("2026-07-08T09:00:00Z"),
        ]
    );

    s.overlays = vec![Overlay::Calendar(OverlayCalendar {
        calendar: CalendarSpec::Diff {
            diff: vec![
                CalendarSpec::BuiltIn(CalendarId::UsFederalHoliday),
                CalendarSpec::BuiltIn(CalendarId::NyseHoliday),
            ],
        },
        rule: OverlayRule::Exclude,
        makeup: None,
    })];

    assert_eq!(
        s.until(utc("2026-07-09T00:00:00Z"), utc("2026-07-02T00:00:00Z"), &cal),
        vec![
            utc("2026-07-02T09:00:00Z"),
            utc("2026-07-03T09:00:00Z"),
            utc("2026-07-04T09:00:00Z"),
            utc("2026-07-05T09:00:00Z"),
            utc("2026-07-07T09:00:00Z"),
            utc("2026-07-08T09:00:00Z"),
        ]
    );
}

#[test]
fn custom_calendar_provider_resolves_named_calendar() {
    let provider = FnCustomCalendars::new(
        |_id: CalendarId, _d: Date| None,
        |name: &str, d: Date| Some(name == "shutdown" && d == date(2026, 8, 14)),
    );
    let mut s = schedule(Frequency::Daily { time: hm(9, 0) }, TimeZone::utc());
    s.overlays = vec![Overlay::Calendar(OverlayCalendar {
        calendar: CalendarSpec::Custom { custom: "shutdown".to_string() },
        rule: OverlayRule::Exclude,
        makeup: None,
    })];

    assert_eq!(
        s.until(utc("2026-08-16T00:00:00Z"), utc("2026-08-13T00:00:00Z"), &provider),
        vec![utc("2026-08-13T09:00:00Z"), utc("2026-08-15T09:00:00Z")]
    );
}

#[test]
fn every_n_days_and_weeks_generate_from_anchor() {
    let daily = schedule(
        Frequency::EveryNDays { interval: 2, start_date: date(2026, 1, 1), time: hm(9, 0) },
        TimeZone::utc(),
    );
    assert_eq!(
        daily.until(utc("2026-01-08T00:00:00Z"), utc("2026-01-01T00:00:00Z"), &NoCalendars),
        vec![
            utc("2026-01-01T09:00:00Z"),
            utc("2026-01-03T09:00:00Z"),
            utc("2026-01-05T09:00:00Z"),
            utc("2026-01-07T09:00:00Z"),
        ]
    );

    let weekly = schedule(
        Frequency::EveryNWeeks {
            interval: 2,
            start_date: date(2026, 1, 5),
            days: vec![Weekday::Mon, Weekday::Wed],
            time: hm(9, 0),
        },
        TimeZone::utc(),
    );
    assert_eq!(
        weekly.until(utc("2026-01-22T00:00:00Z"), utc("2026-01-01T00:00:00Z"), &NoCalendars),
        vec![
            utc("2026-01-05T09:00:00Z"),
            utc("2026-01-07T09:00:00Z"),
            utc("2026-01-19T09:00:00Z"),
            utc("2026-01-21T09:00:00Z"),
        ]
    );
}

#[test]
fn quarterly_and_cron_generate_occurrences() {
    let quarterly = schedule(
        Frequency::Quarterly { month: 1, day: day(15), time: hm(12, 0) },
        TimeZone::utc(),
    );
    assert_eq!(
        quarterly.until(utc("2026-08-01T00:00:00Z"), utc("2026-01-01T00:00:00Z"), &NoCalendars),
        vec![
            utc("2026-01-15T12:00:00Z"),
            utc("2026-04-15T12:00:00Z"),
            utc("2026-07-15T12:00:00Z"),
        ]
    );

    let cron = schedule(Frequency::CustomCron { expr: "30 9 * * 1,3".to_string() }, TimeZone::utc());
    assert_eq!(
        cron.until(utc("2026-01-08T00:00:00Z"), utc("2026-01-01T00:00:00Z"), &NoCalendars),
        vec![utc("2026-01-05T09:30:00Z"), utc("2026-01-07T09:30:00Z")]
    );
}

#[test]
fn introspection_checks_occurrence_count_and_description() {
    let s = schedule(Frequency::Weekly { days: vec![Weekday::Mon], time: hm(9, 0) }, TimeZone::utc());
    assert!(s.is_occurrence(utc("2026-01-05T09:00:00Z"), &NoCalendars));
    assert!(!s.is_occurrence(utc("2026-01-05T10:00:00Z"), &NoCalendars));
    assert_eq!(
        s.count_between(utc("2026-01-01T00:00:00Z"), utc("2026-01-20T00:00:00Z"), &NoCalendars),
        3
    );
    assert!(s.describe().contains("Every Monday at 09:00 UTC"));
}

#[test]
fn occurrence_traces_include_base_makeup_and_dst_reasons() {
    let cal = calendars(|id: CalendarId, d: Date| match id {
        CalendarId::NyseHoliday => Some(d == date(2026, 1, 5)),
        _ => Some(false),
    });
    let mut s = schedule(Frequency::Weekly { days: vec![Weekday::Mon], time: hm(9, 0) }, TimeZone::utc());
    s.overlays = vec![exclude(CalendarId::NyseHoliday)];
    s.makeup = Makeup::After;
    let traces = s
        .try_until_trace(utc("2026-01-13T00:00:00Z"), utc("2026-01-01T00:00:00Z"), &cal)
        .unwrap();
    assert_eq!(traces[0].instant, utc("2026-01-06T09:00:00Z"));
    assert_eq!(traces[0].reason, "makeup_from(2026-01-05)");
    assert_eq!(traces[1].reason, "base");

    let dst = schedule(Frequency::Daily { time: hm(2, 30) }, ny());
    let trace = dst
        .try_next_trace(utc("2026-03-08T00:00:00Z"), &NoCalendars)
        .unwrap()
        .unwrap();
    assert_eq!(trace.instant, utc("2026-03-08T07:00:00Z"));
    assert_eq!(trace.reason, "base,shifted_dst");
}

#[test]
fn makeup_can_vary_by_excluded_weekday() {
    let cal = calendars(|id: CalendarId, d: Date| match id {
        CalendarId::NyseHoliday => Some(d == date(2026, 1, 19) || d == date(2026, 1, 23)),
        _ => Some(false),
    });
    let mut s = schedule(
        Frequency::Weekly { days: vec![Weekday::Mon, Weekday::Fri], time: hm(17, 30) },
        ny(),
    );
    s.overlays = vec![exclude(CalendarId::NyseHoliday)];
    s.makeup = Makeup::ByWeekday(WeekdayMakeup {
        mon: Some(MakeupDirection::After),
        fri: Some(MakeupDirection::Before),
        default: Some(MakeupDirection::Skip),
        ..WeekdayMakeup::default()
    });

    assert_eq!(
        s.until(utc("2026-01-27T00:00:00Z"), utc("2026-01-18T00:00:00Z"), &cal),
        vec![
            utc("2026-01-20T22:30:00Z"),
            utc("2026-01-22T22:30:00Z"),
            utc("2026-01-26T22:30:00Z"),
        ]
    );
}

#[test]
fn nearest_makeup_prefers_after_then_nearest_survivor() {
    let cal_tie = calendars(|id: CalendarId, d: Date| match id {
        CalendarId::UsFederalHoliday => Some(d == date(2026, 1, 5)),
        _ => Some(false),
    });
    let mut s = schedule(Frequency::Daily { time: hm(9, 0) }, TimeZone::utc());
    s.overlays = vec![exclude(CalendarId::UsFederalHoliday)];
    s.makeup = Makeup::Nearest;

    assert_eq!(
        s.until(utc("2026-01-07T00:00:00Z"), utc("2026-01-03T10:00:00Z"), &cal_tie),
        vec![utc("2026-01-04T09:00:00Z"), utc("2026-01-06T09:00:00Z")]
    );

    let cal_after_blocked = calendars(|id: CalendarId, d: Date| match id {
        CalendarId::UsFederalHoliday => Some(d == date(2026, 1, 5) || d == date(2026, 1, 6)),
        _ => Some(false),
    });
    assert_eq!(
        s.until(utc("2026-01-07T00:00:00Z"), utc("2026-01-03T10:00:00Z"), &cal_after_blocked),
        vec![utc("2026-01-04T09:00:00Z")]
    );
}

#[test]
fn makeup_only_on_restricts_destination_weekdays() {
    let cal = calendars(|id: CalendarId, d: Date| match id {
        CalendarId::NyseHoliday => Some(d == date(2026, 1, 19)),
        _ => Some(false),
    });
    let mut s = schedule(Frequency::Weekly { days: vec![Weekday::Mon], time: hm(17, 30) }, ny());
    s.overlays = vec![exclude(CalendarId::NyseHoliday)];
    s.makeup = Makeup::After;
    s.makeup_only_on = Some(vec![Weekday::Wed]);

    assert_eq!(s.next(utc("2026-01-13T00:00:00Z"), &cal), Some(utc("2026-01-21T22:30:00Z")));
}

#[test]
fn makeup_can_be_bounded_by_adjacent_base_occurrences() {
    let cal = calendars(|id: CalendarId, d: Date| match id {
        CalendarId::NyseHoliday => Some(d.days >= date(2026, 1, 5).days && d.days <= date(2026, 1, 10).days),
        _ => Some(false),
    });
    let mut s = schedule(
        Frequency::Weekly { days: vec![Weekday::Mon, Weekday::Fri], time: hm(9, 0) },
        TimeZone::utc(),
    );
    s.overlays = vec![exclude(CalendarId::NyseHoliday)];
    s.makeup = Makeup::ByWeekday(WeekdayMakeup {
        mon: Some(MakeupDirection::After),
        fri: Some(MakeupDirection::Skip),
        ..WeekdayMakeup::default()
    });

    assert_eq!(
        s.until(utc("2026-01-12T00:00:00Z"), utc("2026-01-04T00:00:00Z"), &cal),
        vec![utc("2026-01-11T09:00:00Z")]
    );

    s.makeup_before_next = true;
    assert_eq!(
        s.until(utc("2026-01-12T00:00:00Z"), utc("2026-01-04T00:00:00Z"), &cal),
        Vec::<Instant>::new()
    );
}

#[test]
fn makeup_can_be_restricted_to_original_week() {
    let cal = calendars(|id: CalendarId, d: Date| match id {
        CalendarId::NyseHoliday => Some(d.days >= date(2026, 1, 2).days && d.days <= date(2026, 1, 4).days),
        _ => Some(false),
    });
    let mut s = schedule(Frequency::Weekly { days: vec![Weekday::Fri], time: hm(9, 0) }, TimeZone::utc());
    s.overlays = vec![exclude(CalendarId::NyseHoliday)];
    s.makeup = Makeup::After;

    assert_eq!(s.next(utc("2026-01-01T00:00:00Z"), &cal), Some(utc("2026-01-05T09:00:00Z")));

    s.makeup_within_week = true;
    assert_eq!(s.next(utc("2026-01-01T00:00:00Z"), &cal), Some(utc("2026-01-09T09:00:00Z")));
}

#[test]
fn makeup_can_exclude_weekends() {
    let cal = calendars(|id: CalendarId, d: Date| match id {
        CalendarId::NyseHoliday => Some(d == date(2026, 1, 2)),
        _ => Some(false),
    });
    let mut s = schedule(Frequency::Weekly { days: vec![Weekday::Fri], time: hm(9, 0) }, TimeZone::utc());
    s.overlays = vec![exclude(CalendarId::NyseHoliday)];
    s.makeup = Makeup::After;

    assert_eq!(s.next(utc("2026-01-01T00:00:00Z"), &cal), Some(utc("2026-01-03T09:00:00Z")));

    s.makeup_exclude_weekends = true;
    assert_eq!(s.next(utc("2026-01-01T00:00:00Z"), &cal), Some(utc("2026-01-05T09:00:00Z")));
}

#[test]
fn cascade_makeup_tries_fallback_steps() {
    let cal = calendars(|id: CalendarId, d: Date| match id {
        CalendarId::NyseHoliday => Some(d == date(2026, 1, 5) || d == date(2026, 1, 6)),
        _ => Some(false),
    });
    let mut s = schedule(Frequency::Weekly { days: vec![Weekday::Mon], time: hm(9, 0) }, TimeZone::utc());
    s.overlays = vec![exclude(CalendarId::NyseHoliday)];
    s.makeup = Makeup::Cascade(vec![
        MakeupStep::Options(MakeupStepOptions { direction: MakeupDirection::After, max_hops: Some(1) }),
        MakeupStep::Options(MakeupStepOptions { direction: MakeupDirection::Before, max_hops: Some(3) }),
        MakeupStep::Direction(MakeupDirection::Skip),
    ]);

    assert_eq!(s.next(utc("2026-01-01T00:00:00Z"), &cal), Some(utc("2026-01-04T09:00:00Z")));
}

#[test]
fn daily_exclude_before_dedup() {
    let cal = calendars(|_id: CalendarId, d: Date| Some(d == date(2026, 7, 3)));
    let mut s = schedule(Frequency::Daily { time: hm(9, 0) }, TimeZone::utc());
    s.overlays = vec![exclude(CalendarId::UsFederalHoliday)];
    s.makeup = Makeup::Before;
    // 07-03 makes up before to 07-02, but 07-02 is already scheduled, so it is dropped.
    let got = s.upcoming(5, utc("2026-07-01T00:00:00Z"), &cal);
    assert_eq!(
        got,
        vec![
            utc("2026-07-01T09:00:00Z"),
            utc("2026-07-02T09:00:00Z"),
            utc("2026-07-04T09:00:00Z"),
            utc("2026-07-05T09:00:00Z"),
            utc("2026-07-06T09:00:00Z"),
        ]
    );
}

#[test]
fn monthly_day_31_skips_short_months() {
    let s = schedule(Frequency::MonthlyByDay { days: vec![day(31)], time: hm(12, 0) }, TimeZone::utc());
    let got = s.upcoming(3, utc("2026-01-01T00:00:00Z"), &NoCalendars);
    assert_eq!(
        got,
        vec![
            utc("2026-01-31T12:00:00Z"),
            utc("2026-03-31T12:00:00Z"),
            utc("2026-05-31T12:00:00Z"),
        ]
    );
}

#[test]
fn monthly_fifth_friday() {
    let s = schedule(
        Frequency::MonthlyByWeekday {
            weekdays: vec![NthWeekday { nth: Nth::Fifth, weekday: Weekday::Fri }],
            time: hm(12, 0),
        },
        TimeZone::utc(),
    );
    // Jan 2026 has 5 Fridays; the 5th is Jan 30.
    assert_eq!(s.next(utc("2026-01-01T00:00:00Z"), &NoCalendars), Some(utc("2026-01-30T12:00:00Z")));
}

#[test]
fn last_business_day_before() {
    // Fake US business day = Mon..Fri.
    let cal = calendars(|id: CalendarId, d: Date| match id {
        CalendarId::UsBusinessDay => Some(!matches!(d.weekday(), Weekday::Sat | Weekday::Sun)),
        _ => Some(false),
    });
    let mut s = schedule(Frequency::MonthlyByDay { days: vec![MonthDay::Last], time: hm(16, 0) }, TimeZone::utc());
    s.overlays = vec![Overlay::Calendar(OverlayCalendar {
        calendar: CalendarSpec::BuiltIn(CalendarId::UsBusinessDay),
        rule: OverlayRule::Only,
        makeup: None,
    })];
    s.makeup = Makeup::Before;
    // 2026-05-31 is a Sunday, so makeup before moves it to Fri 2026-05-29.
    let got = s.until(utc("2026-06-01T00:00:00Z"), utc("2026-05-01T00:00:00Z"), &cal);
    assert_eq!(got, vec![utc("2026-05-29T16:00:00Z")]);
}

#[test]
fn dst_spring_forward() {
    let s = schedule(Frequency::Daily { time: hm(2, 30) }, ny());
    // 02:30 on 2026-03-08 is in the gap; the first valid instant is 03:00 ET = 07:00Z.
    assert_eq!(s.next(utc("2026-03-08T00:00:00Z"), &NoCalendars), Some(utc("2026-03-08T07:00:00Z")));
}

#[test]
fn dst_fall_back() {
    let s = schedule(Frequency::Daily { time: hm(1, 30) }, ny());
    // 01:30 occurs twice on 2026-11-01; the earliest instant is 05:30Z.
    assert_eq!(s.next(utc("2026-11-01T00:00:00Z"), &NoCalendars), Some(utc("2026-11-01T05:30:00Z")));
}

#[test]
fn dst_spring_forward_off_grid_minutes() {
    // Every local time in the 02:00-03:00 gap resolves to the gap edge (03:00 ET
    // = 07:00Z) regardless of its minute.
    for (h, m) in [(2, 0), (2, 20), (2, 30), (2, 59)] {
        let s = schedule(Frequency::Daily { time: hm(h, m) }, ny());
        assert_eq!(
            s.next(utc("2026-03-08T00:00:00Z"), &NoCalendars),
            Some(utc("2026-03-08T07:00:00Z")),
            "gap time {h:02}:{m:02} should resolve to 03:00 ET"
        );
    }
}

#[test]
fn dst_hourly_counts() {
    let s = schedule(Frequency::Hourly { minute: 30 }, ny());

    // Spring-forward day: the 02:30 slot is missing, so 23 occurrences.
    let spring = s.until(utc("2026-03-09T04:00:00Z"), utc("2026-03-08T05:00:00Z"), &NoCalendars);
    assert_eq!(spring.len(), 23);

    // Fall-back day: the repeated 01:30 appears once, so 24 occurrences.
    let fall = s.until(utc("2026-11-02T05:00:00Z"), utc("2026-11-01T04:00:00Z"), &NoCalendars);
    assert_eq!(fall.len(), 24);
    // The repeated hour is present exactly once, at its earliest instant (05:30Z).
    assert_eq!(fall.iter().filter(|t| **t == utc("2026-11-01T05:30:00Z")).count(), 1);
}

#[test]
fn dst_sub_hour_zone() {
    // Lord Howe Island springs forward 30 min (02:00 -> 02:30) on 2026-10-04.
    let tz: chrono_tz::Tz = "Australia/Lord_Howe".parse().unwrap();
    let s = schedule(Frequency::Daily { time: hm(2, 15) }, TimeZone::from_name("Australia/Lord_Howe").unwrap());
    // 02:15 is inside the 30-min gap, so it resolves to the edge 02:30 local.
    let got = s.next(utc("2026-10-03T00:00:00Z"), &NoCalendars);
    assert!(got.is_some());
    let local = chrono::DateTime::from_timestamp_millis(got.unwrap().millis()).unwrap().with_timezone(&tz);
    assert_eq!(local.format("%Y-%m-%d %H:%M").to_string(), "2026-10-04 02:30");
}

#[test]
fn end_bound() {
    let mut s = schedule(Frequency::Daily { time: hm(12, 0) }, TimeZone::utc());
    s.end = Some(utc("2026-01-03T00:00:00Z"));
    assert_eq!(s.next(utc("2026-01-02T13:00:00Z"), &NoCalendars), None);
}

#[test]
fn start_bound() {
    let mut s = schedule(Frequency::Daily { time: hm(12, 0) }, TimeZone::utc());
    s.start = Some(utc("2026-06-01T00:00:00Z"));
    assert_eq!(s.next(utc("2026-01-01T00:00:00Z"), &NoCalendars), Some(utc("2026-06-01T12:00:00Z")));
}

#[test]
fn weekly_multi_day() {
    let s = schedule(
        Frequency::Weekly { days: vec![Weekday::Mon, Weekday::Wed, Weekday::Fri], time: hm(17, 0) },
        TimeZone::utc(),
    );
    // after = Sun 2026-01-04.
    let got = s.upcoming(3, utc("2026-01-04T00:00:00Z"), &NoCalendars);
    assert_eq!(
        got,
        vec![
            utc("2026-01-05T17:00:00Z"),
            utc("2026-01-07T17:00:00Z"),
            utc("2026-01-09T17:00:00Z"),
        ]
    );
}

#[test]
fn invalid_yearly_month_does_not_panic() {
    // An unvalidated Yearly with month 13 produces no occurrence.
    let s = schedule(Frequency::Yearly { month: 13, day: MonthDay::Day { value: 1 }, time: hm(12, 0) }, TimeZone::utc());
    assert_eq!(s.next(utc("2026-01-01T00:00:00Z"), &NoCalendars), None);
    assert!(s.upcoming(3, utc("2026-01-01T00:00:00Z"), &NoCalendars).is_empty());
}

#[test]
fn previous_and_since_symmetry() {
    let s = schedule(Frequency::Daily { time: hm(12, 0) }, TimeZone::utc());
    let before = utc("2026-01-10T00:00:00Z");
    assert_eq!(s.previous(before, &NoCalendars), Some(utc("2026-01-09T12:00:00Z")));

    // since(after)[0] == previous(before); descending.
    let after = utc("2026-01-07T00:00:00Z");
    let got = s.since(after, before, &NoCalendars);
    assert_eq!(
        got,
        vec![
            utc("2026-01-09T12:00:00Z"),
            utc("2026-01-08T12:00:00Z"),
            utc("2026-01-07T12:00:00Z"),
        ]
    );
    assert_eq!(got.first().copied(), s.previous(before, &NoCalendars));
}

#[test]
fn until_first_equals_next() {
    let s = schedule(Frequency::Daily { time: hm(12, 0) }, TimeZone::utc());
    let after = utc("2026-01-01T00:00:00Z");
    let before = utc("2026-01-05T00:00:00Z");
    let series = s.until(before, after, &NoCalendars);
    assert_eq!(series.first().copied(), s.next(after, &NoCalendars));
    assert_eq!(series.len(), 4); // 01,02,03,04 at 12:00
}

#[test]
fn strictly_after_excludes_exact() {
    let s = schedule(Frequency::Daily { time: hm(12, 0) }, TimeZone::utc());
    // after exactly on an occurrence: that instant is excluded.
    assert_eq!(s.next(utc("2026-01-02T12:00:00Z"), &NoCalendars), Some(utc("2026-01-03T12:00:00Z")));
}

#[test]
fn overlay_removes_everything_terminates() {
    // Only(a calendar that is empty) with makeup off: nothing ever fires.
    let cal = calendars(|_id: CalendarId, _d: Date| Some(false));
    let mut s = schedule(Frequency::Daily { time: hm(12, 0) }, TimeZone::utc());
    s.overlays = vec![Overlay::Calendar(OverlayCalendar {
        calendar: CalendarSpec::BuiltIn(CalendarId::NyseTradingDay),
        rule: OverlayRule::Only,
        makeup: None,
    })];
    assert_eq!(s.next(utc("2026-01-01T00:00:00Z"), &cal), None);
    assert!(s.upcoming(10, utc("2026-01-01T00:00:00Z"), &cal).is_empty());
}

#[test]
fn validate_rejects_and_dedupes() {
    let mut bad_minute = schedule(Frequency::Hourly { minute: 60 }, TimeZone::utc());
    assert_eq!(bad_minute.validate(), Err(ScheduleError::InvalidMinute(60)));

    let mut dup_days = schedule(
        Frequency::Weekly { days: vec![Weekday::Mon, Weekday::Mon, Weekday::Wed], time: hm(9, 0) },
        TimeZone::utc(),
    );
    assert!(dup_days.validate().is_ok());
    if let Frequency::Weekly { days, .. } = &dup_days.freq {
        assert_eq!(days, &vec![Weekday::Mon, Weekday::Wed]);
    }

    let mut bad_bounds = schedule(Frequency::Daily { time: hm(9, 0) }, TimeZone::utc());
    bad_bounds.start = Some(utc("2026-02-01T00:00:00Z"));
    bad_bounds.end = Some(utc("2026-01-01T00:00:00Z"));
    assert_eq!(bad_bounds.validate(), Err(ScheduleError::StartNotBeforeEnd));

    let mut bad_skip_threshold = schedule(Frequency::Daily { time: hm(9, 0) }, TimeZone::utc());
    bad_skip_threshold.skip_if_consecutive_excluded = Some(0);
    assert_eq!(bad_skip_threshold.validate(), Err(ScheduleError::InvalidSkipThreshold(0)));
}

#[test]
fn default_calendars_coverage() {
    let cal = DefaultCalendars::new();
    let holds = |id, d| cal.contains(id, d).unwrap();

    // NYSE closes on Good Friday (2026-04-03), which is not a US federal holiday.
    assert!(holds(CalendarId::NyseHoliday, date(2026, 4, 3)));
    assert!(!holds(CalendarId::UsFederalHoliday, date(2026, 4, 3)));

    // Columbus Day (2026-10-12) is a federal holiday but NYSE stays open.
    assert!(holds(CalendarId::UsFederalHoliday, date(2026, 10, 12)));
    assert!(!holds(CalendarId::NyseHoliday, date(2026, 10, 12)));

    // Juneteenth first observed by NYSE in 2022 (2022-06-20, observed Monday).
    assert!(holds(CalendarId::NyseHoliday, date(2022, 6, 20)));

    // Shared holidays.
    assert!(holds(CalendarId::NyseHoliday, date(2026, 1, 1)));
    assert!(holds(CalendarId::UsFederalHoliday, date(2026, 1, 1)));

    // Trading/business-day predicates exclude weekends.
    assert!(!holds(CalendarId::NyseTradingDay, date(2026, 1, 3))); // Saturday
    assert!(holds(CalendarId::NyseTradingDay, date(2026, 1, 2))); // Friday, open
    assert!(!holds(CalendarId::UsBusinessDay, date(2026, 10, 12))); // Columbus Day
}
