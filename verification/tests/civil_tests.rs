use chrono::Datelike;
use dateme::calendar::{CalendarProvider, FnCalendars, FnCustomCalendars, NoCalendars};
use dateme::civil::{days_in_month, Date, Weekday};
use dateme::schedule::CalendarId;

#[test]
fn day_numbers_match_chrono() {
    let d = Date::from_ymd(2026, 1, 19).unwrap();
    let c = chrono::NaiveDate::from_ymd_opt(2026, 1, 19).unwrap();
    assert_eq!(d.days, c.num_days_from_ce());
    assert_eq!(d.ymd(), (2026, 1, 19));
    assert_eq!(d.weekday(), Weekday::Mon);
    assert_eq!(days_in_month(2024, 2), 29);
    let cal = FnCalendars::new(|_id: CalendarId, x: Date| Some(x == d));
    assert_eq!(cal.contains(CalendarId::NyseHoliday, d), Some(true));
    assert_eq!(NoCalendars.contains(CalendarId::NyseHoliday, d), None);
    let custom = FnCustomCalendars::new(|_id: CalendarId, _x: Date| None, |name: &str, _x: Date| Some(name == "shutdown"));
    assert_eq!(custom.contains_custom("shutdown", d), Some(true));
}

#[test]
fn conversions_agree_with_chrono_over_its_range() {
    let mut n: i64 = -95_746_129;
    while n <= 95_745_399 {
        let c = chrono::NaiveDate::from_num_days_from_ce_opt(n as i32).unwrap();
        let d = Date { days: n as i32 };
        assert_eq!(d.ymd(), (c.year(), c.month(), c.day()));
        assert_eq!(Date::from_ymd(c.year(), c.month(), c.day()), Some(d));
        n += 9_973;
    }
    for n in (-95_746_129..-95_745_000).chain(-800..800).chain(95_744_000..=95_745_399) {
        let c = chrono::NaiveDate::from_num_days_from_ce_opt(n).unwrap();
        assert_eq!(Date { days: n }.ymd(), (c.year(), c.month(), c.day()));
        assert_eq!(Date::from_ymd(c.year(), c.month(), c.day()), Some(Date { days: n }));
    }
    assert_eq!(Date::from_ymd(-262_143, 1, 1), Some(Date { days: -95_746_129 }));
    assert_eq!(Date::from_ymd(262_142, 12, 31), Some(Date { days: 95_745_399 }));
    assert_eq!(Date::from_ymd(-262_144, 12, 31), None);
    assert_eq!(Date::from_ymd(262_143, 1, 1), None);
    assert_eq!(Date::from_ymd(2023, 2, 29), None);
    assert_eq!(Date::from_ymd(2024, 2, 29).map(|d| d.ymd()), Some((2024, 2, 29)));
    assert_eq!(Date::from_ymd(1900, 2, 29), None);
    assert_eq!(Date::from_ymd(2000, 2, 29).map(|d| d.ymd()), Some((2000, 2, 29)));
    assert_eq!(Date::from_ymd(2026, 13, 1), None);
    assert_eq!(Date::from_ymd(2026, 4, 31), None);
    assert_eq!(Date::from_ymd(2026, 4, 0), None);
}
