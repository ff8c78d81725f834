//! Calendar abstraction. The engine is generic over date sets so it can be run
//! with hand-built calendars and decoupled from any concrete holiday source.

use crate::civil::{Date, Weekday};
use crate::schedule::CalendarId;
use chrono::Datelike;
use vstd::prelude::*;

verus! {

/// A set of dates. `contains(d)` = "`d` is in this calendar's set".
pub trait DateCalendar {
    fn contains(&self, date: Date) -> bool;
}

/// Resolves built-in calendar ids and custom calendar names to date sets. The
/// engine consults a provider only when a schedule has overlays. Answers are
/// a function of the arguments: `builtin_member` and `custom_member` say what
/// a provider answers.
pub trait CalendarProvider {
    /// What `contains` answers for `id` and `date`.
    spec fn builtin_member(&self, id: CalendarId, date: Date) -> Option<bool>;

    /// What `contains_custom` answers for `name` and `date`.
    spec fn custom_member(&self, name: Seq<char>, date: Date) -> Option<bool>;

    /// Whether `date` is in the set for `id`. `None` if this provider does not
    /// supply `id` (the date is then treated as not in the set).
    fn contains(&self, id: CalendarId, date: Date) -> (r: Option<bool>)
        ensures
            r == self.builtin_member(id, date),
    ;

    /// Whether `date` is in the custom calendar `name`. `None` if this provider
    /// does not know `name` (the date is then treated as not in the set).
    fn contains_custom(&self, name: &str, date: Date) -> (r: Option<bool>)
        ensures
            r == self.custom_member(name@, date),
    ;
}

/// A provider that supplies no calendars. Valid only for schedules without
/// provider-resolved overlays; with them every calendar test resolves to
/// "not in set".
pub struct NoCalendars;

impl CalendarProvider for NoCalendars {
    open spec fn builtin_member(&self, id: CalendarId, date: Date) -> Option<bool> {
        None
    }

    open spec fn custom_member(&self, name: Seq<char>, date: Date) -> Option<bool> {
        None
    }

    fn contains(&self, _id: CalendarId, _date: Date) -> (r: Option<bool>) {
        None
    }

    fn contains_custom(&self, _name: &str, _date: Date) -> (r: Option<bool>) {
        None
    }
}

#[verifier::external_type_specification]
#[verifier::external_body]
pub struct ExFinanceCalendar(finance_dates::Calendar);

#[verifier::external_type_specification]
#[verifier::external_body]
pub struct ExHolidayRule(finance_dates::HolidayRule);

/// Days outside the first and last year of chrono's range. finance-dates
/// computes the holidays of a date's whole year (stepping a day past its last
/// day) and rolls holidays into the year before or after, which panics in
/// those two years.
pub open spec fn holiday_day(d: int) -> bool {
    crate::civil::MIN_DAYS + 365 <= d <= crate::civil::MAX_DAYS - 365
}

/// A holiday rule, as plain values.
#[derive(Clone, Copy, PartialEq, Eq, Structural, Debug)]
pub enum HolidayRuleSpec {
    /// `month`/`day` every year (from `since_year` on, when given), observed
    /// on the nearest weekday when it falls on a weekend.
    Fixed { month: u32, day: u32, since_year: Option<i32> },
    /// The `n`-th `weekday` of `month`; a negative `n` counts from the end.
    NthWeekday { month: u32, weekday: Weekday, n: i32 },
}

/// The rule that a finance-dates holiday rule value stands for.
pub uninterp spec fn rule_spec_of(rule: finance_dates::HolidayRule) -> HolidayRuleSpec;

/// Whether finance-dates' calendar `cal` holds day `day` as a holiday.
pub uninterp spec fn holiday_in(cal: finance_dates::Calendar, day: int) -> bool;

/// Whether finance-dates' calendar `cal` holds day `day` as a business day.
pub uninterp spec fn business_day_in(cal: finance_dates::Calendar, day: int) -> bool;

/// Whether day `day` is an NYSE full-day closure in finance-dates' XNYS calendar.
pub uninterp spec fn nyse_holiday_on(day: int) -> bool;

/// Whether day `day` is an NYSE session day in finance-dates' XNYS calendar.
pub uninterp spec fn nyse_trading_day_on(day: int) -> bool;

/// Whether day `day` is a holiday of the Monday-to-Friday calendar named
/// `name` that finance-dates builds from `rules`.
pub uninterp spec fn rules_holiday_on(name: Seq<char>, rules: Seq<HolidayRuleSpec>, day: int) -> bool;

/// Whether day `day` is a business day of the Monday-to-Friday calendar named
/// `name` that finance-dates builds from `rules`.
pub uninterp spec fn rules_business_day_on(
    name: Seq<char>,
    rules: Seq<HolidayRuleSpec>,
    day: int,
) -> bool;

/// The 11 US federal holidays (observed): New Year's Day, Martin Luther King
/// Jr. Day, Washington's Birthday, Memorial Day, Juneteenth (since 2021),
/// Independence Day, Labor Day, Columbus Day, Veterans Day, Thanksgiving and
/// Christmas Day.
pub open spec fn federal_rules() -> Seq<HolidayRuleSpec> {
    seq![
        HolidayRuleSpec::Fixed { month: 1, day: 1, since_year: None },
        HolidayRuleSpec::NthWeekday { month: 1, weekday: Weekday::Mon, n: 3 },
        HolidayRuleSpec::NthWeekday { month: 2, weekday: Weekday::Mon, n: 3 },
        HolidayRuleSpec::NthWeekday { month: 5, weekday: Weekday::Mon, n: -1i32 },
        HolidayRuleSpec::Fixed { month: 6, day: 19, since_year: Some(2021) },
        HolidayRuleSpec::Fixed { month: 7, day: 4, since_year: None },
        HolidayRuleSpec::NthWeekday { month: 9, weekday: Weekday::Mon, n: 1 },
        HolidayRuleSpec::NthWeekday { month: 10, weekday: Weekday::Mon, n: 2 },
        HolidayRuleSpec::Fixed { month: 11, day: 11, since_year: None },
        HolidayRuleSpec::NthWeekday { month: 11, weekday: Weekday::Thu, n: 4 },
        HolidayRuleSpec::Fixed { month: 12, day: 25, since_year: None },
    ]
}

/// Whether day `day` is an observed US federal holiday: a holiday of the
/// calendar "US_FEDERAL" built from [`federal_rules`].
pub open spec fn us_federal_holiday_on(day: int) -> bool {
    rules_holiday_on("US_FEDERAL"@, federal_rules(), day)
}

/// Whether day `day` is a US business day: a business day of the calendar
/// "US_FEDERAL" built from [`federal_rules`].
pub open spec fn us_business_day_on(day: int) -> bool {
    rules_business_day_on("US_FEDERAL"@, federal_rules(), day)
}

/// [`CalendarProvider`] backed by the `finance-dates` crate: real US-federal
/// and NYSE holiday data. Construct once and reuse: building the calendars is
/// not free. Dates in the first and last year of chrono's range are not
/// supplied (see [`holiday_day`]).
pub struct DefaultCalendars {
    nyse: finance_dates::Calendar,
    us_federal: finance_dates::Calendar,
}

/// Calls `finance_dates::calendar_for_exchange("XNYS")`. Claims: finance-dates
/// models the XNYS venue (its family table lists it), so the result is
/// present, and its holidays and business days are the NYSE ones
/// (`nyse_holiday_on`, `nyse_trading_day_on`).
#[verifier::external_body]
fn xnys_calendar() -> (r: Option<finance_dates::Calendar>)
    ensures
        r is Some,
        r matches Some(c) ==> forall|d: int| #[trigger] holiday_in(c, d) == nyse_holiday_on(d),
        r matches Some(c) ==> forall|d: int| #[trigger] business_day_in(c, d) == nyse_trading_day_on(d),
{
    finance_dates::calendar_for_exchange("XNYS")
}

/// Builds `finance_dates::HolidayRule::Fixed` with the nearest-weekday roll
/// (Saturday to Friday, Sunday to Monday). Claims: the value stands for that
/// rule.
#[verifier::external_body]
fn fixed_rule(month: u32, day: u32, since_year: Option<i32>) -> (r: finance_dates::HolidayRule)
    ensures
        rule_spec_of(r) == (HolidayRuleSpec::Fixed { month, day, since_year }),
{
    finance_dates::HolidayRule::Fixed {
        month,
        day,
        roll: finance_dates::holiday::WeekendRoll::NearestWeekday,
        since_year,
        until_year: None,
    }
}

/// Builds `finance_dates::HolidayRule::NthWeekday` (`n` 1-based, negative from
/// the end). Claims: the value stands for that rule.
#[verifier::external_body]
fn nth_rule(month: u32, weekday: Weekday, n: i32) -> (r: finance_dates::HolidayRule)
    ensures
        rule_spec_of(r) == (HolidayRuleSpec::NthWeekday { month, weekday, n }),
{
    let weekday = match weekday {
        Weekday::Mon => chrono::Weekday::Mon,
        Weekday::Tue => chrono::Weekday::Tue,
        Weekday::Wed => chrono::Weekday::Wed,
        Weekday::Thu => chrono::Weekday::Thu,
        Weekday::Fri => chrono::Weekday::Fri,
        Weekday::Sat => chrono::Weekday::Sat,
        Weekday::Sun => chrono::Weekday::Sun,
    };
    finance_dates::HolidayRule::NthWeekday { month, weekday, n, since_year: None, until_year: None }
}

/// Calls `finance_dates::Calendar::new` with the Monday-to-Friday week mask
/// and no trading hours. Claims: its holidays and business days are those
/// that `rules_holiday_on` and `rules_business_day_on` name for `name` and the
/// rules.
#[verifier::external_body]
fn weekday_calendar(name: &str, rules: Vec<finance_dates::HolidayRule>) -> (r: finance_dates::Calendar)
    ensures
        forall|d: int|
            #[trigger] holiday_in(r, d) == rules_holiday_on(
                name@,
                rules@.map_values(|x: finance_dates::HolidayRule| rule_spec_of(x)),
                d,
            ),
        forall|d: int|
            #[trigger] business_day_in(r, d) == rules_business_day_on(
                name@,
                rules@.map_values(|x: finance_dates::HolidayRule| rule_spec_of(x)),
                d,
            ),
{
    finance_dates::Calendar::new(name, finance_dates::STANDARD_WEEKMASK, rules, None)
}

/// Calls `finance_dates::Calendar::is_holiday`. Claims: the answer is
/// `holiday_in` of the calendar and the day (a calendar's rules are fixed, and
/// its holiday cache does not change answers).
#[verifier::external_body]
fn calendar_is_holiday(cal: &finance_dates::Calendar, date: Date) -> (r: bool)
    requires
        holiday_day(date.days as int),
    ensures
        r == holiday_in(*cal, date.days as int),
{
    match chrono::NaiveDate::from_num_days_from_ce_opt(date.days) {
        Some(d) => cal.is_holiday(d),
        None => false,
    }
}

/// Calls `finance_dates::Calendar::is_business_day`. Claims: the answer is
/// `business_day_in` of the calendar and the day.
#[verifier::external_body]
fn calendar_is_business_day(cal: &finance_dates::Calendar, date: Date) -> (r: bool)
    requires
        holiday_day(date.days as int),
    ensures
        r == business_day_in(*cal, date.days as int),
{
    match chrono::NaiveDate::from_num_days_from_ce_opt(date.days) {
        Some(d) => cal.is_business_day(d),
        None => false,
    }
}

/// The US federal holiday rules, as finance-dates holiday rules.
fn us_federal_rules() -> (r: Vec<finance_dates::HolidayRule>)
    ensures
        r@.map_values(|x: finance_dates::HolidayRule| rule_spec_of(x)) == federal_rules(),
{
    let mut rules: Vec<finance_dates::HolidayRule> = Vec::new();
    rules.push(fixed_rule(1, 1, None));  // New Year's Day
    rules.push(nth_rule(1, Weekday::Mon, 3));  // Martin Luther King Jr. Day
    rules.push(nth_rule(2, Weekday::Mon, 3));  // Washington's Birthday
    rules.push(nth_rule(5, Weekday::Mon, -1));  // Memorial Day
    rules.push(fixed_rule(6, 19, Some(2021)));  // Juneteenth
    rules.push(fixed_rule(7, 4, None));  // Independence Day
    rules.push(nth_rule(9, Weekday::Mon, 1));  // Labor Day
    rules.push(nth_rule(10, Weekday::Mon, 2));  // Columbus Day
    rules.push(fixed_rule(11, 11, None));  // Veterans Day
    rules.push(nth_rule(11, Weekday::Thu, 4));  // Thanksgiving
    rules.push(fixed_rule(12, 25, None));  // Christmas Day
    assert(rules@.map_values(|x: finance_dates::HolidayRule| rule_spec_of(x)) =~= federal_rules());
    rules
}

impl DefaultCalendars {
    /// What this provider answers for `id` on day `day`: whether its US
    /// federal or NYSE calendar holds the day as a holiday or business day.
    pub closed spec fn answer(self, id: CalendarId, day: int) -> bool {
        match id {
            CalendarId::UsFederalHoliday => holiday_in(self.us_federal, day),
            CalendarId::UsBusinessDay => business_day_in(self.us_federal, day),
            CalendarId::NyseHoliday => holiday_in(self.nyse, day),
            CalendarId::NyseTradingDay => business_day_in(self.nyse, day),
        }
    }

    /// The provider with finance-dates' XNYS calendar for the NYSE and the
    /// Monday-to-Friday calendar "US_FEDERAL" built from [`federal_rules`].
    pub fn new() -> (r: Self)
        ensures
            forall|id: CalendarId, day: int| #[trigger] r.answer(id, day) == Self::member_spec(id, day),
    {
        let nyse = xnys_calendar().unwrap();
        let us_federal = weekday_calendar("US_FEDERAL", us_federal_rules());
        DefaultCalendars { nyse, us_federal }
    }

    /// Whether day `day` is in the built-in calendar `id`.
    pub open spec fn member_spec(id: CalendarId, day: int) -> bool {
        match id {
            CalendarId::UsFederalHoliday => us_federal_holiday_on(day),
            CalendarId::UsBusinessDay => us_business_day_on(day),
            CalendarId::NyseHoliday => nyse_holiday_on(day),
            CalendarId::NyseTradingDay => nyse_trading_day_on(day),
        }
    }
}

impl Default for DefaultCalendars {
    fn default() -> (r: Self)
        ensures
            forall|id: CalendarId, day: int| #[trigger] r.answer(id, day) == Self::member_spec(id, day),
    {
        Self::new()
    }
}

impl CalendarProvider for DefaultCalendars {
    open spec fn builtin_member(&self, id: CalendarId, date: Date) -> Option<bool> {
        if holiday_day(date.days as int) {
            Some(self.answer(id, date.days as int))
        } else {
            None
        }
    }

    open spec fn custom_member(&self, name: Seq<char>, date: Date) -> Option<bool> {
        None
    }

    fn contains(&self, id: CalendarId, date: Date) -> (r: Option<bool>) {
        if date.days < crate::civil::MIN_DAYS + 365 || date.days > crate::civil::MAX_DAYS - 365 {
            return None;
        }
        Some(
            match id {
                CalendarId::UsFederalHoliday => calendar_is_holiday(&self.us_federal, date),
                CalendarId::UsBusinessDay => calendar_is_business_day(&self.us_federal, date),
                CalendarId::NyseHoliday => calendar_is_holiday(&self.nyse, date),
                CalendarId::NyseTradingDay => calendar_is_business_day(&self.nyse, date),
            },
        )
    }

    fn contains_custom(&self, _name: &str, _date: Date) -> (r: Option<bool>) {
        None
    }
}

} // verus!

verus! {

/// Whether `f` may be called on every built-in query and answers each the
/// same way every time.
pub open spec fn builtin_fn_ok<F: Fn(CalendarId, Date) -> Option<bool>>(f: F) -> bool {
    &&& forall|id: CalendarId, d: Date| call_requires(f, (id, d))
    &&& forall|id: CalendarId, d: Date, r1: Option<bool>, r2: Option<bool>|
        call_ensures(f, (id, d), r1) && call_ensures(f, (id, d), r2) ==> r1 == r2
}

/// Whether `g` may be called on every custom query and answers each the same
/// way every time (names with equal text get equal answers).
pub open spec fn custom_fn_ok<G: Fn(&str, Date) -> Option<bool>>(g: G) -> bool {
    &&& forall|name: &str, d: Date| call_requires(g, (name, d))
    &&& forall|n1: &str, n2: &str, d: Date, r1: Option<bool>, r2: Option<bool>|
        n1@ == n2@ && call_ensures(g, (n1, d), r1) && call_ensures(g, (n2, d), r2) ==> r1 == r2
}

/// Whether `r` is an answer of `g` for some name with text `name`.
pub open spec fn custom_answer<G: Fn(&str, Date) -> Option<bool>>(
    g: G,
    name: Seq<char>,
    date: Date,
    r: Option<bool>,
) -> bool {
    exists|s: &str| #![trigger call_ensures(g, (s, date), r)] s@ == name && call_ensures(g, (s, date), r)
}

/// A provider backed by a closure over built-in ids; custom calendars are
/// unknown to it.
pub struct FnCalendars<F: Fn(CalendarId, Date) -> Option<bool>> {
    builtin: F,
}

impl<F: Fn(CalendarId, Date) -> Option<bool>> FnCalendars<F> {
    #[verifier::type_invariant]
    spec fn inv(self) -> bool {
        builtin_fn_ok(self.builtin)
    }

    /// A provider answering built-in queries with `builtin`, which must answer
    /// every query, always the same way.
    pub fn new(builtin: F) -> (r: Self)
        requires
            builtin_fn_ok(builtin),
        ensures
            r.builtin_fn() == builtin,
    {
        FnCalendars { builtin }
    }

    pub closed spec fn builtin_fn(self) -> F {
        self.builtin
    }
}

impl<F: Fn(CalendarId, Date) -> Option<bool>> CalendarProvider for FnCalendars<F> {
    closed spec fn builtin_member(&self, id: CalendarId, date: Date) -> Option<bool> {
        choose|r: Option<bool>| call_ensures(self.builtin, (id, date), r)
    }

    open spec fn custom_member(&self, name: Seq<char>, date: Date) -> Option<bool> {
        None
    }

    fn contains(&self, id: CalendarId, date: Date) -> (r: Option<bool>)
        ensures
            call_ensures(self.builtin_fn(), (id, date), r),
    {
        proof {
            use_type_invariant(self);
        }
        let r = (self.builtin)(id, date);
        r
    }

    fn contains_custom(&self, _name: &str, _date: Date) -> (r: Option<bool>) {
        None
    }
}

/// A provider backed by a closure over built-in ids and one over custom
/// calendar names.
pub struct FnCustomCalendars<
    F: Fn(CalendarId, Date) -> Option<bool>,
    G: Fn(&str, Date) -> Option<bool>,
> {
    builtin: F,
    custom: G,
}

impl<
    F: Fn(CalendarId, Date) -> Option<bool>,
    G: Fn(&str, Date) -> Option<bool>,
> FnCustomCalendars<F, G> {
    #[verifier::type_invariant]
    spec fn inv(self) -> bool {
        builtin_fn_ok(self.builtin) && custom_fn_ok(self.custom)
    }

    /// A provider answering built-in queries with `builtin` and custom ones
    /// with `custom`; both must answer every query, always the same way.
    pub fn new(builtin: F, custom: G) -> (r: Self)
        requires
            builtin_fn_ok(builtin),
            custom_fn_ok(custom),
        ensures
            r.builtin_fn() == builtin,
            r.custom_fn() == custom,
    {
        FnCustomCalendars { builtin, custom }
    }

    pub closed spec fn builtin_fn(self) -> F {
        self.builtin
    }

    pub closed spec fn custom_fn(self) -> G {
        self.custom
    }
}

impl<
    F: Fn(CalendarId, Date) -> Option<bool>,
    G: Fn(&str, Date) -> Option<bool>,
> CalendarProvider for FnCustomCalendars<F, G> {
    closed spec fn builtin_member(&self, id: CalendarId, date: Date) -> Option<bool> {
        choose|r: Option<bool>| call_ensures(self.builtin, (id, date), r)
    }

    closed spec fn custom_member(&self, name: Seq<char>, date: Date) -> Option<bool> {
        choose|r: Option<bool>| custom_answer(self.custom, name, date, r)
    }

    fn contains(&self, id: CalendarId, date: Date) -> (r: Option<bool>)
        ensures
            call_ensures(self.builtin_fn(), (id, date), r),
    {
        proof {
            use_type_invariant(self);
        }
        let r = (self.builtin)(id, date);
        r
    }

    fn contains_custom(&self, name: &str, date: Date) -> (r: Option<bool>)
        ensures
            call_ensures(self.custom_fn(), (name, date), r),
    {
        proof {
            use_type_invariant(self);
        }
        let r = (self.custom)(name, date);
        proof {
            assert(custom_answer(self.custom, name@, date, r));
        }
        r
    }
}

} // verus!
