//! Proleptic Gregorian calendar arithmetic: dates as day numbers, weekdays,
//! wall-clock times of day, and the month/weekday rules of the schedule model.
//!
//! A [`Date`] is the day number that chrono uses (`num_days_from_ce`: January
//! 1 of year 1 is day 1). Conversion between day numbers and (year, month,
//! day), weekdays and day counts are integer arithmetic on the day number,
//! proved against [`civil_days`].

use vstd::prelude::*;

verus! {

/// The first year chrono can represent.
pub const MIN_YEAR: i32 = -262143;

/// The last year chrono can represent.
pub const MAX_YEAR: i32 = 262142;

/// Day number of January 1 of `MIN_YEAR`.
pub const MIN_DAYS: i32 = -95746129;

/// Day number of December 31 of `MAX_YEAR`.
pub const MAX_DAYS: i32 = 95745399;

/// Day number of 1970-01-01, the Unix epoch.
pub const EPOCH_DAYS: i64 = 719163;

pub open spec fn is_leap(y: int) -> bool {
    y % 4 == 0 && (y % 100 != 0 || y % 400 == 0)
}

/// Number of days of month `m` (1..=12) in year `y`.
pub open spec fn month_length(y: int, m: int) -> int {
    if m == 2 {
        if is_leap(y) {
            29
        } else {
            28
        }
    } else if m == 4 || m == 6 || m == 9 || m == 11 {
        30
    } else {
        31
    }
}

pub open spec fn valid_ymd(y: int, m: int, d: int) -> bool {
    1 <= m <= 12 && 1 <= d <= month_length(y, m)
}

/// Days in the years before `y` (year 1 starts at zero).
pub open spec fn days_before_year(y: int) -> int {
    365 * (y - 1) + (y - 1) / 4 - (y - 1) / 100 + (y - 1) / 400
}

/// Days in the months of year `y` before month `m`.
pub open spec fn days_before_month(y: int, m: int) -> int {
    let leap: int = if is_leap(y) {
        1
    } else {
        0
    };
    if m <= 1 {
        0
    } else if m == 2 {
        31
    } else if m == 3 {
        59 + leap
    } else if m == 4 {
        90 + leap
    } else if m == 5 {
        120 + leap
    } else if m == 6 {
        151 + leap
    } else if m == 7 {
        181 + leap
    } else if m == 8 {
        212 + leap
    } else if m == 9 {
        243 + leap
    } else if m == 10 {
        273 + leap
    } else if m == 11 {
        304 + leap
    } else {
        334 + leap
    }
}

/// The day number of (y, m, d): January 1 of year 1 is day 1.
pub open spec fn civil_days(y: int, m: int, d: int) -> int {
    days_before_year(y) + days_before_month(y, m) + d
}

/// Monday = 0 .. Sunday = 6 for a day number (0001-01-01 was a Monday).
pub open spec fn weekday_index(days: int) -> int {
    (days + 6) % 7
}

/// (year, month, day) of a day number: the valid date in chrono's year range
/// whose day number it is (there is at most one, see
/// [`lemma_civil_days_injective`]).
pub open spec fn civil_from_days(days: int) -> (int, int, int) {
    choose|t: (int, int, int)|
        MIN_YEAR <= t.0 <= MAX_YEAR && valid_ymd(t.0, t.1, t.2) && civil_days(t.0, t.1, t.2) == days
}

/// Days before month `m + 1` are those before month `m` and month `m` itself.
pub proof fn lemma_days_before_next_month(y: int, m: int)
    requires
        1 <= m < 12,
    ensures
        days_before_month(y, m + 1) == days_before_month(y, m) + month_length(y, m),
{
}

/// Within a year, a later month starts after the earlier one ends.
pub proof fn lemma_days_before_month_ordered(y: int, m1: int, m2: int)
    requires
        1 <= m1 < m2 <= 12,
    ensures
        days_before_month(y, m1) + month_length(y, m1) <= days_before_month(y, m2),
    decreases m2 - m1,
{
    lemma_days_before_next_month(y, m1);
    if m1 + 1 < m2 {
        lemma_days_before_month_ordered(y, m1 + 1, m2);
        lemma_days_before_month_bounds(y, m1 + 1);
    }
}

/// Distinct valid dates have distinct day numbers.
pub proof fn lemma_civil_days_injective(y1: int, m1: int, d1: int, y2: int, m2: int, d2: int)
    requires
        valid_ymd(y1, m1, d1),
        valid_ymd(y2, m2, d2),
        civil_days(y1, m1, d1) == civil_days(y2, m2, d2),
    ensures
        y1 == y2 && m1 == m2 && d1 == d2,
{
    if y1 < y2 {
        lemma_days_before_month_bounds(y1, m1);
        lemma_days_before_year_step(y1);
        lemma_days_before_year_monotone(y1 + 1, y2);
    } else if y2 < y1 {
        lemma_days_before_month_bounds(y2, m2);
        lemma_days_before_year_step(y2);
        lemma_days_before_year_monotone(y2 + 1, y1);
    } else if m1 < m2 {
        lemma_days_before_month_ordered(y1, m1, m2);
    } else if m2 < m1 {
        lemma_days_before_month_ordered(y1, m2, m1);
    }
}

/// Whether `year` is a leap year (see [`is_leap`]).
fn leap_year(year: i32) -> (r: bool)
    requires
        MIN_YEAR <= year <= MAX_YEAR,
    ensures
        r == is_leap(year as int),
{
    // Take remainders of a non-negative shift of the year by a multiple of 400.
    let s: u64 = (year as i64 + 1_000_000) as u64;
    proof {
        assert(1_000_000int == 2500 * 400);
        vstd::arithmetic::div_mod::lemma_mod_multiples_vanish(2500, year as int, 400);
        assert(1_000_000int == 10000 * 100);
        vstd::arithmetic::div_mod::lemma_mod_multiples_vanish(10000, year as int, 100);
        assert(1_000_000int == 250000 * 4);
        vstd::arithmetic::div_mod::lemma_mod_multiples_vanish(250000, year as int, 4);
    }
    s % 4 == 0 && (s % 100 != 0 || s % 400 == 0)
}

/// The number of days of `month` in `year` (see [`month_length`]).
fn month_days(year: i32, month: u32) -> (r: u32)
    requires
        MIN_YEAR <= year <= MAX_YEAR,
        1 <= month <= 12,
    ensures
        r == month_length(year as int, month as int),
{
    if month == 2 {
        if leap_year(year) {
            29
        } else {
            28
        }
    } else if month == 4 || month == 6 || month == 9 || month == 11 {
        30
    } else {
        31
    }
}

/// The days of `year` before `month` (see [`days_before_month`]).
fn month_offset(year: i32, month: u32) -> (r: i64)
    requires
        MIN_YEAR <= year <= MAX_YEAR,
        1 <= month <= 12,
    ensures
        r == days_before_month(year as int, month as int),
{
    let leap: i64 = if leap_year(year) {
        1
    } else {
        0
    };
    if month == 1 {
        0
    } else if month == 2 {
        31
    } else if month == 3 {
        59 + leap
    } else if month == 4 {
        90 + leap
    } else if month == 5 {
        120 + leap
    } else if month == 6 {
        151 + leap
    } else if month == 7 {
        181 + leap
    } else if month == 8 {
        212 + leap
    } else if month == 9 {
        243 + leap
    } else if month == 10 {
        273 + leap
    } else if month == 11 {
        304 + leap
    } else {
        334 + leap
    }
}

/// The days in the years before `year` (see [`days_before_year`]).
fn year_offset(year: i32) -> (r: i64)
    requires
        MIN_YEAR <= year <= MAX_YEAR + 1,
    ensures
        r == days_before_year(year as int),
{
    // Divide a non-negative shift of `year - 1` by a multiple of 400 years.
    let a: i64 = year as i64 - 1 + 280000;
    proof {
        let y1 = year as int - 1;
        vstd::arithmetic::div_mod::lemma_hoist_over_denominator(y1, 70000, 4);
        vstd::arithmetic::div_mod::lemma_hoist_over_denominator(y1, 2800, 100);
        vstd::arithmetic::div_mod::lemma_hoist_over_denominator(y1, 700, 400);
        assert(a / 4 <= a && a / 100 <= a && a / 400 <= a) by {
            vstd::arithmetic::div_mod::lemma_div_is_ordered_by_denominator(a as int, 1, 4);
            vstd::arithmetic::div_mod::lemma_div_is_ordered_by_denominator(a as int, 1, 100);
            vstd::arithmetic::div_mod::lemma_div_is_ordered_by_denominator(a as int, 1, 400);
        }
    }
    365 * (year as i64 - 1) + (a / 4 - 70000) - (a / 100 - 2800) + (a / 400 - 700)
}

/// A day of the week.
#[derive(Clone, Copy, PartialEq, Eq, Structural, Debug, Hash)]
pub enum Weekday {
    Mon,
    Tue,
    Wed,
    Thu,
    Fri,
    Sat,
    Sun,
}

impl Weekday {
    /// Monday = 0 .. Sunday = 6.
    pub open spec fn index(self) -> int {
        match self {
            Weekday::Mon => 0,
            Weekday::Tue => 1,
            Weekday::Wed => 2,
            Weekday::Thu => 3,
            Weekday::Fri => 4,
            Weekday::Sat => 5,
            Weekday::Sun => 6,
        }
    }

    pub open spec fn from_index(i: int) -> Weekday {
        if i == 0 {
            Weekday::Mon
        } else if i == 1 {
            Weekday::Tue
        } else if i == 2 {
            Weekday::Wed
        } else if i == 3 {
            Weekday::Thu
        } else if i == 4 {
            Weekday::Fri
        } else if i == 5 {
            Weekday::Sat
        } else {
            Weekday::Sun
        }
    }

    pub fn num_days_from_monday(&self) -> (r: u32)
        ensures
            r == self.index(),
    {
        match self {
            Weekday::Mon => 0,
            Weekday::Tue => 1,
            Weekday::Wed => 2,
            Weekday::Thu => 3,
            Weekday::Fri => 4,
            Weekday::Sat => 5,
            Weekday::Sun => 6,
        }
    }

    /// Sunday = 0 .. Saturday = 6.
    pub fn num_days_from_sunday(&self) -> (r: u32)
        ensures
            r == (self.index() + 1) % 7,
    {
        match self {
            Weekday::Mon => 1,
            Weekday::Tue => 2,
            Weekday::Wed => 3,
            Weekday::Thu => 4,
            Weekday::Fri => 5,
            Weekday::Sat => 6,
            Weekday::Sun => 0,
        }
    }

    pub fn from_monday_index(i: u32) -> (r: Weekday)
        requires
            i < 7,
        ensures
            r.index() == i,
            r == Weekday::from_index(i as int),
    {
        if i == 0 {
            Weekday::Mon
        } else if i == 1 {
            Weekday::Tue
        } else if i == 2 {
            Weekday::Wed
        } else if i == 3 {
            Weekday::Thu
        } else if i == 4 {
            Weekday::Fri
        } else if i == 5 {
            Weekday::Sat
        } else {
            Weekday::Sun
        }
    }
}

/// A calendar date, as its day number.
#[derive(Clone, Copy, PartialEq, Eq, Structural, Debug, Hash, PartialOrd, Ord)]
pub struct Date {
    pub days: i32,
}

impl Date {
    /// Within chrono's range of dates.
    pub open spec fn in_range(self) -> bool {
        MIN_DAYS <= self.days <= MAX_DAYS
    }

    pub open spec fn weekday_spec(self) -> Weekday {
        Weekday::from_index(weekday_index(self.days as int))
    }

    /// The date (year, month, day), if it exists and chrono can represent it.
    pub fn from_ymd(year: i32, month: u32, day: u32) -> (r: Option<Date>)
        ensures
            r is Some <==> (MIN_YEAR <= year <= MAX_YEAR && valid_ymd(
                year as int,
                month as int,
                day as int,
            )),
            r matches Some(d) ==> d.days == civil_days(year as int, month as int, day as int)
                && d.in_range(),
    {
        if year < MIN_YEAR || year > MAX_YEAR || month < 1 || month > 12 || day < 1 || day > month_days(
            year,
            month,
        ) {
            return None;
        }
        proof {
            lemma_civil_days_bounds(year as int, month as int, day as int);
        }
        let n: i64 = year_offset(year) + month_offset(year, month) + day as i64;
        Some(Date { days: n as i32 })
    }

    /// (year, month, day) of this date.
    pub fn ymd(&self) -> (r: (i32, u32, u32))
        requires
            self.in_range(),
        ensures
            (r.0 as int, r.1 as int, r.2 as int) == civil_from_days(self.days as int),
            MIN_YEAR <= r.0 <= MAX_YEAR,
            valid_ymd(r.0 as int, r.1 as int, r.2 as int),
            civil_days(r.0 as int, r.1 as int, r.2 as int) == self.days,
    {
        let n: i64 = self.days as i64;
        proof {
            assert(days_before_year(MIN_YEAR as int) + 1 == MIN_DAYS);
            assert(days_before_year(MAX_YEAR as int + 1) == MAX_DAYS);
        }
        // Estimate the year from the mean length of a Gregorian year, then
        // correct the estimate.
        let shifted: u64 = (n - MIN_DAYS as i64) as u64;
        let est: u64 = shifted * 400 / 146097;
        let mut y: i32 = if est > 524285 {
            MAX_YEAR
        } else {
            (MIN_YEAR as i64 + est as i64) as i32
        };
        while year_offset(y) >= n
            invariant
                MIN_YEAR <= y <= MAX_YEAR,
                n == self.days,
                days_before_year(MIN_YEAR as int) < n,
            decreases y - MIN_YEAR,
        {
            y = y - 1;
        }
        while year_offset(y + 1) < n
            invariant
                MIN_YEAR <= y <= MAX_YEAR,
                n == self.days,
                days_before_year(y as int) < n,
                n <= days_before_year(MAX_YEAR as int + 1),
            decreases MAX_YEAR - y,
        {
            y = y + 1;
        }
        proof {
            lemma_days_before_year_step(y as int);
        }
        let rest: i64 = n - year_offset(y);
        let mut m: u32 = 1;
        while m < 12 && month_offset(y, m + 1) < rest
            invariant
                MIN_YEAR <= y <= MAX_YEAR,
                1 <= m <= 12,
                days_before_month(y as int, m as int) < rest,
            decreases 12 - m,
        {
            m = m + 1;
        }
        let d: i64 = rest - month_offset(y, m);
        proof {
            if m < 12 {
                lemma_days_before_next_month(y as int, m as int);
            }
        }
        let r = (y, m, d as u32);
        proof {
            let t = civil_from_days(self.days as int);
            let w = (r.0 as int, r.1 as int, r.2 as int);
            assert(MIN_YEAR <= w.0 <= MAX_YEAR && valid_ymd(w.0, w.1, w.2) && civil_days(w.0, w.1, w.2)
                == self.days);
            lemma_civil_days_injective(t.0, t.1, t.2, w.0, w.1, w.2);
        }
        r
    }

    pub fn weekday(&self) -> (r: Weekday)
        requires
            self.in_range(),
        ensures
            r == self.weekday_spec(),
            r.index() == weekday_index(self.days as int),
    {
        // Shift to a non-negative day count before taking the remainder.
        let shifted: u64 = (self.days as i64 - MIN_DAYS as i64) as u64;
        // MIN_DAYS + 6 == -13678018 * 7 + 3.
        let i: u64 = (shifted + 3) % 7;
        proof {
            assert((self.days as int + 6) % 7 == (shifted as int + 3) % 7) by {
                assert(self.days as int + 6 == (shifted as int + 3) + (-13678018) * 7);
                vstd::arithmetic::div_mod::lemma_mod_multiples_vanish(
                    -13678018,
                    shifted as int + 3,
                    7,
                );
            }
        }
        Weekday::from_monday_index(i as u32)
    }

    /// The date `k` days later (earlier for negative `k`), if in range.
    pub fn add_days(&self, k: i64) -> (r: Option<Date>)
        requires
            self.in_range(),
            -100_000_000 <= k <= 100_000_000,
        ensures
            r is Some <==> MIN_DAYS <= self.days + k <= MAX_DAYS,
            r matches Some(d) ==> d.days == self.days + k && d.in_range(),
    {
        let n: i64 = self.days as i64 + k;
        if n < MIN_DAYS as i64 || n > MAX_DAYS as i64 {
            None
        } else {
            Some(Date { days: n as i32 })
        }
    }
}

pub proof fn lemma_civil_days_bounds(y: int, m: int, d: int)
    requires
        MIN_YEAR <= y <= MAX_YEAR,
        valid_ymd(y, m, d),
    ensures
        MIN_DAYS <= civil_days(y, m, d) <= MAX_DAYS,
{
    assert(days_before_year(MIN_YEAR as int) + 1 == MIN_DAYS);
    assert(days_before_year(MAX_YEAR as int + 1) == MAX_DAYS);
    lemma_days_before_year_monotone(MIN_YEAR as int, y);
    lemma_days_before_year_monotone(y + 1, MAX_YEAR as int + 1);
    lemma_days_before_year_step(y);
    lemma_days_before_month_bounds(y, m);
}

pub proof fn lemma_days_before_year_step(y: int)
    ensures
        days_before_year(y + 1) == days_before_year(y) + if is_leap(y) {
            366int
        } else {
            365int
        },
{
    let a = y - 1;
    assert(y / 4 - a / 4 == if y % 4 == 0 {
        1int
    } else {
        0int
    }) by {
        vstd::arithmetic::div_mod::lemma_fundamental_div_mod(y, 4);
        vstd::arithmetic::div_mod::lemma_fundamental_div_mod(a, 4);
    }
    assert(y / 100 - a / 100 == if y % 100 == 0 {
        1int
    } else {
        0int
    }) by {
        vstd::arithmetic::div_mod::lemma_fundamental_div_mod(y, 100);
        vstd::arithmetic::div_mod::lemma_fundamental_div_mod(a, 100);
    }
    assert(y / 400 - a / 400 == if y % 400 == 0 {
        1int
    } else {
        0int
    }) by {
        vstd::arithmetic::div_mod::lemma_fundamental_div_mod(y, 400);
        vstd::arithmetic::div_mod::lemma_fundamental_div_mod(a, 400);
    }
    assert(y % 400 == 0 ==> y % 100 == 0 && y % 4 == 0) by {
        if y % 400 == 0 {
            vstd::arithmetic::div_mod::lemma_fundamental_div_mod(y, 400);
            assert(y == 400 * (y / 400));
            assert(y == 100 * (4 * (y / 400)));
            vstd::arithmetic::div_mod::lemma_mod_multiples_basic(4 * (y / 400), 100);
            assert(y == 4 * (100 * (y / 400)));
            vstd::arithmetic::div_mod::lemma_mod_multiples_basic(100 * (y / 400), 4);
        }
    }
    assert(y % 100 == 0 ==> y % 4 == 0) by {
        if y % 100 == 0 {
            vstd::arithmetic::div_mod::lemma_fundamental_div_mod(y, 100);
            assert(y == 4 * (25 * (y / 100)));
            vstd::arithmetic::div_mod::lemma_mod_multiples_basic(25 * (y / 100), 4);
        }
    }
}

pub proof fn lemma_days_before_year_monotone(a: int, b: int)
    requires
        a <= b,
    ensures
        days_before_year(a) <= days_before_year(b),
    decreases b - a,
{
    if a < b {
        lemma_days_before_year_step(a);
        lemma_days_before_year_monotone(a + 1, b);
    }
}

pub proof fn lemma_days_before_month_bounds(y: int, m: int)
    requires
        1 <= m <= 12,
    ensures
        0 <= days_before_month(y, m),
        days_before_month(y, m) + month_length(y, m) <= if is_leap(y) {
            366int
        } else {
            365int
        },
{
}

/// A wall-clock time of day with whole minutes.
#[derive(Clone, Copy, PartialEq, Eq, Structural, Debug, Hash)]
pub struct Time {
    pub hour: u32,
    pub minute: u32,
}

impl Time {
    pub open spec fn valid(self) -> bool {
        self.hour < 24 && self.minute < 60
    }

    pub open spec fn minute_of_day(self) -> int {
        self.hour * 60 + self.minute
    }

    /// The time `hour:minute`, if it exists.
    pub fn from_hm(hour: u32, minute: u32) -> (r: Option<Time>)
        ensures
            r is Some <==> hour < 24 && minute < 60,
            r matches Some(t) ==> t.hour == hour && t.minute == minute,
    {
        if hour < 24 && minute < 60 {
            Some(Time { hour, minute })
        } else {
            None
        }
    }
}

/// Number of days in `month` of `year`.
pub fn days_in_month(year: i32, month: u32) -> (r: u32)
    requires
        1 <= month <= 12,
        MIN_YEAR <= year <= MAX_YEAR,
        month == 12 ==> year < MAX_YEAR,
    ensures
        r == month_length(year as int, month as int),
{
    if month == 2 {
        let y: i64 = year as i64;
        // Take remainders of a non-negative shift of the year by a multiple of 400.
        let s: u64 = (y + 1_000_000) as u64;
        proof {
            assert(1_000_000int == 2500 * 400);
            vstd::arithmetic::div_mod::lemma_mod_multiples_vanish(2500, year as int, 400);
            assert(1_000_000int == 10000 * 100);
            vstd::arithmetic::div_mod::lemma_mod_multiples_vanish(10000, year as int, 100);
            assert(1_000_000int == 250000 * 4);
            vstd::arithmetic::div_mod::lemma_mod_multiples_vanish(250000, year as int, 4);
        }
        if s % 4 == 0 && (s % 100 != 0 || s % 400 == 0) {
            29
        } else {
            28
        }
    } else if month == 4 || month == 6 || month == 9 || month == 11 {
        30
    } else {
        31
    }
}

/// Days from `anchor` to `date` (negative when `date` is earlier).
pub fn days_since(anchor: Date, date: Date) -> (r: i64)
    ensures
        r == date.days - anchor.days,
{
    date.days as i64 - anchor.days as i64
}

/// The Monday on or before `date`.
pub fn week_start(date: Date) -> (r: Date)
    requires
        date.in_range(),
        date.days >= MIN_DAYS + 7,
    ensures
        r.days == date.days - weekday_index(date.days as int),
        r.in_range(),
        weekday_index(r.days as int) == 0,
{
    let w = date.weekday();
    let r = Date { days: date.days - w.num_days_from_monday() as i32 };
    proof {
        let k = weekday_index(date.days as int);
        assert((r.days as int + 6) % 7 == 0) by {
            assert(r.days as int + 6 == (date.days as int + 6) - k);
            vstd::arithmetic::div_mod::lemma_fundamental_div_mod(date.days as int + 6, 7);
            vstd::arithmetic::div_mod::lemma_mod_multiples_basic((date.days as int + 6) / 7, 7);
        }
    }
    r
}

} // verus!
