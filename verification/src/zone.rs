//! Instants, IANA timezones, and the conversion between a local wall-clock
//! date-time and a UTC instant (with the DST rules of the schedule model).

use crate::civil::{Date, Time, EPOCH_DAYS, MAX_DAYS, MIN_DAYS};
use chrono::TimeZone as ChronoTimeZone;

use vstd::prelude::*;

verus! {

pub const MS_PER_DAY: i64 = 86_400_000;

pub const MS_PER_MINUTE: i64 = 60_000;

/// An instant on the UTC time line: milliseconds since 1970-01-01T00:00:00Z.
#[derive(Clone, Copy, PartialEq, Eq, Structural, Debug, Hash, PartialOrd, Ord)]
pub struct Instant {
    pub ms: i64,
}

/// The UTC day number (as a [`Date`] day number) of a millisecond timestamp.
pub open spec fn utc_day(ms: int) -> int {
    ms / (MS_PER_DAY as int) + EPOCH_DAYS
}

/// Milliseconds of a local wall clock reading taken as if it were UTC.
pub open spec fn naive_ms(day: int, hour: int, minute: int) -> int {
    (day - EPOCH_DAYS) * (MS_PER_DAY as int) + hour * (MS_PER_MINUTE as int) * 60 + minute * (
    MS_PER_MINUTE as int)
}

/// Instants whose UTC date chrono can represent with a day to spare at either
/// end, so that their local date in any zone is representable too.
pub open spec fn chrono_instant(ms: int) -> bool {
    (MIN_DAYS as int + 1 - EPOCH_DAYS) * (MS_PER_DAY as int) <= ms < (MAX_DAYS as int - EPOCH_DAYS)
        * (MS_PER_DAY as int)
}

/// Days kept free at either end of chrono's range for a query window: past
/// the 1000 days the engine keeps free (see `engine_day`), room for the
/// window's date margin, the day a UTC offset may add, and the fifteen days
/// the makeup bounds are looked up beyond the window. Bounds closer to the
/// ends of chrono's range are refused (a precondition).
pub const WINDOW_MARGIN_DAYS: i64 = 1_100;

/// Days kept free at either end of chrono's range for an open-ended search,
/// which may look up to fifty years (18300 days) past its reference instant
/// and then needs a query window's own margin: 18300 + 1100 days, rounded
/// up. Reference instants closer to the ends of chrono's range are refused
/// (a precondition); this takes under 55 years off each end of a range of
/// over half a million years.
pub const QUERY_MARGIN_DAYS: i64 = 20_000;

/// Bounds of a query window the engine accepts: chrono's range without
/// `WINDOW_MARGIN_DAYS` days at either end.
pub open spec fn window_instant(ms: int) -> bool {
    (MIN_DAYS as int + WINDOW_MARGIN_DAYS - EPOCH_DAYS) * (MS_PER_DAY as int) <= ms <= (MAX_DAYS as int
        - WINDOW_MARGIN_DAYS - EPOCH_DAYS) * (MS_PER_DAY as int)
}

/// Reference instants the open-ended searches accept: chrono's range without
/// `QUERY_MARGIN_DAYS` days at either end.
pub open spec fn query_instant(ms: int) -> bool {
    (MIN_DAYS as int + QUERY_MARGIN_DAYS - EPOCH_DAYS) * (MS_PER_DAY as int) <= ms <= (MAX_DAYS as int
        - QUERY_MARGIN_DAYS - EPOCH_DAYS) * (MS_PER_DAY as int)
}

impl Instant {
    pub fn from_millis(ms: i64) -> (r: Instant)
        ensures
            r.ms == ms,
    {
        Instant { ms }
    }

    pub fn millis(&self) -> (r: i64)
        ensures
            r == self.ms,
    {
        self.ms
    }
}

/// An IANA timezone, held by its name.
#[derive(Clone, Debug, PartialEq, Eq)]
pub struct TimeZone {
    name: String,
}

impl View for TimeZone {
    type V = Seq<char>;

    closed spec fn view(&self) -> Seq<char> {
        self.name@
    }
}

/// Whether chrono-tz knows the zone `name`.
pub uninterp spec fn zone_known(name: Seq<char>) -> bool;

/// How chrono-tz maps a local wall-clock reading in `zone` to UTC.
pub uninterp spec fn zone_resolution(zone: Seq<char>, day: int, hour: int, minute: int) -> LocalResolution;

/// Whether every instant of `r` is less than a day away from `n`.
pub open spec fn within_day(r: LocalResolution, n: int) -> bool {
    match r {
        LocalResolution::Single(x) => n - MS_PER_DAY < x.ms < n + MS_PER_DAY,
        LocalResolution::Ambiguous(x, y) => n - MS_PER_DAY < x.ms < n + MS_PER_DAY && n - MS_PER_DAY
            < y.ms < n + MS_PER_DAY,
        LocalResolution::Gap => true,
    }
}

/// How a local wall-clock reading maps to UTC in `zone`: in zone "UTC" the
/// reading is its own instant, otherwise as chrono-tz computes it. A chrono
/// offset is under a day, so every instant chrono-tz gives is within a day
/// of the reading taken as UTC ([`tz_resolve`] states this of each answer);
/// the model keeps that bound for every reading, an answer outside it
/// (which chrono-tz never gives) reading as a gap.
pub open spec fn resolution_spec(zone: Seq<char>, day: int, hour: int, minute: int) -> LocalResolution {
    if zone == "UTC"@ {
        LocalResolution::Single(Instant { ms: naive_ms(day, hour, minute) as i64 })
    } else if within_day(zone_resolution(zone, day, hour, minute), naive_ms(day, hour, minute)) {
        zone_resolution(zone, day, hour, minute)
    } else {
        LocalResolution::Gap
    }
}

/// The UTC date of an instant.
pub fn utc_date(at: Instant) -> (r: Date)
    requires
        chrono_instant(at.ms as int),
    ensures
        r.days == utc_day(at.ms as int),
{
    // Shift to a non-negative count by a whole number of days before dividing.
    let shift: i64 = 96_465_292;
    let n: u64 = (at.ms + shift * MS_PER_DAY) as u64;
    proof {
        assert(shift * MS_PER_DAY == 96_465_292 * 86_400_000);
        vstd::arithmetic::div_mod::lemma_hoist_over_denominator(at.ms as int, shift as int, MS_PER_DAY as nat);
        assert(at.ms as int / (MS_PER_DAY as int) + shift == n as int / (MS_PER_DAY as int));
        assert(n as int / (MS_PER_DAY as int) <= 192_210_691int) by {
            vstd::arithmetic::div_mod::lemma_div_is_ordered(
                n as int,
                (MS_PER_DAY as int) * 192_210_691int,
                MS_PER_DAY as int,
            );
            vstd::arithmetic::div_mod::lemma_div_multiples_vanish(192_210_691int, MS_PER_DAY as int);
        }
    }
    let q: u64 = n / (MS_PER_DAY as u64);
    Date { days: (q as i64 - shift + EPOCH_DAYS) as i32 }
}

/// The result of looking up a local wall-clock reading in a timezone.
#[derive(Clone, Copy, PartialEq, Eq, Structural, Debug)]
pub enum LocalResolution {
    /// The reading occurs exactly once.
    Single(Instant),
    /// The reading occurs twice (a fold): earliest, latest.
    Ambiguous(Instant, Instant),
    /// The reading never occurs (a gap).
    Gap,
}

/// Calls `chrono_tz::Tz::from_str` and, on success, `Tz::name`. Claims: the
/// lookup succeeds exactly for the zones chrono-tz knows (`zone_known`), and
/// the returned name is the one looked up (chrono-tz matches names exactly).
#[verifier::external_body]
fn tz_canonical_name(name: &str) -> (r: Option<String>)
    ensures
        r is Some <==> zone_known(name@),
        r matches Some(n) ==> n@ == name@,
{
    match name.parse::<chrono_tz::Tz>() {
        Ok(tz) => Some(tz.name().to_string()),
        Err(_) => None,
    }
}

/// Calls `chrono_tz::Tz::from_local_datetime` on the named zone. Claims: the
/// result is `zone_resolution` of the arguments; every instant it returns is
/// less than a day away from the reading taken as UTC (chrono offsets are
/// below one day); in zone "UTC" the reading maps to itself.
#[verifier::external_body]
fn tz_resolve(zone: &TimeZone, date: Date, hour: u32, minute: u32) -> (r: LocalResolution)
    requires
        date.in_range(),
        hour < 24,
        minute < 60,
    ensures
        zone@ != "UTC"@ ==> r == zone_resolution(zone@, date.days as int, hour as int, minute as int),
        r matches LocalResolution::Single(x) ==> naive_ms(date.days as int, hour as int, minute as int)
            - (MS_PER_DAY as int) < x.ms < naive_ms(date.days as int, hour as int, minute as int) + (
        MS_PER_DAY as int),
        r matches LocalResolution::Ambiguous(x, y) ==> naive_ms(
            date.days as int,
            hour as int,
            minute as int,
        ) - (MS_PER_DAY as int) < x.ms < naive_ms(date.days as int, hour as int, minute as int) + (
        MS_PER_DAY as int) && naive_ms(date.days as int, hour as int, minute as int) - (
        MS_PER_DAY as int) < y.ms < naive_ms(date.days as int, hour as int, minute as int) + (
        MS_PER_DAY as int),
        zone@ == "UTC"@ ==> r == LocalResolution::Single(
            Instant { ms: naive_ms(date.days as int, hour as int, minute as int) as i64 },
        ),
{
    let tz: chrono_tz::Tz = zone.name.parse().unwrap_or(chrono_tz::Tz::UTC);
    let day = chrono::NaiveDate::from_num_days_from_ce_opt(date.days).unwrap_or_default();
    let naive = day.and_hms_opt(hour, minute, 0).unwrap_or_default();
    match tz.from_local_datetime(&naive) {
        chrono::LocalResult::Single(x) => LocalResolution::Single(Instant { ms: x.timestamp_millis() }),
        chrono::LocalResult::Ambiguous(x, y) => LocalResolution::Ambiguous(
            Instant { ms: x.timestamp_millis() }, Instant { ms: y.timestamp_millis() }),
        chrono::LocalResult::None => LocalResolution::Gap,
    }
}

impl TimeZone {
    /// The zone named `name`, if chrono-tz knows it.
    pub fn from_name(name: &str) -> (r: Option<TimeZone>)
        ensures
            r is Some <==> zone_known(name@),
            r matches Some(z) ==> z@ == name@,
    {
        match tz_canonical_name(name) {
            Some(n) => Some(TimeZone { name: n }),
            None => None,
        }
    }

    /// The zone "UTC".
    pub fn utc() -> (r: TimeZone)
        ensures
            r@ == "UTC"@,
    {
        TimeZone { name: String::from_str("UTC") }
    }

    /// The IANA name of this zone.
    pub fn name(&self) -> (r: &str)
        ensures
            r@ == self@,
    {
        self.name.as_str()
    }

    /// How the local reading `date` at `hour:minute` maps to UTC.
    pub fn resolve(&self, date: Date, hour: u32, minute: u32) -> (r: LocalResolution)
        requires
            date.in_range(),
            hour < 24,
            minute < 60,
        ensures
            r == resolution_spec(self@, date.days as int, hour as int, minute as int),
    {
        tz_resolve(self, date, hour, minute)
    }
}

/// How to resolve a local wall-clock reading that does not exist (a DST gap).
#[derive(Clone, Copy, PartialEq, Eq, Structural, Debug)]
pub enum Nonexistent {
    /// Skip the occurrence (hourly: the missing hour is simply absent).
    Skip,
    /// Shift to the first valid instant at/after the gap.
    Shift,
}

/// An occurrence resolved to UTC, and whether a DST gap shifted it.
#[derive(Clone, Copy, PartialEq, Eq, Structural, Debug)]
pub struct ResolvedOccurrence {
    pub instant: Instant,
    pub shifted_dst: bool,
}

/// Minutes the DST shift scans forward before giving up (six hours).
pub const MAX_SHIFT_MINUTES: u32 = 360;

/// The local reading `m` minutes after midnight of day `day`, resolved in `zone`.
pub open spec fn resolution_at(zone: Seq<char>, day: int, m: int) -> LocalResolution {
    resolution_spec(zone, day + m / 1440, (m % 1440) / 60, m % 60)
}

/// First reading `k..=MAX_SHIFT_MINUTES` minutes after local minute `m0` of
/// `day` that exists in `zone`, resolved to its earliest instant.
pub open spec fn shift_search(zone: Seq<char>, day: int, m0: int, k: int) -> Option<
    ResolvedOccurrence,
>
    decreases MAX_SHIFT_MINUTES + 1 - k,
{
    if k > MAX_SHIFT_MINUTES || k < 1 {
        None
    } else {
        match resolution_at(zone, day, m0 + k) {
            LocalResolution::Single(x) => Some(ResolvedOccurrence { instant: x, shifted_dst: true }),
            LocalResolution::Ambiguous(x, _) => Some(
                ResolvedOccurrence { instant: x, shifted_dst: true },
            ),
            LocalResolution::Gap => shift_search(zone, day, m0, k + 1),
        }
    }
}

/// Resolve a local date and time in `zone` to a UTC instant: a fold takes the
/// earliest instant; a gap skips or shifts to the first valid minute after it
/// (within six hours).
pub open spec fn resolve_spec(zone: Seq<char>, date: Date, time: Time, mode: Nonexistent) -> Option<
    ResolvedOccurrence,
> {
    match resolution_spec(zone, date.days as int, time.hour as int, time.minute as int) {
        LocalResolution::Single(x) => Some(ResolvedOccurrence { instant: x, shifted_dst: false }),
        LocalResolution::Ambiguous(x, _) => Some(ResolvedOccurrence { instant: x, shifted_dst: false }),
        LocalResolution::Gap => match mode {
            Nonexistent::Skip => None,
            Nonexistent::Shift => shift_search(zone, date.days as int, time.minute_of_day(), 1),
        },
    }
}

/// Resolve a local date and time in `tz` to a UTC instant (see [`resolve_spec`]).
pub fn resolve_local_to_utc(tz: &TimeZone, date: Date, time: Time, mode: Nonexistent) -> (r: Option<
    ResolvedOccurrence,
>)
    requires
        MIN_DAYS <= date.days < MAX_DAYS,
        time.valid(),
    ensures
        r == resolve_spec(tz@, date, time, mode),
        r matches Some(o) ==> naive_ms(date.days as int, 0, 0) - (MS_PER_DAY as int) < o.instant.ms
            < naive_ms(date.days as int, 0, 0) + 4 * (MS_PER_DAY as int),
{
    match tz_resolve(tz, date, time.hour, time.minute) {
        LocalResolution::Single(x) => Some(ResolvedOccurrence { instant: x, shifted_dst: false }),
        LocalResolution::Ambiguous(x, _) => Some(
            ResolvedOccurrence { instant: x, shifted_dst: false },
        ),
        LocalResolution::Gap => match mode {
            Nonexistent::Skip => None,
            Nonexistent::Shift => {
                let m0: u32 = time.hour * 60 + time.minute;
                let mut k: u32 = 1;
                while k <= MAX_SHIFT_MINUTES
                    invariant
                        1 <= k <= MAX_SHIFT_MINUTES + 1,
                        m0 == time.minute_of_day(),
                        m0 < 1440,
                        MIN_DAYS <= date.days < MAX_DAYS,
                        mode == Nonexistent::Shift,
                        time.valid(),
                        resolution_spec(tz@, date.days as int, time.hour as int, time.minute as int)
                            == LocalResolution::Gap,
                        shift_search(tz@, date.days as int, m0 as int, 1) == shift_search(
                            tz@,
                            date.days as int,
                            m0 as int,
                            k as int,
                        ),
                    decreases MAX_SHIFT_MINUTES + 1 - k,
                {
                    let m: u32 = m0 + k;
                    let day = Date { days: date.days + (m / 1440) as i32 };
                    let mm: u32 = m % 1440;
                    let res = tz_resolve(tz, day, mm / 60, mm % 60);
                    proof {
                        assert(mm as int == 60 * (mm as int / 60) + mm as int % 60) by {
                            vstd::arithmetic::div_mod::lemma_fundamental_div_mod(mm as int, 60);
                        }
                        assert(m as int % 60 == mm as int % 60) by {
                            assert(m as int == 1440 * (m as int / 1440) + mm as int);
                            assert(1440 * (m as int / 1440) == 60 * (24 * (m as int / 1440)));
                            vstd::arithmetic::div_mod::lemma_mod_multiples_vanish(
                                24 * (m as int / 1440),
                                mm as int,
                                60,
                            );
                        }
                    }
                    assert(res == resolution_at(tz@, date.days as int, m0 + k));
                    match res {
                        LocalResolution::Single(x) => {
                            return Some(ResolvedOccurrence { instant: x, shifted_dst: true });
                        },
                        LocalResolution::Ambiguous(x, _) => {
                            return Some(ResolvedOccurrence { instant: x, shifted_dst: true });
                        },
                        LocalResolution::Gap => {},
                    }
                    k = k + 1;
                }
                None
            },
        },
    }
}

} // verus!
