//! Occurrence generation over a window of local dates: base slots, threshold
//! skips of long excluded runs, overlays, makeup, timezone resolution and
//! de-duplication by UTC instant. Each slot of the window is judged as a
//! member of the whole base series: the excluded run it lies in and the base
//! dates adjacent to it are read past the window's ends, so a slot
//! contributes the same whichever window holds it.
//!
//! Traces are kept in a vector sorted by instant. [`insert_trace`] states
//! where a new trace goes and which of two traces at one instant stays, and
//! [`ascending`] that the result is strictly ordered, so order and
//! de-duplication are stated in the contracts themselves.

use crate::base::{
    base_seq, day_slots, engine_day, enumerate_base, frequency_wf, lemma_base_seq_ok, lemma_base_seq_slots,
    lemma_base_seq_split, slots_ok, Slot,
};
use crate::calendar::CalendarProvider;
use crate::civil::{Date, MAX_DAYS, MIN_DAYS};
use crate::makeup::{make_up_spec, MakeupOutcome};
use crate::overlay::{overlay_result_spec, survives_spec};
use crate::schedule::{Frequency, Makeup, MakeupFailure, Schedule};
use crate::text::{chars_to_string, date_text, push_date, push_str};
use crate::zone::{resolve_local_to_utc, resolve_spec, Instant, Nonexistent};
use vstd::prelude::*;

verus! {

/// An occurrence and why it fires: `base`, or `makeup_from(YYYY-MM-DD)` for a
/// moved one, followed by `,shifted_dst` when a DST gap shifted it.
#[derive(Clone, Debug, PartialEq, Eq)]
pub struct OccurrenceTrace {
    pub instant: Instant,
    pub reason: String,
}

impl View for OccurrenceTrace {
    type V = (Instant, Seq<char>);

    open spec fn view(&self) -> (Instant, Seq<char>) {
        (self.instant, self.reason@)
    }
}

/// The views of a sequence of traces.
pub open spec fn traces_view(v: Seq<OccurrenceTrace>) -> Seq<(Instant, Seq<char>)> {
    v.map_values(|t: OccurrenceTrace| t@)
}

/// Runtime query error.
#[derive(Clone, Copy, PartialEq, Eq, Structural, Debug)]
pub enum QueryError {
    /// Makeup found no destination for the occurrence excluded on `date` and
    /// the schedule's `makeup_failure` is `Error`.
    MakeupFailed { date: Date },
    /// The occurrence stream has a gap longer than `max_days` days.
    MaxSkipGapExceeded { max_days: u32 },
}

/// Whether base slot `i` is dropped by the overlays.
pub open spec fn excluded_at<C: CalendarProvider>(s: Schedule, cal: C, base: Seq<Slot>, i: int) -> bool {
    !survives_spec(s, base[i].date, cal)
}

/// The number of consecutive excluded slots ending at `i`.
pub open spec fn run_back<C: CalendarProvider>(s: Schedule, cal: C, base: Seq<Slot>, i: int) -> nat
    decreases i + 1,
{
    if i < 0 || i >= base.len() || !excluded_at(s, cal, base, i) {
        0
    } else {
        run_back(s, cal, base, i - 1) + 1
    }
}

/// The number of consecutive excluded slots starting at `i`.
pub open spec fn run_fwd<C: CalendarProvider>(s: Schedule, cal: C, base: Seq<Slot>, i: int) -> nat
    decreases base.len() - i,
{
    if i < 0 || i >= base.len() || !excluded_at(s, cal, base, i) {
        0
    } else {
        run_fwd(s, cal, base, i + 1) + 1
    }
}

/// Whether slot `i` is excluded and lies in a run of consecutive excluded
/// slots at least `skip_if_consecutive_excluded` long (such slots are dropped
/// before makeup).
pub open spec fn skipped_at<C: CalendarProvider>(s: Schedule, cal: C, base: Seq<Slot>, i: int) -> bool {
    match s.skip_if_consecutive_excluded {
        Some(t) => t > 0 && excluded_at(s, cal, base, i) && run_back(s, cal, base, i) + run_fwd(
            s,
            cal,
            base,
            i,
        ) - 1 >= t,
        None => false,
    }
}

/// Where slot `i` lands: its own date when it passes the overlays, else its
/// makeup destination (or the original date, nothing, or an error, when makeup
/// fails, per `makeup_failure`).
pub open spec fn dest_spec<C: CalendarProvider>(s: Schedule, cal: C, base: Seq<Slot>, i: int) -> Result<
    Option<Date>,
    QueryError,
> {
    let date = base[i].date;
    let o = overlay_result_spec(s.overlays@, 0, date, cal);
    if o.0 {
        Ok(Some(date))
    } else {
        let prev = if i > 0 {
            Some(base[i - 1].date)
        } else {
            None
        };
        let next = if i + 1 < base.len() {
            Some(base[i + 1].date)
        } else {
            None
        };
        let m = match o.1 {
            Some(m) => m,
            None => s.makeup,
        };
        match make_up_spec(s, cal, date, prev, next, m) {
            MakeupOutcome::Moved(d) => Ok(Some(d)),
            MakeupOutcome::Failed => match s.makeup_failure {
                MakeupFailure::Skip => Ok(None),
                MakeupFailure::KeepOriginal => Ok(Some(date)),
                MakeupFailure::Error => Err(QueryError::MakeupFailed { date }),
            },
            MakeupOutcome::Disabled => Ok(None),
        }
    }
}

/// How a frequency treats a local time in a DST gap: hourly schedules skip it,
/// the others shift past the gap.
pub open spec fn mode_spec(f: Frequency) -> Nonexistent {
    match f {
        Frequency::Hourly { .. } => Nonexistent::Skip,
        _ => Nonexistent::Shift,
    }
}

/// Why an occurrence fires.
pub open spec fn reason_spec(original: Date, dest: Date, shifted_dst: bool) -> Seq<char> {
    (if original == dest {
        "base"@
    } else {
        "makeup_from("@ + date_text(original) + ")"@
    }) + if shifted_dst {
        ",shifted_dst"@
    } else {
        Seq::<char>::empty()
    }
}

/// What slot `i` contributes: nothing, an occurrence with its reason, or an
/// error.
pub open spec fn entry_spec<C: CalendarProvider>(s: Schedule, cal: C, base: Seq<Slot>, i: int) -> Result<
    Option<(Instant, Seq<char>)>,
    QueryError,
> {
    if skipped_at(s, cal, base, i) {
        Ok(None)
    } else {
        match dest_spec(s, cal, base, i) {
            Err(e) => Err(e),
            Ok(None) => Ok(None),
            Ok(Some(d)) => match resolve_spec(s.timezone@, d, base[i].time, mode_spec(s.freq)) {
                None => Ok(None),
                Some(r) => Ok(Some((r.instant, reason_spec(base[i].date, d, r.shifted_dst)))),
            },
        }
    }
}

/// Whether a trace was made up: its reason names the date it was moved from
/// (see [`reason_spec`]).
pub open spec fn made_up(t: (Instant, Seq<char>)) -> bool {
    t.1.len() > 0 && t.1[0] == 'm'
}

/// Whether trace `t` takes the place of trace `e` at the same instant: a base
/// occurrence displaces a made-up one; otherwise the first one stays.
pub open spec fn displaces(t: (Instant, Seq<char>), e: (Instant, Seq<char>)) -> bool {
    made_up(e) && !made_up(t)
}

/// `acc` with `t` inserted before the first later instant. When an entry with
/// the same instant is already there, `t` takes its place only if it is a
/// base occurrence and that entry was made up; otherwise `t` is dropped.
pub open spec fn insert_trace(acc: Seq<(Instant, Seq<char>)>, t: (Instant, Seq<char>)) -> Seq<
    (Instant, Seq<char>),
>
    decreases acc.len(),
{
    if acc.len() == 0 {
        seq![t]
    } else if acc.last().0.ms < t.0.ms {
        acc.push(t)
    } else if acc.last().0.ms == t.0.ms {
        if displaces(t, acc.last()) {
            acc.drop_last().push(t)
        } else {
            acc
        }
    } else {
        insert_trace(acc.drop_last(), t).push(acc.last())
    }
}

/// The traces of slots `a..n`, ordered by instant, de-duplicated (see
/// [`insert_trace`]), or the first error.
pub open spec fn gen_range<C: CalendarProvider>(
    s: Schedule,
    cal: C,
    base: Seq<Slot>,
    a: int,
    n: int,
) -> Result<Seq<(Instant, Seq<char>)>, QueryError>
    decreases n - a,
{
    if n <= a {
        Ok(Seq::empty())
    } else {
        match gen_range(s, cal, base, a, n - 1) {
            Err(e) => Err(e),
            Ok(acc) => match entry_spec(s, cal, base, n - 1) {
                Err(e) => Err(e),
                Ok(None) => Ok(acc),
                Ok(Some(t)) => Ok(insert_trace(acc, t)),
            },
        }
    }
}

/// The first local day of the base series the engine enumerates.
pub open spec fn series_first_day() -> int {
    MIN_DAYS + 1000
}

/// The last local day of the base series the engine enumerates.
pub open spec fn series_last_day() -> int {
    MAX_DAYS - 1000
}

/// The whole base series: every base slot on a day the engine enumerates.
pub open spec fn full_series(f: Frequency) -> Seq<Slot> {
    base_seq(f, series_first_day(), series_last_day())
}

/// The position in the whole base series of the first slot on or after
/// local day `d`.
pub open spec fn series_index(f: Frequency, d: int) -> int {
    base_seq(f, series_first_day(), d - 1).len() as int
}

/// The traces of the base slots with local date in `[lo, hi]`. Each slot is
/// judged as a member of the whole base series: the excluded runs that
/// threshold skips count, and the adjacent base dates that bound makeup, run
/// on past the ends of `[lo, hi]`.
pub open spec fn generate_spec<C: CalendarProvider>(s: Schedule, cal: C, lo: int, hi: int) -> Result<
    Seq<(Instant, Seq<char>)>,
    QueryError,
> {
    gen_range(
        s,
        cal,
        full_series(s.freq),
        series_index(s.freq, lo),
        series_index(s.freq, hi + 1),
    )
}

/// The length of the excluded run of the whole base series that ends just
/// before local day `d`.
pub open spec fn run_before<C: CalendarProvider>(s: Schedule, cal: C, d: int) -> nat {
    let x = base_seq(s.freq, series_first_day(), d - 1);
    run_back(s, cal, x, x.len() - 1)
}

/// The length of the excluded run of the whole base series that starts just
/// after local day `d`.
pub open spec fn run_after<C: CalendarProvider>(s: Schedule, cal: C, d: int) -> nat {
    run_fwd(s, cal, base_seq(s.freq, d + 1, series_last_day()), 0)
}

/// The date of the last slot of `b`, if any.
pub open spec fn last_date(b: Seq<Slot>) -> Option<Date> {
    if b.len() > 0 {
        Some(b.last().date)
    } else {
        None
    }
}

/// The date of the first slot of `b`, if any.
pub open spec fn first_date(b: Seq<Slot>) -> Option<Date> {
    if b.len() > 0 {
        Some(b[0].date)
    } else {
        None
    }
}

/// Whether `p`, as the base date before an occurrence dropped on `date`,
/// cannot bound its makeup: absent, or more than fourteen days earlier.
pub open spec fn far_before(p: Option<Date>, date: Date) -> bool {
    match p {
        Some(q) => q.days < date.days - 14,
        None => true,
    }
}

/// Whether `n`, as the base date after an occurrence dropped on `date`,
/// cannot bound its makeup: absent, or more than fourteen days later.
pub open spec fn far_after(n: Option<Date>, date: Date) -> bool {
    match n {
        Some(m) => m.days > date.days + 14,
        None => true,
    }
}

/// Strictly ascending by instant.
pub open spec fn ascending(ts: Seq<(Instant, Seq<char>)>) -> bool {
    forall|i: int, j: int| 0 <= i < j < ts.len() ==> ts[i].0.ms < ts[j].0.ms
}

/// Inserting where a backward scan stops: after the last entry not later than
/// `t`, unless that entry has `t`'s instant.
pub proof fn lemma_insert_trace_at(acc: Seq<(Instant, Seq<char>)>, t: (Instant, Seq<char>), j: int)
    requires
        0 <= j <= acc.len(),
        forall|k: int| j <= k < acc.len() ==> acc[k].0.ms > t.0.ms,
        j == 0 || acc[j - 1].0.ms <= t.0.ms,
    ensures
        insert_trace(acc, t) == if j > 0 && acc[j - 1].0.ms == t.0.ms {
            if displaces(t, acc[j - 1]) {
                acc.update(j - 1, t)
            } else {
                acc
            }
        } else {
            acc.insert(j, t)
        },
    decreases acc.len(),
{
    if acc.len() == 0 {
        assert(acc.insert(0, t) =~= seq![t]);
    } else if j == acc.len() {
        if acc.last().0.ms < t.0.ms {
            assert(acc.insert(j, t) =~= acc.push(t));
        } else {
            assert(acc.drop_last().push(t) =~= acc.update(j - 1, t));
        }
    } else {
        let dl = acc.drop_last();
        lemma_insert_trace_at(dl, t, j);
        if j > 0 && acc[j - 1].0.ms == t.0.ms {
            assert(dl[j - 1] == acc[j - 1]);
            if displaces(t, acc[j - 1]) {
                assert(dl.update(j - 1, t).push(acc.last()) =~= acc.update(j - 1, t));
            } else {
                assert(dl.push(acc.last()) =~= acc);
            }
        } else {
            assert(dl.insert(j, t).push(acc.last()) =~= acc.insert(j, t));
        }
    }
}

/// Inserting below a bound keeps every instant below it.
pub proof fn lemma_insert_trace_bound(acc: Seq<(Instant, Seq<char>)>, t: (Instant, Seq<char>), b: int)
    requires
        forall|k: int| 0 <= k < acc.len() ==> #[trigger] acc[k].0.ms < b,
        t.0.ms < b,
    ensures
        forall|k: int| 0 <= k < insert_trace(acc, t).len() ==> #[trigger] insert_trace(acc, t)[k].0.ms < b,
    decreases acc.len(),
{
    if acc.len() > 0 && acc.last().0.ms > t.0.ms {
        let dl = acc.drop_last();
        lemma_insert_trace_bound(dl, t, b);
        let r = insert_trace(dl, t);
        assert forall|k: int| 0 <= k < r.push(acc.last()).len() implies #[trigger] r.push(
            acc.last(),
        )[k].0.ms < b by {
            if k < r.len() {
                assert(r.push(acc.last())[k] == r[k]);
            }
        }
    } else if acc.len() == 0 {
        assert(insert_trace(acc, t) =~= seq![t]);
    } else if acc.last().0.ms == t.0.ms && displaces(t, acc.last()) {
        let r = acc.drop_last().push(t);
        assert forall|k: int| 0 <= k < r.len() implies #[trigger] r[k].0.ms < b by {
            if k < r.len() - 1 {
                assert(r[k] == acc[k]);
            }
        }
        assert(insert_trace(acc, t) == r);
    } else if acc.last().0.ms < t.0.ms {
        let r = acc.push(t);
        assert forall|k: int| 0 <= k < r.len() implies #[trigger] r[k].0.ms < b by {
            if k < acc.len() {
                assert(r[k] == acc[k]);
            }
        }
        assert(insert_trace(acc, t) == r);
    } else {
        assert(insert_trace(acc, t) == acc);
    }
}

/// Insertion keeps a sequence strictly ascending.
pub proof fn lemma_insert_trace_ascending(acc: Seq<(Instant, Seq<char>)>, t: (Instant, Seq<char>))
    requires
        ascending(acc),
    ensures
        ascending(insert_trace(acc, t)),
    decreases acc.len(),
{
    if acc.len() > 0 && acc.last().0.ms > t.0.ms {
        let dl = acc.drop_last();
        lemma_insert_trace_ascending(dl, t);
        lemma_insert_trace_bound(dl, t, acc.last().0.ms as int);
        let r = insert_trace(dl, t);
        assert forall|i: int, j: int|
            0 <= i < j < r.push(acc.last()).len() implies r.push(acc.last())[i].0.ms < r.push(
            acc.last(),
        )[j].0.ms by {
            if j < r.len() {
                assert(r.push(acc.last())[j] == r[j]);
            }
            assert(r.push(acc.last())[i] == r[i]);
        }
    } else if acc.len() == 0 {
        assert(insert_trace(acc, t) =~= seq![t]);
    } else if acc.last().0.ms == t.0.ms && displaces(t, acc.last()) {
        let r = acc.drop_last().push(t);
        assert forall|i: int, j: int| 0 <= i < j < r.len() implies r[i].0.ms < r[j].0.ms by {
            assert(r[i] == acc[i]);
            if j < r.len() - 1 {
                assert(r[j] == acc[j]);
            }
        }
    }
}

/// A reason names a moved-from date exactly when the occurrence moved.
pub proof fn lemma_reason_made_up(i: Instant, original: Date, dest: Date, shifted_dst: bool)
    ensures
        made_up((i, reason_spec(original, dest, shifted_dst))) <==> original != dest,
{
    reveal_strlit("base");
    reveal_strlit("makeup_from(");
    let head = if original == dest {
        "base"@
    } else {
        "makeup_from("@ + date_text(original) + ")"@
    };
    assert(head.len() > 0);
    assert(reason_spec(original, dest, shifted_dst)[0] == head[0]);
    if original != dest {
        assert(head[0] == "makeup_from("@[0]);
    }
}

/// Why an occurrence fires (see [`reason_spec`]).
pub fn occurrence_reason(original: Date, dest: Date, shifted_dst: bool) -> (r: String)
    requires
        original.in_range(),
    ensures
        r@ == reason_spec(original, dest, shifted_dst),
{
    let mut v: Vec<char> = Vec::new();
    if original.days == dest.days {
        push_str(&mut v, "base");
    } else {
        push_str(&mut v, "makeup_from(");
        push_date(&mut v, original);
        push_str(&mut v, ")");
    }
    if shifted_dst {
        push_str(&mut v, ",shifted_dst");
    }
    assert(v@ =~= reason_spec(original, dest, shifted_dst));
    chars_to_string(&v)
}

impl Schedule {
    /// The length of the excluded run of the whole base series that ends just
    /// before local day `lo`, counted up to `t`.
    fn excluded_run_before<C: CalendarProvider>(&self, lo: Date, t: u32, cal: &C) -> (r: u64)
        requires
            engine_day(lo.days as int),
            frequency_wf(self.freq),
            t > 0,
        ensures
            r == if run_before(*self, *cal, lo.days as int) < t {
                run_before(*self, *cal, lo.days as int) as int
            } else {
                t as int
            },
    {
        let first: i64 = MIN_DAYS as i64 + 1000;
        let mut count: u64 = 0;
        let mut d: i64 = lo.days as i64 - 1;
        while d >= first
            invariant
                first == series_first_day(),
                first - 1 <= d < lo.days,
                engine_day(lo.days as int),
                frequency_wf(self.freq),
                count < t,
                run_before(*self, *cal, lo.days as int) == count + run_before(*self, *cal, d + 1),
            decreases d - first + 1,
        {
            let day = Date { days: d as i32 };
            let slots = enumerate_base(&self.freq, day, day);
            proof {
                lemma_one_day(self.freq, d as int);
                lemma_run_before_step(*self, *cal, d + 1);
            }
            let c = slots.len();
            if c > 0 {
                if self.survives(day, cal) {
                    return count;
                }
                if c as u64 >= t as u64 - count {
                    return t as u64;
                }
                count = count + c as u64;
            }
            d = d - 1;
        }
        proof {
            assert(base_seq(self.freq, series_first_day(), d as int) =~= Seq::<Slot>::empty());
        }
        count
    }

    /// The length of the excluded run of the whole base series that starts
    /// just after local day `hi`, counted up to `t`.
    fn excluded_run_after<C: CalendarProvider>(&self, hi: Date, t: u32, cal: &C) -> (r: u64)
        requires
            engine_day(hi.days as int),
            frequency_wf(self.freq),
            t > 0,
        ensures
            r == if run_after(*self, *cal, hi.days as int) < t {
                run_after(*self, *cal, hi.days as int) as int
            } else {
                t as int
            },
    {
        let last: i64 = MAX_DAYS as i64 - 1000;
        let mut count: u64 = 0;
        let mut d: i64 = hi.days as i64 + 1;
        while d <= last
            invariant
                last == series_last_day(),
                hi.days < d <= last + 1,
                engine_day(hi.days as int),
                frequency_wf(self.freq),
                count < t,
                run_after(*self, *cal, hi.days as int) == count + run_after(*self, *cal, d - 1),
            decreases last + 1 - d,
        {
            let day = Date { days: d as i32 };
            let slots = enumerate_base(&self.freq, day, day);
            proof {
                lemma_one_day(self.freq, d as int);
                lemma_run_after_step(*self, *cal, d - 1);
            }
            let c = slots.len();
            if c > 0 {
                if self.survives(day, cal) {
                    return count;
                }
                if c as u64 >= t as u64 - count {
                    return t as u64;
                }
                count = count + c as u64;
            }
            d = d + 1;
        }
        proof {
            assert(base_seq(self.freq, d as int, series_last_day()) =~= Seq::<Slot>::empty());
        }
        count
    }

    /// The date of the last base slot before local day `lo`, when it falls
    /// within fifteen days of it; otherwise `None`, as that slot cannot bound
    /// a makeup of a slot on or after `lo`.
    fn base_date_before(&self, lo: Date) -> (r: Option<Date>)
        requires
            engine_day(lo.days as int),
            frequency_wf(self.freq),
        ensures
            r == last_date(base_seq(self.freq, series_first_day(), lo.days - 1)) || (far_before(r, lo)
                && far_before(last_date(base_seq(self.freq, series_first_day(), lo.days - 1)), lo)),
    {
        let first: i64 = MIN_DAYS as i64 + 1000;
        let mut d: i64 = lo.days as i64 - 1;
        while d >= first && d >= lo.days as i64 - 15
            invariant
                first == series_first_day(),
                first - 1 <= d < lo.days,
                lo.days - 16 <= d,
                engine_day(lo.days as int),
                frequency_wf(self.freq),
                base_seq(self.freq, series_first_day(), lo.days - 1) == base_seq(
                    self.freq,
                    series_first_day(),
                    d as int,
                ),
            decreases d - first + 1,
        {
            let day = Date { days: d as i32 };
            let slots = enumerate_base(&self.freq, day, day);
            proof {
                lemma_one_day(self.freq, d as int);
                assert(base_seq(self.freq, series_first_day(), d as int) == base_seq(
                    self.freq,
                    series_first_day(),
                    d - 1,
                ) + day_slots(self.freq, d as int));
            }
            if slots.len() > 0 {
                proof {
                    let x = base_seq(self.freq, series_first_day(), d as int);
                    assert(x.last() == day_slots(self.freq, d as int).last());
                }
                return Some(day);
            }
            proof {
                assert(base_seq(self.freq, series_first_day(), d - 1) + day_slots(self.freq, d as int)
                    =~= base_seq(self.freq, series_first_day(), d - 1));
            }
            d = d - 1;
        }
        proof {
            let x = base_seq(self.freq, series_first_day(), d as int);
            if d < first {
                assert(x =~= Seq::<Slot>::empty());
            } else if x.len() > 0 {
                lemma_base_seq_slots(self.freq, series_first_day(), d as int);
                assert(x.last().date.days <= d);
            }
        }
        None
    }

    /// The date of the first base slot after local day `hi`, when it falls
    /// within fifteen days of it; otherwise `None`, as that slot cannot bound
    /// a makeup of a slot on or before `hi`.
    fn base_date_after(&self, hi: Date) -> (r: Option<Date>)
        requires
            engine_day(hi.days as int),
            frequency_wf(self.freq),
        ensures
            r == first_date(base_seq(self.freq, hi.days + 1, series_last_day())) || (far_after(r, hi)
                && far_after(first_date(base_seq(self.freq, hi.days + 1, series_last_day())), hi)),
    {
        let last: i64 = MAX_DAYS as i64 - 1000;
        let mut d: i64 = hi.days as i64 + 1;
        while d <= last && d <= hi.days as i64 + 15
            invariant
                last == series_last_day(),
                hi.days < d <= last + 1,
                d <= hi.days + 16,
                engine_day(hi.days as int),
                frequency_wf(self.freq),
                base_seq(self.freq, hi.days + 1, series_last_day()) == base_seq(
                    self.freq,
                    d as int,
                    series_last_day(),
                ),
            decreases last + 1 - d,
        {
            let day = Date { days: d as i32 };
            let slots = enumerate_base(&self.freq, day, day);
            proof {
                lemma_one_day(self.freq, d as int);
                lemma_base_seq_split(self.freq, d as int, d as int, series_last_day());
            }
            if slots.len() > 0 {
                return Some(day);
            }
            proof {
                assert(day_slots(self.freq, d as int) + base_seq(self.freq, d + 1, series_last_day())
                    =~= base_seq(self.freq, d + 1, series_last_day()));
            }
            d = d + 1;
        }
        proof {
            let z = base_seq(self.freq, d as int, series_last_day());
            if d > last {
                assert(z =~= Seq::<Slot>::empty());
            } else if z.len() > 0 {
                lemma_base_seq_slots(self.freq, d as int, series_last_day());
                assert(z[0].date.days >= d);
            }
        }
        None
    }

    /// For each base slot of the window `base` (local dates `[lo, hi]`),
    /// whether a threshold skip drops it, its excluded run counted over the
    /// whole base series.
    pub fn skipped_excluded_runs<C: CalendarProvider>(
        &self,
        base: &Vec<Slot>,
        lo: Date,
        hi: Date,
        cal: &C,
    ) -> (r: Vec<bool>)
        requires
            base@ == base_seq(self.freq, lo.days as int, hi.days as int),
            engine_day(lo.days as int),
            engine_day(hi.days as int),
            lo.days <= hi.days,
            frequency_wf(self.freq),
        ensures
            r@.len() == base@.len(),
            forall|i: int|
                0 <= i < base@.len() ==> r@[i] == skipped_at(
                    *self,
                    *cal,
                    full_series(self.freq),
                    series_index(self.freq, lo.days as int) + i,
                ),
    {
        let n = base.len();
        let ghost full = full_series(self.freq);
        let ghost off = series_index(self.freq, lo.days as int);
        proof {
            lemma_base_seq_ok(self.freq, lo.days as int, hi.days as int);
        }
        let threshold: u32 = match self.skip_if_consecutive_excluded {
            Some(t) => t,
            None => 0,
        };
        if threshold == 0 {
            let mut none: Vec<bool> = Vec::new();
            let mut i: usize = 0;
            while i < n
                invariant
                    i <= n,
                    n == base@.len(),
                    threshold == 0,
                    threshold == match self.skip_if_consecutive_excluded {
                        Some(t) => t,
                        None => 0,
                    },
                    none@.len() == i,
                    forall|k: int| 0 <= k < i ==> none@[k] == skipped_at(*self, *cal, full, off + k),
                decreases n - i,
            {
                none.push(false);
                i = i + 1;
            }
            return none;
        }
        // Which slots the overlays drop, and the length of the excluded run
        // ending at each slot within the window.
        let mut excl: Vec<bool> = Vec::new();
        let mut back: Vec<usize> = Vec::new();
        let mut i: usize = 0;
        while i < n
            invariant
                i <= n,
                n == base@.len(),
                slots_ok(base@),
                excl@.len() == i,
                back@.len() == i,
                forall|k: int| 0 <= k < i ==> excl@[k] == excluded_at(*self, *cal, base@, k),
                forall|k: int|
                    0 <= k < i ==> back@[k] == run_back(*self, *cal, base@, k) && back@[k] <= k + 1,
            decreases n - i,
        {
            let e = !self.survives(base[i].date, cal);
            excl.push(e);
            if e {
                let prev: usize = if i > 0 {
                    back[i - 1]
                } else {
                    0
                };
                back.push(prev + 1);
            } else {
                back.push(0);
            }
            proof {
                assert(excluded_at(*self, *cal, base@, i as int) == e);
                if i > 0 {
                    assert(back@[i - 1] == run_back(*self, *cal, base@, i - 1));
                } else {
                    assert(run_back(*self, *cal, base@, -1) == 0);
                }
                assert(back@[i as int] == run_back(*self, *cal, base@, i as int));
            }
            i = i + 1;
        }
        // The length of the excluded run starting at each slot within the
        // window, last slot first.
        let mut fwd_rev: Vec<usize> = Vec::new();
        let mut j: usize = 0;
        while j < n
            invariant
                j <= n,
                n == base@.len(),
                excl@.len() == n,
                forall|k: int| 0 <= k < n ==> excl@[k] == excluded_at(*self, *cal, base@, k),
                fwd_rev@.len() == j,
                forall|k: int|
                    0 <= k < j ==> fwd_rev@[k] == run_fwd(*self, *cal, base@, n - 1 - k)
                        && fwd_rev@[k] <= k + 1,
            decreases n - j,
        {
            let idx = n - 1 - j;
            if excl[idx] {
                let after: usize = if j > 0 {
                    fwd_rev[j - 1]
                } else {
                    0
                };
                fwd_rev.push(after + 1);
            } else {
                fwd_rev.push(0);
            }
            proof {
                assert(excl@[idx as int] == excluded_at(*self, *cal, base@, idx as int));
                if j > 0 {
                    assert(fwd_rev@[j - 1] == run_fwd(*self, *cal, base@, n - 1 - (j - 1)));
                    assert(n - 1 - (j - 1) == idx + 1);
                } else {
                    assert(run_fwd(*self, *cal, base@, n as int) == 0);
                }
                assert(fwd_rev@[j as int] == run_fwd(*self, *cal, base@, idx as int));
            }
            j = j + 1;
        }
        // The runs just outside the window, which continue those reaching
        // its ends.
        let left: u64 = if n > 0 && excl[0] {
            self.excluded_run_before(lo, threshold, cal)
        } else {
            0
        };
        let right: u64 = if n > 0 && excl[n - 1] {
            self.excluded_run_after(hi, threshold, cal)
        } else {
            0
        };
        let mut out: Vec<bool> = Vec::new();
        let mut i: usize = 0;
        while i < n
            invariant
                i <= n,
                n == base@.len(),
                base@ == base_seq(self.freq, lo.days as int, hi.days as int),
                engine_day(lo.days as int),
                engine_day(hi.days as int),
                lo.days <= hi.days,
                full == full_series(self.freq),
                off == series_index(self.freq, lo.days as int),
                threshold > 0,
                threshold == match self.skip_if_consecutive_excluded {
                    Some(t) => t,
                    None => 0,
                },
                n > 0 && excl@[0] ==> left == if run_before(*self, *cal, lo.days as int) < threshold {
                    run_before(*self, *cal, lo.days as int) as int
                } else {
                    threshold as int
                },
                n > 0 && excl@[n - 1] ==> right == if run_after(*self, *cal, hi.days as int) < threshold {
                    run_after(*self, *cal, hi.days as int) as int
                } else {
                    threshold as int
                },
                excl@.len() == n,
                back@.len() == n,
                fwd_rev@.len() == n,
                forall|k: int| 0 <= k < n ==> excl@[k] == excluded_at(*self, *cal, base@, k),
                forall|k: int|
                    0 <= k < n ==> back@[k] == run_back(*self, *cal, base@, k) && back@[k] <= k + 1,
                forall|k: int|
                    0 <= k < n ==> fwd_rev@[k] == run_fwd(*self, *cal, base@, n - 1 - k)
                        && fwd_rev@[k] <= k + 1,
                out@.len() == i,
                forall|k: int| 0 <= k < i ==> out@[k] == skipped_at(*self, *cal, full, off + k),
            decreases n - i,
        {
            let f = fwd_rev[n - 1 - i];
            let skip = if excl[i] {
                let b: u128 = back[i] as u128;
                let bf: u128 = if back[i] == i + 1 {
                    b + left as u128
                } else {
                    b
                };
                let fw: u128 = f as u128;
                let ff: u128 = if f == n - i {
                    fw + right as u128
                } else {
                    fw
                };
                bf + ff > threshold as u128
            } else {
                false
            };
            proof {
                lemma_window_runs(*self, *cal, lo.days as int, hi.days as int, i as int);
                assert(fwd_rev@[n - 1 - i] == run_fwd(*self, *cal, base@, i as int));
                assert(excluded_at(*self, *cal, full, off + i) == excl@[i as int]);
                if excl@[i as int] {
                    assert(back@[i as int] >= 1);
                    assert(f >= 1);
                }
                if back@[i as int] == i + 1 {
                    lemma_run_back_whole(*self, *cal, base@, i as int);
                }
                if f == n - i {
                    lemma_run_fwd_whole(*self, *cal, base@, i as int);
                }
            }
            out.push(skip);
            i = i + 1;
        }
        out
    }

    /// Where slot `i` of the window `base` (local dates `[lo, hi]`) lands,
    /// given the base dates just outside the window (see
    /// [`Schedule::base_date_before`] and [`Schedule::base_date_after`]).
    fn slot_destination<C: CalendarProvider>(
        &self,
        base: &Vec<Slot>,
        i: usize,
        before: Option<Date>,
        after: Option<Date>,
        lo: Date,
        hi: Date,
        cal: &C,
    ) -> (r: Result<Option<Date>, QueryError>)
        requires
            base@ == base_seq(self.freq, lo.days as int, hi.days as int),
            i < base@.len(),
            engine_day(lo.days as int),
            engine_day(hi.days as int),
            lo.days <= hi.days,
            frequency_wf(self.freq),
            before == last_date(base_seq(self.freq, series_first_day(), lo.days - 1)) || (far_before(
                before,
                lo,
            ) && far_before(last_date(base_seq(self.freq, series_first_day(), lo.days - 1)), lo)),
            after == first_date(base_seq(self.freq, hi.days + 1, series_last_day())) || (far_after(
                after,
                hi,
            ) && far_after(first_date(base_seq(self.freq, hi.days + 1, series_last_day())), hi)),
        ensures
            r == dest_spec(
                *self,
                *cal,
                full_series(self.freq),
                series_index(self.freq, lo.days as int) + i,
            ),
            r matches Ok(Some(d)) ==> base@[i as int].date.days - 14 <= d.days <= base@[i as int].date.days
                + 14,
    {
        proof {
            lemma_base_seq_ok(self.freq, lo.days as int, hi.days as int);
            lemma_base_seq_slots(self.freq, lo.days as int, hi.days as int);
            lemma_window_neighbours(self.freq, lo.days as int, hi.days as int, i as int);
            lemma_window_runs(*self, *cal, lo.days as int, hi.days as int, i as int);
        }
        let date = base[i].date;
        let (passes, override_makeup) = self.overlay_result(date, cal);
        if passes {
            return Ok(Some(date));
        }
        let previous_base = if i > 0 {
            Some(base[i - 1].date)
        } else {
            before
        };
        let next_base = if i < base.len() - 1 {
            Some(base[i + 1].date)
        } else {
            after
        };
        let outcome = self.make_up(date, previous_base, next_base, override_makeup, cal);
        proof {
            let makeup = match override_makeup {
                Some(m) => *m,
                None => self.makeup,
            };
            let full = full_series(self.freq);
            let k = series_index(self.freq, lo.days as int) + i;
            let p2 = if k > 0 {
                Some(full[k - 1].date)
            } else {
                None
            };
            let n2 = if k + 1 < full.len() {
                Some(full[k + 1].date)
            } else {
                None
            };
            lemma_make_up_far(*self, *cal, date, previous_base, next_base, p2, n2, makeup);
            lemma_make_up_distance(*self, *cal, date, previous_base, next_base, makeup);
        }
        match outcome {
            MakeupOutcome::Moved(d) => Ok(Some(d)),
            MakeupOutcome::Failed => match self.makeup_failure {
                MakeupFailure::Skip => Ok(None),
                MakeupFailure::KeepOriginal => Ok(Some(date)),
                MakeupFailure::Error => Err(QueryError::MakeupFailed { date }),
            },
            MakeupOutcome::Disabled => Ok(None),
        }
    }

    /// All surviving occurrence traces (overlays, makeup and de-duplication
    /// applied) whose base local date lies in `[lo, hi]`, ascending by
    /// instant. Threshold runs and makeup bounds are taken from the whole
    /// base series, past the ends of `[lo, hi]`.
    pub fn generate_traces<C: CalendarProvider>(&self, lo: Date, hi: Date, cal: &C) -> (r: Result<
        Vec<OccurrenceTrace>,
        QueryError,
    >)
        requires
            engine_day(lo.days as int),
            engine_day(hi.days as int),
            frequency_wf(self.freq),
        ensures
            match r {
                Ok(v) => generate_spec(*self, *cal, lo.days as int, hi.days as int) == Ok::<
                    Seq<(Instant, Seq<char>)>,
                    QueryError,
                >(traces_view(v@)),
                Err(e) => generate_spec(*self, *cal, lo.days as int, hi.days as int) == Err::<
                    Seq<(Instant, Seq<char>)>,
                    QueryError,
                >(e),
            },
            r matches Ok(v) ==> ascending(traces_view(v@)),
    {
        let mut traces: Vec<OccurrenceTrace> = Vec::new();
        assert(traces_view(traces@) =~= Seq::<(Instant, Seq<char>)>::empty());
        if lo.days > hi.days {
            proof {
                lemma_base_seq_split(self.freq, series_first_day(), hi.days as int, lo.days - 1);
            }
            return Ok(traces);
        }
        let mode = match self.freq {
            Frequency::Hourly { .. } => Nonexistent::Skip,
            _ => Nonexistent::Shift,
        };
        let base = enumerate_base(&self.freq, lo, hi);
        let ghost full = full_series(self.freq);
        let ghost off = series_index(self.freq, lo.days as int);
        proof {
            lemma_base_seq_ok(self.freq, lo.days as int, hi.days as int);
            lemma_series_window(self.freq, lo.days as int, hi.days as int);
            assert forall|k: int| 0 <= k < base@.len() implies full[off + k] == #[trigger] base@[k] by {
                lemma_window_runs(*self, *cal, lo.days as int, hi.days as int, k);
            }
        }
        let skipped = self.skipped_excluded_runs(&base, lo, hi, cal);
        let before = self.base_date_before(lo);
        let after = self.base_date_after(hi);
        let mut i: usize = 0;
        while i < base.len()
            invariant
                i <= base@.len(),
                base@ == base_seq(self.freq, lo.days as int, hi.days as int),
                engine_day(lo.days as int),
                engine_day(hi.days as int),
                lo.days <= hi.days,
                frequency_wf(self.freq),
                slots_ok(base@),
                full == full_series(self.freq),
                off == series_index(self.freq, lo.days as int),
                off + base@.len() == series_index(self.freq, hi.days + 1),
                forall|k: int| 0 <= k < base@.len() ==> full[off + k] == #[trigger] base@[k],
                mode == mode_spec(self.freq),
                skipped@.len() == base@.len(),
                forall|k: int| 0 <= k < base@.len() ==> skipped@[k] == skipped_at(*self, *cal, full, off + k),
                before == last_date(base_seq(self.freq, series_first_day(), lo.days - 1)) || (far_before(
                    before,
                    lo,
                ) && far_before(last_date(base_seq(self.freq, series_first_day(), lo.days - 1)), lo)),
                after == first_date(base_seq(self.freq, hi.days + 1, series_last_day())) || (far_after(
                    after,
                    hi,
                ) && far_after(first_date(base_seq(self.freq, hi.days + 1, series_last_day())), hi)),
                gen_range(*self, *cal, full, off, off + i) == Ok::<Seq<(Instant, Seq<char>)>, QueryError>(
                    traces_view(traces@),
                ),
                ascending(traces_view(traces@)),
            decreases base.len() - i,
        {
            assert(full[off + i] == base@[i as int]);
            if !skipped[i] {
                let slot = base[i];
                let dest = self.slot_destination(&base, i, before, after, lo, hi, cal);
                match dest {
                    Err(e) => {
                        proof {
                            lemma_gen_err_persists(*self, *cal, full, off, off + i + 1, off + base@.len());
                        }
                        return Err(e);
                    },
                    Ok(None) => {},
                    Ok(Some(d)) => {
                        match resolve_local_to_utc(&self.timezone, d, slot.time, mode) {
                            None => {},
                            Some(resolved) => {
                                let reason = occurrence_reason(slot.date, d, resolved.shifted_dst);
                                let t = OccurrenceTrace { instant: resolved.instant, reason };
                                self.insert_trace_into(&mut traces, t);
                            },
                        }
                    },
                }
            }
            i = i + 1;
        }
        Ok(traces)
    }

    /// Insert `t` by instant, unless its instant is already present.
    fn insert_trace_into(&self, traces: &mut Vec<OccurrenceTrace>, t: OccurrenceTrace)
        requires
            ascending(traces_view(old(traces)@)),
        ensures
            traces_view(final(traces)@) == insert_trace(traces_view(old(traces)@), t@),
            ascending(traces_view(final(traces)@)),
    {
        let ghost acc = traces_view(traces@);
        let mut j: usize = traces.len();
        while j > 0 && traces[j - 1].instant.ms > t.instant.ms
            invariant
                j <= traces@.len(),
                acc == traces_view(traces@),
                forall|k: int| j <= k < traces@.len() ==> acc[k].0.ms > t.instant.ms,
            decreases j,
        {
            j = j - 1;
        }
        proof {
            lemma_insert_trace_at(acc, t@, j as int);
            lemma_insert_trace_ascending(acc, t@);
        }
        if j > 0 && traces[j - 1].instant.ms == t.instant.ms {
            if trace_made_up(&traces[j - 1]) && !trace_made_up(&t) {
                traces.set(j - 1, t);
                assert(traces_view(traces@) =~= acc.update(j - 1, t@));
            }
            return;
        }
        traces.insert(j, t);
        assert(traces_view(traces@) =~= acc.insert(j as int, t@));
    }
}

/// Whether `t` was made up (see [`made_up`]).
fn trace_made_up(t: &OccurrenceTrace) -> (r: bool)
    ensures
        r == made_up(t@),
{
    let reason = t.reason.as_str();
    reason.unicode_len() > 0 && reason.get_char(0) == 'm'
}

/// Once generation fails, it fails the same way on every longer range.
pub proof fn lemma_gen_err_persists<C: CalendarProvider>(
    s: Schedule,
    cal: C,
    base: Seq<Slot>,
    a: int,
    i: int,
    n: int,
)
    requires
        i <= n,
        gen_range(s, cal, base, a, i) is Err,
    ensures
        gen_range(s, cal, base, a, n) == gen_range(s, cal, base, a, i),
    decreases n - i,
{
    if n > i {
        lemma_gen_err_persists(s, cal, base, a, i, n - 1);
    }
}

/// The slots up to `j` decide the excluded run ending at `j`, whatever
/// follows them.
pub proof fn lemma_run_back_prefix<C: CalendarProvider>(
    s: Schedule,
    cal: C,
    x: Seq<Slot>,
    y: Seq<Slot>,
    j: int,
)
    requires
        j < x.len(),
    ensures
        run_back(s, cal, x + y, j) == run_back(s, cal, x, j),
    decreases j + 1,
{
    if j >= 0 {
        assert((x + y)[j] == x[j]);
        lemma_run_back_prefix(s, cal, x, y, j - 1);
    }
}

/// The excluded run ending at slot `i` of `y` in `x + y`: the one in `y`,
/// continued by the run that ends `x` when it reaches back to the start of
/// `y`.
pub proof fn lemma_run_back_concat<C: CalendarProvider>(
    s: Schedule,
    cal: C,
    x: Seq<Slot>,
    y: Seq<Slot>,
    i: int,
)
    requires
        0 <= i < y.len(),
    ensures
        run_back(s, cal, x + y, x.len() + i) == if run_back(s, cal, y, i) == i + 1 {
            i + 1 + run_back(s, cal, x, x.len() - 1)
        } else {
            run_back(s, cal, y, i) as int
        },
    decreases i,
{
    assert((x + y)[x.len() + i] == y[i]);
    if i == 0 {
        lemma_run_back_prefix(s, cal, x, y, x.len() - 1);
        assert(run_back(s, cal, y, -1) == 0);
    } else {
        lemma_run_back_concat(s, cal, x, y, i - 1);
    }
}

/// The slots from `x.len() + j` on decide the excluded run starting there,
/// whatever precedes them.
pub proof fn lemma_run_fwd_suffix<C: CalendarProvider>(
    s: Schedule,
    cal: C,
    x: Seq<Slot>,
    y: Seq<Slot>,
    j: int,
)
    requires
        0 <= j,
    ensures
        run_fwd(s, cal, x + y, x.len() + j) == run_fwd(s, cal, y, j),
    decreases y.len() - j,
{
    if j < y.len() {
        assert((x + y)[x.len() + j] == y[j]);
        lemma_run_fwd_suffix(s, cal, x, y, j + 1);
    }
}

/// The excluded run starting at slot `i` of `x` in `x + y`: the one in `x`,
/// continued by the run that starts `y` when it reaches the end of `x`.
pub proof fn lemma_run_fwd_concat<C: CalendarProvider>(
    s: Schedule,
    cal: C,
    x: Seq<Slot>,
    y: Seq<Slot>,
    i: int,
)
    requires
        0 <= i < x.len(),
    ensures
        run_fwd(s, cal, x + y, i) == if run_fwd(s, cal, x, i) == x.len() - i {
            x.len() - i + run_fwd(s, cal, y, 0)
        } else {
            run_fwd(s, cal, x, i) as int
        },
    decreases x.len() - i,
{
    assert((x + y)[i] == x[i]);
    if i == x.len() - 1 {
        lemma_run_fwd_suffix(s, cal, x, y, 0);
        assert(run_fwd(s, cal, x, x.len() as int) == 0);
    } else {
        lemma_run_fwd_concat(s, cal, x, y, i + 1);
    }
}

/// An excluded run ending at `i` that reaches back to the start begins
/// with an excluded first slot.
proof fn lemma_run_back_whole<C: CalendarProvider>(s: Schedule, cal: C, b: Seq<Slot>, i: int)
    requires
        0 <= i < b.len(),
        run_back(s, cal, b, i) == i + 1,
    ensures
        excluded_at(s, cal, b, 0),
    decreases i,
{
    if i > 0 {
        lemma_run_back_whole(s, cal, b, i - 1);
    }
}

/// An excluded run starting at `i` that reaches the end ends with an
/// excluded last slot.
proof fn lemma_run_fwd_whole<C: CalendarProvider>(s: Schedule, cal: C, b: Seq<Slot>, i: int)
    requires
        0 <= i < b.len(),
        run_fwd(s, cal, b, i) == b.len() - i,
    ensures
        excluded_at(s, cal, b, b.len() - 1),
    decreases b.len() - i,
{
    if i + 1 < b.len() {
        lemma_run_fwd_whole(s, cal, b, i + 1);
    }
}

/// Among slots on one date, the excluded run ending at `j` is all of
/// `0..=j` when that date is excluded, and empty otherwise.
proof fn lemma_run_back_day<C: CalendarProvider>(s: Schedule, cal: C, y: Seq<Slot>, dt: Date, j: int)
    requires
        forall|k: int| 0 <= k < y.len() ==> (#[trigger] y[k]).date == dt,
        -1 <= j < y.len(),
    ensures
        run_back(s, cal, y, j) == if survives_spec(s, dt, cal) {
            0
        } else {
            j + 1
        },
    decreases j + 1,
{
    if j >= 0 {
        lemma_run_back_day(s, cal, y, dt, j - 1);
    }
}

/// Among slots on one date, the excluded run starting at `j` is all of
/// `j..` when that date is excluded, and empty otherwise.
proof fn lemma_run_fwd_day<C: CalendarProvider>(s: Schedule, cal: C, y: Seq<Slot>, dt: Date, j: int)
    requires
        forall|k: int| 0 <= k < y.len() ==> (#[trigger] y[k]).date == dt,
        0 <= j <= y.len(),
    ensures
        run_fwd(s, cal, y, j) == if survives_spec(s, dt, cal) {
            0
        } else {
            y.len() - j
        },
    decreases y.len() - j,
{
    if j < y.len() {
        lemma_run_fwd_day(s, cal, y, dt, j + 1);
    }
}

/// The base slots of one day are those of the one-day range.
pub proof fn lemma_one_day(f: Frequency, d: int)
    ensures
        base_seq(f, d, d) == day_slots(f, d),
        forall|k: int|
            0 <= k < day_slots(f, d).len() ==> (#[trigger] day_slots(f, d)[k]).date == (Date {
                days: d as i32,
            }),
{
    assert(base_seq(f, d, d - 1) =~= Seq::<Slot>::empty());
    assert(base_seq(f, d, d) =~= day_slots(f, d));
}

/// The excluded run before day `d` is the one before day `d - 1`, extended
/// by day `d - 1` when that day has slots and is excluded, and cut there
/// when it has slots that pass.
pub proof fn lemma_run_before_step<C: CalendarProvider>(s: Schedule, cal: C, d: int)
    requires
        series_first_day() <= d - 1,
    ensures
        run_before(s, cal, d) == if day_slots(s.freq, d - 1).len() == 0 {
            run_before(s, cal, d - 1) as int
        } else if survives_spec(s, (Date { days: (d - 1) as i32 }), cal) {
            0
        } else {
            (day_slots(s.freq, d - 1).len() + run_before(s, cal, d - 1)) as int
        },
{
    let f = s.freq;
    let x = base_seq(f, series_first_day(), d - 2);
    let y = day_slots(f, d - 1);
    lemma_one_day(f, d - 1);
    assert(base_seq(f, series_first_day(), d - 1) == x + y);
    if y.len() == 0 {
        assert(x + y =~= x);
    } else {
        lemma_run_back_concat(s, cal, x, y, y.len() - 1);
        lemma_run_back_day(s, cal, y, Date { days: (d - 1) as i32 }, y.len() - 1);
    }
}

/// The excluded run after day `d` is the one after day `d + 1`, extended by
/// day `d + 1` when that day has slots and is excluded, and cut there when
/// it has slots that pass.
pub proof fn lemma_run_after_step<C: CalendarProvider>(s: Schedule, cal: C, d: int)
    requires
        d + 1 <= series_last_day(),
    ensures
        run_after(s, cal, d) == if day_slots(s.freq, d + 1).len() == 0 {
            run_after(s, cal, d + 1) as int
        } else if survives_spec(s, (Date { days: (d + 1) as i32 }), cal) {
            0
        } else {
            (day_slots(s.freq, d + 1).len() + run_after(s, cal, d + 1)) as int
        },
{
    let f = s.freq;
    let x = day_slots(f, d + 1);
    let y = base_seq(f, d + 2, series_last_day());
    lemma_one_day(f, d + 1);
    lemma_base_seq_split(f, d + 1, d + 1, series_last_day());
    assert(base_seq(f, d + 1, series_last_day()) == x + y);
    if x.len() == 0 {
        assert(x + y =~= y);
    } else {
        lemma_run_fwd_concat(s, cal, x, y, 0);
        lemma_run_fwd_day(s, cal, x, Date { days: (d + 1) as i32 }, 0);
    }
}

/// The window `[lo, hi]` of the whole base series: the slots before it, its
/// own slots, and the slots after it.
pub proof fn lemma_series_window(f: Frequency, lo: int, hi: int)
    requires
        series_first_day() <= lo <= hi + 1,
        hi <= series_last_day(),
    ensures
        full_series(f) == base_seq(f, series_first_day(), lo - 1) + base_seq(f, lo, hi) + base_seq(
            f,
            hi + 1,
            series_last_day(),
        ),
        series_index(f, lo) == base_seq(f, series_first_day(), lo - 1).len(),
        series_index(f, hi + 1) == base_seq(f, series_first_day(), lo - 1).len() + base_seq(
            f,
            lo,
            hi,
        ).len(),
{
    let a = base_seq(f, series_first_day(), lo - 1);
    let w = base_seq(f, lo, hi);
    let z = base_seq(f, hi + 1, series_last_day());
    lemma_base_seq_split(f, series_first_day(), lo - 1, series_last_day());
    lemma_base_seq_split(f, lo, hi, series_last_day());
    lemma_base_seq_split(f, series_first_day(), lo - 1, hi);
    assert(a + (w + z) =~= a + w + z);
}

/// Slot `i` of the window `[lo, hi]` in the whole base series: the same
/// slot, whose excluded runs are those of the window, continued past its
/// ends by the runs just outside it where they reach its ends.
pub proof fn lemma_window_runs<C: CalendarProvider>(s: Schedule, cal: C, lo: int, hi: int, i: int)
    requires
        series_first_day() <= lo <= hi + 1,
        hi <= series_last_day(),
        0 <= i < base_seq(s.freq, lo, hi).len(),
    ensures
        ({
            let w = base_seq(s.freq, lo, hi);
            let full = full_series(s.freq);
            let k = series_index(s.freq, lo) + i;
            &&& full[k] == w[i]
            &&& run_back(s, cal, full, k) == if run_back(s, cal, w, i) == i + 1 {
                i + 1 + run_before(s, cal, lo)
            } else {
                run_back(s, cal, w, i) as int
            }
            &&& run_fwd(s, cal, full, k) == if run_fwd(s, cal, w, i) == w.len() - i {
                w.len() - i + run_after(s, cal, hi)
            } else {
                run_fwd(s, cal, w, i) as int
            }
        }),
{
    let f = s.freq;
    let a = base_seq(f, series_first_day(), lo - 1);
    let w = base_seq(f, lo, hi);
    let z = base_seq(f, hi + 1, series_last_day());
    lemma_series_window(f, lo, hi);
    let full = full_series(f);
    let k = a.len() + i;
    assert(full[k] == w[i]);
    lemma_run_back_prefix(s, cal, a + w, z, k);
    lemma_run_back_concat(s, cal, a, w, i);
    assert(full == a + (w + z));
    lemma_run_fwd_suffix(s, cal, a, w + z, i);
    lemma_run_fwd_concat(s, cal, w, z, i);
}

/// The base dates adjacent to slot `i` of the window `[lo, hi]` in the whole
/// base series: those of the window, and past its ends the last slot before
/// it and the first slot after it.
pub proof fn lemma_window_neighbours(f: Frequency, lo: int, hi: int, i: int)
    requires
        series_first_day() <= lo <= hi + 1,
        hi <= series_last_day(),
        0 <= i < base_seq(f, lo, hi).len(),
    ensures
        ({
            let w = base_seq(f, lo, hi);
            let full = full_series(f);
            let k = series_index(f, lo) + i;
            &&& (if k > 0 {
                Some(full[k - 1].date)
            } else {
                None
            }) == if i > 0 {
                Some(w[i - 1].date)
            } else {
                last_date(base_seq(f, series_first_day(), lo - 1))
            }
            &&& (if k + 1 < full.len() {
                Some(full[k + 1].date)
            } else {
                None
            }) == if i + 1 < w.len() {
                Some(w[i + 1].date)
            } else {
                first_date(base_seq(f, hi + 1, series_last_day()))
            }
        }),
{
    let a = base_seq(f, series_first_day(), lo - 1);
    let w = base_seq(f, lo, hi);
    let z = base_seq(f, hi + 1, series_last_day());
    lemma_series_window(f, lo, hi);
    let full = full_series(f);
    let k = a.len() + i;
    if i > 0 {
        assert(full[k - 1] == w[i - 1]);
    } else if k > 0 {
        assert(full[k - 1] == a.last());
    }
    if i + 1 < w.len() {
        assert(full[k + 1] == w[i + 1]);
    } else if z.len() > 0 {
        assert(full[k + 1] == z[0]);
    }
}

/// Adjacent base dates that are equal, or that cannot bound a makeup within
/// fourteen days, lead to the same makeup outcome.
pub proof fn lemma_make_up_far<C: CalendarProvider>(
    s: Schedule,
    cal: C,
    date: Date,
    p1: Option<Date>,
    n1: Option<Date>,
    p2: Option<Date>,
    n2: Option<Date>,
    makeup: Makeup,
)
    requires
        engine_day(date.days as int),
        p1 == p2 || (far_before(p1, date) && far_before(p2, date)),
        n1 == n2 || (far_after(n1, date) && far_after(n2, date)),
    ensures
        make_up_spec(s, cal, date, p1, n1, makeup) == make_up_spec(s, cal, date, p2, n2, makeup),
{
    lemma_steps_far(s, cal, date, p1, n1, p2, n2, makeup.steps_spec(date.weekday_spec()), 0, false);
}

proof fn lemma_steps_far<C: CalendarProvider>(
    s: Schedule,
    cal: C,
    date: Date,
    p1: Option<Date>,
    n1: Option<Date>,
    p2: Option<Date>,
    n2: Option<Date>,
    steps: Seq<crate::schedule::MakeupStep>,
    i: int,
    attempted: bool,
)
    requires
        engine_day(date.days as int),
        p1 == p2 || (far_before(p1, date) && far_before(p2, date)),
        n1 == n2 || (far_after(n1, date) && far_after(n2, date)),
    ensures
        crate::makeup::steps_outcome_spec(s, cal, date, p1, n1, steps, i, attempted)
            == crate::makeup::steps_outcome_spec(s, cal, date, p2, n2, steps, i, attempted),
    decreases steps.len() - i,
{
    if 0 <= i < steps.len() {
        let (dir, mh) = steps[i].parts_spec();
        let limit = crate::makeup::step_limit(s, mh);
        lemma_search_far(s, cal, date, p1, n1, p2, n2, dir, limit, 1);
        lemma_steps_far(s, cal, date, p1, n1, p2, n2, steps, i + 1, true);
    }
}

proof fn lemma_search_far<C: CalendarProvider>(
    s: Schedule,
    cal: C,
    date: Date,
    p1: Option<Date>,
    n1: Option<Date>,
    p2: Option<Date>,
    n2: Option<Date>,
    dir: crate::schedule::MakeupDirection,
    max_hops: int,
    k: int,
)
    requires
        engine_day(date.days as int),
        max_hops <= 14,
        p1 == p2 || (far_before(p1, date) && far_before(p2, date)),
        n1 == n2 || (far_after(n1, date) && far_after(n2, date)),
    ensures
        crate::makeup::search_spec(s, cal, date, p1, n1, dir, max_hops, k)
            == crate::makeup::search_spec(s, cal, date, p2, n2, dir, max_hops, k),
    decreases max_hops + 1 - k,
{
    if 1 <= k <= max_hops {
        let later = crate::makeup::shift(date, k);
        let earlier = crate::makeup::shift(date, -k);
        assert(later.days == date.days + k);
        assert(earlier.days == date.days - k);
        assert(crate::makeup::valid_target_spec(s, cal, date, later, p1, n1)
            == crate::makeup::valid_target_spec(s, cal, date, later, p2, n2));
        assert(crate::makeup::valid_target_spec(s, cal, date, earlier, p1, n1)
            == crate::makeup::valid_target_spec(s, cal, date, earlier, p2, n2));
        lemma_search_far(s, cal, date, p1, n1, p2, n2, dir, max_hops, k + 1);
    }
}

/// A makeup destination is within the makeup search distance of the
/// excluded date.
pub proof fn lemma_make_up_distance<C: CalendarProvider>(
    s: Schedule,
    cal: C,
    date: Date,
    prev: Option<Date>,
    next: Option<Date>,
    makeup: Makeup,
)
    requires
        engine_day(date.days as int),
    ensures
        make_up_spec(s, cal, date, prev, next, makeup) matches MakeupOutcome::Moved(d) ==> date.days
            - 14 <= d.days <= date.days + 14,
{
    lemma_steps_distance(
        s,
        cal,
        date,
        prev,
        next,
        makeup.steps_spec(date.weekday_spec()),
        0,
        false,
    );
}

proof fn lemma_steps_distance<C: CalendarProvider>(
    s: Schedule,
    cal: C,
    date: Date,
    prev: Option<Date>,
    next: Option<Date>,
    steps: Seq<crate::schedule::MakeupStep>,
    i: int,
    attempted: bool,
)
    requires
        engine_day(date.days as int),
    ensures
        crate::makeup::steps_outcome_spec(s, cal, date, prev, next, steps, i, attempted) matches MakeupOutcome::Moved(d)
            ==> date.days - 14 <= d.days <= date.days + 14,
    decreases steps.len() - i,
{
    if 0 <= i < steps.len() {
        let (dir, mh) = steps[i].parts_spec();
        let limit = crate::makeup::step_limit(s, mh);
        lemma_search_distance(s, cal, date, prev, next, dir, limit, 1);
        lemma_steps_distance(s, cal, date, prev, next, steps, i + 1, true);
    }
}

proof fn lemma_search_distance<C: CalendarProvider>(
    s: Schedule,
    cal: C,
    date: Date,
    prev: Option<Date>,
    next: Option<Date>,
    dir: crate::schedule::MakeupDirection,
    max_hops: int,
    k: int,
)
    requires
        engine_day(date.days as int),
        max_hops <= 14,
    ensures
        crate::makeup::search_spec(s, cal, date, prev, next, dir, max_hops, k) matches Some(d)
            ==> date.days - 14 <= d.days <= date.days + 14,
    decreases max_hops + 1 - k,
{
    if 1 <= k <= max_hops {
        lemma_search_distance(s, cal, date, prev, next, dir, max_hops, k + 1);
    }
}

} // verus!
