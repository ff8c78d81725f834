//! The public queries of a schedule: `next`, `previous`, `upcoming`, `until`,
//! `since`, `is_occurrence` and `count_between`, each with a fallible `try_`
//! form and a form that returns traces (instant and reason).
//!
//! `until` and `since` read one window. `next`, `previous` and `upcoming`
//! search windows of 90, 180, 360, ... days from their reference instant, up
//! to fifty years (18300 days) and never past the schedule's start or end.

use crate::base::frequency_wf;
use crate::calendar::CalendarProvider;
use crate::generate::{traces_view, OccurrenceTrace, QueryError};
use crate::query::{collect_spec, gap_check_spec, result_view, Entry, GapCheck};
use crate::schedule::Schedule;
use crate::zone::{query_instant, window_instant, Instant, MS_PER_DAY};
use vstd::prelude::*;

verus! {

/// First search horizon of the open-ended queries, in days.
pub const INITIAL_HORIZON_DAYS: i64 = 90;

/// Absolute cap on how far `next`, `previous` and `upcoming` search (about
/// fifty years), so schedules that never fire still terminate.
pub const ABSOLUTE_HORIZON_DAYS: i64 = 18300;

pub open spec fn min_int(a: int, b: int) -> int {
    if a <= b {
        a
    } else {
        b
    }
}

pub open spec fn max_int(a: int, b: int) -> int {
    if a >= b {
        a
    } else {
        b
    }
}

/// The hard upper bound of a forward search from `after`: the earlier of the
/// schedule's end and the absolute horizon.
pub open spec fn forward_cap(s: Schedule, after: Instant) -> int {
    let cap = after.ms + ABSOLUTE_HORIZON_DAYS * MS_PER_DAY;
    match s.end {
        Some(e) => min_int(e.ms as int, cap),
        None => cap,
    }
}

/// The hard lower bound of a backward search from `before`: the later of the
/// schedule's start and the absolute horizon.
pub open spec fn backward_cap(s: Schedule, before: Instant) -> int {
    let cap = before.ms - ABSOLUTE_HORIZON_DAYS * MS_PER_DAY;
    match s.start {
        Some(st) => max_int(st.ms as int, cap),
        None => cap,
    }
}

/// The next search horizon: doubled, at most the absolute one.
pub open spec fn next_span(span: int) -> int {
    min_int(2 * span, ABSOLUTE_HORIZON_DAYS as int)
}

/// The occurrences `v` of the window `(lower, upper)` when they pass the gap
/// check `gap`, else the gap error.
pub open spec fn gap_result(s: Schedule, lower: int, upper: int, v: Seq<Entry>, gap: GapCheck) -> Result<
    Seq<Entry>,
    QueryError,
> {
    if gap_check_spec(s, lower, upper, v, gap) {
        Ok(v)
    } else {
        Err(QueryError::MaxSkipGapExceeded { max_days: s.max_skip_gap->0 })
    }
}

/// The forward search from horizon `span` on: the first window holding `n`
/// occurrences gives its first `n`; the capped window gives all it holds.
/// Only what is returned is gap-checked, from `after` on, and the open end
/// after it is not.
pub open spec fn upcoming_from<C: CalendarProvider>(
    s: Schedule,
    cal: C,
    n: nat,
    after: Instant,
    span: int,
) -> Result<Seq<Entry>, QueryError>
    decreases ABSOLUTE_HORIZON_DAYS - span,
    when 1 <= span <= ABSOLUTE_HORIZON_DAYS
{
    let cap = forward_cap(s, after);
    let upper = min_int(after.ms + span * MS_PER_DAY, cap);
    match collect_spec(s, cal, after, Instant { ms: upper as i64 }, GapCheck::Unchecked) {
        Err(e) => Err(e),
        Ok(occ) => if occ.len() >= n {
            gap_result(s, after.ms as int, upper, occ.take(n as int), GapCheck::OpenTail)
        } else if upper >= cap {
            gap_result(s, after.ms as int, upper, occ, GapCheck::OpenTail)
        } else {
            upcoming_from(s, cal, n, after, next_span(span))
        },
    }
}

/// Up to `n` occurrence traces strictly after `after`, ascending.
pub open spec fn upcoming_spec<C: CalendarProvider>(
    s: Schedule,
    cal: C,
    n: nat,
    after: Instant,
) -> Result<Seq<Entry>, QueryError> {
    if n == 0 {
        Ok(Seq::empty())
    } else {
        upcoming_from(s, cal, n, after, INITIAL_HORIZON_DAYS as int)
    }
}

/// The backward search from horizon `span` on: the last occurrence of the
/// first window that holds one, or none once the capped window is empty. Only
/// the gap from the returned occurrence to `before` is checked.
pub open spec fn previous_from<C: CalendarProvider>(
    s: Schedule,
    cal: C,
    before: Instant,
    span: int,
) -> Result<Option<Entry>, QueryError>
    decreases ABSOLUTE_HORIZON_DAYS - span,
    when 1 <= span <= ABSOLUTE_HORIZON_DAYS
{
    let cap = backward_cap(s, before);
    let lower = max_int(before.ms - span * MS_PER_DAY, cap);
    match collect_spec(s, cal, Instant { ms: lower as i64 }, before, GapCheck::Unchecked) {
        Err(e) => Err(e),
        Ok(occ) => if occ.len() > 0 {
            match gap_result(s, lower, before.ms as int, seq![occ.last()], GapCheck::OpenHead) {
                Ok(_) => Ok(Some(occ.last())),
                Err(e) => Err(e),
            }
        } else if lower <= cap {
            Ok(None)
        } else {
            previous_from(s, cal, before, next_span(span))
        },
    }
}

/// The last occurrence trace strictly before `before`.
pub open spec fn previous_spec<C: CalendarProvider>(s: Schedule, cal: C, before: Instant) -> Result<
    Option<Entry>,
    QueryError,
> {
    previous_from(s, cal, before, INITIAL_HORIZON_DAYS as int)
}

/// The first occurrence trace strictly after `after`.
pub open spec fn next_spec<C: CalendarProvider>(s: Schedule, cal: C, after: Instant) -> Result<
    Option<Entry>,
    QueryError,
> {
    match upcoming_spec(s, cal, 1, after) {
        Ok(v) => Ok(
            if v.len() > 0 {
                Some(v[0])
            } else {
                None
            },
        ),
        Err(e) => Err(e),
    }
}

/// The occurrence traces strictly in `(after, before)`, ascending.
pub open spec fn until_spec<C: CalendarProvider>(
    s: Schedule,
    cal: C,
    before: Instant,
    after: Instant,
) -> Result<Seq<Entry>, QueryError> {
    collect_spec(s, cal, after, before, GapCheck::Closed)
}

/// The occurrence traces strictly in `(after, before)`, descending.
pub open spec fn since_spec<C: CalendarProvider>(
    s: Schedule,
    cal: C,
    after: Instant,
    before: Instant,
) -> Result<Seq<Entry>, QueryError> {
    match collect_spec(s, cal, after, before, GapCheck::Closed) {
        Ok(v) => Ok(v.reverse()),
        Err(e) => Err(e),
    }
}

/// Whether `x` is an occurrence: it is among the occurrences of the window
/// one millisecond around it.
pub open spec fn is_occurrence_spec<C: CalendarProvider>(s: Schedule, cal: C, x: Instant) -> Result<
    bool,
    QueryError,
> {
    match collect_spec(
        s,
        cal,
        Instant { ms: (x.ms - 1) as i64 },
        Instant { ms: (x.ms + 1) as i64 },
        GapCheck::Closed,
    ) {
        Ok(v) => Ok(instants(v).contains(x)),
        Err(e) => Err(e),
    }
}

/// The instants of a sequence of traces.
pub open spec fn instants(ts: Seq<Entry>) -> Seq<Instant> {
    ts.map_values(|t: Entry| t.0)
}

/// A fallible list of traces read as its instants.
pub open spec fn instants_of(r: Result<Seq<Entry>, QueryError>) -> Result<Seq<Instant>, QueryError> {
    match r {
        Ok(v) => Ok(instants(v)),
        Err(e) => Err(e),
    }
}

/// A fallible optional trace read as its instant.
pub open spec fn instant_of(r: Result<Option<Entry>, QueryError>) -> Result<
    Option<Instant>,
    QueryError,
> {
    match r {
        Ok(Some(t)) => Ok(Some(t.0)),
        Ok(None) => Ok(None),
        Err(e) => Err(e),
    }
}

/// An optional trace read in spec form.
pub open spec fn option_view(o: Option<OccurrenceTrace>) -> Option<Entry> {
    match o {
        Some(t) => Some(t@),
        None => None,
    }
}

/// A window's bounds the engine accepts: empty, or inside chrono's range with
/// room for its date margins.
pub open spec fn window_ok(lower: Instant, upper: Instant) -> bool {
    upper.ms <= lower.ms || (window_instant(lower.ms as int) && window_instant(upper.ms as int))
}

/// The instants of `v`, in order.
fn trace_instants(v: &Vec<OccurrenceTrace>) -> (r: Vec<Instant>)
    ensures
        r@ == instants(traces_view(v@)),
{
    let mut out: Vec<Instant> = Vec::new();
    let mut i: usize = 0;
    while i < v.len()
        invariant
            i <= v@.len(),
            out@ == instants(traces_view(v@)).subrange(0, i as int),
        decreases v.len() - i,
    {
        out.push(v[i].instant);
        i = i + 1;
        assert(out@ =~= instants(traces_view(v@)).subrange(0, i as int));
    }
    assert(instants(traces_view(v@)).subrange(0, v@.len() as int) =~= instants(traces_view(v@)));
    out
}

/// `v` in reverse order.
fn reversed(v: Vec<OccurrenceTrace>) -> (r: Vec<OccurrenceTrace>)
    ensures
        traces_view(r@) == traces_view(v@).reverse(),
{
    let ghost orig = traces_view(v@);
    let ghost n = v@.len();
    let mut v = v;
    let mut out: Vec<OccurrenceTrace> = Vec::new();
    while v.len() > 0
        invariant
            v@.len() <= n,
            n == orig.len(),
            traces_view(v@) == orig.subrange(0, v@.len() as int),
            traces_view(out@) == Seq::new((n - v@.len()) as nat, |j: int| orig[n - 1 - j]),
        decreases v.len(),
    {
        let ghost before = v@;
        let ghost out_before = out@;
        let t = v.pop().unwrap();
        proof {
            let k = v@.len() as int;
            assert(t == before[k]);
            assert(traces_view(before)[k] == before[k]@);
            assert(orig.subrange(0, before.len() as int)[k] == orig[k]);
            assert(t@ == orig[k]);
        }
        out.push(t);
        proof {
            let k = out_before.len() as int;
            assert(traces_view(out_before).len() == out_before.len());
            assert(traces_view(before).len() == before.len());
            assert(traces_view(out@)[k] == t@);
            assert(n - 1 - k == v@.len());
            assert forall|j: int| 0 <= j < k implies traces_view(out@)[j] == orig[n - 1 - j] by {
                assert(out@[j] == out_before[j]);
                assert(traces_view(out_before)[j] == orig[n - 1 - j]);
            }
        }
        assert(traces_view(v@) =~= orig.subrange(0, v@.len() as int));
        assert(traces_view(out@) =~= Seq::new((n - v@.len()) as nat, |j: int| orig[n - 1 - j]));
    }
    assert(traces_view(out@) =~= orig.reverse());
    out
}

impl Schedule {
    /// Up to `n` occurrence traces strictly after `after`, ascending.
    pub fn try_upcoming_trace<C: CalendarProvider>(&self, n: usize, after: Instant, cal: &C) -> (r:
        Result<Vec<OccurrenceTrace>, QueryError>)
        requires
            frequency_wf(self.freq),
            query_instant(after.ms as int),
        ensures
            result_view(r) == upcoming_spec(*self, *cal, n as nat, after),
    {
        if n == 0 {
            let empty: Vec<OccurrenceTrace> = Vec::new();
            assert(traces_view(empty@) =~= Seq::<Entry>::empty());
            return Ok(empty);
        }
        let horizon: i64 = ABSOLUTE_HORIZON_DAYS * MS_PER_DAY;
        let mut cap: i64 = after.ms + horizon;
        if let Some(e) = self.end {
            if e.ms < cap {
                cap = e.ms;
            }
        }
        let mut span: i64 = INITIAL_HORIZON_DAYS;
        loop
            invariant
                frequency_wf(self.freq),
                query_instant(after.ms as int),
                n > 0,
                1 <= span <= ABSOLUTE_HORIZON_DAYS,
                cap == forward_cap(*self, after),
                upcoming_spec(*self, *cal, n as nat, after) == upcoming_from(
                    *self,
                    *cal,
                    n as nat,
                    after,
                    span as int,
                ),
            decreases ABSOLUTE_HORIZON_DAYS - span,
        {
            let reach: i64 = after.ms + span * MS_PER_DAY;
            let upper_ms: i64 = if reach < cap {
                reach
            } else {
                cap
            };
            let upper = Instant { ms: upper_ms };
            let mut occ = match self.try_collect_traces(after, upper, GapCheck::Unchecked, cal) {
                Ok(v) => v,
                Err(e) => {
                    return Err(e);
                },
            };
            if occ.len() >= n || upper_ms >= cap {
                if occ.len() >= n {
                    let ghost whole = occ@;
                    occ.truncate(n);
                    assert(traces_view(occ@) =~= traces_view(whole).take(n as int));
                }
                if occ.len() == 0 {
                    return Ok(occ);
                }
                return match self.check_max_skip_gap(after, upper, &occ, GapCheck::OpenTail) {
                    Ok(()) => Ok(occ),
                    Err(e) => Err(e),
                };
            }
            span = if span * 2 < ABSOLUTE_HORIZON_DAYS {
                span * 2
            } else {
                ABSOLUTE_HORIZON_DAYS
            };
        }
    }

    /// Fallible [`Schedule::upcoming`].
    pub fn try_upcoming<C: CalendarProvider>(&self, n: usize, after: Instant, cal: &C) -> (r: Result<
        Vec<Instant>,
        QueryError,
    >)
        requires
            frequency_wf(self.freq),
            query_instant(after.ms as int),
        ensures
            match r {
                Ok(v) => instants_of(upcoming_spec(*self, *cal, n as nat, after)) == Ok::<
                    Seq<Instant>,
                    QueryError,
                >(v@),
                Err(e) => upcoming_spec(*self, *cal, n as nat, after) == Err::<Seq<Entry>, QueryError>(
                    e,
                ),
            },
    {
        match self.try_upcoming_trace(n, after, cal) {
            Ok(v) => Ok(trace_instants(&v)),
            Err(e) => Err(e),
        }
    }

    /// Up to `n` occurrences strictly after `after`, ascending; empty when the
    /// query fails.
    pub fn upcoming<C: CalendarProvider>(&self, n: usize, after: Instant, cal: &C) -> (r: Vec<
        Instant,
    >)
        requires
            frequency_wf(self.freq),
            query_instant(after.ms as int),
        ensures
            match upcoming_spec(*self, *cal, n as nat, after) {
                Ok(v) => r@ == instants(v),
                Err(_) => r@.len() == 0,
            },
    {
        match self.try_upcoming(n, after, cal) {
            Ok(v) => v,
            Err(_) => Vec::new(),
        }
    }

    /// The first occurrence trace strictly after `after`.
    pub fn try_next_trace<C: CalendarProvider>(&self, after: Instant, cal: &C) -> (r: Result<
        Option<OccurrenceTrace>,
        QueryError,
    >)
        requires
            frequency_wf(self.freq),
            query_instant(after.ms as int),
        ensures
            match r {
                Ok(o) => next_spec(*self, *cal, after) == Ok::<Option<Entry>, QueryError>(
                    option_view(o),
                ),
                Err(e) => next_spec(*self, *cal, after) == Err::<Option<Entry>, QueryError>(e),
            },
    {
        match self.try_upcoming_trace(1, after, cal) {
            Ok(v) => {
                let mut v = v;
                if v.len() > 0 {
                    let t = v.remove(0);
                    Ok(Some(t))
                } else {
                    Ok(None)
                }
            },
            Err(e) => Err(e),
        }
    }

    /// Fallible [`Schedule::next`].
    pub fn try_next<C: CalendarProvider>(&self, after: Instant, cal: &C) -> (r: Result<
        Option<Instant>,
        QueryError,
    >)
        requires
            frequency_wf(self.freq),
            query_instant(after.ms as int),
        ensures
            r == instant_of(next_spec(*self, *cal, after)),
    {
        match self.try_next_trace(after, cal) {
            Ok(Some(t)) => Ok(Some(t.instant)),
            Ok(None) => Ok(None),
            Err(e) => Err(e),
        }
    }

    /// The first occurrence strictly after `after`. `None` when the series
    /// has ended, none exists within the search horizon, or the query fails.
    pub fn next<C: CalendarProvider>(&self, after: Instant, cal: &C) -> (r: Option<Instant>)
        requires
            frequency_wf(self.freq),
            query_instant(after.ms as int),
        ensures
            match instant_of(next_spec(*self, *cal, after)) {
                Ok(o) => r == o,
                Err(_) => r is None,
            },
    {
        match self.try_next(after, cal) {
            Ok(o) => o,
            Err(_) => None,
        }
    }

    /// The last occurrence trace strictly before `before`.
    pub fn try_previous_trace<C: CalendarProvider>(&self, before: Instant, cal: &C) -> (r: Result<
        Option<OccurrenceTrace>,
        QueryError,
    >)
        requires
            frequency_wf(self.freq),
            query_instant(before.ms as int),
        ensures
            match r {
                Ok(o) => previous_spec(*self, *cal, before) == Ok::<Option<Entry>, QueryError>(
                    option_view(o),
                ),
                Err(e) => previous_spec(*self, *cal, before) == Err::<Option<Entry>, QueryError>(e),
            },
    {
        let horizon: i64 = ABSOLUTE_HORIZON_DAYS * MS_PER_DAY;
        let mut cap: i64 = before.ms - horizon;
        if let Some(st) = self.start {
            if st.ms > cap {
                cap = st.ms;
            }
        }
        let mut span: i64 = INITIAL_HORIZON_DAYS;
        loop
            invariant
                frequency_wf(self.freq),
                query_instant(before.ms as int),
                1 <= span <= ABSOLUTE_HORIZON_DAYS,
                cap == backward_cap(*self, before),
                previous_spec(*self, *cal, before) == previous_from(
                    *self,
                    *cal,
                    before,
                    span as int,
                ),
            decreases ABSOLUTE_HORIZON_DAYS - span,
        {
            let reach: i64 = before.ms - span * MS_PER_DAY;
            let lower_ms: i64 = if reach > cap {
                reach
            } else {
                cap
            };
            let lower = Instant { ms: lower_ms };
            let mut occ = match self.try_collect_traces(lower, before, GapCheck::Unchecked, cal) {
                Ok(v) => v,
                Err(e) => {
                    return Err(e);
                },
            };
            if occ.len() > 0 {
                let t = occ.pop().unwrap();
                let mut last: Vec<OccurrenceTrace> = Vec::new();
                last.push(crate::query::copy_trace(&t));
                assert(traces_view(last@) =~= seq![t@]);
                return match self.check_max_skip_gap(lower, before, &last, GapCheck::OpenHead) {
                    Ok(()) => Ok(Some(t)),
                    Err(e) => Err(e),
                };
            }
            if lower_ms <= cap {
                return Ok(None);
            }
            span = if span * 2 < ABSOLUTE_HORIZON_DAYS {
                span * 2
            } else {
                ABSOLUTE_HORIZON_DAYS
            };
        }
    }

    /// Fallible [`Schedule::previous`].
    pub fn try_previous<C: CalendarProvider>(&self, before: Instant, cal: &C) -> (r: Result<
        Option<Instant>,
        QueryError,
    >)
        requires
            frequency_wf(self.freq),
            query_instant(before.ms as int),
        ensures
            r == instant_of(previous_spec(*self, *cal, before)),
    {
        match self.try_previous_trace(before, cal) {
            Ok(Some(t)) => Ok(Some(t.instant)),
            Ok(None) => Ok(None),
            Err(e) => Err(e),
        }
    }

    /// The last occurrence strictly before `before`. `None` when none exists
    /// within the search horizon or the query fails.
    pub fn previous<C: CalendarProvider>(&self, before: Instant, cal: &C) -> (r: Option<Instant>)
        requires
            frequency_wf(self.freq),
            query_instant(before.ms as int),
        ensures
            match instant_of(previous_spec(*self, *cal, before)) {
                Ok(o) => r == o,
                Err(_) => r is None,
            },
    {
        match self.try_previous(before, cal) {
            Ok(o) => o,
            Err(_) => None,
        }
    }

    /// Occurrence traces strictly in `(after, before)`, ascending.
    pub fn try_until_trace<C: CalendarProvider>(&self, before: Instant, after: Instant, cal: &C) -> (r:
        Result<Vec<OccurrenceTrace>, QueryError>)
        requires
            frequency_wf(self.freq),
            window_ok(after, before),
        ensures
            result_view(r) == until_spec(*self, *cal, before, after),
    {
        self.try_collect_traces(after, before, GapCheck::Closed, cal)
    }

    /// Fallible [`Schedule::until`].
    pub fn try_until<C: CalendarProvider>(&self, before: Instant, after: Instant, cal: &C) -> (r:
        Result<Vec<Instant>, QueryError>)
        requires
            frequency_wf(self.freq),
            window_ok(after, before),
        ensures
            match r {
                Ok(v) => instants_of(until_spec(*self, *cal, before, after)) == Ok::<
                    Seq<Instant>,
                    QueryError,
                >(v@),
                Err(e) => until_spec(*self, *cal, before, after) == Err::<Seq<Entry>, QueryError>(e),
            },
    {
        match self.try_until_trace(before, after, cal) {
            Ok(v) => Ok(trace_instants(&v)),
            Err(e) => Err(e),
        }
    }

    /// All occurrences strictly in `(after, before)`, ascending; empty when
    /// the query fails.
    pub fn until<C: CalendarProvider>(&self, before: Instant, after: Instant, cal: &C) -> (r: Vec<
        Instant,
    >)
        requires
            frequency_wf(self.freq),
            window_ok(after, before),
        ensures
            match until_spec(*self, *cal, before, after) {
                Ok(v) => r@ == instants(v),
                Err(_) => r@.len() == 0,
            },
    {
        match self.try_until(before, after, cal) {
            Ok(v) => v,
            Err(_) => Vec::new(),
        }
    }

    /// Occurrence traces strictly in `(after, before)`, descending.
    pub fn try_since_trace<C: CalendarProvider>(&self, after: Instant, before: Instant, cal: &C) -> (r:
        Result<Vec<OccurrenceTrace>, QueryError>)
        requires
            frequency_wf(self.freq),
            window_ok(after, before),
        ensures
            result_view(r) == since_spec(*self, *cal, after, before),
    {
        match self.try_collect_traces(after, before, GapCheck::Closed, cal) {
            Ok(v) => Ok(reversed(v)),
            Err(e) => Err(e),
        }
    }

    /// Fallible [`Schedule::since`].
    pub fn try_since<C: CalendarProvider>(&self, after: Instant, before: Instant, cal: &C) -> (r:
        Result<Vec<Instant>, QueryError>)
        requires
            frequency_wf(self.freq),
            window_ok(after, before),
        ensures
            match r {
                Ok(v) => instants_of(since_spec(*self, *cal, after, before)) == Ok::<
                    Seq<Instant>,
                    QueryError,
                >(v@),
                Err(e) => since_spec(*self, *cal, after, before) == Err::<Seq<Entry>, QueryError>(e),
            },
    {
        match self.try_since_trace(after, before, cal) {
            Ok(v) => Ok(trace_instants(&v)),
            Err(e) => Err(e),
        }
    }

    /// All occurrences strictly in `(after, before)`, descending; empty when
    /// the query fails.
    pub fn since<C: CalendarProvider>(&self, after: Instant, before: Instant, cal: &C) -> (r: Vec<
        Instant,
    >)
        requires
            frequency_wf(self.freq),
            window_ok(after, before),
        ensures
            match since_spec(*self, *cal, after, before) {
                Ok(v) => r@ == instants(v),
                Err(_) => r@.len() == 0,
            },
    {
        match self.try_since(after, before, cal) {
            Ok(v) => v,
            Err(_) => Vec::new(),
        }
    }

    /// Whether `instant` is an occurrence of this schedule.
    pub fn try_is_occurrence<C: CalendarProvider>(&self, instant: Instant, cal: &C) -> (r: Result<
        bool,
        QueryError,
    >)
        requires
            frequency_wf(self.freq),
            window_instant(instant.ms - 1),
            window_instant(instant.ms + 1),
        ensures
            r == is_occurrence_spec(*self, *cal, instant),
    {
        let lower = Instant { ms: instant.ms - 1 };
        let upper = Instant { ms: instant.ms + 1 };
        match self.try_collect_traces(lower, upper, GapCheck::Closed, cal) {
            Ok(v) => {
                let ghost ts = traces_view(v@);
                let mut found = false;
                let mut i: usize = 0;
                while i < v.len()
                    invariant
                        i <= v@.len(),
                        ts == traces_view(v@),
                        found <==> instants(ts).subrange(0, i as int).contains(instant),
                    decreases v.len() - i,
                {
                    proof {
                        let a = instants(ts).subrange(0, i as int);
                        let b = instants(ts).subrange(0, i as int + 1);
                        assert(b == a.push(ts[i as int].0));
                        assert(b.contains(instant) <==> (a.contains(instant) || ts[i as int].0
                            == instant)) by {
                            if b.contains(instant) {
                                let k = choose|k: int| 0 <= k < b.len() && b[k] == instant;
                                if k < a.len() {
                                    assert(a[k] == instant);
                                }
                            }
                            if a.contains(instant) {
                                let k = choose|k: int| 0 <= k < a.len() && a[k] == instant;
                                assert(b[k] == instant);
                            }
                            if ts[i as int].0 == instant {
                                assert(b[i as int] == instant);
                            }
                        }
                    }
                    if v[i].instant.ms == instant.ms {
                        found = true;
                    }
                    i = i + 1;
                }
                assert(instants(ts).subrange(0, ts.len() as int) =~= instants(ts));
                Ok(found)
            },
            Err(e) => Err(e),
        }
    }

    /// Whether `instant` is an occurrence; false when the query fails.
    pub fn is_occurrence<C: CalendarProvider>(&self, instant: Instant, cal: &C) -> (r: bool)
        requires
            frequency_wf(self.freq),
            window_instant(instant.ms - 1),
            window_instant(instant.ms + 1),
        ensures
            r == (is_occurrence_spec(*self, *cal, instant) == Ok::<bool, QueryError>(true)),
    {
        match self.try_is_occurrence(instant, cal) {
            Ok(b) => b,
            Err(_) => false,
        }
    }

    /// The number of occurrences strictly in `(after, before)`.
    pub fn try_count_between<C: CalendarProvider>(&self, after: Instant, before: Instant, cal: &C) -> (r:
        Result<usize, QueryError>)
        requires
            frequency_wf(self.freq),
            window_ok(after, before),
        ensures
            match r {
                Ok(n) => until_spec(*self, *cal, before, after) is Ok && n == until_spec(
                    *self,
                    *cal,
                    before,
                    after,
                )->Ok_0.len(),
                Err(e) => until_spec(*self, *cal, before, after) == Err::<Seq<Entry>, QueryError>(e),
            },
    {
        match self.try_until(before, after, cal) {
            Ok(v) => Ok(v.len()),
            Err(e) => Err(e),
        }
    }

    /// The number of occurrences strictly in `(after, before)`; zero when the
    /// query fails.
    pub fn count_between<C: CalendarProvider>(&self, after: Instant, before: Instant, cal: &C) -> (r:
        usize)
        requires
            frequency_wf(self.freq),
            window_ok(after, before),
        ensures
            match until_spec(*self, *cal, before, after) {
                Ok(v) => r == v.len(),
                Err(_) => r == 0,
            },
    {
        match self.try_count_between(after, before, cal) {
            Ok(n) => n,
            Err(_) => 0,
        }
    }
}

} // verus!
