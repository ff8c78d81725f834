//! Windows of occurrences: generation over a local-date window around two
//! instants, the strict `(lower, upper)` filter with the schedule's start/end
//! bounds, and the `max_skip_gap` check.

use crate::base::frequency_wf;
use crate::calendar::CalendarProvider;
use crate::civil::{Date, MAX_DAYS, MIN_DAYS};
use crate::generate::{ascending, generate_spec, traces_view, OccurrenceTrace, QueryError};
use crate::schedule::Schedule;
use crate::zone::{utc_date, utc_day, window_instant, Instant, MS_PER_DAY};
use vstd::prelude::*;

verus! {

/// Days added on both sides of the UTC dates of a query window's bounds. A
/// makeup moves an occurrence at most fourteen days, a UTC offset is under a
/// day and a DST shift under six hours, so no base slot outside the margin
/// can land inside the window (see `lemma_entry_after` and
/// `lemma_entry_before`).
pub const WINDOW_DATE_MARGIN: i32 = 16;

/// How `max_skip_gap` treats the ends of a query window.
#[derive(Clone, Copy, PartialEq, Eq, Structural, Debug)]
pub enum GapCheck {
    /// The gap before the first occurrence is not counted (backward searches).
    OpenHead,
    /// The gap after the last occurrence is not counted (forward searches).
    OpenTail,
    /// Both ends of the window count.
    Closed,
    /// No gap is checked (the open-ended searches check what they return).
    Unchecked,
}

/// A trace in spec form: its instant and its reason.
pub type Entry = (Instant, Seq<char>);

/// Whether instant `x` is strictly inside `(lower, upper)`, not before the
/// schedule's start and before its end.
pub open spec fn in_bounds(s: Schedule, lower: Instant, upper: Instant, x: Instant) -> bool {
    &&& lower.ms < x.ms < upper.ms
    &&& (s.start matches Some(st) ==> st.ms <= x.ms)
    &&& (s.end matches Some(e) ==> x.ms < e.ms)
}

/// The filter keeping traces whose instant is in bounds (see [`in_bounds`]).
pub open spec fn bounds_pred(s: Schedule, lower: Instant, upper: Instant) -> spec_fn(Entry) -> bool {
    |t: Entry| in_bounds(s, lower, upper, t.0)
}

/// The traces generated for the base slots whose local date lies within the
/// margin around the UTC dates of `lower` and `upper`.
pub open spec fn window_spec<C: CalendarProvider>(
    s: Schedule,
    cal: C,
    lower: Instant,
    upper: Instant,
) -> Result<Seq<Entry>, QueryError> {
    generate_spec(
        s,
        cal,
        utc_day(lower.ms as int) - WINDOW_DATE_MARGIN,
        utc_day(upper.ms as int) + WINDOW_DATE_MARGIN,
    )
}

/// Whether no occurrence of `occ[k..]` is more than `g` ms after its
/// predecessor (the first one after `prev`).
pub open spec fn gaps_within(occ: Seq<Entry>, k: int, prev: int, g: int) -> bool
    decreases occ.len() - k,
{
    if k < 0 || k >= occ.len() {
        true
    } else {
        occ[k].0.ms - prev <= g && gaps_within(occ, k + 1, occ[k].0.ms as int, g)
    }
}

/// Whether the occurrences `occ` of window `(lower, upper)` respect the
/// schedule's `max_skip_gap`: measured from `lower` (or, for `OpenHead`, from
/// the first occurrence) through each occurrence, and on to `upper` unless the
/// check is `OpenTail`.
pub open spec fn gap_check_spec(
    s: Schedule,
    lower: int,
    upper: int,
    occ: Seq<Entry>,
    gap: GapCheck,
) -> bool {
    match s.max_skip_gap {
        None => true,
        Some(m) => gap == GapCheck::Unchecked || {
            let g = m * MS_PER_DAY;
            let start = if gap == GapCheck::OpenHead && occ.len() > 0 {
                occ[0].0.ms as int
            } else {
                lower
            };
            let last = if occ.len() > 0 {
                occ.last().0.ms as int
            } else {
                start
            };
            gaps_within(occ, 0, start, g) && (gap == GapCheck::OpenTail || upper - last <= g)
        }
    }
}

/// The occurrence traces strictly in `(lower, upper)`, within the start/end
/// bounds, ascending, after the gap check; or the first error.
pub open spec fn collect_spec<C: CalendarProvider>(
    s: Schedule,
    cal: C,
    lower: Instant,
    upper: Instant,
    gap: GapCheck,
) -> Result<Seq<Entry>, QueryError> {
    if upper.ms <= lower.ms {
        Ok(Seq::empty())
    } else {
        match window_spec(s, cal, lower, upper) {
            Err(e) => Err(e),
            Ok(ts) => {
                let kept = ts.filter(bounds_pred(s, lower, upper));
                if gap_check_spec(s, lower.ms as int, upper.ms as int, kept, gap) {
                    Ok(kept)
                } else {
                    Err(QueryError::MaxSkipGapExceeded { max_days: s.max_skip_gap->0 })
                }
            },
        }
    }
}

/// A query result read in spec form.
pub open spec fn result_view(r: Result<Vec<OccurrenceTrace>, QueryError>) -> Result<
    Seq<Entry>,
    QueryError,
> {
    match r {
        Ok(v) => Ok(traces_view(v@)),
        Err(e) => Err(e),
    }
}

/// A copy of a trace.
pub fn copy_trace(t: &OccurrenceTrace) -> (r: OccurrenceTrace)
    ensures
        r@ == t@,
{
    OccurrenceTrace { instant: t.instant, reason: t.reason.clone() }
}

/// Filtering keeps a strictly ascending sequence strictly ascending.
pub proof fn lemma_filter_ascending(ts: Seq<Entry>, pred: spec_fn(Entry) -> bool)
    requires
        ascending(ts),
    ensures
        ascending(ts.filter(pred)),
    decreases ts.len(),
{
    reveal(Seq::filter);
    if ts.len() > 0 {
        let dl = ts.drop_last();
        lemma_filter_ascending(dl, pred);
        let f = dl.filter(pred);
        if pred(ts.last()) {
            assert(ts.filter(pred) == f.push(ts.last()));
            assert forall|k: int| 0 <= k < f.len() implies #[trigger] f[k].0.ms < ts.last().0.ms by {
                assert(f.contains(f[k]));
                dl.lemma_filter_contains_rev(pred, f[k]);
                let m = choose|m: int| 0 <= m < dl.len() && dl[m] == f[k];
                assert(ts[m] == dl[m]);
            }
            assert forall|i: int, j: int|
                0 <= i < j < f.push(ts.last()).len() implies f.push(ts.last())[i].0.ms < f.push(
                ts.last(),
            )[j].0.ms by {
                assert(f.push(ts.last())[i] == f[i]);
                if j < f.len() {
                    assert(f.push(ts.last())[j] == f[j]);
                }
            }
        } else {
            assert(ts.filter(pred) == f);
        }
    }
}

impl Schedule {
    /// Whether the occurrences `occ` of window `(lower, upper)` respect
    /// `max_skip_gap`.
    pub fn check_max_skip_gap(
        &self,
        lower: Instant,
        upper: Instant,
        occurrences: &Vec<OccurrenceTrace>,
        gap_check: GapCheck,
    ) -> (r: Result<(), QueryError>)
        requires
            window_instant(lower.ms as int),
            window_instant(upper.ms as int),
            lower.ms < upper.ms,
            forall|k: int|
                0 <= k < occurrences@.len() ==> lower.ms < #[trigger] occurrences@[k].instant.ms
                    < upper.ms,
        ensures
            r is Ok <==> gap_check_spec(
                *self,
                lower.ms as int,
                upper.ms as int,
                traces_view(occurrences@),
                gap_check,
            ),
            r matches Err(e) ==> e == (QueryError::MaxSkipGapExceeded {
                max_days: self.max_skip_gap->0,
            }),
    {
        let ghost occ = traces_view(occurrences@);
        let max_days = match self.max_skip_gap {
            None => {
                return Ok(());
            },
            Some(m) => m,
        };
        if gap_check == GapCheck::Unchecked {
            return Ok(());
        }
        let max_gap: i64 = max_days as i64 * MS_PER_DAY;
        let mut previous: i64 = if gap_check == GapCheck::OpenHead && occurrences.len() > 0 {
            occurrences[0].instant.ms
        } else {
            lower.ms
        };
        let ghost start = previous as int;
        let mut k: usize = 0;
        while k < occurrences.len()
            invariant
                k <= occurrences@.len(),
                occ == traces_view(occurrences@),
                self.max_skip_gap == Some(max_days),
                gap_check != GapCheck::Unchecked,
                max_gap == max_days * MS_PER_DAY,
                start == (if gap_check == GapCheck::OpenHead && occ.len() > 0 {
                    occ[0].0.ms as int
                } else {
                    lower.ms as int
                }),
                lower.ms <= previous <= upper.ms,
                window_instant(lower.ms as int),
                window_instant(upper.ms as int),
                forall|j: int|
                    0 <= j < occurrences@.len() ==> lower.ms < #[trigger] occurrences@[j].instant.ms
                        < upper.ms,
                k > 0 ==> previous == occ[k - 1].0.ms,
                k == 0 ==> previous == start,
                gaps_within(occ, 0, start, max_gap as int) == gaps_within(
                    occ,
                    k as int,
                    previous as int,
                    max_gap as int,
                ),
            decreases occurrences.len() - k,
        {
            let x = occurrences[k].instant.ms;
            if x - previous > max_gap {
                return Err(QueryError::MaxSkipGapExceeded { max_days });
            }
            previous = x;
            k = k + 1;
        }
        proof {
            if occurrences@.len() > 0 {
                assert(occ.last().0.ms == previous);
            }
            assert(gaps_within(occ, k as int, previous as int, max_gap as int));
        }
        if gap_check != GapCheck::OpenTail && upper.ms - previous > max_gap {
            return Err(QueryError::MaxSkipGapExceeded { max_days });
        }
        Ok(())
    }

    /// Occurrence traces with instant strictly in `(lower, upper)`, ascending,
    /// with start/end bounds applied and the gap check made.
    pub fn try_collect_traces<C: CalendarProvider>(
        &self,
        lower: Instant,
        upper: Instant,
        gap_check: GapCheck,
        cal: &C,
    ) -> (r: Result<Vec<OccurrenceTrace>, QueryError>)
        requires
            frequency_wf(self.freq),
            upper.ms <= lower.ms || (window_instant(lower.ms as int) && window_instant(
                upper.ms as int,
            )),
        ensures
            result_view(r) == collect_spec(*self, *cal, lower, upper, gap_check),
            r matches Ok(v) ==> ascending(traces_view(v@)),
            r matches Ok(v) ==> forall|k: int|
                0 <= k < v@.len() ==> lower.ms < #[trigger] v@[k].instant.ms < upper.ms,
    {
        if upper.ms <= lower.ms {
            let empty: Vec<OccurrenceTrace> = Vec::new();
            assert(traces_view(empty@) =~= Seq::<Entry>::empty());
            return Ok(empty);
        }
        let lo_utc = utc_date(lower);
        let hi_utc = utc_date(upper);
        let lo = Date { days: lo_utc.days - WINDOW_DATE_MARGIN };
        let hi = Date { days: hi_utc.days + WINDOW_DATE_MARGIN };
        proof {
            assert(utc_day(lower.ms as int) >= MIN_DAYS + 1100) by (nonlinear_arith)
                requires
                    window_instant(lower.ms as int),
            ;
            assert(utc_day(upper.ms as int) <= MAX_DAYS - 1100) by (nonlinear_arith)
                requires
                    window_instant(upper.ms as int),
            ;
        }
        let all = match self.generate_traces(lo, hi, cal) {
            Ok(v) => v,
            Err(e) => {
                return Err(e);
            },
        };
        let ghost ts = traces_view(all@);
        let ghost pred = bounds_pred(*self, lower, upper);
        let mut kept: Vec<OccurrenceTrace> = Vec::new();
        let mut i: usize = 0;
        while i < all.len()
            invariant
                i <= all@.len(),
                ts == traces_view(all@),
                pred == bounds_pred(*self, lower, upper),
                traces_view(kept@) == ts.subrange(0, i as int).filter(pred),
            decreases all.len() - i,
        {
            let x = all[i].instant;
            let keep = lower.ms < x.ms && x.ms < upper.ms && match self.start {
                Some(st) => st.ms <= x.ms,
                None => true,
            } && match self.end {
                Some(e) => x.ms < e.ms,
                None => true,
            };
            proof {
                assert(ts.subrange(0, i as int + 1) == ts.subrange(0, i as int).push(ts[i as int]));
                ts.subrange(0, i as int).lemma_filter_push(ts[i as int], pred);
                assert(keep == pred(ts[i as int]));
            }
            if keep {
                kept.push(copy_trace(&all[i]));
                assert(traces_view(kept@) =~= ts.subrange(0, i as int + 1).filter(pred));
            }
            i = i + 1;
        }
        proof {
            assert(ts.subrange(0, ts.len() as int) == ts);
            lemma_filter_ascending(ts, pred);
            assert forall|k: int| 0 <= k < kept@.len() implies lower.ms < #[trigger] kept@[k].instant.ms
                < upper.ms by {
                let f = ts.filter(pred);
                assert(traces_view(kept@)[k] == f[k]);
                ts.lemma_filter_pred(pred, k);
            }
        }
        match self.check_max_skip_gap(lower, upper, &kept, gap_check) {
            Err(e) => Err(e),
            Ok(()) => Ok(kept),
        }
    }
}

} // verus!
