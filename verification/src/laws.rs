//! Properties of the engine that hold across its functions and all inputs.

use crate::calendar::CalendarProvider;
use crate::base::nth_weekday_spec;
use crate::cron::valid_cron_spec;
use crate::base::{cron_times, month_day_date_spec, slots_on};
use crate::cron::cron_fields_spec;
use crate::text::{decimal_spec, digit_spec, pad_zeros};
use crate::civil::{
    Time, civil_days, civil_from_days, lemma_civil_days_injective, month_length, valid_ymd, weekday_index, Date,
    Weekday, MAX_DAYS, MAX_YEAR, MIN_YEAR,
};
use crate::engine::{
    next_span, next_spec, previous_from, previous_spec, since_spec, until_spec, upcoming_from,
    upcoming_spec, ABSOLUTE_HORIZON_DAYS, INITIAL_HORIZON_DAYS,
};
use crate::generate::{
    ascending, displaces, entry_spec, excluded_at, full_series, gen_range, insert_trace, mode_spec, series_index,
    lemma_insert_trace_ascending, made_up, run_back,
    run_fwd, skipped_at,
};
use crate::makeup::{make_up_spec, search_spec, step_limit, steps_outcome_spec, valid_target_spec, MakeupOutcome};
use crate::overlay::{
    any_outcome_spec, in_calendar_spec, overlay_outcome_spec, overlay_result_spec, survives_spec,
};
use crate::query::{collect_spec, gaps_within, in_bounds, window_spec, Entry, GapCheck};
use crate::schedule::{
    dedup_seq, deduped_frequency, lemma_dedup_seq_props, same_except_freq, schedule_error, Frequency, Makeup,
    MakeupDirection, MakeupFailure, MonthDay, Nth, NthWeekday, Overlay, OverlayCalendar, OverlayRule,
    CalendarSpec, Schedule, ScheduleError, WeekdayMakeup, first_month_day_error,
    month_day_error,
};
use crate::base::Slot;
use crate::zone::{
    resolution_at, resolution_spec, resolve_spec, shift_search, Instant, LocalResolution, Nonexistent,
    ResolvedOccurrence, MAX_SHIFT_MINUTES,
};
use vstd::prelude::*;

verus! {

/// Generated traces are strictly ascending by instant (de-duplicated).
pub proof fn law_generated_ascending<C: CalendarProvider>(
    s: Schedule,
    cal: C,
    base: Seq<Slot>,
    a: int,
    n: int,
)
    ensures
        gen_range(s, cal, base, a, n) matches Ok(ts) ==> ascending(ts),
    decreases n - a,
{
    if n > a {
        law_generated_ascending(s, cal, base, a, n - 1);
        match gen_range(s, cal, base, a, n - 1) {
            Ok(acc) => match crate::generate::entry_spec(s, cal, base, n - 1) {
                Ok(Some(t)) => lemma_insert_trace_ascending(acc, t),
                _ => {},
            },
            Err(_) => {},
        }
    }
}

/// Whether `acc` holds a base (not made-up) trace at instant `x`.
pub open spec fn has_base_at(acc: Seq<Entry>, x: Instant) -> bool {
    exists|i: int| 0 <= i < acc.len() && (#[trigger] acc[i]).0 == x && !made_up(acc[i])
}

proof fn lemma_insert_keeps_base(acc: Seq<Entry>, t: Entry, x: Instant)
    requires
        has_base_at(acc, x),
    ensures
        has_base_at(insert_trace(acc, t), x),
    decreases acc.len(),
{
    let i = choose|i: int| 0 <= i < acc.len() && (#[trigger] acc[i]).0 == x && !made_up(acc[i]);
    let r = insert_trace(acc, t);
    let n = acc.len() - 1;
    if acc.last().0.ms < t.0.ms {
        assert(r[i] == acc[i]);
    } else if acc.last().0.ms == t.0.ms {
        if displaces(t, acc.last()) {
            assert(i != n);
            assert(r[i] == acc[i]);
        }
    } else {
        let dl = acc.drop_last();
        if i == n {
            assert(r[r.len() - 1] == acc.last());
        } else {
            assert(dl[i] == acc[i]);
            lemma_insert_keeps_base(dl, t, x);
            let j = choose|j: int|
                0 <= j < insert_trace(dl, t).len() && (#[trigger] insert_trace(dl, t)[j]).0 == x
                    && !made_up(insert_trace(dl, t)[j]);
            assert(r[j] == insert_trace(dl, t)[j]);
        }
    }
}

proof fn lemma_insert_adds_base(acc: Seq<Entry>, t: Entry)
    requires
        !made_up(t),
    ensures
        has_base_at(insert_trace(acc, t), t.0),
    decreases acc.len(),
{
    let r = insert_trace(acc, t);
    if acc.len() == 0 {
        assert(r[0] == t);
    } else if acc.last().0.ms < t.0.ms {
        assert(r[r.len() - 1] == t);
    } else if acc.last().0.ms == t.0.ms {
        if displaces(t, acc.last()) {
            assert(r[r.len() - 1] == t);
        } else {
            assert(acc.last().0 == t.0);
            assert(r[r.len() - 1] == acc.last());
        }
    } else {
        let dl = acc.drop_last();
        lemma_insert_adds_base(dl, t);
        let j = choose|j: int|
            0 <= j < insert_trace(dl, t).len() && (#[trigger] insert_trace(dl, t)[j]).0 == t.0
                && !made_up(insert_trace(dl, t)[j]);
        assert(r[j] == insert_trace(dl, t)[j]);
    }
}

/// Base occurrences come first: wherever a slot contributes a base (not
/// made-up) occurrence, the generated traces hold a base trace at its
/// instant; a made-up occurrence never displaces one.
pub proof fn law_generated_base_first<C: CalendarProvider>(
    s: Schedule,
    cal: C,
    base: Seq<Slot>,
    a: int,
    n: int,
)
    ensures
        gen_range(s, cal, base, a, n) matches Ok(acc) ==> forall|j: int|
            a <= j < n ==> (#[trigger] entry_spec(s, cal, base, j) matches Ok(Some(t)) ==> (!made_up(
                t,
            ) ==> has_base_at(acc, t.0))),
    decreases n - a,
{
    if n > a {
        law_generated_base_first(s, cal, base, a, n - 1);
        match gen_range(s, cal, base, a, n - 1) {
            Ok(acc) => match entry_spec(s, cal, base, n - 1) {
                Ok(Some(t)) => {
                    assert forall|j: int|
                        a <= j < n implies (#[trigger] entry_spec(s, cal, base, j) matches Ok(
                        Some(t2),
                    ) ==> (!made_up(t2) ==> has_base_at(insert_trace(acc, t), t2.0))) by {
                        match entry_spec(s, cal, base, j) {
                            Ok(Some(t2)) => if !made_up(t2) {
                                if j == n - 1 {
                                    lemma_insert_adds_base(acc, t);
                                } else {
                                    lemma_insert_keeps_base(acc, t, t2.0);
                                }
                            },
                            _ => {},
                        }
                    }
                },
                _ => {},
            },
            Err(_) => {},
        }
    }
}

/// A window's occurrences are strictly ascending, strictly inside the
/// window, not before the schedule's start and before its end.
pub proof fn law_collect_ordered_in_bounds<C: CalendarProvider>(
    s: Schedule,
    cal: C,
    lower: Instant,
    upper: Instant,
    gap: GapCheck,
)
    ensures
        collect_spec(s, cal, lower, upper, gap) matches Ok(v) ==> ascending(v) && forall|k: int|
            0 <= k < v.len() ==> in_bounds(s, lower, upper, #[trigger] v[k].0),
{
    if upper.ms > lower.ms {
        match window_spec(s, cal, lower, upper) {
            Ok(ts) => {
                let lo = crate::zone::utc_day(lower.ms as int) - crate::query::WINDOW_DATE_MARGIN;
                let hi = crate::zone::utc_day(upper.ms as int) + crate::query::WINDOW_DATE_MARGIN;
                law_generated_ascending(
                    s,
                    cal,
                    full_series(s.freq),
                    series_index(s.freq, lo),
                    series_index(s.freq, hi + 1),
                );
                let pred = crate::query::bounds_pred(s, lower, upper);
                crate::query::lemma_filter_ascending(ts, pred);
                assert forall|k: int| 0 <= k < ts.filter(pred).len() implies in_bounds(
                    s,
                    lower,
                    upper,
                    #[trigger] ts.filter(pred)[k].0,
                ) by {
                    ts.lemma_filter_pred(pred, k);
                }
            },
            Err(_) => {},
        }
    }
}

/// `until` lists strictly ascending occurrences strictly inside
/// `(after, before)`, not before the start and before the end.
pub proof fn law_until_ordered_in_bounds<C: CalendarProvider>(
    s: Schedule,
    cal: C,
    before: Instant,
    after: Instant,
)
    ensures
        until_spec(s, cal, before, after) matches Ok(v) ==> ascending(v) && forall|k: int|
            0 <= k < v.len() ==> in_bounds(s, after, before, #[trigger] v[k].0),
{
    law_collect_ordered_in_bounds(s, cal, after, before, GapCheck::Closed);
}

/// Gaps checked from position `k` on hold between each occurrence and the
/// one before it.
proof fn lemma_gaps_pairwise(occ: Seq<Entry>, k: int, prev: int, g: int)
    requires
        0 <= k,
        gaps_within(occ, k, prev, g),
    ensures
        k < occ.len() ==> occ[k].0.ms - prev <= g,
        forall|i: int, j: int|
            k <= i && j == i + 1 && j < occ.len() ==> #[trigger] occ[j].0.ms - #[trigger] occ[i].0.ms
                <= g,
    decreases occ.len() - k,
{
    if k < occ.len() {
        lemma_gaps_pairwise(occ, k + 1, occ[k].0.ms as int, g);
    }
}

/// `until` respects `max_skip_gap`: when it succeeds for a schedule whose
/// `max_skip_gap` is `m` days, its first occurrence is at most `m` days after
/// `after`, each occurrence at most `m` days after the one before, and
/// `before` at most `m` days after the last occurrence (after `after`, when
/// there is none).
pub proof fn law_until_respects_max_skip_gap<C: CalendarProvider>(
    s: Schedule,
    cal: C,
    before: Instant,
    after: Instant,
)
    requires
        s.max_skip_gap is Some,
        after.ms < before.ms,
    ensures
        until_spec(s, cal, before, after) matches Ok(v) ==> {
            let g = s.max_skip_gap->0 * crate::zone::MS_PER_DAY;
            &&& v.len() > 0 ==> v[0].0.ms - after.ms <= g
            &&& forall|i: int, j: int|
                0 <= i && j == i + 1 && j < v.len() ==> #[trigger] v[j].0.ms - #[trigger] v[i].0.ms
                    <= g
            &&& before.ms - (if v.len() > 0 {
                v.last().0.ms as int
            } else {
                after.ms as int
            }) <= g
        },
{
    match until_spec(s, cal, before, after) {
        Ok(v) => {
            let g = s.max_skip_gap->0 * crate::zone::MS_PER_DAY;
            lemma_gaps_pairwise(v, 0, after.ms as int, g);
        },
        Err(_) => {},
    }
}

/// `since` is `until` over the same window, reversed, and fails exactly when
/// `until` does, with the same error.
pub proof fn law_since_reverses_until<C: CalendarProvider>(
    s: Schedule,
    cal: C,
    after: Instant,
    before: Instant,
)
    ensures
        match until_spec(s, cal, before, after) {
            Ok(u) => since_spec(s, cal, after, before) == Ok::<Seq<Entry>, crate::generate::QueryError>(
                u.reverse(),
            ),
            Err(e) => since_spec(s, cal, after, before) == Err::<Seq<Entry>, crate::generate::QueryError>(
                e,
            ),
        },
{
}

/// `since` lists strictly descending occurrences.
pub proof fn law_since_descending<C: CalendarProvider>(
    s: Schedule,
    cal: C,
    after: Instant,
    before: Instant,
)
    ensures
        since_spec(s, cal, after, before) matches Ok(v) ==> forall|i: int, j: int|
            0 <= i < j < v.len() ==> v[i].0.ms > v[j].0.ms,
{
    law_collect_ordered_in_bounds(s, cal, after, before, GapCheck::Closed);
    match collect_spec(s, cal, after, before, GapCheck::Closed) {
        Ok(u) => {
            assert forall|i: int, j: int| 0 <= i < j < u.reverse().len() implies u.reverse()[i].0.ms
                > u.reverse()[j].0.ms by {
                assert(u.reverse()[i] == u[u.len() - 1 - i]);
                assert(u.reverse()[j] == u[u.len() - 1 - j]);
            }
        },
        Err(_) => {},
    }
}

/// What `upcoming` promises of its result `v` for `n` and `after`: at most
/// `n` occurrences, strictly ascending, all after `after`, none before the
/// start or at/after the end.
pub open spec fn upcoming_ok(s: Schedule, n: nat, after: Instant, v: Seq<Entry>) -> bool {
    &&& v.len() <= n
    &&& ascending(v)
    &&& forall|k: int|
        0 <= k < v.len() ==> after.ms < #[trigger] v[k].0.ms && (s.start matches Some(st) ==> st.ms
            <= v[k].0.ms) && (s.end matches Some(e) ==> v[k].0.ms < e.ms)
}

proof fn lemma_upcoming_from_ok<C: CalendarProvider>(
    s: Schedule,
    cal: C,
    n: nat,
    after: Instant,
    span: int,
)
    requires
        1 <= span <= ABSOLUTE_HORIZON_DAYS,
    ensures
        upcoming_from(s, cal, n, after, span) matches Ok(v) ==> upcoming_ok(s, n, after, v),
    decreases ABSOLUTE_HORIZON_DAYS - span,
{
    let cap = crate::engine::forward_cap(s, after);
    let upper = crate::engine::min_int(after.ms + span * crate::zone::MS_PER_DAY, cap);
    let ui = Instant { ms: upper as i64 };
    law_collect_ordered_in_bounds(s, cal, after, ui, GapCheck::Unchecked);
    match collect_spec(s, cal, after, ui, GapCheck::Unchecked) {
        Ok(occ) => {
            if occ.len() >= n {
                let v = occ.take(n as int);
                assert forall|k: int| 0 <= k < v.len() implies after.ms < #[trigger] v[k].0.ms && (
                s.start matches Some(st) ==> st.ms <= v[k].0.ms) && (s.end matches Some(e)
                    ==> v[k].0.ms < e.ms) by {
                    assert(v[k] == occ[k]);
                    assert(in_bounds(s, after, ui, occ[k].0));
                }
                assert forall|i: int, j: int| 0 <= i < j < v.len() implies v[i].0.ms < v[j].0.ms by {
                    assert(v[i] == occ[i]);
                    assert(v[j] == occ[j]);
                }
            } else if upper >= cap {
                assert forall|k: int| 0 <= k < occ.len() implies after.ms < #[trigger] occ[k].0.ms
                    && (s.start matches Some(st) ==> st.ms <= occ[k].0.ms) && (s.end matches Some(
                    e,
                ) ==> occ[k].0.ms < e.ms) by {
                    assert(in_bounds(s, after, ui, occ[k].0));
                }
            } else {
                lemma_upcoming_from_ok(s, cal, n, after, next_span(span));
            }
        },
        Err(_) => {},
    }
}

/// `upcoming` returns at most `n` occurrences, strictly ascending, all
/// strictly after `after`, none before the start or at/after the end.
pub proof fn law_upcoming_ok<C: CalendarProvider>(s: Schedule, cal: C, n: nat, after: Instant)
    ensures
        upcoming_spec(s, cal, n, after) matches Ok(v) ==> upcoming_ok(s, n, after, v),
{
    if n > 0 {
        lemma_upcoming_from_ok(s, cal, n, after, INITIAL_HORIZON_DAYS as int);
    }
}

/// `next` is strictly after its reference instant, not before the start and
/// before the end.
pub proof fn law_next_strictly_after<C: CalendarProvider>(s: Schedule, cal: C, after: Instant)
    ensures
        next_spec(s, cal, after) matches Ok(Some(t)) ==> after.ms < t.0.ms && (s.start matches Some(
            st,
        ) ==> st.ms <= t.0.ms) && (s.end matches Some(e) ==> t.0.ms < e.ms),
{
    law_upcoming_ok(s, cal, 1, after);
}

proof fn lemma_previous_from_ok<C: CalendarProvider>(
    s: Schedule,
    cal: C,
    before: Instant,
    span: int,
)
    requires
        1 <= span <= ABSOLUTE_HORIZON_DAYS,
    ensures
        previous_from(s, cal, before, span) matches Ok(Some(t)) ==> t.0.ms < before.ms && (
        s.start matches Some(st) ==> st.ms <= t.0.ms) && (s.end matches Some(e) ==> t.0.ms < e.ms),
    decreases ABSOLUTE_HORIZON_DAYS - span,
{
    let cap = crate::engine::backward_cap(s, before);
    let lower = crate::engine::max_int(before.ms - span * crate::zone::MS_PER_DAY, cap);
    let li = Instant { ms: lower as i64 };
    law_collect_ordered_in_bounds(s, cal, li, before, GapCheck::Unchecked);
    match collect_spec(s, cal, li, before, GapCheck::Unchecked) {
        Ok(occ) => {
            if occ.len() > 0 {
                assert(in_bounds(s, li, before, occ[occ.len() - 1].0));
            } else if lower <= cap {
            } else {
                lemma_previous_from_ok(s, cal, before, next_span(span));
            }
        },
        Err(_) => {},
    }
}

/// `previous` is strictly before its reference instant, not before the start
/// and before the end.
pub proof fn law_previous_strictly_before<C: CalendarProvider>(
    s: Schedule,
    cal: C,
    before: Instant,
)
    ensures
        previous_spec(s, cal, before) matches Ok(Some(t)) ==> t.0.ms < before.ms && (
        s.start matches Some(st) ==> st.ms <= t.0.ms) && (s.end matches Some(e) ==> t.0.ms < e.ms),
{
    lemma_previous_from_ok(s, cal, before, INITIAL_HORIZON_DAYS as int);
}

proof fn lemma_overlay_result_all<C: CalendarProvider>(os: Seq<crate::schedule::Overlay>, i: int, date: Date, cal: C)
    requires
        0 <= i <= os.len(),
    ensures
        overlay_result_spec(os, i, date, cal).0 <==> forall|k: int|
            i <= k < os.len() ==> (#[trigger] overlay_outcome_spec(os[k], date, cal)).0,
    decreases os.len() - i,
{
    if i < os.len() {
        lemma_overlay_result_all(os, i + 1, date, cal);
    }
}

/// Top-level overlays are ANDed: a date survives exactly when it passes
/// every overlay.
pub proof fn law_overlays_anded<C: CalendarProvider>(s: Schedule, date: Date, cal: C)
    ensures
        survives_spec(s, date, cal) <==> forall|k: int|
            0 <= k < s.overlays@.len() ==> (#[trigger] overlay_outcome_spec(
                s.overlays@[k],
                date,
                cal,
            )).0,
{
    lemma_overlay_result_all(s.overlays@, 0, date, cal);
}

proof fn lemma_any_outcome_some<C: CalendarProvider>(os: Seq<crate::schedule::Overlay>, i: int, date: Date, cal: C)
    requires
        0 <= i <= os.len(),
    ensures
        any_outcome_spec(os, i, date, cal).0 <==> exists|k: int|
            i <= k < os.len() && (#[trigger] overlay_outcome_spec(os[k], date, cal)).0,
    decreases os.len() - i,
{
    if i < os.len() {
        lemma_any_outcome_some(os, i + 1, date, cal);
        if overlay_outcome_spec(os[i], date, cal).0 {
            assert(i <= i < os.len() && overlay_outcome_spec(os[i], date, cal).0);
        }
    }
}

/// An `any` group passes exactly when one of its children passes.
pub proof fn law_any_group_passes<C: CalendarProvider>(g: crate::schedule::OverlayAny, date: Date, cal: C)
    ensures
        overlay_outcome_spec(crate::schedule::Overlay::Any(g), date, cal).0 <==> exists|k: int|
            0 <= k < g.any@.len() && (#[trigger] overlay_outcome_spec(g.any@[k], date, cal)).0,
{
    lemma_any_outcome_some(g.any@, 0, date, cal);
}

/// With makeup off, a dropped occurrence is never moved: makeup is disabled
/// and `makeup_failure` does not apply.
pub proof fn law_makeup_off_disables<C: CalendarProvider>(
    s: Schedule,
    cal: C,
    date: Date,
    prev: Option<Date>,
    next: Option<Date>,
)
    ensures
        make_up_spec(s, cal, date, prev, next, Makeup::Skip) == MakeupOutcome::Disabled,
{
}

proof fn lemma_search_zero<C: CalendarProvider>(
    s: Schedule,
    cal: C,
    date: Date,
    prev: Option<Date>,
    next: Option<Date>,
    steps: Seq<crate::schedule::MakeupStep>,
    i: int,
    attempted: bool,
)
    requires
        s.max_makeup_hops == Some(0u32),
    ensures
        !(steps_outcome_spec(s, cal, date, prev, next, steps, i, attempted) is Moved),
    decreases steps.len() - i,
{
    if 0 <= i < steps.len() {
        lemma_search_zero(s, cal, date, prev, next, steps, i + 1, true);
    }
}

/// `max_makeup_hops` of zero never moves a dropped occurrence.
pub proof fn law_zero_hops_never_moves<C: CalendarProvider>(
    s: Schedule,
    cal: C,
    date: Date,
    prev: Option<Date>,
    next: Option<Date>,
    makeup: Makeup,
)
    requires
        s.max_makeup_hops == Some(0u32),
    ensures
        !(make_up_spec(s, cal, date, prev, next, makeup) is Moved),
{
    lemma_search_zero(s, cal, date, prev, next, makeup.steps_spec(date.weekday_spec()), 0, false);
}

/// A search result is a valid target within the search's hops.
proof fn lemma_search_first<C: CalendarProvider>(
    s: Schedule,
    cal: C,
    date: Date,
    prev: Option<Date>,
    next: Option<Date>,
    dir: crate::schedule::MakeupDirection,
    max_hops: int,
    k: int,
)
    requires
        1 <= k,
        max_hops <= 14,
        crate::base::engine_day(date.days as int),
    ensures
        search_spec(s, cal, date, prev, next, dir, max_hops, k) matches Some(d) ==> {
            &&& valid_target_spec(s, cal, date, d, prev, next)
            &&& (date.days + k <= d.days <= date.days + max_hops || date.days - max_hops <= d.days
                <= date.days - k)
        },
    decreases max_hops + 1 - k,
{
    if k <= max_hops {
        lemma_search_first(s, cal, date, prev, next, dir, max_hops, k + 1);
    }
}

/// A moved occurrence lands on a date that passes every overlay and every
/// destination constraint, one to fourteen days away.
pub proof fn law_makeup_destination_valid<C: CalendarProvider>(
    s: Schedule,
    cal: C,
    date: Date,
    prev: Option<Date>,
    next: Option<Date>,
    makeup: Makeup,
)
    requires
        crate::base::engine_day(date.days as int),
    ensures
        make_up_spec(s, cal, date, prev, next, makeup) matches MakeupOutcome::Moved(d) ==> {
            &&& valid_target_spec(s, cal, date, d, prev, next)
            &&& survives_spec(s, d, cal)
            &&& (date.days + 1 <= d.days <= date.days + 14 || date.days - 14 <= d.days <= date.days
                - 1)
        },
{
    lemma_steps_first(s, cal, date, prev, next, makeup.steps_spec(date.weekday_spec()), 0, false);
}

proof fn lemma_steps_first<C: CalendarProvider>(
    s: Schedule,
    cal: C,
    date: Date,
    prev: Option<Date>,
    next: Option<Date>,
    steps: Seq<crate::schedule::MakeupStep>,
    i: int,
    attempted: bool,
)
    requires
        crate::base::engine_day(date.days as int),
    ensures
        steps_outcome_spec(s, cal, date, prev, next, steps, i, attempted) matches MakeupOutcome::Moved(
            d,
        ) ==> {
            &&& valid_target_spec(s, cal, date, d, prev, next)
            &&& (date.days + 1 <= d.days <= date.days + 14 || date.days - 14 <= d.days <= date.days
                - 1)
        },
    decreases steps.len() - i,
{
    if 0 <= i < steps.len() {
        let (dir, mh) = steps[i].parts_spec();
        let limit = step_limit(s, mh);
        lemma_search_first(s, cal, date, prev, next, dir, limit, 1);
        lemma_steps_first(s, cal, date, prev, next, steps, i + 1, true);
    }
}

proof fn lemma_search_later<C: CalendarProvider>(
    s: Schedule,
    cal: C,
    date: Date,
    prev: Option<Date>,
    next: Option<Date>,
    max_hops: int,
    k: int,
)
    requires
        1 <= k,
        max_hops <= 14,
        crate::base::engine_day(date.days as int),
    ensures
        search_spec(s, cal, date, prev, next, crate::schedule::MakeupDirection::After, max_hops, k) matches Some(d) ==> {
            &&& date.days + k <= d.days
            &&& forall|h: int|
                k <= h < d.days - date.days ==> !valid_target_spec(
                    s,
                    cal,
                    date,
                    #[trigger] crate::makeup::shift(date, h),
                    prev,
                    next,
                )
        },
    decreases max_hops + 1 - k,
{
    if k <= max_hops {
        lemma_search_later(s, cal, date, prev, next, max_hops, k + 1);
    }
}

/// `after` makeup moves to the nearest later valid day: no day in between
/// would do.
pub proof fn law_after_makeup_nearest<C: CalendarProvider>(
    s: Schedule,
    cal: C,
    date: Date,
    prev: Option<Date>,
    next: Option<Date>,
)
    requires
        crate::base::engine_day(date.days as int),
    ensures
        make_up_spec(s, cal, date, prev, next, Makeup::After) matches MakeupOutcome::Moved(d) ==> {
            &&& date.days < d.days
            &&& forall|h: int|
                1 <= h < d.days - date.days ==> !valid_target_spec(
                    s,
                    cal,
                    date,
                    #[trigger] crate::makeup::shift(date, h),
                    prev,
                    next,
                )
        },
{
    let limit = step_limit(s, None);
    lemma_search_later(s, cal, date, prev, next, limit, 1);
    let steps = Makeup::After.steps_spec(date.weekday_spec());
    assert(steps =~= seq![
        crate::schedule::MakeupStep::Direction(crate::schedule::MakeupDirection::After),
    ]);
    assert(steps[0].parts_spec() == (crate::schedule::MakeupDirection::After, None::<u32>));
    assert(steps_outcome_spec(s, cal, date, prev, next, steps, 1, true) == MakeupOutcome::Failed);
}

/// A threshold skip drops whole runs: the excluded neighbours of a skipped
/// slot are skipped too.
pub proof fn law_skipped_runs_whole<C: CalendarProvider>(
    s: Schedule,
    cal: C,
    base: Seq<Slot>,
    i: int,
)
    requires
        0 <= i,
        i + 1 < base.len(),
        excluded_at(s, cal, base, i),
        excluded_at(s, cal, base, i + 1),
    ensures
        skipped_at(s, cal, base, i) <==> skipped_at(s, cal, base, i + 1),
{
    assert(run_back(s, cal, base, i + 1) == run_back(s, cal, base, i) + 1);
    assert(run_fwd(s, cal, base, i) == run_fwd(s, cal, base, i + 1) + 1);
}

/// A sequence without repeats is its own de-duplication.
pub proof fn lemma_dedup_seq_distinct<T>(s: Seq<T>)
    requires
        s.no_duplicates(),
    ensures
        dedup_seq(s) == s,
    decreases s.len(),
{
    if s.len() > 0 {
        let dl = s.drop_last();
        assert(dl.no_duplicates()) by {
            assert forall|i: int, j: int| 0 <= i < dl.len() && 0 <= j < dl.len() && i != j implies dl[i]
                != dl[j] by {
                assert(dl[i] == s[i] && dl[j] == s[j]);
            }
        }
        lemma_dedup_seq_distinct(dl);
        assert(!dl.contains(s.last())) by {
            if dl.contains(s.last()) {
                let k = choose|k: int| 0 <= k < dl.len() && dl[k] == s.last();
                assert(s[k] == s[s.len() - 1]);
            }
        }
        assert(dl.push(s.last()) =~= s);
    }
}

/// De-duplication is idempotent: validating a validated schedule changes
/// none of its selections.
pub proof fn law_dedup_idempotent<T>(s: Seq<T>)
    ensures
        dedup_seq(dedup_seq(s)) == dedup_seq(s),
{
    lemma_dedup_seq_props(s);
    lemma_dedup_seq_distinct(dedup_seq(s));
}

/// Two frequencies of the same kind with the same fields, their day and
/// weekday lists holding the same entries in the same order.
pub open spec fn same_frequency(a: Frequency, b: Frequency) -> bool {
    match (a, b) {
        (Frequency::Weekly { days: d1, time: t1 }, Frequency::Weekly { days: d0, time: t0 }) => d1@
            == d0@ && t1 == t0,
        (
            Frequency::EveryNWeeks { interval: i1, start_date: s1, days: d1, time: t1 },
            Frequency::EveryNWeeks { interval: i0, start_date: s0, days: d0, time: t0 },
        ) => i1 == i0 && s1 == s0 && d1@ == d0@ && t1 == t0,
        (
            Frequency::MonthlyByDay { days: d1, time: t1 },
            Frequency::MonthlyByDay { days: d0, time: t0 },
        ) => d1@ == d0@ && t1 == t0,
        (
            Frequency::MonthlyByWeekday { weekdays: w1, time: t1 },
            Frequency::MonthlyByWeekday { weekdays: w0, time: t0 },
        ) => w1@ == w0@ && t1 == t0,
        (Frequency::CustomCron { expr: e1 }, Frequency::CustomCron { expr: e0 }) => e1@ == e0@,
        (Frequency::Hourly { .. }, _) => a == b,
        (Frequency::Daily { .. }, _) => a == b,
        (Frequency::EveryNDays { .. }, _) => a == b,
        (Frequency::Yearly { .. }, _) => a == b,
        (Frequency::Quarterly { .. }, _) => a == b,
        _ => false,
    }
}

/// Validation is idempotent: where `s1` and `r1` are what `validate` makes
/// of `s0` and returns, and `s2` and `r2` what it then makes of `s1` and
/// returns, the second call returns the same result and changes nothing:
/// the frequency keeps its fields and its lists their entries and order,
/// and every other field stays.
pub proof fn law_validate_idempotent(
    s0: Schedule,
    s1: Schedule,
    r1: Result<(), ScheduleError>,
    s2: Schedule,
    r2: Result<(), ScheduleError>,
)
    requires
        deduped_frequency(s1.freq, s0.freq),
        same_except_freq(s1, s0),
        r1 is Err <==> schedule_error(s1) is Some,
        r1 matches Err(e) ==> schedule_error(s1) == Some(e),
        deduped_frequency(s2.freq, s1.freq),
        same_except_freq(s2, s1),
        r2 is Err <==> schedule_error(s2) is Some,
        r2 matches Err(e) ==> schedule_error(s2) == Some(e),
    ensures
        same_frequency(s2.freq, s1.freq),
        same_except_freq(s2, s1),
        r2 == r1,
{
    match (s1.freq, s0.freq) {
        (Frequency::Weekly { days: d1, .. }, Frequency::Weekly { days: d0, .. }) => {
            law_dedup_idempotent(d0@);
        },
        (Frequency::EveryNWeeks { days: d1, .. }, Frequency::EveryNWeeks { days: d0, .. }) => {
            law_dedup_idempotent(d0@);
        },
        (Frequency::MonthlyByDay { days: d1, .. }, Frequency::MonthlyByDay { days: d0, .. }) => {
            law_dedup_idempotent(d0@);
        },
        (
            Frequency::MonthlyByWeekday { weekdays: w1, .. },
            Frequency::MonthlyByWeekday { weekdays: w0, .. },
        ) => {
            law_dedup_idempotent(w0@);
        },
        _ => {},
    }
    assert(schedule_error(s2) == schedule_error(s1));
    match (r1, r2) {
        (Ok(u1), Ok(u2)) => {
            assert(u1 == u2);
        },
        _ => {},
    }
}

proof fn lemma_any_in_calendar_exists<C: CalendarProvider>(
    cs: Seq<crate::schedule::CalendarSpec>,
    i: int,
    date: Date,
    cal: C,
)
    requires
        0 <= i <= cs.len(),
    ensures
        crate::overlay::any_in_calendar(cs, i, date, cal) <==> exists|k: int|
            i <= k < cs.len() && #[trigger] crate::overlay::in_calendar_spec(cs[k], date, cal),
    decreases cs.len() - i,
{
    if i < cs.len() {
        lemma_any_in_calendar_exists(cs, i + 1, date, cal);
        if crate::overlay::in_calendar_spec(cs[i], date, cal) {
            assert(i <= i < cs.len() && crate::overlay::in_calendar_spec(cs[i], date, cal));
        }
    }
}

/// A `union` calendar holds the dates of any of its children.
pub proof fn law_union_membership<C: CalendarProvider>(
    union: Seq<crate::schedule::CalendarSpec>,
    date: Date,
    cal: C,
)
    ensures
        crate::overlay::any_in_calendar(union, 0, date, cal) <==> exists|k: int|
            0 <= k < union.len() && #[trigger] crate::overlay::in_calendar_spec(union[k], date, cal),
{
    lemma_any_in_calendar_exists(union, 0, date, cal);
}

/// A `diff` calendar holds the dates of its first child that no later child
/// holds.
pub proof fn law_diff_membership<C: CalendarProvider>(
    diff: Seq<crate::schedule::CalendarSpec>,
    date: Date,
    cal: C,
)
    ensures
        (diff.len() > 0 && crate::overlay::first_in_calendar(diff, date, cal)
            && !crate::overlay::any_in_calendar(diff, 1, date, cal)) <==> (diff.len() > 0
            && crate::overlay::in_calendar_spec(diff[0], date, cal) && forall|k: int|
            1 <= k < diff.len() ==> !#[trigger] crate::overlay::in_calendar_spec(diff[k], date, cal)),
{
    if diff.len() > 0 {
        lemma_any_in_calendar_exists(diff, 1, date, cal);
    }
}

proof fn lemma_search_nearest<C: CalendarProvider>(
    s: Schedule,
    cal: C,
    date: Date,
    prev: Option<Date>,
    next: Option<Date>,
    max_hops: int,
    k: int,
)
    requires
        1 <= k,
        max_hops <= 14,
        crate::base::engine_day(date.days as int),
    ensures
        search_spec(s, cal, date, prev, next, crate::schedule::MakeupDirection::Nearest, max_hops, k) matches Some(d) ==> {
            let h = if d.days >= date.days {
                d.days - date.days
            } else {
                date.days - d.days
            };
            &&& k <= h
            &&& (d == crate::makeup::shift(date, h) || d == crate::makeup::shift(date, -h))
            &&& (d.days < date.days ==> !valid_target_spec(
                s,
                cal,
                date,
                crate::makeup::shift(date, h),
                prev,
                next,
            ))
            &&& forall|j: int|
                k <= j < h ==> !valid_target_spec(
                    s,
                    cal,
                    date,
                    #[trigger] crate::makeup::shift(date, j),
                    prev,
                    next,
                ) && !valid_target_spec(s, cal, date, crate::makeup::shift(date, -j), prev, next)
        },
    decreases max_hops + 1 - k,
{
    if k <= max_hops {
        lemma_search_nearest(s, cal, date, prev, next, max_hops, k + 1);
    }
}

/// `nearest` makeup moves to the closest valid day, the later one when two
/// are equally close: no closer day on either side would do.
pub proof fn law_nearest_makeup_closest<C: CalendarProvider>(
    s: Schedule,
    cal: C,
    date: Date,
    prev: Option<Date>,
    next: Option<Date>,
)
    requires
        crate::base::engine_day(date.days as int),
    ensures
        make_up_spec(s, cal, date, prev, next, Makeup::Nearest) matches MakeupOutcome::Moved(d) ==> {
            let h = if d.days >= date.days {
                d.days - date.days
            } else {
                date.days - d.days
            };
            &&& 1 <= h
            &&& (d.days < date.days ==> !valid_target_spec(
                s,
                cal,
                date,
                crate::makeup::shift(date, h),
                prev,
                next,
            ))
            &&& forall|j: int|
                1 <= j < h ==> !valid_target_spec(
                    s,
                    cal,
                    date,
                    #[trigger] crate::makeup::shift(date, j),
                    prev,
                    next,
                ) && !valid_target_spec(s, cal, date, crate::makeup::shift(date, -j), prev, next)
        },
{
    let limit = step_limit(s, None);
    lemma_search_nearest(s, cal, date, prev, next, limit, 1);
    let steps = Makeup::Nearest.steps_spec(date.weekday_spec());
    assert(steps =~= seq![
        crate::schedule::MakeupStep::Direction(crate::schedule::MakeupDirection::Nearest),
    ]);
    assert(steps[0].parts_spec() == (crate::schedule::MakeupDirection::Nearest, None::<u32>));
    assert(steps_outcome_spec(s, cal, date, prev, next, steps, 1, true) == MakeupOutcome::Failed);
}

proof fn lemma_search_earlier<C: CalendarProvider>(
    s: Schedule,
    cal: C,
    date: Date,
    prev: Option<Date>,
    next: Option<Date>,
    max_hops: int,
    k: int,
)
    requires
        1 <= k,
        max_hops <= 14,
        crate::base::engine_day(date.days as int),
    ensures
        search_spec(s, cal, date, prev, next, crate::schedule::MakeupDirection::Before, max_hops, k) matches Some(d) ==> {
            &&& d.days <= date.days - k
            &&& forall|h: int|
                k <= h < date.days - d.days ==> !valid_target_spec(
                    s,
                    cal,
                    date,
                    #[trigger] crate::makeup::shift(date, -h),
                    prev,
                    next,
                )
        },
    decreases max_hops + 1 - k,
{
    if k <= max_hops {
        lemma_search_earlier(s, cal, date, prev, next, max_hops, k + 1);
    }
}

/// `before` makeup moves to the nearest earlier valid day: no day in between
/// would do.
pub proof fn law_before_makeup_nearest<C: CalendarProvider>(
    s: Schedule,
    cal: C,
    date: Date,
    prev: Option<Date>,
    next: Option<Date>,
)
    requires
        crate::base::engine_day(date.days as int),
    ensures
        make_up_spec(s, cal, date, prev, next, Makeup::Before) matches MakeupOutcome::Moved(d) ==> {
            &&& d.days < date.days
            &&& forall|h: int|
                1 <= h < date.days - d.days ==> !valid_target_spec(
                    s,
                    cal,
                    date,
                    #[trigger] crate::makeup::shift(date, -h),
                    prev,
                    next,
                )
        },
{
    let limit = step_limit(s, None);
    lemma_search_earlier(s, cal, date, prev, next, limit, 1);
    let steps = Makeup::Before.steps_spec(date.weekday_spec());
    assert(steps =~= seq![
        crate::schedule::MakeupStep::Direction(crate::schedule::MakeupDirection::Before),
    ]);
    assert(steps[0].parts_spec() == (crate::schedule::MakeupDirection::Before, None::<u32>));
    assert(steps_outcome_spec(s, cal, date, prev, next, steps, 1, true) == MakeupOutcome::Failed);
}

/// Whether day-of-month `dd` lies in the week of the month that `nth` names,
/// in a month of `len` days: days 1 to 7 for the first, 8 to 14 for the
/// second, 15 to 21 for the third, 22 to 28 for the fourth, 29 to 35 for the
/// fifth, and the last seven days for the last.
pub open spec fn nth_week_days(nth: Nth, dd: int, len: int) -> bool {
    match nth {
        Nth::First => 1 <= dd <= 7,
        Nth::Second => 8 <= dd <= 14,
        Nth::Third => 15 <= dd <= 21,
        Nth::Fourth => 22 <= dd <= 28,
        Nth::Fifth => 29 <= dd <= 35,
        Nth::Last => len - 7 < dd <= len,
    }
}

/// Two day numbers within a week of each other that fall on the same weekday
/// are the same day.
proof fn lemma_same_weekday_same_week(a: int, b: int)
    requires
        weekday_index(a) == weekday_index(b),
        a - 7 < b < a + 7,
    ensures
        a == b,
{
    vstd::arithmetic::div_mod::lemma_fundamental_div_mod(a + 6, 7);
    vstd::arithmetic::div_mod::lemma_fundamental_div_mod(b + 6, 7);
    let qa = (a + 6) / 7;
    let qb = (b + 6) / 7;
    assert(a - b == 7 * (qa - qb));
    assert(qa == qb) by (nonlinear_arith)
        requires
            a - b == 7 * (qa - qb),
            a - 7 < b < a + 7,
    ;
}

/// The day `k` days after a day number falls `k` weekdays later.
proof fn lemma_weekday_shift(d: int, k: int)
    ensures
        weekday_index(d + k) == (weekday_index(d) + k) % 7,
{
    vstd::arithmetic::div_mod::lemma_fundamental_div_mod(d + 6, 7);
    let q = (d + 6) / 7;
    assert(d + k + 6 == 7 * q + (weekday_index(d) + k));
    vstd::arithmetic::div_mod::lemma_mod_multiples_vanish(q, weekday_index(d) + k, 7);
}

/// The `nth` `weekday` of a month (the exact date that
/// [`crate::base::nth_weekday_date`] returns): when there is one, it is a day
/// of that month that falls on `weekday`, in the week of the month that `nth`
/// names, so that exactly `n - 1` days of that weekday precede it in the
/// month for the `n`th; when there is none, no day of the month in that week
/// falls on `weekday`.
pub proof fn law_nth_weekday_in_its_week(y: int, m: int, w: Weekday, nth: Nth)
    requires
        1 <= m <= 12,
    ensures
        nth_weekday_spec(y, m, w, nth) matches Some(d) ==> {
            let dd = d - civil_days(y, m, 1) + 1;
            &&& 1 <= dd <= month_length(y, m)
            &&& d == civil_days(y, m, dd)
            &&& weekday_index(d) == w.index()
            &&& nth_week_days(nth, dd, month_length(y, m))
        },
        nth_weekday_spec(y, m, w, nth) is None ==> forall|dd: int|
            1 <= dd <= month_length(y, m) && #[trigger] nth_week_days(nth, dd, month_length(y, m))
                ==> weekday_index(civil_days(y, m, dd)) != w.index(),
{
    let first = civil_days(y, m, 1);
    let len = month_length(y, m);
    let wi = w.index();
    assert(0 <= wi < 7);
    assert(28 <= len <= 31);
    assert forall|dd: int| #[trigger] civil_days(y, m, dd) == first + dd - 1 by {}
    match crate::base::nth_of_spec(nth) {
        Some(n0) => {
            let n = n0 as int;
            lemma_nth_ordinal_day(first, wi, n);
            let day = 1 + (7 + wi - weekday_index(first)) % 7 + 7 * (n - 1);
            assert(nth_week_days(nth, day, len));
            if day > len {
                assert forall|dd: int|
                    1 <= dd <= len && #[trigger] nth_week_days(nth, dd, len) implies weekday_index(
                    civil_days(y, m, dd),
                ) != wi by {
                    if weekday_index(civil_days(y, m, dd)) == wi {
                        lemma_same_weekday_same_week(first + dd - 1, first + day - 1);
                    }
                }
            }
        },
        None => {
            lemma_last_weekday_back(civil_days(y, m, len), wi);
        },
    }
}

/// The `n`th weekday `wi` counted from the day number `first` (day 1 of a
/// month) is day `1 + offset + 7 (n - 1)` of it, in days `7 (n - 1) + 1` to
/// `7 n`, where `offset` is how many days after `first` that weekday first
/// comes.
proof fn lemma_nth_ordinal_day(first: int, wi: int, n: int)
    requires
        0 <= wi < 7,
        1 <= n,
    ensures
        ({
            let day = 1 + (7 + wi - weekday_index(first)) % 7 + 7 * (n - 1);
            &&& 7 * (n - 1) + 1 <= day <= 7 * n
            &&& weekday_index(first + day - 1) == wi
        }),
{
    let a = weekday_index(first);
    let offset = (7 + wi - a) % 7;
    assert(0 <= a < 7);
    assert(0 <= offset < 7);
    assert(a + offset == wi || a + offset == wi + 7);
    let day = 1 + offset + 7 * (n - 1);
    lemma_weekday_shift(first, day - 1);
    assert(a + day - 1 == 7 * (n - 1) + (a + offset));
    if a + offset == wi + 7 {
        vstd::arithmetic::div_mod::lemma_mod_multiples_vanish(n, wi, 7);
        assert(a + day - 1 == 7 * n + wi);
    } else {
        vstd::arithmetic::div_mod::lemma_mod_multiples_vanish(n - 1, wi, 7);
    }
}

/// Going back from the day number `last` by the days since weekday `wi`
/// last came reaches a day of weekday `wi`, at most six days back.
proof fn lemma_last_weekday_back(last: int, wi: int)
    requires
        0 <= wi < 7,
    ensures
        0 <= (7 + weekday_index(last) - wi) % 7 < 7,
        weekday_index(last - (7 + weekday_index(last) - wi) % 7) == wi,
{
    let back = (7 + weekday_index(last) - wi) % 7;
    assert(0 <= weekday_index(last) < 7);
    assert(weekday_index(last) - back == wi || weekday_index(last) - back == wi - 7);
    lemma_weekday_shift(last - back, back);
    assert(last - back + back == last);
    let b = weekday_index(last - back);
    assert(0 <= b < 7);
    if b + back >= 7 {
        vstd::arithmetic::div_mod::lemma_mod_multiples_vanish(1, b + back - 7, 7);
    }
}

/// Whether a month day is one validation accepts: a day 1..=31, or the last.
pub open spec fn month_day_ok(d: MonthDay) -> bool {
    match d {
        MonthDay::Day { value } => 1 <= value <= 31,
        MonthDay::Last => true,
    }
}

/// A list of month days has no error exactly when every entry is accepted,
/// and otherwise the error of its first rejected entry.
proof fn lemma_first_month_day_error(ds: Seq<MonthDay>)
    ensures
        first_month_day_error(ds) is None <==> forall|i: int| 0 <= i < ds.len() ==> month_day_ok(
            #[trigger] ds[i],
        ),
        forall|k: int|
            0 <= k < ds.len() && !month_day_ok(#[trigger] ds[k]) && (forall|i: int|
                0 <= i < k ==> month_day_ok(#[trigger] ds[i])) ==> first_month_day_error(ds)
                == month_day_error(ds[k]),
    decreases ds.len(),
{
    if ds.len() > 0 {
        let dl = ds.drop_last();
        lemma_first_month_day_error(dl);
        assert forall|i: int| 0 <= i < dl.len() implies dl[i] == ds[i] by {}
        assert forall|k: int|
            0 <= k < ds.len() && !month_day_ok(#[trigger] ds[k]) && (forall|i: int|
                0 <= i < k ==> month_day_ok(#[trigger] ds[i])) implies first_month_day_error(ds)
            == month_day_error(ds[k]) by {
            if k < ds.len() - 1 {
                assert(dl[k] == ds[k]);
                assert forall|i: int| 0 <= i < k implies month_day_ok(#[trigger] dl[i]) by {
                    assert(dl[i] == ds[i]);
                }
            } else {
                assert forall|i: int| 0 <= i < dl.len() implies month_day_ok(#[trigger] dl[i]) by {
                    assert(dl[i] == ds[i]);
                }
            }
        }
        if first_month_day_error(ds) is None {
            assert forall|i: int| 0 <= i < ds.len() implies month_day_ok(#[trigger] ds[i]) by {
                if i < ds.len() - 1 {
                    assert(dl[i] == ds[i]);
                }
            }
        }
    }
}

/// What validation says of each kind of frequency. Where `s1` and `r` are
/// what `validate` makes of `s0` and returns, and `t1` and `r2` what it makes
/// of and returns for `t0`, the same schedule with a daily frequency (which
/// has nothing to reject): an hourly minute above 59, an empty day or
/// weekday list, an interval below 1, a month day outside 1..=31 (the first
/// such, in order), a yearly month outside 1..=12, a quarter month outside
/// 1..=3, and an invalid cron expression are each rejected with their own
/// error; otherwise the frequency adds no error and the result is the daily
/// schedule's. So every calendar month, and every month day in 1..=31 or the
/// last, validates.
pub proof fn law_validate_frequency(
    s0: Schedule,
    s1: Schedule,
    r: Result<(), ScheduleError>,
    t0: Schedule,
    t1: Schedule,
    r2: Result<(), ScheduleError>,
)
    requires
        deduped_frequency(s1.freq, s0.freq),
        same_except_freq(s1, s0),
        r is Err <==> schedule_error(s1) is Some,
        r matches Err(e) ==> schedule_error(s1) == Some(e),
        t0.freq is Daily,
        same_except_freq(t0, s0),
        deduped_frequency(t1.freq, t0.freq),
        same_except_freq(t1, t0),
        r2 is Err <==> schedule_error(t1) is Some,
        r2 matches Err(e) ==> schedule_error(t1) == Some(e),
    ensures
        match s0.freq {
            Frequency::Hourly { minute } => if minute > 59 {
                r == Err::<(), ScheduleError>(ScheduleError::InvalidMinute(minute))
            } else {
                r == r2
            },
            Frequency::Daily { .. } => r == r2,
            Frequency::Weekly { days, .. } => if days@.len() == 0 {
                r == Err::<(), ScheduleError>(ScheduleError::EmptyDays)
            } else {
                r == r2
            },
            Frequency::EveryNDays { interval, .. } => if interval < 1 {
                r == Err::<(), ScheduleError>(ScheduleError::InvalidInterval(interval))
            } else {
                r == r2
            },
            Frequency::EveryNWeeks { interval, days, .. } => if interval < 1 {
                r == Err::<(), ScheduleError>(ScheduleError::InvalidInterval(interval))
            } else if days@.len() == 0 {
                r == Err::<(), ScheduleError>(ScheduleError::EmptyDays)
            } else {
                r == r2
            },
            Frequency::MonthlyByDay { days, .. } => {
                &&& forall|k: int|
                    0 <= k < days@.len() && (forall|i: int| 0 <= i < k ==> month_day_ok(#[trigger] days@[i]))
                        ==> (#[trigger] days@[k] matches MonthDay::Day { value } ==> (value < 1 || value
                        > 31 ==> r == Err::<(), ScheduleError>(ScheduleError::InvalidMonthDay(value))))
                &&& (forall|i: int| 0 <= i < days@.len() ==> month_day_ok(#[trigger] days@[i])) ==> if days@.len()
                    == 0 {
                    r == Err::<(), ScheduleError>(ScheduleError::EmptyDays)
                } else {
                    r == r2
                }
            },
            Frequency::MonthlyByWeekday { weekdays, .. } => if weekdays@.len() == 0 {
                r == Err::<(), ScheduleError>(ScheduleError::EmptyDays)
            } else {
                r == r2
            },
            Frequency::Yearly { month, day, .. } => if month < 1 || month > 12 {
                r == Err::<(), ScheduleError>(ScheduleError::InvalidMonth(month))
            } else if month_day_ok(day) {
                r == r2
            } else {
                day matches MonthDay::Day { value } && r == Err::<(), ScheduleError>(
                    ScheduleError::InvalidMonthDay(value),
                )
            },
            Frequency::Quarterly { month, day, .. } => if month < 1 || month > 3 {
                r == Err::<(), ScheduleError>(ScheduleError::InvalidQuarterMonth(month))
            } else if month_day_ok(day) {
                r == r2
            } else {
                day matches MonthDay::Day { value } && r == Err::<(), ScheduleError>(
                    ScheduleError::InvalidMonthDay(value),
                )
            },
            Frequency::CustomCron { expr } => if valid_cron_spec(expr@) {
                r == r2
            } else {
                r == Err::<(), ScheduleError>(ScheduleError::InvalidCron)
            },
        },
{
    match (s1.freq, s0.freq) {
        (Frequency::Weekly { days: d1, .. }, Frequency::Weekly { days: d0, .. }) => {
            lemma_dedup_seq_props(d0@);
        },
        (Frequency::EveryNWeeks { days: d1, .. }, Frequency::EveryNWeeks { days: d0, .. }) => {
            lemma_dedup_seq_props(d0@);
        },
        (Frequency::MonthlyByWeekday { weekdays: w1, .. }, Frequency::MonthlyByWeekday { weekdays: w0, .. }) => {
            lemma_dedup_seq_props(w0@);
        },
        (Frequency::MonthlyByDay { days: d1, .. }, Frequency::MonthlyByDay { days: d0, .. }) => {
            lemma_first_month_day_error(d0@);
            lemma_dedup_seq_props(d0@);
            lemma_first_month_day_error(d1@);
            if first_month_day_error(d0@) is None {
                assert forall|i: int| 0 <= i < d1@.len() implies month_day_ok(#[trigger] d1@[i]) by {
                    assert(d1@.contains(d1@[i]));
                    assert(d0@.contains(d1@[i]));
                }
            }
        },
        _ => {},
    }
    match (r, r2) {
        (Ok(u1), Ok(u2)) => {
            assert(u1 == u2);
        },
        _ => {},
    }
}

/// A weekday makeup acts as the one direction it chooses for the excluded
/// date's weekday: it moves an occurrence exactly as the plain makeup of
/// that direction would.
pub proof fn law_weekday_makeup_is_its_direction<C: CalendarProvider>(
    s: Schedule,
    cal: C,
    date: Date,
    prev: Option<Date>,
    next: Option<Date>,
    m: WeekdayMakeup,
)
    ensures
        make_up_spec(s, cal, date, prev, next, Makeup::ByWeekday(m)) == make_up_spec(
            s,
            cal,
            date,
            prev,
            next,
            Makeup::from_direction_spec(m.direction_for_spec(date.weekday_spec())),
        ),
{
    let d = m.direction_for_spec(date.weekday_spec());
    assert(Makeup::ByWeekday(m).steps_spec(date.weekday_spec()) =~= Makeup::from_direction_spec(
        d,
    ).steps_spec(date.weekday_spec()));
}

/// A weekday makeup map reads each weekday's own entry: setting the entry of
/// a weekday `w` to `x` makes the direction for `w` be `x` and leaves the
/// direction of every other weekday unchanged; clearing it makes the
/// direction for `w` the map's default, or skip without one.
pub proof fn law_weekday_makeup_reads_own_entry(m: WeekdayMakeup, x: MakeupDirection)
    ensures
        (WeekdayMakeup { mon: Some(x), ..m }).direction_for_spec(Weekday::Mon) == x,
        forall|w: Weekday|
            w != Weekday::Mon ==> #[trigger] (WeekdayMakeup { mon: Some(x), ..m }).direction_for_spec(w)
                == m.direction_for_spec(w),
        (WeekdayMakeup { mon: None, ..m }).direction_for_spec(Weekday::Mon) == match m.default {
            Some(d) => d,
            None => MakeupDirection::Skip,
        },
        (WeekdayMakeup { tue: Some(x), ..m }).direction_for_spec(Weekday::Tue) == x,
        forall|w: Weekday|
            w != Weekday::Tue ==> #[trigger] (WeekdayMakeup { tue: Some(x), ..m }).direction_for_spec(w)
                == m.direction_for_spec(w),
        (WeekdayMakeup { tue: None, ..m }).direction_for_spec(Weekday::Tue) == match m.default {
            Some(d) => d,
            None => MakeupDirection::Skip,
        },
        (WeekdayMakeup { wed: Some(x), ..m }).direction_for_spec(Weekday::Wed) == x,
        forall|w: Weekday|
            w != Weekday::Wed ==> #[trigger] (WeekdayMakeup { wed: Some(x), ..m }).direction_for_spec(w)
                == m.direction_for_spec(w),
        (WeekdayMakeup { wed: None, ..m }).direction_for_spec(Weekday::Wed) == match m.default {
            Some(d) => d,
            None => MakeupDirection::Skip,
        },
        (WeekdayMakeup { thu: Some(x), ..m }).direction_for_spec(Weekday::Thu) == x,
        forall|w: Weekday|
            w != Weekday::Thu ==> #[trigger] (WeekdayMakeup { thu: Some(x), ..m }).direction_for_spec(w)
                == m.direction_for_spec(w),
        (WeekdayMakeup { thu: None, ..m }).direction_for_spec(Weekday::Thu) == match m.default {
            Some(d) => d,
            None => MakeupDirection::Skip,
        },
        (WeekdayMakeup { fri: Some(x), ..m }).direction_for_spec(Weekday::Fri) == x,
        forall|w: Weekday|
            w != Weekday::Fri ==> #[trigger] (WeekdayMakeup { fri: Some(x), ..m }).direction_for_spec(w)
                == m.direction_for_spec(w),
        (WeekdayMakeup { fri: None, ..m }).direction_for_spec(Weekday::Fri) == match m.default {
            Some(d) => d,
            None => MakeupDirection::Skip,
        },
        (WeekdayMakeup { sat: Some(x), ..m }).direction_for_spec(Weekday::Sat) == x,
        forall|w: Weekday|
            w != Weekday::Sat ==> #[trigger] (WeekdayMakeup { sat: Some(x), ..m }).direction_for_spec(w)
                == m.direction_for_spec(w),
        (WeekdayMakeup { sat: None, ..m }).direction_for_spec(Weekday::Sat) == match m.default {
            Some(d) => d,
            None => MakeupDirection::Skip,
        },
        (WeekdayMakeup { sun: Some(x), ..m }).direction_for_spec(Weekday::Sun) == x,
        forall|w: Weekday|
            w != Weekday::Sun ==> #[trigger] (WeekdayMakeup { sun: Some(x), ..m }).direction_for_spec(w)
                == m.direction_for_spec(w),
        (WeekdayMakeup { sun: None, ..m }).direction_for_spec(Weekday::Sun) == match m.default {
            Some(d) => d,
            None => MakeupDirection::Skip,
        },
{
}

/// The weekday that follows `w`.
pub open spec fn weekday_after(w: Weekday) -> Weekday {
    match w {
        Weekday::Mon => Weekday::Tue,
        Weekday::Tue => Weekday::Wed,
        Weekday::Wed => Weekday::Thu,
        Weekday::Thu => Weekday::Fri,
        Weekday::Fri => Weekday::Sat,
        Weekday::Sat => Weekday::Sun,
        Weekday::Sun => Weekday::Mon,
    }
}

/// Weekdays follow each other day by day, and 2000-01-01 was a Saturday; so
/// every date's weekday is the calendar's.
pub proof fn law_weekdays_follow_each_other(d: Date)
    requires
        d.days < MAX_DAYS,
    ensures
        (Date { days: (d.days + 1) as i32 }).weekday_spec() == weekday_after(d.weekday_spec()),
        (Date { days: civil_days(2000, 1, 1) as i32 }).weekday_spec() == Weekday::Sat,
{
    lemma_weekday_shift(d.days as int, 1);
    let wi = weekday_index(d.days as int);
    assert(0 <= wi < 7);
    assert(wi == 6 ==> (wi + 1) % 7 == 0);
    assert(wi < 6 ==> (wi + 1) % 7 == wi + 1);
    assert(civil_days(2000, 1, 1) == 730120);
    assert(weekday_index(730120) == 5);
}

/// A day number names the (year, month, day) it was made from.
proof fn lemma_civil_roundtrip(y: int, m: int, dd: int)
    requires
        MIN_YEAR <= y <= MAX_YEAR,
        valid_ymd(y, m, dd),
    ensures
        civil_from_days(civil_days(y, m, dd)) == (y, m, dd),
{
    let d = civil_days(y, m, dd);
    let w = (y, m, dd);
    assert(MIN_YEAR <= w.0 <= MAX_YEAR && valid_ymd(w.0, w.1, w.2) && civil_days(w.0, w.1, w.2) == d);
    let t = civil_from_days(d);
    lemma_civil_days_injective(t.0, t.1, t.2, y, m, dd);
}

/// Whether month day `md` names day `dd` of a month of `len` days.
pub open spec fn names_day(md: MonthDay, dd: int, len: int) -> bool {
    match md {
        MonthDay::Day { value } => value == dd,
        MonthDay::Last => dd == len,
    }
}

/// The days each frequency fires on, by year `y`, month `m` and day of month
/// `dd`: a daily frequency every day at its time; a weekly one on the days
/// whose weekday it lists; a yearly one on its day of its month; a quarterly
/// one on its day of its month and of every third month after it, its month
/// being one of the first three; a monthly-by-day one on the days one of its
/// entries names; a monthly-by-weekday one on the days that fall on an
/// entry's weekday in the week of the month the entry's ordinal names; an
/// every-n-days one on its start date and every `interval` days after; and a
/// cron one on the days whose month, day of month and weekday (Sunday 0) its
/// fields list, when it lists an hour and a minute.
pub proof fn law_frequency_days(f: Frequency, y: int, m: int, dd: int)
    requires
        MIN_YEAR <= y <= MAX_YEAR,
        valid_ymd(y, m, dd),
    ensures
        ({
            let d = civil_days(y, m, dd);
            let len = month_length(y, m);
            let fires = slots_on(f, d).len() > 0;
            match f {
                Frequency::Daily { time } => slots_on(f, d) == seq![time],
                Frequency::Weekly { days, .. } => fires <==> days@.contains(
                    (Date { days: d as i32 }).weekday_spec(),
                ),
                Frequency::Yearly { month, day, .. } => fires <==> (m == month && names_day(
                    day,
                    dd,
                    len,
                )),
                Frequency::Quarterly { month, day, .. } => fires <==> (1 <= month <= 3 && (m == month
                    || m == month + 3 || m == month + 6 || m == month + 9) && names_day(day, dd, len)),
                Frequency::MonthlyByDay { days, .. } => fires <==> exists|i: int|
                    0 <= i < days@.len() && names_day(#[trigger] days@[i], dd, len),
                Frequency::MonthlyByWeekday { weekdays, .. } => fires <==> exists|i: int|
                    0 <= i < weekdays@.len() && weekday_index(d) == (#[trigger] weekdays@[i]).weekday.index()
                        && nth_week_days(weekdays@[i].nth, dd, len),
                Frequency::EveryNDays { interval, start_date, .. } => fires <==> (start_date.days <= d
                    && (d - start_date.days) % (interval as int) == 0),
                Frequency::CustomCron { expr } => fires <==> (cron_fields_spec(expr@) matches Some(
                    (minutes, hours, month_days, months, weekdays),
                ) && months.contains(m as u32) && month_days.contains(dd as u32) && weekdays.contains(
                    cron_day_number((Date { days: d as i32 }).weekday_spec()),
                ) && hours.len() > 0 && minutes.len() > 0),
                _ => true,
            }
        }),
{
    lemma_civil_roundtrip(y, m, dd);
    let d = civil_days(y, m, dd);
    assert forall|k: int| #[trigger] civil_days(y, m, k) == d - dd + k by {}
    crate::civil::lemma_civil_days_bounds(y, m, dd);
    assert((Date { days: d as i32 }).weekday_spec() == Weekday::from_index(weekday_index(d)));
    match f {
        Frequency::MonthlyByDay { days, .. } => {
            let p = |md: MonthDay| month_day_date_spec(y, m, md) == Some(d);
            lemma_filter_nonempty(days@, p);
            assert forall|i: int| 0 <= i < days@.len() implies p(days@[i]) == names_day(
                #[trigger] days@[i],
                dd,
                month_length(y, m),
            ) by {}
        },
        Frequency::CustomCron { expr } => {
            match cron_fields_spec(expr@) {
                Some((minutes, hours, month_days, months, weekdays)) => {
                    lemma_cron_times_nonempty(hours, minutes);
                    let wd = weekday_index(d);
                    assert(0 <= wd < 7);
                    assert(cron_day_number(Weekday::from_index(wd)) == (wd + 1) % 7);
                },
                None => {},
            }
        },
        Frequency::MonthlyByWeekday { weekdays, .. } => {
            let p = |nw: NthWeekday| nth_weekday_spec(y, m, nw.weekday, nw.nth) == Some(d);
            lemma_filter_nonempty(weekdays@, p);
            assert forall|i: int| 0 <= i < weekdays@.len() implies p(weekdays@[i]) == (weekday_index(d)
                == (#[trigger] weekdays@[i]).weekday.index() && nth_week_days(
                weekdays@[i].nth,
                dd,
                month_length(y, m),
            )) by {
                lemma_nth_weekday_is(y, m, dd, weekdays@[i].weekday, weekdays@[i].nth);
            }
        },
        _ => {},
    }
}

/// The cron number of a weekday: Sunday is 0, Monday 1, up to Saturday 6.
pub open spec fn cron_day_number(w: Weekday) -> u32 {
    match w {
        Weekday::Sun => 0,
        Weekday::Mon => 1,
        Weekday::Tue => 2,
        Weekday::Wed => 3,
        Weekday::Thu => 4,
        Weekday::Fri => 5,
        Weekday::Sat => 6,
    }
}

/// Cron times exist exactly when both the hour and the minute lists have
/// entries.
proof fn lemma_cron_times_nonempty(hours: Seq<u32>, minutes: Seq<u32>)
    ensures
        cron_times(hours, minutes).len() > 0 <==> (hours.len() > 0 && minutes.len() > 0),
    decreases hours.len(),
{
    if hours.len() > 0 {
        lemma_cron_times_nonempty(hours.drop_last(), minutes);
    }
}

/// A sequence has an element passing `p` exactly when its filter by `p` is
/// not empty.
proof fn lemma_filter_nonempty<T>(s: Seq<T>, p: spec_fn(T) -> bool)
    ensures
        s.filter(p).len() > 0 <==> exists|i: int| 0 <= i < s.len() && #[trigger] p(s[i]),
    decreases s.len(),
{
    reveal(Seq::filter);
    if s.len() > 0 {
        let dl = s.drop_last();
        lemma_filter_nonempty(dl, p);
        if exists|i: int| 0 <= i < dl.len() && #[trigger] p(dl[i]) {
            let i = choose|i: int| 0 <= i < dl.len() && #[trigger] p(dl[i]);
            assert(s[i] == dl[i]);
        }
        if exists|i: int| 0 <= i < s.len() && #[trigger] p(s[i]) {
            let i = choose|i: int| 0 <= i < s.len() && #[trigger] p(s[i]);
            if i < s.len() - 1 {
                assert(dl[i] == s[i]);
            }
        }
    }
}

/// Day `dd` of a month is its `nth` `w` exactly when it falls on `w` in the
/// week of the month that `nth` names.
proof fn lemma_nth_weekday_is(y: int, m: int, dd: int, w: Weekday, nth: Nth)
    requires
        MIN_YEAR <= y <= MAX_YEAR,
        valid_ymd(y, m, dd),
    ensures
        (nth_weekday_spec(y, m, w, nth) == Some(civil_days(y, m, dd))) <==> (weekday_index(
            civil_days(y, m, dd),
        ) == w.index() && nth_week_days(nth, dd, month_length(y, m))),
{
    law_nth_weekday_in_its_week(y, m, w, nth);
    let d = civil_days(y, m, dd);
    let first = civil_days(y, m, 1);
    assert forall|k: int| #[trigger] civil_days(y, m, k) == first + k - 1 by {}
    match nth_weekday_spec(y, m, w, nth) {
        Some(x) => {
            let dx = x - first + 1;
            if weekday_index(d) == w.index() && nth_week_days(nth, dd, month_length(y, m)) {
                lemma_same_weekday_same_week(x, d);
            }
        },
        None => {},
    }
}

/// A calendar overlay drops an occurrence on `date` exactly when its rule
/// says so: `Exclude` drops the dates in its calendar, `Only` the dates
/// outside it; a listed date is in a `Dates` calendar. A dropped occurrence
/// takes the overlay's own makeup, if it has one; a kept one takes none.
pub proof fn law_calendar_overlay_rule<C: CalendarProvider>(oc: OverlayCalendar, date: Date, cal: C)
    ensures
        ({
            let out = overlay_outcome_spec(Overlay::Calendar(oc), date, cal);
            let in_set = in_calendar_spec(oc.calendar, date, cal);
            &&& oc.rule == OverlayRule::Exclude ==> (out.0 <==> !in_set)
            &&& oc.rule == OverlayRule::Only ==> (out.0 <==> in_set)
            &&& out.1 == if out.0 {
                None
            } else {
                oc.makeup
            }
        }),
        oc.calendar matches CalendarSpec::Dates { dates } ==> (in_calendar_spec(oc.calendar, date, cal)
            <==> dates@.contains(date)),
{
}

/// Where makeup fails for a dropped slot, `makeup_failure` decides what the
/// slot gives: nothing for `Skip`, the occurrence on its own date for
/// `KeepOriginal`, and the `MakeupFailed` error naming that date for
/// `Error`; where makeup is disabled the slot gives nothing, whatever
/// `makeup_failure` says; and a slot that survives the overlays lands on its
/// own date.
pub proof fn law_makeup_failure_modes<C: CalendarProvider>(s: Schedule, cal: C, base: Seq<Slot>, i: int)
    requires
        0 <= i < base.len(),
    ensures
        ({
            let date = base[i].date;
            let o = overlay_result_spec(s.overlays@, 0, date, cal);
            let prev = if i > 0 {
                Some(base[i - 1].date)
            } else {
                None
            };
            let next = if i + 1 < base.len() {
                Some(base[i + 1].date)
            } else {
                None
            };
            let m = match o.1 {
                Some(m) => m,
                None => s.makeup,
            };
            let outcome = make_up_spec(s, cal, date, prev, next, m);
            let dest = crate::generate::dest_spec(s, cal, base, i);
            &&& o.0 ==> dest == Ok::<Option<Date>, crate::generate::QueryError>(Some(date))
            &&& (!o.0 && outcome == MakeupOutcome::Failed && s.makeup_failure == MakeupFailure::Skip)
                ==> dest == Ok::<Option<Date>, crate::generate::QueryError>(None)
            &&& (!o.0 && outcome == MakeupOutcome::Failed && s.makeup_failure
                == MakeupFailure::KeepOriginal) ==> dest == Ok::<Option<Date>, crate::generate::QueryError>(
                Some(date),
            )
            &&& (!o.0 && outcome == MakeupOutcome::Failed && s.makeup_failure == MakeupFailure::Error)
                ==> dest == Err::<Option<Date>, crate::generate::QueryError>(
                crate::generate::QueryError::MakeupFailed { date },
            )
            &&& (!o.0 && outcome == MakeupOutcome::Disabled) ==> dest == Ok::<
                Option<Date>,
                crate::generate::QueryError,
            >(None)
            &&& !o.0 ==> (outcome matches MakeupOutcome::Moved(d) ==> dest == Ok::<
                Option<Date>,
                crate::generate::QueryError,
            >(Some(d)))
        }),
{
}

/// Validation of the fields beside the frequency, for a schedule whose
/// frequency has nothing to reject (a daily one): where `s1` and `r` are what
/// `validate` makes of `s0` and returns, a start not before the end fails
/// with `StartNotBeforeEnd`; otherwise a skip threshold of 0 fails with
/// `InvalidSkipThreshold(0)`; otherwise a maximum skip gap of 0 fails with
/// `InvalidMaxSkipGap(0)`; and a schedule with none of these and no overlays
/// validates.
pub proof fn law_validate_fields(s0: Schedule, s1: Schedule, r: Result<(), ScheduleError>)
    requires
        s0.freq is Daily,
        deduped_frequency(s1.freq, s0.freq),
        same_except_freq(s1, s0),
        r is Err <==> schedule_error(s1) is Some,
        r matches Err(e) ==> schedule_error(s1) == Some(e),
    ensures
        (s0.start matches Some(st) && s0.end matches Some(e) && st.ms >= e.ms) ==> r == Err::<
            (),
            ScheduleError,
        >(ScheduleError::StartNotBeforeEnd),
        !(s0.start matches Some(st) && s0.end matches Some(e) && st.ms >= e.ms) ==> {
            &&& s0.skip_if_consecutive_excluded == Some(0u32) ==> r == Err::<(), ScheduleError>(
                ScheduleError::InvalidSkipThreshold(0),
            )
            &&& (s0.skip_if_consecutive_excluded != Some(0u32) && s0.max_skip_gap == Some(0u32)) ==> r
                == Err::<(), ScheduleError>(ScheduleError::InvalidMaxSkipGap(0))
            &&& (s0.skip_if_consecutive_excluded != Some(0u32) && s0.max_skip_gap != Some(0u32)
                && s0.overlays@.len() == 0) ==> r is Ok
        },
{
}

/// Months tile the calendar: the day after the last day of a month is the
/// first day of the next month, and the day after December 31 is January 1
/// of the next year; February has 29 days in leap years and 28 otherwise,
/// April, June, September and November 30, and the other months 31.
pub proof fn law_months_tile_the_year(y: int, m: int)
    requires
        1 <= m <= 12,
    ensures
        m < 12 ==> civil_days(y, m, month_length(y, m)) + 1 == civil_days(y, m + 1, 1),
        m == 12 ==> civil_days(y, m, month_length(y, m)) + 1 == civil_days(y + 1, 1, 1),
        month_length(y, m) == if m == 2 {
            if y % 4 == 0 && (y % 100 != 0 || y % 400 == 0) {
                29int
            } else {
                28int
            }
        } else if m == 4 || m == 6 || m == 9 || m == 11 {
            30int
        } else {
            31int
        },
{
    if m < 12 {
        crate::civil::lemma_days_before_next_month(y, m);
    } else {
        crate::civil::lemma_days_before_year_step(y);
    }
}

/// The days a makeup may search on either side: the schedule's
/// `max_makeup_hops`, at most fourteen, or fourteen without one.
pub open spec fn makeup_reach(s: Schedule) -> int {
    match s.max_makeup_hops {
        Some(h) => if h < 14 {
            h as int
        } else {
            14
        },
        None => 14,
    }
}

/// A one-way search that finds nothing found no valid day among the days it
/// looks at.
proof fn lemma_search_none<C: CalendarProvider>(
    s: Schedule,
    cal: C,
    date: Date,
    prev: Option<Date>,
    next: Option<Date>,
    dir: MakeupDirection,
    max_hops: int,
    k: int,
)
    requires
        dir == MakeupDirection::After || dir == MakeupDirection::Before,
        k >= 1,
    ensures
        search_spec(s, cal, date, prev, next, dir, max_hops, k) is None && dir == MakeupDirection::After
            ==> forall|h: int|
            k <= h <= max_hops ==> !valid_target_spec(
                s,
                cal,
                date,
                #[trigger] crate::makeup::shift(date, h),
                prev,
                next,
            ),
        search_spec(s, cal, date, prev, next, dir, max_hops, k) is None && dir == MakeupDirection::Before
            ==> forall|h: int|
            k <= h <= max_hops ==> !valid_target_spec(
                s,
                cal,
                date,
                #[trigger] crate::makeup::shift(date, -h),
                prev,
                next,
            ),
    decreases max_hops + 1 - k,
{
    if k <= max_hops {
        lemma_search_none(s, cal, date, prev, next, dir, max_hops, k + 1);
    }
}

/// A plain `After` or `Before` makeup never disables itself, and fails only
/// when no day within its reach on its side of the excluded date is a valid
/// destination; so where such a day exists it moves the occurrence.
pub proof fn law_one_way_makeup_fails_only_without_target<C: CalendarProvider>(
    s: Schedule,
    cal: C,
    date: Date,
    prev: Option<Date>,
    next: Option<Date>,
)
    ensures
        make_up_spec(s, cal, date, prev, next, Makeup::After) != MakeupOutcome::Disabled,
        make_up_spec(s, cal, date, prev, next, Makeup::Before) != MakeupOutcome::Disabled,
        make_up_spec(s, cal, date, prev, next, Makeup::After) == MakeupOutcome::Failed ==> forall|h: int|
            1 <= h <= makeup_reach(s) ==> !valid_target_spec(
                s,
                cal,
                date,
                #[trigger] crate::makeup::shift(date, h),
                prev,
                next,
            ),
        make_up_spec(s, cal, date, prev, next, Makeup::Before) == MakeupOutcome::Failed ==> forall|h: int|
            1 <= h <= makeup_reach(s) ==> !valid_target_spec(
                s,
                cal,
                date,
                #[trigger] crate::makeup::shift(date, -h),
                prev,
                next,
            ),
{
    let wd = date.weekday_spec();
    let after = Makeup::After.steps_spec(wd);
    let before = Makeup::Before.steps_spec(wd);
    assert(after[0].parts_spec() == (MakeupDirection::After, None::<u32>));
    assert(before[0].parts_spec() == (MakeupDirection::Before, None::<u32>));
    assert(step_limit(s, None) == makeup_reach(s));
    lemma_search_none(s, cal, date, prev, next, MakeupDirection::After, makeup_reach(s), 1);
    lemma_search_none(s, cal, date, prev, next, MakeupDirection::Before, makeup_reach(s), 1);
    assert(steps_outcome_spec(s, cal, date, prev, next, after, 1, true) == MakeupOutcome::Failed);
    assert(steps_outcome_spec(s, cal, date, prev, next, before, 1, true) == MakeupOutcome::Failed);
}

/// The number a string of decimal digits spells, most significant first.
pub open spec fn digits_value(t: Seq<char>) -> int
    decreases t.len(),
{
    if t.len() == 0 {
        0
    } else {
        digits_value(t.drop_last()) * 10 + (t.last() as u32 - '0' as u32)
    }
}

/// Decimal text spells its number: every character of the text of `n` is a
/// digit `0`..=`9`, it starts with `0` only for zero itself, and its digits
/// read back as `n`; zero-padding keeps the number and reaches the width.
pub proof fn law_decimal_text_spells_number(n: nat, w: nat)
    ensures
        forall|i: int| 0 <= i < decimal_spec(n).len() ==> '0' <= #[trigger] decimal_spec(n)[i] <= '9',
        decimal_spec(n).len() > 0,
        decimal_spec(n)[0] == '0' ==> n == 0,
        digits_value(decimal_spec(n)) == n,
        digits_value(pad_zeros(decimal_spec(n), w)) == n,
        pad_zeros(decimal_spec(n), w).len() >= w,
    decreases n,
{
    assert forall|d: int| 0 <= d <= 9 implies (digit_spec(d) as u32 - '0' as u32) == d && '0'
        <= digit_spec(d) <= '9' by {}
    if n < 10 {
        assert(decimal_spec(n).drop_last() =~= Seq::<char>::empty());
        assert(digit_spec(n as int) == '0' ==> n == 0);
        assert(digit_spec(n as int) as u32 - '0' as u32 == n);
        assert(decimal_spec(n).last() == digit_spec(n as int));
        assert(digits_value(decimal_spec(n)) == digits_value(Seq::<char>::empty()) * 10 + (digit_spec(
            n as int,
        ) as u32 - '0' as u32));
    } else {
        law_decimal_text_spells_number(n / 10, 0);
        let t = decimal_spec(n);
        assert(t.drop_last() == decimal_spec(n / 10));
        assert(t.last() == digit_spec((n % 10) as int));
        vstd::arithmetic::div_mod::lemma_fundamental_div_mod(n as int, 10);
        assert(digits_value(t) == (n / 10) * 10 + n % 10) by (nonlinear_arith)
            requires
                digits_value(t) == digits_value(decimal_spec(n / 10)) * 10 + (t.last() as u32
                    - '0' as u32),
                digits_value(decimal_spec(n / 10)) == n / 10,
                (t.last() as u32 - '0' as u32) == n % 10,
        ;
        assert(t[0] == decimal_spec(n / 10)[0]);
        assert forall|i: int| 0 <= i < t.len() implies '0' <= #[trigger] t[i] <= '9' by {
            if i < t.len() - 1 {
                assert(t[i] == decimal_spec(n / 10)[i]);
            }
        }
    }
    lemma_zeros_value(decimal_spec(n), w);
}

/// Zeros in front leave the value of a digit string unchanged.
proof fn lemma_zeros_value(t: Seq<char>, w: nat)
    ensures
        digits_value(pad_zeros(t, w)) == digits_value(t),
{
    if t.len() < w {
        let z = Seq::new((w - t.len()) as nat, |i: int| '0');
        lemma_zeros_prefix(z, t);
    }
}

/// A run of zeros in front of a digit string leaves its value unchanged.
proof fn lemma_zeros_prefix(z: Seq<char>, t: Seq<char>)
    requires
        forall|i: int| 0 <= i < z.len() ==> #[trigger] z[i] == '0',
    ensures
        digits_value(z + t) == digits_value(t),
    decreases t.len(),
{
    if t.len() == 0 {
        assert(z + t =~= z);
        lemma_zeros_only(z);
    } else {
        lemma_zeros_prefix(z, t.drop_last());
        assert((z + t).drop_last() =~= z + t.drop_last());
        assert((z + t).last() == t.last());
    }
}

/// A run of zeros spells zero.
proof fn lemma_zeros_only(z: Seq<char>)
    requires
        forall|i: int| 0 <= i < z.len() ==> #[trigger] z[i] == '0',
    ensures
        digits_value(z) == 0,
    decreases z.len(),
{
    if z.len() > 0 {
        assert(z.last() == z[z.len() - 1]);
        lemma_zeros_only(z.drop_last());
    }
}

/// The earliest instant of a resolution, if the reading exists.
pub open spec fn earliest(r: LocalResolution) -> Option<Instant> {
    match r {
        LocalResolution::Single(x) => Some(x),
        LocalResolution::Ambiguous(x, _) => Some(x),
        LocalResolution::Gap => None,
    }
}

/// The shift past a gap lands on the first minute after the reading, among
/// the next six hours, that exists, at its earliest instant; it finds none
/// only when all of them fall in the gap.
proof fn lemma_shift_first_existing(z: Seq<char>, day: int, m0: int, k: int)
    requires
        1 <= k,
    ensures
        shift_search(z, day, m0, k) matches Some(r) ==> r.shifted_dst && exists|j: int|
            k <= j <= MAX_SHIFT_MINUTES && earliest(#[trigger] resolution_at(z, day, m0 + j)) == Some(
                r.instant,
            ) && forall|i: int| k <= i < j ==> #[trigger] resolution_at(z, day, m0 + i) is Gap,
        shift_search(z, day, m0, k) is None ==> forall|i: int|
            k <= i <= MAX_SHIFT_MINUTES ==> #[trigger] resolution_at(z, day, m0 + i) is Gap,
    decreases MAX_SHIFT_MINUTES + 1 - k,
{
    if k <= MAX_SHIFT_MINUTES {
        lemma_shift_first_existing(z, day, m0, k + 1);
        if resolution_at(z, day, m0 + k) is Gap {
            match shift_search(z, day, m0, k) {
                Some(r) => {
                    let j = choose|j: int|
                        k + 1 <= j <= MAX_SHIFT_MINUTES && earliest(
                            #[trigger] resolution_at(z, day, m0 + j),
                        ) == Some(r.instant) && forall|i: int|
                            k + 1 <= i < j ==> #[trigger] resolution_at(z, day, m0 + i) is Gap;
                    assert(forall|i: int| k <= i < j ==> #[trigger] resolution_at(z, day, m0 + i) is Gap);
                },
                None => {},
            }
        } else {
            assert(earliest(resolution_at(z, day, m0 + k)) == Some(
                shift_search(z, day, m0, k)->Some_0.instant,
            ));
        }
    }
}

/// How a local reading becomes an instant: a reading that occurs once gives
/// that instant, and one that occurs twice (a fold) the earlier of the two,
/// neither marked as shifted; one that never occurs (a gap) gives nothing in
/// `Skip` mode, and in `Shift` mode the earliest instant of the first later
/// minute, within six hours, that exists, marked as shifted, or nothing if
/// none does. Hourly schedules skip a gap; all others shift.
pub proof fn law_local_reading_resolution(z: Seq<char>, d: Date, time: Time, mode: Nonexistent, f: Frequency)
    ensures
        ({
            let res = resolution_spec(z, d.days as int, time.hour as int, time.minute as int);
            let out = resolve_spec(z, d, time, mode);
            let m0 = time.minute_of_day();
            &&& res matches LocalResolution::Single(x) ==> out == Some(
                ResolvedOccurrence { instant: x, shifted_dst: false },
            )
            &&& res matches LocalResolution::Ambiguous(x, y) ==> out == Some(
                ResolvedOccurrence { instant: x, shifted_dst: false },
            )
            &&& (res is Gap && mode == Nonexistent::Skip) ==> out is None
            &&& (res is Gap && mode == Nonexistent::Shift) ==> {
                &&& out matches Some(r) ==> r.shifted_dst && exists|j: int|
                    1 <= j <= MAX_SHIFT_MINUTES && earliest(#[trigger] resolution_at(z, d.days as int, m0 + j))
                        == Some(r.instant) && forall|i: int|
                        1 <= i < j ==> #[trigger] resolution_at(z, d.days as int, m0 + i) is Gap
                &&& out is None ==> forall|i: int|
                    1 <= i <= MAX_SHIFT_MINUTES ==> #[trigger] resolution_at(z, d.days as int, m0 + i) is Gap
            }
        }),
        (mode_spec(f) == Nonexistent::Skip) <==> (f is Hourly),
{
    lemma_shift_first_existing(z, d.days as int, time.minute_of_day(), 1);
}

} // verus!
