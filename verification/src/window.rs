//! Consistency of overlapping query windows, in every timezone. Every slot
//! of a window is judged as a member of the whole base series, so two
//! windows give a slot the same entry; and since a UTC offset is under a
//! day, no slot outside a window's date margin can land inside it. So a
//! window's occurrences are the part of any larger window's occurrences that
//! falls inside it. From this, `upcoming` and `next` give the first
//! occurrences `until` lists up to the schedule's end, `previous` the first
//! one `since` lists back to its start, `is_occurrence` agrees with `until`,
//! and `until` splits at any instant that is not an occurrence.

use crate::base::{
    base_seq, engine_day, frequency_wf, lemma_base_seq_ok, lemma_base_seq_slots, lemma_base_seq_split, slots_ok,
    Slot,
};
use crate::calendar::CalendarProvider;
use crate::civil::{Date, Time, EPOCH_DAYS, MAX_DAYS, MIN_DAYS};
use crate::generate::{
    ascending, dest_spec, displaces, entry_spec, full_series, gen_range, insert_trace, lemma_gen_err_persists,
    lemma_make_up_distance, mode_spec, series_first_day, series_index, series_last_day, QueryError,
};
use crate::laws::law_generated_ascending;
use crate::overlay::overlay_result_spec;
use crate::schedule::{MakeupFailure, Schedule};
use crate::engine::{
    backward_cap, forward_cap, instants, is_occurrence_spec, next_span, next_spec, previous_from,
    previous_spec, since_spec, until_spec, upcoming_from, upcoming_spec, ABSOLUTE_HORIZON_DAYS,
    INITIAL_HORIZON_DAYS,
};
use crate::laws::law_collect_ordered_in_bounds;
use crate::query::{
    bounds_pred, collect_spec, gap_check_spec, gaps_within, in_bounds, window_spec, Entry, GapCheck,
};
use crate::zone::{
    naive_ms, within_day, resolution_spec, resolve_spec, shift_search, utc_day, window_instant,
    Instant, Nonexistent, MS_PER_DAY, MS_PER_MINUTE,
};
use vstd::prelude::*;

verus! {

/// A filter on traces that looks at the instant only.
pub open spec fn instant_pred(p: spec_fn((Instant, Seq<char>)) -> bool) -> bool {
    forall|a: (Instant, Seq<char>), b: (Instant, Seq<char>)| a.0 == b.0 ==> p(a) == p(b)
}

/// Inserting a trace and then filtering by instant is filtering and then
/// inserting it when it passes.
pub proof fn lemma_filter_insert(
    acc: Seq<(Instant, Seq<char>)>,
    t: (Instant, Seq<char>),
    p: spec_fn((Instant, Seq<char>)) -> bool,
)
    requires
        ascending(acc),
        instant_pred(p),
    ensures
        insert_trace(acc, t).filter(p) == if p(t) {
            insert_trace(acc.filter(p), t)
        } else {
            acc.filter(p)
        },
    decreases acc.len(),
{
    reveal(Seq::filter);
    if acc.len() == 0 {
        assert(insert_trace(acc, t) =~= seq![t]);
        assert(seq![t].drop_last() =~= Seq::<(Instant, Seq<char>)>::empty());
        if p(t) {
            assert(seq![t].filter(p) == Seq::<(Instant, Seq<char>)>::empty().filter(p).push(t));
        } else {
            assert(seq![t].filter(p) == Seq::<(Instant, Seq<char>)>::empty().filter(p));
        }
    } else if acc.last().0.ms < t.0.ms {
        assert(acc.push(t).drop_last() =~= acc);
        if p(t) {
            let f = acc.filter(p);
            if f.len() > 0 {
                // every kept entry is earlier than `t`
                assert(f.contains(f.last()));
                acc.lemma_filter_contains_rev(p, f.last());
                let k = choose|k: int| 0 <= k < acc.len() && acc[k] == f.last();
                if k < acc.len() - 1 {
                    assert(acc[k].0.ms < acc[acc.len() - 1].0.ms);
                }
                assert(f.last().0.ms < t.0.ms);
            }
        }
    } else if acc.last().0.ms == t.0.ms {
        let dl = acc.drop_last();
        assert(p(t) == p(acc.last()));
        assert(dl.push(acc.last()) =~= acc);
        assert(dl.push(t).drop_last() =~= dl);
        if p(t) {
            let f = acc.filter(p);
            assert(f == dl.filter(p).push(acc.last()));
            let fd = dl.filter(p);
            if fd.len() > 0 {
                assert(fd.contains(fd.last()));
                dl.lemma_filter_contains_rev(p, fd.last());
                let k = choose|k: int| 0 <= k < dl.len() && dl[k] == fd.last();
                assert(acc[k] == dl[k]);
                assert(acc[k].0.ms < acc[acc.len() - 1].0.ms);
            }
            assert(fd.push(acc.last()).drop_last() =~= fd);
            assert(fd.push(acc.last()).last() == acc.last());
            if displaces(t, acc.last()) {
                assert(dl.push(t).filter(p) == fd.push(t));
            }
        } else {
            if displaces(t, acc.last()) {
                assert(dl.push(t).filter(p) == dl.filter(p));
                assert(acc.filter(p) == dl.filter(p));
            }
        }
    } else {
        let dl = acc.drop_last();
        assert(ascending(dl)) by {
            assert forall|i: int, j: int| 0 <= i < j < dl.len() implies dl[i].0.ms < dl[j].0.ms by {
                assert(dl[i] == acc[i] && dl[j] == acc[j]);
            }
        }
        lemma_filter_insert(dl, t, p);
        let r = insert_trace(dl, t);
        assert(insert_trace(acc, t) == r.push(acc.last()));
        assert(r.push(acc.last()).drop_last() =~= r);
        if p(t) {
            let fd = dl.filter(p);
            if p(acc.last()) {
                assert(acc.filter(p) == fd.push(acc.last()));
                lemma_insert_last_greater(fd, t, acc.last());
            } else {
                assert(acc.filter(p) == fd);
            }
        }
    }
}

/// Inserting below a last entry that is later than everything commutes with
/// appending that entry.
proof fn lemma_insert_last_greater(
    fd: Seq<(Instant, Seq<char>)>,
    t: (Instant, Seq<char>),
    last: (Instant, Seq<char>),
)
    requires
        last.0.ms > t.0.ms,
    ensures
        insert_trace(fd.push(last), t) == insert_trace(fd, t).push(last),
{
    assert(fd.push(last).drop_last() =~= fd);
    assert(fd.push(last).last() == last);
}

/// While no entry passes `p`, the traces generated hold none that passes.
proof fn lemma_gen_none_pass<C: CalendarProvider>(
    s: Schedule,
    cal: C,
    b: Seq<Slot>,
    a: int,
    m: int,
    p: spec_fn((Instant, Seq<char>)) -> bool,
)
    requires
        instant_pred(p),
        forall|j: int|
            a <= j < m ==> (#[trigger] entry_spec(s, cal, b, j) matches Ok(Some(t)) ==> !p(t)),
    ensures
        gen_range(s, cal, b, a, m) matches Ok(acc) ==> acc.filter(p).len() == 0,
    decreases m - a,
{
    reveal(Seq::filter);
    if m > a {
        lemma_gen_none_pass(s, cal, b, a, m - 1, p);
        law_generated_ascending(s, cal, b, a, m - 1);
        match gen_range(s, cal, b, a, m - 1) {
            Ok(acc) => match entry_spec(s, cal, b, m - 1) {
                Ok(Some(t)) => {
                    lemma_filter_insert(acc, t, p);
                },
                _ => {},
            },
            Err(_) => {},
        }
    } else {
        assert(Seq::<(Instant, Seq<char>)>::empty().filter(p) =~= Seq::<(Instant, Seq<char>)>::empty());
    }
}

/// The reading `m` minutes after midnight of `day`, for a minute count below
/// two days, is on `day` or the next day at a valid time of day.
proof fn lemma_minute_reading(day: int, mm: int)
    requires
        0 <= mm < 2880,
    ensures
        day <= day + mm / 1440 <= day + 1,
        0 <= (mm % 1440) / 60 < 24,
        0 <= mm % 60 < 60,
{
    assert(0 <= mm / 1440 <= 1) by (nonlinear_arith)
        requires
            0 <= mm < 2880,
    ;
    assert(0 <= mm % 1440 < 1440) by (nonlinear_arith)
        requires
            0 <= mm,
    ;
    assert(0 <= (mm % 1440) / 60 < 24) by (nonlinear_arith)
        requires
            0 <= mm % 1440 < 1440,
    ;
    assert(0 <= mm % 60 < 60) by (nonlinear_arith)
        requires
            0 <= mm,
    ;
}

/// Every instant a reading resolves to is within a day of the reading taken
/// as UTC.
proof fn lemma_resolution_within(z: Seq<char>, d: int, h: int, m: int)
    requires
        MIN_DAYS <= d <= MAX_DAYS,
        0 <= h < 24,
        0 <= m < 60,
    ensures
        within_day(resolution_spec(z, d, h, m), naive_ms(d, h, m)),
{
    let n = naive_ms(d, h, m);
    assert(i64::MIN <= n <= i64::MAX) by (nonlinear_arith)
        requires
            n == (d - EPOCH_DAYS) * MS_PER_DAY + h * MS_PER_MINUTE * 60 + m * MS_PER_MINUTE,
            0 <= h < 24,
            0 <= m < 60,
            MIN_DAYS <= d <= MAX_DAYS,
    ;
}

/// The reading `mm` minutes after midnight of `day` is `mm` minutes after
/// that midnight taken as UTC.
proof fn lemma_minute_naive(day: int, mm: int)
    requires
        0 <= mm,
    ensures
        naive_ms(day + mm / 1440, (mm % 1440) / 60, mm % 60) == naive_ms(day, 0, 0) + mm * MS_PER_MINUTE,
{
    vstd::arithmetic::div_mod::lemma_fundamental_div_mod(mm, 1440);
    vstd::arithmetic::div_mod::lemma_fundamental_div_mod(mm % 1440, 60);
    vstd::arithmetic::div_mod::lemma_mod_mod(mm, 60, 24);
    assert(1440 * (mm / 1440) + 60 * ((mm % 1440) / 60) + (mm % 1440) % 60 == mm);
    assert((mm % 1440) % 60 == mm % 60) by {
        vstd::arithmetic::div_mod::lemma_fundamental_div_mod(mm, 60);
        vstd::arithmetic::div_mod::lemma_fundamental_div_mod(mm % 1440, 60);
        assert(mm == 1440 * (mm / 1440) + mm % 1440);
        assert(1440 * (mm / 1440) == 60 * (24 * (mm / 1440))) by (nonlinear_arith);
        vstd::arithmetic::div_mod::lemma_mod_multiples_vanish(24 * (mm / 1440), mm % 1440, 60);
    }
    assert(naive_ms(day + mm / 1440, (mm % 1440) / 60, mm % 60) == naive_ms(day, 0, 0) + (1440 * (mm
        / 1440) + 60 * ((mm % 1440) / 60) + mm % 60) * MS_PER_MINUTE) by (nonlinear_arith);
}

/// The shift past a gap on `day` lands less than a day before midnight of
/// `day` and less than two days and six hours after it.
proof fn lemma_shift_bounds(z: Seq<char>, day: int, m0: int, k: int)
    requires
        MIN_DAYS <= day,
        day + 1 <= MAX_DAYS,
        0 <= m0 < 1440,
        k >= 1,
    ensures
        shift_search(z, day, m0, k) matches Some(r) ==> naive_ms(day, 0, 0) - MS_PER_DAY < r.instant.ms
            < naive_ms(day, 0, 0) + 2 * MS_PER_DAY + 360 * MS_PER_MINUTE,
    decreases crate::zone::MAX_SHIFT_MINUTES + 1 - k,
{
    if k <= crate::zone::MAX_SHIFT_MINUTES {
        let mm = m0 + k;
        lemma_minute_reading(day, mm);
        lemma_minute_naive(day, mm);
        lemma_resolution_within(z, day + mm / 1440, (mm % 1440) / 60, mm % 60);
        lemma_shift_bounds(z, day, m0, k + 1);
    }
}

/// A reading on `d` resolves less than a day before midnight of `d` and
/// less than two days and six hours after it.
proof fn lemma_resolve_bounds(z: Seq<char>, d: Date, time: Time, mode: Nonexistent)
    requires
        MIN_DAYS <= d.days,
        d.days + 1 <= MAX_DAYS,
        time.valid(),
    ensures
        resolve_spec(z, d, time, mode) matches Some(r) ==> naive_ms(d.days as int, 0, 0) - MS_PER_DAY
            < r.instant.ms < naive_ms(d.days as int, 0, 0) + 2 * MS_PER_DAY + 360 * MS_PER_MINUTE,
{
    lemma_resolution_within(z, d.days as int, time.hour as int, time.minute as int);
    lemma_minute_naive(d.days as int, time.minute_of_day());
    assert(time.minute_of_day() / 1440 == 0 && (time.minute_of_day() % 1440) / 60 == time.hour
        && time.minute_of_day() % 60 == time.minute) by (nonlinear_arith)
        requires
            time.minute_of_day() == time.hour * 60 + time.minute,
            0 <= time.hour < 24,
            0 <= time.minute < 60,
    ;
    lemma_shift_bounds(z, d.days as int, time.minute_of_day(), 1);
}

/// An instant lies within its UTC day.
proof fn lemma_utc_day_bounds(ms: int)
    ensures
        (utc_day(ms) - EPOCH_DAYS) * MS_PER_DAY <= ms < (utc_day(ms) + 1 - EPOCH_DAYS) * MS_PER_DAY,
{
    let d = MS_PER_DAY as int;
    assert(d * (ms / d) <= ms < d * (ms / d) + d) by {
        vstd::arithmetic::div_mod::lemma_fundamental_div_mod(ms, d);
    }
    assert((ms / d) * d == d * (ms / d)) by (nonlinear_arith);
    assert((utc_day(ms) + 1 - EPOCH_DAYS) * MS_PER_DAY == (ms / d) * d + d) by (nonlinear_arith)
        requires
            utc_day(ms) - EPOCH_DAYS == ms / d,
            d == MS_PER_DAY,
    ;
}

/// Earlier slots that contribute nothing passing `p` leave the traces
/// passing `p` unchanged: generation from `a` agrees with generation from
/// `a2` on them, and succeeds when the longer range does.
proof fn lemma_gen_head<C: CalendarProvider>(
    s: Schedule,
    cal: C,
    b: Seq<Slot>,
    a: int,
    a2: int,
    n: int,
    p: spec_fn((Instant, Seq<char>)) -> bool,
)
    requires
        instant_pred(p),
        a <= a2,
        forall|j: int|
            a <= j < a2 ==> (#[trigger] entry_spec(s, cal, b, j) matches Ok(Some(t)) ==> !p(t)),
    ensures
        gen_range(s, cal, b, a, n) is Ok ==> gen_range(s, cal, b, a2, n) is Ok && gen_range(
            s,
            cal,
            b,
            a,
            n,
        )->Ok_0.filter(p) == gen_range(s, cal, b, a2, n)->Ok_0.filter(p),
    decreases n - a,
{
    reveal(Seq::filter);
    if n <= a2 {
        if gen_range(s, cal, b, a, n) is Ok {
            if n > a {
                lemma_gen_none_pass(s, cal, b, a, n, p);
            }
            assert(Seq::<(Instant, Seq<char>)>::empty().filter(p) =~= Seq::<(Instant, Seq<char>)>::empty());
        }
    } else {
        lemma_gen_head(s, cal, b, a, a2, n - 1, p);
        if gen_range(s, cal, b, a, n) is Ok {
            if gen_range(s, cal, b, a, n - 1) is Err {
                lemma_gen_err_persists(s, cal, b, a, n - 1, n);
            }
            law_generated_ascending(s, cal, b, a, n - 1);
            law_generated_ascending(s, cal, b, a2, n - 1);
            match entry_spec(s, cal, b, n - 1) {
                Ok(Some(t)) => {
                    lemma_filter_insert(gen_range(s, cal, b, a, n - 1)->Ok_0, t, p);
                    lemma_filter_insert(gen_range(s, cal, b, a2, n - 1)->Ok_0, t, p);
                },
                _ => {},
            }
        }
    }
}

/// Later slots that contribute nothing passing `p` leave the traces passing
/// `p` unchanged.
proof fn lemma_gen_tail<C: CalendarProvider>(
    s: Schedule,
    cal: C,
    b: Seq<Slot>,
    a: int,
    n0: int,
    n: int,
    p: spec_fn((Instant, Seq<char>)) -> bool,
)
    requires
        instant_pred(p),
        n0 <= n,
        forall|j: int|
            n0 <= j < n ==> (#[trigger] entry_spec(s, cal, b, j) matches Ok(Some(t)) ==> !p(t)),
    ensures
        gen_range(s, cal, b, a, n) is Ok ==> gen_range(s, cal, b, a, n0) is Ok && gen_range(
            s,
            cal,
            b,
            a,
            n,
        )->Ok_0.filter(p) == gen_range(s, cal, b, a, n0)->Ok_0.filter(p),
    decreases n - n0,
{
    if n > n0 {
        lemma_gen_tail(s, cal, b, a, n0, n - 1, p);
        if gen_range(s, cal, b, a, n) is Ok {
            if n - 1 >= a {
                if gen_range(s, cal, b, a, n - 1) is Err {
                    lemma_gen_err_persists(s, cal, b, a, n - 1, n);
                }
                law_generated_ascending(s, cal, b, a, n - 1);
                match entry_spec(s, cal, b, n - 1) {
                    Ok(Some(t)) => {
                        lemma_filter_insert(gen_range(s, cal, b, a, n - 1)->Ok_0, t, p);
                    },
                    _ => {},
                }
            }
        }
    }
}

/// Where slot `j` is dropped and moved, its destination is within fourteen
/// days of its date.
proof fn lemma_entry_dest<C: CalendarProvider>(s: Schedule, cal: C, b: Seq<Slot>, j: int)
    requires
        slots_ok(b),
        0 <= j < b.len(),
    ensures
        engine_day(b[j].date.days as int),
        b[j].time.valid(),
        dest_spec(s, cal, b, j) matches Ok(Some(d)) ==> b[j].date.days - 14 <= d.days <= b[j].date.days
            + 14,
{
    let date = b[j].date;
    let prev = if j > 0 {
        Some(b[j - 1].date)
    } else {
        None
    };
    let next = if j + 1 < b.len() {
        Some(b[j + 1].date)
    } else {
        None
    };
    let m = match overlay_result_spec(s.overlays@, 0, date, cal).1 {
        Some(m) => m,
        None => s.makeup,
    };
    lemma_make_up_distance(s, cal, date, prev, next, m);
}

/// A slot at least sixteen days after the UTC date of `u` contributes no
/// occurrence at or before `u`.
proof fn lemma_entry_after<C: CalendarProvider>(s: Schedule, cal: C, b: Seq<Slot>, j: int, u: int)
    requires
        slots_ok(b),
        0 <= j < b.len(),
        b[j].date.days >= utc_day(u) + 16,
    ensures
        entry_spec(s, cal, b, j) matches Ok(Some(t)) ==> t.0.ms > u,
{
    lemma_entry_dest(s, cal, b, j);
    lemma_utc_day_bounds(u);
    match dest_spec(s, cal, b, j) {
        Ok(Some(d)) => {
            lemma_resolve_bounds(s.timezone@, d, b[j].time, mode_spec(s.freq));
            assert((utc_day(u) + 1 - EPOCH_DAYS) * MS_PER_DAY <= naive_ms(d.days as int, 0, 0)
                - MS_PER_DAY) by (nonlinear_arith)
                requires
                    utc_day(u) + 2 <= d.days,
                    naive_ms(d.days as int, 0, 0) == (d.days - EPOCH_DAYS) * MS_PER_DAY,
            ;
        },
        _ => {},
    }
}

/// A slot at least seventeen days before the UTC date of `l` contributes no
/// occurrence after `l`.
proof fn lemma_entry_before<C: CalendarProvider>(s: Schedule, cal: C, b: Seq<Slot>, j: int, l: int)
    requires
        slots_ok(b),
        0 <= j < b.len(),
        b[j].date.days <= utc_day(l) - 17,
    ensures
        entry_spec(s, cal, b, j) matches Ok(Some(t)) ==> t.0.ms <= l,
{
    lemma_entry_dest(s, cal, b, j);
    lemma_utc_day_bounds(l);
    match dest_spec(s, cal, b, j) {
        Ok(Some(d)) => {
            lemma_resolve_bounds(s.timezone@, d, b[j].time, mode_spec(s.freq));
            assert(naive_ms(d.days as int, 0, 0) + 2 * MS_PER_DAY + 360 * MS_PER_MINUTE <= (utc_day(l)
                - EPOCH_DAYS) * MS_PER_DAY) by (nonlinear_arith)
                requires
                    d.days <= utc_day(l) - 3,
                    naive_ms(d.days as int, 0, 0) == (d.days - EPOCH_DAYS) * MS_PER_DAY,
            ;
        },
        _ => {},
    }
}

/// Day numbers of instants a query window accepts are engine days with room
/// for the window's date margins.
proof fn lemma_window_day(ms: int)
    requires
        window_instant(ms),
    ensures
        engine_day(utc_day(ms) - 16),
        engine_day(utc_day(ms) + 16),
        (utc_day(ms) - EPOCH_DAYS) * MS_PER_DAY <= ms < (utc_day(ms) + 1 - EPOCH_DAYS) * MS_PER_DAY,
{
    let d = MS_PER_DAY as int;
    lemma_utc_day_bounds(ms);
    assert(ms / d >= crate::civil::MIN_DAYS + 1100 - EPOCH_DAYS) by {
        vstd::arithmetic::div_mod::lemma_div_is_ordered(
            (crate::civil::MIN_DAYS + 1100 - EPOCH_DAYS) * d,
            ms,
            d,
        );
        vstd::arithmetic::div_mod::lemma_div_multiples_vanish(
            crate::civil::MIN_DAYS + 1100 - EPOCH_DAYS,
            d,
        );
    }
    assert(ms / d <= crate::civil::MAX_DAYS - 1100 - EPOCH_DAYS) by {
        vstd::arithmetic::div_mod::lemma_div_is_ordered(
            ms,
            (crate::civil::MAX_DAYS - 1100 - EPOCH_DAYS) * d,
            d,
        );
        vstd::arithmetic::div_mod::lemma_div_multiples_vanish(
            crate::civil::MAX_DAYS - 1100 - EPOCH_DAYS,
            d,
        );
    }
}

/// The UTC day of an instant does not decrease with it.
proof fn lemma_utc_day_monotone(a: int, b: int)
    requires
        a <= b,
    ensures
        utc_day(a) <= utc_day(b),
{
    vstd::arithmetic::div_mod::lemma_div_is_ordered(a, b, MS_PER_DAY as int);
}

/// The window `(lower, u)` generates, within its bounds, what the larger
/// window `(lower, b)` generates there: the slots the larger window adds
/// lie at least seventeen days after the UTC date of `u` and contribute
/// nothing before it.
proof fn lemma_window_upper<C: CalendarProvider>(
    s: Schedule,
    cal: C,
    lower: Instant,
    u: Instant,
    b: Instant,
)
    requires
        frequency_wf(s.freq),
        lower.ms < u.ms <= b.ms,
        window_instant(lower.ms as int),
        window_instant(b.ms as int),
    ensures
        window_spec(s, cal, lower, b) is Ok ==> window_spec(s, cal, lower, u) is Ok && window_spec(
            s,
            cal,
            lower,
            u,
        )->Ok_0.filter(bounds_pred(s, lower, u)) == window_spec(s, cal, lower, b)->Ok_0.filter(
            bounds_pred(s, lower, u),
        ),
{
    lemma_window_day(lower.ms as int);
    lemma_window_day(b.ms as int);
    lemma_window_day(u.ms as int);
    lemma_utc_day_monotone(lower.ms as int, u.ms as int);
    lemma_utc_day_monotone(u.ms as int, b.ms as int);
    let f = s.freq;
    let hu = utc_day(u.ms as int) + 16;
    let hb = utc_day(b.ms as int) + 16;
    let full = full_series(f);
    let head = base_seq(f, series_first_day(), hu);
    let rest = base_seq(f, hu + 1, series_last_day());
    lemma_base_seq_split(f, series_first_day(), hu, series_last_day());
    lemma_base_seq_split(f, series_first_day(), hb, series_last_day());
    lemma_base_seq_split(f, series_first_day(), hu, hb);
    lemma_base_seq_ok(f, series_first_day(), series_last_day());
    lemma_base_seq_slots(f, hu + 1, series_last_day());
    let p = bounds_pred(s, lower, u);
    assert(instant_pred(p));
    let n1 = series_index(f, hu + 1);
    let n2 = series_index(f, hb + 1);
    assert(n1 == head.len());
    assert forall|j: int| n1 <= j < n2 implies (#[trigger] entry_spec(s, cal, full, j) matches Ok(Some(t)) ==> !p(t)) by {
        assert(full[j] == (head + rest)[j]);
        assert(full[j] == rest[j - head.len()]);
        lemma_entry_after(s, cal, full, j, u.ms as int);
    }
    lemma_gen_tail(s, cal, full, series_index(f, utc_day(lower.ms as int) - 16), n1, n2, p);
}

/// The window `(l, upper)` generates, within its bounds, what the larger
/// window `(a, upper)` generates there: the slots the larger window adds
/// lie at least seventeen days before the UTC date of `l` and contribute
/// nothing after it.
proof fn lemma_window_lower<C: CalendarProvider>(
    s: Schedule,
    cal: C,
    a: Instant,
    l: Instant,
    upper: Instant,
)
    requires
        frequency_wf(s.freq),
        a.ms <= l.ms < upper.ms,
        window_instant(a.ms as int),
        window_instant(upper.ms as int),
    ensures
        window_spec(s, cal, a, upper) is Ok ==> window_spec(s, cal, l, upper) is Ok && window_spec(
            s,
            cal,
            l,
            upper,
        )->Ok_0.filter(bounds_pred(s, l, upper)) == window_spec(s, cal, a, upper)->Ok_0.filter(
            bounds_pred(s, l, upper),
        ),
{
    lemma_window_day(a.ms as int);
    lemma_window_day(l.ms as int);
    lemma_window_day(upper.ms as int);
    lemma_utc_day_monotone(a.ms as int, l.ms as int);
    lemma_utc_day_monotone(l.ms as int, upper.ms as int);
    let f = s.freq;
    let la = utc_day(a.ms as int) - 16;
    let ll = utc_day(l.ms as int) - 16;
    let full = full_series(f);
    let head = base_seq(f, series_first_day(), ll - 1);
    lemma_base_seq_split(f, series_first_day(), ll - 1, series_last_day());
    lemma_base_seq_split(f, series_first_day(), la - 1, ll - 1);
    lemma_base_seq_ok(f, series_first_day(), series_last_day());
    lemma_base_seq_slots(f, series_first_day(), ll - 1);
    let p = bounds_pred(s, l, upper);
    assert(instant_pred(p));
    let a1 = series_index(f, la);
    let a2 = series_index(f, ll);
    assert(a2 == head.len());
    let tail = base_seq(f, ll, series_last_day());
    assert(full == head + tail);
    assert(a1 >= 0);
    assert forall|j: int| a1 <= j < a2 implies (#[trigger] entry_spec(s, cal, full, j) matches Ok(Some(t)) ==> !p(t)) by {
        assert(full[j] == (head + tail)[j]);
        assert(full[j] == head[j]);
        lemma_entry_before(s, cal, full, j, l.ms as int);
    }
    lemma_gen_head(s, cal, full, a1, a2, series_index(f, utc_day(upper.ms as int) + 17), p);
}

/// Filtering twice is filtering once by both conditions.
proof fn lemma_filter_filter(
    ts: Seq<Entry>,
    p: spec_fn(Entry) -> bool,
    q: spec_fn(Entry) -> bool,
    r: spec_fn(Entry) -> bool,
)
    requires
        forall|e: Entry| #[trigger] r(e) == (p(e) && q(e)),
    ensures
        ts.filter(p).filter(q) == ts.filter(r),
    decreases ts.len(),
{
    reveal(Seq::filter);
    if ts.len() > 0 {
        lemma_filter_filter(ts.drop_last(), p, q, r);
        assert(r(ts.last()) == (p(ts.last()) && q(ts.last())));
        if p(ts.last()) {
            assert(ts.filter(p) == ts.drop_last().filter(p).push(ts.last()));
            assert(ts.drop_last().filter(p).push(ts.last()).drop_last() =~= ts.drop_last().filter(p));
        }
    }
}

/// The filter keeping traces before `u`.
pub open spec fn before_pred(u: int) -> spec_fn(Entry) -> bool {
    |t: Entry| t.0.ms < u
}

/// The filter keeping traces after `l`.
pub open spec fn after_pred(l: int) -> spec_fn(Entry) -> bool {
    |t: Entry| t.0.ms > l
}

/// In an ascending sequence the traces before `u` are a prefix.
proof fn lemma_filter_prefix(v: Seq<Entry>, u: int) -> (k: int)
    requires
        ascending(v),
    ensures
        0 <= k <= v.len(),
        v.filter(before_pred(u)) == v.take(k),
        forall|i: int| 0 <= i < k ==> #[trigger] v[i].0.ms < u,
        forall|i: int| k <= i < v.len() ==> #[trigger] v[i].0.ms >= u,
    decreases v.len(),
{
    reveal(Seq::filter);
    if v.len() == 0 {
        assert(v.take(0) =~= v);
        0
    } else {
        let dl = v.drop_last();
        assert(ascending(dl)) by {
            assert forall|i: int, j: int| 0 <= i < j < dl.len() implies dl[i].0.ms < dl[j].0.ms by {
                assert(dl[i] == v[i] && dl[j] == v[j]);
            }
        }
        let k0 = lemma_filter_prefix(dl, u);
        if v.last().0.ms < u {
            assert forall|i: int| 0 <= i < v.len() implies #[trigger] v[i].0.ms < u by {
                if i < v.len() - 1 {
                    assert(v[i].0.ms < v[v.len() - 1].0.ms);
                }
            }
            assert(k0 == dl.len()) by {
                if k0 < dl.len() {
                    assert(dl[k0].0.ms >= u);
                    assert(v[k0].0.ms < u);
                }
            }
            assert(dl.take(k0) =~= dl);
            assert(v.take(v.len() as int) =~= v);
            assert(dl.push(v.last()) =~= v);
            v.len() as int
        } else {
            assert(dl.take(k0) =~= v.take(k0));
            assert forall|i: int| 0 <= i < k0 implies #[trigger] v[i].0.ms < u by {
                assert(v[i] == dl[i]);
            }
            assert forall|i: int| k0 <= i < v.len() implies #[trigger] v[i].0.ms >= u by {
                if i < dl.len() {
                    assert(v[i] == dl[i]);
                }
            }
            k0
        }
    }
}

/// In an ascending sequence the traces after `l` are a suffix.
proof fn lemma_filter_suffix(v: Seq<Entry>, l: int) -> (k: int)
    requires
        ascending(v),
    ensures
        0 <= k <= v.len(),
        v.filter(after_pred(l)) == v.skip(k),
        forall|i: int| 0 <= i < k ==> #[trigger] v[i].0.ms <= l,
        forall|i: int| k <= i < v.len() ==> #[trigger] v[i].0.ms > l,
    decreases v.len(),
{
    reveal(Seq::filter);
    if v.len() == 0 {
        assert(v.skip(0) =~= v);
        0
    } else {
        let dl = v.drop_last();
        assert(ascending(dl)) by {
            assert forall|i: int, j: int| 0 <= i < j < dl.len() implies dl[i].0.ms < dl[j].0.ms by {
                assert(dl[i] == v[i] && dl[j] == v[j]);
            }
        }
        let k0 = lemma_filter_suffix(dl, l);
        if v.last().0.ms > l {
            assert(dl.skip(k0).push(v.last()) =~= v.skip(k0));
            assert forall|i: int| 0 <= i < k0 implies #[trigger] v[i].0.ms <= l by {
                assert(v[i] == dl[i]);
            }
            assert forall|i: int| k0 <= i < v.len() implies #[trigger] v[i].0.ms > l by {
                if i < dl.len() {
                    assert(v[i] == dl[i]);
                }
            }
            k0
        } else {
            assert forall|i: int| 0 <= i < v.len() implies #[trigger] v[i].0.ms <= l by {
                if i < v.len() - 1 {
                    assert(v[i].0.ms < v[v.len() - 1].0.ms);
                }
            }
            assert(k0 == dl.len()) by {
                if k0 < dl.len() {
                    assert(dl[k0].0.ms > l);
                    assert(v[k0].0.ms <= l);
                }
            }
            assert(dl.skip(k0) =~= Seq::<Entry>::empty());
            assert(v.skip(v.len() as int) =~= Seq::<Entry>::empty());
            v.len() as int
        }
    }
}

/// The gaps of a prefix are gaps of the whole.
proof fn lemma_gaps_take(v: Seq<Entry>, k: int, i: int, prev: int, g: int)
    requires
        0 <= k <= v.len(),
        0 <= i,
        gaps_within(v, i, prev, g),
    ensures
        gaps_within(v.take(k), i, prev, g),
    decreases v.len() - i,
{
    if i < k {
        assert(v.take(k)[i] == v[i]);
        lemma_gaps_take(v, k, i + 1, v[i].0.ms as int, g);
    }
}

/// The gaps of a suffix are gaps of the whole.
proof fn lemma_gaps_skip(v: Seq<Entry>, k: int, i: int, prev: int, g: int)
    requires
        0 <= k <= v.len(),
        0 <= i,
        gaps_within(v, k + i, prev, g),
    ensures
        gaps_within(v.skip(k), i, prev, g),
    decreases v.len() - k - i,
{
    if k + i < v.len() {
        assert(v.skip(k)[i] == v[k + i]);
        lemma_gaps_skip(v, k, i + 1, v[k + i].0.ms as int, g);
    }
}

/// Gaps hold from any later position, measured from its predecessor.
proof fn lemma_gaps_from(v: Seq<Entry>, i: int, j: int, prev: int, g: int)
    requires
        0 <= i < j <= v.len(),
        gaps_within(v, i, prev, g),
    ensures
        gaps_within(v, j, v[j - 1].0.ms as int, g),
    decreases j - i,
{
    if i + 1 < j {
        lemma_gaps_from(v, i + 1, j, v[i].0.ms as int, g);
    }
}

/// The forward-search window `(after, u)` holds the prefix of the occurrences
/// of `(after, b)` that precede `u`.
proof fn lemma_collect_upper<C: CalendarProvider>(
    s: Schedule,
    cal: C,
    after: Instant,
    u: Instant,
    b: Instant,
) -> (k: int)
    requires
        frequency_wf(s.freq),
        after.ms < u.ms <= b.ms,
        window_instant(after.ms as int),
        window_instant(b.ms as int),
    ensures
        collect_spec(s, cal, after, b, GapCheck::Closed) matches Ok(v) ==> {
            &&& 0 <= k <= v.len()
            &&& collect_spec(s, cal, after, u, GapCheck::Unchecked) == Ok::<Seq<Entry>, QueryError>(
                v.take(k),
            )
            &&& forall|i: int| k <= i < v.len() ==> #[trigger] v[i].0.ms >= u.ms
        },
{
    lemma_window_upper(s, cal, after, u, b);
    law_collect_ordered_in_bounds(s, cal, after, b, GapCheck::Closed);
    match collect_spec(s, cal, after, b, GapCheck::Closed) {
        Ok(v) => {
            let tb = window_spec(s, cal, after, b)->Ok_0;
            let tu = window_spec(s, cal, after, u)->Ok_0;
            let pb = bounds_pred(s, after, b);
            let pu = bounds_pred(s, after, u);
            assert(v == tb.filter(pb));
            lemma_filter_filter(tb, pb, before_pred(u.ms as int), pu);
            let k = lemma_filter_prefix(v, u.ms as int);
            assert(tu.filter(pu) == v.take(k));
            match s.max_skip_gap {
                Some(m) => {
                    lemma_gaps_take(v, k, 0, after.ms as int, m * MS_PER_DAY);
                },
                None => {},
            }
            k
        },
        Err(_) => 0,
    }
}

/// The backward-search window `(l, before)` holds the suffix of the occurrences
/// of `(a, before)` that follow `l`.
proof fn lemma_collect_lower<C: CalendarProvider>(
    s: Schedule,
    cal: C,
    a: Instant,
    l: Instant,
    before: Instant,
) -> (k: int)
    requires
        frequency_wf(s.freq),
        a.ms <= l.ms < before.ms,
        window_instant(a.ms as int),
        window_instant(before.ms as int),
    ensures
        collect_spec(s, cal, a, before, GapCheck::Closed) matches Ok(v) ==> {
            &&& 0 <= k <= v.len()
            &&& collect_spec(s, cal, l, before, GapCheck::Unchecked) == Ok::<Seq<Entry>, QueryError>(
                v.skip(k),
            )
            &&& forall|i: int| 0 <= i < k ==> #[trigger] v[i].0.ms <= l.ms
        },
{
    lemma_window_lower(s, cal, a, l, before);
    law_collect_ordered_in_bounds(s, cal, a, before, GapCheck::Closed);
    match collect_spec(s, cal, a, before, GapCheck::Closed) {
        Ok(v) => {
            let ta = window_spec(s, cal, a, before)->Ok_0;
            let tl = window_spec(s, cal, l, before)->Ok_0;
            let pa = bounds_pred(s, a, before);
            let pl = bounds_pred(s, l, before);
            assert(v == ta.filter(pa));
            lemma_filter_filter(ta, pa, after_pred(l.ms as int), pl);
            let k = lemma_filter_suffix(v, l.ms as int);
            let w = v.skip(k);
            assert(tl.filter(pl) == w);
            match s.max_skip_gap {
                Some(m) => {
                    let g = m * MS_PER_DAY;
                    if w.len() > 0 {
                        assert(w[0] == v[k]);
                        if k > 0 {
                            lemma_gaps_from(v, 0, k + 1, a.ms as int, g);
                        } else {
                            lemma_gaps_from(v, 0, 1, a.ms as int, g);
                        }
                        lemma_gaps_skip(v, k, 1, v[k].0.ms as int, g);
                        assert(w.last() == v.last());
                    } else if v.len() > 0 {
                        assert(v.last().0.ms <= l.ms);
                    }
                },
                None => {},
            }
            k
        },
        Err(_) => 0,
    }
}

/// A prefix of occurrences that pass the closed gap check passes the check
/// that leaves the tail open.
proof fn lemma_prefix_gaps(s: Schedule, v: Seq<Entry>, m: int, lower: int, upper: int, u2: int)
    requires
        0 <= m <= v.len(),
        gap_check_spec(s, lower, upper, v, GapCheck::Closed),
    ensures
        gap_check_spec(s, lower, u2, v.take(m), GapCheck::OpenTail),
{
    match s.max_skip_gap {
        Some(g) => {
            lemma_gaps_take(v, m, 0, lower, g * MS_PER_DAY);
        },
        None => {},
    }
}

proof fn lemma_upcoming_prefix<C: CalendarProvider>(
    s: Schedule,
    cal: C,
    n: nat,
    after: Instant,
    span: int,
)
    requires
        frequency_wf(s.freq),
        crate::zone::query_instant(after.ms as int),
        1 <= span <= ABSOLUTE_HORIZON_DAYS,
        forward_cap(s, after) > after.ms,
        collect_spec(
            s,
            cal,
            after,
            Instant { ms: forward_cap(s, after) as i64 },
            GapCheck::Closed,
        ) is Ok,
    ensures
        ({
            let v = collect_spec(
                s,
                cal,
                after,
                Instant { ms: forward_cap(s, after) as i64 },
                GapCheck::Closed,
            )->Ok_0;
            upcoming_from(s, cal, n, after, span) == Ok::<Seq<Entry>, QueryError>(
                v.take(
                    if v.len() >= n {
                        n as int
                    } else {
                        v.len() as int
                    },
                ),
            )
        }),
    decreases ABSOLUTE_HORIZON_DAYS - span,
{
    let cap = forward_cap(s, after);
    let ci = Instant { ms: cap as i64 };
    let upper = crate::engine::min_int(after.ms + span * MS_PER_DAY, cap);
    let ui = Instant { ms: upper as i64 };
    let v = collect_spec(s, cal, after, ci, GapCheck::Closed)->Ok_0;
    law_collect_ordered_in_bounds(s, cal, after, ci, GapCheck::Closed);
    let k = lemma_collect_upper(s, cal, after, ui, ci);
    if k >= n {
        assert(v.take(k).take(n as int) =~= v.take(n as int));
        lemma_prefix_gaps(s, v, n as int, after.ms as int, cap, upper);
    } else if upper >= cap {
        assert(k == v.len()) by {
            if k < v.len() {
                assert(in_bounds(s, after, ci, v[k].0));
                assert(v[k].0.ms >= ui.ms);
            }
        }
        lemma_prefix_gaps(s, v, k, after.ms as int, cap, upper);
        assert(v.take(k) =~= v);
    } else {
        lemma_upcoming_prefix(s, cal, n, after, next_span(span));
    }
}

/// `upcoming(n)` is the start of `until(end)`: in every zone, the `n`
/// occurrences `upcoming` returns are the first `n` that
/// `until` lists up to the schedule's end (or up to the fifty-year search
/// horizon, when that comes first), or all of them when it lists fewer.
pub proof fn law_upcoming_is_until_prefix<C: CalendarProvider>(
    s: Schedule,
    cal: C,
    n: nat,
    after: Instant,
)
    requires
        frequency_wf(s.freq),
        crate::zone::query_instant(after.ms as int),
    ensures
        until_spec(s, cal, Instant { ms: forward_cap(s, after) as i64 }, after) matches Ok(v)
            ==> upcoming_spec(s, cal, n, after) == Ok::<Seq<Entry>, QueryError>(
            v.take(
                if v.len() >= n {
                    n as int
                } else {
                    v.len() as int
                },
            ),
        ),
{
    let cap = forward_cap(s, after);
    if n == 0 {
        if until_spec(s, cal, Instant { ms: cap as i64 }, after) is Ok {
            let v = until_spec(s, cal, Instant { ms: cap as i64 }, after)->Ok_0;
            assert(v.take(0) =~= Seq::<Entry>::empty());
        }
    } else if cap > after.ms {
        if until_spec(s, cal, Instant { ms: cap as i64 }, after) is Ok {
            lemma_upcoming_prefix(s, cal, n, after, INITIAL_HORIZON_DAYS as int);
        }
    } else {
        assert(forward_cap(s, after) <= after.ms);
        reveal_with_fuel(upcoming_from, 2);
        let upper = crate::engine::min_int(after.ms + INITIAL_HORIZON_DAYS * MS_PER_DAY, cap);
        assert(upper == cap);
        let v = until_spec(s, cal, Instant { ms: cap as i64 }, after)->Ok_0;
        assert(v.take(0) =~= Seq::<Entry>::empty());
    }
}

/// `until(end)` begins with `next()`: in every zone, the first occurrence that
/// `until` lists up to the schedule's end (or up to the fifty-year search
/// horizon, when that comes first) is the one `next` returns, and `next`
/// returns none when `until` lists none.
pub proof fn law_until_end_starts_with_next<C: CalendarProvider>(
    s: Schedule,
    cal: C,
    after: Instant,
)
    requires
        frequency_wf(s.freq),
        crate::zone::query_instant(after.ms as int),
    ensures
        until_spec(s, cal, Instant { ms: forward_cap(s, after) as i64 }, after) matches Ok(v)
            ==> next_spec(s, cal, after) == Ok::<Option<Entry>, QueryError>(
            if v.len() > 0 {
                Some(v[0])
            } else {
                None
            },
        ),
{
    law_upcoming_is_until_prefix(s, cal, 1, after);
    if until_spec(s, cal, Instant { ms: forward_cap(s, after) as i64 }, after) is Ok {
        let v = until_spec(s, cal, Instant { ms: forward_cap(s, after) as i64 }, after)->Ok_0;
        if v.len() > 0 {
            assert(v.take(1)[0] == v[0]);
        }
    }
}

proof fn lemma_previous_last<C: CalendarProvider>(
    s: Schedule,
    cal: C,
    before: Instant,
    span: int,
)
    requires
        frequency_wf(s.freq),
        crate::zone::query_instant(before.ms as int),
        1 <= span <= ABSOLUTE_HORIZON_DAYS,
        backward_cap(s, before) < before.ms,
        collect_spec(
            s,
            cal,
            Instant { ms: backward_cap(s, before) as i64 },
            before,
            GapCheck::Closed,
        ) is Ok,
    ensures
        ({
            let v = collect_spec(
                s,
                cal,
                Instant { ms: backward_cap(s, before) as i64 },
                before,
                GapCheck::Closed,
            )->Ok_0;
            previous_from(s, cal, before, span) == Ok::<Option<Entry>, QueryError>(
                if v.len() > 0 {
                    Some(v.last())
                } else {
                    None
                },
            )
        }),
    decreases ABSOLUTE_HORIZON_DAYS - span,
{
    let cap = backward_cap(s, before);
    let ci = Instant { ms: cap as i64 };
    let lower = crate::engine::max_int(before.ms - span * MS_PER_DAY, cap);
    let li = Instant { ms: lower as i64 };
    let v = collect_spec(s, cal, ci, before, GapCheck::Closed)->Ok_0;
    law_collect_ordered_in_bounds(s, cal, ci, before, GapCheck::Closed);
    let k = lemma_collect_lower(s, cal, ci, li, before);
    if k < v.len() {
        assert(v.skip(k).last() == v.last());
        let x = v.last();
        assert(gap_check_spec(s, lower, before.ms as int, seq![x], GapCheck::OpenHead)) by {
            match s.max_skip_gap {
                Some(g) => {
                    let gm = g * MS_PER_DAY;
                    assert(gaps_within(seq![x], 1, x.0.ms as int, gm));
                    assert(gaps_within(seq![x], 0, x.0.ms as int, gm));
                },
                None => {},
            }
        }
    } else if lower <= cap {
        if v.len() > 0 {
            assert(in_bounds(s, ci, before, v[0].0));
            assert(v[0].0.ms <= li.ms);
        }
    } else {
        lemma_previous_last(s, cal, before, next_span(span));
    }
}

/// `since(start)` begins with `previous()`: in every zone, the first occurrence
/// that `since` lists back to the schedule's start (or back to the fifty-year
/// search horizon, when that comes first) is the one `previous` returns, and
/// `previous` returns none when `since` lists none.
pub proof fn law_since_start_starts_with_previous<C: CalendarProvider>(
    s: Schedule,
    cal: C,
    before: Instant,
)
    requires
        frequency_wf(s.freq),
        crate::zone::query_instant(before.ms as int),
    ensures
        since_spec(s, cal, Instant { ms: backward_cap(s, before) as i64 }, before) matches Ok(v)
            ==> previous_spec(s, cal, before) == Ok::<Option<Entry>, QueryError>(
            if v.len() > 0 {
                Some(v[0])
            } else {
                None
            },
        ),
{
    let cap = backward_cap(s, before);
    if cap < before.ms {
        let ci = Instant { ms: cap as i64 };
        if collect_spec(s, cal, ci, before, GapCheck::Closed) is Ok {
            lemma_previous_last(s, cal, before, INITIAL_HORIZON_DAYS as int);
            let u = collect_spec(s, cal, ci, before, GapCheck::Closed)->Ok_0;
            if u.len() > 0 {
                assert(u.reverse()[0] == u.last());
            }
        }
    }
}

/// `is_occurrence` agrees with `until`: in every zone, for an instant `x`
/// strictly inside `(after, before)`, `x` is an occurrence exactly when
/// `until(before, after)` lists it. Without a `max_skip_gap` the check on `x`
/// succeeds whenever `until` does.
pub proof fn law_is_occurrence_agrees_with_until<C: CalendarProvider>(
    s: Schedule,
    cal: C,
    after: Instant,
    before: Instant,
    x: Instant,
)
    requires
        frequency_wf(s.freq),
        window_instant(after.ms as int),
        window_instant(before.ms as int),
        after.ms < x.ms < before.ms,
    ensures
        until_spec(s, cal, before, after) is Ok && s.max_skip_gap is None ==> is_occurrence_spec(
            s,
            cal,
            x,
        ) is Ok,
        until_spec(s, cal, before, after) matches Ok(v) ==> (is_occurrence_spec(s, cal, x) matches Ok(
            b,
        ) ==> (b <==> instants(v).contains(x))),
{
    let l = Instant { ms: (x.ms - 1) as i64 };
    let u = Instant { ms: (x.ms + 1) as i64 };
    lemma_window_lower(s, cal, after, l, before);
    lemma_window_upper(s, cal, l, u, before);
    if window_spec(s, cal, after, before) is Ok {
        let ta = window_spec(s, cal, after, before)->Ok_0;
        let tl = window_spec(s, cal, l, before)->Ok_0;
        let tu = window_spec(s, cal, l, u)->Ok_0;
        let pab = bounds_pred(s, after, before);
        let plb = bounds_pred(s, l, before);
        let plu = bounds_pred(s, l, u);
        assert forall|e: Entry| #[trigger] plu(e) == (plb(e) && plu(e)) by {}
        assert forall|e: Entry| #[trigger] plu(e) == (pab(e) && plu(e)) by {}
        lemma_filter_filter(tl, plb, plu, plu);
        lemma_filter_filter(ta, plb, plu, plu);
        lemma_filter_filter(ta, pab, plu, plu);
        let v = ta.filter(pab);
        let k = tu.filter(plu);
        assert(k == v.filter(plu));
        assert(instants(k).contains(x) <==> instants(v).contains(x)) by {
            if instants(k).contains(x) {
                let i = choose|i: int| 0 <= i < instants(k).len() && instants(k)[i] == x;
                assert(k.contains(k[i]));
                v.lemma_filter_contains_rev(plu, k[i]);
                let j = choose|j: int| 0 <= j < v.len() && v[j] == k[i];
                assert(instants(v)[j] == x);
            }
            if instants(v).contains(x) {
                let j = choose|j: int| 0 <= j < instants(v).len() && instants(v)[j] == x;
                ta.lemma_filter_pred(pab, j);
                assert(plu(v[j]));
                v.lemma_filter_contains(plu, j);
                let i = choose|i: int| 0 <= i < k.len() && k[i] == v[j];
                assert(instants(k)[i] == x);
            }
        }
    }
}

/// `until` splits at any instant that is not an occurrence: for a schedule
/// without a `max_skip_gap`, in every zone, when `until(before, after)`
/// succeeds and does not list `mid`, the halves `until(mid, after)` and
/// `until(before, mid)` succeed and together list it.
pub proof fn law_until_splits<C: CalendarProvider>(
    s: Schedule,
    cal: C,
    after: Instant,
    mid: Instant,
    before: Instant,
)
    requires
        s.max_skip_gap is None,
        frequency_wf(s.freq),
        window_instant(after.ms as int),
        window_instant(before.ms as int),
        after.ms < mid.ms < before.ms,
    ensures
        until_spec(s, cal, before, after) matches Ok(v) ==> (!instants(v).contains(mid) ==> {
            &&& until_spec(s, cal, mid, after) is Ok
            &&& until_spec(s, cal, before, mid) is Ok
            &&& v == until_spec(s, cal, mid, after)->Ok_0 + until_spec(s, cal, before, mid)->Ok_0
        }),
{
    let k1 = lemma_collect_upper(s, cal, after, mid, before);
    let k2 = lemma_collect_lower(s, cal, after, mid, before);
    law_collect_ordered_in_bounds(s, cal, after, before, GapCheck::Closed);
    match until_spec(s, cal, before, after) {
        Ok(v) => {
            if !instants(v).contains(mid) {
                law_collect_ordered_in_bounds(s, cal, after, mid, GapCheck::Unchecked);
                law_collect_ordered_in_bounds(s, cal, mid, before, GapCheck::Unchecked);
                assert(k1 == k2) by {
                    if k1 < k2 {
                        assert(v[k1].0.ms >= mid.ms);
                        assert(v[k1].0.ms <= mid.ms);
                        assert(v[k1].0 == mid);
                        assert(instants(v)[k1] == v[k1].0);
                    } else if k2 < k1 {
                        assert(v.take(k1)[k2] == v[k2]);
                        assert(in_bounds(s, after, mid, v.take(k1)[k2].0));
                        assert(v.skip(k2)[0] == v[k2]);
                        assert(in_bounds(s, mid, before, v.skip(k2)[0].0));
                    }
                }
                assert(v.take(k1) + v.skip(k1) =~= v);
            }
        },
        Err(_) => {},
    }
}

/// `next` is the first occurrence: for a schedule without a `max_skip_gap`, in
/// every zone, when `until` succeeds up to the schedule's end (or the
/// fifty-year search horizon), `next` succeeds; what it returns is an
/// occurrence with none between `after` and it, and it returns none only when
/// that `until` lists none.
pub proof fn law_next_is_first_occurrence<C: CalendarProvider>(
    s: Schedule,
    cal: C,
    after: Instant,
)
    requires
        s.max_skip_gap is None,
        frequency_wf(s.freq),
        crate::zone::query_instant(after.ms as int),
    ensures
        until_spec(s, cal, Instant { ms: forward_cap(s, after) as i64 }, after) matches Ok(v) ==> {
            &&& next_spec(s, cal, after) is Ok
            &&& next_spec(s, cal, after) == Ok::<Option<Entry>, QueryError>(None) ==> v.len() == 0
            &&& next_spec(s, cal, after) matches Ok(Some(t)) ==> {
                &&& until_spec(s, cal, t.0, after) == Ok::<Seq<Entry>, QueryError>(Seq::empty())
                &&& is_occurrence_spec(s, cal, t.0) == Ok::<bool, QueryError>(true)
            }
        },
{
    let cap = forward_cap(s, after);
    let ci = Instant { ms: cap as i64 };
    law_until_end_starts_with_next(s, cal, after);
    match until_spec(s, cal, ci, after) {
        Ok(v) => {
            if v.len() > 0 {
                law_collect_ordered_in_bounds(s, cal, after, ci, GapCheck::Closed);
                let t = v[0];
                assert(in_bounds(s, after, ci, t.0));
                let k = lemma_collect_upper(s, cal, after, t.0, ci);
                law_collect_ordered_in_bounds(s, cal, after, t.0, GapCheck::Unchecked);
                assert(k == 0) by {
                    if k > 0 {
                        assert(v.take(k)[0] == v[0]);
                        assert(in_bounds(s, after, t.0, v.take(k)[0].0));
                    }
                }
                assert(v.take(0) =~= Seq::<Entry>::empty());
                law_is_occurrence_agrees_with_until(s, cal, after, ci, t.0);
                assert(instants(v)[0] == t.0);
            }
        },
        Err(_) => {},
    }
}

/// `previous` is the last occurrence: for a schedule without a `max_skip_gap`,
/// in every zone, when `since` succeeds back to the schedule's start (or the
/// fifty-year search horizon), `previous` succeeds; what it returns is an
/// occurrence with none between it and `before`, and it returns none only when
/// that `since` lists none.
pub proof fn law_previous_is_last_occurrence<C: CalendarProvider>(
    s: Schedule,
    cal: C,
    before: Instant,
)
    requires
        s.max_skip_gap is None,
        frequency_wf(s.freq),
        crate::zone::query_instant(before.ms as int),
    ensures
        since_spec(s, cal, Instant { ms: backward_cap(s, before) as i64 }, before) matches Ok(w) ==> {
            &&& previous_spec(s, cal, before) is Ok
            &&& previous_spec(s, cal, before) == Ok::<Option<Entry>, QueryError>(None) ==> w.len()
                == 0
            &&& previous_spec(s, cal, before) matches Ok(Some(t)) ==> {
                &&& until_spec(s, cal, before, t.0) == Ok::<Seq<Entry>, QueryError>(Seq::empty())
                &&& is_occurrence_spec(s, cal, t.0) == Ok::<bool, QueryError>(true)
            }
        },
{
    let cap = backward_cap(s, before);
    let ci = Instant { ms: cap as i64 };
    law_since_start_starts_with_previous(s, cal, before);
    match collect_spec(s, cal, ci, before, GapCheck::Closed) {
        Ok(v) => {
            if v.len() > 0 {
                assert(v.reverse()[0] == v.last());
                law_collect_ordered_in_bounds(s, cal, ci, before, GapCheck::Closed);
                let t = v.last();
                assert(in_bounds(s, ci, before, t.0));
                let k = lemma_collect_lower(s, cal, ci, t.0, before);
                law_collect_ordered_in_bounds(s, cal, t.0, before, GapCheck::Unchecked);
                assert(k == v.len()) by {
                    if k < v.len() {
                        assert(v.skip(k)[v.len() - 1 - k] == v.last());
                        assert(in_bounds(s, t.0, before, v.skip(k)[v.len() - 1 - k].0));
                    }
                }
                assert(v.skip(k) =~= Seq::<Entry>::empty());
                law_is_occurrence_agrees_with_until(s, cal, ci, before, t.0);
                assert(instants(v)[v.len() - 1] == t.0);
            }
        },
        Err(_) => {},
    }
}

/// Where makeup failures are not raised as errors, generation never fails.
proof fn lemma_gen_ok<C: CalendarProvider>(s: Schedule, cal: C, b: Seq<Slot>, a: int, n: int)
    requires
        s.makeup_failure != MakeupFailure::Error,
    ensures
        gen_range(s, cal, b, a, n) is Ok,
    decreases n - a,
{
    if n > a {
        lemma_gen_ok(s, cal, b, a, n - 1);
        assert(dest_spec(s, cal, b, n - 1) is Ok);
        assert(entry_spec(s, cal, b, n - 1) is Ok);
    }
}

/// Without a `max_skip_gap`, and where makeup failures are not raised as
/// errors, every window's occurrences can be collected.
proof fn lemma_collect_ok<C: CalendarProvider>(
    s: Schedule,
    cal: C,
    lower: Instant,
    upper: Instant,
    gap: GapCheck,
)
    requires
        s.max_skip_gap is None,
        s.makeup_failure != MakeupFailure::Error,
    ensures
        collect_spec(s, cal, lower, upper, gap) is Ok,
{
    let f = s.freq;
    lemma_gen_ok(
        s,
        cal,
        full_series(f),
        series_index(f, utc_day(lower.ms as int) - crate::query::WINDOW_DATE_MARGIN),
        series_index(f, utc_day(upper.ms as int) + crate::query::WINDOW_DATE_MARGIN + 1),
    );
}

/// `next` is the first occurrence `until` lists: in every zone, for a
/// schedule without a `max_skip_gap` whose makeup failures are not raised as
/// errors, when `until(before, after)` lists occurrences and `before` is no
/// later than the schedule's end and the fifty-year search horizon, `next`
/// returns the first of them.
pub proof fn law_next_is_first_of_until<C: CalendarProvider>(
    s: Schedule,
    cal: C,
    after: Instant,
    before: Instant,
)
    requires
        s.max_skip_gap is None,
        s.makeup_failure != MakeupFailure::Error,
        frequency_wf(s.freq),
        crate::zone::query_instant(after.ms as int),
        after.ms < before.ms <= forward_cap(s, after),
    ensures
        until_spec(s, cal, before, after) matches Ok(v) ==> (v.len() > 0 ==> next_spec(s, cal, after)
            == Ok::<Option<Entry>, QueryError>(Some(v[0]))),
{
    let ci = Instant { ms: forward_cap(s, after) as i64 };
    lemma_collect_ok(s, cal, after, ci, GapCheck::Closed);
    law_until_end_starts_with_next(s, cal, after);
    let big = collect_spec(s, cal, after, ci, GapCheck::Closed)->Ok_0;
    let k = lemma_collect_upper(s, cal, after, before, ci);
    assert(collect_spec(s, cal, after, before, GapCheck::Closed) == collect_spec(
        s,
        cal,
        after,
        before,
        GapCheck::Unchecked,
    ));
    if k > 0 {
        assert(big.take(k)[0] == big[0]);
    }
}

/// `previous` is the first occurrence `since` lists: in every zone, for a
/// schedule without a `max_skip_gap` whose makeup failures are not raised as
/// errors, when `since(after, before)` lists occurrences and `after` is no
/// earlier than the schedule's start and the fifty-year search horizon,
/// `previous` returns the first of them (the latest).
pub proof fn law_previous_is_first_of_since<C: CalendarProvider>(
    s: Schedule,
    cal: C,
    after: Instant,
    before: Instant,
)
    requires
        s.max_skip_gap is None,
        s.makeup_failure != MakeupFailure::Error,
        frequency_wf(s.freq),
        crate::zone::query_instant(before.ms as int),
        backward_cap(s, before) <= after.ms < before.ms,
    ensures
        since_spec(s, cal, after, before) matches Ok(v) ==> (v.len() > 0 ==> previous_spec(
            s,
            cal,
            before,
        ) == Ok::<Option<Entry>, QueryError>(Some(v[0]))),
{
    let ci = Instant { ms: backward_cap(s, before) as i64 };
    lemma_collect_ok(s, cal, ci, before, GapCheck::Closed);
    law_since_start_starts_with_previous(s, cal, before);
    let big = collect_spec(s, cal, ci, before, GapCheck::Closed)->Ok_0;
    let k = lemma_collect_lower(s, cal, ci, after, before);
    assert(collect_spec(s, cal, after, before, GapCheck::Closed) == collect_spec(
        s,
        cal,
        after,
        before,
        GapCheck::Unchecked,
    ));
    let w = big.skip(k);
    if w.len() > 0 {
        assert(w.reverse()[0] == w.last());
        assert(w.last() == big.last());
        assert(big.reverse()[0] == big.last());
    }
}

} // verus!
