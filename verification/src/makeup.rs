//! Makeup: moving an occurrence that an overlay dropped to a nearby day that
//! survives, within the schedule's hop limits and destination constraints.

use crate::base::engine_day;
use crate::calendar::CalendarProvider;
use crate::civil::{weekday_index, Date, Weekday};
use crate::overlay::survives_spec;
use crate::schedule::{Makeup, MakeupDirection, MakeupStep, Schedule};
use vstd::prelude::*;

verus! {

/// Maximum days a makeup search scans before giving up.
pub const MAX_MAKEUP_DAYS: u32 = 14;

/// The result of applying makeup to a dropped occurrence.
#[derive(Clone, Copy, PartialEq, Eq, Structural, Debug)]
pub enum MakeupOutcome {
    /// Moved to this date.
    Moved(Date),
    /// Makeup was attempted but found no valid destination.
    Failed,
    /// Makeup is switched off for this occurrence.
    Disabled,
}

/// The Monday that starts the ISO week of day number `d`: two days are in the
/// same ISO week exactly when their Mondays are equal.
pub open spec fn week_monday(d: int) -> int {
    d - weekday_index(d)
}

/// Whether `candidate` may receive the occurrence dropped on `original`,
/// given the adjacent base dates.
pub open spec fn valid_target_spec<C: CalendarProvider>(
    s: Schedule,
    cal: C,
    original: Date,
    candidate: Date,
    prev: Option<Date>,
    next: Option<Date>,
) -> bool {
    &&& !(s.makeup_within_week && week_monday(candidate.days as int) != week_monday(
        original.days as int,
    ))
    &&& !(s.makeup_exclude_weekends && weekday_index(candidate.days as int) >= 5)
    &&& !(s.makeup_before_next && (next matches Some(n) && original.days < n.days && candidate.days
        >= n.days))
    &&& !(s.makeup_before_next && (prev matches Some(p) && p.days < original.days && candidate.days
        <= p.days))
    &&& survives_spec(s, candidate, cal)
    &&& match s.makeup_only_on {
        Some(days) => days@.contains(candidate.weekday_spec()),
        None => true,
    }
}

/// The date `k` days after `d`.
pub open spec fn shift(d: Date, k: int) -> Date {
    Date { days: (d.days + k) as i32 }
}

/// The first valid destination at hop `k..=max_hops` in direction `dir`
/// (`Nearest` tries the later day before the earlier one at each hop).
pub open spec fn search_spec<C: CalendarProvider>(
    s: Schedule,
    cal: C,
    date: Date,
    prev: Option<Date>,
    next: Option<Date>,
    dir: MakeupDirection,
    max_hops: int,
    k: int,
) -> Option<Date>
    decreases max_hops + 1 - k,
{
    if k < 1 || k > max_hops {
        None
    } else {
        let later = shift(date, k);
        let earlier = shift(date, -k);
        match dir {
            MakeupDirection::Nearest => if valid_target_spec(s, cal, date, later, prev, next) {
                Some(later)
            } else if valid_target_spec(s, cal, date, earlier, prev, next) {
                Some(earlier)
            } else {
                search_spec(s, cal, date, prev, next, dir, max_hops, k + 1)
            },
            MakeupDirection::Before => if valid_target_spec(s, cal, date, earlier, prev, next) {
                Some(earlier)
            } else {
                search_spec(s, cal, date, prev, next, dir, max_hops, k + 1)
            },
            _ => if valid_target_spec(s, cal, date, later, prev, next) {
                Some(later)
            } else {
                search_spec(s, cal, date, prev, next, dir, max_hops, k + 1)
            },
        }
    }
}

/// The schedule-level hop limit: `max_makeup_hops`, at most 14.
pub open spec fn default_hops(s: Schedule) -> int {
    match s.max_makeup_hops {
        Some(h) => if h < MAX_MAKEUP_DAYS {
            h as int
        } else {
            MAX_MAKEUP_DAYS as int
        },
        None => MAX_MAKEUP_DAYS as int,
    }
}

/// A step's hop limit: its own cap, at most the schedule-level limit.
pub open spec fn step_limit(s: Schedule, max_hops: Option<u32>) -> int {
    match max_hops {
        Some(h) => if h < default_hops(s) {
            h as int
        } else {
            default_hops(s)
        },
        None => default_hops(s),
    }
}

/// The outcome of trying `steps[i..]` in order; `attempted` records whether an
/// earlier step searched (or had a zero hop limit).
pub open spec fn steps_outcome_spec<C: CalendarProvider>(
    s: Schedule,
    cal: C,
    date: Date,
    prev: Option<Date>,
    next: Option<Date>,
    steps: Seq<MakeupStep>,
    i: int,
    attempted: bool,
) -> MakeupOutcome
    decreases steps.len() - i,
{
    if i < 0 || i >= steps.len() {
        if attempted {
            MakeupOutcome::Failed
        } else {
            MakeupOutcome::Disabled
        }
    } else {
        let (dir, max_hops) = steps[i].parts_spec();
        if dir == MakeupDirection::Skip {
            MakeupOutcome::Disabled
        } else {
            let limit = step_limit(s, max_hops);
            match search_spec(s, cal, date, prev, next, dir, limit, 1) {
                Some(d) => MakeupOutcome::Moved(d),
                None => steps_outcome_spec(s, cal, date, prev, next, steps, i + 1, true),
            }
        }
    }
}

/// The makeup of the occurrence dropped on `date` under rule `makeup`.
pub open spec fn make_up_spec<C: CalendarProvider>(
    s: Schedule,
    cal: C,
    date: Date,
    prev: Option<Date>,
    next: Option<Date>,
    makeup: Makeup,
) -> MakeupOutcome {
    steps_outcome_spec(s, cal, date, prev, next, makeup.steps_spec(date.weekday_spec()), 0, false)
}

fn weekday_listed(days: &Vec<Weekday>, w: Weekday) -> (r: bool)
    ensures
        r == days@.contains(w),
{
    let mut i: usize = 0;
    while i < days.len()
        invariant
            i <= days.len(),
            forall|j: int| 0 <= j < i ==> days@[j] != w,
        decreases days.len() - i,
    {
        if days[i] == w {
            return true;
        }
        i = i + 1;
    }
    false
}

impl Schedule {
    /// Whether `candidate` may receive the occurrence dropped on `original`.
    pub fn valid_makeup_target<C: CalendarProvider>(
        &self,
        original: Date,
        candidate: Date,
        previous_base: Option<Date>,
        next_base: Option<Date>,
        cal: &C,
    ) -> (r: bool)
        requires
            original.in_range(),
            candidate.in_range(),
        ensures
            r == valid_target_spec(*self, *cal, original, candidate, previous_base, next_base),
    {
        let cw = candidate.weekday();
        if self.makeup_within_week {
            let ow = original.weekday();
            let cm: i64 = candidate.days as i64 - cw.num_days_from_monday() as i64;
            let om: i64 = original.days as i64 - ow.num_days_from_monday() as i64;
            if cm != om {
                return false;
            }
        }
        if self.makeup_exclude_weekends && cw.num_days_from_monday() >= 5 {
            return false;
        }
        if self.makeup_before_next {
            if let Some(next) = next_base {
                if original.days < next.days && candidate.days >= next.days {
                    return false;
                }
            }
            if let Some(previous) = previous_base {
                if previous.days < original.days && candidate.days <= previous.days {
                    return false;
                }
            }
        }
        if !self.survives(candidate, cal) {
            return false;
        }
        match &self.makeup_only_on {
            Some(days) => weekday_listed(days, cw),
            None => true,
        }
    }

    /// The first valid destination within `max_hops` days in direction `dir`.
    fn search_makeup<C: CalendarProvider>(
        &self,
        date: Date,
        previous_base: Option<Date>,
        next_base: Option<Date>,
        dir: MakeupDirection,
        max_hops: u32,
        cal: &C,
    ) -> (r: Option<Date>)
        requires
            engine_day(date.days as int),
            max_hops <= MAX_MAKEUP_DAYS,
        ensures
            r == search_spec(*self, *cal, date, previous_base, next_base, dir, max_hops as int, 1),
    {
        let mut k: u32 = 1;
        while k <= max_hops
            invariant
                1 <= k <= max_hops + 1,
                max_hops <= MAX_MAKEUP_DAYS,
                engine_day(date.days as int),
                search_spec(*self, *cal, date, previous_base, next_base, dir, max_hops as int, 1)
                    == search_spec(
                    *self,
                    *cal,
                    date,
                    previous_base,
                    next_base,
                    dir,
                    max_hops as int,
                    k as int,
                ),
            decreases max_hops + 1 - k,
        {
            let later = Date { days: date.days + k as i32 };
            let earlier = Date { days: date.days - k as i32 };
            assert(later == shift(date, k as int));
            assert(earlier == shift(date, -k));
            match dir {
                MakeupDirection::Nearest => {
                    if self.valid_makeup_target(date, later, previous_base, next_base, cal) {
                        return Some(later);
                    }
                    if self.valid_makeup_target(date, earlier, previous_base, next_base, cal) {
                        return Some(earlier);
                    }
                },
                MakeupDirection::Before => {
                    if self.valid_makeup_target(date, earlier, previous_base, next_base, cal) {
                        return Some(earlier);
                    }
                },
                _ => {
                    if self.valid_makeup_target(date, later, previous_base, next_base, cal) {
                        return Some(later);
                    }
                },
            }
            k = k + 1;
        }
        None
    }

    /// Apply makeup rule `makeup` (the schedule's own when `None`) to the
    /// occurrence dropped on `date`.
    pub fn make_up<C: CalendarProvider>(
        &self,
        date: Date,
        previous_base: Option<Date>,
        next_base: Option<Date>,
        makeup: Option<&Makeup>,
        cal: &C,
    ) -> (r: MakeupOutcome)
        requires
            engine_day(date.days as int),
        ensures
            r == make_up_spec(
                *self,
                *cal,
                date,
                previous_base,
                next_base,
                match makeup {
                    Some(m) => *m,
                    None => self.makeup,
                },
            ),
    {
        let rule: &Makeup = match makeup {
            Some(m) => m,
            None => &self.makeup,
        };
        let default_max_hops: u32 = match self.max_makeup_hops {
            Some(h) => if h < MAX_MAKEUP_DAYS {
                h
            } else {
                MAX_MAKEUP_DAYS
            },
            None => MAX_MAKEUP_DAYS,
        };
        let steps = rule.steps_for(date.weekday());
        let ghost all = steps@;
        let mut attempted = false;
        let mut i: usize = 0;
        while i < steps.len()
            invariant
                i <= steps.len(),
                all == steps@,
                engine_day(date.days as int),
                default_max_hops == default_hops(*self),
                *rule == match makeup {
                    Some(m) => *m,
                    None => self.makeup,
                },
                make_up_spec(*self, *cal, date, previous_base, next_base, *rule)
                    == steps_outcome_spec(
                    *self,
                    *cal,
                    date,
                    previous_base,
                    next_base,
                    all,
                    i as int,
                    attempted,
                ),
            decreases steps.len() - i,
        {
            let (direction, max_hops) = steps[i].parts();
            if direction == MakeupDirection::Skip {
                return MakeupOutcome::Disabled;
            }
            let limit: u32 = match max_hops {
                Some(h) => if h < default_max_hops {
                    h
                } else {
                    default_max_hops
                },
                None => default_max_hops,
            };
            attempted = true;
            match self.search_makeup(date, previous_base, next_base, direction, limit, cal) {
                Some(d) => {
                    return MakeupOutcome::Moved(d);
                },
                None => {},
            }
            i = i + 1;
        }
        if attempted {
            MakeupOutcome::Failed
        } else {
            MakeupOutcome::Disabled
        }
    }
}

} // verus!
