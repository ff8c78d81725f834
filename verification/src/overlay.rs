//! Calendar membership and overlay filtering of occurrence dates.
//!
//! A date is tested against each top-level overlay in order; the first overlay
//! it fails drops it and supplies that overlay's makeup override (an `any`
//! group supplies its own override, else the first one among its failing
//! children).

use crate::calendar::CalendarProvider;
use crate::civil::Date;
use crate::schedule::{CalendarSpec, Makeup, Overlay, OverlayRule, Schedule};
use vstd::prelude::*;

verus! {

/// Whether `date` is in the set `c` describes, as `cal` answers. A provider
/// that does not know a calendar leaves the date out of it.
pub open spec fn in_calendar_spec<C: CalendarProvider>(c: CalendarSpec, date: Date, cal: C) -> bool
    decreases c,
{
    match c {
        CalendarSpec::BuiltIn(id) => cal.builtin_member(id, date) == Some(true),
        CalendarSpec::Dates { dates } => dates@.contains(date),
        CalendarSpec::Union { union } => any_in_calendar(union@, 0, date, cal),
        CalendarSpec::Diff { diff } => diff@.len() > 0 && first_in_calendar(diff@, date, cal)
            && !any_in_calendar(diff@, 1, date, cal),
        CalendarSpec::Custom { custom } => cal.custom_member(custom@, date) == Some(true),
    }
}

/// Whether `date` is in the first calendar of `cs`.
pub open spec fn first_in_calendar<C: CalendarProvider>(
    cs: Seq<CalendarSpec>,
    date: Date,
    cal: C,
) -> bool
    decreases cs, 0int,
{
    if cs.len() == 0 {
        false
    } else {
        in_calendar_spec(cs[0], date, cal)
    }
}

/// Whether `date` is in any of the calendars `cs[i..]`.
pub open spec fn any_in_calendar<C: CalendarProvider>(
    cs: Seq<CalendarSpec>,
    i: int,
    date: Date,
    cal: C,
) -> bool
    decreases cs, cs.len() - i,
{
    if i < 0 || i >= cs.len() {
        false
    } else {
        in_calendar_spec(cs[i], date, cal) || any_in_calendar(cs, i + 1, date, cal)
    }
}

/// Whether `date` passes overlay `o`, and, when it does not, the makeup
/// override that the overlay supplies.
pub open spec fn overlay_outcome_spec<C: CalendarProvider>(o: Overlay, date: Date, cal: C) -> (
    bool,
    Option<Makeup>,
)
    decreases o,
{
    match o {
        Overlay::Calendar(oc) => {
            let in_set = in_calendar_spec(oc.calendar, date, cal);
            let passes = match oc.rule {
                OverlayRule::Exclude => !in_set,
                OverlayRule::Only => in_set,
            };
            (
                passes,
                if passes {
                    None
                } else {
                    oc.makeup
                },
            )
        },
        Overlay::Any(g) => {
            let r = any_outcome_spec(g.any@, 0, date, cal);
            if r.0 {
                (true, None)
            } else {
                (
                    false,
                    match g.makeup {
                        Some(m) => Some(m),
                        None => r.1,
                    },
                )
            }
        },
    }
}

/// The outcome of the OR group `os[i..]`: it passes when a child passes;
/// otherwise the first makeup override among the failing children.
pub open spec fn any_outcome_spec<C: CalendarProvider>(
    os: Seq<Overlay>,
    i: int,
    date: Date,
    cal: C,
) -> (bool, Option<Makeup>)
    decreases os, os.len() - i,
{
    if i < 0 || i >= os.len() {
        (false, None)
    } else {
        let o = overlay_outcome_spec(os[i], date, cal);
        if o.0 {
            (true, None)
        } else {
            let rest = any_outcome_spec(os, i + 1, date, cal);
            if rest.0 {
                (true, None)
            } else {
                (
                    false,
                    match o.1 {
                        Some(m) => Some(m),
                        None => rest.1,
                    },
                )
            }
        }
    }
}

/// The outcome of the ANDed overlays `os[i..]`: the first failing overlay's
/// outcome, or a pass.
pub open spec fn overlay_result_spec<C: CalendarProvider>(
    os: Seq<Overlay>,
    i: int,
    date: Date,
    cal: C,
) -> (bool, Option<Makeup>)
    decreases os.len() - i,
{
    if i < 0 || i >= os.len() {
        (true, None)
    } else {
        let o = overlay_outcome_spec(os[i], date, cal);
        if !o.0 {
            o
        } else {
            overlay_result_spec(os, i + 1, date, cal)
        }
    }
}

/// Whether a local `date` passes every overlay of `s`.
pub open spec fn survives_spec<C: CalendarProvider>(s: Schedule, date: Date, cal: C) -> bool {
    overlay_result_spec(s.overlays@, 0, date, cal).0
}

/// An optional reference to a makeup, read as the makeup itself.
pub open spec fn makeup_ref_is(r: Option<&Makeup>, m: Option<Makeup>) -> bool {
    match r {
        Some(x) => m == Some(*x),
        None => m is None,
    }
}

fn date_listed(dates: &Vec<Date>, date: Date) -> (r: bool)
    ensures
        r == dates@.contains(date),
{
    let mut i: usize = 0;
    while i < dates.len()
        invariant
            i <= dates.len(),
            forall|j: int| 0 <= j < i ==> dates@[j] != date,
        decreases dates.len() - i,
    {
        if dates[i].days == date.days {
            assert(dates@[i as int] == date);
            return true;
        }
        i = i + 1;
    }
    false
}

/// Whether `date` is in the set `c` describes.
pub fn in_calendar<C: CalendarProvider>(c: &CalendarSpec, date: Date, cal: &C) -> (r: bool)
    ensures
        r == in_calendar_spec(*c, date, *cal),
    decreases c,
{
    match c {
        CalendarSpec::BuiltIn(id) => match cal.contains(*id, date) {
            Some(b) => b,
            None => false,
        },
        CalendarSpec::Dates { dates } => date_listed(dates, date),
        CalendarSpec::Union { union } => any_in(union, 0, date, cal),
        CalendarSpec::Diff { diff } => {
            if diff.len() == 0 {
                return false;
            }
            assert(decreases_to!(c => diff@[0]));
            in_calendar(&diff[0], date, cal) && !any_in(diff, 1, date, cal)
        },
        CalendarSpec::Custom { custom } => match cal.contains_custom(custom.as_str(), date) {
            Some(b) => b,
            None => false,
        },
    }
}

fn any_in<C: CalendarProvider>(cs: &Vec<CalendarSpec>, start: usize, date: Date, cal: &C) -> (r:
    bool)
    ensures
        r == any_in_calendar(cs@, start as int, date, *cal),
    decreases cs,
{
    let mut i: usize = start;
    while i < cs.len()
        invariant
            start <= i,
            any_in_calendar(cs@, start as int, date, *cal) == any_in_calendar(
                cs@,
                i as int,
                date,
                *cal,
            ),
        decreases cs.len() - i,
    {
        assert(decreases_to!(cs => cs@[i as int]));
        if in_calendar(&cs[i], date, cal) {
            return true;
        }
        i = i + 1;
    }
    false
}

/// Whether `date` passes overlay `o`, and the makeup override it supplies
/// when it does not.
pub fn overlay_outcome<'a, C: CalendarProvider>(o: &'a Overlay, date: Date, cal: &C) -> (r: (
    bool,
    Option<&'a Makeup>,
))
    ensures
        r.0 == overlay_outcome_spec(*o, date, *cal).0,
        makeup_ref_is(r.1, overlay_outcome_spec(*o, date, *cal).1),
    decreases o,
{
    match o {
        Overlay::Calendar(oc) => {
            let in_set = in_calendar(&oc.calendar, date, cal);
            let passes = match oc.rule {
                OverlayRule::Exclude => !in_set,
                OverlayRule::Only => in_set,
            };
            if passes {
                (true, None)
            } else {
                match &oc.makeup {
                    Some(m) => (false, Some(m)),
                    None => (false, None),
                }
            }
        },
        Overlay::Any(g) => {
            let (passes, first) = any_group_outcome(&g.any, date, cal);
            if passes {
                (true, None)
            } else {
                match &g.makeup {
                    Some(m) => (false, Some(m)),
                    None => (false, first),
                }
            }
        },
    }
}

/// The outcome of an OR group of overlays.
fn any_group_outcome<'a, C: CalendarProvider>(os: &'a Vec<Overlay>, date: Date, cal: &C) -> (r: (
    bool,
    Option<&'a Makeup>,
))
    ensures
        r.0 == any_outcome_spec(os@, 0, date, *cal).0,
        makeup_ref_is(r.1, any_outcome_spec(os@, 0, date, *cal).1),
    decreases os,
{
    let mut first: Option<&'a Makeup> = None;
    let ghost mut first_spec: Option<Makeup> = None;
    let mut i: usize = 0;
    while i < os.len()
        invariant
            i <= os.len(),
            makeup_ref_is(first, first_spec),
            ({
                let rest = any_outcome_spec(os@, i as int, date, *cal);
                any_outcome_spec(os@, 0, date, *cal) == if rest.0 {
                    (true, None::<Makeup>)
                } else {
                    (
                        false,
                        match first_spec {
                            Some(m) => Some(m),
                            None => rest.1,
                        },
                    )
                }
            }),
        decreases os.len() - i,
    {
        assert(decreases_to!(os => os@[i as int]));
        let (passes, m) = overlay_outcome(&os[i], date, cal);
        if passes {
            return (true, None);
        }
        if first.is_none() {
            first = m;
            proof {
                first_spec = overlay_outcome_spec(os@[i as int], date, *cal).1;
            }
        }
        i = i + 1;
    }
    (false, first)
}

impl Schedule {
    /// Whether a local `date` passes all overlays, and the first failing
    /// overlay's makeup override, if one is configured.
    pub fn overlay_result<'a, C: CalendarProvider>(&'a self, date: Date, cal: &C) -> (r: (
        bool,
        Option<&'a Makeup>,
    ))
        ensures
            r.0 == overlay_result_spec(self.overlays@, 0, date, *cal).0,
            makeup_ref_is(r.1, overlay_result_spec(self.overlays@, 0, date, *cal).1),
    {
        let mut i: usize = 0;
        while i < self.overlays.len()
            invariant
                i <= self.overlays.len(),
                overlay_result_spec(self.overlays@, 0, date, *cal) == overlay_result_spec(
                    self.overlays@,
                    i as int,
                    date,
                    *cal,
                ),
            decreases self.overlays.len() - i,
        {
            let (passes, m) = overlay_outcome(&self.overlays[i], date, cal);
            if !passes {
                return (false, m);
            }
            i = i + 1;
        }
        (true, None)
    }

    /// Whether a local `date` passes all overlays.
    pub fn survives<C: CalendarProvider>(&self, date: Date, cal: &C) -> (r: bool)
        ensures
            r == survives_spec(*self, date, *cal),
    {
        self.overlay_result(date, cal).0
    }
}

} // verus!
