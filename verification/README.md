# dateme

A recurrence / scheduling engine with machine-checked contracts. Given a
schedule (a frequency in an IANA timezone, plus optional calendar overlays, a
makeup strategy and start/end bounds) it computes when a recurring event
fires: `next`, `previous`, `upcoming`, `until`, `since`, `is_occurrence` and
`count_between`, each also available in a fallible `try_` form and, where it
makes sense, a form that returns occurrence traces (instant plus reason).

The library in `src/` is written in Verus and every function carries a
contract over mathematical models of its data:

- `civil`: proleptic Gregorian dates as day numbers, weekdays, times of day.
- `zone`: UTC instants, IANA timezones (through `chrono-tz`) and the DST rules
  for turning a local reading into an instant.
- `cron`: five-field cron expressions, parsed leniently for generation and
  strictly for validation.
- `schedule`: the data model and its structural validation.
- `calendar`: calendar providers, including the `finance-dates` backed
  US-federal and NYSE calendars.
- `base`: the base series of local (date, time) slots of a frequency.
- `overlay`, `makeup`: calendar filtering and moving dropped occurrences.
- `generate`, `query`, `engine`: occurrence generation over a window (each
  slot judged within the whole base series, so threshold runs and the base
  dates that bound makeup do not depend on the window; the window spans the
  UTC dates of its bounds with a margin wide enough, in any zone, for every
  slot that can land inside it), the window filter and gap check, and the
  public queries.
- `text`, `describe`: dates, times, summaries and error messages as text.
- `laws`, `window`: properties that span several functions, such as
  `since` being `until` reversed, results being strictly ascending and in
  bounds, base occurrences winning over made-up ones, validation being
  idempotent, and, in every timezone, `until(end)[0] == next()`, `since(start)[0] == previous()`,
  `upcoming(n)` being the start of `until(end)`, `is_occurrence` agreeing
  with `until`, and `until` splitting at any instant that is not an
  occurrence.

`app/` holds what Verus does not check: the serde JSON model of a schedule and
the Python (pyo3) and WebAssembly (wasm-bindgen) bindings, which test the
engine's preconditions before each call.
