//! Five-field cron expressions: `minute hour day-of-month month day-of-week`.
//!
//! Fields are separated by Unicode whitespace. Each field is a comma list of
//! parts; a part is `*`, `N` or `N-M`, optionally followed by `/STEP`.
//! Unparsable numbers fall back to the field's bounds (step 1), as in the
//! lenient matching the engine applies; [`cron_expr_valid`] is the strict
//! check that validation uses.

use vstd::prelude::*;

verus! {

/// Unicode `White_Space` characters (what `str::split_whitespace` splits on).
pub open spec fn is_space(c: char) -> bool {
    c == '\t' || c == '\n' || c == '\u{0B}' || c == '\u{0C}' || c == '\r' || c == ' ' || c
        == '\u{85}' || c == '\u{A0}' || c == '\u{1680}' || ('\u{2000}' <= c && c <= '\u{200A}')
        || c == '\u{2028}' || c == '\u{2029}' || c == '\u{202F}' || c == '\u{205F}' || c
        == '\u{3000}'
}

/// The non-empty whitespace-separated words of `s`.
pub open spec fn words(s: Seq<char>) -> Seq<Seq<char>>
    decreases s.len(),
{
    if s.len() == 0 {
        seq![]
    } else {
        let prev = words(s.drop_last());
        let x = s.last();
        if is_space(x) {
            prev
        } else if s.len() == 1 || is_space(s[s.len() - 2]) {
            prev.push(seq![x])
        } else {
            prev.update(prev.len() - 1, prev.last().push(x))
        }
    }
}

/// The pieces of `s` between occurrences of `c` (always at least one).
pub open spec fn split_on(s: Seq<char>, c: char) -> Seq<Seq<char>>
    decreases s.len(),
{
    if s.len() == 0 {
        seq![seq![]]
    } else {
        let prev = split_on(s.drop_last(), c);
        if s.last() == c {
            prev.push(seq![])
        } else {
            prev.update(prev.len() - 1, prev.last().push(s.last()))
        }
    }
}

/// Index of the first `c` in `s[i..]`, if any.
pub open spec fn find_from(s: Seq<char>, c: char, i: int) -> Option<int>
    decreases s.len() - i,
{
    if i < 0 || i >= s.len() {
        None
    } else if s[i] == c {
        Some(i)
    } else {
        find_from(s, c, i + 1)
    }
}

/// `s` split at its first `c`, if any.
pub open spec fn split_once(s: Seq<char>, c: char) -> Option<(Seq<char>, Seq<char>)> {
    match find_from(s, c, 0) {
        Some(i) => Some((s.subrange(0, i), s.subrange(i + 1, s.len() as int))),
        None => None,
    }
}

pub open spec fn is_digit(c: char) -> bool {
    '0' <= c && c <= '9'
}

pub open spec fn all_digits(s: Seq<char>) -> bool {
    forall|i: int| 0 <= i < s.len() ==> is_digit(#[trigger] s[i])
}

/// The decimal value of a digit string.
pub open spec fn digits_value(s: Seq<char>) -> int
    decreases s.len(),
{
    if s.len() == 0 {
        0
    } else {
        digits_value(s.drop_last()) * 10 + (s.last() as int - '0' as int)
    }
}

/// What `str::parse::<u32>` returns: an optional `+`, then at least one digit,
/// with a value that fits.
pub open spec fn parse_u32_spec(s: Seq<char>) -> Option<u32> {
    let d = if s.len() > 0 && s[0] == '+' {
        s.drop_first()
    } else {
        s
    };
    if d.len() > 0 && all_digits(d) && digits_value(d) <= u32::MAX {
        Some(digits_value(d) as u32)
    } else {
        None
    }
}

pub open spec fn parse_or(s: Seq<char>, default: u32) -> u32 {
    match parse_u32_spec(s) {
        Some(v) => v,
        None => default,
    }
}

/// The body and step of a part (`body/step`; step 1 when absent or invalid).
pub open spec fn part_body_step(part: Seq<char>) -> (Seq<char>, u32) {
    match split_once(part, '/') {
        Some((body, step)) => (body, parse_or(step, 1)),
        None => (part, 1),
    }
}

/// The inclusive range a part body covers.
pub open spec fn body_range(body: Seq<char>, min: u32, max: u32) -> (u32, u32) {
    if body == seq!['*'] {
        (min, max)
    } else {
        match split_once(body, '-') {
            Some((lo, hi)) => (parse_or(lo, min), parse_or(hi, max)),
            None => (parse_or(body, min), parse_or(body, min)),
        }
    }
}

/// Whether `v` is one of the values a part enumerates: `lo, lo + step, ...`
/// up to `hi` (only `lo` when the step is zero).
pub open spec fn part_contains(part: Seq<char>, min: u32, max: u32, v: int) -> bool {
    let (body, step) = part_body_step(part);
    let (lo, hi) = body_range(body, min, max);
    lo <= v <= hi && if step == 0 {
        v == lo
    } else {
        (v - lo) % (step as int) == 0
    }
}

/// Whether `v` is in the set a field describes (any of its comma parts).
pub open spec fn field_contains(field: Seq<char>, min: u32, max: u32, v: int) -> bool {
    exists|i: int|
        0 <= i < split_on(field, ',').len() && part_contains(
            #[trigger] split_on(field, ',')[i],
            min,
            max,
            v,
        )
}

/// The values `min..=max` in ascending order (none when `min > max`).
pub open spec fn bound_range(min: u32, max: u32) -> Seq<u32> {
    Seq::new(
        if min <= max {
            (max - min + 1) as nat
        } else {
            0
        },
        |k: int| (min + k) as u32,
    )
}

/// The ascending values of `min..=max` that a field selects.
pub open spec fn field_values(field: Seq<char>, min: u32, max: u32) -> Seq<u32> {
    bound_range(min, max).filter(|v: u32| field_contains(field, min, max, v as int))
}

/// A field part that parses strictly: `*`, `N` or `N-M` within bounds with
/// `N <= M`, and an optional step of at least one.
pub open spec fn strict_part(part: Seq<char>, min: u32, max: u32) -> bool {
    let (body, step_ok) = match split_once(part, '/') {
        Some((body, step)) => (body, parse_u32_spec(step) matches Some(n) && n >= 1),
        None => (part, true),
    };
    step_ok && if body == seq!['*'] {
        true
    } else {
        match split_once(body, '-') {
            Some((lo, hi)) => parse_u32_spec(lo) matches Some(a) && parse_u32_spec(hi) matches Some(
                b,
            ) && min <= a <= b <= max,
            None => parse_u32_spec(body) matches Some(a) && min <= a <= max,
        }
    }
}

pub open spec fn strict_field(field: Seq<char>, min: u32, max: u32) -> bool {
    forall|i: int|
        0 <= i < split_on(field, ',').len() ==> strict_part(
            #[trigger] split_on(field, ',')[i],
            min,
            max,
        )
}

/// A valid five-field cron expression.
pub open spec fn valid_cron_spec(expr: Seq<char>) -> bool {
    let w = words(expr);
    w.len() == 5 && strict_field(w[0], 0, 59) && strict_field(w[1], 0, 23) && strict_field(
        w[2],
        1,
        31,
    ) && strict_field(w[3], 1, 12) && strict_field(w[4], 0, 6)
}

/// The characters of `s`.
pub fn chars_of(s: &str) -> (r: Vec<char>)
    ensures
        r@ == s@,
{
    let n = s.unicode_len();
    let mut out: Vec<char> = Vec::new();
    let mut i: usize = 0;
    while i < n
        invariant
            n == s@.len(),
            i <= n,
            out@ == s@.subrange(0, i as int),
        decreases n - i,
    {
        out.push(s.get_char(i));
        i = i + 1;
    }
    assert(s@.subrange(0, n as int) == s@);
    out
}

pub fn is_space_char(c: char) -> (r: bool)
    ensures
        r == is_space(c),
{
    c == '\t' || c == '\n' || c == '\u{0B}' || c == '\u{0C}' || c == '\r' || c == ' ' || c
        == '\u{85}' || c == '\u{A0}' || c == '\u{1680}' || ('\u{2000}' <= c && c <= '\u{200A}')
        || c == '\u{2028}' || c == '\u{2029}' || c == '\u{202F}' || c == '\u{205F}' || c
        == '\u{3000}'
}

/// Copy of a character sequence.
fn copy_chars(s: &Vec<char>) -> (r: Vec<char>)
    ensures
        r@ == s@,
{
    let mut out: Vec<char> = Vec::new();
    let mut i: usize = 0;
    while i < s.len()
        invariant
            i <= s.len(),
            out@ == s@.subrange(0, i as int),
        decreases s.len() - i,
    {
        out.push(s[i]);
        i = i + 1;
    }
    assert(s@.subrange(0, s@.len() as int) == s@);
    out
}

/// The whitespace-separated words of `s`.
pub fn split_words(s: &Vec<char>) -> (r: Vec<Vec<char>>)
    ensures
        r@.len() == words(s@).len(),
        forall|i: int| 0 <= i < r@.len() ==> (#[trigger] r@[i])@ == words(s@)[i],
{
    let mut out: Vec<Vec<char>> = Vec::new();
    let mut cur: Vec<char> = Vec::new();
    let mut i: usize = 0;
    // `cur` is the word being read (not yet in `out`) when the previous
    // character is not a space.
    while i < s.len()
        invariant
            i <= s.len(),
            ({
                let w = words(s@.subrange(0, i as int));
                if i > 0 && !is_space(s@[i - 1]) {
                    &&& out@.len() + 1 == w.len()
                    &&& forall|k: int| 0 <= k < out@.len() ==> (#[trigger] out@[k])@ == w[k]
                    &&& cur@ == w.last()
                } else {
                    &&& out@.len() == w.len()
                    &&& forall|k: int| 0 <= k < out@.len() ==> (#[trigger] out@[k])@ == w[k]
                    &&& cur@.len() == 0
                }
            }),
        decreases s.len() - i,
    {
        let c = s[i];
        proof {
            assert(s@.subrange(0, i as int + 1).drop_last() == s@.subrange(0, i as int));
        }
        if is_space_char(c) {
            if i > 0 && !is_space_char(s[i - 1]) {
                let w = copy_chars(&cur);
                out.push(w);
                cur = Vec::new();
            }
        } else {
            cur.push(c);
        }
        i = i + 1;
    }
    if s.len() > 0 && !is_space_char(s[s.len() - 1]) {
        out.push(cur);
    }
    assert(s@.subrange(0, s@.len() as int) == s@);
    out
}

/// The pieces of `s` between occurrences of `sep`.
pub fn split_pieces(s: &Vec<char>, sep: char) -> (r: Vec<Vec<char>>)
    ensures
        r@.len() == split_on(s@, sep).len(),
        forall|i: int| 0 <= i < r@.len() ==> (#[trigger] r@[i])@ == split_on(s@, sep)[i],
{
    let mut out: Vec<Vec<char>> = Vec::new();
    let mut cur: Vec<char> = Vec::new();
    let mut i: usize = 0;
    while i < s.len()
        invariant
            i <= s.len(),
            ({
                let w = split_on(s@.subrange(0, i as int), sep);
                &&& out@.len() + 1 == w.len()
                &&& forall|k: int| 0 <= k < out@.len() ==> (#[trigger] out@[k])@ == w[k]
                &&& cur@ == w.last()
            }),
        decreases s.len() - i,
    {
        let c = s[i];
        proof {
            assert(s@.subrange(0, i as int + 1).drop_last() == s@.subrange(0, i as int));
        }
        if c == sep {
            let w = copy_chars(&cur);
            out.push(w);
            cur = Vec::new();
        } else {
            cur.push(c);
        }
        i = i + 1;
    }
    out.push(cur);
    assert(s@.subrange(0, s@.len() as int) == s@);
    out
}

/// `s` split at its first `c`, if any.
pub fn split_first(s: &Vec<char>, c: char) -> (r: Option<(Vec<char>, Vec<char>)>)
    ensures
        r is Some <==> split_once(s@, c) is Some,
        r matches Some(p) ==> (p.0@, p.1@) == split_once(s@, c)->0,
{
    let mut i: usize = 0;
    while i < s.len()
        invariant
            i <= s.len(),
            find_from(s@, c, 0) == find_from(s@, c, i as int),
        decreases s.len() - i,
    {
        if s[i] == c {
            let mut a: Vec<char> = Vec::new();
            let mut j: usize = 0;
            while j < i
                invariant
                    j <= i < s.len(),
                    a@ == s@.subrange(0, j as int),
                decreases i - j,
            {
                a.push(s[j]);
                j = j + 1;
            }
            let mut b: Vec<char> = Vec::new();
            let mut k: usize = i + 1;
            while k < s.len()
                invariant
                    i + 1 <= k <= s.len(),
                    b@ == s@.subrange(i as int + 1, k as int),
                decreases s.len() - k,
            {
                b.push(s[k]);
                k = k + 1;
            }
            return Some((a, b));
        }
        i = i + 1;
    }
    None
}

/// `str::parse::<u32>` on a character sequence.
pub fn parse_u32(s: &Vec<char>) -> (r: Option<u32>)
    ensures
        r == parse_u32_spec(s@),
{
    let start: usize = if s.len() > 0 && s[0] == '+' {
        1
    } else {
        0
    };
    let ghost d = if s@.len() > 0 && s@[0] == '+' {
        s@.drop_first()
    } else {
        s@
    };
    assert(d == s@.subrange(start as int, s@.len() as int));
    if start >= s.len() {
        return None;
    }
    let mut value: u64 = 0;
    let mut i: usize = start;
    while i < s.len()
        invariant
            start <= i <= s.len(),
            d == s@.subrange(start as int, s@.len() as int),
            d == (if s@.len() > 0 && s@[0] == '+' {
                s@.drop_first()
            } else {
                s@
            }),
            all_digits(s@.subrange(start as int, i as int)),
            value == digits_value(s@.subrange(start as int, i as int)),
            value <= u32::MAX,
        decreases s.len() - i,
    {
        let c = s[i];
        let ghost prefix = s@.subrange(start as int, i as int);
        let ghost next = s@.subrange(start as int, i as int + 1);
        proof {
            assert(next.drop_last() == prefix);
            assert(next.last() == c);
            assert(d[i - start] == c);
            assert(d.subrange(0, i - start + 1) == next);
        }
        if !('0' <= c && c <= '9') {
            proof {
                assert(!is_digit(d[i - start]));
                assert(!all_digits(d));
            }
            return None;
        }
        let digit: u64 = ((c as u32) - ('0' as u32)) as u64;
        value = value * 10 + digit;
        proof {
            assert(all_digits(next)) by {
                assert forall|j: int| 0 <= j < next.len() implies is_digit(#[trigger] next[j]) by {
                    if j < prefix.len() {
                        assert(next[j] == prefix[j]);
                    }
                }
            }
            assert(digits_value(next) == digits_value(prefix) * 10 + (c as int - '0' as int));
        }
        if value > u32::MAX as u64 {
            proof {
                if all_digits(d) {
                    lemma_digits_value_prefix_bound(d, (i - start + 1) as int);
                }
            }
            return None;
        }
        i = i + 1;
    }
    Some(value as u32)
}

/// A digit string is worth at least any of its prefixes.
pub proof fn lemma_digits_value_prefix_bound(s: Seq<char>, n: int)
    requires
        0 <= n <= s.len(),
        all_digits(s),
    ensures
        digits_value(s) >= digits_value(s.subrange(0, n)),
        digits_value(s.subrange(0, n)) >= 0,
    decreases s.len(),
{
    if s.len() > 0 {
        lemma_digits_value_nonneg(s.drop_last());
        if n < s.len() {
            assert(s.drop_last().subrange(0, n) == s.subrange(0, n));
            lemma_digits_value_prefix_bound(s.drop_last(), n);
        } else {
            assert(s.subrange(0, n) == s);
        }
    } else {
        assert(s.subrange(0, n) == s);
    }
}

pub proof fn lemma_digits_value_nonneg(s: Seq<char>)
    requires
        all_digits(s),
    ensures
        digits_value(s) >= 0,
    decreases s.len(),
{
    if s.len() > 0 {
        lemma_digits_value_nonneg(s.drop_last());
    }
}

fn parse_or_default(s: &Vec<char>, default: u32) -> (r: u32)
    ensures
        r == parse_or(s@, default),
{
    match parse_u32(s) {
        Some(v) => v,
        None => default,
    }
}

fn is_star(s: &Vec<char>) -> (r: bool)
    ensures
        r == (s@ == seq!['*']),
{
    if s.len() == 1 && s[0] == '*' {
        assert(s@ == seq!['*']);
        true
    } else {
        false
    }
}

/// The parsed form of a part: inclusive range and step.
fn parse_part(part: &Vec<char>, min: u32, max: u32) -> (r: (u32, u32, u32))
    ensures
        ({
            let (body, step) = part_body_step(part@);
            let (lo, hi) = body_range(body, min, max);
            r == (lo, hi, step)
        }),
{
    let (body, step) = match split_first(part, '/') {
        Some((b, st)) => (b, parse_or_default(&st, 1)),
        None => (copy_chars(part), 1),
    };
    if is_star(&body) {
        (min, max, step)
    } else {
        match split_first(&body, '-') {
            Some((lo, hi)) => (parse_or_default(&lo, min), parse_or_default(&hi, max), step),
            None => {
                let v = parse_or_default(&body, min);
                (v, v, step)
            },
        }
    }
}

/// The values of `min..=max` that the cron field `field` selects, ascending
/// (none when `min > max`).
pub fn parse_cron_values(field: &str, min: u32, max: u32) -> (r: Vec<u32>)
    ensures
        r@ == field_values(field@, min, max),
        forall|k: int| 0 <= k < r@.len() ==> min <= #[trigger] r@[k] <= max,
        forall|i: int, j: int| 0 <= i < j < r@.len() ==> r@[i] < r@[j],
{
    let chars = chars_of(field);
    field_value_list(&chars, min, max)
}

/// The values of `min..=max` that the characters `field` select, ascending
/// (none when `min > max`).
fn field_value_list(field: &Vec<char>, min: u32, max: u32) -> (r: Vec<u32>)
    ensures
        r@ == field_values(field@, min, max),
        forall|k: int| 0 <= k < r@.len() ==> min <= #[trigger] r@[k] <= max,
        forall|i: int, j: int| 0 <= i < j < r@.len() ==> r@[i] < r@[j],
{
    let ghost all = bound_range(min, max);
    let ghost pred = |v: u32| field_contains(field@, min, max, v as int);
    if min > max {
        let empty: Vec<u32> = Vec::new();
        assert(all.filter(pred) =~= Seq::<u32>::empty()) by {
            reveal(Seq::filter);
            assert(all.len() == 0);
        }
        return empty;
    }
    let parts = split_pieces(field, ',');
    let mut ranges: Vec<(u32, u32, u32)> = Vec::new();
    let mut p: usize = 0;
    while p < parts.len()
        invariant
            p <= parts.len(),
            parts@.len() == split_on(field@, ',').len(),
            forall|i: int| 0 <= i < parts@.len() ==> (#[trigger] parts@[i])@ == split_on(field@, ',')[i],
            ranges@.len() == p,
            forall|i: int|
                0 <= i < p ==> {
                    let (body, step) = part_body_step(split_on(field@, ',')[i]);
                    let (lo, hi) = body_range(body, min, max);
                    #[trigger] ranges@[i] == (lo, hi, step)
                },
        decreases parts.len() - p,
    {
        let range = parse_part(&parts[p], min, max);
        ranges.push(range);
        p = p + 1;
    }
    let mut out: Vec<u32> = Vec::new();
    let mut w: u64 = min as u64;
    while w <= max as u64
        invariant
            min <= w <= max + 1,
            min <= max,
            all == bound_range(min, max),
            pred == (|v: u32| field_contains(field@, min, max, v as int)),
            ranges@.len() == split_on(field@, ',').len(),
            forall|i: int|
                0 <= i < ranges@.len() ==> {
                    let (body, step) = part_body_step(split_on(field@, ',')[i]);
                    let (lo, hi) = body_range(body, min, max);
                    #[trigger] ranges@[i] == (lo, hi, step)
                },
            out@ == all.subrange(0, (w - min) as int).filter(pred),
            forall|k: int| 0 <= k < out@.len() ==> min <= #[trigger] out@[k] < w,
            forall|i: int, j: int| 0 <= i < j < out@.len() ==> out@[i] < out@[j],
        decreases max + 1 - w,
    {
        let v: u32 = w as u32;
        let mut found = false;
        let mut i: usize = 0;
        while i < ranges.len()
            invariant
                i <= ranges.len(),
                ranges@.len() == split_on(field@, ',').len(),
                forall|j: int|
                    0 <= j < ranges@.len() ==> {
                        let (body, step) = part_body_step(split_on(field@, ',')[j]);
                        let (lo, hi) = body_range(body, min, max);
                        #[trigger] ranges@[j] == (lo, hi, step)
                    },
                found <==> exists|j: int|
                    0 <= j < i && part_contains(#[trigger] split_on(field@, ',')[j], min, max, v as int),
            decreases ranges.len() - i,
        {
            let (lo, hi, step) = ranges[i];
            let hit = if lo <= v && v <= hi {
                if step == 0 {
                    v == lo
                } else {
                    (v - lo) % step == 0
                }
            } else {
                false
            };
            proof {
                assert(hit == part_contains(split_on(field@, ',')[i as int], min, max, v as int));
            }
            if hit {
                found = true;
            }
            i = i + 1;
        }
        proof {
            let k = (w - min) as int;
            assert(all[k] == v);
            assert(all.subrange(0, k + 1) == all.subrange(0, k).push(v));
            all.subrange(0, k).lemma_filter_push(v, pred);
            assert(found == pred(v));
        }
        if found {
            out.push(v);
        }
        w = w + 1;
    }
    assert(all.subrange(0, (max - min + 1) as int) == all);
    out
}

/// Whether a cron day-of-week list (`0`-`6`, Sunday = 0) selects the
/// weekday numbered `sunday_zero`.
pub open spec fn cron_weekday_spec(values: Seq<u32>, sunday_zero: int) -> bool {
    exists|i: int| 0 <= i < values.len() && values[i] == sunday_zero
}

pub fn cron_weekday_matches(values: &Vec<u32>, weekday: crate::civil::Weekday) -> (r: bool)
    ensures
        r == cron_weekday_spec(values@, (weekday.index() + 1) % 7),
{
    let sunday_zero = weekday.num_days_from_sunday();
    let mut i: usize = 0;
    while i < values.len()
        invariant
            i <= values.len(),
            sunday_zero == (weekday.index() + 1) % 7,
            forall|j: int| 0 <= j < i ==> values@[j] != sunday_zero,
        decreases values.len() - i,
    {
        if values[i] == sunday_zero {
            return true;
        }
        i = i + 1;
    }
    false
}

/// The five value lists of a cron expression.
pub struct CronFields {
    pub minutes: Vec<u32>,
    pub hours: Vec<u32>,
    pub month_days: Vec<u32>,
    pub months: Vec<u32>,
    pub weekdays: Vec<u32>,
}

/// The value lists of the five fields of `expr`, if it has five words.
pub open spec fn cron_fields_spec(expr: Seq<char>) -> Option<
    (Seq<u32>, Seq<u32>, Seq<u32>, Seq<u32>, Seq<u32>),
> {
    let w = words(expr);
    if w.len() != 5 {
        None
    } else {
        Some(
            (
                field_values(w[0], 0, 59),
                field_values(w[1], 0, 23),
                field_values(w[2], 1, 31),
                field_values(w[3], 1, 12),
                field_values(w[4], 0, 6),
            ),
        )
    }
}

pub fn parse_cron(expr: &str) -> (r: Option<CronFields>)
    ensures
        r is Some <==> cron_fields_spec(expr@) is Some,
        r matches Some(f) ==> cron_fields_spec(expr@) == Some(
            (f.minutes@, f.hours@, f.month_days@, f.months@, f.weekdays@),
        ),
{
    let chars = chars_of(expr);
    let fields = split_words(&chars);
    if fields.len() != 5 {
        return None;
    }
    let minutes = field_value_list(&fields[0], 0, 59);
    let hours = field_value_list(&fields[1], 0, 23);
    let month_days = field_value_list(&fields[2], 1, 31);
    let months = field_value_list(&fields[3], 1, 12);
    let weekdays = field_value_list(&fields[4], 0, 6);
    Some(CronFields { minutes, hours, month_days, months, weekdays })
}

fn strict_part_check(part: &Vec<char>, min: u32, max: u32) -> (r: bool)
    ensures
        r == strict_part(part@, min, max),
{
    let (body, step_ok) = match split_first(part, '/') {
        Some((b, st)) => {
            let ok = match parse_u32(&st) {
                Some(n) => n >= 1,
                None => false,
            };
            (b, ok)
        },
        None => (copy_chars(part), true),
    };
    if !step_ok {
        return false;
    }
    if is_star(&body) {
        return true;
    }
    match split_first(&body, '-') {
        Some((lo, hi)) => match (parse_u32(&lo), parse_u32(&hi)) {
            (Some(a), Some(b)) => min <= a && a <= b && b <= max,
            _ => false,
        },
        None => match parse_u32(&body) {
            Some(a) => min <= a && a <= max,
            None => false,
        },
    }
}

fn strict_field_check(field: &Vec<char>, min: u32, max: u32) -> (r: bool)
    ensures
        r == strict_field(field@, min, max),
{
    let parts = split_pieces(field, ',');
    let mut i: usize = 0;
    while i < parts.len()
        invariant
            i <= parts.len(),
            parts@.len() == split_on(field@, ',').len(),
            forall|k: int| 0 <= k < parts@.len() ==> (#[trigger] parts@[k])@ == split_on(field@, ',')[k],
            forall|k: int| 0 <= k < i ==> strict_part(#[trigger] split_on(field@, ',')[k], min, max),
        decreases parts.len() - i,
    {
        if !strict_part_check(&parts[i], min, max) {
            return false;
        }
        i = i + 1;
    }
    true
}

/// Whether `expr` is a valid five-field cron expression.
pub fn cron_expr_valid(expr: &str) -> (r: bool)
    ensures
        r == valid_cron_spec(expr@),
{
    let chars = chars_of(expr);
    let fields = split_words(&chars);
    if fields.len() != 5 {
        return false;
    }
    strict_field_check(&fields[0], 0, 59) && strict_field_check(&fields[1], 0, 23)
        && strict_field_check(&fields[2], 1, 31) && strict_field_check(&fields[3], 1, 12)
        && strict_field_check(&fields[4], 0, 6)
}

} // verus!
