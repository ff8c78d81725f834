//! Text rendering: decimal numbers, zero padding, ISO dates (`YYYY-MM-DD`, as
//! chrono's `NaiveDate` displays them) and `HH:MM` times.
//!
//! Text is built as a `Vec<char>` and turned into a `String` once.

use crate::civil::{civil_from_days, Date, Time};
use vstd::prelude::*;

verus! {

/// The character of decimal digit `d` (0..=9).
pub open spec fn digit_spec(d: int) -> char {
    if d == 0 {
        '0'
    } else if d == 1 {
        '1'
    } else if d == 2 {
        '2'
    } else if d == 3 {
        '3'
    } else if d == 4 {
        '4'
    } else if d == 5 {
        '5'
    } else if d == 6 {
        '6'
    } else if d == 7 {
        '7'
    } else if d == 8 {
        '8'
    } else {
        '9'
    }
}

/// The decimal digits of `n`, without leading zeros ("0" for zero).
pub open spec fn decimal_spec(n: nat) -> Seq<char>
    decreases n,
{
    if n < 10 {
        seq![digit_spec(n as int)]
    } else {
        decimal_spec(n / 10).push(digit_spec((n % 10) as int))
    }
}

/// `s` with zeros in front up to width `w`.
pub open spec fn pad_zeros(s: Seq<char>, w: nat) -> Seq<char> {
    if s.len() >= w {
        s
    } else {
        Seq::new((w - s.len()) as nat, |i: int| '0') + s
    }
}

/// Decimal `n`, zero-padded to two digits.
pub open spec fn two_digits(n: nat) -> Seq<char> {
    pad_zeros(decimal_spec(n), 2)
}

/// A year as chrono's date display writes it: four digits for years
/// 0..=9999, otherwise an explicit sign and at least four digits.
pub open spec fn year_text(y: int) -> Seq<char> {
    if 0 <= y <= 9999 {
        pad_zeros(decimal_spec(y as nat), 4)
    } else if y < 0 {
        seq!['-'] + pad_zeros(decimal_spec((-y) as nat), 4)
    } else {
        seq!['+'] + pad_zeros(decimal_spec(y as nat), 4)
    }
}

/// The ISO text `YYYY-MM-DD` of a date.
pub open spec fn date_text(d: Date) -> Seq<char> {
    let (y, m, dd) = civil_from_days(d.days as int);
    year_text(y) + seq!['-'] + two_digits(m as nat) + seq!['-'] + two_digits(dd as nat)
}

/// The text `HH:MM` of a time of day.
pub open spec fn time_text(t: Time) -> Seq<char> {
    two_digits(t.hour as nat) + seq![':'] + two_digits(t.minute as nat)
}

/// Calls `String::from_iter` on the characters of `v`: the string of those
/// characters in order.
#[verifier::external_body]
pub(crate) fn chars_to_string(v: &Vec<char>) -> (r: String)
    ensures
        r@ == v@,
{
    v.iter().collect()
}

pub fn digit_char(d: u64) -> (r: char)
    requires
        d < 10,
    ensures
        r == digit_spec(d as int),
{
    if d == 0 {
        '0'
    } else if d == 1 {
        '1'
    } else if d == 2 {
        '2'
    } else if d == 3 {
        '3'
    } else if d == 4 {
        '4'
    } else if d == 5 {
        '5'
    } else if d == 6 {
        '6'
    } else if d == 7 {
        '7'
    } else if d == 8 {
        '8'
    } else {
        '9'
    }
}

/// Append the decimal digits of `n`.
pub fn push_decimal(out: &mut Vec<char>, n: u64)
    ensures
        final(out)@ == old(out)@ + decimal_spec(n as nat),
    decreases n,
{
    if n >= 10 {
        push_decimal(out, n / 10);
    }
    out.push(digit_char(n % 10));
}

/// Append the characters of `s`.
pub fn push_str(out: &mut Vec<char>, s: &str)
    ensures
        final(out)@ == old(out)@ + s@,
{
    let ghost start = out@;
    let n = s.unicode_len();
    let mut i: usize = 0;
    while i < n
        invariant
            n == s@.len(),
            i <= n,
            out@ == start + s@.subrange(0, i as int),
        decreases n - i,
    {
        out.push(s.get_char(i));
        i = i + 1;
        assert(s@.subrange(0, i as int) == s@.subrange(0, i - 1 as int).push(s@[i - 1]));
    }
    assert(s@.subrange(0, n as int) == s@);
}

/// Append the characters of `v`.
pub fn push_chars(out: &mut Vec<char>, v: &Vec<char>)
    ensures
        final(out)@ == old(out)@ + v@,
{
    let ghost start = out@;
    let mut i: usize = 0;
    while i < v.len()
        invariant
            i <= v.len(),
            out@ == start + v@.subrange(0, i as int),
        decreases v.len() - i,
    {
        out.push(v[i]);
        i = i + 1;
        assert(v@.subrange(0, i as int) == v@.subrange(0, i - 1 as int).push(v@[i - 1]));
    }
    assert(v@.subrange(0, v@.len() as int) == v@);
}

/// Append decimal `n` zero-padded to width `w`.
pub fn push_padded(out: &mut Vec<char>, n: u64, w: usize)
    ensures
        final(out)@ == old(out)@ + pad_zeros(decimal_spec(n as nat), w as nat),
{
    let mut digits: Vec<char> = Vec::new();
    push_decimal(&mut digits, n);
    assert(digits@ == decimal_spec(n as nat));
    let ghost start = out@;
    if digits.len() < w {
        let zeros: usize = w - digits.len();
        let mut i: usize = 0;
        while i < zeros
            invariant
                i <= zeros,
                out@ == start + Seq::new(i as nat, |j: int| '0'),
            decreases zeros - i,
        {
            out.push('0');
            i = i + 1;
            assert(Seq::new(i as nat, |j: int| '0') == Seq::new((i - 1) as nat, |j: int| '0').push(
                '0',
            ));
        }
    }
    push_chars(out, &digits);
}

/// Append the ISO text of a date.
#[verifier::rlimit(40)]
pub fn push_date(out: &mut Vec<char>, d: Date)
    requires
        d.in_range(),
    ensures
        final(out)@ == old(out)@ + date_text(d),
{
    let (y, m, dd) = d.ymd();
    if 0 <= y && y <= 9999 {
        push_padded(out, y as u64, 4);
    } else if y < 0 {
        out.push('-');
        push_padded(out, (-(y as i64)) as u64, 4);
    } else {
        out.push('+');
        push_padded(out, y as u64, 4);
    }
    out.push('-');
    push_padded(out, m as u64, 2);
    out.push('-');
    push_padded(out, dd as u64, 2);
    proof {
        assert(out@ =~= old(out)@ + date_text(d));
    }
}

/// Append the `HH:MM` text of a time of day.
pub fn push_time(out: &mut Vec<char>, t: Time)
    ensures
        final(out)@ == old(out)@ + time_text(t),
{
    push_padded(out, t.hour as u64, 2);
    out.push(':');
    push_padded(out, t.minute as u64, 2);
    assert(out@ =~= old(out)@ + time_text(t));
}

/// The ISO text `YYYY-MM-DD` of a date.
pub fn date_string(d: Date) -> (r: String)
    requires
        d.in_range(),
    ensures
        r@ == date_text(d),
{
    let mut v: Vec<char> = Vec::new();
    push_date(&mut v, d);
    assert(v@ =~= date_text(d));
    chars_to_string(&v)
}

/// The `HH:MM` text of a time of day.
pub fn time_label(t: Time) -> (r: String)
    ensures
        r@ == time_text(t),
{
    let mut v: Vec<char> = Vec::new();
    push_time(&mut v, t);
    assert(v@ =~= time_text(t));
    chars_to_string(&v)
}

} // verus!
