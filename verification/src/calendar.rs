//! Calendar dates in their canonical `YYYY-MM-DD` spelling, parsed by
//! chrono and accepted only when formatting the parsed date gives the text
//! back exactly.

use vstd::prelude::*;

use chrono::{Datelike, Timelike};

use crate::text::{append_decimal, decimal, lemma_decimal_len, str_eq};

verus! {

/// What `chrono::NaiveDate::parse_from_str(text, "%Y-%m-%d")` yields for
/// `text`, as year, month and day.
pub uninterp spec fn chrono_date_parse(text: Seq<char>) -> Option<(i32, u32, u32)>;

/// `chrono::NaiveDate::parse_from_str` with the format `%Y-%m-%d`: the date
/// it parses, as year, month and day, or none when it refuses the text.
/// Which texts its parser accepts is named here, not described.
#[verifier::external_body]
fn parse_ymd(text: &str) -> (r: Option<(i32, u32, u32)>)
    ensures
        r == chrono_date_parse(text@),
{
    match chrono::NaiveDate::parse_from_str(text, "%Y-%m-%d") {
        Ok(date) => Some((date.year(), date.month(), date.day())),
        Err(_) => None,
    }
}

/// `n` in decimal, zero-padded on the left to at least `width` digits.
pub open spec fn padded(n: nat, width: nat) -> Seq<char> {
    let d = decimal(n);
    if d.len() < width {
        Seq::new((width - d.len()) as nat, |i: int| '0') + d
    } else {
        d
    }
}

/// chrono's `%Y`: the year zero-padded to four digits, with a sign when
/// outside 0..=9999.
pub open spec fn year_text(y: int) -> Seq<char> {
    if 0 <= y <= 9999 {
        padded(y as nat, 4)
    } else if y < 0 {
        seq!['-'] + padded((-y) as nat, 4)
    } else {
        seq!['+'] + padded(y as nat, 4)
    }
}

/// chrono's `%Y-%m-%d` spelling of a date.
pub open spec fn ymd_text(y: int, m: nat, d: nat) -> Seq<char> {
    year_text(y) + seq!['-'] + padded(m, 2) + seq!['-'] + padded(d, 2)
}

/// A text is a canonical date: ten characters that chrono parses to a
/// date whose `%Y-%m-%d` spelling is the text itself.
pub open spec fn is_canonical_date(text: Seq<char>) -> bool {
    &&& text.len() == 10
    &&& chrono_date_parse(text) matches Some(p) && ymd_text(p.0 as int, p.1 as nat, p.2 as nat) == text
}

/// A calendar date.
#[derive(Debug, Clone, Copy, PartialEq, Eq, Structural)]
pub struct CalendarDate {
    pub year: i32,
    pub month: u32,
    pub day: u32,
}

fn append_padded(s: &mut String, n: u64, width: u64)
    requires
        width <= 8,
        n < 10_000_000_000,
    ensures
        final(s)@ == old(s)@ + padded(n as nat, width as nat),
{
    proof {
        reveal_strlit("0");
    }
    let mut digits: u64 = 1;
    let mut rest = n;
    proof {
        reveal_with_fuel(pow10, 11);
        assert(pow10(10) == 10_000_000_000);
        lemma_decimal_len_bound(n as nat, 10);
    }
    while rest >= 10
        invariant
            1 <= digits <= 10,
            n < 10_000_000_000,
            decimal(n as nat).len() <= 10,
            rest <= n,
            decimal(n as nat).len() == decimal(rest as nat).len() + digits - 1,
        decreases rest,
    {
        proof {
            assert(decimal(rest as nat) == decimal((rest / 10) as nat).push(crate::text::digit_char((rest % 10) as nat)));
            lemma_decimal_len((rest / 10) as nat);
        }
        rest = rest / 10;
        digits = digits + 1;
    }
    proof {
        assert(decimal(rest as nat).len() == 1);
        assert(decimal(n as nat).len() == digits);
    }
    let ghost start = s@;
    let mut k: u64 = digits;
    while k < width
        invariant
            digits <= width ==> digits <= k <= width,
            digits > width ==> k == digits,
            s@ == start + Seq::new((k - digits) as nat, |i: int| '0'),
        decreases width - k,
    {
        s.append("0");
        proof {
            reveal_strlit("0");
            assert(s@ =~= start + Seq::new((k + 1 - digits) as nat, |i: int| '0'));
        }
        k = k + 1;
    }
    let ghost zeros = s@;
    append_decimal(s, n);
    proof {
        if decimal(n as nat).len() < width {
            assert(zeros == start + Seq::new((width - decimal(n as nat).len()) as nat, |i: int| '0'));
            assert(s@ =~= start + padded(n as nat, width as nat));
        } else {
            assert(zeros =~= start);
        }
    }
}

/// The number of decimal digits of `n` is at most `k` when `n < 10^k`.
proof fn lemma_decimal_len_bound(n: nat, k: nat)
    requires
        n < pow10(k),
        k >= 1,
    ensures
        decimal(n).len() <= k,
    decreases k,
{
    if n >= 10 {
        assert(n / 10 < pow10((k - 1) as nat)) by (nonlinear_arith)
            requires
                n < pow10(k),
                pow10(k) == 10 * pow10((k - 1) as nat),
                n >= 10,
        {
        }
        if k == 1 {
            assert(pow10(1) == 10);
        } else {
            lemma_decimal_len_bound(n / 10, (k - 1) as nat);
        }
    }
}

pub open spec fn pow10(k: nat) -> nat
    decreases k,
{
    if k == 0 {
        1
    } else {
        10 * pow10((k - 1) as nat)
    }
}

/// chrono's `%Y-%m-%d` spelling of `year`-`month`-`day`.
pub fn date_text(year: i32, month: u32, day: u32) -> (r: String)
    ensures
        r@ == ymd_text(year as int, month as nat, day as nat),
{
    proof {
        reveal_strlit("-");
        reveal_strlit("+");
    }
    let mut out = String::new();
    if year < 0 {
        out.append("-");
        let magnitude: u64 = (0i64 - year as i64) as u64;
        append_padded(&mut out, magnitude, 4);
    } else if year > 9999 {
        out.append("+");
        append_padded(&mut out, year as u64, 4);
    } else {
        append_padded(&mut out, year as u64, 4);
    }
    out.append("-");
    append_padded(&mut out, month as u64, 2);
    out.append("-");
    append_padded(&mut out, day as u64, 2);
    proof {
        assert(out@ =~= ymd_text(year as int, month as nat, day as nat));
    }
    out
}

/// The date `text` spells canonically, if it does.
pub fn canonical_date(text: &str) -> (r: Option<CalendarDate>)
    ensures
        is_canonical_date(text@) ==> (r matches Some(d) && chrono_date_parse(text@) == Some((d.year, d.month, d.day))),
        !is_canonical_date(text@) ==> r is None,
{
    if crate::text::chars_of(text).len() != 10 {
        return None;
    }
    match parse_ymd(text) {
        Some((year, month, day)) => {
            let spelled = date_text(year, month, day);
            if str_eq(spelled.as_str(), text) {
                Some(CalendarDate { year, month, day })
            } else {
                None
            }
        },
        None => None,
    }
}

// ---- instants ----

/// What `chrono::DateTime::parse_from_rfc3339(text)` yields for `text`,
/// taken to UTC: year, month, day, hour, minute, second and nanosecond.
pub uninterp spec fn chrono_rfc3339_utc(text: Seq<char>) -> Option<(i32, u32, u32, u32, u32, u32, u32)>;

/// `chrono::DateTime::parse_from_rfc3339`, the parsed instant taken to UTC
/// with `with_timezone(&Utc)` and read as plain fields (a leap second has a
/// nanosecond of at least 10^9), or none when chrono refuses the text.
/// Which texts chrono accepts is named here, not described.
#[verifier::external_body]
fn parse_rfc3339_utc(text: &str) -> (r: Option<(i32, u32, u32, u32, u32, u32, u32)>)
    ensures
        r == chrono_rfc3339_utc(text@),
{
    match chrono::DateTime::parse_from_rfc3339(text) {
        Ok(t) => {
            let u = t.with_timezone(&chrono::Utc);
            Some((u.year(), u.month(), u.day(), u.hour(), u.minute(), u.second(), u.nanosecond()))
        },
        Err(_) => None,
    }
}

/// chrono's `to_rfc3339_opts(SecondsFormat::Secs, true)` spelling of a UTC
/// instant: a leap second shows as second 60.
pub open spec fn utc_seconds_text(t: (i32, u32, u32, u32, u32, u32, u32)) -> Seq<char> {
    let sec: nat = if t.6 >= 1_000_000_000 {
        (t.5 + 1) as nat
    } else {
        t.5 as nat
    };
    ymd_text(t.0 as int, t.1 as nat, t.2 as nat) + seq!['T'] + padded(t.3 as nat, 2) + seq![':'] + padded(t.4 as nat, 2)
        + seq![':'] + padded(sec, 2) + seq!['Z']
}

/// A text is a canonical UTC instant at second precision: twenty
/// characters that chrono parses to an instant spelled exactly so.
pub open spec fn is_canonical_utc_seconds(text: Seq<char>) -> bool {
    &&& text.len() == 20
    &&& chrono_rfc3339_utc(text) matches Some(t) && utc_seconds_text(t) == text
}

/// Whether `text` is a canonical UTC instant at second precision.
pub fn canonical_utc_seconds(text: &str) -> (r: bool)
    ensures
        r == is_canonical_utc_seconds(text@),
{
    if crate::text::chars_of(text).len() != 20 {
        return false;
    }
    let t = match parse_rfc3339_utc(text) {
        Some(t) => t,
        None => {
            return false;
        },
    };
    proof {
        reveal_strlit("T");
        reveal_strlit(":");
        reveal_strlit("Z");
    }
    let mut out = date_text(t.0, t.1, t.2);
    out.append("T");
    append_padded(&mut out, t.3 as u64, 2);
    out.append(":");
    append_padded(&mut out, t.4 as u64, 2);
    out.append(":");
    let sec: u64 = if t.6 >= 1_000_000_000 {
        t.5 as u64 + 1
    } else {
        t.5 as u64
    };
    append_padded(&mut out, sec, 2);
    out.append("Z");
    proof {
        assert(out@ =~= utc_seconds_text(t));
    }
    str_eq(out.as_str(), text)
}

} // verus!
