//! Calendar dates as day numbers (days from the common era, 0001-01-01 being
//! day 1), parsed from and written as `YYYY-MM-DD` by chrono; the window a
//! range query covers.

use vstd::prelude::*;
use chrono::{Datelike, NaiveDate};
use crate::text::push_str;

verus! {

/// What `chrono::NaiveDate::parse_from_str(s, "%Y-%m-%d")` makes of `s`:
/// the date's `num_days_from_ce`, or the text of chrono's parse error.
pub uninterp spec fn ymd_parse(s: Seq<char>) -> Result<i32, Seq<char>>;

/// The day `s` reads as, or `None` when chrono refuses it.
pub open spec fn ymd_days(s: Seq<char>) -> Option<i32> {
    match ymd_parse(s) {
        Ok(d) => Some(d),
        Err(_) => None,
    }
}

/// chrono's message for a text it refuses (empty for one it reads).
pub open spec fn ymd_error(s: Seq<char>) -> Seq<char> {
    match ymd_parse(s) {
        Ok(_) => Seq::empty(),
        Err(e) => e,
    }
}

/// `NaiveDate::format("%Y-%m-%d")` of the date with the given day number.
pub uninterp spec fn ymd_text(days: i32) -> Seq<char>;

/// Day numbers of chrono's first (year -262143, January 1) and last
/// (year 262142, December 31) representable date.
pub const MIN_DAY: i32 = -95746129;
pub const MAX_DAY: i32 = 95745399;

pub open spec fn in_calendar(d: int) -> bool {
    MIN_DAY <= d <= MAX_DAY
}

/// `NaiveDate::parse_from_str(s, "%Y-%m-%d")`: the date's day number, or
/// chrono's error message. Every date chrono returns lies in its range.
#[verifier::external_body]
fn parse_ymd(s: &str) -> (r: Result<i32, String>)
    ensures
        match r {
            Ok(d) => ymd_parse(s@) == Ok::<i32, Seq<char>>(d) && in_calendar(d as int),
            Err(e) => ymd_parse(s@) == Err::<i32, Seq<char>>(e@),
        },
{
    match NaiveDate::parse_from_str(s, "%Y-%m-%d") {
        Ok(d) => Ok(d.num_days_from_ce()),
        Err(e) => Err(e.to_string()),
    }
}

/// `NaiveDate::from_num_days_from_ce_opt(days)` written with
/// `format("%Y-%m-%d")`; every day number of the range has a date. The text
/// reads back as the same day: `%Y` writes a sign on years outside
/// 0..=9999, and parsing `%Y` takes such a sign.
#[verifier::external_body]
fn format_ymd(days: i32) -> (r: String)
    requires
        in_calendar(days as int),
    ensures
        r@ == ymd_text(days),
        ymd_days(r@) == Some(days),
{
    match NaiveDate::from_num_days_from_ce_opt(days) {
        Some(d) => d.format("%Y-%m-%d").to_string(),
        None => String::new(),
    }
}

/// The day number of a `YYYY-MM-DD` date, if it is one.
pub fn parse_date(s: &str) -> (r: Option<i32>)
    ensures
        r == ymd_days(s@),
        r matches Some(d) ==> in_calendar(d as int),
{
    match parse_ymd(s) {
        Ok(d) => Some(d),
        Err(_) => None,
    }
}

/// The `YYYY-MM-DD` text of a day; it reads back as that day.
pub fn date_text(days: i32) -> (r: String)
    requires
        in_calendar(days as int),
    ensures
        r@ == ymd_text(days),
        ymd_days(r@) == Some(days),
{
    format_ymd(days)
}

/// Days from `from` to `to`, both included.
pub open spec fn span(from: int, to: int) -> int {
    to - from + 1
}

pub fn span_days(from: i32, to: i32) -> (r: i64)
    ensures
        r == span(from as int, to as int),
{
    to as i64 - from as i64 + 1
}

/// The dates from `from` to `to`, both included, as text.
pub open spec fn dates_between(f: i32, t: i32) -> Seq<Seq<char>> {
    Seq::new((t - f + 1) as nat, |k: int| ymd_text((f + k) as i32))
}

/// Every date from `from` to `to` (both `YYYY-MM-DD`), in order.
pub fn iter_dates(from: &str, to: &str) -> (r: Result<Vec<String>, String>)
    ensures
        match r {
            Ok(v) => ymd_days(from@) matches Some(f) && ymd_days(to@) matches Some(t) && f <= t
                && v@.map_values(|s: String| s@) == dates_between(f, t),
            Err(m) => ymd_days(from@) is None && m@ == "bad from: "@ + ymd_error(from@)
                || ymd_days(from@) is Some && ymd_days(to@) is None && m@ == "bad to: "@ + ymd_error(to@)
                || (ymd_days(from@) matches Some(f) && ymd_days(to@) matches Some(t) && t < f && m@
                == "to must be >= from"@),
        },
{
    let f = match parse_ymd(from) {
        Ok(d) => d,
        Err(e) => {
            let mut m = String::new();
            push_str(&mut m, "bad from: ");
            push_str(&mut m, e.as_str());
            return Err(m);
        },
    };
    let t = match parse_ymd(to) {
        Ok(d) => d,
        Err(e) => {
            let mut m = String::new();
            push_str(&mut m, "bad to: ");
            push_str(&mut m, e.as_str());
            return Err(m);
        },
    };
    if t < f {
        let mut m = String::new();
        push_str(&mut m, "to must be >= from");
        return Err(m);
    }
    let mut out: Vec<String> = Vec::new();
    let mut d: i32 = f;
    while d <= t
        invariant
            in_calendar(f as int),
            in_calendar(t as int),
            f <= d <= t + 1,
            f <= t,
            out@.map_values(|s: String| s@) == dates_between(f, t).take(d - f),
        decreases t + 1 - d,
    {
        let s = format_ymd(d);
        let ghost before = out@.map_values(|s: String| s@);
        out.push(s);
        assert(out@.map_values(|s: String| s@) =~= before.push(ymd_text(d)));
        assert(dates_between(f, t)[d - f] == ymd_text(d));
        assert(out@.map_values(|s: String| s@) =~= dates_between(f, t).take(d + 1 - f));
        d = d + 1;
    }
    assert(dates_between(f, t).take(t + 1 - f) =~= dates_between(f, t));
    Ok(out)
}

// ── the window of a range query ────────────────────────────────────────────

/// Most days one range query covers; a wider request is narrowed, not refused.
pub const MAX_RANGE_DAYS: i64 = 366;

/// `from`/`to` in ascending order.
pub fn order_range(f: i32, t: i32) -> (r: (i32, i32))
    ensures
        r == (if t < f { (t, f) } else { (f, t) }),
{
    if t < f {
        (t, f)
    } else {
        (f, t)
    }
}

/// Whether the window is too wide and the stored dates must be consulted.
pub fn needs_bounds(f: i32, t: i32) -> (r: bool)
    ensures
        r == (span(f as int, t as int) > MAX_RANGE_DAYS),
{
    span_days(f, t) > MAX_RANGE_DAYS
}

/// The window a too-wide request is narrowed to: first onto the dates that
/// hold data (`bounds`, each side only when it could be read), then, if
/// still too wide, to its last `MAX_RANGE_DAYS` days. A window that fits is
/// kept. The result may be empty (`to < from`) when the request and the
/// data do not overlap.
pub open spec fn narrowed(f: int, t: int, bounds: Option<(Option<i32>, Option<i32>)>) -> (int, int) {
    if span(f, t) <= MAX_RANGE_DAYS {
        (f, t)
    } else {
        let f1 = match bounds {
            Some((Some(bf), _)) => if f < bf { bf as int } else { f },
            _ => f,
        };
        let t1 = match bounds {
            Some((_, Some(bl))) => if bl < t { bl as int } else { t },
            _ => t,
        };
        if span(f1, t1) > MAX_RANGE_DAYS {
            (t1 - (MAX_RANGE_DAYS - 1), t1)
        } else {
            (f1, t1)
        }
    }
}

pub fn clamp_range(f: i32, t: i32, bounds: Option<(Option<i32>, Option<i32>)>) -> (r: (i32, i32))
    requires
        in_calendar(f as int),
        in_calendar(t as int),
        f <= t,
        bounds matches Some((Some(bf), _)) ==> in_calendar(bf as int),
        bounds matches Some((_, Some(bl))) ==> in_calendar(bl as int),
    ensures
        (r.0 as int, r.1 as int) == narrowed(f as int, t as int, bounds),
        in_calendar(r.0 as int),
        in_calendar(r.1 as int),
        span(r.0 as int, r.1 as int) <= MAX_RANGE_DAYS,
{
    if span_days(f, t) <= MAX_RANGE_DAYS {
        return (f, t);
    }
    let mut f1 = f;
    let mut t1 = t;
    if let Some((bf, bl)) = bounds {
        if let Some(bf) = bf {
            if f < bf {
                f1 = bf;
            }
        }
        if let Some(bl) = bl {
            if bl < t {
                t1 = bl;
            }
        }
    }
    if span_days(f1, t1) > MAX_RANGE_DAYS {
        (t1 - 365, t1)
    } else {
        (f1, t1)
    }
}

} // verus!
