//! Calendar and clock: instants are integer milliseconds (or microseconds)
//! since the Unix epoch, calendar days are integer days since 1970-01-01.
//! Calendar conversions and the clock come from `chrono`.
use vstd::prelude::*;

verus! {

pub open spec fn millis_per_day() -> int {
    86_400_000
}

/// Whether `chrono` can represent the UTC instant `ms` milliseconds after
/// the epoch (`Utc.timestamp_millis_opt(ms)` yields a single instant).
pub uninterp spec fn utc_millis_representable(ms: int) -> bool;

/// The `YYYY-MM-DD` text `chrono` writes for the calendar day `day` days
/// after 1970-01-01, or `None` outside its calendar.
pub uninterp spec fn epoch_day_text(day: int) -> Option<Seq<char>>;

/// What `chrono`'s `NaiveDate::from_str` makes of a text: the calendar
/// day (days after 1970-01-01) it reads, or the text of its parse error.
pub uninterp spec fn naive_date_from_str(s: Seq<char>) -> Result<int, Seq<char>>;

/// The calendar day (days after 1970-01-01) that `chrono`'s
/// `NaiveDate::parse_from_str` reads from a text with the format
/// `%Y-%m-%d`, if it accepts it.
pub uninterp spec fn ymd_date_parse(s: Seq<char>) -> Option<int>;

/// Whether `chrono`'s calendar has a day after `day` (`NaiveDate::succ_opt`).
pub uninterp spec fn epoch_day_has_successor(day: int) -> bool;

/// The UTC instant that `chrono`'s RFC 3339 parser reads from a text, if it
/// accepts it: the whole seconds after the epoch and the nanoseconds past
/// them.
pub uninterp spec fn rfc3339_instant(s: Seq<char>) -> Option<(int, int)>;

/// Calls `Utc.timestamp_millis_opt(ms).single()`. Claimed: it yields an
/// instant exactly when `utc_millis_representable(ms)`.
#[verifier::external_body]
pub(crate) fn millis_representable(ms: i64) -> (r: bool)
    ensures
        r == utc_millis_representable(ms as int),
{
    chrono::TimeZone::timestamp_millis_opt(&chrono::Utc, ms).single().is_some()
}

/// Calls `NaiveDate::from_epoch_days` and formats the day with
/// `%Y-%m-%d`. Claimed: the result is `epoch_day_text(day)`.
#[verifier::external_body]
pub(crate) fn day_text(day: i64) -> (r: Option<String>)
    ensures
        match r {
            Some(t) => epoch_day_text(day as int) == Some(t@),
            None => epoch_day_text(day as int) is None,
        },
{
    let days = i32::try_from(day).ok()?;
    chrono::NaiveDate::from_epoch_days(days).map(|d| d.format("%Y-%m-%d").to_string())
}

/// Calls `NaiveDate::from_str` and counts the parsed day from 1970-01-01
/// with `NaiveDate::to_epoch_days`, or gives the parse error's text. Claimed: the result is
/// `naive_date_from_str(s)`, and a parsed day lies within `chrono`'s
/// calendar (years -262143 to 262142), so within 100,000,000 days of the
/// epoch.
#[verifier::external_body]
pub(crate) fn parse_day(s: &str) -> (r: Result<i64, String>)
    ensures
        match r {
            Ok(d) => naive_date_from_str(s@) == Ok::<int, Seq<char>>(d as int) && -100_000_000 <= d
                <= 100_000_000,
            Err(m) => naive_date_from_str(s@) == Err::<int, Seq<char>>(m@),
        },
{
    match <chrono::NaiveDate as core::str::FromStr>::from_str(s) {
        Ok(d) => Ok(i64::from(d.to_epoch_days())),
        Err(e) => Err(e.to_string()),
    }
}

/// Calls `NaiveDate::parse_from_str(s, "%Y-%m-%d")` and counts the parsed
/// day from 1970-01-01. Claimed: the result is `ymd_date_parse(s)`, and a
/// parsed day lies within `chrono`'s calendar (`NaiveDate::MIN` to
/// `NaiveDate::MAX`, years -262143 to 262142), so within 100,000,000 days
/// of the epoch.
#[verifier::external_body]
pub(crate) fn parse_ymd(s: &str) -> (r: Option<i64>)
    ensures
        match r {
            Some(d) => ymd_date_parse(s@) == Some(d as int) && -100_000_000 <= d <= 100_000_000,
            None => ymd_date_parse(s@) is None,
        },
{
    chrono::NaiveDate::parse_from_str(s, "%Y-%m-%d").ok().map(|d| i64::from(d.to_epoch_days()))
}

/// Calls `NaiveDate::from_epoch_days` and `NaiveDate::succ_opt` on the
/// day. Claimed: it has a successor
/// exactly when `epoch_day_has_successor(day)`.
#[verifier::external_body]
pub(crate) fn day_has_successor(day: i64) -> (r: bool)
    ensures
        r == epoch_day_has_successor(day as int),
{
    match i32::try_from(day).ok().and_then(chrono::NaiveDate::from_epoch_days) {
        Some(d) => d.succ_opt().is_some(),
        None => false,
    }
}

/// Calls `DateTime::parse_from_rfc3339`, then `timestamp` and
/// `timestamp_subsec_nanos` of the instant. Claimed: the result is
/// `rfc3339_instant(s)`; the instant lies within `chrono`'s calendar (years
/// -262143 to 262142), so within 8,640,000,000,000 seconds of the epoch,
/// and the nanoseconds are below 2,000,000,000 (`chrono` counts a leap
/// second as nanoseconds past 1,000,000,000).
#[verifier::external_body]
pub(crate) fn parse_rfc3339_instant(s: &str) -> (r: Option<(i64, u32)>)
    ensures
        match r {
            Some(p) => rfc3339_instant(s@) == Some((p.0 as int, p.1 as int)) && -8_640_000_000_000 <= p.0
                <= 8_640_000_000_000 && p.1 < 2_000_000_000,
            None => rfc3339_instant(s@) is None,
        },
{
    chrono::DateTime::parse_from_rfc3339(s).ok().map(|d| (d.timestamp(), d.timestamp_subsec_nanos()))
}

/// Calls `Utc::now()` and counts its calendar day from 1970-01-01 with
/// `NaiveDate::to_epoch_days`. Nothing
/// is claimed of the result: it is the clock's.
#[verifier::external_body]
pub(crate) fn today_day() -> i64 {
    i64::from(chrono::Utc::now().date_naive().to_epoch_days())
}

/// Calls `Utc::now()`, then `timestamp` and `timestamp_subsec_nanos`: the
/// whole seconds since the epoch and the nanoseconds past them. Nothing is
/// claimed of the result: it is the clock's.
#[verifier::external_body]
pub(crate) fn now_parts() -> (i64, u32) {
    let now = chrono::Utc::now();
    (now.timestamp(), now.timestamp_subsec_nanos())
}

/// The calendar day (UTC) of the instant `ms`: the floor of `ms` over the
/// length of a day.
pub open spec fn day_of_millis_spec(ms: int) -> int {
    ms / millis_per_day()
}

/// The calendar day (UTC) of the instant `ms`.
pub fn day_of_millis(ms: i64) -> (r: i64)
    ensures
        r == day_of_millis_spec(ms as int),
        r * millis_per_day() <= ms < r * millis_per_day() + millis_per_day(),
{
    let d: i64 = 86_400_000;
    let q = ms / d;
    let rem = ms % d;
    if rem < 0 {
        let r = q - 1;
        assert(ms == q * d + rem);
        assert(r * d <= ms < r * d + d);
        proof {
            vstd::arithmetic::div_mod::lemma_fundamental_div_mod(ms as int, d as int);
            vstd::arithmetic::div_mod::lemma_div_pos_is_pos(0, d as int);
            lemma_floor_unique(ms as int, d as int, r as int);
        }
        r
    } else {
        assert(ms == q * d + rem);
        proof {
            lemma_floor_unique(ms as int, d as int, q as int);
        }
        q
    }
}

proof fn lemma_floor_unique(x: int, d: int, q: int)
    requires
        d > 0,
        q * d <= x < q * d + d,
    ensures
        x / d == q,
{
    vstd::arithmetic::div_mod::lemma_fundamental_div_mod(x, d);
    let r = x / d;
    assert(r * d <= x < r * d + d) by (nonlinear_arith)
        requires
            x == d * (x / d) + x % d,
            0 <= x % d < d,
            r == x / d,
    ;
    if r < q {
        assert(r * d + d <= q * d) by (nonlinear_arith)
            requires
                r < q,
                d > 0,
        ;
    } else if r > q {
        assert(q * d + d <= r * d) by (nonlinear_arith)
            requires
                r > q,
                d > 0,
        ;
    }
}

} // verus!
