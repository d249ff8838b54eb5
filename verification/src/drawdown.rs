//! Calendar spans of a drawdown: days from the peak to the trough, and from
//! the trough to the recovery, with dates read as `YYYY-MM-DD` by chrono.

use vstd::prelude::*;

verus! {

/// The day number (days since 1970-01-01) of the date that
/// `chrono::NaiveDate::parse_from_str(s, "%Y-%m-%d")` reads from `s`, or
/// `None` when it reads none.
pub uninterp spec fn iso_day_number(s: Seq<char>) -> Option<i32>;

/// Reads `s` with `chrono::NaiveDate::parse_from_str` and the format
/// `%Y-%m-%d`, and gives the date's day number from
/// `NaiveDate::to_epoch_days`, a one-to-one count of days. Which strings
/// parse, and to which dates, is not stated; the result is named
/// `iso_day_number`. The day count makes the difference of two day numbers
/// equal to the number of days of chrono's `later - earlier`.
#[verifier::external_body]
fn parse_iso_day_number(s: &str) -> (r: Option<i32>)
    ensures
        r == iso_day_number(s@),
{
    match chrono::NaiveDate::parse_from_str(s, "%Y-%m-%d") {
        Ok(d) => Some(d.to_epoch_days()),
        Err(_) => None,
    }
}

/// The number of days from one day number to another, when both dates were
/// read.
pub open spec fn days_between(from: Option<i32>, to: Option<i32>) -> Option<int> {
    match (from, to) {
        (Some(a), Some(b)) => Some(b - a),
        _ => None,
    }
}

/// The two spans of a drawdown.
#[derive(Debug, Clone, Copy, PartialEq, Eq, Structural)]
pub struct DrawdownSpans {
    /// Days from the peak to the trough; 0 when either date cannot be read.
    pub drawdown_days: i64,
    /// Days from the trough to the recovery; none without a recovery, or
    /// when either date cannot be read.
    pub recovery_days: Option<i64>,
}

/// The spans from already-read day numbers: `recovery` is `None` when there
/// is no recovery, else what was read from the recovery date.
pub fn spans_from_day_numbers(peak: Option<i32>, trough: Option<i32>, recovery: Option<Option<i32>>) -> (r:
    DrawdownSpans)
    ensures
        r.drawdown_days == (match days_between(peak, trough) {
            Some(n) => n,
            None => 0,
        }),
        r.recovery_days == (match recovery {
            Some(rd) => match days_between(trough, rd) {
                Some(n) => Some(n as i64),
                None => None,
            },
            None => None,
        }),
{
    let drawdown_days: i64 = match (peak, trough) {
        (Some(a), Some(b)) => b as i64 - a as i64,
        _ => 0,
    };
    let recovery_days: Option<i64> = match recovery {
        Some(rd) => match (trough, rd) {
            (Some(a), Some(b)) => Some(b as i64 - a as i64),
            _ => None,
        },
        None => None,
    };
    DrawdownSpans { drawdown_days, recovery_days }
}

/// The spans of a drawdown from its peak, trough and (optional) recovery
/// dates. The recovery span reads the trough and recovery dates only when
/// there is a recovery.
pub fn drawdown_spans(peak_date: &str, trough_date: &str, recovery_date: Option<&str>) -> (r: DrawdownSpans)
    ensures
        r.drawdown_days == (match days_between(iso_day_number(peak_date@), iso_day_number(trough_date@)) {
            Some(n) => n,
            None => 0,
        }),
        r.recovery_days == (match recovery_date {
            Some(rd) => match days_between(iso_day_number(trough_date@), iso_day_number(rd@)) {
                Some(n) => Some(n as i64),
                None => None,
            },
            None => None,
        }),
{
    let peak = parse_iso_day_number(peak_date);
    let trough = parse_iso_day_number(trough_date);
    let recovery = match recovery_date {
        Some(rd) => Some(parse_iso_day_number(rd)),
        None => None,
    };
    spans_from_day_numbers(peak, trough, recovery)
}

/// The drawdown and the recovery add up to the time from the peak to the
/// recovery, when all three dates are read.
pub proof fn lemma_spans_add_up(peak: Option<i32>, trough: Option<i32>, recovery: Option<i32>)
    requires
        peak is Some,
        trough is Some,
        recovery is Some,
    ensures
        days_between(peak, trough)->0 + days_between(trough, recovery)->0 == days_between(peak, recovery)->0,
{
}

} // verus!
