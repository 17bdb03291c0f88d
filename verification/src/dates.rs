//! Calendar dates as plain values, and the timestamp parser behind them.

use vstd::prelude::*;
use chrono::Datelike;

verus! {

/// The date part of a parsed timestamp, held as plain values so that the
/// aggregation logic can compare and store dates itself.
#[derive(Clone, Copy, PartialEq, Eq, Structural, Debug)]
pub struct DateKey {
    pub year: i32,
    /// Month of the year, starting at 1.
    pub month: u32,
    /// Day of the month, starting at 1.
    pub day: u32,
}

/// The `(year, month, day)` encoded in a timestamp string, if the string
/// parses as a local date-time; `None` where it does not. Which date a given
/// string yields is the parser's business: the library only carries it.
pub uninterp spec fn date_of(s: Seq<char>) -> Option<(i32, u32, u32)>;

/// Relies on chrono's `FromStr` for `NaiveDateTime` (the `%Y-%m-%dT%H:%M:%S%.f`
/// format) and on the `Datelike` accessors of its date part: parsing is a
/// function of the text alone.
#[verifier::external_body]
pub fn parse_date(s: &str) -> (r: Option<DateKey>)
    ensures
        r is Some <==> date_of(s@) is Some,
        r matches Some(d) ==> date_of(s@) == Some((d.year, d.month, d.day)),
{
    match s.parse::<chrono::NaiveDateTime>() {
        Ok(dt) => {
            let date = dt.date();
            Some(DateKey { year: date.year(), month: date.month(), day: date.day() })
        },
        Err(_) => None,
    }
}

/// Strict calendar order: year first, then month, then day.
pub open spec fn date_lt(a: DateKey, b: DateKey) -> bool {
    ||| a.year < b.year
    ||| (a.year == b.year && a.month < b.month)
    ||| (a.year == b.year && a.month == b.month && a.day < b.day)
}

/// Calendar order is total: two dates are ordered one way or the other,
/// or they are the same date.
pub proof fn lemma_date_lt_total(a: DateKey, b: DateKey)
    ensures
        date_lt(a, b) || date_lt(b, a) || a == b,
{
}

pub fn date_before(a: &DateKey, b: &DateKey) -> (r: bool)
    ensures
        r == date_lt(*a, *b),
{
    if a.year != b.year {
        a.year < b.year
    } else if a.month != b.month {
        a.month < b.month
    } else {
        a.day < b.day
    }
}

} // verus!
