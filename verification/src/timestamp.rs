//! The one place the library leans on `chrono`: turning a Unix timestamp
//! into the UTC calendar date that contains it.

use crate::date::{Date, MAX_EPOCH_DAY, MIN_EPOCH_DAY};
use vstd::prelude::*;

verus! {

/// Relies on chrono's `DateTime::<Utc>::from_timestamp`: for an in-range
/// number of seconds it yields the instant's UTC date, the proleptic
/// Gregorian date whose day number (days since 1970-01-01) is the timestamp
/// divided by 86400, rounded toward negative infinity; it yields `None`
/// exactly when that day falls outside the years chrono represents, which
/// are the years from `MIN_YEAR` to `MAX_YEAR`.
#[verifier::external_body]
pub(crate) fn timestamp_to_date(secs: i64) -> (r: Option<Date>)
    ensures
        r.is_some() <==> MIN_EPOCH_DAY as int <= secs as int / 86400 <= MAX_EPOCH_DAY as int,
        r matches Some(d) ==> d.wf() && d.epoch_day() == secs as int / 86400,
{
    match chrono::DateTime::<chrono::Utc>::from_timestamp(secs, 0) {
        Some(dt) => {
            let nd = dt.date_naive();
            Some(
                Date {
                    year: chrono::Datelike::year(&nd),
                    month: chrono::Datelike::month(&nd) as u8,
                    day: chrono::Datelike::day(&nd) as u8,
                },
            )
        },
        None => None,
    }
}

} // verus!
