//! Counting the seconds elapsed from 1970-01-01T00:00:00Z to the start of a
//! calendar date, and the epoch arithmetic's bounds and monotonicity.

use vstd::prelude::*;
use crate::calendar::CalendarDate;
use crate::calendar::day_of_year;
use crate::calendar::is_leap_year;
use crate::calendar::lemma_day_of_year_bounds;
use crate::calendar::spec_day_of_year;
use crate::calendar::spec_days_in_year;
use crate::error::EpochError;

verus! {

/// Largest supported year. It is chosen so that the millisecond timestamp
/// of every valid date up to and including this year fits in a `u64`.
pub const MAX_YEAR: u64 = 500_000_000;

/// Days elapsed from 1970-01-01 to January 1 of `year`: the sum of the
/// year lengths over `[1970, year)`.
pub open spec fn spec_days_from_epoch(year: int) -> int
    decreases year,
{
    if year <= 1970 {
        0
    } else {
        spec_days_from_epoch(year - 1) + spec_days_in_year(year - 1)
    }
}

/// The running day count never decreases as the year advances.
pub proof fn lemma_days_from_epoch_monotonic(y1: int, y2: int)
    requires
        y1 <= y2,
    ensures
        spec_days_from_epoch(y1) <= spec_days_from_epoch(y2),
    decreases y2 - y1,
{
    if y1 < y2 {
        lemma_days_from_epoch_monotonic(y1, y2 - 1);
    }
}

/// `spec_days_from_epoch` is bounded by 366 days per elapsed year.
pub proof fn lemma_days_from_epoch_bounds(year: int)
    ensures
        0 <= spec_days_from_epoch(year),
        year >= 1970 ==> spec_days_from_epoch(year) <= 366 * (year - 1970),
    decreases year,
{
    if year > 1970 {
        lemma_days_from_epoch_bounds(year - 1);
    }
}

/// Seconds from the epoch origin to the start (midnight) of the date:
/// the days elapsed within the year plus the days of all elapsed years,
/// scaled by 86400 seconds per day.
pub open spec fn spec_epoch_seconds(year: int, month: int, day: int) -> int {
    (spec_day_of_year(year, month, day) - 1 + spec_days_from_epoch(year)) * 86400
}

/// What [`calculate_epoch`] returns: the seconds count for a year of the
/// epoch era, and `EraError` for an earlier year.
pub open spec fn spec_calculate_epoch(year: int, month: int, day: int) -> Result<u64, EpochError> {
    if year < 1970 {
        Err(EpochError::EraError)
    } else {
        Ok(spec_epoch_seconds(year, month, day) as u64)
    }
}

/// Compute the epoch timestamp of the date, in seconds. Years before 1970
/// are rejected with `EraError`, since the timestamp would be negative.
///
/// The precondition only keeps the computation inside `u64`: the seconds
/// value must be representable (it is for every valid date up to
/// [`MAX_YEAR`], see [`lemma_epoch_seconds_bounds`]).
pub fn calculate_epoch(year: u64, month: u64, day: u64) -> (r: Result<u64, EpochError>)
    requires
        year >= 1970 ==> 0 <= spec_epoch_seconds(year as int, month as int, day as int)
            <= u64::MAX,
    ensures
        r == spec_calculate_epoch(year as int, month as int, day as int),
{
    if year < 1970 {
        return Err(EpochError::EraError);
    }
    let ghost doy = spec_day_of_year(year as int, month as int, day as int);
    let ghost total = doy - 1 + spec_days_from_epoch(year as int);
    proof {
        lemma_days_from_epoch_bounds(year as int);
        assert(total >= 0);
        assert(total < u64::MAX);
        assert(doy <= u64::MAX);
    }
    let mut days = day_of_year(year, month, day);
    let mut y: u64 = 1970;
    while y < year
        invariant
            1970 <= y <= year,
            days == doy + spec_days_from_epoch(y as int),
            doy + spec_days_from_epoch(year as int) <= u64::MAX,
        decreases year - y,
    {
        proof {
            lemma_days_from_epoch_monotonic(y as int + 1, year as int);
            lemma_days_from_epoch_bounds(y as int + 1);
        }
        days = days + if is_leap_year(y) { 366 } else { 365 };
        y = y + 1;
    }
    days = days - 1;
    Ok(days * 86400)
}

/// For every valid date between 1970 and [`MAX_YEAR`], the timestamp is
/// non-negative and even its millisecond form fits in a `u64`.
pub proof fn lemma_epoch_seconds_bounds(year: int, month: int, day: int)
    requires
        1 <= month <= 12,
        1 <= day <= crate::calendar::spec_days_in_month(year, month),
        1970 <= year <= MAX_YEAR as int,
    ensures
        0 <= spec_epoch_seconds(year, month, day),
        spec_epoch_seconds(year, month, day) * 1000 <= u64::MAX,
{
    lemma_day_of_year_bounds(year, month, day);
    lemma_days_from_epoch_bounds(year);
    let total = spec_day_of_year(year, month, day) - 1 + spec_days_from_epoch(year);
    assert(total <= 365 + 366 * (MAX_YEAR as int - 1970));
    assert(spec_epoch_seconds(year, month, day) * 1000 == total * 86400000);
    assert(total * 86400000 <= (365 + 366 * (MAX_YEAR as int - 1970)) * 86400000);
}

/// Strict monotonicity of the epoch arithmetic: of two valid dates of the
/// epoch era, the earlier one always has the strictly smaller timestamp.
pub proof fn lemma_epoch_seconds_monotonic(d1: CalendarDate, d2: CalendarDate)
    requires
        d1.valid(),
        d2.valid(),
        1970 <= d1.year,
        d1.year < d2.year || (d1.year == d2.year && (d1.month < d2.month || (d1.month
            == d2.month && d1.day < d2.day))),
    ensures
        spec_epoch_seconds(d1.year as int, d1.month as int, d1.day as int)
            < spec_epoch_seconds(d2.year as int, d2.month as int, d2.day as int),
{
    let doy1 = spec_day_of_year(d1.year as int, d1.month as int, d1.day as int);
    let doy2 = spec_day_of_year(d2.year as int, d2.month as int, d2.day as int);
    let t1 = doy1 - 1 + spec_days_from_epoch(d1.year as int);
    let t2 = doy2 - 1 + spec_days_from_epoch(d2.year as int);
    lemma_day_of_year_bounds(d1.year as int, d1.month as int, d1.day as int);
    lemma_day_of_year_bounds(d2.year as int, d2.month as int, d2.day as int);
    if d1.year == d2.year {
        if d1.month == d2.month {
            assert(doy1 < doy2);
        } else {
            crate::calendar::lemma_days_before_month_monotonic(
                d1.year as int,
                d1.month as int + 1,
                d2.month as int,
            );
            assert(crate::calendar::spec_days_before_month(d1.year as int, d1.month as int + 1)
                == crate::calendar::spec_days_before_month(d1.year as int, d1.month as int)
                + crate::calendar::spec_days_in_month(d1.year as int, d1.month as int));
            assert(doy1 < doy2);
        }
        assert(t1 < t2);
    } else {
        // Dec 31 of d1's year still precedes Jan 1 of d2's year.
        assert(spec_days_from_epoch(d1.year as int + 1) == spec_days_from_epoch(d1.year as int)
            + spec_days_in_year(d1.year as int));
        lemma_days_from_epoch_monotonic(d1.year as int + 1, d2.year as int);
        assert(t1 < t2);
    }
    assert(t1 * 86400 < t2 * 86400);
}

} // verus!
