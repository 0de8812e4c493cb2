//! Calendar arithmetic on the proleptic Gregorian calendar: the leap-year
//! rule, month lengths, and the ordinal day of a date within its year.

use vstd::prelude::*;

verus! {

/// The Gregorian leap-year rule: a year is a leap year iff it is divisible
/// by 4 and not by 100, or divisible by 400.
pub open spec fn spec_is_leap_year(year: int) -> bool {
    (year % 4 == 0 && year % 100 != 0) || year % 400 == 0
}

/// Decide whether `year` is a Gregorian leap year.
pub fn is_leap_year(year: u64) -> (r: bool)
    ensures
        r == spec_is_leap_year(year as int),
{
    (year % 4 == 0 && year % 100 != 0) || year % 400 == 0
}

/// Number of days in a year: 366 in a leap year, 365 otherwise.
pub open spec fn spec_days_in_year(year: int) -> int {
    if spec_is_leap_year(year) {
        366
    } else {
        365
    }
}

/// Length of a month of the Gregorian calendar; February depends on the
/// leap-year rule. Months outside 1..=12 get the sentinel length 0.
pub open spec fn spec_days_in_month(year: int, month: int) -> int {
    if month == 2 {
        if spec_is_leap_year(year) {
            29
        } else {
            28
        }
    } else if month == 4 || month == 6 || month == 9 || month == 11 {
        30
    } else if 1 <= month <= 12 {
        31
    } else {
        0
    }
}

/// Number of days in the given month, with February adjusted for leap
/// years. Returns the sentinel 0 for a month outside 1..=12.
pub fn days_in_month(year: u64, month: u64) -> (r: u64)
    ensures
        r == spec_days_in_month(year as int, month as int),
{
    if month == 2 {
        if is_leap_year(year) {
            29
        } else {
            28
        }
    } else if month == 4 || month == 6 || month == 9 || month == 11 {
        30
    } else if 1 <= month && month <= 12 {
        31
    } else {
        0
    }
}

/// Days contributed by the months that precede `month` in `year`: the sum
/// of `spec_days_in_month(year, m)` over `m` in `[1, month)`.
pub open spec fn spec_days_before_month(year: int, month: int) -> int
    decreases month,
{
    if month <= 1 {
        0
    } else {
        spec_days_before_month(year, month - 1) + spec_days_in_month(year, month - 1)
    }
}

/// The 1-indexed ordinal day of the date within its year: `day` plus the
/// days of all preceding months.
pub open spec fn spec_day_of_year(year: int, month: int, day: int) -> int {
    day + spec_days_before_month(year, month)
}

/// The running month sums never decrease as the month advances.
pub proof fn lemma_days_before_month_monotonic(year: int, m1: int, m2: int)
    requires
        m1 <= m2,
    ensures
        spec_days_before_month(year, m1) <= spec_days_before_month(year, m2),
    decreases m2 - m1,
{
    if m1 < m2 {
        lemma_days_before_month_monotonic(year, m1, m2 - 1);
    }
}

/// Every prefix of a year's months holds between 0 and 366 days.
pub proof fn lemma_days_before_month_bounds(year: int, month: int)
    ensures
        0 <= spec_days_before_month(year, month),
        spec_days_before_month(year, month) <= 366,
    decreases month,
{
    if month <= 1 {
    } else {
        lemma_days_before_month_bounds(year, month - 1);
        if month <= 13 {
            lemma_days_before_month_monotonic(year, month, 13);
            lemma_days_before_month_full_year(year);
        } else {
            lemma_days_before_month_past_year(year, month);
        }
    }
}

/// All twelve months of a year together hold exactly
/// `spec_days_in_year(year)` days.
pub proof fn lemma_days_before_month_full_year(year: int)
    ensures
        spec_days_before_month(year, 13) == spec_days_in_year(year),
{
    assert(spec_days_before_month(year, 13) == spec_days_in_year(year)) by {
        reveal_with_fuel(spec_days_before_month, 14);
    }
}

/// For months beyond December the sentinel month length 0 keeps the
/// running sum at the full year's length.
pub proof fn lemma_days_before_month_past_year(year: int, month: int)
    requires
        month >= 13,
    ensures
        spec_days_before_month(year, month) == spec_days_in_year(year),
    decreases month,
{
    if month == 13 {
        lemma_days_before_month_full_year(year);
    } else {
        lemma_days_before_month_past_year(year, month - 1);
    }
}

/// A calendar date of the proleptic Gregorian calendar. A value produced by
/// the parser always satisfies [`CalendarDate::valid`]: the month and the
/// day lie within their bounds for the (possibly leap) year.
#[derive(Clone, Copy, Debug, PartialEq, Eq, Structural)]
pub struct CalendarDate {
    pub year: u64,
    pub month: u64,
    pub day: u64,
}

impl CalendarDate {
    /// Well-formedness: the month is one of the twelve, and the day exists
    /// in that month of that year.
    pub open spec fn valid(self) -> bool {
        &&& 1 <= self.month <= 12
        &&& 1 <= self.day <= spec_days_in_month(self.year as int, self.month as int)
    }
}

/// A valid date's ordinal day lies between 1 and the length of its year.
pub proof fn lemma_day_of_year_bounds(year: int, month: int, day: int)
    requires
        1 <= month <= 12,
        1 <= day <= spec_days_in_month(year, month),
    ensures
        1 <= spec_day_of_year(year, month, day),
        spec_day_of_year(year, month, day) <= spec_days_in_year(year),
{
    lemma_days_before_month_bounds(year, month);
    assert(spec_days_before_month(year, month + 1) == spec_days_before_month(year, month)
        + spec_days_in_month(year, month));
    lemma_days_before_month_monotonic(year, month + 1, 13);
    lemma_days_before_month_full_year(year);
}

/// Compute the 1-indexed ordinal day of the date within its year.
pub fn day_of_year(year: u64, month: u64, day: u64) -> (r: u64)
    requires
        spec_day_of_year(year as int, month as int, day as int) <= u64::MAX,
    ensures
        r == spec_day_of_year(year as int, month as int, day as int),
{
    let mut doy = day;
    let mut m: u64 = 1;
    while m < month
        invariant
            1 <= m,
            month >= 1 ==> m <= month,
            month < 1 ==> m == 1,
            doy == day + spec_days_before_month(year as int, m as int),
            spec_day_of_year(year as int, month as int, day as int) <= u64::MAX,
        decreases month - m,
    {
        proof {
            lemma_days_before_month_bounds(year as int, m as int);
            lemma_days_before_month_bounds(year as int, m as int + 1);
            lemma_days_before_month_monotonic(year as int, m as int + 1, month as int);
        }
        doy = doy + days_in_month(year, m);
        m = m + 1;
    }
    doy
}

} // verus!
