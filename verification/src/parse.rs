//! Parsing a `YYYY-MM-DD` date string into a validated [`CalendarDate`]:
//! splitting on the two `-` separators, reading each field as a decimal
//! numeral, and checking the month and day ranges.

use vstd::prelude::*;
use crate::calendar::CalendarDate;
use crate::calendar::days_in_month;
use crate::calendar::spec_days_in_month;
use crate::error::DateField;
use crate::error::EpochError;
use crate::error::RangeKind;

verus! {

/// Index of the first `-` at or after `from`, or the string's length if
/// there is none at or after it.
pub open spec fn first_dash_from(s: Seq<char>, from: int) -> int
    decreases s.len() - from,
{
    if from < 0 || from >= s.len() {
        s.len() as int
    } else if s[from] == '-' {
        from
    } else {
        first_dash_from(s, from + 1)
    }
}

/// `first_dash_from` points at the first `-` of the suffix: it stays within
/// bounds, lands on a `-` when it is not the length, and nothing before it
/// in the suffix is a `-`.
pub proof fn lemma_first_dash_from(s: Seq<char>, from: int)
    requires
        0 <= from <= s.len(),
    ensures
        from <= first_dash_from(s, from) <= s.len(),
        first_dash_from(s, from) < s.len() ==> s[first_dash_from(s, from)] == '-',
        forall|k: int| from <= k < first_dash_from(s, from) ==> s[k] != '-',
    decreases s.len() - from,
{
    if from < s.len() && s[from] != '-' {
        lemma_first_dash_from(s, from + 1);
    }
}

/// The three fields that exactly two `-` separators delimit, or nothing if
/// the count of separators is not exactly two.
pub open spec fn spec_split3(s: Seq<char>) -> Option<(Seq<char>, Seq<char>, Seq<char>)> {
    let i = first_dash_from(s, 0);
    let j = first_dash_from(s, i + 1);
    if i == s.len() || j == s.len() || first_dash_from(s, j + 1) != s.len() {
        None
    } else {
        Some(
            (
                s.subrange(0, i),
                s.subrange(i + 1, j),
                s.subrange(j + 1, s.len() as int),
            ),
        )
    }
}

/// The character is a decimal digit.
pub open spec fn is_digit(c: char) -> bool {
    48 <= c as u32 <= 57
}

/// Numeric value of a digit character.
pub open spec fn digit_val(c: char) -> int {
    c as u32 - 48
}

/// Every character of the field is a decimal digit.
pub open spec fn all_digits(s: Seq<char>) -> bool {
    forall|k: int| 0 <= k < s.len() ==> is_digit(#[trigger] s[k])
}

/// Value of a decimal numeral, most significant digit first.
pub open spec fn numeral_val(s: Seq<char>) -> int
    decreases s.len(),
{
    if s.len() == 0 {
        0
    } else {
        numeral_val(s.drop_last()) * 10 + digit_val(s.last())
    }
}

/// An all-digit numeral has a non-negative value.
pub proof fn lemma_numeral_val_nonneg(s: Seq<char>)
    requires
        all_digits(s),
    ensures
        numeral_val(s) >= 0,
    decreases s.len(),
{
    if s.len() > 0 {
        lemma_numeral_val_nonneg(s.drop_last());
    }
}

/// Extending an all-digit numeral with further digits never shrinks its
/// value.
pub proof fn lemma_numeral_val_prefix(s: Seq<char>, k: int)
    requires
        all_digits(s),
        0 <= k <= s.len(),
    ensures
        numeral_val(s.take(k)) <= numeral_val(s),
    decreases s.len(),
{
    if k == s.len() {
        assert(s.take(k) =~= s);
    } else {
        assert(s.take(k) =~= s.drop_last().take(k));
        lemma_numeral_val_prefix(s.drop_last(), k);
        lemma_numeral_val_nonneg(s.drop_last());
    }
}

/// What parsing one field yields: the value of a non-empty all-digit
/// numeral that fits in a `u64`, and nothing otherwise.
pub open spec fn spec_parse_field(s: Seq<char>) -> Option<u64> {
    if s.len() > 0 && all_digits(s) && numeral_val(s) <= u64::MAX {
        Some(numeral_val(s) as u64)
    } else {
        None
    }
}

/// What parsing a date string yields: the validated date, or the error of
/// the first failing validation of the pipeline (field count, then each
/// field's numeral in order, then the month range, then the day range).
pub open spec fn spec_parse_date(s: Seq<char>) -> Result<CalendarDate, EpochError> {
    match spec_split3(s) {
        None => Err(EpochError::FormatError),
        Some(fields) => match spec_parse_field(fields.0) {
            None => Err(EpochError::FieldError(DateField::Year)),
            Some(year) => match spec_parse_field(fields.1) {
                None => Err(EpochError::FieldError(DateField::Month)),
                Some(month) => match spec_parse_field(fields.2) {
                    None => Err(EpochError::FieldError(DateField::Day)),
                    Some(day) => if month < 1 || month > 12 {
                        Err(EpochError::RangeError(RangeKind::Month, 12))
                    } else if day < 1 || day > spec_days_in_month(year as int, month as int) {
                        Err(
                            EpochError::RangeError(
                                RangeKind::Day,
                                spec_days_in_month(year as int, month as int) as u64,
                            ),
                        )
                    } else {
                        Ok(CalendarDate { year, month, day })
                    },
                },
            },
        },
    }
}

/// A parsed date is always well-formed: the parser never yields a
/// `CalendarDate` whose month or day is out of range.
pub proof fn lemma_parse_date_valid(s: Seq<char>)
    ensures
        spec_parse_date(s) matches Ok(cd) ==> cd.valid(),
{
}

/// Find the first `-` at or after `from`, or the string's length.
fn find_dash(s: &str, from: usize) -> (p: usize)
    requires
        from <= s@.len(),
    ensures
        p == first_dash_from(s@, from as int),
{
    let n = s.unicode_len();
    let mut i = from;
    while i < n
        invariant
            from <= i <= n,
            n == s@.len(),
            first_dash_from(s@, from as int) == first_dash_from(s@, i as int),
        decreases n - i,
    {
        if s.get_char(i) == '-' {
            return i;
        }
        i = i + 1;
    }
    i
}

/// Parse the field `s@[lo, hi)` as a decimal `u64` numeral.
fn parse_field(s: &str, lo: usize, hi: usize) -> (r: Option<u64>)
    requires
        lo <= hi <= s@.len(),
    ensures
        r == spec_parse_field(s@.subrange(lo as int, hi as int)),
{
    let ghost field = s@.subrange(lo as int, hi as int);
    if lo == hi {
        return None;
    }
    let mut val: u64 = 0;
    let mut i = lo;
    while i < hi
        invariant
            lo <= i <= hi <= s@.len(),
            field == s@.subrange(lo as int, hi as int),
            all_digits(field.take(i - lo)),
            val == numeral_val(field.take(i - lo)),
        decreases hi - i,
    {
        let c = s.get_char(i);
        let u = c as u32;
        proof {
            assert(field[i - lo] == s@[i as int]);
        }
        if u < 48 || u > 57 {
            assert(!is_digit(field[i - lo]));
            return None;
        }
        let d = (u - 48) as u64;
        let ghost next = field.take(i - lo + 1);
        proof {
            assert(next.drop_last() =~= field.take(i - lo));
            assert(next.last() == field[i - lo]);
            assert(numeral_val(next) == val * 10 + d);
        }
        let step = match val.checked_mul(10) {
            Some(v10) => v10.checked_add(d),
            None => None,
        };
        match step {
            Some(w) => {
                val = w;
            },
            None => {
                proof {
                    assert(numeral_val(next) > u64::MAX);
                    if all_digits(field) {
                        lemma_numeral_val_prefix(field, i - lo + 1);
                    }
                }
                return None;
            },
        }
        i = i + 1;
    }
    proof {
        assert(field.take(hi - lo) =~= field);
    }
    Some(val)
}

/// Parse a `YYYY-MM-DD` date string into a validated date. The result is
/// exactly [`spec_parse_date`] of the string: three `-`-separated fields,
/// each a decimal numeral, with the month in 1..=12 and the day within the
/// month's length for the (possibly leap) year.
pub fn parse_date(date: &str) -> (r: Result<CalendarDate, EpochError>)
    ensures
        r == spec_parse_date(date@),
{
    let n = date.unicode_len();
    proof {
        lemma_first_dash_from(date@, 0);
    }
    let i = find_dash(date, 0);
    if i == n {
        return Err(EpochError::FormatError);
    }
    proof {
        lemma_first_dash_from(date@, i as int + 1);
    }
    let j = find_dash(date, i + 1);
    if j == n {
        return Err(EpochError::FormatError);
    }
    proof {
        lemma_first_dash_from(date@, j as int + 1);
    }
    let k = find_dash(date, j + 1);
    if k != n {
        return Err(EpochError::FormatError);
    }
    let year = match parse_field(date, 0, i) {
        Some(v) => v,
        None => {
            return Err(EpochError::FieldError(DateField::Year));
        },
    };
    let month = match parse_field(date, i + 1, j) {
        Some(v) => v,
        None => {
            return Err(EpochError::FieldError(DateField::Month));
        },
    };
    let day = match parse_field(date, j + 1, n) {
        Some(v) => v,
        None => {
            return Err(EpochError::FieldError(DateField::Day));
        },
    };
    if month < 1 || month > 12 {
        return Err(EpochError::RangeError(RangeKind::Month, 12));
    }
    let dim = days_in_month(year, month);
    if day < 1 || day > dim {
        return Err(EpochError::RangeError(RangeKind::Day, dim));
    }
    Ok(CalendarDate { year, month, day })
}

} // verus!
