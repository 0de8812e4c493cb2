//! The full conversion pipeline: parse the date string, count the seconds
//! since the epoch origin, and scale the timestamp to the requested unit.

use vstd::prelude::*;
use crate::epoch::MAX_YEAR;
use crate::epoch::calculate_epoch;
use crate::epoch::lemma_epoch_seconds_bounds;
use crate::epoch::spec_calculate_epoch;
use crate::error::EpochError;
use crate::parse::parse_date;
use crate::parse::spec_parse_date;

verus! {

/// The unit of a returned timestamp.
#[derive(Clone, Copy, Debug, PartialEq, Eq, Structural)]
pub enum TimeUnit {
    Seconds,
    Milliseconds,
}

/// What parsing a unit string yields: exactly `s` or `ms`; anything else
/// is a `UnitError`.
pub open spec fn spec_parse_unit(u: Seq<char>) -> Result<TimeUnit, EpochError> {
    if u == seq!['s'] {
        Ok(TimeUnit::Seconds)
    } else if u == seq!['m', 's'] {
        Ok(TimeUnit::Milliseconds)
    } else {
        Err(EpochError::UnitError)
    }
}

/// Parse the unit string.
pub fn parse_unit(unit: &str) -> (r: Result<TimeUnit, EpochError>)
    ensures
        r == spec_parse_unit(unit@),
{
    let n = unit.unicode_len();
    if n == 1 && unit.get_char(0) == 's' {
        proof {
            assert(unit@ =~= seq!['s']);
        }
        Ok(TimeUnit::Seconds)
    } else if n == 2 && unit.get_char(0) == 'm' && unit.get_char(1) == 's' {
        proof {
            assert(unit@ =~= seq!['m', 's']);
        }
        Ok(TimeUnit::Milliseconds)
    } else {
        Err(EpochError::UnitError)
    }
}

/// What the whole conversion yields. The pipeline's order decides which
/// error wins when several validations would fail: the date is parsed and
/// range-checked first, then the era is checked, and the unit last.
pub open spec fn spec_unix_converter(date: Seq<char>, unit: Seq<char>) -> Result<
    u64,
    EpochError,
> {
    match spec_parse_date(date) {
        Err(e) => Err(e),
        Ok(cd) => match spec_calculate_epoch(cd.year as int, cd.month as int, cd.day as int) {
            Err(e) => Err(e),
            Ok(secs) => match spec_parse_unit(unit) {
                Ok(TimeUnit::Seconds) => Ok(secs),
                Ok(TimeUnit::Milliseconds) => Ok((secs * 1000) as u64),
                Err(e) => Err(e),
            },
        },
    }
}

/// Convert a `YYYY-MM-DD` date string to a Unix epoch timestamp in the
/// requested unit (`s` for seconds, `ms` for milliseconds).
///
/// The precondition only rules out dates beyond [`MAX_YEAR`], whose
/// millisecond timestamp could exceed a `u64`; every string that does not
/// parse to such a far-future valid date is accepted and answered exactly
/// as [`spec_unix_converter`] states.
pub fn unix_converter(date: &str, unit: &str) -> (r: Result<u64, EpochError>)
    requires
        spec_parse_date(date@) matches Ok(cd) ==> cd.year <= MAX_YEAR,
    ensures
        r == spec_unix_converter(date@, unit@),
{
    let cd = match parse_date(date) {
        Ok(cd) => cd,
        Err(e) => {
            return Err(e);
        },
    };
    proof {
        if cd.year >= 1970 {
            lemma_epoch_seconds_bounds(cd.year as int, cd.month as int, cd.day as int);
        }
    }
    let secs = match calculate_epoch(cd.year, cd.month, cd.day) {
        Ok(s) => s,
        Err(e) => {
            return Err(e);
        },
    };
    match parse_unit(unit) {
        Ok(TimeUnit::Seconds) => Ok(secs),
        Ok(TimeUnit::Milliseconds) => Ok(secs * 1000),
        Err(e) => Err(e),
    }
}

} // verus!
