//! The validation failures a conversion can report. Every error is returned
//! as a value; no input makes the converter panic.

use vstd::prelude::*;

verus! {

/// The date-string field that a [`EpochError::FieldError`] refers to.
#[derive(Clone, Copy, Debug, PartialEq, Eq, Structural)]
pub enum DateField {
    Year,
    Month,
    Day,
}

/// The bounded date component that a [`EpochError::RangeError`] refers to.
#[derive(Clone, Copy, Debug, PartialEq, Eq, Structural)]
pub enum RangeKind {
    Month,
    Day,
}

/// One conversion failure. The first failing validation of the pipeline
/// aborts it and is the only error the caller sees.
#[derive(Clone, Copy, Debug, PartialEq, Eq, Structural)]
pub enum EpochError {
    /// The date string does not split on `-` into exactly three fields.
    FormatError,
    /// The named field is not a decimal numeral that fits in a `u64`.
    FieldError(DateField),
    /// Month or day lies outside its bounds; carries the inclusive upper
    /// bound of the valid range (the lower bound is always 1).
    RangeError(RangeKind, u64),
    /// The year precedes 1970, so the date has no non-negative timestamp.
    EraError,
    /// The unit string is neither `s` nor `ms`.
    UnitError,
}

} // verus!
