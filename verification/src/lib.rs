//! Convert a proleptic Gregorian calendar date (UTC, year-month-day) into a
//! Unix epoch timestamp, in seconds or milliseconds.
//!
//! The pipeline is: split the date string on `-` into exactly three fields,
//! parse each field as an unsigned integer, validate the month and the day
//! against the (possibly leap) year, count the days elapsed since
//! 1970-01-01, and scale to the requested unit. Every failure is reported
//! as a value of [`error::EpochError`].

pub mod calendar;
pub mod convert;
pub mod epoch;
pub mod error;
pub mod parse;

pub use calendar::CalendarDate;
pub use calendar::days_in_month;
pub use calendar::day_of_year;
pub use calendar::is_leap_year;
pub use epoch::MAX_YEAR;
pub use epoch::calculate_epoch;
pub use error::DateField;
pub use error::EpochError;
pub use error::RangeKind;
pub use convert::TimeUnit;
pub use convert::parse_unit;
pub use convert::unix_converter;
pub use parse::parse_date;
