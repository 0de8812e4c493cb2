use epoch_converter::calculate_epoch;
use epoch_converter::day_of_year;
use epoch_converter::days_in_month;
use epoch_converter::is_leap_year;
use epoch_converter::parse_date;
use epoch_converter::parse_unit;
use epoch_converter::unix_converter;
use epoch_converter::CalendarDate;
use epoch_converter::DateField;
use epoch_converter::EpochError;
use epoch_converter::RangeKind;
use epoch_converter::TimeUnit;

#[test]
fn leap_year_spot_checks() {
    assert!(is_leap_year(2000));
    assert!(!is_leap_year(1900));
    assert!(is_leap_year(2024));
    assert!(!is_leap_year(2023));
    assert!(is_leap_year(1972));
    assert!(!is_leap_year(2100));
}

#[test]
fn days_in_month_february() {
    assert_eq!(days_in_month(2023, 2), 28);
    assert_eq!(days_in_month(2024, 2), 29);
    assert_eq!(days_in_month(2000, 2), 29);
    assert_eq!(days_in_month(1900, 2), 28);
}

#[test]
fn days_in_month_fixed_months() {
    for y in [1970u64, 1999, 2000, 2023, 2024, 400000] {
        assert_eq!(days_in_month(y, 1), 31);
        assert_eq!(days_in_month(y, 4), 30);
        assert_eq!(days_in_month(y, 6), 30);
        assert_eq!(days_in_month(y, 9), 30);
        assert_eq!(days_in_month(y, 11), 30);
        assert_eq!(days_in_month(y, 12), 31);
    }
}

#[test]
fn days_in_month_sentinel_out_of_range() {
    assert_eq!(days_in_month(2024, 0), 0);
    assert_eq!(days_in_month(2024, 13), 0);
}

#[test]
fn day_of_year_bounds() {
    assert_eq!(day_of_year(2023, 1, 1), 1);
    assert_eq!(day_of_year(2023, 12, 31), 365);
    assert_eq!(day_of_year(2024, 12, 31), 366);
    assert_eq!(day_of_year(2024, 3, 1), 61);
}

#[test]
fn epoch_origin_is_zero() {
    assert_eq!(calculate_epoch(1970, 1, 1), Ok(0));
}

#[test]
fn epoch_second_day() {
    assert_eq!(calculate_epoch(1970, 1, 2), Ok(86400));
}

#[test]
fn epoch_of_2024() {
    assert_eq!(calculate_epoch(2024, 1, 1), Ok(1704067200));
    assert_eq!(unix_converter("2024-01-01", "s"), Ok(1704067200));
    assert_eq!(unix_converter("2024-01-01", "ms"), Ok(1704067200000));
}

#[test]
fn epoch_before_era_fails() {
    assert_eq!(calculate_epoch(1969, 12, 31), Err(EpochError::EraError));
    assert_eq!(unix_converter("1969-01-01", "s"), Err(EpochError::EraError));
}

#[test]
fn parse_date_valid() {
    assert_eq!(
        parse_date("2024-02-29"),
        Ok(CalendarDate { year: 2024, month: 2, day: 29 })
    );
    assert_eq!(
        parse_date("1970-01-01"),
        Ok(CalendarDate { year: 1970, month: 1, day: 1 })
    );
}

#[test]
fn parse_date_wrong_field_count() {
    assert_eq!(parse_date("2023-02"), Err(EpochError::FormatError));
    assert_eq!(parse_date("2023"), Err(EpochError::FormatError));
    assert_eq!(parse_date(""), Err(EpochError::FormatError));
    assert_eq!(parse_date("2023-01-01-05"), Err(EpochError::FormatError));
}

#[test]
fn parse_date_bad_fields() {
    assert_eq!(
        parse_date("abcd-01-01"),
        Err(EpochError::FieldError(DateField::Year))
    );
    assert_eq!(
        parse_date("2023-x-01"),
        Err(EpochError::FieldError(DateField::Month))
    );
    assert_eq!(
        parse_date("2023-01-"),
        Err(EpochError::FieldError(DateField::Day))
    );
    assert_eq!(
        parse_date("--"),
        Err(EpochError::FieldError(DateField::Year))
    );
    // A sign is not a digit: fields are plain unsigned numerals.
    assert_eq!(
        parse_date("+2023-01-01"),
        Err(EpochError::FieldError(DateField::Year))
    );
    // A numeral beyond u64 exceeds the platform integer range.
    assert_eq!(
        parse_date("99999999999999999999-01-01"),
        Err(EpochError::FieldError(DateField::Year))
    );
}

#[test]
fn parse_date_month_out_of_range() {
    assert_eq!(
        parse_date("2023-13-01"),
        Err(EpochError::RangeError(RangeKind::Month, 12))
    );
    assert_eq!(
        parse_date("2023-00-01"),
        Err(EpochError::RangeError(RangeKind::Month, 12))
    );
}

#[test]
fn parse_date_day_out_of_range() {
    assert_eq!(
        parse_date("2023-02-30"),
        Err(EpochError::RangeError(RangeKind::Day, 28))
    );
    assert_eq!(
        parse_date("2024-02-30"),
        Err(EpochError::RangeError(RangeKind::Day, 29))
    );
    assert_eq!(
        parse_date("2023-04-31"),
        Err(EpochError::RangeError(RangeKind::Day, 30))
    );
    assert_eq!(
        parse_date("2023-01-00"),
        Err(EpochError::RangeError(RangeKind::Day, 31))
    );
}

#[test]
fn converter_error_categories() {
    assert_eq!(
        unix_converter("2023-13-01", "s"),
        Err(EpochError::RangeError(RangeKind::Month, 12))
    );
    assert_eq!(
        unix_converter("2023-02-30", "s"),
        Err(EpochError::RangeError(RangeKind::Day, 28))
    );
    assert_eq!(unix_converter("2023-02", "s"), Err(EpochError::FormatError));
    assert_eq!(
        unix_converter("abcd-01-01", "s"),
        Err(EpochError::FieldError(DateField::Year))
    );
    assert_eq!(unix_converter("1969-01-01", "s"), Err(EpochError::EraError));
    assert_eq!(unix_converter("2024-01-01", "x"), Err(EpochError::UnitError));
}

#[test]
fn era_error_precedes_unit_error() {
    // The epoch computation runs before the unit check, so a pre-1970 date
    // wins over a bad unit.
    assert_eq!(unix_converter("1969-01-01", "x"), Err(EpochError::EraError));
}

#[test]
fn parse_unit_values() {
    assert_eq!(parse_unit("s"), Ok(TimeUnit::Seconds));
    assert_eq!(parse_unit("ms"), Ok(TimeUnit::Milliseconds));
    assert_eq!(parse_unit(""), Err(EpochError::UnitError));
    assert_eq!(parse_unit("x"), Err(EpochError::UnitError));
    assert_eq!(parse_unit("mss"), Err(EpochError::UnitError));
    assert_eq!(parse_unit("S"), Err(EpochError::UnitError));
}

#[test]
fn epoch_is_monotonic_on_samples() {
    let dates = [
        "1970-01-01",
        "1970-01-02",
        "1970-02-01",
        "1971-01-01",
        "1999-12-31",
        "2000-01-01",
        "2000-02-29",
        "2000-03-01",
        "2023-12-31",
        "2024-01-01",
    ];
    let mut prev: Option<u64> = None;
    for d in dates {
        let t = unix_converter(d, "s").unwrap();
        if let Some(p) = prev {
            assert!(p < t, "{d} did not advance the timestamp");
        }
        prev = Some(t);
    }
}

#[test]
fn repeated_calls_agree() {
    let first = unix_converter("2024-06-15", "ms");
    let second = unix_converter("2024-06-15", "ms");
    assert_eq!(first, second);
    let third = calculate_epoch(2024, 6, 15);
    let fourth = calculate_epoch(2024, 6, 15);
    assert_eq!(third, fourth);
}

#[test]
fn milliseconds_scale_by_thousand() {
    for d in ["1970-01-01", "1970-01-02", "2000-03-01", "2024-12-31"] {
        let s = unix_converter(d, "s").unwrap();
        let ms = unix_converter(d, "ms").unwrap();
        assert_eq!(ms, s * 1000);
    }
}
