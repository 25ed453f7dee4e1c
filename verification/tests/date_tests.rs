use excel_to_csv::dates::{
    format_ddmmyyyy, normalize_date_cell, parse_ddmmyyyy, serial_to_date, Date,
};

#[test]
fn parse_ddmmyyyy_valid_dates() {
    assert_eq!(parse_ddmmyyyy("01-01-2020"), Some(Date { year: 2020, month: 1, day: 1 }));
    assert_eq!(parse_ddmmyyyy("29-02-2020"), Some(Date { year: 2020, month: 2, day: 29 }));
    assert_eq!(parse_ddmmyyyy("31-12-9999"), Some(Date { year: 9999, month: 12, day: 31 }));
}

#[test]
fn parse_ddmmyyyy_rejects_bad_dates() {
    assert_eq!(parse_ddmmyyyy("29-02-2021"), None);
    assert_eq!(parse_ddmmyyyy("31-04-2021"), None);
    assert_eq!(parse_ddmmyyyy("00-01-2021"), None);
    assert_eq!(parse_ddmmyyyy("01-13-2021"), None);
    assert_eq!(parse_ddmmyyyy("01-01"), None);
    assert_eq!(parse_ddmmyyyy("2021-01-01-"), None);
    assert_eq!(parse_ddmmyyyy("aa-bb-cccc"), None);
    assert_eq!(parse_ddmmyyyy(""), None);
}

#[test]
fn serial_of_known_day() {
    // 44200 days past the 1899-12-30 epoch is 2021-01-04.
    assert_eq!(serial_to_date(44200), Some(Date { year: 2021, month: 1, day: 4 }));
}

#[test]
fn serial_of_first_day() {
    assert_eq!(serial_to_date(2), Some(Date { year: 1900, month: 1, day: 1 }));
}

#[test]
fn serial_of_leap_day() {
    // 2020 is a leap year; 43890 is 2020-02-29.
    assert_eq!(serial_to_date(43890), Some(Date { year: 2020, month: 2, day: 29 }));
}

#[test]
fn serial_of_last_supported_day() {
    assert_eq!(serial_to_date(2958465), Some(Date { year: 9999, month: 12, day: 31 }));
}

#[test]
fn serial_out_of_range() {
    assert_eq!(serial_to_date(0), None);
    assert_eq!(serial_to_date(1), None);
    assert_eq!(serial_to_date(2958466), None);
}

#[test]
fn format_pads_fields() {
    assert_eq!(format_ddmmyyyy(&Date { year: 2020, month: 1, day: 1 }), "01-01-2020");
    assert_eq!(format_ddmmyyyy(&Date { year: 987, month: 11, day: 23 }), "23-11-0987");
}

#[test]
fn normalize_valid_serial() {
    let as_of = Date { year: 2020, month: 1, day: 1 };
    assert_eq!(normalize_date_cell("44200", &as_of), "04-01-2021");
}

#[test]
fn normalize_non_numeric_falls_back_to_as_of() {
    let as_of = Date { year: 2020, month: 1, day: 1 };
    assert_eq!(normalize_date_cell("N/A", &as_of), "01-01-2020");
    assert_eq!(normalize_date_cell("", &as_of), "01-01-2020");
    assert_eq!(normalize_date_cell("12.5", &as_of), "01-01-2020");
}

#[test]
fn normalize_out_of_range_serial_falls_back() {
    let as_of = Date { year: 2020, month: 1, day: 1 };
    assert_eq!(normalize_date_cell("1", &as_of), "01-01-2020");
    assert_eq!(normalize_date_cell("99999999", &as_of), "01-01-2020");
}
