use excel_to_csv::config::{build_jobs, ConfigError};

#[test]
fn build_jobs_aligned_lists() {
    let jobs = build_jobs(
        "Accounts,Loans",
        "accounts.txt,loans.txt",
        "true|false",
        "1|2",
        "2,3|",
        '|',
    )
    .unwrap();
    assert_eq!(jobs.len(), 2);
    assert_eq!(jobs[0].sheet_name, "Accounts");
    assert_eq!(jobs[0].output_file_name, "accounts.txt");
    assert!(jobs[0].skip_header);
    assert_eq!(jobs[0].header_rows, 1);
    assert_eq!(jobs[0].fields_with_date, "2,3");
    assert_eq!(jobs[0].seperator, '|');
    assert_eq!(jobs[1].sheet_name, "Loans");
    assert_eq!(jobs[1].output_file_name, "loans.txt");
    assert!(!jobs[1].skip_header);
    assert_eq!(jobs[1].header_rows, 2);
    assert_eq!(jobs[1].fields_with_date, "");
}

#[test]
fn build_jobs_single_sheet() {
    let jobs = build_jobs("Accounts", "out.txt", "false", "0", "", ',').unwrap();
    assert_eq!(jobs.len(), 1);
    assert_eq!(jobs[0].header_rows, 0);
}

#[test]
fn missing_output_name() {
    let r = build_jobs("a,b", "x", "true|true", "1|1", "|", '|');
    assert_eq!(r.unwrap_err(), ConfigError::MissingOutputName { index: 1 });
}

#[test]
fn missing_skip_header() {
    let r = build_jobs("a,b", "x,y", "true", "1|1", "|", '|');
    assert_eq!(r.unwrap_err(), ConfigError::MissingSkipHeader { index: 1 });
}

#[test]
fn missing_header_rows() {
    let r = build_jobs("a,b", "x,y", "true|false", "1", "|", '|');
    assert_eq!(r.unwrap_err(), ConfigError::MissingHeaderRows { index: 1 });
}

#[test]
fn missing_date_fields() {
    let r = build_jobs("a,b", "x,y", "true|false", "1|1", "2", '|');
    assert_eq!(r.unwrap_err(), ConfigError::MissingDateFields { index: 1 });
}

#[test]
fn bad_skip_header_flag() {
    let r = build_jobs("a", "x", "TRUE", "1", "2", '|');
    assert_eq!(r.unwrap_err(), ConfigError::BadSkipHeader { index: 0 });
}

#[test]
fn bad_header_row_count() {
    let r = build_jobs("a", "x", "true", "one", "2", '|');
    assert_eq!(r.unwrap_err(), ConfigError::BadHeaderRows { index: 0 });
}

#[test]
fn trailing_extra_entries_are_ignored() {
    let jobs = build_jobs("a", "x,y,z", "true|false", "1|9", "2|3", '|').unwrap();
    assert_eq!(jobs.len(), 1);
    assert_eq!(jobs[0].output_file_name, "x");
}
