use excel_to_csv::convert::{excel_to_csv, RunCounters};
use excel_to_csv::dates::Date;
use excel_to_csv::render::render_row;
use excel_to_csv::text::split_on;

fn accounts_rows() -> Vec<Vec<String>> {
    vec![
        vec!["Name".to_string(), "Date".to_string(), "Amount".to_string()],
        vec!["alice".to_string(), "44200".to_string(), "10".to_string()],
        vec!["bob".to_string(), "44200".to_string(), "20".to_string()],
    ]
}

fn as_of() -> Date {
    Date { year: 2020, month: 1, day: 1 }
}

#[test]
fn sheet_with_header_skipped() {
    // One header row plus two data rows, header skipped: two lines,
    // column 2 normalized from serial 44200.
    let rows = accounts_rows();
    let mut tot: i64 = 0;
    let mut succ: i64 = 0;
    let lines = excel_to_csv(&rows, '|', true, 1, "2", &as_of(), &mut tot, &mut succ);
    assert_eq!(lines.len(), 2);
    assert_eq!(lines[0], "alice|04-01-2021|10\n");
    assert_eq!(lines[1], "bob|04-01-2021|20\n");
    assert_eq!(tot, 2);
    assert_eq!(succ, 2);
}

#[test]
fn sheet_with_header_kept_renders_header_verbatim() {
    // Same sheet, header not skipped: three lines, and the header line
    // keeps "Date" as text even though column 2 is a date column.
    let rows = accounts_rows();
    let mut tot: i64 = 0;
    let mut succ: i64 = 0;
    let lines = excel_to_csv(&rows, '|', false, 1, "2", &as_of(), &mut tot, &mut succ);
    assert_eq!(lines.len(), 3);
    assert_eq!(lines[0], "Name|Date|Amount\n");
    assert_eq!(lines[1], "alice|04-01-2021|10\n");
    assert_eq!(lines[2], "bob|04-01-2021|20\n");
    assert_eq!(tot, 3);
    assert_eq!(succ, 3);
}

#[test]
fn date_cell_that_does_not_parse_uses_as_of_date() {
    let rows = vec![vec!["x".to_string(), "N/A".to_string()]];
    let mut tot: i64 = 0;
    let mut succ: i64 = 0;
    let lines = excel_to_csv(&rows, '|', true, 0, "2", &as_of(), &mut tot, &mut succ);
    assert_eq!(lines, vec!["x|01-01-2020\n".to_string()]);
}

#[test]
fn separator_count_is_columns_minus_one() {
    let rows = vec![
        vec!["a|b".to_string(), "44200".to_string(), "c\nd".to_string(), "e".to_string()],
    ];
    let mut tot: i64 = 0;
    let mut succ: i64 = 0;
    let lines = excel_to_csv(&rows, '|', false, 0, "2", &as_of(), &mut tot, &mut succ);
    assert_eq!(lines.len(), 1);
    let seps = lines[0].chars().filter(|c| *c == '|').count();
    assert_eq!(seps, 3);
    assert_eq!(lines[0], "a b|04-01-2021|c d|e\n");
}

#[test]
fn counters_accumulate_across_sheets() {
    let rows = accounts_rows();
    let mut counters = RunCounters::new();
    let first = excel_to_csv(
        &rows,
        '|',
        true,
        1,
        "2",
        &as_of(),
        &mut counters.tot_accounts,
        &mut counters.acc_read_succ,
    );
    let second = excel_to_csv(
        &rows,
        '|',
        false,
        1,
        "",
        &as_of(),
        &mut counters.tot_accounts,
        &mut counters.acc_read_succ,
    );
    assert_eq!(counters.tot_accounts, (first.len() + second.len()) as i64);
    assert_eq!(counters.acc_read_succ, (first.len() + second.len()) as i64);
    assert_eq!(counters.acc_read_fail, 0);
    assert_eq!(counters.tot_no_cf, 0);
}

#[test]
fn conversion_is_repeatable() {
    let rows = accounts_rows();
    let mut t1: i64 = 0;
    let mut s1: i64 = 0;
    let once = excel_to_csv(&rows, '|', false, 1, "2", &as_of(), &mut t1, &mut s1);
    let mut t2: i64 = 0;
    let mut s2: i64 = 0;
    let again = excel_to_csv(&rows, '|', false, 1, "2", &as_of(), &mut t2, &mut s2);
    assert_eq!(once, again);
}

#[test]
fn skip_larger_than_sheet_yields_nothing() {
    let rows = accounts_rows();
    let mut tot: i64 = 0;
    let mut succ: i64 = 0;
    let lines = excel_to_csv(&rows, '|', true, 9, "2", &as_of(), &mut tot, &mut succ);
    assert_eq!(lines.len(), 0);
    assert_eq!(tot, 0);
}

#[test]
fn empty_row_renders_as_bare_newline() {
    let rows: Vec<Vec<String>> = vec![vec![]];
    let mut tot: i64 = 0;
    let mut succ: i64 = 0;
    let lines = excel_to_csv(&rows, '|', false, 0, "", &as_of(), &mut tot, &mut succ);
    assert_eq!(lines, vec!["\n".to_string()]);
}

#[test]
fn render_row_header_ignores_date_columns() {
    let cells = vec!["Name".to_string(), "Date".to_string()];
    let tokens = split_on("1,2", ',');
    let line = render_row(&cells, ';', &tokens, true, &as_of());
    assert_eq!(line, "Name;Date\n");
}

#[test]
fn render_row_matches_column_numbers_as_text() {
    // Token "02" does not match column 2: positions match by their
    // exact decimal text.
    let cells = vec!["a".to_string(), "44200".to_string()];
    let tokens = split_on("02", ',');
    let line = render_row(&cells, '|', &tokens, false, &as_of());
    assert_eq!(line, "a|44200\n");
}
