use excel_to_csv::num::{parse_bool, parse_usize, to_dec_string};
use excel_to_csv::text::{escape_cell, split_on, str_eq};

#[test]
fn split_basic() {
    let parts = split_on("Accounts,Loans,Deposits", ',');
    assert_eq!(parts, vec!["Accounts".to_string(), "Loans".to_string(), "Deposits".to_string()]);
}

#[test]
fn split_empty_string_is_one_empty_part() {
    let parts = split_on("", ',');
    assert_eq!(parts, vec!["".to_string()]);
}

#[test]
fn split_keeps_empty_parts() {
    let parts = split_on("a||b|", '|');
    assert_eq!(
        parts,
        vec!["a".to_string(), "".to_string(), "b".to_string(), "".to_string()]
    );
}

#[test]
fn escape_replaces_separator_and_newline() {
    assert_eq!(escape_cell("a|b\nc", '|'), "a b c");
}

#[test]
fn escape_leaves_other_text_alone() {
    assert_eq!(escape_cell("plain text", '|'), "plain text");
}

#[test]
fn str_eq_basic() {
    assert!(str_eq("abc", "abc"));
    assert!(!str_eq("abc", "abd"));
    assert!(!str_eq("abc", "ab"));
}

#[test]
fn dec_rendering() {
    assert_eq!(to_dec_string(0), "0");
    assert_eq!(to_dec_string(7), "7");
    assert_eq!(to_dec_string(44200), "44200");
}

#[test]
fn parse_usize_accepts_digits_and_plus() {
    assert_eq!(parse_usize("0"), Some(0));
    assert_eq!(parse_usize("44200"), Some(44200));
    assert_eq!(parse_usize("+5"), Some(5));
    assert_eq!(parse_usize("007"), Some(7));
}

#[test]
fn parse_usize_rejects_bad_text() {
    assert_eq!(parse_usize(""), None);
    assert_eq!(parse_usize("+"), None);
    assert_eq!(parse_usize("12a"), None);
    assert_eq!(parse_usize("-3"), None);
    assert_eq!(parse_usize("1 2"), None);
    assert_eq!(parse_usize("999999999999999999999999999999"), None);
}

#[test]
fn parse_bool_exact_words_only() {
    assert_eq!(parse_bool("true"), Some(true));
    assert_eq!(parse_bool("false"), Some(false));
    assert_eq!(parse_bool("TRUE"), None);
    assert_eq!(parse_bool(""), None);
    assert_eq!(parse_bool("yes"), None);
}
