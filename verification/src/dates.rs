//! Calendar dates: spreadsheet date serials, `DD-MM-YYYY` rendering, and
//! the silent fallback to a run-wide default date.
//!
//! A date serial counts days from 1899-12-30, the spreadsheet epoch, so
//! serial 2 is 1900-01-01. Serials before 1900-01-01 or past 9999-12-31
//! are treated as unparsable, like any non-numeric text.

use vstd::prelude::*;
use crate::is_digit_char;
use crate::num::{
    dec_of,
    dec_val,
    lemma_dec_of_digits,
    parse_usize,
    parses_as_usize,
    push_dec,
    usize_digits,
};
use crate::text::chars_to_string;

verus! {

/// A calendar date as plain values.
#[derive(Clone, Copy, Debug, PartialEq, Eq, Structural)]
pub struct Date {
    pub year: u32,
    pub month: u32,
    pub day: u32,
}

pub open spec fn is_leap_year(y: nat) -> bool {
    (y % 4 == 0 && y % 100 != 0) || y % 400 == 0
}

pub open spec fn days_in_month(y: nat, m: nat) -> nat {
    if m == 2 {
        if is_leap_year(y) {
            29
        } else {
            28
        }
    } else if m == 4 || m == 6 || m == 9 || m == 11 {
        30
    } else {
        31
    }
}

pub open spec fn days_in_year(y: nat) -> nat {
    if is_leap_year(y) {
        366
    } else {
        365
    }
}

/// A well-formed date: a real day of a real month, in a four-digit year.
pub open spec fn date_wf(d: Date) -> bool {
    &&& 1 <= d.month <= 12
    &&& 1 <= d.day <= days_in_month(d.year as nat, d.month as nat)
    &&& d.year <= 9999
}

/// Days from the start of month `m` to the end of the year.
pub open spec fn days_from_month(y: nat, m: nat) -> nat
    decreases 13 - m,
{
    if m > 12 {
        0
    } else {
        days_in_month(y, m) + days_from_month(y, m + 1)
    }
}

/// Walks whole years forward from `y`: the year that day offset `d` lands
/// in, and the day offset within that year.
pub open spec fn walk_year(d: nat, y: nat) -> (nat, nat)
    decreases d,
{
    if d < days_in_year(y) {
        (y, d)
    } else {
        walk_year((d - days_in_year(y)) as nat, y + 1)
    }
}

/// Walks whole months forward from `m`: the month that day offset `d`
/// lands in, and the day offset within that month.
pub open spec fn walk_month(y: nat, m: nat, d: nat) -> (nat, nat)
    decreases d,
{
    if d < days_in_month(y, m) {
        (m, d)
    } else {
        walk_month(y, m + 1, (d - days_in_month(y, m)) as nat)
    }
}

/// The serial denotes a day between 1900-01-01 and 9999-12-31.
pub open spec fn serial_in_range(s: nat) -> bool {
    s >= 2 && walk_year((s - 2) as nat, 1900).0 <= 9999
}

/// The calendar date that an in-range serial denotes.
pub open spec fn date_of_serial(s: nat) -> Date {
    let yr = walk_year((s - 2) as nat, 1900);
    let md = walk_month(yr.0, 1, yr.1);
    Date { year: yr.0 as u32, month: md.0 as u32, day: (md.1 + 1) as u32 }
}

/// The year walk never goes backward.
proof fn lemma_walk_year_ge(d: nat, y: nat)
    ensures
        walk_year(d, y).0 >= y,
    decreases d,
{
    if d >= days_in_year(y) {
        lemma_walk_year_ge((d - days_in_year(y)) as nat, y + 1);
    }
}

/// The months of a year sum to its length.
proof fn lemma_days_from_month_all(y: nat)
    ensures
        days_from_month(y, 1) == days_in_year(y),
{
    reveal_with_fuel(days_from_month, 14);
}

/// Days in a year, executable.
fn days_in_year_exec(y: u32) -> (r: usize)
    ensures
        r == days_in_year(y as nat),
{
    if (y % 4 == 0 && y % 100 != 0) || y % 400 == 0 {
        366
    } else {
        365
    }
}

/// Days in a month, executable.
fn days_in_month_exec(y: u32, m: u32) -> (r: usize)
    ensures
        r == days_in_month(y as nat, m as nat),
{
    if m == 2 {
        if (y % 4 == 0 && y % 100 != 0) || y % 400 == 0 {
            29
        } else {
            28
        }
    } else if m == 4 || m == 6 || m == 9 || m == 11 {
        30
    } else {
        31
    }
}

/// The calendar date of a serial, exactly when the serial is in range.
pub fn serial_to_date(s: usize) -> (r: Option<Date>)
    ensures
        r is Some <==> serial_in_range(s as nat),
        r matches Some(d) ==> d == date_of_serial(s as nat) && date_wf(d) && d.year >= 1900,
{
    if s < 2 {
        return None;
    }
    let ghost d0 = (s - 2) as nat;
    let mut rem: usize = s - 2;
    let mut y: u32 = 1900;
    let mut dy = days_in_year_exec(y);
    while rem >= dy && y < 9999
        invariant
            1900 <= y <= 9999,
            dy == days_in_year(y as nat),
            walk_year(d0, 1900) == walk_year(rem as nat, y as nat),
        decreases rem,
    {
        rem = rem - dy;
        y = y + 1;
        dy = days_in_year_exec(y);
    }
    if rem >= dy {
        proof {
            assert(y == 9999);
            assert(walk_year(rem as nat, 9999) == walk_year((rem - dy) as nat, 10000));
            lemma_walk_year_ge((rem - dy) as nat, 10000);
        }
        return None;
    }
    proof {
        assert(walk_year(rem as nat, y as nat) == (y as nat, rem as nat));
        lemma_days_from_month_all(y as nat);
    }
    let ghost rest = rem as nat;
    let mut m: u32 = 1;
    let mut dm = days_in_month_exec(y, m);
    while rem >= dm
        invariant
            1 <= m <= 12,
            dm == days_in_month(y as nat, m as nat),
            walk_month(y as nat, 1, rest) == walk_month(y as nat, m as nat, rem as nat),
            rem < days_from_month(y as nat, m as nat),
        decreases rem,
    {
        proof {
            assert(days_from_month(y as nat, m as nat) == days_in_month(y as nat, m as nat)
                + days_from_month(y as nat, m as nat + 1));
            if m == 12 {
                assert(days_from_month(y as nat, 13) == 0);
            }
        }
        rem = rem - dm;
        m = m + 1;
        dm = days_in_month_exec(y, m);
    }
    Some(Date { year: y, month: m, day: (rem + 1) as u32 })
}

/// Decides well-formedness of a date, for callers that build one from
/// unchecked input.
pub fn date_is_wf(d: &Date) -> (r: bool)
    ensures
        r == date_wf(*d),
{
    if d.month < 1 || d.month > 12 {
        return false;
    }
    let dm = days_in_month_exec(d.year, d.month);
    1 <= d.day && d.day as usize <= dm && d.year <= 9999
}

/// What a `DD-MM-YYYY` text denotes: three dash-separated numbers that
/// form a well-formed date.
pub open spec fn spec_parse_ddmmyyyy(s: Seq<char>) -> Option<Date> {
    let parts = crate::text::spec_split(s, '-');
    if parts.len() == 3 && parses_as_usize(parts[0]) && parses_as_usize(parts[1])
        && parses_as_usize(parts[2]) && dec_val(usize_digits(parts[0])) <= u32::MAX && dec_val(
        usize_digits(parts[1]),
    ) <= u32::MAX && dec_val(usize_digits(parts[2])) <= u32::MAX {
        let date = Date {
            year: dec_val(usize_digits(parts[2])) as u32,
            month: dec_val(usize_digits(parts[1])) as u32,
            day: dec_val(usize_digits(parts[0])) as u32,
        };
        if date_wf(date) {
            Some(date)
        } else {
            None
        }
    } else {
        None
    }
}

/// Reads a `DD-MM-YYYY` text into a well-formed date, exactly when it
/// denotes one.
pub fn parse_ddmmyyyy(s: &str) -> (r: Option<Date>)
    ensures
        r == spec_parse_ddmmyyyy(s@),
        r matches Some(d) ==> date_wf(d),
{
    let parts = crate::text::split_on(s, '-');
    proof {
        assert(parts.deep_view().len() == parts@.len());
    }
    if parts.len() != 3 {
        return None;
    }
    proof {
        assert(parts[0]@ == parts.deep_view()[0]);
        assert(parts[1]@ == parts.deep_view()[1]);
        assert(parts[2]@ == parts.deep_view()[2]);
    }
    let day = match parse_usize(parts[0].as_str()) {
        Some(v) => v,
        None => {
            return None;
        },
    };
    let month = match parse_usize(parts[1].as_str()) {
        Some(v) => v,
        None => {
            return None;
        },
    };
    let year = match parse_usize(parts[2].as_str()) {
        Some(v) => v,
        None => {
            return None;
        },
    };
    if day > u32::MAX as usize || month > u32::MAX as usize || year > u32::MAX as usize {
        return None;
    }
    let date = Date { year: year as u32, month: month as u32, day: day as u32 };
    if date_is_wf(&date) {
        Some(date)
    } else {
        None
    }
}

/// A two-character zero-padded decimal rendering (for values up to 99).
pub open spec fn two_digits(n: nat) -> Seq<char> {
    if n < 10 {
        seq!['0'] + dec_of(n)
    } else {
        dec_of(n)
    }
}

/// A four-character zero-padded decimal rendering (for values up to 9999).
pub open spec fn four_digits(n: nat) -> Seq<char> {
    if n < 10 {
        seq!['0', '0', '0'] + dec_of(n)
    } else if n < 100 {
        seq!['0', '0'] + dec_of(n)
    } else if n < 1000 {
        seq!['0'] + dec_of(n)
    } else {
        dec_of(n)
    }
}

/// The `DD-MM-YYYY` rendering of a date.
pub open spec fn ddmmyyyy_of(d: Date) -> Seq<char> {
    two_digits(d.day as nat) + seq!['-'] + two_digits(d.month as nat) + seq!['-'] + four_digits(
        d.year as nat,
    )
}

/// Every character of a `DD-MM-YYYY` rendering is a digit or a dash.
pub proof fn lemma_ddmmyyyy_chars(d: Date)
    ensures
        forall|i: int|
            0 <= i < ddmmyyyy_of(d).len() ==> is_digit_char(#[trigger] ddmmyyyy_of(d)[i])
                || ddmmyyyy_of(d)[i] == '-',
{
    lemma_dec_of_digits(d.day as nat);
    lemma_dec_of_digits(d.month as nat);
    lemma_dec_of_digits(d.year as nat);
}

/// Pushes the zero-padded decimal rendering of `n` with width `w` (2 or 4).
fn push_padded(n: usize, w: usize, out: &mut Vec<char>)
    requires
        w == 2 || w == 4,
    ensures
        w == 2 ==> final(out)@ == old(out)@ + two_digits(n as nat),
        w == 4 ==> final(out)@ == old(out)@ + four_digits(n as nat),
{
    if w == 2 {
        if n < 10 {
            out.push('0');
        }
    } else {
        if n < 10 {
            out.push('0');
            out.push('0');
            out.push('0');
        } else if n < 100 {
            out.push('0');
            out.push('0');
        } else if n < 1000 {
            out.push('0');
        }
    }
    push_dec(n, out);
    proof {
        if w == 2 {
            assert(out@ =~= old(out)@ + two_digits(n as nat));
        } else {
            assert(out@ =~= old(out)@ + four_digits(n as nat));
        }
    }
}

/// Renders a well-formed date as `DD-MM-YYYY`.
pub fn format_ddmmyyyy(d: &Date) -> (r: String)
    requires
        date_wf(*d),
    ensures
        r@ == ddmmyyyy_of(*d),
{
    let mut out: Vec<char> = Vec::new();
    push_padded(d.day as usize, 2, &mut out);
    out.push('-');
    push_padded(d.month as usize, 2, &mut out);
    out.push('-');
    push_padded(d.year as usize, 4, &mut out);
    proof {
        assert(out@ =~= ddmmyyyy_of(*d));
    }
    chars_to_string(&out)
}

/// What a date cell renders to: the date its serial denotes, or the
/// default date when the text is not an in-range serial.
pub open spec fn spec_normalize_date(cell: Seq<char>, as_of: Date) -> Seq<char> {
    if parses_as_usize(cell) && serial_in_range(dec_val(usize_digits(cell))) {
        ddmmyyyy_of(date_of_serial(dec_val(usize_digits(cell))))
    } else {
        ddmmyyyy_of(as_of)
    }
}

/// Renders a date cell: the serial's calendar date when the text parses
/// and is in range, else the default date — never an error.
pub fn normalize_date_cell(cell: &str, as_of: &Date) -> (r: String)
    requires
        date_wf(*as_of),
    ensures
        r@ == spec_normalize_date(cell@, *as_of),
        forall|i: int| 0 <= i < r@.len() ==> is_digit_char(#[trigger] r@[i]) || r@[i] == '-',
{
    let parsed = parse_usize(cell);
    let r = match parsed {
        Some(n) => {
            match serial_to_date(n) {
                Some(d) => {
                    proof {
                        lemma_ddmmyyyy_chars(d);
                    }
                    format_ddmmyyyy(&d)
                },
                None => {
                    proof {
                        lemma_ddmmyyyy_chars(*as_of);
                    }
                    format_ddmmyyyy(as_of)
                },
            }
        },
        None => {
            proof {
                lemma_ddmmyyyy_chars(*as_of);
            }
            format_ddmmyyyy(as_of)
        },
    };
    r
}

} // verus!
