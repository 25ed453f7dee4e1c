//! The per-sheet conversion drive: header-row classification, row
//! rendering, and the run counters that feed the health report.

use vstd::prelude::*;
use crate::dates::{Date, date_wf};
use crate::render::{render_row, spec_render_row, lemma_header_render_ignores_dates};
use crate::text::{spec_split, split_on};

verus! {

/// The run-wide accumulators, read once by the health report at batch end.
/// The amount and failure fields are carried through and stay zero here.
pub struct RunCounters {
    pub tot_accounts: i64,
    pub acc_read_succ: i64,
    pub acc_read_fail: i64,
    pub tot_amt_ip: i64,
    pub tot_amt_op: i64,
    pub tot_no_cf: i64,
}

impl RunCounters {
    /// Fresh counters, all zero.
    pub fn new() -> (r: RunCounters)
        ensures
            r.tot_accounts == 0,
            r.acc_read_succ == 0,
            r.acc_read_fail == 0,
            r.tot_amt_ip == 0,
            r.tot_amt_op == 0,
            r.tot_no_cf == 0,
    {
        RunCounters {
            tot_accounts: 0,
            acc_read_succ: 0,
            acc_read_fail: 0,
            tot_amt_ip: 0,
            tot_amt_op: 0,
            tot_no_cf: 0,
        }
    }
}

/// How many leading rows are skipped outright: the header-row count when
/// the skip flag is set (capped by the sheet), else none.
pub open spec fn spec_skip(skip_header: bool, header_rows: nat, nrows: nat) -> nat {
    if skip_header {
        if header_rows <= nrows {
            header_rows
        } else {
            nrows
        }
    } else {
        0
    }
}

/// The lines a sheet converts to: one per row past the skipped region;
/// rows still inside the header region render as header rows.
pub open spec fn spec_sheet_lines(
    rows: Seq<Seq<Seq<char>>>,
    sep: char,
    tokens: Seq<Seq<char>>,
    skip_header: bool,
    header_rows: nat,
    as_of: Date,
) -> Seq<Seq<char>> {
    let skip = spec_skip(skip_header, header_rows, rows.len());
    Seq::new(
        (rows.len() - skip) as nat,
        |j: int|
            spec_render_row(
                rows[skip + j],
                sep,
                tokens,
                !skip_header && skip + j < header_rows,
                as_of,
            ),
    )
}

/// Converts one worksheet's rows into output lines. Rows are counted into
/// the two accumulators exactly as lines are produced: the returned line
/// count, the rows-encountered delta and the rows-succeeded delta agree.
pub fn excel_to_csv(
    rows: &Vec<Vec<String>>,
    seperator: char,
    skip_header: bool,
    header_rows: usize,
    fields_with_date_sheet: &str,
    as_on_date: &Date,
    tot_accounts: &mut i64,
    acc_read_succ: &mut i64,
) -> (lines: Vec<String>)
    requires
        date_wf(*as_on_date),
        forall|j: int| 0 <= j < rows@.len() ==> #[trigger] rows@[j]@.len() < usize::MAX,
        rows@.len() <= i64::MAX,
        *old(tot_accounts) + rows@.len() <= i64::MAX,
        *old(acc_read_succ) + rows@.len() <= i64::MAX,
    ensures
        lines.deep_view() == spec_sheet_lines(
            rows.deep_view(),
            seperator,
            spec_split(fields_with_date_sheet@, ','),
            skip_header,
            header_rows as nat,
            *as_on_date,
        ),
        lines@.len() == rows@.len() - spec_skip(skip_header, header_rows as nat, rows@.len()),
        *final(tot_accounts) == *old(tot_accounts) + lines@.len(),
        *final(acc_read_succ) == *old(acc_read_succ) + lines@.len(),
{
    let tokens = split_on(fields_with_date_sheet, ',');
    let n = rows.len();
    let skip: usize = if skip_header {
        if header_rows <= n {
            header_rows
        } else {
            n
        }
    } else {
        0
    };
    let ghost out = spec_sheet_lines(
        rows.deep_view(),
        seperator,
        spec_split(fields_with_date_sheet@, ','),
        skip_header,
        header_rows as nat,
        *as_on_date,
    );
    let mut lines: Vec<String> = Vec::new();
    let mut i: usize = skip;
    while i < n
        invariant
            skip <= i <= n,
            n == rows@.len(),
            skip == spec_skip(skip_header, header_rows as nat, rows@.len()),
            date_wf(*as_on_date),
            forall|j: int| 0 <= j < rows@.len() ==> #[trigger] rows@[j]@.len() < usize::MAX,
            tokens.deep_view() == spec_split(fields_with_date_sheet@, ','),
            out == spec_sheet_lines(
                rows.deep_view(),
                seperator,
                spec_split(fields_with_date_sheet@, ','),
                skip_header,
                header_rows as nat,
                *as_on_date,
            ),
            lines@.len() == i - skip,
            lines.deep_view() == out.take(i - skip),
        decreases n - i,
    {
        let as_header = !skip_header && i < header_rows;
        let line = render_row(&rows[i], seperator, &tokens, as_header, as_on_date);
        proof {
            assert(rows[i as int].deep_view() == rows.deep_view()[i as int]);
            assert(line@ == out[i - skip]);
        }
        lines.push(line);
        proof {
            assert(lines.deep_view() =~= out.take(i + 1 - skip));
        }
        i = i + 1;
    }
    proof {
        assert(lines.deep_view() =~= out);
    }
    let cnt = lines.len();
    *tot_accounts = *tot_accounts + (cnt as i64);
    *acc_read_succ = *acc_read_succ + (cnt as i64);
    lines
}

/// Conversion is a pure function of its inputs: any two conversions of
/// identical inputs yield identical lines, so a rerun of the batch over
/// the same workbook and configuration rewrites byte-identical files.
pub proof fn lemma_conversion_deterministic(
    lines1: Seq<Seq<char>>,
    lines2: Seq<Seq<char>>,
    rows: Seq<Seq<Seq<char>>>,
    sep: char,
    tokens: Seq<Seq<char>>,
    skip_header: bool,
    header_rows: nat,
    as_of: Date,
)
    requires
        lines1 == spec_sheet_lines(rows, sep, tokens, skip_header, header_rows, as_of),
        lines2 == spec_sheet_lines(rows, sep, tokens, skip_header, header_rows, as_of),
    ensures
        lines1 == lines2,
{
}

/// With the skip flag off, a line inside the header region is rendered
/// verbatim-escaped: the configured date columns and the default date
/// have no effect on it.
pub proof fn lemma_header_rows_verbatim(
    rows: Seq<Seq<Seq<char>>>,
    sep: char,
    t1: Seq<Seq<char>>,
    t2: Seq<Seq<char>>,
    header_rows: nat,
    a1: Date,
    a2: Date,
    j: int,
)
    requires
        0 <= j < header_rows,
        j < rows.len(),
    ensures
        spec_sheet_lines(rows, sep, t1, false, header_rows, a1)[j] == spec_sheet_lines(
            rows,
            sep,
            t2,
            false,
            header_rows,
            a2,
        )[j],
        spec_sheet_lines(rows, sep, t1, false, header_rows, a1)[j] == spec_render_row(
            rows[j],
            sep,
            t1,
            true,
            a1,
        ),
{
    lemma_header_render_ignores_dates(rows[j], sep, t1, t2, a1, a2);
}

/// A line past the header region is rendered as a data row: its flagged
/// date columns are normalized.
pub proof fn lemma_data_rows_rendered(
    rows: Seq<Seq<Seq<char>>>,
    sep: char,
    tokens: Seq<Seq<char>>,
    skip_header: bool,
    header_rows: nat,
    as_of: Date,
    j: int,
)
    requires
        0 <= j,
        spec_skip(skip_header, header_rows, rows.len()) + j < rows.len(),
        skip_header || j >= header_rows,
    ensures
        spec_sheet_lines(rows, sep, tokens, skip_header, header_rows, as_of)[j]
            == spec_render_row(
            rows[spec_skip(skip_header, header_rows, rows.len()) + j],
            sep,
            tokens,
            false,
            as_of,
        ),
{
}

} // verus!
