//! Rendering one worksheet row as one delimited text line.

use vstd::prelude::*;
use crate::dates::{
    Date,
    date_wf,
    lemma_ddmmyyyy_chars,
    normalize_date_cell,
    spec_normalize_date,
};
use crate::is_digit_char;
use crate::num::{dec_of, to_dec_string};
use crate::text::{
    chars_of,
    chars_to_string,
    contains_token,
    count_char,
    escape_cell,
    escaped,
    lemma_count_char_absent,
    lemma_count_char_add,
    lemma_joined_count,
    spec_joined,
};

verus! {

/// Column `i` (0-based) is flagged as a date column: the decimal text of
/// its 1-based column number is among the configured tokens.
pub open spec fn is_date_col(tokens: Seq<Seq<char>>, i: int) -> bool {
    tokens.contains(dec_of((i + 1) as nat))
}

/// What one cell renders to: a date column of a data row is normalized,
/// every other cell is escaped verbatim.
pub open spec fn spec_render_cell(
    cell: Seq<char>,
    sep: char,
    tokens: Seq<Seq<char>>,
    i: int,
    as_header: bool,
    as_of: Date,
) -> Seq<char> {
    if !as_header && is_date_col(tokens, i) {
        spec_normalize_date(cell, as_of)
    } else {
        escaped(cell, sep)
    }
}

/// The rendered cells of one row, in column order.
pub open spec fn spec_row_parts(
    cells: Seq<Seq<char>>,
    sep: char,
    tokens: Seq<Seq<char>>,
    as_header: bool,
    as_of: Date,
) -> Seq<Seq<char>> {
    Seq::new(cells.len(), |i: int| spec_render_cell(cells[i], sep, tokens, i, as_header, as_of))
}

/// One output line: the rendered cells joined by the separator, then a newline.
pub open spec fn spec_render_row(
    cells: Seq<Seq<char>>,
    sep: char,
    tokens: Seq<Seq<char>>,
    as_header: bool,
    as_of: Date,
) -> Seq<char> {
    spec_joined(spec_row_parts(cells, sep, tokens, as_header, as_of), sep).push('\n')
}

/// The separator cannot reappear from rendered content: it is not the
/// space that escaping writes, not the line-ending newline, and not a
/// digit or dash of a date rendering.
pub open spec fn sep_distinct(sep: char) -> bool {
    sep != ' ' && sep != '\n' && sep != '-' && !is_digit_char(sep)
}

/// A header-region row renders the same regardless of the configured
/// date columns and default date: cells are copied verbatim-escaped.
pub proof fn lemma_header_render_ignores_dates(
    cells: Seq<Seq<char>>,
    sep: char,
    t1: Seq<Seq<char>>,
    t2: Seq<Seq<char>>,
    a1: Date,
    a2: Date,
)
    ensures
        spec_render_row(cells, sep, t1, true, a1) == spec_render_row(cells, sep, t2, true, a2),
{
    assert(spec_row_parts(cells, sep, t1, true, a1) =~= spec_row_parts(cells, sep, t2, true, a2));
}

/// In a data row, a flagged date column holds the normalized date text:
/// the serial's calendar date, or the default date when the cell text
/// does not parse as an in-range serial.
pub proof fn lemma_date_col_normalized(
    cells: Seq<Seq<char>>,
    sep: char,
    tokens: Seq<Seq<char>>,
    i: int,
    as_of: Date,
)
    requires
        0 <= i < cells.len(),
        is_date_col(tokens, i),
    ensures
        spec_row_parts(cells, sep, tokens, false, as_of)[i] == spec_normalize_date(
            cells[i],
            as_of,
        ),
{
}

/// A rendered line holds exactly one separator per adjacent pair of
/// columns — none leaks out of cell content — when the separator is
/// distinct from everything rendered content can hold.
pub proof fn lemma_separator_count(
    cells: Seq<Seq<char>>,
    sep: char,
    tokens: Seq<Seq<char>>,
    as_header: bool,
    as_of: Date,
)
    requires
        sep_distinct(sep),
    ensures
        count_char(spec_render_row(cells, sep, tokens, as_header, as_of), sep) == if cells.len()
            == 0 {
            0int
        } else {
            cells.len() - 1
        },
{
    let parts = spec_row_parts(cells, sep, tokens, as_header, as_of);
    assert forall|k: int| 0 <= k < parts.len() implies count_char(#[trigger] parts[k], sep)
        == 0 by {
        if !as_header && is_date_col(tokens, k) {
            let t = spec_normalize_date(cells[k], as_of);
            lemma_normalize_chars(cells[k], as_of);
            assert forall|j: int| 0 <= j < t.len() implies t[j] != sep by {}
            lemma_count_char_absent(t, sep);
        } else {
            let t = escaped(cells[k], sep);
            assert forall|j: int| 0 <= j < t.len() implies t[j] != sep by {}
            lemma_count_char_absent(t, sep);
        }
    }
    lemma_joined_count(parts, sep);
    let joined = spec_joined(parts, sep);
    assert(joined.push('\n') =~= joined + seq!['\n']);
    lemma_count_char_add(joined, seq!['\n'], sep);
    assert(count_char(seq!['\n'], sep) == 0) by {
        assert(seq!['\n'].drop_last() =~= Seq::<char>::empty());
        assert(count_char(Seq::<char>::empty(), sep) == 0);
        assert(seq!['\n'].last() == '\n');
    }
}

/// The normalized date text holds only digits and dashes.
proof fn lemma_normalize_chars(cell: Seq<char>, as_of: Date)
    ensures
        forall|j: int|
            0 <= j < spec_normalize_date(cell, as_of).len() ==> is_digit_char(
                #[trigger] spec_normalize_date(cell, as_of)[j],
            ) || spec_normalize_date(cell, as_of)[j] == '-',
{
    if crate::num::parses_as_usize(cell) && crate::dates::serial_in_range(
        crate::num::dec_val(crate::num::usize_digits(cell)),
    ) {
        lemma_ddmmyyyy_chars(
            crate::dates::date_of_serial(crate::num::dec_val(crate::num::usize_digits(cell))),
        );
    } else {
        lemma_ddmmyyyy_chars(as_of);
    }
}

/// Renders one row: date columns of data rows normalized, every other
/// cell escaped, cells joined by the separator, newline-terminated.
pub fn render_row(
    cells: &Vec<String>,
    sep: char,
    date_tokens: &Vec<String>,
    as_header: bool,
    as_of: &Date,
) -> (r: String)
    requires
        date_wf(*as_of),
        cells@.len() < usize::MAX,
    ensures
        r@ == spec_render_row(cells.deep_view(), sep, date_tokens.deep_view(), as_header, *as_of),
{
    let ghost parts = spec_row_parts(
        cells.deep_view(),
        sep,
        date_tokens.deep_view(),
        as_header,
        *as_of,
    );
    let n = cells.len();
    let mut out: Vec<char> = Vec::new();
    let mut i: usize = 0;
    while i < n
        invariant
            i <= n,
            n == cells@.len(),
            n < usize::MAX,
            date_wf(*as_of),
            parts == spec_row_parts(
                cells.deep_view(),
                sep,
                date_tokens.deep_view(),
                as_header,
                *as_of,
            ),
            out@ == spec_joined(parts.take(i as int), sep),
        decreases n - i,
    {
        let ghost before = out@;
        if i > 0 {
            out.push(sep);
        }
        let rendered: String;
        if !as_header {
            let colno = to_dec_string(i + 1);
            if contains_token(date_tokens, colno.as_str()) {
                rendered = normalize_date_cell(cells[i].as_str(), as_of);
            } else {
                rendered = escape_cell(cells[i].as_str(), sep);
            }
        } else {
            rendered = escape_cell(cells[i].as_str(), sep);
        }
        proof {
            assert(cells[i as int]@ == cells.deep_view()[i as int]);
            assert(rendered@ == parts[i as int]);
        }
        let mut rchars = chars_of(rendered.as_str());
        out.append(&mut rchars);
        proof {
            assert(parts.take(i as int + 1).drop_last() =~= parts.take(i as int));
            assert(parts.take(i as int + 1).last() == parts[i as int]);
            if i == 0 {
                assert(out@ =~= parts[0]);
                assert(spec_joined(parts.take(1), sep) == parts.take(1)[0]);
            } else {
                assert(out@ =~= spec_joined(parts.take(i as int), sep).push(sep) + parts[
                    i as int
                ]);
            }
        }
        i = i + 1;
    }
    proof {
        assert(parts.take(n as int) =~= parts);
    }
    out.push('\n');
    proof {
        assert(out@ =~= spec_joined(parts, sep).push('\n'));
    }
    chars_to_string(&out)
}

} // verus!
