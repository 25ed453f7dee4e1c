//! Conversion of spreadsheet worksheets into delimited text lines.
//!
//! The library renders rows of cell text into separator-joined lines,
//! normalizing flagged date columns to `DD-MM-YYYY`, and builds the
//! per-sheet jobs from the batch configuration strings.

use vstd::prelude::*;

pub mod config;
pub mod convert;
pub mod dates;
pub mod num;
pub mod render;
pub mod text;

verus! {

/// A character is a decimal digit.
pub open spec fn is_digit_char(c: char) -> bool {
    c == '0' || c == '1' || c == '2' || c == '3' || c == '4' || c == '5' || c == '6' || c == '7'
        || c == '8' || c == '9'
}

} // verus!
