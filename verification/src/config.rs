//! Building per-sheet jobs from the five positionally aligned
//! configuration lists.
//!
//! Sheet and output names are comma-delimited; skip-header flags,
//! header-row counts and date-column lists are pipe-delimited. The lists
//! are validated upfront: every sheet needs an entry in each list, a
//! parsable flag and a parsable count. Extra trailing entries are ignored.

use vstd::prelude::*;
use crate::num::{
    dec_val,
    parse_bool,
    parse_usize,
    parses_as_usize,
    spec_parse_bool,
    usize_digits,
};
use crate::text::{spec_split, split_on};

verus! {

/// One unit of work: a sheet to convert and its aligned parameters.
/// The date columns stay as the raw comma-delimited token list; they are
/// matched against column numbers at render time.
#[derive(Debug)]
pub struct SheetJob {
    pub sheet_name: String,
    pub output_file_name: String,
    pub seperator: char,
    pub skip_header: bool,
    pub header_rows: usize,
    pub fields_with_date: String,
}

/// A fatal configuration fault, with the sheet position it was found at.
#[derive(Clone, Copy, Debug, PartialEq, Eq, Structural)]
pub enum ConfigError {
    MissingOutputName { index: usize },
    MissingSkipHeader { index: usize },
    MissingHeaderRows { index: usize },
    MissingDateFields { index: usize },
    BadSkipHeader { index: usize },
    BadHeaderRows { index: usize },
}

/// The five lists align and parse: every sheet position has an output
/// name, a date-column entry, a boolean flag and a numeric header count.
pub open spec fn spec_jobs_ok(
    names: Seq<Seq<char>>,
    outs: Seq<Seq<char>>,
    flags: Seq<Seq<char>>,
    hdrs: Seq<Seq<char>>,
    dates: Seq<Seq<char>>,
) -> bool {
    &&& outs.len() >= names.len()
    &&& flags.len() >= names.len()
    &&& hdrs.len() >= names.len()
    &&& dates.len() >= names.len()
    &&& forall|i: int|
        0 <= i < names.len() ==> spec_parse_bool(#[trigger] flags[i]) is Some
    &&& forall|i: int| 0 <= i < names.len() ==> parses_as_usize(#[trigger] hdrs[i])
}

/// The error names a real violation at its index.
pub open spec fn spec_error_holds(
    e: ConfigError,
    names: Seq<Seq<char>>,
    outs: Seq<Seq<char>>,
    flags: Seq<Seq<char>>,
    hdrs: Seq<Seq<char>>,
    dates: Seq<Seq<char>>,
) -> bool {
    match e {
        ConfigError::MissingOutputName { index } => index < names.len() && outs.len() <= index,
        ConfigError::MissingSkipHeader { index } => index < names.len() && flags.len() <= index,
        ConfigError::MissingHeaderRows { index } => index < names.len() && hdrs.len() <= index,
        ConfigError::MissingDateFields { index } => index < names.len() && dates.len() <= index,
        ConfigError::BadSkipHeader { index } => index < names.len() && index < flags.len()
            && spec_parse_bool(flags[index as int]) is None,
        ConfigError::BadHeaderRows { index } => index < names.len() && index < hdrs.len()
            && !parses_as_usize(hdrs[index as int]),
    }
}

/// Splits the five configuration lists and builds one job per sheet name,
/// in sheet order, exactly when the lists align and parse.
pub fn build_jobs(
    sheet_names: &str,
    output_file_names: &str,
    skip_header: &str,
    header_rows: &str,
    fields_with_date: &str,
    seperator: char,
) -> (r: Result<Vec<SheetJob>, ConfigError>)
    ensures
        ({
            let names = spec_split(sheet_names@, ',');
            let outs = spec_split(output_file_names@, ',');
            let flags = spec_split(skip_header@, '|');
            let hdrs = spec_split(header_rows@, '|');
            let dates = spec_split(fields_with_date@, '|');
            &&& (r is Ok <==> spec_jobs_ok(names, outs, flags, hdrs, dates))
            &&& (r matches Ok(jobs) ==> {
                &&& jobs@.len() == names.len()
                &&& forall|i: int|
                    0 <= i < names.len() ==> {
                        &&& (#[trigger] jobs@[i]).sheet_name@ == names[i]
                        &&& jobs@[i].output_file_name@ == outs[i]
                        &&& jobs@[i].seperator == seperator
                        &&& Some(jobs@[i].skip_header) == spec_parse_bool(flags[i])
                        &&& jobs@[i].header_rows == dec_val(usize_digits(hdrs[i]))
                        &&& jobs@[i].fields_with_date@ == dates[i]
                    }
            })
            &&& (r matches Err(e) ==> spec_error_holds(e, names, outs, flags, hdrs, dates))
        }),
{
    let ghost names = spec_split(sheet_names@, ',');
    let ghost outs = spec_split(output_file_names@, ',');
    let ghost flags = spec_split(skip_header@, '|');
    let ghost hdrs = spec_split(header_rows@, '|');
    let ghost dates = spec_split(fields_with_date@, '|');
    let names_v = split_on(sheet_names, ',');
    let outs_v = split_on(output_file_names, ',');
    let flags_v = split_on(skip_header, '|');
    let hdrs_v = split_on(header_rows, '|');
    let dates_v = split_on(fields_with_date, '|');
    let n = names_v.len();
    let mut jobs: Vec<SheetJob> = Vec::new();
    let mut i: usize = 0;
    while i < n
        invariant
            i <= n,
            names == spec_split(sheet_names@, ','),
            outs == spec_split(output_file_names@, ','),
            flags == spec_split(skip_header@, '|'),
            hdrs == spec_split(header_rows@, '|'),
            dates == spec_split(fields_with_date@, '|'),
            n == names.len(),
            n == names_v@.len(),
            outs.len() == outs_v@.len(),
            flags.len() == flags_v@.len(),
            hdrs.len() == hdrs_v@.len(),
            dates.len() == dates_v@.len(),
            names_v.deep_view() == names,
            outs_v.deep_view() == outs,
            flags_v.deep_view() == flags,
            hdrs_v.deep_view() == hdrs,
            dates_v.deep_view() == dates,
            jobs@.len() == i,
            forall|k: int|
                0 <= k < i ==> {
                    &&& (#[trigger] jobs@[k]).sheet_name@ == names[k]
                    &&& jobs@[k].output_file_name@ == outs[k]
                    &&& jobs@[k].seperator == seperator
                    &&& Some(jobs@[k].skip_header) == spec_parse_bool(flags[k])
                    &&& jobs@[k].header_rows == dec_val(usize_digits(hdrs[k]))
                    &&& jobs@[k].fields_with_date@ == dates[k]
                },
            outs.len() >= i,
            flags.len() >= i,
            hdrs.len() >= i,
            dates.len() >= i,
            forall|k: int| 0 <= k < i ==> spec_parse_bool(#[trigger] flags[k]) is Some,
            forall|k: int| 0 <= k < i ==> parses_as_usize(#[trigger] hdrs[k]),
        decreases n - i,
    {
        if i >= outs_v.len() {
            return Err(ConfigError::MissingOutputName { index: i });
        }
        if i >= flags_v.len() {
            return Err(ConfigError::MissingSkipHeader { index: i });
        }
        if i >= hdrs_v.len() {
            return Err(ConfigError::MissingHeaderRows { index: i });
        }
        if i >= dates_v.len() {
            return Err(ConfigError::MissingDateFields { index: i });
        }
        proof {
            assert(flags_v[i as int]@ == flags[i as int]);
            assert(hdrs_v[i as int]@ == hdrs[i as int]);
        }
        let sh = match parse_bool(flags_v[i].as_str()) {
            Some(b) => b,
            None => {
                return Err(ConfigError::BadSkipHeader { index: i });
            },
        };
        let hr = match parse_usize(hdrs_v[i].as_str()) {
            Some(v) => v,
            None => {
                return Err(ConfigError::BadHeaderRows { index: i });
            },
        };
        let job = SheetJob {
            sheet_name: names_v[i].clone(),
            output_file_name: outs_v[i].clone(),
            seperator,
            skip_header: sh,
            header_rows: hr,
            fields_with_date: dates_v[i].clone(),
        };
        proof {
            assert(names_v[i as int]@ == names[i as int]);
            assert(outs_v[i as int]@ == outs[i as int]);
            assert(flags_v[i as int]@ == flags[i as int]);
            assert(hdrs_v[i as int]@ == hdrs[i as int]);
            assert(dates_v[i as int]@ == dates[i as int]);
        }
        jobs.push(job);
        i = i + 1;
    }
    Ok(jobs)
}

} // verus!
