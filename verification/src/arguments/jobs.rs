//! Reads the number of jobs to run at once.

use super::errors::{outcome, ParseErr, ParseError};
use crate::text::{chars_of, parse_number, parsed_number, string_of};
use vstd::prelude::*;
use vstd::slice::slice_subrange;
use vstd::string::StringExecFns;

verus! {

/// The number of processors that this machine offers, as `num_cpus::get`
/// reports it. Its documentation promises at least one.
#[verifier::external_body]
pub(crate) fn detected_cores() -> (cores: usize)
    ensures
        cores >= 1,
{
    num_cpus::get()
}

/// `percent` hundredths of `cores`, rounded down, kept within `usize` and
/// never below one.
pub open spec fn share_of(cores: usize, percent: usize) -> usize {
    let share = (cores * percent) / 100;
    if share < 1 {
        1
    } else if share > usize::MAX {
        usize::MAX
    } else {
        share as usize
    }
}

/// `cores` less `less`, never below one.
pub open spec fn fewer_than(cores: usize, less: usize) -> usize {
    if cores - less < 1 {
        1
    } else {
        (cores - less) as usize
    }
}

/// `number`, never below one.
pub open spec fn at_least_one(number: usize) -> usize {
    if number < 1 {
        1
    } else {
        number
    }
}

/// The number of jobs that `value` asks for on a machine with `cores`
/// processors: a number as it stands, `N%` for that share of the processors,
/// `-N` for all processors but N; never less than one. Anything else is
/// refused with the value as it was written.
pub open spec fn jobs_of(value: Seq<char>, cores: usize) -> Result<usize, ParseError> {
    if value.len() > 0 && value.last() == '%' {
        match parsed_number(value.drop_last()) {
            Some(percent) => Ok(share_of(cores, percent)),
            None => Err(ParseError::JobsNaN(value)),
        }
    } else if value.len() > 0 && value[0] == '-' {
        match parsed_number(value.subrange(1, value.len() as int)) {
            Some(less) => Ok(fewer_than(cores, less)),
            None => Err(ParseError::JobsNaN(value)),
        }
    } else {
        match parsed_number(value) {
            Some(number) => Ok(at_least_one(number)),
            None => Err(ParseError::JobsNaN(value)),
        }
    }
}

fn share(cores: usize, percent: usize) -> (jobs: usize)
    ensures
        jobs == share_of(cores, percent),
{
    assert(cores * percent <= u128::MAX) by (nonlinear_arith)
        requires
            cores <= 0xffff_ffff_ffff_ffff,
            percent <= 0xffff_ffff_ffff_ffff,
    ;
    let product: u128 = (cores as u128) * (percent as u128);
    let share: u128 = product / 100;
    if share < 1 {
        1
    } else if share > usize::MAX as u128 {
        usize::MAX
    } else {
        share as usize
    }
}

/// Reads `value` as the number of jobs on a machine with `cores` processors.
pub fn parse_for(value: &str, cores: usize) -> (jobs: Result<usize, ParseErr>)
    ensures
        outcome(jobs) == jobs_of(value@, cores),
{
    let chars = chars_of(value);
    let n = chars.len();
    let number = if n > 0 && chars[n - 1] == '%' {
        assert(chars@.subrange(0, n - 1) =~= value@.drop_last());
        let percent = string_of(slice_subrange(chars.as_slice(), 0, n - 1));
        match parse_number(percent.as_str()) {
            Some(percent) => Some(share(cores, percent)),
            None => None,
        }
    } else if n > 0 && chars[0] == '-' {
        let less = string_of(slice_subrange(chars.as_slice(), 1, n));
        match parse_number(less.as_str()) {
            Some(less) => Some(
                if cores > less {
                    cores - less
                } else {
                    1
                },
            ),
            None => None,
        }
    } else {
        match parse_number(value) {
            Some(number) => Some(
                if number < 1 {
                    1
                } else {
                    number
                },
            ),
            None => None,
        }
    };
    match number {
        Some(jobs) => Ok(jobs),
        None => Err(ParseErr::JobsNaN(String::from_str(value))),
    }
}

/// Reads `value` as the number of jobs on this machine. The result is that
/// of `parse_for` with the number of processors that the machine reports.
pub fn parse(value: &str) -> (jobs: Result<usize, ParseErr>)
    ensures
        exists|cores: usize| cores >= 1 && outcome(jobs) == jobs_of(value@, cores),
{
    let cores = detected_cores();
    parse_for(value, cores)
}

} // verus!
