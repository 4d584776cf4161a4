//! The lines that tell how the jobs get on.

use crate::text::{append_decimal, decimal};
use vstd::prelude::*;
use vstd::string::StringExecFns;

verus! {

/// A line about the job `job` of `total` with the input `input`, which
/// begins with `head`.
pub open spec fn task_line(head: Seq<char>, job: nat, total: nat, input: Seq<char>) -> Seq<char> {
    head + decimal(job) + " of "@ + decimal(total) + ": '"@ + input + "'\n"@
}

fn line(head: &str, job_id: usize, total: usize, input: &str) -> (text: String)
    ensures
        text@ == task_line(head@, job_id as nat, total as nat, input@),
{
    let mut text = String::from_str(head);
    append_decimal(&mut text, job_id);
    text.append(" of ");
    append_decimal(&mut text, total);
    text.append(": '");
    text.append(input);
    text.append("'\n");
    text
}

/// The line that says how many inputs will be processed on how many threads.
pub fn total_inputs(threads: usize, inputs: usize) -> (text: String)
    ensures
        text@ == "parallel: processing "@ + decimal(inputs as nat) + " inputs on "@ + decimal(
            threads as nat,
        ) + " threads\n"@,
{
    let mut text = String::from_str("parallel: processing ");
    append_decimal(&mut text, inputs);
    text.append(" inputs on ");
    append_decimal(&mut text, threads);
    text.append(" threads\n");
    text
}

/// The line that says that the job `job_id` of `total` begins.
pub fn processing_task(job_id: usize, total: usize, input: &str) -> (text: String)
    ensures
        text@ == task_line("parallel: processing task #"@, job_id as nat, total as nat, input@),
{
    line("parallel: processing task #", job_id, total, input)
}

/// The line that says that the job `job_id` of `total` is done.
pub fn task_complete(job_id: usize, total: usize, input: &str) -> (text: String)
    ensures
        text@ == task_line("parallel: completed task #"@, job_id as nat, total as nat, input@),
{
    line("parallel: completed task #", job_id, total, input)
}

} // verus!
