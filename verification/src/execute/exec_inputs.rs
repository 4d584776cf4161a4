//! The decisions of a worker that runs the command once for each input.

use crate::arguments::{
    DASH_EXISTS, DRY_RUN, INPUTS_ARE_COMMANDS, PIPE_IS_ENABLED, QUIET_MODE, SHELL_ENABLED,
    VERBOSE_MODE,
};
use crate::command::{command_text, expand, split_words, texts, words};
use crate::serializer::{Event, OutputState};
use crate::shell::{needs_shell, required, shell_program};
use crate::text::{append_decimal, chars_of, decimal};
use crate::tokenizer::Token;
use vstd::prelude::*;
use vstd::string::{StringExecFns, StringSliceAdditionalSpecFns};
use vstd::utf8::encode_utf8;

verus! {

/// What a worker needs to know of the run as a whole.
#[derive(Clone, Copy, Debug)]
pub struct ExecInputs {
    /// The number of inputs.
    pub num_inputs: usize,
    /// The time between the starts of two jobs, in milliseconds.
    pub delay: u64,
    /// The time that a job may take, in milliseconds; zero for as long as it needs.
    pub timeout: u64,
}

/// How long a worker waits for a job before it reads the job's output.
#[derive(Clone, Copy, Debug, PartialEq, Eq, Structural)]
pub enum Wait {
    /// It does not wait: it reads the output until the job closes it.
    Unbounded,
    /// It waits for so many milliseconds at most.
    AtMost(u64),
}

/// What a worker does with a job once it has waited for it.
#[derive(Clone, Copy, Debug, PartialEq, Eq, Structural)]
pub enum Ending {
    /// The job took too long: it is killed, and what it wrote is read.
    KillThenPipe,
    /// What the job wrote is read, and then the job is waited for.
    PipeThenWait,
}

/// The program that a job runs, and the arguments that the program is given.
#[derive(Debug)]
pub struct Invocation {
    pub program: String,
    pub arguments: Vec<String>,
}

/// An `Invocation` as a plain value.
pub struct Invoked {
    pub program: Seq<char>,
    pub arguments: Seq<Seq<char>>,
}

impl View for Invocation {
    type V = Invoked;

    open spec fn view(&self) -> Invoked {
        Invoked { program: self.program@, arguments: texts(self.arguments@) }
    }
}

/// How a worker runs one job.
#[derive(Debug)]
pub struct Job {
    /// The modes of this job.
    pub flags: u8,
    /// The text of the command.
    pub command: String,
    /// What is run; nothing where the command holds no word.
    pub invocation: Option<Invocation>,
    /// What is sent to the standard input of the command, where anything is.
    pub stdin: Option<Vec<u8>>,
    /// How long the worker waits for the job.
    pub wait: Wait,
    /// Whether the command is only printed.
    pub dry_run: bool,
    /// Whether the standard output of the job is dropped.
    pub quiet: bool,
    /// Whether the start and the end of the job are announced.
    pub verbose: bool,
}

/// The text of the command of a job. Where the inputs are the commands, it
/// is the input. Where the input is sent to the standard input of the
/// command, the template stands without it.
pub open spec fn job_command(
    flags: u8,
    tokens: Seq<Token>,
    input: Seq<char>,
    slot: nat,
    job: nat,
) -> Seq<char> {
    if flags & INPUTS_ARE_COMMANDS != 0 {
        input
    } else if flags & PIPE_IS_ENABLED != 0 {
        command_text(tokens, Seq::empty(), slot, job)
    } else {
        command_text(tokens, input, slot, job)
    }
}

/// What is sent to the standard input of a job: the input and the end of
/// the line, where inputs are sent there.
pub open spec fn job_stdin(flags: u8, input: Seq<char>) -> Option<Seq<u8>> {
    if flags & PIPE_IS_ENABLED != 0 {
        Some(encode_utf8(input).push(0x0au8))
    } else {
        None
    }
}

/// What runs the command `command` in a job with the modes `flags`. With a
/// shell, the shell is given the whole text after `-c`. Without one, the
/// first word of the text is the program and the other words are its
/// arguments; a text without a word runs nothing.
pub open spec fn invoked(flags: u8, command: Seq<char>) -> Option<Invoked> {
    if flags & SHELL_ENABLED != 0 {
        Some(
            Invoked {
                program: if flags & DASH_EXISTS != 0 {
                    "dash"@
                } else {
                    "sh"@
                },
                arguments: seq!["-c"@, command],
            },
        )
    } else if words(command).len() == 0 {
        None
    } else {
        Some(
            Invoked {
                program: words(command)[0],
                arguments: words(command).subrange(1, words(command).len() as int),
            },
        )
    }
}

/// What an `Invocation` that may be missing stands for.
pub open spec fn optional_invoked(invocation: Option<Invocation>) -> Option<Invoked> {
    match invocation {
        Some(invocation) => Some(invocation@),
        None => None,
    }
}

/// What bytes that may be missing hold.
pub open spec fn optional_bytes(bytes: Option<Vec<u8>>) -> Option<Seq<u8>> {
    match bytes {
        Some(bytes) => Some(bytes@),
        None => None,
    }
}

/// What runs the command `command` in a job with the modes `flags`.
pub fn invocation(flags: u8, command: &str) -> (found: Option<Invocation>)
    ensures
        optional_invoked(found) == invoked(flags, command@),
{
    if flags & SHELL_ENABLED != 0 {
        let program = shell_program(flags & DASH_EXISTS != 0);
        let mut arguments: Vec<String> = Vec::new();
        arguments.push(String::from_str("-c"));
        arguments.push(String::from_str(command));
        assert(texts(arguments@) =~= seq!["-c"@, command@]);
        Some(Invocation { program: String::from_str(program), arguments })
    } else {
        let chars = chars_of(command);
        let mut list = split_words(chars.as_slice());
        if list.len() == 0 {
            None
        } else {
            let ghost all = list@;
            let program = list.remove(0);
            assert(texts(list@) =~= texts(all).subrange(1, all.len() as int));
            Some(Invocation { program, arguments: list })
        }
    }
}

/// The numbers of the slots of `ncores` workers: one for each worker,
/// from one on, so that no two workers share a slot.
pub fn slots(ncores: usize) -> (numbers: Vec<usize>)
    ensures
        numbers@.len() == ncores,
        forall|i: int| 0 <= i < ncores ==> #[trigger] numbers@[i] == i + 1,
{
    let mut numbers: Vec<usize> = Vec::new();
    let mut i: usize = 0;
    while i < ncores
        invariant
            i <= ncores,
            numbers@.len() == i,
            forall|k: int| 0 <= k < i ==> #[trigger] numbers@[k] == k + 1,
        decreases ncores - i,
    {
        numbers.push(i + 1);
        i += 1;
    }
    numbers
}

/// The modes of the job that runs `input`, where the run has the modes
/// `flags`: an input that needs a shell gets one, and `dash` where it is there.
pub open spec fn job_flags(flags: u8, input: Seq<char>, dash_exists: bool) -> u8 {
    if !needs_shell(input) {
        flags
    } else if dash_exists {
        flags | SHELL_ENABLED | DASH_EXISTS
    } else {
        flags | SHELL_ENABLED
    }
}

/// The time at which the next job may start, where the last one started at
/// `last_start` and it is `now`: not before `delay` has passed since.
pub open spec fn start_time(last_start: u64, delay: u64, now: u64) -> u64 {
    if last_start + delay <= now {
        now
    } else if last_start + delay > u64::MAX {
        u64::MAX
    } else {
        (last_start + delay) as u64
    }
}

/// What tells of the job `job_id` with the input `input` that it could
/// not be run, for the reason `why`.
pub open spec fn failure_message(job_id: nat, input: Seq<char>, why: Seq<char>) -> Seq<char> {
    decimal(job_id) + ": "@ + input + ": "@ + why + "\n"@
}

impl ExecInputs {
    /// Whether the starts of the jobs are spaced out.
    pub fn has_delay(&self) -> (delayed: bool)
        ensures
            delayed == (self.delay != 0),
    {
        self.delay != 0
    }

    /// Whether a job may only take so long.
    pub fn has_timeout(&self) -> (limited: bool)
        ensures
            limited == (self.timeout != 0),
    {
        self.timeout != 0
    }

    /// How the job number `job_id` is run in the slot `slot` with the input
    /// `input`, where the run has the modes `flags` and the command template
    /// `tokens`, and `dash_exists` tells whether the `dash` shell is there.
    pub fn run(
        &self,
        flags: u8,
        tokens: &[Token],
        input: &str,
        slot: usize,
        job_id: usize,
        dash_exists: bool,
    ) -> (job: Job)
        ensures
            job.command@ == job_command(flags, tokens@, input@, slot as nat, job_id as nat),
            job.flags == job_flags(flags, input@, dash_exists),
            optional_invoked(job.invocation) == invoked(job.flags, job.command@),
            optional_bytes(job.stdin) == job_stdin(flags, input@),
            job.wait == if self.timeout != 0 {
                Wait::AtMost(self.timeout)
            } else {
                Wait::Unbounded
            },
            job.dry_run == (flags & DRY_RUN != 0),
            job.quiet == (flags & QUIET_MODE != 0),
            job.verbose == (flags & VERBOSE_MODE != 0),
    {
        let command = if flags & INPUTS_ARE_COMMANDS != 0 {
            String::from_str(input)
        } else if flags & PIPE_IS_ENABLED != 0 {
            expand("", tokens, slot, job_id)
        } else {
            expand(input, tokens, slot, job_id)
        };
        proof {
            reveal_strlit("");
            assert(""@ =~= Seq::<char>::empty());
        }
        let job_flags = if !required(input) {
            flags
        } else if dash_exists {
            flags | SHELL_ENABLED | DASH_EXISTS
        } else {
            flags | SHELL_ENABLED
        };
        let stdin = if flags & PIPE_IS_ENABLED != 0 {
            let mut bytes: Vec<u8> = Vec::new();
            bytes.extend_from_slice(input.as_bytes());
            bytes.push(0x0au8);
            assert(bytes@ =~= encode_utf8(input@).push(0x0au8));
            Some(bytes)
        } else {
            None
        };
        let invocation = invocation(job_flags, command.as_str());
        Job {
            flags: job_flags,
            command,
            invocation,
            stdin,
            wait: if self.timeout != 0 {
                Wait::AtMost(self.timeout)
            } else {
                Wait::Unbounded
            },
            dry_run: flags & DRY_RUN != 0,
            quiet: flags & QUIET_MODE != 0,
            verbose: flags & VERBOSE_MODE != 0,
        }
    }

    /// The reports of a job whose command is only printed: the command on a
    /// line of its own is all that the job writes.
    pub fn printed(&self, job_id: usize, command: &str) -> (reports: Vec<OutputState>)
        ensures
            reports@.len() == 3,
            reports@[0]@ == Event::Start(job_id as int),
            reports@[1]@ == Event::Stdout(job_id as int, encode_utf8(command@).push(0x0au8)),
            reports@[2]@ == Event::Completed(job_id as int),
    {
        let mut line: Vec<u8> = Vec::new();
        line.extend_from_slice(command.as_bytes());
        line.push(0x0au8);
        assert(line@ =~= encode_utf8(command@).push(0x0au8));
        let mut reports: Vec<OutputState> = Vec::new();
        reports.push(OutputState::Start(job_id));
        reports.push(OutputState::StdoutChunk(job_id, line));
        reports.push(OutputState::Completed(job_id));
        reports
    }

    /// How long the worker sleeps before it starts the next job, and the
    /// time at which that job then starts. All times are in milliseconds.
    pub fn pace(&self, last_start: u64, now: u64) -> (pause: (u64, u64))
        ensures
            pause.1 == start_time(last_start, self.delay, now),
            pause.0 == pause.1 - now,
    {
        let due = match last_start.checked_add(self.delay) {
            Some(due) => due,
            None => u64::MAX,
        };
        if due <= now {
            (0, now)
        } else {
            (due - now, due)
        }
    }

    /// What the worker does once it has waited for a job: a job that has
    /// not ended in its time is killed.
    pub fn ending(&self, timed_out: bool) -> (ending: Ending)
        ensures
            ending == if self.timeout != 0 && timed_out {
                Ending::KillThenPipe
            } else {
                Ending::PipeThenWait
            },
    {
        if self.timeout != 0 && timed_out {
            Ending::KillThenPipe
        } else {
            Ending::PipeThenWait
        }
    }

    /// The report of the job `job_id` that could not be run for the reason `why`.
    pub fn failed(&self, job_id: usize, input: &str, why: &str) -> (report: OutputState)
        ensures
            report@ == Event::Error(
                job_id as int,
                encode_utf8(failure_message(job_id as nat, input@, why@)),
            ),
    {
        let mut message = String::new();
        append_decimal(&mut message, job_id);
        message.append(": ");
        message.append(input);
        message.append(": ");
        message.append(why);
        message.append("\n");
        assert(message@ =~= failure_message(job_id as nat, input@, why@));
        OutputState::Error(job_id, message)
    }

    /// The line that tells the user that the command for `input` could not
    /// be run for the reason `why`.
    pub fn complaint(&self, input: &str, why: &str) -> (line: String)
        ensures
            line@ == "parallel: command error: "@ + input@ + ": "@ + why@ + "\n"@,
    {
        let mut line = String::from_str("parallel: command error: ");
        line.append(input);
        line.append(": ");
        line.append(why);
        line.append("\n");
        line
    }
}

} // verus!
