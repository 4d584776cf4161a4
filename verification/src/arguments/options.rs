//! Reads the options of the program, one argument at a time.

use super::errors::{ParseErr, ParseError};
use super::jobs::{jobs_of, parse_for};
use super::{
    after_value, jobs_argument_of, max_args_of, optional_text, parse_jobs_for, parse_max_args,
    Quoting, DRY_RUN, PIPE_IS_ENABLED, QUIET_MODE, VERBOSE_MODE,
};
use crate::command::texts;
use crate::text::{chars_of, parse_number, parsed_number, str_eq};
use vstd::prelude::*;

verus! {

/// What the program prints before it leaves without running anything.
#[derive(Clone, Copy, Debug, PartialEq, Eq, Structural)]
pub enum Notice {
    /// How the program is used.
    Help,
    /// The version of the program.
    Version,
    /// The number of processors of the machine.
    CpuCores,
}

/// What the options have set so far.
#[derive(Clone, Copy, Debug)]
pub struct Options {
    /// The modes that are switched on, one bit each.
    pub flags: u8,
    /// The number of jobs that run at once.
    pub ncores: usize,
    /// The time between the starts of two jobs, in milliseconds.
    pub delay: u64,
    /// The time that a job may take, in milliseconds.
    pub timeout: u64,
    /// The number of inputs that each job gets.
    pub max_args: usize,
    /// How the command template is quoted.
    pub quote: Quoting,
}

impl Options {
    /// With the modes of `flag` switched on.
    pub open spec fn with_flag(self, flag: u8) -> Options {
        Options { flags: self.flags | flag, ..self }
    }
}

/// An option that is written out after two dashes.
#[derive(Clone, Copy, Debug, PartialEq, Eq, Structural)]
pub enum LongOption {
    Delay,
    DryRun,
    Help,
    Jobs,
    NumCpuCores,
    MaxArgs,
    Pipe,
    Quiet,
    Quote,
    ShellQuote,
    Timeout,
    Verbose,
    Version,
}

/// The option that `name` names.
pub open spec fn long_option(name: Seq<char>) -> Option<LongOption> {
    if name == "delay"@ {
        Some(LongOption::Delay)
    } else if name == "dry-run"@ {
        Some(LongOption::DryRun)
    } else if name == "help"@ {
        Some(LongOption::Help)
    } else if name == "jobs"@ {
        Some(LongOption::Jobs)
    } else if name == "num-cpu-cores"@ {
        Some(LongOption::NumCpuCores)
    } else if name == "max-args"@ {
        Some(LongOption::MaxArgs)
    } else if name == "pipe"@ {
        Some(LongOption::Pipe)
    } else if name == "quiet"@ || name == "silent"@ {
        Some(LongOption::Quiet)
    } else if name == "quote"@ {
        Some(LongOption::Quote)
    } else if name == "shellquote"@ {
        Some(LongOption::ShellQuote)
    } else if name == "timeout"@ {
        Some(LongOption::Timeout)
    } else if name == "verbose"@ {
        Some(LongOption::Verbose)
    } else if name == "version"@ {
        Some(LongOption::Version)
    } else {
        None
    }
}

/// What one option leads to.
pub enum Step {
    /// The options as they are now, and the position of the argument to read next.
    Next(Options, int),
    /// The program prints a notice and leaves.
    Leave(Notice),
    /// The option is refused.
    Fail(ParseError),
}

/// The same, as the functions of this module hand it on.
pub enum Advance {
    /// The options as they are now, and the position of the argument to read next.
    Next(Options, usize),
    /// The program prints a notice and leaves.
    Leave(Notice),
}

/// What a result of this module stands for.
pub open spec fn step_of(result: Result<Advance, ParseErr>) -> Step {
    match result {
        Ok(Advance::Next(options, next)) => Step::Next(options, next as int),
        Ok(Advance::Leave(notice)) => Step::Leave(notice),
        Err(error) => Step::Fail(error@),
    }
}

/// The argument at `at`, where there is one.
pub open spec fn argument_at(arguments: Seq<Seq<char>>, at: int) -> Option<Seq<char>> {
    if 0 <= at < arguments.len() {
        Some(arguments[at])
    } else {
        None
    }
}

/// The number of milliseconds that the argument at `at` gives as seconds,
/// where it is a number.
pub open spec fn seconds_at(seconds: Seq<Option<u64>>, at: int) -> Option<u64> {
    if 0 <= at < seconds.len() {
        seconds[at]
    } else {
        None
    }
}

/// What the letters of `argument` from `from` on lead to, each of them an
/// option of its own. The argument stands at `at`.
pub open spec fn letters_step(options: Options, argument: Seq<char>, from: int, at: int) -> Step
    decreases argument.len() - from,
{
    if from < 0 || from >= argument.len() {
        Step::Next(options, at + 1)
    } else {
        let c = argument[from];
        if c == 'h' {
            Step::Leave(Notice::Help)
        } else if c == 'p' {
            letters_step(options.with_flag(PIPE_IS_ENABLED), argument, from + 1, at)
        } else if c == 'q' {
            letters_step(Options { quote: Quoting::Basic, ..options }, argument, from + 1, at)
        } else if c == 's' {
            letters_step(options.with_flag(QUIET_MODE), argument, from + 1, at)
        } else if c == 'v' {
            letters_step(options.with_flag(VERBOSE_MODE), argument, from + 1, at)
        } else {
            Step::Fail(ParseError::InvalidArgument(at as usize))
        }
    }
}

/// What the option `option`, written out at `at`, leads to. The value of an
/// option that takes one is the argument after it.
pub open spec fn long_step(
    options: Options,
    option: Option<LongOption>,
    arguments: Seq<Seq<char>>,
    seconds: Seq<Option<u64>>,
    cores: usize,
    at: int,
) -> Step {
    let value = argument_at(arguments, at + 1);
    match option {
        None => Step::Fail(ParseError::InvalidArgument(at as usize)),
        Some(LongOption::Delay) => match value {
            None => Step::Fail(ParseError::DelayNoValue),
            Some(_) => match seconds_at(seconds, at + 1) {
                Some(delay) => Step::Next(Options { delay, ..options }, at + 2),
                None => Step::Fail(ParseError::DelayNaN((at + 1) as usize)),
            },
        },
        Some(LongOption::DryRun) => Step::Next(options.with_flag(DRY_RUN), at + 1),
        Some(LongOption::Help) => Step::Leave(Notice::Help),
        Some(LongOption::Jobs) => match value {
            None => Step::Fail(ParseError::JobsNoValue),
            Some(value) => match jobs_of(value, cores) {
                Ok(ncores) => Step::Next(Options { ncores, ..options }, at + 2),
                Err(error) => Step::Fail(error),
            },
        },
        Some(LongOption::NumCpuCores) => Step::Leave(Notice::CpuCores),
        Some(LongOption::MaxArgs) => match value {
            None => Step::Fail(ParseError::MaxArgsNoValue),
            Some(value) => match parsed_number(value) {
                Some(max_args) => Step::Next(Options { max_args, ..options }, at + 2),
                None => Step::Fail(ParseError::MaxArgsNaN((at + 1) as usize)),
            },
        },
        Some(LongOption::Pipe) => Step::Next(options.with_flag(PIPE_IS_ENABLED), at + 1),
        Some(LongOption::Quiet) => Step::Next(options.with_flag(QUIET_MODE), at + 1),
        Some(LongOption::Quote) => Step::Next(Options { quote: Quoting::Basic, ..options }, at + 1),
        Some(LongOption::ShellQuote) => Step::Next(
            Options { quote: Quoting::Shell, ..options },
            at + 1,
        ),
        Some(LongOption::Timeout) => match value {
            None => Step::Fail(ParseError::DelayNoValue),
            Some(_) => match seconds_at(seconds, at + 1) {
                Some(timeout) => Step::Next(Options { timeout, ..options }, at + 2),
                None => Step::Fail(ParseError::DelayNaN((at + 1) as usize)),
            },
        },
        Some(LongOption::Verbose) => Step::Next(options.with_flag(VERBOSE_MODE), at + 1),
        Some(LongOption::Version) => Step::Leave(Notice::Version),
    }
}

/// What the argument at `at`, which begins with a dash, leads to on a
/// machine with `cores` processors. `-j` and `-n` take a value, in the same
/// argument or in the next; after two dashes an option is written out; any
/// other letters after one dash are options of one letter each.
pub open spec fn option_step(
    options: Options,
    arguments: Seq<Seq<char>>,
    seconds: Seq<Option<u64>>,
    cores: usize,
    at: int,
) -> Step {
    let argument = arguments[at];
    let next = argument_at(arguments, at + 1);
    if argument.len() < 2 {
        Step::Fail(ParseError::InvalidArgument(at as usize))
    } else if argument[1] == 'j' {
        match jobs_argument_of(argument, next, cores) {
            Ok(ncores) => Step::Next(
                Options { ncores, ..options },
                after_value(argument, (at + 1) as usize) as int,
            ),
            Err(error) => Step::Fail(error),
        }
    } else if argument[1] == 'n' {
        match max_args_of(argument, next, (at + 1) as usize) {
            Ok(max_args) => Step::Next(
                Options { max_args, ..options },
                after_value(argument, (at + 1) as usize) as int,
            ),
            Err(error) => Step::Fail(error),
        }
    } else if argument[1] != '-' {
        letters_step(options, argument, 1, at)
    } else {
        long_step(
            options,
            long_option(argument.subrange(2, argument.len() as int)),
            arguments,
            seconds,
            cores,
            at,
        )
    }
}

fn find_long_option(name: &str) -> (option: Option<LongOption>)
    ensures
        option == long_option(name@),
{
    if str_eq(name, "delay") {
        Some(LongOption::Delay)
    } else if str_eq(name, "dry-run") {
        Some(LongOption::DryRun)
    } else if str_eq(name, "help") {
        Some(LongOption::Help)
    } else if str_eq(name, "jobs") {
        Some(LongOption::Jobs)
    } else if str_eq(name, "num-cpu-cores") {
        Some(LongOption::NumCpuCores)
    } else if str_eq(name, "max-args") {
        Some(LongOption::MaxArgs)
    } else if str_eq(name, "pipe") {
        Some(LongOption::Pipe)
    } else if str_eq(name, "quiet") || str_eq(name, "silent") {
        Some(LongOption::Quiet)
    } else if str_eq(name, "quote") {
        Some(LongOption::Quote)
    } else if str_eq(name, "shellquote") {
        Some(LongOption::ShellQuote)
    } else if str_eq(name, "timeout") {
        Some(LongOption::Timeout)
    } else if str_eq(name, "verbose") {
        Some(LongOption::Verbose)
    } else if str_eq(name, "version") {
        Some(LongOption::Version)
    } else {
        None
    }
}

fn read_letters(options: Options, letters: &[char], at: usize) -> (result: Result<Advance, ParseErr>)
    requires
        at < usize::MAX,
    ensures
        step_of(result) == letters_step(options, letters@, 1, at as int),
{
    let mut current = options;
    let mut i: usize = 1;
    while i < letters.len()
        invariant
            1 <= i,
            at < usize::MAX,
            letters_step(current, letters@, i as int, at as int) == letters_step(
                options,
                letters@,
                1,
                at as int,
            ),
        decreases letters@.len() - i,
    {
        let c = letters[i];
        if c == 'h' {
            return Ok(Advance::Leave(Notice::Help));
        } else if c == 'p' {
            current.flags = current.flags | PIPE_IS_ENABLED;
        } else if c == 's' {
            current.flags = current.flags | QUIET_MODE;
        } else if c == 'v' {
            current.flags = current.flags | VERBOSE_MODE;
        } else if c == 'q' {
            current.quote = Quoting::Basic;
        } else {
            return Err(ParseErr::InvalidArgument(at));
        }
        i += 1;
    }
    Ok(Advance::Next(current, at + 1))
}

fn read_long(
    options: Options,
    option: Option<LongOption>,
    arguments: &[String],
    seconds: &[Option<u64>],
    cores: usize,
    at: usize,
) -> (result: Result<Advance, ParseErr>)
    requires
        at < arguments@.len(),
    ensures
        step_of(result) == long_step(
            options,
            option,
            texts(arguments@),
            seconds@,
            cores,
            at as int,
        ),
{
    assert(at < arguments.len());
    let mut options = options;
    let has_value = at + 1 < arguments.len();
    let option = match option {
        Some(option) => option,
        None => {
            return Err(ParseErr::InvalidArgument(at));
        },
    };
    match option {
        LongOption::Delay => {
            if !has_value {
                return Err(ParseErr::DelayNoValue);
            }
            let value = if at + 1 < seconds.len() {
                seconds[at + 1]
            } else {
                None
            };
            match value {
                Some(delay) => {
                    options.delay = delay;
                    Ok(Advance::Next(options, at + 2))
                },
                None => Err(ParseErr::DelayNaN(at + 1)),
            }
        },
        LongOption::DryRun => {
            options.flags = options.flags | DRY_RUN;
            Ok(Advance::Next(options, at + 1))
        },
        LongOption::Help => Ok(Advance::Leave(Notice::Help)),
        LongOption::Jobs => {
            if !has_value {
                return Err(ParseErr::JobsNoValue);
            }
            match parse_for(arguments[at + 1].as_str(), cores) {
                Ok(ncores) => {
                    options.ncores = ncores;
                    Ok(Advance::Next(options, at + 2))
                },
                Err(error) => Err(error),
            }
        },
        LongOption::NumCpuCores => Ok(Advance::Leave(Notice::CpuCores)),
        LongOption::MaxArgs => {
            if !has_value {
                return Err(ParseErr::MaxArgsNoValue);
            }
            match parse_number(arguments[at + 1].as_str()) {
                Some(max_args) => {
                    options.max_args = max_args;
                    Ok(Advance::Next(options, at + 2))
                },
                None => Err(ParseErr::MaxArgsNaN(at + 1)),
            }
        },
        LongOption::Pipe => {
            options.flags = options.flags | PIPE_IS_ENABLED;
            Ok(Advance::Next(options, at + 1))
        },
        LongOption::Quiet => {
            options.flags = options.flags | QUIET_MODE;
            Ok(Advance::Next(options, at + 1))
        },
        LongOption::Quote => {
            options.quote = Quoting::Basic;
            Ok(Advance::Next(options, at + 1))
        },
        LongOption::ShellQuote => {
            options.quote = Quoting::Shell;
            Ok(Advance::Next(options, at + 1))
        },
        LongOption::Timeout => {
            if !has_value {
                return Err(ParseErr::DelayNoValue);
            }
            let value = if at + 1 < seconds.len() {
                seconds[at + 1]
            } else {
                None
            };
            match value {
                Some(timeout) => {
                    options.timeout = timeout;
                    Ok(Advance::Next(options, at + 2))
                },
                None => Err(ParseErr::DelayNaN(at + 1)),
            }
        },
        LongOption::Verbose => {
            options.flags = options.flags | VERBOSE_MODE;
            Ok(Advance::Next(options, at + 1))
        },
        LongOption::Version => Ok(Advance::Leave(Notice::Version)),
    }
}

/// Reads the option at `at`, an argument that begins with a dash, on a
/// machine with `cores` processors.
pub fn read_option(
    options: Options,
    arguments: &[String],
    seconds: &[Option<u64>],
    cores: usize,
    at: usize,
) -> (result: Result<Advance, ParseErr>)
    requires
        at < arguments@.len(),
    ensures
        step_of(result) == option_step(options, texts(arguments@), seconds@, cores, at as int),
{
    assert(at < arguments.len());
    let mut options = options;
    let argument = arguments[at].as_str();
    let letters = chars_of(argument);
    let next_argument: Option<&String> = if at + 1 < arguments.len() {
        Some(&arguments[at + 1])
    } else {
        None
    };
    assert(optional_text(next_argument) == argument_at(texts(arguments@), at + 1));
    if letters.len() < 2 {
        return Err(ParseErr::InvalidArgument(at));
    }
    let second = letters[1];
    let no_value = letters.len() == 2 && next_argument.is_none();
    let mut index: usize = at + 1;
    if second == 'j' {
        if no_value {
            return Err(ParseErr::JobsNoValue);
        }
        match parse_jobs_for(argument, next_argument, &mut index, cores) {
            Ok(ncores) => {
                options.ncores = ncores;
                Ok(Advance::Next(options, index))
            },
            Err(error) => Err(error),
        }
    } else if second == 'n' {
        if no_value {
            return Err(ParseErr::MaxArgsNoValue);
        }
        match parse_max_args(argument, next_argument, &mut index) {
            Ok(max_args) => {
                options.max_args = max_args;
                Ok(Advance::Next(options, index))
            },
            Err(error) => Err(error),
        }
    } else if second != '-' {
        read_letters(options, letters.as_slice(), at)
    } else {
        let name = argument.substring_char(2, letters.len());
        read_long(options, find_long_option(name), arguments, seconds, cores, at)
    }
}

/// Options of one letter lead to the argument after them.
proof fn lemma_letters_move_on(options: Options, argument: Seq<char>, from: int, at: int)
    ensures
        letters_step(options, argument, from, at) matches Step::Next(_, next) ==> next == at + 1,
    decreases argument.len() - from,
{
    if 0 <= from < argument.len() {
        let c = argument[from];
        if c == 'p' {
            lemma_letters_move_on(options.with_flag(PIPE_IS_ENABLED), argument, from + 1, at);
        } else if c == 'q' {
            lemma_letters_move_on(
                Options { quote: Quoting::Basic, ..options },
                argument,
                from + 1,
                at,
            );
        } else if c == 's' {
            lemma_letters_move_on(options.with_flag(QUIET_MODE), argument, from + 1, at);
        } else if c == 'v' {
            lemma_letters_move_on(options.with_flag(VERBOSE_MODE), argument, from + 1, at);
        }
    }
}

/// An option that is accepted leads to an argument after it, or to the end
/// of the arguments.
pub proof fn lemma_option_moves_on(
    options: Options,
    arguments: Seq<Seq<char>>,
    seconds: Seq<Option<u64>>,
    cores: usize,
    at: int,
)
    requires
        0 <= at < arguments.len() <= usize::MAX,
    ensures
        option_step(options, arguments, seconds, cores, at) matches Step::Next(_, next) ==> at
            < next <= arguments.len(),
{
    lemma_letters_move_on(options, arguments[at], 1, at);
}

} // verus!
