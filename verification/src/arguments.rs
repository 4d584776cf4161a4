//! Reads the program's arguments: its options, the command template and
//! the lists of inputs.

pub mod errors;
pub mod inputs;
pub mod jobs;
pub mod options;
pub mod plain;
pub mod queue;
pub mod quote;

use self::errors::{outcome, FileError, ParseErr, ParseError};
use self::inputs::{file_contents, inputs_of, parse_inputs, readable_in, Gathered};
use self::jobs::{detected_cores, jobs_of};
use self::options::{
    lemma_option_moves_on, option_step, read_option, Advance, Notice, Options, Step,
};
use self::queue::{
    combination_count, combined, encoded, lists_of_texts, queue, records, same_file,
    write_inputs_to_disk,
};
use self::quote::{basic_quoted, shell_quoted};
use crate::command::texts;
use crate::disk_buffer::DiskBufferWriter;
use crate::permutations::combinations;
use crate::text::{parse_number, parsed_number, str_eq};
use crate::tokenizer::{Token, TokenVec};
use vstd::prelude::*;
use vstd::string::StringExecFns;

verus! {

/// The inputs are themselves the commands to run.
pub const INPUTS_ARE_COMMANDS: u8 = 1;

/// Each input is sent to its command's standard input.
pub const PIPE_IS_ENABLED: u8 = 2;

/// The command runs in a shell.
pub const SHELL_ENABLED: u8 = 4;

/// What the commands print to their standard output is dropped.
pub const QUIET_MODE: u8 = 8;

/// Each job is announced when it starts and when it ends.
pub const VERBOSE_MODE: u8 = 16;

/// The `dash` shell is there to be used.
pub const DASH_EXISTS: u8 = 32;

/// The commands are printed and not run.
pub const DRY_RUN: u8 = 64;

/// What the argument that is read belongs to.
#[derive(Clone, Copy, Debug, PartialEq, Eq, Structural)]
pub enum Mode {
    /// The options of this program.
    Arguments,
    /// The command template.
    Command,
    /// A list of inputs.
    Inputs,
    /// Inputs that are joined to those of the list before.
    InputsAppend,
    /// Files that hold a list of inputs, one on each line.
    Files,
    /// Files whose lines are joined to the inputs of the list before.
    FilesAppend,
}

/// How the command template is quoted before it is expanded.
#[derive(Clone, Copy, Debug, PartialEq, Eq, Structural)]
pub enum Quoting {
    /// It is used as it stands.
    AsIs,
    /// It is put between single quotes.
    Basic,
    /// Its special characters are escaped as well.
    Shell,
}

/// The shorter of two lengths.
pub open spec fn shorter(a: nat, b: nat) -> nat {
    if a <= b {
        a
    } else {
        b
    }
}

/// Two lists joined item by item: each item of `original` with a space and
/// the item of `append` at the same position. The result is as long as the
/// shorter of the two.
pub open spec fn zipped(original: Seq<Seq<char>>, append: Seq<Seq<char>>) -> Seq<Seq<char>> {
    Seq::new(shorter(original.len(), append.len()), |i: int| original[i] + seq![' '] + append[i])
}

/// Joins the items of `append` to the items of `original`, and empties
/// `append`. What the longer list has beyond the shorter one is lost.
pub fn merge_lists(original: &mut Vec<String>, append: &mut Vec<String>)
    ensures
        texts(final(original)@) == zipped(texts(old(original)@), texts(old(append)@)),
        final(append)@.len() == 0,
{
    let n: usize = if original.len() <= append.len() {
        original.len()
    } else {
        append.len()
    };
    let mut merged: Vec<String> = Vec::new();
    let mut i: usize = 0;
    while i < n
        invariant
            i <= n,
            n == shorter(original@.len(), append@.len()),
            merged@.len() == i,
            forall|k: int|
                0 <= k < i ==> (#[trigger] merged@[k])@ == original@[k]@ + seq![' '] + append@[k]@,
        decreases n - i,
    {
        let mut item = original[i].clone();
        item.push(' ');
        item.append(append[i].as_str());
        merged.push(item);
        i += 1;
    }
    assert(texts(merged@) =~= zipped(texts(original@), texts(append@)));
    *original = merged;
    append.clear();
}

/// The value of the option `argument`: what follows the option's two
/// characters, or, where nothing does, the argument after it, `next_argument`.
pub open spec fn option_value(argument: Seq<char>, next_argument: Option<Seq<char>>) -> Option<
    Seq<char>,
> {
    if argument.len() > 2 {
        Some(argument.subrange(2, argument.len() as int))
    } else {
        next_argument
    }
}

/// The position of the argument that holds the value of the option
/// `argument`, which stands right before the position `index`.
pub open spec fn value_position(argument: Seq<char>, index: usize) -> usize {
    if argument.len() > 2 {
        (index - 1) as usize
    } else {
        index
    }
}

/// The position of the first argument after the option `argument`, which
/// stands right before the position `index`, and after its value.
pub open spec fn after_value(argument: Seq<char>, index: usize) -> usize {
    if argument.len() > 2 {
        index
    } else {
        (index + 1) as usize
    }
}

/// What a string that may be missing holds.
pub open spec fn optional_text(text: Option<&String>) -> Option<Seq<char>> {
    match text {
        Some(text) => Some(text@),
        None => None,
    }
}

/// The number of inputs that each job gets, as `argument` gives it: `-n3`,
/// or `-n` with `next_argument`.
pub open spec fn max_args_of(
    argument: Seq<char>,
    next_argument: Option<Seq<char>>,
    index: usize,
) -> Result<usize, ParseError> {
    match option_value(argument, next_argument) {
        None => Err(ParseError::MaxArgsNoValue),
        Some(value) => match parsed_number(value) {
            Some(number) => Ok(number),
            None => Err(ParseError::MaxArgsNaN(value_position(argument, index))),
        },
    }
}

/// The number of jobs to run at once on a machine with `cores` processors,
/// as `argument` gives it: `-j3`, or `-j` with `next_argument`.
pub open spec fn jobs_argument_of(
    argument: Seq<char>,
    next_argument: Option<Seq<char>>,
    cores: usize,
) -> Result<usize, ParseError> {
    match option_value(argument, next_argument) {
        None => Err(ParseError::JobsNoValue),
        Some(value) => jobs_of(value, cores),
    }
}

fn value_of<'a>(argument: &'a str, next_argument: Option<&'a String>, index: &mut usize) -> (value:
    Option<&'a str>)
    requires
        argument@.len() <= 2 ==> *old(index) < usize::MAX,
    ensures
        match value {
            Some(value) => option_value(argument@, optional_text(next_argument)) == Some(value@),
            None => option_value(argument@, optional_text(next_argument)) is None,
        },
        *final(index) == after_value(argument@, *old(index)),
{
    let length = argument.unicode_len();
    if length > 2 {
        Some(argument.substring_char(2, length))
    } else {
        *index += 1;
        match next_argument {
            Some(next) => Some(next.as_str()),
            None => None,
        }
    }
}

/// Reads the number of inputs for each job from the option `argument`, which
/// stands before the position `index`. Where the value stands in an argument
/// of its own, `next_argument`, `index` is moved past it.
pub fn parse_max_args(argument: &str, next_argument: Option<&String>, index: &mut usize) -> (number:
    Result<usize, ParseErr>)
    requires
        0 < *old(index),
        argument@.len() <= 2 ==> *old(index) < usize::MAX,
    ensures
        outcome(number) == max_args_of(argument@, optional_text(next_argument), *old(index)),
        *final(index) == after_value(argument@, *old(index)),
{
    let position: usize = if argument.unicode_len() > 2 {
        *index - 1
    } else {
        *index
    };
    match value_of(argument, next_argument, index) {
        None => Err(ParseErr::MaxArgsNoValue),
        Some(value) => match parse_number(value) {
            Some(number) => Ok(number),
            None => Err(ParseErr::MaxArgsNaN(position)),
        },
    }
}

/// Reads the number of jobs to run at once on a machine with `cores`
/// processors from the option `argument`, which stands before the position
/// `index`. Where the value stands in an argument of its own,
/// `next_argument`, `index` is moved past it.
pub fn parse_jobs_for(
    argument: &str,
    next_argument: Option<&String>,
    index: &mut usize,
    cores: usize,
) -> (ncores: Result<usize, ParseErr>)
    requires
        argument@.len() <= 2 ==> *old(index) < usize::MAX,
    ensures
        outcome(ncores) == jobs_argument_of(argument@, optional_text(next_argument), cores),
        *final(index) == after_value(argument@, *old(index)),
{
    match value_of(argument, next_argument, index) {
        None => Err(ParseErr::JobsNoValue),
        Some(value) => jobs::parse_for(value, cores),
    }
}

/// Reads the number of jobs to run at once on this machine from the option
/// `argument`. The result is that of `parse_jobs_for` with the number of
/// processors that the machine reports.
pub fn parse_jobs(argument: &str, next_argument: Option<&String>, index: &mut usize) -> (ncores:
    Result<usize, ParseErr>)
    requires
        argument@.len() <= 2 ==> *old(index) < usize::MAX,
    ensures
        exists|cores: usize|
            cores >= 1 && outcome(ncores) == jobs_argument_of(
                argument@,
                optional_text(next_argument),
                cores,
            ),
        *final(index) == after_value(argument@, *old(index)),
{
    let cores = detected_cores();
    parse_jobs_for(argument, next_argument, index, cores)
}

/// The options and arguments that the program was started with.
pub struct Args {
    /// The modes that are switched on, one bit each.
    pub flags: u8,
    /// The number of jobs that run at once.
    pub ncores: usize,
    /// The number of records in the queue.
    pub ninputs: usize,
    /// The time between the starts of two jobs, in milliseconds.
    pub delay: u64,
    /// The time that a job may take, in milliseconds; zero for as long as it needs.
    pub timeout: u64,
    /// The tokens of the command template.
    pub arguments: TokenVec,
}

/// Where the reading of the options ended.
#[derive(Clone, Copy, Debug, PartialEq, Eq, Structural)]
pub struct Scan {
    /// What the arguments from `index` on are: `Inputs` or `Files` where
    /// lists of inputs follow; `Command` where a command was given without
    /// inputs, `Arguments` where not even a command was given: then the
    /// inputs come from the standard input.
    pub mode: Mode,
    /// The position of the first argument that was not read.
    pub index: usize,
    /// The number of inputs that each job gets.
    pub max_args: usize,
    /// How the command template is quoted.
    pub quote: Quoting,
}

impl Scan {
    /// Whether the inputs come from the standard input: they do where the
    /// arguments open no list.
    pub fn reads_stdin(&self) -> (stdin: bool)
        ensures
            stdin == (self.mode is Arguments || self.mode is Command),
    {
        match self.mode {
            Mode::Arguments => true,
            Mode::Command => true,
            _ => false,
        }
    }
}

/// What the program does once its options are read.
#[derive(Clone, Copy, Debug, PartialEq, Eq, Structural)]
pub enum Parsed {
    /// It prints a notice and leaves.
    Exit(Notice),
    /// It goes on to gather its inputs.
    Continue(Scan),
}

/// What the arguments lead to.
pub enum Scanned {
    /// An argument is refused.
    Failed(ParseError),
    /// The program prints a notice and leaves.
    Left(Notice),
    /// The options are read, and with them the command that was given.
    Done { options: Options, mode: Mode, index: int, command: Seq<char> },
}

/// Whether `argument` begins with a dash.
pub open spec fn is_option(argument: Seq<char>) -> bool {
    argument.len() > 0 && argument[0] == '-'
}

/// Whether `argument` introduces a list of inputs.
pub open spec fn opens_inputs(argument: Seq<char>) -> bool {
    argument == ":::"@ || argument == ":::+"@
}

/// Whether `argument` introduces a list of files of inputs.
pub open spec fn opens_files(argument: Seq<char>) -> bool {
    argument == "::::"@ || argument == "::::+"@
}

/// What the arguments from `from` on lead to once the command has begun:
/// they are words of the command, a space before each, up to the first one
/// that introduces a list.
pub open spec fn command_words(
    options: Options,
    arguments: Seq<Seq<char>>,
    from: int,
    command: Seq<char>,
) -> Scanned
    decreases arguments.len() - from,
{
    if from < 0 || from >= arguments.len() {
        Scanned::Done { options, mode: Mode::Command, index: arguments.len() as int, command }
    } else if opens_inputs(arguments[from]) {
        Scanned::Done { options, mode: Mode::Inputs, index: from + 1, command }
    } else if opens_files(arguments[from]) {
        Scanned::Done { options, mode: Mode::Files, index: from + 1, command }
    } else {
        command_words(options, arguments, from + 1, command + seq![' '] + arguments[from])
    }
}

/// What the arguments from `at` on lead to while options are read, on a
/// machine with `cores` processors. Options come first. The first argument
/// that is none is the command, unless it introduces a list: then the
/// inputs are themselves the commands. (An option that is accepted always
/// leads on, as `lemma_option_moves_on` shows.)
pub open spec fn scanned(
    options: Options,
    arguments: Seq<Seq<char>>,
    seconds: Seq<Option<u64>>,
    cores: usize,
    at: int,
) -> Scanned
    decreases arguments.len() - at,
{
    if at < 0 || at >= arguments.len() {
        Scanned::Done {
            options,
            mode: Mode::Arguments,
            index: arguments.len() as int,
            command: Seq::empty(),
        }
    } else if is_option(arguments[at]) {
        match option_step(options, arguments, seconds, cores, at) {
            Step::Next(next_options, next) => if at < next <= arguments.len() {
                scanned(next_options, arguments, seconds, cores, next)
            } else {
                Scanned::Failed(ParseError::InvalidArgument(at as usize))
            },
            Step::Leave(notice) => Scanned::Left(notice),
            Step::Fail(error) => Scanned::Failed(error),
        }
    } else if arguments[at] == ":::"@ {
        Scanned::Done {
            options: options.with_flag(INPUTS_ARE_COMMANDS),
            mode: Mode::Inputs,
            index: at + 1,
            command: Seq::empty(),
        }
    } else if arguments[at] == "::::"@ {
        Scanned::Done {
            options: options.with_flag(INPUTS_ARE_COMMANDS),
            mode: Mode::Files,
            index: at + 1,
            command: Seq::empty(),
        }
    } else {
        command_words(options, arguments, at + 1, arguments[at])
    }
}

fn starts_with_dash(argument: &str) -> (dash: bool)
    ensures
        dash == is_option(argument@),
{
    !argument.is_empty() && argument.get_char(0) == '-'
}

fn read_command(arguments: &[String], from: usize, command: &mut String) -> (end: (Mode, usize))
    requires
        from <= arguments@.len(),
    ensures
        forall|options: Options|
            command_words(options, texts(arguments@), from as int, old(command)@)
                == (Scanned::Done {
                options,
                mode: end.0,
                index: end.1 as int,
                command: final(command)@,
            }),
        end.1 <= arguments@.len(),
        end.0 is Command ==> end.1 == arguments@.len(),
        end.0 is Command || end.0 is Inputs || end.0 is Files,
{
    let ghost all = texts(arguments@);
    let mut i: usize = from;
    while i < arguments.len()
        invariant
            from <= i <= arguments@.len(),
            all == texts(arguments@),
            forall|options: Options|
                command_words(options, all, i as int, command@) == command_words(
                    options,
                    all,
                    from as int,
                    old(command)@,
                ),
        decreases arguments@.len() - i,
    {
        let argument = arguments[i].as_str();
        if str_eq(argument, ":::") || str_eq(argument, ":::+") {
            return (Mode::Inputs, i + 1);
        } else if str_eq(argument, "::::") || str_eq(argument, "::::+") {
            return (Mode::Files, i + 1);
        }
        let ghost before = command@;
        command.push(' ');
        command.append(argument);
        assert(command@ =~= before + seq![' '] + all[i as int]);
        i += 1;
    }
    (Mode::Command, i)
}

impl Args {
    /// What the options are before any argument is read.
    pub open spec fn options(self) -> Options {
        Options {
            flags: self.flags,
            ncores: self.ncores,
            delay: self.delay,
            timeout: self.timeout,
            max_args: 0,
            quote: Quoting::AsIs,
        }
    }

    /// Whether `result`, `after` and `comm_after` are what reading
    /// `arguments` on a machine with `cores` processors makes of these
    /// settings and of a command text that holds `comm`.
    pub open spec fn parsed_as(
        self,
        comm: Seq<char>,
        arguments: Seq<Seq<char>>,
        seconds: Seq<Option<u64>>,
        cores: usize,
        result: Result<Parsed, ParseErr>,
        after: Args,
        comm_after: Seq<char>,
    ) -> bool {
        match scanned(self.options(), arguments, seconds, cores, 1) {
            Scanned::Failed(error) => {
                &&& outcome(result) == Err::<Parsed, ParseError>(error)
                &&& after == self
                &&& comm_after == comm
            },
            Scanned::Left(notice) => {
                &&& result matches Ok(Parsed::Exit(left))
                &&& left == notice
                &&& after == self
                &&& comm_after == comm
            },
            Scanned::Done { options, mode, index, command } => {
                &&& result matches Ok(Parsed::Continue(scan))
                &&& scan == (Scan {
                    mode,
                    index: index as usize,
                    max_args: options.max_args,
                    quote: options.quote,
                })
                &&& index <= arguments.len()
                &&& (mode is Arguments || mode is Command) ==> index == arguments.len()
                &&& mode is Arguments || mode is Command || mode is Inputs || mode is Files
                &&& after.flags == options.flags
                &&& after.ncores == options.ncores
                &&& after.delay == options.delay
                &&& after.timeout == options.timeout
                &&& after.ninputs == self.ninputs
                &&& after.arguments == self.arguments
                &&& comm_after == comm + command
            },
        }
    }

    /// The settings of a program that was given no options and runs `ncores`
    /// jobs at once.
    pub fn with_cores(ncores: usize) -> (args: Args)
        ensures
            args.flags == 0,
            args.ncores == ncores,
            args.ninputs == 0,
            args.delay == 0,
            args.timeout == 0,
            args.arguments@ == Seq::<Token>::empty(),
    {
        Args { flags: 0, ncores, ninputs: 0, delay: 0, timeout: 0, arguments: TokenVec::new() }
    }

    /// The settings of a program that was given no options: it runs as many
    /// jobs at once as the machine has processors, which is at least one.
    pub fn new() -> (args: Args)
        ensures
            args.flags == 0,
            args.ncores >= 1,
            args.ninputs == 0,
            args.delay == 0,
            args.timeout == 0,
            args.arguments@ == Seq::<Token>::empty(),
    {
        Args::with_cores(detected_cores())
    }

    /// Reads the options and the command from `arguments`, of which the
    /// first is the name of the program, on a machine with `cores`
    /// processors. `seconds` holds for each argument the milliseconds that it
    /// gives when it is read as a number of seconds. The command is put at
    /// the end of `comm`. Nothing is changed unless the result is
    /// `Parsed::Continue`.
    pub fn parse_for(
        &mut self,
        comm: &mut String,
        arguments: &[String],
        seconds: &[Option<u64>],
        cores: usize,
    ) -> (result: Result<Parsed, ParseErr>)
        ensures
            old(self).parsed_as(
                old(comm)@,
                texts(arguments@),
                seconds@,
                cores,
                result,
                *final(self),
                final(comm)@,
            ),
    {
        let ghost all = texts(arguments@);
        let ghost start = self.options();
        let mut options = Options {
            flags: self.flags,
            ncores: self.ncores,
            delay: self.delay,
            timeout: self.timeout,
            max_args: 0,
            quote: Quoting::AsIs,
        };
        let mut command = String::new();
        let mut mode = Mode::Arguments;
        let mut at: usize = 1;
        if at > arguments.len() {
            at = arguments.len();
        }
        while at < arguments.len()
            invariant_except_break
                mode == Mode::Arguments,
                command@ == Seq::<char>::empty(),
                scanned(options, all, seconds@, cores, at as int) == scanned(
                    start,
                    all,
                    seconds@,
                    cores,
                    1,
                ),
            invariant
                at <= arguments@.len(),
                all == texts(arguments@),
                *self == *old(self),
                comm@ == old(comm)@,
                start == old(self).options(),
            ensures
                at <= arguments@.len(),
                (mode is Arguments || mode is Command) ==> at == arguments@.len(),
                mode is Arguments || mode is Command || mode is Inputs || mode is Files,
                *self == *old(self),
                comm@ == old(comm)@,
                scanned(start, all, seconds@, cores, 1) == (Scanned::Done {
                    options,
                    mode,
                    index: at as int,
                    command: command@,
                }),
            decreases arguments@.len() - at,
        {
            let argument = arguments[at].as_str();
            if starts_with_dash(argument) {
                proof {
                    lemma_option_moves_on(options, all, seconds@, cores, at as int);
                }
                match read_option(options, arguments, seconds, cores, at) {
                    Ok(Advance::Next(next_options, next)) => {
                        options = next_options;
                        at = next;
                    },
                    Ok(Advance::Leave(notice)) => {
                        return Ok(Parsed::Exit(notice));
                    },
                    Err(error) => {
                        return Err(error);
                    },
                }
            } else if str_eq(argument, ":::") {
                options.flags = options.flags | INPUTS_ARE_COMMANDS;
                mode = Mode::Inputs;
                at = at + 1;
                break ;
            } else if str_eq(argument, "::::") {
                options.flags = options.flags | INPUTS_ARE_COMMANDS;
                mode = Mode::Files;
                at = at + 1;
                break ;
            } else {
                command.append(argument);
                assert(command@ =~= all[at as int]);
                let end = read_command(arguments, at + 1, &mut command);
                mode = end.0;
                at = end.1;
                break ;
            }
        }
        self.flags = options.flags;
        self.ncores = options.ncores;
        self.delay = options.delay;
        self.timeout = options.timeout;
        comm.append(command.as_str());
        Ok(
            Parsed::Continue(
                Scan { mode, index: at, max_args: options.max_args, quote: options.quote },
            ),
        )
    }

    /// Reads the options and the command from `arguments` on this machine.
    /// The result is that of `parse_for` with the number of processors that
    /// the machine reports.
    pub fn parse(&mut self, comm: &mut String, arguments: &[String], seconds: &[Option<u64>]) -> (result:
        Result<Parsed, ParseErr>)
        ensures
            exists|cores: usize|
                cores >= 1 && #[trigger] old(self).parsed_as(
                    old(comm)@,
                    texts(arguments@),
                    seconds@,
                    cores,
                    result,
                    *final(self),
                    final(comm)@,
                ),
    {
        let cores = detected_cores();
        self.parse_for(comm, arguments, seconds, cores)
    }
}

/// The inputs of the jobs that the gathered lists give: with two lists or
/// more every combination of their items, else the items of the one list.
pub open spec fn gathered_items(gathered: Gathered) -> Seq<Seq<u8>> {
    if gathered.lists.len() > 1 {
        combined(gathered.lists)
    } else {
        encoded(gathered.current)
    }
}

/// What `queue_inputs` makes of the arguments from the position `index` on,
/// which are read in `mode` first: the inputs of the jobs, or why there are none.
pub open spec fn queued_inputs(
    arguments: Seq<Seq<char>>,
    index: int,
    mode: Mode,
    files: Seq<Option<Seq<Seq<char>>>>,
) -> Result<Seq<Seq<u8>>, ParseError> {
    let start = Gathered {
        mode,
        current: Seq::empty(),
        append: Seq::empty(),
        lists: Seq::empty(),
        files: 0,
    };
    match inputs_of(arguments, index, files, start) {
        Err(position) => Err(ParseError::File(FileError::Open(arguments[position]))),
        Ok(gathered) => if gathered.lists.len() > 1 && combinations(gathered.lists)
            > usize::MAX {
            Err(ParseError::TooManyInputs)
        } else {
            Ok(gathered_items(gathered))
        },
    }
}

/// Gathers the lists of inputs from the arguments that `scan` left unread
/// and writes the inputs of the jobs to the queue. `files` holds the lines of
/// the files that `file_arguments` names. Returns the number of records. On
/// an error nothing is written.
pub fn queue_inputs(
    arguments: &[String],
    scan: &Scan,
    files: &[Option<Vec<String>>],
    disk_buffer: &mut DiskBufferWriter,
) -> (number_of_arguments: Result<usize, ParseErr>)
    requires
        readable_in(texts(arguments@), scan.index as int, scan.mode),
    ensures
        same_file(*old(disk_buffer), *final(disk_buffer)),
        match queued_inputs(
            texts(arguments@),
            scan.index as int,
            scan.mode,
            file_contents(files@),
        ) {
            Ok(items) => {
                &&& number_of_arguments matches Ok(count)
                &&& count == records(items.len(), scan.max_args)
                &&& final(disk_buffer).written() == old(disk_buffer).written() + queue(
                    items,
                    scan.max_args,
                )
            },
            Err(error) => {
                &&& outcome(number_of_arguments) == Err::<usize, ParseError>(error)
                &&& *final(disk_buffer) == *old(disk_buffer)
            },
        },
{
    let mut current_inputs: Vec<String> = Vec::new();
    let mut lists: Vec<Vec<String>> = Vec::new();
    let mut mode = scan.mode;
    assert(texts(current_inputs@) =~= Seq::<Seq<char>>::empty());
    assert(lists_of_texts(lists@) =~= Seq::<Seq<Seq<char>>>::empty());
    match parse_inputs(arguments, scan.index, files, &mut current_inputs, &mut lists, &mut mode) {
        Ok(()) => {},
        Err(error) => {
            return Err(error);
        },
    }
    if lists.len() > 1 && combination_count(&lists).is_none() {
        return Err(ParseErr::TooManyInputs);
    }
    Ok(write_inputs_to_disk(lists, current_inputs, scan.max_args, disk_buffer))
}

/// `command` as `quote` has it quoted.
pub open spec fn quoted_as(quote: Quoting, command: Seq<char>) -> Seq<char> {
    match quote {
        Quoting::AsIs => command,
        Quoting::Basic => basic_quoted(command),
        Quoting::Shell => shell_quoted(command),
    }
}

impl Args {
    /// Ends the reading of the arguments once `number_of_arguments` records
    /// are in the queue: the buffer goes to the file, the command is quoted
    /// as `quote` says, and the number of records is noted. Without any
    /// record there is nothing to run: that is an error, and nothing is changed.
    pub fn complete(
        &mut self,
        comm: &mut String,
        quote: Quoting,
        number_of_arguments: usize,
        disk_buffer: &mut DiskBufferWriter,
    ) -> (result: Result<(), ParseErr>)
        ensures
            number_of_arguments == 0 ==> {
                &&& outcome(result) == Err::<(), ParseError>(ParseError::NoArguments)
                &&& *final(self) == *old(self)
                &&& final(comm)@ == old(comm)@
                &&& *final(disk_buffer) == *old(disk_buffer)
            },
            number_of_arguments > 0 ==> {
                &&& result is Ok
                &&& final(self).ninputs == number_of_arguments
                &&& final(self).flags == old(self).flags
                &&& final(self).ncores == old(self).ncores
                &&& final(self).delay == old(self).delay
                &&& final(self).timeout == old(self).timeout
                &&& final(self).arguments == old(self).arguments
                &&& final(comm)@ == quoted_as(quote, old(comm)@)
                &&& old(disk_buffer).after_flush(*final(disk_buffer))
            },
    {
        if number_of_arguments == 0 {
            return Err(ParseErr::NoArguments);
        }
        disk_buffer.flush();
        match quote {
            Quoting::AsIs => {},
            Quoting::Basic => {
                *comm = quote::basic(comm.as_str());
            },
            Quoting::Shell => {
                *comm = quote::shell(comm.as_str());
            },
        }
        self.ninputs = number_of_arguments;
        Ok(())
    }
}

} // verus!
