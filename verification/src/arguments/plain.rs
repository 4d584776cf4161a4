//! The plain form of the command line: `-j` for the number of jobs, the
//! command, and after `:::` the inputs.

use super::errors::{outcome, ParseErr, ParseError};
use super::options::argument_at;
use crate::command::texts;
use crate::text::{chars_of, parse_number, parsed_number, str_eq, string_of};
use crate::tokenizer::{template_tokens, tokenize, Token};
use vstd::prelude::*;
use vstd::slice::slice_subrange;
use vstd::string::StringExecFns;

verus! {

/// What the plain command line has given so far.
pub struct Plain {
    /// The number of jobs that run at once.
    pub ncores: usize,
    /// The words of the command, a space between each two.
    pub comm: Seq<char>,
    /// Whether a word of the command was read.
    pub command_is_set: bool,
    /// The inputs.
    pub inputs: Seq<Seq<char>>,
}

/// What the arguments from `from` on add to `plain`. `-j` takes the next
/// argument as the number of jobs; after `:::` every argument is an input;
/// any other argument is a word of the command.
pub open spec fn plain_scan(arguments: Seq<Seq<char>>, from: int, plain: Plain) -> Result<
    Plain,
    ParseError,
>
    decreases arguments.len() - from,
{
    if from < 0 || from >= arguments.len() {
        Ok(plain)
    } else if arguments[from] == "-j"@ {
        match argument_at(arguments, from + 1) {
            None => Err(ParseError::JobsNoValue),
            Some(value) => match parsed_number(value) {
                Some(ncores) => plain_scan(arguments, from + 2, Plain { ncores, ..plain }),
                None => Err(ParseError::JobsNaN(value)),
            },
        }
    } else if arguments[from] == ":::"@ {
        Ok(Plain { inputs: arguments.subrange(from + 1, arguments.len() as int), ..plain })
    } else {
        plain_scan(
            arguments,
            from + 1,
            Plain {
                comm: if plain.command_is_set {
                    plain.comm + seq![' '] + arguments[from]
                } else {
                    arguments[from]
                },
                command_is_set: true,
                ..plain
            },
        )
    }
}

/// The position of the first space in `text` at or after `from`, or the
/// length of `text` where there is none.
pub open spec fn first_space(text: Seq<char>, from: int) -> int
    decreases text.len() - from,
{
    if from < 0 || from >= text.len() {
        text.len() as int
    } else if text[from] == ' ' {
        from
    } else {
        first_space(text, from + 1)
    }
}

/// The program of the command `comm`: its first word.
pub open spec fn program_of(comm: Seq<char>) -> Seq<char> {
    comm.subrange(0, first_space(comm, 0))
}

/// The tokens of the arguments of the command `comm`, which are what
/// follows its first space; `tokens` where it has no space.
pub open spec fn argument_tokens(comm: Seq<char>, tokens: Seq<Token>) -> Seq<Token> {
    let space = first_space(comm, 0);
    if space < comm.len() {
        template_tokens(comm.subrange(space + 1, comm.len() as int))
    } else {
        tokens
    }
}

/// Reads the plain command line `raw_args`, which are the arguments after the
/// name of the program. The number of jobs goes to `ncores`, the program to
/// `command`, the tokens of its arguments to `arg_tokens`, and the inputs to
/// the end of `input_variables`. A command line without inputs is an
/// error. On an error nothing is changed.
pub fn parse_arguments(
    raw_args: &[String],
    ncores: &mut usize,
    command: &mut String,
    arg_tokens: &mut Vec<Token>,
    input_variables: &mut Vec<String>,
) -> (result: Result<(), ParseErr>)
    ensures
        match plain_scan(
            texts(raw_args@),
            0,
            Plain {
                ncores: *old(ncores),
                comm: Seq::empty(),
                command_is_set: false,
                inputs: Seq::empty(),
            },
        ) {
            Ok(plain) if old(input_variables)@.len() + plain.inputs.len() > 0 => {
                &&& result is Ok
                &&& *final(ncores) == plain.ncores
                &&& final(command)@ == program_of(plain.comm)
                &&& final(arg_tokens)@ == argument_tokens(plain.comm, old(arg_tokens)@)
                &&& texts(final(input_variables)@) == texts(old(input_variables)@) + plain.inputs
            },
            Ok(_) => {
                &&& outcome(result) == Err::<(), ParseError>(ParseError::InputVarsNotDefined)
                &&& *final(ncores) == *old(ncores)
                &&& *final(command) == *old(command)
                &&& *final(arg_tokens) == *old(arg_tokens)
                &&& *final(input_variables) == *old(input_variables)
            },
            Err(error) => {
                &&& outcome(result) == Err::<(), ParseError>(error)
                &&& *final(ncores) == *old(ncores)
                &&& *final(command) == *old(command)
                &&& *final(arg_tokens) == *old(arg_tokens)
                &&& *final(input_variables) == *old(input_variables)
            },
        },
{
    let ghost all = texts(raw_args@);
    let ghost start = Plain {
        ncores: *ncores,
        comm: Seq::empty(),
        command_is_set: false,
        inputs: Seq::empty(),
    };
    let mut jobs: usize = *ncores;
    let mut comm = String::new();
    let mut command_is_set = false;
    let mut first_input: usize = raw_args.len();
    let mut i: usize = 0;
    assert(all.subrange(all.len() as int, all.len() as int) =~= Seq::<Seq<char>>::empty());
    while i < raw_args.len()
        invariant_except_break
            first_input == raw_args@.len(),
            !command_is_set ==> comm@.len() == 0,
            plain_scan(
                all,
                i as int,
                Plain { ncores: jobs, comm: comm@, command_is_set, inputs: Seq::empty() },
            ) == plain_scan(all, 0, start),
        invariant
            i <= raw_args@.len(),
            all == texts(raw_args@),
            start == (Plain {
                ncores: *old(ncores),
                comm: Seq::empty(),
                command_is_set: false,
                inputs: Seq::empty(),
            }),
            all.subrange(all.len() as int, all.len() as int) == Seq::<Seq<char>>::empty(),
            *ncores == *old(ncores),
            *command == *old(command),
            *arg_tokens == *old(arg_tokens),
            *input_variables == *old(input_variables),
        ensures
            first_input <= raw_args@.len(),
            plain_scan(all, 0, start) == Ok::<Plain, ParseError>(
                Plain {
                    ncores: jobs,
                    comm: comm@,
                    command_is_set,
                    inputs: all.subrange(first_input as int, all.len() as int),
                },
            ),
        decreases raw_args@.len() - i,
    {
        let argument = raw_args[i].as_str();
        if str_eq(argument, "-j") {
            if i + 1 >= raw_args.len() {
                return Err(ParseErr::JobsNoValue);
            }
            let value = raw_args[i + 1].as_str();
            match parse_number(value) {
                Some(number) => {
                    jobs = number;
                },
                None => {
                    return Err(ParseErr::JobsNaN(String::from_str(value)));
                },
            }
            i += 2;
        } else if str_eq(argument, ":::") {
            first_input = i + 1;
            break ;
        } else {
            let ghost words = comm@;
            if command_is_set {
                comm.push(' ');
            }
            comm.append(argument);
            proof {
                if command_is_set {
                    assert(comm@ =~= words + seq![' '] + all[i as int]);
                } else {
                    assert(comm@ =~= all[i as int]);
                }
            }
            command_is_set = true;
            i += 1;
        }
    }
    assert(all.subrange(all.len() as int, all.len() as int) =~= Seq::<Seq<char>>::empty());
    if first_input == raw_args.len() && input_variables.len() == 0 {
        return Err(ParseErr::InputVarsNotDefined);
    }
    let ghost before = input_variables@;
    let mut k: usize = first_input;
    while k < raw_args.len()
        invariant
            first_input <= k <= raw_args@.len(),
            all == texts(raw_args@),
            texts(input_variables@) == texts(before) + all.subrange(first_input as int, k as int),
        decreases raw_args@.len() - k,
    {
        let ghost list = input_variables@;
        input_variables.push(raw_args[k].clone());
        assert(texts(input_variables@) =~= texts(list).push(all[k as int]));
        assert(all.subrange(first_input as int, k + 1) =~= all.subrange(
            first_input as int,
            k as int,
        ).push(all[k as int]));
        k += 1;
    }
    *ncores = jobs;
    let chars = chars_of(comm.as_str());
    let mut space: usize = 0;
    while space < chars.len() && chars[space] != ' '
        invariant
            space <= chars@.len(),
            first_space(chars@, space as int) == first_space(chars@, 0),
        decreases chars@.len() - space,
    {
        space += 1;
    }
    *command = string_of(slice_subrange(chars.as_slice(), 0, space));
    if space < chars.len() {
        let rest = string_of(slice_subrange(chars.as_slice(), space + 1, chars.len()));
        *arg_tokens = tokenize(rest.as_str());
    }
    Ok(())
}

} // verus!
