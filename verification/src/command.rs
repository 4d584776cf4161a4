//! Builds the command of one job from the tokens of the template and the
//! job's input.

use crate::text::{append_decimal, chars_of, decimal, is_space, is_whitespace, string_of};
use crate::tokenizer::Token;
use vstd::prelude::*;
use vstd::slice::slice_subrange;
use vstd::string::StringExecFns;

verus! {

/// The position of the last `c` in `text`, or -1 where `text` holds none.
pub open spec fn last_position(text: Seq<char>, c: char) -> int
    decreases text.len(),
{
    if text.len() == 0 {
        -1
    } else if text.last() == c {
        text.len() - 1
    } else {
        last_position(text.drop_last(), c)
    }
}

/// `input` up to its last `.`; all of it where it has none.
pub open spec fn without_extension(input: Seq<char>) -> Seq<char> {
    let dot = last_position(input, '.');
    if dot < 0 {
        input
    } else {
        input.subrange(0, dot)
    }
}

/// `input` after its last `/`; all of it where it has none.
pub open spec fn base_name(input: Seq<char>) -> Seq<char> {
    let slash = last_position(input, '/');
    if slash < 0 {
        input
    } else {
        input.subrange(slash + 1, input.len() as int)
    }
}

/// `input` up to its last `/`; all of it where it has none.
pub open spec fn dir_name(input: Seq<char>) -> Seq<char> {
    let slash = last_position(input, '/');
    if slash < 0 {
        input
    } else {
        input.subrange(0, slash)
    }
}

/// `last_position` is -1 exactly where `c` does not occur, and otherwise the
/// greatest position that holds `c`.
proof fn lemma_last_position(text: Seq<char>, c: char)
    ensures
        -1 <= last_position(text, c) < text.len(),
        last_position(text, c) >= 0 ==> text[last_position(text, c)] == c,
        forall|k: int| last_position(text, c) < k < text.len() ==> text[k] != c,
    decreases text.len(),
{
    if text.len() > 0 && text.last() != c {
        let shorter = text.drop_last();
        lemma_last_position(shorter, c);
        assert forall|k: int| last_position(text, c) < k < text.len() implies text[k] != c by {
            if k < shorter.len() {
                assert(shorter[k] == text[k]);
            }
        }
    }
}

/// A position that holds `c` and has no `c` after it is the last position of `c`.
proof fn lemma_last_position_is(text: Seq<char>, c: char, at: int)
    requires
        -1 <= at < text.len(),
        at >= 0 ==> text[at] == c,
        forall|k: int| at < k < text.len() ==> text[k] != c,
    ensures
        last_position(text, c) == at,
{
    lemma_last_position(text, c);
}

fn find_last(text: &[char], c: char) -> (at: Option<usize>)
    ensures
        match at {
            Some(i) => i == last_position(text@, c) && i < text@.len(),
            None => last_position(text@, c) == -1,
        },
{
    let mut i: usize = text.len();
    while i > 0
        invariant
            i <= text@.len(),
            forall|k: int| i <= k < text@.len() ==> text@[k] != c,
        decreases i,
    {
        i -= 1;
        if text[i] == c {
            proof {
                lemma_last_position_is(text@, c, i as int);
            }
            return Some(i);
        }
    }
    proof {
        lemma_last_position_is(text@, c, -1);
    }
    None
}

/// `input` without its extension: what stands before its last `.`.
pub fn remove_extension(input: &str) -> (stem: &str)
    ensures
        stem@ == without_extension(input@),
{
    let chars = chars_of(input);
    match find_last(chars.as_slice(), '.') {
        Some(dot) => input.substring_char(0, dot),
        None => input,
    }
}

/// `input` without its directory: what stands after its last `/`.
pub fn basename(input: &str) -> (name: &str)
    ensures
        name@ == base_name(input@),
{
    let chars = chars_of(input);
    match find_last(chars.as_slice(), '/') {
        Some(slash) => {
            assert(slash < chars.len());
            input.substring_char(slash + 1, chars.len())
        },
        None => input,
    }
}

/// The directory of `input`: what stands before its last `/`.
pub fn dirname(input: &str) -> (directory: &str)
    ensures
        directory@ == dir_name(input@),
{
    let chars = chars_of(input);
    match find_last(chars.as_slice(), '/') {
        Some(slash) => input.substring_char(0, slash),
        None => input,
    }
}

/// What `token` contributes to the command of a job with the given input,
/// slot number and job number.
pub open spec fn token_expansion(token: Token, input: Seq<char>, slot: nat, job: nat) -> Seq<char> {
    match token {
        Token::Character(c) => seq![c],
        Token::Placeholder => input,
        Token::RemoveExtension => without_extension(input),
        Token::Basename => base_name(input),
        Token::Dirname => dir_name(input),
        Token::BaseAndExt => base_name(without_extension(input)),
        Token::Slot => decimal(slot),
        Token::Job => decimal(job),
    }
}

/// The expansions of `tokens`, one after another.
pub open spec fn expansion(tokens: Seq<Token>, input: Seq<char>, slot: nat, job: nat) -> Seq<char>
    decreases tokens.len(),
{
    if tokens.len() == 0 {
        Seq::empty()
    } else {
        expansion(tokens.drop_last(), input, slot, job) + token_expansion(
            tokens.last(),
            input,
            slot,
            job,
        )
    }
}

/// Whether any of `tokens` is more than a literal character.
pub open spec fn has_placeholder(tokens: Seq<Token>) -> bool {
    exists|i: int| 0 <= i < tokens.len() && !((#[trigger] tokens[i]) is Character)
}

/// The text of the command of one job. A template without any placeholder
/// gets the input as a last argument.
pub open spec fn command_text(tokens: Seq<Token>, input: Seq<char>, slot: nat, job: nat) -> Seq<
    char,
> {
    if has_placeholder(tokens) {
        expansion(tokens, input, slot, job)
    } else {
        expansion(tokens, input, slot, job) + seq![' '] + input
    }
}

/// The first position at or after `from` that holds white space, or the
/// length of `text` where there is none.
pub open spec fn word_end(text: Seq<char>, from: int) -> int
    decreases text.len() - from,
{
    if from >= text.len() {
        text.len() as int
    } else if is_space(text[from]) {
        from
    } else {
        word_end(text, from + 1)
    }
}

/// The words of `text` from `from` on: its longest runs of characters
/// that are not white space, in order.
pub open spec fn words_from(text: Seq<char>, from: int) -> Seq<Seq<char>>
    decreases text.len() - from,
{
    if from < 0 || from >= text.len() {
        Seq::empty()
    } else if is_space(text[from]) {
        words_from(text, from + 1)
    } else {
        let end = word_end(text, from + 1);
        if from < end <= text.len() {
            seq![text.subrange(from, end)] + words_from(text, end)
        } else {
            Seq::empty()
        }
    }
}

/// The words of `text`.
pub open spec fn words(text: Seq<char>) -> Seq<Seq<char>> {
    words_from(text, 0)
}

/// What each string of `strings` holds.
pub open spec fn texts(strings: Seq<String>) -> Seq<Seq<char>> {
    Seq::new(strings.len(), |i: int| strings[i]@)
}

/// Splits `text` into its words.
pub fn split_words(text: &[char]) -> (list: Vec<String>)
    ensures
        texts(list@) == words(text@),
{
    let mut list: Vec<String> = Vec::new();
    let mut i: usize = 0;
    while i < text.len()
        invariant
            i <= text@.len(),
            texts(list@) + words_from(text@, i as int) == words_from(text@, 0),
        decreases text@.len() - i,
    {
        if is_whitespace(text[i]) {
            i += 1;
        } else {
            let mut j: usize = i + 1;
            while j < text.len() && !is_whitespace(text[j])
                invariant
                    i < j <= text@.len(),
                    word_end(text@, j as int) == word_end(text@, i + 1),
                decreases text@.len() - j,
            {
                j += 1;
            }
            let word = string_of(slice_subrange(text, i, j));
            let ghost before = list@;
            list.push(word);
            proof {
                assert(texts(list@) =~= texts(before).push(text@.subrange(i as int, j as int)));
                assert(texts(list@) + words_from(text@, j as int) =~= texts(before) + (seq![
                    text@.subrange(i as int, j as int),
                ] + words_from(text@, j as int)));
            }
            i = j;
        }
    }
    assert(words_from(text@, i as int) =~= Seq::<Seq<char>>::empty());
    list
}

fn has_any_placeholder(tokens: &[Token]) -> (found: bool)
    ensures
        found == has_placeholder(tokens@),
{
    let mut i: usize = 0;
    while i < tokens.len()
        invariant
            i <= tokens@.len(),
            forall|k: int| 0 <= k < i ==> (#[trigger] tokens@[k]) is Character,
        decreases tokens@.len() - i,
    {
        match tokens[i] {
            Token::Character(_) => {},
            _ => {
                return true;
            },
        }
        i += 1;
    }
    false
}

/// The text of the command that the template `arg_tokens` gives for
/// `input`, in the slot `slot_id` and as the job `job_id`.
pub fn expand(input: &str, arg_tokens: &[Token], slot_id: usize, job_id: usize) -> (command: String)
    ensures
        command@ == command_text(arg_tokens@, input@, slot_id as nat, job_id as nat),
{
    let mut command = String::new();
    let mut i: usize = 0;
    while i < arg_tokens.len()
        invariant
            i <= arg_tokens@.len(),
            command@ == expansion(
                arg_tokens@.subrange(0, i as int),
                input@,
                slot_id as nat,
                job_id as nat,
            ),
        decreases arg_tokens@.len() - i,
    {
        let ghost before = command@;
        match arg_tokens[i] {
            Token::Character(c) => {
                command.push(c);
                assert(command@ =~= before + seq![c]);
            },
            Token::Placeholder => command.append(input),
            Token::RemoveExtension => command.append(remove_extension(input)),
            Token::Basename => command.append(basename(input)),
            Token::Dirname => command.append(dirname(input)),
            Token::BaseAndExt => command.append(basename(remove_extension(input))),
            Token::Slot => append_decimal(&mut command, slot_id),
            Token::Job => append_decimal(&mut command, job_id),
        }
        proof {
            assert(arg_tokens@.subrange(0, i + 1).drop_last() =~= arg_tokens@.subrange(
                0,
                i as int,
            ));
        }
        i += 1;
    }
    assert(arg_tokens@.subrange(0, i as int) =~= arg_tokens@);
    if !has_any_placeholder(arg_tokens) {
        command.push(' ');
        command.append(input);
    }
    command
}

/// The words of the command that the template `arg_tokens` gives for
/// `input` in the slot `slot_id` and as the job `job_id`: what stands
/// between the white space of its text.
pub fn cmd_builder(input: &str, arg_tokens: &[Token], slot_id: usize, job_id: usize) -> (arguments:
    Vec<String>)
    ensures
        texts(arguments@) == words(
            command_text(arg_tokens@, input@, slot_id as nat, job_id as nat),
        ),
{
    let command = expand(input, arg_tokens, slot_id, job_id);
    let chars = chars_of(command.as_str());
    split_words(chars.as_slice())
}

/// A command that could not be run.
pub enum CommandErr {
    /// The program and its arguments.
    Failed(String, Vec<String>),
}

/// `words` one after another, a space before each.
pub open spec fn spaced(words: Seq<Seq<char>>) -> Seq<char>
    decreases words.len(),
{
    if words.len() == 0 {
        Seq::empty()
    } else {
        spaced(words.drop_last()) + seq![' '] + words.last()
    }
}

impl CommandErr {
    /// The line that reports this error.
    pub open spec fn message(self) -> Seq<char> {
        match self {
            CommandErr::Failed(command, arguments) => "parallel: command error: "@ + command@
                + spaced(texts(arguments@)) + seq!['\n'],
        }
    }

    /// The line that reports this error, for the standard error stream.
    pub fn handle(self) -> (line: String)
        ensures
            line@ == self.message(),
    {
        match self {
            CommandErr::Failed(command, arguments) => {
                let mut line = String::from_str("parallel: command error: ");
                line.append(command.as_str());
                let ghost head = line@;
                let mut i: usize = 0;
                while i < arguments.len()
                    invariant
                        i <= arguments@.len(),
                        line@ == head + spaced(texts(arguments@.subrange(0, i as int))),
                    decreases arguments@.len() - i,
                {
                    line.push(' ');
                    line.append(arguments[i].as_str());
                    proof {
                        let upto = texts(arguments@.subrange(0, i + 1));
                        assert(upto.drop_last() =~= texts(arguments@.subrange(0, i as int)));
                        assert(upto.last() == arguments@[i as int]@);
                    }
                    i += 1;
                }
                assert(arguments@.subrange(0, i as int) =~= arguments@);
                line.push('\n');
                line
            },
        }
    }
}

} // verus!
