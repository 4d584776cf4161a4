//! Tells whether a command needs a shell to run.

use crate::text::chars_of;
use vstd::prelude::*;

verus! {

/// Whether `c` alone makes a shell necessary: a pipe, a redirection, the
/// end of a command, a subshell, a pattern for file names, a variable, or
/// a command in backticks.
pub open spec fn is_shell_character(c: char) -> bool {
    ||| c == '|'
    ||| c == '<'
    ||| c == '>'
    ||| c == ';'
    ||| c == '('
    ||| c == ')'
    ||| c == '*'
    ||| c == '?'
    ||| c == '['
    ||| c == '$'
    ||| c == '`'
}

/// Whether `input` holds `&&` at `at`.
pub open spec fn is_logical_and(input: Seq<char>, at: int) -> bool {
    0 <= at && at + 1 < input.len() && input[at] == '&' && input[at + 1] == '&'
}

/// Whether `input` can only run in a shell: it holds a character that
/// only a shell understands, or the operator `&&`. (The operator `||` holds
/// the pipe.)
pub open spec fn needs_shell(input: Seq<char>) -> bool {
    exists|i: int|
        0 <= i < input.len() && (is_shell_character(#[trigger] input[i]) || is_logical_and(
            input,
            i,
        ))
}

fn shell_character(c: char) -> (special: bool)
    ensures
        special == is_shell_character(c),
{
    c == '|' || c == '<' || c == '>' || c == ';' || c == '(' || c == ')' || c == '*' || c == '?'
        || c == '[' || c == '$' || c == '`'
}

/// Whether `input` can only run in a shell.
pub fn required(input: &str) -> (needed: bool)
    ensures
        needed == needs_shell(input@),
{
    let chars = chars_of(input);
    let mut i: usize = 0;
    while i < chars.len()
        invariant
            i <= chars@.len(),
            chars@ == input@,
            forall|k: int|
                0 <= k < i ==> !(is_shell_character(#[trigger] chars@[k]) || is_logical_and(
                    chars@,
                    k,
                )),
        decreases chars@.len() - i,
    {
        let c = chars[i];
        if shell_character(c) {
            return true;
        }
        if c == '&' && i + 1 < chars.len() && chars[i + 1] == '&' {
            assert(is_logical_and(chars@, i as int));
            return true;
        }
        i += 1;
    }
    false
}

/// The shell that runs a command: `dash` where it is there, else `sh`.
pub fn shell_program(dash_exists: bool) -> (program: &'static str)
    ensures
        program@ == if dash_exists {
            "dash"@
        } else {
            "sh"@
        },
{
    if dash_exists {
        "dash"
    } else {
        "sh"
    }
}

} // verus!
