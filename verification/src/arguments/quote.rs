//! Quotes a command template so that a shell hands it on as it was written.

use crate::shell::is_shell_character;
use crate::text::chars_of;
use vstd::prelude::*;

verus! {

/// `c` as it stands between single quotes. A single quote ends the quoted
/// text, stands for itself after a backslash, and opens the quoted text again.
pub open spec fn quoted_char(c: char) -> Seq<char> {
    if c == '\'' {
        seq!['\'', '\\', '\'', '\'']
    } else {
        seq![c]
    }
}

/// Each character of `text` as it stands between single quotes.
pub open spec fn quoted_body(text: Seq<char>) -> Seq<char>
    decreases text.len(),
{
    if text.len() == 0 {
        Seq::empty()
    } else {
        quoted_body(text.drop_last()) + quoted_char(text.last())
    }
}

/// `text` between single quotes.
pub open spec fn basic_quoted(text: Seq<char>) -> Seq<char> {
    seq!['\''] + quoted_body(text) + seq!['\'']
}

/// Whether a shell gives `c` a meaning of its own: the characters that make
/// a shell necessary, and `&`, both quotes, the backslash, the space and the tab.
pub open spec fn is_special(c: char) -> bool {
    is_shell_character(c) || c == '&' || c == '\'' || c == '"' || c == '\\' || c == ' ' || c
        == '\t'
}

/// `c` with a backslash before it, where a shell gives it a meaning.
pub open spec fn escaped_char(c: char) -> Seq<char> {
    if is_special(c) {
        seq!['\\', c]
    } else {
        seq![c]
    }
}

/// `text` with a backslash before each character that a shell gives a meaning.
pub open spec fn escaped(text: Seq<char>) -> Seq<char>
    decreases text.len(),
{
    if text.len() == 0 {
        Seq::empty()
    } else {
        escaped(text.drop_last()) + escaped_char(text.last())
    }
}

/// `text` between single quotes, and escaped for a shell that reads it
/// before the one that runs the command.
pub open spec fn shell_quoted(text: Seq<char>) -> Seq<char> {
    escaped(basic_quoted(text))
}

fn special(c: char) -> (found: bool)
    ensures
        found == is_special(c),
{
    c == '|' || c == '<' || c == '>' || c == ';' || c == '(' || c == ')' || c == '*' || c == '?'
        || c == '[' || c == '$' || c == '`' || c == '&' || c == '\'' || c == '"' || c == '\\'
        || c == ' ' || c == '\t'
}

fn basic_chars(text: &[char]) -> (quoted: Vec<char>)
    ensures
        quoted@ == basic_quoted(text@),
{
    let mut quoted: Vec<char> = Vec::new();
    quoted.push('\'');
    let mut i: usize = 0;
    assert(quoted_body(text@.subrange(0, 0)) =~= Seq::<char>::empty());
    while i < text.len()
        invariant
            i <= text@.len(),
            quoted@ == seq!['\''] + quoted_body(text@.subrange(0, i as int)),
        decreases text@.len() - i,
    {
        let c = text[i];
        let ghost before = quoted@;
        if c == '\'' {
            quoted.push('\'');
            quoted.push('\\');
            quoted.push('\'');
            quoted.push('\'');
        } else {
            quoted.push(c);
        }
        proof {
            assert(text@.subrange(0, i + 1).drop_last() =~= text@.subrange(0, i as int));
            assert(quoted@ =~= before + quoted_char(c));
        }
        i += 1;
    }
    assert(text@.subrange(0, i as int) =~= text@);
    quoted.push('\'');
    quoted
}

fn escape_chars(text: &[char]) -> (result: String)
    ensures
        result@ == escaped(text@),
{
    let mut result = String::new();
    let mut i: usize = 0;
    while i < text.len()
        invariant
            i <= text@.len(),
            result@ == escaped(text@.subrange(0, i as int)),
        decreases text@.len() - i,
    {
        let c = text[i];
        let ghost before = result@;
        if special(c) {
            result.push('\\');
        }
        result.push(c);
        proof {
            assert(text@.subrange(0, i + 1).drop_last() =~= text@.subrange(0, i as int));
            assert(result@ =~= before + escaped_char(c));
        }
        i += 1;
    }
    assert(text@.subrange(0, i as int) =~= text@);
    result
}

/// `command` between single quotes.
pub fn basic(command: &str) -> (quoted: String)
    ensures
        quoted@ == basic_quoted(command@),
{
    let chars = chars_of(command);
    let quoted = basic_chars(chars.as_slice());
    crate::text::string_of(quoted.as_slice())
}

/// `command` between single quotes, and escaped for a shell that reads it
/// before the one that runs the command.
pub fn shell(command: &str) -> (quoted: String)
    ensures
        quoted@ == shell_quoted(command@),
{
    let chars = chars_of(command);
    let quoted = basic_chars(chars.as_slice());
    escape_chars(quoted.as_slice())
}

} // verus!
