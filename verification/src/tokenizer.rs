//! Splits a command template into literal characters and placeholders.

use crate::text::chars_of;
use arrayvec::ArrayVec;
use vstd::prelude::*;
use vstd::slice::slice_subrange;

verus! {

/// One element of a tokenized command template.
#[derive(Clone, Copy, Debug, PartialEq, Eq, Structural)]
pub enum Token {
    /// A character that is copied into the command as it is.
    Character(char),
    /// `{}`: the whole input.
    Placeholder,
    /// `{.}`: the input without its extension.
    RemoveExtension,
    /// `{/}`: the input without its directory.
    Basename,
    /// `{//}`: the directory of the input.
    Dirname,
    /// `{/.}`: the input without directory and extension.
    BaseAndExt,
    /// `{%}`: the number of the slot that runs the job.
    Slot,
    /// `{#}`: the number of the job.
    Job,
}

/// The token that stands for the text found between a `{` and the next `}`.
pub open spec fn token_for(pattern: Seq<char>) -> Option<Token> {
    if pattern == Seq::<char>::empty() {
        Some(Token::Placeholder)
    } else if pattern == seq!['.'] {
        Some(Token::RemoveExtension)
    } else if pattern == seq!['#'] {
        Some(Token::Job)
    } else if pattern == seq!['%'] {
        Some(Token::Slot)
    } else if pattern == seq!['/'] {
        Some(Token::Basename)
    } else if pattern == seq!['/', '/'] {
        Some(Token::Dirname)
    } else if pattern == seq!['/', '.'] {
        Some(Token::BaseAndExt)
    } else {
        None
    }
}

/// The text that a token was read from.
pub open spec fn token_text(token: Token) -> Seq<char> {
    match token {
        Token::Character(c) => seq![c],
        Token::Placeholder => seq!['{', '}'],
        Token::RemoveExtension => seq!['{', '.', '}'],
        Token::Basename => seq!['{', '/', '}'],
        Token::Dirname => seq!['{', '/', '/', '}'],
        Token::BaseAndExt => seq!['{', '/', '.', '}'],
        Token::Slot => seq!['{', '%', '}'],
        Token::Job => seq!['{', '#', '}'],
    }
}

/// The text of a sequence of tokens: the texts of its tokens, one after another.
pub open spec fn tokens_text(tokens: Seq<Token>) -> Seq<char>
    decreases tokens.len(),
{
    if tokens.len() == 0 {
        Seq::empty()
    } else {
        tokens_text(tokens.drop_last()) + token_text(tokens.last())
    }
}

/// The token that copies `c` into the command.
pub open spec fn literal(c: char) -> Token {
    Token::Character(c)
}

/// Every character of `text` as a literal token.
pub open spec fn literal_tokens(text: Seq<char>) -> Seq<Token> {
    Seq::new(text.len(), |k: int| literal(text[k]))
}

/// The tokens of a brace group with `pattern` between its braces: the
/// placeholder that the pattern names, or else the group as literal text.
pub open spec fn group_tokens(pattern: Seq<char>) -> Seq<Token> {
    match token_for(pattern) {
        Some(token) => seq![token],
        None => seq![literal('{')] + literal_tokens(pattern) + seq![literal('}')],
    }
}

/// The position of the first `}` of `template` at or after `from`, or the
/// length of `template` if there is none.
pub open spec fn closing_brace(template: Seq<char>, from: int) -> int
    decreases template.len() - from,
{
    if from >= template.len() {
        template.len() as int
    } else if template[from] == '}' {
        from
    } else {
        closing_brace(template, from + 1)
    }
}

/// The tokens of the part of `template` that starts at `from`.
///
/// A `{` opens a group that the next `}` closes. A `{` that is never closed
/// and everything after it are literal text.
pub open spec fn tokens_from(template: Seq<char>, from: int) -> Seq<Token>
    decreases template.len() - from,
{
    if from < 0 || from >= template.len() {
        Seq::empty()
    } else if template[from] != '{' {
        seq![literal(template[from])] + tokens_from(template, from + 1)
    } else {
        let close = closing_brace(template, from + 1);
        if from < close < template.len() {
            group_tokens(template.subrange(from + 1, close)) + tokens_from(template, close + 1)
        } else {
            literal_tokens(template.subrange(from, template.len() as int))
        }
    }
}

/// The tokens of a whole template.
pub open spec fn template_tokens(template: Seq<char>) -> Seq<Token> {
    tokens_from(template, 0)
}

proof fn lemma_closing_brace_bounds(template: Seq<char>, from: int)
    requires
        0 <= from <= template.len(),
    ensures
        from <= closing_brace(template, from) <= template.len(),
        closing_brace(template, from) < template.len() ==> template[closing_brace(template, from)]
            == '}',
        forall|k: int| from <= k < closing_brace(template, from) ==> template[k] != '}',
    decreases template.len() - from,
{
    if from < template.len() && template[from] != '}' {
        lemma_closing_brace_bounds(template, from + 1);
    }
}

proof fn lemma_tokens_text_concat(a: Seq<Token>, b: Seq<Token>)
    ensures
        tokens_text(a + b) == tokens_text(a) + tokens_text(b),
    decreases b.len(),
{
    if b.len() == 0 {
        assert(a + b == a);
    } else {
        lemma_tokens_text_concat(a, b.drop_last());
        assert((a + b).drop_last() == a + b.drop_last());
        assert((a + b).last() == b.last());
    }
}

proof fn lemma_tokens_text_single(token: Token)
    ensures
        tokens_text(seq![token]) == token_text(token),
{
    assert(seq![token].drop_last() == Seq::<Token>::empty());
    assert(tokens_text(seq![token].drop_last()) == Seq::<char>::empty());
}

proof fn lemma_literal_tokens_text(text: Seq<char>)
    ensures
        tokens_text(literal_tokens(text)) == text,
    decreases text.len(),
{
    if text.len() > 0 {
        lemma_literal_tokens_text(text.drop_last());
        assert(literal_tokens(text).len() == text.len());
        assert(literal_tokens(text).drop_last() =~= literal_tokens(text.drop_last()));
        assert(literal_tokens(text).last() == literal(text.last()));
        assert(text =~= text.drop_last() + seq![text.last()]);
    }
}

proof fn lemma_group_tokens_text(pattern: Seq<char>)
    ensures
        tokens_text(group_tokens(pattern)) == seq!['{'] + pattern + seq!['}'],
{
    match token_for(pattern) {
        Some(token) => {
            lemma_tokens_text_single(token);
        },
        None => {
            let open = seq![literal('{')];
            let close = seq![literal('}')];
            lemma_tokens_text_concat(open + literal_tokens(pattern), close);
            lemma_tokens_text_concat(open, literal_tokens(pattern));
            lemma_tokens_text_single(literal('{'));
            lemma_tokens_text_single(literal('}'));
            lemma_literal_tokens_text(pattern);
        },
    }
}

/// Writing the tokens of a template out again gives back the part of the
/// template that they were read from.
proof fn lemma_tokens_from_text(template: Seq<char>, from: int)
    requires
        0 <= from <= template.len(),
    ensures
        tokens_text(tokens_from(template, from)) == template.subrange(from, template.len() as int),
    decreases template.len() - from,
{
    let end = template.len() as int;
    let rest = template.subrange(from, end);
    if from >= template.len() {
        assert(rest =~= Seq::<char>::empty());
    } else if template[from] != '{' {
        let head = seq![literal(template[from])];
        lemma_tokens_from_text(template, from + 1);
        lemma_tokens_text_concat(head, tokens_from(template, from + 1));
        lemma_tokens_text_single(literal(template[from]));
        assert(rest =~= seq![template[from]] + template.subrange(from + 1, end));
    } else {
        let close = closing_brace(template, from + 1);
        lemma_closing_brace_bounds(template, from + 1);
        if close < template.len() {
            let pattern = template.subrange(from + 1, close);
            lemma_tokens_from_text(template, close + 1);
            lemma_tokens_text_concat(group_tokens(pattern), tokens_from(template, close + 1));
            lemma_group_tokens_text(pattern);
            assert(rest =~= seq!['{'] + pattern + seq!['}'] + template.subrange(close + 1, end));
            } else {
            lemma_literal_tokens_text(rest);
            }
    }
}

/// Tokenizing a template and writing the tokens out again as text gives the
/// template back, whatever the template holds.
pub proof fn lemma_tokenize_round_trip(template: Seq<char>)
    ensures
        tokens_text(template_tokens(template)) == template,
{
    lemma_tokens_from_text(template, 0);
    assert(template.subrange(0, template.len() as int) == template);
}

fn match_chars(pattern: &[char]) -> (token: Option<Token>)
    ensures
        token == token_for(pattern@),
{
    let n = pattern.len();
    if n == 0 {
        assert(pattern@ =~= Seq::<char>::empty());
        Some(Token::Placeholder)
    } else if n == 1 {
        let c = pattern[0];
        assert(pattern@ =~= seq![c]);
        if c == '.' {
            Some(Token::RemoveExtension)
        } else if c == '#' {
            Some(Token::Job)
        } else if c == '%' {
            Some(Token::Slot)
        } else if c == '/' {
            Some(Token::Basename)
        } else {
            None
        }
    } else if n == 2 {
        let c = pattern[0];
        let d = pattern[1];
        assert(pattern@ =~= seq![c, d]);
        if c == '/' && d == '/' {
            Some(Token::Dirname)
        } else if c == '/' && d == '.' {
            Some(Token::BaseAndExt)
        } else {
            None
        }
    } else {
        None
    }
}

/// The placeholder that `pattern`, the text between a pair of braces, names.
pub fn match_token(pattern: &str) -> (token: Option<Token>)
    ensures
        token == token_for(pattern@),
{
    let chars = chars_of(pattern);
    match_chars(chars.as_slice())
}

fn push_literal(tokens: &mut Vec<Token>, text: &[char])
    ensures
        final(tokens)@ == old(tokens)@ + literal_tokens(text@),
{
    let mut i: usize = 0;
    while i < text.len()
        invariant
            i <= text@.len(),
            tokens@ == old(tokens)@ + literal_tokens(text@.subrange(0, i as int)),
        decreases text@.len() - i,
    {
        tokens.push(Token::Character(text[i]));
        assert(literal_tokens(text@.subrange(0, i + 1)) =~= literal_tokens(
            text@.subrange(0, i as int),
        ).push(literal(text@[i as int])));
        i += 1;
    }
    assert(text@.subrange(0, i as int) =~= text@);
}

fn push_group(tokens: &mut Vec<Token>, pattern: &[char])
    ensures
        final(tokens)@ == old(tokens)@ + group_tokens(pattern@),
{
    match match_chars(pattern) {
        Some(token) => {
            tokens.push(token);
            assert(tokens@ =~= old(tokens)@ + seq![token]);
        },
        None => {
            tokens.push(Token::Character('{'));
            push_literal(tokens, pattern);
            tokens.push(Token::Character('}'));
            assert(tokens@ =~= old(tokens)@ + (seq![literal('{')] + literal_tokens(pattern@)
                + seq![literal('}')]));
        },
    }
}

/// Splits `template` into its tokens.
pub fn tokenize(template: &str) -> (tokens: Vec<Token>)
    ensures
        tokens@ == template_tokens(template@),
{
    let chars = chars_of(template);
    let mut tokens: Vec<Token> = Vec::new();
    let mut i: usize = 0;
    while i < chars.len()
        invariant
            i <= chars@.len(),
            tokens@ + tokens_from(chars@, i as int) == tokens_from(chars@, 0),
        decreases chars@.len() - i,
    {
        let c = chars[i];
        if c != '{' {
            tokens.push(Token::Character(c));
            assert(tokens@ + tokens_from(chars@, i + 1) =~= tokens@.drop_last() + (seq![
                literal(c),
            ] + tokens_from(chars@, i + 1)));
            i += 1;
        } else {
            let mut j: usize = i + 1;
            while j < chars.len() && chars[j] != '}'
                invariant
                    i < j <= chars@.len(),
                    closing_brace(chars@, j as int) == closing_brace(chars@, i + 1),
                decreases chars@.len() - j,
            {
                j += 1;
            }
            let ghost before = tokens@;
            if j < chars.len() {
                push_group(&mut tokens, slice_subrange(chars.as_slice(), i + 1, j));
                assert(tokens@ + tokens_from(chars@, j + 1) =~= before + (group_tokens(
                    chars@.subrange(i + 1, j as int),
                ) + tokens_from(chars@, j + 1)));
                i = j + 1;
            } else {
                push_literal(&mut tokens, slice_subrange(chars.as_slice(), i, chars.len()));
                assert(tokens_from(chars@, j as int) =~= Seq::<Token>::empty());
                i = j;
            }
        }
    }
    assert(tokens_from(chars@, i as int) =~= Seq::<Token>::empty());
    tokens
}

/// Writes `tokens` out as the text of a template.
pub fn template_text(tokens: &[Token]) -> (text: String)
    ensures
        text@ == tokens_text(tokens@),
{
    let mut text = String::new();
    let mut i: usize = 0;
    while i < tokens.len()
        invariant
            i <= tokens@.len(),
            text@ == tokens_text(tokens@.subrange(0, i as int)),
        decreases tokens@.len() - i,
    {
        let ghost before = text@;
        text.push(match tokens[i] {
            Token::Character(c) => c,
            _ => '{',
        });
        match tokens[i] {
            Token::Character(_) => {},
            Token::Placeholder => {},
            Token::RemoveExtension => {
                text.push('.');
            },
            Token::Basename => {
                text.push('/');
            },
            Token::Dirname => {
                text.push('/');
                text.push('/');
            },
            Token::BaseAndExt => {
                text.push('/');
                text.push('.');
            },
            Token::Slot => {
                text.push('%');
            },
            Token::Job => {
                text.push('#');
            },
        }
        match tokens[i] {
            Token::Character(_) => {},
            _ => {
                text.push('}');
            },
        }
        proof {
            assert(tokens@.subrange(0, i + 1).drop_last() =~= tokens@.subrange(0, i as int));
            assert(text@ =~= before + token_text(tokens@[i as int]));
        }
        i += 1;
    }
    assert(tokens@.subrange(0, i as int) =~= tokens@);
    text
}

#[verifier::external_type_specification]
#[verifier::external_body]
#[verifier::reject_recursive_types(T)]
pub struct ExArrayVec<T, const CAP: usize>(ArrayVec<T, CAP>);

/// The number of tokens that a `TokenVec` has room for.
pub const TOKEN_LIMIT: usize = 128;

/// The tokens of a command template, in an `arrayvec::ArrayVec` with room
/// for `TOKEN_LIMIT` of them.
pub struct TokenVec {
    inner: ArrayVec<Token, 128>,
}

/// The tokens that an `ArrayVec` holds, in order.
pub uninterp spec fn token_contents(tokens: ArrayVec<Token, 128>) -> Seq<Token>;

/// `ArrayVec::new` makes a vector that holds nothing.
#[verifier::external_body]
fn array_new() -> (tokens: ArrayVec<Token, 128>)
    ensures
        token_contents(tokens) == Seq::<Token>::empty(),
{
    ArrayVec::new()
}

/// `ArrayVec::try_push` puts the element at the end, as long as there is
/// room; a full vector is left as it is and the element comes back in the
/// error, from which it is taken here.
#[verifier::external_body]
fn array_try_push(tokens: &mut ArrayVec<Token, 128>, token: Token) -> (refused: Option<Token>)
    ensures
        token_contents(*old(tokens)).len() < TOKEN_LIMIT ==> refused is None && token_contents(
            *final(tokens),
        ) == token_contents(*old(tokens)).push(token),
        token_contents(*old(tokens)).len() >= TOKEN_LIMIT ==> refused == Some(token)
            && token_contents(*final(tokens)) == token_contents(*old(tokens)),
{
    match tokens.try_push(token) {
        Ok(()) => None,
        Err(error) => Some(error.element()),
    }
}

/// `ArrayVec::as_slice` is the slice of the elements, which are never more
/// than the vector has room for.
#[verifier::external_body]
fn array_as_slice(tokens: &ArrayVec<Token, 128>) -> (slice: &[Token])
    ensures
        slice@ == token_contents(*tokens),
        slice@.len() <= TOKEN_LIMIT,
{
    tokens.as_slice()
}

impl View for TokenVec {
    type V = Seq<Token>;

    closed spec fn view(&self) -> Seq<Token> {
        token_contents(self.inner)
    }
}

impl TokenVec {
    /// A vector without tokens.
    pub fn new() -> (tokens: TokenVec)
        ensures
            tokens@ == Seq::<Token>::empty(),
    {
        TokenVec { inner: array_new() }
    }

    /// The tokens, in order.
    pub fn as_slice(&self) -> (slice: &[Token])
        ensures
            slice@ == self@,
            slice@.len() <= TOKEN_LIMIT,
    {
        array_as_slice(&self.inner)
    }

    /// The number of tokens.
    pub fn len(&self) -> (length: usize)
        ensures
            length == self@.len(),
            length <= TOKEN_LIMIT,
    {
        array_as_slice(&self.inner).len()
    }

    /// Puts `token` at the end, where there is room for it; where there is
    /// none, hands it back.
    pub fn push(&mut self, token: Token) -> (refused: Option<Token>)
        ensures
            old(self)@.len() < TOKEN_LIMIT ==> refused is None && final(self)@ == old(self)@.push(
                token,
            ),
            old(self)@.len() >= TOKEN_LIMIT ==> refused == Some(token) && final(self)@ == old(
                self,
            )@,
    {
        array_try_push(&mut self.inner, token)
    }
}

/// Puts the tokens of `template` at the end of `tokens`, where there is
/// room for all of them; where there is not, nothing is stored.
pub fn tokenize_into(tokens: &mut TokenVec, template: &str) -> (stored: bool)
    ensures
        stored == (old(tokens)@.len() + template_tokens(template@).len() <= TOKEN_LIMIT),
        stored ==> final(tokens)@ == old(tokens)@ + template_tokens(template@),
        !stored ==> final(tokens)@ == old(tokens)@,
{
    let found = tokenize(template);
    let held = tokens.len();
    if found.len() > TOKEN_LIMIT - held {
        return false;
    }
    let mut i: usize = 0;
    while i < found.len()
        invariant
            i <= found@.len(),
            held == old(tokens)@.len(),
            held + found@.len() <= TOKEN_LIMIT,
            tokens@ == old(tokens)@ + found@.subrange(0, i as int),
        decreases found@.len() - i,
    {
        let _ = tokens.push(found[i]);
        assert(tokens@ =~= old(tokens)@ + found@.subrange(0, i + 1));
        i += 1;
    }
    assert(found@.subrange(0, i as int) =~= found@);
    true
}

} // verus!
