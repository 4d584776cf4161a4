use parallel::tokenizer::{match_token, template_text, tokenize, Token};

#[test]
fn placeholders_are_recognised() {
    assert_eq!(
        tokenize("{} {.} {#} {%} {/} {//} {/.}"),
        vec![
            Token::Placeholder,
            Token::Character(' '),
            Token::RemoveExtension,
            Token::Character(' '),
            Token::Job,
            Token::Character(' '),
            Token::Slot,
            Token::Character(' '),
            Token::Basename,
            Token::Character(' '),
            Token::Dirname,
            Token::Character(' '),
            Token::BaseAndExt,
        ]
    );
}

#[test]
fn unknown_group_is_literal() {
    assert_eq!(
        tokenize("{ab}"),
        vec![
            Token::Character('{'),
            Token::Character('a'),
            Token::Character('b'),
            Token::Character('}'),
        ]
    );
}

#[test]
fn unmatched_brace_is_literal() {
    assert_eq!(
        tokenize("a{b"),
        vec![Token::Character('a'), Token::Character('{'), Token::Character('b')]
    );
}

#[test]
fn match_token_table() {
    assert_eq!(match_token(""), Some(Token::Placeholder));
    assert_eq!(match_token("."), Some(Token::RemoveExtension));
    assert_eq!(match_token("#"), Some(Token::Job));
    assert_eq!(match_token("%"), Some(Token::Slot));
    assert_eq!(match_token("/"), Some(Token::Basename));
    assert_eq!(match_token("//"), Some(Token::Dirname));
    assert_eq!(match_token("/."), Some(Token::BaseAndExt));
    assert_eq!(match_token("x"), None);
    assert_eq!(match_token("/./"), None);
}

#[test]
fn tokens_give_the_template_back() {
    for template in ["echo {} {.} {x} }{ {", "", "{}", "{{}}", "a{//}b{/.}c{#}{%}", "{ {} }"] {
        assert_eq!(template_text(&tokenize(template)), template);
    }
}
