use parallel::command::{
    basename, cmd_builder, dirname, expand, remove_extension, split_words, CommandErr,
};
use parallel::tokenizer::tokenize;

#[test]
fn extension_is_what_follows_the_last_dot() {
    assert_eq!(remove_extension("file.txt"), "file");
    assert_eq!(remove_extension("archive.tar.gz"), "archive.tar");
    assert_eq!(remove_extension("plain"), "plain");
    assert_eq!(remove_extension(".bashrc"), "");
    assert_eq!(remove_extension("dir.d/file"), "dir");
    assert_eq!(remove_extension(""), "");
}

#[test]
fn basename_is_what_follows_the_last_slash() {
    assert_eq!(basename("/usr/bin/env"), "env");
    assert_eq!(basename("env"), "env");
    assert_eq!(basename("dir/"), "");
    assert_eq!(basename("/root"), "root");
    assert_eq!(basename("é/ü"), "ü");
}

#[test]
fn dirname_is_what_precedes_the_last_slash() {
    assert_eq!(dirname("/usr/bin/env"), "/usr/bin");
    assert_eq!(dirname("env"), "env");
    assert_eq!(dirname("/root"), "");
    assert_eq!(dirname("a/b/"), "a/b");
}

#[test]
fn placeholders_are_replaced() {
    let tokens = tokenize("cp {} {.}.bak {/} {//} {/.} {#} {%}");
    assert_eq!(
        expand("/tmp/a.txt", &tokens, 3, 12),
        "cp /tmp/a.txt /tmp/a.bak a.txt /tmp a 12 3"
    );
}

#[test]
fn input_is_appended_without_placeholder() {
    let tokens = tokenize("echo hello");
    assert_eq!(expand("world", &tokens, 1, 1), "echo hello world");
    assert_eq!(cmd_builder("world", &tokens, 1, 1), vec!["echo", "hello", "world"]);
    assert_eq!(cmd_builder("a b", &tokenize("echo"), 1, 1), vec!["echo", "a", "b"]);
}

#[test]
fn job_and_slot_are_written_as_numbers() {
    let tokens = tokenize("echo {#}-{%}");
    assert_eq!(cmd_builder("x", &tokens, 1, 1), vec!["echo", "1-1"]);
    assert_eq!(cmd_builder("y", &tokens, 2, 2), vec!["echo", "2-2"]);
    assert_eq!(cmd_builder("z", &tokens, 1, 3), vec!["echo", "3-1"]);
}

#[test]
fn command_is_split_at_white_space() {
    let text: Vec<char> = "  a\tbc \u{a0} d\n".chars().collect();
    assert_eq!(split_words(&text), vec!["a", "bc", "d"]);
    assert_eq!(split_words(&[]), Vec::<String>::new());
    assert_eq!(split_words(&[' ', ' ']), Vec::<String>::new());
}

#[test]
fn failed_command_is_reported_on_one_line() {
    let error = CommandErr::Failed("ls".to_string(), vec!["-l".to_string(), "x".to_string()]);
    assert_eq!(error.handle(), "parallel: command error: ls -l x\n");
    let bare = CommandErr::Failed("true".to_string(), Vec::new());
    assert_eq!(bare.handle(), "parallel: command error: true\n");
}
