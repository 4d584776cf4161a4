use parallel::arguments::quote;
use parallel::arguments::{
    DASH_EXISTS, DRY_RUN, INPUTS_ARE_COMMANDS, PIPE_IS_ENABLED, QUIET_MODE, SHELL_ENABLED,
    VERBOSE_MODE,
};
use parallel::execute::exec_inputs::{
    invocation as invocation_of, slots, Ending, ExecInputs, Wait,
};
use parallel::input_iterator::{InputIterator, Next};
use parallel::serializer::OutputState;
use parallel::shell;
use parallel::tokenizer::{tokenize, tokenize_into, Token, TokenVec};
use parallel::verbose;

#[test]
fn shell_is_needed_for_what_only_a_shell_understands() {
    for input in [
        "a | b", "a > f", "a < f", "a; b", "(a)", "a && b", "a || b", "ls *.txt", "ls ?", "ls [ab]",
        "echo $HOME", "echo `date`",
    ] {
        assert!(shell::required(input), "{}", input);
    }
    for input in ["echo hello", "", "a & b", "a&", "file.txt", "a-b_c/d", "x=1", "{}"] {
        assert!(!shell::required(input), "{}", input);
    }
    assert_eq!(shell::shell_program(true), "dash");
    assert_eq!(shell::shell_program(false), "sh");
}

#[test]
fn a_job_gets_a_shell_where_its_command_needs_one() {
    let worker = ExecInputs { num_inputs: 3, delay: 0, timeout: 0 };
    let tokens = tokenize("echo {} {#}/{%}");
    let plain = worker.run(VERBOSE_MODE, &tokens, "a  b", 2, 5, true);
    assert_eq!(plain.flags, VERBOSE_MODE);
    assert_eq!(plain.command, "echo a  b 5/2");
    let invocation = plain.invocation.unwrap();
    assert_eq!(invocation.program, "echo");
    assert_eq!(invocation.arguments, vec!["a", "b", "5/2"]);
    assert_eq!(plain.wait, Wait::Unbounded);
    assert_eq!(plain.stdin, None);
    assert!(plain.verbose && !plain.quiet && !plain.dry_run);

    let piped = worker.run(QUIET_MODE, &tokens, "a | wc", 1, 1, true);
    assert_eq!(piped.flags, QUIET_MODE | SHELL_ENABLED | DASH_EXISTS);
    let invocation = piped.invocation.unwrap();
    assert_eq!(invocation.program, "dash");
    assert_eq!(invocation.arguments, vec!["-c", "echo a | wc 1/1"]);
    assert!(piped.quiet && !piped.verbose);

    let variable = worker.run(0, &tokenize("echo"), "$x", 1, 1, false);
    assert_eq!(variable.flags, SHELL_ENABLED);
    assert_eq!(variable.invocation.unwrap().program, "sh");
    assert!(!worker.has_delay() && !worker.has_timeout());
}

#[test]
fn the_shell_is_decided_from_the_input_of_each_job() {
    let worker = ExecInputs { num_inputs: 2, delay: 0, timeout: 0 };
    let first = worker.run(PIPE_IS_ENABLED, &[], "a | b", 1, 1, true);
    assert_eq!(first.flags, PIPE_IS_ENABLED | SHELL_ENABLED | DASH_EXISTS);
    let second = worker.run(PIPE_IS_ENABLED, &[], "c", 1, 2, true);
    assert_eq!(second.flags, PIPE_IS_ENABLED);
    assert_eq!(worker.run(0, &[], "a | b", 1, 1, false).flags, SHELL_ENABLED);

    let template = tokenize("echo {} | wc");
    assert_eq!(worker.run(0, &template, "a", 1, 1, true).flags, 0);
    let dropped = worker.run(0, &tokenize("echo {/}"), "x;y/z", 1, 1, false);
    assert_eq!(dropped.command, "echo z");
    assert_eq!(dropped.flags, SHELL_ENABLED);
    assert_eq!(dropped.invocation.unwrap().program, "sh");
}

#[test]
fn each_worker_has_a_slot_of_its_own() {
    assert_eq!(slots(0), Vec::<usize>::new());
    assert_eq!(slots(1), vec![1]);
    assert_eq!(slots(4), vec![1, 2, 3, 4]);
}

#[test]
fn inputs_can_be_the_commands() {
    let worker = ExecInputs { num_inputs: 3, delay: 0, timeout: 0 };
    let job = worker.run(INPUTS_ARE_COMMANDS, &[], "ls -l /tmp", 1, 1, false);
    assert_eq!(job.command, "ls -l /tmp");
    let invocation = job.invocation.unwrap();
    assert_eq!(invocation.program, "ls");
    assert_eq!(invocation.arguments, vec!["-l", "/tmp"]);
    let blank = worker.run(INPUTS_ARE_COMMANDS, &[], "  ", 1, 2, false);
    assert!(blank.invocation.is_none());
    assert!(invocation_of(SHELL_ENABLED, "").is_some());
    assert!(invocation_of(0, "").is_none());
}

#[test]
fn inputs_can_go_to_the_standard_input() {
    let worker = ExecInputs { num_inputs: 3, delay: 0, timeout: 0 };
    let job = worker.run(PIPE_IS_ENABLED, &tokenize("wc -c"), "some input", 1, 1, false);
    assert_eq!(job.stdin, Some(b"some input\n".to_vec()));
    let invocation = job.invocation.unwrap();
    assert_eq!(invocation.program, "wc");
    assert_eq!(invocation.arguments, vec!["-c"]);
}

#[test]
fn a_dry_run_prints_the_command() {
    let worker = ExecInputs { num_inputs: 3, delay: 0, timeout: 0 };
    let job = worker.run(DRY_RUN, &tokenize("echo"), "a", 1, 4, false);
    assert!(job.dry_run);
    let reports = worker.printed(4, &job.command);
    assert_eq!(reports.len(), 3);
    assert!(matches!(reports[0], OutputState::Start(4)));
    match &reports[1] {
        OutputState::StdoutChunk(4, bytes) => assert_eq!(bytes, b"echo a\n"),
        other => panic!("{:?}", other),
    }
    assert!(matches!(reports[2], OutputState::Completed(4)));
}

#[test]
fn a_job_that_takes_too_long_is_killed() {
    let limited = ExecInputs { num_inputs: 2, delay: 0, timeout: 100 };
    assert!(limited.has_timeout());
    assert_eq!(limited.run(0, &tokenize("sleep 5"), "a", 1, 1, false).wait, Wait::AtMost(100));
    assert_eq!(limited.ending(true), Ending::KillThenPipe);
    assert_eq!(limited.ending(false), Ending::PipeThenWait);
    let free = ExecInputs { num_inputs: 2, delay: 0, timeout: 0 };
    assert_eq!(free.ending(true), Ending::PipeThenWait);
}

#[test]
fn starts_are_spaced_by_the_delay() {
    let worker = ExecInputs { num_inputs: 2, delay: 1000, timeout: 0 };
    assert!(worker.has_delay());
    assert_eq!(worker.pace(5000, 5200), (800, 6000));
    assert_eq!(worker.pace(5000, 6000), (0, 6000));
    assert_eq!(worker.pace(5000, 9000), (0, 9000));
    assert_eq!(worker.pace(u64::MAX - 10, 7), (u64::MAX - 7, u64::MAX));
    let none = ExecInputs { num_inputs: 2, delay: 0, timeout: 0 };
    assert_eq!(none.pace(5000, 5000), (0, 5000));
    assert_eq!(none.pace(5000, 4000), (1000, 5000));
}

#[test]
fn a_failed_start_is_reported() {
    let worker = ExecInputs { num_inputs: 2, delay: 0, timeout: 0 };
    match worker.failed(7, "nothere x", "No such file") {
        OutputState::Error(job_id, message) => {
            assert_eq!(job_id, 7);
            assert_eq!(message, "7: nothere x: No such file\n");
        },
        other => panic!("{:?}", other),
    }
    assert_eq!(
        worker.complaint("nothere x", "No such file"),
        "parallel: command error: nothere x: No such file\n"
    );
}

#[test]
fn templates_are_quoted() {
    assert_eq!(quote::basic("echo {}"), "'echo {}'");
    assert_eq!(quote::basic("it's"), "'it'\\''s'");
    assert_eq!(quote::basic(""), "''");
    assert_eq!(quote::shell("a b"), "\\'a\\ b\\'");
    assert_eq!(quote::shell("x|y"), "\\'x\\|y\\'");
    assert_eq!(quote::shell("it's"), "\\'it\\'\\\\\\'\\'s\\'");
    assert_eq!(quote::shell("{}"), "\\'{}\\'");
}

#[test]
fn progress_lines() {
    assert_eq!(verbose::total_inputs(4, 10), "parallel: processing 10 inputs on 4 threads\n");
    assert_eq!(
        verbose::processing_task(2, 10, "echo a"),
        "parallel: processing task #2 of 10: 'echo a'\n"
    );
    assert_eq!(
        verbose::task_complete(10, 10, "x"),
        "parallel: completed task #10 of 10: 'x'\n"
    );
}

#[test]
fn template_tokens_are_stored() {
    let mut tokens = TokenVec::new();
    assert_eq!(tokens.len(), 0);
    assert!(tokenize_into(&mut tokens, "echo {}"));
    assert_eq!(tokens.len(), 6);
    assert_eq!(tokens.as_slice()[5], Token::Placeholder);
    assert_eq!(tokens.as_slice()[0], Token::Character('e'));
    assert!(tokenize_into(&mut tokens, " {#}"));
    assert_eq!(tokens.as_slice()[6..], [Token::Character(' '), Token::Job]);
}

#[test]
fn a_template_that_is_too_long_is_not_stored() {
    let mut tokens = TokenVec::new();
    assert!(tokenize_into(&mut tokens, &"x".repeat(128)));
    assert_eq!(tokens.len(), 128);
    assert!(!tokenize_into(&mut tokens, "y"));
    assert_eq!(tokens.len(), 128);
    assert_eq!(tokens.push(Token::Slot), Some(Token::Slot));
    assert!(tokenize_into(&mut tokens, ""));

    let mut fresh = TokenVec::new();
    assert!(!tokenize_into(&mut fresh, &"x".repeat(129)));
    assert_eq!(fresh.len(), 0);
    assert_eq!(fresh.push(Token::Slot), None);
    assert_eq!(fresh.as_slice(), [Token::Slot]);
    assert!(tokenize_into(&mut fresh, &"{}".repeat(127)));
    assert_eq!(fresh.len(), 128);
}

#[test]
fn records_are_handed_out_with_their_job_numbers() {
    let mut inputs = InputIterator::new(3);
    assert!(matches!(inputs.next(), Next::Starved));
    inputs.feed(b"a 1\nb");
    match inputs.next() {
        Next::Record(record, job_id, remaining) => {
            assert_eq!(record, b"a 1");
            assert_eq!((job_id, remaining), (1, 2));
        },
        other => panic!("{:?}", other),
    }
    assert!(matches!(inputs.next(), Next::Starved));
    assert_eq!(inputs.remaining(), 2);
    inputs.feed(b" 2\n\nextra\n");
    match inputs.next() {
        Next::Record(record, job_id, remaining) => {
            assert_eq!(record, b"b 2");
            assert_eq!((job_id, remaining), (2, 1));
        },
        other => panic!("{:?}", other),
    }
    match inputs.next() {
        Next::Record(record, job_id, remaining) => {
            assert_eq!(record, b"");
            assert_eq!((job_id, remaining), (3, 0));
        },
        other => panic!("{:?}", other),
    }
    assert!(matches!(inputs.next(), Next::Done));
    assert!(matches!(inputs.next(), Next::Done));
    assert_eq!(inputs.remaining(), 0);
    assert!(matches!(InputIterator::new(0).next(), Next::Done));
}
