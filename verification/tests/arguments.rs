use parallel::arguments::errors::ParseErr;
use parallel::arguments::jobs;
use parallel::disk_buffer::DiskBufferWriter;
use parallel::arguments::options::Notice;
use parallel::arguments::{
    merge_lists, parse_jobs, parse_jobs_for, parse_max_args, Args, Mode, Parsed, Quoting, Scan,
    DRY_RUN, INPUTS_ARE_COMMANDS, PIPE_IS_ENABLED, QUIET_MODE, VERBOSE_MODE,
};

fn strings(items: &[&str]) -> Vec<String> {
    items.iter().map(|item| item.to_string()).collect()
}

fn parse(line: &[&str]) -> (Args, String, Result<Parsed, ParseErr>) {
    let arguments = strings(line);
    let seconds: Vec<Option<u64>> = arguments
        .iter()
        .map(|argument| argument.parse::<f64>().ok().map(|s| (s * 1000f64) as u64))
        .collect();
    let mut args = Args::with_cores(8);
    let mut comm = String::new();
    let result = args.parse_for(&mut comm, &arguments, &seconds, 8);
    (args, comm, result)
}

fn scan(result: Result<Parsed, ParseErr>) -> Scan {
    match result {
        Ok(Parsed::Continue(scan)) => scan,
        other => panic!("no scan: {:?}", other),
    }
}

#[test]
fn new_settings_run_one_job_for_each_processor() {
    let args = Args::new();
    assert!(args.ncores >= 1);
    assert_eq!(args.flags, 0);
    assert_eq!(args.ninputs, 0);
    assert_eq!(args.delay, 0);
    assert_eq!(args.timeout, 0);
    assert_eq!(args.arguments.len(), 0);
}

#[test]
fn command_and_inputs_are_told_apart() {
    let (args, comm, result) = parse(&["parallel", "-j", "4", "echo", "{}", ":::", "a", "b"]);
    assert_eq!(
        scan(result),
        Scan { mode: Mode::Inputs, index: 6, max_args: 0, quote: Quoting::AsIs }
    );
    assert_eq!(args.ncores, 4);
    assert_eq!(args.flags, 0);
    assert_eq!(comm, "echo {}");
}

#[test]
fn inputs_without_command_are_commands() {
    let (args, comm, result) = parse(&["parallel", ":::", "ls", "pwd"]);
    assert_eq!(scan(result).mode, Mode::Inputs);
    assert_eq!(args.flags, INPUTS_ARE_COMMANDS);
    assert_eq!(comm, "");
    let (args, _, result) = parse(&["parallel", "-v", "::::", "list"]);
    let found = scan(result);
    assert_eq!((found.mode, found.index), (Mode::Files, 3));
    assert_eq!(args.flags, INPUTS_ARE_COMMANDS | VERBOSE_MODE);
}

#[test]
fn command_without_inputs_waits_for_standard_input() {
    let (_, comm, result) = parse(&["parallel", "echo", "-n", "x"]);
    let found = scan(result);
    assert_eq!((found.mode, found.index), (Mode::Command, 4));
    assert_eq!(comm, "echo -n x");
    let (_, comm, result) = parse(&["parallel"]);
    let found = scan(result);
    assert_eq!((found.mode, found.index), (Mode::Arguments, 1));
    assert_eq!(comm, "");
    let (_, _, result) = parse(&["parallel", "-s"]);
    assert_eq!(scan(result).mode, Mode::Arguments);
}

#[test]
fn standard_input_is_read_where_no_list_is_opened() {
    assert!(scan(parse(&["parallel", "echo"]).2).reads_stdin());
    assert!(scan(parse(&["parallel", "-v"]).2).reads_stdin());
    assert!(scan(parse(&["parallel"]).2).reads_stdin());
    assert!(!scan(parse(&["parallel", "echo", ":::"]).2).reads_stdin());
    assert!(!scan(parse(&["parallel", "::::", "f"]).2).reads_stdin());
    let appended = Scan { mode: Mode::FilesAppend, index: 0, max_args: 0, quote: Quoting::AsIs };
    assert!(!appended.reads_stdin());
}

#[test]
fn append_separator_after_command_opens_a_list() {
    let (_, _, result) = parse(&["parallel", "echo", ":::+", "a"]);
    let found = scan(result);
    assert_eq!((found.mode, found.index), (Mode::Inputs, 3));
    let (_, _, result) = parse(&["parallel", "echo", "::::+", "a"]);
    assert_eq!(scan(result).mode, Mode::Files);
}

#[test]
fn jobs_are_read_in_every_form() {
    assert_eq!(parse(&["parallel", "-j3", "echo"]).0.ncores, 3);
    assert_eq!(parse(&["parallel", "-j", "50%", "echo"]).0.ncores, 4);
    assert_eq!(parse(&["parallel", "-j", "-2", "echo"]).0.ncores, 6);
    assert_eq!(parse(&["parallel", "-j-20", "echo"]).0.ncores, 1);
    assert_eq!(parse(&["parallel", "-j0", "echo"]).0.ncores, 1);
    assert_eq!(parse(&["parallel", "--jobs", "200%", "echo"]).0.ncores, 16);
    assert_eq!(parse(&["parallel", "--jobs", "1%", "echo"]).0.ncores, 1);
}

#[test]
fn jobs_errors_name_the_value() {
    assert!(matches!(parse(&["parallel", "-j"]).2, Err(ParseErr::JobsNoValue)));
    assert!(matches!(parse(&["parallel", "--jobs"]).2, Err(ParseErr::JobsNoValue)));
    match parse(&["parallel", "-jx", "echo"]).2 {
        Err(ParseErr::JobsNaN(value)) => assert_eq!(value, "x"),
        other => panic!("{:?}", other),
    }
    match parse(&["parallel", "--jobs", "x%", "echo"]).2 {
        Err(ParseErr::JobsNaN(value)) => assert_eq!(value, "x%"),
        other => panic!("{:?}", other),
    }
}

#[test]
fn max_args_is_read_in_every_form() {
    assert_eq!(scan(parse(&["parallel", "-n2", "echo"]).2).max_args, 2);
    let found = scan(parse(&["parallel", "-n", "3", "echo"]).2);
    assert_eq!((found.max_args, found.index), (3, 4));
    assert_eq!(scan(parse(&["parallel", "--max-args", "5", "echo"]).2).max_args, 5);
}

#[test]
fn max_args_errors_name_the_argument() {
    assert!(matches!(parse(&["parallel", "-n"]).2, Err(ParseErr::MaxArgsNoValue)));
    assert!(matches!(parse(&["parallel", "--max-args"]).2, Err(ParseErr::MaxArgsNoValue)));
    assert!(matches!(parse(&["parallel", "-nx"]).2, Err(ParseErr::MaxArgsNaN(1))));
    assert!(matches!(parse(&["parallel", "-p", "-n", "x"]).2, Err(ParseErr::MaxArgsNaN(3))));
    assert!(matches!(parse(&["parallel", "--max-args", "x"]).2, Err(ParseErr::MaxArgsNaN(2))));
}

#[test]
fn letters_switch_modes_on() {
    let (args, _, result) = parse(&["parallel", "-pqsv", "echo"]);
    assert_eq!(args.flags, PIPE_IS_ENABLED | QUIET_MODE | VERBOSE_MODE);
    assert_eq!(scan(result).quote, Quoting::Basic);
}

#[test]
fn long_options_switch_modes_on() {
    let (args, _, result) =
        parse(&["parallel", "--pipe", "--quiet", "--verbose", "--dry-run", "--quote", "echo"]);
    assert_eq!(args.flags, PIPE_IS_ENABLED | QUIET_MODE | VERBOSE_MODE | DRY_RUN);
    assert_eq!(scan(result).quote, Quoting::Basic);
    let (args, _, result) = parse(&["parallel", "--silent", "--shellquote", "echo"]);
    assert_eq!(args.flags, QUIET_MODE);
    assert_eq!(scan(result).quote, Quoting::Shell);
    assert_eq!(scan(parse(&["parallel", "--shellquote", "-q", "echo"]).2).quote, Quoting::Basic);
}

#[test]
fn delay_and_timeout_are_kept_in_milliseconds() {
    let (args, _, result) = parse(&["parallel", "--delay", "1.5", "--timeout", "0.1", "echo"]);
    assert_eq!(args.delay, 1500);
    assert_eq!(args.timeout, 100);
    assert_eq!(scan(result).index, 6);
}

#[test]
fn delay_and_timeout_errors() {
    assert!(matches!(parse(&["parallel", "--delay"]).2, Err(ParseErr::DelayNoValue)));
    assert!(matches!(parse(&["parallel", "--timeout"]).2, Err(ParseErr::DelayNoValue)));
    assert!(matches!(parse(&["parallel", "--delay", "soon"]).2, Err(ParseErr::DelayNaN(2))));
    assert!(matches!(parse(&["parallel", "-v", "--timeout", "x"]).2, Err(ParseErr::DelayNaN(3))));
}

#[test]
fn notices_end_the_reading() {
    assert!(matches!(parse(&["parallel", "-h", "--bogus"]).2, Ok(Parsed::Exit(Notice::Help))));
    assert!(matches!(parse(&["parallel", "-vh"]).2, Ok(Parsed::Exit(Notice::Help))));
    assert!(matches!(parse(&["parallel", "--help"]).2, Ok(Parsed::Exit(Notice::Help))));
    assert!(matches!(parse(&["parallel", "--version"]).2, Ok(Parsed::Exit(Notice::Version))));
    assert!(matches!(
        parse(&["parallel", "--num-cpu-cores"]).2,
        Ok(Parsed::Exit(Notice::CpuCores))
    ));
}

#[test]
fn unknown_options_are_refused() {
    assert!(matches!(parse(&["parallel", "-x"]).2, Err(ParseErr::InvalidArgument(1))));
    assert!(matches!(parse(&["parallel", "-v", "-"]).2, Err(ParseErr::InvalidArgument(2))));
    assert!(matches!(parse(&["parallel", "--bogus"]).2, Err(ParseErr::InvalidArgument(1))));
    assert!(matches!(parse(&["parallel", "-px"]).2, Err(ParseErr::InvalidArgument(1))));
}

#[test]
fn an_error_changes_nothing() {
    let (args, comm, result) = parse(&["parallel", "-j", "2", "-pv", "--delay", "1", "--bogus"]);
    assert!(result.is_err());
    assert_eq!((args.ncores, args.flags, args.delay), (8, 0, 0));
    assert_eq!(comm, "");
}

#[test]
fn parse_reads_the_processors_of_the_machine() {
    let mut args = Args::with_cores(1);
    let mut comm = String::from("x");
    let arguments = strings(&["parallel", "-j", "100%", "echo", "hi"]);
    let result = args.parse(&mut comm, &arguments, &[]);
    assert_eq!(scan(result).mode, Mode::Command);
    assert!(args.ncores >= 1);
    assert_eq!(comm, "xecho hi");
}

#[test]
fn lists_are_joined_item_by_item() {
    let mut original = strings(&["a", "b"]);
    let mut append = strings(&["1", "2", "3"]);
    merge_lists(&mut original, &mut append);
    assert_eq!(original, vec!["a 1", "b 2"]);
    assert!(append.is_empty());

    let mut longer = strings(&["a", "b", "c"]);
    let mut short = strings(&["1"]);
    merge_lists(&mut longer, &mut short);
    assert_eq!(longer, vec!["a 1"]);

    let mut any = strings(&["a"]);
    let mut none = Vec::new();
    merge_lists(&mut any, &mut none);
    assert!(any.is_empty());
}

#[test]
fn option_values_move_the_index() {
    let next = "7".to_string();
    let mut index = 3;
    assert_eq!(parse_max_args("-n", Some(&next), &mut index).unwrap(), 7);
    assert_eq!(index, 4);
    let mut index = 3;
    assert_eq!(parse_max_args("-n12", Some(&next), &mut index).unwrap(), 12);
    assert_eq!(index, 3);
    let mut index = 3;
    assert!(matches!(parse_max_args("-n", None, &mut index), Err(ParseErr::MaxArgsNoValue)));
    assert_eq!(index, 4);
    let mut index = 3;
    assert!(matches!(parse_max_args("-nz", None, &mut index), Err(ParseErr::MaxArgsNaN(2))));
    let mut index = 3;
    let bad = "z".to_string();
    assert!(matches!(parse_max_args("-n", Some(&bad), &mut index), Err(ParseErr::MaxArgsNaN(3))));

    let mut index = 1;
    assert_eq!(parse_jobs_for("-j", Some(&next), &mut index, 4).unwrap(), 7);
    assert_eq!(index, 2);
    let mut index = 1;
    assert_eq!(parse_jobs_for("-j25%", None, &mut index, 8).unwrap(), 2);
    assert_eq!(index, 1);
    let mut index = 1;
    assert_eq!(parse_jobs("-j5", None, &mut index).unwrap(), 5);
    let mut index = 1;
    assert!(parse_jobs("-j100%", None, &mut index).unwrap() >= 1);
    let mut index = 1;
    assert!(matches!(parse_jobs("-j", None, &mut index), Err(ParseErr::JobsNoValue)));
}

#[test]
fn jobs_values() {
    assert_eq!(jobs::parse_for("3", 8).unwrap(), 3);
    assert_eq!(jobs::parse_for("0", 8).unwrap(), 1);
    assert_eq!(jobs::parse_for("50%", 8).unwrap(), 4);
    assert_eq!(jobs::parse_for("0%", 8).unwrap(), 1);
    assert_eq!(jobs::parse_for("150%", 3).unwrap(), 4);
    assert_eq!(jobs::parse_for("-1", 8).unwrap(), 7);
    assert_eq!(jobs::parse_for("-8", 8).unwrap(), 1);
    assert_eq!(jobs::parse_for("-100", 8).unwrap(), 1);
    assert_eq!(
        jobs::parse_for(&format!("{}%", usize::MAX), usize::MAX).unwrap(),
        usize::MAX
    );
    assert_eq!(jobs::parse("12").unwrap(), 12);
    assert!(jobs::parse("100%").unwrap() >= 1);
    for bad in ["", "%", "-", "x", "1.5", "-x", "5%%", "-5%"] {
        match jobs::parse_for(bad, 8) {
            Err(ParseErr::JobsNaN(value)) => assert_eq!(value, bad),
            other => panic!("{:?}", other),
        }
    }
}

#[test]
fn complete_quotes_the_command() {
    let mut writer = DiskBufferWriter::new("q", 64);
    writer.write(b"a\n");
    let mut args = Args::with_cores(2);
    let mut comm = String::from("echo it's");
    assert!(args.complete(&mut comm, Quoting::Basic, 1, &mut writer).is_ok());
    assert_eq!(comm, "'echo it'\\''s'");
    assert_eq!(args.ninputs, 1);
    assert_eq!(writer.contents(), b"a\n");

    let mut comm = String::from("echo $x");
    assert!(args.complete(&mut comm, Quoting::Shell, 3, &mut writer).is_ok());
    assert_eq!(comm, "\\'echo\\ \\$x\\'");
    assert_eq!(args.ninputs, 3);

    let mut comm = String::from("echo");
    assert!(args.complete(&mut comm, Quoting::AsIs, 2, &mut writer).is_ok());
    assert_eq!(comm, "echo");
}

#[test]
fn complete_refuses_an_empty_queue() {
    let mut writer = DiskBufferWriter::new("q", 64);
    writer.write(b"kept");
    let mut args = Args::with_cores(2);
    let mut comm = String::from("echo");
    assert!(matches!(
        args.complete(&mut comm, Quoting::Basic, 0, &mut writer),
        Err(ParseErr::NoArguments)
    ));
    assert_eq!(comm, "echo");
    assert_eq!(args.ninputs, 0);
    assert_eq!(writer.contents(), b"");
}
