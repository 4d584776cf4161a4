use parallel::arguments::errors::{FileErr, ParseErr};
use parallel::arguments::inputs::{file_arguments, parse_inputs};
use parallel::arguments::{queue_inputs, Mode, Quoting, Scan};
use parallel::disk_buffer::DiskBufferWriter;

fn strings(items: &[&str]) -> Vec<String> {
    items.iter().map(|item| item.to_string()).collect()
}

fn gather(
    line: &[&str],
    index: usize,
    mode: Mode,
    files: &[Option<Vec<String>>],
) -> (Result<(), ParseErr>, Vec<String>, Vec<Vec<String>>, Mode) {
    let arguments = strings(line);
    let mut current = Vec::new();
    let mut lists = Vec::new();
    let mut mode = mode;
    let result = parse_inputs(&arguments, index, files, &mut current, &mut lists, &mut mode);
    (result, current, lists, mode)
}

#[test]
fn one_list() {
    let (result, current, lists, mode) = gather(&["a", "b", "c"], 0, Mode::Inputs, &[]);
    assert!(result.is_ok());
    assert_eq!(current, vec!["a", "b", "c"]);
    assert_eq!(lists, vec![strings(&["a", "b", "c"])]);
    assert_eq!(mode, Mode::Inputs);
}

#[test]
fn each_separator_starts_a_list() {
    let (_, current, lists, _) = gather(&["a", "b", ":::", "1", "2", ":::", "x"], 0, Mode::Inputs, &[]);
    assert_eq!(lists, vec![strings(&["a", "b"]), strings(&["1", "2"]), strings(&["x"])]);
    assert_eq!(current, vec!["x"]);
}

#[test]
fn append_joins_and_truncates() {
    let (_, current, lists, mode) = gather(&["a", "b", ":::+", "1", "2", "3"], 0, Mode::Inputs, &[]);
    assert_eq!(lists, vec![strings(&["a 1", "b 2"])]);
    assert_eq!(current, vec!["a 1", "b 2"]);
    assert_eq!(mode, Mode::InputsAppend);

    let (_, _, lists, _) = gather(&["a", "b", "c", ":::+", "1"], 0, Mode::Inputs, &[]);
    assert_eq!(lists, vec![strings(&["a 1"])]);
}

#[test]
fn appends_add_up() {
    let (_, _, lists, _) =
        gather(&["a", "b", ":::+", "1", "2", ":::+", "x", "y", ":::", "p"], 0, Mode::Inputs, &[]);
    assert_eq!(lists, vec![strings(&["a 1 x", "b 2 y"]), strings(&["p"])]);
}

#[test]
fn an_empty_append_leaves_nothing() {
    let (_, current, lists, _) = gather(&["a", "b", ":::+"], 0, Mode::Inputs, &[]);
    assert!(current.is_empty());
    assert!(lists.is_empty());
    let (_, _, lists, _) = gather(&["a", ":::+", ":::", "z"], 0, Mode::Inputs, &[]);
    assert_eq!(lists, vec![strings(&["z"])]);
}

#[test]
fn reading_starts_at_the_index() {
    let (_, _, lists, _) = gather(&["parallel", "echo", ":::", "a", "b"], 3, Mode::Inputs, &[]);
    assert_eq!(lists, vec![strings(&["a", "b"])]);
    let (result, current, lists, mode) = gather(&["parallel", "echo"], 2, Mode::Command, &[]);
    assert!(result.is_ok());
    assert!(current.is_empty() && lists.is_empty());
    assert_eq!(mode, Mode::Command);
    let (_, _, lists, _) = gather(&["a"], 7, Mode::Inputs, &[]);
    assert!(lists.is_empty());
}

#[test]
fn files_give_their_lines() {
    let line = ["one.txt", "two.txt", "::::+", "three.txt", ":::", "z"];
    let arguments = strings(&line);
    assert_eq!(file_arguments(&arguments, 0, Mode::Files), vec![0, 1, 3]);
    assert_eq!(file_arguments(&arguments, 0, Mode::Inputs), vec![3]);
    assert_eq!(file_arguments(&arguments, 4, Mode::Files), Vec::<usize>::new());
    let files = vec![
        Some(strings(&["a", "b"])),
        Some(strings(&["c"])),
        Some(strings(&["1", "2", "3", "4"])),
    ];
    let (result, _, lists, _) = gather(&line, 0, Mode::Files, &files);
    assert!(result.is_ok());
    assert_eq!(lists, vec![strings(&["a 1", "b 2", "c 3"]), strings(&["z"])]);
}

#[test]
fn a_file_that_was_not_read_is_named() {
    let line = ["one.txt", "two.txt"];
    let files = vec![Some(strings(&["a"])), None];
    let (result, current, lists, _) = gather(&line, 0, Mode::Files, &files);
    match result {
        Err(ParseErr::File(FileErr::Open(path))) => assert_eq!(path, "two.txt"),
        other => panic!("{:?}", other),
    }
    assert!(current.is_empty() && lists.is_empty());
    let (result, _, _, _) = gather(&line, 0, Mode::Files, &[]);
    match result {
        Err(ParseErr::File(FileErr::Open(path))) => assert_eq!(path, "one.txt"),
        other => panic!("{:?}", other),
    }
}

fn queued(line: &[&str], index: usize, max_args: usize) -> (Result<usize, ParseErr>, String) {
    let arguments = strings(line);
    let scan = Scan { mode: Mode::Inputs, index, max_args, quote: Quoting::AsIs };
    let mut writer = DiskBufferWriter::new("queue", 8);
    let count = queue_inputs(&arguments, &scan, &[], &mut writer);
    writer.flush();
    (count, String::from_utf8(writer.contents().to_vec()).unwrap())
}

#[test]
fn one_list_queues_one_record_for_each_input() {
    let (count, text) = queued(&["parallel", "echo", ":::", "a", "b", "c"], 3, 0);
    assert_eq!(count.unwrap(), 3);
    assert_eq!(text, "a\nb\nc\n");
}

#[test]
fn two_lists_queue_their_combinations() {
    let (count, text) = queued(&["parallel", "echo", ":::", "a", "b", ":::", "1", "2"], 3, 0);
    assert_eq!(count.unwrap(), 4);
    assert_eq!(text, "a 1\na 2\nb 1\nb 2\n");
}

#[test]
fn max_args_queues_packed_records() {
    let (count, text) = queued(&["parallel", "-n2", "echo", ":::", "1", "2", "3", "4", "5"], 4, 2);
    assert_eq!(count.unwrap(), 3);
    assert_eq!(text, "1 2\n3 4\n5\n");
}

#[test]
fn zipped_list_queues_joined_records() {
    let (count, text) = queued(&["parallel", "echo", ":::", "a", "b", ":::+", "1", "2", "3"], 3, 0);
    assert_eq!(count.unwrap(), 2);
    assert_eq!(text, "a 1\nb 2\n");
}

#[test]
fn no_inputs_queue_nothing() {
    let (count, text) = queued(&["parallel", "echo"], 2, 0);
    assert_eq!(count.unwrap(), 0);
    assert_eq!(text, "");
}

#[test]
fn a_missing_file_queues_nothing() {
    let arguments = strings(&["parallel", "echo", "::::", "list.txt"]);
    let scan = Scan { mode: Mode::Files, index: 3, max_args: 0, quote: Quoting::AsIs };
    let mut writer = DiskBufferWriter::new("queue", 8);
    writer.write(b"x");
    match queue_inputs(&arguments, &scan, &[None], &mut writer) {
        Err(ParseErr::File(FileErr::Open(path))) => assert_eq!(path, "list.txt"),
        other => panic!("{:?}", other),
    }
    writer.flush();
    assert_eq!(writer.contents(), b"x");
}

#[test]
fn too_many_combinations_are_refused() {
    let mut line = vec!["parallel".to_string(), "echo".to_string()];
    for _ in 0..70 {
        line.push(":::".to_string());
        line.push("a".to_string());
        line.push("b".to_string());
    }
    let scan = Scan { mode: Mode::Inputs, index: 3, max_args: 0, quote: Quoting::AsIs };
    let mut writer = DiskBufferWriter::new("queue", 8);
    assert!(matches!(
        queue_inputs(&line, &scan, &[], &mut writer),
        Err(ParseErr::TooManyInputs)
    ));
    assert!(writer.is_empty());
}
