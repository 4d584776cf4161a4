use parallel::arguments::{queue_inputs, Args, Parsed};
use parallel::disk_buffer::DiskBufferWriter;
use parallel::execute::exec_inputs::{slots as worker_slots, Ending, ExecInputs, Wait};
use parallel::input_iterator::{InputIterator, Next};
use parallel::serializer::{OutputState, Serializer};
use parallel::tokenizer::tokenize_into;

struct Ran {
    stdout: String,
    slots: Vec<usize>,
    waits: Vec<Wait>,
}

/// Goes through a whole run without starting a process: `echo` is played by
/// the test, every other command prints nothing, and the jobs end in the
/// reverse of the order in which they began.
fn run(line: &[&str], ncores: usize) -> Ran {
    let arguments: Vec<String> = line.iter().map(|word| word.to_string()).collect();
    let seconds: Vec<Option<u64>> = arguments
        .iter()
        .map(|argument| argument.parse::<f64>().ok().map(|s| (s * 1000f64) as u64))
        .collect();
    let mut args = Args::with_cores(ncores);
    let mut comm = String::new();
    let scan = match args.parse_for(&mut comm, &arguments, &seconds, ncores) {
        Ok(Parsed::Continue(scan)) => scan,
        other => panic!("{:?}", other),
    };
    let mut writer = DiskBufferWriter::new("queue", 4);
    let count = queue_inputs(&arguments, &scan, &[], &mut writer).unwrap();
    args.complete(&mut comm, scan.quote, count, &mut writer).unwrap();
    assert!(tokenize_into(&mut args.arguments, &comm));

    let mut inputs = InputIterator::new(args.ninputs);
    inputs.feed(writer.contents());
    let worker = ExecInputs { num_inputs: args.ninputs, delay: args.delay, timeout: args.timeout };
    let mut reports = Vec::new();
    let mut slots = Vec::new();
    let mut waits = Vec::new();
    while let Next::Record(record, job_id, _) = inputs.next() {
        let input = String::from_utf8(record).unwrap();
        let slot = worker_slots(args.ncores)[(job_id - 1) % args.ncores];
        let job = worker.run(args.flags, args.arguments.as_slice(), &input, slot, job_id, false);
        let invocation = job.invocation.unwrap();
        let printed = if invocation.program == "echo" {
            format!("{}\n", invocation.arguments.join(" "))
        } else {
            String::new()
        };
        slots.push(slot);
        waits.push(job.wait);
        reports.push((job_id, printed));
    }

    let mut serializer = Serializer::new(false);
    let mut stdout = Vec::new();
    for (job_id, _) in &reports {
        assert!(serializer.handle(OutputState::Start(*job_id)).unwrap().is_empty());
    }
    for (job_id, printed) in reports.iter().rev() {
        let chunk = OutputState::StdoutChunk(*job_id, printed.clone().into_bytes());
        assert!(serializer.handle(chunk).unwrap().is_empty());
        for block in serializer.handle(OutputState::Completed(*job_id)).unwrap() {
            stdout.extend(block.stdout);
        }
    }
    assert_eq!(serializer.finish(), Ok(()));
    assert_eq!(serializer.flushed(), args.ninputs);
    Ran { stdout: String::from_utf8(stdout).unwrap(), slots, waits }
}

#[test]
fn one_list_in_order() {
    assert_eq!(run(&["parallel", "echo", ":::", "a", "b", "c"], 2).stdout, "a\nb\nc\n");
}

#[test]
fn two_lists_in_order() {
    assert_eq!(
        run(&["parallel", "echo", ":::", "a", "b", ":::", "1", "2"], 1).stdout,
        "a 1\na 2\nb 1\nb 2\n"
    );
}

#[test]
fn two_inputs_for_each_job() {
    assert_eq!(
        run(&["parallel", "-n2", "echo", ":::", "1", "2", "3", "4", "5"], 2).stdout,
        "1 2\n3 4\n5\n"
    );
}

#[test]
fn job_and_slot_numbers() {
    let ran = run(&["parallel", "echo", "{#}-{%}", ":::", "x", "y", "z"], 2);
    let lines: Vec<&str> = ran.stdout.lines().collect();
    assert_eq!(lines.len(), 3);
    for (i, line) in lines.iter().enumerate() {
        assert!(line.starts_with(&format!("{}-", i + 1)), "{}", line);
        let slot: usize = line[2..].parse().unwrap();
        assert!(slot == 1 || slot == 2);
        assert_eq!(slot, ran.slots[i]);
    }
    assert_ne!(ran.slots[0], ran.slots[1]);
}

#[test]
fn jobs_that_take_too_long() {
    let ran = run(&["parallel", "--timeout", "0.1", "sleep", "5", ":::", "a", "b"], 2);
    assert_eq!(ran.stdout, "");
    assert_eq!(ran.waits, vec![Wait::AtMost(100), Wait::AtMost(100)]);
    let worker = ExecInputs { num_inputs: 2, delay: 0, timeout: 100 };
    assert_eq!(worker.ending(true), Ending::KillThenPipe);
}

#[test]
fn zipped_lists() {
    assert_eq!(
        run(&["parallel", "echo", ":::", "a", "b", ":::+", "1", "2", "3"], 2).stdout,
        "a 1\nb 2\n"
    );
}
