use parallel::serializer::{Block, OutputState, Reporter, SerializeErr, Serializer};

fn ids(blocks: &[Block]) -> Vec<usize> {
    blocks.iter().map(|block| block.job_id).collect()
}

#[test]
fn outputs_come_in_the_order_of_the_jobs() {
    let mut serializer = Serializer::new(false);
    assert_eq!(ids(&serializer.handle(OutputState::Start(2)).unwrap()), Vec::<usize>::new());
    assert!(serializer.handle(OutputState::StdoutChunk(2, b"two".to_vec())).unwrap().is_empty());
    assert!(serializer.handle(OutputState::Start(1)).unwrap().is_empty());
    assert!(serializer.handle(OutputState::Completed(2)).unwrap().is_empty());
    assert!(serializer.handle(OutputState::StdoutChunk(1, b"o".to_vec())).unwrap().is_empty());
    assert!(serializer.handle(OutputState::StderrChunk(1, b"warn".to_vec())).unwrap().is_empty());
    assert!(serializer.handle(OutputState::StdoutChunk(1, b"ne".to_vec())).unwrap().is_empty());
    let blocks = serializer.handle(OutputState::Completed(1)).unwrap();
    assert_eq!(ids(&blocks), vec![1, 2]);
    assert_eq!(blocks[0].stdout, b"one");
    assert_eq!(blocks[0].stderr, b"warn");
    assert_eq!(blocks[1].stdout, b"two");
    assert_eq!(blocks[1].stderr, b"");
    assert_eq!(serializer.flushed(), 2);
    assert_eq!(serializer.waiting(), 0);
    assert_eq!(serializer.finish(), Ok(()));
}

#[test]
fn a_job_that_is_over_is_handed_out_at_once() {
    let mut serializer = Serializer::new(false);
    serializer.handle(OutputState::Start(1)).unwrap();
    serializer.handle(OutputState::Start(2)).unwrap();
    serializer.handle(OutputState::StdoutChunk(1, b"a\n".to_vec())).unwrap();
    let blocks = serializer.handle(OutputState::Completed(1)).unwrap();
    assert_eq!(ids(&blocks), vec![1]);
    assert_eq!(blocks[0].stdout, b"a\n");
    assert_eq!(serializer.finish(), Err(SerializeErr::Unfinished(2)));
}

#[test]
fn quiet_drops_the_standard_output_only() {
    let mut serializer = Serializer::new(true);
    serializer.handle(OutputState::Start(1)).unwrap();
    serializer.handle(OutputState::StdoutChunk(1, b"out".to_vec())).unwrap();
    serializer.handle(OutputState::StderrChunk(1, b"err".to_vec())).unwrap();
    let blocks = serializer.handle(OutputState::Completed(1)).unwrap();
    assert_eq!(blocks.len(), 1);
    assert_eq!(blocks[0].stdout, b"");
    assert_eq!(blocks[0].stderr, b"err");
}

#[test]
fn a_job_that_could_not_run_leaves_its_message() {
    let mut serializer = Serializer::new(false);
    let blocks = serializer.handle(OutputState::Error(1, "1: x: not found\n".to_string())).unwrap();
    assert_eq!(ids(&blocks), vec![1]);
    assert_eq!(blocks[0].stdout, b"");
    assert_eq!(blocks[0].stderr, b"1: x: not found\n");
    serializer.handle(OutputState::Start(2)).unwrap();
    serializer.handle(OutputState::StdoutChunk(2, b"partial".to_vec())).unwrap();
    serializer.handle(OutputState::StderrChunk(2, b"noise".to_vec())).unwrap();
    let blocks = serializer.handle(OutputState::Error(2, "gone".to_string())).unwrap();
    assert_eq!(blocks[0].stdout, b"");
    assert_eq!(blocks[0].stderr, b"gone");
}

#[test]
fn reports_that_cannot_be_right_are_refused() {
    let mut serializer = Serializer::new(false);
    assert_eq!(serializer.handle(OutputState::Start(0)).unwrap_err(), SerializeErr::NotAwaited(0));
    assert_eq!(
        serializer.handle(OutputState::StdoutChunk(1, b"x".to_vec())).unwrap_err(),
        SerializeErr::NotStarted(1)
    );
    assert_eq!(
        serializer.handle(OutputState::StderrChunk(3, b"x".to_vec())).unwrap_err(),
        SerializeErr::NotStarted(3)
    );
    assert_eq!(
        serializer.handle(OutputState::Completed(1)).unwrap_err(),
        SerializeErr::NotStarted(1)
    );
    serializer.handle(OutputState::Start(2)).unwrap();
    serializer.handle(OutputState::Completed(2)).unwrap();
    assert_eq!(
        serializer.handle(OutputState::Completed(2)).unwrap_err(),
        SerializeErr::AlreadyEnded(2)
    );
    assert_eq!(
        serializer.handle(OutputState::StdoutChunk(2, b"late".to_vec())).unwrap_err(),
        SerializeErr::AlreadyEnded(2)
    );
    assert_eq!(serializer.handle(OutputState::Start(2)).unwrap_err(), SerializeErr::AlreadyEnded(2));
    serializer.handle(OutputState::Start(1)).unwrap();
    assert_eq!(ids(&serializer.handle(OutputState::Completed(1)).unwrap()), vec![1, 2]);
    assert_eq!(
        serializer.handle(OutputState::Completed(1)).unwrap_err(),
        SerializeErr::NotAwaited(1)
    );
    assert_eq!(serializer.handle(OutputState::Start(2)).unwrap_err(), SerializeErr::NotAwaited(2));
    assert_eq!(serializer.waiting(), 0);
}

#[test]
fn a_refused_report_changes_nothing() {
    let mut serializer = Serializer::new(false);
    serializer.handle(OutputState::Start(1)).unwrap();
    serializer.handle(OutputState::StdoutChunk(1, b"a".to_vec())).unwrap();
    assert!(serializer.handle(OutputState::Completed(5)).is_err());
    assert_eq!(serializer.waiting(), 1);
    let blocks = serializer.handle(OutputState::Completed(1)).unwrap();
    assert_eq!(blocks[0].stdout, b"a");
}

#[test]
fn a_second_start_keeps_what_is_there() {
    let mut serializer = Serializer::new(false);
    serializer.handle(OutputState::Start(1)).unwrap();
    serializer.handle(OutputState::StdoutChunk(1, b"kept".to_vec())).unwrap();
    serializer.handle(OutputState::Start(1)).unwrap();
    let blocks = serializer.handle(OutputState::Completed(1)).unwrap();
    assert_eq!(blocks[0].stdout, b"kept");
}

#[test]
fn every_job_ends_once_in_a_full_run() {
    let order = [3usize, 1, 5, 4, 2];
    let mut serializer = Serializer::new(false);
    let mut handed = Vec::new();
    for id in order {
        serializer.handle(OutputState::Start(id)).unwrap();
        serializer.handle(OutputState::StdoutChunk(id, id.to_string().into_bytes())).unwrap();
    }
    for id in order {
        handed.extend(serializer.handle(OutputState::Completed(id)).unwrap());
    }
    assert_eq!(ids(&handed), vec![1, 2, 3, 4, 5]);
    for (i, block) in handed.iter().enumerate() {
        assert_eq!(block.stdout, (i + 1).to_string().into_bytes());
    }
    assert_eq!(serializer.finish(), Ok(()));
    assert_eq!(serializer.flushed(), 5);
}

#[test]
fn a_reporter_builds_the_reports_of_its_job_in_turn() {
    let mut reporter = Reporter::new(7);
    assert!(reporter.stdout(b"early".to_vec()).is_none());
    assert!(reporter.completed().is_none());
    assert!(matches!(reporter.start(), Some(OutputState::Start(7))));
    assert!(reporter.start().is_none());
    assert!(reporter.error("late".to_string()).is_none());
    match reporter.stdout(b"out".to_vec()) {
        Some(OutputState::StdoutChunk(7, bytes)) => assert_eq!(bytes, b"out"),
        other => panic!("{:?}", other),
    }
    match reporter.stderr(b"err".to_vec()) {
        Some(OutputState::StderrChunk(7, bytes)) => assert_eq!(bytes, b"err"),
        other => panic!("{:?}", other),
    }
    assert!(matches!(reporter.completed(), Some(OutputState::Completed(7))));
    assert!(reporter.completed().is_none());
    assert!(reporter.stderr(b"x".to_vec()).is_none());
    assert!(reporter.start().is_none());

    let mut failed = Reporter::new(2);
    match failed.error("no such program".to_string()) {
        Some(OutputState::Error(2, message)) => assert_eq!(message, "no such program"),
        other => panic!("{:?}", other),
    }
    assert!(failed.start().is_none());
    assert!(failed.error("again".to_string()).is_none());
}

#[test]
fn reports_of_reporters_are_accepted_in_any_interleaving() {
    let mut first = Reporter::new(1);
    let mut second = Reporter::new(2);
    let mut third = Reporter::new(3);
    let reports = vec![
        third.error("3: gone\n".to_string()),
        second.start(),
        second.stdout(b"b".to_vec()),
        first.start(),
        second.completed(),
        first.stdout(b"a".to_vec()),
        first.completed(),
    ];
    let mut serializer = Serializer::new(false);
    let mut handed = Vec::new();
    for report in reports {
        handed.extend(serializer.handle(report.unwrap()).unwrap());
    }
    assert_eq!(ids(&handed), vec![1, 2, 3]);
    assert_eq!(handed[0].stdout, b"a");
    assert_eq!(handed[1].stdout, b"b");
    assert_eq!(handed[2].stderr, b"3: gone\n");
    assert_eq!(serializer.finish(), Ok(()));
}
