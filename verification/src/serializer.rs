//! Puts the output of the jobs in order.
//!
//! The jobs end in any order. What each of them printed is kept until all
//! jobs before it are done, and is then handed out as one block: first what
//! it wrote to its standard output, then what it wrote to its standard error.

pub mod laws;

use vstd::prelude::*;
use vstd::string::StringSliceAdditionalSpecFns;
use vstd::utf8::encode_utf8;

verus! {

/// What a worker reports of a job.
#[derive(Debug)]
pub enum OutputState {
    /// The job has been started.
    Start(usize),
    /// The job wrote these bytes to its standard output.
    StdoutChunk(usize, Vec<u8>),
    /// The job wrote these bytes to its standard error.
    StderrChunk(usize, Vec<u8>),
    /// The job is done.
    Completed(usize),
    /// The job could not be run; the message says why.
    Error(usize, String),
}

/// A report of a job as a plain value.
pub enum Event {
    Start(int),
    Stdout(int, Seq<u8>),
    Stderr(int, Seq<u8>),
    Completed(int),
    Error(int, Seq<u8>),
}

impl Event {
    /// The number of the job that the report is about.
    pub open spec fn job_id(self) -> int {
        match self {
            Event::Start(id) => id,
            Event::Stdout(id, _) => id,
            Event::Stderr(id, _) => id,
            Event::Completed(id) => id,
            Event::Error(id, _) => id,
        }
    }

    /// Whether the report says that the job is over.
    pub open spec fn ends_job(self) -> bool {
        self is Completed || self is Error
    }
}

impl View for OutputState {
    type V = Event;

    open spec fn view(&self) -> Event {
        match self {
            OutputState::Start(id) => Event::Start(*id as int),
            OutputState::StdoutChunk(id, bytes) => Event::Stdout(*id as int, bytes@),
            OutputState::StderrChunk(id, bytes) => Event::Stderr(*id as int, bytes@),
            OutputState::Completed(id) => Event::Completed(*id as int),
            OutputState::Error(id, message) => Event::Error(*id as int, encode_utf8(message@)),
        }
    }
}

/// How far the reports have brought a job.
#[derive(Clone, Copy, Debug, PartialEq, Eq, Structural)]
pub enum Phase {
    /// Nothing was reported of the job.
    Fresh,
    /// The job was reported as started and not as over.
    Running,
    /// The job was reported as over.
    Ended,
}

/// Whether `event` may be reported of a job in the phase `phase`: the start
/// and the failure to run of a fresh job, the chunks and the end of a
/// running one.
pub open spec fn allows(phase: Phase, event: Event) -> bool {
    match event {
        Event::Start(_) => phase is Fresh,
        Event::Stdout(_, _) => phase is Running,
        Event::Stderr(_, _) => phase is Running,
        Event::Completed(_) => phase is Running,
        Event::Error(_, _) => phase is Fresh,
    }
}

impl Phase {
    /// The phase of a job after `event` was reported of it.
    pub open spec fn after(self, event: Event) -> Phase {
        if event.ends_job() {
            Phase::Ended
        } else {
            Phase::Running
        }
    }
}

/// Why a report cannot be right.
#[derive(Clone, Copy, Debug, PartialEq, Eq, Structural)]
pub enum SerializeErr {
    /// No job of this number is awaited: the number is zero, or the output
    /// of the job has been handed out already.
    NotAwaited(usize),
    /// The job was never reported as started.
    NotStarted(usize),
    /// The job was reported as over before.
    AlreadyEnded(usize),
    /// The reports have ended, and this job, whose output is due next, is not over.
    Unfinished(usize),
}

/// What is kept of a job whose output has not been handed out.
pub struct Staged {
    pub job_id: int,
    pub stdout: Seq<u8>,
    pub stderr: Seq<u8>,
    pub complete: bool,
}

/// The output of one job.
pub struct Output {
    pub job_id: int,
    pub stdout: Seq<u8>,
    pub stderr: Seq<u8>,
}

/// What the serializer holds.
pub struct Pending {
    /// The number of jobs whose output has been handed out: the jobs 1 to `flushed`.
    pub flushed: int,
    /// The other jobs that have been heard of, in the order in which they were.
    pub staged: Seq<Staged>,
    /// Whether the standard output of the jobs is dropped.
    pub quiet: bool,
}

/// The first position at or after `from` that holds the job `id`, or the
/// length of `staged` where none does.
pub open spec fn position(staged: Seq<Staged>, id: int, from: int) -> int
    decreases staged.len() - from,
{
    if from < 0 || from >= staged.len() {
        staged.len() as int
    } else if staged[from].job_id == id {
        from
    } else {
        position(staged, id, from + 1)
    }
}

impl Pending {
    /// Before any report.
    pub open spec fn initial(quiet: bool) -> Pending {
        Pending { flushed: 0, staged: Seq::empty(), quiet }
    }

    /// The number of the job whose output is due next.
    pub open spec fn next_id(self) -> int {
        self.flushed + 1
    }

    /// With `entry` at `at`.
    pub open spec fn with_entry(self, at: int, entry: Staged) -> Pending {
        Pending { staged: self.staged.update(at, entry), ..self }
    }

    /// After the report `event`, before any output is handed out. A start
    /// makes sure that the job is kept; a chunk goes to the end of what is
    /// kept of its stream; the end of a job is noted. Of a job that could not
    /// be run only the message is kept, as its standard error.
    pub open spec fn applied(self, event: Event) -> Result<Pending, SerializeErr> {
        let id = event.job_id();
        let at = position(self.staged, id, 0);
        if id <= self.flushed {
            Err(SerializeErr::NotAwaited(id as usize))
        } else if at < self.staged.len() && self.staged[at].complete {
            Err(SerializeErr::AlreadyEnded(id as usize))
        } else if at < self.staged.len() {
            let entry = self.staged[at];
            match event {
                Event::Start(_) => Ok(self),
                Event::Stdout(_, bytes) => Ok(
                    self.with_entry(at, Staged { stdout: entry.stdout + bytes, ..entry }),
                ),
                Event::Stderr(_, bytes) => Ok(
                    self.with_entry(at, Staged { stderr: entry.stderr + bytes, ..entry }),
                ),
                Event::Completed(_) => Ok(self.with_entry(at, Staged { complete: true, ..entry })),
                Event::Error(_, message) => Ok(
                    self.with_entry(
                        at,
                        Staged { job_id: id, stdout: Seq::empty(), stderr: message, complete: true },
                    ),
                ),
            }
        } else {
            match event {
                Event::Start(_) => Ok(
                    Pending {
                        staged: self.staged.push(
                            Staged {
                                job_id: id,
                                stdout: Seq::empty(),
                                stderr: Seq::empty(),
                                complete: false,
                            },
                        ),
                        ..self
                    },
                ),
                Event::Error(_, message) => Ok(
                    Pending {
                        staged: self.staged.push(
                            Staged {
                                job_id: id,
                                stdout: Seq::empty(),
                                stderr: message,
                                complete: true,
                            },
                        ),
                        ..self
                    },
                ),
                _ => Err(SerializeErr::NotStarted(id as usize)),
            }
        }
    }

    /// The output of the job that is kept at `at`.
    pub open spec fn output_at(self, at: int) -> Output {
        Output {
            job_id: self.staged[at].job_id,
            stdout: if self.quiet {
                Seq::empty()
            } else {
                self.staged[at].stdout
            },
            stderr: self.staged[at].stderr,
        }
    }

    /// Whether the job whose output is due next is over, so that its output
    /// can be handed out.
    pub open spec fn is_due(self) -> bool {
        let at = position(self.staged, self.next_id(), 0);
        0 <= at < self.staged.len() && self.staged[at].complete
    }

    /// With the output of the job that is due next handed out.
    pub open spec fn without_next(self) -> Pending {
        Pending {
            flushed: self.flushed + 1,
            staged: self.staged.remove(position(self.staged, self.next_id(), 0)),
            ..self
        }
    }

    /// What is handed out, and what is left: the output of the job that is
    /// due next, as long as that job is over.
    pub open spec fn flushed_out(self) -> (Pending, Seq<Output>)
        decreases self.staged.len(),
    {
        if self.is_due() {
            let (rest, outputs) = self.without_next().flushed_out();
            (rest, seq![self.output_at(position(self.staged, self.next_id(), 0))] + outputs)
        } else {
            (self, Seq::empty())
        }
    }

    /// What the report `event` leads to: what is left, and the outputs that
    /// are handed out, in order.
    pub open spec fn handled(self, event: Event) -> Result<(Pending, Seq<Output>), SerializeErr> {
        match self.applied(event) {
            Ok(next) => Ok(next.flushed_out()),
            Err(error) => Err(error),
        }
    }

    /// Whether the reports may end here: nothing is kept any more. Where
    /// something is, the error names the job that has been kept longest.
    pub open spec fn finished(self) -> Result<(), SerializeErr> {
        if self.staged.len() == 0 {
            Ok(())
        } else {
            Err(SerializeErr::Unfinished(self.staged[0].job_id as usize))
        }
    }
}

/// Where `position` points.
proof fn lemma_position(staged: Seq<Staged>, id: int, from: int)
    requires
        0 <= from <= staged.len(),
    ensures
        from <= position(staged, id, from) <= staged.len(),
        position(staged, id, from) < staged.len() ==> staged[position(staged, id, from)].job_id
            == id,
        forall|k: int| from <= k < position(staged, id, from) ==> staged[k].job_id != id,
    decreases staged.len() - from,
{
    if from < staged.len() && staged[from].job_id != id {
        lemma_position(staged, id, from + 1);
    }
}

/// The output of one job.
#[derive(Debug)]
pub struct Block {
    /// The number of the job.
    pub job_id: usize,
    /// What the job wrote to its standard output.
    pub stdout: Vec<u8>,
    /// What the job wrote to its standard error.
    pub stderr: Vec<u8>,
}

impl View for Block {
    type V = Output;

    open spec fn view(&self) -> Output {
        Output { job_id: self.job_id as int, stdout: self.stdout@, stderr: self.stderr@ }
    }
}

/// What each block of `blocks` holds.
pub open spec fn outputs(blocks: Seq<Block>) -> Seq<Output> {
    Seq::new(blocks.len(), |i: int| blocks[i]@)
}

struct Entry {
    job_id: usize,
    stdout: Vec<u8>,
    stderr: Vec<u8>,
    complete: bool,
}

impl Entry {
    spec fn staged(self) -> Staged {
        Staged {
            job_id: self.job_id as int,
            stdout: self.stdout@,
            stderr: self.stderr@,
            complete: self.complete,
        }
    }
}

spec fn entries(list: Seq<Entry>) -> Seq<Staged> {
    Seq::new(list.len(), |i: int| list[i].staged())
}

/// Keeps the output of the jobs and hands it out in the order of the jobs.
pub struct Serializer {
    flushed: usize,
    staged: Vec<Entry>,
    quiet: bool,
}

impl View for Serializer {
    type V = Pending;

    closed spec fn view(&self) -> Pending {
        Pending { flushed: self.flushed as int, staged: entries(self.staged@), quiet: self.quiet }
    }
}

fn append_bytes(to: &mut Vec<u8>, bytes: &Vec<u8>)
    ensures
        final(to)@ == old(to)@ + bytes@,
{
    to.extend_from_slice(bytes.as_slice());
    assert(to@ =~= old(to)@ + bytes@);
}

fn bytes_of(message: &String) -> (bytes: Vec<u8>)
    ensures
        bytes@ == encode_utf8(message@),
{
    let mut bytes: Vec<u8> = Vec::new();
    bytes.extend_from_slice(message.as_str().as_bytes());
    assert(bytes@ =~= encode_utf8(message@));
    bytes
}

impl Serializer {
    /// A serializer that has heard of no job. With `quiet` it drops what
    /// the jobs write to their standard output.
    pub fn new(quiet: bool) -> (serializer: Serializer)
        ensures
            serializer@ == Pending::initial(quiet),
    {
        let serializer = Serializer { flushed: 0, staged: Vec::new(), quiet };
        assert(serializer@.staged =~= Seq::<Staged>::empty());
        serializer
    }

    /// The number of jobs whose output has been handed out.
    pub fn flushed(&self) -> (count: usize)
        ensures
            count == self@.flushed,
    {
        self.flushed
    }

    /// The number of jobs whose output is kept.
    pub fn waiting(&self) -> (count: usize)
        ensures
            count == self@.staged.len(),
    {
        self.staged.len()
    }

    fn find(&self, id: usize) -> (at: usize)
        ensures
            at == position(self@.staged, id as int, 0),
            at <= self.staged@.len(),
            at < self.staged@.len() ==> self.staged@[at as int].job_id == id,
    {
        let mut at: usize = 0;
        while at < self.staged.len() && self.staged[at].job_id != id
            invariant
                at <= self.staged@.len(),
                position(self@.staged, id as int, at as int) == position(
                    self@.staged,
                    id as int,
                    0,
                ),
            decreases self.staged@.len() - at,
        {
            at += 1;
        }
        at
    }

    fn replace(&mut self, at: usize, entry: Entry)
        requires
            at < old(self).staged@.len(),
        ensures
            final(self)@ == old(self)@.with_entry(at as int, entry.staged()),
    {
        let _ = self.staged.remove(at);
        self.staged.insert(at, entry);
        assert(self@.staged =~= old(self)@.staged.update(at as int, entry.staged()));
    }

    fn keep(&mut self, entry: Entry)
        ensures
            final(self)@ == (Pending {
                staged: old(self)@.staged.push(entry.staged()),
                ..old(self)@
            }),
    {
        self.staged.push(entry);
        assert(self@.staged =~= old(self)@.staged.push(entry.staged()));
    }

    fn apply(&mut self, event: OutputState) -> (result: Result<(), SerializeErr>)
        ensures
            match old(self)@.applied(event@) {
                Ok(next) => result is Ok && final(self)@ == next,
                Err(error) => result == Err::<(), SerializeErr>(error) && *final(self) == *old(
                    self,
                ),
            },
    {
        let id: usize = match &event {
            OutputState::Start(id) => *id,
            OutputState::StdoutChunk(id, _) => *id,
            OutputState::StderrChunk(id, _) => *id,
            OutputState::Completed(id) => *id,
            OutputState::Error(id, _) => *id,
        };
        if id <= self.flushed {
            return Err(SerializeErr::NotAwaited(id));
        }
        let at = self.find(id);
        if at < self.staged.len() {
            if self.staged[at].complete {
                return Err(SerializeErr::AlreadyEnded(id));
            }
            match event {
                OutputState::Start(_) => {},
                OutputState::StdoutChunk(_, bytes) => {
                    let mut entry = self.staged.remove(at);
                    append_bytes(&mut entry.stdout, &bytes);
                    self.staged.insert(at, entry);
                    assert(self@.staged =~= old(self)@.staged.update(
                        at as int,
                        Staged {
                            stdout: old(self)@.staged[at as int].stdout + bytes@,
                            ..old(self)@.staged[at as int]
                        },
                    ));
                },
                OutputState::StderrChunk(_, bytes) => {
                    let mut entry = self.staged.remove(at);
                    append_bytes(&mut entry.stderr, &bytes);
                    self.staged.insert(at, entry);
                    assert(self@.staged =~= old(self)@.staged.update(
                        at as int,
                        Staged {
                            stderr: old(self)@.staged[at as int].stderr + bytes@,
                            ..old(self)@.staged[at as int]
                        },
                    ));
                },
                OutputState::Completed(_) => {
                    let mut entry = self.staged.remove(at);
                    entry.complete = true;
                    self.staged.insert(at, entry);
                    assert(self@.staged =~= old(self)@.staged.update(
                        at as int,
                        Staged { complete: true, ..old(self)@.staged[at as int] },
                    ));
                },
                OutputState::Error(_, message) => {
                    self.replace(
                        at,
                        Entry {
                            job_id: id,
                            stdout: Vec::new(),
                            stderr: bytes_of(&message),
                            complete: true,
                        },
                    );
                },
            }
            Ok(())
        } else {
            match event {
                OutputState::Start(_) => {
                    self.keep(
                        Entry { job_id: id, stdout: Vec::new(), stderr: Vec::new(), complete: false },
                    );
                    Ok(())
                },
                OutputState::Error(_, message) => {
                    self.keep(
                        Entry {
                            job_id: id,
                            stdout: Vec::new(),
                            stderr: bytes_of(&message),
                            complete: true,
                        },
                    );
                    Ok(())
                },
                _ => Err(SerializeErr::NotStarted(id)),
            }
        }
    }

    fn flush(&mut self) -> (blocks: Vec<Block>)
        ensures
            (final(self)@, outputs(blocks@)) == old(self)@.flushed_out(),
    {
        let ghost target = self@.flushed_out();
        let mut blocks: Vec<Block> = Vec::new();
        assert(outputs(blocks@) + target.1 =~= target.1);
        loop
            invariant
                self@.flushed_out().0 == target.0,
                outputs(blocks@) + self@.flushed_out().1 == target.1,
            ensures
                self@ == target.0,
                outputs(blocks@) == target.1,
            decreases self.staged@.len(),
        {
            if self.flushed == usize::MAX {
                proof {
                    lemma_position(self@.staged, self@.next_id(), 0);
                    assert(outputs(blocks@) + Seq::<Output>::empty() =~= outputs(blocks@));
                }
                break ;
            }
            let next: usize = self.flushed + 1;
            let at = self.find(next);
            if at >= self.staged.len() || !self.staged[at].complete {
                proof {
                    assert(outputs(blocks@) + Seq::<Output>::empty() =~= outputs(blocks@));
                }
                break ;
            }
            let ghost before = self@;
            let ghost held = blocks@;
            let entry = self.staged.remove(at);
            let block = Block {
                job_id: entry.job_id,
                stdout: if self.quiet {
                    Vec::new()
                } else {
                    entry.stdout
                },
                stderr: entry.stderr,
            };
            self.flushed = next;
            blocks.push(block);
            proof {
                assert(self@.staged =~= before.staged.remove(at as int));
                assert(self@ == before.without_next());
                assert(block@ == before.output_at(at as int));
                assert(outputs(blocks@) =~= outputs(held).push(block@));
                assert(outputs(blocks@) + self@.flushed_out().1 =~= outputs(held) + (seq![
                    block@,
                ] + self@.flushed_out().1));
            }
        }
        blocks
    }

    /// Takes the report `event` and returns the outputs that can be handed
    /// out now, in the order of the jobs. A report that cannot be right is
    /// refused and changes nothing.
    pub fn handle(&mut self, event: OutputState) -> (result: Result<Vec<Block>, SerializeErr>)
        ensures
            match old(self)@.handled(event@) {
                Ok((next, handed)) => {
                    &&& result matches Ok(blocks)
                    &&& outputs(blocks@) == handed
                    &&& final(self)@ == next
                },
                Err(error) => {
                    &&& result matches Err(refused)
                    &&& refused == error
                    &&& final(self)@ == old(self)@
                },
            },
    {
        match self.apply(event) {
            Ok(()) => Ok(self.flush()),
            Err(error) => Err(error),
        }
    }

    /// Whether the reports may end here: an error unless nothing is kept.
    pub fn finish(&self) -> (result: Result<(), SerializeErr>)
        ensures
            result == self@.finished(),
    {
        if self.staged.len() == 0 {
            Ok(())
        } else {
            Err(SerializeErr::Unfinished(self.staged[0].job_id))
        }
    }
}

/// Builds the reports of one job: each carries the number of the job,
/// and only those are built that come in their turn.
pub struct Reporter {
    job_id: usize,
    phase: Phase,
}

impl Reporter {
    /// The number of the job.
    pub closed spec fn job(self) -> int {
        self.job_id as int
    }

    /// How far the reports have brought the job.
    pub closed spec fn stage(self) -> Phase {
        self.phase
    }

    /// What `report` makes of `event`: it is handed on where it comes in
    /// its turn, and dropped where it does not.
    pub open spec fn reported(self, event: Event, sent: Option<OutputState>, next: Reporter) -> bool {
        &&& next.job() == self.job()
        &&& if allows(self.stage(), event) {
            &&& sent matches Some(report)
            &&& report@ == event
            &&& next.stage() == self.stage().after(event)
        } else {
            &&& sent is None
            &&& next.stage() == self.stage()
        }
    }

    /// A reporter for the job `job_id`, of which nothing was reported.
    pub fn new(job_id: usize) -> (reporter: Reporter)
        ensures
            reporter.job() == job_id,
            reporter.stage() is Fresh,
    {
        Reporter { job_id, phase: Phase::Fresh }
    }

    fn report(&mut self, event: OutputState) -> (sent: Option<OutputState>)
        requires
            event@.job_id() == old(self).job(),
        ensures
            old(self).reported(event@, sent, *final(self)),
    {
        let wanted = match &event {
            OutputState::Start(_) => Phase::Fresh,
            OutputState::Error(_, _) => Phase::Fresh,
            _ => Phase::Running,
        };
        if self.phase != wanted {
            return None;
        }
        self.phase = match &event {
            OutputState::Completed(_) => Phase::Ended,
            OutputState::Error(_, _) => Phase::Ended,
            _ => Phase::Running,
        };
        Some(event)
    }

    /// The report that the job has been started.
    pub fn start(&mut self) -> (sent: Option<OutputState>)
        ensures
            old(self).reported(Event::Start(old(self).job()), sent, *final(self)),
    {
        self.report(OutputState::Start(self.job_id))
    }

    /// The report that the job wrote `bytes` to its standard output.
    pub fn stdout(&mut self, bytes: Vec<u8>) -> (sent: Option<OutputState>)
        ensures
            old(self).reported(Event::Stdout(old(self).job(), bytes@), sent, *final(self)),
    {
        self.report(OutputState::StdoutChunk(self.job_id, bytes))
    }

    /// The report that the job wrote `bytes` to its standard error.
    pub fn stderr(&mut self, bytes: Vec<u8>) -> (sent: Option<OutputState>)
        ensures
            old(self).reported(Event::Stderr(old(self).job(), bytes@), sent, *final(self)),
    {
        self.report(OutputState::StderrChunk(self.job_id, bytes))
    }

    /// The report that the job is done.
    pub fn completed(&mut self) -> (sent: Option<OutputState>)
        ensures
            old(self).reported(Event::Completed(old(self).job()), sent, *final(self)),
    {
        self.report(OutputState::Completed(self.job_id))
    }

    /// The report that the job could not be run, with the message that says why.
    pub fn error(&mut self, message: String) -> (sent: Option<OutputState>)
        ensures
            old(self).reported(
                Event::Error(old(self).job(), encode_utf8(message@)),
                sent,
                *final(self),
            ),
    {
        self.report(OutputState::Error(self.job_id, message))
    }
}

} // verus!
