//! What holds of the outputs that the serializer hands out, whatever the
//! order in which the reports of the jobs arrive.

use super::{
    allows, lemma_position, position, Event, Output, Pending, Phase, SerializeErr, Staged,
};
use vstd::prelude::*;

verus! {

/// What a serializer that starts with nothing makes of the reports `events`,
/// where it refuses none: what it is left with, and all the outputs that it
/// has handed out, in order.
pub open spec fn run(quiet: bool, events: Seq<Event>) -> Result<(Pending, Seq<Output>), SerializeErr>
    decreases events.len(),
{
    if events.len() == 0 {
        Ok((Pending::initial(quiet), Seq::empty()))
    } else {
        match run(quiet, events.drop_last()) {
            Err(error) => Err(error),
            Ok((state, handed)) => match state.handled(events.last()) {
                Err(error) => Err(error),
                Ok((next, more)) => Ok((next, handed + more)),
            },
        }
    }
}

/// What the job `id` wrote to its standard output, as `events` report it:
/// its chunks in the order in which they came. Of a job that could not be
/// run nothing counts.
pub open spec fn job_stdout(events: Seq<Event>, id: int) -> Seq<u8>
    decreases events.len(),
{
    if events.len() == 0 {
        Seq::empty()
    } else {
        let before = job_stdout(events.drop_last(), id);
        match events.last() {
            Event::Stdout(job, bytes) => if job == id {
                before + bytes
            } else {
                before
            },
            Event::Error(job, _) => if job == id {
                Seq::empty()
            } else {
                before
            },
            _ => before,
        }
    }
}

/// What the job `id` wrote to its standard error, as `events` report it:
/// its chunks in the order in which they came. Of a job that could not be
/// run it is the message that says why.
pub open spec fn job_stderr(events: Seq<Event>, id: int) -> Seq<u8>
    decreases events.len(),
{
    if events.len() == 0 {
        Seq::empty()
    } else {
        let before = job_stderr(events.drop_last(), id);
        match events.last() {
            Event::Stderr(job, bytes) => if job == id {
                before + bytes
            } else {
                before
            },
            Event::Error(job, message) => if job == id {
                message
            } else {
                before
            },
            _ => before,
        }
    }
}

/// How many of `events` say that the job `id` is over.
pub open spec fn endings(events: Seq<Event>, id: int) -> nat
    decreases events.len(),
{
    if events.len() == 0 {
        0
    } else if events.last().ends_job() && events.last().job_id() == id {
        endings(events.drop_last(), id) + 1
    } else {
        endings(events.drop_last(), id)
    }
}

/// Whether `entry` holds what `events` report of its job, a job whose
/// output is still awaited.
pub open spec fn entry_agrees(events: Seq<Event>, flushed: int, entry: Staged) -> bool {
    &&& entry.job_id > flushed
    &&& entry.stdout == job_stdout(events, entry.job_id)
    &&& entry.stderr == job_stderr(events, entry.job_id)
    &&& endings(events, entry.job_id) == if entry.complete {
        1nat
    } else {
        0nat
    }
}

/// Whether `output`, handed out as number `i`, is that of the job `i + 1`
/// as `events` report it.
pub open spec fn output_agrees(events: Seq<Event>, quiet: bool, output: Output, i: int) -> bool {
    &&& output.job_id == i + 1
    &&& output.stdout == if quiet {
        Seq::<u8>::empty()
    } else {
        job_stdout(events, i + 1)
    }
    &&& output.stderr == job_stderr(events, i + 1)
}

/// Whether `events` report nothing of the job `id`.
pub open spec fn unheard(events: Seq<Event>, id: int) -> bool {
    &&& endings(events, id) == 0
    &&& job_stdout(events, id) == Seq::<u8>::empty()
    &&& job_stderr(events, id) == Seq::<u8>::empty()
}

/// Whether no entry of `staged` is about the job `id`.
pub open spec fn unknown(staged: Seq<Staged>, id: int) -> bool {
    forall|k: int| 0 <= k < staged.len() ==> (#[trigger] staged[k]).job_id != id
}

/// Whether `state` and the outputs `handed` agree with the reports `events`.
pub open spec fn consistent(events: Seq<Event>, state: Pending, handed: Seq<Output>) -> bool {
    &&& state.flushed >= 0
    &&& handed.len() == state.flushed
    &&& forall|i: int|
        0 <= i < handed.len() ==> output_agrees(events, state.quiet, #[trigger] handed[i], i)
    &&& forall|id: int| 1 <= id <= state.flushed ==> #[trigger] endings(events, id) == 1
    &&& forall|k: int|
        0 <= k < state.staged.len() ==> entry_agrees(events, state.flushed, #[trigger] state.staged[k])
    &&& forall|j: int, k: int|
        0 <= j < k < state.staged.len() ==> (#[trigger] state.staged[j]).job_id != (
        #[trigger] state.staged[k]).job_id
    &&& forall|id: int|
        (id <= 0 || (id > state.flushed && unknown(state.staged, id))) ==> #[trigger] unheard(
            events,
            id,
        )
}

/// A report about one job changes nothing of what is reported of another.
proof fn lemma_other_job(events: Seq<Event>, event: Event, id: int)
    requires
        event.job_id() != id,
    ensures
        job_stdout(events.push(event), id) == job_stdout(events, id),
        job_stderr(events.push(event), id) == job_stderr(events, id),
        endings(events.push(event), id) == endings(events, id),
{
    assert(events.push(event).drop_last() =~= events);
}

/// What a report changes of what is reported of its own job.
proof fn lemma_same_job(events: Seq<Event>, event: Event)
    ensures
        job_stdout(events.push(event), event.job_id()) == match event {
            Event::Stdout(_, bytes) => job_stdout(events, event.job_id()) + bytes,
            Event::Error(_, _) => Seq::<u8>::empty(),
            _ => job_stdout(events, event.job_id()),
        },
        job_stderr(events.push(event), event.job_id()) == match event {
            Event::Stderr(_, bytes) => job_stderr(events, event.job_id()) + bytes,
            Event::Error(_, message) => message,
            _ => job_stderr(events, event.job_id()),
        },
        endings(events.push(event), event.job_id()) == if event.ends_job() {
            endings(events, event.job_id()) + 1
        } else {
            endings(events, event.job_id())
        },
{
    assert(events.push(event).drop_last() =~= events);
}

/// Whether a job is unknown shows in where `position` points.
proof fn lemma_unknown(staged: Seq<Staged>, id: int)
    ensures
        unknown(staged, id) <==> position(staged, id, 0) >= staged.len(),
{
    lemma_position(staged, id, 0);
}

/// A report that is accepted keeps the serializer in agreement with the reports.
proof fn lemma_applied(events: Seq<Event>, state: Pending, handed: Seq<Output>, event: Event)
    requires
        consistent(events, state, handed),
        state.applied(event) is Ok,
    ensures
        consistent(events.push(event), state.applied(event)->Ok_0, handed),
{
    let next = state.applied(event)->Ok_0;
    let after = events.push(event);
    let id = event.job_id();
    let at = position(state.staged, id, 0);
    lemma_position(state.staged, id, 0);
    lemma_unknown(state.staged, id);
    lemma_same_job(events, event);
    assert(next.flushed == state.flushed);
    assert(next.quiet == state.quiet);
    assert(id > state.flushed);
    assert forall|i: int| 0 <= i < handed.len() implies output_agrees(
        after,
        next.quiet,
        #[trigger] handed[i],
        i,
    ) by {
        assert(output_agrees(events, state.quiet, handed[i], i));
        lemma_other_job(events, event, i + 1);
    }
    assert forall|other: int| 1 <= other <= next.flushed implies #[trigger] endings(after, other)
        == 1 by {
        assert(endings(events, other) == 1);
        lemma_other_job(events, event, other);
    }
    assert forall|k: int| 0 <= k < next.staged.len() implies entry_agrees(
        after,
        next.flushed,
        #[trigger] next.staged[k],
    ) by {
        if k < state.staged.len() && !(at < state.staged.len() && k == at) {
            assert(next.staged[k] == state.staged[k]);
            assert(entry_agrees(events, state.flushed, state.staged[k]));
            assert(state.staged[k].job_id != id) by {
                if at < state.staged.len() {
                    if k < at {
                        assert(state.staged[k].job_id != state.staged[at].job_id);
                    } else {
                        assert(state.staged[at].job_id != state.staged[k].job_id);
                    }
                }
            }
            lemma_other_job(events, event, state.staged[k].job_id);
        } else if k < state.staged.len() {
            assert(entry_agrees(events, state.flushed, state.staged[at]));
        } else {
            assert(unknown(state.staged, id));
            assert(unheard(events, id));
        }
    }
    assert forall|j: int, k: int| 0 <= j < k < next.staged.len() implies (
    #[trigger] next.staged[j]).job_id != (#[trigger] next.staged[k]).job_id by {
        if k < state.staged.len() {
            assert(state.staged[j].job_id != state.staged[k].job_id);
            assert(next.staged[j].job_id == state.staged[j].job_id);
            assert(next.staged[k].job_id == state.staged[k].job_id);
        } else {
            assert(next.staged[j].job_id == state.staged[j].job_id);
            assert(next.staged[k].job_id == id);
        }
    }
    assert forall|other: int|
        (other <= 0 || (other > next.flushed && unknown(next.staged, other))) implies #[trigger] unheard(
        after,
        other,
    ) by {
        if other == id {
            if at < state.staged.len() {
                assert(next.staged[at].job_id == id);
            } else {
                assert(next.staged[state.staged.len() as int].job_id == id);
            }
        } else {
            lemma_other_job(events, event, other);
            if other > 0 {
                assert(unknown(state.staged, other)) by {
                    assert forall|k: int| 0 <= k < state.staged.len() implies (
                    #[trigger] state.staged[k]).job_id != other by {
                        assert(next.staged[k].job_id == state.staged[k].job_id);
                    }
                }
            }
            assert(unheard(events, other));
        }
    }
}

/// Handing out the outputs that are due keeps the serializer in agreement
/// with the reports.
proof fn lemma_flushed_out(events: Seq<Event>, state: Pending, handed: Seq<Output>)
    requires
        consistent(events, state, handed),
    ensures
        consistent(events, state.flushed_out().0, handed + state.flushed_out().1),
    decreases state.staged.len(),
{
    if state.is_due() {
        let at = position(state.staged, state.next_id(), 0);
        lemma_position(state.staged, state.next_id(), 0);
        let next = state.without_next();
        let output = state.output_at(at);
        let more = handed.push(output);
        assert(entry_agrees(events, state.flushed, state.staged[at]));
        assert forall|i: int| 0 <= i < more.len() implies output_agrees(
            events,
            next.quiet,
            #[trigger] more[i],
            i,
        ) by {
            if i < handed.len() {
                assert(output_agrees(events, state.quiet, handed[i], i));
            }
        }
        assert forall|id: int| 1 <= id <= next.flushed implies #[trigger] endings(events, id)
            == 1 by {
            if id <= state.flushed {
                assert(endings(events, id) == 1);
            }
        }
        assert forall|k: int| 0 <= k < next.staged.len() implies entry_agrees(
            events,
            next.flushed,
            #[trigger] next.staged[k],
        ) by {
            let was = if k < at {
                k
            } else {
                k + 1
            };
            assert(next.staged[k] == state.staged[was]);
            assert(entry_agrees(events, state.flushed, state.staged[was]));
            if was < at {
                assert(state.staged[was].job_id != state.staged[at].job_id);
            } else {
                assert(state.staged[at].job_id != state.staged[was].job_id);
            }
        }
        assert forall|j: int, k: int| 0 <= j < k < next.staged.len() implies (
        #[trigger] next.staged[j]).job_id != (#[trigger] next.staged[k]).job_id by {
            let was_j = if j < at {
                j
            } else {
                j + 1
            };
            let was_k = if k < at {
                k
            } else {
                k + 1
            };
            assert(next.staged[j] == state.staged[was_j]);
            assert(next.staged[k] == state.staged[was_k]);
            assert(state.staged[was_j].job_id != state.staged[was_k].job_id);
        }
        assert forall|id: int|
            (id <= 0 || (id > next.flushed && unknown(next.staged, id))) implies #[trigger] unheard(
            events,
            id,
        ) by {
            if id > 0 {
                assert(unknown(state.staged, id)) by {
                    assert forall|k: int| 0 <= k < state.staged.len() implies (
                    #[trigger] state.staged[k]).job_id != id by {
                        if k < at {
                            assert(next.staged[k] == state.staged[k]);
                        } else if k > at {
                            assert(next.staged[k - 1] == state.staged[k]);
                        }
                    }
                }
            }
        }
        assert(consistent(events, next, more));
        lemma_flushed_out(events, next, more);
        assert(handed + state.flushed_out().1 =~= more + next.flushed_out().1);
    } else {
        assert(handed + state.flushed_out().1 =~= handed);
    }
}

/// Whatever reports a serializer accepts, it stays in agreement with them.
proof fn lemma_run(quiet: bool, events: Seq<Event>)
    requires
        run(quiet, events) is Ok,
    ensures
        consistent(events, run(quiet, events)->Ok_0.0, run(quiet, events)->Ok_0.1),
        run(quiet, events)->Ok_0.0.quiet == quiet,
    decreases events.len(),
{
    if events.len() > 0 {
        let before = events.drop_last();
        let event = events.last();
        lemma_run(quiet, before);
        let (state, handed) = run(quiet, before)->Ok_0;
        let applied = state.applied(event)->Ok_0;
        assert(before.push(event) =~= events);
        lemma_applied(before, state, handed, event);
        lemma_flushed_out(events, applied, handed);
        lemma_flushed_quiet(applied);
    }
}

/// Handing out outputs does not change whether the standard output is dropped.
proof fn lemma_flushed_quiet(state: Pending)
    ensures
        state.flushed_out().0.quiet == state.quiet,
    decreases state.staged.len(),
{
    if state.is_due() {
        lemma_position(state.staged, state.next_id(), 0);
        lemma_flushed_quiet(state.without_next());
    }
}

/// The outputs come in the order of the jobs, whatever the order of the
/// reports: output number `i`, counted from zero, is that of the job `i + 1`.
/// It holds what that job wrote to its standard output, chunk by chunk in
/// the order in which the chunks were reported (nothing where the standard
/// output is dropped), and what it wrote to its standard error.
pub proof fn lemma_outputs_in_order(quiet: bool, events: Seq<Event>)
    requires
        run(quiet, events) is Ok,
    ensures
        ({
            let (state, handed) = run(quiet, events)->Ok_0;
            &&& handed.len() == state.flushed
            &&& forall|i: int|
                0 <= i < handed.len() ==> {
                    &&& (#[trigger] handed[i]).job_id == i + 1
                    &&& handed[i].stdout == if quiet {
                        Seq::<u8>::empty()
                    } else {
                        job_stdout(events, i + 1)
                    }
                    &&& handed[i].stderr == job_stderr(events, i + 1)
                }
        }),
{
    lemma_run(quiet, events);
    let (state, handed) = run(quiet, events)->Ok_0;
    assert forall|i: int| 0 <= i < handed.len() implies {
        &&& (#[trigger] handed[i]).job_id == i + 1
        &&& handed[i].stdout == if quiet {
            Seq::<u8>::empty()
        } else {
            job_stdout(events, i + 1)
        }
        &&& handed[i].stderr == job_stderr(events, i + 1)
    } by {
        assert(output_agrees(events, state.quiet, handed[i], i));
    }
}

/// Where the reports end with nothing kept, the jobs that were heard of are
/// the jobs 1 to N for some N, the output of each was handed out, and each
/// was reported as over exactly once; no other job was.
pub proof fn lemma_every_job_ends_once(quiet: bool, events: Seq<Event>)
    requires
        run(quiet, events) is Ok,
        run(quiet, events)->Ok_0.0.finished() is Ok,
    ensures
        ({
            let (state, handed) = run(quiet, events)->Ok_0;
            &&& handed.len() == state.flushed
            &&& forall|id: int|
                #[trigger] endings(events, id) == if 1 <= id <= state.flushed {
                    1nat
                } else {
                    0nat
                }
        }),
{
    lemma_run(quiet, events);
    let (state, handed) = run(quiet, events)->Ok_0;
    assert forall|id: int|
        #[trigger] endings(events, id) == if 1 <= id <= state.flushed {
            1nat
        } else {
            0nat
        } by {
        if !(1 <= id <= state.flushed) {
            assert(unknown(state.staged, id));
            assert(unheard(events, id));
        }
    }
}


/// How far `events` have brought the job `id`: that is told by the last
/// report about it.
pub open spec fn phase(events: Seq<Event>, id: int) -> Phase
    decreases events.len(),
{
    if events.len() == 0 {
        Phase::Fresh
    } else if events.last().job_id() != id {
        phase(events.drop_last(), id)
    } else if events.last().ends_job() {
        Phase::Ended
    } else {
        Phase::Running
    }
}

/// Whether a worker sends `event` after `events`: a job is reported as
/// started once, before anything else is reported of it; its chunks and its
/// end follow while it runs; a job that could not be run is reported as
/// that and nothing else.
pub open spec fn in_turn(events: Seq<Event>, event: Event) -> bool {
    allows(phase(events, event.job_id()), event)
}

/// Whether `events` are reports as the workers send them for the jobs 1 to
/// `n`, in whatever order the jobs run: each report is about one of these
/// jobs and comes in its turn.
pub open spec fn orderly(events: Seq<Event>, n: int) -> bool
    decreases events.len(),
{
    if events.len() == 0 {
        true
    } else {
        &&& orderly(events.drop_last(), n)
        &&& 1 <= events.last().job_id() <= n
        &&& in_turn(events.drop_last(), events.last())
    }
}

/// Whether `events` are the reports of a whole run of the jobs 1 to `n`:
/// they are orderly, and each of the jobs is over.
pub open spec fn whole_run(events: Seq<Event>, n: int) -> bool {
    &&& n >= 0
    &&& orderly(events, n)
    &&& forall|id: int| 1 <= id <= n ==> #[trigger] phase(events, id) is Ended
}

/// Whether `state` keeps step with `events`: the jobs whose output was
/// handed out are over, the jobs that are kept are those that were heard of
/// and whose output is awaited, and a kept job counts as over exactly where
/// it was reported so.
pub open spec fn in_step(events: Seq<Event>, state: Pending) -> bool {
    &&& state.flushed >= 0
    &&& forall|k: int| 0 <= k < state.staged.len() ==> (#[trigger] state.staged[k]).job_id > state.flushed
    &&& forall|j: int, k: int|
        0 <= j < k < state.staged.len() ==> (#[trigger] state.staged[j]).job_id != (
        #[trigger] state.staged[k]).job_id
    &&& forall|id: int|
        id >= 1 ==> ((#[trigger] phase(events, id)) is Fresh <==> (id > state.flushed && unknown(
            state.staged,
            id,
        )))
    &&& forall|k: int|
        0 <= k < state.staged.len() ==> ((#[trigger] state.staged[k]).complete <==> phase(
            events,
            state.staged[k].job_id,
        ) is Ended)
    &&& forall|id: int| 1 <= id <= state.flushed ==> #[trigger] phase(events, id) is Ended
}

proof fn lemma_phase_other(events: Seq<Event>, event: Event, id: int)
    requires
        event.job_id() != id,
    ensures
        phase(events.push(event), id) == phase(events, id),
{
    assert(events.push(event).drop_last() =~= events);
}

proof fn lemma_phase_same(events: Seq<Event>, event: Event)
    ensures
        phase(events.push(event), event.job_id()) == if event.ends_job() {
            Phase::Ended
        } else {
            Phase::Running
        },
{
    assert(events.push(event).drop_last() =~= events);
}

/// Only the jobs 1 to `n` are heard of in orderly reports.
proof fn lemma_heard_of(events: Seq<Event>, n: int, id: int)
    requires
        orderly(events, n),
        !(phase(events, id) is Fresh),
    ensures
        1 <= id <= n,
    decreases events.len(),
{
    if events.len() > 0 && events.last().job_id() != id {
        lemma_heard_of(events.drop_last(), n, id);
    }
}

/// A report that comes in its turn is accepted, and the serializer keeps
/// step with the reports.
proof fn lemma_in_turn_applied(events: Seq<Event>, state: Pending, event: Event)
    requires
        in_step(events, state),
        event.job_id() >= 1,
        in_turn(events, event),
    ensures
        state.applied(event) is Ok,
        in_step(events.push(event), state.applied(event)->Ok_0),
{
    let id = event.job_id();
    let at = position(state.staged, id, 0);
    let after = events.push(event);
    lemma_position(state.staged, id, 0);
    lemma_unknown(state.staged, id);
    lemma_phase_same(events, event);
    assert(!(phase(events, id) is Ended));
    assert(id > state.flushed) by {
        if id <= state.flushed {
            assert(phase(events, id) is Ended);
        }
    }
    if at < state.staged.len() {
        assert(!unknown(state.staged, id));
        assert(!(phase(events, id) is Fresh));
        assert(!state.staged[at].complete);
    } else {
        assert(unknown(state.staged, id));
        assert(phase(events, id) is Fresh);
    }
    let next = state.applied(event)->Ok_0;
    assert(next.flushed == state.flushed);
    assert forall|k: int| 0 <= k < next.staged.len() implies (#[trigger] next.staged[k]).job_id
        > next.flushed by {
        if k < state.staged.len() {
            assert(next.staged[k].job_id == state.staged[k].job_id);
        }
    }
    assert forall|j: int, k: int| 0 <= j < k < next.staged.len() implies (
    #[trigger] next.staged[j]).job_id != (#[trigger] next.staged[k]).job_id by {
        assert(next.staged[j].job_id == state.staged[j].job_id);
        if k < state.staged.len() {
            assert(next.staged[k].job_id == state.staged[k].job_id);
        } else {
            assert(next.staged[k].job_id == id);
        }
    }
    assert forall|other: int| other >= 1 implies ((#[trigger] phase(after, other)) is Fresh <==> (
    other > next.flushed && unknown(next.staged, other))) by {
        if other == id {
            if at < state.staged.len() {
                assert(next.staged[at].job_id == id);
            } else {
                assert(next.staged[state.staged.len() as int].job_id == id);
            }
        } else {
            lemma_phase_other(events, event, other);
            if unknown(next.staged, other) {
                assert forall|k: int| 0 <= k < state.staged.len() implies (
                #[trigger] state.staged[k]).job_id != other by {
                    assert(next.staged[k].job_id == state.staged[k].job_id);
                }
            }
            if unknown(state.staged, other) {
                assert forall|k: int| 0 <= k < next.staged.len() implies (
                #[trigger] next.staged[k]).job_id != other by {
                    if k < state.staged.len() {
                        assert(next.staged[k].job_id == state.staged[k].job_id);
                    }
                }
            }
        }
    }
    assert forall|k: int| 0 <= k < next.staged.len() implies ((
    #[trigger] next.staged[k]).complete <==> phase(after, next.staged[k].job_id) is Ended) by {
        if k < state.staged.len() && !(at < state.staged.len() && k == at) {
            assert(next.staged[k] == state.staged[k]);
            assert(state.staged[k].job_id != id) by {
                if at < state.staged.len() {
                    if k < at {
                        assert(state.staged[k].job_id != state.staged[at].job_id);
                    } else {
                        assert(state.staged[at].job_id != state.staged[k].job_id);
                    }
                }
            }
            lemma_phase_other(events, event, state.staged[k].job_id);
        }
    }
    assert forall|other: int| 1 <= other <= next.flushed implies #[trigger] phase(after, other)
        is Ended by {
        assert(phase(events, other) is Ended);
        lemma_phase_other(events, event, other);
    }
}

/// Handing out the outputs that are due keeps the serializer in step with
/// the reports, and leaves nothing that is due.
proof fn lemma_flushed_in_step(events: Seq<Event>, state: Pending)
    requires
        in_step(events, state),
    ensures
        in_step(events, state.flushed_out().0),
        !state.flushed_out().0.is_due(),
    decreases state.staged.len(),
{
    if state.is_due() {
        let at = position(state.staged, state.next_id(), 0);
        lemma_position(state.staged, state.next_id(), 0);
        let next = state.without_next();
        assert forall|k: int| 0 <= k < next.staged.len() implies (#[trigger] next.staged[k]).job_id
            > next.flushed by {
            let was = if k < at {
                k
            } else {
                k + 1
            };
            assert(next.staged[k] == state.staged[was]);
            if was < at {
                assert(state.staged[was].job_id != state.staged[at].job_id);
            } else {
                assert(state.staged[at].job_id != state.staged[was].job_id);
            }
        }
        assert forall|j: int, k: int| 0 <= j < k < next.staged.len() implies (
        #[trigger] next.staged[j]).job_id != (#[trigger] next.staged[k]).job_id by {
            let was_j = if j < at {
                j
            } else {
                j + 1
            };
            let was_k = if k < at {
                k
            } else {
                k + 1
            };
            assert(next.staged[j] == state.staged[was_j]);
            assert(next.staged[k] == state.staged[was_k]);
            assert(state.staged[was_j].job_id != state.staged[was_k].job_id);
        }
        assert forall|id: int| id >= 1 implies ((#[trigger] phase(events, id)) is Fresh <==> (id
            > next.flushed && unknown(next.staged, id))) by {
            if id == state.next_id() {
                assert(!unknown(state.staged, id));
            } else {
                if unknown(next.staged, id) {
                    assert forall|k: int| 0 <= k < state.staged.len() implies (
                    #[trigger] state.staged[k]).job_id != id by {
                        if k < at {
                            assert(next.staged[k] == state.staged[k]);
                        } else if k > at {
                            assert(next.staged[k - 1] == state.staged[k]);
                        }
                    }
                }
                if unknown(state.staged, id) {
                    assert forall|k: int| 0 <= k < next.staged.len() implies (
                    #[trigger] next.staged[k]).job_id != id by {
                        let was = if k < at {
                            k
                        } else {
                            k + 1
                        };
                        assert(next.staged[k] == state.staged[was]);
                    }
                }
            }
        }
        assert forall|k: int| 0 <= k < next.staged.len() implies ((
        #[trigger] next.staged[k]).complete <==> phase(events, next.staged[k].job_id)
            is Ended) by {
            let was = if k < at {
                k
            } else {
                k + 1
            };
            assert(next.staged[k] == state.staged[was]);
        }
        assert forall|id: int| 1 <= id <= next.flushed implies #[trigger] phase(events, id)
            is Ended by {
            if id <= state.flushed {
                assert(phase(events, id) is Ended);
            } else {
                assert(state.staged[at].complete);
            }
        }
        lemma_flushed_in_step(events, next);
    }
}

/// Orderly reports are all accepted, and the serializer keeps step with
/// them and holds nothing that is due.
proof fn lemma_orderly_run(quiet: bool, events: Seq<Event>, n: int)
    requires
        orderly(events, n),
    ensures
        run(quiet, events) is Ok,
        in_step(events, run(quiet, events)->Ok_0.0),
        !run(quiet, events)->Ok_0.0.is_due(),
    decreases events.len(),
{
    if events.len() == 0 {
        let state = Pending::initial(quiet);
        assert(unknown(state.staged, state.next_id()));
        lemma_unknown(state.staged, state.next_id());
    } else {
        let before = events.drop_last();
        let event = events.last();
        lemma_orderly_run(quiet, before, n);
        let state = run(quiet, before)->Ok_0.0;
        assert(before.push(event) =~= events);
        lemma_in_turn_applied(before, state, event);
        lemma_flushed_in_step(events, state.applied(event)->Ok_0);
    }
}

/// A report that a `Reporter` lets through for one of the jobs 1 to `n`
/// keeps the reports orderly, where the reporter stands where the reports
/// have brought its job.
pub proof fn lemma_report_in_turn(events: Seq<Event>, n: int, stage: Phase, event: Event)
    requires
        orderly(events, n),
        1 <= event.job_id() <= n,
        stage == phase(events, event.job_id()),
        allows(stage, event),
    ensures
        orderly(events.push(event), n),
        phase(events.push(event), event.job_id()) == stage.after(event),
{
    assert(events.push(event).drop_last() =~= events);
}

/// Whatever the order in which the jobs run and end, the reports that the
/// workers send are all accepted.
pub proof fn lemma_orderly_reports_are_accepted(quiet: bool, events: Seq<Event>, n: int)
    requires
        orderly(events, n),
    ensures
        run(quiet, events) is Ok,
{
    lemma_orderly_run(quiet, events, n);
}

/// After the reports of a whole run of the jobs 1 to `n` nothing is kept:
/// the outputs of all `n` jobs have been handed out, that of the job `i + 1`
/// as number `i`, whatever the order in which the jobs ran and ended.
pub proof fn lemma_whole_run_is_handed_out(quiet: bool, events: Seq<Event>, n: int)
    requires
        whole_run(events, n),
    ensures
        run(quiet, events) is Ok,
        run(quiet, events)->Ok_0.0.finished() is Ok,
        run(quiet, events)->Ok_0.0.flushed == n,
        run(quiet, events)->Ok_0.1.len() == n,
        forall|i: int| 0 <= i < n ==> (#[trigger] run(quiet, events)->Ok_0.1[i]).job_id == i + 1,
{
    lemma_orderly_run(quiet, events, n);
    lemma_outputs_in_order(quiet, events);
    let (state, handed) = run(quiet, events)->Ok_0;
    let next = state.next_id();
    lemma_position(state.staged, next, 0);
    lemma_unknown(state.staged, next);
    if state.flushed < n {
        assert(phase(events, next) is Ended);
        assert(!unknown(state.staged, next));
        let at = position(state.staged, next, 0);
        assert(state.staged[at].complete);
        assert(state.is_due());
    }
    if state.flushed > n {
        assert(phase(events, state.flushed) is Ended);
        lemma_heard_of(events, n, state.flushed);
    }
    if state.staged.len() > 0 {
        let id = state.staged[0].job_id;
        assert(!unknown(state.staged, id));
        assert(!(phase(events, id) is Fresh));
        lemma_heard_of(events, n, id);
    }
}

} // verus!
