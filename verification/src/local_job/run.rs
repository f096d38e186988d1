//! The course of one local process: set up, run, and left behind.

use crate::failure::{Failure, FailureKind};
use crate::local_job::guardian::{FinishOutcome, SubmissionPhase};
use crate::text::{decimal, decimal_of};
use vstd::prelude::*;

verus! {

/// What to do next for a local process.
pub enum RunState {
    /// Claim the right to set a process up.
    BeginSetup,
    CreateJob,
    /// Make the completion port and tie it to the job.
    CreatePort,
    StartMonitor,
    /// Start the process, suspended.
    Spawn,
    /// Keep a handle of the process.
    DuplicateHandle,
    /// Put the process into the job.
    Assign,
    ReadPid,
    /// Make the monitor know the process.
    SeedTop,
    Resume,
    /// Tell that the process runs.
    PublishActive,
    /// Wait until the process has ended or is to be stopped.
    Wait,
    /// Leave the job alone; the exit code of the process.
    FinishNatural(i32),
    /// Let go of the job, the port and the monitor, as far as they are there, and
    /// report the failure.
    Release { job: bool, port: bool, monitor: bool, failure: Failure },
    /// Stop the process itself, which is in no job, and wait for its end.
    StopChild(Failure),
    /// Let go of the job, the port and the monitor; `stopped` tells whether the
    /// process has ended.
    ReleaseAll { stopped: bool, failure: Failure },
    /// Tell how it ended, and report the failure.
    Publish(SubmissionPhase, Failure),
    /// Stop all processes of the job, and report the failure. `setup` tells whether
    /// it was not told yet that the process runs; `strict`, whether a failure to stop them is
    /// reported in place of the other.
    ForceReap { setup: bool, strict: bool, failure: Failure },
    /// The end. Whatever the job still holds is stopped when its guardian goes.
    Finished(Result<i32, Failure>),
}

/// What came of it.
pub enum RunEvent {
    /// It was done, or the answer is yes.
    Done,
    /// The answer is no.
    Refused,
    /// It failed.
    Failed(Failure),
    /// The process has no handle or number to work with.
    Unavailable(Failure),
    /// The process ended.
    Exited(i32),
    /// The process is to be stopped.
    Forced,
    /// The job was left alone or stopped.
    Left(FinishOutcome),
}

/// A state without the text of a failure.
pub enum RunModel {
    BeginSetup,
    CreateJob,
    CreatePort,
    StartMonitor,
    Spawn,
    DuplicateHandle,
    Assign,
    ReadPid,
    SeedTop,
    Resume,
    PublishActive,
    Wait,
    FinishNatural(i32),
    Release(bool, bool, bool, (FailureKind, Seq<char>)),
    StopChild((FailureKind, Seq<char>)),
    ReleaseAll(bool, (FailureKind, Seq<char>)),
    Publish(SubmissionPhase, (FailureKind, Seq<char>)),
    ForceReap(bool, bool, (FailureKind, Seq<char>)),
    Finished(Result<i32, (FailureKind, Seq<char>)>),
}

pub open spec fn exit_view(r: Result<i32, Failure>) -> Result<i32, (FailureKind, Seq<char>)> {
    match r {
        Ok(code) => Ok(code),
        Err(f) => Err(f@),
    }
}

impl View for RunState {
    type V = RunModel;

    open spec fn view(&self) -> RunModel {
        match *self {
            RunState::BeginSetup => RunModel::BeginSetup,
            RunState::CreateJob => RunModel::CreateJob,
            RunState::CreatePort => RunModel::CreatePort,
            RunState::StartMonitor => RunModel::StartMonitor,
            RunState::Spawn => RunModel::Spawn,
            RunState::DuplicateHandle => RunModel::DuplicateHandle,
            RunState::Assign => RunModel::Assign,
            RunState::ReadPid => RunModel::ReadPid,
            RunState::SeedTop => RunModel::SeedTop,
            RunState::Resume => RunModel::Resume,
            RunState::PublishActive => RunModel::PublishActive,
            RunState::Wait => RunModel::Wait,
            RunState::FinishNatural(code) => RunModel::FinishNatural(code),
            RunState::Release { job, port, monitor, failure } => RunModel::Release(
                job,
                port,
                monitor,
                failure@,
            ),
            RunState::StopChild(f) => RunModel::StopChild(f@),
            RunState::ReleaseAll { stopped, failure } => RunModel::ReleaseAll(stopped, failure@),
            RunState::Publish(phase, f) => RunModel::Publish(phase, f@),
            RunState::ForceReap { setup, strict, failure } => RunModel::ForceReap(
                setup,
                strict,
                failure@,
            ),
            RunState::Finished(r) => RunModel::Finished(exit_view(r)),
        }
    }
}

/// Whether an event can follow a step.
pub open spec fn run_expects(s: RunModel, e: RunEvent) -> bool {
    match s {
        RunModel::BeginSetup => e is Done || e is Refused,
        RunModel::CreateJob => e is Done || e is Failed,
        RunModel::CreatePort => e is Done || e is Failed,
        RunModel::StartMonitor => e is Done || e is Failed,
        RunModel::Spawn => e is Done || e is Failed,
        RunModel::DuplicateHandle => e is Done || e is Failed,
        RunModel::Assign => e is Done || e is Failed || e is Unavailable,
        RunModel::ReadPid => e is Done || e is Unavailable,
        RunModel::SeedTop => e is Done || e is Failed,
        RunModel::Resume => e is Done || e is Failed,
        RunModel::PublishActive => e is Done || e is Refused,
        RunModel::Wait => e is Exited || e is Forced || e is Failed,
        RunModel::FinishNatural(_) => e is Left || e is Failed,
        RunModel::Release(_, _, _, _) => e is Done,
        RunModel::StopChild(_) => e is Done || e is Failed,
        RunModel::ReleaseAll(_, _) => e is Done,
        RunModel::Publish(_, _) => e is Done || e is Refused,
        RunModel::ForceReap(_, _, _) => e is Done || e is Failed,
        RunModel::Finished(_) => false,
    }
}

/// How it goes on.
pub open spec fn run_next(s: RunModel, e: RunEvent) -> RunModel {
    match (s, e) {
        (RunModel::BeginSetup, RunEvent::Done) => RunModel::CreateJob,
        (RunModel::BeginSetup, _) => RunModel::Finished(
            Err((FailureKind::Interrupted, "submission was stopped before local process setup"@)),
        ),
        (RunModel::CreateJob, RunEvent::Done) => RunModel::CreatePort,
        (RunModel::CreateJob, RunEvent::Failed(f)) => RunModel::Release(false, false, false, f@),
        (RunModel::CreatePort, RunEvent::Done) => RunModel::StartMonitor,
        (RunModel::CreatePort, RunEvent::Failed(f)) => RunModel::Release(true, false, false, f@),
        (RunModel::StartMonitor, RunEvent::Done) => RunModel::Spawn,
        (RunModel::StartMonitor, RunEvent::Failed(f)) => RunModel::Release(true, true, false, f@),
        (RunModel::Spawn, RunEvent::Done) => RunModel::DuplicateHandle,
        (RunModel::Spawn, RunEvent::Failed(f)) => RunModel::Release(true, true, true, f@),
        (RunModel::DuplicateHandle, RunEvent::Done) => RunModel::Assign,
        (RunModel::DuplicateHandle, RunEvent::Failed(f)) => RunModel::StopChild(f@),
        (RunModel::Assign, RunEvent::Done) => RunModel::ReadPid,
        (RunModel::Assign, RunEvent::Failed(f)) => RunModel::ForceReap(
            true,
            true,
            (f.kind, "AssignProcessToJobObject failed: "@ + f.message@),
        ),
        (RunModel::Assign, RunEvent::Unavailable(f)) => RunModel::Finished(Err(f@)),
        (RunModel::ReadPid, RunEvent::Done) => RunModel::SeedTop,
        (RunModel::ReadPid, RunEvent::Unavailable(f)) => RunModel::Finished(Err(f@)),
        (RunModel::SeedTop, RunEvent::Done) => RunModel::Resume,
        (RunModel::SeedTop, RunEvent::Failed(f)) => RunModel::ForceReap(true, false, f@),
        (RunModel::Resume, RunEvent::Done) => RunModel::PublishActive,
        (RunModel::Resume, RunEvent::Failed(f)) => RunModel::ForceReap(true, true, f@),
        (RunModel::PublishActive, RunEvent::Done) => RunModel::Wait,
        (RunModel::PublishActive, _) => RunModel::ForceReap(
            true,
            true,
            (FailureKind::Other, "submission phase changed before child became active"@),
        ),
        (RunModel::Wait, RunEvent::Exited(code)) => RunModel::FinishNatural(code),
        (RunModel::Wait, RunEvent::Forced) => RunModel::ForceReap(
            false,
            true,
            (FailureKind::Interrupted, "local process was stopped for daemon shutdown"@),
        ),
        (RunModel::Wait, RunEvent::Failed(f)) => RunModel::Finished(Err(f@)),
        (RunModel::FinishNatural(code), RunEvent::Left(FinishOutcome::Natural)) =>
        RunModel::Finished(Ok(code)),
        (RunModel::FinishNatural(_), RunEvent::Left(FinishOutcome::Forced)) => RunModel::Finished(
            Err((FailureKind::Interrupted, "local process tree was stopped during post-exit drain"@)),
        ),
        (RunModel::FinishNatural(_), RunEvent::Failed(f)) => RunModel::Finished(Err(f@)),
        (RunModel::Release(_, _, _, f), _) => RunModel::Publish(
            SubmissionPhase::RetrySafeReaped,
            f,
        ),
        (RunModel::StopChild(f), RunEvent::Failed(_)) => RunModel::ReleaseAll(false, f),
        (RunModel::StopChild(f), _) => RunModel::ReleaseAll(true, f),
        (RunModel::ReleaseAll(stopped, f), _) => RunModel::Publish(
            if stopped {
                SubmissionPhase::RetrySafeReaped
            } else {
                SubmissionPhase::ForceFailed
            },
            f,
        ),
        (RunModel::Publish(_, f), _) => RunModel::Finished(Err(f)),
        (RunModel::ForceReap(_, strict, f), RunEvent::Failed(other)) => RunModel::Finished(
            Err(
                if strict {
                    other@
                } else {
                    f
                },
            ),
        ),
        (RunModel::ForceReap(_, _, f), _) => RunModel::Finished(Err(f)),
        _ => s,
    }
}

impl RunState {
    pub fn begin() -> (r: RunState)
        ensures
            r@ == RunModel::BeginSetup,
    {
        RunState::BeginSetup
    }

    /// Goes on with what came of the last step.
    pub fn next(self, event: RunEvent) -> (r: RunState)
        requires
            run_expects(self@, event),
        ensures
            r@ == run_next(self@, event),
    {
        match (self, event) {
            (RunState::BeginSetup, RunEvent::Done) => RunState::CreateJob,
            (RunState::BeginSetup, _) => RunState::Finished(
                Err(
                    Failure::new(
                        FailureKind::Interrupted,
                        "submission was stopped before local process setup",
                    ),
                ),
            ),
            (RunState::CreateJob, RunEvent::Failed(failure)) => RunState::Release {
                job: false,
                port: false,
                monitor: false,
                failure,
            },
            (RunState::CreateJob, _) => RunState::CreatePort,
            (RunState::CreatePort, RunEvent::Failed(failure)) => RunState::Release {
                job: true,
                port: false,
                monitor: false,
                failure,
            },
            (RunState::CreatePort, _) => RunState::StartMonitor,
            (RunState::StartMonitor, RunEvent::Failed(failure)) => RunState::Release {
                job: true,
                port: true,
                monitor: false,
                failure,
            },
            (RunState::StartMonitor, _) => RunState::Spawn,
            (RunState::Spawn, RunEvent::Failed(failure)) => RunState::Release {
                job: true,
                port: true,
                monitor: true,
                failure,
            },
            (RunState::Spawn, _) => RunState::DuplicateHandle,
            (RunState::DuplicateHandle, RunEvent::Failed(f)) => RunState::StopChild(f),
            (RunState::DuplicateHandle, _) => RunState::Assign,
            (RunState::Assign, RunEvent::Failed(f)) => RunState::ForceReap {
                setup: true,
                strict: true,
                failure: Failure::about(
                    f.kind,
                    "AssignProcessToJobObject failed: ",
                    f.message.as_str(),
                ),
            },
            (RunState::Assign, RunEvent::Unavailable(f)) => RunState::Finished(Err(f)),
            (RunState::Assign, _) => RunState::ReadPid,
            (RunState::ReadPid, RunEvent::Unavailable(f)) => RunState::Finished(Err(f)),
            (RunState::ReadPid, _) => RunState::SeedTop,
            (RunState::SeedTop, RunEvent::Failed(failure)) => RunState::ForceReap {
                setup: true,
                strict: false,
                failure,
            },
            (RunState::SeedTop, _) => RunState::Resume,
            (RunState::Resume, RunEvent::Failed(failure)) => RunState::ForceReap {
                setup: true,
                strict: true,
                failure,
            },
            (RunState::Resume, _) => RunState::PublishActive,
            (RunState::PublishActive, RunEvent::Done) => RunState::Wait,
            (RunState::PublishActive, _) => RunState::ForceReap {
                setup: true,
                strict: true,
                failure: Failure::new(
                    FailureKind::Other,
                    "submission phase changed before child became active",
                ),
            },
            (RunState::Wait, RunEvent::Exited(code)) => RunState::FinishNatural(code),
            (RunState::Wait, RunEvent::Failed(f)) => RunState::Finished(Err(f)),
            (RunState::Wait, _) => RunState::ForceReap {
                setup: false,
                strict: true,
                failure: Failure::new(
                    FailureKind::Interrupted,
                    "local process was stopped for daemon shutdown",
                ),
            },
            (RunState::FinishNatural(code), RunEvent::Left(outcome)) => match outcome {
                FinishOutcome::Natural => RunState::Finished(Ok(code)),
                FinishOutcome::Forced => RunState::Finished(
                    Err(
                        Failure::new(
                            FailureKind::Interrupted,
                            "local process tree was stopped during post-exit drain",
                        ),
                    ),
                ),
            },
            (RunState::FinishNatural(_), RunEvent::Failed(f)) => RunState::Finished(Err(f)),
            (RunState::Release { failure, .. }, _) => RunState::Publish(
                SubmissionPhase::RetrySafeReaped,
                failure,
            ),
            (RunState::StopChild(failure), RunEvent::Failed(_)) => RunState::ReleaseAll {
                stopped: false,
                failure,
            },
            (RunState::StopChild(failure), _) => RunState::ReleaseAll { stopped: true, failure },
            (RunState::ReleaseAll { stopped, failure }, _) => if stopped {
                RunState::Publish(SubmissionPhase::RetrySafeReaped, failure)
            } else {
                RunState::Publish(SubmissionPhase::ForceFailed, failure)
            },
            (RunState::Publish(_, f), _) => RunState::Finished(Err(f)),
            (RunState::ForceReap { strict, failure, .. }, RunEvent::Failed(other)) => if strict {
                RunState::Finished(Err(other))
            } else {
                RunState::Finished(Err(failure))
            },
            (RunState::ForceReap { failure, .. }, _) => RunState::Finished(Err(failure)),
            (s, _) => s,
        }
    }
}

/// A possible course: each event can follow the step before it.
pub open spec fn run_course(events: Seq<RunEvent>) -> bool
    decreases events.len(),
{
    events.len() == 0 || (run_course(events.drop_last()) && run_expects(
        run_after(events.drop_last()),
        events.last(),
    ))
}

/// Where a course leads.
pub open spec fn run_after(events: Seq<RunEvent>) -> RunModel
    decreases events.len(),
{
    if events.len() == 0 {
        RunModel::BeginSetup
    } else {
        run_next(run_after(events.drop_last()), events.last())
    }
}

/// The step that an event of a course answered.
pub open spec fn run_step(events: Seq<RunEvent>, i: int) -> RunModel {
    run_after(events.take(i))
}

/// Whether the step `s` of a course was done.
pub open spec fn was_done(events: Seq<RunEvent>, s: RunModel) -> bool {
    exists|i: int| 0 <= i < events.len() && #[trigger] run_step(events, i) == s && events[i] is Done
}

/// How many steps of a set-up are behind the step `s`.
pub open spec fn progress(s: RunModel) -> nat {
    match s {
        RunModel::BeginSetup => 0,
        RunModel::CreateJob => 1,
        RunModel::CreatePort => 2,
        RunModel::StartMonitor => 3,
        RunModel::Spawn => 4,
        RunModel::DuplicateHandle => 5,
        RunModel::Assign => 6,
        RunModel::ReadPid => 7,
        RunModel::SeedTop => 8,
        RunModel::Resume => 9,
        RunModel::PublishActive => 10,
        RunModel::Wait => 11,
        RunModel::FinishNatural(_) => 12,
        _ => 0,
    }
}

/// The step of a set-up that `n` steps are behind.
pub open spec fn setup_step(n: nat) -> RunModel {
    if n == 0 {
        RunModel::BeginSetup
    } else if n == 1 {
        RunModel::CreateJob
    } else if n == 2 {
        RunModel::CreatePort
    } else if n == 3 {
        RunModel::StartMonitor
    } else if n == 4 {
        RunModel::Spawn
    } else if n == 5 {
        RunModel::DuplicateHandle
    } else if n == 6 {
        RunModel::Assign
    } else if n == 7 {
        RunModel::ReadPid
    } else if n == 8 {
        RunModel::SeedTop
    } else if n == 9 {
        RunModel::Resume
    } else {
        RunModel::PublishActive
    }
}

proof fn lemma_done_stays(events: Seq<RunEvent>, s: RunModel)
    requires
        events.len() > 0,
        was_done(events.drop_last(), s),
    ensures
        was_done(events, s),
{
    let init = events.drop_last();
    let i = choose|i: int|
        0 <= i < init.len() && #[trigger] run_step(init, i) == s && init[i] is Done;
    assert(events.take(i) =~= init.take(i));
    assert(run_step(events, i) == s && events[i] is Done);
}

proof fn lemma_progress(events: Seq<RunEvent>)
    requires
        run_course(events),
    ensures
        forall|n: nat|
            n < progress(run_after(events)) && n < 11 ==> was_done(events, #[trigger] setup_step(n)),
        run_after(events) matches RunModel::Finished(r) && r is Ok ==> (forall|n: nat|
            n < 11 ==> was_done(events, #[trigger] setup_step(n))),
    decreases events.len(),
{
    if events.len() > 0 {
        let init = events.drop_last();
        lemma_progress(init);
        let before = run_after(init);
        let k = init.len() as int;
        assert(events.take(k) =~= init);
        assert(run_step(events, k) == before && events[k] == events.last());
        if events.last() is Done {
            assert(was_done(events, before));
        }
        assert forall|n: nat| n < progress(run_after(events)) && n < 11 implies was_done(
            events,
            #[trigger] setup_step(n),
        ) by {
            if n < progress(before) {
                lemma_done_stays(events, setup_step(n));
            } else {
                assert(setup_step(n) == before);
            }
        }
        if run_after(events) matches RunModel::Finished(r) && r is Ok {
            assert forall|n: nat| n < 11 implies was_done(events, #[trigger] setup_step(n)) by {
                lemma_done_stays(events, setup_step(n));
            }
        }
    }
}

/// The process begins to run only after it was put into the job and the monitor
/// knows it.
pub proof fn law_nothing_runs_outside_the_job(events: Seq<RunEvent>)
    requires
        run_course(events),
        run_after(events) is Resume,
    ensures
        was_done(events, RunModel::Spawn),
        was_done(events, RunModel::Assign),
        was_done(events, RunModel::SeedTop),
{
    lemma_progress(events);
    assert(setup_step(4) == RunModel::Spawn);
    assert(setup_step(6) == RunModel::Assign);
    assert(setup_step(8) == RunModel::SeedTop);
}

/// An exit code is reported only of a process that was set up whole, told to run,
/// and whose job was left alone.
pub proof fn law_exit_codes_come_from_natural_ends(events: Seq<RunEvent>, code: i32)
    requires
        run_course(events),
        run_after(events) == RunModel::Finished(Ok(code)),
    ensures
        was_done(events, RunModel::Assign),
        was_done(events, RunModel::Resume),
        was_done(events, RunModel::PublishActive),
        run_after(events.drop_last()) == RunModel::FinishNatural(code),
        events.last() == RunEvent::Left(FinishOutcome::Natural),
{
    lemma_progress(events);
    assert(setup_step(6) == RunModel::Assign);
    assert(setup_step(9) == RunModel::Resume);
    assert(setup_step(10) == RunModel::PublishActive);
}

/// A failure before the process exists lets go of what was made and tells that the
/// submission can be made again.
pub proof fn law_failures_before_the_process_are_retry_safe(s: RunModel, f: Failure, e: RunEvent)
    requires
        s is CreateJob || s is CreatePort || s is StartMonitor || s is Spawn,
        run_expects(run_next(s, RunEvent::Failed(f)), e),
    ensures
        run_next(s, RunEvent::Failed(f)) is Release,
        run_next(run_next(s, RunEvent::Failed(f)), e) == RunModel::Publish(
            SubmissionPhase::RetrySafeReaped,
            f@,
        ),
{
}

/// Where a set-up lets go of what it made and tells that the submission can be made
/// again, the process was not told to run. This says nothing of a job that is stopped
/// during its set-up: that is told the same, also where the process was told to run
/// just before.
pub proof fn law_released_set_ups_ran_nothing(events: Seq<RunEvent>)
    requires
        run_course(events),
        run_after(events) matches RunModel::Publish(phase, _)
            && phase == SubmissionPhase::RetrySafeReaped,
    ensures
        !was_done(events, RunModel::Resume),
{
    lemma_early(events);
}

/// The set-up has not come to resuming the process, and cannot any more or has not
/// yet.
spec fn is_early(s: RunModel) -> bool {
    match s {
        RunModel::Release(_, _, _, _) | RunModel::StopChild(_) | RunModel::ReleaseAll(_, _)
        | RunModel::Publish(_, _) => true,
        RunModel::BeginSetup | RunModel::CreateJob | RunModel::CreatePort
        | RunModel::StartMonitor | RunModel::Spawn | RunModel::DuplicateHandle | RunModel::Assign
        | RunModel::ReadPid | RunModel::SeedTop | RunModel::Resume => true,
        _ => false,
    }
}

proof fn lemma_early(events: Seq<RunEvent>)
    requires
        run_course(events),
        is_early(run_after(events)),
    ensures
        !was_done(events, RunModel::Resume),
    decreases events.len(),
{
    if was_done(events, RunModel::Resume) {
        let i = choose|i: int|
            0 <= i < events.len() && #[trigger] run_step(events, i) == RunModel::Resume
                && events[i] is Done;
        let init = events.drop_last();
        assert(is_early(run_after(init)));
        lemma_early(init);
        if i < init.len() {
            assert(events.take(i) =~= init.take(i));
            assert(run_step(init, i) == RunModel::Resume && init[i] is Done);
        } else {
            assert(events.take(i) =~= init);
        }
    }
}

/// The threads of the process `pid` among `entries`, pairs of an owner and a
/// thread.
pub open spec fn threads_of(entries: Seq<(u32, u32)>, pid: u32) -> Seq<u32>
    decreases entries.len(),
{
    if entries.len() == 0 {
        Seq::empty()
    } else {
        let before = threads_of(entries.drop_last(), pid);
        if entries.last().0 == pid {
            before.push(entries.last().1)
        } else {
            before
        }
    }
}

/// Which thread of a suspended process to resume: its only one.
pub fn initial_thread(pid: u32, entries: &Vec<(u32, u32)>) -> (r: Result<u32, Failure>)
    ensures
        ({
            let threads = threads_of(entries@, pid);
            match r {
                Ok(id) => threads == seq![id],
                Err(f) => threads.len() != 1 && f@ == (
                    FailureKind::Other,
                    "suspended child "@ + decimal(pid as nat) + " has "@ + decimal(threads.len())
                        + " initial threads; refusing ambiguous resume"@,
                ),
            }
        }),
{
    let mut found: Vec<u32> = Vec::new();
    let mut i: usize = 0;
    while i < entries.len()
        invariant
            i <= entries@.len(),
            found@ == threads_of(entries@.take(i as int), pid),
        decreases entries@.len() - i,
    {
        assert(entries@.take(i + 1).drop_last() =~= entries@.take(i as int));
        if entries[i].0 == pid {
            found.push(entries[i].1);
        }
        i = i + 1;
    }
    assert(entries@.take(i as int) =~= entries@);
    if found.len() != 1 {
        let mut m = "suspended child ".to_owned();
        m.append(decimal_of(pid as u64).as_str());
        m.append(" has ");
        m.append(decimal_of(found.len() as u64).as_str());
        m.append(" initial threads; refusing ambiguous resume");
        return Err(Failure { kind: FailureKind::Other, message: m });
    }
    let id: u32 = found[0];
    assert(found@ =~= seq![id]);
    Ok(id)
}

/// Where every step of a set-up is done, in their order, the process runs and is waited for;
/// when it ends and its job is left alone, its exit code is reported.
pub proof fn law_processes_that_are_set_up_run(events: Seq<RunEvent>, code: i32)
    requires
        events.len() == 11,
        forall|i: int| 0 <= i < events.len() ==> #[trigger] events[i] is Done,
    ensures
        run_course(events),
        run_after(events) is Wait,
        ({
            let exited = events.push(RunEvent::Exited(code));
            let left = exited.push(RunEvent::Left(FinishOutcome::Natural));
            &&& run_course(left)
            &&& run_after(left) == RunModel::Finished(Ok(code))
        }),
{
    lemma_set_up(events, 11);
    assert(events.take(11) =~= events);
    let exited = events.push(RunEvent::Exited(code));
    let left = exited.push(RunEvent::Left(FinishOutcome::Natural));
    assert(exited.drop_last() =~= events);
    assert(left.drop_last() =~= exited);
    assert(run_course(exited));
    assert(run_after(exited) == RunModel::FinishNatural(code));
}

proof fn lemma_set_up(events: Seq<RunEvent>, n: nat)
    requires
        n <= 11 && events.len() == 11,
        forall|i: int| 0 <= i < events.len() ==> #[trigger] events[i] is Done,
    ensures
        run_course(events.take(n as int)),
        run_after(events.take(n as int)) == if n < 11 {
            setup_step(n)
        } else {
            RunModel::Wait
        },
    decreases n,
{
    if n > 0 {
        let m = (n - 1) as nat;
        lemma_set_up(events, m);
        let now = events.take(n as int);
        assert(now.drop_last() =~= events.take(m as int));
        assert(now.last() == events[m as int]);
    }
}

/// What to let go of after a failed step is exactly what was made before it.
pub proof fn law_what_was_made_is_let_go_of(f: Failure)
    ensures
        run_next(RunModel::CreateJob, RunEvent::Failed(f)) == RunModel::Release(
            false,
            false,
            false,
            f@,
        ),
        run_next(RunModel::CreatePort, RunEvent::Failed(f)) == RunModel::Release(
            true,
            false,
            false,
            f@,
        ),
        run_next(RunModel::StartMonitor, RunEvent::Failed(f)) == RunModel::Release(
            true,
            true,
            false,
            f@,
        ),
        run_next(RunModel::Spawn, RunEvent::Failed(f)) == RunModel::Release(true, true, true, f@),
{
}

/// A process that is in no job yet is stopped by itself; the submission can be made again
/// exactly where it has ended, and either way the failure is reported.
pub proof fn law_stray_processes_are_stopped(f: Failure, g: Failure, e: RunEvent)
    ensures
        ({
            let stop = run_next(RunModel::DuplicateHandle, RunEvent::Failed(f));
            let ended = run_next(run_next(stop, RunEvent::Done), RunEvent::Done);
            let alive = run_next(run_next(stop, RunEvent::Failed(g)), RunEvent::Done);
            &&& stop == RunModel::StopChild(f@)
            &&& ended == RunModel::Publish(SubmissionPhase::RetrySafeReaped, f@)
            &&& alive == RunModel::Publish(SubmissionPhase::ForceFailed, f@)
            &&& run_next(ended, e) == RunModel::Finished(Err(f@))
            &&& run_next(alive, e) == RunModel::Finished(Err(f@))
        }),
{
}

/// Once the process is in its job, a failure stops all of the job and is then reported. Where
/// stopping fails too, that is reported in its place, except where the monitor could not be
/// told of the process.
pub proof fn law_failures_behind_the_process_stop_the_job(s: RunModel, f: Failure, g: Failure)
    requires
        s is Assign || s is SeedTop || s is Resume,
    ensures
        ({
            let reap = run_next(s, RunEvent::Failed(f));
            &&& reap is ForceReap && reap->ForceReap_0
            &&& run_expects(reap, RunEvent::Done) && run_expects(reap, RunEvent::Failed(g))
            &&& run_next(reap, RunEvent::Done) == RunModel::Finished(
                Err(
                    (
                        f.kind,
                        if s is Assign {
                            "AssignProcessToJobObject failed: "@ + f.message@
                        } else {
                            f.message@
                        },
                    ),
                ),
            )
            &&& run_next(reap, RunEvent::Failed(g)) == RunModel::Finished(
                Err(
                    if s is SeedTop {
                        f@
                    } else {
                        g@
                    },
                ),
            )
        }),
{
}

/// A process that cannot be set up any more, or that is not waited for to its end, is never
/// reported with an exit code.
pub proof fn law_other_ends_are_failures(f: Failure, code: i32)
    ensures
        run_next(RunModel::BeginSetup, RunEvent::Refused) matches RunModel::Finished(r) && r is Err
            && r->Err_0.0 == FailureKind::Interrupted,
        run_next(RunModel::PublishActive, RunEvent::Refused) is ForceReap,
        run_next(RunModel::Wait, RunEvent::Failed(f)) == RunModel::Finished(Err(f@)),
        run_next(RunModel::Assign, RunEvent::Unavailable(f)) == RunModel::Finished(Err(f@)),
        run_next(RunModel::ReadPid, RunEvent::Unavailable(f)) == RunModel::Finished(Err(f@)),
        run_next(RunModel::FinishNatural(code), RunEvent::Failed(f)) == RunModel::Finished(
            Err(f@),
        ),
        run_next(RunModel::FinishNatural(code), RunEvent::Left(FinishOutcome::Forced)) matches
            RunModel::Finished(r) && r is Err && r->Err_0.0 == FailureKind::Interrupted,
{
}

/// The threads of a process are those that name it as their owner, in their order.
pub proof fn law_threads_belong_to_their_process(
    entries: Seq<(u32, u32)>,
    owner: u32,
    thread: u32,
    pid: u32,
)
    ensures
        threads_of(Seq::empty(), pid).len() == 0,
        owner == pid ==> threads_of(entries.push((owner, thread)), pid) == threads_of(
            entries,
            pid,
        ).push(thread),
        owner != pid ==> threads_of(entries.push((owner, thread)), pid) == threads_of(entries, pid),
{
    assert(entries.push((owner, thread)).drop_last() =~= entries);
}

} // verus!
