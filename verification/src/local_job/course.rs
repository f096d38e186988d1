//! What the course of a local process and the courses of its guardian come to
//! together.

use crate::failure::{Failure, FailureKind};
use crate::local_job::guardian::{
    finish_after, finish_course, finish_step, law_a_forced_end_stopped_all,
    law_a_job_is_closed_only_when_empty, law_a_natural_end_is_published, reaped_phase, terminated,
    was_disarmed, was_empty, was_published, was_terminated, FinishEvent, FinishModel,
    FinishOutcome, SubmissionPhase, TerminateEvent, TerminateModel,
};
use crate::local_job::run::{
    law_exit_codes_come_from_natural_ends, run_after, run_course, run_next, run_step, was_done,
    RunEvent, RunModel,
};
use vstd::prelude::*;

verus! {

/// What the guardian's leaving of the job tells the course of its process.
pub open spec fn left_by(finish: Seq<FinishEvent>, e: RunEvent) -> bool {
    &&& finish_course(finish)
    &&& match finish_after(finish) {
        FinishModel::Finished(Ok(outcome)) => e == RunEvent::Left(outcome),
        FinishModel::Finished(Err(f)) => e matches RunEvent::Failed(g) && g@ == f,
        _ => false,
    }
}

/// What the guardian's stopping of the job tells the course of its process; `top` is
/// the handle of the top process.
pub open spec fn stopped_by(top: Option<u64>, stop: Seq<TerminateEvent>, e: RunEvent) -> bool {
    match terminated(top, stop) {
        TerminateModel::Close => e is Done,
        TerminateModel::Quarantine(f) => e matches RunEvent::Failed(g) && g@ == f,
        _ => false,
    }
}

/// What the guardian's stopping of the job tells its leaving of the job.
pub open spec fn stopped_while_leaving(
    top: Option<u64>,
    stop: Seq<TerminateEvent>,
    finish: Seq<FinishEvent>,
) -> bool {
    forall|i: int|
        0 <= i < finish.len() && #[trigger] finish_step(finish, i) is Terminate ==> match terminated(
            top,
            stop,
        ) {
            TerminateModel::Close => finish[i] is Done,
            TerminateModel::Quarantine(f) => finish[i] matches FinishEvent::Failed(g) && g@ == f,
            _ => false,
        }
}

/// Every process of the job was stopped: the top process was ended and waited for,
/// the audit found the job empty, and the monitor was stopped.
pub open spec fn all_stopped(top: Option<u64>, stop: Seq<TerminateEvent>) -> bool {
    &&& top is Some
    &&& stop.len() >= 4
    &&& forall|i: int| 0 <= i < 4 ==> !(#[trigger] stop[i] is Failed)
}

/// The process was seen to end with the exit code `code`.
pub open spec fn has_exited(events: Seq<RunEvent>, code: i32) -> bool {
    exists|i: int|
        0 <= i < events.len() && #[trigger] run_step(events, i) is Wait && events[i]
            == RunEvent::Exited(code)
}

/// An exit code is reported only where the process was seen to end with it, it was
/// told that the process ended by itself, and nothing was stopped: the job was made
/// to leave its processes alone, or was found empty.
pub proof fn law_exit_codes_are_those_of_the_process(
    events: Seq<RunEvent>,
    finish: Seq<FinishEvent>,
    code: i32,
)
    requires
        run_course(events),
        run_after(events) == RunModel::Finished(Ok(code)),
        left_by(finish, events.last()),
    ensures
        has_exited(events, code),
        was_done(events, RunModel::Assign),
        was_done(events, RunModel::Resume),
        was_published(finish),
        was_disarmed(finish) || was_empty(finish),
        !was_terminated(finish),
{
    law_exit_codes_come_from_natural_ends(events, code);
    law_a_natural_end_is_published(finish);
    let n = events.len() as int;
    let init = events.drop_last();
    assert(run_course(init));
    assert(run_after(init) == run_next(run_after(init.drop_last()), init.last()));
    assert(events.take(n - 2) =~= init.drop_last());
    assert(run_step(events, n - 2) is Wait && events[n - 2] == RunEvent::Exited(code));
    lemma_stopping_is_forced(finish);
}

/// Once all processes were stopped, the end is no natural one.
proof fn lemma_stopping_is_forced(finish: Seq<FinishEvent>)
    requires
        finish_course(finish),
    ensures
        was_terminated(finish) ==> finish_after(finish) is PublishForced || finish_after(finish)
            == FinishModel::Finished(Ok(FinishOutcome::Forced)),
    decreases finish.len(),
{
    if was_terminated(finish) {
        let i = choose|i: int|
            0 <= i < finish.len() && #[trigger] finish_step(finish, i) is Terminate
                && finish[i] is Done;
        let init = finish.drop_last();
        lemma_stopping_is_forced(init);
        if i < init.len() {
            assert(finish.take(i) =~= init.take(i));
            assert(finish_step(init, i) is Terminate && init[i] is Done);
        } else {
            assert(finish.take(i) =~= init);
        }
    }
}

/// A process that is to be stopped while it runs is reported as interrupted, and told
/// to be stopped, exactly where every process of the job was; where one may be left,
/// the failure to stop them is reported, and told.
pub proof fn law_forced_processes_are_all_stopped(
    events: Seq<RunEvent>,
    top: Option<u64>,
    stop: Seq<TerminateEvent>,
    end: RunEvent,
)
    requires
        run_course(events),
        run_after(events) is Wait,
        stopped_by(top, stop, end),
    ensures
        ({
            let forced = events.push(RunEvent::Forced);
            let whole = forced.push(end);
            let reaped = terminated(top, stop) is Close;
            &&& run_course(whole)
            &&& run_after(forced) is ForceReap
            &&& !(run_after(forced)->ForceReap_0)
            &&& reaped ==> {
                &&& run_after(whole) matches RunModel::Finished(Err(f))
                &&& f.0 == FailureKind::Interrupted
                &&& all_stopped(top, stop)
                &&& reaped_phase(reaped, run_after(forced)->ForceReap_0)
                    == SubmissionPhase::ForcedReaped
            }
            &&& !reaped ==> {
                &&& run_after(whole) matches RunModel::Finished(Err(f))
                &&& terminated(top, stop) == TerminateModel::Quarantine(f)
                &&& reaped_phase(reaped, run_after(forced)->ForceReap_0)
                    == SubmissionPhase::ForceFailed
            }
        }),
{
    let forced = events.push(RunEvent::Forced);
    let whole = forced.push(end);
    assert(forced.drop_last() =~= events);
    assert(run_after(forced) == run_next(run_after(events), RunEvent::Forced));
    assert(run_course(forced));
    assert(whole.drop_last() =~= forced);
    assert(run_after(whole) == run_next(run_after(forced), end));
    law_a_job_is_closed_only_when_empty(top, stop);
}

/// A job that is stopped after its top process has ended is reported as interrupted
/// only where every process of it was stopped.
pub proof fn law_drained_jobs_are_all_stopped(
    events: Seq<RunEvent>,
    finish: Seq<FinishEvent>,
    top: Option<u64>,
    stop: Seq<TerminateEvent>,
)
    requires
        run_course(events),
        events.len() > 0,
        events.last() == RunEvent::Left(FinishOutcome::Forced),
        left_by(finish, events.last()),
        stopped_while_leaving(top, stop, finish),
    ensures
        run_after(events) matches RunModel::Finished(Err(f)) && f.0 == FailureKind::Interrupted,
        all_stopped(top, stop),
{
    law_a_forced_end_stopped_all(finish);
    let i = choose|i: int|
        0 <= i < finish.len() && #[trigger] finish_step(finish, i) is Terminate && finish[i] is Done;
    law_a_job_is_closed_only_when_empty(top, stop);
}

/// Whether the step is before the process exists.
pub open spec fn is_before_the_process(s: RunModel) -> bool {
    s is CreateJob || s is CreatePort || s is StartMonitor || s is Spawn
}

/// Where the job, the port, the monitor or the process cannot be made, that failure is
/// reported, the submission is told to be safe to make again, and no process was
/// started.
pub proof fn law_failed_set_ups_ran_nothing(
    events: Seq<RunEvent>,
    f: Failure,
    released: RunEvent,
    told: RunEvent,
)
    requires
        is_before_the_process(run_after(events)),
        run_course(events.push(RunEvent::Failed(f)).push(released).push(told)),
    ensures
        ({
            let before = events.push(RunEvent::Failed(f)).push(released);
            let whole = before.push(told);
            &&& run_after(before) == RunModel::Publish(SubmissionPhase::RetrySafeReaped, f@)
            &&& run_after(whole) == RunModel::Finished(Err(f@))
            &&& !was_done(whole, RunModel::Spawn)
            &&& !was_done(whole, RunModel::Resume)
        }),
{
    let failed = events.push(RunEvent::Failed(f));
    let before = failed.push(released);
    let whole = before.push(told);
    assert(whole.drop_last() =~= before);
    assert(run_course(before));
    assert(before.drop_last() =~= failed);
    assert(run_course(failed));
    assert(failed.drop_last() =~= events);
    assert(run_course(events));
    assert(run_after(failed) is Release);
    assert(run_after(before) is Publish);
    let n = events.len() as int;
    assert forall|i: int| 0 <= i < whole.len() && whole[i] is Done implies #[trigger] run_step(
        whole,
        i,
    ) != RunModel::Spawn && run_step(whole, i) != RunModel::Resume by {
        if i < n {
            assert(whole.take(i) =~= events.take(i));
            assert(events[i] == whole[i]);
            lemma_not_started(events, i);
        } else if i == n + 1 {
            assert(whole.take(i) =~= failed);
        } else if i == n + 2 {
            assert(whole.take(i) =~= before);
        }
    }
}

/// Up to the step that starts the process, it was not started.
proof fn lemma_not_started(events: Seq<RunEvent>, i: int)
    requires
        run_course(events),
        run_after(events) is BeginSetup || is_before_the_process(run_after(events)),
        0 <= i < events.len(),
        events[i] is Done,
    ensures
        run_step(events, i) != RunModel::Spawn,
        run_step(events, i) != RunModel::Resume,
    decreases events.len(),
{
    let init = events.drop_last();
    if i < init.len() {
        assert(events.take(i) =~= init.take(i));
        lemma_not_started(init, i);
    } else {
        assert(events.take(i) =~= init);
    }
}

} // verus!
