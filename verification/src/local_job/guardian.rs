//! The guardian of a job: how its processes are stopped, how it is left alone
//! once the top process has ended, and what is told of either.

use crate::failure::{Failure, FailureKind};
use crate::local_job::audit::AuditOutcome;
use crate::local_job::monitor::MonitorState;
use crate::text::{decimal, decimal_of};
use vstd::prelude::*;

verus! {

/// How far the local process of a submission has come.
#[derive(Clone, Copy, Debug, PartialEq, Eq, Structural)]
pub enum SubmissionPhase {
    /// No process was started.
    Idle,
    SettingUp,
    Active,
    Terminating,
    /// The process ended by itself, and nothing of it is held back.
    NaturalReaped,
    /// The set-up failed, and no process of it is left: the submission can be made
    /// again.
    RetrySafeReaped,
    /// The process tree was stopped.
    ForcedReaped,
    /// The submission ended without having had a process.
    AbortedNoChild,
    /// Stopping failed: processes may be left.
    ForceFailed,
}

/// How the job of a process that has ended was left.
#[derive(Clone, Copy, Debug, PartialEq, Eq, Structural)]
pub enum FinishOutcome {
    Natural,
    Forced,
}

/// The phase that stopping a job ends in: `setup` tells whether its process was
/// still being set up.
pub open spec fn reaped_phase(reaped: bool, setup: bool) -> SubmissionPhase {
    if !reaped {
        SubmissionPhase::ForceFailed
    } else if setup {
        SubmissionPhase::RetrySafeReaped
    } else {
        SubmissionPhase::ForcedReaped
    }
}

/// The phase to publish once the processes of a job were stopped, or could not be.
pub fn phase_after_cleanup(reaped: bool, setup: bool) -> (r: SubmissionPhase)
    ensures
        r == reaped_phase(reaped, setup),
{
    if !reaped {
        SubmissionPhase::ForceFailed
    } else if setup {
        SubmissionPhase::RetrySafeReaped
    } else {
        SubmissionPhase::ForcedReaped
    }
}

/// Why a job cannot be finished: it was given up or stopped already, or there is
/// nothing to finish.
pub fn finish_refusal(started: bool, has_handles: bool) -> (r: Option<Failure>)
    ensures
        match r {
            None => !started && has_handles,
            Some(f) => {
                &&& started || !has_handles
                &&& f@ == (
                    FailureKind::Other,
                    if started {
                        "process guardian already consumed"@
                    } else {
                        "process guardian handles missing"@
                    },
                )
            },
        },
{
    if started {
        Some(Failure::new(FailureKind::Other, "process guardian already consumed"))
    } else if !has_handles {
        Some(Failure::new(FailureKind::Other, "process guardian handles missing"))
    } else {
        None
    }
}

/// Puts a job aside whose processes could not be accounted for: notes the error,
/// counts the case, and gives the line to log.
pub fn record_quarantine(state: &mut MonitorState, count: &mut u64, error: &Failure) -> (r: String)
    requires
        *old(count) < u64::MAX,
    ensures
        final(state)@ == old(state)@.with_error(error.message@),
        *final(count) == *old(count) + 1,
        r@ == "Sembazuru local process guardian quarantine "@ + decimal(*final(count) as nat)
            + ": "@ + error.message@,
{
    state.record_error(error.message.as_str());
    *count = *count + 1;
    let mut line = "Sembazuru local process guardian quarantine ".to_owned();
    line.append(decimal_of(*count).as_str());
    line.append(": ");
    line.append(error.message.as_str());
    line
}

/// What to do next to stop all processes of a job.
pub enum TerminateState {
    /// End the job's processes, and the top process by itself as well.
    TerminateBoth(u64),
    /// Wait until the top process has ended.
    AwaitTop(u64),
    /// Audit the job until it is empty.
    Audit,
    /// Stop the monitor.
    StopMonitor,
    /// Let go of all handles; the job is done with.
    Close,
    /// Put the job aside and report the failure.
    Quarantine(Failure),
}

/// What came of it.
pub enum TerminateEvent {
    /// It was done.
    Done,
    /// Only one of the two was done; that is enough.
    HalfDone,
    /// It failed: what the system says of it.
    Failed(Failure),
}

/// A state without the text of a failure.
pub enum TerminateModel {
    TerminateBoth(u64),
    AwaitTop(u64),
    Audit,
    StopMonitor,
    Close,
    Quarantine((FailureKind, Seq<char>)),
}

impl View for TerminateState {
    type V = TerminateModel;

    open spec fn view(&self) -> TerminateModel {
        match *self {
            TerminateState::TerminateBoth(h) => TerminateModel::TerminateBoth(h),
            TerminateState::AwaitTop(h) => TerminateModel::AwaitTop(h),
            TerminateState::Audit => TerminateModel::Audit,
            TerminateState::StopMonitor => TerminateModel::StopMonitor,
            TerminateState::Close => TerminateModel::Close,
            TerminateState::Quarantine(f) => TerminateModel::Quarantine(f@),
        }
    }
}

/// How stopping begins; `top` is the handle of the top process.
pub open spec fn terminate_start(top: Option<u64>) -> TerminateModel {
    match top {
        Some(handle) => TerminateModel::TerminateBoth(handle),
        None => TerminateModel::Quarantine(
            (FailureKind::Other, "top process handle missing during force"@),
        ),
    }
}

/// How stopping goes on.
pub open spec fn terminate_next(s: TerminateModel, e: TerminateEvent) -> TerminateModel {
    match s {
        TerminateModel::TerminateBoth(handle) => match e {
            TerminateEvent::Failed(f) => TerminateModel::Quarantine(
                (f.kind, "terminating process and Job both failed: "@ + f.message@),
            ),
            _ => TerminateModel::AwaitTop(handle),
        },
        TerminateModel::AwaitTop(_) => match e {
            TerminateEvent::Failed(f) => TerminateModel::Quarantine(
                (f.kind, "waiting for top process failed: "@ + f.message@),
            ),
            _ => TerminateModel::Audit,
        },
        TerminateModel::Audit => match e {
            TerminateEvent::Failed(f) => TerminateModel::Quarantine(f@),
            _ => TerminateModel::StopMonitor,
        },
        TerminateModel::StopMonitor => match e {
            TerminateEvent::Failed(f) => TerminateModel::Quarantine(f@),
            _ => TerminateModel::Close,
        },
        TerminateModel::Close => s,
        TerminateModel::Quarantine(_) => s,
    }
}

impl TerminateState {
    /// Begins to stop all processes of a job.
    pub fn begin(top: Option<u64>) -> (r: TerminateState)
        ensures
            r@ == terminate_start(top),
    {
        match top {
            Some(handle) => TerminateState::TerminateBoth(handle),
            None => TerminateState::Quarantine(
                Failure::new(FailureKind::Other, "top process handle missing during force"),
            ),
        }
    }

    /// Goes on with what came of the last step. Whatever has ended stays ended.
    pub fn next(self, event: TerminateEvent) -> (r: TerminateState)
        ensures
            r@ == terminate_next(self@, event),
    {
        match self {
            TerminateState::TerminateBoth(handle) => match event {
                TerminateEvent::Failed(f) => TerminateState::Quarantine(
                    Failure::about(
                        f.kind,
                        "terminating process and Job both failed: ",
                        f.message.as_str(),
                    ),
                ),
                _ => TerminateState::AwaitTop(handle),
            },
            TerminateState::AwaitTop(_) => match event {
                TerminateEvent::Failed(f) => TerminateState::Quarantine(
                    Failure::about(
                        f.kind,
                        "waiting for top process failed: ",
                        f.message.as_str(),
                    ),
                ),
                _ => TerminateState::Audit,
            },
            TerminateState::Audit => match event {
                TerminateEvent::Failed(f) => TerminateState::Quarantine(f),
                _ => TerminateState::StopMonitor,
            },
            TerminateState::StopMonitor => match event {
                TerminateEvent::Failed(f) => TerminateState::Quarantine(f),
                _ => TerminateState::Close,
            },
            TerminateState::Close => TerminateState::Close,
            TerminateState::Quarantine(f) => TerminateState::Quarantine(f),
        }
    }
}

/// Where stopping has come to after the events `events`.
pub open spec fn terminated(top: Option<u64>, events: Seq<TerminateEvent>) -> TerminateModel
    decreases events.len(),
{
    if events.len() == 0 {
        terminate_start(top)
    } else {
        terminate_next(terminated(top, events.drop_last()), events.last())
    }
}

/// The handles are let go of only when the top process was ended and waited for,
/// the audit found the job empty, and the monitor was stopped; after any failure
/// the job is put aside for good.
pub proof fn law_a_job_is_closed_only_when_empty(top: Option<u64>, events: Seq<TerminateEvent>)
    ensures
        terminated(top, events) is Close ==> {
            &&& top is Some
            &&& events.len() >= 4
            &&& forall|i: int| 0 <= i < 4 ==> !(#[trigger] events[i] is Failed)
        },
        (exists|i: int| 0 <= i < 4 && i < events.len() && #[trigger] events[i] is Failed)
            ==> terminated(top, events) is Quarantine,
        top is None ==> terminated(top, events) is Quarantine,
{
    lemma_terminated(top, events);
}

proof fn lemma_terminated(top: Option<u64>, events: Seq<TerminateEvent>)
    ensures
        ({
            let s = terminated(top, events);
            let n = events.len();
            &&& top is None ==> s is Quarantine
            &&& (exists|i: int| 0 <= i < 4 && i < n && #[trigger] events[i] is Failed)
                ==> s is Quarantine
            &&& top is Some && !(exists|i: int|
                0 <= i < 4 && i < n && #[trigger] events[i] is Failed) ==> {
                &&& n == 0 ==> s is TerminateBoth
                &&& n == 1 ==> s is AwaitTop
                &&& n == 2 ==> s is Audit
                &&& n == 3 ==> s is StopMonitor
                &&& n >= 4 ==> s is Close
            }
        }),
    decreases events.len(),
{
    if events.len() > 0 {
        let init = events.drop_last();
        lemma_terminated(top, init);
        let s = terminated(top, init);
        let bad = exists|i: int| 0 <= i < 4 && i < events.len() && #[trigger] events[i] is Failed;
        let bad_before = exists|i: int| 0 <= i < 4 && i < init.len() && #[trigger] init[i] is Failed;
        if bad {
            let i = choose|i: int| 0 <= i < 4 && i < events.len() && #[trigger] events[i] is Failed;
            if i < init.len() {
                assert(init[i] is Failed);
            } else {
                assert(events.last() is Failed);
            }
        }
        if bad_before {
            let i = choose|i: int| 0 <= i < 4 && i < init.len() && #[trigger] init[i] is Failed;
            assert(events[i] is Failed);
        }
        if !bad && events.len() <= 4 {
            assert(!(events[events.len() - 1] is Failed));
        }
    }
}

/// What to do next with a job whose top process has ended.
pub enum FinishState {
    /// See whether the processes are to be stopped by force, and if so whether this
    /// is the one to do it. `armed` tells whether the job still ends its processes
    /// with itself.
    CheckForce { armed: bool },
    /// Stop all processes of the job.
    Terminate,
    /// Tell that they were stopped.
    PublishForced,
    /// Make the job leave its processes alone.
    Disarm,
    /// Audit the job until it is empty, or until it is to be stopped by force.
    Audit,
    /// Stop the monitor. `disarmed` tells whether the job leaves its processes alone.
    StopMonitor { disarmed: bool },
    /// Let go of all handles.
    Close { disarmed: bool },
    /// Put the job aside, but go on: its processes are left alone already.
    SetAside(Failure),
    /// Tell that the process ended by itself; what to report if it is too late.
    PublishNatural(Failure),
    /// Put the job aside and report the failure.
    Quarantine(Failure),
    /// Tell that processes may be left, and report the failure.
    PublishFailed(Failure),
    /// The end.
    Finished(Result<FinishOutcome, Failure>),
}

/// What came of it.
pub enum FinishEvent {
    /// It was done, or the answer is yes.
    Done,
    /// The answer is no.
    Refused,
    /// It failed: what the system says of it.
    Failed(Failure),
    /// The audit ended.
    Audited(AuditOutcome),
}

/// A state without the text of a failure.
pub enum FinishModel {
    CheckForce(bool),
    Terminate,
    PublishForced,
    Disarm,
    Audit,
    StopMonitor(bool),
    Close(bool),
    SetAside((FailureKind, Seq<char>)),
    PublishNatural((FailureKind, Seq<char>)),
    Quarantine((FailureKind, Seq<char>)),
    PublishFailed((FailureKind, Seq<char>)),
    Finished(Result<FinishOutcome, (FailureKind, Seq<char>)>),
}

pub open spec fn outcome_view(r: Result<FinishOutcome, Failure>) -> Result<
    FinishOutcome,
    (FailureKind, Seq<char>),
> {
    match r {
        Ok(o) => Ok(o),
        Err(f) => Err(f@),
    }
}

impl View for FinishState {
    type V = FinishModel;

    open spec fn view(&self) -> FinishModel {
        match *self {
            FinishState::CheckForce { armed } => FinishModel::CheckForce(armed),
            FinishState::Terminate => FinishModel::Terminate,
            FinishState::PublishForced => FinishModel::PublishForced,
            FinishState::Disarm => FinishModel::Disarm,
            FinishState::Audit => FinishModel::Audit,
            FinishState::StopMonitor { disarmed } => FinishModel::StopMonitor(disarmed),
            FinishState::Close { disarmed } => FinishModel::Close(disarmed),
            FinishState::SetAside(f) => FinishModel::SetAside(f@),
            FinishState::PublishNatural(f) => FinishModel::PublishNatural(f@),
            FinishState::Quarantine(f) => FinishModel::Quarantine(f@),
            FinishState::PublishFailed(f) => FinishModel::PublishFailed(f@),
            FinishState::Finished(r) => FinishModel::Finished(outcome_view(r)),
        }
    }
}

/// Whether an event can follow a step.
pub open spec fn finish_expects(s: FinishModel, e: FinishEvent) -> bool {
    match s {
        FinishModel::CheckForce(_) => e is Done || e is Refused,
        FinishModel::Terminate => e is Done || e is Failed,
        FinishModel::PublishForced => e is Done || e is Refused,
        FinishModel::Disarm => e is Done || e is Refused,
        FinishModel::Audit => e is Audited || e is Failed,
        FinishModel::StopMonitor(_) => e is Done || e is Failed,
        FinishModel::Close(_) => e is Done,
        FinishModel::SetAside(_) => e is Done,
        FinishModel::PublishNatural(_) => e is Done || e is Refused,
        FinishModel::Quarantine(_) => e is Done,
        FinishModel::PublishFailed(_) => e is Done || e is Refused,
        FinishModel::Finished(_) => false,
    }
}

/// How it goes on.
pub open spec fn finish_next(s: FinishModel, e: FinishEvent) -> FinishModel {
    match (s, e) {
        (FinishModel::CheckForce(_), FinishEvent::Done) => FinishModel::Terminate,
        (FinishModel::CheckForce(true), FinishEvent::Refused) => FinishModel::Disarm,
        (FinishModel::CheckForce(false), FinishEvent::Refused) => FinishModel::Audit,
        (FinishModel::Terminate, FinishEvent::Done) => FinishModel::PublishForced,
        (FinishModel::Terminate, FinishEvent::Failed(f)) => FinishModel::PublishFailed(f@),
        (FinishModel::PublishForced, _) => FinishModel::Finished(Ok(FinishOutcome::Forced)),
        (FinishModel::Disarm, FinishEvent::Done) => FinishModel::StopMonitor(true),
        (FinishModel::Disarm, FinishEvent::Refused) => FinishModel::CheckForce(false),
        (FinishModel::Audit, FinishEvent::Audited(AuditOutcome::ForceRequested)) =>
        FinishModel::CheckForce(false),
        (FinishModel::Audit, FinishEvent::Audited(AuditOutcome::Stable)) =>
        FinishModel::StopMonitor(false),
        (FinishModel::Audit, FinishEvent::Failed(f)) => FinishModel::Quarantine(f@),
        (FinishModel::StopMonitor(disarmed), FinishEvent::Done) => FinishModel::Close(disarmed),
        (FinishModel::StopMonitor(true), FinishEvent::Failed(f)) => FinishModel::SetAside(f@),
        (FinishModel::StopMonitor(false), FinishEvent::Failed(f)) => FinishModel::Quarantine(f@),
        (FinishModel::Close(true), _) => FinishModel::PublishNatural(
            (FailureKind::Other, "natural completion lost its phase transition"@),
        ),
        (FinishModel::Close(false), _) => FinishModel::PublishNatural(
            (FailureKind::Other, "natural-empty audit lost its phase transition"@),
        ),
        (FinishModel::SetAside(_), _) => FinishModel::PublishNatural(
            (FailureKind::Other, "committed natural completion lost its phase transition"@),
        ),
        (FinishModel::PublishNatural(_), FinishEvent::Done) => FinishModel::Finished(
            Ok(FinishOutcome::Natural),
        ),
        (FinishModel::PublishNatural(f), FinishEvent::Refused) => FinishModel::PublishFailed(f),
        (FinishModel::Quarantine(f), _) => FinishModel::PublishFailed(f),
        (FinishModel::PublishFailed(f), _) => FinishModel::Finished(Err(f)),
        _ => s,
    }
}

impl FinishState {
    /// Begins once the top process has ended by itself.
    pub fn begin() -> (r: FinishState)
        ensures
            r@ == FinishModel::CheckForce(true),
    {
        FinishState::CheckForce { armed: true }
    }

    /// Goes on with what came of the last step.
    pub fn next(self, event: FinishEvent) -> (r: FinishState)
        requires
            finish_expects(self@, event),
        ensures
            r@ == finish_next(self@, event),
    {
        match (self, event) {
            (FinishState::CheckForce { .. }, FinishEvent::Done) => FinishState::Terminate,
            (FinishState::CheckForce { armed }, _) => if armed {
                FinishState::Disarm
            } else {
                FinishState::Audit
            },
            (FinishState::Terminate, FinishEvent::Failed(f)) => FinishState::PublishFailed(f),
            (FinishState::Terminate, _) => FinishState::PublishForced,
            (FinishState::PublishForced, _) => FinishState::Finished(Ok(FinishOutcome::Forced)),
            (FinishState::Disarm, FinishEvent::Done) => FinishState::StopMonitor { disarmed: true },
            (FinishState::Disarm, _) => FinishState::CheckForce { armed: false },
            (FinishState::Audit, FinishEvent::Failed(f)) => FinishState::Quarantine(f),
            (FinishState::Audit, FinishEvent::Audited(outcome)) => match outcome {
                AuditOutcome::ForceRequested => FinishState::CheckForce { armed: false },
                AuditOutcome::Stable => FinishState::StopMonitor { disarmed: false },
            },
            (FinishState::StopMonitor { disarmed }, FinishEvent::Failed(f)) => if disarmed {
                FinishState::SetAside(f)
            } else {
                FinishState::Quarantine(f)
            },
            (FinishState::StopMonitor { disarmed }, _) => FinishState::Close { disarmed },
            (FinishState::Close { disarmed }, _) => if disarmed {
                FinishState::PublishNatural(
                    Failure::new(
                        FailureKind::Other,
                        "natural completion lost its phase transition",
                    ),
                )
            } else {
                FinishState::PublishNatural(
                    Failure::new(
                        FailureKind::Other,
                        "natural-empty audit lost its phase transition",
                    ),
                )
            },
            (FinishState::SetAside(_), _) => FinishState::PublishNatural(
                Failure::new(
                    FailureKind::Other,
                    "committed natural completion lost its phase transition",
                ),
            ),
            (FinishState::PublishNatural(_), FinishEvent::Done) => FinishState::Finished(
                Ok(FinishOutcome::Natural),
            ),
            (FinishState::PublishNatural(f), _) => FinishState::PublishFailed(f),
            (FinishState::Quarantine(f), _) => FinishState::PublishFailed(f),
            (FinishState::PublishFailed(f), _) => FinishState::Finished(Err(f)),
            (s, _) => s,
        }
    }
}

/// A possible course: each event can follow the step before it.
pub open spec fn finish_course(events: Seq<FinishEvent>) -> bool
    decreases events.len(),
{
    events.len() == 0 || (finish_course(events.drop_last()) && finish_expects(
        finish_after(events.drop_last()),
        events.last(),
    ))
}

/// Where a course leads.
pub open spec fn finish_after(events: Seq<FinishEvent>) -> FinishModel
    decreases events.len(),
{
    if events.len() == 0 {
        FinishModel::CheckForce(true)
    } else {
        finish_next(finish_after(events.drop_last()), events.last())
    }
}

/// The step that an event of a course answered.
pub open spec fn finish_step(events: Seq<FinishEvent>, i: int) -> FinishModel {
    finish_after(events.take(i))
}

/// The job was made to leave its processes alone.
pub open spec fn was_disarmed(events: Seq<FinishEvent>) -> bool {
    exists|i: int|
        0 <= i < events.len() && #[trigger] finish_step(events, i) is Disarm && events[i] is Done
}

/// The audit found the job empty.
pub open spec fn was_empty(events: Seq<FinishEvent>) -> bool {
    exists|i: int|
        0 <= i < events.len() && #[trigger] finish_step(events, i) is Audit && events[i]
            == FinishEvent::Audited(AuditOutcome::Stable)
}

/// All its processes were stopped.
pub open spec fn was_terminated(events: Seq<FinishEvent>) -> bool {
    exists|i: int|
        0 <= i < events.len() && #[trigger] finish_step(events, i) is Terminate && events[i] is Done
}

/// It was told that the process ended by itself.
pub open spec fn was_published(events: Seq<FinishEvent>) -> bool {
    exists|i: int|
        0 <= i < events.len() && #[trigger] finish_step(events, i) is PublishNatural
            && events[i] is Done
}

/// It was told that processes may be left.
pub open spec fn failure_was_told(events: Seq<FinishEvent>) -> bool {
    exists|i: int| 0 <= i < events.len() && #[trigger] finish_step(events, i) is PublishFailed
}

spec fn finish_invariant(events: Seq<FinishEvent>) -> bool {
    let s = finish_after(events);
    let calm = was_disarmed(events) || was_empty(events);
    &&& s == FinishModel::StopMonitor(true) || s == FinishModel::Close(true) || s is SetAside
        ==> was_disarmed(events)
    &&& s == FinishModel::StopMonitor(false) || s == FinishModel::Close(false) ==> was_empty(events)
    &&& s is PublishNatural ==> calm
    &&& s is PublishForced ==> was_terminated(events)
    &&& s == FinishModel::Finished(Ok(FinishOutcome::Natural)) ==> calm && was_published(events)
    &&& s == FinishModel::Finished(Ok(FinishOutcome::Forced)) ==> was_terminated(events)
    &&& (s matches FinishModel::Finished(r) && r is Err) ==> failure_was_told(events)
}

proof fn lemma_finish_invariant(events: Seq<FinishEvent>)
    requires
        finish_course(events),
    ensures
        finish_invariant(events),
    decreases events.len(),
{
    if events.len() > 0 {
        let init = events.drop_last();
        lemma_finish_invariant(init);
        let n = init.len() as int;
        assert(events.take(n) =~= init);
        assert(finish_step(events, n) == finish_after(init));
        assert(events[n] == events.last());
        assert forall|i: int| 0 <= i < n implies #[trigger] finish_step(events, i) == finish_step(
            init,
            i,
        ) && events[i] == init[i] by {
            assert(events.take(i) =~= init.take(i));
        }
        if was_disarmed(init) {
            let i = choose|i: int|
                0 <= i < init.len() && #[trigger] finish_step(init, i) is Disarm && init[i] is Done;
            assert(finish_step(events, i) is Disarm && events[i] is Done);
        }
        if was_empty(init) {
            let i = choose|i: int|
                0 <= i < init.len() && #[trigger] finish_step(init, i) is Audit && init[i]
                    == FinishEvent::Audited(AuditOutcome::Stable);
            assert(finish_step(events, i) is Audit && events[i] == FinishEvent::Audited(
                AuditOutcome::Stable,
            ));
        }
        if failure_was_told(init) {
            let i = choose|i: int|
                0 <= i < init.len() && #[trigger] finish_step(init, i) is PublishFailed;
            assert(finish_step(events, i) is PublishFailed);
        }
        if was_terminated(init) {
            let i = choose|i: int|
                0 <= i < init.len() && #[trigger] finish_step(init, i) is Terminate
                    && init[i] is Done;
            assert(finish_step(events, i) is Terminate && events[i] is Done);
        }
    }
}

/// A natural end is reported only where it was published, and only where the job
/// was made to leave its processes alone or was found empty.
pub proof fn law_a_natural_end_is_published(events: Seq<FinishEvent>)
    requires
        finish_course(events),
        finish_after(events) == FinishModel::Finished(Ok(FinishOutcome::Natural)),
    ensures
        was_published(events),
        was_disarmed(events) || was_empty(events),
{
    lemma_finish_invariant(events);
}

/// A forced end is reported only where all processes were stopped.
pub proof fn law_a_forced_end_stopped_all(events: Seq<FinishEvent>)
    requires
        finish_course(events),
        finish_after(events) == FinishModel::Finished(Ok(FinishOutcome::Forced)),
    ensures
        was_terminated(events),
{
    lemma_finish_invariant(events);
}

/// No failure goes untold: one is reported only after it was told that processes
/// may be left.
pub proof fn law_a_failed_end_is_told(events: Seq<FinishEvent>)
    requires
        finish_course(events),
        finish_after(events) matches FinishModel::Finished(r) && r is Err,
    ensures
        failure_was_told(events),
{
    lemma_finish_invariant(events);
}

/// A job whose top process is known and of which no step fails is done with after four steps:
/// its processes are ended, the top process is waited for, the audit finds it empty, and the
/// monitor is stopped. That only one of the two ends of a process was done is enough.
pub proof fn law_jobs_are_stopped_step_by_step(handle: u64, events: Seq<TerminateEvent>)
    requires
        forall|i: int| 0 <= i < 4 && i < events.len() ==> !(#[trigger] events[i] is Failed),
    ensures
        ({
            let s = terminated(Some(handle), events);
            &&& events.len() == 0 ==> s == TerminateModel::TerminateBoth(handle)
            &&& events.len() == 1 ==> s == TerminateModel::AwaitTop(handle)
            &&& events.len() == 2 ==> s is Audit
            &&& events.len() == 3 ==> s is StopMonitor
            &&& events.len() >= 4 ==> s is Close
        }),
{
    lemma_terminated(Some(handle), events);
    if events.len() == 1 {
        assert(terminated(Some(handle), events.drop_last()) == TerminateModel::TerminateBoth(handle));
    }
}

/// A job that is put aside tells the failure for which it is, and stays aside.
pub proof fn law_jobs_are_put_aside_with_their_failure(handle: u64, f: Failure, e: TerminateEvent)
    ensures
        terminate_next(TerminateModel::TerminateBoth(handle), TerminateEvent::Failed(f))
            == TerminateModel::Quarantine(
            (f.kind, "terminating process and Job both failed: "@ + f.message@),
        ),
        terminate_next(TerminateModel::AwaitTop(handle), TerminateEvent::Failed(f))
            == TerminateModel::Quarantine(
            (f.kind, "waiting for top process failed: "@ + f.message@),
        ),
        terminate_next(TerminateModel::Audit, TerminateEvent::Failed(f))
            == TerminateModel::Quarantine(f@),
        terminate_next(TerminateModel::StopMonitor, TerminateEvent::Failed(f))
            == TerminateModel::Quarantine(f@),
        terminate_next(TerminateModel::Quarantine(f@), e) == TerminateModel::Quarantine(f@),
        terminate_next(TerminateModel::Close, e) is Close,
{
}

/// A process that ended by itself, and that nobody wants to stop, has a natural end: where the
/// job leaves its processes alone, and, where it does not, once the audit finds it empty.
pub proof fn law_natural_ends_are_reached(events: Seq<FinishEvent>, armed: bool)
    requires
        finish_course(events),
        finish_after(events) == FinishModel::CheckForce(armed),
    ensures
        ({
            let calm = if armed {
                FinishEvent::Done
            } else {
                FinishEvent::Audited(AuditOutcome::Stable)
            };
            let stopped = events.push(FinishEvent::Refused).push(calm).push(FinishEvent::Done);
            let told = stopped.push(FinishEvent::Done).push(FinishEvent::Done);
            &&& finish_course(told)
            &&& finish_after(stopped) == FinishModel::Close(armed)
            &&& finish_after(told) == FinishModel::Finished(Ok(FinishOutcome::Natural))
        }),
{
    let calm = if armed {
        FinishEvent::Done
    } else {
        FinishEvent::Audited(AuditOutcome::Stable)
    };
    let a = events.push(FinishEvent::Refused);
    let b = a.push(calm);
    let c = b.push(FinishEvent::Done);
    let d = c.push(FinishEvent::Done);
    let e = d.push(FinishEvent::Done);
    assert(a.drop_last() =~= events);
    assert(b.drop_last() =~= a);
    assert(c.drop_last() =~= b);
    assert(d.drop_last() =~= c);
    assert(e.drop_last() =~= d);
    assert(finish_course(a));
    assert(finish_after(a) == if armed {
        FinishModel::Disarm
    } else {
        FinishModel::Audit
    });
    if armed {
        assert(finish_after(b) == FinishModel::StopMonitor(true));
    } else {
        assert(finish_after(b) == FinishModel::StopMonitor(false));
    }
    assert(finish_after(b) == FinishModel::StopMonitor(armed));
    assert(finish_course(b));
    assert(finish_course(c));
    assert(finish_course(d));
}

/// A job that does not let its processes be left alone is looked at once more, and audited
/// where nobody wants to stop it.
pub proof fn law_jobs_that_cannot_be_disarmed_are_audited(e: FinishEvent)
    requires
        finish_expects(FinishModel::Disarm, e),
        !(e is Done),
    ensures
        finish_next(FinishModel::Disarm, e) == FinishModel::CheckForce(false),
        finish_next(finish_next(FinishModel::Disarm, e), FinishEvent::Refused)
            == FinishModel::Audit,
{
}

/// Where the processes are to be stopped, that is done at once and told, and the end is a
/// forced one; where it fails, that is told and reported.
pub proof fn law_wanted_stops_are_carried_out(armed: bool, f: Failure, e: FinishEvent)
    ensures
        ({
            let stop = finish_next(FinishModel::CheckForce(armed), FinishEvent::Done);
            let told = finish_next(stop, FinishEvent::Done);
            let failed = finish_next(stop, FinishEvent::Failed(f));
            &&& stop is Terminate
            &&& told is PublishForced
            &&& finish_next(told, e) == FinishModel::Finished(Ok(FinishOutcome::Forced))
            &&& failed == FinishModel::PublishFailed(f@)
            &&& finish_next(failed, e) == FinishModel::Finished(Err(f@))
        }),
        finish_next(FinishModel::Audit, FinishEvent::Audited(AuditOutcome::ForceRequested))
            == FinishModel::CheckForce(false),
{
}

/// A job that cannot be accounted for is put aside, and its failure is told and reported. One
/// that leaves its processes alone already has a natural end nevertheless. An end that comes
/// too late to be told is a failure.
pub proof fn law_unaccounted_jobs_are_put_aside(f: Failure, e: FinishEvent)
    ensures
        ({
            let a = finish_next(FinishModel::Audit, FinishEvent::Failed(f));
            let b = finish_next(FinishModel::StopMonitor(false), FinishEvent::Failed(f));
            &&& a == FinishModel::Quarantine(f@) && b == a
            &&& finish_next(a, e) == FinishModel::PublishFailed(f@)
            &&& finish_next(finish_next(a, e), e) == FinishModel::Finished(Err(f@))
        }),
        ({
            let c = finish_next(FinishModel::StopMonitor(true), FinishEvent::Failed(f));
            &&& c == FinishModel::SetAside(f@)
            &&& finish_next(c, e) is PublishNatural
            &&& finish_next(finish_next(c, e), FinishEvent::Done) == FinishModel::Finished(
                Ok(FinishOutcome::Natural),
            )
        }),
        finish_next(FinishModel::PublishNatural(f@), FinishEvent::Refused)
            == FinishModel::PublishFailed(f@),
{
}

/// Where processes may be left, that is told. Otherwise a stop during the set-up makes the
/// submission safe to make again, and a later one is a forced end.
pub proof fn law_stops_are_told_by_their_time(setup: bool)
    ensures
        reaped_phase(false, setup) == SubmissionPhase::ForceFailed,
        reaped_phase(true, true) == SubmissionPhase::RetrySafeReaped,
        reaped_phase(true, false) == SubmissionPhase::ForcedReaped,
{
}

} // verus!
