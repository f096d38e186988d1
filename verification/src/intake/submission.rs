//! The course of one submission: looked up in the cache, run on a worker or
//! locally, published, recorded and answered.

use crate::action_tracker::{
    bounded, first_chars, ActionTracker, ActivityState, AttemptLease, ExecutionKind, TrackerClock,
    TrackerModel, MAX_DISPLAY_CHARS,
};
use crate::execution::{
    ExecOptions, Execution, ExecutionModel, LocalFallbackReason, ReasonModel, VfsExecution,
};
use crate::filepath::RootPath;
use crate::intake::tools::{may_record, should_record_cache, ToolchainIdentity};
use crate::local_job::guardian::SubmissionPhase;
use crate::text::{decimal, decimal_of};
use vstd::prelude::*;

verus! {

/// What the daemon knows of a submission from its beginning.
#[derive(Clone, Copy, Debug, PartialEq, Eq, Structural)]
pub struct SubmissionSetup {
    /// Whether files are supplied to workers; without, the action is only
    /// dispatched.
    pub has_vfs: bool,
    pub has_cache: bool,
    /// Whether its result can differ from run to run: the cache has no part in it.
    pub non_deterministic: bool,
    /// Whether its tool is one whose results are cached.
    pub tool_verified: bool,
}

/// What to do next for a submission.
pub enum SubmissionStep {
    /// Dispatch the action with nothing besides its command.
    PlainDispatch,
    /// Count how it ran.
    PlainReport(Execution),
    /// Find out the key of the action and the identity of its tool.
    WeakKey,
    /// Look the action up in the cache.
    Resolve,
    /// Count a hit, and answer from the cache.
    AnswerCached { exit_code: i32, stdout: Vec<u8>, stderr: Vec<u8> },
    /// Count a miss.
    CountMiss,
    /// Find out the paths that the action read before.
    Predict,
    /// Make the directory of its trace.
    CreateTrace,
    /// Open the session through which its files are supplied.
    CreateSession,
    /// Dispatch the action with its options.
    Dispatch,
    /// Close the session.
    FinishSession(Execution),
    /// Put the outputs that the worker wrote in place.
    PublishStaged(Execution),
    /// Run the action locally, because publishing failed; what is told of it.
    RunLocal(String),
    /// Remove whatever was staged and not published.
    DiscardStaged(Execution),
    /// Store the result in the cache.
    Record(Execution),
    /// Count that the worker ran another tool.
    CountMismatch(Execution),
    /// Tell that the tool is known by its name only.
    TellNameOnly(Execution),
    /// Remove the directory of the trace.
    RemoveTrace(Execution),
    /// Count how the action ran.
    Report(Execution),
    /// Find out how far its local process has come.
    CheckPhase(Execution),
    /// Answer.
    Answer(Execution),
    Finished,
}

/// What came of it.
pub enum SubmissionEvent {
    Done,
    /// It failed: what is told of it.
    Failed(String),
    /// How the action ran.
    Ran(Execution),
    /// The key is known, and the identity of the tool.
    Keyed(ToolchainIdentity),
    Hit { exit_code: i32, stdout: Vec<u8>, stderr: Vec<u8> },
    Missed,
    /// The exit code of the local run, -1 where it could not be run.
    Exited(i32),
    /// How far the local process has come; `None` where nothing keeps track of it.
    Phase(Option<SubmissionPhase>),
}

/// The view of a [`SubmissionStep`].
pub enum StepModel {
    PlainDispatch,
    PlainReport(ExecutionModel),
    WeakKey,
    Resolve,
    AnswerCached(i32, Seq<u8>, Seq<u8>),
    CountMiss,
    Predict,
    CreateTrace,
    CreateSession,
    Dispatch,
    FinishSession(ExecutionModel),
    PublishStaged(ExecutionModel),
    RunLocal(Seq<char>),
    DiscardStaged(ExecutionModel),
    Record(ExecutionModel),
    CountMismatch(ExecutionModel),
    TellNameOnly(ExecutionModel),
    RemoveTrace(ExecutionModel),
    Report(ExecutionModel),
    CheckPhase(ExecutionModel),
    Answer(ExecutionModel),
    Finished,
}

impl View for SubmissionStep {
    type V = StepModel;

    open spec fn view(&self) -> StepModel {
        match *self {
            SubmissionStep::PlainDispatch => StepModel::PlainDispatch,
            SubmissionStep::PlainReport(e) => StepModel::PlainReport(e@),
            SubmissionStep::WeakKey => StepModel::WeakKey,
            SubmissionStep::Resolve => StepModel::Resolve,
            SubmissionStep::AnswerCached { exit_code, stdout, stderr } => StepModel::AnswerCached(
                exit_code,
                stdout@,
                stderr@,
            ),
            SubmissionStep::CountMiss => StepModel::CountMiss,
            SubmissionStep::Predict => StepModel::Predict,
            SubmissionStep::CreateTrace => StepModel::CreateTrace,
            SubmissionStep::CreateSession => StepModel::CreateSession,
            SubmissionStep::Dispatch => StepModel::Dispatch,
            SubmissionStep::FinishSession(e) => StepModel::FinishSession(e@),
            SubmissionStep::PublishStaged(e) => StepModel::PublishStaged(e@),
            SubmissionStep::RunLocal(detail) => StepModel::RunLocal(detail@),
            SubmissionStep::DiscardStaged(e) => StepModel::DiscardStaged(e@),
            SubmissionStep::Record(e) => StepModel::Record(e@),
            SubmissionStep::CountMismatch(e) => StepModel::CountMismatch(e@),
            SubmissionStep::TellNameOnly(e) => StepModel::TellNameOnly(e@),
            SubmissionStep::RemoveTrace(e) => StepModel::RemoveTrace(e@),
            SubmissionStep::Report(e) => StepModel::Report(e@),
            SubmissionStep::CheckPhase(e) => StepModel::CheckPhase(e@),
            SubmissionStep::Answer(e) => StepModel::Answer(e@),
            SubmissionStep::Finished => StepModel::Finished,
        }
    }
}

/// A submission under way.
pub struct Submission {
    pub setup: SubmissionSetup,
    /// What its tool was taken for, once its key is known.
    pub identity: Option<ToolchainIdentity>,
    pub step: SubmissionStep,
}

/// The view of a [`Submission`].
pub struct SubmissionModel {
    pub setup: SubmissionSetup,
    pub identity: Option<ToolchainIdentity>,
    pub step: StepModel,
}

impl View for Submission {
    type V = SubmissionModel;

    open spec fn view(&self) -> SubmissionModel {
        SubmissionModel { setup: self.setup, identity: self.identity, step: self.step@ }
    }
}

/// The digest of the tool that a worker says it ran.
pub open spec fn reported_tool(e: ExecutionModel) -> Seq<char> {
    match e {
        ExecutionModel::Remote(o) => o.tool,
        ExecutionModel::Local(_, _) => Seq::empty(),
    }
}

impl SubmissionModel {
    pub open spec fn at(self, step: StepModel) -> SubmissionModel {
        SubmissionModel { step, ..self }
    }

    /// Whether the cache is to hear of the run at all.
    pub open spec fn concerns_cache(self, e: ExecutionModel) -> bool {
        &&& self.setup.has_cache && self.identity is Some
        &&& e.succeeded_remotely()
        &&& !self.setup.non_deterministic && self.setup.tool_verified
    }

    pub open spec fn to_recording(self, e: ExecutionModel) -> SubmissionModel {
        if !self.concerns_cache(e) {
            self.to_cleanup(e)
        } else if may_record(self.setup.tool_verified, self.identity->0, reported_tool(e)) {
            self.at(StepModel::Record(e))
        } else if self.identity->0 is Content {
            self.at(StepModel::CountMismatch(e))
        } else {
            self.at(StepModel::TellNameOnly(e))
        }
    }

    pub open spec fn to_cleanup(self, e: ExecutionModel) -> SubmissionModel {
        if self.setup.has_cache {
            self.at(StepModel::RemoveTrace(e))
        } else {
            self.at(StepModel::Report(e))
        }
    }

    /// Whether an event can follow.
    pub open spec fn expects(self, event: SubmissionEvent) -> bool {
        match self.step {
            StepModel::PlainDispatch => event is Ran,
            StepModel::WeakKey => event is Keyed || event is Failed,
            StepModel::Resolve => event is Hit || event is Missed,
            StepModel::Dispatch => event is Ran,
            StepModel::PublishStaged(_) => event is Done || event is Failed,
            StepModel::RunLocal(_) => event is Exited,
            StepModel::CheckPhase(_) => event is Phase,
            StepModel::Finished => false,
            _ => event is Done,
        }
    }

    /// How it goes on.
    pub open spec fn next(self, event: SubmissionEvent) -> SubmissionModel {
        match (self.step, event) {
            (StepModel::PlainDispatch, SubmissionEvent::Ran(e)) => self.at(
                StepModel::PlainReport(e@),
            ),
            (StepModel::PlainReport(e), _) => self.at(StepModel::Answer(e)),
            (StepModel::WeakKey, SubmissionEvent::Keyed(identity)) => SubmissionModel {
                identity: Some(identity),
                step: StepModel::Resolve,
                ..self
            },
            (StepModel::WeakKey, _) => self.at(StepModel::CreateTrace),
            (StepModel::Resolve, SubmissionEvent::Hit { exit_code, stdout, stderr }) => self.at(
                StepModel::AnswerCached(exit_code, stdout@, stderr@),
            ),
            (StepModel::Resolve, _) => self.at(StepModel::CountMiss),
            (StepModel::AnswerCached(_, _, _), _) => self.at(StepModel::Finished),
            (StepModel::CountMiss, _) => self.at(StepModel::Predict),
            (StepModel::Predict, _) => self.at(StepModel::CreateTrace),
            (StepModel::CreateTrace, _) => self.at(StepModel::CreateSession),
            (StepModel::CreateSession, _) => self.at(StepModel::Dispatch),
            (StepModel::Dispatch, SubmissionEvent::Ran(e)) => self.at(StepModel::FinishSession(e@)),
            (StepModel::FinishSession(e), _) => if e.succeeded_remotely() {
                self.at(StepModel::PublishStaged(e))
            } else {
                self.at(StepModel::DiscardStaged(e))
            },
            (StepModel::PublishStaged(_), SubmissionEvent::Failed(why)) => self.at(
                StepModel::RunLocal("remote writeback publish failed: "@ + why@),
            ),
            (StepModel::PublishStaged(e), _) => self.at(StepModel::DiscardStaged(e)),
            (StepModel::RunLocal(detail), SubmissionEvent::Exited(code)) => self.at(
                StepModel::DiscardStaged(
                    ExecutionModel::Local(code, ReasonModel::RemoteExhausted(detail)),
                ),
            ),
            (StepModel::DiscardStaged(e), _) => self.to_recording(e),
            (StepModel::Record(e), _) => self.to_cleanup(e),
            (StepModel::CountMismatch(e), _) => self.to_cleanup(e),
            (StepModel::TellNameOnly(e), _) => self.to_cleanup(e),
            (StepModel::RemoveTrace(e), _) => self.at(StepModel::Report(e)),
            (StepModel::Report(e), _) => self.at(StepModel::CheckPhase(e)),
            (StepModel::CheckPhase(e), SubmissionEvent::Phase(phase)) => if answers_at(phase) {
                self.at(StepModel::Answer(e))
            } else {
                self.at(StepModel::Finished)
            },
            (StepModel::Answer(_), _) => self.at(StepModel::Finished),
            _ => self,
        }
    }
}

/// Whether an action is answered when its local process has come so far: where it
/// had none, or its process ended by itself.
pub open spec fn answers_at(phase: Option<SubmissionPhase>) -> bool {
    phase is None || phase->0 is Idle || phase->0 is NaturalReaped
}

/// How a submission begins. The cache is asked only about an action whose result can
/// be the same again.
pub open spec fn first_step(setup: SubmissionSetup) -> StepModel {
    if !setup.has_vfs {
        StepModel::PlainDispatch
    } else if !setup.has_cache {
        StepModel::CreateSession
    } else if setup.non_deterministic {
        StepModel::CreateTrace
    } else {
        StepModel::WeakKey
    }
}

pub open spec fn submission_start(setup: SubmissionSetup) -> SubmissionModel {
    SubmissionModel { setup, identity: None, step: first_step(setup) }
}

fn is_remote_success(e: &Execution) -> (r: bool)
    ensures
        r == e@.succeeded_remotely(),
{
    match e {
        Execution::Remote(o) => match o.exit_code {
            Some(c) => c == 0,
            None => false,
        },
        Execution::LocalFallback { .. } => false,
    }
}

impl Submission {
    pub fn new(setup: SubmissionSetup) -> (r: Submission)
        ensures
            r@ == submission_start(setup),
    {
        let step = if !setup.has_vfs {
            SubmissionStep::PlainDispatch
        } else if !setup.has_cache {
            SubmissionStep::CreateSession
        } else if setup.non_deterministic {
            SubmissionStep::CreateTrace
        } else {
            SubmissionStep::WeakKey
        };
        Submission { setup, identity: None, step }
    }

    fn enter_cleanup(&mut self, e: Execution)
        ensures
            final(self)@ == old(self)@.to_cleanup(e@),
    {
        if self.setup.has_cache {
            self.step = SubmissionStep::RemoveTrace(e);
        } else {
            self.step = SubmissionStep::Report(e);
        }
    }

    fn enter_recording(&mut self, e: Execution)
        ensures
            final(self)@ == old(self)@.to_recording(e@),
    {
        if !self.setup.has_cache || self.setup.non_deterministic || !self.setup.tool_verified
            || !is_remote_success(&e) {
            self.enter_cleanup(e);
            return;
        }
        let (may, content): (bool, bool) = match (&self.identity, &e) {
            (Some(identity), Execution::Remote(o)) => (
                should_record_cache(
                    self.setup.tool_verified,
                    identity,
                    o.resolved_tool_digest.as_str(),
                ),
                identity.is_content(),
            ),
            _ => {
                self.enter_cleanup(e);
                return;
            },
        };
        if may {
            self.step = SubmissionStep::Record(e);
        } else if content {
            self.step = SubmissionStep::CountMismatch(e);
        } else {
            self.step = SubmissionStep::TellNameOnly(e);
        }
    }

    /// Goes on with what came of the last step.
    pub fn run_submission(&mut self, event: SubmissionEvent)
        requires
            old(self)@.expects(event),
        ensures
            final(self)@ == old(self)@.next(event),
    {
        let mut step = SubmissionStep::Finished;
        std::mem::swap(&mut self.step, &mut step);
        match (step, event) {
            (SubmissionStep::PlainDispatch, SubmissionEvent::Ran(e)) => {
                self.step = SubmissionStep::PlainReport(e);
            },
            (SubmissionStep::PlainReport(e), _) => {
                self.step = SubmissionStep::Answer(e);
            },
            (SubmissionStep::WeakKey, SubmissionEvent::Keyed(identity)) => {
                self.identity = Some(identity);
                self.step = SubmissionStep::Resolve;
            },
            (SubmissionStep::WeakKey, _) => {
                self.step = SubmissionStep::CreateTrace;
            },
            (
                SubmissionStep::Resolve,
                SubmissionEvent::Hit { exit_code, stdout, stderr },
            ) => {
                self.step = SubmissionStep::AnswerCached { exit_code, stdout, stderr };
            },
            (SubmissionStep::Resolve, _) => {
                self.step = SubmissionStep::CountMiss;
            },
            (SubmissionStep::AnswerCached { .. }, _) => {
                self.step = SubmissionStep::Finished;
            },
            (SubmissionStep::CountMiss, _) => {
                self.step = SubmissionStep::Predict;
            },
            (SubmissionStep::Predict, _) => {
                self.step = SubmissionStep::CreateTrace;
            },
            (SubmissionStep::CreateTrace, _) => {
                self.step = SubmissionStep::CreateSession;
            },
            (SubmissionStep::CreateSession, _) => {
                self.step = SubmissionStep::Dispatch;
            },
            (SubmissionStep::Dispatch, SubmissionEvent::Ran(e)) => {
                self.step = SubmissionStep::FinishSession(e);
            },
            (SubmissionStep::FinishSession(e), _) => {
                if is_remote_success(&e) {
                    self.step = SubmissionStep::PublishStaged(e);
                } else {
                    self.step = SubmissionStep::DiscardStaged(e);
                }
            },
            (SubmissionStep::PublishStaged(_), SubmissionEvent::Failed(why)) => {
                let mut detail = "remote writeback publish failed: ".to_owned();
                detail.append(why.as_str());
                self.step = SubmissionStep::RunLocal(detail);
            },
            (SubmissionStep::PublishStaged(e), _) => {
                self.step = SubmissionStep::DiscardStaged(e);
            },
            (SubmissionStep::RunLocal(detail), SubmissionEvent::Exited(exit_code)) => {
                self.step =
                SubmissionStep::DiscardStaged(
                    Execution::LocalFallback {
                        exit_code,
                        reason: LocalFallbackReason::RemoteExhausted(detail),
                    },
                );
            },
            (SubmissionStep::DiscardStaged(e), _) => {
                self.enter_recording(e);
            },
            (SubmissionStep::Record(e), _) => {
                self.enter_cleanup(e);
            },
            (SubmissionStep::CountMismatch(e), _) => {
                self.enter_cleanup(e);
            },
            (SubmissionStep::TellNameOnly(e), _) => {
                self.enter_cleanup(e);
            },
            (SubmissionStep::RemoveTrace(e), _) => {
                self.step = SubmissionStep::Report(e);
            },
            (SubmissionStep::Report(e), _) => {
                self.step = SubmissionStep::CheckPhase(e);
            },
            (SubmissionStep::CheckPhase(e), SubmissionEvent::Phase(phase)) => {
                let answers = match phase {
                    None => true,
                    Some(p) => p == SubmissionPhase::Idle || p == SubmissionPhase::NaturalReaped,
                };
                if answers {
                    self.step = SubmissionStep::Answer(e);
                } else {
                    self.step = SubmissionStep::Finished;
                }
            },
            (SubmissionStep::Answer(_), _) => {
                self.step = SubmissionStep::Finished;
            },
            (s, _) => {
                self.step = s;
            },
        }
    }
}

/// Where the course `events` of a submission leads.
pub open spec fn submission_after(
    setup: SubmissionSetup,
    events: Seq<SubmissionEvent>,
) -> SubmissionModel
    decreases events.len(),
{
    if events.len() == 0 {
        submission_start(setup)
    } else {
        submission_after(setup, events.drop_last()).next(events.last())
    }
}

/// A possible course: each event can follow the step before it.
pub open spec fn submission_course(setup: SubmissionSetup, events: Seq<SubmissionEvent>) -> bool
    decreases events.len(),
{
    events.len() == 0 || (submission_course(setup, events.drop_last()) && submission_after(
        setup,
        events.drop_last(),
    ).expects(events.last()))
}

/// The step that an event of a course answered.
pub open spec fn step_at(
    setup: SubmissionSetup,
    events: Seq<SubmissionEvent>,
    i: int,
) -> StepModel {
    submission_after(setup, events.take(i)).step
}

/// The action was dispatched.
pub open spec fn was_dispatched(setup: SubmissionSetup, events: Seq<SubmissionEvent>) -> bool {
    exists|i: int|
        0 <= i < events.len() && (#[trigger] step_at(setup, events, i) is Dispatch || step_at(
            setup,
            events,
            i,
        ) is PlainDispatch)
}

/// A session was opened.
pub open spec fn session_opened(setup: SubmissionSetup, events: Seq<SubmissionEvent>) -> bool {
    exists|i: int| 0 <= i < events.len() && #[trigger] step_at(setup, events, i) is CreateSession
}

/// The session was closed.
pub open spec fn session_closed(setup: SubmissionSetup, events: Seq<SubmissionEvent>) -> bool {
    exists|i: int| 0 <= i < events.len() && #[trigger] step_at(setup, events, i) is FinishSession
}

/// What was staged and not published was removed.
pub open spec fn staging_cleared(setup: SubmissionSetup, events: Seq<SubmissionEvent>) -> bool {
    exists|i: int| 0 <= i < events.len() && #[trigger] step_at(setup, events, i) is DiscardStaged
}

/// A directory for the trace was made.
pub open spec fn trace_made(setup: SubmissionSetup, events: Seq<SubmissionEvent>) -> bool {
    exists|i: int| 0 <= i < events.len() && #[trigger] step_at(setup, events, i) is CreateTrace
}

/// The directory of the trace was removed.
pub open spec fn trace_removed(setup: SubmissionSetup, events: Seq<SubmissionEvent>) -> bool {
    exists|i: int| 0 <= i < events.len() && #[trigger] step_at(setup, events, i) is RemoveTrace
}

/// A step before the action is dispatched.
spec fn is_before_dispatch(s: StepModel) -> bool {
    s is WeakKey || s is Resolve || s is AnswerCached || s is CountMiss || s is Predict
        || s is CreateTrace || s is CreateSession || s is Dispatch || s is PlainDispatch
}

/// A step after the session was closed.
spec fn is_after_session(s: StepModel) -> bool {
    s is PublishStaged || s is RunLocal || s is DiscardStaged || is_after_staging(s)
}

/// A step after what was staged is gone.
spec fn is_after_staging(s: StepModel) -> bool {
    s is Record || s is CountMismatch || s is TellNameOnly || is_after_trace(s)
        || s is RemoveTrace
}

/// A step after the trace is gone.
spec fn is_after_trace(s: StepModel) -> bool {
    s is Report || s is CheckPhase
}

/// A step that asks the cache, answers from it or adds to it.
pub open spec fn uses_cache(s: StepModel) -> bool {
    s is WeakKey || s is Resolve || s is AnswerCached || s is CountMiss || s is Predict
        || s is Record
}

/// A step of a submission without supplied files.
spec fn is_plain(s: StepModel) -> bool {
    s is PlainDispatch || s is PlainReport || s is Answer || s is Finished
}

spec fn submission_invariant(setup: SubmissionSetup, events: Seq<SubmissionEvent>) -> bool {
    let m = submission_after(setup, events);
    let s = m.step;
    let opened = session_opened(setup, events);
    let closed = session_closed(setup, events);
    let cleared = staging_cleared(setup, events);
    let made = trace_made(setup, events);
    let removed = trace_removed(setup, events);
    &&& m.setup == setup
    &&& !setup.has_vfs ==> is_plain(s) && !opened && !made
    &&& setup.has_vfs ==> !(s is PlainDispatch) && !(s is PlainReport)
    &&& is_before_dispatch(s) ==> !was_dispatched(setup, events)
    &&& is_before_dispatch(s) && !(s is Dispatch) ==> !opened
    &&& s is AnswerCached ==> setup.has_vfs
    &&& setup.has_vfs && is_after_session(s) ==> closed
    &&& setup.has_vfs && is_after_staging(s) ==> cleared
    &&& setup.has_vfs && setup.has_cache && is_after_trace(s) ==> removed
    &&& setup.has_vfs && s is Answer ==> closed && cleared && (setup.has_cache ==> removed)
    &&& s is Finished ==> (opened ==> closed && cleared) && (made ==> removed)
    &&& made ==> setup.has_cache
    &&& setup.non_deterministic ==> !uses_cache(s)
    &&& s is WeakKey || s is Resolve || s is AnswerCached || s is CountMiss || s is Predict
        || s is CreateTrace ==> setup.has_cache && !made
    &&& match s {
        StepModel::Record(e) => m.concerns_cache(e) && may_record(
            setup.tool_verified,
            m.identity->0,
            reported_tool(e),
        ),
        StepModel::PublishStaged(e) => e.succeeded_remotely(),
        _ => true,
    }
}

proof fn lemma_steps_stay(setup: SubmissionSetup, events: Seq<SubmissionEvent>, i: int)
    requires
        events.len() > 0,
        0 <= i < events.len(),
    ensures
        i < events.len() - 1 ==> step_at(setup, events, i) == step_at(
            setup,
            events.drop_last(),
            i,
        ),
        i == events.len() - 1 ==> step_at(setup, events, i) == submission_after(
            setup,
            events.drop_last(),
        ).step,
{
    if i < events.len() - 1 {
        assert(events.take(i) =~= events.drop_last().take(i));
    } else {
        assert(events.take(i) =~= events.drop_last());
    }
}

proof fn lemma_grows(setup: SubmissionSetup, events: Seq<SubmissionEvent>)
    requires
        events.len() > 0,
    ensures
        ({
            let init = events.drop_last();
            let s = submission_after(setup, init).step;
            &&& was_dispatched(setup, events) == (was_dispatched(setup, init) || s is Dispatch
                || s is PlainDispatch)
            &&& session_opened(setup, events) == (session_opened(setup, init) || s is CreateSession)
            &&& session_closed(setup, events) == (session_closed(setup, init) || s is FinishSession)
            &&& staging_cleared(setup, events) == (staging_cleared(setup, init)
                || s is DiscardStaged)
            &&& trace_made(setup, events) == (trace_made(setup, init) || s is CreateTrace)
            &&& trace_removed(setup, events) == (trace_removed(setup, init) || s is RemoveTrace)
        }),
{
    let init = events.drop_last();
    let n = init.len() as int;
    lemma_steps_stay(setup, events, n);
    assert forall|i: int| 0 <= i < n implies #[trigger] step_at(setup, events, i) == step_at(
        setup,
        init,
        i,
    ) by {
        lemma_steps_stay(setup, events, i);
    }
    assert forall|i: int| 0 <= i < n implies #[trigger] step_at(setup, init, i) == step_at(
        setup,
        events,
        i,
    ) by {
        lemma_steps_stay(setup, events, i);
    }
}

proof fn lemma_submission_invariant(setup: SubmissionSetup, events: Seq<SubmissionEvent>)
    requires
        submission_course(setup, events),
    ensures
        submission_invariant(setup, events),
    decreases events.len(),
{
    if events.len() > 0 {
        lemma_submission_invariant(setup, events.drop_last());
        lemma_grows(setup, events);
    }
}

/// An action whose result comes from the cache is never dispatched.
pub proof fn law_cached_actions_do_not_run(setup: SubmissionSetup, events: Seq<SubmissionEvent>)
    requires
        submission_course(setup, events),
        submission_after(setup, events).step is AnswerCached,
    ensures
        !was_dispatched(setup, events),
        !session_opened(setup, events),
{
    lemma_submission_invariant(setup, events);
}

/// An action whose result can differ from run to run is never looked up in the cache,
/// answered from it, given paths that were read before, or recorded.
pub proof fn law_non_deterministic_actions_bypass_the_cache(
    setup: SubmissionSetup,
    events: Seq<SubmissionEvent>,
)
    requires
        submission_course(setup, events),
        setup.non_deterministic,
    ensures
        !uses_cache(submission_after(setup, events).step),
        ({
            let s = submission_after(setup, events).step;
            !(s is Resolve || s is AnswerCached || s is Predict || s is Record)
        }),
{
    lemma_submission_invariant(setup, events);
}

/// Outputs are published and results recorded only after the session was closed, so
/// that no late write of the worker can meddle.
pub proof fn law_sessions_end_before_outputs_are_used(
    setup: SubmissionSetup,
    events: Seq<SubmissionEvent>,
)
    requires
        submission_course(setup, events),
        submission_after(setup, events).step is PublishStaged || submission_after(
            setup,
            events,
        ).step is Record,
    ensures
        session_closed(setup, events),
{
    lemma_submission_invariant(setup, events);
    let s = submission_after(setup, events).step;
    assert(is_after_session(s));
    assert(setup.has_vfs);
}

/// Only a run that a worker ended with an exit code of zero is recorded, of an action
/// that may be cached, with a verified tool that the daemon knows by its content
/// and that the worker says it ran.
pub proof fn law_only_sound_results_are_recorded(
    setup: SubmissionSetup,
    events: Seq<SubmissionEvent>,
)
    requires
        submission_course(setup, events),
        submission_after(setup, events).step is Record,
    ensures
        ({
            let m = submission_after(setup, events);
            let e = m.step->Record_0;
            &&& setup.has_cache && !setup.non_deterministic && setup.tool_verified
            &&& e.succeeded_remotely()
            &&& m.identity matches Some(identity) && identity is Content && reported_tool(e)
                == identity.text()
        }),
{
    lemma_submission_invariant(setup, events);
}

/// A submission leaves nothing behind: when it has ended, its session is closed, what
/// was staged is gone, and so is its trace.
pub proof fn law_submissions_clean_up(setup: SubmissionSetup, events: Seq<SubmissionEvent>)
    requires
        submission_course(setup, events),
        submission_after(setup, events).step is Finished,
    ensures
        session_opened(setup, events) ==> session_closed(setup, events) && staging_cleared(
            setup,
            events,
        ),
        trace_made(setup, events) ==> trace_removed(setup, events),
{
    lemma_submission_invariant(setup, events);
}

/// An action whose outputs could not be published is run locally, and answered as
/// such: its remote success is never reported.
pub proof fn law_unpublished_success_is_not_reported(
    m: SubmissionModel,
    e: ExecutionModel,
    why: String,
    code: i32,
)
    requires
        m.step == StepModel::PublishStaged(e),
    ensures
        m.next(SubmissionEvent::Failed(why)).next(SubmissionEvent::Exited(code)).step
            == StepModel::DiscardStaged(
            ExecutionModel::Local(
                code,
                ReasonModel::RemoteExhausted("remote writeback publish failed: "@ + why@),
            ),
        ),
{
}

/// How the action ran, as the events of its course tell: what came of the dispatch, or,
/// where its outputs could not be put in place, the local run that followed.
pub open spec fn ran_as(events: Seq<SubmissionEvent>) -> Option<ExecutionModel>
    decreases events.len(),
{
    if events.len() == 0 {
        None
    } else {
        let before = events.drop_last();
        match events.last() {
            SubmissionEvent::Ran(e) => Some(e@),
            SubmissionEvent::Exited(code) => if before.len() > 0 {
                match before.last() {
                    SubmissionEvent::Failed(why) => Some(
                        ExecutionModel::Local(
                            code,
                            ReasonModel::RemoteExhausted(
                                "remote writeback publish failed: "@ + why@,
                            ),
                        ),
                    ),
                    _ => None,
                }
            } else {
                None
            },
            _ => ran_as(before),
        }
    }
}

/// Whatever is reported, recorded or answered of an action is how it ran: the execution
/// that a step speaks of is the one that the events tell.
pub proof fn law_answers_tell_how_the_action_ran(
    setup: SubmissionSetup,
    events: Seq<SubmissionEvent>,
)
    requires
        submission_course(setup, events),
    ensures
        match submission_after(setup, events).step {
            StepModel::PlainReport(e) => ran_as(events) == Some(e),
            StepModel::FinishSession(e) => ran_as(events) == Some(e),
            StepModel::PublishStaged(e) => ran_as(events) == Some(e),
            StepModel::DiscardStaged(e) => ran_as(events) == Some(e),
            StepModel::Record(e) => ran_as(events) == Some(e),
            StepModel::CountMismatch(e) => ran_as(events) == Some(e),
            StepModel::TellNameOnly(e) => ran_as(events) == Some(e),
            StepModel::RemoveTrace(e) => ran_as(events) == Some(e),
            StepModel::Report(e) => ran_as(events) == Some(e),
            StepModel::CheckPhase(e) => ran_as(events) == Some(e),
            StepModel::Answer(e) => ran_as(events) == Some(e),
            StepModel::RunLocal(detail) => events.len() > 0 && (events.last() matches
                SubmissionEvent::Failed(why) && detail == "remote writeback publish failed: "@
                + why@),
            StepModel::AnswerCached(code, out, err) => events.len() > 0 && (events.last() matches
                SubmissionEvent::Hit { exit_code, stdout, stderr } && exit_code == code && stdout@
                == out && stderr@ == err),
            _ => true,
        },
    decreases events.len(),
{
    if events.len() > 0 {
        law_answers_tell_how_the_action_ran(setup, events.drop_last());
    }
}

/// An action that ran is answered with its own execution where nothing keeps track of a
/// local process, where there was none, and where it ended by itself; where it was
/// stopped, or may be left, there is no answer.
pub proof fn law_ended_actions_are_answered(
    setup: SubmissionSetup,
    events: Seq<SubmissionEvent>,
    phase: Option<SubmissionPhase>,
)
    requires
        submission_course(setup, events),
        submission_after(setup, events).step is CheckPhase,
    ensures
        ({
            let whole = events.push(SubmissionEvent::Phase(phase));
            let now = submission_after(setup, whole).step;
            &&& submission_course(setup, whole)
            &&& ran_as(events) is Some
            &&& match phase {
                None => now == StepModel::Answer(ran_as(events)->0),
                Some(SubmissionPhase::Idle) => now == StepModel::Answer(ran_as(events)->0),
                Some(SubmissionPhase::NaturalReaped) => now == StepModel::Answer(
                    ran_as(events)->0,
                ),
                Some(SubmissionPhase::SettingUp) => now is Finished,
                Some(SubmissionPhase::Active) => now is Finished,
                Some(SubmissionPhase::Terminating) => now is Finished,
                Some(SubmissionPhase::RetrySafeReaped) => now is Finished,
                Some(SubmissionPhase::ForcedReaped) => now is Finished,
                Some(SubmissionPhase::AbortedNoChild) => now is Finished,
                Some(SubmissionPhase::ForceFailed) => now is Finished,
            }
        }),
{
    law_answers_tell_how_the_action_ran(setup, events);
    assert(events.push(SubmissionEvent::Phase(phase)).drop_last() =~= events);
}

/// A submission that has ended was answered, or its local process was found to have been
/// stopped or to be left.
pub proof fn law_submissions_are_answered(setup: SubmissionSetup, events: Seq<SubmissionEvent>)
    requires
        submission_course(setup, events),
        submission_after(setup, events).step is Finished,
    ensures
        ({
            ||| exists|i: int|
                0 <= i < events.len() && (#[trigger] step_at(setup, events, i) is Answer || step_at(
                    setup,
                    events,
                    i,
                ) is AnswerCached)
            ||| {
                &&& events.last() matches SubmissionEvent::Phase(Some(p))
                &&& p != SubmissionPhase::Idle
                &&& p != SubmissionPhase::NaturalReaped
            }
        }),
{
    let n = events.len() - 1;
    if events.len() > 0 {
        lemma_steps_stay(setup, events, n);
        let s = step_at(setup, events, n);
        assert(s is Answer || s is AnswerCached || s is CheckPhase);
    }
}

/// How many steps a submission has still before it at most.
spec fn steps_left(s: StepModel) -> nat {
    match s {
        StepModel::WeakKey => 16,
        StepModel::Resolve => 15,
        StepModel::CountMiss => 14,
        StepModel::Predict => 13,
        StepModel::CreateTrace => 12,
        StepModel::CreateSession => 11,
        StepModel::Dispatch => 10,
        StepModel::FinishSession(_) => 9,
        StepModel::PublishStaged(_) => 8,
        StepModel::RunLocal(_) => 7,
        StepModel::DiscardStaged(_) => 6,
        StepModel::Record(_) => 5,
        StepModel::CountMismatch(_) => 5,
        StepModel::TellNameOnly(_) => 5,
        StepModel::RemoveTrace(_) => 4,
        StepModel::Report(_) => 3,
        StepModel::PlainDispatch => 3,
        StepModel::CheckPhase(_) => 2,
        StepModel::PlainReport(_) => 2,
        StepModel::Answer(_) => 1,
        StepModel::AnswerCached(_, _, _) => 1,
        StepModel::Finished => 0,
    }
}

/// Every submission comes to its end: no course has more than sixteen events.
pub proof fn law_submissions_come_to_an_end(setup: SubmissionSetup, events: Seq<SubmissionEvent>)
    requires
        submission_course(setup, events),
    ensures
        events.len() <= 16,
{
    lemma_steps_are_used_up(setup, events);
}

proof fn lemma_steps_are_used_up(setup: SubmissionSetup, events: Seq<SubmissionEvent>)
    requires
        submission_course(setup, events),
    ensures
        events.len() + steps_left(submission_after(setup, events).step) <= 16,
    decreases events.len(),
{
    if events.len() > 0 {
        lemma_steps_are_used_up(setup, events.drop_last());
    }
}

/// How a submission begins: without supplied files the action is dispatched and
/// answered; without a cache, or where its result can differ from run to run, it is
/// dispatched without the cache being asked; else the cache is asked under its key, and
/// where it has none the action is dispatched.
pub proof fn law_submissions_begin_with_the_cache(
    setup: SubmissionSetup,
    ran: Execution,
    identity: ToolchainIdentity,
    why: String,
)
    ensures
        !setup.has_vfs ==> submission_after(
            setup,
            seq![SubmissionEvent::Ran(ran), SubmissionEvent::Done],
        ).step == StepModel::Answer(ran@),
        setup.has_vfs && !setup.has_cache ==> submission_after(
            setup,
            seq![SubmissionEvent::Done],
        ).step is Dispatch,
        setup.has_vfs && setup.has_cache && setup.non_deterministic ==> submission_after(
            setup,
            seq![SubmissionEvent::Done, SubmissionEvent::Done],
        ).step is Dispatch,
        setup.has_vfs && setup.has_cache && !setup.non_deterministic ==> {
            let keyed = submission_after(setup, seq![SubmissionEvent::Keyed(identity)]);
            let unkeyed = submission_after(
                setup,
                seq![SubmissionEvent::Failed(why), SubmissionEvent::Done, SubmissionEvent::Done],
            );
            &&& keyed.step is Resolve && keyed.identity == Some(identity)
            &&& unkeyed.step is Dispatch && unkeyed.identity is None
        },
{
    reveal_with_fuel(submission_after, 5);
    let a = seq![SubmissionEvent::Ran(ran), SubmissionEvent::Done];
    assert(a.drop_last() =~= seq![SubmissionEvent::Ran(ran)]);
    assert(seq![SubmissionEvent::Ran(ran)].drop_last() =~= Seq::<SubmissionEvent>::empty());
    let b = seq![SubmissionEvent::Done];
    assert(b.drop_last() =~= Seq::<SubmissionEvent>::empty());
    assert(seq![SubmissionEvent::Done, SubmissionEvent::Done].drop_last() =~= b);
    let c = seq![SubmissionEvent::Keyed(identity)];
    assert(c.drop_last() =~= Seq::<SubmissionEvent>::empty());
    let d = seq![SubmissionEvent::Failed(why), SubmissionEvent::Done, SubmissionEvent::Done];
    let e = seq![SubmissionEvent::Failed(why), SubmissionEvent::Done];
    let f = seq![SubmissionEvent::Failed(why)];
    assert(d.drop_last() =~= e);
    assert(e.drop_last() =~= f);
    assert(f.drop_last() =~= Seq::<SubmissionEvent>::empty());
}

/// A hit is answered with what the cache holds; a miss is counted, predicted for, traced
/// and given a session, and then the action is dispatched.
pub proof fn law_hits_are_answered_and_misses_run(
    m: SubmissionModel,
    exit_code: i32,
    stdout: Vec<u8>,
    stderr: Vec<u8>,
)
    requires
        m.step is Resolve,
    ensures
        m.next(SubmissionEvent::Hit { exit_code, stdout, stderr }).step == StepModel::AnswerCached(
            exit_code,
            stdout@,
            stderr@,
        ),
        ({
            let a = m.next(SubmissionEvent::Missed);
            let b = a.next(SubmissionEvent::Done);
            let c = b.next(SubmissionEvent::Done);
            let d = c.next(SubmissionEvent::Done);
            let e = d.next(SubmissionEvent::Done);
            &&& a.step is CountMiss && b.step is Predict && c.step is CreateTrace
            &&& d.step is CreateSession && e.step is Dispatch
            &&& e.identity == m.identity
        }),
{
}

/// Outputs are put in place exactly for an action that a worker ran to an exit code of
/// zero; of any other what was staged is removed.
pub proof fn law_remote_successes_are_published(m: SubmissionModel, e: ExecutionModel)
    requires
        m.step == StepModel::FinishSession(e),
    ensures
        m.next(SubmissionEvent::Done).step == match e {
            ExecutionModel::Remote(o) => if o.exit_code == Some(0i32) {
                StepModel::PublishStaged(e)
            } else {
                StepModel::DiscardStaged(e)
            },
            ExecutionModel::Local(_, _) => StepModel::DiscardStaged(e),
        },
{
}

/// A result is recorded exactly where there is a cache, the action can be cached, its tool
/// is a verified one that was found by its content, and a worker says that it ran that
/// very content to an exit code of zero.
pub proof fn law_sound_results_are_recorded(m: SubmissionModel, e: ExecutionModel)
    requires
        m.step == StepModel::DiscardStaged(e),
    ensures
        m.next(SubmissionEvent::Done).step == StepModel::Record(e) <==> {
            &&& m.setup.has_cache && !m.setup.non_deterministic && m.setup.tool_verified
            &&& e matches ExecutionModel::Remote(o)
            &&& o.exit_code == Some(0i32) && o.tool.len() > 0
            &&& m.identity matches Some(ToolchainIdentity::Content { digest, .. })
            &&& digest@ == o.tool
        },
{
}

/// The directory of the trace of an action.
pub fn trace_dir(scratch_root: &RootPath, n: u64) -> (r: String)
    ensures
        r@ == scratch_root@.join("trace-"@ + decimal(n as nat)),
{
    let mut name = "trace-".to_owned();
    name.append(decimal_of(n).as_str());
    scratch_root.join(name.as_str())
}

/// What goes with an action to a worker whose files are supplied.
pub fn exec_options(
    predicted_paths: Vec<String>,
    agent_fileserver: &str,
    vfs_root: &str,
    trace_dir: &str,
    strict: bool,
) -> (r: ExecOptions)
    ensures
        r.predicted_paths == predicted_paths,
        r.vfs matches Some(v) && v.agent_fileserver@ == agent_fileserver@ && v.vfs_root@
            == vfs_root@ && v.trace_dir@ == trace_dir@ && v.strict == strict
            && !v.allow_original_cwd,
{
    ExecOptions {
        predicted_paths,
        vfs: Some(
            VfsExecution {
                agent_fileserver: agent_fileserver.to_owned(),
                vfs_root: vfs_root.to_owned(),
                trace_dir: trace_dir.to_owned(),
                strict,
                allow_original_cwd: false,
            },
        ),
    }
}

/// The tracker after the local attempt of the action `k` was asked for at `now`, and,
/// where it was `admitted`, marked as running at `later`.
pub open spec fn fallback_begun(
    m: TrackerModel,
    k: (Seq<char>, u32),
    display: Seq<char>,
    now: u64,
    later: u64,
    admitted: bool,
) -> TrackerModel {
    let begun = m.begun(
        k,
        bounded("local"@),
        ExecutionKind::Fallback,
        first_chars(display, MAX_DISPLAY_CHARS as int),
        now,
    );
    if admitted {
        begun.advance(k, ActivityState::Running, later)
    } else {
        begun
    }
}

/// Begins the local attempt of an action whose outputs could not be published, and
/// marks it as running.
pub fn begin_fallback<C: TrackerClock>(
    tracker: &mut ActionTracker<C>,
    action_id: &str,
    attempt_no: u32,
    display: &str,
) -> (r: Option<AttemptLease>)
    requires
        old(tracker).wf(),
    ensures
        final(tracker).wf(),
        exists|now: u64, later: u64| #[trigger]
            fallback_begun(
                old(tracker)@,
                (bounded(action_id@), attempt_no),
                display@,
                now,
                later,
                r is Some,
            ) == final(tracker)@ && r is Some == old(tracker)@.admits(
                (bounded(action_id@), attempt_no),
                now,
            ),
        r matches Some(lease) ==> lease.attempt() == (bounded(action_id@), attempt_no)
            && !lease.ended(),
{
    let ghost before = tracker@;
    let lease = tracker.begin_attempt_lease(
        action_id,
        attempt_no,
        "local",
        ExecutionKind::Fallback,
        display,
    );
    let ghost k = (bounded(action_id@), attempt_no);
    let ghost shown = first_chars(display@, MAX_DISPLAY_CHARS as int);
    let ghost middle = tracker@;
    let ghost now = choose|now: u64| #[trigger]
        before.begun(k, bounded("local"@), ExecutionKind::Fallback, shown, now) == middle
            && lease is Some == before.admits(k, now);
    match &lease {
        Some(l) => {
            l.transition(tracker, ActivityState::Running);
            let ghost later = choose|later: u64|
                tracker@ == #[trigger] middle.advance(k, ActivityState::Running, later);
            assert(fallback_begun(before, k, display@, now, later, true) == tracker@);
        },
        None => {
            assert(fallback_begun(before, k, display@, now, 0, false) == tracker@);
        },
    }
    lease
}

pub open spec fn ended_state(exit_code: i32) -> ActivityState {
    if exit_code == 0 {
        ActivityState::Completed
    } else {
        ActivityState::Failed
    }
}

/// Ends the local attempt of an action: completed where its exit code is zero, failed
/// otherwise.
pub fn end_fallback<C: TrackerClock>(
    tracker: &mut ActionTracker<C>,
    lease: AttemptLease,
    exit_code: i32,
)
    requires
        old(tracker).wf(),
        !lease.ended(),
    ensures
        final(tracker).wf(),
        exists|now: u64|
            final(tracker)@ == #[trigger] old(tracker)@.end(
                lease.attempt(),
                ended_state(exit_code),
                now,
            ),
{
    let mut lease = lease;
    let terminal = if exit_code == 0 {
        ActivityState::Completed
    } else {
        ActivityState::Failed
    };
    lease.finish(tracker, terminal);
    lease.release(tracker);
}

/// A local attempt that could begin is held as a fallback of this machine and runs; one that
/// could not changes nothing but what expired. It ends as completed exactly where the exit
/// code is zero, and as failed otherwise.
pub proof fn law_fallbacks_run_on_this_machine(
    m: TrackerModel,
    k: (Seq<char>, u32),
    display: Seq<char>,
    now: u64,
    later: u64,
    exit_code: i32,
)
    ensures
        m.admits(k, now) ==> {
            let n = fallback_begun(m, k, display, now, later, true);
            &&& n.attempts.contains_key(k)
            &&& n.attempts[k].kind == ExecutionKind::Fallback
            &&& n.attempts[k].worker == "local"@
            &&& n.attempts[k].display.is_prefix_of(display)
            &&& n.attempts[k].state == ActivityState::Running
            &&& n.attempts[k].started == now
        },
        !m.admits(k, now) ==> fallback_begun(m, k, display, now, later, false) == m.pruned(now),
        ended_state(exit_code) == ActivityState::Completed <==> exit_code == 0,
        ended_state(exit_code) == ActivityState::Failed <==> exit_code != 0,
{
    reveal_strlit("local");
}

} // verus!
