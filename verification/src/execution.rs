//! Running one action on a worker, and locally where that fails.
//!
//! Times are nanoseconds unless a name says otherwise.

use crate::action_tracker::{ActionObserver, ActionTracker, TrackerClock, WorkerStage};
use crate::action_tracker::{stage_state, ActivityState, TrackerModel};
use crate::command::Command;
use crate::failure::{Failure, FailureKind};
use crate::text::{join, same_text, texts};
use vstd::prelude::*;
use vstd::utf8::encode_utf8;

verus! {

/// How a worker supplies the files that an action reads.
#[derive(Debug, Clone, PartialEq, Eq)]
pub struct VfsExecution {
    /// Where the files are fetched from.
    pub agent_fileserver: String,
    /// The root below which files are fetched.
    pub vfs_root: String,
    /// Where the accesses are traced; empty for no trace.
    pub trace_dir: String,
    /// Whether a read that cannot be supplied fails.
    pub strict: bool,
    pub allow_original_cwd: bool,
}

/// What goes with a command to a worker.
#[derive(Debug, Clone, PartialEq, Eq)]
pub struct ExecOptions {
    /// Inputs to fetch ahead.
    pub predicted_paths: Vec<String>,
    /// `None` for a plain run.
    pub vfs: Option<VfsExecution>,
}

impl Default for ExecOptions {
    fn default() -> (r: ExecOptions)
        ensures
            r.predicted_paths@.len() == 0,
            r.vfs is None,
    {
        ExecOptions { predicted_paths: Vec::new(), vfs: None }
    }
}

/// What a worker reported of an action.
#[derive(Debug, Clone, PartialEq, Eq)]
pub struct ActionOutcome {
    /// The stages it went through, as the worker numbers them.
    pub states: Vec<i32>,
    /// `None` where it did not run to its end.
    pub exit_code: Option<i32>,
    pub wall_time_us: u64,
    pub resolved_tool_digest: String,
    pub stdout: Vec<u8>,
    pub stderr: Vec<u8>,
}

/// The view of an [`ActionOutcome`].
#[verifier::ext_equal]
pub struct OutcomeModel {
    pub states: Seq<i32>,
    pub exit_code: Option<i32>,
    pub wall_time_us: u64,
    pub tool: Seq<char>,
    pub stdout: Seq<u8>,
    pub stderr: Seq<u8>,
}

impl View for ActionOutcome {
    type V = OutcomeModel;

    open spec fn view(&self) -> OutcomeModel {
        OutcomeModel {
            states: self.states@,
            exit_code: self.exit_code,
            wall_time_us: self.wall_time_us,
            tool: self.resolved_tool_digest@,
            stdout: self.stdout@,
            stderr: self.stderr@,
        }
    }
}

pub open spec fn no_outcome() -> OutcomeModel {
    OutcomeModel {
        states: Seq::empty(),
        exit_code: None,
        wall_time_us: 0,
        tool: Seq::empty(),
        stdout: Seq::empty(),
        stderr: Seq::empty(),
    }
}

impl Default for ActionOutcome {
    fn default() -> (r: ActionOutcome)
        ensures
            r@ == no_outcome(),
    {
        let r = ActionOutcome {
            states: Vec::new(),
            exit_code: None,
            wall_time_us: 0,
            resolved_tool_digest: String::new(),
            stdout: Vec::new(),
            stderr: Vec::new(),
        };
        assert(r@ =~= no_outcome());
        r
    }
}

/// What the stream of a worker carries.
pub enum WorkerEvent {
    /// A stage, as the worker numbers it, and what it means.
    State { raw: i32, stage: WorkerStage },
    Exit { exit_code: i32, wall_time_us: u64, resolved_tool_digest: String },
    Stdio { is_stderr: bool, data: Vec<u8> },
    /// Something that says nothing of the outcome.
    Other,
}

/// How many bytes of each console stream are kept.
pub const MAX_CONSOLE_BYTES: usize = 8_388_608;

/// What stands where console output was cut off.
pub const CONSOLE_TRUNCATION_NOTICE: &'static str =
    "\n[sembazuru: console output capped at 8 MiB]\n";

/// A console stream with `data` behind it, as far as there is room. The first bytes
/// that find none are announced.
pub open spec fn console_with(buf: Seq<u8>, data: Seq<u8>) -> Seq<u8> {
    if buf.len() > MAX_CONSOLE_BYTES {
        buf
    } else if buf.len() + data.len() <= MAX_CONSOLE_BYTES {
        buf + data
    } else {
        buf + data.take(MAX_CONSOLE_BYTES - buf.len()) + encode_utf8(CONSOLE_TRUNCATION_NOTICE@)
    }
}

/// Appends `data` to a console stream, as far as there is room, and announces the first
/// bytes that find none.
pub fn append_console_capped(buf: &mut Vec<u8>, data: &[u8])
    ensures
        final(buf)@ == console_with(old(buf)@, data@),
{
    if buf.len() > MAX_CONSOLE_BYTES {
        return;
    }
    let room: usize = MAX_CONSOLE_BYTES - buf.len();
    if data.len() <= room {
        buf.extend_from_slice(data);
        assert(buf@ =~= old(buf)@ + data@);
    } else {
        buf.extend_from_slice(vstd::slice::slice_subrange(data, 0, room));
        assert(buf@ =~= old(buf)@ + data@.take(room as int));
        let ghost cut = buf@;
        buf.extend_from_slice(CONSOLE_TRUNCATION_NOTICE.as_bytes());
        assert(buf@ =~= cut + encode_utf8(CONSOLE_TRUNCATION_NOTICE@));
    }
}

/// An outcome with one more event of the stream.
pub open spec fn outcome_with(o: OutcomeModel, e: WorkerEvent) -> OutcomeModel {
    match e {
        WorkerEvent::State { raw, stage } => OutcomeModel { states: o.states.push(raw), ..o },
        WorkerEvent::Exit { exit_code, wall_time_us, resolved_tool_digest } => OutcomeModel {
            exit_code: Some(exit_code),
            wall_time_us,
            tool: resolved_tool_digest@,
            ..o
        },
        WorkerEvent::Stdio { is_stderr, data } => if is_stderr {
            OutcomeModel { stderr: console_with(o.stderr, data@), ..o }
        } else {
            OutcomeModel { stdout: console_with(o.stdout, data@), ..o }
        },
        WorkerEvent::Other => o,
    }
}

/// What the events of a stream come to.
pub open spec fn outcome_of(events: Seq<WorkerEvent>) -> OutcomeModel
    decreases events.len(),
{
    if events.len() == 0 {
        no_outcome()
    } else {
        outcome_with(outcome_of(events.drop_last()), events.last())
    }
}

impl ActionOutcome {
    /// Takes in one event of the stream.
    pub fn take_in(&mut self, event: WorkerEvent)
        ensures
            final(self)@ == outcome_with(old(self)@, event),
    {
        match event {
            WorkerEvent::State { raw, stage: _ } => {
                self.states.push(raw);
            },
            WorkerEvent::Exit { exit_code, wall_time_us, resolved_tool_digest } => {
                self.exit_code = Some(exit_code);
                self.wall_time_us = wall_time_us;
                self.resolved_tool_digest = resolved_tool_digest;
            },
            WorkerEvent::Stdio { is_stderr, data } => {
                if is_stderr {
                    append_console_capped(&mut self.stderr, data.as_slice());
                } else {
                    append_console_capped(&mut self.stdout, data.as_slice());
                }
            },
            WorkerEvent::Other => {},
        }
    }
}

/// Whether `m` is what the tracker can come to when the worker of the attempt `k`
/// sends `e`.
pub open spec fn follows(
    before: TrackerModel,
    m: TrackerModel,
    k: (Seq<char>, u32),
    e: WorkerEvent,
) -> bool {
    match e {
        WorkerEvent::State { raw, stage } => match stage_state(stage) {
            Some(next) => exists|now: u64| m == #[trigger] before.advance(k, next, now),
            None => m == before,
        },
        _ => m == before,
    }
}

/// Takes in one event of the stream of a worker: tells the observer, where there
/// is one, and adds to the outcome.
pub fn drive_execute<C: TrackerClock>(
    outcome: &mut ActionOutcome,
    tracker: &mut ActionTracker<C>,
    observer: &Option<ActionObserver>,
    event: WorkerEvent,
)
    requires
        old(tracker).wf(),
    ensures
        final(tracker).wf(),
        final(outcome)@ == outcome_with(old(outcome)@, event),
        match *observer {
            Some(o) => follows(old(tracker)@, final(tracker)@, o.attempt(), event),
            None => final(tracker)@ == old(tracker)@,
        },
{
    if let Some(o) = observer {
        if let WorkerEvent::State { stage, raw: _ } = &event {
            o.worker_state(tracker, *stage);
        }
    }
    outcome.take_in(event);
}

/// What a console stream can hold at most.
pub open spec fn console_limit() -> nat {
    MAX_CONSOLE_BYTES as nat + encode_utf8(CONSOLE_TRUNCATION_NOTICE@).len()
}

/// However much a worker sends, no console stream grows beyond its limit.
pub proof fn law_console_is_bounded(events: Seq<WorkerEvent>)
    ensures
        outcome_of(events).stdout.len() <= console_limit(),
        outcome_of(events).stderr.len() <= console_limit(),
    decreases events.len(),
{
    if events.len() > 0 {
        law_console_is_bounded(events.drop_last());
    }
}

/// What was kept of a console stream stays as it is at the front of it.
pub proof fn law_console_keeps_what_it_has(buf: Seq<u8>, data: Seq<u8>)
    ensures
        buf.len() <= console_with(buf, data).len(),
        console_with(buf, data).take(buf.len() as int) == buf,
{
    assert(console_with(buf, data).take(buf.len() as int) =~= buf);
}

proof fn lemma_notice_is_there()
    ensures
        encode_utf8(CONSOLE_TRUNCATION_NOTICE@).len() > 0,
{
    reveal_strlit("\n[sembazuru: console output capped at 8 MiB]\n");
    let c = CONSOLE_TRUNCATION_NOTICE@[0] as u32;
    assert(vstd::utf8::encode_scalar(c).len() > 0);
}

/// A stream that was cut off takes nothing more.
pub proof fn law_capped_console_is_final(buf: Seq<u8>, data: Seq<u8>, more: Seq<u8>)
    requires
        buf.len() <= MAX_CONSOLE_BYTES,
        buf.len() + data.len() > MAX_CONSOLE_BYTES,
    ensures
        console_with(console_with(buf, data), more) == console_with(buf, data),
{
    lemma_notice_is_there();
}

/// Nothing is dropped in silence: what does not fit is cut off at the limit, and the
/// notice stands behind it.
pub proof fn law_dropped_output_is_announced(buf: Seq<u8>, data: Seq<u8>)
    requires
        buf.len() <= MAX_CONSOLE_BYTES,
        buf.len() + data.len() > MAX_CONSOLE_BYTES,
    ensures
        console_with(buf, data) == (buf + data).take(MAX_CONSOLE_BYTES as int) + encode_utf8(
            CONSOLE_TRUNCATION_NOTICE@,
        ),
{
    assert(buf + data.take(MAX_CONSOLE_BYTES - buf.len()) =~= (buf + data).take(
        MAX_CONSOLE_BYTES as int,
    ));
}

/// How hard to try to reach a worker.
#[derive(Clone, Copy, Debug, PartialEq, Eq, Structural)]
pub struct ConnectPolicy {
    pub attempts: u32,
    pub per_attempt_timeout: u64,
    pub retry_sleep: u64,
}

impl ConnectPolicy {
    /// For a worker that may still be starting.
    pub fn patient() -> (r: ConnectPolicy)
        ensures
            r == (ConnectPolicy {
                attempts: 20,
                per_attempt_timeout: 200_000_000,
                retry_sleep: 50_000_000,
            }),
    {
        ConnectPolicy { attempts: 20, per_attempt_timeout: 200_000_000, retry_sleep: 50_000_000 }
    }

    /// For a worker that is registered: it answers at once or is gone.
    pub fn fast() -> (r: ConnectPolicy)
        ensures
            r == (ConnectPolicy {
                attempts: 2,
                per_attempt_timeout: 250_000_000,
                retry_sleep: 25_000_000,
            }),
    {
        ConnectPolicy { attempts: 2, per_attempt_timeout: 250_000_000, retry_sleep: 25_000_000 }
    }

    /// How long to sleep before the next attempt when `failed` attempts have failed;
    /// `None` to give up.
    pub fn after_failures(&self, failed: u32) -> (r: Option<u64>)
        ensures
            r == retry_after(*self, failed),
    {
        if failed < self.attempts {
            Some(self.retry_sleep)
        } else {
            None
        }
    }
}

pub open spec fn retry_after(p: ConnectPolicy, failed: u32) -> Option<u64> {
    if failed < p.attempts {
        Some(p.retry_sleep)
    } else {
        None
    }
}

/// At least one attempt is made, and never more than the policy says: the first
/// failure count that ends them is the number of attempts, or one.
pub proof fn law_attempts_are_bounded(p: ConnectPolicy, failed: u32)
    requires
        failed >= 1,
    ensures
        retry_after(p, failed) is None <==> failed >= if p.attempts > 1 {
            p.attempts
        } else {
            1u32
        },
{
}

/// How many errors of a chain are told.
pub const MAX_ERROR_CHAIN_DEPTH: usize = 16;

/// What is told of the errors `messages`, each the cause of the one before it, the
/// causes of the last one left out: an error that says the same as the one before
/// it is not told again.
pub open spec fn chain_text(messages: Seq<Seq<char>>) -> Seq<char>
    decreases messages.len(),
{
    if messages.len() == 0 {
        Seq::empty()
    } else if messages.len() == 1 {
        messages[0]
    } else {
        let before = chain_text(messages.drop_last());
        if messages[messages.len() - 2] == messages.last() {
            before
        } else {
            before + ": "@ + messages.last()
        }
    }
}

/// What is told of a chain of errors, which may not end.
pub open spec fn bounded_chain_text(messages: Seq<Seq<char>>) -> Seq<char> {
    if messages.len() <= MAX_ERROR_CHAIN_DEPTH {
        chain_text(messages)
    } else {
        chain_text(messages.take(MAX_ERROR_CHAIN_DEPTH as int)) + ": "@
            + "[source chain truncated]"@
    }
}

/// What is told of a chain of errors.
pub fn error_chain_text(messages: &Vec<String>) -> (r: String)
    ensures
        r@ == bounded_chain_text(texts(messages@)),
{
    let ghost all = texts(messages@);
    let mut text = String::new();
    let mut i: usize = 0;
    assert(all.take(0) =~= Seq::<Seq<char>>::empty());
    while i < messages.len() && i < MAX_ERROR_CHAIN_DEPTH
        invariant
            i <= messages@.len(),
            i <= MAX_ERROR_CHAIN_DEPTH,
            all == texts(messages@),
            text@ == chain_text(all.take(i as int)),
        decreases messages@.len() - i,
    {
        let ghost now = all.take(i + 1);
        assert(now.drop_last() =~= all.take(i as int));
        assert(now.last() == messages@[i as int]@);
        if i == 0 {
            text = messages[i].clone();
        } else {
            assert(now[now.len() - 2] == messages@[i - 1]@);
            if !same_text(messages[i - 1].as_str(), messages[i].as_str()) {
                text.append(": ");
                text.append(messages[i].as_str());
            }
        }
        i = i + 1;
    }
    if i < messages.len() {
        text.append(": ");
        text.append("[source chain truncated]");
    } else {
        assert(all.take(i as int) =~= all);
    }
    text
}

/// Why an action could not be run on a worker.
#[derive(Debug, Clone, PartialEq, Eq)]
pub enum ExecuteError {
    /// The worker could not be reached: what the error and its causes say.
    Transport(Vec<String>),
    /// The worker refused or broke off: what it says.
    Rpc(String),
}

impl ExecuteError {
    pub open spec fn told(self) -> Seq<char> {
        match self {
            ExecuteError::Transport(messages) => "transport: "@ + bounded_chain_text(
                texts(messages@),
            ),
            ExecuteError::Rpc(status) => "rpc: "@ + status@,
        }
    }

    /// What is told of it.
    pub fn text(&self) -> (r: String)
        ensures
            r@ == self.told(),
    {
        match self {
            ExecuteError::Transport(messages) => {
                let mut s = "transport: ".to_owned();
                s.append(error_chain_text(messages).as_str());
                s
            },
            ExecuteError::Rpc(status) => {
                let mut s = "rpc: ".to_owned();
                s.append(status.as_str());
                s
            },
        }
    }
}

/// Why an action ran locally.
#[derive(Debug, Clone, PartialEq, Eq)]
pub enum LocalFallbackReason {
    /// It cannot be run elsewhere, and why.
    RouteAway(String),
    NoWorker,
    /// Every worker failed; what is told of the last one.
    RemoteExhausted(String),
}

/// The view of a [`LocalFallbackReason`].
pub enum ReasonModel {
    RouteAway(Seq<char>),
    NoWorker,
    RemoteExhausted(Seq<char>),
}

impl View for LocalFallbackReason {
    type V = ReasonModel;

    open spec fn view(&self) -> ReasonModel {
        match *self {
            LocalFallbackReason::RouteAway(why) => ReasonModel::RouteAway(why@),
            LocalFallbackReason::NoWorker => ReasonModel::NoWorker,
            LocalFallbackReason::RemoteExhausted(detail) => ReasonModel::RemoteExhausted(detail@),
        }
    }
}

impl LocalFallbackReason {
    /// Whether it ran locally by choice and not for a failure.
    pub fn is_route_away(&self) -> (r: bool)
        ensures
            r == (*self is RouteAway),
    {
        match self {
            LocalFallbackReason::RouteAway(_) => true,
            _ => false,
        }
    }

    pub open spec fn told(self) -> Seq<char> {
        match self {
            LocalFallbackReason::RouteAway(why) => "route-away ("@ + why@ + ")"@,
            LocalFallbackReason::NoWorker => "no live workers"@,
            LocalFallbackReason::RemoteExhausted(detail) => detail@,
        }
    }

    /// What is told of it.
    pub fn text(&self) -> (r: String)
        ensures
            r@ == self.told(),
    {
        match self {
            LocalFallbackReason::RouteAway(why) => {
                let mut s = "route-away (".to_owned();
                s.append(why.as_str());
                s.append(")");
                s
            },
            LocalFallbackReason::NoWorker => "no live workers".to_owned(),
            LocalFallbackReason::RemoteExhausted(detail) => detail.clone(),
        }
    }
}

/// How an action ran.
#[derive(Debug, Clone, PartialEq, Eq)]
pub enum Execution {
    /// On a worker.
    Remote(ActionOutcome),
    /// Locally.
    LocalFallback { exit_code: i32, reason: LocalFallbackReason },
}

/// The view of an [`Execution`].
pub enum ExecutionModel {
    Remote(OutcomeModel),
    Local(i32, ReasonModel),
}

impl View for Execution {
    type V = ExecutionModel;

    open spec fn view(&self) -> ExecutionModel {
        match *self {
            Execution::Remote(o) => ExecutionModel::Remote(o@),
            Execution::LocalFallback { exit_code, reason } => ExecutionModel::Local(
                exit_code,
                reason@,
            ),
        }
    }
}

impl ExecutionModel {
    /// A worker ran the action to an exit code of zero.
    pub open spec fn succeeded_remotely(self) -> bool {
        self matches ExecutionModel::Remote(o) && o.exit_code == Some(0i32)
    }
}

/// What follows an attempt on a worker.
pub enum RemoteStep {
    /// It is done.
    Done(Execution),
    /// Run it locally.
    RunLocally(LocalFallbackReason),
}

/// Decides what follows an attempt on a worker: only an outcome with an exit code
/// counts.
pub fn after_remote(remote: Result<ActionOutcome, ExecuteError>) -> (r: RemoteStep)
    ensures
        match remote {
            Ok(outcome) => if outcome.exit_code is Some {
                r == RemoteStep::Done(Execution::Remote(outcome))
            } else {
                r matches RemoteStep::RunLocally(LocalFallbackReason::RemoteExhausted(detail))
                    && detail@ == "remote action did not complete (no exit status)"@
            },
            Err(e) => r matches RemoteStep::RunLocally(LocalFallbackReason::RemoteExhausted(detail))
                && detail@ == "remote execution failed: "@ + e.told(),
        },
{
    match remote {
        Ok(outcome) => {
            if outcome.exit_code.is_some() {
                RemoteStep::Done(Execution::Remote(outcome))
            } else {
                RemoteStep::RunLocally(
                    LocalFallbackReason::RemoteExhausted(
                        "remote action did not complete (no exit status)".to_owned(),
                    ),
                )
            }
        },
        Err(e) => {
            let mut detail = "remote execution failed: ".to_owned();
            detail.append(e.text().as_str());
            RemoteStep::RunLocally(LocalFallbackReason::RemoteExhausted(detail))
        },
    }
}

/// How an action that was to run locally ran: the exit code is -1 where it could
/// not be run.
pub fn after_local(reason: LocalFallbackReason, local: Result<i32, Failure>) -> (r: Execution)
    ensures
        r == (Execution::LocalFallback {
            exit_code: match local {
                Ok(code) => code,
                Err(_) => -1i32,
            },
            reason,
        }),
{
    let exit_code: i32 = match local {
        Ok(code) => code,
        Err(_) => -1,
    };
    Execution::LocalFallback { exit_code, reason }
}

/// What stands for the exit code of a process that has none.
pub fn exit_code_of(code: Option<i32>) -> (r: i32)
    ensures
        r == match code {
            Some(c) => c,
            None => -1i32,
        },
{
    match code {
        Some(c) => c,
        None => -1,
    }
}

/// Checks a command before it is run locally.
pub fn check_local_command(command: &Command) -> (r: Result<(), Failure>)
    ensures
        match r {
            Ok(_) => command.argv@.len() > 0,
            Err(f) => command.argv@.len() == 0 && f@ == (
                FailureKind::InvalidInput,
                "command.argv is empty"@,
            ),
        },
{
    if command.argv.len() == 0 {
        return Err(Failure::new(FailureKind::InvalidInput, "command.argv is empty"));
    }
    Ok(())
}

/// Checks that a command of an authenticated caller has a deadline.
pub fn check_caller_deadline(has_deadline: bool) -> (r: Result<(), Failure>)
    ensures
        match r {
            Ok(_) => has_deadline,
            Err(f) => !has_deadline && f@ == (
                FailureKind::PermissionDenied,
                "authenticated caller execution requires a submission deadline"@,
            ),
        },
{
    if !has_deadline {
        return Err(
            Failure::new(
                FailureKind::PermissionDenied,
                "authenticated caller execution requires a submission deadline",
            ),
        );
    }
    Ok(())
}

/// All that a worker sent of one of the two console streams, in its order.
pub open spec fn sent_console(events: Seq<WorkerEvent>, of_stderr: bool) -> Seq<u8>
    decreases events.len(),
{
    if events.len() == 0 {
        Seq::empty()
    } else {
        let before = sent_console(events.drop_last(), of_stderr);
        match events.last() {
            WorkerEvent::Stdio { is_stderr, data } => if is_stderr == of_stderr {
                before + data@
            } else {
                before
            },
            _ => before,
        }
    }
}

/// What is kept of `all` that was sent.
spec fn kept_of(all: Seq<u8>) -> Seq<u8> {
    if all.len() <= 8_388_608 {
        all
    } else {
        all.take(8_388_608) + encode_utf8(CONSOLE_TRUNCATION_NOTICE@)
    }
}

proof fn lemma_kept(all: Seq<u8>, data: Seq<u8>)
    ensures
        console_with(kept_of(all), data) == kept_of(all + data),
{
    lemma_notice_is_there();
    let notice = encode_utf8(CONSOLE_TRUNCATION_NOTICE@);
    if all.len() > 8_388_608 {
        assert((all + data).take(8_388_608) =~= all.take(8_388_608));
    } else if all.len() + data.len() > 8_388_608 {
        law_dropped_output_is_announced(all, data);
    }
}

/// The console output of an action is what its worker sent, put together in its order: all
/// of it up to 8 MiB, and beyond that the first 8 MiB and the notice.
pub proof fn law_console_is_what_the_worker_sent(events: Seq<WorkerEvent>)
    ensures
        ({
            let out = sent_console(events, false);
            let err = sent_console(events, true);
            let o = outcome_of(events);
            let notice = encode_utf8(CONSOLE_TRUNCATION_NOTICE@);
            &&& out.len() <= 8_388_608 ==> o.stdout == out
            &&& out.len() > 8_388_608 ==> o.stdout == out.take(8_388_608) + notice
            &&& err.len() <= 8_388_608 ==> o.stderr == err
            &&& err.len() > 8_388_608 ==> o.stderr == err.take(8_388_608) + notice
        }),
{
    lemma_console_is_kept(events);
}

proof fn lemma_console_is_kept(events: Seq<WorkerEvent>)
    ensures
        outcome_of(events).stdout == kept_of(sent_console(events, false)),
        outcome_of(events).stderr == kept_of(sent_console(events, true)),
    decreases events.len(),
{
    if events.len() > 0 {
        let init = events.drop_last();
        lemma_console_is_kept(init);
        if let WorkerEvent::Stdio { is_stderr, data } = events.last() {
            lemma_kept(sent_console(init, is_stderr), data@);
        }
    }
}

/// The exit code, the time and the tool of an action are those of the last exit that its
/// worker told; without one there is none. Its stages are all those that were told, in
/// their order.
pub proof fn law_outcomes_go_by_the_last_exit(events: Seq<WorkerEvent>, e: WorkerEvent)
    ensures
        ({
            let before = outcome_of(events);
            let o = outcome_of(events.push(e));
            &&& match e {
                WorkerEvent::Exit { exit_code, wall_time_us, resolved_tool_digest } => {
                    &&& o.exit_code == Some(exit_code) && o.wall_time_us == wall_time_us
                    &&& o.tool == resolved_tool_digest@
                },
                _ => o.exit_code == before.exit_code && o.wall_time_us == before.wall_time_us
                    && o.tool == before.tool,
            }
            &&& match e {
                WorkerEvent::State { raw, stage } => o.states == before.states.push(raw),
                _ => o.states == before.states,
            }
        }),
        outcome_of(Seq::empty()).exit_code is None,
        outcome_of(Seq::empty()).states.len() == 0,
        outcome_of(Seq::empty()).tool.len() == 0,
{
    assert(events.push(e).drop_last() =~= events);
}

/// Between two attempts the time that the policy names goes by.
pub proof fn law_attempts_are_spaced(p: ConnectPolicy, failed: u32)
    ensures
        failed < p.attempts ==> retry_after(p, failed) == Some(p.retry_sleep),
        failed >= p.attempts ==> retry_after(p, failed) is None,
{
}

/// What is told of a chain of errors: where each says something else than the one before
/// it, all of them, with a colon between; one that says the same as the one before it adds
/// nothing.
pub proof fn law_error_chains_tell_every_cause(messages: Seq<Seq<char>>, more: Seq<char>)
    ensures
        (forall|i: int| 0 < i < messages.len() ==> #[trigger] messages[i] != messages[i - 1])
            ==> chain_text(messages) == join(messages, ": "@),
        messages.len() > 0 ==> chain_text(messages.push(messages.last())) == chain_text(messages),
        messages.len() > 0 && more != messages.last() ==> chain_text(messages.push(more))
            == chain_text(messages) + ": "@ + more,
        chain_text(seq![more]) == more,
{
    if messages.len() > 0 {
        let again = messages.push(messages.last());
        assert(again.drop_last() =~= messages);
        let longer = messages.push(more);
        assert(longer.drop_last() =~= messages);
    }
    lemma_chain_joined(messages);
}

proof fn lemma_chain_joined(messages: Seq<Seq<char>>)
    ensures
        (forall|i: int| 0 < i < messages.len() ==> #[trigger] messages[i] != messages[i - 1])
            ==> chain_text(messages) == join(messages, ": "@),
    decreases messages.len(),
{
    if messages.len() > 1 && (forall|i: int|
        0 < i < messages.len() ==> #[trigger] messages[i] != messages[i - 1]) {
        let init = messages.drop_last();
        assert forall|i: int| 0 < i < init.len() implies #[trigger] init[i] != init[i - 1] by {
            assert(messages[i] != messages[i - 1]);
        }
        lemma_chain_joined(init);
        assert(messages[messages.len() - 1] != messages[messages.len() - 2]);
    }
}

/// A chain of at most sixteen errors is told whole; of a longer one the first sixteen, and
/// that there are more.
pub proof fn law_long_error_chains_are_cut(messages: Seq<Seq<char>>)
    ensures
        messages.len() <= 16 ==> bounded_chain_text(messages) == chain_text(messages),
        messages.len() > 16 ==> bounded_chain_text(messages) == chain_text(messages.take(16))
            + ": "@ + "[source chain truncated]"@,
{
}

/// What a worker reports of its stage moves its attempt forward to that stage; nothing else
/// that it sends moves any attempt.
pub proof fn law_attempts_follow_their_worker(
    before: TrackerModel,
    m: TrackerModel,
    k: (Seq<char>, u32),
    e: WorkerEvent,
)
    requires
        follows(before, m, k, e),
    ensures
        !(e is State) ==> m == before,
        e matches WorkerEvent::State { raw, stage } ==> {
            let next = match stage {
                WorkerStage::Queued => Some(ActivityState::Queued),
                WorkerStage::Preparing => Some(ActivityState::Preparing),
                WorkerStage::Running => Some(ActivityState::Running),
                WorkerStage::Other => None,
            };
            &&& next is None ==> m == before
            &&& next is Some && before.attempts.contains_key(k)
                && !before.attempts[k].state.terminal() && before.attempts[k].state.rank()
                < (next->0).rank() ==> m.attempts.contains_key(k) && m.attempts[k].state
                == next->0
        },
        forall|j: (Seq<char>, u32)| #[trigger]
            before.attempts.contains_key(j) && j != k ==> m.attempts.contains_key(j)
                && m.attempts[j] == before.attempts[j],
{
}

} // verus!
