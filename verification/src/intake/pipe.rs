//! The named pipe of the intake: who may open it, how its server is recognized, and
//! how a caller is identified before a byte of it is read.

use crate::failure::{Failure, FailureKind};
use crate::text::{decimal, decimal_int, decimal_of, same_text, signed_decimal_of, texts};
use vstd::prelude::*;

verus! {

/// The name of the pipe.
pub const PIPE_NAME: &'static str = "\\\\.\\pipe\\Sembazuru.LocalIntake.v1";

/// Who may open the pipe, the account of its server aside: the system and the
/// administrators may do anything, authenticated users may read and write.
pub const PROTECTED_SDDL: &'static str = "D:P(A;;GA;;;SY)(A;;GA;;;BA)(A;;0x00120083;;;AU)";

/// What authenticated users may do.
pub const AUTHENTICATED_USERS_ACCESS_MASK: u32 = 0x0012_0083;

/// What the account of the server may do: read, write, and make the next instance.
pub const SERVER_INSTANCE_ACCESS_MASK: u32 = 0x0012_019f;

/// The account of the system.
pub const LOCAL_SYSTEM_SID: &'static str = "S-1-5-18";

/// The level at which a server can act as its caller.
pub const SECURITY_IMPERSONATION: i32 = 2;

/// The system's code for a request that it denies.
pub const ERROR_ACCESS_DENIED: i32 = 5;

/// The system's code for an answer that does not fit.
pub const ERROR_INSUFFICIENT_BUFFER: i32 = 122;

/// The kind of a service that has a process of its own.
pub const OWN_PROCESS: u32 = 0x10;

/// Who may open the pipe of the server with the account `sid`.
pub fn server_sddl(sid: &str) -> (r: String)
    ensures
        r@ == PROTECTED_SDDL@ + "(A;;0x0012019f;;;"@ + sid@ + ")"@,
{
    let mut s = PROTECTED_SDDL.to_owned();
    s.append("(A;;0x0012019f;;;");
    s.append(sid);
    s.append(")");
    s
}

/// The accounts that a launcher trusts as servers: the system, and its own.
pub fn allowed_server_sids(caller_sid: &str) -> (r: Vec<String>)
    ensures
        texts(r@) == seq![LOCAL_SYSTEM_SID@, caller_sid@],
{
    let mut r: Vec<String> = Vec::new();
    r.push(LOCAL_SYSTEM_SID.to_owned());
    r.push(caller_sid.to_owned());
    assert(texts(r@) =~= seq![LOCAL_SYSTEM_SID@, caller_sid@]);
    r
}

/// Checks that the server of a pipe is trusted.
pub fn check_server_sid(server_sid: &str, allowed: &Vec<String>) -> (r: Result<(), Failure>)
    ensures
        match r {
            Ok(_) => texts(allowed@).contains(server_sid@),
            Err(f) => !texts(allowed@).contains(server_sid@) && f@ == (
                FailureKind::PermissionDenied,
                "named-pipe server SID "@ + server_sid@ + " is not trusted"@,
            ),
        },
{
    let ghost all = texts(allowed@);
    let mut i: usize = 0;
    while i < allowed.len()
        invariant
            i <= allowed@.len(),
            all == texts(allowed@),
            forall|j: int| 0 <= j < i ==> #[trigger] all[j] != server_sid@,
        decreases allowed@.len() - i,
    {
        assert(all[i as int] == allowed@[i as int]@);
        if same_text(allowed[i].as_str(), server_sid) {
            return Ok(());
        }
        i = i + 1;
    }
    let mut m = "named-pipe server SID ".to_owned();
    m.append(server_sid);
    m.append(" is not trusted");
    Err(Failure { kind: FailureKind::PermissionDenied, message: m })
}

/// How far the account of a server was looked up.
#[derive(Clone, Copy, Debug, PartialEq, Eq, Structural)]
pub enum ServerSidLookupStage {
    OpenProcess,
    OpenProcessToken,
    TokenUser,
}

pub open spec fn stage_text(stage: ServerSidLookupStage) -> Seq<char> {
    match stage {
        ServerSidLookupStage::OpenProcess => "OpenProcess"@,
        ServerSidLookupStage::OpenProcessToken => "OpenProcessToken"@,
        ServerSidLookupStage::TokenUser => "TokenUser"@,
    }
}

/// Why the account of a server could not be looked up.
#[derive(Debug, Clone, PartialEq, Eq)]
pub struct ServerSidLookupError {
    pub stage: ServerSidLookupStage,
    pub process_id: u32,
    /// The system's code, where the error has one.
    pub code: Option<i32>,
    pub error: Failure,
}

impl ServerSidLookupError {
    pub open spec fn told(self) -> Seq<char> {
        stage_text(self.stage) + "("@ + decimal(self.process_id as nat) + "): "@
            + self.error.message@
    }

    /// What is told of it.
    pub fn text(&self) -> (r: String)
        ensures
            r@ == self.told(),
    {
        let mut s = match self.stage {
            ServerSidLookupStage::OpenProcess => "OpenProcess".to_owned(),
            ServerSidLookupStage::OpenProcessToken => "OpenProcessToken".to_owned(),
            ServerSidLookupStage::TokenUser => "TokenUser".to_owned(),
        };
        s.append("(");
        s.append(decimal_of(self.process_id as u64).as_str());
        s.append("): ");
        s.append(self.error.message.as_str());
        s
    }

    /// Whether the process may be a service of the system, which cannot be opened.
    pub open spec fn may_be_service(self) -> bool {
        self.stage is OpenProcess && self.code == Some(ERROR_ACCESS_DENIED)
    }
}

/// What follows when the account of a server was looked up.
pub enum SidRoute {
    /// It is this one.
    Sid(String),
    /// Ask the service manager about this process.
    Attest(ServerSidLookupError),
    Fail(Failure),
}

/// Decides what follows when the account of a server was looked up: only a process
/// that may not be opened is asked about at the service manager.
pub fn route_server_sid(direct: Result<String, ServerSidLookupError>) -> (r: SidRoute)
    ensures
        match direct {
            Ok(sid) => r == SidRoute::Sid(sid),
            Err(e) => if e.may_be_service() {
                r == SidRoute::Attest(e)
            } else {
                r matches SidRoute::Fail(f) && f@ == (e.error.kind, e.told())
            },
        },
{
    match direct {
        Ok(sid) => SidRoute::Sid(sid),
        Err(e) => {
            let denied = match e.code {
                Some(c) => c == ERROR_ACCESS_DENIED,
                None => false,
            };
            if e.stage == ServerSidLookupStage::OpenProcess && denied {
                SidRoute::Attest(e)
            } else {
                SidRoute::Fail(Failure { kind: e.error.kind, message: e.text() })
            }
        },
    }
}

/// The account of a server that the service manager was asked about; `attested` is
/// what came of that.
pub fn after_attestation(direct: &ServerSidLookupError, attested: Result<(), Failure>) -> (r:
    Result<String, Failure>)
    ensures
        match attested {
            Ok(_) => r matches Ok(sid) && sid@ == LOCAL_SYSTEM_SID@,
            Err(scm) => r matches Err(f) && f@ == (
                direct.error.kind,
                direct.told() + "; SCM attestation failed: "@ + scm.message@,
            ),
        },
{
    match attested {
        Ok(_) => Ok(LOCAL_SYSTEM_SID.to_owned()),
        Err(scm) => {
            let mut m = direct.text();
            m.append("; SCM attestation failed: ");
            m.append(scm.message.as_str());
            Err(Failure { kind: direct.error.kind, message: m })
        },
    }
}

/// What a service does.
#[derive(Clone, Copy, Debug, PartialEq, Eq, Structural)]
pub enum ServiceState {
    Stopped,
    StartPending,
    StopPending,
    Running,
    ContinuePending,
    PausePending,
    Paused,
}

/// What the service manager says of a service, which is asked twice.
#[derive(Debug, Clone, PartialEq, Eq)]
pub struct ServiceAttestationFacts {
    pub process_id: u32,
    pub status1_state: ServiceState,
    pub status1_pid: Option<u32>,
    pub status1_type: u32,
    pub config_type: u32,
    pub account_name: Option<String>,
    pub status2_state: ServiceState,
    pub status2_pid: Option<u32>,
    pub status2_type: u32,
}

/// What keeps a process from being taken for the service, if anything does.
pub open spec fn attestation_problem(f: ServiceAttestationFacts) -> Option<Seq<char>> {
    if f.process_id == 0 {
        Some("pipe server PID is zero"@)
    } else if !(f.status1_state is Running) || !(f.status2_state is Running) {
        Some("service was not Running in both status queries"@)
    } else if f.status1_pid != Some(f.process_id) || f.status2_pid != Some(f.process_id) {
        Some("service PID did not stably match the pipe server PID"@)
    } else if f.status1_type != OWN_PROCESS || f.config_type != OWN_PROCESS || f.status2_type
        != OWN_PROCESS {
        Some("service type was not exactly OWN_PROCESS in all queries"@)
    } else if f.account_name is None || f.account_name->0@ != "LocalSystem"@ {
        Some("service account was not exactly LocalSystem"@)
    } else {
        None
    }
}

fn is_process(pid: Option<u32>, process_id: u32) -> (r: bool)
    ensures
        r == (pid == Some(process_id)),
{
    match pid {
        Some(p) => p == process_id,
        None => false,
    }
}

/// Decides whether a process is taken for the service: all that is known of the
/// service has to be exact, and the same both times.
pub fn validate_service_attestation(facts: &ServiceAttestationFacts) -> (r: Result<(), Failure>)
    ensures
        match attestation_problem(*facts) {
            None => r is Ok,
            Some(m) => r matches Err(f) && f@ == (FailureKind::PermissionDenied, m),
        },
{
    let account_fits = match &facts.account_name {
        Some(name) => same_text(name.as_str(), "LocalSystem"),
        None => false,
    };
    let problem = if facts.process_id == 0 {
        "pipe server PID is zero"
    } else if facts.status1_state != ServiceState::Running || facts.status2_state
        != ServiceState::Running {
        "service was not Running in both status queries"
    } else if !is_process(facts.status1_pid, facts.process_id) || !is_process(
        facts.status2_pid,
        facts.process_id,
    ) {
        "service PID did not stably match the pipe server PID"
    } else if facts.status1_type != OWN_PROCESS || facts.config_type != OWN_PROCESS
        || facts.status2_type != OWN_PROCESS {
        "service type was not exactly OWN_PROCESS in all queries"
    } else if !account_fits {
        "service account was not exactly LocalSystem"
    } else {
        return Ok(());
    };
    Err(Failure::new(FailureKind::PermissionDenied, problem))
}

/// A process is taken for the service only if both times the service ran in that
/// very process, by itself, under the account of the system.
pub proof fn law_services_are_attested_exactly(f: ServiceAttestationFacts)
    requires
        attestation_problem(f) is None,
    ensures
        f.status1_state is Running && f.status2_state is Running,
        f.status1_pid == Some(f.process_id) && f.status2_pid == Some(f.process_id),
        f.status1_type == OWN_PROCESS && f.config_type == OWN_PROCESS && f.status2_type
            == OWN_PROCESS,
        f.account_name matches Some(name) && name@ == "LocalSystem"@,
{
}

/// What to do next to find out who a caller is.
pub enum CaptureState {
    /// Act as the caller.
    Impersonate,
    OpenThreadToken,
    QueryLevel,
    ReadSid,
    /// Make a token for processes out of it; the account of the caller.
    DuplicatePrimary(String),
    /// Take its privileges away.
    Restrict(String),
    /// Act as oneself again; the account of the caller, or what failed.
    Revert(Result<String, Failure>),
    Finished(Result<String, Failure>),
}

/// What came of it.
pub enum CaptureEvent {
    Done,
    /// The level at which the server can act as the caller.
    Level(i32),
    Sid(String),
    /// It failed: what the system says of it.
    Failed(Failure),
}

/// A state without strings.
pub enum CaptureModel {
    Impersonate,
    OpenThreadToken,
    QueryLevel,
    ReadSid,
    DuplicatePrimary(Seq<char>),
    Restrict(Seq<char>),
    Revert(Result<Seq<char>, (FailureKind, Seq<char>)>),
    Finished(Result<Seq<char>, (FailureKind, Seq<char>)>),
}

pub open spec fn sid_view(r: Result<String, Failure>) -> Result<Seq<char>, (FailureKind, Seq<char>)> {
    match r {
        Ok(s) => Ok(s@),
        Err(f) => Err(f@),
    }
}

impl View for CaptureState {
    type V = CaptureModel;

    open spec fn view(&self) -> CaptureModel {
        match *self {
            CaptureState::Impersonate => CaptureModel::Impersonate,
            CaptureState::OpenThreadToken => CaptureModel::OpenThreadToken,
            CaptureState::QueryLevel => CaptureModel::QueryLevel,
            CaptureState::ReadSid => CaptureModel::ReadSid,
            CaptureState::DuplicatePrimary(s) => CaptureModel::DuplicatePrimary(s@),
            CaptureState::Restrict(s) => CaptureModel::Restrict(s@),
            CaptureState::Revert(r) => CaptureModel::Revert(sid_view(r)),
            CaptureState::Finished(r) => CaptureModel::Finished(sid_view(r)),
        }
    }
}

pub open spec fn in_context(context: Seq<char>, f: Failure) -> (FailureKind, Seq<char>) {
    (f.kind, context + ": "@ + f.message@)
}

/// Whether an event can follow.
pub open spec fn capture_expects(s: CaptureModel, e: CaptureEvent) -> bool {
    match s {
        CaptureModel::QueryLevel => e is Level || e is Failed,
        CaptureModel::ReadSid => e is Sid || e is Failed,
        CaptureModel::Finished(_) => false,
        _ => e is Done || e is Failed,
    }
}

/// How it goes on.
pub open spec fn capture_next(s: CaptureModel, e: CaptureEvent) -> CaptureModel {
    match (s, e) {
        (CaptureModel::Impersonate, CaptureEvent::Failed(f)) => CaptureModel::Finished(
            Err(in_context("ImpersonateNamedPipeClient"@, f)),
        ),
        (CaptureModel::Impersonate, _) => CaptureModel::OpenThreadToken,
        (CaptureModel::OpenThreadToken, CaptureEvent::Failed(f)) => CaptureModel::Revert(
            Err(in_context("OpenThreadToken"@, f)),
        ),
        (CaptureModel::OpenThreadToken, _) => CaptureModel::QueryLevel,
        (CaptureModel::QueryLevel, CaptureEvent::Failed(f)) => CaptureModel::Revert(
            Err(in_context("GetTokenInformation(TokenImpersonationLevel)"@, f)),
        ),
        (CaptureModel::QueryLevel, CaptureEvent::Level(level)) => if level
            < SECURITY_IMPERSONATION {
            CaptureModel::Revert(
                Err(
                    (
                        FailureKind::PermissionDenied,
                        "caller token impersonation level "@ + decimal_int(level as int)
                            + " is below SecurityImpersonation"@,
                    ),
                ),
            )
        } else {
            CaptureModel::ReadSid
        },
        (CaptureModel::ReadSid, CaptureEvent::Failed(f)) => CaptureModel::Revert(Err(f@)),
        (CaptureModel::ReadSid, CaptureEvent::Sid(sid)) => CaptureModel::DuplicatePrimary(sid@),
        (CaptureModel::DuplicatePrimary(_), CaptureEvent::Failed(f)) => CaptureModel::Revert(
            Err(in_context("DuplicateTokenEx(TokenPrimary)"@, f)),
        ),
        (CaptureModel::DuplicatePrimary(sid), _) => CaptureModel::Restrict(sid),
        (CaptureModel::Restrict(_), CaptureEvent::Failed(f)) => CaptureModel::Revert(
            Err(in_context("CreateRestrictedToken(DISABLE_MAX_PRIVILEGE)"@, f)),
        ),
        (CaptureModel::Restrict(sid), _) => CaptureModel::Revert(Ok(sid)),
        (CaptureModel::Revert(_), CaptureEvent::Failed(f)) => CaptureModel::Finished(
            Err(in_context("RevertToSelf"@, f)),
        ),
        (CaptureModel::Revert(r), _) => CaptureModel::Finished(r),
        _ => s,
    }
}

fn with_context(context: &str, f: &Failure) -> (r: Failure)
    ensures
        r@ == in_context(context@, *f),
{
    let mut m = context.to_owned();
    m.append(": ");
    m.append(f.message.as_str());
    Failure { kind: f.kind, message: m }
}

impl CaptureState {
    /// Goes on with what came of the last step.
    pub fn capture_caller(self, event: CaptureEvent) -> (r: CaptureState)
        requires
            capture_expects(self@, event),
        ensures
            r@ == capture_next(self@, event),
    {
        match (self, event) {
            (CaptureState::Impersonate, CaptureEvent::Failed(f)) => CaptureState::Finished(
                Err(with_context("ImpersonateNamedPipeClient", &f)),
            ),
            (CaptureState::Impersonate, _) => CaptureState::OpenThreadToken,
            (CaptureState::OpenThreadToken, CaptureEvent::Failed(f)) => CaptureState::Revert(
                Err(with_context("OpenThreadToken", &f)),
            ),
            (CaptureState::OpenThreadToken, _) => CaptureState::QueryLevel,
            (CaptureState::QueryLevel, CaptureEvent::Failed(f)) => CaptureState::Revert(
                Err(with_context("GetTokenInformation(TokenImpersonationLevel)", &f)),
            ),
            (CaptureState::QueryLevel, CaptureEvent::Level(level)) => {
                if level < SECURITY_IMPERSONATION {
                    let mut m = "caller token impersonation level ".to_owned();
                    m.append(signed_decimal_of(level).as_str());
                    m.append(" is below SecurityImpersonation");
                    CaptureState::Revert(
                        Err(Failure { kind: FailureKind::PermissionDenied, message: m }),
                    )
                } else {
                    CaptureState::ReadSid
                }
            },
            (CaptureState::ReadSid, CaptureEvent::Failed(f)) => CaptureState::Revert(Err(f)),
            (CaptureState::ReadSid, CaptureEvent::Sid(sid)) => CaptureState::DuplicatePrimary(sid),
            (CaptureState::DuplicatePrimary(_), CaptureEvent::Failed(f)) => CaptureState::Revert(
                Err(with_context("DuplicateTokenEx(TokenPrimary)", &f)),
            ),
            (CaptureState::DuplicatePrimary(sid), _) => CaptureState::Restrict(sid),
            (CaptureState::Restrict(_), CaptureEvent::Failed(f)) => CaptureState::Revert(
                Err(with_context("CreateRestrictedToken(DISABLE_MAX_PRIVILEGE)", &f)),
            ),
            (CaptureState::Restrict(sid), _) => CaptureState::Revert(Ok(sid)),
            (CaptureState::Revert(_), CaptureEvent::Failed(f)) => CaptureState::Finished(
                Err(with_context("RevertToSelf", &f)),
            ),
            (CaptureState::Revert(r), _) => CaptureState::Finished(r),
            (s, _) => s,
        }
    }
}

/// Where the course `events` of finding out who a caller is leads.
pub open spec fn capture_after(events: Seq<CaptureEvent>) -> CaptureModel
    decreases events.len(),
{
    if events.len() == 0 {
        CaptureModel::Impersonate
    } else {
        capture_next(capture_after(events.drop_last()), events.last())
    }
}

/// A possible course: each event can follow the step before it.
pub open spec fn capture_course(events: Seq<CaptureEvent>) -> bool
    decreases events.len(),
{
    events.len() == 0 || (capture_course(events.drop_last()) && capture_expects(
        capture_after(events.drop_last()),
        events.last(),
    ))
}

/// Whoever acts as a caller acts as itself again before it is done: the course ends
/// with that step, or never began to act as the caller.
pub proof fn law_impersonation_is_reverted(events: Seq<CaptureEvent>)
    requires
        capture_course(events),
        capture_after(events) is Finished,
    ensures
        events.len() > 0,
        capture_after(events.drop_last()) is Revert || (events.len() == 1 && events[0] is Failed),
{
    let init = events.drop_last();
    if !(capture_after(init) is Revert) {
        assert(capture_after(init) is Impersonate);
        lemma_only_the_first_impersonates(init);
    }
}

proof fn lemma_only_the_first_impersonates(events: Seq<CaptureEvent>)
    requires
        capture_course(events),
        capture_after(events) is Impersonate,
    ensures
        events.len() == 0,
{
}

/// The account of a caller is reported only where it could be acted as, and where a
/// token without privileges was made for it.
pub proof fn law_identities_are_restricted(events: Seq<CaptureEvent>, sid: Seq<char>)
    requires
        capture_course(events),
        capture_after(events) == CaptureModel::Finished(Ok(sid)),
    ensures
        events.len() >= 2,
        capture_after(events.drop_last().drop_last()) == CaptureModel::Restrict(sid),
        events.drop_last().last() is Done,
{
    let init = events.drop_last();
    assert(capture_after(init) == CaptureModel::Revert(Ok(sid)));
    assert(init.len() > 0);
    assert(capture_course(init));
    assert(capture_after(init) == capture_next(capture_after(init.drop_last()), init.last()));
}

/// What is known of the caller of a pipe.
pub enum PipeCaller {
    Unknown,
    /// Its account.
    Known(String),
    Failed(Failure),
}

/// A pipe whose caller is found out with the first bytes that it sends.
pub struct PipeGate {
    pub open: bool,
    pub caller: PipeCaller,
}

/// What is known of a caller, without strings.
pub enum CallerModel {
    Unknown,
    Known(Seq<char>),
    Failed((FailureKind, Seq<char>)),
}

/// A gate without strings.
pub struct GateModel {
    pub open: bool,
    pub caller: CallerModel,
}

impl View for PipeGate {
    type V = GateModel;

    open spec fn view(&self) -> GateModel {
        GateModel {
            open: self.open,
            caller: match self.caller {
                PipeCaller::Unknown => CallerModel::Unknown,
                PipeCaller::Known(s) => CallerModel::Known(s@),
                PipeCaller::Failed(f) => CallerModel::Failed(f@),
            },
        }
    }
}

/// What to do about a read.
pub enum ReadStep {
    /// Read from the pipe.
    Read,
    /// Hand out what was read.
    Deliver,
    /// Find out who the caller is, before anything is handed out.
    Capture,
    /// Hand out nothing, and fail.
    Fail(Failure),
}

/// A step without strings.
pub enum StepModel {
    Read,
    Deliver,
    Capture,
    Fail((FailureKind, Seq<char>)),
}

impl View for ReadStep {
    type V = StepModel;

    open spec fn view(&self) -> StepModel {
        match *self {
            ReadStep::Read => StepModel::Read,
            ReadStep::Deliver => StepModel::Deliver,
            ReadStep::Capture => StepModel::Capture,
            ReadStep::Fail(f) => StepModel::Fail(f@),
        }
    }
}

pub open spec fn closed_failure() -> (FailureKind, Seq<char>) {
    (FailureKind::BrokenPipe, "authenticated pipe is closed"@)
}

/// How a read begins. A caller that could not be identified is cut off.
pub open spec fn read_begun(g: GateModel) -> (GateModel, StepModel) {
    match g.caller {
        CallerModel::Failed(f) => (GateModel { open: false, ..g }, StepModel::Fail(f)),
        _ => (
            g,
            if g.open {
                StepModel::Read
            } else {
                StepModel::Fail(closed_failure())
            },
        ),
    }
}

/// What follows once `count` bytes were read: the first that come have their caller
/// found out.
pub open spec fn bytes_read(g: GateModel, count: nat) -> StepModel {
    if count > 0 && g.caller is Unknown {
        StepModel::Capture
    } else {
        StepModel::Deliver
    }
}

/// What follows once it was found out who the caller is, or was not.
pub open spec fn caller_captured(
    g: GateModel,
    result: Result<Seq<char>, (FailureKind, Seq<char>)>,
) -> (GateModel, StepModel) {
    match result {
        Ok(sid) => (GateModel { caller: CallerModel::Known(sid), ..g }, StepModel::Deliver),
        Err(f) => (GateModel { open: false, caller: CallerModel::Failed(f) }, StepModel::Fail(f)),
    }
}

fn closed_error() -> (r: Failure)
    ensures
        r@ == closed_failure(),
{
    Failure::new(FailureKind::BrokenPipe, "authenticated pipe is closed")
}

fn copy_failure(f: &Failure) -> (r: Failure)
    ensures
        r@ == f@,
{
    Failure { kind: f.kind, message: f.message.clone() }
}

impl PipeGate {
    pub fn new() -> (r: PipeGate)
        ensures
            r@ == (GateModel { open: true, caller: CallerModel::Unknown }),
    {
        PipeGate { open: true, caller: PipeCaller::Unknown }
    }

    /// Begins a read.
    pub fn begin_read(&mut self) -> (r: ReadStep)
        ensures
            (final(self)@, r@) == read_begun(old(self)@),
    {
        if let PipeCaller::Failed(f) = &self.caller {
            let g = copy_failure(f);
            self.open = false;
            return ReadStep::Fail(g);
        }
        if self.open {
            ReadStep::Read
        } else {
            ReadStep::Fail(closed_error())
        }
    }

    /// What is done once `count` bytes were read.
    pub fn poll_read(&self, count: usize) -> (r: ReadStep)
        ensures
            r@ == bytes_read(self@, count as nat),
    {
        if count > 0 {
            if let PipeCaller::Unknown = &self.caller {
                return ReadStep::Capture;
            }
        }
        ReadStep::Deliver
    }

    /// What is done once it was found out who the caller is, or was not.
    pub fn captured(&mut self, result: Result<String, Failure>) -> (r: ReadStep)
        ensures
            (final(self)@, r@) == caller_captured(old(self)@, sid_view(result)),
    {
        match result {
            Ok(sid) => {
                self.caller = PipeCaller::Known(sid);
                ReadStep::Deliver
            },
            Err(f) => {
                let g = copy_failure(&f);
                self.open = false;
                self.caller = PipeCaller::Failed(f);
                ReadStep::Fail(g)
            },
        }
    }

    /// What is done about a write, a flush or the end of writing.
    pub fn poll_write(&self) -> (r: Result<(), Failure>)
        ensures
            match r {
                Ok(_) => self@.open,
                Err(f) => !self@.open && f@ == closed_failure(),
            },
    {
        if self.open {
            Ok(())
        } else {
            Err(closed_error())
        }
    }
}

/// One read: how many bytes came, if it was read at all, and who the caller was found
/// to be, if that was asked.
pub struct PipeRead {
    pub count: nat,
    pub caller: Result<Seq<char>, (FailureKind, Seq<char>)>,
}

/// What a whole read does to a gate, and how it ends.
pub open spec fn whole_read(g: GateModel, read: PipeRead) -> (GateModel, StepModel) {
    let (begun, step) = read_begun(g);
    if step is Read {
        if bytes_read(begun, read.count) is Capture {
            caller_captured(begun, read.caller)
        } else {
            (begun, bytes_read(begun, read.count))
        }
    } else {
        (begun, step)
    }
}

/// A gate after a number of reads.
pub open spec fn gate_after(reads: Seq<PipeRead>) -> GateModel
    decreases reads.len(),
{
    if reads.len() == 0 {
        GateModel { open: true, caller: CallerModel::Unknown }
    } else {
        whole_read(gate_after(reads.drop_last()), reads.last()).0
    }
}

/// Nothing that a caller sends is handed out before it is known who it is.
pub proof fn law_unknown_callers_are_not_heard(reads: Seq<PipeRead>, read: PipeRead)
    requires
        read.count > 0,
        whole_read(gate_after(reads), read).1 is Deliver,
    ensures
        whole_read(gate_after(reads), read).0.caller is Known,
{
}

/// A caller that could not be identified is never heard or answered: from then on
/// every read fails, and the pipe stays closed.
pub proof fn law_unidentified_callers_stay_cut_off(
    reads: Seq<PipeRead>,
    more: Seq<PipeRead>,
    read: PipeRead,
)
    requires
        gate_after(reads).caller is Failed,
    ensures
        !gate_after(reads + more).open,
        gate_after(reads + more).caller == gate_after(reads).caller,
        whole_read(gate_after(reads + more), read).1 == StepModel::Fail(
            gate_after(reads).caller->Failed_0,
        ),
    decreases more.len(),
{
    if more.len() == 0 {
        assert(reads + more =~= reads);
        lemma_failed_is_closed(reads);
    } else {
        law_unidentified_callers_stay_cut_off(reads, more.drop_last(), read);
        assert((reads + more).drop_last() =~= reads + more.drop_last());
    }
}

proof fn lemma_failed_is_closed(reads: Seq<PipeRead>)
    requires
        gate_after(reads).caller is Failed,
    ensures
        !gate_after(reads).open,
    decreases reads.len(),
{
    if reads.len() > 0 && gate_after(reads.drop_last()).caller is Failed {
        lemma_failed_is_closed(reads.drop_last());
    }
}

/// Who a caller is does not change any more once it is known.
pub proof fn law_callers_stay_who_they_are(reads: Seq<PipeRead>, more: Seq<PipeRead>)
    requires
        gate_after(reads).caller is Known,
    ensures
        gate_after(reads + more).caller == gate_after(reads).caller,
    decreases more.len(),
{
    if more.len() == 0 {
        assert(reads + more =~= reads);
    } else {
        law_callers_stay_who_they_are(reads, more.drop_last());
        assert((reads + more).drop_last() =~= reads + more.drop_last());
    }
}

/// Whether the size of an answer about a token was told: the system says that the
/// answer does not fit, and how large it is.
pub fn size_was_told(succeeded: bool, required: u32, code: Option<i32>) -> (r: bool)
    ensures
        r == (!succeeded && required > 0 && code == Some(ERROR_INSUFFICIENT_BUFFER)),
{
    match code {
        Some(c) => !succeeded && required > 0 && c == ERROR_INSUFFICIENT_BUFFER,
        None => false,
    }
}

/// A process is taken for the service where it has a number, and both times the service ran
/// in it by itself, under the account of the system.
pub proof fn law_exact_services_are_attested(f: ServiceAttestationFacts)
    requires
        f.process_id != 0,
        f.status1_state is Running && f.status2_state is Running,
        f.status1_pid == Some(f.process_id) && f.status2_pid == Some(f.process_id),
        f.status1_type == 0x10 && f.config_type == 0x10 && f.status2_type == 0x10,
        f.account_name is Some && f.account_name->0@ == "LocalSystem"@,
    ensures
        attestation_problem(f) is None,
{
}

/// A process without a number is never taken for the service.
pub proof fn law_no_process_is_no_service(f: ServiceAttestationFacts)
    requires
        f.process_id == 0,
    ensures
        attestation_problem(f) is Some,
{
}

/// Only a process that may not be opened may be a service: the first step of the lookup was
/// denied.
pub proof fn law_denied_processes_may_be_services(e: ServerSidLookupError)
    ensures
        e.may_be_service() <==> e.stage == ServerSidLookupStage::OpenProcess && e.code == Some(
            5i32,
        ),
{
}

/// Where no step fails and the caller lets itself be acted as, its account is found out.
pub proof fn law_callers_are_found_out(level: i32, sid: String)
    requires
        level >= 2,
    ensures
        ({
            let events = seq![
                CaptureEvent::Done,
                CaptureEvent::Done,
                CaptureEvent::Level(level),
                CaptureEvent::Sid(sid),
                CaptureEvent::Done,
                CaptureEvent::Done,
                CaptureEvent::Done,
            ];
            &&& capture_course(events)
            &&& capture_after(events) == CaptureModel::Finished(Ok(sid@))
        }),
{
    let events = seq![
        CaptureEvent::Done,
        CaptureEvent::Done,
        CaptureEvent::Level(level),
        CaptureEvent::Sid(sid),
        CaptureEvent::Done,
        CaptureEvent::Done,
        CaptureEvent::Done,
    ];
    assert forall|n: int| 0 < n <= events.len() implies {
        &&& #[trigger] capture_after(events.take(n)) == capture_next(
            capture_after(events.take(n - 1)),
            events[n - 1],
        )
        &&& capture_course(events.take(n)) == (capture_course(events.take(n - 1))
            && capture_expects(capture_after(events.take(n - 1)), events[n - 1]))
    } by {
        assert(events.take(n).drop_last() =~= events.take(n - 1));
    }
    assert(capture_after(events.take(0)) is Impersonate);
    assert(capture_after(events.take(1)) is OpenThreadToken);
    assert(capture_after(events.take(2)) is QueryLevel);
    assert(capture_after(events.take(3)) is ReadSid);
    assert(capture_after(events.take(4)) == CaptureModel::DuplicatePrimary(sid@));
    assert(capture_after(events.take(5)) == CaptureModel::Restrict(sid@));
    assert(capture_after(events.take(6)) == CaptureModel::Revert(Ok(sid@)));
    assert(capture_after(events.take(7)) == CaptureModel::Finished(Ok(sid@)));
    assert(events.take(7) =~= events);
}

/// A caller that does not let itself be acted as is refused, and so is one at which any step
/// fails, with the kind of that failure.
pub proof fn law_doubtful_callers_are_refused(s: CaptureModel, level: i32, f: Failure)
    ensures
        level < 2 ==> {
            let n = capture_next(CaptureModel::QueryLevel, CaptureEvent::Level(level));
            &&& n matches CaptureModel::Revert(r)
            &&& r matches Err(p)
            &&& p.0 == FailureKind::PermissionDenied
        },
        !(s is Finished) ==> {
            let n = capture_next(s, CaptureEvent::Failed(f));
            ||| (n matches CaptureModel::Revert(r) && r is Err && r->Err_0.0 == f.kind)
            ||| (n matches CaptureModel::Finished(r) && r is Err && r->Err_0.0 == f.kind)
        },
        capture_next(CaptureModel::Revert(Err(f@)), CaptureEvent::Done) == CaptureModel::Finished(
            Err(f@),
        ),
{
}

/// A caller that is known is heard, as long as the pipe is open; one that sends its first
/// bytes is heard once it is known. Where nothing comes nobody is asked for.
pub proof fn law_known_callers_are_heard(g: GateModel, read: PipeRead, sid: Seq<char>)
    requires
        g.open,
    ensures
        g.caller is Known ==> whole_read(g, read) == (g, StepModel::Deliver),
        g.caller is Unknown && read.count == 0 ==> whole_read(g, read) == (g, StepModel::Deliver),
        g.caller is Unknown && read.count > 0 && read.caller == Ok::<
            Seq<char>,
            (FailureKind, Seq<char>),
        >(sid) ==> whole_read(g, read) == (
            (GateModel { open: true, caller: CallerModel::Known(sid) }),
            StepModel::Deliver,
        ),
        g.caller is Unknown && read.count > 0 && read.caller is Err ==> {
            let (n, step) = whole_read(g, read);
            &&& !n.open
            &&& n.caller == CallerModel::Failed(read.caller->Err_0)
            &&& step == StepModel::Fail(read.caller->Err_0)
        },
{
}

} // verus!
