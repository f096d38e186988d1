//! How a submission is admitted, and what it is called.

use crate::command::Command;
use crate::fileserver::paths::{normalize_declared_output, opt_str, scoped_form};
use crate::fileserver::writeback::OutputSpec;
use crate::local_job::guardian::SubmissionPhase;
use crate::text::{decimal, decimal_of, hex, hex_char, hex_of, texts, trim, trimmed};
use vstd::prelude::*;

verus! {

/// What a launcher says of its action besides the command.
#[derive(Debug, Clone, PartialEq, Eq)]
pub struct SubmitOptions {
    /// The outputs to record; none to find them out.
    pub declared_outputs: Vec<String>,
    /// Whether its result is never to be cached.
    pub non_deterministic: bool,
    /// Whether a read that cannot be supplied fails.
    pub strict_vfs: bool,
    /// The root of its inputs; empty for the working directory.
    pub input_root: String,
}

impl Default for SubmitOptions {
    fn default() -> (r: SubmitOptions)
        ensures
            r.declared_outputs@.len() == 0,
            !r.non_deterministic,
            !r.strict_vfs,
            r.input_root@.len() == 0,
    {
        SubmitOptions {
            declared_outputs: Vec::new(),
            non_deterministic: false,
            strict_vfs: false,
            input_root: String::new(),
        }
    }
}

/// Whose commands the intake runs.
#[derive(Clone, Copy, Debug, PartialEq, Eq, Structural)]
pub enum IntakeAuthority {
    /// Those of the daemon's own account.
    TrustedCurrentProcess,
    /// Those of a caller that the transport has identified.
    AuthenticatedCaller,
}

impl IntakeAuthority {
    /// The authority of an intake that is reached through the named pipe, whatever it
    /// was before.
    pub fn hardened(self) -> (r: IntakeAuthority)
        ensures
            r is AuthenticatedCaller,
    {
        IntakeAuthority::AuthenticatedCaller
    }
}

/// What the transport knows of a caller.
pub enum CallerState {
    /// Nothing: it is no transport that identifies callers.
    Missing,
    /// Its identity could not be found out: what is told of it.
    Failed(String),
    /// Its identity was not found out yet.
    NotEstablished,
    Established,
}

/// Why a submission is not admitted.
#[derive(Clone, Copy, Debug, PartialEq, Eq, Structural)]
pub enum RefusalCode {
    Unauthenticated,
    InvalidArgument,
    Unavailable,
}

/// What is told of a submission that is not admitted.
#[derive(Debug, Clone, PartialEq, Eq)]
pub struct Refusal {
    pub code: RefusalCode,
    pub message: String,
}

impl View for Refusal {
    type V = (RefusalCode, Seq<char>);

    open spec fn view(&self) -> (RefusalCode, Seq<char>) {
        (self.code, self.message@)
    }
}

/// Why a submission is refused, if it is.
pub open spec fn refusal_of(
    authority: IntakeAuthority,
    caller: CallerState,
    argc: Option<nat>,
    open: bool,
) -> Option<(RefusalCode, Seq<char>)> {
    if authority is AuthenticatedCaller && caller is Missing {
        Some((RefusalCode::Unauthenticated, "caller identity is missing"@))
    } else if authority is AuthenticatedCaller && caller is Failed {
        Some(
            (
                RefusalCode::Unauthenticated,
                "caller authentication failed: "@ + caller->Failed_0@,
            ),
        )
    } else if authority is AuthenticatedCaller && caller is NotEstablished {
        Some((RefusalCode::Unauthenticated, "caller identity is not established"@))
    } else if argc is None {
        Some((RefusalCode::InvalidArgument, "SubmitActionRequest.command is required"@))
    } else if argc == Some(0nat) {
        Some((RefusalCode::InvalidArgument, "command.argv must be non-empty"@))
    } else if !open {
        Some((RefusalCode::Unavailable, "daemon is shutting down"@))
    } else {
        None
    }
}

/// The refusal of a daemon that takes no more submissions.
pub fn shutting_down() -> (r: Refusal)
    ensures
        r@ == (RefusalCode::Unavailable, "daemon is shutting down"@),
{
    Refusal { code: RefusalCode::Unavailable, message: "daemon is shutting down".to_owned() }
}

/// Decides whether a submission is admitted; `open` tells whether the daemon still
/// takes any.
pub fn submit_action(
    authority: IntakeAuthority,
    caller: &CallerState,
    command: &Option<Command>,
    open: bool,
) -> (r: Result<(), Refusal>)
    ensures
        match refusal_of(
            authority,
            *caller,
            match *command {
                Some(c) => Some(c.argv@.len()),
                None => None,
            },
            open,
        ) {
            None => r is Ok,
            Some(e) => r matches Err(f) && f@ == e,
        },
{
    if authority == IntakeAuthority::AuthenticatedCaller {
        match caller {
            CallerState::Missing => {
                return Err(
                    Refusal {
                        code: RefusalCode::Unauthenticated,
                        message: "caller identity is missing".to_owned(),
                    },
                );
            },
            CallerState::Failed(e) => {
                let mut message = "caller authentication failed: ".to_owned();
                message.append(e.as_str());
                return Err(Refusal { code: RefusalCode::Unauthenticated, message });
            },
            CallerState::NotEstablished => {
                return Err(
                    Refusal {
                        code: RefusalCode::Unauthenticated,
                        message: "caller identity is not established".to_owned(),
                    },
                );
            },
            CallerState::Established => {},
        }
    }
    match command {
        None => {
            return Err(
                Refusal {
                    code: RefusalCode::InvalidArgument,
                    message: "SubmitActionRequest.command is required".to_owned(),
                },
            );
        },
        Some(c) => {
            if c.argv.len() == 0 {
                return Err(
                    Refusal {
                        code: RefusalCode::InvalidArgument,
                        message: "command.argv must be non-empty".to_owned(),
                    },
                );
            }
        },
    }
    if !open {
        return Err(shutting_down());
    }
    Ok(())
}

/// A caller whose identity is not established is refused, whatever it asks for.
pub proof fn law_unidentified_callers_are_refused(
    caller: CallerState,
    argc: Option<nat>,
    open: bool,
)
    requires
        !(caller is Established),
    ensures
        refusal_of(IntakeAuthority::AuthenticatedCaller, caller, argc, open) matches Some(e) && e.0
            is Unauthenticated,
{
}

/// How many random bytes make a session identifier.
pub const SESSION_ID_BYTES: usize = 16;

/// `count` bytes of `getrandom::fill`, which come from the random source of the
/// system; `None` where it has none. Nothing is promised of their values.
#[verifier::external_body]
fn random_bytes(count: usize) -> (r: Option<Vec<u8>>)
    ensures
        r matches Some(b) ==> b@.len() == count,
{
    let mut buf = vec![0u8; count];
    match getrandom::fill(&mut buf) {
        Ok(()) => Some(buf),
        Err(_) => None,
    }
}

/// A new session identifier: sixteen random bytes in lower-case hexadecimal, `None`
/// where the system has no random source. Nothing is promised of the bytes but
/// their number: that no two identifiers are alike rests on chance. What the bytes
/// become is said by [`session_id_from`].
pub fn mint_session_id() -> (r: Option<String>)
    ensures
        r matches Some(id) ==> is_session_id(id@),
{
    session_id_from(random_bytes(SESSION_ID_BYTES))
}

/// The session identifier that the bytes `random` of the system make: one wherever
/// it gave any.
pub fn session_id_from(random: Option<Vec<u8>>) -> (r: Option<String>)
    ensures
        match random {
            Some(bytes) => r matches Some(id) && id@ == hex(bytes@),
            None => r is None,
        },
{
    match random {
        Some(bytes) => Some(session_id(bytes.as_slice())),
        None => None,
    }
}

/// Thirty-two lower-case hexadecimal digits.
pub open spec fn is_session_id(id: Seq<char>) -> bool {
    exists|b: Seq<u8>| b.len() == SESSION_ID_BYTES && id == #[trigger] hex(b)
}

/// The session identifier of these bytes.
pub fn session_id(bytes: &[u8]) -> (r: String)
    ensures
        r@ == hex(bytes@),
{
    hex_of(bytes)
}

proof fn lemma_hex_digits_differ(a: int, b: int)
    requires
        0 <= a < 16,
        0 <= b < 16,
        hex_char(a) == hex_char(b),
    ensures
        a == b,
{
}

/// Different bytes make different session identifiers.
pub proof fn law_session_ids_tell_bytes_apart(a: Seq<u8>, b: Seq<u8>)
    requires
        hex(a) == hex(b),
    ensures
        a == b,
{
    assert(a.len() == b.len()) by {
        assert(hex(a).len() == 2 * a.len());
        assert(hex(b).len() == 2 * b.len());
    }
    assert forall|i: int| 0 <= i < a.len() implies a[i] == b[i] by {
        let x = a[i] as int;
        let y = b[i] as int;
        assert(hex(a)[2 * i] == hex_char(x / 16));
        assert(hex(b)[2 * i] == hex_char(y / 16));
        assert(hex(a)[2 * i + 1] == hex_char(x % 16));
        assert(hex(b)[2 * i + 1] == hex_char(y % 16));
        lemma_hex_digits_differ(x / 16, y / 16);
        lemma_hex_digits_differ(x % 16, y % 16);
    }
    assert(a =~= b);
}

/// What an action is called within the daemon.
pub fn action_id(n: u64) -> (r: String)
    ensures
        r@ == "intake-"@ + decimal(n as nat),
{
    let mut s = "intake-".to_owned();
    s.append(decimal_of(n).as_str());
    s
}

/// The outputs that a session may write: those of the declared ones that lie within
/// the root, in their normal form and order.
pub open spec fn writable(declared: Seq<Seq<char>>, root: Option<Seq<char>>) -> Seq<Seq<char>>
    decreases declared.len(),
{
    if declared.len() == 0 {
        Seq::empty()
    } else {
        let before = writable(declared.drop_last(), root);
        match scoped_form(declared.last(), root) {
            Some(p) => before.push(p),
            None => before,
        }
    }
}

/// The outputs that a session may write, numbered from zero.
pub fn declared_output_specs(
    declared_outputs: &Vec<String>,
    root: Option<&str>,
    max_size: u64,
) -> (r: Vec<OutputSpec>)
    ensures
        r@.len() == writable(texts(declared_outputs@), opt_str(root)).len(),
        forall|i: int|
            0 <= i < r@.len() ==> {
                &&& (#[trigger] r@[i]).id == i as u32
                &&& r@[i].final_path@ == writable(texts(declared_outputs@), opt_str(root))[i]
                &&& r@[i].max_size == max_size
            },
{
    let ghost all = texts(declared_outputs@);
    let mut specs: Vec<OutputSpec> = Vec::new();
    let mut i: usize = 0;
    assert(all.take(0) =~= Seq::<Seq<char>>::empty());
    while i < declared_outputs.len()
        invariant
            i <= declared_outputs@.len(),
            all == texts(declared_outputs@),
            specs@.len() == writable(all.take(i as int), opt_str(root)).len(),
            forall|j: int|
                0 <= j < specs@.len() ==> {
                    &&& (#[trigger] specs@[j]).id == j as u32
                    &&& specs@[j].final_path@ == writable(all.take(i as int), opt_str(root))[j]
                    &&& specs@[j].max_size == max_size
                },
        decreases declared_outputs@.len() - i,
    {
        assert(all.take(i + 1).drop_last() =~= all.take(i as int));
        assert(all.take(i + 1).last() == declared_outputs@[i as int]@);
        if let Some(path) = normalize_declared_output(declared_outputs[i].as_str(), root) {
            let id: u32 = specs.len() as u32;
            specs.push(OutputSpec { id, final_path: path, max_size });
        }
        i = i + 1;
    }
    assert(all.take(i as int) =~= all);
    specs
}

/// The declared root of an action without the white space around it, which is still
/// to be brought into its normal form; `None` for the working directory.
pub fn declared_root(input_root: &str) -> (r: Option<String>)
    ensures
        match r {
            Some(s) => s@ == trim(input_root@) && s@.len() > 0,
            None => trim(input_root@).len() == 0,
        },
{
    let t = trimmed(input_root);
    if t.as_str().is_empty() {
        None
    } else {
        Some(t)
    }
}

/// The root below which a worker fetches the files of an action.
pub fn vfs_root(input_root: &str, cwd: &str) -> (r: String)
    ensures
        r@ == if input_root@.len() == 0 {
            cwd@
        } else {
            input_root@
        },
{
    if input_root.is_empty() {
        cwd.to_owned()
    } else {
        input_root.to_owned()
    }
}

/// What to do about the end of the answer to a submission.
#[derive(Clone, Copy, Debug, PartialEq, Eq, Structural)]
pub enum EofStep {
    /// The answer may end.
    Release,
    /// It never ends.
    Hold,
    /// Wait for the phase to change.
    Wait,
}

/// Whether the answer to a submission may end: only when no process of it can be
/// left, so that it can be made again.
pub open spec fn eof_step(phase: SubmissionPhase) -> EofStep {
    match phase {
        SubmissionPhase::Idle => EofStep::Release,
        SubmissionPhase::NaturalReaped => EofStep::Release,
        SubmissionPhase::RetrySafeReaped => EofStep::Release,
        SubmissionPhase::ForcedReaped => EofStep::Release,
        SubmissionPhase::AbortedNoChild => EofStep::Release,
        SubmissionPhase::ForceFailed => EofStep::Hold,
        SubmissionPhase::SettingUp => EofStep::Wait,
        SubmissionPhase::Active => EofStep::Wait,
        SubmissionPhase::Terminating => EofStep::Wait,
    }
}

/// Decides about the end of the answer to a submission.
pub fn wait_for_safe_submission_terminal(phase: SubmissionPhase) -> (r: EofStep)
    ensures
        r == eof_step(phase),
{
    match phase {
        SubmissionPhase::Idle => EofStep::Release,
        SubmissionPhase::NaturalReaped => EofStep::Release,
        SubmissionPhase::RetrySafeReaped => EofStep::Release,
        SubmissionPhase::ForcedReaped => EofStep::Release,
        SubmissionPhase::AbortedNoChild => EofStep::Release,
        SubmissionPhase::ForceFailed => EofStep::Hold,
        SubmissionPhase::SettingUp => EofStep::Wait,
        SubmissionPhase::Active => EofStep::Wait,
        SubmissionPhase::Terminating => EofStep::Wait,
    }
}

/// Whether a submission whose task has ended is to be marked as one without a
/// process: where the task failed before it had one.
pub fn marks_abort(task_failed: bool, phase: SubmissionPhase) -> (r: bool)
    ensures
        r == (task_failed && phase is Idle),
{
    task_failed && phase == SubmissionPhase::Idle
}

/// While a process of a submission can be left, the answer to it does not end.
pub proof fn law_answers_outlive_processes(phase: SubmissionPhase)
    requires
        phase is SettingUp || phase is Active || phase is Terminating || phase is ForceFailed,
    ensures
        !(eof_step(phase) is Release),
{
}

/// A submission is admitted exactly where its caller is known, as far as that is asked for,
/// it has a command with at least one argument, and the daemon still takes any; each
/// refusal tells which of these is wrong.
pub proof fn law_sound_submissions_are_admitted(
    authority: IntakeAuthority,
    caller: CallerState,
    argc: Option<nat>,
    open: bool,
)
    ensures
        ({
            let known = !(authority is AuthenticatedCaller) || caller is Established;
            let sound = argc is Some && argc->0 > 0;
            let r = refusal_of(authority, caller, argc, open);
            &&& r is None <==> known && sound && open
            &&& !known ==> r is Some && (r->0).0 == RefusalCode::Unauthenticated
            &&& known && !sound ==> r is Some && (r->0).0 == RefusalCode::InvalidArgument
            &&& known && sound && !open ==> r is Some && (r->0).0 == RefusalCode::Unavailable
        }),
{
}

/// A session identifier is thirty-two digits, each from 0 to 9 or from a to f.
pub proof fn law_session_ids_are_hexadecimal(id: Seq<char>)
    requires
        is_session_id(id),
    ensures
        id.len() == 32,
        forall|i: int|
            0 <= i < id.len() ==> ('0' <= #[trigger] id[i] && id[i] <= '9') || ('a' <= id[i] && id[i]
                <= 'f'),
{
    let b = choose|b: Seq<u8>| b.len() == SESSION_ID_BYTES && id == #[trigger] hex(b);
    assert forall|i: int| 0 <= i < id.len() implies ('0' <= #[trigger] id[i] && id[i] <= '9') || (
    'a' <= id[i] && id[i] <= 'f') by {
        let x = b[i / 2] as int;
        assert(id[i] == hex_char(x / 16) || id[i] == hex_char(x % 16));
    }
}

/// The outputs that a session may write are those of the declared ones that have a form
/// below the root, one for each, in their order.
pub proof fn law_declared_outputs_may_be_written(
    declared: Seq<Seq<char>>,
    more: Seq<char>,
    root: Option<Seq<char>>,
)
    ensures
        writable(Seq::empty(), root).len() == 0,
        scoped_form(more, root) matches Some(p) ==> writable(declared.push(more), root)
            == writable(declared, root).push(p),
        scoped_form(more, root) is None ==> writable(declared.push(more), root) == writable(
            declared,
            root,
        ),
{
    assert(declared.push(more).drop_last() =~= declared);
}

/// The answer to a submission may end exactly where no process of it can be left: there was
/// none, it ended, or it was stopped. Where stopping failed it never ends, and until then it
/// waits.
pub proof fn law_answers_end_once_no_process_is_left(phase: SubmissionPhase)
    ensures
        eof_step(phase) is Release <==> phase == SubmissionPhase::Idle || phase
            == SubmissionPhase::NaturalReaped || phase == SubmissionPhase::RetrySafeReaped || phase
            == SubmissionPhase::ForcedReaped || phase == SubmissionPhase::AbortedNoChild,
        eof_step(phase) is Hold <==> phase == SubmissionPhase::ForceFailed,
{
}

} // verus!
