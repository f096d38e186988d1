use sembazuru_agent::failure::{Failure, FailureKind};
use sembazuru_agent::intake::pipe::{
    after_attestation, allowed_server_sids, check_server_sid, route_server_sid, server_sddl,
    size_was_told, validate_service_attestation, CaptureEvent, CaptureState, PipeCaller, PipeGate,
    ReadStep, ServerSidLookupError, ServerSidLookupStage, ServiceAttestationFacts, ServiceState,
    SidRoute, AUTHENTICATED_USERS_ACCESS_MASK, LOCAL_SYSTEM_SID, OWN_PROCESS, PIPE_NAME,
    PROTECTED_SDDL, SERVER_INSTANCE_ACCESS_MASK,
};
use sembazuru_agent::intake::transport::PIPE_ENDPOINT;

const SHARE_PROCESS: u32 = 0x20;
const INTERACTIVE_PROCESS: u32 = 0x100;

fn lookup_failure(
    stage: ServerSidLookupStage,
    code: Option<i32>,
    message: &str,
) -> ServerSidLookupError {
    ServerSidLookupError {
        stage,
        process_id: 7264,
        code,
        error: Failure::new(FailureKind::PermissionDenied, message),
    }
}

#[test]
fn scm_routing_is_only_for_open_process_raw_access_denied() {
    assert!(matches!(
        route_server_sid(Ok("direct-sid".into())),
        SidRoute::Sid(sid) if sid == "direct-sid"
    ));

    let denied = || {
        lookup_failure(
            ServerSidLookupStage::OpenProcess,
            Some(5),
            "Access is denied. (os error 5)",
        )
    };
    let direct = match route_server_sid(Err(denied())) {
        SidRoute::Attest(direct) => direct,
        _ => panic!("the service manager was not asked"),
    };
    assert_eq!(direct.process_id, 7264);
    assert_eq!(after_attestation(&direct, Ok(())), Ok(LOCAL_SYSTEM_SID.to_string()));
    let error = after_attestation(
        &direct,
        Err(Failure::new(FailureKind::Other, "SCM query sentinel")),
    )
    .unwrap_err();
    assert_eq!(error.kind, FailureKind::PermissionDenied);
    assert!(error.message.contains("OpenProcess(7264)"));
    assert!(error.message.contains("os error 5"));
    assert!(error.message.contains("SCM query sentinel"));
    for (stage, code) in [
        (ServerSidLookupStage::OpenProcess, None),
        (ServerSidLookupStage::OpenProcessToken, Some(5)),
        (ServerSidLookupStage::TokenUser, Some(5)),
        (ServerSidLookupStage::OpenProcess, Some(87)),
    ] {
        assert!(matches!(
            route_server_sid(Err(lookup_failure(stage, code, "no"))),
            SidRoute::Fail(_)
        ));
    }
}

#[test]
fn failed_lookups_are_told_with_their_stage() {
    match route_server_sid(Err(lookup_failure(
        ServerSidLookupStage::TokenUser,
        Some(5),
        "denied",
    ))) {
        SidRoute::Fail(f) => assert_eq!(f.message, "TokenUser(7264): denied"),
        _ => panic!("not failed"),
    }
}

fn valid_attestation(pid: u32) -> ServiceAttestationFacts {
    ServiceAttestationFacts {
        process_id: pid,
        status1_state: ServiceState::Running,
        status1_pid: Some(pid),
        status1_type: OWN_PROCESS,
        config_type: OWN_PROCESS,
        account_name: Some("LocalSystem".into()),
        status2_state: ServiceState::Running,
        status2_pid: Some(pid),
        status2_type: OWN_PROCESS,
    }
}

#[test]
fn system_service_attestation_requires_exact_stable_facts() {
    let pid = 7264;
    assert!(validate_service_attestation(&valid_attestation(pid)).is_ok());

    let mut invalid = valid_attestation(pid);
    invalid.status1_type = SHARE_PROCESS;
    assert!(validate_service_attestation(&invalid).is_err());
    invalid = valid_attestation(pid);
    invalid.status2_type = OWN_PROCESS | INTERACTIVE_PROCESS;
    assert!(validate_service_attestation(&invalid).is_err());
    invalid = valid_attestation(pid);
    invalid.config_type = SHARE_PROCESS;
    assert!(validate_service_attestation(&invalid).is_err());

    for state in [ServiceState::StartPending, ServiceState::Stopped] {
        invalid = valid_attestation(pid);
        invalid.status1_state = state;
        assert!(validate_service_attestation(&invalid).is_err());
        invalid = valid_attestation(pid);
        invalid.status2_state = state;
        assert!(validate_service_attestation(&invalid).is_err());
    }
    for bad_pid in [None, Some(0), Some(pid + 1)] {
        invalid = valid_attestation(pid);
        invalid.status1_pid = bad_pid;
        assert!(validate_service_attestation(&invalid).is_err());
        invalid = valid_attestation(pid);
        invalid.status2_pid = bad_pid;
        assert!(validate_service_attestation(&invalid).is_err());
    }
    for account in [
        None,
        Some(""),
        Some("localsystem"),
        Some("NT AUTHORITY\\SYSTEM"),
        Some("NT AUTHORITY\\NetworkService"),
        Some("NT SERVICE\\SembazuruDaemon"),
    ] {
        invalid = valid_attestation(pid);
        invalid.account_name = account.map(|a| a.to_string());
        assert!(validate_service_attestation(&invalid).is_err());
    }
}

#[test]
fn attestations_fail_for_a_reason() {
    let told = |facts: ServiceAttestationFacts| {
        let f = validate_service_attestation(&facts).unwrap_err();
        assert_eq!(f.kind, FailureKind::PermissionDenied);
        f.message
    };
    assert_eq!(told(valid_attestation(0)), "pipe server PID is zero");
    assert_eq!(
        told(ServiceAttestationFacts {
            status2_state: ServiceState::Paused,
            ..valid_attestation(1)
        }),
        "service was not Running in both status queries"
    );
    assert_eq!(
        told(ServiceAttestationFacts { status1_pid: None, ..valid_attestation(1) }),
        "service PID did not stably match the pipe server PID"
    );
    assert_eq!(
        told(ServiceAttestationFacts { config_type: SHARE_PROCESS, ..valid_attestation(1) }),
        "service type was not exactly OWN_PROCESS in all queries"
    );
    assert_eq!(
        told(ServiceAttestationFacts { account_name: None, ..valid_attestation(1) }),
        "service account was not exactly LocalSystem"
    );
}

#[test]
fn the_pipe_is_protected() {
    assert_eq!(PIPE_NAME, r"\\.\pipe\Sembazuru.LocalIntake.v1");
    assert_eq!(PIPE_ENDPOINT, "npipe://Sembazuru.LocalIntake.v1");
    assert_eq!(PROTECTED_SDDL, "D:P(A;;GA;;;SY)(A;;GA;;;BA)(A;;0x00120083;;;AU)");
    assert!(PROTECTED_SDDL.contains(&format!("0x{AUTHENTICATED_USERS_ACCESS_MASK:08x};;;AU")));
    assert_eq!(
        server_sddl("S-1-5-21-7"),
        format!("{PROTECTED_SDDL}(A;;0x{SERVER_INSTANCE_ACCESS_MASK:08x};;;S-1-5-21-7)")
    );
    assert_eq!(AUTHENTICATED_USERS_ACCESS_MASK & 4, 0, "users may not make instances");
    assert_eq!(SERVER_INSTANCE_ACCESS_MASK & 4, 4);
}

#[test]
fn only_trusted_servers_are_talked_to() {
    let allowed = allowed_server_sids("S-1-5-21-7");
    assert_eq!(allowed, vec![LOCAL_SYSTEM_SID.to_string(), "S-1-5-21-7".to_string()]);
    assert_eq!(check_server_sid("S-1-5-18", &allowed), Ok(()));
    assert_eq!(check_server_sid("S-1-5-21-7", &allowed), Ok(()));
    let other = check_server_sid("S-1-5-21-8", &allowed).unwrap_err();
    assert_eq!(other.kind, FailureKind::PermissionDenied);
    assert_eq!(other.message, "named-pipe server SID S-1-5-21-8 is not trusted");
}

fn denied() -> Failure {
    Failure::new(FailureKind::PermissionDenied, "denied")
}

#[test]
fn callers_are_captured_step_by_step() {
    let mut s = CaptureState::Impersonate;
    s = s.capture_caller(CaptureEvent::Done);
    assert!(matches!(s, CaptureState::OpenThreadToken));
    s = s.capture_caller(CaptureEvent::Done);
    assert!(matches!(s, CaptureState::QueryLevel));
    s = s.capture_caller(CaptureEvent::Level(2));
    assert!(matches!(s, CaptureState::ReadSid));
    s = s.capture_caller(CaptureEvent::Sid("S-1".into()));
    assert!(matches!(s, CaptureState::DuplicatePrimary(_)));
    s = s.capture_caller(CaptureEvent::Done);
    assert!(matches!(s, CaptureState::Restrict(_)));
    s = s.capture_caller(CaptureEvent::Done);
    assert!(matches!(s, CaptureState::Revert(Ok(_))));
    s = s.capture_caller(CaptureEvent::Done);
    assert!(matches!(&s, CaptureState::Finished(Ok(sid)) if sid == "S-1"));
}

#[test]
fn failed_captures_revert_first() {
    assert!(matches!(
        CaptureState::Impersonate.capture_caller(CaptureEvent::Failed(denied())),
        CaptureState::Finished(Err(f)) if f.message == "ImpersonateNamedPipeClient: denied"
    ));
    let weak = CaptureState::QueryLevel.capture_caller(CaptureEvent::Level(1));
    let told = match &weak {
        CaptureState::Revert(Err(f)) => f.message.clone(),
        _ => panic!("a weak token was accepted"),
    };
    assert_eq!(told, "caller token impersonation level 1 is below SecurityImpersonation");
    assert!(matches!(
        weak.capture_caller(CaptureEvent::Done),
        CaptureState::Finished(Err(f)) if f.message == told
    ));
    assert!(matches!(
        CaptureState::Revert(Ok("S-1".into())).capture_caller(CaptureEvent::Failed(denied())),
        CaptureState::Finished(Err(f)) if f.message == "RevertToSelf: denied"
    ));
    assert!(matches!(
        CaptureState::Restrict("S-1".into()).capture_caller(CaptureEvent::Failed(denied())),
        CaptureState::Revert(Err(f))
            if f.message == "CreateRestrictedToken(DISABLE_MAX_PRIVILEGE): denied"
    ));
    assert!(matches!(
        CaptureState::DuplicatePrimary("S-1".into()).capture_caller(CaptureEvent::Failed(denied())),
        CaptureState::Revert(Err(f)) if f.message == "DuplicateTokenEx(TokenPrimary): denied"
    ));
    assert!(matches!(
        CaptureState::OpenThreadToken.capture_caller(CaptureEvent::Failed(denied())),
        CaptureState::Revert(Err(f)) if f.message == "OpenThreadToken: denied"
    ));
    assert!(matches!(
        CaptureState::ReadSid.capture_caller(CaptureEvent::Failed(denied())),
        CaptureState::Revert(Err(f)) if f.message == "denied"
    ));
}

#[test]
fn caller_identity_is_captured_only_after_first_authenticated_read() {
    let mut gate = PipeGate::new();
    assert!(matches!(gate.begin_read(), ReadStep::Read));
    assert!(matches!(gate.poll_read(0), ReadStep::Deliver));
    assert!(matches!(gate.caller, PipeCaller::Unknown));
    assert!(matches!(gate.begin_read(), ReadStep::Read));
    assert!(matches!(gate.poll_read(24), ReadStep::Capture));
    assert!(matches!(gate.captured(Ok("S-1".into())), ReadStep::Deliver));
    assert!(matches!(&gate.caller, PipeCaller::Known(sid) if sid == "S-1"));
    assert!(matches!(gate.begin_read(), ReadStep::Read));
    assert!(matches!(gate.poll_read(24), ReadStep::Deliver));
    assert!(gate.poll_write().is_ok());
}

#[test]
fn identification_level_client_cannot_submit() {
    let mut gate = PipeGate::new();
    assert!(matches!(gate.begin_read(), ReadStep::Read));
    assert!(matches!(gate.poll_read(1), ReadStep::Capture));
    assert!(matches!(gate.captured(Err(denied())), ReadStep::Fail(f) if f == denied()));
    assert!(matches!(gate.begin_read(), ReadStep::Fail(f) if f == denied()));
    let closed = gate.poll_write().unwrap_err();
    assert_eq!(closed.kind, FailureKind::BrokenPipe);
    assert_eq!(closed.message, "authenticated pipe is closed");
}

#[test]
fn sizes_are_told_by_a_refusal() {
    assert!(size_was_told(false, 28, Some(122)));
    assert!(!size_was_told(true, 28, Some(122)));
    assert!(!size_was_told(false, 0, Some(122)));
    assert!(!size_was_told(false, 28, Some(5)));
    assert!(!size_was_told(false, 28, None));
}
