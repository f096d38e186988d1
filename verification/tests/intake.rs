use sembazuru_agent::action_tracker::{ActionTracker, ActivityState, ExecutionKind};
use sembazuru_agent::command::Command;
use sembazuru_agent::digest::digest_of;
use sembazuru_agent::execution::{ActionOutcome, Execution, LocalFallbackReason};
use sembazuru_agent::filepath::{PathStyle, RootPath};
use sembazuru_agent::fileserver::paths::normalize_root;
use sembazuru_agent::intake::admission::{
    action_id, declared_output_specs, declared_root, marks_abort, mint_session_id, session_id,
    session_id_from, shutting_down, submit_action, vfs_root, wait_for_safe_submission_terminal,
    CallerState, EofStep, IntakeAuthority, RefusalCode, SubmitOptions,
};
use sembazuru_agent::intake::answer::{
    emit_cached, emit_outcome, ConsoleWrite, SubmitEvent, SubmitReply,
};
use sembazuru_agent::intake::submission::{
    begin_fallback, end_fallback, exec_options, trace_dir, Submission, SubmissionEvent,
    SubmissionSetup, SubmissionStep,
};
use sembazuru_agent::intake::tools::{
    is_verified_tool, should_record_cache, worker_tool_matches, ToolchainIdentity,
};
use sembazuru_agent::intake::transport::{
    require_loopback, resolve_loopback_intake, EndpointChoice, IpAddress, LocalIntakeTransport,
    ResolvedAddress,
};
use sembazuru_agent::local_job::guardian::SubmissionPhase;

fn v4(a: u8, b: u8, c: u8, d: u8) -> IpAddress {
    IpAddress::V4(u32::from_be_bytes([a, b, c, d]))
}

fn resolved(ip: IpAddress, port: u16, text: &str) -> Result<Vec<ResolvedAddress>, String> {
    Ok(vec![ResolvedAddress { ip, port, text: text.to_string() }])
}

fn intake(addr: &str, ip: IpAddress, port: u16) -> Result<ResolvedAddress, String> {
    resolve_loopback_intake(addr, resolved(ip, port, addr))
}

#[test]
fn verified_tool_profile_matches_compilers_only() {
    assert!(is_verified_tool("cl", &None));
    assert!(is_verified_tool("clang-cl", &None));
    assert!(is_verified_tool("dxc", &None));
    assert!(is_verified_tool("C:\\Program Files\\LLVM\\bin\\clang-cl.exe", &None));
    assert!(is_verified_tool("CLANG++", &None), "case-insensitive");
    assert!(!is_verified_tool("python", &None), "arbitrary tool is not verified");
    assert!(!is_verified_tool("my-custom-codegen.exe", &None));
    assert!(!is_verified_tool("", &None));
}

#[test]
fn verified_tool_honors_operator_opt_in() {
    assert!(!is_verified_tool("my-codegen", &None));
    let listed = Some("my-codegen, other-tool".to_string());
    let opted = is_verified_tool("my-codegen", &listed)
        && is_verified_tool("C:\\x\\OTHER-TOOL.exe", &listed);
    assert!(opted, "SEMBAZURU_VERIFIED_TOOLS opts a tool into the cache profile");
    assert!(!is_verified_tool("my-codegen", &None), "removed → no longer verified");
}

#[test]
fn path_corpus_declared_output_specs_keep_short_alias_root_prefix() {
    let root =
        normalize_root("C:\\Users\\KINGKA~1\\AppData\\Local\\Temp\\sbz-dp-root").expect("root");
    let declared_outputs = vec![
        "C:\\Users\\KINGKA~1\\AppData\\Local\\Temp\\sbz-dp-root\\obj\\out.obj".to_string(),
        "C:\\Users\\KINGKA~1\\AppData\\Local\\Temp\\sbz-dp-root\\PROGRA~1\\tool.obj".to_string(),
    ];

    let specs = declared_output_specs(&declared_outputs, Some(&root), 1024);

    assert_eq!(specs.len(), 1);
    assert_eq!(
        specs[0].final_path,
        "c:\\users\\kingka~1\\appdata\\local\\temp\\sbz-dp-root\\obj\\out.obj"
    );
    assert_eq!(specs[0].id, 0);
    assert_eq!(specs[0].max_size, 1024);
}

#[test]
fn worker_tool_match_requires_reported_digest() {
    let expected = digest_of(b"agent-tool");
    assert!(worker_tool_matches(&expected, &expected));
    assert!(!worker_tool_matches(&digest_of(b"worker-tool"), &expected));
    assert!(!worker_tool_matches("", &expected));
    assert!(!worker_tool_matches("", ""));
}

fn named(digest: &str) -> ToolchainIdentity {
    ToolchainIdentity::NameOnly { digest: digest.to_string(), argv0: "cl".into() }
}

fn file(digest: &str) -> ToolchainIdentity {
    ToolchainIdentity::Content { digest: digest.to_string(), path: "C:/x/cl.exe".into() }
}

#[test]
fn verified_tool_unresolved_is_not_recorded() {
    let d = digest_of(b"toolchain-name:cl");
    assert!(!should_record_cache(true, &named(&d), &d));
}

#[test]
fn verified_tool_resolved_file_is_recorded() {
    let d = digest_of(b"real-cl-bytes");
    assert!(should_record_cache(true, &file(&d), &d));
}

#[test]
fn worker_nameonly_identity_skips_record() {
    let agent = digest_of(b"agent-content-tool");
    let worker = digest_of(b"toolchain-name:cl");
    assert!(!should_record_cache(true, &file(&agent), &worker));
}

#[test]
fn agent_worker_tool_identity_mismatch_skips_record() {
    let agent = digest_of(b"agent-content-tool");
    let worker = digest_of(b"worker-content-tool");
    assert!(!should_record_cache(true, &file(&agent), &worker));
}

#[test]
fn unverified_resolved_file_is_not_recorded() {
    let d = digest_of(b"real-cl-bytes");
    assert!(!should_record_cache(false, &file(&d), &d));
}

#[test]
fn session_id_is_unpredictable_128_bit_hex() {
    let a = mint_session_id().unwrap();
    let b = mint_session_id().unwrap();
    assert_eq!(a.len(), 32, "session id must be 32 hex chars (128 bits): {a:?}");
    assert!(
        a.chars().all(|c| c.is_ascii_hexdigit() && !c.is_ascii_uppercase()),
        "session id must be lowercase hex: {a:?}"
    );
    assert!(
        !a.starts_with("intake-"),
        "session id must not be the guessable counter form"
    );
    assert_ne!(a, b, "two minted session ids must differ (drawn from the CSPRNG)");
}

#[test]
fn identifiers_are_written_out() {
    assert_eq!(session_id(&[0x00, 0xab, 0xff]), "00abff");
    assert_eq!(session_id_from(Some(vec![0x01, 0xfe])), Some("01fe".to_string()));
    assert_eq!(session_id_from(None), None);
    assert_eq!(action_id(17), "intake-17");
}

#[test]
fn loopback_addresses_are_accepted() {
    assert!(intake("127.0.0.1:50071", v4(127, 0, 0, 1), 50071).is_ok());
    assert!(intake("127.0.0.1:0", v4(127, 0, 0, 1), 0).is_ok());
    assert!(intake("[::1]:50071", IpAddress::V6(1), 50071).is_ok());
}

#[test]
fn non_loopback_addresses_are_refused() {
    assert!(intake("0.0.0.0:50071", v4(0, 0, 0, 0), 50071).is_err());
    assert!(intake("[::]:50071", IpAddress::V6(0), 50071).is_err());
    assert!(intake("10.0.0.5:50071", v4(10, 0, 0, 5), 50071).is_err());
}

#[test]
fn refused_addresses_are_told() {
    assert_eq!(
        require_loopback("10.0.0.5:1", "Status", resolved(v4(10, 0, 0, 5), 1, "10.0.0.5:1")),
        Err("refusing to bind Status to non-loopback address 10.0.0.5:1: this plane is \
             loopback-only (same-machine access). Use a loopback address such as \
             127.0.0.1:<port>."
            .to_string())
    );
    assert_eq!(
        require_loopback("nope", "Status", Err("no port".into())),
        Err("invalid Status address \"nope\": no port".to_string())
    );
    assert_eq!(
        require_loopback("x:1", "Status", Ok(vec![])),
        Err("Status address \"x:1\" resolved to no socket address".to_string())
    );
    let mut both = resolved(v4(127, 0, 0, 1), 1, "127.0.0.1:1").unwrap();
    both.extend(resolved(v4(10, 0, 0, 5), 1, "10.0.0.5:1").unwrap());
    assert!(resolve_loopback_intake("name:1", Ok(both)).is_err());
}

#[test]
fn transport_from_endpoint_parses_loopback() {
    for endpoint in ["http://127.0.0.1:50071", "127.0.0.1:50071"] {
        let choice = LocalIntakeTransport::from_endpoint(endpoint, false)
            .expect("loopback endpoint should parse");
        let addr = match choice {
            EndpointChoice::Tcp(addr) => addr,
            EndpointChoice::NamedPipe => panic!("not an address"),
        };
        assert_eq!(addr, "127.0.0.1:50071");
        let transport = LocalIntakeTransport::loopback_tcp(
            &addr,
            resolved(v4(127, 0, 0, 1), 50071, &addr),
        )
        .expect("loopback endpoint should parse");
        match transport {
            LocalIntakeTransport::LoopbackTcp(found) => {
                assert_eq!(found.ip, v4(127, 0, 0, 1));
                assert_eq!(found.port, 50071);
            }
            LocalIntakeTransport::NamedPipe => panic!("not an address"),
        }
    }

    match LocalIntakeTransport::from_endpoint("http://10.0.0.5:50071", false) {
        Ok(EndpointChoice::Tcp(addr)) => assert!(LocalIntakeTransport::loopback_tcp(
            &addr,
            resolved(v4(10, 0, 0, 5), 50071, &addr)
        )
        .is_err()),
        _ => panic!("not an address"),
    }
    assert!(LocalIntakeTransport::loopback_tcp(
        "127.0.0.1:0",
        resolved(v4(127, 0, 0, 1), 0, "127.0.0.1:0")
    )
    .is_ok());
}

#[test]
fn windows_production_server_rejects_legacy_tcp_config() {
    let error = match LocalIntakeTransport::production_server("127.0.0.1:50071", true) {
        Err(error) => error,
        Ok(_) => panic!("Windows production must not retain a TCP LocalIntake escape hatch"),
    };
    assert!(error.contains("npipe://Sembazuru.LocalIntake.v1"));
    assert!(error.ends_with("endpoint \"127.0.0.1:50071\""));
    assert!(
        LocalIntakeTransport::production_server("npipe://Sembazuru.LocalIntake.v1", true).is_ok()
    );
}

#[test]
fn named_pipe_service_hardening_promotes_trusted_authority() {
    let authority = IntakeAuthority::TrustedCurrentProcess;
    assert!(matches!(authority.hardened(), IntakeAuthority::AuthenticatedCaller));
}

fn command(argv: &[&str]) -> Option<Command> {
    Some(Command {
        argv: argv.iter().map(|a| a.to_string()).collect(),
        env: vec![],
        cwd: String::new(),
    })
}

#[test]
fn missing_caller_identity_rejects_before_side_effects() {
    let error = submit_action(
        IntakeAuthority::AuthenticatedCaller,
        &CallerState::Missing,
        &command(&["cmd"]),
        true,
    )
    .expect_err("authenticated intake must reject a request without caller identity");
    assert_eq!(error.code, RefusalCode::Unauthenticated);
    assert_eq!(error.message, "caller identity is missing");
}

#[test]
fn submissions_are_refused_for_a_reason() {
    let ask = |caller: CallerState, cmd: Option<Command>, open: bool| {
        submit_action(IntakeAuthority::AuthenticatedCaller, &caller, &cmd, open)
    };
    assert_eq!(
        ask(CallerState::Failed("no token".into()), command(&["cl"]), true).unwrap_err().message,
        "caller authentication failed: no token"
    );
    assert_eq!(
        ask(CallerState::NotEstablished, command(&["cl"]), true).unwrap_err().message,
        "caller identity is not established"
    );
    let none = ask(CallerState::Established, None, true).unwrap_err();
    assert_eq!(none.code, RefusalCode::InvalidArgument);
    assert_eq!(none.message, "SubmitActionRequest.command is required");
    assert_eq!(
        ask(CallerState::Established, command(&[]), true).unwrap_err().message,
        "command.argv must be non-empty"
    );
    let late = ask(CallerState::Established, command(&["cl"]), false).unwrap_err();
    assert_eq!(late.code, RefusalCode::Unavailable);
    assert_eq!(late.message, "daemon is shutting down");
    assert_eq!(ask(CallerState::Established, command(&["cl"]), true), Ok(()));
    assert_eq!(
        submit_action(
            IntakeAuthority::TrustedCurrentProcess,
            &CallerState::Missing,
            &command(&["cl"]),
            true
        ),
        Ok(())
    );
}

#[test]
fn outer_eof_lease_waits_after_inner_ok_until_natural_reaped() {
    assert_eq!(wait_for_safe_submission_terminal(SubmissionPhase::SettingUp), EofStep::Wait);
    assert_eq!(
        wait_for_safe_submission_terminal(SubmissionPhase::Active),
        EofStep::Wait,
        "inner Ok released EOF while the local process was still Active"
    );
    assert_eq!(
        wait_for_safe_submission_terminal(SubmissionPhase::NaturalReaped),
        EofStep::Release
    );
}

#[test]
fn outer_eof_lease_never_releases_after_force_failed() {
    assert_eq!(
        wait_for_safe_submission_terminal(SubmissionPhase::ForceFailed),
        EofStep::Hold,
        "ForceFailed released EOF and allowed an unsafe retry"
    );
    assert!(marks_abort(true, SubmissionPhase::Idle));
    assert!(!marks_abort(true, SubmissionPhase::Active));
    assert!(!marks_abort(false, SubmissionPhase::Idle));
}

#[test]
fn roots_of_submissions() {
    assert_eq!(declared_root("  C:\\r "), Some("C:\\r".to_string()));
    assert_eq!(declared_root("  "), None);
    assert_eq!(vfs_root("", "c:\\w"), "c:\\w");
    assert_eq!(vfs_root("c:\\r", "c:\\w"), "c:\\r");
    let options = SubmitOptions::default();
    assert!(!options.non_deterministic && !options.strict_vfs);
    assert!(options.declared_outputs.is_empty() && options.input_root.is_empty());
}

fn remote(exit_code: Option<i32>) -> Execution {
    Execution::Remote(ActionOutcome {
        exit_code,
        wall_time_us: 5,
        resolved_tool_digest: "d".into(),
        stdout: b"out".to_vec(),
        ..ActionOutcome::default()
    })
}

fn local(exit_code: i32) -> Execution {
    Execution::LocalFallback { exit_code, reason: LocalFallbackReason::NoWorker }
}

#[test]
fn answers_tell_how_an_action_ran() {
    assert_eq!(
        emit_outcome(remote(Some(2))),
        vec![
            SubmitEvent::Stdio { is_stderr: false, data: b"out".to_vec() },
            SubmitEvent::Completed("remote".into()),
            SubmitEvent::Exit { exit_code: 2, wall_time_us: 5 },
        ]
    );
    assert_eq!(
        emit_outcome(local(7)),
        vec![
            SubmitEvent::Completed("local fallback: no live workers".into()),
            SubmitEvent::Exit { exit_code: 7, wall_time_us: 0 },
        ]
    );
    assert_eq!(
        emit_cached(0, vec![], b"warn".to_vec()),
        vec![
            SubmitEvent::Completed("cache hit".into()),
            SubmitEvent::Stdio { is_stderr: true, data: b"warn".to_vec() },
            SubmitEvent::Exit { exit_code: 0, wall_time_us: 0 },
        ]
    );
}

#[test]
fn launchers_exit_as_the_action_did() {
    for outcome in [remote(Some(3)), local(9)] {
        let code = match &outcome {
            Execution::Remote(o) => o.exit_code.unwrap(),
            Execution::LocalFallback { exit_code, .. } => *exit_code,
        };
        let mut reply = SubmitReply::new();
        let mut console = Vec::new();
        for event in emit_outcome(outcome) {
            if let Some(write) = reply.submit_with_transport(event) {
                console.push(write);
            }
        }
        let (heard, note) = reply.finish().unwrap();
        assert_eq!(heard, code);
        if code == 3 {
            assert_eq!(note, "remote");
            assert_eq!(console, vec![ConsoleWrite { is_stderr: false, data: b"out".to_vec() }]);
        } else {
            assert_eq!(note, "local fallback: no live workers");
            assert!(console.is_empty());
        }
    }
    assert_eq!(
        SubmitReply::new().finish(),
        Err("daemon closed the stream with no exit status".to_string())
    );
    let mut quiet = SubmitReply::new();
    assert_eq!(quiet.submit_with_transport(SubmitEvent::Other), None);
    quiet.submit_with_transport(SubmitEvent::Completed(String::new()));
    quiet.submit_with_transport(SubmitEvent::Exit { exit_code: 1, wall_time_us: 0 });
    assert_eq!(quiet.finish(), Ok((1, String::new())));
}

fn setup(has_vfs: bool, has_cache: bool) -> SubmissionSetup {
    SubmissionSetup { has_vfs, has_cache, non_deterministic: false, tool_verified: true }
}

#[test]
fn a_hit_ends_a_submission_without_a_run() {
    let mut s = Submission::new(setup(true, true));
    assert!(matches!(s.step, SubmissionStep::WeakKey));
    s.run_submission(SubmissionEvent::Keyed(file("d")));
    assert!(matches!(s.step, SubmissionStep::Resolve));
    s.run_submission(SubmissionEvent::Hit { exit_code: 0, stdout: vec![1], stderr: vec![] });
    assert!(matches!(
        &s.step,
        SubmissionStep::AnswerCached { exit_code: 0, stdout, .. } if *stdout == vec![1]
    ));
    s.run_submission(SubmissionEvent::Done);
    assert!(matches!(s.step, SubmissionStep::Finished));
}

fn missed(identity: ToolchainIdentity) -> Submission {
    let mut s = Submission::new(setup(true, true));
    s.run_submission(SubmissionEvent::Keyed(identity));
    s.run_submission(SubmissionEvent::Missed);
    assert!(matches!(s.step, SubmissionStep::CountMiss));
    s.run_submission(SubmissionEvent::Done);
    assert!(matches!(s.step, SubmissionStep::Predict));
    s.run_submission(SubmissionEvent::Done);
    assert!(matches!(s.step, SubmissionStep::CreateTrace));
    s.run_submission(SubmissionEvent::Done);
    assert!(matches!(s.step, SubmissionStep::CreateSession));
    s.run_submission(SubmissionEvent::Done);
    assert!(matches!(s.step, SubmissionStep::Dispatch));
    s
}

#[test]
fn a_miss_is_run_published_and_recorded() {
    let mut s = missed(file("d"));
    s.run_submission(SubmissionEvent::Ran(remote(Some(0))));
    assert!(matches!(s.step, SubmissionStep::FinishSession(_)));
    s.run_submission(SubmissionEvent::Done);
    assert!(matches!(s.step, SubmissionStep::PublishStaged(_)));
    s.run_submission(SubmissionEvent::Done);
    assert!(matches!(s.step, SubmissionStep::DiscardStaged(_)));
    s.run_submission(SubmissionEvent::Done);
    assert!(matches!(s.step, SubmissionStep::Record(_)));
    s.run_submission(SubmissionEvent::Done);
    assert!(matches!(s.step, SubmissionStep::RemoveTrace(_)));
    s.run_submission(SubmissionEvent::Done);
    assert!(matches!(s.step, SubmissionStep::Report(_)));
    s.run_submission(SubmissionEvent::Done);
    assert!(matches!(s.step, SubmissionStep::CheckPhase(_)));
    s.run_submission(SubmissionEvent::Phase(Some(SubmissionPhase::Idle)));
    assert!(matches!(&s.step, SubmissionStep::Answer(e) if *e == remote(Some(0))));
    s.run_submission(SubmissionEvent::Done);
    assert!(matches!(s.step, SubmissionStep::Finished));
}

#[test]
fn non_deterministic_actions_bypass_the_cache() {
    let mut s = Submission::new(SubmissionSetup { non_deterministic: true, ..setup(true, true) });
    assert!(matches!(s.step, SubmissionStep::CreateTrace));
    s.run_submission(SubmissionEvent::Done);
    s.run_submission(SubmissionEvent::Done);
    assert!(matches!(s.step, SubmissionStep::Dispatch));
    s.run_submission(SubmissionEvent::Ran(remote(Some(0))));
    s.run_submission(SubmissionEvent::Done);
    assert!(matches!(s.step, SubmissionStep::PublishStaged(_)));
    s.run_submission(SubmissionEvent::Done);
    s.run_submission(SubmissionEvent::Done);
    assert!(matches!(s.step, SubmissionStep::RemoveTrace(_)));
}

#[test]
fn a_daemon_that_shuts_down_says_so() {
    let refusal = shutting_down();
    assert_eq!(refusal.code, RefusalCode::Unavailable);
    assert_eq!(refusal.message, "daemon is shutting down");
}

#[test]
fn other_tools_are_not_recorded() {
    let after_publication = |identity| {
        let mut s = missed(identity);
        s.run_submission(SubmissionEvent::Ran(remote(Some(0))));
        s.run_submission(SubmissionEvent::Done);
        s.run_submission(SubmissionEvent::Done);
        s.run_submission(SubmissionEvent::Done);
        s
    };
    assert!(matches!(after_publication(file("other")).step, SubmissionStep::CountMismatch(_)));
    assert!(matches!(after_publication(named("d")).step, SubmissionStep::TellNameOnly(_)));
    let mut failed = missed(file("d"));
    failed.run_submission(SubmissionEvent::Ran(remote(Some(1))));
    failed.run_submission(SubmissionEvent::Done);
    assert!(matches!(failed.step, SubmissionStep::DiscardStaged(_)));
    failed.run_submission(SubmissionEvent::Done);
    assert!(matches!(failed.step, SubmissionStep::RemoveTrace(_)));
}

#[test]
fn path_corpus_publish_failure_runs_local_fallback() {
    let mut s = missed(file("d"));
    s.run_submission(SubmissionEvent::Ran(remote(Some(0))));
    s.run_submission(SubmissionEvent::Done);
    s.run_submission(SubmissionEvent::Failed("hardlink".into()));
    assert!(matches!(
        &s.step,
        SubmissionStep::RunLocal(d) if d == "remote writeback publish failed: hardlink"
    ));

    let mut tracker = ActionTracker::default();
    let remote = tracker
        .begin_attempt("publish-fallback", 0, "w1", ExecutionKind::Remote, "main.cpp")
        .unwrap();
    tracker.finish(&remote, ActivityState::Completed);
    let lease = begin_fallback(&mut tracker, "publish-fallback", 1, "main.cpp").unwrap();
    end_fallback(&mut tracker, lease, 0);
    s.run_submission(SubmissionEvent::Exited(0));

    match &s.step {
        SubmissionStep::DiscardStaged(Execution::LocalFallback { reason, .. }) => assert!(
            reason.text().contains("remote writeback publish failed"),
            "publish failure must become a remote-exhausted local fallback"
        ),
        _ => panic!("publish failure must replace remote success with fallback"),
    }
    let mut attempts = tracker.snapshot();
    attempts.sort_by_key(|attempt| attempt.key.attempt_no);
    assert_eq!(attempts.len(), 2);
    assert_eq!(attempts[0].execution_kind, ExecutionKind::Remote);
    assert_eq!(attempts[1].execution_kind, ExecutionKind::Fallback);
    assert_eq!(attempts[0].display_name, "main.cpp");
    assert_eq!(attempts[1].display_name, "main.cpp");
    assert_eq!(attempts[1].worker_id, "local");
    assert!(attempts.iter().all(|attempt| attempt.state.is_terminal()));
}

#[test]
fn plain_submissions_are_dispatched_and_answered() {
    let mut s = Submission::new(setup(false, false));
    assert!(matches!(s.step, SubmissionStep::PlainDispatch));
    s.run_submission(SubmissionEvent::Ran(local(1)));
    assert!(matches!(s.step, SubmissionStep::PlainReport(_)));
    s.run_submission(SubmissionEvent::Done);
    assert!(matches!(s.step, SubmissionStep::Answer(_)));
}

#[test]
fn a_killed_process_is_not_answered() {
    let mut s = Submission::new(setup(true, false));
    s.run_submission(SubmissionEvent::Done);
    s.run_submission(SubmissionEvent::Ran(local(1)));
    s.run_submission(SubmissionEvent::Done);
    s.run_submission(SubmissionEvent::Done);
    assert!(matches!(s.step, SubmissionStep::Report(_)));
    s.run_submission(SubmissionEvent::Done);
    s.run_submission(SubmissionEvent::Phase(Some(SubmissionPhase::ForcedReaped)));
    assert!(matches!(s.step, SubmissionStep::Finished));
}

#[test]
fn what_goes_with_an_action() {
    assert_eq!(trace_dir(&RootPath::new(PathStyle::Windows, "c:\\t"), 4), "c:\\t\\trace-4");
    assert_eq!(trace_dir(&RootPath::new(PathStyle::Unix, "/t"), 4), "/t/trace-4");
    let options = exec_options(vec!["a.h".into()], "h:1", "c:\\w", "c:\\t", true);
    assert_eq!(options.predicted_paths, vec!["a.h".to_string()]);
    let vfs = options.vfs.unwrap();
    assert_eq!(vfs.agent_fileserver, "h:1");
    assert_eq!(vfs.vfs_root, "c:\\w");
    assert_eq!(vfs.trace_dir, "c:\\t");
    assert!(vfs.strict && !vfs.allow_original_cwd);
}
