use sembazuru_agent::action_tracker::{ActionTracker, ActivityState, ExecutionKind, WorkerStage};
use sembazuru_agent::command::Command;
use sembazuru_agent::execution::{
    after_local, after_remote, append_console_capped, check_caller_deadline, check_local_command,
    drive_execute, error_chain_text, exit_code_of, RemoteStep, WorkerEvent,
    CONSOLE_TRUNCATION_NOTICE, MAX_CONSOLE_BYTES, MAX_ERROR_CHAIN_DEPTH,
};
use sembazuru_agent::failure::{Failure, FailureKind};
use sembazuru_agent::{
    ActionObserver, ActionOutcome, ConnectPolicy, ExecOptions, ExecuteError, Execution,
    LocalFallbackReason,
};

#[test]
fn execute_error_rpc_display_does_not_expand_status_source() {
    let status = tonic::Status::from_error("rpc-source".into());
    let expected = format!("rpc: {status}");
    let error = ExecuteError::Rpc(status.to_string());
    assert_eq!(error.text(), expected);
}

#[test]
fn error_chain_display_bounds_cycles() {
    let endless = vec!["cycle-source".to_string(); MAX_ERROR_CHAIN_DEPTH + 1];
    assert_eq!(error_chain_text(&endless), "cycle-source: [source chain truncated]");
}

#[test]
fn error_chains_are_told_once_each() {
    let chain = |m: &[&str]| error_chain_text(&m.iter().map(|s| s.to_string()).collect());
    assert_eq!(chain(&["a", "b", "b", "c"]), "a: b: c");
    assert_eq!(chain(&["a"]), "a");
    let whole = vec!["cycle-source".to_string(); MAX_ERROR_CHAIN_DEPTH];
    assert_eq!(error_chain_text(&whole), "cycle-source");
    assert_eq!(
        ExecuteError::Transport(vec!["transport error".into(), "refused".into()]).text(),
        "transport: transport error: refused"
    );
}

#[test]
fn console_buffer_is_capped_at_the_limit() {
    let mut buf = Vec::new();
    let flood = vec![b'x'; MAX_CONSOLE_BYTES * 2];
    append_console_capped(&mut buf, &flood);
    assert!(
        buf.len() <= MAX_CONSOLE_BYTES + CONSOLE_TRUNCATION_NOTICE.len(),
        "buffer is bounded by the cap (+ the notice): {}",
        buf.len()
    );
    assert!(
        buf.ends_with(CONSOLE_TRUNCATION_NOTICE.as_bytes()),
        "an overflowing chunk appends the truncation notice"
    );
    let after_cap = buf.len();
    append_console_capped(&mut buf, b"more output");
    assert_eq!(buf.len(), after_cap, "a capped buffer does not grow");
}

#[test]
fn a_console_that_is_just_full_tells_what_it_drops() {
    let mut buf = vec![b'x'; MAX_CONSOLE_BYTES - 1];
    append_console_capped(&mut buf, b"y");
    assert_eq!(buf.len(), MAX_CONSOLE_BYTES);
    append_console_capped(&mut buf, b"");
    assert_eq!(buf.len(), MAX_CONSOLE_BYTES);
    append_console_capped(&mut buf, b"more");
    assert_eq!(buf.len(), MAX_CONSOLE_BYTES + CONSOLE_TRUNCATION_NOTICE.len());
    assert!(buf.ends_with(CONSOLE_TRUNCATION_NOTICE.as_bytes()));
    assert_eq!(buf[MAX_CONSOLE_BYTES - 1], b'y');
    let told = buf.clone();
    append_console_capped(&mut buf, b"and more");
    assert_eq!(buf, told);
}

#[test]
fn console_buffer_keeps_small_output_verbatim() {
    let mut buf = Vec::new();
    append_console_capped(&mut buf, b"a.cpp(1): warning C4101\n");
    append_console_capped(&mut buf, b"a.cpp(2): note\n");
    assert_eq!(buf, b"a.cpp(1): warning C4101\na.cpp(2): note\n");
    assert!(!buf.ends_with(CONSOLE_TRUNCATION_NOTICE.as_bytes()));
}

#[test]
fn streams_add_up_to_an_outcome() {
    let mut tracker = ActionTracker::default();
    let key = tracker.begin_attempt("a", 0, "w", ExecutionKind::Remote, "a").unwrap();
    let observer = Some(ActionObserver::new(key));
    let mut outcome = ActionOutcome::default();
    for event in [
        WorkerEvent::State { raw: 3, stage: WorkerStage::Running },
        WorkerEvent::Stdio { is_stderr: false, data: b"o".to_vec() },
        WorkerEvent::Stdio { is_stderr: true, data: b"e".to_vec() },
        WorkerEvent::Other,
        WorkerEvent::Exit { exit_code: 4, wall_time_us: 9, resolved_tool_digest: "d".into() },
    ] {
        drive_execute(&mut outcome, &mut tracker, &observer, event);
    }
    assert_eq!(
        outcome,
        ActionOutcome {
            states: vec![3],
            exit_code: Some(4),
            wall_time_us: 9,
            resolved_tool_digest: "d".into(),
            stdout: b"o".to_vec(),
            stderr: b"e".to_vec(),
        }
    );
    assert_eq!(tracker.snapshot()[0].state, ActivityState::Running);
    drive_execute(
        &mut outcome,
        &mut tracker,
        &None,
        WorkerEvent::State { raw: 1, stage: WorkerStage::Queued },
    );
    assert_eq!(outcome.states, vec![3, 1]);
    assert_eq!(tracker.rejected_transitions(), 0);
}

#[test]
fn connections_are_tried_so_often() {
    let patient = ConnectPolicy::patient();
    let fast = ConnectPolicy::fast();
    assert!(patient.attempts > fast.attempts);
    assert_eq!(fast.after_failures(fast.attempts), None);
    assert_eq!(patient.after_failures(1), Some(patient.retry_sleep));
    assert_eq!(patient.after_failures(patient.attempts), None);
}

#[test]
fn only_exit_codes_count() {
    let done = ActionOutcome { exit_code: Some(0), ..ActionOutcome::default() };
    assert!(matches!(
        after_remote(Ok(done.clone())),
        RemoteStep::Done(Execution::Remote(o)) if o == done
    ));
    assert!(matches!(
        after_remote(Ok(ActionOutcome::default())),
        RemoteStep::RunLocally(LocalFallbackReason::RemoteExhausted(d))
            if d == "remote action did not complete (no exit status)"
    ));
    assert!(matches!(
        after_remote(Err(ExecuteError::Rpc("busy".into()))),
        RemoteStep::RunLocally(LocalFallbackReason::RemoteExhausted(d))
            if d == "remote execution failed: rpc: busy"
    ));
}

#[test]
fn local_runs_always_have_an_exit_code() {
    let none = Failure::new(FailureKind::NotFound, "no such file");
    assert_eq!(
        after_local(LocalFallbackReason::NoWorker, Err(none)),
        Execution::LocalFallback { exit_code: -1, reason: LocalFallbackReason::NoWorker }
    );
    assert_eq!(
        after_local(LocalFallbackReason::NoWorker, Ok(3)),
        Execution::LocalFallback { exit_code: 3, reason: LocalFallbackReason::NoWorker }
    );
    assert_eq!(exit_code_of(None), -1);
    assert_eq!(exit_code_of(Some(2)), 2);
}

#[test]
fn reasons_are_told() {
    assert_eq!(LocalFallbackReason::RouteAway("gui".into()).text(), "route-away (gui)");
    assert_eq!(LocalFallbackReason::NoWorker.text(), "no live workers");
    assert_eq!(LocalFallbackReason::RemoteExhausted("x".into()).text(), "x");
    assert!(LocalFallbackReason::RouteAway("gui".into()).is_route_away());
    assert!(!LocalFallbackReason::NoWorker.is_route_away());
}

#[test]
fn commands_are_checked_before_they_run() {
    let empty = Command { argv: vec![], env: vec![], cwd: String::new() };
    let refused = check_local_command(&empty).unwrap_err();
    assert_eq!(refused.kind, FailureKind::InvalidInput);
    assert_eq!(refused.message, "command.argv is empty");
    let some = Command { argv: vec!["x".into()], env: vec![], cwd: String::new() };
    assert!(check_local_command(&some).is_ok());
    assert!(check_caller_deadline(true).is_ok());
    let late = check_caller_deadline(false).unwrap_err();
    assert_eq!(late.kind, FailureKind::PermissionDenied);
    assert_eq!(late.message, "authenticated caller execution requires a submission deadline");
    assert!(ExecOptions::default().vfs.is_none());
}
