use sembazuru_agent::failure::{Failure, FailureKind};
use sembazuru_agent::local_job::audit::{
    AuditOutcome, AuditState, AuditStep, LONGEST_PAUSE, SHORTEST_PAUSE,
};
use sembazuru_agent::local_job::guardian::{
    finish_refusal, phase_after_cleanup, record_quarantine, FinishEvent, FinishOutcome,
    FinishState, SubmissionPhase, TerminateEvent, TerminateState,
};
use sembazuru_agent::local_job::monitor::{
    next_barrier_token, Accounting, BarrierStep, MonitorSnapshot, MonitorState, OccurrenceState,
    PacketStep, ProcessOccurrence, ProcessProbe, SeedWait, WaitResult, JOB_COMPLETION_KEY,
    MSG_ACTIVE_PROCESS_ZERO, MSG_EXIT_PROCESS, MSG_NEW_PROCESS, OWNER_BARRIER,
    OWNER_COMPLETION_KEY, OWNER_STOP,
};
use sembazuru_agent::local_job::run::{initial_thread, RunEvent, RunState};

fn denied() -> Failure {
    Failure::new(FailureKind::PermissionDenied, "denied")
}

#[test]
fn packets_are_told_apart() {
    let mut m = MonitorState::new();
    assert!(matches!(
        m.on_packet(JOB_COMPLETION_KEY, MSG_NEW_PROCESS, 7),
        PacketStep::NewProcess(7)
    ));
    assert!(matches!(m.on_packet(JOB_COMPLETION_KEY, MSG_EXIT_PROCESS, 7), PacketStep::Next));
    assert!(matches!(
        m.on_packet(JOB_COMPLETION_KEY, MSG_ACTIVE_PROCESS_ZERO, 0),
        PacketStep::Next
    ));
    assert!(m.first_error.is_none());
    assert!(matches!(
        m.on_packet(JOB_COMPLETION_KEY, MSG_NEW_PROCESS, 1 << 32),
        PacketStep::Fail(f) if f.message == "NEW_PROCESS PID did not fit in u32"
    ));
    m.on_packet(OWNER_COMPLETION_KEY, OWNER_BARRIER, 3);
    m.on_packet(OWNER_COMPLETION_KEY, OWNER_BARRIER, 2);
    assert_eq!(m.last_ack, 3);
    assert!(matches!(m.on_packet(OWNER_COMPLETION_KEY, OWNER_STOP, 0), PacketStep::Stop));
    m.on_packet(JOB_COMPLETION_KEY, 99, 0);
    m.on_packet(9, 0, 0);
    assert_eq!(m.first_error.as_deref(), Some("unexpected Job completion packet 99"));
    let mut other = MonitorState::new();
    other.on_packet(9, 0, 0);
    assert_eq!(other.first_error.as_deref(), Some("unexpected IOCP completion key 9"));
    let mut control = MonitorState::new();
    control.on_packet(OWNER_COMPLETION_KEY, 8, 0);
    assert_eq!(control.first_error.as_deref(), Some("unexpected IOCP owner control packet 8"));
}

#[test]
fn local_job_gone_and_foreign_pid_packets_are_confirmed_gone() {
    let mut m = MonitorState::new();
    m.monitor_new_process(5, ProcessProbe::Gone, &vec![]).unwrap();
    m.monitor_new_process(6, ProcessProbe::Foreign, &vec![WaitResult::Signaled]).unwrap();
    assert_eq!(m.unique_occurrences, 2);
    assert!(m.occurrences.iter().all(|o| o.state == OccurrenceState::ConfirmedGone));
}

#[test]
fn local_job_gone_duplicate_packets_do_not_overcount_unique_occurrences() {
    let mut seeded_top = MonitorState::new();
    seeded_top.seed_ready = true;
    seeded_top
        .push_occurrence(ProcessOccurrence {
            pid: u32::MAX,
            state: OccurrenceState::ConfirmedGone,
            top: true,
        })
        .unwrap();
    seeded_top.top_new_pending = Some(u32::MAX);
    seeded_top
        .monitor_new_process(u32::MAX, ProcessProbe::Gone, &vec![WaitResult::Signaled])
        .unwrap();
    assert_eq!(seeded_top.unique_occurrences, 1);

    let mut repeated_non_top = MonitorState::new();
    repeated_non_top.seed_ready = true;
    repeated_non_top.count_packet().unwrap();
    repeated_non_top.monitor_new_process(u32::MAX, ProcessProbe::Gone, &vec![]).unwrap();
    repeated_non_top.count_packet().unwrap();
    repeated_non_top
        .monitor_new_process(u32::MAX, ProcessProbe::Gone, &vec![WaitResult::Signaled])
        .unwrap();
    assert_eq!(repeated_non_top.raw_packets, 2);
    assert_eq!(repeated_non_top.unique_occurrences, 1);

    let mut repeated_foreign = MonitorState::new();
    repeated_foreign.seed_ready = true;
    repeated_foreign.monitor_new_process(4242, ProcessProbe::Foreign, &vec![]).unwrap();
    repeated_foreign
        .monitor_new_process(4242, ProcessProbe::Foreign, &vec![WaitResult::Signaled])
        .unwrap();
    assert_eq!(repeated_foreign.unique_occurrences, 1);
}

#[test]
fn local_job_nested_duplicate_packet_changes_raw_not_unique_count() {
    let mut m = MonitorState::new();
    m.count_packet().unwrap();
    m.monitor_new_process(5, ProcessProbe::Member(70), &vec![]).unwrap();
    m.count_packet().unwrap();
    m.monitor_new_process(5, ProcessProbe::Member(71), &vec![WaitResult::Running]).unwrap();
    assert_eq!((m.raw_packets, m.unique_occurrences), (2, 1));
    m.monitor_new_process(5, ProcessProbe::Member(72), &vec![WaitResult::Signaled]).unwrap();
    assert_eq!(m.unique_occurrences, 2, "the number was used again");
}

#[test]
fn monitor_failures_are_fail_closed() {
    let mut m = MonitorState::new();
    assert_eq!(
        m.monitor_new_process(5, ProcessProbe::OpenFailed(denied()), &vec![]).unwrap_err().message,
        "OpenProcess(5) for NEW_PROCESS failed: denied"
    );
    assert_eq!(
        m.monitor_new_process(5, ProcessProbe::MembershipFailed(denied()), &vec![])
            .unwrap_err()
            .message,
        "IsProcessInJob for NEW_PROCESS failed: denied"
    );
    m.monitor_new_process(5, ProcessProbe::Member(70), &vec![]).unwrap();
    assert_eq!(
        m.monitor_new_process(5, ProcessProbe::Member(71), &vec![WaitResult::Failed(denied())])
            .unwrap_err()
            .message,
        "checking retained process handle failed: denied"
    );
    assert_eq!(
        m.monitor_new_process(5, ProcessProbe::Member(71), &vec![WaitResult::Unexpected(128)])
            .unwrap_err()
            .message,
        "unexpected process wait result 128"
    );
    assert_eq!(
        m.monitor_snapshot(&vec![WaitResult::Failed(denied())]).unwrap_err().message,
        "auditing retained process handle failed: denied"
    );
    m.record_error("first");
    m.record_error("second");
    assert_eq!(
        m.monitor_snapshot(&vec![WaitResult::Signaled]).unwrap_err().message,
        "IOCP monitor failed closed: first"
    );
}

#[test]
fn snapshots_tell_whether_all_have_ended() {
    let mut m = MonitorState::new();
    m.push_occurrence(ProcessOccurrence {
        pid: 1,
        state: OccurrenceState::Retained(7),
        top: true,
    })
    .unwrap();
    m.monitor_new_process(2, ProcessProbe::Gone, &vec![WaitResult::Running]).unwrap();
    let running = m.monitor_snapshot(&vec![WaitResult::Running, WaitResult::Running]).unwrap();
    assert!(!running.all_retained_signaled);
    let ended = m.monitor_snapshot(&vec![WaitResult::Signaled, WaitResult::Running]).unwrap();
    assert!(ended.all_retained_signaled);
    assert_eq!(ended.unique, 2);
    assert_eq!(m.top_handle(None), Some(7));
    assert_eq!(m.top_handle(Some(9)), Some(9));
    m.close_after_monitor();
    assert_eq!(m.top_handle(None), None);
}

#[test]
fn local_job_top_new_drop_is_covered_by_verified_seed() {
    let mut m = MonitorState::new();
    assert!(matches!(m.wait_for_top_seed(), SeedWait::Wait));
    let mut top = Some(7);
    m.seed_top_occurrence(&mut top, 40, Ok(true), Ok(Accounting { total: 1, active: 1 })).unwrap();
    assert!(matches!(m.wait_for_top_seed(), SeedWait::Ready));
    assert_eq!(m.unique_occurrences, 1);
    assert!(m.occurrences[0].top);
    assert_eq!(m.top_handle(top), Some(7));
    assert!(m.take_top_packet(40), "the packet of the top process adds nothing");
    assert!(!m.take_top_packet(40));
    assert!(!m.take_top_packet(41));
}

#[test]
fn unseeded_tops_abort_the_monitor() {
    let ok = Ok(Accounting { total: 1, active: 1 });
    let mut m = MonitorState::new();
    assert_eq!(
        m.seed_top_occurrence(&mut None, 40, Ok(true), ok.clone()).unwrap_err().message,
        "top process handle missing before seed"
    );
    assert_eq!(
        m.seed_top_occurrence(&mut Some(7), 40, Ok(false), ok.clone()).unwrap_err().message,
        "top process was not contained in the exact guardian Job"
    );
    assert_eq!(
        m.seed_top_occurrence(&mut Some(7), 40, Err(denied()), ok).unwrap_err().message,
        "IsProcessInJob for top process failed: denied"
    );
    assert_eq!(
        m.seed_top_occurrence(&mut Some(7), 40, Ok(true), Ok(Accounting { total: 0, active: 0 }))
            .unwrap_err()
            .message,
        "Job accounting did not observe the assigned top process"
    );
    m.abort_seed("gone");
    match m.wait_for_top_seed() {
        SeedWait::Aborted(f) => assert_eq!(
            f.message,
            "top occurrence seeding aborted before NEW_PROCESS processing"
        ),
        _ => panic!("not aborted"),
    }
}

#[test]
fn barriers_are_acknowledged_or_fail() {
    let mut m = MonitorState::new();
    m.on_packet(OWNER_COMPLETION_KEY, OWNER_BARRIER, 3);
    assert!(matches!(m.barrier_step(3, true), BarrierStep::Acknowledged));
    assert!(matches!(m.barrier_step(4, false), BarrierStep::Wait));
    assert!(matches!(
        m.barrier_step(4, true),
        BarrierStep::Failed(f) if f.kind == FailureKind::TimedOut
    ));
    assert!(m.barrier_woken(4, false).is_ok());
    assert!(m.barrier_woken(3, true).is_ok());
    assert_eq!(
        m.barrier_woken(4, true).unwrap_err().message,
        "IOCP barrier acknowledgement timed out"
    );
    m.mark_terminal();
    assert!(matches!(
        m.barrier_step(4, false),
        BarrierStep::Failed(f)
            if f.message == "IOCP monitor terminated before barrier acknowledgement"
    ));
    let mut next = 1;
    assert_eq!(next_barrier_token(&mut next), Ok(1));
    assert_eq!(next, 2);
    let mut last = u64::MAX;
    assert_eq!(next_barrier_token(&mut last).unwrap_err().message, "IOCP barrier token overflow");
}

fn snap(unique: u64, all: bool) -> MonitorSnapshot {
    MonitorSnapshot { raw: unique, unique, all_retained_signaled: all }
}

#[test]
fn an_empty_job_is_seen_twice() {
    let mut audit = AuditState::new();
    let empty = Accounting { total: 2, active: 0 };
    match audit.judge(empty, snap(2, true), 1_000_000_000) {
        AuditStep::Pause(t) => assert_eq!(t, SHORTEST_PAUSE),
        _ => panic!("one look is not enough"),
    }
    assert!(matches!(audit.judge(empty, snap(2, true), 1_000_000_000), AuditStep::Stable));
}

#[test]
fn audits_pause_longer_and_give_up() {
    let mut audit = AuditState::new();
    let busy = Accounting { total: 1, active: 1 };
    let mut pauses = Vec::new();
    for _ in 0..6 {
        match audit.judge(busy, snap(1, false), 1_000_000_000) {
            AuditStep::Pause(t) => pauses.push(t),
            _ => panic!("not over yet"),
        }
    }
    assert_eq!(pauses[0], SHORTEST_PAUSE);
    assert_eq!(pauses[1], 2 * SHORTEST_PAUSE);
    assert_eq!(pauses[5], LONGEST_PAUSE);
    match audit.judge(busy, snap(1, false), 0) {
        AuditStep::Failed(f) => {
            assert_eq!(f.kind, FailureKind::TimedOut);
            assert_eq!(
                f.message,
                "Job audit did not stabilize: active=1, total=1, unique=1, raw=1, \
                 all_signaled=false"
            );
        }
        _ => panic!("over"),
    }
    let mut down = AuditState::new();
    down.judge(Accounting { total: 3, active: 0 }, snap(3, true), 5);
    assert!(matches!(
        down.judge(Accounting { total: 2, active: 0 }, snap(3, true), 5),
        AuditStep::Failed(f) if f.message == "Job TotalProcesses decreased from 3 to 2"
    ));
}

#[test]
fn a_job_is_closed_only_when_empty() {
    let mut s = TerminateState::begin(Some(7));
    assert!(matches!(s, TerminateState::TerminateBoth(7)));
    s = s.next(TerminateEvent::HalfDone);
    assert!(matches!(s, TerminateState::AwaitTop(7)));
    s = s.next(TerminateEvent::Done);
    assert!(matches!(s, TerminateState::Audit));
    s = s.next(TerminateEvent::Done);
    assert!(matches!(s, TerminateState::StopMonitor));
    s = s.next(TerminateEvent::Done);
    assert!(matches!(s, TerminateState::Close));
    assert!(matches!(
        TerminateState::begin(None),
        TerminateState::Quarantine(f) if f.message == "top process handle missing during force"
    ));
    assert!(matches!(
        TerminateState::begin(Some(7)).next(TerminateEvent::Failed(denied())),
        TerminateState::Quarantine(f)
            if f.message == "terminating process and Job both failed: denied"
    ));
    assert!(matches!(
        TerminateState::AwaitTop(7).next(TerminateEvent::Failed(denied())),
        TerminateState::Quarantine(f) if f.message == "waiting for top process failed: denied"
    ));
}

#[test]
fn a_natural_end_is_published() {
    let mut s = FinishState::begin();
    s = s.next(FinishEvent::Refused);
    assert!(matches!(s, FinishState::Disarm));
    s = s.next(FinishEvent::Done);
    assert!(matches!(s, FinishState::StopMonitor { disarmed: true }));
    s = s.next(FinishEvent::Failed(denied()));
    assert!(matches!(s, FinishState::SetAside(_)), "the natural end stands");
    s = s.next(FinishEvent::Done);
    assert!(matches!(s, FinishState::PublishNatural(_)));
    s = s.next(FinishEvent::Done);
    assert!(matches!(s, FinishState::Finished(Ok(FinishOutcome::Natural))));
}

#[test]
fn local_job_disarm_wait_observes_force_and_reaps_detached_descendant() {
    let mut s = FinishState::begin();
    s = s.next(FinishEvent::Refused);
    s = s.next(FinishEvent::Refused);
    assert!(matches!(s, FinishState::CheckForce { armed: false }));
    s = s.next(FinishEvent::Refused);
    assert!(matches!(s, FinishState::Audit));
    s = s.next(FinishEvent::Audited(AuditOutcome::ForceRequested));
    s = s.next(FinishEvent::Done);
    assert!(matches!(s, FinishState::Terminate));
    s = s.next(FinishEvent::Done);
    s = s.next(FinishEvent::Done);
    assert!(matches!(s, FinishState::Finished(Ok(FinishOutcome::Forced))));
}

#[test]
fn local_job_natural_empty_failure_quarantines_live_detached_descendant() {
    let mut s = FinishState::begin();
    s = s.next(FinishEvent::Refused);
    s = s.next(FinishEvent::Refused);
    s = s.next(FinishEvent::Refused);
    s = s.next(FinishEvent::Failed(denied()));
    assert!(matches!(s, FinishState::Quarantine(_)));
    s = s.next(FinishEvent::Done);
    assert!(matches!(s, FinishState::PublishFailed(_)));
    s = s.next(FinishEvent::Done);
    assert!(matches!(s, FinishState::Finished(Err(f)) if f == denied()));
}

#[test]
fn cleanups_are_told() {
    assert_eq!(phase_after_cleanup(true, true), SubmissionPhase::RetrySafeReaped);
    assert_eq!(phase_after_cleanup(true, false), SubmissionPhase::ForcedReaped);
    assert_eq!(phase_after_cleanup(false, true), SubmissionPhase::ForceFailed);
    assert!(finish_refusal(false, true).is_none());
    assert_eq!(finish_refusal(true, true).unwrap().message, "process guardian already consumed");
    assert_eq!(finish_refusal(false, false).unwrap().message, "process guardian handles missing");
    let mut m = MonitorState::new();
    let mut count = 2;
    assert_eq!(
        record_quarantine(&mut m, &mut count, &denied()),
        "Sembazuru local process guardian quarantine 3: denied"
    );
    assert_eq!(count, 3);
    assert_eq!(m.first_error.as_deref(), Some("denied"));
}

fn run(events: Vec<RunEvent>) -> RunState {
    let mut s = RunState::begin();
    for e in events {
        s = s.next(e);
    }
    s
}

fn done(n: usize) -> Vec<RunEvent> {
    (0..n).map(|_| RunEvent::Done).collect()
}

#[test]
fn local_job_natural_completion_preserves_exit_and_output() {
    let mut events = done(11);
    assert!(matches!(run(done(11)), RunState::Wait));
    events.push(RunEvent::Exited(37));
    events.push(RunEvent::Left(FinishOutcome::Natural));
    assert!(matches!(run(events), RunState::Finished(Ok(37))));
}

#[test]
fn local_job_pre_spawn_iocp_setup_failures_are_retry_safe() {
    for steps in 1..5 {
        let mut events = done(steps);
        events.push(RunEvent::Failed(denied()));
        events.push(RunEvent::Done);
        assert!(matches!(
            run(events),
            RunState::Publish(SubmissionPhase::RetrySafeReaped, f) if f == denied()
        ));
    }
}

#[test]
fn local_job_setup_failpoints_reap_suspended_child_without_starting_it() {
    let mut events = done(5);
    events.push(RunEvent::Failed(denied()));
    assert!(matches!(run(events), RunState::StopChild(_)));
    let mut assign = done(6);
    assign.push(RunEvent::Failed(denied()));
    assert!(matches!(
        run(assign),
        RunState::ForceReap { setup: true, strict: true, failure }
            if failure.message == "AssignProcessToJobObject failed: denied"
    ));
    let mut seed = done(8);
    seed.push(RunEvent::Failed(denied()));
    assert!(matches!(run(seed), RunState::ForceReap { setup: true, strict: false, .. }));
    let mut resume = done(9);
    resume.push(RunEvent::Failed(denied()));
    assert!(matches!(run(resume), RunState::ForceReap { setup: true, .. }));
}

#[test]
fn stopped_processes_have_no_exit_code() {
    assert!(matches!(
        run(vec![RunEvent::Refused]),
        RunState::Finished(Err(f)) if f.message == "submission was stopped before local process setup"
    ));
    let mut forced = done(11);
    forced.push(RunEvent::Forced);
    forced.push(RunEvent::Done);
    assert!(matches!(
        run(forced),
        RunState::Finished(Err(f))
            if f.kind == FailureKind::Interrupted
                && f.message == "local process was stopped for daemon shutdown"
    ));
    let mut drained = done(11);
    drained.push(RunEvent::Exited(0));
    drained.push(RunEvent::Left(FinishOutcome::Forced));
    assert!(matches!(
        run(drained),
        RunState::Finished(Err(f))
            if f.message == "local process tree was stopped during post-exit drain"
    ));
    let mut late = done(10);
    late.push(RunEvent::Refused);
    assert!(matches!(
        run(late),
        RunState::ForceReap { setup: true, strict: true, failure }
            if failure.message == "submission phase changed before child became active"
    ));
}

#[test]
fn the_initial_thread_is_the_only_one() {
    assert_eq!(initial_thread(5, &vec![(4, 1), (5, 2), (6, 3)]), Ok(2));
    assert!(initial_thread(5, &vec![(4, 1)]).is_err());
    assert!(initial_thread(5, &vec![(5, 1), (5, 2)]).is_err());
}

#[test]
fn failures_before_the_process_are_safe_to_try_again() {
    for steps in 1..5 {
        let mut s = RunState::begin();
        for _ in 0..steps {
            s = s.next(RunEvent::Done);
        }
        assert!(!matches!(s, RunState::DuplicateHandle));
        s = s.next(RunEvent::Failed(denied()));
        assert!(matches!(&s, RunState::Release { .. }));
        s = s.next(RunEvent::Done);
        assert!(matches!(
            &s,
            RunState::Publish(SubmissionPhase::RetrySafeReaped, f) if f.message == "denied"
        ));
        s = s.next(RunEvent::Done);
        assert!(matches!(&s, RunState::Finished(Err(f)) if f.message == "denied"));
    }
}

#[test]
fn a_process_is_stopped_with_all_that_it_started() {
    let waiting = || {
        let mut s = RunState::begin();
        for _ in 0..11 {
            s = s.next(RunEvent::Done);
        }
        assert!(matches!(s, RunState::Wait));
        s
    };
    let forced = waiting().next(RunEvent::Forced);
    assert!(matches!(&forced, RunState::ForceReap { setup: false, strict: true, .. }));
    let mut stop = TerminateState::begin(Some(9));
    for _ in 0..4 {
        stop = stop.next(TerminateEvent::Done);
    }
    assert!(matches!(stop, TerminateState::Close));
    assert!(matches!(
        forced.next(RunEvent::Done),
        RunState::Finished(Err(f)) if f.kind == FailureKind::Interrupted
    ));
    assert_eq!(phase_after_cleanup(true, false), SubmissionPhase::ForcedReaped);

    let mut leave = FinishState::begin();
    leave = leave.next(FinishEvent::Refused);
    leave = leave.next(FinishEvent::Done);
    leave = leave.next(FinishEvent::Done);
    leave = leave.next(FinishEvent::Done);
    assert!(matches!(leave, FinishState::PublishNatural(_)));
    leave = leave.next(FinishEvent::Done);
    assert!(matches!(leave, FinishState::Finished(Ok(FinishOutcome::Natural))));
    let ended = waiting().next(RunEvent::Exited(7)).next(RunEvent::Left(FinishOutcome::Natural));
    assert!(matches!(ended, RunState::Finished(Ok(7))));
}
