use std::cell::Cell;
use std::rc::Rc;

use sembazuru_agent::action_tracker::{
    bounded_id, clock_reading, display_name, truncate_chars, ActionTracker, ActivityState, AttemptKey,
    ExecutionKind, SystemClock, TrackerClock, WorkerStage, ACTIVITY_TTL, MAX_ACTIVITY_ATTEMPTS,
    MAX_DISPLAY_CHARS, MAX_ID_CHARS,
};
use sembazuru_agent::command::Command;
use sembazuru_agent::filepath::PathStyle;
use sembazuru_agent::ActionObserver;

const MILLISECOND: u64 = 1_000_000;

#[derive(Clone)]
struct ManualClock(Rc<Cell<u64>>);

impl ManualClock {
    fn new(now: u64) -> Self {
        Self(Rc::new(Cell::new(now)))
    }

    fn advance(&self, nanos: u64) {
        self.0.set(self.0.get() + nanos);
    }
}

impl TrackerClock for ManualClock {
    fn now(&self) -> u64 {
        self.0.get()
    }
}

fn lane_of<C: TrackerClock>(tracker: &mut ActionTracker<C>, key: &AttemptKey) -> u32 {
    tracker.snapshot().iter().find(|entry| entry.key == *key).unwrap().lane_index
}

#[test]
fn tracker_reuses_lane_only_after_terminal() {
    let mut tracker = ActionTracker::default();
    let a = tracker.begin_attempt("a", 0, "w1", ExecutionKind::Remote, "a.cpp").unwrap();
    let b = tracker.begin_attempt("b", 0, "w1", ExecutionKind::Remote, "b.cpp").unwrap();
    tracker.transition(&a, ActivityState::Running);
    tracker.transition(&b, ActivityState::Running);
    assert_eq!(lane_of(&mut tracker, &a), 1);
    assert_eq!(lane_of(&mut tracker, &b), 2);
    tracker.finish(&a, ActivityState::Completed);
    assert_eq!(
        lane_of(&mut tracker, &a),
        1,
        "terminal history must retain its display lane"
    );
    let c = tracker.begin_attempt("c", 0, "w1", ExecutionKind::Remote, "c.cpp").unwrap();
    tracker.transition(&c, ActivityState::Running);
    assert_eq!(lane_of(&mut tracker, &c), 1);
}

#[test]
fn retry_gets_distinct_attempt_key() {
    let mut tracker = ActionTracker::default();
    let first = tracker.begin_attempt("compile", 0, "w1", ExecutionKind::Remote, "a.cpp").unwrap();
    tracker.finish(&first, ActivityState::Failed);
    let retry = tracker.begin_attempt("compile", 1, "w2", ExecutionKind::Remote, "a.cpp").unwrap();
    assert_ne!(first, retry);
    assert_eq!(tracker.snapshot().len(), 2);
}

#[test]
fn display_name_never_contains_parent_path() {
    let command = Command {
        argv: vec![
            "clang-cl.exe".to_string(),
            "/c".to_string(),
            "C:\\secret\\src\\main.cpp".to_string(),
        ],
        env: vec![("TOKEN".to_string(), "secret".to_string())],
        cwd: "C:\\secret".to_string(),
    };
    assert_eq!(display_name(&command, PathStyle::Windows), "main.cpp");
    let unix = Command {
        argv: vec!["clang".to_string(), "-c".to_string(), "/secret/src/unix.cc".to_string()],
        env: vec![],
        cwd: String::new(),
    };
    assert_eq!(display_name(&unix, PathStyle::Windows), "unix.cc");
}

#[test]
fn tracker_prunes_expired_terminal_and_never_evicts_active_attempts() {
    let clock = ManualClock::new(0);
    let mut tracker = ActionTracker::with_clock(clock.clone());
    let done = tracker.begin_attempt("done", 0, "w1", ExecutionKind::Remote, "done.cpp").unwrap();
    tracker.finish(&done, ActivityState::Completed);
    clock.advance(ACTIVITY_TTL + MILLISECOND);
    tracker.prune_at(clock.now());
    assert!(tracker.snapshot().is_empty());
    assert_eq!(tracker.footprint().1, 0);

    for index in 0..MAX_ACTIVITY_ATTEMPTS {
        assert!(tracker
            .begin_attempt(
                &format!("active-{index}"),
                0,
                "w1",
                ExecutionKind::Remote,
                "active.cpp",
            )
            .is_some());
    }
    assert!(tracker
        .begin_attempt("overflow", 0, "w1", ExecutionKind::Remote, "overflow.cpp")
        .is_none());
    assert_eq!(tracker.snapshot().len(), MAX_ACTIVITY_ATTEMPTS);
}

#[test]
fn dropped_attempt_lease_interrupts_and_becomes_ttl_prunable() {
    let clock = ManualClock::new(0);
    let mut tracker = ActionTracker::with_clock(clock.clone());
    let lease = tracker
        .begin_attempt_lease("cancelled", 0, "w1", ExecutionKind::Remote, "cancelled.cpp")
        .unwrap();
    lease.transition(&mut tracker, ActivityState::Running);
    lease.release(&mut tracker);
    let snapshot = tracker.snapshot();
    assert_eq!(snapshot.len(), 1);
    assert_eq!(snapshot[0].state, ActivityState::Interrupted);
    assert_eq!(snapshot[0].lane_index, 1);

    clock.advance(ACTIVITY_TTL + MILLISECOND);
    tracker.prune_at(clock.now());
    assert!(tracker.snapshot().is_empty());
}

#[test]
fn tracker_bounds_8192_terminal_attempts_and_auxiliary_state() {
    let mut tracker = ActionTracker::default();
    for index in 0..(MAX_ACTIVITY_ATTEMPTS * 2) {
        let key = tracker
            .begin_attempt(
                &format!("action-{index}"),
                0,
                "w1",
                ExecutionKind::Remote,
                "unit.cpp",
            )
            .unwrap();
        tracker.finish(&key, ActivityState::Completed);
    }
    let now = SystemClock::new().now();
    tracker.prune_at(now);
    let (attempts, terminal_order, worker_lanes) = tracker.footprint();
    assert_eq!(attempts, MAX_ACTIVITY_ATTEMPTS);
    assert_eq!(terminal_order, attempts);
    assert_eq!(worker_lanes, 0);
}

#[test]
fn tracker_rejects_regression_and_terminal_overwrite() {
    let mut tracker = ActionTracker::default();
    let key = tracker.begin_attempt("a", 0, "w1", ExecutionKind::Remote, "a.cpp").unwrap();
    tracker.transition(&key, ActivityState::Running);
    tracker.transition(&key, ActivityState::Queued);
    assert_eq!(tracker.snapshot()[0].state, ActivityState::Running);
    tracker.finish(&key, ActivityState::Failed);
    tracker.finish(&key, ActivityState::Completed);
    assert_eq!(tracker.snapshot()[0].state, ActivityState::Failed);
    assert_eq!(tracker.rejected_transitions(), 2);
}

#[test]
fn long_ids_are_bounded_without_colliding() {
    let mut tracker = ActionTracker::default();
    let common = "x".repeat(MAX_ID_CHARS + 32);
    let first = tracker
        .begin_attempt(
            &(common.clone() + "a"),
            0,
            &(common.clone() + "worker-a"),
            ExecutionKind::Remote,
            &"d".repeat(MAX_DISPLAY_CHARS + 32),
        )
        .unwrap();
    let second = tracker
        .begin_attempt(&(common + "b"), 0, "w2", ExecutionKind::Remote, "b.cpp")
        .unwrap();
    assert_ne!(first, second);
    assert!(first.action_id.chars().count() <= MAX_ID_CHARS);
    let snapshot = tracker.snapshot();
    assert!(snapshot[0].worker_id.chars().count() <= MAX_ID_CHARS);
    assert!(snapshot[0].display_name.chars().count() <= MAX_DISPLAY_CHARS);
}

#[test]
fn short_ids_are_kept_and_long_ones_end_in_a_digest() {
    assert_eq!(bounded_id("compile"), "compile");
    let long = "x".repeat(MAX_ID_CHARS + 1);
    let id = bounded_id(&long);
    let digest = blake3::hash(long.as_bytes()).to_hex().to_string();
    assert_eq!(id, format!("{}#{}", "x".repeat(96), &digest[..16]));
    assert_eq!(truncate_chars("h\u{e9}llo", 2), "h\u{e9}");
}

#[test]
fn a_second_beginning_is_refused_while_the_first_is_active() {
    let mut tracker = ActionTracker::with_clock(ManualClock::new(5));
    assert!(tracker.begin_attempt("a", 0, "w1", ExecutionKind::Local, "a.cpp").is_some());
    assert!(tracker.begin_attempt("a", 0, "w1", ExecutionKind::Local, "a.cpp").is_none());
}

#[test]
fn lanes_are_released_once_and_forgotten_with_the_last() {
    let clock = ManualClock::new(0);
    let mut tracker = ActionTracker::with_clock(clock.clone());
    let key = tracker.begin_attempt("a", 0, "w1", ExecutionKind::Remote, "a").unwrap();
    tracker.transition(&key, ActivityState::Running);
    assert_eq!(tracker.footprint(), (1, 0, 1));
    tracker.finish(&key, ActivityState::Completed);
    assert_eq!(tracker.footprint(), (1, 1, 0));
}

#[test]
fn snapshots_tell_how_long_an_attempt_ran() {
    let clock = ManualClock::new(0);
    let mut tracker = ActionTracker::with_clock(clock.clone());
    let key = tracker.begin_attempt("a", 0, "w1", ExecutionKind::Fallback, "a").unwrap();
    clock.advance(7 * MILLISECOND);
    let snapshot = tracker.snapshot();
    assert_eq!(snapshot[0].execution_kind, ExecutionKind::Fallback);
    assert_eq!(snapshot[0].key, key);
    assert_eq!(snapshot[0].state, ActivityState::Created);
    assert_eq!(snapshot[0].lane_index, 0);
    assert_eq!(snapshot[0].started_age, 7 * MILLISECOND);
    assert_eq!(snapshot[0].finished_age, None);
    assert_eq!(snapshot[0].duration, 7 * MILLISECOND);
    tracker.transition(&key, ActivityState::Running);
    clock.advance(3 * MILLISECOND);
    tracker.finish(&key, ActivityState::Completed);
    clock.advance(5 * MILLISECOND);
    let snapshot = tracker.snapshot();
    assert_eq!(snapshot[0].started_age, 15 * MILLISECOND);
    assert_eq!(snapshot[0].finished_age, Some(5 * MILLISECOND));
    assert_eq!(snapshot[0].duration, 10 * MILLISECOND);
}

#[test]
fn a_start_takes_the_lowest_free_lane() {
    let mut tracker = ActionTracker::with_clock(ManualClock::new(0));
    let keys: Vec<AttemptKey> = ["a", "b", "c"]
        .iter()
        .map(|id| tracker.begin_attempt(id, 0, "w1", ExecutionKind::Remote, id).unwrap())
        .collect();
    for (lane, key) in keys.iter().enumerate() {
        tracker.transition(key, ActivityState::Running);
        assert_eq!(lane_of(&mut tracker, key), lane as u32 + 1);
    }
    tracker.finish(&keys[1], ActivityState::Completed);
    tracker.finish(&keys[0], ActivityState::Completed);
    let next = tracker.begin_attempt("d", 0, "w1", ExecutionKind::Remote, "d").unwrap();
    tracker.transition(&next, ActivityState::Running);
    assert_eq!(lane_of(&mut tracker, &next), 1);
    let elsewhere = tracker.begin_attempt("e", 0, "w2", ExecutionKind::Remote, "e").unwrap();
    tracker.transition(&elsewhere, ActivityState::Running);
    assert_eq!(lane_of(&mut tracker, &elsewhere), 1);
}

#[test]
fn finishing_with_a_running_state_is_rejected() {
    let mut tracker = ActionTracker::default();
    let key = tracker.begin_attempt("a", 0, "w1", ExecutionKind::Remote, "a").unwrap();
    tracker.finish(&key, ActivityState::Running);
    assert_eq!(tracker.snapshot()[0].state, ActivityState::Created);
    assert_eq!(tracker.rejected_transitions(), 1);
    assert!(!ActivityState::Running.is_terminal());
    assert!(ActivityState::Interrupted.is_terminal());
}

#[test]
fn a_finished_lease_is_not_interrupted() {
    let mut tracker = ActionTracker::default();
    let mut lease =
        tracker.begin_attempt_lease("a", 3, "w1", ExecutionKind::Remote, "a").unwrap();
    assert_eq!(lease.key().attempt_no, 3);
    lease.finish(&mut tracker, ActivityState::Completed);
    lease.release(&mut tracker);
    assert_eq!(tracker.snapshot()[0].state, ActivityState::Completed);
    assert_eq!(tracker.rejected_transitions(), 0);
}

#[test]
fn observers_pass_the_stages_of_a_worker_on() {
    let mut tracker = ActionTracker::default();
    let key = tracker.begin_attempt("a", 0, "w1", ExecutionKind::Remote, "a").unwrap();
    let observer = ActionObserver::new(key);
    observer.worker_state(&mut tracker, WorkerStage::Other);
    assert_eq!(tracker.snapshot()[0].state, ActivityState::Created);
    observer.worker_state(&mut tracker, WorkerStage::Queued);
    assert_eq!(tracker.snapshot()[0].state, ActivityState::Queued);
    observer.worker_state(&mut tracker, WorkerStage::Preparing);
    assert_eq!(tracker.snapshot()[0].state, ActivityState::Preparing);
    observer.worker_state(&mut tracker, WorkerStage::Running);
    assert_eq!(tracker.snapshot()[0].state, ActivityState::Running);
}

#[test]
fn the_machine_clock_does_not_go_back() {
    let clock = SystemClock::new();
    let before = clock.now();
    assert!(clock.now() >= before);
}

#[test]
fn actions_without_a_source_are_named_after_their_tool() {
    let command = Command {
        argv: vec!["C:\\tools\\link.exe".to_string(), "/out:a.exe".to_string()],
        env: vec![],
        cwd: String::new(),
    };
    let name = display_name(&command, PathStyle::Windows);
    assert_eq!(name, "link.exe");
    let none = Command { argv: vec![], env: vec![], cwd: String::new() };
    assert!(!display_name(&none, PathStyle::Windows).contains('\\'));
}

#[test]
fn readings_of_the_clock_stop_at_the_largest() {
    assert_eq!(clock_reading(0), 0);
    assert_eq!(clock_reading(1_500_000_000), 1_500_000_000);
    assert_eq!(clock_reading(u128::from(u64::MAX)), u64::MAX);
    assert_eq!(clock_reading(u128::from(u64::MAX) + 1), u64::MAX);
}
