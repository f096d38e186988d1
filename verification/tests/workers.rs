use sembazuru_agent::coordination::{
    heartbeat, register, Capabilities, Ping, WorkerTable, REAP_FACTOR,
};

const MILLISECOND: u64 = 1_000_000;
const SECOND: u64 = 1_000 * MILLISECOND;

fn caps(cpu: u32) -> Capabilities {
    Capabilities { cpu_count: cpu }
}

#[test]
fn reaper_drops_long_dead_entries_on_register() {
    let mut table = WorkerTable::new(5 * MILLISECOND);
    table.upsert_register("old".into(), "http://old".into(), caps(4), 0);
    let now = 5 * MILLISECOND * u64::from(REAP_FACTOR) + 60 * MILLISECOND;
    table.upsert_register("new".into(), "http://new".into(), caps(4), now);
    assert!(table.endpoint_of("old").is_none(), "long-dead entry must be reaped");
    assert!(table.endpoint_of("new").is_some(), "the fresh entry remains");
    assert_eq!(table.len(), 1, "table is bounded, not growing across restarts");
}

#[test]
fn upsert_register_rejects_live_worker_id_collision() {
    let mut table = WorkerTable::new(15 * SECOND);
    assert!(table.upsert_register("w".into(), "http://real".into(), caps(2), 0));
    assert!(!table.upsert_register("w".into(), "http://attacker".into(), caps(2), 1));
    assert_eq!(table.endpoint_of("w").expect("worker entry remains registered"), "http://real");
}

#[test]
fn upsert_register_allows_same_endpoint_reregistration() {
    let mut table = WorkerTable::new(15 * SECOND);
    assert!(table.upsert_register("w".into(), "http://a".into(), caps(2), 0));
    assert!(table.upsert_register("w".into(), "http://a".into(), caps(2), 0));
}

#[test]
fn upsert_register_allows_reclaiming_after_the_owner_goes_dead() {
    let mut table = WorkerTable::new(30 * MILLISECOND);
    assert!(table.upsert_register("w".into(), "http://old".into(), caps(2), 0));
    assert!(table.upsert_register("w".into(), "http://new".into(), caps(2), 60 * MILLISECOND));
    assert_eq!(table.endpoint_of("w").expect("worker entry remains registered"), "http://new");
}

#[test]
fn register_rpc_rejects_worker_id_collision() {
    let mut table = WorkerTable::new(15 * SECOND);
    let first = register(
        &mut table,
        "w".into(),
        "http://real".into(),
        Some(caps(2)),
        None,
        0,
    )
    .expect("first register succeeds");
    assert!(first.accepted);
    let second = register(
        &mut table,
        "w".into(),
        "http://attacker".into(),
        Some(caps(2)),
        None,
        0,
    )
    .expect("second register returns a response");
    assert!(!second.accepted);
    assert_eq!(second.detail, "worker_id already registered with a different execution endpoint");
}

#[test]
fn incomplete_registrations_are_errors() {
    let mut table = WorkerTable::new(SECOND);
    assert_eq!(
        register(&mut table, String::new(), "http://a".into(), None, None, 0),
        Err("worker_id is required")
    );
    assert_eq!(
        register(&mut table, "w".into(), String::new(), None, None, 0),
        Err("execution_endpoint is required")
    );
    assert_eq!(table.len(), 0);
}

#[test]
fn registrations_without_the_token_are_refused() {
    let mut table = WorkerTable::new(SECOND);
    let reply = register(
        &mut table,
        "w".into(),
        "http://a".into(),
        None,
        Some("cluster token mismatch".into()),
        0,
    )
    .unwrap();
    assert!(!reply.accepted);
    assert_eq!(reply.detail, "cluster token mismatch");
    assert_eq!(table.len(), 0);
}

#[test]
fn heartbeats_keep_a_worker_live() {
    let mut table = WorkerTable::new(10);
    table.upsert_register("w".into(), "http://a".into(), caps(8), 0);
    assert!(table.is_live("w", 9));
    assert!(!table.is_live("w", 10));
    table.on_ping("w", 3, 5, Some(40), 12);
    assert!(table.is_live("w", 21));
    let live = table.live_snapshot(21);
    assert_eq!(live.len(), 1);
    assert_eq!(live[0].worker_id, "w");
    assert_eq!(live[0].running_actions, 3);
    assert_eq!(live[0].idle_slots, 5);
    assert_eq!(live[0].idle_cpu_pct, Some(40));
    assert_eq!(live[0].caps.cpu_count, 8);
    assert_eq!(live[0].last_ping_age(21), 9);
    assert_eq!(table.live_count(22), 0);
}

#[test]
fn heartbeats_of_strangers_are_ignored() {
    let mut table = WorkerTable::new(10);
    table.on_ping("nobody", 1, 1, None, 0);
    assert_eq!(table.len(), 0);
}

#[test]
fn a_heartbeat_is_answered_only_with_the_token() {
    let mut table = WorkerTable::new(10);
    table.upsert_register("w".into(), "http://a".into(), caps(8), 0);
    let ping = Ping {
        worker_id: "w".into(),
        running_actions: 1,
        idle_slots: 2,
        idle_cpu_pct: None,
    };
    assert_eq!(heartbeat(&mut table, false, &ping, 20, 5), None);
    assert!(!table.is_live("w", 20));
    assert_eq!(heartbeat(&mut table, true, &ping, 20, 5), Some(5));
    assert!(table.is_live("w", 20));
    assert_eq!(heartbeat(&mut table, true, &ping, 20, u128::MAX), Some(u64::MAX));
}
