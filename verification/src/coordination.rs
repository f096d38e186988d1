//! The workers that have registered with the agent.
//!
//! A worker is live while the agent has heard from it within the dead timeout.
//! Liveness is derived from the age of the last ping when it is asked for. Times
//! are nanoseconds on one monotonic clock.

use crate::keyed::{has_key, key_index, lemma_entry, KeyedVec};
use vstd::prelude::*;

verus! {

/// How long a worker may be silent and still count as live, in nanoseconds.
pub const DEFAULT_DEAD_TIMEOUT: u64 = 15_000_000_000;

/// After how many dead timeouts of silence an entry is dropped.
pub const REAP_FACTOR: u32 = 20;

/// What a worker offers.
#[derive(Clone, Copy, Debug, PartialEq, Eq, Structural)]
pub struct Capabilities {
    pub cpu_count: u32,
}

impl Default for Capabilities {
    fn default() -> (r: Self)
        ensures
            r.cpu_count == 0,
    {
        Capabilities { cpu_count: 0 }
    }
}

/// One registered worker, with what it last reported.
#[derive(Debug, Clone, PartialEq, Eq)]
pub struct WorkerEntry {
    pub worker_id: String,
    pub execution_endpoint: String,
    pub caps: Capabilities,
    pub running_actions: u32,
    pub idle_slots: u32,
    /// Idle CPU in percent; `None` when the worker reports none.
    pub idle_cpu_pct: Option<u32>,
    /// When the agent last heard from it.
    pub last_ping: u64,
}

/// The view of a [`WorkerEntry`].
#[verifier::ext_equal]
pub struct WorkerModel {
    pub worker_id: Seq<char>,
    pub endpoint: Seq<char>,
    pub caps: Capabilities,
    pub running: u32,
    pub idle: u32,
    pub idle_cpu_pct: Option<u32>,
    pub last_ping: u64,
}

impl View for WorkerEntry {
    type V = WorkerModel;

    open spec fn view(&self) -> WorkerModel {
        WorkerModel {
            worker_id: self.worker_id@,
            endpoint: self.execution_endpoint@,
            caps: self.caps,
            running: self.running_actions,
            idle: self.idle_slots,
            idle_cpu_pct: self.idle_cpu_pct,
            last_ping: self.last_ping,
        }
    }
}

/// The nanoseconds since the worker was last heard from.
pub open spec fn silence(w: WorkerModel, now: u64) -> int {
    if now >= w.last_ping {
        now - w.last_ping
    } else {
        0
    }
}

impl WorkerEntry {
    /// How long ago the agent last heard from the worker.
    pub fn last_ping_age(&self, now: u64) -> (r: u64)
        ensures
            r == silence(self@, now),
    {
        now.saturating_sub(self.last_ping)
    }

    fn copy(&self) -> (r: Self)
        ensures
            r@ == self@,
    {
        WorkerEntry {
            worker_id: self.worker_id.clone(),
            execution_endpoint: self.execution_endpoint.clone(),
            caps: self.caps,
            running_actions: self.running_actions,
            idle_slots: self.idle_slots,
            idle_cpu_pct: self.idle_cpu_pct,
            last_ping: self.last_ping,
        }
    }
}

/// The workers by their identifiers.
pub type Workers = Map<Seq<char>, WorkerModel>;

/// Whether the worker `id` is live.
pub open spec fn live(workers: Workers, id: Seq<char>, now: u64, dead_timeout: u64) -> bool {
    workers.contains_key(id) && silence(workers[id], now) < dead_timeout
}

/// The identifiers of the live workers.
pub open spec fn live_ids(workers: Workers, now: u64, dead_timeout: u64) -> Set<Seq<char>> {
    workers.dom().filter(|id: Seq<char>| live(workers, id, now, dead_timeout))
}

/// Whether an entry has been silent for so long that it is dropped.
pub open spec fn long_dead(w: WorkerModel, now: u64, dead_timeout: u64) -> bool {
    silence(w, now) >= REAP_FACTOR * dead_timeout
}

/// The workers without those that have been silent for too long.
pub open spec fn reaped(workers: Workers, now: u64, dead_timeout: u64) -> Workers {
    Map::new(
        |id: Seq<char>| workers.contains_key(id) && !long_dead(workers[id], now, dead_timeout),
        |id: Seq<char>| workers[id],
    )
}

/// Whether the identifier `id` belongs to a live worker at another endpoint.
pub open spec fn taken(
    workers: Workers,
    id: Seq<char>,
    endpoint: Seq<char>,
    now: u64,
    dead_timeout: u64,
) -> bool {
    &&& reaped(workers, now, dead_timeout).contains_key(id)
    &&& workers[id].endpoint != endpoint
    &&& silence(workers[id], now) < dead_timeout
}

/// The workers after one asked to register.
pub open spec fn registered(
    workers: Workers,
    id: Seq<char>,
    endpoint: Seq<char>,
    caps: Capabilities,
    now: u64,
    dead_timeout: u64,
) -> Workers {
    let kept = reaped(workers, now, dead_timeout);
    if taken(workers, id, endpoint, now, dead_timeout) {
        kept
    } else {
        kept.insert(
            id,
            WorkerModel {
                worker_id: id,
                endpoint,
                caps,
                running: 0,
                idle: caps.cpu_count,
                idle_cpu_pct: None,
                last_ping: now,
            },
        )
    }
}

/// The workers after a heartbeat.
pub open spec fn pinged(
    workers: Workers,
    id: Seq<char>,
    running: u32,
    idle: u32,
    idle_cpu_pct: Option<u32>,
    now: u64,
) -> Workers {
    if workers.contains_key(id) {
        workers.insert(
            id,
            WorkerModel { running, idle, idle_cpu_pct, last_ping: now, ..workers[id] },
        )
    } else {
        workers
    }
}

spec fn filed_by_id(entries: Seq<(String, WorkerEntry)>) -> bool {
    forall|i: int|
        0 <= i < entries.len() ==> (#[trigger] entries[i]).1.worker_id@ == entries[i].0@
}

/// The table of registered workers.
pub struct WorkerTable {
    map: KeyedVec<String, WorkerEntry>,
    dead_timeout: u64,
}

impl View for WorkerTable {
    type V = Workers;

    closed spec fn view(&self) -> Workers {
        self.map@
    }
}

impl WorkerTable {
    /// The keys are different, and each entry is filed under its identifier.
    pub closed spec fn wf(&self) -> bool {
        &&& self.map.wf()
        &&& filed_by_id(self.map.entries@)
    }

    /// The dead timeout of the table.
    pub closed spec fn timeout(&self) -> u64 {
        self.dead_timeout
    }

    pub fn new(dead_timeout: u64) -> (r: Self)
        ensures
            r.wf(),
            r@ == Map::<Seq<char>, WorkerModel>::empty(),
            r.timeout() == dead_timeout,
    {
        WorkerTable { map: KeyedVec::new(), dead_timeout }
    }

    fn is_long_dead(&self, at: usize, now: u64) -> (r: bool)
        requires
            at < self.map.entries@.len(),
        ensures
            r == long_dead(self.map.entries@[at as int].1@, now, self.dead_timeout),
    {
        let silent: u128 = self.map.entries[at].1.last_ping_age(now) as u128;
        silent >= 20 * (self.dead_timeout as u128)
    }

    /// Drops the entries that have been silent for too long.
    fn reap(&mut self, now: u64)
        requires
            old(self).wf(),
        ensures
            final(self).wf(),
            final(self)@ == reaped(old(self)@, now, old(self).timeout()),
            final(self).timeout() == old(self).timeout(),
    {
        let ghost before = self.map@;
        let mut i: usize = 0;
        while i < self.map.entries.len()
            invariant
                self.map.wf(),
                filed_by_id(self.map.entries@),
                self.dead_timeout == old(self).dead_timeout,
                i <= self.map.entries@.len(),
                forall|id: Seq<char>| #[trigger]
                    self.map@.contains_key(id) ==> before.contains_key(id) && self.map@[id]
                        == before[id],
                forall|id: Seq<char>| #[trigger]
                    before.contains_key(id) && !long_dead(before[id], now, self.dead_timeout)
                        ==> self.map@.contains_key(id),
                forall|j: int|
                    0 <= j < i ==> !long_dead(
                        (#[trigger] self.map.entries@[j]).1@,
                        now,
                        self.dead_timeout,
                    ),
            decreases self.map.entries@.len() - i,
        {
            let dead = self.is_long_dead(i, now);
            proof {
                lemma_entry(self.map.entries@, i as int);
            }
            if dead {
                let ghost entries = self.map.entries@;
                let _ = self.map.remove_at(i);
                assert forall|j: int| 0 <= j < self.map.entries@.len() implies (
                #[trigger] self.map.entries@[j]).1.worker_id@ == self.map.entries@[j].0@ by {
                    let k = if j < i {
                        j
                    } else {
                        j + 1
                    };
                    assert(self.map.entries@[j] == entries[k]);
                }
                assert forall|j: int| 0 <= j < i implies !long_dead(
                    (#[trigger] self.map.entries@[j]).1@,
                    now,
                    self.dead_timeout,
                ) by {
                    assert(self.map.entries@[j] == entries[j]);
                }
            } else {
                i = i + 1;
            }
        }
        assert forall|id: Seq<char>| #[trigger] self.map@.contains_key(id) implies !long_dead(
            before[id],
            now,
            self.dead_timeout,
        ) by {
            assert(has_key(self.map.entries@, id));
            let j = key_index(self.map.entries@, id);
            lemma_entry(self.map.entries@, j);
        }
        assert(self.map@ =~= reaped(before, now, self.dead_timeout));
    }

    /// Registers a worker, or refreshes it, at the time `now`. While a worker is
    /// live its identifier cannot be taken over from another endpoint: `false`
    /// then, and the worker stays as it was.
    pub fn upsert_register(
        &mut self,
        worker_id: String,
        execution_endpoint: String,
        caps: Capabilities,
        now: u64,
    ) -> (r: bool)
        requires
            old(self).wf(),
        ensures
            final(self).wf(),
            final(self).timeout() == old(self).timeout(),
            r == !taken(old(self)@, worker_id@, execution_endpoint@, now, old(self).timeout()),
            final(self)@ == registered(
                old(self)@,
                worker_id@,
                execution_endpoint@,
                caps,
                now,
                old(self).timeout(),
            ),
    {
        self.reap(now);
        let found = self.map.find(&worker_id);
        if let Some(at) = found {
            let entry = &self.map.entries[at].1;
            if entry.execution_endpoint != execution_endpoint && entry.last_ping_age(now)
                < self.dead_timeout {
                return false;
            }
        }
        let entry = WorkerEntry {
            worker_id: worker_id.clone(),
            execution_endpoint,
            caps,
            running_actions: 0,
            idle_slots: caps.cpu_count,
            idle_cpu_pct: None,
            last_ping: now,
        };
        match found {
            Some(at) => {
                self.map.set_at(at, entry);
            },
            None => {
                self.map.add_entry(worker_id, entry);
            },
        }
        true
    }

    /// Records a heartbeat at the time `now`. One from an unknown worker is
    /// ignored.
    pub fn on_ping(
        &mut self,
        worker_id: &str,
        running_actions: u32,
        idle_slots: u32,
        idle_cpu_pct: Option<u32>,
        now: u64,
    )
        requires
            old(self).wf(),
        ensures
            final(self).wf(),
            final(self).timeout() == old(self).timeout(),
            final(self)@ == pinged(
                old(self)@,
                worker_id@,
                running_actions,
                idle_slots,
                idle_cpu_pct,
                now,
            ),
    {
        let id = worker_id.to_owned();
        if let Some(at) = self.map.find(&id) {
            let mut entry = self.map.entries[at].1.copy();
            entry.running_actions = running_actions;
            entry.idle_slots = idle_slots;
            entry.idle_cpu_pct = idle_cpu_pct;
            entry.last_ping = now;
            self.map.set_at(at, entry);
        }
    }

    /// Whether a worker is live at the time `now`.
    pub fn is_live(&self, worker_id: &str, now: u64) -> (r: bool)
        requires
            self.wf(),
        ensures
            r == live(self@, worker_id@, now, self.timeout()),
    {
        let id = worker_id.to_owned();
        match self.map.find(&id) {
            Some(at) => self.map.entries[at].1.last_ping_age(now) < self.dead_timeout,
            None => false,
        }
    }

    /// The workers that are live at the time `now`, each once, in no particular
    /// order.
    pub fn live_snapshot(&self, now: u64) -> (r: Vec<WorkerEntry>)
        requires
            self.wf(),
        ensures
            r@.len() == live_ids(self@, now, self.timeout()).len(),
            forall|i: int|
                0 <= i < r@.len() ==> live(
                    self@,
                    (#[trigger] r@[i])@.worker_id,
                    now,
                    self.timeout(),
                ) && self@[r@[i]@.worker_id] == r@[i]@,
            forall|i: int, j: int|
                0 <= i < j < r@.len() ==> (#[trigger] r@[i])@.worker_id != (
                #[trigger] r@[j])@.worker_id,
    {
        let ghost e = self.map.entries@;
        let ghost mut ids: Set<Seq<char>> = Set::empty();
        let mut r: Vec<WorkerEntry> = Vec::new();
        let mut i: usize = 0;
        while i < self.map.entries.len()
            invariant
                self.wf(),
                e == self.map.entries@,
                i <= e.len(),
                ids.finite(),
                r@.len() == ids.len(),
                forall|j: int|
                    0 <= j < r@.len() ==> live(
                        self@,
                        (#[trigger] r@[j])@.worker_id,
                        now,
                        self.dead_timeout,
                    ) && self@[r@[j]@.worker_id] == r@[j]@ && ids.contains(r@[j]@.worker_id),
                forall|j: int, k: int|
                    0 <= j < k < r@.len() ==> (#[trigger] r@[j])@.worker_id != (
                    #[trigger] r@[k])@.worker_id,
                forall|id: Seq<char>| #[trigger]
                    ids.contains(id) ==> live(self@, id, now, self.dead_timeout) && key_index(e, id)
                        < i,
                forall|j: int|
                    0 <= j < i && silence((#[trigger] e[j]).1@, now) < self.dead_timeout
                        ==> ids.contains(e[j].0@),
            decreases e.len() - i,
        {
            proof {
                lemma_entry(e, i as int);
            }
            if self.map.entries[i].1.last_ping_age(now) < self.dead_timeout {
                let entry = self.map.entries[i].1.copy();
                proof {
                    assert(entry@.worker_id == e[i as int].0@);
                    assert(!ids.contains(e[i as int].0@));
                    ids = ids.insert(e[i as int].0@);
                }
                r.push(entry);
            }
            i = i + 1;
        }
        proof {
            assert forall|id: Seq<char>| ids.contains(id) == live(
                self@,
                id,
                now,
                self.timeout(),
            ) by {
                if live(self@, id, now, self.timeout()) {
                    assert(has_key(e, id));
                    let j = key_index(e, id);
                    lemma_entry(e, j);
                }
            }
            assert(ids =~= live_ids(self@, now, self.timeout()));
        }
        r
    }

    /// How many workers are live at the time `now`.
    pub fn live_count(&self, now: u64) -> (r: usize)
        requires
            self.wf(),
        ensures
            r == live_ids(self@, now, self.timeout()).len(),
    {
        self.live_snapshot(now).len()
    }

    /// The endpoint that a worker is registered with.
    pub fn endpoint_of(&self, worker_id: &str) -> (r: Option<String>)
        requires
            self.wf(),
        ensures
            match r {
                Some(endpoint) => self@.contains_key(worker_id@) && endpoint@
                    == self@[worker_id@].endpoint,
                None => !self@.contains_key(worker_id@),
            },
    {
        let id = worker_id.to_owned();
        match self.map.find(&id) {
            Some(at) => Some(self.map.entries[at].1.execution_endpoint.clone()),
            None => None,
        }
    }

    /// How many workers the table holds, live or not.
    pub fn len(&self) -> (r: usize)
        requires
            self.wf(),
        ensures
            r == self@.dom().len(),
    {
        self.map.len()
    }
}

/// The answer to a worker that asks to register.
#[derive(Debug, Clone, PartialEq, Eq)]
pub struct RegisterReply {
    pub accepted: bool,
    pub detail: String,
}

/// Answers a worker that asks to register at the time `now`. A request without
/// an identifier or an endpoint is an error; `refused` is why the cluster token
/// was not accepted, if it was not.
pub fn register(
    table: &mut WorkerTable,
    worker_id: String,
    execution_endpoint: String,
    caps: Option<Capabilities>,
    refused: Option<String>,
    now: u64,
) -> (r: Result<RegisterReply, &'static str>)
    requires
        old(table).wf(),
    ensures
        final(table).wf(),
        final(table).timeout() == old(table).timeout(),
        match r {
            Err(reason) => {
                &&& final(table)@ == old(table)@
                &&& worker_id@.len() == 0 || execution_endpoint@.len() == 0
                &&& reason@ == if worker_id@.len() == 0 {
                    "worker_id is required"@
                } else {
                    "execution_endpoint is required"@
                }
            },
            Ok(reply) => {
                &&& worker_id@.len() > 0 && execution_endpoint@.len() > 0
                &&& match refused {
                    Some(reason) => {
                        &&& !reply.accepted
                        &&& reply.detail@ == reason@
                        &&& final(table)@ == old(table)@
                    },
                    None => {
                        let offered = match caps {
                            Some(caps) => caps,
                            None => (Capabilities { cpu_count: 0 }),
                        };
                        &&& reply.accepted == !taken(
                            old(table)@,
                            worker_id@,
                            execution_endpoint@,
                            now,
                            old(table).timeout(),
                        )
                        &&& reply.detail@ == if reply.accepted {
                            ""@
                        } else {
                            "worker_id already registered with a different execution endpoint"@
                        }
                        &&& final(table)@ == registered(
                            old(table)@,
                            worker_id@,
                            execution_endpoint@,
                            offered,
                            now,
                            old(table).timeout(),
                        )
                    },
                }
            },
        },
{
    if worker_id.as_str().is_empty() {
        return Err("worker_id is required");
    }
    if execution_endpoint.as_str().is_empty() {
        return Err("execution_endpoint is required");
    }
    if let Some(reason) = refused {
        return Ok(RegisterReply { accepted: false, detail: reason });
    }
    let caps = match caps {
        Some(caps) => caps,
        None => Capabilities { cpu_count: 0 },
    };
    let accepted = table.upsert_register(worker_id, execution_endpoint, caps, now);
    let detail = if accepted {
        "".to_owned()
    } else {
        "worker_id already registered with a different execution endpoint".to_owned()
    };
    Ok(RegisterReply { accepted, detail })
}

/// What a worker says in a heartbeat.
#[derive(Debug, Clone, PartialEq, Eq)]
pub struct Ping {
    pub worker_id: String,
    pub running_actions: u32,
    pub idle_slots: u32,
    pub idle_cpu_pct: Option<u32>,
}

/// Answers a heartbeat at the time `now`, `elapsed` microseconds after the agent
/// began, with that number. One without the cluster token ends the stream, and
/// counts for nothing.
pub fn heartbeat(
    table: &mut WorkerTable,
    authorized: bool,
    ping: &Ping,
    now: u64,
    elapsed: u128,
) -> (r: Option<u64>)
    requires
        old(table).wf(),
    ensures
        final(table).wf(),
        final(table).timeout() == old(table).timeout(),
        final(table)@ == if authorized {
            pinged(
                old(table)@,
                ping.worker_id@,
                ping.running_actions,
                ping.idle_slots,
                ping.idle_cpu_pct,
                now,
            )
        } else {
            old(table)@
        },
        match r {
            Some(told) => authorized && told == if elapsed <= u64::MAX {
                elapsed as int
            } else {
                u64::MAX as int
            },
            None => !authorized,
        },
{
    if !authorized {
        return None;
    }
    table.on_ping(
        ping.worker_id.as_str(),
        ping.running_actions,
        ping.idle_slots,
        ping.idle_cpu_pct,
        now,
    );
    if elapsed <= u64::MAX as u128 {
        Some(elapsed as u64)
    } else {
        Some(u64::MAX)
    }
}

/// While a worker is live, no registration moves its identifier to another
/// endpoint.
pub proof fn law_live_identity_is_not_taken_over(
    workers: Workers,
    id: Seq<char>,
    other: Seq<char>,
    endpoint: Seq<char>,
    caps: Capabilities,
    now: u64,
    dead_timeout: u64,
)
    requires
        live(workers, id, now, dead_timeout),
    ensures
        registered(workers, other, endpoint, caps, now, dead_timeout).contains_key(id),
        registered(workers, other, endpoint, caps, now, dead_timeout)[id].endpoint
            == workers[id].endpoint,
        live(registered(workers, other, endpoint, caps, now, dead_timeout), id, now, dead_timeout),
{
    assert(silence(workers[id], now) < REAP_FACTOR * dead_timeout);
}

/// A worker that has fallen silent for the dead timeout can be replaced under
/// its identifier, and one that keeps its endpoint can always register again.
pub proof fn law_silent_identity_can_be_reclaimed(
    workers: Workers,
    id: Seq<char>,
    endpoint: Seq<char>,
    caps: Capabilities,
    now: u64,
    dead_timeout: u64,
)
    requires
        !live(workers, id, now, dead_timeout) || workers[id].endpoint == endpoint,
        dead_timeout > 0,
    ensures
        !taken(workers, id, endpoint, now, dead_timeout),
        registered(workers, id, endpoint, caps, now, dead_timeout)[id].endpoint == endpoint,
        live(registered(workers, id, endpoint, caps, now, dead_timeout), id, now, dead_timeout),
{
}

/// After a registration no entry is left that has been silent for too long.
pub proof fn law_registration_drops_the_long_dead(
    workers: Workers,
    id: Seq<char>,
    endpoint: Seq<char>,
    caps: Capabilities,
    now: u64,
    dead_timeout: u64,
    other: Seq<char>,
)
    requires
        dead_timeout > 0,
        registered(workers, id, endpoint, caps, now, dead_timeout).contains_key(other),
    ensures
        !long_dead(
            registered(workers, id, endpoint, caps, now, dead_timeout)[other],
            now,
            dead_timeout,
        ),
{
}

/// A heartbeat makes a registered worker live and leaves every other as it is.
pub proof fn law_heartbeat_revives(
    workers: Workers,
    id: Seq<char>,
    running: u32,
    idle: u32,
    idle_cpu_pct: Option<u32>,
    now: u64,
    dead_timeout: u64,
    other: Seq<char>,
)
    requires
        dead_timeout > 0,
    ensures
        live(pinged(workers, id, running, idle, idle_cpu_pct, now), id, now, dead_timeout)
            <==> workers.contains_key(id),
        other != id ==> pinged(workers, id, running, idle, idle_cpu_pct, now).contains_key(other)
            == workers.contains_key(other),
        other != id && workers.contains_key(other) ==> pinged(
            workers,
            id,
            running,
            idle,
            idle_cpu_pct,
            now,
        )[other] == workers[other],
{
}

/// A worker is live exactly where it is registered and was heard from less than the dead
/// timeout ago.
pub proof fn law_live_workers_were_heard_lately(
    workers: Workers,
    id: Seq<char>,
    now: u64,
    dead_timeout: u64,
)
    ensures
        live(workers, id, now, dead_timeout) <==> {
            &&& workers.contains_key(id)
            &&& dead_timeout > 0
            &&& now < workers[id].last_ping + dead_timeout
        },
        live_ids(workers, now, dead_timeout).contains(id) <==> live(workers, id, now, dead_timeout),
{
}

/// A registration is refused exactly where another endpoint is registered under its
/// identifier and was heard from less than the dead timeout ago. Otherwise the worker is
/// there under its endpoint, with what it offers, as idle as it can be and just heard.
pub proof fn law_registrations_are_taken_as_offered(
    workers: Workers,
    id: Seq<char>,
    endpoint: Seq<char>,
    caps: Capabilities,
    now: u64,
    dead_timeout: u64,
)
    ensures
        taken(workers, id, endpoint, now, dead_timeout) <==> {
            &&& workers.contains_key(id)
            &&& workers[id].endpoint != endpoint
            &&& dead_timeout > 0 && now < workers[id].last_ping + dead_timeout
        },
        !taken(workers, id, endpoint, now, dead_timeout) ==> {
            let w = registered(workers, id, endpoint, caps, now, dead_timeout)[id];
            &&& registered(workers, id, endpoint, caps, now, dead_timeout).contains_key(id)
            &&& w.worker_id == id && w.endpoint == endpoint && w.caps == caps
            &&& w.running == 0 && w.idle == caps.cpu_count && w.idle_cpu_pct is None
            &&& w.last_ping == now
        },
        taken(workers, id, endpoint, now, dead_timeout) ==> registered(
            workers,
            id,
            endpoint,
            caps,
            now,
            dead_timeout,
        )[id] == workers[id],
{
}

/// A registration leaves every other worker as it was, but for those that have not been
/// heard from for twenty dead timeouts, which are gone.
pub proof fn law_registrations_spare_the_others(
    workers: Workers,
    id: Seq<char>,
    endpoint: Seq<char>,
    caps: Capabilities,
    now: u64,
    dead_timeout: u64,
    other: Seq<char>,
)
    requires
        other != id,
    ensures
        ({
            let after = registered(workers, id, endpoint, caps, now, dead_timeout);
            &&& after.contains_key(other) <==> workers.contains_key(other) && dead_timeout > 0
                && now < workers[other].last_ping + 20 * dead_timeout
            &&& after.contains_key(other) ==> after[other] == workers[other]
        }),
{
}

/// A heartbeat is taken in as it is told: the capacity is the one that it tells, the worker
/// was just heard, and where it is and what it offers stay. One from an unknown worker
/// changes nothing.
pub proof fn law_heartbeats_tell_the_capacity(
    workers: Workers,
    id: Seq<char>,
    running: u32,
    idle: u32,
    idle_cpu_pct: Option<u32>,
    now: u64,
)
    ensures
        workers.contains_key(id) ==> {
            let w = pinged(workers, id, running, idle, idle_cpu_pct, now)[id];
            &&& w.running == running && w.idle == idle && w.idle_cpu_pct == idle_cpu_pct
            &&& w.last_ping == now
            &&& w.worker_id == workers[id].worker_id && w.endpoint == workers[id].endpoint
            &&& w.caps == workers[id].caps
        },
        !workers.contains_key(id) ==> pinged(workers, id, running, idle, idle_cpu_pct, now)
            == workers,
{
}

} // verus!
