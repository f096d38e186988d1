//! Bounded live view of the attempts that the agent is making at its actions.
//!
//! An attempt moves forward through its states and ends in a terminal one. A
//! running attempt occupies a display lane of its worker. Finished attempts are
//! kept for [`ACTIVITY_TTL`] and are the only ones that make room for others.

pub mod history;
pub mod label;

pub use label::display_name;

use crate::digest::{digest_of, digest_text};
use crate::keyed::{lemma_entry, lemma_len, KeyedVec, MapKey};
use crate::text::{
    chars_of, lemma_bytes_irreflexive, lemma_bytes_transitive, lemma_text_total, string_of,
    text_before, text_precedes,
};
use std::collections::VecDeque;
use vstd::prelude::*;

verus! {

/// How long a finished attempt stays visible, in nanoseconds.
pub const ACTIVITY_TTL: u64 = 60_000_000_000;

/// How many attempts are held at most.
pub const MAX_ACTIVITY_ATTEMPTS: usize = 4096;

/// How many characters a display name has at most.
pub const MAX_DISPLAY_CHARS: usize = 128;

/// How many characters an identifier has at most.
pub const MAX_ID_CHARS: usize = 128;

/// Identifies one attempt at an action.
#[derive(Debug, PartialEq, Eq, Hash)]
pub struct AttemptKey {
    pub action_id: String,
    pub attempt_no: u32,
}

impl View for AttemptKey {
    type V = (Seq<char>, u32);

    open spec fn view(&self) -> (Seq<char>, u32) {
        (self.action_id@, self.attempt_no)
    }
}

impl Clone for AttemptKey {
    fn clone(&self) -> (r: Self)
        ensures
            r@ == self@,
    {
        AttemptKey { action_id: self.action_id.clone(), attempt_no: self.attempt_no }
    }
}

impl MapKey for AttemptKey {
    fn same_key(&self, other: &Self) -> (r: bool) {
        self.attempt_no == other.attempt_no && self.action_id == other.action_id
    }
}

/// Where an attempt runs.
#[derive(Clone, Copy, Debug, PartialEq, Eq, Structural)]
pub enum ExecutionKind {
    Remote,
    Local,
    Fallback,
}

/// The stage that an attempt has reached.
#[derive(Clone, Copy, Debug, PartialEq, Eq, Structural)]
pub enum ActivityState {
    Created,
    Queued,
    Preparing,
    Running,
    Completed,
    Failed,
    Interrupted,
}

impl ActivityState {
    pub open spec fn terminal(self) -> bool {
        self is Completed || self is Failed || self is Interrupted
    }

    /// The position of the state on the way from creation to the end.
    pub open spec fn rank(self) -> nat {
        match self {
            ActivityState::Created => 0,
            ActivityState::Queued => 1,
            ActivityState::Preparing => 2,
            ActivityState::Running => 3,
            _ => 4,
        }
    }

    /// Whether the attempt has ended.
    pub fn is_terminal(self) -> (r: bool)
        ensures
            r == self.terminal(),
    {
        matches!(self, ActivityState::Completed | ActivityState::Failed | ActivityState::Interrupted)
    }
}

fn state_rank(state: ActivityState) -> (r: u8)
    ensures
        r == state.rank(),
{
    match state {
        ActivityState::Created => 0,
        ActivityState::Queued => 1,
        ActivityState::Preparing => 2,
        ActivityState::Running => 3,
        ActivityState::Completed | ActivityState::Failed | ActivityState::Interrupted => 4,
    }
}

/// One attempt as an observer sees it. Ages and the duration are nanoseconds.
#[derive(Clone, Debug, PartialEq, Eq)]
pub struct ActivitySnapshot {
    pub key: AttemptKey,
    pub worker_id: String,
    pub execution_kind: ExecutionKind,
    pub display_name: String,
    pub state: ActivityState,
    pub lane_index: u32,
    pub started_age: u64,
    pub finished_age: Option<u64>,
    pub duration: u64,
}

/// What the tracker holds of one attempt.
#[verifier::ext_equal]
pub struct AttemptModel {
    pub worker: Seq<char>,
    pub kind: ExecutionKind,
    pub display: Seq<char>,
    pub state: ActivityState,
    pub lane: u32,
    pub started: u64,
    pub finished: Option<u64>,
}

/// The lanes of one worker: those below `next` have been handed out, those in
/// `free` were given back, and `active` of them are occupied.
#[verifier::ext_equal]
pub struct LaneModel {
    pub next: u32,
    pub free: Set<u32>,
    pub active: nat,
}

/// The tracker as a whole. `order` lists the finished attempts, oldest first.
#[verifier::ext_equal]
pub struct TrackerModel {
    pub attempts: Map<(Seq<char>, u32), AttemptModel>,
    pub order: Seq<(Seq<char>, u32)>,
    pub lanes: Map<Seq<char>, LaneModel>,
    pub rejected: u64,
}

/// The nanoseconds from `earlier` to `later`, zero when `later` is not later.
pub open spec fn age_of(later: u64, earlier: u64) -> u64 {
    if later >= earlier {
        (later - earlier) as u64
    } else {
        0
    }
}

fn age(later: u64, earlier: u64) -> (r: u64)
    ensures
        r == age_of(later, earlier),
{
    later.saturating_sub(earlier)
}

/// The keys of the attempts that run on the worker `w`.
pub open spec fn running_on(
    attempts: Map<(Seq<char>, u32), AttemptModel>,
    w: Seq<char>,
) -> Set<(Seq<char>, u32)> {
    attempts.dom().filter(
        |k: (Seq<char>, u32)| attempts[k].state is Running && attempts[k].worker == w,
    )
}

impl TrackerModel {
    pub open spec fn empty() -> TrackerModel {
        TrackerModel {
            attempts: Map::empty(),
            order: Seq::empty(),
            lanes: Map::empty(),
            rejected: 0,
        }
    }

    /// The lanes of worker `w` fit the attempts that run on it: every running
    /// attempt has a lane of its own, no free lane is occupied, and every lane
    /// handed out so far is either free or occupied.
    pub open spec fn lanes_fit(self, w: Seq<char>) -> bool {
        let running = running_on(self.attempts, w);
        if self.lanes.contains_key(w) {
            let l = self.lanes[w];
            &&& l.active == running.len()
            &&& l.active > 0
            &&& l.free.finite()
            &&& l.next == 1 + l.active + l.free.len()
            &&& forall|x: u32| l.free.contains(x) ==> 1 <= x < l.next
            &&& forall|k: (Seq<char>, u32)| #[trigger]
                running.contains(k) ==> {
                    &&& 1 <= self.attempts[k].lane < l.next
                    &&& !l.free.contains(self.attempts[k].lane)
                }
            &&& forall|k: (Seq<char>, u32), j: (Seq<char>, u32)| #[trigger]
                running.contains(k) && #[trigger] running.contains(j) && k != j
                    ==> self.attempts[k].lane != self.attempts[j].lane
        } else {
            forall|k: (Seq<char>, u32)| !(#[trigger] running.contains(k))
        }
    }

    /// What holds of the tracker between calls.
    pub open spec fn consistent(self) -> bool {
        &&& self.attempts.dom().finite()
        &&& self.attempts.dom().len() <= MAX_ACTIVITY_ATTEMPTS
        &&& self.order.no_duplicates()
        &&& forall|k: (Seq<char>, u32)| #[trigger]
            self.order.contains(k) <==> self.attempts.contains_key(k)
                && self.attempts[k].state.terminal()
        &&& forall|k: (Seq<char>, u32)| #[trigger]
            self.attempts.contains_key(k) ==> {
                let a = self.attempts[k];
                &&& a.state.terminal() <==> a.finished is Some
                &&& !a.state.terminal() && !(a.state is Running) ==> a.lane == 0
                &&& a.state is Running ==> a.lane != 0
            }
        &&& forall|w: Seq<char>| #[trigger] self.lanes_fit(w)
    }

    /// A request that is not followed is only counted.
    pub open spec fn reject(self) -> TrackerModel {
        TrackerModel {
            rejected: if self.rejected == u64::MAX {
                u64::MAX
            } else {
                (self.rejected + 1) as u64
            },
            ..self
        }
    }

    /// The lanes of worker `w`; a worker without any starts at lane 1.
    pub open spec fn lanes_of(self, w: Seq<char>) -> LaneModel {
        if self.lanes.contains_key(w) {
            self.lanes[w]
        } else {
            LaneModel { next: 1, free: Set::empty(), active: 0 }
        }
    }

    /// Moves the attempt `k` to the state `next` at the time `now`. Unknown
    /// attempts, changes of a terminal state and steps back are rejected.
    pub open spec fn advance(
        self,
        k: (Seq<char>, u32),
        next: ActivityState,
        now: u64,
    ) -> TrackerModel {
        let a = self.attempts[k];
        if !self.attempts.contains_key(k) {
            self.reject()
        } else if a.state == next {
            self
        } else if a.state.terminal() || next.rank() < a.state.rank() {
            self.reject()
        } else if next is Running {
            let l = self.lanes_of(a.worker);
            TrackerModel {
                attempts: self.attempts.insert(
                    k,
                    AttemptModel { state: next, lane: next_lane(l), ..a },
                ),
                lanes: self.lanes.insert(a.worker, occupied(l)),
                ..self
            }
        } else if next.terminal() {
            TrackerModel {
                attempts: self.attempts.insert(
                    k,
                    AttemptModel { state: next, finished: Some(now), ..a },
                ),
                order: self.order.push(k),
                lanes: if a.lane != 0 {
                    given_back(self.lanes, a.worker, a.lane)
                } else {
                    self.lanes
                },
                ..self
            }
        } else {
            TrackerModel {
                attempts: self.attempts.insert(k, AttemptModel { state: next, ..a }),
                ..self
            }
        }
    }

    /// Ends the attempt `k`; only a terminal state can end it.
    pub open spec fn end(
        self,
        k: (Seq<char>, u32),
        terminal: ActivityState,
        now: u64,
    ) -> TrackerModel {
        if terminal.terminal() {
            self.advance(k, terminal, now)
        } else {
            self.reject()
        }
    }

    /// Forgets the attempt that finished first.
    pub open spec fn forget_oldest(self) -> TrackerModel {
        TrackerModel {
            attempts: self.attempts.remove(self.order[0]),
            order: self.order.drop_first(),
            ..self
        }
    }

    /// Whether the attempt that finished first has been kept long enough.
    pub open spec fn oldest_expired(self, now: u64) -> bool {
        &&& self.order.len() > 0
        &&& match self.attempts[self.order[0]].finished {
            Some(finished) => age_of(now, finished) >= ACTIVITY_TTL,
            None => true,
        }
    }

    /// Forgets finished attempts in the order in which they finished, up to the
    /// first one that is still to be kept.
    pub open spec fn pruned(self, now: u64) -> TrackerModel
        decreases self.order.len(),
    {
        if self.oldest_expired(now) {
            self.forget_oldest().pruned(now)
        } else {
            self
        }
    }

    /// The tracker with room for one more attempt, where there is any.
    pub open spec fn with_room(self) -> TrackerModel {
        if self.attempts.dom().len() >= MAX_ACTIVITY_ATTEMPTS && self.order.len() > 0 {
            self.forget_oldest()
        } else {
            self
        }
    }

    /// Whether an attempt with the key `k` can begin at the time `now`.
    pub open spec fn admits(self, k: (Seq<char>, u32), now: u64) -> bool {
        let m = self.pruned(now);
        &&& !m.attempts.contains_key(k)
        &&& m.attempts.dom().len() < MAX_ACTIVITY_ATTEMPTS || m.order.len() > 0
    }

    /// Begins the attempt `k`, where it can.
    pub open spec fn begun(
        self,
        k: (Seq<char>, u32),
        worker: Seq<char>,
        kind: ExecutionKind,
        display: Seq<char>,
        now: u64,
    ) -> TrackerModel {
        let m = self.pruned(now);
        if self.admits(k, now) {
            let roomy = m.with_room();
            TrackerModel {
                attempts: roomy.attempts.insert(
                    k,
                    AttemptModel {
                        worker,
                        kind,
                        display,
                        state: ActivityState::Created,
                        lane: 0,
                        started: now,
                        finished: None,
                    },
                ),
                ..roomy
            }
        } else {
            m
        }
    }
}

/// The least element of a non-empty set of lanes.
pub open spec fn lowest(lanes: Set<u32>) -> u32 {
    choose|x: u32| lanes.contains(x) && forall|y: u32| lanes.contains(y) ==> x <= y
}

/// The lane that the next running attempt gets: the lowest free one, else a new
/// one.
pub open spec fn next_lane(l: LaneModel) -> u32 {
    if l.free.len() == 0 {
        l.next
    } else {
        lowest(l.free)
    }
}

/// The lanes after one more attempt has started to run.
pub open spec fn occupied(l: LaneModel) -> LaneModel {
    if l.free.len() == 0 {
        LaneModel {
            next: if l.next == u32::MAX {
                u32::MAX
            } else {
                (l.next + 1) as u32
            },
            active: l.active + 1,
            ..l
        }
    } else {
        LaneModel { free: l.free.remove(lowest(l.free)), active: l.active + 1, ..l }
    }
}

/// The lanes after worker `w` got its lane `lane` back; with no lane occupied
/// the worker starts afresh.
pub open spec fn given_back(
    lanes: Map<Seq<char>, LaneModel>,
    w: Seq<char>,
    lane: u32,
) -> Map<Seq<char>, LaneModel> {
    let l = lanes[w];
    if !lanes.contains_key(w) {
        lanes
    } else if l.active <= 1 {
        lanes.remove(w)
    } else {
        lanes.insert(
            w,
            LaneModel { free: l.free.insert(lane), active: (l.active - 1) as nat, ..l },
        )
    }
}

pub proof fn lemma_lowest(lanes: Set<u32>)
    requires
        lanes.finite(),
        lanes.len() > 0,
    ensures
        lanes.contains(lowest(lanes)),
        forall|y: u32| lanes.contains(y) ==> lowest(lanes) <= y,
    decreases lanes.len(),
{
    let a = lanes.choose();
    let rest = lanes.remove(a);
    if rest.len() == 0 {
        assert forall|y: u32| lanes.contains(y) implies a <= y by {
            if y != a {
                assert(rest.contains(y));
            }
        }
    } else {
        lemma_lowest(rest);
        let b = lowest(rest);
        let c = if a < b {
            a
        } else {
            b
        };
        assert(lanes.contains(c) && forall|y: u32| lanes.contains(y) ==> c <= y) by {
            assert forall|y: u32| lanes.contains(y) implies c <= y by {
                if y != a {
                    assert(rest.contains(y));
                }
            }
        }
    }
}

proof fn lemma_running_bound(m: TrackerModel, w: Seq<char>, k: (Seq<char>, u32))
    requires
        m.attempts.dom().finite(),
        m.attempts.contains_key(k),
        !(m.attempts[k].state is Running),
    ensures
        running_on(m.attempts, w).finite(),
        running_on(m.attempts, w).len() + 1 <= m.attempts.dom().len(),
{
    let running = running_on(m.attempts, w);
    let others = m.attempts.dom().remove(k);
    assert(running.subset_of(others));
    vstd::set_lib::lemma_len_subset(running, others);
}

pub proof fn lemma_running_finite(m: TrackerModel, w: Seq<char>)
    requires
        m.attempts.dom().finite(),
    ensures
        running_on(m.attempts, w).finite(),
{
    vstd::set_lib::lemma_len_subset(running_on(m.attempts, w), m.attempts.dom());
}

/// Moving an attempt keeps the tracker consistent.
pub proof fn lemma_advance_consistent(
    m: TrackerModel,
    k: (Seq<char>, u32),
    next: ActivityState,
    now: u64,
)
    requires
        m.consistent(),
    ensures
        m.advance(k, next, now).consistent(),
{
    let n = m.advance(k, next, now);
    let a = m.attempts[k];
    if !m.attempts.contains_key(k) || a.state == next || a.state.terminal() || next.rank()
        < a.state.rank() {
        assert(n.attempts == m.attempts && n.order == m.order && n.lanes == m.lanes);
        assert forall|w: Seq<char>| #[trigger] n.lanes_fit(w) by {
            assert(m.lanes_fit(w));
        }
    } else {
        let b = n.attempts[k];
        assert(n.attempts.dom() =~= m.attempts.dom());
        assert(m.lanes_fit(a.worker));
        assert forall|w: Seq<char>| w != a.worker implies #[trigger] n.lanes_fit(w) by {
            assert(m.lanes_fit(w));
            assert(running_on(n.attempts, w) =~= running_on(m.attempts, w));
        }
        assert(!m.order.contains(k));
        let w = a.worker;
        let before = running_on(m.attempts, w);
        let after = running_on(n.attempts, w);
        lemma_running_finite(m, w);
        if next is Running {
            lemma_running_bound(m, w, k);
            assert(!before.contains(k));
            assert(after =~= before.insert(k));
            let l = m.lanes_of(w);
            let lane = next_lane(l);
            assert(before.len() == l.active) by {
                if !m.lanes.contains_key(w) {
                    assert(before =~= Set::<(Seq<char>, u32)>::empty());
                }
            }
            if l.free.len() > 0 {
                lemma_lowest(l.free);
            } else {
                assert(l.free =~= Set::<u32>::empty());
            }
            assert(n.lanes_fit(w));
            assert forall|x: (Seq<char>, u32)| #[trigger]
                n.order.contains(x) <==> n.attempts.contains_key(x)
                    && n.attempts[x].state.terminal() by {
                assert(m.order.contains(x) <==> m.attempts.contains_key(x)
                    && m.attempts[x].state.terminal());
            }
        } else if next.terminal() {
            if a.state is Running {
                assert(before.contains(k));
                assert(after =~= before.remove(k));
                let l = m.lanes[w];
                if l.active > 1 {
                    assert(n.lanes[w].free =~= l.free.insert(a.lane));
                } else {
                    assert(after.len() == 0);
                    assert(after =~= Set::<(Seq<char>, u32)>::empty());
                }
            } else {
                assert(after =~= before);
            }
            assert(n.lanes_fit(w));
            assert forall|x: (Seq<char>, u32)| #[trigger]
                n.order.contains(x) <==> n.attempts.contains_key(x)
                    && n.attempts[x].state.terminal() by {
                assert(m.order.contains(x) <==> m.attempts.contains_key(x)
                    && m.attempts[x].state.terminal());
                if x == k {
                    assert(n.order[m.order.len() as int] == x);
                } else if m.order.contains(x) {
                    let i = m.order.index_of(x);
                    assert(n.order[i] == x);
                } else if n.order.contains(x) {
                    let i = n.order.index_of(x);
                    assert(m.order[i] == x);
                }
            }
        } else {
            assert(after =~= before);
            assert(n.lanes_fit(w));
            assert forall|x: (Seq<char>, u32)| #[trigger]
                n.order.contains(x) <==> n.attempts.contains_key(x)
                    && n.attempts[x].state.terminal() by {
                assert(m.order.contains(x) <==> m.attempts.contains_key(x)
                    && m.attempts[x].state.terminal());
            }
        }
        assert forall|w2: Seq<char>| #[trigger] n.lanes_fit(w2) by {
            if w2 == w {
                assert(n.lanes_fit(w));
            }
        }
        assert forall|x: (Seq<char>, u32)| #[trigger] n.attempts.contains_key(x) implies {
            let c = n.attempts[x];
            &&& c.state.terminal() <==> c.finished is Some
            &&& !c.state.terminal() && !(c.state is Running) ==> c.lane == 0
            &&& c.state is Running ==> c.lane != 0
        } by {
            assert(m.attempts.contains_key(x));
        }
    }
}

pub proof fn lemma_forget_consistent(m: TrackerModel)
    requires
        m.consistent(),
        m.order.len() > 0,
    ensures
        m.forget_oldest().consistent(),
        m.attempts.contains_key(m.order[0]),
        m.attempts[m.order[0]].state.terminal(),
        m.forget_oldest().attempts.dom().len() == m.attempts.dom().len() - 1,
{
    let n = m.forget_oldest();
    let gone = m.order[0];
    assert(m.order.contains(gone));
    assert(n.attempts.dom() =~= m.attempts.dom().remove(gone));
    assert forall|w: Seq<char>| #[trigger] n.lanes_fit(w) by {
        assert(m.lanes_fit(w));
        assert(running_on(n.attempts, w) =~= running_on(m.attempts, w));
    }
    assert forall|x: (Seq<char>, u32)| #[trigger]
        n.order.contains(x) <==> n.attempts.contains_key(x) && n.attempts[x].state.terminal() by {
        assert(m.order.contains(x) <==> m.attempts.contains_key(x)
            && m.attempts[x].state.terminal());
        if n.order.contains(x) {
            let i = n.order.index_of(x);
            assert(m.order[i + 1] == x);
            assert(x != gone);
        }
        if m.order.contains(x) && x != gone {
            let i = m.order.index_of(x);
            assert(n.order[i - 1] == x);
        }
    }
    assert forall|x: (Seq<char>, u32)| #[trigger] n.attempts.contains_key(x) implies {
        let c = n.attempts[x];
        &&& c.state.terminal() <==> c.finished is Some
        &&& !c.state.terminal() && !(c.state is Running) ==> c.lane == 0
        &&& c.state is Running ==> c.lane != 0
    } by {
        assert(m.attempts.contains_key(x));
    }
}

/// Pruning keeps the tracker consistent and touches finished attempts only.
pub proof fn lemma_pruned_consistent(m: TrackerModel, now: u64)
    requires
        m.consistent(),
    ensures
        m.pruned(now).consistent(),
        m.pruned(now).attempts.submap_of(m.attempts),
        forall|k: (Seq<char>, u32)| #[trigger]
            m.attempts.contains_key(k) && !m.attempts[k].state.terminal()
                ==> m.pruned(now).attempts.contains_key(k),
    decreases m.order.len(),
{
    if m.oldest_expired(now) {
        lemma_forget_consistent(m);
        let f = m.forget_oldest();
        lemma_pruned_consistent(f, now);
        assert forall|k: (Seq<char>, u32)| #[trigger]
            m.attempts.contains_key(k) && !m.attempts[k].state.terminal() implies m.pruned(
            now,
        ).attempts.contains_key(k) by {
            assert(f.attempts.contains_key(k));
        }
        assert(m.pruned(now).attempts.submap_of(m.attempts)) by {
            assert(f.attempts.submap_of(m.attempts));
        }
    }
}

/// Beginning an attempt keeps the tracker consistent.
pub proof fn lemma_begun_consistent(
    m: TrackerModel,
    k: (Seq<char>, u32),
    worker: Seq<char>,
    kind: ExecutionKind,
    display: Seq<char>,
    now: u64,
)
    requires
        m.consistent(),
    ensures
        m.begun(k, worker, kind, display, now).consistent(),
{
    lemma_pruned_consistent(m, now);
    if m.admits(k, now) {
        let p = m.pruned(now);
        if p.order.len() > 0 {
            lemma_forget_consistent(p);
        }
        let r = p.with_room();
        let n = m.begun(k, worker, kind, display, now);
        assert(!r.attempts.contains_key(k));
        assert(n.attempts.dom() =~= r.attempts.dom().insert(k));
        assert forall|w: Seq<char>| #[trigger] n.lanes_fit(w) by {
            assert(r.lanes_fit(w));
            assert(running_on(n.attempts, w) =~= running_on(r.attempts, w));
        }
        assert forall|x: (Seq<char>, u32)| #[trigger]
            n.order.contains(x) <==> n.attempts.contains_key(x)
                && n.attempts[x].state.terminal() by {
            assert(r.order.contains(x) <==> r.attempts.contains_key(x)
                && r.attempts[x].state.terminal());
        }
        assert forall|x: (Seq<char>, u32)| #[trigger] n.attempts.contains_key(x) implies {
            let c = n.attempts[x];
            &&& c.state.terminal() <==> c.finished is Some
            &&& !c.state.terminal() && !(c.state is Running) ==> c.lane == 0
            &&& c.state is Running ==> c.lane != 0
        } by {
            if x != k {
                assert(r.attempts.contains_key(x));
            }
        }
    }
}

/// The time on the clock of a tracker, in nanoseconds from an origin of the
/// clock's own choosing.
pub trait TrackerClock {
    fn now(&self) -> u64;
}

/// `std::time::Instant`, an opaque reading of the monotonic clock.
#[verifier::external_type_specification]
#[verifier::external_body]
pub struct ExInstant(std::time::Instant);

/// `Instant::now`: a reading of the monotonic clock. Nothing is claimed of it.
#[verifier::external_body]
fn instant_now() -> std::time::Instant {
    std::time::Instant::now()
}

/// `Instant::elapsed` in nanoseconds. Nothing is claimed of it.
#[verifier::external_body]
fn nanos_since(origin: &std::time::Instant) -> u128 {
    origin.elapsed().as_nanos()
}

/// The reading of a clock that was set up `elapsed` nanoseconds ago: that number, or
/// the largest reading where it is larger.
pub fn clock_reading(elapsed: u128) -> (r: u64)
    ensures
        r == if elapsed <= u64::MAX {
            elapsed as int
        } else {
            u64::MAX as int
        },
{
    if elapsed <= u64::MAX as u128 {
        elapsed as u64
    } else {
        u64::MAX
    }
}

/// The monotonic clock of the machine, read from the moment it was set up. Nothing
/// is promised of a reading, which rests on the machine; what becomes of the time
/// that has passed is said by [`clock_reading`].
pub struct SystemClock {
    origin: std::time::Instant,
}

impl SystemClock {
    pub fn new() -> Self {
        SystemClock { origin: instant_now() }
    }
}

impl TrackerClock for SystemClock {
    fn now(&self) -> u64 {
        clock_reading(nanos_since(&self.origin))
    }
}

/// What the tracker holds of one attempt.
struct AttemptRecord {
    worker_id: String,
    execution_kind: ExecutionKind,
    display_name: String,
    state: ActivityState,
    lane_index: u32,
    started_at: u64,
    finished_at: Option<u64>,
}

impl View for AttemptRecord {
    type V = AttemptModel;

    closed spec fn view(&self) -> AttemptModel {
        AttemptModel {
            worker: self.worker_id@,
            kind: self.execution_kind,
            display: self.display_name@,
            state: self.state,
            lane: self.lane_index,
            started: self.started_at,
            finished: self.finished_at,
        }
    }
}

/// The lanes of one worker.
struct LaneAllocator {
    next_lane: u32,
    free_lanes: Vec<u32>,
    active: usize,
}

impl View for LaneAllocator {
    type V = LaneModel;

    closed spec fn view(&self) -> LaneModel {
        LaneModel {
            next: self.next_lane,
            free: self.free_lanes@.to_set(),
            active: self.active as nat,
        }
    }
}

impl LaneAllocator {
    spec fn wf(self) -> bool {
        self.free_lanes@.no_duplicates()
    }

    fn fresh() -> (r: Self)
        ensures
            r.wf(),
            r@ == (LaneModel { next: 1, free: Set::empty(), active: 0 }),
    {
        let r = LaneAllocator { next_lane: 1, free_lanes: Vec::new(), active: 0 };
        assert(r@.free =~= Set::<u32>::empty());
        r
    }

    /// Takes the lowest free lane, else a new one.
    fn allocate(&mut self) -> (r: u32)
        requires
            old(self).wf(),
            old(self)@.active < usize::MAX,
        ensures
            final(self).wf(),
            r == next_lane(old(self)@),
            final(self)@ == occupied(old(self)@),
    {
        let ghost before = self.free_lanes@;
        proof {
            before.unique_seq_to_set();
            vstd::seq_lib::seq_to_set_is_finite(before);
        }
        self.active = self.active + 1;
        if self.free_lanes.len() == 0 {
            let lane: u32 = self.next_lane;
            self.next_lane = self.next_lane.saturating_add(1);
            return lane;
        }
        let mut at: usize = 0;
        let mut i: usize = 1;
        while i < self.free_lanes.len()
            invariant
                self.free_lanes@ == before,
                at < i <= before.len(),
                forall|j: int| 0 <= j < i ==> before[at as int] <= #[trigger] before[j],
            decreases before.len() - i,
        {
            if self.free_lanes[i] < self.free_lanes[at] {
                at = i;
            }
            i = i + 1;
        }
        let lane: u32 = self.free_lanes.remove(at);
        proof {
            lemma_lowest(before.to_set());
            assert(before.to_set().contains(before[at as int]));
            let low = lowest(before.to_set());
            assert(before.contains(low));
            assert(lane == low);
            let after = before.remove(at as int);
            assert forall|x: u32| after.contains(x) <==> before.contains(x) && x != lane by {
                if after.contains(x) {
                    let j = after.index_of(x);
                    let b = if j < at {
                        j
                    } else {
                        j + 1
                    };
                    assert(before[b] == x);
                }
                if before.contains(x) && x != lane {
                    let j = before.index_of(x);
                    let b = if j < at {
                        j
                    } else {
                        j - 1
                    };
                    assert(after[b] == x);
                }
            }
            assert(after.to_set() =~= before.to_set().remove(lane));
            assert(after.no_duplicates());
        }
        lane
    }
}

/// The attempts, the finished ones in their order, and the lanes.
struct TrackerState {
    attempts: KeyedVec<AttemptKey, AttemptRecord>,
    terminal_order: VecDeque<AttemptKey>,
    worker_lanes: KeyedVec<String, LaneAllocator>,
    rejected_transitions: u64,
}

spec fn keys_of(order: Seq<AttemptKey>) -> Seq<(Seq<char>, u32)> {
    Seq::new(order.len(), |i: int| order[i]@)
}

impl View for TrackerState {
    type V = TrackerModel;

    closed spec fn view(&self) -> TrackerModel {
        TrackerModel {
            attempts: self.attempts@,
            order: keys_of(self.terminal_order@),
            lanes: self.worker_lanes@,
            rejected: self.rejected_transitions,
        }
    }
}

impl TrackerState {
    spec fn wf(self) -> bool {
        &&& self.attempts.wf()
        &&& self.worker_lanes.wf()
        &&& forall|i: int|
            0 <= i < self.worker_lanes.entries@.len()
                ==> (#[trigger] self.worker_lanes.entries@[i]).1.wf()
        &&& self@.consistent()
    }

    fn new() -> (r: Self)
        ensures
            r.wf(),
            r@ == TrackerModel::empty(),
    {
        let r = TrackerState {
            attempts: KeyedVec::new(),
            terminal_order: VecDeque::new(),
            worker_lanes: KeyedVec::new(),
            rejected_transitions: 0,
        };
        assert(r@ =~= TrackerModel::empty());
        assert forall|w: Seq<char>| #[trigger] r@.lanes_fit(w) by {}
        r
    }

    fn reject(&mut self)
        requires
            old(self).wf(),
        ensures
            final(self).wf(),
            final(self)@ == old(self)@.reject(),
    {
        self.rejected_transitions = self.rejected_transitions.saturating_add(1);
        proof {
            assert forall|w: Seq<char>| #[trigger] self@.lanes_fit(w) by {
                assert(old(self)@.lanes_fit(w));
            }
        }
    }

    /// Gives the lane of a running attempt of worker `worker`.
    fn allocate_lane(&mut self, worker: &String) -> (r: u32)
        requires
            old(self).attempts.wf(),
            old(self).worker_lanes.wf(),
            forall|i: int|
                0 <= i < old(self).worker_lanes.entries@.len()
                    ==> (#[trigger] old(self).worker_lanes.entries@[i]).1.wf(),
            old(self)@.lanes_of(worker@).active < usize::MAX,
        ensures
            final(self).worker_lanes.wf(),
            forall|i: int|
                0 <= i < final(self).worker_lanes.entries@.len()
                    ==> (#[trigger] final(self).worker_lanes.entries@[i]).1.wf(),
            final(self).attempts == old(self).attempts,
            final(self).terminal_order == old(self).terminal_order,
            final(self).rejected_transitions == old(self).rejected_transitions,
            r == next_lane(old(self)@.lanes_of(worker@)),
            final(self).worker_lanes@ == old(self).worker_lanes@.insert(
                worker@,
                occupied(old(self)@.lanes_of(worker@)),
            ),
    {
        let ghost lanes = self.worker_lanes@;
        let mut allocator = match self.worker_lanes.find(worker) {
            Some(at) => {
                let (_, allocator) = self.worker_lanes.remove_at(at);
                allocator
            },
            None => LaneAllocator::fresh(),
        };
        let lane: u32 = allocator.allocate();
        self.worker_lanes.add_entry(worker.clone(), allocator);
        assert(self.worker_lanes@ =~= lanes.insert(worker@, occupied(old(self)@.lanes_of(worker@))));
        lane
    }

    /// Takes back the lane of an attempt of worker `worker` that has ended.
    fn release_lane(&mut self, worker: &String, lane: u32)
        requires
            old(self).attempts.wf(),
            old(self).worker_lanes.wf(),
            forall|i: int|
                0 <= i < old(self).worker_lanes.entries@.len()
                    ==> (#[trigger] old(self).worker_lanes.entries@[i]).1.wf(),
            !old(self)@.lanes_of(worker@).free.contains(lane),
        ensures
            final(self).worker_lanes.wf(),
            forall|i: int|
                0 <= i < final(self).worker_lanes.entries@.len()
                    ==> (#[trigger] final(self).worker_lanes.entries@[i]).1.wf(),
            final(self).attempts == old(self).attempts,
            final(self).terminal_order == old(self).terminal_order,
            final(self).rejected_transitions == old(self).rejected_transitions,
            final(self).worker_lanes@ == given_back(old(self).worker_lanes@, worker@, lane),
    {
        let ghost lanes = self.worker_lanes@;
        match self.worker_lanes.find(worker) {
            Some(at) => {
                let (name, mut allocator) = self.worker_lanes.remove_at(at);
                if allocator.active > 1 {
                    let ghost free = allocator.free_lanes@;
                    allocator.active = allocator.active - 1;
                    allocator.free_lanes.push(lane);
                    proof {
                        assert(!free.contains(lane)) by {
                            assert(free.contains(lane) ==> free.to_set().contains(lane));
                        }
                        assert forall|x: u32| free.push(lane).contains(x) <==> free.contains(x) || x
                            == lane by {
                            if free.contains(x) {
                                let j = free.index_of(x);
                                assert(free.push(lane)[j] == x);
                            }
                            assert(free.push(lane)[free.len() as int] == lane);
                        }
                        assert(free.push(lane).to_set() =~= free.to_set().insert(lane));
                        assert(allocator.wf());
                    }
                    self.worker_lanes.add_entry(name, allocator);
                    assert(self.worker_lanes@ =~= given_back(lanes, worker@, lane));
                } else {
                    assert(self.worker_lanes@ =~= given_back(lanes, worker@, lane));
                }
            },
            None => {},
        }
    }

    /// Moves an attempt to the state `next`.
    fn advance(&mut self, key: &AttemptKey, next: ActivityState, now: u64)
        requires
            old(self).wf(),
        ensures
            final(self).wf(),
            final(self)@ == old(self)@.advance(key@, next, now),
    {
        let ghost m = self@;
        proof {
            lemma_advance_consistent(m, key@, next, now);
        }
        let at: usize = match self.attempts.find(key) {
            Some(at) => at,
            None => {
                self.reject();
                return ;
            },
        };
        let current = self.attempts.entries[at].1.state;
        if current == next {
            return ;
        }
        if current.is_terminal() || state_rank(next) < state_rank(current) {
            self.reject();
            return ;
        }
        let ghost before = self.attempts.entries@;
        let worker = self.attempts.entries[at].1.worker_id.clone();
        let lane: u32 = self.attempts.entries[at].1.lane_index;
        proof {
            lemma_entry(before, at as int);
            assert(m.lanes_fit(worker@));
            lemma_running_bound_any(m, worker@);
        }
        if next == ActivityState::Running {
            let lane: u32 = self.allocate_lane(&worker);
            self.attempts.entries[at].1.state = next;
            self.attempts.entries[at].1.lane_index = lane;
            proof {
                crate::keyed::lemma_set(before, at as int, self.attempts.entries@);
            }
            assert(self@ =~= m.advance(key@, next, now));
        } else if next.is_terminal() {
            self.attempts.entries[at].1.state = next;
            self.attempts.entries[at].1.finished_at = Some(now);
            proof {
                crate::keyed::lemma_set(before, at as int, self.attempts.entries@);
            }
            let ghost order = self.terminal_order@;
            self.terminal_order.push_back(key.clone());
            assert(keys_of(self.terminal_order@) =~= keys_of(order).push(key@));
            if lane != 0 {
                assert(running_on(m.attempts, worker@).contains(key@));
                self.release_lane(&worker, lane);
            }
            assert(self@ =~= m.advance(key@, next, now));
        } else {
            self.attempts.entries[at].1.state = next;
            proof {
                crate::keyed::lemma_set(before, at as int, self.attempts.entries@);
            }
            assert(self@ =~= m.advance(key@, next, now));
        }
    }

    /// Forgets the attempt that finished first.
    fn forget_oldest(&mut self)
        requires
            old(self).wf(),
            old(self)@.order.len() > 0,
        ensures
            final(self).wf(),
            final(self)@ == old(self)@.forget_oldest(),
    {
        let ghost m = self@;
        let ghost order = self.terminal_order@;
        proof {
            lemma_forget_consistent(m);
        }
        match self.terminal_order.pop_front() {
            Some(key) => {
                assert(keys_of(self.terminal_order@) =~= keys_of(order).drop_first());
                assert(key@ == m.order[0]);
                match self.attempts.find(&key) {
                    Some(at) => {
                        let _ = self.attempts.remove_at(at);
                    },
                    None => {},
                }
            },
            None => {},
        }
        assert(self@ =~= m.forget_oldest());
    }

    /// Forgets the finished attempts that were kept long enough.
    fn prune(&mut self, now: u64)
        requires
            old(self).wf(),
        ensures
            final(self).wf(),
            final(self)@ == old(self)@.pruned(now),
    {
        let ghost m = self@;
        loop
            invariant
                self.wf(),
                m.pruned(now) == self@.pruned(now),
            ensures
                self.wf(),
                m.pruned(now) == self@,
            decreases self@.order.len(),
        {
            if self.terminal_order.len() == 0 {
                break;
            }
            let expired = match self.attempts.find(&self.terminal_order[0]) {
                Some(at) => match self.attempts.entries[at].1.finished_at {
                    Some(finished) => age(now, finished) >= ACTIVITY_TTL,
                    None => true,
                },
                None => true,
            };
            proof {
                assert(self@.order[0] == self.terminal_order@[0]@);
                assert(self@.order.contains(self@.order[0]));
                assert(self@.oldest_expired(now) == expired);
            }
            if !expired {
                break;
            }
            self.forget_oldest();
        }
    }
}

proof fn lemma_running_bound_any(m: TrackerModel, w: Seq<char>)
    requires
        m.attempts.dom().finite(),
    ensures
        running_on(m.attempts, w).len() <= m.attempts.dom().len(),
{
    vstd::set_lib::lemma_len_subset(running_on(m.attempts, w), m.attempts.dom());
}

/// The first `limit` characters of `value`.
pub open spec fn first_chars(value: Seq<char>, limit: int) -> Seq<char> {
    if value.len() <= limit {
        value
    } else {
        value.take(limit)
    }
}

/// The first `limit` characters of `value`.
pub fn truncate_chars(value: &str, limit: usize) -> (r: String)
    ensures
        r@ == first_chars(value@, limit as int),
{
    let chars = chars_of(value);
    if chars.len() <= limit {
        string_of(&chars, 0, chars.len())
    } else {
        string_of(&chars, 0, limit)
    }
}

/// An identifier cut down to [`MAX_ID_CHARS`]: a longer one keeps its first 96
/// characters, followed by `#` and the first 16 digits of its digest.
pub open spec fn shortened(value: Seq<char>, digest: Seq<char>) -> Seq<char> {
    if value.len() <= MAX_ID_CHARS {
        value
    } else {
        value.take(96).push('#') + digest.take(16)
    }
}

/// The identifier under which the tracker files `value`.
pub open spec fn bounded(value: Seq<char>) -> Seq<char> {
    shortened(value, digest_text(vstd::utf8::encode_utf8(value)))
}

/// Cuts an identifier down to [`MAX_ID_CHARS`] with the help of its digest.
pub fn shorten_id(value: &str, digest: &str) -> (r: String)
    requires
        digest@.len() >= 16,
    ensures
        r@ == shortened(value@, digest@),
        r@.len() <= MAX_ID_CHARS,
{
    let chars = chars_of(value);
    if chars.len() <= MAX_ID_CHARS {
        return value.to_owned();
    }
    let mut r = string_of(&chars, 0, 96);
    r.push('#');
    let digits = chars_of(digest);
    let tail = string_of(&digits, 0, 16);
    r.append(tail.as_str());
    assert(r@ =~= value@.take(96).push('#') + digest@.take(16));
    r
}

/// The identifier under which the tracker files `value`.
pub fn bounded_id(value: &str) -> (r: String)
    ensures
        r@ == bounded(value@),
        r@.len() <= MAX_ID_CHARS,
{
    let digest = digest_of(value.as_bytes());
    shorten_id(value, digest.as_str())
}

/// One attempt as an observer sees it at the time `now`.
#[verifier::ext_equal]
pub struct SnapshotModel {
    pub key: (Seq<char>, u32),
    pub worker: Seq<char>,
    pub kind: ExecutionKind,
    pub display: Seq<char>,
    pub state: ActivityState,
    pub lane: u32,
    pub started_age: u64,
    pub finished_age: Option<u64>,
    pub duration: u64,
}

impl View for ActivitySnapshot {
    type V = SnapshotModel;

    open spec fn view(&self) -> SnapshotModel {
        SnapshotModel {
            key: self.key@,
            worker: self.worker_id@,
            kind: self.execution_kind,
            display: self.display_name@,
            state: self.state,
            lane: self.lane_index,
            started_age: self.started_age,
            finished_age: self.finished_age,
            duration: self.duration,
        }
    }
}

/// What an observer sees of the attempt `a` at the time `now`.
pub open spec fn seen(k: (Seq<char>, u32), a: AttemptModel, now: u64) -> SnapshotModel {
    SnapshotModel {
        key: k,
        worker: a.worker,
        kind: a.kind,
        display: a.display,
        state: a.state,
        lane: a.lane,
        started_age: age_of(now, a.started),
        finished_age: match a.finished {
            Some(finished) => Some(age_of(now, finished)),
            None => None,
        },
        duration: age_of(
            match a.finished {
                Some(finished) => finished,
                None => now,
            },
            a.started,
        ),
    }
}

/// Whether the first attempt is listed before the second: by start, then by
/// action, then by number.
pub open spec fn listed_before(
    started: u64,
    k: (Seq<char>, u32),
    other_started: u64,
    other: (Seq<char>, u32),
) -> bool {
    ||| started < other_started
    ||| started == other_started && text_before(k.0, other.0)
    ||| started == other_started && k.0 == other.0 && k.1 < other.1
}

proof fn lemma_listed_total(s1: u64, k1: (Seq<char>, u32), s2: u64, k2: (Seq<char>, u32))
    requires
        k1 != k2,
    ensures
        listed_before(s1, k1, s2, k2) || listed_before(s2, k2, s1, k1),
{
    lemma_text_total(k1.0, k2.0);
}

proof fn lemma_listed_transitive(
    s1: u64,
    k1: (Seq<char>, u32),
    s2: u64,
    k2: (Seq<char>, u32),
    s3: u64,
    k3: (Seq<char>, u32),
)
    requires
        listed_before(s1, k1, s2, k2),
        listed_before(s2, k2, s3, k3),
    ensures
        listed_before(s1, k1, s3, k3),
{
    if s1 == s2 && s2 == s3 && text_before(k1.0, k2.0) && text_before(k2.0, k3.0) {
        lemma_bytes_transitive(
            vstd::utf8::encode_utf8(k1.0),
            vstd::utf8::encode_utf8(k2.0),
            vstd::utf8::encode_utf8(k3.0),
        );
    }
}

impl TrackerModel {
    /// `list` shows every attempt once, as seen at the time `now`, in listing
    /// order.
    pub open spec fn listed(self, now: u64, list: Seq<SnapshotModel>) -> bool {
        &&& list.len() == self.attempts.dom().len()
        &&& forall|i: int|
            0 <= i < list.len() ==> {
                let k = (#[trigger] list[i]).key;
                self.attempts.contains_key(k) && list[i] == seen(k, self.attempts[k], now)
            }
        &&& forall|i: int, j: int|
            0 <= i < j < list.len() ==> {
                let a = (#[trigger] list[i]).key;
                let b = (#[trigger] list[j]).key;
                listed_before(self.attempts[a].started, a, self.attempts[b].started, b)
            }
    }
}

/// The list of snapshots by their views.
pub open spec fn snapshots_of(list: Seq<ActivitySnapshot>) -> Seq<SnapshotModel> {
    Seq::new(list.len(), |i: int| list[i]@)
}

fn lists_before(a: &(AttemptKey, AttemptRecord), b: &(AttemptKey, AttemptRecord)) -> (r: bool)
    ensures
        r == listed_before(a.1@.started, a.0@, b.1@.started, b.0@),
{
    if a.1.started_at != b.1.started_at {
        return a.1.started_at < b.1.started_at;
    }
    if a.0.action_id == b.0.action_id {
        proof {
            lemma_bytes_irreflexive(vstd::utf8::encode_utf8(a.0.action_id@));
        }
        return a.0.attempt_no < b.0.attempt_no;
    }
    text_precedes(a.0.action_id.as_str(), b.0.action_id.as_str())
}

impl TrackerState {
    /// The places of the attempts in listing order.
    fn listing(&self) -> (r: Vec<usize>)
        requires
            self.wf(),
        ensures
            r@.len() == self.attempts.entries@.len(),
            forall|i: int| 0 <= i < r@.len() ==> #[trigger] r@[i] < self.attempts.entries@.len(),
            forall|i: int, j: int|
                0 <= i < j < r@.len() ==> {
                    let a = self.attempts.entries@[#[trigger] r@[i] as int];
                    let b = self.attempts.entries@[#[trigger] r@[j] as int];
                    listed_before(a.1@.started, a.0@, b.1@.started, b.0@)
                },
    {
        let mut r: Vec<usize> = Vec::new();
        let mut n: usize = 0;
        let ghost e = self.attempts.entries@;
        while n < self.attempts.entries.len()
            invariant
                self.wf(),
                e == self.attempts.entries@,
                n <= e.len(),
                r@.len() == n,
                forall|i: int| 0 <= i < n ==> #[trigger] r@[i] < n,
                forall|i: int, j: int|
                    0 <= i < j < n ==> {
                        let a = e[#[trigger] r@[i] as int];
                        let b = e[#[trigger] r@[j] as int];
                        listed_before(a.1@.started, a.0@, b.1@.started, b.0@)
                    },
            decreases e.len() - n,
        {
            let mut at: usize = n;
            let ghost x = e[n as int];
            while at > 0 && lists_before(
                &self.attempts.entries[n],
                &self.attempts.entries[r[at - 1]],
            )
                invariant
                    e == self.attempts.entries@,
                    n < e.len(),
                    x == e[n as int],
                    at <= n,
                    r@.len() == n,
                    forall|i: int| 0 <= i < n ==> #[trigger] r@[i] < n,
                    forall|i: int|
                        at <= i < n ==> {
                            let b = e[#[trigger] r@[i] as int];
                            listed_before(x.1@.started, x.0@, b.1@.started, b.0@)
                        },
                decreases at,
            {
                at = at - 1;
            }
            proof {
                if at > 0 {
                    let p = e[r@[at - 1] as int];
                    assert(p.0@ != x.0@) by {
                        assert(e[r@[at - 1] as int].0@ != e[n as int].0@);
                    }
                    lemma_listed_total(x.1@.started, x.0@, p.1@.started, p.0@);
                    assert forall|i: int| 0 <= i < at implies {
                        let a = e[#[trigger] r@[i] as int];
                        listed_before(a.1@.started, a.0@, x.1@.started, x.0@)
                    } by {
                        if i < at - 1 {
                            let a = e[r@[i] as int];
                            lemma_listed_transitive(
                                a.1@.started,
                                a.0@,
                                p.1@.started,
                                p.0@,
                                x.1@.started,
                                x.0@,
                            );
                        }
                    }
                }
            }
            let ghost before = r@;
            r.insert(at, n);
            proof {
                assert forall|i: int, j: int| 0 <= i < j < n + 1 implies {
                    let a = e[#[trigger] r@[i] as int];
                    let b = e[#[trigger] r@[j] as int];
                    listed_before(a.1@.started, a.0@, b.1@.started, b.0@)
                } by {
                    let i0 = if i < at {
                        i
                    } else {
                        i - 1
                    };
                    let j0 = if j < at {
                        j
                    } else {
                        j - 1
                    };
                    if i != at && j != at {
                        assert(before[i0] == r@[i] && before[j0] == r@[j]);
                    } else if i == at {
                        assert(before[j0] == r@[j]);
                    } else {
                        assert(before[i0] == r@[i]);
                    }
                }
                assert forall|i: int| 0 <= i < n + 1 implies #[trigger] r@[i] < n + 1 by {
                    let i0 = if i < at {
                        i
                    } else {
                        i - 1
                    };
                    if i != at {
                        assert(before[i0] == r@[i]);
                    }
                }
            }
            n = n + 1;
        }
        r
    }

    /// Every attempt as seen at the time `now`, in listing order.
    fn snapshot(&self, now: u64) -> (r: Vec<ActivitySnapshot>)
        requires
            self.wf(),
        ensures
            self@.listed(now, snapshots_of(r@)),
    {
        let places = self.listing();
        let ghost e = self.attempts.entries@;
        let mut r: Vec<ActivitySnapshot> = Vec::new();
        let mut i: usize = 0;
        while i < places.len()
            invariant
                self.wf(),
                e == self.attempts.entries@,
                i <= places@.len(),
                r@.len() == i,
                forall|j: int| 0 <= j < places@.len() ==> #[trigger] places@[j] < e.len(),
                forall|j: int|
                    0 <= j < i ==> (#[trigger] r@[j])@ == seen(
                        e[places@[j] as int].0@,
                        e[places@[j] as int].1@,
                        now,
                    ),
            decreases places@.len() - i,
        {
            let entry = &self.attempts.entries[places[i]];
            let end: u64 = match entry.1.finished_at {
                Some(finished) => finished,
                None => now,
            };
            r.push(
                ActivitySnapshot {
                    key: entry.0.clone(),
                    worker_id: entry.1.worker_id.clone(),
                    execution_kind: entry.1.execution_kind,
                    display_name: entry.1.display_name.clone(),
                    state: entry.1.state,
                    lane_index: entry.1.lane_index,
                    started_age: age(now, entry.1.started_at),
                    finished_age: match entry.1.finished_at {
                        Some(finished) => Some(age(now, finished)),
                        None => None,
                    },
                    duration: age(end, entry.1.started_at),
                },
            );
            i = i + 1;
        }
        proof {
            lemma_len(e);
            let list = snapshots_of(r@);
            assert forall|j: int| 0 <= j < list.len() implies {
                let k = (#[trigger] list[j]).key;
                self@.attempts.contains_key(k) && list[j] == seen(k, self@.attempts[k], now)
            } by {
                assert(list[j] == r@[j]@);
                lemma_entry(e, places@[j] as int);
            }
            assert forall|a: int, b: int| 0 <= a < b < list.len() implies {
                let x = (#[trigger] list[a]).key;
                let y = (#[trigger] list[b]).key;
                listed_before(
                    self@.attempts[x].started,
                    x,
                    self@.attempts[y].started,
                    y,
                )
            } by {
                assert(list[a] == r@[a]@ && list[b] == r@[b]@);
                assert(places@[a] < e.len() && places@[b] < e.len());
                lemma_entry(e, places@[a] as int);
                lemma_entry(e, places@[b] as int);
            }
        }
        r
    }

    /// Begins an attempt, where there is room for it.
    fn begin(
        &mut self,
        key: &AttemptKey,
        worker_id: String,
        execution_kind: ExecutionKind,
        display_name: String,
        now: u64,
    ) -> (r: bool)
        requires
            old(self).wf(),
        ensures
            final(self).wf(),
            r == old(self)@.admits(key@, now),
            final(self)@ == old(self)@.begun(
                key@,
                worker_id@,
                execution_kind,
                display_name@,
                now,
            ),
    {
        let ghost m = self@;
        proof {
            lemma_begun_consistent(m, key@, worker_id@, execution_kind, display_name@, now);
        }
        self.prune(now);
        let ghost p = self@;
        if self.attempts.find(key).is_some() {
            return false;
        }
        if self.attempts.len() >= MAX_ACTIVITY_ATTEMPTS {
            if self.terminal_order.len() == 0 {
                return false;
            }
            self.forget_oldest();
        }
        assert(self@ == p.with_room());
        let record = AttemptRecord {
            worker_id,
            execution_kind,
            display_name,
            state: ActivityState::Created,
            lane_index: 0,
            started_at: now,
            finished_at: None,
        };
        self.attempts.add_entry(key.clone(), record);
        assert(self@ =~= m.begun(key@, worker_id@, execution_kind, display_name@, now));
        true
    }
}

/// The live view of the attempts of one agent.
pub struct ActionTracker<C> {
    state: TrackerState,
    clock: C,
}

impl<C> View for ActionTracker<C> {
    type V = TrackerModel;

    closed spec fn view(&self) -> TrackerModel {
        self.state@
    }
}

impl Default for ActionTracker<SystemClock> {
    fn default() -> (r: Self)
        ensures
            r.wf(),
            r@ == TrackerModel::empty(),
    {
        ActionTracker::with_clock(SystemClock::new())
    }
}

impl<C: TrackerClock> ActionTracker<C> {
    /// What every tracker keeps between calls.
    pub closed spec fn wf(&self) -> bool {
        self.state.wf()
    }

    /// An empty tracker on the given clock.
    pub fn with_clock(clock: C) -> (r: Self)
        ensures
            r.wf(),
            r@ == TrackerModel::empty(),
    {
        ActionTracker { state: TrackerState::new(), clock }
    }

    /// Begins an attempt at the time `now`; `None` if it is already known or if
    /// every place is taken by an attempt that has not ended.
    pub fn begin_attempt_at(
        &mut self,
        action_id: &str,
        attempt_no: u32,
        worker_id: &str,
        execution_kind: ExecutionKind,
        display_name: &str,
        now: u64,
    ) -> (r: Option<AttemptKey>)
        requires
            old(self).wf(),
        ensures
            final(self).wf(),
            final(self)@ == old(self)@.begun(
                (bounded(action_id@), attempt_no),
                bounded(worker_id@),
                execution_kind,
                first_chars(display_name@, MAX_DISPLAY_CHARS as int),
                now,
            ),
            match r {
                Some(key) => {
                    &&& old(self)@.admits((bounded(action_id@), attempt_no), now)
                    &&& key@ == (bounded(action_id@), attempt_no)
                },
                None => !old(self)@.admits((bounded(action_id@), attempt_no), now),
            },
    {
        let key = AttemptKey { action_id: bounded_id(action_id), attempt_no };
        let began = self.state.begin(
            &key,
            bounded_id(worker_id),
            execution_kind,
            truncate_chars(display_name, MAX_DISPLAY_CHARS),
            now,
        );
        if began {
            Some(key)
        } else {
            None
        }
    }

    /// [`ActionTracker::begin_attempt_at`] at the time on the clock.
    pub fn begin_attempt(
        &mut self,
        action_id: &str,
        attempt_no: u32,
        worker_id: &str,
        execution_kind: ExecutionKind,
        display_name: &str,
    ) -> (r: Option<AttemptKey>)
        requires
            old(self).wf(),
        ensures
            final(self).wf(),
            exists|now: u64| #[trigger]
                old(self)@.begun(
                    (bounded(action_id@), attempt_no),
                    bounded(worker_id@),
                    execution_kind,
                    first_chars(display_name@, MAX_DISPLAY_CHARS as int),
                    now,
                ) == final(self)@ && r is Some == old(self)@.admits(
                    (bounded(action_id@), attempt_no),
                    now,
                ),
            r matches Some(key) ==> key@ == (bounded(action_id@), attempt_no),
    {
        let now: u64 = self.clock.now();
        self.begin_attempt_at(action_id, attempt_no, worker_id, execution_kind, display_name, now)
    }

    /// [`ActionTracker::begin_attempt`], with a lease that ends the attempt.
    pub fn begin_attempt_lease(
        &mut self,
        action_id: &str,
        attempt_no: u32,
        worker_id: &str,
        execution_kind: ExecutionKind,
        display_name: &str,
    ) -> (r: Option<AttemptLease>)
        requires
            old(self).wf(),
        ensures
            final(self).wf(),
            exists|now: u64| #[trigger]
                old(self)@.begun(
                    (bounded(action_id@), attempt_no),
                    bounded(worker_id@),
                    execution_kind,
                    first_chars(display_name@, MAX_DISPLAY_CHARS as int),
                    now,
                ) == final(self)@ && r is Some == old(self)@.admits(
                    (bounded(action_id@), attempt_no),
                    now,
                ),
            r matches Some(lease) ==> {
                &&& lease.attempt() == (bounded(action_id@), attempt_no)
                &&& !lease.ended()
            },
    {
        match self.begin_attempt(action_id, attempt_no, worker_id, execution_kind, display_name) {
            Some(key) => Some(AttemptLease { key, finished: false }),
            None => None,
        }
    }

    /// Moves an attempt to the state `next` at the time `now`.
    pub fn transition_at(&mut self, key: &AttemptKey, next: ActivityState, now: u64)
        requires
            old(self).wf(),
        ensures
            final(self).wf(),
            final(self)@ == old(self)@.advance(key@, next, now),
    {
        self.state.advance(key, next, now)
    }

    /// Moves an attempt to the state `next` at the time on the clock.
    pub fn transition(&mut self, key: &AttemptKey, next: ActivityState)
        requires
            old(self).wf(),
        ensures
            final(self).wf(),
            exists|now: u64| final(self)@ == #[trigger] old(self)@.advance(key@, next, now),
    {
        let now: u64 = self.clock.now();
        self.transition_at(key, next, now)
    }

    /// Ends an attempt at the time `now`.
    pub fn finish_at(&mut self, key: &AttemptKey, terminal: ActivityState, now: u64)
        requires
            old(self).wf(),
        ensures
            final(self).wf(),
            final(self)@ == old(self)@.end(key@, terminal, now),
    {
        if !terminal.is_terminal() {
            self.state.reject();
        } else {
            self.state.advance(key, terminal, now);
        }
    }

    /// Ends an attempt at the time on the clock.
    pub fn finish(&mut self, key: &AttemptKey, terminal: ActivityState)
        requires
            old(self).wf(),
        ensures
            final(self).wf(),
            exists|now: u64| final(self)@ == #[trigger] old(self)@.end(key@, terminal, now),
    {
        let now: u64 = self.clock.now();
        self.finish_at(key, terminal, now)
    }

    /// Every attempt as seen at the time `now`, after pruning.
    pub fn snapshot_at(&mut self, now: u64) -> (r: Vec<ActivitySnapshot>)
        requires
            old(self).wf(),
        ensures
            final(self).wf(),
            final(self)@ == old(self)@.pruned(now),
            final(self)@.listed(now, snapshots_of(r@)),
    {
        self.state.prune(now);
        self.state.snapshot(now)
    }

    /// Every attempt as seen at the time on the clock, after pruning.
    pub fn snapshot(&mut self) -> (r: Vec<ActivitySnapshot>)
        requires
            old(self).wf(),
        ensures
            final(self).wf(),
            exists|now: u64| final(self)@ == #[trigger] old(self)@.pruned(now)
                && final(self)@.listed(now, snapshots_of(r@)),
    {
        let now: u64 = self.clock.now();
        self.snapshot_at(now)
    }

    /// Forgets the finished attempts that were kept long enough at `now`.
    pub fn prune_at(&mut self, now: u64)
        requires
            old(self).wf(),
        ensures
            final(self).wf(),
            final(self)@ == old(self)@.pruned(now),
    {
        self.state.prune(now)
    }

    /// How many requests were not followed.
    pub fn rejected_transitions(&self) -> (r: u64)
        ensures
            r == self@.rejected,
    {
        self.state.rejected_transitions
    }

    /// How many attempts are held, how many of them have ended, and how many
    /// workers have lanes.
    pub fn footprint(&self) -> (r: (usize, usize, usize))
        requires
            self.wf(),
        ensures
            r.0 == self@.attempts.dom().len(),
            r.1 == self@.order.len(),
            r.2 == self@.lanes.dom().len(),
    {
        (self.state.attempts.len(), self.state.terminal_order.len(), self.state.worker_lanes.len())
    }

    /// Every tracker is consistent between calls.
    pub proof fn law_tracker_is_consistent(&self)
        requires
            self.wf(),
        ensures
            self@.consistent(),
    {
    }
}

/// The duty to end one attempt. Whoever gives a lease up calls
/// [`AttemptLease::release`].
pub struct AttemptLease {
    key: AttemptKey,
    finished: bool,
}

impl AttemptLease {
    /// The attempt that the lease is for.
    pub closed spec fn attempt(&self) -> (Seq<char>, u32) {
        self.key@
    }

    /// Whether the attempt was ended through the lease.
    pub closed spec fn ended(&self) -> bool {
        self.finished
    }

    pub fn key(&self) -> (r: &AttemptKey)
        ensures
            r@ == self.attempt(),
    {
        &self.key
    }

    /// Moves the attempt to the state `next`.
    pub fn transition<C: TrackerClock>(&self, tracker: &mut ActionTracker<C>, next: ActivityState)
        requires
            old(tracker).wf(),
        ensures
            final(tracker).wf(),
            exists|now: u64| final(tracker)@ == #[trigger] old(tracker)@.advance(
                self.attempt(),
                next,
                now,
            ),
    {
        assert(self.attempt() == self.key@);
        tracker.transition(&self.key, next);
    }

    /// Ends the attempt.
    pub fn finish<C: TrackerClock>(
        &mut self,
        tracker: &mut ActionTracker<C>,
        terminal: ActivityState,
    )
        requires
            old(tracker).wf(),
        ensures
            final(tracker).wf(),
            exists|now: u64| final(tracker)@ == #[trigger] old(tracker)@.end(
                old(self).attempt(),
                terminal,
                now,
            ),
            final(self).attempt() == old(self).attempt(),
            final(self).ended() == (old(self).ended() || terminal.terminal()),
    {
        assert(self.attempt() == self.key@);
        tracker.finish(&self.key, terminal);
        if terminal.is_terminal() {
            self.finished = true;
        }
    }

    /// Gives the lease up: an attempt that was not ended is interrupted.
    pub fn release<C: TrackerClock>(self, tracker: &mut ActionTracker<C>)
        requires
            old(tracker).wf(),
        ensures
            final(tracker).wf(),
            self.ended() ==> final(tracker)@ == old(tracker)@,
            !self.ended() ==> exists|now: u64| final(tracker)@ == #[trigger] old(tracker)@.end(
                self.attempt(),
                ActivityState::Interrupted,
                now,
            ),
    {
        assert(self.attempt() == self.key@);
        if !self.finished {
            tracker.finish(&self.key, ActivityState::Interrupted);
        }
    }
}

/// How far a worker says it has come with an action.
#[derive(Clone, Copy, Debug, PartialEq, Eq, Structural)]
pub enum WorkerStage {
    Queued,
    Preparing,
    Running,
    /// A stage that says nothing about the attempt.
    Other,
}

/// The state of an attempt whose worker reports `stage`.
pub open spec fn stage_state(stage: WorkerStage) -> Option<ActivityState> {
    match stage {
        WorkerStage::Queued => Some(ActivityState::Queued),
        WorkerStage::Preparing => Some(ActivityState::Preparing),
        WorkerStage::Running => Some(ActivityState::Running),
        WorkerStage::Other => None,
    }
}

/// Follows what a worker reports of one attempt.
pub struct ActionObserver {
    key: AttemptKey,
}

impl ActionObserver {
    pub closed spec fn attempt(&self) -> (Seq<char>, u32) {
        self.key@
    }

    pub fn new(key: AttemptKey) -> (r: Self)
        ensures
            r.attempt() == key@,
    {
        ActionObserver { key }
    }

    /// Moves the attempt to what the worker reports.
    pub fn worker_state<C: TrackerClock>(&self, tracker: &mut ActionTracker<C>, stage: WorkerStage)
        requires
            old(tracker).wf(),
        ensures
            final(tracker).wf(),
            match stage_state(stage) {
                Some(next) => exists|now: u64| final(tracker)@ == #[trigger] old(tracker)@.advance(
                    self.attempt(),
                    next,
                    now,
                ),
                None => final(tracker)@ == old(tracker)@,
            },
    {
        assert(self.attempt() == self.key@);
        match stage {
            WorkerStage::Queued => tracker.transition(&self.key, ActivityState::Queued),
            WorkerStage::Preparing => tracker.transition(&self.key, ActivityState::Preparing),
            WorkerStage::Running => tracker.transition(&self.key, ActivityState::Running),
            WorkerStage::Other => {},
        }
    }
}

/// A terminal state is final: nothing that is asked of the tracker changes an
/// attempt that has ended, except that it may be forgotten.
pub proof fn law_terminal_state_is_final(
    m: TrackerModel,
    k: (Seq<char>, u32),
    j: (Seq<char>, u32),
    next: ActivityState,
    now: u64,
)
    requires
        m.attempts.contains_key(k),
        m.attempts[k].state.terminal(),
    ensures
        m.advance(j, next, now).attempts.contains_key(k),
        m.advance(j, next, now).attempts[k] == m.attempts[k],
        m.end(j, next, now).attempts.contains_key(k),
        m.end(j, next, now).attempts[k] == m.attempts[k],
{
}

/// An attempt never goes back: each request leaves every attempt at its rank or
/// at a higher one, and touches only the attempt that it names.
pub proof fn law_states_never_regress(
    m: TrackerModel,
    k: (Seq<char>, u32),
    j: (Seq<char>, u32),
    next: ActivityState,
    now: u64,
)
    requires
        m.attempts.contains_key(j),
    ensures
        m.advance(k, next, now).attempts.contains_key(j),
        m.advance(k, next, now).attempts[j].state.rank() >= m.attempts[j].state.rank(),
        j != k ==> m.advance(k, next, now).attempts[j] == m.attempts[j],
        m.advance(k, next, now).attempts.dom() == m.attempts.dom(),
{
    assert(m.advance(k, next, now).attempts.dom() =~= m.attempts.dom());
}

/// Two attempts that run on one worker never share a lane.
pub proof fn law_running_lanes_are_distinct(
    m: TrackerModel,
    k: (Seq<char>, u32),
    j: (Seq<char>, u32),
)
    requires
        m.consistent(),
        m.attempts.contains_key(k),
        m.attempts.contains_key(j),
        k != j,
        m.attempts[k].state is Running,
        m.attempts[j].state is Running,
        m.attempts[k].worker == m.attempts[j].worker,
    ensures
        m.attempts[k].lane != m.attempts[j].lane,
        m.attempts[k].lane >= 1,
{
    let w = m.attempts[k].worker;
    assert(m.lanes_fit(w));
    assert(running_on(m.attempts, w).contains(k));
    assert(running_on(m.attempts, w).contains(j));
}

/// A lane comes back when its attempt ends, and not before: the next attempt on
/// the worker gets a lane at or below it while others still run.
pub proof fn law_lane_is_reused_after_the_end(
    m: TrackerModel,
    k: (Seq<char>, u32),
    j: (Seq<char>, u32),
    terminal: ActivityState,
    now: u64,
    later: u64,
)
    requires
        m.consistent(),
        terminal.terminal(),
        m.attempts.contains_key(k),
        m.attempts[k].state is Running,
        m.attempts.contains_key(j),
        m.attempts[j].state.rank() < ActivityState::Running.rank(),
        m.attempts[j].worker == m.attempts[k].worker,
        running_on(m.attempts, m.attempts[k].worker).len() > 1,
    ensures
        m.advance(j, ActivityState::Running, later).attempts[j].lane != m.attempts[k].lane,
        m.advance(k, terminal, now).advance(
            j,
            ActivityState::Running,
            later,
        ).attempts[j].lane <= m.attempts[k].lane,
{
    let w = m.attempts[k].worker;
    assert(m.lanes_fit(w));
    assert(running_on(m.attempts, w).contains(k));
    let l = m.lanes[w];
    if l.free.len() > 0 {
        lemma_lowest(l.free);
    }
    lemma_advance_consistent(m, j, ActivityState::Running, later);
    let n = m.advance(j, ActivityState::Running, later);
    law_running_lanes_are_distinct(n, j, k);
    let f = m.advance(k, terminal, now).lanes[w].free;
    assert(f.contains(m.attempts[k].lane));
    lemma_lowest(f);
}

/// Beginning an attempt never drops one that has not ended, and never makes the
/// tracker hold more than [`MAX_ACTIVITY_ATTEMPTS`].
pub proof fn law_beginning_spares_active_attempts(
    m: TrackerModel,
    k: (Seq<char>, u32),
    worker: Seq<char>,
    kind: ExecutionKind,
    display: Seq<char>,
    now: u64,
    j: (Seq<char>, u32),
)
    requires
        m.consistent(),
        m.attempts.contains_key(j),
        !m.attempts[j].state.terminal(),
    ensures
        m.begun(k, worker, kind, display, now).attempts.contains_key(j),
        m.begun(k, worker, kind, display, now).attempts[j] == m.attempts[j],
        m.begun(k, worker, kind, display, now).attempts.dom().len() <= MAX_ACTIVITY_ATTEMPTS,
{
    lemma_begun_consistent(m, k, worker, kind, display, now);
    lemma_pruned_consistent(m, now);
    let p = m.pruned(now);
    assert(p.attempts.contains_key(j));
    assert(p.attempts[j] == m.attempts[j]);
    if p.order.len() > 0 {
        lemma_forget_consistent(p);
    }
}

/// The finished attempts stand in the order of the times at which they ended.
pub open spec fn ended_in_order(m: TrackerModel) -> bool {
    forall|i: int, j: int|
        0 <= i < j < m.order.len() ==> m.attempts[#[trigger] m.order[i]].finished->0
            <= m.attempts[#[trigger] m.order[j]].finished->0
}

/// On a clock that never goes back, pruning forgets exactly the attempts that
/// ended at least [`ACTIVITY_TTL`] ago.
pub proof fn law_pruning_forgets_the_expired(m: TrackerModel, now: u64, k: (Seq<char>, u32))
    requires
        m.consistent(),
        ended_in_order(m),
        m.attempts.contains_key(k),
    ensures
        m.pruned(now).attempts.contains_key(k) <==> !(m.attempts[k].state.terminal() && age_of(
            now,
            m.attempts[k].finished->0,
        ) >= ACTIVITY_TTL),
    decreases m.order.len(),
{
    if m.oldest_expired(now) {
        lemma_forget_consistent(m);
        let f = m.forget_oldest();
        assert(ended_in_order(f)) by {
            assert forall|i: int, j: int| 0 <= i < j < f.order.len() implies f.attempts[#[trigger] f.order[i]].finished->0
                <= f.attempts[#[trigger] f.order[j]].finished->0 by {
                assert(f.order[i] == m.order[i + 1] && f.order[j] == m.order[j + 1]);
                assert(f.order.contains(f.order[i]) && f.order.contains(f.order[j]));
            }
        }
        if k == m.order[0] {
            lemma_pruned_consistent(f, now);
        } else {
            law_pruning_forgets_the_expired(f, now, k);
        }
    } else if m.attempts[k].state.terminal() {
        assert(m.order.contains(k));
        let i = m.order.index_of(k);
        assert(m.order.contains(m.order[0]));
        if i > 0 {
            assert(m.attempts[m.order[0]].finished->0 <= m.attempts[m.order[i]].finished->0);
        }
    }
}

/// Identifiers that need no shortening keep their attempts apart, and so does
/// the number of the attempt.
pub proof fn law_short_ids_do_not_collide(a: Seq<char>, b: Seq<char>, n: u32, m: u32)
    requires
        a.len() <= MAX_ID_CHARS,
        b.len() <= MAX_ID_CHARS,
    ensures
        (bounded(a), n) == (bounded(b), m) <==> a == b && n == m,
{
}

/// The states of an attempt come one behind the other, from creation over queuing, preparing
/// and running to the end, of which there are three kinds.
pub proof fn law_states_come_one_behind_the_other(s: ActivityState)
    ensures
        ActivityState::Created.rank() < ActivityState::Queued.rank()
            < ActivityState::Preparing.rank() < ActivityState::Running.rank(),
        s.terminal() <==> s == ActivityState::Completed || s == ActivityState::Failed || s
            == ActivityState::Interrupted,
        s.terminal() ==> s.rank() > ActivityState::Running.rank(),
{
}

/// A step forward is taken: the attempt that it names is then in that state, and is otherwise
/// what it was. One that ends has ended now, and stands behind those that ended before; one
/// that begins to run gets a lane, and nothing is counted as refused.
pub proof fn law_steps_forward_are_taken(
    m: TrackerModel,
    k: (Seq<char>, u32),
    next: ActivityState,
    now: u64,
)
    requires
        m.attempts.contains_key(k),
        !m.attempts[k].state.terminal(),
        next.rank() > m.attempts[k].state.rank(),
    ensures
        ({
            let a = m.attempts[k];
            let n = m.advance(k, next, now);
            let b = n.attempts[k];
            &&& b.state == next
            &&& b.worker == a.worker && b.kind == a.kind && b.display == a.display && b.started
                == a.started
            &&& b.finished == if next.terminal() {
                Some(now)
            } else {
                a.finished
            }
            &&& !(next is Running) ==> b.lane == a.lane
            &&& n.order == if next.terminal() {
                m.order.push(k)
            } else {
                m.order
            }
            &&& n.rejected == m.rejected
            &&& next.terminal() ==> m.end(k, next, now) == n
        }),
{
}

/// What cannot be followed is counted and changes nothing else: a step of an attempt that is
/// not known, a step back, a step behind the end, and an end that is none. Asking for the state
/// that an attempt is in changes nothing at all.
pub proof fn law_refused_steps_are_counted(
    m: TrackerModel,
    k: (Seq<char>, u32),
    next: ActivityState,
    now: u64,
)
    ensures
        ({
            let n = m.advance(k, next, now);
            let known = m.attempts.contains_key(k);
            let state = m.attempts[k].state;
            &&& !known || (state != next && (state.terminal() || next.rank() < state.rank())) ==> {
                &&& n.attempts == m.attempts && n.order == m.order && n.lanes == m.lanes
                &&& m.rejected < u64::MAX ==> n.rejected == m.rejected + 1
                &&& m.rejected == u64::MAX ==> n.rejected == u64::MAX
            }
            &&& known && state == next ==> n == m
        }),
        !next.terminal() ==> {
            let n = m.end(k, next, now);
            &&& n.attempts == m.attempts && n.order == m.order && n.lanes == m.lanes
            &&& m.rejected < u64::MAX ==> n.rejected == m.rejected + 1
        },
{
}

/// An attempt begins where it is not held yet, up to the limit, and beyond it where one that
/// has ended can make room. It is then held as it was told, at its beginning.
pub proof fn law_new_attempts_are_held(
    m: TrackerModel,
    k: (Seq<char>, u32),
    worker: Seq<char>,
    kind: ExecutionKind,
    display: Seq<char>,
    now: u64,
)
    ensures
        ({
            let p = m.pruned(now);
            let n = m.begun(k, worker, kind, display, now);
            let free = p.attempts.dom().len() < 4096 || p.order.len() > 0;
            &&& m.admits(k, now) <==> !p.attempts.contains_key(k) && free
            &&& m.admits(k, now) ==> n.attempts.contains_key(k) && n.attempts[k] == (AttemptModel {
                worker,
                kind,
                display,
                state: ActivityState::Created,
                lane: 0,
                started: now,
                finished: None,
            })
            &&& p.attempts.dom().len() < 4096 && m.admits(k, now) ==> {
                &&& forall|j: (Seq<char>, u32)| #[trigger]
                    p.attempts.contains_key(j) ==> n.attempts.contains_key(j) && n.attempts[j]
                        == p.attempts[j]
                &&& n.order == p.order
            }
            &&& p.attempts.dom().len() >= 4096 && m.admits(k, now) ==> n.order
                == p.order.drop_first()
            &&& !m.admits(k, now) ==> n == p
        }),
{
}

/// What an observer sees of an attempt: how long ago it began, how long ago it ended, and how
/// long it took, or has taken so far.
pub proof fn law_snapshots_tell_the_times(k: (Seq<char>, u32), a: AttemptModel, now: u64)
    requires
        a.started <= now,
        a.finished is Some ==> a.started <= a.finished->0 <= now,
    ensures
        ({
            let s = seen(k, a, now);
            &&& s.key == k && s.worker == a.worker && s.kind == a.kind && s.display == a.display
            &&& s.state == a.state && s.lane == a.lane
            &&& s.started_age == now - a.started
            &&& a.finished is None ==> s.finished_age is None && s.duration == now - a.started
            &&& a.finished is Some ==> s.finished_age is Some && s.finished_age->0 == now
                - a.finished->0 && s.duration == a.finished->0 - a.started
        }),
{
}

/// A text is cut behind as many characters as allowed, and only where it has more.
pub proof fn law_long_texts_are_cut(value: Seq<char>, limit: nat)
    ensures
        first_chars(value, limit as int).is_prefix_of(value),
        value.len() <= limit ==> first_chars(value, limit as int) == value,
        value.len() > limit ==> first_chars(value, limit as int).len() == limit,
{
}

/// A long identifier keeps its front and is told from others by the digits of its digest.
pub proof fn law_long_ids_keep_their_front(
    value: Seq<char>,
    digest: Seq<char>,
    other: Seq<char>,
)
    requires
        digest.len() >= 16 && other.len() >= 16,
    ensures
        value.len() <= 128 ==> shortened(value, digest) == value,
        value.len() > 128 ==> {
            let r = shortened(value, digest);
            &&& r.len() == 113
            &&& r.take(96) == value.take(96)
            &&& r[96] == '#'
            &&& r.skip(97) == digest.take(16)
        },
        value.len() > 128 && shortened(value, digest) == shortened(value, other) ==> digest.take(16)
            == other.take(16),
{
    if value.len() > 128 {
        let (r, s) = (shortened(value, digest), shortened(value, other));
        assert(r.take(96) =~= value.take(96));
        assert(r.skip(97) =~= digest.take(16));
        assert(s.skip(97) =~= other.take(16));
    }
}

/// What a worker reports moves an attempt to the state of the same name, and nothing else it
/// may say moves it.
pub proof fn law_reports_name_the_state()
    ensures
        stage_state(WorkerStage::Queued) == Some(ActivityState::Queued),
        stage_state(WorkerStage::Preparing) == Some(ActivityState::Preparing),
        stage_state(WorkerStage::Running) == Some(ActivityState::Running),
        stage_state(WorkerStage::Other) is None,
{
}

} // verus!
