//! What a tracker comes to in the course of its requests, on a clock that never goes
//! back.

use crate::action_tracker::{
    age_of, ended_in_order, law_pruning_forgets_the_expired, lemma_advance_consistent,
    lemma_begun_consistent, lemma_forget_consistent, lemma_lowest, lemma_pruned_consistent,
    lemma_running_finite, next_lane, running_on, seen, ActivityState, AttemptModel, ExecutionKind,
    SnapshotModel, TrackerModel, ACTIVITY_TTL, MAX_ACTIVITY_ATTEMPTS,
};
use crate::text::{lemma_bytes_irreflexive, text_before};
use vstd::prelude::*;

verus! {

/// A request to a tracker.
pub enum TrackerRequest {
    Begin {
        key: (Seq<char>, u32),
        worker: Seq<char>,
        kind: ExecutionKind,
        display: Seq<char>,
    },
    Advance { key: (Seq<char>, u32), next: ActivityState },
    End { key: (Seq<char>, u32), terminal: ActivityState },
    /// Forget what has expired, as every snapshot does.
    Prune,
}

/// The tracker after a request at the time `now`.
pub open spec fn tracker_next(m: TrackerModel, request: TrackerRequest, now: u64) -> TrackerModel {
    match request {
        TrackerRequest::Begin { key, worker, kind, display } => m.begun(
            key,
            worker,
            kind,
            display,
            now,
        ),
        TrackerRequest::Advance { key, next } => m.advance(key, next, now),
        TrackerRequest::End { key, terminal } => m.end(key, terminal, now),
        TrackerRequest::Prune => m.pruned(now),
    }
}

/// A new tracker after the requests `history`, each with its time.
pub open spec fn tracker_after(history: Seq<(TrackerRequest, u64)>) -> TrackerModel
    decreases history.len(),
{
    if history.len() == 0 {
        TrackerModel::empty()
    } else {
        tracker_next(tracker_after(history.drop_last()), history.last().0, history.last().1)
    }
}

/// Whether the clock never went back, up to the time `now`.
pub open spec fn never_goes_back(history: Seq<(TrackerRequest, u64)>, now: u64) -> bool {
    &&& forall|i: int, j: int|
        0 <= i < j < history.len() ==> (#[trigger] history[i]).1 <= (#[trigger] history[j]).1
    &&& history.len() > 0 ==> history.last().1 <= now
}

/// No time of an attempt is later than `now`, none ends before it starts, and the
/// finished attempts stand in the order of their ends.
pub open spec fn timely(m: TrackerModel, now: u64) -> bool {
    &&& ended_in_order(m)
    &&& forall|k: (Seq<char>, u32)| #[trigger]
        m.attempts.contains_key(k) ==> {
            &&& m.attempts[k].started <= now
            &&& m.attempts[k].finished matches Some(f) ==> m.attempts[k].started <= f && f <= now
        }
}

proof fn lemma_forgetting_keeps_the_times(m: TrackerModel, now: u64)
    requires
        m.consistent(),
        m.order.len() > 0,
        timely(m, now),
    ensures
        timely(m.forget_oldest(), now),
{
    lemma_forget_consistent(m);
    let f = m.forget_oldest();
    assert forall|i: int, j: int| 0 <= i < j < f.order.len() implies f.attempts[#[trigger] f.order[i]].finished->0
        <= f.attempts[#[trigger] f.order[j]].finished->0 by {
        assert(f.order[i] == m.order[i + 1] && f.order[j] == m.order[j + 1]);
        assert(f.order.contains(f.order[i]) && f.order.contains(f.order[j]));
    }
    assert forall|k: (Seq<char>, u32)| #[trigger] f.attempts.contains_key(k) implies {
        &&& f.attempts[k].started <= now
        &&& f.attempts[k].finished matches Some(e) ==> f.attempts[k].started <= e && e <= now
    } by {
        assert(m.attempts.contains_key(k));
    }
}

proof fn lemma_pruning_keeps_the_times(m: TrackerModel, now: u64)
    requires
        m.consistent(),
        timely(m, now),
    ensures
        timely(m.pruned(now), now),
    decreases m.order.len(),
{
    if m.oldest_expired(now) {
        lemma_forget_consistent(m);
        lemma_forgetting_keeps_the_times(m, now);
        lemma_pruning_keeps_the_times(m.forget_oldest(), now);
    }
}

proof fn lemma_moving_keeps_the_times(
    m: TrackerModel,
    k: (Seq<char>, u32),
    next: ActivityState,
    now: u64,
)
    requires
        m.consistent(),
        timely(m, now),
    ensures
        timely(m.advance(k, next, now), now),
{
    let n = m.advance(k, next, now);
    let a = m.attempts[k];
    let moves = m.attempts.contains_key(k) && a.state != next && !a.state.terminal()
        && next.rank() >= a.state.rank();
    if moves {
        assert(!m.order.contains(k));
        assert forall|i: int, j: int| 0 <= i < j < n.order.len() implies n.attempts[#[trigger] n.order[i]].finished->0
            <= n.attempts[#[trigger] n.order[j]].finished->0 by {
            assert(n.order[i] == m.order[i]);
            assert(m.order.contains(m.order[i]));
            if j < m.order.len() {
                assert(n.order[j] == m.order[j]);
                assert(m.order.contains(m.order[j]));
            } else {
                assert(n.order[j] == k);
                assert(m.attempts.contains_key(m.order[i]));
            }
        }
    }
    assert forall|x: (Seq<char>, u32)| #[trigger] n.attempts.contains_key(x) implies {
        &&& n.attempts[x].started <= now
        &&& n.attempts[x].finished matches Some(e) ==> n.attempts[x].started <= e && e <= now
    } by {
        assert(m.attempts.contains_key(x));
    }
}

/// Every request leaves the tracker consistent and its times in order, on a clock that
/// has not gone back since the request before.
pub proof fn law_requests_keep_the_times(
    m: TrackerModel,
    request: TrackerRequest,
    before: u64,
    now: u64,
)
    requires
        m.consistent(),
        timely(m, before),
        before <= now,
    ensures
        tracker_next(m, request, now).consistent(),
        timely(tracker_next(m, request, now), now),
{
    assert(timely(m, now)) by {
        assert forall|k: (Seq<char>, u32)| #[trigger] m.attempts.contains_key(k) implies {
            &&& m.attempts[k].started <= now
            &&& m.attempts[k].finished matches Some(f) ==> m.attempts[k].started <= f && f <= now
        } by {}
    }
    lemma_pruned_consistent(m, now);
    lemma_pruning_keeps_the_times(m, now);
    match request {
        TrackerRequest::Begin { key, worker, kind, display } => {
            lemma_begun_consistent(m, key, worker, kind, display, now);
            let p = m.pruned(now);
            if m.admits(key, now) {
                if p.order.len() > 0 {
                    lemma_forget_consistent(p);
                    lemma_forgetting_keeps_the_times(p, now);
                }
                let r = p.with_room();
                let n = m.begun(key, worker, kind, display, now);
                assert(timely(r, now));
                assert forall|i: int, j: int| 0 <= i < j < n.order.len() implies n.attempts[#[trigger] n.order[i]].finished->0
                    <= n.attempts[#[trigger] n.order[j]].finished->0 by {
                    assert(r.order.contains(r.order[i]) && r.order.contains(r.order[j]));
                }
                assert forall|x: (Seq<char>, u32)| #[trigger] n.attempts.contains_key(x) implies {
                    &&& n.attempts[x].started <= now
                    &&& n.attempts[x].finished matches Some(e) ==> n.attempts[x].started <= e && e
                        <= now
                } by {
                    if x != key {
                        assert(r.attempts.contains_key(x));
                    }
                }
            }
        },
        TrackerRequest::Advance { key, next } => {
            lemma_advance_consistent(m, key, next, now);
            lemma_moving_keeps_the_times(m, key, next, now);
        },
        TrackerRequest::End { key, terminal } => {
            if terminal.terminal() {
                lemma_advance_consistent(m, key, terminal, now);
                lemma_moving_keeps_the_times(m, key, terminal, now);
            } else {
                assert forall|w: Seq<char>| #[trigger] m.reject().lanes_fit(w) by {
                    assert(m.lanes_fit(w));
                }
            }
        },
        TrackerRequest::Prune => {},
    }
}

/// Whatever was asked of a tracker, it is consistent; and on a clock that never went
/// back its finished attempts stand in the order of their ends, none of them ended
/// before it started, and nothing happened later than now.
pub proof fn law_times_are_in_order(history: Seq<(TrackerRequest, u64)>, now: u64)
    requires
        never_goes_back(history, now),
    ensures
        tracker_after(history).consistent(),
        timely(tracker_after(history), now),
    decreases history.len(),
{
    if history.len() == 0 {
        let m = TrackerModel::empty();
        assert forall|w: Seq<char>| #[trigger] m.lanes_fit(w) by {
            assert(running_on(m.attempts, w) =~= Set::<(Seq<char>, u32)>::empty());
        }
        assert(m.attempts.dom() =~= Set::<(Seq<char>, u32)>::empty());
    } else {
        let init = history.drop_last();
        let last = history.last();
        assert(init.len() > 0 ==> init.last() == history[init.len() - 1]);
        assert(history[history.len() - 1] == last);
        assert forall|i: int, j: int| 0 <= i < j < init.len() implies (#[trigger] init[i]).1 <= (
        #[trigger] init[j]).1 by {
            assert(init[i] == history[i] && init[j] == history[j]);
        }
        law_times_are_in_order(init, last.1);
        law_requests_keep_the_times(tracker_after(init), last.0, last.1, last.1);
        let m = tracker_after(history);
        assert forall|k: (Seq<char>, u32)| #[trigger] m.attempts.contains_key(k) implies {
            &&& m.attempts[k].started <= now
            &&& m.attempts[k].finished matches Some(f) ==> m.attempts[k].started <= f && f <= now
        } by {}
    }
}

/// Whether the attempt `k` has run since it last began.
pub open spec fn has_run(history: Seq<(TrackerRequest, u64)>, k: (Seq<char>, u32)) -> bool
    decreases history.len(),
{
    if history.len() == 0 {
        false
    } else {
        let a = tracker_after(history).attempts[k];
        if a.state is Running {
            true
        } else if a.state is Created {
            false
        } else {
            has_run(history.drop_last(), k)
        }
    }
}

/// An attempt has a lane exactly where it has run: one that runs has one of at least 1,
/// one that has ended keeps its own, and one that never ran ends with none.
pub proof fn law_lanes_are_for_those_that_ran(
    history: Seq<(TrackerRequest, u64)>,
    now: u64,
    k: (Seq<char>, u32),
)
    requires
        never_goes_back(history, now),
        tracker_after(history).attempts.contains_key(k),
    ensures
        tracker_after(history).attempts[k].lane != 0 <==> has_run(history, k),
        tracker_after(history).attempts[k].state is Running ==> has_run(history, k),
    decreases history.len(),
{
    law_times_are_in_order(history, now);
    let init = history.drop_last();
    let last = history.last();
    let m = tracker_after(init);
    let n = tracker_after(history);
    assert(init.len() > 0 ==> init.last() == history[init.len() - 1]);
    assert(history[history.len() - 1] == last);
    assert forall|i: int, j: int| 0 <= i < j < init.len() implies (#[trigger] init[i]).1 <= (
    #[trigger] init[j]).1 by {
        assert(init[i] == history[i] && init[j] == history[j]);
    }
    law_times_are_in_order(init, last.1);
    if !(n.attempts[k].state is Created) && !(n.attempts[k].state is Running) {
        lemma_pruned_consistent(m, last.1);
        if m.pruned(last.1).order.len() > 0 {
            lemma_forget_consistent(m.pruned(last.1));
        }
        assert(m.attempts.contains_key(k));
        law_lanes_are_for_those_that_ran(init, last.1, k);
        assert(n.attempts[k].lane == m.attempts[k].lane);
    }
}

/// An attempt is never dropped before it has ended.
pub proof fn law_attempts_stay_until_they_end(
    m: TrackerModel,
    request: TrackerRequest,
    now: u64,
    k: (Seq<char>, u32),
)
    requires
        m.consistent(),
        m.attempts.contains_key(k),
        !m.attempts[k].state.terminal(),
    ensures
        tracker_next(m, request, now).attempts.contains_key(k),
        tracker_next(m, request, now).attempts[k].started == m.attempts[k].started,
{
    lemma_pruned_consistent(m, now);
    let p = m.pruned(now);
    assert(p.attempts.contains_key(k));
    assert(p.attempts[k] == m.attempts[k]);
    if p.order.len() > 0 {
        lemma_forget_consistent(p);
    }
}

/// An attempt that has ended is dropped only where it was kept long enough, or where
/// another begins, every place is taken, and it is the one that ended first.
pub proof fn law_finished_attempts_leave_for_a_reason(
    m: TrackerModel,
    request: TrackerRequest,
    now: u64,
    k: (Seq<char>, u32),
)
    requires
        m.consistent(),
        ended_in_order(m),
        m.attempts.contains_key(k),
        !tracker_next(m, request, now).attempts.contains_key(k),
    ensures
        m.attempts[k].state.terminal(),
        ({
            ||| age_of(now, m.attempts[k].finished->0) >= ACTIVITY_TTL
            ||| request is Begin && m.pruned(now).attempts.dom().len() >= MAX_ACTIVITY_ATTEMPTS
                && k == m.pruned(now).order[0]
        }),
{
    if !m.attempts[k].state.terminal() {
        law_attempts_stay_until_they_end(m, request, now, k);
    }
    lemma_pruned_consistent(m, now);
    law_pruning_forgets_the_expired(m, now, k);
}

/// Whether the attempt `k` was dropped by the request at `i`, for one of the two reasons
/// that there are: it had ended long enough ago, or another began, every place was taken,
/// and it was the one that had ended first.
pub open spec fn left_at(
    history: Seq<(TrackerRequest, u64)>,
    k: (Seq<char>, u32),
    i: int,
) -> bool {
    let m = tracker_after(history.take(i));
    let (request, now) = history[i];
    &&& m.attempts.contains_key(k) && m.attempts[k].state.terminal()
    &&& ({
        ||| age_of(now, m.attempts[k].finished->0) >= ACTIVITY_TTL
        ||| request is Begin && m.pruned(now).attempts.dom().len() >= MAX_ACTIVITY_ATTEMPTS && k
            == m.pruned(now).order[0]
    })
}

/// An attempt that the tracker held at some time is held still, unless it had ended and
/// left for a reason since.
pub proof fn law_attempts_are_held(
    history: Seq<(TrackerRequest, u64)>,
    now: u64,
    k: (Seq<char>, u32),
    since: int,
)
    requires
        never_goes_back(history, now),
        0 <= since <= history.len(),
        tracker_after(history.take(since)).attempts.contains_key(k),
    ensures
        tracker_after(history).attempts.contains_key(k) || exists|i: int|
            since <= i < history.len() && #[trigger] left_at(history, k, i),
    decreases history.len(),
{
    assert(history.take(history.len() as int) =~= history);
    if since < history.len() {
        let init = history.drop_last();
        let last = history.last();
        let n = init.len() as int;
        assert(history.take(n) =~= init);
        assert(init.take(since) =~= history.take(since));
        assert(init.len() > 0 ==> init.last() == history[n - 1]);
        assert forall|i: int, j: int| 0 <= i < j < init.len() implies (#[trigger] init[i]).1 <= (
        #[trigger] init[j]).1 by {
            assert(init[i] == history[i] && init[j] == history[j]);
        }
        law_attempts_are_held(init, last.1, k, since);
        law_times_are_in_order(init, last.1);
        let m = tracker_after(init);
        if m.attempts.contains_key(k) {
            if !tracker_after(history).attempts.contains_key(k) {
                law_finished_attempts_leave_for_a_reason(m, last.0, last.1, k);
                assert(left_at(history, k, n));
            }
        } else {
            let i = choose|i: int| since <= i < init.len() && #[trigger] left_at(init, k, i);
            assert(history.take(i) =~= init.take(i));
            assert(left_at(history, k, i));
        }
    }
}

/// What a snapshot shows on a clock that never goes back: every attempt that the tracker
/// holds but those that ended at least [`ACTIVITY_TTL`] ago, and no other; at most
/// [`MAX_ACTIVITY_ATTEMPTS`]. Of each, the time since it started is how long it ran and
/// how long ago it ended, where it has ended, and how long it has been running where it
/// has not; it has a lane exactly where it has run. They stand once each, in the order of
/// their starts, then of their actions and their numbers.
pub proof fn law_snapshots_add_up(
    history: Seq<(TrackerRequest, u64)>,
    now: u64,
    list: Seq<SnapshotModel>,
)
    requires
        never_goes_back(history, now),
        tracker_after(history).pruned(now).listed(now, list),
    ensures
        list.len() <= MAX_ACTIVITY_ATTEMPTS,
        forall|i: int|
            0 <= i < list.len() ==> {
                let e = #[trigger] list[i];
                &&& e.finished_age is Some <==> e.state.terminal()
                &&& !e.state.terminal() ==> e.duration == e.started_age
                &&& e.state.terminal() ==> e.duration + e.finished_age->0 == e.started_age
                &&& e.state is Running ==> e.lane >= 1
                &&& e.lane != 0 <==> has_run(history, e.key)
            },
        forall|i: int, j: int|
            0 <= i < j < list.len() ==> {
                let a = #[trigger] list[i];
                let b = #[trigger] list[j];
                &&& a.key != b.key
                &&& ({
                    ||| a.started_age > b.started_age
                    ||| a.started_age == b.started_age && text_before(a.key.0, b.key.0)
                    ||| a.started_age == b.started_age && a.key.0 == b.key.0 && a.key.1 < b.key.1
                })
            },
        forall|k: (Seq<char>, u32)| #[trigger]
            tracker_after(history).attempts.contains_key(k) ==> {
                let a = tracker_after(history).attempts[k];
                shows(list, k) <==> !(a.state.terminal() && age_of(now, a.finished->0)
                    >= ACTIVITY_TTL)
            },
        forall|k: (Seq<char>, u32)| #[trigger]
            shows(list, k) ==> tracker_after(history).attempts.contains_key(k),
{
    let m = tracker_after(history);
    let p = m.pruned(now);
    law_times_are_in_order(history, now);
    lemma_pruned_consistent(m, now);
    assert forall|i: int| 0 <= i < list.len() implies {
        let e = #[trigger] list[i];
        &&& e.finished_age is Some <==> e.state.terminal()
        &&& !e.state.terminal() ==> e.duration == e.started_age
        &&& e.state.terminal() ==> e.duration + e.finished_age->0 == e.started_age
        &&& e.state is Running ==> e.lane >= 1
        &&& e.lane != 0 <==> has_run(history, e.key)
    } by {
        let k = list[i].key;
        assert(p.attempts.dom().contains(k));
        assert(p.attempts.submap_of(m.attempts));
        assert(m.attempts.dom().contains(k));
        assert(p.attempts[k] == m.attempts[k]);
        assert(list[i] == seen(k, p.attempts[k], now));
        law_lanes_are_for_those_that_ran(history, now, k);
    }
    assert forall|i: int, j: int| 0 <= i < j < list.len() implies {
        let a = #[trigger] list[i];
        let b = #[trigger] list[j];
        &&& a.key != b.key
        &&& ({
            ||| a.started_age > b.started_age
            ||| a.started_age == b.started_age && text_before(a.key.0, b.key.0)
            ||| a.started_age == b.started_age && a.key.0 == b.key.0 && a.key.1 < b.key.1
        })
    } by {
        let a = list[i].key;
        let b = list[j].key;
        lemma_bytes_irreflexive(vstd::utf8::encode_utf8(a.0));
        assert(p.attempts.submap_of(m.attempts));
        assert(m.attempts.dom().contains(a) && m.attempts.dom().contains(b));
        assert(m.attempts.contains_key(a) && m.attempts.contains_key(b));
        assert(p.attempts[a] == m.attempts[a] && p.attempts[b] == m.attempts[b]);
    }
    lemma_listing_is_complete(p, now, list);
    assert forall|k: (Seq<char>, u32)| #[trigger] m.attempts.contains_key(k) implies {
        let a = m.attempts[k];
        shows(list, k) <==> !(a.state.terminal() && age_of(now, a.finished->0) >= ACTIVITY_TTL)
    } by {
        law_pruning_forgets_the_expired(m, now, k);
        assert(shows(list, k) <==> p.attempts.contains_key(k));
    }
    assert forall|k: (Seq<char>, u32)| #[trigger] shows(list, k) implies m.attempts.contains_key(
        k,
    ) by {
        assert(p.attempts.dom().contains(k));
    }
}

/// Whether a list shows the attempt `k`.
pub open spec fn shows(list: Seq<SnapshotModel>, k: (Seq<char>, u32)) -> bool {
    exists|i: int| 0 <= i < list.len() && (#[trigger] list[i]).key == k
}

proof fn lemma_listing_is_complete(m: TrackerModel, now: u64, list: Seq<SnapshotModel>)
    requires
        m.consistent(),
        m.listed(now, list),
    ensures
        forall|k: (Seq<char>, u32)| #[trigger] shows(list, k) <==> m.attempts.contains_key(k),
{
    let keys = Seq::new(list.len(), |i: int| list[i].key);
    assert forall|i: int, j: int| 0 <= i < keys.len() && 0 <= j < keys.len() && i != j implies keys[i]
        != keys[j] by {
        let (a, b) = if i < j {
            (i, j)
        } else {
            (j, i)
        };
        assert(list[a].key == keys[a] && list[b].key == keys[b]);
        if keys[i] == keys[j] {
            let k = keys[a];
            crate::text::lemma_bytes_irreflexive(vstd::utf8::encode_utf8(k.0));
        }
    }
    assert(keys.no_duplicates());
    keys.unique_seq_to_set();
    vstd::seq_lib::seq_to_set_is_finite(keys);
    assert forall|k: (Seq<char>, u32)| keys.to_set().contains(k) implies m.attempts.dom().contains(
        k,
    ) by {
        let i = keys.index_of(k);
        assert(list[i].key == k);
    }
    assert(keys.to_set().subset_of(m.attempts.dom()));
    vstd::set_lib::lemma_subset_equality(keys.to_set(), m.attempts.dom());
    assert forall|k: (Seq<char>, u32)| #[trigger] shows(list, k) <==> m.attempts.contains_key(
        k,
    ) by {
        if m.attempts.contains_key(k) {
            assert(keys.to_set().contains(k));
            let i = keys.index_of(k);
            assert(list[i].key == k);
        }
    }
}

/// Whether an attempt that runs on the worker `w` has the lane `x`.
pub open spec fn is_occupied(
    attempts: Map<(Seq<char>, u32), AttemptModel>,
    w: Seq<char>,
    x: u32,
) -> bool {
    exists|k: (Seq<char>, u32)| #[trigger]
        running_on(attempts, w).contains(k) && attempts[k].lane == x
}

proof fn lemma_lanes_are_free_or_occupied(m: TrackerModel, w: Seq<char>, x: u32)
    requires
        m.consistent(),
        m.lanes.contains_key(w),
        1 <= x < m.lanes[w].next,
        !m.lanes[w].free.contains(x),
    ensures
        is_occupied(m.attempts, w, x),
{
    let l = m.lanes[w];
    assert(m.lanes_fit(w));
    lemma_running_finite(m, w);
    let running = running_on(m.attempts, w);
    let lane = |k: (Seq<char>, u32)| m.attempts[k].lane as int;
    let number = |y: u32| y as int;
    let held = running.map(lane);
    let free = l.free.map(number);
    vstd::set_lib::lemma_map_size(running, held, lane);
    vstd::set_lib::lemma_map_size(l.free, free, number);
    let all = vstd::set_lib::set_int_range(1, l.next as int);
    vstd::set_lib::lemma_int_range(1, l.next as int);
    assert(held.disjoint(free)) by {
        assert forall|y: int| held.contains(y) implies !free.contains(y) by {
            let k = choose|k: (Seq<char>, u32)| running.contains(k) && lane(k) == y;
            assert(running.contains(k));
            if free.contains(y) {
                let z = choose|z: u32| l.free.contains(z) && number(z) == y;
                assert(l.free.contains(z) && z == m.attempts[k].lane);
            }
        }
    }
    vstd::set_lib::lemma_set_disjoint_lens(held, free);
    let both = held + free;
    assert(both.subset_of(all)) by {
        assert forall|y: int| both.contains(y) implies all.contains(y) by {
            if held.contains(y) {
                let k = choose|k: (Seq<char>, u32)| running.contains(k) && lane(k) == y;
                assert(running.contains(k));
            } else {
                let z = choose|z: u32| l.free.contains(z) && number(z) == y;
                assert(l.free.contains(z));
            }
        }
    }
    vstd::set_lib::lemma_subset_equality(both, all);
    assert(all.contains(x as int));
    assert(both.contains(x as int));
    if free.contains(x as int) {
        let z = choose|z: u32| l.free.contains(z) && number(z) == x as int;
        assert(l.free.contains(z) && z == x);
    }
    let k = choose|k: (Seq<char>, u32)| running.contains(k) && lane(k) == x as int;
    assert(running.contains(k) && m.attempts[k].lane == x);
}

/// An attempt that starts to run gets the lowest lane that no other attempt on its
/// worker has.
pub proof fn law_starting_takes_the_lowest_free_lane(
    m: TrackerModel,
    k: (Seq<char>, u32),
    now: u64,
)
    requires
        m.consistent(),
        m.attempts.contains_key(k),
        m.attempts[k].state.rank() < ActivityState::Running.rank(),
    ensures
        ({
            let w = m.attempts[k].worker;
            let lane = m.advance(k, ActivityState::Running, now).attempts[k].lane;
            &&& lane >= 1
            &&& !is_occupied(m.attempts, w, lane)
            &&& forall|x: u32| 1 <= x < lane ==> #[trigger] is_occupied(m.attempts, w, x)
        }),
{
    let w = m.attempts[k].worker;
    let l = m.lanes_of(w);
    let lane = m.advance(k, ActivityState::Running, now).attempts[k].lane;
    assert(lane == next_lane(l));
    assert(m.lanes_fit(w));
    let running = running_on(m.attempts, w);
    if m.lanes.contains_key(w) {
        if l.free.len() > 0 {
            lemma_lowest(l.free);
        } else {
            assert(l.free =~= Set::<u32>::empty());
        }
        assert forall|x: u32| 1 <= x < lane implies #[trigger] is_occupied(m.attempts, w, x) by {
            lemma_lanes_are_free_or_occupied(m, w, x);
        }
    }
    if is_occupied(m.attempts, w, lane) {
        let j = choose|j: (Seq<char>, u32)| #[trigger]
            running.contains(j) && m.attempts[j].lane == lane;
        assert(running.contains(j));
    }
}

} // verus!
