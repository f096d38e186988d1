//! The audit of a job: whether every process that was ever in it has ended.
//!
//! Times are nanoseconds.

use crate::failure::{Failure, FailureKind};
use crate::local_job::monitor::{Accounting, MonitorSnapshot};
use crate::text::{decimal, decimal_of};
use vstd::prelude::*;

verus! {

/// How long an audit may take.
pub const AUDIT_DEADLINE: u64 = 5_000_000_000;

/// The shortest pause between two rounds.
pub const SHORTEST_PAUSE: u64 = 1_000_000;

/// The longest pause between two rounds.
pub const LONGEST_PAUSE: u64 = 10_000_000;

/// What one round of an audit sees.
#[derive(Clone, Copy, Debug, PartialEq, Eq, Structural)]
pub struct Observation {
    pub active: u32,
    pub total: u64,
    pub raw: u64,
    pub unique: u64,
    pub all_signaled: bool,
}

impl Observation {
    /// Whether it shows that no process is left: none is active, every process that
    /// the job counted is known, and each of those has ended.
    pub open spec fn shows_empty(self) -> bool {
        self.active == 0 && self.unique == self.total && self.all_signaled
    }
}

pub open spec fn observed(accounting: Accounting, snapshot: MonitorSnapshot) -> Observation {
    Observation {
        active: accounting.active,
        total: accounting.total,
        raw: snapshot.raw,
        unique: snapshot.unique,
        all_signaled: snapshot.all_retained_signaled,
    }
}

/// What an audit remembers between two rounds.
#[derive(Clone, Copy, Debug, PartialEq, Eq, Structural)]
pub struct AuditState {
    /// What the round before saw.
    pub previous: Option<Observation>,
    /// How long to pause before the next round.
    pub pause: u64,
}

/// What follows a round.
pub enum AuditStep {
    /// No process is left.
    Stable,
    /// The audit failed.
    Failed(Failure),
    /// Pause for so long, then go on.
    Pause(u64),
}

/// Whether a job was found empty.
#[derive(Clone, Copy, Debug, PartialEq, Eq, Structural)]
pub enum AuditOutcome {
    Stable,
    /// It was to be stopped by force before that.
    ForceRequested,
}

pub open spec fn flag_text(b: bool) -> Seq<char> {
    if b {
        "true"@
    } else {
        "false"@
    }
}

/// How a round that came too late is described.
pub open spec fn unstable_text(o: Observation) -> Seq<char> {
    "Job audit did not stabilize: active="@ + decimal(o.active as nat) + ", total="@ + decimal(
        o.total as nat,
    ) + ", unique="@ + decimal(o.unique as nat) + ", raw="@ + decimal(o.raw as nat)
        + ", all_signaled="@ + flag_text(o.all_signaled)
}

pub open spec fn decreased_text(from: u64, to: u64) -> Seq<char> {
    "Job TotalProcesses decreased from "@ + decimal(from as nat) + " to "@ + decimal(to as nat)
}

/// The job's own count went down.
pub open spec fn went_down(s: AuditState, o: Observation) -> bool {
    s.previous is Some && o.total < s.previous->0.total
}

/// Two rounds in a row show an empty job, with the same counts.
pub open spec fn is_stable(s: AuditState, o: Observation) -> bool {
    &&& s.previous matches Some(p) && p.shows_empty() && p.total == o.total && p.unique == o.unique
    &&& o.shows_empty()
}

/// The pause that is due when something changed since the round before.
pub open spec fn due_pause(s: AuditState, o: Observation) -> u64 {
    if s.previous is Some && s.previous != Some(o) {
        SHORTEST_PAUSE
    } else {
        s.pause
    }
}

/// The pause after a pause of `p`.
pub open spec fn longer_pause(p: u64) -> u64 {
    if 2 * p < LONGEST_PAUSE {
        (2 * p) as u64
    } else {
        LONGEST_PAUSE
    }
}

impl AuditState {
    pub fn new() -> (r: AuditState)
        ensures
            r == (AuditState { previous: None, pause: SHORTEST_PAUSE }),
    {
        AuditState { previous: None, pause: SHORTEST_PAUSE }
    }

    /// Judges one round; `left` is the time that is left for the audit.
    pub fn judge(&mut self, accounting: Accounting, snapshot: MonitorSnapshot, left: u64) -> (r:
        AuditStep)
        ensures
            ({
                let o = observed(accounting, snapshot);
                match r {
                    AuditStep::Stable => {
                        &&& !went_down(*old(self), o) && is_stable(*old(self), o)
                        &&& *final(self) == *old(self)
                    },
                    AuditStep::Failed(f) => {
                        ||| went_down(*old(self), o) && *final(self) == *old(self) && f@ == (
                            FailureKind::Other,
                            decreased_text(old(self).previous->0.total, o.total),
                        )
                        ||| !went_down(*old(self), o) && !is_stable(*old(self), o) && left == 0
                            && *final(self) == (AuditState {
                            previous: Some(o),
                            pause: due_pause(*old(self), o),
                        }) && f@ == (FailureKind::TimedOut, unstable_text(o))
                    },
                    AuditStep::Pause(t) => {
                        &&& !went_down(*old(self), o) && !is_stable(*old(self), o) && left > 0
                        &&& t == if due_pause(*old(self), o) < left {
                            due_pause(*old(self), o)
                        } else {
                            left
                        }
                        &&& *final(self) == (AuditState {
                            previous: Some(o),
                            pause: longer_pause(due_pause(*old(self), o)),
                        })
                    },
                }
            }),
    {
        let o = Observation {
            active: accounting.active,
            total: accounting.total,
            raw: snapshot.raw,
            unique: snapshot.unique,
            all_signaled: snapshot.all_retained_signaled,
        };
        let empty = o.active == 0 && o.unique == o.total && o.all_signaled;
        if let Some(p) = self.previous {
            if o.total < p.total {
                let mut m = "Job TotalProcesses decreased from ".to_owned();
                m.append(decimal_of(p.total).as_str());
                m.append(" to ");
                m.append(decimal_of(o.total).as_str());
                return AuditStep::Failed(Failure { kind: FailureKind::Other, message: m });
            }
            let was_empty = p.active == 0 && p.unique == p.total && p.all_signaled;
            if empty && was_empty && p.total == o.total && p.unique == o.unique {
                return AuditStep::Stable;
            }
            if p != o {
                self.pause = SHORTEST_PAUSE;
            }
        }
        self.previous = Some(o);
        if left == 0 {
            let mut m = "Job audit did not stabilize: active=".to_owned();
            m.append(decimal_of(o.active as u64).as_str());
            m.append(", total=");
            m.append(decimal_of(o.total).as_str());
            m.append(", unique=");
            m.append(decimal_of(o.unique).as_str());
            m.append(", raw=");
            m.append(decimal_of(o.raw).as_str());
            m.append(", all_signaled=");
            if o.all_signaled {
                m.append("true");
            } else {
                m.append("false");
            }
            return AuditStep::Failed(Failure { kind: FailureKind::TimedOut, message: m });
        }
        let t: u64 = if self.pause < left {
            self.pause
        } else {
            left
        };
        self.pause = if self.pause < LONGEST_PAUSE / 2 {
            2 * self.pause
        } else {
            LONGEST_PAUSE
        };
        AuditStep::Pause(t)
    }
}

/// What an audit remembers after the rounds `rounds`, none of which ended it.
pub open spec fn after_rounds(rounds: Seq<Observation>) -> AuditState
    decreases rounds.len(),
{
    if rounds.len() == 0 {
        AuditState { previous: None, pause: SHORTEST_PAUSE }
    } else {
        let s = after_rounds(rounds.drop_last());
        AuditState {
            previous: Some(rounds.last()),
            pause: longer_pause(due_pause(s, rounds.last())),
        }
    }
}

/// An audit that ends has seen an empty job in each of its last two rounds, with
/// the same counts in both. One round is never enough.
pub proof fn law_an_empty_job_is_seen_twice(rounds: Seq<Observation>, last: Observation)
    requires
        is_stable(after_rounds(rounds), last),
    ensures
        rounds.len() > 0,
        rounds.last().shows_empty(),
        last.shows_empty(),
        rounds.last().total == last.total,
        rounds.last().unique == last.unique,
{
}

/// A job with an active process, with a process that is not known, or with a known
/// process that still runs, is never found empty.
pub proof fn law_a_live_job_is_not_empty(s: AuditState, o: Observation)
    requires
        o.active > 0 || o.unique != o.total || !o.all_signaled,
    ensures
        !is_stable(s, o),
{
}

/// The pauses between rounds are never shorter than the shortest nor longer than
/// the longest, unless the time that is left is shorter.
pub proof fn law_pauses_are_bounded(rounds: Seq<Observation>, o: Observation)
    ensures
        SHORTEST_PAUSE <= due_pause(after_rounds(rounds), o) <= LONGEST_PAUSE,
    decreases rounds.len(),
{
    if rounds.len() > 0 {
        law_pauses_are_bounded(rounds.drop_last(), rounds.last());
    }
}

/// A job is found empty as soon as two rounds in a row show no active process and as many
/// known processes as the job counted, all of them ended, with the same counts in both.
pub proof fn law_two_empty_rounds_are_enough(
    rounds: Seq<Observation>,
    first: Observation,
    second: Observation,
)
    requires
        first.active == 0 && second.active == 0,
        first.all_signaled && second.all_signaled,
        first.unique == first.total && second.unique == second.total,
        first.total == second.total,
    ensures
        is_stable(after_rounds(rounds.push(first)), second),
        !went_down(after_rounds(rounds.push(first)), second),
{
    assert(rounds.push(first).drop_last() =~= rounds);
}

/// The count of a job is refused exactly where it is less than it was in the round before.
pub proof fn law_counts_do_not_go_down(
    rounds: Seq<Observation>,
    first: Observation,
    second: Observation,
)
    ensures
        went_down(after_rounds(rounds.push(first)), second) <==> second.total < first.total,
        !went_down(after_rounds(Seq::empty()), second),
{
    assert(rounds.push(first).drop_last() =~= rounds);
}

/// The first pause is the shortest. While nothing changes each is twice the one before, up to
/// the longest; when something does, they begin anew.
pub proof fn law_pauses_grow_while_nothing_changes(
    rounds: Seq<Observation>,
    first: Observation,
    second: Observation,
)
    ensures
        due_pause(after_rounds(Seq::empty()), first) == 1_000_000,
        first != second ==> due_pause(after_rounds(rounds.push(first)), second) == 1_000_000,
        ({
            let before = due_pause(after_rounds(rounds), first);
            let now = due_pause(after_rounds(rounds.push(first)), first);
            now == if 2 * before < 10_000_000 {
                2 * before
            } else {
                10_000_000
            }
        }),
{
    assert(rounds.push(first).drop_last() =~= rounds);
}

/// What one round sees is what the job counts and what the monitor knows.
pub proof fn law_rounds_see_both_counts(accounting: Accounting, snapshot: MonitorSnapshot)
    ensures
        ({
            let o = observed(accounting, snapshot);
            &&& o.shows_empty() <==> accounting.active == 0 && snapshot.unique == accounting.total
                && snapshot.all_retained_signaled
            &&& o.raw == snapshot.raw
        }),
{
}

} // verus!
