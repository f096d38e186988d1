//! What the monitor of a job knows of the processes in it.

use crate::failure::{Failure, FailureKind};
use crate::text::{decimal, decimal_of};
use vstd::prelude::*;

verus! {

/// The completion key of packets that come from the job.
pub const JOB_COMPLETION_KEY: u64 = 1;

/// The completion key of packets that the owner of the job posts.
pub const OWNER_COMPLETION_KEY: u64 = 2;

/// An owner's packet that asks for an acknowledgement.
pub const OWNER_BARRIER: u32 = 1;

/// An owner's packet that ends the monitor.
pub const OWNER_STOP: u32 = 2;

/// The job's packet: no process is active any more.
pub const MSG_ACTIVE_PROCESS_ZERO: u32 = 4;

/// The job's packet: a process was added.
pub const MSG_NEW_PROCESS: u32 = 6;

/// The job's packet: a process ended.
pub const MSG_EXIT_PROCESS: u32 = 7;

/// The job's packet: a process ended abnormally.
pub const MSG_ABNORMAL_EXIT_PROCESS: u32 = 8;

/// What is kept of a process that was in the job.
#[derive(Clone, Copy, Debug, PartialEq, Eq, Structural)]
pub enum OccurrenceState {
    /// The handle that keeps it observable.
    Retained(u64),
    /// It had ended before a handle could be had.
    ConfirmedGone,
}

/// A process that was in the job.
#[derive(Clone, Copy, Debug, PartialEq, Eq, Structural)]
pub struct ProcessOccurrence {
    pub pid: u32,
    pub state: OccurrenceState,
    /// Whether it is the process that the job was made for.
    pub top: bool,
}

/// What the monitor has seen so far.
pub struct MonitorState {
    pub raw_packets: u64,
    pub unique_occurrences: u64,
    pub occurrences: Vec<ProcessOccurrence>,
    pub top_new_pending: Option<u32>,
    pub seed_ready: bool,
    pub seed_aborted: bool,
    pub first_error: Option<String>,
    pub last_ack: u64,
    pub terminal: bool,
}

/// The monitor's state as a value.
#[verifier::ext_equal]
pub struct MonitorModel {
    pub raw: u64,
    pub unique: u64,
    pub occurrences: Seq<ProcessOccurrence>,
    pub pending: Option<u32>,
    pub seed_ready: bool,
    pub seed_aborted: bool,
    pub first_error: Option<Seq<char>>,
    pub last_ack: u64,
    pub terminal: bool,
}

pub open spec fn opt_view(s: Option<String>) -> Option<Seq<char>> {
    match s {
        Some(s) => Some(s@),
        None => None,
    }
}

impl View for MonitorState {
    type V = MonitorModel;

    open spec fn view(&self) -> MonitorModel {
        MonitorModel {
            raw: self.raw_packets,
            unique: self.unique_occurrences,
            occurrences: self.occurrences@,
            pending: self.top_new_pending,
            seed_ready: self.seed_ready,
            seed_aborted: self.seed_aborted,
            first_error: opt_view(self.first_error),
            last_ack: self.last_ack,
            terminal: self.terminal,
        }
    }
}

/// What waiting on a process handle without a delay gave.
pub enum WaitResult {
    /// The process has ended.
    Signaled,
    /// It is still running.
    Running,
    /// The wait failed: what the system says of it.
    Failed(Failure),
    /// An answer that such a wait does not have.
    Unexpected(u32),
}

/// What opening the process of a packet gave.
pub enum ProcessProbe {
    /// There is no such process any more.
    Gone,
    /// It could not be opened: what the system says of it.
    OpenFailed(Failure),
    /// Whether it is in the job could not be told: what the system says of it.
    MembershipFailed(Failure),
    /// It is not in the job: the number was used again.
    Foreign,
    /// It is in the job, and this handle keeps it.
    Member(u64),
}

impl MonitorModel {
    pub open spec fn empty() -> MonitorModel {
        MonitorModel {
            raw: 0,
            unique: 0,
            occurrences: Seq::empty(),
            pending: None,
            seed_ready: false,
            seed_aborted: false,
            first_error: None,
            last_ack: 0,
            terminal: false,
        }
    }

    /// Every occurrence is counted, once.
    pub open spec fn counted(self) -> bool {
        self.unique == self.occurrences.len()
    }

    /// The first error stays.
    pub open spec fn with_error(self, error: Seq<char>) -> MonitorModel {
        MonitorModel {
            first_error: if self.first_error is None {
                Some(error)
            } else {
                self.first_error
            },
            ..self
        }
    }

    pub open spec fn knows(self, pid: u32) -> bool {
        exists|i: int| 0 <= i < self.occurrences.len() && (#[trigger] self.occurrences[i]).pid == pid
    }

    /// With one more occurrence, or the failure of counting it.
    pub open spec fn with_occurrence(self, o: ProcessOccurrence) -> Result<
        MonitorModel,
        (FailureKind, Seq<char>),
    > {
        if self.unique == u64::MAX {
            Err((FailureKind::Other, "unique process occurrence counter overflow"@))
        } else {
            Ok(
                MonitorModel {
                    unique: (self.unique + 1) as u64,
                    occurrences: self.occurrences.push(o),
                    ..self
                },
            )
        }
    }

    /// With a process that has ended already, unless it is known.
    pub open spec fn with_gone(self, pid: u32) -> Result<MonitorModel, (FailureKind, Seq<char>)> {
        if self.knows(pid) {
            Ok(self)
        } else {
            self.with_occurrence(
                ProcessOccurrence { pid, state: OccurrenceState::ConfirmedGone, top: false },
            )
        }
    }
}

/// What looking at the retained handles of the process `pid`, in their order,
/// says: `None` where all of them have ended, else whether one is still running
/// (`Ok`) or the failure of finding out.
pub open spec fn retained_says(
    occurrences: Seq<ProcessOccurrence>,
    pid: u32,
    waits: Seq<WaitResult>,
) -> Option<Result<(), (FailureKind, Seq<char>)>>
    decreases occurrences.len(),
{
    if occurrences.len() == 0 {
        None
    } else {
        let before = retained_says(occurrences.drop_last(), pid, waits);
        if before is Some {
            before
        } else if occurrences.last().pid == pid && occurrences.last().state is Retained {
            match waits[occurrences.len() - 1] {
                WaitResult::Signaled => None,
                WaitResult::Running => Some(Ok(())),
                WaitResult::Failed(f) => Some(
                    Err((f.kind, "checking retained process handle failed: "@ + f.message@)),
                ),
                WaitResult::Unexpected(n) => Some(
                    Err(
                        (
                            FailureKind::Other,
                            "unexpected process wait result "@ + decimal(n as nat),
                        ),
                    ),
                ),
            }
        } else {
            None
        }
    }
}

/// What a packet for the new process `pid` does once the process was looked at.
pub open spec fn classified(
    m: MonitorModel,
    pid: u32,
    probe: ProcessProbe,
    waits: Seq<WaitResult>,
) -> Result<MonitorModel, (FailureKind, Seq<char>)> {
    match probe {
        ProcessProbe::Gone => m.with_gone(pid),
        ProcessProbe::Foreign => m.with_gone(pid),
        ProcessProbe::OpenFailed(f) => Err(
            (
                f.kind,
                "OpenProcess("@ + decimal(pid as nat) + ") for NEW_PROCESS failed: "@ + f.message@,
            ),
        ),
        ProcessProbe::MembershipFailed(f) => Err(
            (f.kind, "IsProcessInJob for NEW_PROCESS failed: "@ + f.message@),
        ),
        ProcessProbe::Member(handle) => match retained_says(m.occurrences, pid, waits) {
            Some(Ok(_)) => Ok(m),
            Some(Err(e)) => Err(e),
            None => m.with_occurrence(
                ProcessOccurrence { pid, state: OccurrenceState::Retained(handle), top: false },
            ),
        },
    }
}

/// What the monitor does about a packet.
pub enum PacketStep {
    /// Wait for the next packet.
    Next,
    /// A process was added: look at it.
    NewProcess(u32),
    /// End.
    Stop,
    /// End with a failure.
    Fail(Failure),
}

/// A step without the text of a failure.
pub enum PacketModel {
    Next,
    NewProcess(u32),
    Stop,
    Fail((FailureKind, Seq<char>)),
}

impl View for PacketStep {
    type V = PacketModel;

    open spec fn view(&self) -> PacketModel {
        match *self {
            PacketStep::Next => PacketModel::Next,
            PacketStep::NewProcess(pid) => PacketModel::NewProcess(pid),
            PacketStep::Stop => PacketModel::Stop,
            PacketStep::Fail(f) => PacketModel::Fail(f@),
        }
    }
}

/// What a packet means and what it does to the monitor's state.
pub open spec fn received(m: MonitorModel, key: u64, message: u32, value: u64) -> (
    MonitorModel,
    PacketModel,
) {
    if key == JOB_COMPLETION_KEY {
        if message == MSG_NEW_PROCESS {
            if value > u32::MAX {
                (m, PacketModel::Fail((FailureKind::Other, "NEW_PROCESS PID did not fit in u32"@)))
            } else {
                (m, PacketModel::NewProcess(value as u32))
            }
        } else if message == MSG_EXIT_PROCESS || message == MSG_ABNORMAL_EXIT_PROCESS || message
            == MSG_ACTIVE_PROCESS_ZERO {
            (m, PacketModel::Next)
        } else {
            (
                m.with_error("unexpected Job completion packet "@ + decimal(message as nat)),
                PacketModel::Next,
            )
        }
    } else if key == OWNER_COMPLETION_KEY {
        if message == OWNER_BARRIER {
            (
                MonitorModel {
                    last_ack: if value > m.last_ack {
                        value
                    } else {
                        m.last_ack
                    },
                    ..m
                },
                PacketModel::Next,
            )
        } else if message == OWNER_STOP {
            (m, PacketModel::Stop)
        } else {
            (
                m.with_error("unexpected IOCP owner control packet "@ + decimal(message as nat)),
                PacketModel::Next,
            )
        }
    } else {
        (
            m.with_error("unexpected IOCP completion key "@ + decimal(key as nat)),
            PacketModel::Next,
        )
    }
}

/// What a packet for a new process waits for.
pub enum SeedWait {
    /// The top process is not known yet.
    Wait,
    Ready,
    Aborted(Failure),
}

/// How many processes a job has had, and how many are active.
#[derive(Clone, Copy, Debug, PartialEq, Eq, Structural)]
pub struct Accounting {
    pub total: u64,
    pub active: u32,
}

/// What an audit reads of the monitor.
#[derive(Clone, Copy, Debug, PartialEq, Eq, Structural)]
pub struct MonitorSnapshot {
    pub raw: u64,
    pub unique: u64,
    pub all_retained_signaled: bool,
}

/// Whether every retained process has ended, or the failure of finding out.
pub open spec fn all_ended(occurrences: Seq<ProcessOccurrence>, waits: Seq<WaitResult>) -> Result<
    bool,
    (FailureKind, Seq<char>),
>
    decreases occurrences.len(),
{
    if occurrences.len() == 0 {
        Ok(true)
    } else {
        match all_ended(occurrences.drop_last(), waits) {
            Err(e) => Err(e),
            Ok(ended) => if occurrences.last().state is Retained {
                match waits[occurrences.len() - 1] {
                    WaitResult::Signaled => Ok(ended),
                    WaitResult::Running => Ok(false),
                    WaitResult::Failed(f) => Err(
                        (f.kind, "auditing retained process handle failed: "@ + f.message@),
                    ),
                    WaitResult::Unexpected(n) => Err(
                        (
                            FailureKind::Other,
                            "unexpected retained process wait result "@ + decimal(n as nat),
                        ),
                    ),
                }
            } else {
                Ok(ended)
            },
        }
    }
}

/// What stands in the way of taking the top process into account, if anything.
pub open spec fn seed_problem(
    contained: Result<bool, Failure>,
    accounting: Result<Accounting, Failure>,
) -> Option<(FailureKind, Seq<char>)> {
    match contained {
        Err(f) => Some((f.kind, "IsProcessInJob for top process failed: "@ + f.message@)),
        Ok(false) => Some(
            (FailureKind::Other, "top process was not contained in the exact guardian Job"@),
        ),
        Ok(true) => match accounting {
            Err(f) => Some(f@),
            Ok(a) => if a.total < 1 {
                Some(
                    (FailureKind::Other, "Job accounting did not observe the assigned top process"@),
                )
            } else {
                None
            },
        },
    }
}

/// What an owner that waits for an acknowledgement does.
pub enum BarrierStep {
    Acknowledged,
    Failed(Failure),
    Wait,
}

fn failed(f: &Failure, head: &str) -> (r: Failure)
    ensures
        r@ == (f.kind, head@ + f.message@),
{
    Failure::about(f.kind, head, f.message.as_str())
}

fn numbered(head: &str, n: u64) -> (r: Failure)
    ensures
        r@ == (FailureKind::Other, head@ + decimal(n as nat)),
{
    Failure::about(FailureKind::Other, head, decimal_of(n).as_str())
}

impl MonitorState {
    pub fn new() -> (r: MonitorState)
        ensures
            r@ == MonitorModel::empty(),
    {
        MonitorState {
            raw_packets: 0,
            unique_occurrences: 0,
            occurrences: Vec::new(),
            top_new_pending: None,
            seed_ready: false,
            seed_aborted: false,
            first_error: None,
            last_ack: 0,
            terminal: false,
        }
    }

    /// Notes an error, unless one was noted before.
    pub fn record_error(&mut self, error: &str)
        ensures
            final(self)@ == old(self)@.with_error(error@),
    {
        if self.first_error.is_none() {
            self.first_error = Some(error.to_owned());
        }
    }

    /// The top process will not be known.
    pub fn abort_seed(&mut self, error: &str)
        ensures
            final(self)@ == (MonitorModel {
                seed_aborted: true,
                ..old(self)@.with_error(error@)
            }),
    {
        self.record_error(error);
        self.seed_aborted = true;
    }

    /// The monitor has ended.
    pub fn mark_terminal(&mut self)
        ensures
            final(self)@ == (MonitorModel { terminal: true, ..old(self)@ }),
    {
        self.terminal = true;
    }

    /// Takes in one packet of the completion port.
    pub fn on_packet(&mut self, key: u64, message: u32, value: u64) -> (r: PacketStep)
        ensures
            (final(self)@, r@) == received(old(self)@, key, message, value),
    {
        if key == JOB_COMPLETION_KEY {
            if message == MSG_NEW_PROCESS {
                if value > u32::MAX as u64 {
                    return PacketStep::Fail(
                        Failure::new(FailureKind::Other, "NEW_PROCESS PID did not fit in u32"),
                    );
                }
                return PacketStep::NewProcess(value as u32);
            }
            if message != MSG_EXIT_PROCESS && message != MSG_ABNORMAL_EXIT_PROCESS && message
                != MSG_ACTIVE_PROCESS_ZERO {
                let f = numbered("unexpected Job completion packet ", message as u64);
                self.record_error(f.message.as_str());
            }
            return PacketStep::Next;
        }
        if key == OWNER_COMPLETION_KEY {
            if message == OWNER_BARRIER {
                if value > self.last_ack {
                    self.last_ack = value;
                }
                return PacketStep::Next;
            }
            if message == OWNER_STOP {
                return PacketStep::Stop;
            }
            let f = numbered("unexpected IOCP owner control packet ", message as u64);
            self.record_error(f.message.as_str());
            return PacketStep::Next;
        }
        let f = numbered("unexpected IOCP completion key ", key);
        self.record_error(f.message.as_str());
        PacketStep::Next
    }

    /// Counts a packet for a new process.
    pub fn count_packet(&mut self) -> (r: Result<(), Failure>)
        ensures
            match r {
                Ok(_) => old(self)@.raw < u64::MAX && final(self)@ == (MonitorModel {
                    raw: (old(self)@.raw + 1) as u64,
                    ..old(self)@
                }),
                Err(f) => old(self)@.raw == u64::MAX && final(self)@ == old(self)@ && f@ == (
                    FailureKind::Other,
                    "raw NEW_PROCESS counter overflow"@,
                ),
            },
    {
        if self.raw_packets == u64::MAX {
            return Err(Failure::new(FailureKind::Other, "raw NEW_PROCESS counter overflow"));
        }
        self.raw_packets = self.raw_packets + 1;
        Ok(())
    }

    /// Whether a packet for a new process can be judged yet: not before the top
    /// process is known.
    pub fn wait_for_top_seed(&self) -> (r: SeedWait)
        ensures
            match r {
                SeedWait::Ready => self@.seed_ready,
                SeedWait::Aborted(f) => !self@.seed_ready && self@.seed_aborted && f@ == (
                    FailureKind::Other,
                    "top occurrence seeding aborted before NEW_PROCESS processing"@,
                ),
                SeedWait::Wait => !self@.seed_ready && !self@.seed_aborted,
            },
    {
        if self.seed_ready {
            SeedWait::Ready
        } else if self.seed_aborted {
            SeedWait::Aborted(
                Failure::new(
                    FailureKind::Other,
                    "top occurrence seeding aborted before NEW_PROCESS processing",
                ),
            )
        } else {
            SeedWait::Wait
        }
    }

    /// Takes the one packet that is due for the top process; `false` where the
    /// packet is for another.
    pub fn take_top_packet(&mut self, pid: u32) -> (r: bool)
        ensures
            r == (old(self)@.pending == Some(pid)),
            final(self)@ == (MonitorModel {
                pending: if r {
                    None
                } else {
                    old(self)@.pending
                },
                ..old(self)@
            }),
    {
        match self.top_new_pending {
            Some(top) => {
                if top == pid {
                    self.top_new_pending = None;
                    true
                } else {
                    false
                }
            },
            None => false,
        }
    }

    fn knows_pid(&self, pid: u32) -> (r: bool)
        ensures
            r == self@.knows(pid),
    {
        let mut i: usize = 0;
        while i < self.occurrences.len()
            invariant
                i <= self.occurrences@.len(),
                forall|j: int| 0 <= j < i ==> (#[trigger] self.occurrences@[j]).pid != pid,
            decreases self.occurrences@.len() - i,
        {
            if self.occurrences[i].pid == pid {
                assert(self@.occurrences[i as int].pid == pid);
                return true;
            }
            i = i + 1;
        }
        false
    }

    /// Adds a process to those that are known.
    pub fn push_occurrence(&mut self, occurrence: ProcessOccurrence) -> (r: Result<(), Failure>)
        ensures
            match old(self)@.with_occurrence(occurrence) {
                Ok(m) => r is Ok && final(self)@ == m,
                Err(e) => r matches Err(f) && f@ == e && final(self)@ == old(self)@,
            },
    {
        if self.unique_occurrences == u64::MAX {
            return Err(
                Failure::new(FailureKind::Other, "unique process occurrence counter overflow"),
            );
        }
        self.unique_occurrences = self.unique_occurrences + 1;
        self.occurrences.push(occurrence);
        Ok(())
    }

    fn push_gone(&mut self, pid: u32) -> (r: Result<(), Failure>)
        ensures
            match old(self)@.with_gone(pid) {
                Ok(m) => r is Ok && final(self)@ == m,
                Err(e) => r matches Err(f) && f@ == e && final(self)@ == old(self)@,
            },
    {
        if self.knows_pid(pid) {
            return Ok(());
        }
        self.push_occurrence(
            ProcessOccurrence { pid, state: OccurrenceState::ConfirmedGone, top: false },
        )
    }

    fn look_at_retained(&self, pid: u32, waits: &Vec<WaitResult>) -> (r: Option<
        Result<(), Failure>,
    >)
        requires
            waits@.len() == self@.occurrences.len(),
        ensures
            match retained_says(self@.occurrences, pid, waits@) {
                None => r is None,
                Some(Ok(_)) => r matches Some(Ok(_)),
                Some(Err(e)) => r matches Some(Err(f)) && f@ == e,
            },
    {
        let ghost all = self.occurrences@;
        let mut i: usize = 0;
        while i < self.occurrences.len()
            invariant
                i <= self.occurrences@.len(),
                all == self.occurrences@,
                waits@.len() == all.len(),
                retained_says(all.take(i as int), pid, waits@) is None,
            decreases self.occurrences@.len() - i,
        {
            let ghost now = all.take(i + 1);
            assert(now.drop_last() =~= all.take(i as int));
            assert(now.last() == self.occurrences@[i as int]);
            if self.occurrences[i].pid == pid {
                if let OccurrenceState::Retained(_) = self.occurrences[i].state {
                    let r: Option<Result<(), Failure>> = match &waits[i] {
                        WaitResult::Signaled => None,
                        WaitResult::Running => Some(Ok(())),
                        WaitResult::Failed(f) => Some(
                            Err(failed(f, "checking retained process handle failed: ")),
                        ),
                        WaitResult::Unexpected(n) => Some(
                            Err(numbered("unexpected process wait result ", *n as u64)),
                        ),
                    };
                    if r.is_some() {
                        proof {
                            lemma_retained_prefix(all, i + 1, pid, waits@);
                        }
                        return r;
                    }
                }
            }
            i = i + 1;
        }
        assert(all.take(i as int) =~= all);
        None
    }

    /// Takes in what was found out about the process of a packet. `waits` holds, for
    /// each known occurrence, what waiting on its handle gave; only those of the
    /// retained occurrences of this process are read.
    pub fn monitor_new_process(
        &mut self,
        pid: u32,
        probe: ProcessProbe,
        waits: &Vec<WaitResult>,
    ) -> (r: Result<(), Failure>)
        requires
            waits@.len() == old(self)@.occurrences.len(),
        ensures
            match classified(old(self)@, pid, probe, waits@) {
                Ok(m) => r is Ok && final(self)@ == m,
                Err(e) => r matches Err(f) && f@ == e && final(self)@ == old(self)@,
            },
    {
        match probe {
            ProcessProbe::Gone => self.push_gone(pid),
            ProcessProbe::Foreign => self.push_gone(pid),
            ProcessProbe::OpenFailed(f) => {
                let mut head = "OpenProcess(".to_owned();
                head.append(decimal_of(pid as u64).as_str());
                head.append(") for NEW_PROCESS failed: ");
                Err(failed(&f, head.as_str()))
            },
            ProcessProbe::MembershipFailed(f) => Err(
                failed(&f, "IsProcessInJob for NEW_PROCESS failed: "),
            ),
            ProcessProbe::Member(handle) => match self.look_at_retained(pid, waits) {
                Some(r) => r,
                None => self.push_occurrence(
                    ProcessOccurrence { pid, state: OccurrenceState::Retained(handle), top: false },
                ),
            },
        }
    }

    /// What an audit reads of the monitor. `waits` holds, for each known occurrence,
    /// what waiting on its handle gave; only those of retained ones are read.
    pub fn monitor_snapshot(&self, waits: &Vec<WaitResult>) -> (r: Result<MonitorSnapshot, Failure>)
        requires
            waits@.len() == self@.occurrences.len(),
        ensures
            match self@.first_error {
                Some(error) => r matches Err(f) && f@ == (
                    FailureKind::Other,
                    "IOCP monitor failed closed: "@ + error,
                ),
                None => match all_ended(self@.occurrences, waits@) {
                    Ok(ended) => r == Ok::<MonitorSnapshot, Failure>(
                        MonitorSnapshot {
                            raw: self@.raw,
                            unique: self@.unique,
                            all_retained_signaled: ended,
                        },
                    ),
                    Err(e) => r matches Err(f) && f@ == e,
                },
            },
    {
        if let Some(error) = &self.first_error {
            return Err(
                Failure::about(FailureKind::Other, "IOCP monitor failed closed: ", error.as_str()),
            );
        }
        let ghost all = self.occurrences@;
        let mut ended = true;
        let mut i: usize = 0;
        while i < self.occurrences.len()
            invariant
                i <= self.occurrences@.len(),
                all == self.occurrences@,
                waits@.len() == all.len(),
                self@.first_error is None,
                all_ended(all.take(i as int), waits@) == Ok::<bool, (FailureKind, Seq<char>)>(ended),
            decreases self.occurrences@.len() - i,
        {
            let ghost now = all.take(i + 1);
            assert(now.drop_last() =~= all.take(i as int));
            assert(now.last() == self.occurrences@[i as int]);
            if let OccurrenceState::Retained(_) = self.occurrences[i].state {
                match &waits[i] {
                    WaitResult::Signaled => {},
                    WaitResult::Running => {
                        ended = false;
                    },
                    WaitResult::Failed(f) => {
                        proof {
                            lemma_all_ended_prefix(all, i + 1, waits@);
                        }
                        return Err(failed(f, "auditing retained process handle failed: "));
                    },
                    WaitResult::Unexpected(n) => {
                        proof {
                            lemma_all_ended_prefix(all, i + 1, waits@);
                        }
                        return Err(
                            numbered("unexpected retained process wait result ", *n as u64),
                        );
                    },
                }
            }
            i = i + 1;
        }
        assert(all.take(i as int) =~= all);
        Ok(
            MonitorSnapshot {
                raw: self.raw_packets,
                unique: self.unique_occurrences,
                all_retained_signaled: ended,
            },
        )
    }

    /// Takes the top process, whose handle is in `top`, into account. `contained`
    /// tells whether it is in the job. The handle stays in `top` where it is not
    /// taken, but for the one failure that comes after it was given away.
    pub fn seed_top_occurrence(
        &mut self,
        top: &mut Option<u64>,
        pid: u32,
        contained: Result<bool, Failure>,
        accounting: Result<Accounting, Failure>,
    ) -> (r: Result<(), Failure>)
        ensures
            match *old(top) {
                None => {
                    &&& r matches Err(f) && f@ == (
                        FailureKind::Other,
                        "top process handle missing before seed"@,
                    )
                    &&& final(self)@ == old(self)@
                    &&& *final(top) == *old(top)
                },
                Some(handle) => match seed_problem(contained, accounting) {
                    Some(e) => {
                        &&& r matches Err(f) && f@ == e
                        &&& final(self)@ == old(self)@
                        &&& *final(top) == *old(top)
                    },
                    None => {
                        &&& *final(top) is None
                        &&& match old(self)@.with_occurrence(
                            ProcessOccurrence {
                                pid,
                                state: OccurrenceState::Retained(handle),
                                top: true,
                            },
                        ) {
                            Ok(m) => r is Ok && final(self)@ == (MonitorModel {
                                pending: Some(pid),
                                seed_ready: true,
                                ..m
                            }),
                            Err(e) => r matches Err(f) && f@ == e && final(self)@ == old(self)@,
                        }
                    },
                },
            },
    {
        let handle: u64 = match *top {
            Some(handle) => handle,
            None => {
                return Err(
                    Failure::new(FailureKind::Other, "top process handle missing before seed"),
                );
            },
        };
        match contained {
            Err(f) => {
                return Err(failed(&f, "IsProcessInJob for top process failed: "));
            },
            Ok(false) => {
                return Err(
                    Failure::new(
                        FailureKind::Other,
                        "top process was not contained in the exact guardian Job",
                    ),
                );
            },
            Ok(true) => {},
        }
        match accounting {
            Err(f) => {
                return Err(f);
            },
            Ok(a) => {
                if a.total < 1 {
                    return Err(
                        Failure::new(
                            FailureKind::Other,
                            "Job accounting did not observe the assigned top process",
                        ),
                    );
                }
            },
        }
        *top = None;
        match self.push_occurrence(
            ProcessOccurrence { pid, state: OccurrenceState::Retained(handle), top: true },
        ) {
            Ok(_) => {
                self.top_new_pending = Some(pid);
                self.seed_ready = true;
                Ok(())
            },
            Err(f) => Err(f),
        }
    }

    /// The handle of the top process: the one that was not given away yet, else the
    /// one that the monitor retains.
    pub fn top_handle(&self, top: Option<u64>) -> (r: Option<u64>)
        ensures
            r == top_handle_of(top, self@.occurrences),
    {
        if top.is_some() {
            return top;
        }
        let ghost all = self.occurrences@;
        let mut i: usize = 0;
        let mut found: Option<u64> = None;
        while i < self.occurrences.len()
            invariant
                i <= self.occurrences@.len(),
                all == self.occurrences@,
                found == retained_top(all.take(i as int)),
            decreases self.occurrences@.len() - i,
        {
            let ghost now = all.take(i + 1);
            assert(now.drop_last() =~= all.take(i as int));
            assert(now.last() == self.occurrences@[i as int]);
            if found.is_none() && self.occurrences[i].top {
                if let OccurrenceState::Retained(handle) = self.occurrences[i].state {
                    found = Some(handle);
                }
            }
            i = i + 1;
        }
        assert(all.take(i as int) =~= all);
        found
    }

    /// Lets go of every handle once the monitor has ended.
    pub fn close_after_monitor(&mut self)
        ensures
            final(self)@ == (MonitorModel { occurrences: Seq::empty(), ..old(self)@ }),
    {
        self.occurrences = Vec::new();
    }

    /// Whether the barrier `token` was acknowledged; `late` tells whether the time
    /// for it is over.
    pub fn barrier_step(&self, token: u64, late: bool) -> (r: BarrierStep)
        ensures
            match r {
                BarrierStep::Acknowledged => self@.last_ack >= token,
                BarrierStep::Failed(f) => {
                    &&& self@.last_ack < token
                    &&& self@.terminal || late
                    &&& f@ == if self@.terminal {
                        (
                            FailureKind::Other,
                            "IOCP monitor terminated before barrier acknowledgement"@,
                        )
                    } else {
                        (FailureKind::TimedOut, "IOCP barrier acknowledgement timed out"@)
                    }
                },
                BarrierStep::Wait => self@.last_ack < token && !self@.terminal && !late,
            },
    {
        if self.last_ack >= token {
            BarrierStep::Acknowledged
        } else if self.terminal {
            BarrierStep::Failed(
                Failure::new(
                    FailureKind::Other,
                    "IOCP monitor terminated before barrier acknowledgement",
                ),
            )
        } else if late {
            BarrierStep::Failed(
                Failure::new(FailureKind::TimedOut, "IOCP barrier acknowledgement timed out"),
            )
        } else {
            BarrierStep::Wait
        }
    }

    /// What follows when a wait for the barrier `token` ended; `timed_out` tells
    /// whether it ended for want of news.
    pub fn barrier_woken(&self, token: u64, timed_out: bool) -> (r: Result<(), Failure>)
        ensures
            match r {
                Ok(_) => !timed_out || self@.last_ack >= token,
                Err(f) => timed_out && self@.last_ack < token && f@ == (
                    FailureKind::TimedOut,
                    "IOCP barrier acknowledgement timed out"@,
                ),
            },
    {
        if timed_out && self.last_ack < token {
            Err(Failure::new(FailureKind::TimedOut, "IOCP barrier acknowledgement timed out"))
        } else {
            Ok(())
        }
    }
}

/// The handle that is retained of the first top occurrence that has one.
pub open spec fn retained_top(occurrences: Seq<ProcessOccurrence>) -> Option<u64>
    decreases occurrences.len(),
{
    if occurrences.len() == 0 {
        None
    } else {
        let before = retained_top(occurrences.drop_last());
        if before is Some {
            before
        } else if occurrences.last().top {
            match occurrences.last().state {
                OccurrenceState::Retained(handle) => Some(handle),
                OccurrenceState::ConfirmedGone => None,
            }
        } else {
            None
        }
    }
}

pub open spec fn top_handle_of(top: Option<u64>, occurrences: Seq<ProcessOccurrence>) -> Option<
    u64,
> {
    if top is Some {
        top
    } else {
        retained_top(occurrences)
    }
}

/// Takes the token of the next barrier.
pub fn next_barrier_token(next: &mut u64) -> (r: Result<u64, Failure>)
    ensures
        *final(next) == (if *old(next) == u64::MAX {
            0
        } else {
            *old(next) + 1
        }),
        match r {
            Ok(token) => token == *old(next) && token != 0 && token != u64::MAX,
            Err(f) => (*old(next) == 0 || *old(next) == u64::MAX) && f@ == (
                FailureKind::Other,
                "IOCP barrier token overflow"@,
            ),
        },
{
    let token: u64 = *next;
    *next = if token == u64::MAX {
        0
    } else {
        token + 1
    };
    if token == 0 || token == u64::MAX {
        return Err(Failure::new(FailureKind::Other, "IOCP barrier token overflow"));
    }
    Ok(token)
}

proof fn lemma_retained_prefix(
    all: Seq<ProcessOccurrence>,
    n: int,
    pid: u32,
    waits: Seq<WaitResult>,
)
    requires
        0 <= n <= all.len(),
        retained_says(all.take(n), pid, waits) is Some,
    ensures
        retained_says(all, pid, waits) == retained_says(all.take(n), pid, waits),
    decreases all.len(),
{
    if n == all.len() {
        assert(all.take(n) =~= all);
    } else {
        assert(all.drop_last().take(n) =~= all.take(n));
        lemma_retained_prefix(all.drop_last(), n, pid, waits);
    }
}

proof fn lemma_all_ended_prefix(all: Seq<ProcessOccurrence>, n: int, waits: Seq<WaitResult>)
    requires
        0 <= n <= all.len(),
        all_ended(all.take(n), waits) is Err,
    ensures
        all_ended(all, waits) == all_ended(all.take(n), waits),
    decreases all.len(),
{
    if n == all.len() {
        assert(all.take(n) =~= all);
    } else {
        assert(all.drop_last().take(n) =~= all.take(n));
        lemma_all_ended_prefix(all.drop_last(), n, waits);
    }
}

/// Every process is counted once: whatever a packet brings, the count of unique
/// processes stays the number of those that are known.
pub proof fn law_occurrences_are_counted(
    m: MonitorModel,
    pid: u32,
    probe: ProcessProbe,
    waits: Seq<WaitResult>,
)
    requires
        m.counted(),
    ensures
        classified(m, pid, probe, waits) matches Ok(n) ==> n.counted(),
{
}

/// No packet makes the monitor forget a process: those that are known stay, in
/// their order, and at most one is added, behind them.
pub proof fn law_known_processes_are_kept(
    m: MonitorModel,
    pid: u32,
    probe: ProcessProbe,
    waits: Seq<WaitResult>,
)
    ensures
        classified(m, pid, probe, waits) matches Ok(n) ==> {
            &&& n.occurrences.len() <= m.occurrences.len() + 1
            &&& n.occurrences.take(m.occurrences.len() as int) == m.occurrences
        },
{
    if let Ok(n) = classified(m, pid, probe, waits) {
        assert(n.occurrences.take(m.occurrences.len() as int) =~= m.occurrences);
    }
}

/// A second packet for a process that has ended, or whose number was used again
/// elsewhere, counts nothing.
pub proof fn law_repeated_gone_packet_counts_nothing(
    m: MonitorModel,
    pid: u32,
    first: ProcessProbe,
    second: ProcessProbe,
    waits: Seq<WaitResult>,
)
    requires
        first is Gone || first is Foreign,
        second is Gone || second is Foreign,
        m.unique < u64::MAX,
    ensures
        classified(m, pid, first, waits) matches Ok(n) && classified(n, pid, second, waits) == Ok::<
            MonitorModel,
            (FailureKind, Seq<char>),
        >(n),
{
    let n = classified(m, pid, first, waits)->Ok_0;
    if !m.knows(pid) {
        assert(n.occurrences[m.occurrences.len() as int].pid == pid);
    }
}

/// A packet for a member of the job that is known and still running counts
/// nothing.
pub proof fn law_running_member_is_counted_once(
    m: MonitorModel,
    pid: u32,
    handle: u64,
    waits: Seq<WaitResult>,
    i: int,
)
    requires
        0 <= i < m.occurrences.len(),
        m.occurrences[i].pid == pid,
        m.occurrences[i].state is Retained,
        waits[i] is Running,
        forall|j: int|
            0 <= j < i && m.occurrences[j].pid == pid && m.occurrences[j].state is Retained
                ==> #[trigger] waits[j] is Signaled,
    ensures
        classified(m, pid, ProcessProbe::Member(handle), waits) == Ok::<
            MonitorModel,
            (FailureKind, Seq<char>),
        >(m),
{
    lemma_all_signaled(m.occurrences, pid, waits, i);
    let now = m.occurrences.take(i + 1);
    assert(now.drop_last() =~= m.occurrences.take(i));
    assert(now.last() == m.occurrences[i]);
    lemma_retained_prefix(m.occurrences, i + 1, pid, waits);
}

proof fn lemma_all_signaled(
    all: Seq<ProcessOccurrence>,
    pid: u32,
    waits: Seq<WaitResult>,
    n: int,
)
    requires
        0 <= n <= all.len(),
        forall|j: int|
            0 <= j < n && all[j].pid == pid && all[j].state is Retained
                ==> #[trigger] waits[j] is Signaled,
    ensures
        retained_says(all.take(n), pid, waits) is None,
    decreases n,
{
    if n > 0 {
        lemma_all_signaled(all, pid, waits, n - 1);
        assert(all.take(n).drop_last() =~= all.take(n - 1));
        assert(all.take(n).last() == all[n - 1]);
    }
}

/// Once an error was noted, it is the one that every later audit fails with: no
/// packet replaces it.
pub proof fn law_first_error_stays(m: MonitorModel, key: u64, message: u32, value: u64)
    requires
        m.first_error is Some,
    ensures
        received(m, key, message, value).0.first_error == m.first_error,
{
}

/// Acknowledgements only grow.
pub proof fn law_acknowledgements_only_grow(m: MonitorModel, key: u64, message: u32, value: u64)
    ensures
        received(m, key, message, value).0.last_ack >= m.last_ack,
{
}

/// What each packet means: the job tells of new processes, and of ends, of which nothing
/// follows; the owner asks for an acknowledgement, or for the end. Anything else is noted as
/// an error, unless one was noted before.
pub proof fn law_packets_are_understood(m: MonitorModel, key: u64, message: u32, value: u64)
    ensures
        ({
            let (n, step) = received(m, key, message, value);
            let known = (key == 1 && (message == 4 || message == 6 || message == 7 || message == 8))
                || (key == 2 && (message == 1 || message == 2));
            &&& key == 1 && message == 6 && value <= u32::MAX ==> step == PacketModel::NewProcess(
                value as u32,
            ) && n == m
            &&& key == 1 && message == 6 && value > u32::MAX ==> step is Fail && n == m
            &&& key == 1 && (message == 4 || message == 7 || message == 8) ==> step is Next && n
                == m
            &&& key == 2 && message == 1 ==> step is Next && n.last_ack >= value && (n.last_ack
                == value || n.last_ack == m.last_ack)
            &&& key == 2 && message == 2 ==> step is Stop && n == m
            &&& !known ==> step is Next && n.first_error is Some
            &&& known ==> n.first_error == m.first_error
            &&& n.occurrences == m.occurrences && n.raw == m.raw && n.unique == m.unique
        }),
{
}

/// An error is noted where there is none yet.
pub proof fn law_the_first_error_is_noted(m: MonitorModel, error: Seq<char>, later: Seq<char>)
    ensures
        m.first_error is None ==> m.with_error(error).first_error == Some(error),
        m.first_error is None ==> m.with_error(error).with_error(later) == m.with_error(error),
{
}

/// A process of which nothing is known is taken in: one that is a member of the job with the
/// handle that keeps it, one that is gone, or no member any more, as gone. A member of which
/// all that is known has ended is another process of the same number, and is taken in too.
pub proof fn law_new_processes_are_taken_in(
    m: MonitorModel,
    pid: u32,
    handle: u64,
    waits: Seq<WaitResult>,
)
    requires
        m.unique < u64::MAX,
    ensures
        !m.knows(pid) ==> {
            let n = classified(m, pid, ProcessProbe::Gone, waits);
            &&& n is Ok
            &&& n->Ok_0.occurrences == m.occurrences.push(
                ProcessOccurrence { pid, state: OccurrenceState::ConfirmedGone, top: false },
            )
            &&& n->Ok_0.unique == m.unique + 1
            &&& classified(m, pid, ProcessProbe::Foreign, waits) == n
        },
        (forall|j: int|
            0 <= j < m.occurrences.len() && m.occurrences[j].pid == pid
                && m.occurrences[j].state is Retained ==> #[trigger] waits[j] is Signaled) ==> {
            let n = classified(m, pid, ProcessProbe::Member(handle), waits);
            &&& n is Ok
            &&& n->Ok_0.occurrences == m.occurrences.push(
                ProcessOccurrence { pid, state: OccurrenceState::Retained(handle), top: false },
            )
            &&& n->Ok_0.unique == m.unique + 1
        },
{
    if forall|j: int|
        0 <= j < m.occurrences.len() && m.occurrences[j].pid == pid
            && m.occurrences[j].state is Retained ==> #[trigger] waits[j] is Signaled {
        let n = m.occurrences.len() as int;
        lemma_all_signaled(m.occurrences, pid, waits, n);
        assert(m.occurrences.take(n) =~= m.occurrences);
    }
}

/// A process that cannot be looked at is a failure.
pub proof fn law_failed_looks_are_told(
    m: MonitorModel,
    pid: u32,
    f: Failure,
    waits: Seq<WaitResult>,
)
    ensures
        classified(m, pid, ProcessProbe::OpenFailed(f), waits) matches Err(e) && e.0 == f.kind,
        classified(m, pid, ProcessProbe::MembershipFailed(f), waits) matches Err(e) && e.0
            == f.kind,
{
}

/// All processes that are kept have ended exactly where waiting on each says so; one that
/// runs is enough for the opposite, and the first wait that fails decides.
pub proof fn law_ended_jobs_have_no_running_process(
    all: Seq<ProcessOccurrence>,
    waits: Seq<WaitResult>,
    n: int,
)
    requires
        0 <= n <= all.len(),
        forall|i: int|
            0 <= i < n && (#[trigger] all[i]).state is Retained ==> waits[i] is Signaled
                || waits[i] is Running,
        n < all.len() ==> all[n].state is Retained && (waits[n] is Failed
            || waits[n] is Unexpected),
    ensures
        n < all.len() ==> all_ended(all, waits) is Err,
        n == all.len() ==> {
            let running = exists|i: int|
                0 <= i < n && (#[trigger] all[i]).state is Retained && waits[i] is Running;
            all_ended(all, waits) == Ok::<bool, (FailureKind, Seq<char>)>(!running)
        },
    decreases all.len(),
{
    if all.len() > 0 {
        let init = all.drop_last();
        let last = all.len() - 1;
        let m = if n == all.len() {
            n - 1
        } else {
            n
        };
        assert forall|i: int| 0 <= i < m && (#[trigger] init[i]).state is Retained implies waits[i] is Signaled
            || waits[i] is Running by {
            assert(init[i] == all[i]);
        }
        if m < init.len() {
            assert(init[m] == all[m]);
        }
        law_ended_jobs_have_no_running_process(init, waits, m);
        assert(all.last() == all[last]);
        if n == all.len() {
            let before = exists|i: int|
                0 <= i < m && (#[trigger] init[i]).state is Retained && waits[i] is Running;
            if before {
                let i = choose|i: int|
                    0 <= i < m && (#[trigger] init[i]).state is Retained && waits[i] is Running;
                assert(all[i].state is Retained && waits[i] is Running);
            }
            if exists|i: int|
                0 <= i < n && (#[trigger] all[i]).state is Retained && waits[i] is Running {
                let i = choose|i: int|
                    0 <= i < n && (#[trigger] all[i]).state is Retained && waits[i] is Running;
                if i < last {
                    assert(init[i].state is Retained && waits[i] is Running);
                }
            }
        }
    }
}

/// The top process can be taken into account exactly where it is in the job and the job counts
/// at least one process.
pub proof fn law_top_processes_are_in_their_job(
    contained: Result<bool, Failure>,
    accounting: Result<Accounting, Failure>,
)
    ensures
        seed_problem(contained, accounting) is None <==> contained == Ok::<bool, Failure>(true)
            && accounting is Ok && accounting->Ok_0.total >= 1,
{
}

/// The handle of the top process is the one that was kept apart, else the first that is kept
/// among the known processes.
pub proof fn law_the_first_top_handle_counts(
    top: u64,
    all: Seq<ProcessOccurrence>,
    n: int,
)
    requires
        0 <= n <= all.len(),
        forall|i: int|
            0 <= i < n ==> !((#[trigger] all[i]).top && all[i].state is Retained),
        n < all.len() ==> all[n].top && all[n].state is Retained,
    ensures
        top_handle_of(Some(top), all) == Some(top),
        n < all.len() ==> top_handle_of(None, all) == Some(all[n].state->Retained_0),
        n == all.len() ==> top_handle_of(None, all) is None,
    decreases all.len(),
{
    if all.len() > 0 {
        let init = all.drop_last();
        let m = if n == all.len() {
            n - 1
        } else {
            n
        };
        assert forall|i: int| 0 <= i < m implies !((#[trigger] init[i]).top
            && init[i].state is Retained) by {
            assert(init[i] == all[i]);
        }
        if m < init.len() {
            assert(init[m] == all[m]);
        }
        law_the_first_top_handle_counts(top, init, m);
        assert(all.last() == all[all.len() - 1]);
    }
}

} // verus!
