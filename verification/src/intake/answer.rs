//! What a launcher is told of its action, and what it makes of it.

use crate::execution::{Execution, ExecutionModel, ReasonModel};
use vstd::prelude::*;

verus! {

/// One message of the answer to a submission.
#[derive(Debug, Clone, PartialEq, Eq)]
pub enum SubmitEvent {
    /// The action is done; how it ran.
    Completed(String),
    /// What it wrote to its console.
    Stdio { is_stderr: bool, data: Vec<u8> },
    Exit { exit_code: i32, wall_time_us: u64 },
    /// Something else.
    Other,
}

/// The view of a [`SubmitEvent`].
pub enum EventModel {
    Completed(Seq<char>),
    Stdio(bool, Seq<u8>),
    Exit(i32, u64),
    Other,
}

impl View for SubmitEvent {
    type V = EventModel;

    open spec fn view(&self) -> EventModel {
        match *self {
            SubmitEvent::Completed(note) => EventModel::Completed(note@),
            SubmitEvent::Stdio { is_stderr, data } => EventModel::Stdio(is_stderr, data@),
            SubmitEvent::Exit { exit_code, wall_time_us } => EventModel::Exit(
                exit_code,
                wall_time_us,
            ),
            SubmitEvent::Other => EventModel::Other,
        }
    }
}

pub open spec fn events_view(events: Seq<SubmitEvent>) -> Seq<EventModel> {
    Seq::new(events.len(), |i: int| events[i]@)
}

/// The messages for console output, none for none.
pub open spec fn console_events(stdout: Seq<u8>, stderr: Seq<u8>) -> Seq<EventModel> {
    (if stdout.len() > 0 {
        seq![EventModel::Stdio(false, stdout)]
    } else {
        Seq::empty()
    }) + (if stderr.len() > 0 {
        seq![EventModel::Stdio(true, stderr)]
    } else {
        Seq::empty()
    })
}

pub open spec fn reason_text(r: ReasonModel) -> Seq<char> {
    match r {
        ReasonModel::RouteAway(why) => "route-away ("@ + why + ")"@,
        ReasonModel::NoWorker => "no live workers"@,
        ReasonModel::RemoteExhausted(detail) => detail,
    }
}

/// What stands for the exit code of an action that has none.
pub open spec fn told_code(code: Option<i32>) -> i32 {
    match code {
        Some(c) => c,
        None => -1i32,
    }
}

/// The answer for an action that ran: its console output, where a worker ran it, how
/// it ran, and its exit code.
pub open spec fn answer_of(e: ExecutionModel) -> Seq<EventModel> {
    match e {
        ExecutionModel::Remote(o) => console_events(o.stdout, o.stderr) + seq![
            EventModel::Completed("remote"@),
            EventModel::Exit(told_code(o.exit_code), o.wall_time_us),
        ],
        ExecutionModel::Local(code, reason) => seq![
            EventModel::Completed("local fallback: "@ + reason_text(reason)),
            EventModel::Exit(code, 0),
        ],
    }
}

/// The answer for an action that did not run because its result was cached.
pub open spec fn cached_answer(code: i32, stdout: Seq<u8>, stderr: Seq<u8>) -> Seq<EventModel> {
    seq![EventModel::Completed("cache hit"@)] + console_events(stdout, stderr) + seq![
        EventModel::Exit(code, 0),
    ]
}

fn push_event(events: &mut Vec<SubmitEvent>, e: SubmitEvent)
    ensures
        events_view(final(events)@) == events_view(old(events)@).push(e@),
{
    let ghost before = events@;
    let ghost shown = e@;
    events.push(e);
    assert(events_view(events@) =~= events_view(before).push(shown));
}

fn push_console(events: &mut Vec<SubmitEvent>, stdout: Vec<u8>, stderr: Vec<u8>)
    ensures
        events_view(final(events)@) == events_view(old(events)@) + console_events(stdout@, stderr@),
{
    let ghost before = events_view(events@);
    let ghost out = stdout@;
    let ghost err = stderr@;
    if stdout.len() > 0 {
        push_event(events, SubmitEvent::Stdio { is_stderr: false, data: stdout });
    }
    if stderr.len() > 0 {
        push_event(events, SubmitEvent::Stdio { is_stderr: true, data: stderr });
    }
    assert(events_view(events@) =~= before + console_events(out, err));
}

/// The answer for an action that ran.
pub fn emit_outcome(outcome: Execution) -> (r: Vec<SubmitEvent>)
    ensures
        events_view(r@) == answer_of(outcome@),
{
    let mut events: Vec<SubmitEvent> = Vec::new();
    assert(events_view(events@) =~= Seq::<EventModel>::empty());
    match outcome {
        Execution::Remote(o) => {
            let ghost shown = o@;
            let exit_code: i32 = match o.exit_code {
                Some(c) => c,
                None => -1,
            };
            let wall_time_us: u64 = o.wall_time_us;
            push_console(&mut events, o.stdout, o.stderr);
            push_event(&mut events, SubmitEvent::Completed("remote".to_owned()));
            push_event(&mut events, SubmitEvent::Exit { exit_code, wall_time_us });
            assert(events_view(events@) =~= answer_of(ExecutionModel::Remote(shown)));
        },
        Execution::LocalFallback { exit_code, reason } => {
            let ghost shown = reason@;
            let mut note = "local fallback: ".to_owned();
            note.append(reason.text().as_str());
            assert(reason.told() == reason_text(shown));
            push_event(&mut events, SubmitEvent::Completed(note));
            push_event(&mut events, SubmitEvent::Exit { exit_code, wall_time_us: 0 });
            assert(events_view(events@) =~= answer_of(ExecutionModel::Local(exit_code, shown)));
        },
    }
    events
}

/// The answer for an action that did not run because its result was cached.
pub fn emit_cached(exit_code: i32, stdout: Vec<u8>, stderr: Vec<u8>) -> (r: Vec<SubmitEvent>)
    ensures
        events_view(r@) == cached_answer(exit_code, stdout@, stderr@),
{
    let ghost out = stdout@;
    let ghost err = stderr@;
    let mut events: Vec<SubmitEvent> = Vec::new();
    assert(events_view(events@) =~= Seq::<EventModel>::empty());
    push_event(&mut events, SubmitEvent::Completed("cache hit".to_owned()));
    push_console(&mut events, stdout, stderr);
    push_event(&mut events, SubmitEvent::Exit { exit_code, wall_time_us: 0 });
    assert(events_view(events@) =~= cached_answer(exit_code, out, err));
    events
}

/// What a launcher has heard of its action.
#[derive(Debug, Clone, PartialEq, Eq)]
pub struct SubmitReply {
    pub exit_code: Option<i32>,
    pub note: String,
}

/// What a launcher has heard after the messages `events`: the last exit code, and
/// the last note that is not empty.
pub open spec fn heard(events: Seq<EventModel>) -> (Option<i32>, Seq<char>)
    decreases events.len(),
{
    if events.len() == 0 {
        (None, Seq::empty())
    } else {
        let (code, note) = heard(events.drop_last());
        match events.last() {
            EventModel::Exit(c, _) => (Some(c), note),
            EventModel::Completed(n) => if n.len() > 0 {
                (code, n)
            } else {
                (code, note)
            },
            _ => (code, note),
        }
    }
}

/// What a launcher writes to its own console.
#[derive(Debug, Clone, PartialEq, Eq)]
pub struct ConsoleWrite {
    pub is_stderr: bool,
    pub data: Vec<u8>,
}

impl SubmitReply {
    pub open spec fn model(self) -> (Option<i32>, Seq<char>) {
        (self.exit_code, self.note@)
    }

    pub fn new() -> (r: SubmitReply)
        ensures
            r.model() == heard(Seq::empty()),
    {
        let r = SubmitReply { exit_code: None, note: String::new() };
        assert(r.note@ =~= Seq::<char>::empty());
        r
    }

    /// Takes in one message; console output is to be written out.
    pub fn submit_with_transport(&mut self, event: SubmitEvent) -> (r: Option<ConsoleWrite>)
        ensures
            forall|events: Seq<EventModel>|
                old(self).model() == heard(events) ==> final(self).model() == #[trigger] heard(
                    events.push(event@),
                ),
            match event {
                SubmitEvent::Stdio { is_stderr, data } => r == Some(
                    ConsoleWrite { is_stderr, data },
                ),
                _ => r is None,
            },
    {
        proof {
            assert forall|events: Seq<EventModel>| true implies #[trigger] events.push(
                event@,
            ).drop_last() == events by {
                assert(events.push(event@).drop_last() =~= events);
            }
        }
        match event {
            SubmitEvent::Exit { exit_code, wall_time_us: _ } => {
                self.exit_code = Some(exit_code);
                None
            },
            SubmitEvent::Completed(note) => {
                if !note.as_str().is_empty() {
                    self.note = note;
                }
                None
            },
            SubmitEvent::Stdio { is_stderr, data } => Some(ConsoleWrite { is_stderr, data }),
            SubmitEvent::Other => None,
        }
    }

    /// What the answer came to, once it has ended.
    pub fn finish(self) -> (r: Result<(i32, String), String>)
        ensures
            match self.exit_code {
                Some(c) => r matches Ok(p) && p.0 == c && p.1@ == self.note@,
                None => r matches Err(m) && m@ == "daemon closed the stream with no exit status"@,
            },
    {
        match self.exit_code {
            Some(c) => Ok((c, self.note)),
            None => Err("daemon closed the stream with no exit status".to_owned()),
        }
    }
}

proof fn lemma_console_says_nothing(stdout: Seq<u8>, stderr: Seq<u8>, prefix: Seq<EventModel>)
    ensures
        heard(prefix + console_events(stdout, stderr)) == heard(prefix),
{
    let a = if stdout.len() > 0 {
        prefix.push(EventModel::Stdio(false, stdout))
    } else {
        prefix
    };
    let b = if stderr.len() > 0 {
        a.push(EventModel::Stdio(true, stderr))
    } else {
        a
    };
    if stdout.len() > 0 {
        assert(a.drop_last() =~= prefix);
    }
    assert(heard(a) == heard(prefix));
    if stderr.len() > 0 {
        assert(b.drop_last() =~= a);
    }
    assert(heard(b) == heard(a));
    assert(b =~= prefix + console_events(stdout, stderr));
}

/// A launcher that has heard the whole answer exits as the action did, and knows how
/// it ran.
pub proof fn law_launchers_exit_as_the_action_did(e: ExecutionModel)
    ensures
        e matches ExecutionModel::Remote(o) ==> heard(answer_of(e)) == (
            Some(told_code(o.exit_code)),
            "remote"@,
        ),
        e matches ExecutionModel::Local(code, reason) ==> heard(answer_of(e)) == (
            Some(code),
            "local fallback: "@ + reason_text(reason),
        ),
{
    reveal_strlit("remote");
    reveal_strlit("local fallback: ");
    match e {
        ExecutionModel::Remote(o) => {
            let none = Seq::<EventModel>::empty();
            let console = console_events(o.stdout, o.stderr);
            lemma_console_says_nothing(o.stdout, o.stderr, none);
            assert(none + console =~= console);
            let all = answer_of(e);
            let note = console.push(EventModel::Completed("remote"@));
            let code = told_code(o.exit_code);
            assert(all =~= note.push(EventModel::Exit(code, o.wall_time_us)));
            assert(all.drop_last() =~= note);
            assert(note.drop_last() =~= console);
            assert("remote"@.len() > 0);
            assert(heard(console) == heard(none));
            assert(heard(note) == (None::<i32>, "remote"@));
            assert(all.last() == EventModel::Exit(code, o.wall_time_us));
            assert(heard(all.drop_last()) == heard(note));
            assert(heard(all) == (Some(code), "remote"@));
        },
        ExecutionModel::Local(code, reason) => {
            let all = answer_of(e);
            let note = seq![EventModel::Completed("local fallback: "@ + reason_text(reason))];
            assert(all.drop_last() =~= note);
            assert(note.drop_last() =~= Seq::<EventModel>::empty());
            assert("local fallback: "@.len() > 0);
            assert(heard(Seq::<EventModel>::empty()).0 is None);
            assert(heard(note) == (None::<i32>, "local fallback: "@ + reason_text(reason)));
        },
    }
}

/// The same holds of an action whose result was cached.
pub proof fn law_cached_answers_are_heard(code: i32, stdout: Seq<u8>, stderr: Seq<u8>)
    ensures
        heard(cached_answer(code, stdout, stderr)) == (Some(code), "cache hit"@),
{
    reveal_strlit("cache hit");
    let note = seq![EventModel::Completed("cache hit"@)];
    assert(note.drop_last() =~= Seq::<EventModel>::empty());
    assert("cache hit"@.len() > 0);
    lemma_console_says_nothing(stdout, stderr, note);
    let all = cached_answer(code, stdout, stderr);
    assert(all.drop_last() =~= note + console_events(stdout, stderr));
}

/// What the messages `events` say was written to one of the two streams, in their order.
pub open spec fn written(events: Seq<EventModel>, to_stderr: bool) -> Seq<u8>
    decreases events.len(),
{
    if events.len() == 0 {
        Seq::empty()
    } else {
        let before = written(events.drop_last(), to_stderr);
        match events.last() {
            EventModel::Stdio(is_stderr, data) => if is_stderr == to_stderr {
                before + data
            } else {
                before
            },
            _ => before,
        }
    }
}

proof fn lemma_written_of_both(a: Seq<EventModel>, b: Seq<EventModel>, to_stderr: bool)
    ensures
        written(a + b, to_stderr) == written(a, to_stderr) + written(b, to_stderr),
    decreases b.len(),
{
    if b.len() == 0 {
        assert(a + b =~= a);
        assert(written(a, to_stderr) + written(b, to_stderr) =~= written(a, to_stderr));
    } else {
        lemma_written_of_both(a, b.drop_last(), to_stderr);
        assert((a + b).drop_last() =~= a + b.drop_last());
        assert((a + b).last() == b.last());
        assert(written(a + b, to_stderr) =~= written(a, to_stderr) + written(b, to_stderr));
    }
}

proof fn lemma_written_of_one(e: EventModel, to_stderr: bool)
    ensures
        written(seq![e], to_stderr) == match e {
            EventModel::Stdio(is_stderr, data) => if is_stderr == to_stderr {
                data
            } else {
                Seq::empty()
            },
            _ => Seq::empty(),
        },
{
    assert(seq![e].drop_last() =~= Seq::<EventModel>::empty());
    assert(written(seq![e].drop_last(), to_stderr) =~= Seq::<u8>::empty());
    if let EventModel::Stdio(_, data) = e {
        assert(Seq::<u8>::empty() + data =~= data);
    }
}

proof fn lemma_console_is_written(stdout: Seq<u8>, stderr: Seq<u8>)
    ensures
        written(console_events(stdout, stderr), false) == stdout,
        written(console_events(stdout, stderr), true) == stderr,
{
    let none = Seq::<EventModel>::empty();
    let out = if stdout.len() > 0 {
        seq![EventModel::Stdio(false, stdout)]
    } else {
        none
    };
    let err = if stderr.len() > 0 {
        seq![EventModel::Stdio(true, stderr)]
    } else {
        none
    };
    lemma_written_of_one(EventModel::Stdio(false, stdout), false);
    lemma_written_of_one(EventModel::Stdio(false, stdout), true);
    lemma_written_of_one(EventModel::Stdio(true, stderr), false);
    lemma_written_of_one(EventModel::Stdio(true, stderr), true);
    lemma_written_of_both(out, err, false);
    lemma_written_of_both(out, err, true);
    assert(console_events(stdout, stderr) == out + err);
    assert(written(out + err, false) =~= stdout);
    assert(written(out + err, true) =~= stderr);
}

/// A launcher writes what the action wrote: all that its answer says of a stream, put
/// together in order, is what a worker took from that stream. A local run has written to
/// its console itself, and nothing is written again.
pub proof fn law_launchers_write_what_the_action_wrote(e: ExecutionModel)
    ensures
        e matches ExecutionModel::Remote(o) ==> written(answer_of(e), false) == o.stdout
            && written(answer_of(e), true) == o.stderr,
        e is Local ==> written(answer_of(e), false).len() == 0 && written(
            answer_of(e),
            true,
        ).len() == 0,
{
    match e {
        ExecutionModel::Remote(o) => {
            let note = EventModel::Completed("remote"@);
            let exit = EventModel::Exit(told_code(o.exit_code), o.wall_time_us);
            lemma_rest_is_not_written(console_events(o.stdout, o.stderr), note, exit, false);
            lemma_rest_is_not_written(console_events(o.stdout, o.stderr), note, exit, true);
            lemma_console_is_written(o.stdout, o.stderr);
        },
        ExecutionModel::Local(code, reason) => {
            let note = EventModel::Completed("local fallback: "@ + reason_text(reason));
            let none = Seq::<EventModel>::empty();
            lemma_rest_is_not_written(none, note, EventModel::Exit(code, 0), false);
            lemma_rest_is_not_written(none, note, EventModel::Exit(code, 0), true);
            assert(none + seq![note, EventModel::Exit(code, 0)] =~= answer_of(e));
        },
    }
}

proof fn lemma_rest_is_not_written(
    front: Seq<EventModel>,
    note: EventModel,
    exit: EventModel,
    to_stderr: bool,
)
    requires
        note is Completed,
        exit is Exit,
    ensures
        written(front + seq![note, exit], to_stderr) == written(front, to_stderr),
{
    lemma_written_of_both(front, seq![note, exit], to_stderr);
    assert(seq![note, exit] =~= seq![note] + seq![exit]);
    lemma_written_of_both(seq![note], seq![exit], to_stderr);
    lemma_written_of_one(note, to_stderr);
    lemma_written_of_one(exit, to_stderr);
    assert(written(front, to_stderr) + written(seq![note, exit], to_stderr) =~= written(
        front,
        to_stderr,
    ));
}

/// The same holds of an action whose result was cached: what was recorded is written.
pub proof fn law_cached_console_is_written(code: i32, stdout: Seq<u8>, stderr: Seq<u8>)
    ensures
        written(cached_answer(code, stdout, stderr), false) == stdout,
        written(cached_answer(code, stdout, stderr), true) == stderr,
{
    let note = seq![EventModel::Completed("cache hit"@)];
    let exit = seq![EventModel::Exit(code, 0)];
    let console = console_events(stdout, stderr);
    lemma_console_is_written(stdout, stderr);
    assert forall|to_stderr: bool| #[trigger]
        written(cached_answer(code, stdout, stderr), to_stderr) == written(console, to_stderr) by {
        lemma_written_of_both(note + console, exit, to_stderr);
        lemma_written_of_both(note, console, to_stderr);
        lemma_written_of_one(EventModel::Completed("cache hit"@), to_stderr);
        lemma_written_of_one(EventModel::Exit(code, 0), to_stderr);
        assert(written(cached_answer(code, stdout, stderr), to_stderr) =~= written(
            console,
            to_stderr,
        ));
    }
}

/// An answer ends with the exit code, which is told once: that of the action, -1 where a
/// worker told none, and the time that a worker measured, none for a local or cached one.
/// Before it stands how the action ran, told once.
pub proof fn law_answers_end_with_the_exit_code(e: ExecutionModel)
    ensures
        ({
            let all = answer_of(e);
            let n = all.len() as int;
            &&& n >= 2
            &&& forall|i: int| 0 <= i < n - 1 ==> !(#[trigger] all[i] is Exit)
            &&& forall|i: int| 0 <= i < n - 2 ==> #[trigger] all[i] is Stdio
            &&& match e {
                ExecutionModel::Remote(o) => {
                    &&& all[n - 2] == EventModel::Completed("remote"@)
                    &&& o.exit_code matches Some(c) ==> all[n - 1] == EventModel::Exit(
                        c,
                        o.wall_time_us,
                    )
                    &&& o.exit_code is None ==> all[n - 1] == EventModel::Exit(
                        -1i32,
                        o.wall_time_us,
                    )
                },
                ExecutionModel::Local(c, reason) => {
                    &&& n == 2
                    &&& all[n - 1] == EventModel::Exit(c, 0)
                    &&& all[n - 2] == EventModel::Completed(
                        "local fallback: "@ + match reason {
                            ReasonModel::RouteAway(why) => "route-away ("@ + why + ")"@,
                            ReasonModel::NoWorker => "no live workers"@,
                            ReasonModel::RemoteExhausted(detail) => detail,
                        },
                    )
                },
            }
        }),
{
}

/// A cached answer says so first, and ends with the recorded exit code.
pub proof fn law_cached_answers_end_with_the_exit_code(
    code: i32,
    stdout: Seq<u8>,
    stderr: Seq<u8>,
)
    ensures
        ({
            let all = cached_answer(code, stdout, stderr);
            let n = all.len() as int;
            &&& n >= 2
            &&& all[0] == EventModel::Completed("cache hit"@)
            &&& all[n - 1] == EventModel::Exit(code, 0)
            &&& forall|i: int| 0 < i < n - 1 ==> #[trigger] all[i] is Stdio
        }),
{
}

/// What a launcher makes of any messages: the exit code is that of the last message that
/// tells one, none where none does; the note is the last one that is not empty.
pub proof fn law_launchers_go_by_the_last_word(events: Seq<EventModel>)
    ensures
        match heard(events).0 {
            None => forall|i: int| 0 <= i < events.len() ==> !(#[trigger] events[i] is Exit),
            Some(c) => exists|i: int|
                {
                    &&& 0 <= i < events.len()
                    &&& #[trigger] events[i] matches EventModel::Exit(d, _) && d == c
                    &&& forall|j: int| i < j < events.len() ==> !(#[trigger] events[j] is Exit)
                },
        },
        ({
            ||| heard(events).1.len() == 0 && forall|i: int|
                0 <= i < events.len() ==> (#[trigger] events[i] matches EventModel::Completed(n)
                    ==> n.len() == 0)
            ||| exists|i: int|
                {
                    &&& 0 <= i < events.len()
                    &&& #[trigger] events[i] == EventModel::Completed(heard(events).1)
                    &&& heard(events).1.len() > 0
                    &&& forall|j: int|
                        i < j < events.len() ==> (#[trigger] events[j] matches
                            EventModel::Completed(n) ==> n.len() == 0)
                }
        }),
    decreases events.len(),
{
    if events.len() > 0 {
        let init = events.drop_last();
        law_launchers_go_by_the_last_word(init);
        let last = events.len() - 1;
        assert(events[last] == events.last());
        assert forall|i: int| 0 <= i < init.len() implies init[i] == events[i] by {}
        if let Some(c) = heard(init).0 {
            let i = choose|i: int|
                {
                    &&& 0 <= i < init.len()
                    &&& #[trigger] init[i] matches EventModel::Exit(d, _) && d == c
                    &&& forall|j: int| i < j < init.len() ==> !(#[trigger] init[j] is Exit)
                };
            assert(events[i] == init[i]);
            assert(forall|j: int| i < j < init.len() ==> #[trigger] events[j] == init[j]);
        }
        if heard(init).1.len() > 0 {
            let i = choose|i: int|
                {
                    &&& 0 <= i < init.len()
                    &&& #[trigger] init[i] == EventModel::Completed(heard(init).1)
                    &&& heard(init).1.len() > 0
                    &&& forall|j: int|
                        i < j < init.len() ==> (#[trigger] init[j] matches EventModel::Completed(n)
                            ==> n.len() == 0)
                };
            assert(events[i] == init[i]);
            assert(forall|j: int| i < j < init.len() ==> #[trigger] events[j] == init[j]);
        }
    }
}

} // verus!
