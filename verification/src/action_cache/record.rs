//! How the result of an action that ran is stored.

use crate::action_cache::manifest::{
    encode_manifest, law_manifest_round_trip, manifest_bytes, manifest_fits, stores, InputManifest,
    ManifestModel,
};
use crate::action_cache::publish::{
    files_of, good_events, got_from, is_under_build_root, keeps,
    law_hits_put_the_stored_contents_in_place, law_kept_results_are_put_in_place,
    law_whole_results_are_hits, lookup_start, outputs_view, placed, publish_after, publish_course,
    publish_start, stays_below, ActionResult, LookupModel, LookupStart, OutputFile, OutputModel,
    PhaseModel, PublishEvent, ResultModel,
};
use crate::failure::{Failure, FailureKind};
use crate::filepath::RootModel;
use crate::fileserver::paths::opt_text;
use crate::text::{debug_of, debug_text, texts};
use vstd::prelude::*;

verus! {

/// What to do next to store a result.
pub enum RecordPhase {
    /// Store the manifest under the key of the action.
    PutManifest(Vec<u8>),
    /// Read the next output.
    ReadOutput,
    /// Store its content.
    PutOutput(Vec<u8>),
    /// Hash the present content of the inputs.
    HashInputs,
    /// Store what was written to the console; the hash of the inputs.
    PutStdout(String),
    PutStderr(String, Option<String>),
    /// Store the result under the key of the action and the hash of its inputs.
    PutResult(String, ActionResult),
    Finished(Result<(), Failure>),
}

/// What came of it.
pub enum RecordEvent {
    Done,
    /// The content of an output.
    Read(Vec<u8>),
    /// The digest under which content was stored.
    Stored(String),
    /// The hash of the inputs.
    Hashed(String),
    Failed(Failure),
}

/// A result on its way to the cache.
pub struct Recording {
    pub outputs: Vec<String>,
    pub exit_code: i32,
    pub stdout: Vec<u8>,
    pub stderr: Vec<u8>,
    pub stored: Vec<OutputFile>,
    pub phase: RecordPhase,
}

/// The view of a [`RecordPhase`].
pub enum RecordPhaseModel {
    PutManifest(Seq<u8>),
    ReadOutput,
    PutOutput(Seq<u8>),
    HashInputs,
    PutStdout(Seq<char>),
    PutStderr(Seq<char>, Option<Seq<char>>),
    PutResult(Seq<char>, ResultModel),
    Finished(Option<(FailureKind, Seq<char>)>),
}

/// The view of a [`Recording`].
pub struct RecordModel {
    pub outputs: Seq<Seq<char>>,
    pub exit_code: i32,
    pub stdout: Seq<u8>,
    pub stderr: Seq<u8>,
    pub stored: Seq<OutputModel>,
    pub phase: RecordPhaseModel,
}

impl View for RecordPhase {
    type V = RecordPhaseModel;

    open spec fn view(&self) -> RecordPhaseModel {
        match *self {
            RecordPhase::PutManifest(b) => RecordPhaseModel::PutManifest(b@),
            RecordPhase::ReadOutput => RecordPhaseModel::ReadOutput,
            RecordPhase::PutOutput(b) => RecordPhaseModel::PutOutput(b@),
            RecordPhase::HashInputs => RecordPhaseModel::HashInputs,
            RecordPhase::PutStdout(h) => RecordPhaseModel::PutStdout(h@),
            RecordPhase::PutStderr(h, d) => RecordPhaseModel::PutStderr(h@, opt_text(d)),
            RecordPhase::PutResult(h, r) => RecordPhaseModel::PutResult(h@, r@),
            RecordPhase::Finished(r) => RecordPhaseModel::Finished(
                match r {
                    Ok(_) => None,
                    Err(f) => Some(f@),
                },
            ),
        }
    }
}

impl View for Recording {
    type V = RecordModel;

    open spec fn view(&self) -> RecordModel {
        RecordModel {
            outputs: texts(self.outputs@),
            exit_code: self.exit_code,
            stdout: self.stdout@,
            stderr: self.stderr@,
            stored: outputs_view(self.stored@),
            phase: self.phase@,
        }
    }
}

/// The failure of an output outside the build root.
pub open spec fn outside(logical: Seq<char>) -> (FailureKind, Seq<char>) {
    (
        FailureKind::PermissionDenied,
        "refusing to cache output outside the build root: "@ + debug_text(logical),
    )
}

/// The first of the outputs that does not stay below the build root.
pub open spec fn first_outside(outputs: Seq<Seq<char>>) -> Option<Seq<char>>
    decreases outputs.len(),
{
    if outputs.len() == 0 {
        None
    } else if !stays_below(outputs[0]) {
        Some(outputs[0])
    } else {
        first_outside(outputs.drop_first())
    }
}

/// How storing begins: not at all, where the manifest does not cover everything
/// that the result depends on or an output is outside the build root.
pub open spec fn record_begin(m: ManifestModel, outputs: Seq<Seq<char>>) -> RecordPhaseModel {
    if !m.cacheable {
        RecordPhaseModel::Finished(None)
    } else if first_outside(outputs) is Some {
        RecordPhaseModel::Finished(Some(outside(first_outside(outputs)->0)))
    } else {
        RecordPhaseModel::PutManifest(manifest_bytes(m))
    }
}

impl RecordModel {
    pub open spec fn at(self, phase: RecordPhaseModel) -> RecordModel {
        RecordModel { phase, ..self }
    }

    pub open spec fn failed(self, f: Failure) -> RecordModel {
        self.at(RecordPhaseModel::Finished(Some(f@)))
    }

    pub open spec fn to_output(self) -> RecordModel {
        if self.stored.len() < self.outputs.len() {
            self.at(RecordPhaseModel::ReadOutput)
        } else {
            self.at(RecordPhaseModel::HashInputs)
        }
    }

    pub open spec fn to_stdout(self, hash: Seq<char>) -> RecordModel {
        if self.stdout.len() == 0 {
            self.to_stderr(hash, None)
        } else {
            self.at(RecordPhaseModel::PutStdout(hash))
        }
    }

    pub open spec fn to_stderr(self, hash: Seq<char>, stdout: Option<Seq<char>>) -> RecordModel {
        if self.stderr.len() == 0 {
            self.to_result(hash, stdout, None)
        } else {
            self.at(RecordPhaseModel::PutStderr(hash, stdout))
        }
    }

    pub open spec fn to_result(
        self,
        hash: Seq<char>,
        stdout: Option<Seq<char>>,
        stderr: Option<Seq<char>>,
    ) -> RecordModel {
        self.at(
            RecordPhaseModel::PutResult(
                hash,
                ResultModel {
                    exit_code: self.exit_code,
                    outputs: self.stored,
                    stdout,
                    stderr,
                },
            ),
        )
    }

    /// Whether an event can follow.
    pub open spec fn expects(self, e: RecordEvent) -> bool {
        match self.phase {
            RecordPhaseModel::PutManifest(_) => e is Done || e is Failed,
            RecordPhaseModel::ReadOutput => e is Read || e is Failed,
            RecordPhaseModel::PutOutput(_) => e is Stored || e is Failed,
            RecordPhaseModel::HashInputs => e is Hashed || e is Failed,
            RecordPhaseModel::PutStdout(_) => e is Stored || e is Failed,
            RecordPhaseModel::PutStderr(_, _) => e is Stored || e is Failed,
            RecordPhaseModel::PutResult(_, _) => e is Done || e is Failed,
            RecordPhaseModel::Finished(_) => false,
        }
    }

    /// How it goes on. A failure to hash the inputs only leaves the result out.
    pub open spec fn next(self, e: RecordEvent) -> RecordModel {
        match (self.phase, e) {
            (RecordPhaseModel::PutManifest(_), RecordEvent::Done) => self.to_output(),
            (RecordPhaseModel::ReadOutput, RecordEvent::Read(b)) => self.at(
                RecordPhaseModel::PutOutput(b@),
            ),
            (RecordPhaseModel::PutOutput(_), RecordEvent::Stored(d)) => (RecordModel {
                stored: self.stored.push(
                    OutputModel { logical: self.outputs[self.stored.len() as int], digest: d@ },
                ),
                ..self
            }).to_output(),
            (RecordPhaseModel::HashInputs, RecordEvent::Hashed(h)) => self.to_stdout(h@),
            (RecordPhaseModel::HashInputs, RecordEvent::Failed(_)) => self.at(
                RecordPhaseModel::Finished(None),
            ),
            (RecordPhaseModel::PutStdout(h), RecordEvent::Stored(d)) => self.to_stderr(h, Some(d@)),
            (RecordPhaseModel::PutStderr(h, out), RecordEvent::Stored(d)) => self.to_result(
                h,
                out,
                Some(d@),
            ),
            (RecordPhaseModel::PutResult(_, _), RecordEvent::Done) => self.at(
                RecordPhaseModel::Finished(None),
            ),
            (_, RecordEvent::Failed(f)) => self.failed(f),
            _ => self,
        }
    }
}

fn find_outside(outputs: &Vec<String>) -> (r: Option<usize>)
    ensures
        match r {
            Some(i) => i < outputs@.len() && first_outside(texts(outputs@)) == Some(
                outputs@[i as int]@,
            ),
            None => first_outside(texts(outputs@)) is None,
        },
{
    let ghost all = texts(outputs@);
    let mut i: usize = 0;
    assert(all.skip(0) =~= all);
    while i < outputs.len()
        invariant
            i <= outputs@.len(),
            all == texts(outputs@),
            first_outside(all) == first_outside(all.skip(i as int)),
        decreases outputs@.len() - i,
    {
        assert(all.skip(i as int)[0] == outputs@[i as int]@);
        if !is_under_build_root(outputs[i].as_str()) {
            return Some(i);
        }
        assert(all.skip(i as int).drop_first() =~= all.skip(i + 1));
        i = i + 1;
    }
    None
}

impl Recording {
    /// The outputs that are stored fit the counters.
    pub open spec fn wf(&self) -> bool {
        &&& self.stored@.len() <= self.outputs@.len()
        &&& self.phase is ReadOutput || self.phase is PutOutput ==> self.stored@.len()
            < self.outputs@.len()
    }

    /// Begins to store the result of an action.
    pub fn record(
        manifest: &InputManifest,
        outputs: Vec<String>,
        exit_code: i32,
        stdout: Vec<u8>,
        stderr: Vec<u8>,
    ) -> (r: Recording)
        ensures
            r.wf(),
            r@ == (RecordModel {
                outputs: texts(outputs@),
                exit_code,
                stdout: stdout@,
                stderr: stderr@,
                stored: Seq::empty(),
                phase: record_begin(manifest@, texts(outputs@)),
            }),
    {
        let phase = if !manifest.cacheable {
            RecordPhase::Finished(Ok(()))
        } else {
            match find_outside(&outputs) {
                Some(i) => {
                    let shown = debug_of(outputs[i].as_str());
                    RecordPhase::Finished(
                        Err(
                            Failure::about(
                                FailureKind::PermissionDenied,
                                "refusing to cache output outside the build root: ",
                                shown.as_str(),
                            ),
                        ),
                    )
                },
                None => RecordPhase::PutManifest(encode_manifest(manifest)),
            }
        };
        assert(manifest@.cacheable == manifest.cacheable);
        let r = Recording { outputs, exit_code, stdout, stderr, stored: Vec::new(), phase };
        assert(r@.stored =~= Seq::<OutputModel>::empty());
        r
    }

    /// The output to read next.
    pub fn next_output(&self) -> (r: Option<String>)
        ensures
            if self@.stored.len() < self@.outputs.len() {
                r matches Some(s) && s@ == self@.outputs[self@.stored.len() as int]
            } else {
                r is None
            },
    {
        if self.stored.len() < self.outputs.len() {
            Some(self.outputs[self.stored.len()].clone())
        } else {
            None
        }
    }

    fn enter_output(&mut self)
        requires
            old(self).stored@.len() <= old(self).outputs@.len(),
        ensures
            final(self).wf(),
            final(self)@ == old(self)@.to_output(),
    {
        if self.stored.len() < self.outputs.len() {
            self.phase = RecordPhase::ReadOutput;
        } else {
            self.phase = RecordPhase::HashInputs;
        }
    }

    fn enter_stderr(&mut self, hash: String, stdout: Option<String>)
        requires
            old(self).stored@.len() <= old(self).outputs@.len(),
        ensures
            final(self).wf(),
            final(self)@ == old(self)@.to_stderr(hash@, opt_text(stdout)),
    {
        if self.stderr.len() == 0 {
            self.enter_result(hash, stdout, None);
        } else {
            self.phase = RecordPhase::PutStderr(hash, stdout);
        }
    }

    fn enter_result(&mut self, hash: String, stdout: Option<String>, stderr: Option<String>)
        requires
            old(self).stored@.len() <= old(self).outputs@.len(),
        ensures
            final(self).wf(),
            final(self)@ == old(self)@.to_result(hash@, opt_text(stdout), opt_text(stderr)),
    {
        let mut outputs: Vec<OutputFile> = Vec::new();
        let mut i: usize = 0;
        while i < self.stored.len()
            invariant
                i <= self.stored@.len(),
                outputs@.len() == i,
                forall|j: int| 0 <= j < i ==> (#[trigger] outputs@[j])@ == self.stored@[j]@,
            decreases self.stored@.len() - i,
        {
            outputs.push(
                OutputFile {
                    logical_path: self.stored[i].logical_path.clone(),
                    digest: self.stored[i].digest.clone(),
                },
            );
            i = i + 1;
        }
        assert(outputs_view(outputs@) =~= outputs_view(self.stored@));
        self.phase =
        RecordPhase::PutResult(
            hash,
            ActionResult { exit_code: self.exit_code, outputs, stdout, stderr },
        );
    }

    /// Goes on with what came of the last step.
    pub fn next(&mut self, event: RecordEvent)
        requires
            old(self).wf(),
            old(self)@.expects(event),
        ensures
            final(self).wf(),
            final(self)@ == old(self)@.next(event),
    {
        let mut phase = RecordPhase::HashInputs;
        std::mem::swap(&mut self.phase, &mut phase);
        match (phase, event) {
            (RecordPhase::HashInputs, RecordEvent::Failed(_)) => {
                self.phase = RecordPhase::Finished(Ok(()));
            },
            (_, RecordEvent::Failed(f)) => {
                self.phase = RecordPhase::Finished(Err(f));
            },
            (RecordPhase::PutManifest(_), _) => {
                self.enter_output();
            },
            (RecordPhase::ReadOutput, RecordEvent::Read(b)) => {
                self.phase = RecordPhase::PutOutput(b);
            },
            (RecordPhase::PutOutput(_), RecordEvent::Stored(digest)) => {
                let k: usize = self.stored.len();
                let ghost before = self.stored@;
                let file = OutputFile { logical_path: self.outputs[k].clone(), digest };
                let ghost shown = file@;
                self.stored.push(file);
                assert(outputs_view(self.stored@) =~= outputs_view(before).push(shown));
                self.enter_output();
            },
            (RecordPhase::HashInputs, RecordEvent::Hashed(h)) => {
                if self.stdout.len() == 0 {
                    self.enter_stderr(h, None);
                } else {
                    self.phase = RecordPhase::PutStdout(h);
                }
            },
            (RecordPhase::PutStdout(h), RecordEvent::Stored(d)) => {
                self.enter_stderr(h, Some(d));
            },
            (RecordPhase::PutStderr(h, out), RecordEvent::Stored(d)) => {
                self.enter_result(h, out, Some(d));
            },
            (RecordPhase::PutResult(_, _), _) => {
                self.phase = RecordPhase::Finished(Ok(()));
            },
            (p, _) => {
                self.phase = p;
            },
        }
    }
}

/// The outputs to record: the declared ones, else those that were found in the trace
/// of the action; `None` where there are none, and nothing is recorded.
pub fn outputs_to_record(declared: Vec<String>, found: Vec<String>) -> (r: Option<Vec<String>>)
    ensures
        r == if declared@.len() > 0 {
            Some(declared)
        } else if found@.len() > 0 {
            Some(found)
        } else {
            None
        },
{
    if declared.len() > 0 {
        Some(declared)
    } else if found.len() > 0 {
        Some(found)
    } else {
        None
    }
}

/// Where the course `events` of storing a result leads.
pub open spec fn record_after(start: RecordModel, events: Seq<RecordEvent>) -> RecordModel
    decreases events.len(),
{
    if events.len() == 0 {
        start
    } else {
        record_after(start, events.drop_last()).next(events.last())
    }
}

/// A possible course: each event can follow the step before it.
pub open spec fn record_course(start: RecordModel, events: Seq<RecordEvent>) -> bool
    decreases events.len(),
{
    events.len() == 0 || (record_course(start, events.drop_last()) && record_after(
        start,
        events.drop_last(),
    ).expects(events.last()))
}

pub open spec fn record_start(
    m: ManifestModel,
    outputs: Seq<Seq<char>>,
    exit_code: i32,
    stdout: Seq<u8>,
    stderr: Seq<u8>,
) -> RecordModel {
    RecordModel {
        outputs,
        exit_code,
        stdout,
        stderr,
        stored: Seq::empty(),
        phase: record_begin(m, outputs),
    }
}

/// The stored outputs are the first ones, in their order.
pub open spec fn stored_in_order(m: RecordModel) -> bool {
    &&& m.stored.len() <= m.outputs.len()
    &&& forall|i: int| 0 <= i < m.stored.len() ==> (#[trigger] m.stored[i]).logical == m.outputs[i]
}

spec fn record_invariant(start: RecordModel, m: RecordModel) -> bool {
    let all = m.outputs.len();
    &&& m.outputs == start.outputs && m.exit_code == start.exit_code && m.stdout == start.stdout
        && m.stderr == start.stderr
    &&& stored_in_order(m)
    &&& match m.phase {
        RecordPhaseModel::PutManifest(_) => m.stored.len() == 0,
        RecordPhaseModel::ReadOutput => m.stored.len() < all,
        RecordPhaseModel::PutOutput(_) => m.stored.len() < all,
        RecordPhaseModel::HashInputs => m.stored.len() == all,
        RecordPhaseModel::PutStdout(_) => m.stored.len() == all && m.stdout.len() > 0,
        RecordPhaseModel::PutStderr(_, out) => m.stored.len() == all && m.stderr.len() > 0 && (
        out is Some <==> m.stdout.len() > 0),
        RecordPhaseModel::PutResult(_, r) => {
            &&& m.stored.len() == all
            &&& r.outputs == m.stored
            &&& r.exit_code == m.exit_code
            &&& r.stdout is Some <==> m.stdout.len() > 0
            &&& r.stderr is Some <==> m.stderr.len() > 0
        },
        RecordPhaseModel::Finished(_) => true,
    }
}

proof fn lemma_record_invariant(start: RecordModel, events: Seq<RecordEvent>)
    requires
        record_course(start, events),
        start.stored.len() == 0,
        start.phase is PutManifest || start.phase is Finished,
    ensures
        record_invariant(start, record_after(start, events)),
    decreases events.len(),
{
    if events.len() > 0 {
        let init = events.drop_last();
        lemma_record_invariant(start, init);
        let m = record_after(start, init);
        let n = record_after(start, events);
        assert(n == m.next(events.last()));
        assert(stored_in_order(n)) by {
            if m.phase is PutOutput && events.last() is Stored {
                assert(n.stored.len() == m.stored.len() + 1);
                assert forall|i: int| 0 <= i < n.stored.len() implies (#[trigger]
                n.stored[i]).logical == n.outputs[i] by {
                    if i < m.stored.len() {
                        assert(n.stored[i] == m.stored[i]);
                    }
                }
            } else {
                assert(n.stored == m.stored);
            }
        }
    }
}

/// A manifest that does not cover everything that a result depends on, or an output
/// outside the build root, is never stored: there is no step to take.
pub proof fn law_uncacheable_actions_store_nothing(
    m: ManifestModel,
    outputs: Seq<Seq<char>>,
    i: int,
)
    requires
        !m.cacheable || (0 <= i < outputs.len() && !stays_below(outputs[i])),
    ensures
        record_begin(m, outputs) is Finished,
{
    if m.cacheable {
        lemma_first_outside(outputs, i);
    }
}

proof fn lemma_first_outside(outputs: Seq<Seq<char>>, i: int)
    requires
        0 <= i < outputs.len(),
        !stays_below(outputs[i]),
    ensures
        first_outside(outputs) is Some,
    decreases outputs.len(),
{
    if stays_below(outputs[0]) {
        assert(outputs.drop_first()[i - 1] == outputs[i]);
        lemma_first_outside(outputs.drop_first(), i - 1);
    }
}

proof fn lemma_none_outside(outputs: Seq<Seq<char>>, i: int)
    requires
        first_outside(outputs) is None,
        0 <= i < outputs.len(),
    ensures
        stays_below(outputs[i]),
    decreases outputs.len(),
{
    if i > 0 {
        assert(outputs.drop_first()[i - 1] == outputs[i]);
        lemma_none_outside(outputs.drop_first(), i - 1);
    }
}

/// The contents of the outputs as they were read, in their order.
pub open spec fn contents_read(start: RecordModel, events: Seq<RecordEvent>) -> Seq<Seq<u8>>
    decreases events.len(),
{
    if events.len() == 0 {
        Seq::empty()
    } else {
        let before = contents_read(start, events.drop_last());
        match (record_after(start, events.drop_last()).phase, events.last()) {
            (RecordPhaseModel::ReadOutput, RecordEvent::Read(content)) => before.push(content@),
            _ => before,
        }
    }
}

/// What is to be stored.
pub open spec fn content_to_put(m: RecordModel) -> Option<Seq<u8>> {
    match m.phase {
        RecordPhaseModel::PutOutput(content) => Some(content),
        RecordPhaseModel::PutStdout(_) => Some(m.stdout),
        RecordPhaseModel::PutStderr(_, _) => Some(m.stderr),
        _ => None,
    }
}

/// Whether `store` keeps all content that was stored, each under the digest that was
/// told for it.
pub open spec fn kept_in(
    store: Map<Seq<char>, Seq<u8>>,
    start: RecordModel,
    events: Seq<RecordEvent>,
) -> bool
    decreases events.len(),
{
    events.len() > 0 ==> {
        &&& kept_in(store, start, events.drop_last())
        &&& events.last() matches RecordEvent::Stored(digest) ==> {
            let content = content_to_put(record_after(start, events.drop_last()));
            content is Some && store.contains_key(digest@) && store[digest@] == content->0
        }
    }
}

/// Whether `store` keeps `content` under `digest`.
pub open spec fn holds(
    store: Map<Seq<char>, Seq<u8>>,
    digest: Seq<char>,
    content: Seq<u8>,
) -> bool {
    store.contains_key(digest) && store[digest] == content
}

spec fn kept_invariant(
    store: Map<Seq<char>, Seq<u8>>,
    start: RecordModel,
    events: Seq<RecordEvent>,
) -> bool {
    let m = record_after(start, events);
    let contents = contents_read(start, events);
    let n = m.stored.len() as int;
    &&& n <= contents.len()
    &&& forall|i: int| 0 <= i < n ==> holds(store, (#[trigger] m.stored[i]).digest, contents[i])
    &&& match m.phase {
        RecordPhaseModel::PutOutput(content) => contents.len() == n + 1 && contents[n] == content,
        RecordPhaseModel::PutStderr(_, out) => contents.len() == n && (out matches Some(d)
            ==> holds(store, d, m.stdout)),
        RecordPhaseModel::PutResult(_, r) => {
            &&& contents.len() == n
            &&& r.stdout matches Some(d) ==> holds(store, d, m.stdout)
            &&& r.stderr matches Some(d) ==> holds(store, d, m.stderr)
        },
        RecordPhaseModel::Finished(_) => true,
        _ => contents.len() == n,
    }
}

proof fn lemma_kept_invariant(
    store: Map<Seq<char>, Seq<u8>>,
    start: RecordModel,
    events: Seq<RecordEvent>,
)
    requires
        record_course(start, events),
        start.stored.len() == 0,
        start.phase is PutManifest || start.phase is Finished,
        kept_in(store, start, events),
    ensures
        kept_invariant(store, start, events),
    decreases events.len(),
{
    if events.len() > 0 {
        let init = events.drop_last();
        lemma_kept_invariant(store, start, init);
        lemma_record_invariant(start, init);
        let m = record_after(start, init);
        let n = record_after(start, events);
        let before = contents_read(start, init);
        let contents = contents_read(start, events);
        assert(n == m.next(events.last()));
        assert forall|i: int| 0 <= i < n.stored.len() implies holds(
            store,
            (#[trigger] n.stored[i]).digest,
            contents[i],
        ) by {
            if i < m.stored.len() {
                assert(n.stored[i] == m.stored[i]);
                assert(contents[i] == before[i]);
            }
        }
    }
}

/// A result is stored only with all its outputs, in their order, with its exit code,
/// and with console output exactly where there was any. Each digest in it is the one
/// under which the store keeps what was read of that output, or written to that
/// console.
pub proof fn law_results_are_stored_whole(
    store: Map<Seq<char>, Seq<u8>>,
    m: ManifestModel,
    outputs: Seq<Seq<char>>,
    exit_code: i32,
    stdout: Seq<u8>,
    stderr: Seq<u8>,
    events: Seq<RecordEvent>,
)
    requires
        record_course(record_start(m, outputs, exit_code, stdout, stderr), events),
        kept_in(store, record_start(m, outputs, exit_code, stdout, stderr), events),
        record_after(record_start(m, outputs, exit_code, stdout, stderr), events).phase is PutResult,
    ensures
        ({
            let start = record_start(m, outputs, exit_code, stdout, stderr);
            let r = record_after(start, events).phase->PutResult_1;
            let contents = contents_read(start, events);
            &&& r.exit_code == exit_code
            &&& r.outputs.len() == outputs.len()
            &&& contents.len() == outputs.len()
            &&& forall|i: int|
                0 <= i < outputs.len() ==> (#[trigger] r.outputs[i]).logical == outputs[i]
                    && holds(store, r.outputs[i].digest, contents[i])
            &&& r.stdout is Some <==> stdout.len() > 0
            &&& r.stderr is Some <==> stderr.len() > 0
            &&& r.stdout matches Some(d) ==> holds(store, d, stdout)
            &&& r.stderr matches Some(d) ==> holds(store, d, stderr)
        }),
{
    let start = record_start(m, outputs, exit_code, stdout, stderr);
    lemma_record_invariant(start, events);
    lemma_kept_invariant(store, start, events);
}

proof fn lemma_started(start: RecordModel, events: Seq<RecordEvent>)
    requires
        record_course(start, events),
        start.phase is Finished,
    ensures
        events.len() == 0,
    decreases events.len(),
{
    if events.len() > 0 {
        lemma_started(start, events.drop_last());
        assert(events.drop_last().len() == 0);
        assert(record_after(start, events.drop_last()) == start);
    }
}

/// The outputs of an action with the contents that were read of them, each at its path
/// below `root`.
pub open spec fn recorded_files(
    outputs: Seq<Seq<char>>,
    contents: Seq<Seq<u8>>,
    root: RootModel,
) -> Seq<(Seq<char>, Seq<u8>)> {
    Seq::new(outputs.len(), |i: int| (root.join(outputs[i]), contents[i]))
}

/// Whatever hit comes of a recorded result gives back what was recorded: its exit
/// code, and every output, byte for byte, at its path below whatever root. Its console
/// output is the recorded one, or empty where that could not be got.
pub proof fn law_hits_give_back_what_was_recorded(
    store: Map<Seq<char>, Seq<u8>>,
    m: ManifestModel,
    outputs: Seq<Seq<char>>,
    exit_code: i32,
    stdout: Seq<u8>,
    stderr: Seq<u8>,
    events: Seq<RecordEvent>,
    root: RootModel,
    replay: Seq<PublishEvent>,
)
    requires
        record_course(record_start(m, outputs, exit_code, stdout, stderr), events),
        kept_in(store, record_start(m, outputs, exit_code, stdout, stderr), events),
        record_after(
            record_start(m, outputs, exit_code, stdout, stderr),
            events,
        ).phase matches RecordPhaseModel::PutResult(_, r) && publish_course(r, root, replay)
            && got_from(store, r, root, replay) && (publish_after(
            r,
            root,
            replay,
        ).phase matches PhaseModel::Finished(Ok(l)) && l is Hit),
    ensures
        ({
            let start = record_start(m, outputs, exit_code, stdout, stderr);
            let r = record_after(start, events).phase->PutResult_1;
            &&& placed(r, root, replay) == recorded_files(
                outputs,
                contents_read(start, events),
                root,
            )
            &&& publish_after(r, root, replay).phase matches PhaseModel::Finished(
                Ok(LookupModel::Hit(code, out, err)),
            ) && code == exit_code && (out == stdout || out.len() == 0) && (err == stderr
                || err.len() == 0)
        }),
{
    let start = record_start(m, outputs, exit_code, stdout, stderr);
    let r = record_after(start, events).phase->PutResult_1;
    law_results_are_stored_whole(store, m, outputs, exit_code, stdout, stderr, events);
    law_hits_put_the_stored_contents_in_place(store, r, root, replay);
    let contents = contents_read(start, events);
    let files = files_of(store, r, root);
    assert forall|i: int| 0 <= i < files.len() implies #[trigger] files[i] == recorded_files(
        outputs,
        contents,
        root,
    )[i] by {
        assert(r.outputs[i].logical == outputs[i]);
    }
    assert(files =~= recorded_files(outputs, contents, root));
}

/// What was recorded is replayed: a result that is stored is a hit wherever it is
/// found again, its contents are there and nothing fails, with the exit code and the
/// console output that were recorded, and with every output put in place as it was
/// read.
pub proof fn law_recorded_results_are_replayed(
    store: Map<Seq<char>, Seq<u8>>,
    m: ManifestModel,
    outputs: Seq<Seq<char>>,
    exit_code: i32,
    stdout: Vec<u8>,
    stderr: Vec<u8>,
    events: Seq<RecordEvent>,
    root: RootModel,
    blobs: Seq<Vec<u8>>,
    temps: Seq<String>,
)
    requires
        record_course(record_start(m, outputs, exit_code, stdout@, stderr@), events),
        kept_in(store, record_start(m, outputs, exit_code, stdout@, stderr@), events),
        record_after(
            record_start(m, outputs, exit_code, stdout@, stderr@),
            events,
        ).phase matches RecordPhaseModel::PutResult(_, r) && keeps(store, r, blobs),
    ensures
        ({
            let start = record_start(m, outputs, exit_code, stdout@, stderr@);
            let r = record_after(start, events).phase->PutResult_1;
            let replay = good_events(r, blobs, temps, stdout, stderr);
            &&& publish_course(r, root, replay)
            &&& got_from(store, r, root, replay)
            &&& publish_after(r, root, replay).phase == PhaseModel::Finished(
                Ok(LookupModel::Hit(exit_code, stdout@, stderr@)),
            )
            &&& placed(r, root, replay) == recorded_files(
                outputs,
                contents_read(start, events),
                root,
            )
        }),
{
    let start = record_start(m, outputs, exit_code, stdout@, stderr@);
    if start.phase is Finished {
        lemma_started(start, events);
    }
    law_results_are_stored_whole(store, m, outputs, exit_code, stdout@, stderr@, events);
    let r = record_after(start, events).phase->PutResult_1;
    assert forall|i: int| 0 <= i < r.outputs.len() implies stays_below(
        (#[trigger] r.outputs[i]).logical,
    ) by {
        lemma_none_outside(outputs, i);
    }
    let replay = good_events(r, blobs, temps, stdout, stderr);
    law_whole_results_are_hits(r, root, blobs, temps, stdout, stderr);
    law_kept_results_are_put_in_place(store, r, root, blobs, temps, stdout, stderr);
    law_hits_give_back_what_was_recorded(
        store,
        m,
        outputs,
        exit_code,
        stdout@,
        stderr@,
        events,
        root,
        replay,
    );
    assert(stdout@.len() == 0 ==> stdout@ =~= Seq::<u8>::empty());
    assert(stderr@.len() == 0 ==> stderr@ =~= Seq::<u8>::empty());
}

/// What is found under a hash, where `results` is stored.
pub open spec fn found_under(
    results: Map<Seq<char>, ResultModel>,
    hash: Seq<char>,
) -> Option<ResultModel> {
    if results.contains_key(hash) {
        Some(results[hash])
    } else {
        None
    }
}

/// A result is found by what its inputs held: where a manifest and a result were stored
/// to the end, a lookup whose inputs have the recorded hash goes on with that very
/// result, and one whose inputs have a hash under which nothing else was stored is a
/// miss. `results` is what was stored for the action before.
pub proof fn law_results_are_found_by_their_inputs(
    m: ManifestModel,
    outputs: Seq<Seq<char>>,
    exit_code: i32,
    stdout: Seq<u8>,
    stderr: Seq<u8>,
    events: Seq<RecordEvent>,
    results: Map<Seq<char>, ResultModel>,
    hash: Seq<char>,
    root: RootModel,
)
    requires
        manifest_fits(m),
        record_course(record_start(m, outputs, exit_code, stdout, stderr), events),
        record_after(
            record_start(m, outputs, exit_code, stdout, stderr),
            events,
        ).phase is PutResult,
    ensures
        ({
            let start = record_start(m, outputs, exit_code, stdout, stderr);
            let recorded = record_after(start, events).phase->PutResult_0;
            let result = record_after(start, events).phase->PutResult_1;
            let stored = results.insert(recorded, result);
            let lookup = lookup_start(
                Ok(Some(manifest_bytes(m))),
                true,
                Ok(found_under(stored, hash)),
                root,
            );
            &&& start.phase == RecordPhaseModel::PutManifest(manifest_bytes(m))
            &&& hash == recorded ==> lookup == LookupStart::Publish(publish_start(result, root))
            &&& hash != recorded && !results.contains_key(hash) ==> lookup
                == LookupStart::Finished(Ok(LookupModel::Miss))
        }),
{
    let start = record_start(m, outputs, exit_code, stdout, stderr);
    if start.phase is Finished {
        lemma_started(start, events);
    }
    law_manifest_round_trip(m, m);
    assert(stores(manifest_bytes(m), m) && m.cacheable);
}

/// Storing begins with the manifest exactly where it covers everything and all outputs stay
/// below the build root. The first that does not is told; without a manifest that covers
/// everything nothing is stored, and that is no failure.
pub proof fn law_sound_results_begin_to_be_stored(
    m: ManifestModel,
    outputs: Seq<Seq<char>>,
    n: int,
)
    requires
        0 <= n <= outputs.len(),
        forall|i: int| 0 <= i < n ==> stays_below(#[trigger] outputs[i]),
        n < outputs.len() ==> !stays_below(outputs[n]),
    ensures
        !m.cacheable ==> record_begin(m, outputs) == RecordPhaseModel::Finished(None),
        m.cacheable && n == outputs.len() ==> record_begin(m, outputs)
            == RecordPhaseModel::PutManifest(manifest_bytes(m)),
        m.cacheable && n < outputs.len() ==> record_begin(m, outputs) == RecordPhaseModel::Finished(
            Some(
                (
                    FailureKind::PermissionDenied,
                    "refusing to cache output outside the build root: "@ + debug_text(outputs[n]),
                ),
            ),
        ),
{
    lemma_first_outside_is_first(outputs, n);
}

proof fn lemma_first_outside_is_first(outputs: Seq<Seq<char>>, n: int)
    requires
        0 <= n <= outputs.len(),
        forall|i: int| 0 <= i < n ==> stays_below(#[trigger] outputs[i]),
        n < outputs.len() ==> !stays_below(outputs[n]),
    ensures
        n == outputs.len() ==> first_outside(outputs) is None,
        n < outputs.len() ==> first_outside(outputs) == Some(outputs[n]),
    decreases outputs.len(),
{
    if n > 0 {
        let rest = outputs.drop_first();
        assert forall|i: int| 0 <= i < n - 1 implies stays_below(#[trigger] rest[i]) by {
            assert(rest[i] == outputs[i + 1]);
        }
        assert(stays_below(outputs[0]));
        if n < outputs.len() {
            assert(rest[n - 1] == outputs[n]);
        }
        lemma_first_outside_is_first(rest, n - 1);
    }
}

/// What follows when a step of storing is done: every output is read and stored in turn, with
/// the digest that it got; then the inputs are hashed; then what was written to either stream
/// is stored, where there is any; then the result with all of that, under that hash.
pub proof fn law_storing_goes_on_step_by_step(
    m: RecordModel,
    bytes: Vec<u8>,
    text: String,
    out: Option<Seq<char>>,
    hash: Seq<char>,
)
    ensures
        m.phase is PutManifest ==> m.next(RecordEvent::Done).phase == if m.stored.len()
            < m.outputs.len() {
            RecordPhaseModel::ReadOutput
        } else {
            RecordPhaseModel::HashInputs
        },
        m.phase is ReadOutput ==> m.next(RecordEvent::Read(bytes)).phase
            == RecordPhaseModel::PutOutput(bytes@),
        m.phase is PutOutput ==> {
            let n = m.next(RecordEvent::Stored(text));
            &&& n.stored.len() == m.stored.len() + 1
            &&& n.stored.take(m.stored.len() as int) == m.stored
            &&& n.stored.last().logical == m.outputs[m.stored.len() as int]
            &&& n.stored.last().digest == text@
            &&& n.phase == if n.stored.len() < m.outputs.len() {
                RecordPhaseModel::ReadOutput
            } else {
                RecordPhaseModel::HashInputs
            }
        },
        m.phase is HashInputs ==> {
            let n = m.next(RecordEvent::Hashed(text));
            &&& m.stdout.len() > 0 ==> n.phase == RecordPhaseModel::PutStdout(text@)
            &&& m.stdout.len() == 0 && m.stderr.len() > 0 ==> n.phase
                == RecordPhaseModel::PutStderr(text@, None)
            &&& m.stdout.len() == 0 && m.stderr.len() == 0 ==> n.phase
                == RecordPhaseModel::PutResult(
                text@,
                ResultModel {
                    exit_code: m.exit_code,
                    outputs: m.stored,
                    stdout: None,
                    stderr: None,
                },
            )
        },
        m.phase == RecordPhaseModel::PutStdout(hash) ==> {
            let n = m.next(RecordEvent::Stored(text));
            &&& m.stderr.len() > 0 ==> n.phase == RecordPhaseModel::PutStderr(hash, Some(text@))
            &&& m.stderr.len() == 0 ==> n.phase == RecordPhaseModel::PutResult(
                hash,
                ResultModel {
                    exit_code: m.exit_code,
                    outputs: m.stored,
                    stdout: Some(text@),
                    stderr: None,
                },
            )
        },
        m.phase == RecordPhaseModel::PutStderr(hash, out) ==> m.next(
            RecordEvent::Stored(text),
        ).phase == RecordPhaseModel::PutResult(
            hash,
            ResultModel {
                exit_code: m.exit_code,
                outputs: m.stored,
                stdout: out,
                stderr: Some(text@),
            },
        ),
        m.phase is PutResult ==> m.next(RecordEvent::Done).phase == RecordPhaseModel::Finished(
            None,
        ),
{
    if m.phase is PutOutput {
        let n = m.next(RecordEvent::Stored(text));
        assert(n.stored.take(m.stored.len() as int) =~= m.stored);
    }
}

/// A step of storing that fails ends it with that failure, except that inputs which cannot be
/// hashed any more only leave the result out.
pub proof fn law_failed_storing_is_told(m: RecordModel, f: Failure)
    requires
        m.expects(RecordEvent::Failed(f)),
    ensures
        m.next(RecordEvent::Failed(f)).phase == if m.phase is HashInputs {
            RecordPhaseModel::Finished(None)
        } else {
            RecordPhaseModel::Finished(Some(f@))
        },
{
}

} // verus!
