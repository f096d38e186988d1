//! How a cached result is looked up and its outputs are put in place.
//!
//! All outputs are staged beside their final paths before the first of them is put
//! in place, so that a missing one leaves nothing half done.

use crate::action_cache::manifest::{decode_manifest, stores, InputManifest, ManifestModel};
use crate::failure::{Failure, FailureKind};
use crate::filepath::{has_drive, is_sep, is_separator, RootModel, RootPath};
use crate::fileserver::paths::{backslashed, opt_text, to_backslashes};
use crate::text::{
    chars_of, debug_of, debug_text, join, lemma_split_join, same_text, split, split_at_char, texts,
};

use vstd::prelude::*;

verus! {

/// An output of an action: where it goes, and the digest of its content.
#[derive(Debug, Clone, PartialEq, Eq)]
pub struct OutputFile {
    pub logical_path: String,
    pub digest: String,
}

/// What an action came to.
#[derive(Debug, Clone, PartialEq, Eq)]
pub struct ActionResult {
    pub exit_code: i32,
    pub outputs: Vec<OutputFile>,
    /// The digest of what it wrote to its console, if anything.
    pub stdout: Option<String>,
    pub stderr: Option<String>,
}

/// What came of a lookup.
#[derive(Debug, Clone, PartialEq, Eq)]
pub enum CacheLookup {
    /// The action need not run: its outputs are in place.
    Hit { exit_code: i32, stdout: Vec<u8>, stderr: Vec<u8> },
    /// It has to run.
    Miss,
}

/// The view of an [`OutputFile`].
pub struct OutputModel {
    pub logical: Seq<char>,
    pub digest: Seq<char>,
}

/// The view of an [`ActionResult`].
pub struct ResultModel {
    pub exit_code: i32,
    pub outputs: Seq<OutputModel>,
    pub stdout: Option<Seq<char>>,
    pub stderr: Option<Seq<char>>,
}

/// The view of a [`CacheLookup`].
pub enum LookupModel {
    Hit(i32, Seq<u8>, Seq<u8>),
    Miss,
}

impl View for OutputFile {
    type V = OutputModel;

    open spec fn view(&self) -> OutputModel {
        OutputModel { logical: self.logical_path@, digest: self.digest@ }
    }
}

impl View for ActionResult {
    type V = ResultModel;

    open spec fn view(&self) -> ResultModel {
        ResultModel {
            exit_code: self.exit_code,
            outputs: outputs_view(self.outputs@),
            stdout: opt_text(self.stdout),
            stderr: opt_text(self.stderr),
        }
    }
}

impl View for CacheLookup {
    type V = LookupModel;

    open spec fn view(&self) -> LookupModel {
        match *self {
            CacheLookup::Hit { exit_code, stdout, stderr } => LookupModel::Hit(
                exit_code,
                stdout@,
                stderr@,
            ),
            CacheLookup::Miss => LookupModel::Miss,
        }
    }
}

pub open spec fn outputs_view(outputs: Seq<OutputFile>) -> Seq<OutputModel> {
    Seq::new(outputs.len(), |i: int| outputs[i]@)
}

/// Whether a path stays below the directory that it is seen from: it names no
/// drive, does not begin at a root, and does not climb.
pub open spec fn stays_below(p: Seq<char>) -> bool {
    &&& !has_drive(p)
    &&& p.len() == 0 || !is_sep(p[0])
    &&& forall|i: int|
        0 <= i < split(backslashed(p), '\\').len() ==> #[trigger] split(backslashed(p), '\\')[i]
            != ".."@
}

/// Whether a path stays below the directory that it is seen from.
pub fn is_under_build_root(path: &str) -> (r: bool)
    ensures
        r == stays_below(path@),
{
    let chars = chars_of(path);
    if chars.len() > 0 && is_separator(chars[0]) {
        return false;
    }
    if chars.len() >= 2 && chars[1] == ':' && (('A' <= chars[0] && chars[0] <= 'Z') || ('a'
        <= chars[0] && chars[0] <= 'z')) {
        return false;
    }
    let components = split_at_char(to_backslashes(path).as_str(), '\\');
    let ghost all = split(backslashed(path@), '\\');
    let mut i: usize = 0;
    while i < components.len()
        invariant
            i <= components@.len(),
            texts(components@) == all,
            all == split(backslashed(path@), '\\'),
            forall|j: int| 0 <= j < i ==> #[trigger] all[j] != ".."@,
        decreases components@.len() - i,
    {
        assert(all[i as int] == components@[i as int]@);
        if same_text(components[i].as_str(), "..") {
            return false;
        }
        i = i + 1;
    }
    true
}

/// The outputs of an action that can be cached: all of them, or none where one
/// does not stay below the build root.
pub fn cacheable_outputs(outputs: Vec<String>) -> (r: Vec<String>)
    ensures
        texts(r@) == if forall|i: int| 0 <= i < outputs@.len() ==> stays_below(
            (#[trigger] outputs@[i])@,
        ) {
            texts(outputs@)
        } else {
            Seq::empty()
        },
{
    let mut i: usize = 0;
    while i < outputs.len()
        invariant
            i <= outputs@.len(),
            forall|j: int| 0 <= j < i ==> stays_below((#[trigger] outputs@[j])@),
        decreases outputs@.len() - i,
    {
        if !is_under_build_root(outputs[i].as_str()) {
            assert(!stays_below(outputs@[i as int]@));
            let none: Vec<String> = Vec::new();
            assert(texts(none@) =~= Seq::<Seq<char>>::empty());
            return none;
        }
        i = i + 1;
    }
    outputs
}

/// Whether `b` stores a manifest that covers everything that a result depends on.
pub open spec fn is_usable(b: Seq<u8>) -> bool {
    exists|m: ManifestModel| #[trigger] stores(b, m) && m.cacheable
}

/// The manifest to go by: what is stored, where it is there, whole, and covers
/// everything that a result depends on. Without one the lookup is a miss.
pub fn usable_manifest(stored: &Option<Vec<u8>>) -> (r: Option<InputManifest>)
    ensures
        match r {
            Some(m) => *stored is Some && stores((*stored)->0@, m@) && m.cacheable,
            None => *stored is None || !is_usable((*stored)->0@),
        },
{
    match stored {
        None => None,
        Some(bytes) => match decode_manifest(bytes.as_slice()) {
            None => None,
            Some(m) => {
                if m.cacheable {
                    assert(m@.cacheable);
                    Some(m)
                } else {
                    proof {
                        assert forall|n: ManifestModel| #[trigger]
                            stores(bytes@, n) implies !n.cacheable by {}
                    }
                    None
                }
            },
        },
    }
}

/// What follows when a manifest was asked for.
pub enum ManifestStep {
    Finished(Result<CacheLookup, Failure>),
    /// Hash the present content of its inputs, then ask for the result.
    HashInputs(InputManifest),
}

/// Decides what follows when a manifest was asked for.
pub fn after_manifest(stored: Result<Option<Vec<u8>>, Failure>) -> (r: ManifestStep)
    ensures
        match stored {
            Err(f) => r == ManifestStep::Finished(Err::<CacheLookup, Failure>(f)),
            Ok(s) => match r {
                ManifestStep::HashInputs(m) => s is Some && stores(s->0@, m@) && m.cacheable
                    && is_usable(s->0@),
                ManifestStep::Finished(l) => {
                    &&& l == Ok::<CacheLookup, Failure>(CacheLookup::Miss)
                    &&& s is None || !is_usable(s->0@)
                },
            },
        },
{
    match stored {
        Err(f) => ManifestStep::Finished(Err(f)),
        Ok(s) => match usable_manifest(&s) {
            Some(m) => ManifestStep::HashInputs(m),
            None => ManifestStep::Finished(Ok(CacheLookup::Miss)),
        },
    }
}

/// What follows when a result was asked for.
pub enum ResultStep {
    Finished(Result<CacheLookup, Failure>),
    /// Put it in place.
    Publish(Publishing),
}

pub open spec fn lookup_view(r: Result<CacheLookup, Failure>) -> Result<
    LookupModel,
    (FailureKind, Seq<char>),
> {
    match r {
        Ok(l) => Ok(l@),
        Err(f) => Err(f@),
    }
}

pub open spec fn found_view(r: Result<Option<ActionResult>, Failure>) -> Result<
    Option<ResultModel>,
    (FailureKind, Seq<char>),
> {
    match r {
        Ok(Some(result)) => Ok(Some(result@)),
        Ok(None) => Ok(None),
        Err(f) => Err(f@),
    }
}

impl View for ResultStep {
    type V = LookupStart;

    open spec fn view(&self) -> LookupStart {
        match *self {
            ResultStep::Finished(r) => LookupStart::Finished(lookup_view(r)),
            ResultStep::Publish(p) => LookupStart::Publish(p@),
        }
    }
}

/// Decides what follows when a result was asked for; `hashed` tells whether the
/// inputs could be hashed, without which no result is asked for.
pub fn after_result(
    hashed: bool,
    found: Result<Option<ActionResult>, Failure>,
    build_root: &RootPath,
) -> (r: ResultStep)
    ensures
        r@ == result_start(hashed, found_view(found), build_root@),
        r matches ResultStep::Publish(p) ==> p.wf(),
{
    if !hashed {
        return ResultStep::Finished(Ok(CacheLookup::Miss));
    }
    match found {
        Err(f) => ResultStep::Finished(Err(f)),
        Ok(None) => ResultStep::Finished(Ok(CacheLookup::Miss)),
        Ok(Some(result)) => ResultStep::Publish(Publishing::new(result, build_root)),
    }
}

/// How a lookup goes on once the manifest and the result were asked for.
pub enum LookupStart {
    /// It has ended, and nothing was put in place.
    Finished(Result<LookupModel, (FailureKind, Seq<char>)>),
    Publish(PublishModel),
}

/// How a lookup goes on when a result was asked for.
pub open spec fn result_start(
    hashed: bool,
    found: Result<Option<ResultModel>, (FailureKind, Seq<char>)>,
    root: RootModel,
) -> LookupStart {
    if !hashed {
        LookupStart::Finished(Ok(LookupModel::Miss))
    } else {
        match found {
            Err(f) => LookupStart::Finished(Err(f)),
            Ok(None) => LookupStart::Finished(Ok(LookupModel::Miss)),
            Ok(Some(result)) => LookupStart::Publish(publish_start(result, root)),
        }
    }
}

/// How a lookup goes on: what is stored as a manifest, whether its inputs could be
/// hashed, and what was found under that hash.
pub open spec fn lookup_start(
    stored: Result<Option<Seq<u8>>, (FailureKind, Seq<char>)>,
    hashed: bool,
    found: Result<Option<ResultModel>, (FailureKind, Seq<char>)>,
    root: RootModel,
) -> LookupStart {
    match stored {
        Err(f) => LookupStart::Finished(Err(f)),
        Ok(s) => if s is None || !is_usable(s->0) {
            LookupStart::Finished(Ok(LookupModel::Miss))
        } else {
            result_start(hashed, found, root)
        },
    }
}

/// A lookup for which no usable manifest is stored, or no result under the present
/// content of its inputs, is a miss, and puts nothing in place.
pub proof fn law_unknown_results_are_misses(
    stored: Option<Seq<u8>>,
    hashed: bool,
    found: Option<ResultModel>,
    root: RootModel,
)
    requires
        stored is None || !is_usable(stored->0) || !hashed || found is None,
    ensures
        lookup_start(Ok(stored), hashed, Ok(found), root) == LookupStart::Finished(
            Ok(LookupModel::Miss),
        ),
{
}

/// The paths that an action read before, for fetching ahead.
pub fn predicted_paths(stored: &Option<Vec<u8>>) -> (r: Vec<String>)
    ensures
        match *stored {
            None => r@.len() == 0,
            Some(b) => {
                ||| r@.len() == 0 && forall|m: ManifestModel| !stores(b@, m)
                ||| exists|m: ManifestModel|
                    stores(b@, m) && texts(r@) == #[trigger] logical_paths(m)
            },
        },
{
    let mut paths: Vec<String> = Vec::new();
    if let Some(bytes) = stored {
        if let Some(m) = decode_manifest(bytes.as_slice()) {
            let mut i: usize = 0;
            while i < m.inputs.len()
                invariant
                    i <= m.inputs@.len(),
                    paths@.len() == i,
                    forall|j: int| 0 <= j < i ==> (#[trigger] paths@[j])@ == m.inputs@[j].logical@,
                decreases m.inputs@.len() - i,
            {
                paths.push(m.inputs[i].logical.clone());
                i = i + 1;
            }
            assert(texts(paths@) =~= logical_paths(m@));
        }
    }
    paths
}

pub open spec fn logical_paths(m: ManifestModel) -> Seq<Seq<char>> {
    Seq::new(m.inputs.len(), |i: int| m.inputs[i].logical)
}

/// What to do next to put a cached result in place.
pub enum PublishPhase {
    /// Get the content of the next output, and check it against its digest.
    Fetch,
    /// Write it beside the final path of that output.
    Stage(Vec<u8>),
    /// Rename the staged file of this output to its final path.
    Commit(usize),
    /// Remove the staged files from this one on; then the lookup is a miss, or fails.
    Unstage { from: usize, failure: Option<Failure> },
    /// Get what the action wrote to its console.
    FetchStdout,
    FetchStderr(Vec<u8>),
    Finished(Result<CacheLookup, Failure>),
}

/// What came of it.
pub enum PublishEvent {
    /// The content is there and has its digest.
    Blob(Vec<u8>),
    /// It is not there, or has changed.
    Absent,
    /// It was written to this file.
    Staged(String),
    Done,
    Failed(Failure),
}

/// A cached result on its way to its place.
pub struct Publishing {
    pub result: ActionResult,
    pub build_root: RootPath,
    /// The staged files, each with its final path.
    pub staged: Vec<(String, String)>,
    pub phase: PublishPhase,
}

/// The view of a [`PublishPhase`].
pub enum PhaseModel {
    Fetch,
    Stage(Seq<u8>),
    Commit(nat),
    Unstage(nat, Option<(FailureKind, Seq<char>)>),
    FetchStdout,
    FetchStderr(Seq<u8>),
    Finished(Result<LookupModel, (FailureKind, Seq<char>)>),
}

/// The view of a [`Publishing`].
pub struct PublishModel {
    pub result: ResultModel,
    pub root: RootModel,
    pub staged: Seq<(Seq<char>, Seq<char>)>,
    pub phase: PhaseModel,
}

pub open spec fn opt_failure(f: Option<Failure>) -> Option<(FailureKind, Seq<char>)> {
    match f {
        Some(f) => Some(f@),
        None => None,
    }
}

impl View for PublishPhase {
    type V = PhaseModel;

    open spec fn view(&self) -> PhaseModel {
        match *self {
            PublishPhase::Fetch => PhaseModel::Fetch,
            PublishPhase::Stage(b) => PhaseModel::Stage(b@),
            PublishPhase::Commit(i) => PhaseModel::Commit(i as nat),
            PublishPhase::Unstage { from, failure } => PhaseModel::Unstage(
                from as nat,
                opt_failure(failure),
            ),
            PublishPhase::FetchStdout => PhaseModel::FetchStdout,
            PublishPhase::FetchStderr(b) => PhaseModel::FetchStderr(b@),
            PublishPhase::Finished(r) => PhaseModel::Finished(
                match r {
                    Ok(l) => Ok(l@),
                    Err(f) => Err(f@),
                },
            ),
        }
    }
}

pub open spec fn pairs_view(list: Seq<(String, String)>) -> Seq<(Seq<char>, Seq<char>)> {
    Seq::new(list.len(), |i: int| (list[i].0@, list[i].1@))
}

impl View for Publishing {
    type V = PublishModel;

    open spec fn view(&self) -> PublishModel {
        PublishModel {
            result: self.result@,
            root: self.build_root@,
            staged: pairs_view(self.staged@),
            phase: self.phase@,
        }
    }
}

pub open spec fn refusal(logical: Seq<char>) -> (FailureKind, Seq<char>) {
    (
        FailureKind::PermissionDenied,
        "refusing to publish cached output outside the build root: "@ + debug_text(logical),
    )
}

impl PublishModel {
    pub open spec fn at(self, phase: PhaseModel) -> PublishModel {
        PublishModel { phase, ..self }
    }

    /// The digest of the content to get next.
    pub open spec fn digest_to_get(self) -> Option<Seq<char>> {
        match self.phase {
            PhaseModel::Fetch => if self.staged.len() < self.result.outputs.len() {
                Some(self.result.outputs[self.staged.len() as int].digest)
            } else {
                None
            },
            PhaseModel::FetchStdout => self.result.stdout,
            PhaseModel::FetchStderr(_) => self.result.stderr,
            _ => None,
        }
    }

    /// Goes on with the next output; when all are staged, with putting them in place.
    pub open spec fn to_next_output(self) -> PublishModel {
        let k = self.staged.len() as int;
        if k >= self.result.outputs.len() {
            if self.result.outputs.len() == 0 {
                self.to_stdout()
            } else {
                self.at(PhaseModel::Commit(0))
            }
        } else if !stays_below(self.result.outputs[k].logical) {
            self.at(PhaseModel::Unstage(0, Some(refusal(self.result.outputs[k].logical))))
        } else {
            self.at(PhaseModel::Fetch)
        }
    }

    pub open spec fn to_stdout(self) -> PublishModel {
        if self.result.stdout is Some {
            self.at(PhaseModel::FetchStdout)
        } else {
            self.to_stderr(Seq::empty())
        }
    }

    pub open spec fn to_stderr(self, stdout: Seq<u8>) -> PublishModel {
        if self.result.stderr is Some {
            self.at(PhaseModel::FetchStderr(stdout))
        } else {
            self.to_hit(stdout, Seq::empty())
        }
    }

    pub open spec fn to_hit(self, stdout: Seq<u8>, stderr: Seq<u8>) -> PublishModel {
        self.at(PhaseModel::Finished(Ok(LookupModel::Hit(self.result.exit_code, stdout, stderr))))
    }

    /// Whether an event can follow.
    pub open spec fn expects(self, e: PublishEvent) -> bool {
        match self.phase {
            PhaseModel::Fetch => e is Blob || e is Absent || e is Failed,
            PhaseModel::Stage(_) => e is Staged || e is Failed,
            PhaseModel::Commit(_) => e is Done || e is Failed,
            PhaseModel::Unstage(_, _) => e is Done,
            PhaseModel::FetchStdout => e is Blob || e is Absent || e is Failed,
            PhaseModel::FetchStderr(_) => e is Blob || e is Absent || e is Failed,
            PhaseModel::Finished(_) => false,
        }
    }

    /// How it goes on.
    pub open spec fn next(self, e: PublishEvent) -> PublishModel {
        match self.phase {
            PhaseModel::Fetch => match e {
                PublishEvent::Blob(b) => self.at(PhaseModel::Stage(b@)),
                PublishEvent::Failed(f) => self.at(PhaseModel::Unstage(0, Some(f@))),
                _ => self.at(PhaseModel::Unstage(0, None)),
            },
            PhaseModel::Stage(_) => match e {
                PublishEvent::Staged(temp) => (PublishModel {
                    staged: self.staged.push(
                        (
                            temp@,
                            self.root.join(
                                self.result.outputs[self.staged.len() as int].logical,
                            ),
                        ),
                    ),
                    ..self
                }).to_next_output(),
                PublishEvent::Failed(f) => self.at(PhaseModel::Unstage(0, Some(f@))),
                _ => self,
            },
            PhaseModel::Commit(i) => match e {
                PublishEvent::Done => if i + 1 < self.staged.len() {
                    self.at(PhaseModel::Commit(i + 1))
                } else {
                    self.to_stdout()
                },
                PublishEvent::Failed(f) => self.at(PhaseModel::Unstage(i + 1, Some(f@))),
                _ => self,
            },
            PhaseModel::Unstage(_, failure) => self.at(
                PhaseModel::Finished(
                    match failure {
                        Some(f) => Err(f),
                        None => Ok(LookupModel::Miss),
                    },
                ),
            ),
            PhaseModel::FetchStdout => match e {
                PublishEvent::Blob(b) => self.to_stderr(b@),
                _ => self.to_stderr(Seq::empty()),
            },
            PhaseModel::FetchStderr(out) => match e {
                PublishEvent::Blob(b) => self.to_hit(out, b@),
                _ => self.to_hit(out, Seq::empty()),
            },
            PhaseModel::Finished(_) => self,
        }
    }
}

/// The beginning of putting a result in place.
pub open spec fn publish_start(result: ResultModel, root: RootModel) -> PublishModel {
    (PublishModel { result, root, staged: Seq::empty(), phase: PhaseModel::Fetch }).to_next_output()
}

impl Publishing {
    /// The outputs that are staged fit the counters.
    pub open spec fn wf(&self) -> bool {
        &&& self.staged@.len() <= self.result.outputs@.len()
        &&& self.phase is Fetch || self.phase is Stage ==> self.staged@.len()
            < self.result.outputs@.len()
        &&& self.phase matches PublishPhase::Commit(i) ==> i < self.staged@.len()
    }

    fn enter_next_output(&mut self)
        requires
            old(self).staged@.len() <= old(self).result.outputs@.len(),
        ensures
            final(self)@ == old(self)@.to_next_output(),
            final(self).wf(),
    {
        let k: usize = self.staged.len();
        if k >= self.result.outputs.len() {
            if self.result.outputs.len() == 0 {
                self.enter_stdout();
            } else {
                self.phase = PublishPhase::Commit(0);
            }
            return;
        }
        let ghost logical = self.result.outputs@[k as int].logical_path@;
        assert(self@.result.outputs[k as int].logical == logical);
        if !is_under_build_root(self.result.outputs[k].logical_path.as_str()) {
            let shown = debug_of(self.result.outputs[k].logical_path.as_str());
            let f = Failure::about(
                FailureKind::PermissionDenied,
                "refusing to publish cached output outside the build root: ",
                shown.as_str(),
            );
            self.phase = PublishPhase::Unstage { from: 0, failure: Some(f) };
        } else {
            self.phase = PublishPhase::Fetch;
        }
    }

    fn enter_stdout(&mut self)
        requires
            old(self).staged@.len() <= old(self).result.outputs@.len(),
        ensures
            final(self)@ == old(self)@.to_stdout(),
            final(self).wf(),
    {
        if self.result.stdout.is_some() {
            self.phase = PublishPhase::FetchStdout;
        } else {
            let none: Vec<u8> = Vec::new();
            assert(none@ =~= Seq::<u8>::empty());
            self.enter_stderr(none);
        }
    }

    fn enter_stderr(&mut self, stdout: Vec<u8>)
        requires
            old(self).staged@.len() <= old(self).result.outputs@.len(),
        ensures
            final(self)@ == old(self)@.to_stderr(stdout@),
            final(self).wf(),
    {
        if self.result.stderr.is_some() {
            self.phase = PublishPhase::FetchStderr(stdout);
        } else {
            let none: Vec<u8> = Vec::new();
            assert(none@ =~= Seq::<u8>::empty());
            self.finish(stdout, none);
        }
    }

    fn finish(&mut self, stdout: Vec<u8>, stderr: Vec<u8>)
        requires
            old(self).staged@.len() <= old(self).result.outputs@.len(),
        ensures
            final(self)@ == old(self)@.to_hit(stdout@, stderr@),
            final(self).wf(),
    {
        self.phase =
        PublishPhase::Finished(
            Ok(CacheLookup::Hit { exit_code: self.result.exit_code, stdout, stderr }),
        );
    }

    /// Begins to put a result in place below `build_root`.
    pub fn new(result: ActionResult, build_root: &RootPath) -> (r: Publishing)
        ensures
            r.wf(),
            r@ == publish_start(result@, build_root@),
    {
        let mut p = Publishing {
            result,
            build_root: RootPath::new(build_root.style, build_root.path.as_str()),
            staged: Vec::new(),
            phase: PublishPhase::Fetch,
        };
        assert(p@.staged =~= Seq::<(Seq<char>, Seq<char>)>::empty());
        p.enter_next_output();
        p
    }

    /// The digest of the content to get next.
    pub fn next_digest(&self) -> (r: Option<String>)
        ensures
            opt_text(r) == self@.digest_to_get(),
    {
        match &self.phase {
            PublishPhase::Fetch => {
                let k: usize = self.staged.len();
                if k < self.result.outputs.len() {
                    Some(self.result.outputs[k].digest.clone())
                } else {
                    None
                }
            },
            PublishPhase::FetchStdout => match &self.result.stdout {
                Some(d) => Some(d.clone()),
                None => None,
            },
            PublishPhase::FetchStderr(_) => match &self.result.stderr {
                Some(d) => Some(d.clone()),
                None => None,
            },
            _ => None,
        }
    }

    /// The final path of the output that is being staged.
    pub fn next_path(&self) -> (r: Option<String>)
        ensures
            if self@.staged.len() < self@.result.outputs.len() {
                r matches Some(p) && p@ == self@.root.join(
                    self@.result.outputs[self@.staged.len() as int].logical,
                )
            } else {
                r is None
            },
    {
        let k: usize = self.staged.len();
        if k < self.result.outputs.len() {
            Some(self.build_root.join(self.result.outputs[k].logical_path.as_str()))
        } else {
            None
        }
    }

    /// Goes on with what came of the last step.
    pub fn resolve(&mut self, event: PublishEvent)
        requires
            old(self).wf(),
            old(self)@.expects(event),
        ensures
            final(self).wf(),
            final(self)@ == old(self)@.next(event),
    {
        let count: usize = self.staged.len();
        let mut phase = PublishPhase::Fetch;
        std::mem::swap(&mut self.phase, &mut phase);
        match phase {
            PublishPhase::Fetch => match event {
                PublishEvent::Blob(b) => {
                    self.phase = PublishPhase::Stage(b);
                },
                PublishEvent::Failed(f) => {
                    self.phase = PublishPhase::Unstage { from: 0, failure: Some(f) };
                },
                _ => {
                    self.phase = PublishPhase::Unstage { from: 0, failure: None };
                },
            },
            PublishPhase::Stage(_) => match event {
                PublishEvent::Staged(temp) => {
                    let k: usize = self.staged.len();
                    let path = self.build_root.join(self.result.outputs[k].logical_path.as_str());
                    let ghost before = self.staged@;
                    let ghost pair = (temp@, path@);
                    self.staged.push((temp, path));
                    assert(pairs_view(self.staged@) =~= pairs_view(before).push(pair));
                    self.enter_next_output();
                },
                PublishEvent::Failed(f) => {
                    self.phase = PublishPhase::Unstage { from: 0, failure: Some(f) };
                },
                _ => {},
            },
            PublishPhase::Commit(i) => match event {
                PublishEvent::Failed(f) => {
                    self.phase = PublishPhase::Unstage { from: i + 1, failure: Some(f) };
                },
                _ => {
                    if i + 1 < count {
                        self.phase = PublishPhase::Commit(i + 1);
                    } else {
                        self.enter_stdout();
                    }
                },
            },
            PublishPhase::Unstage { from: _, failure } => match failure {
                Some(f) => {
                    self.phase = PublishPhase::Finished(Err(f));
                },
                None => {
                    self.phase = PublishPhase::Finished(Ok(CacheLookup::Miss));
                },
            },
            PublishPhase::FetchStdout => match event {
                PublishEvent::Blob(b) => {
                    self.enter_stderr(b);
                },
                _ => {
                    let none: Vec<u8> = Vec::new();
                    assert(none@ =~= Seq::<u8>::empty());
                    self.enter_stderr(none);
                },
            },
            PublishPhase::FetchStderr(out) => match event {
                PublishEvent::Blob(b) => {
                    self.finish(out, b);
                },
                _ => {
                    let none: Vec<u8> = Vec::new();
                    assert(none@ =~= Seq::<u8>::empty());
                    self.finish(out, none);
                },
            },
            PublishPhase::Finished(r) => {
                self.phase = PublishPhase::Finished(r);
            },
        }
    }
}

/// Where the course `events` of putting a result in place leads.
pub open spec fn publish_after(
    result: ResultModel,
    root: RootModel,
    events: Seq<PublishEvent>,
) -> PublishModel
    decreases events.len(),
{
    if events.len() == 0 {
        publish_start(result, root)
    } else {
        publish_after(result, root, events.drop_last()).next(events.last())
    }
}

/// A possible course: each event can follow the step before it.
pub open spec fn publish_course(
    result: ResultModel,
    root: RootModel,
    events: Seq<PublishEvent>,
) -> bool
    decreases events.len(),
{
    events.len() == 0 || (publish_course(result, root, events.drop_last()) && publish_after(
        result,
        root,
        events.drop_last(),
    ).expects(events.last()))
}

/// How many outputs were put in place.
pub open spec fn committed(result: ResultModel, root: RootModel, events: Seq<PublishEvent>) -> nat
    decreases events.len(),
{
    if events.len() == 0 {
        0
    } else {
        committed(result, root, events.drop_last()) + if publish_after(
            result,
            root,
            events.drop_last(),
        ).phase is Commit && events.last() is Done {
            1nat
        } else {
            0nat
        }
    }
}

/// The contents that were staged, in their order.
pub open spec fn staged_contents(
    result: ResultModel,
    root: RootModel,
    events: Seq<PublishEvent>,
) -> Seq<Seq<u8>>
    decreases events.len(),
{
    if events.len() == 0 {
        Seq::empty()
    } else {
        let before = staged_contents(result, root, events.drop_last());
        match (publish_after(result, root, events.drop_last()).phase, events.last()) {
            (PhaseModel::Stage(content), PublishEvent::Staged(_)) => before.push(content),
            _ => before,
        }
    }
}

/// The files that were put in place, in that order: the path of each, and its content.
pub open spec fn placed(result: ResultModel, root: RootModel, events: Seq<PublishEvent>) -> Seq<
    (Seq<char>, Seq<u8>),
>
    decreases events.len(),
{
    if events.len() == 0 {
        Seq::empty()
    } else {
        let init = events.drop_last();
        let before = placed(result, root, init);
        let m = publish_after(result, root, init);
        match (m.phase, events.last()) {
            (PhaseModel::Commit(i), PublishEvent::Done) => before.push(
                (m.staged[i as int].1, staged_contents(result, root, init)[i as int]),
            ),
            _ => before,
        }
    }
}

/// Whether all content that was got is what `store` keeps under its digest.
pub open spec fn got_from(
    store: Map<Seq<char>, Seq<u8>>,
    result: ResultModel,
    root: RootModel,
    events: Seq<PublishEvent>,
) -> bool
    decreases events.len(),
{
    events.len() > 0 ==> {
        &&& got_from(store, result, root, events.drop_last())
        &&& events.last() matches PublishEvent::Blob(content) ==> {
            let digest = publish_after(result, root, events.drop_last()).digest_to_get();
            digest is Some && store.contains_key(digest->0) && store[digest->0] == content@
        }
    }
}

/// The files of a result, each at its path below the root with the content that
/// `store` keeps under its digest.
pub open spec fn files_of(
    store: Map<Seq<char>, Seq<u8>>,
    result: ResultModel,
    root: RootModel,
) -> Seq<(Seq<char>, Seq<u8>)> {
    Seq::new(
        result.outputs.len(),
        |i: int|
            (root.join(result.outputs[i].logical), store[result.outputs[i].digest]),
    )
}

/// The staged files are the first outputs, in their order, each beside a final path
/// below the root.
pub open spec fn staged_in_order(m: PublishModel) -> bool {
    &&& m.staged.len() <= m.result.outputs.len()
    &&& forall|i: int|
        0 <= i < m.staged.len() ==> (#[trigger] m.staged[i]).1 == m.root.join(
            m.result.outputs[i].logical,
        ) && stays_below(m.result.outputs[i].logical)
}

spec fn publish_invariant(result: ResultModel, root: RootModel, events: Seq<PublishEvent>) -> bool {
    let m = publish_after(result, root, events);
    let done = committed(result, root, events);
    let all = result.outputs.len();
    &&& m.result == result && m.root == root
    &&& staged_in_order(m)
    &&& match m.phase {
        PhaseModel::Fetch => done == 0 && m.staged.len() < all && stays_below(
            result.outputs[m.staged.len() as int].logical,
        ),
        PhaseModel::Stage(_) => done == 0 && m.staged.len() < all && stays_below(
            result.outputs[m.staged.len() as int].logical,
        ),
        PhaseModel::Commit(i) => done == i && i < all && m.staged.len() == all,
        PhaseModel::Unstage(from, failure) => failure is None ==> done == 0 && from == 0,
        PhaseModel::FetchStdout => done == all && m.staged.len() == all,
        PhaseModel::FetchStderr(_) => done == all && m.staged.len() == all,
        PhaseModel::Finished(Ok(LookupModel::Hit(code, _, _))) => done == all && m.staged.len()
            == all && code == result.exit_code,
        PhaseModel::Finished(Ok(LookupModel::Miss)) => done == 0,
        PhaseModel::Finished(Err(_)) => true,
    }
}

proof fn lemma_publish_invariant(
    result: ResultModel,
    root: RootModel,
    events: Seq<PublishEvent>,
)
    requires
        publish_course(result, root, events),
    ensures
        publish_invariant(result, root, events),
    decreases events.len(),
{
    if events.len() > 0 {
        lemma_publish_invariant(result, root, events.drop_last());
        let m = publish_after(result, root, events.drop_last());
        let n = publish_after(result, root, events);
        assert(n == m.next(events.last()));
        assert(n.result == m.result && n.root == m.root);
        assert(staged_in_order(n)) by {
            if m.phase is Stage && events.last() is Staged {
                assert forall|i: int| 0 <= i < n.staged.len() implies (#[trigger] n.staged[i]).1
                    == n.root.join(n.result.outputs[i].logical) && stays_below(
                    n.result.outputs[i].logical,
                ) by {
                    if i < m.staged.len() {
                        assert(n.staged[i] == m.staged[i]);
                    }
                }
                assert(n.staged.len() == m.staged.len() + 1);
            } else {
                assert(n.staged == m.staged);
                assert forall|i: int| 0 <= i < n.staged.len() implies (#[trigger] n.staged[i]).1
                    == n.root.join(n.result.outputs[i].logical) && stays_below(
                    n.result.outputs[i].logical,
                ) by {
                    assert(n.staged[i] == m.staged[i]);
                }
            }
        }
    }
}

/// No output is put in place before all of them are staged, each beside its final
/// path, which is below the build root.
pub proof fn law_all_outputs_are_staged_first(
    result: ResultModel,
    root: RootModel,
    events: Seq<PublishEvent>,
)
    requires
        publish_course(result, root, events),
        publish_after(result, root, events).phase is Commit,
    ensures
        publish_after(result, root, events).staged.len() == result.outputs.len(),
        staged_in_order(publish_after(result, root, events)),
{
    lemma_publish_invariant(result, root, events);
}

/// A miss has put nothing in place, and a hit everything.
pub proof fn law_outputs_are_published_all_or_none(
    result: ResultModel,
    root: RootModel,
    events: Seq<PublishEvent>,
)
    requires
        publish_course(result, root, events),
    ensures
        publish_after(result, root, events).phase == PhaseModel::Finished(Ok(LookupModel::Miss))
            ==> committed(result, root, events) == 0,
        (publish_after(result, root, events).phase matches PhaseModel::Finished(Ok(l)) && l is Hit)
            ==> committed(result, root, events) == result.outputs.len(),
{
    lemma_publish_invariant(result, root, events);
}

spec fn contents_invariant(
    store: Map<Seq<char>, Seq<u8>>,
    result: ResultModel,
    root: RootModel,
    events: Seq<PublishEvent>,
) -> bool {
    let m = publish_after(result, root, events);
    let contents = staged_contents(result, root, events);
    let files = files_of(store, result, root);
    &&& contents.len() == m.staged.len()
    &&& forall|i: int|
        0 <= i < contents.len() ==> #[trigger] contents[i] == store[result.outputs[i].digest]
    &&& placed(result, root, events) == files.take(committed(result, root, events) as int)
    &&& match m.phase {
        PhaseModel::Stage(content) => content
            == store[result.outputs[m.staged.len() as int].digest],
        PhaseModel::FetchStderr(out) => out.len() == 0 || (result.stdout is Some && out
            == store[result.stdout->0]),
        PhaseModel::Finished(Ok(LookupModel::Hit(_, out, err))) => {
            &&& out.len() == 0 || (result.stdout is Some && out == store[result.stdout->0])
            &&& err.len() == 0 || (result.stderr is Some && err == store[result.stderr->0])
        },
        _ => true,
    }
}

proof fn lemma_contents_invariant(
    store: Map<Seq<char>, Seq<u8>>,
    result: ResultModel,
    root: RootModel,
    events: Seq<PublishEvent>,
)
    requires
        publish_course(result, root, events),
        got_from(store, result, root, events),
    ensures
        contents_invariant(store, result, root, events),
        committed(result, root, events) <= result.outputs.len(),
    decreases events.len(),
{
    let files = files_of(store, result, root);
    if events.len() == 0 {
        assert(placed(result, root, events) =~= files.take(0));
    } else {
        let init = events.drop_last();
        lemma_contents_invariant(store, result, root, init);
        lemma_publish_invariant(result, root, init);
        let m = publish_after(result, root, init);
        let before = staged_contents(result, root, init);
        let done = committed(result, root, init);
        match (m.phase, events.last()) {
            (PhaseModel::Commit(i), PublishEvent::Done) => {
                assert(m.staged[i as int].1 == root.join(result.outputs[i as int].logical));
                assert(before[i as int] == store[result.outputs[i as int].digest]);
                assert(placed(result, root, events) =~= files.take((done + 1) as int));
            },
            _ => {},
        }
    }
}

/// Whatever a hit has put in place is what the store keeps under the digests of the
/// result: every output, in order, at its path below the root, and nothing else. Its
/// console output is what the store keeps of it, or empty where that could not be got.
pub proof fn law_hits_put_the_stored_contents_in_place(
    store: Map<Seq<char>, Seq<u8>>,
    result: ResultModel,
    root: RootModel,
    events: Seq<PublishEvent>,
)
    requires
        publish_course(result, root, events),
        got_from(store, result, root, events),
        publish_after(result, root, events).phase matches PhaseModel::Finished(Ok(l)) && l is Hit,
    ensures
        placed(result, root, events) == files_of(store, result, root),
        publish_after(result, root, events).phase matches PhaseModel::Finished(
            Ok(LookupModel::Hit(code, out, err)),
        ) && code == result.exit_code && (out.len() == 0 || (result.stdout is Some && out
            == store[result.stdout->0])) && (err.len() == 0 || (result.stderr is Some && err
            == store[result.stderr->0])),
{
    lemma_contents_invariant(store, result, root, events);
    lemma_publish_invariant(result, root, events);
    let files = files_of(store, result, root);
    assert(files.take(files.len() as int) =~= files);
}

/// No file outside the build root is ever staged or put in place: a result with
/// such an output is never a hit.
pub proof fn law_outputs_outside_the_root_are_refused(
    result: ResultModel,
    root: RootModel,
    events: Seq<PublishEvent>,
    i: int,
)
    requires
        publish_course(result, root, events),
        0 <= i < result.outputs.len(),
        !stays_below(result.outputs[i].logical),
    ensures
        committed(result, root, events) == 0,
        !(publish_after(result, root, events).phase matches PhaseModel::Finished(Ok(l))
            && l is Hit),
    decreases events.len(),
{
    lemma_publish_invariant(result, root, events);
    let m = publish_after(result, root, events);
    if m.staged.len() == result.outputs.len() {
        assert(m.staged[i].1 == m.staged[i].1);
    }
    if events.len() > 0 {
        law_outputs_outside_the_root_are_refused(result, root, events.drop_last(), i);
        lemma_publish_invariant(result, root, events.drop_last());
        let b = publish_after(result, root, events.drop_last());
        if b.phase is Commit {
            assert(b.staged[i].1 == b.staged[i].1);
        }
    }
}

/// The events of staging the first `k` outputs.
pub open spec fn staging_events(
    blobs: Seq<Vec<u8>>,
    temps: Seq<String>,
    k: nat,
) -> Seq<PublishEvent>
    decreases k,
{
    if k == 0 {
        Seq::empty()
    } else {
        staging_events(blobs, temps, (k - 1) as nat).push(PublishEvent::Blob(blobs[k - 1])).push(
            PublishEvent::Staged(temps[k - 1]),
        )
    }
}

/// The events of staging all outputs, then putting the first `k` in place.
pub open spec fn commit_events(
    blobs: Seq<Vec<u8>>,
    temps: Seq<String>,
    n: nat,
    k: nat,
) -> Seq<PublishEvent>
    decreases k,
{
    if k == 0 {
        staging_events(blobs, temps, n)
    } else {
        commit_events(blobs, temps, n, (k - 1) as nat).push(PublishEvent::Done)
    }
}

/// The events of a course on which everything is there and nothing fails.
pub open spec fn good_events(
    result: ResultModel,
    blobs: Seq<Vec<u8>>,
    temps: Seq<String>,
    stdout: Vec<u8>,
    stderr: Vec<u8>,
) -> Seq<PublishEvent> {
    let n = result.outputs.len();
    let a = commit_events(blobs, temps, n, n);
    let b = if result.stdout is Some {
        a.push(PublishEvent::Blob(stdout))
    } else {
        a
    };
    if result.stderr is Some {
        b.push(PublishEvent::Blob(stderr))
    } else {
        b
    }
}

proof fn lemma_staging(
    result: ResultModel,
    root: RootModel,
    blobs: Seq<Vec<u8>>,
    temps: Seq<String>,
    k: nat,
)
    requires
        k <= result.outputs.len(),
        forall|i: int|
            0 <= i < result.outputs.len() ==> stays_below((#[trigger] result.outputs[i]).logical),
    ensures
        publish_course(result, root, staging_events(blobs, temps, k)),
        publish_after(result, root, staging_events(blobs, temps, k)).staged.len() == k,
        publish_after(result, root, staging_events(blobs, temps, k)).result == result,
        publish_after(result, root, staging_events(blobs, temps, k))
            == publish_after(result, root, staging_events(blobs, temps, k)).to_next_output(),
    decreases k,
{
    if k > 0 {
        let j = (k - 1) as nat;
        lemma_staging(result, root, blobs, temps, j);
        let before = staging_events(blobs, temps, j);
        let fetched = before.push(PublishEvent::Blob(blobs[k - 1]));
        let staged = fetched.push(PublishEvent::Staged(temps[k - 1]));
        assert(fetched.drop_last() =~= before);
        assert(staged.drop_last() =~= fetched);
        assert(stays_below(result.outputs[j as int].logical));
        let m = publish_after(result, root, before);
        assert(m.phase is Fetch);
        assert(publish_course(result, root, fetched));
        assert(publish_after(result, root, fetched).phase is Stage);
        assert(publish_course(result, root, staged));
    }
}

proof fn lemma_committing(
    result: ResultModel,
    root: RootModel,
    blobs: Seq<Vec<u8>>,
    temps: Seq<String>,
    k: nat,
)
    requires
        k <= result.outputs.len(),
        result.outputs.len() > 0,
        forall|i: int|
            0 <= i < result.outputs.len() ==> stays_below((#[trigger] result.outputs[i]).logical),
    ensures
        ({
            let n = result.outputs.len();
            let m = publish_after(result, root, commit_events(blobs, temps, n, k));
            &&& publish_course(result, root, commit_events(blobs, temps, n, k))
            &&& m.result == result
            &&& m.staged.len() == n
            &&& k < n ==> m.phase == PhaseModel::Commit(k)
            &&& k == n ==> m == m.to_stdout()
        }),
    decreases k,
{
    let n = result.outputs.len();
    if k == 0 {
        lemma_staging(result, root, blobs, temps, n);
    } else {
        lemma_committing(result, root, blobs, temps, (k - 1) as nat);
        let before = commit_events(blobs, temps, n, (k - 1) as nat);
        assert(before.push(PublishEvent::Done).drop_last() =~= before);
    }
}

/// A result whose outputs all stay below the build root is a hit with its exit code
/// and console output, where every content is there and nothing fails.
pub proof fn law_whole_results_are_hits(
    result: ResultModel,
    root: RootModel,
    blobs: Seq<Vec<u8>>,
    temps: Seq<String>,
    stdout: Vec<u8>,
    stderr: Vec<u8>,
)
    requires
        forall|i: int|
            0 <= i < result.outputs.len() ==> stays_below((#[trigger] result.outputs[i]).logical),
    ensures
        publish_course(result, root, good_events(result, blobs, temps, stdout, stderr)),
        publish_after(
            result,
            root,
            good_events(result, blobs, temps, stdout, stderr),
        ).phase == PhaseModel::Finished(
            Ok(
                LookupModel::Hit(
                    result.exit_code,
                    if result.stdout is Some {
                        stdout@
                    } else {
                        Seq::empty()
                    },
                    if result.stderr is Some {
                        stderr@
                    } else {
                        Seq::empty()
                    },
                ),
            ),
        ),
{
    let n = result.outputs.len();
    let a = commit_events(blobs, temps, n, n);
    if n == 0 {
        lemma_staging(result, root, blobs, temps, 0);
    } else {
        lemma_committing(result, root, blobs, temps, n);
    }
    let b = if result.stdout is Some {
        a.push(PublishEvent::Blob(stdout))
    } else {
        a
    };
    assert(publish_course(result, root, a));
    if result.stdout is Some {
        assert(b.drop_last() =~= a);
    }
    assert(publish_course(result, root, b));
    if result.stderr is Some {
        assert(b.push(PublishEvent::Blob(stderr)).drop_last() =~= b);
    }
}

/// Whether `blobs` is what `store` keeps of the outputs of a result.
pub open spec fn keeps(
    store: Map<Seq<char>, Seq<u8>>,
    result: ResultModel,
    blobs: Seq<Vec<u8>>,
) -> bool {
    &&& blobs.len() == result.outputs.len()
    &&& forall|i: int|
        0 <= i < blobs.len() ==> store.contains_key(result.outputs[i].digest)
            && store[result.outputs[i].digest] == (#[trigger] blobs[i])@
}

/// Whether `content` is what `store` keeps under `digest`, where there is one.
pub open spec fn keeps_console(
    store: Map<Seq<char>, Seq<u8>>,
    digest: Option<Seq<char>>,
    content: Seq<u8>,
) -> bool {
    digest matches Some(d) ==> store.contains_key(d) && store[d] == content
}

proof fn lemma_staging_gets(
    store: Map<Seq<char>, Seq<u8>>,
    result: ResultModel,
    root: RootModel,
    blobs: Seq<Vec<u8>>,
    temps: Seq<String>,
    k: nat,
)
    requires
        k <= result.outputs.len(),
        keeps(store, result, blobs),
        forall|i: int|
            0 <= i < result.outputs.len() ==> stays_below((#[trigger] result.outputs[i]).logical),
    ensures
        got_from(store, result, root, staging_events(blobs, temps, k)),
    decreases k,
{
    if k > 0 {
        let j = (k - 1) as nat;
        lemma_staging_gets(store, result, root, blobs, temps, j);
        lemma_staging(result, root, blobs, temps, j);
        let before = staging_events(blobs, temps, j);
        let fetched = before.push(PublishEvent::Blob(blobs[k - 1]));
        let staged = fetched.push(PublishEvent::Staged(temps[k - 1]));
        assert(fetched.drop_last() =~= before);
        assert(staged.drop_last() =~= fetched);
        assert(stays_below(result.outputs[j as int].logical));
        assert(publish_after(result, root, before).phase is Fetch);
        assert(blobs[j as int]@ == store[result.outputs[j as int].digest]);
        assert(got_from(store, result, root, fetched));
        assert(got_from(store, result, root, staged));
    }
}

proof fn lemma_committing_gets(
    store: Map<Seq<char>, Seq<u8>>,
    result: ResultModel,
    root: RootModel,
    blobs: Seq<Vec<u8>>,
    temps: Seq<String>,
    k: nat,
)
    requires
        keeps(store, result, blobs),
        forall|i: int|
            0 <= i < result.outputs.len() ==> stays_below((#[trigger] result.outputs[i]).logical),
    ensures
        got_from(store, result, root, commit_events(blobs, temps, result.outputs.len(), k)),
    decreases k,
{
    let n = result.outputs.len();
    if k == 0 {
        lemma_staging_gets(store, result, root, blobs, temps, n);
    } else {
        lemma_committing_gets(store, result, root, blobs, temps, (k - 1) as nat);
        let before = commit_events(blobs, temps, n, (k - 1) as nat);
        assert(before.push(PublishEvent::Done).drop_last() =~= before);
    }
}

/// Where every content is there and nothing fails, all that is got is what the store
/// keeps, and so a result whose outputs stay below the root is put in place whole.
pub proof fn law_kept_results_are_put_in_place(
    store: Map<Seq<char>, Seq<u8>>,
    result: ResultModel,
    root: RootModel,
    blobs: Seq<Vec<u8>>,
    temps: Seq<String>,
    stdout: Vec<u8>,
    stderr: Vec<u8>,
)
    requires
        keeps(store, result, blobs),
        keeps_console(store, result.stdout, stdout@),
        keeps_console(store, result.stderr, stderr@),
        forall|i: int|
            0 <= i < result.outputs.len() ==> stays_below((#[trigger] result.outputs[i]).logical),
    ensures
        ({
            let events = good_events(result, blobs, temps, stdout, stderr);
            &&& publish_course(result, root, events)
            &&& got_from(store, result, root, events)
            &&& placed(result, root, events) == files_of(store, result, root)
        }),
{
    let n = result.outputs.len();
    let a = commit_events(blobs, temps, n, n);
    lemma_committing_gets(store, result, root, blobs, temps, n);
    if n == 0 {
        lemma_staging(result, root, blobs, temps, 0);
    } else {
        lemma_committing(result, root, blobs, temps, n);
    }
    let b = if result.stdout is Some {
        a.push(PublishEvent::Blob(stdout))
    } else {
        a
    };
    if result.stdout is Some {
        assert(b.drop_last() =~= a);
        assert(publish_after(result, root, a).phase is FetchStdout);
    }
    assert(got_from(store, result, root, b));
    if result.stderr is Some {
        assert(b.push(PublishEvent::Blob(stderr)).drop_last() =~= b);
        assert(publish_after(result, root, b).phase is FetchStderr);
    }
    law_whole_results_are_hits(result, root, blobs, temps, stdout, stderr);
    law_hits_put_the_stored_contents_in_place(
        store,
        result,
        root,
        good_events(result, blobs, temps, stdout, stderr),
    );
}

/// Content that is not there makes the lookup a miss, and a failure before the first output is
/// in place makes it fail with that failure, once all staged files are removed. A failure at a
/// later output leaves those that are in place and removes the rest.
pub proof fn law_failures_are_told_after_cleaning_up(m: PublishModel, f: Failure, i: nat)
    ensures
        m.phase is Fetch || m.phase is Stage ==> {
            let n = m.next(PublishEvent::Failed(f));
            &&& n.phase == PhaseModel::Unstage(0, Some(f@))
            &&& n.expects(PublishEvent::Done)
            &&& n.next(PublishEvent::Done).phase == PhaseModel::Finished(Err(f@))
        },
        m.phase is Fetch ==> {
            let n = m.next(PublishEvent::Absent);
            &&& n.phase == PhaseModel::Unstage(0, None)
            &&& n.expects(PublishEvent::Done)
            &&& n.next(PublishEvent::Done).phase == PhaseModel::Finished(Ok(LookupModel::Miss))
        },
        m.phase == PhaseModel::Commit(i) ==> {
            let n = m.next(PublishEvent::Failed(f));
            &&& n.phase == PhaseModel::Unstage(i + 1, Some(f@))
            &&& n.next(PublishEvent::Done).phase == PhaseModel::Finished(Err(f@))
        },
{
}

/// Console output that cannot be got does not keep a result from being a hit.
pub proof fn law_missing_console_is_left_empty(m: PublishModel, out: Seq<u8>, f: Failure)
    ensures
        m.phase is FetchStdout && m.result.stderr is None ==> {
            &&& m.next(PublishEvent::Absent).phase == PhaseModel::Finished(
                Ok(LookupModel::Hit(m.result.exit_code, Seq::empty(), Seq::empty())),
            )
            &&& m.next(PublishEvent::Failed(f)) == m.next(PublishEvent::Absent)
        },
        m.phase is FetchStdout && m.result.stderr is Some ==> {
            &&& m.next(PublishEvent::Absent).phase == PhaseModel::FetchStderr(Seq::empty())
            &&& m.next(PublishEvent::Failed(f)) == m.next(PublishEvent::Absent)
        },
        m.phase == PhaseModel::FetchStderr(out) ==> {
            &&& m.next(PublishEvent::Absent).phase == PhaseModel::Finished(
                Ok(LookupModel::Hit(m.result.exit_code, out, Seq::empty())),
            )
            &&& m.next(PublishEvent::Failed(f)) == m.next(PublishEvent::Absent)
        },
{
}

/// A lookup goes on to put a result in place exactly where a usable manifest is stored, its
/// inputs could be hashed, and a result was found. Where the store fails it fails.
pub proof fn law_found_results_are_put_in_place(
    stored: Seq<u8>,
    result: ResultModel,
    root: RootModel,
    f: (FailureKind, Seq<char>),
    hashed: bool,
    found: Result<Option<ResultModel>, (FailureKind, Seq<char>)>,
)
    ensures
        is_usable(stored) ==> lookup_start(Ok(Some(stored)), true, Ok(Some(result)), root)
            == LookupStart::Publish(publish_start(result, root)),
        is_usable(stored) ==> lookup_start(Ok(Some(stored)), true, Err(f), root)
            == LookupStart::Finished(Err(f)),
        lookup_start(Err(f), hashed, found, root) == LookupStart::Finished(Err(f)),
        publish_start(result, root).result == result && publish_start(result, root).root == root,
        publish_start(result, root).staged.len() == 0,
{
}

/// A path stays below its directory exactly where it names no drive, does not begin with a
/// separator, and none of its components is `..`; either separator parts components.
pub proof fn law_climbing_paths_do_not_stay_below(pieces: Seq<Seq<char>>)
    requires
        pieces.len() > 0,
        forall|i: int, j: int|
            0 <= i < pieces.len() && 0 <= j < (#[trigger] pieces[i]).len() ==> !is_sep(
                #[trigger] pieces[i][j],
            ),
    ensures
        stays_below(join(pieces, seq!['\\'])) <==> {
            let p = join(pieces, seq!['\\']);
            &&& !(p.len() >= 2 && (('a' <= p[0] && p[0] <= 'z') || ('A' <= p[0] && p[0] <= 'Z'))
                && p[1] == ':')
            &&& !(p.len() > 0 && p[0] == '\\')
            &&& forall|i: int| 0 <= i < pieces.len() ==> #[trigger] pieces[i] != ".."@
        },
{
    let p = join(pieces, seq!['\\']);
    assert forall|i: int| 0 <= i < pieces.len() implies !(#[trigger] pieces[i]).contains('\\') by {
        if pieces[i].contains('\\') {
            let j = pieces[i].index_of('\\');
            assert(!is_sep(pieces[i][j]));
        }
    }
    lemma_split_join(pieces, '\\');
    lemma_joined_without_slashes(pieces);
    assert(backslashed(p) =~= p) by {
        assert forall|i: int| 0 <= i < p.len() implies backslashed(p)[i] == p[i] by {
            if p[i] == '/' {
                assert(p.contains(p[i]));
            }
        }
    }
    if p.len() > 0 && p[0] == '/' {
        assert(p.contains(p[0]));
    }
}

/// Either separator parts the components of a path.
pub proof fn law_slashes_part_components_too(p: Seq<char>)
    ensures
        stays_below(p) <==> stays_below(backslashed(p)),
{
    let b = backslashed(p);
    assert(backslashed(b) =~= b);
    assert(has_drive(p) <==> has_drive(b));
}

proof fn lemma_joined_without_slashes(pieces: Seq<Seq<char>>)
    requires
        forall|i: int, j: int|
            0 <= i < pieces.len() && 0 <= j < (#[trigger] pieces[i]).len() ==> !is_sep(
                #[trigger] pieces[i][j],
            ),
    ensures
        !join(pieces, seq!['\\']).contains('/'),
    decreases pieces.len(),
{
    let p = join(pieces, seq!['\\']);
    if p.contains('/') {
        let k = p.index_of('/');
        assert(p[k] == '/');
        if pieces.len() == 1 {
            assert(!is_sep(pieces[0][k]));
        } else {
            let init = pieces.drop_last();
            assert forall|i: int, j: int|
                0 <= i < init.len() && 0 <= j < (#[trigger] init[i]).len() implies !is_sep(
                #[trigger] init[i][j],
            ) by {
                assert(init[i] == pieces[i]);
                assert(!is_sep(pieces[i][j]));
            }
            lemma_joined_without_slashes(init);
            let front = join(init, seq!['\\']);
            if k < front.len() {
                assert(front[k] == '/');
                assert(front.contains(front[k]));
            } else if k > front.len() {
                let last = pieces.len() - 1;
                assert(pieces[last][k - front.len() - 1] == '/');
                assert(!is_sep(pieces[last][k - front.len() - 1]));
            }
        }
    }
}

} // verus!
