//! How a worker's outputs come back: in pieces, in order, no larger than allowed,
//! and kept only where their digest is the declared one.

use crate::digest::{digest_text, ContentHasher};
use crate::failure::{Failure, FailureKind};
use crate::keyed::{lemma_entry, KeyedVec};
use crate::text::{decimal, decimal_of, same_text};
use vstd::prelude::*;

verus! {

/// An output that a session may write.
#[derive(Debug, Clone, PartialEq, Eq)]
pub struct OutputSpec {
    pub id: u32,
    pub final_path: String,
    pub max_size: u64,
}

/// One piece of an output.
#[derive(Debug, Clone, PartialEq, Eq)]
pub struct WriteBackRequest {
    pub output_id: u32,
    pub offset: u64,
    pub bytes: Vec<u8>,
    pub last: bool,
    /// With the last piece: the digest of the whole.
    pub digest_hex: String,
}

/// What a worker is told of a piece.
#[derive(Debug, Clone, PartialEq, Eq)]
pub struct WriteBackResponse {
    pub ok: bool,
    pub detail: String,
}

impl View for WriteBackResponse {
    type V = (bool, Seq<char>);

    open spec fn view(&self) -> (bool, Seq<char>) {
        (self.ok, self.detail@)
    }
}

/// A piece is refused.
pub fn refused(detail: &str) -> (r: WriteBackResponse)
    ensures
        r@ == (false, detail@),
{
    WriteBackResponse { ok: false, detail: detail.to_owned() }
}

/// A piece is taken.
pub fn taken() -> (r: WriteBackResponse)
    ensures
        r@ == (true, Seq::<char>::empty()),
{
    let r = WriteBackResponse { ok: true, detail: String::new() };
    assert(r@.1 =~= Seq::<char>::empty());
    r
}

/// An output on its way.
pub struct WritebackState {
    /// Which temporary file holds it.
    pub temp: u64,
    pub written: u64,
    pub hasher: ContentHasher,
}

/// The temporary file of an output on its way, and its content so far.
#[verifier::ext_equal]
pub struct Partial {
    pub temp: u64,
    pub content: Seq<u8>,
}

impl View for WritebackState {
    type V = Partial;

    open spec fn view(&self) -> Partial {
        Partial { temp: self.temp, content: self.hasher@ }
    }
}

/// The outputs of a session that are on their way.
pub struct Writebacks {
    states: KeyedVec<u32, WritebackState>,
}

impl View for Writebacks {
    type V = Map<u32, Partial>;

    closed spec fn view(&self) -> Map<u32, Partial> {
        self.states@
    }
}

/// What to do about a piece first.
pub enum BeginStep {
    Respond(WriteBackResponse),
    /// It begins an output: make a temporary file beside the final path.
    CreateTemp(String),
    /// It goes on with one.
    Proceed,
}

/// What to do about a piece next.
pub enum ChunkStep {
    Respond(WriteBackResponse),
    /// It is too large: remove the temporary file, then respond.
    Discard(u64, WriteBackResponse),
    /// Write it to the temporary file, at its offset.
    Write(u64),
}

/// What to do once a piece was written.
pub enum WrittenStep {
    Respond(WriteBackResponse),
    /// The digest is wrong: remove the temporary file, then respond.
    Discard(u64, WriteBackResponse),
    /// The output is whole: verify that the temporary file holds it, whose digest is
    /// this one.
    Verify(u64, String),
}

/// What to do about an output that is whole once its file was looked at.
pub enum VerifiedStep {
    /// Remove the temporary file, then respond.
    Discard(u64, WriteBackResponse),
    /// Keep the file for publication.
    Stage(u64),
}

/// A file, and how many names it has.
#[derive(Clone, Copy, Debug, PartialEq, Eq, Structural)]
pub struct FileSnapshot {
    /// The volume that it is on.
    pub volume: u64,
    /// Its number there, which tells it from every other file.
    pub index: u64,
    pub link_count: u64,
}

/// What is wrong with the temporary file of an output, if anything is.
pub open spec fn staging_problem(
    expected: FileSnapshot,
    found: FileSnapshot,
    expected_digest: Seq<char>,
    found_digest: Seq<char>,
) -> Option<(FailureKind, Seq<char>)> {
    if found.volume != expected.volume || found.index != expected.index {
        Some(
            (
                FailureKind::PermissionDenied,
                "staging temp file identity changed before final writeback verification"@,
            ),
        )
    } else if found.link_count != expected.link_count {
        Some(
            (
                FailureKind::PermissionDenied,
                "staging temp hardlink count changed before final writeback verification"@,
            ),
        )
    } else if found_digest != expected_digest {
        Some(
            (
                FailureKind::PermissionDenied,
                "staging temp path no longer contains the verified bytes"@,
            ),
        )
    } else {
        None
    }
}

/// Checks that the temporary file of an output is the one that was made, under as
/// many names as then, and holds what was hashed; `content` is what was read from it.
pub fn verify_root_file_snapshot_and_digest(
    expected: FileSnapshot,
    found: FileSnapshot,
    content: &ContentHasher,
    tag: &str,
    expected_digest: &str,
) -> (r: Result<(), Failure>)
    ensures
        match staging_problem(expected, found, expected_digest@, tag@ + digest_text(content@)) {
            None => r is Ok,
            Some(e) => r matches Err(f) && f@ == e,
        },
{
    if found.volume != expected.volume || found.index != expected.index {
        return Err(
            Failure::new(
                FailureKind::PermissionDenied,
                "staging temp file identity changed before final writeback verification",
            ),
        );
    }
    if found.link_count != expected.link_count {
        return Err(
            Failure::new(
                FailureKind::PermissionDenied,
                "staging temp hardlink count changed before final writeback verification",
            ),
        );
    }
    if !same_text(content.text(tag).as_str(), expected_digest) {
        return Err(
            Failure::new(
                FailureKind::PermissionDenied,
                "staging temp path no longer contains the verified bytes",
            ),
        );
    }
    Ok(())
}

/// Decides what to do about a piece first; `output` is what the session says of
/// its output.
pub fn write_back(request: &WriteBackRequest, output: &Option<OutputSpec>) -> (r: BeginStep)
    ensures
        match *output {
            None => r matches BeginStep::Respond(a) && a@ == (false, "unknown output id"@),
            Some(o) => if request.offset == 0 {
                r matches BeginStep::CreateTemp(p) && p@ == o.final_path@
            } else {
                r is Proceed
            },
        },
{
    match output {
        None => BeginStep::Respond(refused("unknown output id")),
        Some(o) => {
            if request.offset == 0 {
                BeginStep::CreateTemp(o.final_path.clone())
            } else {
                BeginStep::Proceed
            }
        },
    }
}

/// What a piece does to an output whose content so far is `content`: the content
/// with the piece behind it, or `None` where it does not fit.
pub open spec fn extended(content: Seq<u8>, offset: u64, bytes: Seq<u8>, max_size: u64) -> Option<
    Seq<u8>,
> {
    if offset == content.len() && content.len() + bytes.len() <= max_size {
        Some(content + bytes)
    } else {
        None
    }
}

pub open spec fn out_of_order_text(offset: u64, written: nat) -> Seq<char> {
    "out-of-order WriteBack chunk: offset "@ + decimal(offset as nat) + " but "@ + decimal(written)
        + " bytes written"@
}

pub open spec fn mismatch_text(declared: Seq<char>, found: Seq<char>) -> Seq<char> {
    "digest mismatch: declared "@ + declared + ", got "@ + found
}

impl Writebacks {
    pub closed spec fn wf(&self) -> bool {
        &&& self.states.wf()
        &&& forall|i: int|
            0 <= i < self.states.entries@.len() ==> {
                let s = (#[trigger] self.states.entries@[i]).1;
                s.written == s.hasher@.len()
            }
    }

    pub fn new() -> (r: Writebacks)
        ensures
            r.wf(),
            r@ == Map::<u32, Partial>::empty(),
    {
        Writebacks { states: KeyedVec::new() }
    }

    /// Begins an output anew in the temporary file `temp`. The file that held it
    /// before, if there was one, is to be removed.
    pub fn restart(&mut self, output_id: u32, temp: u64) -> (r: Option<u64>)
        requires
            old(self).wf(),
        ensures
            final(self).wf(),
            final(self)@ == old(self)@.insert(
                output_id,
                Partial { temp, content: Seq::<u8>::empty() },
            ),
            match r {
                Some(t) => old(self)@.contains_key(output_id) && old(self)@[output_id].temp == t,
                None => !old(self)@.contains_key(output_id),
            },
    {
        let state = WritebackState { temp, written: 0, hasher: ContentHasher::new() };
        assert(state@ =~= (Partial { temp, content: Seq::<u8>::empty() }));
        match self.states.find(&output_id) {
            Some(i) => {
                proof {
                    lemma_entry(self.states.entries@, i as int);
                }
                let previous: u64 = self.states.entries[i].1.temp;
                self.states.set_at(i, state);
                Some(previous)
            },
            None => {
                self.states.add_entry(output_id, state);
                None
            },
        }
    }

    /// Decides whether a piece fits: it has to begin where the output ends, and
    /// leave it no larger than allowed.
    pub fn check_chunk(&mut self, request: &WriteBackRequest, max_size: u64) -> (r: ChunkStep)
        requires
            old(self).wf(),
        ensures
            final(self).wf(),
            !old(self)@.contains_key(request.output_id) ==> {
                &&& final(self)@ == old(self)@
                &&& r matches ChunkStep::Respond(a) && a@ == (
                    false,
                    "WriteBack chunk arrived without a begin (offset 0)"@,
                )
            },
            old(self)@.contains_key(request.output_id) ==> {
                let p = old(self)@[request.output_id];
                if request.offset != p.content.len() {
                    &&& final(self)@ == old(self)@
                    &&& r matches ChunkStep::Respond(a) && a@ == (
                        false,
                        out_of_order_text(request.offset, p.content.len()),
                    )
                } else if extended(p.content, request.offset, request.bytes@, max_size) is None {
                    &&& final(self)@ == old(self)@.remove(request.output_id)
                    &&& r matches ChunkStep::Discard(t, a) && t == p.temp && a@ == (
                        false,
                        "output exceeds max size"@,
                    )
                } else {
                    &&& final(self)@ == old(self)@
                    &&& r == ChunkStep::Write(p.temp)
                }
            },
    {
        match self.states.find(&request.output_id) {
            None => ChunkStep::Respond(
                refused("WriteBack chunk arrived without a begin (offset 0)"),
            ),
            Some(i) => {
                proof {
                    lemma_entry(self.states.entries@, i as int);
                }
                let written: u64 = self.states.entries[i].1.written;
                let temp: u64 = self.states.entries[i].1.temp;
                if request.offset != written {
                    let mut m = "out-of-order WriteBack chunk: offset ".to_owned();
                    m.append(decimal_of(request.offset).as_str());
                    m.append(" but ");
                    m.append(decimal_of(written).as_str());
                    m.append(" bytes written");
                    return ChunkStep::Respond(WriteBackResponse { ok: false, detail: m });
                }
                let size: u64 = request.bytes.len() as u64;
                if written > max_size || size > max_size - written {
                    let _removed = self.states.remove_at(i);
                    return ChunkStep::Discard(temp, refused("output exceeds max size"));
                }
                ChunkStep::Write(temp)
            },
        }
    }

    /// Takes in a piece that was written to the temporary file. With the last one the
    /// output is whole, and is judged by its digest; `tag` stands before the hex
    /// digits of digests.
    pub fn chunk_written(&mut self, request: &WriteBackRequest, max_size: u64, tag: &str) -> (r:
        WrittenStep)
        requires
            old(self).wf(),
            old(self)@.contains_key(request.output_id),
            extended(
                old(self)@[request.output_id].content,
                request.offset,
                request.bytes@,
                max_size,
            ) is Some,
        ensures
            final(self).wf(),
            ({
                let p = old(self)@[request.output_id];
                let whole = p.content + request.bytes@;
                let digest = tag@ + digest_text(whole);
                if !request.last {
                    &&& final(self)@ == old(self)@.insert(
                        request.output_id,
                        Partial { temp: p.temp, content: whole },
                    )
                    &&& r matches WrittenStep::Respond(a) && a@ == (true, Seq::<char>::empty())
                } else {
                    &&& final(self)@ == old(self)@.remove(request.output_id)
                    &&& if digest == request.digest_hex@ {
                        r matches WrittenStep::Verify(t, d) && t == p.temp && d@ == digest
                    } else {
                        r matches WrittenStep::Discard(t, a) && t == p.temp && a@ == (
                            false,
                            mismatch_text(request.digest_hex@, digest),
                        )
                    }
                }
            }),
    {
        match self.states.find(&request.output_id) {
            None => WrittenStep::Respond(taken()),
            Some(i) => {
                let ghost before = self.states.entries@;
                proof {
                    lemma_entry(before, i as int);
                }
                let (_, mut state) = self.states.remove_at(i);
                let ghost content = state.hasher@;
                state.hasher.update(request.bytes.as_slice());
                state.written = state.written + request.bytes.len() as u64;
                if !request.last {
                    let ghost part = state@;
                    assert(part =~= (Partial {
                        temp: state.temp,
                        content: content + request.bytes@,
                    }));
                    self.states.add_entry(request.output_id, state);
                    assert(self@ =~= old(self)@.insert(request.output_id, part));
                    return WrittenStep::Respond(taken());
                }
                let digest = state.hasher.text(tag);
                if same_text(digest.as_str(), request.digest_hex.as_str()) {
                    WrittenStep::Verify(state.temp, digest)
                } else {
                    let mut m = "digest mismatch: declared ".to_owned();
                    m.append(request.digest_hex.as_str());
                    m.append(", got ");
                    m.append(digest.as_str());
                    WrittenStep::Discard(state.temp, WriteBackResponse { ok: false, detail: m })
                }
            },
        }
    }
}

/// Decides about an output that is whole once its temporary file was verified.
pub fn after_verification(temp: u64, verified: bool) -> (r: VerifiedStep)
    ensures
        if verified {
            r == VerifiedStep::Stage(temp)
        } else {
            r matches VerifiedStep::Discard(t, a) && t == temp && a@ == (
                false,
                "verify temp failed"@,
            )
        },
{
    if verified {
        VerifiedStep::Stage(temp)
    } else {
        VerifiedStep::Discard(temp, refused("verify temp failed"))
    }
}

/// What a worker is told once its output was kept for publication; `open` tells
/// whether the session was still open to keep it.
pub fn after_staging(open: bool) -> (r: WriteBackResponse)
    ensures
        r@ == if open {
            (true, Seq::<char>::empty())
        } else {
            (false, "session closed during writeback"@)
        },
{
    if open {
        taken()
    } else {
        refused("session closed during writeback")
    }
}

/// The content of an output after the pieces `pieces`, each an offset and bytes, of
/// which none was refused.
pub open spec fn content_after(pieces: Seq<(u64, Seq<u8>)>, max_size: u64) -> Option<Seq<u8>>
    decreases pieces.len(),
{
    if pieces.len() == 0 {
        Some(Seq::empty())
    } else {
        match content_after(pieces.drop_last(), max_size) {
            Some(content) => extended(content, pieces.last().0, pieces.last().1, max_size),
            None => None,
        }
    }
}

pub open spec fn all_bytes(pieces: Seq<(u64, Seq<u8>)>) -> Seq<u8>
    decreases pieces.len(),
{
    if pieces.len() == 0 {
        Seq::empty()
    } else {
        all_bytes(pieces.drop_last()) + pieces.last().1
    }
}

/// An output is its pieces, one behind the other: no gap, no overlap, nothing
/// written twice, and never more than allowed. Each piece began where the ones
/// before it ended.
pub proof fn law_outputs_are_their_pieces_in_order(pieces: Seq<(u64, Seq<u8>)>, max_size: u64)
    requires
        content_after(pieces, max_size) is Some,
    ensures
        content_after(pieces, max_size)->0 == all_bytes(pieces),
        all_bytes(pieces).len() <= max_size,
        forall|i: int|
            0 <= i < pieces.len() ==> (#[trigger] pieces[i]).0 == all_bytes(pieces.take(i)).len(),
    decreases pieces.len(),
{
    if pieces.len() > 0 {
        let init = pieces.drop_last();
        law_outputs_are_their_pieces_in_order(init, max_size);
        assert forall|i: int| 0 <= i < pieces.len() implies (#[trigger] pieces[i]).0 == all_bytes(
            pieces.take(i),
        ).len() by {
            if i < init.len() {
                assert(pieces.take(i) =~= init.take(i));
                assert(pieces[i] == init[i]);
            } else {
                assert(pieces.take(i) =~= init);
            }
        }
    }
}

/// A file is kept for publication only where it is the file that was made, under
/// as many names as then, and where the digest of what it holds is the declared one.
pub proof fn law_staged_files_are_what_was_declared(
    expected: FileSnapshot,
    found: FileSnapshot,
    declared: Seq<char>,
    content: Seq<u8>,
    tag: Seq<char>,
)
    requires
        staging_problem(expected, found, declared, tag + digest_text(content)) is None,
    ensures
        found == expected,
        tag + digest_text(content) == declared,
{
}

/// A piece is taken exactly where it begins at the end of what is there and does not make it
/// larger than allowed, and then it stands behind what was there.
pub proof fn law_pieces_that_fit_are_taken(
    content: Seq<u8>,
    offset: u64,
    bytes: Seq<u8>,
    max_size: u64,
)
    ensures
        offset == content.len() && content.len() + bytes.len() <= max_size ==> extended(
            content,
            offset,
            bytes,
            max_size,
        ) == Some(content + bytes),
        offset != content.len() || content.len() + bytes.len() > max_size ==> extended(
            content,
            offset,
            bytes,
            max_size,
        ) is None,
{
}

/// An output that is sent in order, in whatever pieces, and is no larger than allowed comes
/// back whole.
pub proof fn law_outputs_in_order_come_back_whole(pieces: Seq<(u64, Seq<u8>)>, max_size: u64)
    requires
        all_bytes(pieces).len() <= max_size,
        forall|i: int|
            0 <= i < pieces.len() ==> (#[trigger] pieces[i]).0 == all_bytes(pieces.take(i)).len(),
    ensures
        content_after(pieces, max_size) == Some(all_bytes(pieces)),
    decreases pieces.len(),
{
    if pieces.len() > 0 {
        let init = pieces.drop_last();
        let n = init.len() as int;
        assert forall|i: int| 0 <= i < init.len() implies (#[trigger] init[i]).0 == all_bytes(
            init.take(i),
        ).len() by {
            assert(init[i] == pieces[i]);
            assert(init.take(i) =~= pieces.take(i));
        }
        law_outputs_in_order_come_back_whole(init, max_size);
        assert(pieces.take(n) =~= init);
        assert(pieces[n].0 == all_bytes(init).len());
    }
}

/// The bytes of pieces are those of each, one behind the other.
pub proof fn law_the_bytes_of_pieces_add_up(
    pieces: Seq<(u64, Seq<u8>)>,
    offset: u64,
    bytes: Seq<u8>,
)
    ensures
        all_bytes(Seq::empty()).len() == 0,
        all_bytes(pieces.push((offset, bytes))) == all_bytes(pieces) + bytes,
{
    assert(pieces.push((offset, bytes)).drop_last() =~= pieces);
}

/// A file that is the one that was made, under as many names as then, and that holds what was
/// hashed is kept; one that is another file, has more or fewer names or holds something else
/// is not.
pub proof fn law_intact_files_are_kept(
    expected: FileSnapshot,
    found: FileSnapshot,
    expected_digest: Seq<char>,
    found_digest: Seq<char>,
)
    ensures
        staging_problem(expected, found, expected_digest, found_digest) is None <==> {
            &&& found.volume == expected.volume && found.index == expected.index
            &&& found.link_count == expected.link_count
            &&& found_digest == expected_digest
        },
        staging_problem(expected, found, expected_digest, found_digest) matches Some(e) ==> e.0
            == FailureKind::PermissionDenied,
{
}

} // verus!
