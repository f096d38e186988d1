//! How the requests of a worker are answered.

use crate::failure::{Failure, FailureKind};
use crate::fileserver::writeback::{refused, WriteBackResponse};
use crate::order::{law_sorting_orders_the_entries, sort_list, sorted, Listed};
use crate::text::{lemma_bytes_irreflexive, lemma_bytes_transitive, text_before, text_precedes};
use vstd::prelude::*;
use vstd::utf8::encode_utf8;

verus! {

/// How much of a file goes with the answer that opens it.
pub const INLINE_CHUNK: usize = 65_536;

/// How much content was sent.
pub struct ServerStats {
    /// How many reads were answered.
    pub read_ops: u64,
    /// How many bytes went with reads.
    pub read_bytes: u64,
    /// How many bytes went with opens.
    pub inline_bytes: u64,
}

impl Default for ServerStats {
    fn default() -> (r: ServerStats)
        ensures
            r == (ServerStats { read_ops: 0, read_bytes: 0, inline_bytes: 0 }),
    {
        ServerStats { read_ops: 0, read_bytes: 0, inline_bytes: 0 }
    }
}

impl ServerStats {
    /// How many bytes of content were sent in all.
    pub fn content_bytes(&self) -> (r: u64)
        requires
            self.read_bytes + self.inline_bytes <= u64::MAX,
        ensures
            r == self.read_bytes + self.inline_bytes,
    {
        self.read_bytes + self.inline_bytes
    }
}

/// What a request asks for.
#[derive(Clone, Copy, Debug, PartialEq, Eq, Structural)]
pub enum OpCode {
    Hello,
    StatBatch,
    OpenRead,
    Read,
    DirList,
    Has,
    WriteBack,
}

#[derive(Debug, Clone, PartialEq, Eq)]
pub struct StatEntry {
    pub exists: bool,
    pub is_dir: bool,
    pub size: u64,
    pub digest_hex: String,
}

#[derive(Debug, Clone, PartialEq, Eq)]
pub struct OpenReadResponse {
    pub exists: bool,
    pub size: u64,
    pub digest_hex: String,
    pub first_chunk: Vec<u8>,
}

#[derive(Debug, Clone, PartialEq, Eq)]
pub struct DirEntry {
    pub rel_path: String,
    pub is_dir: bool,
    pub size: u64,
}

#[derive(Debug, Clone, PartialEq, Eq)]
pub struct DirListResponse {
    pub exists: bool,
    pub entries: Vec<DirEntry>,
}

#[derive(Debug, Clone, PartialEq, Eq)]
pub struct HelloResponse {
    pub ok: bool,
    pub detail: String,
}

/// An answer.
#[derive(Debug, Clone, PartialEq, Eq)]
pub enum Response {
    Stat(Vec<StatEntry>),
    Open(OpenReadResponse),
    Read(Vec<u8>),
    DirList(DirListResponse),
    Has(Vec<bool>),
    WriteBack(WriteBackResponse),
    Hello(HelloResponse),
}

/// The answer that nothing is there to open.
pub open spec fn is_not_found(r: OpenReadResponse) -> bool {
    !r.exists && r.size == 0 && r.digest_hex@.len() == 0 && r.first_chunk@.len() == 0
}

/// The answer that nothing is there to open.
pub fn not_found_open() -> (r: OpenReadResponse)
    ensures
        is_not_found(r),
{
    OpenReadResponse {
        exists: false,
        size: 0,
        digest_hex: String::new(),
        first_chunk: Vec::new(),
    }
}

/// An answer that gives nothing away: that nothing is there, or a refusal with the
/// reason `writeback` or `hello`.
pub open spec fn is_empty_answer(
    op: OpCode,
    r: Response,
    writeback: Seq<char>,
    hello: Seq<char>,
) -> bool {
    match op {
        OpCode::StatBatch => r matches Response::Stat(e) && e@.len() == 0,
        OpCode::OpenRead => r matches Response::Open(o) && is_not_found(o),
        OpCode::Read => r matches Response::Read(b) && b@.len() == 0,
        OpCode::DirList => r matches Response::DirList(d) && !d.exists && d.entries@.len() == 0,
        OpCode::Has => r matches Response::Has(p) && p@.len() == 0,
        OpCode::WriteBack => r matches Response::WriteBack(w) && w@ == (false, writeback),
        OpCode::Hello => r matches Response::Hello(h) && !h.ok && h.detail@ == hello,
    }
}

fn empty_answer(op: OpCode, writeback: &str, hello: &str) -> (r: Response)
    ensures
        is_empty_answer(op, r, writeback@, hello@),
{
    match op {
        OpCode::StatBatch => Response::Stat(Vec::new()),
        OpCode::OpenRead => Response::Open(not_found_open()),
        OpCode::Read => Response::Read(Vec::new()),
        OpCode::DirList => Response::DirList(
            DirListResponse { exists: false, entries: Vec::new() },
        ),
        OpCode::Has => Response::Has(Vec::new()),
        OpCode::WriteBack => Response::WriteBack(refused(writeback)),
        OpCode::Hello => Response::Hello(HelloResponse { ok: false, detail: hello.to_owned() }),
    }
}

/// The answer to any request of a session that has ended.
pub fn closed_response(op: OpCode) -> (r: Response)
    ensures
        is_empty_answer(op, r, "session is closed"@, "unexpected handshake after session open"@),
{
    empty_answer(op, "session is closed", "unexpected handshake after session open")
}

/// What to do about a request.
pub enum DispatchStep {
    Respond(Response),
    /// Close the connection.
    Fail(Failure),
    /// Carry it out.
    Handle,
}

/// Decides what to do about a request: `closed` tells whether its session has
/// ended, `decoded` whether it could be read.
pub fn dispatch(op: OpCode, closed: bool, decoded: bool) -> (r: DispatchStep)
    ensures
        if closed {
            r matches DispatchStep::Respond(a) && is_empty_answer(
                op,
                a,
                "session is closed"@,
                "unexpected handshake after session open"@,
            )
        } else if op is Hello {
            r matches DispatchStep::Respond(a) && is_empty_answer(
                op,
                a,
                "malformed WriteBack request"@,
                "unexpected handshake after session open"@,
            )
        } else if decoded {
            r is Handle
        } else if op is DirList {
            r matches DispatchStep::Fail(f) && f@ == (
                FailureKind::InvalidData,
                "malformed DirList request"@,
            )
        } else {
            r matches DispatchStep::Respond(a) && is_empty_answer(
                op,
                a,
                "malformed WriteBack request"@,
                "unexpected handshake after session open"@,
            )
        },
{
    if closed {
        return DispatchStep::Respond(closed_response(op));
    }
    if op == OpCode::Hello {
        return DispatchStep::Respond(
            empty_answer(
                op,
                "malformed WriteBack request",
                "unexpected handshake after session open",
            ),
        );
    }
    if decoded {
        return DispatchStep::Handle;
    }
    if op == OpCode::DirList {
        return DispatchStep::Fail(
            Failure::new(FailureKind::InvalidData, "malformed DirList request"),
        );
    }
    DispatchStep::Respond(
        empty_answer(
            op,
            "malformed WriteBack request",
            "unexpected handshake after session open",
        ),
    )
}

/// What is told of a path whose attributes, whether it is a directory and how
/// large it is, are `found`.
pub open spec fn tells(e: StatEntry, found: Option<(bool, u64)>) -> bool {
    &&& e.exists == (found is Some)
    &&& e.is_dir == (found matches Some(f) && f.0)
    &&& e.size == match found {
        Some(f) => f.1,
        None => 0u64,
    }
    &&& e.digest_hex@.len() == 0
}

/// The answer for one path.
pub fn stat_entry(found: Option<(bool, u64)>) -> (r: StatEntry)
    ensures
        tells(r, found),
{
    match found {
        Some((is_dir, size)) => StatEntry { exists: true, is_dir, size, digest_hex: String::new() },
        None => StatEntry { exists: false, is_dir: false, size: 0, digest_hex: String::new() },
    }
}

/// The answer for many paths; `found` holds the attributes of each, `None` for
/// those that do not exist.
pub fn stat_batch(found: &Vec<Option<(bool, u64)>>) -> (r: Vec<StatEntry>)
    ensures
        r@.len() == found@.len(),
        forall|i: int| 0 <= i < r@.len() ==> tells(#[trigger] r@[i], found@[i]),
{
    let mut r: Vec<StatEntry> = Vec::new();
    let mut i: usize = 0;
    while i < found.len()
        invariant
            i <= found@.len(),
            r@.len() == i,
            forall|j: int| 0 <= j < i ==> tells(#[trigger] r@[j], found@[j]),
        decreases found@.len() - i,
    {
        r.push(stat_entry(found[i]));
        i = i + 1;
    }
    r
}

/// The part of a file that goes with the answer that opens it.
pub open spec fn inline_part(want_inline: bool, blob: Option<Seq<u8>>) -> Seq<u8> {
    match blob {
        Some(b) => if !want_inline {
            Seq::empty()
        } else if b.len() <= INLINE_CHUNK {
            b
        } else {
            b.take(INLINE_CHUNK as int)
        },
        None => Seq::empty(),
    }
}

pub open spec fn opt_bytes(b: Option<Vec<u8>>) -> Option<Seq<u8>> {
    match b {
        Some(b) => Some(b@),
        None => None,
    }
}

/// The answer that opens a file. `pinned` is the digest of its content and its
/// size, `None` where there is no such file; `blob` is the content, where it was
/// asked for and is there.
pub fn open_read(
    stats: &mut ServerStats,
    pinned: Option<(String, u64)>,
    want_inline: bool,
    blob: Option<Vec<u8>>,
) -> (r: OpenReadResponse)
    ensures
        match pinned {
            None => is_not_found(r) && *final(stats) == *old(stats),
            Some((digest, size)) => {
                &&& r.exists && r.size == size && r.digest_hex == digest
                &&& r.first_chunk@ == inline_part(want_inline, opt_bytes(blob))
                &&& want_inline && blob is Some ==> r.first_chunk@.is_prefix_of(blob->0@)
                &&& *final(stats) == (ServerStats {
                    inline_bytes: old(stats).inline_bytes.wrapping_add(r.first_chunk@.len() as u64),
                    ..*old(stats)
                })
            },
        },
{
    match pinned {
        None => not_found_open(),
        Some((digest_hex, size)) => {
            let mut first_chunk: Vec<u8> = Vec::new();
            if want_inline {
                if let Some(b) = &blob {
                    if b.len() <= INLINE_CHUNK {
                        first_chunk = vstd::slice::slice_to_vec(b.as_slice());
                    } else {
                        first_chunk =
                        vstd::slice::slice_to_vec(
                            vstd::slice::slice_subrange(b.as_slice(), 0, INLINE_CHUNK),
                        );
                    }
                }
            }
            assert(first_chunk@ =~= inline_part(want_inline, opt_bytes(blob)));
            stats.inline_bytes = stats.inline_bytes.wrapping_add(first_chunk.len() as u64);
            OpenReadResponse { exists: true, size, digest_hex, first_chunk }
        },
    }
}

/// The `len` bytes of `b` from `offset` on, as far as there are any.
pub open spec fn byte_range(b: Seq<u8>, offset: u64, len: u64) -> Seq<u8> {
    if offset >= b.len() {
        Seq::empty()
    } else if offset + len <= b.len() {
        b.subrange(offset as int, offset + len)
    } else {
        b.skip(offset as int)
    }
}

/// The answer to a read. `visible` tells whether the session may read the content
/// that it asks for; `blob` is that content, where it is there.
pub fn read_range(
    stats: &mut ServerStats,
    visible: bool,
    blob: &Option<Vec<u8>>,
    offset: u64,
    len: u64,
) -> (r: Vec<u8>)
    ensures
        if visible && *blob is Some {
            &&& r@ == byte_range((*blob)->0@, offset, len)
            &&& *final(stats) == (ServerStats {
                read_ops: old(stats).read_ops.wrapping_add(1),
                read_bytes: old(stats).read_bytes.wrapping_add(r@.len() as u64),
                ..*old(stats)
            })
        } else {
            &&& r@.len() == 0
            &&& *final(stats) == *old(stats)
        },
{
    if !visible {
        return Vec::new();
    }
    match blob {
        None => Vec::new(),
        Some(b) => {
            let size: usize = b.len();
            let mut out: Vec<u8> = Vec::new();
            if offset < size as u64 {
                let start: usize = offset as usize;
                let end: usize = if len < (size - start) as u64 {
                    start + len as usize
                } else {
                    size
                };
                out =
                vstd::slice::slice_to_vec(vstd::slice::slice_subrange(b.as_slice(), start, end));
            }
            assert(out@ =~= byte_range(b@, offset, len));
            stats.read_ops = stats.read_ops.wrapping_add(1);
            stats.read_bytes = stats.read_bytes.wrapping_add(out.len() as u64);
            out
        },
    }
}

/// Two reads, the second of which begins where the first ends, give what one read
/// of both gives.
pub proof fn law_reads_continue_each_other(b: Seq<u8>, offset: u64, n: u64, m: u64)
    requires
        offset + n + m <= u64::MAX,
    ensures
        byte_range(b, offset, n) + byte_range(b, (offset + n) as u64, m) == byte_range(
            b,
            offset,
            (n + m) as u64,
        ),
{
    assert(byte_range(b, offset, n) + byte_range(b, (offset + n) as u64, m) =~= byte_range(
        b,
        offset,
        (n + m) as u64,
    ));
}

/// What a read gives: as many bytes as are asked for and there are, and each of them is
/// the byte of the content that stands so far behind the offset.
pub proof fn law_reads_give_the_bytes_asked_for(b: Seq<u8>, offset: u64, len: u64)
    ensures
        ({
            let r = byte_range(b, offset, len);
            &&& offset + len <= b.len() ==> r.len() == len
            &&& offset <= b.len() && b.len() < offset + len ==> r.len() == b.len() - offset
            &&& b.len() < offset ==> r.len() == 0
            &&& forall|i: int| 0 <= i < r.len() ==> #[trigger] r[i] == b[offset + i]
        }),
{
}

/// Reading a content in pieces, whatever their size, gives it back: a read of all of it
/// is the content.
pub proof fn law_reads_give_the_content_back(b: Seq<u8>, n: u64)
    requires
        b.len() <= u64::MAX,
        n <= b.len(),
    ensures
        byte_range(b, 0, b.len() as u64) == b,
        byte_range(b, 0, n) + byte_range(b, n, (b.len() - n) as u64) == b,
{
    assert(byte_range(b, 0, b.len() as u64) =~= b);
    assert(byte_range(b, 0, n) + byte_range(b, n, (b.len() - n) as u64) =~= b);
}

/// What goes with an open is the beginning of the content: all of it, or its first 64
/// KiB; nothing where it was not asked for. It is what a read of as much from the start
/// gives, and a read of the rest completes it.
pub proof fn law_opens_give_the_beginning(b: Seq<u8>)
    requires
        b.len() <= u64::MAX,
    ensures
        ({
            let first = inline_part(true, Some(b));
            &&& first.len() == if b.len() <= 65_536 {
                b.len() as int
            } else {
                65_536
            }
            &&& forall|i: int| 0 <= i < first.len() ==> #[trigger] first[i] == b[i]
            &&& first == byte_range(b, 0, 65_536)
            &&& first + byte_range(b, first.len() as u64, (b.len() - first.len()) as u64) == b
        }),
        inline_part(false, Some(b)).len() == 0,
        inline_part(true, None).len() == 0,
        inline_part(false, None).len() == 0,
{
    let first = inline_part(true, Some(b));
    assert(first =~= byte_range(b, 0, 65_536));
    assert(first + byte_range(b, first.len() as u64, (b.len() - first.len()) as u64) =~= b);
}

/// An answer that gives nothing away holds no entry, no byte, no digest and no yes.
pub proof fn law_empty_answers_hold_nothing(
    op: OpCode,
    r: Response,
    writeback: Seq<char>,
    hello: Seq<char>,
)
    requires
        is_empty_answer(op, r, writeback, hello),
    ensures
        match r {
            Response::Stat(entries) => op is StatBatch && entries@.len() == 0,
            Response::Open(o) => op is OpenRead && !o.exists && o.size == 0
                && o.digest_hex@.len() == 0 && o.first_chunk@.len() == 0,
            Response::Read(bytes) => op is Read && bytes@.len() == 0,
            Response::DirList(d) => op is DirList && !d.exists && d.entries@.len() == 0,
            Response::Has(present) => op is Has && present@.len() == 0,
            Response::WriteBack(w) => op is WriteBack && !w.ok && w.detail@ == writeback,
            Response::Hello(h) => op is Hello && !h.ok && h.detail@ == hello,
        },
{
}

/// What is told of a path are its attributes where it exists, and nothing where not.
pub proof fn law_stats_tell_the_attributes(e: StatEntry, is_dir: bool, size: u64)
    ensures
        tells(e, Some((is_dir, size))) <==> e.exists && e.is_dir == is_dir && e.size == size
            && e.digest_hex@.len() == 0,
        tells(e, None) <==> !e.exists && !e.is_dir && e.size == 0 && e.digest_hex@.len() == 0,
{
}

/// One digest that is asked for: whether it is one, whether the session may know of
/// it, and whether its content is there.
#[derive(Clone, Copy, Debug, PartialEq, Eq, Structural)]
pub struct DigestProbe {
    pub parsed: bool,
    pub visible: bool,
    pub stored: bool,
}

/// Which of the digests are there, as far as the session may know.
pub fn has(probes: &Vec<DigestProbe>) -> (r: Vec<bool>)
    ensures
        r@.len() == probes@.len(),
        forall|i: int|
            0 <= i < r@.len() ==> #[trigger] r@[i] == (probes@[i].parsed && probes@[i].visible
                && probes@[i].stored),
{
    let mut r: Vec<bool> = Vec::new();
    let mut i: usize = 0;
    while i < probes.len()
        invariant
            i <= probes@.len(),
            r@.len() == i,
            forall|j: int|
                0 <= j < i ==> #[trigger] r@[j] == (probes@[j].parsed && probes@[j].visible
                    && probes@[j].stored),
        decreases probes@.len() - i,
    {
        r.push(probes[i].parsed && probes[i].visible && probes[i].stored);
        i = i + 1;
    }
    r
}

impl Listed for DirEntry {
    open spec fn ahead(self, other: Self) -> bool {
        text_before(self.rel_path@, other.rel_path@)
    }

    fn is_ahead(&self, other: &Self) -> (r: bool) {
        text_precedes(self.rel_path.as_str(), other.rel_path.as_str())
    }

    proof fn ahead_asymmetric(a: Self, b: Self) {
        let x = encode_utf8(a.rel_path@);
        let y = encode_utf8(b.rel_path@);
        if b.ahead(a) {
            lemma_bytes_transitive(x, y, x);
            lemma_bytes_irreflexive(x);
        }
    }

    proof fn ahead_carries(a: Self, b: Self, c: Self) {
        let x = encode_utf8(a.rel_path@);
        let y = encode_utf8(b.rel_path@);
        let z = encode_utf8(c.rel_path@);
        crate::text::lemma_bytes_total(x, y);
        crate::text::lemma_bytes_total(y, z);
        crate::text::lemma_bytes_total(x, z);
        if a.ahead(b) {
            if y == z {
            } else if crate::text::bytes_before(y, z) {
                lemma_bytes_transitive(x, y, z);
            }
        }
    }
}

/// Adds an entry to the listing of a directory, which may hold `quota` entries.
pub fn add_dir_entry(entries: &mut Vec<DirEntry>, entry: DirEntry, quota: usize) -> (r: Result<
    (),
    Failure,
>)
    ensures
        final(entries)@ == old(entries)@.push(entry),
        match r {
            Ok(_) => final(entries)@.len() <= quota,
            Err(f) => final(entries)@.len() > quota && f@ == (
                FailureKind::InvalidData,
                "DirList entry quota exceeded"@,
            ),
        },
{
    entries.push(entry);
    if entries.len() > quota {
        return Err(Failure::new(FailureKind::InvalidData, "DirList entry quota exceeded"));
    }
    Ok(())
}

/// What came of reading a directory.
pub enum DirRead {
    /// It could not be read.
    Failed(Failure),
    /// It holds too many entries.
    TooLarge(Failure),
    Entries(Vec<DirEntry>),
}

/// The answer to a request for a listing. `contained` tells whether the directory
/// was read below the directory of the session.
pub fn dir_list(read: DirRead, contained: bool) -> (r: Result<DirListResponse, Failure>)
    ensures
        match read {
            DirRead::TooLarge(f) => r == Err::<DirListResponse, Failure>(f),
            DirRead::Failed(f) => if contained && f.kind is InvalidData {
                r == Err::<DirListResponse, Failure>(f)
            } else {
                r matches Ok(d) && !d.exists && d.entries@.len() == 0
            },
            DirRead::Entries(entries) => r matches Ok(d) && d.exists && d.entries@ == sorted(
                entries@,
            ),
        },
{
    match read {
        DirRead::TooLarge(f) => Err(f),
        DirRead::Failed(f) => {
            if contained && f.kind == FailureKind::InvalidData {
                Err(f)
            } else {
                Ok(DirListResponse { exists: false, entries: Vec::new() })
            }
        },
        DirRead::Entries(entries) => Ok(
            DirListResponse { exists: true, entries: sort_list(entries) },
        ),
    }
}

/// A listing is in the order of the names, byte by byte, and holds each entry of the
/// directory as often as it was read.
pub proof fn law_listings_are_in_the_order_of_names(entries: Seq<DirEntry>)
    ensures
        forall|i: int, j: int|
            0 <= i < j < sorted(entries).len() ==> !text_before(
                (#[trigger] sorted(entries)[j]).rel_path@,
                (#[trigger] sorted(entries)[i]).rel_path@,
            ),
        sorted(entries).to_multiset() == entries.to_multiset(),
{
    law_sorting_orders_the_entries(entries);
    assert forall|i: int, j: int| 0 <= i < j < sorted(entries).len() implies !text_before(
        (#[trigger] sorted(entries)[j]).rel_path@,
        (#[trigger] sorted(entries)[i]).rel_path@,
    ) by {
        assert(!sorted(entries)[j].ahead(sorted(entries)[i]));
    }
}

} // verus!
