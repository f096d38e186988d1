use sembazuru_agent::digest::ContentHasher;
use sembazuru_agent::failure::{Failure, FailureKind};
use sembazuru_agent::fileserver::ops::{
    add_dir_entry, closed_response, dir_list, dispatch, has, open_read, read_range, stat_batch,
    DigestProbe, DirEntry, DirRead, DispatchStep, OpCode, Response, ServerStats, INLINE_CHUNK,
};
use sembazuru_agent::fileserver::paths::PathMap;
use sembazuru_agent::fileserver::sessions::{
    access, handshake, resolve_session, Access, FirstMessage, HandshakeStep, Opening,
    SessionChoice, SessionScope,
};
use sembazuru_agent::fileserver::writeback::{
    after_staging, after_verification, verify_root_file_snapshot_and_digest, write_back, BeginStep,
    ChunkStep, FileSnapshot, OutputSpec, VerifiedStep, WriteBackRequest, Writebacks, WrittenStep,
};

fn hello(token: Result<(), String>, session_id: &str, root: &str) -> Opening {
    Opening::Message(FirstMessage::Hello {
        token,
        session_id: session_id.to_string(),
        root: root.to_string(),
    })
}

fn rejection(step: HandshakeStep) -> String {
    match step {
        HandshakeStep::Reject(reason) => reason,
        _ => panic!("not rejected"),
    }
}

#[test]
fn sessions_are_bound_by_their_identifier() {
    assert_eq!(
        resolve_session(false, "s1".into(), true, None),
        Ok(SessionChoice::Bound("s1".into()))
    );
    assert_eq!(
        resolve_session(true, "s1".into(), false, None),
        Err("unknown or expired session id".into())
    );
    assert_eq!(resolve_session(false, "".into(), false, None), Err("session id required".into()));
    assert_eq!(
        resolve_session(true, "".into(), false, Some("c:\\w".into())),
        Ok(SessionChoice::Legacy(Some("c:\\w".into())))
    );
}

#[test]
fn connections_open_with_a_handshake() {
    assert!(matches!(handshake(Opening::Closed, true, true), HandshakeStep::Close));
    assert!(matches!(handshake(Opening::TimedOut, true, true), HandshakeStep::Close));
    assert!(matches!(handshake(Opening::Failed, true, true), HandshakeStep::Fail));
    assert_eq!(
        rejection(handshake(Opening::Message(FirstMessage::Malformed), true, true)),
        "malformed handshake"
    );
    assert_eq!(
        rejection(handshake(Opening::Message(FirstMessage::Other), true, true)),
        "session handshake required"
    );
    assert_eq!(rejection(handshake(hello(Err("bad token".into()), "s", ""), true, true)), "bad token");
    assert_eq!(
        rejection(handshake(hello(Ok(()), "s", ""), true, false)),
        "unknown or expired session id"
    );
    match handshake(hello(Ok(()), "", "C:/Work/"), true, false) {
        HandshakeStep::Accept(choice) => {
            assert_eq!(choice, SessionChoice::Legacy(Some("c:\\work".into())))
        }
        _ => panic!("not accepted"),
    }
}

#[test]
fn sessions_look_below_their_root() {
    let mut scope = SessionScope {
        root: Some("c:\\work".into()),
        has_root_dir: true,
        requires_contained_root: false,
    };
    let map = PathMap::Identity;
    assert!(matches!(access(&scope, &map, "D:\\secret"), Access::Absent));
    assert!(matches!(access(&scope, &map, "C:\\work\\a\\..\\b.h"), Access::Contained(rel) if rel == "b.h"));
    scope.has_root_dir = false;
    assert!(matches!(access(&scope, &map, "C:\\work\\b.h"), Access::Direct(p) if p == "C:\\work\\b.h"));
    scope.requires_contained_root = true;
    assert!(matches!(access(&scope, &map, "C:\\work\\b.h"), Access::Absent));
    let open = SessionScope { root: None, has_root_dir: false, requires_contained_root: false };
    assert!(matches!(access(&open, &map, "D:\\x"), Access::Direct(p) if p == "D:\\x"));
}

#[test]
fn ended_sessions_give_nothing_away() {
    assert_eq!(closed_response(OpCode::StatBatch), Response::Stat(vec![]));
    assert_eq!(closed_response(OpCode::Read), Response::Read(vec![]));
    assert_eq!(closed_response(OpCode::Has), Response::Has(vec![]));
    match closed_response(OpCode::WriteBack) {
        Response::WriteBack(w) => {
            assert!(!w.ok);
            assert_eq!(w.detail, "session is closed");
        }
        _ => panic!("wrong response"),
    }
    match closed_response(OpCode::OpenRead) {
        Response::Open(o) => assert!(!o.exists),
        _ => panic!("wrong response"),
    }
}

#[test]
fn requests_are_decoded_before_they_are_handled() {
    assert!(matches!(dispatch(OpCode::Read, false, true), DispatchStep::Handle));
    match dispatch(OpCode::DirList, false, false) {
        DispatchStep::Fail(f) => {
            assert_eq!(f.kind, FailureKind::InvalidData);
            assert_eq!(f.message, "malformed DirList request");
        }
        _ => panic!("not failed"),
    }
    match dispatch(OpCode::WriteBack, false, false) {
        DispatchStep::Respond(Response::WriteBack(w)) => {
            assert_eq!(w.detail, "malformed WriteBack request")
        }
        _ => panic!("not answered"),
    }
    match dispatch(OpCode::Hello, false, true) {
        DispatchStep::Respond(Response::Hello(h)) => {
            assert!(!h.ok);
            assert_eq!(h.detail, "unexpected handshake after session open");
        }
        _ => panic!("not answered"),
    }
    assert!(matches!(dispatch(OpCode::Read, true, true), DispatchStep::Respond(_)));
}

#[test]
fn stats_tell_what_is_there() {
    let entries = stat_batch(&vec![Some((false, 7)), None, Some((true, 0))]);
    assert_eq!(entries.len(), 3);
    assert!(entries[0].exists && !entries[0].is_dir && entries[0].size == 7);
    assert!(!entries[1].exists && entries[1].size == 0);
    assert!(entries[2].is_dir);
    assert!(entries[0].digest_hex.is_empty());
}

#[test]
fn opening_sends_the_first_bytes_along() {
    let mut stats = ServerStats::default();
    let none = open_read(&mut stats, None, true, None);
    assert!(!none.exists);
    let small = open_read(&mut stats, Some(("d".into(), 3)), true, Some(vec![1, 2, 3]));
    assert_eq!(small.first_chunk, vec![1, 2, 3]);
    assert_eq!(small.digest_hex, "d");
    assert_eq!(small.size, 3);
    assert_eq!(stats.inline_bytes, 3);
    let plain = open_read(&mut stats, Some(("d".into(), 3)), false, Some(vec![1, 2, 3]));
    assert!(plain.first_chunk.is_empty());
    let big = open_read(&mut stats, Some(("d".into(), 0)), true, Some(vec![9; INLINE_CHUNK + 1]));
    assert_eq!(big.first_chunk.len(), INLINE_CHUNK);
    assert_eq!(stats.content_bytes(), 3 + INLINE_CHUNK as u64);
}

#[test]
fn reads_end_with_the_content() {
    let mut stats = ServerStats::default();
    let blob = Some(vec![0, 1, 2, 3, 4]);
    assert_eq!(read_range(&mut stats, true, &blob, 1, 2), vec![1, 2]);
    assert_eq!(read_range(&mut stats, true, &blob, 3, u64::MAX), vec![3, 4]);
    assert!(read_range(&mut stats, true, &blob, 5, 1).is_empty());
    assert_eq!(stats.read_ops, 3);
    assert_eq!(stats.read_bytes, 4);
    assert!(read_range(&mut stats, false, &blob, 0, 5).is_empty());
    assert!(read_range(&mut stats, true, &None, 0, 5).is_empty());
    assert_eq!(stats.read_ops, 3);
    let mut both = read_range(&mut stats, true, &blob, 0, 2);
    both.extend(read_range(&mut stats, true, &blob, 2, 2));
    assert_eq!(both, read_range(&mut stats, true, &blob, 0, 4));
}

#[test]
fn digests_are_told_only_to_sessions_that_may_know() {
    let probe = |parsed, visible, stored| DigestProbe { parsed, visible, stored };
    assert_eq!(
        has(&vec![
            probe(true, true, true),
            probe(true, false, true),
            probe(false, true, true),
            probe(true, true, false),
        ]),
        vec![true, false, false, false]
    );
}

fn entry(name: &str) -> DirEntry {
    DirEntry { rel_path: name.to_string(), is_dir: false, size: 0 }
}

#[test]
fn listings_are_sorted_and_bounded() {
    let mut entries = Vec::new();
    assert_eq!(add_dir_entry(&mut entries, entry("b"), 2), Ok(()));
    assert_eq!(add_dir_entry(&mut entries, entry("a"), 2), Ok(()));
    let listed = dir_list(DirRead::Entries(entries.clone()), true).unwrap();
    assert!(listed.exists);
    assert_eq!(listed.entries, vec![entry("a"), entry("b")]);
    let over = add_dir_entry(&mut entries, entry("c"), 2).unwrap_err();
    assert_eq!(over.message, "DirList entry quota exceeded");
    assert_eq!(over.kind, FailureKind::InvalidData);
    assert_eq!(dir_list(DirRead::TooLarge(over.clone()), false), Err(over.clone()));
    assert_eq!(dir_list(DirRead::Failed(over.clone()), true), Err(over.clone()));
    let gone = dir_list(DirRead::Failed(over), false).unwrap();
    assert!(!gone.exists && gone.entries.is_empty());
}

fn piece(offset: u64, bytes: &[u8], last: bool, digest: &str) -> WriteBackRequest {
    WriteBackRequest {
        output_id: 4,
        offset,
        bytes: bytes.to_vec(),
        last,
        digest_hex: digest.to_string(),
    }
}

#[test]
fn outputs_are_written_back_in_pieces() {
    let spec = Some(OutputSpec {
        id: 4,
        final_path: "c:\\w\\a.obj".into(),
        max_size: 100,
    });
    assert!(matches!(
        write_back(&piece(0, b"ab", false, ""), &spec),
        BeginStep::CreateTemp(p) if p == "c:\\w\\a.obj"
    ));
    assert!(matches!(write_back(&piece(2, b"c", true, ""), &spec), BeginStep::Proceed));
    assert!(matches!(
        write_back(&piece(0, b"", true, ""), &None),
        BeginStep::Respond(r) if r.detail == "unknown output id"
    ));

    let digest = format!("blake3:{}", blake3::hash(b"abc").to_hex());
    let mut outputs = Writebacks::new();
    assert_eq!(outputs.restart(4, 77), None);
    let first = piece(0, b"ab", false, "");
    assert!(matches!(outputs.check_chunk(&first, 100), ChunkStep::Write(77)));
    assert!(matches!(
        outputs.chunk_written(&first, 100, "blake3:"),
        WrittenStep::Respond(r) if r.ok
    ));
    let last = piece(2, b"c", true, &digest);
    assert!(matches!(outputs.check_chunk(&last, 100), ChunkStep::Write(77)));
    assert!(matches!(
        outputs.chunk_written(&last, 100, "blake3:"),
        WrittenStep::Verify(77, d) if d == digest
    ));
    assert!(matches!(after_verification(77, true), VerifiedStep::Stage(77)));
    assert!(after_staging(true).ok);
}

#[test]
fn pieces_that_do_not_fit_are_refused() {
    let mut outputs = Writebacks::new();
    assert!(matches!(
        outputs.check_chunk(&piece(2, b"c", true, ""), 100),
        ChunkStep::Respond(r) if r.detail == "WriteBack chunk arrived without a begin (offset 0)"
    ));
    outputs.restart(4, 1);
    assert_eq!(outputs.restart(4, 2), Some(1));
    assert!(matches!(
        outputs.check_chunk(&piece(5, b"c", true, ""), 100),
        ChunkStep::Respond(r)
            if r.detail == "out-of-order WriteBack chunk: offset 5 but 0 bytes written"
    ));
    assert!(matches!(
        outputs.check_chunk(&piece(0, b"abc", true, ""), 2),
        ChunkStep::Discard(2, r) if r.detail == "output exceeds max size"
    ));
    outputs.restart(4, 3);
    let wrong = piece(0, b"abc", true, "other");
    assert!(matches!(outputs.check_chunk(&wrong, 100), ChunkStep::Write(3)));
    let found = blake3::hash(b"abc").to_hex().to_string();
    assert!(matches!(
        outputs.chunk_written(&wrong, 100, ""),
        WrittenStep::Discard(3, r)
            if r.detail == format!("digest mismatch: declared other, got {found}")
    ));
    assert!(matches!(
        after_verification(3, false),
        VerifiedStep::Discard(3, r) if r.detail == "verify temp failed"
    ));
    assert_eq!(after_staging(false).detail, "session closed during writeback");
}

#[test]
fn staged_files_are_the_ones_that_were_made() {
    let made = FileSnapshot { volume: 1, index: 2, link_count: 1 };
    let mut content = ContentHasher::new();
    content.update(b"ab");
    content.update(b"c");
    let digest = blake3::hash(b"abc").to_hex().to_string();
    let verify = |found, digest: &str| -> Result<(), Failure> {
        verify_root_file_snapshot_and_digest(made, found, &content, "", digest)
    };
    assert_eq!(verify(made, &digest), Ok(()));
    let other = verify(FileSnapshot { index: 3, ..made }, &digest).unwrap_err();
    assert_eq!(other.kind, FailureKind::PermissionDenied);
    assert_eq!(
        other.message,
        "staging temp file identity changed before final writeback verification"
    );
    assert_eq!(
        verify(FileSnapshot { link_count: 2, ..made }, &digest).unwrap_err().message,
        "staging temp hardlink count changed before final writeback verification"
    );
    assert_eq!(
        verify(made, "other").unwrap_err().message,
        "staging temp path no longer contains the verified bytes"
    );
}
