use sembazuru_agent::action_cache::explain::{
    content_read, explain_manifest, explain_miss, input_digest, ExplainStep, InputRead,
    ManifestLookup, ResultLookup,
};
use sembazuru_agent::action_cache::key::{identify_tool, key_environment};
use sembazuru_agent::action_cache::manifest::{
    decode_manifest, encode_manifest, InputEntry, InputKind, InputManifest,
};
use sembazuru_agent::action_cache::publish::{
    after_manifest, after_result, cacheable_outputs, is_under_build_root, predicted_paths,
    usable_manifest, ActionResult, CacheLookup, ManifestStep, OutputFile, PublishEvent,
    PublishPhase, Publishing, ResultStep,
};
use sembazuru_agent::action_cache::record::{
    outputs_to_record, RecordEvent, RecordPhase, Recording,
};
use sembazuru_agent::action_cache::toolchain::{
    effective_root, resolve_program, search_path, stage_sibling, toolchain_digest, EffectiveRoot,
    FileStamp, ToolDigests, TOOL_DIGEST_TTL,
};
use sembazuru_agent::digest::digest_of;
use sembazuru_agent::failure::{Failure, FailureKind};
use sembazuru_agent::filepath::{PathStyle, RootPath};
use sembazuru_agent::intake::tools::ToolchainIdentity;

fn root() -> RootPath {
    RootPath::new(PathStyle::Windows, "c:\\w")
}

fn content(logical: &str, absolute: &str) -> InputEntry {
    InputEntry {
        logical: logical.to_string(),
        absolute: absolute.to_string(),
        kind: InputKind::Content,
    }
}

fn manifest_for(inputs: &[(&str, &str)]) -> InputManifest {
    InputManifest {
        inputs: inputs.iter().map(|(logical, abs)| content(logical, abs)).collect(),
        cmds: vec!["clang-cl /c a.cpp".into()],
        cacheable: true,
    }
}

#[test]
fn cacheable_outputs_declines_when_any_output_is_outside_root() {
    assert_eq!(
        cacheable_outputs(vec!["a.dxil".to_string(), "sub\\b.obj".to_string()]),
        vec!["a.dxil".to_string(), "sub\\b.obj".to_string()]
    );
    assert!(
        cacheable_outputs(vec!["a.dxil".to_string(), "c:\\symbols\\a.pdb".to_string()]).is_empty(),
        "an outside-root output must make the action uncacheable, not partially cached"
    );
    assert!(
        cacheable_outputs(vec!["a.dxil".to_string(), "\\\\srv\\share\\x".to_string()]).is_empty()
    );
    assert!(cacheable_outputs(vec![]).is_empty());
}

#[test]
fn manifest_codec_round_trips() {
    let m = InputManifest {
        inputs: vec![
            content("a.cpp", "c:\\w\\a.cpp"),
            InputEntry {
                logical: "missing.h".into(),
                absolute: "c:\\w\\missing.h".into(),
                kind: InputKind::Absent,
            },
        ],
        cmds: vec!["cc /c a.cpp".into(), "link a.obj".into()],
        cacheable: true,
    };
    assert_eq!(decode_manifest(&encode_manifest(&m)), Some(m));
    let mut bytes =
        encode_manifest(&InputManifest { inputs: vec![], cmds: vec![], cacheable: true });
    bytes.push(0);
    assert_eq!(decode_manifest(&bytes), None);
}

#[test]
fn manifest_codec_rejects_malformed_input_without_panicking() {
    let valid = encode_manifest(&InputManifest {
        inputs: vec![content("a.cpp", "c:\\w\\a.cpp")],
        cmds: vec!["cc /c a.cpp".into()],
        cacheable: true,
    });
    for n in 0..valid.len() {
        assert_eq!(decode_manifest(&valid[..n]), None, "truncated at {n} must miss");
    }
    let mut cases: Vec<Vec<u8>> = vec![
        vec![],
        vec![1],
        vec![1, 0xff, 0xff, 0xff, 0xff],
        vec![0xff; 64],
        vec![1, 1, 0, 0, 0, 0xff, 0xff, 0xff, 0xff],
    ];
    for i in 0..valid.len() {
        let mut b = valid.clone();
        b[i] ^= 0xff;
        cases.push(b);
    }
    for (j, b) in cases.iter().enumerate() {
        if let Some(m) = decode_manifest(b) {
            assert_eq!(
                decode_manifest(&encode_manifest(&m)),
                Some(m),
                "case {j} decoded, so it must round-trip (no half-decode)"
            );
        }
    }
}

#[test]
fn manifests_are_little_endian_and_length_prefixed() {
    let m = InputManifest {
        inputs: vec![content("a", "b\u{e9}")],
        cmds: vec!["c".into()],
        cacheable: true,
    };
    let mut expected = vec![1, 1, 0, 0, 0];
    expected.extend([1, 0, 0, 0, b'a']);
    expected.extend([3, 0, 0, 0, b'b', 0xc3, 0xa9]);
    let bytes = encode_manifest(&m);
    assert_eq!(&bytes[..expected.len()], &expected[..]);
    assert_eq!(&bytes[bytes.len() - 9..], &[1, 0, 0, 0, 1, 0, 0, 0, b'c']);
    let mut broken = bytes.clone();
    broken[15] = 0xff;
    assert_eq!(decode_manifest(&broken), None, "paths are valid text");
}

#[test]
fn unknown_weak_key_misses() {
    assert!(matches!(
        after_manifest(Ok(None)),
        ManifestStep::Finished(Ok(CacheLookup::Miss))
    ));
}

#[test]
fn lookups_go_by_a_whole_manifest() {
    let m = manifest_for(&[("a.cpp", "c:\\w\\a.cpp")]);
    let bytes = encode_manifest(&m);
    match after_manifest(Ok(Some(bytes.clone()))) {
        ManifestStep::HashInputs(found) => assert_eq!(found, m),
        _ => panic!("not usable"),
    }
    assert_eq!(predicted_paths(&Some(bytes.clone())), vec!["a.cpp".to_string()]);
    assert!(predicted_paths(&Some(vec![7])).is_empty());
    assert!(predicted_paths(&None).is_empty());
    let partial = InputManifest { cacheable: false, ..m };
    assert!(usable_manifest(&Some(encode_manifest(&partial))).is_none());
    let failure = Failure::new(FailureKind::Other, "disk");
    assert!(matches!(
        after_manifest(Err(failure.clone())),
        ManifestStep::Finished(Err(f)) if f == failure
    ));
    assert!(matches!(
        after_result(false, Ok(None), &root()),
        ResultStep::Finished(Ok(CacheLookup::Miss))
    ));
    assert!(matches!(
        after_result(true, Ok(None), &root()),
        ResultStep::Finished(Ok(CacheLookup::Miss))
    ));
}

fn result_of(outputs: &[&str], stdout: Option<&str>) -> ActionResult {
    ActionResult {
        exit_code: 3,
        outputs: outputs
            .iter()
            .map(|p| OutputFile { logical_path: p.to_string(), digest: format!("d-{p}") })
            .collect(),
        stdout: stdout.map(|d| d.to_string()),
        stderr: None,
    }
}

#[test]
fn cached_outputs_are_all_staged_before_any_is_published() {
    let mut p = match after_result(true, Ok(Some(result_of(&["a.obj", "b.pdb"], None))), &root()) {
        ResultStep::Publish(p) => p,
        _ => panic!("nothing to publish"),
    };
    assert_eq!(p.next_digest().as_deref(), Some("d-a.obj"));
    assert_eq!(p.next_path().as_deref(), Some("c:\\w\\a.obj"));
    p.resolve(PublishEvent::Blob(vec![1]));
    assert!(matches!(&p.phase, PublishPhase::Stage(b) if *b == vec![1]));
    p.resolve(PublishEvent::Staged("t1".into()));
    assert_eq!(p.next_digest().as_deref(), Some("d-b.pdb"));
    p.resolve(PublishEvent::Blob(vec![2]));
    p.resolve(PublishEvent::Staged("t2".into()));
    assert!(matches!(p.phase, PublishPhase::Commit(0)));
    assert_eq!(p.staged[1], ("t2".to_string(), "c:\\w\\b.pdb".to_string()));
    p.resolve(PublishEvent::Done);
    assert!(matches!(p.phase, PublishPhase::Commit(1)));
    p.resolve(PublishEvent::Done);
    assert!(matches!(
        &p.phase,
        PublishPhase::Finished(Ok(CacheLookup::Hit { exit_code: 3, stdout, stderr }))
            if stdout.is_empty() && stderr.is_empty()
    ));
}

#[test]
fn a_missing_output_misses_without_partial_publish() {
    let mut p = Publishing::new(result_of(&["a.obj", "b.pdb"], None), &root());
    p.resolve(PublishEvent::Blob(vec![1]));
    p.resolve(PublishEvent::Staged("t1".into()));
    p.resolve(PublishEvent::Absent);
    assert!(matches!(p.phase, PublishPhase::Unstage { from: 0, failure: None }));
    p.resolve(PublishEvent::Done);
    assert!(matches!(p.phase, PublishPhase::Finished(Ok(CacheLookup::Miss))));
}

#[test]
fn a_failed_publication_removes_what_was_staged() {
    let mut p = Publishing::new(result_of(&["a.obj", "b.pdb"], None), &root());
    p.resolve(PublishEvent::Blob(vec![1]));
    p.resolve(PublishEvent::Staged("t1".into()));
    p.resolve(PublishEvent::Blob(vec![2]));
    p.resolve(PublishEvent::Staged("t2".into()));
    p.resolve(PublishEvent::Failed(Failure::new(FailureKind::PermissionDenied, "in use")));
    assert!(matches!(p.phase, PublishPhase::Unstage { from: 1, failure: Some(_) }));
    p.resolve(PublishEvent::Done);
    assert!(matches!(&p.phase, PublishPhase::Finished(Err(f)) if f.message == "in use"));
}

#[test]
fn an_evicted_stdout_degrades_to_empty_without_demoting_the_hit() {
    let mut p = Publishing::new(result_of(&[], Some("d-out")), &root());
    assert_eq!(p.next_digest().as_deref(), Some("d-out"));
    p.resolve(PublishEvent::Absent);
    assert!(matches!(
        &p.phase,
        PublishPhase::Finished(Ok(CacheLookup::Hit { stdout, .. })) if stdout.is_empty()
    ));
    let mut q = Publishing::new(result_of(&[], Some("d-out")), &root());
    q.resolve(PublishEvent::Blob(b"hi".to_vec()));
    assert!(matches!(
        &q.phase,
        PublishPhase::Finished(Ok(CacheLookup::Hit { stdout, .. })) if stdout == b"hi"
    ));
}

#[test]
fn outputs_outside_the_root_are_not_published() {
    let p = Publishing::new(result_of(&["..\\evil"], None), &root());
    match &p.phase {
        PublishPhase::Unstage { from: 0, failure: Some(f) } => {
            assert_eq!(f.kind, FailureKind::PermissionDenied);
            assert_eq!(
                f.message,
                "refusing to publish cached output outside the build root: \"..\\\\evil\""
            );
        }
        PublishPhase::Finished(Err(f)) => {
            assert_eq!(f.kind, FailureKind::PermissionDenied);
            assert_eq!(
                f.message,
                "refusing to publish cached output outside the build root: \"..\\\\evil\""
            );
        }
        _ => panic!("not refused"),
    }
    assert!(!is_under_build_root("..\\x"));
    assert!(!is_under_build_root("c:\\x"));
    assert!(is_under_build_root("a\\b"));
}

#[test]
fn results_are_recorded_step_by_step() {
    let m = manifest_for(&[("a.cpp", "c:\\w\\a.cpp")]);
    let mut r = Recording::record(&m, vec!["a.obj".into()], 0, b"out".to_vec(), vec![]);
    assert!(matches!(&r.phase, RecordPhase::PutManifest(b) if *b == encode_manifest(&m)));
    r.next(RecordEvent::Done);
    assert_eq!(r.next_output().as_deref(), Some("a.obj"));
    r.next(RecordEvent::Read(vec![5]));
    assert!(matches!(&r.phase, RecordPhase::PutOutput(b) if *b == vec![5]));
    r.next(RecordEvent::Stored("d1".into()));
    assert!(matches!(r.phase, RecordPhase::HashInputs));
    r.next(RecordEvent::Hashed("h".into()));
    assert!(matches!(r.phase, RecordPhase::PutStdout(_)));
    r.next(RecordEvent::Stored("d2".into()));
    match &r.phase {
        RecordPhase::PutResult(h, result) => {
            assert_eq!(h, "h");
            assert_eq!(result.stdout.as_deref(), Some("d2"));
            assert_eq!(result.stderr, None);
            assert_eq!(
                result.outputs,
                vec![OutputFile { logical_path: "a.obj".into(), digest: "d1".into() }]
            );
        }
        _ => panic!("no result"),
    }
    r.next(RecordEvent::Done);
    assert!(matches!(r.phase, RecordPhase::Finished(Ok(()))));
}

#[test]
fn what_cannot_be_cached_is_not_recorded() {
    let m = manifest_for(&[]);
    let partial = InputManifest { cacheable: false, ..m.clone() };
    let none = Recording::record(&partial, vec!["a.obj".into()], 0, vec![], vec![]);
    assert!(matches!(none.phase, RecordPhase::Finished(Ok(()))));
    let outside = Recording::record(&m, vec!["c:\\a.obj".into()], 0, vec![], vec![]);
    assert!(matches!(
        &outside.phase,
        RecordPhase::Finished(Err(f))
            if f.kind == FailureKind::PermissionDenied
                && f.message
                    == "refusing to cache output outside the build root: \"c:\\\\a.obj\""
    ));
    let mut vanished = Recording::record(&m, vec![], 0, vec![], vec![]);
    vanished.next(RecordEvent::Done);
    vanished.next(RecordEvent::Failed(Failure::new(FailureKind::NotFound, "a.cpp")));
    assert!(matches!(vanished.phase, RecordPhase::Finished(Ok(()))));
    let mut full = Recording::record(&m, vec![], 0, vec![], vec![]);
    full.next(RecordEvent::Failed(Failure::new(FailureKind::Other, "disk full")));
    assert!(matches!(&full.phase, RecordPhase::Finished(Err(f)) if f.message == "disk full"));
}

#[test]
fn misses_are_explained() {
    assert!(matches!(
        explain_miss(ManifestLookup::Absent),
        ExplainStep::Tell(t) if t == "weak MISS: no manifest stored for this weak key"
    ));
    assert!(matches!(
        explain_miss(ManifestLookup::Failed("disk".into())),
        ExplainStep::Tell(t) if t == "weak lookup error: disk"
    ));
    assert!(matches!(
        explain_miss(ManifestLookup::Found(vec![9])),
        ExplainStep::Tell(t) if t == "manifest decode FAILED (corrupt)"
    ));
    let m = InputManifest {
        inputs: vec![
            content("a", "c:\\a"),
            content("b", "c:\\b"),
            InputEntry { logical: "c".into(), absolute: "c:\\c".into(), kind: InputKind::Absent },
        ],
        cmds: vec![],
        cacheable: true,
    };
    let read = |size: u64, digest: &str| InputRead::Content { size, digest: digest.into() };
    let told = explain_manifest(
        &m,
        &vec![Some("d1".into()), Some("d2".into()), None],
        &vec![read(12, "d1"), InputRead::Missing, InputRead::Missing],
        &ResultLookup::Absent,
    );
    assert_eq!(
        told,
        "weak HIT: stored manifest has 3 inputs, cacheable=true\n\
         \x20 [Content] c:\\a = content(12 bytes)\n\
         \x20 [Content] c:\\b = <missing>  <-- CHANGED: was content, now MISSING\n\
         \x20 [Absent] c:\\c = absent\n\
         => strong MISS: 1 input(s) changed since record\n"
    );
    let unknown = explain_manifest(
        &m,
        &vec![None, None, None],
        &vec![read(12, "d1"), read(3, "d2"), read(1, "d3")],
        &ResultLookup::Absent,
    );
    assert_eq!(
        unknown,
        "weak HIT: stored manifest has 3 inputs, cacheable=true\n\
         \x20 [Content] c:\\a = content(12 bytes)\n\
         \x20 [Content] c:\\b = content(3 bytes)\n\
         \x20 [Absent] c:\\c = appeared  <-- CHANGED: was absent, now APPEARED\n\
         => strong MISS: 1 input(s) changed since record\n"
    );
    let uncacheable = InputManifest { cacheable: false, ..m };
    assert_eq!(
        explain_manifest(&uncacheable, &vec![], &vec![], &ResultLookup::Found),
        "weak HIT: stored manifest has 3 inputs, cacheable=false\n=> UNCACHEABLE manifest -> miss\n"
    );
}

#[test]
fn an_edited_input_is_named() {
    let m = InputManifest {
        inputs: vec![content("a", "c:\\a")],
        cmds: vec![],
        cacheable: true,
    };
    let recorded = vec![input_digest(InputKind::Content, &Some(b"before".to_vec()))];
    assert_eq!(recorded, vec![Some(digest_of(b"before"))]);
    assert_eq!(input_digest(InputKind::Absent, &Some(b"before".to_vec())), None);
    assert_eq!(input_digest(InputKind::Content, &None), None);
    assert_eq!(
        explain_manifest(
            &m,
            &recorded,
            &vec![content_read(&b"edited".to_vec())],
            &ResultLookup::Absent
        ),
        "weak HIT: stored manifest has 1 inputs, cacheable=true\n\
         \x20 [Content] c:\\a = content(6 bytes)  <-- CHANGED: content differs from what was recorded\n\
         => strong MISS: 1 input(s) changed since record\n"
    );
    assert_eq!(
        explain_manifest(
            &m,
            &recorded,
            &vec![content_read(&b"before".to_vec())],
            &ResultLookup::Found
        ),
        "weak HIT: stored manifest has 1 inputs, cacheable=true\n\
         \x20 [Content] c:\\a = content(6 bytes)\n\
         => strong HIT (resolve would hit)\n"
    );
}

#[test]
fn bare_unfound_falls_back_to_constant() {
    assert_eq!(toolchain_digest("never-seen", None), digest_of(b"toolchain-name:never-seen"));
}

#[test]
fn digests_are_blake3_in_hexadecimal() {
    assert_eq!(digest_of(b"abc"), blake3::hash(b"abc").to_hex().to_string());
    assert_eq!(toolchain_digest("cl", Some("d".into())), "d");
}

#[test]
fn tools_are_looked_for_along_the_path() {
    let env = vec![("Path".to_string(), "c:\\vs;d:\\t".to_string())];
    let path = search_path(&env);
    assert_eq!(path.as_deref(), Some("c:\\vs;d:\\t"));
    let places = resolve_program("cl", &path, "c:\\w", PathStyle::Windows);
    assert!(places.contains(&"c:\\vs\\cl.exe".to_string()));
    assert!(places.contains(&"d:\\t\\cl.exe".to_string()));
    assert!(resolve_program("cl", &None, "c:\\w", PathStyle::Windows).is_empty());
    let explicit = resolve_program("bin\\cl.exe", &path, "c:\\w", PathStyle::Windows);
    assert_eq!(explicit[0], "c:\\w\\bin\\cl.exe");
}

fn stamp(modified: u128, len: u64) -> FileStamp {
    FileStamp { path: "c:\\vs\\cl.exe".into(), modified, len }
}

#[test]
fn memo_rehashes_after_ttl_so_an_mtime_preserving_change_is_not_permanently_stale() {
    let mut known = ToolDigests::new();
    assert_eq!(known.digest_file_memoized(&stamp(1, 8), 0), None);
    known.keep(stamp(1, 8), digest_of(b"AAAAAAAA"), 0);
    assert_eq!(
        known.digest_file_memoized(&stamp(1, 8), TOOL_DIGEST_TTL - 1),
        Some(digest_of(b"AAAAAAAA")),
        "stale within the TTL (the accepted bounded window)"
    );
    assert_eq!(
        known.digest_file_memoized(&stamp(1, 8), TOOL_DIGEST_TTL),
        None,
        "after the TTL the memo re-hashes"
    );
    known.keep(stamp(1, 8), digest_of(b"BBBBBBBB"), TOOL_DIGEST_TTL);
    assert_eq!(
        known.digest_file_memoized(&stamp(1, 8), TOOL_DIGEST_TTL),
        Some(digest_of(b"BBBBBBBB"))
    );
    assert_eq!(known.digest_file_memoized(&stamp(2, 8), TOOL_DIGEST_TTL), None);
    assert_eq!(known.digest_file_memoized(&stamp(1, 9), TOOL_DIGEST_TTL), None);
}

#[test]
fn roots_are_declared_or_the_working_directory() {
    assert!(matches!(
        effective_root(&Some("C:\\r".into()), "c:\\w"),
        EffectiveRoot::Declared(r) if r == "C:\\r"
    ));
    assert!(matches!(
        effective_root(&Some("  ".into()), "c:\\w"),
        EffectiveRoot::WorkingDirectory(r) if r == "c:\\w"
    ));
    assert!(matches!(
        effective_root(&None, "c:\\w"),
        EffectiveRoot::WorkingDirectory(r) if r == "c:\\w"
    ));
}

#[test]
fn outputs_are_staged_beside_their_final_paths() {
    assert_eq!(
        stage_sibling("c:\\w\\a.obj", 12, 3, PathStyle::Windows),
        Ok(("c:\\w".to_string(), "c:\\w\\.sbz-cache.12.3.a.obj.tmp".to_string()))
    );
    assert_eq!(
        stage_sibling("/w//a.o", 12, 3, PathStyle::Unix),
        Ok(("/w".to_string(), "/w/.sbz-cache.12.3.a.o.tmp".to_string()))
    );
    let none = stage_sibling("c:\\", 12, 3, PathStyle::Windows).unwrap_err();
    assert_eq!(none.kind, FailureKind::InvalidInput);
    assert_eq!(none.message, "output path has no parent");
}

#[test]
fn declared_outputs_are_recorded_first() {
    let (a, b) = (vec!["a.obj".to_string()], vec!["b.obj".to_string()]);
    assert_eq!(outputs_to_record(a.clone(), b.clone()), Some(a));
    assert_eq!(outputs_to_record(vec![], b.clone()), Some(b));
    assert_eq!(outputs_to_record(vec![], vec![]), None);
}

fn kept(store: &mut Vec<(String, Vec<u8>)>, content: &[u8]) -> RecordEvent {
    store.push((digest_of(content), content.to_vec()));
    RecordEvent::Stored(digest_of(content))
}

#[test]
fn recorded_results_are_replayed_byte_for_byte() {
    let contents: Vec<Vec<u8>> = vec![vec![0, 1, 255], b"pdb".to_vec()];
    let m = manifest_for(&[("a.cpp", "c:\\w\\a.cpp")]);
    let mut store: Vec<(String, Vec<u8>)> = Vec::new();
    let names = vec!["a.obj".to_string(), "b.pdb".to_string()];
    let mut r = Recording::record(&m, names, 0, b"out".to_vec(), b"err".to_vec());
    r.next(RecordEvent::Done);
    let mut read = 0;
    let result = loop {
        let event = match &r.phase {
            RecordPhase::PutOutput(b) => kept(&mut store, b),
            RecordPhase::PutStdout(_) => kept(&mut store, b"out"),
            RecordPhase::PutStderr(_, _) => kept(&mut store, b"err"),
            RecordPhase::HashInputs => RecordEvent::Hashed("h".into()),
            RecordPhase::PutResult(_, result) => break result.clone(),
            RecordPhase::Finished(_) => panic!("nothing was recorded"),
            _ => {
                read += 1;
                RecordEvent::Read(contents[read - 1].clone())
            }
        };
        r.next(event);
    };
    let mut p = match after_result(true, Ok(Some(result)), &root()) {
        ResultStep::Publish(p) => p,
        _ => panic!("nothing to publish"),
    };
    let mut placed: Vec<(String, Vec<u8>)> = Vec::new();
    let mut staged: Vec<Vec<u8>> = Vec::new();
    loop {
        let event = match &p.phase {
            PublishPhase::Finished(_) => break,
            PublishPhase::Stage(b) => {
                staged.push(b.clone());
                PublishEvent::Staged(format!("t{}", staged.len()))
            }
            PublishPhase::Commit(i) => {
                placed.push((p.staged[*i].1.clone(), staged[*i].clone()));
                PublishEvent::Done
            }
            _ => {
                let digest = p.next_digest().unwrap();
                let blob = store.iter().find(|(d, _)| *d == digest).unwrap().1.clone();
                PublishEvent::Blob(blob)
            }
        };
        p.resolve(event);
    }
    assert_eq!(
        placed,
        vec![
            ("c:\\w\\a.obj".to_string(), contents[0].clone()),
            ("c:\\w\\b.pdb".to_string(), contents[1].clone()),
        ]
    );
    assert!(matches!(
        &p.phase,
        PublishPhase::Finished(Ok(CacheLookup::Hit { exit_code: 0, stdout, stderr }))
            if stdout == b"out" && stderr == b"err"
    ));
}

#[test]
fn nothing_stored_is_a_miss() {
    assert!(matches!(
        after_result(true, Ok(None), &root()),
        ResultStep::Finished(Ok(CacheLookup::Miss))
    ));
}

#[test]
fn tools_are_known_by_their_content() {
    let found = Some(("c:\\t\\cl.exe".to_string(), "d1".to_string()));
    assert_eq!(
        identify_tool("cl", found),
        ToolchainIdentity::Content { digest: "d1".into(), path: "c:\\t\\cl.exe".into() }
    );
    assert_eq!(
        identify_tool("cl", None),
        ToolchainIdentity::NameOnly { digest: toolchain_digest("cl", None), argv0: "cl".into() }
    );
}

#[test]
fn the_environment_of_a_key_is_in_order() {
    let pair = |k: &str, v: &str| (k.to_string(), v.to_string());
    let env = vec![pair("B", "2"), pair("A", "9"), pair("B", "1"), pair("a", "0")];
    let sorted = vec![pair("A", "9"), pair("B", "1"), pair("B", "2"), pair("a", "0")];
    assert_eq!(key_environment(&env), sorted);
    assert_eq!(key_environment(&sorted), sorted);
}
