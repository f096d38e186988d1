use sembazuru_agent::command::Command;
use sembazuru_agent::failure::FailureKind;
use sembazuru_agent::launch::batch::{
    confirm_plain_path, make_batch_command_line, plain_batch_path,
};
use sembazuru_agent::launch::environment::{
    encode_environment_block, environment_value, overlay_environment, parse_environment_block,
    validate_environment_entry,
};
use sembazuru_agent::launch::program::{
    check_caller_command, is_batch_file, is_resolvable, prepare_batch_launch,
    prepare_caller_launch, program_not_found, resolve_caller_program, split_search_path, LaunchStep,
};
use sembazuru_agent::launch::quoting::{quote_windows_arg, quote_windows_argv};
use sembazuru_agent::launcher::{
    account_argument, agent_arguments, daemon_mode, declared_outputs, env_flag, infer_outputs,
    replacement_for, response_file, response_root, shim_argv, stabilize_response_files, DaemonMode,
    StablePlan,
};
use sembazuru_agent::filepath::{PathStyle, RootPath};
use sembazuru_agent::utf16::{text_of_utf16, wide_null};

fn root() -> RootPath {
    RootPath::new(PathStyle::Windows, "c:\\root")
}

fn argv(s: &[&str]) -> Vec<String> {
    s.iter().map(|x| x.to_string()).collect()
}

fn vars(s: &[(&str, &str)]) -> Vec<(String, String)> {
    s.iter().map(|(k, v)| (k.to_string(), v.to_string())).collect()
}

#[test]
fn cl_glued_fo_is_inferred() {
    assert_eq!(
        infer_outputs(&argv(&["clang-cl", "/c", "a.cpp", "/Foout\\a.obj"]), PathStyle::Windows),
        vec!["out\\a.obj".to_string()]
    );
    assert_eq!(
        infer_outputs(&argv(&["clang-cl", "/c", "a.cpp"]), PathStyle::Windows),
        vec!["a.obj".to_string()]
    );
}

#[test]
fn dxc_separated_fo_is_left_for_trace_discovery() {
    assert!(
        infer_outputs(
            &argv(&["dxc", "-T", "ps_6_0", "-E", "main", "-Fo", "out.dxil", "tri.hlsl"]),
            PathStyle::Windows
        )
        .is_empty(),
        "a bare -Fo must not be guessed; trace discovery handles it"
    );
    assert_eq!(
        infer_outputs(&argv(&["dxc", "-Foout.dxil", "tri.hlsl"]), PathStyle::Windows),
        vec!["out.dxil".to_string()]
    );
}

#[test]
fn unknown_tool_with_no_recognizable_output_infers_nothing() {
    let args = argv(&["my-tool", "--in", "x", "--out", "y"]);
    assert!(infer_outputs(&args, PathStyle::Windows).is_empty());
}

#[test]
fn a_directory_of_objects_gets_the_name_of_the_source() {
    assert_eq!(
        infer_outputs(&argv(&["cl", "/Foobj\\", "src\\a.cpp"]), PathStyle::Windows),
        vec!["obj\\a.obj".to_string()]
    );
}

#[test]
fn listed_outputs_win() {
    let args = argv(&["cl", "a.cpp"]);
    let declared = |listed: Option<String>| declared_outputs(&listed, &args, PathStyle::Windows);
    assert_eq!(declared(Some(" x.obj ;; y.pdb".into())), argv(&["x.obj", "y.pdb"]));
    assert_eq!(declared(Some(" ; ".into())), argv(&["a.obj"]));
    assert_eq!(declared(None), argv(&["a.obj"]));
}

#[test]
fn flags_are_on_unless_switched_off() {
    assert!(env_flag(&Some("1".into())));
    assert!(env_flag(&Some(" yes ".into())));
    assert!(!env_flag(&Some(" 0 ".into())));
    assert!(!env_flag(&Some("FALSE".into())));
    assert!(!env_flag(&Some("  ".into())));
    assert!(!env_flag(&None));
}

#[test]
fn shims_put_the_compiler_in_front() {
    assert_eq!(shim_argv(argv(&["/c"]), Some("cl".into())), argv(&["cl", "/c"]));
    assert_eq!(shim_argv(argv(&["/c"]), Some("".into())), argv(&["/c"]));
    assert_eq!(shim_argv(argv(&["/c"]), None), argv(&["/c"]));
}

#[test]
fn response_file_arg_is_rewritten_to_a_stable_content_addressed_path() {
    let content = b"/c\na.cpp\nb.cpp\n".to_vec();
    let a = StablePlan::new(&content, &root(), 1);
    let b = StablePlan::new(&content, &root(), 2);
    let digest = blake3::hash(&content).to_hex().to_string();
    assert_eq!(a.stable, format!("c:\\root\\.sembazuru\\sbz-rsp-{digest}.rsp"));
    assert_eq!(a.dir, "c:\\root\\.sembazuru");
    assert_eq!(a.temporary, format!("c:\\root\\.sembazuru\\sbz-rsp-{digest}.1.tmp"));
    let mut argv_a = argv(&["cl", "@c:\\root\\tmpAAAA.rsp"]);
    let mut argv_b = argv(&["cl", "@c:\\root\\tmpBBBB.rsp"]);
    let stable_a = a.verified(&Some(content.clone()));
    let stable_b = b.verified(&Some(content.clone()));
    stabilize_response_files(&mut argv_a, &vec![None, stable_a]);
    stabilize_response_files(&mut argv_b, &vec![None, stable_b]);
    assert_eq!(argv_a[1], argv_b[1], "identical content → identical key arg");
    assert_eq!(argv_a[1], format!("@{}", a.stable));
    assert_eq!(argv_a[0], "cl");
    let unix = StablePlan::new(&content, &RootPath::new(PathStyle::Unix, "/w"), 1);
    assert_eq!(unix.stable, format!("/w/.sembazuru/sbz-rsp-{digest}.rsp"));
    let verbatim = RootPath::new(PathStyle::Windows, "\\\\?\\C:\\w\\");
    assert_eq!(
        StablePlan::new(&content, &verbatim, 1).stable,
        format!("\\\\?\\C:\\w\\.sembazuru\\sbz-rsp-{digest}.rsp")
    );
    let other = StablePlan::new(b"other", &root(), 1);
    assert_ne!(other.stable, a.stable);
}

#[test]
fn an_object_flag_without_its_path_leaves_the_outputs_open() {
    assert_eq!(
        infer_outputs(&argv(&["clang-cl", "/c", "-Fo", "out.obj", "a.cpp"]), PathStyle::Windows),
        Vec::<String>::new()
    );
    assert_eq!(
        infer_outputs(&argv(&["cl", "/c", "a.cpp", "/Fo"]), PathStyle::Windows),
        Vec::<String>::new()
    );
    assert_eq!(
        infer_outputs(&argv(&["cl", "-Fo", "/Fox.obj"]), PathStyle::Windows),
        vec!["x.obj".to_string()]
    );
    assert_eq!(
        infer_outputs(&argv(&["cl", "/Foobj\\", "a.cpp", "-Fo"]), PathStyle::Windows),
        vec!["obj\\a.obj".to_string()]
    );
}

#[test]
fn response_files_are_replaced_only_by_their_own_content() {
    let x = Some(b"/c a.cpp".to_vec());
    let y = Some(b"/c b.cpp".to_vec());
    let for_x = replacement_for(&x, &x, &root());
    assert_eq!(
        for_x,
        Some(StablePlan::new(b"/c a.cpp", &root(), 3).stable)
    );
    assert_ne!(for_x, replacement_for(&y, &y, &root()));
    assert_eq!(replacement_for(&x, &y, &root()), None);
    assert_eq!(replacement_for(&x, &None, &root()), None);
    assert_eq!(replacement_for(&None, &x, &root()), None);
    let mut args = argv(&["cl", "@gone.rsp"]);
    stabilize_response_files(&mut args, &vec![None, replacement_for(&None, &x, &root())]);
    assert_eq!(args, argv(&["cl", "@gone.rsp"]));
}

#[test]
fn stable_files_are_checked_by_content() {
    let plan = StablePlan::new(b"x", &root(), 1);
    assert!(plan.is_kept(true, &Some(b"x".to_vec())));
    assert!(!plan.is_kept(false, &Some(b"x".to_vec())));
    assert!(!plan.is_kept(true, &Some(b"y".to_vec())));
    assert!(!plan.is_kept(true, &None));
    assert_eq!(plan.verified(&Some(b"y".to_vec())), None);
    assert_eq!(response_file("@a.rsp").as_deref(), Some("a.rsp"));
    assert_eq!(response_file("@"), None);
    assert_eq!(response_file("a.rsp"), None);
    assert_eq!(response_root("", "c:\\w"), "c:\\w");
    assert_eq!(response_root("c:\\r", "c:\\w"), "c:\\r");
    let mut kept = argv(&["@a.rsp"]);
    stabilize_response_files(&mut kept, &vec![None]);
    assert_eq!(kept, argv(&["@a.rsp"]));
}

#[test]
fn command_lines_are_read() {
    assert_eq!(
        agent_arguments(&argv(&["http://w", "--", "cl", "--", "a"])),
        Some(("http://w".to_string(), argv(&["cl", "--", "a"])))
    );
    assert_eq!(agent_arguments(&argv(&["--", "cl"])), None);
    assert_eq!(agent_arguments(&argv(&["http://w", "--"])), None);
    assert_eq!(agent_arguments(&argv(&["http://w", "cl"])), None);
    assert_eq!(daemon_mode(&argv(&["d", "install"])), DaemonMode::Install);
    assert_eq!(daemon_mode(&argv(&["d", "uninstall"])), DaemonMode::Uninstall);
    assert_eq!(daemon_mode(&argv(&["d", "--service"])), DaemonMode::Service);
    assert_eq!(daemon_mode(&argv(&["d", "seed-config"])), DaemonMode::SeedConfig);
    assert_eq!(daemon_mode(&argv(&["d"])), DaemonMode::Foreground);
    assert_eq!(
        account_argument(&argv(&["d", "install", "--account", "NT\\x"])).as_deref(),
        Some("NT\\x")
    );
    assert_eq!(account_argument(&argv(&["d", "--account"])), None);
}

#[test]
fn caller_launch_quotes_windows_argv_and_overlays_environment() {
    let base = vars(&[("Path", r"C:\caller\bin"), ("KEEP", "base"), ("replace", "old")]);
    let overlay = vars(&[("PATH", r"C:\override\bin"), ("REPLACE", "new"), ("Unicode", "鶴")]);

    let merged = overlay_environment(base, &overlay).unwrap();
    assert_eq!(
        merged.iter().find(|(key, _)| key.eq_ignore_ascii_case("path")).unwrap().1,
        r"C:\override\bin"
    );
    assert_eq!(
        merged.iter().filter(|(key, _)| key.eq_ignore_ascii_case("replace")).count(),
        1
    );
    assert_eq!(
        merged.iter().find(|(key, _)| key.eq_ignore_ascii_case("replace")).unwrap().1,
        "new"
    );
    assert_eq!(
        quote_windows_argv(&vec![
            r"C:\space dir\tool.exe".into(),
            "".into(),
            r#"a\"b"#.into(),
            r"ends\\".into(),
            "鶴".into(),
        ]),
        r#""C:\space dir\tool.exe" "" "a\\\"b" ends\\ 鶴"#
    );
}

#[test]
fn quoted_arguments_keep_their_backslashes() {
    assert_eq!(quote_windows_arg("plain"), "plain");
    assert_eq!(quote_windows_arg(""), "\"\"");
    assert_eq!(quote_windows_arg("a b\\"), "\"a b\\\\\"");
    assert_eq!(quote_windows_arg("\""), "\"\\\"\"");
}

#[test]
fn environments_are_sorted_and_valid() {
    let merged =
        overlay_environment(vars(&[("b", "1"), ("A", "2")]), &vars(&[("c", "3")])).unwrap();
    assert_eq!(merged, vars(&[("A", "2"), ("b", "1"), ("c", "3")]));
    assert_eq!(environment_value(&merged, "B").as_deref(), Some("1"));
    assert_eq!(environment_value(&merged, "d"), None);
    let bad = overlay_environment(vec![], &vars(&[("a=b", "1")])).unwrap_err();
    assert_eq!(bad.kind, FailureKind::InvalidInput);
    assert_eq!(bad.message, "environment key contains '=': a=b");
    assert!(validate_environment_entry("=C:", "C:\\x").is_ok());
    assert!(validate_environment_entry("", "x").is_err());
    assert!(validate_environment_entry("a", "x\0y").is_err());
}

#[test]
fn environment_blocks_round_trip() {
    let env = vars(&[("=C:", "C:\\x"), ("A", "1"), ("U", "鶴")]);
    let block = encode_environment_block(&env).unwrap();
    assert_eq!(&block[..7], &wide_null("=C:=C:\\x")[..7]);
    assert_eq!(&block[block.len() - 2..], &[0, 0]);
    assert_eq!(parse_environment_block(&block).unwrap(), env);
    assert_eq!(encode_environment_block(&vec![]).unwrap(), vec![0, 0]);
    assert!(encode_environment_block(&vars(&[("a\0", "1")])).is_err());
    assert!(parse_environment_block(&[0xd800, 0x3d, 0, 0]).is_err());
}

#[test]
fn texts_are_utf16() {
    assert_eq!(wide_null("a鶴"), vec![0x61, 0x9db4, 0]);
    assert_eq!(wide_null("\u{1f600}"), vec![0xd83d, 0xde00, 0]);
    assert_eq!(text_of_utf16(&[0x61, 0xd83d, 0xde00]).as_deref(), Some("a\u{1f600}"));
    assert_eq!(text_of_utf16(&[0xd83d]), None);
}

fn command(args: &[&str], cwd: &str) -> Command {
    Command { argv: argv(args), env: vec![], cwd: cwd.to_string() }
}

#[test]
fn caller_bare_program_resolves_only_from_caller_path() {
    let environment = vars(&[("Path", "C:\\path")]);
    assert_eq!(
        resolve_caller_program("same-name.exe", "C:\\cwd", &environment).unwrap(),
        argv(&["C:\\path\\same-name.exe"])
    );
    assert!(resolve_caller_program("same-name.exe", "C:\\cwd", &vec![]).unwrap().is_empty());
}

#[test]
fn caller_path_search_ignores_empty_entries_and_cwd_impostor() {
    let environment = vars(&[("Path", ";C:\\path;;")]);
    assert_eq!(
        resolve_caller_program("cl", "C:\\cwd", &environment).unwrap(),
        argv(&["C:\\path\\cl.exe"])
    );
    assert_eq!(split_search_path("\"a;b\";c"), argv(&["a;b", "c"]));
}

#[test]
fn caller_extensionless_program_never_resolves_plain_file() {
    let environment = vars(&[("Path", "C:\\path")]);
    assert_eq!(
        resolve_caller_program("bare", "C:\\cwd", &environment).unwrap(),
        argv(&["C:\\path\\bare.exe"])
    );
    assert!(is_resolvable(r".\explicit", "C:\\cwd"));
    let places = resolve_caller_program(r".\explicit", "C:\\cwd", &vec![]).unwrap();
    assert_eq!(places.len(), 1);
    assert!(places[0].ends_with("explicit.exe"));
    assert_eq!(
        resolve_caller_program("..\\t\\x", "\\\\?\\C:\\cwd", &vec![]).unwrap(),
        argv(&["\\\\?\\C:\\t\\x.exe"])
    );
    assert!(is_batch_file("\\\\?\\C:\\t\\x.cmd"));
    assert_eq!(program_not_found("bare").kind, FailureKind::NotFound);
    assert_eq!(
        program_not_found("bare").message,
        "caller program was not found using caller cwd/PATH: bare"
    );
    assert!(!is_resolvable("..", "C:\\cwd"));
}

#[test]
fn caller_normal_launch_rejects_embedded_nul() {
    let nul = check_caller_command(&command(&["x.exe", "before\0after"], "C:\\cwd"), true);
    assert_eq!(nul.unwrap_err().kind, FailureKind::InvalidInput);
    assert_eq!(
        resolve_caller_program("a\0b", "C:\\cwd", &vec![]).unwrap_err().message,
        "command argv[0] must be a nonempty NUL-free string"
    );
    let told = |c: Command, dir: bool| check_caller_command(&c, dir).unwrap_err().message;
    assert_eq!(told(command(&[], "C:\\cwd"), true), "command.argv is empty");
    assert_eq!(
        told(command(&["x"], ""), true),
        "authenticated caller command requires a nonempty NUL-free cwd"
    );
    assert_eq!(
        told(command(&["x"], "C:\\cwd"), false),
        "authenticated caller cwd is not an absolute directory: C:\\cwd"
    );
    assert!(check_caller_command(&command(&["x"], "C:\\cwd"), true).is_ok());
}

#[test]
fn caller_batch_command_line_matches_rust_std_golden() {
    let script = r"C:\test.cmd";
    let prefix = r#"cmd.exe /e:ON /v:OFF /d /c ""C:\test.cmd" "#;
    let line = |args: &[&str]| make_batch_command_line(script, &argv(args));
    assert_eq!(line(&[]).unwrap(), r#"cmd.exe /e:ON /v:OFF /d /c ""C:\test.cmd"""#);
    assert_eq!(line(&[""]).unwrap(), format!("{prefix}\"\"\""));
    assert_eq!(line(&["a&b"]).unwrap(), format!("{prefix}\"a&b\"\""));
    assert_eq!(line(&["%PATH%"]).unwrap(), format!("{prefix}\"%%cd:~,%PATH%%cd:~,%\"\""));
    assert_eq!(line(&["a\"b"]).unwrap(), format!("{prefix}\"a\"\"b\"\""));
    assert_eq!(line(&["ends\\"]).unwrap(), format!("{prefix}\"ends\\\\\"\""));
    for invalid in ["line\rbreak", "line\nbreak", "nul\0inside"] {
        assert_eq!(line(&[invalid]).unwrap_err().kind, FailureKind::InvalidInput);
    }
    let long_nonverbatim = format!(r"C:\{}\test.cmd", "a".repeat(270));
    assert!(make_batch_command_line(&long_nonverbatim, &vec![]).is_ok());
    let long_verbatim = format!(r"\\?\C:\{}\test.cmd", "a".repeat(270));
    assert_eq!(
        make_batch_command_line(&long_verbatim, &vec![]).unwrap_err().kind,
        FailureKind::InvalidInput
    );
}

#[test]
fn verbatim_batch_paths_have_a_plain_form() {
    assert_eq!(plain_batch_path(r"\\?\C:\a.cmd").as_deref(), Some(r"C:\a.cmd"));
    assert_eq!(plain_batch_path(r"\\?\UNC\s\h\a.cmd").as_deref(), Some(r"\\s\h\a.cmd"));
    assert_eq!(plain_batch_path(r"C:\a.cmd"), None);
    assert_eq!(plain_batch_path(&format!(r"\\?\C:\{}.cmd", "a".repeat(300))), None);
    assert_eq!(confirm_plain_path("C:\\a", "C:\\a").as_deref(), Ok("C:\\a"));
    let refused = confirm_plain_path("C:\\a.", "C:\\a").unwrap_err();
    assert_eq!(refused.message, "batch path cannot be safely converted from verbatim form");
}

#[test]
fn programs_and_batch_files_are_launched_differently() {
    let c = command(&["tool", "a b"], "C:\\cwd");
    match prepare_caller_launch(&c, "C:\\t\\tool.exe", vec![]).unwrap() {
        LaunchStep::Start(launch) => {
            assert_eq!(launch.application, "C:\\t\\tool.exe");
            assert_eq!(launch.command_line, "C:\\t\\tool.exe \"a b\"");
            assert_eq!(launch.cwd, "C:\\cwd");
            assert!(launch.environment.is_empty());
        }
        LaunchStep::FindInterpreter(_) => panic!("not a batch file"),
    }
    assert!(is_batch_file("C:\\t\\x.CMD"));
    assert!(is_batch_file("x.bat"));
    assert!(!is_batch_file("x.exe"));
    match prepare_caller_launch(&c, "C:\\t\\x.cmd", vars(&[("comspec", "C:\\cmd.exe")])).unwrap() {
        LaunchStep::FindInterpreter(program) => assert_eq!(program, "C:\\cmd.exe"),
        LaunchStep::Start(_) => panic!("a batch file"),
    }
    match prepare_caller_launch(&c, "C:\\t\\x.cmd", vec![]) {
        Err(f) => {
            assert_eq!(f.kind, FailureKind::NotFound);
            assert_eq!(f.message, "caller environment has no ComSpec for batch execution");
        }
        Ok(_) => panic!("no interpreter"),
    }
    let launch = prepare_batch_launch(&c, "C:\\t\\x.cmd", "C:\\cmd.exe", vec![]).unwrap();
    assert_eq!(launch.application, "C:\\cmd.exe");
    assert_eq!(
        launch.command_line,
        r#"cmd.exe /e:ON /v:OFF /d /c ""C:\t\x.cmd" "a b"""#
    );
}
