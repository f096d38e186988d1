use sembazuru_agent::config::{
    parse_cache_cap, ConfigEnv, DaemonConfig, DEFAULT_COORD, DEFAULT_STATUS,
};
use sembazuru_agent::env_filter::{
    filter_compiler_env, is_compiler_env, passthrough_names, ENV_PASSTHROUGH_VAR,
};

fn no_env() -> ConfigEnv {
    ConfigEnv {
        coord: None,
        intake: None,
        fileserver: None,
        status: None,
        cache_root: None,
        trace_root: None,
        cluster_token: None,
        cache_max_bytes: None,
    }
}

fn env(pairs: &[(&str, &str)]) -> Vec<(String, String)> {
    pairs.iter().map(|(k, v)| (k.to_string(), v.to_string())).collect()
}

fn contains_key(env: &[(String, String)], name: &str) -> bool {
    env.iter().any(|(k, _)| k == name)
}

#[test]
fn defaults_when_file_absent() {
    let cfg = DaemonConfig::load_effective(None, no_env());
    assert_eq!(cfg, DaemonConfig::default());
    assert_eq!(cfg.coord_addr, DEFAULT_COORD);
    assert!(cfg.cache_root.is_none());
    assert!(cfg.cluster_token.is_none());
}

#[test]
fn a_loaded_file_is_taken_as_it_is() {
    let cfg = DaemonConfig {
        coord_addr: "127.0.0.1:6000".into(),
        cache_root: Some("C:\\cache".into()),
        cluster_token: Some("s3cret".into()),
        cache_max_bytes: Some(4096),
        ..DaemonConfig::default()
    };
    assert_eq!(DaemonConfig::load_effective(Some(cfg.clone()), no_env()), cfg);
}

#[test]
fn env_overrides_win_over_file() {
    let file = DaemonConfig {
        coord_addr: "127.0.0.1:1111".into(),
        cache_root: Some("C:\\from-file".into()),
        cluster_token: Some("file-token".into()),
        cache_max_bytes: Some(10),
        ..DaemonConfig::default()
    };
    let cfg = DaemonConfig::load_effective(
        Some(file),
        ConfigEnv {
            coord: Some("127.0.0.1:2222".into()),
            cache_max_bytes: Some("999".into()),
            cluster_token: Some("  pad  ".into()),
            ..no_env()
        },
    );
    assert_eq!(cfg.coord_addr, "127.0.0.1:2222", "env addr wins");
    assert_eq!(cfg.cache_max_bytes, Some(999), "env cap wins");
    assert_eq!(
        cfg.cluster_token.as_deref(),
        Some("  pad  "),
        "the cluster token is taken verbatim (no trim), matching the worker's reader"
    );
    assert_eq!(
        cfg.cache_root.as_deref(),
        Some("C:\\from-file"),
        "a field with no env var keeps the file value"
    );
    assert_eq!(cfg.status_addr, DEFAULT_STATUS);
}

#[test]
fn seed_if_absent_writes_then_preserves() {
    let seed = DaemonConfig::installer_seed();
    let written = seed.seed_if_absent(false).expect("first seed writes the file");
    assert!(written.cluster_token.is_none());
    assert_eq!(*written, DaemonConfig::default());
    assert!(
        DaemonConfig::installer_seed().seed_if_absent(true).is_none(),
        "a second seed is a no-op when the file exists"
    );
}

#[test]
fn empty_env_token_clears_the_file_token() {
    let mut cfg = DaemonConfig { cluster_token: Some("file-token".into()), ..DaemonConfig::default() };
    cfg.apply_env_overrides(ConfigEnv { cluster_token: Some(String::new()), ..no_env() });
    assert!(cfg.cluster_token.is_none());
}

#[test]
fn the_cap_is_a_positive_number() {
    assert_eq!(parse_cache_cap(" 4096 "), Some(4096));
    assert_eq!(parse_cache_cap("+7"), Some(7));
    assert_eq!(parse_cache_cap("0"), None);
    assert_eq!(parse_cache_cap(""), None);
    assert_eq!(parse_cache_cap("many"), None);
    assert_eq!(parse_cache_cap("18446744073709551615"), Some(u64::MAX));
    assert_eq!(parse_cache_cap("18446744073709551616"), None);
}

#[test]
fn overriding_twice_changes_nothing_more() {
    let given = || ConfigEnv {
        intake: Some("127.0.0.1:9".into()),
        trace_root: Some("D:\\t".into()),
        ..no_env()
    };
    let mut once = DaemonConfig::default();
    once.apply_env_overrides(given());
    let mut twice = once.clone();
    twice.apply_env_overrides(given());
    assert_eq!(once, twice);
    assert_eq!(once.intake_addr, "127.0.0.1:9");
    assert_eq!(once.trace_root.as_deref(), Some("D:\\t"));
}

#[test]
fn keeps_toolchain_vars_drops_secrets() {
    let full = env(&[
        ("PATH", "c:\\vs\\bin"),
        ("INCLUDE", "c:\\sdk\\include"),
        ("LIB", "c:\\sdk\\lib"),
        ("VSCMD_ARG_HOST_ARCH", "x64"),
        ("WindowsSdkVerBinPath", "c:\\sdk\\bin\\"),
        ("AWS_SECRET_ACCESS_KEY", "super-secret"),
        ("GITHUB_TOKEN", "ghp_xxx"),
        ("SSH_AUTH_SOCK", "\\\\.\\pipe\\ssh"),
        ("SEMBAZURU_DAEMON", "http://127.0.0.1:50071"),
    ]);
    let kept = filter_compiler_env(&full);
    assert!(contains_key(&kept, "PATH"));
    assert!(contains_key(&kept, "INCLUDE"));
    assert!(contains_key(&kept, "LIB"));
    assert!(contains_key(&kept, "VSCMD_ARG_HOST_ARCH"));
    assert!(contains_key(&kept, "WindowsSdkVerBinPath"));
    assert!(!contains_key(&kept, "AWS_SECRET_ACCESS_KEY"));
    assert!(!contains_key(&kept, "GITHUB_TOKEN"));
    assert!(!contains_key(&kept, "SSH_AUTH_SOCK"));
    assert!(!contains_key(&kept, "SEMBAZURU_DAEMON"));
}

#[test]
fn matching_is_case_insensitive() {
    let full = env(&[("Path", "x"), ("SystemRoot", "c:\\windows")]);
    let kept = filter_compiler_env(&full);
    assert_eq!(kept.len(), 2);
}

#[test]
fn passthrough_adds_named_vars() {
    let full = env(&[
        ("MY_BUILD_FLAG", "1"),
        ("OTHER_SECRET", "no"),
        (ENV_PASSTHROUGH_VAR, "MY_BUILD_FLAG, missing_one"),
    ]);
    let kept = filter_compiler_env(&full);
    assert!(contains_key(&kept, "MY_BUILD_FLAG"), "passthrough name kept");
    assert!(!contains_key(&kept, "OTHER_SECRET"), "non-listed secret dropped");
    assert!(!contains_key(&kept, ENV_PASSTHROUGH_VAR));
}

#[test]
fn filtering_keeps_values_and_is_idempotent() {
    let full = env(&[("INCLUDE", "a;b"), ("HOMEPATH_X", "no")]);
    let kept = filter_compiler_env(&full);
    assert_eq!(kept, env(&[("INCLUDE", "a;b")]));
    assert_eq!(filter_compiler_env(&kept), kept);
}

#[test]
fn passthrough_names_are_trimmed_and_empty_ones_ignored() {
    let full = env(&[("sembazuru_env_passthrough", " one ;two,, three ")]);
    let names = passthrough_names(&full);
    assert_eq!(names, vec!["one ;two".to_string(), "three".to_string()]);
    assert!(is_compiler_env("THREE", &names));
    assert!(!is_compiler_env("FOUR", &names));
    assert!(passthrough_names(&env(&[])).is_empty());
}
