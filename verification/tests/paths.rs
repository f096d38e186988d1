use std::path::{Path, MAIN_SEPARATOR};

use sembazuru_agent::filepath::{
    base_name, extension_of, file_name_of, has_extension, is_absolute_path, join_path, parent_of,
    stem_of, PathStyle, RootPath,
};
use sembazuru_agent::fileserver::paths::{
    fold_path, is_ambiguous_windows_component, is_short_name_alias_component,
    normalize_declared_output, normalize_prefetch_path, normalize_requested, normalize_root,
    path_in_scope, root_relative_path, PathMap,
};

#[test]
fn remap_redirects_under_logical_root() {
    let map = PathMap::Remap {
        logical_root: "c:\\virtual\\proj".to_string(),
        backing_root: RootPath::new(PathStyle::Windows, "d:\\backing"),
    };
    assert_eq!(map.resolve("c:\\virtual\\proj\\src\\a.cpp"), "d:\\backing\\src\\a.cpp");
    assert_eq!(map.resolve("c:\\other\\b.h"), "c:\\other\\b.h");
    assert_eq!(map.resolve("c:\\virtual\\projector\\x"), "c:\\virtual\\projector\\x");
    let unix = PathMap::remap("C:/Virtual/Proj", RootPath::new(PathStyle::Unix, "/backing"));
    assert_eq!(unix.resolve("C:\\virtual\\proj\\A.cpp"), "/backing/a.cpp");
}

#[test]
fn identity_passes_paths_through() {
    assert_eq!(PathMap::Identity.resolve("c:\\x\\y.h"), "c:\\x\\y.h");
}

#[test]
fn normalize_root_lowercases_and_strips_trailing_sep() {
    assert_eq!(normalize_root(""), None);
    assert_eq!(normalize_root("\\"), None);
    assert_eq!(normalize_root("C:\\Work\\Proj\\"), Some("c:\\work\\proj".to_string()));
    assert_eq!(normalize_root("C:/Work/Proj"), Some("c:\\work\\proj".to_string()));
}

#[test]
fn path_in_scope_enforces_root_with_a_boundary() {
    let root = normalize_root("C:\\work\\proj");
    let root = root.as_deref();
    assert!(path_in_scope("C:\\work\\proj", root));
    assert!(path_in_scope("C:\\work\\proj\\src\\a.cpp", root));
    assert!(path_in_scope("c:/WORK/proj/inc/h.h", root));
    assert!(!path_in_scope("C:\\work\\project\\x", root));
    assert!(!path_in_scope("C:\\windows\\system32\\drivers\\etc\\hosts", root));
    assert!(!path_in_scope("C:\\users\\dev\\.ssh\\id_rsa", root));
    assert!(path_in_scope("C:\\anything\\at\\all", None));
}

#[test]
fn path_in_scope_blocks_dotdot_traversal() {
    let root = normalize_root("C:\\work\\proj");
    let root = root.as_deref();
    assert!(!path_in_scope("C:\\work\\proj\\..\\..\\users\\dev\\.ssh\\id_rsa", root));
    assert!(!path_in_scope("C:\\work\\proj\\..\\secret.txt", root));
    assert!(!path_in_scope("c:/work/proj/../../etc/hosts", root));
    assert!(path_in_scope("C:\\work\\proj\\src\\..\\inc\\h.h", root));
    assert!(path_in_scope("C:\\work\\proj\\.\\a.cpp", root));
}

#[test]
fn normalize_requested_rejects_non_absolute_and_escaping_forms() {
    assert_eq!(normalize_requested("c:foo\\bar"), None);
    assert_eq!(normalize_requested("\\\\host\\share\\x"), None);
    assert_eq!(normalize_requested("\\\\?\\c:\\work\\x"), None);
    assert_eq!(normalize_requested("relative\\path"), None);
    assert_eq!(normalize_requested("c:\\..\\x"), None);
    assert_eq!(
        normalize_requested("C:\\work\\.\\proj\\sub\\..\\a.cpp"),
        Some("c:\\work\\proj\\a.cpp".to_string())
    );
    let root = normalize_root("C:\\work\\proj");
    let root = root.as_deref();
    assert!(!path_in_scope("c:foo", root));
    assert!(!path_in_scope("\\\\host\\share\\work\\proj\\x", root));
    assert!(!path_in_scope("\\\\?\\c:\\work\\proj\\x", root));
}

#[test]
fn path_corpus_normalize_requested_rejects_ambiguous_windows_forms() {
    for requested in [
        "C:\\work\\proj\\out.obj:ads",
        "\\\\?\\C:\\work\\proj\\out.obj",
        "\\??\\C:\\work\\proj\\out.obj",
        "\\\\server\\share\\proj\\out.obj",
        "C:work\\proj\\out.obj",
        "\\work\\proj\\out.obj",
        "C:\\work\\proj\\out.",
        "C:\\work\\proj\\out ",
        "C:\\work\\proj\\con",
        "C:\\work\\proj\\nul.txt",
        "C:\\work\\proj\\com1.obj",
        "C:\\work\\proj\\lpt9.log",
        "C:\\work\\proj\\PROGRA~1\\tool.exe",
        "C:\\work\\proj\\LONGFI~12.TXT",
    ] {
        assert_eq!(normalize_requested(requested), None, "{requested:?} must fail closed");
    }

    assert_eq!(
        normalize_requested("C:\\work\\proj\\obj\\file~backup.obj"),
        Some("c:\\work\\proj\\obj\\file~backup.obj".to_string())
    );
}

#[test]
fn path_corpus_scope_allows_short_name_component_in_declared_root_prefix_only() {
    for user in ["<user>", "KINGKA~1"] {
        let declared = format!("C:\\Users\\{user}\\AppData\\Local\\Temp\\sbz-dp-x");
        let root = normalize_root(&declared).expect("root");
        let root = root.as_str();

        assert!(
            path_in_scope(&format!("{declared}\\src\\in.h"), Some(root)),
            "a short-name component inherited from the declared root prefix must not break supply"
        );
        assert_eq!(
            root_relative_path(&format!("{declared}\\src\\in.h"), root),
            Some("src\\in.h".to_string())
        );
        assert!(
            !path_in_scope(&format!("{declared}\\PROGRA~1\\tool.exe"), Some(root)),
            "a short-name component in the root-relative suffix must still fail closed"
        );
        assert_eq!(root_relative_path(&format!("{declared}\\PROGRA~1\\tool.exe"), root), None);
    }
}

#[test]
fn path_corpus_declared_output_normalization_allows_short_alias_root_prefix_only() {
    let root =
        normalize_root("C:\\Users\\KINGKA~1\\AppData\\Local\\Temp\\sbz-dp-root").expect("root");

    assert_eq!(
        normalize_declared_output(
            "C:\\Users\\KINGKA~1\\AppData\\Local\\Temp\\sbz-dp-root\\obj\\out.obj",
            Some(&root)
        ),
        Some("c:\\users\\kingka~1\\appdata\\local\\temp\\sbz-dp-root\\obj\\out.obj".to_string())
    );
    assert_eq!(
        normalize_declared_output(
            "C:\\Users\\KINGKA~1\\AppData\\Local\\Temp\\sbz-dp-root\\PROGRA~1\\tool.obj",
            Some(&root)
        ),
        None
    );
    assert_eq!(
        normalize_declared_output(
            "C:\\Users\\KINGKA~1\\AppData\\Local\\Temp\\outside\\obj\\out.obj",
            Some(&root)
        ),
        None
    );

    for rejected in [
        "C:\\Users\\KINGKA~1\\AppData\\Local\\Temp\\sbz-dp-root\\obj\\out.obj:ads",
        "C:\\Users\\KINGKA~1\\AppData\\Local\\Temp\\sbz-dp-root\\NUL.txt",
        "C:\\Users\\KINGKA~1\\AppData\\Local\\Temp\\sbz-dp-root\\obj\\bad.",
        "\\\\host\\share\\obj\\out.obj",
        "C:obj\\out.obj",
        "C:\\Users\\KINGKA~1\\AppData\\Local\\Temp\\sbz-dp-root\\..\\outside\\out.obj",
    ] {
        assert_eq!(normalize_declared_output(rejected, Some(&root)), None);
    }

    assert_eq!(
        normalize_declared_output(
            "C:\\Users\\KINGKA~1\\AppData\\Local\\Temp\\sbz-dp-root\\obj\\out.obj",
            None
        ),
        None
    );
}

#[test]
fn outputs_and_inputs_have_one_normal_form() {
    let root = normalize_root("C:\\w").unwrap();
    let path = "C:/W/Obj/./a.obj";
    assert_eq!(normalize_declared_output(path, Some(&root)), Some("c:\\w\\obj\\a.obj".into()));
    assert_eq!(normalize_prefetch_path(path, Some(&root)), Some("c:\\w\\obj\\a.obj".into()));
    let twice = normalize_requested(&normalize_requested(path).unwrap());
    assert_eq!(twice, normalize_requested(path));
}

#[test]
fn folding_lowercases_every_letter() {
    assert_eq!(fold_path("C:/\u{c4}pfel/X"), "c:\\\u{e4}pfel\\x");
    assert_eq!(fold_path("\u{130}"), "i\u{307}");
    assert_eq!(normalize_root("D:/\u{c4}/"), Some("d:\\\u{e4}".to_string()));
}

#[test]
fn names_of_devices_are_ambiguous() {
    assert!(is_ambiguous_windows_component("aux"));
    assert!(is_ambiguous_windows_component("prn.h"));
    assert!(is_ambiguous_windows_component("trailing "));
    assert!(!is_ambiguous_windows_component("console"));
    assert!(!is_ambiguous_windows_component("com10"));
    assert!(is_short_name_alias_component("progra~1"));
    assert!(is_short_name_alias_component("longfi~12.txt"));
    assert!(!is_short_name_alias_component("file~backup.obj"));
}

#[test]
fn paths_join_and_end_in_names() {
    let join = |base: &str, tail: &str| join_path(PathStyle::Windows, base, tail);
    let name = |path: &str| file_name_of(PathStyle::Windows, path);
    let absolute = |path: &str| is_absolute_path(PathStyle::Windows, path);
    assert_eq!(join("C:\\a", "b"), "C:\\a\\b");
    assert_eq!(join("C:\\a", "D:\\b"), "D:\\b");
    assert_eq!(join("C:\\a", "\\b"), "C:\\b");
    assert_eq!(join("C:", "b"), "C:b");
    assert_eq!(join("C:\\a\\", "..\\b"), "C:\\a\\..\\b");
    assert_eq!(join("\\\\server\\share\\a", "\\b"), "\\\\server\\share\\b");
    assert_eq!(join("C:\\a", "\\\\server\\share\\b"), "\\\\server\\share\\b");
    assert_eq!(join("C:\\a", "\\\\server"), "C:\\\\server");
    assert_eq!(base_name("C:\\a\\b.c"), "b.c");
    assert_eq!(name("C:\\a\\b.c").as_deref(), Some("b.c"));
    assert_eq!(name("C:\\a\\b\\.\\").as_deref(), Some("b"));
    assert_eq!(name("C:\\"), None);
    assert_eq!(name("C:\\a\\.."), None);
    assert_eq!(name("\\\\server\\share"), None);
    assert_eq!(extension_of("b.tar.gz").as_deref(), Some("gz"));
    assert_eq!(extension_of(".hidden"), None);
    assert_eq!(stem_of("b.tar.gz"), "b.tar");
    assert!(has_extension("A.CPP", "cpp"));
    assert!(absolute("C:\\x"));
    assert!(absolute("\\\\server\\share"));
    assert!(absolute("\\\\?\\C:\\x"));
    assert!(!absolute("C:x"));
    assert!(!absolute("\\x"));
    assert!(!absolute("\\\\server"));
}

#[test]
fn steps_are_taken_from_a_verbatim_path() {
    let join = |base: &str, tail: &str| join_path(PathStyle::Windows, base, tail);
    assert_eq!(join("\\\\?\\C:\\a", "..\\b"), "\\\\?\\C:\\b");
    assert_eq!(join("\\\\?\\C:\\a", ".\\b/c"), "\\\\?\\C:\\a\\b\\c");
    assert_eq!(join("\\\\?\\C:\\", "..\\b"), "\\\\?\\C:\\b");
    assert_eq!(join("\\\\?\\C:", "b"), "\\\\?\\C:\\b");
    assert_eq!(join("\\\\?\\C:\\a\\b", "\\c"), "\\\\?\\C:\\c");
    assert_eq!(join("\\\\?\\C:\\a", "D:\\b"), "D:\\b");
    assert_eq!(join("\\\\?\\UNC\\server\\share\\a", "\\b"), "\\\\?\\UNC\\server\\share\\b");
    assert_eq!(join("\\\\?\\UNC\\server\\share", "..\\b"), "\\\\?\\UNC\\server\\share\\b");
    assert_eq!(
        file_name_of(PathStyle::Windows, "\\\\?\\C:\\a\\b/c.cmd").as_deref(),
        Some("b/c.cmd")
    );
    assert_eq!(
        parent_of(PathStyle::Windows, "\\\\?\\C:\\a\\b").as_deref(),
        Some("\\\\?\\C:\\a")
    );
    assert_eq!(parent_of(PathStyle::Windows, "\\\\?\\C:\\"), None);
}

#[test]
fn the_paths_of_this_machine_are_those_of_the_standard_library() {
    let style = if MAIN_SEPARATOR == '\\' { PathStyle::Windows } else { PathStyle::Unix };
    let paths = [
        "", ".", "..", "/", "//", "/.", "./", "./.", "a", "a/", "a/.", "a/..", "/a", "/a/b", "/./b",
        "./b", "././b", ".//b", "a//b", "a/./b", "a/b/./", "a\\b", "C:", "C:a", "C:\\a", "\\a",
        ".hidden", "a.tar.gz", "//server/share/a", "\\\\?\\C:\\a\\.\\b", "\\\\?\\C:/a", "../..",
    ];
    for base in paths {
        let path = Path::new(base);
        let name = path.file_name().map(|n| n.to_str().unwrap());
        assert_eq!(file_name_of(style, base).as_deref(), name, "name of {base}");
        let parent = path.parent().map(|p| p.to_str().unwrap());
        assert_eq!(parent_of(style, base).as_deref(), parent, "parent of {base}");
        assert_eq!(is_absolute_path(style, base), path.is_absolute(), "{base}");
        for tail in paths {
            let whole = path.join(tail);
            assert_eq!(join_path(style, base, tail), whole.to_str().unwrap(), "{base} + {tail}");
        }
    }
}

#[test]
fn case_and_separators_do_not_matter() {
    let plain = normalize_requested("c:\\w\\src\\a.cpp").unwrap();
    assert_eq!(plain, "c:\\w\\src\\a.cpp");
    assert_eq!(normalize_requested("C:/W/Src\\A.CPP"), Some(plain.clone()));
    assert_eq!(normalize_requested(&plain), Some(plain));
}
