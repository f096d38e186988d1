//! The compiler launcher: what it makes of a command line and its environment.

use crate::digest::{digest_of, digest_text};
use crate::filepath::{
    before_name, body_start, file_name, file_name_of, is_plain_name, is_sep, join_path,
    law_extensions_stand_behind_the_last_dot, law_paths_end_with_the_name, law_plain_names_stay,
    path_join, separates, stem, stem_of, PathStyle, RootModel, RootPath,
};
use crate::fileserver::paths::opt_text;
use crate::text::{
    chars_of, decimal, decimal_of, ends_with, list_of, lower, same_ignoring_case, same_text,
    split_list, starts_with, string_of, texts, to_lower, trim, trimmed,
};
use vstd::prelude::*;

verus! {

/// The variable that lists the outputs of an action.
pub const OUTPUTS_VAR: &'static str = "SEMBAZURU_OUTPUTS";

/// The variable that names the compiler where the launcher stands in for it.
pub const SHIM_VAR: &'static str = "SEMBAZURU_SHIM_CC";

/// The variable that names the endpoint of the daemon.
pub const DAEMON_VAR: &'static str = "SEMBAZURU_DAEMON";

pub const DEFAULT_DAEMON: &'static str = "http://127.0.0.1:50071";

/// `s` without the colons at its front.
pub open spec fn skip_colons(s: Seq<char>) -> Seq<char>
    decreases s.len(),
{
    if s.len() > 0 && s[0] == ':' {
        skip_colons(s.drop_first())
    } else {
        s
    }
}

pub open spec fn has_prefix(s: Seq<char>, p: Seq<char>) -> bool {
    p.len() <= s.len() && s.take(p.len() as int) == p
}

pub open spec fn has_suffix(s: Seq<char>, p: Seq<char>) -> bool {
    p.len() <= s.len() && s.skip(s.len() - p.len()) == p
}

/// Whether an argument says where the object goes.
pub open spec fn is_object_flag(a: Seq<char>) -> bool {
    has_prefix(a, "/Fo"@) || has_prefix(a, "-Fo"@)
}

/// What an argument says of where the object goes.
pub open spec fn object_flag(a: Seq<char>) -> Seq<char> {
    skip_colons(a.skip(3))
}

/// Whether an argument names a source file.
pub open spec fn is_source(a: Seq<char>) -> bool {
    let l = lower(a);
    &&& !has_prefix(a, "/"@) && !has_prefix(a, "-"@)
    &&& has_suffix(l, ".cpp"@) || has_suffix(l, ".cc"@) || has_suffix(l, ".cxx"@) || has_suffix(
        l,
        ".c"@,
    )
}

/// Whether an argument begins to say where the object goes, and leaves the rest to the
/// next argument.
pub open spec fn is_bare_object_flag(a: Seq<char>) -> bool {
    is_object_flag(a) && object_flag(a).len() == 0
}

/// Whether all that the arguments say of where the object goes is said in one
/// argument each.
pub open spec fn all_glued(args: Seq<Seq<char>>) -> bool {
    forall|i: int| 0 <= i < args.len() ==> !is_bare_object_flag(#[trigger] args[i])
}

/// The last source file and the last object among the arguments.
pub open spec fn compiler_args(args: Seq<Seq<char>>) -> (Option<Seq<char>>, Option<Seq<char>>)
    decreases args.len(),
{
    if args.len() == 0 {
        (None, None)
    } else {
        let (source, object) = compiler_args(args.drop_last());
        let a = args.last();
        if is_object_flag(a) {
            if object_flag(a).len() > 0 {
                (source, Some(object_flag(a)))
            } else {
                (source, object)
            }
        } else if is_source(a) {
            (Some(a), object)
        } else {
            (source, object)
        }
    }
}

/// The object that a compiler makes of a source file if it is not told otherwise.
pub open spec fn object_of(source: Seq<char>, style: PathStyle) -> Seq<char> {
    match file_name(style, source) {
        Some(name) => stem(name) + ".obj"@,
        None => "out.obj"@,
    }
}

pub open spec fn is_directory_form(p: Seq<char>) -> bool {
    has_suffix(p, "\\"@) || has_suffix(p, "/"@)
}

/// The outputs of the compiler arguments `args`, as far as they tell: the object that is
/// named, else the one that the source file makes. That one is not guessed where a flag
/// for the object stands apart from what it names.
pub open spec fn inferred(args: Seq<Seq<char>>, style: PathStyle) -> Seq<Seq<char>> {
    let (source, object) = compiler_args(args);
    match object {
        Some(p) => if is_directory_form(p) {
            match source {
                Some(s) => seq![p + object_of(s, style)],
                None => Seq::empty(),
            }
        } else {
            seq![p]
        },
        None => match source {
            Some(s) => if all_glued(args) {
                seq![object_of(s, style)]
            } else {
                Seq::empty()
            },
            None => Seq::empty(),
        },
    }
}

proof fn lemma_glued_step(args: Seq<Seq<char>>)
    requires
        args.len() > 0,
    ensures
        all_glued(args) == (all_glued(args.drop_last()) && !is_bare_object_flag(args.last())),
{
    let init = args.drop_last();
    if all_glued(args) {
        assert forall|i: int| 0 <= i < init.len() implies !is_bare_object_flag(
            #[trigger] init[i],
        ) by {
            assert(init[i] == args[i]);
        }
    } else {
        let i = choose|i: int| 0 <= i < args.len() && is_bare_object_flag(#[trigger] args[i]);
        if i < init.len() {
            assert(is_bare_object_flag(init[i]));
        }
    }
}

fn begins_with(s: &str, p: &str) -> (r: bool)
    ensures
        r == has_prefix(s@, p@),
{
    starts_with(s, p)
}

fn is_source_file(a: &str) -> (r: bool)
    ensures
        r == is_source(a@),
{
    if begins_with(a, "/") || begins_with(a, "-") {
        return false;
    }
    let l = to_lower(a);
    ends_with(l.as_str(), ".cpp") || ends_with(l.as_str(), ".cc") || ends_with(l.as_str(), ".cxx")
        || ends_with(l.as_str(), ".c")
}

fn object_in(a: &str) -> (r: String)
    requires
        is_object_flag(a@),
    ensures
        r@ == object_flag(a@),
{
    let chars = chars_of(a);
    proof {
        reveal_strlit("/Fo");
        reveal_strlit("-Fo");
    }
    let mut i: usize = 3;
    while i < chars.len() && chars[i] == ':'
        invariant
            3 <= i <= chars@.len(),
            chars@ == a@,
            skip_colons(a@.skip(3)) == skip_colons(a@.skip(i as int)),
        decreases chars@.len() - i,
    {
        assert(a@.skip(i as int).drop_first() =~= a@.skip(i + 1));
        i = i + 1;
    }
    let r = string_of(&chars, i, chars.len());
    assert(r@ =~= a@.skip(i as int));
    r
}

fn object_for(source: &str, style: PathStyle) -> (r: String)
    ensures
        r@ == object_of(source@, style),
{
    match file_name_of(style, source) {
        Some(name) => {
            let mut s = stem_of(name.as_str());
            s.append(".obj");
            s
        },
        None => "out.obj".to_owned(),
    }
}

/// The outputs of a compiler command, as far as its arguments tell; `style` tells whose
/// rules its paths follow.
pub fn infer_outputs(compiler_argv: &Vec<String>, style: PathStyle) -> (r: Vec<String>)
    requires
        compiler_argv@.len() > 0,
    ensures
        texts(r@) == inferred(texts(compiler_argv@).drop_first(), style),
{
    let ghost args = texts(compiler_argv@).drop_first();
    let mut source: Option<String> = None;
    let mut object: Option<String> = None;
    let mut bare = false;
    let mut i: usize = 1;
    assert(args.take(0) =~= Seq::<Seq<char>>::empty());
    while i < compiler_argv.len()
        invariant
            1 <= i <= compiler_argv@.len(),
            args == texts(compiler_argv@).drop_first(),
            match compiler_args(args.take(i - 1)).0 {
                Some(s) => source matches Some(t) && t@ == s,
                None => source is None,
            },
            match compiler_args(args.take(i - 1)).1 {
                Some(s) => object matches Some(t) && t@ == s,
                None => object is None,
            },
            bare == !all_glued(args.take(i - 1)),
        decreases compiler_argv@.len() - i,
    {
        assert(args.take(i as int).drop_last() =~= args.take(i - 1));
        assert(args.take(i as int).last() == compiler_argv@[i as int]@);
        let a = compiler_argv[i].as_str();
        if begins_with(a, "/Fo") || begins_with(a, "-Fo") {
            let p = object_in(a);
            if p.as_str().is_empty() {
                bare = true;
            } else {
                object = Some(p);
            }
        } else if is_source_file(a) {
            source = Some(a.to_owned());
        }
        proof {
            lemma_glued_step(args.take(i as int));
        }
        i = i + 1;
    }
    assert(args.take(i - 1) =~= args);
    let mut r: Vec<String> = Vec::new();
    match object {
        Some(p) => {
            if ends_with(p.as_str(), "\\") || ends_with(p.as_str(), "/") {
                if let Some(s) = source {
                    let mut whole = p;
                    whole.append(object_for(s.as_str(), style).as_str());
                    r.push(whole);
                }
            } else {
                r.push(p);
            }
        },
        None => {
            if let Some(s) = source {
                if !bare {
                    r.push(object_for(s.as_str(), style));
                }
            }
        },
    }
    assert(texts(r@) =~= inferred(args, style));
    r
}

/// The outputs that a command declares: those of the variable
/// [`OUTPUTS_VAR`], where it lists any, else those that its arguments tell.
pub fn declared_outputs(
    listed: &Option<String>,
    compiler_argv: &Vec<String>,
    style: PathStyle,
) -> (r: Vec<String>)
    requires
        compiler_argv@.len() > 0,
    ensures
        texts(r@) == if *listed is Some && split_list((*listed)->0@, ';').len() > 0 {
            split_list((*listed)->0@, ';')
        } else {
            inferred(texts(compiler_argv@).drop_first(), style)
        },
{
    if let Some(spec_text) = listed {
        let outs = list_of(spec_text.as_str(), ';');
        assert(texts(outs@).len() == outs@.len());
        if outs.len() > 0 {
            return outs;
        }
    }
    infer_outputs(compiler_argv, style)
}

/// Whether a variable with this value is set and not switched off.
pub open spec fn is_on(value: Option<Seq<char>>) -> bool {
    match value {
        Some(v) => trim(v).len() > 0 && trim(v) != "0"@ && lower(trim(v)) != lower("false"@),
        None => false,
    }
}

/// Whether a variable with this value is set and not switched off.
pub fn env_flag(value: &Option<String>) -> (r: bool)
    ensures
        r == is_on(
            match *value {
                Some(v) => Some(v@),
                None => None,
            },
        ),
{
    match value {
        Some(v) => {
            let t = trimmed(v.as_str());
            !t.as_str().is_empty() && !same_text(t.as_str(), "0") && !same_ignoring_case(
                t.as_str(),
                "false",
            )
        },
        None => false,
    }
}

/// The command line with the compiler in front of it, where the launcher stands in
/// for one.
pub fn shim_argv(argv: Vec<String>, compiler: Option<String>) -> (r: Vec<String>)
    ensures
        texts(r@) == match compiler {
            Some(cc) => if cc@.len() > 0 {
                seq![cc@] + texts(argv@)
            } else {
                texts(argv@)
            },
            None => texts(argv@),
        },
{
    match compiler {
        Some(cc) => {
            if cc.as_str().is_empty() {
                return argv;
            }
            let ghost first = cc@;
            let mut r: Vec<String> = Vec::new();
            r.push(cc);
            let mut i: usize = 0;
            while i < argv.len()
                invariant
                    i <= argv@.len(),
                    r@.len() == i + 1,
                    texts(r@) == seq![first] + texts(argv@).take(i as int),
                decreases argv@.len() - i,
            {
                let ghost before = r@;
                r.push(argv[i].clone());
                assert(texts(r@) =~= texts(before).push(texts(argv@)[i as int]));
                assert(texts(r@) =~= seq![first] + texts(argv@).take(i + 1));
                i = i + 1;
            }
            assert(texts(argv@).take(i as int) =~= texts(argv@));
            r
        },
        None => argv,
    }
}

/// The root below which response files are kept: the declared one, else the
/// working directory.
pub fn response_root(input_root: &str, cwd: &str) -> (r: String)
    ensures
        r@ == if input_root@.len() == 0 {
            cwd@
        } else {
            input_root@
        },
{
    if input_root.is_empty() {
        cwd.to_owned()
    } else {
        input_root.to_owned()
    }
}

/// The path of the response file that an argument names, if it names one.
pub open spec fn response_path(a: Seq<char>) -> Option<Seq<char>> {
    if a.len() > 1 && a[0] == '@' {
        Some(a.skip(1))
    } else {
        None
    }
}

/// The path of the response file that an argument names.
pub fn response_file(argument: &str) -> (r: Option<String>)
    ensures
        match response_path(argument@) {
            Some(p) => r matches Some(s) && s@ == p,
            None => r is None,
        },
{
    let chars = chars_of(argument);
    if chars.len() > 1 && chars[0] == '@' {
        let p = string_of(&chars, 1, chars.len());
        assert(p@ =~= argument@.skip(1));
        Some(p)
    } else {
        None
    }
}

/// Where a response file is kept under a name that its content gives.
#[derive(Debug, Clone, PartialEq, Eq)]
pub struct StablePlan {
    pub digest: String,
    /// The directory to make.
    pub dir: String,
    /// The file to keep.
    pub stable: String,
    /// The file to write first and then rename to it.
    pub temporary: String,
}

pub open spec fn stable_dir(root: RootModel) -> Seq<char> {
    root.join(".sembazuru"@)
}

/// The path under which the content `bytes` is kept.
pub open spec fn stable_path(bytes: Seq<u8>, root: RootModel) -> Seq<char> {
    path_join(root.style, stable_dir(root), "sbz-rsp-"@ + digest_text(bytes) + ".rsp"@)
}

impl StablePlan {
    /// Plans where to keep a response file with the content `bytes`.
    pub fn new(bytes: &[u8], root: &RootPath, process: u32) -> (r: StablePlan)
        ensures
            r.digest@ == digest_text(bytes@),
            r.dir@ == stable_dir(root@),
            r.stable@ == stable_path(bytes@, root@),
            r.temporary@ == path_join(
                root.style,
                stable_dir(root@),
                "sbz-rsp-"@ + digest_text(bytes@) + "."@ + decimal(process as nat) + ".tmp"@,
            ),
    {
        let digest = digest_of(bytes);
        let dir = root.join(".sembazuru");
        let mut name = "sbz-rsp-".to_owned();
        name.append(digest.as_str());
        let mut temporary = name.clone();
        name.append(".rsp");
        temporary.append(".");
        temporary.append(decimal_of(process as u64).as_str());
        temporary.append(".tmp");
        let stable = join_path(root.style, dir.as_str(), name.as_str());
        let temporary = join_path(root.style, dir.as_str(), temporary.as_str());
        StablePlan { digest, dir, stable, temporary }
    }

    /// Whether the file is there already: a regular file, not a link, with the right
    /// content.
    pub fn is_kept(&self, is_regular: bool, content: &Option<Vec<u8>>) -> (r: bool)
        ensures
            r == (is_regular && *content is Some && digest_text((*content)->0@) == self.digest@),
    {
        if !is_regular {
            return false;
        }
        match content {
            Some(bytes) => same_text(digest_of(bytes.as_slice()).as_str(), self.digest.as_str()),
            None => false,
        }
    }

    /// The path to use, if the file that is there now has the right content.
    pub fn verified(&self, content: &Option<Vec<u8>>) -> (r: Option<String>)
        ensures
            match r {
                Some(p) => p@ == self.stable@ && *content is Some && digest_text((*content)->0@)
                    == self.digest@,
                None => *content is None || digest_text((*content)->0@) != self.digest@,
            },
    {
        match content {
            Some(bytes) => {
                if same_text(digest_of(bytes.as_slice()).as_str(), self.digest.as_str()) {
                    Some(self.stable.clone())
                } else {
                    None
                }
            },
            None => None,
        }
    }
}

/// An argument, with the stable path in place of the response file where there is
/// one.
pub open spec fn stabilized(a: Seq<char>, stable: Option<Seq<char>>) -> Seq<char> {
    if response_path(a) is Some && stable is Some {
        "@"@ + stable->0
    } else {
        a
    }
}

/// Puts stable paths in place of the response files among the arguments; `stable`
/// holds, for each argument, the path that was verified for it.
pub fn stabilize_response_files(argv: &mut Vec<String>, stable: &Vec<Option<String>>)
    requires
        stable@.len() == old(argv)@.len(),
    ensures
        final(argv)@.len() == old(argv)@.len(),
        forall|i: int|
            0 <= i < final(argv)@.len() ==> (#[trigger] final(argv)@[i])@ == stabilized(
                old(argv)@[i]@,
                match stable@[i] {
                    Some(p) => Some(p@),
                    None => None,
                },
            ),
{
    let mut r: Vec<String> = Vec::new();
    let mut i: usize = 0;
    while i < argv.len()
        invariant
            i <= argv@.len(),
            r@.len() == i,
            stable@.len() == argv@.len(),
            forall|j: int|
                0 <= j < i ==> (#[trigger] r@[j])@ == stabilized(
                    argv@[j]@,
                    match stable@[j] {
                        Some(p) => Some(p@),
                        None => None,
                    },
                ),
        decreases argv@.len() - i,
    {
        let mut a = argv[i].clone();
        if response_file(argv[i].as_str()).is_some() {
            if let Some(p) = &stable[i] {
                let mut s = "@".to_owned();
                s.append(p.as_str());
                a = s;
            }
        }
        r.push(a);
        i = i + 1;
    }
    *argv = r;
}

/// The stable path tells nothing of where a response file came from: the same
/// content below the same root always leads to the same path, and so to the same
/// argument.
pub proof fn law_same_content_same_argument(
    a: Seq<char>,
    b: Seq<char>,
    content: Seq<u8>,
    other: Seq<u8>,
    root: RootModel,
)
    requires
        response_path(a) is Some,
        response_path(b) is Some,
        content == other,
    ensures
        stabilized(a, Some(stable_path(content, root))) == stabilized(
            b,
            Some(stable_path(other, root)),
        ),
{
}

proof fn lemma_kept_name(bytes: Seq<u8>)
    ensures
        is_plain_name("sbz-rsp-"@ + digest_text(bytes) + ".rsp"@),
{
    reveal_strlit("sbz-rsp-");
    reveal_strlit(".rsp");
    reveal_strlit(".");
    reveal_strlit("..");
    let d = digest_text(bytes);
    let name = "sbz-rsp-"@ + d + ".rsp"@;
    assert(name[0] == 's' && name[1] == 'b');
    assert forall|i: int| 0 <= i < name.len() implies !is_sep(#[trigger] name[i]) by {
        if 8 <= i < 8 + d.len() {
            assert(name[i] == d[i - 8]);
        }
    }
}

proof fn lemma_same_kept_name(front: Seq<char>, a: Seq<char>, b: Seq<char>)
    requires
        front + ("sbz-rsp-"@ + a + ".rsp"@) == front + ("sbz-rsp-"@ + b + ".rsp"@),
    ensures
        a == b,
{
    reveal_strlit("sbz-rsp-");
    reveal_strlit(".rsp");
    let x = "sbz-rsp-"@ + a + ".rsp"@;
    let y = "sbz-rsp-"@ + b + ".rsp"@;
    assert((front + x).len() == (front + y).len());
    assert forall|i: int| 0 <= i < a.len() implies a[i] == b[i] by {
        assert((front + x)[front.len() + 8 + i] == a[i]);
        assert((front + y)[front.len() + 8 + i] == b[i]);
    }
    assert(a =~= b);
}

/// Two contents that lead to one path have the same digest: other content never
/// takes the place of a response file unless the digest fails.
pub proof fn law_other_content_other_argument(
    a: Seq<char>,
    b: Seq<char>,
    content: Seq<u8>,
    other: Seq<u8>,
    root: RootModel,
)
    requires
        response_path(a) is Some,
        response_path(b) is Some,
        stabilized(a, Some(stable_path(content, root))) == stabilized(
            b,
            Some(stable_path(other, root)),
        ),
    ensures
        digest_text(content) == digest_text(other),
{
    reveal_strlit("@");
    let p = stable_path(content, root);
    let q = stable_path(other, root);
    assert(("@"@ + p).skip(1) =~= p);
    assert(("@"@ + q).skip(1) =~= q);
    let dir = stable_dir(root);
    lemma_kept_name(content);
    lemma_kept_name(other);
    law_plain_names_stay(root.style, dir, "sbz-rsp-"@ + digest_text(content) + ".rsp"@);
    law_plain_names_stay(root.style, dir, "sbz-rsp-"@ + digest_text(other) + ".rsp"@);
    lemma_same_kept_name(before_name(root.style, dir), digest_text(content), digest_text(other));
}

/// The path that a response file with the content `bytes` is replaced by, where the
/// file at that path holds `kept` in the end: `None` where the response file could not
/// be read, or the other does not have its content.
pub open spec fn replacement(
    bytes: Option<Seq<u8>>,
    kept: Option<Seq<u8>>,
    root: RootModel,
) -> Option<Seq<char>> {
    match bytes {
        Some(b) => if kept is Some && digest_text(kept->0) == digest_text(b) {
            Some(stable_path(b, root))
        } else {
            None
        },
        None => None,
    }
}

/// The path to put in place of a response file with the content `bytes`, where the
/// file that is kept for it holds `kept` in the end.
pub fn replacement_for(
    bytes: &Option<Vec<u8>>,
    kept: &Option<Vec<u8>>,
    root: &RootPath,
) -> (r: Option<String>)
    ensures
        opt_text(r) == replacement(opt_bytes(*bytes), opt_bytes(*kept), root@),
{
    match bytes {
        Some(b) => StablePlan::new(b.as_slice(), root, 0).verified(kept),
        None => None,
    }
}

pub open spec fn opt_bytes(b: Option<Vec<u8>>) -> Option<Seq<u8>> {
    match b {
        Some(b) => Some(b@),
        None => None,
    }
}

/// Whether two contents are told apart by their digests.
pub open spec fn told_apart(a: Seq<u8>, b: Seq<u8>) -> bool {
    digest_text(a) == digest_text(b) ==> a == b
}

/// An argument stays as it is, always so where its response file cannot be read, or
/// names a file below the directory for them that holds exactly the content of its
/// response file.
pub proof fn law_rewritten_arguments_name_the_content(
    a: Seq<char>,
    bytes: Option<Seq<u8>>,
    kept: Option<Seq<u8>>,
    root: RootModel,
)
    requires
        bytes is Some && kept is Some ==> told_apart(bytes->0, kept->0),
    ensures
        ({
            let now = stabilized(a, replacement(bytes, kept, root));
            ||| now == a
            ||| {
                &&& bytes is Some && kept == bytes
                &&& now == "@"@ + stable_path(bytes->0, root)
            }
        }),
        bytes is None ==> stabilized(a, replacement(bytes, kept, root)) == a,
        response_path(a) is None ==> stabilized(a, replacement(bytes, kept, root)) == a,
{
}

/// Two response files below one root are replaced by the same argument exactly where
/// their contents are the same.
pub proof fn law_rewritten_arguments_tell_contents_apart(
    a: Seq<char>,
    b: Seq<char>,
    content: Seq<u8>,
    other: Seq<u8>,
    root: RootModel,
)
    requires
        response_path(a) is Some,
        response_path(b) is Some,
        told_apart(content, other),
    ensures
        stabilized(a, replacement(Some(content), Some(content), root)) == stabilized(
            b,
            replacement(Some(other), Some(other), root),
        ) <==> content == other,
{
    if stabilized(a, Some(stable_path(content, root))) == stabilized(
        b,
        Some(stable_path(other, root)),
    ) {
        law_other_content_other_argument(a, b, content, other, root);
    }
}

/// What the arguments of the agent's command line say: where the worker is, and
/// the command to run there.
pub open spec fn agent_call(args: Seq<Seq<char>>) -> Option<(Seq<char>, Seq<Seq<char>>)> {
    let i = first_dashes(args);
    if 1 <= i && i + 1 < args.len() {
        Some((args[0], args.skip(i + 1)))
    } else {
        None
    }
}

/// Where the first `--` stands, or how many arguments there are.
pub open spec fn first_dashes(args: Seq<Seq<char>>) -> int
    decreases args.len(),
{
    if args.len() == 0 || args[0] == "--"@ {
        0
    } else {
        1 + first_dashes(args.drop_first())
    }
}

/// Reads the arguments of the agent's command line; `None` where they say no
/// command.
pub fn agent_arguments(args: &Vec<String>) -> (r: Option<(String, Vec<String>)>)
    ensures
        match agent_call(texts(args@)) {
            Some(call) => r matches Some(c) && c.0@ == call.0 && texts(c.1@) == call.1,
            None => r is None,
        },
{
    let ghost all = texts(args@);
    let mut i: usize = 0;
    assert(all.skip(0) =~= all);
    while i < args.len() && !same_text(args[i].as_str(), "--")
        invariant
            i <= args@.len(),
            all == texts(args@),
            first_dashes(all) == i + first_dashes(all.skip(i as int)),
        decreases args@.len() - i,
    {
        assert(all.skip(i as int)[0] == args@[i as int]@);
        assert(all.skip(i as int).drop_first() =~= all.skip(i + 1));
        i = i + 1;
    }
    if i < args.len() {
        assert(all.skip(i as int)[0] == args@[i as int]@);
    }
    assert(first_dashes(all) == i);
    if i < 1 || args.len() - i < 2 {
        return None;
    }
    let mut argv: Vec<String> = Vec::new();
    let mut j: usize = i + 1;
    while j < args.len()
        invariant
            i + 1 <= j <= args@.len(),
            all == texts(args@),
            argv@.len() == j - i - 1,
            texts(argv@) == all.skip(i + 1).take(j - i - 1),
        decreases args@.len() - j,
    {
        argv.push(args[j].clone());
        assert(texts(argv@) =~= all.skip(i + 1).take(j - i));
        j = j + 1;
    }
    assert(texts(argv@) =~= all.skip(i + 1));
    Some((args[0].clone(), argv))
}

/// What the daemon is asked to do.
#[derive(Clone, Copy, Debug, PartialEq, Eq, Structural)]
pub enum DaemonMode {
    Install,
    Uninstall,
    Service,
    SeedConfig,
    Foreground,
}

/// What the daemon is asked to do; `args` begins with its own name.
pub fn daemon_mode(args: &Vec<String>) -> (r: DaemonMode)
    ensures
        ({
            let a = if args@.len() > 1 {
                args@[1]@
            } else {
                Seq::empty()
            };
            &&& r is Install <==> a == "install"@
            &&& r is Uninstall <==> a == "uninstall"@
            &&& r is Service <==> a == "--service"@
            &&& r is SeedConfig <==> a == "seed-config"@
        }),
{
    proof {
        reveal_strlit("install");
        reveal_strlit("uninstall");
        reveal_strlit("--service");
        reveal_strlit("seed-config");
        assert("install"@[0] == 'i' && "uninstall"@[0] == 'u' && "--service"@[0] == '-'
            && "seed-config"@[0] == 's');
        assert("install"@.len() > 0 && "uninstall"@.len() > 0 && "--service"@.len() > 0
            && "seed-config"@.len() > 0);
    }
    if args.len() < 2 {
        return DaemonMode::Foreground;
    }
    let a = args[1].as_str();
    if same_text(a, "install") {
        DaemonMode::Install
    } else if same_text(a, "uninstall") {
        DaemonMode::Uninstall
    } else if same_text(a, "--service") {
        DaemonMode::Service
    } else if same_text(a, "seed-config") {
        DaemonMode::SeedConfig
    } else {
        DaemonMode::Foreground
    }
}

/// What follows the first `flag` among the arguments.
pub open spec fn flag_value(args: Seq<Seq<char>>, flag: Seq<char>) -> Option<Seq<char>>
    decreases args.len(),
{
    if args.len() == 0 {
        None
    } else if args[0] == flag {
        if args.len() > 1 {
            Some(args[1])
        } else {
            None
        }
    } else {
        flag_value(args.drop_first(), flag)
    }
}

/// The account that the arguments name for the service.
pub fn account_argument(args: &Vec<String>) -> (r: Option<String>)
    ensures
        match flag_value(texts(args@), "--account"@) {
            Some(a) => r matches Some(s) && s@ == a,
            None => r is None,
        },
{
    let ghost all = texts(args@);
    let mut i: usize = 0;
    assert(all.skip(0) =~= all);
    while i < args.len()
        invariant
            i <= args@.len(),
            all == texts(args@),
            flag_value(all, "--account"@) == flag_value(all.skip(i as int), "--account"@),
        decreases args@.len() - i,
    {
        assert(all.skip(i as int)[0] == args@[i as int]@);
        if same_text(args[i].as_str(), "--account") {
            if i + 1 < args.len() {
                assert(all.skip(i as int)[1] == args@[i + 1]@);
                return Some(args[i + 1].clone());
            }
            return None;
        }
        assert(all.skip(i as int).drop_first() =~= all.skip(i + 1));
        i = i + 1;
    }
    None
}

/// An argument names a source file exactly where it is no option and ends in `.c`, `.cc`,
/// `.cpp` or `.cxx`, whatever the case; it says where the object goes exactly where it begins
/// with `/Fo` or `-Fo`. No argument does both.
pub proof fn law_arguments_are_told_apart(a: Seq<char>)
    ensures
        is_object_flag(a) <==> a.len() >= 3 && (a[0] == '/' || a[0] == '-') && a[1] == 'F' && a[2]
            == 'o',
        is_source(a) <==> a.len() >= 2 && a[0] != '/' && a[0] != '-' && {
            let l = lower(a);
            let n = a.len() as int;
            ||| l[n - 2] == '.' && l[n - 1] == 'c'
            ||| n >= 3 && l[n - 3] == '.' && l[n - 2] == 'c' && l[n - 1] == 'c'
            ||| n >= 4 && l[n - 4] == '.' && l[n - 3] == 'c' && l[n - 2] == 'p' && l[n - 1] == 'p'
            ||| n >= 4 && l[n - 4] == '.' && l[n - 3] == 'c' && l[n - 2] == 'x' && l[n - 1] == 'x'
        },
        !(is_object_flag(a) && is_source(a)),
{
    reveal_strlit("/Fo");
    reveal_strlit("-Fo");
    reveal_strlit("/");
    reveal_strlit("-");
    reveal_strlit(".c");
    reveal_strlit(".cc");
    reveal_strlit(".cpp");
    reveal_strlit(".cxx");
    lemma_prefix_by_character(a, "/Fo"@);
    lemma_prefix_by_character(a, "-Fo"@);
    lemma_prefix_by_character(a, "/"@);
    lemma_prefix_by_character(a, "-"@);
    assert("/Fo"@[0] == '/' && "/Fo"@[1] == 'F' && "/Fo"@[2] == 'o');
    assert("-Fo"@[0] == '-' && "-Fo"@[1] == 'F' && "-Fo"@[2] == 'o');
    assert("/"@[0] == '/' && "-"@[0] == '-');
    let l = lower(a);
    lemma_suffix_by_character(l, ".c"@);
    lemma_suffix_by_character(l, ".cc"@);
    lemma_suffix_by_character(l, ".cpp"@);
    lemma_suffix_by_character(l, ".cxx"@);
    let n = l.len() as int;
    assert(".c"@[0] == '.' && ".c"@[1] == 'c');
    assert(".cc"@[0] == '.' && ".cc"@[1] == 'c' && ".cc"@[2] == 'c');
    assert(".cpp"@[0] == '.' && ".cpp"@[1] == 'c' && ".cpp"@[2] == 'p' && ".cpp"@[3] == 'p');
    assert(".cxx"@[0] == '.' && ".cxx"@[1] == 'c' && ".cxx"@[2] == 'x' && ".cxx"@[3] == 'x');
    assert(has_suffix(l, ".c"@) <==> n >= 2 && l[n - 2] == '.' && l[n - 1] == 'c');
    assert(has_suffix(l, ".cc"@) <==> n >= 3 && l[n - 3] == '.' && l[n - 2] == 'c' && l[n - 1]
        == 'c');
    assert(has_suffix(l, ".cpp"@) <==> n >= 4 && l[n - 4] == '.' && l[n - 3] == 'c' && l[n - 2]
        == 'p' && l[n - 1] == 'p');
    assert(has_suffix(l, ".cxx"@) <==> n >= 4 && l[n - 4] == '.' && l[n - 3] == 'c' && l[n - 2]
        == 'x' && l[n - 1] == 'x');
}

proof fn lemma_prefix_by_character(s: Seq<char>, p: Seq<char>)
    ensures
        has_prefix(s, p) <==> p.len() <= s.len() && forall|i: int|
            0 <= i < p.len() ==> s[i] == #[trigger] p[i],
{
    if p.len() <= s.len() {
        let t = s.take(p.len() as int);
        if t == p {
            assert forall|i: int| 0 <= i < p.len() implies s[i] == #[trigger] p[i] by {
                assert(t[i] == s[i]);
            }
        }
        if forall|i: int| 0 <= i < p.len() ==> s[i] == #[trigger] p[i] {
            assert(t =~= p);
        }
    }
}

proof fn lemma_suffix_by_character(s: Seq<char>, p: Seq<char>)
    ensures
        has_suffix(s, p) <==> p.len() <= s.len() && forall|i: int|
            0 <= i < p.len() ==> s[s.len() - p.len() + i] == #[trigger] p[i],
{
    if p.len() <= s.len() {
        let t = s.skip(s.len() - p.len());
        if t == p {
            assert forall|i: int| 0 <= i < p.len() implies s[s.len() - p.len() + i]
                == #[trigger] p[i] by {
                assert(t[i] == s[s.len() - p.len() + i]);
            }
        }
        if forall|i: int| 0 <= i < p.len() ==> s[s.len() - p.len() + i] == #[trigger] p[i] {
            assert(t =~= p);
        }
    }
}

/// What an argument says of the object is all that stands behind `/Fo` or `-Fo` and the colons
/// there.
pub proof fn law_objects_stand_behind_their_flag(flag: Seq<char>, colons: nat, path: Seq<char>)
    requires
        flag == "/Fo"@ || flag == "-Fo"@,
        path.len() > 0 ==> path[0] != ':',
    ensures
        is_object_flag(flag + Seq::new(colons, |i: int| ':') + path),
        object_flag(flag + Seq::new(colons, |i: int| ':') + path) == path,
{
    reveal_strlit("/Fo");
    reveal_strlit("-Fo");
    let between = Seq::new(colons, |i: int| ':');
    let a = flag + between + path;
    assert(a.take(3) =~= flag);
    assert(a.skip(3) =~= between + path);
    lemma_colons_are_skipped(between, path);
}

proof fn lemma_colons_are_skipped(colons: Seq<char>, path: Seq<char>)
    requires
        forall|i: int| 0 <= i < colons.len() ==> colons[i] == ':',
        path.len() > 0 ==> path[0] != ':',
    ensures
        skip_colons(colons + path) == path,
    decreases colons.len(),
{
    if colons.len() == 0 {
        assert(colons + path =~= path);
    } else {
        assert((colons + path).drop_first() =~= colons.drop_first() + path);
        lemma_colons_are_skipped(colons.drop_first(), path);
    }
}

/// Of the source files the last one counts, and of the objects the last that is named. `n` is
/// where the last source file stands and `k` where the last object, or -1 where there is none.
pub proof fn law_the_last_argument_counts(args: Seq<Seq<char>>, n: int, k: int)
    requires
        -1 <= n < args.len(),
        -1 <= k < args.len(),
        n >= 0 ==> is_source(args[n]),
        k >= 0 ==> is_object_flag(args[k]) && object_flag(args[k]).len() > 0,
        forall|i: int| n < i < args.len() ==> !is_source(#[trigger] args[i]),
        forall|i: int|
            k < i < args.len() ==> !(is_object_flag(#[trigger] args[i]) && object_flag(
                args[i],
            ).len() > 0),
    ensures
        compiler_args(args).0 == if n >= 0 {
            Some(args[n])
        } else {
            None
        },
        compiler_args(args).1 == if k >= 0 {
            Some(object_flag(args[k]))
        } else {
            None
        },
    decreases args.len(),
{
    if args.len() > 0 {
        let init = args.drop_last();
        let last = args.len() - 1;
        law_arguments_are_told_apart(args[last]);
        let m = if n == last {
            last_source(init)
        } else {
            n
        };
        let j = if k == last {
            last_object(init)
        } else {
            k
        };
        lemma_last_source(init);
        lemma_last_object(init);
        assert forall|i: int| m < i < init.len() implies !is_source(#[trigger] init[i]) by {
            if n < last {
                assert(init[i] == args[i]);
            }
        }
        assert forall|i: int| j < i < init.len() implies !(is_object_flag(#[trigger] init[i])
            && object_flag(init[i]).len() > 0) by {
            if k < last {
                assert(init[i] == args[i]);
            }
        }
        if m >= 0 {
            assert(init[m] == args[m]);
        }
        if j >= 0 {
            assert(init[j] == args[j]);
        }
        law_the_last_argument_counts(init, m, j);
        assert(args.last() == args[last]);
        if n < last {
            assert(!is_source(args[last]));
        }
        if k < last {
            assert(!(is_object_flag(args[last]) && object_flag(args[last]).len() > 0));
        }
    }
}

spec fn last_source(args: Seq<Seq<char>>) -> int
    decreases args.len(),
{
    if args.len() == 0 || is_source(args.last()) {
        args.len() - 1
    } else {
        last_source(args.drop_last())
    }
}

spec fn last_object(args: Seq<Seq<char>>) -> int
    decreases args.len(),
{
    if args.len() == 0 || (is_object_flag(args.last()) && object_flag(args.last()).len() > 0) {
        args.len() - 1
    } else {
        last_object(args.drop_last())
    }
}

proof fn lemma_last_source(args: Seq<Seq<char>>)
    ensures
        -1 <= last_source(args) < args.len(),
        last_source(args) >= 0 ==> is_source(args[last_source(args)]),
        forall|i: int| last_source(args) < i < args.len() ==> !is_source(#[trigger] args[i]),
    decreases args.len(),
{
    if args.len() > 0 && !is_source(args.last()) {
        lemma_last_source(args.drop_last());
        assert forall|i: int| last_source(args) < i < args.len() implies !is_source(
            #[trigger] args[i],
        ) by {
            if i < args.len() - 1 {
                assert(args.drop_last()[i] == args[i]);
            }
        }
    }
}

proof fn lemma_last_object(args: Seq<Seq<char>>)
    ensures
        -1 <= last_object(args) < args.len(),
        last_object(args) >= 0 ==> is_object_flag(args[last_object(args)]) && object_flag(
            args[last_object(args)],
        ).len() > 0,
        forall|i: int|
            last_object(args) < i < args.len() ==> !(is_object_flag(#[trigger] args[i])
                && object_flag(args[i]).len() > 0),
    decreases args.len(),
{
    if args.len() > 0 && !(is_object_flag(args.last()) && object_flag(args.last()).len() > 0) {
        lemma_last_object(args.drop_last());
        assert forall|i: int| last_object(args) < i < args.len() implies !(is_object_flag(
            #[trigger] args[i],
        ) && object_flag(args[i]).len() > 0) by {
            if i < args.len() - 1 {
                assert(args.drop_last()[i] == args[i]);
            }
        }
    }
}

/// The one output of a command: the object that is named, in it the object of the source where
/// it is a directory, and the object of the source where none is named, unless a flag for it
/// stands apart from what it names. Without any of these there is none.
pub proof fn law_outputs_are_the_object(args: Seq<Seq<char>>, style: PathStyle)
    ensures
        ({
            let (source, object) = compiler_args(args);
            let apart = exists|i: int|
                0 <= i < args.len() && is_object_flag(#[trigger] args[i]) && object_flag(
                    args[i],
                ).len() == 0;
            let directory = object is Some && (object->0).len() > 0 && is_sep((object->0).last());
            &&& object is Some && (object->0).len() > 0 && !directory ==> inferred(args, style)
                == seq![object->0]
            &&& directory && source is Some ==> inferred(args, style) == seq![
                object->0 + object_of(source->0, style),
            ]
            &&& directory && source is None ==> inferred(args, style).len() == 0
            &&& object is None && source is Some && !apart ==> inferred(args, style) == seq![
                object_of(source->0, style),
            ]
            &&& object is None && source is Some && apart ==> inferred(args, style).len() == 0
            &&& object is None && source is None ==> inferred(args, style).len() == 0
        }),
{
    reveal_strlit("\\");
    reveal_strlit("/");
    let (source, object) = compiler_args(args);
    if object is Some {
        let p = object->0;
        lemma_suffix_by_character(p, "\\"@);
        lemma_suffix_by_character(p, "/"@);
        assert("\\"@[0] == '\\' && "/"@[0] == '/');
        assert(has_suffix(p, "\\"@) <==> p.len() > 0 && p.last() == '\\');
        assert(has_suffix(p, "/"@) <==> p.len() > 0 && p.last() == '/');
    }
    let apart = exists|i: int|
        0 <= i < args.len() && is_object_flag(#[trigger] args[i]) && object_flag(args[i]).len()
            == 0;
    assert(apart <==> !all_glued(args)) by {
        if apart {
            let i = choose|i: int|
                0 <= i < args.len() && is_object_flag(#[trigger] args[i]) && object_flag(
                    args[i],
                ).len() == 0;
            assert(is_bare_object_flag(args[i]));
        }
        if !all_glued(args) {
            let i = choose|i: int| 0 <= i < args.len() && is_bare_object_flag(#[trigger] args[i]);
            assert(is_object_flag(args[i]));
        }
    }
}

/// The object of a source file has its name with `.obj` in place of what stands behind the
/// last dot.
pub proof fn law_objects_are_named_after_their_source(
    dir: Seq<char>,
    base: Seq<char>,
    ext: Seq<char>,
)
    requires
        base.len() > 0 && ext.len() > 0,
        forall|i: int| 0 <= i < base.len() ==> base[i] != '/',
        forall|i: int| 0 <= i < ext.len() ==> ext[i] != '/' && ext[i] != '.',
    ensures
        object_of(base.push('.') + ext, PathStyle::Unix) == base + ".obj"@,
        object_of(dir.push('/') + (base.push('.') + ext), PathStyle::Unix) == base + ".obj"@,
{
    let name = base.push('.') + ext;
    let p = dir.push('/') + name;
    let style = PathStyle::Unix;
    let k = (dir.len() + 1) as int;
    lemma_source_name(base, ext);
    assert(name.skip(0) =~= name);
    assert(body_start(style, name) == 0);
    law_paths_end_with_the_name(style, name, 0);
    assert(p.skip(k) =~= name);
    assert(p[k - 1] == '/');
    assert forall|i: int| k <= i < p.len() implies !separates(style, false, #[trigger] p[i]) by {
        assert(p[i] == name[i - k]);
    }
    assert(body_start(style, p) <= 1);
    law_paths_end_with_the_name(style, p, k);
}

proof fn lemma_source_name(base: Seq<char>, ext: Seq<char>)
    requires
        base.len() > 0 && ext.len() > 0,
        forall|i: int| 0 <= i < base.len() ==> base[i] != '/',
        forall|i: int| 0 <= i < ext.len() ==> ext[i] != '/' && ext[i] != '.',
    ensures
        ({
            let name = base.push('.') + ext;
            &&& name != "."@ && name != ".."@
            &&& stem(name) == base
            &&& forall|i: int|
                0 <= i < name.len() ==> !separates(PathStyle::Unix, false, #[trigger] name[i])
        }),
{
    reveal_strlit(".");
    reveal_strlit("..");
    let name = base.push('.') + ext;
    assert(name.last() == ext[ext.len() - 1]);
    if name == "."@ || name == ".."@ {
        assert(name.last() == '.');
    }
    assert forall|i: int| 0 <= i < name.len() implies !separates(
        PathStyle::Unix,
        false,
        #[trigger] name[i],
    ) by {
        if i < base.len() {
            assert(name[i] == base[i]);
        } else if i > base.len() {
            assert(name[i] == ext[i - base.len() - 1]);
        }
    }
    if ext.contains('.') {
        assert(ext[ext.index_of('.')] == '.');
    }
    law_extensions_stand_behind_the_last_dot(base, ext);
}

/// A variable switches something on unless it is not set, blank, `0`, or `false` whatever the
/// case.
pub proof fn law_variables_switch_on(v: Seq<char>)
    ensures
        !is_on(None),
        is_on(Some(v)) <==> trim(v).len() > 0 && trim(v) != seq!['0'] && lower(trim(v)) != seq![
            'f',
            'a',
            'l',
            's',
            'e',
        ],
{
    reveal_strlit("0");
    reveal_strlit("false");
    assert("0"@ =~= seq!['0']);
    assert(lower("false"@) =~= seq!['f', 'a', 'l', 's', 'e']);
}

/// An argument names a response file exactly where it is `@` and a path, and is rewritten to
/// `@` and the path that was verified for it.
pub proof fn law_response_files_stand_behind_an_at_sign(path: Seq<char>, stable: Seq<char>)
    ensures
        path.len() > 0 ==> response_path(seq!['@'] + path) == Some(path),
        path.len() > 0 ==> stabilized(seq!['@'] + path, Some(stable)) == seq!['@'] + stable,
        path.len() > 0 && path[0] != '@' ==> response_path(path) is None && stabilized(
            path,
            Some(stable),
        ) == path,
        path.len() <= 1 ==> response_path(path) is None,
        stabilized(path, None) == path,
{
    reveal_strlit("@");
    assert("@"@ =~= seq!['@']);
    assert((seq!['@'] + path).skip(1) =~= path);
}

/// The agent is told where the worker is, and behind the first `--` the command to run there,
/// word for word.
pub proof fn law_the_command_stands_behind_the_dashes(
    worker: Seq<char>,
    between: Seq<Seq<char>>,
    command: Seq<Seq<char>>,
)
    requires
        worker != "--"@,
        forall|i: int| 0 <= i < between.len() ==> #[trigger] between[i] != "--"@,
    ensures
        command.len() > 0 ==> agent_call(seq![worker] + between + seq!["--"@] + command) == Some(
            (worker, command),
        ),
        command.len() == 0 ==> agent_call(seq![worker] + between + seq!["--"@] + command) is None,
        agent_call(seq![worker] + between) is None,
        agent_call(seq!["--"@] + command) is None,
{
    let front = seq![worker] + between;
    let args = front + seq!["--"@] + command;
    assert forall|i: int| 0 <= i < front.len() implies #[trigger] front[i] != "--"@ by {
        if i > 0 {
            assert(front[i] == between[i - 1]);
        }
    }
    lemma_first_dashes(front, seq!["--"@] + command);
    assert(front + (seq!["--"@] + command) =~= args);
    assert(args.skip(front.len() as int + 1) =~= command);
    lemma_first_dashes(front, Seq::empty());
    assert(front + Seq::<Seq<char>>::empty() =~= front);
}

proof fn lemma_first_dashes(front: Seq<Seq<char>>, rest: Seq<Seq<char>>)
    requires
        forall|i: int| 0 <= i < front.len() ==> #[trigger] front[i] != "--"@,
        rest.len() > 0 ==> rest[0] == "--"@,
    ensures
        first_dashes(front + rest) == front.len(),
    decreases front.len(),
{
    if front.len() == 0 {
        assert(front + rest =~= rest);
    } else {
        let tail = front.drop_first();
        assert((front + rest).drop_first() =~= tail + rest);
        assert forall|i: int| 0 <= i < tail.len() implies #[trigger] tail[i] != "--"@ by {
            assert(tail[i] == front[i + 1]);
        }
        assert((front + rest)[0] == front[0]);
        lemma_first_dashes(tail, rest);
    }
}

/// What a flag says is the argument behind the first one of its name.
pub proof fn law_flags_say_what_follows_them(
    before: Seq<Seq<char>>,
    flag: Seq<char>,
    value: Seq<char>,
    rest: Seq<Seq<char>>,
)
    requires
        forall|i: int| 0 <= i < before.len() ==> #[trigger] before[i] != flag,
    ensures
        flag_value(before + seq![flag, value] + rest, flag) == Some(value),
        flag_value(before + seq![flag], flag) is None,
        flag_value(before, flag) is None,
    decreases before.len(),
{
    let whole = before + seq![flag, value] + rest;
    let short = before + seq![flag];
    if before.len() == 0 {
        assert(whole[0] == flag && whole[1] == value);
        assert(short[0] == flag);
    } else {
        let tail = before.drop_first();
        assert forall|i: int| 0 <= i < tail.len() implies #[trigger] tail[i] != flag by {
            assert(tail[i] == before[i + 1]);
        }
        assert(whole.drop_first() =~= tail + seq![flag, value] + rest);
        assert(short.drop_first() =~= tail + seq![flag]);
        assert(whole[0] == before[0] && short[0] == before[0]);
        law_flags_say_what_follows_them(tail, flag, value, rest);
    }
}

} // verus!
