//! Which tool an action runs: where it is looked for, and its digest.

use crate::digest::{digest_of, digest_text};
use crate::env_filter::env_texts;
use crate::failure::{Failure, FailureKind};
use crate::filepath::{
    file_name, file_name_of, join_path, parent, parent_of, path_join, PathStyle,
};
use crate::keyed::{lemma_entry, KeyedVec, MapKey};
use crate::launch::environment::{environment_value, value_of};
use crate::text::{
    chars_of, decimal, decimal_of, has_char, law_numbers_are_read_back, lemma_split_at_sep,
    lemma_split_tail, same_text, split, split_at_char, texts, trim, trimmed,
};
use vstd::prelude::*;
use vstd::utf8::{encode_utf8, encode_utf8_decode_utf8};

verus! {

/// How long a digest of a tool is trusted, in nanoseconds.
pub const TOOL_DIGEST_TTL: u64 = 2_000_000_000;

/// Whether a tool is named by a path and not by a bare name.
pub open spec fn is_path(argv0: Seq<char>) -> bool {
    argv0.contains('\\') || argv0.contains('/') || (argv0.len() >= 2 && argv0[0] <= '\u{7f}'
        && argv0[1] == ':')
}

/// The two places for one path: itself, and with `.exe` behind it.
pub open spec fn with_exe(p: Seq<char>) -> Seq<Seq<char>> {
    seq![p, p + ".exe"@]
}

/// The places of a bare name below the directories of a search path.
pub open spec fn below_dirs(
    dirs: Seq<Seq<char>>,
    name: Seq<char>,
    style: PathStyle,
) -> Seq<Seq<char>>
    decreases dirs.len(),
{
    if dirs.len() == 0 {
        Seq::empty()
    } else {
        let before = below_dirs(dirs.drop_last(), name, style);
        if dirs.last().len() == 0 {
            before
        } else {
            before + with_exe(path_join(style, dirs.last(), name))
        }
    }
}

/// The places where a tool is looked for, in their order; the first that holds a
/// file counts.
pub open spec fn tool_places(
    argv0: Seq<char>,
    path_env: Option<Seq<char>>,
    cwd: Seq<char>,
    style: PathStyle,
) -> Seq<Seq<char>> {
    if argv0.len() == 0 {
        Seq::empty()
    } else if is_path(argv0) {
        with_exe(
            path_join(
                style,
                if cwd.len() == 0 {
                    "."@
                } else {
                    cwd
                },
                argv0,
            ),
        )
    } else {
        match path_env {
            Some(path) => below_dirs(split(path, ';'), argv0, style),
            None => Seq::empty(),
        }
    }
}

fn push_with_exe(places: &mut Vec<String>, path: String)
    ensures
        texts(final(places)@) == texts(old(places)@) + with_exe(path@),
{
    let ghost before = places@;
    let mut exe = path.clone();
    exe.append(".exe");
    let ghost p = path@;
    places.push(path);
    places.push(exe);
    assert(texts(places@) =~= texts(before) + with_exe(p));
}

/// The places where a tool is looked for, in their order; `style` tells whose rules
/// paths follow.
pub fn resolve_program(
    argv0: &str,
    path_env: &Option<String>,
    cwd: &str,
    style: PathStyle,
) -> (r: Vec<String>)
    ensures
        texts(r@) == tool_places(
            argv0@,
            match *path_env {
                Some(p) => Some(p@),
                None => None,
            },
            cwd@,
            style,
        ),
{
    let mut places: Vec<String> = Vec::new();
    assert(texts(places@) =~= Seq::<Seq<char>>::empty());
    let chars = chars_of(argv0);
    if chars.len() == 0 {
        return places;
    }
    if has_char(argv0, '\\') || has_char(argv0, '/') || (chars.len() >= 2 && chars[0] <= '\u{7f}'
        && chars[1] == ':') {
        let path = if cwd.is_empty() {
            join_path(style, ".", argv0)
        } else {
            join_path(style, cwd, argv0)
        };
        push_with_exe(&mut places, path);
        assert(texts(places@) =~= tool_places(argv0@, None, cwd@, style));
        return places;
    }
    if let Some(path) = path_env {
        let dirs = split_at_char(path.as_str(), ';');
        let ghost all = texts(dirs@);
        let mut i: usize = 0;
        assert(all.take(0) =~= Seq::<Seq<char>>::empty());
        while i < dirs.len()
            invariant
                i <= dirs@.len(),
                all == texts(dirs@),
                texts(places@) == below_dirs(all.take(i as int), argv0@, style),
            decreases dirs@.len() - i,
        {
            assert(all.take(i + 1).drop_last() =~= all.take(i as int));
            assert(all.take(i + 1).last() == dirs@[i as int]@);
            if !dirs[i].as_str().is_empty() {
                push_with_exe(&mut places, join_path(style, dirs[i].as_str(), argv0));
            }
            i = i + 1;
        }
        assert(all.take(i as int) =~= all);
    }
    places
}

/// The search path of an environment.
pub fn search_path(env: &Vec<(String, String)>) -> (r: Option<String>)
    ensures
        match value_of(env_texts(env@), "PATH"@) {
            Some(v) => r matches Some(s) && s@ == v,
            None => r is None,
        },
{
    environment_value(env, "PATH")
}

/// What stands for the digest of a tool that is not found.
pub open spec fn name_digest(argv0: Seq<char>) -> Seq<char> {
    digest_text(encode_utf8("toolchain-name:"@ + argv0))
}

/// The digest of a tool: that of its content, where it was found and read, else
/// that of its name.
pub fn toolchain_digest(argv0: &str, content: Option<String>) -> (r: String)
    ensures
        r@ == match content {
            Some(d) => d@,
            None => name_digest(argv0@),
        },
{
    match content {
        Some(d) => d,
        None => {
            let mut text = "toolchain-name:".to_owned();
            text.append(argv0);
            digest_of(text.as_str().as_bytes())
        },
    }
}

/// A file as it was when it was hashed.
#[derive(Debug, Clone, PartialEq, Eq)]
pub struct FileStamp {
    pub path: String,
    pub modified: u128,
    pub len: u64,
}

impl View for FileStamp {
    type V = (Seq<char>, u128, u64);

    open spec fn view(&self) -> (Seq<char>, u128, u64) {
        (self.path@, self.modified, self.len)
    }
}

impl MapKey for FileStamp {
    fn same_key(&self, other: &Self) -> (r: bool) {
        same_text(self.path.as_str(), other.path.as_str()) && self.modified == other.modified
            && self.len == other.len
    }
}

/// A digest and when it was made.
pub struct Hashed {
    pub digest: String,
    pub at: u64,
}

impl View for Hashed {
    type V = (Seq<char>, u64);

    open spec fn view(&self) -> (Seq<char>, u64) {
        (self.digest@, self.at)
    }
}

/// The digests of tools that were hashed.
pub struct ToolDigests {
    known: KeyedVec<FileStamp, Hashed>,
}

impl View for ToolDigests {
    type V = Map<(Seq<char>, u128, u64), (Seq<char>, u64)>;

    closed spec fn view(&self) -> Map<(Seq<char>, u128, u64), (Seq<char>, u64)> {
        self.known@
    }
}

/// The digest that is trusted for a file at the time `now`: one of the same file, at
/// the same time of change and of the same length, that was made not long ago.
pub open spec fn trusted(
    known: Map<(Seq<char>, u128, u64), (Seq<char>, u64)>,
    file: (Seq<char>, u128, u64),
    now: u64,
) -> Option<Seq<char>> {
    if known.contains_key(file) && now - known[file].1 < TOOL_DIGEST_TTL {
        Some(known[file].0)
    } else {
        None
    }
}

impl ToolDigests {
    pub closed spec fn wf(&self) -> bool {
        self.known.wf()
    }

    pub fn new() -> (r: ToolDigests)
        ensures
            r.wf(),
            r@ == Map::<(Seq<char>, u128, u64), (Seq<char>, u64)>::empty(),
    {
        ToolDigests { known: KeyedVec::new() }
    }

    /// The digest that is trusted for a file at the time `now`; without one the file
    /// is to be hashed.
    pub fn digest_file_memoized(&self, file: &FileStamp, now: u64) -> (r: Option<String>)
        requires
            self.wf(),
        ensures
            match trusted(self@, file@, now) {
                Some(d) => r matches Some(s) && s@ == d,
                None => r is None,
            },
    {
        match self.known.find(file) {
            Some(i) => {
                proof {
                    lemma_entry(self.known.entries@, i as int);
                }
                let at: u64 = self.known.entries[i].1.at;
                if now < at || now - at < TOOL_DIGEST_TTL {
                    Some(self.known.entries[i].1.digest.clone())
                } else {
                    None
                }
            },
            None => None,
        }
    }

    /// Keeps the digest of a file that was hashed at the time `now`.
    pub fn keep(&mut self, file: FileStamp, digest: String, now: u64)
        requires
            old(self).wf(),
        ensures
            final(self).wf(),
            final(self)@ == old(self)@.insert(file@, (digest@, now)),
    {
        let hashed = Hashed { digest, at: now };
        match self.known.find(&file) {
            Some(i) => {
                proof {
                    lemma_entry(self.known.entries@, i as int);
                }
                self.known.set_at(i, hashed);
            },
            None => {
                self.known.add_entry(file, hashed);
            },
        }
    }
}

/// A digest is never trusted for longer than its time: after that the file is
/// hashed anew, whatever its time of change says.
pub proof fn law_digests_are_trusted_only_so_long(
    known: Map<(Seq<char>, u128, u64), (Seq<char>, u64)>,
    file: (Seq<char>, u128, u64),
    digest: Seq<char>,
    made: u64,
    now: u64,
)
    requires
        now >= made + TOOL_DIGEST_TTL,
    ensures
        trusted(known.insert(file, (digest, made)), file, now) is None,
{
}

/// A file that has changed its length or its time of change since it was hashed is
/// not taken for what it was.
pub proof fn law_changed_files_are_hashed_anew(
    known: Map<(Seq<char>, u128, u64), (Seq<char>, u64)>,
    file: (Seq<char>, u128, u64),
    changed: (Seq<char>, u128, u64),
    digest: Seq<char>,
    now: u64,
    later: u64,
)
    requires
        !known.contains_key(changed),
        changed.1 != file.1 || changed.2 != file.2,
    ensures
        trusted(known.insert(file, (digest, now)), changed, later) is None,
{
}

/// The root that a result is stored for: the declared one, which is still to be
/// brought into its normal form, or the working directory as it is.
pub enum EffectiveRoot {
    Declared(String),
    WorkingDirectory(String),
}

/// Decides which root a result is stored for.
pub fn effective_root(declared: &Option<String>, cwd: &str) -> (r: EffectiveRoot)
    ensures
        if *declared is Some && trim((*declared)->0@).len() > 0 {
            r matches EffectiveRoot::Declared(s) && s@ == (*declared)->0@
        } else {
            r matches EffectiveRoot::WorkingDirectory(s) && s@ == cwd@
        },
{
    if let Some(root) = declared {
        if !trimmed(root.as_str()).as_str().is_empty() {
            return EffectiveRoot::Declared(root.clone());
        }
    }
    EffectiveRoot::WorkingDirectory(cwd.to_owned())
}

/// The name of the file that an output is staged in.
pub open spec fn staging_name(
    p: Seq<char>,
    process: u32,
    number: u64,
    style: PathStyle,
) -> Seq<char> {
    ".sbz-cache."@ + decimal(process as nat) + "."@ + decimal(number as nat) + "."@ + (
    match file_name(style, p) {
        Some(name) => name,
        None => Seq::empty(),
    }) + ".tmp"@
}

/// Where an output is staged: the directory to make, and a file in it, beside the
/// final path, that is not to exist yet.
pub fn stage_sibling(final_path: &str, process: u32, number: u64, style: PathStyle) -> (r: Result<
    (String, String),
    Failure,
>)
    ensures
        match parent(style, final_path@) {
            Some(dir) => r matches Ok(place) && place.0@ == dir && place.1@ == path_join(
                style,
                dir,
                staging_name(final_path@, process, number, style),
            ),
            None => r matches Err(f) && f@ == (
                FailureKind::InvalidInput,
                "output path has no parent"@,
            ),
        },
{
    let dir = match parent_of(style, final_path) {
        Some(dir) => dir,
        None => {
            return Err(Failure::new(FailureKind::InvalidInput, "output path has no parent"));
        },
    };
    let mut file = ".sbz-cache.".to_owned();
    file.append(decimal_of(process as u64).as_str());
    file.append(".");
    file.append(decimal_of(number).as_str());
    file.append(".");
    match file_name_of(style, final_path) {
        Some(name) => {
            file.append(name.as_str());
        },
        None => {
            assert(file@ =~= file@ + Seq::<char>::empty());
        },
    }
    file.append(".tmp");
    let path = join_path(style, dir.as_str(), file.as_str());
    Ok((dir, path))
}

/// A bare name is looked for in every directory of a search path, in their order: first as it
/// is, then with `.exe` behind it; empty entries stand for no directory.
pub proof fn law_tools_are_looked_for_in_every_directory(
    name: Seq<char>,
    a: Seq<char>,
    b: Seq<char>,
    cwd: Seq<char>,
    style: PathStyle,
)
    requires
        name.len() > 0,
        !name.contains('\\') && !name.contains('/'),
        !(name.len() >= 2 && name[0] <= '\u{7f}' && name[1] == ':'),
    ensures
        tool_places(name, Some(a.push(';') + b), cwd, style) == tool_places(
            name,
            Some(a),
            cwd,
            style,
        ) + tool_places(name, Some(b), cwd, style),
        a.len() > 0 && !a.contains(';') ==> tool_places(name, Some(a), cwd, style) == seq![
            path_join(style, a, name),
            path_join(style, a, name) + ".exe"@,
        ],
        a.len() == 0 ==> tool_places(name, Some(a), cwd, style).len() == 0,
        tool_places(name, None, cwd, style).len() == 0,
{
    lemma_split_at_sep(a, b, ';');
    lemma_below_dirs_add_up(split(a, ';'), split(b, ';'), name, style);
    if !a.contains(';') {
        let none = Seq::<char>::empty();
        lemma_split_tail(none, a, ';');
        assert(none + a =~= a);
        assert(split(none, ';') =~= seq![none]);
        assert(split(a, ';') =~= seq![a]);
        assert(seq![a].drop_last() =~= Seq::<Seq<char>>::empty());
        reveal_with_fuel(below_dirs, 2);
        assert(a.len() > 0 ==> below_dirs(seq![a], name, style) =~= with_exe(
            path_join(style, a, name),
        ));
    }
}

proof fn lemma_below_dirs_add_up(
    a: Seq<Seq<char>>,
    b: Seq<Seq<char>>,
    name: Seq<char>,
    style: PathStyle,
)
    ensures
        below_dirs(a + b, name, style) == below_dirs(a, name, style) + below_dirs(b, name, style),
    decreases b.len(),
{
    if b.len() == 0 {
        assert(a + b =~= a);
        assert(below_dirs(a, name, style) + below_dirs(b, name, style) =~= below_dirs(
            a,
            name,
            style,
        ));
    } else {
        assert((a + b).drop_last() =~= a + b.drop_last());
        assert((a + b).last() == b.last());
        lemma_below_dirs_add_up(a, b.drop_last(), name, style);
        assert(below_dirs(a + b, name, style) =~= below_dirs(a, name, style) + below_dirs(
            b,
            name,
            style,
        ));
    }
}

/// A tool that is named by a path, one with a separator or a drive, is looked for there and
/// nowhere else, as seen from the working directory, whatever the search path says.
pub proof fn law_paths_of_tools_are_taken_as_they_are(
    argv0: Seq<char>,
    path_env: Option<Seq<char>>,
    cwd: Seq<char>,
    style: PathStyle,
)
    requires
        argv0.len() > 0,
        argv0.contains('\\') || argv0.contains('/') || (argv0.len() >= 2 && argv0[0] <= '\u{7f}'
            && argv0[1] == ':'),
    ensures
        cwd.len() > 0 ==> tool_places(argv0, path_env, cwd, style) == seq![
            path_join(style, cwd, argv0),
            path_join(style, cwd, argv0) + ".exe"@,
        ],
        cwd.len() == 0 ==> tool_places(argv0, path_env, cwd, style) == tool_places(
            argv0,
            path_env,
            "."@,
            style,
        ),
{
    reveal_strlit(".");
}

/// A digest is trusted for its file as long as its time is not over, and a file that was
/// hashed does not make others trusted.
pub proof fn law_recent_digests_are_trusted(
    known: Map<(Seq<char>, u128, u64), (Seq<char>, u64)>,
    file: (Seq<char>, u128, u64),
    other: (Seq<char>, u128, u64),
    digest: Seq<char>,
    made: u64,
    now: u64,
)
    ensures
        now < made + 2_000_000_000 ==> trusted(known.insert(file, (digest, made)), file, now)
            == Some(digest),
        other != file ==> trusted(known.insert(file, (digest, made)), other, now) == trusted(
            known,
            other,
            now,
        ),
{
}

/// No two files are staged under one name: another process or another number makes another
/// name.
pub proof fn law_staging_names_do_not_collide(
    p: Seq<char>,
    process: u32,
    other_process: u32,
    number: u64,
    other_number: u64,
    style: PathStyle,
)
    ensures
        number != other_number ==> staging_name(p, process, number, style) != staging_name(
            p,
            process,
            other_number,
            style,
        ),
        process != other_process ==> staging_name(p, process, number, style) != staging_name(
            p,
            other_process,
            number,
            style,
        ),
{
    if staging_name(p, process, number, style) == staging_name(p, process, other_number, style) {
        lemma_one_staging_number(p, process, number, other_number, style);
    }
    if staging_name(p, process, number, style) == staging_name(p, other_process, number, style) {
        lemma_one_staging_process(p, process, other_process, number, style);
    }
}

/// A name of a staged file around its fourth part.
proof fn lemma_staging_name_parts(
    a: Seq<char>,
    b: Seq<char>,
    c: Seq<char>,
    d: Seq<char>,
    e: Seq<char>,
    f: Seq<char>,
    g: Seq<char>,
)
    ensures
        a + b + c + d + e + f + g == (a + b + c) + d + (e + f + g),
        a + b + c + d + e + f + g == a + b + (c + d + e + f + g),
{
    assert(a + b + c + d + e + f + g =~= (a + b + c) + d + (e + f + g));
    assert(a + b + c + d + e + f + g =~= a + b + (c + d + e + f + g));
}

proof fn lemma_one_staging_number(
    p: Seq<char>,
    process: u32,
    number: u64,
    other: u64,
    style: PathStyle,
)
    requires
        staging_name(p, process, number, style) == staging_name(p, process, other, style),
    ensures
        number == other,
{
    let name = match file_name(style, p) {
        Some(name) => name,
        None => Seq::empty(),
    };
    let (m, n, q) = (decimal(number as nat), decimal(other as nat), decimal(process as nat));
    lemma_staging_name_parts(".sbz-cache."@, q, "."@, m, "."@, name, ".tmp"@);
    lemma_staging_name_parts(".sbz-cache."@, q, "."@, n, "."@, name, ".tmp"@);
    lemma_middles_are_equal(".sbz-cache."@ + q + "."@, m, n, "."@ + name + ".tmp"@);
    law_numbers_are_read_back(number);
    law_numbers_are_read_back(other);
}

proof fn lemma_one_staging_process(
    p: Seq<char>,
    process: u32,
    other: u32,
    number: u64,
    style: PathStyle,
)
    requires
        staging_name(p, process, number, style) == staging_name(p, other, number, style),
    ensures
        process == other,
{
    let name = match file_name(style, p) {
        Some(name) => name,
        None => Seq::empty(),
    };
    let (m, q, r) = (decimal(number as nat), decimal(process as nat), decimal(other as nat));
    lemma_staging_name_parts(".sbz-cache."@, q, "."@, m, "."@, name, ".tmp"@);
    lemma_staging_name_parts(".sbz-cache."@, r, "."@, m, "."@, name, ".tmp"@);
    lemma_middles_are_equal(".sbz-cache."@, q, r, "."@ + m + "."@ + name + ".tmp"@);
    law_numbers_are_read_back(process as u64);
    law_numbers_are_read_back(other as u64);
}

proof fn lemma_middles_are_equal(front: Seq<char>, a: Seq<char>, b: Seq<char>, back: Seq<char>)
    requires
        front + a + back == front + b + back,
    ensures
        a == b,
{
    let whole = front + a + back;
    assert(whole.len() == front.len() + a.len() + back.len());
    assert(whole.len() == front.len() + b.len() + back.len());
    assert(a =~= whole.subrange(front.len() as int, (front.len() + a.len()) as int));
    assert(b =~= whole.subrange(front.len() as int, (front.len() + b.len()) as int));
}

/// Tools that are not found are told apart by their names, as far as the digests of the names
/// are.
pub proof fn law_missing_tools_are_told_apart_by_name(a: Seq<char>, b: Seq<char>)
    requires
        digest_text(encode_utf8("toolchain-name:"@ + a)) == digest_text(
            encode_utf8("toolchain-name:"@ + b),
        ) ==> encode_utf8("toolchain-name:"@ + a) == encode_utf8("toolchain-name:"@ + b),
    ensures
        name_digest(a) == name_digest(b) <==> a == b,
{
    let head = "toolchain-name:"@;
    if name_digest(a) == name_digest(b) {
        encode_utf8_decode_utf8(head + a);
        encode_utf8_decode_utf8(head + b);
        assert((head + a).skip(head.len() as int) =~= a);
        assert((head + b).skip(head.len() as int) =~= b);
    }
}

} // verus!
