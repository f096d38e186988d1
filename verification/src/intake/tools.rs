//! Which tools' results are cached.

use crate::filepath::{
    body_start, file_name, file_name_of, has_drive, is_network, is_sep,
    law_extensions_stand_behind_the_last_dot, law_paths_end_with_the_name, separates, stem, stem_of,
    PathStyle,
};
use crate::text::{
    lemma_split_at_sep, lemma_split_tail, lower, same_ignoring_case, same_text, split, split_at_char,
    texts, to_lower, trim, trimmed,
};
use vstd::prelude::*;

verus! {

/// The variable that names further tools whose results are cached.
pub const VERIFIED_TOOLS_VAR: &'static str = "SEMBAZURU_VERIFIED_TOOLS";

/// The name of a tool: without its directory and extension, in lower case. Tools are
/// named as on Windows, where the tools that are known come from.
pub open spec fn tool_name(argv0: Seq<char>) -> Seq<char> {
    lower(
        match file_name(PathStyle::Windows, argv0) {
            Some(name) => stem(name),
            None => argv0,
        },
    )
}

/// Whether a tool is one whose results are known to be reproducible.
pub open spec fn is_known_tool(name: Seq<char>) -> bool {
    name == "cl"@ || name == "clang-cl"@ || name == "clang"@ || name == "clang++"@ || name == "dxc"@
}

/// Whether `name` is among the comma-separated names `list`.
pub open spec fn is_listed_tool(name: Seq<char>, list: Seq<char>) -> bool {
    exists|i: int|
        0 <= i < split(list, ',').len() && lower(trim(#[trigger] split(list, ',')[i])) == lower(
            name,
        )
}

/// Whether the results of a tool are cached; `listed` is the value of
/// [`VERIFIED_TOOLS_VAR`].
pub open spec fn is_verified(argv0: Seq<char>, listed: Option<Seq<char>>) -> bool {
    &&& argv0.len() > 0
    &&& is_known_tool(tool_name(argv0)) || (listed matches Some(list) && is_listed_tool(
        tool_name(argv0),
        list,
    ))
}

/// Whether the results of a tool are cached.
pub fn is_verified_tool(argv0: &str, listed: &Option<String>) -> (r: bool)
    ensures
        r == is_verified(
            argv0@,
            match *listed {
                Some(l) => Some(l@),
                None => None,
            },
        ),
{
    if argv0.is_empty() {
        return false;
    }
    let base = match file_name_of(PathStyle::Windows, argv0) {
        Some(name) => stem_of(name.as_str()),
        None => argv0.to_owned(),
    };
    let name = to_lower(base.as_str());
    let n = name.as_str();
    if same_text(n, "cl") || same_text(n, "clang-cl") || same_text(n, "clang") || same_text(
        n,
        "clang++",
    ) || same_text(n, "dxc") {
        return true;
    }
    match listed {
        None => false,
        Some(list) => {
            let pieces = split_at_char(list.as_str(), ',');
            let ghost all = split(list@, ',');
            let mut i: usize = 0;
            while i < pieces.len()
                invariant
                    i <= pieces@.len(),
                    all == split(list@, ','),
                    texts(pieces@) == all,
                    n@ == tool_name(argv0@),
                    argv0@.len() > 0,
                    *listed == Some(*list),
                    !is_known_tool(n@),
                    forall|j: int|
                        0 <= j < i ==> lower(trim(#[trigger] all[j])) != lower(n@),
                decreases pieces@.len() - i,
            {
                assert(all[i as int] == pieces@[i as int]@);
                if same_ignoring_case(trimmed(pieces[i].as_str()).as_str(), n) {
                    return true;
                }
                i = i + 1;
            }
            false
        },
    }
}

/// What a tool is taken for.
#[derive(Debug, Clone, PartialEq, Eq)]
pub enum ToolchainIdentity {
    /// The file at `path`, whose content has this digest.
    Content { digest: String, path: String },
    /// Nothing but its name, which has this digest.
    NameOnly { digest: String, argv0: String },
}

impl ToolchainIdentity {
    pub open spec fn text(self) -> Seq<char> {
        match self {
            ToolchainIdentity::Content { digest, path } => digest@,
            ToolchainIdentity::NameOnly { digest, argv0 } => digest@,
        }
    }

    pub fn is_content(&self) -> (r: bool)
        ensures
            r == (*self is Content),
    {
        match self {
            ToolchainIdentity::Content { .. } => true,
            ToolchainIdentity::NameOnly { .. } => false,
        }
    }

    pub fn digest(&self) -> (r: &String)
        ensures
            r@ == self.text(),
    {
        match self {
            ToolchainIdentity::Content { digest, .. } => digest,
            ToolchainIdentity::NameOnly { digest, .. } => digest,
        }
    }
}

/// Whether the worker ran the same tool: it says which, and it is the expected one.
pub fn worker_tool_matches(reported: &str, expected: &str) -> (r: bool)
    ensures
        r == (reported@.len() > 0 && reported@ == expected@),
{
    !reported.is_empty() && same_text(reported, expected)
}

/// Whether a result may be cached: its tool is a verified one, known by its
/// content, and the worker ran that very tool.
pub open spec fn may_record(
    verified: bool,
    identity: ToolchainIdentity,
    reported: Seq<char>,
) -> bool {
    verified && identity is Content && reported.len() > 0 && reported == identity.text()
}

/// Whether a result may be cached.
pub fn should_record_cache(
    tool_verified: bool,
    agent_identity: &ToolchainIdentity,
    worker_reported_digest: &str,
) -> (r: bool)
    ensures
        r == may_record(tool_verified, *agent_identity, worker_reported_digest@),
{
    tool_verified && agent_identity.is_content() && worker_tool_matches(
        worker_reported_digest,
        agent_identity.digest().as_str(),
    )
}

/// The case of a tool's name does not matter, nor the directory it is in.
pub proof fn law_tool_names_ignore_case(a: Seq<char>, b: Seq<char>, listed: Option<Seq<char>>)
    requires
        a.len() > 0,
        b.len() > 0,
        tool_name(a) == tool_name(b),
    ensures
        is_verified(a, listed) == is_verified(b, listed),
{
}

/// A tool is called by what stands before the extension of its file, in lower case, wherever
/// the file is.
pub proof fn law_tools_are_called_by_their_file(
    dir: Seq<char>,
    sep: char,
    base: Seq<char>,
    ext: Seq<char>,
)
    requires
        is_sep(sep),
        dir.len() > 0 ==> !is_sep(dir[0]),
        base.len() > 0 && ext.len() > 0,
        !has_drive(base.push('.') + ext),
        forall|i: int| 0 <= i < base.len() ==> !is_sep(#[trigger] base[i]),
        forall|i: int| 0 <= i < ext.len() ==> !is_sep(#[trigger] ext[i]),
        !ext.contains('.'),
    ensures
        tool_name(base.push('.') + ext) == lower(base),
        tool_name(dir.push(sep) + (base.push('.') + ext)) == lower(base),
{
    reveal_strlit(".");
    reveal_strlit("..");
    let style = PathStyle::Windows;
    let name = base.push('.') + ext;
    assert forall|i: int| 0 <= i < name.len() implies !is_sep(#[trigger] name[i]) by {
        if i < base.len() {
            assert(name[i] == base[i]);
        } else if i > base.len() {
            assert(name[i] == ext[i - base.len() - 1]);
        }
    }
    assert(name.last() == ext.last());
    if ext.last() == '.' {
        assert(ext.contains(ext.last()));
    }
    assert(name != "."@ && name != ".."@) by {
        if name == "."@ || name == ".."@ {
            assert(name.last() == '.');
        }
    }
    law_extensions_stand_behind_the_last_dot(base, ext);
    assert(name.skip(0) =~= name);
    assert(!is_sep(name[0]));
    assert(body_start(style, name) == 0);
    law_paths_end_with_the_name(style, name, 0);
    let p = dir.push(sep) + name;
    let k = (dir.len() + 1) as int;
    assert(p.skip(k) =~= name);
    assert(p[k - 1] == sep);
    assert(p[0] == if dir.len() > 0 {
        dir[0]
    } else {
        sep
    });
    assert(p[k] == name[0]);
    assert forall|i: int| k <= i < p.len() implies !separates(style, false, #[trigger] p[i]) by {
        assert(p[i] == name[i - k]);
    }
    assert(!is_network(p));
    assert(body_start(style, p) <= k);
    law_paths_end_with_the_name(style, p, k);
}

/// The tools whose results are known to be reproducible are cl, clang-cl, clang, clang++ and
/// dxc, and no other unless it is listed.
pub proof fn law_known_tools(argv0: Seq<char>)
    requires
        argv0.len() > 0,
    ensures
        is_verified(argv0, None) <==> {
            let n = tool_name(argv0);
            ||| n == seq!['c', 'l']
            ||| n == seq!['c', 'l', 'a', 'n', 'g', '-', 'c', 'l']
            ||| n == seq!['c', 'l', 'a', 'n', 'g']
            ||| n == seq!['c', 'l', 'a', 'n', 'g', '+', '+']
            ||| n == seq!['d', 'x', 'c']
        },
        !is_verified(Seq::empty(), None),
{
    reveal_strlit("cl");
    reveal_strlit("clang-cl");
    reveal_strlit("clang");
    reveal_strlit("clang++");
    reveal_strlit("dxc");
    assert("cl"@ =~= seq!['c', 'l']);
    assert("clang-cl"@ =~= seq!['c', 'l', 'a', 'n', 'g', '-', 'c', 'l']);
    assert("clang"@ =~= seq!['c', 'l', 'a', 'n', 'g']);
    assert("clang++"@ =~= seq!['c', 'l', 'a', 'n', 'g', '+', '+']);
    assert("dxc"@ =~= seq!['d', 'x', 'c']);
}

/// A tool is listed where one of the names between commas is its own, whatever the case and
/// the blanks around it. Listing tools never takes others back.
pub proof fn law_listed_tools_are_verified(
    argv0: Seq<char>,
    a: Seq<char>,
    b: Seq<char>,
)
    requires
        argv0.len() > 0,
    ensures
        is_listed_tool(argv0, a.push(',') + b) <==> is_listed_tool(argv0, a) || is_listed_tool(
            argv0,
            b,
        ),
        !a.contains(',') ==> (is_listed_tool(argv0, a) <==> lower(trim(a)) == lower(argv0)),
        is_verified(argv0, Some(a)) <==> is_verified(argv0, None) || is_listed_tool(
            tool_name(argv0),
            a,
        ),
{
    let (x, y) = (split(a, ','), split(b, ','));
    let all = split(a.push(',') + b, ',');
    lemma_split_at_sep(a, b, ',');
    assert(all == x + y);
    if is_listed_tool(argv0, a.push(',') + b) {
        let i = choose|i: int| 0 <= i < all.len() && lower(trim(#[trigger] all[i])) == lower(argv0);
        if i < x.len() {
            assert(x[i] == all[i]);
        } else {
            assert(y[i - x.len()] == all[i]);
        }
    }
    if is_listed_tool(argv0, a) {
        let i = choose|i: int| 0 <= i < x.len() && lower(trim(#[trigger] x[i])) == lower(argv0);
        assert(all[i] == x[i]);
    }
    if is_listed_tool(argv0, b) {
        let i = choose|i: int| 0 <= i < y.len() && lower(trim(#[trigger] y[i])) == lower(argv0);
        assert(all[x.len() + i] == y[i]);
    }
    if !a.contains(',') {
        let none = Seq::<char>::empty();
        lemma_split_tail(none, a, ',');
        assert(none + a =~= a);
        assert(split(none, ',') =~= seq![none]);
        assert(x =~= seq![a]);
        assert(x[0] == a);
    }
}

/// A result may be cached exactly where its tool is verified and known by its content, and the
/// worker says that it ran that very content.
pub proof fn law_results_of_the_same_tool_are_recorded(
    digest: String,
    path: String,
    reported: Seq<char>,
)
    ensures
        may_record(true, ToolchainIdentity::Content { digest, path }, reported) <==> reported.len()
            > 0 && reported == digest@,
        !may_record(false, ToolchainIdentity::Content { digest, path }, reported),
        !may_record(true, ToolchainIdentity::NameOnly { digest, argv0: path }, reported),
{
}

} // verus!
