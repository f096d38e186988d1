//! Lexical rules of file paths, on Windows and on Unix.
//!
//! On Windows both `\` and `/` separate components, and a path can begin with a
//! prefix: a drive (`c:`), a server and a share (`\\server\share`), a device
//! (`\\.\device`), or a verbatim prefix (`\\?\`), behind which only `\` separates and
//! `.` is a name like any other. On Unix `/` alone separates, and there are no
//! prefixes.

use crate::fileserver::paths::{backslashed, to_backslashes};
use crate::text::{
    chars_of, is_ascii_letter, join, joined, lemma_split_tail, lower, same_ignoring_case, same_text, split,
    split_at_char, string_of, texts,
};
use vstd::prelude::*;

verus! {

/// Whose rules the paths of a machine follow.
#[derive(Clone, Copy, Debug, PartialEq, Eq, Structural)]
pub enum PathStyle {
    Windows,
    Unix,
}

/// Whether a character separates components on Windows.
pub open spec fn is_sep(c: char) -> bool {
    c == '\\' || c == '/'
}

pub fn is_separator(c: char) -> (r: bool)
    ensures
        r == is_sep(c),
{
    c == '\\' || c == '/'
}

/// Whether a character separates components; `verbatim` tells whether the path begins
/// with a verbatim prefix.
pub open spec fn separates(style: PathStyle, verbatim: bool, c: char) -> bool {
    match style {
        PathStyle::Windows => c == '\\' || (c == '/' && !verbatim),
        PathStyle::Unix => c == '/',
    }
}

fn is_separating(style: PathStyle, verbatim: bool, c: char) -> (r: bool)
    ensures
        r == separates(style, verbatim, c),
{
    match style {
        PathStyle::Windows => c == '\\' || (c == '/' && !verbatim),
        PathStyle::Unix => c == '/',
    }
}

/// Whether a path begins with a drive.
pub open spec fn has_drive(p: Seq<char>) -> bool {
    p.len() >= 2 && is_ascii_letter(p[0]) && p[1] == ':'
}

/// Whether a path begins with two separators.
pub open spec fn is_network(p: Seq<char>) -> bool {
    p.len() >= 2 && is_sep(p[0]) && is_sep(p[1])
}

/// How many characters of `p`, from `from` on, stand before the next separator.
pub open spec fn run_length(p: Seq<char>, from: int, verbatim: bool) -> int
    decreases p.len() - from,
{
    if from < 0 || from >= p.len() || separates(PathStyle::Windows, verbatim, p[from]) {
        0
    } else {
        1 + run_length(p, from + 1, verbatim)
    }
}

/// What a path begins with.
#[derive(Clone, Copy, Debug, PartialEq, Eq, Structural)]
pub enum PrefixKind {
    Absent,
    Drive,
    /// A server and a share, or a device.
    Share,
    Verbatim,
}

/// Whether a path begins with a verbatim prefix. It is written with `\` alone.
pub open spec fn begins_verbatim(p: Seq<char>) -> bool {
    p.len() >= 4 && p[0] == '\\' && p[1] == '\\' && p[2] == '?' && p[3] == '\\'
}

/// Whether a path begins with the prefix of a device.
pub open spec fn begins_device(p: Seq<char>) -> bool {
    p.len() >= 4 && is_network(p) && p[2] == '.' && is_sep(p[3])
}

/// Whether a verbatim path names a server.
pub open spec fn begins_verbatim_share(p: Seq<char>) -> bool {
    p.len() >= 8 && p[4] == 'U' && p[5] == 'N' && p[6] == 'C' && is_sep(p[7])
}

/// Whether a verbatim path names a drive, and nothing more before its root.
pub open spec fn begins_verbatim_drive(p: Seq<char>) -> bool {
    p.len() >= 6 && is_ascii_letter(p[4]) && p[5] == ':' && (p.len() == 6 || is_sep(p[6]))
}

/// How long the prefix of a verbatim path is.
pub open spec fn verbatim_length(p: Seq<char>) -> int {
    if begins_verbatim_share(p) {
        let server = 8 + run_length(p, 8, true);
        let share = run_length(p, server + 1, true);
        if share > 0 {
            server + 1 + share
        } else {
            server
        }
    } else if begins_verbatim_drive(p) {
        6
    } else {
        4 + run_length(p, 4, true)
    }
}

/// The prefix of a Windows path, and how long it is.
pub open spec fn windows_prefix(p: Seq<char>) -> (PrefixKind, int) {
    if begins_verbatim(p) {
        (PrefixKind::Verbatim, verbatim_length(p))
    } else if begins_device(p) {
        (PrefixKind::Share, 4 + run_length(p, 4, false))
    } else if is_network(p) {
        let server = run_length(p, 2, false);
        let share = run_length(p, 3 + server, false);
        if server > 0 && share > 0 {
            (PrefixKind::Share, 3 + server + share)
        } else {
            (PrefixKind::Absent, 0)
        }
    } else if has_drive(p) {
        (PrefixKind::Drive, 2)
    } else {
        (PrefixKind::Absent, 0)
    }
}

/// The prefix of a path, and how long it is.
pub open spec fn prefix_of(style: PathStyle, p: Seq<char>) -> (PrefixKind, int) {
    match style {
        PathStyle::Windows => windows_prefix(p),
        PathStyle::Unix => (PrefixKind::Absent, 0),
    }
}

pub open spec fn is_verbatim(style: PathStyle, p: Seq<char>) -> bool {
    prefix_of(style, p).0 == PrefixKind::Verbatim
}

/// Whether a separator stands behind the prefix of a path.
pub open spec fn is_rooted(style: PathStyle, p: Seq<char>) -> bool {
    let n = prefix_of(style, p).1;
    n < p.len() && separates(style, false, p[n])
}

/// Where the components of a path begin: behind its prefix and its root.
pub open spec fn body_start(style: PathStyle, p: Seq<char>) -> int {
    prefix_of(style, p).1 + if is_rooted(style, p) {
        1int
    } else {
        0
    }
}

/// Whether a path says by itself which file it means.
pub open spec fn is_absolute(style: PathStyle, p: Seq<char>) -> bool {
    match style {
        PathStyle::Windows => match prefix_of(style, p).0 {
            PrefixKind::Absent => false,
            PrefixKind::Drive => is_rooted(style, p),
            PrefixKind::Share => true,
            PrefixKind::Verbatim => true,
        },
        PathStyle::Unix => is_rooted(style, p),
    }
}

proof fn lemma_run_fits(p: Seq<char>, from: int, verbatim: bool)
    requires
        0 <= from <= p.len(),
    ensures
        0 <= run_length(p, from, verbatim) <= p.len() - from,
    decreases p.len() - from,
{
    if from < p.len() {
        lemma_run_fits(p, from + 1, verbatim);
    }
}

/// A prefix is part of its path.
pub proof fn lemma_prefix_fits(style: PathStyle, p: Seq<char>)
    ensures
        0 <= prefix_of(style, p).1 <= body_start(style, p) <= p.len(),
{
    if begins_verbatim(p) {
        lemma_run_fits(p, 4, true);
        if begins_verbatim_share(p) {
            lemma_run_fits(p, 8, true);
            let server = 8 + run_length(p, 8, true);
            if server < p.len() {
                lemma_run_fits(p, server + 1, true);
            }
        }
    } else if begins_device(p) {
        lemma_run_fits(p, 4, false);
    } else if is_network(p) {
        lemma_run_fits(p, 2, false);
        let server = 2 + run_length(p, 2, false);
        if server < p.len() {
            lemma_run_fits(p, server + 1, false);
        }
    }
}

fn run_of(chars: &Vec<char>, from: usize, verbatim: bool) -> (r: usize)
    ensures
        r == run_length(chars@, from as int, verbatim),
        from <= chars@.len() ==> from + r <= chars@.len(),
{
    let mut i: usize = from;
    while i < chars.len() && !is_separating(PathStyle::Windows, verbatim, chars[i])
        invariant
            from <= i,
            i <= chars@.len() || i == from,
            from + run_length(chars@, from as int, verbatim) == i + run_length(
                chars@,
                i as int,
                verbatim,
            ),
        decreases chars@.len() - i,
    {
        i = i + 1;
    }
    i - from
}

fn drive_at(chars: &Vec<char>, i: usize) -> (r: bool)
    requires
        i + 2 <= usize::MAX,
    ensures
        r == (chars@.len() >= i + 2 && is_ascii_letter(chars@[i as int]) && chars@[i + 1] == ':'),
{
    chars.len() >= i + 2 && chars[i + 1] == ':' && (('A' <= chars[i] && chars[i] <= 'Z') || ('a'
        <= chars[i] && chars[i] <= 'z'))
}

fn windows_prefix_of(chars: &Vec<char>) -> (r: (PrefixKind, usize))
    ensures
        windows_prefix(chars@) == (r.0, r.1 as int),
        r.1 <= chars@.len(),
{
    let n: usize = chars.len();
    proof {
        lemma_prefix_fits(PathStyle::Windows, chars@);
    }
    if n >= 4 && chars[0] == '\\' && chars[1] == '\\' && chars[2] == '?' && chars[3] == '\\' {
        if n >= 8 && chars[4] == 'U' && chars[5] == 'N' && chars[6] == 'C' && is_separator(chars[7]) {
            let server: usize = 8 + run_of(chars, 8, true);
            if server >= n {
                return (PrefixKind::Verbatim, server);
            }
            let share: usize = run_of(chars, server + 1, true);
            if share > 0 {
                return (PrefixKind::Verbatim, server + 1 + share);
            }
            return (PrefixKind::Verbatim, server);
        }
        if n >= 6 && drive_at(chars, 4) && (n == 6 || is_separator(chars[6])) {
            return (PrefixKind::Verbatim, 6);
        }
        return (PrefixKind::Verbatim, 4 + run_of(chars, 4, true));
    }
    if n >= 2 && is_separator(chars[0]) && is_separator(chars[1]) {
        if n >= 4 && chars[2] == '.' && is_separator(chars[3]) {
            return (PrefixKind::Share, 4 + run_of(chars, 4, false));
        }
        let server: usize = run_of(chars, 2, false);
        if server == 0 || 2 + server >= n {
            return (PrefixKind::Absent, 0);
        }
        let share: usize = run_of(chars, 3 + server, false);
        if share == 0 {
            return (PrefixKind::Absent, 0);
        }
        return (PrefixKind::Share, 3 + server + share);
    }
    if drive_at(chars, 0) {
        return (PrefixKind::Drive, 2);
    }
    (PrefixKind::Absent, 0)
}

fn prefix_at(style: PathStyle, chars: &Vec<char>) -> (r: (PrefixKind, usize))
    ensures
        prefix_of(style, chars@) == (r.0, r.1 as int),
        r.1 <= chars@.len(),
{
    match style {
        PathStyle::Windows => windows_prefix_of(chars),
        PathStyle::Unix => (PrefixKind::Absent, 0),
    }
}

/// Whether a path says by itself which file it means.
pub fn is_absolute_path(style: PathStyle, path: &str) -> (r: bool)
    ensures
        r == is_absolute(style, path@),
{
    let chars = chars_of(path);
    let (kind, n) = prefix_at(style, &chars);
    let rooted = n < chars.len() && is_separating(style, false, chars[n]);
    match kind {
        PrefixKind::Absent => style == PathStyle::Unix && rooted,
        PrefixKind::Drive => rooted,
        PrefixKind::Share => true,
        PrefixKind::Verbatim => true,
    }
}

/// The part of `s` behind its last separator.
pub open spec fn last_component(s: Seq<char>) -> Seq<char>
    decreases s.len(),
{
    if s.len() == 0 || is_sep(s.last()) {
        Seq::empty()
    } else {
        last_component(s.drop_last()).push(s.last())
    }
}

proof fn lemma_last_component(s: Seq<char>, i: int)
    requires
        0 <= i <= s.len(),
        forall|j: int| i <= j < s.len() ==> !is_sep(#[trigger] s[j]),
        i > 0 ==> is_sep(s[i - 1]),
    ensures
        last_component(s) == s.skip(i),
    decreases s.len(),
{
    if i < s.len() {
        let t = s.drop_last();
        assert forall|j: int| i <= j < t.len() implies !is_sep(#[trigger] t[j]) by {
            assert(t[j] == s[j]);
        }
        lemma_last_component(t, i);
        assert(!is_sep(s[s.len() - 1]));
        assert(s.skip(i) =~= t.skip(i).push(s.last()));
    } else {
        assert(s.skip(i) =~= Seq::<char>::empty());
    }
}

/// The part of `path` behind its last separator.
pub fn base_name(path: &str) -> (r: String)
    ensures
        r@ == last_component(path@),
{
    let chars = chars_of(path);
    let mut start: usize = chars.len();
    while start > 0 && !is_separator(chars[start - 1])
        invariant
            start <= chars@.len(),
            forall|j: int| start <= j < chars@.len() ==> !is_sep(#[trigger] chars@[j]),
        decreases start,
    {
        start = start - 1;
    }
    proof {
        lemma_last_component(path@, start as int);
    }
    let r = string_of(&chars, start, chars.len());
    assert(r@ =~= path@.skip(start as int));
    r
}

/// What a path comes to without the separators at its end, and without the `.` there
/// that stand for nothing; `rooted` tells whether a root stands before `s`.
pub open spec fn tidy(style: PathStyle, verbatim: bool, rooted: bool, s: Seq<char>) -> Seq<char>
    decreases s.len(),
{
    if s.len() > 0 && separates(style, verbatim, s.last()) {
        tidy(style, verbatim, rooted, s.drop_last())
    } else if !verbatim && s.len() > 0 && s.last() == '.' && (if s.len() == 1 {
        rooted
    } else {
        separates(style, verbatim, s[s.len() - 2])
    }) {
        tidy(style, verbatim, rooted, s.drop_last())
    } else {
        s
    }
}

/// The part of `s` behind its last separator.
pub open spec fn last_part(style: PathStyle, verbatim: bool, s: Seq<char>) -> Seq<char>
    decreases s.len(),
{
    if s.len() == 0 || separates(style, verbatim, s.last()) {
        Seq::empty()
    } else {
        last_part(style, verbatim, s.drop_last()).push(s.last())
    }
}

/// The components of a path, tidied at their end.
pub open spec fn tidy_body(style: PathStyle, p: Seq<char>) -> Seq<char> {
    tidy(style, is_verbatim(style, p), is_rooted(style, p), p.skip(body_start(style, p)))
}

/// The path, tidied at its end.
pub open spec fn tidy_path(style: PathStyle, p: Seq<char>) -> Seq<char> {
    p.take(body_start(style, p)) + tidy_body(style, p)
}

/// The last component of a path; empty where it has none.
pub open spec fn last_name(style: PathStyle, p: Seq<char>) -> Seq<char> {
    last_part(style, is_verbatim(style, p), tidy_body(style, p))
}

/// The name of the file that a path means, if it names one.
pub open spec fn file_name(style: PathStyle, p: Seq<char>) -> Option<Seq<char>> {
    let n = last_name(style, p);
    if n.len() == 0 || n == "."@ || n == ".."@ {
        None
    } else {
        Some(n)
    }
}

/// The directory that a path leads to before its last component, if it has one.
pub open spec fn parent(style: PathStyle, p: Seq<char>) -> Option<Seq<char>> {
    let body = tidy_body(style, p);
    let n = last_name(style, p);
    if n.len() == 0 {
        None
    } else {
        Some(
            p.take(body_start(style, p)) + tidy(
                style,
                is_verbatim(style, p),
                is_rooted(style, p),
                body.take(body.len() - n.len()),
            ),
        )
    }
}

/// Tidying takes from the end alone.
pub proof fn lemma_tidy_is_a_front(style: PathStyle, verbatim: bool, rooted: bool, s: Seq<char>)
    ensures
        tidy(style, verbatim, rooted, s).len() <= s.len(),
        tidy(style, verbatim, rooted, s) == s.take(tidy(style, verbatim, rooted, s).len() as int),
    decreases s.len(),
{
    let t = tidy(style, verbatim, rooted, s);
    if s.len() > 0 {
        lemma_tidy_is_a_front(style, verbatim, rooted, s.drop_last());
        if t == tidy(style, verbatim, rooted, s.drop_last()) {
            assert(s.drop_last().take(t.len() as int) =~= s.take(t.len() as int));
        } else {
            assert(t =~= s.take(t.len() as int));
        }
    } else {
        assert(t =~= s.take(0));
    }
}

/// The last part of a path stands at its end.
pub proof fn lemma_last_part_is_an_end(style: PathStyle, verbatim: bool, s: Seq<char>)
    ensures
        last_part(style, verbatim, s).len() <= s.len(),
        last_part(style, verbatim, s) == s.skip(s.len() - last_part(style, verbatim, s).len()),
    decreases s.len(),
{
    let n = last_part(style, verbatim, s);
    if s.len() > 0 && !separates(style, verbatim, s.last()) {
        lemma_last_part_is_an_end(style, verbatim, s.drop_last());
    }
    assert(n =~= s.skip(s.len() - n.len()));
}

/// The name of a file is made of characters of its path.
pub proof fn lemma_last_name_is_of_the_path(style: PathStyle, p: Seq<char>)
    ensures
        forall|i: int|
            0 <= i < last_name(style, p).len() ==> p.contains(#[trigger] last_name(style, p)[i]),
{
    let start = body_start(style, p);
    let s = p.skip(start);
    let body = tidy_body(style, p);
    let n = last_name(style, p);
    lemma_prefix_fits(style, p);
    lemma_tidy_is_a_front(style, is_verbatim(style, p), is_rooted(style, p), s);
    lemma_last_part_is_an_end(style, is_verbatim(style, p), body);
    assert forall|i: int| 0 <= i < n.len() implies p.contains(#[trigger] n[i]) by {
        assert(n[i] == body[body.len() - n.len() + i]);
        assert(body[body.len() - n.len() + i] == p[start + (body.len() - n.len() + i)]);
    }
}

/// How a path is taken apart.
struct Parts {
    chars: Vec<char>,
    verbatim: bool,
    rooted: bool,
    start: usize,
    /// Where the tidied components end.
    end: usize,
}

impl Parts {
    spec fn of(self, style: PathStyle, p: Seq<char>) -> bool {
        &&& self.chars@ == p
        &&& self.verbatim == is_verbatim(style, p)
        &&& self.rooted == is_rooted(style, p)
        &&& self.start == body_start(style, p)
        &&& self.start <= self.end <= p.len()
        &&& tidy_body(style, p) == p.subrange(self.start as int, self.end as int)
    }
}

fn tidy_end_of(
    style: PathStyle,
    verbatim: bool,
    rooted: bool,
    chars: &Vec<char>,
    start: usize,
    end: usize,
) -> (r: usize)
    requires
        start <= end <= chars@.len(),
    ensures
        start <= r <= end,
        tidy(style, verbatim, rooted, chars@.subrange(start as int, end as int))
            == chars@.subrange(start as int, r as int),
{
    let mut i: usize = end;
    loop
        invariant
            start <= i <= end <= chars@.len(),
            tidy(style, verbatim, rooted, chars@.subrange(start as int, end as int)) == tidy(
                style,
                verbatim,
                rooted,
                chars@.subrange(start as int, i as int),
            ),
        decreases i,
    {
        let ghost s = chars@.subrange(start as int, i as int);
        if i == start {
            return i;
        }
        assert(s.drop_last() =~= chars@.subrange(start as int, i - 1));
        assert(s.last() == chars@[i - 1]);
        let c: char = chars[i - 1];
        let lone_dot = !verbatim && c == '.' && (if i - start == 1 {
            rooted
        } else {
            is_separating(style, verbatim, chars[i - 2])
        });
        if !is_separating(style, verbatim, c) && !lone_dot {
            return i;
        }
        i = i - 1;
    }
}

fn last_part_of(
    style: PathStyle,
    verbatim: bool,
    chars: &Vec<char>,
    start: usize,
    end: usize,
) -> (r: usize)
    requires
        start <= end <= chars@.len(),
    ensures
        start <= r <= end,
        last_part(style, verbatim, chars@.subrange(start as int, end as int)) == chars@.subrange(
            r as int,
            end as int,
        ),
{
    let mut i: usize = start;
    let mut r: usize = start;
    assert(chars@.subrange(start as int, start as int) =~= Seq::<char>::empty());
    while i < end
        invariant
            start <= r <= i <= end <= chars@.len(),
            last_part(style, verbatim, chars@.subrange(start as int, i as int))
                == chars@.subrange(r as int, i as int),
        decreases end - i,
    {
        let ghost now = chars@.subrange(start as int, i + 1);
        assert(now.drop_last() =~= chars@.subrange(start as int, i as int));
        assert(now.last() == chars@[i as int]);
        if is_separating(style, verbatim, chars[i]) {
            r = i + 1;
        }
        i = i + 1;
        assert(last_part(style, verbatim, now) =~= chars@.subrange(r as int, i as int));
    }
    r
}

fn parts_of(style: PathStyle, path: &str) -> (r: Parts)
    ensures
        r.of(style, path@),
{
    let chars = chars_of(path);
    let (kind, n) = prefix_at(style, &chars);
    let rooted = n < chars.len() && is_separating(style, false, chars[n]);
    let start: usize = if rooted {
        n + 1
    } else {
        n
    };
    let verbatim = kind == PrefixKind::Verbatim;
    let end: usize = tidy_end_of(style, verbatim, rooted, &chars, start, chars.len());
    assert(path@.skip(start as int) =~= path@.subrange(start as int, path@.len() as int));
    Parts { chars, verbatim, rooted, start, end }
}

/// The path, tidied at its end.
pub fn tidied(style: PathStyle, path: &str) -> (r: String)
    ensures
        r@ == tidy_path(style, path@),
{
    let parts = parts_of(style, path);
    let r = string_of(&parts.chars, 0, parts.end);
    assert(r@ =~= tidy_path(style, path@));
    r
}

/// The last component of a path.
pub fn last_name_of(style: PathStyle, path: &str) -> (r: String)
    ensures
        r@ == last_name(style, path@),
{
    let parts = parts_of(style, path);
    let from: usize = last_part_of(style, parts.verbatim, &parts.chars, parts.start, parts.end);
    string_of(&parts.chars, from, parts.end)
}

/// The name of the file that a path means.
pub fn file_name_of(style: PathStyle, path: &str) -> (r: Option<String>)
    ensures
        match file_name(style, path@) {
            Some(n) => r matches Some(s) && s@ == n,
            None => r is None,
        },
{
    let name = last_name_of(style, path);
    if name.as_str().is_empty() || same_text(name.as_str(), ".") || same_text(name.as_str(), "..") {
        None
    } else {
        Some(name)
    }
}

/// The directory that a path leads to before its last component.
pub fn parent_of(style: PathStyle, path: &str) -> (r: Option<String>)
    ensures
        match parent(style, path@) {
            Some(d) => r matches Some(s) && s@ == d,
            None => r is None,
        },
{
    let parts = parts_of(style, path);
    let from: usize = last_part_of(style, parts.verbatim, &parts.chars, parts.start, parts.end);
    let ghost body = tidy_body(style, path@);
    let ghost n = last_name(style, path@);
    if from == parts.end {
        assert(n.len() == 0);
        return None;
    }
    let end: usize = tidy_end_of(
        style,
        parts.verbatim,
        parts.rooted,
        &parts.chars,
        parts.start,
        from,
    );
    assert(body.take(body.len() - n.len()) =~= path@.subrange(parts.start as int, from as int));
    let r = string_of(&parts.chars, 0, end);
    assert(r@ =~= parent(style, path@)->0);
    Some(r)
}

/// The components among `pieces`: those that are not empty.
pub open spec fn named(pieces: Seq<Seq<char>>) -> Seq<Seq<char>>
    decreases pieces.len(),
{
    if pieces.len() == 0 {
        Seq::empty()
    } else {
        let before = named(pieces.drop_last());
        if pieces.last().len() == 0 {
            before
        } else {
            before.push(pieces.last())
        }
    }
}

/// Where the components `names` lead to by one more step: `.` stays, and `..` takes a
/// component back unless that is itself `.` or `..`.
pub open spec fn stepped(names: Seq<Seq<char>>, step: Seq<char>) -> Seq<Seq<char>> {
    if step.len() == 0 || step == "."@ {
        names
    } else if step == ".."@ {
        if names.len() > 0 && names.last() != "."@ && names.last() != ".."@ {
            names.drop_last()
        } else {
            names
        }
    } else {
        names.push(step)
    }
}

/// Where the components `names` lead to by the steps `steps`.
pub open spec fn walked(names: Seq<Seq<char>>, steps: Seq<Seq<char>>) -> Seq<Seq<char>>
    decreases steps.len(),
{
    if steps.len() == 0 {
        names
    } else {
        stepped(walked(names, steps.drop_last()), steps.last())
    }
}

/// No step is written down: where the components hold no `.` and no `..`, they hold none
/// after any steps.
pub proof fn law_steps_are_not_written_down(names: Seq<Seq<char>>, steps: Seq<Seq<char>>)
    requires
        forall|i: int| 0 <= i < names.len() ==> #[trigger] names[i] != "."@ && names[i] != ".."@,
    ensures
        forall|i: int|
            0 <= i < walked(names, steps).len() ==> #[trigger] walked(names, steps)[i] != "."@
                && walked(names, steps)[i] != ".."@,
    decreases steps.len(),
{
    if steps.len() > 0 {
        law_steps_are_not_written_down(names, steps.drop_last());
        let before = walked(names, steps.drop_last());
        let now = walked(names, steps);
        assert forall|i: int| 0 <= i < now.len() implies #[trigger] now[i] != "."@ && now[i]
            != ".."@ by {
            if i < before.len() {
                assert(now[i] == before[i]);
            }
        }
    }
}

/// The components of a verbatim path.
pub open spec fn verbatim_names(p: Seq<char>) -> Seq<Seq<char>> {
    named(split(p.skip(body_start(PathStyle::Windows, p)), '\\'))
}

/// `tail`, which is not empty and has no prefix, as seen from the verbatim path `base`:
/// there the steps are taken, and not written down.
pub open spec fn verbatim_join(base: Seq<char>, tail: Seq<char>) -> Seq<char> {
    let prefix = base.take(windows_prefix(base).1);
    let anew = is_sep(tail[0]);
    let names = walked(
        if anew {
            Seq::empty()
        } else {
            verbatim_names(base)
        },
        split(backslashed(tail), '\\'),
    );
    if anew || is_rooted(PathStyle::Windows, base) || names.len() > 0 {
        prefix + "\\"@ + join(names, "\\"@)
    } else {
        prefix
    }
}

/// `tail` as seen from `base`. On Windows a tail with a prefix of its own stands alone;
/// one that begins with a separator replaces all but the prefix of `base`; any other
/// goes behind `base`, with a separator between the two unless there is one already or
/// `base` is a bare drive. What is seen from a verbatim path takes its steps there. On
/// Unix a tail that begins with a separator stands alone, and any other goes behind
/// `base`.
pub open spec fn path_join(style: PathStyle, base: Seq<char>, tail: Seq<char>) -> Seq<char> {
    match style {
        PathStyle::Windows => if windows_prefix(tail).0 != PrefixKind::Absent {
            tail
        } else if windows_prefix(base).0 == PrefixKind::Verbatim && tail.len() > 0 {
            verbatim_join(base, tail)
        } else if tail.len() > 0 && is_sep(tail[0]) {
            base.take(windows_prefix(base).1) + tail
        } else if base.len() == 0 || is_sep(base.last()) || windows_prefix(base) == (
            PrefixKind::Drive,
            base.len() as int,
        ) {
            base + tail
        } else {
            base.push('\\') + tail
        },
        PathStyle::Unix => if tail.len() > 0 && tail[0] == '/' {
            tail
        } else if base.len() == 0 || base.last() == '/' {
            base + tail
        } else {
            base.push('/') + tail
        },
    }
}

fn named_of(pieces: Vec<String>) -> (r: Vec<String>)
    ensures
        texts(r@) == named(texts(pieces@)),
{
    let ghost all = texts(pieces@);
    let mut r: Vec<String> = Vec::new();
    let mut i: usize = 0;
    assert(texts(r@) =~= named(all.take(0)));
    while i < pieces.len()
        invariant
            i <= pieces@.len(),
            all == texts(pieces@),
            texts(r@) == named(all.take(i as int)),
        decreases pieces@.len() - i,
    {
        assert(all.take(i + 1).drop_last() =~= all.take(i as int));
        assert(all.take(i + 1).last() == pieces@[i as int]@);
        if !pieces[i].as_str().is_empty() {
            let ghost before = r@;
            r.push(pieces[i].clone());
            assert(texts(r@) =~= texts(before).push(pieces@[i as int]@));
        }
        i = i + 1;
    }
    assert(all.take(i as int) =~= all);
    r
}

fn step(names: &mut Vec<String>, piece: &str)
    ensures
        texts(final(names)@) == stepped(texts(old(names)@), piece@),
{
    let ghost before = names@;
    if piece.is_empty() || same_text(piece, ".") {
        return;
    }
    if same_text(piece, "..") {
        if names.len() > 0 {
            let n: usize = names.len() - 1;
            assert(texts(names@).last() == names@[n as int]@);
            if !same_text(names[n].as_str(), ".") && !same_text(names[n].as_str(), "..") {
                names.pop();
                assert(texts(names@) =~= texts(before).drop_last());
            }
        }
        return;
    }
    let piece = piece.to_owned();
    let ghost s = piece@;
    names.push(piece);
    assert(texts(names@) =~= texts(before).push(s));
}

fn walk(names: &mut Vec<String>, steps: &Vec<String>)
    ensures
        texts(final(names)@) == walked(texts(old(names)@), texts(steps@)),
{
    let ghost start = texts(names@);
    let ghost all = texts(steps@);
    let mut i: usize = 0;
    assert(all.take(0) =~= Seq::<Seq<char>>::empty());
    while i < steps.len()
        invariant
            i <= steps@.len(),
            all == texts(steps@),
            texts(names@) == walked(start, all.take(i as int)),
        decreases steps@.len() - i,
    {
        assert(all.take(i + 1).drop_last() =~= all.take(i as int));
        assert(all.take(i + 1).last() == steps@[i as int]@);
        step(names, steps[i].as_str());
        i = i + 1;
    }
    assert(all.take(i as int) =~= all);
}

fn join_verbatim(front: &Vec<char>, prefix: usize, tail: &str) -> (r: String)
    requires
        prefix == windows_prefix(front@).1,
        prefix <= front@.len(),
        tail@.len() > 0,
    ensures
        r@ == verbatim_join(front@, tail@),
{
    let back = chars_of(tail);
    let anew = is_separator(back[0]);
    let rooted = prefix < front.len() && is_separator(front[prefix]);
    let mut names: Vec<String> = Vec::new();
    if !anew {
        let start: usize = if rooted {
            prefix + 1
        } else {
            prefix
        };
        let body = string_of(front, start, front.len());
        assert(body@ =~= front@.skip(body_start(PathStyle::Windows, front@)));
        names = named_of(split_at_char(body.as_str(), '\\'));
    } else {
        assert(texts(names@) =~= Seq::<Seq<char>>::empty());
    }
    walk(&mut names, &split_at_char(to_backslashes(tail).as_str(), '\\'));
    let mut r = string_of(front, 0, prefix);
    assert(r@ =~= front@.take(prefix as int));
    assert(texts(names@).len() == names@.len());
    if anew || rooted || names.len() > 0 {
        r.append("\\");
        r.append(joined(&names, "\\").as_str());
    }
    r
}

/// `tail` as seen from `base`.
pub fn join_path(style: PathStyle, base: &str, tail: &str) -> (r: String)
    ensures
        r@ == path_join(style, base@, tail@),
{
    let front = chars_of(base);
    let back = chars_of(tail);
    let mut r = base.to_owned();
    match style {
        PathStyle::Windows => {
            let (own, _) = windows_prefix_of(&back);
            if own != PrefixKind::Absent {
                return tail.to_owned();
            }
            let (kind, n) = windows_prefix_of(&front);
            if kind == PrefixKind::Verbatim && back.len() > 0 {
                return join_verbatim(&front, n, tail);
            }
            if back.len() > 0 && is_separator(back[0]) {
                let mut s = string_of(&front, 0, n);
                assert(s@ =~= base@.take(n as int));
                s.append(tail);
                return s;
            }
            if front.len() > 0 && !is_separator(front[front.len() - 1]) && !(kind
                == PrefixKind::Drive && n == front.len()) {
                r.push('\\');
            }
        },
        PathStyle::Unix => {
            if back.len() > 0 && back[0] == '/' {
                return tail.to_owned();
            }
            if front.len() > 0 && front[front.len() - 1] != '/' {
                r.push('/');
            }
        },
    }
    r.append(tail);
    r
}

/// A name of a file that stands for itself under the rules of any style.
pub open spec fn is_plain_name(name: Seq<char>) -> bool {
    &&& name.len() > 0 && name != "."@ && name != ".."@
    &&& !has_drive(name)
    &&& forall|i: int| 0 <= i < name.len() ==> !is_sep(#[trigger] name[i])
}

/// What stands before a plain name that is seen from `base`.
pub open spec fn before_name(style: PathStyle, base: Seq<char>) -> Seq<char> {
    match style {
        PathStyle::Windows => if windows_prefix(base).0 == PrefixKind::Verbatim {
            let names = verbatim_names(base);
            base.take(windows_prefix(base).1) + "\\"@ + if names.len() > 0 {
                join(names, "\\"@) + "\\"@
            } else {
                Seq::empty()
            }
        } else if base.len() == 0 || is_sep(base.last()) || windows_prefix(base) == (
            PrefixKind::Drive,
            base.len() as int,
        ) {
            base
        } else {
            base.push('\\')
        },
        PathStyle::Unix => if base.len() == 0 || base.last() == '/' {
            base
        } else {
            base.push('/')
        },
    }
}

/// A plain name is put behind a directory as it stands.
pub proof fn law_plain_names_stay(style: PathStyle, base: Seq<char>, name: Seq<char>)
    requires
        is_plain_name(name),
    ensures
        path_join(style, base, name) == before_name(style, base) + name,
{
    assert(!is_sep(name[0]));
    if style == PathStyle::Windows && windows_prefix(base).0 == PrefixKind::Verbatim {
        let names = verbatim_names(base);
        let none = Seq::<char>::empty();
        assert forall|i: int| 0 <= i < name.len() implies backslashed(name)[i] == name[i] by {
            assert(!is_sep(name[i]));
        }
        assert(backslashed(name) =~= name);
        assert(!name.contains('\\')) by {
            if name.contains('\\') {
                let i = choose|i: int| 0 <= i < name.len() && name[i] == '\\';
                assert(!is_sep(name[i]));
            }
        }
        lemma_split_tail(none, name, '\\');
        assert(none + name =~= name);
        let steps = split(name, '\\');
        assert(steps =~= seq![name]);
        assert(steps.drop_last() =~= Seq::<Seq<char>>::empty());
        assert(walked(names, steps) == names.push(name)) by {
            assert(walked(names, steps.drop_last()) == names);
        }
        assert(names.push(name).drop_last() =~= names);
        let front = base.take(windows_prefix(base).1) + "\\"@;
        if names.len() > 0 {
            assert(front + (join(names, "\\"@) + "\\"@ + name) =~= before_name(style, base) + name);
        } else {
            assert(join(names.push(name), "\\"@) == name);
            assert(front + name =~= before_name(style, base) + name);
        }
    }
}

/// A directory, and whose rules its path follows.
#[derive(Debug, Clone, PartialEq, Eq)]
pub struct RootPath {
    pub style: PathStyle,
    pub path: String,
}

/// The view of a [`RootPath`].
pub struct RootModel {
    pub style: PathStyle,
    pub path: Seq<char>,
}

impl View for RootPath {
    type V = RootModel;

    open spec fn view(&self) -> RootModel {
        RootModel { style: self.style, path: self.path@ }
    }
}

impl RootModel {
    /// `tail` as seen from the directory.
    pub open spec fn join(self, tail: Seq<char>) -> Seq<char> {
        path_join(self.style, self.path, tail)
    }
}

impl RootPath {
    pub fn new(style: PathStyle, path: &str) -> (r: RootPath)
        ensures
            r@ == (RootModel { style, path: path@ }),
    {
        RootPath { style, path: path.to_owned() }
    }

    /// `tail` as seen from the directory.
    pub fn join(&self, tail: &str) -> (r: String)
        ensures
            r@ == self@.join(tail@),
    {
        join_path(self.style, self.path.as_str(), tail)
    }
}

/// The place of the last dot of `s`, or -1.
pub open spec fn last_dot(s: Seq<char>) -> int
    decreases s.len(),
{
    if s.len() == 0 || s.last() == '.' {
        s.len() - 1
    } else {
        last_dot(s.drop_last())
    }
}

/// The part of a file name behind its last dot. A name that begins with its only
/// dot, and `..`, have none.
pub open spec fn extension(name: Seq<char>) -> Option<Seq<char>> {
    if name == ".."@ || !name.contains('.') || last_dot(name) == 0 {
        None
    } else {
        Some(name.skip(last_dot(name) + 1))
    }
}

/// A file name without its extension and the dot before it.
pub open spec fn stem(name: Seq<char>) -> Seq<char> {
    if extension(name) is Some {
        name.take(last_dot(name))
    } else {
        name
    }
}

proof fn lemma_last_dot(s: Seq<char>, i: int)
    requires
        0 <= i < s.len(),
        s[i] == '.',
        forall|j: int| i < j < s.len() ==> s[j] != '.',
    ensures
        last_dot(s) == i,
        s.contains('.'),
    decreases s.len(),
{
    assert(s.contains(s[i]));
    if i < s.len() - 1 {
        lemma_last_dot(s.drop_last(), i);
    }
}

/// Where the last dot of a name stands, if it is not at the front.
fn extension_dot(name: &str) -> (r: Option<usize>)
    ensures
        match r {
            Some(i) => extension(name@) is Some && last_dot(name@) == i && i < name@.len(),
            None => extension(name@) is None,
        },
{
    let chars = chars_of(name);
    if same_text(name, "..") {
        return None;
    }
    let mut i: usize = chars.len();
    while i > 0
        invariant
            i <= chars@.len(),
            chars@ == name@,
            name@ != ".."@,
            forall|j: int| i <= j < chars@.len() ==> chars@[j] != '.',
        decreases i,
    {
        if chars[i - 1] == '.' {
            proof {
                lemma_last_dot(name@, i - 1);
            }
            if i - 1 == 0 {
                return None;
            }
            return Some(i - 1);
        }
        i = i - 1;
    }
    None
}

/// The extension of a file name.
pub fn extension_of(name: &str) -> (r: Option<String>)
    ensures
        match extension(name@) {
            Some(e) => r matches Some(s) && s@ == e,
            None => r is None,
        },
{
    match extension_dot(name) {
        Some(i) => {
            let chars = chars_of(name);
            assert(i < chars@.len());
            let r = string_of(&chars, i + 1, chars.len());
            assert(r@ =~= name@.skip(i + 1));
            Some(r)
        },
        None => None,
    }
}

/// A file name without its extension.
pub fn stem_of(name: &str) -> (r: String)
    ensures
        r@ == stem(name@),
{
    match extension_dot(name) {
        Some(i) => {
            let chars = chars_of(name);
            let r = string_of(&chars, 0, i);
            assert(r@ =~= name@.take(i as int));
            r
        },
        None => name.to_owned(),
    }
}

/// Whether a file name has the extension `ext`, whatever the case.
pub fn has_extension(name: &str, ext: &str) -> (r: bool)
    ensures
        r == (extension(name@) is Some && lower(extension(name@)->0) == lower(ext@)),
{
    match extension_of(name) {
        Some(e) => same_ignoring_case(e.as_str(), ext),
        None => false,
    }
}

/// The last component of a path is what stands behind its last separator.
pub proof fn law_last_components_stand_behind_a_separator(
    front: Seq<char>,
    sep: char,
    name: Seq<char>,
)
    requires
        is_sep(sep),
        forall|i: int| 0 <= i < name.len() ==> name[i] != '\\' && name[i] != '/',
    ensures
        last_component(front.push(sep) + name) == name,
        last_component(name) == name,
{
    let p = front.push(sep) + name;
    let n = front.len() + 1;
    assert forall|j: int| n <= j < p.len() implies !is_sep(#[trigger] p[j]) by {
        assert(p[j] == name[j - n]);
    }
    assert(p[n - 1] == sep);
    lemma_last_component(p, n as int);
    assert(p.skip(n as int) =~= name);
    assert forall|j: int| 0 <= j < name.len() implies !is_sep(#[trigger] name[j]) by {}
    lemma_last_component(name, 0);
    assert(name.skip(0) =~= name);
}

/// A file name is its stem, a dot and its extension, which holds no dot. A name without a dot,
/// or with none but the one it begins with, has no extension.
pub proof fn law_extensions_stand_behind_the_last_dot(base: Seq<char>, ext: Seq<char>)
    requires
        !ext.contains('.'),
    ensures
        base.len() > 0 && !(base == seq!['.'] && ext.len() == 0) ==> {
            let name = base.push('.') + ext;
            extension(name) == Some(ext) && stem(name) == base
        },
        extension(ext) is None && stem(ext) == ext,
        extension(seq!['.'] + ext) is None && stem(seq!['.'] + ext) == seq!['.'] + ext,
{
    reveal_strlit("..");
    let name = base.push('.') + ext;
    let n = base.len() as int;
    assert(name[n] == '.');
    assert forall|j: int| n < j < name.len() implies name[j] != '.' by {
        assert(name[j] == ext[j - n - 1]);
        assert(ext.contains(ext[j - n - 1]));
    }
    lemma_last_dot(name, n);
    assert(name.skip(n + 1) =~= ext);
    assert(name.take(n) =~= base);
    if name == ".."@ {
        assert(name.len() == 2);
        assert(name[0] == '.' && name[1] == '.');
        if n == 1 {
            assert(base =~= seq!['.']);
        }
    }
    let hidden = seq!['.'] + ext;
    assert(hidden[0] == '.');
    assert forall|j: int| 0 < j < hidden.len() implies hidden[j] != '.' by {
        assert(hidden[j] == ext[j - 1]);
        assert(ext.contains(ext[j - 1]));
    }
    lemma_last_dot(hidden, 0);
    if ext == ".."@ {
        assert(ext[0] == '.');
        assert(ext.contains(ext[0]));
    }
}

/// How far it is to the next separator.
pub proof fn law_runs_end_at_a_separator(p: Seq<char>, from: int, verbatim: bool, n: int)
    requires
        0 <= from <= n <= p.len(),
        forall|i: int| from <= i < n ==> !separates(PathStyle::Windows, verbatim, #[trigger] p[i]),
        n == p.len() || separates(PathStyle::Windows, verbatim, p[n]),
    ensures
        run_length(p, from, verbatim) == n - from,
    decreases n - from,
{
    if from < n {
        assert(!separates(PathStyle::Windows, verbatim, p[from]));
        law_runs_end_at_a_separator(p, from + 1, verbatim, n);
    }
}

/// A path on Windows that begins with a letter and a colon has a drive for its prefix. One
/// that begins with no such thing, nor with two separators, has none.
pub proof fn law_drives_are_prefixes(p: Seq<char>)
    ensures
        p.len() >= 2 && (('a' <= p[0] && p[0] <= 'z') || ('A' <= p[0] && p[0] <= 'Z')) && p[1] == ':'
            ==> windows_prefix(p) == (PrefixKind::Drive, 2int) && (is_absolute(
            PathStyle::Windows,
            p,
        ) <==> p.len() > 2 && (p[2] == '\\' || p[2] == '/')),
        !(p.len() >= 2 && (('a' <= p[0] && p[0] <= 'z') || ('A' <= p[0] && p[0] <= 'Z')) && p[1]
            == ':') && !(p.len() >= 2 && is_sep(p[0]) && is_sep(p[1])) ==> windows_prefix(p) == (
            PrefixKind::Absent,
            0int,
        ) && !is_absolute(PathStyle::Windows, p),
        is_absolute(PathStyle::Unix, p) <==> p.len() > 0 && p[0] == '/',
        prefix_of(PathStyle::Unix, p).1 == 0,
{
}

/// A path on Windows that begins with two separators, a server, a separator and a share has
/// all of that for its prefix, and is absolute.
pub proof fn law_shares_are_prefixes(
    first: char,
    second: char,
    server: Seq<char>,
    third: char,
    share: Seq<char>,
    rest: Seq<char>,
)
    requires
        is_sep(first) && is_sep(second) && is_sep(third),
        server.len() > 0 && share.len() > 0,
        server != "?"@ && server != "."@,
        forall|i: int| 0 <= i < server.len() ==> !is_sep(#[trigger] server[i]),
        forall|i: int| 0 <= i < share.len() ==> !is_sep(#[trigger] share[i]),
        rest.len() > 0 ==> is_sep(rest[0]),
    ensures
        ({
            let p = seq![first, second] + server + seq![third] + share + rest;
            &&& windows_prefix(p) == (
                PrefixKind::Share,
                (3 + server.len() + share.len()) as int,
            )
            &&& is_absolute(PathStyle::Windows, p)
        }),
{
    reveal_strlit("?");
    reveal_strlit(".");
    let p = seq![first, second] + server + seq![third] + share + rest;
    let a = (2 + server.len()) as int;
    let b = (3 + server.len() + share.len()) as int;
    assert(p[0] == first && p[1] == second && p[a] == third);
    assert forall|i: int| 2 <= i < a implies !separates(
        PathStyle::Windows,
        false,
        #[trigger] p[i],
    ) by {
        assert(p[i] == server[i - 2]);
    }
    assert forall|i: int| a + 1 <= i < b implies !separates(
        PathStyle::Windows,
        false,
        #[trigger] p[i],
    ) by {
        assert(p[i] == share[i - a - 1]);
    }
    if rest.len() > 0 {
        assert(p[b] == rest[0]);
    }
    law_runs_end_at_a_separator(p, 2, false, a);
    law_runs_end_at_a_separator(p, a + 1, false, b);
    assert(p[2] == server[0]);
    if server.len() == 1 {
        assert(p[3] == third);
        assert(server[0] == '?' ==> server =~= "?"@);
        assert(server[0] == '.' ==> server =~= "."@);
    } else {
        assert(p[3] == server[1]);
    }
}

/// Behind a verbatim prefix a drive and the rest stand as they do without one; only a
/// backslash separates there.
pub proof fn law_verbatim_drives_are_prefixes(drive: char, rest: Seq<char>)
    requires
        ('a' <= drive && drive <= 'z') || ('A' <= drive && drive <= 'Z'),
        rest.len() > 0 ==> rest[0] == '\\',
    ensures
        ({
            let p = "\\\\?\\"@ + seq![drive, ':'] + rest;
            &&& windows_prefix(p) == (PrefixKind::Verbatim, 6int)
            &&& is_absolute(PathStyle::Windows, p)
        }),
        separates(PathStyle::Windows, true, '\\') && !separates(PathStyle::Windows, true, '/'),
        separates(PathStyle::Windows, false, '\\') && separates(PathStyle::Windows, false, '/'),
        !separates(PathStyle::Unix, false, '\\') && separates(PathStyle::Unix, false, '/'),
{
    reveal_strlit("\\\\?\\");
    let p = "\\\\?\\"@ + seq![drive, ':'] + rest;
    assert(p[0] == '\\' && p[1] == '\\' && p[2] == '?' && p[3] == '\\' && p[4] == drive && p[5]
        == ':');
    if rest.len() > 0 {
        assert(p[6] == rest[0]);
    }
}

/// The name that a path ends with, behind a separator or the prefix of the path, is the name
/// of its file, and what stands before it is its directory, without the separators and the
/// `.` at its end.
pub proof fn law_paths_end_with_the_name(style: PathStyle, p: Seq<char>, k: int)
    requires
        !is_verbatim(style, p),
        body_start(style, p) <= k < p.len(),
        k == body_start(style, p) || separates(style, false, p[k - 1]),
        forall|i: int| k <= i < p.len() ==> !separates(style, false, #[trigger] p[i]),
        p.skip(k) != "."@ && p.skip(k) != ".."@,
    ensures
        file_name(style, p) == Some(p.skip(k)),
        parent(style, p) == Some(
            p.take(body_start(style, p)) + tidy(
                style,
                false,
                is_rooted(style, p),
                p.subrange(body_start(style, p), k),
            ),
        ),
{
    reveal_strlit(".");
    lemma_prefix_fits(style, p);
    let start = body_start(style, p);
    let s = p.skip(start);
    let last = p.len() - 1;
    assert(s.last() == p[last]);
    assert(!separates(style, false, p[last]));
    if s.last() == '.' {
        if k == last {
            assert(p.skip(k) =~= "."@);
        }
        assert(!separates(style, false, p[last - 1]));
        assert(s[s.len() - 2] == p[last - 1]);
    }
    assert(tidy_body(style, p) == s);
    lemma_last_part(style, false, s, k - start);
    assert(s.skip(k - start) =~= p.skip(k));
    assert(s.take(s.len() - (p.len() - k)) =~= p.subrange(start, k));
}

proof fn lemma_last_part(style: PathStyle, verbatim: bool, s: Seq<char>, k: int)
    requires
        0 <= k <= s.len(),
        k == 0 || separates(style, verbatim, s[k - 1]),
        forall|i: int| k <= i < s.len() ==> !separates(style, verbatim, #[trigger] s[i]),
    ensures
        last_part(style, verbatim, s) == s.skip(k),
    decreases s.len(),
{
    if k < s.len() {
        let t = s.drop_last();
        assert forall|i: int| k <= i < t.len() implies !separates(
            style,
            verbatim,
            #[trigger] t[i],
        ) by {
            assert(t[i] == s[i]);
        }
        if k > 0 {
            assert(t[k - 1] == s[k - 1]);
        }
        lemma_last_part(style, verbatim, t, k);
        assert(!separates(style, verbatim, s[s.len() - 1]));
        assert(s.skip(k) =~= t.skip(k).push(s.last()));
    } else {
        assert(s.skip(k) =~= Seq::<char>::empty());
    }
}

/// What a path ends with beside names stands for nothing: separators, and a `.` behind a
/// separator; a name does not.
pub proof fn law_ends_that_stand_for_nothing_are_left_out(
    style: PathStyle,
    rooted: bool,
    s: Seq<char>,
    sep: char,
)
    requires
        separates(style, false, sep),
    ensures
        tidy(style, false, rooted, s.push(sep)) == tidy(style, false, rooted, s),
        tidy(style, false, rooted, s.push(sep).push('.')) == tidy(style, false, rooted, s),
        tidy(style, true, rooted, s.push('\\')) == if style == PathStyle::Windows {
            tidy(style, true, rooted, s)
        } else {
            s.push('\\')
        },
        s.len() > 0 && !separates(style, false, s.last()) && s.last() != '.' ==> tidy(
            style,
            false,
            rooted,
            s,
        ) == s,
{
    assert(s.push(sep).drop_last() =~= s);
    assert(s.push(sep).push('.').drop_last() =~= s.push(sep));
    assert(s.push('\\').drop_last() =~= s);
    reveal_with_fuel(tidy, 3);
}

/// Steps go one by one: a name goes down, `.` stays, and `..` undoes a name.
pub proof fn law_steps_are_taken_one_by_one(
    names: Seq<Seq<char>>,
    a: Seq<Seq<char>>,
    b: Seq<Seq<char>>,
    name: Seq<char>,
)
    requires
        name.len() > 0 && name != "."@ && name != ".."@,
    ensures
        walked(names, a + b) == walked(walked(names, a), b),
        walked(names, a.push(name)) == walked(names, a).push(name),
        walked(names, a.push("."@)) == walked(names, a),
        walked(names, a.push(name).push(".."@)) == walked(names, a),
    decreases b.len(),
{
    reveal_strlit(".");
    reveal_strlit("..");
    assert(a.push(name).drop_last() =~= a);
    assert(a.push("."@).drop_last() =~= a);
    assert(a.push(name).push(".."@).drop_last() =~= a.push(name));
    assert(walked(names, a).push(name).drop_last() =~= walked(names, a));
    if b.len() == 0 {
        assert(a + b =~= a);
    } else {
        assert((a + b).drop_last() =~= a + b.drop_last());
        assert((a + b).last() == b.last());
        law_steps_are_taken_one_by_one(names, a, b.drop_last(), name);
    }
}

/// A relative path goes behind a directory, with one separator between the two; an absolute
/// one stands alone.
pub proof fn law_relative_paths_go_behind_a_directory(base: Seq<char>, tail: Seq<char>)
    ensures
        tail.len() > 0 && tail[0] == '/' ==> path_join(PathStyle::Unix, base, tail) == tail,
        !(tail.len() > 0 && tail[0] == '/') && base.len() > 0 && base.last() != '/' ==> path_join(
            PathStyle::Unix,
            base,
            tail,
        ) == base + seq!['/'] + tail,
        !(tail.len() > 0 && tail[0] == '/') && (base.len() == 0 || base.last() == '/')
            ==> path_join(PathStyle::Unix, base, tail) == base + tail,
        is_absolute(PathStyle::Windows, tail) ==> path_join(PathStyle::Windows, base, tail) == tail,
        windows_prefix(tail).0 == PrefixKind::Absent && !is_verbatim(PathStyle::Windows, base)
            && !(tail.len() > 0 && is_sep(tail[0])) && base.len() > 2 && !is_sep(base.last())
            && has_drive(base) ==> path_join(PathStyle::Windows, base, tail) == base + seq!['\\']
            + tail,
        tail.len() > 0 && is_sep(tail[0]) && windows_prefix(tail).0 == PrefixKind::Absent
            && has_drive(base) ==> path_join(PathStyle::Windows, base, tail) == base.take(2) + tail,
{
    assert(base.push('/') + tail =~= base + seq!['/'] + tail);
    assert(base.push('\\') + tail =~= base + seq!['\\'] + tail);
}

/// A path that ends in `..` behind a separator names no file, and its last component is that.
pub proof fn law_climbing_paths_name_no_file(style: PathStyle, p: Seq<char>, k: int)
    requires
        !is_verbatim(style, p),
        body_start(style, p) <= k < p.len(),
        k == body_start(style, p) || separates(style, false, p[k - 1]),
        p.skip(k) == ".."@,
    ensures
        last_name(style, p) == ".."@,
        file_name(style, p) is None,
{
    reveal_strlit("..");
    lemma_prefix_fits(style, p);
    let start = body_start(style, p);
    let s = p.skip(start);
    let n = p.len() as int;
    assert(p.skip(k).len() == 2);
    assert(p[k] == p.skip(k)[0] && p[k + 1] == p.skip(k)[1]);
    assert(s.last() == p[n - 1] && s[s.len() - 2] == p[n - 2]);
    assert(tidy_body(style, p) == s);
    lemma_last_part(style, false, s, k - start);
    assert(s.skip(k - start) =~= p.skip(k));
}

} // verus!
