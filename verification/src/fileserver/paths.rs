//! Lexical path rules: normal forms, scope and remapping.
//!
//! Paths are compared in lower case with `\` as the separator. A requested path
//! is brought into a normal form without `.` and `..` before it is compared, and
//! whatever has no such form is out of scope.

use crate::filepath::{RootModel, RootPath};
use crate::text::{
    chars_of, has_char, is_ascii_digit, is_ascii_letter, join, joined, lemma_split_at_sep,
    lemma_split_join, lemma_split_nonempty, lemma_split_pieces_are_clean, lower, lower_char,
    same_text, split, split_at_char, string_of, texts, to_upper, upper, upper_char,
};
use vstd::prelude::*;
use vstd::utf8::is_ascii_chars;

verus! {

/// The Unicode lower-case form of a text.
pub uninterp spec fn unicode_lower(s: Seq<char>) -> Seq<char>;

/// `str::to_lowercase`: the lower-case form is a function of the text alone, and
/// that of an ASCII text is its ASCII lower case.
#[verifier::external_body]
fn lowercase_of(s: &str) -> (r: String)
    ensures
        r@ == unicode_lower(s@),
        is_ascii_chars(s@) ==> r@ == lower(s@),
{
    s.to_lowercase()
}

/// `s` with every `/` written as `\`.
pub open spec fn backslashed(s: Seq<char>) -> Seq<char> {
    Seq::new(
        s.len(),
        |i: int|
            if s[i] == '/' {
                '\\'
            } else {
                s[i]
            },
    )
}

/// A text with each `/` replaced by a backslash.
pub fn to_backslashes(s: &str) -> (r: String)
    ensures
        r@ == backslashed(s@),
{
    let mut r = String::new();
    for c in it: s.chars()
        invariant
            r@ == backslashed(it.seq().take(it.index())),
            it.seq() == s@,
    {
        if c == '/' {
            r.push('\\');
        } else {
            r.push(c);
        }
        assert(r@ == backslashed(it.seq().take(it.index() + 1)));
    }
    assert(s@.take(s@.len() as int) == s@);
    r
}

/// The form in which paths are compared: lower case, `\` for `/`.
pub open spec fn folded(path: Seq<char>) -> Seq<char> {
    if is_ascii_chars(path) {
        lower(backslashed(path))
    } else {
        unicode_lower(backslashed(path))
    }
}

/// The form in which paths are compared: lower case, `\` for `/`.
pub fn fold_path(path: &str) -> (r: String)
    ensures
        r@ == folded(path@),
{
    let plain = to_backslashes(path);
    proof {
        if is_ascii_chars(path@) {
            assert(is_ascii_chars(backslashed(path@)));
        }
    }
    lowercase_of(plain.as_str())
}

/// `s` without the backslashes at its end.
pub open spec fn without_trailing_seps(s: Seq<char>) -> Seq<char>
    decreases s.len(),
{
    if s.len() > 0 && s.last() == '\\' {
        without_trailing_seps(s.drop_last())
    } else {
        s
    }
}

/// `s` without the backslashes at its start.
pub open spec fn without_leading_seps(s: Seq<char>) -> Seq<char>
    decreases s.len(),
{
    if s.len() > 0 && s[0] == '\\' {
        without_leading_seps(s.drop_first())
    } else {
        s
    }
}

fn strip_trailing_seps(s: &str) -> (r: String)
    ensures
        r@ == without_trailing_seps(s@),
{
    let chars = chars_of(s);
    let mut end: usize = chars.len();
    assert(chars@.take(end as int) == chars@);
    while end > 0 && chars[end - 1] == '\\'
        invariant
            end <= chars@.len(),
            chars@ == s@,
            without_trailing_seps(s@) == without_trailing_seps(chars@.take(end as int)),
        decreases end,
    {
        assert(chars@.take(end as int).drop_last() == chars@.take(end - 1));
        end = end - 1;
    }
    string_of(&chars, 0, end)
}

fn strip_leading_seps(s: &str) -> (r: String)
    ensures
        r@ == without_leading_seps(s@),
{
    let chars = chars_of(s);
    let mut start: usize = 0;
    assert(chars@.skip(0) == chars@);
    while start < chars.len() && chars[start] == '\\'
        invariant
            start <= chars@.len(),
            chars@ == s@,
            without_leading_seps(s@) == without_leading_seps(chars@.skip(start as int)),
        decreases chars@.len() - start,
    {
        assert(chars@.skip(start as int).drop_first() == chars@.skip(start + 1));
        start = start + 1;
    }
    let r = string_of(&chars, start, chars.len());
    assert(r@ == chars@.skip(start as int));
    r
}

/// The comparable form of a declared root; `None` stands for no root at all.
pub open spec fn root_form(root: Seq<char>) -> Option<Seq<char>> {
    let r = without_trailing_seps(folded(root));
    if r.len() == 0 {
        None
    } else {
        Some(r)
    }
}

/// The text of an optional string.
pub open spec fn opt_text(s: Option<String>) -> Option<Seq<char>> {
    match s {
        Some(s) => Some(s@),
        None => None,
    }
}

/// Brings a declared root into the form that requested paths are compared with.
/// An empty root means that nothing is scoped.
pub fn normalize_root(root: &str) -> (r: Option<String>)
    ensures
        opt_text(r) == root_form(root@),
{
    let folded_root = fold_path(root);
    let r = strip_trailing_seps(folded_root.as_str());
    if r.as_str().is_empty() {
        None
    } else {
        Some(r)
    }
}

/// The part of `s` before the first `c`; all of it when there is none.
pub open spec fn before_first(s: Seq<char>, c: char) -> Seq<char>
    decreases s.len(),
{
    if s.len() == 0 || s[0] == c {
        Seq::empty()
    } else {
        seq![s[0]] + before_first(s.drop_first(), c)
    }
}

/// The part of `s` after the first `c`; nothing when there is none.
pub open spec fn after_first(s: Seq<char>, c: char) -> Seq<char>
    decreases s.len(),
{
    if s.len() == 0 {
        Seq::empty()
    } else if s[0] == c {
        s.drop_first()
    } else {
        after_first(s.drop_first(), c)
    }
}

proof fn lemma_before_first(s: Seq<char>, c: char, i: int)
    requires
        0 <= i <= s.len(),
        forall|j: int| 0 <= j < i ==> s[j] != c,
        i < s.len() ==> s[i] == c,
    ensures
        before_first(s, c) == s.take(i),
        i < s.len() ==> after_first(s, c) == s.skip(i + 1),
        i == s.len() ==> after_first(s, c) == Seq::<char>::empty(),
    decreases i,
{
    if i > 0 {
        lemma_before_first(s.drop_first(), c, i - 1);
        assert(s.take(i) == seq![s[0]] + s.drop_first().take(i - 1));
        if i < s.len() {
            assert(s.drop_first().skip(i) == s.skip(i + 1));
        }
    } else {
        assert(s.take(0) == Seq::<char>::empty());
        if s.len() > 0 {
            assert(s.skip(1) == s.drop_first());
        }
    }
}

/// Splits at the first `c`: the part before it, and the part after it when
/// there is one.
fn split_first(s: &str, c: char) -> (r: (String, Option<String>))
    ensures
        r.0@ == before_first(s@, c),
        r.1 is Some == s@.contains(c),
        r.1 matches Some(rest) ==> rest@ == after_first(s@, c),
{
    let chars = chars_of(s);
    let mut i: usize = 0;
    while i < chars.len() && chars[i] != c
        invariant
            i <= chars@.len(),
            forall|j: int| 0 <= j < i ==> chars@[j] != c,
        decreases chars@.len() - i,
    {
        i = i + 1;
    }
    proof {
        lemma_before_first(s@, c, i as int);
    }
    let head = string_of(&chars, 0, i);
    assert(head@ == s@.take(i as int));
    if i < chars.len() {
        assert(s@[i as int] == c);
        let rest = string_of(&chars, i + 1, chars.len());
        assert(rest@ == s@.skip(i + 1));
        (head, Some(rest))
    } else {
        (head, None)
    }
}

/// A name that the operating system keeps for a device.
pub open spec fn is_device_name(stem: Seq<char>) -> bool {
    let u = upper(stem);
    ||| u == "CON"@ || u == "PRN"@ || u == "AUX"@ || u == "NUL"@ || u == "CONIN$"@ || u
        == "CONOUT$"@
    ||| u.len() == 4 && (u.take(3) == "COM"@ || u.take(3) == "LPT"@) && '1' <= u[3] && u[3] <= '9'
}

/// A component that the operating system reads as something other than the name
/// it spells: a stream, a trailing dot or space, or a device.
pub open spec fn is_ambiguous(component: Seq<char>) -> bool {
    if component.len() == 0 || component == "."@ {
        false
    } else {
        ||| component.contains(':')
        ||| component.last() == '.'
        ||| component.last() == ' '
        ||| is_device_name(before_first(component, '.'))
    }
}

/// Whether a component can mean something other than the name it spells.
pub fn is_ambiguous_windows_component(component: &str) -> (r: bool)
    ensures
        r == is_ambiguous(component@),
{
    if component.is_empty() || same_text(component, ".") {
        return false;
    }
    let chars = chars_of(component);
    let last = chars[chars.len() - 1];
    if has_char(component, ':') || last == '.' || last == ' ' {
        return true;
    }
    let (stem, _) = split_first(component, '.');
    let up = to_upper(stem.as_str());
    if same_text(up.as_str(), "CON") || same_text(up.as_str(), "PRN") || same_text(
        up.as_str(),
        "AUX",
    ) || same_text(up.as_str(), "NUL") || same_text(up.as_str(), "CONIN$") || same_text(
        up.as_str(),
        "CONOUT$",
    ) {
        return true;
    }
    let letters = chars_of(up.as_str());
    if letters.len() != 4 {
        return false;
    }
    let port = string_of(&letters, 0, 3);
    assert(port@ == up@.take(3));
    (same_text(port.as_str(), "COM") || same_text(port.as_str(), "LPT")) && '1' <= letters[3]
        && letters[3] <= '9'
}

/// How many bytes a text has in UTF-8.
pub open spec fn byte_len(s: Seq<char>) -> nat {
    vstd::utf8::encode_utf8(s).len()
}

/// A component that has the shape of a generated short name, such as
/// `PROGRA~1` or `LONGFI~12.TXT`.
pub open spec fn is_short_alias(component: Seq<char>) -> bool {
    let name = before_first(component, '.');
    let ext = after_first(component, '.');
    let prefix = before_first(name, '~');
    let generation = after_first(name, '~');
    &&& name.contains('~')
    &&& prefix.len() > 0
    &&& byte_len(prefix) <= 6
    &&& generation.len() > 0
    &&& forall|i: int| 0 <= i < generation.len() ==> is_ascii_digit(#[trigger] generation[i])
    &&& component.contains('.') ==> ext.len() > 0 && byte_len(ext) <= 3 && !ext.contains('.')
}

fn all_digits(s: &str) -> (r: bool)
    ensures
        r == (forall|i: int| 0 <= i < s@.len() ==> is_ascii_digit(#[trigger] s@[i])),
{
    for c in it: s.chars()
        invariant
            it.seq() == s@,
            forall|i: int| 0 <= i < it.index() ==> is_ascii_digit(#[trigger] s@[i]),
    {
        if !('0' <= c && c <= '9') {
            assert(!is_ascii_digit(s@[it.index()]));
            return false;
        }
    }
    true
}

/// Whether a component has the shape of a generated short name.
pub fn is_short_name_alias_component(component: &str) -> (r: bool)
    ensures
        r == is_short_alias(component@),
{
    let (name, ext) = split_first(component, '.');
    let (prefix, generation) = split_first(name.as_str(), '~');
    let generation = match generation {
        Some(generation) => generation,
        None => {
            return false;
        },
    };
    let ext_fits = match &ext {
        Some(ext) => !ext.as_str().is_empty() && ext.as_str().as_bytes().len() <= 3 && !has_char(
            ext.as_str(),
            '.',
        ),
        None => true,
    };
    !prefix.as_str().is_empty() && prefix.as_str().as_bytes().len() <= 6
        && !generation.as_str().is_empty() && all_digits(generation.as_str()) && ext_fits
}

/// Whether generated short names are accepted in a path.
#[derive(Copy, Clone, Debug, PartialEq, Eq, Structural)]
pub enum ShortAliasPolicy {
    Reject,
    Allow,
}

/// One more component on top of those collected so far.
pub open spec fn collect(
    stack: Seq<Seq<char>>,
    component: Seq<char>,
    policy: ShortAliasPolicy,
) -> Option<Seq<Seq<char>>> {
    if component.len() == 0 || component == "."@ {
        Some(stack)
    } else if component == ".."@ {
        if stack.len() == 0 {
            None
        } else {
            Some(stack.drop_last())
        }
    } else if is_ambiguous(component) || (policy is Reject && is_short_alias(component)) {
        None
    } else {
        Some(stack.push(component))
    }
}

/// The components that remain when `.` and `..` are carried out; `None` where
/// `..` leaves the drive or a component is refused.
pub open spec fn collapse(components: Seq<Seq<char>>, policy: ShortAliasPolicy) -> Option<
    Seq<Seq<char>>,
>
    decreases components.len(),
{
    if components.len() == 0 {
        Some(Seq::empty())
    } else {
        match collapse(components.drop_last(), policy) {
            Some(stack) => collect(stack, components.last(), policy),
            None => None,
        }
    }
}

/// Whether a path starts with a drive letter, a colon and a separator.
pub open spec fn is_drive_absolute(p: Seq<char>) -> bool {
    p.len() >= 3 && is_ascii_letter(p[0]) && p[1] == ':' && p[2] == '\\'
}

/// The normal form of a folded path.
pub open spec fn normal_form(p: Seq<char>, policy: ShortAliasPolicy) -> Option<Seq<char>> {
    if !is_drive_absolute(p) {
        None
    } else {
        match collapse(split(p.skip(3), '\\'), policy) {
            Some(stack) => Some(p.take(3) + join(stack, "\\"@)),
            None => None,
        }
    }
}

/// Brings a folded path into its normal form.
pub fn normalize_folded(path: &str, policy: ShortAliasPolicy) -> (r: Option<String>)
    ensures
        opt_text(r) == normal_form(path@, policy),
{
    let chars = chars_of(path);
    if chars.len() < 3 || chars[1] != ':' || chars[2] != '\\' {
        return None;
    }
    let letter = chars[0];
    if !(('A' <= letter && letter <= 'Z') || ('a' <= letter && letter <= 'z')) {
        return None;
    }
    let rest = string_of(&chars, 3, chars.len());
    assert(rest@ == path@.skip(3));
    let components = split_at_char(rest.as_str(), '\\');
    let ghost comps = texts(components@);
    let mut stack: Vec<String> = Vec::new();
    let mut i: usize = 0;
    assert(texts(stack@) == Seq::<Seq<char>>::empty());
    assert(comps.take(0) == Seq::<Seq<char>>::empty());
    while i < components.len()
        invariant
            i <= components@.len(),
            comps == texts(components@),
            collapse(comps.take(i as int), policy) == Some(texts(stack@)),
            is_drive_absolute(path@),
            comps == split(path@.skip(3), '\\'),
        decreases components@.len() - i,
    {
        let component = components[i].as_str();
        let ghost now = comps.take(i + 1);
        let ghost before = texts(stack@);
        assert(now.drop_last() == comps.take(i as int));
        assert(now.last() == component@);
        proof {
            lemma_collapse_prefix(comps, i + 1, policy);
        }
        if component.is_empty() || same_text(component, ".") {
            // Names the directory that it stands in.
        } else if same_text(component, "..") {
            if stack.len() == 0 {
                assert(comps.take(comps.len() as int) == comps);
                return None;
            }
            let _ = stack.pop();
            assert(texts(stack@) == before.drop_last());
        } else if is_ambiguous_windows_component(component) || (policy == ShortAliasPolicy::Reject
            && is_short_name_alias_component(component)) {
            assert(comps.take(comps.len() as int) == comps);
            return None;
        } else {
            stack.push(component.to_owned());
            assert(texts(stack@) == before.push(component@));
        }
        i = i + 1;
    }
    assert(comps.take(i as int) == comps);
    let mut r = string_of(&chars, 0, 3);
    let tail = joined(&stack, "\\");
    r.append(tail.as_str());
    assert(r@ == path@.take(3) + join(texts(stack@), "\\"@));
    Some(r)
}

/// A refused prefix makes the whole refused.
proof fn lemma_collapse_prefix(components: Seq<Seq<char>>, n: int, policy: ShortAliasPolicy)
    requires
        0 <= n <= components.len(),
    ensures
        collapse(components.take(n), policy) is None ==> collapse(components, policy) is None,
    decreases components.len(),
{
    if n == components.len() {
        assert(components.take(n) == components);
    } else {
        lemma_collapse_prefix(components.drop_last(), n, policy);
        assert(components.drop_last().take(n) == components.take(n));
    }
}

/// The normal form of a requested path.
pub open spec fn requested_form(path: Seq<char>, policy: ShortAliasPolicy) -> Option<Seq<char>> {
    normal_form(folded(path), policy)
}

fn normalize_requested_inner(path: &str, policy: ShortAliasPolicy) -> (r: Option<String>)
    ensures
        opt_text(r) == requested_form(path@, policy),
{
    let p = fold_path(path);
    normalize_folded(p.as_str(), policy)
}

/// Brings a requested path into its normal form, without touching the file
/// system. `None`, which callers take as out of scope, for whatever is not
/// drive-absolute, leaves its drive through `..`, or holds a component that is
/// ambiguous or has the shape of a generated short name.
pub fn normalize_requested(path: &str) -> (r: Option<String>)
    ensures
        opt_text(r) == requested_form(path@, ShortAliasPolicy::Reject),
{
    normalize_requested_inner(path, ShortAliasPolicy::Reject)
}

/// What remains of the normal form `norm` below `root`: `.` for the root itself,
/// `None` when it lies elsewhere or when a component below the root has the
/// shape of a generated short name.
pub open spec fn below_root(norm: Seq<char>, root: Seq<char>) -> Option<Seq<char>> {
    if norm == root {
        Some("."@)
    } else if norm.len() > root.len() && norm.take(root.len() as int) == root && norm[root.len() as int]
        == '\\' {
        let rel = norm.skip(root.len() as int + 1);
        if exists|i: int|
            0 <= i < split(rel, '\\').len() && is_short_alias(#[trigger] split(rel, '\\')[i]) {
            None
        } else {
            Some(rel)
        }
    } else {
        None
    }
}

fn has_short_alias(rel: &str) -> (r: bool)
    ensures
        r == exists|i: int|
            0 <= i < split(rel@, '\\').len() && is_short_alias(#[trigger] split(rel@, '\\')[i]),
{
    let components = split_at_char(rel, '\\');
    let mut i: usize = 0;
    while i < components.len()
        invariant
            i <= components@.len(),
            texts(components@) == split(rel@, '\\'),
            forall|j: int| 0 <= j < i ==> !is_short_alias(#[trigger] split(rel@, '\\')[j]),
        decreases components@.len() - i,
    {
        assert(split(rel@, '\\')[i as int] == components@[i as int]@);
        if is_short_name_alias_component(components[i].as_str()) {
            return true;
        }
        i = i + 1;
    }
    false
}

/// What remains of a path in normal form below `root`.
pub fn relative_below_root(norm: &str, root: &str) -> (r: Option<String>)
    ensures
        opt_text(r) == below_root(norm@, root@),
{
    if same_text(norm, root) {
        return Some(".".to_owned());
    }
    let whole = chars_of(norm);
    let base = chars_of(root);
    if whole.len() <= base.len() {
        return None;
    }
    let head = string_of(&whole, 0, base.len());
    assert(head@ == norm@.take(root@.len() as int));
    if !same_text(head.as_str(), root) || whole[base.len()] != '\\' {
        return None;
    }
    let rel = string_of(&whole, base.len() + 1, whole.len());
    assert(rel@ == norm@.skip(root@.len() as int + 1));
    if has_short_alias(rel.as_str()) {
        None
    } else {
        Some(rel)
    }
}

/// The path of a request relative to a session's root.
pub open spec fn relative_form(requested: Seq<char>, root: Seq<char>) -> Option<Seq<char>> {
    match requested_form(requested, ShortAliasPolicy::Allow) {
        Some(norm) => below_root(norm, root),
        None => None,
    }
}

/// The path of a request relative to a session's root; `None` when it is not in
/// scope.
pub fn root_relative_path(requested: &str, root: &str) -> (r: Option<String>)
    ensures
        opt_text(r) == relative_form(requested@, root@),
{
    match normalize_requested_inner(requested, ShortAliasPolicy::Allow) {
        Some(norm) => relative_below_root(norm.as_str(), root),
        None => None,
    }
}

/// The text of an optional string slice.
pub open spec fn opt_str(s: Option<&str>) -> Option<Seq<char>> {
    match s {
        Some(s) => Some(s@),
        None => None,
    }
}

/// Whether a requested path lies within a session's root; without a root
/// everything does.
pub open spec fn in_scope(requested: Seq<char>, root: Option<Seq<char>>) -> bool {
    match root {
        Some(root) => relative_form(requested, root) is Some,
        None => true,
    }
}

/// Whether a requested path lies within the session's root. Generated short
/// names are accepted only in the part that the declared root covers.
pub fn path_in_scope(requested: &str, root: Option<&str>) -> (r: bool)
    ensures
        r == in_scope(requested@, opt_str(root)),
{
    match root {
        Some(root) => root_relative_path(requested, root).is_some(),
        None => true,
    }
}

/// The normal form of a path that must lie below `root` where there is one.
pub open spec fn scoped_form(path: Seq<char>, root: Option<Seq<char>>) -> Option<Seq<char>> {
    match root {
        None => requested_form(path, ShortAliasPolicy::Reject),
        Some(root) => if relative_form(path, root) is Some {
            requested_form(path, ShortAliasPolicy::Allow)
        } else {
            None
        },
    }
}

fn normalize_scoped_requested(path: &str, root: Option<&str>) -> (r: Option<String>)
    ensures
        opt_text(r) == scoped_form(path@, opt_str(root)),
{
    match root {
        None => normalize_requested(path),
        Some(root) => {
            let normalized = match normalize_requested_inner(path, ShortAliasPolicy::Allow) {
                Some(normalized) => normalized,
                None => {
                    return None;
                },
            };
            if root_relative_path(path, root).is_some() {
                Some(normalized)
            } else {
                None
            }
        },
    }
}

/// The normal form of a declared output.
pub fn normalize_declared_output(path: &str, root: Option<&str>) -> (r: Option<String>)
    ensures
        opt_text(r) == scoped_form(path@, opt_str(root)),
{
    normalize_scoped_requested(path, root)
}

/// The normal form of a path to fetch ahead.
pub fn normalize_prefetch_path(path: &str, root: Option<&str>) -> (r: Option<String>)
    ensures
        opt_text(r) == scoped_form(path@, opt_str(root)),
{
    normalize_scoped_requested(path, root)
}

/// Where the bytes of a requested path are read from.
pub enum PathMap {
    /// From the path itself.
    Identity,
    /// Paths under `logical_root`, which is folded, from `backing_root` instead.
    Remap { logical_root: String, backing_root: RootPath },
}

/// Where a folded request below the folded root `logical` is read from, below
/// `backing`; `None` when it is not below the root.
pub open spec fn remapped(
    request: Seq<char>,
    logical: Seq<char>,
    backing: RootModel,
) -> Option<Seq<char>> {
    let root = without_trailing_seps(logical);
    let rest = request.skip(root.len() as int);
    if request.len() >= root.len() && request.take(root.len() as int) == root && (rest.len() == 0
        || rest[0] == '\\') {
        Some(backing.join(without_leading_seps(rest)))
    } else {
        None
    }
}

/// Where a folded request below the folded root `logical` is read from.
pub fn remap_folded(request: &str, logical: &str, backing: &RootPath) -> (r: Option<String>)
    ensures
        opt_text(r) == remapped(request@, logical@, backing@),
{
    let root = strip_trailing_seps(logical);
    let base = chars_of(root.as_str());
    let whole = chars_of(request);
    if whole.len() < base.len() {
        return None;
    }
    let head = string_of(&whole, 0, base.len());
    assert(head@ == request@.take(root@.len() as int));
    if !same_text(head.as_str(), root.as_str()) {
        return None;
    }
    if whole.len() > base.len() && whole[base.len()] != '\\' {
        return None;
    }
    let rest = string_of(&whole, base.len(), whole.len());
    assert(rest@ == request@.skip(root@.len() as int));
    let tail = strip_leading_seps(rest.as_str());
    Some(backing.join(tail.as_str()))
}

impl PathMap {
    /// The path that a requested path is read from.
    pub open spec fn target(self, requested: Seq<char>) -> Seq<char> {
        match self {
            PathMap::Identity => requested,
            PathMap::Remap { logical_root, backing_root } => match remapped(
                folded(requested),
                logical_root@,
                backing_root@,
            ) {
                Some(path) => path,
                None => requested,
            },
        }
    }

    /// The path that a requested path is read from.
    pub fn resolve(&self, requested: &str) -> (r: String)
        ensures
            r@ == self.target(requested@),
    {
        match self {
            PathMap::Identity => requested.to_owned(),
            PathMap::Remap { logical_root, backing_root } => {
                let request = fold_path(requested);
                match remap_folded(request.as_str(), logical_root.as_str(), backing_root) {
                    Some(path) => path,
                    None => requested.to_owned(),
                }
            },
        }
    }

    /// A map that reads paths under `logical_root` from `backing_root`.
    pub fn remap(logical_root: &str, backing_root: RootPath) -> (r: PathMap)
        ensures
            r matches PathMap::Remap { logical_root: l, backing_root: b } && l@ == folded(
                logical_root@,
            ) && b == backing_root,
    {
        PathMap::Remap { logical_root: fold_path(logical_root), backing_root }
    }
}

/// A component that stands for itself: it is neither empty nor `.` nor `..`, not
/// ambiguous, and no generated short name where those are refused.
pub open spec fn is_plain(component: Seq<char>, policy: ShortAliasPolicy) -> bool {
    &&& component.len() > 0
    &&& component != "."@
    &&& component != ".."@
    &&& !is_ambiguous(component)
    &&& policy is Reject ==> !is_short_alias(component)
    &&& !component.contains('\\')
}

proof fn lemma_collapse_plain(components: Seq<Seq<char>>, policy: ShortAliasPolicy)
    requires
        forall|i: int| 0 <= i < components.len() ==> !(#[trigger] components[i]).contains('\\'),
    ensures
        collapse(components, policy) matches Some(stack) ==> forall|i: int|
            0 <= i < stack.len() ==> is_plain(#[trigger] stack[i], policy),
    decreases components.len(),
{
    if components.len() > 0 {
        let init = components.drop_last();
        assert forall|i: int| 0 <= i < init.len() implies !(#[trigger] init[i]).contains('\\') by {
            assert(init[i] == components[i]);
        }
        lemma_collapse_plain(init, policy);
        assert(!components[components.len() - 1].contains('\\'));
    }
}

proof fn lemma_collapse_of_plain(components: Seq<Seq<char>>, policy: ShortAliasPolicy)
    requires
        forall|i: int| 0 <= i < components.len() ==> is_plain(#[trigger] components[i], policy),
    ensures
        collapse(components, policy) == Some(components),
    decreases components.len(),
{
    if components.len() > 0 {
        let init = components.drop_last();
        assert forall|i: int| 0 <= i < init.len() implies is_plain(#[trigger] init[i], policy) by {
            assert(init[i] == components[i]);
        }
        lemma_collapse_of_plain(init, policy);
        assert(is_plain(components[components.len() - 1], policy));
        assert(init.push(components.last()) == components);
    }
}

/// A path in normal form is drive-absolute, and each of its components stands
/// for itself: none is `.` or `..`, so none leads out of the directory before
/// it.
pub proof fn law_normal_form_is_plain(p: Seq<char>, policy: ShortAliasPolicy)
    requires
        normal_form(p, policy) is Some,
    ensures
        is_drive_absolute(normal_form(p, policy)->0),
        ({
            let components = split((normal_form(p, policy)->0).skip(3), '\\');
            ||| components == seq![Seq::<char>::empty()]
            ||| forall|i: int|
                0 <= i < components.len() ==> is_plain(#[trigger] components[i], policy)
        }),
{
    reveal_strlit("\\");
    let components = split(p.skip(3), '\\');
    lemma_split_pieces_are_clean(p.skip(3), '\\');
    lemma_collapse_plain(components, policy);
    let stack = collapse(components, policy)->0;
    let n = normal_form(p, policy)->0;
    assert("\\"@ == seq!['\\']);
    assert(n.skip(3) == join(stack, seq!['\\']));
    if stack.len() > 0 {
        lemma_split_join(stack, '\\');
    }
}

/// Normalizing a path that is in normal form changes nothing.
pub proof fn law_normal_form_is_idempotent(p: Seq<char>, policy: ShortAliasPolicy)
    requires
        normal_form(p, policy) is Some,
    ensures
        normal_form(normal_form(p, policy)->0, policy) == normal_form(p, policy),
{
    reveal_strlit("\\");
    let components = split(p.skip(3), '\\');
    lemma_split_pieces_are_clean(p.skip(3), '\\');
    lemma_collapse_plain(components, policy);
    let stack = collapse(components, policy)->0;
    let n = normal_form(p, policy)->0;
    assert("\\"@ == seq!['\\']);
    assert(n.skip(3) == join(stack, seq!['\\']));
    assert(n.take(3) == p.take(3));
    let none = Seq::<char>::empty();
    if stack.len() > 0 {
        lemma_split_join(stack, '\\');
        lemma_collapse_of_plain(stack, policy);
    } else {
        assert(n.skip(3) == none);
        assert(split(none, '\\') == seq![none]);
        assert(seq![none].drop_last() == Seq::<Seq<char>>::empty());
        assert(collapse(seq![none].drop_last(), policy) == Some(Seq::<Seq<char>>::empty()));
        assert(collapse(seq![none], policy) == Some(stack));
    }
}

/// A character that stands for itself where paths are compared: an ASCII character
/// that is neither an upper-case letter nor `/`.
pub open spec fn is_folded_char(c: char) -> bool {
    '\0' <= c && c <= '\u{7f}' && !('A' <= c && c <= 'Z') && c != '/'
}

pub open spec fn all_folded(s: Seq<char>) -> bool {
    forall|i: int| 0 <= i < s.len() ==> is_folded_char(#[trigger] s[i])
}

pub open spec fn each_folded(list: Seq<Seq<char>>) -> bool {
    forall|i: int| 0 <= i < list.len() ==> all_folded(#[trigger] list[i])
}

proof fn lemma_folded_ascii(p: Seq<char>)
    requires
        is_ascii_chars(p),
    ensures
        all_folded(folded(p)),
{
}

proof fn lemma_folding_folded(p: Seq<char>)
    requires
        all_folded(p),
    ensures
        is_ascii_chars(p),
        folded(p) == p,
{
    assert(is_ascii_chars(p));
    assert(folded(p) =~= p);
}

proof fn lemma_split_folded(s: Seq<char>)
    requires
        all_folded(s),
    ensures
        each_folded(split(s, '\\')),
    decreases s.len(),
{
    if s.len() > 0 {
        lemma_split_folded(s.drop_last());
        lemma_split_nonempty(s.drop_last(), '\\');
        let before = split(s.drop_last(), '\\');
        assert(is_folded_char(s[s.len() - 1]));
        assert(all_folded(before[before.len() - 1]));
    }
}

proof fn lemma_collapse_folded(components: Seq<Seq<char>>, policy: ShortAliasPolicy)
    requires
        each_folded(components),
    ensures
        collapse(components, policy) matches Some(stack) ==> each_folded(stack),
    decreases components.len(),
{
    if components.len() > 0 {
        let init = components.drop_last();
        assert forall|i: int| 0 <= i < init.len() implies all_folded(#[trigger] init[i]) by {
            assert(init[i] == components[i]);
        }
        lemma_collapse_folded(init, policy);
        assert(all_folded(components[components.len() - 1]));
    }
}

proof fn lemma_join_folded(stack: Seq<Seq<char>>)
    requires
        each_folded(stack),
    ensures
        all_folded(join(stack, "\\"@)),
    decreases stack.len(),
{
    reveal_strlit("\\");
    if stack.len() == 1 {
        assert(all_folded(stack[0]));
    } else if stack.len() > 1 {
        let init = stack.drop_last();
        assert forall|i: int| 0 <= i < init.len() implies all_folded(#[trigger] init[i]) by {
            assert(init[i] == stack[i]);
        }
        lemma_join_folded(init);
        assert(all_folded(stack[stack.len() - 1]));
    }
}

proof fn lemma_normal_form_folded(p: Seq<char>, policy: ShortAliasPolicy)
    requires
        all_folded(p),
    ensures
        normal_form(p, policy) matches Some(n) ==> all_folded(n),
{
    if is_drive_absolute(p) {
        assert(all_folded(p.skip(3)));
        lemma_split_folded(p.skip(3));
        let components = split(p.skip(3), '\\');
        lemma_collapse_folded(components, policy);
        if let Some(stack) = collapse(components, policy) {
            lemma_join_folded(stack);
        }
    }
}

/// Whatever is requested, its normal form is drive-absolute, and each of its
/// components stands for itself. Of an ASCII request, and wherever it is ASCII itself and
/// folding leaves it as it is, it is written in lower case, with `\` alone between its
/// components.
pub proof fn law_requests_take_a_plain_form(path: Seq<char>, policy: ShortAliasPolicy)
    requires
        requested_form(path, policy) is Some,
    ensures
        ({
            let norm = requested_form(path, policy)->0;
            let components = split(norm.skip(3), '\\');
            &&& is_drive_absolute(norm)
            &&& components == seq![Seq::<char>::empty()] || forall|i: int|
                0 <= i < components.len() ==> is_plain(#[trigger] components[i], policy)
            &&& is_ascii_chars(path) || (is_ascii_chars(norm) && folded(norm) == norm)
                ==> all_folded(norm) && 'a' <= norm[0] && norm[0] <= 'z'
        }),
{
    let norm = requested_form(path, policy)->0;
    law_normal_form_is_plain(folded(path), policy);
    if is_ascii_chars(path) {
        lemma_folded_ascii(path);
        lemma_normal_form_folded(folded(path), policy);
        assert(is_folded_char(norm[0]));
    } else if is_ascii_chars(norm) && folded(norm) == norm {
        lemma_folded_ascii(norm);
        assert(is_folded_char(norm[0]));
    }
}

/// Requesting a normal form leads to that form again, wherever folding leaves it as it
/// is; of an ASCII request it always does.
pub proof fn law_requesting_twice_is_requesting_once(path: Seq<char>, policy: ShortAliasPolicy)
    requires
        requested_form(path, policy) is Some,
    ensures
        ({
            let norm = requested_form(path, policy)->0;
            &&& folded(norm) == norm ==> requested_form(norm, policy) == Some(norm)
            &&& is_ascii_chars(path) ==> folded(norm) == norm
        }),
{
    law_normal_form_is_idempotent(folded(path), policy);
    if is_ascii_chars(path) {
        lemma_folded_ascii(path);
        lemma_normal_form_folded(folded(path), policy);
        lemma_folding_folded(requested_form(path, policy)->0);
    }
}

/// The form of one character where paths are compared.
pub open spec fn folded_char(c: char) -> char {
    if c == '/' {
        '\\'
    } else {
        lower_char(c)
    }
}

/// In an ASCII request neither the case of a letter matters nor which of the two
/// separators is written.
pub proof fn law_case_and_separators_do_not_matter(
    a: Seq<char>,
    b: Seq<char>,
    policy: ShortAliasPolicy,
)
    requires
        is_ascii_chars(a),
        is_ascii_chars(b),
        a.len() == b.len(),
        forall|i: int| 0 <= i < a.len() ==> folded_char(#[trigger] a[i]) == folded_char(b[i]),
    ensures
        folded(a) == folded(b),
        requested_form(a, policy) == requested_form(b, policy),
{
    assert forall|i: int| 0 <= i < a.len() implies #[trigger] folded(a)[i] == folded(b)[i] by {
        assert(folded_char(a[i]) == folded_char(b[i]));
    }
    assert(folded(a) =~= folded(b));
}

/// Which of the two separators is written does not matter in any request.
pub proof fn law_separators_do_not_matter(
    a: Seq<char>,
    b: Seq<char>,
    policy: ShortAliasPolicy,
)
    requires
        backslashed(a) == backslashed(b),
    ensures
        folded(a) == folded(b),
        requested_form(a, policy) == requested_form(b, policy),
{
    lemma_backslashed_ascii(a);
    lemma_backslashed_ascii(b);
}

proof fn lemma_backslashed_ascii(p: Seq<char>)
    ensures
        is_ascii_chars(backslashed(p)) == is_ascii_chars(p),
{
    let b = backslashed(p);
    if is_ascii_chars(b) {
        assert forall|i: int| 0 <= i < p.len() implies '\0' <= #[trigger] p[i] <= '\u{7f}' by {
            assert('\0' <= b[i] <= '\u{7f}');
        }
    }
    if is_ascii_chars(p) {
        assert forall|i: int| 0 <= i < b.len() implies '\0' <= #[trigger] b[i] <= '\u{7f}' by {
            assert('\0' <= p[i] <= '\u{7f}');
        }
    }
}

/// A path in scope has a normal form that is the root itself or continues it
/// behind a separator: neither a sibling whose name begins alike nor a path that
/// climbs out through `..` is in scope.
pub proof fn law_scope_ends_at_the_root(requested: Seq<char>, root: Seq<char>)
    requires
        in_scope(requested, Some(root)),
    ensures
        requested_form(requested, ShortAliasPolicy::Allow) is Some,
        ({
            let norm = requested_form(requested, ShortAliasPolicy::Allow)->0;
            ||| norm == root
            ||| (root.push('\\')).is_prefix_of(norm)
        }),
{
    let norm = requested_form(requested, ShortAliasPolicy::Allow)->0;
    if norm != root {
        assert(norm.take(root.len() as int + 1) == root.push('\\'));
    }
}

/// The path of a request relative to the root leads only downwards: it is the root
/// itself, or each of its components stands for itself, so that none is `..`, and
/// none has the shape of a generated short name.
pub proof fn law_relative_paths_lead_downwards(requested: Seq<char>, root: Seq<char>)
    requires
        relative_form(requested, root) is Some,
    ensures
        ({
            let rel = relative_form(requested, root)->0;
            ||| rel == "."@
            ||| rel.len() == 0
            ||| forall|i: int|
                0 <= i < split(rel, '\\').len() ==> is_plain(
                    #[trigger] split(rel, '\\')[i],
                    ShortAliasPolicy::Reject,
                )
        }),
{
    let norm = requested_form(requested, ShortAliasPolicy::Allow)->0;
    let rel = relative_form(requested, root)->0;
    if norm != root {
        law_normal_form_is_plain(folded(requested), ShortAliasPolicy::Allow);
        let tail = norm.skip(3);
        let all = split(tail, '\\');
        let n = root.len() as int;
        assert(n >= 2) by {
            if n == 0 {
                assert(norm[0] == '\\');
            } else if n == 1 {
                assert(norm[1] == '\\');
            }
        }
        if n == 2 {
            assert(rel =~= tail);
        } else {
            let front = norm.subrange(3, n);
            assert(tail =~= front.push('\\') + rel);
            lemma_split_at_sep(front, rel, '\\');
        }
        let pieces = split(rel, '\\');
        if rel.len() > 0 {
            lemma_split_nonempty(rel, '\\');
            if all == seq![Seq::<char>::empty()] {
                lemma_split_of_nothing(tail);
            }
            assert forall|i: int| 0 <= i < pieces.len() implies is_plain(
                #[trigger] pieces[i],
                ShortAliasPolicy::Reject,
            ) by {
                let j = all.len() - pieces.len() + i;
                assert(all[j] == pieces[i]);
            }
        }
    }
}

proof fn lemma_split_of_nothing(s: Seq<char>)
    requires
        split(s, '\\') == seq![Seq::<char>::empty()],
    ensures
        s.len() == 0,
{
    if s.len() > 0 {
        lemma_split_nonempty(s.drop_last(), '\\');
        let before = split(s.drop_last(), '\\');
        if s.last() == '\\' {
            assert(split(s, '\\').len() == before.len() + 1);
        } else {
            assert(split(s, '\\').last() == before.last().push(s.last()));
        }
    }
}

/// A path that has no normal form is in the scope of no root.
pub proof fn law_unnormalizable_is_out_of_scope(requested: Seq<char>, root: Seq<char>)
    requires
        requested_form(requested, ShortAliasPolicy::Allow) is None,
    ensures
        !in_scope(requested, Some(root)),
        scoped_form(requested, Some(root)) is None,
{
}

/// Under a root, a declared output is accepted exactly when reads of it are in
/// scope.
pub proof fn law_outputs_and_reads_share_a_scope(path: Seq<char>, root: Seq<char>)
    ensures
        scoped_form(path, Some(root)) is Some <==> in_scope(path, Some(root)),
{
}

/// Whether `s` spells the lower-case ASCII word `word`, in whatever case.
pub open spec fn spells(s: Seq<char>, word: Seq<char>) -> bool {
    &&& s.len() == word.len()
    &&& forall|i: int|
        0 <= i < s.len() ==> #[trigger] s[i] == word[i] || ('A' <= s[i] && s[i] <= 'Z' && s[i] as u8
            + 32 == word[i] as u8)
}

/// Whether a name means a device to Windows: `con`, `prn`, `aux`, `nul`, `conin$`,
/// `conout$`, and `com` or `lpt` with a digit from 1 to 9.
pub open spec fn means_device(s: Seq<char>) -> bool {
    ||| spells(s, seq!['c', 'o', 'n'])
    ||| spells(s, seq!['p', 'r', 'n'])
    ||| spells(s, seq!['a', 'u', 'x'])
    ||| spells(s, seq!['n', 'u', 'l'])
    ||| spells(s, seq!['c', 'o', 'n', 'i', 'n', '$'])
    ||| spells(s, seq!['c', 'o', 'n', 'o', 'u', 't', '$'])
    ||| s.len() == 4 && '1' <= s[3] && s[3] <= '9' && (spells(s.take(3), seq!['c', 'o', 'm'])
        || spells(s.take(3), seq!['l', 'p', 't']))
}

/// Whether `i` is where the first `c` of `s` stands, or its end where there is none.
pub open spec fn is_first(s: Seq<char>, c: char, i: int) -> bool {
    &&& 0 <= i <= s.len()
    &&& forall|j: int| 0 <= j < i ==> #[trigger] s[j] != c
    &&& i < s.len() ==> s[i] == c
}

/// Whether Windows takes a component for something else than the name it spells: it holds
/// a colon, it ends in a dot or a space, or what stands before its first dot means a
/// device.
pub open spec fn is_misread(c: Seq<char>) -> bool {
    ||| exists|i: int| 0 <= i < c.len() && #[trigger] c[i] == ':'
    ||| c[c.len() - 1] == '.'
    ||| c[c.len() - 1] == ' '
    ||| exists|i: int| #[trigger] is_first(c, '.', i) && means_device(c.take(i))
}

/// Whether a component looks like a generated short name: one to six bytes, a tilde, one
/// or more digits, and then nothing, or a dot and one to three bytes without another.
pub open spec fn looks_generated(c: Seq<char>) -> bool {
    exists|t: int, e: int|
        #![trigger is_first(c, '~', t), is_first(c, '.', e)]
        {
            &&& is_first(c, '~', t) && is_first(c, '.', e)
            &&& 0 < t && t + 1 < e
            &&& vstd::utf8::encode_utf8(c.take(t)).len() <= 6
            &&& forall|j: int| t < j < e ==> '0' <= #[trigger] c[j] && c[j] <= '9'
            &&& e < c.len() ==> e + 1 < c.len() && vstd::utf8::encode_utf8(c.skip(e + 1)).len() <= 3
                && forall|j: int| e < j < c.len() ==> #[trigger] c[j] != '.'
        }
}

proof fn lemma_spells(s: Seq<char>, word: Seq<char>, capital: Seq<char>)
    requires
        word.len() == capital.len(),
        forall|i: int|
            0 <= i < word.len() ==> {
                ||| 'a' <= #[trigger] word[i] && word[i] <= 'z' && 'A' <= capital[i] && capital[i]
                    <= 'Z' && capital[i] as u8 + 32 == word[i] as u8
                ||| word[i] == '$' && capital[i] == '$'
            },
    ensures
        (upper(s) == capital) == spells(s, word),
{
    if upper(s) == capital {
        assert forall|i: int| 0 <= i < s.len() implies #[trigger] s[i] == word[i] || ('A' <= s[i]
            && s[i] <= 'Z' && s[i] as u8 + 32 == word[i] as u8) by {
            assert(upper(s)[i] == capital[i]);
            assert(upper_char(s[i]) == capital[i]);
            assert(0 <= i < word.len());
            let (c, w, k) = (s[i], word[i], capital[i]);
            if 'a' <= c && c <= 'z' {
                assert(k as u8 == c as u8 - 32);
                assert(c as u8 == w as u8);
                assert(c == w);
            }
        }
    }
    if spells(s, word) {
        assert forall|i: int| 0 <= i < s.len() implies #[trigger] upper(s)[i] == capital[i] by {
            let (c, w, k) = (s[i], word[i], capital[i]);
            assert(0 <= i < word.len());
            if 'a' <= c && c <= 'z' {
                assert(c == w);
                assert(upper_char(c) as u8 == k as u8);
            } else if 'A' <= c && c <= 'Z' {
                assert(c as u8 == k as u8);
            }
            assert(upper_char(c) == k);
        }
        assert(upper(s) =~= capital);
    }
}

proof fn lemma_device_names(s: Seq<char>)
    ensures
        is_device_name(s) == means_device(s),
{
    reveal_strlit("CON");
    reveal_strlit("PRN");
    reveal_strlit("AUX");
    reveal_strlit("NUL");
    reveal_strlit("CONIN$");
    reveal_strlit("CONOUT$");
    reveal_strlit("COM");
    reveal_strlit("LPT");
    lemma_spells(s, seq!['c', 'o', 'n'], "CON"@);
    lemma_spells(s, seq!['p', 'r', 'n'], "PRN"@);
    lemma_spells(s, seq!['a', 'u', 'x'], "AUX"@);
    lemma_spells(s, seq!['n', 'u', 'l'], "NUL"@);
    lemma_spells(s, seq!['c', 'o', 'n', 'i', 'n', '$'], "CONIN$"@);
    lemma_spells(s, seq!['c', 'o', 'n', 'o', 'u', 't', '$'], "CONOUT$"@);
    if s.len() == 4 {
        lemma_spells(s.take(3), seq!['c', 'o', 'm'], "COM"@);
        lemma_spells(s.take(3), seq!['l', 'p', 't'], "LPT"@);
        assert(upper(s).take(3) =~= upper(s.take(3)));
    }
}

/// Which components are refused for their name: exactly those that Windows takes for
/// something else. A space, a dot or a device name within a name are no harm.
pub proof fn law_misread_components_are_ambiguous(c: Seq<char>)
    requires
        c.len() > 0,
        c != seq!['.'],
    ensures
        is_ambiguous(c) <==> is_misread(c),
{
    reveal_strlit(".");
    assert("."@ =~= seq!['.']);
    assert(c.contains(':') <==> exists|i: int| 0 <= i < c.len() && #[trigger] c[i] == ':');
    lemma_first(c, '.');
    let e = first_of(c, '.');
    lemma_before_first(c, '.', e);
    lemma_device_names(c.take(e));
    if exists|i: int| #[trigger] is_first(c, '.', i) && means_device(c.take(i)) {
        let i = choose|i: int| #[trigger] is_first(c, '.', i) && means_device(c.take(i));
        lemma_first_is_one(c, '.', i, e);
    }
}

/// Where the first `c` of `s` stands, or its end.
spec fn first_of(s: Seq<char>, c: char) -> int
    decreases s.len(),
{
    if s.len() == 0 || s[0] == c {
        0
    } else {
        1 + first_of(s.drop_first(), c)
    }
}

proof fn lemma_first(s: Seq<char>, c: char)
    ensures
        is_first(s, c, first_of(s, c)),
    decreases s.len(),
{
    if s.len() > 0 && s[0] != c {
        let r = s.drop_first();
        lemma_first(r, c);
        let n = first_of(r, c);
        assert forall|j: int| 0 <= j < n + 1 implies #[trigger] s[j] != c by {
            if j > 0 {
                assert(r[j - 1] == s[j]);
            }
        }
        if n < r.len() {
            assert(s[n + 1] == r[n]);
        }
    }
}

proof fn lemma_first_is_one(s: Seq<char>, c: char, i: int, j: int)
    requires
        is_first(s, c, i),
        is_first(s, c, j),
    ensures
        i == j,
{
    if i < j {
        assert(s[i] == c);
    } else if j < i {
        assert(s[j] == c);
    }
}

/// Which components are taken for generated short names: exactly those that look like
/// one.
pub proof fn law_short_aliases_look_generated(c: Seq<char>)
    ensures
        is_short_alias(c) <==> looks_generated(c),
{
    lemma_first(c, '.');
    lemma_first(c, '~');
    let e = first_of(c, '.');
    let t = first_of(c, '~');
    lemma_before_first(c, '.', e);
    let name = before_first(c, '.');
    assert(name == c.take(e));
    lemma_first(name, '~');
    let u = first_of(name, '~');
    lemma_before_first(name, '~', u);
    assert(c.contains('.') <==> e < c.len()) by {
        if c.contains('.') {
            let k = choose|k: int| 0 <= k < c.len() && c[k] == '.';
            assert(k >= e);
        }
        if e < c.len() {
            assert(c[e] == '.');
        }
    }
    assert(name.contains('~') <==> u < name.len()) by {
        if name.contains('~') {
            let k = choose|k: int| 0 <= k < name.len() && name[k] == '~';
            assert(k >= u);
        }
        if u < name.len() {
            assert(name[u] == '~');
        }
    }
    if u < name.len() {
        assert(is_first(c, '~', u)) by {
            assert(c[u] == name[u]);
            assert forall|j: int| 0 <= j < u implies #[trigger] c[j] != '~' by {
                assert(name[j] == c[j]);
            }
        }
        lemma_first_is_one(c, '~', u, t);
        assert(name.take(u) =~= c.take(t));
        let generation = after_first(name, '~');
        assert(generation =~= c.subrange(t + 1, e));
        if is_short_alias(c) {
            assert forall|j: int| t < j < e implies '0' <= #[trigger] c[j] && c[j] <= '9' by {
                assert(is_ascii_digit(generation[j - t - 1]));
            }
            if e < c.len() {
                let ext = after_first(c, '.');
                assert forall|j: int| e < j < c.len() implies #[trigger] c[j] != '.' by {
                    assert(ext[j - e - 1] == c[j]);
                    assert(ext.contains(ext[j - e - 1]));
                }
            }
            assert(is_first(c, '~', t) && is_first(c, '.', e));
        }
    }
    if looks_generated(c) {
        let (t2, e2) = choose|t2: int, e2: int|
            #![trigger is_first(c, '~', t2), is_first(c, '.', e2)]
            {
                &&& is_first(c, '~', t2) && is_first(c, '.', e2)
                &&& 0 < t2 && t2 + 1 < e2
                &&& vstd::utf8::encode_utf8(c.take(t2)).len() <= 6
                &&& forall|j: int| t2 < j < e2 ==> '0' <= #[trigger] c[j] && c[j] <= '9'
                &&& e2 < c.len() ==> e2 + 1 < c.len() && vstd::utf8::encode_utf8(
                    c.skip(e2 + 1),
                ).len() <= 3 && forall|j: int| e2 < j < c.len() ==> #[trigger] c[j] != '.'
            };
        lemma_first_is_one(c, '~', t2, t);
        lemma_first_is_one(c, '.', e2, e);
        assert(name[t] == '~');
        lemma_first_is_one(name, '~', u, t);
        let generation = after_first(name, '~');
        assert forall|i: int| 0 <= i < generation.len() implies is_ascii_digit(
            #[trigger] generation[i],
        ) by {
            assert(generation[i] == c[t + 1 + i]);
        }
        if e < c.len() {
            let ext = after_first(c, '.');
            assert(!ext.contains('.')) by {
                if ext.contains('.') {
                    let k = choose|k: int| 0 <= k < ext.len() && ext[k] == '.';
                    assert(ext[k] == c[e + 1 + k]);
                }
            }
        }
    }
}

/// Whether a component can stand in a path as it is written: it is not empty, not `.` or
/// `..`, holds no separator, and Windows takes it for the name that it spells.
pub open spec fn stands_for_itself(c: Seq<char>) -> bool {
    &&& c.len() > 0 && c != seq!['.'] && c != seq!['.', '.']
    &&& forall|i: int| 0 <= i < c.len() ==> #[trigger] c[i] != '\\'
    &&& !is_misread(c)
}

/// The path to the components `components` on the drive `drive`.
pub open spec fn path_of(drive: char, components: Seq<Seq<char>>) -> Seq<char> {
    seq![drive, ':', '\\'] + join(components, seq!['\\'])
}

proof fn lemma_path_of(drive: char, components: Seq<Seq<char>>, policy: ShortAliasPolicy)
    requires
        is_ascii_letter(drive),
        forall|i: int| 0 <= i < components.len() ==> !(#[trigger] components[i]).contains('\\'),
    ensures
        normal_form(path_of(drive, components), policy) == match collapse(components, policy) {
            Some(stack) => Some(path_of(drive, stack)),
            None => None,
        },
{
    reveal_strlit("\\");
    assert("\\"@ =~= seq!['\\']);
    let p = path_of(drive, components);
    assert(p.take(3) =~= seq![drive, ':', '\\']);
    assert(p.skip(3) =~= join(components, seq!['\\']));
    let none = Seq::<char>::empty();
    if components.len() > 0 {
        lemma_split_join(components, '\\');
    } else {
        assert(p.skip(3) =~= none);
        assert(split(none, '\\') == seq![none]);
        assert(seq![none].drop_last() =~= components);
        assert(collapse(seq![none], policy) == collapse(components, policy));
    }
}

proof fn lemma_plain_component(c: Seq<char>, policy: ShortAliasPolicy)
    requires
        stands_for_itself(c),
        policy is Reject ==> !looks_generated(c),
    ensures
        is_plain(c, policy),
{
    reveal_strlit(".");
    reveal_strlit("..");
    assert("."@ =~= seq!['.']);
    assert(".."@ =~= seq!['.', '.']);
    law_misread_components_are_ambiguous(c);
    law_short_aliases_look_generated(c);
    if c.contains('\\') {
        let i = choose|i: int| 0 <= i < c.len() && c[i] == '\\';
        assert(c[i] != '\\');
    }
}

/// Every ordinary path has a normal form, and that is the folded path itself: where it
/// names a drive and each of its components stands for itself. Generated short names are
/// ordinary only where they are accepted.
pub proof fn law_ordinary_paths_are_accepted(
    path: Seq<char>,
    drive: char,
    components: Seq<Seq<char>>,
    policy: ShortAliasPolicy,
)
    requires
        folded(path) == path_of(drive, components),
        ('a' <= drive && drive <= 'z') || ('A' <= drive && drive <= 'Z'),
        forall|i: int|
            0 <= i < components.len() ==> stands_for_itself(#[trigger] components[i]) && (
            policy is Reject ==> !looks_generated(components[i])),
    ensures
        requested_form(path, policy) == Some(folded(path)),
{
    assert forall|i: int| 0 <= i < components.len() implies is_plain(
        #[trigger] components[i],
        policy,
    ) by {
        lemma_plain_component(components[i], policy);
    }
    lemma_collapse_of_plain(components, policy);
    lemma_path_of(drive, components, policy);
}

/// Below a root an ordinary path is in scope, for reads and for outputs, and what is left
/// of it behind the root is its path relative to the root.
pub proof fn law_ordinary_paths_are_in_scope(
    path: Seq<char>,
    root: Seq<char>,
    rel: Seq<Seq<char>>,
)
    requires
        requested_form(path, ShortAliasPolicy::Allow) == Some(folded(path)),
        folded(path) == root + seq!['\\'] + join(rel, seq!['\\']),
        rel.len() > 0,
        forall|i: int|
            0 <= i < rel.len() ==> !looks_generated(#[trigger] rel[i]) && !rel[i].contains('\\'),
    ensures
        relative_form(path, root) == Some(join(rel, seq!['\\'])),
        in_scope(path, Some(root)),
        scoped_form(path, Some(root)) == Some(folded(path)),
{
    let norm = folded(path);
    let tail = join(rel, seq!['\\']);
    let n = root.len() as int;
    assert(norm.take(n) =~= root);
    assert(norm[n] == '\\');
    assert(norm.skip(n + 1) =~= tail);
    assert(norm != root) by {
        assert(norm.len() > root.len());
    }
    lemma_split_join(rel, '\\');
    assert forall|i: int| 0 <= i < split(tail, '\\').len() implies !is_short_alias(
        #[trigger] split(tail, '\\')[i],
    ) by {
        assert(split(tail, '\\')[i] == rel[i]);
        law_short_aliases_look_generated(rel[i]);
    }
}

/// The root itself is in scope, and `.` is its relative path.
pub proof fn law_the_root_is_in_scope(path: Seq<char>, root: Seq<char>)
    requires
        requested_form(path, ShortAliasPolicy::Allow) == Some(root),
    ensures
        relative_form(path, root) == Some("."@),
        in_scope(path, Some(root)),
{
}

/// Without a root everything is in scope.
pub proof fn law_without_a_root_all_is_in_scope(path: Seq<char>)
    ensures
        in_scope(path, None),
        scoped_form(path, None) == requested_form(path, ShortAliasPolicy::Reject),
{
}

proof fn lemma_collapse_goes_on(
    a: Seq<Seq<char>>,
    b: Seq<Seq<char>>,
    rest: Seq<Seq<char>>,
    policy: ShortAliasPolicy,
)
    requires
        collapse(a, policy) == collapse(b, policy),
    ensures
        collapse(a + rest, policy) == collapse(b + rest, policy),
    decreases rest.len(),
{
    if rest.len() == 0 {
        assert(a + rest =~= a && b + rest =~= b);
    } else {
        lemma_collapse_goes_on(a, b, rest.drop_last(), policy);
        assert((a + rest).drop_last() =~= a + rest.drop_last());
        assert((b + rest).drop_last() =~= b + rest.drop_last());
        assert((a + rest).last() == rest.last() && (b + rest).last() == rest.last());
    }
}

proof fn lemma_collapse_fails_on(
    a: Seq<Seq<char>>,
    rest: Seq<Seq<char>>,
    policy: ShortAliasPolicy,
)
    requires
        collapse(a, policy) is None,
    ensures
        collapse(a + rest, policy) is None,
{
    lemma_collapse_prefix(a + rest, a.len() as int, policy);
    assert((a + rest).take(a.len() as int) =~= a);
}

/// What `.`, `..` and doubled separators stand for: `.` and an empty component can be left
/// out, `..` takes the component before it back, and at the top of the drive it makes the
/// path refused.
pub proof fn law_dots_are_carried_out(
    drive: char,
    front: Seq<Seq<char>>,
    name: Seq<char>,
    back: Seq<Seq<char>>,
    policy: ShortAliasPolicy,
)
    requires
        is_ascii_letter(drive),
        forall|i: int| 0 <= i < front.len() ==> !(#[trigger] front[i]).contains('\\'),
        forall|i: int| 0 <= i < back.len() ==> !(#[trigger] back[i]).contains('\\'),
        stands_for_itself(name),
        policy is Reject ==> !looks_generated(name),
    ensures
        normal_form(path_of(drive, front + seq![seq!['.']] + back), policy) == normal_form(
            path_of(drive, front + back),
            policy,
        ),
        normal_form(path_of(drive, front + seq![Seq::<char>::empty()] + back), policy)
            == normal_form(path_of(drive, front + back), policy),
        normal_form(path_of(drive, front + seq![name, seq!['.', '.']] + back), policy)
            == normal_form(path_of(drive, front + back), policy),
        normal_form(path_of(drive, seq![seq!['.', '.']] + back), policy) is None,
{
    reveal_strlit(".");
    reveal_strlit("..");
    assert("."@ =~= seq!['.']);
    assert(".."@ =~= seq!['.', '.']);
    lemma_plain_component(name, policy);
    let none = Seq::<Seq<char>>::empty();
    let dot = front + seq![seq!['.']];
    assert(dot.drop_last() =~= front);
    lemma_collapse_goes_on(dot, front, back, policy);
    let gap = front + seq![Seq::<char>::empty()];
    assert(gap.drop_last() =~= front);
    lemma_collapse_goes_on(gap, front, back, policy);
    let there = front + seq![name];
    let up = front + seq![name, seq!['.', '.']];
    assert(up.drop_last() =~= there);
    assert(there.drop_last() =~= front);
    assert(there.last() == name);
    assert(collapse(up, policy) == collapse(front, policy)) by {
        if let Some(stack) = collapse(front, policy) {
            assert(collapse(there, policy) == Some(stack.push(name)));
            assert(stack.push(name).drop_last() =~= stack);
        }
    }
    lemma_collapse_goes_on(up, front, back, policy);
    let top = seq![seq!['.', '.']];
    assert(top.drop_last() =~= none);
    assert(top.last() == ".."@);
    assert(collapse(none, policy) == Some(none));
    assert(collapse(top.drop_last(), policy) == Some(none));
    assert(collapse(top, policy) == collect(none, top.last(), policy));
    assert(collapse(top, policy) is None);
    lemma_collapse_fails_on(top, back, policy);
    lemma_all_clean(drive, front, seq![seq!['.']], back, policy);
    lemma_all_clean(drive, front, seq![Seq::<char>::empty()], back, policy);
    lemma_all_clean(drive, front, seq![name, seq!['.', '.']], back, policy);
    lemma_all_clean(drive, front, none, back, policy);
    assert(front + none + back =~= front + back);
    lemma_all_clean(drive, none, top, back, policy);
    assert(none + top + back =~= top + back);
}

proof fn lemma_all_clean(
    drive: char,
    front: Seq<Seq<char>>,
    mid: Seq<Seq<char>>,
    back: Seq<Seq<char>>,
    policy: ShortAliasPolicy,
)
    requires
        is_ascii_letter(drive),
        forall|i: int| 0 <= i < front.len() ==> !(#[trigger] front[i]).contains('\\'),
        forall|i: int| 0 <= i < mid.len() ==> !(#[trigger] mid[i]).contains('\\'),
        forall|i: int| 0 <= i < back.len() ==> !(#[trigger] back[i]).contains('\\'),
    ensures
        normal_form(path_of(drive, front + mid + back), policy) == match collapse(
            front + mid + back,
            policy,
        ) {
            Some(stack) => Some(path_of(drive, stack)),
            None => None,
        },
{
    let all = front + mid + back;
    assert forall|i: int| 0 <= i < all.len() implies !(#[trigger] all[i]).contains('\\') by {
        if i < front.len() {
            assert(all[i] == front[i]);
        } else if i < front.len() + mid.len() {
            assert(all[i] == mid[i - front.len()]);
        } else {
            assert(all[i] == back[i - front.len() - mid.len()]);
        }
    }
    lemma_path_of(drive, all, policy);
}

/// A path with a component that Windows takes for something else has no normal form, and,
/// where generated short names are not accepted, nor has one that looks like such a name.
pub proof fn law_misread_components_are_refused(
    drive: char,
    front: Seq<Seq<char>>,
    name: Seq<char>,
    back: Seq<Seq<char>>,
    policy: ShortAliasPolicy,
)
    requires
        is_ascii_letter(drive),
        forall|i: int| 0 <= i < front.len() ==> !(#[trigger] front[i]).contains('\\'),
        forall|i: int| 0 <= i < back.len() ==> !(#[trigger] back[i]).contains('\\'),
        !name.contains('\\'),
        name.len() > 0,
        name != seq!['.'],
        name != seq!['.', '.'],
        is_misread(name) || (policy is Reject && looks_generated(name)),
    ensures
        normal_form(path_of(drive, front + seq![name] + back), policy) is None,
{
    reveal_strlit(".");
    reveal_strlit("..");
    assert("."@ =~= seq!['.']);
    assert(".."@ =~= seq!['.', '.']);
    law_misread_components_are_ambiguous(name);
    law_short_aliases_look_generated(name);
    let there = front + seq![name];
    assert(there.drop_last() =~= front);
    assert(there.last() == name);
    lemma_collapse_fails_on(there, back, policy);
    lemma_all_clean(drive, front, seq![name], back, policy);
}

/// Only a path that names a drive and begins at its root has a normal form.
pub proof fn law_only_drive_paths_have_a_form(p: Seq<char>, policy: ShortAliasPolicy)
    requires
        normal_form(p, policy) is Some,
    ensures
        p.len() >= 3,
        ('a' <= p[0] && p[0] <= 'z') || ('A' <= p[0] && p[0] <= 'Z'),
        p[1] == ':' && p[2] == '\\',
        (normal_form(p, policy)->0).take(3) == p.take(3),
{
    let n = normal_form(p, policy)->0;
    assert(n.take(3) =~= p.take(3));
}

/// How an ASCII path is folded: character by character, a capital letter to its small one,
/// `/` to `\`, and every other character to itself.
pub proof fn law_folding_goes_by_characters(path: Seq<char>)
    requires
        is_ascii_chars(path),
    ensures
        folded(path).len() == path.len(),
        forall|i: int|
            #![trigger folded(path)[i]]
            0 <= i < path.len() ==> {
                &&& path[i] == '/' ==> folded(path)[i] == '\\'
                &&& 'A' <= path[i] && path[i] <= 'Z' ==> folded(path)[i] as u8 == path[i] as u8 + 32
                &&& path[i] != '/' && !('A' <= path[i] && path[i] <= 'Z') ==> folded(path)[i]
                    == path[i]
            },
{
}

/// The form of a declared root is the folded root without the separators at its end; there
/// is none where nothing is left.
pub proof fn law_root_forms_end_in_no_separator(root: Seq<char>)
    ensures
        match root_form(root) {
            Some(r) => {
                &&& r.len() > 0 && r.last() != '\\'
                &&& r.is_prefix_of(folded(root))
                &&& forall|i: int| r.len() <= i < folded(root).len() ==> #[trigger] folded(root)[i]
                    == '\\'
            },
            None => forall|i: int| 0 <= i < folded(root).len() ==> #[trigger] folded(root)[i]
                == '\\',
        },
{
    lemma_without_trailing(folded(root));
}

proof fn lemma_without_trailing(s: Seq<char>)
    ensures
        ({
            let r = without_trailing_seps(s);
            &&& r.len() > 0 ==> r.last() != '\\'
            &&& r.is_prefix_of(s)
            &&& forall|i: int| r.len() <= i < s.len() ==> #[trigger] s[i] == '\\'
        }),
    decreases s.len(),
{
    if s.len() > 0 && s.last() == '\\' {
        let t = s.drop_last();
        lemma_without_trailing(t);
        let r = without_trailing_seps(s);
        assert forall|i: int| r.len() <= i < s.len() implies #[trigger] s[i] == '\\' by {
            if i < t.len() {
                assert(t[i] == s[i]);
            }
        }
        assert(t.is_prefix_of(s));
        assert(r =~= s.take(r.len() as int));
    }
}

/// Where a remapped request is read from: below the backing directory by what is left of
/// it behind the logical root, and from itself where it is not below that root.
pub proof fn law_requests_are_remapped_below_the_root(
    request: Seq<char>,
    logical: Seq<char>,
    rest: Seq<char>,
    backing: RootModel,
)
    requires
        logical.len() > 0 ==> logical.last() != '\\',
        rest.len() > 0 ==> rest[0] != '\\',
    ensures
        remapped(logical + seq!['\\'] + rest, logical, backing) == Some(backing.join(rest)),
        remapped(logical, logical, backing) == Some(backing.join(Seq::empty())),
        !logical.is_prefix_of(request) ==> remapped(request, logical, backing) is None,
        logical.is_prefix_of(request) && request.len() > logical.len() && request[logical.len() as int]
            != '\\' ==> remapped(request, logical, backing) is None,
{
    let n = logical.len() as int;
    assert(without_trailing_seps(logical) == logical);
    let p = logical + seq!['\\'] + rest;
    assert(p.take(n) =~= logical);
    let left = p.skip(n);
    assert(left[0] == '\\');
    assert(left.drop_first() =~= rest);
    assert(without_leading_seps(left) == without_leading_seps(rest));
    assert(logical.take(n) =~= logical);
    assert(logical.skip(n) =~= Seq::<char>::empty());
    if request.len() >= n && request.take(n) == logical {
        assert(logical.is_prefix_of(request));
    }
}

} // verus!
