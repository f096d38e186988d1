//! The environment of a process: validation, overlay, lookup, and the block in
//! which it is handed over.
//!
//! A block is each variable as its name, `=`, its value and a zero, all in
//! UTF-16, with one more zero at the end.

use crate::env_filter::env_texts;
use crate::failure::{Failure, FailureKind};
use crate::order::{
    law_sorting_by_a_relation_orders, lemma_sorted_seen_as, seen_as, sort_list, sorted_by, Listed,
};
use crate::text::{
    chars_of, has_char, lemma_bytes_irreflexive, lemma_bytes_transitive, lemma_text_total, lower,
    same_ignoring_case, string_of, text_before, text_precedes, to_lower,
};
use crate::utf16::{
    lemma_units_concat, lemma_utf16_text, lemma_zero_free, push_utf16, text_of_utf16, utf16_text,
    utf16_units,
};
use vstd::prelude::*;

verus! {

/// What is wrong with a variable, if anything is.
pub open spec fn entry_problem(key: Seq<char>, value: Seq<char>) -> Option<
    (FailureKind, Seq<char>),
> {
    if key.len() == 0 || key.contains('\0') || value.contains('\0') {
        Some(
            (
                FailureKind::InvalidInput,
                "environment keys and values must be nonempty NUL-free UTF-16 strings"@,
            ),
        )
    } else if key.contains('=') && key[0] != '=' {
        Some((FailureKind::InvalidInput, "environment key contains '=': "@ + key))
    } else {
        None
    }
}

/// Checks the name and the value of a variable. A name may begin with `=`, and
/// holds none elsewhere unless it does.
pub fn validate_environment_entry(key: &str, value: &str) -> (r: Result<(), Failure>)
    ensures
        match r {
            Ok(_) => entry_problem(key@, value@) is None,
            Err(f) => entry_problem(key@, value@) == Some(f@),
        },
{
    if key.is_empty() || has_char(key, '\0') || has_char(value, '\0') {
        return Err(
            Failure::new(
                FailureKind::InvalidInput,
                "environment keys and values must be nonempty NUL-free UTF-16 strings",
            ),
        );
    }
    let chars = chars_of(key);
    if has_char(key, '=') && chars[0] != '=' {
        return Err(
            Failure::about(FailureKind::InvalidInput, "environment key contains '=': ", key),
        );
    }
    Ok(())
}

/// The variables of `env` that are not called `key`, whatever the case.
pub open spec fn without_key(
    env: Seq<(Seq<char>, Seq<char>)>,
    key: Seq<char>,
) -> Seq<(Seq<char>, Seq<char>)>
    decreases env.len(),
{
    if env.len() == 0 {
        Seq::empty()
    } else {
        let rest = without_key(env.drop_last(), key);
        if lower(env.last().0) == lower(key) {
            rest
        } else {
            rest.push(env.last())
        }
    }
}

/// An environment with further variables laid over it one after the other, or
/// what is wrong with the first that is refused.
pub open spec fn overlaid(
    base: Seq<(Seq<char>, Seq<char>)>,
    overlay: Seq<(Seq<char>, Seq<char>)>,
) -> Result<Seq<(Seq<char>, Seq<char>)>, (FailureKind, Seq<char>)>
    decreases overlay.len(),
{
    if overlay.len() == 0 {
        Ok(base)
    } else {
        let v = overlay.last();
        match overlaid(base, overlay.drop_last()) {
            Ok(env) => match entry_problem(v.0, v.1) {
                Some(problem) => Err(problem),
                None => Ok(without_key(env, v.0).push(v)),
            },
            Err(problem) => Err(problem),
        }
    }
}

/// Whether a variable is listed before another: by name without case, then by
/// name.
pub open spec fn name_before(a: Seq<char>, b: Seq<char>) -> bool {
    ||| text_before(lower(a), lower(b))
    ||| lower(a) == lower(b) && text_before(a, b)
}

/// [`name_before`] on variables.
pub open spec fn var_before() -> spec_fn((Seq<char>, Seq<char>), (Seq<char>, Seq<char>)) -> bool {
    |a: (Seq<char>, Seq<char>), b: (Seq<char>, Seq<char>)| name_before(a.0, b.0)
}

proof fn lemma_text_asymmetric(a: Seq<char>, b: Seq<char>)
    requires
        text_before(a, b),
    ensures
        !text_before(b, a),
{
    let x = vstd::utf8::encode_utf8(a);
    let y = vstd::utf8::encode_utf8(b);
    if text_before(b, a) {
        lemma_bytes_transitive(x, y, x);
        lemma_bytes_irreflexive(x);
    }
}

proof fn lemma_text_transitive(a: Seq<char>, b: Seq<char>, c: Seq<char>)
    requires
        text_before(a, b),
        text_before(b, c),
    ensures
        text_before(a, c),
{
    lemma_bytes_transitive(
        vstd::utf8::encode_utf8(a),
        vstd::utf8::encode_utf8(b),
        vstd::utf8::encode_utf8(c),
    );
}

impl Listed for (String, String) {
    open spec fn ahead(self, other: Self) -> bool {
        name_before(self.0@, other.0@)
    }

    fn is_ahead(&self, other: &Self) -> (r: bool) {
        let left = to_lower(self.0.as_str());
        let right = to_lower(other.0.as_str());
        if left == right {
            proof {
                lemma_bytes_irreflexive(vstd::utf8::encode_utf8(left@));
            }
            text_precedes(self.0.as_str(), other.0.as_str())
        } else {
            text_precedes(left.as_str(), right.as_str())
        }
    }

    proof fn ahead_asymmetric(a: Self, b: Self) {
        let (x, y) = (lower(a.0@), lower(b.0@));
        if text_before(x, y) {
            lemma_text_asymmetric(x, y);
            lemma_bytes_irreflexive(vstd::utf8::encode_utf8(x));
        } else {
            lemma_text_asymmetric(a.0@, b.0@);
            lemma_bytes_irreflexive(vstd::utf8::encode_utf8(x));
        }
    }

    proof fn ahead_carries(a: Self, b: Self, c: Self) {
        let (x, y, z) = (lower(a.0@), lower(b.0@), lower(c.0@));
        lemma_text_total(z, y);
        lemma_text_total(c.0@, b.0@);
        if text_before(x, y) {
            if text_before(y, z) {
                lemma_text_transitive(x, y, z);
            }
        } else {
            if z == y && text_before(b.0@, c.0@) {
                lemma_text_transitive(a.0@, b.0@, c.0@);
            }
        }
    }
}

fn remove_key(env: Vec<(String, String)>, key: &str) -> (r: Vec<(String, String)>)
    ensures
        env_texts(r@) == without_key(env_texts(env@), key@),
{
    let ghost all = env_texts(env@);
    let mut r: Vec<(String, String)> = Vec::new();
    let mut i: usize = 0;
    assert(all.take(0) =~= Seq::<(Seq<char>, Seq<char>)>::empty());
    assert(env_texts(r@) =~= without_key(all.take(0), key@));
    while i < env.len()
        invariant
            i <= env@.len(),
            all == env_texts(env@),
            env_texts(r@) == without_key(all.take(i as int), key@),
        decreases env@.len() - i,
    {
        let ghost now = all.take(i + 1);
        let ghost before = r@;
        assert(now.drop_last() =~= all.take(i as int));
        assert(now.last() == (env@[i as int].0@, env@[i as int].1@));
        if !same_ignoring_case(env[i].0.as_str(), key) {
            r.push((env[i].0.clone(), env[i].1.clone()));
            assert(env_texts(r@) =~= env_texts(before).push(now.last()));
        }
        i = i + 1;
    }
    assert(all.take(i as int) =~= all);
    r
}

proof fn lemma_overlaid_prefix(
    base: Seq<(Seq<char>, Seq<char>)>,
    overlay: Seq<(Seq<char>, Seq<char>)>,
    n: int,
)
    requires
        0 <= n <= overlay.len(),
        overlaid(base, overlay.take(n)) is Err,
    ensures
        overlaid(base, overlay) == overlaid(base, overlay.take(n)),
    decreases overlay.len(),
{
    if n == overlay.len() {
        assert(overlay.take(n) =~= overlay);
    } else {
        assert(overlay.drop_last().take(n) =~= overlay.take(n));
        lemma_overlaid_prefix(base, overlay.drop_last(), n);
    }
}

/// Lays `overlay` over `base` in the order given, and sorts the result by name. A
/// variable replaces those of its name, whatever the case.
pub fn overlay_environment(
    base: Vec<(String, String)>,
    overlay: &Vec<(String, String)>,
) -> (r: Result<Vec<(String, String)>, Failure>)
    ensures
        match overlaid(env_texts(base@), env_texts(overlay@)) {
            Ok(env) => r matches Ok(list) && env_texts(list@) == sorted_by(env, var_before()),
            Err(problem) => r matches Err(f) && f@ == problem,
        },
{
    let ghost b = env_texts(base@);
    let ghost over = env_texts(overlay@);
    let mut env = base;
    let mut i: usize = 0;
    assert(over.take(0) =~= Seq::<(Seq<char>, Seq<char>)>::empty());
    while i < overlay.len()
        invariant
            i <= overlay@.len(),
            over == env_texts(overlay@),
            b == env_texts(base@),
            overlaid(b, over.take(i as int)) == Ok::<
                Seq<(Seq<char>, Seq<char>)>,
                (FailureKind, Seq<char>),
            >(env_texts(env@)),
        decreases overlay@.len() - i,
    {
        let ghost now = over.take(i + 1);
        assert(now.drop_last() =~= over.take(i as int));
        assert(now.last() == (overlay@[i as int].0@, overlay@[i as int].1@));
        match validate_environment_entry(overlay[i].0.as_str(), overlay[i].1.as_str()) {
            Ok(_) => {},
            Err(f) => {
                proof {
                    lemma_overlaid_prefix(b, over, i + 1);
                }
                return Err(f);
            },
        }
        env = remove_key(env, overlay[i].0.as_str());
        let ghost before = env@;
        env.push((overlay[i].0.clone(), overlay[i].1.clone()));
        assert(env_texts(env@) =~= env_texts(before).push(now.last()));
        i = i + 1;
    }
    assert(over.take(i as int) =~= over);
    let ghost unsorted = env@;
    let list = sort_list(env);
    proof {
        let view = |v: (String, String)| (v.0@, v.1@);
        assert forall|x: (String, String), y: (String, String)| #[trigger]
            x.ahead(y) == var_before()(view(x), view(y)) by {}
        lemma_sorted_seen_as(unsorted, view, var_before());
        assert(seen_as(list@, view) =~= env_texts(list@));
        assert(seen_as(unsorted, view) =~= env_texts(unsorted));
    }
    Ok(list)
}

/// The value of the first variable called `key`, whatever the case.
pub open spec fn value_of(env: Seq<(Seq<char>, Seq<char>)>, key: Seq<char>) -> Option<Seq<char>>
    decreases env.len(),
{
    if env.len() == 0 {
        None
    } else if lower(env[0].0) == lower(key) {
        Some(env[0].1)
    } else {
        value_of(env.drop_first(), key)
    }
}

/// The value of the first variable called `key`, whatever the case.
pub fn environment_value(environment: &Vec<(String, String)>, key: &str) -> (r: Option<String>)
    ensures
        match value_of(env_texts(environment@), key@) {
            Some(v) => r matches Some(s) && s@ == v,
            None => r is None,
        },
{
    let ghost env = env_texts(environment@);
    let mut i: usize = 0;
    assert(env.skip(0) =~= env);
    while i < environment.len()
        invariant
            i <= environment@.len(),
            env == env_texts(environment@),
            value_of(env, key@) == value_of(env.skip(i as int), key@),
        decreases environment@.len() - i,
    {
        assert(env.skip(i as int).drop_first() =~= env.skip(i + 1));
        assert(env.skip(i as int)[0] == (environment@[i as int].0@, environment@[i as int].1@));
        if same_ignoring_case(environment[i].0.as_str(), key) {
            return Some(environment[i].1.clone());
        }
        i = i + 1;
    }
    None
}

/// A variable in an environment block.
pub open spec fn entry_units(v: (Seq<char>, Seq<char>)) -> Seq<u16> {
    (utf16_units(v.0).push('=' as u16) + utf16_units(v.1)).push(0)
}

/// The variables of an environment block.
pub open spec fn entries_units(env: Seq<(Seq<char>, Seq<char>)>) -> Seq<u16>
    decreases env.len(),
{
    if env.len() == 0 {
        Seq::empty()
    } else {
        entries_units(env.drop_last()) + entry_units(env.last())
    }
}

/// The environment block of a list of variables. An empty one is two zeros.
pub open spec fn block_units(env: Seq<(Seq<char>, Seq<char>)>) -> Seq<u16> {
    if env.len() == 0 {
        seq![0u16, 0u16]
    } else {
        entries_units(env).push(0)
    }
}

/// What is wrong with the first variable that is refused, if any is.
pub open spec fn first_problem(env: Seq<(Seq<char>, Seq<char>)>) -> Option<
    (FailureKind, Seq<char>),
>
    decreases env.len(),
{
    if env.len() == 0 {
        None
    } else {
        match first_problem(env.drop_last()) {
            Some(problem) => Some(problem),
            None => entry_problem(env.last().0, env.last().1),
        }
    }
}

proof fn lemma_first_problem_prefix(env: Seq<(Seq<char>, Seq<char>)>, n: int)
    requires
        0 <= n <= env.len(),
        first_problem(env.take(n)) is Some,
    ensures
        first_problem(env) == first_problem(env.take(n)),
    decreases env.len(),
{
    if n == env.len() {
        assert(env.take(n) =~= env);
    } else {
        assert(env.drop_last().take(n) =~= env.take(n));
        lemma_first_problem_prefix(env.drop_last(), n);
    }
}

/// The environment block of a list of variables.
pub fn encode_environment_block(environment: &Vec<(String, String)>) -> (r: Result<
    Vec<u16>,
    Failure,
>)
    ensures
        match first_problem(env_texts(environment@)) {
            Some(problem) => r matches Err(f) && f@ == problem,
            None => r matches Ok(block) && block@ == block_units(env_texts(environment@)),
        },
{
    let ghost env = env_texts(environment@);
    let mut block: Vec<u16> = Vec::new();
    let mut i: usize = 0;
    assert(env.take(0) =~= Seq::<(Seq<char>, Seq<char>)>::empty());
    assert(block@ =~= entries_units(env.take(0)));
    while i < environment.len()
        invariant
            i <= environment@.len(),
            env == env_texts(environment@),
            block@ == entries_units(env.take(i as int)),
            first_problem(env.take(i as int)) is None,
        decreases environment@.len() - i,
    {
        let ghost now = env.take(i + 1);
        assert(now.drop_last() =~= env.take(i as int));
        assert(now.last() == (environment@[i as int].0@, environment@[i as int].1@));
        let key = environment[i].0.as_str();
        let value = environment[i].1.as_str();
        match validate_environment_entry(key, value) {
            Ok(_) => {},
            Err(f) => {
                proof {
                    lemma_first_problem_prefix(env, i + 1);
                }
                return Err(f);
            },
        }
        push_utf16(&mut block, key);
        block.push(61);
        push_utf16(&mut block, value);
        block.push(0);
        assert(block@ =~= entries_units(now));
        i = i + 1;
    }
    assert(env.take(i as int) =~= env);
    block.push(0);
    if block.len() == 1 {
        block.push(0);
    }
    proof {
        if env.len() > 0 {
            assert(entry_units(env.last()).len() > 0);
            assert(block@ =~= block_units(env));
        } else {
            assert(block@ =~= block_units(env));
        }
    }
    Ok(block)
}

/// The place of the first zero in `b`, or its length.
pub open spec fn first_zero(b: Seq<u16>) -> nat
    decreases b.len(),
{
    if b.len() == 0 || b[0] == 0 {
        0
    } else {
        1 + first_zero(b.drop_first())
    }
}

/// The place of the first `=` of an entry behind its first character, which is
/// where its name ends.
pub open spec fn delimiter(entry: Seq<char>) -> Option<int> {
    if exists|i: int| 1 <= i < entry.len() && entry[i] == '=' {
        Some(
            choose|i: int|
                1 <= i < entry.len() && entry[i] == '=' && forall|j: int|
                    1 <= j < i ==> entry[j] != '=',
        )
    } else {
        None
    }
}

/// The variable that an entry of a block holds.
pub open spec fn entry_of(units: Seq<u16>) -> Result<
    (Seq<char>, Seq<char>),
    (FailureKind, Seq<char>),
> {
    match utf16_text(units) {
        Some(entry) => match delimiter(entry) {
            Some(d) => {
                let v = (entry.take(d), entry.skip(d + 1));
                match entry_problem(v.0, v.1) {
                    Some(problem) => Err(problem),
                    None => Ok(v),
                }
            },
            None => Err(
                (FailureKind::InvalidData, "caller environment entry has no '=' delimiter"@),
            ),
        },
        None => Err((FailureKind::InvalidData, "caller environment contains invalid UTF-16"@)),
    }
}

/// The first variable of an environment block and where the next one begins;
/// `None` at the empty entry that ends the block.
pub open spec fn block_head(b: Seq<u16>) -> Result<
    Option<((Seq<char>, Seq<char>), int)>,
    (FailureKind, Seq<char>),
> {
    let n = first_zero(b) as int;
    if b.len() == 0 {
        Err((FailureKind::InvalidData, "caller environment block is not terminated"@))
    } else if b[0] == 0 {
        Ok(None)
    } else if n >= b.len() {
        Err((FailureKind::InvalidData, "caller environment entry is not terminated"@))
    } else {
        match entry_of(b.take(n)) {
            Ok(v) => Ok(Some((v, n + 1))),
            Err(problem) => Err(problem),
        }
    }
}

/// The variables of an environment block.
pub open spec fn block_vars(b: Seq<u16>) -> Result<
    Seq<(Seq<char>, Seq<char>)>,
    (FailureKind, Seq<char>),
>
    decreases b.len(),
{
    match block_head(b) {
        Ok(Some((v, next))) => match block_vars(b.skip(next)) {
            Ok(rest) => Ok(seq![v] + rest),
            Err(problem) => Err(problem),
        },
        Ok(None) => Ok(Seq::empty()),
        Err(problem) => Err(problem),
    }
}

proof fn lemma_first_zero(b: Seq<u16>, n: int)
    requires
        0 <= n <= b.len(),
        forall|i: int| 0 <= i < n ==> b[i] != 0,
        n < b.len() ==> b[n] == 0,
    ensures
        first_zero(b) == n,
    decreases n,
{
    if n > 0 {
        lemma_first_zero(b.drop_first(), n - 1);
    }
}

fn read_entry(units: &[u16]) -> (r: Result<(String, String), Failure>)
    ensures
        match entry_of(units@) {
            Ok(v) => r matches Ok(s) && (s.0@, s.1@) == v,
            Err(problem) => r matches Err(f) && f@ == problem,
        },
{
    let entry = match text_of_utf16(units) {
        Some(entry) => entry,
        None => {
            return Err(
                Failure::new(
                    FailureKind::InvalidData,
                    "caller environment contains invalid UTF-16",
                ),
            );
        },
    };
    let chars = chars_of(entry.as_str());
    let mut d: usize = 1;
    while d < chars.len() && chars[d] != '='
        invariant
            1 <= d,
            d <= chars@.len() || d == 1,
            forall|j: int| 1 <= j < d ==> chars@[j] != '=',
        decreases chars@.len() - d,
    {
        d = d + 1;
    }
    if d >= chars.len() {
        assert(delimiter(entry@) is None);
        return Err(
            Failure::new(
                FailureKind::InvalidData,
                "caller environment entry has no '=' delimiter",
            ),
        );
    }
    proof {
        assert(entry@[d as int] == '=');
        let e = delimiter(entry@)->0;
        assert(1 <= d < entry@.len() && entry@[d as int] == '=' && forall|j: int|
            1 <= j < d ==> entry@[j] != '=');
        assert(e == d);
    }
    let key = string_of(&chars, 0, d);
    let value = string_of(&chars, d + 1, chars.len());
    assert(key@ =~= entry@.take(d as int));
    assert(value@ =~= entry@.skip(d + 1));
    match validate_environment_entry(key.as_str(), value.as_str()) {
        Ok(_) => Ok((key, value)),
        Err(f) => Err(f),
    }
}

/// The variable that begins at `at`, and where the next one begins.
fn read_head(units: &[u16], at: usize) -> (r: Result<Option<((String, String), usize)>, Failure>)
    requires
        at <= units@.len(),
    ensures
        match block_head(units@.skip(at as int)) {
            Ok(Some((v, next))) => r matches Ok(Some((s, n))) && (s.0@, s.1@) == v && n == at + next
                && at < n <= units@.len(),
            Ok(None) => r matches Ok(None),
            Err(problem) => r matches Err(f) && f@ == problem,
        },
{
    let ghost b = units@.skip(at as int);
    if at >= units.len() {
        return Err(
            Failure::new(FailureKind::InvalidData, "caller environment block is not terminated"),
        );
    }
    assert(b[0] == units@[at as int]);
    if units[at] == 0 {
        return Ok(None);
    }
    let mut end: usize = at;
    while end < units.len() && units[end] != 0
        invariant
            at <= end <= units@.len(),
            forall|i: int| at <= i < end ==> units@[i] != 0,
        decreases units@.len() - end,
    {
        end = end + 1;
    }
    proof {
        assert forall|i: int| 0 <= i < end - at implies b[i] != 0 by {
            assert(b[i] == units@[at + i]);
        }
        if end < units@.len() {
            assert(b[end - at] == units@[end as int]);
        }
        lemma_first_zero(b, end - at);
    }
    if end >= units.len() {
        return Err(
            Failure::new(FailureKind::InvalidData, "caller environment entry is not terminated"),
        );
    }
    let entry = vstd::slice::slice_subrange(units, at, end);
    assert(entry@ =~= b.take(end - at));
    match read_entry(entry) {
        Ok(v) => Ok(Some((v, end + 1))),
        Err(f) => Err(f),
    }
}

/// What is left to say of a block when `done` has been read from it.
spec fn continued(
    done: Seq<(Seq<char>, Seq<char>)>,
    rest: Result<Seq<(Seq<char>, Seq<char>)>, (FailureKind, Seq<char>)>,
) -> Result<Seq<(Seq<char>, Seq<char>)>, (FailureKind, Seq<char>)> {
    match rest {
        Ok(list) => Ok(done + list),
        Err(problem) => Err(problem),
    }
}

proof fn lemma_continued_step(
    done: Seq<(Seq<char>, Seq<char>)>,
    b: Seq<u16>,
    v: (Seq<char>, Seq<char>),
    next: int,
)
    requires
        block_head(b) == Ok::<
            Option<((Seq<char>, Seq<char>), int)>,
            (FailureKind, Seq<char>),
        >(Some((v, next))),
    ensures
        continued(done, block_vars(b)) == continued(done.push(v), block_vars(b.skip(next))),
{
    let rest = block_vars(b.skip(next));
    if rest is Ok {
        assert(done + (seq![v] + rest->Ok_0) =~= done.push(v) + rest->Ok_0);
    }
}

/// The variables of an environment block.
#[verifier::spinoff_prover]
pub fn parse_environment_block(units: &[u16]) -> (r: Result<Vec<(String, String)>, Failure>)
    ensures
        match block_vars(units@) {
            Ok(env) => r matches Ok(list) && env_texts(list@) == env,
            Err(problem) => r matches Err(f) && f@ == problem,
        },
{
    let mut list: Vec<(String, String)> = Vec::new();
    let mut at: usize = 0;
    proof {
        let none = Seq::<(Seq<char>, Seq<char>)>::empty();
        assert(units@.skip(0) =~= units@);
        assert(env_texts(list@) =~= none);
        if block_vars(units@) is Ok {
            assert(none + block_vars(units@)->Ok_0 =~= block_vars(units@)->Ok_0);
        }
    }
    loop
        invariant
            at <= units@.len(),
            block_vars(units@) == continued(env_texts(list@), block_vars(units@.skip(at as int))),
        decreases units@.len() - at,
    {
        let ghost b = units@.skip(at as int);
        let ghost before = env_texts(list@);
        match read_head(units, at) {
            Ok(Some((v, next))) => {
                proof {
                    lemma_continued_step(before, b, (v.0@, v.1@), next - at);
                    assert(b.skip(next - at) =~= units@.skip(next as int));
                }
                list.push(v);
                assert(env_texts(list@) =~= before.push((v.0@, v.1@)));
                at = next;
            },
            Ok(None) => {
                assert(before + Seq::<(Seq<char>, Seq<char>)>::empty() =~= before);
                return Ok(list);
            },
            Err(f) => {
                return Err(f);
            },
        }
    }
}

/// A variable that a block can hand over: a good name, with no `=` behind its
/// first character, and no zero in it.
pub open spec fn transferable(v: (Seq<char>, Seq<char>)) -> bool {
    &&& v.0.len() > 0
    &&& !v.0.contains('\0')
    &&& !v.1.contains('\0')
    &&& forall|i: int| 1 <= i < v.0.len() ==> v.0[i] != '='
}

proof fn lemma_read_entry_units(v: (Seq<char>, Seq<char>), rest: Seq<u16>)
    requires
        transferable(v),
    ensures
        block_head(entry_units(v) + rest) == Ok::<
            Option<((Seq<char>, Seq<char>), int)>,
            (FailureKind, Seq<char>),
        >(Some((v, entry_units(v).len() as int))),
{
    let entry = v.0.push('=') + v.1;
    let units = utf16_units(v.0).push('=' as u16) + utf16_units(v.1);
    let b = entry_units(v) + rest;
    assert(seq!['='].drop_last() =~= Seq::<char>::empty());
    assert(utf16_units(seq!['=']) =~= seq!['=' as u16]) by {
        assert(utf16_units(Seq::<char>::empty()) =~= Seq::<u16>::empty());
    }
    lemma_units_concat(v.0, seq!['=']);
    assert(v.0 + seq!['='] =~= v.0.push('='));
    lemma_units_concat(v.0.push('='), v.1);
    assert(utf16_units(entry) =~= units);
    assert(!entry.contains('\0')) by {
        assert forall|i: int| 0 <= i < entry.len() implies entry[i] != '\0' by {
            if i < v.0.len() {
                assert(v.0.contains(v.0[i]));
            } else if i > v.0.len() {
                assert(v.1.contains(v.1[i - v.0.len() - 1]));
            }
        }
    }
    lemma_zero_free(entry);
    let n = units.len() as int;
    assert forall|i: int| 0 <= i < n implies b[i] != 0 by {
        assert(b[i] == units[i]);
        assert(units.contains(units[i]));
    }
    assert(b[n] == 0);
    lemma_first_zero(b, n);
    assert(b.take(n) =~= units);
    lemma_utf16_text(entry);
    let d = v.0.len() as int;
    assert(entry[d] == '=');
    assert forall|i: int| 1 <= i < d implies entry[i] != '=' by {
        assert(entry[i] == v.0[i]);
    }
    let e = delimiter(entry)->0;
    assert(1 <= d < entry.len() && entry[d] == '=' && forall|j: int| 1 <= j < d ==> entry[j]
        != '=');
    assert(e == d);
    assert(entry.take(d) =~= v.0);
    assert(entry.skip(d + 1) =~= v.1);
    assert(v.0.contains('=') ==> v.0[0] == '=') by {
        if v.0.contains('=') {
            let i = v.0.index_of('=');
            assert(v.0[i] == '=');
        }
    }
}

proof fn lemma_entries_front(env: Seq<(Seq<char>, Seq<char>)>)
    requires
        env.len() > 0,
    ensures
        entries_units(env) == entry_units(env[0]) + entries_units(env.drop_first()),
    decreases env.len(),
{
    if env.len() == 1 {
        assert(env.drop_last() =~= Seq::<(Seq<char>, Seq<char>)>::empty());
        assert(env.drop_first() =~= Seq::<(Seq<char>, Seq<char>)>::empty());
        assert(entries_units(env) =~= entry_units(env[0]) + entries_units(env.drop_first()));
    } else {
        lemma_entries_front(env.drop_last());
        assert(env.drop_last().drop_first() =~= env.drop_first().drop_last());
        assert(env.drop_first().last() == env.last());
        assert(entries_units(env) =~= entry_units(env[0]) + entries_units(env.drop_first()));
    }
}

proof fn lemma_read_entries(env: Seq<(Seq<char>, Seq<char>)>, rest: Seq<u16>)
    requires
        forall|i: int| 0 <= i < env.len() ==> transferable(#[trigger] env[i]),
        rest.len() > 0,
        rest[0] == 0,
    ensures
        block_vars(entries_units(env) + rest) == Ok::<
            Seq<(Seq<char>, Seq<char>)>,
            (FailureKind, Seq<char>),
        >(env),
    decreases env.len(),
{
    if env.len() == 0 {
        assert(entries_units(env) + rest =~= rest);
        assert(env =~= Seq::<(Seq<char>, Seq<char>)>::empty());
    } else {
        let tail = env.drop_first();
        assert forall|i: int| 0 <= i < tail.len() implies transferable(#[trigger] tail[i]) by {
            assert(tail[i] == env[i + 1]);
        }
        lemma_entries_front(env);
        let more = entries_units(tail) + rest;
        let b = entries_units(env) + rest;
        assert(b =~= entry_units(env[0]) + more);
        assert(transferable(env[0]));
        lemma_read_entry_units(env[0], more);
        assert(b.skip(entry_units(env[0]).len() as int) =~= more);
        lemma_read_entries(tail, rest);
        assert(seq![env[0]] + tail =~= env);
    }
}

/// A process finds the variables that it was given: reading the block of a list
/// of transferable variables gives back the list.
pub proof fn law_environment_survives_the_block(env: Seq<(Seq<char>, Seq<char>)>)
    requires
        forall|i: int| 0 <= i < env.len() ==> transferable(#[trigger] env[i]),
    ensures
        block_vars(block_units(env)) == Ok::<
            Seq<(Seq<char>, Seq<char>)>,
            (FailureKind, Seq<char>),
        >(env),
{
    if env.len() == 0 {
        assert(env =~= Seq::<(Seq<char>, Seq<char>)>::empty());
    } else {
        lemma_read_entries(env, seq![0u16]);
        assert(block_units(env) =~= entries_units(env) + seq![0u16]);
    }
}

/// Of the variables of one name, whatever the case, an accepted overlay leaves
/// none but the last that it brings.
pub proof fn law_overlay_replaces_by_name(
    base: Seq<(Seq<char>, Seq<char>)>,
    overlay: Seq<(Seq<char>, Seq<char>)>,
    i: int,
)
    requires
        overlay.len() > 0,
        overlaid(base, overlay) is Ok,
        0 <= i < overlaid(base, overlay)->Ok_0.len(),
        lower(overlaid(base, overlay)->Ok_0[i].0) == lower(overlay.last().0),
    ensures
        i == overlaid(base, overlay)->Ok_0.len() - 1,
        overlaid(base, overlay)->Ok_0[i] == overlay.last(),
{
    let env = overlaid(base, overlay.drop_last())->Ok_0;
    lemma_without_key(env, overlay.last().0);
}

proof fn lemma_without_key(env: Seq<(Seq<char>, Seq<char>)>, key: Seq<char>)
    ensures
        forall|i: int|
            0 <= i < without_key(env, key).len() ==> lower((#[trigger] without_key(env, key)[i]).0)
                != lower(key),
    decreases env.len(),
{
    if env.len() > 0 {
        lemma_without_key(env.drop_last(), key);
        let rest = without_key(env.drop_last(), key);
        assert forall|i: int| 0 <= i < without_key(env, key).len() implies lower(
            (#[trigger] without_key(env, key)[i]).0,
        ) != lower(key) by {
            if i < rest.len() {
                assert(without_key(env, key)[i] == rest[i]);
            }
        }
    }
}

/// A variable is accepted exactly where it has a name, there is no zero in its name or its
/// value, and there is no `=` in its name unless the name begins with one.
pub proof fn law_sound_variables_are_accepted(key: Seq<char>, value: Seq<char>)
    ensures
        entry_problem(key, value) is None <==> {
            &&& key.len() > 0
            &&& forall|i: int| 0 <= i < key.len() ==> #[trigger] key[i] != '\0'
            &&& forall|i: int| 0 <= i < value.len() ==> #[trigger] value[i] != '\0'
            &&& key[0] == '=' || forall|i: int| 0 <= i < key.len() ==> #[trigger] key[i] != '='
        },
        entry_problem(key, value) matches Some(p) ==> p.0 == FailureKind::InvalidInput,
{
    if key.contains('\0') {
        assert(key[key.index_of('\0')] == '\0');
    }
    if value.contains('\0') {
        assert(value[value.index_of('\0')] == '\0');
    }
    if key.contains('=') {
        assert(key[key.index_of('=')] == '=');
    }
}

/// Laying one more variable over an environment takes out those of its name, whatever the
/// case, and nothing else, and puts it in; all others stay, in their order.
pub proof fn law_overlay_keeps_other_variables(
    base: Seq<(Seq<char>, Seq<char>)>,
    overlay: Seq<(Seq<char>, Seq<char>)>,
    v: (Seq<char>, Seq<char>),
)
    requires
        overlaid(base, overlay) is Ok,
        entry_problem(v.0, v.1) is None,
    ensures
        overlaid(base, Seq::empty()) == Ok::<
            Seq<(Seq<char>, Seq<char>)>,
            (FailureKind, Seq<char>),
        >(base),
        overlaid(base, overlay.push(v)) == Ok::<
            Seq<(Seq<char>, Seq<char>)>,
            (FailureKind, Seq<char>),
        >(
            overlaid(base, overlay)->Ok_0.filter(
                |w: (Seq<char>, Seq<char>)| lower(w.0) != lower(v.0),
            ).push(v),
        ),
{
    assert(overlay.push(v).drop_last() =~= overlay);
    lemma_without_key_filters(overlaid(base, overlay)->Ok_0, v.0);
}

proof fn lemma_without_key_filters(env: Seq<(Seq<char>, Seq<char>)>, key: Seq<char>)
    ensures
        without_key(env, key) == env.filter(
            |w: (Seq<char>, Seq<char>)| lower(w.0) != lower(key),
        ),
    decreases env.len(),
{
    reveal(Seq::filter);
    if env.len() > 0 {
        lemma_without_key_filters(env.drop_last(), key);
    } else {
        assert(without_key(env, key) =~= env);
    }
}

/// An overlay is accepted exactly where each of its variables is, and otherwise the first
/// that is not tells what is wrong; the same holds of the variables of a block.
pub proof fn law_the_first_bad_variable_is_told(
    base: Seq<(Seq<char>, Seq<char>)>,
    overlay: Seq<(Seq<char>, Seq<char>)>,
    n: int,
)
    requires
        0 <= n <= overlay.len(),
        forall|i: int|
            0 <= i < n ==> entry_problem((#[trigger] overlay[i]).0, overlay[i].1) is None,
        n < overlay.len() ==> entry_problem(overlay[n].0, overlay[n].1) is Some,
    ensures
        n == overlay.len() ==> overlaid(base, overlay) is Ok && first_problem(overlay) is None,
        n < overlay.len() ==> {
            let problem = entry_problem(overlay[n].0, overlay[n].1)->0;
            &&& overlaid(base, overlay) == Err::<
                Seq<(Seq<char>, Seq<char>)>,
                (FailureKind, Seq<char>),
            >(problem)
            &&& first_problem(overlay) == Some(problem)
        },
    decreases overlay.len(),
{
    if overlay.len() > 0 {
        let init = overlay.drop_last();
        let m = if n < overlay.len() {
            n
        } else {
            n - 1
        };
        assert forall|i: int| 0 <= i < m implies entry_problem(
            (#[trigger] init[i]).0,
            init[i].1,
        ) is None by {
            assert(init[i] == overlay[i]);
        }
        if n < init.len() {
            assert(init[n] == overlay[n]);
        }
        if n == overlay.len() {
            assert(overlay[n - 1] == overlay.last());
        }
        law_the_first_bad_variable_is_told(base, init, m);
    }
}

/// The variables of an environment are listed by name without case, and those of one name but
/// for the case by name; sorting drops and adds none.
pub proof fn law_variables_are_listed_by_name(env: Seq<(Seq<char>, Seq<char>)>, i: int, j: int)
    requires
        0 <= i < j < sorted_by(env, var_before()).len(),
    ensures
        sorted_by(env, var_before()).to_multiset() == env.to_multiset(),
        ({
            let a = sorted_by(env, var_before())[i].0;
            let b = sorted_by(env, var_before())[j].0;
            lower(a) == lower(b) && (a == b || text_before(a, b)) || lower(a) != lower(b)
                && text_before(lower(a), lower(b))
        }),
{
    let before = var_before();
    assert forall|a: (Seq<char>, Seq<char>), b: (Seq<char>, Seq<char>)| #[trigger]
        before(a, b) implies !before(b, a) by {
        lemma_bytes_irreflexive(vstd::utf8::encode_utf8(lower(a.0)));
        if text_before(lower(a.0), lower(b.0)) {
            lemma_text_asymmetric(lower(a.0), lower(b.0));
        } else {
            lemma_text_asymmetric(a.0, b.0);
        }
    }
    assert forall|
        a: (Seq<char>, Seq<char>),
        b: (Seq<char>, Seq<char>),
        c: (Seq<char>, Seq<char>),
    | #[trigger] before(a, b) && !(#[trigger] before(c, b)) implies before(a, c) by {
        let (x, y, z) = (lower(a.0), lower(b.0), lower(c.0));
        lemma_text_total(z, y);
        lemma_text_total(c.0, b.0);
        if text_before(x, y) {
            if text_before(y, z) {
                lemma_text_transitive(x, y, z);
            }
        } else {
            if z == y && text_before(b.0, c.0) {
                lemma_text_transitive(a.0, b.0, c.0);
            }
        }
    }
    law_sorting_by_a_relation_orders(env, before);
    let a = sorted_by(env, before)[i];
    let b = sorted_by(env, before)[j];
    assert(!before(b, a));
    lemma_text_total(lower(a.0), lower(b.0));
    lemma_text_total(a.0, b.0);
}

/// Looking a variable up gives the value of the first one of its name, whatever the case, and
/// nothing where there is none of that name.
pub proof fn law_the_first_of_a_name_is_found(
    env: Seq<(Seq<char>, Seq<char>)>,
    key: Seq<char>,
    n: int,
)
    requires
        0 <= n <= env.len(),
        forall|i: int| 0 <= i < n ==> lower((#[trigger] env[i]).0) != lower(key),
        n < env.len() ==> lower(env[n].0) == lower(key),
    ensures
        n < env.len() ==> value_of(env, key) == Some(env[n].1),
        n == env.len() ==> value_of(env, key) is None,
    decreases env.len(),
{
    if n > 0 {
        let rest = env.drop_first();
        assert forall|i: int| 0 <= i < n - 1 implies lower((#[trigger] rest[i]).0) != lower(
            key,
        ) by {
            assert(rest[i] == env[i + 1]);
        }
        assert(lower(env[0].0) != lower(key));
        if n < env.len() {
            assert(rest[n - 1] == env[n]);
        }
        law_the_first_of_a_name_is_found(rest, key, n - 1);
    }
}

/// How a block is laid out: the name of each variable, `=`, its value and a zero, in their
/// order, and one more zero at the end; with no variable at all, two zeros.
pub proof fn law_blocks_hold_one_variable_behind_the_other(
    env: Seq<(Seq<char>, Seq<char>)>,
    v: (Seq<char>, Seq<char>),
)
    ensures
        block_units(Seq::empty()) == seq![0u16, 0u16],
        env.len() > 0 ==> block_units(env.push(v)) == block_units(env).drop_last() + utf16_units(v.0)
            + seq![61u16] + utf16_units(v.1) + seq![0u16, 0u16],
        block_units(seq![v]) == utf16_units(v.0) + seq![61u16] + utf16_units(v.1)
            + seq![0u16, 0u16],
{
    assert(env.push(v).drop_last() =~= env);
    assert(seq![v].drop_last() =~= Seq::<(Seq<char>, Seq<char>)>::empty());
    assert(entries_units(Seq::<(Seq<char>, Seq<char>)>::empty()) =~= Seq::<u16>::empty());
    assert(entries_units(seq![v]) =~= entry_units(v));
    assert(block_units(seq![v]) =~= utf16_units(v.0) + seq![61u16] + utf16_units(v.1)
        + seq![0u16, 0u16]);
    if env.len() > 0 {
        assert(block_units(env).drop_last() =~= entries_units(env));
        assert(block_units(env.push(v)) =~= block_units(env).drop_last() + utf16_units(v.0)
            + seq![61u16] + utf16_units(v.1) + seq![0u16, 0u16]);
    }
}

} // verus!
