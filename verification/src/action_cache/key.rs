//! What the key of an action is made of.

use crate::action_cache::toolchain::{name_digest, toolchain_digest};
use crate::env_filter::env_texts;
use crate::intake::tools::ToolchainIdentity;
use crate::order::{
    law_sorting_by_a_relation_orders, lemma_sorted_seen_as, seen_as, sort_list, sorted_by, Listed,
};
use crate::text::{
    lemma_bytes_irreflexive, lemma_bytes_transitive, lemma_text_total, text_before, text_precedes,
};
use vstd::prelude::*;

verus! {

/// What the tool `argv0` is taken for: the file that was found for it, with the digest
/// of its content, or its name alone where no file could be read.
pub fn identify_tool(argv0: &str, found: Option<(String, String)>) -> (r: ToolchainIdentity)
    ensures
        match found {
            Some(file) => r matches ToolchainIdentity::Content { digest, path } && path@ == file.0@
                && digest@ == file.1@,
            None => r matches ToolchainIdentity::NameOnly { digest, argv0: name } && name@ == argv0@
                && digest@ == name_digest(argv0@),
        },
{
    match found {
        Some((path, digest)) => ToolchainIdentity::Content {
            digest: toolchain_digest(argv0, Some(digest)),
            path,
        },
        None => ToolchainIdentity::NameOnly {
            digest: toolchain_digest(argv0, None),
            argv0: argv0.to_owned(),
        },
    }
}

/// Whether a variable stands before another in the key: by its name, then its value.
pub open spec fn pair_before(a: (Seq<char>, Seq<char>), b: (Seq<char>, Seq<char>)) -> bool {
    text_before(a.0, b.0) || (a.0 == b.0 && text_before(a.1, b.1))
}

/// [`pair_before`] as a relation.
pub open spec fn key_order() -> spec_fn((Seq<char>, Seq<char>), (Seq<char>, Seq<char>)) -> bool {
    |a: (Seq<char>, Seq<char>), b: (Seq<char>, Seq<char>)| pair_before(a, b)
}

/// A variable of the key.
struct KeyVariable {
    name: String,
    value: String,
}

proof fn lemma_text_transitive(a: Seq<char>, b: Seq<char>, c: Seq<char>)
    requires
        text_before(a, b),
        text_before(b, c),
    ensures
        text_before(a, c),
{
    lemma_bytes_transitive(
        vstd::utf8::encode_utf8(a),
        vstd::utf8::encode_utf8(b),
        vstd::utf8::encode_utf8(c),
    );
}

proof fn lemma_text_irreflexive(a: Seq<char>)
    ensures
        !text_before(a, a),
{
    lemma_bytes_irreflexive(vstd::utf8::encode_utf8(a));
}

impl Listed for KeyVariable {
    closed spec fn ahead(self, other: Self) -> bool {
        pair_before((self.name@, self.value@), (other.name@, other.value@))
    }

    fn is_ahead(&self, other: &Self) -> (r: bool) {
        if self.name == other.name {
            proof {
                lemma_text_irreflexive(self.name@);
            }
            text_precedes(self.value.as_str(), other.value.as_str())
        } else {
            text_precedes(self.name.as_str(), other.name.as_str())
        }
    }

    proof fn ahead_asymmetric(a: Self, b: Self) {
        lemma_text_irreflexive(a.name@);
        lemma_text_irreflexive(a.value@);
        if text_before(a.name@, b.name@) {
            if text_before(b.name@, a.name@) {
                lemma_text_transitive(a.name@, b.name@, a.name@);
            }
        } else if text_before(b.value@, a.value@) {
            lemma_text_transitive(a.value@, b.value@, a.value@);
        }
    }

    proof fn ahead_carries(a: Self, b: Self, c: Self) {
        lemma_text_total(c.name@, b.name@);
        lemma_text_total(c.value@, b.value@);
        if text_before(a.name@, b.name@) {
            if text_before(b.name@, c.name@) {
                lemma_text_transitive(a.name@, b.name@, c.name@);
            }
        } else if c.name@ == b.name@ && text_before(b.value@, c.value@) {
            lemma_text_transitive(a.value@, b.value@, c.value@);
        }
    }
}

/// The environment of an action in the order in which it goes into the key.
pub fn key_environment(env: &Vec<(String, String)>) -> (r: Vec<(String, String)>)
    ensures
        env_texts(r@) == sorted_by(env_texts(env@), key_order()),
{
    let ghost view = |v: KeyVariable| (v.name@, v.value@);
    let mut list: Vec<KeyVariable> = Vec::new();
    let mut i: usize = 0;
    while i < env.len()
        invariant
            i <= env@.len(),
            list@.len() == i,
            forall|j: int|
                0 <= j < i ==> (#[trigger] list@[j]).name@ == env@[j].0@ && list@[j].value@
                    == env@[j].1@,
        decreases env@.len() - i,
    {
        list.push(KeyVariable { name: env[i].0.clone(), value: env[i].1.clone() });
        i = i + 1;
    }
    assert(seen_as(list@, view) =~= env_texts(env@));
    let ghost unsorted = list@;
    let list = sort_list(list);
    proof {
        assert forall|x: KeyVariable, y: KeyVariable| #[trigger]
            x.ahead(y) == key_order()(view(x), view(y)) by {}
        lemma_sorted_seen_as(unsorted, view, key_order());
    }
    let mut r: Vec<(String, String)> = Vec::new();
    let mut i: usize = 0;
    while i < list.len()
        invariant
            i <= list@.len(),
            r@.len() == i,
            forall|j: int|
                0 <= j < i ==> (#[trigger] r@[j]).0@ == list@[j].name@ && r@[j].1@
                    == list@[j].value@,
        decreases list@.len() - i,
    {
        r.push((list[i].name.clone(), list[i].value.clone()));
        i = i + 1;
    }
    assert(env_texts(r@) =~= seen_as(list@, view));
    r
}

/// The variables of a key are in the order of their names, and those of one name in that of
/// their values; none is left out and none is added. So the order in which they were given
/// does not matter.
pub proof fn law_key_variables_are_in_order(env: Seq<(Seq<char>, Seq<char>)>, i: int, j: int)
    requires
        0 <= i < j < sorted_by(env, key_order()).len(),
    ensures
        sorted_by(env, key_order()).to_multiset() == env.to_multiset(),
        ({
            let a = sorted_by(env, key_order())[i];
            let b = sorted_by(env, key_order())[j];
            text_before(a.0, b.0) || a.0 == b.0 && (text_before(a.1, b.1) || a.1 == b.1)
        }),
{
    let before = key_order();
    assert forall|a: (Seq<char>, Seq<char>), b: (Seq<char>, Seq<char>)| #[trigger]
        before(a, b) implies !before(b, a) by {
        lemma_text_irreflexive(a.0);
        lemma_text_irreflexive(a.1);
        if text_before(a.0, b.0) {
            if text_before(b.0, a.0) {
                lemma_text_transitive(a.0, b.0, a.0);
            }
        } else if text_before(b.1, a.1) {
            lemma_text_transitive(a.1, b.1, a.1);
        }
    }
    assert forall|
        a: (Seq<char>, Seq<char>),
        b: (Seq<char>, Seq<char>),
        c: (Seq<char>, Seq<char>),
    | #[trigger] before(a, b) && !(#[trigger] before(c, b)) implies before(a, c) by {
        lemma_text_total(c.0, b.0);
        lemma_text_total(c.1, b.1);
        if text_before(a.0, b.0) {
            if text_before(b.0, c.0) {
                lemma_text_transitive(a.0, b.0, c.0);
            }
        } else if c.0 == b.0 && text_before(b.1, c.1) {
            lemma_text_transitive(a.1, b.1, c.1);
        }
    }
    law_sorting_by_a_relation_orders(env, before);
    let a = sorted_by(env, before)[i];
    let b = sorted_by(env, before)[j];
    assert(!before(b, a));
    lemma_text_total(a.0, b.0);
    lemma_text_total(a.1, b.1);
}

} // verus!
