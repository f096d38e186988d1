//! A map kept as a vector of entries with pairwise different keys.

use vstd::prelude::*;

verus! {

/// A key that can be compared by its view.
pub trait MapKey: View {
    fn same_key(&self, other: &Self) -> (r: bool)
        ensures
            r == (self@ == other@),
    ;
}

impl MapKey for String {
    fn same_key(&self, other: &Self) -> (r: bool) {
        *self == *other
    }
}

impl MapKey for u32 {
    fn same_key(&self, other: &Self) -> (r: bool) {
        *self == *other
    }
}

/// Some entry of `s` has the key `k`.
pub open spec fn has_key<K: View, V>(s: Seq<(K, V)>, k: K::V) -> bool {
    exists|i: int| 0 <= i < s.len() && #[trigger] s[i].0@ == k
}

/// The place of an entry with the key `k`.
pub open spec fn key_index<K: View, V>(s: Seq<(K, V)>, k: K::V) -> int {
    choose|i: int| 0 <= i < s.len() && #[trigger] s[i].0@ == k
}

/// No two entries have the same key.
pub open spec fn distinct_keys<K: View, V>(s: Seq<(K, V)>) -> bool {
    forall|i: int, j: int| 0 <= i < j < s.len() ==> #[trigger] s[i].0@ != #[trigger] s[j].0@
}

/// The map from the views of the keys to the views of the values.
pub open spec fn as_map<K: View, V: View>(s: Seq<(K, V)>) -> Map<K::V, V::V> {
    Map::new(|k: K::V| has_key(s, k), |k: K::V| s[key_index(s, k)].1@)
}

pub proof fn lemma_entry<K: View, V: View>(s: Seq<(K, V)>, i: int)
    requires
        distinct_keys(s),
        0 <= i < s.len(),
    ensures
        as_map(s).contains_key(s[i].0@),
        as_map(s)[s[i].0@] == s[i].1@,
        key_index(s, s[i].0@) == i,
{
    let j = key_index(s, s[i].0@);
    assert(s[i].0@ == s[i].0@);
    assert(0 <= j < s.len() && s[j].0@ == s[i].0@);
    if i < j {
        assert(s[i].0@ != s[j].0@);
    } else if j < i {
        assert(s[j].0@ != s[i].0@);
    }
}

pub proof fn lemma_push<K: View, V: View>(s: Seq<(K, V)>, k: K, v: V)
    requires
        distinct_keys(s),
        !has_key(s, k@),
    ensures
        distinct_keys(s.push((k, v))),
        as_map(s.push((k, v))) == as_map(s).insert(k@, v@),
{
    let t = s.push((k, v));
    assert forall|i: int, j: int| 0 <= i < j < t.len() implies #[trigger] t[i].0@
        != #[trigger] t[j].0@ by {
        if j == s.len() {
            assert(s[i].0@ != k@);
        } else {
            assert(s[i].0@ != s[j].0@);
        }
    }
    assert forall|x: K::V| has_key(t, x) == (has_key(s, x) || x == k@) by {
        if has_key(s, x) {
            let i = key_index(s, x);
            assert(t[i].0@ == x);
        }
        if x == k@ {
            assert(t[s.len() as int].0@ == x);
        }
        if has_key(t, x) && x != k@ {
            let i = key_index(t, x);
            assert(s[i].0@ == x);
        }
    }
    assert forall|x: K::V| #[trigger] has_key(t, x) implies as_map(t)[x] == as_map(s).insert(
        k@,
        v@,
    )[x] by {
        if x == k@ {
            lemma_entry(t, s.len() as int);
        } else {
            let i = key_index(s, x);
            lemma_entry(s, i);
            lemma_entry(t, i);
        }
    }
    assert(as_map(t) =~= as_map(s).insert(k@, v@));
}

pub proof fn lemma_remove<K: View, V: View>(s: Seq<(K, V)>, at: int)
    requires
        distinct_keys(s),
        0 <= at < s.len(),
    ensures
        distinct_keys(s.remove(at)),
        as_map(s.remove(at)) == as_map(s).remove(s[at].0@),
{
    let t = s.remove(at);
    let gone = s[at].0@;
    assert forall|i: int, j: int| 0 <= i < j < t.len() implies #[trigger] t[i].0@
        != #[trigger] t[j].0@ by {
        let a = if i < at {
            i
        } else {
            i + 1
        };
        let b = if j < at {
            j
        } else {
            j + 1
        };
        assert(s[a].0@ != s[b].0@);
    }
    assert forall|x: K::V| has_key(t, x) == (has_key(s, x) && x != gone) by {
        if has_key(t, x) {
            let i = key_index(t, x);
            let a = if i < at {
                i
            } else {
                i + 1
            };
            assert(s[a].0@ == x);
            if a < at {
                assert(s[a].0@ != s[at].0@);
            } else {
                assert(s[at].0@ != s[a].0@);
            }
        }
        if has_key(s, x) && x != gone {
            let i = key_index(s, x);
            let a = if i < at {
                i
            } else {
                i - 1
            };
            assert(t[a].0@ == x);
        }
    }
    assert forall|x: K::V| #[trigger] has_key(t, x) implies as_map(t)[x] == as_map(s)[x] by {
        let i = key_index(t, x);
        lemma_entry(t, i);
        let a = if i < at {
            i
        } else {
            i + 1
        };
        lemma_entry(s, a);
    }
    assert(as_map(t) =~= as_map(s).remove(gone));
}

pub proof fn lemma_set<K: View, V: View>(s: Seq<(K, V)>, at: int, t: Seq<(K, V)>)
    requires
        distinct_keys(s),
        0 <= at < s.len(),
        t.len() == s.len(),
        t[at].0@ == s[at].0@,
        forall|i: int| 0 <= i < s.len() && i != at ==> #[trigger] t[i] == s[i],
    ensures
        distinct_keys(t),
        as_map(t) == as_map(s).insert(s[at].0@, t[at].1@),
{
    assert forall|i: int, j: int| 0 <= i < j < t.len() implies #[trigger] t[i].0@
        != #[trigger] t[j].0@ by {
        assert(s[i].0@ != s[j].0@);
    }
    assert forall|x: K::V| has_key(t, x) == has_key(s, x) by {
        if has_key(t, x) {
            let i = key_index(t, x);
            assert(s[i].0@ == x);
        }
        if has_key(s, x) {
            let i = key_index(s, x);
            assert(t[i].0@ == x);
        }
    }
    lemma_entry(s, at);
    assert forall|x: K::V| #[trigger] has_key(t, x) implies as_map(t)[x] == as_map(s).insert(
        s[at].0@,
        t[at].1@,
    )[x] by {
        let i = key_index(t, x);
        lemma_entry(t, i);
        lemma_entry(s, i);
    }
    assert(as_map(t) =~= as_map(s).insert(s[at].0@, t[at].1@));
}

pub proof fn lemma_len<K: View, V: View>(s: Seq<(K, V)>)
    requires
        distinct_keys(s),
    ensures
        as_map(s).dom().finite(),
        as_map(s).dom().len() == s.len(),
    decreases s.len(),
{
    if s.len() == 0 {
        assert(as_map(s).dom() =~= Set::<K::V>::empty());
    } else {
        let last = s.len() - 1;
        lemma_remove(s, last);
        lemma_len(s.remove(last));
        lemma_entry(s, last);
        let m = as_map(s);
        assert(m.dom() =~= m.remove(s[last].0@).dom().insert(s[last].0@));
    }
}

/// A map held as a vector of entries.
pub struct KeyedVec<K, V> {
    pub entries: Vec<(K, V)>,
}

impl<K: MapKey, V: View> View for KeyedVec<K, V> {
    type V = Map<<K as View>::V, <V as View>::V>;

    open spec fn view(&self) -> Map<<K as View>::V, <V as View>::V> {
        as_map(self.entries@)
    }
}

impl<K: MapKey, V: View> KeyedVec<K, V> {
    pub open spec fn wf(self) -> bool {
        distinct_keys(self.entries@)
    }

    pub fn new() -> (r: Self)
        ensures
            r.wf(),
            r@ == Map::<<K as View>::V, <V as View>::V>::empty(),
            r.entries@.len() == 0,
    {
        let r = KeyedVec { entries: Vec::new() };
        assert(r@ =~= Map::<<K as View>::V, <V as View>::V>::empty());
        r
    }

    pub fn len(&self) -> (r: usize)
        requires
            self.wf(),
        ensures
            r == self@.dom().len(),
            r == self.entries@.len(),
            self@.dom().finite(),
    {
        proof {
            lemma_len(self.entries@);
        }
        self.entries.len()
    }

    /// The place of the entry with the key `key`.
    pub fn find(&self, key: &K) -> (r: Option<usize>)
        requires
            self.wf(),
        ensures
            match r {
                Some(i) => {
                    &&& i < self.entries@.len()
                    &&& self.entries@[i as int].0@ == key@
                    &&& self@.contains_key(key@)
                    &&& self@[key@] == self.entries@[i as int].1@
                },
                None => !self@.contains_key(key@),
            },
    {
        let mut i: usize = 0;
        while i < self.entries.len()
            invariant
                i <= self.entries@.len(),
                self.wf(),
                forall|j: int| 0 <= j < i ==> #[trigger] self.entries@[j].0@ != key@,
            decreases self.entries@.len() - i,
        {
            if self.entries[i].0.same_key(key) {
                proof {
                    lemma_entry(self.entries@, i as int);
                }
                return Some(i);
            }
            i = i + 1;
        }
        None
    }

    /// Adds an entry under a key that is not there yet.
    pub fn add_entry(&mut self, key: K, value: V)
        requires
            old(self).wf(),
            !old(self)@.contains_key(key@),
        ensures
            final(self).wf(),
            final(self)@ == old(self)@.insert(key@, value@),
            final(self).entries@ == old(self).entries@.push((key, value)),
    {
        proof {
            lemma_push(self.entries@, key, value);
        }
        self.entries.push((key, value));
    }

    /// Takes out the entry at place `at`.
    pub fn remove_at(&mut self, at: usize) -> (r: (K, V))
        requires
            old(self).wf(),
            at < old(self).entries@.len(),
        ensures
            final(self).wf(),
            r == old(self).entries@[at as int],
            final(self)@ == old(self)@.remove(r.0@),
            final(self).entries@ == old(self).entries@.remove(at as int),
    {
        proof {
            lemma_remove(self.entries@, at as int);
        }
        self.entries.remove(at)
    }

    /// Replaces the value of the entry at place `at`.
    pub fn set_at(&mut self, at: usize, value: V)
        requires
            old(self).wf(),
            at < old(self).entries@.len(),
        ensures
            final(self).wf(),
            final(self)@ == old(self)@.insert(old(self).entries@[at as int].0@, value@),
            final(self).entries@ == old(self).entries@.update(
                at as int,
                (old(self).entries@[at as int].0, value),
            ),
    {
        let ghost before = self.entries@;
        self.entries[at].1 = value;
        proof {
            lemma_set(before, at as int, self.entries@);
        }
    }
}

} // verus!
