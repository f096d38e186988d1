//! Stable sorting.

use vstd::prelude::*;

verus! {

/// An order by which a list is sorted: entries neither of which is ahead of the
/// other keep the order they came in.
pub trait Listed: Sized {
    spec fn ahead(self, other: Self) -> bool;

    fn is_ahead(&self, other: &Self) -> (r: bool)
        ensures
            r == self.ahead(*other),
    ;

    /// Of two entries at most one is ahead.
    proof fn ahead_asymmetric(a: Self, b: Self)
        requires
            Self::ahead(a, b),
        ensures
            !Self::ahead(b, a),
    ;

    /// What is ahead of something is ahead of whatever is not ahead of that.
    proof fn ahead_carries(a: Self, b: Self, c: Self)
        requires
            Self::ahead(a, b),
            !Self::ahead(c, b),
        ensures
            Self::ahead(a, c),
    ;
}

/// A sorted list with one more entry, which goes behind those that it is not
/// ahead of.
pub open spec fn placed<T: Listed>(sorted: Seq<T>, x: T) -> Seq<T>
    decreases sorted.len(),
{
    if sorted.len() > 0 && x.ahead(sorted.last()) {
        placed(sorted.drop_last(), x).push(sorted.last())
    } else {
        sorted.push(x)
    }
}

/// The entries in order; those of equal rank as they came.
pub open spec fn sorted<T: Listed>(list: Seq<T>) -> Seq<T>
    decreases list.len(),
{
    if list.len() == 0 {
        Seq::empty()
    } else {
        placed(sorted(list.drop_last()), list.last())
    }
}

proof fn lemma_placed_at<T: Listed>(list: Seq<T>, x: T, at: int)
    requires
        0 <= at <= list.len(),
        forall|i: int| at <= i < list.len() ==> x.ahead(#[trigger] list[i]),
        at > 0 ==> !x.ahead(list[at - 1]),
    ensures
        placed(list, x) == list.insert(at, x),
    decreases list.len(),
{
    if at < list.len() {
        lemma_placed_at(list.drop_last(), x, at);
        assert(list.drop_last().insert(at, x).push(list.last()) =~= list.insert(at, x));
    } else {
        assert(list.push(x) =~= list.insert(at, x));
    }
}

/// Sorts a list.
pub fn sort_list<T: Listed>(list: Vec<T>) -> (r: Vec<T>)
    ensures
        r@ == sorted(list@),
{
    let ghost all = list@;
    let mut rest = list;
    let mut pending: Vec<T> = Vec::new();
    // Taken from the end, so that entries can then be taken in the order they
    // came in.
    while rest.len() > 0
        invariant
            all == rest@ + pending@.reverse(),
        decreases rest@.len(),
    {
        let ghost before = rest@;
        let ghost held = pending@;
        if let Some(x) = rest.pop() {
            pending.push(x);
            assert(rest@ + pending@.reverse() =~= before + held.reverse());
        }
    }
    let mut r: Vec<T> = Vec::new();
    assert(all =~= pending@.reverse());
    assert(all.take(0) =~= Seq::<T>::empty());
    let ghost n = all.len();
    while pending.len() > 0
        invariant
            pending@.len() <= n,
            n == all.len(),
            pending@ == all.skip(n - pending@.len()).reverse(),
            r@ == sorted(all.take(n - pending@.len())),
        decreases pending@.len(),
    {
        let ghost k = n - pending@.len();
        if let Some(x) = pending.pop() {
            assert(x == all[k]);
            assert(pending@ =~= all.skip(k + 1).reverse());
            assert(all.take(k + 1).drop_last() =~= all.take(k));
            let mut at: usize = r.len();
            while at > 0 && x.is_ahead(&r[at - 1])
                invariant
                    at <= r@.len(),
                    forall|i: int| at <= i < r@.len() ==> x.ahead(#[trigger] r@[i]),
                decreases at,
            {
                at = at - 1;
            }
            proof {
                lemma_placed_at(r@, x, at as int);
            }
            r.insert(at, x);
        }
    }
    assert(all.take(n as int) =~= all);
    r
}

/// No entry of the list is ahead of one before it.
pub open spec fn in_order<T: Listed>(list: Seq<T>) -> bool {
    forall|i: int, j: int| 0 <= i < j < list.len() ==> !(#[trigger] list[j]).ahead(#[trigger] list[i])
}

proof fn lemma_placed_in_order<T: Listed>(list: Seq<T>, x: T)
    requires
        in_order(list),
    ensures
        in_order(placed(list, x)),
        placed(list, x).to_multiset() == list.to_multiset().insert(x),
        forall|y: T|
            (forall|i: int| 0 <= i < list.len() ==> !y.ahead(#[trigger] list[i])) && !y.ahead(x)
                ==> forall|i: int|
                0 <= i < placed(list, x).len() ==> !y.ahead(#[trigger] placed(list, x)[i]),
    decreases list.len(),
{
    broadcast use vstd::seq_lib::group_to_multiset_ensures;

    if list.len() > 0 && x.ahead(list.last()) {
        let init = list.drop_last();
        let last = list.last();
        assert forall|i: int, j: int| 0 <= i < j < init.len() implies !(#[trigger] init[j]).ahead(
            #[trigger] init[i],
        ) by {
            assert(init[i] == list[i] && init[j] == list[j]);
        }
        lemma_placed_in_order(init, x);
        let p = placed(init, x);
        T::ahead_asymmetric(x, last);
        assert forall|i: int| 0 <= i < init.len() implies !last.ahead(#[trigger] init[i]) by {
            assert(!list[list.len() - 1].ahead(list[i]));
        }
        assert(forall|i: int| 0 <= i < p.len() ==> !last.ahead(#[trigger] p[i]));
        assert(in_order(p.push(last)));
        assert(init.push(last) =~= list);
        assert(p.push(last).to_multiset() =~= list.to_multiset().insert(x));
        assert forall|y: T|
            (forall|i: int| 0 <= i < list.len() ==> !y.ahead(#[trigger] list[i])) && !y.ahead(
                x,
            ) implies forall|i: int|
            0 <= i < placed(list, x).len() ==> !y.ahead(#[trigger] placed(list, x)[i]) by {
            assert forall|i: int| 0 <= i < init.len() implies !y.ahead(#[trigger] init[i]) by {
                assert(init[i] == list[i]);
            }
            assert(!y.ahead(list[list.len() - 1]));
            assert forall|i: int| 0 <= i < placed(list, x).len() implies !y.ahead(
                #[trigger] placed(list, x)[i],
            ) by {
                if i < p.len() {
                    assert(placed(list, x)[i] == p[i]);
                }
            }
        }
    } else {
        assert forall|i: int| 0 <= i < list.len() implies !x.ahead(#[trigger] list[i]) by {
            let last = list.last();
            if x.ahead(list[i]) {
                if i < list.len() - 1 {
                    assert(!list[list.len() - 1].ahead(list[i]));
                    T::ahead_carries(x, list[i], last);
                }
            }
        }
        assert(in_order(list.push(x)));
    }
}

/// A sorted list is in order and holds the same entries.
pub proof fn law_sorting_orders_the_entries<T: Listed>(list: Seq<T>)
    ensures
        in_order(sorted(list)),
        sorted(list).to_multiset() == list.to_multiset(),
    decreases list.len(),
{
    broadcast use vstd::seq_lib::group_to_multiset_ensures;

    if list.len() > 0 {
        law_sorting_orders_the_entries(list.drop_last());
        lemma_placed_in_order(sorted(list.drop_last()), list.last());
        assert(list.drop_last().push(list.last()) =~= list);
    } else {
        assert(list =~= Seq::<T>::empty());
    }
}

/// [`placed`] by the relation `before`.
pub open spec fn placed_by<T>(list: Seq<T>, x: T, before: spec_fn(T, T) -> bool) -> Seq<T>
    decreases list.len(),
{
    if list.len() > 0 && before(x, list.last()) {
        placed_by(list.drop_last(), x, before).push(list.last())
    } else {
        list.push(x)
    }
}

/// [`sorted`] by the relation `before`.
pub open spec fn sorted_by<T>(list: Seq<T>, before: spec_fn(T, T) -> bool) -> Seq<T>
    decreases list.len(),
{
    if list.len() == 0 {
        Seq::empty()
    } else {
        placed_by(sorted_by(list.drop_last(), before), list.last(), before)
    }
}

/// Each entry seen through `f`.
pub open spec fn seen_as<T, U>(list: Seq<T>, f: spec_fn(T) -> U) -> Seq<U> {
    Seq::new(list.len(), |i: int| f(list[i]))
}

proof fn lemma_placed_seen_as<T: Listed, U>(
    list: Seq<T>,
    x: T,
    f: spec_fn(T) -> U,
    before: spec_fn(U, U) -> bool,
)
    requires
        forall|a: T, b: T| #[trigger] a.ahead(b) == before(f(a), f(b)),
    ensures
        seen_as(placed(list, x), f) == placed_by(seen_as(list, f), f(x), before),
    decreases list.len(),
{
    let seen = seen_as(list, f);
    if list.len() > 0 {
        assert(seen.last() == f(list.last()));
        assert(seen.drop_last() =~= seen_as(list.drop_last(), f));
        assert(x.ahead(list.last()) == before(f(x), f(list.last())));
    }
    if list.len() > 0 && x.ahead(list.last()) {
        lemma_placed_seen_as(list.drop_last(), x, f, before);
        let p = placed(list.drop_last(), x);
        assert(seen_as(p.push(list.last()), f) =~= seen_as(p, f).push(f(list.last())));
    } else {
        assert(seen_as(list.push(x), f) =~= seen.push(f(x)));
    }
}

/// Sorting entries and then looking at them through `f` is sorting what is seen.
pub proof fn lemma_sorted_seen_as<T: Listed, U>(
    list: Seq<T>,
    f: spec_fn(T) -> U,
    before: spec_fn(U, U) -> bool,
)
    requires
        forall|a: T, b: T| #[trigger] a.ahead(b) == before(f(a), f(b)),
    ensures
        seen_as(sorted(list), f) == sorted_by(seen_as(list, f), before),
    decreases list.len(),
{
    let seen = seen_as(list, f);
    if list.len() == 0 {
        assert(seen_as(sorted(list), f) =~= sorted_by(seen, before));
    } else {
        lemma_sorted_seen_as(list.drop_last(), f, before);
        assert(seen.drop_last() =~= seen_as(list.drop_last(), f));
        assert(seen.last() == f(list.last()));
        lemma_placed_seen_as(sorted(list.drop_last()), list.last(), f, before);
    }
}

/// Sorting keeps entries of one rank in the order they came in.
pub proof fn law_sorting_is_stable<T: Listed>(list: Seq<T>, x: T)
    ensures
        sorted(list).filter(|y: T| !x.ahead(y) && !y.ahead(x)) == list.filter(
            |y: T| !x.ahead(y) && !y.ahead(x),
        ),
    decreases list.len(),
{
    reveal(Seq::filter);
    if list.len() > 0 {
        law_sorting_is_stable(list.drop_last(), x);
        lemma_placed_stable(sorted(list.drop_last()), list.last(), x);
    }
}

proof fn lemma_placed_stable<T: Listed>(list: Seq<T>, e: T, x: T)
    ensures
        ({
            let same = |y: T| !x.ahead(y) && !y.ahead(x);
            placed(list, e).filter(same) == if same(e) {
                list.filter(same).push(e)
            } else {
                list.filter(same)
            }
        }),
    decreases list.len(),
{
    reveal(Seq::filter);
    let same = |y: T| !x.ahead(y) && !y.ahead(x);
    if list.len() > 0 && e.ahead(list.last()) {
        let last = list.last();
        lemma_placed_stable(list.drop_last(), e, x);
        let p = placed(list.drop_last(), e).push(last);
        assert(p.drop_last() =~= placed(list.drop_last(), e));
        if same(e) {
            if !x.ahead(last) {
                T::ahead_carries(e, last, x);
            }
            assert(!same(last));
        }
    } else {
        assert(list.push(e).drop_last() =~= list);
    }
}

/// By a relation that puts at most one of two entries before the other, and whatever is
/// before one also before all that are not before that one, a sorted list holds the same
/// entries, and none of them is before one that stands ahead of it.
pub proof fn law_sorting_by_a_relation_orders<T>(list: Seq<T>, before: spec_fn(T, T) -> bool)
    requires
        forall|a: T, b: T| #[trigger] before(a, b) ==> !before(b, a),
        forall|a: T, b: T, c: T| #[trigger]
            before(a, b) && !(#[trigger] before(c, b)) ==> before(a, c),
    ensures
        sorted_by(list, before).to_multiset() == list.to_multiset(),
        forall|i: int, j: int|
            0 <= i < j < sorted_by(list, before).len() ==> !before(
                #[trigger] sorted_by(list, before)[j],
                #[trigger] sorted_by(list, before)[i],
            ),
    decreases list.len(),
{
    broadcast use vstd::seq_lib::group_to_multiset_ensures;

    if list.len() > 0 {
        law_sorting_by_a_relation_orders(list.drop_last(), before);
        lemma_placed_by_in_order(sorted_by(list.drop_last(), before), list.last(), before);
        assert(list.drop_last().push(list.last()) =~= list);
    } else {
        assert(list =~= Seq::<T>::empty());
    }
}

proof fn lemma_placed_by_in_order<T>(list: Seq<T>, x: T, before: spec_fn(T, T) -> bool)
    requires
        forall|a: T, b: T| #[trigger] before(a, b) ==> !before(b, a),
        forall|a: T, b: T, c: T| #[trigger]
            before(a, b) && !(#[trigger] before(c, b)) ==> before(a, c),
        forall|i: int, j: int|
            0 <= i < j < list.len() ==> !before(#[trigger] list[j], #[trigger] list[i]),
    ensures
        placed_by(list, x, before).to_multiset() == list.to_multiset().insert(x),
        forall|i: int, j: int|
            0 <= i < j < placed_by(list, x, before).len() ==> !before(
                #[trigger] placed_by(list, x, before)[j],
                #[trigger] placed_by(list, x, before)[i],
            ),
        forall|k: int|
            0 <= k < placed_by(list, x, before).len() ==> list.contains(
                #[trigger] placed_by(list, x, before)[k],
            ) || placed_by(list, x, before)[k] == x,
    decreases list.len(),
{
    broadcast use vstd::seq_lib::group_to_multiset_ensures;

    let r = placed_by(list, x, before);
    if list.len() > 0 && before(x, list.last()) {
        let init = list.drop_last();
        let last = list.last();
        assert forall|i: int, j: int| 0 <= i < j < init.len() implies !before(
            #[trigger] init[j],
            #[trigger] init[i],
        ) by {
            assert(init[i] == list[i] && init[j] == list[j]);
        }
        lemma_placed_by_in_order(init, x, before);
        let p = placed_by(init, x, before);
        assert(init.push(last) =~= list);
        assert(p.push(last).to_multiset() =~= list.to_multiset().insert(x));
        assert forall|k: int| 0 <= k < r.len() implies list.contains(#[trigger] r[k]) || r[k]
            == x by {
            if k < p.len() {
                assert(r[k] == p[k]);
                if init.contains(p[k]) {
                    let m = init.index_of(p[k]);
                    assert(list[m] == p[k]);
                }
            } else {
                assert(r[k] == list[list.len() - 1]);
            }
        }
        assert forall|i: int, j: int| 0 <= i < j < r.len() implies !before(
            #[trigger] r[j],
            #[trigger] r[i],
        ) by {
            assert(r[i] == p[i]);
            if j < p.len() {
                assert(r[j] == p[j]);
            } else {
                assert(r[j] == last);
                if p[i] != x {
                    let m = init.index_of(p[i]);
                    assert(list[m] == p[i]);
                    assert(!before(list[list.len() - 1], list[m]));
                }
            }
        }
    } else {
        assert forall|i: int, j: int| 0 <= i < j < r.len() implies !before(
            #[trigger] r[j],
            #[trigger] r[i],
        ) by {
            assert(r[i] == list[i]);
            if j < list.len() {
                assert(r[j] == list[j]);
            } else {
                let last = list[list.len() - 1];
                if before(x, list[i]) && i < list.len() - 1 {
                    assert(!before(last, list[i]));
                    assert(before(x, last));
                }
            }
        }
        assert forall|k: int| 0 <= k < r.len() implies list.contains(#[trigger] r[k]) || r[k]
            == x by {
            if k < list.len() {
                assert(r[k] == list[k]);
            }
        }
    }
}

} // verus!
