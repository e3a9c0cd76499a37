//! Lists and what they hold.

use vstd::prelude::*;
use vstd::seq_lib::*;

verus! {

/// The contents of the items of a list.
pub open spec fn views<T: View>(items: Seq<T>) -> Seq<T::V> {
    Seq::new(items.len(), |i: int| items[i]@)
}

/// One item more.
pub proof fn lemma_views_push<T: View>(items: Seq<T>, item: T)
    ensures
        views(items.push(item)) == views(items).push(item@),
        views(items.push(item)) == views(items) + seq![item@],
{
    assert(views(items.push(item)) =~= views(items).push(item@));
    assert(views(items.push(item)) =~= views(items) + seq![item@]);
}

/// Whether no key occurs twice in a list of entries, as in a map.
pub open spec fn keys_distinct<K: View, V>(entries: Seq<(K, V)>) -> bool {
    forall|i: int, j: int|
        0 <= i < j < entries.len() ==> (#[trigger] entries[i]).0@ != (#[trigger] entries[j]).0@
}

/// Keys that are picked out of entries with distinct keys are distinct.
pub proof fn lemma_picked_keys<K: View, V>(entries: Seq<(K, V)>, f: spec_fn((K, V)) -> Option<K>)
    requires
        keys_distinct(entries),
        forall|entry: (K, V)| (#[trigger] f(entry)) is Some ==> f(entry) == Some(entry.0),
    ensures
        forall|i: int, j: int|
            0 <= i < j < entries.filter_map(f).len() ==> (#[trigger] entries.filter_map(f)[i])@ != (
            #[trigger] entries.filter_map(f)[j])@,
    decreases entries.len(),
{
    if entries.len() > 0 {
        let rest = entries.drop_last();
        let last = entries[entries.len() - 1];
        let (before, all) = (rest.filter_map(f), entries.filter_map(f));
        assert forall|i: int, j: int| 0 <= i < j < rest.len() implies (#[trigger] rest[i]).0@ != (
        #[trigger] rest[j]).0@ by {
            assert(entries[i] == rest[i] && entries[j] == rest[j]);
        }
        lemma_picked_keys(rest, f);
        assert forall|i: int, j: int| 0 <= i < j < all.len() implies (#[trigger] all[i])@ != (
        #[trigger] all[j])@ by {
            assert(all[i] == before[i]);
            if j < before.len() {
                assert(all[j] == before[j]);
            } else {
                assert(all[j] == last.0);
                assert(before.contains(before[i]));
                rest.lemma_filter_map_contains(f, before[i]);
                let entry = choose|entry: (K, V)| #[trigger]
                    rest.contains(entry) && f(entry) == Some(before[i]);
                let n = choose|n: int| 0 <= n < rest.len() && rest[n] == entry;
                assert(entries[n] == entry);
                assert(entries[n].0@ != entries[entries.len() - 1].0@);
            }
        }
    }
}

/// What an item is mapped to is in the mapped list.
pub proof fn lemma_filter_map_has<A, B>(items: Seq<A>, f: spec_fn(A) -> Option<B>, i: int)
    requires
        0 <= i < items.len(),
        f(items[i]) is Some,
    ensures
        items.filter_map(f).contains(f(items[i])->0),
    decreases items.len(),
{
    let rest = items.drop_last();
    let mapped = items.filter_map(f);
    if i == items.len() - 1 {
        assert(mapped.last() == f(items[i])->0);
    } else {
        lemma_filter_map_has(rest, f, i);
        let k = choose|k: int| 0 <= k < rest.filter_map(f).len() && rest.filter_map(f)[k] == f(
            items[i],
        )->0;
        assert(mapped[k] == f(items[i])->0);
    }
}

/// Mapping two lists, one behind the other.
pub proof fn lemma_filter_map_add<A, B>(a: Seq<A>, b: Seq<A>, f: spec_fn(A) -> Option<B>)
    ensures
        (a + b).filter_map(f) == a.filter_map(f) + b.filter_map(f),
    decreases b.len(),
{
    if b.len() == 0 {
        assert(a + b =~= a);
        assert(a.filter_map(f) + b.filter_map(f) =~= a.filter_map(f));
    } else {
        lemma_filter_map_add(a, b.drop_last(), f);
        assert((a + b).drop_last() =~= a + b.drop_last());
        assert((a + b).filter_map(f) =~= a.filter_map(f) + b.filter_map(f));
    }
}

/// Mapping the same items in another order gives the same items in another order.
pub proof fn lemma_filter_map_order<A, B>(a: Seq<A>, b: Seq<A>, f: spec_fn(A) -> Option<B>)
    requires
        a.to_multiset() == b.to_multiset(),
    ensures
        a.filter_map(f).to_multiset() == b.filter_map(f).to_multiset(),
    decreases a.len(),
{
    broadcast use group_to_multiset_ensures;

    a.to_multiset_ensures();
    b.to_multiset_ensures();
    if a.len() == 0 {
        assert(a =~= b);
    } else {
        let last = a.last();
        let rest = a.drop_last();
        assert(a =~= rest.push(last));
        assert(a.contains(last)) by {
            assert(a[a.len() - 1] == last);
        }
        assert(b.contains(last)) by {
            assert(b.to_multiset().count(last) > 0);
        }
        let j = choose|j: int| 0 <= j < b.len() && b[j] == last;
        let (left, right) = (b.take(j), b.skip(j + 1));
        let others = b.remove(j);
        assert(others =~= left + right);
        assert(rest =~= a.remove(a.len() - 1));
        assert(others.to_multiset() == b.to_multiset().remove(last));
        assert(rest.to_multiset() == a.to_multiset().remove(last));
        lemma_filter_map_order(rest, others, f);
        lemma_filter_map_add(left, right, f);
        assert(b =~= left.push(last) + right);
        lemma_filter_map_add(left.push(last), right, f);
        assert(left.push(last).drop_last() =~= left);
        let (l, r) = (left.filter_map(f), right.filter_map(f));
        match f(last) {
            Some(x) => {
                assert(a.filter_map(f) =~= rest.filter_map(f).push(x));
                assert(b.filter_map(f) =~= (l + r).insert(l.len() as int, x));
            },
            None => {},
        }
    }
}

/// The positions of the items for which something holds, in order.
pub open spec fn picks<A>(items: Seq<A>, p: spec_fn(A) -> bool) -> Seq<int>
    decreases items.len(),
{
    if items.len() == 0 {
        Seq::empty()
    } else {
        let before = picks(items.drop_last(), p);
        if p(items.last()) {
            before.push(items.len() - 1)
        } else {
            before
        }
    }
}

/// The positions that are picked grow, and are exactly those of the items for which the thing
/// holds.
pub proof fn law_picks<A>(items: Seq<A>, p: spec_fn(A) -> bool)
    ensures
        forall|j: int, k: int|
            0 <= j < k < picks(items, p).len() ==> (#[trigger] picks(items, p)[j]) < (
            #[trigger] picks(items, p)[k]),
        forall|j: int|
            0 <= j < picks(items, p).len() ==> 0 <= (#[trigger] picks(items, p)[j]) < items.len()
                && p(items[picks(items, p)[j]]),
        forall|i: int|
            0 <= i < items.len() && p(#[trigger] items[i]) ==> picks(items, p).contains(i),
    decreases items.len(),
{
    if items.len() > 0 {
        let rest = items.drop_last();
        let (before, all) = (picks(rest, p), picks(items, p));
        law_picks(rest, p);
        assert forall|j: int| 0 <= j < all.len() implies 0 <= (#[trigger] all[j]) < items.len()
            && p(items[all[j]]) by {
            if j < before.len() {
                assert(all[j] == before[j]);
                assert(rest[before[j]] == items[before[j]]);
            }
        }
        assert forall|j: int, k: int| 0 <= j < k < all.len() implies (#[trigger] all[j]) < (
        #[trigger] all[k]) by {
            assert(all[j] == before[j]);
            if k < before.len() {
                assert(all[k] == before[k]);
            }
        }
        assert forall|i: int| 0 <= i < items.len() && p(#[trigger] items[i]) implies all.contains(
            i,
        ) by {
            if i < rest.len() {
                assert(rest[i] == items[i]);
                assert(before.contains(i));
                let j = choose|j: int| 0 <= j < before.len() && before[j] == i;
                assert(all[j] == i);
            } else {
                assert(all[all.len() - 1] == i);
            }
        }
    }
}

/// A mapped list holds, in order, what the items are mapped to that are mapped to something.
pub proof fn lemma_filter_map_picks<A, B>(
    items: Seq<A>,
    f: spec_fn(A) -> Option<B>,
    p: spec_fn(A) -> bool,
)
    requires
        forall|x: A| (#[trigger] f(x)) is Some <==> p(x),
    ensures
        items.filter_map(f).len() == picks(items, p).len(),
        forall|j: int|
            0 <= j < picks(items, p).len() ==> Some(#[trigger] items.filter_map(f)[j]) == f(
                items[picks(items, p)[j]],
            ),
    decreases items.len(),
{
    if items.len() > 0 {
        let rest = items.drop_last();
        let (before, all) = (picks(rest, p), picks(items, p));
        lemma_filter_map_picks(rest, f, p);
        law_picks(rest, p);
        assert(f(items.last()) is Some <==> p(items.last()));
        assert forall|j: int| 0 <= j < all.len() implies Some(#[trigger] items.filter_map(f)[j])
            == f(items[all[j]]) by {
            if j < before.len() {
                assert(items.filter_map(f)[j] == rest.filter_map(f)[j]);
                assert(all[j] == before[j]);
                assert(rest[before[j]] == items[before[j]]);
            }
        }
    }
}

} // verus!
