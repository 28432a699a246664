//! Stable sorting, as a definition.
//!
//! A list sorted by a strict order `before`, each item kept after every
//! earlier item it does not sort before: what `sort_by` gives for an order
//! that compares by keys. Written as insertion, one item at a time.

use vstd::prelude::*;

verus! {

/// `s` with `x` placed before the first item it sorts before, after all the
/// others.
pub open spec fn insert_in_order<T>(s: Seq<T>, x: T, before: spec_fn(T, T) -> bool) -> Seq<T>
    decreases s.len(),
{
    if s.len() == 0 {
        seq![x]
    } else if before(x, s[0]) {
        seq![x] + s
    } else {
        seq![s[0]] + insert_in_order(s.drop_first(), x, before)
    }
}

/// `s` sorted by `before`, ties kept in the order they came.
pub open spec fn stable_sorted<T>(s: Seq<T>, before: spec_fn(T, T) -> bool) -> Seq<T>
    decreases s.len(),
{
    if s.len() == 0 {
        s
    } else {
        insert_in_order(stable_sorted(s.drop_last(), before), s.last(), before)
    }
}

/// Inserting in order is inserting at the first place `x` sorts before.
pub proof fn lemma_insert_in_order<T>(s: Seq<T>, x: T, before: spec_fn(T, T) -> bool, p: int)
    requires
        0 <= p <= s.len(),
        forall|k: int| 0 <= k < p ==> !before(x, #[trigger] s[k]),
        p < s.len() ==> before(x, s[p]),
    ensures
        insert_in_order(s, x, before) == s.insert(p, x),
    decreases s.len(),
{
    if s.len() == 0 {
        assert(s.insert(p, x) =~= seq![x]);
    } else if p == 0 {
        assert(s.insert(p, x) =~= seq![x] + s);
    } else {
        let t = s.drop_first();
        assert forall|k: int| 0 <= k < p - 1 implies !before(x, #[trigger] t[k]) by {
            assert(t[k] == s[k + 1]);
        }
        if p - 1 < t.len() {
            assert(t[p - 1] == s[p]);
        }
        lemma_insert_in_order(t, x, before, p - 1);
        assert(s.insert(p, x) =~= seq![s[0]] + t.insert(p - 1, x));
    }
}

/// Inserting in order adds the item and loses none.
pub proof fn lemma_insert_in_order_multiset<T>(s: Seq<T>, x: T, before: spec_fn(T, T) -> bool)
    ensures
        insert_in_order(s, x, before).to_multiset() == s.to_multiset().insert(x),
    decreases s.len(),
{
    broadcast use vstd::seq_lib::group_to_multiset_ensures;

    if s.len() == 0 {
        assert(seq![x] =~= Seq::<T>::empty().push(x));
    } else if before(x, s[0]) {
        assert(seq![x] + s =~= s.insert(0, x));
        vstd::seq_lib::to_multiset_insert(s, 0, x);
    } else {
        let t = s.drop_first();
        let u = insert_in_order(t, x, before);
        lemma_insert_in_order_multiset(t, x, before);
        assert(seq![s[0]] + u =~= u.insert(0, s[0]));
        assert(s =~= t.insert(0, s[0]));
        vstd::seq_lib::to_multiset_insert(u, 0, s[0]);
        vstd::seq_lib::to_multiset_insert(t, 0, s[0]);
        assert(t.to_multiset().insert(x).insert(s[0]) =~= t.to_multiset().insert(s[0]).insert(x));
    }
}

/// Sorting keeps every item, as often as it came.
pub proof fn lemma_stable_sorted_multiset<T>(s: Seq<T>, before: spec_fn(T, T) -> bool)
    ensures
        stable_sorted(s, before).to_multiset() == s.to_multiset(),
    decreases s.len(),
{
    broadcast use vstd::seq_lib::group_to_multiset_ensures;

    if s.len() > 0 {
        lemma_stable_sorted_multiset(s.drop_last(), before);
        lemma_insert_in_order_multiset(stable_sorted(s.drop_last(), before), s.last(), before);
        assert(s.drop_last().push(s.last()) =~= s);
    }
}

/// No item sorts before one that comes earlier.
pub open spec fn sorted_by<T>(s: Seq<T>, before: spec_fn(T, T) -> bool) -> bool {
    forall|i: int, j: int| 0 <= i < j < s.len() ==> !before(#[trigger] s[j], #[trigger] s[i])
}

/// A strict order: transitive, and nothing sorts before itself.
pub open spec fn strict<T>(before: spec_fn(T, T) -> bool) -> bool {
    &&& forall|a: T, b: T, c: T| #[trigger] before(a, b) && #[trigger] before(b, c) ==> before(a, c)
    &&& forall|a: T| !#[trigger] before(a, a)
}

proof fn lemma_insert_in_order_sorted<T>(s: Seq<T>, x: T, before: spec_fn(T, T) -> bool)
    requires
        strict(before),
        sorted_by(s, before),
    ensures
        sorted_by(insert_in_order(s, x, before), before),
    decreases s.len(),
{
    let r = insert_in_order(s, x, before);
    if s.len() == 0 {
    } else if before(x, s[0]) {
        assert forall|i: int, j: int| 0 <= i < j < r.len() implies !before(#[trigger] r[j], #[trigger] r[i]) by {
            if i == 0 {
                if before(r[j], x) {
                    assert(before(s[j - 1], s[0]));
                    if j - 1 == 0 {
                        assert(!before(s[0], s[0]));
                    }
                }
            } else {
                assert(r[i] == s[i - 1] && r[j] == s[j - 1]);
            }
        }
    } else {
        let t = s.drop_first();
        let u = insert_in_order(t, x, before);
        assert(sorted_by(t, before)) by {
            assert forall|i: int, j: int| 0 <= i < j < t.len() implies !before(#[trigger] t[j], #[trigger] t[i]) by {
                assert(t[i] == s[i + 1] && t[j] == s[j + 1]);
            }
        }
        lemma_insert_in_order_sorted(t, x, before);
        lemma_insert_in_order_multiset(t, x, before);
        assert(r == seq![s[0]] + u);
        assert forall|i: int, j: int| 0 <= i < j < r.len() implies !before(#[trigger] r[j], #[trigger] r[i]) by {
            if i == 0 {
                let y = u[j - 1];
                assert(r[j] == y);
                assert(u.to_multiset().count(y) > 0) by {
                    vstd::seq_lib::to_multiset_contains(u, y);
                }
                if y != x {
                    assert(t.to_multiset().count(y) > 0);
                    vstd::seq_lib::to_multiset_contains(t, y);
                    let k = choose|k: int| 0 <= k < t.len() && t[k] == y;
                    assert(s[k + 1] == y);
                }
            } else {
                assert(r[i] == u[i - 1] && r[j] == u[j - 1]);
            }
        }
    }
}

/// A stable sort by a strict order leaves no item after one it sorts
/// before.
pub proof fn lemma_stable_sorted_sorted<T>(s: Seq<T>, before: spec_fn(T, T) -> bool)
    requires
        strict(before),
    ensures
        sorted_by(stable_sorted(s, before), before),
    decreases s.len(),
{
    if s.len() > 0 {
        lemma_stable_sorted_sorted(s.drop_last(), before);
        lemma_insert_in_order_sorted(stable_sorted(s.drop_last(), before), s.last(), before);
    }
}

} // verus!
