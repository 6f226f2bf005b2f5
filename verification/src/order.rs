//! Stable insertion sort, as a specification, with the facts callers rely on.
use vstd::prelude::*;

verus! {

broadcast use vstd::seq_lib::group_to_multiset_ensures;

/// `x` inserted into `s` after every element that may precede it.
pub open spec fn insert_sorted<T>(s: Seq<T>, x: T, le: spec_fn(T, T) -> bool) -> Seq<T>
    decreases s.len(),
{
    if s.len() == 0 {
        seq![x]
    } else if le(s.last(), x) {
        s.push(x)
    } else {
        insert_sorted(s.drop_last(), x, le).push(s.last())
    }
}

/// A stable insertion sort: equal elements keep their order.
pub open spec fn sort_by<T>(s: Seq<T>, le: spec_fn(T, T) -> bool) -> Seq<T>
    decreases s.len(),
{
    if s.len() == 0 {
        s
    } else {
        insert_sorted(sort_by(s.drop_last(), le), s.last(), le)
    }
}

pub open spec fn sorted_by<T>(s: Seq<T>, le: spec_fn(T, T) -> bool) -> bool {
    forall|i: int, j: int| 0 <= i < j < s.len() ==> le(#[trigger] s[i], #[trigger] s[j])
}

pub open spec fn total_preorder<T>(le: spec_fn(T, T) -> bool) -> bool {
    &&& forall|a: T, b: T| #[trigger] le(a, b) || le(b, a)
    &&& forall|a: T, b: T, c: T| #[trigger] le(a, b) && #[trigger] le(b, c) ==> le(a, c)
}

/// Inserting at `pos` is the sorted insertion when everything from `pos` on
/// must follow `x` and the element before `pos`, if any, may precede it.
pub proof fn lemma_insert_at<T>(s: Seq<T>, x: T, le: spec_fn(T, T) -> bool, pos: int)
    requires
        0 <= pos <= s.len(),
        forall|j: int| pos <= j < s.len() ==> !le(#[trigger] s[j], x),
        pos > 0 ==> le(s[pos - 1], x),
    ensures
        insert_sorted(s, x, le) == s.take(pos) + seq![x] + s.skip(pos),
    decreases s.len(),
{
    if s.len() == 0 {
        assert(s.take(pos) + seq![x] + s.skip(pos) == seq![x]);
    } else if pos == s.len() {
        assert(s.take(pos) + seq![x] + s.skip(pos) == s.push(x));
    } else {
        assert(!le(s[s.len() - 1], x));
        lemma_insert_at(s.drop_last(), x, le, pos);
        assert(s.drop_last().take(pos) + seq![x] + s.drop_last().skip(pos) + seq![s.last()] == s.take(pos)
            + seq![x] + s.skip(pos));
    }
}

/// Sorted insertion adds exactly `x`.
pub proof fn lemma_insert_sorted_multiset<T>(s: Seq<T>, x: T, le: spec_fn(T, T) -> bool)
    ensures
        insert_sorted(s, x, le).to_multiset() == s.to_multiset().insert(x),
        insert_sorted(s, x, le).len() == s.len() + 1,
    decreases s.len(),
{
    broadcast use vstd::multiset::group_multiset_axioms;

    if s.len() == 0 {
        assert(seq![x] == Seq::<T>::empty().push(x));
    } else if le(s.last(), x) {
    } else {
        lemma_insert_sorted_multiset(s.drop_last(), x, le);
        assert(s.drop_last().push(s.last()) == s);
        assert(insert_sorted(s, x, le).to_multiset() =~= s.to_multiset().insert(x));
    }
}

/// Sorting is a permutation.
pub proof fn lemma_sort_by_multiset<T>(s: Seq<T>, le: spec_fn(T, T) -> bool)
    ensures
        sort_by(s, le).to_multiset() == s.to_multiset(),
        sort_by(s, le).len() == s.len(),
    decreases s.len(),
{
    if s.len() > 0 {
        lemma_sort_by_multiset(s.drop_last(), le);
        lemma_insert_sorted_multiset(sort_by(s.drop_last(), le), s.last(), le);
        assert(s.drop_last().push(s.last()) == s);
    }
}

/// The elements of a sorted sequence are the elements of the original.
pub proof fn lemma_sort_by_contains<T>(s: Seq<T>, le: spec_fn(T, T) -> bool, y: T)
    ensures
        sort_by(s, le).contains(y) <==> s.contains(y),
{
    lemma_sort_by_multiset(s, le);
    assert(sort_by(s, le).to_multiset().count(y) == s.to_multiset().count(y));
}

/// Sorted insertion keeps a sequence sorted under a total preorder.
pub proof fn lemma_insert_sorted_sorted<T>(s: Seq<T>, x: T, le: spec_fn(T, T) -> bool)
    requires
        total_preorder(le),
        sorted_by(s, le),
    ensures
        sorted_by(insert_sorted(s, x, le), le),
    decreases s.len(),
{
    if s.len() == 0 {
    } else if le(s.last(), x) {
        let r = s.push(x);
        assert forall|i: int, j: int| 0 <= i < j < r.len() implies le(#[trigger] r[i], #[trigger] r[j]) by {
            if j == r.len() - 1 && i < s.len() - 1 {
                assert(le(s[i], s[s.len() - 1]));
            }
        }
    } else {
        let prefix = s.drop_last();
        let last = s.last();
        assert(sorted_by(prefix, le));
        lemma_insert_sorted_sorted(prefix, x, le);
        let inner = insert_sorted(prefix, x, le);
        lemma_insert_sorted_multiset(prefix, x, le);
        assert(le(x, last));
        assert forall|k: int| 0 <= k < inner.len() implies le(#[trigger] inner[k], last) by {
            let y = inner[k];
            assert(inner.contains(y));
            assert(inner.to_multiset().count(y) > 0);
            if y != x {
                assert(prefix.to_multiset().count(y) > 0);
                assert(prefix.contains(y));
                let m = choose|m: int| 0 <= m < prefix.len() && prefix[m] == y;
                assert(le(s[m], s[s.len() - 1]));
            }
        }
        let r = inner.push(last);
        assert forall|i: int, j: int| 0 <= i < j < r.len() implies le(#[trigger] r[i], #[trigger] r[j]) by {
            if j == r.len() - 1 {
                assert(le(inner[i], last));
            } else {
                assert(le(inner[i], inner[j]));
            }
        }
    }
}

/// Sorting under a total preorder yields a sorted sequence.
pub proof fn lemma_sort_by_sorted<T>(s: Seq<T>, le: spec_fn(T, T) -> bool)
    requires
        total_preorder(le),
    ensures
        sorted_by(sort_by(s, le), le),
    decreases s.len(),
{
    if s.len() > 0 {
        lemma_sort_by_sorted(s.drop_last(), le);
        lemma_insert_sorted_sorted(sort_by(s.drop_last(), le), s.last(), le);
    }
}

/// Two sequences holding the same elements still do after mapping.
pub proof fn lemma_map_values_multiset<A, B>(s: Seq<A>, t: Seq<A>, f: spec_fn(A) -> B)
    requires
        s.to_multiset() == t.to_multiset(),
    ensures
        s.map_values(f).to_multiset() == t.map_values(f).to_multiset(),
    decreases s.len(),
{
    broadcast use vstd::multiset::group_multiset_axioms;
    broadcast use vstd::seq_lib::to_multiset_build, vstd::seq_lib::to_multiset_remove, vstd::seq_lib::to_multiset_len;

    if s.len() == 0 {
        assert(s.to_multiset().len() == 0);
        assert(t.to_multiset().len() == t.len());
        assert(t.len() == 0);
        assert(s.map_values(f) =~= t.map_values(f));
    } else {
        let x = s.last();
        let rest = s.drop_last();
        assert(rest.push(x) == s);
        assert(s.to_multiset() == rest.to_multiset().insert(x));
        assert(t.to_multiset().count(x) > 0);
        assert(t.contains(x));
        let i = choose|i: int| 0 <= i < t.len() && t[i] == x;
        let t2 = t.remove(i);
        assert(t2.to_multiset() == t.to_multiset().remove(x));
        assert(rest.to_multiset() =~= t2.to_multiset());
        lemma_map_values_multiset(rest, t2, f);
        assert(s.map_values(f) =~= rest.map_values(f).push(f(x)));
        assert(rest.map_values(f).push(f(x)).to_multiset() == rest.map_values(f).to_multiset().insert(f(x)));
        let tm = t.map_values(f);
        assert(tm.remove(i) =~= t2.map_values(f));
        assert(tm.remove(i).to_multiset() == tm.to_multiset().remove(tm[i]));
        assert(tm.to_multiset().count(f(x)) > 0) by {
            assert(tm[i] == f(x));
            assert(tm.contains(f(x)));
        }
        assert(s.map_values(f).to_multiset() =~= t.map_values(f).to_multiset());
    }
}

} // verus!
