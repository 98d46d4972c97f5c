use vstd::prelude::*;

verus! {

/// Values ordered by a `u64` key.
pub trait SortKey {
    spec fn sort_key(&self) -> u64;
}

/// Keys never decrease along `s`.
pub open spec fn sorted_by_key<T: SortKey>(s: Seq<T>) -> bool {
    forall|i: int, j: int| 0 <= i <= j < s.len() ==> s[i].sort_key() <= s[j].sort_key()
}

/// Inserts `x` behind every element whose key is at most `x`'s, scanning from
/// the back (so equal keys keep their order of arrival).
pub open spec fn insert_by_key<T: SortKey>(s: Seq<T>, x: T) -> Seq<T>
    decreases s.len(),
{
    if s.len() == 0 {
        seq![x]
    } else if s.last().sort_key() <= x.sort_key() {
        s.push(x)
    } else {
        insert_by_key(s.drop_last(), x).push(s.last())
    }
}

/// Stable sort by key: insertion of each element in order of arrival.
pub open spec fn stable_sort_by_key<T: SortKey>(s: Seq<T>) -> Seq<T>
    decreases s.len(),
{
    if s.len() == 0 {
        seq![]
    } else {
        insert_by_key(stable_sort_by_key(s.drop_last()), s.last())
    }
}

/// Facts about one insertion: length, bounds, order and contents.
pub proof fn lemma_insert_by_key<T: SortKey>(s: Seq<T>, x: T)
    ensures
        insert_by_key(s, x).len() == s.len() + 1,
        insert_by_key(s, x).to_multiset() == s.to_multiset().insert(x),
        sorted_by_key(s) ==> sorted_by_key(insert_by_key(s, x)),
        forall|k: int|
            0 <= k < s.len() + 1 ==> #[trigger] insert_by_key(s, x)[k] == x || s.contains(
                insert_by_key(s, x)[k],
            ),
    decreases s.len(),
{
    broadcast use vstd::seq_lib::group_to_multiset_ensures;

    let r = insert_by_key(s, x);
    if s.len() == 0 {
        assert(r.to_multiset() =~= Seq::<T>::empty().push(x).to_multiset());
        assert(s =~= Seq::<T>::empty());
    } else if s.last().sort_key() <= x.sort_key() {
    } else {
        let d = s.drop_last();
        let l = s.last();
        lemma_insert_by_key(d, x);
        let rd = insert_by_key(d, x);
        assert(s =~= d.push(l));
        assert(r.to_multiset() =~= rd.to_multiset().insert(l));
        assert(r.to_multiset() =~= s.to_multiset().insert(x));
        if sorted_by_key(s) {
            assert forall|k: int| 0 <= k < d.len() implies #[trigger] d[k].sort_key()
                <= l.sort_key() by {
                assert(s[k] == d[k]);
            }
            assert forall|k: int| 0 <= k < rd.len() implies #[trigger] rd[k].sort_key()
                <= l.sort_key() by {
                if rd[k] != x {
                    let m = choose|m: int| 0 <= m < d.len() && d[m] == rd[k];
                    assert(d[m].sort_key() <= l.sort_key());
                }
            }
            assert forall|i: int, j: int| 0 <= i <= j < r.len() implies r[i].sort_key()
                <= r[j].sort_key() by {
                if j == r.len() - 1 {
                    assert(r[j] == l);
                    assert(r[i] == rd[i] || i == j);
                } else {
                    assert(r[i] == rd[i]);
                    assert(r[j] == rd[j]);
                }
            }
        }
        assert forall|k: int| 0 <= k < s.len() + 1 implies #[trigger] r[k] == x || s.contains(
            r[k],
        ) by {
            if k < rd.len() {
                assert(r[k] == rd[k]);
                if rd[k] != x {
                    let m = choose|m: int| 0 <= m < d.len() && d[m] == rd[k];
                    assert(s[m] == d[m]);
                }
            } else {
                assert(r[k] == l);
                assert(s[s.len() - 1] == l);
            }
        }
    }
}

/// The stable sort returns its input in key order, as a permutation of it.
pub proof fn lemma_stable_sort<T: SortKey>(s: Seq<T>)
    ensures
        sorted_by_key(stable_sort_by_key(s)),
        stable_sort_by_key(s).to_multiset() == s.to_multiset(),
        stable_sort_by_key(s).len() == s.len(),
    decreases s.len(),
{
    broadcast use vstd::seq_lib::group_to_multiset_ensures;

    if s.len() > 0 {
        let d = s.drop_last();
        lemma_stable_sort(d);
        lemma_insert_by_key(stable_sort_by_key(d), s.last());
        assert(s =~= d.push(s.last()));
    } else {
        assert(s.to_multiset() =~= vstd::multiset::Multiset::empty());
        assert(stable_sort_by_key(s).to_multiset() =~= vstd::multiset::Multiset::empty());
    }
}

/// Where the backward scan stops is where the insertion puts `x`.
pub proof fn lemma_insert_at<T: SortKey>(s: Seq<T>, x: T, j: int)
    requires
        0 <= j <= s.len(),
        forall|k: int| j <= k < s.len() ==> #[trigger] s[k].sort_key() > x.sort_key(),
        j == 0 || s[j - 1].sort_key() <= x.sort_key(),
    ensures
        insert_by_key(s, x) == s.insert(j, x),
    decreases s.len(),
{
    if s.len() == 0 {
        assert(s.insert(j, x) =~= seq![x]);
    } else if s.last().sort_key() <= x.sort_key() {
        assert(j == s.len());
        assert(s.insert(j, x) =~= s.push(x));
    } else {
        let d = s.drop_last();
        assert(j < s.len());
        assert forall|k: int| j <= k < d.len() implies #[trigger] d[k].sort_key()
            > x.sort_key() by {
            assert(d[k] == s[k]);
        }
        lemma_insert_at(d, x, j);
        assert(s.insert(j, x) =~= d.insert(j, x).push(s.last()));
    }
}

} // verus!
