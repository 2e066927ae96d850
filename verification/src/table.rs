//! Tables of keys and values, as sequences in the order of arrival.

use vstd::prelude::*;

verus! {

/// The value that the table holds for `id`.
pub open spec fn lookup<K, M>(s: Seq<(K, M)>, id: K) -> Option<M>
    decreases s.len(),
{
    if s.len() == 0 {
        None
    } else if s[0].0 == id {
        Some(s[0].1)
    } else {
        lookup(s.drop_first(), id)
    }
}

/// The table with `v` for `id`: in its old place, or at the end.
pub open spec fn put<K, M>(s: Seq<(K, M)>, id: K, v: M) -> Seq<(K, M)> {
    if lookup(s, id) is Some {
        s.map_values(
            |e: (K, M)|
                if e.0 == id {
                    (id, v)
                } else {
                    e
                },
        )
    } else {
        s.push((id, v))
    }
}

/// The entries of every key but `id`.
pub open spec fn other_than<K, M>(id: K) -> spec_fn((K, M)) -> bool {
    |e: (K, M)| e.0 != id
}

/// The table without `id`.
pub open spec fn without<K, M>(s: Seq<(K, M)>, id: K) -> Seq<(K, M)> {
    s.filter(other_than(id))
}

/// No key stands twice.
pub open spec fn distinct_keys<K, M>(s: Seq<(K, M)>) -> bool {
    forall|i: int, j: int| 0 <= i < j < s.len() ==> (#[trigger] s[i]).0 != (#[trigger] s[j]).0
}

/// What a lookup finds is in the table, and what is in the table is found.
pub proof fn lemma_lookup<K, M>(s: Seq<(K, M)>, id: K)
    ensures
        lookup(s, id) is Some ==> exists|i: int|
            0 <= i < s.len() && (#[trigger] s[i]).0 == id && lookup(s, id) == Some(s[i].1),
        lookup(s, id) is None ==> forall|i: int| 0 <= i < s.len() ==> (#[trigger] s[i]).0 != id,
    decreases s.len(),
{
    if s.len() > 0 && s[0].0 != id {
        let t = s.drop_first();
        lemma_lookup(t, id);
        if lookup(t, id) is Some {
            let i = choose|i: int|
                0 <= i < t.len() && (#[trigger] t[i]).0 == id && lookup(t, id) == Some(t[i].1);
            assert(s[i + 1] == t[i]);
        } else {
            assert forall|i: int| 0 <= i < s.len() implies (#[trigger] s[i]).0 != id by {
                if i > 0 {
                    assert(s[i] == t[i - 1]);
                }
            }
        }
    }
}

/// In a table without repeats the entry at an index is what its key looks up.
pub proof fn lemma_lookup_at<K, M>(s: Seq<(K, M)>, i: int)
    requires
        distinct_keys(s),
        0 <= i < s.len(),
    ensures
        lookup(s, s[i].0) == Some(s[i].1),
{
    lemma_lookup(s, s[i].0);
    let j = choose|j: int|
        0 <= j < s.len() && (#[trigger] s[j]).0 == s[i].0 && lookup(s, s[i].0) == Some(s[j].1);
    if j < i {
        assert(s[j].0 != s[i].0);
    } else if i < j {
        assert(s[i].0 != s[j].0);
    }
}

/// What is put is found, and nothing else changes.
pub proof fn lemma_put<K, M>(s: Seq<(K, M)>, id: K, v: M)
    requires
        distinct_keys(s),
    ensures
        distinct_keys(put(s, id, v)),
        lookup(put(s, id, v), id) == Some(v),
        forall|k: K| k != id ==> #[trigger] lookup(put(s, id, v), k) == lookup(s, k),
{
    let t = put(s, id, v);
    lemma_lookup(s, id);
    assert forall|i: int, j: int| 0 <= i < j < t.len() implies (#[trigger] t[i]).0 != (
    #[trigger] t[j]).0 by {
        if lookup(s, id) is Some {
            assert(t[i].0 == s[i].0 && t[j].0 == s[j].0);
        } else if j < s.len() {
            assert(t[i] == s[i] && t[j] == s[j]);
        } else {
            assert(t[i] == s[i]);
        }
    }
    if lookup(s, id) is Some {
        let i = choose|i: int|
            0 <= i < s.len() && (#[trigger] s[i]).0 == id && lookup(s, id) == Some(s[i].1);
        assert(t[i] == (id, v));
        lemma_lookup_at(t, i);
    } else {
        assert(t[s.len() as int] == (id, v));
        lemma_lookup_at(t, s.len() as int);
    }
    assert forall|k: K| k != id implies #[trigger] lookup(t, k) == lookup(s, k) by {
        lemma_lookup(s, k);
        lemma_lookup(t, k);
        if lookup(s, k) is Some {
            let i = choose|i: int|
                0 <= i < s.len() && (#[trigger] s[i]).0 == k && lookup(s, k) == Some(s[i].1);
            assert(t[i] == s[i]);
            lemma_lookup_at(t, i);
        } else if lookup(t, k) is Some {
            let i = choose|i: int|
                0 <= i < t.len() && (#[trigger] t[i]).0 == k && lookup(t, k) == Some(t[i].1);
            assert(i < s.len() && s[i].0 == k);
        }
    }
}

/// What is left of a filtered table was there before, in the same order.
pub proof fn lemma_filter_distinct<K, M>(s: Seq<(K, M)>, keep: spec_fn((K, M)) -> bool)
    requires
        distinct_keys(s),
    ensures
        distinct_keys(s.filter(keep)),
        forall|k: K|
            #[trigger] lookup(s.filter(keep), k) == (match lookup(s, k) {
                Some(v) if keep((k, v)) => Some(v),
                _ => None,
            }),
    decreases s.len(),
{
    reveal(Seq::filter);
    if s.len() == 0 {
        assert(s.filter(keep) =~= s);
    } else {
        let init = s.drop_last();
        let last = s.last();
        assert(distinct_keys(init)) by {
            assert forall|i: int, j: int| 0 <= i < j < init.len() implies (#[trigger] init[i]).0
                != (#[trigger] init[j]).0 by {
                assert(init[i] == s[i] && init[j] == s[j]);
            }
        }
        lemma_filter_distinct(init, keep);
        let f = init.filter(keep);
        lemma_lookup(init, last.0);
        assert(lookup(init, last.0) is None) by {
            if lookup(init, last.0) is Some {
                let i = choose|i: int|
                    0 <= i < init.len() && (#[trigger] init[i]).0 == last.0 && lookup(init, last.0)
                        == Some(init[i].1);
                assert(init[i] == s[i] && s[s.len() - 1] == last);
            }
        }
        assert(s =~= init.push(last));
        lemma_lookup_push(init, last);
        assert(lookup(f, last.0) is None);
        if keep(last) {
            assert(s.filter(keep) == f.push(last));
            lemma_lookup(f, last.0);
            lemma_lookup_push(f, last);
            assert forall|i: int, j: int| 0 <= i < j < f.push(last).len() implies (
            #[trigger] f.push(last)[i]).0 != (#[trigger] f.push(last)[j]).0 by {
                if j < f.len() {
                    assert(f.push(last)[i] == f[i] && f.push(last)[j] == f[j]);
                } else {
                    assert(f.push(last)[i] == f[i]);
                }
            }
        }
    }
}

/// An entry at the end is found where its key was not there before.
pub proof fn lemma_lookup_push<K, M>(s: Seq<(K, M)>, e: (K, M))
    requires
        lookup(s, e.0) is None,
    ensures
        lookup(s.push(e), e.0) == Some(e.1),
        forall|k: K| k != e.0 ==> #[trigger] lookup(s.push(e), k) == lookup(s, k),
    decreases s.len(),
{
    let t = s.push(e);
    if s.len() == 0 {
        assert(t.drop_first() =~= s);
        assert forall|k: K| k != e.0 implies #[trigger] lookup(t, k) == lookup(s, k) by {}
    } else {
        assert(t.drop_first() =~= s.drop_first().push(e));
        lemma_lookup_push(s.drop_first(), e);
        assert forall|k: K| k != e.0 implies #[trigger] lookup(t, k) == lookup(s, k) by {
            assert(lookup(s.drop_first().push(e), k) == lookup(s.drop_first(), k));
        }
    }
}

/// What is taken out is gone, and nothing else changes.
pub proof fn lemma_without<K, M>(s: Seq<(K, M)>, id: K)
    requires
        distinct_keys(s),
    ensures
        distinct_keys(without(s, id)),
        lookup(without(s, id), id) is None,
        forall|k: K| k != id ==> #[trigger] lookup(without(s, id), k) == lookup(s, k),
{
    lemma_filter_distinct(s, other_than(id));
}

/// Taking out a key that is not there changes nothing.
pub proof fn lemma_without_absent<K, M>(s: Seq<(K, M)>, id: K)
    requires
        forall|i: int| 0 <= i < s.len() ==> (#[trigger] s[i]).0 != id,
    ensures
        without(s, id) == s,
    decreases s.len(),
{
    reveal(Seq::filter);
    if s.len() > 0 {
        assert forall|i: int| 0 <= i < s.drop_last().len() implies (#[trigger] s.drop_last()[i]).0
            != id by {
            assert(s.drop_last()[i] == s[i]);
        }
        lemma_without_absent(s.drop_last(), id);
        assert(s.last() == s[s.len() - 1]);
        assert(without(s, id) =~= s.drop_last().push(s.last()));
    }
    assert(without(s, id) =~= s);
}

/// Taking out a key that is not found changes nothing.
pub proof fn lemma_without_absent_if<K, M>(s: Seq<(K, M)>, id: K)
    ensures
        lookup(s, id) is None ==> without(s, id) == s,
{
    lemma_lookup(s, id);
    if lookup(s, id) is None {
        lemma_without_absent(s, id);
    }
}

/// Taking out the entry of a key takes out the key.
pub proof fn lemma_remove_is_without<K, M>(s: Seq<(K, M)>, id: K, i: int)
    requires
        distinct_keys(s),
        0 <= i < s.len(),
        s[i].0 == id,
    ensures
        s.remove(i) == without(s, id),
    decreases s.len(),
{
    reveal(Seq::filter);
    let init = s.drop_last();
    if i == s.len() - 1 {
        assert forall|j: int| 0 <= j < init.len() implies (#[trigger] init[j]).0 != id by {
            assert(init[j] == s[j]);
        }
        lemma_without_absent(init, id);
        assert(s.remove(i) =~= init);
    } else {
        assert(init[i] == s[i]);
        assert(distinct_keys(init)) by {
            assert forall|a: int, b: int| 0 <= a < b < init.len() implies (#[trigger] init[a]).0
                != (#[trigger] init[b]).0 by {
                assert(init[a] == s[a] && init[b] == s[b]);
            }
        }
        lemma_remove_is_without(init, id, i);
        assert(s[i].0 != s[s.len() - 1].0);
        assert(s.remove(i) =~= init.remove(i).push(s.last()));
    }
}

/// What stands before an entry lacks its key.
pub proof fn lemma_take_lacks<K, M>(s: Seq<(K, M)>, n: int)
    requires
        distinct_keys(s),
        0 <= n < s.len(),
    ensures
        distinct_keys(s.take(n)),
        lookup(s.take(n), s[n].0) is None,
{
    let t = s.take(n);
    assert forall|i: int, j: int| 0 <= i < j < t.len() implies (#[trigger] t[i]).0 != (
    #[trigger] t[j]).0 by {
        assert(t[i] == s[i] && t[j] == s[j]);
    }
    lemma_lookup(t, s[n].0);
    if lookup(t, s[n].0) is Some {
        let i = choose|i: int|
            0 <= i < t.len() && (#[trigger] t[i]).0 == s[n].0 && lookup(t, s[n].0) == Some(t[i].1);
        assert(t[i] == s[i]);
        assert(s[i].0 != s[n].0);
    }
}

/// What is filtered out of what stands before an entry lacks its key.
pub proof fn lemma_prefix_lacks<K, M>(s: Seq<(K, M)>, n: int, keep: spec_fn((K, M)) -> bool)
    requires
        distinct_keys(s),
        0 <= n < s.len(),
    ensures
        distinct_keys(s.take(n).filter(keep)),
        lookup(s.take(n).filter(keep), s[n].0) is None,
{
    lemma_take_lacks(s, n);
    lemma_filter_distinct(s.take(n), keep);
}

/// A change of the values alone leaves the keys alone.
pub proof fn lemma_map_distinct<K, M>(s: Seq<(K, M)>, f: spec_fn((K, M)) -> (K, M))
    requires
        distinct_keys(s),
        forall|e: (K, M)| (#[trigger] f(e)).0 == e.0,
    ensures
        distinct_keys(s.map_values(f)),
        forall|k: K|
            #[trigger] lookup(s.map_values(f), k) == (match lookup(s, k) {
                Some(v) => Some(f((k, v)).1),
                None => None,
            }),
{
    let t = s.map_values(f);
    assert forall|i: int, j: int| 0 <= i < j < t.len() implies (#[trigger] t[i]).0 != (
    #[trigger] t[j]).0 by {
        assert(t[i] == f(s[i]) && t[j] == f(s[j]));
        assert(s[i].0 != s[j].0);
    }
    assert forall|k: K|
        #[trigger] lookup(t, k) == (match lookup(s, k) {
            Some(v) => Some(f((k, v)).1),
            None => None,
        }) by {
        lemma_lookup(s, k);
        lemma_lookup(t, k);
        if lookup(s, k) is Some {
            let i = choose|i: int|
                0 <= i < s.len() && (#[trigger] s[i]).0 == k && lookup(s, k) == Some(s[i].1);
            assert(t[i] == f(s[i]));
            lemma_lookup_at(t, i);
            assert(s[i] == (k, s[i].1));
        } else if lookup(t, k) is Some {
            let i = choose|i: int|
                0 <= i < t.len() && (#[trigger] t[i]).0 == k && lookup(t, k) == Some(t[i].1);
            assert(t[i] == f(s[i]));
            assert(s[i].0 != k);
        }
    }
}

} // verus!
