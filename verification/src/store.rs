//! Association-vector stores.
//!
//! Every registry keeps its tables as vectors of key/value pairs whose keys
//! are pairwise distinct. The mathematical content of such a table is the
//! [`Map`] built by inserting the pairs in order; the lemmas here relate the
//! vector operations the registries use (push, update at an index, removal
//! at an index) to the corresponding map operations.

use vstd::prelude::*;

verus! {

/// A 32-byte identifier's deep view is its view: both are the sequence of
/// its bytes.
pub broadcast proof fn lemma_bytes32_deep_view(a: [u8; 32])
    ensures
        #[trigger] a.deep_view() == a@,
{
    assert(a.deep_view() =~= a@);
}

/// A principal pair's deep view is the pair itself.
pub broadcast proof fn lemma_pair_deep_view(a: (u64, u64))
    ensures
        #[trigger] a.deep_view() == a,
{
}

/// The map a pair sequence denotes: later entries shadow earlier ones with
/// the same key, as repeated inserts would.
pub open spec fn entries_map<K: DeepView, V: DeepView>(s: Seq<(K, V)>) -> Map<K::V, V::V>
    decreases s.len(),
{
    if s.len() == 0 {
        Map::empty()
    } else {
        entries_map(s.drop_last()).insert(s.last().0.deep_view(), s.last().1.deep_view())
    }
}

/// No two entries of the sequence share a key.
pub open spec fn keys_unique<K: DeepView, V: DeepView>(s: Seq<(K, V)>) -> bool {
    forall|i: int, j: int|
        0 <= i < j < s.len() ==> s[i].0.deep_view() != s[j].0.deep_view()
}

/// A key is in the map exactly when some entry carries it.
pub proof fn lemma_entries_map_contains<K: DeepView, V: DeepView>(s: Seq<(K, V)>, k: K::V)
    ensures
        entries_map(s).contains_key(k) <==> exists|i: int|
            0 <= i < s.len() && s[i].0.deep_view() == k,
    decreases s.len(),
{
    if s.len() == 0 {
    } else {
        lemma_entries_map_contains(s.drop_last(), k);
        if entries_map(s).contains_key(k) {
            if s.last().0.deep_view() == k {
                assert(s[s.len() - 1].0.deep_view() == k);
            } else {
                let i = choose|i: int|
                    0 <= i < s.drop_last().len() && s.drop_last()[i].0.deep_view() == k;
                assert(s[i].0.deep_view() == k);
            }
        }
        if exists|i: int| 0 <= i < s.len() && s[i].0.deep_view() == k {
            let i = choose|i: int| 0 <= i < s.len() && s[i].0.deep_view() == k;
            if i == s.len() - 1 {
                assert(entries_map(s).contains_key(k));
            } else {
                assert(s.drop_last()[i].0.deep_view() == k);
            }
        }
    }
}

/// With distinct keys, the entry at any index gives the map's value at its key.
pub proof fn lemma_entries_map_index<K: DeepView, V: DeepView>(s: Seq<(K, V)>, i: int)
    requires
        keys_unique(s),
        0 <= i < s.len(),
    ensures
        entries_map(s).contains_key(s[i].0.deep_view()),
        entries_map(s)[s[i].0.deep_view()] == s[i].1.deep_view(),
    decreases s.len(),
{
    if i == s.len() - 1 {
    } else {
        assert(keys_unique(s.drop_last()));
        assert(s.drop_last()[i] == s[i]);
        lemma_entries_map_index(s.drop_last(), i);
        assert(s[s.len() - 1].0.deep_view() != s[i].0.deep_view());
    }
}

/// Appending an entry inserts its pair into the map.
pub proof fn lemma_entries_map_push<K: DeepView, V: DeepView>(s: Seq<(K, V)>, k: K, v: V)
    ensures
        entries_map(s.push((k, v))) == entries_map(s).insert(k.deep_view(), v.deep_view()),
{
    assert(s.push((k, v)).drop_last() =~= s);
    assert(s.push((k, v)).last() == (k, v));
}

/// Replacing the entry at an index, keeping its key, updates the map there.
pub proof fn lemma_entries_map_update<K: DeepView, V: DeepView>(s: Seq<(K, V)>, i: int, k: K, v: V)
    requires
        keys_unique(s),
        0 <= i < s.len(),
        k.deep_view() == s[i].0.deep_view(),
    ensures
        entries_map(s.update(i, (k, v))) == entries_map(s).insert(
            k.deep_view(),
            v.deep_view(),
        ),
    decreases s.len(),
{
    let t = s.update(i, (k, v));
    if i == s.len() - 1 {
        assert(t.drop_last() =~= s.drop_last());
        assert(t.last() == (k, v));
        assert(entries_map(s.drop_last()).insert(k.deep_view(), v.deep_view()) =~= entries_map(
            s,
        ).insert(k.deep_view(), v.deep_view()));
    } else {
        assert(keys_unique(s.drop_last()));
        assert(s.drop_last()[i] == s[i]);
        lemma_entries_map_update(s.drop_last(), i, k, v);
        assert(t.drop_last() =~= s.drop_last().update(i, (k, v)));
        assert(t.last() == s.last());
        assert(s[s.len() - 1].0.deep_view() != k.deep_view());
        assert(entries_map(s.drop_last()).insert(k.deep_view(), v.deep_view()).insert(
            s.last().0.deep_view(),
            s.last().1.deep_view(),
        ) =~= entries_map(s).insert(k.deep_view(), v.deep_view()));
    }
}

/// Removing the entry at an index removes its key from the map.
pub proof fn lemma_entries_map_remove<K: DeepView, V: DeepView>(s: Seq<(K, V)>, i: int)
    requires
        keys_unique(s),
        0 <= i < s.len(),
    ensures
        entries_map(s.remove(i)) == entries_map(s).remove(s[i].0.deep_view()),
    decreases s.len(),
{
    let k = s[i].0.deep_view();
    if i == s.len() - 1 {
        assert(s.remove(i) =~= s.drop_last());
        lemma_entries_map_contains(s.drop_last(), k);
        assert(forall|j: int|
            0 <= j < s.drop_last().len() ==> s.drop_last()[j] == s[j]);
        assert(!entries_map(s.drop_last()).contains_key(k));
        assert(entries_map(s.drop_last()) =~= entries_map(s).remove(k));
    } else {
        assert(keys_unique(s.drop_last()));
        assert(s.drop_last()[i] == s[i]);
        lemma_entries_map_remove(s.drop_last(), i);
        assert(s.remove(i).drop_last() =~= s.drop_last().remove(i));
        assert(s.remove(i).last() == s.last());
        assert(s[s.len() - 1].0.deep_view() != k);
        assert(entries_map(s.drop_last()).remove(k).insert(
            s.last().0.deep_view(),
            s.last().1.deep_view(),
        ) =~= entries_map(s).remove(k));
    }
}

/// Every element of a filtered sequence is an element of the original.
pub proof fn lemma_filter_membership<A>(s: Seq<A>, pred: spec_fn(A) -> bool, i: int)
    requires
        0 <= i < s.filter(pred).len(),
    ensures
        s.contains(s.filter(pred)[i]),
    decreases s.len(),
{
    reveal(Seq::filter);
    if s.len() == 0 {
    } else {
        let sub = s.drop_last().filter(pred);
        if pred(s.last()) && i == sub.len() {
            assert(s.filter(pred)[i] == s.last());
            assert(s[s.len() - 1] == s.filter(pred)[i]);
        } else {
            lemma_filter_membership(s.drop_last(), pred, i);
            let k = choose|k: int|
                0 <= k < s.drop_last().len() && s.drop_last()[k] == s.drop_last().filter(pred)[i];
            assert(s[k] == s.filter(pred)[i]);
        }
    }
}

/// Filtering keeps pairwise-distinct projections pairwise distinct.
pub proof fn lemma_filter_keeps_distinct<A, B>(
    s: Seq<A>,
    pred: spec_fn(A) -> bool,
    f: spec_fn(A) -> B,
)
    requires
        forall|i: int, j: int| 0 <= i < j < s.len() ==> f(s[i]) != f(s[j]),
    ensures
        forall|i: int, j: int|
            0 <= i < j < s.filter(pred).len() ==> f(s.filter(pred)[i]) != f(s.filter(pred)[j]),
    decreases s.len(),
{
    reveal(Seq::filter);
    if s.len() == 0 {
    } else {
        assert(forall|i: int, j: int|
            0 <= i < j < s.drop_last().len() ==> f(s.drop_last()[i]) != f(s.drop_last()[j]))
            by {
            assert(forall|i: int| 0 <= i < s.drop_last().len() ==> s.drop_last()[i] == s[i]);
        }
        lemma_filter_keeps_distinct(s.drop_last(), pred, f);
        let sub = s.drop_last().filter(pred);
        if pred(s.last()) {
            assert forall|i: int| 0 <= i < sub.len() implies f(sub[i]) != f(s.last()) by {
                lemma_filter_membership(s.drop_last(), pred, i);
                let k = choose|k: int|
                    0 <= k < s.drop_last().len() && s.drop_last()[k] == sub[i];
                assert(s[k] == sub[i]);
                assert(f(s[k]) != f(s[s.len() - 1]));
            }
            assert forall|i: int, j: int|
                0 <= i < j < s.filter(pred).len() implies f(s.filter(pred)[i]) != f(
                s.filter(pred)[j],
            ) by {
                if j < sub.len() {
                    assert(s.filter(pred)[i] == sub[i] && s.filter(pred)[j] == sub[j]);
                } else {
                    assert(s.filter(pred)[j] == s.last());
                    assert(s.filter(pred)[i] == sub[i]);
                }
            }
        }
    }
}

/// Linear search over a table keyed by principals.
pub fn find_u64<V>(s: &Vec<(u64, V)>, k: u64) -> (r: Option<usize>)
    ensures
        match r {
            Some(i) => i < s.len() && s@[i as int].0 == k,
            None => forall|i: int| 0 <= i < s@.len() ==> s@[i].0 != k,
        },
{
    let mut i: usize = 0;
    while i < s.len()
        invariant
            i <= s.len(),
            forall|j: int| 0 <= j < i ==> s@[j].0 != k,
        decreases s.len() - i,
    {
        if s[i].0 == k {
            return Some(i);
        }
        i = i + 1;
    }
    None
}

/// Linear search over a table keyed by ordered principal pairs.
pub fn find_pair<V>(s: &Vec<((u64, u64), V)>, a: u64, b: u64) -> (r: Option<usize>)
    ensures
        match r {
            Some(i) => i < s.len() && s@[i as int].0 == (a, b),
            None => forall|i: int| 0 <= i < s@.len() ==> s@[i].0 != (a, b),
        },
{
    let mut i: usize = 0;
    while i < s.len()
        invariant
            i <= s.len(),
            forall|j: int| 0 <= j < i ==> s@[j].0 != (a, b),
        decreases s.len() - i,
    {
        if s[i].0.0 == a && s[i].0.1 == b {
            return Some(i);
        }
        i = i + 1;
    }
    None
}

/// Byte-for-byte equality of two 32-byte identifiers.
pub fn bytes32_eq(a: &[u8; 32], b: &[u8; 32]) -> (r: bool)
    ensures
        r == (a@ == b@),
{
    let mut i: usize = 0;
    while i < 32
        invariant
            i <= 32,
            forall|j: int| 0 <= j < i ==> a@[j] == b@[j],
        decreases 32 - i,
    {
        if a[i] != b[i] {
            return false;
        }
        i = i + 1;
    }
    proof {
        assert(a@ =~= b@);
    }
    true
}

/// Linear search over a table keyed by 32-byte identifiers.
pub fn find_bytes32<V>(s: &Vec<([u8; 32], V)>, k: &[u8; 32]) -> (r: Option<usize>)
    ensures
        match r {
            Some(i) => i < s.len() && s@[i as int].0@ == k@,
            None => forall|i: int| 0 <= i < s@.len() ==> s@[i].0@ != k@,
        },
{
    let mut i: usize = 0;
    while i < s.len()
        invariant
            i <= s.len(),
            forall|j: int| 0 <= j < i ==> s@[j].0@ != k@,
        decreases s.len() - i,
    {
        if bytes32_eq(&s[i].0, k) {
            return Some(i);
        }
        i = i + 1;
    }
    None
}

/// An element-for-element copy of a vector of copyable values.
pub fn clone_copy_vec<T: Copy>(s: &Vec<T>) -> (r: Vec<T>)
    ensures
        r@ == s@,
{
    let mut r: Vec<T> = Vec::new();
    proof {
        assert(r@ =~= s@.subrange(0, 0));
    }
    let mut i: usize = 0;
    while i < s.len()
        invariant
            i <= s.len(),
            r@ == s@.subrange(0, i as int),
        decreases s.len() - i,
    {
        r.push(s[i]);
        proof {
            assert(s@.subrange(0, i as int).push(s@[i as int]) =~= s@.subrange(0, i + 1));
        }
        i = i + 1;
    }
    proof {
        assert(s@.subrange(0, s@.len() as int) =~= s@);
    }
    r
}

/// An element-for-element copy of a byte vector.
pub fn clone_bytes(s: &Vec<u8>) -> (r: Vec<u8>)
    ensures
        r@ == s@,
{
    let mut r: Vec<u8> = Vec::new();
    let mut i: usize = 0;
    while i < s.len()
        invariant
            i <= s.len(),
            r@ == s@.subrange(0, i as int),
        decreases s.len() - i,
    {
        r.push(s[i]);
        proof {
            assert(s@.subrange(0, i as int).push(s@[i as int]) =~= s@.subrange(0, i + 1));
        }
        i = i + 1;
    }
    proof {
        assert(s@.subrange(0, s@.len() as int) =~= s@);
    }
    r
}

} // verus!
