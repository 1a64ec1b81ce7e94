use vstd::prelude::*;

verus! {

/// No key occurs twice in an association list.
pub open spec fn keys_unique<K, V>(s: Seq<(K, V)>) -> bool {
    forall|i: int, j: int|
        0 <= i < s.len() && 0 <= j < s.len() && #[trigger] s[i].0 == #[trigger] s[j].0 ==> i == j
}

pub open spec fn has_key<K, V>(s: Seq<(K, V)>, k: K) -> bool {
    exists|i: int| 0 <= i < s.len() && #[trigger] s[i].0 == k
}

pub open spec fn key_index<K, V>(s: Seq<(K, V)>, k: K) -> int {
    choose|i: int| 0 <= i < s.len() && #[trigger] s[i].0 == k
}

/// The value stored under `k`, if any.
pub open spec fn assoc_get<K, V>(s: Seq<(K, V)>, k: K) -> Option<V> {
    if has_key(s, k) {
        Some(s[key_index(s, k)].1)
    } else {
        None
    }
}

/// Stores `v` under `k`: in place of the old value, or appended as a new entry.
pub open spec fn assoc_insert<K, V>(s: Seq<(K, V)>, k: K, v: V) -> Seq<(K, V)> {
    if has_key(s, k) {
        s.update(key_index(s, k), (k, v))
    } else {
        s.push((k, v))
    }
}

pub proof fn lemma_key_index<K, V>(s: Seq<(K, V)>, i: int, k: K)
    requires
        keys_unique(s),
        0 <= i < s.len(),
        s[i].0 == k,
    ensures
        has_key(s, k),
        key_index(s, k) == i,
        assoc_get(s, k) == Some(s[i].1),
{
    assert(has_key(s, k));
    let j = key_index(s, k);
    assert(s[j].0 == s[i].0);
}

pub proof fn lemma_insert_unique<K, V>(s: Seq<(K, V)>, k: K, v: V)
    requires
        keys_unique(s),
    ensures
        keys_unique(assoc_insert(s, k, v)),
        has_key(assoc_insert(s, k, v), k),
        assoc_get(assoc_insert(s, k, v), k) == Some(v),
{
    let t = assoc_insert(s, k, v);
    if has_key(s, k) {
        let m = key_index(s, k);
        assert forall|i: int, j: int|
            0 <= i < t.len() && 0 <= j < t.len() && #[trigger] t[i].0 == #[trigger] t[j].0 implies i
            == j by {
            if i != m && j != m {
                assert(s[i].0 == s[j].0);
            } else if i == m && j != m {
                assert(s[j].0 == s[m].0);
            } else if i != m && j == m {
                assert(s[i].0 == s[m].0);
            }
        }
        lemma_key_index(t, m, k);
    } else {
        assert forall|i: int, j: int|
            0 <= i < t.len() && 0 <= j < t.len() && #[trigger] t[i].0 == #[trigger] t[j].0 implies i
            == j by {
            if i < s.len() && j < s.len() {
                assert(s[i].0 == s[j].0);
            } else if i < s.len() {
                assert(s[i].0 == k);
            } else if j < s.len() {
                assert(s[j].0 == k);
            }
        }
        lemma_key_index(t, s.len() as int, k);
    }
}

pub proof fn lemma_insert_other<K, V>(s: Seq<(K, V)>, k: K, v: V, q: K)
    requires
        keys_unique(s),
        q != k,
    ensures
        assoc_get(assoc_insert(s, k, v), q) == assoc_get(s, q),
{
    let t = assoc_insert(s, k, v);
    lemma_insert_unique(s, k, v);
    if has_key(s, q) {
        let j = key_index(s, q);
        assert(t[j] == s[j]);
        lemma_key_index(t, j, q);
    } else {
        if has_key(t, q) {
            let j = key_index(t, q);
            if j < s.len() {
                assert(s[j] == t[j]);
            }
        }
    }
}

} // verus!
