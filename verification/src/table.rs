//! Sequences of records with distinct keys, read as finite maps.

use vstd::prelude::*;

verus! {

/// No two records of `s` have the same key.
pub open spec fn unique_keys<T, K>(s: Seq<T>, key: spec_fn(T) -> K) -> bool {
    forall|i: int, j: int| 0 <= i < j < s.len() ==> key(s[i]) != key(s[j])
}

/// Some record of `s` has the key `k`.
pub open spec fn has_key<T, K>(s: Seq<T>, key: spec_fn(T) -> K, k: K) -> bool {
    exists|i: int| 0 <= i < s.len() && key(s[i]) == k
}

/// The place of a record with key `k`.
pub open spec fn index_of<T, K>(s: Seq<T>, key: spec_fn(T) -> K, k: K) -> int {
    choose|i: int| 0 <= i < s.len() && key(s[i]) == k
}

/// The map from each key in `s` to the value of its record.
pub open spec fn table_map<T, K, V>(s: Seq<T>, key: spec_fn(T) -> K, val: spec_fn(T) -> V) -> Map<
    K,
    V,
> {
    Map::new(|k: K| has_key(s, key, k), |k: K| val(s[index_of(s, key, k)]))
}

/// The record at place `i` is what the map holds under its key.
pub proof fn lemma_table_get<T, K, V>(
    s: Seq<T>,
    key: spec_fn(T) -> K,
    val: spec_fn(T) -> V,
    i: int,
)
    requires
        unique_keys(s, key),
        0 <= i < s.len(),
    ensures
        has_key(s, key, key(s[i])),
        index_of(s, key, key(s[i])) == i,
        table_map(s, key, val).contains_key(key(s[i])),
        table_map(s, key, val)[key(s[i])] == val(s[i]),
{
    let k = key(s[i]);
    assert(0 <= i < s.len() && key(s[i]) == k);
    let j = index_of(s, key, k);
    assert(0 <= j < s.len() && key(s[j]) == k);
    if j < i {
        assert(key(s[j]) != key(s[i]));
    } else if i < j {
        assert(key(s[i]) != key(s[j]));
    }
}

/// A key that no record has is not in the map.
pub proof fn lemma_table_absent<T, K, V>(
    s: Seq<T>,
    key: spec_fn(T) -> K,
    val: spec_fn(T) -> V,
    k: K,
)
    requires
        forall|i: int| 0 <= i < s.len() ==> key(s[i]) != k,
    ensures
        !has_key(s, key, k),
        !table_map(s, key, val).contains_key(k),
{
}

/// Putting a record with a new key into `s` at any place adds it to the map.
pub proof fn lemma_table_insert<T, K, V>(
    s: Seq<T>,
    key: spec_fn(T) -> K,
    val: spec_fn(T) -> V,
    at: int,
    x: T,
)
    requires
        unique_keys(s, key),
        0 <= at <= s.len(),
        !has_key(s, key, key(x)),
    ensures
        unique_keys(s.insert(at, x), key),
        table_map(s.insert(at, x), key, val) == table_map(s, key, val).insert(key(x), val(x)),
{
    let t = s.insert(at, x);
    assert forall|i: int, j: int| 0 <= i < j < t.len() implies key(t[i]) != key(t[j]) by {
        let oi = if i < at { i } else { i - 1 };
        let oj = if j < at { j } else { j - 1 };
        if i == at {
            assert(0 <= oj < s.len() && t[j] == s[oj]);
        } else if j == at {
            assert(0 <= oi < s.len() && t[i] == s[oi]);
        } else {
            assert(t[i] == s[oi] && t[j] == s[oj]);
        }
    }
    let m = table_map(t, key, val);
    let n = table_map(s, key, val).insert(key(x), val(x));
    assert forall|k: K| m.contains_key(k) <==> n.contains_key(k) by {
        if has_key(t, key, k) {
            let i = index_of(t, key, k);
            if i != at {
                let oi = if i < at { i } else { i - 1 };
                assert(0 <= oi < s.len() && key(s[oi]) == k);
            }
        }
        if has_key(s, key, k) {
            let i = index_of(s, key, k);
            let ni = if i < at { i } else { i + 1 };
            assert(0 <= ni < t.len() && key(t[ni]) == k);
        }
        if k == key(x) {
            assert(0 <= at < t.len() && key(t[at]) == k);
        }
    }
    assert forall|k: K| m.contains_key(k) implies m[k] == n[k] by {
        let i = index_of(t, key, k);
        assert(0 <= i < t.len() && key(t[i]) == k);
        lemma_table_get(t, key, val, i);
        if i == at {
        } else {
            let oi = if i < at { i } else { i - 1 };
            assert(t[i] == s[oi]);
            lemma_table_get(s, key, val, oi);
        }
    }
    assert(m =~= n);
}

/// Replacing a record by one with the same key replaces its value in the map.
pub proof fn lemma_table_update<T, K, V>(
    s: Seq<T>,
    key: spec_fn(T) -> K,
    val: spec_fn(T) -> V,
    at: int,
    x: T,
)
    requires
        unique_keys(s, key),
        0 <= at < s.len(),
        key(x) == key(s[at]),
    ensures
        unique_keys(s.update(at, x), key),
        table_map(s.update(at, x), key, val) == table_map(s, key, val).insert(key(x), val(x)),
{
    let t = s.update(at, x);
    assert forall|i: int, j: int| 0 <= i < j < t.len() implies key(t[i]) != key(t[j]) by {
        assert(key(t[i]) == key(s[i]) && key(t[j]) == key(s[j]));
    }
    let m = table_map(t, key, val);
    let n = table_map(s, key, val).insert(key(x), val(x));
    assert forall|k: K| m.contains_key(k) <==> n.contains_key(k) by {
        if has_key(t, key, k) {
            let i = index_of(t, key, k);
            assert(0 <= i < s.len() && key(s[i]) == k);
        }
        if has_key(s, key, k) {
            let i = index_of(s, key, k);
            assert(0 <= i < t.len() && key(t[i]) == k);
        }
        if k == key(x) {
            assert(0 <= at < t.len() && key(t[at]) == k);
        }
    }
    assert forall|k: K| m.contains_key(k) implies m[k] == n[k] by {
        let i = index_of(t, key, k);
        assert(0 <= i < t.len() && key(t[i]) == k);
        lemma_table_get(t, key, val, i);
        if i != at {
            assert(t[i] == s[i]);
            lemma_table_get(s, key, val, i);
        }
    }
    assert(m =~= n);
}

/// Taking a record out of `s` takes its key out of the map.
pub proof fn lemma_table_remove<T, K, V>(
    s: Seq<T>,
    key: spec_fn(T) -> K,
    val: spec_fn(T) -> V,
    at: int,
)
    requires
        unique_keys(s, key),
        0 <= at < s.len(),
    ensures
        unique_keys(s.remove(at), key),
        table_map(s.remove(at), key, val) == table_map(s, key, val).remove(key(s[at])),
{
    let t = s.remove(at);
    assert forall|i: int, j: int| 0 <= i < j < t.len() implies key(t[i]) != key(t[j]) by {
        let oi = if i < at { i } else { i + 1 };
        let oj = if j < at { j } else { j + 1 };
        assert(t[i] == s[oi] && t[j] == s[oj]);
    }
    let m = table_map(t, key, val);
    let n = table_map(s, key, val).remove(key(s[at]));
    assert forall|k: K| m.contains_key(k) <==> n.contains_key(k) by {
        if has_key(t, key, k) {
            let i = index_of(t, key, k);
            let oi = if i < at { i } else { i + 1 };
            assert(0 <= oi < s.len() && key(s[oi]) == k);
            if oi < at {
                assert(key(s[oi]) != key(s[at]));
            } else {
                assert(key(s[at]) != key(s[oi]));
            }
        }
        if has_key(s, key, k) && k != key(s[at]) {
            let i = index_of(s, key, k);
            let ni = if i < at { i } else { i - 1 };
            assert(0 <= ni < t.len() && key(t[ni]) == k);
        }
    }
    assert forall|k: K| m.contains_key(k) implies m[k] == n[k] by {
        let i = index_of(t, key, k);
        assert(0 <= i < t.len() && key(t[i]) == k);
        lemma_table_get(t, key, val, i);
        let oi = if i < at { i } else { i + 1 };
        assert(t[i] == s[oi]);
        lemma_table_get(s, key, val, oi);
    }
    assert(m =~= n);
}

} // verus!
