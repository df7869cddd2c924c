//! Contract storage as two aligned columns: a column of distinct keys and a
//! column of the values stored under them.

use vstd::prelude::*;

verus! {

/// The map that aligned key and value columns hold: each key of `keys` is
/// mapped to the value at its position.
pub open spec fn column_map<K, V>(keys: Seq<K>, vals: Seq<V>) -> Map<K, V> {
    Map::new(|k: K| keys.contains(k), |k: K| vals[keys.index_of(k)])
}

/// With distinct keys, the value stored under the `i`-th key is the `i`-th value.
pub proof fn lemma_column_map_at<K, V>(keys: Seq<K>, vals: Seq<V>, i: int)
    requires
        keys.no_duplicates(),
        0 <= i < keys.len(),
    ensures
        column_map(keys, vals).contains_key(keys[i]),
        column_map(keys, vals)[keys[i]] == vals[i],
{
    assert(keys.contains(keys[i]));
    let j = keys.index_of(keys[i]);
    assert(0 <= j < keys.len() && keys[j] == keys[i]);
    assert(j == i);
}

/// Overwriting the `i`-th value stores the new value under the `i`-th key and
/// leaves every other key as it was.
pub proof fn lemma_column_map_update<K, V>(keys: Seq<K>, vals: Seq<V>, i: int, v: V)
    requires
        keys.no_duplicates(),
        keys.len() == vals.len(),
        0 <= i < keys.len(),
    ensures
        column_map(keys, vals.update(i, v)) =~= column_map(keys, vals).insert(keys[i], v),
{
    let m1 = column_map(keys, vals.update(i, v));
    let m2 = column_map(keys, vals).insert(keys[i], v);
    assert forall|k: K| #[trigger] m1.contains_key(k) implies m1[k] == m2[k] by {
        let j = keys.index_of(k);
        assert(0 <= j < keys.len() && keys[j] == k);
        if j == i {
        } else {
            assert(k != keys[i]);
        }
    }
    assert forall|k: K| m2.contains_key(k) implies #[trigger] m1.contains_key(k) by {
        if k == keys[i] {
            assert(keys.contains(keys[i]));
        }
    }
}

/// Appending a new key with its value stores that value under it and leaves every
/// other key as it was; the keys stay distinct.
pub proof fn lemma_column_map_push<K, V>(keys: Seq<K>, vals: Seq<V>, k: K, v: V)
    requires
        keys.no_duplicates(),
        keys.len() == vals.len(),
        !keys.contains(k),
    ensures
        keys.push(k).no_duplicates(),
        column_map(keys.push(k), vals.push(v)) =~= column_map(keys, vals).insert(k, v),
{
    let nk = keys.push(k);
    let nv = vals.push(v);
    assert forall|a: int, b: int| 0 <= a < nk.len() && 0 <= b < nk.len() && a != b implies nk[a]
        != nk[b] by {
        if a == keys.len() {
            assert(!keys.contains(k));
            assert(nk[b] == keys[b]);
        } else if b == keys.len() {
            assert(nk[a] == keys[a]);
        } else {
        }
    }
    let m1 = column_map(nk, nv);
    let m2 = column_map(keys, vals).insert(k, v);
    assert forall|q: K| #[trigger] m1.contains_key(q) implies m2.contains_key(q) && m1[q] == m2[q] by {
        let j = nk.index_of(q);
        assert(0 <= j < nk.len() && nk[j] == q);
        if q == k {
            assert(j == keys.len()) by {
                if j < keys.len() {
                    assert(keys[j] == k);
                }
            }
        } else {
            assert(j < keys.len());
            assert(keys[j] == q);
            assert(keys.contains(q));
            let j2 = keys.index_of(q);
            assert(0 <= j2 < keys.len() && keys[j2] == q);
            assert(nk[j2] == q);
            assert(j == j2);
        }
    }
    assert forall|q: K| m2.contains_key(q) implies #[trigger] m1.contains_key(q) by {
        if q == k {
            assert(nk[keys.len() as int] == k);
        } else {
            let j2 = keys.index_of(q);
            assert(nk[j2] == q);
        }
    }
}

} // verus!
