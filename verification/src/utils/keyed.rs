//! Sequences of records read as maps from a key to a value.
//!
//! The stores of this crate hold their records in a `Vec` in which no key
//! occurs twice; `to_map` is the map that such a sequence stands for.

use vstd::prelude::*;

verus! {

/// No two records of `s` have the same key.
pub open spec fn keys_distinct<T, K>(s: Seq<T>, key: spec_fn(T) -> K) -> bool {
    forall|i: int, j: int|
        0 <= i < s.len() && 0 <= j < s.len() && i != j ==> #[trigger] key(s[i]) != #[trigger] key(
            s[j],
        )
}

/// Some record of `s` has the key `k`.
pub open spec fn has_key<T, K>(s: Seq<T>, key: spec_fn(T) -> K, k: K) -> bool {
    exists|i: int| 0 <= i < s.len() && #[trigger] key(s[i]) == k
}

/// The position of the record with key `k` (meaningful when there is one).
pub open spec fn key_pos<T, K>(s: Seq<T>, key: spec_fn(T) -> K, k: K) -> int {
    choose|i: int| 0 <= i < s.len() && #[trigger] key(s[i]) == k
}

/// The map from each key of `s` to the value of its record.
pub open spec fn to_map<T, K, V>(s: Seq<T>, key: spec_fn(T) -> K, val: spec_fn(T) -> V) -> Map<
    K,
    V,
> {
    Map::new(|k: K| has_key(s, key, k), |k: K| val(s[key_pos(s, key, k)]))
}

/// The record at position `j` is what the map gives for its key.
pub proof fn lemma_to_map_at<T, K, V>(
    s: Seq<T>,
    key: spec_fn(T) -> K,
    val: spec_fn(T) -> V,
    j: int,
)
    requires
        keys_distinct(s, key),
        0 <= j < s.len(),
    ensures
        to_map(s, key, val).contains_key(key(s[j])),
        to_map(s, key, val)[key(s[j])] == val(s[j]),
        key_pos(s, key, key(s[j])) == j,
{
    assert(has_key(s, key, key(s[j])));
    let p = key_pos(s, key, key(s[j]));
    assert(key(s[p]) == key(s[j]));
}

/// Appending a record with a new key inserts it in the map.
pub proof fn lemma_to_map_push<T, K, V>(
    s: Seq<T>,
    key: spec_fn(T) -> K,
    val: spec_fn(T) -> V,
    x: T,
)
    requires
        keys_distinct(s, key),
        !has_key(s, key, key(x)),
    ensures
        keys_distinct(s.push(x), key),
        to_map(s.push(x), key, val) == to_map(s, key, val).insert(key(x), val(x)),
{
    let t = s.push(x);
    assert forall|i: int, j: int|
        0 <= i < t.len() && 0 <= j < t.len() && i != j implies #[trigger] key(t[i]) != #[trigger] key(
        t[j],
    ) by {
        if i < s.len() && j < s.len() {
            assert(t[i] == s[i] && t[j] == s[j]);
        } else if i < s.len() {
            assert(t[i] == s[i]);
        } else {
            assert(t[j] == s[j]);
        }
    }
    let m1 = to_map(t, key, val);
    let m2 = to_map(s, key, val).insert(key(x), val(x));
    assert forall|k: K| m1.contains_key(k) <==> m2.contains_key(k) by {
        if has_key(t, key, k) {
            let i = choose|i: int| 0 <= i < t.len() && #[trigger] key(t[i]) == k;
            if i < s.len() {
                assert(key(s[i]) == k);
            }
        }
        if has_key(s, key, k) {
            let i = choose|i: int| 0 <= i < s.len() && #[trigger] key(s[i]) == k;
            assert(key(t[i]) == k);
        }
        if k == key(x) {
            assert(key(t[s.len() as int]) == k);
        }
    }
    assert forall|k: K| #[trigger] m1.contains_key(k) implies m1[k] == m2[k] by {
        if k == key(x) {
            lemma_to_map_at(t, key, val, s.len() as int);
        } else {
            let i = choose|i: int| 0 <= i < t.len() && #[trigger] key(t[i]) == k;
            assert(i < s.len());
            assert(key(s[i]) == k);
            lemma_to_map_at(t, key, val, i);
            lemma_to_map_at(s, key, val, i);
        }
    }
    assert(m1 =~= m2);
}

/// Replacing a record by one with the same key updates the map there.
pub proof fn lemma_to_map_update<T, K, V>(
    s: Seq<T>,
    key: spec_fn(T) -> K,
    val: spec_fn(T) -> V,
    j: int,
    x: T,
)
    requires
        keys_distinct(s, key),
        0 <= j < s.len(),
        key(x) == key(s[j]),
    ensures
        keys_distinct(s.update(j, x), key),
        to_map(s.update(j, x), key, val) == to_map(s, key, val).insert(key(x), val(x)),
{
    let t = s.update(j, x);
    assert forall|a: int, b: int|
        0 <= a < t.len() && 0 <= b < t.len() && a != b implies #[trigger] key(t[a]) != #[trigger] key(
        t[b],
    ) by {
        assert(key(t[a]) == key(s[a]));
        assert(key(t[b]) == key(s[b]));
    }
    let m1 = to_map(t, key, val);
    let m2 = to_map(s, key, val).insert(key(x), val(x));
    assert forall|k: K| m1.contains_key(k) <==> m2.contains_key(k) by {
        if has_key(t, key, k) {
            let i = choose|i: int| 0 <= i < t.len() && #[trigger] key(t[i]) == k;
            assert(key(s[i]) == k);
        }
        if has_key(s, key, k) {
            let i = choose|i: int| 0 <= i < s.len() && #[trigger] key(s[i]) == k;
            assert(key(t[i]) == k);
        }
    }
    assert forall|k: K| #[trigger] m1.contains_key(k) implies m1[k] == m2[k] by {
        let i = choose|i: int| 0 <= i < t.len() && #[trigger] key(t[i]) == k;
        lemma_to_map_at(t, key, val, i);
        if i != j {
            assert(key(s[i]) == k);
            lemma_to_map_at(s, key, val, i);
        }
    }
    assert(m1 =~= m2);
}

/// Removing the record at `j` removes its key from the map.
pub proof fn lemma_to_map_remove<T, K, V>(
    s: Seq<T>,
    key: spec_fn(T) -> K,
    val: spec_fn(T) -> V,
    j: int,
)
    requires
        keys_distinct(s, key),
        0 <= j < s.len(),
    ensures
        keys_distinct(s.remove(j), key),
        to_map(s.remove(j), key, val) == to_map(s, key, val).remove(key(s[j])),
{
    let t = s.remove(j);
    assert forall|a: int, b: int|
        0 <= a < t.len() && 0 <= b < t.len() && a != b implies #[trigger] key(t[a]) != #[trigger] key(
        t[b],
    ) by {
        let a2 = if a < j { a } else { a + 1 };
        let b2 = if b < j { b } else { b + 1 };
        assert(t[a] == s[a2]);
        assert(t[b] == s[b2]);
    }
    let m1 = to_map(t, key, val);
    let m2 = to_map(s, key, val).remove(key(s[j]));
    assert forall|k: K| m1.contains_key(k) <==> m2.contains_key(k) by {
        if has_key(t, key, k) {
            let i = choose|i: int| 0 <= i < t.len() && #[trigger] key(t[i]) == k;
            let i2 = if i < j { i } else { i + 1 };
            assert(t[i] == s[i2]);
            assert(key(s[i2]) == k);
        }
        if has_key(s, key, k) && k != key(s[j]) {
            let i = choose|i: int| 0 <= i < s.len() && #[trigger] key(s[i]) == k;
            assert(i != j);
            let i2 = if i < j { i } else { i - 1 };
            assert(t[i2] == s[i]);
            assert(key(t[i2]) == k);
        }
    }
    assert forall|k: K| #[trigger] m1.contains_key(k) implies m1[k] == m2[k] by {
        let i = choose|i: int| 0 <= i < t.len() && #[trigger] key(t[i]) == k;
        let i2 = if i < j { i } else { i + 1 };
        assert(t[i] == s[i2]);
        lemma_to_map_at(t, key, val, i);
        lemma_to_map_at(s, key, val, i2);
    }
    assert(m1 =~= m2);
}

/// The sequence with `x` in place of the record with the same key, or with
/// `x` appended if there is none.
pub open spec fn upsert<T, K>(s: Seq<T>, key: spec_fn(T) -> K, x: T) -> Seq<T> {
    if has_key(s, key, key(x)) {
        s.update(key_pos(s, key, key(x)), x)
    } else {
        s.push(x)
    }
}

/// Upserting a record inserts it in the map.
pub proof fn lemma_upsert<T, K, V>(s: Seq<T>, key: spec_fn(T) -> K, val: spec_fn(T) -> V, x: T)
    requires
        keys_distinct(s, key),
    ensures
        keys_distinct(upsert(s, key, x), key),
        to_map(upsert(s, key, x), key, val) == to_map(s, key, val).insert(key(x), val(x)),
{
    if has_key(s, key, key(x)) {
        let j = key_pos(s, key, key(x));
        lemma_to_map_update(s, key, val, j, x);
    } else {
        lemma_to_map_push(s, key, val, x);
    }
}

/// The empty sequence stands for the empty map.
pub proof fn lemma_to_map_empty<T, K, V>(key: spec_fn(T) -> K, val: spec_fn(T) -> V)
    ensures
        keys_distinct(Seq::<T>::empty(), key),
        to_map(Seq::<T>::empty(), key, val) == Map::<K, V>::empty(),
{
    assert(to_map(Seq::<T>::empty(), key, val) =~= Map::<K, V>::empty());
}

/// A sequence with distinct keys has as many records as its map has keys.
pub proof fn lemma_to_map_len<T, K, V>(s: Seq<T>, key: spec_fn(T) -> K, val: spec_fn(T) -> V)
    requires
        keys_distinct(s, key),
    ensures
        to_map(s, key, val).dom().finite(),
        to_map(s, key, val).len() == s.len(),
    decreases s.len(),
{
    if s.len() == 0 {
        lemma_to_map_empty(key, val);
        assert(s =~= Seq::<T>::empty());
    } else {
        let t = s.drop_last();
        let x = s.last();
        assert(keys_distinct(t, key)) by {
            assert forall|i: int, j: int|
                0 <= i < t.len() && 0 <= j < t.len() && i != j implies #[trigger] key(t[i])
                != #[trigger] key(t[j]) by {
                assert(t[i] == s[i] && t[j] == s[j]);
            }
        }
        lemma_to_map_len(t, key, val);
        assert(!has_key(t, key, key(x))) by {
            if has_key(t, key, key(x)) {
                let k = choose|k: int| 0 <= k < t.len() && #[trigger] key(t[k]) == key(x);
                assert(key(s[k]) == key(s[s.len() - 1]));
            }
        }
        lemma_to_map_push(t, key, val, x);
        assert(t.push(x) =~= s);
        assert(!to_map(t, key, val).dom().contains(key(x)));
        assert(to_map(s, key, val).dom() =~= to_map(t, key, val).dom().insert(key(x)));
    }
}

} // verus!
